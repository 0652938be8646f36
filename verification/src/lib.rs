//! A relay between a chat-driven control plane and remote agents.
//!
//! Agents hold long-lived socket connections to a broker. Operators issue
//! commands scoped to a control channel; the broker resolves which agents a
//! selector names within that channel and queues the command for each of them.
//!
//! This crate is the sequential core of that broker: the wire protocol, the
//! per-connection state machine with its bounded mailbox, the connection
//! table, and the command relay. Sockets, timers and tasks live with the
//! caller, which feeds events in and carries actions out.
//!
//! The contracts speak of the mathematical values of the types (`@`), and
//! [`laws`] proves from them what holds of the table whatever happens to it.
//! Every function is verified against its contract, but for the few that
//! call out of the crate; these say in their comments what they take on
//! trust. They call `serde_json` for the text of JSON ([`json`]), `regex` for
//! selectors ([`selector`]), `uuid` for ids ([`ids`]), and two string
//! functions of the standard library for the format of chat messages.

pub mod client;
pub mod control;
pub mod embed;
pub mod ids;
pub mod json;
pub mod laws;
pub mod mailbox;
pub mod manager;
pub mod packets;
pub mod relay;
pub mod selector;
mod seq_facts;
pub mod server_command;
pub mod text;
