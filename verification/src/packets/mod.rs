//! The packets that travel between the broker and an agent, one JSON object
//! per text frame: how a frame is read, how a packet is written, and that
//! what is written can be read back.

pub mod incoming;
pub mod outgoing;
pub mod reading;

pub use incoming::IncomingPacket;
pub use outgoing::{ErrorType, OutgoingPacket};
