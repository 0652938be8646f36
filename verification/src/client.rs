//! One agent connection: its identity, its liveness, its mailbox, and the
//! decisions of its read/write loop.
//!
//! A connection is open until its transport fails; then it is closed for good.
//! While it is open, the loop that owns the socket reports what happened as a
//! [`ClientEvent`] and carries out the [`ClientAction`] it is given in return.

use vstd::prelude::*;
use vstd::string::*;

use crate::json::is_plain;
use crate::mailbox::{Mailbox, MailboxView, SendError};
use crate::packets::incoming::{decode, IncomingPacket, IncomingPacketView};
use crate::packets::outgoing::{
    lemma_error_text, wire_text, ErrorType, OutgoingPacket, OutgoingPacketView,
};
use crate::server_command::ServerCommand;

verus! {

/// The notice that an agent is online under a name.
#[derive(Debug, PartialEq, Eq)]
pub struct AgentOnline {
    pub name: String,
}

/// What the loop of a connection reports.
#[derive(Debug, PartialEq, Eq)]
pub enum ClientEvent {
    /// A text frame arrived.
    Frame(String),
    /// The socket closed or failed, or delivered something that is no text
    /// frame.
    Disconnected,
    /// The socket can take the next frame.
    WriterReady,
    /// Writing the last frame failed.
    WriteFailed,
}

/// What the loop of a connection is to do next.
#[derive(Debug, PartialEq, Eq)]
pub enum ClientAction {
    /// Wait for the next event.
    Continue,
    /// Publish that the agent of this name is online, then wait.
    Announce(String),
    /// Write this text as one frame, then wait.
    Write(String),
    /// Send a close frame, whether or not that succeeds, and end the loop.
    CloseAndStop,
    /// End the loop.
    Stop,
}

/// What the loop of a connection does once it has carried out an action.
#[derive(Debug, PartialEq, Eq)]
pub enum Next {
    /// Report this event at once.
    Report(ClientEvent),
    /// Wait for the socket to deliver a frame or for the mailbox to fill.
    Wait,
    /// The loop is over.
    End,
}

/// The mathematical value of a [`Next`].
pub enum NextView {
    Report(ClientEventView),
    Wait,
    End,
}

/// The mathematical value of a [`ClientEvent`].
pub enum ClientEventView {
    Frame(Seq<char>),
    Disconnected,
    WriterReady,
    WriteFailed,
}

/// The mathematical value of a [`ClientAction`].
pub enum ClientActionView {
    Continue,
    Announce(Seq<char>),
    Write(Seq<char>),
    CloseAndStop,
    Stop,
}

impl View for ClientEvent {
    type V = ClientEventView;

    open spec fn view(&self) -> ClientEventView {
        match self {
            ClientEvent::Frame(text) => ClientEventView::Frame(text@),
            ClientEvent::Disconnected => ClientEventView::Disconnected,
            ClientEvent::WriterReady => ClientEventView::WriterReady,
            ClientEvent::WriteFailed => ClientEventView::WriteFailed,
        }
    }
}

impl View for ClientAction {
    type V = ClientActionView;

    open spec fn view(&self) -> ClientActionView {
        match self {
            ClientAction::Continue => ClientActionView::Continue,
            ClientAction::Announce(name) => ClientActionView::Announce(name@),
            ClientAction::Write(text) => ClientActionView::Write(text@),
            ClientAction::CloseAndStop => ClientActionView::CloseAndStop,
            ClientAction::Stop => ClientActionView::Stop,
        }
    }
}

impl View for Next {
    type V = NextView;

    open spec fn view(&self) -> NextView {
        match self {
            Next::Report(event) => NextView::Report(event@),
            Next::Wait => NextView::Wait,
            Next::End => NextView::End,
        }
    }
}

/// What follows an action that was carried out. `after_writer` says that the
/// action answered a `WriterReady`; `write_failed` says that the action was
/// to write a frame and the socket refused it.
///
/// A frame that was written, or that failed, is reported. After every other
/// action that lets the loop go on, the writer is asked once: a frame may
/// have left a reply in the mailbox. Only when the writer had nothing to
/// write does the loop wait.
pub open spec fn followed(
    after_writer: bool,
    action: ClientActionView,
    write_failed: bool,
) -> NextView {
    match action {
        ClientActionView::Stop => NextView::End,
        ClientActionView::CloseAndStop => NextView::End,
        ClientActionView::Write(_) => if write_failed {
            NextView::Report(ClientEventView::WriteFailed)
        } else {
            NextView::Report(ClientEventView::WriterReady)
        },
        ClientActionView::Announce(_) => NextView::Report(ClientEventView::WriterReady),
        ClientActionView::Continue => if after_writer {
            NextView::Wait
        } else {
            NextView::Report(ClientEventView::WriterReady)
        },
    }
}

impl ClientEvent {
    /// Whether the event is the socket's readiness for the next frame.
    pub fn is_writer_ready(&self) -> (ready: bool)
        ensures
            ready == (self@ is WriterReady),
    {
        match self {
            ClientEvent::WriterReady => true,
            _ => false,
        }
    }
}

/// Decides what the loop does once it has carried out `action`.
pub fn follow_up(after_writer: bool, action: &ClientAction, write_failed: bool) -> (next: Next)
    ensures
        next@ == followed(after_writer, action@, write_failed),
{
    match action {
        ClientAction::Stop => Next::End,
        ClientAction::CloseAndStop => Next::End,
        ClientAction::Write(_) => {
            if write_failed {
                Next::Report(ClientEvent::WriteFailed)
            } else {
                Next::Report(ClientEvent::WriterReady)
            }
        },
        ClientAction::Announce(_) => Next::Report(ClientEvent::WriterReady),
        ClientAction::Continue => {
            if after_writer {
                Next::Wait
            } else {
                Next::Report(ClientEvent::WriterReady)
            }
        },
    }
}

/// An agent connection.
pub struct WsClient {
    outgoing_stream: Mailbox,
    name: String,
    ctrl_channel_id: String,
    uuid: u128,
    alive: bool,
}

/// The mathematical value of a [`WsClient`].
pub struct WsClientView {
    pub uuid: u128,
    pub name: Seq<char>,
    pub ctrl_channel_id: Seq<char>,
    pub alive: bool,
    pub mailbox: MailboxView,
}

/// The message that answers a frame with an unknown packet id.
pub open spec fn invalid_id_message() -> Seq<char> {
    "Invalid packet ID"@
}

/// The packet that answers `packet`, if the agent is owed an answer.
pub open spec fn reply_to(packet: IncomingPacketView) -> Option<OutgoingPacketView> {
    match packet {
        IncomingPacketView::InvalidID => Some(
            OutgoingPacketView::Error(ErrorType::PacketInvalidID, invalid_id_message()),
        ),
        IncomingPacketView::Invalid(detail) => Some(
            OutgoingPacketView::Error(ErrorType::PacketDeserializationError, detail),
        ),
        _ => None,
    }
}

impl WsClientView {
    /// The mailbox keeps its bounds, and a closed connection is not alive.
    pub open spec fn wf(self) -> bool {
        &&& self.mailbox.wf()
        &&& self.mailbox.closed ==> !self.alive
    }

    /// A connection as it is when its socket has just been accepted.
    pub open spec fn fresh(uuid: u128) -> WsClientView {
        WsClientView {
            uuid,
            name: Seq::empty(),
            ctrl_channel_id: Seq::empty(),
            alive: true,
            mailbox: MailboxView { queue: Seq::empty(), closed: false },
        }
    }

    /// Whether the connection has not terminated.
    pub open spec fn open(self) -> bool {
        !self.mailbox.closed
    }

    /// The connection marked dead. Its socket and mailbox are untouched.
    pub open spec fn kill(self) -> WsClientView {
        WsClientView { alive: false, ..self }
    }

    /// The connection after an attempt to queue `packet` for its agent.
    pub open spec fn enqueue(self, packet: OutgoingPacketView) -> WsClientView {
        WsClientView { mailbox: self.mailbox.send(packet), ..self }
    }

    /// The connection after its transport failed: dead, and closed for good.
    pub open spec fn terminate(self) -> WsClientView {
        WsClientView { alive: false, mailbox: self.mailbox.close(), ..self }
    }

    /// The connection after `packet` was handled. A name or a control channel
    /// is taken over. A frame that could not be accepted is answered with an
    /// error packet if the mailbox takes it, and silently otherwise.
    pub open spec fn apply(self, packet: IncomingPacketView) -> WsClientView {
        match packet {
            IncomingPacketView::SetName(name) => WsClientView { name, ..self },
            IncomingPacketView::SetServer(channel) => WsClientView {
                ctrl_channel_id: channel,
                ..self
            },
            _ => self.enqueue(reply_to(packet).unwrap()),
        }
    }

    /// The name to announce when `packet` is handled, if any. A name that
    /// arrives is announced if the control channel is known; when a control
    /// channel arrives, the name is announced if it is known. What arrives
    /// does not matter, only what the connection holds of the other.
    pub open spec fn announcement(self, packet: IncomingPacketView) -> Option<Seq<char>> {
        match packet {
            IncomingPacketView::SetName(name) => if self.ctrl_channel_id.len() > 0 {
                Some(name)
            } else {
                None
            },
            IncomingPacketView::SetServer(_) => if self.name.len() > 0 {
                Some(self.name)
            } else {
                None
            },
            _ => None,
        }
    }

    /// The connection after its loop reported `event`.
    pub open spec fn step(self, event: ClientEventView) -> WsClientView {
        if !self.open() {
            self
        } else {
            match event {
                ClientEventView::Frame(text) => self.apply(decode(text)),
                ClientEventView::Disconnected => self.terminate(),
                ClientEventView::WriterReady => WsClientView {
                    mailbox: self.mailbox.after_recv(),
                    ..self
                },
                ClientEventView::WriteFailed => self.terminate(),
            }
        }
    }

    /// What the loop is to do after it reported `event`.
    pub open spec fn action(self, event: ClientEventView) -> ClientActionView {
        if !self.open() {
            ClientActionView::Stop
        } else {
            match event {
                ClientEventView::Frame(text) => match self.announcement(decode(text)) {
                    Some(name) => ClientActionView::Announce(name),
                    None => ClientActionView::Continue,
                },
                ClientEventView::Disconnected => ClientActionView::CloseAndStop,
                ClientEventView::WriterReady => if self.mailbox.queue.len() > 0 {
                    ClientActionView::Write(wire_text(self.mailbox.queue[0]))
                } else {
                    ClientActionView::Continue
                },
                ClientEventView::WriteFailed => ClientActionView::Stop,
            }
        }
    }
}

impl View for WsClient {
    type V = WsClientView;

    closed spec fn view(&self) -> WsClientView {
        WsClientView {
            uuid: self.uuid,
            name: self.name@,
            ctrl_channel_id: self.ctrl_channel_id@,
            alive: self.alive,
            mailbox: self.outgoing_stream@,
        }
    }
}

impl WsClient {
    /// What holds of every connection: its mailbox keeps its bounds, and
    /// once it has terminated it is not alive.
    #[verifier::type_invariant]
    pub open spec fn wf(&self) -> bool {
        self@.wf()
    }

    /// A connection for a socket that has just been accepted: no name, no
    /// control channel, alive, with an open and empty mailbox.
    pub fn new(uuid: u128) -> (client: WsClient)
        ensures
            client.wf(),
            client@ == WsClientView::fresh(uuid),
    {
        WsClient {
            outgoing_stream: Mailbox::new(),
            name: String::new(),
            ctrl_channel_id: String::new(),
            uuid,
            alive: true,
        }
    }

    /// The id of the connection.
    pub fn uuid(&self) -> (uuid: u128)
        ensures
            uuid == self@.uuid,
    {
        self.uuid
    }

    /// The name the agent has announced; empty if it has announced none.
    pub fn get_name(&self) -> (name: String)
        ensures
            name@ == self@.name,
    {
        self.name.clone()
    }

    /// The control channel the agent has announced; empty if it has announced
    /// none.
    pub fn get_ctrl_channel_id(&self) -> (channel: String)
        ensures
            channel@ == self@.ctrl_channel_id,
    {
        self.ctrl_channel_id.clone()
    }

    /// Whether the connection counts as alive.
    pub fn is_alive(&self) -> (alive: bool)
        ensures
            alive == self@.alive,
    {
        self.alive
    }

    /// Whether the connection has not terminated.
    pub fn is_open(&self) -> (open: bool)
        ensures
            open == self@.open(),
    {
        !self.outgoing_stream.is_closed()
    }

    /// The number of packets waiting to be written.
    pub fn pending(&self) -> (n: usize)
        ensures
            n == self@.mailbox.queue.len(),
    {
        self.outgoing_stream.len()
    }

    /// Whether the agent announced this control channel.
    pub fn in_channel(&self, ctrl_channel_id: &String) -> (same: bool)
        ensures
            same == (self@.ctrl_channel_id == ctrl_channel_id@),
    {
        self.ctrl_channel_id == *ctrl_channel_id
    }

    /// Whether the agent announced this name.
    pub fn is_named(&self, name: &String) -> (same: bool)
        ensures
            same == (self@.name == name@),
    {
        self.name == *name
    }

    /// Marks the connection dead without touching its socket. Killing a dead
    /// connection changes nothing.
    pub fn kill(&mut self)
        ensures
            final(self).wf(),
            final(self)@ == old(self)@.kill(),
    {
        proof {
            use_type_invariant(&*self);
        }
        self.alive = false;
    }

    /// Queues `packet` for the agent.
    pub fn enqueue(&mut self, packet: OutgoingPacket) -> (sent: Result<(), SendError>)
        ensures
            final(self).wf(),
            sent == old(self)@.mailbox.send_result(),
            final(self)@ == old(self)@.enqueue(packet@),
    {
        proof {
            use_type_invariant(&*self);
        }
        // The mailbox is taken out while it changes, and put back after.
        let mut mailbox = Mailbox::new();
        std::mem::swap(&mut mailbox, &mut self.outgoing_stream);
        let sent = mailbox.try_send(packet);
        self.outgoing_stream = mailbox;
        sent
    }

    /// Queues a command for the agent. Fails with `MailboxClosed` once the
    /// connection has terminated, and with `MailboxFull` while sixteen packets
    /// are waiting.
    pub fn send_server_command(&mut self, exec: ServerCommand) -> (sent: Result<(), SendError>)
        ensures
            final(self).wf(),
            sent == old(self)@.mailbox.send_result(),
            final(self)@ == old(self)@.enqueue(OutgoingPacketView::ServerRun(exec@)),
    {
        self.enqueue(OutgoingPacket::ServerRun(exec))
    }

    /// Handles a packet that was read from a frame of the agent, and says
    /// whether the agent is to be announced as online.
    pub fn apply(&mut self, packet: IncomingPacket) -> (online: Option<AgentOnline>)
        ensures
            final(self).wf(),
            final(self)@ == old(self)@.apply(packet@),
            match online {
                Some(notice) => old(self)@.announcement(packet@) == Some(notice.name@),
                None => old(self)@.announcement(packet@) is None,
            },
    {
        proof {
            use_type_invariant(&*self);
        }
        match packet {
            IncomingPacket::SetName(new_name) => {
                let online = if !self.ctrl_channel_id.as_str().is_empty() {
                    Some(AgentOnline { name: new_name.clone() })
                } else {
                    None
                };
                self.name = new_name;
                online
            },
            IncomingPacket::SetServer(ctrl_channel_id) => {
                let online = if !self.name.as_str().is_empty() {
                    Some(AgentOnline { name: self.name.clone() })
                } else {
                    None
                };
                self.ctrl_channel_id = ctrl_channel_id;
                online
            },
            IncomingPacket::InvalidID => {
                let _ = self.enqueue(
                    OutgoingPacket::Error(
                        ErrorType::PacketInvalidID,
                        String::from_str("Invalid packet ID"),
                    ),
                );
                None
            },
            IncomingPacket::Invalid(err) => {
                let _ = self.enqueue(
                    OutgoingPacket::Error(ErrorType::PacketDeserializationError, err),
                );
                None
            },
        }
    }

    /// Reads the text of a frame and handles the packet it holds.
    pub fn handle_packet(&mut self, packet: String) -> (online: Option<AgentOnline>)
        ensures
            final(self).wf(),
            final(self)@ == old(self)@.apply(decode(packet@)),
            match online {
                Some(notice) => old(self)@.announcement(decode(packet@)) == Some(notice.name@),
                None => old(self)@.announcement(decode(packet@)) is None,
            },
    {
        let parsed = IncomingPacket::from(packet);
        self.apply(parsed)
    }

    /// Takes the oldest waiting packet out of the mailbox and writes it as the
    /// text of a frame.
    pub fn next_frame(&mut self) -> (frame: Option<String>)
        ensures
            final(self).wf(),
            final(self)@ == (WsClientView {
                mailbox: old(self)@.mailbox.after_recv(),
                ..old(self)@
            }),
            match frame {
                Some(text) => old(self)@.mailbox.queue.len() > 0 && text@ == wire_text(
                    old(self)@.mailbox.queue[0],
                ),
                None => old(self)@.mailbox.queue.len() == 0,
            },
    {
        proof {
            use_type_invariant(&*self);
        }
        let mut mailbox = Mailbox::new();
        std::mem::swap(&mut mailbox, &mut self.outgoing_stream);
        let packet = mailbox.recv();
        self.outgoing_stream = mailbox;
        match packet {
            Some(packet) => Some(packet.serialize()),
            None => None,
        }
    }

    /// Ends the connection: it is dead, and its mailbox is closed.
    pub fn terminate(&mut self)
        ensures
            final(self).wf(),
            final(self)@ == old(self)@.terminate(),
    {
        proof {
            use_type_invariant(&*self);
        }
        self.alive = false;
        let mut mailbox = Mailbox::new();
        mailbox.close();
        self.outgoing_stream = mailbox;
    }

    /// Decides what the loop of the connection does after `event`. Once the
    /// connection has terminated, every event is answered with `Stop`.
    pub fn step(&mut self, event: ClientEvent) -> (action: ClientAction)
        ensures
            final(self).wf(),
            final(self)@ == old(self)@.step(event@),
            action@ == old(self)@.action(event@),
    {
        proof {
            use_type_invariant(&*self);
        }
        if !self.is_open() {
            return ClientAction::Stop;
        }
        match event {
            ClientEvent::Frame(text) => match self.handle_packet(text) {
                Some(notice) => ClientAction::Announce(notice.name),
                None => ClientAction::Continue,
            },
            ClientEvent::Disconnected => {
                self.terminate();
                ClientAction::CloseAndStop
            },
            ClientEvent::WriterReady => match self.next_frame() {
                Some(text) => ClientAction::Write(text),
                None => ClientAction::Continue,
            },
            ClientEvent::WriteFailed => {
                self.terminate();
                ClientAction::Stop
            },
        }
    }
}

/// An agent is announced exactly when a name arrives while the control
/// channel is known, or a control channel arrives while the name is known.
/// The announcement carries the name that the connection has afterwards. A
/// packet of identity changes nothing but the name or the channel it brings;
/// a frame that is rejected changes neither.
pub proof fn lemma_announcement(client: WsClientView, packet: IncomingPacketView)
    ensures
        client.announcement(packet) is Some <==> {
            ||| packet is SetName && client.ctrl_channel_id.len() > 0
            ||| packet is SetServer && client.name.len() > 0
        },
        client.announcement(packet) matches Some(name) ==> client.apply(packet).name == name,
        packet matches IncomingPacketView::SetName(name) ==> client.apply(packet) == (
        WsClientView { name, ..client }),
        packet matches IncomingPacketView::SetServer(channel) ==> client.apply(packet) == (
        WsClientView { ctrl_channel_id: channel, ..client }),
        !(packet is SetName || packet is SetServer) ==> {
            &&& client.apply(packet).name == client.name
            &&& client.apply(packet).ctrl_channel_id == client.ctrl_channel_id
        },
{
}

/// The connection after its writer was asked `times` times in a row.
pub open spec fn writer_asked(client: WsClientView, times: nat) -> WsClientView
    decreases times,
{
    if times == 0 {
        client
    } else {
        writer_asked(client, (times - 1) as nat).step(ClientEventView::WriterReady)
    }
}

/// Packets are written in the order in which they were queued: a writer
/// that is asked again and again writes what waits, oldest first, each packet
/// once, and has nothing to write when the mailbox is empty.
pub proof fn lemma_writer_drains_in_order(client: WsClientView, asked: nat)
    requires
        client.wf(),
        client.open(),
        asked <= client.mailbox.queue.len(),
    ensures
        writer_asked(client, asked) == (WsClientView {
            mailbox: MailboxView {
                queue: client.mailbox.queue.skip(asked as int),
                closed: false,
            },
            ..client
        }),
        asked < client.mailbox.queue.len() ==> writer_asked(client, asked).action(
            ClientEventView::WriterReady,
        ) == ClientActionView::Write(wire_text(client.mailbox.queue[asked as int])),
        asked == client.mailbox.queue.len() ==> writer_asked(client, asked).action(
            ClientEventView::WriterReady,
        ) == ClientActionView::Continue,
    decreases asked,
{
    if asked == 0 {
        assert(client.mailbox.queue.skip(0) =~= client.mailbox.queue);
    } else {
        lemma_writer_drains_in_order(client, (asked - 1) as nat);
        assert(client.mailbox.queue.skip(asked - 1).skip(1) =~= client.mailbox.queue.skip(
            asked as int,
        ));
    }
}

/// A frame with an unknown packet id is answered with
/// `{"id":-1,"message":"Invalid packet ID","error":"PacketInvalidID"}`.
pub proof fn lemma_invalid_id_reply()
    ensures
        reply_to(IncomingPacketView::InvalidID) matches Some(reply) && wire_text(reply)
            == "{\"id\":-1,\"message\":\"Invalid packet ID\",\"error\":\"PacketInvalidID\"}"@,
{
    let message = invalid_id_message();
    reveal_strlit("Invalid packet ID");
    reveal_strlit("PacketInvalidID");
    reveal_strlit("{\"id\":-1,\"message\":\"");
    reveal_strlit("\",\"error\":\"");
    reveal_strlit("\"}");
    reveal_strlit("{\"id\":-1,\"message\":\"Invalid packet ID\",\"error\":\"PacketInvalidID\"}");
    assert forall|i: int| 0 <= i < message.len() implies is_plain(#[trigger] message[i]) by {}
    lemma_error_text(ErrorType::PacketInvalidID, message);
    assert("{\"id\":-1,\"message\":\""@ + message + "\",\"error\":\""@ + "PacketInvalidID"@
        + "\"}"@
        =~= "{\"id\":-1,\"message\":\"Invalid packet ID\",\"error\":\"PacketInvalidID\"}"@);
}

} // verus!
