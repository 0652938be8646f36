//! Packets from the broker to an agent, and their text on the wire.

use vstd::prelude::*;
use vstd::string::*;

use crate::json::{is_plain, json_string_of, lemma_plain_text, push_quoted};
use crate::server_command::{
    entries_view, keys_distinct, strings_view, ServerCommand, ServerCommandView,
};

verus! {

/// Why the broker rejected a frame.
#[derive(Debug, Clone, Copy, PartialEq, Eq, Structural)]
pub enum ErrorType {
    /// The frame carried a packet id that the broker does not know.
    PacketInvalidID,
    /// The frame could not be read as the packet that its id announces.
    PacketDeserializationError,
}

/// A packet from the broker to an agent.
#[derive(Debug, PartialEq, Eq)]
pub enum OutgoingPacket {
    /// A complaint about a frame the agent sent, with a message for a human.
    Error(ErrorType, String),
    /// A command for the agent to run.
    ServerRun(ServerCommand),
}

/// The mathematical value of an [`OutgoingPacket`].
pub enum OutgoingPacketView {
    Error(ErrorType, Seq<char>),
    ServerRun(ServerCommandView),
}

impl View for OutgoingPacket {
    type V = OutgoingPacketView;

    open spec fn view(&self) -> OutgoingPacketView {
        match self {
            OutgoingPacket::Error(kind, message) => OutgoingPacketView::Error(*kind, message@),
            OutgoingPacket::ServerRun(command) => OutgoingPacketView::ServerRun(command@),
        }
    }
}

impl Clone for OutgoingPacket {
    fn clone(&self) -> (copy: Self)
        ensures
            copy@ == self@,
    {
        match self {
            OutgoingPacket::Error(kind, message) => OutgoingPacket::Error(*kind, message.clone()),
            OutgoingPacket::ServerRun(command) => OutgoingPacket::ServerRun(command.clone()),
        }
    }
}

/// The tag under which an error kind travels.
pub open spec fn error_tag(kind: ErrorType) -> Seq<char> {
    match kind {
        ErrorType::PacketInvalidID => "PacketInvalidID"@,
        ErrorType::PacketDeserializationError => "PacketDeserializationError"@,
    }
}

/// The JSON string literals of `items`, separated by commas.
pub open spec fn list_items(items: Seq<Seq<char>>) -> Seq<char>
    decreases items.len(),
{
    if items.len() == 0 {
        Seq::empty()
    } else if items.len() == 1 {
        json_string_of(items[0])
    } else {
        list_items(items.drop_last()) + ","@ + json_string_of(items.last())
    }
}

/// `items` as a JSON array of strings.
pub open spec fn list_text(items: Seq<Seq<char>>) -> Seq<char> {
    "["@ + list_items(items) + "]"@
}

/// One entry as a member of a JSON object.
pub open spec fn entry_text(entry: (Seq<char>, Seq<char>)) -> Seq<char> {
    json_string_of(entry.0) + ":"@ + json_string_of(entry.1)
}

/// The members for `entries`, separated by commas.
pub open spec fn map_items(entries: Seq<(Seq<char>, Seq<char>)>) -> Seq<char>
    decreases entries.len(),
{
    if entries.len() == 0 {
        Seq::empty()
    } else if entries.len() == 1 {
        entry_text(entries[0])
    } else {
        map_items(entries.drop_last()) + ","@ + entry_text(entries.last())
    }
}

/// `entries` as a JSON object of strings.
pub open spec fn map_text(entries: Seq<(Seq<char>, Seq<char>)>) -> Seq<char> {
    "{"@ + map_items(entries) + "}"@
}

/// A command as the agent sees it: `run`, `query` and `set`, without the
/// selector.
pub open spec fn command_text(command: ServerCommandView) -> Seq<char> {
    "{\"run\":"@ + list_text(command.run) + ",\"query\":"@ + list_text(command.query)
        + ",\"set\":"@ + map_text(command.set) + "}"@
}

/// The text of a packet on the wire.
pub open spec fn wire_text(packet: OutgoingPacketView) -> Seq<char> {
    match packet {
        OutgoingPacketView::Error(kind, message) => "{\"id\":-1,\"message\":"@ + json_string_of(
            message,
        ) + ",\"error\":\""@ + error_tag(kind) + "\"}"@,
        OutgoingPacketView::ServerRun(command) => "{\"id\":0,\"exec\":"@ + command_text(command)
            + "}"@,
    }
}

/// Appends `items` to `out` as a JSON array of strings.
fn push_list(out: &mut String, items: &Vec<String>)
    ensures
        final(out)@ == old(out)@ + list_text(strings_view(items@)),
{
    let ghost all = strings_view(items@);
    out.append("[");
    let mut i: usize = 0;
    while i < items.len()
        invariant
            i <= items.len(),
            all == strings_view(items@),
            out@ == old(out)@ + "["@ + list_items(all.take(i as int)),
        decreases items.len() - i,
    {
        let ghost before = all.take(i as int);
        let ghost after = all.take(i + 1);
        assert(after.drop_last() == before);
        assert(after.last() == items[i as int]@);
        if i > 0 {
            out.append(",");
        }
        push_quoted(out, items[i].as_str());
        assert(out@ == old(out)@ + "["@ + list_items(after));
        i += 1;
    }
    assert(all.take(items.len() as int) == all);
    out.append("]");
    assert(out@ == old(out)@ + list_text(all));
}

/// Appends `entries` to `out` as a JSON object of strings.
fn push_map(out: &mut String, entries: &Vec<(String, String)>)
    ensures
        final(out)@ == old(out)@ + map_text(entries_view(entries@)),
{
    let ghost all = entries_view(entries@);
    out.append("{");
    let mut i: usize = 0;
    while i < entries.len()
        invariant
            i <= entries.len(),
            all == entries_view(entries@),
            out@ == old(out)@ + "{"@ + map_items(all.take(i as int)),
        decreases entries.len() - i,
    {
        let ghost before = all.take(i as int);
        let ghost after = all.take(i + 1);
        assert(after.drop_last() == before);
        assert(after.last() == (entries[i as int].0@, entries[i as int].1@));
        if i > 0 {
            out.append(",");
        }
        push_quoted(out, entries[i].0.as_str());
        out.append(":");
        push_quoted(out, entries[i].1.as_str());
        assert(out@ == old(out)@ + "{"@ + map_items(after));
        i += 1;
    }
    assert(all.take(entries.len() as int) == all);
    out.append("}");
    assert(out@ == old(out)@ + map_text(all));
}

impl ErrorType {
    /// The tag under which this kind travels.
    pub fn tag(&self) -> (tag: &'static str)
        ensures
            tag@ == error_tag(*self),
    {
        match self {
            ErrorType::PacketInvalidID => "PacketInvalidID",
            ErrorType::PacketDeserializationError => "PacketDeserializationError",
        }
    }
}

impl OutgoingPacket {
    /// Writes the packet as the text of one frame.
    ///
    /// An error becomes `{"id":-1,"message":..,"error":..}`, a command
    /// `{"id":0,"exec":{"run":[..],"query":[..],"set":{..}}}`.
    pub fn serialize(&self) -> (text: String)
        ensures
            text@ == wire_text(self@),
            self@ matches OutgoingPacketView::ServerRun(command) ==> keys_distinct(command.set),
    {
        let mut out = String::new();
        match self {
            OutgoingPacket::Error(kind, message) => {
                out.append("{\"id\":-1,\"message\":");
                push_quoted(&mut out, message.as_str());
                out.append(",\"error\":\"");
                out.append(kind.tag());
                out.append("\"}");
                assert(out@ == wire_text(self@));
            },
            OutgoingPacket::ServerRun(command) => {
                out.append("{\"id\":0,\"exec\":");
                out.append("{\"run\":");
                push_list(&mut out, &command.run);
                out.append(",\"query\":");
                push_list(&mut out, &command.query);
                out.append(",\"set\":");
                push_map(&mut out, command.set.entries());
                out.append("}");
                out.append("}");
                assert(out@ == wire_text(self@));
            },
        }
        out
    }
}

/// An error whose message needs no escaping travels as the message between
/// the fixed parts of the frame.
pub proof fn lemma_error_text(kind: ErrorType, message: Seq<char>)
    requires
        forall|i: int| 0 <= i < message.len() ==> is_plain(#[trigger] message[i]),
    ensures
        wire_text(OutgoingPacketView::Error(kind, message)) == "{\"id\":-1,\"message\":\""@
            + message + "\",\"error\":\""@ + error_tag(kind) + "\"}"@,
{
    lemma_plain_text(message);
    reveal_strlit("{\"id\":-1,\"message\":");
    reveal_strlit("{\"id\":-1,\"message\":\"");
    reveal_strlit(",\"error\":\"");
    reveal_strlit("\",\"error\":\"");
    let written = wire_text(OutgoingPacketView::Error(kind, message));
    let expected = "{\"id\":-1,\"message\":\""@ + message + "\",\"error\":\""@ + error_tag(kind)
        + "\"}"@;
    assert("{\"id\":-1,\"message\":"@ + seq!['"'] =~= "{\"id\":-1,\"message\":\""@);
    assert(seq!['"'] + ",\"error\":\""@ =~= "\",\"error\":\""@);
    assert(written =~= ("{\"id\":-1,\"message\":"@ + seq!['"']) + message + (seq!['"']
        + ",\"error\":\""@) + error_tag(kind) + "\"}"@);
}

/// A command with nothing to run, to query or to set travels as
/// `{"id":0,"exec":{"run":[],"query":[],"set":{}}}`, whatever its selector.
pub proof fn lemma_empty_command_text(command: ServerCommandView)
    requires
        command.run.len() == 0,
        command.query.len() == 0,
        command.set.len() == 0,
    ensures
        wire_text(OutgoingPacketView::ServerRun(command))
            == "{\"id\":0,\"exec\":{\"run\":[],\"query\":[],\"set\":{}}}"@,
{
    reveal_strlit("{\"id\":0,\"exec\":{\"run\":[],\"query\":[],\"set\":{}}}");
    reveal_strlit("{\"id\":0,\"exec\":");
    reveal_strlit("{\"run\":");
    reveal_strlit(",\"query\":");
    reveal_strlit(",\"set\":");
    reveal_strlit("[");
    reveal_strlit("]");
    reveal_strlit("{");
    reveal_strlit("}");
    assert(list_items(command.run) =~= Seq::<char>::empty());
    assert(list_items(command.query) =~= Seq::<char>::empty());
    assert(map_items(command.set) =~= Seq::<char>::empty());
    assert(wire_text(OutgoingPacketView::ServerRun(command))
        =~= "{\"id\":0,\"exec\":{\"run\":[],\"query\":[],\"set\":{}}}"@);
}

/// The selector of a command never reaches the wire: two commands that agree
/// on `run`, `query` and `set` are written as the same text.
pub proof fn lemma_selector_stays_home(a: ServerCommandView, b: ServerCommandView)
    requires
        a.run == b.run,
        a.query == b.query,
        a.set == b.set,
    ensures
        wire_text(OutgoingPacketView::ServerRun(a)) == wire_text(OutgoingPacketView::ServerRun(b)),
{
}

} // verus!
