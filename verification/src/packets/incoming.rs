//! Packets from an agent to the broker, and how a frame is read as one.
//!
//! Reading has two stages and always ends in a packet. The first stage looks
//! for the integer member `id` and nothing else. The second reads the member
//! that the id announces. A frame that fails the first or the second stage
//! becomes `Invalid` with the reason; an integer id that the broker does not
//! know becomes `InvalidID`. An integer is what the JSON reader keeps as one:
//! a number written without fraction and exponent that fits 64 bits, signed
//! or unsigned. A larger one reaches the broker as a floating-point number
//! and is rejected like any number that is no integer.

use vstd::prelude::*;
use vstd::string::*;

use crate::json::{
    find_member, integer_of, json_object_of, member_of, members_view, parse_object, parsed_view,
    JsonMember, JsonMemberView, Members,
};

verus! {

/// A packet from an agent.
#[derive(Debug, PartialEq, Eq)]
pub enum IncomingPacket {
    /// The agent announces its name.
    SetName(String),
    /// The agent announces the control channel that may address it.
    SetServer(String),
    /// The frame carried an id that the broker does not know.
    InvalidID,
    /// The frame could not be read; the text says why.
    Invalid(String),
}

/// The mathematical value of an [`IncomingPacket`].
pub enum IncomingPacketView {
    SetName(Seq<char>),
    SetServer(Seq<char>),
    InvalidID,
    Invalid(Seq<char>),
}

impl View for IncomingPacket {
    type V = IncomingPacketView;

    open spec fn view(&self) -> IncomingPacketView {
        match self {
            IncomingPacket::SetName(name) => IncomingPacketView::SetName(name@),
            IncomingPacket::SetServer(channel) => IncomingPacketView::SetServer(channel@),
            IncomingPacket::InvalidID => IncomingPacketView::InvalidID,
            IncomingPacket::Invalid(detail) => IncomingPacketView::Invalid(detail@),
        }
    }
}

/// The reason given when a frame lacks the member `key`.
pub open spec fn missing_field(key: Seq<char>) -> Seq<char> {
    "missing field `"@ + key + "`"@
}

/// The reason given when the member `key` is not an integer.
pub open spec fn not_an_integer(key: Seq<char>) -> Seq<char> {
    "invalid type for field `"@ + key + "`, expected an integer"@
}

/// The reason given when the member `key` is not a string.
pub open spec fn not_a_string(key: Seq<char>) -> Seq<char> {
    "invalid type for field `"@ + key + "`, expected a string"@
}

/// The first stage: the packet id, or why there is none. Every number that
/// the JSON reader kept as an integer, in 64 bits signed or unsigned, is a
/// packet id.
pub open spec fn packet_id(members: Members) -> Result<int, Seq<char>> {
    match member_of(members, "id"@) {
        None => Err(missing_field("id"@)),
        Some(JsonMemberView::Number(signed, unsigned)) => match integer_of(signed, unsigned) {
            Some(id) => Ok(id),
            None => Err(not_an_integer("id"@)),
        },
        Some(_) => Err(not_an_integer("id"@)),
    }
}

/// The second stage: the string under `key`, or why there is none.
pub open spec fn string_member(members: Members, key: Seq<char>) -> Result<Seq<char>, Seq<char>> {
    match member_of(members, key) {
        None => Err(missing_field(key)),
        Some(JsonMemberView::Text(text)) => Ok(text),
        Some(_) => Err(not_a_string(key)),
    }
}

/// The packet that the members of a frame amount to.
pub open spec fn decode_members(members: Members) -> IncomingPacketView {
    match packet_id(members) {
        Err(detail) => IncomingPacketView::Invalid(detail),
        Ok(id) => if id == 0 {
            match string_member(members, "name"@) {
                Ok(name) => IncomingPacketView::SetName(name),
                Err(detail) => IncomingPacketView::Invalid(detail),
            }
        } else if id == 1 {
            match string_member(members, "guildId"@) {
                Ok(channel) => IncomingPacketView::SetServer(channel),
                Err(detail) => IncomingPacketView::Invalid(detail),
            }
        } else {
            IncomingPacketView::InvalidID
        },
    }
}

/// The packet for what the JSON reader made of a frame.
pub open spec fn decode_parsed(parsed: Result<Members, Seq<char>>) -> IncomingPacketView {
    match parsed {
        Ok(members) => decode_members(members),
        Err(detail) => IncomingPacketView::Invalid(detail),
    }
}

/// The packet that the text of a frame amounts to.
pub open spec fn decode(text: Seq<char>) -> IncomingPacketView {
    decode_parsed(json_object_of(text))
}

/// Builds the reason for a missing member.
fn missing_field_text(key: &str) -> (detail: String)
    ensures
        detail@ == missing_field(key@),
{
    let mut detail = String::from_str("missing field `");
    detail.append(key);
    detail.append("`");
    detail
}

/// Builds the reason for a member that is not an integer.
fn not_an_integer_text(key: &str) -> (detail: String)
    ensures
        detail@ == not_an_integer(key@),
{
    let mut detail = String::from_str("invalid type for field `");
    detail.append(key);
    detail.append("`, expected an integer");
    detail
}

/// Builds the reason for a member that is not a string.
fn not_a_string_text(key: &str) -> (detail: String)
    ensures
        detail@ == not_a_string(key@),
{
    let mut detail = String::from_str("invalid type for field `");
    detail.append(key);
    detail.append("`, expected a string");
    detail
}

/// The packets that the broker knows by their id.
#[derive(Clone, Copy, PartialEq, Eq, Structural)]
enum PacketKind {
    SetName,
    SetServer,
    Unknown,
}

/// The kind of packet that the id `id` announces.
spec fn kind_of(id: int) -> PacketKind {
    if id == 0 {
        PacketKind::SetName
    } else if id == 1 {
        PacketKind::SetServer
    } else {
        PacketKind::Unknown
    }
}

/// The first stage of reading a frame.
fn read_packet_id(members: &Vec<(String, JsonMember)>) -> (kind: Result<PacketKind, String>)
    ensures
        match kind {
            Ok(k) => packet_id(members_view(members@)) matches Ok(id) && k == kind_of(id),
            Err(detail) => packet_id(members_view(members@)) == Err::<int, Seq<char>>(detail@),
        },
{
    let key = String::from_str("id");
    match find_member(members, &key) {
        None => Err(missing_field_text("id")),
        Some(JsonMember::Number(Some(id), _)) => {
            if *id == 0 {
                Ok(PacketKind::SetName)
            } else if *id == 1 {
                Ok(PacketKind::SetServer)
            } else {
                Ok(PacketKind::Unknown)
            }
        },
        Some(JsonMember::Number(None, Some(id))) => {
            if *id == 0 {
                Ok(PacketKind::SetName)
            } else if *id == 1 {
                Ok(PacketKind::SetServer)
            } else {
                Ok(PacketKind::Unknown)
            }
        },
        Some(_) => Err(not_an_integer_text("id")),
    }
}

/// The second stage of reading a frame.
fn read_string_member(members: &Vec<(String, JsonMember)>, key: &str) -> (text: Result<
    String,
    String,
>)
    ensures
        match text {
            Ok(s) => string_member(members_view(members@), key@) == Ok::<Seq<char>, Seq<char>>(s@),
            Err(detail) => string_member(members_view(members@), key@) == Err::<
                Seq<char>,
                Seq<char>,
            >(detail@),
        },
{
    let owned = String::from_str(key);
    match find_member(members, &owned) {
        None => Err(missing_field_text(key)),
        Some(JsonMember::Text(text)) => Ok(text.clone()),
        Some(_) => Err(not_a_string_text(key)),
    }
}

impl IncomingPacket {
    /// Reads the text of a frame as a packet. Every text gives a packet.
    pub fn from(source: String) -> (packet: IncomingPacket)
        ensures
            packet@ == decode(source@),
    {
        IncomingPacket::from_parsed(parse_object(source.as_str()))
    }

    /// Reads a packet out of what the JSON reader made of a frame: the members
    /// of the object, or the reader's complaint.
    pub fn from_parsed(parsed: Result<Vec<(String, JsonMember)>, String>) -> (packet:
        IncomingPacket)
        ensures
            packet@ == decode_parsed(parsed_view(parsed)),
    {
        match parsed {
            Err(detail) => IncomingPacket::Invalid(detail),
            Ok(members) => match read_packet_id(&members) {
                Err(detail) => IncomingPacket::Invalid(detail),
                Ok(PacketKind::SetName) => match read_string_member(&members, "name") {
                    Ok(name) => IncomingPacket::SetName(name),
                    Err(detail) => IncomingPacket::Invalid(detail),
                },
                Ok(PacketKind::SetServer) => match read_string_member(&members, "guildId") {
                    Ok(channel) => IncomingPacket::SetServer(channel),
                    Err(detail) => IncomingPacket::Invalid(detail),
                },
                Ok(PacketKind::Unknown) => IncomingPacket::InvalidID,
            },
        }
    }
}

/// Every id that the JSON reader kept as an integer and that is neither 0
/// nor 1 gives `InvalidID`, whatever else the frame holds.
pub proof fn lemma_unknown_id(members: Members, signed: Option<i64>, unsigned: Option<u64>)
    requires
        member_of(members, "id"@) == Some(JsonMemberView::Number(signed, unsigned)),
        integer_of(signed, unsigned) matches Some(id) && id != 0 && id != 1,
    ensures
        decode_members(members) == IncomingPacketView::InvalidID,
{
}

/// A frame that parses as an object is never rejected without a reason: the
/// text of an `Invalid` that the two stages produce is not empty.
pub proof fn lemma_rejection_has_reason(members: Members)
    ensures
        decode_members(members) matches IncomingPacketView::Invalid(detail) ==> detail.len() > 0,
{
    reveal_strlit("missing field `");
    reveal_strlit("invalid type for field `");
}

} // verus!
