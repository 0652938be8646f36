use agent_relay::json::JsonMember;
use agent_relay::packets::{ErrorType, IncomingPacket, OutgoingPacket};
use agent_relay::server_command::{ServerCommand, Settings};

fn text(s: &str) -> String {
    s.to_string()
}

#[test]
fn decode_set_name() {
    let packet = IncomingPacket::from(text(r#"{"id":0,"name":"alpha"}"#));
    assert_eq!(packet, IncomingPacket::SetName(text("alpha")));
}

#[test]
fn decode_set_server() {
    let packet = IncomingPacket::from(text(r#"{"id":1,"guildId":"G1"}"#));
    assert_eq!(packet, IncomingPacket::SetServer(text("G1")));
}

#[test]
fn decode_unknown_id_is_invalid_id() {
    assert_eq!(IncomingPacket::from(text(r#"{"id":99}"#)), IncomingPacket::InvalidID);
    assert_eq!(IncomingPacket::from(text(r#"{"id":-1}"#)), IncomingPacket::InvalidID);
    assert_eq!(IncomingPacket::from(text(r#"{"id":2,"name":"x"}"#)), IncomingPacket::InvalidID);
}

#[test]
fn decode_missing_name_is_invalid_with_reason() {
    match IncomingPacket::from(text(r#"{"id":0}"#)) {
        IncomingPacket::Invalid(detail) => {
            assert!(!detail.is_empty());
            assert_eq!(detail, "missing field `name`");
        }
        other => panic!("expected Invalid, got {:?}", other),
    }
}

#[test]
fn decode_missing_guild_id_is_invalid_with_reason() {
    assert_eq!(
        IncomingPacket::from(text(r#"{"id":1,"name":"alpha"}"#)),
        IncomingPacket::Invalid(text("missing field `guildId`"))
    );
}

#[test]
fn decode_name_of_wrong_type_is_invalid() {
    assert_eq!(
        IncomingPacket::from(text(r#"{"id":0,"name":7}"#)),
        IncomingPacket::Invalid(text("invalid type for field `name`, expected a string"))
    );
    assert_eq!(
        IncomingPacket::from(text(r#"{"id":1,"guildId":null}"#)),
        IncomingPacket::Invalid(text("invalid type for field `guildId`, expected a string"))
    );
}

#[test]
fn decode_without_id_is_invalid() {
    assert_eq!(
        IncomingPacket::from(text(r#"{"name":"alpha"}"#)),
        IncomingPacket::Invalid(text("missing field `id`"))
    );
    assert_eq!(
        IncomingPacket::from(text("{}")),
        IncomingPacket::Invalid(text("missing field `id`"))
    );
}

#[test]
fn decode_id_of_wrong_type_is_invalid() {
    let reason = text("invalid type for field `id`, expected an integer");
    assert_eq!(
        IncomingPacket::from(text(r#"{"id":"0","name":"alpha"}"#)),
        IncomingPacket::Invalid(reason.clone())
    );
    assert_eq!(
        IncomingPacket::from(text(r#"{"id":0.5,"name":"alpha"}"#)),
        IncomingPacket::Invalid(reason)
    );
}

#[test]
fn decode_any_other_integer_id_is_invalid_id() {
    for frame in [
        r#"{"id":2,"name":"x"}"#,
        r#"{"id":-1}"#,
        r#"{"id":2147483647}"#,
        r#"{"id":2147483648}"#,
        r#"{"id":-2147483648}"#,
        r#"{"id":-2147483649}"#,
        r#"{"id":3000000000}"#,
        r#"{"id":9223372036854775807}"#,
        r#"{"id":9223372036854775808}"#,
        r#"{"id":18446744073709551615}"#,
        r#"{"id":-9223372036854775808}"#,
        r#"{"id":3000000000,"name":"x","guildId":"y"}"#,
    ] {
        let packet = IncomingPacket::from(text(frame));
        assert_eq!(packet, IncomingPacket::InvalidID, "frame {}", frame);
    }
}

#[test]
fn decode_id_that_the_json_reader_keeps_as_a_float_is_invalid() {
    let reason = text("invalid type for field `id`, expected an integer");
    for frame in [r#"{"id":-0,"name":"a"}"#, r#"{"id":1.0,"guildId":"g"}"#, r#"{"id":1e0}"#] {
        assert_eq!(IncomingPacket::from(text(frame)), IncomingPacket::Invalid(reason.clone()));
    }
}

#[test]
fn decode_text_that_is_no_json_is_invalid_with_reason() {
    let frames =
        ["", "hello", "{", r#"{"id":0,"name":"alpha""#, "[0]", "5", "null", r#"{"id":0} x"#];
    for frame in frames {
        match IncomingPacket::from(text(frame)) {
            IncomingPacket::Invalid(detail) => assert!(!detail.is_empty(), "frame {:?}", frame),
            other => panic!("frame {:?}: expected Invalid, got {:?}", frame, other),
        }
    }
}

#[test]
fn decode_reports_the_parser_message() {
    assert_eq!(
        IncomingPacket::from(text("{")),
        IncomingPacket::Invalid(text("EOF while parsing an object at line 1 column 1"))
    );
}

#[test]
fn decode_ignores_members_it_does_not_read() {
    assert_eq!(
        IncomingPacket::from(text(r#"{"extra":[1,2,{"a":null}],"name":"alpha","id":0,"z":true}"#)),
        IncomingPacket::SetName(text("alpha"))
    );
}

#[test]
fn decode_unescapes_strings() {
    assert_eq!(
        IncomingPacket::from(text(r#"{"id":0,"name":"a\"b\\cé\n"}"#)),
        IncomingPacket::SetName(text("a\"b\\c\u{e9}\n"))
    );
}

#[test]
fn from_parsed_reads_members_in_any_order() {
    let members = vec![
        (text("name"), JsonMember::Text(text("alpha"))),
        (text("id"), JsonMember::Number(Some(0), Some(0))),
    ];
    assert_eq!(IncomingPacket::from_parsed(Ok(members)), IncomingPacket::SetName(text("alpha")));
}

#[test]
fn from_parsed_takes_the_first_member_under_a_key() {
    let members = vec![
        (text("id"), JsonMember::Number(Some(1), Some(1))),
        (text("id"), JsonMember::Number(Some(0), Some(0))),
        (text("guildId"), JsonMember::Text(text("G1"))),
        (text("guildId"), JsonMember::Text(text("G2"))),
    ];
    assert_eq!(IncomingPacket::from_parsed(Ok(members)), IncomingPacket::SetServer(text("G1")));
}

#[test]
fn from_parsed_passes_the_reader_complaint_on() {
    assert_eq!(
        IncomingPacket::from_parsed(Err(text("expected value at line 1 column 1"))),
        IncomingPacket::Invalid(text("expected value at line 1 column 1"))
    );
}

#[test]
fn from_parsed_rejects_other_values_under_id() {
    for member in [
        JsonMember::Null,
        JsonMember::Bool(true),
        JsonMember::Number(None, None),
        JsonMember::Text(text("0")),
        JsonMember::Array,
        JsonMember::Object,
    ] {
        assert_eq!(
            IncomingPacket::from_parsed(Ok(vec![(text("id"), member)])),
            IncomingPacket::Invalid(text("invalid type for field `id`, expected an integer"))
        );
    }
}

#[test]
fn from_parsed_takes_every_integer_as_an_id() {
    for member in [
        JsonMember::Number(Some(2), Some(2)),
        JsonMember::Number(Some(-1), None),
        JsonMember::Number(Some(2147483648), Some(2147483648)),
        JsonMember::Number(Some(-2147483649), None),
        JsonMember::Number(Some(i64::MIN), None),
        JsonMember::Number(Some(i64::MAX), Some(9223372036854775807)),
        JsonMember::Number(None, Some(9223372036854775808)),
        JsonMember::Number(None, Some(u64::MAX)),
    ] {
        assert_eq!(
            IncomingPacket::from_parsed(Ok(vec![(text("id"), member)])),
            IncomingPacket::InvalidID
        );
    }
    let named = |member| vec![(text("id"), member), (text("name"), JsonMember::Text(text("a")))];
    assert_eq!(
        IncomingPacket::from_parsed(Ok(named(JsonMember::Number(None, Some(0))))),
        IncomingPacket::SetName(text("a"))
    );
    assert_eq!(
        IncomingPacket::from_parsed(Ok(named(JsonMember::Number(Some(0), None)))),
        IncomingPacket::SetName(text("a"))
    );
}

#[test]
fn from_parsed_rejects_other_values_under_name() {
    for member in [
        JsonMember::Null,
        JsonMember::Bool(false),
        JsonMember::Number(Some(1), Some(1)),
        JsonMember::Number(None, None),
        JsonMember::Array,
        JsonMember::Object,
    ] {
        let members = vec![(text("id"), JsonMember::Number(Some(0), Some(0))), (text("name"), member)];
        assert_eq!(
            IncomingPacket::from_parsed(Ok(members)),
            IncomingPacket::Invalid(text("invalid type for field `name`, expected a string"))
        );
    }
}

#[test]
fn decode_tells_the_kinds_of_json_values_apart() {
    for frame in [
        r#"{"id":null}"#,
        r#"{"id":true}"#,
        r#"{"id":1e3}"#,
        r#"{"id":2.0}"#,
        r#"{"id":18446744073709551616}"#,
        r#"{"id":[0]}"#,
        r#"{"id":{"id":0}}"#,
    ] {
        assert_eq!(
            IncomingPacket::from(text(frame)),
            IncomingPacket::Invalid(text("invalid type for field `id`, expected an integer")),
            "frame {}",
            frame
        );
    }
}

#[test]
fn decode_takes_the_last_of_repeated_members() {
    assert_eq!(
        IncomingPacket::from(text(r#"{"id":5,"id":0,"name":"a","name":"b"}"#)),
        IncomingPacket::SetName(text("b"))
    );
}

#[test]
fn encode_invalid_id_error() {
    let packet = OutgoingPacket::Error(ErrorType::PacketInvalidID, text("Invalid packet ID"));
    assert_eq!(
        packet.serialize(),
        r#"{"id":-1,"message":"Invalid packet ID","error":"PacketInvalidID"}"#
    );
}

#[test]
fn encode_deserialization_error() {
    let packet = OutgoingPacket::Error(
        ErrorType::PacketDeserializationError,
        text("missing field `name`"),
    );
    assert_eq!(
        packet.serialize(),
        r#"{"id":-1,"message":"missing field `name`","error":"PacketDeserializationError"}"#
    );
}

#[test]
fn encode_escapes_the_message() {
    let packet = OutgoingPacket::Error(ErrorType::PacketInvalidID, text("a\"b\\c\n\u{1}"));
    assert_eq!(
        packet.serialize(),
        r#"{"id":-1,"message":"a\"b\\c\n\u0001","error":"PacketInvalidID"}"#
    );
}

#[test]
fn encode_empty_command() {
    let command = ServerCommand::new(text("al.*"));
    assert_eq!(
        OutgoingPacket::ServerRun(command).serialize(),
        r#"{"id":0,"exec":{"run":[],"query":[],"set":{}}}"#
    );
}

#[test]
fn encode_full_command() {
    let command = ServerCommand {
        on: text("alpha"),
        run: vec![text("say hi"), text("stop")],
        query: vec![text("players")],
        set: Settings::collect(vec![
            (text("motd"), text("hello \"world\"")),
            (text("pvp"), text("off")),
        ]),
    };
    assert_eq!(
        OutgoingPacket::ServerRun(command).serialize(),
        r#"{"id":0,"exec":{"run":["say hi","stop"],"query":["players"],"set":{"motd":"hello \"world\"","pvp":"off"}}}"#
    );
}

#[test]
fn encoded_command_has_no_selector() {
    let command = ServerCommand {
        on: text("secret-selector"),
        run: vec![text("a")],
        query: vec![],
        set: Settings::new(),
    };
    let wire = OutgoingPacket::ServerRun(command).serialize();
    assert!(!wire.contains("secret-selector"));
    let parsed: serde_json::Value = serde_json::from_str(&wire).unwrap();
    let exec = parsed.get("exec").unwrap().as_object().unwrap();
    assert!(exec.get("on").is_none());
    assert!(exec.get("selector").is_none());
    assert_eq!(exec.len(), 3);
}

#[test]
fn encoded_command_reads_back_unchanged() {
    let command = ServerCommand {
        on: text("al.*"),
        run: vec![text("say \"hi\""), text("tab\there"), text("")],
        query: vec![text("players"), text("uptime \\ load")],
        set: Settings::collect(vec![
            (text("motd"), text("line\nbreak")),
            (text("k\u{e9}y"), text("v")),
        ]),
    };
    let wire = OutgoingPacket::ServerRun(command.clone()).serialize();
    let parsed: serde_json::Value = serde_json::from_str(&wire).unwrap();
    assert_eq!(parsed.get("id").unwrap().as_i64(), Some(0));
    let exec = parsed.get("exec").unwrap();
    let strings = |key: &str| -> Vec<String> {
        exec.get(key)
            .unwrap()
            .as_array()
            .unwrap()
            .iter()
            .map(|v| v.as_str().unwrap().to_string())
            .collect()
    };
    assert_eq!(strings("run"), command.run);
    assert_eq!(strings("query"), command.query);
    let set = exec.get("set").unwrap().as_object().unwrap();
    assert_eq!(set.len(), command.set.len());
    for (key, value) in command.set.entries() {
        assert_eq!(set.get(key).unwrap().as_str().unwrap(), value);
    }
}

#[test]
fn selector_does_not_change_the_wire_text() {
    let mut one = ServerCommand::new(text("a"));
    one.run = vec![text("x")];
    let mut two = ServerCommand::new(text("b.*"));
    two.run = vec![text("x")];
    assert_eq!(
        OutgoingPacket::ServerRun(one).serialize(),
        OutgoingPacket::ServerRun(two).serialize()
    );
}

#[test]
fn clone_keeps_a_packet() {
    let packet = OutgoingPacket::ServerRun(ServerCommand {
        on: text("a"),
        run: vec![text("x"), text("y")],
        query: vec![text("q")],
        set: Settings::collect(vec![(text("k"), text("v"))]),
    });
    assert_eq!(packet.clone(), packet);
    let error = OutgoingPacket::Error(ErrorType::PacketDeserializationError, text("why"));
    assert_eq!(error.clone(), error);
}

#[test]
fn error_tags() {
    assert_eq!(ErrorType::PacketInvalidID.tag(), "PacketInvalidID");
    assert_eq!(ErrorType::PacketDeserializationError.tag(), "PacketDeserializationError");
}

#[test]
fn encode_writes_every_escape_as_stated() {
    let cases = [
        ("\"", r#"\""#),
        ("\\", r#"\\"#),
        ("\u{8}", r#"\b"#),
        ("\t", r#"\t"#),
        ("\n", r#"\n"#),
        ("\u{c}", r#"\f"#),
        ("\r", r#"\r"#),
        ("\u{0}", r#"\u0000"#),
        ("\u{b}", r#"\u000b"#),
        ("\u{1f}", r#"\u001f"#),
        (" ", " "),
        ("/", "/"),
        ("\u{7f}", "\u{7f}"),
        ("\u{e9}", "\u{e9}"),
        ("\u{1f600}", "\u{1f600}"),
    ];
    for (given, written) in cases {
        let packet = OutgoingPacket::Error(ErrorType::PacketInvalidID, text(given));
        assert_eq!(
            packet.serialize(),
            format!(r#"{{"id":-1,"message":"{}","error":"PacketInvalidID"}}"#, written),
            "for {:?}",
            given
        );
    }
}
