use agent_relay::client::{follow_up, AgentOnline, ClientAction, ClientEvent, Next, WsClient};
use agent_relay::mailbox::SendError;
use agent_relay::packets::IncomingPacket;
use agent_relay::server_command::{ServerCommand, Settings};

fn text(s: &str) -> String {
    s.to_string()
}

fn command(run: &str) -> ServerCommand {
    ServerCommand { on: text("sel"), run: vec![text(run)], query: vec![], set: Settings::new() }
}

#[test]
fn new_client_is_anonymous_alive_and_open() {
    let client = WsClient::new(7);
    assert_eq!(client.uuid(), 7);
    assert_eq!(client.get_name(), "");
    assert_eq!(client.get_ctrl_channel_id(), "");
    assert!(client.is_alive());
    assert!(client.is_open());
    assert_eq!(client.pending(), 0);
}

#[test]
fn name_then_channel_announces_when_the_channel_arrives() {
    let mut client = WsClient::new(1);
    assert_eq!(client.handle_packet(text(r#"{"id":0,"name":"alpha"}"#)), None);
    assert_eq!(client.get_name(), "alpha");
    assert_eq!(
        client.handle_packet(text(r#"{"id":1,"guildId":"G1"}"#)),
        Some(AgentOnline { name: text("alpha") })
    );
    assert_eq!(client.get_ctrl_channel_id(), "G1");
}

#[test]
fn channel_then_name_announces_the_new_name() {
    let mut client = WsClient::new(1);
    assert_eq!(client.handle_packet(text(r#"{"id":1,"guildId":"G1"}"#)), None);
    assert_eq!(
        client.handle_packet(text(r#"{"id":0,"name":"beta"}"#)),
        Some(AgentOnline { name: text("beta") })
    );
    assert_eq!(client.get_name(), "beta");
}

#[test]
fn renaming_an_identified_agent_announces_again() {
    let mut client = WsClient::new(1);
    client.apply(IncomingPacket::SetServer(text("G1")));
    client.apply(IncomingPacket::SetName(text("one")));
    assert_eq!(
        client.apply(IncomingPacket::SetName(text("two"))),
        Some(AgentOnline { name: text("two") })
    );
    assert_eq!(
        client.apply(IncomingPacket::SetServer(text("G2"))),
        Some(AgentOnline { name: text("two") })
    );
    assert_eq!(client.get_name(), "two");
    assert_eq!(client.get_ctrl_channel_id(), "G2");
}

#[test]
fn the_notice_depends_on_the_other_field_alone() {
    let mut client = WsClient::new(1);
    client.apply(IncomingPacket::SetServer(text("G1")));
    assert_eq!(
        client.apply(IncomingPacket::SetName(text(""))),
        Some(AgentOnline { name: text("") })
    );
    assert_eq!(client.get_name(), "");
    assert_eq!(client.get_ctrl_channel_id(), "G1");
    assert!(client.is_alive());
    assert_eq!(
        client.apply(IncomingPacket::SetName(text("alpha"))),
        Some(AgentOnline { name: text("alpha") })
    );
    assert_eq!(
        client.apply(IncomingPacket::SetServer(text(""))),
        Some(AgentOnline { name: text("alpha") })
    );
    assert_eq!(client.get_ctrl_channel_id(), "");
    assert_eq!(client.get_name(), "alpha");
    assert_eq!(
        client.handle_packet(text(r#"{"id":1,"guildId":""}"#)),
        Some(AgentOnline { name: text("alpha") })
    );
    assert_eq!(client.handle_packet(text(r#"{"id":0,"name":"beta"}"#)), None);
    assert_eq!(client.get_name(), "beta");
    assert_eq!(
        client.handle_packet(text(r#"{"id":1,"guildId":"G2"}"#)),
        Some(AgentOnline { name: text("beta") })
    );
}

#[test]
fn no_notice_while_the_other_field_is_unknown() {
    let mut client = WsClient::new(1);
    assert_eq!(client.apply(IncomingPacket::SetName(text("alpha"))), None);
    assert_eq!(client.apply(IncomingPacket::SetName(text("beta"))), None);
    let mut other = WsClient::new(2);
    assert_eq!(other.apply(IncomingPacket::SetServer(text("G1"))), None);
    assert_eq!(other.apply(IncomingPacket::SetServer(text("G2"))), None);
}

#[test]
fn unknown_id_is_answered_with_an_error_packet() {
    let mut client = WsClient::new(1);
    assert_eq!(client.handle_packet(text(r#"{"id":99}"#)), None);
    assert_eq!(client.pending(), 1);
    assert_eq!(
        client.next_frame(),
        Some(text(r#"{"id":-1,"message":"Invalid packet ID","error":"PacketInvalidID"}"#))
    );
    assert_eq!(client.next_frame(), None);
}

#[test]
fn malformed_body_is_answered_with_the_reason() {
    let mut client = WsClient::new(1);
    assert_eq!(client.handle_packet(text(r#"{"id":0}"#)), None);
    assert_eq!(
        client.next_frame(),
        Some(text(
            r#"{"id":-1,"message":"missing field `name`","error":"PacketDeserializationError"}"#
        ))
    );
    assert_eq!(client.get_name(), "");
}

#[test]
fn error_reply_is_swallowed_when_the_mailbox_is_full() {
    let mut client = WsClient::new(1);
    for n in 0..16 {
        assert_eq!(client.send_server_command(command(&format!("c{}", n))), Ok(()));
    }
    assert_eq!(client.handle_packet(text(r#"{"id":99}"#)), None);
    assert_eq!(client.pending(), 16);
    assert!(client.is_alive());
    assert!(client.is_open());
}

#[test]
fn error_reply_is_swallowed_when_the_connection_has_ended() {
    let mut client = WsClient::new(1);
    client.terminate();
    assert_eq!(client.handle_packet(text("not json")), None);
    assert_eq!(client.pending(), 0);
}

#[test]
fn commands_leave_in_the_order_they_came() {
    let mut client = WsClient::new(1);
    assert_eq!(client.send_server_command(command("first")), Ok(()));
    assert_eq!(client.send_server_command(command("second")), Ok(()));
    assert_eq!(
        client.next_frame(),
        Some(text(r#"{"id":0,"exec":{"run":["first"],"query":[],"set":{}}}"#))
    );
    assert_eq!(
        client.next_frame(),
        Some(text(r#"{"id":0,"exec":{"run":["second"],"query":[],"set":{}}}"#))
    );
    assert_eq!(client.next_frame(), None);
}

#[test]
fn seventeenth_command_is_refused_as_full() {
    let mut client = WsClient::new(1);
    for n in 0..16 {
        assert_eq!(client.send_server_command(command(&format!("c{}", n))), Ok(()));
    }
    assert_eq!(client.send_server_command(command("c16")), Err(SendError::MailboxFull));
    assert_eq!(client.pending(), 16);
}

#[test]
fn command_for_an_ended_connection_is_refused_as_closed() {
    let mut client = WsClient::new(1);
    client.terminate();
    assert_eq!(client.send_server_command(command("x")), Err(SendError::MailboxClosed));
}

#[test]
fn kill_marks_dead_and_touches_nothing_else() {
    let mut client = WsClient::new(1);
    client.apply(IncomingPacket::SetName(text("alpha")));
    assert_eq!(client.send_server_command(command("x")), Ok(()));
    client.kill();
    assert!(!client.is_alive());
    assert!(client.is_open());
    assert_eq!(client.pending(), 1);
    assert_eq!(client.get_name(), "alpha");
    client.kill();
    assert!(!client.is_alive());
    assert!(client.is_open());
    assert_eq!(client.pending(), 1);
}

#[test]
fn killed_connection_still_takes_commands_until_it_ends() {
    let mut client = WsClient::new(1);
    client.kill();
    assert_eq!(client.send_server_command(command("x")), Ok(()));
}

#[test]
fn step_frame_announces_or_continues() {
    let mut client = WsClient::new(1);
    assert_eq!(
        client.step(ClientEvent::Frame(text(r#"{"id":0,"name":"alpha"}"#))),
        ClientAction::Continue
    );
    assert_eq!(
        client.step(ClientEvent::Frame(text(r#"{"id":1,"guildId":"G1"}"#))),
        ClientAction::Announce(text("alpha"))
    );
    assert_eq!(client.step(ClientEvent::Frame(text(r#"{"id":5}"#))), ClientAction::Continue);
    assert_eq!(client.pending(), 1);
}

#[test]
fn step_writer_ready_writes_the_oldest_packet() {
    let mut client = WsClient::new(1);
    assert_eq!(client.step(ClientEvent::WriterReady), ClientAction::Continue);
    assert_eq!(client.send_server_command(command("go")), Ok(()));
    assert_eq!(
        client.step(ClientEvent::WriterReady),
        ClientAction::Write(text(r#"{"id":0,"exec":{"run":["go"],"query":[],"set":{}}}"#))
    );
    assert_eq!(client.step(ClientEvent::WriterReady), ClientAction::Continue);
}

#[test]
fn step_disconnected_closes_with_a_handshake() {
    let mut client = WsClient::new(1);
    assert_eq!(client.send_server_command(command("go")), Ok(()));
    assert_eq!(client.step(ClientEvent::Disconnected), ClientAction::CloseAndStop);
    assert!(!client.is_alive());
    assert!(!client.is_open());
    assert_eq!(client.pending(), 0);
}

#[test]
fn step_write_failed_stops_without_a_handshake() {
    let mut client = WsClient::new(1);
    assert_eq!(client.step(ClientEvent::WriteFailed), ClientAction::Stop);
    assert!(!client.is_alive());
    assert!(!client.is_open());
}

#[test]
fn step_after_the_end_always_stops() {
    let mut client = WsClient::new(1);
    client.step(ClientEvent::Disconnected);
    assert_eq!(
        client.step(ClientEvent::Frame(text(r#"{"id":0,"name":"late"}"#))),
        ClientAction::Stop
    );
    assert_eq!(client.get_name(), "");
    assert_eq!(client.step(ClientEvent::WriterReady), ClientAction::Stop);
    assert_eq!(client.step(ClientEvent::Disconnected), ClientAction::Stop);
    assert_eq!(client.step(ClientEvent::WriteFailed), ClientAction::Stop);
}

#[test]
fn in_channel_and_is_named_compare_whole_strings() {
    let mut client = WsClient::new(1);
    client.apply(IncomingPacket::SetName(text("alpha")));
    client.apply(IncomingPacket::SetServer(text("G1")));
    assert!(client.in_channel(&text("G1")));
    assert!(!client.in_channel(&text("G")));
    assert!(!client.in_channel(&text("")));
    assert!(client.is_named(&text("alpha")));
    assert!(!client.is_named(&text("alph")));
}

#[test]
fn writer_ready_is_told_apart_from_the_other_events() {
    assert!(ClientEvent::WriterReady.is_writer_ready());
    assert!(!ClientEvent::Frame(text("{}")).is_writer_ready());
    assert!(!ClientEvent::Disconnected.is_writer_ready());
    assert!(!ClientEvent::WriteFailed.is_writer_ready());
}

#[test]
fn follow_up_ends_the_loop_after_a_stop() {
    for after_writer in [false, true] {
        for failed in [false, true] {
            assert_eq!(follow_up(after_writer, &ClientAction::Stop, failed), Next::End);
            assert_eq!(follow_up(after_writer, &ClientAction::CloseAndStop, failed), Next::End);
        }
    }
}

#[test]
fn follow_up_reports_how_a_write_went() {
    let write = ClientAction::Write(text("frame"));
    for after_writer in [false, true] {
        assert_eq!(follow_up(after_writer, &write, false), Next::Report(ClientEvent::WriterReady));
        assert_eq!(follow_up(after_writer, &write, true), Next::Report(ClientEvent::WriteFailed));
    }
}

#[test]
fn follow_up_asks_the_writer_once_after_a_frame() {
    let ask = Next::Report(ClientEvent::WriterReady);
    assert_eq!(follow_up(false, &ClientAction::Continue, false), ask);
    assert_eq!(follow_up(false, &ClientAction::Announce(text("alpha")), false), ask);
    assert_eq!(follow_up(true, &ClientAction::Announce(text("alpha")), false), ask);
    assert_eq!(follow_up(true, &ClientAction::Continue, false), Next::Wait);
    assert_eq!(follow_up(true, &ClientAction::Continue, true), Next::Wait);
}

#[test]
fn a_loop_driven_by_follow_up_writes_the_reply_and_then_waits() {
    let mut client = WsClient::new(1);
    let mut written = Vec::new();
    let mut event = ClientEvent::Frame(text(r#"{"id":7}"#));
    loop {
        let after_writer = event.is_writer_ready();
        let action = client.step(event);
        if let ClientAction::Write(frame) = &action {
            written.push(frame.clone());
        }
        match follow_up(after_writer, &action, false) {
            Next::Report(next) => event = next,
            Next::Wait => break,
            Next::End => panic!("the loop ended"),
        }
    }
    assert_eq!(
        written,
        vec![text(r#"{"id":-1,"message":"Invalid packet ID","error":"PacketInvalidID"}"#)]
    );
    assert_eq!(client.pending(), 0);
}

#[test]
fn a_loop_driven_by_follow_up_ends_when_a_write_fails() {
    let mut client = WsClient::new(1);
    assert_eq!(client.send_server_command(command("a")), Ok(()));
    assert_eq!(client.send_server_command(command("b")), Ok(()));
    let mut event = ClientEvent::WriterReady;
    let mut steps = 0;
    loop {
        let after_writer = event.is_writer_ready();
        let action = client.step(event);
        steps += 1;
        match follow_up(after_writer, &action, true) {
            Next::Report(next) => event = next,
            Next::Wait => panic!("the loop waits"),
            Next::End => break,
        }
    }
    assert_eq!(steps, 2);
    assert!(!client.is_alive());
    assert!(!client.is_open());
}
