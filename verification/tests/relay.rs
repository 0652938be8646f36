use agent_relay::client::{ClientAction, ClientEvent};
use agent_relay::manager::WsManager;
use agent_relay::relay::{
    dispatch, list_by_scope, resolve, resolve_and_dispatch, retry_blocked, DispatchOutcome,
};
use agent_relay::server_command::{ServerCommand, Settings};

fn text(s: &str) -> String {
    s.to_string()
}

fn identify(manager: &mut WsManager, id: u128, name: &str, channel: &str) {
    assert!(manager.register(id));
    manager.step(id, ClientEvent::Frame(format!(r#"{{"id":0,"name":"{}"}}"#, name)));
    manager.step(id, ClientEvent::Frame(format!(r#"{{"id":1,"guildId":"{}"}}"#, channel)));
}

fn command(on: &str) -> ServerCommand {
    ServerCommand {
        on: text(on),
        run: vec![text("say hi")],
        query: vec![text("players")],
        set: Settings::collect(vec![(text("motd"), text("hello"))]),
    }
}

const WIRE: &str =
    r#"{"id":0,"exec":{"run":["say hi"],"query":["players"],"set":{"motd":"hello"}}}"#;

fn drain(manager: &mut WsManager, id: u128) -> Vec<String> {
    let mut frames = Vec::new();
    while let ClientAction::Write(frame) = manager.step(id, ClientEvent::WriterReady) {
        frames.push(frame);
    }
    frames
}

fn delivered(matched: usize) -> DispatchOutcome {
    DispatchOutcome::Dispatched { matched, failures: vec![], blocked: vec![] }
}

#[test]
fn end_to_end_two_agents_in_one_channel() {
    let mut manager = WsManager::new();
    identify(&mut manager, 1, "alpha", "G1");
    identify(&mut manager, 2, "beta", "G1");

    assert_eq!(resolve_and_dispatch(&mut manager, command("al.*"), text("G1")), delivered(1));
    assert_eq!(drain(&mut manager, 1), vec![text(WIRE)]);
    assert_eq!(drain(&mut manager, 2), Vec::<String>::new());

    assert_eq!(resolve_and_dispatch(&mut manager, command("beta"), text("G1")), delivered(1));
    assert_eq!(drain(&mut manager, 1), Vec::<String>::new());
    assert_eq!(drain(&mut manager, 2), vec![text(WIRE)]);

    assert_eq!(
        resolve_and_dispatch(&mut manager, command("nope"), text("G1")),
        DispatchOutcome::NoMatch
    );
    assert_eq!(drain(&mut manager, 1), Vec::<String>::new());
    assert_eq!(drain(&mut manager, 2), Vec::<String>::new());
}

#[test]
fn partial_delivery_with_one_closed_mailbox() {
    let mut manager = WsManager::new();
    identify(&mut manager, 1, "web-1", "G1");
    identify(&mut manager, 2, "web-2", "G1");
    identify(&mut manager, 3, "web-3", "G1");
    identify(&mut manager, 4, "db-1", "G1");
    manager.step(2, ClientEvent::Disconnected);

    assert_eq!(
        resolve_and_dispatch(&mut manager, command("^web-"), text("G1")),
        DispatchOutcome::Dispatched { matched: 3, failures: vec![2], blocked: vec![] }
    );
    assert_eq!(drain(&mut manager, 1), vec![text(WIRE)]);
    assert_eq!(drain(&mut manager, 3), vec![text(WIRE)]);
    assert_eq!(drain(&mut manager, 2), Vec::<String>::new());
    assert_eq!(drain(&mut manager, 4), Vec::<String>::new());
}

#[test]
fn full_mailbox_is_reported_as_blocked_and_keeps_its_packets() {
    let mut manager = WsManager::new();
    identify(&mut manager, 1, "alpha", "G1");
    identify(&mut manager, 2, "alps", "G1");
    for _ in 0..16 {
        assert_eq!(resolve_and_dispatch(&mut manager, command("alpha"), text("G1")), delivered(1));
    }
    assert_eq!(
        resolve_and_dispatch(&mut manager, command("^al"), text("G1")),
        DispatchOutcome::Dispatched { matched: 2, failures: vec![], blocked: vec![1] }
    );
    assert_eq!(drain(&mut manager, 1).len(), 16);
    assert_eq!(drain(&mut manager, 2), vec![text(WIRE)]);
}

#[test]
fn selector_that_is_no_pattern_falls_back_to_the_name() {
    let mut manager = WsManager::new();
    identify(&mut manager, 1, "web(1", "G1");
    identify(&mut manager, 2, "web(12", "G1");
    identify(&mut manager, 3, "web(1", "G2");
    assert!(regex::Regex::new("web(1").is_err());
    assert_eq!(resolve(&manager, &text("web(1"), &text("G1")), vec![1]);
    assert_eq!(
        resolve(&manager, &text("web(1"), &text("G1")),
        manager.get_connection_by_name(text("web(1"), text("G1")).into_iter().collect::<Vec<_>>()
    );
    assert_eq!(resolve(&manager, &text("web(1"), &text("G2")), vec![3]);
    assert_eq!(resolve(&manager, &text("web(1"), &text("G3")), vec![]);
    assert_eq!(resolve(&manager, &text("web("), &text("G1")), vec![]);
    assert_eq!(resolve_and_dispatch(&mut manager, command("web(1"), text("G1")), delivered(1));
    assert_eq!(drain(&mut manager, 1), vec![text(WIRE)]);
    assert_eq!(drain(&mut manager, 2), Vec::<String>::new());
}

#[test]
fn selector_that_is_a_pattern_is_not_taken_as_a_name() {
    let mut manager = WsManager::new();
    identify(&mut manager, 1, "a.c", "G1");
    identify(&mut manager, 2, "abc", "G1");
    identify(&mut manager, 3, "xabcx", "G1");
    assert_eq!(resolve(&manager, &text("a.c"), &text("G1")), vec![1, 2, 3]);
    assert_eq!(resolve(&manager, &text("^a.c$"), &text("G1")), vec![1, 2]);
}

#[test]
fn no_match_sends_nothing() {
    let mut manager = WsManager::new();
    identify(&mut manager, 1, "alpha", "G1");
    assert_eq!(
        resolve_and_dispatch(&mut manager, command("alpha"), text("G2")),
        DispatchOutcome::NoMatch
    );
    assert_eq!(
        resolve_and_dispatch(&mut manager, command("zeta"), text("G1")),
        DispatchOutcome::NoMatch
    );
    assert_eq!(drain(&mut manager, 1), Vec::<String>::new());
}

#[test]
fn no_match_in_an_empty_table() {
    let mut manager = WsManager::new();
    assert_eq!(
        resolve_and_dispatch(&mut manager, command(".*"), text("G1")),
        DispatchOutcome::NoMatch
    );
}

#[test]
fn dispatch_to_given_targets() {
    let mut manager = WsManager::new();
    identify(&mut manager, 1, "alpha", "G1");
    identify(&mut manager, 2, "beta", "G1");
    identify(&mut manager, 3, "gamma", "G1");
    manager.step(3, ClientEvent::WriteFailed);
    assert_eq!(
        dispatch(&mut manager, &vec![3, 1, 9], &command("ignored")),
        DispatchOutcome::Dispatched { matched: 3, failures: vec![3, 9], blocked: vec![] }
    );
    assert_eq!(drain(&mut manager, 1), vec![text(WIRE)]);
    assert_eq!(drain(&mut manager, 2), Vec::<String>::new());
    assert_eq!(dispatch(&mut manager, &vec![], &command("ignored")), DispatchOutcome::NoMatch);
}

#[test]
fn dispatch_to_a_target_named_twice_queues_twice() {
    let mut manager = WsManager::new();
    identify(&mut manager, 1, "alpha", "G1");
    assert_eq!(dispatch(&mut manager, &vec![1, 1], &command("x")), delivered(2));
    assert_eq!(drain(&mut manager, 1), vec![text(WIRE), text(WIRE)]);
}

#[test]
fn killed_but_connected_agent_still_receives() {
    let mut manager = WsManager::new();
    identify(&mut manager, 1, "alpha", "G1");
    assert!(manager.kill(1));
    assert_eq!(resolve_and_dispatch(&mut manager, command("alpha"), text("G1")), delivered(1));
    assert_eq!(manager.sweep(), vec![1]);
    assert_eq!(
        resolve_and_dispatch(&mut manager, command("alpha"), text("G1")),
        DispatchOutcome::NoMatch
    );
}

#[test]
fn list_by_scope_gives_ids_and_names() {
    let mut manager = WsManager::new();
    identify(&mut manager, 10, "alpha", "G1");
    identify(&mut manager, 20, "beta", "G2");
    identify(&mut manager, 30, "gamma", "G1");
    assert_eq!(list_by_scope(&manager, text("G1")), vec![(10, text("alpha")), (30, text("gamma"))]);
    assert_eq!(list_by_scope(&manager, text("G2")), vec![(20, text("beta"))]);
    assert_eq!(list_by_scope(&manager, text("G3")), vec![]);
}

#[test]
fn settled_means_nobody_waits() {
    assert!(DispatchOutcome::NoMatch.is_settled());
    assert!(delivered(3).is_settled());
    let failed = DispatchOutcome::Dispatched { matched: 2, failures: vec![7], blocked: vec![] };
    assert!(failed.is_settled());
    let waiting = DispatchOutcome::Dispatched { matched: 2, failures: vec![], blocked: vec![7] };
    assert!(!waiting.is_settled());
}

#[test]
fn retry_delivers_once_the_writer_has_made_room() {
    let mut manager = WsManager::new();
    identify(&mut manager, 1, "alpha", "G1");
    identify(&mut manager, 2, "alps", "G1");
    for _ in 0..16 {
        assert_eq!(resolve_and_dispatch(&mut manager, command("alpha"), text("G1")), delivered(1));
    }
    let first = resolve_and_dispatch(&mut manager, command("^al"), text("G1"));
    assert_eq!(
        first,
        DispatchOutcome::Dispatched { matched: 2, failures: vec![], blocked: vec![1] }
    );
    let still = retry_blocked(&mut manager, first, &command("^al"));
    assert_eq!(
        still,
        DispatchOutcome::Dispatched { matched: 2, failures: vec![], blocked: vec![1] }
    );
    assert!(matches!(manager.step(1, ClientEvent::WriterReady), ClientAction::Write(_)));
    let settled = retry_blocked(&mut manager, still, &command("^al"));
    assert_eq!(settled, delivered(2));
    assert!(settled.is_settled());
    assert_eq!(drain(&mut manager, 1).len(), 16);
    assert_eq!(drain(&mut manager, 2), vec![text(WIRE)]);
}

#[test]
fn retry_counts_a_connection_that_ended_meanwhile_as_a_failure() {
    let mut manager = WsManager::new();
    identify(&mut manager, 1, "alpha", "G1");
    identify(&mut manager, 2, "alps", "G1");
    identify(&mut manager, 3, "gone", "G1");
    manager.step(3, ClientEvent::Disconnected);
    for _ in 0..16 {
        assert_eq!(resolve_and_dispatch(&mut manager, command("^al"), text("G1")), delivered(2));
    }
    let first = resolve_and_dispatch(&mut manager, command(".*"), text("G1"));
    assert_eq!(
        first,
        DispatchOutcome::Dispatched { matched: 3, failures: vec![3], blocked: vec![1, 2] }
    );
    manager.step(1, ClientEvent::Disconnected);
    manager.step(2, ClientEvent::WriterReady);
    let settled = retry_blocked(&mut manager, first, &command(".*"));
    assert_eq!(
        settled,
        DispatchOutcome::Dispatched { matched: 3, failures: vec![3, 1], blocked: vec![] }
    );
    assert_eq!(drain(&mut manager, 2).len(), 16);
}

#[test]
fn retry_of_a_settled_outcome_changes_nothing() {
    let mut manager = WsManager::new();
    identify(&mut manager, 1, "alpha", "G1");
    assert_eq!(
        retry_blocked(&mut manager, DispatchOutcome::NoMatch, &command("x")),
        DispatchOutcome::NoMatch
    );
    let done = DispatchOutcome::Dispatched { matched: 4, failures: vec![9], blocked: vec![] };
    assert_eq!(
        retry_blocked(&mut manager, done, &command("x")),
        DispatchOutcome::Dispatched { matched: 4, failures: vec![9], blocked: vec![] }
    );
    assert_eq!(drain(&mut manager, 1), Vec::<String>::new());
}

#[test]
fn retry_counts_an_agent_that_was_swept_as_a_failure() {
    let mut manager = WsManager::new();
    let waiting = DispatchOutcome::Dispatched { matched: 1, failures: vec![], blocked: vec![42] };
    assert_eq!(
        retry_blocked(&mut manager, waiting, &command("x")),
        DispatchOutcome::Dispatched { matched: 1, failures: vec![42], blocked: vec![] }
    );
}
