use agent_relay::embed::{
    active_servers, command_unreadable, create_embed, create_error_embed, outcome_reply,
    server_online, Embed, EmbedField, COLOR_ERROR, COLOR_OK,
};
use agent_relay::relay::DispatchOutcome;

fn text(s: &str) -> String {
    s.to_string()
}

fn field(name: &str, value: &str) -> EmbedField {
    EmbedField { name: text(name), value: text(value), inline: false }
}

#[test]
fn colours() {
    assert_eq!(COLOR_OK, 0x78b064);
    assert_eq!(COLOR_ERROR, 0xda2b46);
}

#[test]
fn error_embed_is_red_with_one_field() {
    assert_eq!(
        create_error_embed("Error parsing command", "bad indent"),
        Embed {
            title: text(":x: Error parsing command"),
            color: Some(0xda2b46),
            author: None,
            fields: vec![field("Error", "bad indent")],
        }
    );
}

#[test]
fn plain_embed_is_green_and_keeps_its_fields() {
    assert_eq!(
        create_embed("Title", None, vec![field("a", "1"), field("b", "2")]),
        Embed {
            title: text("Title"),
            color: Some(0x78b064),
            author: None,
            fields: vec![field("a", "1"), field("b", "2")],
        }
    );
    assert_eq!(
        create_embed("Title", Some("alpha"), vec![]),
        Embed {
            title: text("Title"),
            color: Some(0x78b064),
            author: Some(text("alpha")),
            fields: vec![],
        }
    );
}

#[test]
fn server_online_names_the_agent_as_author() {
    assert_eq!(
        server_online("alpha"),
        Embed {
            title: text("Server online"),
            color: Some(0x78b064),
            author: Some(text("alpha")),
            fields: vec![],
        }
    );
}

#[test]
fn unreadable_command_reports_the_reason() {
    assert_eq!(
        command_unreadable("missing field `on`"),
        create_error_embed("Error parsing command", "missing field `on`")
    );
}

#[test]
fn no_match_is_told_to_the_operators() {
    assert_eq!(
        outcome_reply(&DispatchOutcome::NoMatch, "al.*"),
        Some(Embed {
            title: text(":x: Could not find any servers"),
            color: Some(0xda2b46),
            author: None,
            fields: vec![field("Error", "No servers matched the query al.*")],
        })
    );
}

#[test]
fn a_dispatch_is_not_commented() {
    let outcome = DispatchOutcome::Dispatched { matched: 2, failures: vec![7], blocked: vec![] };
    assert_eq!(outcome_reply(&outcome, "al.*"), None);
}

#[test]
fn active_servers_lists_names_with_their_uuid() {
    let listing = vec![
        (0xa1a2a3a4_b1b2_c1c2_d1d2_d3d4d5d6d7d8u128, text("alpha")),
        (1u128, text("beta")),
    ];
    assert_eq!(
        active_servers(&listing),
        Embed {
            title: text("Active Server"),
            color: None,
            author: None,
            fields: vec![
                field("alpha", "a1a2a3a4-b1b2-c1c2-d1d2-d3d4d5d6d7d8"),
                field("beta", "00000000-0000-0000-0000-000000000001"),
            ],
        }
    );
    assert_eq!(
        active_servers(&vec![]),
        Embed { title: text("Active Server"), color: None, author: None, fields: vec![] }
    );
}
