use agent_relay::control::{classify, ChatRequest};

fn command(document: &str) -> ChatRequest {
    ChatRequest::Command(document.to_string())
}

#[test]
fn fenced_yaml_is_a_command() {
    assert_eq!(
        classify("```yaml\non: alpha\nrun:\n  - stop\n```"),
        command("on: alpha\nrun:\n  - stop\n")
    );
}

#[test]
fn empty_fenced_block_is_an_empty_document() {
    assert_eq!(classify("```yaml\n```"), command(""));
}

#[test]
fn fence_is_taken_from_both_ends_only() {
    assert_eq!(classify("```yaml\na```b```"), command("a```b"));
    assert_eq!(classify("```yaml\n``````"), command("```"));
}

#[test]
fn fence_without_a_line_break_is_malformed() {
    assert_eq!(classify("```yaml"), ChatRequest::Malformed);
    assert_eq!(classify("```yaml on: x```"), ChatRequest::Malformed);
    assert_eq!(classify("```yamlx\n```"), ChatRequest::Malformed);
}

#[test]
fn fence_that_is_not_closed_is_malformed() {
    assert_eq!(classify("```yaml\non: alpha"), ChatRequest::Malformed);
    assert_eq!(classify("```yaml\non: alpha\n``` "), ChatRequest::Malformed);
    assert_eq!(classify("```yaml\n``"), ChatRequest::Malformed);
}

#[test]
fn slash_list_asks_for_the_list() {
    assert_eq!(classify("/list"), ChatRequest::List);
    assert_eq!(classify("/list "), ChatRequest::List);
    assert_eq!(classify("/list everything please"), ChatRequest::List);
}

#[test]
fn other_slash_words_are_ignored() {
    assert_eq!(classify("/"), ChatRequest::Ignored);
    assert_eq!(classify("/lis"), ChatRequest::Ignored);
    assert_eq!(classify("/lists"), ChatRequest::Ignored);
    assert_eq!(classify("/listing all"), ChatRequest::Ignored);
    assert_eq!(classify("/list\tall"), ChatRequest::Ignored);
    assert_eq!(classify("/ list"), ChatRequest::Ignored);
    assert_eq!(classify("/List"), ChatRequest::Ignored);
    assert_eq!(classify("/help"), ChatRequest::Ignored);
}

#[test]
fn talk_is_ignored() {
    assert_eq!(classify(""), ChatRequest::Ignored);
    assert_eq!(classify("hello"), ChatRequest::Ignored);
    assert_eq!(classify(" /list"), ChatRequest::Ignored);
    assert_eq!(classify("list"), ChatRequest::Ignored);
    assert_eq!(classify("```json\n{}```"), ChatRequest::Ignored);
    assert_eq!(classify(" ```yaml\n```"), ChatRequest::Ignored);
    assert_eq!(classify("``yaml\n```"), ChatRequest::Ignored);
}

#[test]
fn documents_keep_text_that_is_not_ascii() {
    assert_eq!(
        classify("```yaml\non: caf\u{e9} \u{1f600}\n```"),
        command("on: caf\u{e9} \u{1f600}\n")
    );
}
