//! What an operator's chat message asks of the broker.
//!
//! A message that opens a fenced yaml block carries a command document
//! between the fences. A message that starts with a slash is a command word;
//! `list` asks for the agents of the channel. Everything else is talk.

use vstd::prelude::*;

use crate::text::{strip_prefix, strip_suffix, without_prefix, without_suffix};

verus! {

/// What a chat message asks for.
#[derive(Debug, PartialEq, Eq)]
pub enum ChatRequest {
    /// Run the command that this document describes.
    Command(String),
    /// A yaml fence was opened, but no line break follows it or the closing
    /// fence is missing.
    Malformed,
    /// List the agents of the channel.
    List,
    /// Nothing that concerns the broker.
    Ignored,
}

/// The mathematical value of a [`ChatRequest`].
pub enum ChatRequestView {
    Command(Seq<char>),
    Malformed,
    List,
    Ignored,
}

impl View for ChatRequest {
    type V = ChatRequestView;

    open spec fn view(&self) -> ChatRequestView {
        match self {
            ChatRequest::Command(document) => ChatRequestView::Command(document@),
            ChatRequest::Malformed => ChatRequestView::Malformed,
            ChatRequest::List => ChatRequestView::List,
            ChatRequest::Ignored => ChatRequestView::Ignored,
        }
    }
}

/// What stands between the opening fence with its line break and the closing
/// fence.
pub open spec fn fenced_document(content: Seq<char>) -> Option<Seq<char>> {
    match without_prefix(content, "```yaml\n"@) {
        Some(rest) => without_suffix(rest, "```"@),
        None => None,
    }
}

/// Whether the text behind the slash is the word `list`, alone or followed
/// by a space.
pub open spec fn asks_for_list(word: Seq<char>) -> bool {
    word == "list"@ || "list "@.is_prefix_of(word)
}

/// What the message `content` asks for.
pub open spec fn classified(content: Seq<char>) -> ChatRequestView {
    if "```yaml"@.is_prefix_of(content) {
        match fenced_document(content) {
            Some(document) => ChatRequestView::Command(document),
            None => ChatRequestView::Malformed,
        }
    } else if "/"@.is_prefix_of(content) {
        if asks_for_list(content.skip(1)) {
            ChatRequestView::List
        } else {
            ChatRequestView::Ignored
        }
    } else {
        ChatRequestView::Ignored
    }
}

/// A text that starts with `list` has its letters in the first four places.
proof fn lemma_list_letters(word: Seq<char>)
    requires
        "list"@.is_prefix_of(word),
    ensures
        word.len() >= 4,
        word[0] == 'l',
        word[1] == 'i',
        word[2] == 's',
        word[3] == 't',
{
    reveal_strlit("list");
    let head = word.subrange(0, 4);
    assert(head[0] == word[0] && head[1] == word[1] && head[2] == word[2] && head[3] == word[3]);
}

/// A text starts with `list` and a space where those five characters stand
/// in its first five places.
proof fn lemma_list_and_space(word: Seq<char>)
    ensures
        "list "@.is_prefix_of(word) <==> word.len() >= 5 && word[0] == 'l' && word[1] == 'i'
            && word[2] == 's' && word[3] == 't' && word[4] == ' ',
{
    reveal_strlit("list ");
    if word.len() >= 5 {
        let head = word.subrange(0, 5);
        assert(head[0] == word[0] && head[1] == word[1] && head[2] == word[2] && head[3]
            == word[3] && head[4] == word[4]);
        if word[0] == 'l' && word[1] == 'i' && word[2] == 's' && word[3] == 't' && word[4]
            == ' ' {
            assert("list "@ =~= head);
        }
    }
}

/// Whether the text behind the slash is the word `list`.
fn is_list(word: &str) -> (yes: bool)
    ensures
        yes == asks_for_list(word@),
{
    proof {
        reveal_strlit("list");
        reveal_strlit(" ");
        lemma_list_and_space(word@);
    }
    match strip_prefix(word, "list") {
        Some(tail) => {
            proof {
                lemma_list_letters(word@);
            }
            if tail.is_empty() {
                assert(word@ =~= "list"@);
                true
            } else {
                let spaced = strip_prefix(tail, " ").is_some();
                proof {
                    assert(tail@[0] == word@[4]);
                    assert(tail@.subrange(0, 1)[0] == tail@[0]);
                    if tail@[0] == ' ' {
                        assert(" "@ =~= tail@.subrange(0, 1));
                    }
                }
                spaced
            }
        },
        None => {
            proof {
                if word@.len() >= 4 && word@[0] == 'l' && word@[1] == 'i' && word@[2] == 's'
                    && word@[3] == 't' {
                    assert("list"@ =~= word@.subrange(0, 4));
                }
            }
            false
        },
    }
}

/// Reads what a chat message asks for.
pub fn classify(content: &str) -> (request: ChatRequest)
    ensures
        request@ == classified(content@),
{
    proof {
        reveal_strlit("/");
    }
    if strip_prefix(content, "```yaml").is_some() {
        match strip_prefix(content, "```yaml\n") {
            Some(rest) => match strip_suffix(rest, "```") {
                Some(document) => ChatRequest::Command(document.to_owned()),
                None => ChatRequest::Malformed,
            },
            None => ChatRequest::Malformed,
        }
    } else {
        match strip_prefix(content, "/") {
            Some(word) => {
                if is_list(word) {
                    ChatRequest::List
                } else {
                    ChatRequest::Ignored
                }
            },
            None => ChatRequest::Ignored,
        }
    }
}

} // verus!
