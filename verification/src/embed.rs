//! What the broker shows to the operators: embeds, described by their plain
//! values. Handing them to a chat platform is the caller's business.

use vstd::prelude::*;
use vstd::string::*;

use crate::ids::{id_text, uuid_text};
use crate::relay::DispatchOutcome;

verus! {

/// The colour of an embed that reports success.
pub const COLOR_OK: u32 = 0x78b064;

/// The colour of an embed that reports an error.
pub const COLOR_ERROR: u32 = 0xda2b46;

/// A named value shown in an embed.
#[derive(Debug, PartialEq, Eq)]
pub struct EmbedField {
    pub name: String,
    pub value: String,
    pub inline: bool,
}

/// An embed: a title, and optionally a colour, an author and fields.
#[derive(Debug, PartialEq, Eq)]
pub struct Embed {
    pub title: String,
    pub color: Option<u32>,
    pub author: Option<String>,
    pub fields: Vec<EmbedField>,
}

/// The mathematical value of an [`EmbedField`].
pub struct EmbedFieldView {
    pub name: Seq<char>,
    pub value: Seq<char>,
    pub inline: bool,
}

/// The mathematical value of an [`Embed`].
pub struct EmbedView {
    pub title: Seq<char>,
    pub color: Option<u32>,
    pub author: Option<Seq<char>>,
    pub fields: Seq<EmbedFieldView>,
}

impl View for EmbedField {
    type V = EmbedFieldView;

    open spec fn view(&self) -> EmbedFieldView {
        EmbedFieldView { name: self.name@, value: self.value@, inline: self.inline }
    }
}

/// The fields of a list, each as its mathematical value.
pub open spec fn fields_view(fields: Seq<EmbedField>) -> Seq<EmbedFieldView> {
    fields.map_values(|f: EmbedField| f@)
}

impl View for Embed {
    type V = EmbedView;

    open spec fn view(&self) -> EmbedView {
        EmbedView {
            title: self.title@,
            color: self.color,
            author: match self.author {
                Some(name) => Some(name@),
                None => None,
            },
            fields: fields_view(self.fields@),
        }
    }
}

/// The embed that reports an error: red, the title behind a cross, and the
/// error in one field.
pub open spec fn error_embed(title: Seq<char>, error: Seq<char>) -> EmbedView {
    EmbedView {
        title: ":x: "@ + title,
        color: Some(COLOR_ERROR),
        author: None,
        fields: seq![EmbedFieldView { name: "Error"@, value: error, inline: false }],
    }
}

/// The embed that told the operators of a selector that named no agent.
pub open spec fn no_match_embed(selector: Seq<char>) -> EmbedView {
    error_embed("Could not find any servers"@, "No servers matched the query "@ + selector)
}

/// The field that lists one agent: its name, and its id written as a UUID.
pub open spec fn listing_field(entry: (u128, Seq<char>)) -> EmbedFieldView {
    EmbedFieldView { name: entry.1, value: uuid_text(entry.0), inline: false }
}

/// Builds the embed that reports an error.
pub fn create_error_embed(title: &str, error: &str) -> (embed: Embed)
    ensures
        embed@ == error_embed(title@, error@),
{
    let mut full_title = String::from_str(":x: ");
    full_title.append(title);
    let mut fields: Vec<EmbedField> = Vec::new();
    fields.push(
        EmbedField {
            name: String::from_str("Error"),
            value: String::from_str(error),
            inline: false,
        },
    );
    let embed = Embed { title: full_title, color: Some(COLOR_ERROR), author: None, fields };
    assert(embed@.fields =~= error_embed(title@, error@).fields);
    embed
}

/// Builds a green embed with the given title, author and fields.
pub fn create_embed(title: &str, author: Option<&str>, fields: Vec<EmbedField>) -> (embed: Embed)
    ensures
        embed@ == (EmbedView {
            title: title@,
            color: Some(COLOR_OK),
            author: match author {
                Some(name) => Some(name@),
                None => None,
            },
            fields: fields_view(fields@),
        }),
{
    let author = match author {
        Some(name) => Some(String::from_str(name)),
        None => None,
    };
    Embed { title: String::from_str(title), color: Some(COLOR_OK), author, fields }
}

/// Builds the notice that the agent called `name` is online.
pub fn server_online(name: &str) -> (embed: Embed)
    ensures
        embed@ == (EmbedView {
            title: "Server online"@,
            color: Some(COLOR_OK),
            author: Some(name@),
            fields: Seq::empty(),
        }),
{
    let embed = create_embed("Server online", Some(name), Vec::new());
    assert(embed@.fields =~= Seq::empty());
    embed
}

/// Builds the answer to a command document that could not be read.
pub fn command_unreadable(detail: &str) -> (embed: Embed)
    ensures
        embed@ == error_embed("Error parsing command"@, detail@),
{
    create_error_embed("Error parsing command", detail)
}

/// Builds what the operators are told about the outcome of a command: an
/// error where the selector named no agent, and nothing otherwise.
pub fn outcome_reply(outcome: &DispatchOutcome, selector: &str) -> (reply: Option<Embed>)
    ensures
        match reply {
            Some(embed) => outcome@ is NoMatch && embed@ == no_match_embed(selector@),
            None => !(outcome@ is NoMatch),
        },
{
    match outcome {
        DispatchOutcome::NoMatch => {
            let mut error = String::from_str("No servers matched the query ");
            error.append(selector);
            Some(create_error_embed("Could not find any servers", error.as_str()))
        },
        DispatchOutcome::Dispatched { .. } => None,
    }
}

/// Builds the list of the agents of a channel: one field for each, with its
/// name and its id, in the order of the listing.
pub fn active_servers(listing: &Vec<(u128, String)>) -> (embed: Embed)
    ensures
        embed@ == (EmbedView {
            title: "Active Server"@,
            color: None,
            author: None,
            fields: crate::manager::listing_view(listing@).map_values(
                |entry: (u128, Seq<char>)| listing_field(entry),
            ),
        }),
{
    let mut fields: Vec<EmbedField> = Vec::new();
    let mut i: usize = 0;
    while i < listing.len()
        invariant
            i <= listing.len(),
            fields.len() == i,
            forall|k: int|
                0 <= k < i ==> (#[trigger] fields[k])@ == listing_field(
                    (listing[k].0, listing[k].1@),
                ),
        decreases listing.len() - i,
    {
        fields.push(
            EmbedField { name: listing[i].1.clone(), value: id_text(listing[i].0), inline: false },
        );
        i += 1;
    }
    let title = String::from_str("Active Server");
    let embed = Embed { title, color: None, author: None, fields };
    assert(embed@.fields =~= crate::manager::listing_view(listing@).map_values(
        |entry: (u128, Seq<char>)| listing_field(entry),
    ));
    embed
}

} // verus!
