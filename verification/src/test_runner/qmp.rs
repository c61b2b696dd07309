//! Talking to the emulator's monitor.
use vstd::prelude::*;

use crate::json;
use crate::json::{json_has_field, json_object, json_quoted, JsonField};
use crate::sorting;
use crate::text;
use crate::text::{joined2, owned, split_lines, trim_text};

verus! {

/// What is sent to the monitor first.
pub const CAPABILITIES: &'static str = "{\"execute\": \"qmp_capabilities\"}\n";

/// The fields of a request.
pub open spec fn request_fields(command: Seq<char>, arguments: Option<Seq<char>>) -> Seq<
    json::JsonFieldView,
> {
    seq![json::JsonFieldView { name: "execute"@, value: json::json_quoted_of(command) }] + (
    match arguments {
        Some(a) => seq![json::JsonFieldView { name: "arguments"@, value: a }],
        None => Seq::empty(),
    })
}

/// The line that asks the monitor to run a command; `arguments` is JSON. `None` if it is not.
pub fn request_line(command: &str, arguments: &Option<String>) -> (r: Option<String>)
    ensures
        match json::json_object_of(request_fields(command@, text::optional(*arguments))) {
            Some(object) => text::optional(r) == Some(object + "\n"@),
            None => r is None,
        },
{
    let mut fields: Vec<JsonField> = Vec::new();
    let quoted = json_quoted(command);
    fields.push(JsonField { name: owned("execute"), value: quoted });
    match arguments {
        Some(a) => {
            fields.push(JsonField { name: owned("arguments"), value: owned(a.as_str()) });
        },
        None => {},
    }
    proof {
        assert(sorting::views(fields@) =~= request_fields(command@, text::optional(*arguments)));
    }
    match json_object(&fields) {
        Ok(object) => Some(joined2(object.as_str(), "\n")),
        Err(_) => None,
    }
}

/// What the monitor sent.
#[derive(Debug, Clone, PartialEq, Eq)]
pub enum Reply {
    /// The answer to a request, as JSON.
    Answer(String),
    /// Only events, which nobody asked for.
    Nothing,
    /// Something that is no JSON.
    Malformed,
}

pub enum ReplyView {
    Answer(Seq<char>),
    Nothing,
    Malformed,
}

impl View for Reply {
    type V = ReplyView;

    open spec fn view(&self) -> ReplyView {
        match self {
            Reply::Answer(s) => ReplyView::Answer(s@),
            Reply::Nothing => ReplyView::Nothing,
            Reply::Malformed => ReplyView::Malformed,
        }
    }
}

/// What a line is, given whether it has the fields of an answer: `None` where it is no JSON.
pub open spec fn line_reply(
    line: Seq<char>,
    has_return: Option<bool>,
    has_error: Option<bool>,
) -> ReplyView {
    match (has_return, has_error) {
        (Some(a), Some(b)) => if a || b {
            ReplyView::Answer(line)
        } else {
            ReplyView::Nothing
        },
        _ => ReplyView::Malformed,
    }
}

/// Tells what a line is, given whether it has the fields of an answer.
pub fn reply_of_line(line: &str, has_return: Option<bool>, has_error: Option<bool>) -> (r: Reply)
    ensures
        r@ == line_reply(line@, has_return, has_error),
{
    match (has_return, has_error) {
        (Some(a), Some(b)) => {
            if a || b {
                Reply::Answer(owned(line))
            } else {
                Reply::Nothing
            }
        },
        _ => Reply::Malformed,
    }
}

/// What the lines from index `i` on amount to: the first that is an answer or no JSON.
pub open spec fn reply_from(lines: Seq<Seq<char>>, i: int) -> ReplyView
    decreases lines.len() - i,
{
    if i < 0 || i >= lines.len() {
        ReplyView::Nothing
    } else if text::trimmed(lines[i]).len() == 0 {
        reply_from(lines, i + 1)
    } else {
        let reply = line_reply(
            lines[i],
            json::json_has_field_of(lines[i], "return"@),
            json::json_has_field_of(lines[i], "error"@),
        );
        if reply is Nothing {
            reply_from(lines, i + 1)
        } else {
            reply
        }
    }
}

/// Looks for an answer in what the monitor sent.
pub fn find_reply(received: &str) -> (r: Reply)
    ensures
        r@ == reply_from(text::lines_of(received@), 0),
{
    let lines = split_lines(received);
    let ghost all = text::lines_of(received@);
    let mut i: usize = 0;
    while i < lines.len()
        invariant
            i <= lines@.len(),
            all == sorting::views(lines@),
            all == text::lines_of(received@),
            reply_from(all, 0) == reply_from(all, i as int),
        decreases lines@.len() - i,
    {
        let line = lines[i].as_str();
        proof {
            assert(all[i as int] == line@);
        }
        if !trim_text(line).as_str().is_empty() {
            let has_return = match json_has_field(line, "return") {
                Ok(b) => Some(b),
                Err(_) => None,
            };
            let has_error = match json_has_field(line, "error") {
                Ok(b) => Some(b),
                Err(_) => None,
            };
            match reply_of_line(line, has_return, has_error) {
                Reply::Nothing => {},
                Reply::Answer(s) => {
                    return Reply::Answer(s);
                },
                Reply::Malformed => {
                    return Reply::Malformed;
                },
            }
        }
        i += 1;
    }
    Reply::Nothing
}

} // verus!
