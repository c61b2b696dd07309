//! What a check finds, and how a line asks to be left alone.
use vstd::prelude::*;

use crate::sorting;
use crate::text;
use crate::text::{contains_text, joined2, last_bytes, owned, split_lines};

verus! {

/// Something that should not be in a file.
#[derive(Debug, Clone, PartialEq, Eq)]
pub struct Finding {
    /// The line, counted from one.
    pub line: u128,
    pub message: String,
}

#[verifier::ext_equal]
pub struct FindingView {
    pub line: int,
    pub message: Seq<char>,
}

impl View for Finding {
    type V = FindingView;

    open spec fn view(&self) -> FindingView {
        FindingView { line: self.line as int, message: self.message@ }
    }
}

/// A check of source files.
pub trait Lint {
    /// The name of the check.
    spec fn title(&self) -> Seq<char>;

    /// What the check finds in a file; `None` if one of its patterns is no regular expression.
    spec fn found_in(&self, path: Seq<char>, content: Seq<char>) -> Option<Seq<FindingView>>;

    fn name(&self) -> (r: &'static str)
        ensures
            r@ == self.title(),
    ;

    /// Checks a file.
    fn check(&self, path: &str, content: &str) -> (r: Option<Vec<Finding>>)
        ensures
            match r {
                Some(list) => self.found_in(path@, content@) == Some(sorting::views(list@)),
                None => self.found_in(path@, content@) is None,
            },
    ;
}

/// The comment that asks to leave a line alone.
pub open spec fn permission(rule: Seq<char>) -> Seq<char> {
    "// virtmcu-allow: "@ + rule
}

/// The line at index `i`, or the one before it, asks to be left alone.
pub open spec fn suppressed_at(lines: Seq<Seq<char>>, i: int, rule: Seq<char>) -> bool {
    ||| 0 <= i < lines.len() && text::occurs(lines[i], permission(rule))
    ||| 0 <= i - 1 < lines.len() && text::occurs(lines[i - 1], permission(rule))
}

/// Whether the line at index `line_idx`, or the one before it, asks to be left alone.
pub fn is_suppressed(lines: &Vec<String>, line_idx: usize, rule: &str) -> (r: bool)
    ensures
        r == suppressed_at(sorting::views(lines@), line_idx as int, rule@),
{
    let pattern = joined2("// virtmcu-allow: ", rule);
    if line_idx < lines.len() && contains_text(lines[line_idx].as_str(), pattern.as_str()) {
        return true;
    }
    line_idx > 0 && line_idx - 1 < lines.len() && contains_text(
        lines[line_idx - 1].as_str(),
        pattern.as_str(),
    )
}

/// How far before a match the request to leave it alone may stand, in bytes.
pub const PERMISSION_REACH: usize = 100;

/// The text before a match asks to leave it alone.
pub open spec fn suppressed_before(before: Seq<char>, rule: Seq<char>) -> bool {
    text::occurs(text::tail_within(before, PERMISSION_REACH as int), permission(rule))
}

/// Whether the text before a match asks to leave it alone.
pub fn is_suppressed_multiline(before: &str, rule: &str) -> (r: bool)
    ensures
        r == suppressed_before(before@, rule@),
{
    let pattern = joined2("// virtmcu-allow: ", rule);
    contains_text(last_bytes(before, PERMISSION_REACH).as_str(), pattern.as_str())
}

/// The line that a match with this text before it is said to be in.
pub open spec fn line_after(before: Seq<char>) -> int {
    text::lines_of(before).len() as int + 1
}

/// What a match that spans lines amounts to: nothing where there is none, or where it asks to be
/// left alone.
pub open spec fn spanning_found(
    found: Option<(Seq<char>, Seq<char>)>,
    rule: Seq<char>,
    message: Seq<char>,
) -> Seq<FindingView> {
    match found {
        Some(m) => if suppressed_before(m.0, rule) {
            Seq::empty()
        } else {
            seq![FindingView { line: line_after(m.0), message }]
        },
        None => Seq::empty(),
    }
}

/// The view of an optional match.
pub open spec fn match_view(found: Option<(String, String)>) -> Option<(Seq<char>, Seq<char>)> {
    match found {
        Some(m) => Some((m.0@, m.1@)),
        None => None,
    }
}

/// Adds what a match that spans lines amounts to.
pub fn push_spanning(
    list: &mut Vec<Finding>,
    found: &Option<(String, String)>,
    rule: &str,
    message: &str,
)
    ensures
        sorting::views(final(list)@) == sorting::views(old(list)@) + spanning_found(
            match_view(*found),
            rule@,
            message@,
        ),
{
    match found {
        Some(m) => {
            if !is_suppressed_multiline(m.0.as_str(), rule) {
                let lines = split_lines(m.0.as_str());
                push_finding(list, lines.len(), message);
            }
        },
        None => {},
    }
    proof {
        assert(sorting::views(list@) =~= sorting::views(old(list)@) + spanning_found(
            match_view(*found),
            rule@,
            message@,
        ));
    }
}

/// Adds a finding in the line behind the first `index` lines.
pub fn push_finding(list: &mut Vec<Finding>, index: usize, message: &str)
    ensures
        sorting::views(final(list)@) == sorting::views(old(list)@).push(
            FindingView { line: index + 1, message: message@ },
        ),
{
    list.push(Finding { line: index as u128 + 1, message: owned(message) });
    proof {
        assert(sorting::views(list@) =~= sorting::views(old(list)@).push(
            FindingView { line: index + 1, message: message@ },
        ));
    }
}

/// Findings of two checks, one after the other, where both could be made.
pub open spec fn both(a: Option<Seq<FindingView>>, b: Option<Seq<FindingView>>) -> Option<
    Seq<FindingView>,
> {
    match (a, b) {
        (Some(x), Some(y)) => Some(x + y),
        _ => None,
    }
}

} // verus!
