//! Regular expressions.
use vstd::prelude::*;

use crate::sorting;
use crate::text;

verus! {

/// Whether the pattern matches somewhere in the text; `None` if the pattern is no regular
/// expression.
pub uninterp spec fn regex_is_match_of(pattern: Seq<char>, haystack: Seq<char>) -> Option<bool>;

/// The first match of the pattern: what stands before it, and the match; `None` if the pattern is
/// no regular expression.
pub uninterp spec fn regex_find_of(pattern: Seq<char>, haystack: Seq<char>) -> Option<
    Option<(Seq<char>, Seq<char>)>,
>;

/// The matches of the pattern one after the other; `None` if the pattern is no regular expression.
pub uninterp spec fn regex_find_all_of(pattern: Seq<char>, haystack: Seq<char>) -> Option<
    Seq<Seq<char>>,
>;

/// A match with its groups.
#[derive(Debug, Clone, PartialEq, Eq)]
pub struct Captured {
    /// What stands before the match.
    pub before: String,
    /// The groups; the first one is the whole match, and one that took no part is empty.
    pub groups: Vec<String>,
}

#[verifier::ext_equal]
pub struct CapturedView {
    pub before: Seq<char>,
    pub groups: Seq<Seq<char>>,
}

impl View for Captured {
    type V = CapturedView;

    open spec fn view(&self) -> CapturedView {
        CapturedView { before: self.before@, groups: sorting::views(self.groups@) }
    }
}

/// The matches of the pattern with their groups; `None` if the pattern is no regular expression.
pub uninterp spec fn regex_captures_of(pattern: Seq<char>, haystack: Seq<char>) -> Option<
    Seq<CapturedView>,
>;

/// Whether the character has a meaning of its own in a pattern.
pub open spec fn is_meta(c: char) -> bool {
    seq![
        '\\', '.', '+', '*', '?', '(', ')', '|', '[', ']', '{', '}', '^', '$', '#', '&', '-', '~',
    ].contains(c)
}

/// The text as a pattern that matches that text: a backslash before each character that has a
/// meaning of its own.
pub open spec fn regex_escape_of(s: Seq<char>) -> Seq<char>
    decreases s.len(),
{
    if s.len() == 0 {
        Seq::empty()
    } else if is_meta(s.last()) {
        regex_escape_of(s.drop_last()).push('\\').push(s.last())
    } else {
        regex_escape_of(s.drop_last()).push(s.last())
    }
}

/// The text with every match of the pattern replaced; `None` if the pattern is no regular
/// expression.
pub uninterp spec fn regex_replace_all_of(
    pattern: Seq<char>,
    haystack: Seq<char>,
    replacement: Seq<char>,
) -> Option<Seq<char>>;

/// `Regex::is_match`; the result is named, not spelled out.
#[verifier::external_body]
pub(crate) fn regex_is_match(pattern: &str, haystack: &str) -> (r: Option<bool>)
    ensures
        r == regex_is_match_of(pattern@, haystack@),
{
    let re = regex::Regex::new(pattern).ok()?;
    Some(re.is_match(haystack))
}

/// `Regex::find`; the result is named, not spelled out.
#[verifier::external_body]
pub(crate) fn regex_find(pattern: &str, haystack: &str) -> (r: Option<Option<(String, String)>>)
    ensures
        match r {
            None => regex_find_of(pattern@, haystack@) is None,
            Some(None) => regex_find_of(pattern@, haystack@) == Some(
                None::<(Seq<char>, Seq<char>)>,
            ),
            Some(Some(m)) => regex_find_of(pattern@, haystack@) == Some(Some((m.0@, m.1@))),
        },
{
    let re = regex::Regex::new(pattern).ok()?;
    let first = re.find(haystack);
    Some(first.map(|m| (haystack[..m.start()].to_string(), m.as_str().to_string())))
}

/// `Regex::find_iter`; the result is named, not spelled out.
#[verifier::external_body]
pub(crate) fn regex_find_all(pattern: &str, haystack: &str) -> (r: Option<Vec<String>>)
    ensures
        match r {
            None => regex_find_all_of(pattern@, haystack@) is None,
            Some(list) => regex_find_all_of(pattern@, haystack@) == Some(sorting::views(list@)),
        },
{
    let re = regex::Regex::new(pattern).ok()?;
    Some(re.find_iter(haystack).map(|m| m.as_str().to_string()).collect())
}

/// `Regex::captures_iter`; the result is named, not spelled out.
#[verifier::external_body]
pub(crate) fn regex_captures(pattern: &str, haystack: &str) -> (r: Option<Vec<Captured>>)
    ensures
        match r {
            None => regex_captures_of(pattern@, haystack@) is None,
            Some(list) => regex_captures_of(pattern@, haystack@) == Some(sorting::views(list@)),
        },
{
    let re = regex::Regex::new(pattern).ok()?;
    let all = re.captures_iter(haystack).map(|c| Captured {
        before: haystack[..c.get(0).map_or(0, |m| m.start())].to_string(),
        groups: c.iter().map(|g| g.map_or("", |m| m.as_str()).to_string()).collect(),
    });
    Some(all.collect())
}

/// `Regex::replace_all`, in whose replacement a `$` stands for a group; the result is named, not
/// spelled out.
#[verifier::external_body]
pub(crate) fn regex_replace_all(pattern: &str, haystack: &str, replacement: &str) -> (r: Option<
    String,
>)
    ensures
        text::optional(r) == regex_replace_all_of(pattern@, haystack@, replacement@),
{
    let re = regex::Regex::new(pattern).ok()?;
    Some(re.replace_all(haystack, replacement).into_owned())
}

/// `regex::escape`: puts a backslash before every character that has a meaning of its own in a
/// pattern, and keeps the others.
#[verifier::external_body]
pub(crate) fn regex_escape(s: &str) -> (r: String)
    ensures
        r@ == regex_escape_of(s@),
{
    regex::escape(s)
}

} // verus!
