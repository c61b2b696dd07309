//! The check for state that outlives its owner.
use quote::ToTokens;
use syn::visit::Visit;
use vstd::prelude::*;

use crate::sorting;
use crate::test_runner::lints::findings;
use crate::test_runner::lints::findings::{is_suppressed, push_finding, Finding};
use crate::text;
use crate::text::{contains_text, joined2, joined3, replace_text, split_lines};

verus! {

/// Checks that peripherals keep no state outside themselves.
#[derive(Debug, Clone, Copy, PartialEq, Eq)]
pub struct StaticStateLint;

/// A static item of a source file.
#[derive(Debug, Clone, PartialEq, Eq)]
pub struct StaticItem {
    /// The line of the item's name; the first line is 1.
    pub line: usize,
    /// The lines of the names of the static items that this one stands in.
    pub inside: Vec<usize>,
    pub is_mut: bool,
    /// The item as its tokens write it.
    pub tokens: String,
}

#[verifier::ext_equal]
pub struct StaticItemView {
    pub line: usize,
    pub inside: Seq<usize>,
    pub is_mut: bool,
    pub tokens: Seq<char>,
}

impl View for StaticItem {
    type V = StaticItemView;

    open spec fn view(&self) -> StaticItemView {
        StaticItemView {
            line: self.line,
            inside: self.inside@,
            is_mut: self.is_mut,
            tokens: self.tokens@,
        }
    }
}

/// A static item as the parser gives it.
#[verifier::external_type_specification]
#[verifier::external_body]
pub struct ExItemStatic(syn::ItemStatic);

/// Collects the static items of a source file.
struct StaticVisitor {
    items: Vec<StaticItem>,
    /// The lines of the names of the items that are being looked into.
    inside: Vec<usize>,
}

impl<'ast> Visit<'ast> for StaticVisitor {
    /// Is called by `syn::visit::Visit` for each static item: picks its line, whether it is `mut`
    /// and its tokens, and goes on with what stands in it. Nothing is claimed of it by itself.
    #[verifier::external_body]
    fn visit_item_static(&mut self, node: &'ast syn::ItemStatic) {
        let line = node.ident.span().start().line;
        self.items.push(StaticItem {
            line,
            inside: self.inside.clone(),
            is_mut: matches!(node.mutability, syn::StaticMutability::Mut(_)),
            tokens: node.to_token_stream().to_string(),
        });
        self.inside.push(line);
        syn::visit::visit_item_static(self, node);
        self.inside.pop();
    }
}

/// The static items of a source file, each before those that stand in it; `None` if the file
/// cannot be parsed.
pub uninterp spec fn static_items_of(content: Seq<char>) -> Option<Seq<StaticItemView>>;

/// Parses a source file with `syn::parse_file` and walks through it with `Visit::visit_file`; the
/// result is named, not spelled out. The parser numbers the characters of all that is parsed on a
/// thread by four bytes: those of earlier files are given up first, and a file that is too long for
/// such numbers is left out.
#[verifier::external_body]
pub(crate) fn static_items(content: &str) -> (r: Option<Vec<StaticItem>>)
    requires
        content@.len() < u32::MAX,
    ensures
        match r {
            Some(items) => static_items_of(content@) == Some(sorting::views(items@)),
            None => static_items_of(content@) is None,
        },
{
    proc_macro2::extra::invalidate_current_thread_spans();
    let file = syn::parse_file(content).ok()?;
    let mut visitor = StaticVisitor { items: Vec::new(), inside: Vec::new() };
    visitor.visit_file(&file);
    Some(visitor.items)
}

/// The text names a type that can be changed through a shared reference.
pub open spec fn names_shared_state(s: Seq<char>) -> bool {
    text::occurs(s, "Atomic"@) || text::occurs(s, "Mutex"@) || text::occurs(s, "OnceCell"@)
        || text::occurs(s, "OnceLock"@) || text::occurs(s, "RwLock"@) || text::occurs(s, "Cell<"@)
        || text::occurs(s, "RefCell<"@)
}

/// What is said and looked at of an item.
pub open spec fn shown(item: StaticItemView) -> Seq<char> {
    item.tokens + " . ty"@
}

/// An item is state that outlives its owner.
pub open spec fn is_banned(item: StaticItemView) -> bool {
    item.is_mut || names_shared_state(text::replaced(shown(item), " "@, ""@))
}

/// Whether an item is state that outlives its owner.
pub fn is_banned_item(item: &StaticItem) -> (r: bool)
    ensures
        r == is_banned(item@),
{
    proof {
        reveal_strlit(" ");
    }
    if item.is_mut {
        return true;
    }
    let s = replace_text(joined2(item.tokens.as_str(), " . ty").as_str(), " ", "");
    let s = s.as_str();
    contains_text(s, "Atomic") || contains_text(s, "Mutex") || contains_text(s, "OnceCell")
        || contains_text(s, "OnceLock") || contains_text(s, "RwLock") || contains_text(s, "Cell<")
        || contains_text(s, "RefCell<")
}

/// What is said of an item that outlives its owner.
pub open spec fn static_message(item: StaticItemView) -> Seq<char> {
    "Banned static state detected in type: "@ + shown(item)
        + ".\n  Fix: Move state into the peripheral struct or export from main binary. MANDATE: // virtmcu-allow: static_state reasoning=\"<reason>\"."@
}

/// What is said of a macro that makes such state.
pub open spec fn macro_message(name: Seq<char>) -> Seq<char> {
    "Banned macro detected ('"@ + name
        + "').\n  Fix: Move state into the peripheral struct. MANDATE: // virtmcu-allow: static_state reasoning=\"<reason>\"."@
}

/// The name in this line is suppressed.
pub open spec fn is_allowed(lines: Seq<Seq<char>>, line: usize) -> bool {
    findings::suppressed_at(lines, if line == 0 { 0 } else { line - 1 }, "static_state"@)
}

fn allows(lines: &Vec<String>, line: usize) -> (r: bool)
    ensures
        r == is_allowed(sorting::views(lines@), line),
{
    is_suppressed(lines, if line == 0 { 0 } else { line - 1 }, "static_state")
}

/// The check looks at an item: neither it nor an item that it stands in is suppressed.
pub open spec fn is_looked_at(lines: Seq<Seq<char>>, item: StaticItemView) -> bool {
    &&& !is_allowed(lines, item.line)
    &&& forall|i: int| 0 <= i < item.inside.len() ==> !is_allowed(lines, #[trigger] item.inside[i])
}

fn looks_at(lines: &Vec<String>, item: &StaticItem) -> (r: bool)
    ensures
        r == is_looked_at(sorting::views(lines@), item@),
{
    if allows(lines, item.line) {
        return false;
    }
    let mut i: usize = 0;
    while i < item.inside.len()
        invariant
            i <= item.inside@.len(),
            forall|k: int|
                0 <= k < i ==> !is_allowed(sorting::views(lines@), #[trigger] item.inside@[k]),
        decreases item.inside@.len() - i,
    {
        if allows(lines, item.inside[i]) {
            proof {
                assert(is_allowed(sorting::views(lines@), item@.inside[i as int]));
            }
            return false;
        }
        i += 1;
    }
    true
}

/// What the check finds among the first `n` items.
pub open spec fn statics_found(items: Seq<StaticItemView>, lines: Seq<Seq<char>>, n: int) -> Seq<
    findings::FindingView,
>
    decreases n,
{
    if n <= 0 || n > items.len() {
        Seq::empty()
    } else {
        let front = statics_found(items, lines, n - 1);
        let item = items[n - 1];
        if is_looked_at(lines, item) && is_banned(item) {
            front.push(
                findings::FindingView {
                    line: if item.line == 0 { 1 } else { item.line as int },
                    message: static_message(item),
                },
            )
        } else {
            front
        }
    }
}

/// What the check finds of a macro in the first `n` lines.
pub open spec fn macros_found(lines: Seq<Seq<char>>, name: Seq<char>, n: int) -> Seq<
    findings::FindingView,
>
    decreases n,
{
    if n <= 0 || n > lines.len() {
        Seq::empty()
    } else {
        let front = macros_found(lines, name, n - 1);
        if text::occurs(lines[n - 1], name) && !findings::suppressed_at(
            lines,
            n - 1,
            "static_state"@,
        ) {
            front.push(findings::FindingView { line: n, message: macro_message(name) })
        } else {
            front
        }
    }
}

fn push_macros(list: &mut Vec<Finding>, lines: &Vec<String>, name: &str)
    ensures
        sorting::views(final(list)@) == sorting::views(old(list)@) + macros_found(
            sorting::views(lines@),
            name@,
            lines@.len() as int,
        ),
{
    let ghost start = sorting::views(list@);
    let ghost all = sorting::views(lines@);
    let message = joined3(
        "Banned macro detected ('",
        name,
        "').\n  Fix: Move state into the peripheral struct. MANDATE: // virtmcu-allow: static_state reasoning=\"<reason>\".",
    );
    let mut i: usize = 0;
    proof {
        assert(start =~= start + macros_found(all, name@, 0));
    }
    while i < lines.len()
        invariant
            i <= lines@.len(),
            all == sorting::views(lines@),
            message@ == macro_message(name@),
            sorting::views(list@) == start + macros_found(all, name@, i as int),
        decreases lines@.len() - i,
    {
        let ghost before = macros_found(all, name@, i as int);
        if contains_text(lines[i].as_str(), name) && !is_suppressed(lines, i, "static_state") {
            push_finding(list, i, message.as_str());
            proof {
                assert(sorting::views(list@) =~= start + before.push(
                    findings::FindingView { line: i + 1, message: message@ },
                ));
            }
        }
        i += 1;
    }
}

/// What the check finds in a file with these static items.
pub open spec fn found_in_source(items: Seq<StaticItemView>, lines: Seq<Seq<char>>) -> Seq<
    findings::FindingView,
> {
    let n = lines.len() as int;
    statics_found(items, lines, items.len() as int) + macros_found(lines, "lazy_static!"@, n)
        + macros_found(lines, "thread_local!"@, n)
}

impl StaticStateLint {
    pub fn name(&self) -> (r: &'static str)
        ensures
            r@ == "rust_static_state"@,
    {
        "rust_static_state"
    }

    /// Checks a file, given the static items in it.
    pub fn check(&self, content: &str, items: &Vec<StaticItem>) -> (r: Vec<Finding>)
        ensures
            sorting::views(r@) == found_in_source(
                sorting::views(items@),
                text::lines_of(content@),
            ),
    {
        let lines = split_lines(content);
        let ghost texts = sorting::views(lines@);
        let ghost all = sorting::views(items@);
        let mut list: Vec<Finding> = Vec::new();
        let mut i: usize = 0;
        proof {
            assert(sorting::views(list@) =~= Seq::empty());
        }
        while i < items.len()
            invariant
                i <= items@.len(),
                all == sorting::views(items@),
                texts == sorting::views(lines@),
                sorting::views(list@) == statics_found(all, texts, i as int),
            decreases items@.len() - i,
        {
            let item = &items[i];
            proof {
                assert(all[i as int] == item@);
            }
            if looks_at(&lines, item) && is_banned_item(item) {
                let message = joined3(
                    "Banned static state detected in type: ",
                    joined2(item.tokens.as_str(), " . ty").as_str(),
                    ".\n  Fix: Move state into the peripheral struct or export from main binary. MANDATE: // virtmcu-allow: static_state reasoning=\"<reason>\".",
                );
                let index: usize = if item.line == 0 { 0 } else { item.line - 1 };
                push_finding(&mut list, index, message.as_str());
            }
            i += 1;
        }
        push_macros(&mut list, &lines, "lazy_static!");
        push_macros(&mut list, &lines, "thread_local!");
        list
    }

    /// Checks a file; `None` if it cannot be parsed.
    pub fn check_source(&self, content: &str) -> (r: Option<Vec<Finding>>)
        requires
            content@.len() < u32::MAX,
        ensures
            match static_items_of(content@) {
                Some(items) => r is Some && sorting::views(r->0@) == found_in_source(
                    items,
                    text::lines_of(content@),
                ),
                None => r is None,
            },
    {
        match static_items(content) {
            Some(items) => Some(self.check(content, &items)),
            None => None,
        }
    }
}

} // verus!
