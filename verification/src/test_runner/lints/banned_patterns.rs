//! The check for patterns that must not occur.
use vstd::prelude::*;

use crate::sorting;
use crate::test_runner::lints::banned_rules;
use crate::test_runner::lints::banned_rules::{rules, Rule};
use crate::test_runner::lints::findings;
use crate::test_runner::lints::findings::{
    is_suppressed, push_finding, push_spanning, Finding, Lint,
};
use crate::test_runner::lints::patterns;
use crate::test_runner::lints::patterns::{regex_find, regex_is_match};
use crate::text;
use crate::text::{contains_text, joined3, names_rust_file, split_lines};

verus! {

/// Checks for patterns that must not occur.
#[derive(Debug, Clone, Copy, PartialEq, Eq)]
pub struct RustBannedPatternsLint;

pub const SPINLOOP_PATTERN: &'static str = "(?m)(?:while|loop|for)[\\s\\S]{1,1000}?(?:attempts|retry|count)\\s*[-+]=\\s*1[\\s\\S]{1,1000}?(?:thread::sleep|yield_now|cvar\\.wait_timeout)";

pub const SPINLOOP_MESSAGE: &'static str = "Banned bounded spinloop found.\n  Fix: Use Condvar for waiting without iteration bounds (the Drain pattern) to avoid time-bomb UAF.";

pub const DROP_BOUND_PATTERN: &'static str = "(?m)impl\\s+Drop\\s+for[\\s\\S]{1,500}?(?:while|loop|for)[\\s\\S]{1,200}?(?:attempts|retry|count)\\s*<";

pub const DROP_BOUND_MESSAGE: &'static str = "Banned bounded loop in Drop implementation.\n  Fix: Drop implementations must use the Drain pattern and NOT use bounded iteration limits.";

/// Some of the parts stands in the path.
pub open spec fn mentions_one(path: Seq<char>, parts: Seq<Seq<char>>) -> bool {
    exists|i: int| 0 <= i < parts.len() && #[trigger] text::occurs(path, parts[i])
}

fn holds_one(path: &str, parts: &Vec<&'static str>) -> (r: bool)
    ensures
        r == mentions_one(path@, sorting::views(parts@)),
{
    let ghost all = sorting::views(parts@);
    let mut i: usize = 0;
    while i < parts.len()
        invariant
            i <= parts@.len(),
            all == sorting::views(parts@),
            forall|k: int| 0 <= k < i ==> !#[trigger] text::occurs(path@, all[k]),
        decreases parts@.len() - i,
    {
        if contains_text(path, parts[i]) {
            proof {
                assert(text::occurs(path@, all[i as int]));
            }
            return true;
        }
        i += 1;
    }
    false
}

/// A rule is about the files in its directories, but for those that it leaves out.
pub open spec fn applies(rule: banned_rules::RuleView, path: Seq<char>) -> bool {
    (rule.inc_dirs.len() == 0 || mentions_one(path, rule.inc_dirs)) && !mentions_one(
        path,
        rule.exc_list,
    )
}

/// Whether a rule is about a file.
pub fn rule_applies(rule: &Rule, path: &str) -> (r: bool)
    ensures
        r == applies(rule@, path@),
{
    (rule.inc_dirs.len() == 0 || holds_one(path, &rule.inc_dirs)) && !holds_one(
        path,
        &rule.exc_list,
    )
}

/// What is said where a rule is broken.
pub open spec fn rule_message(rule: banned_rules::RuleView) -> Seq<char> {
    rule.message + "\n  Fix: "@ + rule.fix
}

/// What a rule finds in the first `n` lines, given which lines its pattern matches.
pub open spec fn rule_found(
    rule: banned_rules::RuleView,
    lines: Seq<Seq<char>>,
    matched: Seq<bool>,
    n: int,
) -> Seq<findings::FindingView>
    decreases n,
{
    if n <= 0 || n > lines.len() {
        Seq::empty()
    } else {
        let front = rule_found(rule, lines, matched, n - 1);
        if matched[n - 1] && !(rule.may_be_suppressed && findings::suppressed_at(
            lines,
            n - 1,
            rule.name,
        )) {
            front.push(findings::FindingView { line: n, message: rule_message(rule) })
        } else {
            front
        }
    }
}

/// Adds what a rule finds, given which lines its pattern matches.
pub fn push_rule_findings(
    list: &mut Vec<Finding>,
    rule: &Rule,
    lines: &Vec<String>,
    matched: &Vec<bool>,
)
    requires
        lines@.len() == matched@.len(),
    ensures
        sorting::views(final(list)@) == sorting::views(old(list)@) + rule_found(
            rule@,
            sorting::views(lines@),
            matched@,
            lines@.len() as int,
        ),
{
    let ghost all = sorting::views(lines@);
    let ghost start = sorting::views(list@);
    let message = joined3(rule.message, "\n  Fix: ", rule.fix);
    let mut i: usize = 0;
    proof {
        assert(start =~= start + rule_found(rule@, all, matched@, 0));
    }
    while i < lines.len()
        invariant
            i <= lines@.len() == matched@.len(),
            all == sorting::views(lines@),
            message@ == rule_message(rule@),
            sorting::views(list@) == start + rule_found(rule@, all, matched@, i as int),
        decreases lines@.len() - i,
    {
        let ghost before = rule_found(rule@, all, matched@, i as int);
        if matched[i] && !(rule.may_be_suppressed && is_suppressed(lines, i, rule.name)) {
            push_finding(list, i, message.as_str());
            proof {
                assert(sorting::views(list@) =~= start + before.push(
                    findings::FindingView { line: i + 1, message: message@ },
                ));
            }
        }
        i += 1;
    }
}

/// Which of the first `n` lines a pattern matches; `None` if it is no regular expression.
pub open spec fn matched_lines(pattern: Seq<char>, lines: Seq<Seq<char>>, n: int) -> Option<
    Seq<bool>,
>
    decreases n,
{
    if n <= 0 || n > lines.len() {
        Some(Seq::empty())
    } else {
        match (
            matched_lines(pattern, lines, n - 1),
            patterns::regex_is_match_of(pattern, lines[n - 1]),
        ) {
            (Some(front), Some(b)) => Some(front.push(b)),
            _ => None,
        }
    }
}

fn match_lines(pattern: &str, lines: &Vec<String>) -> (r: Option<Vec<bool>>)
    ensures
        match r {
            Some(flags) => matched_lines(pattern@, sorting::views(lines@), lines@.len() as int)
                == Some(flags@) && flags@.len() == lines@.len(),
            None => matched_lines(pattern@, sorting::views(lines@), lines@.len() as int) is None,
        },
{
    let ghost all = sorting::views(lines@);
    let mut flags: Vec<bool> = Vec::new();
    let mut failed: bool = false;
    let mut i: usize = 0;
    while i < lines.len()
        invariant
            i <= lines@.len(),
            all == sorting::views(lines@),
            failed ==> matched_lines(pattern@, all, i as int) is None,
            !failed ==> matched_lines(pattern@, all, i as int) == Some(flags@),
            !failed ==> flags@.len() == i,
        decreases lines@.len() - i,
    {
        match regex_is_match(pattern, lines[i].as_str()) {
            Some(b) => {
                flags.push(b);
            },
            None => {
                failed = true;
            },
        }
        i += 1;
    }
    if failed {
        None
    } else {
        Some(flags)
    }
}

/// What the first `n` rules find in a file.
pub open spec fn rules_found(
    all: Seq<banned_rules::RuleView>,
    path: Seq<char>,
    lines: Seq<Seq<char>>,
    n: int,
) -> Option<Seq<findings::FindingView>>
    decreases n,
{
    if n <= 0 || n > all.len() {
        Some(Seq::empty())
    } else {
        let front = rules_found(all, path, lines, n - 1);
        let rule = all[n - 1];
        if applies(rule, path) {
            findings::both(
                front,
                match matched_lines(rule.pattern, lines, lines.len() as int) {
                    Some(matched) => Some(rule_found(rule, lines, matched, lines.len() as int)),
                    None => None,
                },
            )
        } else {
            front
        }
    }
}

/// What a pattern that spans lines finds in a file.
pub open spec fn span_found(
    pattern: Seq<char>,
    content: Seq<char>,
    rule: Seq<char>,
    message: Seq<char>,
) -> Option<Seq<findings::FindingView>> {
    match patterns::regex_find_of(pattern, content) {
        Some(m) => Some(findings::spanning_found(m, rule, message)),
        None => None,
    }
}

/// What the check finds in a file.
pub open spec fn banned_in(path: Seq<char>, content: Seq<char>) -> Option<
    Seq<findings::FindingView>,
> {
    if !text::is_rust_path(path) {
        Some(Seq::empty())
    } else {
        let by_line = rules_found(
            banned_rules::rule_table(),
            path,
            text::lines_of(content),
            banned_rules::rule_table().len() as int,
        );
        if text::occurs(path, "hw/rust"@) {
            findings::both(
                findings::both(
                    by_line,
                    span_found(SPINLOOP_PATTERN@, content, "spinloop"@, SPINLOOP_MESSAGE@),
                ),
                span_found(DROP_BOUND_PATTERN@, content, "drop_bound"@, DROP_BOUND_MESSAGE@),
            )
        } else {
            by_line
        }
    }
}

fn check_rules(path: &str, lines: &Vec<String>) -> (r: Option<Vec<Finding>>)
    ensures
        ({
            let all = banned_rules::rule_table();
            let found = rules_found(all, path@, sorting::views(lines@), all.len() as int);
            match r {
                Some(list) => found == Some(sorting::views(list@)),
                None => found is None,
            }
        }),
{
    let table = rules();
    let ghost all = sorting::views(table@);
    let ghost texts = sorting::views(lines@);
    let mut list: Vec<Finding> = Vec::new();
    let mut failed: bool = false;
    let mut i: usize = 0;
    proof {
        assert(sorting::views(list@) =~= Seq::empty());
    }
    while i < table.len()
        invariant
            i <= table@.len(),
            all == sorting::views(table@),
            texts == sorting::views(lines@),
            failed ==> rules_found(all, path@, texts, i as int) is None,
            !failed ==> rules_found(all, path@, texts, i as int) == Some(sorting::views(list@)),
        decreases table@.len() - i,
    {
        let rule = &table[i];
        proof {
            assert(all[i as int] == rule@);
        }
        if rule_applies(rule, path) {
            match match_lines(rule.pattern, lines) {
                Some(matched) => {
                    push_rule_findings(&mut list, rule, lines, &matched);
                },
                None => {
                    failed = true;
                },
            }
        }
        i += 1;
    }
    if failed {
        None
    } else {
        Some(list)
    }
}

impl Lint for RustBannedPatternsLint {
    open spec fn title(&self) -> Seq<char> {
        "rust_banned_patterns"@
    }

    open spec fn found_in(&self, path: Seq<char>, content: Seq<char>) -> Option<
        Seq<findings::FindingView>,
    > {
        banned_in(path, content)
    }

    fn name(&self) -> (r: &'static str) {
        "rust_banned_patterns"
    }

    fn check(&self, path: &str, content: &str) -> (r: Option<Vec<Finding>>) {
        if !names_rust_file(path) {
            let list: Vec<Finding> = Vec::new();
            proof {
                assert(sorting::views(list@) =~= Seq::empty());
            }
            return Some(list);
        }
        let lines = split_lines(content);
        let mut list = match check_rules(path, &lines) {
            Some(list) => list,
            None => {
                return None;
            },
        };
        if contains_text(path, "hw/rust") {
            match regex_find(SPINLOOP_PATTERN, content) {
                Some(found) => {
                    push_spanning(&mut list, &found, "spinloop", SPINLOOP_MESSAGE);
                },
                None => {
                    return None;
                },
            }
            match regex_find(DROP_BOUND_PATTERN, content) {
                Some(found) => {
                    push_spanning(&mut list, &found, "drop_bound", DROP_BOUND_MESSAGE);
                },
                None => {
                    return None;
                },
            }
        }
        Some(list)
    }
}

} // verus!
