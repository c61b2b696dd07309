//! The check for numbers without a name.
use vstd::prelude::*;

use crate::sorting;
use crate::test_runner::lints::findings;
use crate::test_runner::lints::findings::{push_finding, Finding, Lint};
use crate::test_runner::lints::patterns;
use crate::test_runner::lints::patterns::{regex_escape, regex_find_all, regex_is_match};
use crate::text;
use crate::text::{
    contains_text, count_char, ends_with_text, joined3, names_rust_file, same_text, split_lines,
    starts_with_text, take_before, trim_text,
};

verus! {

/// Checks that numbers have names.
#[derive(Debug, Clone, Copy, PartialEq, Eq)]
pub struct RustMagicNumbersLint;

pub const NUMBER_PATTERN: &'static str = "\\b(0x[0-9a-fA-F]+|[0-9]+)\\b";

pub const CONSTANT_PATTERN: &'static str = "^\\s*(pub\\s+)?(const|static)\\s+";

pub const VARIANT_PATTERN: &'static str = "^\\s*[A-Z][a-zA-Z0-9_]*\\s*=\\s*[0-9]+";

pub const ADVICE: &'static str = "' found.\n  Fix: Extract to a named 'const'. Quick Tip: Avoid magic numbers to improve readability and maintainability. See docs/guide/09-engineering-mandates.md.";

/// Numbers that need no name.
pub open spec fn needs_no_name(number: Seq<char>) -> bool {
    number == "0"@ || number == "1"@ || number == "0x0"@ || number == "0x1"@ || number == "128"@
        || number == "256"@ || number == "512"@ || number == "1024"@
}

/// Whether a number needs no name.
pub fn is_allowed_literal(number: &str) -> (r: bool)
    ensures
        r == needs_no_name(number@),
{
    same_text(number, "0") || same_text(number, "1") || same_text(number, "0x0") || same_text(
        number,
        "0x1",
    ) || same_text(number, "128") || same_text(number, "256") || same_text(number, "512")
        || same_text(number, "1024")
}

/// Where in a file the check is: whether in a module of tests, and how many of its braces are
/// open.
#[derive(Debug, Clone, Copy, PartialEq, Eq, Structural)]
pub struct TestModule {
    pub inside: bool,
    pub depth: i64,
}

/// A number, kept within the range of 64 bits.
pub open spec fn kept_in_range(x: int) -> i64 {
    if x > i64::MAX {
        i64::MAX
    } else if x < i64::MIN {
        i64::MIN
    } else {
        x as i64
    }
}

/// Where the check is before a line is looked at: a line that opens a module of tests starts anew.
pub open spec fn entered(state: TestModule, line: Seq<char>) -> TestModule {
    if text::has_prefix(line, "#[cfg(test)]"@) {
        TestModule { inside: true, depth: 0 }
    } else {
        state
    }
}

/// Where the check is once a line was looked at; lines inside a module of tests are left alone.
pub open spec fn after_line(state: TestModule, line: Seq<char>) -> TestModule {
    let now = entered(state, line);
    if now.inside {
        let depth = kept_in_range(
            now.depth + text::count_of(line, '{') - text::count_of(line, '}'),
        );
        TestModule {
            inside: !(depth <= 0 && !text::has_prefix(line, "#[cfg(test)]"@)),
            depth,
        }
    } else {
        now
    }
}

impl TestModule {
    /// Takes note of a line without its comment and without white space at its ends; tells whether
    /// the line is inside a module of tests.
    pub fn on_line(&mut self, line: &str) -> (inside: bool)
        ensures
            *final(self) == after_line(*old(self), line@),
            inside == entered(*old(self), line@).inside,
    {
        let opens = starts_with_text(line, "#[cfg(test)]");
        if opens {
            self.inside = true;
            self.depth = 0;
        }
        if !self.inside {
            return false;
        }
        let up: usize = count_char(line, '{');
        let down: usize = count_char(line, '}');
        let sum: i128 = self.depth as i128 + up as i128 - down as i128;
        let depth: i64 = if sum > i64::MAX as i128 {
            i64::MAX
        } else if sum < i64::MIN as i128 {
            i64::MIN
        } else {
            sum as i64
        };
        self.depth = depth;
        if depth <= 0 && !opens {
            self.inside = false;
        }
        true
    }
}

/// A line is left alone: it declares a constant or a variant, or asks for it.
pub open spec fn left_alone(
    line: Seq<char>,
    code: Seq<char>,
    is_constant: bool,
    is_variant: bool,
) -> bool {
    is_constant || is_variant || text::occurs(code, "align("@) || text::occurs(
        line,
        "virtmcu-allow: magic_numbers"@,
    ) || text::occurs(code, "error_setg!"@)
}

/// Whether a line is left alone, given whether it declares a constant or a variant.
pub fn is_left_alone(line: &str, code: &str, is_constant: bool, is_variant: bool) -> (r: bool)
    ensures
        r == left_alone(line@, code@, is_constant, is_variant),
{
    is_constant || is_variant || contains_text(code, "align(") || contains_text(
        line,
        "virtmcu-allow: magic_numbers",
    ) || contains_text(code, "error_setg!")
}

/// The pattern of an array of `number` elements.
pub open spec fn array_pattern(number: Seq<char>) -> Seq<char> {
    "\\[\\s*.*;\\s*"@ + patterns::regex_escape_of(number) + "\\s*\\]"@
}

/// What the check finds among the first `n` numbers of a line.
pub open spec fn numbers_found(
    code: Seq<char>,
    numbers: Seq<Seq<char>>,
    n: int,
    line: int,
) -> Option<Seq<findings::FindingView>>
    decreases n,
{
    if n <= 0 || n > numbers.len() {
        Some(Seq::empty())
    } else {
        let front = numbers_found(code, numbers, n - 1, line);
        let number = numbers[n - 1];
        if needs_no_name(number) {
            front
        } else {
            findings::both(
                front,
                match patterns::regex_is_match_of(array_pattern(number), code) {
                    Some(true) => Some(Seq::empty()),
                    Some(false) => Some(
                        seq![
                            findings::FindingView {
                                line,
                                message: "Magic number '"@ + number + ADVICE@,
                            },
                        ],
                    ),
                    None => None,
                },
            )
        }
    }
}

/// What the check finds in one line outside modules of tests.
pub open spec fn line_found(line: Seq<char>, number: int) -> Option<Seq<findings::FindingView>> {
    let code = text::before_first(line, "//"@);
    match (
        patterns::regex_is_match_of(CONSTANT_PATTERN@, code),
        patterns::regex_is_match_of(VARIANT_PATTERN@, code),
        patterns::regex_find_all_of(NUMBER_PATTERN@, code),
    ) {
        (Some(c), Some(v), Some(numbers)) => if left_alone(line, code, c, v) {
            Some(Seq::empty())
        } else {
            numbers_found(code, numbers, numbers.len() as int, number)
        },
        _ => None,
    }
}

/// Where the check is behind the first `n` lines.
pub open spec fn state_after(lines: Seq<Seq<char>>, n: int) -> TestModule
    decreases n,
{
    if n <= 0 || n > lines.len() {
        TestModule { inside: false, depth: 0 }
    } else {
        after_line(
            state_after(lines, n - 1),
            text::trimmed(text::before_first(lines[n - 1], "//"@)),
        )
    }
}

/// What the check finds in the first `n` lines.
pub open spec fn lines_found(lines: Seq<Seq<char>>, n: int) -> Option<Seq<findings::FindingView>>
    decreases n,
{
    if n <= 0 || n > lines.len() {
        Some(Seq::empty())
    } else {
        let front = lines_found(lines, n - 1);
        let code = text::trimmed(text::before_first(lines[n - 1], "//"@));
        if entered(state_after(lines, n - 1), code).inside {
            front
        } else {
            findings::both(front, line_found(lines[n - 1], n))
        }
    }
}

/// The check is about a file.
pub open spec fn is_checked(path: Seq<char>) -> bool {
    text::is_rust_path(path) && !text::occurs(path, "/tests/"@) && !text::has_suffix(
        path,
        "build.rs"@,
    ) && !text::occurs(path, "_generated.rs"@)
}

fn check_line(list: &mut Vec<Finding>, line: &str, code: &str, index: usize) -> (ok: bool)
    requires
        code@ == text::before_first(line@, "//"@),
    ensures
        ok ==> line_found(line@, index + 1) is Some && sorting::views(final(list)@)
            == sorting::views(old(list)@) + line_found(line@, index + 1)->0,
        !ok ==> line_found(line@, index + 1) is None,
{
    let ghost start = sorting::views(list@);
    let constant = match regex_is_match(CONSTANT_PATTERN, code) {
        Some(b) => b,
        None => {
            return false;
        },
    };
    let variant = match regex_is_match(VARIANT_PATTERN, code) {
        Some(b) => b,
        None => {
            return false;
        },
    };
    let numbers = match regex_find_all(NUMBER_PATTERN, code) {
        Some(all) => all,
        None => {
            return false;
        },
    };
    if is_left_alone(line, code, constant, variant) {
        proof {
            assert(start =~= start + Seq::empty());
        }
        return true;
    }
    let ghost all = sorting::views(numbers@);
    let mut failed: bool = false;
    let mut i: usize = 0;
    proof {
        assert(start =~= start + Seq::<findings::FindingView>::empty());
    }
    while i < numbers.len()
        invariant
            i <= numbers@.len(),
            all == sorting::views(numbers@),
            failed ==> numbers_found(code@, all, i as int, index + 1) is None,
            !failed ==> numbers_found(code@, all, i as int, index + 1) is Some && sorting::views(
                list@,
            ) == start + numbers_found(code@, all, i as int, index + 1)->0,
        decreases numbers@.len() - i,
    {
        let number = numbers[i].as_str();
        let ghost before = numbers_found(code@, all, i as int, index + 1);
        proof {
            assert(all[i as int] == number@);
        }
        if !is_allowed_literal(number) {
            let pattern = joined3("\\[\\s*.*;\\s*", regex_escape(number).as_str(), "\\s*\\]");
            match regex_is_match(pattern.as_str(), code) {
                Some(in_array) => {
                    if !in_array {
                        let message = joined3("Magic number '", number, ADVICE);
                        push_finding(list, index, message.as_str());
                    }
                    proof {
                        if !failed {
                            assert(sorting::views(list@) =~= start + numbers_found(
                                code@,
                                all,
                                i + 1,
                                index + 1,
                            )->0);
                        }
                    }
                },
                None => {
                    failed = true;
                },
            }
        }
        i += 1;
    }
    !failed
}

impl Lint for RustMagicNumbersLint {
    open spec fn title(&self) -> Seq<char> {
        "rust_magic_numbers"@
    }

    open spec fn found_in(&self, path: Seq<char>, content: Seq<char>) -> Option<
        Seq<findings::FindingView>,
    > {
        if is_checked(path) {
            lines_found(text::lines_of(content), text::lines_of(content).len() as int)
        } else {
            Some(Seq::empty())
        }
    }

    fn name(&self) -> (r: &'static str) {
        "rust_magic_numbers"
    }

    fn check(&self, path: &str, content: &str) -> (r: Option<Vec<Finding>>) {
        let mut list: Vec<Finding> = Vec::new();
        proof {
            assert(sorting::views(list@) =~= Seq::empty());
        }
        if !names_rust_file(path) || contains_text(path, "/tests/") || ends_with_text(
            path,
            "build.rs",
        ) || contains_text(path, "_generated.rs") {
            return Some(list);
        }
        let lines = split_lines(content);
        let ghost all = text::lines_of(content@);
        let mut state = TestModule { inside: false, depth: 0 };
        let mut failed: bool = false;
        let mut i: usize = 0;
        while i < lines.len()
            invariant
                i <= lines@.len(),
                all == sorting::views(lines@),
                state == state_after(all, i as int),
                failed ==> lines_found(all, i as int) is None,
                !failed ==> lines_found(all, i as int) == Some(sorting::views(list@)),
            decreases lines@.len() - i,
        {
            let line = lines[i].as_str();
            proof {
                assert(all[i as int] == line@);
            }
            let code = take_before(line, "//");
            let trimmed = trim_text(code.as_str());
            if !state.on_line(trimmed.as_str()) {
                if !check_line(&mut list, line, code.as_str(), i) {
                    failed = true;
                }
            }
            i += 1;
        }
        if failed {
            None
        } else {
            Some(list)
        }
    }
}

} // verus!
