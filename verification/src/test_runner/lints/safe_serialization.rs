//! The check for copies of raw memory.
use vstd::prelude::*;

use crate::sorting;
use crate::test_runner::lints::findings;
use crate::test_runner::lints::findings::{is_suppressed, push_finding, Finding, Lint};
use crate::text;
use crate::text::{contains_text, ends_with_text, names_rust_file, split_lines};

verus! {

/// Checks that values are turned into bytes in a fixed order.
#[derive(Debug, Clone, Copy, PartialEq, Eq)]
pub struct RustSafeSerializationLint;

pub const COPY_MESSAGE: &'static str = "Banned ptr::copy_nonoverlapping found (Safe Endianness Serialization Mandate).\n  Fix: Use .to_le_bytes() / .from_le_bytes() instead.";

/// What the check finds in the first `n` lines.
pub open spec fn copies_found(lines: Seq<Seq<char>>, n: int) -> Seq<findings::FindingView>
    decreases n,
{
    if n <= 0 || n > lines.len() {
        Seq::empty()
    } else {
        let front = copies_found(lines, n - 1);
        if text::occurs(lines[n - 1], "ptr::copy_nonoverlapping"@) && !findings::suppressed_at(
            lines,
            n - 1,
            "copy"@,
        ) {
            front.push(findings::FindingView { line: n, message: COPY_MESSAGE@ })
        } else {
            front
        }
    }
}

impl Lint for RustSafeSerializationLint {
    open spec fn title(&self) -> Seq<char> {
        "rust_safe_serialization"@
    }

    open spec fn found_in(&self, path: Seq<char>, content: Seq<char>) -> Option<
        Seq<findings::FindingView>,
    > {
        if text::is_rust_path(path) && !text::has_suffix(path, "_generated.rs"@) {
            Some(copies_found(text::lines_of(content), text::lines_of(content).len() as int))
        } else {
            Some(Seq::empty())
        }
    }

    fn name(&self) -> (r: &'static str) {
        "rust_safe_serialization"
    }

    fn check(&self, path: &str, content: &str) -> (r: Option<Vec<Finding>>) {
        let mut list: Vec<Finding> = Vec::new();
        proof {
            assert(sorting::views(list@) =~= Seq::empty());
        }
        if !names_rust_file(path) || ends_with_text(path, "_generated.rs") {
            return Some(list);
        }
        let lines = split_lines(content);
        let ghost all = text::lines_of(content@);
        let mut i: usize = 0;
        while i < lines.len()
            invariant
                i <= lines@.len(),
                all == sorting::views(lines@),
                sorting::views(list@) == copies_found(all, i as int),
            decreases lines@.len() - i,
        {
            if contains_text(lines[i].as_str(), "ptr::copy_nonoverlapping") && !is_suppressed(
                &lines,
                i,
                "copy",
            ) {
                push_finding(&mut list, i, COPY_MESSAGE);
            }
            i += 1;
        }
        Some(list)
    }
}

} // verus!
