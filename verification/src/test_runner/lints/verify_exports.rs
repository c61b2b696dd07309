//! The check that programs offer the functions that their plugins call.
use vstd::prelude::*;

use crate::sorting;
use crate::text;
use crate::text::{contains_text, last_word, lists_item, no_items, owned, push_item, split_lines};

verus! {

/// Checks the functions that programs offer.
#[derive(Debug, Clone, Copy, PartialEq, Eq)]
pub struct ExportLint;

/// The functions that the emulator has to offer.
pub open spec fn emulator_exports() -> Seq<Seq<char>> {
    seq![
        "virtmcu_cpu_set_tcg_hook"@,
        "virtmcu_cpu_set_halt_hook"@,
        "virtmcu_set_irq_hook"@,
        "virtmcu_kick_first_cpu_for_quantum"@,
        "virtmcu_vcpu_should_yield"@,
        "virtmcu_is_bql_locked"@,
        "virtmcu_safe_bql_unlock"@,
        "virtmcu_safe_bql_lock"@,
        "virtmcu_safe_bql_force_unlock"@,
        "virtmcu_safe_bql_force_lock"@,
    ]
}

/// The plugin that is looked at, and the functions that it has to offer.
pub const CLOCK_PLUGIN: &'static str = "hw-virtmcu-clock.so";

/// The functions that the clock plugin has to offer.
pub open spec fn clock_plugin_exports() -> Seq<Seq<char>> {
    seq!["clock_cpu_halt_cb"@]
}

/// A line of the list of symbols names one that is offered.
pub open spec fn is_export_line(line: Seq<char>) -> bool {
    text::occurs(line, " T "@) || text::occurs(line, " B "@) || text::occurs(line, " D "@)
        || text::occurs(line, " W "@)
}

/// The symbols that the first `n` lines offer.
pub open spec fn exported_by(lines: Seq<Seq<char>>, n: int) -> Seq<Seq<char>>
    decreases n,
{
    if n <= 0 || n > lines.len() {
        Seq::empty()
    } else {
        let front = exported_by(lines, n - 1);
        match text::last_word_of(lines[n - 1]) {
            Some(word) => if is_export_line(lines[n - 1]) {
                front.push(word)
            } else {
                front
            },
            None => front,
        }
    }
}

/// The symbols that a list of symbols offers.
pub open spec fn exported(listing: Seq<char>) -> Seq<Seq<char>> {
    exported_by(text::lines_of(listing), text::lines_of(listing).len() as int)
}

/// Those of the first `n` required symbols that are not offered.
pub open spec fn missing_from(required: Seq<Seq<char>>, offered: Seq<Seq<char>>, n: int) -> Seq<
    Seq<char>,
>
    decreases n,
{
    if n <= 0 || n > required.len() {
        Seq::empty()
    } else {
        let front = missing_from(required, offered, n - 1);
        if offered.contains(required[n - 1]) {
            front
        } else {
            front.push(required[n - 1])
        }
    }
}

/// The symbols that a list of symbols offers.
pub fn exported_symbols(listing: &str) -> (r: Vec<String>)
    ensures
        sorting::views(r@) == exported(listing@),
{
    let lines = split_lines(listing);
    let ghost all = text::lines_of(listing@);
    let mut r = no_items();
    let mut i: usize = 0;
    while i < lines.len()
        invariant
            i <= lines@.len(),
            all == sorting::views(lines@),
            sorting::views(r@) == exported_by(all, i as int),
        decreases lines@.len() - i,
    {
        let line = lines[i].as_str();
        proof {
            assert(all[i as int] == line@);
        }
        match last_word(line) {
            Some(word) => {
                if contains_text(line, " T ") || contains_text(line, " B ") || contains_text(
                    line,
                    " D ",
                ) || contains_text(line, " W ") {
                    push_item(&mut r, word.as_str());
                }
            },
            None => {},
        }
        i += 1;
    }
    r
}

/// A check of every required symbol: nothing is missing exactly where all are offered.
pub proof fn law_nothing_missing(required: Seq<Seq<char>>, offered: Seq<Seq<char>>, n: int)
    requires
        0 <= n <= required.len(),
    ensures
        missing_from(required, offered, n).len() == 0 <==> forall|i: int|
            0 <= i < n ==> offered.contains(#[trigger] required[i]),
    decreases n,
{
    if n > 0 {
        law_nothing_missing(required, offered, n - 1);
        if missing_from(required, offered, n).len() == 0 {
            assert(offered.contains(required[n - 1]));
        }
    }
}

impl ExportLint {
    pub fn name(&self) -> (r: &'static str)
        ensures
            r@ == "verify_exports"@,
    {
        "verify_exports"
    }

    /// The functions that the emulator has to offer.
    pub fn required_exports(&self) -> (r: Vec<String>)
        ensures
            sorting::views(r@) == emulator_exports(),
    {
        let mut r = no_items();
        push_item(&mut r, "virtmcu_cpu_set_tcg_hook");
        push_item(&mut r, "virtmcu_cpu_set_halt_hook");
        push_item(&mut r, "virtmcu_set_irq_hook");
        push_item(&mut r, "virtmcu_kick_first_cpu_for_quantum");
        push_item(&mut r, "virtmcu_vcpu_should_yield");
        push_item(&mut r, "virtmcu_is_bql_locked");
        push_item(&mut r, "virtmcu_safe_bql_unlock");
        push_item(&mut r, "virtmcu_safe_bql_lock");
        push_item(&mut r, "virtmcu_safe_bql_force_unlock");
        push_item(&mut r, "virtmcu_safe_bql_force_lock");
        proof {
            assert(sorting::views(r@) =~= emulator_exports());
        }
        r
    }

    /// The functions that the clock plugin has to offer.
    pub fn plugin_exports(&self) -> (r: Vec<String>)
        ensures
            sorting::views(r@) == clock_plugin_exports(),
    {
        let mut r = no_items();
        push_item(&mut r, "clock_cpu_halt_cb");
        proof {
            assert(sorting::views(r@) =~= clock_plugin_exports());
        }
        r
    }

    /// The required symbols that a list of symbols does not offer.
    pub fn missing_symbols(&self, listing: &str, required: &Vec<String>) -> (r: Vec<String>)
        ensures
            sorting::views(r@) == missing_from(
                sorting::views(required@),
                exported(listing@),
                required@.len() as int,
            ),
    {
        let offered = exported_symbols(listing);
        let ghost all = sorting::views(required@);
        let mut r = no_items();
        let mut i: usize = 0;
        while i < required.len()
            invariant
                i <= required@.len(),
                all == sorting::views(required@),
                sorting::views(offered@) == exported(listing@),
                sorting::views(r@) == missing_from(all, exported(listing@), i as int),
            decreases required@.len() - i,
        {
            proof {
                assert(all[i as int] == required@[i as int]@);
            }
            if !lists_item(&offered, required[i].as_str()) {
                push_item(&mut r, required[i].as_str());
            }
            i += 1;
        }
        r
    }

    /// What to do where a symbol is missing.
    pub fn advice(&self, is_executable: bool) -> (r: String)
        ensures
            r@ == if is_executable {
                "  Ensure these are marked with __attribute__((visibility(\"default\"))) in QEMU C code."@
            } else {
                "  Ensure these are marked with #[no_mangle] extern \"C\" in Rust."@
            },
    {
        if is_executable {
            owned(
                "  Ensure these are marked with __attribute__((visibility(\"default\"))) in QEMU C code.",
            )
        } else {
            owned("  Ensure these are marked with #[no_mangle] extern \"C\" in Rust.")
        }
    }
}

} // verus!
