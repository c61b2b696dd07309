//! The check of the type descriptions of devices.
use vstd::prelude::*;

use crate::sorting;
use crate::test_runner::lints::findings;
use crate::test_runner::lints::findings::{push_finding, Finding, Lint};
use crate::test_runner::lints::patterns;
use crate::test_runner::lints::patterns::{regex_captures, Captured};
use crate::text;
use crate::text::{contains_text, joined3, names_rust_file, owned, split_lines, trim_text};

verus! {

/// Checks that a device on the system bus says so in the size of its class.
#[derive(Debug, Clone, Copy, PartialEq, Eq)]
pub struct QomTypeInfoLint;

pub const TYPE_INFO_PATTERN: &'static str = "(?s)static\\s+\\w+:\\s*TypeInfo\\s*=\\s*TypeInfo\\s*\\{(.*?)\\};";

pub const PARENT_PATTERN: &'static str = "parent:\\s*([^,]+),";

pub const CLASS_SIZE_PATTERN: &'static str = "class_size:\\s*([^,]+),";

/// The second group of the first match, without white space at its ends.
pub open spec fn first_group(all: Seq<patterns::CapturedView>) -> Option<Seq<char>> {
    if all.len() > 0 && all[0].groups.len() > 1 {
        Some(text::trimmed(all[0].groups[1]))
    } else {
        None
    }
}

/// The second group of the first match, without white space at its ends.
pub fn group_of_first(all: &Vec<Captured>) -> (r: Option<String>)
    ensures
        text::optional(r) == first_group(sorting::views(all@)),
{
    if all.len() > 0 && all[0].groups.len() > 1 {
        proof {
            assert(sorting::views(all@)[0] == all@[0]@);
            assert(all@[0]@.groups[1] == all@[0].groups@[1]@);
        }
        Some(trim_text(all[0].groups[1].as_str()))
    } else {
        proof {
            if all@.len() > 0 {
                assert(sorting::views(all@)[0] == all@[0]@);
            }
        }
        None
    }
}

/// A device on the system bus does not say so in the size of its class.
pub open spec fn is_mismatch(parent: Option<Seq<char>>, class_size: Option<Seq<char>>) -> bool {
    parent is Some && class_size is Some && text::occurs(parent->0, "TYPE_SYS_BUS_DEVICE"@)
        && !text::occurs(class_size->0, "SysBusDeviceClass"@)
}

/// Whether a device on the system bus does not say so in the size of its class.
pub fn mismatch(parent: &Option<String>, class_size: &Option<String>) -> (r: bool)
    ensures
        r == is_mismatch(text::optional(*parent), text::optional(*class_size)),
{
    match (parent, class_size) {
        (Some(p), Some(c)) => contains_text(p.as_str(), "TYPE_SYS_BUS_DEVICE") && !contains_text(
            c.as_str(),
            "SysBusDeviceClass",
        ),
        _ => false,
    }
}

/// What is said of a device that does not say that it is on the system bus.
pub open spec fn mismatch_message(class_size: Seq<char>) -> Seq<char> {
    "TypeInfo has parent TYPE_SYS_BUS_DEVICE but class_size is '"@ + class_size
        + "'.\n  Fix: Set class_size to core::mem::size_of::<virtmcu_qom::qdev::SysBusDeviceClass>()"@
}

/// What the check finds in one description.
pub open spec fn description_found(m: patterns::CapturedView) -> Option<
    Seq<findings::FindingView>,
> {
    let inner = if m.groups.len() > 1 {
        m.groups[1]
    } else {
        Seq::empty()
    };
    match (
        patterns::regex_captures_of(PARENT_PATTERN@, inner),
        patterns::regex_captures_of(CLASS_SIZE_PATTERN@, inner),
    ) {
        (Some(p), Some(c)) => Some(
            if is_mismatch(first_group(p), first_group(c)) {
                seq![
                    findings::FindingView {
                        line: findings::line_after(m.before),
                        message: mismatch_message(first_group(c)->0),
                    },
                ]
            } else {
                Seq::empty()
            },
        ),
        _ => None,
    }
}

/// What the check finds in the first `n` descriptions.
pub open spec fn descriptions_found(all: Seq<patterns::CapturedView>, n: int) -> Option<
    Seq<findings::FindingView>,
>
    decreases n,
{
    if n <= 0 || n > all.len() {
        Some(Seq::empty())
    } else {
        findings::both(descriptions_found(all, n - 1), description_found(all[n - 1]))
    }
}

fn check_description(list: &mut Vec<Finding>, m: &Captured) -> (ok: bool)
    ensures
        ok ==> description_found(m@) is Some && sorting::views(final(list)@) == sorting::views(
            old(list)@,
        ) + description_found(m@)->0,
        !ok ==> description_found(m@) is None,
{
    let inner = if m.groups.len() > 1 {
        owned(m.groups[1].as_str())
    } else {
        owned("")
    };
    proof {
        reveal_strlit("");
        if m.groups@.len() <= 1 {
            assert(inner@ =~= Seq::empty());
        }
    }
    let parents = match regex_captures(PARENT_PATTERN, inner.as_str()) {
        Some(all) => all,
        None => {
            return false;
        },
    };
    let sizes = match regex_captures(CLASS_SIZE_PATTERN, inner.as_str()) {
        Some(all) => all,
        None => {
            return false;
        },
    };
    let parent = group_of_first(&parents);
    let size = group_of_first(&sizes);
    if mismatch(&parent, &size) {
        match &size {
            Some(size) => {
                let lines = split_lines(m.before.as_str());
                push_finding(
                    list,
                    lines.len(),
                    joined3(
                        "TypeInfo has parent TYPE_SYS_BUS_DEVICE but class_size is '",
                        size.as_str(),
                        "'.\n  Fix: Set class_size to core::mem::size_of::<virtmcu_qom::qdev::SysBusDeviceClass>()",
                    ).as_str(),
                );
            },
            None => {},
        }
    }
    proof {
        assert(sorting::views(list@) =~= sorting::views(old(list)@) + description_found(m@)->0);
    }
    true
}

impl Lint for QomTypeInfoLint {
    open spec fn title(&self) -> Seq<char> {
        "qom_type_info"@
    }

    open spec fn found_in(&self, path: Seq<char>, content: Seq<char>) -> Option<
        Seq<findings::FindingView>,
    > {
        if text::is_rust_path(path) {
            match patterns::regex_captures_of(TYPE_INFO_PATTERN@, content) {
                Some(all) => descriptions_found(all, all.len() as int),
                None => None,
            }
        } else {
            Some(Seq::empty())
        }
    }

    fn name(&self) -> (r: &'static str) {
        "qom_type_info"
    }

    fn check(&self, path: &str, content: &str) -> (r: Option<Vec<Finding>>) {
        let mut list: Vec<Finding> = Vec::new();
        proof {
            assert(sorting::views(list@) =~= Seq::empty());
        }
        if !names_rust_file(path) {
            return Some(list);
        }
        let described = match regex_captures(TYPE_INFO_PATTERN, content) {
            Some(all) => all,
            None => {
                return None;
            },
        };
        let ghost all = sorting::views(described@);
        let mut failed: bool = false;
        let mut i: usize = 0;
        while i < described.len()
            invariant
                i <= described@.len(),
                all == sorting::views(described@),
                failed ==> descriptions_found(all, i as int) is None,
                !failed ==> descriptions_found(all, i as int) == Some(sorting::views(list@)),
            decreases described@.len() - i,
        {
            proof {
                assert(all[i as int] == described@[i as int]@);
            }
            if !check_description(&mut list, &described[i]) {
                failed = true;
            }
            i += 1;
        }
        if failed {
            None
        } else {
            Some(list)
        }
    }
}

} // verus!
