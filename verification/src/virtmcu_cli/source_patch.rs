//! Changing the sources of the emulator before it is built.
use vstd::prelude::*;

use crate::sorting;
use crate::test_runner::lints::patterns;
use crate::test_runner::lints::patterns::{regex_captures, regex_escape, regex_find};
use crate::text;
use crate::text::{
    contains_text, joined2, joined3, joined5, joined6, owned, replace_first, replace_text,
    same_text,
};
use crate::virtmcu_cli::source_texts;

verus! {

/// A change of a file.
#[derive(Debug, Clone, Copy, PartialEq, Eq)]
pub enum Edit {
    /// Puts `replacement` in the place of the first `marker`, unless it is there, or the file
    /// bears the mark of one that was changed as a whole.
    Patch { marker: &'static str, replacement: &'static str },
    /// Puts `to` in the place of every `from`.
    Replace { from: &'static str, to: &'static str },
    /// Puts `to` in the place of every `at`, unless the file holds `unless`.
    Insert { unless: &'static str, at: &'static str, to: &'static str },
}

/// A file once `replacement` stands for the first `marker`.
pub open spec fn patched(content: Seq<char>, marker: Seq<char>, replacement: Seq<char>) -> Seq<
    char,
> {
    if text::occurs(content, source_texts::PATCH_MARK@) || text::occurs(content, replacement) {
        content
    } else {
        text::replaced_first(content, marker, replacement)
    }
}

/// A file after a change.
pub open spec fn edited(content: Seq<char>, edit: Edit) -> Seq<char> {
    match edit {
        Edit::Patch { marker, replacement } => patched(content, marker@, replacement@),
        Edit::Replace { from, to } => text::replaced(content, from@, to@),
        Edit::Insert { unless, at, to } => if text::occurs(content, unless@) {
            content
        } else {
            text::replaced(content, at@, to@)
        },
    }
}

/// A file after the changes from index `i` on.
pub open spec fn edited_from(content: Seq<char>, edits: Seq<Edit>, i: int) -> Seq<char>
    decreases edits.len() - i,
{
    if i < 0 || i >= edits.len() {
        content
    } else {
        edited_from(edited(content, edits[i]), edits, i + 1)
    }
}

/// Every occurrence of `p` replaced by `w`; an empty `p` occurs nowhere.
fn replace_found(s: &str, p: &str, w: &str) -> (r: String)
    ensures
        r@ == text::replaced(s@, p@, w@),
{
    if text::chars_of(p).len() == 0 {
        owned(s)
    } else {
        replace_text(s, p, w)
    }
}

/// Puts `replacement` in the place of the first `marker` of a file. A file that has it already, or
/// has no such marker, stays as it is.
pub fn patch_c_file(content: &str, marker: &str, replacement: &str) -> (r: String)
    ensures
        r@ == patched(content@, marker@, replacement@),
{
    if contains_text(content, source_texts::PATCH_MARK) || contains_text(content, replacement) {
        owned(content)
    } else {
        replace_first(content, marker, replacement)
    }
}

/// A file after a change.
pub fn apply_edit(content: &str, edit: Edit) -> (r: String)
    ensures
        r@ == edited(content@, edit),
{
    match edit {
        Edit::Patch { marker, replacement } => patch_c_file(content, marker, replacement),
        Edit::Replace { from, to } => replace_found(content, from, to),
        Edit::Insert { unless, at, to } => {
            if contains_text(content, unless) {
                owned(content)
            } else {
                replace_found(content, at, to)
            }
        },
    }
}

/// The files that are changed where they exist.
pub fn edited_files() -> (r: Vec<&'static str>)
    ensures
        r@ == edited_paths(),
{
    let r = vec![
        source_texts::FDT_MACHINE_FILE,
        source_texts::CPU_EXEC_FILE,
        source_texts::CPUS_FILE,
        source_texts::NET_JSON_FILE,
        source_texts::CHAR_JSON_FILE,
        source_texts::QOM_JSON_FILE,
        source_texts::NET_FILE,
        source_texts::CLIENTS_FILE,
        source_texts::NET_BUILD_FILE,
        source_texts::FDT_UTIL_FILE,
        source_texts::SYSBUS_FILE,
    ];
    proof {
        assert(r@ =~= edited_paths());
    }
    r
}

/// The files that are changed where they exist.
pub open spec fn edited_paths() -> Seq<&'static str> {
    seq![
        source_texts::FDT_MACHINE_FILE,
        source_texts::CPU_EXEC_FILE,
        source_texts::CPUS_FILE,
        source_texts::NET_JSON_FILE,
        source_texts::CHAR_JSON_FILE,
        source_texts::QOM_JSON_FILE,
        source_texts::NET_FILE,
        source_texts::CLIENTS_FILE,
        source_texts::NET_BUILD_FILE,
        source_texts::FDT_UTIL_FILE,
        source_texts::SYSBUS_FILE,
    ]
}

/// The changes of a file.
pub open spec fn edits_of(path: Seq<char>) -> Seq<Edit> {
    if path == source_texts::FDT_MACHINE_FILE@ {
        seq![
            Edit::Patch { marker: source_texts::PAGE_BITS, replacement: source_texts::PAGE_BITS_AND_BUS },
        ]
    } else if path == source_texts::CPU_EXEC_FILE@ {
        seq![
            Edit::Patch { marker: source_texts::INTERNAL_HEADER, replacement: source_texts::INTERNAL_AND_HOOKS },
            Edit::Patch { marker: source_texts::INTERRUPT_LOOP, replacement: source_texts::INTERRUPT_LOOP_HOOKED },
        ]
    } else if path == source_texts::CPUS_FILE@ {
        seq![
            Edit::Patch { marker: source_texts::OSDEP_HEADER, replacement: source_texts::OSDEP_AND_HOOKS },
        ]
    } else if path == source_texts::NET_JSON_FILE@ {
        seq![
            Edit::Patch { marker: source_texts::NET_SINCE, replacement: source_texts::NET_SINCE_VIRTMCU },
            Edit::Patch { marker: source_texts::NET_NAME, replacement: source_texts::NET_NAME_VIRTMCU },
            Edit::Insert { unless: source_texts::NET_OPTIONS_NAME, at: source_texts::NET_OPTIONS_PLACE, to: source_texts::NET_OPTIONS },
            Edit::Patch { marker: source_texts::NET_BRANCH, replacement: source_texts::NET_BRANCH_VIRTMCU },
        ]
    } else if path == source_texts::CHAR_JSON_FILE@ {
        seq![
            Edit::Insert { unless: source_texts::CHAR_OPTIONS_NAME, at: source_texts::CHAR_OPTIONS_PLACE, to: source_texts::CHAR_OPTIONS },
            Edit::Patch { marker: source_texts::CHAR_BRANCH, replacement: source_texts::CHAR_BRANCH_VIRTMCU },
        ]
    } else if path == source_texts::QOM_JSON_FILE@ {
        seq![
            Edit::Insert { unless: source_texts::CAN_OPTIONS_NAME, at: source_texts::CAN_OPTIONS_PLACE, to: source_texts::CAN_OPTIONS },
            Edit::Patch { marker: source_texts::CAN_NAME, replacement: source_texts::CAN_NAME_VIRTMCU },
            Edit::Patch { marker: source_texts::CAN_BRANCH, replacement: source_texts::CAN_BRANCH_VIRTMCU },
        ]
    } else if path == source_texts::NET_FILE@ {
        seq![
            Edit::Patch { marker: source_texts::NET_INIT, replacement: source_texts::NET_INIT_VIRTMCU },
        ]
    } else if path == source_texts::CLIENTS_FILE@ {
        seq![
            Edit::Patch { marker: source_texts::NET_CLIENT, replacement: source_texts::NET_CLIENT_VIRTMCU },
        ]
    } else if path == source_texts::NET_BUILD_FILE@ {
        seq![
            Edit::Patch { marker: source_texts::NET_SOURCE, replacement: source_texts::NET_SOURCE_VIRTMCU },
        ]
    } else if path == source_texts::FDT_UTIL_FILE@ {
        seq![
            Edit::Replace { from: source_texts::FDT_CELL, to: source_texts::FDT_CELL_PARENT },
            Edit::Replace { from: source_texts::FDT_BUS, to: source_texts::FDT_BUS_CHILD },
            Edit::Replace { from: source_texts::FDT_WIDE, to: source_texts::FDT_WIDE_SWAP },
            Edit::Replace { from: source_texts::FDT_CLASS, to: source_texts::FDT_NO_CLASS },
            Edit::Replace { from: source_texts::FDT_REALIZE, to: source_texts::FDT_REALIZE_ONLY },
            Edit::Replace { from: source_texts::FDT_STEP, to: source_texts::FDT_STEP_BYTES },
            Edit::Replace { from: source_texts::FDT_PARENT, to: source_texts::FDT_PARENT_FREE },
            Edit::Replace { from: source_texts::FDT_PATH, to: source_texts::FDT_PATH_COPY },
            Edit::Replace { from: source_texts::FDT_TYPE, to: source_texts::FDT_TYPE_OTHER },
        ]
    } else if path == source_texts::SYSBUS_FILE@ {
        seq![
            Edit::Replace { from: source_texts::SYSBUS_REG, to: source_texts::SYSBUS_REG_CHECKED },
        ]
    } else {
        Seq::empty()
    }
}

/// The changes of a file.
pub fn edits_for(path: &str) -> (r: Vec<Edit>)
    ensures
        r@ == edits_of(path@),
{
    let r: Vec<Edit> = if same_text(path, source_texts::FDT_MACHINE_FILE) {
        vec![
            Edit::Patch { marker: source_texts::PAGE_BITS, replacement: source_texts::PAGE_BITS_AND_BUS },
        ]
    } else if same_text(path, source_texts::CPU_EXEC_FILE) {
        vec![
            Edit::Patch { marker: source_texts::INTERNAL_HEADER, replacement: source_texts::INTERNAL_AND_HOOKS },
            Edit::Patch { marker: source_texts::INTERRUPT_LOOP, replacement: source_texts::INTERRUPT_LOOP_HOOKED },
        ]
    } else if same_text(path, source_texts::CPUS_FILE) {
        vec![
            Edit::Patch { marker: source_texts::OSDEP_HEADER, replacement: source_texts::OSDEP_AND_HOOKS },
        ]
    } else if same_text(path, source_texts::NET_JSON_FILE) {
        vec![
            Edit::Patch { marker: source_texts::NET_SINCE, replacement: source_texts::NET_SINCE_VIRTMCU },
            Edit::Patch { marker: source_texts::NET_NAME, replacement: source_texts::NET_NAME_VIRTMCU },
            Edit::Insert { unless: source_texts::NET_OPTIONS_NAME, at: source_texts::NET_OPTIONS_PLACE, to: source_texts::NET_OPTIONS },
            Edit::Patch { marker: source_texts::NET_BRANCH, replacement: source_texts::NET_BRANCH_VIRTMCU },
        ]
    } else if same_text(path, source_texts::CHAR_JSON_FILE) {
        vec![
            Edit::Insert { unless: source_texts::CHAR_OPTIONS_NAME, at: source_texts::CHAR_OPTIONS_PLACE, to: source_texts::CHAR_OPTIONS },
            Edit::Patch { marker: source_texts::CHAR_BRANCH, replacement: source_texts::CHAR_BRANCH_VIRTMCU },
        ]
    } else if same_text(path, source_texts::QOM_JSON_FILE) {
        vec![
            Edit::Insert { unless: source_texts::CAN_OPTIONS_NAME, at: source_texts::CAN_OPTIONS_PLACE, to: source_texts::CAN_OPTIONS },
            Edit::Patch { marker: source_texts::CAN_NAME, replacement: source_texts::CAN_NAME_VIRTMCU },
            Edit::Patch { marker: source_texts::CAN_BRANCH, replacement: source_texts::CAN_BRANCH_VIRTMCU },
        ]
    } else if same_text(path, source_texts::NET_FILE) {
        vec![
            Edit::Patch { marker: source_texts::NET_INIT, replacement: source_texts::NET_INIT_VIRTMCU },
        ]
    } else if same_text(path, source_texts::CLIENTS_FILE) {
        vec![
            Edit::Patch { marker: source_texts::NET_CLIENT, replacement: source_texts::NET_CLIENT_VIRTMCU },
        ]
    } else if same_text(path, source_texts::NET_BUILD_FILE) {
        vec![
            Edit::Patch { marker: source_texts::NET_SOURCE, replacement: source_texts::NET_SOURCE_VIRTMCU },
        ]
    } else if same_text(path, source_texts::FDT_UTIL_FILE) {
        vec![
            Edit::Replace { from: source_texts::FDT_CELL, to: source_texts::FDT_CELL_PARENT },
            Edit::Replace { from: source_texts::FDT_BUS, to: source_texts::FDT_BUS_CHILD },
            Edit::Replace { from: source_texts::FDT_WIDE, to: source_texts::FDT_WIDE_SWAP },
            Edit::Replace { from: source_texts::FDT_CLASS, to: source_texts::FDT_NO_CLASS },
            Edit::Replace { from: source_texts::FDT_REALIZE, to: source_texts::FDT_REALIZE_ONLY },
            Edit::Replace { from: source_texts::FDT_STEP, to: source_texts::FDT_STEP_BYTES },
            Edit::Replace { from: source_texts::FDT_PARENT, to: source_texts::FDT_PARENT_FREE },
            Edit::Replace { from: source_texts::FDT_PATH, to: source_texts::FDT_PATH_COPY },
            Edit::Replace { from: source_texts::FDT_TYPE, to: source_texts::FDT_TYPE_OTHER },
        ]
    } else if same_text(path, source_texts::SYSBUS_FILE) {
        vec![
            Edit::Replace { from: source_texts::SYSBUS_REG, to: source_texts::SYSBUS_REG_CHECKED },
        ]
    } else {
        Vec::new()
    };
    proof {
        assert(r@ =~= edits_of(path@));
    }
    r
}

/// Changes one of the files.
pub fn edit_file(path: &str, content: &str) -> (r: String)
    ensures
        r@ == edited_from(content@, edits_of(path@), 0),
{
    let edits = edits_for(path);
    let mut out = owned(content);
    let mut i: usize = 0;
    while i < edits.len()
        invariant
            i <= edits@.len(),
            edited_from(content@, edits@, 0) == edited_from(out@, edits@, i as int),
        decreases edits@.len() - i,
    {
        out = apply_edit(out.as_str(), edits[i]);
        i += 1;
    }
    out
}

/// A file that holds what is put in the place of a marker stays as it is: to patch a file again
/// changes nothing.
pub proof fn law_patching_once_is_enough(
    content: Seq<char>,
    marker: Seq<char>,
    replacement: Seq<char>,
)
    ensures
        patched(patched(content, marker, replacement), marker, replacement) == patched(
            content,
            marker,
            replacement,
        ),
{
    let once = patched(content, marker, replacement);
    text::lemma_occurs_find(content, marker);
    match text::find_from(content, marker, 0) {
        Some(i) => {
            if !text::occurs(content, source_texts::PATCH_MARK@) && !text::occurs(
                content,
                replacement,
            ) {
                assert(text::stands_at(content, marker, i));
                assert(once.subrange(i, i + replacement.len()) =~= replacement);
                assert(text::stands_at(once, replacement, i));
            }
        },
        None => {},
    }
}

/// The list of build directories with that of the devices in it.
pub open spec fn with_subdir_of(content: Seq<char>) -> Seq<char> {
    if text::occurs(content, source_texts::SUBDIR@) {
        content
    } else {
        content + "\n"@ + source_texts::SUBDIR@ + "\n"@
    }
}

/// Adds the directory of the devices to the list of build directories, unless it is there.
pub fn with_subdir(content: &str) -> (r: String)
    ensures
        r@ == with_subdir_of(content@),
{
    if contains_text(content, source_texts::SUBDIR) {
        owned(content)
    } else {
        text::joined4(content, "\n", source_texts::SUBDIR, "\n")
    }
}

/// The options of character devices, given where the option before which the others go was found.
pub open spec fn with_options_of(content: Seq<char>, found: Option<Seq<char>>) -> Seq<char> {
    match found {
        Some(place) => text::replaced(content, place, source_texts::CHARDEV_OPTIONS@),
        None => content,
    }
}

/// Puts the options in at each place that reads like the one that was found.
pub fn with_options(content: &str, found: &Option<String>) -> (r: String)
    ensures
        r@ == with_options_of(content@, text::optional(*found)),
{
    match found {
        Some(place) => replace_found(content, place.as_str(), source_texts::CHARDEV_OPTIONS),
        None => owned(content),
    }
}

/// The options of character devices once those of the simulation are among them; `None` if the
/// pattern of the place is no regular expression.
pub open spec fn chardev_of(content: Seq<char>) -> Option<Seq<char>> {
    if text::occurs(content, source_texts::BACKLOG_OPTION@) {
        Some(content)
    } else {
        match patterns::regex_find_of(source_texts::SIZE_OPTION_PATTERN@, content) {
            Some(Some(m)) => Some(with_options_of(content, Some(m.1))),
            Some(None) => Some(with_options_of(content, None)),
            None => None,
        }
    }
}

/// Adds the options of the simulation to those of character devices.
pub fn apply_zenoh_chardev(content: &str) -> (r: Option<String>)
    ensures
        text::optional(r) == chardev_of(content@),
{
    if contains_text(content, source_texts::BACKLOG_OPTION) {
        return Some(owned(content));
    }
    match regex_find(source_texts::SIZE_OPTION_PATTERN, content) {
        Some(Some(m)) => Some(with_options(content, &Some(m.1))),
        Some(None) => Some(with_options(content, &None)),
        None => None,
    }
}

/// The texts of one sanitizer in the build description.
#[derive(Debug, Clone, Copy, PartialEq, Eq)]
pub struct Sanitizer {
    /// The condition that the sanitizer is chosen otherwise.
    pub guard: &'static str,
    /// The pattern of the compiler flags.
    pub flags: &'static str,
    /// The argument for code that is not C.
    pub argument: &'static str,
    /// The pattern of the compiler flags under the condition.
    pub guarded: &'static str,
}

/// The sanitizer of addresses.
pub fn address_sanitizer() -> (r: Sanitizer)
    ensures
        r == address_texts(),
{
    Sanitizer {
        guard: source_texts::ADDRESS_GUARD,
        flags: source_texts::ADDRESS_FLAGS,
        argument: source_texts::ADDRESS_ARGUMENT,
        guarded: source_texts::ADDRESS_GUARDED,
    }
}

/// The sanitizer of addresses.
pub open spec fn address_texts() -> Sanitizer {
    Sanitizer {
        guard: source_texts::ADDRESS_GUARD,
        flags: source_texts::ADDRESS_FLAGS,
        argument: source_texts::ADDRESS_ARGUMENT,
        guarded: source_texts::ADDRESS_GUARDED,
    }
}

/// The sanitizer of undefined behaviour.
pub fn undefined_sanitizer() -> (r: Sanitizer)
    ensures
        r == undefined_texts(),
{
    Sanitizer {
        guard: source_texts::UNDEFINED_GUARD,
        flags: source_texts::UNDEFINED_FLAGS,
        argument: source_texts::UNDEFINED_ARGUMENT,
        guarded: source_texts::UNDEFINED_GUARDED,
    }
}

/// The sanitizer of undefined behaviour.
pub open spec fn undefined_texts() -> Sanitizer {
    Sanitizer {
        guard: source_texts::UNDEFINED_GUARD,
        flags: source_texts::UNDEFINED_FLAGS,
        argument: source_texts::UNDEFINED_ARGUMENT,
        guarded: source_texts::UNDEFINED_GUARDED,
    }
}

/// A group of the first match; empty if there is none.
pub open spec fn group(found: Seq<patterns::CapturedView>, k: int) -> Seq<char> {
    if found.len() > 0 && 0 <= k < found[0].groups.len() {
        found[0].groups[k]
    } else {
        Seq::empty()
    }
}

fn take_group(found: &Vec<patterns::Captured>, k: usize) -> (r: String)
    ensures
        r@ == group(sorting::views(found@), k as int),
{
    proof {
        reveal_strlit("");
        assert(""@ =~= Seq::empty());
        if found@.len() > 0 {
            assert(sorting::views(found@)[0] == found@[0]@);
        }
    }
    if found.len() > 0 && k < found[0].groups.len() {
        proof {
            assert(found@[0]@.groups[k as int] == found@[0].groups@[k as int]@);
        }
        owned(found[0].groups[k].as_str())
    } else {
        owned("")
    }
}

/// The build description with the compiler flags under the condition, given where the flags were
/// found.
pub open spec fn flags_guarded(
    content: Seq<char>,
    guard: Seq<char>,
    found: Seq<patterns::CapturedView>,
) -> Seq<char> {
    if found.len() == 0 {
        content
    } else {
        text::replaced(
            content,
            group(found, 2),
            "if not "@ + guard + "\n"@ + group(found, 1) + "  "@ + group(found, 2) + ("\n"@ + group(
                found,
                1,
            ) + "endif"@),
        )
    }
}

/// Puts the compiler flags under the condition.
pub fn guard_flags(content: &str, guard: &str, found: &Vec<patterns::Captured>) -> (r: String)
    ensures
        r@ == flags_guarded(content@, guard@, sorting::views(found@)),
{
    if found.len() == 0 {
        return owned(content);
    }
    let indent = take_group(found, 1);
    let flags = take_group(found, 2);
    let guarded = joined2(
        joined6("if not ", guard, "\n", indent.as_str(), "  ", flags.as_str()).as_str(),
        joined3("\n", indent.as_str(), "endif").as_str(),
    );
    replace_found(content, flags.as_str(), guarded.as_str())
}

/// The pattern of the block that hands the argument on.
pub open spec fn argument_pattern(escaped: Seq<char>) -> Seq<char> {
    "(\\s+)if have_rust\\s*\n\\s*"@ + escaped + "\\s*\n\\s*endif"@
}

/// The build description with the argument under the condition, given where its block was found,
/// and, where there is no such block, the compiler flags under the condition.
pub open spec fn argument_guarded(
    content: Seq<char>,
    texts: Sanitizer,
    block: Seq<patterns::CapturedView>,
    flags: Seq<patterns::CapturedView>,
) -> Seq<char> {
    if block.len() > 0 {
        text::replaced(
            content,
            group(block, 0),
            group(block, 1) + "if have_rust and not "@ + texts.guard@ + "\n"@ + group(block, 1) + (
            "  "@ + texts.argument@ + "\n"@ + group(block, 1) + "endif"@),
        )
    } else if text::occurs(content, texts.argument@) || flags.len() == 0 {
        content
    } else {
        text::replaced(
            content,
            group(flags, 1),
            group(flags, 1) + "\n\n    if have_rust and not "@ + texts.guard@ + "\n      "@
                + texts.argument@ + "\n    endif"@,
        )
    }
}

/// Puts the argument under the condition.
pub fn guard_argument(
    content: &str,
    texts: Sanitizer,
    block: &Vec<patterns::Captured>,
    flags: &Vec<patterns::Captured>,
) -> (r: String)
    ensures
        r@ == argument_guarded(
            content@,
            texts,
            sorting::views(block@),
            sorting::views(flags@),
        ),
{
    if block.len() > 0 {
        let whole = take_group(block, 0);
        let indent = take_group(block, 1);
        let guarded = joined2(
            joined5(
                indent.as_str(),
                "if have_rust and not ",
                texts.guard,
                "\n",
                indent.as_str(),
            ).as_str(),
            joined5("  ", texts.argument, "\n", indent.as_str(), "endif").as_str(),
        );
        replace_found(content, whole.as_str(), guarded.as_str())
    } else if contains_text(content, texts.argument) || flags.len() == 0 {
        owned(content)
    } else {
        let place = take_group(flags, 1);
        let more = joined6(
            place.as_str(),
            "\n\n    if have_rust and not ",
            texts.guard,
            "\n      ",
            texts.argument,
            "\n    endif",
        );
        replace_found(content, place.as_str(), more.as_str())
    }
}

/// The build description once a sanitizer is under its condition; `None` if a pattern is no regular
/// expression.
pub open spec fn sanitizer_guarded(content: Seq<char>, texts: Sanitizer) -> Option<Seq<char>> {
    if text::occurs(content, texts.guard@) {
        Some(content)
    } else {
        match patterns::regex_captures_of(texts.flags@, content) {
            None => None,
            Some(found) => {
                let next = flags_guarded(content, texts.guard@, found);
                match (
                    patterns::regex_captures_of(
                        argument_pattern(patterns::regex_escape_of(texts.argument@)),
                        next,
                    ),
                    patterns::regex_captures_of(texts.guarded@, next),
                ) {
                    (Some(block), Some(flags)) => Some(
                        argument_guarded(next, texts, block, flags),
                    ),
                    _ => None,
                }
            },
        }
    }
}

/// Puts a sanitizer under its condition.
pub fn guard_sanitizer(content: &str, texts: Sanitizer) -> (r: Option<String>)
    ensures
        text::optional(r) == sanitizer_guarded(content@, texts),
{
    if contains_text(content, texts.guard) {
        return Some(owned(content));
    }
    let found = match regex_captures(texts.flags, content) {
        Some(found) => found,
        None => {
            return None;
        },
    };
    let next = guard_flags(content, texts.guard, &found);
    let escaped = regex_escape(texts.argument);
    let pattern = joined3("(\\s+)if have_rust\\s*\n\\s*", escaped.as_str(), "\\s*\n\\s*endif");
    let block = regex_captures(pattern.as_str(), next.as_str());
    let flags = regex_captures(texts.guarded, next.as_str());
    match (block, flags) {
        (Some(block), Some(flags)) => Some(guard_argument(next.as_str(), texts, &block, &flags)),
        _ => None,
    }
}

/// The build description once both sanitizers are under their conditions.
pub open spec fn both_guarded(content: Seq<char>) -> Option<Seq<char>> {
    match sanitizer_guarded(content, address_texts()) {
        Some(next) => sanitizer_guarded(next, undefined_texts()),
        None => None,
    }
}

/// Puts both sanitizers under their conditions.
pub fn apply_rust_asan_fix(content: &str) -> (r: Option<String>)
    ensures
        text::optional(r) == both_guarded(content@),
{
    match guard_sanitizer(content, address_sanitizer()) {
        Some(next) => guard_sanitizer(next.as_str(), undefined_sanitizer()),
        None => None,
    }
}

} // verus!
