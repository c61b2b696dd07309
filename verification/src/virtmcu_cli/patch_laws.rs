//! What holds of patching sources and register descriptions.
use vstd::prelude::*;

use crate::json::JsonView;
use crate::test_runner::lints::patterns;
use crate::test_runner::lints::patterns::CapturedView;
use crate::test_runner::runner_laws;
use crate::test_runner::variables;
use crate::test_runner::variables::VariableView;
use crate::text;
use crate::text_laws;
use crate::virtmcu_cli::inspect;
use crate::virtmcu_cli::inspect::TraceEvent;
use crate::virtmcu_cli::schema;
use crate::virtmcu_cli::source_patch;
use crate::virtmcu_cli::source_patch::{Edit, Sanitizer};
use crate::virtmcu_cli::source_texts;
use crate::virtmcu_cli::svd;
use crate::virtmcu_cli::svd::{
    PatchState, PatchValue, PeripheralPatchView, RegisterPatchView, SvdLineView,
};
use crate::virtmcu_cli::tool_laws;

verus! {

proof fn lemma_file_names()
    ensures
        "hw/arm/arm_generic_fdt.c"@.len() == 24,
        "accel/tcg/cpu-exec.c"@.len() == 20,
        "system/cpus.c"@.len() == 13,
        "system/cpus.c"@[0] == 's',
        "qapi/net.json"@.len() == 13,
        "qapi/net.json"@[0] == 'q',
        "qapi/net.json"@[5] == 'n',
        "qapi/char.json"@.len() == 14,
        "qapi/qom.json"@.len() == 13,
        "qapi/qom.json"@[0] == 'q',
        "qapi/qom.json"@[5] == 'q',
        "net/net.c"@.len() == 9,
        "net/clients.h"@.len() == 13,
        "net/clients.h"@[0] == 'n',
        "net/meson.build"@.len() == 15,
        "hw/core/fdt_generic_util.c"@.len() == 26,
        "hw/core/sysbus.c"@.len() == 16,
{
    reveal_strlit("hw/arm/arm_generic_fdt.c");
    reveal_strlit("accel/tcg/cpu-exec.c");
    reveal_strlit("system/cpus.c");
    reveal_strlit("qapi/net.json");
    reveal_strlit("qapi/char.json");
    reveal_strlit("qapi/qom.json");
    reveal_strlit("net/net.c");
    reveal_strlit("net/clients.h");
    reveal_strlit("net/meson.build");
    reveal_strlit("hw/core/fdt_generic_util.c");
    reveal_strlit("hw/core/sysbus.c");
}

/// In each of these files one place is patched, and the rest of the file stays.
pub proof fn law_files_with_one_place(
    path: Seq<char>,
    marker: &'static str,
    replacement: &'static str,
    a: Seq<char>,
    b: Seq<char>,
)
    requires
        ({
            ||| path == "hw/arm/arm_generic_fdt.c"@ && marker == source_texts::PAGE_BITS
                && replacement == source_texts::PAGE_BITS_AND_BUS
            ||| path == "system/cpus.c"@ && marker == source_texts::OSDEP_HEADER && replacement
                == source_texts::OSDEP_AND_HOOKS
            ||| path == "net/net.c"@ && marker == source_texts::NET_INIT && replacement
                == source_texts::NET_INIT_VIRTMCU
            ||| path == "net/clients.h"@ && marker == source_texts::NET_CLIENT && replacement
                == source_texts::NET_CLIENT_VIRTMCU
            ||| path == "net/meson.build"@ && marker == source_texts::NET_SOURCE && replacement
                == source_texts::NET_SOURCE_VIRTMCU
        }),
        marker@.len() > 0,
        forall|j: int|
            0 <= j < a.len() ==> !#[trigger] text::stands_at(a + marker@ + b, marker@, j),
        !text::occurs(a + marker@ + b, "virtmcu-patch"@),
        !text::occurs(a + marker@ + b, replacement@),
    ensures
        source_patch::edited_from(a + marker@ + b, source_patch::edits_of(path), 0) == a
            + replacement@ + b,
{
    lemma_file_names();
    tool_laws::law_patch(a, marker@, b, replacement@);
    let content = a + marker@ + b;
    let edits = source_patch::edits_of(path);
    assert(edits.len() == 1);
    assert(edits[0] == Edit::Patch { marker, replacement });
    reveal_with_fuel(source_patch::edited_from, 2);
}

/// The files with more than one place, and what is looked for in each, in turn.
pub proof fn law_files_with_more_places()
    ensures
        ({
            let cpu = source_patch::edits_of("accel/tcg/cpu-exec.c"@);
            let net = source_patch::edits_of("qapi/net.json"@);
            let chars = source_patch::edits_of("qapi/char.json"@);
            let qom = source_patch::edits_of("qapi/qom.json"@);
            let util = source_patch::edits_of("hw/core/fdt_generic_util.c"@);
            let bus = source_patch::edits_of("hw/core/sysbus.c"@);
            &&& cpu == seq![
                Edit::Patch {
                    marker: source_texts::INTERNAL_HEADER,
                    replacement: source_texts::INTERNAL_AND_HOOKS,
                },
                Edit::Patch {
                    marker: source_texts::INTERRUPT_LOOP,
                    replacement: source_texts::INTERRUPT_LOOP_HOOKED,
                },
            ]
            &&& net.len() == 4
            &&& net[0] == (Edit::Patch {
                marker: source_texts::NET_SINCE,
                replacement: source_texts::NET_SINCE_VIRTMCU,
            })
            &&& net[1] == (Edit::Patch {
                marker: source_texts::NET_NAME,
                replacement: source_texts::NET_NAME_VIRTMCU,
            })
            &&& net[2] == (Edit::Insert {
                unless: source_texts::NET_OPTIONS_NAME,
                at: source_texts::NET_OPTIONS_PLACE,
                to: source_texts::NET_OPTIONS,
            })
            &&& net[3] == (Edit::Patch {
                marker: source_texts::NET_BRANCH,
                replacement: source_texts::NET_BRANCH_VIRTMCU,
            })
            &&& chars.len() == 2
            &&& chars[0] == (Edit::Insert {
                unless: source_texts::CHAR_OPTIONS_NAME,
                at: source_texts::CHAR_OPTIONS_PLACE,
                to: source_texts::CHAR_OPTIONS,
            })
            &&& chars[1] == (Edit::Patch {
                marker: source_texts::CHAR_BRANCH,
                replacement: source_texts::CHAR_BRANCH_VIRTMCU,
            })
            &&& qom.len() == 3
            &&& qom[0] == (Edit::Insert {
                unless: source_texts::CAN_OPTIONS_NAME,
                at: source_texts::CAN_OPTIONS_PLACE,
                to: source_texts::CAN_OPTIONS,
            })
            &&& qom[1] == (Edit::Patch {
                marker: source_texts::CAN_NAME,
                replacement: source_texts::CAN_NAME_VIRTMCU,
            })
            &&& qom[2] == (Edit::Patch {
                marker: source_texts::CAN_BRANCH,
                replacement: source_texts::CAN_BRANCH_VIRTMCU,
            })
            &&& util.len() == 9
            &&& util[0] == (Edit::Replace {
                from: source_texts::FDT_CELL,
                to: source_texts::FDT_CELL_PARENT,
            })
            &&& util[1] == (Edit::Replace {
                from: source_texts::FDT_BUS,
                to: source_texts::FDT_BUS_CHILD,
            })
            &&& util[2] == (Edit::Replace {
                from: source_texts::FDT_WIDE,
                to: source_texts::FDT_WIDE_SWAP,
            })
            &&& util[3] == (Edit::Replace {
                from: source_texts::FDT_CLASS,
                to: source_texts::FDT_NO_CLASS,
            })
            &&& util[4] == (Edit::Replace {
                from: source_texts::FDT_REALIZE,
                to: source_texts::FDT_REALIZE_ONLY,
            })
            &&& util[5] == (Edit::Replace {
                from: source_texts::FDT_STEP,
                to: source_texts::FDT_STEP_BYTES,
            })
            &&& util[6] == (Edit::Replace {
                from: source_texts::FDT_PARENT,
                to: source_texts::FDT_PARENT_FREE,
            })
            &&& util[7] == (Edit::Replace {
                from: source_texts::FDT_PATH,
                to: source_texts::FDT_PATH_COPY,
            })
            &&& util[8] == (Edit::Replace {
                from: source_texts::FDT_TYPE,
                to: source_texts::FDT_TYPE_OTHER,
            })
            &&& bus == seq![
                Edit::Replace {
                    from: source_texts::SYSBUS_REG,
                    to: source_texts::SYSBUS_REG_CHECKED,
                },
            ]
        }),
{
    lemma_file_names();
}

/// The files that are listed are those that are edited; any other stays as it is.
pub proof fn law_files_that_are_edited(path: Seq<char>, content: Seq<char>, i: int)
    ensures
        ({
            let paths = source_patch::edited_paths();
            let edits = source_patch::edits_of(path);
            &&& 0 <= i < paths.len() && paths[i]@ == path ==> edits.len() > 0
            &&& (forall|k: int| 0 <= k < paths.len() ==> (#[trigger] paths[k])@ != path)
                ==> source_patch::edited_from(content, edits, 0) == content
        }),
{
    let paths = source_patch::edited_paths();
    let edits = source_patch::edits_of(path);
    lemma_file_names();
    assert(paths.len() == 11);
    assert(paths[0]@ == "hw/arm/arm_generic_fdt.c"@);
    assert(paths[1]@ == "accel/tcg/cpu-exec.c"@);
    assert(paths[2]@ == "system/cpus.c"@);
    assert(paths[3]@ == "qapi/net.json"@);
    assert(paths[4]@ == "qapi/char.json"@);
    assert(paths[5]@ == "qapi/qom.json"@);
    assert(paths[6]@ == "net/net.c"@);
    assert(paths[7]@ == "net/clients.h"@);
    assert(paths[8]@ == "net/meson.build"@);
    assert(paths[9]@ == "hw/core/fdt_generic_util.c"@);
    assert(paths[10]@ == "hw/core/sysbus.c"@);
    if forall|k: int| 0 <= k < paths.len() ==> (#[trigger] paths[k])@ != path {
        assert(edits.len() == 0);
    }
}

/// The options of the device stand where they were found to belong; a file that has them, or no
/// place for them, stays as it is.
pub proof fn law_device_options(a: Seq<char>, place: Seq<char>, b: Seq<char>)
    requires
        place.len() > 0,
        forall|j: int| 0 <= j < a.len() ==> !#[trigger] text::stands_at(a + place + b, place, j),
        !text::occurs(b, place),
    ensures
        source_patch::with_options_of(a + place + b, Some(place)) == a
            + source_texts::CHARDEV_OPTIONS@ + b,
        source_patch::with_options_of(b, None) == b,
        text::occurs(b, source_texts::BACKLOG_OPTION@) ==> source_patch::chardev_of(b) == Some(b),
{
    text_laws::law_first_occurrence(a, place, b, source_texts::CHARDEV_OPTIONS@);
    text_laws::law_no_occurrence(b, place, source_texts::CHARDEV_OPTIONS@);
}

/// The flags of a sanitizer stand under its guard, with the indent that they had; a file without
/// them stays as it is.
pub proof fn law_guarded_flags(
    a: Seq<char>,
    flags: Seq<char>,
    b: Seq<char>,
    guard: Seq<char>,
    whole: Seq<char>,
    indent: Seq<char>,
    before: Seq<char>,
)
    requires
        flags.len() > 0,
        forall|j: int| 0 <= j < a.len() ==> !#[trigger] text::stands_at(a + flags + b, flags, j),
        !text::occurs(b, flags),
    ensures
        ({
            let found = seq![CapturedView { before, groups: seq![whole, indent, flags] }];
            source_patch::flags_guarded(a + flags + b, guard, found) == a + ("if not "@ + guard
                + "\n"@ + indent + "  "@ + flags + ("\n"@ + indent + "endif"@)) + b
        }),
        source_patch::flags_guarded(b, guard, Seq::empty()) == b,
{
    let found = seq![CapturedView { before, groups: seq![whole, indent, flags] }];
    let w = "if not "@ + guard + "\n"@ + indent + "  "@ + flags + ("\n"@ + indent + "endif"@);
    assert(source_patch::group(found, 1) == indent);
    assert(source_patch::group(found, 2) == flags);
    text_laws::law_first_occurrence(a, flags, b, w);
    text_laws::law_no_occurrence(b, flags, w);
}

/// The argument of a sanitizer stands under its guard: in the block that it had, or else behind the
/// guarded flags. A file that has the argument elsewhere, or no flags, stays as it is.
pub proof fn law_guarded_argument(
    a: Seq<char>,
    block: Seq<char>,
    b: Seq<char>,
    texts: Sanitizer,
    indent: Seq<char>,
    before: Seq<char>,
    whole: Seq<char>,
    any: Seq<CapturedView>,
)
    requires
        block.len() > 0,
        forall|j: int| 0 <= j < a.len() ==> !#[trigger] text::stands_at(a + block + b, block, j),
        !text::occurs(b, block),
    ensures
        ({
            let content = a + block + b;
            let blocks = seq![CapturedView { before, groups: seq![block, indent] }];
            let flags = seq![CapturedView { before, groups: seq![whole, block] }];
            &&& source_patch::argument_guarded(content, texts, blocks, any) == a + (indent
                + "if have_rust and not "@ + texts.guard@ + "\n"@ + indent + ("  "@
                + texts.argument@ + "\n"@ + indent + "endif"@)) + b
            &&& !text::occurs(content, texts.argument@) ==> source_patch::argument_guarded(
                content,
                texts,
                Seq::empty(),
                flags,
            ) == a + (block + "\n\n    if have_rust and not "@ + texts.guard@ + "\n      "@
                + texts.argument@ + "\n    endif"@) + b
            &&& text::occurs(content, texts.argument@) ==> source_patch::argument_guarded(
                content,
                texts,
                Seq::empty(),
                any,
            ) == content
            &&& source_patch::argument_guarded(content, texts, Seq::empty(), Seq::empty())
                == content
        }),
        text::occurs(b, texts.guard@) ==> source_patch::sanitizer_guarded(b, texts) == Some(b),
{
    let blocks = seq![CapturedView { before, groups: seq![block, indent] }];
    let flags = seq![CapturedView { before, groups: seq![whole, block] }];
    let w = indent + "if have_rust and not "@ + texts.guard@ + "\n"@ + indent + ("  "@
        + texts.argument@ + "\n"@ + indent + "endif"@);
    let v = block + "\n\n    if have_rust and not "@ + texts.guard@ + "\n      "@ + texts.argument@
        + "\n    endif"@;
    assert(source_patch::group(blocks, 0) == block);
    assert(source_patch::group(blocks, 1) == indent);
    assert(source_patch::group(flags, 1) == block);
    text_laws::law_first_occurrence(a, block, b, w);
    text_laws::law_no_occurrence(b, block, w);
    text_laws::law_first_occurrence(a, block, b, v);
    text_laws::law_no_occurrence(b, block, v);
}

/// Both sanitizers are guarded, each with texts of its own; a file where both are stays as it is.
pub proof fn law_both_sanitizers(content: Seq<char>, next: Seq<char>)
    ensures
        text::occurs(content, source_texts::ADDRESS_GUARD@) && text::occurs(
            content,
            source_texts::UNDEFINED_GUARD@,
        ) ==> source_patch::both_guarded(content) == Some(content),
        source_patch::sanitizer_guarded(content, source_patch::address_texts()) == Some(next)
            ==> source_patch::both_guarded(content) == source_patch::sanitizer_guarded(
            next,
            source_patch::undefined_texts(),
        ),
        ({
            let a = source_patch::address_texts();
            let u = source_patch::undefined_texts();
            &&& a.guard == source_texts::ADDRESS_GUARD && a.flags == source_texts::ADDRESS_FLAGS
            &&& a.argument == source_texts::ADDRESS_ARGUMENT && a.guarded
                == source_texts::ADDRESS_GUARDED
            &&& u.guard == source_texts::UNDEFINED_GUARD && u.flags
                == source_texts::UNDEFINED_FLAGS
            &&& u.argument == source_texts::UNDEFINED_ARGUMENT && u.guarded
                == source_texts::UNDEFINED_GUARDED
        }),
{
}

/// A number that is not negative is written in hexadecimal digits that read back, one that is
/// negative behind its sign; a text stands for itself.
pub proof fn law_value_texts(v: PatchValue)
    ensures
        ({
            let s = svd::value_text_of(v);
            match v {
                PatchValue::Text(t) => s == t@,
                PatchValue::Printed(t) => s == t@,
                PatchValue::Unsigned(n) => s.len() > 2 && s.take(2) == "0x"@
                    && text_laws::hex_value(s.skip(2)) == n,
                PatchValue::Negative(n) => if n < 0 {
                    s.len() > 1 && s[0] == '-' && text::parsed_unsigned(s.skip(1), u64::MAX as nat)
                        == Some((-n) as nat)
                } else {
                    text::parsed_unsigned(s, u64::MAX as nat) == Some(n as nat)
                },
            }
        }),
{
    let s = svd::value_text_of(v);
    reveal_strlit("0x");
    reveal_strlit("-");
    match v {
        PatchValue::Unsigned(n) => {
            text_laws::law_hex_reads_back(n as nat);
            assert(s.take(2) =~= "0x"@);
            assert(s.skip(2) =~= text::hex(n as nat));
        },
        PatchValue::Negative(n) => {
            if n < 0 {
                text::law_decimal_reads_back((-n) as nat, u64::MAX as nat);
                text::lemma_decimal_value((-n) as nat);
                assert(s.skip(1) =~= text::decimal((-n) as nat));
            } else {
                text::law_decimal_reads_back(n as nat, u64::MAX as nat);
            }
        },
        _ => {},
    }
}

/// A line is taken for the first of these that it is: the start of a peripheral, its end, the start
/// of a register, its end, a name.
pub proof fn law_kinds_of_lines(
    start: Option<Seq<char>>,
    name: Option<Seq<char>>,
    a: bool,
    b: bool,
    before: Seq<char>,
    whole: Seq<char>,
    part: Seq<char>,
)
    ensures
        svd::line_of(true, a, start, b, name) is PeripheralStart,
        svd::line_of(false, true, start, b, name) is PeripheralEnd,
        start is Some ==> svd::line_of(false, false, start, b, name) == SvdLineView::RegisterStart(
            start->0,
        ),
        svd::line_of(false, false, None, true, name) is RegisterEnd,
        name is Some ==> svd::line_of(false, false, None, false, name) == SvdLineView::Name(name->0),
        svd::line_of(false, false, None, false, None) is Other,
        svd::group_of(seq![CapturedView { before, groups: seq![whole, part] }]) == Some(part),
        svd::group_of(Seq::empty()) is None,
        svd::start_state().peripheral is None,
        !svd::start_state().in_register,
        svd::start_state().active is None,
        svd::start_state().seen.len() == 0,
{
    let found = seq![CapturedView { before, groups: seq![whole, part] }];
    assert(found[0].groups.len() == 2);
}

/// A line that sets a property takes its new value, with the indent that it had, and the property
/// counts as set; any other line stays as it is.
pub proof fn law_changed_lines(
    line: Seq<char>,
    p: VariableView,
    before: Seq<char>,
    whole: Seq<char>,
    indent: Seq<char>,
)
    ensures
        svd::changed_line(line, Seq::empty(), 0) == Some((line, Seq::<Seq<char>>::empty())),
        ({
            let found = patterns::regex_captures_of(
                "^(\\s*)<"@ + p.name + ">.*?</"@ + p.name + ">\\s*$"@,
                line,
            );
            let changed = svd::changed_line(line, seq![p], 1);
            &&& found == Some(Seq::<CapturedView>::empty()) ==> changed == Some(
                (line, Seq::<Seq<char>>::empty()),
            )
            &&& found == Some(seq![CapturedView { before, groups: seq![whole, indent] }])
                ==> changed == Some(
                (
                    indent + ("<"@ + p.name + ">"@ + p.value + "</"@ + p.name + ">"@),
                    seq![p.name],
                ),
            )
            &&& found is None ==> changed is None
        }),
{
    reveal_with_fuel(svd::changed_line, 2);
    let found = seq![CapturedView { before, groups: seq![whole, indent] }];
    assert(found[0].groups.len() == 2);
    assert(Seq::<Seq<char>>::empty().push(p.name) =~= seq![p.name]);
}

/// Lines from one on, each ended.
pub open spec fn ended_lines(lines: Seq<Seq<char>>, i: int) -> Seq<char>
    decreases lines.len() - i,
{
    if i < 0 || i >= lines.len() {
        Seq::empty()
    } else {
        lines[i] + "\n"@ + ended_lines(lines, i + 1)
    }
}

/// Without patches all lines stay as they are.
pub proof fn law_no_patches(
    lines: Seq<Seq<char>>,
    i: int,
    s: PatchState,
    done: Seq<char>,
)
    requires
        0 <= i <= lines.len(),
        s.active is None,
        forall|k: int| i <= k < lines.len() ==> svd::read_line_of(#[trigger] lines[k]) is Some,
    ensures
        svd::patched_from(lines, i, Seq::<PeripheralPatchView>::empty(), s, done) == Some(
            done + ended_lines(lines, i),
        ),
    decreases lines.len() - i,
{
    let none = Seq::<PeripheralPatchView>::empty();
    if i < lines.len() {
        let kind = svd::read_line_of(lines[i])->0;
        let next = svd::after_line(s, none, kind);
        assert(next.active is None);
        let then = PatchState { seen: next.seen + Seq::<Seq<char>>::empty(), ..next };
        let more = done + svd::lines_before(s, kind) + (lines[i] + "\n"@);
        law_no_patches(lines, i + 1, then, more);
        assert(more + ended_lines(lines, i + 1) =~= done + ended_lines(lines, i));
    } else {
        assert(done + ended_lines(lines, i) =~= done);
    }
}

/// A number of blanks.
pub open spec fn blanks(n: int) -> Seq<char> {
    Seq::new(
        if n > 0 {
            n as nat
        } else {
            0
        },
        |i: int| ' ',
    )
}

proof fn lemma_aligned(s: Seq<char>, width: int)
    requires
        width >= 0,
    ensures
        inspect::right_aligned(s, width) == blanks(width - s.len()) + s,
        inspect::left_aligned(s, width) == s + blanks(width - s.len()),
{
    tool_laws::law_alignment(s, width, 0);
    let right = inspect::right_aligned(s, width);
    let left = inspect::left_aligned(s, width);
    let n = right.len() - s.len();
    assert forall|i: int| 0 <= i < right.len() implies right[i] == (blanks(width - s.len()) + s)[i] by {
        tool_laws::law_alignment(s, width, i);
        if i >= n {
            assert(right.skip(n)[i - n] == right[i]);
        }
    }
    assert(right =~= blanks(width - s.len()) + s);
    assert forall|i: int| 0 <= i < left.len() implies left[i] == (s + blanks(width - s.len()))[i] by {
        tool_laws::law_alignment(s, width, i);
        if i < s.len() {
            assert(left.take(s.len() as int)[i] == left[i]);
        }
    }
    assert(left =~= s + blanks(width - s.len()));
}

/// The line of an event gives its time, its kind, what it is about and its value, in columns.
pub proof fn law_event_lines(e: TraceEvent)
    ensures
        ({
            let at = text::decimal(e.timestamp_ns as nat);
            let value = text::decimal(e.value as nat);
            let kind = if e.kind == 0 {
                "CPU_STATE"@
            } else if e.kind == 1 {
                "IRQ"@
            } else if e.kind == 2 {
                "PERIPHERAL"@
            } else {
                "UNKNOWN"@
            };
            let about = inspect::subject_of(e.kind, e.id, e.device_name@);
            inspect::event_line_of(e) == "["@ + (blanks(15 - at.len()) + at) + "] "@ + (kind
                + blanks(10 - kind.len())) + " "@ + (about + " val="@ + (blanks(3 - value.len())
                + value))
        }),
{
    lemma_aligned(text::decimal(e.timestamp_ns as nat), 15);
    lemma_aligned(text::decimal(e.value as nat), 3);
    lemma_aligned(inspect::kind_name(e.kind), 10);
}

/// References are mended wherever they stand in a schema, and all else stays: in a list each item is
/// mended, in an object each member under its name, and a text only under the name of a reference.
pub proof fn law_mended_references(
    list: Seq<JsonView>,
    members: Seq<(Seq<char>, JsonView)>,
    i: int,
    k: int,
    s: Seq<char>,
)
    requires
        0 <= i < list.len(),
        0 <= k < members.len(),
    ensures
        ({
            let items = schema::fixed_refs(JsonView::List(list));
            &&& items is List
            &&& items->List_0.len() == list.len()
            &&& items->List_0[i] == schema::fixed_refs(list[i])
        }),
        ({
            let object = schema::fixed_refs(JsonView::Object(members));
            let (name, was) = members[k];
            &&& object is Object
            &&& object->Object_0.len() == members.len()
            &&& object->Object_0[k].0 == name
            &&& !(was is Text) ==> object->Object_0[k].1 == schema::fixed_refs(was)
            &&& was == JsonView::Text(s) && name == "$ref"@ ==> object->Object_0[k].1
                == JsonView::Text(schema::fixed_ref(s))
            &&& was is Text && name != "$ref"@ ==> object->Object_0[k].1 == was
        }),
        schema::fixed_refs(JsonView::Text(s)) == JsonView::Text(s),
        schema::fixed_refs(JsonView::Null) == JsonView::Null,
{
}

/// A register is patched with the properties of the last patch that names it and its peripheral, each
/// with the value that it has last.
pub proof fn law_properties_of_a_register(
    patches: Seq<PeripheralPatchView>,
    registers: Seq<RegisterPatchView>,
    props: Seq<VariableView>,
    peripheral: Seq<char>,
    register: Seq<char>,
    k: int,
)
    requires
        svd::peripheral_named(patches, peripheral, patches.len() as int) == Some(registers),
        svd::register_named(registers, register, registers.len() as int) == Some(props),
        0 <= k < props.len(),
        forall|j: int| k < j < props.len() ==> (#[trigger] props[j]).name != props[k].name,
    ensures
        ({
            let all = svd::props_of(patches, peripheral, register);
            &&& all is Some
            &&& variables::distinct(all->0)
            &&& variables::value_of(all->0, props[k].name) == Some(props[k].value)
        }),
{
    runner_laws::law_with_all(Seq::empty(), props, 0, k, props[k].name);
}

/// A member is mended as it is in its object.
pub proof fn law_mended_members(name: Seq<char>, j: JsonView, s: Seq<char>)
    ensures
        j == JsonView::Text(s) && name == "$ref"@ ==> schema::fixed_member(name, j)
            == JsonView::Text(schema::fixed_ref(s)),
        j is Text && name != "$ref"@ ==> schema::fixed_member(name, j) == j,
        !(j is Text) ==> schema::fixed_member(name, j) == schema::fixed_refs(j),
{
}

} // verus!
