//! What holds of the tools around a simulation.
use vstd::prelude::*;

use crate::deterministic_coordinator::frame_laws as wire_laws;
use crate::json::JsonView;
use crate::test_runner::variables;
use crate::test_runner::variables::VariableView;
use crate::text;
use crate::text_laws;
use crate::virtmcu_cli::inspect;
use crate::virtmcu_cli::inspect::{AdapterRequest, ListedObjectView};
use crate::virtmcu_cli::patch_file;
use crate::virtmcu_cli::patch_file::{EntryView, YamlView};
use crate::virtmcu_cli::schema;
use crate::virtmcu_cli::setup;
use crate::virtmcu_cli::source_patch;
use crate::virtmcu_cli::source_patch::Edit;
use crate::virtmcu_cli::source_texts;
use crate::virtmcu_cli::svd;
use crate::virtmcu_cli::svd::{PatchState, PeripheralPatchView, RegisterPatchView, SvdLineView};
use crate::wire;

verus! {

/// An aligned text is at least as long as the width, holds the text on its side, and blanks
/// otherwise; a text that is long enough stays as it is.
pub proof fn law_alignment(s: Seq<char>, width: int, i: int)
    requires
        width >= 0,
    ensures
        ({
            let right = inspect::right_aligned(s, width);
            let left = inspect::left_aligned(s, width);
            let n = if s.len() >= width {
                s.len() as int
            } else {
                width
            };
            &&& right.len() == n && left.len() == n
            &&& right.skip(n - s.len()) == s
            &&& left.take(s.len() as int) == s
            &&& 0 <= i < n - s.len() ==> right[i] == ' '
            &&& s.len() <= i < n ==> left[i] == ' '
            &&& s.len() >= width ==> right == s && left == s
        }),
{
    let right = inspect::right_aligned(s, width);
    let left = inspect::left_aligned(s, width);
    assert(right.skip(right.len() - s.len()) =~= s);
    assert(left.take(s.len() as int) =~= s);
    if s.len() >= width {
        assert(right =~= s);
        assert(left =~= s);
    }
}

/// What an event is about: a processor or a thing by its number, an interrupt by its slot and its
/// pin, and by its device if that is known.
pub proof fn law_subjects(id: u32, slot: u16, pin: u16, device: Seq<char>, kind: i8)
    ensures
        inspect::subject_of(0, id, device) == "cpu="@ + text::decimal(id as nat),
        kind != 0 && kind != 1 ==> inspect::subject_of(kind, id, device) == "id="@ + text::decimal(
            id as nat,
        ),
        ({
            let irq = (slot * 0x1_0000 + pin) as u32;
            let place = "slot="@ + inspect::right_aligned(text::decimal(slot as nat), 2) + " pin="@
                + inspect::right_aligned(text::decimal(pin as nat), 2);
            &&& inspect::subject_of(1, irq, Seq::empty()) == place
            &&& device.len() > 0 ==> inspect::subject_of(1, irq, device) == place + (" ("@ + device
                + ")"@)
        }),
        inspect::kind_name(0) == "CPU_STATE"@,
        inspect::kind_name(1) == "IRQ"@,
        inspect::kind_name(2) == "PERIPHERAL"@,
        kind != 0 && kind != 1 && kind != 2 ==> inspect::kind_name(kind) == "UNKNOWN"@,
{
    let irq = (slot * 0x1_0000 + pin) as u32;
    assert(irq == slot * 0x1_0000 + pin);
    assert(irq / 0x1_0000 == slot && irq % 0x1_0000 == pin);
}

/// A request is read as it was written: its kind, its size, its time, its address and its data; the
/// eight bytes between size and time are not looked at. Fewer bytes are no request.
pub proof fn law_request_reads_back(q: AdapterRequest, between: Seq<u8>, rest: Seq<u8>, cut: Seq<u8>)
    requires
        between.len() == 8,
        cut.len() < 40,
    ensures
        inspect::request_of(
            wire::le_bytes(q.kind as nat, 4) + wire::le_bytes(q.size as nat, 4) + between
                + wire::le_bytes(q.vtime_ns as nat, 8) + wire::le_bytes(q.addr as nat, 8)
                + wire::le_bytes(q.data as nat, 8) + rest,
        ) == Some(q),
        inspect::request_of(cut) is None,
{
    let a = wire::le_bytes(q.kind as nat, 4);
    let b = wire::le_bytes(q.size as nat, 4);
    let c = wire::le_bytes(q.vtime_ns as nat, 8);
    let d = wire::le_bytes(q.addr as nat, 8);
    let e = wire::le_bytes(q.data as nat, 8);
    let bytes = a + b + between + c + d + e + rest;
    wire_laws::lemma_byte_ranges();
    wire_laws::lemma_number_in(Seq::empty(), q.kind as nat, 4, b + between + c + d + e + rest);
    assert(Seq::<u8>::empty() + a + (b + between + c + d + e + rest) =~= bytes);
    wire_laws::lemma_number_in(a, q.size as nat, 4, between + c + d + e + rest);
    assert(a + b + (between + c + d + e + rest) =~= bytes);
    wire_laws::lemma_number_in(a + b + between, q.vtime_ns as nat, 8, d + e + rest);
    assert((a + b + between) + c + (d + e + rest) =~= bytes);
    wire_laws::lemma_number_in(a + b + between + c, q.addr as nat, 8, e + rest);
    assert((a + b + between + c) + d + (e + rest) =~= bytes);
    wire_laws::lemma_number_in(a + b + between + c + d, q.data as nat, 8, rest);
    assert((a + b + between + c + d) + e + rest =~= bytes);
}

/// A child's path has one part more than its parent's; below the root it is the only one.
pub proof fn law_child_paths(path: Seq<char>, name: Seq<char>)
    requires
        text_laws::lacks(name, '/'),
        path != "/"@,
    ensures
        text::split_on(inspect::child_path_of(path, name), '/') == text::split_on(path, '/').push(
            name,
        ),
        inspect::child_path_of("/"@, name) == "/"@ + name,
{
    reveal_strlit("/");
    text_laws::law_split_of_one(name, '/');
    text_laws::lemma_split_concat(path, '/', name);
    assert(inspect::child_path_of(path, name) =~= path + seq!['/'] + name);
    assert(text::split_on(path, '/') + seq![name] =~= text::split_on(path, '/').push(name));
}

/// The deeper an object, the further in: two blanks for each step.
pub proof fn law_indent(depth: nat)
    ensures
        inspect::indent_of(depth).len() == 2 * depth,
        forall|i: int| 0 <= i < 2 * depth ==> #[trigger] inspect::indent_of(depth)[i] == ' ',
    decreases depth,
{
    reveal_strlit("  ");
    if depth > 0 {
        law_indent((depth - 1) as nat);
        let front = inspect::indent_of((depth - 1) as nat);
        assert forall|i: int| 0 <= i < 2 * depth implies #[trigger] inspect::indent_of(depth)[i]
            == ' ' by {
            if i < front.len() {
                assert(inspect::indent_of(depth)[i] == front[i]);
            } else {
                assert(inspect::indent_of(depth)[i] == "  "@[i - front.len()]);
            }
        }
    }
}

proof fn lemma_value_from(members: Seq<(Seq<char>, JsonView)>, name: Seq<char>, i: int, k: int)
    requires
        0 <= i <= k <= members.len(),
        k < members.len() ==> members[k].0 == name,
        forall|j: int| i <= j < k ==> (#[trigger] members[j]).0 != name,
    ensures
        inspect::value_from(members, name, i) == if k < members.len() {
            Some(members[k].1)
        } else {
            None
        },
    decreases k - i,
{
    if i < k {
        assert(members[i].0 != name);
        lemma_value_from(members, name, i + 1, k);
    }
}

/// A member of an object is the first that has the name; what is no object has no members.
pub proof fn law_members(members: Seq<(Seq<char>, JsonView)>, name: Seq<char>, k: int)
    requires
        0 <= k <= members.len(),
        k < members.len() ==> members[k].0 == name,
        forall|j: int| 0 <= j < k ==> (#[trigger] members[j]).0 != name,
    ensures
        inspect::member(JsonView::Object(members), name) == if k < members.len() {
            Some(members[k].1)
        } else {
            None
        },
        inspect::member(JsonView::Null, name) is None,
        inspect::member(JsonView::Text(name), name) is None,
        inspect::member(JsonView::List(Seq::empty()), name) is None,
{
    lemma_value_from(members, name, 0, k);
}

/// An object as the emulator lists it.
pub open spec fn listed_json(o: ListedObjectView) -> JsonView {
    JsonView::Object(seq![("name"@, JsonView::Text(o.name)), ("type"@, JsonView::Text(o.kind))])
}

proof fn lemma_objects_in(objects: Seq<ListedObjectView>, n: int)
    requires
        0 <= n <= objects.len(),
    ensures
        inspect::objects_in(
            Seq::new(objects.len(), |i: int| listed_json(objects[i])),
            n,
        ) == objects.take(n),
    decreases n,
{
    let items = Seq::new(objects.len(), |i: int| listed_json(objects[i]));
    if n > 0 {
        lemma_objects_in(objects, n - 1);
        let o = objects[n - 1];
        let members = seq![("name"@, JsonView::Text(o.name)), ("type"@, JsonView::Text(o.kind))];
        reveal_strlit("name");
        reveal_strlit("type");
        assert("name"@[0] == 'n' && "type"@[0] == 't');
        assert(items[n - 1] == JsonView::Object(members));
        lemma_value_from(members, "name"@, 0, 0);
        lemma_value_from(members, "type"@, 0, 1);
        assert(objects.take(n - 1).push(o) =~= objects.take(n));
    } else {
        assert(objects.take(0) =~= Seq::empty());
    }
}

/// All objects in an answer are listed, in order, with their names and kinds.
pub proof fn law_listed_objects(objects: Seq<ListedObjectView>)
    ensures
        inspect::listed(
            JsonView::Object(
                seq![
                    (
                        "return"@,
                        JsonView::List(Seq::new(objects.len(), |i: int| listed_json(objects[i]))),
                    ),
                ],
            ),
        ) == objects,
        inspect::listed(JsonView::Object(Seq::empty())).len() == 0,
        inspect::listed(JsonView::Null).len() == 0,
{
    let items = Seq::new(objects.len(), |i: int| listed_json(objects[i]));
    let members = seq![("return"@, JsonView::List(items))];
    lemma_value_from(members, "return"@, 0, 0);
    lemma_objects_in(objects, objects.len() as int);
    assert(objects.take(objects.len() as int) =~= objects);
}

/// A line that sets a value gives the name and the value, without the white space around them, for
/// every value, be there an equals sign in it or not. Comments and lines without one give nothing.
pub proof fn law_setting_reads_back(
    a: Seq<char>,
    name: Seq<char>,
    b: Seq<char>,
    c: Seq<char>,
    value: Seq<char>,
    d: Seq<char>,
)
    requires
        text_laws::is_blank(a),
        text_laws::is_blank(b),
        text_laws::is_blank(c),
        text_laws::is_blank(d),
        text_laws::is_word(name),
        text_laws::lacks(name, '='),
        name[0] != '#',
        value.len() > 0 ==> !text::is_white(value[0]) && !text::is_white(value.last()),
    ensures
        setup::setting_of((a + name + b) + seq!['='] + (c + value + d)) == Some((name, value)),
        setup::setting_of(seq!['#'] + value) is None,
        text_laws::lacks(value, '=') ==> setup::setting_of(value) is None,
{
    let left = a + name + b;
    let right = c + value + d;
    let line = left + seq!['='] + right;
    assert('=' as u32 == 61 && '#' as u32 == 35);
    assert(text_laws::lacks(left, '=')) by {
        assert forall|i: int| 0 <= i < left.len() implies #[trigger] left[i] != '=' by {
            if i < a.len() {
                assert(left[i] == a[i]);
                assert(text::is_white(a[i]));
            } else if i < a.len() + name.len() {
                assert(left[i] == name[i - a.len()]);
            } else {
                assert(left[i] == b[i - a.len() - name.len()]);
                assert(text::is_white(b[i - a.len() - name.len()]));
            }
        }
    }
    let at = text::next_char(line, '=', 0);
    text::lemma_next_char(line, '=', 0);
    assert(line[left.len() as int] == '=');
    assert(at <= left.len()) by {
        if at > left.len() {
            assert(line[left.len() as int] != '=');
        }
    }
    assert(at == left.len()) by {
        if at < left.len() {
            assert(line[at] == left[at]);
        }
    }
    assert(line.take(at) =~= left);
    assert(line.skip(at + 1) =~= right);
    assert(line[0] != '#') by {
        if a.len() > 0 {
            assert(line[0] == a[0]);
            assert(text::is_white(a[0]));
        } else {
            assert(line[0] == name[0]);
        }
    }
    assert(!text::is_white(name[0]) && !text::is_white(name[name.len() - 1]));
    text_laws::law_trimmed(a, name, b);
    text_laws::law_trimmed(c, value, d);
    assert((seq!['#'] + value)[0] == '#');
    if text_laws::lacks(value, '=') {
        text::lemma_next_char(value, '=', 0);
    }
}

/// Of lines that set one name the last counts, and lines that set nothing change nothing.
pub proof fn law_last_setting_counts(
    lines: Seq<Seq<char>>,
    line: Seq<char>,
    name: Seq<char>,
    value: Seq<char>,
    other: Seq<char>,
)
    ensures
        ({
            let n = lines.len() as int;
            let before = setup::settings_of(lines, n);
            let then = setup::settings_of(lines.push(line), n + 1);
            &&& setup::setting_of(line) == Some((name, value)) ==> variables::value_of(then, name)
                == Some(value)
            &&& setup::setting_of(line) == Some((name, value)) && other != name
                ==> variables::value_of(then, other) == variables::value_of(before, other)
            &&& setup::setting_of(line) is None ==> then == before
        }),
{
    let n = lines.len() as int;
    lemma_settings_prefix(lines, line, n);
    lemma_settings_distinct(lines, n);
    variables::law_set_variable(setup::settings_of(lines, n), name, value, other);
}

proof fn lemma_settings_prefix(lines: Seq<Seq<char>>, line: Seq<char>, n: int)
    requires
        0 <= n <= lines.len(),
    ensures
        setup::settings_of(lines.push(line), n) == setup::settings_of(lines, n),
    decreases n,
{
    if n > 0 {
        lemma_settings_prefix(lines, line, n - 1);
        assert(lines.push(line)[n - 1] == lines[n - 1]);
    }
}

proof fn lemma_settings_distinct(lines: Seq<Seq<char>>, n: int)
    requires
        0 <= n <= lines.len(),
    ensures
        variables::distinct(setup::settings_of(lines, n)),
    decreases n,
{
    if n > 0 {
        lemma_settings_distinct(lines, n - 1);
        match setup::setting_of(lines[n - 1]) {
            Some(s) => {
                variables::law_set_variable(
                    setup::settings_of(lines, n - 1),
                    s.0,
                    s.1,
                    s.0,
                );
            },
            None => {},
        }
    }
}

/// A version gets the letter of its tag once.
pub proof fn law_tags(version: Seq<char>)
    ensures
        ({
            let tag = setup::tag_of(version);
            &&& tag.len() > 0 && tag[0] == 'v'
            &&& setup::tag_of(tag) == tag
            &&& version.len() > 0 && version[0] == 'v' ==> tag == version
            &&& version.len() == 0 || version[0] != 'v' ==> tag == seq!['v'] + version
        }),
{
    reveal_strlit("v");
    assert("v"@ =~= seq!['v']);
    assert(("v"@ + version)[0] == 'v');
}

/// A version is the one that is set, else the one that is usual.
pub proof fn law_versions(
    deps: Seq<VariableView>,
    name: Seq<char>,
    value: Seq<char>,
    usual: Seq<char>,
)
    requires
        variables::distinct(deps),
    ensures
        setup::version_or(variables::with_value(deps, name, value), name, usual) == value,
        setup::version_or(Seq::empty(), name, usual) == usual,
{
    variables::law_set_variable(deps, name, value, name);
}

/// The transport is configured from its path into its build directory, with the sanitizers' flags
/// at the end if and only if they are asked for; so is the emulator.
pub proof fn law_configurations(path: Seq<char>, dir: Seq<char>, arch: Seq<char>)
    ensures
        ({
            let plain = setup::transport_args_of(path, dir, false);
            let checked = setup::transport_args_of(path, dir, true);
            &&& plain.len() == 6 && plain[0] == "-S"@ && plain[1] == path && plain[2] == "-B"@
                && plain[3] == dir && plain[4] == "-DCMAKE_BUILD_TYPE=Release"@ && plain[5]
                == "-DZENOHC_BUILD_WITH_SHARED_MEMORY=OFF"@
            &&& checked.len() == 8 && checked.take(6) == plain
            &&& checked[6] == "-DCMAKE_SHARED_LINKER_FLAGS=-fsanitize=address -fsanitize=undefined"@
            &&& checked[7] == "-DCMAKE_EXE_LINKER_FLAGS=-fsanitize=address -fsanitize=undefined"@
        }),
        ({
            let plain = setup::emulator_args_of(dir, arch, false);
            let checked = setup::emulator_args_of(dir, arch, true);
            &&& plain.len() == 12 && plain[0] == "--prefix="@ + dir + "/install"@ && plain[1]
                == "--target-list="@ + arch + "-softmmu,riscv32-softmmu,riscv64-softmmu"@
            &&& checked.len() == 15 && checked.take(12) == plain
            &&& checked[12] == "--enable-asan"@ && checked[13] == "--enable-ubsan"@ && checked[14]
                == "-Db_sanitize=address,undefined"@
        }),
        setup::emulator_dir_of(true, false) == "build-virtmcu-asan"@,
        setup::emulator_dir_of(true, true) == "build-virtmcu-asan"@,
        setup::emulator_dir_of(false, true) == "build-virtmcu-tsan"@,
        setup::emulator_dir_of(false, false) == "build-virtmcu"@,
{
    assert(setup::transport_args_of(path, dir, true).take(6) =~= setup::transport_args_of(
        path,
        dir,
        false,
    ));
    assert(setup::emulator_args_of(dir, arch, true).take(12) =~= setup::emulator_args_of(
        dir,
        arch,
        false,
    ));
}

/// A patch replaces the first place that it is for and nothing else; a file that was patched, or
/// that has no such place, stays as it is.
pub proof fn law_patch(a: Seq<char>, marker: Seq<char>, b: Seq<char>, replacement: Seq<char>)
    requires
        marker.len() > 0,
        forall|j: int| 0 <= j < a.len() ==> !#[trigger] text::stands_at(a + marker + b, marker, j),
    ensures
        ({
            let content = a + marker + b;
            let marked = text::occurs(content, "virtmcu-patch"@) || text::occurs(
                content,
                replacement,
            );
            &&& !marked ==> source_patch::patched(content, marker, replacement) == a + replacement
                + b
            &&& marked ==> source_patch::patched(content, marker, replacement) == content
        }),
        !text::occurs(b, marker) ==> source_patch::patched(b, marker, replacement) == b,
{
    text_laws::law_first_occurrence(a, marker, b, replacement);
    if !text::occurs(b, marker) {
        text_laws::law_no_occurrence(b, marker, replacement);
    }
}

/// Edits are made one after the other, each on what the one before left.
pub proof fn law_edits_in_turn(content: Seq<char>, first: Edit, more: Seq<Edit>)
    ensures
        source_patch::edited_from(content, seq![first] + more, 0) == source_patch::edited_from(
            source_patch::edited(content, first),
            more,
            0,
        ),
        source_patch::edited_from(content, Seq::empty(), 0) == content,
{
    let all = seq![first] + more;
    lemma_edits_shift(source_patch::edited(content, first), first, more, 0);
    assert(all[0] == first);
}

proof fn lemma_edits_shift(content: Seq<char>, first: Edit, more: Seq<Edit>, i: int)
    requires
        0 <= i <= more.len(),
    ensures
        source_patch::edited_from(content, seq![first] + more, i + 1)
            == source_patch::edited_from(content, more, i),
    decreases more.len() - i,
{
    let all = seq![first] + more;
    if i < more.len() {
        assert(all[i + 1] == more[i]);
        lemma_edits_shift(source_patch::edited(content, more[i]), first, more, i + 1);
    }
}

/// An insertion is made where its place is, unless what it brings is there.
pub proof fn law_edit_kinds(
    content: Seq<char>,
    unless: &'static str,
    at: &'static str,
    to: &'static str,
)
    ensures
        text::occurs(content, unless@) ==> source_patch::edited(
            content,
            Edit::Insert { unless, at, to },
        ) == content,
        !text::occurs(content, unless@) ==> source_patch::edited(
            content,
            Edit::Insert { unless, at, to },
        ) == source_patch::edited(content, Edit::Replace { from: at, to }),
        source_patch::edited(content, Edit::Replace { from: at, to }) == text::replaced(
            content,
            at@,
            to@,
        ),
        source_patch::edited(content, Edit::Patch { marker: at, replacement: to })
            == source_patch::patched(content, at@, to@),
{
}

/// The directory is added to a build file once.
pub proof fn law_subdir_is_added_once(content: Seq<char>)
    ensures
        ({
            let then = source_patch::with_subdir_of(content);
            &&& text::occurs(then, "subdir('virtmcu')"@)
            &&& source_patch::with_subdir_of(then) == then
            &&& text::has_prefix(then, content)
            &&& text::occurs(content, "subdir('virtmcu')"@) ==> then == content
            &&& !text::occurs(content, "subdir('virtmcu')"@) ==> then == content + seq!['\n']
                + "subdir('virtmcu')"@ + seq!['\n']
        }),
{
    let p = "subdir('virtmcu')"@;
    let then = source_patch::with_subdir_of(content);
    reveal_strlit("\n");
    assert("\n"@ =~= seq!['\n']);
    if !text::occurs(content, p) {
        let at = (content.len() + 1) as int;
        assert(then.subrange(at, at + p.len()) =~= p);
        assert(text::stands_at(then, p, at));
        text_laws::law_prefix_and_suffix(seq!['\n'] + p + seq!['\n'], content);
        assert(then =~= content + (seq!['\n'] + p + seq!['\n']));
    } else {
        text_laws::law_prefix_and_suffix(Seq::empty(), content);
        assert(content + Seq::<char>::empty() =~= content);
    }
}

/// A reference within a document stays; one to another document is to the part of that name, and
/// is then within the document.
pub proof fn law_references(s: Seq<char>, name: Seq<char>)
    requires
        !text::occurs(name, ".yaml"@),
        !text::occurs(name, ".json"@),
        name.len() == 0 || name[0] != '#',
    ensures
        schema::fixed_ref(seq!['#'] + s) == seq!['#'] + s,
        schema::fixed_ref(name) == "#/$defs/"@ + name,
        schema::fixed_ref(s).len() > 0 && schema::fixed_ref(s)[0] == '#',
        schema::fixed_ref(schema::fixed_ref(s)) == schema::fixed_ref(s),
{
    reveal_strlit("#/$defs/");
    assert((seq!['#'] + s)[0] == '#');
    text_laws::law_no_occurrence(name, ".yaml"@, ""@);
    text_laws::law_no_occurrence(name, ".json"@, ""@);
    let tail = text::replaced(text::replaced(s, ".yaml"@, ""@), ".json"@, ""@);
    assert(("#/$defs/"@ + tail)[0] == '#');
}

/// A reference to a file is to the part with its name, without the ending.
pub proof fn law_references_to_files(stem: Seq<char>)
    requires
        stem.len() > 0,
        stem[0] != '#',
        text_laws::lacks(stem, '.'),
    ensures
        schema::fixed_ref(stem + ".yaml"@) == "#/$defs/"@ + stem,
        schema::fixed_ref(stem + ".json"@) == "#/$defs/"@ + stem,
{
    reveal_strlit(".yaml");
    reveal_strlit(".json");
    reveal_strlit("");
    assert(""@ =~= Seq::<char>::empty());
    lemma_no_dot(stem, ".yaml"@);
    lemma_no_dot(stem, ".json"@);
    lemma_cut_ending(stem, ".yaml"@);
    lemma_cut_ending(stem, ".json"@);
    text_laws::law_no_occurrence(stem, ".json"@, ""@);
    let other = stem + ".json"@;
    assert(!text::occurs(other, ".yaml"@)) by {
        if text::occurs(other, ".yaml"@) {
            let i = choose|i: int| text::stands_at(other, ".yaml"@, i);
            assert(other.subrange(i, i + 5)[0] == other[i]);
            assert(other.subrange(i, i + 5)[1] == other[i + 1]);
            if i < stem.len() {
                assert(other[i] == stem[i]);
            } else {
                assert(i == stem.len());
                assert(other[i + 1] == ".json"@[1]);
            }
        }
    }
    text_laws::law_no_occurrence(other, ".yaml"@, ""@);
}

proof fn lemma_no_dot(stem: Seq<char>, ending: Seq<char>)
    requires
        text_laws::lacks(stem, '.'),
        ending.len() > 0,
        ending[0] == '.',
    ensures
        !text::occurs(stem, ending),
        forall|j: int|
            0 <= j < stem.len() ==> !#[trigger] text::stands_at(
                stem + ending + Seq::<char>::empty(),
                ending,
                j,
            ),
{
    if text::occurs(stem, ending) {
        let i = choose|i: int| text::stands_at(stem, ending, i);
        assert(stem.subrange(i, i + ending.len())[0] == stem[i]);
    }
    let all = stem + ending + Seq::<char>::empty();
    assert forall|j: int| 0 <= j < stem.len() implies !#[trigger] text::stands_at(
        all,
        ending,
        j,
    ) by {
        if text::stands_at(all, ending, j) {
            assert(all.subrange(j, j + ending.len())[0] == all[j]);
            assert(all[j] == stem[j]);
        }
    }
}

proof fn lemma_cut_ending(stem: Seq<char>, ending: Seq<char>)
    requires
        text_laws::lacks(stem, '.'),
        ending.len() > 0,
        ending[0] == '.',
    ensures
        text::replaced(stem + ending, ending, Seq::empty()) == stem,
{
    let none = Seq::<char>::empty();
    lemma_no_dot(stem, ending);
    text_laws::law_first_occurrence(stem, ending, none, none);
    assert(stem + ending + none =~= stem + ending);
    assert(!text::occurs(none, ending)) by {
        if text::occurs(none, ending) {
            let i = choose|i: int| text::stands_at(none, ending, i);
        }
    }
    text_laws::law_no_occurrence(none, ending, none);
    assert(stem + none + none =~= stem);
}

/// Exactly those generated files are stale that the status names.
pub proof fn law_stale_files(status: Seq<char>)
    ensures
        ({
            let stale = schema::stale_files_of(status);
            let a = text::occurs(status, schema::SCHEMA_FILE@);
            let b = text::occurs(status, schema::MODEL_FILE@);
            &&& a && b ==> stale == seq![schema::SCHEMA_FILE@, schema::MODEL_FILE@]
            &&& a && !b ==> stale == seq![schema::SCHEMA_FILE@]
            &&& !a && b ==> stale == seq![schema::MODEL_FILE@]
            &&& !a && !b ==> stale.len() == 0
        }),
{
    let stale = schema::stale_files_of(status);
    let a = text::occurs(status, schema::SCHEMA_FILE@);
    let b = text::occurs(status, schema::MODEL_FILE@);
    if a && b {
        assert(stale =~= seq![schema::SCHEMA_FILE@, schema::MODEL_FILE@]);
    } else if a {
        assert(stale =~= seq![schema::SCHEMA_FILE@]);
    } else if b {
        assert(stale =~= seq![schema::MODEL_FILE@]);
    }
}

/// The last patch for a peripheral counts, and in it the last for a register; a name that none has
/// finds nothing.
pub proof fn law_last_patch_counts(
    patches: Seq<PeripheralPatchView>,
    registers: Seq<RegisterPatchView>,
    name: Seq<char>,
    n: int,
    k: int,
)
    ensures
        0 <= k < n <= patches.len() && patches[k].name == name && (forall|j: int|
            k < j < n ==> (#[trigger] patches[j]).name != name) ==> svd::peripheral_named(
            patches,
            name,
            n,
        ) == Some(patches[k].registers),
        0 <= n <= patches.len() && (forall|j: int|
            0 <= j < n ==> (#[trigger] patches[j]).name != name) ==> svd::peripheral_named(
            patches,
            name,
            n,
        ) is None,
        0 <= k < n <= registers.len() && registers[k].name == name && (forall|j: int|
            k < j < n ==> (#[trigger] registers[j]).name != name) ==> svd::register_named(
            registers,
            name,
            n,
        ) == Some(registers[k].props),
        0 <= n <= registers.len() && (forall|j: int|
            0 <= j < n ==> (#[trigger] registers[j]).name != name) ==> svd::register_named(
            registers,
            name,
            n,
        ) is None,
    decreases n,
{
    if n > 0 {
        law_last_patch_counts(patches, registers, name, n - 1, k);
        if n <= patches.len() {
            assert(patches[n - 1].name == name || patches[n - 1].name != name);
        }
        if n <= registers.len() {
            assert(registers[n - 1].name == name || registers[n - 1].name != name);
        }
    }
}

/// A property that a register does not show yet is added on a line of its own, further in than the
/// register; one that it shows is not added again.
pub proof fn law_added_lines(
    props: Seq<VariableView>,
    p: VariableView,
    seen: Seq<Seq<char>>,
    indent: Seq<char>,
)
    ensures
        ({
            let n = props.len() as int;
            let before = svd::added_lines(props, seen, indent, n);
            let then = svd::added_lines(props.push(p), seen, indent, n + 1);
            &&& seen.contains(p.name) ==> then == before
            &&& !seen.contains(p.name) ==> then == before + "  "@ + indent + "<"@ + p.name + ">"@
                + p.value + "</"@ + p.name + ">"@ + "\n"@
        }),
{
    let n = props.len() as int;
    lemma_added_prefix(props, p, seen, indent, n);
    if !seen.contains(p.name) {
        assert(svd::added_lines(props.push(p), seen, indent, n + 1) =~= svd::added_lines(
            props,
            seen,
            indent,
            n,
        ) + "  "@ + indent + "<"@ + p.name + ">"@ + p.value + "</"@ + p.name + ">"@ + "\n"@);
    }
}

proof fn lemma_added_prefix(
    props: Seq<VariableView>,
    p: VariableView,
    seen: Seq<Seq<char>>,
    indent: Seq<char>,
    n: int,
)
    requires
        0 <= n <= props.len(),
    ensures
        svd::added_lines(props.push(p), seen, indent, n) == svd::added_lines(
            props,
            seen,
            indent,
            n,
        ),
    decreases n,
{
    if n > 0 {
        lemma_added_prefix(props, p, seen, indent, n - 1);
        assert(props.push(p)[n - 1] == props[n - 1]);
    }
}

/// Lines are added only at the end of a register that is patched.
pub proof fn law_where_lines_are_added(s: PatchState, line: SvdLineView)
    ensures
        !(line is RegisterEnd) || s.active is None ==> svd::lines_before(s, line).len() == 0,
        line is RegisterEnd && s.active is Some ==> svd::lines_before(s, line) == svd::added_lines(
            s.active->0,
            s.seen,
            s.indent,
            s.active->0.len() as int,
        ),
{
}

/// A register is patched from the line that names it to its end: where its peripheral and it have a
/// patch, and not otherwise. The end of a register or of a peripheral forgets it.
pub proof fn law_patch_states(
    s: PatchState,
    patches: Seq<PeripheralPatchView>,
    p: Seq<char>,
    name: Seq<char>,
    indent: Seq<char>,
)
    ensures
        ({
            let entered = svd::after_line(s, patches, SvdLineView::PeripheralStart);
            let named = svd::after_line(
                PatchState { in_register: false, ..entered },
                patches,
                SvdLineView::Name(p),
            );
            let register = svd::after_line(named, patches, SvdLineView::RegisterStart(indent));
            let found = svd::after_line(register, patches, SvdLineView::Name(name));
            let ended = svd::after_line(found, patches, SvdLineView::RegisterEnd);
            let left = svd::after_line(ended, patches, SvdLineView::PeripheralEnd);
            &&& named.peripheral == Some(p)
            &&& register.in_register && register.active is None && register.indent == indent
                && register.seen.len() == 0
            &&& found.active == svd::props_of(patches, p, name)
            &&& ended.active is None && !ended.in_register && ended.peripheral == Some(p)
            &&& left.peripheral is None
            &&& svd::after_line(s, patches, SvdLineView::Other) == s
        }),
{
}

/// A value of a patch file shows as it is written: texts as they are, whole numbers in base
/// sixteen, and those below zero with their sign. A mapping shows as nothing.
pub proof fn law_shown_values(s: Seq<char>, n: u64, m: i64, entries: Seq<EntryView>)
    requires
        m < 0,
    ensures
        patch_file::shown(YamlView::Text(s)) == Some(s),
        patch_file::shown(YamlView::Unsigned(n)) == Some("0x"@ + text::hex(n as nat)),
        text_laws::hex_value(text::hex(n as nat)) == n,
        patch_file::shown(YamlView::Negative(m)) == Some("-"@ + text::decimal((-m) as nat)),
        patch_file::shown(YamlView::Printed(s)) == Some(s),
        patch_file::shown(YamlView::Mapping(entries)) is None,
        patch_file::shown(YamlView::Other) is None,
{
    text_laws::law_hex_reads_back(n as nat);
}

/// A key finds the value of the first entry that has it and no tag.
pub proof fn law_yaml_keys(entries: Seq<EntryView>, name: Seq<char>, i: int, k: int)
    requires
        0 <= i <= k <= entries.len(),
        k < entries.len() ==> !entries[k].is_tagged && entries[k].key == Some(name),
        forall|j: int|
            i <= j < k ==> !(!(#[trigger] entries[j]).is_tagged && entries[j].key == Some(name)),
    ensures
        patch_file::value_from(entries, name, i) == if k < entries.len() {
            Some(entries[k].value)
        } else {
            None
        },
    decreases k - i,
{
    if i < k {
        assert(!(!entries[i].is_tagged && entries[i].key == Some(name)));
        law_yaml_keys(entries, name, i + 1, k);
    }
}

/// All entries of a register make properties, in order, if each has a value that shows; else there
/// are none at all.
pub proof fn law_yaml_properties(entries: Seq<EntryView>, n: int)
    requires
        0 <= n <= entries.len(),
    ensures
        patch_file::props_in(entries, n) is Some <==> forall|i: int|
            0 <= i < n ==> patch_file::shown((#[trigger] entries[i]).value) is Some,
        patch_file::props_in(entries, n) matches Some(props) ==> props.len() == n && forall|i: int|
            0 <= i < n ==> (#[trigger] props[i]).value == patch_file::shown(entries[i].value)->0
                && props[i].name == (if entries[i].key is Some {
                entries[i].key->0
            } else {
                Seq::empty()
            }),
    decreases n,
{
    if n > 0 {
        law_yaml_properties(entries, n - 1);
        if patch_file::props_in(entries, n) is Some {
            assert forall|i: int| 0 <= i < n implies patch_file::shown(
                (#[trigger] entries[i]).value,
            ) is Some by {
                assert(i < n - 1 || i == n - 1);
            }
        }
    }
}

/// All registers of a peripheral and all peripherals are read, in order, if each of them can be;
/// else none at all.
pub proof fn law_yaml_registers(entries: Seq<EntryView>, n: int)
    requires
        0 <= n <= entries.len(),
    ensures
        patch_file::registers_in(entries, n) is Some <==> forall|i: int|
            0 <= i < n ==> patch_file::register_props((#[trigger] entries[i]).value) is Some,
        patch_file::registers_in(entries, n) matches Some(list) ==> list.len() == n && forall|i: int|
            0 <= i < n ==> (#[trigger] list[i]).props == patch_file::register_props(
                entries[i].value,
            )->0 && list[i].name == patch_file::key_of(entries[i]),
        patch_file::peripherals_in(entries, n) is Some <==> forall|i: int|
            0 <= i < n ==> patch_file::peripheral_registers((#[trigger] entries[i]).value) is Some,
        patch_file::peripherals_in(entries, n) matches Some(list) ==> list.len() == n && forall|
            i: int,
        |
            0 <= i < n ==> (#[trigger] list[i]).registers == patch_file::peripheral_registers(
                entries[i].value,
            )->0 && list[i].name == patch_file::key_of(entries[i]),
    decreases n,
{
    if n > 0 {
        law_yaml_registers(entries, n - 1);
        if patch_file::registers_in(entries, n) is Some {
            assert forall|i: int| 0 <= i < n implies patch_file::register_props(
                (#[trigger] entries[i]).value,
            ) is Some by {
                assert(i < n - 1 || i == n - 1);
            }
        }
        if patch_file::peripherals_in(entries, n) is Some {
            assert forall|i: int| 0 <= i < n implies patch_file::peripheral_registers(
                (#[trigger] entries[i]).value,
            ) is Some by {
                assert(i < n - 1 || i == n - 1);
            }
        }
    }
}

/// A file with one register of one peripheral patches just that, with all its properties.
pub proof fn law_patch_file_reads_back(
    peripheral: Seq<char>,
    register: Seq<char>,
    entries: Seq<EntryView>,
)
    requires
        patch_file::props_in(entries, entries.len() as int) is Some,
    ensures
        ({
            let registers = YamlView::Mapping(
                seq![
                    EntryView {
                        key: Some(register),
                        is_tagged: false,
                        value: YamlView::Mapping(entries),
                    },
                ],
            );
            let body = YamlView::Mapping(
                seq![
                    EntryView { key: Some("registers"@), is_tagged: false, value: registers },
                ],
            );
            let peripherals = YamlView::Mapping(
                seq![EntryView { key: Some(peripheral), is_tagged: false, value: body }],
            );
            let file = YamlView::Mapping(
                seq![
                    EntryView { key: Some("peripherals"@), is_tagged: false, value: peripherals },
                ],
            );
            patch_file::patches_in(file) == Some(
                seq![
                    PeripheralPatchView {
                        name: peripheral,
                        registers: seq![
                            RegisterPatchView {
                                name: register,
                                props: patch_file::props_in(entries, entries.len() as int)->0,
                            },
                        ],
                    },
                ],
            )
        }),
        patch_file::patches_in(YamlView::Other) == Some(Seq::<PeripheralPatchView>::empty()),
{
    reveal_with_fuel(patch_file::registers_in, 3);
    reveal_with_fuel(patch_file::peripherals_in, 3);
    reveal_with_fuel(patch_file::value_from, 3);
    let props = patch_file::props_in(entries, entries.len() as int)->0;
    let r = RegisterPatchView { name: register, props };
    assert(Seq::<RegisterPatchView>::empty().push(r) =~= seq![r]);
    let p = PeripheralPatchView { name: peripheral, registers: seq![r] };
    assert(Seq::<PeripheralPatchView>::empty().push(p) =~= seq![p]);
}

} // verus!
