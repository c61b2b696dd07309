//! What holds of starting an emulator from the command line.
use vstd::prelude::*;

use crate::deterministic_coordinator::topology;
use crate::test_runner::launcher;
use crate::text;
use crate::text_laws;
use crate::virtmcu_run;
use crate::virtmcu_run::{DirFound, InputKind, RunView};

verus! {

/// If a kernel was asked for, the arguments hold the option for it directly followed by it, in
/// front of the extra arguments; they are otherwise those without a kernel. The extra arguments
/// stand unchanged at the end.
pub proof fn law_kernel_is_passed_on(r: RunView, machine: Seq<char>, dtb: Seq<char>, k: Seq<char>)
    ensures
        ({
            let with = virtmcu_run::emulator_args_of(
                RunView { kernel: Some(k), ..r },
                machine,
                dtb,
            );
            let without = virtmcu_run::emulator_args_of(
                RunView { kernel: None, ..r },
                machine,
                dtb,
            );
            let at = without.len() - r.extra.len();
            &&& with.len() == without.len() + 2
            &&& 0 <= at <= 4
            &&& with[at] == "-kernel"@
            &&& with[at + 1] == k
            &&& with.skip(at + 2) == r.extra
            &&& without.skip(at) == r.extra
            &&& with.take(at) == without.take(at)
            &&& machine != "-kernel"@ && dtb != "-kernel"@ && !r.extra.contains("-kernel"@)
                ==> !without.contains("-kernel"@)
        }),
{
    let with = virtmcu_run::emulator_args_of(RunView { kernel: Some(k), ..r }, machine, dtb);
    let without = virtmcu_run::emulator_args_of(RunView { kernel: None, ..r }, machine, dtb);
    let at = without.len() - r.extra.len();
    assert(with.skip(at + 2) =~= r.extra);
    assert(without.skip(at) =~= r.extra);
    assert(with.take(at) =~= without.take(at));
    if machine != "-kernel"@ && dtb != "-kernel"@ && !r.extra.contains("-kernel"@) {
        reveal_strlit("-kernel");
        reveal_strlit("-M");
        reveal_strlit("-dtb");
        reveal_strlit(",hw-dtb=");
        reveal_strlit("arm-generic-fdt");
        assert("-M"@.len() != "-kernel"@.len());
        assert("-dtb"@.len() != "-kernel"@.len());
        assert((machine + ",hw-dtb="@ + dtb).len() == machine.len() + 8 + dtb.len());
        assert forall|i: int| 0 <= i < without.len() implies #[trigger] without[i]
            != "-kernel"@ by {
            if i >= at {
                assert(without[i] == r.extra[i - at]);
            }
        }
    }
}

/// The machine is named first, with the device tree in the way that it takes one: the generic one
/// as a property, the others as an argument of its own. Without a machine there is neither.
pub proof fn law_machine_and_tree(r: RunView, machine: Seq<char>, dtb: Seq<char>)
    requires
        r.kernel is None,
    ensures
        ({
            let args = virtmcu_run::emulator_args_of(r, machine, dtb);
            let n = args.len() - r.extra.len();
            &&& machine.len() == 0 ==> n == 0
            &&& machine.len() > 0 ==> n >= 2 && args[0] == "-M"@
            &&& machine.len() > 0 && dtb.len() == 0 ==> n == 2 && args[1] == machine
            &&& machine.len() > 0 && dtb.len() > 0 && machine == "arm-generic-fdt"@ ==> n == 2
                && args[1] == machine + ",hw-dtb="@ + dtb
            &&& machine.len() > 0 && dtb.len() > 0 && machine != "arm-generic-fdt"@ ==> n == 4
                && args[1] == machine && args[2] == "-dtb"@ && args[3] == dtb
        }),
{
}

/// Arguments are read in turn: those in front say what is asked for when the others are read.
pub proof fn law_args_are_read_in_turn(a: Seq<Seq<char>>, b: Seq<Seq<char>>, r: RunView)
    ensures
        match virtmcu_run::read_from(a, 0, r) {
            Ok(then) => virtmcu_run::read_from(a + b, 0, r) == virtmcu_run::read_from(b, 0, then),
            Err(_) => true,
        },
{
    lemma_read_split(a, b, 0, r);
}

proof fn lemma_read_split(a: Seq<Seq<char>>, b: Seq<Seq<char>>, i: int, r: RunView)
    requires
        0 <= i <= a.len(),
    ensures
        match virtmcu_run::read_from(a, i, r) {
            Ok(then) => virtmcu_run::read_from(a + b, i, r) == virtmcu_run::read_from(b, 0, then),
            Err(_) => true,
        },
    decreases a.len() - i,
{
    let all = a + b;
    if i >= a.len() {
        lemma_read_shift(a, b, 0, r);
    } else {
        assert(all[i] == a[i]);
        if virtmcu_run::takes_value(a[i]) {
            if i + 1 < a.len() {
                assert(all[i + 1] == a[i + 1]);
                lemma_read_split(a, b, i + 2, virtmcu_run::with_option(r, a[i], a[i + 1]));
            }
        } else {
            lemma_read_split(a, b, i + 1, RunView { extra: r.extra.push(a[i]), ..r });
        }
    }
}

proof fn lemma_read_shift(a: Seq<Seq<char>>, b: Seq<Seq<char>>, i: int, r: RunView)
    requires
        0 <= i <= b.len(),
    ensures
        virtmcu_run::read_from(a + b, a.len() + i, r) == virtmcu_run::read_from(b, i, r),
    decreases b.len() - i,
{
    let all = a + b;
    if i < b.len() {
        assert(all[a.len() + i] == b[i]);
        if virtmcu_run::takes_value(b[i]) {
            if i + 1 < b.len() {
                assert(all[a.len() + i + 1] == b[i + 1]);
                lemma_read_shift(a, b, i + 2, virtmcu_run::with_option(r, b[i], b[i + 1]));
            }
        } else {
            lemma_read_shift(a, b, i + 1, RunView { extra: r.extra.push(b[i]), ..r });
        }
    }
}

/// Each option with its value sets the one thing that it names and nothing else.
pub proof fn law_option_sets_one_thing(r: RunView, value: Seq<char>)
    ensures
        virtmcu_run::read_from(seq!["--repl"@, value], 0, r) == Ok::<RunView, Seq<char>>(
            (RunView { input: Some((InputKind::Repl, value)), ..r }),
        ),
        virtmcu_run::read_from(seq!["--yaml"@, value], 0, r) == Ok::<RunView, Seq<char>>(
            (RunView { input: Some((InputKind::Yaml, value)), ..r }),
        ),
        virtmcu_run::read_from(seq!["--dts"@, value], 0, r) == Ok::<RunView, Seq<char>>(
            (RunView { input: Some((InputKind::Dts, value)), ..r }),
        ),
        virtmcu_run::read_from(seq!["--dtb"@, value], 0, r) == Ok::<RunView, Seq<char>>(
            (RunView { input: Some((InputKind::Dtb, value)), ..r }),
        ),
        virtmcu_run::read_from(seq!["--kernel"@, value], 0, r) == Ok::<RunView, Seq<char>>(
            (RunView { kernel: Some(value), ..r }),
        ),
        virtmcu_run::read_from(seq!["--machine"@, value], 0, r) == Ok::<RunView, Seq<char>>(
            (RunView { machine: Some(value), ..r }),
        ),
        virtmcu_run::read_from(seq!["--arch"@, value], 0, r) == Ok::<RunView, Seq<char>>(r),
{
    reveal_strlit("--repl");
    reveal_strlit("--yaml");
    reveal_strlit("--dts");
    reveal_strlit("--dtb");
    reveal_strlit("--kernel");
    reveal_strlit("--machine");
    reveal_strlit("--arch");
    reveal_with_fuel(virtmcu_run::read_from, 3);
    assert("--repl"@[2] == 'r' && "--yaml"@[2] == 'y' && "--dts"@[4] == 's' && "--dtb"@[4] == 'b'
        && "--kernel"@[2] == 'k' && "--machine"@[2] == 'm' && "--arch"@[2] == 'a' && "--dts"@[2]
        == 'd' && "--dtb"@[2] == 'd');
}

/// An argument that is no option is passed on behind those before it; an option at the end lacks
/// its value.
pub proof fn law_single_arguments(r: RunView, arg: Seq<char>)
    ensures
        virtmcu_run::read_from(seq![arg], 0, r) == if arg == "--repl"@ || arg == "--yaml"@ || arg
            == "--dts"@ || arg == "--dtb"@ || arg == "--kernel"@ || arg == "--machine"@ || arg
            == "--arch"@ {
            Err::<RunView, Seq<char>>(arg)
        } else {
            Ok::<RunView, Seq<char>>((RunView { extra: r.extra.push(arg), ..r }))
        },
        virtmcu_run::read_from(Seq::empty(), 0, r) == Ok::<RunView, Seq<char>>(r),
{
    reveal_with_fuel(virtmcu_run::read_from, 3);
}

/// The architecture is the one that the last option for it names, wherever that stands; if none is
/// named it is ARM.
pub proof fn law_architecture(args: Seq<Seq<char>>, i: int)
    ensures
        ({
            let asked = virtmcu_run::asked_at_start(args);
            &&& 0 <= i && i + 1 < args.len() && args[i] == "--arch"@ && (forall|j: int|
                i < j && j + 1 < args.len() ==> #[trigger] args[j] != "--arch"@) ==> asked.arch
                == args[i + 1] && asked.arch_explicit
            &&& (forall|j: int| 0 <= j && j + 1 < args.len() ==> #[trigger] args[j] != "--arch"@)
                ==> asked.arch == "arm"@ && !asked.arch_explicit
            &&& asked.machine is None && asked.kernel is None && asked.input is None
            &&& asked.extra.len() == 0
        }),
{
    if 0 <= i && i + 1 < args.len() && args[i] == "--arch"@ && (forall|j: int|
        i < j && j + 1 < args.len() ==> #[trigger] args[j] != "--arch"@) {
        lemma_named_arch(args, args.len() as int, i);
    }
    if forall|j: int| 0 <= j && j + 1 < args.len() ==> #[trigger] args[j] != "--arch"@ {
        lemma_no_arch(args, args.len() as int);
    }
}

proof fn lemma_named_arch(args: Seq<Seq<char>>, n: int, i: int)
    requires
        0 <= i < n <= args.len(),
        i + 1 < args.len(),
        args[i] == "--arch"@,
        forall|j: int| i < j && j + 1 < args.len() ==> #[trigger] args[j] != "--arch"@,
    ensures
        virtmcu_run::named_arch(args, n) == Some(args[i + 1]),
    decreases n,
{
    if n > i + 1 {
        assert(n < args.len() ==> args[n - 1] != "--arch"@);
        lemma_named_arch(args, n - 1, i);
    }
}

proof fn lemma_no_arch(args: Seq<Seq<char>>, n: int)
    requires
        0 <= n <= args.len(),
        forall|j: int| 0 <= j && j + 1 < args.len() ==> #[trigger] args[j] != "--arch"@,
    ensures
        virtmcu_run::named_arch(args, n) is None,
    decreases n,
{
    if n > 0 {
        assert(n < args.len() ==> args[n - 1] != "--arch"@);
        lemma_no_arch(args, n - 1);
    }
}

/// The ending of a file's name tells what it is, whatever it was said to be; a file with another
/// ending is what it was said to be.
pub proof fn law_endings_tell(said: InputKind, stem: Seq<char>, file: Seq<char>)
    ensures
        virtmcu_run::kind_of(said, stem + ".yaml"@) == InputKind::Yaml,
        virtmcu_run::kind_of(said, stem + ".yml"@) == InputKind::Yaml,
        virtmcu_run::kind_of(said, stem + ".dts"@) == InputKind::Dts,
        virtmcu_run::kind_of(said, stem + ".dtb"@) == InputKind::Dtb,
        file.len() > 0 && file.last() != 'l' && file.last() != 's' && file.last() != 'b'
            ==> virtmcu_run::kind_of(said, file) == said,
        !text::has_suffix(file, ".yaml"@) && !text::has_suffix(file, ".yml"@) && !text::has_suffix(
            file,
            ".dts"@,
        ) && !text::has_suffix(file, ".dtb"@) ==> virtmcu_run::kind_of(said, file) == said,
{
    reveal_strlit(".yaml");
    reveal_strlit(".yml");
    reveal_strlit(".dts");
    reveal_strlit(".dtb");
    text_laws::law_prefix_and_suffix(stem, ".yaml"@);
    text_laws::law_prefix_and_suffix(stem, ".yml"@);
    text_laws::law_prefix_and_suffix(stem, ".dts"@);
    text_laws::law_prefix_and_suffix(stem, ".dtb"@);
    lemma_last_of(stem + ".dts"@);
    lemma_last_of(stem + ".dtb"@);
    lemma_last_of(file);
}

proof fn lemma_last_of(s: Seq<char>)
    ensures
        text::has_suffix(s, ".yaml"@) ==> s.len() > 0 && s.last() == 'l',
        text::has_suffix(s, ".yml"@) ==> s.len() > 0 && s.last() == 'l',
        text::has_suffix(s, ".dts"@) ==> s.len() > 0 && s.last() == 's',
        text::has_suffix(s, ".dtb"@) ==> s.len() > 0 && s.last() == 'b',
{
    reveal_strlit(".yaml");
    reveal_strlit(".yml");
    reveal_strlit(".dts");
    reveal_strlit(".dtb");
    text_laws::law_prefix_and_suffix(s, ".yaml"@);
    text_laws::law_prefix_and_suffix(s, ".yml"@);
    text_laws::law_prefix_and_suffix(s, ".dts"@);
    text_laws::law_prefix_and_suffix(s, ".dtb"@);
}

/// The search path of Python lists the root, what was generated below it, and then all that was
/// listed before.
pub proof fn law_python_path_lists(root: Seq<char>, existing: Seq<char>)
    requires
        text_laws::lacks(root, ':'),
    ensures
        text::split_on(virtmcu_run::python_path_of(root, None), ':') == seq![
            root,
            root + "/generated"@,
        ],
        virtmcu_run::python_path_of(root, Some(Seq::empty())) == virtmcu_run::python_path_of(
            root,
            None,
        ),
        existing.len() > 0 ==> text::split_on(
            virtmcu_run::python_path_of(root, Some(existing)),
            ':',
        ) == seq![root, root + "/generated"@] + text::split_on(existing, ':'),
{
    let generated = root + "/generated"@;
    reveal_strlit(":");
    reveal_strlit("/generated");
    assert forall|i: int| 0 <= i < generated.len() implies #[trigger] generated[i] != ':' by {
        if i < root.len() {
            assert(generated[i] == root[i]);
        } else {
            assert(generated[i] == "/generated"@[i - root.len()]);
        }
    }
    assert(text_laws::lacks(generated, ':'));
    text_laws::law_split_of_one(generated, ':');
    text_laws::law_split_of_more(root, ':', generated);
    assert(virtmcu_run::python_path_of(root, None) =~= root + seq![':'] + generated);
    assert(seq![root] + seq![generated] =~= seq![root, generated]);
    text_laws::law_split_of_more(generated, ':', existing);
    text_laws::law_split_of_more(root, ':', generated + seq![':'] + existing);
    if existing.len() > 0 {
        assert(virtmcu_run::python_path_of(root, Some(existing)) =~= root + seq![':'] + (generated
            + seq![':'] + existing));
        assert(seq![root] + (seq![generated] + text::split_on(existing, ':')) =~= seq![
            root,
            generated,
        ] + text::split_on(existing, ':'));
    }
}

/// A description is turned into a device tree with each output directly behind its option, and
/// with a router behind its own if there is one.
pub proof fn law_generate_args(
    file: Seq<char>,
    dtb: Seq<char>,
    cli: Seq<char>,
    arch: Seq<char>,
    router: Option<Seq<char>>,
)
    ensures
        ({
            let args = virtmcu_run::generate_args_of(file, dtb, cli, arch, router);
            &&& args[0] == "platform"@ && args[1] == "generate"@ && args[2] == file
            &&& args[3] == "--out-dtb"@ && args[4] == dtb
            &&& args[5] == "--out-cli"@ && args[6] == cli
            &&& args[7] == "--out-arch"@ && args[8] == arch
            &&& router is None ==> args.len() == 9
            &&& router is Some ==> args.len() == 11 && args[9] == "--router"@ && args[10]
                == router->0
        }),
{
}

/// The text that lists arguments line by line.
pub open spec fn listed(args: Seq<Seq<char>>) -> Seq<char>
    decreases args.len(),
{
    if args.len() == 0 {
        Seq::empty()
    } else {
        args[0] + seq!['\n'] + listed(args.drop_first())
    }
}

/// A text that is one line, is not empty and has no white space at its ends.
pub open spec fn is_clean(s: Seq<char>) -> bool {
    s.len() > 0 && text_laws::lacks(s, '\n') && !text::is_white(s[0]) && !text::is_white(s.last())
}

proof fn lemma_lines_of_listed(args: Seq<Seq<char>>)
    requires
        forall|i: int| 0 <= i < args.len() ==> is_clean(#[trigger] args[i]),
    ensures
        text::lines_of(listed(args)) == args,
    decreases args.len(),
{
    if args.len() == 0 {
        text_laws::law_one_line(Seq::empty());
        assert(text::lines_of(listed(args)) =~= args);
    } else {
        let more = args.drop_first();
        assert forall|i: int| 0 <= i < more.len() implies is_clean(#[trigger] more[i]) by {
            assert(more[i] == args[i + 1]);
        }
        lemma_lines_of_listed(more);
        assert(is_clean(args[0]));
        assert('\r' as u32 == 13);
        text_laws::law_more_lines(args[0], listed(more));
        assert(seq![args[0]] + more =~= args);
    }
}

proof fn lemma_clean_args(args: Seq<Seq<char>>, n: int)
    requires
        0 <= n <= args.len(),
        forall|i: int| 0 <= i < args.len() ==> is_clean(#[trigger] args[i]),
    ensures
        virtmcu_run::args_in_lines(args, n) == args.take(n),
    decreases n,
{
    if n > 0 {
        lemma_clean_args(args, n - 1);
        let line = args[n - 1];
        assert(is_clean(line));
        text_laws::law_trimmed(Seq::empty(), line, Seq::empty());
        assert(Seq::<char>::empty() + line + Seq::<char>::empty() =~= line);
        assert(args.take(n - 1).push(line) =~= args.take(n));
    } else {
        assert(args.take(0) =~= Seq::empty());
    }
}

/// The arguments that a platform's description lists, one on each line, follow those that were
/// there, in order; the architecture that it names, if it names one, is taken; all else stays.
pub proof fn law_platform_adds_its_arguments(
    r: RunView,
    args: Seq<Seq<char>>,
    arch: Seq<char>,
    before: Seq<char>,
    after: Seq<char>,
)
    requires
        forall|i: int| 0 <= i < args.len() ==> is_clean(#[trigger] args[i]),
        is_clean(arch),
        text_laws::is_blank(before),
        text_laws::is_blank(after),
    ensures
        virtmcu_run::with_platform(r, before + arch + after, listed(args)) == (RunView {
            arch,
            extra: r.extra + args,
            ..r
        }),
        virtmcu_run::with_platform(r, before, listed(args)) == (RunView {
            extra: r.extra + args,
            ..r
        }),
{
    lemma_lines_of_listed(args);
    lemma_clean_args(args, args.len() as int);
    assert(args.take(args.len() as int) =~= args);
    text_laws::law_trimmed(before, arch, after);
    text_laws::law_trimmed(before, Seq::empty(), Seq::empty());
    assert(before + Seq::<char>::empty() + Seq::<char>::empty() =~= before);
}

/// Lines of white space give no arguments.
pub proof fn law_blank_lines_give_nothing(lines: Seq<Seq<char>>, blank: Seq<char>)
    requires
        text_laws::is_blank(blank),
    ensures
        virtmcu_run::args_in_lines(lines.push(blank), (lines.len() + 1) as int)
            == virtmcu_run::args_in_lines(lines, lines.len() as int),
{
    text_laws::law_trimmed(blank, Seq::empty(), Seq::empty());
    assert(blank + Seq::<char>::empty() + Seq::<char>::empty() =~= blank);
    let longer = lines.push(blank);
    lemma_args_prefix(lines, blank, lines.len() as int);
    assert(longer[lines.len() as int] == blank);
}

proof fn lemma_args_prefix(lines: Seq<Seq<char>>, more: Seq<char>, n: int)
    requires
        0 <= n <= lines.len(),
    ensures
        virtmcu_run::args_in_lines(lines.push(more), n) == virtmcu_run::args_in_lines(lines, n),
    decreases n,
{
    if n > 0 {
        lemma_args_prefix(lines, more, n - 1);
        assert(lines.push(more)[n - 1] == lines[n - 1]);
    }
}

/// A device tree that speaks of RISC-V makes that the architecture, unless one was named; nothing
/// else changes.
pub proof fn law_tree_tells_architecture(r: RunView, source: Seq<char>)
    ensures
        ({
            let then = virtmcu_run::with_tree_source(r, source);
            let speaks = text::occurs(topology::lowercase_of(source), "riscv"@);
            &&& r.arch_explicit || !speaks ==> then == r
            &&& !r.arch_explicit && speaks ==> then == (RunView { arch: "riscv"@, ..r })
        }),
{
}

/// A machine that was asked for is taken as it is. Otherwise ARM has the generic one and RISC-V the
/// virtual one, which gets no firmware unless some was asked for; others have none.
pub proof fn law_machine_choice(r: RunView, m: Seq<char>, tail: Seq<char>)
    ensures
        virtmcu_run::with_machine(RunView { machine: Some(m), ..r }) == (
            m,
            (RunView { machine: Some(m), ..r }),
        ),
        virtmcu_run::with_machine(RunView { machine: None, arch: "arm"@, ..r }) == (
            "arm-generic-fdt"@,
            (RunView { machine: None, arch: "arm"@, ..r }),
        ),
        ({
            let asked = RunView { machine: None, arch: "riscv"@ + tail, ..r };
            let (machine, then) = virtmcu_run::with_machine(asked);
            &&& machine == "virt"@
            &&& r.extra.contains("-bios"@) ==> then == asked
            &&& !r.extra.contains("-bios"@) ==> then == (RunView {
                extra: r.extra.push("-bios"@).push("none"@),
                ..asked
            })
            &&& then.extra.contains("-bios"@)
        }),
        r.machine is None && r.arch != "arm"@ && !text::has_prefix(r.arch, "riscv"@)
            ==> virtmcu_run::with_machine(r) == (""@, r),
{
    let asked = RunView { machine: None, arch: "riscv"@ + tail, ..r };
    reveal_strlit("arm");
    reveal_strlit("riscv");
    assert("arm"@.len() == 3);
    assert(asked.arch.len() >= 5);
    text_laws::law_prefix_and_suffix(tail, "riscv"@);
    let longer = r.extra + seq!["-bios"@, "none"@];
    assert(longer =~= r.extra.push("-bios"@).push("none"@));
    assert(longer[r.extra.len() as int] == "-bios"@);
}

/// The emulator of each architecture has a variable of its own, and the two names of 64-bit RISC-V
/// share one.
pub proof fn law_emulator_variables(arch: Seq<char>)
    ensures
        virtmcu_run::emulator_variable_of("riscv"@) == "QEMU_RISCV64_BIN"@,
        virtmcu_run::emulator_variable_of("riscv64"@) == "QEMU_RISCV64_BIN"@,
        virtmcu_run::emulator_variable_of("riscv32"@) == "QEMU_RISCV32_BIN"@,
        arch != "riscv"@ && arch != "riscv64"@ && arch != "riscv32"@
            ==> virtmcu_run::emulator_variable_of(arch) == "QEMU_ARM_BIN"@,
        launcher::qemu_arch("riscv"@) == "riscv64"@,
        launcher::qemu_arch("riscv64"@) == "riscv64"@,
        launcher::qemu_arch("riscv32"@) == "riscv32"@,
        arch != "riscv"@ && arch != "riscv64"@ && arch != "riscv32"@ ==> launcher::qemu_arch(arch)
            == "arm"@,
{
    reveal_strlit("riscv");
    reveal_strlit("riscv64");
    reveal_strlit("riscv32");
    assert("riscv32"@[5] == '3' && "riscv64"@[5] == '6');
    assert("riscv32"@.len() == 7 && "riscv"@.len() == 5);
}

/// Where the emulator may stand: below the root, first in the directory of the build and then in
/// the usual one, installed before not installed.
pub proof fn law_candidates(arch: Seq<char>, root: Seq<char>, build_dir: Seq<char>)
    requires
        root.len() > 0,
        root.last() != '/',
    ensures
        ({
            let name = launcher::qemu_arch(arch);
            let all = virtmcu_run::candidates_of(arch, root, build_dir, false);
            let built = virtmcu_run::candidates_of(arch, root, build_dir, true);
            let usual = virtmcu_run::candidates_of(arch, root, "build-virtmcu"@, false);
            &&& all.len() == 4
            &&& all[0] == root + "/third_party/qemu/"@ + build_dir
                + "/install/bin/qemu-system-"@ + name
            &&& all[1] == root + "/third_party/qemu/"@ + build_dir + "/qemu-system-"@ + name
            &&& all[2] == usual[0] && all[3] == usual[1]
            &&& built.len() == 2
            &&& built[0] == "/build/qemu/"@ + build_dir + "/install/bin/qemu-system-"@ + name
            &&& built[1] == virtmcu_run::candidates_of(arch, root, "build-virtmcu"@, true)[0]
        }),
{
    let name = launcher::qemu_arch(arch);
    let all = virtmcu_run::candidates_of(arch, root, build_dir, false);
    let usual = virtmcu_run::candidates_of(arch, root, "build-virtmcu"@, false);
    let built = virtmcu_run::candidates_of(arch, root, build_dir, true);
    let other = virtmcu_run::candidates_of(arch, root, "build-virtmcu"@, true);
    reveal_strlit("third_party/qemu/");
    reveal_strlit("/third_party/qemu/");
    reveal_strlit("build-virtmcu");
    reveal_strlit("/build/qemu/");
    reveal_strlit("/install/bin/qemu-system-");
    reveal_strlit("/qemu-system-");
    reveal_strlit("third_party/qemu/build-virtmcu/install/bin/qemu-system-");
    reveal_strlit("third_party/qemu/build-virtmcu/qemu-system-");
    reveal_strlit("/build/qemu/build-virtmcu/install/bin/qemu-system-");
    reveal_strlit("/");
    assert("third_party/qemu/build-virtmcu/install/bin/qemu-system-"@ + name
        =~= "third_party/qemu/"@ + "build-virtmcu"@ + "/install/bin/qemu-system-"@ + name);
    assert("third_party/qemu/build-virtmcu/qemu-system-"@ + name =~= "third_party/qemu/"@
        + "build-virtmcu"@ + "/qemu-system-"@ + name);
    assert(built[1] =~= other[0]);
    assert(all[0] =~= root + "/third_party/qemu/"@ + build_dir + "/install/bin/qemu-system-"@
        + name);
    assert(all[1] =~= root + "/third_party/qemu/"@ + build_dir + "/qemu-system-"@ + name);
}

/// Of the places for modules, the first that holds a module is taken; if none does, the last that
/// is a directory; if none is, there is none.
pub proof fn law_best_dir(found: Seq<DirFound>, n: int, k: int)
    requires
        0 <= n <= found.len(),
    ensures
        ({
            &&& 0 <= k < n && found[k].is_dir && found[k].has_module && (forall|j: int|
                0 <= j < k ==> !((#[trigger] found[j]).is_dir && found[j].has_module))
                ==> virtmcu_run::best_dir(found, n) == Some(k)
            &&& 0 <= k < n && found[k].is_dir && (forall|j: int|
                0 <= j < n ==> !((#[trigger] found[j]).is_dir && found[j].has_module)) && (forall|
                j: int,
            | k < j < n ==> !(#[trigger] found[j]).is_dir) ==> virtmcu_run::best_dir(found, n)
                == Some(k)
            &&& (forall|j: int| 0 <= j < n ==> !(#[trigger] found[j]).is_dir)
                ==> virtmcu_run::best_dir(found, n) is None
        }),
{
    lemma_best_dir(found, n);
}

proof fn lemma_best_dir(found: Seq<DirFound>, n: int)
    requires
        0 <= n <= found.len(),
    ensures
        match virtmcu_run::best_dir(found, n) {
            Some(b) => {
                &&& 0 <= b < n
                &&& found[b].is_dir
                &&& found[b].has_module ==> forall|j: int|
                    0 <= j < b ==> !((#[trigger] found[j]).is_dir && found[j].has_module)
                &&& !found[b].has_module ==> forall|j: int|
                    b < j < n ==> !(#[trigger] found[j]).is_dir
                &&& !found[b].has_module ==> forall|j: int|
                    0 <= j < n ==> !((#[trigger] found[j]).is_dir && found[j].has_module)
            },
            None => forall|j: int| 0 <= j < n ==> !(#[trigger] found[j]).is_dir,
        },
    decreases n,
{
    if n > 0 {
        lemma_best_dir(found, n - 1);
    }
}

/// The directories of modules lie below the directory of the build, and the last of them is taken
/// where none was found.
pub proof fn law_module_dirs(root: Seq<char>, build_dir: Seq<char>, found: Seq<DirFound>)
    requires
        root.len() > 0,
        root.last() != '/',
        build_dir.len() > 0,
        build_dir[0] != '/',
        build_dir.last() != '/',
        found.len() == 3,
    ensures
        ({
            let base = root + "/third_party/qemu/"@ + build_dir;
            let dirs = virtmcu_run::module_dirs_of(root, build_dir);
            let dir = virtmcu_run::module_dir_of(root, build_dir, false, found);
            &&& dirs.len() == 3
            &&& dirs[0] == base + "/install/lib/aarch64-linux-gnu/qemu"@
            &&& dirs[1] == base + "/install/lib/x86_64-linux-gnu/qemu"@
            &&& dirs[2] == base + "/install/lib/qemu"@
            &&& dirs.contains(dir)
            &&& !found[0].is_dir && !found[1].is_dir && !found[2].is_dir ==> dir == dirs[2]
            &&& found[0].is_dir && found[0].has_module ==> dir == dirs[0]
            &&& !found[0].is_dir && found[1].is_dir && found[1].has_module ==> dir == dirs[1]
            &&& virtmcu_run::module_dir_of(root, build_dir, true, found) == "/build/qemu/"@
                + build_dir + "/install/lib/qemu"@
        }),
{
    let dirs = virtmcu_run::module_dirs_of(root, build_dir);
    lemma_module_dirs(root, build_dir);
    let at = match virtmcu_run::best_dir(found, 3) {
        Some(i) => i,
        None => 2,
    };
    lemma_best_dir(found, 3);
    assert(dirs[at] == virtmcu_run::module_dir_of(root, build_dir, false, found));
    law_best_dir(found, 3, 0);
    law_best_dir(found, 3, 1);
}

proof fn lemma_below(base: Seq<char>, path: Seq<char>, slashed: Seq<char>)
    requires
        base.len() > 0,
        base.last() != '/',
        path.len() > 0,
        path[0] != '/',
        slashed == seq!['/'] + path,
    ensures
        text::joined_path(base, path) == base + slashed,
{
    reveal_strlit("/");
    assert(text::joined_path(base, path) =~= base + slashed);
}

proof fn lemma_module_dirs(root: Seq<char>, build_dir: Seq<char>)
    requires
        root.len() > 0,
        root.last() != '/',
        build_dir.len() > 0,
        build_dir[0] != '/',
        build_dir.last() != '/',
    ensures
        ({
            let base = root + "/third_party/qemu/"@ + build_dir;
            let dirs = virtmcu_run::module_dirs_of(root, build_dir);
            &&& dirs.len() == 3
            &&& dirs[0] == base + "/install/lib/aarch64-linux-gnu/qemu"@
            &&& dirs[1] == base + "/install/lib/x86_64-linux-gnu/qemu"@
            &&& dirs[2] == base + "/install/lib/qemu"@
        }),
{
    let base = root + "/third_party/qemu/"@ + build_dir;
    let a = text::joined_path(root, "third_party"@);
    assert(a == root + "/third_party"@ && a.last() == 'y') by {
        reveal_strlit("third_party");
        reveal_strlit("/third_party");
        assert("/third_party"@ =~= seq!['/'] + "third_party"@);
        lemma_below(root, "third_party"@, "/third_party"@);
    }
    let b = text::joined_path(a, "qemu"@);
    assert(b == a + "/qemu"@ && b.last() == 'u') by {
        reveal_strlit("qemu");
        reveal_strlit("/qemu");
        assert("/qemu"@ =~= seq!['/'] + "qemu"@);
        lemma_below(a, "qemu"@, "/qemu"@);
    }
    let c = text::joined_path(b, build_dir);
    lemma_below(b, build_dir, seq!['/'] + build_dir);
    assert("/third_party"@ + "/qemu"@ + seq!['/'] =~= "/third_party/qemu/"@) by {
        reveal_strlit("/third_party");
        reveal_strlit("/qemu");
        reveal_strlit("/third_party/qemu/");
    }
    assert(c =~= root + ("/third_party"@ + "/qemu"@ + seq!['/']) + build_dir);
    assert(c == base);
    assert(c.last() == build_dir.last());
    assert(text::joined_path(c, "install/lib/aarch64-linux-gnu/qemu"@) == c
        + "/install/lib/aarch64-linux-gnu/qemu"@) by {
        reveal_strlit("install/lib/aarch64-linux-gnu/qemu");
        reveal_strlit("/install/lib/aarch64-linux-gnu/qemu");
        assert("/install/lib/aarch64-linux-gnu/qemu"@ =~= seq!['/']
            + "install/lib/aarch64-linux-gnu/qemu"@);
        lemma_below(
            c,
            "install/lib/aarch64-linux-gnu/qemu"@,
            "/install/lib/aarch64-linux-gnu/qemu"@,
        );
    }
    assert(text::joined_path(c, "install/lib/x86_64-linux-gnu/qemu"@) == c
        + "/install/lib/x86_64-linux-gnu/qemu"@) by {
        reveal_strlit("install/lib/x86_64-linux-gnu/qemu");
        reveal_strlit("/install/lib/x86_64-linux-gnu/qemu");
        assert("/install/lib/x86_64-linux-gnu/qemu"@ =~= seq!['/']
            + "install/lib/x86_64-linux-gnu/qemu"@);
        lemma_below(
            c,
            "install/lib/x86_64-linux-gnu/qemu"@,
            "/install/lib/x86_64-linux-gnu/qemu"@,
        );
    }
    assert(text::joined_path(c, "install/lib/qemu"@) == c + "/install/lib/qemu"@) by {
        reveal_strlit("install/lib/qemu");
        reveal_strlit("/install/lib/qemu");
        assert("/install/lib/qemu"@ =~= seq!['/'] + "install/lib/qemu"@);
        lemma_below(c, "install/lib/qemu"@, "/install/lib/qemu"@);
    }
}

/// A program is built with a sanitizer if and only if it names the start of one, and the sanitizer
/// is the one whose start it names; that of threads goes first.
pub proof fn law_sanitizers(strings: Seq<char>)
    ensures
        text::occurs(strings, "__tsan_init"@) ==> virtmcu_run::is_sanitized(strings)
            && virtmcu_run::sanitizer_name(strings) == "TSan"@,
        text::occurs(strings, "__asan_init"@) && !text::occurs(strings, "__tsan_init"@)
            ==> virtmcu_run::is_sanitized(strings) && virtmcu_run::sanitizer_name(strings)
            == "ASan"@,
        !text::occurs(strings, "__asan_init"@) && !text::occurs(strings, "__tsan_init"@)
            ==> !virtmcu_run::is_sanitized(strings) && virtmcu_run::sanitizer_name(strings)
            == "ASan/TSan"@,
{
}

/// What was listed before stands last in the search path for libraries, the directory of the
/// system first, and one of the bus library between them if there is any.
pub proof fn law_library_dirs(
    system: bool,
    bus_dir: Seq<char>,
    has_lib: bool,
    has_dir: bool,
    existing: Seq<char>,
)
    ensures
        ({
            let dirs = virtmcu_run::library_dirs_of(
                system,
                bus_dir,
                has_lib,
                has_dir,
                Some(existing),
            );
            let bare = virtmcu_run::library_dirs_of(system, bus_dir, has_lib, has_dir, None);
            let s = if system {
                1int
            } else {
                0int
            };
            let b = if has_lib || has_dir {
                1int
            } else {
                0int
            };
            &&& bare.len() == s + b
            &&& system ==> bare[0] == "/build/zenoh-c/lib"@
            &&& has_lib ==> bare[s] == text::joined_path(bus_dir, "lib"@)
            &&& !has_lib && has_dir ==> bare[s] == bus_dir
            &&& existing.len() > 0 ==> dirs == bare.push(existing)
            &&& existing.len() == 0 ==> dirs == bare
        }),
{
    let dirs = virtmcu_run::library_dirs_of(system, bus_dir, has_lib, has_dir, Some(existing));
    let bare = virtmcu_run::library_dirs_of(system, bus_dir, has_lib, has_dir, None);
    if existing.len() > 0 {
        assert(dirs =~= bare.push(existing));
    } else {
        assert(dirs =~= bare);
    }
}

/// Two processes never write their coverage data to one place.
pub proof fn law_coverage_prefixes_differ(
    existing: Option<Seq<char>>,
    workspace: Option<Seq<char>>,
    arch: Seq<char>,
    build_dir: Seq<char>,
    p: u32,
    q: u32,
)
    ensures
        p != q ==> virtmcu_run::coverage_prefix_of(existing, workspace, arch, build_dir, p)
            != virtmcu_run::coverage_prefix_of(existing, workspace, arch, build_dir, q),
        ({
            let prefix = virtmcu_run::coverage_prefix_of(existing, workspace, arch, build_dir, p);
            &&& existing is Some ==> prefix == existing->0 + "/"@ + text::decimal(p as nat)
            &&& existing is None ==> text::has_prefix(
                prefix,
                (if workspace is Some {
                    workspace->0
                } else {
                    "/tmp"@
                }) + "/target/coverage/"@,
            )
            &&& text::has_suffix(prefix, text::decimal(p as nat))
        }),
{
    let a = virtmcu_run::coverage_prefix_of(existing, workspace, arch, build_dir, p);
    let b = virtmcu_run::coverage_prefix_of(existing, workspace, arch, build_dir, q);
    let front = match existing {
        Some(e) => e + "/"@,
        None => (match workspace {
            Some(w) => w,
            None => "/tmp"@,
        }) + "/target/coverage/"@ + launcher::qemu_arch(arch) + "_"@ + build_dir + "_"@,
    };
    let x = text::decimal(p as nat);
    let y = text::decimal(q as nat);
    assert(a =~= front + x);
    assert(b =~= front + y);
    if a == b {
        assert(x.len() == y.len());
        assert((front + x).skip(front.len() as int) =~= x);
        assert((front + y).skip(front.len() as int) =~= y);
        text::lemma_decimal_value(p as nat);
        text::lemma_decimal_value(q as nat);
    }
    text_laws::law_prefix_and_suffix(front, x);
    if existing is None {
        let head = (match workspace {
            Some(w) => w,
            None => "/tmp"@,
        }) + "/target/coverage/"@;
        let rest = launcher::qemu_arch(arch) + "_"@ + build_dir + "_"@ + x;
        text_laws::law_prefix_and_suffix(rest, head);
        assert(a =~= head + rest);
    }
}

/// The library of a sanitizer is the third word of the first line that names one.
pub proof fn law_sanitizer_library(before: Seq<Seq<char>>, line: Seq<char>, after: Seq<Seq<char>>)
    requires
        text::occurs(line, "libasan"@) || text::occurs(line, "libtsan"@),
        forall|i: int|
            0 <= i < before.len() ==> !text::occurs(#[trigger] before[i], "libasan"@)
                && !text::occurs(before[i], "libtsan"@),
    ensures
        virtmcu_run::sanitizer_line(before + seq![line] + after, 0) == Some(line),
        virtmcu_run::sanitizer_line(before, 0) is None,
{
    lemma_sanitizer_line(before, line, after, 0);
    lemma_no_sanitizer_line(before, 0);
}

proof fn lemma_sanitizer_line(
    before: Seq<Seq<char>>,
    line: Seq<char>,
    after: Seq<Seq<char>>,
    i: int,
)
    requires
        0 <= i <= before.len(),
        text::occurs(line, "libasan"@) || text::occurs(line, "libtsan"@),
        forall|i: int|
            0 <= i < before.len() ==> !text::occurs(#[trigger] before[i], "libasan"@)
                && !text::occurs(before[i], "libtsan"@),
    ensures
        virtmcu_run::sanitizer_line(before + seq![line] + after, i) == Some(line),
    decreases before.len() - i,
{
    let all = before + seq![line] + after;
    if i < before.len() {
        assert(all[i] == before[i]);
        lemma_sanitizer_line(before, line, after, i + 1);
    } else {
        assert(all[i] == line);
    }
}

proof fn lemma_no_sanitizer_line(before: Seq<Seq<char>>, i: int)
    requires
        0 <= i <= before.len(),
        forall|i: int|
            0 <= i < before.len() ==> !text::occurs(#[trigger] before[i], "libasan"@)
                && !text::occurs(before[i], "libtsan"@),
    ensures
        virtmcu_run::sanitizer_line(before, i) is None,
    decreases before.len() - i,
{
    if i < before.len() {
        lemma_no_sanitizer_line(before, i + 1);
    }
}

/// The library of a sanitizer is read from a line that names it, where it stands behind two words.
pub proof fn law_sanitizer_library_word(a: Seq<char>, b: Seq<char>, c: Seq<char>, rest: Seq<char>)
    requires
        text_laws::is_word(a),
        text_laws::is_word(b),
        text_laws::is_word(c),
        rest.len() > 0 ==> text::is_white(rest[0]),
        ({
            let line = a + seq![' '] + (b + seq![' '] + (c + rest));
            &&& text_laws::lacks(line, '\n')
            &&& text::occurs(line, "libasan"@) || text::occurs(line, "libtsan"@)
        }),
    ensures
        virtmcu_run::sanitizer_library_of(a + seq![' '] + (b + seq![' '] + (c + rest))) == Some(c),
{
    let x = c + rest;
    let y = b + seq![' '] + x;
    let line = a + seq![' '] + y;
    text_laws::law_one_line(line);
    assert(text::lines_of(line)[0] == line);
    assert(text::is_white(' '));
    let gap = seq![' '];
    let none = Seq::<char>::empty();
    text_laws::law_words(none, a, gap + y);
    assert(none + a + (gap + y) =~= line);
    text_laws::law_words(gap, b, gap + x);
    assert(gap + b + (gap + x) =~= gap + y);
    text_laws::law_words(gap, c, rest);
    assert(gap + c + rest =~= gap + x);
    assert(text::words_of(line)[2] == c);
    assert(text::words_of(line).len() >= 3);
}

} // verus!
