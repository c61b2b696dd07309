//! Starting an emulator from the command line.
use vstd::prelude::*;

use crate::deterministic_coordinator::topology;
use crate::deterministic_coordinator::topology::lowercase;
use crate::sorting;
use crate::test_runner::launcher;
use crate::test_runner::launcher::{first_true, qemu_arch_name};
use crate::text;
use crate::text::{
    contains_text, decimal_text, ends_with_text, items_of, join_path, join_text,
    joined2, joined3, joined5, lists_item, no_items, owned, push_item, push_items, same_text,
    split_lines, split_words, starts_with_text, trim_text,
};

verus! {

/// What the description of a platform is.
#[derive(Debug, Clone, Copy, PartialEq, Eq, Structural)]
pub enum InputKind {
    Repl,
    Yaml,
    Dts,
    Dtb,
}

/// What the command line asks for.
#[derive(Debug, Clone, PartialEq, Eq)]
pub struct RunArgs {
    pub arch: String,
    pub arch_explicit: bool,
    pub machine: Option<String>,
    pub kernel: Option<String>,
    /// The description of the platform, and what it was said to be.
    pub input: Option<(InputKind, String)>,
    /// What is passed on to the emulator.
    pub extra: Vec<String>,
}

#[verifier::ext_equal]
pub struct RunView {
    pub arch: Seq<char>,
    pub arch_explicit: bool,
    pub machine: Option<Seq<char>>,
    pub kernel: Option<Seq<char>>,
    pub input: Option<(InputKind, Seq<char>)>,
    pub extra: Seq<Seq<char>>,
}

impl View for RunArgs {
    type V = RunView;

    open spec fn view(&self) -> RunView {
        RunView {
            arch: self.arch@,
            arch_explicit: self.arch_explicit,
            machine: text::optional(self.machine),
            kernel: text::optional(self.kernel),
            input: match self.input {
                Some(i) => Some((i.0, i.1@)),
                None => None,
            },
            extra: sorting::views(self.extra@),
        }
    }
}

/// The architecture that the first `n` arguments name last, if any.
pub open spec fn named_arch(args: Seq<Seq<char>>, n: int) -> Option<Seq<char>>
    decreases n,
{
    if n <= 0 || n > args.len() {
        None
    } else if args[n - 1] == "--arch"@ && n < args.len() {
        Some(args[n])
    } else {
        named_arch(args, n - 1)
    }
}

/// The argument takes a value.
pub open spec fn takes_value(arg: Seq<char>) -> bool {
    arg == "--repl"@ || arg == "--yaml"@ || arg == "--dts"@ || arg == "--dtb"@ || arg
        == "--kernel"@ || arg == "--machine"@ || arg == "--arch"@
}

/// What is asked for once an argument with a value was read.
pub open spec fn with_option(r: RunView, arg: Seq<char>, value: Seq<char>) -> RunView {
    if arg == "--repl"@ {
        RunView { input: Some((InputKind::Repl, value)), ..r }
    } else if arg == "--yaml"@ {
        RunView { input: Some((InputKind::Yaml, value)), ..r }
    } else if arg == "--dts"@ {
        RunView { input: Some((InputKind::Dts, value)), ..r }
    } else if arg == "--dtb"@ {
        RunView { input: Some((InputKind::Dtb, value)), ..r }
    } else if arg == "--kernel"@ {
        RunView { kernel: Some(value), ..r }
    } else if arg == "--machine"@ {
        RunView { machine: Some(value), ..r }
    } else {
        r
    }
}

/// What is asked for by the arguments from index `i` on; `Err` names an argument that lacks its
/// value.
pub open spec fn read_from(args: Seq<Seq<char>>, i: int, r: RunView) -> Result<RunView, Seq<char>>
    decreases args.len() - i,
{
    if i < 0 || i >= args.len() {
        Ok(r)
    } else if takes_value(args[i]) {
        if i + 1 < args.len() {
            read_from(args, i + 2, with_option(r, args[i], args[i + 1]))
        } else {
            Err(args[i])
        }
    } else {
        read_from(args, i + 1, RunView { extra: r.extra.push(args[i]), ..r })
    }
}

/// What is asked for before any argument is read, but for the architecture.
pub open spec fn asked_at_start(args: Seq<Seq<char>>) -> RunView {
    let arch = named_arch(args, args.len() as int);
    RunView {
        arch: match arch {
            Some(a) => a,
            None => "arm"@,
        },
        arch_explicit: arch is Some,
        machine: None,
        kernel: None,
        input: None,
        extra: Seq::empty(),
    }
}

fn find_arch(args: &Vec<String>) -> (r: Option<String>)
    ensures
        text::optional(r) == named_arch(sorting::views(args@), args@.len() as int),
{
    let ghost all = sorting::views(args@);
    let mut n: usize = args.len();
    while n > 0
        invariant
            n <= args@.len(),
            all == sorting::views(args@),
            named_arch(all, args@.len() as int) == named_arch(all, n as int),
        decreases n,
    {
        proof {
            assert(all[n - 1] == args@[n - 1]@);
        }
        if n < args.len() && same_text(args[n - 1].as_str(), "--arch") {
            proof {
                assert(all[n as int] == args@[n as int]@);
            }
            return Some(owned(args[n].as_str()));
        }
        n -= 1;
    }
    None
}

fn is_option(arg: &str) -> (r: bool)
    ensures
        r == takes_value(arg@),
{
    same_text(arg, "--repl") || same_text(arg, "--yaml") || same_text(arg, "--dts") || same_text(
        arg,
        "--dtb",
    ) || same_text(arg, "--kernel") || same_text(arg, "--machine") || same_text(arg, "--arch")
}

fn set_option(r: &mut RunArgs, arg: &str, value: &str)
    ensures
        final(r)@ == with_option(old(r)@, arg@, value@),
{
    if same_text(arg, "--repl") {
        r.input = Some((InputKind::Repl, owned(value)));
    } else if same_text(arg, "--yaml") {
        r.input = Some((InputKind::Yaml, owned(value)));
    } else if same_text(arg, "--dts") {
        r.input = Some((InputKind::Dts, owned(value)));
    } else if same_text(arg, "--dtb") {
        r.input = Some((InputKind::Dtb, owned(value)));
    } else if same_text(arg, "--kernel") {
        r.kernel = Some(owned(value));
    } else if same_text(arg, "--machine") {
        r.machine = Some(owned(value));
    }
}

/// Reads the command line; an error names the argument that lacks its value.
pub fn parse_args(args: &Vec<String>) -> (r: Result<RunArgs, String>)
    ensures
        ({
            let all = sorting::views(args@);
            match r {
                Ok(run) => read_from(all, 0, asked_at_start(all)) == Ok::<RunView, Seq<char>>(run@),
                Err(arg) => read_from(all, 0, asked_at_start(all)) == Err::<RunView, Seq<char>>(
                    arg@,
                ),
            }
        }),
{
    let ghost all = sorting::views(args@);
    let named = find_arch(args);
    let arch_explicit = named.is_some();
    let arch = match named {
        Some(a) => a,
        None => owned("arm"),
    };
    let mut run = RunArgs {
        arch,
        arch_explicit,
        machine: None,
        kernel: None,
        input: None,
        extra: no_items(),
    };
    let mut i: usize = 0;
    while i < args.len()
        invariant
            i <= args@.len(),
            all == sorting::views(args@),
            read_from(all, 0, asked_at_start(all)) == read_from(all, i as int, run@),
        decreases args@.len() - i,
    {
        let arg = args[i].as_str();
        proof {
            assert(all[i as int] == arg@);
        }
        if is_option(arg) {
            if args.len() - i < 2 {
                return Err(owned(arg));
            }
            proof {
                assert(all[i + 1] == args@[i + 1]@);
            }
            set_option(&mut run, arg, args[i + 1].as_str());
            i += 2;
        } else {
            push_item(&mut run.extra, arg);
            i += 1;
        }
    }
    Ok(run)
}

/// What is said where an argument lacks its value.
pub fn missing_value(arg: &str) -> (r: String)
    ensures
        r@ == "Missing value for argument "@ + arg@,
{
    joined2("Missing value for argument ", arg)
}

/// What a description is: its name tells more than what it was said to be.
pub open spec fn kind_of(said: InputKind, file: Seq<char>) -> InputKind {
    if text::has_suffix(file, ".yaml"@) || text::has_suffix(file, ".yml"@) {
        InputKind::Yaml
    } else if text::has_suffix(file, ".dts"@) {
        InputKind::Dts
    } else if text::has_suffix(file, ".dtb"@) {
        InputKind::Dtb
    } else {
        said
    }
}

/// What a description is.
pub fn input_kind(said: InputKind, file: &str) -> (r: InputKind)
    ensures
        r == kind_of(said, file@),
{
    if ends_with_text(file, ".yaml") || ends_with_text(file, ".yml") {
        InputKind::Yaml
    } else if ends_with_text(file, ".dts") {
        InputKind::Dts
    } else if ends_with_text(file, ".dtb") {
        InputKind::Dtb
    } else {
        said
    }
}

/// The search path of Python.
pub open spec fn python_path_of(root: Seq<char>, existing: Option<Seq<char>>) -> Seq<char> {
    let own = root + ":"@ + root + "/generated"@;
    match existing {
        Some(e) => if e.len() > 0 {
            own + ":"@ + e
        } else {
            own
        },
        None => own,
    }
}

/// The search path of Python.
pub fn python_path(root: &str, existing: &Option<String>) -> (r: String)
    ensures
        r@ == python_path_of(root@, text::optional(*existing)),
{
    let own = text::joined4(root, ":", root, "/generated");
    match existing {
        Some(e) => {
            if !e.as_str().is_empty() {
                return joined3(own.as_str(), ":", e.as_str());
            }
        },
        None => {},
    }
    own
}

/// The arguments that a platform's description is turned into a device tree with.
pub open spec fn generate_args_of(
    file: Seq<char>,
    dtb: Seq<char>,
    cli: Seq<char>,
    arch: Seq<char>,
    router: Option<Seq<char>>,
) -> Seq<Seq<char>> {
    seq![
        "platform"@,
        "generate"@,
        file,
        "--out-dtb"@,
        dtb,
        "--out-cli"@,
        cli,
        "--out-arch"@,
        arch,
    ] + (match router {
        Some(r) => seq!["--router"@, r],
        None => Seq::empty(),
    })
}

/// The arguments that a platform's description is turned into a device tree with.
pub fn generate_args(file: &str, dtb: &str, cli: &str, arch: &str, router: &Option<String>) -> (r:
    Vec<String>)
    ensures
        sorting::views(r@) == generate_args_of(file@, dtb@, cli@, arch@, text::optional(*router)),
{
    let mut r = items_of(vec!["platform", "generate"]);
    push_item(&mut r, file);
    push_item(&mut r, "--out-dtb");
    push_item(&mut r, dtb);
    push_item(&mut r, "--out-cli");
    push_item(&mut r, cli);
    push_item(&mut r, "--out-arch");
    push_item(&mut r, arch);
    match router {
        Some(a) => {
            push_item(&mut r, "--router");
            push_item(&mut r, a.as_str());
        },
        None => {},
    }
    proof {
        assert(sorting::views(r@) =~= generate_args_of(
            file@,
            dtb@,
            cli@,
            arch@,
            text::optional(*router),
        ));
    }
    r
}

/// The arguments that the first `n` lines give: each without white space at its ends, but for
/// empty ones.
pub open spec fn args_in_lines(lines: Seq<Seq<char>>, n: int) -> Seq<Seq<char>>
    decreases n,
{
    if n <= 0 || n > lines.len() {
        Seq::empty()
    } else {
        let line = text::trimmed(lines[n - 1]);
        if line.len() > 0 {
            args_in_lines(lines, n - 1).push(line)
        } else {
            args_in_lines(lines, n - 1)
        }
    }
}

/// What is asked for once a platform's description was read.
pub open spec fn with_platform(r: RunView, arch: Seq<char>, cli: Seq<char>) -> RunView {
    RunView {
        arch: if text::trimmed(arch).len() > 0 {
            text::trimmed(arch)
        } else {
            r.arch
        },
        extra: r.extra + args_in_lines(text::lines_of(cli), text::lines_of(cli).len() as int),
        ..r
    }
}

/// What is asked for once the source of a device tree was read: one that speaks of RISC-V is for
/// it, unless the architecture was named.
pub open spec fn with_tree_source(r: RunView, source: Seq<char>) -> RunView {
    if !r.arch_explicit && text::occurs(topology::lowercase_of(source), "riscv"@) {
        RunView { arch: "riscv"@, ..r }
    } else {
        r
    }
}

/// The machine that is emulated, and what is asked for with it.
pub open spec fn with_machine(r: RunView) -> (Seq<char>, RunView) {
    match r.machine {
        Some(m) => (m, r),
        None => if r.arch == "arm"@ {
            ("arm-generic-fdt"@, r)
        } else if text::has_prefix(r.arch, "riscv"@) {
            (
                "virt"@,
                if r.extra.contains("-bios"@) {
                    r
                } else {
                    RunView { extra: r.extra + seq!["-bios"@, "none"@], ..r }
                },
            )
        } else {
            (""@, r)
        },
    }
}

/// The arguments that the emulator is started with.
pub open spec fn emulator_args_of(r: RunView, machine: Seq<char>, dtb: Seq<char>) -> Seq<
    Seq<char>,
> {
    (if machine.len() == 0 {
        Seq::<Seq<char>>::empty()
    } else if dtb.len() > 0 && machine == "arm-generic-fdt"@ {
        seq!["-M"@, machine + ",hw-dtb="@ + dtb]
    } else if dtb.len() > 0 {
        seq!["-M"@, machine, "-dtb"@, dtb]
    } else {
        seq!["-M"@, machine]
    }) + (match r.kernel {
        Some(k) => seq!["-kernel"@, k],
        None => Seq::empty(),
    }) + r.extra
}

impl RunArgs {
    /// Takes note of what a platform's description says: an architecture, and arguments line by
    /// line.
    pub fn on_platform(&mut self, arch: &str, cli: &str)
        ensures
            final(self)@ == with_platform(old(self)@, arch@, cli@),
    {
        let named = trim_text(arch);
        if !named.as_str().is_empty() {
            self.arch = named;
        }
        let lines = split_lines(cli);
        let ghost all = text::lines_of(cli@);
        let ghost before = self@;
        let mut i: usize = 0;
        proof {
            assert(self@.extra =~= before.extra + args_in_lines(all, 0));
        }
        while i < lines.len()
            invariant
                i <= lines@.len(),
                all == sorting::views(lines@),
                self@ == (RunView {
                    extra: before.extra + args_in_lines(all, i as int),
                    ..before
                }),
            decreases lines@.len() - i,
        {
            let line = trim_text(lines[i].as_str());
            proof {
                assert(all[i as int] == lines@[i as int]@);
            }
            if !line.as_str().is_empty() {
                push_item(&mut self.extra, line.as_str());
                proof {
                    assert(self@.extra =~= before.extra + args_in_lines(all, i + 1));
                }
            }
            i += 1;
        }
    }

    /// Takes note of the source of a device tree.
    pub fn on_tree_source(&mut self, source: &str)
        ensures
            final(self)@ == with_tree_source(old(self)@, source@),
    {
        if !self.arch_explicit && contains_text(lowercase(source).as_str(), "riscv") {
            self.arch = owned("riscv");
        }
    }

    /// The machine that is emulated; some need more arguments.
    pub fn choose_machine(&mut self) -> (machine: String)
        ensures
            machine@ == with_machine(old(self)@).0,
            final(self)@ == with_machine(old(self)@).1,
    {
        match &self.machine {
            Some(m) => {
                return owned(m.as_str());
            },
            None => {},
        }
        if same_text(self.arch.as_str(), "arm") {
            return owned("arm-generic-fdt");
        }
        if starts_with_text(self.arch.as_str(), "riscv") {
            if !lists_item(&self.extra, "-bios") {
                push_item(&mut self.extra, "-bios");
                push_item(&mut self.extra, "none");
                proof {
                    assert(self@.extra =~= old(self)@.extra + seq!["-bios"@, "none"@]);
                }
            }
            return owned("virt");
        }
        owned("")
    }

    /// The arguments that the emulator is started with.
    pub fn emulator_args(&self, machine: &str, dtb: &str) -> (r: Vec<String>)
        ensures
            sorting::views(r@) == emulator_args_of(self@, machine@, dtb@),
    {
        let mut r = no_items();
        if !machine.is_empty() {
            push_item(&mut r, "-M");
            if !dtb.is_empty() && same_text(machine, "arm-generic-fdt") {
                push_item(&mut r, joined3(machine, ",hw-dtb=", dtb).as_str());
            } else {
                push_item(&mut r, machine);
                if !dtb.is_empty() {
                    push_item(&mut r, "-dtb");
                    push_item(&mut r, dtb);
                }
            }
        }
        match &self.kernel {
            Some(k) => {
                push_item(&mut r, "-kernel");
                push_item(&mut r, k.as_str());
            },
            None => {},
        }
        push_items(&mut r, &self.extra);
        proof {
            assert(sorting::views(r@) =~= emulator_args_of(self@, machine@, dtb@));
        }
        r
    }
}

/// The environment variable that names the emulator for an architecture.
pub open spec fn emulator_variable_of(arch: Seq<char>) -> Seq<char> {
    if arch == "riscv"@ || arch == "riscv64"@ {
        "QEMU_RISCV64_BIN"@
    } else if arch == "riscv32"@ {
        "QEMU_RISCV32_BIN"@
    } else {
        "QEMU_ARM_BIN"@
    }
}

/// The environment variable that names the emulator for an architecture.
pub fn emulator_variable(arch: &str) -> (r: String)
    ensures
        r@ == emulator_variable_of(arch@),
{
    if same_text(arch, "riscv") || same_text(arch, "riscv64") {
        owned("QEMU_RISCV64_BIN")
    } else if same_text(arch, "riscv32") {
        owned("QEMU_RISCV32_BIN")
    } else {
        owned("QEMU_ARM_BIN")
    }
}

/// Where the emulator for an architecture may stand, in the order of preference.
pub open spec fn candidates_of(
    arch: Seq<char>,
    root: Seq<char>,
    build_dir: Seq<char>,
    prebuilt: bool,
) -> Seq<Seq<char>> {
    let name = launcher::qemu_arch(arch);
    if prebuilt {
        launcher::prebuilt_candidates(build_dir, name)
    } else {
        seq![
            text::joined_path(
                root,
                "third_party/qemu/"@ + build_dir + "/install/bin/qemu-system-"@ + name,
            ),
            text::joined_path(root, "third_party/qemu/"@ + build_dir + "/qemu-system-"@ + name),
            text::joined_path(
                root,
                "third_party/qemu/build-virtmcu/install/bin/qemu-system-"@ + name,
            ),
            text::joined_path(root, "third_party/qemu/build-virtmcu/qemu-system-"@ + name),
        ]
    }
}

/// Where the emulator for an architecture may stand, in the order of preference.
pub fn emulator_candidates(arch: &str, root: &str, build_dir: &str, prebuilt: bool) -> (r: Vec<
    String,
>)
    ensures
        sorting::views(r@) == candidates_of(arch@, root@, build_dir@, prebuilt),
{
    let name = qemu_arch_name(arch);
    let name = name.as_str();
    let mut r = no_items();
    if prebuilt {
        push_item(
            &mut r,
            text::joined4("/build/qemu/", build_dir, "/install/bin/qemu-system-", name).as_str(),
        );
        push_item(
            &mut r,
            joined2("/build/qemu/build-virtmcu/install/bin/qemu-system-", name).as_str(),
        );
    } else {
        push_item(
            &mut r,
            join_path(
                root,
                text::joined4(
                    "third_party/qemu/",
                    build_dir,
                    "/install/bin/qemu-system-",
                    name,
                ).as_str(),
            ).as_str(),
        );
        push_item(
            &mut r,
            join_path(
                root,
                text::joined4("third_party/qemu/", build_dir, "/qemu-system-", name).as_str(),
            ).as_str(),
        );
        push_item(
            &mut r,
            join_path(
                root,
                joined2("third_party/qemu/build-virtmcu/install/bin/qemu-system-", name).as_str(),
            ).as_str(),
        );
        push_item(
            &mut r,
            join_path(
                root,
                joined2("third_party/qemu/build-virtmcu/qemu-system-", name).as_str(),
            ).as_str(),
        );
    }
    proof {
        assert(sorting::views(r@) =~= candidates_of(arch@, root@, build_dir@, prebuilt));
    }
    r
}

/// A name that was given and is not empty.
pub open spec fn given(name: Option<Seq<char>>) -> bool {
    name is Some && name->0.len() > 0
}

/// The emulator for an architecture: the one named for all, else the one named for the
/// architecture, else the first candidate that is a file; `None` if there is none.
pub fn resolve_qemu_bin(
    arch: &str,
    root: &str,
    build_dir: &str,
    prebuilt: bool,
    named: &Option<String>,
    named_for_arch: &Option<String>,
    is_file: &Vec<bool>,
) -> (r: Option<String>)
    requires
        is_file@.len() == candidates_of(arch@, root@, build_dir@, prebuilt).len(),
    ensures
        text::optional(r) == if given(text::optional(*named)) {
            text::optional(*named)
        } else if given(text::optional(*named_for_arch)) {
            text::optional(*named_for_arch)
        } else {
            launcher::first_present(candidates_of(arch@, root@, build_dir@, prebuilt), is_file@)
        },
{
    match named {
        Some(bin) => {
            if !bin.as_str().is_empty() {
                return Some(owned(bin.as_str()));
            }
        },
        None => {},
    }
    match named_for_arch {
        Some(bin) => {
            if !bin.as_str().is_empty() {
                return Some(owned(bin.as_str()));
            }
        },
        None => {},
    }
    let all = emulator_candidates(arch, root, build_dir, prebuilt);
    match first_true(is_file) {
        Some(i) => {
            proof {
                assert(sorting::views(all@)[i as int] == all@[i as int]@);
            }
            Some(owned(all[i].as_str()))
        },
        None => None,
    }
}

/// What is said where there is no emulator.
pub fn emulator_missing(arch: &str) -> (r: String)
    ensures
        r@ == "QEMU binary for "@ + arch@
            + " not found.\n    virtmcu mandates using the locally built QEMU from third_party/qemu\n    or the prebuilt one in /build/qemu (CI).\n    Please run 'make bootstrap' first."@,
{
    joined3(
        "QEMU binary for ",
        arch,
        " not found.\n    virtmcu mandates using the locally built QEMU from third_party/qemu\n    or the prebuilt one in /build/qemu (CI).\n    Please run 'make bootstrap' first.",
    )
}

/// Where the emulator's modules may be, in the order of preference.
pub open spec fn module_dirs_of(root: Seq<char>, build_dir: Seq<char>) -> Seq<Seq<char>> {
    let base = text::joined_path(
        text::joined_path(text::joined_path(root, "third_party"@), "qemu"@),
        build_dir,
    );
    seq![
        text::joined_path(base, "install/lib/aarch64-linux-gnu/qemu"@),
        text::joined_path(base, "install/lib/x86_64-linux-gnu/qemu"@),
        text::joined_path(base, "install/lib/qemu"@),
    ]
}

/// Where the emulator's modules may be, in the order of preference.
pub fn module_dirs(root: &str, build_dir: &str) -> (r: Vec<String>)
    ensures
        sorting::views(r@) == module_dirs_of(root@, build_dir@),
{
    let base = join_path(
        join_path(join_path(root, "third_party").as_str(), "qemu").as_str(),
        build_dir,
    );
    let base = base.as_str();
    let mut r = no_items();
    push_item(&mut r, join_path(base, "install/lib/aarch64-linux-gnu/qemu").as_str());
    push_item(&mut r, join_path(base, "install/lib/x86_64-linux-gnu/qemu").as_str());
    push_item(&mut r, join_path(base, "install/lib/qemu").as_str());
    proof {
        assert(sorting::views(r@) =~= module_dirs_of(root@, build_dir@));
    }
    r
}

/// What was found where the emulator's modules may be.
#[derive(Debug, Clone, Copy, PartialEq, Eq, Structural)]
pub struct DirFound {
    pub is_dir: bool,
    /// It holds a module.
    pub has_module: bool,
}

/// The directory of the emulator's modules among the first `n` that were looked at, so far as one
/// was found: the first with a module, else the last that is there.
pub open spec fn best_dir(found: Seq<DirFound>, n: int) -> Option<int>
    decreases n,
{
    if n <= 0 || n > found.len() {
        None
    } else {
        match best_dir(found, n - 1) {
            Some(i) => if found[i].has_module || !found[n - 1].is_dir {
                Some(i)
            } else {
                Some(n - 1)
            },
            None => if found[n - 1].is_dir {
                Some(n - 1)
            } else {
                None
            },
        }
    }
}

/// The directory of the emulator's modules.
pub open spec fn module_dir_of(
    root: Seq<char>,
    build_dir: Seq<char>,
    prebuilt: bool,
    found: Seq<DirFound>,
) -> Seq<char> {
    if prebuilt {
        "/build/qemu/"@ + build_dir + "/install/lib/qemu"@
    } else {
        match best_dir(found, 3) {
            Some(i) => module_dirs_of(root, build_dir)[i],
            None => module_dirs_of(root, build_dir)[2],
        }
    }
}

/// The directory of the emulator's modules.
pub fn get_qemu_module_dir(root: &str, build_dir: &str, prebuilt: bool, found: &Vec<DirFound>) -> (r:
    String)
    requires
        found@.len() == 3,
    ensures
        r@ == module_dir_of(root@, build_dir@, prebuilt, found@),
{
    if prebuilt {
        return joined3("/build/qemu/", build_dir, "/install/lib/qemu");
    }
    let dirs = module_dirs(root, build_dir);
    let mut best: Option<usize> = None;
    let mut i: usize = 0;
    while i < 3
        invariant
            i <= 3,
            found@.len() == 3,
            match best {
                Some(k) => best_dir(found@, i as int) == Some(k as int) && k < i,
                None => best_dir(found@, i as int) is None,
            },
        decreases 3 - i,
    {
        if found[i].is_dir {
            match best {
                Some(k) => {
                    if !found[k].has_module {
                        best = Some(i);
                    }
                },
                None => {
                    best = Some(i);
                },
            }
        }
        i += 1;
    }
    let at: usize = match best {
        Some(k) => k,
        None => 2,
    };
    proof {
        assert(sorting::views(dirs@).len() == 3);
        assert(module_dirs_of(root@, build_dir@)[at as int] == dirs@[at as int]@);
    }
    owned(dirs[at].as_str())
}

/// A program was built with a sanitizer, by the texts in it.
pub open spec fn is_sanitized(strings: Seq<char>) -> bool {
    text::occurs(strings, "__asan_init"@) || text::occurs(strings, "__tsan_init"@)
}

/// Whether a program was built with a sanitizer.
pub fn has_asan(strings: &str) -> (r: bool)
    ensures
        r == is_sanitized(strings@),
{
    contains_text(strings, "__asan_init") || contains_text(strings, "__tsan_init")
}

/// An emulator and its modules that do not fit.
#[derive(Debug, Clone, PartialEq, Eq)]
pub struct SanitizerMismatch {
    /// The sanitizer of the emulator.
    pub kind: String,
    pub binary_sanitized: bool,
    pub modules_sanitized: bool,
}

/// The sanitizer of the emulator, by the texts in it.
pub open spec fn sanitizer_name(strings: Seq<char>) -> Seq<char> {
    if !is_sanitized(strings) {
        "ASan/TSan"@
    } else if text::occurs(strings, "__tsan_init"@) {
        "TSan"@
    } else {
        "ASan"@
    }
}

/// Checks that an emulator and its modules fit, given the texts in the emulator and in one of its
/// modules, if there is any.
pub fn check_sanitizer_mismatch(binary: &str, module: &Option<String>) -> (r: Result<
    (),
    SanitizerMismatch,
>)
    ensures
        match r {
            Ok(_) => text::optional(*module) is None || is_sanitized(binary@) == is_sanitized(
                text::optional(*module)->0,
            ),
            Err(e) => text::optional(*module) is Some && is_sanitized(binary@) != is_sanitized(
                text::optional(*module)->0,
            ) && e.kind@ == sanitizer_name(binary@) && e.binary_sanitized == is_sanitized(binary@)
                && e.modules_sanitized == is_sanitized(text::optional(*module)->0),
        },
{
    let module = match module {
        Some(m) => m,
        None => {
            return Ok(());
        },
    };
    let binary_sanitized = has_asan(binary);
    let modules_sanitized = has_asan(module.as_str());
    if binary_sanitized == modules_sanitized {
        return Ok(());
    }
    let kind = if !binary_sanitized {
        owned("ASan/TSan")
    } else if contains_text(binary, "__tsan_init") {
        owned("TSan")
    } else {
        owned("ASan")
    };
    Err(SanitizerMismatch { kind, binary_sanitized, modules_sanitized })
}

/// The directory of the message bus library.
pub fn bus_library_dir(root: &str, asan: bool) -> (r: String)
    ensures
        r@ == text::joined_path(
            root@,
            if asan {
                "third_party/zenoh-c-asan"@
            } else {
                "third_party/zenoh-c"@
            },
        ),
{
    join_path(
        root,
        if asan {
            "third_party/zenoh-c-asan"
        } else {
            "third_party/zenoh-c"
        },
    )
}

/// The directories that libraries are looked for in.
pub open spec fn library_dirs_of(
    system: bool,
    bus_dir: Seq<char>,
    has_lib: bool,
    has_dir: bool,
    existing: Option<Seq<char>>,
) -> Seq<Seq<char>> {
    (if system {
        seq!["/build/zenoh-c/lib"@]
    } else {
        Seq::<Seq<char>>::empty()
    }) + (if has_lib {
        seq![text::joined_path(bus_dir, "lib"@)]
    } else if has_dir {
        seq![bus_dir]
    } else {
        Seq::empty()
    }) + (if given(existing) {
        seq![existing->0]
    } else {
        Seq::empty()
    })
}

/// The search path for libraries: that of the system first, then the bus library, then what was
/// set before.
pub fn library_path(
    system: bool,
    bus_dir: &str,
    has_lib: bool,
    has_dir: bool,
    existing: &Option<String>,
) -> (r: String)
    ensures
        r@ == text::join_seq(
            library_dirs_of(system, bus_dir@, has_lib, has_dir, text::optional(*existing)),
            ":"@,
        ),
{
    let mut list = no_items();
    if system {
        push_item(&mut list, "/build/zenoh-c/lib");
    }
    if has_lib {
        push_item(&mut list, join_path(bus_dir, "lib").as_str());
    } else if has_dir {
        push_item(&mut list, bus_dir);
    }
    match existing {
        Some(e) => {
            if !e.as_str().is_empty() {
                push_item(&mut list, e.as_str());
            }
        },
        None => {},
    }
    proof {
        assert(sorting::views(list@) =~= library_dirs_of(
            system,
            bus_dir@,
            has_lib,
            has_dir,
            text::optional(*existing),
        ));
        assert(sorting::views(list@).take(list@.len() as int) =~= sorting::views(list@));
    }
    join_text(&list, list.len(), ":")
}

/// Where coverage data goes.
pub open spec fn coverage_prefix_of(
    existing: Option<Seq<char>>,
    workspace: Option<Seq<char>>,
    arch: Seq<char>,
    build_dir: Seq<char>,
    process: u32,
) -> Seq<char> {
    let id = text::decimal(process as nat);
    match existing {
        Some(p) => p + "/"@ + id,
        None => {
            let dir = match workspace {
                Some(w) => w,
                None => "/tmp"@,
            };
            dir + "/target/coverage/"@ + launcher::qemu_arch(arch) + "_"@ + build_dir + ("_"@ + id)
        },
    }
}

/// Where coverage data goes.
pub fn coverage_prefix(
    existing: &Option<String>,
    workspace: &Option<String>,
    arch: &str,
    build_dir: &str,
    process: u32,
) -> (r: String)
    ensures
        r@ == coverage_prefix_of(
            text::optional(*existing),
            text::optional(*workspace),
            arch@,
            build_dir@,
            process,
        ),
{
    let id = decimal_text(process as u64);
    match existing {
        Some(p) => joined3(p.as_str(), "/", id.as_str()),
        None => {
            let dir = match workspace {
                Some(w) => owned(w.as_str()),
                None => owned("/tmp"),
            };
            joined2(
                joined5(
                    dir.as_str(),
                    "/target/coverage/",
                    qemu_arch_name(arch).as_str(),
                    "_",
                    build_dir,
                ).as_str(),
                joined2("_", id.as_str()).as_str(),
            )
        },
    }
}

/// The first line from index `i` on that names the library of a sanitizer.
pub open spec fn sanitizer_line(lines: Seq<Seq<char>>, i: int) -> Option<Seq<char>>
    decreases lines.len() - i,
{
    if i < 0 || i >= lines.len() {
        None
    } else if text::occurs(lines[i], "libasan"@) || text::occurs(lines[i], "libtsan"@) {
        Some(lines[i])
    } else {
        sanitizer_line(lines, i + 1)
    }
}

/// The library of a sanitizer that a program uses: the third word of the first line that names it.
pub open spec fn sanitizer_library_of(listing: Seq<char>) -> Option<Seq<char>> {
    match sanitizer_line(text::lines_of(listing), 0) {
        Some(line) => if text::words_of(line).len() >= 3 {
            Some(text::words_of(line)[2])
        } else {
            None
        },
        None => None,
    }
}

/// The library of a sanitizer that a program uses, by the list of its libraries.
pub fn sanitizer_library(listing: &str) -> (r: Option<String>)
    ensures
        text::optional(r) == sanitizer_library_of(listing@),
{
    let lines = split_lines(listing);
    let ghost all = text::lines_of(listing@);
    let mut i: usize = 0;
    while i < lines.len()
        invariant
            i <= lines@.len(),
            all == sorting::views(lines@),
            all == text::lines_of(listing@),
            sanitizer_line(all, 0) == sanitizer_line(all, i as int),
        decreases lines@.len() - i,
    {
        let line = lines[i].as_str();
        proof {
            assert(all[i as int] == line@);
        }
        if contains_text(line, "libasan") || contains_text(line, "libtsan") {
            let words = split_words(line);
            if words.len() >= 3 {
                proof {
                    assert(text::words_of(line@)[2] == words@[2]@);
                }
                return Some(owned(words[2].as_str()));
            }
            return None;
        }
        i += 1;
    }
    None
}

/// What is loaded before the emulator: the sanitizer, then what was set before.
pub fn preload(library: &str, existing: &Option<String>) -> (r: String)
    ensures
        r@ == if given(text::optional(*existing)) {
            library@ + ":"@ + text::optional(*existing)->0
        } else {
            library@
        },
{
    match existing {
        Some(e) => {
            if !e.as_str().is_empty() {
                return joined3(library, ":", e.as_str());
            }
        },
        None => {},
    }
    owned(library)
}

} // verus!
