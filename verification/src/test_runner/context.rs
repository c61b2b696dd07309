//! Where a test runs: the workspace, its directory for files, and its variables.
use vstd::prelude::*;

use crate::sorting;
use crate::test_runner::variables;
use crate::test_runner::variables::Variables;
use crate::text;
use crate::text::{
    join_path, joined2, joined3, joined5, no_items, owned, push_item, trim_text,
};
use crate::wire::u16_at;

verus! {

/// The surroundings of a test.
#[derive(Debug)]
pub struct TestContext {
    /// The directory for the test's own files.
    pub tmp_dir: String,
    pub workspace_root: String,
    pub variables: Variables,
}

#[verifier::ext_equal]
pub struct ContextView {
    pub tmp_dir: Seq<char>,
    pub workspace_root: Seq<char>,
    pub variables: Seq<variables::VariableView>,
}

impl View for TestContext {
    type V = ContextView;

    open spec fn view(&self) -> ContextView {
        ContextView {
            tmp_dir: self.tmp_dir@,
            workspace_root: self.workspace_root@,
            variables: self.variables@,
        }
    }
}

/// The variables that every test has.
pub open spec fn first_variables(
    workspace_root: Seq<char>,
    tmp_dir: Seq<char>,
    endpoint: Seq<char>,
) -> Seq<variables::VariableView> {
    variables::with_value(
        variables::with_value(
            variables::with_value(Seq::empty(), "WORKSPACE_DIR"@, workspace_root),
            "TMP_DIR"@,
            tmp_dir,
        ),
        "ROUTER_ENDPOINT"@,
        text::trimmed(endpoint),
    )
}

/// No environment variable is mentioned.
pub open spec fn mentions_no_environment(s: Seq<char>) -> bool {
    !s.contains('$')
}

/// Expands `$NAME`, `${NAME}` and `${NAME:-default}` with `shellexpand::env`, which reads the
/// environment; `None` if a variable is not set and has no default. Text without a `$` comes back unchanged. Nothing else is said of the
/// result, since it rests on the environment.
#[verifier::external_body]
fn expand_environment(s: &str) -> (r: Option<String>)
    ensures
        mentions_no_environment(s@) ==> text::optional(r) == Some(s@),
{
    shellexpand::env(s).ok().map(|t| t.to_string())
}

/// The expanded text, or the text as it was where it could not be expanded.
pub fn expanded_or_same(s: String, expanded: Option<String>) -> (r: String)
    ensures
        r@ == match text::optional(expanded) {
            Some(t) => t,
            None => s@,
        },
{
    match expanded {
        Some(t) => t,
        None => s,
    }
}

/// The search path of Python for a workspace.
pub open spec fn python_path(root: Seq<char>) -> Seq<char> {
    root + ":"@ + text::joined_path(root, "tools"@) + ":"@ + text::joined_path(
        root,
        "packaging/virtmcu-tools/src"@,
    )
}

/// An environment variable of a command that is started.
#[derive(Debug, Clone, PartialEq, Eq)]
pub struct Setting {
    pub name: String,
    pub value: String,
}

impl View for Setting {
    type V = variables::VariableView;

    open spec fn view(&self) -> variables::VariableView {
        variables::VariableView { name: self.name@, value: self.value@ }
    }
}

pub open spec fn setting(name: Seq<char>, value: Seq<char>) -> variables::VariableView {
    variables::VariableView { name, value }
}

/// Adds a setting.
pub fn push_setting(list: &mut Vec<Setting>, name: &str, value: &str)
    ensures
        sorting::views(final(list)@) == sorting::views(old(list)@).push(setting(name@, value@)),
{
    list.push(Setting { name: owned(name), value: owned(value) });
    proof {
        assert(sorting::views(list@) =~= sorting::views(old(list)@).push(setting(name@, value@)));
    }
}

/// The environment variables that every command of a test gets.
pub open spec fn command_settings(root: Seq<char>, asan: bool) -> Seq<variables::VariableView> {
    seq![setting("PYTHONPATH"@, python_path(root))] + if asan {
        seq![
            setting(
                "ASAN_OPTIONS"@,
                "detect_leaks=0,halt_on_error=1,detect_stack_use_after_return=1"@,
            ),
            setting("UBSAN_OPTIONS"@, "halt_on_error=1:print_stacktrace=1"@),
        ]
    } else {
        Seq::empty()
    }
}

/// The directories that built programs are looked for in.
pub open spec fn target_dirs(root: Seq<char>, cargo_target: Option<Seq<char>>) -> Seq<Seq<char>> {
    seq![text::joined_path(root, "target"@)] + (match cargo_target {
        Some(dir) => seq![dir],
        None => Seq::empty(),
    }) + seq![text::joined_path(root, "target-asan"@), text::joined_path(root, "target-tsan"@)]
}

/// Where a program may stand below a directory; a `*` stands for any one directory.
pub open spec fn patterns_below(base: Seq<char>, name: Seq<char>) -> Seq<Seq<char>> {
    seq![
        text::joined_path(base, "release/"@ + name),
        text::joined_path(base, "debug/"@ + name),
        text::joined_path(base, "*/release/"@ + name),
        text::joined_path(base, "*/debug/"@ + name),
    ]
}

/// Where a program may stand below the first `n` of the directories.
pub open spec fn patterns_in(dirs: Seq<Seq<char>>, name: Seq<char>, n: int) -> Seq<Seq<char>>
    decreases n,
{
    if n <= 0 || n > dirs.len() {
        Seq::empty()
    } else {
        patterns_in(dirs, name, n - 1) + patterns_below(dirs[n - 1], name)
    }
}

/// A file that may be the program: its first bytes as far as they could be read, and when it was
/// last written.
#[derive(Debug, Clone, PartialEq, Eq)]
pub struct BinaryCandidate {
    pub path: String,
    /// The first twenty bytes; `None` if there are fewer or they could not be read.
    pub header: Option<Vec<u8>>,
    /// Nanoseconds since the epoch; `None` if not known.
    pub modified: Option<u64>,
}

/// The number of a machine in the header of an object file; 0 for others.
pub open spec fn machine_number(arch: Seq<char>) -> u16 {
    if arch == "x86_64"@ {
        62
    } else if arch == "aarch64"@ {
        183
    } else {
        0
    }
}

/// The number of a machine in the header of an object file.
pub fn host_machine(arch: &str) -> (r: u16)
    ensures
        r == machine_number(arch@),
{
    if text::same_text(arch, "x86_64") {
        62
    } else if text::same_text(arch, "aarch64") {
        183
    } else {
        0
    }
}

/// The file is an object file for another machine.
pub open spec fn is_foreign(header: Option<Vec<u8>>, machine: u16) -> bool {
    header matches Some(h) && h@.len() >= 20 && h@[0] == 0x7f && h@[1] == 0x45 && h@[2] == 0x4c
        && h@[3] == 0x46 && machine != 0 && crate::wire::le_at(h@, 18, 2) != machine
}

/// The index of the newest of the first `n` files that are for this machine, and when it was
/// written; of two written at the same time the first.
pub open spec fn newest_of(s: Seq<BinaryCandidate>, machine: u16, n: int) -> (Option<int>, u64)
    decreases n,
{
    if n <= 0 || n > s.len() {
        (None, 0)
    } else {
        let front = newest_of(s, machine, n - 1);
        let c = s[n - 1];
        if !is_foreign(c.header, machine) && c.modified is Some && c.modified->0 > front.1 {
            (Some(n - 1), c.modified->0)
        } else {
            front
        }
    }
}

impl BinaryCandidate {
    fn foreign(&self, machine: u16) -> (r: bool)
        ensures
            r == is_foreign(self.header, machine),
    {
        match &self.header {
            Some(h) => {
                if h.len() < 20 || h[0] != 0x7f || h[1] != 0x45 || h[2] != 0x4c || h[3] != 0x46 {
                    return false;
                }
                machine != 0 && u16_at(h.as_slice(), 18) != machine
            },
            None => false,
        }
    }
}

/// Picks the newest file that is for this machine.
pub fn newest_binary(candidates: &Vec<BinaryCandidate>, machine: u16) -> (r: Option<usize>)
    ensures
        match r {
            Some(i) => newest_of(candidates@, machine, candidates@.len() as int).0 == Some(
                i as int,
            ) && i < candidates@.len(),
            None => newest_of(candidates@, machine, candidates@.len() as int).0 is None,
        },
{
    let mut best: Option<usize> = None;
    let mut time: u64 = 0;
    let mut i: usize = 0;
    while i < candidates.len()
        invariant
            i <= candidates@.len(),
            match best {
                Some(k) => newest_of(candidates@, machine, i as int).0 == Some(k as int) && k < i,
                None => newest_of(candidates@, machine, i as int).0 is None,
            },
            time == newest_of(candidates@, machine, i as int).1,
        decreases candidates@.len() - i,
    {
        let c = &candidates[i];
        if !c.foreign(machine) {
            match c.modified {
                Some(t) => {
                    if t > time {
                        time = t;
                        best = Some(i);
                    }
                },
                None => {},
            }
        }
        i += 1;
    }
    best
}

/// The newest file is at least as new as every other one that is for this machine.
pub proof fn law_newest_is_newest(s: Seq<BinaryCandidate>, machine: u16, n: int, k: int)
    requires
        0 <= k < n <= s.len(),
        !is_foreign(s[k].header, machine),
        s[k].modified is Some,
        s[k].modified->0 > 0,
    ensures
        newest_of(s, machine, n).0 matches Some(i) && 0 <= i < n && !is_foreign(
            s[i].header,
            machine,
        ) && s[i].modified == Some(newest_of(s, machine, n).1) && newest_of(s, machine, n).1
            >= s[k].modified->0,
    decreases n,
{
    lemma_newest(s, machine, n);
    if k < n - 1 {
        law_newest_is_newest(s, machine, n - 1, k);
    }
}

proof fn lemma_newest(s: Seq<BinaryCandidate>, machine: u16, n: int)
    requires
        0 <= n <= s.len(),
    ensures
        match newest_of(s, machine, n).0 {
            Some(i) => 0 <= i < n && !is_foreign(s[i].header, machine) && s[i].modified == Some(
                newest_of(s, machine, n).1,
            ),
            None => newest_of(s, machine, n).1 == 0,
        },
    decreases n,
{
    if n > 0 {
        lemma_newest(s, machine, n - 1);
    }
}

/// What is said where a program is not found.
pub open spec fn binary_missing_text(name: Seq<char>) -> Seq<char> {
    name
        + " binary not found in target directories. Please build it first using 'cargo build -p "@
        + name + "' or 'make build-test-artifacts'."@
}

/// What is said where a program is not found.
pub fn binary_missing(name: &str) -> (r: String)
    ensures
        r@ == binary_missing_text(name@),
{
    joined2(
        joined3(
            name,
            " binary not found in target directories. Please build it first using 'cargo build -p ",
            name,
        ).as_str(),
        "' or 'make build-test-artifacts'.",
    )
}

impl TestContext {
    /// The surroundings of a test that uses `endpoint`, as the program that picks one printed it.
    pub fn new(workspace_root: &str, tmp_dir: &str, endpoint: &str) -> (r: Self)
        ensures
            r@ == (ContextView {
                tmp_dir: tmp_dir@,
                workspace_root: workspace_root@,
                variables: first_variables(workspace_root@, tmp_dir@, endpoint@),
            }),
    {
        let mut vars = Variables::new();
        vars.insert("WORKSPACE_DIR", workspace_root);
        vars.insert("TMP_DIR", tmp_dir);
        vars.insert("ROUTER_ENDPOINT", trim_text(endpoint).as_str());
        TestContext {
            tmp_dir: owned(tmp_dir),
            workspace_root: owned(workspace_root),
            variables: vars,
        }
    }

    /// The path of one of the test's own files.
    pub fn tmp_path(&self, name: &str) -> (r: String)
        ensures
            r@ == text::joined_path(self@.tmp_dir, name@),
    {
        join_path(self.tmp_dir.as_str(), name)
    }

    /// Fills in variables and then expands the environment.
    pub fn substitute(&self, s: &str) -> (r: String)
        ensures
            mentions_no_environment(variables::filled_in(self@.variables, 0, s@)) ==> r@
                == variables::filled_in(self@.variables, 0, s@),
    {
        let filled = self.variables.fill_in(s);
        let expanded = expand_environment(filled.as_str());
        expanded_or_same(filled, expanded)
    }

    /// The environment variables that every command of the test gets.
    pub fn setup_cmd(&self, asan: bool) -> (r: Vec<Setting>)
        ensures
            sorting::views(r@) == command_settings(self@.workspace_root, asan),
    {
        let root = self.workspace_root.as_str();
        let mut list: Vec<Setting> = Vec::new();
        let path = joined5(
            root,
            ":",
            join_path(root, "tools").as_str(),
            ":",
            join_path(root, "packaging/virtmcu-tools/src").as_str(),
        );
        push_setting(&mut list, "PYTHONPATH", path.as_str());
        if asan {
            push_setting(
                &mut list,
                "ASAN_OPTIONS",
                "detect_leaks=0,halt_on_error=1,detect_stack_use_after_return=1",
            );
            push_setting(&mut list, "UBSAN_OPTIONS", "halt_on_error=1:print_stacktrace=1");
        }
        proof {
            assert(sorting::views(list@) =~= command_settings(self@.workspace_root, asan));
        }
        list
    }

    /// Where a built program may stand, in the order in which it is looked for.
    pub fn binary_patterns(&self, name: &str, cargo_target: &Option<String>) -> (r: Vec<String>)
        ensures
            sorting::views(r@) == ({
                let dirs = target_dirs(self@.workspace_root, text::optional(*cargo_target));
                patterns_in(dirs, name@, dirs.len() as int)
            }),
    {
        let root = self.workspace_root.as_str();
        let mut dirs = no_items();
        push_item(&mut dirs, join_path(root, "target").as_str());
        match cargo_target {
            Some(dir) => {
                push_item(&mut dirs, dir.as_str());
            },
            None => {},
        }
        push_item(&mut dirs, join_path(root, "target-asan").as_str());
        push_item(&mut dirs, join_path(root, "target-tsan").as_str());
        let ghost all = sorting::views(dirs@);
        proof {
            assert(all =~= target_dirs(self@.workspace_root, text::optional(*cargo_target)));
        }
        let mut r = no_items();
        let mut i: usize = 0;
        while i < dirs.len()
            invariant
                i <= dirs@.len(),
                all == sorting::views(dirs@),
                sorting::views(r@) == patterns_in(all, name@, i as int),
            decreases dirs@.len() - i,
        {
            let base = dirs[i].as_str();
            let ghost before = sorting::views(r@);
            push_item(&mut r, join_path(base, joined2("release/", name).as_str()).as_str());
            push_item(&mut r, join_path(base, joined2("debug/", name).as_str()).as_str());
            push_item(&mut r, join_path(base, joined2("*/release/", name).as_str()).as_str());
            push_item(&mut r, join_path(base, joined2("*/debug/", name).as_str()).as_str());
            proof {
                assert(sorting::views(r@) =~= before + patterns_below(all[i as int], name@));
            }
            i += 1;
        }
        r
    }
}

} // verus!
