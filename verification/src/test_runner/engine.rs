//! Which checks are run on a workspace, and what their outcome is.
use vstd::prelude::*;

use crate::sorting;
use crate::text;
use crate::text::{
    contains_text, join_path, joined2, joined3, joined4, joined6, no_items, owned, push_item,
    push_items,
};

verus! {

/// Runs checks on a directory of a workspace.
#[derive(Debug, Clone, PartialEq, Eq)]
pub struct LinterEngine {
    pub workspace_root: String,
    pub target_dir: String,
}

/// A check that is a program of its own.
#[derive(Debug, Clone, PartialEq, Eq)]
pub struct LintCommand {
    pub name: String,
    pub command: String,
    pub args: Vec<String>,
}

#[verifier::ext_equal]
pub struct CommandView {
    pub name: Seq<char>,
    pub command: Seq<char>,
    pub args: Seq<Seq<char>>,
}

impl View for LintCommand {
    type V = CommandView;

    open spec fn view(&self) -> CommandView {
        CommandView {
            name: self.name@,
            command: self.command@,
            args: sorting::views(self.args@),
        }
    }
}

pub open spec fn command(name: Seq<char>, program: Seq<char>, args: Seq<Seq<char>>) -> CommandView {
    CommandView { name, command: program, args }
}

fn push_command(list: &mut Vec<LintCommand>, name: &str, program: &str, args: Vec<String>)
    ensures
        sorting::views(final(list)@) == sorting::views(old(list)@).push(
            command(name@, program@, sorting::views(args@)),
        ),
{
    let ghost new = command(name@, program@, sorting::views(args@));
    list.push(LintCommand { name: owned(name), command: owned(program), args });
    proof {
        assert(sorting::views(list@) =~= sorting::views(old(list)@).push(new));
    }
}

fn one_item(a: &str) -> (r: Vec<String>)
    ensures
        sorting::views(r@) == seq![a@],
{
    let mut r = no_items();
    push_item(&mut r, a);
    proof {
        assert(sorting::views(r@) =~= seq![a@]);
    }
    r
}

fn two_items(a: &str, b: &str) -> (r: Vec<String>)
    ensures
        sorting::views(r@) == seq![a@, b@],
{
    let mut r = no_items();
    push_item(&mut r, a);
    push_item(&mut r, b);
    proof {
        assert(sorting::views(r@) =~= seq![a@, b@]);
    }
    r
}

fn three_items(a: &str, b: &str, c: &str) -> (r: Vec<String>)
    ensures
        sorting::views(r@) == seq![a@, b@, c@],
{
    let mut r = two_items(a, b);
    push_item(&mut r, c);
    proof {
        assert(sorting::views(r@) =~= seq![a@, b@, c@]);
    }
    r
}

/// The checks of Rust sources, which run one after the other.
pub open spec fn rust_checks() -> Seq<CommandView> {
    seq![
        command("cargo fmt"@, "cargo"@, seq!["fmt"@, "--all"@, "--check"@]),
        command("cargo clippy"@, "cargo"@, seq!["clippy"@, "--workspace"@, "--"@, "-D"@, "warnings"@]),
        command("cargo machete"@, "cargo-machete"@, Seq::empty()),
        command("cargo deny"@, "cargo"@, seq!["deny"@, "check"@]),
        command("cargo audit"@, "cargo"@, seq!["audit"@, "--db"@, "/tmp/advisory-db"@, "--ignore"@, "RUSTSEC-2026-0041"@, "--ignore"@, "RUSTSEC-2023-0071"@, "--ignore"@, "RUSTSEC-2024-0436"@, "--ignore"@, "RUSTSEC-2025-0134"@]),
    ]
}

/// The checks of Rust sources, which run one after the other.
pub fn rust_lints() -> (r: Vec<LintCommand>)
    ensures
        sorting::views(r@) == rust_checks(),
{
    let mut list: Vec<LintCommand> = Vec::new();
    push_command(&mut list, "cargo fmt", "cargo", three_items("fmt", "--all", "--check"));
    let mut clippy = three_items("clippy", "--workspace", "--");
    push_item(&mut clippy, "-D");
    push_item(&mut clippy, "warnings");
    proof {
        assert(sorting::views(clippy@) =~= rust_checks()[1].args);
    }
    push_command(&mut list, "cargo clippy", "cargo", clippy);
    push_command(&mut list, "cargo machete", "cargo-machete", no_items());
    push_command(&mut list, "cargo deny", "cargo", two_items("deny", "check"));
    let mut audit = three_items("audit", "--db", "/tmp/advisory-db");
    push_item(&mut audit, "--ignore");
    push_item(&mut audit, "RUSTSEC-2026-0041");
    push_item(&mut audit, "--ignore");
    push_item(&mut audit, "RUSTSEC-2023-0071");
    push_item(&mut audit, "--ignore");
    push_item(&mut audit, "RUSTSEC-2024-0436");
    push_item(&mut audit, "--ignore");
    push_item(&mut audit, "RUSTSEC-2025-0134");
    proof {
        assert(sorting::views(audit@) =~= rust_checks()[4].args);
    }
    push_command(&mut list, "cargo audit", "cargo", audit);
    proof {
        assert(sorting::views(list@) =~= rust_checks());
    }
    list
}

/// The checks that are scripts of the workspace: the name, the script and its arguments.
pub open spec fn script_table() -> Seq<CommandView> {
    seq![
        command("check-versions"@, "check-versions.py"@, seq!["--root"@, "."@]),
        command("check-ffi"@, "check-ffi.py"@, Seq::empty()),
        command("verify-exports"@, "verify-exports.py"@, Seq::empty()),
        command("firmware_provenance"@, "lints/firmware_provenance.py"@, Seq::empty()),
        command("dependency_pinning"@, "lints/dependency_pinning.py"@, seq!["."@]),
        command("beyonce_rule"@, "lints/beyonce_rule.py"@, Seq::empty()),
        command("third_party_modifications"@, "lints/third_party_modifications.py"@, Seq::empty()),
        command("python_banned_patterns"@, "lints/python_banned_patterns.py"@, seq!["."@]),
        command("simulation_usage"@, "lints/simulation_usage.py"@, seq!["."@]),
        command("rust_banned_patterns"@, "lints/rust_banned_patterns.py"@, seq!["."@]),
        command("rust_static_state"@, "lints/rust_static_state.py"@, seq!["."@]),
        command("rust_safe_serialization"@, "lints/rust_safe_serialization.py"@, seq!["."@]),
        command("check-stale-so"@, "check-stale-so.py"@, Seq::empty()),
        command("check-qom-alignment"@, "check-qom-alignment.py"@, Seq::empty()),
        command("check-cargo-meson-lib-alignment"@, "check-cargo-meson-lib-alignment.py"@, Seq::empty()),
        command("audit_topology_yamls"@, "audit_topology_yamls.py"@, Seq::empty()),
        command("shell_lints"@, "lints/shell_lints.py"@, seq!["."@]),
    ]
}

/// The checks that are scripts of the workspace.
#[verifier::rlimit(40)]
pub fn scripts() -> (r: Vec<LintCommand>)
    ensures
        sorting::views(r@) == script_table(),
{
    let mut list: Vec<LintCommand> = Vec::new();
    push_command(&mut list, "check-versions", "check-versions.py", two_items("--root", "."));
    push_command(&mut list, "check-ffi", "check-ffi.py", no_items());
    push_command(&mut list, "verify-exports", "verify-exports.py", no_items());
    push_command(&mut list, "firmware_provenance", "lints/firmware_provenance.py", no_items());
    push_command(&mut list, "dependency_pinning", "lints/dependency_pinning.py", one_item("."));
    push_command(&mut list, "beyonce_rule", "lints/beyonce_rule.py", no_items());
    push_command(&mut list, "third_party_modifications", "lints/third_party_modifications.py", no_items());
    push_command(&mut list, "python_banned_patterns", "lints/python_banned_patterns.py", one_item("."));
    push_command(&mut list, "simulation_usage", "lints/simulation_usage.py", one_item("."));
    push_command(&mut list, "rust_banned_patterns", "lints/rust_banned_patterns.py", one_item("."));
    push_command(&mut list, "rust_static_state", "lints/rust_static_state.py", one_item("."));
    push_command(&mut list, "rust_safe_serialization", "lints/rust_safe_serialization.py", one_item("."));
    push_command(&mut list, "check-stale-so", "check-stale-so.py", no_items());
    push_command(&mut list, "check-qom-alignment", "check-qom-alignment.py", no_items());
    push_command(&mut list, "check-cargo-meson-lib-alignment", "check-cargo-meson-lib-alignment.py", no_items());
    push_command(&mut list, "audit_topology_yamls", "audit_topology_yamls.py", no_items());
    push_command(&mut list, "shell_lints", "lints/shell_lints.py", one_item("."));
    proof {
        assert(sorting::views(list@) =~= script_table());
    }
    list
}

/// A script as a command: Python runs it.
pub open spec fn script_command(dir: Seq<char>, script: CommandView) -> CommandView {
    command(
        script.name,
        "python3"@,
        seq![text::joined_path(dir, script.command)] + script.args,
    )
}

/// Those of the first `n` scripts that are there, as commands.
pub open spec fn script_checks(dir: Seq<char>, all: Seq<CommandView>, present: Seq<bool>, n: int) -> Seq<
    CommandView,
>
    decreases n,
{
    if n <= 0 || n > all.len() {
        Seq::empty()
    } else {
        let front = script_checks(dir, all, present, n - 1);
        if present[n - 1] {
            front.push(script_command(dir, all[n - 1]))
        } else {
            front
        }
    }
}

/// One of the names stands in a path.
pub open spec fn names_one_of(path: Seq<char>, names: Seq<Seq<char>>) -> bool {
    exists|i: int| 0 <= i < names.len() && text::occurs(path, #[trigger] names[i])
}

/// Whether one of the names stands in a path.
fn holds_one_of(path: &str, names: &Vec<String>) -> (r: bool)
    ensures
        r == names_one_of(path@, sorting::views(names@)),
{
    let ghost all = sorting::views(names@);
    let mut i: usize = 0;
    while i < names.len()
        invariant
            i <= names@.len(),
            all == sorting::views(names@),
            forall|k: int| 0 <= k < i ==> !text::occurs(path@, #[trigger] all[k]),
        decreases names@.len() - i,
    {
        proof {
            assert(all[i as int] == names@[i as int]@);
        }
        if contains_text(path, names[i].as_str()) {
            return true;
        }
        i += 1;
    }
    false
}

/// A YAML file is checked; what lies in a private directory of a developer's tools is not.
pub open spec fn is_checked_yaml(path: Seq<char>, private_dirs: Seq<Seq<char>>) -> bool {
    !text::occurs(path, "third_party"@) && !text::occurs(path, "build"@) && !text::occurs(
        path,
        "target"@,
    ) && !text::occurs(path, ".cargo-cache"@) && !names_one_of(path, private_dirs) && !text::occurs(
        path,
        "schema/node_modules"@,
    )
}

/// Whether a YAML file is checked.
pub fn checks_yaml(path: &str, private_dirs: &Vec<String>) -> (r: bool)
    ensures
        r == is_checked_yaml(path@, sorting::views(private_dirs@)),
{
    !contains_text(path, "third_party") && !contains_text(path, "build") && !contains_text(
        path,
        "target",
    ) && !contains_text(path, ".cargo-cache") && !holds_one_of(path, private_dirs)
        && !contains_text(path, "schema/node_modules")
}

/// Those of the first `n` YAML files that are checked.
pub open spec fn checked_yaml(paths: Seq<Seq<char>>, private_dirs: Seq<Seq<char>>, n: int) -> Seq<
    Seq<char>,
>
    decreases n,
{
    if n <= 0 || n > paths.len() {
        Seq::empty()
    } else if is_checked_yaml(paths[n - 1], private_dirs) {
        checked_yaml(paths, private_dirs, n - 1).push(paths[n - 1])
    } else {
        checked_yaml(paths, private_dirs, n - 1)
    }
}

/// What was found in the directory that is checked.
#[derive(Debug, Clone, PartialEq, Eq)]
pub struct Found {
    /// There is a directory `tools`.
    pub tools: bool,
    /// There is a directory `patches`.
    pub patches: bool,
    /// Which of the scripts are there.
    pub scripts: Vec<bool>,
    /// All YAML files.
    pub yaml_files: Vec<String>,
    /// The private directories of a developer's tools, which the checks pass over.
    pub private_dirs: Vec<String>,
    pub dockerfile: bool,
    pub workflows: bool,
    pub meson_build: bool,
    pub misc_sources: bool,
}

#[verifier::ext_equal]
pub struct FoundView {
    pub tools: bool,
    pub patches: bool,
    pub scripts: Seq<bool>,
    pub yaml_files: Seq<Seq<char>>,
    pub private_dirs: Seq<Seq<char>>,
    pub dockerfile: bool,
    pub workflows: bool,
    pub meson_build: bool,
    pub misc_sources: bool,
}

impl View for Found {
    type V = FoundView;

    open spec fn view(&self) -> FoundView {
        FoundView {
            tools: self.tools,
            patches: self.patches,
            scripts: self.scripts@,
            yaml_files: sorting::views(self.yaml_files@),
            private_dirs: sorting::views(self.private_dirs@),
            dockerfile: self.dockerfile,
            workflows: self.workflows,
            meson_build: self.meson_build,
            misc_sources: self.misc_sources,
        }
    }
}

pub const SPELLING_SKIP: &'static str = "./third_party/*,**/build/*,**/target/*,**/target-*/*,./.git/*,";

pub const SPELLING_SKIP_MORE: &'static str = "Cargo.lock,uv.lock,./patches/*,./coverage_report/*,./test-results/*,./.cargo-cache/*,./temp/*,./schema/node_modules/*,./schema/package-lock.json,mermaid.min.js,mermaid-init.js";

/// What the check of spelling passes over up to the first `n` private directories.
pub open spec fn spelling_skip(private_dirs: Seq<Seq<char>>, n: int) -> Seq<char>
    decreases n,
{
    if n <= 0 || n > private_dirs.len() {
        SPELLING_SKIP@
    } else {
        spelling_skip(private_dirs, n - 1) + "./"@ + private_dirs[n - 1] + "/*,"@
    }
}

fn skip_list(private_dirs: &Vec<String>) -> (r: String)
    ensures
        r@ == spelling_skip(sorting::views(private_dirs@), private_dirs@.len() as int)
            + SPELLING_SKIP_MORE@,
{
    let ghost all = sorting::views(private_dirs@);
    let mut r = owned(SPELLING_SKIP);
    let mut i: usize = 0;
    while i < private_dirs.len()
        invariant
            i <= private_dirs@.len(),
            all == sorting::views(private_dirs@),
            r@ == spelling_skip(all, i as int),
        decreases private_dirs@.len() - i,
    {
        proof {
            assert(all[i as int] == private_dirs@[i as int]@);
        }
        r = joined4(r.as_str(), "./", private_dirs[i].as_str(), "/*,");
        i += 1;
    }
    joined2(r.as_str(), SPELLING_SKIP_MORE)
}

/// The checks of Python sources.
pub open spec fn python_checks(tools: bool, patches: bool) -> Seq<CommandView> {
    let dirs: Seq<Seq<char>> = (if tools {
        seq!["tools"@]
    } else {
        Seq::empty()
    }) + (if patches {
        seq!["patches"@]
    } else {
        Seq::empty()
    });
    seq![command("ruff"@, "ruff"@, seq!["check"@, "."@])] + (if tools || patches {
        seq![command("mypy"@, "python3"@, seq!["-m"@, "mypy"@] + dirs)]
    } else {
        Seq::empty()
    })
}

/// The check of YAML files.
pub open spec fn yaml_checks(files: Seq<Seq<char>>) -> Seq<CommandView> {
    if files.len() > 0 {
        seq![
            command(
                "yamllint"@,
                "yamllint"@,
                seq!["--strict"@, "-d"@, "{extends: relaxed, rules: {line-length: disable}}"@]
                    + files,
            ),
        ]
    } else {
        Seq::empty()
    }
}

/// The checks of what is left.
pub open spec fn other_checks(found: FoundView) -> Seq<CommandView> {
    seq![
        command(
            "codespell"@,
            "codespell"@,
            seq![
                "--skip"@,
                spelling_skip(found.private_dirs, found.private_dirs.len() as int)
                    + SPELLING_SKIP_MORE@,
                "--ignore-words-list"@,
                "virtmcu,zenoh,qemu,qmp,riscv,TE"@,
                "."@,
            ],
        ),
    ] + (if found.dockerfile {
        seq![command("hadolint"@, "hadolint"@, seq!["docker/Dockerfile"@])]
    } else {
        Seq::empty()
    }) + (if found.workflows {
        seq![command("actionlint"@, "actionlint"@, Seq::empty())]
    } else {
        Seq::empty()
    }) + (if found.meson_build {
        seq![command("meson format"@, "meson"@, seq!["format"@, "-q"@, "hw/meson.build"@])]
    } else {
        Seq::empty()
    }) + (if found.misc_sources {
        seq![
            command("cppcheck"@, "cppcheck"@, seq!["--error-exitcode=1"@, "--quiet"@, "hw/misc"@]),
        ]
    } else {
        Seq::empty()
    })
}

/// The checks that run at the same time.
pub open spec fn concurrent_checks(root: Seq<char>, found: FoundView) -> Seq<CommandView> {
    python_checks(found.tools, found.patches) + script_checks(
        text::joined_path(root, "scripts"@),
        script_table(),
        found.scripts,
        17,
    ) + yaml_checks(
        checked_yaml(found.yaml_files, found.private_dirs, found.yaml_files.len() as int),
    ) + other_checks(
        found,
    )
}

fn push_python_checks(list: &mut Vec<LintCommand>, tools: bool, patches: bool)
    ensures
        sorting::views(final(list)@) == sorting::views(old(list)@) + python_checks(tools, patches),
{
    push_command(list, "ruff", "ruff", two_items("check", "."));
    if tools || patches {
        let mut args = two_items("-m", "mypy");
        if tools {
            push_item(&mut args, "tools");
        }
        if patches {
            push_item(&mut args, "patches");
        }
        proof {
            assert(sorting::views(args@) =~= python_checks(tools, patches)[1].args);
        }
        push_command(list, "mypy", "python3", args);
    }
    proof {
        assert(sorting::views(list@) =~= sorting::views(old(list)@) + python_checks(
            tools,
            patches,
        ));
    }
}

fn push_script_checks(list: &mut Vec<LintCommand>, dir: &str, present: &Vec<bool>)
    requires
        present@.len() == 17,
    ensures
        sorting::views(final(list)@) == sorting::views(old(list)@) + script_checks(
            dir@,
            script_table(),
            present@,
            17,
        ),
{
    let table = scripts();
    let ghost all = sorting::views(table@);
    let ghost start = sorting::views(list@);
    let mut i: usize = 0;
    proof {
        assert(all.len() == 17);
        assert(start =~= start + script_checks(dir@, all, present@, 0));
    }
    while i < table.len()
        invariant
            i <= table@.len() == present@.len(),
            all == sorting::views(table@),
            sorting::views(list@) == start + script_checks(dir@, all, present@, i as int),
        decreases table@.len() - i,
    {
        let script = &table[i];
        let ghost before = script_checks(dir@, all, present@, i as int);
        proof {
            assert(all[i as int] == script@);
        }
        if present[i] {
            let mut args = one_item(join_path(dir, script.command.as_str()).as_str());
            push_items(&mut args, &script.args);
            push_command(list, script.name.as_str(), "python3", args);
            proof {
                assert(sorting::views(list@) =~= start + before.push(script_command(dir@, script@)));
            }
        }
        i += 1;
    }
}

fn push_yaml_checks(
    list: &mut Vec<LintCommand>,
    paths: &Vec<String>,
    private_dirs: &Vec<String>,
)
    ensures
        sorting::views(final(list)@) == sorting::views(old(list)@) + yaml_checks(
            checked_yaml(
                sorting::views(paths@),
                sorting::views(private_dirs@),
                paths@.len() as int,
            ),
        ),
{
    let ghost all = sorting::views(paths@);
    let ghost start = sorting::views(list@);
    let mut files = no_items();
    let mut i: usize = 0;
    while i < paths.len()
        invariant
            i <= paths@.len(),
            all == sorting::views(paths@),
            sorting::views(files@) == checked_yaml(all, sorting::views(private_dirs@), i as int),
        decreases paths@.len() - i,
    {
        proof {
            assert(all[i as int] == paths@[i as int]@);
        }
        if checks_yaml(paths[i].as_str(), private_dirs) {
            push_item(&mut files, paths[i].as_str());
        }
        i += 1;
    }
    if files.len() > 0 {
        let mut args = three_items(
            "--strict",
            "-d",
            "{extends: relaxed, rules: {line-length: disable}}",
        );
        push_items(&mut args, &files);
        push_command(list, "yamllint", "yamllint", args);
    }
    proof {
        assert(sorting::views(list@) =~= start + yaml_checks(
            checked_yaml(all, sorting::views(private_dirs@), i as int),
        ));
    }
}

fn push_other_checks(list: &mut Vec<LintCommand>, found: &Found)
    ensures
        sorting::views(final(list)@) == sorting::views(old(list)@) + other_checks(found@),
{
    let mut spelling = three_items(
        "--skip",
        skip_list(&found.private_dirs).as_str(),
        "--ignore-words-list",
    );
    push_item(&mut spelling, "virtmcu,zenoh,qemu,qmp,riscv,TE");
    push_item(&mut spelling, ".");
    proof {
        assert(sorting::views(spelling@) =~= other_checks(found@)[0].args);
    }
    push_command(list, "codespell", "codespell", spelling);
    if found.dockerfile {
        push_command(list, "hadolint", "hadolint", one_item("docker/Dockerfile"));
    }
    if found.workflows {
        push_command(list, "actionlint", "actionlint", no_items());
    }
    if found.meson_build {
        push_command(list, "meson format", "meson", three_items("format", "-q", "hw/meson.build"));
    }
    if found.misc_sources {
        push_command(
            list,
            "cppcheck",
            "cppcheck",
            three_items("--error-exitcode=1", "--quiet", "hw/misc"),
        );
    }
    proof {
        assert(sorting::views(list@) =~= sorting::views(old(list)@) + other_checks(found@));
    }
}

/// How a check that is a program of its own went.
#[derive(Debug, Clone, PartialEq, Eq)]
pub enum CommandOutcome {
    /// There is no such program; the check is left out.
    NotInstalled,
    Succeeded,
    /// The program ended with an error: its status, its output and its error output.
    Failed(String, String, String),
    /// The program could not be started.
    NotStarted(String),
}

/// What is said of a check that did not pass.
pub open spec fn failure_of(outcome: CommandOutcome) -> Option<Seq<char>> {
    match outcome {
        CommandOutcome::NotInstalled => None,
        CommandOutcome::Succeeded => None,
        CommandOutcome::Failed(status, out, err) => Some(
            "Exit status: "@ + status@ + "\nSTDOUT:\n"@ + out@ + "\nSTDERR:\n"@ + err@,
        ),
        CommandOutcome::NotStarted(e) => Some("Failed to execute command: "@ + e@),
    }
}

/// What is said of a check that did not pass.
pub fn failure_text(outcome: &CommandOutcome) -> (r: Option<String>)
    ensures
        text::optional(r) == failure_of(*outcome),
{
    match outcome {
        CommandOutcome::NotInstalled => None,
        CommandOutcome::Succeeded => None,
        CommandOutcome::Failed(status, out, err) => Some(
            joined6(
                "Exit status: ",
                status.as_str(),
                "\nSTDOUT:\n",
                out.as_str(),
                "\nSTDERR:\n",
                err.as_str(),
            ),
        ),
        CommandOutcome::NotStarted(e) => Some(
            joined2("Failed to execute command: ", e.as_str()),
        ),
    }
}

/// Every check passed.
pub open spec fn none_failed(outcomes: Seq<CommandOutcome>) -> bool {
    forall|i: int| 0 <= i < outcomes.len() ==> failure_of(#[trigger] outcomes[i]) is None
}

/// Whether every check passed.
pub fn all_passed(outcomes: &Vec<CommandOutcome>) -> (r: bool)
    ensures
        r == none_failed(outcomes@),
{
    let mut i: usize = 0;
    while i < outcomes.len()
        invariant
            i <= outcomes@.len(),
            forall|k: int| 0 <= k < i ==> failure_of(#[trigger] outcomes@[k]) is None,
        decreases outcomes@.len() - i,
    {
        if failure_text(&outcomes[i]).is_some() {
            proof {
                assert(failure_of(outcomes@[i as int]) is Some);
            }
            return false;
        }
        i += 1;
    }
    true
}

impl LinterEngine {
    pub fn new(workspace_root: String, target_dir: String) -> (r: Self)
        ensures
            r.workspace_root@ == workspace_root@,
            r.target_dir@ == target_dir@,
    {
        LinterEngine { workspace_root, target_dir }
    }

    /// The checks that run at the same time.
    pub fn concurrent_lints(&self, found: &Found) -> (r: Vec<LintCommand>)
        requires
            found@.scripts.len() == script_table().len(),
        ensures
            sorting::views(r@) == concurrent_checks(self.workspace_root@, found@),
    {
        let mut list: Vec<LintCommand> = Vec::new();
        let dir = join_path(self.workspace_root.as_str(), "scripts");
        push_python_checks(&mut list, found.tools, found.patches);
        push_script_checks(&mut list, dir.as_str(), &found.scripts);
        push_yaml_checks(&mut list, &found.yaml_files, &found.private_dirs);
        push_other_checks(&mut list, found);
        proof {
            assert(sorting::views(list@) =~= concurrent_checks(self.workspace_root@, found@));
        }
        list
    }

    /// The search path of Python for a check.
    pub fn python_path(&self) -> (r: String)
        ensures
            r@ == self.workspace_root@ + ":"@ + text::joined_path(self.workspace_root@, "tools"@),
    {
        let root = self.workspace_root.as_str();
        joined3(root, ":", join_path(root, "tools").as_str())
    }
}

} // verus!
