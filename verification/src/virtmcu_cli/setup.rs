//! Getting what the simulator is built from.
use vstd::prelude::*;

use crate::sorting;
use crate::test_runner::lints::patterns;
use crate::test_runner::lints::patterns::regex_replace_all;
use crate::test_runner::variables;
use crate::test_runner::variables::Variables;
use crate::text;
use crate::text::{
    begins_with, chars_of, items_of, join_path, joined2, joined3, no_items, owned, push_item,
    split_lines, string_of, trim_text,
};

verus! {

/// The name and the value that a line gives: what stands before and behind the first `=`, without
/// white space around it; `None` in a comment.
pub open spec fn setting_of(line: Seq<char>) -> Option<(Seq<char>, Seq<char>)> {
    let at = text::next_char(line, '=', 0);
    if at >= line.len() || line[0] == '#' {
        None
    } else {
        Some((text::trimmed(line.take(at)), text::trimmed(line.skip(at + 1))))
    }
}

/// What the first `n` lines set.
pub open spec fn settings_of(lines: Seq<Seq<char>>, n: int) -> Seq<variables::VariableView>
    decreases n,
{
    if n <= 0 || n > lines.len() {
        Seq::empty()
    } else {
        let front = settings_of(lines, n - 1);
        match setting_of(lines[n - 1]) {
            Some(s) => variables::with_value(front, s.0, s.1),
            None => front,
        }
    }
}

/// Reads a line that gives a version.
pub fn read_setting(line: &str) -> (r: Option<(String, String)>)
    ensures
        match r {
            Some(s) => setting_of(line@) == Some((s.0@, s.1@)),
            None => setting_of(line@) is None,
        },
{
    let cs = chars_of(line);
    let mut at: usize = 0;
    while at < cs.len() && cs[at] != '='
        invariant
            at <= cs@.len(),
            cs@ == line@,
            text::next_char(line@, '=', 0) == text::next_char(line@, '=', at as int),
        decreases cs@.len() - at,
    {
        at += 1;
    }
    if at >= cs.len() || begins_with(line, '#') {
        return None;
    }
    let mut name: Vec<char> = Vec::new();
    let mut i: usize = 0;
    while i < at
        invariant
            i <= at < cs@.len(),
            name@ == cs@.take(i as int),
        decreases at - i,
    {
        name.push(cs[i]);
        i += 1;
        proof {
            assert(name@ =~= cs@.take(i as int));
        }
    }
    let mut value: Vec<char> = Vec::new();
    let mut k: usize = at + 1;
    proof {
        assert(value@ =~= cs@.subrange(at + 1, k as int));
    }
    while k < cs.len()
        invariant
            at < k <= cs@.len(),
            value@ == cs@.subrange(at + 1, k as int),
        decreases cs@.len() - k,
    {
        value.push(cs[k]);
        k += 1;
        proof {
            assert(value@ =~= cs@.subrange(at + 1, k as int));
        }
    }
    proof {
        assert(value@ =~= line@.skip(at + 1));
    }
    let name = string_of(name);
    let value = string_of(value);
    Some((trim_text(name.as_str()), trim_text(value.as_str())))
}

/// Reads the versions of what the simulator is built from; of a name that is given twice, the last
/// value holds.
pub fn get_build_deps(content: &str) -> (r: Variables)
    ensures
        r@ == settings_of(text::lines_of(content@), text::lines_of(content@).len() as int),
{
    let lines = split_lines(content);
    let ghost all = text::lines_of(content@);
    let mut r = Variables::new();
    let mut i: usize = 0;
    while i < lines.len()
        invariant
            i <= lines@.len(),
            all == sorting::views(lines@),
            all == text::lines_of(content@),
            r@ == settings_of(all, i as int),
        decreases lines@.len() - i,
    {
        proof {
            assert(all[i as int] == lines@[i as int]@);
        }
        match read_setting(lines[i].as_str()) {
            Some(s) => {
                r.insert(s.0.as_str(), s.1.as_str());
            },
            None => {},
        }
        i += 1;
    }
    r
}

/// The pattern of a dependency on the transport.
pub const TRANSPORT_PATTERN: &'static str = "zenoh = \"[^\"]+\"";

/// Sets the version of the transport in a list of dependencies; `None` if the pattern of the
/// dependency is no regular expression.
pub fn sync_version(content: &str, version: &str) -> (r: Option<String>)
    ensures
        text::optional(r) == patterns::regex_replace_all_of(
            TRANSPORT_PATTERN@,
            content@,
            "zenoh = \""@ + version@ + "\""@,
        ),
{
    let line = joined3("zenoh = \"", version, "\"");
    regex_replace_all(TRANSPORT_PATTERN, content, line.as_str())
}

/// The tag of a version: it begins with a `v`.
pub open spec fn tag_of(version: Seq<char>) -> Seq<char> {
    if version.len() > 0 && version[0] == 'v' {
        version
    } else {
        "v"@ + version
    }
}

/// The tag of a version.
pub fn version_tag(version: &str) -> (r: String)
    ensures
        r@ == tag_of(version@),
{
    if begins_with(version, 'v') {
        owned(version)
    } else {
        joined2("v", version)
    }
}

/// The version that is set, or another one.
pub open spec fn version_or(
    deps: Seq<variables::VariableView>,
    name: Seq<char>,
    other: Seq<char>,
) -> Seq<char> {
    match variables::value_of(deps, name) {
        Some(v) => v,
        None => other,
    }
}

fn get_or(deps: &Variables, name: &str, other: &str) -> (r: String)
    ensures
        r@ == version_or(deps@, name@, other@),
{
    match deps.get(name) {
        Some(v) => v,
        None => owned(other),
    }
}

/// The branch of the transport's library in C.
pub fn transport_branch(deps: &Variables) -> (r: String)
    ensures
        r@ == version_or(deps@, "ZENOH_VERSION"@, "main"@),
{
    get_or(deps, "ZENOH_VERSION", "main")
}

/// The tag of the schema compiler.
pub fn schema_compiler_tag(deps: &Variables) -> (r: String)
    ensures
        r@ == tag_of(version_or(deps@, "FLATCC_VERSION"@, "0.6.1"@)),
{
    version_tag(get_or(deps, "FLATCC_VERSION", "0.6.1").as_str())
}

/// The tag of the emulator.
pub fn emulator_tag(deps: &Variables) -> (r: String)
    ensures
        r@ == tag_of(version_or(deps@, "QEMU_VERSION"@, "v11.0.0"@)),
{
    version_tag(get_or(deps, "QEMU_VERSION", "v11.0.0").as_str())
}

/// Where the transport's library in C comes from.
pub const TRANSPORT_URL: &'static str = "https://github.com/eclipse-zenoh/zenoh-c.git";

/// Where the schema compiler comes from.
pub const SCHEMA_COMPILER_URL: &'static str = "https://github.com/dvidelabs/flatcc.git";

/// The arguments that get one branch of a repository.
pub fn clone_args(branch: &str, url: &str, dir: &str) -> (r: Vec<String>)
    ensures
        sorting::views(r@) == seq!["clone"@, "--depth"@, "1"@, "--branch"@, branch@, url@, dir@],
{
    let mut r = items_of(vec!["clone", "--depth", "1", "--branch"]);
    push_item(&mut r, branch);
    push_item(&mut r, url);
    push_item(&mut r, dir);
    proof {
        assert(sorting::views(r@) =~= seq![
            "clone"@,
            "--depth"@,
            "1"@,
            "--branch"@,
            branch@,
            url@,
            dir@,
        ]);
    }
    r
}

/// The directory in which the transport's library is built.
pub fn transport_build_dir(path: &str, use_asan: bool) -> (r: String)
    ensures
        r@ == text::joined_path(
            path@,
            if use_asan {
                "build-asan"@
            } else {
                "build-release"@
            },
        ),
{
    if use_asan {
        join_path(path, "build-asan")
    } else {
        join_path(path, "build-release")
    }
}

/// The arguments that set up the build of the transport's library.
pub open spec fn transport_args_of(path: Seq<char>, build_dir: Seq<char>, use_asan: bool) -> Seq<
    Seq<char>,
> {
    seq![
        "-S"@,
        path,
        "-B"@,
        build_dir,
        "-DCMAKE_BUILD_TYPE=Release"@,
        "-DZENOHC_BUILD_WITH_SHARED_MEMORY=OFF"@,
    ] + (if use_asan {
        seq![
            "-DCMAKE_SHARED_LINKER_FLAGS=-fsanitize=address -fsanitize=undefined"@,
            "-DCMAKE_EXE_LINKER_FLAGS=-fsanitize=address -fsanitize=undefined"@,
        ]
    } else {
        Seq::empty()
    })
}

/// The arguments that set up the build of the transport's library.
pub fn configure_zenoh_c(path: &str, build_dir: &str, use_asan: bool) -> (r: Vec<String>)
    ensures
        sorting::views(r@) == transport_args_of(path@, build_dir@, use_asan),
{
    let mut r = no_items();
    push_item(&mut r, "-S");
    push_item(&mut r, path);
    push_item(&mut r, "-B");
    push_item(&mut r, build_dir);
    push_item(&mut r, "-DCMAKE_BUILD_TYPE=Release");
    push_item(&mut r, "-DZENOHC_BUILD_WITH_SHARED_MEMORY=OFF");
    if use_asan {
        push_item(
            &mut r,
            "-DCMAKE_SHARED_LINKER_FLAGS=-fsanitize=address -fsanitize=undefined",
        );
        push_item(&mut r, "-DCMAKE_EXE_LINKER_FLAGS=-fsanitize=address -fsanitize=undefined");
    }
    proof {
        assert(sorting::views(r@) =~= transport_args_of(path@, build_dir@, use_asan));
    }
    r
}

/// The arguments that set up the build of the schema compiler.
pub fn configure_flatcc(path: &str, build_dir: &str) -> (r: Vec<String>)
    ensures
        sorting::views(r@) == seq![
            "-S"@,
            path@,
            "-B"@,
            build_dir@,
            "-DFLATCC_INSTALL=ON"@,
            "-DCMAKE_BUILD_TYPE=Release"@,
            "-DCMAKE_POLICY_VERSION_MINIMUM=3.5"@,
        ],
{
    let mut r = no_items();
    push_item(&mut r, "-S");
    push_item(&mut r, path);
    push_item(&mut r, "-B");
    push_item(&mut r, build_dir);
    push_item(&mut r, "-DFLATCC_INSTALL=ON");
    push_item(&mut r, "-DCMAKE_BUILD_TYPE=Release");
    push_item(&mut r, "-DCMAKE_POLICY_VERSION_MINIMUM=3.5");
    proof {
        assert(sorting::views(r@) =~= seq![
            "-S"@,
            path@,
            "-B"@,
            build_dir@,
            "-DFLATCC_INSTALL=ON"@,
            "-DCMAKE_BUILD_TYPE=Release"@,
            "-DCMAKE_POLICY_VERSION_MINIMUM=3.5"@,
        ]);
    }
    r
}

/// The arguments that set up the build of the emulator.
pub open spec fn emulator_args_of(build_dir: Seq<char>, arch: Seq<char>, use_asan: bool) -> Seq<
    Seq<char>,
> {
    seq![
        "--prefix="@ + build_dir + "/install"@,
        "--target-list="@ + arch + "-softmmu,riscv32-softmmu,riscv64-softmmu"@,
        "--enable-rust"@,
        "--enable-modules"@,
        "--enable-fdt"@,
        "--enable-plugins"@,
        "--enable-debug"@,
        "--enable-gcov"@,
        "--disable-werror"@,
        "--disable-docs"@,
        "--disable-dbus-display"@,
        "--extra-ldflags=-fuse-ld=lld -rdynamic"@,
    ] + (if use_asan {
        seq!["--enable-asan"@, "--enable-ubsan"@, "-Db_sanitize=address,undefined"@]
    } else {
        Seq::empty()
    })
}

/// The arguments that set up the build of the emulator on a kind of machine.
pub fn configure_qemu(build_dir: &str, arch: &str, use_asan: bool) -> (r: Vec<String>)
    ensures
        sorting::views(r@) == emulator_args_of(build_dir@, arch@, use_asan),
{
    let mut r = no_items();
    push_item(&mut r, joined3("--prefix=", build_dir, "/install").as_str());
    push_item(
        &mut r,
        joined3("--target-list=", arch, "-softmmu,riscv32-softmmu,riscv64-softmmu").as_str(),
    );
    push_item(&mut r, "--enable-rust");
    push_item(&mut r, "--enable-modules");
    push_item(&mut r, "--enable-fdt");
    push_item(&mut r, "--enable-plugins");
    push_item(&mut r, "--enable-debug");
    push_item(&mut r, "--enable-gcov");
    push_item(&mut r, "--disable-werror");
    push_item(&mut r, "--disable-docs");
    push_item(&mut r, "--disable-dbus-display");
    push_item(&mut r, "--extra-ldflags=-fuse-ld=lld -rdynamic");
    if use_asan {
        push_item(&mut r, "--enable-asan");
        push_item(&mut r, "--enable-ubsan");
        push_item(&mut r, "-Db_sanitize=address,undefined");
    }
    proof {
        assert(sorting::views(r@) =~= emulator_args_of(build_dir@, arch@, use_asan));
    }
    r
}

/// The directory in which the emulator is built.
pub open spec fn emulator_dir_of(use_asan: bool, use_tsan: bool) -> Seq<char> {
    if use_asan {
        "build-virtmcu-asan"@
    } else if use_tsan {
        "build-virtmcu-tsan"@
    } else {
        "build-virtmcu"@
    }
}

/// The directory in which the emulator is built.
pub fn emulator_build_dir(use_asan: bool, use_tsan: bool) -> (r: String)
    ensures
        r@ == emulator_dir_of(use_asan, use_tsan),
{
    if use_asan {
        owned("build-virtmcu-asan")
    } else if use_tsan {
        owned("build-virtmcu-tsan")
    } else {
        owned("build-virtmcu")
    }
}

/// The processes of a simulation, which a clean-up ends.
pub fn simulation_processes() -> (r: Vec<&'static str>)
    ensures
        r@ == seq![
            "qemu-system-arm",
            "qemu-system-aarch64",
            "qemu-system-riscv64",
            "qemu-system-riscv32",
            "zenohd",
            "zenoh_router",
            "deterministic_coordinator",
            "mmio-socket-bridge",
        ],
{
    let r = vec![
        "qemu-system-arm",
        "qemu-system-aarch64",
        "qemu-system-riscv64",
        "qemu-system-riscv32",
        "zenohd",
        "zenoh_router",
        "deterministic_coordinator",
        "mmio-socket-bridge",
    ];
    proof {
        assert(r@ =~= seq![
            "qemu-system-arm",
            "qemu-system-aarch64",
            "qemu-system-riscv64",
            "qemu-system-riscv32",
            "zenohd",
            "zenoh_router",
            "deterministic_coordinator",
            "mmio-socket-bridge",
        ]);
    }
    r
}

} // verus!
