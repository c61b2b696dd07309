//! Where the emulator, its modules and its libraries are.
use vstd::prelude::*;

use crate::sorting;
use crate::text;
use crate::text::{
    contains_text, join_path, join_text, joined2, joined3, joined4, joined5, no_items, owned,
    push_item, same_text, starts_with_text,
};

verus! {

/// Finds what is needed to start an emulator.
#[derive(Debug, Clone, PartialEq, Eq)]
pub struct QemuLauncher {
    pub workspace_root: String,
}

/// The name of the directory that the emulator is built in.
pub open spec fn build_dir(asan: bool, tsan: bool) -> Seq<char> {
    "build-virtmcu"@ + (if asan {
        "-asan"@
    } else {
        ""@
    }) + (if tsan {
        "-tsan"@
    } else {
        ""@
    })
}

/// The name of the directory that the emulator is built in.
pub fn build_dir_text(asan: bool, tsan: bool) -> (r: String)
    ensures
        r@ == build_dir(asan, tsan),
{
    joined3(
        "build-virtmcu",
        if asan {
            "-asan"
        } else {
            ""
        },
        if tsan {
            "-tsan"
        } else {
            ""
        },
    )
}

/// The name that the emulator has for an architecture.
pub open spec fn qemu_arch(arch: Seq<char>) -> Seq<char> {
    if arch == "riscv"@ || arch == "riscv64"@ {
        "riscv64"@
    } else if arch == "riscv32"@ {
        "riscv32"@
    } else {
        "arm"@
    }
}

/// The name that the emulator has for an architecture.
pub fn qemu_arch_name(arch: &str) -> (r: String)
    ensures
        r@ == qemu_arch(arch@),
{
    if same_text(arch, "riscv") || same_text(arch, "riscv64") {
        owned("riscv64")
    } else if same_text(arch, "riscv32") {
        owned("riscv32")
    } else {
        owned("arm")
    }
}

/// Where a prebuilt emulator may stand.
pub open spec fn prebuilt_candidates(dir: Seq<char>, arch: Seq<char>) -> Seq<Seq<char>> {
    seq![
        "/build/qemu/"@ + dir + "/install/bin/qemu-system-"@ + arch,
        "/build/qemu/build-virtmcu/install/bin/qemu-system-"@ + arch,
    ]
}

/// The two places in a directory where a build leaves the emulator.
pub open spec fn built_in(root: Seq<char>, dir: Seq<char>, arch: Seq<char>) -> Seq<Seq<char>> {
    seq![
        text::joined_path(root, dir + "/qemu-system-"@ + arch),
        text::joined_path(root, dir + "/install/bin/qemu-system-"@ + arch),
    ]
}

/// Where an emulator that was built in the workspace may stand, in the order of preference.
pub open spec fn workspace_candidates(
    workspace: Seq<char>,
    dir: Seq<char>,
    arch: Seq<char>,
) -> Seq<Seq<char>> {
    let root = text::joined_path(workspace, "third_party/qemu"@);
    built_in(root, dir, arch) + (if dir != "build-virtmcu"@ {
        built_in(root, "build-virtmcu"@, arch)
    } else {
        Seq::empty()
    }) + seq![
        text::joined_path(
            root,
            dir + "/qemu-bundle/workspace/third_party/qemu/"@ + dir
                + "/install/bin/qemu-system-"@ + arch,
        ),
    ]
}

/// Where the emulator for an architecture may stand, in the order of preference.
pub open spec fn emulator_candidates(
    workspace: Seq<char>,
    prebuilt: bool,
    dir: Seq<char>,
    arch: Seq<char>,
) -> Seq<Seq<char>> {
    if prebuilt {
        prebuilt_candidates(dir, qemu_arch(arch))
    } else {
        workspace_candidates(workspace, dir, qemu_arch(arch))
    }
}

fn push_built(list: &mut Vec<String>, root: &str, dir: &str, arch: &str)
    ensures
        sorting::views(final(list)@) == sorting::views(old(list)@) + built_in(root@, dir@, arch@),
{
    push_item(list, join_path(root, joined3(dir, "/qemu-system-", arch).as_str()).as_str());
    push_item(
        list,
        join_path(root, joined3(dir, "/install/bin/qemu-system-", arch).as_str()).as_str(),
    );
    proof {
        assert(sorting::views(list@) =~= sorting::views(old(list)@) + built_in(
            root@,
            dir@,
            arch@,
        ));
    }
}

/// The first flag that is set.
pub open spec fn first_set(flags: Seq<bool>, i: int) -> Option<int>
    decreases flags.len() - i,
{
    if i < 0 || i >= flags.len() {
        None
    } else if flags[i] {
        Some(i)
    } else {
        first_set(flags, i + 1)
    }
}

/// The first flag that is set.
pub fn first_true(flags: &Vec<bool>) -> (r: Option<usize>)
    ensures
        match r {
            Some(i) => i < flags@.len() && first_set(flags@, 0) == Some(i as int) && flags@[i as int],
            None => first_set(flags@, 0) is None,
        },
{
    let mut i: usize = 0;
    while i < flags.len()
        invariant
            i <= flags@.len(),
            first_set(flags@, 0) == first_set(flags@, i as int),
        decreases flags@.len() - i,
    {
        if flags[i] {
            return Some(i);
        }
        i += 1;
    }
    None
}

/// The first candidate that is there.
pub open spec fn first_present(candidates: Seq<Seq<char>>, present: Seq<bool>) -> Option<
    Seq<char>,
> {
    match first_set(present, 0) {
        Some(i) => Some(candidates[i]),
        None => None,
    }
}

/// Why no emulator was found: the architecture and where it was looked for.
#[derive(Debug, Clone, PartialEq, Eq)]
pub struct EmulatorMissing {
    pub arch: String,
    pub checked: Vec<String>,
}

/// The directories below the emulator's that may hold its modules, in the order of preference.
pub open spec fn module_subdirs(host: Seq<char>) -> Seq<Seq<char>> {
    (if host == "aarch64"@ {
        seq!["install/lib/aarch64-linux-gnu/qemu"@, "install/lib/x86_64-linux-gnu/qemu"@]
    } else {
        seq!["install/lib/x86_64-linux-gnu/qemu"@, "install/lib/aarch64-linux-gnu/qemu"@]
    }) + seq!["install/lib/qemu"@, "install/lib64/qemu"@, "lib/qemu"@, "lib64/qemu"@]
}

/// The directory that the emulator's own directories are in.
pub open spec fn emulator_base(
    workspace: Seq<char>,
    prebuilt: bool,
    dir: Seq<char>,
    prebuilt_exists: bool,
) -> Seq<char> {
    if !prebuilt {
        text::joined_path(text::joined_path(workspace, "third_party/qemu"@), dir)
    } else if prebuilt_exists {
        "/build/qemu/"@ + dir
    } else {
        "/build/qemu/build-virtmcu"@
    }
}

/// Each of the paths below `base`.
pub open spec fn all_below(base: Seq<char>, paths: Seq<Seq<char>>) -> Seq<Seq<char>> {
    Seq::new(paths.len(), |i: int| text::joined_path(base, paths[i]))
}

/// A file is one of the emulator's modules.
pub open spec fn is_module(file: Seq<char>) -> bool {
    text::has_prefix(file, "hw-virtmcu-"@) && text::occurs(file, ".so"@)
}

/// Whether a file is one of the emulator's modules.
pub fn is_module_file(file: &str) -> (r: bool)
    ensures
        r == is_module(file@),
{
    starts_with_text(file, "hw-virtmcu-") && contains_text(file, ".so")
}

/// The platform that programs for a host are built for.
pub open spec fn triple_of(host: Seq<char>) -> Seq<char> {
    if host == "aarch64"@ {
        "aarch64-unknown-linux-gnu"@
    } else if host == "x86_64"@ {
        "x86_64-unknown-linux-gnu"@
    } else {
        "unknown"@
    }
}

/// The platform that programs for a host are built for.
pub fn host_triple(host: &str) -> (r: String)
    ensures
        r@ == triple_of(host@),
{
    if same_text(host, "aarch64") {
        owned("aarch64-unknown-linux-gnu")
    } else if same_text(host, "x86_64") {
        owned("x86_64-unknown-linux-gnu")
    } else {
        owned("unknown")
    }
}

/// A directory that programs are built in, and what is in it.
#[derive(Debug, Clone, PartialEq, Eq)]
pub struct TargetDir {
    pub base: String,
    /// There is a directory in it for the host's own platform.
    pub has_host: bool,
    /// The names of the directories in it.
    pub entries: Vec<String>,
}

#[verifier::ext_equal]
pub struct TargetDirView {
    pub base: Seq<char>,
    pub has_host: bool,
    pub entries: Seq<Seq<char>>,
}

impl View for TargetDir {
    type V = TargetDirView;

    open spec fn view(&self) -> TargetDirView {
        TargetDirView {
            base: self.base@,
            has_host: self.has_host,
            entries: sorting::views(self.entries@),
        }
    }
}

/// The three directories of a build that hold libraries.
pub open spec fn library_dirs(base: Seq<char>) -> Seq<Seq<char>> {
    seq![
        text::joined_path(base, "debug"@),
        text::joined_path(base, "release"@),
        text::joined_path(base, "debug/deps"@),
    ]
}

/// The libraries of the first `n` directories that are for another platform.
pub open spec fn other_platforms(
    base: Seq<char>,
    triple: Seq<char>,
    entries: Seq<Seq<char>>,
    n: int,
) -> Seq<Seq<char>>
    decreases n,
{
    if n <= 0 || n > entries.len() {
        Seq::empty()
    } else {
        let front = other_platforms(base, triple, entries, n - 1);
        let name = entries[n - 1];
        if name != triple && text::occurs(name, "-unknown-linux-gnu"@) {
            front + library_dirs(text::joined_path(base, name))
        } else {
            front
        }
    }
}

/// The libraries in one directory: those of the host's platform first.
pub open spec fn libraries_in(dir: TargetDirView, triple: Seq<char>) -> Seq<Seq<char>> {
    (if dir.has_host {
        library_dirs(text::joined_path(dir.base, triple))
    } else {
        Seq::empty()
    }) + library_dirs(dir.base) + other_platforms(
        dir.base,
        triple,
        dir.entries,
        dir.entries.len() as int,
    )
}

/// The libraries in the first `n` directories.
pub open spec fn libraries_in_all(dirs: Seq<TargetDirView>, triple: Seq<char>, n: int) -> Seq<
    Seq<char>,
>
    decreases n,
{
    if n <= 0 || n > dirs.len() {
        Seq::empty()
    } else {
        libraries_in_all(dirs, triple, n - 1) + libraries_in(dirs[n - 1], triple)
    }
}

/// The directories that libraries are looked for in.
pub open spec fn library_path(
    workspace: Seq<char>,
    dirs: Seq<TargetDirView>,
    host: Seq<char>,
    existing: Seq<char>,
) -> Seq<Seq<char>> {
    seq![text::joined_path(workspace, "third_party/zenoh-c/lib"@)] + libraries_in_all(
        dirs,
        triple_of(host),
        dirs.len() as int,
    ) + (if existing.len() > 0 {
        seq![existing]
    } else {
        Seq::empty()
    })
}

fn push_library_dirs(list: &mut Vec<String>, base: &str)
    ensures
        sorting::views(final(list)@) == sorting::views(old(list)@) + library_dirs(base@),
{
    push_item(list, join_path(base, "debug").as_str());
    push_item(list, join_path(base, "release").as_str());
    push_item(list, join_path(base, "debug/deps").as_str());
    proof {
        assert(sorting::views(list@) =~= sorting::views(old(list)@) + library_dirs(base@));
    }
}

fn push_libraries(list: &mut Vec<String>, dir: &TargetDir, triple: &str)
    ensures
        sorting::views(final(list)@) == sorting::views(old(list)@) + libraries_in(dir@, triple@),
{
    let ghost start = sorting::views(list@);
    let base = dir.base.as_str();
    if dir.has_host {
        push_library_dirs(list, join_path(base, triple).as_str());
    }
    push_library_dirs(list, base);
    let ghost own = sorting::views(list@);
    let ghost entries = sorting::views(dir.entries@);
    let mut i: usize = 0;
    proof {
        assert(own =~= own + other_platforms(base@, triple@, entries, 0));
    }
    while i < dir.entries.len()
        invariant
            i <= dir.entries@.len(),
            entries == sorting::views(dir.entries@),
            sorting::views(list@) == own + other_platforms(base@, triple@, entries, i as int),
        decreases dir.entries@.len() - i,
    {
        let name = dir.entries[i].as_str();
        let ghost before = other_platforms(base@, triple@, entries, i as int);
        proof {
            assert(entries[i as int] == name@);
        }
        if !same_text(name, triple) && contains_text(name, "-unknown-linux-gnu") {
            push_library_dirs(list, join_path(base, name).as_str());
            proof {
                assert(sorting::views(list@) =~= own + (before + library_dirs(
                    text::joined_path(base@, name@),
                )));
            }
        }
        i += 1;
    }
    proof {
        assert(sorting::views(list@) =~= start + libraries_in(dir@, triple@));
    }
}

impl QemuLauncher {
    pub fn new(workspace_root: String) -> (r: Self)
        ensures
            r.workspace_root@ == workspace_root@,
    {
        QemuLauncher { workspace_root }
    }

    /// The name of the directory that the emulator is built in.
    pub fn build_dir_name(&self, asan: bool, tsan: bool) -> (r: String)
        ensures
            r@ == build_dir(asan, tsan),
    {
        build_dir_text(asan, tsan)
    }

    /// Where the emulator for an architecture may stand, in the order of preference.
    pub fn candidates(&self, arch: &str, prebuilt: bool, dir: &str) -> (r: Vec<String>)
        ensures
            sorting::views(r@) == emulator_candidates(self.workspace_root@, prebuilt, dir@, arch@),
    {
        let name = qemu_arch_name(arch);
        let name = name.as_str();
        let mut list = no_items();
        if prebuilt {
            push_item(
                &mut list,
                joined4("/build/qemu/", dir, "/install/bin/qemu-system-", name).as_str(),
            );
            push_item(
                &mut list,
                joined2("/build/qemu/build-virtmcu/install/bin/qemu-system-", name).as_str(),
            );
        } else {
            let root = join_path(self.workspace_root.as_str(), "third_party/qemu");
            let root = root.as_str();
            push_built(&mut list, root, dir, name);
            if !same_text(dir, "build-virtmcu") {
                push_built(&mut list, root, "build-virtmcu", name);
            }
            let bundle = joined5(
                dir,
                "/qemu-bundle/workspace/third_party/qemu/",
                dir,
                "/install/bin/qemu-system-",
                name,
            );
            push_item(&mut list, join_path(root, bundle.as_str()).as_str());
        }
        proof {
            assert(sorting::views(list@) =~= emulator_candidates(
                self.workspace_root@,
                prebuilt,
                dir@,
                arch@,
            ));
        }
        list
    }

    /// The emulator for an architecture: the one that was named, if it was, or else the first
    /// candidate that is a file.
    pub fn resolve_qemu_bin(
        &self,
        arch: &str,
        named: &Option<String>,
        prebuilt: bool,
        dir: &str,
        is_file: &Vec<bool>,
    ) -> (r: Result<String, EmulatorMissing>)
        requires
            is_file@.len() == emulator_candidates(
                self.workspace_root@,
                prebuilt,
                dir@,
                arch@,
            ).len(),
        ensures
            ({
                let all = emulator_candidates(self.workspace_root@, prebuilt, dir@, arch@);
                match text::optional(*named) {
                    Some(bin) if bin.len() > 0 => r is Ok && r->Ok_0@ == bin,
                    _ => match first_present(all, is_file@) {
                        Some(path) => r is Ok && r->Ok_0@ == path,
                        None => r is Err && r->Err_0.arch@ == arch@ && sorting::views(
                            r->Err_0.checked@,
                        ) == all,
                    },
                }
            }),
    {
        match named {
            Some(bin) => {
                if !bin.as_str().is_empty() {
                    return Ok(owned(bin.as_str()));
                }
            },
            None => {},
        }
        let all = self.candidates(arch, prebuilt, dir);
        match first_true(is_file) {
            Some(i) => {
                proof {
                    assert(sorting::views(all@)[i as int] == all@[i as int]@);
                }
                Ok(owned(all[i].as_str()))
            },
            None => Err(EmulatorMissing { arch: owned(arch), checked: all }),
        }
    }

    /// Where the emulator's modules may be, in the order of preference.
    pub fn module_candidates(
        &self,
        prebuilt: bool,
        dir: &str,
        prebuilt_exists: bool,
        host: &str,
    ) -> (r: Vec<String>)
        ensures
            sorting::views(r@) == all_below(
                emulator_base(self.workspace_root@, prebuilt, dir@, prebuilt_exists),
                module_subdirs(host@),
            ),
    {
        let base = if !prebuilt {
            join_path(
                join_path(self.workspace_root.as_str(), "third_party/qemu").as_str(),
                dir,
            )
        } else if prebuilt_exists {
            joined2("/build/qemu/", dir)
        } else {
            owned("/build/qemu/build-virtmcu")
        };
        let base = base.as_str();
        let mut list = no_items();
        if same_text(host, "aarch64") {
            push_item(&mut list, join_path(base, "install/lib/aarch64-linux-gnu/qemu").as_str());
            push_item(&mut list, join_path(base, "install/lib/x86_64-linux-gnu/qemu").as_str());
        } else {
            push_item(&mut list, join_path(base, "install/lib/x86_64-linux-gnu/qemu").as_str());
            push_item(&mut list, join_path(base, "install/lib/aarch64-linux-gnu/qemu").as_str());
        }
        push_item(&mut list, join_path(base, "install/lib/qemu").as_str());
        push_item(&mut list, join_path(base, "install/lib64/qemu").as_str());
        push_item(&mut list, join_path(base, "lib/qemu").as_str());
        push_item(&mut list, join_path(base, "lib64/qemu").as_str());
        proof {
            assert(sorting::views(list@) =~= all_below(base@, module_subdirs(host@)));
        }
        list
    }

    /// The directory of the emulator's modules: the first candidate that holds one. `files` gives
    /// the names of the files in each candidate, none where it is no directory.
    pub fn get_module_dir(&self, candidates: &Vec<String>, files: &Vec<Vec<String>>) -> (r: Option<
        String,
    >)
        requires
            candidates@.len() == files@.len(),
        ensures
            text::optional(r) == first_present(
                sorting::views(candidates@),
                holds_module(file_lists(files@)),
            ),
    {
        let ghost lists = file_lists(files@);
        let ghost flags = holds_module(lists);
        let mut i: usize = 0;
        while i < files.len()
            invariant
                i <= files@.len(),
                candidates@.len() == files@.len(),
                lists == file_lists(files@),
                flags == holds_module(lists),
                first_set(flags, 0) == first_set(flags, i as int),
            decreases files@.len() - i,
        {
            let ghost list = sorting::views(files@[i as int]@);
            proof {
                assert(lists[i as int] == list);
            }
            let mut k: usize = 0;
            while k < files[i].len()
                invariant
                    i < files@.len(),
                    k <= files@[i as int]@.len(),
                    candidates@.len() == files@.len(),
                    list == sorting::views(files@[i as int]@),
                    lists == file_lists(files@),
                    lists[i as int] == list,
                    flags == holds_module(lists),
                    first_set(flags, 0) == first_set(flags, i as int),
                    forall|j: int| 0 <= j < k ==> !is_module(#[trigger] list[j]),
                decreases files@[i as int]@.len() - k,
            {
                if is_module_file(files[i][k].as_str()) {
                    proof {
                        assert(is_module(list[k as int]));
                        assert(flags[i as int]);
                        assert(sorting::views(candidates@)[i as int] == candidates@[i as int]@);
                    }
                    return Some(owned(candidates[i].as_str()));
                }
                k += 1;
            }
            proof {
                assert(!flags[i as int]);
            }
            i += 1;
        }
        None
    }

    /// The directories that libraries are looked for in, given what is in the directories that
    /// programs are built in.
    pub fn get_ld_library_path(&self, dirs: &Vec<TargetDir>, host: &str, existing: &str) -> (r:
        String)
        ensures
            r@ == text::join_seq(
                library_path(self.workspace_root@, sorting::views(dirs@), host@, existing@),
                ":"@,
            ),
    {
        let triple = host_triple(host);
        let triple = triple.as_str();
        let ghost all = sorting::views(dirs@);
        let mut list = no_items();
        push_item(
            &mut list,
            join_path(self.workspace_root.as_str(), "third_party/zenoh-c/lib").as_str(),
        );
        let ghost first = sorting::views(list@);
        let mut i: usize = 0;
        proof {
            assert(first =~= first + libraries_in_all(all, triple@, 0));
        }
        while i < dirs.len()
            invariant
                i <= dirs@.len(),
                all == sorting::views(dirs@),
                sorting::views(list@) == first + libraries_in_all(all, triple@, i as int),
            decreases dirs@.len() - i,
        {
            let ghost before = libraries_in_all(all, triple@, i as int);
            push_libraries(&mut list, &dirs[i], triple);
            proof {
                assert(all[i as int] == dirs@[i as int]@);
                assert(sorting::views(list@) =~= first + (before + libraries_in(
                    all[i as int],
                    triple@,
                )));
            }
            i += 1;
        }
        if !existing.is_empty() {
            push_item(&mut list, existing);
        }
        proof {
            assert(sorting::views(list@) =~= library_path(
                self.workspace_root@,
                all,
                host@,
                existing@,
            ));
            assert(sorting::views(list@).take(list@.len() as int) =~= sorting::views(list@));
        }
        join_text(&list, list.len(), ":")
    }

    /// The directories that programs are built in.
    pub fn target_dirs(&self, cargo_target: &Option<String>) -> (r: Vec<String>)
        ensures
            sorting::views(r@) == build_dirs(self.workspace_root@, text::optional(*cargo_target)),
    {
        let root = self.workspace_root.as_str();
        let mut list = no_items();
        push_item(&mut list, join_path(root, "target").as_str());
        push_item(&mut list, join_path(root, "target-asan").as_str());
        push_item(&mut list, join_path(root, "target-tsan").as_str());
        match cargo_target {
            Some(dir) => {
                push_item(&mut list, dir.as_str());
            },
            None => {},
        }
        proof {
            assert(sorting::views(list@) =~= build_dirs(
                self.workspace_root@,
                text::optional(*cargo_target),
            ));
        }
        list
    }
}

/// The directories that programs are built in.
pub open spec fn build_dirs(root: Seq<char>, cargo_target: Option<Seq<char>>) -> Seq<Seq<char>> {
    seq![
        text::joined_path(root, "target"@),
        text::joined_path(root, "target-asan"@),
        text::joined_path(root, "target-tsan"@),
    ] + (match cargo_target {
        Some(dir) => seq![dir],
        None => Seq::empty(),
    })
}

/// The views of lists of files.
pub open spec fn file_lists(files: Seq<Vec<String>>) -> Seq<Seq<Seq<char>>> {
    Seq::new(files.len(), |i: int| sorting::views(files[i]@))
}

/// Which of the lists of files hold a module.
pub open spec fn holds_module(files: Seq<Seq<Seq<char>>>) -> Seq<bool> {
    Seq::new(
        files.len(),
        |i: int| exists|k: int| 0 <= k < files[i].len() && is_module(#[trigger] files[i][k]),
    )
}

} // verus!
