//! Firmware and device trees that tests run.
use vstd::prelude::*;

use crate::sorting;
use crate::text;
use crate::text::{hex_text, items_of, join_path, joined2, joined3, owned, push_item};

verus! {

/// Where compiled firmware and device trees are kept.
#[derive(Debug, Clone, PartialEq, Eq)]
pub struct ArtifactCache {
    cache_dir: String,
}

/// The script that the linker places firmware with.
pub const LINKER_SCRIPT: &'static str = "ENTRY(_start)\nSECTIONS { . = 0x40000000; .text : { *(.text*) } }";

/// The path of something that is kept under a number.
pub open spec fn kept_path(
    dir: Seq<char>,
    prefix: Seq<char>,
    hash: u64,
    suffix: Seq<char>,
) -> Seq<char> {
    text::joined_path(dir, prefix + text::hex(hash as nat) + suffix)
}

/// The arguments that firmware is compiled with.
pub open spec fn assembler_args(
    script: Seq<char>,
    source: Seq<char>,
    output: Seq<char>,
) -> Seq<Seq<char>> {
    seq!["-mcpu=cortex-a15"@, "-nostdlib"@, "-T"@, script, source, "-o"@, output]
}

/// The arguments that firmware is compiled with.
pub fn assembler_arguments(script: &str, source: &str, output: &str) -> (r: Vec<String>)
    ensures
        sorting::views(r@) == assembler_args(script@, source@, output@),
{
    let mut args = items_of(vec!["-mcpu=cortex-a15", "-nostdlib", "-T"]);
    push_item(&mut args, script);
    push_item(&mut args, source);
    push_item(&mut args, "-o");
    push_item(&mut args, output);
    proof {
        assert(sorting::views(args@) =~= assembler_args(script@, source@, output@));
    }
    args
}

/// The arguments that a device tree is compiled with.
pub open spec fn tree_args(output: Seq<char>, source: Seq<char>) -> Seq<Seq<char>> {
    seq!["-I"@, "dts"@, "-O"@, "dtb"@, "-o"@, output, source]
}

/// The arguments that a device tree is compiled with.
pub fn tree_arguments(output: &str, source: &str) -> (r: Vec<String>)
    ensures
        sorting::views(r@) == tree_args(output@, source@),
{
    let mut args = items_of(vec!["-I", "dts", "-O", "dtb", "-o"]);
    push_item(&mut args, output);
    push_item(&mut args, source);
    proof {
        assert(sorting::views(args@) =~= tree_args(output@, source@));
    }
    args
}

impl ArtifactCache {
    /// The directory that things are kept in.
    pub closed spec fn dir(&self) -> Seq<char> {
        self.cache_dir@
    }

    pub fn new(workspace_root: &str) -> (r: Self)
        ensures
            r.dir() == text::joined_path(workspace_root@, "target/test-artifacts"@),
    {
        ArtifactCache { cache_dir: join_path(workspace_root, "target/test-artifacts") }
    }

    /// The directory that things are kept in.
    pub fn cache_dir(&self) -> (r: String)
        ensures
            r@ == self.dir(),
    {
        owned(self.cache_dir.as_str())
    }

    fn kept(&self, prefix: &str, hash: u64, suffix: &str) -> (r: String)
        ensures
            r@ == kept_path(self.dir(), prefix@, hash, suffix@),
    {
        join_path(
            self.cache_dir.as_str(),
            joined3(prefix, hex_text(hash).as_str(), suffix).as_str(),
        )
    }

    /// Where firmware whose source hashes to `hash` is kept.
    pub fn firmware_path(&self, hash: u64) -> (r: String)
        ensures
            r@ == kept_path(self.dir(), "firmware_"@, hash, ".elf"@),
    {
        self.kept("firmware_", hash, ".elf")
    }

    /// Where a device tree whose source hashes to `hash` is kept.
    pub fn tree_path(&self, hash: u64) -> (r: String)
        ensures
            r@ == kept_path(self.dir(), "board_"@, hash, ".dtb"@),
    {
        self.kept("board_", hash, ".dtb")
    }

    /// Where source that hashes to `hash` stands while it is compiled; `suffix` tells its kind.
    pub fn source_path(&self, hash: u64, suffix: &str) -> (r: String)
        ensures
            r@ == kept_path(self.dir(), "tmp_"@, hash, suffix@),
    {
        self.kept("tmp_", hash, suffix)
    }
}

/// Firmware that comes with the tests.
#[derive(Debug, Clone, PartialEq, Eq)]
pub struct GuestApp {
    pub name: String,
    pub elf_path: String,
    pub dtb_path: String,
}

/// Which of the files that a guest app may have are there.
#[derive(Debug, Clone, Copy, PartialEq, Eq, Structural)]
pub struct GuestFiles {
    pub base: bool,
    pub hello_elf: bool,
    pub named_elf: bool,
    pub minimal_dtb: bool,
    pub named_dtb: bool,
}

/// Why a guest app cannot be used.
#[derive(Debug, Clone, PartialEq, Eq)]
pub enum GuestAppError {
    /// There is no such app; the name and where it was looked for.
    NotFound(String, String),
    NoElf(String),
    NoDtb(String),
}

pub enum GuestAppErrorView {
    NotFound(Seq<char>, Seq<char>),
    NoElf(Seq<char>),
    NoDtb(Seq<char>),
}

impl View for GuestAppError {
    type V = GuestAppErrorView;

    open spec fn view(&self) -> GuestAppErrorView {
        match self {
            GuestAppError::NotFound(name, base) => GuestAppErrorView::NotFound(name@, base@),
            GuestAppError::NoElf(name) => GuestAppErrorView::NoElf(name@),
            GuestAppError::NoDtb(name) => GuestAppErrorView::NoDtb(name@),
        }
    }
}

impl GuestAppError {
    /// What is said of the error.
    pub fn message(&self) -> (r: String)
        ensures
            r@ == match self@ {
                GuestAppErrorView::NotFound(name, base) => "Guest app fixture '"@ + name
                    + "' not found at "@ + base,
                GuestAppErrorView::NoElf(name) => "No ELF found for guest app "@ + name,
                GuestAppErrorView::NoDtb(name) => "No DTB found for guest app "@ + name,
            },
    {
        match self {
            GuestAppError::NotFound(name, base) => joined2(
                joined3("Guest app fixture '", name.as_str(), "' not found at ").as_str(),
                base.as_str(),
            ),
            GuestAppError::NoElf(name) => joined2("No ELF found for guest app ", name.as_str()),
            GuestAppError::NoDtb(name) => joined2("No DTB found for guest app ", name.as_str()),
        }
    }
}

/// The directory of a guest app.
pub open spec fn guest_dir(root: Seq<char>, name: Seq<char>) -> Seq<char> {
    text::joined_path(text::joined_path(root, "tests/fixtures/guest_apps"@), name)
}

/// The firmware of a guest app: `hello.elf`, or else the file with its own name.
pub open spec fn guest_elf(base: Seq<char>, name: Seq<char>, files: GuestFiles) -> Option<
    Seq<char>,
> {
    if files.hello_elf {
        Some(text::joined_path(base, "hello.elf"@))
    } else if files.named_elf {
        Some(text::joined_path(base, name + ".elf"@))
    } else {
        None
    }
}

/// The device tree of a guest app: `minimal.dtb`, or else the file with its own name.
pub open spec fn guest_dtb(base: Seq<char>, name: Seq<char>, files: GuestFiles) -> Option<
    Seq<char>,
> {
    if files.minimal_dtb {
        Some(text::joined_path(base, "minimal.dtb"@))
    } else if files.named_dtb {
        Some(text::joined_path(base, name + ".dtb"@))
    } else {
        None
    }
}

impl GuestApp {
    /// The directory of a guest app.
    pub fn base_dir(workspace_root: &str, name: &str) -> (r: String)
        ensures
            r@ == guest_dir(workspace_root@, name@),
    {
        join_path(join_path(workspace_root, "tests/fixtures/guest_apps").as_str(), name)
    }

    /// Finds a guest app, given which of its files are there.
    pub fn find(workspace_root: &str, name: &str, files: GuestFiles) -> (r: Result<
        Self,
        GuestAppError,
    >)
        ensures
            ({
                let base = guest_dir(workspace_root@, name@);
                let elf = guest_elf(base, name@, files);
                let dtb = guest_dtb(base, name@, files);
                match r {
                    Ok(app) => files.base && app.name@ == name@ && elf == Some(app.elf_path@)
                        && dtb == Some(app.dtb_path@),
                    Err(e) => if !files.base {
                        e@ == GuestAppErrorView::NotFound(name@, base)
                    } else if elf is None {
                        e@ == GuestAppErrorView::NoElf(name@)
                    } else {
                        dtb is None && e@ == GuestAppErrorView::NoDtb(name@)
                    },
                }
            }),
    {
        let base = GuestApp::base_dir(workspace_root, name);
        if !files.base {
            return Err(GuestAppError::NotFound(owned(name), base));
        }
        let base = base.as_str();
        let elf_path = if files.hello_elf {
            join_path(base, "hello.elf")
        } else if files.named_elf {
            join_path(base, joined2(name, ".elf").as_str())
        } else {
            return Err(GuestAppError::NoElf(owned(name)));
        };
        let dtb_path = if files.minimal_dtb {
            join_path(base, "minimal.dtb")
        } else if files.named_dtb {
            join_path(base, joined2(name, ".dtb").as_str())
        } else {
            return Err(GuestAppError::NoDtb(owned(name)));
        };
        Ok(GuestApp { name: owned(name), elf_path, dtb_path })
    }
}

} // verus!
