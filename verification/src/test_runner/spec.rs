//! Tests that are described in a file.
use vstd::prelude::*;

use crate::test_runner::context::TestContext;
use crate::test_runner::variables;
use crate::text;
use crate::text::{contains_text, decimal_text, joined5, optional_copy, owned, same_text};

verus! {

/// A test.
#[derive(Debug, Clone, PartialEq, Eq)]
pub struct TestSpec {
    pub name: String,
    /// `qemu`, `pytest`, `command` or `make_and_pytest`.
    pub kind: Option<String>,
    pub command: Option<String>,
    pub args: Vec<String>,
    pub firmware: Option<FirmwareSpec>,
    pub dtb: Option<DtbSpec>,
    pub qemu_args: Vec<String>,
    pub pre_run: Vec<Step>,
    pub test_script: Option<Step>,
    pub timeout_secs: u64,
    pub success_pattern: Option<String>,
    pub qemu_ready_pattern: Option<String>,
    pub wait_for_zenoh_status: Option<u32>,
    pub ready_delay_ms: u64,
}

/// The firmware of a test.
#[derive(Debug, Clone, PartialEq, Eq)]
pub struct FirmwareSpec {
    /// Its source.
    pub source: Option<String>,
    pub path: Option<String>,
}

/// The device tree of a test.
#[derive(Debug, Clone, PartialEq, Eq)]
pub struct DtbSpec {
    pub dts: Option<String>,
    pub path: Option<String>,
}

/// A command that a test needs.
#[derive(Debug, Clone, PartialEq, Eq)]
pub struct Step {
    pub command: String,
    pub args: Vec<String>,
    pub background: bool,
    pub wait_for_socket: Option<String>,
}

/// How long a test may take where it does not say, in seconds.
pub fn default_timeout() -> (r: u64)
    ensures
        r == 60,
{
    60
}

/// How a file that a test needs comes about.
#[derive(Debug, Clone, PartialEq, Eq)]
pub enum FileSource {
    /// The test needs no such file.
    Unused,
    /// The file is compiled from this source.
    Compile(String),
    /// The file is copied from this path.
    Copy(String),
    /// The test needs the file but does not say where it comes from.
    Unsaid,
}

pub enum FileSourceView {
    Unused,
    Compile(Seq<char>),
    Copy(Seq<char>),
    Unsaid,
}

impl View for FileSource {
    type V = FileSourceView;

    open spec fn view(&self) -> FileSourceView {
        match self {
            FileSource::Unused => FileSourceView::Unused,
            FileSource::Compile(s) => FileSourceView::Compile(s@),
            FileSource::Copy(s) => FileSourceView::Copy(s@),
            FileSource::Unsaid => FileSourceView::Unsaid,
        }
    }
}

/// How a file comes about that may be compiled or copied.
pub open spec fn source_of(source: Option<Seq<char>>, path: Option<Seq<char>>) -> FileSourceView {
    match (source, path) {
        (Some(s), _) => FileSourceView::Compile(s),
        (None, Some(p)) => FileSourceView::Copy(p),
        (None, None) => FileSourceView::Unsaid,
    }
}

fn file_source(source: &Option<String>, path: &Option<String>) -> (r: FileSource)
    ensures
        r@ == source_of(text::optional(*source), text::optional(*path)),
{
    match source {
        Some(s) => FileSource::Compile(owned(s.as_str())),
        None => match path {
            Some(p) => FileSource::Copy(owned(p.as_str())),
            None => FileSource::Unsaid,
        },
    }
}

/// The path that a variable names: that of the file, or nothing where the test needs none.
pub open spec fn named_path(tmp_dir: Seq<char>, name: Seq<char>, needed: bool) -> Seq<char> {
    if needed {
        text::joined_path(tmp_dir, name)
    } else {
        ""@
    }
}

impl TestSpec {
    /// How the firmware comes about.
    pub fn firmware_source(&self) -> (r: FileSource)
        ensures
            r@ == match self.firmware {
                Some(f) => source_of(text::optional(f.source), text::optional(f.path)),
                None => FileSourceView::Unused,
            },
    {
        match &self.firmware {
            Some(f) => file_source(&f.source, &f.path),
            None => FileSource::Unused,
        }
    }

    /// How the device tree comes about.
    pub fn tree_source(&self) -> (r: FileSource)
        ensures
            r@ == match self.dtb {
                Some(d) => source_of(text::optional(d.dts), text::optional(d.path)),
                None => FileSourceView::Unused,
            },
    {
        match &self.dtb {
            Some(d) => file_source(&d.dts, &d.path),
            None => FileSource::Unused,
        }
    }

    /// Lets `ELF_PATH` stand for the firmware.
    pub fn name_firmware(&self, ctx: &mut TestContext)
        ensures
            final(ctx)@ == (crate::test_runner::context::ContextView {
                variables: variables::with_value(
                    old(ctx)@.variables,
                    "ELF_PATH"@,
                    named_path(old(ctx)@.tmp_dir, "firmware.elf"@, self.firmware is Some),
                ),
                ..old(ctx)@
            }),
    {
        let path = if self.firmware.is_some() {
            ctx.tmp_path("firmware.elf")
        } else {
            owned("")
        };
        ctx.variables.insert("ELF_PATH", path.as_str());
    }

    /// Lets `DTB_PATH` stand for the device tree.
    pub fn name_tree(&self, ctx: &mut TestContext)
        ensures
            final(ctx)@ == (crate::test_runner::context::ContextView {
                variables: variables::with_value(
                    old(ctx)@.variables,
                    "DTB_PATH"@,
                    named_path(old(ctx)@.tmp_dir, "board.dtb"@, self.dtb is Some),
                ),
                ..old(ctx)@
            }),
    {
        let path = if self.dtb.is_some() {
            ctx.tmp_path("board.dtb")
        } else {
            owned("")
        };
        ctx.variables.insert("DTB_PATH", path.as_str());
    }

    /// The command that is the test itself; `None` where the test runs in the emulator.
    pub fn test_command(&self) -> (r: Option<String>)
        ensures
            text::optional(r) == command_of(text::optional(self.kind), text::optional(self.command)),
    {
        let is_command = match &self.kind {
            Some(k) => same_text(k.as_str(), "pytest") || same_text(k.as_str(), "command")
                || same_text(k.as_str(), "make_and_pytest"),
            None => false,
        };
        if !is_command {
            return None;
        }
        match &self.command {
            Some(c) => Some(owned(c.as_str())),
            None => Some(owned("pytest")),
        }
    }

    /// What is looked for in the emulator's output.
    pub fn watch(&self) -> (r: OutputWatch)
        ensures
            r@ == (WatchView {
                success: text::optional(self.success_pattern),
                ready: text::optional(self.qemu_ready_pattern),
                success_found: false,
                ready_found: false,
            }),
    {
        OutputWatch {
            success: optional_copy(&self.success_pattern),
            ready: optional_copy(&self.qemu_ready_pattern),
            success_found: false,
            ready_found: false,
        }
    }
}

/// The command that is a test itself, by its kind and what it names.
pub open spec fn command_of(kind: Option<Seq<char>>, command: Option<Seq<char>>) -> Option<
    Seq<char>,
> {
    if kind is Some && (kind->0 == "pytest"@ || kind->0 == "command"@ || kind->0
        == "make_and_pytest"@) {
        match command {
            Some(c) => Some(c),
            None => Some("pytest"@),
        }
    } else {
        None
    }
}

/// What is looked for in the emulator's output, and what was found.
#[derive(Debug, Clone, PartialEq, Eq)]
pub struct OutputWatch {
    pub success: Option<String>,
    pub ready: Option<String>,
    pub success_found: bool,
    pub ready_found: bool,
}

#[verifier::ext_equal]
pub struct WatchView {
    pub success: Option<Seq<char>>,
    pub ready: Option<Seq<char>>,
    pub success_found: bool,
    pub ready_found: bool,
}

impl View for OutputWatch {
    type V = WatchView;

    open spec fn view(&self) -> WatchView {
        WatchView {
            success: text::optional(self.success),
            ready: text::optional(self.ready),
            success_found: self.success_found,
            ready_found: self.ready_found,
        }
    }
}

/// A line holds what is looked for.
pub open spec fn line_holds(line: Seq<char>, pattern: Option<Seq<char>>) -> bool {
    pattern is Some && text::occurs(line, pattern->0)
}

/// What is known once a line was printed.
pub open spec fn watched(w: WatchView, line: Seq<char>) -> WatchView {
    WatchView {
        success_found: w.success_found || line_holds(line, w.success),
        ready_found: w.ready_found || line_holds(line, w.ready),
        ..w
    }
}

impl OutputWatch {
    /// Takes note of a line, of the output or of the error output.
    pub fn on_line(&mut self, line: &str)
        ensures
            final(self)@ == watched(old(self)@, line@),
    {
        match &self.success {
            Some(p) => {
                if contains_text(line, p.as_str()) {
                    self.success_found = true;
                }
            },
            None => {},
        }
        match &self.ready {
            Some(p) => {
                if contains_text(line, p.as_str()) {
                    self.ready_found = true;
                }
            },
            None => {},
        }
    }
}

/// What is known once the first `n` lines were printed.
pub open spec fn watched_all(w: WatchView, lines: Seq<Seq<char>>, n: int) -> WatchView
    decreases n,
{
    if n <= 0 || n > lines.len() {
        w
    } else {
        watched(watched_all(w, lines, n - 1), lines[n - 1])
    }
}

/// A test has passed exactly where one of the lines held what shows success.
pub proof fn law_success_is_in_a_line(w: WatchView, lines: Seq<Seq<char>>, n: int)
    requires
        0 <= n <= lines.len(),
        !w.success_found,
    ensures
        watched_all(w, lines, n).success == w.success,
        watched_all(w, lines, n).success_found <==> exists|i: int|
            0 <= i < n && #[trigger] line_holds(lines[i], w.success),
    decreases n,
{
    if n > 0 {
        law_success_is_in_a_line(w, lines, n - 1);
        if line_holds(lines[n - 1], w.success) {
            assert(0 <= n - 1 < n && line_holds(lines[n - 1], w.success));
        }
    }
}

/// The Python program that asks whether a node's clock is there.
pub open spec fn status_program(endpoint: Seq<char>, node: u32) -> Seq<char> {
    "import zenoh, sys; c = zenoh.Config(); c.insert_json5('connect/endpoints', '[\""@ + endpoint
        + "\"]'); c.insert_json5('scouting/multicast/enabled', 'false'); c.insert_json5('mode', '\"client\"'); s = zenoh.open(c); res = any(s.get('virtmcu/"@
        + text::decimal(node as nat)
        + "/clock/status')); s.close(); sys.exit(0 if res else 1)"@
}

/// The Python program that asks whether a node's clock is there.
pub fn clock_status_program(endpoint: &str, node: u32) -> (r: String)
    ensures
        r@ == status_program(endpoint@, node),
{
    joined5(
        "import zenoh, sys; c = zenoh.Config(); c.insert_json5('connect/endpoints', '[\"",
        endpoint,
        "\"]'); c.insert_json5('scouting/multicast/enabled', 'false'); c.insert_json5('mode', '\"client\"'); s = zenoh.open(c); res = any(s.get('virtmcu/",
        decimal_text(node as u64).as_str(),
        "/clock/status')); s.close(); sys.exit(0 if res else 1)",
    )
}

} // verus!
