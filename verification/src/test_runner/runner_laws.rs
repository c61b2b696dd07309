//! What holds of running tests.
use vstd::prelude::*;

use crate::deterministic_coordinator::frame_laws as wire_laws;
use crate::json;
use crate::test_runner::artifacts;
use crate::test_runner::artifacts::GuestFiles;
use crate::test_runner::builder;
use crate::test_runner::builder::{
    BuilderView, DeviceTreeView, FirmwareSourceView, LineKind, NodeView, TopologySourceView,
    WiringView,
};
use crate::test_runner::commands;
use crate::test_runner::context;
use crate::test_runner::engine;
use crate::test_runner::engine::{CommandOutcome, CommandView, FoundView};
use crate::test_runner::environment;
use crate::test_runner::environment::WaitEvent;
use crate::test_runner::launcher;
use crate::test_runner::launcher::TargetDirView;
use crate::test_runner::qmp;
use crate::test_runner::qmp::ReplyView;
use crate::test_runner::spec;
use crate::test_runner::spec::FileSourceView;
use crate::test_runner::variables;
use crate::test_runner::variables::VariableView;
use crate::text;
use crate::text_laws;
use crate::wire;

verus! {

/// Things that are kept for different contents have different places, with the prefix and the
/// suffix of their kind.
pub proof fn law_kept_paths(
    dir: Seq<char>,
    prefix: Seq<char>,
    suffix: Seq<char>,
    a: u64,
    b: u64,
)
    requires
        dir.len() > 0,
        dir.last() != '/',
        prefix.len() > 0,
        prefix[0] != '/',
    ensures
        artifacts::kept_path(dir, prefix, a, suffix) == dir + seq!['/'] + prefix + text::hex(
            a as nat,
        ) + suffix,
        a != b ==> artifacts::kept_path(dir, prefix, a, suffix) != artifacts::kept_path(
            dir,
            prefix,
            b,
            suffix,
        ),
{
    reveal_strlit("/");
    let x = text::hex(a as nat);
    let y = text::hex(b as nat);
    let front = dir + seq!['/'] + prefix;
    assert(artifacts::kept_path(dir, prefix, a, suffix) =~= front + x + suffix);
    assert(artifacts::kept_path(dir, prefix, b, suffix) =~= front + y + suffix);
    if front + x + suffix == front + y + suffix {
        assert((front + x + suffix).len() == (front + y + suffix).len());
        assert(x.len() == y.len());
        let n = front.len() as int;
        assert((front + x + suffix).subrange(n, n + x.len()) =~= x);
        assert((front + y + suffix).subrange(n, n + y.len()) =~= y);
        text_laws::law_hex_reads_back(a as nat);
        text_laws::law_hex_reads_back(b as nat);
    }
}

/// The assembler and the device tree compiler get their inputs, and their outputs directly behind
/// the option for them.
pub proof fn law_compiler_arguments(script: Seq<char>, source: Seq<char>, output: Seq<char>)
    ensures
        ({
            let args = artifacts::assembler_args(script, source, output);
            &&& args.len() == 7 && args[0] == "-mcpu=cortex-a15"@ && args[1] == "-nostdlib"@
            &&& args[2] == "-T"@ && args[3] == script && args[4] == source
            &&& args[5] == "-o"@ && args[6] == output
        }),
        ({
            let args = artifacts::tree_args(output, source);
            &&& args.len() == 7 && args[0] == "-I"@ && args[1] == "dts"@ && args[2] == "-O"@
                && args[3] == "dtb"@ && args[4] == "-o"@ && args[5] == output && args[6] == source
        }),
{
}

/// A guest program is the common one if there is one, else the one of its own name, else there is
/// none; so is its device tree.
pub proof fn law_guest_files(base: Seq<char>, name: Seq<char>, files: GuestFiles)
    ensures
        files.hello_elf ==> artifacts::guest_elf(base, name, files) == Some(
            text::joined_path(base, "hello.elf"@),
        ),
        !files.hello_elf && files.named_elf ==> artifacts::guest_elf(base, name, files) == Some(
            text::joined_path(base, name + ".elf"@),
        ),
        !files.hello_elf && !files.named_elf ==> artifacts::guest_elf(base, name, files) is None,
        files.minimal_dtb ==> artifacts::guest_dtb(base, name, files) == Some(
            text::joined_path(base, "minimal.dtb"@),
        ),
        !files.minimal_dtb && files.named_dtb ==> artifacts::guest_dtb(base, name, files) == Some(
            text::joined_path(base, name + ".dtb"@),
        ),
        !files.minimal_dtb && !files.named_dtb ==> artifacts::guest_dtb(base, name, files) is None,
{
}

/// A node that nothing was said of is a coordinated ARM node without firmware and device tree, and
/// without a display and a monitor.
pub proof fn law_plain_node(id: u32)
    ensures
        ({
            let n = builder::plain_node(id);
            &&& n.id == id && n.arch == "arm"@ && n.is_coordinated
            &&& n.assembly is None && n.firmware_path is None
            &&& n.dts is None && n.dts_content is None && n.dts_path is None && n.dtb_path is None
                && n.yaml_path is None
            &&& n.qemu_args == seq!["-nographic"@, "-monitor"@, "none"@]
        }),
        ({
            let b = builder::empty_builder();
            &&& b.nodes.len() == 0 && b.variables.len() == 0 && b.timeout_secs == 10
            &&& b.federation_id is None && b.transport_override is None
        }),
{
}

/// Nodes talk over sockets if and only if that was asked for; the endpoint is then that of their
/// federation, and otherwise the router.
pub proof fn law_wiring(b: BuilderView, tmp_dir: Seq<char>, router: Seq<char>, id: Seq<char>)
    ensures
        ({
            let w = builder::wiring_of(b, tmp_dir, router);
            let named = builder::wiring_of(
                BuilderView { federation_id: Some(id), ..b },
                tmp_dir,
                router,
            );
            &&& w.sockets <==> b.transport_override == Some("unix"@)
            &&& !w.sockets ==> w.endpoint == router
            &&& w.sockets ==> w.endpoint == text::joined_path(
                tmp_dir,
                w.federation + "/coordinator.sock"@,
            )
            &&& b.federation_id is None ==> w.federation == "default-fed"@
            &&& named.federation == id
            &&& named.sockets == w.sockets
        }),
        b.transport_override is None ==> builder::transport_of(b) == "zenoh"@,
        b.transport_override is Some ==> builder::transport_of(b) == b.transport_override->0,
{
    reveal_strlit("zenoh");
    reveal_strlit("unix");
    assert("zenoh"@.len() == 5 && "unix"@.len() == 4);
}

/// The topology is the file of the first node that has one, below the root; without any it is
/// written out.
pub proof fn law_topology_source(b: BuilderView, root: Seq<char>, k: int)
    requires
        root.len() > 0,
        0 <= k <= b.nodes.len(),
        forall|j: int| 0 <= j < k ==> (#[trigger] b.nodes[j]).yaml_path is None,
        k < b.nodes.len() ==> b.nodes[k].yaml_path is Some,
    ensures
        k < b.nodes.len() ==> builder::topology_source_of(b, root) == TopologySourceView::File(
            text::joined_path(root, b.nodes[k].yaml_path->0),
        ),
        k == b.nodes.len() ==> builder::topology_source_of(b, root)
            == TopologySourceView::Generated(builder::plain_topology(b.nodes)),
{
    lemma_first_yaml(b.nodes, 0, k);
}

proof fn lemma_first_yaml(nodes: Seq<NodeView>, i: int, k: int)
    requires
        0 <= i <= k <= nodes.len(),
        forall|j: int| 0 <= j < k ==> (#[trigger] nodes[j]).yaml_path is None,
        k < nodes.len() ==> nodes[k].yaml_path is Some,
    ensures
        builder::first_yaml(nodes, i) == if k < nodes.len() {
            nodes[k].yaml_path
        } else {
            None
        },
    decreases k - i,
{
    if i < k {
        assert(nodes[i].yaml_path is None);
        lemma_first_yaml(nodes, i + 1, k);
    }
}

/// A topology that is written out names each node on a line of its own, in order.
pub proof fn law_written_topology(nodes: Seq<NodeView>, n: NodeView)
    ensures
        builder::node_lines(nodes.push(n), (nodes.len() + 1) as int) == builder::node_lines(
            nodes,
            nodes.len() as int,
        ) + "    - name: '"@ + text::decimal(n.id as nat) + "'\n"@,
        builder::node_lines(Seq::empty(), 0).len() == 0,
        builder::plain_topology(nodes) == "topology:\n  transport: unix\n  nodes:\n"@
            + builder::node_lines(nodes, nodes.len() as int) + "\n"@,
{
    let m = nodes.len() as int;
    lemma_node_lines_prefix(nodes, n, m);
    assert(nodes.push(n)[m] == n);
    assert(builder::node_lines(nodes.push(n), m + 1) =~= builder::node_lines(nodes, m)
        + "    - name: '"@ + text::decimal(n.id as nat) + "'\n"@);
}

proof fn lemma_node_lines_prefix(nodes: Seq<NodeView>, x: NodeView, n: int)
    requires
        0 <= n <= nodes.len(),
    ensures
        builder::node_lines(nodes.push(x), n) == builder::node_lines(nodes, n),
    decreases n,
{
    if n > 0 {
        lemma_node_lines_prefix(nodes, x, n - 1);
        assert(nodes.push(x)[n - 1] == nodes[n - 1]);
    }
}

/// The coordinator gets each of its settings directly behind the option for it.
pub proof fn law_coordinator_arguments(b: BuilderView, run_dir: Seq<char>, topology: Seq<char>)
    ensures
        ({
            let args = builder::coordinator_args_of(b, run_dir, topology);
            &&& args.len() == 12
            &&& args[0] == "--transport"@ && args[1] == "unix"@
            &&& args[2] == "--nodes"@ && args[3] == text::decimal(b.nodes.len())
            &&& args[4] == "--federation-id"@ && args[5] == (if b.federation_id is Some {
                b.federation_id->0
            } else {
                "default-fed"@
            })
            &&& args[6] == "--run-dir"@ && args[7] == run_dir
            &&& args[8] == "--topology"@ && args[9] == topology
            &&& args[10] == "--join-timeout-ms"@ && args[11] == "10000"@
        }),
{
}

/// The coordinated nodes are those that are, in order.
pub proof fn law_coordinated_nodes(nodes: Seq<NodeView>, n: int)
    requires
        0 <= n <= nodes.len(),
    ensures
        ({
            let chosen = nodes.take(n).filter(|x: NodeView| x.is_coordinated);
            let ids = builder::coordinated_of(nodes, n);
            &&& ids.len() == chosen.len()
            &&& forall|i: int| 0 <= i < ids.len() ==> #[trigger] ids[i] == chosen[i].id
        }),
    decreases n,
{
    reveal(Seq::filter);
    if n > 0 {
        law_coordinated_nodes(nodes, n - 1);
        assert(nodes.take(n).drop_last() =~= nodes.take(n - 1));
        assert(nodes.take(n).last() == nodes[n - 1]);
    }
}

/// Nodes do not share their sockets, and one node's sockets of two kinds are not the same.
pub proof fn law_node_files(kind: Seq<char>, a: u32, b: u32)
    ensures
        builder::node_file(kind, a) == kind + "_"@ + text::decimal(a as nat) + ".sock"@,
        a != b ==> builder::node_file(kind, a) != builder::node_file(kind, b),
{
    let x = text::decimal(a as nat);
    let y = text::decimal(b as nat);
    let front = kind + "_"@;
    if a != b && front + x + ".sock"@ == front + y + ".sock"@ {
        assert((front + x + ".sock"@).len() == (front + y + ".sock"@).len());
        let n = front.len() as int;
        assert((front + x + ".sock"@).subrange(n, n + x.len()) =~= x);
        assert((front + y + ".sock"@).subrange(n, n + y.len()) =~= y);
        text::lemma_decimal_value(a as nat);
        text::lemma_decimal_value(b as nat);
    }
}

/// Firmware in assembly goes before firmware in a file, and without either there is none.
pub proof fn law_firmware(node: NodeView, root: Seq<char>, s: Seq<char>)
    ensures
        builder::firmware_of(NodeView { assembly: Some(s), ..node }, root) == Some(
            FirmwareSourceView::Assembly(s),
        ),
        builder::firmware_of(
            NodeView { assembly: None, firmware_path: Some(s), ..node },
            root,
        ) == Some(FirmwareSourceView::File(text::joined_path(root, s))),
        builder::firmware_of(
            NodeView { assembly: None, firmware_path: None, ..node },
            root,
        ) is None,
{
}

/// The device tree is the first that was given of a source, its contents, a source file, a binary
/// and a description; without any there is none.
pub proof fn law_device_tree(node: NodeView, root: Seq<char>, s: Seq<char>)
    ensures
        builder::device_tree_of(NodeView { dts: Some(s), ..node }, root) == Some(
            DeviceTreeView::Source(s),
        ),
        builder::device_tree_of(NodeView { dts: None, dts_content: Some(s), ..node }, root) == Some(
            DeviceTreeView::Source(s),
        ),
        builder::device_tree_of(
            NodeView { dts: None, dts_content: None, dts_path: Some(s), ..node },
            root,
        ) == Some(DeviceTreeView::SourceFile(text::joined_path(root, s))),
        builder::device_tree_of(
            NodeView { dts: None, dts_content: None, dts_path: None, dtb_path: Some(s), ..node },
            root,
        ) == Some(DeviceTreeView::Binary(text::joined_path(root, s))),
        builder::device_tree_of(
            NodeView {
                dts: None,
                dts_content: None,
                dts_path: None,
                dtb_path: None,
                yaml_path: Some(s),
                ..node
            },
            root,
        ) == Some(DeviceTreeView::Yaml(text::joined_path(root, s))),
        builder::device_tree_of(
            NodeView {
                dts: None,
                dts_content: None,
                dts_path: None,
                dtb_path: None,
                yaml_path: None,
                ..node
            },
            root,
        ) is None,
{
}

/// A description without a word of the transport gets a line for it at the head of the topology;
/// what stands elsewhere stays.
pub proof fn law_transport_is_added(a: Seq<char>, b: Seq<char>, transport: Seq<char>)
    requires
        ({
            let yaml = a + "topology:\n"@ + b;
            &&& !text::occurs(yaml, "transport:"@)
            &&& forall|j: int|
                0 <= j < a.len() ==> !#[trigger] text::stands_at(yaml, "topology:\n"@, j)
            &&& !text::occurs(b, "topology:\n"@)
            &&& !text::occurs(
                a + ("topology:\n  transport: "@ + transport + "\n"@) + b,
                "topology:\r\n"@,
            )
        }),
    ensures
        builder::with_transport(a + "topology:\n"@ + b, transport) == a
            + "topology:\n  transport: "@ + transport + "\n"@ + b,
{
    let yaml = a + "topology:\n"@ + b;
    let line = "topology:\n  transport: "@ + transport + "\n"@;
    reveal_strlit("topology:\n");
    text_laws::law_first_occurrence(a, "topology:\n"@, b, line);
    text_laws::law_no_occurrence(b, "topology:\n"@, line);
    let once = a + line + b;
    text_laws::law_no_occurrence(
        once,
        "topology:\r\n"@,
        "topology:\r\n  transport: "@ + transport + "\r\n"@,
    );
    assert(once =~= a + "topology:\n  transport: "@ + transport + "\n"@ + b);
}

/// A description in use has the router's endpoint in the place of the word for it; without another
/// transport and without that word it is as it was.
pub proof fn law_description_in_use(yaml: Seq<char>, a: Seq<char>, b: Seq<char>, endpoint: Seq<char>)
    requires
        !text::occurs(yaml, "ZENOH_ROUTER_ENDPOINT"@),
        forall|j: int|
            0 <= j < a.len() ==> !#[trigger] text::stands_at(
                a + "ZENOH_ROUTER_ENDPOINT"@ + b,
                "ZENOH_ROUTER_ENDPOINT"@,
                j,
            ),
        !text::occurs(b, "ZENOH_ROUTER_ENDPOINT"@),
    ensures
        builder::yaml_in_use(yaml, None, endpoint) == yaml,
        builder::yaml_in_use(a + "ZENOH_ROUTER_ENDPOINT"@ + b, None, endpoint) == a + endpoint + b,
{
    reveal_strlit("ZENOH_ROUTER_ENDPOINT");
    text_laws::law_no_occurrence(yaml, "ZENOH_ROUTER_ENDPOINT"@, endpoint);
    text_laws::law_no_occurrence(b, "ZENOH_ROUTER_ENDPOINT"@, endpoint);
    text_laws::law_first_occurrence(a, "ZENOH_ROUTER_ENDPOINT"@, b, endpoint);
}

proof fn lemma_hub_args(devices: Seq<Seq<char>>, n: int, i: int)
    requires
        0 <= i < n <= devices.len(),
    ensures
        builder::hub_args(devices, n).len() == 2 * n,
        builder::hub_args(devices, n)[2 * i] == "-global"@,
        builder::hub_args(devices, n)[2 * i + 1] == devices[i] + ".transport=hub0"@,
    decreases n,
{
    assert(builder::hub_args(devices, 0).len() == 0);
    if n > 1 {
        lemma_hub_args(devices, n - 1, 0);
    }
    if i < n - 1 {
        lemma_hub_args(devices, n - 1, i);
    }
}

/// The emulator of a node gets, behind what its description asks for: its control socket, its
/// machine with the device tree, the kernel directly behind the option for it, what coordination
/// asks for, its serial line, and the node's own arguments at the end.
pub proof fn law_emulator_arguments(
    node: NodeView,
    tmp: Seq<char>,
    yaml_args: Seq<Seq<char>>,
    dtb: Seq<char>,
    elf: Seq<char>,
    wiring: WiringView,
    own: Seq<Seq<char>>,
)
    ensures
        ({
            let args = builder::emulator_args(node, tmp, yaml_args, dtb, elf, wiring, own);
            let y = yaml_args.len() as int;
            let riscv = text::has_prefix(node.arch, "riscv"@);
            let m = if riscv {
                4int
            } else {
                2int
            };
            let c = builder::coordination_args(node, tmp, yaml_args, wiring);
            let s = y + 2 + m + 2 + c.len();
            &&& args.len() == s + 2 + own.len()
            &&& args.take(y) == yaml_args
            &&& args[y] == "-qmp"@
            &&& args[y + 1] == "unix:"@ + text::joined_path(
                tmp,
                builder::node_file("qmp"@, node.id),
            ) + ",server=on,wait=off"@
            &&& args[y + 2] == "-M"@
            &&& riscv ==> args[y + 3] == "virt"@ && args[y + 4] == "-dtb"@ && args[y + 5] == dtb
            &&& !riscv ==> args[y + 3] == "arm-generic-fdt,hw-dtb="@ + dtb
            &&& args[y + 2 + m] == "-kernel"@ && args[y + 3 + m] == elf
            &&& args[s] == "-serial"@
            &&& args[s + 1] == "unix:"@ + text::joined_path(
                tmp,
                builder::node_file("uart"@, node.id),
            ) + ",server=on,wait=on"@
            &&& args.skip(s + 2) == own
            &&& args.subrange(s - c.len(), s) == c
        }),
{
    let args = builder::emulator_args(node, tmp, yaml_args, dtb, elf, wiring, own);
    let y = yaml_args.len() as int;
    let c = builder::coordination_args(node, tmp, yaml_args, wiring);
    let m = builder::machine_args(node.arch, dtb).len();
    let s = y + 2 + m + 2 + c.len();
    assert(args.take(y) =~= yaml_args);
    assert(args.skip(s + 2) =~= own);
    assert(args.subrange(s - c.len(), s) =~= c);
    assert(args[y + 2] == builder::machine_args(node.arch, dtb)[0]);
    assert(args[y + 3] == builder::machine_args(node.arch, dtb)[1]);
}

/// A node that is not coordinated gets nothing for it. One that is joins the hub with each of its
/// devices, gets a clock unless it has one, and waits at its start.
pub proof fn law_coordination_arguments(
    node: NodeView,
    tmp: Seq<char>,
    yaml_args: Seq<Seq<char>>,
    wiring: WiringView,
    i: int,
)
    requires
        0 <= i < 11,
    ensures
        ({
            let c = builder::coordination_args(node, tmp, yaml_args, wiring);
            let has_clock = text::some_holds(node.qemu_args, "virtmcu-clock"@) || text::some_holds(
                yaml_args,
                "virtmcu-clock"@,
            );
            &&& !node.is_coordinated ==> c.len() == 0
            &&& node.is_coordinated ==> c.last() == "-S"@ && c[2 * i] == "-global"@ && c[2 * i + 1]
                == builder::hub_devices()[i] + ".transport=hub0"@
            &&& node.is_coordinated && has_clock ==> c.len() == 23
            &&& node.is_coordinated && !has_clock ==> c.len() == 25 && c[22] == "-device"@ && c[23]
                == builder::clock_device(
                node.id,
                wiring.sockets,
                text::joined_path(tmp, builder::node_file("clock"@, node.id)),
                wiring.endpoint,
                wiring.federation,
            )
        }),
{
    let hub = builder::hub_args(builder::hub_devices(), 11);
    lemma_hub_args(builder::hub_devices(), 11, i);
    let c = builder::coordination_args(node, tmp, yaml_args, wiring);
    if node.is_coordinated {
        assert(c[2 * i] == hub[2 * i]);
        assert(c[2 * i + 1] == hub[2 * i + 1]);
    }
}

/// The clock of a node names its number and where it is led from.
pub proof fn law_clock_device(
    id: u32,
    clock: Seq<char>,
    endpoint: Seq<char>,
    federation: Seq<char>,
)
    ensures
        builder::clock_device(id, false, clock, endpoint, federation)
            == "virtmcu-clock,mode=slaved-suspend,router="@ + endpoint + ",node="@ + text::decimal(
            id as nat,
        ),
        builder::clock_device(id, true, clock, endpoint, federation)
            == "virtmcu-clock,mode=slaved-unix,router="@ + clock + ",node="@ + text::decimal(
            id as nat,
        ) + ",coordinated=on,coordinated-router="@ + endpoint + ",federation-id="@ + federation,
{
    assert(builder::clock_device(id, true, clock, endpoint, federation)
        =~= "virtmcu-clock,mode=slaved-unix,router="@ + clock + ",node="@ + text::decimal(id as nat)
        + ",coordinated=on,coordinated-router="@ + endpoint + ",federation-id="@ + federation);
}

/// The emulator's environment holds the path of libraries, the modules if there are any, a place
/// for coverage unless one is set, and the way to the coordinator or to the router.
pub proof fn law_emulator_environment(
    node: NodeView,
    root: Seq<char>,
    library_path: Seq<char>,
    module_dir: Option<Seq<char>>,
    coverage_set: bool,
    build_dir: Seq<char>,
    w: WiringView,
)
    ensures
        ({
            let s = builder::emulator_settings_of(
                node,
                root,
                library_path,
                module_dir,
                coverage_set,
                build_dir,
                w,
            );
            let n = s.len() as int;
            let m = if module_dir is Some {
                1int
            } else {
                0int
            };
            &&& n == 3 + m + (if coverage_set {
                0int
            } else {
                1int
            })
            &&& s[0] == (VariableView { name: "LD_LIBRARY_PATH"@, value: library_path })
            &&& module_dir is Some ==> s[1] == (VariableView {
                name: "QEMU_MODULE_DIR"@,
                value: module_dir->0,
            })
            &&& !coverage_set ==> s[1 + m] == (VariableView {
                name: "GCOV_PREFIX"@,
                value: root + "/target/coverage/"@ + node.arch + "_"@ + build_dir + "_node"@
                    + text::decimal(node.id as nat),
            })
            &&& w.sockets ==> s[n - 2] == (VariableView {
                name: "VIRTMCU_COORD_SOCK"@,
                value: w.endpoint,
            }) && s[n - 1] == (VariableView { name: "VIRTMCU_SIM_ID"@, value: w.federation })
            &&& !w.sockets ==> s[n - 2] == (VariableView {
                name: "ZENOH_ROUTER_ENDPOINT"@,
                value: w.endpoint,
            }) && s[n - 1] == (VariableView { name: "VIRTMCU_ZENOH_ROUTER"@, value: w.endpoint })
        }),
{
}

/// A line that the emulator prints is told by the words in it: an unknown property before an error,
/// an error before a warning, and so on.
pub proof fn law_line_kinds(line: Seq<char>)
    ensures
        ({
            let kind = builder::line_kind(line);
            let property = text::occurs(line, "not found"@) && (text::occurs(line, "Property '"@)
                || text::occurs(line, "property '"@));
            let error = text::occurs(line, "[ERROR]"@) || text::occurs(line, "error:"@)
                || text::occurs(line, "fatal:"@) || text::occurs(line, "panic"@);
            let warn = text::occurs(line, "[WARN ]"@) || text::occurs(line, "warning:"@);
            &&& kind == LineKind::UnknownProperty <==> property
            &&& kind == LineKind::Error <==> !property && error
            &&& kind == LineKind::Warn <==> !property && !error && warn
            &&& kind == LineKind::Debug <==> !property && !error && !warn && text::occurs(
                line,
                "[DEBUG]"@,
            )
            &&& kind == LineKind::Trace <==> !property && !error && !warn && !text::occurs(
                line,
                "[DEBUG]"@,
            ) && text::occurs(line, "[TRACE]"@)
        }),
{
}

/// Of the lines that were printed the most recent are kept, in order.
pub proof fn law_recent_lines(lines: Seq<Seq<char>>, line: Seq<char>)
    requires
        lines.len() <= builder::RECENT_LINES,
    ensures
        lines.len() < builder::RECENT_LINES ==> builder::kept_lines(lines, line) == lines.push(
            line,
        ),
        lines.len() == builder::RECENT_LINES ==> builder::kept_lines(lines, line)
            == lines.drop_first().push(line),
{
    if lines.len() == builder::RECENT_LINES {
        assert(lines.push(line).drop_first() =~= lines.drop_first().push(line));
    }
}

/// From a request of the clock the step, the time and the quantum read back.
pub proof fn law_clock_request_reads_back(step_ns: u64, vtime: u64, quantum: u64)
    ensures
        ({
            let bytes = builder::clock_request_bytes(step_ns, vtime, quantum);
            &&& bytes.len() == 24
            &&& wire::le_at(bytes, 0, 8) == step_ns
            &&& wire::le_at(bytes, 8, 8) == vtime
            &&& wire::le_at(bytes, 16, 8) == quantum
        }),
{
    let a = wire::le_bytes(step_ns as nat, 8);
    let b = wire::le_bytes(vtime as nat, 8);
    let c = wire::le_bytes(quantum as nat, 8);
    let bytes = a + b + c;
    wire_laws::lemma_byte_ranges();
    wire_laws::lemma_number_in(Seq::empty(), step_ns as nat, 8, b + c);
    assert(Seq::<u8>::empty() + a + (b + c) =~= bytes);
    wire_laws::lemma_number_in(a, vtime as nat, 8, c);
    wire_laws::lemma_number_in(a + b, quantum as nat, 8, Seq::empty());
    assert((a + b) + c + Seq::<u8>::empty() =~= bytes);
}

/// The number of failures is that of the tests that did not pass.
pub proof fn law_failures(passed: Seq<bool>)
    ensures
        commands::failures(passed) == passed.filter(|p: bool| !p).len(),
    decreases passed.len(),
{
    reveal(Seq::filter);
    if passed.len() > 0 {
        law_failures(passed.drop_last());
    }
}

/// Tests of one domain are asked for by its name, and all of them without one.
pub proof fn law_integration_arguments(domain: Seq<char>)
    ensures
        ({
            let all = commands::integration_args_of(None);
            let one = commands::integration_args_of(Some(domain));
            &&& all == seq![
                "+nightly"@,
                "test"@,
                "-Z"@,
                "bindeps"@,
                "-p"@,
                "native-integration"@,
            ]
            &&& domain == "all"@ ==> one == all
            &&& domain != "all"@ ==> one == all.push("--test"@).push(domain)
        }),
        commands::integration_settings_of(false).len() == 0,
        ({
            let s = commands::integration_settings_of(true);
            &&& s.len() == 4
            &&& s[0] == (VariableView { name: "VIRTMCU_USE_ASAN"@, value: "1"@ })
            &&& s[1] == (VariableView { name: "VIRTMCU_STALL_TIMEOUT_MS"@, value: "300000"@ })
            &&& s[2].name == "ASAN_OPTIONS"@ && s[3].name == "UBSAN_OPTIONS"@
        }),
{
    let all = commands::integration_args_of(None);
    let one = commands::integration_args_of(Some(domain));
    assert(all =~= seq!["+nightly"@, "test"@, "-Z"@, "bindeps"@, "-p"@, "native-integration"@]);
    if domain == "all"@ {
        assert(one =~= all);
    } else {
        assert(one =~= all.push("--test"@).push(domain));
    }
}

/// The emulator is traced with the boot program and the plugin that was given; the report of what
/// ran is made from the sources, the build and the data that were given.
pub proof fn law_coverage_arguments(
    plugin: Seq<char>,
    sources: Seq<char>,
    build: Seq<char>,
    data: Seq<char>,
)
    ensures
        ({
            let args = commands::traced_run_args_of(plugin);
            &&& args.len() == 13 && args[0] == "--dtb"@ && args[1]
                == "tests/fixtures/guest_apps/boot_arm/minimal.dtb"@ && args[2] == "--kernel"@
                && args[3] == "tests/fixtures/guest_apps/boot_arm/hello.elf"@
            &&& args[9] == "-plugin"@ && args[10] == plugin
                + ",filename=coverage-data/hello.drcov"@
        }),
        ({
            let args = commands::peripheral_coverage_args_of(sources, build, data);
            &&& args.len() == 13 && args[0] == "-r"@ && args[1] == sources && args[5]
                == "--object-directory"@ && args[6] == build && args.last() == data
        }),
{
}

/// The first variables are the workspace, the directory of the test and the router's endpoint.
pub proof fn law_first_variables(root: Seq<char>, tmp: Seq<char>, endpoint: Seq<char>)
    ensures
        ({
            let s = context::first_variables(root, tmp, endpoint);
            &&& variables::value_of(s, "WORKSPACE_DIR"@) == Some(root)
            &&& variables::value_of(s, "TMP_DIR"@) == Some(tmp)
            &&& variables::value_of(s, "ROUTER_ENDPOINT"@) == Some(text::trimmed(endpoint))
        }),
{
    reveal_strlit("WORKSPACE_DIR");
    reveal_strlit("TMP_DIR");
    reveal_strlit("ROUTER_ENDPOINT");
    assert("WORKSPACE_DIR"@.len() == 13 && "TMP_DIR"@.len() == 7 && "ROUTER_ENDPOINT"@.len() == 15);
    let a = Seq::<VariableView>::empty();
    variables::law_set_variable(a, "WORKSPACE_DIR"@, root, "TMP_DIR"@);
    let b = variables::with_value(a, "WORKSPACE_DIR"@, root);
    variables::law_set_variable(b, "TMP_DIR"@, tmp, "WORKSPACE_DIR"@);
    let c = variables::with_value(b, "TMP_DIR"@, tmp);
    variables::law_set_variable(c, "ROUTER_ENDPOINT"@, text::trimmed(endpoint), "TMP_DIR"@);
    variables::law_set_variable(c, "ROUTER_ENDPOINT"@, text::trimmed(endpoint), "WORKSPACE_DIR"@);
}

proof fn lemma_patterns_in(dirs: Seq<Seq<char>>, name: Seq<char>, n: int, i: int)
    requires
        0 <= i < n <= dirs.len(),
    ensures
        context::patterns_in(dirs, name, n).len() == 4 * n,
        context::patterns_in(dirs, name, n)[4 * i] == text::joined_path(
            dirs[i],
            "release/"@ + name,
        ),
        context::patterns_in(dirs, name, n)[4 * i + 1] == text::joined_path(
            dirs[i],
            "debug/"@ + name,
        ),
        context::patterns_in(dirs, name, n)[4 * i + 2] == text::joined_path(
            dirs[i],
            "*/release/"@ + name,
        ),
        context::patterns_in(dirs, name, n)[4 * i + 3] == text::joined_path(
            dirs[i],
            "*/debug/"@ + name,
        ),
    decreases n,
{
    assert(context::patterns_in(dirs, name, 0).len() == 0);
    if n > 1 {
        lemma_patterns_in(dirs, name, n - 1, 0);
    }
    if i < n - 1 {
        lemma_patterns_in(dirs, name, n - 1, i);
    }
}

/// A program is looked for in each directory, the released before the others, and those of the host
/// before those of platforms.
pub proof fn law_binary_patterns(dirs: Seq<Seq<char>>, name: Seq<char>, i: int)
    requires
        0 <= i < dirs.len(),
    ensures
        ({
            let all = context::patterns_in(dirs, name, dirs.len() as int);
            &&& all.len() == 4 * dirs.len()
            &&& all[4 * i] == text::joined_path(dirs[i], "release/"@ + name)
            &&& all[4 * i + 1] == text::joined_path(dirs[i], "debug/"@ + name)
            &&& all[4 * i + 2] == text::joined_path(dirs[i], "*/release/"@ + name)
            &&& all[4 * i + 3] == text::joined_path(dirs[i], "*/debug/"@ + name)
        }),
{
    lemma_patterns_in(dirs, name, dirs.len() as int, i);
}

/// Programs are built below the root, and where the build was told to put them.
pub proof fn law_target_dirs(root: Seq<char>, dir: Seq<char>)
    ensures
        context::target_dirs(root, None) == seq![
            text::joined_path(root, "target"@),
            text::joined_path(root, "target-asan"@),
            text::joined_path(root, "target-tsan"@),
        ],
        context::target_dirs(root, Some(dir)) == seq![
            text::joined_path(root, "target"@),
            dir,
            text::joined_path(root, "target-asan"@),
            text::joined_path(root, "target-tsan"@),
        ],
        launcher::build_dirs(root, None) == context::target_dirs(root, None),
        launcher::build_dirs(root, Some(dir)) == context::target_dirs(root, None).push(dir),
{
    assert(context::target_dirs(root, None) =~= seq![
        text::joined_path(root, "target"@),
        text::joined_path(root, "target-asan"@),
        text::joined_path(root, "target-tsan"@),
    ]);
    assert(context::target_dirs(root, Some(dir)) =~= seq![
        text::joined_path(root, "target"@),
        dir,
        text::joined_path(root, "target-asan"@),
        text::joined_path(root, "target-tsan"@),
    ]);
    assert(launcher::build_dirs(root, None) =~= context::target_dirs(root, None));
    assert(launcher::build_dirs(root, Some(dir)) =~= context::target_dirs(root, None).push(dir));
}

/// The checks of scripts are those of the scripts that are there, in order.
pub proof fn law_script_checks(dir: Seq<char>, all: Seq<CommandView>, present: Seq<bool>, n: int)
    requires
        0 <= n < all.len(),
        all.len() == present.len(),
    ensures
        ({
            let front = engine::script_checks(dir, all, present, n);
            let then = engine::script_checks(dir, all, present, n + 1);
            &&& present[n] ==> then.len() == front.len() + 1 && then.drop_last() == front
                && then.last().name == all[n].name && then.last().command == "python3"@
                && then.last().args.len() == all[n].args.len() + 1 && then.last().args[0]
                == text::joined_path(dir, all[n].command) && then.last().args.skip(1)
                == all[n].args
            &&& !present[n] ==> then == front
            &&& engine::script_checks(dir, all, present, 0).len() == 0
        }),
{
    let front = engine::script_checks(dir, all, present, n);
    let then = engine::script_checks(dir, all, present, n + 1);
    if present[n] {
        assert(then.drop_last() =~= front);
        assert(then.last().args.skip(1) =~= all[n].args);
    }
}

proof fn lemma_checked_yaml(paths: Seq<Seq<char>>, dirs: Seq<Seq<char>>, n: int)
    requires
        0 <= n <= paths.len(),
    ensures
        engine::checked_yaml(paths, dirs, n) == paths.take(n).filter(
            |p: Seq<char>| engine::is_checked_yaml(p, dirs),
        ),
    decreases n,
{
    reveal(Seq::filter);
    if n > 0 {
        lemma_checked_yaml(paths, dirs, n - 1);
        assert(paths.take(n).drop_last() =~= paths.take(n - 1));
        assert(paths.take(n).last() == paths[n - 1]);
    }
}

/// Exactly those descriptions are checked that are not of others, not generated and not private, in
/// order.
pub proof fn law_checked_descriptions(paths: Seq<Seq<char>>, dirs: Seq<Seq<char>>, p: Seq<char>)
    ensures
        engine::checked_yaml(paths, dirs, paths.len() as int) == paths.filter(
            |p: Seq<char>| engine::is_checked_yaml(p, dirs),
        ),
        text::occurs(p, "third_party"@) || text::occurs(p, "build"@) || text::occurs(p, "target"@)
            || text::occurs(p, ".cargo-cache"@) || text::occurs(p, "schema/node_modules"@)
            ==> !engine::is_checked_yaml(p, dirs),
        (exists|i: int| 0 <= i < dirs.len() && text::occurs(p, #[trigger] dirs[i]))
            ==> !engine::is_checked_yaml(p, dirs),
        !text::occurs(p, "third_party"@) && !text::occurs(p, "build"@) && !text::occurs(p, "target"@)
            && !text::occurs(p, ".cargo-cache"@) && !text::occurs(p, "schema/node_modules"@) && (
        forall|i: int| 0 <= i < dirs.len() ==> !text::occurs(p, #[trigger] dirs[i]))
            ==> engine::is_checked_yaml(p, dirs),
{
    lemma_checked_yaml(paths, dirs, paths.len() as int);
    assert(paths.take(paths.len() as int) =~= paths);
}

/// Python is checked for style always and for types where there is something to check; so are
/// descriptions where there are any.
pub proof fn law_python_and_yaml_checks(files: Seq<Seq<char>>)
    ensures
        engine::python_checks(false, false).len() == 1,
        ({
            let style = engine::python_checks(false, false)[0];
            &&& style.command == "ruff"@ && style.args == seq!["check"@, "."@]
            &&& engine::python_checks(true, false) == seq![
                style,
                engine::command("mypy"@, "python3"@, seq!["-m"@, "mypy"@, "tools"@]),
            ]
            &&& engine::python_checks(false, true) == seq![
                style,
                engine::command("mypy"@, "python3"@, seq!["-m"@, "mypy"@, "patches"@]),
            ]
            &&& engine::python_checks(true, true) == seq![
                style,
                engine::command("mypy"@, "python3"@, seq!["-m"@, "mypy"@, "tools"@, "patches"@]),
            ]
        }),
        files.len() == 0 ==> engine::yaml_checks(files).len() == 0,
        files.len() > 0 ==> engine::yaml_checks(files).len() == 1 && engine::yaml_checks(
            files,
        )[0].command == "yamllint"@ && engine::yaml_checks(files)[0].args.skip(3) == files,
{
    let style = engine::python_checks(false, false)[0];
    assert(seq!["-m"@, "mypy"@] + (seq!["tools"@] + Seq::<Seq<char>>::empty()) =~= seq![
        "-m"@,
        "mypy"@,
        "tools"@,
    ]);
    assert(seq!["-m"@, "mypy"@] + (Seq::<Seq<char>>::empty() + seq!["patches"@]) =~= seq![
        "-m"@,
        "mypy"@,
        "patches"@,
    ]);
    assert(seq!["-m"@, "mypy"@] + (seq!["tools"@] + seq!["patches"@]) =~= seq![
        "-m"@,
        "mypy"@,
        "tools"@,
        "patches"@,
    ]);
    assert(engine::python_checks(true, false) =~= seq![
        style,
        engine::command("mypy"@, "python3"@, seq!["-m"@, "mypy"@, "tools"@]),
    ]);
    assert(engine::python_checks(false, true) =~= seq![
        style,
        engine::command("mypy"@, "python3"@, seq!["-m"@, "mypy"@, "patches"@]),
    ]);
    assert(engine::python_checks(true, true) =~= seq![
        style,
        engine::command("mypy"@, "python3"@, seq!["-m"@, "mypy"@, "tools"@, "patches"@]),
    ]);
    if files.len() > 0 {
        assert(engine::yaml_checks(files)[0].args.skip(3) =~= files);
    }
}

/// What is there is checked, in order: the image, the workflows, the build file and the sources.
pub proof fn law_other_checks(found: FoundView)
    ensures
        ({
            let checks = engine::other_checks(found);
            let d = if found.dockerfile { 1int } else { 0int };
            let w = if found.workflows { 1int } else { 0int };
            let m = if found.meson_build { 1int } else { 0int };
            let s = if found.misc_sources { 1int } else { 0int };
            &&& checks.len() == 1 + d + w + m + s
            &&& checks[0].command == "codespell"@ && checks[0].args.len() == 5
            &&& found.dockerfile ==> checks[1].command == "hadolint"@
            &&& found.workflows ==> checks[1 + d].command == "actionlint"@
            &&& found.meson_build ==> checks[1 + d + w].command == "meson"@
            &&& found.misc_sources ==> checks[1 + d + w + m].command == "cppcheck"@
        }),
{
}

/// A check fails if and only if it ran and failed, or did not start; one that is not installed does
/// not.
pub proof fn law_outcomes(status: String, out: String, err: String)
    ensures
        engine::failure_of(CommandOutcome::NotInstalled) is None,
        engine::failure_of(CommandOutcome::Succeeded) is None,
        engine::failure_of(CommandOutcome::Failed(status, out, err)) == Some(
            "Exit status: "@ + status@ + "\nSTDOUT:\n"@ + out@ + "\nSTDERR:\n"@ + err@,
        ),
        engine::failure_of(CommandOutcome::NotStarted(err)) == Some(
            "Failed to execute command: "@ + err@,
        ),
{
}

/// Those that follow the clock are exactly those that are coordinated, in order.
pub proof fn law_followers(flags: Seq<bool>, n: int, i: int)
    requires
        0 <= n <= flags.len() <= usize::MAX,
        0 <= i < flags.len(),
    ensures
        environment::followers_of(flags, n).contains(i as usize) <==> i < n && flags[i],
        forall|a: int, b: int|
            0 <= a < b < environment::followers_of(flags, n).len() ==> environment::followers_of(
                flags,
                n,
            )[a] < environment::followers_of(flags, n)[b],
        forall|a: int|
            0 <= a < environment::followers_of(flags, n).len() ==> (
            #[trigger] environment::followers_of(flags, n)[a]) < n,
    decreases n,
{
    if n > 0 {
        law_followers(flags, n - 1, i);
        let front = environment::followers_of(flags, n - 1);
        let all = environment::followers_of(flags, n);
        if flags[n - 1] {
            assert(all[front.len() as int] == (n - 1) as usize);
            if front.contains(i as usize) {
                assert(all[front.index_of(i as usize)] == i as usize);
            }
            if all.contains(i as usize) && i != n - 1 {
                let k = all.index_of(i as usize);
                assert(front[k] == i as usize);
            }
        }
    }
}

/// A step of the clock is as long as was asked for, or as long as what is left.
pub proof fn law_step_size(total_ns: u64, advanced: u64, step_ns: u64)
    requires
        advanced <= total_ns,
    ensures
        ({
            let by = environment::step_size(total_ns, advanced, step_ns);
            &&& by <= step_ns
            &&& advanced + by <= total_ns
            &&& by == step_ns || advanced + by == total_ns
        }),
{
}

/// Exactly the groups of started processes are ended: those with a number above one, each as a
/// whole, in order.
pub proof fn law_groups_to_end(pgids: Seq<Option<i32>>, n: int)
    requires
        0 <= n < pgids.len(),
    ensures
        ({
            let front = environment::groups_to_end(pgids, n);
            let then = environment::groups_to_end(pgids, n + 1);
            &&& pgids[n] is Some && pgids[n]->0 > 1 ==> then.len() == front.len() + 1
                && then.take(front.len() as int) == front && then.last() == -(pgids[n]->0)
            &&& pgids[n] is None || pgids[n]->0 <= 1 ==> then == front
            &&& environment::groups_to_end(pgids, 0).len() == 0
        }),
{
    let front = environment::groups_to_end(pgids, n);
    let then = environment::groups_to_end(pgids, n + 1);
    if pgids[n] is Some && pgids[n]->0 > 1 {
        assert(then.take(front.len() as int) =~= front);
    }
}

/// The directory of a build names the sanitizers that it is made with.
pub proof fn law_build_dirs()
    ensures
        launcher::build_dir(false, false) == "build-virtmcu"@,
        launcher::build_dir(true, false) == "build-virtmcu-asan"@,
        launcher::build_dir(false, true) == "build-virtmcu-tsan"@,
        launcher::build_dir(true, true) == "build-virtmcu-asan-tsan"@,
{
    reveal_strlit("build-virtmcu");
    reveal_strlit("-asan");
    reveal_strlit("-tsan");
    reveal_strlit("");
    reveal_strlit("build-virtmcu-asan");
    reveal_strlit("build-virtmcu-tsan");
    reveal_strlit("build-virtmcu-asan-tsan");
    assert(launcher::build_dir(false, false) =~= "build-virtmcu"@);
    assert(launcher::build_dir(true, false) =~= "build-virtmcu-asan"@);
    assert(launcher::build_dir(false, true) =~= "build-virtmcu-tsan"@);
    assert(launcher::build_dir(true, true) =~= "build-virtmcu-asan-tsan"@);
}

proof fn lemma_first_set(flags: Seq<bool>, i: int, k: int)
    requires
        0 <= i <= k <= flags.len(),
        forall|j: int| i <= j < k ==> !#[trigger] flags[j],
        k < flags.len() ==> flags[k],
    ensures
        launcher::first_set(flags, i) == if k < flags.len() {
            Some(k)
        } else {
            None
        },
    decreases k - i,
{
    if i < k {
        assert(!flags[i]);
        lemma_first_set(flags, i + 1, k);
    }
}

/// Of some places, the first that is there is taken; if none is there, none is.
pub proof fn law_first_present(places: Seq<Seq<char>>, present: Seq<bool>, k: int)
    requires
        places.len() == present.len(),
        0 <= k <= present.len(),
        forall|j: int| 0 <= j < k ==> !#[trigger] present[j],
        k < present.len() ==> present[k],
    ensures
        launcher::first_present(places, present) == if k < present.len() {
            Some(places[k])
        } else {
            None
        },
{
    lemma_first_set(present, 0, k);
}

/// In a workspace the emulator is looked for in the directory of the build, then in the usual one
/// unless that is the same, then in its bundle.
pub proof fn law_workspace_candidates(workspace: Seq<char>, dir: Seq<char>, arch: Seq<char>)
    ensures
        ({
            let root = text::joined_path(workspace, "third_party/qemu"@);
            let all = launcher::workspace_candidates(workspace, dir, arch);
            &&& all[0] == text::joined_path(root, dir + "/qemu-system-"@ + arch)
            &&& all[1] == text::joined_path(root, dir + "/install/bin/qemu-system-"@ + arch)
            &&& dir == "build-virtmcu"@ ==> all.len() == 3
            &&& dir != "build-virtmcu"@ ==> all.len() == 5 && all[2] == text::joined_path(
                root,
                "build-virtmcu"@ + "/qemu-system-"@ + arch,
            ) && all[3] == text::joined_path(
                root,
                "build-virtmcu"@ + "/install/bin/qemu-system-"@ + arch,
            )
            &&& all.last() == text::joined_path(
                root,
                dir + "/qemu-bundle/workspace/third_party/qemu/"@ + dir
                    + "/install/bin/qemu-system-"@ + arch,
            )
        }),
{
}

/// Modules of the host's own platform are looked for first.
pub proof fn law_module_places(workspace: Seq<char>, dir: Seq<char>, host: Seq<char>)
    ensures
        launcher::module_subdirs("aarch64"@)[0] == "install/lib/aarch64-linux-gnu/qemu"@,
        launcher::module_subdirs("aarch64"@)[1] == "install/lib/x86_64-linux-gnu/qemu"@,
        host != "aarch64"@ ==> launcher::module_subdirs(host)[0]
            == "install/lib/x86_64-linux-gnu/qemu"@ && launcher::module_subdirs(host)[1]
            == "install/lib/aarch64-linux-gnu/qemu"@,
        launcher::module_subdirs(host).len() == 6,
        launcher::module_subdirs(host).skip(2) == seq![
            "install/lib/qemu"@,
            "install/lib64/qemu"@,
            "lib/qemu"@,
            "lib64/qemu"@,
        ],
        launcher::emulator_base(workspace, true, dir, true) == "/build/qemu/"@ + dir,
        launcher::emulator_base(workspace, true, dir, false) == "/build/qemu/build-virtmcu"@,
        launcher::emulator_base(workspace, false, dir, true) == launcher::emulator_base(
            workspace,
            false,
            dir,
            false,
        ),
        launcher::emulator_base(workspace, false, dir, true) == text::joined_path(
            text::joined_path(workspace, "third_party/qemu"@),
            dir,
        ),
{
    assert(launcher::module_subdirs(host).skip(2) =~= seq![
        "install/lib/qemu"@,
        "install/lib64/qemu"@,
        "lib/qemu"@,
        "lib64/qemu"@,
    ]);
}

/// A directory holds a module if and only if one of its files is one: a shared library of the
/// simulator's hardware.
pub proof fn law_modules(files: Seq<Seq<Seq<char>>>, i: int, name: Seq<char>)
    requires
        0 <= i < files.len(),
    ensures
        launcher::holds_module(files).len() == files.len(),
        launcher::holds_module(files)[i] <==> exists|k: int|
            0 <= k < files[i].len() && text::has_prefix(#[trigger] files[i][k], "hw-virtmcu-"@)
                && text::occurs(files[i][k], ".so"@),
        launcher::is_module("hw-virtmcu-"@ + name + ".so"@),
{
    let file = "hw-virtmcu-"@ + name + ".so"@;
    text_laws::law_prefix_and_suffix(name + ".so"@, "hw-virtmcu-"@);
    assert(file =~= "hw-virtmcu-"@ + (name + ".so"@));
    let at = ("hw-virtmcu-"@.len() + name.len()) as int;
    assert(file.subrange(at, at + ".so"@.len()) =~= ".so"@);
    assert(text::stands_at(file, ".so"@, at));
    if launcher::holds_module(files)[i] {
        let k = choose|k: int| 0 <= k < files[i].len() && launcher::is_module(#[trigger] files[i][k]);
        assert(text::has_prefix(files[i][k], "hw-virtmcu-"@));
    }
    if exists|k: int|
        0 <= k < files[i].len() && text::has_prefix(#[trigger] files[i][k], "hw-virtmcu-"@)
            && text::occurs(files[i][k], ".so"@) {
        let k = choose|k: int|
            0 <= k < files[i].len() && text::has_prefix(#[trigger] files[i][k], "hw-virtmcu-"@)
                && text::occurs(files[i][k], ".so"@);
        assert(launcher::is_module(files[i][k]));
    }
}

/// Libraries are looked for where the bus library is, then in each directory of builds, and last
/// where they were looked for before.
pub proof fn law_library_path(
    workspace: Seq<char>,
    dirs: Seq<TargetDirView>,
    host: Seq<char>,
    existing: Seq<char>,
)
    ensures
        ({
            let bare = launcher::library_path(workspace, dirs, host, Seq::empty());
            let all = launcher::library_path(workspace, dirs, host, existing);
            &&& bare[0] == text::joined_path(workspace, "third_party/zenoh-c/lib"@)
            &&& existing.len() > 0 ==> all == bare.push(existing)
            &&& existing.len() == 0 ==> all == bare
            &&& launcher::library_path(workspace, Seq::empty(), host, Seq::empty()).len() == 1
        }),
{
    let bare = launcher::library_path(workspace, dirs, host, Seq::empty());
    let all = launcher::library_path(workspace, dirs, host, existing);
    if existing.len() > 0 {
        assert(all =~= bare.push(existing));
    } else {
        assert(all =~= bare);
    }
}

/// In a directory of builds, the host's platform comes first, then the directory itself, then the
/// other platforms, in order; what is no platform is left out.
pub proof fn law_library_dirs(dir: TargetDirView, triple: Seq<char>, name: Seq<char>)
    ensures
        launcher::library_dirs(dir.base) == seq![
            text::joined_path(dir.base, "debug"@),
            text::joined_path(dir.base, "release"@),
            text::joined_path(dir.base, "debug/deps"@),
        ],
        dir.has_host && dir.entries.len() == 0 ==> launcher::libraries_in(dir, triple)
            == launcher::library_dirs(text::joined_path(dir.base, triple)) + launcher::library_dirs(
            dir.base,
        ),
        !dir.has_host && dir.entries.len() == 0 ==> launcher::libraries_in(dir, triple)
            == launcher::library_dirs(dir.base),
        ({
            let n = dir.entries.len() as int;
            let before = launcher::other_platforms(dir.base, triple, dir.entries, n);
            let then = launcher::other_platforms(dir.base, triple, dir.entries.push(name), n + 1);
            &&& name != triple && text::occurs(name, "-unknown-linux-gnu"@) ==> then == before
                + launcher::library_dirs(text::joined_path(dir.base, name))
            &&& name == triple || !text::occurs(name, "-unknown-linux-gnu"@) ==> then == before
        }),
{
    let n = dir.entries.len() as int;
    lemma_platforms_prefix(dir.base, triple, dir.entries, name, n);
    assert(dir.entries.push(name)[n] == name);
    let none = Seq::<Seq<char>>::empty();
    let own = launcher::library_dirs(dir.base);
    let host = launcher::library_dirs(text::joined_path(dir.base, triple));
    assert(host + own + none =~= host + own);
    assert(none + own + none =~= own);
}

proof fn lemma_platforms_prefix(
    base: Seq<char>,
    triple: Seq<char>,
    entries: Seq<Seq<char>>,
    name: Seq<char>,
    n: int,
)
    requires
        0 <= n <= entries.len(),
    ensures
        launcher::other_platforms(base, triple, entries.push(name), n)
            == launcher::other_platforms(base, triple, entries, n),
    decreases n,
{
    if n > 0 {
        lemma_platforms_prefix(base, triple, entries, name, n - 1);
        assert(entries.push(name)[n - 1] == entries[n - 1]);
    }
}

/// A line answers if it holds a result or an error; one that is no object is malformed; any other
/// says nothing.
pub proof fn law_replies(line: Seq<char>, a: bool, b: bool)
    ensures
        a || b ==> qmp::line_reply(line, Some(a), Some(b)) == ReplyView::Answer(line),
        qmp::line_reply(line, Some(false), Some(false)) == ReplyView::Nothing,
        qmp::line_reply(line, None, Some(b)) == ReplyView::Malformed,
        qmp::line_reply(line, Some(a), None) == ReplyView::Malformed,
        qmp::line_reply(line, None, None) == ReplyView::Malformed,
{
}

/// The request for a command with arguments has one field more than that without.
pub proof fn law_request_fields(command: Seq<char>, arguments: Seq<char>)
    ensures
        ({
            let bare = qmp::request_fields(command, None);
            let full = qmp::request_fields(command, Some(arguments));
            &&& bare.len() == 1 && bare[0].name == "execute"@ && bare[0].value
                == crate::json::json_quoted_of(command)
            &&& full.len() == 2 && full[0] == bare[0] && full[1].name == "arguments"@
                && full[1].value == arguments
        }),
{
}

/// A file is made from its source if there is one, else taken from its path, else nothing is said.
pub proof fn law_file_sources(source: Seq<char>, path: Option<Seq<char>>, p: Seq<char>)
    ensures
        spec::source_of(Some(source), path) == FileSourceView::Compile(source),
        spec::source_of(None, Some(p)) == FileSourceView::Copy(p),
        spec::source_of(None, None) == FileSourceView::Unsaid,
{
}

/// A test is run by its command if it is of a kind that has one; without one it is run as tests of
/// Python are.
pub proof fn law_test_commands(kind: Seq<char>, command: Seq<char>)
    ensures
        kind == "pytest"@ || kind == "command"@ || kind == "make_and_pytest"@ ==> spec::command_of(
            Some(kind),
            Some(command),
        ) == Some(command) && spec::command_of(Some(kind), None) == Some("pytest"@),
        kind != "pytest"@ && kind != "command"@ && kind != "make_and_pytest"@ ==> spec::command_of(
            Some(kind),
            Some(command),
        ) is None,
        spec::command_of(None, Some(command)) is None,
{
}

/// A variable in braces is filled in with its value, wherever it stands; a text without any stays
/// as it is.
pub proof fn law_filled_in(a: Seq<char>, name: Seq<char>, b: Seq<char>, value: Seq<char>)
    requires
        ({
            let p = "{"@ + name + "}"@;
            &&& !text::occurs(b, p)
            &&& forall|j: int|
                0 <= j < a.len() ==> !#[trigger] text::stands_at(a + p + b, p, j)
        }),
    ensures
        variables::filled_in(
            seq![VariableView { name, value }],
            0,
            a + ("{"@ + name + "}"@) + b,
        ) == a + value + b,
        variables::filled_in(seq![VariableView { name, value }], 0, b) == b,
        variables::filled_in(Seq::empty(), 0, a) == a,
{
    let p = "{"@ + name + "}"@;
    reveal_strlit("{");
    reveal_with_fuel(variables::filled_in, 2);
    text_laws::law_first_occurrence(a, p, b, value);
    text_laws::law_no_occurrence(b, p, value);
}

/// When variables are set from a list, each has the value that it has last in the list, and those
/// that the list does not have keep theirs.
pub proof fn law_with_all(s: Seq<VariableView>, more: Seq<VariableView>, i: int, k: int, name: Seq<char>)
    requires
        0 <= i <= more.len(),
        variables::distinct(s),
    ensures
        variables::distinct(variables::with_all(s, more, i)),
        i <= k < more.len() && more[k].name == name && (forall|j: int|
            k < j < more.len() ==> (#[trigger] more[j]).name != name) ==> variables::value_of(
            variables::with_all(s, more, i),
            name,
        ) == Some(more[k].value),
        (forall|j: int| i <= j < more.len() ==> (#[trigger] more[j]).name != name)
            ==> variables::value_of(variables::with_all(s, more, i), name)
            == variables::value_of(s, name),
    decreases more.len() - i,
{
    if i < more.len() {
        variables::law_set_variable(s, more[i].name, more[i].value, name);
        let then = variables::with_value(s, more[i].name, more[i].value);
        law_with_all(then, more, i + 1, k, name);
        if i == k && more[k].name == name && (forall|j: int|
            k < j < more.len() ==> (#[trigger] more[j]).name != name) {
            assert(forall|j: int| i + 1 <= j < more.len() ==> (#[trigger] more[j]).name != name);
        }
        if forall|j: int| i <= j < more.len() ==> (#[trigger] more[j]).name != name {
            assert(more[i].name != name);
        }
    }
}

/// The variables of a command: where its modules are found, and under a sanitizer what it is to do.
pub proof fn law_command_settings(root: Seq<char>)
    ensures
        ({
            let plain = context::command_settings(root, false);
            let checked = context::command_settings(root, true);
            &&& plain.len() == 1
            &&& plain[0].name == "PYTHONPATH"@ && plain[0].value == context::python_path(root)
            &&& checked.len() == 3
            &&& checked[0] == plain[0]
            &&& checked[1].name == "ASAN_OPTIONS"@ && checked[1].value
                == "detect_leaks=0,halt_on_error=1,detect_stack_use_after_return=1"@
            &&& checked[2].name == "UBSAN_OPTIONS"@ && checked[2].value
                == "halt_on_error=1:print_stacktrace=1"@
        }),
{
}

/// A program of a format that names its machine is foreign if it names another than this one; of
/// other files, and on a machine that is not known, nothing is.
pub proof fn law_foreign_programs(header: Vec<u8>, machine: u16, other: u16)
    requires
        header@.len() >= 20,
        header@.subrange(18, 20) == wire::le_bytes(other as nat, 2),
    ensures
        ({
            let names_machine = header@[0] == 0x7f && header@[1] == 'E' as u8 && header@[2]
                == 'L' as u8 && header@[3] == 'F' as u8;
            context::is_foreign(Some(header), machine) <==> names_machine && machine != 0 && machine
                != other
        }),
        !context::is_foreign(None, machine),
        context::machine_number("x86_64"@) == 62,
        context::machine_number("aarch64"@) == 183,
{
    wire_laws::lemma_byte_ranges();
    wire::law_le_round_trip(other as nat, 2);
    reveal_strlit("x86_64");
    reveal_strlit("aarch64");
    assert("x86_64"@.len() == 6);
    assert("aarch64"@.len() == 7);
}

/// All packages that are interpreted or measured are named, each behind its option.
pub proof fn law_package_arguments()
    ensures
        ({
            let args = commands::miri_args_of();
            &&& args.take(3) == seq!["+nightly"@, "miri"@, "test"@]
            &&& args.len() == 13
            &&& forall|i: int| 0 <= i < 5 ==> #[trigger] args[3 + 2 * i] == "-p"@
            &&& args[4] == "virtmcu-api"@
            &&& args[6] == "virtmcu-test-runner"@
            &&& args[8] == "zenoh_coordinator"@
            &&& args[10] == "deterministic_coordinator"@
            &&& args[12] == "virtmcu-zenoh-config"@
        }),
        ({
            let args = commands::unit_coverage_args_of();
            &&& args.len() == 10
            &&& args[0] == "tarpaulin"@ && args[1] == "--workspace"@
            &&& args[2] == "--exclude"@ && args[3] == "native-integration"@
            &&& args[4] == "--out"@ && args[5] == "Xml"@
            &&& args[6] == "--output-dir"@ && args[7] == "test-results/"@
            &&& args[8] == "--engine"@ && args[9] == "llvm"@
        }),
{
    let args = commands::miri_args_of();
    assert(args.take(3) =~= seq!["+nightly"@, "miri"@, "test"@]);
    assert forall|i: int| 0 <= i < 5 implies #[trigger] args[3 + 2 * i] == "-p"@ by {
        assert(i == 0 || i == 1 || i == 2 || i == 3 || i == 4);
        assert(args[3] == "-p"@ && args[5] == "-p"@ && args[7] == "-p"@ && args[9] == "-p"@
            && args[11] == "-p"@);
    }
}

/// The checks of the crates: their format, their lints, what they depend on and what is known of it.
pub proof fn law_crate_checks()
    ensures
        ({
            let all = engine::rust_checks();
            &&& all.len() == 5
            &&& all[0].command == "cargo"@ && all[0].args == seq!["fmt"@, "--all"@, "--check"@]
            &&& all[1].command == "cargo"@ && all[1].args == seq![
                "clippy"@,
                "--workspace"@,
                "--"@,
                "-D"@,
                "warnings"@,
            ]
            &&& all[2].command == "cargo-machete"@ && all[2].args.len() == 0
            &&& all[3].command == "cargo"@ && all[3].args == seq!["deny"@, "check"@]
            &&& all[4].command == "cargo"@ && all[4].args.len() == 11 && all[4].args[0] == "audit"@ && all[4].args[1] == "--db"@ && all[4].args[2] == "/tmp/advisory-db"@
        }),
{
}

/// All checks that may run at once are: those of the Python sources, those of the scripts that there
/// are, those of the descriptions, and the others.
pub proof fn law_checks_at_once(root: Seq<char>, found: FoundView, c: CommandView)
    ensures
        ({
            let all = engine::concurrent_checks(root, found);
            let scripts = engine::script_checks(
                text::joined_path(root, "scripts"@),
                engine::script_table(),
                found.scripts,
                engine::script_table().len() as int,
            );
            let described = engine::yaml_checks(
                engine::checked_yaml(
                    found.yaml_files,
                    found.private_dirs,
                    found.yaml_files.len() as int,
                ),
            );
            all.contains(c) <==> engine::python_checks(found.tools, found.patches).contains(c)
                || scripts.contains(c) || described.contains(c) || engine::other_checks(
                found,
            ).contains(c)
        }),
{
    let all = engine::concurrent_checks(root, found);
    let a = engine::python_checks(found.tools, found.patches);
    let b = engine::script_checks(
        text::joined_path(root, "scripts"@),
        engine::script_table(),
        found.scripts,
        17,
    );
    let d = engine::yaml_checks(
        engine::checked_yaml(found.yaml_files, found.private_dirs, found.yaml_files.len() as int),
    );
    let e = engine::other_checks(found);
    assert(engine::script_table().len() == 17);
    if all.contains(c) {
        let i = all.index_of(c);
        if i < a.len() {
            assert(a[i] == c);
        } else if i < a.len() + b.len() {
            assert(b[i - a.len()] == c);
        } else if i < a.len() + b.len() + d.len() {
            assert(d[i - a.len() - b.len()] == c);
        } else {
            assert(e[i - a.len() - b.len() - d.len()] == c);
        }
    }
    if a.contains(c) {
        assert(all[a.index_of(c)] == c);
    }
    if b.contains(c) {
        assert(all[a.len() + b.index_of(c)] == c);
    }
    if d.contains(c) {
        assert(all[a.len() + b.len() + d.index_of(c)] == c);
    }
    if e.contains(c) {
        assert(all[a.len() + b.len() + d.len() + e.index_of(c)] == c);
    }
}

/// The scripts that check the project, and what each is given.
pub proof fn law_script_table()
    ensures
        ({
            let t = engine::script_table();
            &&& t.len() == 17
            &&& t[0].command == "check-versions.py"@ && t[0].args == seq!["--root"@, "."@]
            &&& t[1].command == "check-ffi.py"@ && t[1].args.len() == 0
            &&& t[2].command == "verify-exports.py"@ && t[2].args.len() == 0
            &&& t[3].command == "lints/firmware_provenance.py"@ && t[3].args.len() == 0
            &&& t[4].command == "lints/dependency_pinning.py"@ && t[4].args == seq!["."@]
            &&& t[5].command == "lints/beyonce_rule.py"@ && t[5].args.len() == 0
            &&& t[6].command == "lints/third_party_modifications.py"@ && t[6].args.len() == 0
            &&& t[7].command == "lints/python_banned_patterns.py"@ && t[7].args == seq!["."@]
            &&& t[8].command == "lints/simulation_usage.py"@ && t[8].args == seq!["."@]
            &&& t[9].command == "lints/rust_banned_patterns.py"@ && t[9].args == seq!["."@]
            &&& t[10].command == "lints/rust_static_state.py"@ && t[10].args == seq!["."@]
            &&& t[11].command == "lints/rust_safe_serialization.py"@ && t[11].args == seq!["."@]
            &&& t[12].command == "check-stale-so.py"@ && t[12].args.len() == 0
            &&& t[13].command == "check-qom-alignment.py"@ && t[13].args.len() == 0
            &&& t[14].command == "check-cargo-meson-lib-alignment.py"@ && t[14].args.len() == 0
            &&& t[15].command == "audit_topology_yamls.py"@ && t[15].args.len() == 0
            &&& t[16].command == "lints/shell_lints.py"@ && t[16].args == seq!["."@]
        }),
{
}

/// Waiting for a text ends when what was read holds it, also where it came in parts; it fails when
/// time is up, a process dies, or there is no more to read, and names the node that is at fault.
pub proof fn law_waiting_for_text(
    a: Seq<char>,
    chunk: String,
    pattern: Seq<char>,
    node: usize,
    other: usize,
    why: String,
)
    ensures
        ({
            let event = WaitEvent::Chunk(chunk);
            let r = environment::wait_outcome(a, pattern, node, event);
            &&& text::occurs(a + chunk@, pattern) ==> r is Found
            &&& !text::occurs(a + chunk@, pattern) ==> r is Waiting
        }),
        environment::wait_outcome(a, pattern, node, WaitEvent::Nothing) is Waiting,
        ({
            let r = environment::wait_outcome(a, pattern, node, WaitEvent::TimedOut);
            r is Failed && r->Failed_0 is None && r->Failed_1 == "Timed out waiting for "@ + pattern
                + ". Buffer: "@ + a
        }),
        ({
            let r = environment::wait_outcome(a, pattern, node, WaitEvent::Died(other, why));
            r is Failed && r->Failed_0 == Some(other) && r->Failed_1
                == "QEMU process died unexpectedly with status: "@ + why@
        }),
        ({
            let r = environment::wait_outcome(a, pattern, node, WaitEvent::Ended);
            r is Failed && r->Failed_0 == Some(node)
        }),
        ({
            let r = environment::wait_outcome(a, pattern, node, WaitEvent::Unreadable(why));
            r is Failed && r->Failed_0 == Some(node) && r->Failed_1 == "UART read failed: "@ + why@
        }),
{
}

/// Where the emulator may be: among those that came built, or in the workspace, for the name that
/// its architecture goes by.
pub proof fn law_emulator_candidates(
    workspace: Seq<char>,
    dir: Seq<char>,
    arch: Seq<char>,
)
    ensures
        launcher::emulator_candidates(workspace, true, dir, "riscv"@)
            == launcher::prebuilt_candidates(dir, "riscv64"@),
        launcher::emulator_candidates(workspace, false, dir, "riscv"@)
            == launcher::workspace_candidates(workspace, dir, "riscv64"@),
        launcher::emulator_candidates(workspace, true, dir, "riscv32"@)
            == launcher::prebuilt_candidates(dir, "riscv32"@),
        arch != "riscv"@ && arch != "riscv64"@ && arch != "riscv32"@
            ==> launcher::emulator_candidates(workspace, true, dir, arch)
            == launcher::prebuilt_candidates(dir, "arm"@) && launcher::emulator_candidates(
            workspace,
            false,
            dir,
            arch,
        ) == launcher::workspace_candidates(workspace, dir, "arm"@),
        launcher::triple_of("aarch64"@) == "aarch64-unknown-linux-gnu"@,
        launcher::triple_of("x86_64"@) == "x86_64-unknown-linux-gnu"@,
{
    reveal_strlit("riscv");
    reveal_strlit("riscv64");
    reveal_strlit("riscv32");
    reveal_strlit("aarch64");
    reveal_strlit("x86_64");
    assert("riscv"@.len() == 5);
    assert("riscv64"@.len() == 7);
    assert("riscv32"@.len() == 7);
    assert("riscv32"@[5] == '3');
    assert("riscv64"@[5] == '6');
    assert("aarch64"@.len() == 7);
    assert("x86_64"@.len() == 6);
}

/// The reply is the first line that has a result or an error; blank lines and lines that have
/// neither, such as events, are passed over; a line that cannot be read before it ends the search.
pub proof fn law_first_reply(lines: Seq<Seq<char>>, i: int, k: int)
    requires
        0 <= i <= k <= lines.len(),
        forall|j: int|
            i <= j < k ==> text::trimmed(#[trigger] lines[j]).len() == 0 || (
            json::json_has_field_of(lines[j], "return"@) == Some(false) && json::json_has_field_of(
                lines[j],
                "error"@,
            ) == Some(false)),
    ensures
        k == lines.len() ==> qmp::reply_from(lines, i) is Nothing,
        k < lines.len() && text::trimmed(lines[k]).len() > 0 ==> ({
            let has_result = json::json_has_field_of(lines[k], "return"@);
            let has_error = json::json_has_field_of(lines[k], "error"@);
            &&& has_result is Some && has_error is Some && (has_result->0 || has_error->0)
                ==> qmp::reply_from(lines, i) == ReplyView::Answer(lines[k])
            &&& has_result is None || has_error is None ==> qmp::reply_from(lines, i) is Malformed
        }),
    decreases k - i,
{
    if i < k {
        assert(lines[i] == lines[i]);
        law_first_reply(lines, i + 1, k);
    }
}

/// A file that is needed stands under its name in the directory for temporary files.
pub proof fn law_named_files(dir: Seq<char>, name: Seq<char>)
    ensures
        spec::named_path(dir, name, true) == text::joined_path(dir, name),
        spec::named_path(dir, name, false) == ""@,
        context::binary_missing_text(name).take(name.len() as int) == name,
{
    assert(context::binary_missing_text(name).take(name.len() as int) =~= name);
}

/// The files of a guest program stand in the directory of the guest programs, under its name.
pub proof fn law_guest_dirs(root: Seq<char>, name: Seq<char>)
    ensures
        artifacts::guest_dir(root, name) == text::joined_path(
            text::joined_path(root, "tests/fixtures/guest_apps"@),
            name,
        ),
{
}

/// A description that names a transport names the other one instead, and is the same otherwise.
pub proof fn law_transport_is_changed(a: Seq<char>, b: Seq<char>, transport: Seq<char>)
    requires
        ({
            let zenoh = a + "transport: zenoh"@ + b;
            let unix = a + "transport: unix"@ + b;
            &&& forall|j: int|
                0 <= j < a.len() ==> !#[trigger] text::stands_at(zenoh, "transport: zenoh"@, j)
            &&& forall|j: int|
                0 <= j < a.len() ==> !#[trigger] text::stands_at(unix, "transport: unix"@, j)
            &&& !text::occurs(b, "transport: zenoh"@)
            &&& !text::occurs(b, "transport: unix"@)
            &&& !text::occurs(unix, "transport: zenoh"@)
            &&& !text::occurs(a + ("transport: "@ + transport) + b, "transport: unix"@)
        }),
    ensures
        builder::with_transport(a + "transport: zenoh"@ + b, transport) == a + ("transport: "@
            + transport) + b,
        builder::with_transport(a + "transport: unix"@ + b, transport) == a + ("transport: "@
            + transport) + b,
{
    let zenoh = a + "transport: zenoh"@ + b;
    let unix = a + "transport: unix"@ + b;
    let line = "transport: "@ + transport;
    reveal_strlit("transport:");
    reveal_strlit("transport: zenoh");
    reveal_strlit("transport: unix");
    text_laws::law_first_occurrence(a, "transport: zenoh"@, b, line);
    text_laws::law_no_occurrence(b, "transport: zenoh"@, line);
    text_laws::law_first_occurrence(a, "transport: unix"@, b, line);
    text_laws::law_no_occurrence(b, "transport: unix"@, line);
    text_laws::law_no_occurrence(unix, "transport: zenoh"@, line);
    text_laws::law_no_occurrence(a + line + b, "transport: unix"@, line);
    let at = a.len() as int;
    assert(zenoh.subrange(at, at + 10) =~= "transport:"@);
    assert(unix.subrange(at, at + 10) =~= "transport:"@);
    assert(text::stands_at(zenoh, "transport:"@, at));
    assert(text::stands_at(unix, "transport:"@, at));
    text::lemma_find_from(zenoh, "transport:"@, 0);
    text::lemma_find_from(unix, "transport:"@, 0);
}

} // verus!
