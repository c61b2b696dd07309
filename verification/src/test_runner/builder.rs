//! Describing a set of nodes, and turning it into what has to be started.
use vstd::prelude::*;

use crate::sorting;
use crate::test_runner::context;
use crate::test_runner::context::{push_setting, Setting, TestContext};
use crate::test_runner::variables;
use crate::test_runner::variables::Variables;
use crate::text;
use crate::text::{
    contains_text, decimal_text, join_path, joined2, joined3, joined4, joined6, no_items,
    numbered, owned, push_item, push_items, replace_text, same_text,
    some_item_holds, starts_with_text,
};
use crate::wire;
use crate::wire::push_le;

verus! {

/// One node: what it runs, and how it is started.
#[derive(Debug, PartialEq, Eq)]
pub struct NodeConfig {
    pub id: u32,
    pub arch: String,
    pub assembly: Option<String>,
    pub firmware_path: Option<String>,
    pub dts: Option<String>,
    pub dts_content: Option<String>,
    pub dts_path: Option<String>,
    pub dtb_path: Option<String>,
    pub yaml_path: Option<String>,
    pub qemu_args: Vec<String>,
    pub is_coordinated: bool,
}

#[verifier::ext_equal]
pub struct NodeView {
    pub id: u32,
    pub arch: Seq<char>,
    pub assembly: Option<Seq<char>>,
    pub firmware_path: Option<Seq<char>>,
    pub dts: Option<Seq<char>>,
    pub dts_content: Option<Seq<char>>,
    pub dts_path: Option<Seq<char>>,
    pub dtb_path: Option<Seq<char>>,
    pub yaml_path: Option<Seq<char>>,
    pub qemu_args: Seq<Seq<char>>,
    pub is_coordinated: bool,
}

impl View for NodeConfig {
    type V = NodeView;

    open spec fn view(&self) -> NodeView {
        NodeView {
            id: self.id,
            arch: self.arch@,
            assembly: text::optional(self.assembly),
            firmware_path: text::optional(self.firmware_path),
            dts: text::optional(self.dts),
            dts_content: text::optional(self.dts_content),
            dts_path: text::optional(self.dts_path),
            dtb_path: text::optional(self.dtb_path),
            yaml_path: text::optional(self.yaml_path),
            qemu_args: sorting::views(self.qemu_args@),
            is_coordinated: self.is_coordinated,
        }
    }
}

/// A node before anything is said of it.
pub open spec fn plain_node(id: u32) -> NodeView {
    NodeView {
        id,
        arch: "arm"@,
        assembly: None,
        firmware_path: None,
        dts: None,
        dts_content: None,
        dts_path: None,
        dtb_path: None,
        yaml_path: None,
        qemu_args: seq!["-nographic"@, "-monitor"@, "none"@],
        is_coordinated: true,
    }
}

impl NodeConfig {
    pub fn new(id: u32) -> (r: Self)
        ensures
            r@ == plain_node(id),
    {
        let mut qemu_args = no_items();
        push_item(&mut qemu_args, "-nographic");
        push_item(&mut qemu_args, "-monitor");
        push_item(&mut qemu_args, "none");
        let r = NodeConfig {
            id,
            arch: owned("arm"),
            assembly: None,
            firmware_path: None,
            dts: None,
            dts_content: None,
            dts_path: None,
            dtb_path: None,
            yaml_path: None,
            qemu_args,
            is_coordinated: true,
        };
        proof {
            assert(r@.qemu_args =~= seq!["-nographic"@, "-monitor"@, "none"@]);
        }
        r
    }

    pub fn with_arch(self, arch: &str) -> (r: Self)
        ensures
            r@ == (NodeView { arch: arch@, ..self@ }),
    {
        NodeConfig { arch: owned(arch), ..self }
    }

    pub fn orchestrated(self, coordinated: bool) -> (r: Self)
        ensures
            r@ == (NodeView { is_coordinated: coordinated, ..self@ }),
    {
        NodeConfig { is_coordinated: coordinated, ..self }
    }

    pub fn with_firmware_asm(self, assembly: &str) -> (r: Self)
        ensures
            r@ == (NodeView { assembly: Some(assembly@), ..self@ }),
    {
        NodeConfig { assembly: Some(owned(assembly)), ..self }
    }

    pub fn with_firmware_path(self, path: &str) -> (r: Self)
        ensures
            r@ == (NodeView { firmware_path: Some(path@), ..self@ }),
    {
        NodeConfig { firmware_path: Some(owned(path)), ..self }
    }

    pub fn with_dtb(self, dts: &str) -> (r: Self)
        ensures
            r@ == (NodeView { dts: Some(dts@), ..self@ }),
    {
        NodeConfig { dts: Some(owned(dts)), ..self }
    }

    pub fn with_dtb_path(self, path: &str) -> (r: Self)
        ensures
            r@ == (NodeView { dtb_path: Some(path@), ..self@ }),
    {
        NodeConfig { dtb_path: Some(owned(path)), ..self }
    }

    pub fn with_dts_content(self, content: &str) -> (r: Self)
        ensures
            r@ == (NodeView { dts_content: Some(content@), ..self@ }),
    {
        NodeConfig { dts_content: Some(owned(content)), ..self }
    }

    pub fn with_yaml_path(self, path: &str) -> (r: Self)
        ensures
            r@ == (NodeView { yaml_path: Some(path@), ..self@ }),
    {
        NodeConfig { yaml_path: Some(owned(path)), ..self }
    }

    pub fn with_dts_path(self, path: &str) -> (r: Self)
        ensures
            r@ == (NodeView { dts_path: Some(path@), ..self@ }),
    {
        NodeConfig { dts_path: Some(owned(path)), ..self }
    }

    pub fn add_qemu_arg(self, arg: &str) -> (r: Self)
        ensures
            r@ == (NodeView { qemu_args: self@.qemu_args.push(arg@), ..self@ }),
    {
        let mut r = self;
        push_item(&mut r.qemu_args, arg);
        r
    }
}

/// A set of nodes and how they are joined.
#[derive(Debug)]
pub struct TopologyBuilder {
    pub nodes: Vec<NodeConfig>,
    pub timeout_secs: u64,
    pub variables: Variables,
    pub federation_id: Option<String>,
    pub transport_override: Option<String>,
}

#[verifier::ext_equal]
pub struct BuilderView {
    pub nodes: Seq<NodeView>,
    pub timeout_secs: u64,
    pub variables: Seq<variables::VariableView>,
    pub federation_id: Option<Seq<char>>,
    pub transport_override: Option<Seq<char>>,
}

impl View for TopologyBuilder {
    type V = BuilderView;

    open spec fn view(&self) -> BuilderView {
        BuilderView {
            nodes: sorting::views(self.nodes@),
            timeout_secs: self.timeout_secs,
            variables: self.variables@,
            federation_id: text::optional(self.federation_id),
            transport_override: text::optional(self.transport_override),
        }
    }
}

pub open spec fn empty_builder() -> BuilderView {
    BuilderView {
        nodes: Seq::empty(),
        timeout_secs: 10,
        variables: Seq::empty(),
        federation_id: None,
        transport_override: None,
    }
}

impl Default for TopologyBuilder {
    fn default() -> (r: Self)
        ensures
            r@ == empty_builder(),
    {
        TopologyBuilder::new()
    }
}

/// The transport that the nodes use.
pub open spec fn transport_of(b: BuilderView) -> Seq<char> {
    match b.transport_override {
        Some(t) => t,
        None => "zenoh"@,
    }
}

/// The nodes talk over sockets of the local machine.
pub open spec fn uses_sockets(b: BuilderView) -> bool {
    transport_of(b) == "unix"@
}

/// The name of the federation that the nodes make up.
pub open spec fn federation_of(b: BuilderView) -> Seq<char> {
    match b.federation_id {
        Some(id) => id,
        None => "default-fed"@,
    }
}

/// The first description file that a node from index `i` on names.
pub open spec fn first_yaml(nodes: Seq<NodeView>, i: int) -> Option<Seq<char>>
    decreases nodes.len() - i,
{
    if i < 0 || i >= nodes.len() {
        None
    } else if nodes[i].yaml_path is Some {
        nodes[i].yaml_path
    } else {
        first_yaml(nodes, i + 1)
    }
}

/// A line for each of the first `n` nodes.
pub open spec fn node_lines(nodes: Seq<NodeView>, n: int) -> Seq<char>
    decreases n,
{
    if n <= 0 || n > nodes.len() {
        Seq::empty()
    } else {
        node_lines(nodes, n - 1) + ("    - name: '"@ + text::decimal(nodes[n - 1].id as nat)
            + "'\n"@)
    }
}

/// A description of the nodes alone.
pub open spec fn plain_topology(nodes: Seq<NodeView>) -> Seq<char> {
    "topology:\n  transport: unix\n  nodes:\n"@ + node_lines(nodes, nodes.len() as int) + "\n"@
}

/// The description that the coordinator reads.
#[derive(Debug, Clone, PartialEq, Eq)]
pub enum TopologySource {
    /// A file that is there.
    File(String),
    /// A text that has to be written to a file first.
    Generated(String),
}

pub enum TopologySourceView {
    File(Seq<char>),
    Generated(Seq<char>),
}

impl View for TopologySource {
    type V = TopologySourceView;

    open spec fn view(&self) -> TopologySourceView {
        match self {
            TopologySource::File(p) => TopologySourceView::File(p@),
            TopologySource::Generated(t) => TopologySourceView::Generated(t@),
        }
    }
}

/// The description that the coordinator reads: the first that a node names, or one of the nodes
/// alone.
pub open spec fn topology_source_of(b: BuilderView, root: Seq<char>) -> TopologySourceView {
    let path = match first_yaml(b.nodes, 0) {
        Some(p) => text::joined_path(root, p),
        None => Seq::empty(),
    };
    if path.len() > 0 {
        TopologySourceView::File(path)
    } else {
        TopologySourceView::Generated(plain_topology(b.nodes))
    }
}

/// The arguments that the coordinator is started with.
pub open spec fn coordinator_args_of(b: BuilderView, run_dir: Seq<char>, topology: Seq<char>) -> Seq<
    Seq<char>,
> {
    seq![
        "--transport"@,
        "unix"@,
        "--nodes"@,
        text::decimal(b.nodes.len()),
        "--federation-id"@,
        federation_of(b),
        "--run-dir"@,
        run_dir,
        "--topology"@,
        topology,
        "--join-timeout-ms"@,
        "10000"@,
    ]
}

/// The coordinated nodes among the first `n`.
pub open spec fn coordinated_of(nodes: Seq<NodeView>, n: int) -> Seq<u32>
    decreases n,
{
    if n <= 0 || n > nodes.len() {
        Seq::empty()
    } else if nodes[n - 1].is_coordinated {
        coordinated_of(nodes, n - 1).push(nodes[n - 1].id)
    } else {
        coordinated_of(nodes, n - 1)
    }
}

/// The name of a file of one node.
pub open spec fn node_file(kind: Seq<char>, id: u32) -> Seq<char> {
    kind + "_"@ + text::decimal(id as nat) + ".sock"@
}

/// The name of a file of one node.
pub fn node_file_name(kind: &str, id: u32) -> (r: String)
    ensures
        r@ == node_file(kind@, id),
{
    joined4(kind, "_", decimal_text(id as u64).as_str(), ".sock")
}

/// Why nothing can be started.
#[derive(Debug, Clone, Copy, PartialEq, Eq, Structural)]
pub enum BuildError {
    NoNodes,
    FirmwareMissing,
    DeviceTreeMissing,
}

impl BuildError {
    /// What is said of the error.
    pub fn message(&self) -> (r: String)
        ensures
            r@ == match *self {
                BuildError::NoNodes => "Topology must have at least one node"@,
                BuildError::FirmwareMissing => "Firmware ASM or path is required"@,
                BuildError::DeviceTreeMissing =>
                    "Device Tree DTS, DTB path, or YAML path is required"@,
            },
    {
        match *self {
            BuildError::NoNodes => owned("Topology must have at least one node"),
            BuildError::FirmwareMissing => owned("Firmware ASM or path is required"),
            BuildError::DeviceTreeMissing => owned(
                "Device Tree DTS, DTB path, or YAML path is required",
            ),
        }
    }
}

/// Where a node's firmware comes from.
#[derive(Debug, Clone, PartialEq, Eq)]
pub enum FirmwareSource {
    /// Assembly that has to be compiled.
    Assembly(String),
    /// A file that is there.
    File(String),
}

pub enum FirmwareSourceView {
    Assembly(Seq<char>),
    File(Seq<char>),
}

impl View for FirmwareSource {
    type V = FirmwareSourceView;

    open spec fn view(&self) -> FirmwareSourceView {
        match self {
            FirmwareSource::Assembly(s) => FirmwareSourceView::Assembly(s@),
            FirmwareSource::File(s) => FirmwareSourceView::File(s@),
        }
    }
}

/// Where a node's firmware comes from.
pub open spec fn firmware_of(node: NodeView, root: Seq<char>) -> Option<FirmwareSourceView> {
    match (node.assembly, node.firmware_path) {
        (Some(assembly), _) => Some(FirmwareSourceView::Assembly(assembly)),
        (None, Some(p)) => Some(FirmwareSourceView::File(text::joined_path(root, p))),
        (None, None) => None,
    }
}

/// Where a node's device tree comes from.
#[derive(Debug, Clone, PartialEq, Eq)]
pub enum DeviceTreeSource {
    /// Source in which variables have to be filled in.
    Source(String),
    /// A file of such source.
    SourceFile(String),
    /// A compiled file.
    Binary(String),
    /// A description of the platform.
    Yaml(String),
}

pub enum DeviceTreeView {
    Source(Seq<char>),
    SourceFile(Seq<char>),
    Binary(Seq<char>),
    Yaml(Seq<char>),
}

impl View for DeviceTreeSource {
    type V = DeviceTreeView;

    open spec fn view(&self) -> DeviceTreeView {
        match self {
            DeviceTreeSource::Source(s) => DeviceTreeView::Source(s@),
            DeviceTreeSource::SourceFile(s) => DeviceTreeView::SourceFile(s@),
            DeviceTreeSource::Binary(s) => DeviceTreeView::Binary(s@),
            DeviceTreeSource::Yaml(s) => DeviceTreeView::Yaml(s@),
        }
    }
}

/// Where a node's device tree comes from: of all that the node names, the first in the order
/// source, contents, source file, compiled file, platform.
pub open spec fn device_tree_of(node: NodeView, root: Seq<char>) -> Option<DeviceTreeView> {
    if node.dts is Some {
        Some(DeviceTreeView::Source(node.dts->0))
    } else if node.dts_content is Some {
        Some(DeviceTreeView::Source(node.dts_content->0))
    } else if node.dts_path is Some {
        Some(DeviceTreeView::SourceFile(text::joined_path(root, node.dts_path->0)))
    } else if node.dtb_path is Some {
        Some(DeviceTreeView::Binary(text::joined_path(root, node.dtb_path->0)))
    } else if node.yaml_path is Some {
        Some(DeviceTreeView::Yaml(text::joined_path(root, node.yaml_path->0)))
    } else {
        None
    }
}

/// A platform's description once it names another transport.
pub open spec fn with_transport(yaml: Seq<char>, transport: Seq<char>) -> Seq<char> {
    if text::occurs(yaml, "transport:"@) {
        text::replaced(
            text::replaced(yaml, "transport: zenoh"@, "transport: "@ + transport),
            "transport: unix"@,
            "transport: "@ + transport,
        )
    } else {
        text::replaced(
            text::replaced(
                yaml,
                "topology:\n"@,
                "topology:\n  transport: "@ + transport + "\n"@,
            ),
            "topology:\r\n"@,
            "topology:\r\n  transport: "@ + transport + "\r\n"@,
        )
    }
}

/// A platform's description as it is used: with the chosen transport and the router's address.
pub open spec fn yaml_in_use(
    yaml: Seq<char>,
    transport_override: Option<Seq<char>>,
    endpoint: Seq<char>,
) -> Seq<char> {
    let chosen = match transport_override {
        Some(t) => with_transport(yaml, t),
        None => yaml,
    };
    text::replaced(chosen, "ZENOH_ROUTER_ENDPOINT"@, endpoint)
}

/// Puts the chosen transport and the router's address into a platform's description.
pub fn adapt_yaml(yaml: &str, transport_override: &Option<String>, endpoint: &str) -> (r: String)
    ensures
        r@ == yaml_in_use(yaml@, text::optional(*transport_override), endpoint@),
{
    proof {
        reveal_strlit("transport: zenoh");
        reveal_strlit("transport: unix");
        reveal_strlit("topology:\n");
        reveal_strlit("topology:\r\n");
        reveal_strlit("ZENOH_ROUTER_ENDPOINT");
    }
    let chosen = match transport_override {
        Some(t) => {
            let t = t.as_str();
            if contains_text(yaml, "transport:") {
                let named = joined2("transport: ", t);
                let once = replace_text(yaml, "transport: zenoh", named.as_str());
                replace_text(once.as_str(), "transport: unix", named.as_str())
            } else {
                let once = replace_text(
                    yaml,
                    "topology:\n",
                    joined3("topology:\n  transport: ", t, "\n").as_str(),
                );
                replace_text(
                    once.as_str(),
                    "topology:\r\n",
                    joined3("topology:\r\n  transport: ", t, "\r\n").as_str(),
                )
            }
        },
        None => owned(yaml),
    };
    replace_text(chosen.as_str(), "ZENOH_ROUTER_ENDPOINT", endpoint)
}

/// How the emulator is told of its machine and device tree.
pub open spec fn machine_args(arch: Seq<char>, dtb: Seq<char>) -> Seq<Seq<char>> {
    if text::has_prefix(arch, "riscv"@) {
        seq!["-M"@, "virt"@, "-dtb"@, dtb]
    } else {
        seq!["-M"@, "arm-generic-fdt,hw-dtb="@ + dtb]
    }
}

/// The devices that are joined to the hub.
pub open spec fn hub_devices() -> Seq<Seq<char>> {
    seq![
        "actuator"@,
        "sensor"@,
        "telemetry"@,
        "ieee802154"@,
        "canfd"@,
        "flexray"@,
        "lin"@,
        "spi"@,
        "wifi"@,
        "ui"@,
        "reference-peripheral"@,
    ]
}

/// The arguments that join the first `n` devices to the hub.
pub open spec fn hub_args(devices: Seq<Seq<char>>, n: int) -> Seq<Seq<char>>
    decreases n,
{
    if n <= 0 || n > devices.len() {
        Seq::empty()
    } else {
        hub_args(devices, n - 1) + seq!["-global"@, devices[n - 1] + ".transport=hub0"@]
    }
}

/// The clock device of a node.
pub open spec fn clock_device(
    id: u32,
    sockets: bool,
    clock_socket: Seq<char>,
    endpoint: Seq<char>,
    federation: Seq<char>,
) -> Seq<char> {
    let node = text::decimal(id as nat);
    if sockets {
        "virtmcu-clock,mode=slaved-unix,router="@ + clock_socket + ",node="@ + node
            + ",coordinated=on,coordinated-router="@ + endpoint + (",federation-id="@ + federation)
    } else {
        "virtmcu-clock,mode=slaved-suspend,router="@ + endpoint + ",node="@ + node
    }
}

/// How nodes reach each other.
pub struct Wiring {
    /// Over sockets of the local machine.
    pub sockets: bool,
    /// The address of the router or the coordinator.
    pub endpoint: String,
    pub federation: String,
}

#[verifier::ext_equal]
pub struct WiringView {
    pub sockets: bool,
    pub endpoint: Seq<char>,
    pub federation: Seq<char>,
}

impl View for Wiring {
    type V = WiringView;

    open spec fn view(&self) -> WiringView {
        WiringView {
            sockets: self.sockets,
            endpoint: self.endpoint@,
            federation: self.federation@,
        }
    }
}

/// The arguments that only a coordinated node has.
pub open spec fn coordination_args(
    node: NodeView,
    tmp_dir: Seq<char>,
    yaml_args: Seq<Seq<char>>,
    wiring: WiringView,
) -> Seq<Seq<char>> {
    if node.is_coordinated {
        hub_args(hub_devices(), 11) + (if text::some_holds(node.qemu_args, "virtmcu-clock"@)
            || text::some_holds(yaml_args, "virtmcu-clock"@) {
            Seq::empty()
        } else {
            seq![
                "-device"@,
                clock_device(
                    node.id,
                    wiring.sockets,
                    text::joined_path(tmp_dir, node_file("clock"@, node.id)),
                    wiring.endpoint,
                    wiring.federation,
                ),
            ]
        }) + seq!["-S"@]
    } else {
        Seq::empty()
    }
}

/// The arguments that a node's emulator is started with; `own_args` are the node's own, with
/// variables filled in.
pub open spec fn emulator_args(
    node: NodeView,
    tmp_dir: Seq<char>,
    yaml_args: Seq<Seq<char>>,
    dtb: Seq<char>,
    elf: Seq<char>,
    wiring: WiringView,
    own_args: Seq<Seq<char>>,
) -> Seq<Seq<char>> {
    yaml_args + seq![
        "-qmp"@,
        "unix:"@ + text::joined_path(tmp_dir, node_file("qmp"@, node.id)) + ",server=on,wait=off"@,
    ] + machine_args(node.arch, dtb) + seq!["-kernel"@, elf] + coordination_args(
        node,
        tmp_dir,
        yaml_args,
        wiring,
    ) + seq![
        "-serial"@,
        "unix:"@ + text::joined_path(tmp_dir, node_file("uart"@, node.id)) + ",server=on,wait=on"@,
    ] + own_args
}

fn push_hub_device(args: &mut Vec<String>, device: &str)
    ensures
        sorting::views(final(args)@) == sorting::views(old(args)@) + seq![
            "-global"@,
            device@ + ".transport=hub0"@,
        ],
{
    push_item(args, "-global");
    push_item(args, joined2(device, ".transport=hub0").as_str());
    proof {
        assert(sorting::views(args@) =~= sorting::views(old(args)@) + seq![
            "-global"@,
            device@ + ".transport=hub0"@,
        ]);
    }
}

#[verifier::rlimit(40)]
fn push_hub_args(args: &mut Vec<String>)
    ensures
        sorting::views(final(args)@) == sorting::views(old(args)@) + hub_args(hub_devices(), 11),
{
    push_hub_device(args, "actuator");
    push_hub_device(args, "sensor");
    push_hub_device(args, "telemetry");
    push_hub_device(args, "ieee802154");
    push_hub_device(args, "canfd");
    push_hub_device(args, "flexray");
    push_hub_device(args, "lin");
    push_hub_device(args, "spi");
    push_hub_device(args, "wifi");
    push_hub_device(args, "ui");
    push_hub_device(args, "reference-peripheral");
    proof {
        reveal_with_fuel(hub_args, 12);
        assert(sorting::views(args@) =~= sorting::views(old(args)@) + hub_args(hub_devices(), 11));
    }
}

fn push_coordination_args(
    args: &mut Vec<String>,
    node: &NodeConfig,
    ctx: &TestContext,
    yaml_args: &Vec<String>,
    wiring: &Wiring,
)
    ensures
        sorting::views(final(args)@) == sorting::views(old(args)@) + coordination_args(
            node@,
            ctx@.tmp_dir,
            sorting::views(yaml_args@),
            wiring@,
        ),
{
    let ghost start = sorting::views(args@);
    if node.is_coordinated {
        push_hub_args(args);
        if !some_item_holds(&node.qemu_args, "virtmcu-clock") && !some_item_holds(
            yaml_args,
            "virtmcu-clock",
        ) {
            let id = decimal_text(node.id as u64);
            let device = if wiring.sockets {
                let socket = ctx.tmp_path(node_file_name("clock", node.id).as_str());
                joined2(
                    joined6(
                        "virtmcu-clock,mode=slaved-unix,router=",
                        socket.as_str(),
                        ",node=",
                        id.as_str(),
                        ",coordinated=on,coordinated-router=",
                        wiring.endpoint.as_str(),
                    ).as_str(),
                    joined2(",federation-id=", wiring.federation.as_str()).as_str(),
                )
            } else {
                joined4(
                    "virtmcu-clock,mode=slaved-suspend,router=",
                    wiring.endpoint.as_str(),
                    ",node=",
                    id.as_str(),
                )
            };
            push_item(args, "-device");
            push_item(args, device.as_str());
        }
        push_item(args, "-S");
    }
    proof {
        assert(sorting::views(args@) =~= start + coordination_args(
            node@,
            ctx@.tmp_dir,
            sorting::views(yaml_args@),
            wiring@,
        ));
    }
}

/// The arguments that a node's emulator is started with.
pub fn emulator_arguments(
    node: &NodeConfig,
    ctx: &TestContext,
    yaml_args: &Vec<String>,
    dtb: &str,
    elf: &str,
    wiring: &Wiring,
    own_args: &Vec<String>,
) -> (r: Vec<String>)
    ensures
        sorting::views(r@) == emulator_args(
            node@,
            ctx@.tmp_dir,
            sorting::views(yaml_args@),
            dtb@,
            elf@,
            wiring@,
            sorting::views(own_args@),
        ),
{
    let mut args = no_items();
    push_items(&mut args, yaml_args);
    push_item(&mut args, "-qmp");
    let qmp = ctx.tmp_path(node_file_name("qmp", node.id).as_str());
    push_item(&mut args, joined3("unix:", qmp.as_str(), ",server=on,wait=off").as_str());
    push_item(&mut args, "-M");
    if starts_with_text(node.arch.as_str(), "riscv") {
        push_item(&mut args, "virt");
        push_item(&mut args, "-dtb");
        push_item(&mut args, dtb);
    } else {
        push_item(&mut args, joined2("arm-generic-fdt,hw-dtb=", dtb).as_str());
    }
    push_item(&mut args, "-kernel");
    push_item(&mut args, elf);
    push_coordination_args(&mut args, node, ctx, yaml_args, wiring);
    push_item(&mut args, "-serial");
    let uart = ctx.tmp_path(node_file_name("uart", node.id).as_str());
    push_item(&mut args, joined3("unix:", uart.as_str(), ",server=on,wait=on").as_str());
    push_items(&mut args, own_args);
    proof {
        assert(sorting::views(args@) =~= emulator_args(
            node@,
            ctx@.tmp_dir,
            sorting::views(yaml_args@),
            dtb@,
            elf@,
            wiring@,
            sorting::views(own_args@),
        ));
    }
    args
}

/// Where the coverage data of a node goes.
pub open spec fn coverage_prefix(
    root: Seq<char>,
    arch: Seq<char>,
    build_dir: Seq<char>,
    id: u32,
) -> Seq<char> {
    root + "/target/coverage/"@ + arch + "_"@ + build_dir + "_node"@ + text::decimal(id as nat)
}

/// The environment variables that a node's emulator is started with.
pub open spec fn emulator_settings_of(
    node: NodeView,
    root: Seq<char>,
    library_path: Seq<char>,
    module_dir: Option<Seq<char>>,
    coverage_set: bool,
    build_dir: Seq<char>,
    wiring: WiringView,
) -> Seq<variables::VariableView> {
    seq![context::setting("LD_LIBRARY_PATH"@, library_path)] + (match module_dir {
        Some(dir) => seq![context::setting("QEMU_MODULE_DIR"@, dir)],
        None => Seq::empty(),
    }) + (if coverage_set {
        Seq::empty()
    } else {
        seq![
            context::setting("GCOV_PREFIX"@, coverage_prefix(root, node.arch, build_dir, node.id)),
        ]
    }) + (if wiring.sockets {
        seq![
            context::setting("VIRTMCU_COORD_SOCK"@, wiring.endpoint),
            context::setting("VIRTMCU_SIM_ID"@, wiring.federation),
        ]
    } else {
        seq![
            context::setting("ZENOH_ROUTER_ENDPOINT"@, wiring.endpoint),
            context::setting("VIRTMCU_ZENOH_ROUTER"@, wiring.endpoint),
        ]
    })
}

/// The environment variables that a node's emulator is started with.
pub fn emulator_settings(
    node: &NodeConfig,
    root: &str,
    library_path: &str,
    module_dir: &Option<String>,
    coverage_set: bool,
    build_dir: &str,
    wiring: &Wiring,
) -> (r: Vec<Setting>)
    ensures
        sorting::views(r@) == emulator_settings_of(
            node@,
            root@,
            library_path@,
            text::optional(*module_dir),
            coverage_set,
            build_dir@,
            wiring@,
        ),
{
    let mut list: Vec<Setting> = Vec::new();
    push_setting(&mut list, "LD_LIBRARY_PATH", library_path);
    match module_dir {
        Some(dir) => {
            push_setting(&mut list, "QEMU_MODULE_DIR", dir.as_str());
        },
        None => {},
    }
    if !coverage_set {
        let prefix = joined2(
            joined6(root, "/target/coverage/", node.arch.as_str(), "_", build_dir, "_node").as_str(),
            decimal_text(node.id as u64).as_str(),
        );
        push_setting(&mut list, "GCOV_PREFIX", prefix.as_str());
    }
    if wiring.sockets {
        push_setting(&mut list, "VIRTMCU_COORD_SOCK", wiring.endpoint.as_str());
        push_setting(&mut list, "VIRTMCU_SIM_ID", wiring.federation.as_str());
    } else {
        push_setting(&mut list, "ZENOH_ROUTER_ENDPOINT", wiring.endpoint.as_str());
        push_setting(&mut list, "VIRTMCU_ZENOH_ROUTER", wiring.endpoint.as_str());
    }
    proof {
        assert(sorting::views(list@) =~= emulator_settings_of(
            node@,
            root@,
            library_path@,
            text::optional(*module_dir),
            coverage_set,
            build_dir@,
            wiring@,
        ));
    }
    list
}

/// What a line that the emulator printed is.
#[derive(Debug, Clone, Copy, PartialEq, Eq, Structural)]
pub enum LineKind {
    /// A device was given a property that it does not have.
    UnknownProperty,
    Error,
    Warn,
    Debug,
    Trace,
    Info,
}

/// What a line that the emulator printed is.
pub open spec fn line_kind(line: Seq<char>) -> LineKind {
    if text::occurs(line, "not found"@) && (text::occurs(line, "Property '"@) || text::occurs(
        line,
        "property '"@,
    )) {
        LineKind::UnknownProperty
    } else if text::occurs(line, "[ERROR]"@) || text::occurs(line, "error:"@) || text::occurs(
        line,
        "fatal:"@,
    ) || text::occurs(line, "panic"@) {
        LineKind::Error
    } else if text::occurs(line, "[WARN ]"@) || text::occurs(line, "warning:"@) {
        LineKind::Warn
    } else if text::occurs(line, "[DEBUG]"@) {
        LineKind::Debug
    } else if text::occurs(line, "[TRACE]"@) {
        LineKind::Trace
    } else {
        LineKind::Info
    }
}

/// Tells what a line that the emulator printed is.
pub fn classify_line(line: &str) -> (r: LineKind)
    ensures
        r == line_kind(line@),
{
    if contains_text(line, "not found") && (contains_text(line, "Property '") || contains_text(
        line,
        "property '",
    )) {
        LineKind::UnknownProperty
    } else if contains_text(line, "[ERROR]") || contains_text(line, "error:") || contains_text(
        line,
        "fatal:",
    ) || contains_text(line, "panic") {
        LineKind::Error
    } else if contains_text(line, "[WARN ]") || contains_text(line, "warning:") {
        LineKind::Warn
    } else if contains_text(line, "[DEBUG]") {
        LineKind::Debug
    } else if contains_text(line, "[TRACE]") {
        LineKind::Trace
    } else {
        LineKind::Info
    }
}

/// How many lines of a node are kept.
pub const RECENT_LINES: usize = 1000;

/// The lines that are kept once one more was printed.
pub open spec fn kept_lines(lines: Seq<Seq<char>>, line: Seq<char>) -> Seq<Seq<char>> {
    let all = lines.push(line);
    if all.len() > RECENT_LINES {
        all.drop_first()
    } else {
        all
    }
}

/// Keeps a line, and lets go of the oldest where there are too many.
pub fn keep_line(lines: &mut Vec<String>, line: &str)
    ensures
        sorting::views(final(lines)@) == kept_lines(sorting::views(old(lines)@), line@),
{
    push_item(lines, line);
    if lines.len() > RECENT_LINES {
        lines.remove(0);
        proof {
            assert(sorting::views(lines@) =~= sorting::views(old(lines)@).push(
                line@,
            ).drop_first());
        }
    }
}

/// However many lines come, no more than the limit are kept, and the newest is the last.
pub proof fn law_lines_stay_bounded(lines: Seq<Seq<char>>, line: Seq<char>)
    requires
        lines.len() <= RECENT_LINES,
    ensures
        0 < kept_lines(lines, line).len() <= RECENT_LINES,
        kept_lines(lines, line).last() == line,
{
}

/// The bytes that ask a node's clock to advance.
pub open spec fn clock_request_bytes(step_ns: u64, vtime: u64, quantum: u64) -> Seq<u8> {
    wire::le_bytes(step_ns as nat, 8) + wire::le_bytes(vtime as nat, 8) + wire::le_bytes(
        quantum as nat,
        8,
    )
}

/// The bytes that ask a node's clock to advance.
pub fn clock_request(step_ns: u64, vtime: u64, quantum: u64) -> (r: Vec<u8>)
    ensures
        r@ == clock_request_bytes(step_ns, vtime, quantum),
{
    let mut out: Vec<u8> = Vec::new();
    push_le(&mut out, step_ns, 8);
    push_le(&mut out, vtime, 8);
    push_le(&mut out, quantum, 8);
    proof {
        assert(out@ =~= clock_request_bytes(step_ns, vtime, quantum));
    }
    out
}

/// The topic on which a node's clock is asked to advance.
pub fn advance_topic(node: u64) -> (r: String)
    ensures
        r@ == "sim/clock/advance/"@ + text::decimal(node as nat),
{
    numbered("sim/clock/advance/", node)
}

/// The topic on which a node's clock says that it is there.
pub fn liveliness_topic(node: u32) -> (r: String)
    ensures
        r@ == "sim/clock/liveliness/"@ + text::decimal(node as nat),
{
    numbered("sim/clock/liveliness/", node as u64)
}

impl TopologyBuilder {
    pub fn new() -> (r: Self)
        ensures
            r@ == empty_builder(),
    {
        let nodes: Vec<NodeConfig> = Vec::new();
        proof {
            assert(sorting::views(nodes@) =~= Seq::empty());
        }
        TopologyBuilder {
            nodes,
            timeout_secs: 10,
            variables: Variables::new(),
            federation_id: None,
            transport_override: None,
        }
    }

    pub fn with_transport_override(self, transport: &str) -> (r: Self)
        ensures
            r@ == (BuilderView { transport_override: Some(transport@), ..self@ }),
    {
        TopologyBuilder { transport_override: Some(owned(transport)), ..self }
    }

    pub fn with_federation_id(self, id: &str) -> (r: Self)
        ensures
            r@ == (BuilderView { federation_id: Some(id@), ..self@ }),
    {
        TopologyBuilder { federation_id: Some(owned(id)), ..self }
    }

    pub fn with_variable(self, key: &str, value: &str) -> (r: Self)
        ensures
            r@ == (BuilderView {
                variables: variables::with_value(self@.variables, key@, value@),
                ..self@
            }),
    {
        let mut r = self;
        r.variables.insert(key, value);
        r
    }

    pub fn add_node(self, node: NodeConfig) -> (r: Self)
        ensures
            r@ == (BuilderView { nodes: self@.nodes.push(node@), ..self@ }),
    {
        let mut r = self;
        r.nodes.push(node);
        proof {
            assert(r@.nodes =~= self@.nodes.push(node@));
        }
        r
    }

    pub fn with_timeout(self, secs: u64) -> (r: Self)
        ensures
            r@ == (BuilderView { timeout_secs: secs, ..self@ }),
    {
        TopologyBuilder { timeout_secs: secs, ..self }
    }

    /// The transport that the nodes use.
    pub fn transport(&self) -> (r: String)
        ensures
            r@ == transport_of(self@),
    {
        match &self.transport_override {
            Some(t) => owned(t.as_str()),
            None => owned("zenoh"),
        }
    }

    /// How the nodes reach each other; `router` is the router's address, which sockets do not use.
    /// Without a node there is nothing to start.
    pub fn wiring(&self, ctx: &TestContext, router: &str) -> (r: Result<Wiring, BuildError>)
        ensures
            match r {
                Ok(w) => self@.nodes.len() > 0 && w@ == wiring_of(self@, ctx@.tmp_dir, router@),
                Err(e) => e == BuildError::NoNodes && self@.nodes.len() == 0,
            },
    {
        if self.nodes.len() == 0 {
            return Err(BuildError::NoNodes);
        }
        let federation = match &self.federation_id {
            Some(id) => owned(id.as_str()),
            None => owned("default-fed"),
        };
        let sockets = same_text(self.transport().as_str(), "unix");
        let endpoint = if sockets {
            ctx.tmp_path(joined2(federation.as_str(), "/coordinator.sock").as_str())
        } else {
            owned(router)
        };
        Ok(Wiring { sockets, endpoint, federation })
    }

    /// The description that the coordinator reads.
    pub fn topology_source(&self, root: &str) -> (r: TopologySource)
        ensures
            r@ == topology_source_of(self@, root@),
    {
        let mut i: usize = 0;
        let mut path = owned("");
        let mut found: bool = false;
        proof {
            reveal_strlit("");
        }
        while i < self.nodes.len() && !found
            invariant
                i <= self.nodes@.len(),
                !found ==> first_yaml(self@.nodes, 0) == first_yaml(self@.nodes, i as int)
                    && path@.len() == 0,
                found ==> first_yaml(self@.nodes, 0) is Some && path@ == text::joined_path(
                    root@,
                    first_yaml(self@.nodes, 0)->0,
                ),
            decreases self.nodes@.len() - i,
        {
            proof {
                assert(self@.nodes[i as int] == self.nodes@[i as int]@);
            }
            match &self.nodes[i].yaml_path {
                Some(p) => {
                    path = join_path(root, p.as_str());
                    found = true;
                },
                None => {},
            }
            i += 1;
        }
        if !path.as_str().is_empty() {
            return TopologySource::File(path);
        }
        let mut lines = owned("");
        let mut k: usize = 0;
        proof {
            reveal_strlit("");
            assert(lines@ =~= node_lines(self@.nodes, 0));
        }
        while k < self.nodes.len()
            invariant
                k <= self.nodes@.len(),
                lines@ == node_lines(self@.nodes, k as int),
            decreases self.nodes@.len() - k,
        {
            proof {
                assert(self@.nodes[k as int] == self.nodes@[k as int]@);
            }
            let line = joined3(
                "    - name: '",
                decimal_text(self.nodes[k].id as u64).as_str(),
                "'\n",
            );
            lines = joined2(lines.as_str(), line.as_str());
            k += 1;
        }
        TopologySource::Generated(
            joined3("topology:\n  transport: unix\n  nodes:\n", lines.as_str(), "\n"),
        )
    }

    /// The arguments that the coordinator is started with.
    pub fn coordinator_args(&self, run_dir: &str, topology: &str) -> (r: Vec<String>)
        ensures
            sorting::views(r@) == coordinator_args_of(self@, run_dir@, topology@),
    {
        let mut args = no_items();
        push_item(&mut args, "--transport");
        push_item(&mut args, "unix");
        push_item(&mut args, "--nodes");
        push_item(&mut args, decimal_text(self.nodes.len() as u64).as_str());
        push_item(&mut args, "--federation-id");
        match &self.federation_id {
            Some(id) => {
                push_item(&mut args, id.as_str());
            },
            None => {
                push_item(&mut args, "default-fed");
            },
        }
        push_item(&mut args, "--run-dir");
        push_item(&mut args, run_dir);
        push_item(&mut args, "--topology");
        push_item(&mut args, topology);
        push_item(&mut args, "--join-timeout-ms");
        push_item(&mut args, "10000");
        proof {
            assert(sorting::views(args@) =~= coordinator_args_of(self@, run_dir@, topology@));
        }
        args
    }

    /// The nodes that follow the common clock.
    pub fn coordinated_nodes(&self) -> (r: Vec<u32>)
        ensures
            r@ == coordinated_of(self@.nodes, self@.nodes.len() as int),
    {
        let mut r: Vec<u32> = Vec::new();
        let mut i: usize = 0;
        while i < self.nodes.len()
            invariant
                i <= self.nodes@.len(),
                r@ == coordinated_of(self@.nodes, i as int),
            decreases self.nodes@.len() - i,
        {
            proof {
                assert(self@.nodes[i as int] == self.nodes@[i as int]@);
            }
            if self.nodes[i].is_coordinated {
                r.push(self.nodes[i].id);
            }
            i += 1;
        }
        r
    }

    /// The variables of the test once the builder's own are set.
    pub fn set_variables(&self, ctx: &mut TestContext)
        ensures
            final(ctx)@ == (context::ContextView {
                variables: variables::with_all(old(ctx)@.variables, self@.variables, 0),
                ..old(ctx)@
            }),
    {
        ctx.variables.insert_all(&self.variables);
    }
}

/// How the nodes reach each other.
pub open spec fn wiring_of(b: BuilderView, tmp_dir: Seq<char>, router: Seq<char>) -> WiringView {
    WiringView {
        sockets: uses_sockets(b),
        endpoint: if uses_sockets(b) {
            text::joined_path(tmp_dir, federation_of(b) + "/coordinator.sock"@)
        } else {
            router
        },
        federation: federation_of(b),
    }
}

impl NodeConfig {
    /// Where the node's firmware comes from.
    pub fn firmware(&self, root: &str) -> (r: Result<FirmwareSource, BuildError>)
        ensures
            match r {
                Ok(f) => firmware_of(self@, root@) == Some(f@),
                Err(e) => e == BuildError::FirmwareMissing && firmware_of(self@, root@) is None,
            },
    {
        match &self.assembly {
            Some(assembly) => Ok(FirmwareSource::Assembly(owned(assembly.as_str()))),
            None => match &self.firmware_path {
                Some(p) => Ok(FirmwareSource::File(join_path(root, p.as_str()))),
                None => Err(BuildError::FirmwareMissing),
            },
        }
    }

    /// Where the node's device tree comes from.
    pub fn device_tree(&self, root: &str) -> (r: Result<DeviceTreeSource, BuildError>)
        ensures
            match r {
                Ok(d) => device_tree_of(self@, root@) == Some(d@),
                Err(e) => e == BuildError::DeviceTreeMissing && device_tree_of(
                    self@,
                    root@,
                ) is None,
            },
    {
        match &self.dts {
            Some(s) => {
                return Ok(DeviceTreeSource::Source(owned(s.as_str())));
            },
            None => {},
        }
        match &self.dts_content {
            Some(s) => {
                return Ok(DeviceTreeSource::Source(owned(s.as_str())));
            },
            None => {},
        }
        match &self.dts_path {
            Some(p) => {
                return Ok(DeviceTreeSource::SourceFile(join_path(root, p.as_str())));
            },
            None => {},
        }
        match &self.dtb_path {
            Some(p) => {
                return Ok(DeviceTreeSource::Binary(join_path(root, p.as_str())));
            },
            None => {},
        }
        match &self.yaml_path {
            Some(p) => Ok(DeviceTreeSource::Yaml(join_path(root, p.as_str()))),
            None => Err(BuildError::DeviceTreeMissing),
        }
    }
}

} // verus!
