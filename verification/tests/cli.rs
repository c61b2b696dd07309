//! Looking into a simulation, and preparing what it is built from.
use virtmcu::virtmcu_cli::inspect::{
    align_left, align_right, child_path, event_line, is_child, listed_objects, read_request,
    router_list, trace_topic, tree_line, AdapterRequest, TraceEvent, REQUEST_SIZE,
};
use virtmcu::virtmcu_cli::patch_file::{patches_of, read_patches, PatchError};
use virtmcu::virtmcu_cli::schema::{fix_json_refs, fix_ref, fixed_schema, stale_files};
use virtmcu::virtmcu_cli::setup::{
    clone_args, configure_flatcc, configure_qemu, configure_zenoh_c, emulator_build_dir,
    emulator_tag, get_build_deps, read_setting, schema_compiler_tag, simulation_processes,
    sync_version, transport_branch, transport_build_dir, version_tag, TRANSPORT_URL,
};
use virtmcu::virtmcu_cli::source_patch::{
    address_sanitizer, apply_edit, apply_rust_asan_fix, apply_zenoh_chardev, edit_file,
    edited_files, edits_for, guard_sanitizer, patch_c_file, undefined_sanitizer, with_subdir,
    Edit,
};
use virtmcu::virtmcu_cli::svd::{
    apply_svd_patch, classify, value_text, PatchValue, PeripheralPatch, Property, RegisterPatch,
    SvdLine,
};

fn text(s: &str) -> String {
    s.to_string()
}

fn event(kind: i8, id: u32, name: &str) -> TraceEvent {
    TraceEvent { timestamp_ns: 1234, kind, id, value: 1, device_name: text(name) }
}

#[test]
fn events_are_shown_in_columns() {
    assert_eq!(event_line(&event(0, 2, "")), "[           1234] CPU_STATE  cpu=2 val=  1");
    assert_eq!(
        event_line(&event(1, 0x0003_0010, "uart")),
        "[           1234] IRQ        slot= 3 pin=16 (uart) val=  1"
    );
    assert_eq!(
        event_line(&event(1, 0x0003_0010, "")),
        "[           1234] IRQ        slot= 3 pin=16 val=  1"
    );
    assert_eq!(event_line(&event(2, 7, "x")), "[           1234] PERIPHERAL id=7 val=  1");
    assert_eq!(event_line(&event(9, 7, "x")), "[           1234] UNKNOWN    id=7 val=  1");
    assert_eq!(align_right("abcd", 3), "abcd");
    assert_eq!(align_left("ab", 4), "ab  ");
    assert_eq!(trace_topic(3), "sim/telemetry/trace/3");
    assert_eq!(router_list("tcp/r"), "[\"tcp/r\"]");
}

#[test]
fn adapter_requests_take_more_than_is_read() {
    let mut bytes: Vec<u8> = vec![];
    for n in [1u32, 4, 0, 0] {
        bytes.extend_from_slice(&n.to_le_bytes());
    }
    for n in [100u64, 0x4000_0000, 9] {
        bytes.extend_from_slice(&n.to_le_bytes());
    }
    assert_eq!(
        read_request(&bytes),
        Some(AdapterRequest { kind: 1, size: 4, vtime_ns: 100, addr: 0x4000_0000, data: 9 })
    );
    assert_eq!(read_request(&bytes[..REQUEST_SIZE]), None);
}

#[test]
fn objects_are_shown_as_a_tree() {
    assert_eq!(child_path("/", "machine"), "/machine");
    assert_eq!(child_path("/machine", "uart"), "/machine/uart");
    assert!(is_child("child<device>"));
    assert!(!is_child("link<device>"));
    assert_eq!(tree_line(2, "uart", "child<pl011>"), "    ├── uart (child<pl011>)");
}

fn patch(props: Vec<Property>) -> Vec<PeripheralPatch> {
    vec![PeripheralPatch {
        name: text("ACTUATOR"),
        registers: vec![RegisterPatch { name: text("GO"), props }],
    }]
}

fn property(name: &str, value: PatchValue) -> Property {
    Property { name: text(name), value }
}

const DEVICE: &str = "<peripheral>\n  <name>ACTUATOR</name>\n    <register>\n      <name>GO</name>\n      <resetValue>0x0</resetValue>\n    </register>\n    <register>\n      <name>STOP</name>\n    </register>\n</peripheral>";

#[test]
fn registers_are_patched() {
    let patched = apply_svd_patch(
        DEVICE,
        &patch(vec![
            property("resetValue", PatchValue::Unsigned(1)),
            property("access", PatchValue::Text(text("read-only"))),
        ]),
    )
    .unwrap();
    assert_eq!(
        patched,
        "<peripheral>\n  <name>ACTUATOR</name>\n    <register>\n      <name>GO</name>\n      <resetValue>0x1</resetValue>\n      <access>read-only</access>\n    </register>\n    <register>\n      <name>STOP</name>\n    </register>\n</peripheral>\n"
    );
}

#[test]
fn no_patch_keeps_lines() {
    assert_eq!(apply_svd_patch(DEVICE, &vec![]), Some(format!("{}\n", DEVICE)));
    let other = vec![PeripheralPatch { name: text("OTHER"), registers: vec![] }];
    assert_eq!(apply_svd_patch(DEVICE, &other), Some(format!("{}\n", DEVICE)));
}

#[test]
fn names_that_are_no_pattern_are_refused() {
    let broken = patch(vec![property("(", PatchValue::Unsigned(1))]);
    assert_eq!(apply_svd_patch(DEVICE, &broken), None);
}

#[test]
fn values_are_written() {
    assert_eq!(value_text(&PatchValue::Unsigned(255)), "0xff");
    assert_eq!(value_text(&PatchValue::Negative(-12)), "-12");
    assert_eq!(value_text(&PatchValue::Negative(i64::MIN)), "-9223372036854775808");
    assert_eq!(value_text(&PatchValue::Printed(text("1.5"))), "1.5");
    assert_eq!(
        classify(false, false, Some(text("  ")), true, None),
        SvdLine::RegisterStart(text("  "))
    );
    assert_eq!(classify(false, false, None, false, None), SvdLine::Other);
}

#[test]
fn versions_are_read() {
    let deps = get_build_deps("# A=1\nZENOH_VERSION = 1.2.3 \nnothing\nFLATCC_VERSION=0.6.2\nFLATCC_VERSION=v0.7=x\n");
    assert_eq!(deps.get("ZENOH_VERSION"), Some(text("1.2.3")));
    assert_eq!(deps.get("A"), None);
    assert_eq!(transport_branch(&deps), "1.2.3");
    assert_eq!(schema_compiler_tag(&deps), "v0.7=x");
    assert_eq!(emulator_tag(&deps), "v11.0.0");
    assert_eq!(version_tag("1.0"), "v1.0");
    assert_eq!(version_tag("v1.0"), "v1.0");
    assert_eq!(read_setting("#a=b"), None);
    assert_eq!(read_setting(" a = b = c "), Some((text("a"), text("b = c"))));
    assert_eq!(
        sync_version("zenoh = \"1\"\nserde = \"1\"\n", "2.0"),
        Some(text("zenoh = \"2.0\"\nserde = \"1\"\n"))
    );
}

#[test]
fn builds_are_configured() {
    assert_eq!(clone_args("b", TRANSPORT_URL, "d")[6], "d");
    assert_eq!(transport_build_dir("/z", true), "/z/build-asan");
    assert_eq!(configure_zenoh_c("/z", "/z/b", false).len(), 6);
    assert_eq!(configure_zenoh_c("/z", "/z/b", true).len(), 8);
    assert_eq!(configure_flatcc("/f", "/f/build")[3], "/f/build");
    assert_eq!(emulator_build_dir(true, true), "build-virtmcu-asan");
    assert_eq!(emulator_build_dir(false, true), "build-virtmcu-tsan");
    let args = configure_qemu("/q/b", "aarch64", false);
    assert_eq!(args[0], "--prefix=/q/b/install");
    assert_eq!(args[1], "--target-list=aarch64-softmmu,riscv32-softmmu,riscv64-softmmu");
    assert_eq!(configure_qemu("/q/b", "aarch64", true).len(), args.len() + 3);
    assert!(simulation_processes().contains(&"zenohd"));
}

#[test]
fn references_are_fixed_once() {
    assert_eq!(fix_ref("Node.yaml"), "#/$defs/Node");
    assert_eq!(fix_ref("#/x.json"), "#/x.json");
    let schema = "{\"b\":[{\"$ref\":\"Link.json\",\"title\":\"a.json\"},true,1.5],\"$ref\":{\"$ref\":\"N.yaml\"}}";
    let fixed = "{\n  \"$ref\": {\n    \"$ref\": \"#/$defs/N\"\n  },\n  \"b\": [\n    {\n      \"$ref\": \"#/$defs/Link\",\n      \"title\": \"a.json\"\n    },\n    true,\n    1.5\n  ]\n}";
    let once = fixed_schema(schema).unwrap();
    let as_value = |s: &str| serde_json::from_str::<serde_json::Value>(s).unwrap();
    assert_eq!(as_value(&once), as_value(fixed));
    assert_eq!(once.lines().count(), 13);
    assert_eq!(fixed_schema(&once), Some(once));
    assert_eq!(fixed_schema("{"), None);
    assert_eq!(fixed_schema("[\"$ref\"]"), Some(text("[\n  \"$ref\"\n]")));
    let mut value = as_value("{\"$ref\":\"A.json\"}");
    fix_json_refs(&mut value);
    assert_eq!(value, as_value("{\"$ref\":\"#/$defs/A\"}"));
    assert_eq!(stale_files(" M schema/world_schema.json\n"), vec![text("schema/world_schema.json")]);
    assert_eq!(stale_files(""), Vec::<String>::new());
}

#[test]
fn patching_once_is_enough() {
    let once = patch_c_file("a MARK b MARK", "MARK", "NEW MARK");
    assert_eq!(once, "a NEW MARK b MARK");
    assert_eq!(patch_c_file(&once, "MARK", "NEW MARK"), once);
    assert_eq!(patch_c_file("virtmcu-patch MARK", "MARK", "X"), "virtmcu-patch MARK");
    assert_eq!(patch_c_file("nothing", "MARK", "X"), "nothing");
    assert_eq!(with_subdir("x"), "x\nsubdir('virtmcu')\n");
    assert_eq!(with_subdir("subdir('virtmcu')"), "subdir('virtmcu')");
}

#[test]
fn sources_are_edited() {
    for file in edited_files() {
        assert!(edits_for(file).len() > 0);
    }
    assert_eq!(edits_for("elsewhere.c").len(), 0);
    let edited = edit_file("system/cpus.c", "#include \"qemu/osdep.h\"\nint x;\n");
    assert_eq!(edited, "#include \"qemu/osdep.h\"\n#include \"virtmcu/hooks.h\"\nint x;\n");
    let net = edit_file(
        "qapi/net.json",
        "# @vhost-vdpa: since 5.1\n'vhost-vdpa',\n##\n# @NetdevVmnetHostOptions:\n'vhost-vdpa': 'NetdevVhostVDPAOptions',\n",
    );
    assert!(net.contains("# @virtmcu: since 11.0"));
    assert!(net.contains("{ 'struct': 'NetdevVirtmcuOptions',"));
    assert!(net.contains("'virtmcu':    'NetdevVirtmcuOptions',"));
    let fdt = edit_file("hw/core/fdt_generic_util.c", "return be32_to_cpu(*((uint64_t *)p));");
    assert_eq!(fdt, "return be64_to_cpu(*((uint64_t *)p));");
    assert_eq!(apply_edit("aa", Edit::Replace { from: "a", to: "b" }), "bb");
    assert_eq!(apply_edit("a", Edit::Insert { unless: "a", at: "a", to: "b" }), "a");
}

#[test]
fn options_are_added() {
    let added = apply_zenoh_chardev("{ .name = \"size\", }").unwrap();
    assert!(added.contains(".name = \"baud-rate-ns\",") && added.contains(".name = \"size\","));
    assert_eq!(apply_zenoh_chardev(&added), Some(added.clone()));
    assert_eq!(apply_zenoh_chardev("nothing"), Some(text("nothing")));
}

const MESON: &str = "if asan\n  qemu_cflags = ['-fsanitize=address'] + qemu_cflags\n  qemu_ldflags = ['-fsanitize=address'] + qemu_ldflags\nendif\n";

#[test]
fn sanitizers_are_guarded() {
    let guarded = guard_sanitizer(MESON, address_sanitizer()).unwrap();
    assert!(guarded.contains("if not get_option('b_sanitize').contains('address')"));
    assert_eq!(guard_sanitizer(&guarded, address_sanitizer()), Some(guarded.clone()));
    assert_eq!(guard_sanitizer("none", undefined_sanitizer()), Some(text("none")));
    assert_eq!(apply_rust_asan_fix(MESON), Some(guarded));
}

#[test]
fn arguments_of_other_code_are_guarded() {
    let block = "x\n    if have_rust\n      add_project_arguments('-C', 'link-arg=-fsanitize=undefined', language: 'rust')\n    endif\n";
    let guarded = guard_sanitizer(block, undefined_sanitizer()).unwrap();
    assert!(guarded.contains("if have_rust and not get_option('b_sanitize').contains('undefined')"));
}

#[test]
fn changes_are_found_in_a_file() {
    let file = |value: &str| {
        let mut s = text("peripherals:\n  ACTUATOR:\n    registers:\n      GO:\n        resetValue: ");
        s.push_str(value);
        s.push_str("\n        7: 2\n      STOP: [1]\n  IDLE: 3\n");
        s
    };
    let patches = |value: PatchValue| {
        let props = vec![property("resetValue", value), property("", PatchValue::Unsigned(2))];
        let registers = vec![
            RegisterPatch { name: text("GO"), props },
            RegisterPatch { name: text("STOP"), props: vec![] },
        ];
        Ok(vec![
            PeripheralPatch { name: text("ACTUATOR"), registers },
            PeripheralPatch { name: text("IDLE"), registers: vec![] },
        ])
    };
    assert_eq!(read_patches(&file("1")), patches(PatchValue::Unsigned(1)));
    assert_eq!(read_patches(&file("-5")), patches(PatchValue::Negative(-5)));
    assert_eq!(read_patches(&file("1.5")), patches(PatchValue::Printed(text("1.5"))));
    assert_eq!(read_patches(&file("read-only")), patches(PatchValue::Text(text("read-only"))));
    assert_eq!(read_patches(&file("!x 1")), patches(PatchValue::Unsigned(1)));
    assert_eq!(read_patches(&file("true")), Err(PatchError::NoValue));
    assert_eq!(read_patches(&file("{}")), Err(PatchError::NoValue));
    assert_eq!(read_patches("a: ["), Err(PatchError::Unreadable));
    assert_eq!(read_patches("1"), Ok(vec![]));
    assert_eq!(read_patches("peripherals: 1"), Ok(vec![]));
    assert_eq!(read_patches("!x peripherals: {A: 1}"), Ok(vec![]));
    assert_eq!(patches_of(&serde_yaml::Value::Null), Some(vec![]));
}

#[test]
fn objects_of_an_answer_are_listed() {
    let names = |answer: &str| -> Vec<(String, String)> {
        let value = serde_json::from_str::<serde_json::Value>(answer).unwrap();
        listed_objects(&value).into_iter().map(|o| (o.name, o.kind)).collect()
    };
    assert_eq!(
        names(
            "{\"return\":[{\"name\":\"cpu\",\"type\":\"child<cpu>\"},{\"name\":\"x\"},3,{\"type\":\"t\",\"name\":1},{\"type\":\"bool\",\"name\":\"on\"}]}"
        ),
        vec![(text("cpu"), text("child<cpu>")), (text("on"), text("bool"))]
    );
    assert_eq!(names("{\"return\":{}}"), vec![]);
    assert_eq!(names("[1]"), vec![]);
}
