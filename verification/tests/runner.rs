//! Setting up emulators for a test, and following them.
use virtmcu::test_runner::artifacts::{
    assembler_arguments, tree_arguments, ArtifactCache, GuestApp, GuestAppError, GuestFiles,
    LINKER_SCRIPT,
};
use virtmcu::test_runner::builder::{
    adapt_yaml, advance_topic, classify_line, clock_request, emulator_arguments,
    emulator_settings, keep_line, liveliness_topic, node_file_name, BuildError, DeviceTreeSource,
    FirmwareSource, LineKind, NodeConfig, TopologyBuilder, TopologySource, RECENT_LINES,
};
use virtmcu::test_runner::commands::{
    integration_args, integration_settings, miri_args, peripheral_coverage_args, test_summary,
    traced_run_args, unit_coverage_args, unit_test_args, unit_test_flags,
};
use virtmcu::test_runner::context::{
    binary_missing, expanded_or_same, host_machine, newest_binary, BinaryCandidate, TestContext,
};
use virtmcu::test_runner::engine::{
    all_passed, checks_yaml, failure_text, rust_lints, scripts, CommandOutcome, Found,
    LinterEngine,
};
use virtmcu::test_runner::environment::{
    clock_answer, format_qemu_error, next_attempt, on_wait_event, process_groups_to_end, Attempt,
    ClockCoordinator, ClockError, ClockStep, DummyClockCoordinator, EnvClock, WaitEvent,
    WaitOutcome, CLOCK_TRIES, FILE_TRIES, SOCKET_TRIES,
};
use virtmcu::test_runner::launcher::{
    first_true, host_triple, is_module_file, qemu_arch_name, QemuLauncher, TargetDir,
};
use virtmcu::test_runner::monitors::{spi_echo, spi_topic, AsyncMessageBuffer, CapturedText};
use virtmcu::test_runner::qmp::{find_reply, reply_of_line, request_line, Reply, CAPABILITIES};
use virtmcu::test_runner::spec::{
    clock_status_program, default_timeout, DtbSpec, FileSource, FirmwareSpec, OutputWatch,
    TestSpec,
};
use virtmcu::test_runner::variables::Variables;

fn text(s: &str) -> String {
    s.to_string()
}

fn context() -> TestContext {
    TestContext::new("/ws", "/tmp/t", " tcp/1.2.3.4:5\n")
}

#[test]
fn set_variables_stand_in() {
    let mut vars = Variables::new();
    vars.insert("A", "1");
    vars.insert("B", "{A}");
    vars.insert("A", "2");
    assert_eq!(vars.get("A"), Some(text("2")));
    assert_eq!(vars.get("C"), None);
    assert_eq!(vars.fill_in("{A} {B} {C}"), "2 {A} {C}");
    let mut more = Variables::new();
    more.insert("C", "3");
    vars.insert_all(&more);
    assert_eq!(vars.fill_in("{C}"), "3");
    let names: Vec<String> = vars.into_list().into_iter().map(|v| v.name).collect();
    assert_eq!(names, vec![text("A"), text("B"), text("C")]);
}

#[test]
fn context_knows_its_places() {
    let ctx = context();
    assert_eq!(ctx.tmp_path("a.sock"), "/tmp/t/a.sock");
    assert_eq!(ctx.substitute("{TMP_DIR}/x {ROUTER_ENDPOINT}"), "/tmp/t/x tcp/1.2.3.4:5");
    assert_eq!(ctx.setup_cmd(false).len(), 1);
    assert_eq!(ctx.setup_cmd(true)[1].name, "ASAN_OPTIONS");
    let patterns = ctx.binary_patterns("tool", &Some(text("/ct")));
    assert_eq!(patterns.len(), 16);
    assert_eq!(patterns[0], "/ws/target/release/tool");
    assert_eq!(patterns[7], "/ct/*/debug/tool");
}

#[test]
fn environment_is_expanded() {
    let ctx = context();
    assert_eq!(ctx.substitute("$VIRTMCU_NOT_SET_ANYWHERE/x"), "$VIRTMCU_NOT_SET_ANYWHERE/x");
    assert_eq!(ctx.substitute("a$$b"), "a$b");
    assert_eq!(expanded_or_same(text("a"), None), "a");
    assert_eq!(expanded_or_same(text("a"), Some(text("b"))), "b");
}

fn candidate(path: &str, machine: u16, modified: u64) -> BinaryCandidate {
    let mut header = vec![0x7f, 0x45, 0x4c, 0x46];
    header.resize(18, 0);
    header.extend_from_slice(&machine.to_le_bytes());
    BinaryCandidate { path: text(path), header: Some(header), modified: Some(modified) }
}

#[test]
fn newest_program_is_taken() {
    let list = vec![
        candidate("old", 62, 5),
        candidate("new", 62, 9),
        candidate("foreign", 183, 20),
        candidate("same", 62, 9),
    ];
    assert_eq!(newest_binary(&list, host_machine("x86_64")), Some(1));
    assert_eq!(newest_binary(&list, host_machine("aarch64")), Some(2));
    assert_eq!(newest_binary(&list, host_machine("mips")), Some(2));
    assert_eq!(newest_binary(&vec![], 62), None);
    assert!(binary_missing("tool").contains("tool"));
}

#[test]
fn emulators_are_found() {
    let launcher = QemuLauncher::new(text("/ws"));
    assert_eq!(launcher.build_dir_name(true, true), "build-virtmcu-asan-tsan");
    let dir = launcher.build_dir_name(false, false);
    let places = launcher.candidates("riscv", false, &dir);
    assert_eq!(places[0], "/ws/third_party/qemu/build-virtmcu/qemu-system-riscv64");
    let mut present = vec![false; places.len()];
    let missing = launcher.resolve_qemu_bin("riscv", &None, false, &dir, &present).unwrap_err();
    assert_eq!(missing.arch, "riscv");
    assert_eq!(missing.checked, places);
    present[1] = true;
    assert_eq!(
        launcher.resolve_qemu_bin("riscv", &None, false, &dir, &present),
        Ok(places[1].clone())
    );
    assert_eq!(
        launcher.resolve_qemu_bin("arm", &Some(text("/q")), false, &dir, &vec![false; places.len()]),
        Ok(text("/q"))
    );
    assert_eq!(qemu_arch_name("anything"), "arm");
    assert_eq!(first_true(&vec![false, true, true]), Some(1));
}

#[test]
fn modules_are_found() {
    let launcher = QemuLauncher::new(text("/ws"));
    let dirs = launcher.module_candidates(false, "build-virtmcu", false, "aarch64");
    assert_eq!(
        dirs[0],
        "/ws/third_party/qemu/build-virtmcu/install/lib/aarch64-linux-gnu/qemu"
    );
    let mut files: Vec<Vec<String>> = vec![vec![]; dirs.len()];
    assert_eq!(launcher.get_module_dir(&dirs, &files), None);
    files[2] = vec![text("hw-virtmcu-clock.so")];
    assert_eq!(launcher.get_module_dir(&dirs, &files), Some(dirs[2].clone()));
    assert!(is_module_file("hw-virtmcu-clock.so"));
    assert!(!is_module_file("readme.txt"));
    assert_eq!(host_triple("aarch64"), "aarch64-unknown-linux-gnu");
    let target = TargetDir { base: text("/ws/target"), has_host: false, entries: vec![] };
    let path = launcher.get_ld_library_path(&vec![target], "x86_64", "/usr/lib");
    assert!(path.ends_with("/usr/lib"));
    assert_eq!(launcher.target_dirs(&None)[0], "/ws/target");
}

#[test]
fn nodes_name_their_files() {
    let node = NodeConfig::new(4)
        .with_arch("riscv64")
        .with_dts_path("b.dts")
        .with_yaml_path("b.yml")
        .add_qemu_arg("-nographic")
        .orchestrated(false);
    assert_eq!(node.firmware("/ws"), Err(BuildError::FirmwareMissing));
    assert_eq!(
        node.device_tree("/ws"),
        Ok(DeviceTreeSource::SourceFile(text("/ws/b.dts")))
    );
    let node = node.with_firmware_path("f.elf");
    assert_eq!(node.firmware("/ws"), Ok(FirmwareSource::File(text("/ws/f.elf"))));
    let node = node.with_firmware_asm("nop").with_dtb("src");
    assert_eq!(node.firmware("/ws"), Ok(FirmwareSource::Assembly(text("nop"))));
    assert_eq!(node.device_tree("/ws"), Ok(DeviceTreeSource::Source(text("src"))));
    let bare = NodeConfig::new(1);
    assert_eq!(bare.device_tree("/ws"), Err(BuildError::DeviceTreeMissing));
    assert_eq!(
        NodeConfig::new(1).with_dtb_path("x.dtb").device_tree("/ws"),
        Ok(DeviceTreeSource::Binary(text("/ws/x.dtb")))
    );
    assert_eq!(
        NodeConfig::new(1).with_dts_content("tree").device_tree("/ws"),
        Ok(DeviceTreeSource::Source(text("tree")))
    );
    assert_eq!(
        BuildError::FirmwareMissing.message(),
        "Firmware ASM or path is required"
    );
    assert_eq!(node_file_name("uart", 3), "uart_3.sock");
}

#[test]
fn topologies_are_described() {
    let builder = TopologyBuilder::new().add_node(NodeConfig::new(0)).add_node(
        NodeConfig::new(7).orchestrated(false),
    );
    assert_eq!(
        builder.topology_source("/ws"),
        TopologySource::Generated(text(
            "topology:\n  transport: unix\n  nodes:\n    - name: '0'\n    - name: '7'\n\n"
        ))
    );
    assert_eq!(builder.coordinated_nodes(), vec![0]);
    assert_eq!(builder.transport(), "zenoh");
    let args = builder.coordinator_args("/run", "t.yml");
    assert_eq!(args[3], "2");
    assert_eq!(args[5], "default-fed");
    let named = TopologyBuilder::default()
        .with_federation_id("lab")
        .with_timeout(3)
        .with_variable("K", "V")
        .add_node(NodeConfig::new(0).with_yaml_path("w.yml"));
    assert_eq!(named.topology_source("/ws"), TopologySource::File(text("/ws/w.yml")));
    assert_eq!(named.coordinator_args("/run", "t.yml")[5], "lab");
    let mut ctx = context();
    named.set_variables(&mut ctx);
    assert_eq!(ctx.substitute("{K}"), "V");
    assert_eq!(named.timeout_secs, 3);
}

#[test]
fn builders_need_nodes() {
    let ctx = context();
    assert!(matches!(
        TopologyBuilder::new().wiring(&ctx, "tcp/r"),
        Err(BuildError::NoNodes)
    ));
    let over_sockets =
        TopologyBuilder::new().with_transport_override("unix").add_node(NodeConfig::new(0));
    let wiring = over_sockets.wiring(&ctx, "tcp/r").ok().unwrap();
    assert!(wiring.sockets);
    let over_bus = TopologyBuilder::new().add_node(NodeConfig::new(0));
    let wiring = over_bus.wiring(&ctx, "tcp/r").ok().unwrap();
    assert!(!wiring.sockets);
    assert_eq!(wiring.endpoint, "tcp/r");
}

#[test]
fn descriptions_are_adapted() {
    assert_eq!(
        adapt_yaml("topology:\n  nodes: []", &Some(text("unix")), "e"),
        "topology:\n  transport: unix\n  nodes: []"
    );
    assert_eq!(
        adapt_yaml("transport: zenoh at ZENOH_ROUTER_ENDPOINT", &Some(text("unix")), "e"),
        "transport: unix at e"
    );
    assert_eq!(adapt_yaml("transport: zenoh", &None, "e"), "transport: zenoh");
}

#[test]
fn emulators_get_arguments() {
    let ctx = context();
    let node = NodeConfig::new(2).orchestrated(true);
    let builder = TopologyBuilder::new().add_node(NodeConfig::new(2));
    let wiring = builder.wiring(&ctx, "tcp/r").ok().unwrap();
    let args =
        emulator_arguments(&node, &ctx, &vec![], "d.dtb", "f.elf", &wiring, &vec![text("-x")]);
    assert_eq!(args[0], "-qmp");
    assert_eq!(args[1], "unix:/tmp/t/qmp_2.sock,server=on,wait=off");
    assert!(args.contains(&text("arm-generic-fdt,hw-dtb=d.dtb")));
    assert!(args.contains(&text("virtmcu-clock,mode=slaved-suspend,router=tcp/r,node=2")));
    assert_eq!(args.last().unwrap(), "-x");
    let settings = emulator_settings(&node, "/ws", "/lib", &None, false, "build", &wiring);
    let names: Vec<String> = settings.iter().map(|s| s.name.clone()).collect();
    assert_eq!(
        names,
        vec![
            text("LD_LIBRARY_PATH"),
            text("GCOV_PREFIX"),
            text("ZENOH_ROUTER_ENDPOINT"),
            text("VIRTMCU_ZENOH_ROUTER")
        ]
    );
}

#[test]
fn lines_are_told_apart_and_bounded() {
    assert_eq!(classify_line("Property 'x' not found"), LineKind::UnknownProperty);
    assert_eq!(classify_line("error: no"), LineKind::Error);
    assert_eq!(classify_line("[WARN ] hm"), LineKind::Warn);
    assert_eq!(classify_line("[DEBUG] hm"), LineKind::Debug);
    assert_eq!(classify_line("[TRACE] hm"), LineKind::Trace);
    assert_eq!(classify_line("hello"), LineKind::Info);
    let mut lines: Vec<String> = vec![];
    for i in 0..RECENT_LINES + 5 {
        keep_line(&mut lines, &i.to_string());
    }
    assert_eq!(lines.len(), RECENT_LINES);
    assert_eq!(lines[0], "5");
}

#[test]
fn clocks_are_asked() {
    let mut expected = 1u64.to_le_bytes().to_vec();
    expected.extend_from_slice(&2u64.to_le_bytes());
    expected.extend_from_slice(&3u64.to_le_bytes());
    assert_eq!(clock_request(1, 2, 3), expected);
    assert_eq!(advance_topic(6), "sim/clock/advance/6");
    assert!(liveliness_topic(6).contains('6'));
    assert_eq!(clock_answer(1, Some(0)), Ok(()));
    assert_eq!(clock_answer(1, Some(4)), Err(ClockError::Code(4)));
    assert_eq!(clock_answer(1, None), Err(ClockError::Timeout(1)));
    assert_eq!(ClockError::NoTransport(3).message(), "No clock transport for node 3");
    assert_eq!(ClockError::Timeout(3).message(), "Clock timeout on node 3");
    assert_eq!(ClockError::Code(3).message(), "Clock error code: 3");
    assert_eq!(DummyClockCoordinator.step_clock(0, 1, 2, 3), Ok(()));
}

#[test]
fn steps_reach_the_total() {
    let mut clock = EnvClock::new(vec![true, false, true]);
    assert_eq!(clock.followers(), vec![0, 2]);
    assert!(clock.any_follower());
    let mut advanced: u64 = 0;
    let mut steps: Vec<ClockStep> = vec![];
    while let Some(step) = clock.next_step(25, 10, advanced) {
        advanced += step.advance;
        steps.push(step);
        clock.end_step();
    }
    assert_eq!(steps.iter().map(|s| s.advance).collect::<Vec<u64>>(), vec![10, 10, 5]);
    assert_eq!(steps.iter().map(|s| s.quantum).collect::<Vec<u64>>(), vec![0, 1, 2]);
    assert_eq!(clock.vtime(), 25);
}

#[test]
fn output_is_waited_for() {
    let mut buffer = text("");
    assert_eq!(
        on_wait_event(&mut buffer, "rea", 0, &WaitEvent::Chunk(text("r"))),
        WaitOutcome::Waiting
    );
    assert_eq!(
        on_wait_event(&mut buffer, "rea", 0, &WaitEvent::Chunk(text("eady"))),
        WaitOutcome::Found
    );
    assert!(matches!(
        on_wait_event(&mut buffer, "x", 0, &WaitEvent::TimedOut),
        WaitOutcome::Failed(_, _)
    ));
    assert!(matches!(
        on_wait_event(&mut buffer, "x", 0, &WaitEvent::Ended),
        WaitOutcome::Failed(_, _)
    ));
    assert!(matches!(
        on_wait_event(&mut buffer, "x", 0, &WaitEvent::Died(2, text("code 1"))),
        WaitOutcome::Failed(Some(2), _)
    ));
    assert!(format_qemu_error("boom", 1, &vec![text("last line")]).contains("last line"));
    assert_eq!(process_groups_to_end(&vec![Some(5), None, Some(7)]), vec![-5, -7]);
}

#[test]
fn artifacts_are_kept_by_hash() {
    let cache = ArtifactCache::new("/ws");
    assert_eq!(cache.cache_dir(), "/ws/target/test-artifacts");
    assert!(cache.firmware_path(255).contains("ff"));
    assert_ne!(cache.firmware_path(1), cache.tree_path(1));
    assert!(cache.source_path(16, ".S").ends_with("10.S"));
    assert_eq!(assembler_arguments("s.ld", "a.S", "o.elf")[3], "s.ld");
    assert_eq!(tree_arguments("o.dtb", "i.dts")[5], "o.dtb");
    assert!(LINKER_SCRIPT.starts_with("ENTRY(_start)"));
}

#[test]
fn guest_apps_are_found() {
    let all = GuestFiles {
        base: true,
        hello_elf: false,
        named_elf: true,
        minimal_dtb: true,
        named_dtb: true,
    };
    let app = GuestApp::find("/ws", "boot", all).unwrap();
    assert_eq!(app.elf_path, "/ws/tests/fixtures/guest_apps/boot/boot.elf");
    assert_eq!(app.dtb_path, "/ws/tests/fixtures/guest_apps/boot/minimal.dtb");
    let nothing = GuestFiles {
        base: false,
        hello_elf: false,
        named_elf: false,
        minimal_dtb: false,
        named_dtb: false,
    };
    let error = GuestApp::find("/ws", "boot", nothing).unwrap_err();
    assert_eq!(
        error.message(),
        "Guest app fixture 'boot' not found at /ws/tests/fixtures/guest_apps/boot"
    );
    let no_elf = GuestFiles { base: true, ..nothing };
    assert_eq!(
        GuestApp::find("/ws", "boot", no_elf).unwrap_err(),
        GuestAppError::NoElf(text("boot"))
    );
    let no_dtb = GuestFiles { base: true, hello_elf: true, ..nothing };
    assert_eq!(
        GuestApp::find("/ws", "boot", no_dtb).unwrap_err().message(),
        "No DTB found for guest app boot"
    );
}

#[test]
fn monitors_are_asked_in_json() {
    assert_eq!(request_line("query-status", &None), Some(text("{\"execute\":\"query-status\"}\n")));
    let with = request_line("qom-list", &Some(text("{\"path\": \"/\"}"))).unwrap();
    assert!(with.contains("\"arguments\":{\"path\":\"/\"}"));
    assert!(with.contains("\"execute\":\"qom-list\""));
    assert_eq!(request_line("x", &Some(text("{"))), None);
    assert_eq!(
        request_line("a\"\\/\n\u{8}\u{1}\u{7f}", &None),
        Some(text("{\"execute\":\"a\\\"\\\\/\\n\\b\\u0001\u{7f}\"}\n"))
    );
    assert_eq!(CAPABILITIES, "{\"execute\": \"qmp_capabilities\"}\n");
}

#[test]
fn monitors_answer_among_events() {
    assert_eq!(
        find_reply("{\"event\": 1}\n\n{\"return\": {}}\n"),
        Reply::Answer(text("{\"return\": {}}"))
    );
    assert_eq!(
        find_reply("{\"error\": {}}"),
        Reply::Answer(text("{\"error\": {}}"))
    );
    assert_eq!(find_reply("{\"event\": 1}"), Reply::Nothing);
    assert_eq!(find_reply("oops"), Reply::Malformed);
    assert_eq!(reply_of_line("x", None, None), Reply::Malformed);
}

#[test]
fn messages_are_gathered() {
    let mut buffer: AsyncMessageBuffer<u32> = AsyncMessageBuffer::new();
    buffer.push(4);
    buffer.push(5);
    assert!(buffer.has_at_least(2));
    assert!(!buffer.has_at_least(3));
    assert_eq!(buffer.messages(), &[4, 5]);
    buffer.clear();
    assert_eq!(buffer.messages().len(), 0);
    let mut captured = CapturedText::new();
    captured.append("he");
    captured.append("llo");
    assert!(captured.holds("ell"));
    assert_eq!(captured.text(), "hello");
    captured.clear();
    assert!(!captured.holds("e"));
}

#[test]
fn spi_is_echoed() {
    assert!(spi_topic("bus0", 1).contains("bus0"));
    let request: Vec<u8> = (0u8..30).collect();
    let echo = spi_echo(&request, 20).unwrap();
    assert_eq!(&echo[..], &request[20..24]);
    assert_eq!(spi_echo(&request[..10], 20), None);
}

#[test]
fn commands_get_arguments() {
    assert_eq!(unit_test_flags(&None), "-C link-arg=-Wl,--unresolved-symbols=ignore-all");
    assert!(unit_test_flags(&Some(text("-g"))).starts_with("-g "));
    assert_eq!(unit_test_args()[0], "test");
    assert_eq!(integration_args(&Some(text("uart")))[7], "uart");
    assert_eq!(integration_args(&Some(text("all"))).len(), 6);
    assert_eq!(miri_args()[1], "miri");
    assert_eq!(unit_coverage_args()[0], "tarpaulin");
    assert!(traced_run_args("p.so").contains(&text("p.so,filename=coverage-data/hello.drcov")));
    assert_eq!(peripheral_coverage_args("s", "b", "d")[1], "s");
    assert_eq!(test_summary(&vec![true, true]), Ok(()));
    assert!(test_summary(&vec![true, false]).unwrap_err().contains('1'));
}

fn spec() -> TestSpec {
    TestSpec {
        name: text("boot"),
        kind: None,
        command: None,
        args: vec![],
        firmware: None,
        dtb: None,
        qemu_args: vec![],
        pre_run: vec![],
        test_script: None,
        timeout_secs: default_timeout(),
        success_pattern: Some(text("PASS")),
        qemu_ready_pattern: None,
        wait_for_zenoh_status: None,
        ready_delay_ms: 0,
    }
}

#[test]
fn specs_say_where_files_come_from() {
    let mut s = spec();
    assert_eq!(s.firmware_source(), FileSource::Unused);
    s.firmware = Some(FirmwareSpec { source: Some(text("nop")), path: Some(text("p")) });
    assert_eq!(s.firmware_source(), FileSource::Compile(text("nop")));
    s.firmware = Some(FirmwareSpec { source: None, path: Some(text("p")) });
    assert_eq!(s.firmware_source(), FileSource::Copy(text("p")));
    s.dtb = Some(DtbSpec { dts: None, path: None });
    assert_eq!(s.tree_source(), FileSource::Unsaid);
    let mut ctx = context();
    s.name_firmware(&mut ctx);
    assert!(ctx.substitute("{FIRMWARE}{ELF}{ELF_PATH}{KERNEL}").contains("/tmp/t"));
    assert_eq!(s.test_command(), None);
    s.kind = Some(text("pytest"));
    assert_eq!(s.test_command(), Some(text("pytest")));
    s.command = Some(text("make"));
    assert_eq!(s.test_command(), Some(text("make")));
    let program = clock_status_program("tcp/r", 3);
    assert!(program.contains("[\"tcp/r\"]") && program.contains("/3/clock/status"));
}

#[test]
fn success_is_in_a_line() {
    let mut watch: OutputWatch = spec().watch();
    watch.on_line("booting");
    assert!(!watch.success_found);
    watch.on_line("all PASSED");
    assert!(watch.success_found);
    watch.on_line("done");
    assert!(watch.success_found && !watch.ready_found);
}

fn found() -> Found {
    Found {
        tools: true,
        patches: false,
        scripts: vec![false; 17],
        yaml_files: vec![text("a.yml"), text("target/b.yml"), text(".hidden/c.yml")],
        private_dirs: vec![text(".hidden")],
        dockerfile: false,
        workflows: false,
        meson_build: false,
        misc_sources: true,
    }
}

#[test]
fn checks_are_chosen() {
    let engine = LinterEngine::new(text("/ws"), text("/ws"));
    let commands = engine.concurrent_lints(&found());
    let names: Vec<String> = commands.iter().map(|c| c.name.clone()).collect();
    assert_eq!(
        names,
        vec![text("ruff"), text("mypy"), text("yamllint"), text("codespell"), text("cppcheck")]
    );
    assert_eq!(commands[2].args.last().unwrap(), "a.yml");
    assert!(commands[3].args[1].contains("./.git/*,./.hidden/*,Cargo.lock"));
    assert_eq!(scripts().len(), 17);
    assert!(rust_lints().len() > 0);
    assert!(!checks_yaml("third_party/x.yml", &vec![]));
    assert!(checks_yaml(".hidden/x.yml", &vec![]));
    assert!(engine.python_path().starts_with("/ws"));
}

#[test]
fn scripts_run_where_they_are() {
    let engine = LinterEngine::new(text("/ws"), text("/ws"));
    let mut f = found();
    f.scripts[3] = true;
    let commands = engine.concurrent_lints(&f);
    assert_eq!(commands[2].command, "python3");
    assert!(commands[2].args[0].starts_with("/ws/scripts/"));
}

#[test]
fn failed_checks_say_why() {
    assert_eq!(failure_text(&CommandOutcome::NotInstalled), None);
    assert_eq!(failure_text(&CommandOutcome::Succeeded), None);
    let failed = CommandOutcome::Failed(text("1"), text("out"), text("err"));
    assert_eq!(
        failure_text(&failed),
        Some(text("Exit status: 1\nSTDOUT:\nout\nSTDERR:\nerr"))
    );
    let lost = CommandOutcome::NotStarted(text("no such file"));
    assert_eq!(failure_text(&lost), Some(text("Failed to execute command: no such file")));
    assert!(all_passed(&vec![CommandOutcome::Succeeded, CommandOutcome::NotInstalled]));
    assert!(!all_passed(&vec![CommandOutcome::Succeeded, failed]));
}

#[test]
fn waiting_ends_with_the_last_try() {
    assert_eq!((SOCKET_TRIES, CLOCK_TRIES, FILE_TRIES), (100, 50, 50));
    assert_eq!(next_attempt(0, 2, true), Attempt::Done);
    assert_eq!(next_attempt(0, 2, false), Attempt::Again);
    assert_eq!(next_attempt(1, 2, false), Attempt::Again);
    assert_eq!(next_attempt(2, 2, false), Attempt::GiveUp);
    assert_eq!(next_attempt(2, 2, true), Attempt::Done);
    assert_eq!(next_attempt(0, 0, false), Attempt::GiveUp);
}

#[test]
fn memory_errors_are_looked_for_on_request() {
    assert_eq!(integration_settings(false), vec![]);
    let list: Vec<(String, String)> =
        integration_settings(true).into_iter().map(|s| (s.name, s.value)).collect();
    let set = |name: &str, value: &str| (text(name), text(value));
    assert_eq!(
        list,
        vec![
            set("VIRTMCU_USE_ASAN", "1"),
            set("VIRTMCU_STALL_TIMEOUT_MS", "300000"),
            set(
                "ASAN_OPTIONS",
                "detect_leaks=0,halt_on_error=1,detect_stack_use_after_return=1"
            ),
            set("UBSAN_OPTIONS", "halt_on_error=1:print_stacktrace=1"),
        ]
    );
}
