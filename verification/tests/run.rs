//! Starting an emulator by hand.
use virtmcu::virtmcu_run::{
    bus_library_dir, check_sanitizer_mismatch, coverage_prefix, emulator_candidates,
    emulator_missing, emulator_variable, generate_args, get_qemu_module_dir, has_asan, input_kind,
    library_path, missing_value, module_dirs, parse_args, preload, python_path, resolve_qemu_bin,
    sanitizer_library, DirFound, InputKind,
};

fn text(s: &str) -> String {
    s.to_string()
}

fn texts(list: &[&str]) -> Vec<String> {
    list.iter().map(|s| s.to_string()).collect()
}

#[test]
fn arguments_are_read() {
    let run = parse_args(&texts(&["--dts", "a.dts", "-m", "1G", "--kernel", "k.elf"])).unwrap();
    assert_eq!(run.arch, "arm");
    assert!(!run.arch_explicit);
    assert_eq!(run.kernel, Some(text("k.elf")));
    assert_eq!(run.input, Some((InputKind::Dts, text("a.dts"))));
    assert_eq!(run.extra, texts(&["-m", "1G"]));
    let run = parse_args(&texts(&["--arch", "riscv", "--arch", "riscv32"])).unwrap();
    assert_eq!(run.arch, "riscv32");
    assert_eq!(parse_args(&texts(&["--kernel"])), Err(text("--kernel")));
    assert!(missing_value("--kernel").contains("--kernel"));
}

#[test]
fn kinds_of_descriptions() {
    assert_eq!(input_kind(InputKind::Repl, "b.yml"), InputKind::Yaml);
    assert_eq!(input_kind(InputKind::Repl, "b.dts"), InputKind::Dts);
    assert_eq!(input_kind(InputKind::Yaml, "b.dtb"), InputKind::Dtb);
    assert_eq!(input_kind(InputKind::Repl, "b.repl"), InputKind::Repl);
}

#[test]
fn machines_are_chosen() {
    let mut run = parse_args(&vec![]).unwrap();
    assert_eq!(run.choose_machine(), "arm-generic-fdt");
    assert_eq!(run.emulator_args("arm-generic-fdt", "d"), texts(&["-M", "arm-generic-fdt,hw-dtb=d"]));
    run.on_tree_source("compatible = \"RISCV-virtio\"");
    assert_eq!(run.arch, "riscv");
    assert_eq!(run.choose_machine(), "virt");
    assert_eq!(run.extra, texts(&["-bios", "none"]));
    assert_eq!(run.emulator_args("virt", "d"), texts(&["-M", "virt", "-dtb", "d", "-bios", "none"]));
    let mut named = parse_args(&texts(&["--arch", "arm", "--machine", "m"])).unwrap();
    named.on_tree_source("riscv");
    assert_eq!(named.arch, "arm");
    assert_eq!(named.choose_machine(), "m");
}

#[test]
fn platforms_add_arguments() {
    let mut run = parse_args(&texts(&["-x"])).unwrap();
    run.on_platform(" riscv64\n", "-a\n\n  -b  \n");
    assert_eq!(run.arch, "riscv64");
    assert_eq!(run.extra, texts(&["-x", "-a", "-b"]));
    run.on_platform("", "");
    assert_eq!(run.arch, "riscv64");
    let args = generate_args("f", "d", "c", "a", &Some(text("r")));
    assert_eq!(args[10], "r");
    assert_eq!(generate_args("f", "d", "c", "a", &None).len(), 9);
}

#[test]
fn emulators_are_resolved() {
    let places = emulator_candidates("arm", "/ws", "build-virtmcu-asan", false);
    assert_eq!(
        places[0],
        "/ws/third_party/qemu/build-virtmcu-asan/install/bin/qemu-system-arm"
    );
    let none = vec![false; places.len()];
    let mut third = none.clone();
    third[2] = true;
    let find = |named: &Option<String>, for_arch: &Option<String>, present: &Vec<bool>| {
        resolve_qemu_bin("arm", "/ws", "build-virtmcu-asan", false, named, for_arch, present)
    };
    assert_eq!(find(&None, &None, &third), Some(places[2].clone()));
    assert_eq!(find(&Some(text("")), &Some(text("/q")), &none), Some(text("/q")));
    assert_eq!(find(&Some(text("/p")), &Some(text("/q")), &none), Some(text("/p")));
    assert_eq!(find(&None, &None, &none), None);
    assert_eq!(emulator_variable("riscv"), "QEMU_RISCV64_BIN");
    assert!(emulator_missing("arm").contains("arm"));
}

#[test]
fn modules_have_a_directory() {
    let dirs = module_dirs("/ws", "build-virtmcu");
    assert_eq!(dirs.len(), 3);
    let nothing = || DirFound { is_dir: false, has_module: false };
    let found = vec![nothing(), DirFound { is_dir: true, has_module: true }, nothing()];
    assert_eq!(get_qemu_module_dir("/ws", "build-virtmcu", false, &found), dirs[1]);
}

#[test]
fn sanitizers_must_agree() {
    assert!(has_asan("... __asan_init ..."));
    assert!(!has_asan("plain"));
    assert_eq!(check_sanitizer_mismatch("plain", &None), Ok(()));
    assert_eq!(check_sanitizer_mismatch("plain", &Some(text("plain"))), Ok(()));
    let error =
        check_sanitizer_mismatch("__asan_init", &Some(text("plain"))).unwrap_err();
    assert!(error.binary_sanitized && !error.modules_sanitized);
}

#[test]
fn search_paths_are_joined() {
    assert_eq!(python_path("/ws", &None), "/ws:/ws/generated");
    assert_eq!(python_path("/ws", &Some(text("/p"))), "/ws:/ws/generated:/p");
    let bus = bus_library_dir("/ws", true);
    assert!(bus.starts_with("/ws") && bus.contains("asan"));
    assert!(library_path(false, &bus, true, true, &Some(text("/l"))).ends_with("/l"));
    assert_eq!(coverage_prefix(&Some(text("/c")), &None, "arm", "b", 3), "/c/3");
    assert_eq!(preload("/a.so", &None), "/a.so");
    assert!(preload("/a.so", &Some(text("/b.so"))).contains("/b.so"));
    assert_eq!(
        sanitizer_library("\tlibasan.so.8 => /usr/lib/libasan.so.8 (0x0)\n"),
        Some(text("/usr/lib/libasan.so.8"))
    );
    assert_eq!(sanitizer_library("libc.so.6 => /usr/lib/libc.so.6"), None);
}
