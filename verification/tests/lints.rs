//! What the checks of sources find.
use virtmcu::test_runner::lints::banned_patterns::{
    push_rule_findings, rule_applies, RustBannedPatternsLint,
};
use virtmcu::test_runner::lints::banned_rules::rules;
use virtmcu::test_runner::lints::findings::{
    is_suppressed, is_suppressed_multiline, push_finding, push_spanning, Finding, Lint,
};
use virtmcu::test_runner::lints::magic_numbers::{
    is_allowed_literal, is_left_alone, RustMagicNumbersLint, TestModule,
};
use virtmcu::test_runner::lints::patterns::Captured;
use virtmcu::test_runner::lints::qom_type_info::{group_of_first, mismatch, QomTypeInfoLint};
use virtmcu::test_runner::lints::safe_serialization::RustSafeSerializationLint;
use virtmcu::test_runner::lints::static_state::{is_banned_item, StaticItem, StaticStateLint};
use virtmcu::test_runner::lints::verify_exports::{exported_symbols, ExportLint};

fn text(s: &str) -> String {
    s.to_string()
}

#[test]
fn banned_patterns_are_found() {
    let lint = RustBannedPatternsLint;
    assert_eq!(lint.name(), "rust_banned_patterns");
    let found = lint
        .check("hw/rust/x/src/lib.rs", "fn f() {\n    std::thread::sleep(d);\n}\n")
        .unwrap();
    assert_eq!(found.len(), 1);
    assert_eq!(found[0].line, 2);
    assert!(found[0].message.contains("Banned thread::sleep found."));
    assert_eq!(lint.check("hw/rust/x/src/lib.rs", "fn f() {}\n"), Some(vec![]));
}

#[test]
fn banned_patterns_may_be_allowed() {
    let lint = RustBannedPatternsLint;
    let content = "// virtmcu-allow: sleep reasoning=\"test\"\nstd::thread::sleep(d);\n";
    assert_eq!(lint.check("hw/rust/x/src/lib.rs", content), Some(vec![]));
}

#[test]
fn rules_apply_by_path() {
    let all = rules();
    assert_eq!(all.len(), 22);
    assert!(rule_applies(&all[0], "hw/rust/x/src/lib.rs"));
    let mut list: Vec<Finding> = vec![];
    let lines = vec![text("a"), text("b")];
    push_rule_findings(&mut list, &all[0], &lines, &vec![false, true]);
    assert_eq!(list.len(), 1);
    assert_eq!(list[0].line, 2);
}

#[test]
fn findings_may_be_suppressed() {
    let lines = vec![text("// virtmcu-allow: sleep reasoning=\"x\""), text("code"), text("code")];
    assert!(is_suppressed(&lines, 1, "sleep"));
    assert!(!is_suppressed(&lines, 1, "mutex"));
    assert!(!is_suppressed(&lines, 2, "sleep"));
    assert!(is_suppressed_multiline("// virtmcu-allow: loop reasoning=\"x\"\n", "loop"));
    assert!(!is_suppressed_multiline("code", "loop"));
    let mut list: Vec<Finding> = vec![];
    push_spanning(&mut list, &Some((text("a\nb\n"), text("c"))), "loop", "m");
    push_spanning(&mut list, &None, "loop", "m");
    push_finding(&mut list, 6, "n");
    assert_eq!(list.len(), 2);
    assert_eq!(list[0], Finding { line: 3, message: text("m") });
    assert_eq!(list[1].line, 7);
}

#[test]
fn magic_numbers_are_found() {
    let lint = RustMagicNumbersLint;
    let content = "const A: u32 = 77;\nfn f() { g(1234); }\n";
    let found = lint.check("hw/rust/x/src/lib.rs", content).unwrap();
    assert_eq!(found.len(), 1);
    assert_eq!(found[0].line, 2);
    assert!(found[0].message.contains("1234"));
    assert!(is_allowed_literal("0"));
    assert!(!is_allowed_literal("1234"));
    assert!(is_left_alone("const A", "const A", true, false));
}

#[test]
fn magic_numbers_in_tests_are_left_alone() {
    let lint = RustMagicNumbersLint;
    let content = "#[cfg(test)]\nmod tests {\n    fn f() { g(1234); }\n}\n";
    assert_eq!(lint.check("hw/rust/x/src/lib.rs", content), Some(vec![]));
    let mut module = TestModule { inside: false, depth: 0 };
    assert!(!module.on_line("fn f() {}"));
}

#[test]
fn raw_copies_are_found() {
    let lint = RustSafeSerializationLint;
    let content = "fn f() {\n    core::ptr::copy_nonoverlapping(a, b, n);\n}\n";
    let found = lint.check("hw/rust/x/src/lib.rs", content).unwrap();
    assert_eq!(found.len(), 1);
    assert_eq!(found[0].line, 2);
}

#[test]
fn type_infos_are_looked_at() {
    let lint = QomTypeInfoLint;
    assert_eq!(lint.name(), "qom_type_info");
    let content = "\nstatic T: TypeInfo = TypeInfo {\n    parent: TYPE_SYS_BUS_DEVICE,\n    class_size: size_of::<ObjectClass>(),\n};\n";
    let found = lint.check("hw/rust/x/src/lib.rs", content).unwrap();
    assert_eq!(found.len(), 1);
    assert_eq!(found[0].line, 2);
    let zero = "static T: TypeInfo = TypeInfo { parent: TYPE_SYS_BUS_DEVICE, class_size: 0, };";
    assert_eq!(lint.check("hw/rust/a.rs", zero).unwrap().len(), 1);
    let right = zero.replace(": 0", ": size_of::<SysBusDeviceClass>()");
    assert_eq!(lint.check("hw/rust/a.rs", &right), Some(vec![]));
    assert!(mismatch(&Some(text("TYPE_SYS_BUS_DEVICE")), &Some(text("ObjectClass"))));
    assert!(!mismatch(&Some(text("TYPE_SYS_BUS_DEVICE")), &Some(text("SysBusDeviceClass"))));
    assert!(!mismatch(&None, &Some(text("x"))));
    let all = vec![Captured { before: text(""), groups: vec![text("ab"), text(" b ")] }];
    assert_eq!(group_of_first(&all), Some(text("b")));
    assert_eq!(group_of_first(&vec![]), None);
}

#[test]
fn static_state_is_found() {
    let lint = StaticStateLint;
    let item = |tokens: &str, is_mut: bool, line: usize| StaticItem {
        line,
        inside: vec![],
        is_mut,
        tokens: text(tokens),
    };
    assert!(is_banned_item(&item("u32", true, 1)));
    assert!(is_banned_item(&item("Cell < u32 >", false, 1)));
    assert!(!is_banned_item(&item("u32", false, 1)));
    let found = lint.check(
        "a\nstatic mut X: u32 = 0;\n",
        &vec![item("static mut X : u32", true, 2), item("static Y : u32", false, 2)],
    );
    assert_eq!(found.len(), 1);
    assert_eq!(found[0].line, 2);
    let mut within = item("static mut Z : u32", true, 3);
    within.inside = vec![2];
    let allowed = "a\nb // virtmcu-allow: static_state\nc\nd\n";
    assert_eq!(lint.check(allowed, &vec![within.clone()]), vec![]);
    within.line = 4;
    assert_eq!(lint.check(allowed, &vec![within.clone()]), vec![]);
    within.inside = vec![1];
    assert_eq!(lint.check(allowed, &vec![within]).len(), 1);
    assert_eq!(lint.name(), "rust_static_state");
}

#[test]
fn static_state_is_found_in_a_file() {
    let lint = StaticStateLint;
    let source = "fn f() {\n    static COUNT: AtomicU32 = AtomicU32::new(0);\n}\nstatic NAME: &str = \"a\";\nthread_local! {}\n";
    let found = lint.check_source(source).unwrap();
    assert_eq!(found.len(), 2);
    assert_eq!(found[0].line, 2);
    assert!(found[0].message.starts_with(
        "Banned static state detected in type: static COUNT : AtomicU32 = AtomicU32 :: new (0) ; . ty.\n"
    ));
    assert_eq!(found[1].line, 5);
    let nested = |permission: &str| {
        let mut s = text(permission);
        s.push_str("\nstatic OUTER: u8 = {\n\n    static mut INNER: u8 = 0;\n    0\n};\n");
        s
    };
    let lines = |source: &str| -> Vec<u128> {
        lint.check_source(source).unwrap().iter().map(|f| f.line).collect()
    };
    assert_eq!(lines(&nested("")), vec![4]);
    assert_eq!(lines(&nested("// virtmcu-allow: static_state")), Vec::<u128>::new());
    assert_eq!(lint.check_source("static = ;"), None);
    assert_eq!(lint.check_source(""), Some(vec![]));
}

#[test]
fn nothing_missing_is_offered() {
    let lint = ExportLint;
    let listing = "0000 T virtmcu_set_irq_hook\n0000 t hidden\n     U wanted\n0000 D table\n";
    let offered = exported_symbols(listing);
    assert!(offered.contains(&text("virtmcu_set_irq_hook")));
    let required = vec![text("virtmcu_set_irq_hook"), text("absent")];
    assert_eq!(lint.missing_symbols(listing, &required), vec![text("absent")]);
    assert_eq!(lint.required_exports().len(), 10);
    assert_eq!(lint.plugin_exports(), vec![text("clock_cpu_halt_cb")]);
    assert!(lint.advice(true).contains("QEMU C code"));
    assert!(lint.advice(false).contains("Rust"));
    assert_eq!(lint.name(), "verify_exports");
}

#[test]
fn reference_peripheral_cannot_ask_to_be_left_alone() {
    let lint = RustBannedPatternsLint;
    let path = "hw/rust/examples/reference-peripheral/src/lib.rs";
    for (rule, code) in [
        ("drain_token_in_ref_peripheral", "let t: DrainToken = x;"),
        ("deprecated_cast_in_ref_peripheral", "let s = opaque_to_state(p);"),
        ("clippy_all_in_ref_peripheral", "#![allow(clippy::all)]"),
    ] {
        let asked = format!("// virtmcu-allow: {rule}\n{code} // virtmcu-allow: {rule}\n");
        let found = lint.check(path, &asked).unwrap();
        let name = rules().into_iter().find(|r| r.name == rule).unwrap();
        assert!(found.iter().any(|f| f.line == 2 && f.message.starts_with(name.message)), "{}", rule);
    }
    let slept = "// virtmcu-allow: sleep\nstd::thread::sleep(d);\n";
    let found = lint.check("hw/rust/x/src/lib.rs", slept).unwrap();
    assert!(!found.iter().any(|f| f.message.contains("Banned thread::sleep found.")));
}
