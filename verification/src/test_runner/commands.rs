//! The programs that are started to run tests and to measure what they reach.
use vstd::prelude::*;

use crate::sorting;
use crate::test_runner::context;
use crate::test_runner::context::{push_setting, Setting};
use crate::test_runner::variables;
use crate::text;
use crate::text::{decimal_text, items_of, joined2, owned, push_item, same_text};

verus! {

/// Lets plugins be tested without the emulator that they call.
pub const UNRESOLVED_SYMBOLS: &'static str = "-C link-arg=-Wl,--unresolved-symbols=ignore-all";

/// The flags for the compiler in unit tests.
pub fn unit_test_flags(existing: &Option<String>) -> (r: String)
    ensures
        r@ == match text::optional(*existing) {
            Some(flags) => flags + " -C link-arg=-Wl,--unresolved-symbols=ignore-all"@,
            None => UNRESOLVED_SYMBOLS@,
        },
{
    match existing {
        Some(flags) => joined2(
            flags.as_str(),
            " -C link-arg=-Wl,--unresolved-symbols=ignore-all",
        ),
        None => owned(UNRESOLVED_SYMBOLS),
    }
}

/// The arguments that unit tests are run with.
pub fn unit_test_args() -> (r: Vec<String>)
    ensures
        sorting::views(r@) == seq!["test"@, "--workspace"@, "--exclude"@, "native-integration"@],
{
    let r = items_of(vec!["test", "--workspace", "--exclude", "native-integration"]);
    proof {
        assert(sorting::views(r@) =~= seq![
            "test"@,
            "--workspace"@,
            "--exclude"@,
            "native-integration"@,
        ]);
    }
    r
}

/// The arguments that integration tests are run with; `all` stands for every domain.
pub open spec fn integration_args_of(domain: Option<Seq<char>>) -> Seq<Seq<char>> {
    seq!["+nightly"@, "test"@, "-Z"@, "bindeps"@, "-p"@, "native-integration"@] + (
    if domain is Some && domain->0 != "all"@ {
        seq!["--test"@, domain->0]
    } else {
        Seq::empty()
    })
}

/// The arguments that integration tests are run with.
pub fn integration_args(domain: &Option<String>) -> (r: Vec<String>)
    ensures
        sorting::views(r@) == integration_args_of(text::optional(*domain)),
{
    let mut r = items_of(
        vec!["+nightly", "test", "-Z", "bindeps", "-p", "native-integration"],
    );
    match domain {
        Some(d) => {
            if !same_text(d.as_str(), "all") {
                push_item(&mut r, "--test");
                push_item(&mut r, d.as_str());
            }
        },
        None => {},
    }
    proof {
        assert(sorting::views(r@) =~= integration_args_of(text::optional(*domain)));
    }
    r
}

/// The environment variables that integration tests are run with.
pub open spec fn integration_settings_of(asan: bool) -> Seq<variables::VariableView> {
    if asan {
        seq![
            context::setting("VIRTMCU_USE_ASAN"@, "1"@),
            context::setting("VIRTMCU_STALL_TIMEOUT_MS"@, "300000"@),
            context::setting(
                "ASAN_OPTIONS"@,
                "detect_leaks=0,halt_on_error=1,detect_stack_use_after_return=1"@,
            ),
            context::setting("UBSAN_OPTIONS"@, "halt_on_error=1:print_stacktrace=1"@),
        ]
    } else {
        Seq::empty()
    }
}

/// The environment variables that integration tests are run with; `asan` has memory errors
/// looked for.
pub fn integration_settings(asan: bool) -> (r: Vec<Setting>)
    ensures
        sorting::views(r@) == integration_settings_of(asan),
{
    let mut r: Vec<Setting> = Vec::new();
    if asan {
        push_setting(&mut r, "VIRTMCU_USE_ASAN", "1");
        push_setting(&mut r, "VIRTMCU_STALL_TIMEOUT_MS", "300000");
        push_setting(
            &mut r,
            "ASAN_OPTIONS",
            "detect_leaks=0,halt_on_error=1,detect_stack_use_after_return=1",
        );
        push_setting(&mut r, "UBSAN_OPTIONS", "halt_on_error=1:print_stacktrace=1");
    }
    proof {
        assert(sorting::views(r@) =~= integration_settings_of(asan));
    }
    r
}

/// The arguments that tests are run with where undefined behaviour is looked for.
pub open spec fn miri_args_of() -> Seq<Seq<char>> {
    seq![
        "+nightly"@,
        "miri"@,
        "test"@,
        "-p"@,
        "virtmcu-api"@,
        "-p"@,
        "virtmcu-test-runner"@,
        "-p"@,
        "zenoh_coordinator"@,
        "-p"@,
        "deterministic_coordinator"@,
        "-p"@,
        "virtmcu-zenoh-config"@,
    ]
}

/// The arguments that tests are run with where undefined behaviour is looked for.
pub fn miri_args() -> (r: Vec<String>)
    ensures
        sorting::views(r@) == miri_args_of(),
{
    let r = items_of(
        vec![
            "+nightly",
            "miri",
            "test",
            "-p",
            "virtmcu-api",
            "-p",
            "virtmcu-test-runner",
            "-p",
            "zenoh_coordinator",
            "-p",
            "deterministic_coordinator",
            "-p",
            "virtmcu-zenoh-config",
        ],
    );
    proof {
        assert(sorting::views(r@) =~= miri_args_of());
    }
    r
}

/// The arguments that the coverage of unit tests is measured with.
pub open spec fn unit_coverage_args_of() -> Seq<Seq<char>> {
    seq![
        "tarpaulin"@,
        "--workspace"@,
        "--exclude"@,
        "native-integration"@,
        "--out"@,
        "Xml"@,
        "--output-dir"@,
        "test-results/"@,
        "--engine"@,
        "llvm"@,
    ]
}

/// The arguments that the coverage of unit tests is measured with.
pub fn unit_coverage_args() -> (r: Vec<String>)
    ensures
        sorting::views(r@) == unit_coverage_args_of(),
{
    let r = items_of(
        vec![
            "tarpaulin",
            "--workspace",
            "--exclude",
            "native-integration",
            "--out",
            "Xml",
            "--output-dir",
            "test-results/",
            "--engine",
            "llvm",
        ],
    );
    proof {
        assert(sorting::views(r@) =~= unit_coverage_args_of());
    }
    r
}

/// The arguments that firmware is run with to see which of it runs.
pub open spec fn traced_run_args_of(plugin: Seq<char>) -> Seq<Seq<char>> {
    seq![
        "--dtb"@,
        "tests/fixtures/guest_apps/boot_arm/minimal.dtb"@,
        "--kernel"@,
        "tests/fixtures/guest_apps/boot_arm/hello.elf"@,
        "-nographic"@,
        "-m"@,
        "128M"@,
        "-display"@,
        "none"@,
        "-plugin"@,
        plugin + ",filename=coverage-data/hello.drcov"@,
        "-d"@,
        "plugin"@,
    ]
}

/// The arguments that firmware is run with to see which of it runs.
pub fn traced_run_args(plugin: &str) -> (r: Vec<String>)
    ensures
        sorting::views(r@) == traced_run_args_of(plugin@),
{
    let mut r = items_of(
        vec![
            "--dtb",
            "tests/fixtures/guest_apps/boot_arm/minimal.dtb",
            "--kernel",
            "tests/fixtures/guest_apps/boot_arm/hello.elf",
            "-nographic",
            "-m",
            "128M",
            "-display",
            "none",
            "-plugin",
        ],
    );
    push_item(&mut r, joined2(plugin, ",filename=coverage-data/hello.drcov").as_str());
    push_item(&mut r, "-d");
    push_item(&mut r, "plugin");
    proof {
        assert(sorting::views(r@) =~= traced_run_args_of(plugin@));
    }
    r
}

/// The arguments that the coverage of the emulator's own code is reported with.
pub open spec fn peripheral_coverage_args_of(
    sources: Seq<char>,
    build: Seq<char>,
    data: Seq<char>,
) -> Seq<Seq<char>> {
    seq![
        "-r"@,
        sources,
        "--gcov-executable"@,
        "gcov"@,
        "--gcov-ignore-errors=no_working_dir_found"@,
        "--object-directory"@,
        build,
        "--xml"@,
        "test-results/peripheral-coverage.xml"@,
        "--html-details"@,
        "test-results/peripheral-coverage.html"@,
        "--print-summary"@,
        data,
    ]
}

/// The arguments that the coverage of the emulator's own code is reported with.
pub fn peripheral_coverage_args(sources: &str, build: &str, data: &str) -> (r: Vec<String>)
    ensures
        sorting::views(r@) == peripheral_coverage_args_of(sources@, build@, data@),
{
    let mut r = items_of(vec!["-r"]);
    push_item(&mut r, sources);
    push_item(&mut r, "--gcov-executable");
    push_item(&mut r, "gcov");
    push_item(&mut r, "--gcov-ignore-errors=no_working_dir_found");
    push_item(&mut r, "--object-directory");
    push_item(&mut r, build);
    push_item(&mut r, "--xml");
    push_item(&mut r, "test-results/peripheral-coverage.xml");
    push_item(&mut r, "--html-details");
    push_item(&mut r, "test-results/peripheral-coverage.html");
    push_item(&mut r, "--print-summary");
    push_item(&mut r, data);
    proof {
        assert(sorting::views(r@) =~= peripheral_coverage_args_of(sources@, build@, data@));
    }
    r
}

/// Whether all tests passed, and what is said where some did not.
pub fn test_summary(passed: &Vec<bool>) -> (r: Result<(), String>)
    ensures
        match r {
            Ok(_) => failures(passed@) == 0,
            Err(s) => failures(passed@) > 0 && s@ == text::decimal(failures(passed@))
                + " tests failed"@,
        },
{
    let mut failed: usize = 0;
    let mut i: usize = 0;
    while i < passed.len()
        invariant
            i <= passed@.len(),
            failed <= i,
            failed == failures(passed@.take(i as int)),
        decreases passed@.len() - i,
    {
        proof {
            assert(passed@.take(i + 1).drop_last() =~= passed@.take(i as int));
        }
        if !passed[i] {
            failed += 1;
        }
        i += 1;
    }
    proof {
        assert(passed@.take(i as int) =~= passed@);
    }
    if failed > 0 {
        Err(joined2(decimal_text(failed as u64).as_str(), " tests failed"))
    } else {
        Ok(())
    }
}

/// How many tests did not pass.
pub open spec fn failures(passed: Seq<bool>) -> nat
    decreases passed.len(),
{
    if passed.len() == 0 {
        0
    } else {
        failures(passed.drop_last()) + (if passed.last() {
            0nat
        } else {
            1nat
        })
    }
}

} // verus!
