//! What must not occur in the sources of the peripherals, and what to do instead.
use vstd::prelude::*;

use crate::sorting;

verus! {

/// A pattern that must not occur in a line of the files that a rule is about.
#[derive(Debug, Clone, PartialEq, Eq)]
pub struct Rule {
    pub name: &'static str,
    /// A regular expression.
    pub pattern: &'static str,
    pub message: &'static str,
    pub fix: &'static str,
    /// The rule is about files whose path holds one of these.
    pub inc_dirs: Vec<&'static str>,
    /// The rule is not about files whose path holds one of these.
    pub exc_list: Vec<&'static str>,
    /// A line can ask to be left alone.
    pub may_be_suppressed: bool,
}

#[verifier::ext_equal]
pub struct RuleView {
    pub name: Seq<char>,
    pub pattern: Seq<char>,
    pub message: Seq<char>,
    pub fix: Seq<char>,
    pub inc_dirs: Seq<Seq<char>>,
    pub exc_list: Seq<Seq<char>>,
    pub may_be_suppressed: bool,
}

impl View for Rule {
    type V = RuleView;

    open spec fn view(&self) -> RuleView {
        RuleView {
            name: self.name@,
            pattern: self.pattern@,
            message: self.message@,
            fix: self.fix@,
            inc_dirs: sorting::views(self.inc_dirs@),
            exc_list: sorting::views(self.exc_list@),
            may_be_suppressed: self.may_be_suppressed,
        }
    }
}

pub const SLEEP_PATTERN: &'static str = "thread::sleep";

pub const SLEEP_MESSAGE: &'static str = "Banned thread::sleep found.";

pub const SLEEP_FIX: &'static str = "Replace with condvar/channel. Quick Tip: Avoid sleeping which breaks deterministic virtual time. See docs/guide/09-engineering-mandates.md. MANDATE: // virtmcu-allow: sleep reasoning=\"<reason>\" inline.";

/// The rule `sleep`.
pub open spec fn sleep_rule() -> RuleView {
    RuleView {
        name: "sleep"@,
        pattern: SLEEP_PATTERN@,
        message: SLEEP_MESSAGE@,
        fix: SLEEP_FIX@,
        inc_dirs: seq!["hw/rust"@],
        exc_list: Seq::empty(),
        may_be_suppressed: true,
    }
}

fn make_sleep_rule() -> (r: Rule)
    ensures
        r@ == sleep_rule(),
{
    let r = Rule {
        name: "sleep",
        pattern: SLEEP_PATTERN,
        message: SLEEP_MESSAGE,
        fix: SLEEP_FIX,
        inc_dirs: vec!["hw/rust"],
        exc_list: Vec::new(),
        may_be_suppressed: true,
    };
    proof {
        assert(r@.inc_dirs =~= sleep_rule().inc_dirs);
        assert(r@.exc_list =~= sleep_rule().exc_list);
    }
    r
}

pub const MUTEX_PATTERN: &'static str = "Mutex<";

pub const MUTEX_MESSAGE: &'static str = "Banned Mutex<T> found in peripheral state.";

pub const MUTEX_FIX: &'static str = "Replace std::sync::Mutex<T> with virtmcu_qom::sync::Mutex<T> or Atomics. Quick Tip: Standard Mutex deadlocks with the BQL. BqlGuarded is DEPRECATED. See docs/rfcs/0018-safe-peripheral-bql-yielding.md. MANDATE: // virtmcu-allow: mutex reasoning=\"<reason>\".";

/// The rule `mutex`.
pub open spec fn mutex_rule() -> RuleView {
    RuleView {
        name: "mutex"@,
        pattern: MUTEX_PATTERN@,
        message: MUTEX_MESSAGE@,
        fix: MUTEX_FIX@,
        inc_dirs: seq!["hw/rust/comms"@, "hw/rust/mcu"@, "hw/rust/observability"@],
        exc_list: Seq::empty(),
        may_be_suppressed: true,
    }
}

fn make_mutex_rule() -> (r: Rule)
    ensures
        r@ == mutex_rule(),
{
    let r = Rule {
        name: "mutex",
        pattern: MUTEX_PATTERN,
        message: MUTEX_MESSAGE,
        fix: MUTEX_FIX,
        inc_dirs: vec!["hw/rust/comms", "hw/rust/mcu", "hw/rust/observability"],
        exc_list: Vec::new(),
        may_be_suppressed: true,
    };
    proof {
        assert(r@.inc_dirs =~= mutex_rule().inc_dirs);
        assert(r@.exc_list =~= mutex_rule().exc_list);
    }
    r
}

pub const BQL_PATTERN: &'static str = "Bql::lock\\(\\)|SafeSubscription";

pub const BQL_MESSAGE: &'static str = "Banned BQL usage or SafeSubscription found.";

pub const BQL_FIX: &'static str = "Use VtimeIngress (RFC-0021) instead of SafeSubscription. Use virtmcu_qom::sync::Mutex for state. Quick Tip: Do not block async threads on the BQL. See docs/rfcs/0018-safe-peripheral-bql-yielding.md and RFC-0021. MANDATE: // virtmcu-allow: bql reasoning=\"<reason>\".";

/// The rule `bql`.
pub open spec fn bql_rule() -> RuleView {
    RuleView {
        name: "bql"@,
        pattern: BQL_PATTERN@,
        message: BQL_MESSAGE@,
        fix: BQL_FIX@,
        inc_dirs: seq!["hw/rust/comms"@, "hw/rust/mcu"@, "hw/rust/observability"@],
        exc_list: Seq::empty(),
        may_be_suppressed: true,
    }
}

fn make_bql_rule() -> (r: Rule)
    ensures
        r@ == bql_rule(),
{
    let r = Rule {
        name: "bql",
        pattern: BQL_PATTERN,
        message: BQL_MESSAGE,
        fix: BQL_FIX,
        inc_dirs: vec!["hw/rust/comms", "hw/rust/mcu", "hw/rust/observability"],
        exc_list: Vec::new(),
        may_be_suppressed: true,
    };
    proof {
        assert(r@.inc_dirs =~= bql_rule().inc_dirs);
        assert(r@.exc_list =~= bql_rule().exc_list);
    }
    r
}

pub const NO_STD_PATTERN: &'static str = "#\\!\\[no_std\\]";

pub const NO_STD_MESSAGE: &'static str = "Misleading #![no_std] found.";

pub const NO_STD_FIX: &'static str = "Remove #![no_std]. Quick Tip: VirtMCU plugins run in userspace and rely on std. See docs/guide/09-engineering-mandates.md. MANDATE: // virtmcu-allow: no_std reasoning=\"<reason>\" inline.";

/// The rule `no_std`.
pub open spec fn no_std_rule() -> RuleView {
    RuleView {
        name: "no_std"@,
        pattern: NO_STD_PATTERN@,
        message: NO_STD_MESSAGE@,
        fix: NO_STD_FIX@,
        inc_dirs: seq!["hw/rust"@],
        exc_list: Seq::empty(),
        may_be_suppressed: true,
    }
}

fn make_no_std_rule() -> (r: Rule)
    ensures
        r@ == no_std_rule(),
{
    let r = Rule {
        name: "no_std",
        pattern: NO_STD_PATTERN,
        message: NO_STD_MESSAGE,
        fix: NO_STD_FIX,
        inc_dirs: vec!["hw/rust"],
        exc_list: Vec::new(),
        may_be_suppressed: true,
    };
    proof {
        assert(r@.inc_dirs =~= no_std_rule().inc_dirs);
        assert(r@.exc_list =~= no_std_rule().exc_list);
    }
    r
}

pub const NE_BYTES_PATTERN: &'static str = "to_ne_bytes|from_ne_bytes";

pub const NE_BYTES_MESSAGE: &'static str = "Banned to_ne_bytes/from_ne_bytes found.";

pub const NE_BYTES_FIX: &'static str = "Use to_le_bytes()/from_le_bytes() with a wire-order comment. Quick Tip: Simulation state must be endian-independent. See docs/rfcs/0012-data-serialization.md. MANDATE: // virtmcu-allow: ne_bytes reasoning=\"<reason>\".";

/// The rule `ne_bytes`.
pub open spec fn ne_bytes_rule() -> RuleView {
    RuleView {
        name: "ne_bytes"@,
        pattern: NE_BYTES_PATTERN@,
        message: NE_BYTES_MESSAGE@,
        fix: NE_BYTES_FIX@,
        inc_dirs: seq!["hw/rust"@],
        exc_list: Seq::empty(),
        may_be_suppressed: true,
    }
}

fn make_ne_bytes_rule() -> (r: Rule)
    ensures
        r@ == ne_bytes_rule(),
{
    let r = Rule {
        name: "ne_bytes",
        pattern: NE_BYTES_PATTERN,
        message: NE_BYTES_MESSAGE,
        fix: NE_BYTES_FIX,
        inc_dirs: vec!["hw/rust"],
        exc_list: Vec::new(),
        may_be_suppressed: true,
    };
    proof {
        assert(r@.inc_dirs =~= ne_bytes_rule().inc_dirs);
        assert(r@.exc_list =~= ne_bytes_rule().exc_list);
    }
    r
}

pub const RNG_PATTERN: &'static str = "rand::thread_rng\\b";

pub const RNG_MESSAGE: &'static str = "Banned rand::thread_rng found.";

pub const RNG_FIX: &'static str = "Use seed_for_quantum() from transport-zenoh. Quick Tip: Wall-clock/random seeding destroys determinism. See docs/rfcs/0020-deterministic-test-orchestration-seeding.md. MANDATE: // virtmcu-allow: rng reasoning=\"<reason>\".";

/// The rule `rng`.
pub open spec fn rng_rule() -> RuleView {
    RuleView {
        name: "rng"@,
        pattern: RNG_PATTERN@,
        message: RNG_MESSAGE@,
        fix: RNG_FIX@,
        inc_dirs: seq!["hw/rust"@],
        exc_list: Seq::empty(),
        may_be_suppressed: true,
    }
}

fn make_rng_rule() -> (r: Rule)
    ensures
        r@ == rng_rule(),
{
    let r = Rule {
        name: "rng",
        pattern: RNG_PATTERN,
        message: RNG_MESSAGE,
        fix: RNG_FIX,
        inc_dirs: vec!["hw/rust"],
        exc_list: Vec::new(),
        may_be_suppressed: true,
    };
    proof {
        assert(r@.inc_dirs =~= rng_rule().inc_dirs);
        assert(r@.exc_list =~= rng_rule().exc_list);
    }
    r
}

pub const YIELD_PATTERN: &'static str = "std::thread::yield_now\\b";

pub const YIELD_MESSAGE: &'static str = "Banned thread::yield_now() found.";

pub const YIELD_FIX: &'static str = "Replace with QemuCond::wait_yielding_bql or the new MmioDevice trait. Quick Tip: Explicit yields can starve the QEMU main loop. See docs/rfcs/0018-safe-peripheral-bql-yielding.md. MANDATE: // virtmcu-allow: yield reasoning=\"<reason>\" inline.";

/// The rule `yield`.
pub open spec fn yield_rule() -> RuleView {
    RuleView {
        name: "yield"@,
        pattern: YIELD_PATTERN@,
        message: YIELD_MESSAGE@,
        fix: YIELD_FIX@,
        inc_dirs: seq!["hw/rust"@],
        exc_list: Seq::empty(),
        may_be_suppressed: true,
    }
}

fn make_yield_rule() -> (r: Rule)
    ensures
        r@ == yield_rule(),
{
    let r = Rule {
        name: "yield",
        pattern: YIELD_PATTERN,
        message: YIELD_MESSAGE,
        fix: YIELD_FIX,
        inc_dirs: vec!["hw/rust"],
        exc_list: Vec::new(),
        may_be_suppressed: true,
    };
    proof {
        assert(r@.inc_dirs =~= yield_rule().inc_dirs);
        assert(r@.exc_list =~= yield_rule().exc_list);
    }
    r
}

pub const ALLOW_PATTERN: &'static str = "#\\[allow\\(";

pub const ALLOW_MESSAGE: &'static str = "Banned #[allow(] found in production code.";

pub const ALLOW_FIX: &'static str = "Fix the underlying lint instead. Quick Tip: Strict lints are required for Enterprise SOTA quality. See docs/guide/09-engineering-mandates.md. MANDATE: // virtmcu-allow: allow reasoning=\"<reason>\" inline (for tests only).";

/// The rule `allow`.
pub open spec fn allow_rule() -> RuleView {
    RuleView {
        name: "allow"@,
        pattern: ALLOW_PATTERN@,
        message: ALLOW_MESSAGE@,
        fix: ALLOW_FIX@,
        inc_dirs: seq!["hw/rust"@],
        exc_list: seq!["target"@, "tests"@, "_generated.rs"@, "build.rs"@],
        may_be_suppressed: true,
    }
}

fn make_allow_rule() -> (r: Rule)
    ensures
        r@ == allow_rule(),
{
    let r = Rule {
        name: "allow",
        pattern: ALLOW_PATTERN,
        message: ALLOW_MESSAGE,
        fix: ALLOW_FIX,
        inc_dirs: vec!["hw/rust"],
        exc_list: vec!["target", "tests", "_generated.rs", "build.rs"],
        may_be_suppressed: true,
    };
    proof {
        assert(r@.inc_dirs =~= allow_rule().inc_dirs);
        assert(r@.exc_list =~= allow_rule().exc_list);
    }
    r
}

pub const UNWRAP_OR_FALLBACK_PATTERN: &'static str = "\\.unwrap_or\\((0|0\\.0|u(8|16|32|64)::MAX|\\[0[^\\]]*\\])\\)";

pub const UNWRAP_OR_FALLBACK_MESSAGE: &'static str = "Banned unwrap_or(0/MAX/default) found.";

pub const UNWRAP_OR_FALLBACK_FIX: &'static str = "Fail Loudly! Use expect() or propagate errors instead of silently using defaults. Quick Tip: Silent fallbacks cause divergence. See docs/rfcs/0022-fail-loudly-and-panic-linting.md. MANDATE: // virtmcu-allow: unwrap_or_fallback reasoning=\"<reason>\".";

/// The rule `unwrap_or_fallback`.
pub open spec fn unwrap_or_fallback_rule() -> RuleView {
    RuleView {
        name: "unwrap_or_fallback"@,
        pattern: UNWRAP_OR_FALLBACK_PATTERN@,
        message: UNWRAP_OR_FALLBACK_MESSAGE@,
        fix: UNWRAP_OR_FALLBACK_FIX@,
        inc_dirs: seq!["hw/rust"@, "tools"@],
        exc_list: seq!["tests"@],
        may_be_suppressed: true,
    }
}

fn make_unwrap_or_fallback_rule() -> (r: Rule)
    ensures
        r@ == unwrap_or_fallback_rule(),
{
    let r = Rule {
        name: "unwrap_or_fallback",
        pattern: UNWRAP_OR_FALLBACK_PATTERN,
        message: UNWRAP_OR_FALLBACK_MESSAGE,
        fix: UNWRAP_OR_FALLBACK_FIX,
        inc_dirs: vec!["hw/rust", "tools"],
        exc_list: vec!["tests"],
        may_be_suppressed: true,
    };
    proof {
        assert(r@.inc_dirs =~= unwrap_or_fallback_rule().inc_dirs);
        assert(r@.exc_list =~= unwrap_or_fallback_rule().exc_list);
    }
    r
}

pub const WARN_MACRO_PATTERN: &'static str = "(sim_warn!|tracing::warn!|log::warn!)";

pub const WARN_MACRO_MESSAGE: &'static str = "Banned warn! macro found.";

pub const WARN_MACRO_FIX: &'static str = "Fail Loudly! Use assert!, panic!, or sim_panic! instead. Quick Tip: Warning without crashing breaks determinism. See docs/rfcs/0022-fail-loudly-and-panic-linting.md. MANDATE: // virtmcu-allow: warn_macro reasoning=\"<reason>\".";

/// The rule `warn_macro`.
pub open spec fn warn_macro_rule() -> RuleView {
    RuleView {
        name: "warn_macro"@,
        pattern: WARN_MACRO_PATTERN@,
        message: WARN_MACRO_MESSAGE@,
        fix: WARN_MACRO_FIX@,
        inc_dirs: seq!["hw/rust"@, "tools"@],
        exc_list: seq!["virtmcu-test-runner"@, "virtmcu-cli"@],
        may_be_suppressed: true,
    }
}

fn make_warn_macro_rule() -> (r: Rule)
    ensures
        r@ == warn_macro_rule(),
{
    let r = Rule {
        name: "warn_macro",
        pattern: WARN_MACRO_PATTERN,
        message: WARN_MACRO_MESSAGE,
        fix: WARN_MACRO_FIX,
        inc_dirs: vec!["hw/rust", "tools"],
        exc_list: vec!["virtmcu-test-runner", "virtmcu-cli"],
        may_be_suppressed: true,
    };
    proof {
        assert(r@.inc_dirs =~= warn_macro_rule().inc_dirs);
        assert(r@.exc_list =~= warn_macro_rule().exc_list);
    }
    r
}

pub const TEST_SLEEP_PATTERN: &'static str = "(tokio::time::sleep|std::thread::sleep)\\(";

pub const TEST_SLEEP_MESSAGE: &'static str = "Banned sleep in integration tests.";

pub const TEST_SLEEP_FIX: &'static str = "Use wait_for_output_passive or async signals instead of polling/sleeping. Quick Tip: Deterministic tests must be event-driven. See docs/rfcs/0020-deterministic-test-orchestration-seeding.md. MANDATE: // virtmcu-allow: test_sleep reasoning=\"<reason>\".";

/// The rule `test_sleep`.
pub open spec fn test_sleep_rule() -> RuleView {
    RuleView {
        name: "test_sleep"@,
        pattern: TEST_SLEEP_PATTERN@,
        message: TEST_SLEEP_MESSAGE@,
        fix: TEST_SLEEP_FIX@,
        inc_dirs: seq!["tests/native_integration"@],
        exc_list: Seq::empty(),
        may_be_suppressed: true,
    }
}

fn make_test_sleep_rule() -> (r: Rule)
    ensures
        r@ == test_sleep_rule(),
{
    let r = Rule {
        name: "test_sleep",
        pattern: TEST_SLEEP_PATTERN,
        message: TEST_SLEEP_MESSAGE,
        fix: TEST_SLEEP_FIX,
        inc_dirs: vec!["tests/native_integration"],
        exc_list: Vec::new(),
        may_be_suppressed: true,
    };
    proof {
        assert(r@.inc_dirs =~= test_sleep_rule().inc_dirs);
        assert(r@.exc_list =~= test_sleep_rule().exc_list);
    }
    r
}

pub const TEST_HARDCODED_PATH_PATTERN: &'static str = "\"(?:/tmp/|/var/tmp)[\\w\\-\\.]*\"";

pub const TEST_HARDCODED_PATH_MESSAGE: &'static str = "Banned hardcoded temp path in tests.";

pub const TEST_HARDCODED_PATH_FIX: &'static str = "Use env.tmp_path() to avoid parallel collisions. Quick Tip: Tests run concurrently, hardcoded paths cause cross-talk.";

/// The rule `test_hardcoded_path`.
pub open spec fn test_hardcoded_path_rule() -> RuleView {
    RuleView {
        name: "test_hardcoded_path"@,
        pattern: TEST_HARDCODED_PATH_PATTERN@,
        message: TEST_HARDCODED_PATH_MESSAGE@,
        fix: TEST_HARDCODED_PATH_FIX@,
        inc_dirs: seq!["tests/native_integration"@],
        exc_list: Seq::empty(),
        may_be_suppressed: true,
    }
}

fn make_test_hardcoded_path_rule() -> (r: Rule)
    ensures
        r@ == test_hardcoded_path_rule(),
{
    let r = Rule {
        name: "test_hardcoded_path",
        pattern: TEST_HARDCODED_PATH_PATTERN,
        message: TEST_HARDCODED_PATH_MESSAGE,
        fix: TEST_HARDCODED_PATH_FIX,
        inc_dirs: vec!["tests/native_integration"],
        exc_list: Vec::new(),
        may_be_suppressed: true,
    };
    proof {
        assert(r@.inc_dirs =~= test_hardcoded_path_rule().inc_dirs);
        assert(r@.exc_list =~= test_hardcoded_path_rule().exc_list);
    }
    r
}

pub const TEST_HARDCODED_PORT_PATTERN: &'static str = "\"127\\.0\\.0\\.1:[1-9]\\d{0,3}\"";

pub const TEST_HARDCODED_PORT_MESSAGE: &'static str = "Banned hardcoded port in tests.";

pub const TEST_HARDCODED_PORT_FIX: &'static str = "Use port 0 for OS-assigned unique port. Quick Tip: Prevents 'address already in use' errors in parallel CI.";

/// The rule `test_hardcoded_port`.
pub open spec fn test_hardcoded_port_rule() -> RuleView {
    RuleView {
        name: "test_hardcoded_port"@,
        pattern: TEST_HARDCODED_PORT_PATTERN@,
        message: TEST_HARDCODED_PORT_MESSAGE@,
        fix: TEST_HARDCODED_PORT_FIX@,
        inc_dirs: seq!["tests/native_integration"@],
        exc_list: Seq::empty(),
        may_be_suppressed: true,
    }
}

fn make_test_hardcoded_port_rule() -> (r: Rule)
    ensures
        r@ == test_hardcoded_port_rule(),
{
    let r = Rule {
        name: "test_hardcoded_port",
        pattern: TEST_HARDCODED_PORT_PATTERN,
        message: TEST_HARDCODED_PORT_MESSAGE,
        fix: TEST_HARDCODED_PORT_FIX,
        inc_dirs: vec!["tests/native_integration"],
        exc_list: Vec::new(),
        may_be_suppressed: true,
    };
    proof {
        assert(r@.inc_dirs =~= test_hardcoded_port_rule().inc_dirs);
        assert(r@.exc_list =~= test_hardcoded_port_rule().exc_list);
    }
    r
}

pub const TEST_DECLARE_SUBSCRIBER_PATTERN: &'static str = "\\.declare_subscriber\\(";

pub const TEST_DECLARE_SUBSCRIBER_MESSAGE: &'static str = "Banned raw declare_subscriber in tests.";

pub const TEST_DECLARE_SUBSCRIBER_FIX: &'static str = "Use env.safe_subscribe() which waits for Zenoh discovery readiness. Quick Tip: Raw pub/sub races against Zenoh scout intervals.";

/// The rule `test_declare_subscriber`.
pub open spec fn test_declare_subscriber_rule() -> RuleView {
    RuleView {
        name: "test_declare_subscriber"@,
        pattern: TEST_DECLARE_SUBSCRIBER_PATTERN@,
        message: TEST_DECLARE_SUBSCRIBER_MESSAGE@,
        fix: TEST_DECLARE_SUBSCRIBER_FIX@,
        inc_dirs: seq!["tests/native_integration"@],
        exc_list: seq!["tools/virtmcu-test-runner"@],
        may_be_suppressed: true,
    }
}

fn make_test_declare_subscriber_rule() -> (r: Rule)
    ensures
        r@ == test_declare_subscriber_rule(),
{
    let r = Rule {
        name: "test_declare_subscriber",
        pattern: TEST_DECLARE_SUBSCRIBER_PATTERN,
        message: TEST_DECLARE_SUBSCRIBER_MESSAGE,
        fix: TEST_DECLARE_SUBSCRIBER_FIX,
        inc_dirs: vec!["tests/native_integration"],
        exc_list: vec!["tools/virtmcu-test-runner"],
        may_be_suppressed: true,
    };
    proof {
        assert(r@.inc_dirs =~= test_declare_subscriber_rule().inc_dirs);
        assert(r@.exc_list =~= test_declare_subscriber_rule().exc_list);
    }
    r
}

pub const ENV_IN_PERIPHERAL_PATTERN: &'static str = "UdsDataTransport::new\\(|\"VIRTMCU_SIM_ID\"";

pub const ENV_IN_PERIPHERAL_MESSAGE: &'static str = "Banned VIRTMCU_SIM_ID read or UdsDataTransport::new() in peripheral code.";

pub const ENV_IN_PERIPHERAL_FIX: &'static str = "Use UdsDataTransport::new_with_fed_id(path, node_id, fed_id) where fed_id comes from the peripheral's 'federation-id' QOM property. new() silently reads VIRTMCU_SIM_ID — violates DI and races in concurrent tests. See AGENTS.md §4 'Env Var Reads in Peripherals Are BANNED'. MANDATE: // virtmcu-allow: env_in_peripheral reasoning=\"<reason>\".";

/// The rule `env_in_peripheral`.
pub open spec fn env_in_peripheral_rule() -> RuleView {
    RuleView {
        name: "env_in_peripheral"@,
        pattern: ENV_IN_PERIPHERAL_PATTERN@,
        message: ENV_IN_PERIPHERAL_MESSAGE@,
        fix: ENV_IN_PERIPHERAL_FIX@,
        inc_dirs: seq!["hw/rust"@],
        exc_list: seq!["transport-uds"@, "tests"@, "build.rs"@],
        may_be_suppressed: true,
    }
}

fn make_env_in_peripheral_rule() -> (r: Rule)
    ensures
        r@ == env_in_peripheral_rule(),
{
    let r = Rule {
        name: "env_in_peripheral",
        pattern: ENV_IN_PERIPHERAL_PATTERN,
        message: ENV_IN_PERIPHERAL_MESSAGE,
        fix: ENV_IN_PERIPHERAL_FIX,
        inc_dirs: vec!["hw/rust"],
        exc_list: vec!["transport-uds", "tests", "build.rs"],
        may_be_suppressed: true,
    };
    proof {
        assert(r@.inc_dirs =~= env_in_peripheral_rule().inc_dirs);
        assert(r@.exc_list =~= env_in_peripheral_rule().exc_list);
    }
    r
}

pub const TOPIC_QOM_PROPERTY_PATTERN: &'static str = "(?:pub\\s+topic\\s*:\\s*(?:QomString|virtmcu_qom::qom::QomString)|define_prop_\\w+\\s*!\\s*\\(\\s*\"topic\")";

pub const TOPIC_QOM_PROPERTY_MESSAGE: &'static str = "Banned `topic` QOM property declaration in peripheral code (RFC-0042).";

pub const TOPIC_QOM_PROPERTY_FIX: &'static str = "Replace `topic` with `link-name` (a QomString property). In realize(), call transport.register_link(node_id, &link_name, protocol, LinkRole::Both) to obtain a link_id. Use VtimeIngress::new_for_link(link_id, …) for ingress and transport.reserve_link(link_id, size) for egress. The deprecated DataTransport::reserve(topic, size) and VtimeIngress::new(topic, …) APIs must not appear in new code. See RFC-0042 and hw/rust/examples/reference-peripheral for the Gold Standard pattern. MANDATE: // virtmcu-allow: topic_qom_property reasoning=\"<reason>\".";

/// The rule `topic_qom_property`.
pub open spec fn topic_qom_property_rule() -> RuleView {
    RuleView {
        name: "topic_qom_property"@,
        pattern: TOPIC_QOM_PROPERTY_PATTERN@,
        message: TOPIC_QOM_PROPERTY_MESSAGE@,
        fix: TOPIC_QOM_PROPERTY_FIX@,
        inc_dirs: seq!["hw/rust/buses"@, "hw/rust/bridges"@, "hw/rust/physics"@, "hw/rust/mcu"@, "hw/rust/examples"@, "hw/rust/observability"@],
        exc_list: Seq::empty(),
        may_be_suppressed: true,
    }
}

fn make_topic_qom_property_rule() -> (r: Rule)
    ensures
        r@ == topic_qom_property_rule(),
{
    let r = Rule {
        name: "topic_qom_property",
        pattern: TOPIC_QOM_PROPERTY_PATTERN,
        message: TOPIC_QOM_PROPERTY_MESSAGE,
        fix: TOPIC_QOM_PROPERTY_FIX,
        inc_dirs: vec!["hw/rust/buses", "hw/rust/bridges", "hw/rust/physics", "hw/rust/mcu", "hw/rust/examples", "hw/rust/observability"],
        exc_list: Vec::new(),
        may_be_suppressed: true,
    };
    proof {
        assert(r@.inc_dirs =~= topic_qom_property_rule().inc_dirs);
        assert(r@.exc_list =~= topic_qom_property_rule().exc_list);
    }
    r
}

pub const NEW_UNCHECKED_IN_PERIPHERAL_PATTERN: &'static str = "BqlContext::new_unchecked\\(\\)";

pub const NEW_UNCHECKED_IN_PERIPHERAL_MESSAGE: &'static str = "Banned BqlContext::new_unchecked() in peripheral code.";

pub const NEW_UNCHECKED_IN_PERIPHERAL_FIX: &'static str = "BqlContext is created only by the framework (macro dispatch, ClosureTimer trampoline). Your Peripheral::read/write/realize receives ctx: &BqlContext — pass it down. Creating one here bypasses RFC-0041 compile-time BQL proof. See RFC-0041. MANDATE: // virtmcu-allow: new_unchecked_in_peripheral reasoning=\"<reason>\".";

/// The rule `new_unchecked_in_peripheral`.
pub open spec fn new_unchecked_in_peripheral_rule() -> RuleView {
    RuleView {
        name: "new_unchecked_in_peripheral"@,
        pattern: NEW_UNCHECKED_IN_PERIPHERAL_PATTERN@,
        message: NEW_UNCHECKED_IN_PERIPHERAL_MESSAGE@,
        fix: NEW_UNCHECKED_IN_PERIPHERAL_FIX@,
        inc_dirs: seq!["hw/rust/buses"@, "hw/rust/physics"@, "hw/rust/mcu"@, "hw/rust/examples"@, "hw/rust/observability"@, "hw/rust/bridges"@],
        exc_list: seq!["hw/rust/observability/telemetry"@, "hw/rust/observability/tcg-tracer"@, "hw/rust/bridges/mmio-socket-bridge"@, "hw/rust/bridges/remote-port"@, "hw/rust/bridges/uart"@, "hw/rust/buses/ieee802154"@, "hw/rust/buses/flexray"@, "hw/rust/buses/ethernet"@],
        may_be_suppressed: true,
    }
}

fn make_new_unchecked_in_peripheral_rule() -> (r: Rule)
    ensures
        r@ == new_unchecked_in_peripheral_rule(),
{
    let r = Rule {
        name: "new_unchecked_in_peripheral",
        pattern: NEW_UNCHECKED_IN_PERIPHERAL_PATTERN,
        message: NEW_UNCHECKED_IN_PERIPHERAL_MESSAGE,
        fix: NEW_UNCHECKED_IN_PERIPHERAL_FIX,
        inc_dirs: vec!["hw/rust/buses", "hw/rust/physics", "hw/rust/mcu", "hw/rust/examples", "hw/rust/observability", "hw/rust/bridges"],
        exc_list: vec!["hw/rust/observability/telemetry", "hw/rust/observability/tcg-tracer", "hw/rust/bridges/mmio-socket-bridge", "hw/rust/bridges/remote-port", "hw/rust/bridges/uart", "hw/rust/buses/ieee802154", "hw/rust/buses/flexray", "hw/rust/buses/ethernet"],
        may_be_suppressed: true,
    };
    proof {
        assert(r@.inc_dirs =~= new_unchecked_in_peripheral_rule().inc_dirs);
        assert(r@.exc_list =~= new_unchecked_in_peripheral_rule().exc_list);
    }
    r
}

pub const UNSAFE_IN_PERIPHERAL_PATTERN: &'static str = "\\bunsafe\\s*\\{";

pub const UNSAFE_IN_PERIPHERAL_MESSAGE: &'static str = "Banned unsafe block in peripheral code (RFC-0026).";

pub const UNSAFE_IN_PERIPHERAL_FIX: &'static str = "Peripheral code must be zero-unsafe. Use framework APIs: ClosureTimer (instead of extern \"C\" callbacks), dynamic_cast_qom (instead of deref_qom_ptr), VtimeIngress. See RFC-0026. MANDATE: // virtmcu-allow: unsafe_in_peripheral reasoning=\"<reason>\".";

/// The rule `unsafe_in_peripheral`.
pub open spec fn unsafe_in_peripheral_rule() -> RuleView {
    RuleView {
        name: "unsafe_in_peripheral"@,
        pattern: UNSAFE_IN_PERIPHERAL_PATTERN@,
        message: UNSAFE_IN_PERIPHERAL_MESSAGE@,
        fix: UNSAFE_IN_PERIPHERAL_FIX@,
        inc_dirs: seq!["hw/rust/buses"@, "hw/rust/physics"@, "hw/rust/mcu"@, "hw/rust/examples"@, "hw/rust/observability"@, "hw/rust/bridges"@],
        exc_list: seq!["hw/rust/observability/telemetry"@, "hw/rust/observability/tcg-tracer"@, "hw/rust/bridges/mmio-socket-bridge"@, "hw/rust/bridges/remote-port"@, "hw/rust/bridges/uart"@, "hw/rust/buses/ieee802154"@, "hw/rust/buses/flexray"@, "hw/rust/buses/ethernet"@],
        may_be_suppressed: true,
    }
}

fn make_unsafe_in_peripheral_rule() -> (r: Rule)
    ensures
        r@ == unsafe_in_peripheral_rule(),
{
    let r = Rule {
        name: "unsafe_in_peripheral",
        pattern: UNSAFE_IN_PERIPHERAL_PATTERN,
        message: UNSAFE_IN_PERIPHERAL_MESSAGE,
        fix: UNSAFE_IN_PERIPHERAL_FIX,
        inc_dirs: vec!["hw/rust/buses", "hw/rust/physics", "hw/rust/mcu", "hw/rust/examples", "hw/rust/observability", "hw/rust/bridges"],
        exc_list: vec!["hw/rust/observability/telemetry", "hw/rust/observability/tcg-tracer", "hw/rust/bridges/mmio-socket-bridge", "hw/rust/bridges/remote-port", "hw/rust/bridges/uart", "hw/rust/buses/ieee802154", "hw/rust/buses/flexray", "hw/rust/buses/ethernet"],
        may_be_suppressed: true,
    };
    proof {
        assert(r@.inc_dirs =~= unsafe_in_peripheral_rule().inc_dirs);
        assert(r@.exc_list =~= unsafe_in_peripheral_rule().exc_list);
    }
    r
}

pub const CLIPPY_ALL_IN_REF_PERIPHERAL_PATTERN: &'static str = "#!\\[allow\\(clippy::all";

pub const CLIPPY_ALL_IN_REF_PERIPHERAL_MESSAGE: &'static str = "Banned #![allow(clippy::all)] in the Gold Standard reference peripheral.";

pub const CLIPPY_ALL_IN_REF_PERIPHERAL_FIX: &'static str = "Fix the underlying clippy lint instead of suppressing all of clippy. The reference peripheral must be lint-clean with only narrow suppressions (e.g. clippy::panic with virtmcu-allow) — never a blanket allow(clippy::all). This crate is the Gold Standard template; blanket suppression here corrupts every future peripheral that copies it.";

/// The rule `clippy_all_in_ref_peripheral`.
pub open spec fn clippy_all_in_ref_peripheral_rule() -> RuleView {
    RuleView {
        name: "clippy_all_in_ref_peripheral"@,
        pattern: CLIPPY_ALL_IN_REF_PERIPHERAL_PATTERN@,
        message: CLIPPY_ALL_IN_REF_PERIPHERAL_MESSAGE@,
        fix: CLIPPY_ALL_IN_REF_PERIPHERAL_FIX@,
        inc_dirs: seq!["hw/rust/examples/reference-peripheral"@],
        exc_list: Seq::empty(),
        may_be_suppressed: false,
    }
}

fn make_clippy_all_in_ref_peripheral_rule() -> (r: Rule)
    ensures
        r@ == clippy_all_in_ref_peripheral_rule(),
{
    let r = Rule {
        name: "clippy_all_in_ref_peripheral",
        pattern: CLIPPY_ALL_IN_REF_PERIPHERAL_PATTERN,
        message: CLIPPY_ALL_IN_REF_PERIPHERAL_MESSAGE,
        fix: CLIPPY_ALL_IN_REF_PERIPHERAL_FIX,
        inc_dirs: vec!["hw/rust/examples/reference-peripheral"],
        exc_list: Vec::new(),
        may_be_suppressed: false,
    };
    proof {
        assert(r@.inc_dirs =~= clippy_all_in_ref_peripheral_rule().inc_dirs);
        assert(r@.exc_list =~= clippy_all_in_ref_peripheral_rule().exc_list);
    }
    r
}

pub const DEPRECATED_CAST_IN_REF_PERIPHERAL_PATTERN: &'static str = "\\b(?:deref_qom_ptr|opaque_to_state)(?:_const)?\\s*[(:!]";

pub const DEPRECATED_CAST_IN_REF_PERIPHERAL_MESSAGE: &'static str = "Banned deprecated QOM cast in hw/rust/examples/reference-peripheral.";

pub const DEPRECATED_CAST_IN_REF_PERIPHERAL_FIX: &'static str = "Replace deref_qom_ptr / opaque_to_state with dynamic_cast_qom::<T>(ptr).expect(\"FATAL: QOM type mismatch\"). The reference peripheral is the Gold Standard template and must be fully migrated. See RFC-0041.";

/// The rule `deprecated_cast_in_ref_peripheral`.
pub open spec fn deprecated_cast_in_ref_peripheral_rule() -> RuleView {
    RuleView {
        name: "deprecated_cast_in_ref_peripheral"@,
        pattern: DEPRECATED_CAST_IN_REF_PERIPHERAL_PATTERN@,
        message: DEPRECATED_CAST_IN_REF_PERIPHERAL_MESSAGE@,
        fix: DEPRECATED_CAST_IN_REF_PERIPHERAL_FIX@,
        inc_dirs: seq!["hw/rust/examples/reference-peripheral"@],
        exc_list: Seq::empty(),
        may_be_suppressed: false,
    }
}

fn make_deprecated_cast_in_ref_peripheral_rule() -> (r: Rule)
    ensures
        r@ == deprecated_cast_in_ref_peripheral_rule(),
{
    let r = Rule {
        name: "deprecated_cast_in_ref_peripheral",
        pattern: DEPRECATED_CAST_IN_REF_PERIPHERAL_PATTERN,
        message: DEPRECATED_CAST_IN_REF_PERIPHERAL_MESSAGE,
        fix: DEPRECATED_CAST_IN_REF_PERIPHERAL_FIX,
        inc_dirs: vec!["hw/rust/examples/reference-peripheral"],
        exc_list: Vec::new(),
        may_be_suppressed: false,
    };
    proof {
        assert(r@.inc_dirs =~= deprecated_cast_in_ref_peripheral_rule().inc_dirs);
        assert(r@.exc_list =~= deprecated_cast_in_ref_peripheral_rule().exc_list);
    }
    r
}

pub const DRAIN_TOKEN_IN_REF_PERIPHERAL_PATTERN: &'static str = "\\bDrainToken\\b";

pub const DRAIN_TOKEN_IN_REF_PERIPHERAL_MESSAGE: &'static str = "Banned DrainToken in hw/rust/examples/reference-peripheral.";

pub const DRAIN_TOKEN_IN_REF_PERIPHERAL_FIX: &'static str = "Replace DrainToken with VcpuDrain. The Peripheral trait methods now receive ctx: &BqlContext — the BQL proof is separate from the drain guard. See RFC-0041 and the VcpuDrain docs.";

/// The rule `drain_token_in_ref_peripheral`.
pub open spec fn drain_token_in_ref_peripheral_rule() -> RuleView {
    RuleView {
        name: "drain_token_in_ref_peripheral"@,
        pattern: DRAIN_TOKEN_IN_REF_PERIPHERAL_PATTERN@,
        message: DRAIN_TOKEN_IN_REF_PERIPHERAL_MESSAGE@,
        fix: DRAIN_TOKEN_IN_REF_PERIPHERAL_FIX@,
        inc_dirs: seq!["hw/rust/examples/reference-peripheral"@],
        exc_list: Seq::empty(),
        may_be_suppressed: false,
    }
}

fn make_drain_token_in_ref_peripheral_rule() -> (r: Rule)
    ensures
        r@ == drain_token_in_ref_peripheral_rule(),
{
    let r = Rule {
        name: "drain_token_in_ref_peripheral",
        pattern: DRAIN_TOKEN_IN_REF_PERIPHERAL_PATTERN,
        message: DRAIN_TOKEN_IN_REF_PERIPHERAL_MESSAGE,
        fix: DRAIN_TOKEN_IN_REF_PERIPHERAL_FIX,
        inc_dirs: vec!["hw/rust/examples/reference-peripheral"],
        exc_list: Vec::new(),
        may_be_suppressed: false,
    };
    proof {
        assert(r@.inc_dirs =~= drain_token_in_ref_peripheral_rule().inc_dirs);
        assert(r@.exc_list =~= drain_token_in_ref_peripheral_rule().exc_list);
    }
    r
}

pub const EXTERN_C_TIMER_CB_PATTERN: &'static str = "extern\\s+\"C\"\\s+fn\\s+\\w+\\s*\\(\\s*\\w+\\s*:\\s*\\*mut\\s+(?:core::ffi::)?c_void\\s*\\)";

pub const EXTERN_C_TIMER_CB_MESSAGE: &'static str = "Banned extern \"C\" timer callback in peripheral code.";

pub const EXTERN_C_TIMER_CB_FIX: &'static str = "Replace with ClosureTimer::new(clock_type, move |ctx| { ... }). The closure receives &BqlContext automatically; opaque pointer recovery (opaque_to_state) is no longer needed. See RFC-0041 Tier 2 and P0.3. MANDATE: // virtmcu-allow: extern_c_timer_cb reasoning=\"<reason>\".";

/// The rule `extern_c_timer_cb`.
pub open spec fn extern_c_timer_cb_rule() -> RuleView {
    RuleView {
        name: "extern_c_timer_cb"@,
        pattern: EXTERN_C_TIMER_CB_PATTERN@,
        message: EXTERN_C_TIMER_CB_MESSAGE@,
        fix: EXTERN_C_TIMER_CB_FIX@,
        inc_dirs: seq!["hw/rust/buses"@, "hw/rust/observability"@, "hw/rust/mcu"@],
        exc_list: Seq::empty(),
        may_be_suppressed: true,
    }
}

fn make_extern_c_timer_cb_rule() -> (r: Rule)
    ensures
        r@ == extern_c_timer_cb_rule(),
{
    let r = Rule {
        name: "extern_c_timer_cb",
        pattern: EXTERN_C_TIMER_CB_PATTERN,
        message: EXTERN_C_TIMER_CB_MESSAGE,
        fix: EXTERN_C_TIMER_CB_FIX,
        inc_dirs: vec!["hw/rust/buses", "hw/rust/observability", "hw/rust/mcu"],
        exc_list: Vec::new(),
        may_be_suppressed: true,
    };
    proof {
        assert(r@.inc_dirs =~= extern_c_timer_cb_rule().inc_dirs);
        assert(r@.exc_list =~= extern_c_timer_cb_rule().exc_list);
    }
    r
}

/// All rules.
pub open spec fn rule_table() -> Seq<RuleView> {
    seq![
        sleep_rule(),
        mutex_rule(),
        bql_rule(),
        no_std_rule(),
        ne_bytes_rule(),
        rng_rule(),
        yield_rule(),
        allow_rule(),
        unwrap_or_fallback_rule(),
        warn_macro_rule(),
        test_sleep_rule(),
        test_hardcoded_path_rule(),
        test_hardcoded_port_rule(),
        test_declare_subscriber_rule(),
        env_in_peripheral_rule(),
        topic_qom_property_rule(),
        new_unchecked_in_peripheral_rule(),
        unsafe_in_peripheral_rule(),
        clippy_all_in_ref_peripheral_rule(),
        deprecated_cast_in_ref_peripheral_rule(),
        drain_token_in_ref_peripheral_rule(),
        extern_c_timer_cb_rule(),
    ]
}

/// All rules.
pub fn rules() -> (r: Vec<Rule>)
    ensures
        sorting::views(r@) == rule_table(),
{
    let r = vec![
        make_sleep_rule(),
        make_mutex_rule(),
        make_bql_rule(),
        make_no_std_rule(),
        make_ne_bytes_rule(),
        make_rng_rule(),
        make_yield_rule(),
        make_allow_rule(),
        make_unwrap_or_fallback_rule(),
        make_warn_macro_rule(),
        make_test_sleep_rule(),
        make_test_hardcoded_path_rule(),
        make_test_hardcoded_port_rule(),
        make_test_declare_subscriber_rule(),
        make_env_in_peripheral_rule(),
        make_topic_qom_property_rule(),
        make_new_unchecked_in_peripheral_rule(),
        make_unsafe_in_peripheral_rule(),
        make_clippy_all_in_ref_peripheral_rule(),
        make_deprecated_cast_in_ref_peripheral_rule(),
        make_drain_token_in_ref_peripheral_rule(),
        make_extern_c_timer_cb_rule(),
    ];
    proof {
        assert(sorting::views(r@) =~= rule_table());
    }
    r
}

} // verus!
