//! A running set of nodes: advancing their clocks and waiting for what they print.
use vstd::prelude::*;

use crate::sorting;
use crate::text;
use crate::text::{contains_text, decimal_text, join_text, joined2, joined4, owned};

verus! {

/// How often a socket is looked for, and the pause after each look in milliseconds.
pub const SOCKET_TRIES: u32 = 100;

pub const SOCKET_PAUSE_MS: u64 = 100;

/// How often a clock is asked for its status, and the pause after each question in milliseconds.
pub const CLOCK_TRIES: u32 = 50;

pub const CLOCK_PAUSE_MS: u64 = 200;

/// How often a file is looked for, and the pause after each look in milliseconds.
pub const FILE_TRIES: u32 = 50;

pub const FILE_PAUSE_MS: u64 = 100;

/// What one who waits for something does next.
#[derive(Debug, Clone, Copy, PartialEq, Eq, Structural)]
pub enum Attempt {
    /// It is there.
    Done,
    /// Pause and look again.
    Again,
    /// It did not come in time.
    GiveUp,
}

/// What to do after `tried` looks that found nothing, when `ready` says what the next one found.
pub fn next_attempt(tried: u32, limit: u32, ready: bool) -> (r: Attempt)
    ensures
        r == if ready {
            Attempt::Done
        } else if tried < limit {
            Attempt::Again
        } else {
            Attempt::GiveUp
        },
{
    if ready {
        Attempt::Done
    } else if tried < limit {
        Attempt::Again
    } else {
        Attempt::GiveUp
    }
}

/// Why a clock did not advance.
#[derive(Debug, Clone, PartialEq, Eq)]
pub enum ClockError {
    /// There is no way to reach the node's clock.
    NoTransport(usize),
    /// The clock answered with an error.
    Code(u32),
    /// The clock did not answer in time.
    Timeout(usize),
}

impl ClockError {
    /// What is said of the error.
    pub open spec fn text(self) -> Seq<char> {
        match self {
            ClockError::NoTransport(n) => "No clock transport for node "@ + text::decimal(n as nat),
            ClockError::Code(c) => "Clock error code: "@ + text::decimal(c as nat),
            ClockError::Timeout(n) => "Clock timeout on node "@ + text::decimal(n as nat),
        }
    }

    /// What is said of the error.
    pub fn message(&self) -> (r: String)
        ensures
            r@ == self.text(),
    {
        match self {
            ClockError::NoTransport(n) => joined2(
                "No clock transport for node ",
                decimal_text(*n as u64).as_str(),
            ),
            ClockError::Code(c) => joined2(
                "Clock error code: ",
                decimal_text(*c as u64).as_str(),
            ),
            ClockError::Timeout(n) => joined2(
                "Clock timeout on node ",
                decimal_text(*n as u64).as_str(),
            ),
        }
    }
}

/// Asks the clock of a node to advance.
pub trait ClockCoordinator {
    fn step_clock(&self, node_id: usize, step_ns: u64, current_vtime: u64, quantum: u64) -> Result<
        (),
        ClockError,
    >;
}

/// Clocks that need no asking.
#[derive(Debug, Clone, Copy, PartialEq, Eq, Default)]
pub struct DummyClockCoordinator;

impl ClockCoordinator for DummyClockCoordinator {
    fn step_clock(&self, node_id: usize, step_ns: u64, current_vtime: u64, quantum: u64) -> (r:
        Result<(), ClockError>)
        ensures
            r == Ok::<(), ClockError>(()),
    {
        Ok(())
    }
}

/// What the answer of a clock says: the code that it sent, or nothing where it did not answer.
pub fn clock_answer(node: usize, code: Option<u32>) -> (r: Result<(), ClockError>)
    ensures
        r == match code {
            Some(0) => Ok::<(), ClockError>(()),
            Some(c) => Err::<(), ClockError>(ClockError::Code(c)),
            None => Err::<(), ClockError>(ClockError::Timeout(node)),
        },
{
    match code {
        Some(c) => {
            if c == 0 {
                Ok(())
            } else {
                Err(ClockError::Code(c))
            }
        },
        None => Err(ClockError::Timeout(node)),
    }
}

/// One step of all clocks: by how much, to what time, and which quantum it is.
#[derive(Debug, Clone, Copy, PartialEq, Eq, Structural)]
pub struct ClockStep {
    pub advance: u64,
    pub vtime: u64,
    pub quantum: u64,
}

/// The clocks of a set of nodes.
#[derive(Debug, Clone, PartialEq, Eq)]
pub struct EnvClock {
    /// Which nodes follow the common clock.
    pub is_coordinated: Vec<bool>,
    pub current_vtime: u64,
    pub current_quantum: u64,
}

#[verifier::ext_equal]
pub struct EnvClockView {
    pub is_coordinated: Seq<bool>,
    pub current_vtime: u64,
    pub current_quantum: u64,
}

impl View for EnvClock {
    type V = EnvClockView;

    open spec fn view(&self) -> EnvClockView {
        EnvClockView {
            is_coordinated: self.is_coordinated@,
            current_vtime: self.current_vtime,
            current_quantum: self.current_quantum,
        }
    }
}

/// The nodes among the first `n` that follow the common clock.
pub open spec fn followers_of(flags: Seq<bool>, n: int) -> Seq<usize>
    decreases n,
{
    if n <= 0 || n > flags.len() {
        Seq::empty()
    } else if flags[n - 1] {
        followers_of(flags, n - 1).push((n - 1) as usize)
    } else {
        followers_of(flags, n - 1)
    }
}

/// By how much a step advances: by `step_ns`, or by what is left.
pub open spec fn step_size(total_ns: u64, advanced: u64, step_ns: u64) -> u64 {
    if step_ns <= total_ns - advanced {
        step_ns
    } else {
        (total_ns - advanced) as u64
    }
}

/// The steps by which the clocks advance from `advanced` to `total_ns`.
pub open spec fn steps_of(
    total_ns: u64,
    step_ns: u64,
    advanced: u64,
    vtime: u64,
    quantum: u64,
) -> Seq<ClockStep>
    decreases total_ns - advanced,
{
    if step_ns == 0 || advanced >= total_ns {
        Seq::empty()
    } else {
        let by = step_size(total_ns, advanced, step_ns);
        seq![ClockStep { advance: by, vtime: (vtime + by) as u64, quantum }] + steps_of(
            total_ns,
            step_ns,
            (advanced + by) as u64,
            (vtime + by) as u64,
            (quantum + 1) as u64,
        )
    }
}

/// Steps of `step_ns` lead exactly to the wanted time: no step is longer than asked, each has its
/// own quantum, and the last one ends `total_ns` after the start.
pub proof fn law_steps_reach_total(
    total_ns: u64,
    step_ns: u64,
    advanced: u64,
    vtime: u64,
    quantum: u64,
)
    requires
        step_ns > 0,
        advanced < total_ns,
        vtime + (total_ns - advanced) <= u64::MAX,
        quantum + (total_ns - advanced) <= u64::MAX,
    ensures
        ({
            let steps = steps_of(total_ns, step_ns, advanced, vtime, quantum);
            &&& 0 < steps.len() <= total_ns - advanced
            &&& steps.last().vtime == vtime + (total_ns - advanced)
            &&& forall|i: int|
                0 <= i < steps.len() ==> (#[trigger] steps[i]).quantum == quantum + i && 0
                    < steps[i].advance <= step_ns
        }),
    decreases total_ns - advanced,
{
    let by = step_size(total_ns, advanced, step_ns);
    let rest = steps_of(
        total_ns,
        step_ns,
        (advanced + by) as u64,
        (vtime + by) as u64,
        (quantum + 1) as u64,
    );
    let steps = steps_of(total_ns, step_ns, advanced, vtime, quantum);
    assert(steps.len() == rest.len() + 1);
    assert forall|i: int| 0 < i < steps.len() implies steps[i] == #[trigger] rest[i - 1] by {
    }
    if advanced + by < total_ns {
        law_steps_reach_total(
            total_ns,
            step_ns,
            (advanced + by) as u64,
            (vtime + by) as u64,
            (quantum + 1) as u64,
        );
        assert(steps.last() == rest.last());
        assert forall|i: int| 0 <= i < steps.len() implies (#[trigger] steps[i]).quantum == quantum
            + i && 0 < steps[i].advance <= step_ns by {
            if i > 0 {
                assert(steps[i] == rest[i - 1]);
            }
        }
    } else {
        assert(rest.len() == 0);
        assert(steps.last() == steps[0]);
    }
}

impl EnvClock {
    /// The clocks at the start.
    pub fn new(is_coordinated: Vec<bool>) -> (r: Self)
        ensures
            r@ == (EnvClockView {
                is_coordinated: is_coordinated@,
                current_vtime: 0,
                current_quantum: 0,
            }),
    {
        EnvClock { is_coordinated, current_vtime: 0, current_quantum: 0 }
    }

    /// The time that the clocks show.
    pub fn vtime(&self) -> (r: u64)
        ensures
            r == self@.current_vtime,
    {
        self.current_vtime
    }

    /// The nodes that follow the common clock.
    pub fn followers(&self) -> (r: Vec<usize>)
        ensures
            r@ == followers_of(self@.is_coordinated, self@.is_coordinated.len() as int),
    {
        let mut r: Vec<usize> = Vec::new();
        let mut i: usize = 0;
        while i < self.is_coordinated.len()
            invariant
                i <= self.is_coordinated@.len(),
                r@ == followers_of(self.is_coordinated@, i as int),
            decreases self.is_coordinated@.len() - i,
        {
            if self.is_coordinated[i] {
                r.push(i);
            }
            i += 1;
        }
        r
    }

    /// Whether any node follows the common clock.
    pub fn any_follower(&self) -> (r: bool)
        ensures
            r == self@.is_coordinated.contains(true),
    {
        let mut i: usize = 0;
        while i < self.is_coordinated.len()
            invariant
                i <= self.is_coordinated@.len(),
                forall|k: int| 0 <= k < i ==> self.is_coordinated@[k] != true,
            decreases self.is_coordinated@.len() - i,
        {
            if self.is_coordinated[i] {
                return true;
            }
            i += 1;
        }
        false
    }

    /// Starts the next step on the way from `advanced` to `total_ns`; `None` where the way is done.
    /// The quantum goes up once the step is done.
    pub fn next_step(&mut self, total_ns: u64, step_ns: u64, advanced: u64) -> (r: Option<
        ClockStep,
    >)
        requires
            advanced < total_ns ==> old(self)@.current_vtime + step_size(
                total_ns,
                advanced,
                step_ns,
            ) <= u64::MAX,
        ensures
            match r {
                Some(step) => advanced < total_ns && ({
                    let by = step_size(total_ns, advanced, step_ns);
                    &&& step == (ClockStep {
                        advance: by,
                        vtime: (old(self)@.current_vtime + by) as u64,
                        quantum: old(self)@.current_quantum,
                    })
                    &&& final(self)@ == (EnvClockView { current_vtime: step.vtime, ..old(self)@ })
                }),
                None => advanced >= total_ns && final(self)@ == old(self)@,
            },
    {
        if advanced >= total_ns {
            return None;
        }
        let left: u64 = total_ns - advanced;
        let by: u64 = if step_ns <= left {
            step_ns
        } else {
            left
        };
        self.current_vtime = self.current_vtime + by;
        Some(ClockStep { advance: by, vtime: self.current_vtime, quantum: self.current_quantum })
    }

    /// Ends a step.
    pub fn end_step(&mut self)
        requires
            old(self)@.current_quantum < u64::MAX,
        ensures
            final(self)@ == (EnvClockView {
                current_quantum: (old(self)@.current_quantum + 1) as u64,
                ..old(self)@
            }),
    {
        self.current_quantum = self.current_quantum + 1;
    }
}

/// By how much the clocks advance between two looks at what a node printed.
pub const WAIT_STEP_NS: u64 = 50_000_000;

/// What happened while a node's output was waited for.
#[derive(Debug, Clone, PartialEq, Eq)]
pub enum WaitEvent {
    /// The time is up.
    TimedOut,
    /// A node's process ended; the text says how.
    Died(usize, String),
    /// The node printed something.
    Chunk(String),
    /// The node printed nothing.
    Nothing,
    /// The node's output ended.
    Ended,
    /// The node's output could not be read; the text says why.
    Unreadable(String),
}

/// How waiting goes on.
#[derive(Debug, Clone, PartialEq, Eq)]
pub enum WaitOutcome {
    /// What was waited for is there.
    Found,
    /// It is not there yet.
    Waiting,
    /// It will not come; the message names the node whose last lines belong to it, if any.
    Failed(Option<usize>, String),
}

pub enum WaitOutcomeView {
    Found,
    Waiting,
    Failed(Option<usize>, Seq<char>),
}

impl View for WaitOutcome {
    type V = WaitOutcomeView;

    open spec fn view(&self) -> WaitOutcomeView {
        match self {
            WaitOutcome::Found => WaitOutcomeView::Found,
            WaitOutcome::Waiting => WaitOutcomeView::Waiting,
            WaitOutcome::Failed(n, s) => WaitOutcomeView::Failed(*n, s@),
        }
    }
}

/// What a node has printed once an event has happened.
pub open spec fn printed_after(buffer: Seq<char>, event: WaitEvent) -> Seq<char> {
    match event {
        WaitEvent::Chunk(s) => buffer + s@,
        _ => buffer,
    }
}

/// How waiting for `pattern` in the output of `node` goes on once an event has happened.
pub open spec fn wait_outcome(
    buffer: Seq<char>,
    pattern: Seq<char>,
    node: usize,
    event: WaitEvent,
) -> WaitOutcomeView {
    match event {
        WaitEvent::TimedOut => WaitOutcomeView::Failed(
            None,
            "Timed out waiting for "@ + pattern + ". Buffer: "@ + buffer,
        ),
        WaitEvent::Died(other, status) => WaitOutcomeView::Failed(
            Some(other),
            "QEMU process died unexpectedly with status: "@ + status@,
        ),
        WaitEvent::Chunk(s) => if text::occurs(buffer + s@, pattern) {
            WaitOutcomeView::Found
        } else {
            WaitOutcomeView::Waiting
        },
        WaitEvent::Nothing => WaitOutcomeView::Waiting,
        WaitEvent::Ended => WaitOutcomeView::Failed(Some(node), "UART socket reached EOF"@),
        WaitEvent::Unreadable(e) => WaitOutcomeView::Failed(
            Some(node),
            "UART read failed: "@ + e@,
        ),
    }
}

/// Takes note of an event, and tells how waiting goes on.
pub fn on_wait_event(buffer: &mut String, pattern: &str, node: usize, event: &WaitEvent) -> (r:
    WaitOutcome)
    ensures
        final(buffer)@ == printed_after(old(buffer)@, *event),
        r@ == wait_outcome(old(buffer)@, pattern@, node, *event),
{
    match event {
        WaitEvent::TimedOut => WaitOutcome::Failed(
            None,
            joined4("Timed out waiting for ", pattern, ". Buffer: ", buffer.as_str()),
        ),
        WaitEvent::Died(other, status) => WaitOutcome::Failed(
            Some(*other),
            joined2("QEMU process died unexpectedly with status: ", status.as_str()),
        ),
        WaitEvent::Chunk(s) => {
            let longer = joined2(buffer.as_str(), s.as_str());
            *buffer = longer;
            if contains_text(buffer.as_str(), pattern) {
                WaitOutcome::Found
            } else {
                WaitOutcome::Waiting
            }
        },
        WaitEvent::Nothing => WaitOutcome::Waiting,
        WaitEvent::Ended => WaitOutcome::Failed(Some(node), owned("UART socket reached EOF")),
        WaitEvent::Unreadable(e) => WaitOutcome::Failed(
            Some(node),
            joined2("UART read failed: ", e.as_str()),
        ),
    }
}

/// What has been printed is never lost, and what was found in it stays found.
pub proof fn law_found_stays_found(buffer: Seq<char>, pattern: Seq<char>, event: WaitEvent)
    requires
        text::occurs(buffer, pattern),
    ensures
        text::occurs(printed_after(buffer, event), pattern),
{
    let i = choose|i: int| text::stands_at(buffer, pattern, i);
    let longer = printed_after(buffer, event);
    assert(longer.subrange(i, i + pattern.len()) =~= buffer.subrange(i, i + pattern.len()));
    assert(text::stands_at(longer, pattern, i));
}

/// A message with the last lines that a node printed to its error output.
pub fn format_qemu_error(message: &str, node: usize, lines: &Vec<String>) -> (r: String)
    ensures
        r@ == message@ + " [Node "@ + text::decimal(node as nat) + " Stderr]:\n"@ + text::join_seq(
            sorting::views(lines@),
            "\n"@,
        ),
{
    let all = join_text(lines, lines.len(), "\n");
    proof {
        assert(sorting::views(lines@).take(lines@.len() as int) =~= sorting::views(lines@));
    }
    joined2(
        joined4(message, " [Node ", decimal_text(node as u64).as_str(), " Stderr]:\n").as_str(),
        all.as_str(),
    )
}

/// The groups of processes that are ended with a test, as they are named to the system: groups 0
/// and 1 and below are never touched.
pub open spec fn groups_to_end(pgids: Seq<Option<i32>>, n: int) -> Seq<i32>
    decreases n,
{
    if n <= 0 || n > pgids.len() {
        Seq::empty()
    } else {
        let front = groups_to_end(pgids, n - 1);
        match pgids[n - 1] {
            Some(p) => if p > 1 {
                front.push((-p) as i32)
            } else {
                front
            },
            None => front,
        }
    }
}

/// The groups of processes that are ended with a test.
pub fn process_groups_to_end(pgids: &Vec<Option<i32>>) -> (r: Vec<i32>)
    ensures
        r@ == groups_to_end(pgids@, pgids@.len() as int),
{
    let mut r: Vec<i32> = Vec::new();
    let mut i: usize = 0;
    while i < pgids.len()
        invariant
            i <= pgids@.len(),
            r@ == groups_to_end(pgids@, i as int),
        decreases pgids@.len() - i,
    {
        match pgids[i] {
            Some(p) => {
                if p > 1 {
                    r.push(-p);
                }
            },
            None => {},
        }
        i += 1;
    }
    r
}

} // verus!
