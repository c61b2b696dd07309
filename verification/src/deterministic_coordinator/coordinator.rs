//! The coordinator as a state machine: nodes join, links register, quanta are released.
use std::collections::{HashMap, HashSet};

use vstd::prelude::*;

use crate::coordination;
use crate::coordination::{
    abort_with, all_flags_set, list_expected_pairs, no_actions, partition_due, remove_pair,
    route_released, ActionView, ConfigView, EventView, LookaheadView, Outcome, PendingMessage,
    PendingView, PhaseView,
};
pub use crate::coordination::{
    CoordinatorAction, CoordinatorConfig, CoordinatorEvent, LinkConfig, LinkTable,
};
use crate::deterministic_coordinator::barrier;
use crate::deterministic_coordinator::barrier::{clear_flags, within_limit};
use crate::sorting;
use crate::sorting::sort_stable;
use crate::text;
use crate::text::{push_decimal, push_text, string_of};

verus! {

broadcast use vstd::std_specs::hash::group_hash_axioms;

/// Why the barrier refused a submission.
#[derive(Debug, Clone, Copy, PartialEq, Eq, Structural)]
pub enum BarrierError {
    DuplicateDone,
    NodeIndexOutOfBounds(u32),
    QuantumMismatch { expected: u64, got: u64 },
}

/// The text of a barrier error.
pub open spec fn barrier_error_text(e: BarrierError) -> Seq<char> {
    match e {
        BarrierError::DuplicateDone => "DuplicateDone"@,
        BarrierError::NodeIndexOutOfBounds(node_id) => "NodeIndexOutOfBounds("@
            + text::decimal(node_id as nat) + ")"@,
        BarrierError::QuantumMismatch { expected, got } => "QuantumMismatch { expected: "@
            + text::decimal(expected as nat) + ", got: "@ + text::decimal(got as nat)
            + " }"@,
    }
}

fn push_barrier_error(out: &mut Vec<char>, e: &BarrierError)
    ensures
        final(out)@ == old(out)@ + barrier_error_text(*e),
{
    match e {
        BarrierError::DuplicateDone => {
            push_text(out, "DuplicateDone");
        },
        BarrierError::NodeIndexOutOfBounds(node_id) => {
            push_text(out, "NodeIndexOutOfBounds(");
            push_decimal(out, *node_id as u64);
            push_text(out, ")");
            proof {
                assert(out@ =~= old(out)@ + barrier_error_text(*e));
            }
        },
        BarrierError::QuantumMismatch { expected, got } => {
            push_text(out, "QuantumMismatch { expected: ");
            push_decimal(out, *expected);
            push_text(out, ", got: ");
            push_decimal(out, *got);
            push_text(out, " }");
            proof {
                assert(out@ =~= old(out)@ + barrier_error_text(*e));
            }
        },
    }
}

/// A barrier over the current quantum that also takes submissions for the next one.
pub struct BarrierState {
    n_nodes: usize,
    max_messages_per_node: usize,
    current_quantum: u64,
    done_nodes: Vec<bool>,
    message_buffer: Vec<PendingMessage>,
    next_quantum_done_nodes: Vec<bool>,
    next_quantum_buffer: Vec<PendingMessage>,
}

impl View for BarrierState {
    type V = LookaheadView;

    closed spec fn view(&self) -> LookaheadView {
        LookaheadView {
            limit: self.max_messages_per_node as nat,
            current: self.current_quantum,
            done: self.done_nodes@,
            buffer: sorting::views(self.message_buffer@),
            next_done: self.next_quantum_done_nodes@,
            next_buffer: sorting::views(self.next_quantum_buffer@),
        }
    }
}

pub type SubmitResult = Result<Option<Seq<PendingView>>, BarrierError>;

/// What a submission comes to: the barrier after it, and what is released.
pub open spec fn submitted(
    b: LookaheadView,
    node_id: u32,
    quantum: u64,
    messages: Seq<PendingView>,
) -> (LookaheadView, SubmitResult) {
    let admitted = barrier::admitted(messages, b.limit);
    if quantum < b.current {
        (b, Ok(None))
    } else if node_id >= b.done.len() {
        (b, Err(BarrierError::NodeIndexOutOfBounds(node_id)))
    } else if quantum > b.current + 1 {
        (b, Err(BarrierError::QuantumMismatch { expected: b.current, got: quantum }))
    } else if quantum == b.current + 1 {
        if b.next_done[node_id as int] {
            (b, Err(BarrierError::DuplicateDone))
        } else {
            (
                LookaheadView {
                    next_done: b.next_done.update(node_id as int, true),
                    next_buffer: b.next_buffer + admitted,
                    ..b
                },
                Ok(None),
            )
        }
    } else if b.done[node_id as int] {
        (b, Err(BarrierError::DuplicateDone))
    } else {
        let after = LookaheadView {
            done: b.done.update(node_id as int, true),
            buffer: b.buffer + admitted,
            ..b
        };
        if barrier::all_set(after.done) {
            (coordination::promoted(after), Ok(Some(sorting::stable_sort(after.buffer))))
        } else {
            (after, Ok(None))
        }
    }
}

pub open spec fn same_result(r: Result<Option<Vec<PendingMessage>>, BarrierError>, s: SubmitResult) -> bool {
    match (r, s) {
        (Ok(Some(released)), Ok(Some(expected))) => sorting::views(released@) == expected,
        (Ok(None), Ok(None)) => true,
        (Err(e), Err(f)) => e == f,
        _ => false,
    }
}

impl BarrierState {
    /// There is one flag of each kind for each node.
    pub closed spec fn wf(&self) -> bool {
        &&& self.done_nodes@.len() == self.n_nodes
        &&& self.next_quantum_done_nodes@.len() == self.n_nodes
    }

    pub fn new(n_nodes: usize, max_messages_per_node: usize) -> (b: Self)
        ensures
            b.wf(),
            b@ == coordination::first_barrier(n_nodes as nat, max_messages_per_node as nat),
    {
        let b = BarrierState {
            n_nodes,
            max_messages_per_node,
            current_quantum: 0,
            done_nodes: clear_flags(n_nodes),
            message_buffer: Vec::new(),
            next_quantum_done_nodes: clear_flags(n_nodes),
            next_quantum_buffer: Vec::new(),
        };
        proof {
            assert(b@ =~= coordination::first_barrier(n_nodes as nat, max_messages_per_node as nat));
        }
        b
    }

    /// The quantum that is open.
    pub fn quantum(&self) -> (q: u64)
        ensures
            q == self@.current,
    {
        self.current_quantum
    }

    /// Takes what a node has sent in a quantum.
    pub fn submit_done(&mut self, node_id: u32, quantum: u64, messages: Vec<PendingMessage>) -> (r:
        Result<Option<Vec<PendingMessage>>, BarrierError>)
        requires
            old(self).wf(),
            old(self)@.current < u64::MAX,
        ensures
            final(self).wf(),
            final(self)@ == submitted(old(self)@, node_id, quantum, sorting::views(messages@)).0,
            same_result(r, submitted(old(self)@, node_id, quantum, sorting::views(messages@)).1),
    {
        let ghost before = self@;
        let ghost sent = sorting::views(messages@);
        let current: u64 = self.current_quantum;
        if quantum < current {
            return Ok(None);
        }
        if node_id as usize >= self.n_nodes {
            return Err(BarrierError::NodeIndexOutOfBounds(node_id));
        }
        if quantum > current + 1 {
            return Err(BarrierError::QuantumMismatch { expected: current, got: quantum });
        }
        let index: usize = node_id as usize;
        if quantum == current + 1 {
            if self.next_quantum_done_nodes[index] {
                return Err(BarrierError::DuplicateDone);
            }
            self.next_quantum_done_nodes[index] = true;
            let mut taken = within_limit(messages, self.max_messages_per_node);
            let ghost taken_view = sorting::views(taken@);
            self.next_quantum_buffer.append(&mut taken);
            proof {
                assert(self@.next_buffer =~= before.next_buffer + taken_view);
                assert(self@ =~= submitted(before, node_id, quantum, sent).0);
            }
            return Ok(None);
        }
        if self.done_nodes[index] {
            return Err(BarrierError::DuplicateDone);
        }
        self.done_nodes[index] = true;
        let mut taken = within_limit(messages, self.max_messages_per_node);
        let ghost taken_view = sorting::views(taken@);
        self.message_buffer.append(&mut taken);
        proof {
            assert(self@.buffer =~= before.buffer + taken_view);
        }
        if !all_flags_set(&self.done_nodes) {
            proof {
                assert(self@ =~= submitted(before, node_id, quantum, sent).0);
            }
            return Ok(None);
        }
        let mut released: Vec<PendingMessage> = Vec::new();
        std::mem::swap(&mut released, &mut self.message_buffer);
        let released = sort_stable(released);
        self.current_quantum = current + 1;
        std::mem::swap(&mut self.message_buffer, &mut self.next_quantum_buffer);
        std::mem::swap(&mut self.done_nodes, &mut self.next_quantum_done_nodes);
        self.next_quantum_done_nodes = clear_flags(self.n_nodes);
        proof {
            assert(self@.next_buffer =~= Seq::empty());
            assert(self@ =~= submitted(before, node_id, quantum, sent).0);
        }
        Ok(Some(released))
    }
}

/// The phases of a run.
enum Phase {
    AwaitingNodes {
        joined: HashSet<u32>,
        /// Registrations that came before all nodes had joined.
        buffered_link_regs: Vec<(u32, String)>,
    },
    AwaitingLinks {
        /// What has still to register.
        remaining: Vec<(u32, String)>,
    },
    Simulation {
        barrier: BarrierState,
        /// What each node has sent and not yet handed in.
        node_batches: HashMap<u32, Vec<PendingMessage>>,
    },
}

impl View for Phase {
    type V = PhaseView;

    closed spec fn view(&self) -> PhaseView {
        match self {
            Phase::AwaitingNodes { joined, buffered_link_regs } => PhaseView::AwaitingNodes {
                joined: joined@,
                buffered: coordination::reg_views(buffered_link_regs@),
            },
            Phase::AwaitingLinks { remaining } => PhaseView::AwaitingLinks {
                remaining: coordination::pair_set(remaining@),
            },
            Phase::Simulation { barrier, node_batches } => PhaseView::Simulation {
                barrier: barrier@,
                batches: coordination::batch_views(node_batches@),
            },
        }
    }
}

/// The coordinator.
pub struct CoordinatorState {
    config: CoordinatorConfig,
    phase: Phase,
}

#[verifier::ext_equal]
pub struct CoordinatorView {
    pub config: ConfigView,
    pub phase: PhaseView,
}

pub open spec fn simulation_start(config: ConfigView) -> PhaseView {
    PhaseView::Simulation {
        barrier: coordination::first_barrier(config.expected_nodes, config.limit),
        batches: Map::empty(),
    }
}

pub open spec fn disconnected_reason(node_id: u32) -> Seq<char> {
    "node "@ + text::decimal(node_id as nat) + " disconnected"@
}

pub open spec fn unknown_link_reason(node_id: u32, name: Seq<char>) -> Seq<char> {
    "node "@ + text::decimal(node_id as nat) + " registered unknown link '"@ + name + "'"@
}

pub open spec fn early_done_reason(node_id: u32) -> Seq<char> {
    "QuantumDone from node "@ + text::decimal(node_id as nat)
        + " received outside Simulation phase"@
}

pub open spec fn early_message_reason(node_id: u32) -> Seq<char> {
    "SimulationMessage from node "@ + text::decimal(node_id as nat)
        + " received outside Simulation phase"@
}

pub open spec fn barrier_reason(node_id: u32, e: BarrierError) -> Seq<char> {
    "barrier error for node "@ + text::decimal(node_id as nat) + ": "@ + barrier_error_text(
        e,
    )
}

/// A registration once all nodes have joined: it is acknowledged if the link is known, and the
/// last one that was expected starts the simulation.
pub open spec fn registered(
    config: ConfigView,
    phase: PhaseView,
    node_id: u32,
    name: Seq<char>,
) -> Outcome {
    match coordination::link_named(config.links, name) {
        None => coordination::abort(phase, unknown_link_reason(node_id, name)),
        Some(link) => {
            let ack = ActionView::SendLinkAck { node_id, link_id: link.link_id };
            match phase {
                PhaseView::AwaitingLinks { remaining } => {
                    let left = remaining.remove((node_id, name));
                    if left == Set::<(u32, Seq<char>)>::empty() {
                        Outcome {
                            phase: simulation_start(config),
                            actions: seq![
                                ack,
                                ActionView::BroadcastClockStart { release_quantum: 0 },
                            ],
                        }
                    } else {
                        Outcome {
                            phase: PhaseView::AwaitingLinks { remaining: left },
                            actions: seq![ack],
                        }
                    }
                },
                _ => Outcome { phase, actions: seq![ack] },
            }
        },
    }
}

/// Registrations one after the other.
pub open spec fn replayed(
    config: ConfigView,
    phase: PhaseView,
    regs: Seq<(u32, Seq<char>)>,
) -> Outcome
    decreases regs.len(),
{
    if regs.len() == 0 {
        Outcome { phase, actions: Seq::empty() }
    } else {
        let front = replayed(config, phase, regs.drop_last());
        let last = registered(config, front.phase, regs.last().0, regs.last().1);
        Outcome { phase: last.phase, actions: front.actions + last.actions }
    }
}

/// The batch of a node; a node that has sent nothing has an empty one.
pub open spec fn batch_of(batches: Map<u32, Seq<PendingView>>, node_id: u32) -> Seq<PendingView> {
    if batches.contains_key(node_id) {
        batches[node_id]
    } else {
        Seq::empty()
    }
}

/// The batches once `node_id` has handed in what was due by `vtime_ns`.
pub open spec fn batches_after(
    batches: Map<u32, Seq<PendingView>>,
    node_id: u32,
    vtime_ns: u64,
) -> Map<u32, Seq<PendingView>> {
    let future = coordination::not_due(batch_of(batches, node_id), vtime_ns);
    if future.len() == 0 {
        batches.remove(node_id)
    } else {
        batches.insert(node_id, future)
    }
}

/// What a submission to the barrier leads to.
pub open spec fn after_submission(
    config: ConfigView,
    phase: PhaseView,
    node_id: u32,
    result: SubmitResult,
    release_quantum: u64,
) -> Outcome {
    match result {
        Ok(Some(released)) => Outcome {
            phase,
            actions: coordination::routed(config.links, released).push(
                ActionView::BroadcastClockStart { release_quantum },
            ),
        },
        Ok(None) => Outcome { phase, actions: Seq::empty() },
        Err(e) => coordination::abort(phase, barrier_reason(node_id, e)),
    }
}

/// What an event comes to in a phase.
pub open spec fn outcome(config: ConfigView, phase: PhaseView, event: EventView) -> Outcome {
    match event {
        EventView::NodeJoined { node_id } => match phase {
            PhaseView::AwaitingNodes { joined, buffered } => {
                let now = joined.insert(node_id);
                if now.len() == config.expected_nodes {
                    replayed(
                        config,
                        PhaseView::AwaitingLinks { remaining: coordination::expected_pairs(config.links) },
                        buffered,
                    )
                } else {
                    Outcome {
                        phase: PhaseView::AwaitingNodes { joined: now, buffered },
                        actions: Seq::empty(),
                    }
                }
            },
            _ => Outcome { phase, actions: Seq::empty() },
        },
        EventView::NodeDisconnected { node_id } => coordination::abort(phase, disconnected_reason(node_id)),
        EventView::LinkRegister { node_id, link_name } => match phase {
            PhaseView::AwaitingNodes { joined, buffered } => Outcome {
                phase: PhaseView::AwaitingNodes {
                    joined,
                    buffered: buffered.push((node_id, link_name)),
                },
                actions: Seq::empty(),
            },
            _ => registered(config, phase, node_id, link_name),
        },
        EventView::QuantumDone { node_id, quantum, vtime_ns } => match phase {
            PhaseView::Simulation { barrier, batches } => {
                let due = coordination::due(batch_of(batches, node_id), vtime_ns);
                let (next, result) = submitted(barrier, node_id, quantum, due);
                after_submission(
                    config,
                    PhaseView::Simulation {
                        barrier: next,
                        batches: batches_after(batches, node_id, vtime_ns),
                    },
                    node_id,
                    result,
                    next.current,
                )
            },
            _ => coordination::abort(phase, early_done_reason(node_id)),
        },
        EventView::SimulationMessage { message } => match phase {
            PhaseView::Simulation { barrier, batches } => Outcome {
                phase: PhaseView::Simulation {
                    barrier,
                    batches: batches.insert(
                        message.src_node_id,
                        batch_of(batches, message.src_node_id).push(message),
                    ),
                },
                actions: Seq::empty(),
            },
            _ => coordination::abort(phase, early_message_reason(message.src_node_id)),
        },
    }
}

fn about_node(before: &str, node_id: u32, after: &str) -> (s: String)
    ensures
        s@ == before@ + text::decimal(node_id as nat) + after@,
{
    let mut out: Vec<char> = Vec::new();
    push_text(&mut out, before);
    push_decimal(&mut out, node_id as u64);
    push_text(&mut out, after);
    proof {
        assert(out@ =~= before@ + text::decimal(node_id as nat) + after@);
    }
    string_of(out)
}

impl View for CoordinatorState {
    type V = CoordinatorView;

    closed spec fn view(&self) -> CoordinatorView {
        CoordinatorView { config: self.config@, phase: self.phase@ }
    }
}

impl CoordinatorState {
    /// The barrier, if there is one, is well formed and as wide as there are nodes.
    pub closed spec fn wf(&self) -> bool {
        match self.phase {
            Phase::Simulation { barrier, .. } => barrier.wf() && barrier@.done.len()
                == self.config.expected_nodes,
            _ => true,
        }
    }

    /// A coordinator that waits for its first node.
    pub fn new(config: CoordinatorConfig) -> (s: Self)
        ensures
            s.wf(),
            s@.config == config@,
            s@.phase == (PhaseView::AwaitingNodes { joined: Set::empty(), buffered: Seq::empty() }),
    {
        let s = CoordinatorState {
            phase: Phase::AwaitingNodes {
                joined: HashSet::new(),
                buffered_link_regs: Vec::new(),
            },
            config,
        };
        proof {
            assert(coordination::reg_views(Seq::<(u32, String)>::empty()) =~= Seq::empty());
        }
        s
    }

    /// Whether there is a quantum after the open one.
    pub fn has_next_quantum(&self) -> (r: bool)
        ensures
            r == coordination::has_next_quantum(self@.phase),
    {
        match &self.phase {
            Phase::Simulation { barrier, .. } => barrier.quantum() < u64::MAX,
            _ => true,
        }
    }

    /// Takes an event and says what is to be done.
    pub fn apply(&mut self, event: CoordinatorEvent) -> (actions: Vec<CoordinatorAction>)
        requires
            old(self).wf(),
            coordination::has_next_quantum(old(self)@.phase),
        ensures
            final(self).wf(),
            final(self)@.config == old(self)@.config,
            final(self)@.phase == outcome(old(self)@.config, old(self)@.phase, event@).phase,
            sorting::views(actions@) == outcome(old(self)@.config, old(self)@.phase, event@).actions,
    {
        match event {
            CoordinatorEvent::NodeJoined { node_id } => self.on_node_joined(node_id),
            CoordinatorEvent::NodeDisconnected { node_id } => self.on_node_disconnected(node_id),
            CoordinatorEvent::LinkRegister { node_id, link_name } => self.on_link_register(
                node_id,
                link_name,
            ),
            CoordinatorEvent::QuantumDone { node_id, quantum, vtime_ns } => self.on_quantum_done(
                node_id,
                quantum,
                vtime_ns,
            ),
            CoordinatorEvent::SimulationMessage {
                src_node_id,
                link_id,
                delivery_vtime_ns,
                sequence_number,
                payload,
            } => self.on_simulation_message(
                PendingMessage {
                    src_node_id,
                    link_id,
                    delivery_vtime_ns,
                    sequence_number,
                    payload,
                },
            ),
        }
    }

    fn on_node_joined(&mut self, node_id: u32) -> (actions: Vec<CoordinatorAction>)
        requires
            old(self).wf(),
        ensures
            final(self).wf(),
            final(self)@.config == old(self)@.config,
            final(self)@.phase == outcome(
                old(self)@.config,
                old(self)@.phase,
                EventView::NodeJoined { node_id },
            ).phase,
            sorting::views(actions@) == outcome(
                old(self)@.config,
                old(self)@.phase,
                EventView::NodeJoined { node_id },
            ).actions,
    {
        let mut phase = Phase::AwaitingLinks { remaining: Vec::new() };
        std::mem::swap(&mut phase, &mut self.phase);
        match phase {
            Phase::AwaitingNodes { joined, buffered_link_regs } => {
                let mut joined = joined;
                joined.insert(node_id);
                if joined.len() != self.config.expected_nodes as usize {
                    self.phase = Phase::AwaitingNodes { joined, buffered_link_regs };
                    return no_actions();
                }
                self.phase = Phase::AwaitingLinks {
                    remaining: list_expected_pairs(&self.config.links),
                };
                let ghost regs = coordination::reg_views(buffered_link_regs@);
                let ghost start = self@.phase;
                let mut actions = no_actions();
                proof {
                    assert(regs.take(0) =~= Seq::empty());
                }
                for reg in it: buffered_link_regs
                    invariant
                        self.wf(),
                        self@.config == old(self)@.config,
                        regs == coordination::reg_views(it.seq()),
                        self@.phase == replayed(old(self)@.config, start, regs.take(it.index())).phase,
                        sorting::views(actions@) == replayed(
                            old(self)@.config,
                            start,
                            regs.take(it.index()),
                        ).actions,
                        !(self.phase is AwaitingNodes),
                {
                    let ghost k = it.index();
                    let ghost before = sorting::views(actions@);
                    proof {
                        assert(regs.take(k + 1).drop_last() =~= regs.take(k));
                        assert(regs.take(k + 1).last() == (reg.0, reg.1@));
                    }
                    let mut more = self.process_link_register(reg.0, reg.1);
                    let ghost more_view = sorting::views(more@);
                    actions.append(&mut more);
                    proof {
                        assert(sorting::views(actions@) =~= before + more_view);
                    }
                }
                proof {
                    assert(regs.take(regs.len() as int) =~= regs);
                }
                actions
            },
            other => {
                self.phase = other;
                no_actions()
            },
        }
    }

    /// What is to be done about a node that disconnected: whatever the phase, the simulation is
    /// aborted, and nothing else changes.
    pub fn on_node_disconnected(&mut self, node_id: u32) -> (actions: Vec<CoordinatorAction>)
        ensures
            *final(self) == *old(self),
            sorting::views(actions@) == seq![
                ActionView::AbortSimulation { reason: disconnected_reason(node_id) },
            ],
    {
        abort_with(about_node("node ", node_id, " disconnected"))
    }

    fn on_link_register(&mut self, node_id: u32, link_name: String) -> (actions: Vec<
        CoordinatorAction,
    >)
        requires
            old(self).wf(),
        ensures
            final(self).wf(),
            final(self)@.config == old(self)@.config,
            final(self)@.phase == outcome(
                old(self)@.config,
                old(self)@.phase,
                EventView::LinkRegister { node_id, link_name: link_name@ },
            ).phase,
            sorting::views(actions@) == outcome(
                old(self)@.config,
                old(self)@.phase,
                EventView::LinkRegister { node_id, link_name: link_name@ },
            ).actions,
    {
        let mut phase = Phase::AwaitingLinks { remaining: Vec::new() };
        std::mem::swap(&mut phase, &mut self.phase);
        match phase {
            Phase::AwaitingNodes { joined, buffered_link_regs } => {
                let ghost before = coordination::reg_views(buffered_link_regs@);
                let mut buffered_link_regs = buffered_link_regs;
                buffered_link_regs.push((node_id, link_name));
                proof {
                    assert(coordination::reg_views(buffered_link_regs@) =~= before.push((node_id, link_name@)));
                }
                self.phase = Phase::AwaitingNodes { joined, buffered_link_regs };
                no_actions()
            },
            other => {
                self.phase = other;
                self.process_link_register(node_id, link_name)
            },
        }
    }

    fn process_link_register(&mut self, node_id: u32, link_name: String) -> (actions: Vec<
        CoordinatorAction,
    >)
        requires
            old(self).wf(),
            !(old(self).phase is AwaitingNodes),
        ensures
            final(self).wf(),
            !(final(self).phase is AwaitingNodes),
            final(self)@.config == old(self)@.config,
            final(self)@.phase == registered(
                old(self)@.config,
                old(self)@.phase,
                node_id,
                link_name@,
            ).phase,
            sorting::views(actions@) == registered(
                old(self)@.config,
                old(self)@.phase,
                node_id,
                link_name@,
            ).actions,
    {
        let link_id: u32 = match self.config.links.get(link_name.as_str()) {
            Some(link) => link.link_id,
            None => {
                let mut out: Vec<char> = Vec::new();
                push_text(&mut out, "node ");
                push_decimal(&mut out, node_id as u64);
                push_text(&mut out, " registered unknown link '");
                push_text(&mut out, link_name.as_str());
                push_text(&mut out, "'");
                proof {
                    assert(out@ =~= unknown_link_reason(node_id, link_name@));
                }
                return abort_with(string_of(out));
            },
        };
        let mut actions: Vec<CoordinatorAction> = Vec::new();
        actions.push(CoordinatorAction::SendLinkAck { node_id, link_id });
        proof {
            assert(sorting::views(actions@) =~= seq![ActionView::SendLinkAck { node_id, link_id }]);
        }
        let mut phase = Phase::AwaitingLinks { remaining: Vec::new() };
        std::mem::swap(&mut phase, &mut self.phase);
        match phase {
            Phase::AwaitingLinks { remaining } => {
                let left = remove_pair(remaining, node_id, link_name.as_str());
                proof {
                    coordination::lemma_pair_set_empty(left@);
                }
                if left.len() == 0 {
                    self.phase = Phase::Simulation {
                        barrier: BarrierState::new(
                            self.config.expected_nodes as usize,
                            self.config.max_messages_per_node,
                        ),
                        node_batches: HashMap::new(),
                    };
                    proof {
                        assert(coordination::batch_views(Map::<u32, Vec<PendingMessage>>::empty()) =~= Map::empty());
                    }
                    actions.push(CoordinatorAction::BroadcastClockStart { release_quantum: 0 });
                    proof {
                        assert(sorting::views(actions@) =~= seq![
                            ActionView::SendLinkAck { node_id, link_id },
                            ActionView::BroadcastClockStart { release_quantum: 0 },
                        ]);
                    }
                } else {
                    self.phase = Phase::AwaitingLinks { remaining: left };
                }
            },
            other => {
                self.phase = other;
            },
        }
        actions
    }

    fn on_quantum_done(&mut self, node_id: u32, quantum: u64, vtime_ns: u64) -> (actions: Vec<
        CoordinatorAction,
    >)
        requires
            old(self).wf(),
            coordination::has_next_quantum(old(self)@.phase),
        ensures
            final(self).wf(),
            final(self)@.config == old(self)@.config,
            final(self)@.phase == outcome(
                old(self)@.config,
                old(self)@.phase,
                EventView::QuantumDone { node_id, quantum, vtime_ns },
            ).phase,
            sorting::views(actions@) == outcome(
                old(self)@.config,
                old(self)@.phase,
                EventView::QuantumDone { node_id, quantum, vtime_ns },
            ).actions,
    {
        let mut phase = Phase::AwaitingLinks { remaining: Vec::new() };
        std::mem::swap(&mut phase, &mut self.phase);
        match phase {
            Phase::Simulation { barrier, node_batches } => {
                let mut barrier = barrier;
                let mut node_batches = node_batches;
                let ghost batches = coordination::batch_views(node_batches@);
                let ghost barrier_view = barrier@;
                let pending: Vec<PendingMessage> = match node_batches.remove(&node_id) {
                    Some(batch) => batch,
                    None => Vec::new(),
                };
                proof {
                    assert(sorting::views(pending@) =~= batch_of(batches, node_id));
                    assert(coordination::batch_views(node_batches@) =~= batches.remove(node_id));
                }
                let (current_msgs, future_msgs) = partition_due(pending, vtime_ns);
                if future_msgs.len() > 0 {
                    node_batches.insert(node_id, future_msgs);
                }
                proof {
                    assert(coordination::batch_views(node_batches@) =~= batches_after(
                        batches,
                        node_id,
                        vtime_ns,
                    ));
                }
                let result = barrier.submit_done(node_id, quantum, current_msgs);
                let release_quantum: u64 = barrier.quantum();
                self.phase = Phase::Simulation { barrier, node_batches };
                match result {
                    Ok(Some(released)) => {
                        let mut actions = route_released(&self.config.links, released);
                        let ghost routes = sorting::views(actions@);
                        actions.push(CoordinatorAction::BroadcastClockStart { release_quantum });
                        proof {
                            assert(sorting::views(actions@) =~= routes.push(
                                ActionView::BroadcastClockStart { release_quantum },
                            ));
                        }
                        actions
                    },
                    Ok(None) => no_actions(),
                    Err(e) => {
                        let mut out: Vec<char> = Vec::new();
                        push_text(&mut out, "barrier error for node ");
                        push_decimal(&mut out, node_id as u64);
                        push_text(&mut out, ": ");
                        push_barrier_error(&mut out, &e);
                        proof {
                            assert(out@ =~= barrier_reason(node_id, e));
                        }
                        abort_with(string_of(out))
                    },
                }
            },
            other => {
                self.phase = other;
                abort_with(
                    about_node(
                        "QuantumDone from node ",
                        node_id,
                        " received outside Simulation phase",
                    ),
                )
            },
        }
    }

    fn on_simulation_message(&mut self, message: PendingMessage) -> (actions: Vec<
        CoordinatorAction,
    >)
        requires
            old(self).wf(),
        ensures
            final(self).wf(),
            final(self)@.config == old(self)@.config,
            final(self)@.phase == outcome(
                old(self)@.config,
                old(self)@.phase,
                EventView::SimulationMessage { message: message@ },
            ).phase,
            sorting::views(actions@) == outcome(
                old(self)@.config,
                old(self)@.phase,
                EventView::SimulationMessage { message: message@ },
            ).actions,
    {
        let mut phase = Phase::AwaitingLinks { remaining: Vec::new() };
        std::mem::swap(&mut phase, &mut self.phase);
        match phase {
            Phase::Simulation { barrier, node_batches } => {
                let mut node_batches = node_batches;
                let ghost batches = coordination::batch_views(node_batches@);
                let src_node_id: u32 = message.src_node_id;
                let mut batch: Vec<PendingMessage> = match node_batches.remove(&src_node_id) {
                    Some(batch) => batch,
                    None => Vec::new(),
                };
                proof {
                    assert(sorting::views(batch@) =~= batch_of(batches, src_node_id));
                }
                batch.push(message);
                proof {
                    assert(sorting::views(batch@) =~= batch_of(batches, src_node_id).push(message@));
                }
                node_batches.insert(src_node_id, batch);
                proof {
                    assert(coordination::batch_views(node_batches@) =~= batches.insert(
                        src_node_id,
                        batch_of(batches, src_node_id).push(message@),
                    ));
                }
                self.phase = Phase::Simulation { barrier, node_batches };
                no_actions()
            },
            other => {
                self.phase = other;
                abort_with(
                    about_node(
                        "SimulationMessage from node ",
                        message.src_node_id,
                        " received outside Simulation phase",
                    ),
                )
            },
        }
    }
}

} // verus!
