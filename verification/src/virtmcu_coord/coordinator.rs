//! The coordinator as a state machine over a fixed set of nodes.
//!
//! Only the nodes below `expected_nodes` may send or be done, and what a node hands in ahead of
//! the open quantum is kept as it is until its quantum comes.
use std::collections::{HashMap, HashSet};

use vstd::prelude::*;

use crate::coordination;
use crate::coordination::{
    abort_with, all_flags_set, list_expected_pairs, no_actions, partition_due, remove_pair,
    route_released, ActionView, ConfigView, EventView, LookaheadView, Outcome, PendingMessage,
    PendingView, PhaseView,
};
pub use crate::coordination::{
    CoordinatorAction, CoordinatorConfig, CoordinatorEvent, LinkConfig, LinkTable,
};
use crate::deterministic_coordinator::barrier;
use crate::deterministic_coordinator::barrier::{clear_flags, within_limit};
use crate::sorting;
use crate::sorting::sort_stable;
use crate::text::{joined2, owned};

verus! {

broadcast use vstd::std_specs::hash::group_hash_axioms;

/// Why the barrier refused a submission.
#[derive(Debug, Clone, Copy, PartialEq, Eq, Structural)]
pub enum BarrierError {
    NodeIndexOutOfBounds,
    QuantumMismatch,
    DuplicateDone,
}

/// The text of a barrier error.
pub open spec fn barrier_error_text(e: BarrierError) -> Seq<char> {
    match e {
        BarrierError::NodeIndexOutOfBounds => "NodeIndexOutOfBounds"@,
        BarrierError::QuantumMismatch => "QuantumMismatch"@,
        BarrierError::DuplicateDone => "DuplicateDone"@,
    }
}

fn barrier_error_name(e: &BarrierError) -> (s: &'static str)
    ensures
        s@ == barrier_error_text(*e),
{
    match e {
        BarrierError::NodeIndexOutOfBounds => "NodeIndexOutOfBounds",
        BarrierError::QuantumMismatch => "QuantumMismatch",
        BarrierError::DuplicateDone => "DuplicateDone",
    }
}

/// A barrier over the current quantum that also takes submissions for the next one.
#[derive(Debug)]
pub struct BarrierState {
    n_nodes: usize,
    max_messages_per_node: usize,
    current_quantum: u64,
    done_nodes: Vec<bool>,
    message_buffer: Vec<PendingMessage>,
    next_quantum_done_nodes: Vec<bool>,
    next_quantum_buffer: Vec<PendingMessage>,
}

impl View for BarrierState {
    type V = LookaheadView;

    closed spec fn view(&self) -> LookaheadView {
        LookaheadView {
            limit: self.max_messages_per_node as nat,
            current: self.current_quantum,
            done: self.done_nodes@,
            buffer: sorting::views(self.message_buffer@),
            next_done: self.next_quantum_done_nodes@,
            next_buffer: sorting::views(self.next_quantum_buffer@),
        }
    }
}

pub type SubmitResult = Result<Option<Seq<PendingView>>, BarrierError>;

/// What a submission comes to: the barrier after it, and what is released. Messages for the next
/// quantum are neither sorted nor cut off when they come.
pub open spec fn submitted(
    b: LookaheadView,
    node_id: u32,
    quantum: u64,
    messages: Seq<PendingView>,
) -> (LookaheadView, SubmitResult) {
    if node_id >= b.done.len() {
        (b, Err(BarrierError::NodeIndexOutOfBounds))
    } else if quantum < b.current {
        (b, Ok(None))
    } else if quantum > b.current + 1 {
        (b, Err(BarrierError::QuantumMismatch))
    } else if quantum == b.current + 1 {
        if b.next_done[node_id as int] {
            (b, Err(BarrierError::DuplicateDone))
        } else {
            (
                LookaheadView {
                    next_done: b.next_done.update(node_id as int, true),
                    next_buffer: b.next_buffer + messages,
                    ..b
                },
                Ok(None),
            )
        }
    } else if b.done[node_id as int] {
        (b, Err(BarrierError::DuplicateDone))
    } else {
        let after = LookaheadView {
            done: b.done.update(node_id as int, true),
            buffer: b.buffer + barrier::admitted(messages, b.limit),
            ..b
        };
        if barrier::all_set(after.done) {
            (coordination::promoted(after), Ok(Some(sorting::stable_sort(after.buffer))))
        } else {
            (after, Ok(None))
        }
    }
}

pub open spec fn same_result(
    r: Result<Option<Vec<PendingMessage>>, BarrierError>,
    s: SubmitResult,
) -> bool {
    match (r, s) {
        (Ok(Some(released)), Ok(Some(expected))) => sorting::views(released@) == expected,
        (Ok(None), Ok(None)) => true,
        (Err(e), Err(f)) => e == f,
        _ => false,
    }
}

impl BarrierState {
    /// There is one flag of each kind for each node.
    pub closed spec fn wf(&self) -> bool {
        &&& self.done_nodes@.len() == self.n_nodes
        &&& self.next_quantum_done_nodes@.len() == self.n_nodes
    }

    pub fn new(n_nodes: usize, max_messages_per_node: usize) -> (b: Self)
        ensures
            b.wf(),
            b@ == coordination::first_barrier(n_nodes as nat, max_messages_per_node as nat),
    {
        let b = BarrierState {
            n_nodes,
            max_messages_per_node,
            current_quantum: 0,
            done_nodes: clear_flags(n_nodes),
            message_buffer: Vec::new(),
            next_quantum_done_nodes: clear_flags(n_nodes),
            next_quantum_buffer: Vec::new(),
        };
        proof {
            assert(b@ =~= coordination::first_barrier(
                n_nodes as nat,
                max_messages_per_node as nat,
            ));
        }
        b
    }

    /// The quantum that is open.
    pub fn quantum(&self) -> (q: u64)
        ensures
            q == self@.current,
    {
        self.current_quantum
    }

    /// Takes what a node has sent in a quantum.
    pub fn submit_done(&mut self, node_id: u32, quantum: u64, messages: Vec<PendingMessage>) -> (r:
        Result<Option<Vec<PendingMessage>>, BarrierError>)
        requires
            old(self).wf(),
            old(self)@.current < u64::MAX,
        ensures
            final(self).wf(),
            final(self)@ == submitted(old(self)@, node_id, quantum, sorting::views(messages@)).0,
            same_result(r, submitted(old(self)@, node_id, quantum, sorting::views(messages@)).1),
    {
        let ghost before = self@;
        let ghost sent = sorting::views(messages@);
        let current: u64 = self.current_quantum;
        if node_id as usize >= self.n_nodes {
            return Err(BarrierError::NodeIndexOutOfBounds);
        }
        let index: usize = node_id as usize;
        if quantum < current {
            return Ok(None);
        }
        if quantum > current + 1 {
            return Err(BarrierError::QuantumMismatch);
        }
        if quantum == current + 1 {
            if self.next_quantum_done_nodes[index] {
                return Err(BarrierError::DuplicateDone);
            }
            self.next_quantum_done_nodes[index] = true;
            let mut taken = messages;
            self.next_quantum_buffer.append(&mut taken);
            proof {
                assert(self@.next_buffer =~= before.next_buffer + sent);
                assert(self@ =~= submitted(before, node_id, quantum, sent).0);
            }
            return Ok(None);
        }
        if self.done_nodes[index] {
            return Err(BarrierError::DuplicateDone);
        }
        self.done_nodes[index] = true;
        let mut taken = within_limit(messages, self.max_messages_per_node);
        let ghost taken_view = sorting::views(taken@);
        self.message_buffer.append(&mut taken);
        proof {
            assert(self@.buffer =~= before.buffer + taken_view);
        }
        if !all_flags_set(&self.done_nodes) {
            proof {
                assert(self@ =~= submitted(before, node_id, quantum, sent).0);
            }
            return Ok(None);
        }
        let mut released: Vec<PendingMessage> = Vec::new();
        std::mem::swap(&mut released, &mut self.message_buffer);
        let released = sort_stable(released);
        self.current_quantum = current + 1;
        std::mem::swap(&mut self.message_buffer, &mut self.next_quantum_buffer);
        std::mem::swap(&mut self.done_nodes, &mut self.next_quantum_done_nodes);
        self.next_quantum_done_nodes = clear_flags(self.n_nodes);
        proof {
            assert(self@.next_buffer =~= Seq::empty());
            assert(self@ =~= submitted(before, node_id, quantum, sent).0);
        }
        Ok(Some(released))
    }
}

/// The phases of a run.
enum Phase {
    AwaitingNodes { joined_nodes: HashSet<u32>, buffered_link_regs: Vec<(u32, String)> },
    AwaitingLinks { remaining: Vec<(u32, String)> },
    Simulation { node_batches: HashMap<u32, Vec<PendingMessage>>, barrier: BarrierState },
}

impl View for Phase {
    type V = PhaseView;

    closed spec fn view(&self) -> PhaseView {
        match self {
            Phase::AwaitingNodes { joined_nodes, buffered_link_regs } => PhaseView::AwaitingNodes {
                joined: joined_nodes@,
                buffered: coordination::reg_views(buffered_link_regs@),
            },
            Phase::AwaitingLinks { remaining } => PhaseView::AwaitingLinks {
                remaining: coordination::pair_set(remaining@),
            },
            Phase::Simulation { node_batches, barrier } => PhaseView::Simulation {
                barrier: barrier@,
                batches: coordination::batch_views(node_batches@),
            },
        }
    }
}

/// The coordinator.
pub struct CoordinatorState {
    config: CoordinatorConfig,
    phase: Phase,
}

#[verifier::ext_equal]
pub struct CoordinatorView {
    pub config: ConfigView,
    pub phase: PhaseView,
}

/// One empty batch for each node that takes part.
pub open spec fn empty_batches(n_nodes: nat) -> Map<u32, Seq<PendingView>> {
    Map::new(|k: u32| (k as nat) < n_nodes, |k: u32| Seq::empty())
}

pub open spec fn simulation_start(config: ConfigView) -> PhaseView {
    PhaseView::Simulation {
        barrier: coordination::first_barrier(config.expected_nodes, config.limit),
        batches: empty_batches(config.expected_nodes),
    }
}

pub open spec fn unknown_link_reason(name: Seq<char>) -> Seq<char> {
    "Unknown link name: "@ + name
}

pub open spec fn barrier_reason(e: BarrierError) -> Seq<char> {
    "Barrier error: "@ + barrier_error_text(e)
}

/// A registration once all nodes have joined: it is acknowledged if the link is known, and the
/// last one that was expected starts the simulation.
pub open spec fn registered(
    config: ConfigView,
    phase: PhaseView,
    node_id: u32,
    name: Seq<char>,
) -> Outcome {
    match coordination::link_named(config.links, name) {
        None => coordination::abort(phase, unknown_link_reason(name)),
        Some(link) => {
            let ack = ActionView::SendLinkAck { node_id, link_id: link.link_id };
            match phase {
                PhaseView::AwaitingLinks { remaining } => {
                    let left = remaining.remove((node_id, name));
                    if left == Set::<(u32, Seq<char>)>::empty() {
                        Outcome {
                            phase: simulation_start(config),
                            actions: seq![
                                ack,
                                ActionView::BroadcastClockStart { release_quantum: 0 },
                            ],
                        }
                    } else {
                        Outcome {
                            phase: PhaseView::AwaitingLinks { remaining: left },
                            actions: seq![ack],
                        }
                    }
                },
                _ => Outcome { phase, actions: seq![ack] },
            }
        },
    }
}

/// Registrations one after the other.
pub open spec fn replayed(
    config: ConfigView,
    phase: PhaseView,
    regs: Seq<(u32, Seq<char>)>,
) -> Outcome
    decreases regs.len(),
{
    if regs.len() == 0 {
        Outcome { phase, actions: Seq::empty() }
    } else {
        let front = replayed(config, phase, regs.drop_last());
        let last = registered(config, front.phase, regs.last().0, regs.last().1);
        Outcome { phase: last.phase, actions: front.actions + last.actions }
    }
}

/// What the last node to join leads to: with no registration to wait for, the simulation starts
/// at once.
pub open spec fn all_joined(config: ConfigView, buffered: Seq<(u32, Seq<char>)>) -> Outcome {
    let remaining = coordination::expected_pairs(config.links);
    if remaining == Set::<(u32, Seq<char>)>::empty() {
        Outcome {
            phase: simulation_start(config),
            actions: seq![ActionView::BroadcastClockStart { release_quantum: 0 }],
        }
    } else {
        replayed(config, PhaseView::AwaitingLinks { remaining }, buffered)
    }
}

/// What a submission to the barrier leads to.
pub open spec fn after_submission(
    config: ConfigView,
    phase: PhaseView,
    result: SubmitResult,
    release_quantum: u64,
) -> Outcome {
    match result {
        Ok(Some(released)) => Outcome {
            phase,
            actions: coordination::routed(config.links, released).push(
                ActionView::BroadcastClockStart { release_quantum },
            ),
        },
        Ok(None) => Outcome { phase, actions: Seq::empty() },
        Err(e) => coordination::abort(phase, barrier_reason(e)),
    }
}

/// What an event comes to in a phase.
pub open spec fn outcome(config: ConfigView, phase: PhaseView, event: EventView) -> Outcome {
    match phase {
        PhaseView::AwaitingNodes { joined, buffered } => match event {
            EventView::NodeJoined { node_id } => {
                let now = joined.insert(node_id);
                if now.len() == config.expected_nodes {
                    all_joined(config, buffered)
                } else {
                    Outcome {
                        phase: PhaseView::AwaitingNodes { joined: now, buffered },
                        actions: Seq::empty(),
                    }
                }
            },
            EventView::LinkRegister { node_id, link_name } => Outcome {
                phase: PhaseView::AwaitingNodes {
                    joined,
                    buffered: buffered.push((node_id, link_name)),
                },
                actions: Seq::empty(),
            },
            EventView::NodeDisconnected { .. } => coordination::abort(
                phase,
                "Node disconnected in AwaitingNodes"@,
            ),
            _ => coordination::abort(phase, "Protocol violation in AwaitingNodes"@),
        },
        PhaseView::AwaitingLinks { .. } => match event {
            EventView::LinkRegister { node_id, link_name } => registered(
                config,
                phase,
                node_id,
                link_name,
            ),
            EventView::NodeDisconnected { .. } => coordination::abort(
                phase,
                "Node disconnected in AwaitingLinks"@,
            ),
            EventView::NodeJoined { .. } => Outcome { phase, actions: Seq::empty() },
            _ => coordination::abort(phase, "Protocol violation in AwaitingLinks"@),
        },
        PhaseView::Simulation { barrier, batches } => match event {
            EventView::SimulationMessage { message } => if batches.contains_key(
                message.src_node_id,
            ) {
                Outcome {
                    phase: PhaseView::Simulation {
                        barrier,
                        batches: batches.insert(
                            message.src_node_id,
                            batches[message.src_node_id].push(message),
                        ),
                    },
                    actions: Seq::empty(),
                }
            } else {
                coordination::abort(phase, "Unknown source node for simulation message"@)
            },
            EventView::QuantumDone { node_id, quantum, vtime_ns } => if batches.contains_key(
                node_id,
            ) {
                let due = coordination::due(batches[node_id], vtime_ns);
                let future = coordination::not_due(batches[node_id], vtime_ns);
                let (next, result) = submitted(barrier, node_id, quantum, due);
                after_submission(
                    config,
                    PhaseView::Simulation {
                        barrier: next,
                        batches: batches.insert(node_id, future),
                    },
                    result,
                    next.current,
                )
            } else {
                coordination::abort(phase, "Unknown node in quantum done"@)
            },
            EventView::NodeDisconnected { .. } => coordination::abort(
                phase,
                "Node disconnected in Simulation"@,
            ),
            EventView::LinkRegister { node_id, link_name } => registered(
                config,
                phase,
                node_id,
                link_name,
            ),
            EventView::NodeJoined { .. } => Outcome { phase, actions: Seq::empty() },
        },
    }
}

fn make_empty_batches(n_nodes: u32) -> (batches: HashMap<u32, Vec<PendingMessage>>)
    ensures
        coordination::batch_views(batches@) == empty_batches(n_nodes as nat),
{
    let mut batches: HashMap<u32, Vec<PendingMessage>> = HashMap::new();
    let mut i: u32 = 0;
    proof {
        assert(coordination::batch_views(batches@) =~= empty_batches(0));
    }
    while i < n_nodes
        invariant
            i <= n_nodes,
            coordination::batch_views(batches@) == empty_batches(i as nat),
        decreases n_nodes - i,
    {
        let ghost before = coordination::batch_views(batches@);
        batches.insert(i, Vec::new());
        proof {
            let now = coordination::batch_views(batches@);
            assert(batches@[i]@ =~= Seq::empty());
            assert(sorting::views(batches@[i]@) =~= Seq::<PendingView>::empty());
            assert(now =~= before.insert(i, Seq::empty()));
            assert(now =~= empty_batches((i + 1) as nat));
        }
        i += 1;
    }
    batches
}

fn abort_because(reason: &str) -> (actions: Vec<CoordinatorAction>)
    ensures
        sorting::views(actions@) == seq![ActionView::AbortSimulation { reason: reason@ }],
{
    abort_with(owned(reason))
}

impl View for CoordinatorState {
    type V = CoordinatorView;

    closed spec fn view(&self) -> CoordinatorView {
        CoordinatorView { config: self.config@, phase: self.phase@ }
    }
}

impl CoordinatorState {
    /// The barrier, if there is one, is well formed and as wide as there are nodes.
    pub closed spec fn wf(&self) -> bool {
        match self.phase {
            Phase::Simulation { barrier, .. } => barrier.wf() && barrier@.done.len()
                == self.config.expected_nodes,
            _ => true,
        }
    }

    /// A coordinator that waits for its first node.
    pub fn new(config: CoordinatorConfig) -> (s: Self)
        ensures
            s.wf(),
            s@.config == config@,
            s@.phase == (PhaseView::AwaitingNodes { joined: Set::empty(), buffered: Seq::empty() }),
    {
        let s = CoordinatorState {
            config,
            phase: Phase::AwaitingNodes {
                joined_nodes: HashSet::new(),
                buffered_link_regs: Vec::new(),
            },
        };
        proof {
            assert(coordination::reg_views(Seq::<(u32, String)>::empty()) =~= Seq::empty());
        }
        s
    }

    /// Whether there is a quantum after the open one.
    pub fn has_next_quantum(&self) -> (r: bool)
        ensures
            r == coordination::has_next_quantum(self@.phase),
    {
        match &self.phase {
            Phase::Simulation { barrier, .. } => barrier.quantum() < u64::MAX,
            _ => true,
        }
    }

    /// Takes an event and says what is to be done.
    pub fn apply(&mut self, event: CoordinatorEvent) -> (actions: Vec<CoordinatorAction>)
        requires
            old(self).wf(),
            coordination::has_next_quantum(old(self)@.phase),
        ensures
            final(self).wf(),
            final(self)@.config == old(self)@.config,
            final(self)@.phase == outcome(old(self)@.config, old(self)@.phase, event@).phase,
            sorting::views(actions@) == outcome(
                old(self)@.config,
                old(self)@.phase,
                event@,
            ).actions,
    {
        let mut phase = Phase::AwaitingLinks { remaining: Vec::new() };
        std::mem::swap(&mut phase, &mut self.phase);
        match phase {
            Phase::AwaitingNodes { joined_nodes, buffered_link_regs } => self.apply_awaiting_nodes(
                joined_nodes,
                buffered_link_regs,
                event,
            ),
            Phase::AwaitingLinks { remaining } => {
                self.phase = Phase::AwaitingLinks { remaining };
                match event {
                    CoordinatorEvent::LinkRegister { node_id, link_name } => self.register_link(
                        node_id,
                        link_name,
                    ),
                    CoordinatorEvent::NodeDisconnected { .. } => abort_because(
                        "Node disconnected in AwaitingLinks",
                    ),
                    CoordinatorEvent::NodeJoined { .. } => no_actions(),
                    _ => abort_because("Protocol violation in AwaitingLinks"),
                }
            },
            Phase::Simulation { node_batches, barrier } => self.apply_simulation(
                node_batches,
                barrier,
                event,
            ),
        }
    }

    fn apply_awaiting_nodes(
        &mut self,
        joined_nodes: HashSet<u32>,
        buffered_link_regs: Vec<(u32, String)>,
        event: CoordinatorEvent,
    ) -> (actions: Vec<CoordinatorAction>)
        ensures
            final(self).wf(),
            final(self)@.config == old(self)@.config,
            ({
                let phase = PhaseView::AwaitingNodes {
                    joined: joined_nodes@,
                    buffered: coordination::reg_views(buffered_link_regs@),
                };
                &&& final(self)@.phase == outcome(old(self)@.config, phase, event@).phase
                &&& sorting::views(actions@) == outcome(old(self)@.config, phase, event@).actions
            }),
    {
        match event {
            CoordinatorEvent::NodeJoined { node_id } => {
                let mut joined_nodes = joined_nodes;
                joined_nodes.insert(node_id);
                if joined_nodes.len() == self.config.expected_nodes as usize {
                    self.all_nodes_joined(buffered_link_regs)
                } else {
                    self.phase = Phase::AwaitingNodes { joined_nodes, buffered_link_regs };
                    no_actions()
                }
            },
            CoordinatorEvent::LinkRegister { node_id, link_name } => {
                let ghost before = coordination::reg_views(buffered_link_regs@);
                let mut buffered_link_regs = buffered_link_regs;
                buffered_link_regs.push((node_id, link_name));
                proof {
                    assert(coordination::reg_views(buffered_link_regs@) =~= before.push(
                        (node_id, link_name@),
                    ));
                }
                self.phase = Phase::AwaitingNodes { joined_nodes, buffered_link_regs };
                no_actions()
            },
            CoordinatorEvent::NodeDisconnected { .. } => {
                self.phase = Phase::AwaitingNodes { joined_nodes, buffered_link_regs };
                abort_because("Node disconnected in AwaitingNodes")
            },
            _ => {
                self.phase = Phase::AwaitingNodes { joined_nodes, buffered_link_regs };
                abort_because("Protocol violation in AwaitingNodes")
            },
        }
    }

    fn start_simulation(&mut self)
        ensures
            final(self).wf(),
            final(self).phase is Simulation,
            final(self)@.config == old(self)@.config,
            final(self)@.phase == simulation_start(old(self)@.config),
    {
        self.phase = Phase::Simulation {
            node_batches: make_empty_batches(self.config.expected_nodes),
            barrier: BarrierState::new(
                self.config.expected_nodes as usize,
                self.config.max_messages_per_node,
            ),
        };
    }

    fn all_nodes_joined(&mut self, buffered: Vec<(u32, String)>) -> (actions: Vec<
        CoordinatorAction,
    >)
        ensures
            final(self).wf(),
            final(self)@.config == old(self)@.config,
            final(self)@.phase == all_joined(
                old(self)@.config,
                coordination::reg_views(buffered@),
            ).phase,
            sorting::views(actions@) == all_joined(
                old(self)@.config,
                coordination::reg_views(buffered@),
            ).actions,
    {
        let remaining = list_expected_pairs(&self.config.links);
        proof {
            coordination::lemma_pair_set_empty(remaining@);
        }
        let mut actions = no_actions();
        if remaining.len() == 0 {
            self.start_simulation();
            actions.push(CoordinatorAction::BroadcastClockStart { release_quantum: 0 });
            proof {
                assert(sorting::views(actions@) =~= seq![
                    ActionView::BroadcastClockStart { release_quantum: 0 },
                ]);
            }
            return actions;
        }
        self.phase = Phase::AwaitingLinks { remaining };
        let ghost regs = coordination::reg_views(buffered@);
        let ghost start = self@.phase;
        proof {
            assert(regs.take(0) =~= Seq::empty());
        }
        for reg in it: buffered
            invariant
                self.wf(),
                self@.config == old(self)@.config,
                regs == coordination::reg_views(it.seq()),
                self@.phase == replayed(old(self)@.config, start, regs.take(it.index())).phase,
                sorting::views(actions@) == replayed(
                    old(self)@.config,
                    start,
                    regs.take(it.index()),
                ).actions,
                !(self.phase is AwaitingNodes),
        {
            let ghost k = it.index();
            let ghost before = sorting::views(actions@);
            proof {
                assert(regs.take(k + 1).drop_last() =~= regs.take(k));
                assert(regs.take(k + 1).last() == (reg.0, reg.1@));
            }
            let mut more = self.register_link(reg.0, reg.1);
            let ghost more_view = sorting::views(more@);
            actions.append(&mut more);
            proof {
                assert(sorting::views(actions@) =~= before + more_view);
            }
        }
        proof {
            assert(regs.take(regs.len() as int) =~= regs);
        }
        actions
    }

    fn register_link(&mut self, node_id: u32, link_name: String) -> (actions: Vec<
        CoordinatorAction,
    >)
        requires
            old(self).wf(),
            !(old(self).phase is AwaitingNodes),
        ensures
            final(self).wf(),
            !(final(self).phase is AwaitingNodes),
            final(self)@.config == old(self)@.config,
            final(self)@.phase == registered(
                old(self)@.config,
                old(self)@.phase,
                node_id,
                link_name@,
            ).phase,
            sorting::views(actions@) == registered(
                old(self)@.config,
                old(self)@.phase,
                node_id,
                link_name@,
            ).actions,
    {
        let link_id: u32 = match self.config.links.get(link_name.as_str()) {
            Some(link) => link.link_id,
            None => {
                return abort_with(joined2("Unknown link name: ", link_name.as_str()));
            },
        };
        let mut actions: Vec<CoordinatorAction> = Vec::new();
        actions.push(CoordinatorAction::SendLinkAck { node_id, link_id });
        proof {
            assert(sorting::views(actions@) =~= seq![ActionView::SendLinkAck { node_id, link_id }]);
        }
        let mut phase = Phase::AwaitingLinks { remaining: Vec::new() };
        std::mem::swap(&mut phase, &mut self.phase);
        match phase {
            Phase::AwaitingLinks { remaining } => {
                let left = remove_pair(remaining, node_id, link_name.as_str());
                proof {
                    coordination::lemma_pair_set_empty(left@);
                }
                if left.len() == 0 {
                    self.start_simulation();
                    actions.push(CoordinatorAction::BroadcastClockStart { release_quantum: 0 });
                    proof {
                        assert(sorting::views(actions@) =~= seq![
                            ActionView::SendLinkAck { node_id, link_id },
                            ActionView::BroadcastClockStart { release_quantum: 0 },
                        ]);
                    }
                } else {
                    self.phase = Phase::AwaitingLinks { remaining: left };
                }
            },
            other => {
                self.phase = other;
            },
        }
        actions
    }

    fn apply_simulation(
        &mut self,
        node_batches: HashMap<u32, Vec<PendingMessage>>,
        barrier: BarrierState,
        event: CoordinatorEvent,
    ) -> (actions: Vec<CoordinatorAction>)
        requires
            barrier.wf(),
            barrier@.done.len() == old(self)@.config.expected_nodes,
            barrier@.current < u64::MAX,
        ensures
            final(self).wf(),
            final(self)@.config == old(self)@.config,
            ({
                let phase = PhaseView::Simulation {
                    barrier: barrier@,
                    batches: coordination::batch_views(node_batches@),
                };
                &&& final(self)@.phase == outcome(old(self)@.config, phase, event@).phase
                &&& sorting::views(actions@) == outcome(old(self)@.config, phase, event@).actions
            }),
    {
        let ghost batches = coordination::batch_views(node_batches@);
        let mut node_batches = node_batches;
        let mut barrier = barrier;
        match event {
            CoordinatorEvent::SimulationMessage {
                src_node_id,
                link_id,
                delivery_vtime_ns,
                sequence_number,
                payload,
            } => {
                let message = PendingMessage {
                    src_node_id,
                    link_id,
                    delivery_vtime_ns,
                    sequence_number,
                    payload,
                };
                match node_batches.remove(&src_node_id) {
                    Some(batch) => {
                        let mut batch = batch;
                        batch.push(message);
                        proof {
                            assert(sorting::views(batch@) =~= batches[src_node_id].push(message@));
                        }
                        node_batches.insert(src_node_id, batch);
                        proof {
                            assert(coordination::batch_views(node_batches@) =~= batches.insert(
                                src_node_id,
                                batches[src_node_id].push(message@),
                            ));
                        }
                        self.phase = Phase::Simulation { node_batches, barrier };
                        no_actions()
                    },
                    None => {
                        proof {
                            assert(coordination::batch_views(node_batches@) =~= batches);
                        }
                        self.phase = Phase::Simulation { node_batches, barrier };
                        abort_because("Unknown source node for simulation message")
                    },
                }
            },
            CoordinatorEvent::QuantumDone { node_id, quantum, vtime_ns } => {
                match node_batches.remove(&node_id) {
                    Some(batch) => {
                        proof {
                            assert(sorting::views(batch@) =~= batches[node_id]);
                        }
                        let (current, future) = partition_due(batch, vtime_ns);
                        let ghost future_view = sorting::views(future@);
                        node_batches.insert(node_id, future);
                        proof {
                            assert(coordination::batch_views(node_batches@) =~= batches.insert(
                                node_id,
                                future_view,
                            ));
                        }
                        let result = barrier.submit_done(node_id, quantum, current);
                        let release_quantum: u64 = barrier.quantum();
                        self.phase = Phase::Simulation { node_batches, barrier };
                        match result {
                            Ok(Some(released)) => {
                                let mut actions = route_released(&self.config.links, released);
                                let ghost routes = sorting::views(actions@);
                                actions.push(
                                    CoordinatorAction::BroadcastClockStart { release_quantum },
                                );
                                proof {
                                    assert(sorting::views(actions@) =~= routes.push(
                                        ActionView::BroadcastClockStart { release_quantum },
                                    ));
                                }
                                actions
                            },
                            Ok(None) => no_actions(),
                            Err(e) => abort_with(
                                joined2("Barrier error: ", barrier_error_name(&e)),
                            ),
                        }
                    },
                    None => {
                        proof {
                            assert(coordination::batch_views(node_batches@) =~= batches);
                        }
                        self.phase = Phase::Simulation { node_batches, barrier };
                        abort_because("Unknown node in quantum done")
                    },
                }
            },
            CoordinatorEvent::NodeDisconnected { .. } => {
                self.phase = Phase::Simulation { node_batches, barrier };
                abort_because("Node disconnected in Simulation")
            },
            CoordinatorEvent::LinkRegister { node_id, link_name } => {
                self.phase = Phase::Simulation { node_batches, barrier };
                self.register_link(node_id, link_name)
            },
            CoordinatorEvent::NodeJoined { .. } => {
                self.phase = Phase::Simulation { node_batches, barrier };
                no_actions()
            },
        }
    }
}

} // verus!
