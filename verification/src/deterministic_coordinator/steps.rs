//! What the coordinator does about each message that comes in.
use vstd::prelude::*;

use crate::deterministic_coordinator::barrier::BarrierError;
use crate::deterministic_coordinator::delivery;
use crate::deterministic_coordinator::delivery::{
    is_registered, plan_delivery, Delivery, DeliveryView,
};
use crate::deterministic_coordinator::envelope::{Envelope, EnvelopeView};
use crate::deterministic_coordinator::frames;
use crate::deterministic_coordinator::frames::{
    carry_from_bus, carry_from_socket, is_plain_done, parse_done_topic, parse_plain_done,
    parse_tx_topic, Carried, CarriedView, Done, DoneView, Readings,
};
use crate::deterministic_coordinator::session;
use crate::deterministic_coordinator::session::{
    DoneOutcome, DoneOutcomeView, LinkFrame, Session, SessionView,
};
use crate::deterministic_coordinator::startup;
use crate::deterministic_coordinator::startup::{classify_topic, TopicKind};
use crate::deterministic_coordinator::topology::{RoutingMap, Routes};
use crate::sorting;
use crate::wire;

verus! {

/// What is to be done.
#[derive(Debug, PartialEq, Eq)]
pub enum Step {
    Nothing,
    /// A time or a count has no number: the run cannot go on.
    Overflow,
    /// A link does not exist or a frame names another one: the run must not go on.
    Fatal,
    /// The word that a node is done cannot be read.
    Unreadable,
    /// The source of a packet is not registered.
    Unregistered,
    /// The node must not be done with that quantum.
    Refused(BarrierError),
    /// Messages to deliver. There is a plan for each of them, unless one is for a node that its
    /// source may not send to: then the plans end there.
    Deliver { messages: Vec<Envelope>, plans: Vec<Vec<Delivery>> },
    /// The same, and then the next quantum starts.
    Release { messages: Vec<Envelope>, plans: Vec<Vec<Delivery>>, next_quantum: u64 },
}

#[verifier::ext_equal]
pub enum StepView {
    Nothing,
    Overflow,
    Fatal,
    Unreadable,
    Unregistered,
    Refused(BarrierError),
    Deliver { messages: Seq<EnvelopeView>, plans: Seq<Seq<DeliveryView>> },
    Release { messages: Seq<EnvelopeView>, plans: Seq<Seq<DeliveryView>>, next_quantum: u64 },
}

/// The views of plans.
pub open spec fn plan_views(plans: Seq<Vec<Delivery>>) -> Seq<Seq<DeliveryView>> {
    Seq::new(plans.len(), |i: int| sorting::views(plans[i]@))
}

impl View for Step {
    type V = StepView;

    open spec fn view(&self) -> StepView {
        match self {
            Step::Nothing => StepView::Nothing,
            Step::Overflow => StepView::Overflow,
            Step::Fatal => StepView::Fatal,
            Step::Unreadable => StepView::Unreadable,
            Step::Unregistered => StepView::Unregistered,
            Step::Refused(e) => StepView::Refused(*e),
            Step::Deliver { messages, plans } => StepView::Deliver {
                messages: sorting::views(messages@),
                plans: plan_views(plans@),
            },
            Step::Release { messages, plans, next_quantum } => StepView::Release {
                messages: sorting::views(messages@),
                plans: plan_views(plans@),
                next_quantum: *next_quantum,
            },
        }
    }
}

/// The plans for the first `n` messages, up to one that may not be delivered.
pub open spec fn plans_for(
    routes: Routes,
    links: Option<Seq<Seq<u32>>>,
    messages: Seq<EnvelopeView>,
    n: int,
) -> Seq<Seq<DeliveryView>>
    decreases n,
{
    if n <= 0 || n > messages.len() {
        Seq::empty()
    } else {
        let front = plans_for(routes, links, messages, n - 1);
        match delivery::message_targets(routes, links, messages[n - 1]) {
            Some(targets) if front.len() == n - 1 => front.push(
                delivery::deliveries_to(messages[n - 1], targets),
            ),
            _ => front,
        }
    }
}

proof fn lemma_plans_end(
    routes: Routes,
    links: Option<Seq<Seq<u32>>>,
    messages: Seq<EnvelopeView>,
    i: int,
    n: int,
)
    requires
        0 <= i < n <= messages.len(),
        plans_for(routes, links, messages, i).len() == i,
        delivery::message_targets(routes, links, messages[i]) is None,
    ensures
        plans_for(routes, links, messages, n) == plans_for(routes, links, messages, i),
    decreases n,
{
    if n > i + 1 {
        lemma_plans_end(routes, links, messages, i, n - 1);
    }
}

/// The plan takes the message to where its source may send.
pub open spec fn is_plan_for(
    routes: Routes,
    links: Option<Seq<Seq<u32>>>,
    e: EnvelopeView,
    plan: Seq<DeliveryView>,
) -> bool {
    match delivery::message_targets(routes, links, e) {
        Some(targets) => plan == delivery::deliveries_to(e, targets),
        None => false,
    }
}

/// Each plan takes its message to where its source may send, and nowhere else; there is a plan for
/// every message unless one of them has no such place.
pub proof fn law_plans_follow_routes(
    routes: Routes,
    links: Option<Seq<Seq<u32>>>,
    messages: Seq<EnvelopeView>,
    n: int,
)
    requires
        0 <= n <= messages.len(),
    ensures
        ({
            let plans = plans_for(routes, links, messages, n);
            &&& plans.len() <= n
            &&& forall|i: int|
                0 <= i < plans.len() ==> is_plan_for(routes, links, messages[i], #[trigger] plans[i])
            &&& plans.len() < n ==> delivery::message_targets(
                routes,
                links,
                messages[plans.len() as int],
            ) is None
        }),
    decreases n,
{
    if n > 0 {
        law_plans_follow_routes(routes, links, messages, n - 1);
        let front = plans_for(routes, links, messages, n - 1);
        let plans = plans_for(routes, links, messages, n);
        assert forall|i: int| 0 <= i < plans.len() implies is_plan_for(
            routes,
            links,
            messages[i],
            #[trigger] plans[i],
        ) by {
            if i < front.len() {
                assert(plans[i] == front[i]);
            }
        }
    }
}

fn plan_all(routes: &RoutingMap, links: Option<&Vec<Vec<u32>>>, messages: &Vec<Envelope>) -> (r: Vec<
    Vec<Delivery>,
>)
    ensures
        plan_views(r@) == plans_for(
            routes@,
            delivery::link_views(links),
            sorting::views(messages@),
            messages@.len() as int,
        ),
{
    let ghost all = sorting::views(messages@);
    let ghost laid = delivery::link_views(links);
    let mut plans: Vec<Vec<Delivery>> = Vec::new();
    let mut i: usize = 0;
    proof {
        assert(plan_views(plans@) =~= Seq::empty());
    }
    while i < messages.len()
        invariant
            i <= messages@.len(),
            all == sorting::views(messages@),
            laid == delivery::link_views(links),
            plans@.len() == i,
            plan_views(plans@) == plans_for(routes@, laid, all, i as int),
        decreases messages@.len() - i,
    {
        proof {
            assert(all[i as int] == messages@[i as int]@);
        }
        match plan_delivery(routes, links, &messages[i]) {
            Some(plan) => {
                let ghost before = plan_views(plans@);
                let ghost view = sorting::views(plan@);
                plans.push(plan);
                proof {
                    assert(plan_views(plans@) =~= before.push(view));
                }
            },
            None => {
                proof {
                    lemma_plans_end(routes@, laid, all, i as int, all.len() as int);
                }
                return plans;
            },
        }
        i += 1;
    }
    plans
}

/// The step that delivers a message at once, or does nothing where it is held.
pub open spec fn deliver_step(
    routes: Routes,
    links: Option<Seq<Seq<u32>>>,
    e: EnvelopeView,
    immediate: bool,
) -> StepView {
    if immediate {
        StepView::Deliver { messages: seq![e], plans: plans_for(routes, links, seq![e], 1) }
    } else {
        StepView::Nothing
    }
}

fn deliver_now(routes: &RoutingMap, links: Option<&Vec<Vec<u32>>>, e: Envelope) -> (r: Step)
    ensures
        r@ == deliver_step(routes@, delivery::link_views(links), e@, true),
{
    let ghost view = e@;
    let mut messages: Vec<Envelope> = Vec::new();
    messages.push(e);
    proof {
        assert(sorting::views(messages@) =~= seq![view]);
    }
    let plans = plan_all(routes, links, &messages);
    Step::Deliver { messages, plans }
}

/// What a transmission leads to, given what it carries, and the session after it.
pub open spec fn transmission(
    s: SessionView,
    routes: Routes,
    topic: Seq<char>,
    carried: Option<CarriedView>,
) -> (SessionView, StepView) {
    match frames::tx_topic(topic) {
        None => (s, StepView::Nothing),
        Some(tx) => if !delivery::may_send(routes, tx.node_id) {
            (s, StepView::Unregistered)
        } else {
            match carried {
                None => (s, StepView::Nothing),
                Some(c) => {
                    let e = session::transmitted(s.delay_ns, tx, c);
                    (
                        if s.immediate {
                            s
                        } else {
                            session::held(s, e)
                        },
                        deliver_step(routes, None, e, s.immediate),
                    )
                },
            }
        },
    }
}

fn take_transmission(
    run: &mut Session,
    routes: &RoutingMap,
    topic: &str,
    carried: Option<Carried>,
) -> (r: Step)
    requires
        old(run).wf(),
    ensures
        final(run).wf(),
        ({
            let c = match carried {
                Some(c) => Some(c@),
                None => None,
            };
            let t = transmission(old(run)@, routes@, topic@, c);
            &&& final(run)@ == t.0
            &&& r@ == t.1
        }),
{
    match parse_tx_topic(topic) {
        None => Step::Nothing,
        Some(tx) => {
            if !is_registered(routes, tx.node_id) {
                return Step::Unregistered;
            }
            match carried {
                None => Step::Nothing,
                Some(c) => match run.on_transmission(tx, c) {
                    Some(e) => deliver_now(routes, None, e),
                    None => Step::Nothing,
                },
            }
        },
    }
}

/// Takes a transmission over the bus. `readings` are what the parsers made of the payload.
pub fn take_bus_transmission(
    run: &mut Session,
    routes: &RoutingMap,
    topic: &str,
    payload: &[u8],
    readings: &Readings,
    header_size: usize,
) -> (r: Step)
    requires
        old(run).wf(),
    ensures
        final(run).wf(),
        ({
            let protocol = frames::topic_protocol(topic@);
            let c = frames::bus_carried(protocol, payload@, *readings, header_size as nat);
            let t = transmission(old(run)@, routes@, topic@, c);
            &&& final(run)@ == t.0
            &&& r@ == t.1
        }),
{
    let protocol = frames::protocol_of_topic(topic);
    let carried = carry_from_bus(protocol, payload, readings, header_size);
    take_transmission(run, routes, topic, carried)
}

/// What a node's word that it is done leads to, and the session after it.
pub open spec fn done_word(
    s: SessionView,
    routes: Routes,
    links: Option<Seq<Seq<u32>>>,
    node: Option<u32>,
    done: DoneView,
) -> (SessionView, StepView) {
    match node {
        None => (s, StepView::Nothing),
        Some(id) => if s.quantum == u64::MAX || (session::batch_of(s.batches, id).len() > 0
            && done.vtime_limit + s.delay_ns > u64::MAX) {
            (s, StepView::Overflow)
        } else {
            let t = session::done(s, id, done.quantum, done.vtime_limit, done.messages);
            (
                t.0,
                match t.1 {
                    DoneOutcomeView::Waiting => StepView::Nothing,
                    DoneOutcomeView::Fatal(e) => StepView::Refused(e),
                    DoneOutcomeView::Released { messages, next_quantum } => StepView::Release {
                        messages,
                        plans: plans_for(routes, links, messages, messages.len() as int),
                        next_quantum,
                    },
                },
            )
        },
    }
}

fn take_done(
    run: &mut Session,
    routes: &RoutingMap,
    links: Option<&Vec<Vec<u32>>>,
    node: Option<u32>,
    done: Done,
) -> (r: Step)
    requires
        old(run).wf(),
    ensures
        final(run).wf(),
        ({
            let t = done_word(old(run)@, routes@, delivery::link_views(links), node, done@);
            &&& final(run)@ == t.0
            &&& r@ == t.1
        }),
{
    match node {
        None => Step::Nothing,
        Some(id) => {
            if !run.can_close(id, done.vtime_limit) {
                return Step::Overflow;
            }
            match run.on_done(id, done.quantum, done.vtime_limit, done.messages) {
                DoneOutcome::Waiting => Step::Nothing,
                DoneOutcome::Fatal(e) => Step::Refused(e),
                DoneOutcome::Released { messages, next_quantum } => {
                    let plans = plan_all(routes, links, &messages);
                    Step::Release { messages, plans, next_quantum }
                },
            }
        },
    }
}

/// What a node hands in over the bus: the plain form, or else what the parser made of the payload.
pub open spec fn bus_done(payload: Seq<u8>, decoded: Option<DoneView>) -> DoneView {
    match decoded {
        Some(d) if payload.len() != 8 && payload.len() != 16 => d,
        _ => frames::plain_done(payload),
    }
}

/// Takes a node's word over the bus that it is done; its number is the third part of the topic.
/// `decoded` is what the parser made of the payload.
pub fn take_bus_done(
    run: &mut Session,
    routes: &RoutingMap,
    topic: &str,
    payload: &[u8],
    decoded: Option<Done>,
) -> (r: Step)
    requires
        old(run).wf(),
    ensures
        final(run).wf(),
        ({
            let d = match decoded {
                Some(d) => Some(d@),
                None => None,
            };
            let t = done_word(
                old(run)@,
                routes@,
                None,
                frames::done_node(topic@, 2),
                bus_done(payload@, d),
            );
            &&& final(run)@ == t.0
            &&& r@ == t.1
        }),
{
    let node = parse_done_topic(topic, 2);
    if is_plain_done(payload) {
        return take_done(run, routes, None, node, parse_plain_done(payload));
    }
    match decoded {
        Some(done) => take_done(run, routes, None, node, done),
        None => take_done(run, routes, None, node, parse_plain_done(payload)),
    }
}

/// What a frame on a link leads to, and the session after it.
pub open spec fn link_frame(
    s: SessionView,
    routes: Routes,
    links: Seq<Seq<u32>>,
    node: u32,
    topic: Seq<char>,
    frame: Seq<u8>,
) -> (SessionView, StepView) {
    if session::counter_of(s.counters, node) == u64::MAX {
        (s, StepView::Overflow)
    } else {
        match session::link_number(topic) {
            None => (s, StepView::Nothing),
            Some(link) => if link >= links.len() {
                (s, StepView::Fatal)
            } else if frame.len() < 8 {
                (s, StepView::Nothing)
            } else if wire::le_at(frame, 0, 4) != link {
                (s, StepView::Fatal)
            } else {
                match session::frame_payload(frame) {
                    None => (s, StepView::Nothing),
                    Some(raw) => {
                        let e = session::link_message(s, link, node, raw);
                        let after = session::counted(s, node);
                        (
                            if s.immediate {
                                after
                            } else {
                                session::held(after, e)
                            },
                            deliver_step(routes, Some(links), e, s.immediate),
                        )
                    },
                }
            },
        }
    }
}

/// What a message over a socket leads to, and the session after it.
pub open spec fn socket_message(
    s: SessionView,
    routes: Routes,
    links: Seq<Seq<u32>>,
    node: u32,
    topic: Seq<char>,
    payload: Seq<u8>,
    carried: Option<CarriedView>,
    decoded: Option<DoneView>,
) -> (SessionView, StepView) {
    match startup::topic_kind(topic) {
        TopicKind::Link => link_frame(s, routes, links, node, topic, payload),
        TopicKind::Transmission => transmission(s, routes, topic, carried),
        TopicKind::Done => match (frames::done_node(topic, 3), decoded) {
            (Some(id), Some(done)) => done_word(s, routes, Some(links), Some(id), done),
            (Some(_), None) => (s, StepView::Unreadable),
            (None, _) => (s, StepView::Nothing),
        },
        TopicKind::Other => (s, StepView::Nothing),
    }
}

/// Takes a message that `node` sent over its socket. `links` are the nodes on each link, `readings`
/// what the parsers made of the payload, and `decoded` what the payload says as a node's word that
/// it is done.
pub fn take_socket_message(
    run: &mut Session,
    routes: &RoutingMap,
    links: &Vec<Vec<u32>>,
    node: u32,
    topic: &str,
    payload: &[u8],
    readings: &Readings,
    decoded: Option<Done>,
    header_size: usize,
) -> (r: Step)
    requires
        old(run).wf(),
    ensures
        final(run).wf(),
        ({
            let protocol = frames::topic_protocol(topic@);
            let c = frames::socket_carried(protocol, payload@, *readings, header_size as nat);
            let d = match decoded {
                Some(d) => Some(d@),
                None => None,
            };
            let laid = sorting::views(links@);
            let t = socket_message(old(run)@, routes@, laid, node, topic@, payload@, c, d);
            &&& final(run)@ == t.0
            &&& r@ == t.1
        }),
{
    match classify_topic(topic) {
        TopicKind::Link => {
            if !run.can_count(node) {
                return Step::Overflow;
            }
            match run.on_link_frame(node, topic, payload, links.len()) {
                LinkFrame::Fatal => Step::Fatal,
                LinkFrame::Deliver(e) => deliver_now(routes, Some(links), e),
                LinkFrame::NotALink => Step::Nothing,
                LinkFrame::Ignored => Step::Nothing,
                LinkFrame::Held => Step::Nothing,
            }
        },
        TopicKind::Transmission => {
            let protocol = frames::protocol_of_topic(topic);
            let carried = carry_from_socket(protocol, payload, readings, header_size);
            take_transmission(run, routes, topic, carried)
        },
        TopicKind::Done => match (parse_done_topic(topic, 3), decoded) {
            (Some(id), Some(done)) => take_done(run, routes, Some(links), Some(id), done),
            (Some(_), None) => Step::Unreadable,
            (None, _) => Step::Nothing,
        },
        TopicKind::Other => Step::Nothing,
    }
}

} // verus!
