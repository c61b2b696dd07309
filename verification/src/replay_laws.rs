//! What holds of replaying a log.
use vstd::prelude::*;

use crate::replay;
use crate::replay::{LogItemView, ReplayFrameView, ReplayView};

verus! {

/// Whether an item of a log is a message on a topic.
pub open spec fn is_on(item: LogItemView, topic: Seq<char>) -> bool {
    item matches LogItemView::Message(m) && m.topic == topic
}

/// The messages on a topic among the items from one place to another, in their order.
pub open spec fn on_topic(items: Seq<LogItemView>, topic: Seq<char>, i: int, k: int) -> Seq<
    LogItemView,
> {
    items.subrange(i, k).filter(|item: LogItemView| is_on(item, topic))
}

/// The frame that a message makes.
pub open spec fn framed(item: LogItemView, number: nat) -> ReplayFrameView {
    match item {
        LogItemView::Message(m) => ReplayFrameView {
            vtime_ns: m.log_time,
            sequence_number: number,
            data: m.data,
        },
        LogItemView::Unreadable => ReplayFrameView {
            vtime_ns: 0,
            sequence_number: number,
            data: Seq::empty(),
        },
    }
}

proof fn lemma_on_topic(items: Seq<LogItemView>, topic: Seq<char>, i: int, k: int)
    requires
        0 <= i < k <= items.len(),
    ensures
        on_topic(items, topic, i, k) == (if is_on(items[i], topic) {
            seq![items[i]]
        } else {
            Seq::empty()
        }) + on_topic(items, topic, i + 1, k),
{
    let p = |item: LogItemView| is_on(item, topic);
    let one = seq![items[i]];
    assert(items.subrange(i, k) =~= one + items.subrange(i + 1, k));
    Seq::filter_distributes_over_add(one, items.subrange(i + 1, k), p);
    reveal(Seq::filter);
    assert(one.drop_last() =~= Seq::<LogItemView>::empty());
    assert(one.drop_last().filter(p) =~= Seq::<LogItemView>::empty());
    assert(one.last() == items[i]);
    if is_on(items[i], topic) {
        assert(one.filter(p) =~= one);
    } else {
        assert(one.filter(p) =~= Seq::<LogItemView>::empty());
    }
}

proof fn lemma_taken(
    items: Seq<LogItemView>,
    topic: Seq<char>,
    target: u64,
    i: int,
    k: int,
    number: nat,
    frames: Seq<ReplayFrameView>,
)
    requires
        0 <= i <= k <= items.len(),
        forall|j: int|
            i <= j < k ==> (#[trigger] items[j] matches LogItemView::Message(m) && m.log_time
                < target),
    ensures
        ({
            let chosen = on_topic(items, topic, i, k);
            let made = Seq::new(chosen.len(), |n: int| framed(chosen[n], number + n as nat));
            replay::taken_from(items, topic, target, i, number, frames) == replay::taken_from(
                items,
                topic,
                target,
                k,
                number + chosen.len(),
                frames + made,
            )
        }),
    decreases k - i,
{
    let chosen = on_topic(items, topic, i, k);
    let made = Seq::new(chosen.len(), |n: int| framed(chosen[n], number + n as nat));
    if i < k {
        lemma_on_topic(items, topic, i, k);
        let rest = on_topic(items, topic, i + 1, k);
        assert(items[i] is Message);
        if is_on(items[i], topic) {
            let frame = framed(items[i], number);
            lemma_taken(items, topic, target, i + 1, k, number + 1, frames.push(frame));
            let more = Seq::new(rest.len(), |n: int| framed(rest[n], number + 1 + n as nat));
            assert(chosen.len() == 1 + rest.len());
            assert forall|n: int| 0 <= n < chosen.len() implies (frames.push(frame) + more)[frames.len()
                + n] == #[trigger] made[n] by {
                if n > 0 {
                    assert(chosen[n] == rest[n - 1]);
                }
            }
            assert(frames.push(frame) + more =~= frames + made);
        } else {
            lemma_taken(items, topic, target, i + 1, k, number, frames);
            assert(chosen =~= rest);
            assert(Seq::new(rest.len(), |n: int| framed(rest[n], number + n as nat)) =~= made);
        }
    } else {
        assert(items.subrange(i, k) =~= Seq::<LogItemView>::empty());
        reveal(Seq::filter);
        assert(chosen.len() == 0);
        assert(frames + made =~= frames);
    }
}

/// A quantum takes the messages of its topic up to the first item that is not before its end, each
/// at its time with its contents, and numbers them on from the last; it goes on at that item. An item
/// that cannot be read ends it too, and is passed over.
pub proof fn law_quantum_takes(s: ReplayView, target: u64, k: int)
    requires
        0 <= s.next <= k <= s.items.len(),
        forall|j: int|
            s.next <= j < k ==> (#[trigger] s.items[j] matches LogItemView::Message(m) && m.log_time
                < target),
        k < s.items.len() ==> (s.items[k] matches LogItemView::Message(m) ==> m.log_time >= target),
    ensures
        ({
            let chosen = on_topic(s.items, s.topic, s.next, k);
            let taken = replay::quantum_takes(s, target);
            &&& taken.frames.len() == chosen.len()
            &&& forall|n: int|
                0 <= n < chosen.len() ==> #[trigger] taken.frames[n] == framed(
                    chosen[n],
                    s.sequence_number + n as nat,
                )
            &&& taken.sequence_number == s.sequence_number + chosen.len()
            &&& k == s.items.len() || s.items[k] is Message ==> taken.next == k
            &&& k < s.items.len() && s.items[k] is Unreadable ==> taken.next == k + 1
        }),
{
    lemma_taken(s.items, s.topic, target, s.next, k, s.sequence_number, Seq::empty());
    let chosen = on_topic(s.items, s.topic, s.next, k);
    let made = Seq::new(
        chosen.len(),
        |n: int| framed(chosen[n], s.sequence_number + n as nat),
    );
    assert(Seq::<ReplayFrameView>::empty() + made =~= made);
}

} // verus!
