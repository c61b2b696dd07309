//! Messages that wait for the end of a quantum, kept by the node that sent them.
use vstd::prelude::*;

use crate::sorting;
use crate::text::{owned, same_text};
use crate::zenoh_coordinator::relay;
use crate::zenoh_coordinator::relay::RelayMessage;

verus! {

/// What one node has sent.
#[derive(Debug)]
pub struct NodeBatch {
    pub node: String,
    pub messages: Vec<RelayMessage>,
}

#[verifier::ext_equal]
pub struct NodeBatchView {
    pub node: Seq<char>,
    pub messages: Seq<relay::RelayView>,
}

impl View for NodeBatch {
    type V = NodeBatchView;

    open spec fn view(&self) -> NodeBatchView {
        NodeBatchView { node: self.node@, messages: sorting::views(self.messages@) }
    }
}

/// What the entries from index `i` on hold of a node.
pub open spec fn held_from(entries: Seq<NodeBatchView>, node: Seq<char>, i: int) -> Seq<
    relay::RelayView,
>
    decreases entries.len() - i,
{
    if i < 0 || i >= entries.len() {
        Seq::empty()
    } else if entries[i].node == node {
        entries[i].messages
    } else {
        held_from(entries, node, i + 1)
    }
}

proof fn lemma_held_push(entries: Seq<NodeBatchView>, e: NodeBatchView, node: Seq<char>, i: int)
    requires
        0 <= i <= entries.len(),
    ensures
        node != e.node ==> held_from(entries.push(e), node, i) == held_from(entries, node, i),
        (node == e.node && forall|k: int|
            i <= k < entries.len() ==> (#[trigger] entries[k]).node != node) ==> held_from(
            entries.push(e),
            node,
            i,
        ) == e.messages,
    decreases entries.len() - i,
{
    let t = entries.push(e);
    if i < entries.len() {
        lemma_held_push(entries, e, node, i + 1);
        assert(t[i] == entries[i]);
    } else {
        assert(t[i] == e);
        assert(held_from(t, node, i + 1) =~= Seq::empty());
    }
}

proof fn lemma_held_update(
    entries: Seq<NodeBatchView>,
    at: int,
    e: NodeBatchView,
    node: Seq<char>,
    i: int,
)
    requires
        0 <= i <= entries.len(),
        0 <= at < entries.len(),
        e.node == entries[at].node,
    ensures
        node != e.node ==> held_from(entries.update(at, e), node, i) == held_from(entries, node, i),
        (node == e.node && i <= at && forall|k: int|
            i <= k < at ==> (#[trigger] entries[k]).node != node) ==> held_from(
            entries.update(at, e),
            node,
            i,
        ) == e.messages,
    decreases entries.len() - i,
{
    if i < entries.len() {
        lemma_held_update(entries, at, e, node, i + 1);
    }
}

proof fn lemma_held_at(entries: Seq<NodeBatchView>, at: int, node: Seq<char>, i: int)
    requires
        0 <= i <= at < entries.len(),
        entries[at].node == node,
        forall|k: int| i <= k < at ==> (#[trigger] entries[k]).node != node,
    ensures
        held_from(entries, node, i) == entries[at].messages,
    decreases at - i,
{
    if i < at {
        assert(entries[i].node != node);
        lemma_held_at(entries, at, node, i + 1);
    }
}

proof fn lemma_held_none(entries: Seq<NodeBatchView>, node: Seq<char>, i: int)
    requires
        0 <= i <= entries.len(),
        forall|k: int| i <= k < entries.len() ==> (#[trigger] entries[k]).node != node,
    ensures
        held_from(entries, node, i) == Seq::<relay::RelayView>::empty(),
    decreases entries.len() - i,
{
    if i < entries.len() {
        lemma_held_none(entries, node, i + 1);
    }
}

/// Messages that wait, by the node that sent them.
#[derive(Debug)]
pub struct Batches {
    entries: Vec<NodeBatch>,
}

impl Batches {
    /// What waits of a node.
    pub closed spec fn held(&self, node: Seq<char>) -> Seq<relay::RelayView> {
        held_from(sorting::views(self.entries@), node, 0)
    }

    /// Nothing waits.
    pub fn new() -> (r: Self)
        ensures
            forall|node: Seq<char>| #[trigger]
                r.held(node) == Seq::<relay::RelayView>::empty(),
    {
        Batches { entries: Vec::new() }
    }

    fn find(&self, node: &str) -> (r: Option<usize>)
        ensures
            match r {
                Some(i) => i < self.entries@.len() && self.entries@[i as int].node@ == node@
                    && forall|k: int|
                    0 <= k < i ==> (#[trigger] sorting::views(self.entries@)[k]).node != node@,
                None => forall|k: int|
                    0 <= k < self.entries@.len() ==> (#[trigger] sorting::views(
                        self.entries@,
                    )[k]).node != node@,
            },
    {
        let ghost all = sorting::views(self.entries@);
        let mut i: usize = 0;
        while i < self.entries.len()
            invariant
                i <= self.entries@.len(),
                all == sorting::views(self.entries@),
                forall|k: int| 0 <= k < i ==> (#[trigger] all[k]).node != node@,
            decreases self.entries@.len() - i,
        {
            proof {
                assert(all[i as int] == self.entries@[i as int]@);
            }
            if same_text(self.entries[i].node.as_str(), node) {
                return Some(i);
            }
            i += 1;
        }
        None
    }

    /// Lets more messages of a node wait.
    pub fn append(&mut self, node: &str, messages: Vec<RelayMessage>)
        ensures
            final(self).held(node@) == old(self).held(node@) + sorting::views(messages@),
            forall|other: Seq<char>|
                other != node@ ==> #[trigger] final(self).held(other) == old(self).held(other),
    {
        let ghost before = sorting::views(self.entries@);
        let ghost more = sorting::views(messages@);
        match self.find(node) {
            Some(i) => {
                let mut list: Vec<RelayMessage> = Vec::new();
                std::mem::swap(&mut list, &mut self.entries[i].messages);
                let ghost had = sorting::views(list@);
                let mut messages = messages;
                list.append(&mut messages);
                proof {
                    assert(sorting::views(list@) =~= had + more);
                }
                let entry = NodeBatch { node: owned(node), messages: list };
                let ghost entry_view = entry@;
                self.entries.set(i, entry);
                proof {
                    let now = sorting::views(self.entries@);
                    assert(before[i as int].messages == had);
                    assert(now =~= before.update(i as int, entry_view));
                    lemma_held_at(before, i as int, node@, 0);
                    lemma_held_update(before, i as int, entry_view, node@, 0);
                    assert forall|other: Seq<char>| other != node@ implies #[trigger] self.held(
                        other,
                    ) == old(self).held(other) by {
                        lemma_held_update(before, i as int, entry_view, other, 0);
                    }
                }
            },
            None => {
                let entry = NodeBatch { node: owned(node), messages };
                let ghost entry_view = entry@;
                self.entries.push(entry);
                proof {
                    let now = sorting::views(self.entries@);
                    assert(now =~= before.push(entry_view));
                    lemma_held_none(before, node@, 0);
                    lemma_held_push(before, entry_view, node@, 0);
                    assert(Seq::<relay::RelayView>::empty() + more =~= more);
                    assert forall|other: Seq<char>| other != node@ implies #[trigger] self.held(
                        other,
                    ) == old(self).held(other) by {
                        lemma_held_push(before, entry_view, other, 0);
                    }
                }
            },
        }
    }

    /// Lets a message wait with those of the node that sent it.
    pub fn push(&mut self, message: RelayMessage)
        ensures
            final(self).held(message@.src_node_id) == old(self).held(message@.src_node_id).push(
                message@,
            ),
            forall|other: Seq<char>|
                other != message@.src_node_id ==> #[trigger] final(self).held(other) == old(
                    self,
                ).held(other),
    {
        let node = owned(message.src_node_id.as_str());
        let ghost message_view = message@;
        let mut one: Vec<RelayMessage> = Vec::new();
        one.push(message);
        proof {
            assert(sorting::views(one@) =~= seq![message_view]);
            assert(self.held(node@) + seq![message_view] =~= self.held(node@).push(message_view));
        }
        self.append(node.as_str(), one);
    }

    /// Takes what waits of a node.
    pub fn take(&mut self, node: &str) -> (r: Vec<RelayMessage>)
        ensures
            sorting::views(r@) == old(self).held(node@),
            final(self).held(node@) == Seq::<relay::RelayView>::empty(),
            forall|other: Seq<char>|
                other != node@ ==> #[trigger] final(self).held(other) == old(self).held(other),
    {
        let ghost before = sorting::views(self.entries@);
        match self.find(node) {
            Some(i) => {
                let mut list: Vec<RelayMessage> = Vec::new();
                std::mem::swap(&mut list, &mut self.entries[i].messages);
                proof {
                    let now = sorting::views(self.entries@);
                    let entry = now[i as int];
                    assert(before[i as int].messages == sorting::views(list@));
                    assert(entry.messages =~= Seq::empty());
                    assert(now =~= before.update(i as int, entry));
                    lemma_held_at(before, i as int, node@, 0);
                    lemma_held_update(before, i as int, entry, node@, 0);
                    assert forall|other: Seq<char>| other != node@ implies #[trigger] self.held(
                        other,
                    ) == old(self).held(other) by {
                        lemma_held_update(before, i as int, entry, other, 0);
                    }
                }
                list
            },
            None => {
                let list: Vec<RelayMessage> = Vec::new();
                proof {
                    lemma_held_none(before, node@, 0);
                    assert(sorting::views(list@) =~= Seq::empty());
                }
                list
            },
        }
    }
}

} // verus!
