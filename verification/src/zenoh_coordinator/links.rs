//! What is known of the links between nodes: how long they take, and what they lose.
use vstd::prelude::*;

use crate::sorting;
use crate::text::{owned, same_text};

verus! {

/// The state of a link.
#[derive(Debug, Clone, Copy, PartialEq, Eq, Structural)]
pub struct LinkState {
    pub delay_ns: u64,
    /// The bit pattern of the probability that a frame is lost.
    pub drop_bits: u64,
    /// By how much a frame may be late beyond the delay.
    pub jitter_ns: u64,
    pub enable_collisions: bool,
}

/// The state of a link that nothing was said of: the bit pattern 0 is that of the number 0.
pub open spec fn plain_link(delay_ns: u64) -> LinkState {
    LinkState { delay_ns, drop_bits: 0, jitter_ns: 0, enable_collisions: false }
}

/// A change of a link; what it does not mention stays.
#[derive(Debug, Clone, PartialEq, Eq)]
pub struct TopologyUpdate {
    pub from: String,
    pub to: String,
    pub delay_ns: Option<u64>,
    pub drop_bits: Option<u64>,
    pub jitter_ns: Option<u64>,
    pub enable_collisions: Option<bool>,
}

/// The state of a link after a change.
pub open spec fn changed(s: LinkState, up: TopologyUpdate) -> LinkState {
    LinkState {
        delay_ns: match up.delay_ns {
            Some(d) => d,
            None => s.delay_ns,
        },
        drop_bits: match up.drop_bits {
            Some(p) => p,
            None => s.drop_bits,
        },
        jitter_ns: match up.jitter_ns {
            Some(j) => j,
            None => s.jitter_ns,
        },
        enable_collisions: match up.enable_collisions {
            Some(c) => c,
            None => s.enable_collisions,
        },
    }
}

/// A link and its state.
#[derive(Debug, Clone, PartialEq, Eq)]
pub struct LinkEntry {
    pub from: String,
    pub to: String,
    pub state: LinkState,
}

#[verifier::ext_equal]
pub struct LinkEntryView {
    pub from: Seq<char>,
    pub to: Seq<char>,
    pub state: LinkState,
}

impl View for LinkEntry {
    type V = LinkEntryView;

    open spec fn view(&self) -> LinkEntryView {
        LinkEntryView { from: self.from@, to: self.to@, state: self.state }
    }
}

/// The links that something was said of; each stands here once.
#[derive(Debug, Clone, PartialEq, Eq)]
pub struct LinkStates {
    entries: Vec<LinkEntry>,
}

impl View for LinkStates {
    type V = Seq<LinkEntryView>;

    closed spec fn view(&self) -> Seq<LinkEntryView> {
        sorting::views(self.entries@)
    }
}

/// The index from `i` on at which a link stands.
pub open spec fn entry_index(s: Seq<LinkEntryView>, from: Seq<char>, to: Seq<char>, i: int) -> Option<
    int,
>
    decreases s.len() - i,
{
    if i < 0 || i >= s.len() {
        None
    } else if s[i].from == from && s[i].to == to {
        Some(i)
    } else {
        entry_index(s, from, to, i + 1)
    }
}

/// The state of a link, if something was said of it.
pub open spec fn state_of(s: Seq<LinkEntryView>, from: Seq<char>, to: Seq<char>) -> Option<
    LinkState,
> {
    match entry_index(s, from, to, 0) {
        Some(i) => Some(s[i].state),
        None => None,
    }
}

/// The links after a change: a link that nothing was said of starts out plain.
pub open spec fn with_update(s: Seq<LinkEntryView>, up: TopologyUpdate, delay_ns: u64) -> Seq<
    LinkEntryView,
> {
    match entry_index(s, up.from@, up.to@, 0) {
        Some(i) => s.update(i, LinkEntryView { state: changed(s[i].state, up), ..s[i] }),
        None => s.push(
            LinkEntryView {
                from: up.from@,
                to: up.to@,
                state: changed(plain_link(delay_ns), up),
            },
        ),
    }
}

proof fn lemma_entry_index(s: Seq<LinkEntryView>, from: Seq<char>, to: Seq<char>, i: int)
    requires
        0 <= i,
    ensures
        match entry_index(s, from, to, i) {
            Some(k) => i <= k < s.len() && s[k].from == from && s[k].to == to && forall|j: int|
                i <= j < k ==> !((#[trigger] s[j]).from == from && s[j].to == to),
            None => forall|j: int|
                i <= j < s.len() ==> !((#[trigger] s[j]).from == from && s[j].to == to),
        },
    decreases s.len() - i,
{
    if i < s.len() && !(s[i].from == from && s[i].to == to) {
        lemma_entry_index(s, from, to, i + 1);
    }
}

proof fn lemma_entry_index_is(
    s: Seq<LinkEntryView>,
    from: Seq<char>,
    to: Seq<char>,
    i: int,
    k: int,
)
    requires
        0 <= i <= k < s.len(),
        s[k].from == from,
        s[k].to == to,
        forall|j: int| i <= j < k ==> !((#[trigger] s[j]).from == from && s[j].to == to),
    ensures
        entry_index(s, from, to, i) == Some(k),
    decreases k - i,
{
    if i < k {
        assert(!(s[i].from == from && s[i].to == to));
        lemma_entry_index_is(s, from, to, i + 1, k);
    }
}

/// A change of a link changes that link and no other.
pub proof fn law_update_is_local(
    s: Seq<LinkEntryView>,
    up: TopologyUpdate,
    delay_ns: u64,
    from: Seq<char>,
    to: Seq<char>,
)
    ensures
        state_of(with_update(s, up, delay_ns), up.from@, up.to@) == Some(
            changed(
                match state_of(s, up.from@, up.to@) {
                    Some(had) => had,
                    None => plain_link(delay_ns),
                },
                up,
            ),
        ),
        (from != up.from@ || to != up.to@) ==> state_of(with_update(s, up, delay_ns), from, to)
            == state_of(s, from, to),
{
    let t = with_update(s, up, delay_ns);
    lemma_entry_index(s, up.from@, up.to@, 0);
    match entry_index(s, up.from@, up.to@, 0) {
        Some(i) => {
            assert forall|j: int| 0 <= j < i implies !((#[trigger] t[j]).from == up.from@ && t[j].to
                == up.to@) by {
                assert(t[j] == s[j]);
            }
            lemma_entry_index_is(t, up.from@, up.to@, 0, i);
        },
        None => {
            assert forall|j: int| 0 <= j < s.len() implies !((#[trigger] t[j]).from == up.from@
                && t[j].to == up.to@) by {
                assert(t[j] == s[j]);
            }
            lemma_entry_index_is(t, up.from@, up.to@, 0, s.len() as int);
        },
    }
    if from != up.from@ || to != up.to@ {
        lemma_entry_index(s, from, to, 0);
        lemma_entry_index(t, from, to, 0);
        match entry_index(s, from, to, 0) {
            Some(k) => {
                assert forall|j: int| 0 <= j < k implies !((#[trigger] t[j]).from == from && t[j].to
                    == to) by {
                    assert(s[j].from == t[j].from && s[j].to == t[j].to);
                }
                assert(t[k].from == s[k].from && t[k].to == s[k].to);
                lemma_entry_index_is(t, from, to, 0, k);
            },
            None => {
                match entry_index(t, from, to, 0) {
                    Some(k) => {
                        if k < s.len() {
                            assert(s[k].from == t[k].from && s[k].to == t[k].to);
                        }
                    },
                    None => {},
                }
            },
        }
    }
}

/// After a change of a link, each of its delay, its loss, its jitter and its collisions is what the
/// change says of it, and if the change says nothing of it, what it was before; of a link that
/// nothing was said of, that is the given delay, and no loss, no jitter and no collisions.
pub proof fn law_update_sets_what_it_says(
    s: Seq<LinkEntryView>,
    up: TopologyUpdate,
    delay_ns: u64,
)
    ensures
        ({
            let had = state_of(s, up.from@, up.to@);
            let now = state_of(with_update(s, up, delay_ns), up.from@, up.to@);
            &&& now is Some
            &&& up.delay_ns is Some ==> now->0.delay_ns == up.delay_ns->0
            &&& up.drop_bits is Some ==> now->0.drop_bits == up.drop_bits->0
            &&& up.jitter_ns is Some ==> now->0.jitter_ns == up.jitter_ns->0
            &&& up.enable_collisions is Some ==> now->0.enable_collisions
                == up.enable_collisions->0
            &&& up.delay_ns is None && had is Some ==> now->0.delay_ns == had->0.delay_ns
            &&& up.drop_bits is None && had is Some ==> now->0.drop_bits == had->0.drop_bits
            &&& up.jitter_ns is None && had is Some ==> now->0.jitter_ns == had->0.jitter_ns
            &&& up.enable_collisions is None && had is Some ==> now->0.enable_collisions
                == had->0.enable_collisions
            &&& up.delay_ns is None && had is None ==> now->0.delay_ns == delay_ns
            &&& up.drop_bits is None && had is None ==> now->0.drop_bits == 0
            &&& up.jitter_ns is None && had is None ==> now->0.jitter_ns == 0
            &&& up.enable_collisions is None && had is None ==> !(now->0.enable_collisions)
        }),
{
    law_update_is_local(s, up, delay_ns, up.from@, up.to@);
}

/// A change that says nothing of a link that something was said of leaves all links as they are,
/// and the same change twice is as good as once.
pub proof fn law_update_twice(s: Seq<LinkEntryView>, up: TopologyUpdate, delay_ns: u64)
    ensures
        with_update(with_update(s, up, delay_ns), up, delay_ns) == with_update(s, up, delay_ns),
        up.delay_ns is None && up.drop_bits is None && up.jitter_ns is None
            && up.enable_collisions is None && state_of(s, up.from@, up.to@) is Some
            ==> with_update(s, up, delay_ns) == s,
{
    let t = with_update(s, up, delay_ns);
    lemma_entry_index(s, up.from@, up.to@, 0);
    match entry_index(s, up.from@, up.to@, 0) {
        Some(i) => {
            assert forall|j: int| 0 <= j < i implies !((#[trigger] t[j]).from == up.from@ && t[j].to
                == up.to@) by {
                assert(t[j] == s[j]);
            }
            lemma_entry_index_is(t, up.from@, up.to@, 0, i);
        },
        None => {
            assert forall|j: int| 0 <= j < s.len() implies !((#[trigger] t[j]).from == up.from@
                && t[j].to == up.to@) by {
                assert(t[j] == s[j]);
            }
            lemma_entry_index_is(t, up.from@, up.to@, 0, s.len() as int);
        },
    }
    assert(with_update(t, up, delay_ns) =~= t);
    if up.delay_ns is None && up.drop_bits is None && up.jitter_ns is None
        && up.enable_collisions is None && state_of(s, up.from@, up.to@) is Some {
        assert(t =~= s);
    }
}

impl LinkStates {
    /// Nothing is said of any link.
    pub fn new() -> (r: Self)
        ensures
            r@ == Seq::<LinkEntryView>::empty(),
    {
        let entries: Vec<LinkEntry> = Vec::new();
        proof {
            assert(sorting::views(entries@) =~= Seq::empty());
        }
        LinkStates { entries }
    }

    fn find(&self, from: &str, to: &str) -> (r: Option<usize>)
        ensures
            match r {
                Some(i) => entry_index(self@, from@, to@, 0) == Some(i as int) && i < self@.len(),
                None => entry_index(self@, from@, to@, 0) is None,
            },
    {
        let mut i: usize = 0;
        while i < self.entries.len()
            invariant
                i <= self.entries@.len(),
                self@ == sorting::views(self.entries@),
                entry_index(self@, from@, to@, 0) == entry_index(self@, from@, to@, i as int),
            decreases self.entries@.len() - i,
        {
            proof {
                assert(self@[i as int] == self.entries@[i as int]@);
            }
            if same_text(self.entries[i].from.as_str(), from) && same_text(
                self.entries[i].to.as_str(),
                to,
            ) {
                return Some(i);
            }
            i += 1;
        }
        None
    }

    /// The state of a link; a link that nothing was said of is plain.
    pub fn state(&self, from: &str, to: &str, delay_ns: u64) -> (r: LinkState)
        ensures
            r == match state_of(self@, from@, to@) {
                Some(s) => s,
                None => plain_link(delay_ns),
            },
    {
        match self.find(from, to) {
            Some(i) => self.entries[i].state,
            None => LinkState { delay_ns, drop_bits: 0, jitter_ns: 0, enable_collisions: false },
        }
    }

    /// Changes a link.
    pub fn update(&mut self, up: &TopologyUpdate, delay_ns: u64)
        ensures
            final(self)@ == with_update(old(self)@, *up, delay_ns),
    {
        let found = self.find(up.from.as_str(), up.to.as_str());
        let mut state: LinkState = match found {
            Some(i) => self.entries[i].state,
            None => LinkState { delay_ns, drop_bits: 0, jitter_ns: 0, enable_collisions: false },
        };
        match up.delay_ns {
            Some(d) => {
                state.delay_ns = d;
            },
            None => {},
        }
        match up.drop_bits {
            Some(p) => {
                state.drop_bits = p;
            },
            None => {},
        }
        match up.jitter_ns {
            Some(j) => {
                state.jitter_ns = j;
            },
            None => {},
        }
        match up.enable_collisions {
            Some(c) => {
                state.enable_collisions = c;
            },
            None => {},
        }
        let entry = LinkEntry { from: owned(up.from.as_str()), to: owned(up.to.as_str()), state };
        proof {
            lemma_entry_index(self@, up.from@, up.to@, 0);
        }
        match found {
            Some(i) => {
                self.entries.set(i, entry);
            },
            None => {
                self.entries.push(entry);
            },
        }
        proof {
            assert(self@ =~= with_update(old(self)@, *up, delay_ns));
        }
    }
}

} // verus!
