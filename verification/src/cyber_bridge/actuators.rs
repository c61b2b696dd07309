//! Commands to actuators, by time and actuator.
use vstd::prelude::*;

use crate::sorting;
use crate::text;
use crate::text::{decimal_text, joined4, parse_unsigned, split_text};
use crate::wire;
use crate::wire::read_words;

verus! {

/// A command to an actuator: bit patterns of values.
#[derive(Debug, PartialEq, Eq)]
pub struct ActuatorSample {
    pub vtime_ns: u64,
    pub id: u32,
    pub values: Vec<u64>,
}

#[verifier::ext_equal]
pub struct SampleView {
    pub vtime_ns: u64,
    pub id: u32,
    pub values: Seq<u64>,
}

impl View for ActuatorSample {
    type V = SampleView;

    open spec fn view(&self) -> SampleView {
        SampleView { vtime_ns: self.vtime_ns, id: self.id, values: self.values@ }
    }
}

/// One command comes before another: it is for an earlier time, or for a lesser actuator.
pub open spec fn before(a: SampleView, b: SampleView) -> bool {
    a.vtime_ns < b.vtime_ns || (a.vtime_ns == b.vtime_ns && a.id < b.id)
}

/// The commands stand in order, and no two are for the same time and actuator.
pub open spec fn ordered(s: Seq<SampleView>) -> bool {
    forall|i: int, j: int| 0 <= i < j < s.len() ==> before(#[trigger] s[i], #[trigger] s[j])
}

/// The commands by time and actuator.
pub open spec fn command_map(s: Seq<SampleView>) -> Map<(u64, u32), Seq<u64>>
    decreases s.len(),
{
    if s.len() == 0 {
        Map::empty()
    } else {
        command_map(s.drop_last()).insert((s.last().vtime_ns, s.last().id), s.last().values)
    }
}

proof fn lemma_command_map(s: Seq<SampleView>)
    requires
        ordered(s),
    ensures
        forall|k: (u64, u32)| #[trigger]
            command_map(s).contains_key(k) <==> exists|i: int|
                0 <= i < s.len() && has_key(s[i], k),
        forall|i: int|
            0 <= i < s.len() ==> command_map(s)[((#[trigger] s[i]).vtime_ns, s[i].id)]
                == s[i].values,
    decreases s.len(),
{
    if s.len() > 0 {
        let front = s.drop_last();
        assert(ordered(front));
        lemma_command_map(front);
        let last = s.last();
        assert forall|k: (u64, u32)| #[trigger] command_map(s).contains_key(k) <==> exists|i: int|
            0 <= i < s.len() && has_key(s[i], k) by {
            if exists|i: int| 0 <= i < s.len() && has_key(s[i], k) {
                let i = choose|i: int| 0 <= i < s.len() && has_key(s[i], k);
                if i < front.len() {
                    assert(has_key(front[i], k));
                    assert(command_map(front).contains_key(k));
                }
            }
            if command_map(s).contains_key(k) {
                if k == (last.vtime_ns, last.id) {
                    assert(has_key(s[s.len() - 1], k));
                } else {
                    assert(command_map(front).contains_key(k));
                    let i = choose|i: int| 0 <= i < front.len() && has_key(front[i], k);
                    assert(has_key(s[i], k));
                }
            }
        }
        assert forall|i: int| 0 <= i < s.len() implies command_map(s)[(
            (#[trigger] s[i]).vtime_ns,
            s[i].id,
        )] == s[i].values by {
            if i < front.len() {
                assert(front[i] == s[i]);
                assert(before(s[i], s[s.len() - 1]));
            }
        }
    }
}

pub open spec fn has_key(s: SampleView, k: (u64, u32)) -> bool {
    s.vtime_ns == k.0 && s.id == k.1
}

/// Two ordered lists with the same commands by time and actuator have equal maps.
proof fn lemma_same_map(a: Seq<SampleView>, m: Map<(u64, u32), Seq<u64>>)
    requires
        ordered(a),
        forall|k: (u64, u32)| #[trigger]
            m.contains_key(k) <==> exists|i: int| 0 <= i < a.len() && has_key(a[i], k),
        forall|i: int|
            0 <= i < a.len() ==> m[((#[trigger] a[i]).vtime_ns, a[i].id)] == a[i].values,
    ensures
        command_map(a) == m,
{
    lemma_command_map(a);
    assert forall|k: (u64, u32)| command_map(a).contains_key(k) implies #[trigger] m[k]
        == command_map(a)[k] by {
        let i = choose|i: int| 0 <= i < a.len() && has_key(a[i], k);
        assert(k == (a[i].vtime_ns, a[i].id));
    }
    assert(command_map(a) =~= m);
}

/// Commands that have come and were not taken yet.
#[derive(Debug)]
pub struct ActuatorBuffer {
    samples: Vec<ActuatorSample>,
}

impl View for ActuatorBuffer {
    type V = Map<(u64, u32), Seq<u64>>;

    closed spec fn view(&self) -> Map<(u64, u32), Seq<u64>> {
        command_map(sorting::views(self.samples@))
    }
}

impl ActuatorBuffer {
    /// The commands stand in order.
    pub closed spec fn wf(&self) -> bool {
        ordered(sorting::views(self.samples@))
    }

    pub fn new() -> (r: Self)
        ensures
            r.wf(),
            r@ == Map::<(u64, u32), Seq<u64>>::empty(),
    {
        ActuatorBuffer { samples: Vec::new() }
    }

    /// Takes note of a command; one for the same time and actuator is replaced.
    pub fn insert(&mut self, vtime_ns: u64, id: u32, values: Vec<u64>)
        requires
            old(self).wf(),
        ensures
            final(self).wf(),
            final(self)@ == old(self)@.insert((vtime_ns, id), values@),
    {
        let ghost old_list = sorting::views(self.samples@);
        let ghost m = self@.insert((vtime_ns, id), values@);
        let ghost key = (vtime_ns, id);
        proof {
            lemma_command_map(old_list);
        }
        let mut i: usize = 0;
        while i < self.samples.len() && (self.samples[i].vtime_ns < vtime_ns || (
        self.samples[i].vtime_ns == vtime_ns && self.samples[i].id < id))
            invariant
                i <= self.samples@.len(),
                old_list == sorting::views(self.samples@),
                forall|k: int|
                    0 <= k < i ==> (#[trigger] old_list[k]).vtime_ns < vtime_ns || (
                    old_list[k].vtime_ns == vtime_ns && old_list[k].id < id),
            decreases self.samples@.len() - i,
        {
            proof {
                assert(old_list[i as int] == self.samples@[i as int]@);
            }
            i += 1;
        }
        let same: bool = i < self.samples.len() && self.samples[i].vtime_ns == vtime_ns
            && self.samples[i].id == id;
        let sample = ActuatorSample { vtime_ns, id, values };
        let ghost new = sample@;
        proof {
            if i < old_list.len() {
                assert(old_list[i as int] == self.samples@[i as int]@);
                assert forall|k: int| i < k < old_list.len() implies before(
                    new,
                    #[trigger] old_list[k],
                ) by {
                    assert(before(old_list[i as int], old_list[k]));
                }
            }
        }
        if same {
            self.samples.set(i, sample);
            proof {
                let now = sorting::views(self.samples@);
                assert(now =~= old_list.update(i as int, new));
                assert forall|a: int, b: int| 0 <= a < b < now.len() implies before(
                    #[trigger] now[a],
                    #[trigger] now[b],
                ) by {
                    assert(before(old_list[a], old_list[b]));
                }
                assert forall|k: (u64, u32)| #[trigger] m.contains_key(k) <==> exists|j: int|
                    0 <= j < now.len() && has_key(now[j], k) by {
                    if m.contains_key(k) {
                        if k == key {
                            assert(has_key(now[i as int], k));
                        } else {
                            let j = choose|j: int| 0 <= j < old_list.len() && has_key(
                                old_list[j],
                                k,
                            );
                            assert(has_key(now[j], k));
                        }
                    }
                    if exists|j: int| 0 <= j < now.len() && has_key(now[j], k) {
                        let j = choose|j: int| 0 <= j < now.len() && has_key(now[j], k);
                        assert(has_key(old_list[j], k));
                    }
                }
                assert forall|j: int| 0 <= j < now.len() implies m[(
                    (#[trigger] now[j]).vtime_ns,
                    now[j].id,
                )] == now[j].values by {
                    if j != i {
                        assert(now[j] == old_list[j]);
                        if j < i {
                            assert(before(now[j], now[i as int]));
                        } else {
                            assert(before(now[i as int], now[j]));
                        }
                    }
                }
                lemma_same_map(now, m);
            }
        } else {
            self.samples.insert(i, sample);
            proof {
                let now = sorting::views(self.samples@);
                assert(now =~= old_list.insert(i as int, new));
                assert forall|a: int, b: int| 0 <= a < b < now.len() implies before(
                    #[trigger] now[a],
                    #[trigger] now[b],
                ) by {
                    let x = if a < i {
                        a
                    } else {
                        a - 1
                    };
                    let y = if b < i {
                        b
                    } else {
                        b - 1
                    };
                    if a != i && b != i {
                        assert(before(old_list[x], old_list[y]));
                    } else if a == i {
                        assert(now[b] == old_list[b - 1]);
                        if b - 1 == i {
                            assert(before(new, old_list[i as int]));
                        }
                    } else {
                        assert(now[a] == old_list[a]);
                    }
                }
                assert forall|k: (u64, u32)| #[trigger] m.contains_key(k) <==> exists|j: int|
                    0 <= j < now.len() && has_key(now[j], k) by {
                    if m.contains_key(k) {
                        if k == key {
                            assert(has_key(now[i as int], k));
                        } else {
                            let j = choose|j: int| 0 <= j < old_list.len() && has_key(
                                old_list[j],
                                k,
                            );
                            if j < i {
                                assert(has_key(now[j], k));
                            } else {
                                assert(has_key(now[j + 1], k));
                            }
                        }
                    }
                    if exists|j: int| 0 <= j < now.len() && has_key(now[j], k) {
                        let j = choose|j: int| 0 <= j < now.len() && has_key(now[j], k);
                        if j < i {
                            assert(has_key(old_list[j], k));
                        } else if j > i {
                            assert(has_key(old_list[j - 1], k));
                        }
                    }
                }
                assert forall|j: int| 0 <= j < now.len() implies m[(
                    (#[trigger] now[j]).vtime_ns,
                    now[j].id,
                )] == now[j].values by {
                    if j < i {
                        assert(now[j] == old_list[j]);
                        assert(before(now[j], now[i as int]));
                    } else if j > i {
                        assert(now[j] == old_list[j - 1]);
                        assert(before(now[i as int], now[j]));
                    }
                }
                lemma_same_map(now, m);
            }
        }
    }

    /// Takes all commands, in order.
    pub fn drain(&mut self) -> (r: Vec<ActuatorSample>)
        requires
            old(self).wf(),
        ensures
            final(self).wf(),
            final(self)@ == Map::<(u64, u32), Seq<u64>>::empty(),
            ordered(sorting::views(r@)),
            command_map(sorting::views(r@)) == old(self)@,
    {
        let mut r: Vec<ActuatorSample> = Vec::new();
        std::mem::swap(&mut r, &mut self.samples);
        r
    }
}

/// What a message to an actuator says: the actuator is the last part of the topic, and there is at
/// least one value.
pub open spec fn command_of(topic: Seq<char>, data: Seq<u8>) -> Option<(u32, Seq<u64>)> {
    match text::parsed_unsigned(text::split_on(topic, '/').last(), u32::MAX as nat) {
        Some(id) => if data.len() >= 8 {
            Some((id as u32, wire::words(data)))
        } else {
            None
        },
        None => None,
    }
}

/// Reads a message to an actuator.
pub fn read_command(topic: &str, data: &[u8]) -> (r: Option<(u32, Vec<u64>)>)
    ensures
        match r {
            Some(c) => command_of(topic@, data@) == Some((c.0, c.1@)),
            None => command_of(topic@, data@) is None,
        },
{
    let parts = split_text(topic, '/');
    let n: usize = parts.len();
    proof {
        assert(text::split_on(topic@, '/').last() == parts@[n - 1]@);
    }
    match parse_unsigned(parts[n - 1].as_str(), u32::MAX as u64) {
        Some(id) => {
            if data.len() < 8 {
                return None;
            }
            Some((id as u32, read_words(data)))
        },
        None => None,
    }
}

/// The topics of a node's actuators.
pub fn actuator_filter(prefix: &str, node_id: u32) -> (r: String)
    ensures
        r@ == prefix@ + "/"@ + text::decimal(node_id as nat) + "/**"@,
{
    joined4(prefix, "/", decimal_text(node_id as u64).as_str(), "/**")
}

} // verus!
