//! Control messages that change which links drop their traffic.
use vstd::prelude::*;

use crate::deterministic_coordinator::graph::{contains_pair, GraphView, TopologyGraph};
use crate::json;
use crate::json::{json_number_field, json_text_field};
use crate::text;
use crate::text::{owned, parse_unsigned};

verus! {

/// What a drop probability means for a link.
#[derive(Debug, Clone, Copy, PartialEq, Eq, Structural)]
pub enum DropLevel {
    /// As good as always: the link is cut.
    Cut,
    /// As good as never: the link works again.
    Restore,
    Keep,
}

/// The bit pattern of the double 0.99.
pub const CUT_BITS: u64 = 0x3fefae147ae147ae;

/// The bit pattern of the double 0.01.
pub const RESTORE_BITS: u64 = 0x3f847ae147ae147b;

/// The bit pattern of infinity: greater patterns without a sign are no numbers.
pub const INFINITY_BITS: u64 = 0x7ff0000000000000;

/// The sign bit.
pub const SIGN_BIT: u64 = 0x8000000000000000;

/// What the double with the pattern `bits` means. Doubles without a sign are ordered as their
/// patterns are, and those with a sign are below all of them.
pub open spec fn level_of(bits: u64) -> DropLevel {
    if bits < SIGN_BIT {
        if CUT_BITS <= bits <= INFINITY_BITS {
            DropLevel::Cut
        } else if bits <= RESTORE_BITS {
            DropLevel::Restore
        } else {
            DropLevel::Keep
        }
    } else if bits - SIGN_BIT <= INFINITY_BITS {
        DropLevel::Restore
    } else {
        DropLevel::Keep
    }
}

/// What a drop probability means, given the bit pattern of the double.
pub fn drop_level(bits: u64) -> (level: DropLevel)
    ensures
        level == level_of(bits),
{
    if bits < SIGN_BIT {
        if CUT_BITS <= bits && bits <= INFINITY_BITS {
            DropLevel::Cut
        } else if bits <= RESTORE_BITS {
            DropLevel::Restore
        } else {
            DropLevel::Keep
        }
    } else if bits - SIGN_BIT <= INFINITY_BITS {
        DropLevel::Restore
    } else {
        DropLevel::Keep
    }
}

/// Why a control message was not taken.
#[derive(Debug, Clone, PartialEq, Eq)]
pub enum ControlError {
    InvalidJson,
    /// A node is named by something that is no number.
    InvalidNode(String),
}

#[verifier::ext_equal]
pub enum ControlErrorView {
    InvalidJson,
    InvalidNode(Seq<char>),
}

impl View for ControlError {
    type V = ControlErrorView;

    open spec fn view(&self) -> ControlErrorView {
        match self {
            ControlError::InvalidJson => ControlErrorView::InvalidJson,
            ControlError::InvalidNode(s) => ControlErrorView::InvalidNode(s@),
        }
    }
}

/// The pairs whose traffic is dropped once the link from `from` to `to` is at `level`. A link is
/// cut in one direction and restored in both.
pub open spec fn drops_after(
    drops: Set<(u32, u32)>,
    from: u32,
    to: u32,
    level: DropLevel,
) -> Set<(u32, u32)> {
    match level {
        DropLevel::Cut => drops.insert((from, to)),
        DropLevel::Restore => drops.remove((from, to)).remove((to, from)),
        DropLevel::Keep => drops,
    }
}

/// What a link state with all its fields comes to.
pub open spec fn link_state_after(
    drops: Set<(u32, u32)>,
    from: Seq<char>,
    to: Seq<char>,
    bits: u64,
) -> Result<Set<(u32, u32)>, ControlErrorView> {
    match text::parsed_unsigned(from, u32::MAX as nat) {
        None => Err(ControlErrorView::InvalidNode(from)),
        Some(a) => match text::parsed_unsigned(to, u32::MAX as nat) {
            None => Err(ControlErrorView::InvalidNode(to)),
            Some(b) => Ok(drops_after(drops, a as u32, b as u32, level_of(bits))),
        },
    }
}

/// What a control message comes to: one that lacks a field changes nothing.
pub open spec fn control_after(drops: Set<(u32, u32)>, message: Seq<char>) -> Result<
    Set<(u32, u32)>,
    ControlErrorView,
> {
    match json::json_text_field_of(message, "from"@) {
        None => Err(ControlErrorView::InvalidJson),
        Some(from) => match json::json_text_field_of(message, "to"@) {
            None => Err(ControlErrorView::InvalidJson),
            Some(to) => match json::json_number_field_of(message, "drop_probability"@) {
                None => Err(ControlErrorView::InvalidJson),
                Some(bits) => if from is Some && to is Some && bits is Some {
                    link_state_after(drops, from->0, to->0, bits->0)
                } else {
                    Ok(drops)
                },
            },
        },
    }
}

fn without_pair(pairs: &Vec<(u32, u32)>, a: u32, b: u32) -> (kept: Vec<(u32, u32)>)
    ensures
        kept@.to_set() == pairs@.to_set().remove((a, b)),
{
    let mut kept: Vec<(u32, u32)> = Vec::new();
    let mut i: usize = 0;
    while i < pairs.len()
        invariant
            i <= pairs@.len(),
            forall|p: (u32, u32)| #[trigger]
                kept@.contains(p) <==> pairs@.take(i as int).contains(p) && p != (a, b),
        decreases pairs@.len() - i,
    {
        let pair: (u32, u32) = pairs[i];
        let ghost before = kept@;
        let ghost seen = pairs@.take(i as int);
        let ghost now = pairs@.take(i + 1);
        let drop_it: bool = pair.0 == a && pair.1 == b;
        if !drop_it {
            kept.push(pair);
        }
        proof {
            assert(now =~= seen.push(pair));
            assert forall|p: (u32, u32)| #[trigger] kept@.contains(p) <==> now.contains(p) && p != (
                a,
                b,
            ) by {
                lemma_push_contains(seen, pair, p);
                lemma_push_contains(before, pair, p);
                assert(before.contains(p) <==> seen.contains(p) && p != (a, b));
            }
        }
        i += 1;
    }
    proof {
        assert(pairs@.take(i as int) =~= pairs@);
        assert(kept@.to_set() =~= pairs@.to_set().remove((a, b)));
    }
    kept
}

proof fn lemma_push_contains(s: Seq<(u32, u32)>, x: (u32, u32), p: (u32, u32))
    ensures
        s.push(x).contains(p) <==> s.contains(p) || p == x,
{
    let t = s.push(x);
    if s.contains(p) {
        let k = choose|k: int| 0 <= k < s.len() && s[k] == p;
        assert(t[k] == p);
    }
    if p == x {
        assert(t[s.len() as int] == p);
    }
    if t.contains(p) {
        let k = choose|k: int| 0 <= k < t.len() && t[k] == p;
        if k < s.len() {
            assert(s[k] == p);
        }
    }
}

impl TopologyGraph {
    /// Cuts or restores the link from `from` to `to`, as the drop probability with the bit pattern
    /// `bits` says.
    pub fn set_link_state(&mut self, from: &str, to: &str, bits: u64) -> (r: Result<
        (),
        ControlError,
    >)
        ensures
            match r {
                Ok(_) => link_state_after(old(self)@.drops, from@, to@, bits) == Ok::<
                    Set<(u32, u32)>,
                    ControlErrorView,
                >(final(self)@.drops) && final(self)@ == (GraphView {
                    drops: final(self)@.drops,
                    ..old(self)@
                }),
                Err(e) => link_state_after(old(self)@.drops, from@, to@, bits) == Err::<
                    Set<(u32, u32)>,
                    ControlErrorView,
                >(e@) && final(self)@ == old(self)@,
            },
    {
        let a: u32 = match parse_unsigned(from, u32::MAX as u64) {
            Some(n) => n as u32,
            None => {
                return Err(ControlError::InvalidNode(owned(from)));
            },
        };
        let b: u32 = match parse_unsigned(to, u32::MAX as u64) {
            Some(n) => n as u32,
            None => {
                return Err(ControlError::InvalidNode(owned(to)));
            },
        };
        let ghost before = self@;
        match drop_level(bits) {
            DropLevel::Cut => {
                if !contains_pair(&self.drop_list, a, b) {
                    let ghost list = self.drop_list@;
                    self.drop_list.push((a, b));
                    proof {
                        assert forall|p: (u32, u32)| self.drop_list@.to_set().contains(p)
                            <==> before.drops.insert((a, b)).contains(p) by {
                            lemma_push_contains(list, (a, b), p);
                        }
                    }
                }
                proof {
                    assert(self@.drops =~= before.drops.insert((a, b)));
                }
            },
            DropLevel::Restore => {
                self.drop_list = without_pair(&self.drop_list, a, b);
                self.drop_list = without_pair(&self.drop_list, b, a);
            },
            DropLevel::Keep => {},
        }
        Ok(())
    }

    /// Takes a control message: a JSON object with `from`, `to` and `drop_probability`.
    pub fn update_from_json(&mut self, json_str: &str) -> (r: Result<(), ControlError>)
        ensures
            match r {
                Ok(_) => control_after(old(self)@.drops, json_str@) == Ok::<
                    Set<(u32, u32)>,
                    ControlErrorView,
                >(final(self)@.drops) && final(self)@ == (GraphView {
                    drops: final(self)@.drops,
                    ..old(self)@
                }),
                Err(e) => control_after(old(self)@.drops, json_str@) == Err::<
                    Set<(u32, u32)>,
                    ControlErrorView,
                >(e@) && final(self)@ == old(self)@,
            },
    {
        let from = match json_text_field(json_str, "from") {
            Ok(from) => from,
            Err(_) => {
                return Err(ControlError::InvalidJson);
            },
        };
        let to = match json_text_field(json_str, "to") {
            Ok(to) => to,
            Err(_) => {
                return Err(ControlError::InvalidJson);
            },
        };
        let bits = match json_number_field(json_str, "drop_probability") {
            Ok(bits) => bits,
            Err(_) => {
                return Err(ControlError::InvalidJson);
            },
        };
        match (from, to, bits) {
            (Some(from), Some(to), Some(bits)) => self.set_link_state(
                from.as_str(),
                to.as_str(),
                bits,
            ),
            _ => Ok(()),
        }
    }
}

/// A link that was cut passes nothing in either direction, whatever the topology.
pub proof fn law_cut_link_passes_nothing(
    g: GraphView,
    from: u32,
    to: u32,
    protocol: crate::deterministic_coordinator::topology::Protocol,
)
    ensures
        ({
            let cut = GraphView {
                drops: drops_after(g.drops, from, to, DropLevel::Cut),
                ..g
            };
            &&& !crate::deterministic_coordinator::graph::link_allowed(cut, from, to, protocol)
            &&& !crate::deterministic_coordinator::graph::link_allowed(cut, to, from, protocol)
        }),
{
}

/// Restoring a link undoes a cut in either direction.
pub proof fn law_restore_undoes_cut(drops: Set<(u32, u32)>, from: u32, to: u32)
    requires
        !drops.contains((from, to)),
        !drops.contains((to, from)),
    ensures
        drops_after(
            drops_after(drops, from, to, DropLevel::Cut),
            from,
            to,
            DropLevel::Restore,
        ) == drops,
        drops_after(
            drops_after(drops, from, to, DropLevel::Cut),
            to,
            from,
            DropLevel::Restore,
        ) == drops,
{
    assert(drops_after(
        drops_after(drops, from, to, DropLevel::Cut),
        from,
        to,
        DropLevel::Restore,
    ) =~= drops);
    assert(drops_after(
        drops_after(drops, from, to, DropLevel::Cut),
        to,
        from,
        DropLevel::Restore,
    ) =~= drops);
}

} // verus!
