//! What chance decides about a frame, from a seed on.
use rand::{Rng, RngCore, SeedableRng};
use vstd::arithmetic::power2;
use vstd::prelude::*;

use crate::sorting;
use crate::zenoh_coordinator::relay;
use crate::zenoh_coordinator::relay::{
    hop_message, Channel, Frame, FrameView, Hop, HopView, RelayMessage, RelayView,
};

verus! {

/// The generator of ChaCha with eight rounds.
#[verifier::external_type_specification]
#[verifier::external_body]
pub struct ExChaCha8Rng(rand_chacha::ChaCha8Rng);

/// What was drawn since the start, one entry for each draw: a whole word, or a number up to a
/// limit.
pub type Draws = Seq<Option<u64>>;

/// The seed that a generator started with, and what was drawn from it.
pub uninterp spec fn history_of(rng: rand_chacha::ChaCha8Rng) -> (u64, Draws);

/// The word that comes after earlier draws from a seed.
pub uninterp spec fn word_after(seed: u64, draws: Seq<Option<u64>>) -> u64;

/// The number up to a limit that comes after earlier draws from a seed.
pub uninterp spec fn number_after(seed: u64, draws: Seq<Option<u64>>, max: u64) -> u64;

/// `ChaCha8Rng::seed_from_u64`: the generator has the seed, and nothing was drawn from it.
#[verifier::external_body]
fn seeded(seed: u64) -> (r: rand_chacha::ChaCha8Rng)
    ensures
        history_of(r) == (seed, Draws::empty()),
{
    rand_chacha::ChaCha8Rng::seed_from_u64(seed)
}

/// `RngCore::next_u64`: the word is named, since the seed and the draws before decide it.
#[verifier::external_body]
fn next_word(rng: &mut rand_chacha::ChaCha8Rng) -> (r: u64)
    ensures
        r == word_after(history_of(*old(rng)).0, history_of(*old(rng)).1),
        history_of(*final(rng)) == (
            history_of(*old(rng)).0,
            history_of(*old(rng)).1.push(None),
        ),
{
    rng.next_u64()
}

/// `Rng::gen_range` over a range with both its ends: the number is within the range, and is named,
/// since the seed and the draws before decide it.
#[verifier::external_body]
fn draw_up_to(rng: &mut rand_chacha::ChaCha8Rng, max: u64) -> (r: u64)
    ensures
        r <= max,
        r == number_after(history_of(*old(rng)).0, history_of(*old(rng)).1, max),
        history_of(*final(rng)) == (
            history_of(*old(rng)).0,
            history_of(*old(rng)).1.push(Some(max)),
        ),
{
    rng.gen_range(0..=max)
}

/// The seed that random numbers start with: that of the topology, if it has one.
pub fn starting_seed(topology_seed: Option<u64>, seed: u64) -> (r: u64)
    ensures
        r == match topology_seed {
            Some(s) => s,
            None => seed,
        },
{
    match topology_seed {
        Some(s) => s,
        None => seed,
    }
}

/// The bits of one as a double.
pub const ONE_BITS: u64 = 0x3ff0_0000_0000_0000;

/// The bits of infinity as a double.
pub const INFINITY_BITS: u64 = 0x7ff0_0000_0000_0000;

/// The number of values of the fraction of a double.
pub const FRACTION_RANGE: u64 = 0x10_0000_0000_0000;

/// The double is a number above zero.
pub open spec fn is_positive(bits: u64) -> bool {
    0 < bits <= INFINITY_BITS
}

/// The fraction of a double below one, as a whole number.
pub open spec fn significand(bits: u64) -> nat {
    if bits < FRACTION_RANGE {
        bits as nat
    } else {
        (FRACTION_RANGE + bits % FRACTION_RANGE) as nat
    }
}

/// By how many places the fraction of a double below one stands behind those of a drawn fraction.
pub open spec fn places(bits: u64) -> nat {
    if bits < FRACTION_RANGE {
        1021
    } else {
        (1022 - bits / FRACTION_RANGE) as nat
    }
}

/// A fraction between zero and one, made of the upper 53 bits of a word, is below a probability,
/// which is given by its bits as a double.
pub open spec fn is_below(word: u64, bits: u64) -> bool {
    &&& is_positive(bits)
    &&& bits >= ONE_BITS || (word / 2048) * power2::pow2(places(bits)) < significand(bits)
}

/// Whether the fraction that a word makes is below a probability.
pub fn fraction_below(word: u64, bits: u64) -> (r: bool)
    ensures
        r == is_below(word, bits),
{
    if bits == 0 || bits > INFINITY_BITS {
        return false;
    }
    if bits >= ONE_BITS {
        return true;
    }
    let n: u64 = word / 2048;
    let small: bool = bits < FRACTION_RANGE;
    let m: u64 = if small {
        bits
    } else {
        FRACTION_RANGE + bits % FRACTION_RANGE
    };
    let s: u64 = if small {
        1021
    } else {
        1022 - bits / FRACTION_RANGE
    };
    proof {
        assert(m == significand(bits));
        assert(s == places(bits));
        power2::lemma2_to64();
        power2::lemma2_to64_rest();
    }
    if n == 0 {
        proof {
            assert(n * power2::pow2(s as nat) == 0) by (nonlinear_arith)
                requires
                    n == 0,
            ;
        }
        return true;
    }
    if s >= 53 {
        proof {
            if s > 53 {
                power2::lemma_pow2_strictly_increases(53, s as nat);
            }
            assert(n * power2::pow2(s as nat) >= power2::pow2(s as nat)) by (nonlinear_arith)
                requires
                    n >= 1,
            ;
        }
        return false;
    }
    let mut p: u128 = 1;
    let mut i: u64 = 0;
    while i < s
        invariant
            i <= s <= 52,
            p == power2::pow2(i as nat),
            p <= 0x10_0000_0000_0000,
        decreases s - i,
    {
        proof {
            power2::lemma2_to64();
            power2::lemma2_to64_rest();
            power2::lemma_pow2_unfold((i + 1) as nat);
            if i + 1 < 52 {
                power2::lemma_pow2_strictly_increases((i + 1) as nat, 52);
            }
        }
        p = p * 2;
        i += 1;
    }
    proof {
        assert(n as u128 * p <= 0x20_0000_0000_0000 * 0x10_0000_0000_0000) by (nonlinear_arith)
            requires
                n < 0x20_0000_0000_0000,
                p <= 0x10_0000_0000_0000,
        ;
    }
    (n as u128) * p < m as u128
}

/// What has no chance never happens, and what is certain always does.
pub proof fn law_chance_has_its_ends(word: u64, bits: u64)
    ensures
        bits == 0 ==> !is_below(word, bits),
        ONE_BITS <= bits <= INFINITY_BITS ==> is_below(word, bits),
{
}

/// A frame with its loss and lateness decided: what becomes of it, and what was drawn for that. On
/// some channels no frame is lost, and all are on time.
pub open spec fn travelled(
    seed: u64,
    draws: Draws,
    channel: Channel,
    src: Seq<char>,
    hop: HopView,
    frame: FrameView,
) -> (Option<RelayView>, Draws) {
    let lost = is_positive(hop.drop_bits) && is_below(word_after(seed, draws), hop.drop_bits);
    let next = if is_positive(hop.drop_bits) {
        draws.push(None)
    } else {
        draws
    };
    if !channel.takes_chances() {
        (Some(relay::hop_message_of(channel, src, hop, frame, 0)), draws)
    } else if lost {
        (None, next)
    } else if hop.jitter_ns > 0 {
        (
            Some(
                relay::hop_message_of(
                    channel,
                    src,
                    hop,
                    frame,
                    number_after(seed, next, hop.jitter_ns),
                ),
            ),
            next.push(Some(hop.jitter_ns)),
        )
    } else {
        (Some(relay::hop_message_of(channel, src, hop, frame, 0)), next)
    }
}

/// What decides by chance which frames are lost and how late the others are.
#[derive(Debug)]
pub struct JitterSource {
    rng: rand_chacha::ChaCha8Rng,
}

impl View for JitterSource {
    type V = (u64, Draws);

    closed spec fn view(&self) -> (u64, Draws) {
        history_of(self.rng)
    }
}

impl JitterSource {
    /// Chance that starts from a seed.
    pub fn new(seed: u64) -> (r: Self)
        ensures
            r@ == (seed, Draws::empty()),
    {
        JitterSource { rng: seeded(seed) }
    }

    /// Whether a frame is lost; chance is asked only where there is a probability.
    pub fn drops(&mut self, drop_bits: u64) -> (r: bool)
        ensures
            r == (is_positive(drop_bits) && is_below(word_after(old(self)@.0, old(self)@.1), drop_bits)),
            final(self)@ == (
                old(self)@.0,
                if is_positive(drop_bits) {
                    old(self)@.1.push(None)
                } else {
                    old(self)@.1
                },
            ),
    {
        if drop_bits == 0 || drop_bits > INFINITY_BITS {
            return false;
        }
        let word: u64 = next_word(&mut self.rng);
        fraction_below(word, drop_bits)
    }

    /// By how much a frame is late; a number is drawn only where there is a choice.
    pub fn draw(&mut self, max: u64) -> (r: u64)
        ensures
            r <= max,
            max > 0 ==> r == number_after(old(self)@.0, old(self)@.1, max),
            final(self)@ == (
                old(self)@.0,
                if max > 0 {
                    old(self)@.1.push(Some(max))
                } else {
                    old(self)@.1
                },
            ),
    {
        if max > 0 {
            draw_up_to(&mut self.rng, max)
        } else {
            0
        }
    }

    /// The message that travels one way, unless it is lost.
    pub fn message(&mut self, channel: Channel, src: &str, hop: &Hop, frame: &Frame) -> (r: Option<
        RelayMessage,
    >)
        ensures
            ({
                let t = travelled(old(self)@.0, old(self)@.1, channel, src@, hop@, frame@);
                &&& match (r, t.0) {
                    (Some(m), Some(v)) => m@ == v,
                    (None, None) => true,
                    _ => false,
                }
                &&& final(self)@ == (old(self)@.0, t.1)
            }),
    {
        if channel.is_sure() {
            return Some(hop_message(channel, src, hop, frame, 0));
        }
        if self.drops(hop.drop_bits) {
            return None;
        }
        let jitter: u64 = self.draw(hop.jitter_ns);
        Some(hop_message(channel, src, hop, frame, jitter))
    }

    /// The messages that travel from one node, one for each way on which the frame is not lost.
    pub fn messages(&mut self, channel: Channel, src: &str, hops: &Vec<Hop>, frame: &Frame) -> (r:
        Vec<RelayMessage>)
        ensures
            ({
                let t = all_travelled(
                    old(self)@.0,
                    old(self)@.1,
                    channel,
                    src@,
                    sorting::views(hops@),
                    frame@,
                    hops@.len() as int,
                );
                &&& sorting::views(r@) == t.0
                &&& final(self)@ == (old(self)@.0, t.1)
            }),
    {
        let ghost all = sorting::views(hops@);
        let ghost start = self@;
        let mut r: Vec<RelayMessage> = Vec::new();
        let mut i: usize = 0;
        proof {
            assert(sorting::views(r@) =~= Seq::empty());
        }
        while i < hops.len()
            invariant
                i <= hops@.len(),
                all == sorting::views(hops@),
                start == old(self)@,
                ({
                    let t = all_travelled(
                        start.0,
                        start.1,
                        channel,
                        src@,
                        all,
                        frame@,
                        i as int,
                    );
                    &&& sorting::views(r@) == t.0
                    &&& self@ == (start.0, t.1)
                }),
            decreases hops@.len() - i,
        {
            proof {
                assert(all[i as int] == hops@[i as int]@);
            }
            match self.message(channel, src, &hops[i], frame) {
                Some(m) => {
                    let ghost before = sorting::views(r@);
                    let ghost view = m@;
                    r.push(m);
                    proof {
                        assert(sorting::views(r@) =~= before.push(view));
                    }
                },
                None => {},
            }
            i += 1;
        }
        r
    }
}

/// What becomes of a frame on the first `n` ways, and what was drawn for that.
pub open spec fn all_travelled(
    seed: u64,
    draws: Draws,
    channel: Channel,
    src: Seq<char>,
    hops: Seq<HopView>,
    frame: FrameView,
    n: int,
) -> (Seq<RelayView>, Draws)
    decreases n,
{
    if n <= 0 || n > hops.len() {
        (Seq::empty(), draws)
    } else {
        let front = all_travelled(seed, draws, channel, src, hops, frame, n - 1);
        let last = travelled(seed, front.1, channel, src, hops[n - 1], frame);
        match last.0 {
            Some(m) => (front.0.push(m), last.1),
            None => (front.0, last.1),
        }
    }
}

} // verus!
