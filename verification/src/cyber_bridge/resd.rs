//! Files of recorded sensor data.
use vstd::prelude::*;

use crate::wire;
use crate::wire::push_le;

verus! {

/// A file of one channel of numbers at fixed intervals: the bytes before the numbers.
pub open spec fn recording_header(samples: nat, period_ns: u64) -> Seq<u8> {
    seq![82u8, 69, 83, 68, 1, 0, 0, 0, 2] + wire::le_bytes(10, 2) + wire::le_bytes(0, 2)
        + wire::le_bytes(24 + 8 * samples, 8) + wire::le_bytes(0, 8) + wire::le_bytes(
        period_ns as nat,
        8,
    ) + wire::le_bytes(0, 8)
}

/// The numbers one after the other.
pub open spec fn recorded_words(values: Seq<u64>) -> Seq<u8>
    decreases values.len(),
{
    if values.len() == 0 {
        Seq::empty()
    } else {
        recorded_words(values.drop_last()) + wire::le_bytes(values.last() as nat, 8)
    }
}

/// A file of one channel of numbers, given as bit patterns, at fixed intervals.
pub fn recording(values: &Vec<u64>, period_ns: u64) -> (r: Vec<u8>)
    requires
        24 + 8 * values@.len() <= u64::MAX,
    ensures
        r@ == recording_header(values@.len(), period_ns) + recorded_words(values@),
{
    let mut out: Vec<u8> = Vec::new();
    out.push(82);
    out.push(69);
    out.push(83);
    out.push(68);
    out.push(1);
    out.push(0);
    out.push(0);
    out.push(0);
    out.push(2);
    push_le(&mut out, 10, 2);
    push_le(&mut out, 0, 2);
    let size: u64 = 24 + 8 * values.len() as u64;
    push_le(&mut out, size, 8);
    push_le(&mut out, 0, 8);
    push_le(&mut out, period_ns, 8);
    push_le(&mut out, 0, 8);
    let ghost header = out@;
    proof {
        assert(header =~= recording_header(values@.len(), period_ns));
        assert(header + recorded_words(values@.take(0)) =~= header);
    }
    let mut i: usize = 0;
    while i < values.len()
        invariant
            i <= values@.len(),
            out@ == header + recorded_words(values@.take(i as int)),
        decreases values@.len() - i,
    {
        let ghost before = out@;
        push_le(&mut out, values[i], 8);
        proof {
            let now = values@.take(i + 1);
            assert(now.drop_last() =~= values@.take(i as int));
            assert(out@ =~= header + recorded_words(now));
        }
        i += 1;
    }
    proof {
        assert(values@.take(i as int) =~= values@);
    }
    out
}

/// The header says how much follows it behind the size: its own rest and the numbers.
pub proof fn law_recording_size(values: Seq<u64>, period_ns: u64)
    requires
        24 + 8 * values.len() <= u64::MAX,
    ensures
        ({
            let bytes = recording_header(values.len(), period_ns) + recorded_words(values);
            wire::le_at(bytes, 13, 8) == bytes.len() - 21
        }),
{
    let h = recording_header(values.len(), period_ns);
    let size = 24 + 8 * values.len();
    wire::lemma_le_bytes_len(10, 2);
    wire::lemma_le_bytes_len(0, 2);
    wire::lemma_le_bytes_len(size, 8);
    wire::lemma_le_bytes_len(0, 8);
    wire::lemma_le_bytes_len(period_ns as nat, 8);
    reveal_with_fuel(wire::byte_range, 9);
    wire::law_le_round_trip(size, 8);
    lemma_words_len(values);
    let bytes = h + recorded_words(values);
    assert(bytes.subrange(13, 21) =~= wire::le_bytes(size, 8));
}

proof fn lemma_words_len(values: Seq<u64>)
    ensures
        recorded_words(values).len() == 8 * values.len(),
    decreases values.len(),
{
    if values.len() > 0 {
        lemma_words_len(values.drop_last());
        wire::lemma_le_bytes_len(values.last() as nat, 8);
    }
}

} // verus!
