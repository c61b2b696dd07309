//! Little-endian integers in byte strings.
use byteorder::{LittleEndian, ReadBytesExt};
use vstd::prelude::*;

verus! {

/// The number that `bytes` writes, the least significant byte first.
pub open spec fn le_value(bytes: Seq<u8>) -> nat
    decreases bytes.len(),
{
    if bytes.len() == 0 {
        0
    } else {
        bytes[0] as nat + 256 * le_value(bytes.drop_first())
    }
}

/// The `n` least significant bytes of `v`, the least significant first.
pub open spec fn le_bytes(v: nat, n: nat) -> Seq<u8>
    decreases n,
{
    if n == 0 {
        Seq::empty()
    } else {
        seq![(v % 256) as u8] + le_bytes(v / 256, (n - 1) as nat)
    }
}

/// 256 to the power `n`.
pub open spec fn byte_range(n: nat) -> nat
    decreases n,
{
    if n == 0 {
        1
    } else {
        256 * byte_range((n - 1) as nat)
    }
}

pub proof fn lemma_le_bytes_len(v: nat, n: nat)
    ensures
        le_bytes(v, n).len() == n,
    decreases n,
{
    if n > 0 {
        lemma_le_bytes_len(v / 256, (n - 1) as nat);
    }
}

/// The low byte of a number stands first.
pub proof fn law_low_byte_first(v: nat, n: nat, i: nat)
    requires
        i < n,
    ensures
        le_bytes(v, n).len() == n,
        le_bytes(v, n)[i as int] == (v / byte_range(i)) % 256,
        byte_range(0) == 1,
        byte_range(i + 1) == 256 * byte_range(i),
    decreases n,
{
    lemma_le_bytes_len(v, n);
    if i > 0 {
        law_low_byte_first(v / 256, (n - 1) as nat, (i - 1) as nat);
        let low = byte_range((i - 1) as nat);
        assert(low > 0) by {
            lemma_byte_range_positive((i - 1) as nat);
        }
        vstd::arithmetic::div_mod::lemma_div_denominator(v as int, 256, low as int);
        assert(256 * low == byte_range(i));
        assert(le_bytes(v, n)[i as int] == le_bytes(v / 256, (n - 1) as nat)[i - 1]);
        assert((v / 256) / low == v / byte_range(i));
    } else {
        assert(byte_range(i) == 1);
        assert(v / byte_range(i) == v) by (nonlinear_arith)
            requires
                byte_range(i) == 1,
        ;
        assert(le_bytes(v, n)[0] == (v % 256) as u8);
    }
}

proof fn lemma_byte_range_positive(n: nat)
    ensures
        byte_range(n) > 0,
    decreases n,
{
    if n > 0 {
        lemma_byte_range_positive((n - 1) as nat);
    }
}

/// Reading gives back what was written, if it fits.
pub proof fn law_le_round_trip(v: nat, n: nat)
    requires
        v < byte_range(n),
    ensures
        le_value(le_bytes(v, n)) == v,
    decreases n,
{
    if n > 0 {
        let rest = le_bytes(v / 256, (n - 1) as nat);
        let all = seq![(v % 256) as u8] + rest;
        assert(all.drop_first() =~= rest);
        assert(v / 256 < byte_range((n - 1) as nat)) by {
            assert(v < 256 * byte_range((n - 1) as nat));
        }
        law_le_round_trip(v / 256, (n - 1) as nat);
        assert(all[0] == (v % 256) as u8);
    }
}

/// The number at `at` in `bytes`, `n` bytes wide.
pub open spec fn le_at(bytes: Seq<u8>, at: int, n: int) -> nat {
    le_value(bytes.subrange(at, at + n))
}

/// `ReadBytesExt::read_u16` of `byteorder` at the start of `bytes`: it fails if and only if there
/// are fewer than two bytes.
#[verifier::external_body]
pub(crate) fn read_u16_le(bytes: &[u8]) -> (r: Option<u16>)
    ensures
        match r {
            Some(v) => bytes@.len() >= 2 && v == le_at(bytes@, 0, 2),
            None => bytes@.len() < 2,
        },
{
    std::io::Cursor::new(bytes).read_u16::<LittleEndian>().ok()
}

/// `ReadBytesExt::read_u32` of `byteorder` at the start of `bytes`: it fails if and only if there
/// are fewer than four bytes.
#[verifier::external_body]
pub(crate) fn read_u32_le(bytes: &[u8]) -> (r: Option<u32>)
    ensures
        match r {
            Some(v) => bytes@.len() >= 4 && v == le_at(bytes@, 0, 4),
            None => bytes@.len() < 4,
        },
{
    std::io::Cursor::new(bytes).read_u32::<LittleEndian>().ok()
}

/// `ReadBytesExt::read_u64` of `byteorder` at the start of `bytes`: it fails if and only if there
/// are fewer than eight bytes.
#[verifier::external_body]
pub(crate) fn read_u64_le(bytes: &[u8]) -> (r: Option<u64>)
    ensures
        match r {
            Some(v) => bytes@.len() >= 8 && v == le_at(bytes@, 0, 8),
            None => bytes@.len() < 8,
        },
{
    std::io::Cursor::new(bytes).read_u64::<LittleEndian>().ok()
}

/// The number at `at`, two bytes wide.
pub fn u16_at(bytes: &[u8], at: usize) -> (v: u16)
    requires
        at + 2 <= bytes@.len(),
    ensures
        v == le_at(bytes@, at as int, 2),
{
    let n: usize = bytes.len();
    let part = vstd::slice::slice_subrange(bytes, at, at + 2);
    proof {
        assert(part@.subrange(0, 2) =~= bytes@.subrange(at as int, at + 2));
    }
    match read_u16_le(part) {
        Some(v) => v,
        None => 0,
    }
}

/// The number at `at`, four bytes wide.
pub fn u32_at(bytes: &[u8], at: usize) -> (v: u32)
    requires
        at + 4 <= bytes@.len(),
    ensures
        v == le_at(bytes@, at as int, 4),
{
    let n: usize = bytes.len();
    let part = vstd::slice::slice_subrange(bytes, at, at + 4);
    proof {
        assert(part@.subrange(0, 4) =~= bytes@.subrange(at as int, at + 4));
    }
    match read_u32_le(part) {
        Some(v) => v,
        None => 0,
    }
}

/// The number at `at`, eight bytes wide.
pub fn u64_at(bytes: &[u8], at: usize) -> (v: u64)
    requires
        at + 8 <= bytes@.len(),
    ensures
        v == le_at(bytes@, at as int, 8),
{
    let n: usize = bytes.len();
    let part = vstd::slice::slice_subrange(bytes, at, at + 8);
    proof {
        assert(part@.subrange(0, 8) =~= bytes@.subrange(at as int, at + 8));
    }
    match read_u64_le(part) {
        Some(v) => v,
        None => 0,
    }
}

/// Appends the `n` least significant bytes of `v`, the least significant first.
pub fn push_le(out: &mut Vec<u8>, v: u64, n: usize)
    ensures
        final(out)@ == old(out)@ + le_bytes(v as nat, n as nat),
{
    let ghost start = out@;
    let mut rest: u64 = v;
    let mut left: usize = n;
    proof {
        assert(out@ + le_bytes(v as nat, n as nat) =~= start + le_bytes(v as nat, n as nat));
    }
    while left > 0
        invariant
            out@ + le_bytes(rest as nat, left as nat) == start + le_bytes(v as nat, n as nat),
        decreases left,
    {
        let ghost before = out@;
        let ghost had = rest;
        out.push((rest % 256) as u8);
        rest = rest / 256;
        left -= 1;
        proof {
            assert(le_bytes(had as nat, (left + 1) as nat) == seq![(had % 256) as u8] + le_bytes(
                (had / 256) as nat,
                left as nat,
            ));
            assert(before + (seq![(had % 256) as u8] + le_bytes(rest as nat, left as nat)) =~= out@
                + le_bytes(rest as nat, left as nat));
        }
    }
    proof {
        assert(out@ + le_bytes(rest as nat, 0) =~= out@);
    }
}

/// Appends bytes.
pub fn push_bytes(out: &mut Vec<u8>, bytes: &[u8])
    ensures
        final(out)@ == old(out)@ + bytes@,
{
    let mut copy = vstd::slice::slice_to_vec(bytes);
    out.append(&mut copy);
}

/// The bytes from `from` to `to`.
pub fn copy_range(bytes: &[u8], from: usize, to: usize) -> (r: Vec<u8>)
    requires
        from <= to <= bytes@.len(),
    ensures
        r@ == bytes@.subrange(from as int, to as int),
{
    vstd::slice::slice_to_vec(vstd::slice::slice_subrange(bytes, from, to))
}

/// The numbers of eight bytes that follow each other in `bytes`; what is left at the end is not
/// looked at.
pub open spec fn words(bytes: Seq<u8>) -> Seq<u64> {
    Seq::new(bytes.len() / 8, |i: int| le_at(bytes, 8 * i, 8) as u64)
}

/// The numbers of eight bytes that follow each other in `bytes`.
pub fn read_words(bytes: &[u8]) -> (r: Vec<u64>)
    ensures
        r@ == words(bytes@),
{
    let n: usize = bytes.len();
    let mut r: Vec<u64> = Vec::new();
    let mut at: usize = 0;
    while n - at >= 8
        invariant
            at <= n == bytes@.len(),
            at == 8 * r@.len(),
            forall|k: int| 0 <= k < r@.len() ==> #[trigger] r@[k] == le_at(bytes@, 8 * k, 8),
        decreases n - at,
    {
        r.push(u64_at(bytes, at));
        at += 8;
    }
    proof {
        assert(r@ =~= words(bytes@));
    }
    r
}

} // verus!
