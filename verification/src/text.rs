//! Text as sequences of characters: searching, splitting, numbers.
use vstd::prelude::*;

use crate::sorting;

verus! {

broadcast use vstd::string::group_string_axioms;

/// Collects characters into a `String`: `String::from_iter` holds them in order.
#[verifier::external_body]
pub(crate) fn string_of(chars: Vec<char>) -> (s: String)
    ensures
        s@ == chars@,
{
    String::from_iter(chars)
}

pub fn chars_of(s: &str) -> (chars: Vec<char>)
    ensures
        chars@ == s@,
{
    let mut chars: Vec<char> = Vec::new();
    for c in it: s.chars()
        invariant
            chars@ == it.seq().take(it.index()),
            it.seq() == s@,
    {
        chars.push(c);
    }
    chars
}

/// The digit `d` as a character.
pub open spec fn digit_char(d: nat) -> char {
    (48 + d) as char
}

/// `n` in decimal, without leading zeros.
pub open spec fn decimal(n: nat) -> Seq<char>
    decreases n,
{
    if n < 10 {
        seq![digit_char(n)]
    } else {
        decimal(n / 10).push(digit_char(n % 10))
    }
}

fn digit_of(d: u64) -> (c: char)
    requires
        d < 10,
    ensures
        c == digit_char(d as nat),
{
    let code: u8 = 48 + d as u8;
    code as char
}

pub fn push_decimal(out: &mut Vec<char>, n: u64)
    ensures
        final(out)@ == old(out)@ + decimal(n as nat),
    decreases n,
{
    if n >= 10 {
        push_decimal(out, n / 10);
    }
    out.push(digit_of(n % 10));
    proof {
        if n >= 10 {
            assert(out@ =~= old(out)@ + decimal(n as nat));
        } else {
            assert(n % 10 == n);
            assert(out@ =~= old(out)@ + decimal(n as nat));
        }
    }
}

pub fn push_text(out: &mut Vec<char>, s: &str)
    ensures
        final(out)@ == old(out)@ + s@,
{
    let mut chars = chars_of(s);
    out.append(&mut chars);
}

/// `n` in decimal.
pub fn decimal_text(n: u64) -> (s: String)
    ensures
        s@ == decimal(n as nat),
{
    let mut out: Vec<char> = Vec::new();
    push_decimal(&mut out, n);
    proof {
        assert(out@ =~= decimal(n as nat));
    }
    string_of(out)
}

/// `prefix`, then `n` in decimal.
pub fn numbered(prefix: &str, n: u64) -> (s: String)
    ensures
        s@ == prefix@ + decimal(n as nat),
{
    let mut out = chars_of(prefix);
    push_decimal(&mut out, n);
    string_of(out)
}

/// `a` followed by `b`.
pub fn joined2(a: &str, b: &str) -> (s: String)
    ensures
        s@ == a@ + b@,
{
    let mut out = chars_of(a);
    push_text(&mut out, b);
    string_of(out)
}

/// `a`, `b` and `c` one after the other.
pub fn joined3(a: &str, b: &str, c: &str) -> (s: String)
    ensures
        s@ == a@ + b@ + c@,
{
    let mut out = chars_of(a);
    push_text(&mut out, b);
    push_text(&mut out, c);
    string_of(out)
}

/// A copy of `s`.
pub fn owned(s: &str) -> (r: String)
    ensures
        r@ == s@,
{
    string_of(chars_of(s))
}

pub fn same_chars(a: &[char], b: &[char]) -> (r: bool)
    ensures
        r == (a@ == b@),
{
    if a.len() != b.len() {
        return false;
    }
    let mut i: usize = 0;
    while i < a.len()
        invariant
            i <= a@.len(),
            a@.len() == b@.len(),
            forall|k: int| 0 <= k < i ==> a@[k] == b@[k],
        decreases a@.len() - i,
    {
        if a[i] != b[i] {
            return false;
        }
        i += 1;
    }
    proof {
        assert(a@ =~= b@);
    }
    true
}

/// Whether two texts are the same.
pub fn same_text(a: &str, b: &str) -> (r: bool)
    ensures
        r == (a@ == b@),
{
    let ca = chars_of(a);
    let cb = chars_of(b);
    same_chars(ca.as_slice(), cb.as_slice())
}

/// `p` stands in `s` at index `i`.
pub open spec fn stands_at(s: Seq<char>, p: Seq<char>, i: int) -> bool {
    0 <= i && i + p.len() <= s.len() && s.subrange(i, i + p.len()) == p
}

/// The first index from `i` on at which `p` stands in `s`.
pub open spec fn find_from(s: Seq<char>, p: Seq<char>, i: int) -> Option<int>
    decreases s.len() - i + 1,
{
    if i < 0 || i + p.len() > s.len() {
        None
    } else if stands_at(s, p, i) {
        Some(i)
    } else {
        find_from(s, p, i + 1)
    }
}

/// `p` stands somewhere in `s`.
pub open spec fn occurs(s: Seq<char>, p: Seq<char>) -> bool {
    exists|i: int| stands_at(s, p, i)
}

pub proof fn lemma_find_from(s: Seq<char>, p: Seq<char>, i: int)
    requires
        0 <= i,
    ensures
        match find_from(s, p, i) {
            Some(k) => i <= k && stands_at(s, p, k) && forall|j: int|
                i <= j < k ==> !#[trigger] stands_at(s, p, j),
            None => forall|j: int| i <= j ==> !#[trigger] stands_at(s, p, j),
        },
    decreases s.len() - i + 1,
{
    if i + p.len() <= s.len() && !stands_at(s, p, i) {
        lemma_find_from(s, p, i + 1);
    }
}

/// Where `p` first stands in `s` is where a search from the start finds it.
pub proof fn lemma_occurs_find(s: Seq<char>, p: Seq<char>)
    ensures
        occurs(s, p) <==> find_from(s, p, 0) is Some,
        find_from(s, p, 0) matches Some(k) ==> stands_at(s, p, k),
{
    lemma_find_from(s, p, 0);
}

fn stands_at_exec(s: &[char], p: &[char], i: usize) -> (r: bool)
    ensures
        r == stands_at(s@, p@, i as int),
{
    let n: usize = s.len();
    if i > n || n - i < p.len() {
        return false;
    }
    let mut k: usize = 0;
    while k < p.len()
        invariant
            k <= p@.len(),
            i + p@.len() <= n == s@.len(),
            forall|j: int| 0 <= j < k ==> s@[i + j] == p@[j],
        decreases p@.len() - k,
    {
        if s[i + k] != p[k] {
            proof {
                assert(s@.subrange(i as int, i + p@.len())[k as int] == s@[i + k]);
            }
            return false;
        }
        k += 1;
    }
    proof {
        assert(s@.subrange(i as int, i + p@.len()) =~= p@);
    }
    true
}

/// The first index from `start` on at which `p` stands in `s`.
pub fn find_chars(s: &[char], p: &[char], start: usize) -> (r: Option<usize>)
    ensures
        match r {
            Some(i) => find_from(s@, p@, start as int) == Some(i as int),
            None => find_from(s@, p@, start as int) is None,
        },
{
    let mut i: usize = start;
    while i <= s.len() && s.len() - i >= p.len()
        invariant
            start <= i,
            i <= s@.len() + 1 || i == start,
            find_from(s@, p@, start as int) == find_from(s@, p@, i as int),
        decreases s@.len() + 1 - i,
    {
        if stands_at_exec(s, p, i) {
            return Some(i);
        }
        if i == s.len() {
            proof {
                assert(find_from(s@, p@, i + 1) is None);
            }
            return None;
        }
        i += 1;
    }
    None
}

/// Whether `p` occurs in `s`.
pub fn contains_text(s: &str, p: &str) -> (r: bool)
    ensures
        r == occurs(s@, p@),
{
    let cs = chars_of(s);
    let cp = chars_of(p);
    proof {
        lemma_occurs_find(s@, p@);
    }
    match find_chars(cs.as_slice(), cp.as_slice(), 0) {
        Some(_) => true,
        None => false,
    }
}

pub open spec fn has_prefix(s: Seq<char>, p: Seq<char>) -> bool {
    p.len() <= s.len() && s.subrange(0, p.len() as int) == p
}

pub open spec fn has_suffix(s: Seq<char>, p: Seq<char>) -> bool {
    p.len() <= s.len() && s.subrange(s.len() - p.len(), s.len() as int) == p
}

/// Whether `s` begins with `p`.
pub fn starts_with_text(s: &str, p: &str) -> (r: bool)
    ensures
        r == has_prefix(s@, p@),
{
    let cs = chars_of(s);
    let cp = chars_of(p);
    stands_at_exec(cs.as_slice(), cp.as_slice(), 0)
}

/// Whether `s` ends with `p`.
pub fn ends_with_text(s: &str, p: &str) -> (r: bool)
    ensures
        r == has_suffix(s@, p@),
{
    let cs = chars_of(s);
    let cp = chars_of(p);
    if cp.len() > cs.len() {
        return false;
    }
    stands_at_exec(cs.as_slice(), cp.as_slice(), cs.len() - cp.len())
}

/// `s` with each occurrence of `p`, taken from the left without overlap, replaced by `w`.
pub open spec fn replaced(s: Seq<char>, p: Seq<char>, w: Seq<char>) -> Seq<char>
    decreases s.len(),
{
    match find_from(s, p, 0) {
        None => s,
        Some(i) => if p.len() == 0 || i < 0 || i + p.len() > s.len() {
            s
        } else {
            s.take(i) + w + replaced(s.skip(i + p.len()), p, w)
        },
    }
}

proof fn lemma_find_from_shift(s: Seq<char>, p: Seq<char>, base: int, i: int)
    requires
        0 <= base <= s.len(),
        0 <= i,
    ensures
        find_from(s, p, base + i) == match find_from(s.skip(base), p, i) {
            Some(k) => Some(base + k),
            None => None,
        },
    decreases s.len() - base - i + 1,
{
    let t = s.skip(base);
    if i + p.len() <= t.len() {
        assert(t.subrange(i, i + p.len()) =~= s.subrange(base + i, base + i + p.len()));
        if !stands_at(t, p, i) {
            lemma_find_from_shift(s, p, base, i + 1);
        }
    }
}

fn push_range(out: &mut Vec<char>, s: &[char], from: usize, to: usize)
    requires
        from <= to <= s@.len(),
    ensures
        final(out)@ == old(out)@ + s@.subrange(from as int, to as int),
{
    let mut i: usize = from;
    while i < to
        invariant
            from <= i <= to <= s@.len(),
            out@ == old(out)@ + s@.subrange(from as int, i as int),
        decreases to - i,
    {
        out.push(s[i]);
        i += 1;
        proof {
            assert(s@.subrange(from as int, i as int) =~= s@.subrange(from as int, i - 1).push(
                s@[i - 1],
            ));
            assert(out@ =~= old(out)@ + s@.subrange(from as int, i as int));
        }
    }
    proof {
        assert(out@ =~= old(out)@ + s@.subrange(from as int, to as int));
    }
}

/// `s` with every occurrence of `p` replaced by `w`.
pub fn replace_text(s: &str, p: &str, w: &str) -> (r: String)
    requires
        p@.len() > 0,
    ensures
        r@ == replaced(s@, p@, w@),
{
    let cs = chars_of(s);
    let cp = chars_of(p);
    let cw = chars_of(w);
    let n: usize = cs.len();
    let mut out: Vec<char> = Vec::new();
    let mut at: usize = 0;
    let mut done: bool = false;
    proof {
        assert(cs@.skip(0) =~= cs@);
        assert(out@ + replaced(cs@, cp@, cw@) =~= replaced(cs@, cp@, cw@));
    }
    while !done
        invariant
            at <= cs@.len() == n,
            cp@.len() > 0,
            !done ==> replaced(s@, p@, w@) == out@ + replaced(cs@.skip(at as int), cp@, cw@),
            done ==> replaced(s@, p@, w@) == out@,
            cw@ == w@,
        decreases cs@.len() - at + (if done { 0int } else { 1int }),
    {
        let ghost before = out@;
        proof {
            lemma_find_from_shift(cs@, cp@, at as int, 0);
            lemma_find_from(cs@, cp@, at as int);
        }
        match find_chars(cs.as_slice(), cp.as_slice(), at) {
            Some(i) => {
                push_range(&mut out, cs.as_slice(), at, i);
                push_text(&mut out, w);
                let ghost rest = cs@.skip(at as int);
                let ghost k = i - at;
                proof {
                    assert(find_from(rest, cp@, 0) == Some(k));
                    assert(rest.take(k) =~= cs@.subrange(at as int, i as int));
                    assert(rest.skip(k + cp@.len()) =~= cs@.skip(i + cp@.len()));
                    assert(replaced(rest, cp@, cw@) == rest.take(k) + cw@ + replaced(
                        rest.skip(k + cp@.len()),
                        cp@,
                        cw@,
                    ));
                    assert(before + (rest.take(k) + cw@ + replaced(
                        rest.skip(k + cp@.len()),
                        cp@,
                        cw@,
                    )) =~= out@ + replaced(cs@.skip(i + cp@.len()), cp@, cw@));
                }
                at = i + cp.len();
            },
            None => {
                push_range(&mut out, cs.as_slice(), at, cs.len());
                proof {
                    assert(cs@.subrange(at as int, cs@.len() as int) =~= cs@.skip(at as int));
                }
                done = true;
            },
        }
    }
    string_of(out)
}

/// The index of the first `c` in `s` from `i` on, or the length of `s`.
pub open spec fn next_char(s: Seq<char>, c: char, i: int) -> int
    decreases s.len() - i,
{
    if i < 0 || i >= s.len() {
        s.len() as int
    } else if s[i] == c {
        i
    } else {
        next_char(s, c, i + 1)
    }
}

pub proof fn lemma_next_char(s: Seq<char>, c: char, i: int)
    requires
        0 <= i <= s.len(),
    ensures
        i <= next_char(s, c, i) <= s.len(),
        next_char(s, c, i) < s.len() ==> s[next_char(s, c, i)] == c,
        forall|j: int| i <= j < next_char(s, c, i) ==> #[trigger] s[j] != c,
    decreases s.len() - i,
{
    if i < s.len() && s[i] != c {
        lemma_next_char(s, c, i + 1);
    }
}

/// The pieces of `s` from index `i` on between the separators `c`.
pub open spec fn split_from(s: Seq<char>, c: char, i: int) -> Seq<Seq<char>>
    decreases s.len() - i,
    via split_from_decreases
{
    if i < 0 || i > s.len() {
        Seq::empty()
    } else {
        let k = next_char(s, c, i);
        if k >= s.len() {
            seq![s.subrange(i, s.len() as int)]
        } else {
            seq![s.subrange(i, k)] + split_from(s, c, k + 1)
        }
    }
}

#[via_fn]
proof fn split_from_decreases(s: Seq<char>, c: char, i: int) {
    if 0 <= i <= s.len() {
        lemma_next_char(s, c, i);
    }
}

/// The pieces of `s` between the separators `c`; one more than there are separators.
pub open spec fn split_on(s: Seq<char>, c: char) -> Seq<Seq<char>> {
    split_from(s, c, 0)
}

/// The pieces of `s` between the separators `c`.
pub fn split_text(s: &str, c: char) -> (parts: Vec<String>)
    ensures
        sorting::views(parts@) == split_on(s@, c),
        parts@.len() >= 1,
{
    let cs = chars_of(s);
    let mut parts: Vec<String> = Vec::new();
    let mut start: usize = 0;
    let mut i: usize = 0;
    proof {
        assert(sorting::views(parts@) + split_from(cs@, c, 0) =~= split_from(cs@, c, 0));
    }
    while i < cs.len()
        invariant
            start <= i <= cs@.len(),
            next_char(cs@, c, start as int) == next_char(cs@, c, i as int),
            split_on(s@, c) == sorting::views(parts@) + split_from(cs@, c, start as int),
        decreases cs@.len() - i,
    {
        if cs[i] == c {
            let mut piece: Vec<char> = Vec::new();
            push_range(&mut piece, cs.as_slice(), start, i);
            let ghost before = sorting::views(parts@);
            parts.push(string_of(piece));
            proof {
                assert(piece@ =~= cs@.subrange(start as int, i as int));
                assert(sorting::views(parts@) =~= before.push(cs@.subrange(start as int, i as int)));
                assert(split_from(cs@, c, start as int) == seq![cs@.subrange(start as int, i as int)]
                    + split_from(cs@, c, i + 1));
                assert(before + (seq![cs@.subrange(start as int, i as int)] + split_from(
                    cs@,
                    c,
                    i + 1,
                )) =~= sorting::views(parts@) + split_from(cs@, c, i + 1));
            }
            start = i + 1;
        }
        i += 1;
    }
    let mut piece: Vec<char> = Vec::new();
    push_range(&mut piece, cs.as_slice(), start, cs.len());
    let ghost before = sorting::views(parts@);
    parts.push(string_of(piece));
    proof {
        assert(piece@ =~= cs@.subrange(start as int, cs@.len() as int));
        assert(split_from(cs@, c, start as int) == seq![cs@.subrange(start as int, cs@.len() as int)]);
        assert(sorting::views(parts@) =~= before + seq![cs@.subrange(start as int, cs@.len() as int)]);
    }
    parts
}

/// The parts with `sep` between each two.
pub open spec fn join_seq(parts: Seq<Seq<char>>, sep: Seq<char>) -> Seq<char>
    decreases parts.len(),
{
    if parts.len() == 0 {
        Seq::empty()
    } else if parts.len() == 1 {
        parts[0]
    } else {
        join_seq(parts.drop_last(), sep) + sep + parts.last()
    }
}

/// The first `count` parts with `sep` between each two.
pub fn join_text(parts: &Vec<String>, count: usize, sep: &str) -> (r: String)
    requires
        count <= parts@.len(),
    ensures
        r@ == join_seq(sorting::views(parts@).take(count as int), sep@),
{
    let mut out: Vec<char> = Vec::new();
    let mut i: usize = 0;
    while i < count
        invariant
            i <= count <= parts@.len(),
            out@ == join_seq(sorting::views(parts@).take(i as int), sep@),
        decreases count - i,
    {
        if i > 0 {
            push_text(&mut out, sep);
        }
        push_text(&mut out, parts[i].as_str());
        i += 1;
        proof {
            let now = sorting::views(parts@).take(i as int);
            assert(now.drop_last() =~= sorting::views(parts@).take(i - 1));
            assert(now.last() == parts@[i - 1]@);
            assert(out@ =~= join_seq(now, sep@));
        }
    }
    string_of(out)
}

/// White space: the characters with the Unicode property `White_Space`.
pub open spec fn is_white(c: char) -> bool {
    let n = c as u32;
    9 <= n <= 13 || n == 32 || n == 0x85 || n == 0xa0 || n == 0x1680 || 0x2000 <= n <= 0x200a || n
        == 0x2028 || n == 0x2029 || n == 0x202f || n == 0x205f || n == 0x3000
}

pub fn white(c: char) -> (r: bool)
    ensures
        r == is_white(c),
{
    let n: u32 = c as u32;
    (9 <= n && n <= 13) || n == 32 || n == 0x85 || n == 0xa0 || n == 0x1680 || (0x2000 <= n && n
        <= 0x200a) || n == 0x2028 || n == 0x2029 || n == 0x202f || n == 0x205f || n == 0x3000
}

pub open spec fn trimmed_start(s: Seq<char>) -> Seq<char>
    decreases s.len(),
{
    if s.len() > 0 && is_white(s[0]) {
        trimmed_start(s.drop_first())
    } else {
        s
    }
}

pub open spec fn trimmed_end(s: Seq<char>) -> Seq<char>
    decreases s.len(),
{
    if s.len() > 0 && is_white(s.last()) {
        trimmed_end(s.drop_last())
    } else {
        s
    }
}

/// `s` without the white space at its two ends.
pub open spec fn trimmed(s: Seq<char>) -> Seq<char> {
    trimmed_end(trimmed_start(s))
}

/// `s` without the white space at its two ends.
pub fn trim_text(s: &str) -> (r: String)
    ensures
        r@ == trimmed(s@),
{
    let cs = chars_of(s);
    let mut from: usize = 0;
    proof {
        assert(cs@.subrange(0, cs@.len() as int) =~= cs@);
    }
    while from < cs.len() && white(cs[from])
        invariant
            from <= cs@.len(),
            trimmed_start(cs@) == trimmed_start(cs@.subrange(from as int, cs@.len() as int)),
        decreases cs@.len() - from,
    {
        proof {
            assert(cs@.subrange(from as int, cs@.len() as int).drop_first() =~= cs@.subrange(
                from + 1,
                cs@.len() as int,
            ));
        }
        from += 1;
    }
    let mut to: usize = cs.len();
    while to > from && white(cs[to - 1])
        invariant
            from <= to <= cs@.len(),
            trimmed(cs@) == trimmed_end(cs@.subrange(from as int, to as int)),
        decreases to - from,
    {
        proof {
            assert(cs@.subrange(from as int, to as int).drop_last() =~= cs@.subrange(
                from as int,
                to - 1,
            ));
        }
        to -= 1;
    }
    let mut out: Vec<char> = Vec::new();
    push_range(&mut out, cs.as_slice(), from, to);
    proof {
        assert(out@ =~= cs@.subrange(from as int, to as int));
    }
    string_of(out)
}

pub open spec fn is_digit(c: char) -> bool {
    48 <= c as u32 <= 57
}

/// The number that the decimal digits of `s` write.
pub open spec fn digits_value(s: Seq<char>) -> nat
    decreases s.len(),
{
    if s.len() == 0 {
        0
    } else {
        digits_value(s.drop_last()) * 10 + (s.last() as u32 - 48) as nat
    }
}

/// The digits of an unsigned number: a leading plus sign is left out.
pub open spec fn unsigned_digits(s: Seq<char>) -> Seq<char> {
    if s.len() > 0 && s[0] == '+' {
        s.drop_first()
    } else {
        s
    }
}

/// The unsigned number no greater than `max` that `s` writes in decimal.
pub open spec fn parsed_unsigned(s: Seq<char>, max: nat) -> Option<nat> {
    let d = unsigned_digits(s);
    if d.len() > 0 && (forall|i: int| 0 <= i < d.len() ==> is_digit(#[trigger] d[i]))
        && digits_value(d) <= max {
        Some(digits_value(d))
    } else {
        None
    }
}

/// The digits of `n` in decimal write `n`.
pub proof fn lemma_decimal_value(n: nat)
    ensures
        digits_value(decimal(n)) == n,
        decimal(n).len() > 0,
        forall|i: int| 0 <= i < decimal(n).len() ==> is_digit(#[trigger] decimal(n)[i]),
    decreases n,
{
    let d = digit_char(n % 10);
    assert(d as nat - '0' as nat == n % 10);
    assert(is_digit(d));
    if n >= 10 {
        lemma_decimal_value(n / 10);
        let front = decimal(n / 10);
        assert(front.push(d).drop_last() =~= front);
        assert(decimal(n) =~= front.push(d));
    } else {
        assert(decimal(n) =~= seq![d]);
        assert(seq![d].drop_last() =~= Seq::empty());
        assert(digits_value(Seq::empty()) == 0);
    }
}

/// A number that is written in decimal can be read back wherever it is not too great.
pub proof fn law_decimal_reads_back(n: nat, max: nat)
    ensures
        parsed_unsigned(decimal(n), max) == (if n <= max {
            Some(n)
        } else {
            None
        }),
{
    lemma_decimal_value(n);
    assert(is_digit(decimal(n)[0]));
    assert(unsigned_digits(decimal(n)) == decimal(n));
}

/// The unsigned number no greater than `max` that `s` writes in decimal.
pub fn parse_unsigned(s: &str, max: u64) -> (r: Option<u64>)
    ensures
        match r {
            Some(n) => parsed_unsigned(s@, max as nat) == Some(n as nat),
            None => parsed_unsigned(s@, max as nat) is None,
        },
{
    let cs = chars_of(s);
    let from: usize = if cs.len() > 0 && cs[0] == '+' { 1 } else { 0 };
    let ghost d = unsigned_digits(s@);
    proof {
        assert(d =~= cs@.skip(from as int));
    }
    if cs.len() == from {
        return None;
    }
    let mut value: u64 = 0;
    let mut over: bool = false;
    let mut i: usize = from;
    while i < cs.len()
        invariant
            from <= i <= cs@.len(),
            d == unsigned_digits(s@),
            d == cs@.skip(from as int),
            forall|k: int| 0 <= k < i - from ==> is_digit(#[trigger] d[k]),
            !over ==> value == digits_value(d.take(i - from)) && value <= max,
            over ==> digits_value(d.take(i - from)) > max,
        decreases cs@.len() - i,
    {
        let code: u32 = cs[i] as u32;
        if code < 48 || code > 57 {
            proof {
                assert(!is_digit(d[i - from]));
            }
            return None;
        }
        let digit: u64 = (code - 48) as u64;
        proof {
            assert(d.take(i - from + 1).drop_last() =~= d.take(i - from));
            assert(d.take(i - from + 1).last() == cs@[i as int]);
        }
        if !over {
            match value.checked_mul(10) {
                Some(tens) => match tens.checked_add(digit) {
                    Some(sum) => {
                        if sum <= max {
                            value = sum;
                        } else {
                            over = true;
                        }
                    },
                    None => {
                        over = true;
                    },
                },
                None => {
                    over = true;
                },
            }
        }
        i += 1;
    }
    proof {
        assert(d.take(i - from) =~= d);
    }
    if over {
        None
    } else {
        Some(value)
    }
}

/// `String::from_utf8`: it fails if and only if the bytes are not UTF-8.
#[verifier::external_body]
pub(crate) fn text_of_bytes(bytes: Vec<u8>) -> (r: Option<String>)
    ensures
        match r {
            Some(s) => vstd::utf8::valid_utf8(bytes@) && s@ == vstd::utf8::decode_utf8(bytes@),
            None => !vstd::utf8::valid_utf8(bytes@),
        },
{
    String::from_utf8(bytes).ok()
}

/// The index of the first white space in `s` from `i` on, or the length of `s`.
pub open spec fn next_white(s: Seq<char>, i: int) -> int
    decreases s.len() - i,
{
    if i < 0 || i >= s.len() {
        s.len() as int
    } else if is_white(s[i]) {
        i
    } else {
        next_white(s, i + 1)
    }
}

/// The first word of `s`: what stands before the first white space behind leading white space.
pub open spec fn first_word_of(s: Seq<char>) -> Option<Seq<char>> {
    let t = trimmed_start(s);
    if t.len() == 0 {
        None
    } else {
        Some(t.subrange(0, next_white(t, 0)))
    }
}

/// The first word of `s`.
pub fn first_word(s: &str) -> (r: Option<String>)
    ensures
        match r {
            Some(w) => first_word_of(s@) == Some(w@),
            None => first_word_of(s@) is None,
        },
{
    let cs = chars_of(s);
    let mut from: usize = 0;
    proof {
        assert(cs@.subrange(0, cs@.len() as int) =~= cs@);
    }
    while from < cs.len() && white(cs[from])
        invariant
            from <= cs@.len(),
            trimmed_start(cs@) == trimmed_start(cs@.subrange(from as int, cs@.len() as int)),
        decreases cs@.len() - from,
    {
        proof {
            assert(cs@.subrange(from as int, cs@.len() as int).drop_first() =~= cs@.subrange(
                from + 1,
                cs@.len() as int,
            ));
        }
        from += 1;
    }
    let ghost t = cs@.subrange(from as int, cs@.len() as int);
    if from == cs.len() {
        return None;
    }
    let mut to: usize = from;
    while to < cs.len() && !white(cs[to])
        invariant
            from <= to <= cs@.len(),
            t == cs@.subrange(from as int, cs@.len() as int),
            next_white(t, 0) == next_white(t, to - from),
        decreases cs@.len() - to,
    {
        to += 1;
    }
    let mut out: Vec<char> = Vec::new();
    push_range(&mut out, cs.as_slice(), from, to);
    proof {
        assert(next_white(t, 0) == to - from);
        assert(out@ =~= t.subrange(0, to - from));
    }
    Some(string_of(out))
}

/// The view of an optional text.
pub open spec fn optional(s: Option<String>) -> Option<Seq<char>> {
    match s {
        Some(s) => Some(s@),
        None => None,
    }
}

/// A copy of an optional text.
pub fn optional_copy(s: &Option<String>) -> (r: Option<String>)
    ensures
        optional(r) == optional(*s),
{
    match s {
        Some(s) => Some(owned(s.as_str())),
        None => None,
    }
}

/// Four texts one after the other.
pub fn joined4(a: &str, b: &str, c: &str, d: &str) -> (s: String)
    ensures
        s@ == a@ + b@ + c@ + d@,
{
    joined2(joined3(a, b, c).as_str(), d)
}

/// Five texts one after the other.
pub fn joined5(a: &str, b: &str, c: &str, d: &str, e: &str) -> (s: String)
    ensures
        s@ == a@ + b@ + c@ + d@ + e@,
{
    joined3(joined3(a, b, c).as_str(), d, e)
}

/// Six texts one after the other.
pub fn joined6(a: &str, b: &str, c: &str, d: &str, e: &str, f: &str) -> (s: String)
    ensures
        s@ == a@ + b@ + c@ + d@ + e@ + f@,
{
    joined2(joined5(a, b, c, d, e).as_str(), f)
}

/// Adds a text to a list.
pub fn push_item(list: &mut Vec<String>, s: &str)
    ensures
        sorting::views(final(list)@) == sorting::views(old(list)@).push(s@),
{
    list.push(owned(s));
    proof {
        assert(sorting::views(list@) =~= sorting::views(old(list)@).push(s@));
    }
}

/// Adds the texts of another list.
pub fn push_items(list: &mut Vec<String>, more: &Vec<String>)
    ensures
        sorting::views(final(list)@) == sorting::views(old(list)@) + sorting::views(more@),
{
    let mut i: usize = 0;
    proof {
        assert(sorting::views(list@) =~= sorting::views(old(list)@) + sorting::views(more@).take(0));
    }
    while i < more.len()
        invariant
            i <= more@.len(),
            sorting::views(list@) == sorting::views(old(list)@) + sorting::views(more@).take(
                i as int,
            ),
        decreases more@.len() - i,
    {
        push_item(list, more[i].as_str());
        i += 1;
        proof {
            assert(sorting::views(list@) =~= sorting::views(old(list)@) + sorting::views(
                more@,
            ).take(i as int));
        }
    }
    proof {
        assert(sorting::views(more@).take(i as int) =~= sorting::views(more@));
    }
}

/// A list without texts.
pub fn no_items() -> (list: Vec<String>)
    ensures
        sorting::views(list@) == Seq::<Seq<char>>::empty(),
{
    let list: Vec<String> = Vec::new();
    proof {
        assert(sorting::views(list@) =~= Seq::<Seq<char>>::empty());
    }
    list
}

/// A copy of a list.
pub fn items_copy(list: &Vec<String>) -> (r: Vec<String>)
    ensures
        sorting::views(r@) == sorting::views(list@),
{
    let mut r = no_items();
    push_items(&mut r, list);
    proof {
        assert(Seq::<Seq<char>>::empty() + sorting::views(list@) =~= sorting::views(list@));
    }
    r
}

/// Whether one of the texts is `s`.
pub fn lists_item(list: &Vec<String>, s: &str) -> (r: bool)
    ensures
        r == sorting::views(list@).contains(s@),
{
    let ghost all = sorting::views(list@);
    let mut i: usize = 0;
    while i < list.len()
        invariant
            i <= list@.len(),
            all == sorting::views(list@),
            forall|k: int| 0 <= k < i ==> #[trigger] all[k] != s@,
        decreases list@.len() - i,
    {
        if same_text(list[i].as_str(), s) {
            proof {
                assert(all[i as int] == s@);
            }
            return true;
        }
        i += 1;
    }
    false
}

/// Some text of the list holds `p`.
pub open spec fn some_holds(list: Seq<Seq<char>>, p: Seq<char>) -> bool {
    exists|i: int| 0 <= i < list.len() && #[trigger] occurs(list[i], p)
}

/// Whether some text of the list holds `p`.
pub fn some_item_holds(list: &Vec<String>, p: &str) -> (r: bool)
    ensures
        r == some_holds(sorting::views(list@), p@),
{
    let ghost all = sorting::views(list@);
    let mut i: usize = 0;
    while i < list.len()
        invariant
            i <= list@.len(),
            all == sorting::views(list@),
            forall|k: int| 0 <= k < i ==> !#[trigger] occurs(all[k], p@),
        decreases list@.len() - i,
    {
        if contains_text(list[i].as_str(), p) {
            proof {
                assert(occurs(all[i as int], p@));
            }
            return true;
        }
        i += 1;
    }
    false
}

/// A path below another: an absolute path stands for itself.
pub open spec fn joined_path(base: Seq<char>, path: Seq<char>) -> Seq<char> {
    if path.len() > 0 && path[0] == '/' {
        path
    } else if base.len() == 0 || base.last() == '/' {
        base + path
    } else {
        base + seq!['/'] + path
    }
}

/// A path below another.
pub fn join_path(base: &str, path: &str) -> (r: String)
    ensures
        r@ == joined_path(base@, path@),
{
    let cb = chars_of(base);
    let cp = chars_of(path);
    if cp.len() > 0 && cp[0] == '/' {
        return owned(path);
    }
    if cb.len() == 0 || cb[cb.len() - 1] == '/' {
        return joined2(base, path);
    }
    let mut out = cb;
    out.push('/');
    push_text(&mut out, path);
    proof {
        assert(out@ =~= base@ + seq!['/'] + path@);
    }
    string_of(out)
}

/// `s` with the first occurrence of `p` replaced by `w`.
pub open spec fn replaced_first(s: Seq<char>, p: Seq<char>, w: Seq<char>) -> Seq<char> {
    match find_from(s, p, 0) {
        None => s,
        Some(i) => s.take(i) + w + s.skip(i + p.len()),
    }
}

/// `s` with the first occurrence of `p` replaced by `w`.
pub fn replace_first(s: &str, p: &str, w: &str) -> (r: String)
    ensures
        r@ == replaced_first(s@, p@, w@),
{
    let cs = chars_of(s);
    let cp = chars_of(p);
    proof {
        lemma_find_from(s@, p@, 0);
    }
    match find_chars(cs.as_slice(), cp.as_slice(), 0) {
        None => owned(s),
        Some(i) => {
            let n: usize = cs.len();
            assert(stands_at(cs@, cp@, i as int));
            let mut out: Vec<char> = Vec::new();
            push_range(&mut out, cs.as_slice(), 0, i);
            push_text(&mut out, w);
            push_range(&mut out, cs.as_slice(), i + cp.len(), n);
            proof {
                assert(out@ =~= s@.take(i as int) + w@ + s@.skip(i + cp@.len()));
            }
            string_of(out)
        },
    }
}

/// Whether `s` begins with the character `c`.
pub fn begins_with(s: &str, c: char) -> (r: bool)
    ensures
        r == (s@.len() > 0 && s@[0] == c),
{
    let cs = chars_of(s);
    cs.len() > 0 && cs[0] == c
}

/// A line without the carriage return at its end.
pub open spec fn without_return(line: Seq<char>) -> Seq<char> {
    if line.len() > 0 && line.last() == '\r' {
        line.drop_last()
    } else {
        line
    }
}

/// The lines of `s`: what stands between line feeds, each without a carriage return before the
/// line feed; nothing stands behind a line feed at the end.
pub open spec fn lines_of(s: Seq<char>) -> Seq<Seq<char>> {
    let pieces = split_on(s, '\n');
    let ended = Seq::new(
        (pieces.len() - 1) as nat,
        |i: int| without_return(pieces[i]),
    );
    if pieces.last().len() > 0 {
        ended.push(pieces.last())
    } else {
        ended
    }
}

/// `s` without its last character.
fn drop_last_char(s: &str) -> (r: String)
    requires
        s@.len() > 0,
    ensures
        r@ == s@.drop_last(),
{
    let mut cs = chars_of(s);
    let _ = cs.pop();
    string_of(cs)
}

/// Whether `s` ends with the character `c`.
pub fn ends_with(s: &str, c: char) -> (r: bool)
    ensures
        r == (s@.len() > 0 && s@.last() == c),
{
    let cs = chars_of(s);
    cs.len() > 0 && cs[cs.len() - 1] == c
}

/// The lines of `s`.
pub fn split_lines(s: &str) -> (r: Vec<String>)
    ensures
        sorting::views(r@) == lines_of(s@),
{
    let pieces = split_text(s, '\n');
    let ghost all = split_on(s@, '\n');
    let n: usize = pieces.len();
    let mut r = no_items();
    let mut i: usize = 0;
    while i < n - 1
        invariant
            1 <= n == pieces@.len(),
            i <= n - 1,
            all == sorting::views(pieces@),
            sorting::views(r@) == Seq::new(i as nat, |k: int| without_return(all[k])),
        decreases n - i,
    {
        let ghost before = sorting::views(r@);
        let piece = pieces[i].as_str();
        proof {
            assert(all[i as int] == piece@);
        }
        if ends_with(piece, '\r') {
            push_item(&mut r, drop_last_char(piece).as_str());
        } else {
            push_item(&mut r, piece);
        }
        proof {
            assert(sorting::views(r@) =~= before.push(without_return(all[i as int])));
            assert(sorting::views(r@) =~= Seq::new((i + 1) as nat, |k: int| without_return(all[k])));
        }
        i += 1;
    }
    proof {
        assert(all.last() == pieces@[n - 1]@);
    }
    if !pieces[n - 1].as_str().is_empty() {
        push_item(&mut r, pieces[n - 1].as_str());
    }
    r
}

/// How many bytes a character takes in UTF-8.
pub open spec fn utf8_size(c: char) -> int {
    let n = c as u32;
    if n < 0x80 {
        1
    } else if n < 0x800 {
        2
    } else if n < 0x10000 {
        3
    } else {
        4
    }
}

fn utf8_size_of(c: char) -> (r: usize)
    ensures
        r == utf8_size(c),
{
    let n: u32 = c as u32;
    if n < 0x80 {
        1
    } else if n < 0x800 {
        2
    } else if n < 0x10000 {
        3
    } else {
        4
    }
}

/// The end of `s` that takes no more than `budget` bytes.
pub open spec fn tail_within(s: Seq<char>, budget: int) -> Seq<char>
    decreases s.len(),
{
    if s.len() == 0 || utf8_size(s.last()) > budget {
        Seq::empty()
    } else {
        tail_within(s.drop_last(), budget - utf8_size(s.last())).push(s.last())
    }
}

/// The end of `s` that takes no more than `budget` bytes.
pub fn last_bytes(s: &str, budget: usize) -> (r: String)
    ensures
        r@ == tail_within(s@, budget as int),
{
    let cs = chars_of(s);
    let mut from: usize = cs.len();
    let mut left: usize = budget;
    proof {
        assert(cs@.take(from as int) =~= cs@);
        assert(tail_within(cs@, budget as int) + cs@.skip(from as int) =~= tail_within(
            cs@,
            budget as int,
        ));
    }
    while from > 0 && utf8_size_of(cs[from - 1]) <= left
        invariant
            from <= cs@.len(),
            tail_within(cs@, budget as int) == tail_within(cs@.take(from as int), left as int)
                + cs@.skip(from as int),
        decreases from,
    {
        let size: usize = utf8_size_of(cs[from - 1]);
        proof {
            let now = cs@.take(from as int);
            assert(now.drop_last() =~= cs@.take(from - 1));
            assert(now.last() == cs@[from - 1]);
            assert(tail_within(now.drop_last(), left - size).push(now.last()) + cs@.skip(
                from as int,
            ) =~= tail_within(cs@.take(from - 1), left - size) + cs@.skip(from - 1));
        }
        left = left - size;
        from = from - 1;
    }
    let mut out: Vec<char> = Vec::new();
    push_range(&mut out, cs.as_slice(), from, cs.len());
    proof {
        if from > 0 {
            assert(cs@.take(from as int).last() == cs@[from - 1]);
        }
        assert(tail_within(cs@.take(from as int), left as int) =~= Seq::empty());
        assert(out@ =~= cs@.skip(from as int));
        assert(Seq::<char>::empty() + cs@.skip(from as int) =~= cs@.skip(from as int));
    }
    string_of(out)
}

/// How often `c` occurs in `s`.
pub open spec fn count_of(s: Seq<char>, c: char) -> nat
    decreases s.len(),
{
    if s.len() == 0 {
        0
    } else {
        count_of(s.drop_last(), c) + (if s.last() == c {
            1nat
        } else {
            0nat
        })
    }
}

/// How often `c` occurs in `s`.
pub fn count_char(s: &str, c: char) -> (r: usize)
    ensures
        r == count_of(s@, c),
        r <= s@.len(),
{
    let cs = chars_of(s);
    let mut r: usize = 0;
    let mut i: usize = 0;
    while i < cs.len()
        invariant
            i <= cs@.len(),
            r <= i,
            r == count_of(cs@.take(i as int), c),
        decreases cs@.len() - i,
    {
        proof {
            assert(cs@.take(i + 1).drop_last() =~= cs@.take(i as int));
        }
        if cs[i] == c {
            r += 1;
        }
        i += 1;
    }
    proof {
        assert(cs@.take(i as int) =~= cs@);
    }
    r
}

/// What stands in `s` before the first `p`, or all of `s` where it does not occur.
pub open spec fn before_first(s: Seq<char>, p: Seq<char>) -> Seq<char> {
    match find_from(s, p, 0) {
        Some(i) => s.take(i),
        None => s,
    }
}

/// What stands in `s` before the first `p`.
pub fn take_before(s: &str, p: &str) -> (r: String)
    ensures
        r@ == before_first(s@, p@),
{
    let cs = chars_of(s);
    let cp = chars_of(p);
    proof {
        lemma_find_from(s@, p@, 0);
    }
    match find_chars(cs.as_slice(), cp.as_slice(), 0) {
        None => owned(s),
        Some(i) => {
            assert(stands_at(cs@, cp@, i as int));
            let mut out: Vec<char> = Vec::new();
            push_range(&mut out, cs.as_slice(), 0, i);
            proof {
                assert(out@ =~= s@.take(i as int));
            }
            string_of(out)
        },
    }
}

/// A path names a Rust source file.
pub open spec fn is_rust_path(path: Seq<char>) -> bool {
    has_suffix(path, ".rs"@) && path.len() > 3 && path[path.len() - 4] != '/'
}

/// Whether a path names a Rust source file.
pub fn names_rust_file(path: &str) -> (r: bool)
    ensures
        r == is_rust_path(path@),
{
    if !ends_with_text(path, ".rs") {
        return false;
    }
    let cs = chars_of(path);
    cs.len() > 3 && cs[cs.len() - 4] != '/'
}

/// The words of `s` that start at index `i` or later: the runs of characters other than white
/// space.
pub open spec fn words_from(s: Seq<char>, i: int) -> Seq<Seq<char>>
    decreases s.len() - i,
    via words_from_decreases
{
    if i < 0 || i >= s.len() {
        Seq::empty()
    } else if is_white(s[i]) {
        words_from(s, i + 1)
    } else {
        let end = next_white(s, i);
        seq![s.subrange(i, end)] + words_from(s, end)
    }
}

#[via_fn]
proof fn words_from_decreases(s: Seq<char>, i: int) {
    if 0 <= i < s.len() && !is_white(s[i]) {
        lemma_next_white(s, i + 1);
    }
}

pub proof fn lemma_next_white(s: Seq<char>, i: int)
    requires
        0 <= i <= s.len(),
    ensures
        i <= next_white(s, i) <= s.len(),
    decreases s.len() - i,
{
    if i < s.len() && !is_white(s[i]) {
        lemma_next_white(s, i + 1);
    }
}

/// The words of `s`.
pub open spec fn words_of(s: Seq<char>) -> Seq<Seq<char>> {
    words_from(s, 0)
}

/// The words of `s`.
pub fn split_words(s: &str) -> (r: Vec<String>)
    ensures
        sorting::views(r@) == words_of(s@),
{
    let cs = chars_of(s);
    let mut r = no_items();
    let mut i: usize = 0;
    proof {
        assert(Seq::<Seq<char>>::empty() + words_from(cs@, 0) =~= words_from(cs@, 0));
    }
    while i < cs.len()
        invariant
            i <= cs@.len(),
            words_of(s@) == sorting::views(r@) + words_from(cs@, i as int),
        decreases cs@.len() - i,
    {
        if white(cs[i]) {
            i += 1;
        } else {
            let mut end: usize = i + 1;
            while end < cs.len() && !white(cs[end])
                invariant
                    i < end <= cs@.len(),
                    next_white(cs@, i as int) == next_white(cs@, end as int),
                decreases cs@.len() - end,
            {
                end += 1;
            }
            let mut word: Vec<char> = Vec::new();
            push_range(&mut word, cs.as_slice(), i, end);
            let ghost before = sorting::views(r@);
            let piece = string_of(word);
            proof {
                assert(next_white(cs@, i as int) == end);
                assert(piece@ =~= cs@.subrange(i as int, end as int));
            }
            push_item(&mut r, piece.as_str());
            proof {
                assert(before + words_from(cs@, i as int) =~= sorting::views(r@) + words_from(
                    cs@,
                    end as int,
                ));
            }
            i = end;
        }
    }
    proof {
        assert(sorting::views(r@) + words_from(cs@, i as int) =~= sorting::views(r@));
    }
    r
}

/// The last word of `s`.
pub open spec fn last_word_of(s: Seq<char>) -> Option<Seq<char>> {
    if words_of(s).len() > 0 {
        Some(words_of(s).last())
    } else {
        None
    }
}

/// The last word of `s`.
pub fn last_word(s: &str) -> (r: Option<String>)
    ensures
        optional(r) == last_word_of(s@),
{
    let words = split_words(s);
    if words.len() > 0 {
        proof {
            assert(words_of(s@).last() == words@[words@.len() - 1]@);
        }
        Some(owned(words[words.len() - 1].as_str()))
    } else {
        None
    }
}

/// A list of texts of its own.
pub fn items_of(list: Vec<&'static str>) -> (r: Vec<String>)
    ensures
        sorting::views(r@) == sorting::views(list@),
{
    let ghost all = sorting::views(list@);
    let mut r = no_items();
    let mut i: usize = 0;
    proof {
        assert(all.take(0) =~= Seq::empty());
    }
    while i < list.len()
        invariant
            i <= list@.len(),
            all == sorting::views(list@),
            sorting::views(r@) == all.take(i as int),
        decreases list@.len() - i,
    {
        push_item(&mut r, list[i]);
        proof {
            assert(all.take(i + 1) =~= all.take(i as int).push(all[i as int]));
        }
        i += 1;
    }
    proof {
        assert(all.take(i as int) =~= all);
    }
    r
}

/// The digit `d` in base sixteen.
pub open spec fn hex_char(d: nat) -> char {
    if d < 10 {
        (48 + d) as char
    } else {
        (87 + d) as char
    }
}

/// `n` in base sixteen, without leading zeros.
pub open spec fn hex(n: nat) -> Seq<char>
    decreases n,
{
    if n < 16 {
        seq![hex_char(n)]
    } else {
        hex(n / 16).push(hex_char(n % 16))
    }
}

fn push_hex(out: &mut Vec<char>, n: u64)
    ensures
        final(out)@ == old(out)@ + hex(n as nat),
    decreases n,
{
    if n >= 16 {
        push_hex(out, n / 16);
    }
    let d: u8 = (n % 16) as u8;
    let code: u8 = if d < 10 {
        48 + d
    } else {
        87 + d
    };
    out.push(code as char);
    proof {
        if n < 16 {
            assert(n % 16 == n);
        }
        assert(out@ =~= old(out)@ + hex(n as nat));
    }
}

/// `n` in base sixteen.
pub fn hex_text(n: u64) -> (s: String)
    ensures
        s@ == hex(n as nat),
{
    let mut out: Vec<char> = Vec::new();
    push_hex(&mut out, n);
    proof {
        assert(out@ =~= hex(n as nat));
    }
    string_of(out)
}

} // verus!
