//! Which parts of a firmware ran: basic blocks, symbols and how they overlap.
use object::read::coff::CoffSymbol;
use object::read::pe::PeFile64;
use object::{LittleEndian, Object, ObjectSection, ObjectSymbol, SectionKind, SymbolKind};
use vstd::prelude::*;

use crate::sorting;
use crate::sorting::{sort_stable, Ranked, Sortable};
use crate::text;
use crate::text::{begins_with, first_word, owned, parse_unsigned, text_of_bytes};
use crate::wire;
use crate::wire::{copy_range, u16_at, u32_at, u64_at};

verus! {

/// The addresses from `start` up to but not including `end`.
#[derive(Debug, Clone, Copy, PartialEq, Eq, PartialOrd, Ord, Structural)]
pub struct Interval {
    pub start: u64,
    pub end: u64,
}

impl View for Interval {
    type V = Interval;

    open spec fn view(&self) -> Interval {
        *self
    }
}

impl Ranked for Interval {
    open spec fn rank_le(self, other: Self) -> bool {
        if self.start != other.start {
            self.start < other.start
        } else {
            self.end <= other.end
        }
    }

    proof fn rank_total(a: Self, b: Self) {
    }

    proof fn rank_transitive(a: Self, b: Self, c: Self) {
    }
}

impl Sortable for Interval {
    fn not_after(&self, other: &Self) -> (r: bool) {
        if self.start != other.start {
            self.start < other.start
        } else {
            self.end <= other.end
        }
    }
}

/// Why a coverage file could not be read.
#[derive(Debug, Clone, Copy, PartialEq, Eq, Structural)]
pub enum DrcovError {
    /// There is no table of basic blocks.
    NoBbTable,
    /// The line that announces the table does not end.
    MissingNewline,
    /// The line that announces the table is not UTF-8.
    InvalidText,
    /// The table is announced without a count.
    NoCount,
    /// The count is no number.
    InvalidCount,
}

/// The bytes that announce the table of basic blocks.
pub open spec fn table_marker() -> Seq<u8> {
    seq![66u8, 66, 32, 84, 97, 98, 108, 101, 58, 32]
}

/// The first index from `i` on at which the marker stands.
pub open spec fn marker_from(content: Seq<u8>, i: int) -> Option<int>
    decreases content.len() - i,
{
    if i < 0 || i + 10 > content.len() {
        None
    } else if content.subrange(i, i + 10) == table_marker() {
        Some(i)
    } else {
        marker_from(content, i + 1)
    }
}

/// The first index from `i` on at which a line ends.
pub open spec fn line_end_from(content: Seq<u8>, i: int) -> Option<int>
    decreases content.len() - i,
{
    if i < 0 || i >= content.len() {
        None
    } else if content[i] == 10 {
        Some(i)
    } else {
        line_end_from(content, i + 1)
    }
}

/// The block at index `i` of a table: a start and a size, and a module that is not looked at.
pub open spec fn block_at(data: Seq<u8>, i: int) -> Interval {
    Interval {
        start: wire::le_at(data, 8 * i, 4) as u64,
        end: (wire::le_at(data, 8 * i, 4) + wire::le_at(data, 8 * i + 4, 2)) as u64,
    }
}

/// The first `count` blocks of a table, or as many as there are.
pub open spec fn blocks(data: Seq<u8>, count: nat) -> Seq<Interval> {
    let n = if count <= data.len() / 8 {
        count
    } else {
        data.len() / 8
    };
    Seq::new(n, |i: int| block_at(data, i))
}

/// The blocks that a coverage file lists.
pub open spec fn drcov_blocks(content: Seq<u8>) -> Result<Seq<Interval>, DrcovError> {
    match marker_from(content, 0) {
        None => Err(DrcovError::NoBbTable),
        Some(at) => match line_end_from(content, at) {
            None => Err(DrcovError::MissingNewline),
            Some(end) => {
                let line = content.subrange(at + 10, end);
                if !vstd::utf8::valid_utf8(line) {
                    Err(DrcovError::InvalidText)
                } else {
                    match text::first_word_of(vstd::utf8::decode_utf8(line)) {
                        None => Err(DrcovError::NoCount),
                        Some(word) => match text::parsed_unsigned(word, usize::MAX as nat) {
                            None => Err(DrcovError::InvalidCount),
                            Some(count) => Ok(blocks(content.skip(end + 1), count)),
                        },
                    }
                }
            },
        },
    }
}

fn marker_stands(content: &[u8], i: usize) -> (r: bool)
    requires
        i + 10 <= content@.len(),
    ensures
        r == (content@.subrange(i as int, i + 10) == table_marker()),
{
    let r: bool = content[i] == 66 && content[i + 1] == 66 && content[i + 2] == 32 && content[i + 3]
        == 84 && content[i + 4] == 97 && content[i + 5] == 98 && content[i + 6] == 108 && content[i
        + 7] == 101 && content[i + 8] == 58 && content[i + 9] == 32;
    proof {
        let s = content@.subrange(i as int, i + 10);
        if r {
            assert(s =~= table_marker());
        } else {
            assert(s[0] == content@[i as int]);
            assert(s[1] == content@[i + 1]);
            assert(s[2] == content@[i + 2]);
            assert(s[3] == content@[i + 3]);
            assert(s[4] == content@[i + 4]);
            assert(s[5] == content@[i + 5]);
            assert(s[6] == content@[i + 6]);
            assert(s[7] == content@[i + 7]);
            assert(s[8] == content@[i + 8]);
            assert(s[9] == content@[i + 9]);
        }
    }
    r
}

proof fn lemma_marker_has_no_line_end(content: Seq<u8>, at: int, end: int)
    requires
        marker_from(content, 0) == Some(at),
        line_end_from(content, at) == Some(end),
    ensures
        0 <= at,
        at + 10 <= end < content.len(),
{
    lemma_marker_from(content, 0);
    lemma_line_end_from(content, at);
    let s = content.subrange(at, at + 10);
    if end < at + 10 {
        assert(s[end - at] == content[end]);
        assert(s[end - at] == 10);
    }
}

proof fn lemma_marker_from(content: Seq<u8>, i: int)
    requires
        0 <= i,
    ensures
        marker_from(content, i) matches Some(k) ==> i <= k && k + 10 <= content.len()
            && content.subrange(k, k + 10) == table_marker(),
    decreases content.len() - i,
{
    if i + 10 <= content.len() && content.subrange(i, i + 10) != table_marker() {
        lemma_marker_from(content, i + 1);
    }
}

proof fn lemma_line_end_from(content: Seq<u8>, i: int)
    requires
        0 <= i,
    ensures
        line_end_from(content, i) matches Some(k) ==> i <= k < content.len() && content[k] == 10,
    decreases content.len() - i,
{
    if i < content.len() && content[i] != 10 {
        lemma_line_end_from(content, i + 1);
    }
}

/// Reads the blocks that a coverage file lists.
pub fn parse_drcov(content: &[u8]) -> (r: Result<Vec<Interval>, DrcovError>)
    ensures
        match r {
            Ok(found) => drcov_blocks(content@) == Ok::<Seq<Interval>, DrcovError>(found@),
            Err(e) => drcov_blocks(content@) == Err::<Seq<Interval>, DrcovError>(e),
        },
{
    let n: usize = content.len();
    let mut at: usize = 0;
    while at <= n && n - at >= 10 && !marker_stands(content, at)
        invariant
            at <= n == content@.len(),
            marker_from(content@, 0) == marker_from(content@, at as int),
        decreases n - at,
    {
        at += 1;
    }
    if n - at < 10 {
        return Err(DrcovError::NoBbTable);
    }
    let mut end: usize = at;
    while end < n && content[end] != 10
        invariant
            at <= end <= n == content@.len(),
            line_end_from(content@, at as int) == line_end_from(content@, end as int),
        decreases n - end,
    {
        end += 1;
    }
    if end == n {
        return Err(DrcovError::MissingNewline);
    }
    proof {
        lemma_marker_has_no_line_end(content@, at as int, end as int);
    }
    let line = match text_of_bytes(copy_range(content, at + 10, end)) {
        None => {
            return Err(DrcovError::InvalidText);
        },
        Some(line) => line,
    };
    let word = match first_word(line.as_str()) {
        None => {
            return Err(DrcovError::NoCount);
        },
        Some(word) => word,
    };
    let count: u64 = match parse_unsigned(word.as_str(), usize::MAX as u64) {
        None => {
            return Err(DrcovError::InvalidCount);
        },
        Some(count) => count,
    };
    let data = vstd::slice::slice_subrange(content, end + 1, n);
    proof {
        assert(data@ =~= content@.skip(end + 1));
    }
    let size: usize = data.len();
    let mut found: Vec<Interval> = Vec::new();
    let mut i: usize = 0;
    let mut offset: usize = 0;
    while (i as u64) < count && size - offset >= 8
        invariant
            i <= count,
            offset == 8 * i,
            offset <= size == data@.len(),
            found@.len() == i,
            forall|k: int| 0 <= k < i ==> #[trigger] found@[k] == block_at(data@, k),
        decreases size - offset,
    {
        let start: u64 = u32_at(data, offset) as u64;
        let length: u64 = u16_at(data, offset + 4) as u64;
        found.push(Interval { start, end: start + length });
        i += 1;
        offset += 8;
    }
    proof {
        assert(found@ =~= blocks(data@, count as nat));
    }
    Ok(found)
}

/// An entry of a table of basic blocks as a tracer writes it: four bytes of start, two of size and
/// two of module.
pub open spec fn written_entry(entry: (u32, u16, u16)) -> Seq<u8> {
    wire::le_bytes(entry.0 as nat, 4) + wire::le_bytes(entry.1 as nat, 2) + wire::le_bytes(
        entry.2 as nat,
        2,
    )
}

/// The entries of a table, one behind the other.
pub open spec fn written_table(entries: Seq<(u32, u16, u16)>) -> Seq<u8>
    decreases entries.len(),
{
    if entries.len() == 0 {
        Seq::empty()
    } else {
        written_table(entries.drop_last()) + written_entry(entries.last())
    }
}

/// The addresses that the entries of a table stand for.
pub open spec fn entry_intervals(entries: Seq<(u32, u16, u16)>) -> Seq<Interval> {
    Seq::new(
        entries.len(),
        |i: int|
            Interval {
                start: entries[i].0 as u64,
                end: (entries[i].0 + entries[i].1) as u64,
            },
    )
}

proof fn lemma_written_entry(front: Seq<u8>, entry: (u32, u16, u16), back: Seq<u8>)
    ensures
        ({
            let all = front + written_entry(entry) + back;
            let at = front.len() as int;
            &&& written_entry(entry).len() == 8
            &&& wire::le_at(all, at, 4) == entry.0
            &&& wire::le_at(all, at + 4, 2) == entry.1
        }),
{
    let a = wire::le_bytes(entry.0 as nat, 4);
    let b = wire::le_bytes(entry.1 as nat, 2);
    let c = wire::le_bytes(entry.2 as nat, 2);
    let all = front + written_entry(entry) + back;
    let at = front.len() as int;
    wire::lemma_le_bytes_len(entry.0 as nat, 4);
    wire::lemma_le_bytes_len(entry.1 as nat, 2);
    wire::lemma_le_bytes_len(entry.2 as nat, 2);
    assert(all.subrange(at, at + 4) =~= a);
    assert(all.subrange(at + 4, at + 6) =~= b);
    assert(wire::byte_range(2) == 0x1_0000 && wire::byte_range(4) == 0x1_0000_0000) by {
        reveal_with_fuel(wire::byte_range, 5);
    }
    wire::law_le_round_trip(entry.0 as nat, 4);
    wire::law_le_round_trip(entry.1 as nat, 2);
}

proof fn lemma_written_table(entries: Seq<(u32, u16, u16)>, rest: Seq<u8>, i: int)
    requires
        0 <= i < entries.len(),
    ensures
        written_table(entries).len() == 8 * entries.len(),
        wire::le_at(written_table(entries) + rest, 8 * i, 4) == entries[i].0,
        wire::le_at(written_table(entries) + rest, 8 * i + 4, 2) == entries[i].1,
    decreases entries.len(),
{
    let front = written_table(entries.drop_last());
    let last = written_entry(entries.last());
    if entries.len() > 1 {
        lemma_written_table(entries.drop_last(), last + rest, 0);
    }
    lemma_written_entry(front, entries.last(), rest);
    if i < entries.len() - 1 {
        lemma_written_table(entries.drop_last(), last + rest, i);
        assert(front + (last + rest) =~= written_table(entries) + rest);
    }
}

/// A table of basic blocks is read as it was written: the addresses from each start on, as many as
/// the size says, in the order of the entries, whatever stands behind them. Of a table that holds
/// fewer entries than were announced, those that it holds are read.
pub proof fn law_blocks_read_back(entries: Seq<(u32, u16, u16)>, rest: Seq<u8>, count: nat)
    requires
        count >= entries.len(),
        count == entries.len() || rest.len() < 8,
    ensures
        blocks(written_table(entries) + rest, count) == entry_intervals(entries),
{
    let data = written_table(entries) + rest;
    assert(written_table(entries).len() == 8 * entries.len()) by {
        if entries.len() > 0 {
            lemma_written_table(entries, rest, 0);
        }
    }
    assert forall|i: int| 0 <= i < entries.len() implies block_at(data, i)
        == #[trigger] entry_intervals(entries)[i] by {
        lemma_written_table(entries, rest, i);
    }
    assert(blocks(data, count) =~= entry_intervals(entries));
}

proof fn lemma_marker_from_is(content: Seq<u8>, i: int, k: int)
    requires
        0 <= i <= k,
        k + 10 <= content.len(),
        content.subrange(k, k + 10) == table_marker(),
        forall|j: int|
            i <= j < k ==> #[trigger] content.subrange(j, j + 10) != table_marker(),
    ensures
        marker_from(content, i) == Some(k),
    decreases k - i,
{
    if i < k {
        assert(content.subrange(i, i + 10) != table_marker());
        lemma_marker_from_is(content, i + 1, k);
    }
}

proof fn lemma_line_end_from_is(content: Seq<u8>, i: int, k: int)
    requires
        0 <= i <= k < content.len(),
        content[k] == 10,
        forall|j: int| i <= j < k ==> #[trigger] content[j] != 10,
    ensures
        line_end_from(content, i) == Some(k),
    decreases k - i,
{
    if i < k {
        assert(content[i] != 10);
        lemma_line_end_from_is(content, i + 1, k);
    }
}

/// The line that announces a table: the marker, the number of entries and a word for them.
pub open spec fn table_line(count: nat) -> Seq<u8> {
    table_marker() + vstd::utf8::encode_utf8(text::decimal(count) + " bbs"@) + seq![10u8]
}

proof fn lemma_low_char(c: char)
    requires
        c as u32 <= 115,
    ensures
        '\0' <= c <= '\u{7f}',
        c as u8 == c as u32,
{
}

proof fn lemma_count_text(count: nat)
    ensures
        ({
            let line = text::decimal(count) + " bbs"@;
            let bytes = vstd::utf8::encode_utf8(line);
            &&& forall|i: int| 0 <= i < bytes.len() ==> #[trigger] bytes[i] != 10
            &&& vstd::utf8::valid_utf8(bytes)
            &&& vstd::utf8::decode_utf8(bytes) == line
            &&& text::first_word_of(line) == Some(text::decimal(count))
        }),
{
    let number = text::decimal(count);
    let line = number + " bbs"@;
    let bytes = vstd::utf8::encode_utf8(line);
    reveal_strlit(" bbs");
    crate::text_laws::law_decimal_digits(count);
    assert forall|i: int| 0 <= i < line.len() implies 32 <= (#[trigger] line[i]) as u32 <= 115 by {
        if i < number.len() {
            assert(line[i] == number[i]);
            assert(48 <= number[i] as u32 <= 57);
        } else {
            assert(line[i] == " bbs"@[i - number.len()]);
        }
    }
    assert forall|i: int| 0 <= i < line.len() implies '\0' <= #[trigger] line[i] <= '\u{7f}' by {
        assert(32 <= line[i] as u32 <= 115);
        lemma_low_char(line[i]);
    }
    vstd::utf8::is_ascii_chars_encode_utf8(line);
    vstd::utf8::encode_utf8_valid_utf8(line);
    vstd::utf8::encode_utf8_decode_utf8(line);
    assert forall|i: int| 0 <= i < bytes.len() implies #[trigger] bytes[i] != 10 by {
        assert(32 <= line[i] as u32 <= 115);
        lemma_low_char(line[i]);
    }
    assert(crate::text_laws::is_word(number)) by {
        assert forall|i: int| 0 <= i < number.len() implies !text::is_white(
            #[trigger] number[i],
        ) by {
            assert(48 <= number[i] as u32 <= 57);
        }
    }
    crate::text_laws::law_first_word(Seq::empty(), number, " bbs"@);
    assert(Seq::<char>::empty() + number + " bbs"@ =~= line);
}

/// A coverage file lists the blocks of the table in it, in order, whatever stands in front of the
/// table, so long as it does not look like one, and whatever stands behind it.
pub proof fn law_drcov_reads_back(front: Seq<u8>, entries: Seq<(u32, u16, u16)>, rest: Seq<u8>)
    requires
        entries.len() <= usize::MAX,
        forall|j: int|
            0 <= j < front.len() ==> #[trigger] (front + table_line(entries.len())
                + written_table(entries) + rest).subrange(j, j + 10) != table_marker(),
    ensures
        drcov_blocks(front + table_line(entries.len()) + written_table(entries) + rest) == Ok::<
            Seq<Interval>,
            DrcovError,
        >(entry_intervals(entries)),
{
    let line = text::decimal(entries.len()) + " bbs"@;
    let bytes = vstd::utf8::encode_utf8(line);
    let content = front + table_line(entries.len()) + written_table(entries) + rest;
    let at = front.len() as int;
    let end = at + 10 + bytes.len();
    lemma_count_text(entries.len());
    assert(content.subrange(at, at + 10) =~= table_marker());
    lemma_marker_from_is(content, 0, at);
    assert(content[end] == 10);
    assert forall|j: int| at <= j < end implies #[trigger] content[j] != 10 by {
        if j < at + 10 {
            assert(content[j] == table_marker()[j - at]);
        } else {
            assert(content[j] == bytes[j - at - 10]);
        }
    }
    lemma_line_end_from_is(content, at, end);
    assert(content.subrange(at + 10, end) =~= bytes);
    text::law_decimal_reads_back(entries.len(), usize::MAX as nat);
    assert(content.skip(end + 1) =~= written_table(entries) + rest);
    law_blocks_read_back(entries, rest, entries.len());
}

/// Without a marker there is no table; without an end of the line after it, none can be read.
pub proof fn law_drcov_without_table(content: Seq<u8>, at: int)
    ensures
        (forall|j: int|
            0 <= j && j + 10 <= content.len() ==> #[trigger] content.subrange(j, j + 10)
                != table_marker()) ==> drcov_blocks(content) == Err::<Seq<Interval>, DrcovError>(
            DrcovError::NoBbTable,
        ),
        marker_from(content, 0) == Some(at) && (forall|j: int|
            at <= j < content.len() ==> #[trigger] content[j] != 10) ==> drcov_blocks(content)
            == Err::<Seq<Interval>, DrcovError>(DrcovError::MissingNewline),
{
    lemma_marker_from(content, 0);
    if at >= 0 {
        lemma_line_end_from(content, at);
    }
}

/// The greater of two numbers.
pub open spec fn greater(a: u64, b: u64) -> u64 {
    if a >= b {
        a
    } else {
        b
    }
}

/// The intervals from index `i` of a sorted sequence on, joined where they touch; `current` is the
/// one that is growing, and `done` those that are complete.
pub open spec fn joined_from(
    sorted: Seq<Interval>,
    i: int,
    current: Interval,
    done: Seq<Interval>,
) -> Seq<Interval>
    decreases sorted.len() - i,
{
    if i < 0 || i >= sorted.len() {
        done.push(current)
    } else if sorted[i].start <= current.end {
        joined_from(
            sorted,
            i + 1,
            Interval { start: current.start, end: greater(current.end, sorted[i].end) },
            done,
        )
    } else {
        joined_from(sorted, i + 1, sorted[i], done.push(current))
    }
}

/// The intervals in order, joined where they touch.
pub open spec fn merged(intervals: Seq<Interval>) -> Seq<Interval> {
    let sorted = sorting::stable_sort(intervals);
    if intervals.len() == 0 {
        Seq::empty()
    } else {
        joined_from(sorted, 1, sorted[0], Seq::empty())
    }
}

/// Sorts intervals and joins those that touch.
pub fn merge_intervals(intervals: Vec<Interval>) -> (r: Vec<Interval>)
    ensures
        r@ == merged(intervals@),
{
    if intervals.len() == 0 {
        return Vec::new();
    }
    proof {
        assert(sorting::views(intervals@) =~= intervals@);
        sorting::lemma_stable_sort(intervals@);
    }
    let sorted = sort_stable(intervals);
    proof {
        assert(sorting::views(sorted@) =~= sorted@);
    }
    let mut done: Vec<Interval> = Vec::new();
    let mut current: Interval = sorted[0];
    let mut i: usize = 1;
    while i < sorted.len()
        invariant
            1 <= i <= sorted@.len(),
            joined_from(sorted@, 1, sorted@[0], Seq::empty()) == joined_from(
                sorted@,
                i as int,
                current,
                done@,
            ),
        decreases sorted@.len() - i,
    {
        let next: Interval = sorted[i];
        if next.start <= current.end {
            if next.end > current.end {
                current = Interval { start: current.start, end: next.end };
            }
        } else {
            done.push(current);
            current = next;
        }
        i += 1;
    }
    done.push(current);
    done
}

/// Some interval holds the address.
pub open spec fn covers(s: Seq<Interval>, a: u64) -> bool {
    exists|i: int| 0 <= i < s.len() && #[trigger] holds(s[i], a)
}

pub open spec fn holds(i: Interval, a: u64) -> bool {
    i.start <= a < i.end
}

/// No interval ends before it starts.
pub open spec fn no_inverted(s: Seq<Interval>) -> bool {
    forall|i: int| 0 <= i < s.len() ==> (#[trigger] s[i]).start <= s[i].end
}

/// Each interval ends before the next one starts.
pub open spec fn ascending(s: Seq<Interval>) -> bool {
    &&& no_inverted(s)
    &&& forall|i: int, j: int|
        0 <= i < j < s.len() ==> (#[trigger] s[i]).end < (#[trigger] s[j]).start
}

proof fn lemma_joined_from(sorted: Seq<Interval>, i: int, current: Interval, done: Seq<Interval>)
    requires
        0 <= i <= sorted.len(),
        no_inverted(sorted),
        sorting::is_sorted(sorted),
        current.start <= current.end,
        ascending(done),
        forall|k: int| 0 <= k < done.len() ==> (#[trigger] done[k]).end < current.start,
        forall|k: int| i <= k < sorted.len() ==> current.start <= (#[trigger] sorted[k]).start,
    ensures
        ascending(joined_from(sorted, i, current, done)),
        forall|a: u64| #[trigger]
            covers(joined_from(sorted, i, current, done), a) <==> covers(done, a) || holds(
                current,
                a,
            ) || covers(sorted.skip(i), a),
    decreases sorted.len() - i,
{
    let result = joined_from(sorted, i, current, done);
    if i >= sorted.len() {
        assert forall|a: u64| #[trigger] covers(result, a) <==> covers(done, a) || holds(current, a)
            || covers(sorted.skip(i), a) by {
            lemma_covers_push(done, current, a);
            assert(sorted.skip(i).len() == 0);
        }
    } else {
        let next = sorted[i];
        if next.start <= current.end {
            let grown = Interval { start: current.start, end: greater(current.end, next.end) };
            assert(next.start <= next.end);
            lemma_joined_from(sorted, i + 1, grown, done);
            assert forall|a: u64| #[trigger] covers(result, a) <==> covers(done, a) || holds(
                current,
                a,
            ) || covers(sorted.skip(i), a) by {
                lemma_covers_skip(sorted, i, a);
                assert(covers(joined_from(sorted, i + 1, grown, done), a) <==> covers(done, a)
                    || holds(grown, a) || covers(sorted.skip(i + 1), a));
                assert(current.start <= sorted[i].start);
                assert(holds(grown, a) <==> holds(current, a) || holds(next, a));
            }
        } else {
            let longer = done.push(current);
            assert forall|x: int, y: int| 0 <= x < y < longer.len() implies (
            #[trigger] longer[x]).end < (#[trigger] longer[y]).start by {
                if y < done.len() {
                    assert(done[x].end < done[y].start);
                } else {
                    assert(done[x].end < current.start);
                }
            }
            assert forall|k: int| 0 <= k < longer.len() implies (#[trigger] longer[k]).start
                <= longer[k].end by {
                if k < done.len() {
                    assert(done[k].start <= done[k].end);
                }
            }
            assert forall|k: int| 0 <= k < longer.len() implies (#[trigger] longer[k]).end
                < next.start by {
                if k < done.len() {
                    assert(done[k].end < current.start);
                    assert(current.start <= sorted[i].start);
                }
            }
            assert forall|k: int| i + 1 <= k < sorted.len() implies next.start <= (
            #[trigger] sorted[k]).start by {
                assert(sorted[i].rank_le(sorted[k]));
            }
            assert(next.start <= next.end);
            lemma_joined_from(sorted, i + 1, next, longer);
            assert forall|a: u64| #[trigger] covers(result, a) <==> covers(done, a) || holds(
                current,
                a,
            ) || covers(sorted.skip(i), a) by {
                lemma_covers_skip(sorted, i, a);
                lemma_covers_push(done, current, a);
                assert(covers(joined_from(sorted, i + 1, next, longer), a) <==> covers(longer, a)
                    || holds(next, a) || covers(sorted.skip(i + 1), a));
            }
        }
    }
}

proof fn lemma_covers_push(s: Seq<Interval>, x: Interval, a: u64)
    ensures
        covers(s.push(x), a) <==> covers(s, a) || holds(x, a),
{
    let t = s.push(x);
    if covers(s, a) {
        let k = choose|k: int| 0 <= k < s.len() && #[trigger] holds(s[k], a);
        assert(holds(t[k], a));
    }
    if holds(x, a) {
        assert(holds(t[s.len() as int], a));
    }
    if covers(t, a) {
        let k = choose|k: int| 0 <= k < t.len() && #[trigger] holds(t[k], a);
        if k < s.len() {
            assert(holds(s[k], a));
        }
    }
}

proof fn lemma_covers_skip(s: Seq<Interval>, i: int, a: u64)
    requires
        0 <= i < s.len(),
    ensures
        covers(s.skip(i), a) <==> holds(s[i], a) || covers(s.skip(i + 1), a),
{
    let t = s.skip(i);
    let u = s.skip(i + 1);
    if holds(s[i], a) {
        assert(holds(t[0], a));
    }
    if covers(u, a) {
        let k = choose|k: int| 0 <= k < u.len() && #[trigger] holds(u[k], a);
        assert(holds(t[k + 1], a));
    }
    if covers(t, a) {
        let k = choose|k: int| 0 <= k < t.len() && #[trigger] holds(t[k], a);
        if k > 0 {
            assert(holds(u[k - 1], a));
        }
    }
}

proof fn lemma_sorted_covers(s: Seq<Interval>, a: u64)
    ensures
        covers(sorting::stable_sort(s), a) <==> covers(s, a),
{
    broadcast use vstd::seq_lib::group_to_multiset_ensures;

    let t = sorting::stable_sort(s);
    sorting::law_sort_keeps_contents(s);
    if covers(s, a) {
        let k = choose|k: int| 0 <= k < s.len() && #[trigger] holds(s[k], a);
        assert(s.contains(s[k]));
        assert(t.to_multiset().contains(s[k]));
        assert(t.contains(s[k]));
        let m = choose|m: int| 0 <= m < t.len() && t[m] == s[k];
        assert(holds(t[m], a));
    }
    if covers(t, a) {
        let k = choose|k: int| 0 <= k < t.len() && #[trigger] holds(t[k], a);
        assert(t.contains(t[k]));
        assert(s.to_multiset().contains(t[k]));
        assert(s.contains(t[k]));
        let m = choose|m: int| 0 <= m < s.len() && s[m] == t[k];
        assert(holds(s[m], a));
    }
}

/// Merging keeps what is covered, and leaves a gap between each two intervals.
pub proof fn law_merging_keeps_coverage(intervals: Seq<Interval>)
    requires
        no_inverted(intervals),
    ensures
        ascending(merged(intervals)),
        forall|a: u64| #[trigger] covers(merged(intervals), a) <==> covers(intervals, a),
{
    broadcast use vstd::seq_lib::group_to_multiset_ensures;

    if intervals.len() > 0 {
        let sorted = sorting::stable_sort(intervals);
        sorting::lemma_stable_sort(intervals);
        sorting::law_sort_keeps_contents(intervals);
        assert forall|k: int| 0 <= k < sorted.len() implies (#[trigger] sorted[k]).start
            <= sorted[k].end by {
            assert(sorted.contains(sorted[k]));
            assert(intervals.to_multiset().contains(sorted[k]));
            assert(intervals.contains(sorted[k]));
            let m = choose|m: int| 0 <= m < intervals.len() && intervals[m] == sorted[k];
            assert(intervals[m].start <= intervals[m].end);
        }
        assert forall|k: int| 1 <= k < sorted.len() implies sorted[0].start <= (
        #[trigger] sorted[k]).start by {
            assert(sorted[0].rank_le(sorted[k]));
        }
        lemma_joined_from(sorted, 1, sorted[0], Seq::empty());
        assert forall|a: u64| #[trigger] covers(merged(intervals), a) <==> covers(intervals, a) by {
            lemma_sorted_covers(intervals, a);
            lemma_covers_skip(sorted, 0, a);
            assert(sorted.skip(0) =~= sorted);
            assert(!covers(Seq::empty(), a));
        }
    }
}

/// How many addresses of `i` lie from `from` up to `to`.
pub open spec fn overlap(i: Interval, from: u64, to: u64) -> nat {
    let a = greater(from, i.start);
    let b = if to <= i.end {
        to
    } else {
        i.end
    };
    if b > a {
        (b - a) as nat
    } else {
        0
    }
}

/// How many addresses from `from` up to `to` the first `n` intervals hold together.
pub open spec fn overlap_sum(s: Seq<Interval>, from: u64, to: u64, n: int) -> nat
    decreases n,
{
    if n <= 0 {
        0
    } else {
        overlap_sum(s, from, to, n - 1) + overlap(s[n - 1], from, to)
    }
}

/// How many addresses from `from` up to `to` ran.
pub open spec fn covered_bytes(s: Seq<Interval>, from: u64, to: u64) -> nat {
    overlap_sum(s, from, to, s.len() as int)
}

/// No interval starts before the one in front of it has ended.
pub open spec fn in_order(s: Seq<Interval>) -> bool {
    &&& no_inverted(s)
    &&& forall|i: int, j: int|
        0 <= i < j < s.len() ==> (#[trigger] s[i]).end <= (#[trigger] s[j]).start
}

proof fn lemma_overlap_bound(s: Seq<Interval>, from: u64, to: u64, n: int)
    requires
        in_order(s),
        0 <= n <= s.len(),
    ensures
        n > 0 ==> overlap_sum(s, from, to, n) <= if s[n - 1].end > from {
            s[n - 1].end - from
        } else {
            0
        },
        overlap_sum(s, from, to, n) <= if to > from {
            to - from
        } else {
            0
        },
    decreases n,
{
    if n > 0 {
        lemma_overlap_bound(s, from, to, n - 1);
        if n > 1 {
            assert(s[n - 2].end <= s[n - 1].start);
        }
        assert(s[n - 1].start <= s[n - 1].end);
    }
}

proof fn lemma_overlap_zero(s: Seq<Interval>, from: u64, to: u64, n: int)
    requires
        0 <= n <= s.len(),
        forall|k: int| 0 <= k < n ==> overlap(#[trigger] s[k], from, to) == 0,
    ensures
        overlap_sum(s, from, to, n) == 0,
    decreases n,
{
    if n > 0 {
        assert(overlap(s[n - 1], from, to) == 0);
        lemma_overlap_zero(s, from, to, n - 1);
    }
}

proof fn lemma_overlap_tail(s: Seq<Interval>, from: u64, to: u64, m: int, n: int)
    requires
        0 <= m <= n <= s.len(),
        forall|k: int| m <= k < n ==> overlap(#[trigger] s[k], from, to) == 0,
    ensures
        overlap_sum(s, from, to, n) == overlap_sum(s, from, to, m),
    decreases n,
{
    if n > m {
        assert(overlap(s[n - 1], from, to) == 0);
        lemma_overlap_tail(s, from, to, m, n - 1);
    }
}

/// The first interval that ends after `from`.
fn first_after(executed: &[Interval], from: u64) -> (r: usize)
    requires
        in_order(executed@),
    ensures
        r <= executed@.len(),
        forall|k: int| 0 <= k < r ==> (#[trigger] executed@[k]).end <= from,
        forall|k: int| r <= k < executed@.len() ==> (#[trigger] executed@[k]).end > from,
{
    let mut low: usize = 0;
    let mut high: usize = executed.len();
    while low < high
        invariant
            low <= high <= executed@.len(),
            in_order(executed@),
            forall|k: int| 0 <= k < low ==> (#[trigger] executed@[k]).end <= from,
            forall|k: int| high <= k < executed@.len() ==> (#[trigger] executed@[k]).end > from,
        decreases high - low,
    {
        let mid: usize = low + (high - low) / 2;
        if executed[mid].end <= from {
            proof {
                assert forall|k: int| 0 <= k < mid + 1 implies (#[trigger] executed@[k]).end
                    <= from by {
                    if k < mid {
                        assert(executed@[k].end <= executed@[mid as int].start);
                        assert(executed@[mid as int].start <= executed@[mid as int].end);
                    }
                }
            }
            low = mid + 1;
        } else {
            proof {
                assert forall|k: int| mid <= k < executed@.len() implies (
                #[trigger] executed@[k]).end > from by {
                    if k > mid {
                        assert(executed@[mid as int].end <= executed@[k].start);
                        assert(executed@[k].start <= executed@[k].end);
                    }
                }
            }
            high = mid;
        }
    }
    low
}

/// How many bytes of a symbol ran, given the intervals that ran, in order.
pub fn calculate_coverage(sym_start: u64, sym_end: u64, executed_intervals: &[Interval]) -> (r: u64)
    requires
        in_order(executed_intervals@),
    ensures
        r == covered_bytes(executed_intervals@, sym_start, sym_end),
        sym_start <= sym_end ==> r <= sym_end - sym_start,
{
    let ghost s = executed_intervals@;
    let first: usize = first_after(executed_intervals, sym_start);
    let mut sum: u64 = 0;
    let mut i: usize = first;
    proof {
        assert forall|k: int| 0 <= k < first implies overlap(
            #[trigger] s[k],
            sym_start,
            sym_end,
        ) == 0 by {
            assert(s[k].end <= sym_start);
        }
        lemma_overlap_zero(s, sym_start, sym_end, first as int);
    }
    while i < executed_intervals.len()
        invariant
            s == executed_intervals@,
            in_order(s),
            i <= s.len(),
            sum == overlap_sum(s, sym_start, sym_end, i as int),
        decreases s.len() - i,
    {
        let interval: Interval = executed_intervals[i];
        if interval.start >= sym_end {
            proof {
                assert forall|k: int| i <= k < s.len() implies overlap(
                    #[trigger] s[k],
                    sym_start,
                    sym_end,
                ) == 0 by {
                    if k > i {
                        assert(s[i as int].end <= s[k].start);
                        assert(s[i as int].start <= s[i as int].end);
                    }
                }
                lemma_overlap_tail(s, sym_start, sym_end, i as int, s.len() as int);
                lemma_overlap_bound(s, sym_start, sym_end, s.len() as int);
            }
            return sum;
        }
        let from: u64 = if sym_start >= interval.start {
            sym_start
        } else {
            interval.start
        };
        let to: u64 = if sym_end <= interval.end {
            sym_end
        } else {
            interval.end
        };
        proof {
            lemma_overlap_bound(s, sym_start, sym_end, i + 1);
        }
        if to > from {
            sum = sum + (to - from);
        }
        i += 1;
    }
    proof {
        lemma_overlap_bound(s, sym_start, sym_end, s.len() as int);
    }
    sum
}

/// What ran of two neighbouring ranges is what ran of both together.
pub proof fn law_coverage_adds_up(s: Seq<Interval>, from: u64, mid: u64, to: u64, n: int)
    requires
        from <= mid <= to,
        0 <= n <= s.len(),
    ensures
        overlap_sum(s, from, mid, n) + overlap_sum(s, mid, to, n) == overlap_sum(s, from, to, n),
    decreases n,
{
    if n > 0 {
        law_coverage_adds_up(s, from, mid, to, n - 1);
    }
}

/// A symbol as an object file lists it.
#[derive(Debug, Clone, PartialEq, Eq)]
pub struct RawSymbol {
    /// `None` if the name cannot be read.
    pub name: Option<String>,
    pub address: u64,
    pub size: u64,
    /// The symbol is marked as code.
    pub is_text: bool,
    /// The kind of the symbol is not known.
    pub is_unknown: bool,
    /// Whether the symbol's section holds code; `None` if the symbol is in no section.
    pub in_text_section: Option<bool>,
}

#[verifier::ext_equal]
pub struct RawSymbolView {
    pub name: Option<Seq<char>>,
    pub address: u64,
    pub size: u64,
    pub is_text: bool,
    pub is_unknown: bool,
    pub in_text_section: Option<bool>,
}

impl View for RawSymbol {
    type V = RawSymbolView;

    open spec fn view(&self) -> RawSymbolView {
        RawSymbolView {
            name: text::optional(self.name),
            address: self.address,
            size: self.size,
            is_text: self.is_text,
            is_unknown: self.is_unknown,
            in_text_section: self.in_text_section,
        }
    }
}

/// The error of the object file parser.
#[verifier::external_type_specification]
#[verifier::external_body]
pub struct ExObjectError(object::Error);

/// The symbols that an object file lists, in its order; `None` if it cannot be read.
pub uninterp spec fn object_symbols_of(data: Seq<u8>) -> Option<Seq<RawSymbolView>>;

/// The highest image base to which the address of a section and a value can be added, each of
/// four bytes.
pub const MAX_IMAGE_BASE: u64 = 0xFFFF_FFFE_0000_0001;

/// The base of a 64-bit PE image.
pub open spec fn image_base(data: Seq<u8>) -> u64 {
    wire::le_at(data, wire::le_at(data, 60, 4) as int + 48, 8) as u64
}

/// The bytes are a 64-bit PE image whose base may leave no room for the addresses in it.
pub open spec fn has_high_image_base(data: Seq<u8>) -> bool {
    let at = wire::le_at(data, 60, 4) as int;
    &&& data.len() >= 64
    &&& data[0] == 0x4D && data[1] == 0x5A
    &&& data.len() >= at + 56
    &&& wire::le_at(data, at + 24, 2) == 0x20B
    &&& image_base(data) > MAX_IMAGE_BASE
}

/// The base of a 64-bit PE image, if it may leave no room for the addresses in it.
pub fn high_image_base(data: &[u8]) -> (r: Option<u64>)
    ensures
        r == if has_high_image_base(data@) {
            Some(image_base(data@))
        } else {
            None
        },
{
    let total: usize = data.len();
    if total < 64 || data[0] != 0x4D || data[1] != 0x5A {
        return None;
    }
    let header: u32 = u32_at(data, 60);
    if ((total - 56) as u64) < header as u64 {
        return None;
    }
    let at: usize = header as usize;
    let base: u64 = u64_at(data, at + 48);
    if u16_at(data, at + 24) == 0x20B && base > MAX_IMAGE_BASE {
        Some(base)
    } else {
        None
    }
}

/// Reads the symbols of an object file with `object::File::parse` and `Object::symbols`; each is
/// turned into a plain value. The result is named, not spelled out. In a PE image the address of a
/// symbol is a sum of the image base, the address of its section and its value, without a check:
/// images in which that sum could have no number are left out.
#[verifier::external_body]
fn read_object_symbols(data: &[u8]) -> (r: Result<Vec<RawSymbol>, object::Error>)
    requires
        !has_high_image_base(data@),
    ensures
        match r {
            Ok(symbols) => object_symbols_of(data@) == Some(sorting::views(symbols@)),
            Err(_) => object_symbols_of(data@) is None,
        },
{
    let file = object::File::parse(data)?;
    let plain = |s: object::Symbol| -> Result<RawSymbol, object::Error> {
        let section = s.section_index().map(|i| file.section_by_index(i)).transpose()?;
        Ok(RawSymbol {
            name: s.name().ok().map(|n| n.to_string()),
            address: s.address(),
            size: s.size(),
            is_text: s.kind() == object::SymbolKind::Text,
            is_unknown: s.kind() == object::SymbolKind::Unknown,
            in_text_section: section.map(|x| x.kind() == object::SectionKind::Text),
        })
    };
    file.symbols().map(plain).collect()
}

/// The section of a symbol in a PE image.
#[derive(Debug, Clone, Copy, PartialEq, Eq, Structural)]
pub struct ImageSection {
    /// The address of the section, with the image base in it; past the highest address it goes on
    /// at zero.
    pub address: u64,
    pub is_text: bool,
}

/// A symbol as a PE image lists it.
#[derive(Debug, Clone, PartialEq, Eq)]
pub struct ImageSymbol {
    /// `None` if the name cannot be read.
    pub name: Option<String>,
    pub size: u64,
    /// The symbol is marked as code.
    pub is_text: bool,
    /// The kind of the symbol is not known.
    pub is_unknown: bool,
    pub section: Option<ImageSection>,
    pub storage_class: u8,
    pub value: u32,
}

#[verifier::ext_equal]
pub struct ImageSymbolView {
    pub name: Option<Seq<char>>,
    pub size: u64,
    pub is_text: bool,
    pub is_unknown: bool,
    pub section: Option<ImageSection>,
    pub storage_class: u8,
    pub value: u32,
}

impl View for ImageSymbol {
    type V = ImageSymbolView;

    open spec fn view(&self) -> ImageSymbolView {
        ImageSymbolView {
            name: text::optional(self.name),
            size: self.size,
            is_text: self.is_text,
            is_unknown: self.is_unknown,
            section: self.section,
            storage_class: self.storage_class,
            value: self.value,
        }
    }
}

/// The symbols that a 64-bit PE image lists, in its order; `None` if it cannot be read.
pub uninterp spec fn image_symbols_of(data: Seq<u8>) -> Option<Seq<ImageSymbolView>>;

/// Reads the symbols of a 64-bit PE image with `object::read::pe::PeFile64::parse` and
/// `Object::symbols`, with what their addresses are summed from in place of the sums. The result is
/// named, not spelled out.
#[verifier::external_body]
fn read_image_symbols(data: &[u8]) -> (r: Result<Vec<ImageSymbol>, object::Error>)
    ensures
        match r {
            Ok(symbols) => image_symbols_of(data@) == Some(sorting::views(symbols@)),
            Err(_) => image_symbols_of(data@) is None,
        },
{
    let file = PeFile64::parse(data)?;
    let plain = |s: CoffSymbol| -> Result<ImageSymbol, object::Error> {
        let section = s.section_index().map(|i| file.section_by_index(i)).transpose()?;
        Ok(ImageSymbol {
            name: s.name().ok().map(|n| n.to_string()),
            size: s.size(),
            is_text: s.kind() == SymbolKind::Text,
            is_unknown: s.kind() == SymbolKind::Unknown,
            section: section.map(|x| ImageSection { address: x.address(), is_text: x.kind() == SectionKind::Text }),
            storage_class: s.coff_symbol().storage_class,
            value: s.coff_symbol().value.get(LittleEndian),
        })
    };
    file.symbols().map(plain).collect()
}

/// Symbols of these storage classes have an address: external, static, label and weak external.
pub open spec fn has_address(storage_class: u8) -> bool {
    storage_class == 2 || storage_class == 3 || storage_class == 6 || storage_class == 0x69
}

/// The address of a symbol in an image: the image base, the address of the section from there and
/// the value. A symbol without an address has 0, and there is none if the sum has no number.
pub open spec fn image_address(s: ImageSymbolView, base: u64) -> Option<u64> {
    match s.section {
        Some(section) => if has_address(s.storage_class) {
            let address = base + section.address.wrapping_sub(base) + s.value;
            if address > u64::MAX {
                None
            } else {
                Some(address as u64)
            }
        } else {
            Some(0)
        },
        None => Some(0),
    }
}

fn address_in_image(s: &ImageSymbol, base: u64) -> (r: Option<u64>)
    ensures
        r == image_address(s@, base),
{
    let section = match s.section {
        Some(section) => section,
        None => {
            return Some(0);
        },
    };
    let class: u8 = s.storage_class;
    if !(class == 2 || class == 3 || class == 6 || class == 0x69) {
        return Some(0);
    }
    match base.checked_add(section.address.wrapping_sub(base)) {
        Some(start) => start.checked_add(s.value as u64),
        None => None,
    }
}

/// The symbol may be a function, so that its address counts.
pub open spec fn may_be_function(s: ImageSymbolView) -> bool {
    s.section is Some && s.section->0.is_text && (s.is_text || s.is_unknown)
}

/// A symbol of an image with its address.
pub open spec fn placed(s: ImageSymbolView, base: u64) -> RawSymbolView {
    RawSymbolView {
        name: s.name,
        address: match image_address(s, base) {
            Some(address) => address,
            None => 0,
        },
        size: s.size,
        is_text: s.is_text,
        is_unknown: s.is_unknown,
        in_text_section: match s.section {
            Some(section) => Some(section.is_text),
            None => None,
        },
    }
}

/// The first `n` symbols of an image with their addresses; `None` if the address of one that may be
/// a function has no number.
pub open spec fn all_placed(symbols: Seq<ImageSymbolView>, base: u64, n: int) -> Option<
    Seq<RawSymbolView>,
>
    decreases n,
{
    if n <= 0 || n > symbols.len() {
        Some(Seq::empty())
    } else {
        let s = symbols[n - 1];
        match all_placed(symbols, base, n - 1) {
            Some(front) => if may_be_function(s) && image_address(s, base) is None {
                None
            } else {
                Some(front.push(placed(s, base)))
            },
            None => None,
        }
    }
}

proof fn lemma_unplaced(symbols: Seq<ImageSymbolView>, base: u64, i: int, n: int)
    requires
        0 <= i <= n <= symbols.len(),
        all_placed(symbols, base, i) is None,
    ensures
        all_placed(symbols, base, n) is None,
    decreases n - i,
{
    if i < n {
        lemma_unplaced(symbols, base, i, n - 1);
    }
}

/// Gives the symbols of an image their addresses.
pub fn place_symbols(symbols: Vec<ImageSymbol>, base: u64) -> (r: Option<Vec<RawSymbol>>)
    ensures
        match r {
            Some(raw) => all_placed(sorting::views(symbols@), base, symbols@.len() as int) == Some(
                sorting::views(raw@),
            ),
            None => all_placed(sorting::views(symbols@), base, symbols@.len() as int) is None,
        },
{
    let ghost all = sorting::views(symbols@);
    let mut list: Vec<RawSymbol> = Vec::new();
    let mut i: usize = 0;
    proof {
        assert(sorting::views(list@) =~= Seq::empty());
    }
    while i < symbols.len()
        invariant
            i <= symbols@.len(),
            all == sorting::views(symbols@),
            all_placed(all, base, i as int) == Some(sorting::views(list@)),
        decreases symbols@.len() - i,
    {
        let ghost before = sorting::views(list@);
        let s = &symbols[i];
        proof {
            assert(all[i as int] == s@);
        }
        let in_text_section: Option<bool> = match s.section {
            Some(section) => Some(section.is_text),
            None => None,
        };
        let counts: bool = match in_text_section {
            Some(b) => b && (s.is_text || s.is_unknown),
            None => false,
        };
        let address: u64 = match address_in_image(s, base) {
            Some(address) => address,
            None => {
                if counts {
                    proof {
                        lemma_unplaced(all, base, i + 1, all.len() as int);
                    }
                    return None;
                }
                0
            },
        };
        let name: Option<String> = match &s.name {
            Some(name) => Some(owned(name.as_str())),
            None => None,
        };
        list.push(
            RawSymbol {
                name,
                address,
                size: s.size,
                is_text: s.is_text,
                is_unknown: s.is_unknown,
                in_text_section,
            },
        );
        proof {
            assert(sorting::views(list@) =~= before.push(placed(s@, base)));
        }
        i += 1;
    }
    Some(list)
}

/// A function of the firmware.
#[derive(Debug, Clone, PartialEq, Eq)]
pub struct SymbolInfo {
    pub name: String,
    pub address: u64,
    pub size: u64,
}

#[verifier::ext_equal]
pub struct SymbolView {
    pub name: Seq<char>,
    pub address: u64,
    pub size: u64,
}

impl View for SymbolInfo {
    type V = SymbolView;

    open spec fn view(&self) -> SymbolView {
        SymbolView { name: self.name@, address: self.address, size: self.size }
    }
}

impl Ranked for SymbolView {
    open spec fn rank_le(self, other: Self) -> bool {
        self.address <= other.address
    }

    proof fn rank_total(a: Self, b: Self) {
    }

    proof fn rank_transitive(a: Self, b: Self, c: Self) {
    }
}

impl Sortable for SymbolInfo {
    fn not_after(&self, other: &Self) -> (r: bool) {
        self.address <= other.address
    }
}

/// A symbol is a function: it is code in a section of code, has an address and a name that is not
/// one of the linker's own.
pub open spec fn is_function(s: RawSymbolView) -> bool {
    &&& s.in_text_section == Some(true)
    &&& s.is_text || s.is_unknown
    &&& s.address != 0
    &&& s.name matches Some(name) && name.len() > 0 && name[0] != '$'
}

/// The functions among the first `n` symbols.
pub open spec fn functions(symbols: Seq<RawSymbolView>, n: int) -> Seq<SymbolView>
    decreases n,
{
    if n <= 0 || n > symbols.len() {
        Seq::empty()
    } else {
        let front = functions(symbols, n - 1);
        let s = symbols[n - 1];
        if is_function(s) {
            front.push(SymbolView { name: s.name->0, address: s.address, size: s.size })
        } else {
            front
        }
    }
}

/// The size of the last function where none is given.
pub const FALLBACK_SIZE: u64 = 16;

/// Functions in order of address, each with a size: one without reaches up to the next, and the
/// last one a little.
pub open spec fn with_sizes(sorted: Seq<SymbolView>) -> Seq<SymbolView> {
    Seq::new(
        sorted.len(),
        |i: int|
            if sorted[i].size != 0 {
                sorted[i]
            } else if i + 1 < sorted.len() {
                SymbolView {
                    size: (sorted[i + 1].address - sorted[i].address) as u64,
                    ..sorted[i]
                }
            } else {
                SymbolView { size: FALLBACK_SIZE, ..sorted[i] }
            },
    )
}

/// The functions among symbols, in order of address and each with a size.
pub open spec fn sized_functions(symbols: Seq<RawSymbolView>) -> Seq<SymbolView> {
    with_sizes(sorting::stable_sort(functions(symbols, symbols.len() as int)))
}

/// Picks the functions among symbols, in order of address and each with a size.
pub fn select_functions(symbols: Vec<RawSymbol>) -> (r: Vec<SymbolInfo>)
    ensures
        sorting::views(r@) == sized_functions(sorting::views(symbols@)),
{
    let ghost all = sorting::views(symbols@);
    let mut found: Vec<SymbolInfo> = Vec::new();
    proof {
        assert(sorting::views(found@) =~= Seq::empty());
    }
    for s in it: symbols
        invariant
            all == sorting::views(it.seq()),
            sorting::views(found@) == functions(all, it.index()),
    {
        let ghost k = it.index();
        let ghost before = sorting::views(found@);
        proof {
            assert(all[k] == s@);
        }
        let in_text: bool = match s.in_text_section {
            Some(b) => b,
            None => false,
        };
        let code: bool = in_text && (s.is_text || s.is_unknown) && s.address != 0;
        let address: u64 = s.address;
        let size: u64 = s.size;
        match s.name {
            Some(name) => {
                if code && !name.as_str().is_empty() && !begins_with(name.as_str(), '$') {
                    let info = SymbolInfo { name, address, size };
                    let ghost info_view = info@;
                    found.push(info);
                    proof {
                        assert(sorting::views(found@) =~= before.push(info_view));
                    }
                }
            },
            None => {},
        }
    }
    let sorted = sort_stable(found);
    let ghost order = sorting::views(sorted@);
    proof {
        sorting::lemma_stable_sort(functions(all, all.len() as int));
    }
    let mut r = sorted;
    let n: usize = r.len();
    let mut i: usize = 0;
    while i < n
        invariant
            n == r@.len() == order.len(),
            i <= n,
            sorting::is_sorted(order),
            forall|k: int| 0 <= k < i ==> (#[trigger] r@[k])@ == with_sizes(order)[k],
            forall|k: int| i <= k < n ==> (#[trigger] r@[k])@ == order[k],
        decreases n - i,
    {
        if r[i].size == 0 {
            let size: u64 = if i + 1 < n {
                proof {
                    assert(order[i as int].rank_le(order[i + 1]));
                }
                r[i + 1].address - r[i].address
            } else {
                FALLBACK_SIZE
            };
            let mut info = SymbolInfo { name: String::new(), address: r[i].address, size };
            std::mem::swap(&mut info.name, &mut r[i].name);
            r.set(i, info);
        }
        i += 1;
    }
    proof {
        assert(sorting::views(r@) =~= with_sizes(order));
    }
    r
}

/// The symbols of an object file with their addresses; `None` if it cannot be read, or if the address
/// of a symbol that may be a function has no number.
pub open spec fn listed_symbols(data: Seq<u8>) -> Option<Seq<RawSymbolView>> {
    if !has_high_image_base(data) {
        object_symbols_of(data)
    } else {
        match image_symbols_of(data) {
            Some(symbols) => all_placed(symbols, image_base(data), symbols.len() as int),
            None => None,
        }
    }
}

/// Reads the functions of a firmware image, in order of address and each with a size; `None` if it
/// cannot be read, or if the address of a symbol that may be a function has no number.
pub fn get_elf_symbols(data: &[u8]) -> (r: Option<Vec<SymbolInfo>>)
    ensures
        match r {
            Some(symbols) => listed_symbols(data@) matches Some(raw) && sorting::views(symbols@)
                == sized_functions(raw),
            None => listed_symbols(data@) is None,
        },
{
    match high_image_base(data) {
        Some(base) => match read_image_symbols(data) {
            Ok(symbols) => match place_symbols(symbols, base) {
                Some(raw) => Some(select_functions(raw)),
                None => None,
            },
            Err(_) => None,
        },
        None => match read_object_symbols(data) {
            Ok(symbols) => Some(select_functions(symbols)),
            Err(_) => None,
        },
    }
}

/// How much of a function ran.
#[derive(Debug, Clone, PartialEq, Eq)]
pub struct FunctionCoverage {
    pub name: String,
    pub size: u64,
    pub executed: u64,
}

#[verifier::ext_equal]
pub struct FunctionCoverageView {
    pub name: Seq<char>,
    pub size: u64,
    pub executed: nat,
}

impl View for FunctionCoverage {
    type V = FunctionCoverageView;

    open spec fn view(&self) -> FunctionCoverageView {
        FunctionCoverageView {
            name: self.name@,
            size: self.size,
            executed: self.executed as nat,
        }
    }
}

/// How much of each function among the first `n` ran; functions without a size are left out.
pub open spec fn function_lines(symbols: Seq<SymbolView>, executed: Seq<Interval>, n: int) -> Seq<
    FunctionCoverageView,
>
    decreases n,
{
    if n <= 0 || n > symbols.len() {
        Seq::empty()
    } else {
        let front = function_lines(symbols, executed, n - 1);
        let s = symbols[n - 1];
        if s.size == 0 {
            front
        } else {
            front.push(
                FunctionCoverageView {
                    name: s.name,
                    size: s.size,
                    executed: covered_bytes(executed, s.address, (s.address + s.size) as u64),
                },
            )
        }
    }
}

/// The size of all lines together.
pub open spec fn total_size(lines: Seq<FunctionCoverageView>) -> nat
    decreases lines.len(),
{
    if lines.len() == 0 {
        0
    } else {
        total_size(lines.drop_last()) + lines.last().size as nat
    }
}

/// How much of all lines together ran.
pub open spec fn total_executed(lines: Seq<FunctionCoverageView>) -> nat
    decreases lines.len(),
{
    if lines.len() == 0 {
        0
    } else {
        total_executed(lines.drop_last()) + lines.last().executed
    }
}

/// Every function ends within the address space.
pub open spec fn ends_fit(symbols: Seq<SymbolView>) -> bool {
    forall|i: int|
        0 <= i < symbols.len() ==> (#[trigger] symbols[i]).address + symbols[i].size <= u64::MAX
}

/// How much of each function ran, and of all together: the size and what ran of it.
pub struct CoverageReport {
    pub functions: Vec<FunctionCoverage>,
    pub total_size: u64,
    pub total_executed: u64,
}

proof fn lemma_totals_grow(symbols: Seq<SymbolView>, executed: Seq<Interval>, m: int, n: int)
    requires
        0 <= m <= n <= symbols.len(),
    ensures
        total_size(function_lines(symbols, executed, m)) <= total_size(
            function_lines(symbols, executed, n),
        ),
    decreases n - m,
{
    if m < n {
        lemma_totals_grow(symbols, executed, m, n - 1);
        let front = function_lines(symbols, executed, n - 1);
        let all = function_lines(symbols, executed, n);
        if symbols[n - 1].size != 0 {
            assert(all.drop_last() =~= front);
        }
    }
}

/// How much of each function ran, and of all together.
pub fn coverage_report(symbols: &Vec<SymbolInfo>, executed: &[Interval]) -> (r: CoverageReport)
    requires
        in_order(executed@),
        ends_fit(sorting::views(symbols@)),
        total_size(
            function_lines(sorting::views(symbols@), executed@, symbols@.len() as int),
        ) <= u64::MAX,
    ensures
        ({
            let lines = function_lines(
                sorting::views(symbols@),
                executed@,
                symbols@.len() as int,
            );
            &&& sorting::views(r.functions@) == lines
            &&& r.total_size == total_size(lines)
            &&& r.total_executed == total_executed(lines)
            &&& r.total_executed <= r.total_size
        }),
{
    let ghost all = sorting::views(symbols@);
    let ghost whole = function_lines(all, executed@, symbols@.len() as int);
    let mut functions: Vec<FunctionCoverage> = Vec::new();
    let mut size_sum: u64 = 0;
    let mut executed_sum: u64 = 0;
    proof {
        assert(sorting::views(functions@) =~= Seq::empty());
    }
    let mut i: usize = 0;
    while i < symbols.len()
        invariant
            i <= symbols@.len(),
            all == sorting::views(symbols@),
            whole == function_lines(all, executed@, symbols@.len() as int),
            in_order(executed@),
            ends_fit(all),
            total_size(whole) <= u64::MAX,
            sorting::views(functions@) == function_lines(all, executed@, i as int),
            size_sum == total_size(sorting::views(functions@)),
            executed_sum == total_executed(sorting::views(functions@)),
            executed_sum <= size_sum,
        decreases symbols@.len() - i,
    {
        let symbol = &symbols[i];
        proof {
            assert(all[i as int] == symbol@);
            lemma_totals_grow(all, executed@, i + 1, symbols@.len() as int);
        }
        if symbol.size != 0 {
            let count: u64 = calculate_coverage(
                symbol.address,
                symbol.address + symbol.size,
                executed,
            );
            let ghost before = sorting::views(functions@);
            functions.push(
                FunctionCoverage {
                    name: symbol.name.clone(),
                    size: symbol.size,
                    executed: count,
                },
            );
            proof {
                let line = FunctionCoverageView {
                    name: symbol.name@,
                    size: symbol.size,
                    executed: count as nat,
                };
                assert(sorting::views(functions@) =~= before.push(line));
                assert(before.push(line).drop_last() =~= before);
                assert(function_lines(all, executed@, i + 1) == before.push(line));
            }
            size_sum = size_sum + symbol.size;
            executed_sum = executed_sum + count;
        }
        i += 1;
    }
    CoverageReport { functions, total_size: size_sum, total_executed: executed_sum }
}

/// Every function ends within the address space, and all sizes together fit a number of 64 bits.
pub fn sizes_fit(symbols: &Vec<SymbolInfo>) -> (r: bool)
    ensures
        r == (ends_fit(sorting::views(symbols@)) && forall|executed: Seq<Interval>|
            total_size(
                #[trigger] function_lines(
                    sorting::views(symbols@),
                    executed,
                    symbols@.len() as int,
                ),
            ) <= u64::MAX),
{
    let ghost all = sorting::views(symbols@);
    let ghost n = symbols@.len() as int;
    let mut sum: u64 = 0;
    let mut i: usize = 0;
    while i < symbols.len()
        invariant
            i <= symbols@.len(),
            n == symbols@.len(),
            all == sorting::views(symbols@),
            forall|k: int|
                0 <= k < i ==> (#[trigger] all[k]).address + all[k].size <= u64::MAX,
            forall|executed: Seq<Interval>|
                total_size(#[trigger] function_lines(all, executed, i as int)) == sum,
        decreases symbols@.len() - i,
    {
        let symbol = &symbols[i];
        proof {
            assert(all[i as int] == symbol@);
        }
        if symbol.size > u64::MAX - symbol.address {
            return false;
        }
        proof {
            assert forall|executed: Seq<Interval>|
                total_size(#[trigger] function_lines(all, executed, i + 1)) == sum
                    + symbol.size by {
                let front = function_lines(all, executed, i as int);
                let longer = function_lines(all, executed, i + 1);
                if symbol.size != 0 {
                    assert(longer.drop_last() =~= front);
                }
            }
        }
        if symbol.size > u64::MAX - sum {
            proof {
                let executed = Seq::<Interval>::empty();
                lemma_totals_grow(all, executed, i + 1, n);
                assert(total_size(function_lines(all, executed, i + 1)) > u64::MAX);
                assert(total_size(function_lines(all, executed, n)) > u64::MAX);
            }
            return false;
        }
        sum = sum + symbol.size;
        i += 1;
    }
    true
}

/// Of one address, what ran is one if an interval holds it and nothing otherwise; of an empty range
/// nothing ran.
pub proof fn law_coverage_of_one_address(s: Seq<Interval>, a: u64)
    requires
        in_order(s),
        a < u64::MAX,
    ensures
        covered_bytes(s, a, a) == 0,
        covered_bytes(s, a, (a + 1) as u64) == if covers(s, a) {
            1nat
        } else {
            0nat
        },
{
    lemma_overlap_none(s, a, s.len() as int);
    lemma_overlap_one(s, a, s.len() as int);
    if covers(s, a) {
        let k = choose|k: int| 0 <= k < s.len() && #[trigger] holds(s[k], a);
        assert(holds(s[k], a));
    }
}

proof fn lemma_overlap_none(s: Seq<Interval>, a: u64, n: int)
    ensures
        overlap_sum(s, a, a, n) == 0,
    decreases n,
{
    if n > 0 {
        lemma_overlap_none(s, a, n - 1);
    }
}

proof fn lemma_overlap_one(s: Seq<Interval>, a: u64, n: int)
    requires
        in_order(s),
        a < u64::MAX,
        0 <= n <= s.len(),
    ensures
        (exists|k: int| 0 <= k < n && #[trigger] holds(s[k], a)) ==> overlap_sum(
            s,
            a,
            (a + 1) as u64,
            n,
        ) == 1,
        !(exists|k: int| 0 <= k < n && #[trigger] holds(s[k], a)) ==> overlap_sum(
            s,
            a,
            (a + 1) as u64,
            n,
        ) == 0,
    decreases n,
{
    if n > 0 {
        lemma_overlap_one(s, a, n - 1);
        assert(s[n - 1].start <= s[n - 1].end);
        if holds(s[n - 1], a) {
            if exists|k: int| 0 <= k < n - 1 && #[trigger] holds(s[k], a) {
                let k = choose|k: int| 0 <= k < n - 1 && #[trigger] holds(s[k], a);
                assert(s[k].end <= s[n - 1].start);
            }
            assert(holds(s[n - 1], a));
        } else if exists|k: int| 0 <= k < n && #[trigger] holds(s[k], a) {
            let k = choose|k: int| 0 <= k < n && #[trigger] holds(s[k], a);
            assert(holds(s[k], a) && k < n - 1);
        } else if exists|k: int| 0 <= k < n - 1 && #[trigger] holds(s[k], a) {
            let k = choose|k: int| 0 <= k < n - 1 && #[trigger] holds(s[k], a);
            assert(holds(s[k], a));
        }
    }
}

/// A symbol is taken for a function if and only if it stands in a section of code, is marked as
/// code or not marked, has an address, and has a name that is no mark of the assembler; it then
/// keeps its name, its address and its size, behind those before it.
pub proof fn law_functions(symbols: Seq<RawSymbolView>, x: RawSymbolView, name: Seq<char>)
    requires
        x.name == Some(name),
    ensures
        ({
            let n = symbols.len() as int;
            let front = functions(symbols, n);
            let all = functions(symbols.push(x), n + 1);
            let counts = x.in_text_section == Some(true) && (x.is_text || x.is_unknown) && x.address
                > 0 && name.len() > 0 && name[0] != '$';
            &&& counts ==> all == front.push(
                SymbolView { name, address: x.address, size: x.size },
            )
            &&& !counts ==> all == front
            &&& functions(
                symbols.push(RawSymbolView { name: None, ..x }),
                n + 1,
            ) == front
        }),
{
    let n = symbols.len() as int;
    lemma_functions_prefix(symbols, x, n);
    lemma_functions_prefix(symbols, RawSymbolView { name: None, ..x }, n);
}

proof fn lemma_functions_prefix(symbols: Seq<RawSymbolView>, x: RawSymbolView, n: int)
    requires
        0 <= n <= symbols.len(),
    ensures
        functions(symbols.push(x), n) == functions(symbols, n),
    decreases n,
{
    if n > 0 {
        lemma_functions_prefix(symbols, x, n - 1);
        assert(symbols.push(x)[n - 1] == symbols[n - 1]);
    }
}

/// A function without a size reaches to the next one, and the last to a fixed size; one with a size
/// keeps it. Names and addresses stay.
pub proof fn law_sizes(sorted: Seq<SymbolView>, i: int)
    requires
        sorting::is_sorted(sorted),
        0 <= i < sorted.len(),
    ensures
        ({
            let sized = with_sizes(sorted);
            &&& sized.len() == sorted.len()
            &&& sized[i].name == sorted[i].name && sized[i].address == sorted[i].address
            &&& sorted[i].size > 0 ==> sized[i].size == sorted[i].size
            &&& sorted[i].size == 0 && i + 1 < sorted.len() ==> sized[i].address + sized[i].size
                == sorted[i + 1].address
            &&& sorted[i].size == 0 && i + 1 == sorted.len() ==> sized[i].size == 16
        }),
{
    if i + 1 < sorted.len() {
        assert(sorted[i].rank_le(sorted[i + 1]));
    }
}

/// The functions of a report are those with a size, in order, each with what ran of it; the totals
/// add up.
pub proof fn law_report_lines(symbols: Seq<SymbolView>, executed: Seq<Interval>, x: SymbolView)
    ensures
        ({
            let n = symbols.len() as int;
            let front = function_lines(symbols, executed, n);
            let all = function_lines(symbols.push(x), executed, n + 1);
            let line = FunctionCoverageView {
                name: x.name,
                size: x.size,
                executed: covered_bytes(executed, x.address, (x.address + x.size) as u64),
            };
            &&& x.size == 0 ==> all == front
            &&& x.size > 0 ==> all == front.push(line)
            &&& x.size > 0 ==> total_size(all) == total_size(front) + x.size
            &&& x.size > 0 ==> total_executed(all) == total_executed(front) + line.executed
            &&& total_size(Seq::empty()) == 0 && total_executed(Seq::empty()) == 0
        }),
{
    let n = symbols.len() as int;
    lemma_lines_prefix(symbols, executed, x, n);
    let front = function_lines(symbols, executed, n);
    let all = function_lines(symbols.push(x), executed, n + 1);
    if x.size > 0 {
        assert(all.drop_last() =~= front);
    }
}

proof fn lemma_lines_prefix(
    symbols: Seq<SymbolView>,
    executed: Seq<Interval>,
    x: SymbolView,
    n: int,
)
    requires
        0 <= n <= symbols.len(),
    ensures
        function_lines(symbols.push(x), executed, n) == function_lines(symbols, executed, n),
    decreases n,
{
    if n > 0 {
        lemma_lines_prefix(symbols, executed, x, n - 1);
        assert(symbols.push(x)[n - 1] == symbols[n - 1]);
    }
}

/// A symbol of an image stands at the address of its section and its value beyond; without a
/// section, or of a kind that has no address, it stands at zero. Where the sum is too great there
/// is no address.
pub proof fn law_image_addresses(s: ImageSymbolView, base: u64)
    ensures
        s.section is None ==> image_address(s, base) == Some(0u64),
        s.section is Some && s.storage_class != 2 && s.storage_class != 3 && s.storage_class != 6
            && s.storage_class != 105 ==> image_address(s, base) == Some(0u64),
        s.section is Some && (s.storage_class == 2 || s.storage_class == 3 || s.storage_class == 6
            || s.storage_class == 105) && base <= s.section->0.address ==> image_address(s, base)
            == if s.section->0.address + s.value <= u64::MAX {
            Some((s.section->0.address + s.value) as u64)
        } else {
            None
        },
        placed(s, base).name == s.name,
        placed(s, base).size == s.size,
        placed(s, base).is_text == s.is_text,
        placed(s, base).is_unknown == s.is_unknown,
        placed(s, base).in_text_section is Some <==> s.section is Some,
        s.section is Some ==> placed(s, base).in_text_section == Some(s.section->0.is_text),
        image_address(s, base) is Some ==> placed(s, base).address == image_address(s, base)->0,
{
}

/// All symbols of an image are placed, each in its order, unless one that may be a function has no
/// address.
pub proof fn law_all_placed(symbols: Seq<ImageSymbolView>, base: u64, n: int)
    requires
        0 <= n <= symbols.len(),
    ensures
        all_placed(symbols, base, n) is Some <==> forall|i: int|
            0 <= i < n ==> !(may_be_function(#[trigger] symbols[i]) && image_address(
                symbols[i],
                base,
            ) is None),
        all_placed(symbols, base, n) matches Some(all) ==> all.len() == n && forall|i: int|
            0 <= i < n ==> #[trigger] all[i] == placed(symbols[i], base),
    decreases n,
{
    if n > 0 {
        law_all_placed(symbols, base, n - 1);
    }
}

/// A program image names its header behind its first sixty bytes; where that is of the wide form, its
/// base stands in it, and it is high exactly if it is above the limit.
pub proof fn law_image_base_reads_back(
    front: Seq<u8>,
    middle: Seq<u8>,
    head: Seq<u8>,
    form: u16,
    more: Seq<u8>,
    base: u64,
    rest: Seq<u8>,
)
    requires
        front.len() == 58,
        64 + middle.len() <= u32::MAX,
        head.len() == 24,
        more.len() == 22,
    ensures
        ({
            let data = seq![0x4Du8, 0x5Au8] + front + wire::le_bytes(64 + middle.len(), 4) + middle
                + head + wire::le_bytes(form as nat, 2) + more + wire::le_bytes(base as nat, 8)
                + rest;
            &&& image_base(data) == base
            &&& has_high_image_base(data) <==> form == 0x20B && base > 0xFFFF_FFFE_0000_0001
            &&& !has_high_image_base(data) ==> listed_symbols(data) == object_symbols_of(data)
            &&& has_high_image_base(data) && image_symbols_of(data) is None ==> listed_symbols(data)
                is None
            &&& has_high_image_base(data) && image_symbols_of(data) is Some ==> listed_symbols(data)
                == all_placed(
                image_symbols_of(data)->0,
                base,
                image_symbols_of(data)->0.len() as int,
            )
        }),
{
    let a = seq![0x4Du8, 0x5Au8] + front;
    let at = wire::le_bytes(64 + middle.len(), 4);
    let f = wire::le_bytes(form as nat, 2);
    let b = wire::le_bytes(base as nat, 8);
    let data = a + at + middle + head + f + more + b + rest;
    crate::deterministic_coordinator::frame_laws::lemma_byte_ranges();
    crate::deterministic_coordinator::frame_laws::lemma_number_in(
        a,
        64 + middle.len(),
        4,
        middle + head + f + more + b + rest,
    );
    assert(a + at + (middle + head + f + more + b + rest) =~= data);
    crate::deterministic_coordinator::frame_laws::lemma_number_in(
        a + at + middle + head,
        form as nat,
        2,
        more + b + rest,
    );
    assert(a + at + middle + head + f + (more + b + rest) =~= data);
    crate::deterministic_coordinator::frame_laws::lemma_number_in(
        a + at + middle + head + f + more,
        base as nat,
        8,
        rest,
    );
    assert(data[0] == 0x4D && data[1] == 0x5A);
    assert((a + at + middle + head).len() == 64 + middle.len() + 24);
}

} // verus!
