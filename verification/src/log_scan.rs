//! Whether a log can be handed to its reader: the lengths in it must not lead the reader astray.
use mcap::sans_io::{LinearReadEvent, LinearReader, LinearReaderOptions};
use mcap::McapError;
use vstd::prelude::*;

use crate::sorting;
use crate::wire;
use crate::wire::{u32_at, u64_at};

verus! {

/// The record that ends a log.
pub const FOOTER: u8 = 0x02;

/// The record that holds other records.
pub const CHUNK: u8 = 0x06;

/// The record that holds a file.
pub const ATTACHMENT: u8 = 0x09;

/// The record that ends the messages of a log.
pub const DATA_END: u8 = 0x0F;

/// The most bytes that one compressed byte stands for: a block of a zstd frame takes four bytes or
/// more and stands for up to 128 KiB. With lz4 it is far less.
pub const MAX_GROWTH: usize = 0x8000;

/// The longest record that so many bytes of a compressed chunk can stand for, as far as lengths can
/// be summed.
pub open spec fn record_limit(compressed: nat) -> usize {
    if compressed > usize::MAX / 4 / MAX_GROWTH {
        usize::MAX / 4
    } else {
        (compressed * MAX_GROWTH) as usize
    }
}

fn longest_record(compressed: usize) -> (r: usize)
    ensures
        r == record_limit(compressed as nat),
        r <= usize::MAX / 4,
{
    if compressed > usize::MAX / 4 / MAX_GROWTH {
        usize::MAX / 4
    } else {
        compressed * MAX_GROWTH
    }
}

/// What comes out of a compressed chunk.
#[derive(Debug, PartialEq, Eq)]
pub enum ChunkItem {
    Record { opcode: u8, data: Vec<u8> },
    /// A length beyond the limit; nothing comes after it.
    TooLarge,
    /// The chunk is broken; nothing comes after it.
    Failed,
}

#[verifier::ext_equal]
pub enum ChunkItemView {
    Record { opcode: u8, data: Seq<u8> },
    TooLarge,
    Failed,
}

impl View for ChunkItem {
    type V = ChunkItemView;

    open spec fn view(&self) -> ChunkItemView {
        match self {
            ChunkItem::Record { opcode, data } => ChunkItemView::Record {
                opcode: *opcode,
                data: data@,
            },
            ChunkItem::TooLarge => ChunkItemView::TooLarge,
            ChunkItem::Failed => ChunkItemView::Failed,
        }
    }
}

/// What a compressed chunk holds, up to a limit on the length of a record.
pub uninterp spec fn chunk_items_of(chunk: Seq<u8>, limit: usize) -> Seq<ChunkItemView>;

/// The bytes are those of one chunk with compressed records, whole or cut off behind its fixed
/// fields.
pub open spec fn is_compressed_chunk(chunk: Seq<u8>) -> bool {
    &&& chunk.len() >= 49
    &&& chunk[0] == CHUNK
    &&& chunk.len() - 9 <= wire::le_at(chunk, 1, 8) <= usize::MAX - 9
    &&& wire::le_at(chunk, 37, 4) > 0
}

/// Takes the records out of a compressed chunk with `mcap::sans_io::LinearReader`, which is handed
/// all the bytes and is told that there are no more when it asks for more; each of its other events
/// is turned into a plain value, up to the first error. The result is named, not spelled out. The reader sums lengths
/// without a check where a chunk is not compressed, or where a record has no limit: such bytes
/// are left out.
#[verifier::external_body]
fn read_chunk(chunk: &[u8], limit: usize) -> (r: Vec<ChunkItem>)
    requires
        is_compressed_chunk(chunk@),
        limit <= usize::MAX / 4,
    ensures
        sorting::views(r@) == chunk_items_of(chunk@, limit),
{
    let bare = LinearReaderOptions::default().with_skip_start_magic(true).with_skip_end_magic(true);
    let mut reader = LinearReader::new_with_options(bare.with_record_length_limit(limit));
    reader.insert(chunk.len()).copy_from_slice(chunk);
    reader.notify_read(chunk.len());
    let mut items = Vec::new();
    while let Some(event) = reader.next_event() {
        match event {
            Ok(LinearReadEvent::ReadRequest(_)) => reader.notify_read(0),
            Ok(LinearReadEvent::Record { data, opcode }) => items.push(ChunkItem::Record { opcode, data: data.to_vec() }),
            Err(McapError::RecordTooLarge { .. } | McapError::ChunkTooLarge(_)) => { items.push(ChunkItem::TooLarge); break; },
            Err(_) => { items.push(ChunkItem::Failed); break; },
        }
    }
    items
}

/// An attachment has room for its checksum: behind two times, a name, a type and the length of its
/// data there are four more bytes. One that ends before all of these is only refused.
pub open spec fn attachment_fits(body: Seq<u8>) -> bool {
    let name = wire::le_at(body, 16, 4);
    let kind = wire::le_at(body, 20 + name as int, 4);
    let data_at = 32 + name + kind;
    body.len() < 24 || body.len() < 24 + name || body.len() < data_at || body.len() >= data_at + 4
}

/// Whether an attachment has room for its checksum.
pub fn is_whole_attachment(body: &[u8]) -> (r: bool)
    ensures
        r == attachment_fits(body@),
{
    let n: usize = body.len();
    if n < 24 {
        return true;
    }
    let name: usize = u32_at(body, 16) as usize;
    if n - 24 < name {
        return true;
    }
    let kind: usize = u32_at(body, 20 + name) as usize;
    let left: usize = n - 24 - name;
    if left < kind || left - kind < 8 {
        return true;
    }
    left - kind >= 12
}

/// A record does not lead the reader astray.
pub open spec fn record_fits(opcode: u8, body: Seq<u8>) -> bool {
    opcode != ATTACHMENT || attachment_fits(body)
}

fn is_sound_record(opcode: u8, body: &[u8]) -> (r: bool)
    ensures
        r == record_fits(opcode, body@),
{
    opcode != ATTACHMENT || is_whole_attachment(body)
}

/// What comes out of a compressed chunk does not lead the reader astray.
pub open spec fn items_fit(items: Seq<ChunkItemView>) -> bool {
    forall|i: int|
        0 <= i < items.len() ==> match #[trigger] items[i] {
            ChunkItemView::Record { opcode, data } => record_fits(opcode, data),
            ChunkItemView::TooLarge => false,
            ChunkItemView::Failed => true,
        }
}

/// The reader stops at what comes out of a compressed chunk.
pub open spec fn items_break(items: Seq<ChunkItemView>) -> bool {
    items.len() > 0 && items.last() is Failed
}

fn are_broken_items(items: &Vec<ChunkItem>) -> (r: bool)
    ensures
        r == items_break(sorting::views(items@)),
{
    let n: usize = items.len();
    if n == 0 {
        return false;
    }
    proof {
        assert(sorting::views(items@).last() == items@[n - 1]@);
    }
    match &items[n - 1] {
        ChunkItem::Failed => true,
        _ => false,
    }
}

/// Whether what comes out of a compressed chunk does not lead the reader astray.
pub fn are_sound_items(items: &Vec<ChunkItem>) -> (r: bool)
    ensures
        r == items_fit(sorting::views(items@)),
{
    let ghost all = sorting::views(items@);
    let mut i: usize = 0;
    while i < items.len()
        invariant
            i <= items@.len(),
            all == sorting::views(items@),
            forall|k: int|
                0 <= k < i ==> match #[trigger] all[k] {
                    ChunkItemView::Record { opcode, data } => record_fits(opcode, data),
                    ChunkItemView::TooLarge => false,
                    ChunkItemView::Failed => true,
                },
        decreases items@.len() - i,
    {
        proof {
            assert(all[i as int] == items@[i as int]@);
        }
        let sound = match &items[i] {
            ChunkItem::Record { opcode, data } => is_sound_record(*opcode, data.as_slice()),
            ChunkItem::TooLarge => false,
            ChunkItem::Failed => true,
        };
        if !sound {
            return false;
        }
        i += 1;
    }
    true
}

/// The first record of an uncompressed chunk, whose records go from `at` to `end`, that leads the
/// reader astray: it leaves the chunk, or is not sound in itself. Without one, the end of the log.
/// Where the log is cut off, what is there counts.
pub open spec fn chunk_end(bytes: Seq<u8>, at: int, end: int) -> int
    decreases bytes.len() - at,
{
    if at < 0 || at >= end || at + 9 > bytes.len() {
        bytes.len() as int
    } else {
        let n = wire::le_at(bytes, at + 1, 8);
        if n > usize::MAX - 9 {
            at
        } else if at + 9 + n > bytes.len() {
            bytes.len() as int
        } else if at + 9 + n > end || !record_fits(
            bytes[at],
            bytes.subrange(at + 9, at + 9 + n),
        ) {
            at
        } else {
            chunk_end(bytes, at + 9 + n as int, end)
        }
    }
}

/// What a chunk does to the reader.
#[derive(Debug, Clone, Copy, PartialEq, Eq, Structural)]
pub enum ChunkEffect {
    /// It is read through.
    Passed,
    /// It is broken, so that the reader stops there.
    Stopped,
    /// It leads the reader astray.
    Astray,
}

/// What a chunk does to the reader that begins at `at` with its opcode, and whose body is `n` bytes
/// long.
pub open spec fn chunk_effect(bytes: Seq<u8>, at: int, n: nat) -> ChunkEffect {
    let body = at + 9;
    if body + 40 > bytes.len() {
        ChunkEffect::Stopped
    } else {
        let named = wire::le_at(bytes, body + 28, 4);
        let records_at = body + 40 + named;
        if 40 + named > n || records_at > bytes.len() {
            ChunkEffect::Stopped
        } else {
            let size = wire::le_at(bytes, body + 32 + named, 8);
            if 40 + named + size > n {
                ChunkEffect::Stopped
            } else if named == 0 {
                if chunk_end(bytes, records_at, records_at + size) == bytes.len() {
                    ChunkEffect::Passed
                } else {
                    ChunkEffect::Astray
                }
            } else if n > usize::MAX - 9 {
                ChunkEffect::Astray
            } else {
                let end = if body + n > bytes.len() {
                    bytes.len() as int
                } else {
                    body + n
                };
                items_effect(
                    chunk_items_of(bytes.subrange(at, end), record_limit((end - at) as nat)),
                )
            }
        }
    }
}

/// What the records of a compressed chunk do to the reader.
pub open spec fn items_effect(items: Seq<ChunkItemView>) -> ChunkEffect {
    if !items_fit(items) {
        ChunkEffect::Astray
    } else if items_break(items) {
        ChunkEffect::Stopped
    } else {
        ChunkEffect::Passed
    }
}

/// Where a chunk that begins at `at` leads the reader astray: at a record of it, or, if its records
/// are compressed, at the chunk itself.
pub open spec fn astray_at(bytes: Seq<u8>, at: int) -> int {
    let records_at = at + 49;
    if wire::le_at(bytes, at + 37, 4) == 0 {
        chunk_end(bytes, records_at, records_at + wire::le_at(bytes, at + 41, 8))
    } else {
        at
    }
}

/// Where the records of a log from `at` on lead the reader astray; if they do not, its end.
pub open spec fn log_end(bytes: Seq<u8>, at: int) -> int
    decreases bytes.len() - at,
{
    if at < 0 || at + 9 > bytes.len() || bytes[at] == FOOTER {
        bytes.len() as int
    } else {
        let n = wire::le_at(bytes, at + 1, 8);
        let cut_off = at + 9 + n > bytes.len();
        if bytes[at] == CHUNK {
            match chunk_effect(bytes, at, n) {
                ChunkEffect::Passed => if cut_off {
                    bytes.len() as int
                } else {
                    log_end(bytes, at + 9 + n as int)
                },
                ChunkEffect::Stopped => bytes.len() as int,
                ChunkEffect::Astray => astray_at(bytes, at),
            }
        } else if cut_off {
            if bytes[at] == DATA_END || n <= usize::MAX - 9 {
                bytes.len() as int
            } else {
                at
            }
        } else if record_fits(bytes[at], bytes.subrange(at + 9, at + 9 + n)) {
            log_end(bytes, at + 9 + n as int)
        } else {
            at
        }
    }
}

/// The bytes with which a log begins.
pub open spec fn magic() -> Seq<u8> {
    seq![0x89u8, 0x4Du8, 0x43u8, 0x41u8, 0x50u8, 0x30u8, 0x0Du8, 0x0Au8]
}

/// Where a log leads the reader astray: at a record that is so long that its end has no number, that
/// leaves its chunk, or that is an attachment without room for its checksum, or at a compressed
/// chunk that holds an attachment like that or a record longer than its bytes can stand for. If it
/// does not, its end: what is no log at all is only refused, and what stands behind a broken chunk
/// is not read.
pub open spec fn sound_end(bytes: Seq<u8>) -> int {
    if bytes.len() < 8 || bytes.take(8) != magic() {
        bytes.len() as int
    } else {
        log_end(bytes, 8)
    }
}

/// The log does not lead the reader astray.
pub open spec fn is_sound_log(bytes: Seq<u8>) -> bool {
    sound_end(bytes) == bytes.len()
}

proof fn lemma_chunk_end(bytes: Seq<u8>, at: int, end: int)
    requires
        0 <= at <= bytes.len(),
    ensures
        at <= chunk_end(bytes, at, end) <= bytes.len(),
        chunk_end(bytes, at, end) < bytes.len() ==> chunk_end(bytes, at, end) < end,
    decreases bytes.len() - at,
{
    if at < end && at + 9 <= bytes.len() {
        let n = wire::le_at(bytes, at + 1, 8);
        if at + 9 + n <= bytes.len() {
            lemma_chunk_end(bytes, at + 9 + n as int, end);
        }
    }
}

proof fn lemma_chunk_part(bytes: Seq<u8>, at: int, end: int, q: int)
    requires
        0 <= at <= q <= chunk_end(bytes, at, end),
        q <= bytes.len(),
    ensures
        chunk_end(bytes.take(q), at, end) == q,
    decreases bytes.len() - at,
{
    let part = bytes.take(q);
    if at < end && at + 9 <= q {
        assert(part.subrange(at + 1, at + 9) =~= bytes.subrange(at + 1, at + 9));
        let n = wire::le_at(bytes, at + 1, 8);
        if at + 9 + n <= q {
            assert(part.subrange(at + 9, at + 9 + n) =~= bytes.subrange(at + 9, at + 9 + n));
            lemma_chunk_part(bytes, at + 9 + n as int, end, q);
        }
    }
}

proof fn lemma_log_end(bytes: Seq<u8>, at: int)
    requires
        0 <= at <= bytes.len(),
    ensures
        at <= log_end(bytes, at) <= bytes.len(),
    decreases bytes.len() - at,
{
    if at + 9 <= bytes.len() {
        let n = wire::le_at(bytes, at + 1, 8);
        if at + 9 + n <= bytes.len() {
            lemma_log_end(bytes, at + 9 + n as int);
        }
        if bytes[at] == CHUNK && at + 49 <= bytes.len() {
            lemma_chunk_end(bytes, at + 49, at + 49 + wire::le_at(bytes, at + 41, 8));
        }
    }
}

/// A chunk that is read through is also read through where the log is cut off behind it.
proof fn lemma_chunk_passes(bytes: Seq<u8>, at: int, n: nat, q: int)
    requires
        0 <= at,
        at + 9 + n <= q <= bytes.len(),
        n == wire::le_at(bytes, at + 1, 8),
        chunk_effect(bytes, at, n) is Passed,
    ensures
        chunk_effect(bytes.take(q), at, n) is Passed,
{
    let part = bytes.take(q);
    let body = at + 9;
    let named = wire::le_at(bytes, body + 28, 4);
    let records_at = body + 40 + named;
    assert(part.subrange(body + 28, body + 32) =~= bytes.subrange(body + 28, body + 32));
    assert(part.subrange(body + 32 + named, body + 40 + named) =~= bytes.subrange(
        body + 32 + named,
        body + 40 + named,
    ));
    if named == 0 {
        let size = wire::le_at(bytes, body + 32 + named, 8);
        lemma_chunk_part(bytes, records_at, records_at + size, q);
    } else {
        assert(part.subrange(at, body + n) =~= bytes.subrange(at, body + n));
    }
}

/// A log leads the reader astray nowhere before the first place where it does.
proof fn lemma_sound_before(bytes: Seq<u8>, at: int)
    requires
        0 <= at <= bytes.len(),
    ensures
        log_end(bytes.take(log_end(bytes, at)), at) == log_end(bytes, at),
    decreases bytes.len() - at,
{
    let q = log_end(bytes, at);
    lemma_log_end(bytes, at);
    let part = bytes.take(q);
    if q == bytes.len() {
        assert(part =~= bytes);
    } else if at + 9 <= q {
        let n = wire::le_at(bytes, at + 1, 8);
        assert(part.subrange(at + 1, at + 9) =~= bytes.subrange(at + 1, at + 9));
        if bytes[at] == CHUNK {
            if chunk_effect(bytes, at, n) is Passed {
                let next = at + 9 + n as int;
                lemma_log_end(bytes, next);
                lemma_sound_before(bytes, next);
                lemma_chunk_passes(bytes, at, n, q);
            } else {
                let size = wire::le_at(bytes, at + 41, 8);
                lemma_chunk_end(bytes, at + 49, at + 49 + size);
                lemma_chunk_part(bytes, at + 49, at + 49 + size, q);
                assert(part.subrange(at + 37, at + 41) =~= bytes.subrange(at + 37, at + 41));
                assert(part.subrange(at + 41, at + 49) =~= bytes.subrange(at + 41, at + 49));
            }
        } else {
            let next = at + 9 + n as int;
            lemma_log_end(bytes, next);
            lemma_sound_before(bytes, next);
            assert(part.subrange(at + 9, next) =~= bytes.subrange(at + 9, next));
        }
    }
}

/// What stands before the first place where a log leads the reader astray is a log that does not.
pub proof fn law_sound_part(bytes: Seq<u8>)
    ensures
        0 <= sound_end(bytes) <= bytes.len(),
        is_sound_log(bytes.take(sound_end(bytes))),
{
    if bytes.len() >= 8 && bytes.take(8) == magic() {
        lemma_log_end(bytes, 8);
        lemma_sound_before(bytes, 8);
        let part = bytes.take(sound_end(bytes));
        assert(part.take(8) =~= bytes.take(8));
    } else {
        assert(bytes.take(sound_end(bytes)) =~= bytes);
    }
}

/// Where the records of an uncompressed chunk lead the reader astray.
fn end_of_chunk(bytes: &[u8], from: usize, end: u64) -> (r: usize)
    requires
        from <= bytes@.len(),
        from <= end,
    ensures
        r == chunk_end(bytes@, from as int, end as int),
{
    let total: usize = bytes.len();
    let mut at: usize = from;
    while (at as u64) < end && total - at >= 9
        invariant
            total == bytes@.len(),
            at <= total,
            chunk_end(bytes@, from as int, end as int) == chunk_end(bytes@, at as int, end as int),
        decreases total - at,
    {
        let n: u64 = u64_at(bytes, at + 1);
        if n > (usize::MAX - 9) as u64 {
            return at;
        }
        if n > (total - at - 9) as u64 {
            return total;
        }
        let next: usize = at + 9 + n as usize;
        if next as u64 > end {
            return at;
        }
        if !is_sound_record(bytes[at], vstd::slice::slice_subrange(bytes, at + 9, next)) {
            return at;
        }
        at = next;
    }
    total
}

fn effect_of_chunk(bytes: &[u8], at: usize, n: u64) -> (r: (ChunkEffect, usize))
    requires
        at + 9 <= bytes@.len(),
        bytes@[at as int] == CHUNK,
        n == wire::le_at(bytes@, at + 1, 8),
    ensures
        r.0 == chunk_effect(bytes@, at as int, n as nat),
        r.0 is Astray ==> r.1 == astray_at(bytes@, at as int),
{
    let total: usize = bytes.len();
    let body: usize = at + 9;
    if total - body < 40 {
        return (ChunkEffect::Stopped, at);
    }
    let named: u32 = u32_at(bytes, body + 28);
    if n < 40 || n - 40 < named as u64 || ((total - body - 40) as u64) < named as u64 {
        return (ChunkEffect::Stopped, at);
    }
    let records_at: usize = body + 40 + named as usize;
    let size: u64 = u64_at(bytes, records_at - 8);
    if n - 40 - (named as u64) < size {
        return (ChunkEffect::Stopped, at);
    }
    if named == 0 {
        let end: usize = match (records_at as u64).checked_add(size) {
            Some(end) => end_of_chunk(bytes, records_at, end),
            None => {
                proof {
                    lemma_far_end(bytes@, records_at as int, u64::MAX as int, records_at + size);
                }
                end_of_chunk(bytes, records_at, u64::MAX)
            },
        };
        return if end == total {
            (ChunkEffect::Passed, at)
        } else {
            (ChunkEffect::Astray, end)
        };
    }
    if n > (usize::MAX - 9) as u64 {
        return (ChunkEffect::Astray, at);
    }
    let end: usize = if n > (total - body) as u64 {
        total
    } else {
        body + n as usize
    };
    let chunk = vstd::slice::slice_subrange(bytes, at, end);
    proof {
        assert(chunk@.subrange(1, 9) =~= bytes@.subrange(at + 1, at + 9));
        assert(chunk@.subrange(37, 41) =~= bytes@.subrange(body + 28, body + 32));
    }
    let items = read_chunk(chunk, longest_record(end - at));
    let effect = if !are_sound_items(&items) {
        ChunkEffect::Astray
    } else if are_broken_items(&items) {
        ChunkEffect::Stopped
    } else {
        ChunkEffect::Passed
    };
    (effect, at)
}

proof fn lemma_far_end(bytes: Seq<u8>, at: int, a: int, b: int)
    requires
        bytes.len() <= a,
        bytes.len() <= b,
    ensures
        chunk_end(bytes, at, a) == chunk_end(bytes, at, b),
    decreases bytes.len() - at,
{
    if 0 <= at && at + 9 <= bytes.len() {
        let n = wire::le_at(bytes, at + 1, 8);
        if at + 9 + n <= bytes.len() {
            lemma_far_end(bytes, at + 9 + n as int, a, b);
        }
    }
}

fn starts_with_magic(bytes: &[u8]) -> (r: bool)
    ensures
        r == (bytes@.len() >= 8 && bytes@.take(8) == magic()),
{
    if bytes.len() < 8 {
        return false;
    }
    let r = bytes[0] == 0x89 && bytes[1] == 0x4D && bytes[2] == 0x43 && bytes[3] == 0x41
        && bytes[4] == 0x50 && bytes[5] == 0x30 && bytes[6] == 0x0D && bytes[7] == 0x0A;
    proof {
        let first = bytes@.take(8);
        assert(forall|i: int| 0 <= i < 8 ==> first[i] == bytes@[i]);
        if r {
            assert(first =~= magic());
        }
        assert(first[0] == bytes@[0] && first[1] == bytes@[1] && first[2] == bytes@[2]);
        assert(first[3] == bytes@[3] && first[4] == bytes@[4] && first[5] == bytes@[5]);
        assert(first[6] == bytes@[6] && first[7] == bytes@[7]);
    }
    r
}

/// Where a log leads the reader astray; if it does not, its end.
pub fn readable_part(bytes: &[u8]) -> (r: usize)
    ensures
        r == sound_end(bytes@),
{
    let total: usize = bytes.len();
    if !starts_with_magic(bytes) {
        return total;
    }
    let mut at: usize = 8;
    while total - at >= 9 && bytes[at] != FOOTER
        invariant
            total == bytes@.len(),
            at <= total,
            log_end(bytes@, 8) == log_end(bytes@, at as int),
            bytes@.len() >= 8 && bytes@.take(8) == magic(),
        decreases total - at,
    {
        let opcode: u8 = bytes[at];
        let n: u64 = u64_at(bytes, at + 1);
        if opcode == CHUNK {
            let effect = effect_of_chunk(bytes, at, n);
            match effect.0 {
                ChunkEffect::Passed => {},
                ChunkEffect::Stopped => {
                    return total;
                },
                ChunkEffect::Astray => {
                    return effect.1;
                },
            }
        }
        if n > (total - at - 9) as u64 {
            return if opcode == CHUNK || opcode == DATA_END || n <= (usize::MAX - 9) as u64 {
                total
            } else {
                at
            };
        }
        let next: usize = at + 9 + n as usize;
        if opcode != CHUNK && !is_sound_record(
            opcode,
            vstd::slice::slice_subrange(bytes, at + 9, next),
        ) {
            return at;
        }
        at = next;
    }
    total
}

} // verus!
