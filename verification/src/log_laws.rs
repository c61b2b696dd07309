//! What holds of looking through a log of records.
use vstd::prelude::*;

use crate::log_scan;
use crate::log_scan::{ChunkEffect, ChunkItemView};
use crate::wire;

verus! {

/// A record of a log: its kind, the length of its body in eight bytes, and its body.
pub open spec fn written_record(opcode: u8, body: Seq<u8>) -> Seq<u8> {
    seq![opcode] + wire::le_bytes(body.len(), 8) + body
}

pub open spec fn written_records(records: Seq<(u8, Seq<u8>)>) -> Seq<u8>
    decreases records.len(),
{
    if records.len() == 0 {
        Seq::empty()
    } else {
        written_records(records.drop_last()) + written_record(records.last().0, records.last().1)
    }
}

/// Neither a footer nor a chunk nor an attachment, and not too long to stand in memory.
pub open spec fn is_plain(record: (u8, Seq<u8>)) -> bool {
    record.0 != 2 && record.0 != 6 && record.0 != 9 && record.1.len() + 9 <= u32::MAX
}

pub open spec fn are_plain(records: Seq<(u8, Seq<u8>)>) -> bool {
    forall|i: int| 0 <= i < records.len() ==> is_plain(#[trigger] records[i])
}

proof fn lemma_record(front: Seq<u8>, opcode: u8, body: Seq<u8>, rest: Seq<u8>)
    requires
        body.len() <= u64::MAX,
    ensures
        ({
            let at = front.len() as int;
            let bytes = front + written_record(opcode, body) + rest;
            &&& written_record(opcode, body).len() == 9 + body.len()
            &&& bytes.len() == at + 9 + body.len() + rest.len()
            &&& bytes[at] == opcode
            &&& wire::le_at(bytes, at + 1, 8) == body.len()
            &&& bytes.subrange(at + 9, at + 9 + body.len()) == body
        }),
{
    crate::deterministic_coordinator::frame_laws::lemma_byte_ranges();
    let size = wire::le_bytes(body.len(), 8);
    crate::deterministic_coordinator::frame_laws::lemma_number_in(
        front + seq![opcode],
        body.len(),
        8,
        body + rest,
    );
    let bytes = front + written_record(opcode, body) + rest;
    assert(front + seq![opcode] + size + (body + rest) =~= bytes);
    let at = front.len() as int;
    assert(bytes.subrange(at + 9, at + 9 + body.len()) =~= body);
}

/// Whole records are passed over one after the other, in a log and in a chunk.
pub proof fn law_records_are_passed(front: Seq<u8>, records: Seq<(u8, Seq<u8>)>, rest: Seq<u8>)
    requires
        are_plain(records),
    ensures
        ({
            let at = front.len() as int;
            let all = written_records(records);
            let bytes = front + all + rest;
            &&& log_scan::log_end(bytes, at) == log_scan::log_end(bytes, at + all.len())
            &&& log_scan::chunk_end(bytes, at, at + all.len()) == bytes.len()
        }),
    decreases records.len(),
{
    let at = front.len() as int;
    let all = written_records(records);
    let bytes = front + all + rest;
    lemma_chunk_records(front, records, rest, at + all.len());
    if records.len() > 0 {
        let last = records.last();
        let before = written_records(records.drop_last());
        let record = written_record(last.0, last.1);
        assert(is_plain(records[records.len() - 1]));
        assert(are_plain(records.drop_last())) by {
            assert forall|i: int| 0 <= i < records.drop_last().len() implies is_plain(
                #[trigger] records.drop_last()[i],
            ) by {
                assert(is_plain(records[i]));
            }
        }
        law_records_are_passed(front, records.drop_last(), record + rest);
        assert(front + before + (record + rest) =~= bytes);
        lemma_record(front + before, last.0, last.1, rest);
        assert(front + before + record + rest =~= bytes);
    }
}

proof fn lemma_chunk_records(front: Seq<u8>, records: Seq<(u8, Seq<u8>)>, rest: Seq<u8>, end: int)
    requires
        are_plain(records),
        end >= front.len() + written_records(records).len(),
    ensures
        ({
            let at = front.len() as int;
            let all = written_records(records);
            let bytes = front + all + rest;
            &&& log_scan::chunk_end(bytes, at, end) == log_scan::chunk_end(
                bytes,
                at + all.len(),
                end,
            )
            &&& log_scan::chunk_end(bytes, end, end) == bytes.len()
        }),
    decreases records.len(),
{
    let all = written_records(records);
    let bytes = front + all + rest;
    if records.len() > 0 {
        let last = records.last();
        let before = written_records(records.drop_last());
        let record = written_record(last.0, last.1);
        assert(is_plain(records[records.len() - 1]));
        assert(are_plain(records.drop_last())) by {
            assert forall|i: int| 0 <= i < records.drop_last().len() implies is_plain(
                #[trigger] records.drop_last()[i],
            ) by {
                assert(is_plain(records[i]));
            }
        }
        lemma_chunk_records(front, records.drop_last(), record + rest, end);
        assert(front + before + (record + rest) =~= bytes);
        lemma_record(front + before, last.0, last.1, rest);
        assert(front + before + record + rest =~= bytes);
    }
}

/// A log of whole records is sound, with and without a footer, whatever stands behind the footer.
/// So is one whose last record is cut off, unless its length is beyond what memory can hold: then
/// all that stands before that record is.
pub proof fn law_logs_of_records(
    records: Seq<(u8, Seq<u8>)>,
    rest: Seq<u8>,
    opcode: u8,
    length: u64,
    cut: Seq<u8>,
)
    requires
        are_plain(records),
        opcode != 2,
        opcode != 6,
        opcode != 15,
        cut.len() < length,
    ensures
        ({
            let head = seq![0x89u8, 0x4Du8, 0x43u8, 0x41u8, 0x50u8, 0x30u8, 0x0Du8, 0x0Au8];
            let log = head + written_records(records);
            let broken = log + seq![opcode] + wire::le_bytes(length as nat, 8) + cut;
            &&& log_scan::sound_end(log) == log.len()
            &&& rest.len() >= 8 ==> log_scan::sound_end(log + seq![2u8] + rest) == log.len() + 1
                + rest.len()
            &&& length <= usize::MAX - 9 ==> log_scan::sound_end(broken) == broken.len()
            &&& length > usize::MAX - 9 ==> log_scan::sound_end(broken) == log.len()
        }),
{
    let head = seq![0x89u8, 0x4Du8, 0x43u8, 0x41u8, 0x50u8, 0x30u8, 0x0Du8, 0x0Au8];
    let all = written_records(records);
    let log = head + all;
    assert(head =~= log_scan::magic());
    law_records_are_passed(head, records, Seq::empty());
    assert(log + Seq::<u8>::empty() =~= log);
    assert(log.take(8) =~= head);
    let ended = log + seq![2u8] + rest;
    law_records_are_passed(head, records, seq![2u8] + rest);
    assert(head + all + (seq![2u8] + rest) =~= ended);
    assert(ended.take(8) =~= head);
    assert(ended[log.len() as int] == 2u8);
    let size = wire::le_bytes(length as nat, 8);
    let broken = log + seq![opcode] + size + cut;
    law_records_are_passed(head, records, seq![opcode] + size + cut);
    assert(head + all + (seq![opcode] + size + cut) =~= broken);
    crate::deterministic_coordinator::frame_laws::lemma_byte_ranges();
    crate::deterministic_coordinator::frame_laws::lemma_number_in(
        log + seq![opcode],
        length as nat,
        8,
        cut,
    );
    assert(broken.take(8) =~= head);
    assert(broken[log.len() as int] == opcode);
}

/// Bytes that do not begin as a log does are left alone.
pub proof fn law_other_bytes(bytes: Seq<u8>)
    requires
        bytes.len() < 8 || bytes[0] != 0x89 || bytes[1] != 0x4D || bytes[2] != 0x43 || bytes[3]
            != 0x41 || bytes[4] != 0x50 || bytes[5] != 0x30 || bytes[6] != 0x0D || bytes[7] != 0x0A,
    ensures
        log_scan::sound_end(bytes) == bytes.len(),
{
    if bytes.len() >= 8 {
        let start = bytes.take(8);
        let head = log_scan::magic();
        assert(start[0] == bytes[0] && start[1] == bytes[1] && start[2] == bytes[2] && start[3]
            == bytes[3] && start[4] == bytes[4] && start[5] == bytes[5] && start[6] == bytes[6]
            && start[7] == bytes[7]);
        assert(head[0] == 0x89 && head[1] == 0x4D && head[2] == 0x43 && head[3] == 0x41 && head[4]
            == 0x50 && head[5] == 0x30 && head[6] == 0x0D && head[7] == 0x0A);
    }
}

/// An attachment: its two times, its name, its kind, the length of its data, its data and its check
/// sum. It is whole; cut within the check sum of an empty one it is not.
pub proof fn law_attachments(
    times: Seq<u8>,
    name: Seq<u8>,
    kind: Seq<u8>,
    length: Seq<u8>,
    data: Seq<u8>,
    sum: Seq<u8>,
)
    requires
        times.len() == 16,
        name.len() <= u32::MAX,
        kind.len() <= u32::MAX,
        length.len() == 8,
        sum.len() <= 4,
    ensures
        ({
            let body = times + wire::le_bytes(name.len(), 4) + name + wire::le_bytes(kind.len(), 4)
                + kind + length + data + sum;
            &&& sum.len() == 4 ==> log_scan::attachment_fits(body)
            &&& sum.len() + data.len() < 4 ==> !log_scan::attachment_fits(body)
        }),
{
    let a = wire::le_bytes(name.len(), 4);
    let b = wire::le_bytes(kind.len(), 4);
    let body = times + a + name + b + kind + length + data + sum;
    crate::deterministic_coordinator::frame_laws::lemma_byte_ranges();
    crate::deterministic_coordinator::frame_laws::lemma_number_in(
        times,
        name.len(),
        4,
        name + b + kind + length + data + sum,
    );
    assert(times + a + (name + b + kind + length + data + sum) =~= body);
    crate::deterministic_coordinator::frame_laws::lemma_number_in(
        times + a + name,
        kind.len(),
        4,
        kind + length + data + sum,
    );
    assert(times + a + name + b + (kind + length + data + sum) =~= body);
}

/// Unpacked records are in order if none is too large and each attachment among them is whole; where
/// they end in a failure, what stands behind is not looked at.
pub proof fn law_unpacked_records(items: Seq<ChunkItemView>, k: int)
    requires
        0 <= k < items.len(),
    ensures
        items[k] is TooLarge ==> log_scan::items_effect(items) == ChunkEffect::Astray,
        (items[k] matches ChunkItemView::Record { opcode, data } && opcode == 9
            && !log_scan::attachment_fits(data)) ==> log_scan::items_effect(items)
            == ChunkEffect::Astray,
        (forall|i: int|
            0 <= i < items.len() ==> (#[trigger] items[i] matches ChunkItemView::Record {
                opcode,
                data,
            } && opcode != 9)) ==> log_scan::items_effect(items) == ChunkEffect::Passed,
        (items.last() is Failed && forall|i: int|
            0 <= i < items.len() - 1 ==> (#[trigger] items[i] matches ChunkItemView::Record {
                opcode,
                data,
            } && opcode != 9)) ==> log_scan::items_effect(items) == ChunkEffect::Stopped,
{
    let item = items[k];
    if items.last() is Failed && forall|i: int|
        0 <= i < items.len() - 1 ==> (#[trigger] items[i] matches ChunkItemView::Record {
            opcode,
            data,
        } && opcode != 9) {
        assert forall|i: int| 0 <= i < items.len() implies match #[trigger] items[i] {
            ChunkItemView::Record { opcode, data } => log_scan::record_fits(opcode, data),
            ChunkItemView::TooLarge => false,
            ChunkItemView::Failed => true,
        } by {
            if i == items.len() - 1 {
                assert(items[i] == items.last());
            }
        }
    }
    assert(items[items.len() - 1] == items.last());
}

/// A chunk that is not packed and holds whole records is passed over.
pub proof fn law_plain_chunks(
    front: Seq<u8>,
    head: Seq<u8>,
    records: Seq<(u8, Seq<u8>)>,
    rest: Seq<u8>,
)
    requires
        are_plain(records),
        head.len() == 28,
        written_records(records).len() + 49 <= u32::MAX,
    ensures
        ({
            let all = written_records(records);
            let body = head + wire::le_bytes(0, 4) + wire::le_bytes(all.len(), 8) + all;
            let bytes = front + written_record(6, body) + rest;
            let at = front.len() as int;
            log_scan::log_end(bytes, at) == log_scan::log_end(bytes, at + 49 + all.len())
        }),
{
    let all = written_records(records);
    let named = wire::le_bytes(0, 4);
    let size = wire::le_bytes(all.len(), 8);
    let body = head + named + size + all;
    let n = wire::le_bytes(body.len(), 8);
    let bytes = front + written_record(6, body) + rest;
    let at = front.len() as int;
    crate::deterministic_coordinator::frame_laws::lemma_byte_ranges();
    wire::lemma_le_bytes_len(0, 4);
    wire::lemma_le_bytes_len(all.len(), 8);
    wire::lemma_le_bytes_len(body.len(), 8);
    lemma_record(front, 6, body, rest);
    let start = front + seq![6u8] + n + head;
    crate::deterministic_coordinator::frame_laws::lemma_number_in(
        start,
        0,
        4,
        size + all + rest,
    );
    assert(start + named + (size + all + rest) =~= bytes);
    crate::deterministic_coordinator::frame_laws::lemma_number_in(
        start + named,
        all.len(),
        8,
        all + rest,
    );
    assert(start + named + size + (all + rest) =~= bytes);
    law_records_are_passed(start + named + size, records, rest);
    assert(start + named + size + all + rest =~= bytes);
    assert(start.len() == at + 37);
    assert(log_scan::chunk_effect(bytes, at, body.len()) == ChunkEffect::Passed);
}

/// What a packed chunk may grow to is bounded by its length, and by what memory can hold.
pub proof fn law_growth(packed: nat)
    ensures
        packed * 0x8000 <= usize::MAX / 4 ==> log_scan::record_limit(packed) == packed * 0x8000,
        log_scan::record_limit(packed) <= usize::MAX / 4,
{
}

/// A chunk that is not packed is sound up to a record whose length is beyond what memory can hold.
pub proof fn law_chunks_that_lead_astray(
    front: Seq<u8>,
    head: Seq<u8>,
    records: Seq<(u8, Seq<u8>)>,
    opcode: u8,
    length: u64,
    cut: Seq<u8>,
    rest: Seq<u8>,
)
    requires
        are_plain(records),
        head.len() == 28,
        written_records(records).len() + 58 + cut.len() <= u32::MAX,
        length > usize::MAX - 9,
    ensures
        ({
            let all = written_records(records);
            let last = seq![opcode] + wire::le_bytes(length as nat, 8) + cut;
            let body = head + wire::le_bytes(0, 4) + wire::le_bytes((all + last).len(), 8) + (all
                + last);
            let bytes = front + written_record(6, body) + rest;
            let at = front.len() as int;
            log_scan::log_end(bytes, at) == at + 49 + all.len()
        }),
{
    let all = written_records(records);
    let size_of_last = wire::le_bytes(length as nat, 8);
    let last = seq![opcode] + size_of_last + cut;
    let inside = all + last;
    let named = wire::le_bytes(0, 4);
    wire::lemma_le_bytes_len(length as nat, 8);
    let size = wire::le_bytes(inside.len(), 8);
    let body = head + named + size + inside;
    let n = wire::le_bytes(body.len(), 8);
    let bytes = front + written_record(6, body) + rest;
    let at = front.len() as int;
    crate::deterministic_coordinator::frame_laws::lemma_byte_ranges();
    wire::lemma_le_bytes_len(0, 4);
    wire::lemma_le_bytes_len(inside.len(), 8);
    wire::lemma_le_bytes_len(body.len(), 8);
    lemma_record(front, 6, body, rest);
    let start = front + seq![6u8] + n + head;
    crate::deterministic_coordinator::frame_laws::lemma_number_in(
        start,
        0,
        4,
        size + inside + rest,
    );
    assert(start + named + (size + inside + rest) =~= bytes);
    crate::deterministic_coordinator::frame_laws::lemma_number_in(
        start + named,
        inside.len(),
        8,
        inside + rest,
    );
    assert(start + named + size + (inside + rest) =~= bytes);
    let before = start + named + size;
    lemma_chunk_records(before, records, last + rest, (before.len() + inside.len()) as int);
    assert(before + all + (last + rest) =~= bytes);
    crate::deterministic_coordinator::frame_laws::lemma_number_in(
        before + all + seq![opcode],
        length as nat,
        8,
        cut + rest,
    );
    assert(before + all + seq![opcode] + size_of_last + (cut + rest) =~= bytes);
    assert(start.len() == at + 37);
    assert(before.len() == at + 49);
}

} // verus!
