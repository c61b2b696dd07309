//! Replaying a recorded log, quantum by quantum.
use vstd::prelude::*;

use crate::log_scan;
use crate::log_scan::readable_part;
use crate::sorting;
use crate::text::{owned, same_text};
use crate::wire;
use crate::wire::push_le;

verus! {

/// An entry of a log.
#[derive(Debug, PartialEq, Eq)]
pub enum LogItem {
    Message(LogMessage),
    /// Something that could not be read.
    Unreadable,
}

/// A message of a log.
#[derive(Debug, PartialEq, Eq)]
pub struct LogMessage {
    pub log_time: u64,
    pub topic: String,
    pub data: Vec<u8>,
}

#[verifier::ext_equal]
pub struct LogMessageView {
    pub log_time: u64,
    pub topic: Seq<char>,
    pub data: Seq<u8>,
}

pub enum LogItemView {
    Message(LogMessageView),
    Unreadable,
}

impl View for LogMessage {
    type V = LogMessageView;

    open spec fn view(&self) -> LogMessageView {
        LogMessageView { log_time: self.log_time, topic: self.topic@, data: self.data@ }
    }
}

impl View for LogItem {
    type V = LogItemView;

    open spec fn view(&self) -> LogItemView {
        match self {
            LogItem::Message(m) => LogItemView::Message(m@),
            LogItem::Unreadable => LogItemView::Unreadable,
        }
    }
}

/// The error of the log reader.
#[verifier::external_type_specification]
#[verifier::external_body]
pub struct ExMcapError(mcap::McapError);

/// The entries of a log; `None` if the reader refuses the bytes at once. Bytes that turn out to be
/// no log have an entry that cannot be read.
pub uninterp spec fn log_items_of(bytes: Seq<u8>) -> Option<Seq<LogItemView>>;

/// Reads a log with `mcap::MessageStream`; the result is named, not spelled out. The stream slices
/// and sums by the lengths in a log without a check, so bytes are left out in which those would
/// lead it astray.
#[verifier::external_body]
fn read_log(bytes: &[u8]) -> (r: Result<Vec<LogItem>, mcap::McapError>)
    requires
        log_scan::is_sound_log(bytes@),
    ensures
        match r {
            Ok(items) => log_items_of(bytes@) == Some(sorting::views(items@)),
            Err(_) => log_items_of(bytes@) is None,
        },
{
    let plain = |m: Result<mcap::Message, mcap::McapError>| match m {
        Ok(m) => LogItem::Message(LogMessage {
            log_time: m.log_time,
            topic: m.channel.topic.clone(),
            data: m.data.into_owned(),
        }),
        Err(_) => LogItem::Unreadable,
    };
    Ok(mcap::MessageStream::new(bytes)?.map(plain).collect())
}

/// A message as it is passed to a node.
#[derive(Debug, PartialEq, Eq)]
pub struct ReplayFrame {
    pub vtime_ns: u64,
    pub sequence_number: u64,
    pub data: Vec<u8>,
}

#[verifier::ext_equal]
pub struct ReplayFrameView {
    pub vtime_ns: u64,
    pub sequence_number: nat,
    pub data: Seq<u8>,
}

impl View for ReplayFrame {
    type V = ReplayFrameView;

    open spec fn view(&self) -> ReplayFrameView {
        ReplayFrameView {
            vtime_ns: self.vtime_ns,
            sequence_number: self.sequence_number as nat,
            data: self.data@,
        }
    }
}

/// Where in a log a replay is.
#[verifier::ext_equal]
pub struct ReplayView {
    pub items: Seq<LogItemView>,
    pub topic: Seq<char>,
    pub next: int,
    pub sequence_number: nat,
}

/// What a quantum takes of a log, and where the replay is then.
#[verifier::ext_equal]
pub struct Taken {
    pub frames: Seq<ReplayFrameView>,
    pub next: int,
    pub sequence_number: nat,
}

/// What a quantum that ends at `target` takes of a log from index `i` on, behind `frames`: the
/// messages before that time, those on the topic as frames. What cannot be read ends it.
pub open spec fn taken_from(
    items: Seq<LogItemView>,
    topic: Seq<char>,
    target: u64,
    i: int,
    sequence_number: nat,
    frames: Seq<ReplayFrameView>,
) -> Taken
    decreases items.len() - i,
{
    if i < 0 || i >= items.len() {
        Taken { frames, next: i, sequence_number }
    } else {
        match items[i] {
            LogItemView::Unreadable => Taken { frames, next: i + 1, sequence_number },
            LogItemView::Message(m) => if m.log_time >= target {
                Taken { frames, next: i, sequence_number }
            } else if m.topic == topic {
                taken_from(
                    items,
                    topic,
                    target,
                    i + 1,
                    sequence_number + 1,
                    frames.push(
                        ReplayFrameView { vtime_ns: m.log_time, sequence_number, data: m.data },
                    ),
                )
            } else {
                taken_from(items, topic, target, i + 1, sequence_number, frames)
            },
        }
    }
}

/// What a quantum takes where a replay is.
pub open spec fn quantum_takes(s: ReplayView, target: u64) -> Taken {
    taken_from(s.items, s.topic, target, s.next, s.sequence_number, Seq::empty())
}

/// A replay of the messages on one topic of a log.
#[derive(Debug)]
pub struct Replay {
    items: Vec<LogItem>,
    topic: String,
    next: usize,
    sequence_number: u64,
}

impl View for Replay {
    type V = ReplayView;

    closed spec fn view(&self) -> ReplayView {
        ReplayView {
            items: sorting::views(self.items@),
            topic: self.topic@,
            next: self.next as int,
            sequence_number: self.sequence_number as nat,
        }
    }
}

impl Replay {
    /// The replay is within the log, and no more frames were numbered than there were messages.
    pub closed spec fn wf(&self) -> bool {
        self.sequence_number <= self.next <= self.items@.len()
    }

    /// A replay from the start of a log that was read.
    pub fn of_items(items: Vec<LogItem>, topic: &str) -> (r: Self)
        ensures
            r.wf(),
            r@ == (ReplayView {
                items: sorting::views(items@),
                topic: topic@,
                next: 0,
                sequence_number: 0,
            }),
    {
        Replay { items, topic: owned(topic), next: 0, sequence_number: 0 }
    }

    /// A replay from the start of a log, up to where its lengths would lead the reader astray;
    /// `None` if the reader refuses the bytes at once.
    pub fn new(bytes: &[u8], topic: &str) -> (r: Option<Self>)
        ensures
            ({
                let items = log_items_of(bytes@.take(log_scan::sound_end(bytes@)));
                match r {
                    Some(replay) => replay.wf() && items is Some && replay@ == (ReplayView {
                        items: items->0,
                        topic: topic@,
                        next: 0,
                        sequence_number: 0,
                    }),
                    None => items is None,
                }
            }),
    {
        proof {
            log_scan::law_sound_part(bytes@);
        }
        let end: usize = readable_part(bytes);
        let part = vstd::slice::slice_subrange(bytes, 0, end);
        proof {
            assert(part@ =~= bytes@.take(log_scan::sound_end(bytes@)));
        }
        match read_log(part) {
            Ok(items) => Some(Replay::of_items(items, topic)),
            Err(_) => None,
        }
    }

    /// Takes what a quantum that ends at `target` takes.
    pub fn inject(&mut self, target: u64) -> (r: Vec<ReplayFrame>)
        requires
            old(self).wf(),
        ensures
            final(self).wf(),
            sorting::views(r@) == quantum_takes(old(self)@, target).frames,
            final(self)@ == (ReplayView {
                next: quantum_takes(old(self)@, target).next,
                sequence_number: quantum_takes(old(self)@, target).sequence_number,
                ..old(self)@
            }),
    {
        let ghost start = self@;
        let mut frames: Vec<ReplayFrame> = Vec::new();
        proof {
            assert(sorting::views(frames@) =~= Seq::empty());
        }
        while self.next < self.items.len()
            invariant
                self.wf(),
                self@.items == start.items,
                self@.topic == start.topic,
                start == old(self)@,
                quantum_takes(start, target) == taken_from(
                    start.items,
                    start.topic,
                    target,
                    self@.next,
                    self@.sequence_number,
                    sorting::views(frames@),
                ),
            decreases self.items@.len() - self.next,
        {
            let i: usize = self.next;
            proof {
                assert(start.items[i as int] == self.items@[i as int]@);
            }
            match &self.items[i] {
                LogItem::Unreadable => {
                    self.next = i + 1;
                    return frames;
                },
                LogItem::Message(m) => {
                    if m.log_time >= target {
                        return frames;
                    }
                    if same_text(m.topic.as_str(), self.topic.as_str()) {
                        let frame = ReplayFrame {
                            vtime_ns: m.log_time,
                            sequence_number: self.sequence_number,
                            data: vstd::slice::slice_to_vec(m.data.as_slice()),
                        };
                        let ghost before = sorting::views(frames@);
                        let ghost frame_view = frame@;
                        frames.push(frame);
                        proof {
                            assert(sorting::views(frames@) =~= before.push(frame_view));
                        }
                        self.sequence_number = self.sequence_number + 1;
                    }
                    self.next = i + 1;
                },
            }
        }
        frames
    }
}

/// Everything in the log can be read.
pub open spec fn all_readable(items: Seq<LogItemView>) -> bool {
    forall|i: int| 0 <= i < items.len() ==> !((#[trigger] items[i]) is Unreadable)
}

proof fn lemma_taken_append(
    items: Seq<LogItemView>,
    topic: Seq<char>,
    target: u64,
    i: int,
    sequence_number: nat,
    a: Seq<ReplayFrameView>,
    b: Seq<ReplayFrameView>,
)
    ensures
        taken_from(items, topic, target, i, sequence_number, a + b) == ({
            let t = taken_from(items, topic, target, i, sequence_number, b);
            Taken { frames: a + t.frames, ..t }
        }),
    decreases items.len() - i,
{
    if 0 <= i < items.len() {
        match items[i] {
            LogItemView::Unreadable => {},
            LogItemView::Message(m) => {
                if m.log_time < target {
                    if m.topic == topic {
                        let f = ReplayFrameView {
                            vtime_ns: m.log_time,
                            sequence_number,
                            data: m.data,
                        };
                        assert((a + b).push(f) =~= a + b.push(f));
                        lemma_taken_append(
                            items,
                            topic,
                            target,
                            i + 1,
                            sequence_number + 1,
                            a,
                            b.push(f),
                        );
                    } else {
                        lemma_taken_append(items, topic, target, i + 1, sequence_number, a, b);
                    }
                }
            },
        }
    }
}

proof fn lemma_taken_splits(
    items: Seq<LogItemView>,
    topic: Seq<char>,
    first: u64,
    second: u64,
    i: int,
    sequence_number: nat,
    frames: Seq<ReplayFrameView>,
)
    requires
        0 <= i,
        first <= second,
        all_readable(items),
    ensures
        ({
            let t = taken_from(items, topic, first, i, sequence_number, frames);
            taken_from(items, topic, second, i, sequence_number, frames) == taken_from(
                items,
                topic,
                second,
                t.next,
                t.sequence_number,
                t.frames,
            )
        }),
    decreases items.len() - i,
{
    if i < items.len() {
        assert(!(items[i] is Unreadable));
        match items[i] {
            LogItemView::Unreadable => {},
            LogItemView::Message(m) => {
                if m.log_time < first {
                    if m.topic == topic {
                        lemma_taken_splits(
                            items,
                            topic,
                            first,
                            second,
                            i + 1,
                            sequence_number + 1,
                            frames.push(
                                ReplayFrameView {
                                    vtime_ns: m.log_time,
                                    sequence_number,
                                    data: m.data,
                                },
                            ),
                        );
                    } else {
                        lemma_taken_splits(
                            items,
                            topic,
                            first,
                            second,
                            i + 1,
                            sequence_number,
                            frames,
                        );
                    }
                }
            },
        }
    }
}

/// Two quanta one after the other take together what one as long as both would have taken: nothing
/// of a readable log is lost or repeated between them.
pub proof fn law_quanta_share_a_log(s: ReplayView, first: u64, second: u64)
    requires
        0 <= s.next,
        first <= second,
        all_readable(s.items),
    ensures
        ({
            let a = quantum_takes(s, first);
            let between = ReplayView {
                next: a.next,
                sequence_number: a.sequence_number,
                ..s
            };
            let b = quantum_takes(between, second);
            let both = quantum_takes(s, second);
            &&& both.frames == a.frames + b.frames
            &&& both.next == b.next
            &&& both.sequence_number == b.sequence_number
        }),
{
    let a = quantum_takes(s, first);
    lemma_taken_splits(
        s.items,
        s.topic,
        first,
        second,
        s.next,
        s.sequence_number,
        Seq::empty(),
    );
    assert(a.frames + Seq::empty() =~= a.frames);
    lemma_taken_append(
        s.items,
        s.topic,
        second,
        a.next,
        a.sequence_number,
        a.frames,
        Seq::empty(),
    );
}

/// What a node sends where it is done with a quantum: the quantum and the time, with eight bytes
/// each.
pub fn done_payload(quantum: u64, vtime_ns: u64) -> (r: Vec<u8>)
    ensures
        r@ == wire::le_bytes(quantum as nat, 8) + wire::le_bytes(vtime_ns as nat, 8),
{
    let mut out: Vec<u8> = Vec::new();
    push_le(&mut out, quantum, 8);
    push_le(&mut out, vtime_ns, 8);
    proof {
        assert(out@ =~= wire::le_bytes(quantum as nat, 8) + wire::le_bytes(vtime_ns as nat, 8));
    }
    out
}

} // verus!
