//! Passing on what a log holds.
use std::collections::BTreeMap;
use std::io::Cursor;
use virtmcu::log_scan::{is_whole_attachment, readable_part};
use virtmcu::replay::{done_payload, LogItem, LogMessage, Replay};

fn item(log_time: u64, topic: &str, data: u8) -> LogItem {
    LogItem::Message(LogMessage { log_time, topic: topic.to_string(), data: vec![data] })
}

#[test]
fn quanta_share_a_log() {
    let items = || vec![item(5, "t", 1), item(7, "u", 2), item(15, "t", 3), item(25, "t", 4)];
    let mut parts = Replay::of_items(items(), "t");
    let first = parts.inject(10);
    assert_eq!(first.len(), 1);
    assert_eq!((first[0].vtime_ns, first[0].sequence_number), (5, 0));
    let second = parts.inject(20);
    assert_eq!((second[0].vtime_ns, second[0].sequence_number), (15, 1));
    assert_eq!(second[0].data, vec![3]);
    let mut whole = Replay::of_items(items(), "t");
    assert_eq!(whole.inject(20).len(), 2);
    assert_eq!(whole.inject(u64::MAX).len(), 1);
    assert_eq!(whole.inject(u64::MAX).len(), 0);
}

#[test]
fn what_cannot_be_read_ends_a_quantum() {
    let items = vec![item(1, "t", 1), LogItem::Unreadable, item(2, "t", 2)];
    let mut replay = Replay::of_items(items, "t");
    assert_eq!(replay.inject(10).len(), 1);
    assert_eq!(replay.inject(10).len(), 1);
}

#[test]
fn logs_are_read() {
    let mut writer = mcap::Writer::new(Cursor::new(Vec::new())).unwrap();
    let channel = writer.add_channel(0, "sim/uart", "raw", &BTreeMap::new()).unwrap();
    for n in 0..3u64 {
        let header = mcap::records::MessageHeader {
            channel_id: channel,
            sequence: n as u32,
            log_time: n * 10,
            publish_time: n * 10,
        };
        writer.write_to_known_channel(&header, &[n as u8]).unwrap();
    }
    writer.finish().unwrap();
    let bytes = writer.into_inner().into_inner();
    let mut replay = Replay::new(&bytes, "sim/uart").unwrap();
    let frames = replay.inject(15);
    assert_eq!(frames.len(), 2);
    assert_eq!((frames[1].vtime_ns, frames[1].data.clone()), (10, vec![1]));
    let mut nothing = Replay::new(b"no log", "sim/uart").unwrap();
    assert_eq!(nothing.inject(u64::MAX).len(), 0);
}

#[test]
fn word_of_a_replay_is_two_numbers() {
    let mut expected = 3u64.to_le_bytes().to_vec();
    expected.extend_from_slice(&9u64.to_le_bytes());
    assert_eq!(done_payload(3, 9), expected);
}

const MAGIC: [u8; 8] = [0x89, b'M', b'C', b'A', b'P', 0x30, b'\r', b'\n'];

fn record(opcode: u8, body: &[u8]) -> Vec<u8> {
    let mut bytes = vec![opcode];
    bytes.extend_from_slice(&(body.len() as u64).to_le_bytes());
    bytes.extend_from_slice(body);
    bytes
}

fn chunk(compression: &str, size: usize, data: &[u8]) -> Vec<u8> {
    let mut body = vec![0u8; 16];
    body.extend_from_slice(&(size as u64).to_le_bytes());
    body.extend_from_slice(&[0; 4]);
    body.extend_from_slice(&(compression.len() as u32).to_le_bytes());
    body.extend_from_slice(compression.as_bytes());
    body.extend_from_slice(&(data.len() as u64).to_le_bytes());
    body.extend_from_slice(data);
    record(6, &body)
}

/// A frame of zstd that holds its content as it is.
fn zstd_frame(content: &[u8]) -> Vec<u8> {
    let mut bytes = vec![0x28, 0xB5, 0x2F, 0xFD, 0x20, content.len() as u8];
    let block = ((content.len() as u32) << 3) | 1;
    bytes.extend_from_slice(&block.to_le_bytes()[..3]);
    bytes.extend_from_slice(content);
    bytes
}

fn log(records: &[Vec<u8>]) -> Vec<u8> {
    let mut bytes = MAGIC.to_vec();
    for r in records {
        bytes.extend_from_slice(r);
    }
    bytes
}

fn channel() -> Vec<u8> {
    let mut body = vec![1, 0, 0, 0];
    body.extend_from_slice(&1u32.to_le_bytes());
    body.push(b't');
    body.extend_from_slice(&[0; 8]);
    record(4, &body)
}

fn note(data: u8) -> Vec<u8> {
    let mut body = vec![1, 0];
    body.extend_from_slice(&[0; 20]);
    body.push(data);
    record(5, &body)
}

fn frames_of(bytes: &[u8]) -> Option<usize> {
    Replay::new(bytes, "t").map(|mut replay| replay.inject(u64::MAX).len())
}

#[test]
fn attachments_need_room_for_their_checksum() {
    assert!(!is_whole_attachment(&[0; 32]));
    assert!(!is_whole_attachment(&[0; 35]));
    assert!(is_whole_attachment(&[0; 36]));
    assert!(is_whole_attachment(&[0; 31]));
    let mut named = vec![0u8; 36];
    named[16] = 3;
    assert!(!is_whole_attachment(&named));
    named[16] = 200;
    assert!(is_whole_attachment(&named));
}

#[test]
fn logs_are_read_up_to_a_cut_attachment() {
    assert_eq!(frames_of(&log(&[record(9, &[0; 32])])), Some(0));
    assert_eq!(frames_of(&log(&[channel(), note(1), record(9, &[0; 32]), note(2)])), Some(1));
    let before = log(&[channel(), note(1)]);
    assert_eq!(readable_part(&log(&[channel(), note(1), record(9, &[0; 32])])), before.len());
    assert_eq!(readable_part(&before), before.len());
    assert_eq!(readable_part(b"no log"), 6);
    assert_eq!(frames_of(&log(&[channel(), note(1), record(9, &[0; 36])])), Some(1));
    assert_eq!(frames_of(&log(&[channel(), note(1), record(9, &[0; 31]), note(2)])), Some(1));
}

#[test]
fn logs_are_read_up_to_a_length_without_an_end() {
    let mut endless = log(&[channel(), note(1)]);
    endless.push(5);
    endless.extend_from_slice(&u64::MAX.to_le_bytes());
    assert_eq!(frames_of(&endless), Some(1));
    let mut cut = log(&[channel(), note(1)]);
    cut.push(5);
    cut.extend_from_slice(&1000u64.to_le_bytes());
    assert_eq!(frames_of(&cut), Some(1));
}

#[test]
fn records_stay_in_their_chunk() {
    let mut inside = channel();
    inside.extend_from_slice(&note(1));
    let n = inside.len();
    assert_eq!(frames_of(&log(&[chunk("", n, &inside), note(2)])), Some(2));
    let short = chunk("", n - 1, &inside[..n - 1]);
    assert_eq!(readable_part(&log(&[short.clone(), note(2)])), 8 + 49 + channel().len());
    assert_eq!(frames_of(&log(&[short, note(2)])), Some(0));
    let mut spoilt = inside.clone();
    spoilt.extend_from_slice(&record(9, &[0; 32]));
    spoilt.extend_from_slice(&note(3));
    assert_eq!(frames_of(&log(&[chunk("", spoilt.len(), &spoilt)])), Some(1));
}

#[test]
fn compressed_chunks_are_looked_into() {
    let mut inside = channel();
    inside.extend_from_slice(&note(1));
    let good = chunk("zstd", inside.len(), &zstd_frame(&inside));
    assert_eq!(frames_of(&log(&[good, note(2)])), Some(2));
    let mut spoilt = inside.clone();
    spoilt.extend_from_slice(&record(9, &[0; 32]));
    let bad = chunk("zstd", spoilt.len(), &zstd_frame(&spoilt));
    assert_eq!(frames_of(&log(&[channel(), note(1), bad.clone(), note(2)])), Some(1));
    assert_eq!(readable_part(&log(&[bad])), 8);
    let mut huge = inside.clone();
    huge.push(5);
    huge.extend_from_slice(&(1u64 << 61).to_le_bytes());
    assert_eq!(readable_part(&log(&[chunk("zstd", huge.len(), &zstd_frame(&huge))])), 8);
    assert_eq!(frames_of(&log(&[channel(), note(1), chunk("none", 3, &[1, 2, 3])])), Some(1));
}

#[test]
fn what_stands_behind_a_broken_chunk_is_not_read() {
    let spoilt = record(9, &[0; 32]);
    let unknown = chunk("none", 3, &[1, 2, 3]);
    assert_eq!(frames_of(&log(&[channel(), note(1), unknown, spoilt.clone()])), Some(1));
    let garbled = chunk("zstd", 3, &[1, 2, 3]);
    assert_eq!(frames_of(&log(&[channel(), note(1), garbled, spoilt.clone()])), Some(1));
    let short = record(6, &[0; 39]);
    assert_eq!(frames_of(&log(&[channel(), note(1), short, spoilt.clone()])), Some(1));
    let mut too_large = chunk("", 0, &[]);
    let at = too_large.len() - 8;
    too_large[at] = 1;
    assert_eq!(frames_of(&log(&[channel(), note(1), too_large, spoilt.clone()])), Some(1));
    let empty = chunk("", 0, &[]);
    let sound = log(&[channel(), note(1), empty.clone()]).len();
    assert_eq!(readable_part(&log(&[channel(), note(1), empty, spoilt])), sound);
}
