//! Texts, bytes and orders that everything else builds on.
use virtmcu::coordination::{partition_due, sorted_without, PendingMessage};
use virtmcu::sorting::sort_stable;
use virtmcu::text::{
    contains_text, count_char, decimal_text, ends_with_text, first_word, hex_text, join_path,
    join_text, last_bytes, last_word, names_rust_file, parse_unsigned, replace_first,
    replace_text, split_lines, split_text, split_words, starts_with_text, take_before, trim_text,
};
use virtmcu::wire::{copy_range, push_le, read_words, u16_at, u32_at, u64_at};

fn text(s: &str) -> String {
    s.to_string()
}

#[test]
fn numbers_are_written_and_read() {
    for n in [0u64, 7, 10, 99, 12345678901234567890, u64::MAX] {
        assert_eq!(decimal_text(n), n.to_string());
        assert_eq!(parse_unsigned(&decimal_text(n), u64::MAX), Some(n));
        assert_eq!(hex_text(n), format!("{:x}", n));
    }
    assert_eq!(parse_unsigned("+5", 9), Some(5));
    assert_eq!(parse_unsigned("-5", 9), None);
    assert_eq!(parse_unsigned("", 9), None);
    assert_eq!(parse_unsigned("10", 9), None);
    assert_eq!(parse_unsigned("99999999999999999999", u64::MAX), None);
}

#[test]
fn texts_behave_as_those_of_the_standard_library() {
    for s in ["", "a", "aXbXc", "XX", "\u{e9}X\u{1f600}", " \u{3000}x\t"] {
        assert_eq!(split_text(s, 'X'), s.split('X').map(text).collect::<Vec<String>>());
        assert_eq!(trim_text(s), s.trim());
        assert_eq!(contains_text(s, "X"), s.contains("X"));
        assert_eq!(replace_text(s, "X", "yy"), s.replace("X", "yy"));
        assert_eq!(replace_first(s, "X", "yy"), s.replacen("X", "yy", 1));
        assert_eq!(starts_with_text(s, "a"), s.starts_with("a"));
        assert_eq!(ends_with_text(s, "c"), s.ends_with("c"));
        assert_eq!(count_char(s, 'X'), s.matches('X').count());
        assert_eq!(split_words(s), s.split_whitespace().map(text).collect::<Vec<String>>());
        assert_eq!(first_word(s), s.split_whitespace().next().map(text));
        assert_eq!(last_word(s), s.split_whitespace().last().map(text));
    }
    for s in ["", "\n", "a\r\nb", "a\n\nb\n", "a\rb"] {
        assert_eq!(split_lines(s), s.lines().map(text).collect::<Vec<String>>());
    }
    assert_eq!(replace_text("aaa", "aa", "b"), "ba");
    assert_eq!(join_text(&vec![text("a"), text("b"), text("c")], 2, "/"), "a/b");
}

#[test]
fn paths_are_joined() {
    assert_eq!(join_path("/a", "b"), "/a/b");
    assert_eq!(join_path("/a/", "b"), "/a/b");
    assert_eq!(join_path("/a", "/b"), "/b");
    assert!(names_rust_file("src/x.rs"));
    assert!(!names_rust_file("src/x.rsx"));
}

#[test]
fn ends_of_texts_are_cut_at_characters() {
    assert_eq!(last_bytes("abcdef", 3), "def");
    assert_eq!(last_bytes("a\u{e9}b", 2), "b");
    assert_eq!(last_bytes("ab", 9), "ab");
    assert_eq!(take_before("a // b // c", "//"), "a ");
    assert_eq!(take_before("plain", "//"), "plain");
}

#[test]
fn numbers_in_bytes_read_back() {
    let mut bytes: Vec<u8> = vec![];
    push_le(&mut bytes, 0x0123_4567_89ab_cdef, 8);
    push_le(&mut bytes, 0xbeef, 2);
    assert_eq!(bytes, vec![0xef, 0xcd, 0xab, 0x89, 0x67, 0x45, 0x23, 0x01, 0xef, 0xbe]);
    assert_eq!(u64_at(&bytes, 0), 0x0123_4567_89ab_cdef);
    assert_eq!(u32_at(&bytes, 4), 0x0123_4567);
    assert_eq!(u16_at(&bytes, 8), 0xbeef);
    assert_eq!(copy_range(&bytes, 8, 10), vec![0xef, 0xbe]);
    assert_eq!(read_words(&bytes), vec![0x0123_4567_89ab_cdef]);
}

fn pending(vtime: u64, src: u32, seq: u64, data: u8) -> PendingMessage {
    PendingMessage {
        src_node_id: src,
        link_id: 0,
        delivery_vtime_ns: vtime,
        sequence_number: seq,
        payload: vec![data],
    }
}

#[test]
fn sorting_is_stable_and_keeps_contents() {
    let sorted = sort_stable(vec![
        pending(5, 1, 0, 1),
        pending(3, 2, 0, 2),
        pending(5, 1, 0, 3),
        pending(5, 0, 9, 4),
    ]);
    let data: Vec<u8> = sorted.iter().map(|m| m.payload[0]).collect();
    assert_eq!(data, vec![2, 4, 1, 3]);
}

#[test]
fn parting_keeps_messages() {
    let (due, later) = partition_due(vec![pending(5, 0, 0, 1), pending(9, 0, 1, 2)], 5);
    assert_eq!(due.len(), 1);
    assert_eq!(later[0].payload, vec![2]);
    assert_eq!(sorted_without(&vec![3, 1, 2], 1), vec![2, 3]);
}
