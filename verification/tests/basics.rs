//! Bits, bytes and texts.

use logic_analyzer_processing::bits::{
    bit_range_mask, div_ceil, get_packed_bit, pack, packed_word, saturating_mul, set_packed_bit,
};
use logic_analyzer_processing::level_changes::list_changes;
use logic_analyzer_processing::little_endian::{get16, get32, put16, put32, push_le};
use logic_analyzer_processing::streams::Sample;
use logic_analyzer_processing::text::{
    decimal_chars, find_text, from_chars, hex_byte_chars, hex_pair_chars, lines_of,
    padded_decimal_chars, parse_unsigned, strip_prefix, to_chars, trim,
};

fn joined(characters: Vec<char>) -> String {
    characters.into_iter().collect()
}

#[test]
fn bits_are_packed_least_significant_first() {
    let packed = pack(&[true, false, false, true, false, false, false, false, true]);
    assert_eq!(packed, [0b1001, 1]);
    assert!(get_packed_bit(&packed, 8));
    assert!(!get_packed_bit(&packed, 16));
    assert_eq!(packed_word(&packed, 0), 0b1_0000_1001);
    assert_eq!(bit_range_mask(2, 5), 0b11100);
    assert_eq!(bit_range_mask(0, 64), u64::MAX);
    let mut data = packed;
    set_packed_bit(&mut data, 1);
    set_packed_bit(&mut data, 15);
    assert_eq!(data, [0b1011, 0x81]);
}

#[test]
fn arithmetic_at_the_edges() {
    assert_eq!(saturating_mul(u64::MAX, 2), u64::MAX);
    assert_eq!(saturating_mul(6, 7), 42);
    assert_eq!(div_ceil(9, 4), 3);
    assert_eq!(div_ceil(8, 4), 2);
}

#[test]
fn numbers_lie_little_end_first() {
    let mut buffer = vec![0; 6];
    put16(&mut buffer, 0, 0x0102);
    put32(&mut buffer, 2, 0x0304_0506);
    assert_eq!(buffer, [2, 1, 6, 5, 4, 3]);
    assert_eq!(get16(&buffer, 0), 0x0102);
    assert_eq!(get32(&buffer, 2), 0x0304_0506);
    push_le(&mut buffer, 0x0708, 3);
    assert_eq!(&buffer[6..], [8, 7, 0]);
}

#[test]
fn texts_are_made_and_read() {
    assert_eq!(from_chars(&to_chars("aé")), "aé");
    assert_eq!(joined(decimal_chars(0)), "0");
    assert_eq!(joined(decimal_chars(u64::MAX)), "18446744073709551615");
    assert_eq!(joined(padded_decimal_chars(-7, 4)), "-007");
    assert_eq!(joined(hex_pair_chars(&[0x0f, 0xa0])), "0fa0");
    assert_eq!(joined(hex_byte_chars(0xc3)), "0xc3");
    assert_eq!(parse_unsigned(&to_chars("+12"), 12), Some(12));
    assert_eq!(parse_unsigned(&to_chars("13"), 12), None);
    assert_eq!(parse_unsigned(&to_chars("+"), 12), None);
    assert_eq!(parse_unsigned(&to_chars(""), 12), None);
    assert_eq!(joined(trim(&to_chars("\t a b\u{3000}\n"))), "a b");
    let lines: Vec<String> = lines_of(&to_chars("a \r\n b")).into_iter().map(joined).collect();
    assert_eq!(lines, ["a", "b"]);
    assert_eq!(strip_prefix(&to_chars("probe1"), "probe").map(joined).as_deref(), Some("1"));
    assert_eq!(strip_prefix(&to_chars("prob"), "probe"), None);
    assert_eq!(find_text(&to_chars("a = b = c"), &to_chars(" = ")), Some(1));
    assert_eq!(find_text(&to_chars("a"), &to_chars(" = ")), None);
}

#[test]
fn changes_start_with_the_first_level() {
    assert_eq!(
        list_changes(&vec![true, true, false], 10),
        vec![Sample::new(true, 0), Sample::new(false, 20)]
    );
}
