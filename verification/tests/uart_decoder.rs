//! The serial decoder.

use logic_analyzer_processing::digital::BitOrder;
use logic_analyzer_processing::streams::{Sample, Trigger, Word};
use logic_analyzer_processing::uart_decoder::{
    UartDecoder, UartFrame, UartParity, UartStep, UartStopBits, UartTiming,
};

const BIT: u64 = 1_000; // 1 Mbaud → 1000 ns/bit

/// Builds the edge stream for a sequence of frames on an idle-high line.
/// Each frame: start(0) + data bits (lsb-first) + optional parity + stop(1).
fn frames_to_edges(
    frames: &[(u64, u16, Option<bool>)], // (t0, value, parity_bit)
    data_bits: usize,
    invert: bool,
) -> Vec<Sample> {
    let idle = !invert;
    let mut levels = vec![(idle, 0u64)];
    for &(t0, value, parity_bit) in frames {
        let mut bits = vec![false]; // start
        for i in 0..data_bits {
            bits.push((value >> i) & 1 == 1);
        }
        if let Some(p) = parity_bit {
            bits.push(p);
        }
        bits.push(true); // stop
        for (i, logical_level) in bits.iter().enumerate() {
            levels.push((*logical_level != invert, t0 + i as u64 * BIT));
        }
        // Line returns to idle after the stop bit interval ends.
        levels.push((idle, t0 + bits.len() as u64 * BIT));
    }
    // Collapse to edges (level changes only).
    let mut edges: Vec<Sample> = Vec::new();
    for (level, ts) in levels {
        if edges.last().is_none_or(|last| last.value != level) {
            edges.push(Sample::new(level, ts));
        }
    }
    edges
}

struct Output {
    words: Vec<Word>,
    errors: Vec<Trigger>,
    frames: Vec<UartFrame>,
}

/// The distances of a decoder's frames.
fn timing_of(decoder: &UartDecoder) -> UartTiming {
    let bit_ns = 1_000_000_000.0 / decoder.baud as f64;
    let at = |bits: f64| (bits * bit_ns).round() as u64;
    let data_bits = decoder.data_bits as f64;
    let parity_bits = if decoder.parity == UartParity::NoParity { 0.0 } else { 1.0 };
    let stop_bits = decoder.stop_bits.half_bits() as f64 / 2.0;
    let frame = 1.0 + data_bits + parity_bits + stop_bits;
    UartTiming {
        data_centers: (0..decoder.data_bits).map(|i| at(1.5 + i as f64)).collect(),
        data_starts: (0..decoder.data_bits).map(|i| at(1.0 + i as f64)).collect(),
        parity_center: at(1.5 + data_bits),
        stop_center: at(1.0 + data_bits + parity_bits + stop_bits.min(1.0) / 2.0),
        resume: at(frame - 0.25),
        bit: bit_ns.round() as u64,
        frame: at(frame),
        stop: at(stop_bits),
    }
}

/// Decodes a line whose edges come one at a time.
fn run_decoder(decoder: &mut UartDecoder, edges: Vec<Sample>) -> Output {
    let timing = timing_of(decoder);
    let mut output = Output {
        words: Vec::new(),
        errors: Vec::new(),
        frames: Vec::new(),
    };
    let mut arrived: Vec<Sample> = Vec::new();
    let mut coming = edges.into_iter();
    let mut closed = false;
    loop {
        match decoder.work(&timing, &arrived, closed, 1_000_000) {
            UartStep::NeedMore => match coming.next() {
                Some(edge) => arrived.push(edge),
                None => closed = true,
            },
            UartStep::Shutdown => return output,
            UartStep::Frame { frame, consumed } => {
                arrived.drain(..consumed);
                output.words.push(frame.word);
                output.errors.extend(frame.error);
                output.frames.push(frame);
            }
        }
    }
}

#[test]
fn decodes_8n1_frames() {
    let edges = frames_to_edges(&[(10_000, 0x55, None), (50_000, 0xA3, None)], 8, false);
    let mut decoder = UartDecoder::new(1_000_000, 8);
    let out = run_decoder(&mut decoder, edges);
    assert_eq!(
        out.words.iter().map(|w| w.value).collect::<Vec<_>>(),
        vec![0x55, 0xA3]
    );
    assert_eq!(out.words[0].timestamp_ns, 10_000);
    assert_eq!(out.words[1].timestamp_ns, 50_000);
    assert!(out.errors.is_empty());
}

#[test]
fn msb_first_reverses_bits() {
    let edges = frames_to_edges(&[(10_000, 0x01, None)], 8, false);
    let mut decoder = UartDecoder::new(1_000_000, 8).with_bit_order(BitOrder::MsbFirst);
    let out = run_decoder(&mut decoder, edges);
    assert_eq!(out.words[0].value, 0x80);
}

#[test]
fn even_parity_ok_and_error() {
    // 0x03 has two ones — even parity bit is 0.
    let good = frames_to_edges(&[(10_000, 0x03, Some(false))], 8, false);
    let mut decoder = UartDecoder::new(1_000_000, 8).with_parity(UartParity::Even, true);
    let out = run_decoder(&mut decoder, good);
    assert_eq!(out.words[0].value, 0x03);
    assert!(out.errors.is_empty());

    // Wrong parity bit → error trigger, word still emitted.
    let bad = frames_to_edges(&[(10_000, 0x03, Some(true))], 8, false);
    let mut decoder = UartDecoder::new(1_000_000, 8).with_parity(UartParity::Even, true);
    let out = run_decoder(&mut decoder, bad);
    assert_eq!(out.words[0].value, 0x03);
    assert_eq!(out.errors, vec![Trigger::new(10_000)]);
}

#[test]
fn framing_error_on_low_stop_bit() {
    // Build a frame whose "stop bit" is low: value 0xFF then hold the
    // line low across the stop interval by appending a manual edge.
    let mut edges = frames_to_edges(&[(10_000, 0x00, None)], 8, false);
    // frames_to_edges emits stop high at 10_000+9*BIT; overwrite: line
    // stays low through the stop bit, returning high afterwards.
    edges.retain(|e| e.start_time_ns < 10_000 + 9 * BIT);
    edges.push(Sample::new(true, 10_000 + 10 * BIT));
    let mut decoder = UartDecoder::new(1_000_000, 8);
    let out = run_decoder(&mut decoder, edges);
    assert_eq!(out.words[0].value, 0x00);
    assert_eq!(out.errors, vec![Trigger::new(10_000)]);
}

#[test]
fn inverted_line() {
    let edges = frames_to_edges(&[(10_000, 0x5A, None)], 8, true);
    let mut decoder = UartDecoder::new(1_000_000, 8).with_invert(true);
    let out = run_decoder(&mut decoder, edges);
    assert_eq!(out.words[0].value, 0x5A);
    assert!(out.errors.is_empty());
}

#[test]
fn decodes_hello_newline() {
    let text = b"HELLO\n";
    let frames: Vec<(u64, u16, Option<bool>)> = text
        .iter()
        .enumerate()
        .map(|(i, &byte)| (10_000 + i as u64 * 20_000, byte as u16, None))
        .collect();
    let edges = frames_to_edges(&frames, 8, false);
    let mut decoder = UartDecoder::new(1_000_000, 8);
    let out = run_decoder(&mut decoder, edges);
    assert_eq!(
        out.words.iter().map(|w| w.value as u8).collect::<Vec<_>>(),
        text.to_vec()
    );
    assert!(out.errors.is_empty());
}

#[test]
fn decodes_last_frame_when_capture_ends_right_after_stop_bit() {
    // Capture recording stops the instant the last byte's stop bit
    // interval ends — no trailing idle margin, unlike `frames_to_edges`
    // which always appends one.
    let text = b"HELLO\n";
    let frames: Vec<(u64, u16, Option<bool>)> = text
        .iter()
        .enumerate()
        .map(|(i, &byte)| (10_000 + i as u64 * 20_000, byte as u16, None))
        .collect();
    let mut edges = frames_to_edges(&frames, 8, false);
    let last_t0 = frames.last().unwrap().0;
    edges.retain(|e| e.start_time_ns <= last_t0 + 9 * BIT);
    let mut decoder = UartDecoder::new(1_000_000, 8);
    let out = run_decoder(&mut decoder, edges);
    assert_eq!(
        out.words.iter().map(|w| w.value as u8).collect::<Vec<_>>(),
        text.to_vec()
    );
}

#[test]
fn resyncs_after_error() {
    // A framing-error frame followed by a clean frame.
    let mut edges = frames_to_edges(&[(10_000, 0x00, None)], 8, false);
    edges.retain(|e| e.start_time_ns < 10_000 + 9 * BIT);
    edges.push(Sample::new(true, 10_000 + 10 * BIT));
    let clean = frames_to_edges(&[(40_000, 0x42, None)], 8, false);
    // Skip the initial idle sample of the second batch (line already high).
    edges.extend(clean.into_iter().skip(1));

    let mut decoder = UartDecoder::new(1_000_000, 8);
    let out = run_decoder(&mut decoder, edges);
    assert_eq!(
        out.words.iter().map(|w| w.value).collect::<Vec<_>>(),
        vec![0x00, 0x42]
    );
    assert_eq!(out.errors.len(), 1);
}

#[test]
fn bits_and_parts_are_timed() {
    let edges = frames_to_edges(&[(10_000, 0x05, None)], 8, false);
    let mut decoder = UartDecoder::new(1_000_000, 8);
    let out = run_decoder(&mut decoder, edges);
    let frame = &out.frames[0];
    assert_eq!(frame.word, Word::spanning(0x05, 10_000, 10 * BIT));
    let bits: Vec<u64> = frame.bits.iter().map(|bit| bit.value).collect();
    assert_eq!(bits, [1, 0, 1, 0, 0, 0, 0, 0]);
    assert_eq!(frame.bits[2], Word::spanning(1, 10_000 + 3 * BIT, BIT));
    assert_eq!(
        frame.parts,
        vec![
            Word::spanning(u64::MAX, 10_000, BIT),
            Word::spanning(0x05, 10_000 + BIT, 8 * BIT),
            Word::spanning(u64::MAX - 1, 10_000 + 9 * BIT, BIT),
        ]
    );
}

#[test]
fn mark_space_and_odd_parity_are_checked() {
    for (parity, parity_bit, good) in [
        (UartParity::Odd, true, true),
        (UartParity::Odd, false, false),
        (UartParity::Mark, true, true),
        (UartParity::Mark, false, false),
        (UartParity::Space, false, true),
        (UartParity::Space, true, false),
    ] {
        let edges = frames_to_edges(&[(10_000, 0x03, Some(parity_bit))], 8, false);
        let mut decoder = UartDecoder::new(1_000_000, 8).with_parity(parity, true);
        let out = run_decoder(&mut decoder, edges);
        assert_eq!(out.words[0].value, 0x03);
        assert_eq!(out.errors.is_empty(), good, "{parity:?} {parity_bit}");
    }
}

#[test]
fn a_frame_without_stop_bit_ends_with_its_data() {
    let edges = frames_to_edges(&[(10_000, 0x81, None)], 8, false);
    let mut decoder = UartDecoder::new(1_000_000, 8).with_stop_bits(UartStopBits::S0);
    let out = run_decoder(&mut decoder, edges);
    assert_eq!(out.words[0], Word::spanning(0x81, 10_000, 9 * BIT));
    assert_eq!(out.frames[0].parts.len(), 2);
    assert!(out.errors.is_empty());
}
