//! The parallel bus decoder over packed blocks and over an index.

use std::cell::Cell;

use logic_analyzer_processing::digital::{CsPolarity, Endianness};
use logic_analyzer_processing::parallel_decoder::decoder::{
    BlockInput, ParallelDecoder, StreamBlockState, StreamError, STREAM_SAMPLES_PER_CALL,
};
use logic_analyzer_processing::parallel_decoder::gate::{
    enabled_ranges_for_window, EnableInput, EnableScan, EnableWindow,
};
use logic_analyzer_processing::parallel_decoder::indexed::QUERY_TRIGGERS_PER_CALL;
use logic_analyzer_processing::parallel_decoder::merge::{
    merge_stream_fragment, AssemblyState, WordFormat,
};
use logic_analyzer_processing::parallel_decoder::parallel_run::{
    ParallelRun, RunAction, RunError, RunEvent,
};
use logic_analyzer_processing::parallel_decoder::recorded::{
    recorded_window, EdgeQuery, EnableSource, QueryError, RecordedError, RecordedOutcome,
    RecordedSignal,
};
use logic_analyzer_processing::parallel_decoder::scan::scan_stream_fragment;
use logic_analyzer_processing::parallel_decoder::select::InputProtocolCandidate;
use logic_analyzer_processing::parallel_decoder::types::{
    DecodeFragment, DecodeFragmentBuffers, EnabledRange, ParallelInputStrategy, StreamScanConfig,
    StrobeMode,
};
use logic_analyzer_processing::parallel_decoder::worker::{
    CompletionStep, FragmentCompletion, OutstandingWork, ParallelDecoderMetrics,
    ParallelStreamState,
};
use logic_analyzer_processing::streams::{
    CaptureTransition, ProtocolKind, Sample, SampleBlock, Word,
};

const MODES: [StrobeMode; 5] = [
    StrobeMode::RisingEdge,
    StrobeMode::FallingEdge,
    StrobeMode::AnyEdge,
    StrobeMode::HighLevel,
    StrobeMode::LowLevel,
];

fn block_from_bits(bits: &[bool]) -> SampleBlock {
    let mut bytes = vec![0u8; bits.len().div_ceil(8)];
    for (i, &bit) in bits.iter().enumerate() {
        if bit {
            bytes[i / 8] |= 1 << (i % 8);
        }
    }
    SampleBlock::new(bytes, 0, bits.len(), 1)
}

/// The enable signal of a run.
enum Enable {
    Unconnected,
    Streamed(Vec<Sample>),
    Indexed(Vec<bool>),
}

fn run_streamed(
    decoder: &mut ParallelDecoder,
    strobe: &[bool],
    data: &[Vec<bool>],
    cs: Option<&[bool]>,
    enable: &Enable,
) -> Vec<Word> {
    decoder.check_chip_select(cs.is_some()).unwrap();
    let mut blocks = StreamBlockState::new();
    blocks
        .acquire_stream_block_set(
            block_from_bits(strobe),
            data.iter().map(|bits| block_from_bits(bits)).collect(),
            cs.map(block_from_bits),
        )
        .unwrap();
    let mut queued: Vec<Sample> = match enable {
        Enable::Streamed(samples) => samples.clone(),
        _ => Vec::new(),
    };
    let mut words = Some(Vec::new());
    while blocks.strobe.is_some() {
        let (start, end) = blocks.next_window();
        let scan = match enable {
            Enable::Indexed(bits) => {
                let signal = RecordedSignal {
                    levels: bits.clone(),
                };
                EnableScan::Ready(recorded_window(&signal, 0, start, end).unwrap())
            }
            Enable::Unconnected | Enable::Streamed(_) => {
                let input = match enable {
                    Enable::Streamed(_) => EnableInput::Streamed {
                        queued: &queued,
                        closed: true,
                    },
                    _ => EnableInput::Unconnected,
                };
                enabled_ranges_for_window(input, decoder.enable.current, 0, start, end, 1)
            }
        };
        let EnableScan::Ready(window) = scan else {
            panic!("the enable signal is complete");
        };
        queued.drain(..window.consumed);
        decoder
            .work_streamed_window(&mut blocks, &window, &mut words)
            .unwrap();
    }
    words.unwrap()
}

/// A recorded signal that counts how often it is read.
struct CountedSignal {
    signal: RecordedSignal,
    reads: Cell<usize>,
}

impl CountedSignal {
    fn new(bits: &[bool]) -> Self {
        CountedSignal {
            signal: RecordedSignal {
                levels: bits.to_vec(),
            },
            reads: Cell::new(0),
        }
    }
}

impl EdgeQuery for CountedSignal {
    fn total_samples(&self) -> u64 {
        self.signal.total_samples()
    }

    fn value_at(&self, sample: u64) -> Result<bool, QueryError> {
        self.reads.set(self.reads.get() + 1);
        self.signal.value_at(sample)
    }

    fn values_at(&self, samples: &[u64]) -> Result<Vec<bool>, QueryError> {
        self.reads.set(self.reads.get() + samples.len());
        self.signal.values_at(samples)
    }

    fn next_edges(
        &self,
        from: u64,
        limit: u64,
        most: usize,
    ) -> Result<Vec<CaptureTransition>, QueryError> {
        self.signal.next_edges(from, limit, most)
    }
}

/// Runs the index-driven path; gives the words and the number of batches.
fn run_indexed(
    decoder: &mut ParallelDecoder,
    strobe: &[bool],
    data: &[Vec<bool>],
    cs: Option<&[bool]>,
    enable: &Enable,
    reads: &mut usize,
) -> (Vec<Word>, usize) {
    assert!(decoder.ready_for_query_mode(true, &vec![true; data.len()], cs.is_some()));
    let strobe = CountedSignal::new(strobe);
    let data: Vec<CountedSignal> = data.iter().map(|bits| CountedSignal::new(bits)).collect();
    let cs = cs.map(CountedSignal::new);
    let recorded = match enable {
        Enable::Indexed(bits) => Some(CountedSignal::new(bits)),
        _ => None,
    };
    let mut queued: Vec<Sample> = Vec::new();
    let mut coming = match enable {
        Enable::Streamed(samples) => samples.clone().into_iter(),
        _ => Vec::new().into_iter(),
    };
    let mut closed = false;
    let mut words = Some(Vec::new());
    let mut batches = 0;
    loop {
        let source = match (enable, &recorded) {
            (_, Some(signal)) => EnableSource::Recorded(signal),
            (Enable::Streamed(_), _) => EnableSource::Streamed {
                queued: &queued,
                closed,
            },
            _ => EnableSource::Unconnected,
        };
        let outcome = decoder
            .work_indexed(&strobe, &data, cs.as_ref(), source, 1, &mut words)
            .unwrap();
        match outcome {
            RecordedOutcome::NeedMore => match coming.next() {
                Some(sample) => queued.push(sample),
                None => closed = true,
            },
            RecordedOutcome::Decoded {
                consumed,
                exhausted,
                ..
            } => {
                queued.drain(..consumed);
                batches += 1;
                if exhausted {
                    *reads += data.iter().map(|signal| signal.reads.get()).sum::<usize>();
                    return (words.unwrap(), batches);
                }
            }
        }
    }
}

fn run(
    query: bool,
    decoder: &mut ParallelDecoder,
    strobe: &[bool],
    data: &[Vec<bool>],
    cs: Option<&[bool]>,
    enable: &Enable,
) -> Vec<Word> {
    if query {
        run_indexed(decoder, strobe, data, cs, enable, &mut 0).0
    } else {
        run_streamed(decoder, strobe, data, cs, enable)
    }
}

#[test]
fn test_decoder_creation() {
    let decoder = ParallelDecoder::new(8, StrobeMode::RisingEdge, CsPolarity::ActiveLow);
    assert_eq!(decoder.num_data_bits, 8);
    assert_eq!(decoder.cs_polarity, CsPolarity::ActiveLow);
    // Block inputs: strobe + 8 data + cs = 10, Edge input: enable = 1, Total = 11
    assert_eq!(decoder.num_inputs(), 11);
    assert_eq!(
        decoder.input_schema()[0].protocols,
        vec![ProtocolKind::EdgeQuery, ProtocolKind::Stream]
    );
}

#[test]
fn inputs_are_named_and_numbered() {
    let decoder = ParallelDecoder::new(2, StrobeMode::RisingEdge, CsPolarity::ActiveLow);
    let names: Vec<String> = decoder.input_schema().into_iter().map(|input| input.name).collect();
    assert_eq!(names, ["strobe", "d0", "d1", "cs", "enable_signal"]);
    assert_eq!(decoder.num_outputs(), 1);
}

#[test]
fn input_strategy_constrains_raw_signal_protocols() {
    let packed = ParallelDecoder::new(2, StrobeMode::AnyEdge, CsPolarity::Disabled)
        .with_input_strategy(ParallelInputStrategy::PackedStream);
    let indexed = ParallelDecoder::new(2, StrobeMode::AnyEdge, CsPolarity::Disabled)
        .with_input_strategy(ParallelInputStrategy::Indexed);

    for schema in &packed.input_schema()[..4] {
        assert_eq!(schema.protocols, vec![ProtocolKind::Stream]);
    }
    for schema in &indexed.input_schema()[..4] {
        assert_eq!(schema.protocols, vec![ProtocolKind::EdgeQuery]);
    }
    assert_eq!(
        packed.input_schema()[4].protocols,
        vec![ProtocolKind::EdgeQuery, ProtocolKind::Stream],
        "the enable level chooses its transport independently"
    );
}

#[test]
fn level_trigger_forces_packed_streaming() {
    let decoder = ParallelDecoder::new(1, StrobeMode::HighLevel, CsPolarity::Disabled)
        .with_input_strategy(ParallelInputStrategy::Indexed);
    for schema in &decoder.input_schema()[..3] {
        assert_eq!(schema.protocols, vec![ProtocolKind::Stream]);
    }
}

fn auto_candidates() -> Vec<Option<InputProtocolCandidate>> {
    (0..5)
        .map(|_| {
            Some(InputProtocolCandidate {
                offered: vec![ProtocolKind::EdgeQuery, ProtocolKind::Stream],
            })
        })
        .collect()
}

/// The transport that an activity asks for.
const DENSE: Option<ProtocolKind> = Some(ProtocolKind::Stream);
const SPARSE: Option<ProtocolKind> = Some(ProtocolKind::EdgeQuery);

#[test]
fn auto_strategy_selects_one_protocol_for_the_complete_raw_group() {
    let decoder = ParallelDecoder::new(2, StrobeMode::AnyEdge, CsPolarity::Disabled);
    let dense = decoder.select_input_protocols(&auto_candidates(), DENSE);
    let sparse = decoder.select_input_protocols(&auto_candidates(), SPARSE);

    assert_eq!(&dense[..4], &[Some(ProtocolKind::Stream); 4]);
    assert_eq!(&sparse[..4], &[Some(ProtocolKind::EdgeQuery); 4]);
    assert_eq!(
        dense[4],
        Some(ProtocolKind::EdgeQuery),
        "enable transport remains independent"
    );
}

#[test]
fn auto_strategy_falls_back_as_a_group_when_one_input_lacks_preferred_protocol() {
    let decoder = ParallelDecoder::new(2, StrobeMode::AnyEdge, CsPolarity::Disabled);
    let mut candidates = auto_candidates();
    candidates[1].as_mut().unwrap().offered = vec![ProtocolKind::Stream];

    let selected = decoder.select_input_protocols(&candidates, SPARSE);
    assert_eq!(&selected[..4], &[Some(ProtocolKind::Stream); 4]);
}

/// 4-bit bus, strobe rising at positions 1,5,9,13, bus values 1,2,3,4.
fn four_bit_bus() -> (Vec<bool>, Vec<Vec<bool>>) {
    let n = 16usize;
    let values = [0u64, 1, 1, 1, 1, 2, 2, 2, 2, 3, 3, 3, 3, 4, 4, 4];
    let strobe: Vec<bool> = (0..n).map(|i| i % 4 == 1 || i % 4 == 2).collect();
    let data = (0..4)
        .map(|bit| (0..n).map(|i| (values[i] >> bit) & 1 == 1).collect())
        .collect();
    (strobe, data)
}

/// CS and enable are left unconnected.
fn run_4bit(decoder: &mut ParallelDecoder) -> Vec<Word> {
    let (strobe, data) = four_bit_bus();
    run_streamed(decoder, &strobe, &data, None, &Enable::Unconnected)
}

#[test]
fn unconnected_cs_and_enable_pass_through() {
    let mut decoder = ParallelDecoder::new(4, StrobeMode::RisingEdge, CsPolarity::Disabled);
    let words = run_4bit(&mut decoder);
    assert_eq!(
        words.iter().map(|w| w.value).collect::<Vec<_>>(),
        vec![1, 2, 3, 4]
    );
    // Timestamps at the strobe positions (step = 1ns).
    assert_eq!(
        words.iter().map(|w| w.timestamp_ns).collect::<Vec<_>>(),
        vec![1, 5, 9, 13]
    );
}

#[test]
fn unconnected_cs_with_active_polarity_is_an_error() {
    let decoder = ParallelDecoder::new(1, StrobeMode::RisingEdge, CsPolarity::ActiveLow);
    assert_eq!(
        decoder.check_chip_select(false),
        Err(StreamError::MissingChipSelect)
    );
    assert_eq!(decoder.check_chip_select(true), Ok(()));
}

#[test]
fn unconnected_output_still_advances_decoder() {
    let mut decoder = ParallelDecoder::new(1, StrobeMode::RisingEdge, CsPolarity::Disabled);
    let mut blocks = StreamBlockState::new();
    blocks
        .acquire_stream_block_set(
            block_from_bits(&[false, true]),
            vec![block_from_bits(&[true, true])],
            None,
        )
        .unwrap();
    let (start, end) = blocks.next_window();
    let EnableScan::Ready(window) =
        enabled_ranges_for_window(EnableInput::Unconnected, false, 0, start, end, 1)
    else {
        panic!("nothing is connected");
    };

    assert_eq!(
        decoder.work_streamed_window(&mut blocks, &window, &mut None),
        Ok(1)
    );
    assert_eq!(decoder.total_words_emitted, 1);
    assert!(blocks.strobe.is_none());
}

fn run_1bit_mode(strobe: &[bool], mode: StrobeMode) -> Vec<Word> {
    let data: Vec<bool> = (0..strobe.len()).map(|position| position % 3 == 1).collect();
    let mut decoder = ParallelDecoder::new(1, mode, CsPolarity::Disabled);
    run_streamed(&mut decoder, strobe, &[data], None, &Enable::Unconnected)
}

#[test]
fn packed_scan_matches_scalar_trigger_semantics() {
    let strobe: Vec<bool> = (0..137)
        .map(|position| matches!(position, 0..=2 | 7..=63 | 65..=66 | 128..=136))
        .collect();
    for mode in MODES {
        let mut previous = false;
        let expected_positions: Vec<u64> = strobe
            .iter()
            .enumerate()
            .filter_map(|(position, &value)| {
                let triggered = match mode {
                    StrobeMode::RisingEdge => !previous && value,
                    StrobeMode::FallingEdge => previous && !value,
                    StrobeMode::AnyEdge => previous != value,
                    StrobeMode::HighLevel => value,
                    StrobeMode::LowLevel => !value,
                };
                previous = value;
                triggered.then_some(position as u64)
            })
            .collect();
        let words = run_1bit_mode(&strobe, mode);
        let actual_positions: Vec<_> = words.iter().map(|word| word.timestamp_ns).collect();
        assert_eq!(actual_positions, expected_positions, "mode={mode:?}");
        for word in words {
            assert_eq!(word.value, u64::from(word.timestamp_ns % 3 == 1));
        }
    }
}

fn merge_fragments_for_test(
    mode: StrobeMode,
    fragments: &[DecodeFragment],
) -> (Vec<Word>, AssemblyState) {
    let mut assembly = AssemblyState {
        value: 0,
        cycles: 0,
        first_ts: 0,
    };
    let mut words = Some(Vec::new());
    let mut previous_strobe_value = false;

    for fragment in fragments {
        merge_stream_fragment(
            fragment,
            mode,
            &mut previous_strobe_value,
            WordFormat {
                num_data_bits: 3,
                cycles_per_word: 3,
                endianness: Endianness::Little,
            },
            &mut assembly,
            &mut words,
        );
    }

    (words.unwrap(), assembly)
}

#[test]
fn fragment_splits_preserve_edges_resets_and_partial_words() {
    let sample_count = 137usize;
    let strobe_bits: Vec<bool> = (0..sample_count)
        .map(|position| position % 4 == 1 || position % 4 == 2)
        .collect();
    let bus_values: Vec<u64> = (0..sample_count)
        .map(|position| ((position * 5 + 3) & 0b111) as u64)
        .collect();
    let data_blocks: Vec<SampleBlock> = (0..3)
        .map(|bit| {
            block_from_bits(
                &bus_values
                    .iter()
                    .map(|value| value & (1 << bit) != 0)
                    .collect::<Vec<_>>(),
            )
        })
        .collect();
    // Active-low CS is eligible only in these low spans. The surrounding
    // high spans gate triggers and reset partial words across many
    // possible fragment boundaries.
    let cs_bits: Vec<bool> = (0..sample_count)
        .map(|position| !matches!(position, 29..=38 | 84..=90 | 128..=136))
        .collect();
    let strobe = block_from_bits(&strobe_bits);
    let cs = block_from_bits(&cs_bits);

    for mode in MODES {
        let config = StreamScanConfig {
            mode,
            cs_polarity: CsPolarity::ActiveLow,
        };
        let scan = |sequence: u64, start: usize, end: usize| {
            scan_stream_fragment(
                config,
                sequence,
                &strobe,
                &data_blocks,
                Some(&cs),
                start,
                end,
                &[EnabledRange {
                    start,
                    end,
                    reset_before: false,
                }],
                DecodeFragmentBuffers::new(),
            )
        };
        let whole = scan(0, 0, sample_count);
        let (expected_words, expected_assembly) = merge_fragments_for_test(mode, &[whole]);

        for split in 1..sample_count {
            let first = scan(0, 0, split);
            let second = scan(1, split, sample_count);
            let (actual_words, actual_assembly) = merge_fragments_for_test(mode, &[first, second]);

            assert_eq!(actual_words, expected_words, "mode={mode:?}, split={split}");
            assert_eq!(
                (
                    actual_assembly.value,
                    actual_assembly.cycles,
                    actual_assembly.first_ts
                ),
                (
                    expected_assembly.value,
                    expected_assembly.cycles,
                    expected_assembly.first_ts
                ),
                "mode={mode:?}, split={split}"
            );
        }
    }
}

#[test]
fn streamed_block_is_retained_and_processed_in_bounded_windows() {
    let sample_count = 2 * STREAM_SAMPLES_PER_CALL + 10;
    let mut blocks = StreamBlockState::new();
    blocks
        .acquire_stream_block_set(
            block_from_bits(&vec![false; sample_count]),
            vec![block_from_bits(&vec![false; sample_count])],
            None,
        )
        .unwrap();
    let mut decoder = ParallelDecoder::new(1, StrobeMode::AnyEdge, CsPolarity::Disabled)
        .with_parallel_workers(1);
    let mut words = Some(Vec::new());
    let mut work = |blocks: &mut StreamBlockState| {
        let (start, end) = blocks.next_window();
        let EnableScan::Ready(window) =
            enabled_ranges_for_window(EnableInput::Unconnected, false, 0, start, end, 1)
        else {
            panic!("nothing is connected");
        };
        decoder.work_streamed_window(blocks, &window, &mut words).unwrap()
    };

    assert_eq!(work(&mut blocks), 0);
    assert_eq!(blocks.strobe.as_ref().unwrap().num_samples, sample_count);
    assert_eq!(blocks.offset, STREAM_SAMPLES_PER_CALL);
    assert_eq!(work(&mut blocks), 0);
    assert_eq!(work(&mut blocks), 0);
    assert!(blocks.strobe.is_none());
    assert_eq!(words.unwrap().len(), 0);
}

#[test]
fn word_assembly_little_endian() {
    let mut decoder = ParallelDecoder::new(4, StrobeMode::RisingEdge, CsPolarity::Disabled)
        .with_word_assembly(2, Endianness::Little);
    let words = run_4bit(&mut decoder);
    assert_eq!(
        words.iter().map(|w| w.value).collect::<Vec<_>>(),
        vec![0x21, 0x43]
    );
    // Word timestamped at its first cycle.
    assert_eq!(
        words.iter().map(|w| w.timestamp_ns).collect::<Vec<_>>(),
        vec![1, 9]
    );
}

#[test]
fn word_assembly_big_endian() {
    let mut decoder = ParallelDecoder::new(4, StrobeMode::RisingEdge, CsPolarity::Disabled)
        .with_word_assembly(2, Endianness::Big);
    let words = run_4bit(&mut decoder);
    assert_eq!(
        words.iter().map(|w| w.value).collect::<Vec<_>>(),
        vec![0x12, 0x34]
    );
}

fn run_1bit_cs_level(query: bool, polarity: CsPolarity, cs_value: bool) -> Vec<Word> {
    let strobe = [false, true, false, true];
    let data = vec![true; 4];
    let cs = [cs_value; 4];
    let mut decoder = ParallelDecoder::new(1, StrobeMode::RisingEdge, polarity);
    run(query, &mut decoder, &strobe, &[data], Some(&cs), &Enable::Unconnected)
}

#[test]
fn cs_polarities_use_the_documented_active_level_in_both_protocols() {
    for query in [false, true] {
        assert_eq!(
            run_1bit_cs_level(query, CsPolarity::ActiveLow, false).len(),
            2,
            "active-low CS must decode while low, query={query}"
        );
        assert!(
            run_1bit_cs_level(query, CsPolarity::ActiveLow, true).is_empty(),
            "active-low CS must gate while high, query={query}"
        );
        assert_eq!(
            run_1bit_cs_level(query, CsPolarity::ActiveHigh, true).len(),
            2,
            "active-high CS must decode while high, query={query}"
        );
        assert!(
            run_1bit_cs_level(query, CsPolarity::ActiveHigh, false).is_empty(),
            "active-high CS must gate while low, query={query}"
        );
    }
}

#[test]
fn query_mode_does_not_read_data_at_gated_triggers() {
    let mut decoder = ParallelDecoder::new(1, StrobeMode::RisingEdge, CsPolarity::ActiveLow);
    let mut reads = 0;
    let (words, _) = run_indexed(
        &mut decoder,
        &[false, true, false, true],
        &[vec![true; 4]],
        // Active-low CS remains high (inactive), gating every trigger.
        Some(&[true; 4]),
        &Enable::Unconnected,
        &mut reads,
    );
    assert_eq!(reads, 0);
    assert_eq!(words.len(), 0);
}

#[test]
fn query_batch_preserves_word_assembly_gating_boundaries() {
    let mut decoder = ParallelDecoder::new(1, StrobeMode::RisingEdge, CsPolarity::Disabled)
        .with_word_assembly(2, Endianness::Little);
    let (words, _) = run_indexed(
        &mut decoder,
        &[false, true, false, true, false, true, false, true],
        &[vec![true; 8]],
        None,
        // Gate off the second trigger at position 3. The incomplete
        // word begun at position 1 must not combine with position 5.
        &Enable::Indexed(vec![true, true, true, false, true, true, true, true]),
        &mut 0,
    );
    assert_eq!(words.len(), 1);
    assert_eq!(words[0].value, 0b11);
    assert_eq!(words[0].timestamp_ns, 5);
    assert_eq!(words[0].duration_ns, 2);
}

/// The 4-bit fixture of `run_4bit`, with an enable signal that is low
/// until position 4 — so the first word (value 1, strobe at position 1)
/// must be gated off and only 2@5, 3@9, 4@13 survive. Bus inputs and
/// the enable can each be wired streamed or query-backed.
fn run_4bit_gated(query_bus: bool, query_enable: bool) -> Vec<Word> {
    let (strobe, data) = four_bit_bus();
    let enable = if query_enable {
        Enable::Indexed((0..strobe.len()).map(|i| i >= 4).collect())
    } else {
        // The same level timeline, streamed.
        Enable::Streamed(vec![Sample::new(false, 0), Sample::new(true, 4)])
    };
    let mut decoder = ParallelDecoder::new(4, StrobeMode::RisingEdge, CsPolarity::Disabled);
    run(query_bus, &mut decoder, &strobe, &data, None, &enable)
}

#[test]
fn streamed_enable_builds_watermarked_scan_ranges() {
    let mut queued: Vec<Sample> = [(false, 0), (true, 4), (false, 8), (true, 12)]
        .into_iter()
        .map(|(value, timestamp)| Sample::new(value, timestamp))
        .collect();
    let mut current = false;
    let mut ranges = |start: usize, end: usize| {
        let input = EnableInput::Streamed {
            queued: &queued,
            closed: true,
        };
        let EnableScan::Ready(window) =
            enabled_ranges_for_window(input, current, 0, start, end, 1)
        else {
            panic!("the enable signal is complete");
        };
        queued.drain(..window.consumed);
        current = window.current;
        window.ranges
    };

    assert_eq!(
        ranges(0, 8),
        vec![EnabledRange {
            start: 4,
            end: 8,
            reset_before: true,
        }]
    );
    assert_eq!(
        ranges(8, 16),
        vec![EnabledRange {
            start: 12,
            end: 16,
            reset_before: true,
        }]
    );
}

#[test]
fn an_open_enable_stream_holds_the_window_back() {
    let queued = [Sample::new(true, 0)];
    let scan = enabled_ranges_for_window(
        EnableInput::Streamed {
            queued: &queued,
            closed: false,
        },
        false,
        0,
        0,
        8,
        1,
    );
    assert!(matches!(scan, EnableScan::NeedMore));
}

#[test]
fn packed_scan_ignores_clock_toggles_outside_enabled_ranges() {
    let strobe = block_from_bits(
        &(0..16)
            .map(|position| position % 2 == 1)
            .collect::<Vec<_>>(),
    );
    let data = [block_from_bits(&[true; 16])];
    let fragment = scan_stream_fragment(
        StreamScanConfig {
            mode: StrobeMode::AnyEdge,
            cs_polarity: CsPolarity::Disabled,
        },
        0,
        &strobe,
        &data,
        None,
        0,
        16,
        &[
            EnabledRange {
                start: 4,
                end: 8,
                reset_before: true,
            },
            EnabledRange {
                start: 12,
                end: 16,
                reset_before: true,
            },
        ],
        DecodeFragmentBuffers::new(),
    );

    assert_eq!(fragment.buffers.positions, vec![4, 5, 6, 7, 12, 13, 14, 15]);
    assert_eq!(
        fragment.buffers.reset_before,
        vec![true, false, false, false, true, false, false, false]
    );
}

/// More triggers than one budget must take more than one batch.
#[test]
fn query_mode_yields_between_trigger_batches() {
    let n = 2 * QUERY_TRIGGERS_PER_CALL + 100;
    // Alternating strobe: every position ≥ 1 is an AnyEdge trigger.
    let strobe: Vec<bool> = (0..n).map(|i| i % 2 == 1).collect();
    let low = vec![false; n];

    let mut decoder = ParallelDecoder::new(1, StrobeMode::AnyEdge, CsPolarity::Disabled);
    let (words, batches) = run_indexed(
        &mut decoder,
        &strobe,
        &[low.clone()],
        None,
        // Enable low throughout: everything is gated off.
        &Enable::Indexed(low),
        &mut 0,
    );
    // The last batch finds the signal exhausted.
    let ok_calls = batches - 1;
    assert!(ok_calls < 100, "budget never exhausted the fixture");
    assert!(
        ok_calls >= 2,
        "expected the scan to yield between trigger batches, got {ok_calls} Ok calls"
    );
    assert_eq!(words.len(), 0, "everything was gated off");
}

/// Enable gating must behave identically whichever protocol each input
/// negotiated: fully streamed, mixed either way, or fully query-backed.
#[test]
fn enable_gating_is_protocol_independent() {
    let expected: Vec<(u64, u64)> = vec![(2, 5), (3, 9), (4, 13)];
    for (query_bus, query_enable) in [(false, false), (false, true), (true, false), (true, true)] {
        let words = run_4bit_gated(query_bus, query_enable);
        let view: Vec<_> = words.iter().map(|w| (w.value, w.timestamp_ns)).collect();
        assert_eq!(
            view, expected,
            "query_bus={query_bus} query_enable={query_enable}"
        );
    }
}

fn scan_half(sequence: u64, start: usize, end: usize) -> DecodeFragment {
    let strobe = block_from_bits(&[false, true, false, true, false, true, false, true]);
    let data = [block_from_bits(&[true; 8])];
    scan_stream_fragment(
        StreamScanConfig {
            mode: StrobeMode::RisingEdge,
            cs_polarity: CsPolarity::Disabled,
        },
        sequence,
        &strobe,
        &data,
        None,
        start,
        end,
        &[EnabledRange {
            start,
            end,
            reset_before: false,
        }],
        DecodeFragmentBuffers::new(),
    )
}

#[test]
fn completion_reorders_fragments_by_sequence() {
    let first = scan_half(0, 0, 4);
    let second = scan_half(1, 4, 8);
    let mut parallel = ParallelStreamState::new();
    parallel.in_flight = 2;
    parallel.input_exhausted = true;
    let mut metrics = ParallelDecoderMetrics::default();

    assert!(parallel.take_kept(0).is_none());
    assert_eq!(parallel.outstanding(), OutstandingWork::Wait);
    let step = parallel.complete(FragmentCompletion::Complete(second), 0, &mut metrics);
    assert!(matches!(step, CompletionStep::Stored));
    let step = parallel.complete(FragmentCompletion::Complete(first), 0, &mut metrics);
    let CompletionStep::Ready(first) = step else {
        panic!("the expected fragment completed");
    };
    assert_eq!(first.sequence, 0);
    assert_eq!(parallel.reorder.len(), 1);
    assert_eq!(metrics.snapshot().max_reorder, 1);

    let second = parallel.take_kept(1).unwrap();
    assert_eq!(second.sequence, 1);
    assert!(parallel.reorder.is_empty());
    assert_eq!(parallel.in_flight, 0);
    assert_eq!(parallel.outstanding(), OutstandingWork::Finished);
}

#[test]
fn a_scan_that_did_not_finish_is_reported() {
    let mut parallel = ParallelStreamState::new();
    parallel.in_flight = 1;
    let mut metrics = ParallelDecoderMetrics::default();
    let step = parallel.complete(FragmentCompletion::Panicked(7), 0, &mut metrics);
    assert!(matches!(step, CompletionStep::Failed(7)));
    assert_eq!(parallel.outstanding(), OutstandingWork::Missing);
}

#[test]
fn a_kept_fragment_counts_its_buffers() {
    let mut parallel = ParallelStreamState::new();
    let mut metrics = ParallelDecoderMetrics::default();
    parallel.dispatched(&mut metrics);
    let fragment = scan_half(0, 0, 8);
    let least = fragment.buffers.positions.len() * 16 + 1;
    parallel.complete(FragmentCompletion::Complete(fragment), 0, &mut metrics);
    assert!(metrics.snapshot().estimated_fragment_bytes >= least);
    assert!(least > 1);
}

/// Decodes several windows of one block.
fn run_multi_window_stream(workers: usize) -> Vec<Word> {
    let sample_count = 2 * STREAM_SAMPLES_PER_CALL + 17;
    let strobe: Vec<bool> = (0..sample_count)
        .map(|position| position % 4 == 1 || position % 4 == 2)
        .collect();
    let values: Vec<u64> = (0..sample_count)
        .map(|position| ((position / 4) & 0xf) as u64)
        .collect();
    let data: Vec<Vec<bool>> = (0..4)
        .map(|bit| values.iter().map(|value| value & (1 << bit) != 0).collect())
        .collect();
    let mut decoder = ParallelDecoder::new(4, StrobeMode::RisingEdge, CsPolarity::Disabled)
        .with_word_assembly(3, Endianness::Little)
        .with_parallel_workers(workers);
    if workers == 1 {
        return run_streamed(&mut decoder, &strobe, &data, None, &Enable::Unconnected);
    }

    run_concurrently(&mut decoder, workers, &strobe, &data)
}

/// Runs every scan that is handed out, and completes the latest first.
fn run_concurrently(
    decoder: &mut ParallelDecoder,
    workers: usize,
    strobe: &[bool],
    data: &[Vec<bool>],
) -> Vec<Word> {
    let mut run = ParallelRun::new();
    let mut input = Some((
        block_from_bits(strobe),
        data.iter().map(|bits| block_from_bits(bits)).collect(),
    ));
    let mut scans = Vec::new();
    let mut words = Some(Vec::new());
    let called = || RunEvent::Called {
        workers,
        cs_connected: false,
    };
    let mut event = called();
    loop {
        event = match run.resume(decoder, event, &mut words) {
            RunAction::Acquire => match input.take() {
                Some((strobe, data)) => RunEvent::Blocks {
                    strobe,
                    data,
                    cs: None,
                },
                None => RunEvent::InputEnded,
            },
            RunAction::Gate {
                start,
                end,
                current,
            } => match enabled_ranges_for_window(
                EnableInput::Unconnected,
                current,
                0,
                start,
                end,
                1,
            ) {
                EnableScan::Ready(window) => RunEvent::Gated(window),
                EnableScan::NeedMore => panic!("nothing is connected"),
            },
            RunAction::Scan {
                sequence,
                start,
                end,
                ranges,
                buffers,
            } => {
                scans.push(scan_stream_fragment(
                    StreamScanConfig {
                        mode: decoder.mode,
                        cs_polarity: decoder.cs_polarity,
                    },
                    sequence,
                    run.blocks.strobe.as_ref().unwrap(),
                    &run.blocks.data,
                    None,
                    start,
                    end,
                    &ranges,
                    buffers,
                ));
                RunEvent::Dispatched
            }
            RunAction::Receive => {
                RunEvent::Completed(FragmentCompletion::Complete(scans.pop().unwrap()))
            }
            RunAction::Emit(_) => called(),
            RunAction::Fail(error) => panic!("unexpected error: {error:?}"),
            RunAction::Finish => return words.unwrap(),
        };
    }
}

#[test]
fn a_run_keeps_its_outstanding_fragments_in_bounds() {
    let strobe: Vec<bool> = (0..5 * STREAM_SAMPLES_PER_CALL)
        .map(|position| position % 2 == 1)
        .collect();
    let data = vec![vec![true; strobe.len()]];
    let mut decoder = ParallelDecoder::new(1, StrobeMode::RisingEdge, CsPolarity::Disabled);
    let words = run_concurrently(&mut decoder, 2, &strobe, &data);
    assert_eq!(words.len(), strobe.len() / 2);
    let metrics = decoder.parallel_metrics.snapshot();
    assert_eq!(metrics.max_outstanding, 4);
    assert_eq!(metrics.max_reorder, 3);
    assert!(decoder.enable.current);
}

#[test]
fn a_run_reports_what_stops_it() {
    let mut decoder = ParallelDecoder::new(1, StrobeMode::RisingEdge, CsPolarity::ActiveLow);
    let mut run = ParallelRun::new();
    let mut call = |decoder: &mut ParallelDecoder, event| {
        run.resume(decoder, event, &mut None)
    };
    let called = |cs_connected| RunEvent::Called {
        workers: 1,
        cs_connected,
    };
    let action = call(&mut decoder, called(false));
    assert!(matches!(
        action,
        RunAction::Fail(RunError::Stream(StreamError::MissingChipSelect))
    ));
    assert!(matches!(call(&mut decoder, called(true)), RunAction::Acquire));
    let action = call(&mut decoder, RunEvent::Interrupted);
    assert!(matches!(action, RunAction::Fail(RunError::Interrupted)));
    call(&mut decoder, called(true));
    let blocks = || RunEvent::Blocks {
        strobe: block_from_bits(&[false, true]),
        data: vec![block_from_bits(&[true, true])],
        cs: Some(block_from_bits(&[false, false])),
    };
    let action = call(&mut decoder, blocks());
    assert!(matches!(
        action,
        RunAction::Gate {
            start: 0,
            end: 2,
            current: false
        }
    ));
    let window = || EnableWindow {
        ranges: Vec::new(),
        current: false,
        consumed: 0,
    };
    let action = call(&mut decoder, RunEvent::Gated(window()));
    assert!(matches!(action, RunAction::Scan { sequence: 0, .. }));
    let action = call(&mut decoder, RunEvent::PoolStopped);
    assert!(matches!(action, RunAction::Fail(RunError::PoolStopped)));
    call(&mut decoder, called(true));
    call(&mut decoder, RunEvent::Gated(window()));
    assert!(matches!(call(&mut decoder, RunEvent::Dispatched), RunAction::Acquire));
    assert!(matches!(call(&mut decoder, RunEvent::InputEnded), RunAction::Receive));
    let action = call(&mut decoder, RunEvent::CompletionsClosed);
    assert!(matches!(action, RunAction::Fail(RunError::CompletionsClosed)));
    assert!(matches!(call(&mut decoder, called(true)), RunAction::Receive));
    let action = call(
        &mut decoder,
        RunEvent::Completed(FragmentCompletion::Panicked(0)),
    );
    assert!(matches!(action, RunAction::Fail(RunError::ScanPanicked(0))));
    assert!(matches!(call(&mut decoder, called(true)), RunAction::Finish));
}

#[test]
fn stream_matches_sequential_across_window_boundaries() {
    let sequential = run_multi_window_stream(1);
    let parallel = run_multi_window_stream(4);

    assert_eq!(parallel, sequential);
    assert!(parallel.len() > 10_000);
}

#[test]
fn a_fragment_out_of_turn_is_refused() {
    let mut decoder = ParallelDecoder::new(1, StrobeMode::RisingEdge, CsPolarity::Disabled);
    let late = scan_half(1, 4, 8);
    assert_eq!(
        decoder.merge_fragment(&late, true, &mut None),
        Err(StreamError::OutOfOrder {
            expected: 0,
            received: 1
        })
    );
    assert_eq!(decoder.total_words_emitted, 0);
}

#[test]
fn blocks_that_do_not_line_up_are_refused() {
    let mut blocks = StreamBlockState::new();
    assert_eq!(
        blocks.acquire_stream_block_set(block_from_bits(&[]), vec![], None),
        Err(StreamError::EmptyStrobeBlock)
    );
    let outcome = blocks.acquire_stream_block_set(
        block_from_bits(&[true, false]),
        vec![block_from_bits(&[true, false]), block_from_bits(&[true])],
        None,
    );
    assert!(matches!(
        outcome,
        Err(StreamError::Misaligned {
            input: BlockInput::Data(1),
            ..
        })
    ));
    let outcome = blocks.acquire_stream_block_set(
        block_from_bits(&[true, false]),
        vec![],
        Some(block_from_bits(&[true])),
    );
    assert!(matches!(
        outcome,
        Err(StreamError::Misaligned {
            input: BlockInput::Cs,
            ..
        })
    ));
}

/// The index-driven path and the streamed path give the same words.
#[test]
fn both_paths_agree_on_edges() {
    let strobe: Vec<bool> = (0..200).map(|i| (i * 7) % 11 < 5).collect();
    let data: Vec<Vec<bool>> = (0..3)
        .map(|bit| (0..200).map(|i| ((i * 3) >> bit) & 1 == 1).collect())
        .collect();
    let cs: Vec<bool> = (0..200).map(|i| (40..60).contains(&i)).collect();
    for mode in [StrobeMode::RisingEdge, StrobeMode::FallingEdge, StrobeMode::AnyEdge] {
        let run_with = |query: bool| {
            let mut decoder = ParallelDecoder::new(3, mode, CsPolarity::ActiveLow);
            run(query, &mut decoder, &strobe, &data, Some(&cs), &Enable::Unconnected)
        };
        let streamed = run_with(false);
        assert!(!streamed.is_empty());
        assert_eq!(run_with(true), streamed, "mode={mode:?}");
    }
}

#[test]
fn workers_are_limited_by_wish_and_pool() {
    let mut decoder = ParallelDecoder::new(1, StrobeMode::RisingEdge, CsPolarity::Disabled)
        .with_parallel_workers(100);
    assert_eq!(decoder.parallel_workers(16), 8);
    assert_eq!(decoder.parallel_workers(3), 3);
    assert_eq!(decoder.parallel_metrics().workers, 3);
    let mut least = ParallelDecoder::new(1, StrobeMode::RisingEdge, CsPolarity::Disabled)
        .with_parallel_workers(0);
    assert_eq!(least.parallel_workers(16), 1);
}

#[test]
fn a_recorded_signal_is_read_anywhere() {
    let signal = RecordedSignal {
        levels: vec![false, true, true, false, true],
    };
    assert_eq!(signal.total_samples(), 5);
    assert_eq!(signal.value_at(3), Ok(false));
    assert!(signal.value_at(5).is_err());
    assert_eq!(signal.values_at(&[4, 0]), Ok(vec![true, false]));
    assert!(signal.values_at(&[0, 9]).is_err());
    let change = |sample, value| CaptureTransition { sample, value };
    assert_eq!(
        signal.next_edges(0, 5, 2),
        Ok(vec![change(1, true), change(3, false)])
    );
    assert_eq!(signal.next_edges(1, 100, 9), Ok(vec![change(3, false), change(4, true)]));
    assert_eq!(signal.next_edges(1, 4, 9), Ok(vec![change(3, false)]));
    assert_eq!(signal.next_edges(7, 5, 9), Ok(vec![]));
}

#[test]
fn a_recorded_bus_that_cannot_be_read_changes_nothing() {
    let record = |levels: &[bool]| RecordedSignal {
        levels: levels.to_vec(),
    };
    let strobe = record(&[false, true, false, true]);
    let mut decoder = ParallelDecoder::new(1, StrobeMode::RisingEdge, CsPolarity::ActiveLow);
    let mut words = Some(Vec::new());
    let data = [record(&[true, true, true, true])];
    assert_eq!(
        decoder.work_indexed(&strobe, &data, None, EnableSource::Unconnected, 1, &mut words),
        Err(RecordedError::MissingChipSelect)
    );
    let cs = record(&[false; 4]);
    let short = [record(&[true, true])];
    let refused =
        decoder.work_indexed(&strobe, &short, Some(&cs), EnableSource::Unconnected, 1, &mut words);
    assert!(matches!(refused, Err(RecordedError::Query(_))));
    assert_eq!(decoder.query_strobe_position, 0);
    assert_eq!(
        decoder.work_indexed(&strobe, &data, Some(&cs), EnableSource::Unconnected, 1, &mut words),
        Ok(RecordedOutcome::Decoded {
            words_emitted: 2,
            consumed: 0,
            exhausted: true
        })
    );
    assert_eq!(decoder.query_strobe_position, 3);
    let positions: Vec<u64> = words.unwrap().iter().map(|word| word.timestamp_ns).collect();
    assert_eq!(positions, [1, 3]);
}

#[test]
fn a_window_is_enabled_where_its_signal_is_high() {
    let signal = RecordedSignal {
        levels: vec![true, false, true, true, false, true],
    };
    let window = recorded_window(&signal, 1, 0, 5).unwrap();
    let range = |start, end| EnabledRange {
        start,
        end,
        reset_before: true,
    };
    assert_eq!(window.ranges, vec![range(1, 3), range(4, 5)]);
    assert!(window.current);
    assert!(recorded_window(&signal, 6, 0, 2).is_err());
}

/// Every way to wire a bus with one data line that is always high.
fn run_all_ways(
    cycles: usize,
    polarity: CsPolarity,
    strobe: &[bool],
    cs: Option<&[bool]>,
    enable: &[bool],
) -> Vec<Vec<Word>> {
    let data = vec![vec![true; strobe.len()]];
    let mut level = false;
    let mut changes = Vec::new();
    for (position, &value) in enable.iter().enumerate() {
        if value != level {
            changes.push(Sample::new(value, position as u64));
            level = value;
        }
    }
    // The first level told anew, and the last level at the end.
    let mut framed = vec![Sample::new(enable[0], 0)];
    framed.extend(changes.iter().filter(|change| change.start_time_ns > 0));
    framed.push(Sample::new(level, enable.len() as u64));
    let mut runs = Vec::new();
    for enable in [
        Enable::Indexed(enable.to_vec()),
        Enable::Streamed(changes),
        Enable::Streamed(framed),
    ] {
        let decoder = || {
            ParallelDecoder::new(1, StrobeMode::RisingEdge, polarity)
                .with_word_assembly(cycles, Endianness::Little)
        };
        runs.push(run_streamed(&mut decoder(), strobe, &data, cs, &enable));
        runs.push(run_indexed(&mut decoder(), strobe, &data, cs, &enable, &mut 0).0);
    }
    runs
}

#[test]
fn a_disabled_stretch_between_two_triggers_drops_the_partial_word() {
    let strobe = [false, true, false, false, false, true, false, false];
    let mut enable = [true; 8];
    enable[3] = false;
    for words in run_all_ways(2, CsPolarity::Disabled, &strobe, None, &enable) {
        assert!(words.is_empty());
    }
    for words in run_all_ways(2, CsPolarity::Disabled, &strobe, None, &[true; 8]) {
        assert_eq!(words, vec![Word::spanning(3, 1, 4)]);
    }
}

#[test]
fn a_closed_chip_select_between_two_triggers_drops_the_partial_word() {
    let strobe = [false, true, false, false, false, true, false, false];
    let mut cs = [true; 8];
    cs[3] = false;
    for words in run_all_ways(2, CsPolarity::ActiveHigh, &strobe, Some(&cs), &[true; 8]) {
        assert!(words.is_empty());
    }
    let low: Vec<bool> = cs.iter().map(|level| !level).collect();
    for words in run_all_ways(2, CsPolarity::ActiveLow, &strobe, Some(&low), &[true; 8]) {
        assert!(words.is_empty());
    }
}

#[test]
fn every_wiring_gives_the_same_words() {
    let mut seed = 7u64;
    let mut next = |share: u64| {
        seed = seed.wrapping_mul(6_364_136_223_846_793_005).wrapping_add(1);
        (seed >> 33) % share == 0
    };
    for _ in 0..200 {
        let strobe: Vec<bool> = (0..150).map(|_| next(2)).collect();
        let cs: Vec<bool> = (0..150).map(|_| !next(17)).collect();
        let enable: Vec<bool> = (0..150).map(|_| !next(13)).collect();
        for cycles in [1, 2, 3] {
            let runs = run_all_ways(cycles, CsPolarity::ActiveHigh, &strobe, Some(&cs), &enable);
            for run in &runs[1..] {
                assert_eq!(run, &runs[0], "cycles={cycles}");
            }
        }
    }
}
