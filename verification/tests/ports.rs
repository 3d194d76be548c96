//! Ports of the nodes.

use logic_analyzer_processing::digital::CsPolarity;
use logic_analyzer_processing::logic::formatter::TextFormatter;
use logic_analyzer_processing::logic::sr_latch::SrLatch;
use logic_analyzer_processing::logic::trigger_counter::TriggerCounter;
use logic_analyzer_processing::parallel_decoder::decoder::ParallelDecoder;
use logic_analyzer_processing::parallel_decoder::types::StrobeMode;
use logic_analyzer_processing::ports::{PortKind, PortSchema};
use logic_analyzer_processing::sinks::text_file_writer::TextFileWriter;
use logic_analyzer_processing::sinks::tgck_recorder::TgckRecorder;
use logic_analyzer_processing::synthetic_capture_source::demo::SyntheticCaptureSource;
use logic_analyzer_processing::uart_decoder::UartDecoder;

fn ports(expected: &[(&str, PortKind)]) -> Vec<PortSchema> {
    expected
        .iter()
        .enumerate()
        .map(|(index, &(name, kind))| PortSchema {
            name: name.to_string(),
            index,
            kind,
        })
        .collect()
}

#[test]
fn logic_nodes_have_their_ports() {
    let latch = SrLatch::new(false);
    assert_eq!(
        latch.input_schema(),
        ports(&[("set", PortKind::Trigger), ("reset", PortKind::Trigger)])
    );
    assert_eq!(latch.output_schema(), ports(&[("q", PortKind::Sample)]));
    let counter = TriggerCounter::new(0, 1);
    assert_eq!(
        counter.input_schema(),
        ports(&[("trigger", PortKind::Trigger)])
    );
    assert_eq!(
        counter.output_schema(),
        ports(&[("count", PortKind::Number)])
    );
    let formatter = TextFormatter::with_num_values("{0}{1}{2}".to_string(), 3);
    assert_eq!(
        formatter.input_schema(),
        ports(&[
            ("value", PortKind::Number),
            ("value1", PortKind::Number),
            ("value2", PortKind::Number),
        ])
    );
    assert_eq!(
        formatter.output_schema(),
        ports(&[("text", PortKind::Text)])
    );
}

#[test]
fn sinks_have_their_ports() {
    assert_eq!(
        TextFileWriter::new().input_schema(),
        ports(&[("lines", PortKind::Text), ("filename", PortKind::Text)])
    );
    let recorder = TgckRecorder::new();
    assert_eq!(
        recorder.input_schema(),
        ports(&[
            ("words", PortKind::Word),
            ("tgck", PortKind::Sample),
            ("filename", PortKind::Text),
        ])
    );
    assert_eq!(
        recorder.output_schema(),
        ports(&[("rows", PortKind::Text), ("filename", PortKind::Text)])
    );
}

#[test]
fn decoders_have_their_ports() {
    let uart = UartDecoder::new(1_000_000, 8);
    assert_eq!(uart.input_schema(), ports(&[("rx", PortKind::Sample)]));
    assert_eq!(
        uart.output_schema(),
        ports(&[
            ("words", PortKind::Word),
            ("error", PortKind::Trigger),
            ("bits", PortKind::Word),
            ("frame", PortKind::Word),
        ])
    );
    let parallel = ParallelDecoder::new(2, StrobeMode::RisingEdge, CsPolarity::Disabled);
    let names: Vec<String> = parallel.input_schema().into_iter().map(|port| port.name).collect();
    assert_eq!(names, ["strobe", "d0", "d1", "cs", "enable_signal"]);
    assert_eq!(
        parallel.output_schema(),
        ports(&[("words", PortKind::Word)])
    );
}

#[test]
fn a_synthetic_capture_has_changes_and_blocks() {
    let source = SyntheticCaptureSource::new().with_channel_count(2);
    assert_eq!(
        source.output_schema(),
        ports(&[
            ("ch0", PortKind::Sample),
            ("ch1", PortKind::Sample),
            ("block0", PortKind::SampleBlock),
            ("block1", PortKind::SampleBlock),
        ])
    );
}
