//! Interleaved streams taken apart.

use logic_analyzer_processing::logic_analyzer::chunk::{LogicChunk, LogicEncoding};
use logic_analyzer_processing::logic_analyzer::config::{
    count_inputs, source_channels, LogicAnalyzerInfo, LogicCaptureConfig,
};
use logic_analyzer_processing::logic_analyzer::demux::Demux;
use logic_analyzer_processing::logic_analyzer::error::LogicAnalyzerError;
use logic_analyzer_processing::logic_analyzer::ports::{
    num_outputs, output_schema, source_name, OutputForm,
};
use logic_analyzer_processing::logic_analyzer::source::{SourceAction, SourceReply, SourceRun};
use logic_analyzer_processing::streams::Sample;

fn interleave(channels: &[[bool; 8]]) -> Vec<u8> {
    let mut interleaved = vec![0u8; channels.len()];
    for sample in 0..8 {
        for (channel, values) in channels.iter().enumerate() {
            if values[sample] {
                let bit = sample * channels.len() + channel;
                interleaved[bit / 8] |= 1 << (bit % 8);
            }
        }
    }
    interleaved
}

#[test]
fn demux_emits_aligned_owned_channel_blocks() {
    let channel0 = [false, true, false, true, true, false, true, false];
    let channel1 = [true, true, false, false, true, true, false, false];
    let chunk = LogicChunk::interleaved(interleave(&[channel0, channel1]), 2, 0);
    let mut demux = Demux::new(2, 50_000_000).unwrap();

    let output = demux.push(&chunk).unwrap();

    let blocks = output.blocks.unwrap();
    assert_eq!(&blocks[0].data, &[0b0101_1010]);
    assert_eq!(&blocks[1].data, &[0b0011_0011]);
    assert_eq!(blocks[0].start_position, blocks[1].start_position);
    assert_eq!(blocks[0].num_samples, 8);
    assert_eq!(blocks[1].num_samples, 8);
    assert_eq!(blocks[0].timestamp_step, 20);
}

#[test]
fn demux_lists_changes_and_closes_with_the_last_levels() {
    let channel0 = [false, true, false, true, true, false, true, false];
    let mut demux = Demux::new(1, 1_000_000_000).unwrap();
    let chunk = LogicChunk::interleaved(interleave(&[channel0]), 1, 0);
    let output = demux.push(&chunk).unwrap();
    assert_eq!(
        output.edges[0],
        vec![
            Sample::new(false, 0),
            Sample::new(true, 1),
            Sample::new(false, 2),
            Sample::new(true, 3),
            Sample::new(false, 5),
            Sample::new(true, 6),
            Sample::new(false, 7),
        ]
    );
    assert_eq!(demux.finish(), vec![Some(Sample::new(false, 8))]);
    assert_eq!(demux.timestamp(3), 3);
}

#[test]
fn a_sample_may_straddle_two_chunks() {
    // Three channels: a byte holds two samples and two thirds of a third.
    let channels = [
        [true, false, true, false, false, true, true, false],
        [false, false, true, true, false, false, true, true],
        [true, true, false, false, true, false, true, false],
    ];
    let bytes = interleave(&channels);
    let mut whole = Demux::new(3, 1_000_000_000).unwrap();
    let at_once = whole.push(&LogicChunk::interleaved(bytes.clone(), 3, 0)).unwrap();

    let mut split = Demux::new(3, 1_000_000_000).unwrap();
    let mut edges: Vec<Vec<Sample>> = vec![Vec::new(); 3];
    for (index, byte) in bytes.iter().enumerate() {
        let chunk = LogicChunk::interleaved(vec![*byte], 3, 8 * index as u64);
        let output = split.push(&chunk).unwrap();
        for (channel, changes) in output.edges.into_iter().enumerate() {
            edges[channel].extend(changes);
        }
    }
    assert_eq!(edges, at_once.edges);
    assert_eq!(split.finish(), whole.finish());
}

#[test]
fn a_gap_between_chunks_is_an_error() {
    assert_eq!(
        Demux::new(1, 0).unwrap_err().sentence(),
        "protocol error: driver reported a zero sample rate"
    );
    let mut demux = Demux::new(1, 1_000).unwrap();
    demux.push(&LogicChunk::interleaved(vec![0], 1, 0)).unwrap();
    assert!(demux.push(&LogicChunk::interleaved(vec![0], 1, 9)).is_err());
    assert!(demux.push(&LogicChunk::interleaved(vec![0], 2, 8)).is_err());
}

#[test]
fn settings_are_checked_against_the_device() {
    let info = LogicAnalyzerInfo {
        driver: "driver".to_string(),
        model: "analyzer".to_string(),
        channels: 4,
        sample_rates_hz: vec![1_000],
    };
    assert_eq!(count_inputs(0b1011), 3);
    assert_eq!(
        source_channels(&info, &LogicCaptureConfig::finite(1_000, 0b1011, 10)).unwrap(),
        3
    );
    for config in [
        LogicCaptureConfig::finite(1_000, 0, 10),
        LogicCaptureConfig::finite(1_000, 0b11111, 10),
        LogicCaptureConfig::finite(1_000, 1, 0),
    ] {
        let error = source_channels(&info, &config).unwrap_err();
        assert_eq!(
            error.sentence(),
            "invalid capture settings: invalid channel mask, sample limit, or trigger percentage"
        );
    }
}

#[test]
fn errors_have_sentences() {
    for (error, sentence) in [
        (LogicAnalyzerError::Transport("x".to_string()), "transport error: x"),
        (LogicAnalyzerError::Protocol("x".to_string()), "protocol error: x"),
        (LogicAnalyzerError::Integrity("x".to_string()), "capture integrity error: x"),
        (LogicAnalyzerError::Timeout("x".to_string()), "operation timed out: x"),
        (LogicAnalyzerError::NotCapturing, "capture is not active"),
    ] {
        assert_eq!(error.sentence(), sentence);
    }
}

fn capturing(channels: usize) -> SourceRun {
    let mut run = SourceRun::new(channels);
    let step = run.resume(SourceReply::Configured(Ok(())));
    assert!(matches!(step.action, SourceAction::Start));
    let step = run.resume(SourceReply::Started(Ok(1_000_000_000)));
    assert!(matches!(step.action, SourceAction::Fetch));
    run
}

#[test]
fn a_source_hands_on_chunks_until_the_capture_ends() {
    let mut run = capturing(1);
    let empty = LogicChunk::interleaved(Vec::new(), 1, 0);
    let step = run.resume(SourceReply::Fetched(Ok(Some(&empty))));
    assert!(!step.raw && step.output.is_none());
    assert!(matches!(step.action, SourceAction::Fetch));

    let mut encoded = LogicChunk::interleaved(vec![0xff], 1, 40);
    encoded.encoding = LogicEncoding::Opaque;
    let step = run.resume(SourceReply::Fetched(Ok(Some(&encoded))));
    assert!(step.raw && step.output.is_none());

    let chunk = LogicChunk::interleaved(vec![0b1111_0000], 1, 0);
    let step = run.resume(SourceReply::Fetched(Ok(Some(&chunk))));
    assert!(step.raw);
    assert_eq!(
        step.output.unwrap().edges,
        vec![vec![Sample::new(false, 0), Sample::new(true, 4)]]
    );

    let step = run.resume(SourceReply::Fetched(Ok(None)));
    assert!(matches!(step.action, SourceAction::Stop));
    let step = run.resume(SourceReply::Stopped(Ok(())));
    let SourceAction::Done(Ok(closing)) = step.action else {
        panic!("the source has ended");
    };
    assert_eq!(closing, vec![Some(Sample::new(true, 8))]);
}

#[test]
fn a_source_ends_with_the_first_error() {
    let mut run = SourceRun::new(1);
    run.resume(SourceReply::Configured(Ok(())));
    let step = run.resume(SourceReply::Started(Ok(0)));
    let SourceAction::Done(Err(error)) = step.action else {
        panic!("a rate of zero is refused");
    };
    assert_eq!(error.sentence(), "protocol error: driver reported a zero sample rate");

    let mut run = capturing(1);
    let wide = LogicChunk::interleaved(vec![0], 2, 0);
    let step = run.resume(SourceReply::Fetched(Ok(Some(&wide))));
    assert!(step.raw && step.output.is_none());
    let SourceAction::Done(Err(error)) = step.action else {
        panic!("a chunk of other channels is refused");
    };
    assert_eq!(error.sentence(), "protocol error: chunk has 2 channels; source expects 1");

    let mut run = capturing(1);
    let step = run.resume(SourceReply::ShutDown);
    assert!(matches!(step.action, SourceAction::Stop));
    let step = run.resume(SourceReply::Stopped(Err(LogicAnalyzerError::NotCapturing)));
    assert!(matches!(
        step.action,
        SourceAction::Done(Err(LogicAnalyzerError::NotCapturing))
    ));
}

#[test]
fn a_source_has_edges_and_blocks_for_each_channel_and_chunks() {
    let outputs = output_schema(12);
    assert_eq!(outputs.len(), 25);
    assert_eq!(outputs.len(), num_outputs(12));
    for (index, output) in outputs.iter().enumerate() {
        assert_eq!(output.index, index);
    }
    assert_eq!(outputs[0].name, "d0");
    assert_eq!(outputs[11].name, "d11");
    assert_eq!(outputs[11].forms, vec![OutputForm::Edges]);
    assert_eq!(outputs[12].name, "b0");
    assert_eq!(outputs[23].name, "b11");
    assert_eq!(outputs[23].forms, vec![OutputForm::Blocks]);
    assert_eq!(outputs[24].name, "raw");
    assert_eq!(outputs[24].forms, vec![OutputForm::Chunks]);
    assert_eq!(source_name("dslogic_u3pro16"), "dslogic_u3pro16_source");
}
