//! The DSLogic U3Pro16 driver against a simulated device.

use std::collections::VecDeque;

use logic_analyzer_processing::dslogic::blocks::{canonicalize_cross_blocks, transpose_8x8};
use logic_analyzer_processing::dslogic::capture::{
    begin_stop, device_info, resume_stop, DsLogicU3Pro16, StartReply, StartRun, StartStep,
    StopReply, StopStep,
};
use logic_analyzer_processing::dslogic::fetch::{FetchReply, FetchRun, FetchStep};
use logic_analyzer_processing::dslogic::header::{delivered_bytes, translate_trigger_header};
use logic_analyzer_processing::dslogic::ops::{DeviceOp, OpReply, OpRun, OpStep};
use logic_analyzer_processing::dslogic::packet::build_settings_packet;
use logic_analyzer_processing::dslogic::plan::{
    build_plan, mode_max_rate, mode_min_rate, u3pro16_buffered_plan, u3pro16_streaming_plan,
    DsLogicCaptureSettings, LinkSpeed,
};
use logic_analyzer_processing::dslogic::request::{CaptureDataDelivery, DsLogicU3Pro16Capture};
use logic_analyzer_processing::dslogic::setup::{
    arm_script, configure_internal_clock, dangerous_write_nvm, recover_usb_firmware, ArmScript,
    Setup, SetupReply, SetupStep,
};
use logic_analyzer_processing::dslogic::usb::{
    perform, usb_error, UsbError, UsbReply, UsbTransport,
};
use logic_analyzer_processing::little_endian::{get16, get32, put32};
use logic_analyzer_processing::logic_analyzer::chunk::LogicChunk;
use logic_analyzer_processing::logic_analyzer::config::{
    CaptureMode, LogicCaptureConfig, LogicEncodingRequest, LogicTrigger, LogicTriggerStage,
    Threshold, TriggerCondition, TriggerCountMode, TriggerLogic,
};
use logic_analyzer_processing::logic_analyzer::error::LogicAnalyzerError;
use logic_analyzer_processing::synthetic_capture_source::live_acquisition::AcquisitionError;

const SAMPLE_LIMIT: u64 = 2048;
const TRIGGER_SAMPLE: u32 = 1000;

/// Three inputs, one trigger stage.
fn fixture_config() -> LogicCaptureConfig {
    let mut stage = LogicTriggerStage::default();
    stage.plane0[0] = TriggerCondition::Rising;
    stage.plane0[2] = TriggerCondition::High;
    LogicCaptureConfig {
        trigger: LogicTrigger {
            stages: vec![stage],
            serial: false,
        },
        trigger_percent: 50,
        encoding: LogicEncodingRequest::RunLength,
        ..LogicCaptureConfig::finite(1_000_000, 0b10_0101, SAMPLE_LIMIT)
    }
}

fn fixture_header() -> Vec<u8> {
    let mut header = vec![0_u8; 1024];
    put32(&mut header, 0, 0x5555_5555);
    put32(&mut header, 4, TRIGGER_SAMPLE);
    put32(&mut header, 8, 77);
    put32(&mut header, 12, 0);
    put32(&mut header, 16, 0);
    put32(&mut header, 20, 1);
    header
}

fn fixture_data() -> Vec<u8> {
    (0..768).map(|index| (index * 37) as u8).collect()
}

fn encode_cross_blocks(canonical: &[u8], channel_count: usize) -> Vec<u8> {
    let bit_count = canonical.len() * 8;
    assert!(bit_count % (channel_count * 64) == 0);
    let sample_count = bit_count / channel_count;
    let mut encoded = vec![0_u8; canonical.len()];
    for sample in 0..sample_count {
        for channel in 0..channel_count {
            let canonical_bit = sample * channel_count + channel;
            if canonical[canonical_bit / 8] & (1 << (canonical_bit % 8)) != 0 {
                let block = sample / 64;
                let block_sample = sample % 64;
                let encoded_bit = block * channel_count * 64 + channel * 64 + block_sample;
                encoded[encoded_bit / 8] |= 1 << (encoded_bit % 8);
            }
        }
    }
    encoded
}

/// A device whose answers are laid out in advance.
struct FixtureTransport {
    control_reads: VecDeque<Vec<u8>>,
    control_writes: Vec<Vec<u8>>,
    bulk_reads: VecDeque<Vec<u8>>,
    bulk_writes: Vec<Vec<u8>>,
    short_bulk_write: bool,
    /// A trigger header that is only given to a receive queued before the start.
    header: Option<Vec<u8>>,
    header_queued: bool,
    prequeued: bool,
}

impl FixtureTransport {
    fn answering(control_reads: Vec<Vec<u8>>) -> Self {
        FixtureTransport {
            control_reads: VecDeque::from(control_reads),
            control_writes: Vec::new(),
            bulk_reads: VecDeque::new(),
            bulk_writes: Vec::new(),
            short_bulk_write: false,
            header: None,
            header_queued: false,
            prequeued: false,
        }
    }

    fn control_reads() -> Vec<Vec<u8>> {
        vec![
            vec![0x40],
            vec![2, 0],
            vec![0, 0, 0, 0, 0x0e],
            vec![0, 0, 0, 0, 0x0e],
            vec![2, 0],
            vec![0x08],
            vec![0x80],
        ]
    }

    fn new(header: Vec<u8>, data: Vec<u8>) -> Self {
        const UNALIGNED_TRANSFER_BYTES: usize = 257;

        assert!(data.len() > UNALIGNED_TRANSFER_BYTES);
        let data = encode_cross_blocks(&data, 3);
        let mut transport = Self::answering(Self::control_reads());
        transport.bulk_reads = VecDeque::from([
            header,
            data[..UNALIGNED_TRANSFER_BYTES].to_vec(),
            data[UNALIGNED_TRANSFER_BYTES..].to_vec(),
        ]);
        transport
    }

    fn prequeued_header(header: Vec<u8>, data: Vec<u8>) -> Self {
        let mut transport = Self::new(header, data);
        transport.header = transport.bulk_reads.pop_front();
        transport.prequeued = true;
        transport
    }

    fn overflowing_stream(header: Vec<u8>) -> Self {
        let mut transport = Self::answering(Self::control_reads());
        transport.control_reads.push_back(vec![0x10]);
        transport.bulk_reads = VecDeque::from([header]);
        transport
    }
}

impl UsbTransport for FixtureTransport {
    fn link_speed(&self) -> LinkSpeed {
        LinkSpeed::Super
    }

    fn control_write(
        &mut self,
        _request_type: u8,
        _request: u8,
        _value: u16,
        _index: u16,
        data: &[u8],
        _timeout_ms: u64,
    ) -> Result<usize, UsbError> {
        if self.prequeued && data.first() == Some(&8) && !self.header_queued {
            return Err(UsbError::Other);
        }
        self.control_writes.push(data.to_vec());
        Ok(data.len())
    }

    fn control_read(
        &mut self,
        _request_type: u8,
        _request: u8,
        _value: u16,
        _index: u16,
        data: &mut [u8],
        _timeout_ms: u64,
    ) -> Result<usize, UsbError> {
        let response = match self.control_reads.pop_front() {
            Some(response) => response,
            None => return Err(UsbError::Other),
        };
        if response.len() != data.len() {
            return Err(UsbError::Other);
        }
        data.copy_from_slice(&response);
        Ok(data.len())
    }

    fn bulk_write(
        &mut self,
        _endpoint: u8,
        data: &[u8],
        _timeout_ms: u64,
    ) -> Result<usize, UsbError> {
        self.bulk_writes.push(data.to_vec());
        Ok(if self.short_bulk_write && !data.is_empty() {
            data.len() - 1
        } else {
            data.len()
        })
    }

    fn bulk_read(
        &mut self,
        _endpoint: u8,
        data: &mut [u8],
        _timeout_ms: u64,
    ) -> Result<usize, UsbError> {
        let response = match self.bulk_reads.pop_front() {
            Some(response) => response,
            None => return Err(UsbError::Timeout),
        };
        if response.len() > data.len() {
            return Err(UsbError::Other);
        }
        data[..response.len()].copy_from_slice(&response);
        Ok(response.len())
    }

    fn queue_bulk_read(
        &mut self,
        _endpoint: u8,
        byte_len: usize,
        _timeout_ms: u64,
    ) -> Result<bool, UsbError> {
        if !self.prequeued || self.header_queued {
            return Ok(false);
        }
        if byte_len != 1024 || self.header.is_none() {
            return Err(UsbError::Other);
        }
        self.header_queued = true;
        Ok(true)
    }

    fn take_queued_bulk_read(
        &mut self,
        _byte_len: usize,
        _timeout_ms: u64,
    ) -> Result<Option<Vec<u8>>, UsbError> {
        if !self.header_queued {
            return Ok(None);
        }
        self.header_queued = false;
        Ok(self.header.take())
    }

    fn cancel_queued_bulk_read(&mut self) -> Result<(), UsbError> {
        self.header_queued = false;
        Ok(())
    }
}

fn run_op(transport: &mut FixtureTransport, op: DeviceOp) -> Result<Vec<u8>, LogicAnalyzerError> {
    let (mut run, mut step) = OpRun::begin(op);
    loop {
        let reply = match step {
            OpStep::Ask(request) => OpReply::Usb(perform(transport, &request)),
            OpStep::Pause { .. } | OpStep::StartTimer { .. } => OpReply::Elapsed,
            OpStep::CheckTimer => OpReply::Timer { running: true },
            OpStep::Done(outcome) => return outcome,
        };
        step = run.resume(reply);
    }
}

fn run_setup(
    transport: &mut FixtureTransport,
    (mut setup, mut step): (Setup, SetupStep),
) -> Result<(), LogicAnalyzerError> {
    loop {
        let reply = match step {
            SetupStep::Op(op) => SetupReply::Op(run_op(transport, op)),
            SetupStep::FindImage => SetupReply::Image(None),
            SetupStep::Done(outcome) => return outcome,
        };
        step = setup.resume(reply);
    }
}

/// A driver and its device.
struct Analyzer {
    driver: DsLogicU3Pro16,
    transport: FixtureTransport,
}

impl Analyzer {
    fn new(transport: FixtureTransport) -> Self {
        Analyzer {
            driver: DsLogicU3Pro16::new(transport.link_speed()),
            transport,
        }
    }

    fn start_capture(&mut self) -> Result<(), LogicAnalyzerError> {
        loop {
            let (run, mut step) = StartRun::begin(&self.driver);
            if let StartStep::Prepare(plan) = step {
                let arm = arm_script(self.driver.link_speed, &self.driver.settings, plan);
                run_setup(&mut self.transport, Setup::begin(arm))?;
                self.driver.prepared = true;
                continue;
            }
            let Some(mut run) = run else {
                let StartStep::Done(outcome) = step else {
                    panic!("a start without a run is over");
                };
                return outcome;
            };
            loop {
                let reply = match step {
                    StartStep::Ask(request) => match perform(&mut self.transport, &request) {
                        UsbReply::Queued(queued) => StartReply::Queued(queued),
                        _ => StartReply::Cancelled,
                    },
                    StartStep::Op(op) => StartReply::Op(run_op(&mut self.transport, op)),
                    StartStep::Done(outcome) => return outcome,
                    StartStep::Prepare(_) => panic!("the device is prepared"),
                };
                step = run.resume(&mut self.driver, reply);
            }
        }
    }

    fn next_chunk(&mut self) -> Result<Option<LogicChunk>, LogicAnalyzerError> {
        let (mut run, mut step) = FetchRun::begin(&mut self.driver);
        loop {
            let reply = match step {
                FetchStep::Ask(request) => match perform(&mut self.transport, &request) {
                    UsbReply::Taken(taken) => FetchReply::Taken(taken),
                    UsbReply::Read(read) => FetchReply::Read(read),
                    UsbReply::Queued(queued) => FetchReply::Queued(queued),
                    reply => panic!("unexpected reply {reply:?}"),
                },
                FetchStep::Op(op) => FetchReply::Op(run_op(&mut self.transport, op)),
                FetchStep::Done(outcome) => return outcome,
            };
            step = run.resume(&mut self.driver, reply);
        }
    }

    fn stop_capture(&mut self) -> Result<(), LogicAnalyzerError> {
        let (mut stage, mut step) = begin_stop(&self.driver);
        loop {
            let reply = match step {
                StopStep::Op(op) => StopReply::Op(run_op(&mut self.transport, op)),
                StopStep::Ask(request) => match perform(&mut self.transport, &request) {
                    UsbReply::Cancelled(cancelled) => StopReply::Cancelled(cancelled),
                    reply => panic!("unexpected reply {reply:?}"),
                },
                StopStep::Done(outcome) => return outcome,
            };
            (stage, step) = resume_stop(&mut self.driver, stage, reply);
        }
    }
}

#[test]
fn cross_data_blocks_are_transposed_and_preserved_across_usb_boundaries() {
    let channel_count = 3;
    let mut canonical = vec![0_u8; channel_count * 8 * 2];
    for sample in 0..128 {
        for channel in 0..channel_count {
            if (sample + channel * 3) % (5 + channel) == 0 {
                let bit = sample * channel_count + channel;
                canonical[bit / 8] |= 1 << (bit % 8);
            }
        }
    }
    let encoded = encode_cross_blocks(&canonical, channel_count);
    let mut carry = Vec::new();

    let first = canonicalize_cross_blocks(&mut carry, &encoded[..17], channel_count).unwrap();
    let second = canonicalize_cross_blocks(&mut carry, &encoded[17..], channel_count).unwrap();

    assert!(first.is_empty());
    assert!(carry.is_empty());
    assert_eq!(second, canonical);
}

#[test]
fn a_matrix_transposed_twice_is_itself() {
    let matrix = 0x0123_4567_89ab_cdef;
    assert_ne!(transpose_8x8(matrix), matrix);
    assert_eq!(transpose_8x8(transpose_8x8(matrix)), matrix);
    // Bit 1 of byte 0 becomes bit 0 of byte 1.
    assert_eq!(transpose_8x8(0b10), 1 << 8);
}

#[test]
fn blocks_of_no_or_too_many_channels_are_refused() {
    let mut carry = Vec::new();
    assert!(canonicalize_cross_blocks(&mut carry, &[0; 8], 0).is_err());
    assert!(canonicalize_cross_blocks(&mut carry, &[0; 8], 17).is_err());
}

#[test]
fn internal_clock_configuration_matches_the_u3pro16_500_mhz_sequence() {
    let mut transport = FixtureTransport::answering(vec![]);
    for op in configure_internal_clock() {
        run_op(&mut transport, op).unwrap();
    }

    let register_writes = transport
        .control_writes
        .iter()
        .map(|payload| {
            assert_eq!(payload[0], 14);
            assert_eq!(payload[3], 1);
            (u16::from_le_bytes([payload[1], payload[2]]), payload[4])
        })
        .collect::<Vec<_>>();
    assert_eq!(
        register_writes,
        vec![
            (0x4a, 0x01),
            (0x48, 0x01),
            (0x48, 0x61),
            (0x48, 0x00),
            (0x48, 0x30),
            (0x48, 0x01),
            (0x48, 0x40),
            (0x48, 0xf1),
            (0x48, 0x46),
            (0x48, 0x01),
            (0x48, 0x62),
            (0x48, 0x3d),
            (0x48, 0x40),
        ]
    );
}

#[test]
fn fpga_configuration_rejects_a_short_bitstream_upload() {
    let mut transport = FixtureTransport::answering(vec![vec![0x00], vec![0x20]]);
    transport.short_bulk_write = true;

    let error = run_setup(&mut transport, Setup::configure_fpga(vec![0xaa, 0x55])).unwrap_err();

    assert!(matches!(
        error,
        LogicAnalyzerError::Protocol(message)
            if message == "short FPGA bulk write: 1/2 bytes"
    ));
}

#[test]
fn fpga_configuration_allows_delayed_done_after_gpif_completion() {
    let mut control_reads = vec![vec![0x00], vec![0x20], vec![0x80]];
    control_reads.extend((0..55).map(|_| vec![0xab]));
    control_reads.push(vec![0xeb]);
    let mut transport = FixtureTransport::answering(control_reads);

    run_setup(&mut transport, Setup::configure_fpga(vec![0xaa, 0x55])).unwrap();
}

fn nothing_to_arm() -> ArmScript {
    ArmScript {
        ops: Vec::new(),
        failure: None,
    }
}

#[test]
fn configured_fpga_retries_a_transient_zero_hdl_version_without_reloading() {
    let mut transport = FixtureTransport::answering(vec![
        vec![0x40],
        vec![2, 1],
        vec![0, 0, 0, 0, 0],
        vec![0, 0, 0, 0, 0],
        vec![0, 0, 0, 0, 0x0e],
    ]);

    let (mut setup, mut step) = Setup::begin(nothing_to_arm());
    while !transport.control_reads.is_empty() {
        let SetupStep::Op(op) = step else {
            panic!("the versions are still to be read");
        };
        step = setup.resume(SetupReply::Op(run_op(&mut transport, op)));
    }

    assert!(!matches!(step, SetupStep::FindImage));
    assert!(transport.bulk_writes.is_empty());
}

#[test]
fn an_unconfigured_device_without_image_is_refused() {
    let mut transport = FixtureTransport::answering(vec![vec![0x00]]);
    let outcome = run_setup(&mut transport, Setup::begin(nothing_to_arm()));
    assert!(outcome.is_err());
    assert!(transport.bulk_writes.is_empty());
}

#[test]
fn queues_the_trigger_header_receive_before_starting_capture() {
    let transport = FixtureTransport::prequeued_header(fixture_header(), fixture_data());
    let mut analyzer = Analyzer::new(transport);

    analyzer.driver.configure_capture(&fixture_config()).unwrap();
    analyzer.start_capture().unwrap();
    analyzer.next_chunk().unwrap();

    assert!(analyzer.driver.take_trigger_header().is_some());
}

#[test]
fn streaming_polls_the_prequeued_trigger_header() {
    let mut config = fixture_config();
    config.mode = CaptureMode::Streaming;
    let transport = FixtureTransport::prequeued_header(fixture_header(), fixture_data());
    let mut analyzer = Analyzer::new(transport);

    analyzer.driver.configure_capture(&config).unwrap();
    analyzer.start_capture().unwrap();
    analyzer.next_chunk().unwrap();

    assert_eq!(
        analyzer
            .driver
            .take_trigger_header()
            .and_then(|header| header.trigger_sample()),
        Some(u64::from(TRIGGER_SAMPLE))
    );
}

#[test]
fn streaming_overflow_is_an_explicit_integrity_error() {
    let mut config = fixture_config();
    config.mode = CaptureMode::Streaming;
    let mut analyzer = Analyzer::new(FixtureTransport::overflowing_stream(fixture_header()));
    analyzer.driver.negotiate_streaming_capture(&config).unwrap();
    analyzer.start_capture().unwrap();

    let error = loop {
        match analyzer.next_chunk() {
            Ok(Some(chunk)) => assert_eq!(chunk.bit_len, 0),
            Ok(None) => panic!("the stream does not end"),
            Err(error) => break error,
        }
    };

    assert!(matches!(error, LogicAnalyzerError::Integrity(_)));
    assert!(error.sentence().contains("overflow"));
}

#[test]
fn a_finite_capture_delivers_every_sample_and_ends() {
    let mut analyzer = Analyzer::new(FixtureTransport::new(fixture_header(), fixture_data()));
    let plan = analyzer.driver.negotiate_buffered_capture(&fixture_config()).unwrap();
    assert_eq!(plan.actual_samples(), SAMPLE_LIMIT);
    analyzer.start_capture().unwrap();

    // The settings packet goes out whole.
    assert_eq!(analyzer.transport.bulk_writes[0].len(), 672);
    let mut delivered = Vec::new();
    while let Some(chunk) = analyzer.next_chunk().unwrap() {
        assert_eq!(chunk.start_bit, 8 * delivered.len() as u64);
        delivered.extend(chunk.data);
    }
    assert_eq!(delivered, fixture_data());
    let header = analyzer.driver.take_trigger_header().unwrap();
    assert_eq!(header.trigger_sample(), Some(u64::from(TRIGGER_SAMPLE)));
    assert_eq!(header.captured_samples(), SAMPLE_LIMIT);
    assert_eq!(header.remaining_samples(), 0);
    assert_eq!(header.ram_start(), 77);

    analyzer.stop_capture().unwrap();
    assert!(!analyzer.driver.active);
    assert!(matches!(
        analyzer.next_chunk(),
        Err(LogicAnalyzerError::NotCapturing)
    ));
}

#[test]
fn a_running_capture_cannot_be_started_again() {
    let mut analyzer = Analyzer::new(FixtureTransport::new(fixture_header(), fixture_data()));
    analyzer.driver.configure_capture(&fixture_config()).unwrap();
    analyzer.start_capture().unwrap();
    assert_eq!(
        analyzer.start_capture().unwrap_err().sentence(),
        "protocol error: capture already active"
    );
}

#[test]
fn settings_packet_words_follow_the_plan() {
    let settings = DsLogicCaptureSettings {
        trigger: fixture_config().trigger,
        run_length: true,
        ..DsLogicCaptureSettings::finite(1_000_000, 0b10_0101, SAMPLE_LIMIT)
    };
    let plan = build_plan(LinkSpeed::Super, &settings).unwrap();
    let packet = build_settings_packet(&settings, plan).unwrap();
    assert_eq!(u64::from(get32(&packet, 32)), plan.actual_samples());
    // Rising on input 0 and high on input 2.
    assert_eq!(get16(&packet, 176), 0b001);
    assert_eq!(get16(&packet, 112) & 0b101, 0b101);
    assert_eq!(get16(&packet, 48) & 0b101, 0);

    let header =
        translate_trigger_header(&fixture_header(), CaptureMode::Finite, plan).unwrap();
    assert_eq!(header.trigger_sample(), Some(u64::from(TRIGGER_SAMPLE)));
    assert_eq!(header.captured_samples(), SAMPLE_LIMIT);
    assert_eq!(delivered_bytes(header, plan).unwrap(), 768);

    let mut other = fixture_header();
    other[0] = 0;
    assert!(translate_trigger_header(&other, CaptureMode::Finite, plan).is_err());
    assert!(translate_trigger_header(&[0; 4], CaptureMode::Finite, plan).is_err());
}

#[test]
fn two_trigger_stages_have_words_of_their_own() {
    let mut first = LogicTriggerStage::default();
    first.plane0[0] = TriggerCondition::Rising;
    first.plane0[2] = TriggerCondition::High;
    first.logic = TriggerLogic::And;
    first.inverted = true;
    first.count = 3;
    let mut second = LogicTriggerStage::default();
    second.plane0[2] = TriggerCondition::Low;
    second.plane0[5] = TriggerCondition::Falling;
    second.logic = TriggerLogic::Or;
    second.count_mode = TriggerCountMode::Consecutive;
    second.count = 5;
    let settings = DsLogicCaptureSettings {
        trigger: LogicTrigger {
            stages: vec![first, second],
            serial: false,
        },
        ..DsLogicCaptureSettings::finite(1_000_000, 0b10_0101, SAMPLE_LIMIT)
    };
    let plan = build_plan(LinkSpeed::Super, &settings).unwrap();
    let packet = build_settings_packet(&settings, plan).unwrap();
    assert_eq!(get16(&packet, 176), 0b000001);
    assert_eq!(get16(&packet, 178), 0b100000);
    assert_ne!(get16(&packet, 240), get16(&packet, 242));
    assert_ne!(get32(&packet, 304), get32(&packet, 308));
}

#[test]
fn streaming_plan_enforces_link_speed_and_highest_enabled_input() {
    let mut config = LogicCaptureConfig::finite(100_000_000, 0b111, 4096);
    config.mode = CaptureMode::Streaming;
    assert!(u3pro16_streaming_plan(&config, LinkSpeed::High).is_ok());

    config.input_mask = 0b1001;
    assert!(u3pro16_streaming_plan(&config, LinkSpeed::High).is_err());
    assert!(u3pro16_streaming_plan(&config, LinkSpeed::Super).is_ok());

    config.sample_rate_hz = 250_000_000;
    config.input_mask = 1 << 12;
    assert!(u3pro16_streaming_plan(&config, LinkSpeed::Super).is_err());

    config.sample_rate_hz = 100_000;
    config.input_mask = 1;
    assert!(u3pro16_streaming_plan(&config, LinkSpeed::High).is_ok());
    assert!(u3pro16_streaming_plan(&config, LinkSpeed::Super).is_err());
}

#[test]
fn wide_superspeed_stream_divides_the_fpga_clock_not_the_usb_mode_limit() {
    let settings = DsLogicCaptureSettings {
        mode: CaptureMode::Streaming,
        ..DsLogicCaptureSettings::finite(125_000_000, 0xffff, 125_000_000)
    };
    let plan = build_plan(LinkSpeed::Super, &settings).unwrap();
    let packet = build_settings_packet(&settings, plan).unwrap();

    assert_eq!(get16(&packet, 10), 1);
    assert_eq!(get16(&packet, 12), 3 << 8);
}

#[test]
fn finite_packet_has_protocol_markers() {
    let settings = DsLogicCaptureSettings::finite(100_000_000, 0xffff, 4096);
    let plan = build_plan(LinkSpeed::Super, &settings).unwrap();
    let packet = build_settings_packet(&settings, plan).unwrap();
    assert_eq!(&packet[0..4], &0xf5a5_f5a5u32.to_le_bytes());
    assert_eq!(&packet[368..372], &0xfa5a_fa5au32.to_le_bytes());
    assert_eq!(packet.len(), 672);
}

#[test]
fn rejects_high_speed_wide_stream_rate() {
    let settings = DsLogicCaptureSettings {
        mode: CaptureMode::Streaming,
        ..DsLogicCaptureSettings::finite(100_000_000, 0xffff, 4096)
    };
    assert!(build_plan(LinkSpeed::High, &settings).is_err());
}

#[test]
fn retains_narrow_mode_rate() {
    let settings = DsLogicCaptureSettings {
        mode: CaptureMode::Streaming,
        ..DsLogicCaptureSettings::finite(100_000_000, 0x0007, 4096)
    };
    assert!(build_plan(LinkSpeed::High, &settings).is_ok());
}

#[test]
fn requests_outside_the_device_are_refused() {
    let refused = |config: LogicCaptureConfig| u3pro16_buffered_plan(&config).unwrap_err().sentence();
    assert_eq!(
        refused(LogicCaptureConfig::finite(1_000_000, 0x1_0000, 1)),
        "invalid capture settings: U3Pro16 has only 16 inputs"
    );
    let mut config = LogicCaptureConfig::finite(1_000_000, 1, 1);
    config.threshold = Some(Threshold::NotFinite);
    assert_eq!(refused(config), "invalid capture settings: threshold must be finite");
    let mut config = LogicCaptureConfig::finite(1_000_000, 1, 1);
    config.trigger_percent = 101;
    assert_eq!(
        refused(config),
        "invalid capture settings: trigger position percentage must be within 0..=100"
    );
    assert_eq!(
        refused(LogicCaptureConfig::finite(1_000_001, 1, 1)),
        "invalid capture settings: sample rate must be one of the device's discrete supported rates"
    );
    assert_eq!(
        refused(LogicCaptureConfig::finite(1_000_000, 1, 0)),
        "invalid capture settings: capture requires enabled inputs and a non-zero sample limit"
    );
    let mut config = LogicCaptureConfig::finite(1_000_000, 1, 1);
    config.mode = CaptureMode::Streaming;
    assert_eq!(
        refused(config),
        "invalid capture settings: buffered acquisition requires finite capture mode"
    );
}

#[test]
fn limits_of_the_modes() {
    assert_eq!(
        mode_max_rate(LinkSpeed::Super, CaptureMode::Finite, 16),
        Some(500_000_000)
    );
    assert!(mode_max_rate(LinkSpeed::High, CaptureMode::Streaming, 17).is_none());
    assert_eq!(
        mode_min_rate(LinkSpeed::Super, CaptureMode::Streaming, 1),
        Some(1_000_000)
    );
    assert_eq!(device_info().channels, 16);
    assert_eq!(device_info().model, "DSLogic U3Pro16");
}

fn channel_names(count: usize) -> Vec<String> {
    (0..count).map(|index| format!("u3pro16:input:{index}")).collect()
}

#[test]
fn a_request_names_each_enabled_input() {
    let capture =
        DsLogicU3Pro16Capture::new(fixture_config(), channel_names(3)).unwrap();
    assert_eq!(capture.data_delivery(), CaptureDataDelivery::BufferedUpload);
    assert_eq!(capture.capture_window_samples(), SAMPLE_LIMIT);
    assert!(capture.without_trigger().config.trigger.stages.is_empty());

    for count in [0, 2, 4] {
        assert_eq!(
            DsLogicU3Pro16Capture::new(fixture_config(), channel_names(count)).unwrap_err(),
            AcquisitionError::InvalidRequest(
                "U3Pro16 channel identities must match the enabled physical inputs".to_string()
            )
        );
    }
}

#[test]
fn a_stream_needs_one_link_that_can_carry_it() {
    let mut config = LogicCaptureConfig::finite(100_000, 1, 4096);
    config.mode = CaptureMode::Streaming;
    let capture = DsLogicU3Pro16Capture::new(config, channel_names(1)).unwrap();
    assert_eq!(capture.data_delivery(), CaptureDataDelivery::DuringAcquisition);
    assert_eq!(capture.capture_window_samples(), 4096);

    let mut config = LogicCaptureConfig::finite(250_000_000, 1 << 12, 4096);
    config.mode = CaptureMode::Streaming;
    let error = DsLogicU3Pro16Capture::new(config, channel_names(1)).unwrap_err();
    let AcquisitionError::InvalidRequest(message) = error else {
        panic!("the request is at fault");
    };
    assert!(message.starts_with(
        "U3Pro16 stream is unsupported on High Speed (invalid capture settings: "
    ));
    assert!(message.contains(") and SuperSpeed (invalid capture settings: "));
    assert!(message.ends_with(')'));
}

#[test]
fn firmware_is_written_between_reset_and_run() {
    let ops = recover_usb_firmware(&(0..100).collect()).unwrap();
    let mut transport = FixtureTransport::answering(vec![]);
    for op in ops {
        run_op(&mut transport, op).unwrap();
    }
    let writes = &transport.control_writes;
    assert_eq!(writes.first().unwrap(), &[1]);
    assert_eq!(writes.last().unwrap(), &[0]);
    let image: Vec<u8> = writes[1..writes.len() - 1].concat();
    assert_eq!(image, (0..100).collect::<Vec<u8>>());

    assert!(recover_usb_firmware(&vec![]).is_err());
    assert!(recover_usb_firmware(&vec![0; 0x1_0001]).is_err());
}

#[test]
fn runtime_writes_are_limited() {
    let mut transport = FixtureTransport::answering(vec![]);
    assert!(run_op(&mut transport, dangerous_write_nvm(0, vec![0; 61])).is_err());
    assert!(transport.control_writes.is_empty());
    run_op(&mut transport, dangerous_write_nvm(0x0102, vec![9; 2])).unwrap();
    assert_eq!(transport.control_writes[0], [12, 0x02, 0x01, 2, 9, 9]);
}

#[test]
fn transfer_failures_keep_their_kind() {
    assert_eq!(
        usb_error(UsbError::Timeout, "reading status").sentence(),
        "operation timed out: reading status"
    );
    assert_eq!(
        usb_error(UsbError::Other, "reading status").sentence(),
        "transport error: reading status"
    );
}

/// A transport without queued reads.
struct PlainTransport;

impl UsbTransport for PlainTransport {
    fn link_speed(&self) -> LinkSpeed {
        LinkSpeed::High
    }

    fn control_write(
        &mut self,
        _request_type: u8,
        _request: u8,
        _value: u16,
        _index: u16,
        data: &[u8],
        _timeout_ms: u64,
    ) -> Result<usize, UsbError> {
        Ok(data.len())
    }

    fn control_read(
        &mut self,
        _request_type: u8,
        _request: u8,
        _value: u16,
        _index: u16,
        data: &mut [u8],
        _timeout_ms: u64,
    ) -> Result<usize, UsbError> {
        Ok(data.len())
    }

    fn bulk_write(
        &mut self,
        _endpoint: u8,
        data: &[u8],
        _timeout_ms: u64,
    ) -> Result<usize, UsbError> {
        Ok(data.len())
    }

    fn bulk_read(
        &mut self,
        _endpoint: u8,
        _data: &mut [u8],
        _timeout_ms: u64,
    ) -> Result<usize, UsbError> {
        Err(UsbError::Timeout)
    }
}

#[test]
fn a_transport_without_queued_reads_falls_back() {
    let mut transport = PlainTransport;
    assert_eq!(transport.queue_bulk_read(6, 1024, 100), Ok(false));
    assert_eq!(transport.take_queued_bulk_read(1024, 100), Ok(None));
    assert_eq!(transport.cancel_queued_bulk_read(), Ok(()));
    assert_eq!(transport.close(), Ok(()));
    assert_eq!(transport.close(), Ok(()));
}
