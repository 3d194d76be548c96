//! Capture files.

use logic_analyzer_processing::bits::get_bit;
use logic_analyzer_processing::capture_file::cache::BlockCache;
use logic_analyzer_processing::capture_file::dsl::{
    block_name, dsl_sidecar_path, parse_header, DslCaptureReader, ReadStep,
};
use logic_analyzer_processing::capture_file::error::CaptureFileError;
use logic_analyzer_processing::capture_file::identity::{
    capture_cache_identity, identity_bytes, FileStamp,
};
use logic_analyzer_processing::capture_file::ini::{comes_before, lookup, parse_ini};
use logic_analyzer_processing::capture_file::metadata::CaptureMetadata;
use logic_analyzer_processing::capture_file::rate::rate_parts;
use logic_analyzer_processing::capture_file::sigrok::{
    check_channels, check_version, order_parts, plan_session, read_layout, sigrok_sidecar_path,
    SigrokCapture, SigrokFileSource,
};
use logic_analyzer_processing::level_changes::changes_fit;
use logic_analyzer_processing::streams::Sample;

const METADATA: &str = "[device 1]\ncapturefile=logic-1\ntotal probes=8\nsamplerate=1 MHz\nprobe1=TX\nunitsize=1\n";
const SAMPLES: [u8; 8] = [0, 1, 1, 0, 0, 1, 0, 1];

fn chars(text: &str) -> Vec<char> {
    text.chars().collect()
}

fn parse_sample_rate(text: &[char]) -> Option<f64> {
    let (number, hertz) = rate_parts(text)?;
    let number: f64 = number.into_iter().collect::<String>().parse().ok()?;
    Some(number * f64::from(hertz))
}

/// Opens a session of one sample file.
fn open_session(
    version: &str,
    metadata: &str,
    files: &[(&str, &[u8])],
    num_channels: u8,
) -> Result<(SigrokFileSource, f64), CaptureFileError> {
    check_channels(num_channels)?;
    check_version(version)?;
    let entries = parse_ini(metadata);
    let layout = read_layout(&entries, num_channels)?;
    let rate = parse_sample_rate(&layout.samplerate);
    let names: Vec<Vec<char>> = files.iter().map(|(name, _)| chars(name)).collect();
    let plan = plan_session(&entries, &layout, rate.is_some(), &names)?;
    let samples: Vec<u8> = plan
        .parts
        .iter()
        .flat_map(|&part| files[part].1.to_vec())
        .collect();
    let capture = SigrokCapture::open(&entries, &layout, plan.trigger_sample, samples)?;
    Ok((SigrokFileSource::new(capture, num_channels), rate.unwrap()))
}

fn fixture() -> (SigrokFileSource, f64) {
    open_session("2", METADATA, &[("version", b"2"), ("logic-1-1", &SAMPLES)], 8).unwrap()
}

#[test]
fn sigrok_file_opens_checked_in_pulseview_capture() {
    let (source, samplerate_hz) = fixture();
    assert_eq!(source.header().total_probes, 8);
    assert_eq!(samplerate_hz, 1_000_000.0);
    assert_eq!(source.header().total_samples, 8);
    assert_eq!(source.header().probe_names[0], "TX");
}

#[test]
fn implementation_opens_checked_in_pulseview_capture() {
    let (source, samplerate_hz) = fixture();
    assert_eq!(source.header().total_probes, 8);
    assert_eq!(samplerate_hz, 1_000_000.0);
    assert_eq!(source.header().total_samples, 8);
    assert_eq!(source.header().probe_names[0], "TX");
    assert_eq!(source.header().probe_names[1], "Probe 1");
    assert_eq!(source.header().total_blocks, 1);
    assert_eq!(source.header().samples_per_block, 8);
    assert_eq!(source.header().trigger_sample, None);
}

#[test]
fn data_source_is_private_support_for_the_node() {
    let (source, _) = open_session("2", METADATA, &[("logic-1-1", &SAMPLES)], 1).unwrap();
    assert_eq!(source.header().total_samples, 8);
    assert_eq!(source.header().total_probes, 8);
}

#[test]
fn a_session_gives_samples_blocks_and_changes() {
    let (source, _) = fixture();
    let capture = &source.capture;
    assert_eq!(capture.read_sample(0, 5), Ok(true));
    assert_eq!(capture.read_sample(1, 5), Ok(false));
    assert_eq!(
        capture.read_sample(8, 0),
        Err(CaptureFileError::InvalidProbe(8))
    );
    assert_eq!(
        capture.read_sample(0, 8),
        Err(CaptureFileError::OutOfBounds(8))
    );
    assert_eq!(capture.read_packed_block(0, 0), Ok(vec![0b1010_0110]));
    assert_eq!(
        capture.read_packed_block(0, 1),
        Err(CaptureFileError::InvalidBlock(1))
    );
    assert_eq!(
        capture.read_packed_block(9, 1),
        Err(CaptureFileError::InvalidProbe(9))
    );
    assert!(changes_fit(&capture.channel_levels(0), 1_000));
    assert_eq!(
        capture.channel_changes(0, 1_000),
        vec![
            Sample::new(false, 0),
            Sample::new(true, 1_000),
            Sample::new(false, 3_000),
            Sample::new(true, 5_000),
            Sample::new(false, 6_000),
            Sample::new(true, 7_000),
        ]
    );
    assert_eq!(capture.channel_changes(3, 1_000), vec![Sample::new(false, 0)]);
    assert!(!changes_fit(&capture.channel_levels(0), u64::MAX));
    assert!(changes_fit(&capture.channel_levels(3), u64::MAX));
}

#[test]
fn a_source_starts_its_streams_once() {
    let (source, _) = fixture();
    let mut source = source.with_name("capture");
    assert_eq!(source.name, "capture");
    assert_eq!(source.num_inputs(), 0);
    assert_eq!(source.num_outputs(), 8);
    assert_eq!(SigrokFileSource::output_name(3), "ch3");
    for (channel, output) in source.output_schema().iter().enumerate() {
        assert_eq!(output.name, format!("ch{channel}"));
        assert_eq!(output.index, channel);
    }
    assert_eq!(source.output_schema().len(), source.num_outputs());
    assert!(!source.should_stop(0));
    assert!(source.start());
    assert!(!source.start());
    source.started(2);
    assert!(!source.should_stop(1));
    assert!(source.should_stop(2));
}

fn refusal(version: &str, metadata: &str, files: &[(&str, &[u8])], channels: u8) -> String {
    match open_session(version, metadata, files, channels) {
        Err(CaptureFileError::ParseError(message)) => message,
        Err(error) => panic!("unexpected error {error:?}"),
        Ok(_) => panic!("the session was opened"),
    }
}

#[test]
fn sessions_are_checked_in_order() {
    let files: &[(&str, &[u8])] = &[("logic-1", &SAMPLES)];
    assert_eq!(refusal("2", METADATA, files, 0), "num_channels must be 1-32, got 0");
    assert_eq!(refusal("2", METADATA, files, 33), "num_channels must be 1-32, got 33");
    assert_eq!(
        refusal(" 3\n", METADATA, files, 1),
        "unsupported sigrok session version '3' (expected 2)"
    );
    assert_eq!(
        refusal("2", "[device 1]\nunitsize=1\n", files, 1),
        "missing required field: device X.capturefile"
    );
    assert_eq!(
        refusal("2", "[device 1]\ncapturefile=logic-1\n", files, 1),
        "missing required field: device X.total probes"
    );
    let with = |from: &str, to: &str| METADATA.replace(from, to);
    assert_eq!(
        refusal("2", &with("probes=8", "probes=x"), files, 1),
        "invalid device X.total probes"
    );
    assert_eq!(
        refusal("2", &with("unitsize=1\n", ""), files, 1),
        "missing required field: device X.unitsize"
    );
    assert_eq!(
        refusal("2", &with("unitsize=1", "unitsize=-1"), files, 1),
        "invalid device X.unitsize"
    );
    assert_eq!(
        refusal("2", &with("probes=8", "probes=9"), files, 1),
        "invalid sigrok logic layout: 9 probes in 1-byte samples"
    );
    assert_eq!(
        refusal("2", METADATA, files, 9),
        "File has only 8 channels, need at least 9"
    );
    assert_eq!(
        refusal("2", &with("samplerate=1 MHz\n", ""), files, 1),
        "missing required field: device X.samplerate"
    );
    assert_eq!(
        refusal("2", &with("1 MHz", "1 THz"), files, 1),
        "Invalid sample rate: 1 THz"
    );
    assert_eq!(
        refusal("2", &with("probe1=TX", "trigger sample=x"), files, 1),
        "invalid device X.trigger sample"
    );
    assert_eq!(
        refusal("2", METADATA, &[("logic-1-x", &SAMPLES)], 1),
        "no logic-1 logic data found"
    );
    let wide = with("unitsize=1", "unitsize=3");
    assert_eq!(
        refusal("2", &wide, files, 1),
        "logic data size 8 is not divisible by unitsize 3"
    );
    assert_eq!(
        refusal("2", METADATA, &[("logic-1", &[])], 1),
        "logic data contains no samples"
    );
}

#[test]
fn sample_files_are_read_in_the_order_of_their_numbers() {
    let names: Vec<Vec<char>> = ["logic-1-10", "other", "logic-1-2", "logic-1", "logic-1-2x"]
        .iter()
        .map(|name| chars(name))
        .collect();
    assert_eq!(order_parts(&chars("logic-1"), &names), [3, 2, 0]);
    let (source, _) = open_session(
        "2",
        METADATA,
        &[("logic-1-2", &[7, 8]), ("logic-1-1", &[5, 6])],
        1,
    )
    .unwrap();
    assert_eq!(source.capture.samples, [5, 6, 7, 8]);
}

#[test]
fn metadata_is_read_by_sections() {
    let entries = parse_ini("# note\r\n[a]\r\n key = one = 1 \r\n[b]\nkey=two\nkey=three\n[c\n=x");
    let value = |section: &str, key: &str| {
        lookup(&entries, &chars(section), &chars(key)).map(|text| text.into_iter().collect::<String>())
    };
    assert_eq!(value("a", "key").as_deref(), Some("one = 1"));
    assert_eq!(value("b", "key").as_deref(), Some("three"));
    assert_eq!(value("b", "").as_deref(), Some("x"));
    assert_eq!(value("c", "key"), None);
    assert!(comes_before(&chars("device 1"), &chars("device 10")));
    assert!(comes_before(&chars("device 10"), &chars("device 2")));
    assert!(!comes_before(&chars("b"), &chars("a")));
}

#[test]
fn the_first_device_with_a_capture_file_counts() {
    let metadata = format!("[device 2]\ncapturefile=none\n[device 0]\nunitsize=9\n{METADATA}");
    let (source, _) = open_session("2", &metadata, &[("logic-1", &SAMPLES)], 1).unwrap();
    assert_eq!(source.header().total_probes, 8);
}

#[test]
fn rates_have_a_number_and_a_unit() {
    assert_eq!(parse_sample_rate(&chars("50 MHz")), Some(50_000_000.0));
    assert_eq!(parse_sample_rate(&chars("  1.5\tGHz fast ")), Some(1_500_000_000.0));
    assert_eq!(parse_sample_rate(&chars("3 KHz")), Some(3_000.0));
    assert_eq!(parse_sample_rate(&chars("3 kHz")), Some(3_000.0));
    assert_eq!(parse_sample_rate(&chars("7 Hz")), Some(7.0));
    for text in ["", "MHz", "50", "x MHz", "50MHz", "50 mhz"] {
        assert_eq!(parse_sample_rate(&chars(text)), None, "{text}");
    }
}

const HEADER: &str = "[header]\ntotal probes = 2\nsamplerate = 50 MHz\ntotal samples = 20\ntotal blocks = 2\nprobe1 = CLK = x\nprobe9x = no\ntrigger sample = 7\n";

#[test]
fn headers_are_read_line_by_line() {
    let header = parse_header(HEADER).unwrap();
    let metadata = header.metadata(2);
    assert_eq!(metadata.total_probes, 2);
    assert_eq!(metadata.samplerate, "50 MHz");
    assert_eq!(metadata.total_samples, 20);
    assert_eq!(metadata.total_blocks, 2);
    assert_eq!(metadata.samples_per_block, 16);
    assert_eq!(metadata.trigger_sample, Some(7));
    assert_eq!(metadata.probe_names, ["Probe0", "CLK = x"]);
}

#[test]
fn headers_without_a_field_are_refused() {
    for (line, field) in [
        ("total probes = 2\n", "total probes"),
        ("samplerate = 50 MHz\n", "samplerate"),
        ("total samples = 20\n", "total samples"),
        ("total blocks = 2\n", "total blocks"),
    ] {
        assert_eq!(
            parse_header(&HEADER.replace(line, "")).unwrap_err(),
            CaptureFileError::ParseError(format!("missing required field: {field}"))
        );
    }
    // A number that cannot be read takes the field back.
    assert!(parse_header(&format!("{HEADER}total blocks = many\n")).is_err());
}

#[test]
fn blocks_are_loaded_once_while_they_are_kept() {
    let mut reader = DslCaptureReader::new(parse_header(HEADER).unwrap().metadata(2));
    let ReadStep::Load { name, .. } = reader.read_sample(1, 17).unwrap() else {
        panic!("nothing is loaded yet");
    };
    assert_eq!(name, "L-1/1");
    assert_eq!(reader.supply_sample(1, 17, Some(vec![0b10, 0])), Ok(true));
    assert!(matches!(reader.read_sample(1, 17), Ok(ReadStep::Done(true))));
    assert!(matches!(reader.read_sample(1, 16), Ok(ReadStep::Done(false))));
    let ReadStep::Done(data) = reader.read_packed_block(1, 1) else {
        panic!("the block is there");
    };
    assert_eq!(data, [0b10, 0]);
    assert!(matches!(
        reader.read_sample(1, 20),
        Err(CaptureFileError::OutOfBounds(20))
    ));
    assert_eq!(
        reader.supply_sample(0, 0, None),
        Err(CaptureFileError::InvalidBlock(0))
    );
    // There is room for one block only.
    assert_eq!(reader.supply_block(0, 0, Some(vec![1])), Ok(vec![1]));
    assert!(matches!(
        reader.read_packed_block(1, 1),
        ReadStep::Load { block: 1, channel: 1, .. }
    ));
}

#[test]
fn a_header_with_too_few_blocks_bounds_the_samples() {
    let header = HEADER.replace("total blocks = 2", "total blocks = 1");
    let mut reader = DslCaptureReader::new(parse_header(&header).unwrap().metadata(2));
    assert!(matches!(
        reader.read_sample(0, 16),
        Err(CaptureFileError::OutOfBounds(16))
    ));
    assert!(matches!(reader.read_sample(0, 15), Ok(ReadStep::Load { .. })));
}

#[test]
fn the_least_recent_block_goes_first() {
    let mut cache = BlockCache::new().with_max_cached_blocks(2);
    cache.insert(0, 0, vec![0]);
    cache.insert(0, 1, vec![1]);
    assert_eq!(cache.lookup(0, 0), Some(vec![0]));
    cache.insert(0, 2, vec![2]);
    assert_eq!(cache.lookup(0, 1), None);
    assert_eq!(cache.lookup(0, 0), Some(vec![0]));
    assert_eq!(cache.lookup(0, 2), Some(vec![2]));
    let mut small = cache.with_max_cached_blocks(0);
    assert_eq!(small.max_cached_blocks, 1);
    assert_eq!(small.lookup(0, 0), None);
    assert_eq!(small.lookup(0, 2), Some(vec![2]));
}

#[test]
fn names_beside_a_capture() {
    assert_eq!(block_name(3, 12), "L-3/12");
    assert_eq!(sigrok_sidecar_path("hello.sr"), "hello.sr.idx");
    assert_eq!(sigrok_sidecar_path("captures/hello.sr"), "captures/hello.sr.idx");
    assert_eq!(sigrok_sidecar_path("captures/.."), "captures/../capture.sr.idx");
    assert_eq!(dsl_sidecar_path("a.dsl"), "a.dsl.idx");
    assert_eq!(dsl_sidecar_path("/a.dsl"), "/a.dsl.idx");
    assert_eq!(dsl_sidecar_path(""), "capture.dsl.idx");
    assert!(get_bit(&[0b100], 2));
    assert!(!get_bit(&[0b100], 9));
}

fn metadata() -> CaptureMetadata {
    CaptureMetadata {
        total_probes: 2,
        samplerate: "1 MHz".to_string(),
        total_samples: 0x0102,
        total_blocks: 1,
        samples_per_block: 8,
        probe_names: vec!["a".to_string(), "ü".to_string()],
        trigger_sample: None,
    }
}

#[test]
fn an_identity_is_the_digest_of_what_tells_captures_apart() {
    let rate_bits = 1_000_000.0_f64.to_bits();
    let stamp = Some(FileStamp {
        len: 3,
        modified_ns: Some(5),
    });
    let mut expected = b"/tmp/x".to_vec();
    expected.extend(9_u64.to_le_bytes());
    expected.extend(rate_bits.to_le_bytes());
    expected.extend(0x0102_u64.to_le_bytes());
    expected.extend(2_u64.to_le_bytes());
    expected.extend(3_u64.to_le_bytes());
    expected.extend(5_u128.to_le_bytes());
    expected.extend("aü".as_bytes());
    assert_eq!(
        identity_bytes("/tmp/x", 9, rate_bits, &metadata(), stamp),
        expected
    );
    let identity = capture_cache_identity("/tmp/x", 9, rate_bits, &metadata(), stamp);
    assert_eq!(&identity, blake3::hash(&expected).as_bytes());
    assert_ne!(
        identity,
        capture_cache_identity("/tmp/x", 9, rate_bits, &metadata(), None)
    );
    let without_time = Some(FileStamp {
        len: 3,
        modified_ns: None,
    });
    assert_eq!(
        identity_bytes("/tmp/x", 9, rate_bits, &metadata(), without_time).len(),
        expected.len() - 16
    );
}
