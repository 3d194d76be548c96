//! The host side of script decoders.

use logic_analyzer_processing::sigrok_decoder::decoder::{
    accepts_protocol, assemble_chunk, channel_initial, check_config, connected_count, default_name, ended_input,
    input_names, ChunkError, ConfigError, InputEnd, InputSource, SigrokChannel, SigrokInitialPin,
};
use logic_analyzer_processing::sigrok_decoder::outputs::{
    convert_output, convert_registered, output_port, sample_time_ns, ConversionError,
    ConvertedOutput, OutputDeclarations, OutputError, OutputPart, OutputSpan, ScriptNumber,
    SigrokMetadataValue,
};
use logic_analyzer_processing::sigrok_decoder::work::{
    advance_work, WorkAction, WorkEvent, WorkOutcome, WorkStage,
};
use logic_analyzer_processing::sigrokdecode::bridge::{
    check_registration, matched_parts, output_kind, DecoderBridge, MetadataRegistration,
    MetadataType, OutputRegistration, PutError, RegistrationError, SigrokOutputKind, OUTPUT_ANN,
    OUTPUT_BINARY, OUTPUT_LOGIC, OUTPUT_META, OUTPUT_PYTHON,
};
use logic_analyzer_processing::sigrokdecode::conditions::{
    PinCondition, WaitCondition, WaitRequest, WaitTerm,
};
use logic_analyzer_processing::sigrokdecode::discovery::{
    descriptor_from_class, package_bytes, package_fingerprint, registered_outputs,
    skips_directory, skips_file, DecoderClass, DescriptorError, PackageFile, SigrokScalarValue,
};
use logic_analyzer_processing::sigrokdecode::scheduler::{InitialPin, SchedulerError, WaitMatch};
use logic_analyzer_processing::sigrokdecode::script_value::{
    convert_value, value_to_script, ScriptPair, ScriptValue, SigrokEntry, SigrokValue, ValueError,
    VALUE_RECURSION_LIMIT,
};
use logic_analyzer_processing::sigrokdecode::wait_request::{parse_wait_request, WaitRequestError};
use logic_analyzer_processing::streams::SampleBlock;

fn text(value: &str) -> ScriptValue {
    ScriptValue::Text(value.to_string())
}

fn number(value: i128) -> ScriptValue {
    ScriptValue::Integer(value)
}

fn dict(entries: Vec<(ScriptValue, ScriptValue)>) -> ScriptValue {
    ScriptValue::Dict(
        entries
            .into_iter()
            .map(|(key, value)| ScriptPair { key, value })
            .collect(),
    )
}

fn tuple(values: Vec<ScriptValue>) -> ScriptValue {
    ScriptValue::Tuple(values)
}

#[test]
fn requests_are_read_as_scripts_write_them() {
    assert_eq!(parse_wait_request(None), Ok(WaitRequest::Next));
    assert_eq!(parse_wait_request(Some(&ScriptValue::Null)), Ok(WaitRequest::Next));
    let condition = dict(vec![
        (number(1), text("r")),
        (text("skip"), number(5)),
    ]);
    assert_eq!(
        parse_wait_request(Some(&condition)),
        Ok(WaitRequest::Conditions(vec![WaitCondition::new(vec![
            WaitTerm::pin(1, PinCondition::Rising),
            WaitTerm::Skip(5),
        ])]))
    );
    let alternatives = ScriptValue::List(vec![
        dict(vec![(number(0), text("h"))]),
        dict(vec![(number(0), text("l"))]),
    ]);
    assert_eq!(
        parse_wait_request(Some(&alternatives)),
        Ok(WaitRequest::Conditions(vec![
            WaitCondition::new(vec![WaitTerm::pin(0, PinCondition::High)]),
            WaitCondition::new(vec![WaitTerm::pin(0, PinCondition::Low)]),
        ]))
    );
}

#[test]
fn requests_that_say_nothing_are_refused() {
    for (request, error) in [
        (number(3), WaitRequestError::NotIterable),
        (ScriptValue::List(vec![number(3)]), WaitRequestError::NotACondition),
        (dict(vec![(text("other"), number(1))]), WaitRequestError::InvalidKey),
        (dict(vec![(text("skip"), number(-1))]), WaitRequestError::InvalidSkip),
        (dict(vec![(number(0), number(1))]), WaitRequestError::CodeNotText),
        (
            dict(vec![(number(0), text("z"))]),
            WaitRequestError::UnsupportedCode("z".to_string()),
        ),
    ] {
        assert_eq!(parse_wait_request(Some(&request)), Err(error));
    }
}

#[test]
fn codes_of_pin_conditions() {
    for (code, condition) in [
        ("l", PinCondition::Low),
        ("h", PinCondition::High),
        ("r", PinCondition::Rising),
        ("f", PinCondition::Falling),
        ("e", PinCondition::EitherEdge),
        ("n", PinCondition::NoEdge),
    ] {
        assert_eq!(PinCondition::from_code(code), Some(condition));
    }
    assert_eq!(PinCondition::from_code("x"), None);
}

#[test]
fn values_survive_the_way_there_and_back() {
    let value = SigrokValue::List(vec![
        SigrokValue::Null,
        SigrokValue::Bool(true),
        SigrokValue::Integer(-7),
        SigrokValue::Float(1.5_f64.to_bits()),
        SigrokValue::Bytes(vec![1, 2]),
        SigrokValue::Tuple(vec![SigrokValue::String("x".to_string())]),
        SigrokValue::Mapping(vec![SigrokEntry {
            key: "k".to_string(),
            value: SigrokValue::Integer(1),
        }]),
    ]);
    let script = value_to_script(&value, 0).unwrap();
    assert_eq!(convert_value(&script, 0).unwrap(), value);
}

#[test]
fn values_without_counterpart_are_refused() {
    let mut deep = ScriptValue::Null;
    for _ in 0..VALUE_RECURSION_LIMIT {
        deep = ScriptValue::List(vec![deep]);
    }
    assert_eq!(convert_value(&deep, 0), Err(ValueError::TooDeep));
    assert_eq!(
        convert_value(&number(i128::from(i64::MAX) + 1), 0),
        Err(ValueError::IntegerRange)
    );
    assert_eq!(convert_value(&ScriptValue::HugeInteger, 0), Err(ValueError::IntegerRange));
    assert_eq!(
        convert_value(&dict(vec![(number(1), number(1))]), 0),
        Err(ValueError::KeyNotText)
    );
    assert_eq!(
        convert_value(&ScriptValue::Other("set".to_string()), 0),
        Err(ValueError::Unsupported("set".to_string()))
    );
}

fn registration(output_type: i32) -> OutputRegistration {
    OutputRegistration {
        output_type,
        protocol_id: None,
        metadata: None,
    }
}

#[test]
fn outputs_are_registered_once() {
    let (mut bridge, _) = DecoderBridge::new(vec![Some(InitialPin::Low), None]).unwrap();
    assert_eq!(bridge.register(registration(OUTPUT_ANN)), 0);
    assert_eq!(bridge.register(registration(OUTPUT_BINARY)), 1);
    assert_eq!(bridge.register(registration(OUTPUT_ANN)), 0);
    assert_eq!(bridge.registrations.len(), 2);
    assert!(bridge.has_channel(0));
    assert!(!bridge.has_channel(1));
    assert!(!bridge.has_channel(2));
    assert_eq!(bridge.check_output(3, 5, 1), Ok(()));
    assert_eq!(bridge.check_output(5, 3, 1), Err(PutError::ReversedOutputRange));
    assert_eq!(bridge.check_output(3, 5, 2), Err(PutError::UnknownOutput(2)));
    assert!(matches!(
        DecoderBridge::new(vec![]),
        Err(SchedulerError::NoChannels)
    ));
}

#[test]
fn only_metadata_has_a_descriptor() {
    assert_eq!(check_registration(OUTPUT_ANN, false), Ok(()));
    assert_eq!(check_registration(OUTPUT_META, true), Ok(()));
    assert_eq!(
        check_registration(OUTPUT_ANN, true),
        Err(RegistrationError::MetadataNotAllowed)
    );
    assert_eq!(
        check_registration(9, false),
        Err(RegistrationError::UnsupportedType(9))
    );
    assert_eq!(output_kind(OUTPUT_LOGIC), Some(SigrokOutputKind::GeneratedLogic));
    assert_eq!(output_kind(-1), None);
    assert_eq!(
        matched_parts(WaitMatch {
            sample: 4,
            pins: vec![1],
            matched: None,
        }),
        (4, vec![1], None)
    );
}

fn channel(name: &str, connected: bool) -> SigrokChannel {
    SigrokChannel {
        name: name.to_string(),
        connected,
        initial_pin: SigrokInitialPin::High,
    }
}

#[test]
fn decoders_are_fed_by_channels_or_by_packets() {
    let channels = [channel("clk", true), channel("miso", false), channel("cs", true)];
    assert_eq!(connected_count(&channels), 2);
    assert_eq!(check_config(1_000, &channels, 0), Ok(InputSource::Logic));
    assert_eq!(check_config(1_000, &[], 1), Ok(InputSource::Protocol));
    assert_eq!(check_config(0, &channels, 0), Err(ConfigError::SampleRate));
    assert_eq!(check_config(1, &[], 0), Err(ConfigError::NoInput));
    assert_eq!(check_config(1, &channels, 1), Err(ConfigError::MixedInputs));
    assert_eq!(
        channel_initial(&channels),
        [Some(InitialPin::High), None, Some(InitialPin::High)]
    );
    assert_eq!(default_name("spi"), "sigrok_spi");
    assert_eq!(input_names(&channels, InputSource::Logic), ["clk", "cs"]);
    assert_eq!(input_names(&channels, InputSource::Protocol), ["packets"]);
    assert_eq!(ended_input(0), InputEnd::EndOfStream);
    assert_eq!(ended_input(2), InputEnd::EndedEarly { input: 2 });
}

#[test]
fn blocks_of_the_inputs_form_a_chunk() {
    let channels = [channel("clk", true), channel("miso", false), channel("cs", true)];
    let block = |data: Vec<u8>, samples: usize| SampleBlock::new(data, 16, samples, 1);
    let chunk =
        assemble_chunk(&channels, &[block(vec![1, 2, 3], 9), block(vec![4, 5], 9)]).unwrap();
    assert_eq!(chunk.start_sample, 16);
    assert_eq!(chunk.sample_count(), 9);
    assert_eq!(chunk.channels, [Some(vec![1, 2]), None, Some(vec![4, 5])]);

    let refused = |blocks: &[SampleBlock]| assemble_chunk(&channels, blocks).unwrap_err();
    assert_eq!(
        refused(&[block(vec![], 0), block(vec![], 0)]),
        ChunkError::EmptyBlock
    );
    assert_eq!(
        refused(&[block(vec![1, 2], 9), block(vec![4], 8)]),
        ChunkError::Misaligned { input: 1 }
    );
    assert_eq!(
        refused(&[block(vec![1, 2], 9), block(vec![4], 9)]),
        ChunkError::ShortBlock {
            channel: 2,
            bytes: 1,
            samples: 9
        }
    );
}

const NO_NUMBER: ScriptNumber = ScriptNumber {
    integer: None,
    float_bits: None,
};

fn span() -> OutputSpan {
    OutputSpan {
        start_sample: 10,
        end_sample: 20,
        start_time_ns: 100,
        end_time_ns: 200,
    }
}

fn declared() -> OutputDeclarations {
    OutputDeclarations {
        decoder_id: "spi".to_string(),
        annotation_rows_by_class: vec![vec![0], vec![1, 2]],
        binary_class_count: 1,
        logic_groups: vec!["group".to_string()],
    }
}

fn convert(
    registration: &OutputRegistration,
    data: ScriptValue,
    number: ScriptNumber,
) -> Result<ConvertedOutput, OutputError> {
    convert_output(registration, &data, number, &span(), &declared())
}

#[test]
fn outputs_of_each_kind_are_converted() {
    let annotation = ScriptValue::List(vec![
        number(1),
        ScriptValue::List(vec![text("long"), text("l")]),
    ]);
    let Ok(ConvertedOutput::Annotation(annotation)) =
        convert(&registration(OUTPUT_ANN), annotation, NO_NUMBER)
    else {
        panic!("an annotation was put");
    };
    assert_eq!(annotation.class, 1);
    assert_eq!(annotation.rows, [1, 2]);
    assert_eq!(annotation.texts, ["long", "l"]);
    assert_eq!((annotation.start_time_ns, annotation.end_time_ns), (100, 200));

    let bytes = ScriptValue::List(vec![number(0), ScriptValue::Bytes(vec![7])]);
    let Ok(ConvertedOutput::Binary(binary)) =
        convert(&registration(OUTPUT_BINARY), bytes, NO_NUMBER)
    else {
        panic!("bytes were put");
    };
    assert_eq!((binary.class, binary.bytes), (0, vec![7]));

    let logic = ScriptValue::List(vec![number(0), ScriptValue::Bytes(vec![7])]);
    let Ok(ConvertedOutput::Logic(logic)) = convert(&registration(OUTPUT_LOGIC), logic, NO_NUMBER)
    else {
        panic!("logic was put");
    };
    assert_eq!(logic.samples, [7]);
    assert_eq!(logic.group, "group");

    let metadata = OutputRegistration {
        output_type: OUTPUT_META,
        protocol_id: None,
        metadata: Some(MetadataRegistration {
            value_type: MetadataType::Integer,
            name: "Bitrate".to_string(),
            description: "Bitrate during transfers".to_string(),
        }),
    };
    let bitrate = ScriptNumber {
        integer: Some(9600),
        float_bits: None,
    };
    let Ok(ConvertedOutput::Metadata(metadata)) = convert(&metadata, number(9600), bitrate) else {
        panic!("a number was put");
    };
    assert_eq!(metadata.name, "Bitrate");
    assert_eq!(metadata.value, SigrokMetadataValue::Signed(9600));

    let packets = OutputRegistration {
        output_type: OUTPUT_PYTHON,
        protocol_id: Some("spi".to_string()),
        metadata: None,
    };
    let Ok(ConvertedOutput::Packet(packet)) = convert(&packets, text("DATA"), NO_NUMBER) else {
        panic!("a packet was put");
    };
    assert_eq!(packet.protocol_id, "spi");
    assert_eq!(packet.value, SigrokValue::String("DATA".to_string()));
    assert_eq!((packet.start_sample, packet.end_sample), (10, 20));
}

#[test]
fn outputs_that_were_not_declared_are_refused() {
    let pair = |index: i128, payload: ScriptValue| ScriptValue::List(vec![number(index), payload]);
    let annotation = |data: ScriptValue| convert(&registration(OUTPUT_ANN), data, NO_NUMBER);
    assert_eq!(annotation(number(1)), Err(OutputError::NotAList));
    assert_eq!(
        annotation(ScriptValue::List(vec![])),
        Err(OutputError::WrongLength {
            part: OutputPart::Annotation,
            actual: 0
        })
    );
    assert_eq!(
        annotation(pair(-1, ScriptValue::Null)),
        Err(OutputError::InvalidIndex)
    );
    assert_eq!(
        annotation(pair(2, ScriptValue::Null)),
        Err(OutputError::Undeclared {
            part: OutputPart::Annotation,
            index: 2
        })
    );
    assert_eq!(annotation(pair(0, text("x"))), Err(OutputError::InvalidTexts));
    assert_eq!(
        convert(&registration(OUTPUT_BINARY), pair(0, text("x")), NO_NUMBER),
        Err(OutputError::NotBytes)
    );
    assert_eq!(
        convert(&registration(OUTPUT_META), number(1), NO_NUMBER),
        Err(OutputError::MissingMetadata)
    );
    assert_eq!(
        convert(&registration(OUTPUT_PYTHON), ScriptValue::HugeInteger, NO_NUMBER),
        Err(OutputError::Value(ValueError::IntegerRange))
    );
    assert_eq!(
        convert(&registration(7), number(1), NO_NUMBER),
        Err(OutputError::UnsupportedType(7))
    );
    let metadata = OutputRegistration {
        output_type: OUTPUT_META,
        protocol_id: None,
        metadata: Some(MetadataRegistration {
            value_type: MetadataType::Float,
            name: String::new(),
            description: String::new(),
        }),
    };
    assert_eq!(
        convert(&metadata, text("x"), NO_NUMBER),
        Err(OutputError::InvalidNumber)
    );
}

#[test]
fn samples_have_times() {
    assert_eq!(sample_time_ns(3, 1_000_000), 3_000);
    assert_eq!(sample_time_ns(u64::MAX, 1), u64::MAX);
}

fn channel_entry(id: &str) -> ScriptValue {
    dict(vec![
        (text("id"), text(id)),
        (text("name"), text(&id.to_uppercase())),
        (text("desc"), text("line")),
    ])
}

fn option_entry(id: &str, default: ScriptValue, values: Option<Vec<ScriptValue>>) -> ScriptValue {
    let mut entries = vec![
        (text("id"), text(id)),
        (text("desc"), text("option")),
        (text("default"), default),
    ];
    if let Some(values) = values {
        entries.push((text("values"), tuple(values)));
    }
    dict(entries)
}

/// The attributes of the serial-peripheral decoder.
fn spi_class() -> DecoderClass {
    let class = |id: &str| tuple(vec![text(id), text("class")]);
    let row = |id: &str, of: i128| tuple(vec![text(id), text("row"), tuple(vec![number(of)])]);
    DecoderClass {
        api_version: number(3),
        id: text("spi"),
        name: text("SPI"),
        long_name: text("Serial Peripheral Interface"),
        description: text("Full-duplex, synchronous, serial bus."),
        license: text("gplv2+"),
        inputs: vec![text("logic")],
        outputs: vec![text("spi")],
        tags: vec![text("Embedded/industrial")],
        channels: vec![channel_entry("clk")],
        optional_channels: vec![
            channel_entry("miso"),
            channel_entry("mosi"),
            channel_entry("cs"),
        ],
        options: vec![
            option_entry(
                "cs_polarity",
                text("active-low"),
                Some(vec![text("active-low"), text("active-high")]),
            ),
            option_entry("cpol", number(0), Some(vec![number(0), number(1)])),
            option_entry("cpha", number(0), Some(vec![number(0), number(1)])),
            option_entry(
                "bitorder",
                text("msb-first"),
                Some(vec![text("msb-first"), text("lsb-first")]),
            ),
            option_entry("wordsize", number(8), None),
        ],
        annotations: vec![
            class("miso-data"),
            class("mosi-data"),
            class("miso-bit"),
            class("mosi-bit"),
            class("warning"),
            class("miso-transfer"),
            class("mosi-transfer"),
        ],
        annotation_rows: vec![
            row("miso-bits", 2),
            row("miso-data-vals", 0),
            row("miso-transfers", 5),
            row("mosi-bits", 3),
            row("mosi-data-vals", 1),
            row("mosi-transfers", 6),
            row("other", 4),
        ],
        binary: vec![class("miso"), class("mosi")],
        logic_output_channels: vec![],
    }
}

#[test]
fn discovery_standard_spi_decoder_can_be_discovered_and_started_without_libsigrokdecode() {
    let descriptor = descriptor_from_class(&spi_class()).unwrap();

    assert_eq!(descriptor.api_version, 3);
    assert_eq!(descriptor.id, "spi");
    assert_eq!(descriptor.name, "SPI");
    assert_eq!(descriptor.long_name, "Serial Peripheral Interface");
    assert_eq!(
        descriptor.description,
        "Full-duplex, synchronous, serial bus."
    );
    assert_eq!(descriptor.license, "gplv2+");
    assert_eq!(descriptor.inputs, ["logic"]);
    assert_eq!(descriptor.outputs, ["spi"]);
    assert_eq!(descriptor.tags, ["Embedded/industrial"]);
    assert_eq!(descriptor.channels.len(), 1);
    assert_eq!(descriptor.channels[0].id, "clk");
    assert_eq!(descriptor.optional_channels.len(), 3);
    assert_eq!(descriptor.optional_channels[2].id, "cs");
    assert_eq!(descriptor.options.len(), 5);
    assert_eq!(descriptor.options[4].id, "wordsize");
    assert_eq!(descriptor.options[4].default, SigrokScalarValue::Integer(8));
    assert!(descriptor.options[4].values.is_empty());
    assert_eq!(descriptor.annotations.len(), 7);
    assert_eq!(descriptor.annotation_rows.len(), 7);
    assert_eq!(descriptor.annotation_rows[0].classes, [2]);
    assert_eq!(descriptor.binary.len(), 2);

    // Outputs are numbered as they are registered.
    let (mut bridge, _) = DecoderBridge::new(vec![Some(InitialPin::Low); 4]).unwrap();
    let ids: Vec<usize> = [OUTPUT_PYTHON, OUTPUT_ANN, OUTPUT_BINARY, OUTPUT_META]
        .into_iter()
        .map(|output_type| bridge.register(registration(output_type)))
        .collect();
    assert_eq!(ids, [0, 1, 2, 3]);
    assert_eq!(
        registered_outputs(&bridge.registrations),
        [
            SigrokOutputKind::ProtocolPacket,
            SigrokOutputKind::Annotation,
            SigrokOutputKind::Binary,
            SigrokOutputKind::Metadata,
        ]
    );
}

#[test]
fn classes_that_do_not_fit_are_refused() {
    let refused = |change: &dyn Fn(&mut DecoderClass)| {
        let mut class = spi_class();
        change(&mut class);
        descriptor_from_class(&class).unwrap_err()
    };
    assert_eq!(
        refused(&|class| class.api_version = number(2)),
        DescriptorError::UnsupportedApi(2)
    );
    assert_eq!(
        refused(&|class| class.license = number(2)),
        DescriptorError::WrongType
    );
    assert_eq!(
        refused(&|class| class.channels = vec![dict(vec![(text("id"), text("clk"))])]),
        DescriptorError::MissingField("name".to_string())
    );
    assert_eq!(
        refused(&|class| class.options = vec![option_entry("x", ScriptValue::Null, None)]),
        DescriptorError::UnsupportedScalar("NoneType".to_string())
    );
    assert_eq!(
        refused(&|class| class.annotation_rows = vec![tuple(vec![text("a"), text("b")])]),
        DescriptorError::WrongType
    );
    // What comes first is reported first.
    assert_eq!(
        refused(&|class| {
            class.name = ScriptValue::Null;
            class.api_version = number(9);
        }),
        DescriptorError::UnsupportedApi(9)
    );
}

#[test]
fn a_fingerprint_is_the_digest_of_paths_and_contents() {
    let files = vec![
        PackageFile {
            path: "__init__.py".to_string(),
            contents: b"one".to_vec(),
        },
        PackageFile {
            path: "pd.py".to_string(),
            contents: b"two".to_vec(),
        },
    ];
    assert_eq!(package_bytes(&files), b"__init__.pyonepd.pytwo");
    let expected = blake3::hash(b"__init__.pyonepd.pytwo").to_hex().to_string();
    assert_eq!(package_fingerprint(&files), expected);
    assert_eq!(expected.len(), 64);
    assert!(skips_directory("__pycache__"));
    assert!(!skips_directory("src"));
    assert!(skips_file(Some("pyc")));
    assert!(skips_file(Some("pyo")));
    assert!(!skips_file(Some("py")));
    assert!(!skips_file(None));
}

#[test]
fn outputs_are_converted_by_their_registration() {
    let registrations = vec![registration(OUTPUT_BINARY), registration(OUTPUT_PYTHON)];
    let convert = |id: usize, data: ScriptValue| {
        convert_registered(&registrations, id, 2_000, 3_000, 1_000_000, &data, NO_NUMBER, &declared())
    };
    let output = convert(1, number(7)).unwrap();
    assert_eq!(output_port(&output), 4);
    let ConvertedOutput::Packet(packet) = output else {
        panic!("the output is a packet");
    };
    assert_eq!((packet.start_sample, packet.end_sample), (2_000, 3_000));
    assert_eq!((packet.start_time_ns, packet.end_time_ns), (2_000_000, 3_000_000));
    assert!(matches!(convert(2, number(7)), Err(ConversionError::UnknownOutput(2))));
    assert!(matches!(
        convert(0, number(7)),
        Err(ConversionError::Invalid(OutputError::NotAList))
    ));
}

#[test]
fn a_decoder_takes_the_protocols_that_it_names() {
    let accepted = vec!["spi".to_string(), "i2c".to_string()];
    assert!(accepts_protocol(&accepted, "i2c"));
    assert!(!accepts_protocol(&accepted, "uart"));
    assert!(!accepts_protocol(&[], "spi"));
}

#[test]
fn a_call_hands_input_on_and_ends_with_it() {
    let running = WorkEvent::Called { worker_finished: false };
    let (stage, action) = advance_work(WorkStage::Idle, running);
    assert_eq!(action, WorkAction::Acquire);
    let (stage, action) = advance_work(stage, WorkEvent::Acquired { units: 8 });
    assert_eq!(action, WorkAction::Push);
    let (stage, action) = advance_work(stage, WorkEvent::Pushed { drained: 3 });
    assert_eq!(action, WorkAction::Return(WorkOutcome::Count(11)));

    let (stage, _) = advance_work(stage, running);
    let (stage, action) = advance_work(stage, WorkEvent::InputEnded);
    assert_eq!(action, WorkAction::Finalize);
    let (stage, action) = advance_work(stage, WorkEvent::Finalized { sent: 0 });
    assert_eq!(action, WorkAction::Return(WorkOutcome::Shutdown));
    let (stage, action) = advance_work(stage, running);
    assert_eq!(
        (stage, action),
        (WorkStage::Finished, WorkAction::Return(WorkOutcome::Shutdown))
    );
}

#[test]
fn a_decoder_that_ends_on_its_own_is_reported() {
    let ended = WorkEvent::Called { worker_finished: true };
    let (stage, action) = advance_work(WorkStage::Idle, ended);
    assert_eq!(action, WorkAction::Join);
    assert_eq!(
        advance_work(stage, WorkEvent::Joined),
        (WorkStage::Finished, WorkAction::Return(WorkOutcome::StoppedEarly))
    );
    assert_eq!(
        advance_work(stage, WorkEvent::Failed),
        (WorkStage::Idle, WorkAction::Return(WorkOutcome::Failed))
    );
}
