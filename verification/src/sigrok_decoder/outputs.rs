//! What a decoder script puts out, checked and timed.

use vstd::prelude::*;

use crate::sigrokdecode::bridge::{
    MetadataType, OutputRegistration, OUTPUT_ANN, OUTPUT_BINARY, OUTPUT_LOGIC, OUTPUT_META,
    OUTPUT_PYTHON,
};
use crate::sigrokdecode::script_value::{
    convert_value, copy_bytes, stands_for, value_error, ScriptValue, SigrokValue, ValueError,
    ValueErrorView,
};
use crate::sigrokdecode::wait_request::{as_index, unsigned_of};

verus! {

/// A text shown over a stretch of time.
#[derive(Debug, Clone, PartialEq, Eq)]
pub struct SigrokAnnotation {
    pub start_time_ns: u64,
    pub end_time_ns: u64,
    pub class: usize,
    /// Rows that the class is shown in.
    pub rows: Vec<usize>,
    pub texts: Vec<String>,
}

/// Bytes of a binary class.
#[derive(Debug, Clone, PartialEq, Eq)]
pub struct SigrokBinary {
    pub start_time_ns: u64,
    pub end_time_ns: u64,
    pub class: usize,
    pub bytes: Vec<u8>,
}

/// Logic samples that a decoder made.
#[derive(Debug, Clone, PartialEq, Eq)]
pub struct SigrokGeneratedLogic {
    pub start_time_ns: u64,
    pub end_time_ns: u64,
    pub group: String,
    pub channel: String,
    pub samples: Vec<u8>,
    pub sample_count: usize,
}

/// A number about the signal; a floating-point number is kept as its bit pattern.
#[derive(Debug, Clone, Copy, PartialEq, Eq, Structural)]
pub enum SigrokMetadataValue {
    Signed(i64),
    Float(u64),
}

/// A described number about the signal.
#[derive(Debug, Clone, PartialEq, Eq)]
pub struct SigrokMetadata {
    pub start_time_ns: u64,
    pub end_time_ns: u64,
    pub name: String,
    pub description: String,
    pub value: SigrokMetadataValue,
}

/// A packet for the next decoder.
#[derive(Debug, PartialEq, Eq)]
pub struct SigrokProtocolPacket {
    pub start_sample: u64,
    pub end_sample: u64,
    pub start_time_ns: u64,
    pub end_time_ns: u64,
    pub protocol_id: String,
    pub value: SigrokValue,
}

/// An output in its final form.
#[derive(Debug, PartialEq, Eq)]
pub enum ConvertedOutput {
    Annotation(SigrokAnnotation),
    Binary(SigrokBinary),
    Logic(SigrokGeneratedLogic),
    Metadata(SigrokMetadata),
    Packet(SigrokProtocolPacket),
}

/// What the output is about.
#[derive(Debug, Clone, Copy, PartialEq, Eq, Structural)]
pub enum OutputPart {
    Annotation,
    Binary,
    Logic,
}

/// Why an output is refused.
#[derive(Debug, PartialEq, Eq)]
pub enum OutputError {
    /// The data is not a list.
    NotAList,
    /// The list has not two elements.
    WrongLength { part: OutputPart, actual: usize },
    /// The first element is not an index.
    InvalidIndex,
    /// The class or group is not declared.
    Undeclared { part: OutputPart, index: usize },
    /// The texts of an annotation are not a list of texts.
    InvalidTexts,
    /// The second element is not bytes.
    NotBytes,
    /// A metadata output has no descriptor.
    MissingMetadata,
    /// The data is not the number that the descriptor asks for.
    InvalidNumber,
    /// The value has no plain counterpart.
    Value(ValueError),
    UnsupportedType(i32),
}

/// What an [`OutputError`] says.
#[allow(inconsistent_fields)]
pub enum OutputErrorView {
    NotAList,
    WrongLength { part: OutputPart, actual: int },
    InvalidIndex,
    Undeclared { part: OutputPart, index: int },
    InvalidTexts,
    NotBytes,
    MissingMetadata,
    InvalidNumber,
    Value(ValueErrorView),
    UnsupportedType(i32),
}

impl View for OutputError {
    type V = OutputErrorView;

    open spec fn view(&self) -> OutputErrorView {
        match *self {
            OutputError::NotAList => OutputErrorView::NotAList,
            OutputError::WrongLength { part, actual } => OutputErrorView::WrongLength {
                part,
                actual: actual as int,
            },
            OutputError::InvalidIndex => OutputErrorView::InvalidIndex,
            OutputError::Undeclared { part, index } => OutputErrorView::Undeclared {
                part,
                index: index as int,
            },
            OutputError::InvalidTexts => OutputErrorView::InvalidTexts,
            OutputError::NotBytes => OutputErrorView::NotBytes,
            OutputError::MissingMetadata => OutputErrorView::MissingMetadata,
            OutputError::InvalidNumber => OutputErrorView::InvalidNumber,
            OutputError::Value(error) => OutputErrorView::Value(error@),
            OutputError::UnsupportedType(output_type) => OutputErrorView::UnsupportedType(
                output_type,
            ),
        }
    }
}

/// The numbers that an output's data can be read as.
#[derive(Debug, Clone, Copy, PartialEq, Eq, Structural)]
pub struct ScriptNumber {
    pub integer: Option<i64>,
    /// Bit pattern of the data as a floating-point number.
    pub float_bits: Option<u64>,
}

/// What is declared about a decoder's outputs.
pub struct OutputDeclarations {
    pub decoder_id: String,
    /// For each annotation class, the rows that it is shown in.
    pub annotation_rows_by_class: Vec<Vec<usize>>,
    pub binary_class_count: usize,
    pub logic_groups: Vec<String>,
}

/// One output of a script, with its place in time.
pub struct OutputSpan {
    pub start_sample: u64,
    pub end_sample: u64,
    pub start_time_ns: u64,
    pub end_time_ns: u64,
}

/// Number of samples that generated logic holds.
pub open spec fn generated_samples(start_sample: int, end_sample: int) -> int {
    if end_sample - start_sample < 1 {
        0
    } else if end_sample - start_sample - 1 > usize::MAX {
        usize::MAX as int
    } else {
        end_sample - start_sample - 1
    }
}

/// Whether every item is a text.
pub open spec fn all_texts(items: Seq<ScriptValue>) -> bool {
    forall|i: int| 0 <= i < items.len() ==> (#[trigger] items[i]) is Text
}

/// The error of a list of an index and a payload: the index is checked against `declared`.
pub open spec fn pair_error(data: ScriptValue, part: OutputPart, declared: int) -> Option<
    OutputErrorView,
> {
    match data {
        ScriptValue::List(items) => if items@.len() != 2 {
            Some(OutputErrorView::WrongLength { part, actual: items@.len() as int })
        } else {
            match unsigned_of(items@[0], usize::MAX as int) {
                None => Some(OutputErrorView::InvalidIndex),
                Some(index) => if index >= declared {
                    Some(OutputErrorView::Undeclared { part, index })
                } else {
                    None
                },
            }
        },
        _ => Some(OutputErrorView::NotAList),
    }
}

/// The index of a list that has no [`pair_error`].
pub open spec fn pair_index(data: ScriptValue) -> int {
    unsigned_of(data->List_0@[0], usize::MAX as int)->0
}

/// The payload of a list that has no [`pair_error`].
pub open spec fn pair_payload(data: ScriptValue) -> ScriptValue {
    data->List_0@[1]
}

/// The error of an output; `None` where it is accepted.
pub open spec fn output_error(
    registration: OutputRegistration,
    data: ScriptValue,
    number: ScriptNumber,
    declared: OutputDeclarations,
) -> Option<OutputErrorView> {
    if registration.output_type == OUTPUT_ANN {
        let error = pair_error(
            data,
            OutputPart::Annotation,
            declared.annotation_rows_by_class@.len() as int,
        );
        if error is Some {
            error
        } else if pair_payload(data) is List && all_texts(pair_payload(data)->List_0@) {
            None
        } else {
            Some(OutputErrorView::InvalidTexts)
        }
    } else if registration.output_type == OUTPUT_BINARY {
        let error = pair_error(data, OutputPart::Binary, declared.binary_class_count as int);
        if error is Some {
            error
        } else if pair_payload(data) is Bytes {
            None
        } else {
            Some(OutputErrorView::NotBytes)
        }
    } else if registration.output_type == OUTPUT_LOGIC {
        let error = pair_error(data, OutputPart::Logic, declared.logic_groups@.len() as int);
        if error is Some {
            error
        } else if pair_payload(data) is Bytes {
            None
        } else {
            Some(OutputErrorView::NotBytes)
        }
    } else if registration.output_type == OUTPUT_META {
        match registration.metadata {
            None => Some(OutputErrorView::MissingMetadata),
            Some(metadata) => match metadata.value_type {
                MetadataType::Integer => if number.integer is Some {
                    None
                } else {
                    Some(OutputErrorView::InvalidNumber)
                },
                MetadataType::Float => if number.float_bits is Some {
                    None
                } else {
                    Some(OutputErrorView::InvalidNumber)
                },
            },
        }
    } else if registration.output_type == OUTPUT_PYTHON {
        match value_error(data, 0) {
            Some(error) => Some(OutputErrorView::Value(error)),
            None => None,
        }
    } else {
        Some(OutputErrorView::UnsupportedType(registration.output_type))
    }
}

/// Whether a converted output holds what an accepted output says.
pub open spec fn output_converted(
    registration: OutputRegistration,
    data: ScriptValue,
    number: ScriptNumber,
    span: OutputSpan,
    declared: OutputDeclarations,
    output: ConvertedOutput,
) -> bool {
    match output {
        ConvertedOutput::Annotation(annotation) => {
            &&& registration.output_type == OUTPUT_ANN
            &&& annotation.start_time_ns == span.start_time_ns
            &&& annotation.end_time_ns == span.end_time_ns
            &&& annotation.class == pair_index(data)
            &&& annotation.rows@ == declared.annotation_rows_by_class@[annotation.class as int]@
            &&& annotation.texts@.len() == pair_payload(data)->List_0@.len()
            &&& forall|i: int|
                0 <= i < annotation.texts@.len() ==> (#[trigger] annotation.texts@[i])@
                    == pair_payload(data)->List_0@[i]->Text_0@
        },
        ConvertedOutput::Binary(binary) => {
            &&& registration.output_type == OUTPUT_BINARY
            &&& binary.start_time_ns == span.start_time_ns
            &&& binary.end_time_ns == span.end_time_ns
            &&& binary.class == pair_index(data)
            &&& binary.bytes@ == pair_payload(data)->Bytes_0@
        },
        ConvertedOutput::Logic(logic) => {
            &&& registration.output_type == OUTPUT_LOGIC
            &&& logic.start_time_ns == span.start_time_ns
            &&& logic.end_time_ns == span.end_time_ns
            &&& logic.group@ == declared.logic_groups@[pair_index(data)]@
            &&& logic.channel@ == logic.group@
            &&& logic.samples@ == pair_payload(data)->Bytes_0@
            &&& logic.sample_count == generated_samples(
                span.start_sample as int,
                span.end_sample as int,
            )
        },
        ConvertedOutput::Metadata(metadata) => {
            &&& registration.output_type == OUTPUT_META
            &&& registration.metadata is Some
            &&& metadata.start_time_ns == span.start_time_ns
            &&& metadata.end_time_ns == span.end_time_ns
            &&& metadata.name@ == registration.metadata->0.name@
            &&& metadata.description@ == registration.metadata->0.description@
            &&& metadata.value == match registration.metadata->0.value_type {
                MetadataType::Integer => SigrokMetadataValue::Signed(number.integer->0),
                MetadataType::Float => SigrokMetadataValue::Float(number.float_bits->0),
            }
        },
        ConvertedOutput::Packet(packet) => {
            &&& registration.output_type == OUTPUT_PYTHON
            &&& packet.start_sample == span.start_sample
            &&& packet.end_sample == span.end_sample
            &&& packet.start_time_ns == span.start_time_ns
            &&& packet.end_time_ns == span.end_time_ns
            &&& packet.protocol_id@ == match registration.protocol_id {
                Some(id) => id@,
                None => declared.decoder_id@,
            }
            &&& stands_for(data, packet.value, 0)
        },
    }
}

/// Reads a list of an index and a payload.
fn read_pair(data: &ScriptValue, part: OutputPart, declared: usize) -> (result: Result<
    usize,
    OutputError,
>)
    ensures
        match result {
            Ok(index) => pair_error(*data, part, declared as int) is None && index == pair_index(
                *data,
            ),
            Err(error) => pair_error(*data, part, declared as int) == Some(error@),
        },
{
    match data {
        ScriptValue::List(items) => {
            if items.len() != 2 {
                return Err(OutputError::WrongLength { part, actual: items.len() });
            }
            match as_index(&items[0]) {
                None => Err(OutputError::InvalidIndex),
                Some(index) => if index >= declared {
                    Err(OutputError::Undeclared { part, index })
                } else {
                    Ok(index)
                },
            }
        },
        _ => Err(OutputError::NotAList),
    }
}

fn read_texts(payload: &ScriptValue) -> (result: Option<Vec<String>>)
    ensures
        match result {
            Some(texts) => {
                &&& payload is List
                &&& all_texts(payload->List_0@)
                &&& texts@.len() == payload->List_0@.len()
                &&& forall|i: int|
                    0 <= i < texts@.len() ==> (#[trigger] texts@[i])@
                        == payload->List_0@[i]->Text_0@
            },
            None => !(payload is List && all_texts(payload->List_0@)),
        },
{
    match payload {
        ScriptValue::List(items) => {
            let mut texts: Vec<String> = Vec::new();
            let mut index: usize = 0;
            while index < items.len()
                invariant
                    *payload == ScriptValue::List(*items),
                    index <= items@.len(),
                    texts@.len() == index,
                    forall|i: int| 0 <= i < index ==> (#[trigger] items@[i]) is Text,
                    forall|i: int|
                        0 <= i < index ==> (#[trigger] texts@[i])@ == items@[i]->Text_0@,
                decreases items@.len() - index,
            {
                match &items[index] {
                    ScriptValue::Text(text) => {
                        texts.push(text.clone());
                    },
                    _ => {
                        assert(!(items@[index as int] is Text));
                        return None;
                    },
                }
                index += 1;
            }
            Some(texts)
        },
        _ => None,
    }
}

fn copy_rows(rows: &Vec<usize>) -> (result: Vec<usize>)
    ensures
        result@ == rows@,
{
    let mut result: Vec<usize> = Vec::new();
    let mut index: usize = 0;
    while index < rows.len()
        invariant
            index <= rows@.len(),
            result@ == rows@.take(index as int),
        decreases rows@.len() - index,
    {
        result.push(rows[index]);
        assert(rows@.take(index + 1) =~= rows@.take(index as int).push(rows@[index as int]));
        index += 1;
    }
    assert(rows@.take(index as int) =~= rows@);
    result
}

/// Number of samples that generated logic between two samples holds.
fn count_generated(start_sample: u64, end_sample: u64) -> (result: usize)
    ensures
        result == generated_samples(start_sample as int, end_sample as int),
{
    let count: u64 = end_sample.saturating_sub(start_sample).saturating_sub(1);
    if count > usize::MAX as u64 {
        usize::MAX
    } else {
        count as usize
    }
}

/// Checks an output against its registration and what the decoder declares, and brings it into
/// its final form.
pub fn convert_output(
    registration: &OutputRegistration,
    data: &ScriptValue,
    number: ScriptNumber,
    span: &OutputSpan,
    declared: &OutputDeclarations,
) -> (result: Result<ConvertedOutput, OutputError>)
    ensures
        match result {
            Ok(output) => output_error(*registration, *data, number, *declared) is None
                && output_converted(*registration, *data, number, *span, *declared, output),
            Err(error) => output_error(*registration, *data, number, *declared) == Some(error@),
        },
{
    let start_time_ns: u64 = span.start_time_ns;
    let end_time_ns: u64 = span.end_time_ns;
    if registration.output_type == OUTPUT_ANN {
        let class: usize = match read_pair(
            data,
            OutputPart::Annotation,
            declared.annotation_rows_by_class.len(),
        ) {
            Ok(class) => class,
            Err(error) => return Err(error),
        };
        let rows: Vec<usize> = copy_rows(&declared.annotation_rows_by_class[class]);
        match data {
            ScriptValue::List(items) => match read_texts(&items[1]) {
                Some(texts) => Ok(
                    ConvertedOutput::Annotation(
                        SigrokAnnotation { start_time_ns, end_time_ns, class, rows, texts },
                    ),
                ),
                None => Err(OutputError::InvalidTexts),
            },
            _ => Err(OutputError::NotAList),
        }
    } else if registration.output_type == OUTPUT_BINARY {
        let class: usize = match read_pair(
            data,
            OutputPart::Binary,
            declared.binary_class_count,
        ) {
            Ok(class) => class,
            Err(error) => return Err(error),
        };
        match data {
            ScriptValue::List(items) => match &items[1] {
                ScriptValue::Bytes(bytes) => Ok(
                    ConvertedOutput::Binary(
                        SigrokBinary {
                            start_time_ns,
                            end_time_ns,
                            class,
                            bytes: copy_bytes(bytes),
                        },
                    ),
                ),
                _ => Err(OutputError::NotBytes),
            },
            _ => Err(OutputError::NotAList),
        }
    } else if registration.output_type == OUTPUT_LOGIC {
        let group_index: usize = match read_pair(
            data,
            OutputPart::Logic,
            declared.logic_groups.len(),
        ) {
            Ok(index) => index,
            Err(error) => return Err(error),
        };
        match data {
            ScriptValue::List(items) => match &items[1] {
                ScriptValue::Bytes(bytes) => Ok(
                    ConvertedOutput::Logic(
                        SigrokGeneratedLogic {
                            start_time_ns,
                            end_time_ns,
                            group: declared.logic_groups[group_index].clone(),
                            channel: declared.logic_groups[group_index].clone(),
                            samples: copy_bytes(bytes),
                            sample_count: count_generated(span.start_sample, span.end_sample),
                        },
                    ),
                ),
                _ => Err(OutputError::NotBytes),
            },
            _ => Err(OutputError::NotAList),
        }
    } else if registration.output_type == OUTPUT_META {
        match &registration.metadata {
            None => Err(OutputError::MissingMetadata),
            Some(metadata) => {
                let value: Option<SigrokMetadataValue> = match metadata.value_type {
                    MetadataType::Integer => match number.integer {
                        Some(value) => Some(SigrokMetadataValue::Signed(value)),
                        None => None,
                    },
                    MetadataType::Float => match number.float_bits {
                        Some(value) => Some(SigrokMetadataValue::Float(value)),
                        None => None,
                    },
                };
                match value {
                    Some(value) => Ok(
                        ConvertedOutput::Metadata(
                            SigrokMetadata {
                                start_time_ns,
                                end_time_ns,
                                name: metadata.name.clone(),
                                description: metadata.description.clone(),
                                value,
                            },
                        ),
                    ),
                    None => Err(OutputError::InvalidNumber),
                }
            },
        }
    } else if registration.output_type == OUTPUT_PYTHON {
        match convert_value(data, 0) {
            Ok(value) => {
                let protocol_id: String = match &registration.protocol_id {
                    Some(id) => id.clone(),
                    None => declared.decoder_id.clone(),
                };
                Ok(
                    ConvertedOutput::Packet(
                        SigrokProtocolPacket {
                            start_sample: span.start_sample,
                            end_sample: span.end_sample,
                            start_time_ns,
                            end_time_ns,
                            protocol_id,
                            value,
                        },
                    ),
                )
            },
            Err(error) => Err(OutputError::Value(error)),
        }
    } else {
        Err(OutputError::UnsupportedType(registration.output_type))
    }
}

/// Time of a sample; the last nanosecond that 64 bits hold where it is later.
pub open spec fn time_of_sample(sample: int, sample_rate: int) -> int {
    if sample * 1_000_000_000 / sample_rate > u64::MAX {
        u64::MAX as int
    } else {
        sample * 1_000_000_000 / sample_rate
    }
}

/// Time of a sample in nanoseconds.
pub fn sample_time_ns(sample: u64, sample_rate: u64) -> (result: u64)
    requires
        sample_rate > 0,
    ensures
        result == time_of_sample(sample as int, sample_rate as int),
{
    assert(sample * 1_000_000_000 <= u128::MAX) by (nonlinear_arith)
        requires
            sample <= u64::MAX,
    ;
    let time: u128 = sample as u128 * 1_000_000_000u128 / sample_rate as u128;
    if time > u64::MAX as u128 {
        u64::MAX
    } else {
        time as u64
    }
}

/// Why an output of a running decoder is refused.
#[derive(Debug)]
pub enum ConversionError {
    /// No output is registered under the identifier.
    UnknownOutput(usize),
    Invalid(OutputError),
}

/// The output of a running decoder between two samples, with its place in time.
pub open spec fn span_of(start_sample: u64, end_sample: u64, sample_rate: u64) -> OutputSpan {
    OutputSpan {
        start_sample,
        end_sample,
        start_time_ns: time_of_sample(start_sample as int, sample_rate as int) as u64,
        end_time_ns: time_of_sample(end_sample as int, sample_rate as int) as u64,
    }
}

/// Brings an output of a running decoder into its final form, by the registration that its
/// identifier stands for.
pub fn convert_registered(
    registrations: &[OutputRegistration],
    output_id: usize,
    start_sample: u64,
    end_sample: u64,
    sample_rate: u64,
    data: &ScriptValue,
    number: ScriptNumber,
    declared: &OutputDeclarations,
) -> (result: Result<ConvertedOutput, ConversionError>)
    requires
        sample_rate > 0,
    ensures
        match result {
            Ok(output) => {
                &&& output_id < registrations@.len()
                &&& output_error(
                    registrations@[output_id as int],
                    *data,
                    number,
                    *declared,
                ) is None
                &&& output_converted(
                    registrations@[output_id as int],
                    *data,
                    number,
                    span_of(start_sample, end_sample, sample_rate),
                    *declared,
                    output,
                )
            },
            Err(ConversionError::UnknownOutput(id)) => id == output_id && output_id
                >= registrations@.len(),
            Err(ConversionError::Invalid(error)) => output_id < registrations@.len()
                && output_error(registrations@[output_id as int], *data, number, *declared)
                == Some(error@),
        },
{
    if output_id >= registrations.len() {
        return Err(ConversionError::UnknownOutput(output_id));
    }
    let span = OutputSpan {
        start_sample,
        end_sample,
        start_time_ns: sample_time_ns(start_sample, sample_rate),
        end_time_ns: sample_time_ns(end_sample, sample_rate),
    };
    match convert_output(&registrations[output_id], data, number, &span, declared) {
        Ok(output) => Ok(output),
        Err(error) => Err(ConversionError::Invalid(error)),
    }
}

/// The port that carries an output.
pub fn output_port(output: &ConvertedOutput) -> (result: usize)
    ensures
        result == match *output {
            ConvertedOutput::Annotation(_) => 0usize,
            ConvertedOutput::Binary(_) => 1,
            ConvertedOutput::Logic(_) => 2,
            ConvertedOutput::Metadata(_) => 3,
            ConvertedOutput::Packet(_) => 4,
        },
{
    match output {
        ConvertedOutput::Annotation(_) => 0,
        ConvertedOutput::Binary(_) => 1,
        ConvertedOutput::Logic(_) => 2,
        ConvertedOutput::Metadata(_) => 3,
        ConvertedOutput::Packet(_) => 4,
    }
}

/// Later samples have no earlier times.
pub proof fn law_sample_times_are_ordered(first: int, second: int, sample_rate: int)
    requires
        0 <= first <= second,
        sample_rate > 0,
    ensures
        time_of_sample(first, sample_rate) <= time_of_sample(second, sample_rate),
{
    vstd::arithmetic::div_mod::lemma_div_is_ordered(
        first * 1_000_000_000,
        second * 1_000_000_000,
        sample_rate,
    );
}

} // verus!
