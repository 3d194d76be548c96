//! What script decoders are given and what becomes of what they put out.

use vstd::prelude::*;
use vstd::utf8::encode_utf8;

use super::decoder::{
    channel_filled, chunk_error, connected_among, connected_names, first_misaligned_input,
    first_short_channel, input_misaligned, scheduler_pin, SigrokChannel, SigrokInitialPin,
};
use super::outputs::{
    all_texts, generated_samples, output_converted, output_error, pair_error, span_of,
    time_of_sample, ConvertedOutput, OutputDeclarations, OutputPart, OutputSpan, ScriptNumber,
};
use super::work::{work_next, WorkAction, WorkEvent, WorkOutcome, WorkStage};
use crate::bits::bit_of;
use crate::sigrokdecode::bridge::{kind_of, OutputRegistration, SigrokOutputKind};
use crate::sigrokdecode::discovery::{
    class_error, describes, entry_of, package_contents, readings, registered_kinds, row_classes,
    views, DecoderClass, DescriptorErrorView, FromScript, PackageFile, ScalarView,
    SigrokAnnotationClassDescriptor, SigrokAnnotationRowDescriptor, SigrokDecoderChannelDescriptor,
    SigrokDecoderDescriptor, SigrokDecoderOptionDescriptor, SigrokScalarValue,
};
use crate::sigrokdecode::scheduler::{InitialPin, LogicChunk};
use crate::sigrokdecode::script_value::{
    items_error, pairs_error, stands_for, value_error, ScriptPair, ScriptValue, SigrokValue,
    ValueErrorView,
};
use crate::sigrokdecode::wait_request::unsigned_of;
use crate::streams::SampleBlock;

verus! {

/// The connected channels among the first ones, in order.
pub open spec fn connected_channels(channels: Seq<SigrokChannel>, count: int) -> Seq<SigrokChannel> {
    channels.take(count).filter(|channel: SigrokChannel| channel.connected)
}

/// The inputs of a decoder are its connected channels, in order: as many as there are, and with their
/// names.
pub proof fn law_inputs_are_the_connected_channels(channels: Seq<SigrokChannel>, count: nat)
    requires
        count <= channels.len(),
    ensures
        connected_among(channels, count) == connected_channels(channels, count as int).len(),
        connected_names(channels, count).len() == connected_channels(channels, count as int).len(),
        forall|i: int|
            0 <= i < connected_names(channels, count).len() ==> #[trigger] connected_names(
                channels,
                count,
            )[i] == connected_channels(channels, count as int)[i].name@,
    decreases count,
{
    reveal(Seq::filter);
    if count > 0 {
        let less = (count - 1) as nat;
        law_inputs_are_the_connected_channels(channels, less);
        assert(channels.take(count as int).drop_last() =~= channels.take(less as int));
        assert(channels.take(count as int).last() == channels[less as int]);
        let names = connected_names(channels, count);
        let before = connected_names(channels, less);
        assert forall|i: int| 0 <= i < names.len() implies #[trigger] names[i]
            == connected_channels(channels, count as int)[i].name@ by {
            if i < before.len() {
                assert(names[i] == before[i]);
            }
        }
    } else {
        assert(channels.take(0).len() == 0);
    }
}

/// A channel of an assembled chunk has the levels of its own input: those of the block at the place
/// that the channel has among the connected ones. A channel that is not connected has none.
pub proof fn law_assembled_channel_has_its_levels(
    channels: Seq<SigrokChannel>,
    blocks: Seq<SampleBlock>,
    chunk: LogicChunk,
    channel: int,
    sample: int,
)
    requires
        blocks.len() >= 1,
        chunk_error(channels, blocks) is None,
        chunk.sample_count == blocks[0].num_samples,
        chunk.channels@.len() == channels.len(),
        0 <= channel < channels.len(),
        channel_filled(channels, blocks, chunk.channels@, channel),
        0 <= sample < chunk.sample_count,
    ensures
        channels[channel].connected ==> chunk.level(channel, sample) == Some(
            bit_of(
                blocks[connected_channels(channels, channel).len() as int].data@,
                sample,
            ),
        ),
        !channels[channel].connected ==> chunk.level(channel, sample) is None,
{
    law_inputs_are_the_connected_channels(channels, channel as nat);
    lemma_no_short_channel(channels, blocks, 0, channel);
    if channels[channel].connected {
        let data = blocks[connected_among(channels, channel as nat) as int].data@;
        let taken = chunk.channels@[channel]->0@;
        assert(taken[sample / 8] == data[sample / 8]);
    }
}

proof fn lemma_no_short_channel(
    channels: Seq<SigrokChannel>,
    blocks: Seq<SampleBlock>,
    from: int,
    channel: int,
)
    requires
        0 <= from <= channel < channels.len(),
        first_short_channel(channels, blocks, from) is None,
    ensures
        channels[channel].connected ==> 8 * blocks[connected_among(
            channels,
            channel as nat,
        ) as int].data@.len() >= blocks[0].num_samples,
    decreases channel - from,
{
    if from < channel {
        lemma_no_short_channel(channels, blocks, from + 1, channel);
    }
}

proof fn lemma_aligned(blocks: Seq<SampleBlock>, from: int)
    requires
        0 <= from,
    ensures
        match first_misaligned_input(blocks, from) {
            Some(input) => from <= input < blocks.len() && input_misaligned(blocks, input)
                && forall|i: int| from <= i < input ==> !#[trigger] input_misaligned(blocks, i),
            None => forall|i: int|
                from <= i < blocks.len() ==> !#[trigger] input_misaligned(blocks, i),
        },
    decreases blocks.len() - from,
{
    if from < blocks.len() && !input_misaligned(blocks, from) {
        lemma_aligned(blocks, from + 1);
    }
}

/// Blocks form a chunk only where they hold samples and all begin at the same sample, are equally long
/// and run at the same rate.
pub proof fn law_blocks_of_a_chunk_are_aligned(
    channels: Seq<SigrokChannel>,
    blocks: Seq<SampleBlock>,
    input: int,
)
    requires
        0 <= input < blocks.len(),
        chunk_error(channels, blocks) is None,
    ensures
        blocks[input].start_position == blocks[0].start_position,
        blocks[input].num_samples == blocks[0].num_samples,
        blocks[input].timestamp_step == blocks[0].timestamp_step,
        blocks[0].num_samples > 0,
{
    lemma_aligned(blocks, 1);
    if input >= 1 {
        assert(!input_misaligned(blocks, input));
    }
}

/// A channel starts as it was set, where it is connected.
pub proof fn law_channels_start_as_they_were_set(channel: SigrokChannel)
    ensures
        scheduler_pin(channel) is Some <==> channel.connected,
        channel.connected ==> (scheduler_pin(channel) == Some(InitialPin::Low)
            <==> channel.initial_pin == SigrokInitialPin::Low),
        channel.connected ==> (scheduler_pin(channel) == Some(InitialPin::High)
            <==> channel.initial_pin == SigrokInitialPin::High),
{
}

/// The time of a sample is the number of nanoseconds that the samples before it took, rounded down,
/// as far as 64 bits hold it.
pub proof fn law_time_of_a_sample_is_rounded_down(sample: int, rate: int)
    requires
        sample >= 0,
        rate > 0,
    ensures
        time_of_sample(sample, rate) <= u64::MAX,
        time_of_sample(sample, rate) * rate <= sample * 1_000_000_000,
        time_of_sample(sample, rate) < u64::MAX ==> sample * 1_000_000_000 < (time_of_sample(
            sample,
            rate,
        ) + 1) * rate,
{
    let total = sample * 1_000_000_000;
    let exact = total / rate;
    let time = time_of_sample(sample, rate);
    vstd::arithmetic::div_mod::lemma_fundamental_div_mod(total, rate);
    assert(exact * rate <= total && total < (exact + 1) * rate) by (nonlinear_arith)
        requires
            total == rate * exact + total % rate,
            0 <= total % rate < rate,
    ;
    assert(time * rate <= exact * rate) by (nonlinear_arith)
        requires
            time <= exact,
            rate > 0,
    ;
}

/// Generated logic holds one sample less than its span is long, and none where the span is empty.
pub proof fn law_generated_logic_is_as_long_as_its_span(start: u64, end: u64)
    ensures
        end > start && end - start <= usize::MAX ==> generated_samples(start as int, end as int) + 1
            == end - start,
        end <= start ==> generated_samples(start as int, end as int) == 0,
{
}

/// When an output begins.
pub open spec fn begins(output: ConvertedOutput) -> u64 {
    match output {
        ConvertedOutput::Annotation(annotation) => annotation.start_time_ns,
        ConvertedOutput::Binary(binary) => binary.start_time_ns,
        ConvertedOutput::Logic(logic) => logic.start_time_ns,
        ConvertedOutput::Metadata(metadata) => metadata.start_time_ns,
        ConvertedOutput::Packet(packet) => packet.start_time_ns,
    }
}

/// When an output ends.
pub open spec fn ends(output: ConvertedOutput) -> u64 {
    match output {
        ConvertedOutput::Annotation(annotation) => annotation.end_time_ns,
        ConvertedOutput::Binary(binary) => binary.end_time_ns,
        ConvertedOutput::Logic(logic) => logic.end_time_ns,
        ConvertedOutput::Metadata(metadata) => metadata.end_time_ns,
        ConvertedOutput::Packet(packet) => packet.end_time_ns,
    }
}

/// Every output takes the place in time that it was put at, and the kind that it was registered as.
pub proof fn law_outputs_keep_their_place_and_kind(
    registration: OutputRegistration,
    data: ScriptValue,
    number: ScriptNumber,
    span: OutputSpan,
    declared: OutputDeclarations,
    output: ConvertedOutput,
)
    requires
        output_converted(registration, data, number, span, declared, output),
    ensures
        begins(output) == span.start_time_ns,
        ends(output) == span.end_time_ns,
        registration.output_type == 0 <==> output is Annotation,
        registration.output_type == 1 <==> output is Packet,
        registration.output_type == 2 <==> output is Binary,
        registration.output_type == 3 <==> output is Logic,
        registration.output_type == 4 <==> output is Metadata,
        output matches ConvertedOutput::Packet(packet) ==> packet.start_sample == span.start_sample
            && packet.end_sample == span.end_sample && stands_for(data, packet.value, 0) && (
        registration.protocol_id is None ==> packet.protocol_id@ == declared.decoder_id@) && (
        registration.protocol_id matches Some(id) ==> packet.protocol_id@ == id@),
{
}

/// Data of a class is accepted exactly where it is a list of two items, the first of them the number
/// of a declared class.
pub proof fn law_class_data_is_a_pair(data: ScriptValue, part: OutputPart, declared: int)
    ensures
        pair_error(data, part, declared) is None <==> (data matches ScriptValue::List(items)
            && items@.len() == 2 && (unsigned_of(items@[0], usize::MAX as int) matches Some(index)
            && index < declared)),
{
}

/// A call of a running decoder takes one of three courses. Input is handed over and counts together
/// with what was drained. The end of the input ends the decoder, with what it still sends. A decoder
/// that has ended on its own is joined and reported.
pub proof fn law_courses_of_a_call(units: usize, drained: usize, sent: usize)
    requires
        units + drained <= usize::MAX,
    ensures
        ({
            let (acquiring, first) = work_next(
                WorkStage::Idle,
                WorkEvent::Called { worker_finished: false },
            );
            let (pushing, second) = work_next(acquiring, WorkEvent::Acquired { units });
            let (idle, third) = work_next(pushing, WorkEvent::Pushed { drained });
            &&& first == WorkAction::Acquire
            &&& second == WorkAction::Push
            &&& third == WorkAction::Return(WorkOutcome::Count((units + drained) as usize))
            &&& idle == WorkStage::Idle
        }),
        ({
            let (acquiring, _) = work_next(
                WorkStage::Idle,
                WorkEvent::Called { worker_finished: false },
            );
            let (finalizing, second) = work_next(acquiring, WorkEvent::InputEnded);
            let (finished, third) = work_next(finalizing, WorkEvent::Finalized { sent });
            &&& second == WorkAction::Finalize
            &&& finished == WorkStage::Finished
            &&& sent > 0 ==> third == WorkAction::Return(WorkOutcome::Count(sent))
            &&& sent == 0 ==> third == WorkAction::Return(WorkOutcome::Shutdown)
        }),
        ({
            let (joining, first) = work_next(
                WorkStage::Idle,
                WorkEvent::Called { worker_finished: true },
            );
            let (finished, second) = work_next(joining, WorkEvent::Joined);
            &&& first == WorkAction::Join
            &&& finished == WorkStage::Finished
            &&& second == WorkAction::Return(WorkOutcome::StoppedEarly)
        }),
        forall|stage: WorkStage| #[trigger]
            work_next(stage, WorkEvent::Failed) == (
                WorkStage::Idle,
                WorkAction::Return(WorkOutcome::Failed),
            ),
{
}

/// Plain values keep what they hold: a value that stands for a script value is of its kind and has the
/// same content, and lists keep their items in order.
pub proof fn law_plain_values_keep_their_content(script: ScriptValue, value: SigrokValue, depth: nat)
    requires
        stands_for(script, value, depth),
    ensures
        depth < 64,
        script is Null <==> value is Null,
        script matches ScriptValue::Bool(content) ==> value == SigrokValue::Bool(content),
        script matches ScriptValue::Integer(content) ==> (value matches SigrokValue::Integer(kept)
            && kept == content),
        script matches ScriptValue::Float(content) ==> value == SigrokValue::Float(content),
        script matches ScriptValue::Text(content) ==> (value matches SigrokValue::String(kept)
            && kept@ == content@),
        script matches ScriptValue::Bytes(content) ==> (value matches SigrokValue::Bytes(kept)
            && kept@ == content@),
        script matches ScriptValue::List(items) ==> (value matches SigrokValue::List(kept)
            && kept@.len() == items@.len() && forall|i: int|
            0 <= i < items@.len() ==> stands_for(items@[i], #[trigger] kept@[i], depth + 1)),
        script matches ScriptValue::Tuple(items) ==> (value matches SigrokValue::Tuple(kept)
            && kept@.len() == items@.len() && forall|i: int|
            0 <= i < items@.len() ==> stands_for(items@[i], #[trigger] kept@[i], depth + 1)),
        script matches ScriptValue::Dict(pairs) ==> (value matches SigrokValue::Mapping(kept)
            && kept@.len() == pairs@.len() && forall|i: int|
            0 <= i < pairs@.len() ==> pairs@[i].key is Text && pairs@[i].key->Text_0@ == (
            #[trigger] kept@[i]).key@ && stands_for(pairs@[i].value, kept@[i].value, depth + 1)),
        !(script is HugeInteger) && !(script is Other),
{
    match (script, value) {
        (ScriptValue::List(items), SigrokValue::List(kept)) => {
            assert forall|i: int| 0 <= i < items@.len() implies stands_for(
                items@[i],
                #[trigger] kept@[i],
                depth + 1,
            ) by {
                let item = items@[i];
            }
        },
        (ScriptValue::Tuple(items), SigrokValue::Tuple(kept)) => {
            assert forall|i: int| 0 <= i < items@.len() implies stands_for(
                items@[i],
                #[trigger] kept@[i],
                depth + 1,
            ) by {
                let item = items@[i];
            }
        },
        (ScriptValue::Dict(pairs), SigrokValue::Mapping(kept)) => {
            assert forall|i: int| 0 <= i < pairs@.len() implies pairs@[i].key is Text
                && pairs@[i].key->Text_0@ == (#[trigger] kept@[i]).key@ && stands_for(
                pairs@[i].value,
                kept@[i].value,
                depth + 1,
            ) by {
                let pair = pairs@[i];
            }
        },
        _ => {},
    }
}

/// A script value can be converted where its integers fit in 64 bits, its dictionaries have texts as
/// keys, nothing in it is of another type, and it is not nested deeper than allowed.
pub proof fn law_convertible_values(script: ScriptValue, depth: nat)
    requires
        depth <= 64,
    ensures
        depth == 64 ==> value_error(script, depth) == Some(ValueErrorView::TooDeep),
        depth < 64 ==> {
            &&& script matches ScriptValue::Integer(number) ==> (value_error(script, depth) is None
                <==> -0x8000_0000_0000_0000 <= number <= 0x7fff_ffff_ffff_ffff)
            &&& script is HugeInteger ==> value_error(script, depth) == Some(
                ValueErrorView::IntegerRange,
            )
            &&& script is Other ==> value_error(script, depth) is Some
            &&& script is Null || script is Bool || script is Float || script is Text
                || script is Bytes ==> value_error(script, depth) is None
            &&& script matches ScriptValue::List(items) ==> (value_error(script, depth) is None
                <==> forall|i: int|
                0 <= i < items@.len() ==> value_error(#[trigger] items@[i], depth + 1) is None)
            &&& script matches ScriptValue::Tuple(items) ==> (value_error(script, depth) is None
                <==> forall|i: int|
                0 <= i < items@.len() ==> value_error(#[trigger] items@[i], depth + 1) is None)
            &&& script matches ScriptValue::Dict(pairs) ==> (value_error(script, depth) is None
                <==> forall|i: int|
                0 <= i < pairs@.len() ==> (#[trigger] pairs@[i]).key is Text && value_error(
                    pairs@[i].value,
                    depth + 1,
                ) is None)
        },
{
    if depth < 64 {
        match script {
            ScriptValue::List(items) => lemma_items_error(items@, 0, depth + 1),
            ScriptValue::Tuple(items) => lemma_items_error(items@, 0, depth + 1),
            ScriptValue::Dict(pairs) => lemma_pairs_error(pairs@, 0, depth + 1),
            _ => {},
        }
    }
}

proof fn lemma_items_error(items: Seq<ScriptValue>, from: int, depth: nat)
    requires
        0 <= from,
        depth <= 64,
    ensures
        items_error(items, from, depth) is None <==> forall|i: int|
            from <= i < items.len() ==> value_error(#[trigger] items[i], depth) is None,
    decreases items.len() - from,
{
    if from < items.len() {
        lemma_items_error(items, from + 1, depth);
    }
}

proof fn lemma_pairs_error(pairs: Seq<ScriptPair>, from: int, depth: nat)
    requires
        0 <= from,
        depth <= 64,
    ensures
        pairs_error(pairs, from, depth) is None <==> forall|i: int|
            from <= i < pairs.len() ==> (#[trigger] pairs[i]).key is Text && value_error(
                pairs[i].value,
                depth,
            ) is None,
    decreases pairs.len() - from,
{
    if from < pairs.len() {
        lemma_pairs_error(pairs, from + 1, depth);
    }
}

/// A row of script values is read item by item: it reads as a row exactly where every item does, and
/// then as the row of what the items read as.
pub proof fn law_rows_are_read_item_by_item<T: FromScript>(values: Seq<ScriptValue>, count: nat)
    requires
        count <= values.len(),
    ensures
        match readings::<T>(values, count) {
            Ok(read) => read.len() == count && forall|i: int|
                0 <= i < count ==> T::reading(values[i]) == Ok::<T::V, DescriptorErrorView>(
                    #[trigger] read[i],
                ),
            Err(error) => exists|i: int|
                0 <= i < count && T::reading(#[trigger] values[i]) == Err::<
                    T::V,
                    DescriptorErrorView,
                >(error) && forall|j: int|
                    0 <= j < i ==> T::reading(#[trigger] values[j]) is Ok,
        },
    decreases count,
{
    if count > 0 {
        let less = (count - 1) as nat;
        law_rows_are_read_item_by_item::<T>(values, less);
        match readings::<T>(values, less) {
            Ok(before) => {
                assert forall|j: int| 0 <= j < less implies T::reading(
                    #[trigger] values[j],
                ) is Ok by {
                    let read = before[j];
                }
                match T::reading(values[less as int]) {
                    Ok(read) => {
                        let all = before.push(read);
                        assert forall|i: int| 0 <= i < count implies T::reading(values[i]) == Ok::<
                            T::V,
                            DescriptorErrorView,
                        >(#[trigger] all[i]) by {
                            if i < less {
                                assert(all[i] == before[i]);
                            }
                        }
                    },
                    Err(error) => {
                        assert(T::reading(values[less as int]) == Err::<T::V, DescriptorErrorView>(
                            error,
                        ));
                    },
                }
            },
            Err(error) => {
                let i = choose|i: int|
                    0 <= i < less && T::reading(#[trigger] values[i]) == Err::<
                        T::V,
                        DescriptorErrorView,
                    >(error) && forall|j: int|
                        0 <= j < i ==> T::reading(#[trigger] values[j]) is Ok;
                assert(T::reading(values[i]) == Err::<T::V, DescriptorErrorView>(error));
            },
        }
    }
}

/// The value under a key of a dictionary is that of the first entry with this key.
pub proof fn law_first_entry_counts(pairs: Seq<ScriptPair>, key: Seq<char>)
    ensures
        match entry_of(pairs, key) {
            Some(value) => exists|i: int|
                0 <= i < pairs.len() && (#[trigger] pairs[i]).key is Text && pairs[i].key->Text_0@
                    == key && pairs[i].value == value && forall|j: int|
                    0 <= j < i ==> !((#[trigger] pairs[j]).key is Text && pairs[j].key->Text_0@
                        == key),
            None => forall|i: int|
                0 <= i < pairs.len() ==> !((#[trigger] pairs[i]).key is Text
                    && pairs[i].key->Text_0@ == key),
        },
    decreases pairs.len(),
{
    if pairs.len() > 0 {
        if pairs[0].key is Text && pairs[0].key->Text_0@ == key {
        } else {
            let rest = pairs.skip(1);
            law_first_entry_counts(rest, key);
            match entry_of(rest, key) {
                Some(value) => {
                    let i = choose|i: int|
                        0 <= i < rest.len() && (#[trigger] rest[i]).key is Text
                            && rest[i].key->Text_0@ == key && rest[i].value == value && forall|j: int|
                            0 <= j < i ==> !((#[trigger] rest[j]).key is Text
                                && rest[j].key->Text_0@ == key);
                    assert(pairs[i + 1] == rest[i]);
                    assert forall|j: int| 0 <= j < i + 1 implies !((#[trigger] pairs[j]).key is Text
                        && pairs[j].key->Text_0@ == key) by {
                        if j > 0 {
                            assert(rest[j - 1] == pairs[j]);
                        }
                    }
                    assert(pairs[i + 1].value == value);
                },
                None => {
                    assert forall|i: int| 0 <= i < pairs.len() implies !((
                    #[trigger] pairs[i]).key is Text && pairs[i].key->Text_0@ == key) by {
                        if i > 0 {
                            assert(rest[i - 1] == pairs[i]);
                        }
                    }
                },
            }
        }
    }
}

/// A channel is described by the three texts of its dictionary.
pub proof fn law_channel_is_described_by_its_texts(value: ScriptValue)
    ensures
        SigrokDecoderChannelDescriptor::reading(value) matches Ok(channel) ==> (
        value matches ScriptValue::Dict(pairs) && (entry_of(pairs@, "id"@) matches Some(id)
            && id is Text && id->Text_0@ == channel.id) && (entry_of(pairs@, "name"@) matches Some(name)
            && name is Text && name->Text_0@ == channel.name) && (entry_of(
            pairs@,
            "desc"@,
        ) matches Some(description) && description is Text && description->Text_0@
            == channel.description)),
{
}

/// An output is accepted where its data suits its kind: annotations, binary data and logic name a
/// class that was declared, annotations carry texts and the other two bytes; a number needs a
/// registration that says so.
pub proof fn law_accepted_outputs(
    registration: OutputRegistration,
    data: ScriptValue,
    number: ScriptNumber,
    declared: OutputDeclarations,
)
    ensures
        ({
            let accepted = output_error(registration, data, number, declared) is None;
            let kind = kind_of(registration.output_type);
            let pair = data is List && data->List_0@.len() == 2;
            let class = unsigned_of(data->List_0@[0], usize::MAX as int);
            let payload = data->List_0@[1];
            &&& kind == Some(SigrokOutputKind::Annotation) ==> (accepted <==> pair && class is Some
                && class->0 < declared.annotation_rows_by_class@.len() && payload is List && forall|
                i: int,
            | 0 <= i < payload->List_0@.len() ==> (#[trigger] payload->List_0@[i]) is Text)
            &&& kind == Some(SigrokOutputKind::Binary) ==> (accepted <==> pair && class is Some
                && class->0 < declared.binary_class_count && payload is Bytes)
            &&& kind == Some(SigrokOutputKind::GeneratedLogic) ==> (accepted <==> pair
                && class is Some && class->0 < declared.logic_groups@.len() && payload is Bytes)
            &&& kind == Some(SigrokOutputKind::Metadata) ==> (accepted ==> registration.metadata
                is Some)
            &&& kind == Some(SigrokOutputKind::ProtocolPacket) ==> (accepted <==> value_error(
                data,
                0,
            ) is None)
            &&& kind is None ==> !accepted
        }),
{
    if data is List && data->List_0@.len() == 2 {
        let payload = data->List_0@[1];
        if payload is List && all_texts(payload->List_0@) {
            assert(forall|i: int|
                0 <= i < payload->List_0@.len() ==> (#[trigger] payload->List_0@[i]) is Text);
        }
    }
}

/// The span of an output has the times of its first and its last sample, each rounded down to a
/// nanosecond.
pub proof fn law_span_has_the_times_of_its_samples(start: u64, end: u64, rate: u64)
    requires
        rate > 0,
        start * 1_000_000_000 <= u64::MAX,
        end * 1_000_000_000 <= u64::MAX,
    ensures
        ({
            let span = span_of(start, end, rate);
            &&& span.start_sample == start
            &&& span.end_sample == end
            &&& span.start_time_ns * rate <= start * 1_000_000_000 < (span.start_time_ns + 1) * rate
            &&& span.end_time_ns * rate <= end * 1_000_000_000 < (span.end_time_ns + 1) * rate
        }),
{
    lemma_time_rounds_down(start as int, rate as int);
    lemma_time_rounds_down(end as int, rate as int);
}

proof fn lemma_time_rounds_down(sample: int, rate: int)
    requires
        0 <= sample,
        0 < rate,
        sample * 1_000_000_000 <= u64::MAX,
    ensures
        0 <= time_of_sample(sample, rate) <= u64::MAX,
        time_of_sample(sample, rate) * rate <= sample * 1_000_000_000,
        sample * 1_000_000_000 < (time_of_sample(sample, rate) + 1) * rate,
{
    let nanoseconds = sample * 1_000_000_000;
    let time = nanoseconds / rate;
    vstd::arithmetic::div_mod::lemma_fundamental_div_mod(nanoseconds, rate);
    assert(0 <= time <= nanoseconds) by (nonlinear_arith)
        requires
            nanoseconds == rate * time + nanoseconds % rate,
            0 <= nanoseconds % rate < rate,
            0 < rate,
            0 <= nanoseconds,
    ;
    assert(time * rate <= nanoseconds < (time + 1) * rate) by (nonlinear_arith)
        requires
            nanoseconds == rate * time + nanoseconds % rate,
            0 <= nanoseconds % rate < rate,
    ;
}

/// A descriptor is made of a class without errors: it speaks version 3 of the interface, and its
/// texts are those that the class has under the same names.
pub proof fn law_descriptor_takes_over_the_class(
    descriptor: SigrokDecoderDescriptor,
    class: DecoderClass,
)
    requires
        describes(descriptor, class),
    ensures
        class_error(class) is None,
        descriptor.api_version == 3,
        class.api_version is Integer ==> class.api_version->Integer_0 == 3,
        class.id is Text && class.id->Text_0@ == descriptor.id@,
        class.name is Text && class.name->Text_0@ == descriptor.name@,
        class.long_name is Text && class.long_name->Text_0@ == descriptor.long_name@,
        class.description is Text && class.description->Text_0@ == descriptor.description@,
        class.license is Text && class.license->Text_0@ == descriptor.license@,
        descriptor.inputs@.len() == class.inputs@.len(),
        descriptor.outputs@.len() == class.outputs@.len(),
        descriptor.tags@.len() == class.tags@.len(),
        descriptor.channels@.len() == class.channels@.len(),
        descriptor.optional_channels@.len() == class.optional_channels@.len(),
        descriptor.options@.len() == class.options@.len(),
        descriptor.annotations@.len() == class.annotations@.len(),
        descriptor.annotation_rows@.len() == class.annotation_rows@.len(),
        descriptor.binary@.len() == class.binary@.len(),
        descriptor.logic_output_channels@.len() == class.logic_output_channels@.len(),
{
    law_rows_are_read_item_by_item::<String>(class.inputs@, class.inputs@.len());
    law_rows_are_read_item_by_item::<String>(class.outputs@, class.outputs@.len());
    law_rows_are_read_item_by_item::<String>(class.tags@, class.tags@.len());
    law_rows_are_read_item_by_item::<SigrokDecoderChannelDescriptor>(
        class.channels@,
        class.channels@.len(),
    );
    law_rows_are_read_item_by_item::<SigrokDecoderChannelDescriptor>(
        class.optional_channels@,
        class.optional_channels@.len(),
    );
    law_rows_are_read_item_by_item::<SigrokDecoderOptionDescriptor>(
        class.options@,
        class.options@.len(),
    );
    law_rows_are_read_item_by_item::<SigrokAnnotationClassDescriptor>(
        class.annotations@,
        class.annotations@.len(),
    );
    law_rows_are_read_item_by_item::<SigrokAnnotationRowDescriptor>(
        class.annotation_rows@,
        class.annotation_rows@.len(),
    );
    law_rows_are_read_item_by_item::<SigrokAnnotationClassDescriptor>(
        class.binary@,
        class.binary@.len(),
    );
    law_rows_are_read_item_by_item::<SigrokDecoderChannelDescriptor>(
        class.logic_output_channels@,
        class.logic_output_channels@.len(),
    );
}

/// The texts of a descriptor's inputs are those of the class, item by item.
pub proof fn law_descriptor_keeps_its_inputs(
    descriptor: SigrokDecoderDescriptor,
    class: DecoderClass,
    i: int,
)
    requires
        describes(descriptor, class),
        0 <= i < class.inputs@.len(),
    ensures
        i < descriptor.inputs@.len(),
        class.inputs@[i] is Text,
        class.inputs@[i]->Text_0@ == descriptor.inputs@[i]@,
{
    law_rows_are_read_item_by_item::<String>(class.inputs@, class.inputs@.len());
    assert(views(descriptor.inputs@)[i] == descriptor.inputs@[i]@);
    assert(String::reading(class.inputs@[i]) == Ok::<Seq<char>, DescriptorErrorView>(
        views(descriptor.inputs@)[i],
    ));
}

/// A class with a version other than 3 is refused for it, whatever else is wrong with it.
pub proof fn law_other_versions_are_refused(class: DecoderClass, version: i64)
    requires
        i64::reading(class.api_version) == Ok::<i64, DescriptorErrorView>(version),
        version != 3,
    ensures
        class_error(class) == Some(DescriptorErrorView::UnsupportedApi(version)),
{
}

/// Registered outputs of known types are listed in order, each by its kind.
pub proof fn law_registered_kinds_keep_their_order(registrations: Seq<OutputRegistration>, count: nat)
    requires
        count <= registrations.len(),
        forall|i: int|
            0 <= i < count ==> kind_of((#[trigger] registrations[i]).output_type) is Some,
    ensures
        registered_kinds(registrations, count).len() == count,
        forall|i: int|
            #![trigger registered_kinds(registrations, count)[i]]
            0 <= i < count ==> kind_of(registrations[i].output_type) == Some(
                registered_kinds(registrations, count)[i],
            ),
    decreases count,
{
    if count > 0 {
        law_registered_kinds_keep_their_order(registrations, (count - 1) as nat);
        assert(kind_of(registrations[count - 1].output_type) is Some);
    }
}

/// What identifies a package of two lots of files is what identifies the first lot, followed by
/// what identifies the second; and one file is identified by its path and its contents.
pub proof fn law_package_contents_join(
    first: Seq<PackageFile>,
    second: Seq<PackageFile>,
    count: nat,
)
    requires
        count <= second.len(),
    ensures
        package_contents(first + second, first.len() + count) == package_contents(
            first,
            first.len(),
        ) + package_contents(second, count),
        second.len() > 0 ==> package_contents(second, 1) == encode_utf8(second[0].path@)
            + second[0].contents@,
    decreases count,
{
    reveal_with_fuel(package_contents, 2);
    let all = first + second;
    if count > 0 {
        law_package_contents_join(first, second, (count - 1) as nat);
        assert(all[first.len() + count - 1] == second[count - 1]);
        assert(package_contents(all, first.len() + count) =~= package_contents(first, first.len())
            + package_contents(second, count));
    } else {
        lemma_contents_of_the_front(first, second, first.len());
        assert(package_contents(all, first.len()) =~= package_contents(first, first.len())
            + package_contents(second, 0));
    }
    if second.len() > 0 {
        assert(package_contents(second, 1) =~= encode_utf8(second[0].path@) + second[0].contents@);
    }
}

proof fn lemma_contents_of_the_front(first: Seq<PackageFile>, second: Seq<PackageFile>, count: nat)
    requires
        count <= first.len(),
    ensures
        package_contents(first + second, count) == package_contents(first, count),
    decreases count,
{
    if count > 0 {
        lemma_contents_of_the_front(first, second, (count - 1) as nat);
        assert((first + second)[count - 1] == first[count - 1]);
    }
}

/// An annotation class is a pair of texts, the identifier first. An annotation row is an identifier, a
/// description and the numbers of its classes, in this order.
pub proof fn law_classes_and_rows_are_tuples(value: ScriptValue)
    ensures
        SigrokAnnotationClassDescriptor::reading(value) matches Ok(class) ==> (
        value matches ScriptValue::Tuple(parts) && parts@.len() == 2 && parts@[0] is Text
            && parts@[0]->Text_0@ == class.0 && parts@[1] is Text && parts@[1]->Text_0@ == class.1),
        SigrokAnnotationRowDescriptor::reading(value) matches Ok(row) ==> (
        value matches ScriptValue::Tuple(parts) && parts@.len() == 3 && parts@[0] is Text
            && parts@[0]->Text_0@ == row.id && parts@[1] is Text && parts@[1]->Text_0@
            == row.description && row_classes(parts@[2]) == Ok::<Seq<usize>, DescriptorErrorView>(
            row.classes,
        )),
{
}

/// The numbers of the classes of a row are those that the script wrote, in their order.
pub proof fn law_row_lists_its_classes(classes: Vec<ScriptValue>, i: int)
    requires
        0 <= i < classes@.len(),
        row_classes(ScriptValue::List(classes)) is Ok,
    ensures
        row_classes(ScriptValue::Tuple(classes)) == row_classes(ScriptValue::List(classes)),
        row_classes(ScriptValue::List(classes))->Ok_0.len() == classes@.len(),
        unsigned_of(classes@[i], usize::MAX as int) == Some(
            row_classes(ScriptValue::List(classes))->Ok_0[i] as int,
        ),
{
    law_rows_are_read_item_by_item::<usize>(classes@, classes@.len());
    let read = row_classes(ScriptValue::List(classes))->Ok_0;
    assert(usize::reading(classes@[i]) == Ok::<usize, DescriptorErrorView>(read[i]));
}

/// An option is described by the texts of its dictionary, its default, and the values that it may
/// have; one that lists none may have any.
pub proof fn law_option_is_described_by_its_entries(value: ScriptValue)
    ensures
        SigrokDecoderOptionDescriptor::reading(value) matches Ok(option) ==> (
        value matches ScriptValue::Dict(pairs) && (entry_of(pairs@, "id"@) matches Some(id)
            && id is Text && id->Text_0@ == option.id) && (entry_of(
            pairs@,
            "desc"@,
        ) matches Some(description) && description is Text && description->Text_0@
            == option.description) && (entry_of(pairs@, "default"@) matches Some(default)
            && SigrokScalarValue::reading(default) == Ok::<ScalarView, DescriptorErrorView>(
            option.default,
        )) && (entry_of(pairs@, "values"@) is None ==> option.values.len() == 0)),
{
}

/// Truth values, numbers that fit in 64 bits, floating-point numbers and texts are scalars, each of its
/// kind and with its value; rows and dictionaries are not.
pub proof fn law_scalars_keep_their_value(
    truth: bool,
    number: i64,
    bits: u64,
    text: String,
    items: Vec<ScriptValue>,
)
    ensures
        SigrokScalarValue::reading(ScriptValue::Bool(truth)) == Ok::<
            ScalarView,
            DescriptorErrorView,
        >(ScalarView::Bool(truth)),
        SigrokScalarValue::reading(ScriptValue::Integer(number as i128)) == Ok::<
            ScalarView,
            DescriptorErrorView,
        >(ScalarView::Integer(number)),
        SigrokScalarValue::reading(ScriptValue::Float(bits)) == Ok::<
            ScalarView,
            DescriptorErrorView,
        >(ScalarView::Float(bits)),
        SigrokScalarValue::reading(ScriptValue::Text(text)) == Ok::<
            ScalarView,
            DescriptorErrorView,
        >(ScalarView::String(text@)),
        SigrokScalarValue::reading(ScriptValue::List(items)) is Err,
        SigrokScalarValue::reading(ScriptValue::Null) is Err,
{
}

} // verus!
