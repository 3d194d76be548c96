//! What strobe, chip select and data lines mean for the decoded words, and how the inputs of the
//! decoder get their transports.

use vstd::prelude::*;
use vstd::arithmetic::power2::pow2;

use crate::bit_laws::{law_word_has_binary_digits, lemma_digits_sum_up, level_sum, number_bit};
use crate::bits::bit_of;
use crate::digital::CsPolarity;
use crate::parallel_decoder::decoder::{
    first_misaligned, misaligned_at, BlocksView, STREAM_SAMPLES_PER_CALL,
};
use crate::parallel_decoder::sample_model::{restarts, SampleState, Signals};
use crate::parallel_decoder::scan::{bus_value, cs_open, cs_passes, lemma_bus_bits};
use crate::parallel_decoder::select::{
    accepted_protocols, chosen_protocol, first_accepted, group_supports, input_kind, input_name,
    raw_protocols, InputKind, InputProtocolCandidate,
};
use crate::parallel_decoder::types::{
    in_ranges, DecodeFragment, EnabledRange, ParallelInputStrategy, StrobeMode,
};
use crate::parallel_decoder::worker::{
    capacity_bytes, completion_step, CompletionStep, FragmentCompletion, ParallelStreamState,
};
use crate::streams::{ProtocolKind, SampleBlock, Word};
use crate::text::decimal;
use crate::text_laws::law_decimal_reads_back;

verus! {

/// A level as a number.
pub open spec fn level_number(level: bool) -> int {
    if level {
        1
    } else {
        0
    }
}

/// A rising edge raises the level by one and a falling edge lowers it by one; any edge is one of
/// the two; the level modes look at the level alone.
pub proof fn law_triggers_are_changes_of_level(previous: bool, value: bool)
    ensures
        ({
            let change = level_number(value) - level_number(previous);
            &&& StrobeMode::RisingEdge.triggers(previous, value) <==> change == 1
            &&& StrobeMode::FallingEdge.triggers(previous, value) <==> change == -1
            &&& StrobeMode::AnyEdge.triggers(previous, value) <==> change * change == 1
            &&& StrobeMode::HighLevel.triggers(previous, value) <==> level_number(value) == 1
            &&& StrobeMode::LowLevel.triggers(previous, value) <==> level_number(value) == 0
        }),
{
}

/// A mode works on edges exactly where a strobe that keeps its level never triggers.
pub proof fn law_edge_modes_need_a_change(mode: StrobeMode)
    ensures
        mode.on_edges() <==> forall|level: bool| !#[trigger] mode.triggers(level, level),
{
    let low = mode.triggers(false, false);
    let high = mode.triggers(true, true);
}

/// An active-low chip select is open while its line is low, an active-high one while it is high,
/// and a disabled one always.
pub proof fn law_chip_select_is_open_at_its_level(level: bool)
    ensures
        cs_passes(CsPolarity::ActiveLow, level) <==> level_number(level) == 0,
        cs_passes(CsPolarity::ActiveHigh, level) <==> level_number(level) == 1,
        cs_passes(CsPolarity::Disabled, level),
{
}

/// The bus value is the sum of the data lines' levels, line `k` with weight two to the `k`.
pub proof fn law_bus_value_sums_up_the_lines(data: Seq<SampleBlock>, i: int)
    requires
        data.len() <= 64,
    ensures
        bus_value(data, i) == level_sum(
            |k: int| k < data.len() && bit_of(data[k].data@, i),
            64,
        ),
{
    let levels = |k: int| k < data.len() && bit_of(data[k].data@, i);
    let value = bus_value(data, i);
    assert forall|k: int| 0 <= k < 64 implies #[trigger] levels(k)
        == number_bit(value as int, k as nat) by {
        lemma_bus_bits(data, data.len(), i, k);
        law_word_has_binary_digits(value, k);
    }
    lemma_digits_sum_up(levels, value as nat, 64);
    vstd::arithmetic::power2::lemma2_to64();
    assert(value as nat % pow2(64) == value);
}

/// A sample that is not enabled, or at which chip select is closed, leaves no partial word and
/// completes none.
pub proof fn law_closed_sample_ends_the_partial_word(
    signals: Signals,
    ranges: Seq<EnabledRange>,
    state: SampleState,
    i: int,
)
    requires
        !in_ranges(ranges, i) || !cs_open(signals.config, signals.cs, i),
    ensures
        ({
            let after = signals.sample(ranges, state, i);
            &&& after.merge.words == state.merge.words
            &&& after.merge.assembly.cycles == 0
            &&& after.merge.assembly.value == 0
        }),
{
}

/// With one cycle per word, an enabled sample yields a word exactly where the strobe triggers: the
/// bus value, at the sample's time.
pub proof fn law_single_cycles_are_words(
    signals: Signals,
    ranges: Seq<EnabledRange>,
    state: SampleState,
    i: int,
)
    requires
        signals.format.cycles_per_word == 1,
        state.merge.assembly.cycles == 0,
        state.merge.assembly.value == 0,
        in_ranges(ranges, i),
        cs_open(signals.config, signals.cs, i),
        0 <= i,
        signals.strobe.start_position + i <= u64::MAX,
        (signals.strobe.start_position + i) * signals.strobe.timestamp_step <= u64::MAX,
    ensures
        ({
            let after = signals.sample(ranges, state, i);
            let time = (signals.strobe.start_position + i) * signals.strobe.timestamp_step;
            &&& after.previous == bit_of(signals.strobe.data@, i)
            &&& after.merge.assembly.cycles == 0
            &&& if signals.config.mode.triggers(state.previous, bit_of(signals.strobe.data@, i)) {
                &&& after.merge.words.len() == state.merge.words.len() + 1
                &&& after.merge.words.drop_last() == state.merge.words
                &&& after.merge.words.last().timestamp_ns == time
                &&& after.merge.words.last().duration_ns == 0
                &&& after.merge.words.last().value == bus_value(signals.data, i)
            } else {
                after.merge.words == state.merge.words
            }
        }),
{
    let value = bus_value(signals.data, i);
    lemma_absorbed_first(value, signals.format.num_data_bits as u64);
    let after = signals.sample(ranges, state, i);
    let time = (signals.strobe.start_position + i) * signals.strobe.timestamp_step;
    assert(time >= 0) by (nonlinear_arith)
        requires
            time == (signals.strobe.start_position + i) * signals.strobe.timestamp_step,
            signals.strobe.start_position + i >= 0,
            signals.strobe.timestamp_step >= 0,
    ;
    if signals.config.mode.triggers(state.previous, bit_of(signals.strobe.data@, i)) {
        assert(after.merge.words.drop_last() =~= state.merge.words);
        assert(0 * signals.format.num_data_bits == 0) by (nonlinear_arith);
    }
}

proof fn lemma_absorbed_first(cycle: u64, bits: u64)
    by (bit_vector)
    ensures
        0u64 | (cycle << 0u64) == cycle,
        (0u64 << bits) | cycle == cycle,
{
}

/// Number of triggers in samples `from..to`, where the strobe has level `before` ahead of them.
pub open spec fn trigger_count(signals: Signals, before: bool, from: int, to: int) -> nat
    decreases to - from,
{
    if to <= from {
        0
    } else {
        let previous = if to - 1 == from {
            before
        } else {
            bit_of(signals.strobe.data@, to - 2)
        };
        trigger_count(signals, before, from, to - 1) + (if signals.config.mode.triggers(
            previous,
            bit_of(signals.strobe.data@, to - 1),
        ) {
            1nat
        } else {
            0nat
        })
    }
}

/// Over a stretch that is enabled throughout no trigger is lost: the triggers fill the words, each
/// with its number of cycles, and what is left over is the partial word.
pub proof fn law_triggers_fill_words(
    signals: Signals,
    ranges: Seq<EnabledRange>,
    state: SampleState,
    from: int,
    to: int,
)
    requires
        signals.format.wf(),
        state.merge.assembly.wf(signals.format),
        from <= to,
        forall|i: int|
            #![trigger in_ranges(ranges, i)]
            from <= i < to ==> in_ranges(ranges, i) && !restarts(ranges, i) && cs_open(
                signals.config,
                signals.cs,
                i,
            ),
    ensures
        ({
            let after = signals.samples(ranges, state, from, to);
            let cycles = signals.format.cycles_per_word as int;
            &&& after.merge.assembly.wf(signals.format)
            &&& after.merge.assembly.cycles < cycles
            &&& after.merge.words.len() * cycles + after.merge.assembly.cycles
                == state.merge.words.len() * cycles + state.merge.assembly.cycles + trigger_count(
                signals,
                state.previous,
                from,
                to,
            )
            &&& to > from ==> after.previous == bit_of(signals.strobe.data@, to - 1)
        }),
    decreases to - from,
{
    if from < to {
        law_triggers_fill_words(signals, ranges, state, from, to - 1);
        let before = signals.samples(ranges, state, from, to - 1);
        let after = signals.samples(ranges, state, from, to);
        let cycles = signals.format.cycles_per_word as int;
        assert(in_ranges(ranges, to - 1));
        assert(before.previous == if to - 1 == from {
            state.previous
        } else {
            bit_of(signals.strobe.data@, to - 2)
        });
        if after.merge.words.len() == before.merge.words.len() + 1 {
            let words = before.merge.words.len() as int;
            assert((words + 1) * cycles == words * cycles + cycles) by (nonlinear_arith);
        }
    }
}

/// Words that are complete stay as they are.
pub proof fn law_complete_words_stay(
    signals: Signals,
    ranges: Seq<EnabledRange>,
    state: SampleState,
    from: int,
    to: int,
)
    ensures
        ({
            let after = signals.samples(ranges, state, from, to);
            &&& state.merge.words.len() <= after.merge.words.len()
            &&& after.merge.words.take(state.merge.words.len() as int) == state.merge.words
        }),
    decreases to - from,
{
    let after = signals.samples(ranges, state, from, to);
    if from < to {
        law_complete_words_stay(signals, ranges, state, from, to - 1);
        let before = signals.samples(ranges, state, from, to - 1);
        let count = state.merge.words.len() as int;
        assert(after.merge.words.len() >= before.merge.words.len());
        assert(after.merge.words.take(count) =~= before.merge.words.take(count));
    } else {
        assert(after.merge.words.take(state.merge.words.len() as int) =~= state.merge.words);
    }
}

/// A word that a sample completes ends at that sample's time, unless time ran backwards.
pub proof fn law_word_ends_at_its_last_trigger(
    signals: Signals,
    ranges: Seq<EnabledRange>,
    state: SampleState,
    i: int,
)
    requires
        0 <= i,
        signals.strobe.start_position + i <= u64::MAX,
        (signals.strobe.start_position + i) * signals.strobe.timestamp_step <= u64::MAX,
        signals.sample(ranges, state, i).merge.words.len() > state.merge.words.len(),
        state.merge.assembly.first_ts <= (signals.strobe.start_position + i)
            * signals.strobe.timestamp_step,
    ensures
        ({
            let word: Word = signals.sample(ranges, state, i).merge.words.last();
            word.timestamp_ns + word.duration_ns == (signals.strobe.start_position + i)
                * signals.strobe.timestamp_step
        }),
{
    let time = (signals.strobe.start_position + i) * signals.strobe.timestamp_step;
    assert(time >= 0) by (nonlinear_arith)
        requires
            time == (signals.strobe.start_position + i) * signals.strobe.timestamp_step,
            signals.strobe.start_position + i >= 0,
            signals.strobe.timestamp_step >= 0,
    ;
}

/// The windows of a block follow each other without gap or overlap, each as long as a call may
/// take, until the block is used up.
pub proof fn law_windows_cover_the_block(blocks: BlocksView)
    requires
        blocks.strobe is Some,
        0 <= blocks.offset < blocks.strobe->0.num_samples,
        blocks.next_sequence < u64::MAX,
    ensures
        ({
            let samples = blocks.strobe->0.num_samples;
            let end = blocks.window_end();
            let next = blocks.moved_on();
            &&& blocks.offset < end <= samples
            &&& end - blocks.offset <= STREAM_SAMPLES_PER_CALL
            &&& end < samples ==> end - blocks.offset == STREAM_SAMPLES_PER_CALL
            &&& next.next_sequence == blocks.next_sequence + 1
            &&& next.strobe is None <==> end == samples
            &&& end < samples ==> next.offset == end && next.strobe == blocks.strobe && next.data
                == blocks.data && next.cs == blocks.cs
        }),
{
}

/// The data block that is reported as misaligned is the first one: every block before it lines up
/// with the strobe block.
pub proof fn law_first_misaligned_block(strobe: SampleBlock, data: Seq<SampleBlock>, from: int)
    requires
        0 <= from <= data.len(),
    ensures
        ({
            let first = first_misaligned(strobe, data, from);
            &&& from <= first <= data.len()
            &&& first < data.len() ==> (data[first].start_position != strobe.start_position
                || data[first].num_samples != strobe.num_samples || data[first].timestamp_step
                != strobe.timestamp_step)
            &&& forall|k: int|
                from <= k < first ==> (#[trigger] data[k]).start_position == strobe.start_position
                    && data[k].num_samples == strobe.num_samples && data[k].timestamp_step
                    == strobe.timestamp_step
        }),
    decreases data.len() - from,
{
    if from < data.len() && !misaligned_at(strobe, data, from) {
        law_first_misaligned_block(strobe, data, from + 1);
    }
}

/// The transport that is taken is the first on offer that is accepted.
pub proof fn law_first_accepted_transport(offered: Seq<ProtocolKind>, accepted: Seq<ProtocolKind>)
    ensures
        match first_accepted(offered, accepted) {
            Some(protocol) => {
                &&& accepted.contains(protocol)
                &&& exists|j: int|
                    {
                        &&& 0 <= j < offered.len()
                        &&& #[trigger] offered[j] == protocol
                        &&& forall|k: int| 0 <= k < j ==> !accepted.contains(#[trigger] offered[k])
                    }
            },
            None => forall|k: int|
                0 <= k < offered.len() ==> !accepted.contains(#[trigger] offered[k]),
        },
    decreases offered.len(),
{
    if offered.len() > 0 && !accepted.contains(offered[0]) {
        let rest = offered.skip(1);
        law_first_accepted_transport(rest, accepted);
        match first_accepted(rest, accepted) {
            Some(protocol) => {
                let j = choose|j: int|
                    {
                        &&& 0 <= j < rest.len()
                        &&& #[trigger] rest[j] == protocol
                        &&& forall|k: int| 0 <= k < j ==> !accepted.contains(#[trigger] rest[k])
                    };
                assert(offered[j + 1] == protocol);
                assert forall|k: int| 0 <= k < j + 1 implies !accepted.contains(
                    #[trigger] offered[k],
                ) by {
                    if k > 0 {
                        assert(rest[k - 1] == offered[k]);
                    }
                }
            },
            None => {
                assert forall|k: int| 0 <= k < offered.len() implies !accepted.contains(
                    #[trigger] offered[k],
                ) by {
                    if k > 0 {
                        assert(rest[k - 1] == offered[k]);
                    }
                }
            },
        }
    } else if offered.len() > 0 {
        assert(offered[0] == first_accepted(offered, accepted)->0);
    }
}

/// A raw input is searched by an index only where the strobe triggers on edges and packed blocks
/// were not asked for, and streamed except where an index was asked for and can serve.
pub proof fn law_raw_transports(mode: StrobeMode, strategy: ParallelInputStrategy)
    ensures
        ({
            let accepted = raw_protocols(mode, strategy);
            let levels = mode is HighLevel || mode is LowLevel;
            &&& accepted.contains(ProtocolKind::EdgeQuery) <==> !levels && !(
            strategy is PackedStream)
            &&& accepted.contains(ProtocolKind::Stream) <==> levels || !(strategy is Indexed)
        }),
{
    let accepted = raw_protocols(mode, strategy);
    let stream = seq![ProtocolKind::Stream];
    let query = seq![ProtocolKind::EdgeQuery];
    let both = seq![ProtocolKind::EdgeQuery, ProtocolKind::Stream];
    assert(stream[0] == ProtocolKind::Stream);
    assert(query[0] == ProtocolKind::EdgeQuery);
    assert(both[0] == ProtocolKind::EdgeQuery);
    assert(both[1] == ProtocolKind::Stream);
}

/// An input only gets a transport that it was offered and that it accepts, and an input with
/// nothing on offer gets none.
pub proof fn law_chosen_transport_is_offered_and_accepted(
    mode: StrobeMode,
    strategy: ParallelInputStrategy,
    num_data_bits: int,
    candidates: Seq<Option<InputProtocolCandidate>>,
    preferred: Option<ProtocolKind>,
    index: int,
)
    requires
        0 <= index < num_data_bits + 3,
        num_data_bits + 3 <= candidates.len(),
    ensures
        chosen_protocol(mode, strategy, num_data_bits, candidates, preferred, index) matches Some(
            protocol,
        ) ==> {
            &&& candidates[index] is Some
            &&& candidates[index]->0.offered@.contains(protocol)
            &&& accepted_protocols(mode, strategy, num_data_bits, index).contains(protocol)
        },
        candidates[index] is None ==> chosen_protocol(
            mode,
            strategy,
            num_data_bits,
            candidates,
            preferred,
            index,
        ) is None,
{
    if let Some(candidate) = candidates[index] {
        law_first_accepted_transport(
            candidate.offered@,
            accepted_protocols(mode, strategy, num_data_bits, index),
        );
    }
}

/// The transport that the strobe's activity asks for is taken by every connected raw input
/// where each of them offers it.
pub proof fn law_preferred_transport_is_taken(
    mode: StrobeMode,
    num_data_bits: int,
    candidates: Seq<Option<InputProtocolCandidate>>,
    preferred: ProtocolKind,
    index: int,
)
    requires
        mode.on_edges(),
        0 <= index < num_data_bits + 2 <= candidates.len(),
        candidates[index] is Some,
        forall|k: int|
            0 <= k < num_data_bits + 2 && (#[trigger] candidates[k]) is Some
                ==> candidates[k]->0.offered@.contains(preferred),
    ensures
        chosen_protocol(
            mode,
            ParallelInputStrategy::Auto,
            num_data_bits,
            candidates,
            Some(preferred),
            index,
        ) == Some(preferred),
{
    law_raw_transports(mode, ParallelInputStrategy::Auto);
    assert(group_supports(
        mode,
        ParallelInputStrategy::Auto,
        num_data_bits,
        candidates,
        preferred,
    ));
}

/// No two inputs have one name, and all but the last carry packed blocks.
pub proof fn law_inputs_are_told_apart(num_data_bits: int, i: int, j: int)
    requires
        0 <= num_data_bits,
        0 <= i < j < num_data_bits + 3,
    ensures
        input_name(num_data_bits, i) != input_name(num_data_bits, j),
        input_kind(num_data_bits, i) == InputKind::Blocks,
        input_kind(num_data_bits, num_data_bits + 2) == InputKind::Levels,
{
    reveal_strlit("strobe");
    reveal_strlit("cs");
    reveal_strlit("enable_signal");
    let first = input_name(num_data_bits, i);
    let second = input_name(num_data_bits, j);
    if 1 <= i && j <= num_data_bits {
        if first == second {
            assert(first.skip(1) =~= decimal((i - 1) as nat));
            assert(second.skip(1) =~= decimal((j - 1) as nat));
            law_decimal_reads_back((i - 1) as nat);
            law_decimal_reads_back((j - 1) as nat);
        }
    } else {
        assert(first[0] != second[0]);
    }
}

/// A trigger in a buffer takes eight bytes for its position and eight for its value; eight flags
/// take one byte.
pub proof fn law_capacity_in_bytes(positions: int, values: int, flags: int)
    requires
        0 <= positions,
        0 <= values,
        0 <= flags,
        8 * positions + 8 * values + flags <= usize::MAX,
    ensures
        8 * (capacity_bytes(positions, values, flags) - 8 * positions - 8 * values) >= flags,
        8 * (capacity_bytes(positions, values, flags) - 8 * positions - 8 * values) < flags + 8,
{
}

/// A completed scan frees its worker. Its fragment is merged where it is its turn, and else kept
/// under its number until it is.
pub proof fn law_completed_scan_frees_its_worker(
    before: ParallelStreamState,
    fragment: DecodeFragment,
    expected: u64,
    after: ParallelStreamState,
    step: CompletionStep,
)
    requires
        completion_step(before, FragmentCompletion::Complete(fragment), expected, after, step),
    ensures
        after.in_flight + 1 == before.in_flight,
        step is Ready <==> fragment.sequence == expected,
        step matches CompletionStep::Ready(ready) ==> ready == fragment,
        step is Stored <==> fragment.sequence != expected,
        step is Stored ==> after.reorder@.contains_key(fragment.sequence)
            && after.reorder@[fragment.sequence] == fragment,
        forall|sequence: u64|
            #![trigger after.reorder@.contains_key(sequence)]
            sequence != fragment.sequence ==> after.reorder@.contains_key(sequence)
                == before.reorder@.contains_key(sequence),
{
}

/// Where some connected raw input lacks the transport that is asked for, and all of them offer the
/// other one, all take the other one.
pub proof fn law_other_transport_is_taken(
    mode: StrobeMode,
    num_data_bits: int,
    candidates: Seq<Option<InputProtocolCandidate>>,
    preferred: ProtocolKind,
    other: ProtocolKind,
    lacking: int,
    index: int,
)
    requires
        mode.on_edges(),
        other != preferred,
        0 <= index < num_data_bits + 2 <= candidates.len(),
        candidates[index] is Some,
        0 <= lacking < num_data_bits + 2,
        candidates[lacking] is Some,
        !candidates[lacking]->0.offered@.contains(preferred),
        forall|k: int|
            0 <= k < num_data_bits + 2 && (#[trigger] candidates[k]) is Some
                ==> candidates[k]->0.offered@.contains(other),
    ensures
        chosen_protocol(
            mode,
            ParallelInputStrategy::Auto,
            num_data_bits,
            candidates,
            Some(preferred),
            index,
        ) == Some(other),
{
    law_raw_transports(mode, ParallelInputStrategy::Auto);
    assert(!group_supports(
        mode,
        ParallelInputStrategy::Auto,
        num_data_bits,
        candidates,
        preferred,
    )) by {
        assert(candidates[lacking] is Some);
    }
    assert(group_supports(mode, ParallelInputStrategy::Auto, num_data_bits, candidates, other));
}

} // verus!
