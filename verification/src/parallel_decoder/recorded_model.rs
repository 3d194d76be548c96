//! A recorded bus is decoded as its signals run, whatever the batches it is decoded in.

use vstd::prelude::*;

use crate::bits::{bit_of, lemma_same_bits, lemma_single_bit, lemma_word_ops, word_bit};
use crate::parallel_decoder::agreement::{
    edge_list, items_at, law_edges_give_all_triggers, lemma_edge_positions_prefix, searched_from,
    Gate,
};
use crate::parallel_decoder::decoder::ParallelDecoder;
use crate::parallel_decoder::gate::{
    changes_in_window, edge_changes, gate_result, law_ranges_are_enabled_samples, level_at,
    EnableWindow,
};
use crate::parallel_decoder::index_model::{
    cs_says, enable_says, law_batch_is_index_driven, lemma_quiet_points, shuts,
};
use crate::parallel_decoder::indexed::{
    edge_positions, edge_triggers, initial_triggers, triggers_left, TriggerEnable,
};
use crate::parallel_decoder::merge::MergeState;
use crate::parallel_decoder::recorded::{
    changes_between, cuts_at, gap_start, leaves_level, lemma_changes_ordered,
    lemma_changes_within, lemma_found_within, lemma_passed_within, level_ahead_of, levels_at,
    recorded_gate, recorded_items, recorded_value, BusLevels,
};
use crate::parallel_decoder::sample_model::Signals;
use crate::parallel_decoder::scan::{bus_value, cs_open, lemma_bus_bits};
use crate::parallel_decoder::types::{in_ranges, StrobeMode};
use crate::streams::{CaptureTransition, SampleBlock, Word};

verus! {

/// Whether a block holds the levels of a signal.
pub open spec fn block_records(block: SampleBlock, levels: Seq<bool>, len: int) -> bool {
    forall|i: int| 0 <= i < len ==> #[trigger] bit_of(block.data@, i) == levels[i]
}

/// Whether signals run as a bus is recorded.
pub open spec fn signals_record(signals: Signals, bus: BusLevels) -> bool {
    let len = bus.strobe.len() as int;
    &&& signals.strobe.start_position == 0
    &&& block_records(signals.strobe, bus.strobe, len)
    &&& signals.data.len() == bus.data.len()
    &&& forall|k: int|
        0 <= k < bus.data.len() ==> block_records(#[trigger] signals.data[k], bus.data[k], len)
    &&& match (signals.cs, bus.cs) {
        (Some(block), Some(levels)) => block_records(block, levels, len),
        (None, None) => true,
        _ => false,
    }
}

/// The sample behind the next batch: behind its last edge, or behind the recording where the
/// strobe has no further edges.
pub open spec fn batch_end(decoder: ParallelDecoder, strobe: Seq<bool>) -> int {
    let edges = decoder.found_edges(strobe);
    if edges.len() < decoder.edges_wanted(strobe) {
        strobe.len() as int
    } else {
        edges.last().sample + 1
    }
}

proof fn lemma_changes_are_edges(levels: Seq<bool>, block: SampleBlock, from: int, end: int)
    requires
        0 <= from,
        end <= levels.len(),
        block_records(block, levels, levels.len() as int),
    ensures
        changes_between(levels, from, end) == edge_list(block.data@, from, end),
    decreases end - from,
{
    if end > from + 1 {
        lemma_changes_are_edges(levels, block, from, end - 1);
        assert(bit_of(block.data@, end - 1) == levels[end - 1]);
        assert(bit_of(block.data@, end - 2) == levels[end - 2]);
    }
}

proof fn lemma_changes_cut(levels: Seq<bool>, from: int, end: int, count: int)
    requires
        0 <= from,
        end <= levels.len() <= u64::MAX,
        0 < count <= changes_between(levels, from, end).len(),
    ensures
        ({
            let changes = changes_between(levels, from, end);
            let cut = changes[count - 1].sample + 1;
            from + 1 < cut <= end && changes_between(levels, from, cut) == changes.take(count)
        }),
    decreases end - from,
{
    let changes = changes_between(levels, from, end);
    let before = changes_between(levels, from, end - 1);
    if count == changes.len() && before.len() < changes.len() {
        assert(changes.take(count) =~= changes);
    } else {
        lemma_changes_cut(levels, from, end - 1, count);
        assert(changes[count - 1] == before[count - 1]);
        assert(changes.take(count) =~= before.take(count));
    }
}

/// Changes alternate, so at most every other one triggers where only one direction does.
proof fn lemma_every_other_change(mode: StrobeMode, levels: Seq<bool>, from: int, end: int)
    requires
        mode is RisingEdge || mode is FallingEdge,
        0 <= from < end <= levels.len() <= u64::MAX,
    ensures
        ({
            let changes = changes_between(levels, from, end);
            let found = edge_positions(mode, changes, changes.len()).len();
            2 * found <= changes.len() + if edge_triggers(mode, levels[end - 1]) {
                1int
            } else {
                0int
            }
        }),
    decreases end - from,
{
    if end > from + 1 {
        lemma_every_other_change(mode, levels, from, end - 1);
        let changes = changes_between(levels, from, end);
        let before = changes_between(levels, from, end - 1);
        if before.len() < changes.len() {
            lemma_edge_positions_prefix(mode, before, changes.last(), before.len());
            assert(changes == before.push(changes.last()));
        }
    }
}

proof fn lemma_position_count(mode: StrobeMode, edges: Seq<CaptureTransition>, count: nat)
    requires
        count <= edges.len(),
    ensures
        edge_positions(mode, edges, count).len() <= count,
    decreases count,
{
    if count > 0 {
        lemma_position_count(mode, edges, (count - 1) as nat);
    }
}

/// The triggers that the search for a batch finds are those of the samples up to its end.
pub proof fn lemma_found_are_all(decoder: ParallelDecoder, signals: Signals, bus: BusLevels)
    requires
        decoder.mode.on_edges(),
        signals.config == decoder.scan_config(),
        signals_record(signals, bus),
        decoder.query_strobe_position < bus.strobe.len() <= u64::MAX,
    ensures
        decoder.query_strobe_position < batch_end(decoder, bus.strobe) <= bus.strobe.len(),
        decoder.found_triggers(bus.strobe) == signals.trigger_list(
            searched_from(decoder.query_strobe_position as int),
            batch_end(decoder, bus.strobe),
        ),
{
    let strobe = bus.strobe;
    let position = decoder.query_strobe_position as int;
    let all = changes_between(strobe, position, strobe.len() as int);
    let edges = decoder.found_edges(strobe);
    let wanted = decoder.edges_wanted(strobe);
    let end = batch_end(decoder, strobe);
    assert(wanted > 0);
    if edges.len() < wanted {
        assert(edges == all);
    } else {
        assert(edges =~= all.take(wanted));
        lemma_changes_cut(strobe, position, strobe.len() as int, wanted);
    }
    assert(edges == changes_between(strobe, position, end));
    lemma_changes_are_edges(strobe, signals.strobe, position, end);
    law_edges_give_all_triggers(signals, position, end);
    assert(bit_of(signals.strobe.data@, 0) == strobe[0]);
    let found = edge_positions(decoder.mode, edges, edges.len());
    if decoder.mode is AnyEdge {
        lemma_position_count(decoder.mode, edges, edges.len());
    } else {
        lemma_every_other_change(decoder.mode, strobe, position, end);
    }
    assert(found.len() <= triggers_left(
        decoder.triggered_at_start(strobe),
    ));
    assert(decoder.triggered_at_start(strobe) == (position == 0 && signals.triggers(0)));
}

proof fn lemma_recorded_bus(data: Seq<Seq<bool>>, blocks: Seq<SampleBlock>, count: nat, sample: int, j: int)
    requires
        count <= data.len() <= 64,
        data.len() == blocks.len(),
        0 <= j < 64,
        forall|k: int|
            0 <= k < data.len() ==> bit_of((#[trigger] blocks[k]).data@, sample) == data[k][sample],
    ensures
        word_bit(recorded_value(data, count, sample), j) == (j < count && data[j][sample]),
    decreases count,
{
    if count == 0 {
        lemma_word_ops(0, 0, j);
    } else {
        lemma_recorded_bus(data, blocks, (count - 1) as nat, sample, j);
        let before = recorded_value(data, (count - 1) as nat, sample);
        lemma_word_ops(before, 1u64 << ((count - 1) as u64), j);
        lemma_single_bit(count - 1, j);
    }
}

proof fn lemma_recorded_values(signals: Signals, bus: BusLevels, sample: int)
    requires
        signals_record(signals, bus),
        bus.data.len() <= 64,
        0 <= sample < bus.strobe.len(),
    ensures
        recorded_value(bus.data, bus.data.len(), sample) == bus_value(signals.data, sample),
{
    let read = recorded_value(bus.data, bus.data.len(), sample);
    let value = bus_value(signals.data, sample);
    assert forall|k: int| 0 <= k < bus.data.len() implies bit_of(
        (#[trigger] signals.data[k]).data@,
        sample,
    ) == bus.data[k][sample] by {
        assert(block_records(signals.data[k], bus.data[k], bus.strobe.len() as int));
    }
    assert forall|j: int| 0 <= j < 64 implies #[trigger] word_bit(read, j) == word_bit(value, j) by {
        lemma_recorded_bus(bus.data, signals.data, bus.data.len(), sample, j);
        lemma_bus_bits(signals.data, signals.data.len(), sample, j);
        if j < bus.data.len() {
            assert(bit_of(signals.data[j].data@, sample) == bus.data[j][sample]);
        }
    }
    lemma_same_bits(read, value);
}

/// What decoding has come to in a decoder, with the words so far.
pub open spec fn progress_of(decoder: ParallelDecoder, words: Seq<Word>) -> MergeState {
    MergeState { assembly: decoder.assembly, words }
}

/// Whether a decoder has looked at every trigger before the place where its search goes on.
pub open spec fn gates_follow_search(decoder: ParallelDecoder, signals: Signals) -> bool {
    let searched = searched_from(decoder.query_strobe_position as int);
    &&& decoder.query_gate_position <= searched
    &&& forall|i: int|
        decoder.query_gate_position <= i < searched ==> !#[trigger] signals.triggers(i)
}

/// Samples without a trigger do not change where a list of triggers begins to matter.
pub proof fn lemma_triggers_from(signals: Signals, first: int, from: int, end: int)
    requires
        first <= from <= end,
        forall|i: int| first <= i < from ==> !#[trigger] signals.triggers(i),
    ensures
        signals.trigger_list(first, end) == signals.trigger_list(from, end),
    decreases end - first,
{
    if from < end {
        lemma_triggers_from(signals, first, from, end - 1);
    } else if first < end {
        assert(!signals.triggers(end - 1));
        lemma_triggers_from(signals, first, end - 1, end - 1);
        assert(signals.trigger_list(first, end) == signals.trigger_list(first, end - 1));
        assert(signals.trigger_list(end - 1, end - 1) =~= signals.trigger_list(end, end));
    }
}

pub proof fn lemma_recorded_cs(
    decoder: ParallelDecoder,
    signals: Signals,
    bus: BusLevels,
    triggers: Seq<u64>,
)
    requires
        bus.cs is None ==> decoder.cs_polarity is Disabled,
        signals.config == decoder.scan_config(),
        signals_record(signals, bus),
        forall|k: int| 0 <= k < triggers.len() ==> (#[trigger] triggers[k]) < bus.strobe.len(),
    ensures
        cs_says(
            decoder.cs_at(bus, triggers),
            signals,
            decoder.query_gate_position as int,
            triggers,
            decoder.assembles(),
        ),
{
    let cs = decoder.cs_at(bus, triggers);
    let from = decoder.query_gate_position as int;
    if !(decoder.cs_polarity is Disabled) {
        let levels = bus.cs->0;
        let block = signals.cs->0;
        let active = decoder.cs_polarity is ActiveHigh;
        let level = |i: int| cs_open(signals.config, signals.cs, i);
        assert forall|k: int| 0 <= k < triggers.len() implies #[trigger] cs.values[k] == bit_of(
            block.data@,
            triggers[k] as int,
        ) by {
            assert(triggers[k] < bus.strobe.len());
        }
        assert forall|k: int|
            0 <= k < triggers.len() && decoder.assembles() && cs.opens(k) implies #[trigger] cs.cuts[k]
            == shuts(level, gap_start(from, triggers, k), triggers[k] as int) by {
            let gap = gap_start(from, triggers, k);
            let x = triggers[k] as int;
            assert(x < bus.strobe.len());
            assert(cs.values[k] == levels[x]);
            assert forall|i: int| 0 <= i < bus.strobe.len() implies #[trigger] level(i) == (levels[i]
                == active) by {
                assert(bit_of(block.data@, i) == levels[i]);
            }
            if leaves_level(levels, active, gap, x) {
                let i = choose|i: int| gap <= i < x && #[trigger] levels[i] != active;
                assert(!level(i));
            }
            if shuts(level, gap, x) {
                let i = choose|i: int| gap <= i < x && !#[trigger] level(i);
                assert(levels[i] != active);
            }
        }
    }
}

/// A batch of a recorded bus decodes exactly what the recorded signals say, sample by sample,
/// from the place where the gates were last looked at to behind the batch's last trigger; there
/// is no trigger between there and the end of the batch. Where the changes of the enable signal
/// are received, a batch waits until they are known.
pub proof fn law_recorded_batch_is_sample_by_sample(
    decoder: ParallelDecoder,
    signals: Signals,
    bus: BusLevels,
    gate: Gate,
    known: TriggerEnable,
)
    requires
        decoder.wf(),
        decoder.mode.on_edges(),
        bus.data.len() == decoder.num_data_bits,
        bus.cs is None ==> decoder.cs_polarity is Disabled,
        signals.config == decoder.scan_config(),
        signals.format == decoder.word_format(),
        signals_record(signals, bus),
        decoder.query_strobe_position < bus.strobe.len() <= u64::MAX,
        gates_follow_search(decoder, signals),
        enable_says(
            known,
            decoder.enable,
            signals.strobe.timestamp_step,
            decoder.query_gate_position as int,
            batch_end(decoder, bus.strobe),
            decoder.found_triggers(bus.strobe),
            decoder.assembles(),
            progress_of(decoder, Seq::empty()),
            gate,
        ),
    ensures
        ({
            let step = signals.strobe.timestamp_step;
            let gated = decoder.passed_triggers(bus, known, step);
            let left = decoder.gates_known_to(bus.strobe);
            &&& decoder.query_gate_position <= left <= batch_end(decoder, bus.strobe)
            &&& forall|i: int|
                left <= i < batch_end(decoder, bus.strobe) ==> !#[trigger] signals.triggers(i)
            &&& !(known is Streamed) ==> gated is Some
            &&& gated is Some ==> decoder.recorded_words(bus, gated->0, step) == signals.points(
                gate,
                progress_of(decoder, Seq::empty()),
                decoder.query_gate_position as int,
                left as int,
            )
        }),
{
    let step = signals.strobe.timestamp_step;
    let start = progress_of(decoder, Seq::empty());
    let from = decoder.query_gate_position as int;
    let end = batch_end(decoder, bus.strobe);
    let triggers = decoder.found_triggers(bus.strobe);
    lemma_found_are_all(decoder, signals, bus);
    lemma_found_within(decoder, bus.strobe);
    lemma_triggers_from(
        signals,
        from,
        searched_from(decoder.query_strobe_position as int),
        end,
    );
    let cs = decoder.cs_at(bus, triggers);
    lemma_recorded_cs(decoder, signals, bus, triggers);
    law_batch_is_index_driven(signals, gate, cs, known, decoder.enable, start, from, end);
    let gated = decoder.passed_triggers(bus, known, step);
    if gated is Some {
        lemma_passed_within(
            initial_triggers(known, decoder.enable),
            triggers,
            cs,
            known,
            step,
            triggers.len(),
            bus.strobe.len() as int,
        );
        let eligible = gated->0.eligible;
        assert forall|i: int| 0 <= i < eligible.len() implies recorded_value(
            bus.data,
            bus.data.len(),
            (#[trigger] eligible[i]).0 as int,
        ) == bus_value(signals.data, eligible[i].0 as int) by {
            lemma_recorded_values(signals, bus, eligible[i].0 as int);
        }
        assert(recorded_items(bus.data, eligible) =~= items_at(signals.data, eligible));
    }
}

/// A recorded enable signal, sample by sample.
pub open spec fn recorded_enable(levels: Seq<bool>) -> Gate {
    Gate { open: |i: int| levels[i], restarts: |i: int| false }
}

/// An enable signal that is not connected.
pub open spec fn always_enabled() -> Gate {
    Gate { open: |i: int| true, restarts: |i: int| false }
}

/// What a recorded enable signal is known to say at triggers is what it says sample by sample.
pub proof fn lemma_recorded_enable_says(
    levels: Seq<bool>,
    decoder: ParallelDecoder,
    timestamp_step: u64,
    to: int,
    triggers: Seq<u64>,
    known: TriggerEnable,
    start: MergeState,
)
    requires
        known matches TriggerEnable::Indexed { values, cuts } && values@ == levels_at(
            levels,
            triggers,
        ) && cuts@ == cuts_at(
            levels,
            true,
            decoder.query_gate_position as int,
            triggers,
            decoder.assembles(),
        ),
    ensures
        enable_says(
            known,
            decoder.enable,
            timestamp_step,
            decoder.query_gate_position as int,
            to,
            triggers,
            decoder.assembles(),
            start,
            recorded_enable(levels),
        ),
{
    let gate = recorded_enable(levels);
    let from = decoder.query_gate_position as int;
    assert forall|k: int|
        0 <= k < triggers.len() && decoder.assembles() && (gate.open)(triggers[k] as int)
        implies #[trigger] known->cuts@[k] == shuts(
        gate.open,
        gap_start(from, triggers, k),
        triggers[k] as int,
    ) by {
        let gap = gap_start(from, triggers, k);
        let x = triggers[k] as int;
        if leaves_level(levels, true, gap, x) {
            let i = choose|i: int| gap <= i < x && #[trigger] levels[i] != true;
            assert(!(gate.open)(i));
        }
        if shuts(gate.open, gap, x) {
            let i = choose|i: int| gap <= i < x && !#[trigger] (gate.open)(i);
            assert(levels[i] != true);
        }
    }
}

/// Words that came before do not change what samples yield.
pub proof fn lemma_words_before(
    signals: Signals,
    gate: Gate,
    state: MergeState,
    words: Seq<Word>,
    from: int,
    to: int,
)
    requires
        from <= to,
        state.words.len() == 0,
    ensures
        signals.points(gate, MergeState { words, ..state }, from, to) == (MergeState {
            assembly: signals.points(gate, state, from, to).assembly,
            words: words + signals.points(gate, state, from, to).words,
        }),
    decreases to - from,
{
    let more = MergeState { words, ..state };
    if from < to {
        lemma_words_before(signals, gate, state, words, from, to - 1);
        let before = signals.points(gate, state, from, to - 1);
        let after = signals.points(gate, state, from, to);
        assert(signals.points(gate, more, from, to).words =~= words + after.words);
    } else {
        assert(words + state.words =~= words);
    }
}

/// What holds of a decoder of a recorded bus between two batches, with the words so far: it has
/// come to what the signals yield sample by sample up to the place where its gates were last
/// looked at.
pub open spec fn recorded_run_holds(
    start: ParallelDecoder,
    signals: Signals,
    gate: Gate,
    decoder: ParallelDecoder,
    words: Seq<Word>,
) -> bool {
    &&& decoder.wf()
    &&& signals.config == decoder.scan_config()
    &&& signals.format == decoder.word_format()
    &&& gates_follow_search(decoder, signals)
    &&& progress_of(decoder, words) == signals.points(
        gate,
        progress_of(start, Seq::empty()),
        0,
        decoder.query_gate_position as int,
    )
}

/// Whether the next batch of a decoder can be decoded, and yields what the signals yield from the
/// place where its gates were last looked at to behind its last trigger.
pub open spec fn batch_decodes(
    decoder: ParallelDecoder,
    signals: Signals,
    bus: BusLevels,
    gate: Gate,
    known: TriggerEnable,
) -> bool {
    let step = signals.strobe.timestamp_step;
    &&& decoder.passed_triggers(bus, known, step) matches Some(gated)
    &&& decoder.recorded_words(bus, gated, step) == signals.points(
        gate,
        progress_of(decoder, Seq::empty()),
        decoder.query_gate_position as int,
        decoder.gates_known_to(bus.strobe) as int,
    )
}

/// Where the gates are looked at by a batch: up to its last trigger.
pub proof fn lemma_batch_bounds(decoder: ParallelDecoder, signals: Signals, bus: BusLevels)
    requires
        decoder.wf(),
        decoder.mode.on_edges(),
        bus.data.len() == decoder.num_data_bits,
        bus.cs is None ==> decoder.cs_polarity is Disabled,
        signals.config == decoder.scan_config(),
        signals.format == decoder.word_format(),
        signals_record(signals, bus),
        decoder.query_strobe_position < bus.strobe.len() <= u64::MAX,
        gates_follow_search(decoder, signals),
    ensures
        ({
            let left = decoder.gates_known_to(bus.strobe);
            &&& decoder.query_gate_position <= left <= batch_end(decoder, bus.strobe)
            &&& forall|i: int|
                left <= i < batch_end(decoder, bus.strobe) ==> !#[trigger] signals.triggers(i)
        }),
{
    law_recorded_batch_is_sample_by_sample(
        decoder,
        signals,
        bus,
        always_enabled(),
        TriggerEnable::Unconnected,
    );
}

/// A batch goes on where the batches before it ended, and a run that has come to its end has
/// yielded the words of all samples.
pub proof fn law_recorded_run(
    start: ParallelDecoder,
    signals: Signals,
    bus: BusLevels,
    gate: Gate,
    decoder: ParallelDecoder,
    words: Seq<Word>,
    known: TriggerEnable,
)
    requires
        recorded_run_holds(start, signals, gate, decoder, words),
        decoder.mode.on_edges(),
        bus.data.len() == decoder.num_data_bits,
        bus.cs is None ==> decoder.cs_polarity is Disabled,
        signals_record(signals, bus),
        decoder.query_strobe_position < bus.strobe.len() <= u64::MAX,
        batch_decodes(decoder, signals, bus, gate, known),
        decoder.after_batch(
            bus,
            decoder.passed_triggers(bus, known, signals.strobe.timestamp_step)->0,
            signals.strobe.timestamp_step,
        ).wf(),
    ensures
        ({
            let step = signals.strobe.timestamp_step;
            let gated = decoder.passed_triggers(bus, known, step)->0;
            let after = decoder.after_batch(bus, gated, step);
            let all = words + decoder.recorded_words(bus, gated, step).words;
            if decoder.found_edges(bus.strobe).len() < decoder.edges_wanted(bus.strobe) {
                all == signals.points(
                    gate,
                    progress_of(start, Seq::empty()),
                    0,
                    bus.strobe.len() as int,
                ).words
            } else {
                recorded_run_holds(start, signals, gate, after, all) && after.query_strobe_position
                    < bus.strobe.len()
            }
        }),
{
    let step = signals.strobe.timestamp_step;
    let gated = decoder.passed_triggers(bus, known, step)->0;
    let after = decoder.after_batch(bus, gated, step);
    let merged = decoder.recorded_words(bus, gated, step);
    let all = words + merged.words;
    let init = progress_of(start, Seq::empty());
    let from = decoder.query_gate_position as int;
    let left = decoder.gates_known_to(bus.strobe) as int;
    let end = batch_end(decoder, bus.strobe);
    lemma_batch_bounds(decoder, signals, bus);
    lemma_words_before(signals, gate, progress_of(decoder, Seq::empty()), words, from, left);
    law_runs_join(signals, gate, init, 0, from, left);
    lemma_found_are_all(decoder, signals, bus);
    let edges = decoder.found_edges(bus.strobe);
    lemma_changes_within(bus.strobe, decoder.query_strobe_position as int, bus.strobe.len() as int);
    let changes = changes_between(
        bus.strobe,
        decoder.query_strobe_position as int,
        bus.strobe.len() as int,
    );
    if edges.len() < decoder.edges_wanted(bus.strobe) {
        law_runs_join(signals, gate, init, 0, left, end);
        lemma_quiet_points(signals, gate, progress_of(after, all), left, end);
    } else {
        assert(edges.last() == changes[edges.len() - 1]);
    }
}

/// Samples decoded in two runs, one behind the other, give what one run over both gives.
pub proof fn law_runs_join(
    signals: Signals,
    gate: Gate,
    state: MergeState,
    from: int,
    mid: int,
    to: int,
)
    requires
        from <= mid <= to,
    ensures
        signals.points(gate, signals.points(gate, state, from, mid), mid, to)
            == signals.points(gate, state, from, to),
    decreases to - mid,
{
    if mid < to {
        law_runs_join(signals, gate, state, from, mid, to - 1);
    }
}

proof fn lemma_changes_give_levels(
    levels: Seq<bool>,
    first: int,
    end: int,
    block_start: int,
    i: int,
)
    requires
        0 <= first <= block_start + i < end <= levels.len() <= u64::MAX,
    ensures
        ({
            let changes = changes_between(levels, first, end);
            level_at(
                levels[first],
                edge_changes(changes, block_start, changes.len()),
                i,
            ) == levels[block_start + i]
        }),
    decreases end - first,
{
    let changes = changes_between(levels, first, end);
    let shown = edge_changes(changes, block_start, changes.len());
    if end > first + 1 {
        let before = changes_between(levels, first, end - 1);
        let shown_before = edge_changes(before, block_start, before.len());
        if before.len() < changes.len() {
            assert(shown.drop_last() =~= shown_before);
            assert(shown.last() == (end - 1 - block_start, levels[end - 1]));
            if block_start + i < end - 1 {
                lemma_changes_give_levels(levels, first, end - 1, block_start, i);
            }
        } else if block_start + i < end - 1 {
            lemma_changes_give_levels(levels, first, end - 1, block_start, i);
        } else {
            lemma_changes_give_levels(levels, first, end - 1, block_start, i - 1);
            lemma_changes_within(levels, first, end - 1);
            if shown.len() > 0 {
                assert(before[before.len() - 1].sample < end - 1);
                assert(shown.last().0 <= i - 1);
            }
        }
    } else {
        assert(shown.len() == 0);
    }
}

/// A window of a recorded signal is gated by all the changes of the signal inside it.
pub proof fn lemma_recorded_changes(
    levels: Seq<bool>,
    block_start: int,
    window_start: int,
    window_end: int,
    edges: &[CaptureTransition],
    window: EnableWindow,
)
    requires
        recorded_gate(levels, block_start, window_start, window_end, edges, window),
        0 <= block_start,
        0 <= window_start < window_end <= usize::MAX,
        block_start + window_end <= levels.len() <= u64::MAX,
    ensures
        ({
            let first = block_start + window_start;
            let all = changes_between(levels, first, block_start + window_end);
            let before = level_ahead_of(levels, first);
            gate_result(
                levels[first],
                !levels[first] || (before is Some && before->0 != levels[first]),
                edge_changes(all, block_start, all.len()),
                window_start,
                window_end,
                window,
            )
        }),
        ({
            let first = block_start + window_start;
            let all = changes_between(levels, first, block_start + window_end);
            changes_in_window(edge_changes(all, block_start, all.len()), window_start, window_end)
        }),
{
    let first = block_start + window_start;
    let end = block_start + window_end;
    let all = changes_between(levels, first, end);
    lemma_changes_within(levels, first, end);
    lemma_changes_ordered(levels, first, end);
    lemma_change_count(levels, first, end);
    let before = level_ahead_of(levels, first);
    let reset_pending = !levels[first] || (before is Some && before->0 != levels[first]);
    let count = choose|count: nat|
        {
            &&& count <= edges@.len()
            &&& forall|k: int|
                0 <= k < count ==> (#[trigger] edges@[k]).sample < block_start + window_end
            &&& count < edges@.len() ==> edges@[count as int].sample >= block_start + window_end
            &&& gate_result(
                levels[first],
                reset_pending,
                #[trigger] edge_changes(edges@, block_start, count),
                window_start,
                window_end,
                window,
            )
        };
    assert(edges@ == all);
    assert(count == edges@.len());
    let changes = edge_changes(all, block_start, all.len());
    assert(changes_in_window(changes, window_start, window_end)) by {
        assert forall|k: int| 0 <= k < changes.len() implies window_start <= (
        #[trigger] changes[k]).0 <= window_end by {
            assert(first < all[k].sample < end);
        }
        assert forall|j: int, k: int| 0 <= j < k < changes.len() implies (
        #[trigger] changes[j]).0 <= (#[trigger] changes[k]).0 by {
            assert(all[j].sample < all[k].sample);
        }
    }
}

/// A recorded signal enables a decoder exactly at the samples of a window at which it is high.
pub proof fn law_recorded_window_is_high_samples(
    levels: Seq<bool>,
    block_start: int,
    window_start: int,
    window_end: int,
    edges: &[CaptureTransition],
    window: EnableWindow,
    i: int,
)
    requires
        recorded_gate(levels, block_start, window_start, window_end, edges, window),
        0 <= block_start,
        0 <= window_start <= i < window_end <= usize::MAX,
        block_start + window_end <= levels.len() <= u64::MAX,
    ensures
        in_ranges(window.ranges@, i) == levels[block_start + i],
{
    let first = block_start + window_start;
    let end = block_start + window_end;
    let all = changes_between(levels, first, end);
    let before = level_ahead_of(levels, first);
    let reset_pending = !levels[first] || (before is Some && before->0 != levels[first]);
    let changes = edge_changes(all, block_start, all.len());
    lemma_recorded_changes(levels, block_start, window_start, window_end, edges, window);
    law_ranges_are_enabled_samples(
        levels[first],
        reset_pending,
        changes,
        window_start,
        window_end,
        i,
    );
    lemma_changes_give_levels(levels, first, end, block_start, i);
}

proof fn lemma_change_count(levels: Seq<bool>, first: int, end: int)
    requires
        0 <= first,
        first < end <= levels.len(),
    ensures
        changes_between(levels, first, end).len() < end - first,
    decreases end - first,
{
    if end > first + 1 {
        lemma_change_count(levels, first, end - 1);
    }
}

} // verus!
