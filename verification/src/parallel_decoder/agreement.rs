//! The index-driven path and the streamed path decode the same words.

use vstd::prelude::*;

use crate::bits::{bit_of, lemma_same_bits, spec_saturating_mul, word_bit};
use crate::parallel_decoder::gate::{
    changes_in_window, gated, law_ranges_are_enabled_samples, law_received_change_position,
    level_at, sample_changes, EnableInput, EnableScan, EnableWindow,
};
use crate::parallel_decoder::indexed::{
    channel_value, edge_positions, initial_triggers, lemma_channel_value, passed, trigger_items,
    trigger_steps, CsAt, EnableState, TriggerEnable,
};
use crate::parallel_decoder::merge::{MergeState, WordFormat};
use crate::parallel_decoder::sample_model::{restarts, SampleState, Signals};
use crate::parallel_decoder::scan::{bus_value, cs_open, lemma_bus_bits, level_before};
use crate::parallel_decoder::types::{in_ranges, EnabledRange, StrobeMode};
use crate::streams::{CaptureTransition, Sample, SampleBlock};

verus! {

/// An enable signal, sample by sample.
pub struct Gate {
    /// Whether it lets triggers pass.
    pub open: spec_fn(int) -> bool,
    /// Whether it was closed for a moment between this sample and the one before.
    pub restarts: spec_fn(int) -> bool,
}

impl Signals {
    /// Whether the strobe triggers at sample `i`; the level before the first sample counts as
    /// low.
    pub open spec fn triggers(self, i: int) -> bool {
        self.config.mode.triggers(
            level_before(self.strobe.data@, i),
            bit_of(self.strobe.data@, i),
        )
    }

    /// One sample behind a gate. A restart, a closed gate and a closed chip select drop the
    /// partial word. Where both are open a trigger adds a cycle.
    pub open spec fn point(self, gate: Gate, state: MergeState, i: int) -> MergeState {
        let entered = state.dropped_if((gate.restarts)(i));
        if !(gate.open)(i) || !cs_open(self.config, self.cs, i) {
            entered.dropped()
        } else if self.triggers(i) {
            entered.merged(
                self.format,
                self.strobe.timestamp_step,
                (self.strobe.start_position + i) as u64,
                bus_value(self.data, i),
            )
        } else {
            entered
        }
    }

    /// Samples `from..to` behind a gate.
    pub open spec fn points(self, gate: Gate, state: MergeState, from: int, to: int) -> MergeState
        decreases to - from,
    {
        if to <= from {
            state
        } else {
            self.point(gate, self.points(gate, state, from, to - 1), to - 1)
        }
    }

    /// Whether sample `i` drops a partial word.
    pub open spec fn drops(self, gate: Gate, i: int) -> bool {
        (gate.restarts)(i) || !(gate.open)(i) || !cs_open(self.config, self.cs, i)
    }

    /// Whether one of the samples `from..to` drops a partial word.
    pub open spec fn drops_within(self, gate: Gate, from: int, to: int) -> bool {
        exists|i: int| from <= i < to && #[trigger] self.drops(gate, i)
    }

    /// Positions of the triggers in samples `from..end`.
    pub open spec fn trigger_list(self, from: int, end: int) -> Seq<u64>
        decreases end - from,
    {
        if end <= from {
            Seq::empty()
        } else if self.triggers(end - 1) {
            self.trigger_list(from, end - 1).push((end - 1) as u64)
        } else {
            self.trigger_list(from, end - 1)
        }
    }
}

/// Level changes of the strobe after sample `from` and before sample `end`.
pub open spec fn edge_list(data: Seq<u8>, from: int, end: int) -> Seq<CaptureTransition>
    decreases end - from,
{
    if end <= from + 1 {
        Seq::empty()
    } else if bit_of(data, end - 1) != bit_of(data, end - 2) {
        edge_list(data, from, end - 1).push(
            CaptureTransition { sample: (end - 1) as u64, value: bit_of(data, end - 1) },
        )
    } else {
        edge_list(data, from, end - 1)
    }
}

/// The first sample that a search from `position` has to look at: the search takes in what lies
/// behind its position, and the very first sample.
pub open spec fn searched_from(position: int) -> int {
    if position == 0 {
        0
    } else {
        position + 1
    }
}

/// Decoding is the same whether the signals stream or are read from an index: the windows of the
/// streamed path decode what the signals say sample by sample. Ranges may drop a partial word
/// elsewhere only where none can be left, behind a disabled sample.
pub proof fn law_indexed_matches_streamed(
    signals: Signals,
    ranges: Seq<EnabledRange>,
    gate: Gate,
    state: SampleState,
    from: int,
    to: int,
)
    requires
        0 <= from <= to,
        state.previous == level_before(signals.strobe.data@, from),
        forall|i: int| from <= i < to ==> in_ranges(ranges, i) == #[trigger] (gate.open)(i),
        forall|i: int|
            from <= i < to && #[trigger] restarts(ranges, i) != (gate.restarts)(i) ==> if i == from {
                state.merge == state.merge.dropped()
            } else {
                !(gate.open)(i - 1)
            },
    ensures
        signals.points(gate, state.merge, from, to) == signals.samples(
            ranges,
            state,
            from,
            to,
        ).merge,
        signals.samples(ranges, state, from, to).previous == level_before(
            signals.strobe.data@,
            to,
        ),
        from < to && !(gate.open)(to - 1) ==> signals.points(gate, state.merge, from, to)
            == signals.points(gate, state.merge, from, to).dropped(),
    decreases to - from,
{
    if from < to {
        law_indexed_matches_streamed(signals, ranges, gate, state, from, to - 1);
        assert(in_ranges(ranges, to - 1) == (gate.open)(to - 1));
        let before = signals.points(gate, state.merge, from, to - 1);
        if restarts(ranges, to - 1) != (gate.restarts)(to - 1) {
            assert(before == before.dropped());
        }
    }
}

/// The complete list of strobe edges behind a position gives every trigger there, each once and
/// in order; a search from the start looks at the very first sample too.
pub proof fn law_edges_give_all_triggers(signals: Signals, position: int, end: int)
    requires
        0 <= position < end <= u64::MAX,
        signals.config.mode.on_edges(),
    ensures
        ({
            let edges = edge_list(signals.strobe.data@, position, end);
            let found = edge_positions(signals.config.mode, edges, edges.len());
            signals.trigger_list(searched_from(position), end) == (if position == 0
                && signals.triggers(0) {
                seq![0u64]
            } else {
                Seq::empty()
            }) + found
        }),
    decreases end,
{
    let mode = signals.config.mode;
    let data = signals.strobe.data@;
    let edges = edge_list(data, position, end);
    let from = searched_from(position);
    let head: Seq<u64> = if position == 0 && signals.triggers(0) {
        seq![0u64]
    } else {
        Seq::empty()
    };
    if end == position + 1 {
        assert(edge_positions(mode, edges, 0) =~= Seq::<u64>::empty());
        if position == 0 {
            assert(signals.trigger_list(0, 0) =~= Seq::<u64>::empty());
        }
        assert(signals.trigger_list(from, end) =~= head + Seq::<u64>::empty());
    } else {
        law_edges_give_all_triggers(signals, position, end - 1);
        let before = edge_list(data, position, end - 1);
        if edges.len() > before.len() {
            lemma_edge_positions_prefix(mode, before, edges.last(), before.len());
            assert(edges == before.push(edges.last()));
            assert(edges.last().value == bit_of(data, end - 1));
            if signals.triggers(end - 1) {
                assert(signals.trigger_list(from, end) =~= head + edge_positions(
                    mode,
                    edges,
                    edges.len(),
                ));
            }
        }
    }
}

/// A further edge does not change the positions of the edges before it.
pub proof fn lemma_edge_positions_prefix(
    mode: StrobeMode,
    edges: Seq<CaptureTransition>,
    edge: CaptureTransition,
    count: nat,
)
    requires
        count <= edges.len(),
    ensures
        edge_positions(mode, edges.push(edge), count) == edge_positions(mode, edges, count),
    decreases count,
{
    if count > 0 {
        lemma_edge_positions_prefix(mode, edges, edge, (count - 1) as nat);
        assert(edges.push(edge)[count - 1] == edges[count - 1]);
    }
}

/// The triggers that pass, with the bus values at their positions.
pub open spec fn items_at(data: Seq<SampleBlock>, eligible: Seq<(u64, bool)>) -> Seq<(u64, u64, bool)> {
    Seq::new(
        eligible.len(),
        |i: int| (eligible[i].0, bus_value(data, eligible[i].0 as int), eligible[i].1),
    )
}

/// Channel levels read at the eligible triggers give the bus values at their positions.
pub proof fn law_channels_give_bus_values(
    data: Seq<SampleBlock>,
    eligible: Seq<(u64, bool)>,
    channels: Seq<Vec<bool>>,
)
    requires
        data.len() <= 64,
        channels.len() == data.len(),
        forall|k: int, i: int|
            0 <= k < channels.len() && 0 <= i < eligible.len() ==> #[trigger] channels[k]@[i]
                == bit_of(data[k].data@, eligible[i].0 as int),
    ensures
        trigger_items(eligible, channels) == items_at(data, eligible),
{
    assert forall|i: int| 0 <= i < eligible.len() implies channel_value(
        channels,
        channels.len(),
        i,
    ) == #[trigger] bus_value(data, eligible[i].0 as int) by {
        let read = channel_value(channels, channels.len(), i);
        let bus = bus_value(data, eligible[i].0 as int);
        assert forall|j: int| 0 <= j < 64 implies #[trigger] word_bit(read, j) == word_bit(bus, j) by {
            lemma_channel_value(channels, channels.len(), i, j);
            lemma_bus_bits(data, data.len(), eligible[i].0 as int, j);
            if j < channels.len() {
                assert(channels[j]@[i] == bit_of(data[j].data@, eligible[i].0 as int));
            }
        }
        lemma_same_bits(read, bus);
    }
    assert(trigger_items(eligible, channels) =~= items_at(data, eligible));
}

pub proof fn lemma_items_at_prefix(
    start: MergeState,
    format: WordFormat,
    step: u64,
    items: Seq<(u64, u64, bool)>,
    item: (u64, u64, bool),
    count: nat,
)
    requires
        count <= items.len(),
    ensures
        start.merged_items(format, step, items.push(item), false, count) == start.merged_items(
            format,
            step,
            items,
            false,
            count,
        ),
    decreases count,
{
    if count > 0 {
        lemma_items_at_prefix(start, format, step, items, item, (count - 1) as nat);
        assert(items.push(item)[count - 1] == items[count - 1]);
    }
}

/// The time of a trigger.
pub open spec fn trigger_time(position: u64, timestamp_step: u64) -> u64 {
    spec_saturating_mul(position as int, timestamp_step as int) as u64
}

/// The level after the received changes that are not after some time.
pub open spec fn received_level(initial: bool, queued: Seq<Sample>, timestamp_ns: u64) -> bool {
    let count = passed(queued, 0, timestamp_ns);
    if count > 0 {
        queued[count - 1].value
    } else {
        initial
    }
}

/// Whether the level that a decoder has holds until the first change that it has not used up.
pub open spec fn known_until_next(enable: EnableState, queued: Seq<Sample>) -> bool {
    queued.len() > 0 ==> enable.next_change_position <= queued[0].start_time_ns
}

pub proof fn lemma_passed(queued: Seq<Sample>, from: int, timestamp_ns: u64)
    requires
        0 <= from <= queued.len(),
    ensures
        from <= passed(queued, from, timestamp_ns) <= queued.len(),
        forall|j: int|
            from <= j < passed(queued, from, timestamp_ns) ==> (#[trigger] queued[j]).start_time_ns
                <= timestamp_ns,
    decreases queued.len() - from,
{
    if from < queued.len() && queued[from].start_time_ns <= timestamp_ns {
        lemma_passed(queued, from + 1, timestamp_ns);
    }
}

proof fn lemma_passed_over(queued: Seq<Sample>, from: int, to: int, timestamp_ns: u64)
    requires
        0 <= from <= to <= queued.len(),
        forall|j: int| from <= j < to ==> (#[trigger] queued[j]).start_time_ns <= timestamp_ns,
    ensures
        passed(queued, from, timestamp_ns) == passed(queued, to, timestamp_ns),
    decreases to - from,
{
    if from < to {
        assert(queued[from].start_time_ns <= timestamp_ns);
        lemma_passed_over(queued, from + 1, to, timestamp_ns);
    }
}

/// Whether a level stands where some changes, all of them not after some time, are used up.
pub open spec fn caught_up(
    enable: EnableState,
    queued: Seq<Sample>,
    state: EnableState,
    consumed: int,
    timestamp_ns: u64,
) -> bool {
    &&& 0 <= consumed <= queued.len()
    &&& forall|j: int| 0 <= j < consumed ==> (#[trigger] queued[j]).start_time_ns <= timestamp_ns
    &&& state.current == if consumed > 0 {
        queued[consumed - 1].value
    } else {
        enable.current
    }
    &&& consumed < queued.len() ==> state.next_change_position <= queued[consumed].start_time_ns
}

/// Time of the last of the first `count` triggers.
pub open spec fn last_time(positions: Seq<u64>, timestamp_step: u64, count: nat) -> u64 {
    if count == 0 {
        0
    } else {
        trigger_time(positions[count - 1], timestamp_step)
    }
}

pub proof fn lemma_time_grows(first: u64, second: u64, timestamp_step: u64)
    requires
        first <= second,
    ensures
        trigger_time(first, timestamp_step) <= trigger_time(second, timestamp_step),
{
    assert(0 <= first * timestamp_step <= second * timestamp_step) by (nonlinear_arith)
        requires
            0 <= first <= second,
            0 <= timestamp_step,
    ;
}

pub proof fn lemma_caught_up(
    positions: Seq<u64>,
    cs: CsAt,
    known: TriggerEnable,
    enable: EnableState,
    timestamp_step: u64,
    count: nat,
)
    requires
        count <= positions.len(),
        forall|i: int, j: int|
            0 <= i <= j < positions.len() ==> #[trigger] positions[i] <= #[trigger] positions[j],
        known matches TriggerEnable::Streamed { queued, .. } && known_until_next(enable, queued@),
    ensures
        ({
            let gated = trigger_steps(
                initial_triggers(known, enable),
                positions,
                cs,
                known,
                timestamp_step,
                count,
            );
            gated is Some ==> caught_up(
                enable,
                known->queued@,
                gated->0.enable,
                gated->0.consumed,
                last_time(positions, timestamp_step, count),
            )
        }),
    decreases count,
{
    let queued = known->queued@;
    if count > 0 {
        let index = count - 1;
        lemma_caught_up(positions, cs, known, enable, timestamp_step, index as nat);
        let before = trigger_steps(
            initial_triggers(known, enable),
            positions,
            cs,
            known,
            timestamp_step,
            index as nat,
        );
        if before is Some {
            let time = trigger_time(positions[index], timestamp_step);
            if index > 0 {
                lemma_time_grows(positions[index - 1], positions[index], timestamp_step);
            }
            lemma_passed(queued, before->0.consumed, time);
        }
    }
}

pub proof fn lemma_caught_up_level(
    enable: EnableState,
    queued: Seq<Sample>,
    state: EnableState,
    consumed: int,
    before_ns: u64,
    timestamp_ns: u64,
)
    requires
        caught_up(enable, queued, state, consumed, before_ns),
        before_ns <= timestamp_ns,
    ensures
        passed(queued, 0, timestamp_ns) == passed(queued, consumed, timestamp_ns),
        consumed <= passed(queued, consumed, timestamp_ns) <= queued.len(),
        timestamp_ns < state.next_change_position ==> passed(queued, consumed, timestamp_ns)
            == consumed,
{
    lemma_passed_over(queued, 0, consumed, timestamp_ns);
    lemma_passed(queued, consumed, timestamp_ns);
}

pub proof fn lemma_trigger_list_grows(signals: Signals, from: int, end: int)
    requires
        0 <= from <= end <= u64::MAX,
    ensures
        forall|k: int|
            0 <= k < signals.trigger_list(from, end).len() ==> (#[trigger] signals.trigger_list(
                from,
                end,
            )[k]) < end,
        forall|i: int, j: int|
            0 <= i <= j < signals.trigger_list(from, end).len() ==> #[trigger] signals.trigger_list(
                from,
                end,
            )[i] <= #[trigger] signals.trigger_list(from, end)[j],
    decreases end - from,
{
    if end > from {
        lemma_trigger_list_grows(signals, from, end - 1);
        let before = signals.trigger_list(from, end - 1);
        let list = signals.trigger_list(from, end);
        assert forall|k: int| 0 <= k < list.len() implies (#[trigger] list[k]) < end by {
            if k < before.len() {
                assert(list[k] == before[k]);
            }
        }
        assert forall|i: int, j: int| 0 <= i <= j < list.len() implies #[trigger] list[i]
            <= #[trigger] list[j] by {
            if j < before.len() {
                assert(list[i] == before[i] && list[j] == before[j]);
            } else if i < before.len() {
                assert(list[i] == before[i]);
            }
        }
    }
}

proof fn lemma_level_of_changes(
    current: bool,
    queued: Seq<Sample>,
    step: int,
    block_start: int,
    window_start: int,
    window_end: int,
    i: int,
    count: nat,
)
    requires
        step > 0,
        block_start >= 0,
        window_start <= i < window_end,
        0 <= (block_start + i) * step <= u64::MAX,
        count <= queued.len(),
        forall|j: int, k: int|
            0 <= j <= k < queued.len() ==> (#[trigger] queued[j]).start_time_ns <= (
            #[trigger] queued[k]).start_time_ns,
    ensures
        ({
            let used = passed(queued, 0, ((block_start + i) * step) as u64);
            let last = if used < count {
                used
            } else {
                count as int
            };
            level_at(
                current,
                sample_changes(queued, step, block_start, window_start, window_end, count),
                i,
            ) == if last > 0 {
                queued[last - 1].value
            } else {
                current
            }
        }),
    decreases count,
{
    let time = ((block_start + i) * step) as u64;
    lemma_passed(queued, 0, time);
    if count > 0 {
        let changes = sample_changes(queued, step, block_start, window_start, window_end, count);
        let before = sample_changes(
            queued,
            step,
            block_start,
            window_start,
            window_end,
            (count - 1) as nat,
        );
        assert(changes.drop_last() =~= before);
        lemma_level_of_changes(
            current,
            queued,
            step,
            block_start,
            window_start,
            window_end,
            i,
            (count - 1) as nat,
        );
        law_received_change_position(
            queued[count - 1].start_time_ns as int,
            step,
            block_start,
            window_start,
            window_end,
            i,
        );
        lemma_passed_stops(queued, 0, time);
    }
}

pub proof fn lemma_passed_stops(queued: Seq<Sample>, from: int, timestamp_ns: u64)
    requires
        0 <= from <= queued.len(),
    ensures
        passed(queued, from, timestamp_ns) < queued.len() ==> queued[passed(
            queued,
            from,
            timestamp_ns,
        )].start_time_ns > timestamp_ns,
    decreases queued.len() - from,
{
    if from < queued.len() && queued[from].start_time_ns <= timestamp_ns {
        lemma_passed_stops(queued, from + 1, timestamp_ns);
    }
}

/// Where the changes of the enable signal are received, in order, a window of the streamed path is
/// enabled exactly at the samples at whose times the received level is high. The index-driven
/// path asks for the same level at its triggers.
pub proof fn law_window_follows_received_levels(
    queued: &[Sample],
    closed: bool,
    current: bool,
    block_start: int,
    window_start: int,
    window_end: int,
    timestamp_step: u64,
    window: EnableWindow,
    i: int,
)
    requires
        timestamp_step > 0,
        0 <= block_start,
        0 <= window_start <= i < window_end <= usize::MAX,
        (block_start + window_end) * timestamp_step <= u64::MAX,
        forall|j: int, k: int|
            0 <= j <= k < queued@.len() ==> (#[trigger] queued@[j]).start_time_ns <= (
            #[trigger] queued@[k]).start_time_ns,
        gated(
            EnableInput::Streamed { queued, closed },
            current,
            block_start,
            window_start,
            window_end,
            timestamp_step,
            EnableScan::Ready(window),
        ),
    ensures
        in_ranges(window.ranges@, i) == received_level(
            current,
            queued@,
            trigger_time((block_start + i) as u64, timestamp_step),
        ),
{
    let step = timestamp_step as int;
    let count = window.consumed as nat;
    let changes = sample_changes(
        queued@,
        step,
        block_start,
        window_start,
        window_end,
        count,
    );
    let sample = block_start + i;
    let end = block_start + window_end;
    assert(0 <= sample * step < end * step && sample <= sample * step) by (nonlinear_arith)
        requires
            0 <= sample < end,
            step > 0,
    ;
    let time = (sample * step) as u64;
    assert(changes_in_window(changes, window_start, window_end)) by {
        assert forall|j: int, k: int| 0 <= j < k < changes.len() implies (#[trigger] changes[j]).0
            <= (#[trigger] changes[k]).0 by {
            let first = queued@[j].start_time_ns as int;
            let second = queued@[k].start_time_ns as int;
            assert((first + step - 1) / step <= (second + step - 1) / step) by (nonlinear_arith)
                requires
                    0 <= first <= second,
                    step > 0,
            ;
        }
    }
    law_ranges_are_enabled_samples(current, !current, changes, window_start, window_end, i);
    lemma_level_of_changes(
        current,
        queued@,
        step,
        block_start,
        window_start,
        window_end,
        i,
        count,
    );
    lemma_passed(queued@, 0, time);
    if passed(queued@, 0, time) > count {
        assert(queued@[count as int].start_time_ns <= time);
    }
}

/// After a batch, the changes that it left over say of every later time what all changes said
/// before it, and the level is again known until the first of them.
pub proof fn law_left_over_changes_go_on(
    positions: Seq<u64>,
    cs: CsAt,
    known: TriggerEnable,
    enable: EnableState,
    timestamp_step: u64,
    timestamp_ns: u64,
)
    requires
        forall|i: int, j: int|
            0 <= i <= j < positions.len() ==> #[trigger] positions[i] <= #[trigger] positions[j],
        known matches TriggerEnable::Streamed { queued, .. } && known_until_next(enable, queued@),
        positions.len() > 0 ==> trigger_time(positions.last(), timestamp_step) <= timestamp_ns,
        trigger_steps(
            initial_triggers(known, enable),
            positions,
            cs,
            known,
            timestamp_step,
            positions.len(),
        ) is Some,
    ensures
        ({
            let gated = trigger_steps(
                initial_triggers(known, enable),
                positions,
                cs,
                known,
                timestamp_step,
                positions.len(),
            )->0;
            let queued = known->queued@;
            let left = queued.skip(gated.consumed);
            &&& 0 <= gated.consumed <= queued.len()
            &&& known_until_next(gated.enable, left)
            &&& received_level(gated.enable.current, left, timestamp_ns) == received_level(
                enable.current,
                queued,
                timestamp_ns,
            )
        }),
{
    let gated = trigger_steps(
        initial_triggers(known, enable),
        positions,
        cs,
        known,
        timestamp_step,
        positions.len(),
    )->0;
    let queued = known->queued@;
    lemma_caught_up(
        positions,
        cs,
        known,
        enable,
        timestamp_step,
        positions.len(),
    );
    let last = last_time(positions, timestamp_step, positions.len());
    lemma_caught_up_level(enable, queued, gated.enable, gated.consumed, last, timestamp_ns);
    lemma_passed_skip(queued, gated.consumed, 0, timestamp_ns);
}

proof fn lemma_passed_skip(queued: Seq<Sample>, consumed: int, from: int, timestamp_ns: u64)
    requires
        0 <= consumed <= queued.len(),
        0 <= from <= queued.len() - consumed,
    ensures
        passed(queued.skip(consumed), from, timestamp_ns) == passed(
            queued,
            consumed + from,
            timestamp_ns,
        ) - consumed,
        from <= passed(queued.skip(consumed), from, timestamp_ns) <= queued.len() - consumed,
    decreases queued.len() - consumed - from,
{
    if from < queued.len() - consumed {
        assert(queued.skip(consumed)[from] == queued[consumed + from]);
        if queued[consumed + from].start_time_ns <= timestamp_ns {
            lemma_passed_skip(queued, consumed, from + 1, timestamp_ns);
        }
    }
}

pub proof fn lemma_trigger_list_prefix(signals: Signals, from: int, end: int, total: int)
    requires
        0 <= from <= end <= total,
    ensures
        signals.trigger_list(from, end).len() <= signals.trigger_list(from, total).len(),
        forall|k: int|
            0 <= k < signals.trigger_list(from, end).len() ==> signals.trigger_list(from, end)[k]
                == #[trigger] signals.trigger_list(from, total)[k],
    decreases total - end,
{
    if end < total {
        lemma_trigger_list_prefix(signals, from, end, total - 1);
    }
}

} // verus!
