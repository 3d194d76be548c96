//! A streamed bus is decoded as its signals run, whatever the blocks and windows it comes in.

use vstd::prelude::*;

use crate::bits::{bit_of, lemma_same_bits, word_bit};
use crate::parallel_decoder::agreement::Gate;
use crate::parallel_decoder::decoder::ParallelDecoder;
use crate::parallel_decoder::gate::{
    edge_changes, gated, lemma_finished_wf, EnableInput, EnableScan, EnableWindow, GateState,
};
use crate::parallel_decoder::merge::MergeState;
use crate::parallel_decoder::parallel_order::merged_in_turn;
use crate::parallel_decoder::recorded::{
    changes_between, lemma_changes_ordered, lemma_changes_within, level_ahead_of, recorded_gate,
};
use crate::parallel_decoder::recorded_model::{
    always_enabled, law_recorded_window_is_high_samples, law_runs_join, lemma_recorded_changes,
    lemma_words_before, progress_of, recorded_enable,
};
use crate::parallel_decoder::sample_model::{
    law_window_is_sample_by_sample, restarts, SampleState, Signals,
};
use crate::parallel_decoder::scan::{bus_value, cs_open, lemma_bus_bits, level_before};
use crate::parallel_decoder::types::{in_ranges, ranges_in_window, EnabledRange, FragmentView};
use crate::streams::{CaptureTransition, SampleBlock};

verus! {

/// Whether a block holds the levels of a longer one from sample `at` on.
pub open spec fn block_part(part: SampleBlock, whole: SampleBlock, at: int, len: int) -> bool {
    forall|i: int| 0 <= i < len ==> #[trigger] bit_of(part.data@, i) == bit_of(whole.data@, at + i)
}

/// Whether the blocks of some signals are part of the signals of a whole run, from the place on at
/// which they say they start.
pub open spec fn signals_part(part: Signals, whole: Signals, len: int) -> bool {
    let at = part.strobe.start_position as int;
    &&& part.format == whole.format
    &&& part.config == whole.config
    &&& part.strobe.timestamp_step == whole.strobe.timestamp_step
    &&& whole.strobe.start_position == 0
    &&& block_part(part.strobe, whole.strobe, at, len)
    &&& part.data.len() == whole.data.len() <= 64
    &&& forall|k: int|
        0 <= k < part.data.len() ==> block_part(#[trigger] part.data[k], whole.data[k], at, len)
    &&& match (part.cs, whole.cs) {
        (Some(block), Some(all)) => block_part(block, all, at, len),
        (None, None) => true,
        _ => false,
    }
}

/// Whether the stretches of a window are those at which an enable signal is high. `at` is the place
/// of the window's block in the run.
pub open spec fn ranges_enable(
    ranges: Seq<EnabledRange>,
    start: int,
    end: int,
    at: int,
    gate: Gate,
) -> bool {
    &&& ranges_in_window(ranges, start, end)
    &&& ranges.len() > 0 && ranges[0].start > start ==> ranges[0].reset_before
    &&& forall|i: int|
        start <= i < end ==> #[trigger] in_ranges(ranges, i) == (gate.open)(at + i)
}

/// Whether the stretches of a window drop the partial word just where an enable signal does; where
/// it is low, or was at the sample before, none is left anyway.
pub open spec fn ranges_restart(
    ranges: Seq<EnabledRange>,
    start: int,
    end: int,
    at: int,
    gate: Gate,
) -> bool {
    forall|i: int|
        start <= i < end && #[trigger] restarts(ranges, i) != (gate.restarts)(at + i) ==> at + i == 0
            || !(gate.open)(at + i - 1) || !(gate.open)(at + i)
}

/// One window of a streamed run: the blocks that hold it, its samples, and its enabled stretches.
pub struct StreamedWindow {
    pub signals: Signals,
    pub sequence: u64,
    pub start: int,
    pub end: int,
    pub ranges: Seq<EnabledRange>,
}

impl StreamedWindow {
    /// The first sample of the window, counted from the start of the run.
    pub open spec fn from(self) -> int {
        self.signals.strobe.start_position + self.start
    }

    /// The sample behind the window, counted from the start of the run.
    pub open spec fn to(self) -> int {
        self.signals.strobe.start_position + self.end
    }

    /// The fragment that scanning the window yields.
    pub open spec fn fragment(self) -> FragmentView {
        self.signals.fragment(self.sequence, self.start, self.end, self.ranges)
    }

    /// Whether the window is one of a run, and its stretches are those of an enable signal. Where
    /// a word has one cycle, there are no partial words to drop.
    pub open spec fn belongs(self, whole: Signals, gate: Gate) -> bool {
        let at = self.signals.strobe.start_position as int;
        &&& 0 <= self.start < self.end
        &&& signals_part(self.signals, whole, self.end)
        &&& ranges_enable(self.ranges, self.start, self.end, at, gate)
        &&& whole.format.cycles_per_word > 1 ==> ranges_restart(
            self.ranges,
            self.start,
            self.end,
            at,
            gate,
        )
    }
}

/// Whether windows follow each other from the first sample of a run on.
pub open spec fn windows_follow(windows: Seq<StreamedWindow>) -> bool {
    forall|k: int|
        0 <= k < windows.len() ==> (#[trigger] windows[k]).from() == if k == 0 {
            0
        } else {
            windows[k - 1].to()
        }
}

/// The sample behind the first windows of a run.
pub open spec fn windows_end(windows: Seq<StreamedWindow>, count: nat) -> int {
    if count == 0 {
        0
    } else {
        windows[count - 1].to()
    }
}

/// The fragments of the windows of a run.
pub open spec fn window_fragments(windows: Seq<StreamedWindow>) -> Seq<FragmentView> {
    windows.map_values(|window: StreamedWindow| window.fragment())
}

proof fn lemma_part_bus(part: Signals, whole: Signals, len: int, i: int)
    requires
        signals_part(part, whole, len),
        0 <= i < len,
    ensures
        bus_value(part.data, i) == bus_value(whole.data, part.strobe.start_position + i),
{
    let at = part.strobe.start_position as int;
    let read = bus_value(part.data, i);
    let value = bus_value(whole.data, at + i);
    assert forall|j: int| 0 <= j < 64 implies #[trigger] word_bit(read, j) == word_bit(value, j) by {
        lemma_bus_bits(part.data, part.data.len(), i, j);
        lemma_bus_bits(whole.data, whole.data.len(), at + i, j);
        if j < part.data.len() {
            assert(block_part(part.data[j], whole.data[j], at, len));
            assert(bit_of(part.data[j].data@, i) == bit_of(whole.data[j].data@, at + i));
        }
    }
    lemma_same_bits(read, value);
}

/// Whether no partial word can be left ahead of sample `i`.
pub open spec fn nothing_partial(whole: Signals, gate: Gate, i: int) -> bool {
    i == 0 || !(gate.open)(i - 1) || whole.format.cycles_per_word == 1
}

/// The samples of a window, one by one, yield what the samples of the whole run yield there.
proof fn lemma_window_points(
    window: StreamedWindow,
    whole: Signals,
    gate: Gate,
    state: SampleState,
    to: int,
)
    requires
        window.belongs(whole, gate),
        window.start <= to <= window.end,
        window.from() >= 0,
        state.previous == level_before(whole.strobe.data@, window.from()),
        whole.format.wf(),
        nothing_partial(whole, gate, window.from()) ==> state.merge == state.merge.dropped(),
    ensures
        ({
            let at = window.signals.strobe.start_position as int;
            let decoded = window.signals.samples(window.ranges, state, window.start, to);
            &&& decoded.merge == whole.points(gate, state.merge, window.from(), at + to)
            &&& decoded.previous == level_before(whole.strobe.data@, at + to)
            &&& nothing_partial(whole, gate, at + to) ==> decoded.merge == decoded.merge.dropped()
        }),
    decreases to - window.start,
{
    if window.start < to {
        lemma_window_points(window, whole, gate, state, to - 1);
        let at = window.signals.strobe.start_position as int;
        let i = to - 1;
        lemma_part_bus(window.signals, whole, window.end, i);
        assert(bit_of(window.signals.strobe.data@, i) == bit_of(whole.strobe.data@, at + i));
        assert(in_ranges(window.ranges, i) == (gate.open)(at + i));
        assert(cs_open(window.signals.config, window.signals.cs, i) == cs_open(
            whole.config,
            whole.cs,
            at + i,
        )) by {
            if let (Some(block), Some(all)) = (window.signals.cs, whole.cs) {
                assert(bit_of(block.data@, i) == bit_of(all.data@, at + i));
            }
        }
        let before = window.signals.samples(window.ranges, state, window.start, i).merge;
        if restarts(window.ranges, i) != (gate.restarts)(at + i) && (gate.open)(at + i) {
            assert(before == before.dropped());
        }
    }
}

/// However a streamed bus is cut into blocks and windows, merging the windows in turn yields what
/// its signals yield, sample by sample, from the first sample to behind the last window.
pub proof fn law_streamed_run(
    start: ParallelDecoder,
    whole: Signals,
    gate: Gate,
    windows: Seq<StreamedWindow>,
    count: nat,
)
    requires
        count <= windows.len(),
        whole.config == start.scan_config(),
        whole.format == start.word_format(),
        whole.format.wf(),
        !start.last_strobe_value,
        start.assembly == start.assembly.dropped(),
        windows_follow(windows),
        forall|k: int| 0 <= k < windows.len() ==> (#[trigger] windows[k]).belongs(whole, gate),
    ensures
        ({
            let end = windows_end(windows, count);
            let merged = merged_in_turn(start, window_fragments(windows), count);
            let decoded = MergeState { assembly: merged.assembly, words: merged.words };
            &&& 0 <= end
            &&& decoded == whole.points(gate, progress_of(start, Seq::empty()), 0, end)
            &&& merged.last_strobe_value == level_before(whole.strobe.data@, end)
            &&& nothing_partial(whole, gate, end) ==> decoded == decoded.dropped()
        }),
    decreases count,
{
    let init = progress_of(start, Seq::empty());
    let fragments = window_fragments(windows);
    if count > 0 {
        law_streamed_run(start, whole, gate, windows, (count - 1) as nat);
        let before = merged_in_turn(start, fragments, (count - 1) as nat);
        let window = windows[count - 1];
        assert(window.belongs(whole, gate));
        assert(window.from() == windows_end(windows, (count - 1) as nat));
        assert(fragments[count - 1] == window.fragment());
        let state = SampleState {
            previous: before.last_strobe_value,
            merge: MergeState { assembly: before.assembly, words: Seq::empty() },
        };
        law_window_is_sample_by_sample(
            window.signals,
            window.sequence,
            window.start,
            window.end,
            window.ranges,
            state,
        );
        let decoded = MergeState { assembly: before.assembly, words: before.words };
        if nothing_partial(whole, gate, window.from()) {
            assert(decoded.dropped().assembly == before.assembly);
        }
        lemma_window_points(window, whole, gate, state, window.end);
        lemma_words_before(
            whole,
            gate,
            state.merge,
            before.words,
            window.from(),
            window.to(),
        );
        law_runs_join(whole, gate, init, 0, window.from(), window.to());
    } else {
        assert(whole.points(gate, init, 0, 0) == init);
    }
}

/// A window is enabled throughout where no enable signal is connected.
pub proof fn law_unconnected_window_follows(
    at: int,
    start: int,
    end: int,
    current: bool,
    timestamp_step: u64,
    window: EnableWindow,
)
    requires
        0 <= start < end <= usize::MAX,
        gated(
            EnableInput::Unconnected,
            current,
            at,
            start,
            end,
            timestamp_step,
            EnableScan::Ready(window),
        ),
    ensures
        ranges_enable(window.ranges@, start, end, at, always_enabled()),
        ranges_restart(window.ranges@, start, end, at, always_enabled()),
{
    let ranges = window.ranges@;
    assert forall|i: int| start <= i < end implies #[trigger] in_ranges(ranges, i) by {
        assert(ranges[0].start <= i < ranges[0].end);
    }
}

proof fn lemma_change_values(levels: Seq<bool>, from: int, end: int)
    requires
        0 <= from,
        end <= levels.len() <= u64::MAX,
    ensures
        forall|k: int|
            0 <= k < changes_between(levels, from, end).len() ==> {
                let change = #[trigger] changes_between(levels, from, end)[k];
                change.value == levels[change.sample as int] && change.value
                    != levels[change.sample - 1]
            },
    decreases end - from,
{
    if end > from + 1 {
        lemma_change_values(levels, from, end - 1);
        let before = changes_between(levels, from, end - 1);
        let all = changes_between(levels, from, end);
        assert forall|k: int| 0 <= k < all.len() implies {
            let change = #[trigger] all[k];
            change.value == levels[change.sample as int] && change.value
                != levels[change.sample - 1]
        } by {
            if k < before.len() {
                assert(all[k] == before[k]);
            }
        }
    }
}

/// Where a stretch starts that drops the partial word: behind a low sample, or at the start of the
/// window where that asks for it.
spec fn starts_behind_low(
    range: EnabledRange,
    first: bool,
    levels: Seq<bool>,
    at: int,
    start: int,
    reset_pending: bool,
) -> bool {
    !first || range.reset_before ==> (first && range.start == start && reset_pending) || !levels[at
        + range.start - 1]
}

proof fn lemma_starts_behind_low(
    levels: Seq<bool>,
    at: int,
    start: int,
    end: int,
    reset_pending: bool,
    count: nat,
)
    requires
        0 <= at,
        0 <= start < end <= usize::MAX,
        at + end <= levels.len() <= u64::MAX,
        count <= changes_between(levels, at + start, at + end).len(),
    ensures
        ({
            let all = changes_between(levels, at + start, at + end);
            let state = GateState {
                current: levels[at + start],
                cursor: start,
                reset_pending,
                ranges: Seq::empty(),
            };
            let after = state.changed(edge_changes(all, at, all.len()), count);
            &&& after.cursor == if count == 0 {
                start
            } else {
                all[count - 1].sample - at
            }
            &&& start <= after.cursor < end
            &&& count == 0 ==> after == state
            &&& count > 0 && after.current ==> !levels[at + after.cursor - 1]
            &&& forall|k: int|
                0 <= k < after.ranges.len() ==> starts_behind_low(
                    #[trigger] after.ranges[k],
                    k == 0,
                    levels,
                    at,
                    start,
                    reset_pending,
                )
        }),
    decreases count,
{
    let all = changes_between(levels, at + start, at + end);
    let changes = edge_changes(all, at, all.len());
    let state = GateState {
        current: levels[at + start],
        cursor: start,
        reset_pending,
        ranges: Seq::empty(),
    };
    lemma_changes_within(levels, at + start, at + end);
    lemma_changes_ordered(levels, at + start, at + end);
    lemma_change_values(levels, at + start, at + end);
    if count > 0 {
        lemma_starts_behind_low(levels, at, start, end, reset_pending, (count - 1) as nat);
        let before = state.changed(changes, (count - 1) as nat);
        let after = state.changed(changes, count);
        let change = all[count - 1];
        assert(changes[count - 1] == (change.sample - at, change.value));
        if count > 1 {
            assert(all[count - 2].sample < all[count - 1].sample);
        }
        assert(before.cursor < change.sample - at);
        assert forall|k: int| 0 <= k < after.ranges.len() implies starts_behind_low(
            #[trigger] after.ranges[k],
            k == 0,
            levels,
            at,
            start,
            reset_pending,
        ) by {
            if k < before.ranges.len() {
                assert(after.ranges[k] == before.ranges[k]);
            }
        }
    }
}

/// The stretches of a window of a recorded enable signal are those of the signal.
pub proof fn law_recorded_window_follows(
    levels: Seq<bool>,
    at: int,
    start: int,
    end: int,
    edges: &[CaptureTransition],
    window: EnableWindow,
)
    requires
        recorded_gate(levels, at, start, end, edges, window),
        0 <= at,
        0 <= start < end <= usize::MAX,
        at + end <= levels.len() <= u64::MAX,
    ensures
        ranges_enable(window.ranges@, start, end, at, recorded_enable(levels)),
        ranges_restart(window.ranges@, start, end, at, recorded_enable(levels)),
{
    let gate = recorded_enable(levels);
    let ranges = window.ranges@;
    let first = at + start;
    let all = changes_between(levels, first, at + end);
    let before = level_ahead_of(levels, first);
    let reset_pending = !levels[first] || (before is Some && before->0 != levels[first]);
    let state = GateState {
        current: levels[first],
        cursor: start,
        reset_pending,
        ranges: Seq::empty(),
    };
    lemma_recorded_changes(levels, at, start, end, edges, window);
    lemma_finished_wf(levels[first], reset_pending, edge_changes(all, at, all.len()), start, end);
    lemma_starts_behind_low(levels, at, start, end, reset_pending, all.len());
    let changed = state.changed(edge_changes(all, at, all.len()), all.len());
    assert forall|k: int| 0 <= k < ranges.len() implies starts_behind_low(
        #[trigger] ranges[k],
        k == 0,
        levels,
        at,
        start,
        reset_pending,
    ) by {
        if k < changed.ranges.len() {
            assert(ranges[k] == changed.ranges[k]);
        }
    }
    assert forall|i: int| start <= i < end implies #[trigger] in_ranges(ranges, i) == (gate.open)(
        at + i,
    ) by {
        law_recorded_window_is_high_samples(levels, at, start, end, edges, window, i);
    }
    assert forall|i: int| start <= i < end && #[trigger] restarts(ranges, i) implies at + i == 0 || !(
    gate.open)(at + i - 1) by {
        let k = choose|k: int|
            0 <= k < ranges.len() && (#[trigger] ranges[k]).start == i && (k > 0
                || ranges[0].reset_before);
        assert(starts_behind_low(ranges[k], k == 0, levels, at, start, reset_pending));
        if k == 0 && ranges[k].start == start && reset_pending {
            assert(in_ranges(ranges, i)) by {
                assert(ranges[k].start <= i < ranges[k].end);
            }
            assert(levels[first]);
        }
    }
}

} // verus!
