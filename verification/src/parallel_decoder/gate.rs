//! Enable gating of one window: which samples are decoded, and where partial words are dropped.

use vstd::prelude::*;

use crate::bits::{div_ceil, lemma_div_ceil_le, saturating_mul, spec_div_ceil, spec_saturating_mul};
use crate::parallel_decoder::types::{in_ranges, ranges_in_window, EnabledRange};
use crate::streams::{CaptureTransition, Sample};

verus! {

/// Progress of gating through a window, in samples from the block's start.
#[verifier::ext_equal]
pub struct GateState {
    /// Enable level at `cursor`.
    pub current: bool,
    pub cursor: int,
    /// The next range drops the partial word.
    pub reset_pending: bool,
    pub ranges: Seq<EnabledRange>,
}

impl GateState {
    /// The level holds up to `to`.
    pub open spec fn held(self, to: int) -> GateState {
        if self.current && self.cursor < to {
            GateState {
                current: self.current,
                cursor: to,
                reset_pending: false,
                ranges: self.ranges.push(
                    EnabledRange {
                        start: self.cursor as usize,
                        end: to as usize,
                        reset_before: self.reset_pending,
                    },
                ),
            }
        } else {
            GateState {
                cursor: if self.cursor < to {
                    to
                } else {
                    self.cursor
                },
                ..self
            }
        }
    }

    /// The level becomes `value`.
    pub open spec fn set(self, value: bool) -> GateState {
        GateState { current: value, reset_pending: self.reset_pending || !value, ..self }
    }

    /// The first `count` level changes, each a position and the level from there on.
    pub open spec fn changed(self, changes: Seq<(int, bool)>, count: nat) -> GateState
        decreases count,
    {
        if count == 0 {
            self
        } else {
            self.changed(changes, (count - 1) as nat).held(changes[count - 1].0).set(
                changes[count - 1].1,
            )
        }
    }

    /// All level changes, then the rest of the window.
    pub open spec fn finished(self, changes: Seq<(int, bool)>, end: int) -> GateState {
        self.changed(changes, changes.len()).held(end)
    }
}

/// Level at position `i`, given the level before the first change.
pub open spec fn level_at(initial: bool, changes: Seq<(int, bool)>, i: int) -> bool
    decreases changes.len(),
{
    if changes.len() == 0 {
        initial
    } else if changes.last().0 <= i {
        changes.last().1
    } else {
        level_at(initial, changes.drop_last(), i)
    }
}

/// The changes come in order, inside the window.
pub open spec fn changes_in_window(changes: Seq<(int, bool)>, start: int, end: int) -> bool {
    &&& forall|k: int| 0 <= k < changes.len() ==> start <= (#[trigger] changes[k]).0 <= end
    &&& forall|j: int, k: int|
        0 <= j < k < changes.len() ==> (#[trigger] changes[j]).0 <= (#[trigger] changes[k]).0
}

/// What every gate state of a window from `start` to `end` satisfies.
pub open spec fn gate_wf(state: GateState, start: int, end: int) -> bool {
    &&& start <= state.cursor <= end
    &&& ranges_in_window(state.ranges, start, state.cursor)
    &&& state.ranges.len() > 0 && state.ranges[0].start > start ==> state.ranges[0].reset_before
    &&& state.ranges.len() == 0 && state.cursor > start ==> state.reset_pending
}

proof fn lemma_held_wf(state: GateState, to: int, start: int, end: int)
    requires
        gate_wf(state, start, end),
        to <= end,
        0 <= start,
        end <= usize::MAX,
        state.ranges.len() == 0 && !state.current ==> state.reset_pending,
    ensures
        gate_wf(state.held(to), start, end),
        state.held(to).ranges.len() == 0 && !state.held(to).current ==> state.held(to).reset_pending,
{
    let held = state.held(to);
    assert(ranges_in_window(state.ranges, start, held.cursor));
    if state.current && state.cursor < to {
        assert forall|k: int| 0 <= k < held.ranges.len() implies start <= (
        #[trigger] held.ranges[k]).start < held.ranges[k].end <= held.cursor by {
            if k < state.ranges.len() {
                assert(held.ranges[k] == state.ranges[k]);
            }
        }
        assert forall|j: int, k: int| 0 <= j < k < held.ranges.len() implies (
        #[trigger] held.ranges[j]).end <= (#[trigger] held.ranges[k]).start by {
            assert(held.ranges[j] == state.ranges[j]);
            if k < state.ranges.len() {
                assert(held.ranges[k] == state.ranges[k]);
            }
        }
        if state.ranges.len() > 0 {
            assert(held.ranges[0] == state.ranges[0]);
        }
    }
}

/// Gating keeps its ranges in order inside the window.
pub proof fn lemma_changed_wf(
    state: GateState,
    changes: Seq<(int, bool)>,
    count: nat,
    start: int,
    end: int,
)
    requires
        gate_wf(state, start, end),
        count <= changes.len(),
        0 <= start,
        end <= usize::MAX,
        forall|k: int| 0 <= k < changes.len() ==> (#[trigger] changes[k]).0 <= end,
        state.ranges.len() == 0 && !state.current ==> state.reset_pending,
    ensures
        gate_wf(state.changed(changes, count), start, end),
        ({
            let after = state.changed(changes, count);
            after.ranges.len() == 0 && !after.current ==> after.reset_pending
        }),
    decreases count,
{
    if count > 0 {
        lemma_changed_wf(state, changes, (count - 1) as nat, start, end);
        lemma_held_wf(
            state.changed(changes, (count - 1) as nat),
            changes[count - 1].0,
            start,
            end,
        );
    }
}

proof fn lemma_ranges_push(ranges: Seq<EnabledRange>, range: EnabledRange, i: int)
    ensures
        in_ranges(ranges.push(range), i) == (in_ranges(ranges, i) || range.start <= i < range.end),
{
    let pushed = ranges.push(range);
    if in_ranges(ranges, i) {
        let k = choose|k: int|
            0 <= k < ranges.len() && (#[trigger] ranges[k]).start <= i < ranges[k].end;
        assert(pushed[k].start <= i < pushed[k].end);
    }
    if range.start <= i < range.end {
        assert(pushed[ranges.len() as int].start <= i < pushed[ranges.len() as int].end);
    }
    if in_ranges(pushed, i) {
        let k = choose|k: int|
            0 <= k < pushed.len() && (#[trigger] pushed[k]).start <= i < pushed[k].end;
        if k < ranges.len() {
            assert(ranges[k].start <= i < ranges[k].end);
        }
    }
}

proof fn lemma_held_levels(state: GateState, to: int, start: int, end: int, i: int)
    requires
        gate_wf(state, start, end),
        to <= end,
        0 <= start <= i,
        end <= usize::MAX,
    ensures
        i < state.cursor ==> in_ranges(state.held(to).ranges, i) == in_ranges(state.ranges, i),
        state.cursor <= i < to ==> in_ranges(state.held(to).ranges, i) == state.current,
{
    if state.current && state.cursor < to {
        let range = EnabledRange {
            start: state.cursor as usize,
            end: to as usize,
            reset_before: state.reset_pending,
        };
        lemma_ranges_push(state.ranges, range, i);
    }
    if state.cursor <= i && in_ranges(state.ranges, i) {
        let k = choose|k: int|
            0 <= k < state.ranges.len() && (#[trigger] state.ranges[k]).start <= i
                < state.ranges[k].end;
        assert(state.ranges[k].end <= state.cursor);
    }
}

/// With changes in order, the cursor stands at the last change and the level there is the current
/// one, and before the cursor the ranges are exactly the enabled samples.
proof fn lemma_changed_levels(
    current: bool,
    reset_pending: bool,
    changes: Seq<(int, bool)>,
    count: nat,
    start: int,
    end: int,
    i: int,
)
    requires
        0 <= start <= i,
        end <= usize::MAX,
        start <= end,
        !current ==> reset_pending,
        changes_in_window(changes, start, end),
        count <= changes.len(),
    ensures
        ({
            let state = GateState { current, cursor: start, reset_pending, ranges: Seq::empty() };
            let after = state.changed(changes, count);
            &&& after.cursor == if count == 0 {
                start
            } else {
                changes[count - 1].0
            }
            &&& i >= after.cursor ==> after.current == level_at(
                current,
                changes.take(count as int),
                i,
            )
            &&& i < after.cursor ==> in_ranges(after.ranges, i) == level_at(
                current,
                changes.take(count as int),
                i,
            )
        }),
    decreases count,
{
    let state = GateState { current, cursor: start, reset_pending, ranges: Seq::empty() };
    if count == 0 {
        assert(changes.take(0).len() == 0);
    } else {
        let before = state.changed(changes, (count - 1) as nat);
        let change = changes[count - 1];
        lemma_changed_levels(current, reset_pending, changes, (count - 1) as nat, start, end, i);
        lemma_changed_wf(state, changes, (count - 1) as nat, start, end);
        lemma_held_levels(before, change.0, start, end, i);
        assert(changes.take(count as int).drop_last() =~= changes.take(count - 1));
        assert(changes.take(count as int).last() == change);
        if count > 1 {
            assert(changes[count - 2].0 <= changes[count - 1].0);
        }
        assert(change.0 >= start);
    }
}

/// A sample of the window is decoded exactly when the enable level is high there.
pub proof fn law_ranges_are_enabled_samples(
    current: bool,
    reset_pending: bool,
    changes: Seq<(int, bool)>,
    start: int,
    end: int,
    i: int,
)
    requires
        0 <= start <= i < end,
        end <= usize::MAX,
        !current ==> reset_pending,
        changes_in_window(changes, start, end),
    ensures
        in_ranges(
            GateState { current, cursor: start, reset_pending, ranges: Seq::empty() }.finished(
                changes,
                end,
            ).ranges,
            i,
        ) == level_at(current, changes, i),
{
    let state = GateState { current, cursor: start, reset_pending, ranges: Seq::empty() };
    let before = state.changed(changes, changes.len());
    lemma_changed_levels(current, reset_pending, changes, changes.len(), start, end, i);
    lemma_changed_wf(state, changes, changes.len(), start, end);
    lemma_held_levels(before, end, start, end, i);
    assert(changes.take(changes.len() as int) =~= changes);
}

/// Gating a whole window keeps its ranges in order inside it.
pub proof fn lemma_finished_wf(
    current: bool,
    reset_pending: bool,
    changes: Seq<(int, bool)>,
    start: int,
    end: int,
)
    requires
        0 <= start <= end <= usize::MAX,
        !current ==> reset_pending,
        forall|k: int| 0 <= k < changes.len() ==> (#[trigger] changes[k]).0 <= end,
    ensures
        gate_wf(
            GateState { current, cursor: start, reset_pending, ranges: Seq::empty() }.finished(
                changes,
                end,
            ),
            start,
            end,
        ),
{
    let state = GateState { current, cursor: start, reset_pending, ranges: Seq::empty() };
    lemma_changed_wf(state, changes, changes.len(), start, end);
    lemma_held_wf(state.changed(changes, changes.len()), end, start, end);
}

/// The enable signal as far as it is known for one window.
pub enum EnableInput<'a> {
    /// Nothing is connected: always enabled.
    Unconnected,
    /// Answers of an index: the level at the window's first sample, the level one sample before
    /// it (where there is one), and the changes after it.
    Indexed { at_start: bool, before: Option<bool>, edges: &'a [CaptureTransition] },
    /// Level changes received so far, and whether more can follow.
    Streamed { queued: &'a [Sample], closed: bool },
}

/// Gating of one window.
pub struct EnableWindow {
    pub ranges: Vec<EnabledRange>,
    /// Enable level at the end of the window.
    pub current: bool,
    /// Number of received level changes that the window used up.
    pub consumed: usize,
}

/// Outcome of gating a window.
pub enum EnableScan {
    /// The next level change has to be received first.
    NeedMore,
    Ready(EnableWindow),
}

/// Changes found by an index, in samples from the block's start; those at or after `end` do not
/// matter for the window.
pub open spec fn edge_changes(edges: Seq<CaptureTransition>, block_start: int, count: nat) -> Seq<
    (int, bool),
> {
    Seq::new(count, |k: int| (edges[k].sample - block_start, edges[k].value))
}

/// Position, in samples from the block's start, from which a received level holds: the first
/// sample not before its time, inside the window.
pub open spec fn change_position(
    time_ns: int,
    step: int,
    block_start: int,
    window_start: int,
    window_end: int,
) -> int {
    let position = spec_div_ceil(time_ns, step) - block_start;
    if position < window_start {
        window_start
    } else if position > window_end {
        window_end
    } else {
        position
    }
}

/// Received level changes as changes of the window.
pub open spec fn sample_changes(
    queued: Seq<Sample>,
    step: int,
    block_start: int,
    window_start: int,
    window_end: int,
    count: nat,
) -> Seq<(int, bool)> {
    Seq::new(
        count,
        |k: int|
            (
                change_position(
                    queued[k].start_time_ns as int,
                    step,
                    block_start,
                    window_start,
                    window_end,
                ),
                queued[k].value,
            ),
    )
}

/// Time of one sample; a step of zero counts as one.
pub open spec fn time_step(timestamp_step: u64) -> int {
    if timestamp_step == 0 {
        1
    } else {
        timestamp_step as int
    }
}

/// What gating a window yields.
pub open spec fn gated(
    input: EnableInput,
    current: bool,
    block_start: int,
    window_start: int,
    window_end: int,
    timestamp_step: u64,
    scan: EnableScan,
) -> bool {
    match input {
        EnableInput::Unconnected => {
            &&& scan matches EnableScan::Ready(window)
            &&& window.current
            &&& window.consumed == 0
            &&& window.ranges@ == seq![
                EnabledRange {
                    start: window_start as usize,
                    end: window_end as usize,
                    reset_before: false,
                },
            ]
        },
        EnableInput::Indexed { at_start, before, edges } => {
            &&& scan matches EnableScan::Ready(window)
            &&& window.consumed == 0
            &&& exists|count: nat|
                {
                    &&& count <= edges@.len()
                    &&& forall|k: int|
                        0 <= k < count ==> (#[trigger] edges@[k]).sample < block_start + window_end
                    &&& count < edges@.len() ==> edges@[count as int].sample >= block_start
                        + window_end
                    &&& gate_result(
                        at_start,
                        !at_start || (before is Some && before->0 != at_start),
                        #[trigger] edge_changes(edges@, block_start, count),
                        window_start,
                        window_end,
                        window,
                    )
                }
        },
        EnableInput::Streamed { queued, closed } => {
            let end_time = spec_saturating_mul(
                block_start + window_end,
                time_step(timestamp_step),
            );
            match scan {
                EnableScan::NeedMore => {
                    &&& !closed
                    &&& forall|k: int|
                        0 <= k < queued@.len() ==> (#[trigger] queued@[k]).start_time_ns < end_time
                },
                EnableScan::Ready(window) => {
                    &&& window.consumed <= queued@.len()
                    &&& forall|k: int|
                        0 <= k < window.consumed ==> (#[trigger] queued@[k]).start_time_ns
                            < end_time
                    &&& window.consumed < queued@.len() ==> queued@[window.consumed as int].start_time_ns
                        >= end_time
                    &&& window.consumed == queued@.len() ==> closed
                    &&& gate_result(
                        current,
                        !current,
                        sample_changes(
                            queued@,
                            time_step(timestamp_step),
                            block_start,
                            window_start,
                            window_end,
                            window.consumed as nat,
                        ),
                        window_start,
                        window_end,
                        window,
                    )
                },
            }
        },
    }
}

/// The window's ranges and final level are those of gating through the changes.
pub open spec fn gate_result(
    current: bool,
    reset_pending: bool,
    changes: Seq<(int, bool)>,
    start: int,
    end: int,
    window: EnableWindow,
) -> bool {
    let state = GateState { current, cursor: start, reset_pending, ranges: Seq::empty() }.finished(
        changes,
        end,
    );
    window.ranges@ == state.ranges && window.current == state.current
}

/// Executable gate.
struct EnableGate {
    current: bool,
    cursor: usize,
    reset_pending: bool,
    ranges: Vec<EnabledRange>,
}

impl EnableGate {
    spec fn state(self) -> GateState {
        GateState {
            current: self.current,
            cursor: self.cursor as int,
            reset_pending: self.reset_pending,
            ranges: self.ranges@,
        }
    }

    fn hold(&mut self, to: usize)
        ensures
            final(self).state() == old(self).state().held(to as int),
    {
        if self.current && self.cursor < to {
            self.ranges.push(
                EnabledRange { start: self.cursor, end: to, reset_before: self.reset_pending },
            );
            self.reset_pending = false;
        }
        if self.cursor < to {
            self.cursor = to;
        }
    }

    fn set(&mut self, value: bool)
        ensures
            final(self).state() == old(self).state().set(value),
    {
        self.current = value;
        if !value {
            self.reset_pending = true;
        }
    }
}

/// Splits a window into the stretches over which decoding is enabled.
///
/// A change found by an index takes effect at its sample. A received change takes effect at the
/// first sample not before its time; one with a time before the window takes effect at the
/// window's start, and one at or after the window's end is left for the next window.
pub fn enabled_ranges_for_window(
    input: EnableInput<'_>,
    current_enable_value: bool,
    block_start_position: u64,
    window_start: usize,
    window_end: usize,
    timestamp_step: u64,
) -> (scan: EnableScan)
    requires
        window_start < window_end,
        block_start_position + window_end <= u64::MAX,
        input matches EnableInput::Indexed { edges, .. } ==> {
            &&& forall|k: int|
                0 <= k < edges@.len() ==> (#[trigger] edges@[k]).sample > block_start_position
                    + window_start
            &&& forall|j: int, k: int|
                0 <= j < k < edges@.len() ==> (#[trigger] edges@[j]).sample < (
                #[trigger] edges@[k]).sample
        },
    ensures
        gated(
            input,
            current_enable_value,
            block_start_position as int,
            window_start as int,
            window_end as int,
            timestamp_step,
            scan,
        ),
        scan matches EnableScan::Ready(window) ==> {
            &&& ranges_in_window(window.ranges@, window_start as int, window_end as int)
            &&& window.ranges@.len() > 0 && window.ranges@[0].start > window_start
                ==> window.ranges@[0].reset_before
        },
{
    let absolute_start: u64 = block_start_position + window_start as u64;
    let absolute_end: u64 = block_start_position + window_end as u64;
    match input {
        EnableInput::Unconnected => {
            let mut ranges: Vec<EnabledRange> = Vec::new();
            ranges.push(
                EnabledRange { start: window_start, end: window_end, reset_before: false },
            );
            assert(ranges@ =~= seq![
                EnabledRange { start: window_start, end: window_end, reset_before: false },
            ]);
            EnableScan::Ready(EnableWindow { ranges, current: true, consumed: 0 })
        },
        EnableInput::Indexed { at_start, before, edges } => {
            let reset_pending: bool = !at_start || match before {
                Some(level) => level != at_start,
                None => false,
            };
            let mut gate = EnableGate {
                current: at_start,
                cursor: window_start,
                reset_pending,
                ranges: Vec::new(),
            };
            let ghost initial = gate.state();
            let ghost block_start = block_start_position as int;
            let ghost changes = edge_changes(edges@, block_start, edges@.len());
            let mut index: usize = 0;
            assert(initial.ranges =~= Seq::empty());
            while index < edges.len() && edges[index].sample < absolute_end
                invariant
                    index <= edges@.len(),
                    window_start < window_end,
                    absolute_start == block_start_position + window_start,
                    absolute_end == block_start_position + window_end,
                    block_start == block_start_position,
                    changes == edge_changes(edges@, block_start, edges@.len()),
                    forall|k: int|
                        0 <= k < edges@.len() ==> (#[trigger] edges@[k]).sample > absolute_start,
                    forall|j: int, k: int|
                        0 <= j < k < edges@.len() ==> (#[trigger] edges@[j]).sample < (
                        #[trigger] edges@[k]).sample,
                    forall|k: int|
                        0 <= k < index ==> (#[trigger] edges@[k]).sample < absolute_end,
                    gate.state() == initial.changed(changes, index as nat),
                decreases edges@.len() - index,
            {
                let edge: CaptureTransition = edges[index];
                let local: usize = (edge.sample - block_start_position) as usize;
                gate.hold(local);
                gate.set(edge.value);
                index += 1;
            }
            let ghost count = index as nat;
            let ghost used = edge_changes(edges@, block_start, count);
            proof {
                lemma_changed_prefix(initial, changes, used, count);
                lemma_changed_wf(initial, used, count, window_start as int, window_end as int);
                lemma_held_wf(
                    initial.changed(used, count),
                    window_end as int,
                    window_start as int,
                    window_end as int,
                );
            }
            gate.hold(window_end);
            let window = EnableWindow { ranges: gate.ranges, current: gate.current, consumed: 0 };
            proof {
                assert(gate_result(
                    at_start,
                    !at_start || (before is Some && before->0 != at_start),
                    used,
                    window_start as int,
                    window_end as int,
                    window,
                ));
                assert(ranges_in_window(window.ranges@, window_start as int, window_end as int));
                assert(used == edge_changes(edges@, block_start, count));
            }
            EnableScan::Ready(window)
        },
        EnableInput::Streamed { queued, closed } => {
            let step: u64 = if timestamp_step == 0 {
                1
            } else {
                timestamp_step
            };
            let end_time_ns: u64 = saturating_mul(absolute_end, step);
            let mut gate = EnableGate {
                current: current_enable_value,
                cursor: window_start,
                reset_pending: !current_enable_value,
                ranges: Vec::new(),
            };
            let ghost initial = gate.state();
            let ghost changes = sample_changes(
                queued@,
                step as int,
                block_start_position as int,
                window_start as int,
                window_end as int,
                queued@.len(),
            );
            let mut index: usize = 0;
            assert(initial.ranges =~= Seq::empty());
            while index < queued.len() && queued[index].start_time_ns < end_time_ns
                invariant
                    index <= queued@.len(),
                    window_start < window_end,
                    step > 0,
                    absolute_start == block_start_position + window_start,
                    absolute_end == block_start_position + window_end,
                    changes == sample_changes(
                        queued@,
                        step as int,
                        block_start_position as int,
                        window_start as int,
                        window_end as int,
                        queued@.len(),
                    ),
                    forall|k: int|
                        0 <= k < index ==> (#[trigger] queued@[k]).start_time_ns < end_time_ns,
                    gate.state() == initial.changed(changes, index as nat),
                decreases queued@.len() - index,
            {
                let sample: Sample = queued[index];
                let position: u64 = div_ceil(sample.start_time_ns, step);
                let local: usize = if position < absolute_start {
                    window_start
                } else if position > absolute_end {
                    window_end
                } else {
                    (position - block_start_position) as usize
                };
                assert(changes[index as int] == (local as int, sample.value));
                gate.hold(local);
                gate.set(sample.value);
                index += 1;
            }
            if index == queued.len() && !closed {
                return EnableScan::NeedMore;
            }
            let ghost count = index as nat;
            let ghost used = sample_changes(
                queued@,
                step as int,
                block_start_position as int,
                window_start as int,
                window_end as int,
                count,
            );
            proof {
                lemma_changed_prefix(initial, changes, used, count);
                lemma_changed_wf(initial, used, count, window_start as int, window_end as int);
                lemma_held_wf(
                    initial.changed(used, count),
                    window_end as int,
                    window_start as int,
                    window_end as int,
                );
            }
            gate.hold(window_end);
            let window = EnableWindow {
                ranges: gate.ranges,
                current: gate.current,
                consumed: index,
            };
            assert(ranges_in_window(window.ranges@, window_start as int, window_end as int));
            EnableScan::Ready(window)
        },
    }
}

proof fn lemma_changed_prefix(
    state: GateState,
    changes: Seq<(int, bool)>,
    prefix: Seq<(int, bool)>,
    count: nat,
)
    requires
        count <= changes.len(),
        count <= prefix.len(),
        forall|k: int| 0 <= k < count ==> changes[k] == #[trigger] prefix[k],
    ensures
        state.changed(changes, count) == state.changed(prefix, count),
    decreases count,
{
    if count > 0 {
        lemma_changed_prefix(state, changes, prefix, (count - 1) as nat);
    }
}

/// A received level holds from the first sample whose time is not before it.
pub proof fn law_received_change_position(
    time_ns: int,
    step: int,
    block_start: int,
    window_start: int,
    window_end: int,
    i: int,
)
    requires
        step > 0,
        time_ns >= 0,
        block_start >= 0,
        window_start <= i < window_end,
    ensures
        change_position(time_ns, step, block_start, window_start, window_end) <= i <==> time_ns <= (
        block_start + i) * step,
{
    lemma_div_ceil_le(time_ns, step, block_start + i);
}

} // verus!
