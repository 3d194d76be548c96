//! An enable signal whose changes are received gates a bus in the same way on every path.

use vstd::prelude::*;

use crate::bits::{lemma_div_ceil_le, spec_div_ceil};
use crate::parallel_decoder::agreement::{
    law_window_follows_received_levels, lemma_passed, lemma_passed_stops, received_level, Gate,
};
use crate::parallel_decoder::gate::{
    gated, lemma_finished_wf, sample_changes, EnableInput, EnableScan, EnableWindow, GateState,
};
use crate::parallel_decoder::index_model::{
    in_order, low_received, sample_time, takes_effect_at,
};
use crate::parallel_decoder::indexed::passed;
use crate::parallel_decoder::sample_model::restarts;
use crate::parallel_decoder::streamed_model::{ranges_enable, ranges_restart};
use crate::parallel_decoder::types::in_ranges;
use crate::streams::Sample;

verus! {

/// The first sample that a received change applies to.
pub open spec fn effect_of(change: Sample, step: u64) -> int {
    spec_div_ceil(change.start_time_ns as int, step as int)
}

/// The level behind the first changes.
pub open spec fn level_behind(initial: bool, changes: Seq<Sample>, count: int) -> bool {
    if count > 0 {
        changes[count - 1].value
    } else {
        initial
    }
}

/// Whether a received signal drops no partial word but around low samples: a change to low, and one
/// from high to high, applies from a low sample on or from the sample behind one. So there is no
/// low pulse between two high samples, and no change from high to high in their midst.
pub open spec fn steady(initial: bool, changes: Seq<Sample>, step: u64, end: int) -> bool {
    forall|j: int|
        0 <= j < changes.len() && (!(#[trigger] changes[j]).value || level_behind(
            initial,
            changes,
            j,
        )) && 0 < effect_of(changes[j], step) < end ==> low_around(
            initial,
            changes,
            step,
            effect_of(changes[j], step),
        )
}

/// Whether a received signal is low at sample `i`, or at the sample before.
pub open spec fn low_around(initial: bool, changes: Seq<Sample>, step: u64, i: int) -> bool {
    !received_level(initial, changes, sample_time(i, step)) || !received_level(
        initial,
        changes,
        sample_time(i - 1, step),
    )
}

/// A received enable signal, sample by sample.
pub open spec fn received_gate(initial: bool, changes: Seq<Sample>, step: u64) -> Gate {
    Gate {
        open: |i: int| received_level(initial, changes, sample_time(i, step)),
        restarts: |i: int| low_received(changes, step, i),
    }
}

/// Whether the first `count` changes are those before a sample.
pub open spec fn used_up(changes: Seq<Sample>, count: int, sample: int, step: u64) -> bool {
    &&& 0 <= count <= changes.len()
    &&& forall|j: int|
        0 <= j < count ==> (#[trigger] changes[j]).start_time_ns < sample * (step as int)
    &&& forall|j: int|
        count <= j < changes.len() ==> (#[trigger] changes[j]).start_time_ns >= sample * (
        step as int)
}

/// Where a stretch starts that drops the partial word: at the start of the window where that asks
/// for it, or at a change to high.
spec fn starts_at_change(
    start_of: int,
    reset: bool,
    changes: Seq<(int, bool)>,
    start: int,
    reset_pending: bool,
) -> bool {
    reset ==> (start_of == start && reset_pending) || exists|m: int|
        0 <= m < changes.len() && (#[trigger] changes[m]).0 == start_of && changes[m].1
}

proof fn lemma_starts_at_change(
    current: bool,
    reset_pending: bool,
    changes: Seq<(int, bool)>,
    start: int,
    end: int,
    count: nat,
)
    requires
        0 <= start <= end <= usize::MAX,
        count <= changes.len(),
        forall|k: int| 0 <= k < changes.len() ==> start <= (#[trigger] changes[k]).0 <= end,
        forall|j: int, k: int|
            0 <= j < k < changes.len() ==> (#[trigger] changes[j]).0 <= (#[trigger] changes[k]).0,
    ensures
        ({
            let state = GateState { current, cursor: start, reset_pending, ranges: Seq::empty() };
            let after = state.changed(changes, count);
            &&& after.cursor == if count == 0 {
                start
            } else {
                changes[count - 1].0
            }
            &&& after.current == if count == 0 {
                current
            } else {
                changes[count - 1].1
            }
            &&& count == 0 ==> after == state
            &&& forall|k: int|
                0 <= k < after.ranges.len() ==> starts_at_change(
                    (#[trigger] after.ranges[k]).start as int,
                    k > 0 || after.ranges[k].reset_before,
                    changes,
                    start,
                    reset_pending,
                )
        }),
    decreases count,
{
    let state = GateState { current, cursor: start, reset_pending, ranges: Seq::empty() };
    if count > 0 {
        lemma_starts_at_change(current, reset_pending, changes, start, end, (count - 1) as nat);
        let before = state.changed(changes, (count - 1) as nat);
        let after = state.changed(changes, count);
        if count > 1 {
            assert(changes[count - 2].0 <= changes[count - 1].0);
        }
        assert forall|k: int| 0 <= k < after.ranges.len() implies starts_at_change(
            (#[trigger] after.ranges[k]).start as int,
            k > 0 || after.ranges[k].reset_before,
            changes,
            start,
            reset_pending,
        ) by {
            if k < before.ranges.len() {
                assert(after.ranges[k] == before.ranges[k]);
            } else if count > 1 {
                assert(changes[count - 2].0 == before.cursor);
            }
        }
    }
}

proof fn lemma_time(i: int, step: u64)
    requires
        0 <= i <= u64::MAX,
        i * (step as int) <= u64::MAX,
    ensures
        sample_time(i, step) == i * (step as int),
{
    assert(0 <= i * (step as int)) by (nonlinear_arith)
        requires
            0 <= i,
            0 <= step,
    ;
}

proof fn lemma_times(first: int, second: int, step: u64)
    requires
        0 <= first <= second,
        step > 0,
        second * (step as int) <= u64::MAX,
    ensures
        second <= u64::MAX,
        0 <= first * (step as int) <= second * (step as int),
        first < second ==> first * (step as int) < second * (step as int),
{
    let unit = step as int;
    assert(0 <= first * unit <= second * unit && second <= second * unit) by (nonlinear_arith)
        requires
            0 <= first <= second,
            unit > 0,
    ;
    if first < second {
        assert(first * unit < second * unit) by (nonlinear_arith)
            requires
                first < second,
                unit > 0,
        ;
    }
}

/// How many changes are not after some time.
pub proof fn lemma_passed_is(changes: Seq<Sample>, count: int, time: u64)
    requires
        0 <= count <= changes.len(),
        forall|j: int| 0 <= j < count ==> (#[trigger] changes[j]).start_time_ns <= time,
        count < changes.len() ==> changes[count].start_time_ns > time,
    ensures
        passed(changes, 0, time) == count,
{
    lemma_passed(changes, 0, time);
    lemma_passed_stops(changes, 0, time);
    let found = passed(changes, 0, time);
    if found < count {
        assert(changes[found].start_time_ns <= time);
    }
}

/// What is left of the changes says of a sample of the window what all of them say.
proof fn lemma_rest_says_the_same(
    initial: bool,
    changes: Seq<Sample>,
    queued: Seq<Sample>,
    used: int,
    received: int,
    consumed: int,
    from: int,
    to: int,
    step: u64,
    i: int,
)
    requires
        step > 0,
        0 <= from <= i < to,
        to * (step as int) <= u64::MAX,
        used_up(changes, used, from, step),
        used <= received <= changes.len(),
        queued == changes.subrange(used, received),
        0 <= consumed <= queued.len(),
        consumed < queued.len() ==> queued[consumed].start_time_ns >= to * (step as int),
        consumed == queued.len() ==> received == changes.len(),
    ensures
        received_level(level_behind(initial, changes, used), queued, sample_time(i, step))
            == received_level(initial, changes, sample_time(i, step)),
        passed(changes, 0, sample_time(i, step)) == used + passed(
            queued,
            0,
            sample_time(i, step),
        ),
{
    let time = sample_time(i, step);
    lemma_times(i, to, step);
    lemma_times(from, i, step);
    lemma_time(i, step);
    lemma_passed(queued, 0, time);
    lemma_passed_stops(queued, 0, time);
    let q = passed(queued, 0, time);
    if q == queued.len() && consumed < queued.len() {
        assert(queued[consumed].start_time_ns <= time);
    }
    assert forall|j: int| 0 <= j < used + q implies (#[trigger] changes[j]).start_time_ns <= time by {
        if j >= used {
            assert(queued[j - used] == changes[j]);
        }
    }
    if used + q < changes.len() {
        assert(queued[q] == changes[used + q]);
    }
    lemma_passed_is(changes, used + q, time);
    if q > 0 {
        assert(queued[q - 1] == changes[used + q - 1]);
    }
}

/// The sample from which a change applies is the one at which it takes effect.
pub proof fn lemma_effect(change: Sample, step: u64, i: int)
    requires
        step > 0,
        0 <= i,
        i * (step as int) <= u64::MAX,
    ensures
        takes_effect_at(change.start_time_ns, step, i) <==> effect_of(change, step) == i,
{
    lemma_times(0, i, step);
    lemma_time(i, step);
    lemma_div_ceil_le(change.start_time_ns as int, step as int, i);
    lemma_div_ceil_le(change.start_time_ns as int, step as int, i - 1);
    if i > 0 {
        lemma_times(i - 1, i, step);
        lemma_time(i - 1, step);
    }
}

/// Where a change to high applies, the signal is low at that sample or at the one before.
proof fn lemma_high_behind_low(
    initial: bool,
    changes: Seq<Sample>,
    step: u64,
    total: int,
    j: int,
)
    requires
        step > 0,
        in_order(changes),
        steady(initial, changes, step, total),
        0 <= j < changes.len(),
        changes[j].value,
        0 < effect_of(changes[j], step) < total,
        effect_of(changes[j], step) * (step as int) <= u64::MAX,
    ensures
        low_around(initial, changes, step, effect_of(changes[j], step)),
{
    let i = effect_of(changes[j], step);
    let time = sample_time(i - 1, step);
    lemma_effect(changes[j], step, i);
    if !level_behind(initial, changes, j) {
        if j > 0 && effect_of(changes[j - 1], step) == i {
            assert(!changes[j - 1].value);
        } else {
            lemma_times(i - 1, i, step);
            lemma_time(i - 1, step);
            lemma_div_ceil_le(changes[j].start_time_ns as int, step as int, i);
            assert forall|k: int| 0 <= k < j implies (#[trigger] changes[k]).start_time_ns <= time by {
                assert(changes[k].start_time_ns <= changes[j - 1].start_time_ns);
                assert(changes[j - 1].start_time_ns <= changes[j].start_time_ns);
                lemma_div_ceil_le(changes[j - 1].start_time_ns as int, step as int, i);
                lemma_div_ceil_le(changes[j - 1].start_time_ns as int, step as int, i - 1);
            }
            lemma_passed_is(changes, j, time);
        }
    }
}

/// Where a window starts low and is high from its first sample on, a change to high applies there.
proof fn lemma_high_at_start(
    initial: bool,
    changes: Seq<Sample>,
    used: int,
    from: int,
    step: u64,
) -> (j: int)
    requires
        step > 0,
        0 <= from,
        from * (step as int) <= u64::MAX,
        in_order(changes),
        used_up(changes, used, from, step),
        !level_behind(initial, changes, used),
        received_level(initial, changes, sample_time(from, step)),
    ensures
        0 <= j < changes.len(),
        changes[j].value,
        effect_of(changes[j], step) == from,
{
    let now = sample_time(from, step);
    lemma_times(0, from, step);
    lemma_time(from, step);
    lemma_passed(changes, 0, now);
    lemma_passed_stops(changes, 0, now);
    let found = passed(changes, 0, now);
    if found < used {
        assert(changes[found].start_time_ns < from * (step as int));
    }
    let j = found - 1;
    assert(j >= used);
    lemma_div_ceil_le(changes[j].start_time_ns as int, step as int, from);
    lemma_div_ceil_le(changes[j].start_time_ns as int, step as int, from - 1);
    assert((from - 1) * (step as int) < from * (step as int)) by (nonlinear_arith)
        requires
            step > 0,
    ;
    j
}

/// Whether some changes of a window are those received from number `used` on.
spec fn shows(
    shown: Seq<(int, bool)>,
    changes: Seq<Sample>,
    used: int,
    at: int,
    start: int,
    end: int,
    step: u64,
) -> bool {
    &&& forall|k: int|
        0 <= k < shown.len() ==> (#[trigger] shown[k]) == (
            effect_of(changes[used + k], step) - at,
            changes[used + k].value,
        ) && start <= shown[k].0 <= end
    &&& forall|j: int, k: int|
        0 <= j < k < shown.len() ==> (#[trigger] shown[j]).0 <= (#[trigger] shown[k]).0
}

proof fn lemma_shown(
    changes: Seq<Sample>,
    queued: Seq<Sample>,
    used: int,
    received: int,
    at: int,
    start: int,
    end: int,
    step: u64,
    count: nat,
)
    requires
        step > 0,
        0 <= at,
        0 <= start < end,
        in_order(changes),
        used_up(changes, used, at + start, step),
        used <= received <= changes.len(),
        queued == changes.subrange(used, received),
        count <= queued.len(),
        forall|k: int|
            0 <= k < count ==> (#[trigger] queued[k]).start_time_ns < (at + end) * (step as int),
    ensures
        shows(
            sample_changes(queued, step as int, at, start, end, count),
            changes,
            used,
            at,
            start,
            end,
            step,
        ),
{
    let from = at + start;
    let to = at + end;
    let unit = step as int;
    let shown = sample_changes(queued, unit, at, start, end, count);
    assert((from - 1) * unit < from * unit) by (nonlinear_arith)
        requires
            unit > 0,
    ;
    assert forall|k: int| 0 <= k < count implies (#[trigger] shown[k]) == (
        effect_of(changes[used + k], step) - at,
        changes[used + k].value,
    ) && start <= shown[k].0 <= end by {
        assert(queued[k] == changes[used + k]);
        let time = changes[used + k].start_time_ns as int;
        lemma_div_ceil_le(time, unit, to);
        lemma_div_ceil_le(time, unit, from - 1);
    }
    assert forall|j: int, k: int| 0 <= j < k < shown.len() implies (#[trigger] shown[j]).0 <= (
    #[trigger] shown[k]).0 by {
        assert(shown[j].0 == effect_of(changes[used + j], step) - at);
        assert(shown[k].0 == effect_of(changes[used + k], step) - at);
        let first = changes[used + j].start_time_ns as int;
        let second = changes[used + k].start_time_ns as int;
        assert(changes[used + j].start_time_ns <= changes[used + k].start_time_ns);
        assert((first + unit - 1) / unit <= (second + unit - 1) / unit) by (nonlinear_arith)
            requires
                0 <= first <= second,
                unit > 0,
        ;
    }
}

/// The window of a received enable signal: its stretches are those at which the signal is high, and
/// the changes that it uses up are those before its end.
pub proof fn law_received_window_is_high_samples(
    initial: bool,
    changes: Seq<Sample>,
    queued: &[Sample],
    closed: bool,
    used: int,
    received: int,
    at: int,
    start: int,
    end: int,
    step: u64,
    window: EnableWindow,
)
    requires
        step > 0,
        0 <= at,
        0 <= start < end <= usize::MAX,
        (at + end) * step <= u64::MAX,
        in_order(changes),
        used_up(changes, used, at + start, step),
        used <= received <= changes.len(),
        queued@ == changes.subrange(used, received),
        closed ==> received == changes.len(),
        gated(
            EnableInput::Streamed { queued, closed },
            level_behind(initial, changes, used),
            at,
            start,
            end,
            step,
            EnableScan::Ready(window),
        ),
    ensures
        ranges_enable(window.ranges@, start, end, at, received_gate(initial, changes, step)),
        used_up(changes, used + window.consumed, at + end, step),
        window.current == level_behind(initial, changes, used + window.consumed),
{
    let gate = received_gate(initial, changes, step);
    let ranges = window.ranges@;
    let current = level_behind(initial, changes, used);
    let from = at + start;
    let to = at + end;
    let count = window.consumed as nat;
    let shown = sample_changes(queued@, step as int, at, start, end, count);
    lemma_times(from, to, step);
    lemma_finished_wf(current, !current, shown, start, end);
    if count > 0 {
        assert(shown[count - 1].1 == queued@[count - 1].value);
        assert(queued@[count - 1] == changes[used + count - 1]);
    }
    assert forall|j: int, k: int| 0 <= j <= k < queued@.len() implies (
    #[trigger] queued@[j]).start_time_ns <= (#[trigger] queued@[k]).start_time_ns by {
        assert(queued@[j] == changes[used + j] && queued@[k] == changes[used + k]);
    }
    assert forall|i: int| start <= i < end implies #[trigger] in_ranges(ranges, i) == (gate.open)(
        at + i,
    ) by {
        law_window_follows_received_levels(
            queued,
            closed,
            current,
            at,
            start,
            end,
            step,
            window,
            i,
        );
        lemma_rest_says_the_same(
            initial,
            changes,
            queued@,
            used,
            received,
            count as int,
            from,
            to,
            step,
            at + i,
        );
    }
    assert forall|j: int| 0 <= j < used + count implies (#[trigger] changes[j]).start_time_ns < to * (
    step as int) by {
        if j >= used {
            assert(queued@[j - used] == changes[j]);
        } else {
            assert(changes[j].start_time_ns < from * (step as int));
        }
    }
    assert forall|j: int| used + count <= j < changes.len() implies (
    #[trigger] changes[j]).start_time_ns >= to * (step as int) by {
        assert(queued@[count as int] == changes[used + count]);
        assert(changes[used + count].start_time_ns <= changes[j].start_time_ns);
    }
}

/// Where a received enable signal drops no partial word but around low samples, its windows do not
/// either.
pub proof fn law_received_window_restarts(
    initial: bool,
    changes: Seq<Sample>,
    queued: &[Sample],
    closed: bool,
    used: int,
    received: int,
    at: int,
    start: int,
    end: int,
    step: u64,
    total: int,
    window: EnableWindow,
)
    requires
        step > 0,
        0 <= at,
        0 <= start < end <= usize::MAX,
        (at + end) * step <= u64::MAX,
        in_order(changes),
        at + end <= total,
        steady(initial, changes, step, total),
        used_up(changes, used, at + start, step),
        used <= received <= changes.len(),
        queued@ == changes.subrange(used, received),
        closed ==> received == changes.len(),
        gated(
            EnableInput::Streamed { queued, closed },
            level_behind(initial, changes, used),
            at,
            start,
            end,
            step,
            EnableScan::Ready(window),
        ),
    ensures
        ranges_restart(window.ranges@, start, end, at, received_gate(initial, changes, step)),
{
    let gate = received_gate(initial, changes, step);
    let ranges = window.ranges@;
    let current = level_behind(initial, changes, used);
    let from = at + start;
    let to = at + end;
    let count = window.consumed as nat;
    let shown = sample_changes(queued@, step as int, at, start, end, count);
    lemma_times(from, to, step);
    lemma_shown(changes, queued@, used, received, at, start, end, step, count);
    lemma_finished_wf(current, !current, shown, start, end);
    lemma_starts_at_change(current, !current, shown, start, end, count);
    let changed = GateState {
        current,
        cursor: start,
        reset_pending: !current,
        ranges: Seq::empty(),
    }.changed(shown, count);
    assert forall|k: int| 0 <= k < ranges.len() implies starts_at_change(
        (#[trigger] ranges[k]).start as int,
        k > 0 || ranges[k].reset_before,
        shown,
        start,
        !current,
    ) by {
        if k < changed.ranges.len() {
            assert(ranges[k] == changed.ranges[k]);
        } else if count > 0 {
            assert(shown[count - 1].0 == changed.cursor);
        }
    }
    law_received_window_is_high_samples(
        initial,
        changes,
        queued,
        closed,
        used,
        received,
        at,
        start,
        end,
        step,
        window,
    );
    assert forall|i: int|
        start <= i < end && #[trigger] restarts(ranges, i) != (gate.restarts)(at + i) implies at + i
        == 0 || !(gate.open)(at + i - 1) || !(gate.open)(at + i) by {
        lemma_times(at + i, to, step);
        if at + i > 0 {
            if restarts(ranges, i) {
                let k = choose|k: int|
                    0 <= k < ranges.len() && (#[trigger] ranges[k]).start == i && (k > 0
                        || ranges[0].reset_before);
                assert(starts_at_change(
                    ranges[k].start as int,
                    k > 0 || ranges[k].reset_before,
                    shown,
                    start,
                    !current,
                ));
                if i == start && !current {
                    if (gate.open)(at + i) {
                        let j = lemma_high_at_start(initial, changes, used, from, step);
                        lemma_high_behind_low(initial, changes, step, total, j);
                    }
                } else {
                    let m = choose|m: int|
                        0 <= m < shown.len() && (#[trigger] shown[m]).0 == i && shown[m].1;
                    lemma_high_behind_low(initial, changes, step, total, used + m);
                }
            } else {
                let j = choose|j: int|
                    0 <= j < changes.len() && !(#[trigger] changes[j]).value && takes_effect_at(
                        changes[j].start_time_ns,
                        step,
                        at + i,
                    );
                lemma_effect(changes[j], step, at + i);
            }
        }
    }
}

} // verus!
