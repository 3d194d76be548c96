//! Sample-by-sample meaning of a batch of the index-driven path.

use vstd::prelude::*;

use crate::bits::bit_of;
use crate::parallel_decoder::agreement::{
    items_at, known_until_next, last_time, lemma_caught_up, lemma_caught_up_level,
    lemma_items_at_prefix, lemma_passed, lemma_passed_stops, lemma_time_grows,
    lemma_trigger_list_grows, lemma_trigger_list_prefix, received_level, trigger_time, Gate,
};
use crate::parallel_decoder::indexed::{
    enable_at_trigger, initial_triggers, low_among, passed, trigger_steps, CsAt, EnableState,
    TriggerEnable, TriggerState,
};
use crate::parallel_decoder::merge::{MergeState, WordFormat};
use crate::parallel_decoder::recorded::gap_start;
use crate::parallel_decoder::sample_model::Signals;
use crate::parallel_decoder::scan::{bus_value, cs_open};
use crate::streams::Sample;

verus! {

/// Whether a level is low somewhere in `from..to`.
pub open spec fn shuts(open: spec_fn(int) -> bool, from: int, to: int) -> bool {
    exists|i: int| from <= i < to && !#[trigger] open(i)
}

/// The time of sample `i`.
pub open spec fn sample_time(i: int, timestamp_step: u64) -> u64 {
    trigger_time(i as u64, timestamp_step)
}

/// Whether a change takes effect at sample `i`: it is not after it, but after the sample before.
pub open spec fn takes_effect_at(start_time_ns: u64, timestamp_step: u64, i: int) -> bool {
    &&& start_time_ns <= sample_time(i, timestamp_step)
    &&& i > 0 ==> start_time_ns > sample_time(i - 1, timestamp_step)
}

/// Whether a received change to low takes effect at sample `i`.
pub open spec fn low_received(queued: Seq<Sample>, timestamp_step: u64, i: int) -> bool {
    exists|j: int|
        0 <= j < queued.len() && !(#[trigger] queued[j]).value && takes_effect_at(
            queued[j].start_time_ns,
            timestamp_step,
            i,
        )
}

/// Whether a received change to low, from number `from` on, took effect before sample `i`.
pub open spec fn low_overdue(queued: Seq<Sample>, from: int, timestamp_step: u64, i: int) -> bool {
    i > 0 && exists|j: int|
        from <= j < queued.len() && !(#[trigger] queued[j]).value && queued[j].start_time_ns
            <= sample_time(i - 1, timestamp_step)
}

/// The changes come in order.
pub open spec fn in_order(queued: Seq<Sample>) -> bool {
    forall|j: int, k: int|
        0 <= j <= k < queued.len() ==> (#[trigger] queued[j]).start_time_ns <= (
        #[trigger] queued[k]).start_time_ns
}

/// Whether an enable signal, as it is known at the triggers of a batch over samples `from..to`,
/// is what it is sample by sample. `start` is what decoding has come to before.
pub open spec fn enable_says(
    known: TriggerEnable,
    enable: EnableState,
    timestamp_step: u64,
    from: int,
    to: int,
    triggers: Seq<u64>,
    asked: bool,
    start: MergeState,
    gate: Gate,
) -> bool {
    match known {
        TriggerEnable::Unconnected => forall|i: int|
            from <= i < to ==> #[trigger] (gate.open)(i) && !(gate.restarts)(i),
        TriggerEnable::Indexed { values, cuts } => {
            &&& forall|i: int| from <= i < to ==> !#[trigger] (gate.restarts)(i)
            &&& forall|k: int|
                0 <= k < triggers.len() ==> #[trigger] values@[k] == (gate.open)(triggers[k] as int)
            &&& forall|k: int|
                0 <= k < triggers.len() && asked && (gate.open)(triggers[k] as int)
                    ==> #[trigger] cuts@[k] == shuts(
                    gate.open,
                    gap_start(from, triggers, k),
                    triggers[k] as int,
                )
        },
        TriggerEnable::Streamed { queued, .. } => {
            &&& known_until_next(enable, queued@)
            &&& in_order(queued@)
            &&& forall|i: int|
                from <= i < to ==> #[trigger] (gate.open)(i) == received_level(
                    enable.current,
                    queued@,
                    sample_time(i, timestamp_step),
                )
            &&& forall|i: int|
                from <= i < to ==> #[trigger] (gate.restarts)(i) == low_received(
                    queued@,
                    timestamp_step,
                    i,
                )
            // A partial word is left only where nothing has dropped it yet.
            &&& !enable.current || low_overdue(queued@, 0, timestamp_step, from) ==> start
                == start.dropped()
        },
    }
}

/// Whether chip select, as it is known at the triggers of a batch behind sample `from`, is that of
/// some signals.
pub open spec fn cs_says(
    cs: CsAt,
    signals: Signals,
    from: int,
    triggers: Seq<u64>,
    asked: bool,
) -> bool {
    &&& cs.polarity == signals.config.cs_polarity
    &&& signals.cs is None ==> cs.polarity is Disabled
    &&& !(cs.polarity is Disabled) ==> {
        &&& forall|k: int|
            0 <= k < triggers.len() ==> #[trigger] cs.values[k] == bit_of(
                signals.cs->0.data@,
                triggers[k] as int,
            )
        &&& forall|k: int|
            0 <= k < triggers.len() && asked && cs.opens(k) ==> #[trigger] cs.cuts[k] == shuts(
                |i: int| cs_open(signals.config, signals.cs, i),
                gap_start(from, triggers, k),
                triggers[k] as int,
            )
    }
}

proof fn lemma_sample_time_grows(first: int, second: int, timestamp_step: u64)
    requires
        0 <= first <= second <= u64::MAX,
    ensures
        sample_time(first, timestamp_step) <= sample_time(second, timestamp_step),
{
    lemma_time_grows(first as u64, second as u64, timestamp_step);
}

/// A change between two samples takes effect at one of them.
proof fn lemma_takes_effect(start_time_ns: u64, timestamp_step: u64, from: int, to: int) -> (i: int)
    requires
        0 <= from <= to <= u64::MAX,
        start_time_ns <= sample_time(to, timestamp_step),
        from > 0 ==> start_time_ns > sample_time(from - 1, timestamp_step),
    ensures
        from <= i <= to,
        takes_effect_at(start_time_ns, timestamp_step, i),
    decreases to - from,
{
    if to == from || start_time_ns > sample_time(to - 1, timestamp_step) {
        to
    } else {
        lemma_takes_effect(start_time_ns, timestamp_step, from, to - 1)
    }
}

/// A low level before the next trigger, or a change to low that is not used up in time, is met by
/// a partial word that is dropped already.
proof fn lemma_nothing_left(
    positions: Seq<u64>,
    cs: CsAt,
    known: TriggerEnable,
    enable: EnableState,
    timestamp_step: u64,
    from: int,
    stable: bool,
    count: nat,
)
    requires
        count <= positions.len(),
        forall|i: int, j: int|
            0 <= i <= j < positions.len() ==> #[trigger] positions[i] <= #[trigger] positions[j],
        known matches TriggerEnable::Streamed { queued, .. } && known_until_next(enable, queued@)
            && in_order(queued@) && (!enable.current || low_overdue(
            queued@,
            0,
            timestamp_step,
            from,
        ) ==> stable),
        forall|i: int| 0 <= i < positions.len() ==> from <= #[trigger] positions[i] < u64::MAX,
        0 <= from,
        trigger_steps(
            initial_triggers(known, enable),
            positions,
            cs,
            known,
            timestamp_step,
            count,
        ) is Some,
    ensures
        ({
            let state = trigger_steps(
                initial_triggers(known, enable),
                positions,
                cs,
                known,
                timestamp_step,
                count,
            )->0;
            !state.enable.current || low_overdue(
                known->queued@,
                state.consumed,
                timestamp_step,
                gap_start(from, positions, count as int),
            ) ==> state.pending || (stable && state.eligible.len() == 0)
        }),
    decreases count,
{
    let queued = known->queued@;
    if count > 0 {
        let index = count - 1;
        lemma_nothing_left(
            positions,
            cs,
            known,
            enable,
            timestamp_step,
            from,
            stable,
            index as nat,
        );
        lemma_caught_up(positions, cs, known, enable, timestamp_step, index as nat);
        let before = trigger_steps(
            initial_triggers(known, enable),
            positions,
            cs,
            known,
            timestamp_step,
            index as nat,
        )->0;
        let after = trigger_steps(
            initial_triggers(known, enable),
            positions,
            cs,
            known,
            timestamp_step,
            count,
        )->0;
        if cs.opens(index) && after.enable.current {
            let time = trigger_time(positions[index], timestamp_step);
            lemma_passed(queued, before.consumed, time);
            lemma_passed_stops(queued, before.consumed, time);
            assert(gap_start(from, positions, count as int) - 1 == positions[index]);
            assert(sample_time(positions[index] as int, timestamp_step) == time);
            if low_overdue(
                queued,
                after.consumed,
                timestamp_step,
                gap_start(from, positions, count as int),
            ) {
                let j = choose|j: int|
                    after.consumed <= j < queued.len() && !(#[trigger] queued[j]).value
                        && queued[j].start_time_ns <= time;
                assert(queued[after.consumed].start_time_ns <= queued[j].start_time_ns);
            }
        }
    }
}

/// At a trigger that passes, a received enable signal says whether the partial word before it is
/// dropped.
proof fn lemma_received_cut(
    positions: Seq<u64>,
    cs: CsAt,
    known: TriggerEnable,
    enable: EnableState,
    timestamp_step: u64,
    from: int,
    to: int,
    start: MergeState,
    gate: Gate,
    index: int,
)
    requires
        0 <= index < positions.len(),
        forall|i: int, j: int|
            0 <= i <= j < positions.len() ==> #[trigger] positions[i] <= #[trigger] positions[j],
        forall|i: int, j: int|
            0 <= i < j < positions.len() ==> #[trigger] positions[i] < #[trigger] positions[j],
        forall|i: int| 0 <= i < positions.len() ==> from <= #[trigger] positions[i] < to,
        0 <= from <= to <= u64::MAX,
        known is Streamed,
        enable_says(known, enable, timestamp_step, from, to, positions, true, start, gate),
        trigger_steps(
            initial_triggers(known, enable),
            positions,
            cs,
            known,
            timestamp_step,
            index as nat,
        ) is Some,
    ensures
        ({
            let state = trigger_steps(
                initial_triggers(known, enable),
                positions,
                cs,
                known,
                timestamp_step,
                index as nat,
            )->0;
            let x = positions[index] as int;
            let at = enable_at_trigger(
                known,
                state.enable,
                state.consumed,
                trigger_time(positions[index], timestamp_step),
                index,
            );
            let gap = gap_start(from, positions, index);
            let dropped = shuts(gate.open, gap, x) || exists|i: int|
                gap <= i <= x && #[trigger] (gate.restarts)(i);
            at matches Some((next, _, cut)) ==> next.current == (gate.open)(x) && (next.current ==> (
            state.pending || cut) == (state.pending || dropped) || (start == start.dropped()
                && state.eligible.len() == 0))
        }),
{
    let queued = known->queued@;
    let state = trigger_steps(
        initial_triggers(known, enable),
        positions,
        cs,
        known,
        timestamp_step,
        index as nat,
    )->0;
    let x = positions[index] as int;
    let time = trigger_time(positions[index], timestamp_step);
    assert(sample_time(x, timestamp_step) == time);
    let gap = gap_start(from, positions, index);
    let last = last_time(positions, timestamp_step, index as nat);
    let stable = start == start.dropped();
    lemma_caught_up(positions, cs, known, enable, timestamp_step, index as nat);
    lemma_nothing_left(
        positions,
        cs,
        known,
        enable,
        timestamp_step,
        from,
        stable,
        index as nat,
    );
    if index > 0 {
        lemma_time_grows(positions[index - 1], positions[index], timestamp_step);
        assert(last == sample_time(gap - 1, timestamp_step));
        assert(positions[index - 1] < positions[index]);
    }
    lemma_caught_up_level(enable, queued, state.enable, state.consumed, last, time);
    lemma_passed(queued, state.consumed, time);
    lemma_passed_stops(queued, state.consumed, time);
    assert((gate.open)(x) == received_level(enable.current, queued, sample_time(x, timestamp_step)));
    let at = enable_at_trigger(known, state.enable, state.consumed, time, index);
    if at is Some && (at->0).0.current {
        let next = (at->0).1;
        let cut = (at->0).2;
        let dropped = shuts(gate.open, gap, x) || exists|i: int|
            gap <= i <= x && #[trigger] (gate.restarts)(i);
        // Every change to low up to this trigger that is not used up is used up now.
        assert forall|j: int|
            state.consumed <= j < queued.len() && !(#[trigger] queued[j]).value
                && queued[j].start_time_ns <= time implies cut by {
            if time < state.enable.next_change_position {
                assert(queued[state.consumed].start_time_ns <= queued[j].start_time_ns);
            } else {
                if j >= next {
                    assert(queued[next].start_time_ns <= queued[j].start_time_ns);
                }
                assert(low_among(queued, state.consumed, next));
            }
        }
        if dropped {
            if exists|i: int| gap <= i <= x && #[trigger] (gate.restarts)(i) {
                let i = choose|i: int| gap <= i <= x && #[trigger] (gate.restarts)(i);
                assert(low_received(queued, timestamp_step, i));
                let j = choose|j: int|
                    0 <= j < queued.len() && !(#[trigger] queued[j]).value && takes_effect_at(
                        queued[j].start_time_ns,
                        timestamp_step,
                        i,
                    );
                lemma_sample_time_grows(i, x, timestamp_step);
                if j < state.consumed {
                    assert(queued[j].start_time_ns <= last);
                    if index > 0 {
                        lemma_sample_time_grows(gap - 1, i - 1, timestamp_step);
                    }
                }
            } else {
                let i = choose|i: int| gap <= i < x && !#[trigger] (gate.open)(i);
                lemma_sample_time_grows(i, x, timestamp_step);
                let earlier = sample_time(i, timestamp_step);
                if index > 0 {
                    lemma_sample_time_grows(gap - 1, i, timestamp_step);
                }
                lemma_caught_up_level(enable, queued, state.enable, state.consumed, last, earlier);
                lemma_passed(queued, state.consumed, earlier);
                assert(!received_level(enable.current, queued, earlier));
                let used = passed(queued, 0, earlier);
                if used > state.consumed {
                    assert(queued[used - 1].start_time_ns <= earlier);
                    assert(!queued[used - 1].value);
                }
            }
            assert(cut);
        }
        if cut && !dropped && state.enable.current {
            let j = choose|j: int|
                state.consumed <= j < next && !(#[trigger] queued[j]).value;
            assert(queued[j].start_time_ns <= time);
            if gap > 0 && queued[j].start_time_ns <= sample_time(gap - 1, timestamp_step) {
                assert(low_overdue(queued, state.consumed, timestamp_step, gap));
            } else {
                let i = lemma_takes_effect(queued[j].start_time_ns, timestamp_step, gap, x);
                assert(low_received(queued, timestamp_step, i));
                assert((gate.restarts)(i));
            }
        }
    }
}

/// The triggers of a batch that passed, merged.
pub open spec fn batch_merged(signals: Signals, start: MergeState, state: TriggerState) -> MergeState {
    start.merged_items(
        signals.format,
        signals.strobe.timestamp_step,
        items_at(signals.data, state.eligible),
        false,
        state.eligible.len(),
    )
}

/// The triggers of a batch that passed, merged, and the partial word dropped where the last
/// trigger did not pass.
pub open spec fn batch_settled(signals: Signals, start: MergeState, state: TriggerState) -> MergeState {
    batch_merged(signals, start, state).dropped_if(state.pending)
}

proof fn lemma_drops_next(signals: Signals, gate: Gate, from: int, to: int)
    requires
        from <= to,
    ensures
        signals.drops_within(gate, from, to + 1) == (signals.drops_within(gate, from, to)
            || signals.drops(gate, to)),
{
    if signals.drops_within(gate, from, to) {
        let i = choose|i: int| from <= i < to && #[trigger] signals.drops(gate, i);
        assert(signals.drops(gate, i));
    }
    if signals.drops_within(gate, from, to + 1) && !signals.drops(gate, to) {
        let i = choose|i: int| from <= i < to + 1 && #[trigger] signals.drops(gate, i);
        assert(i < to);
    }
}

/// Samples without a trigger do nothing but drop a partial word.
pub proof fn lemma_quiet_points(signals: Signals, gate: Gate, state: MergeState, from: int, to: int)
    requires
        from <= to,
        forall|i: int| from <= i < to ==> !#[trigger] signals.triggers(i),
    ensures
        signals.points(gate, state, from, to) == state.dropped_if(
            signals.drops_within(gate, from, to),
        ),
    decreases to - from,
{
    if from < to {
        lemma_quiet_points(signals, gate, state, from, to - 1);
        lemma_drops_next(signals, gate, from, to - 1);
        assert(!signals.triggers(to - 1));
    }
}

/// With one cycle per word there is no partial word.
proof fn lemma_single_cycle(
    state: MergeState,
    format: WordFormat,
    step: u64,
    items: Seq<(u64, u64, bool)>,
    count: nat,
)
    requires
        format.cycles_per_word == 1,
        state.assembly.wf(format),
        count <= items.len(),
    ensures
        state.merged_items(format, step, items, false, count).assembly.wf(format),
    decreases count,
{
    if count > 0 {
        lemma_single_cycle(state, format, step, items, (count - 1) as nat);
    }
}

/// The gates drop the partial word before trigger `index`, which passes, exactly where one of the
/// samples since the trigger before does.
proof fn lemma_trigger_cut(
    signals: Signals,
    gate: Gate,
    positions: Seq<u64>,
    cs: CsAt,
    known: TriggerEnable,
    enable: EnableState,
    start: MergeState,
    from: int,
    to: int,
    index: int,
)
    requires
        0 <= index < positions.len(),
        forall|i: int, j: int|
            0 <= i <= j < positions.len() ==> #[trigger] positions[i] <= #[trigger] positions[j],
        forall|i: int, j: int|
            0 <= i < j < positions.len() ==> #[trigger] positions[i] < #[trigger] positions[j],
        forall|i: int| 0 <= i < positions.len() ==> from <= #[trigger] positions[i] < to,
        0 <= from <= to <= u64::MAX,
        signals.format.cycles_per_word > 1,
        cs_says(cs, signals, from, positions, true),
        enable_says(
            known,
            enable,
            signals.strobe.timestamp_step,
            from,
            to,
            positions,
            true,
            start,
            gate,
        ),
        trigger_steps(
            initial_triggers(known, enable),
            positions,
            cs,
            known,
            signals.strobe.timestamp_step,
            index as nat,
        ) is Some,
        known is Unconnected ==> trigger_steps(
            initial_triggers(known, enable),
            positions,
            cs,
            known,
            signals.strobe.timestamp_step,
            index as nat,
        )->0.enable.current,
    ensures
        ({
            let state = trigger_steps(
                initial_triggers(known, enable),
                positions,
                cs,
                known,
                signals.strobe.timestamp_step,
                index as nat,
            )->0;
            let x = positions[index] as int;
            let gap = gap_start(from, positions, index);
            let at = enable_at_trigger(
                known,
                state.enable,
                state.consumed,
                trigger_time(positions[index], signals.strobe.timestamp_step),
                index,
            );
            let merged = batch_merged(signals, start, state);
            cs.opens(index) && at is Some && (at->0).0.current ==> merged.dropped_if(
                state.pending || cs.cuts(index) || (at->0).2,
            ) == merged.dropped_if(state.pending || signals.drops_within(gate, gap, x)).dropped_if(
                (gate.restarts)(x),
            )
        }),
{
    let step = signals.strobe.timestamp_step;
    let state = trigger_steps(
        initial_triggers(known, enable),
        positions,
        cs,
        known,
        step,
        index as nat,
    )->0;
    let x = positions[index] as int;
    let gap = gap_start(from, positions, index);
    let at = enable_at_trigger(
        known,
        state.enable,
        state.consumed,
        trigger_time(positions[index], step),
        index,
    );
    if cs.opens(index) && at is Some && (at->0).0.current {
        let cut = (at->0).2;
        if index > 0 {
            assert(from <= positions[index - 1] < positions[index]);
        }
        let cs_level = |i: int| cs_open(signals.config, signals.cs, i);
        if !(cs.polarity is Disabled) {
            assert(cs.cuts[index] == shuts(cs_level, gap, x));
        } else {
            assert(!shuts(cs_level, gap, x));
        }
        assert(cs.cuts(index) == shuts(cs_level, gap, x));
        let open_dropped = shuts(gate.open, gap, x) || exists|i: int|
            gap <= i <= x && #[trigger] (gate.restarts)(i);
        let all = signals.drops_within(gate, gap, x) || (gate.restarts)(x);
        assert(all == (shuts(cs_level, gap, x) || open_dropped)) by {
            if signals.drops_within(gate, gap, x) {
                let i = choose|i: int| gap <= i < x && #[trigger] signals.drops(gate, i);
                if !cs_level(i) {
                    assert(shuts(cs_level, gap, x));
                } else if !(gate.open)(i) {
                    assert(shuts(gate.open, gap, x));
                } else {
                    assert((gate.restarts)(i));
                }
            }
            if shuts(cs_level, gap, x) {
                let i = choose|i: int| gap <= i < x && !#[trigger] cs_level(i);
                assert(signals.drops(gate, i));
            }
            if shuts(gate.open, gap, x) {
                let i = choose|i: int| gap <= i < x && !#[trigger] (gate.open)(i);
                assert(signals.drops(gate, i));
            }
            if exists|i: int| gap <= i <= x && #[trigger] (gate.restarts)(i) {
                let i = choose|i: int| gap <= i <= x && #[trigger] (gate.restarts)(i);
                if i < x {
                    assert(signals.drops(gate, i));
                }
            }
        }
        match known {
            TriggerEnable::Unconnected => {
                if shuts(gate.open, gap, x) {
                    let i = choose|i: int| gap <= i < x && !#[trigger] (gate.open)(i);
                    assert((gate.open)(i));
                }
                if exists|i: int| gap <= i <= x && #[trigger] (gate.restarts)(i) {
                    let i = choose|i: int| gap <= i <= x && #[trigger] (gate.restarts)(i);
                    assert(from <= i < to);
                    assert((gate.open)(i));
                    assert(!(gate.restarts)(i));
                }
                assert(!open_dropped);
            },
            TriggerEnable::Indexed { values, cuts } => {
                assert(values@[index] == (gate.open)(x));
                assert(cuts@[index] == shuts(gate.open, gap, x));
                assert(open_dropped == cut);
            },
            TriggerEnable::Streamed { .. } => {
                lemma_received_cut(
                    positions,
                    cs,
                    known,
                    enable,
                    step,
                    from,
                    to,
                    start,
                    gate,
                    index,
                );
                if start == start.dropped() && state.eligible.len() == 0 {
                    let merged = batch_merged(signals, start, state);
                    assert(merged == start);
                }
            },
        }
    }
}

proof fn lemma_batch_prefix(
    signals: Signals,
    gate: Gate,
    cs: CsAt,
    known: TriggerEnable,
    enable: EnableState,
    start: MergeState,
    from: int,
    total: int,
    end: int,
)
    requires
        0 <= from <= end <= total <= u64::MAX,
        signals.strobe.start_position == 0,
        signals.format.cycles_per_word == 1 ==> start.assembly.wf(signals.format),
        signals.format.cycles_per_word >= 1,
        cs_says(
            cs,
            signals,
            from,
            signals.trigger_list(from, total),
            signals.format.cycles_per_word > 1,
        ),
        enable_says(
            known,
            enable,
            signals.strobe.timestamp_step,
            from,
            total,
            signals.trigger_list(from, total),
            signals.format.cycles_per_word > 1,
            start,
            gate,
        ),
    ensures
        ({
            let positions = signals.trigger_list(from, total);
            let count = signals.trigger_list(from, end).len();
            let gated = trigger_steps(
                initial_triggers(known, enable),
                positions,
                cs,
                known,
                signals.strobe.timestamp_step,
                count,
            );
            let gap = gap_start(from, positions, count as int);
            &&& from <= gap <= end
            &&& forall|i: int| gap <= i < end ==> !#[trigger] signals.triggers(i)
            &&& !(known is Streamed) ==> gated is Some
            &&& known is Unconnected ==> gated->0.enable.current
            &&& gated is Some ==> signals.points(gate, start, from, end) == batch_settled(
                signals,
                start,
                gated->0,
            ).dropped_if(signals.drops_within(gate, gap, end))
        }),
    decreases end - from,
{
    let positions = signals.trigger_list(from, total);
    let initial = initial_triggers(known, enable);
    let step = signals.strobe.timestamp_step;
    let asked = signals.format.cycles_per_word > 1;
    if end == from {
        assert(signals.trigger_list(from, from).len() == 0);
        assert(items_at(signals.data, initial.eligible).len() == 0);
        assert(!signals.drops_within(gate, from, from));
    } else {
        let x = end - 1;
        lemma_batch_prefix(signals, gate, cs, known, enable, start, from, total, x);
        let count = signals.trigger_list(from, x).len();
        let gated = trigger_steps(initial, positions, cs, known, step, count);
        let before = gated->0;
        let gap = gap_start(from, positions, count as int);
        lemma_drops_next(signals, gate, gap, x);
        if signals.triggers(x) {
            lemma_trigger_list_prefix(signals, from, end, total);
            assert(signals.trigger_list(from, end)[count as int] == positions[count as int]);
            assert(positions[count as int] == x);
            lemma_trigger_list_within(signals, from, total);
            lemma_trigger_list_grows(signals, from, total);
            assert(!signals.drops_within(gate, end, end));
            let after = trigger_steps(initial, positions, cs, known, step, count + 1);
            assert(signals.drops(gate, x) == ((gate.restarts)(x) || !(gate.open)(x) || !cs_open(
                signals.config,
                signals.cs,
                x,
            )));
            if !(cs.polarity is Disabled) {
                assert(cs.values[count as int] == bit_of(signals.cs->0.data@, x));
            }
            assert(cs.opens(count as int) == cs_open(signals.config, signals.cs, x));
            let items = items_at(signals.data, before.eligible);
            let merged = batch_merged(signals, start, before);
            if known is Unconnected {
                assert((gate.open)(x));
            }
            if gated is Some && known is Streamed {
                lemma_received_cut(
                    positions,
                    cs,
                    known,
                    enable,
                    step,
                    from,
                    total,
                    start,
                    gate,
                    count as int,
                );
            }
            if known is Indexed {
                assert(known->values@[count as int] == (gate.open)(x));
            }
            if after is Some {
                if cs.opens(count as int) && (gate.open)(x) {
                    let flag = after->0.eligible.last().1;
                    if asked {
                        lemma_trigger_cut(
                            signals,
                            gate,
                            positions,
                            cs,
                            known,
                            enable,
                            start,
                            from,
                            total,
                            count as int,
                        );
                    } else {
                        lemma_single_cycle(start, signals.format, step, items, items.len());
                        assert(merged.dropped() == merged);
                    }
                    let item = (x as u64, bus_value(signals.data, x), flag);
                    assert(after->0.eligible == before.eligible.push((x as u64, flag)));
                    assert(items_at(signals.data, after->0.eligible) =~= items.push(item));
                    lemma_items_at_prefix(start, signals.format, step, items, item, items.len());
                    assert(items.push(item).last() == item);
                } else {
                    assert(after->0.eligible == before.eligible);
                }
            }
        } else {
            assert forall|i: int| gap <= i < end implies !#[trigger] signals.triggers(i) by {}
        }
    }
}

proof fn lemma_trigger_list_within(signals: Signals, from: int, end: int)
    requires
        0 <= from <= end <= u64::MAX,
    ensures
        forall|k: int|
            0 <= k < signals.trigger_list(from, end).len() ==> from
                <= #[trigger] signals.trigger_list(from, end)[k] < end,
        forall|i: int, j: int|
            0 <= i < j < signals.trigger_list(from, end).len() ==> #[trigger] signals.trigger_list(
                from,
                end,
            )[i] < #[trigger] signals.trigger_list(from, end)[j],
    decreases end - from,
{
    if end > from {
        lemma_trigger_list_within(signals, from, end - 1);
        let before = signals.trigger_list(from, end - 1);
        let list = signals.trigger_list(from, end);
        assert forall|k: int| 0 <= k < list.len() implies from <= #[trigger] list[k] < end by {
            if k < before.len() {
                assert(list[k] == before[k]);
            }
        }
        assert forall|i: int, j: int| 0 <= i < j < list.len() implies #[trigger] list[i]
            < #[trigger] list[j] by {
            assert(list[i] == before[i]);
            if j < before.len() {
                assert(list[j] == before[j]);
            }
        }
    }
}

/// One batch over all triggers in `from..end` yields what the signals yield there sample by
/// sample, up to the samples behind its last trigger, which are left to the next batch. Where the
/// changes of the enable signal are received, a batch waits until they are known.
pub proof fn law_batch_is_index_driven(
    signals: Signals,
    gate: Gate,
    cs: CsAt,
    known: TriggerEnable,
    enable: EnableState,
    start: MergeState,
    from: int,
    end: int,
)
    requires
        0 <= from <= end <= u64::MAX,
        signals.strobe.start_position == 0,
        signals.format.cycles_per_word >= 1,
        start.assembly.wf(signals.format),
        cs_says(
            cs,
            signals,
            from,
            signals.trigger_list(from, end),
            signals.format.cycles_per_word > 1,
        ),
        enable_says(
            known,
            enable,
            signals.strobe.timestamp_step,
            from,
            end,
            signals.trigger_list(from, end),
            signals.format.cycles_per_word > 1,
            start,
            gate,
        ),
    ensures
        ({
            let positions = signals.trigger_list(from, end);
            let gated = trigger_steps(
                initial_triggers(known, enable),
                positions,
                cs,
                known,
                signals.strobe.timestamp_step,
                positions.len(),
            );
            let left = gap_start(from, positions, positions.len() as int);
            &&& from <= left <= end
            &&& forall|i: int| left <= i < end ==> !#[trigger] signals.triggers(i)
            &&& !(known is Streamed) ==> gated is Some
            &&& gated is Some ==> signals.points(gate, start, from, left) == batch_settled(
                signals,
                start,
                gated->0,
            )
            &&& gated is Some ==> signals.points(gate, start, from, end) == signals.points(
                gate,
                batch_settled(signals, start, gated->0),
                left,
                end,
            )
        }),
{
    lemma_batch_prefix(signals, gate, cs, known, enable, start, from, end, end);
    let positions = signals.trigger_list(from, end);
    let left = gap_start(from, positions, positions.len() as int);
    let gated = trigger_steps(
        initial_triggers(known, enable),
        positions,
        cs,
        known,
        signals.strobe.timestamp_step,
        positions.len(),
    );
    lemma_same_triggers(signals, from, left, end);
    lemma_batch_prefix(signals, gate, cs, known, enable, start, from, end, left);
    assert(!signals.drops_within(gate, left, left));
    if gated is Some {
        lemma_quiet_points(signals, gate, batch_settled(signals, start, gated->0), left, end);
    }
}

/// Samples without a trigger add none to the list.
pub proof fn lemma_same_triggers(signals: Signals, from: int, mid: int, to: int)
    requires
        from <= mid <= to,
        forall|i: int| mid <= i < to ==> !#[trigger] signals.triggers(i),
    ensures
        signals.trigger_list(from, to) == signals.trigger_list(from, mid),
    decreases to - mid,
{
    if mid < to {
        assert(!signals.triggers(to - 1));
        lemma_same_triggers(signals, from, mid, to - 1);
    }
}

} // verus!
