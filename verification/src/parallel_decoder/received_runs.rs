//! A recorded bus with an enable signal whose changes are received.

use vstd::prelude::*;

use crate::bits::bit_of;
use crate::parallel_decoder::agreement::{
    lemma_caught_up, lemma_passed, lemma_passed_stops, lemma_time_grows, lemma_trigger_list_grows,
    lemma_trigger_list_prefix, received_level, searched_from, trigger_time, Gate,
};
use crate::parallel_decoder::decoder::ParallelDecoder;
use crate::parallel_decoder::index_model::{
    cs_says, enable_says, in_order, lemma_quiet_points, low_overdue, low_received, sample_time,
    takes_effect_at,
};
use crate::parallel_decoder::indexed::{
    initial_triggers, passed, trigger_steps, CsAt, EnableState, TriggerEnable,
};
use crate::parallel_decoder::merge::MergeState;
use crate::parallel_decoder::received_model::{lemma_passed_is, level_behind, received_gate};
use crate::parallel_decoder::recorded::{gap_start, lemma_found_within, BusLevels};
use crate::parallel_decoder::recorded_model::{
    batch_decodes, batch_end, gates_follow_search, law_recorded_batch_is_sample_by_sample,
    law_runs_join, lemma_batch_bounds, lemma_found_are_all, lemma_recorded_cs, lemma_triggers_from,
    progress_of, signals_record,
};
use crate::parallel_decoder::sample_model::Signals;
use crate::parallel_decoder::scan::cs_open;
use crate::streams::Sample;

verus! {

/// What holds of a decoder between two batches, once it has used up the first changes of the
/// enable signal: they lie before the place where its gates are still to be looked at, and where
/// the level is low, or was low since, no partial word is left.
pub open spec fn follows_changes(
    initial: bool,
    changes: Seq<Sample>,
    step: u64,
    decoder: ParallelDecoder,
    used: int,
) -> bool {
    let from = decoder.query_gate_position as int;
    let start = progress_of(decoder, Seq::empty());
    &&& 0 <= used <= changes.len()
    &&& decoder.enable.current == level_behind(initial, changes, used)
    &&& used < changes.len() ==> decoder.enable.next_change_position
        <= changes[used].start_time_ns
    &&& forall|j: int|
        0 <= j < used ==> from > 0 && (#[trigger] changes[j]).start_time_ns <= sample_time(
            from - 1,
            step,
        )
    &&& !decoder.enable.current || low_overdue(changes, used, step, from) ==> start
        == start.dropped()
}

/// Whether a batch is given the changes behind those used up, up to number `received`.
pub open spec fn queue_holds(
    changes: Seq<Sample>,
    used: int,
    received: int,
    queued: Seq<Sample>,
    closed: bool,
) -> bool {
    &&& 0 <= used <= received <= changes.len()
    &&& queued == changes.subrange(used, received)
    &&& closed ==> received == changes.len()
}

/// Whether the changes up to number `received` are all that apply up to some time.
pub open spec fn known_to(changes: Seq<Sample>, received: int, time: u64) -> bool {
    received < changes.len() ==> changes[received].start_time_ns > time
}

proof fn lemma_sample_times(first: int, second: int, step: u64)
    requires
        0 <= first <= second <= u64::MAX,
    ensures
        sample_time(first, step) <= sample_time(second, step),
{
    lemma_time_grows(first as u64, second as u64, step);
}

/// Where a batch is given all the changes that apply to its samples, they say at its triggers what
/// the signal says sample by sample.
pub proof fn law_received_changes_say(
    initial: bool,
    changes: Seq<Sample>,
    step: u64,
    decoder: ParallelDecoder,
    used: int,
    received: int,
    queued: &[Sample],
    closed: bool,
    triggers: Seq<u64>,
    to: int,
)
    requires
        in_order(changes),
        follows_changes(initial, changes, step, decoder, used),
        queue_holds(changes, used, received, queued@, closed),
        known_to(changes, received, sample_time(to - 1, step)),
        to <= u64::MAX,
    ensures
        enable_says(
            TriggerEnable::Streamed { queued, closed },
            decoder.enable,
            step,
            decoder.query_gate_position as int,
            to,
            triggers,
            decoder.assembles(),
            progress_of(decoder, Seq::empty()),
            received_gate(initial, changes, step),
        ),
{
    let gate = received_gate(initial, changes, step);
    let from = decoder.query_gate_position as int;
    let rest = queued@;
    assert(in_order(rest)) by {
        assert forall|j: int, k: int| 0 <= j <= k < rest.len() implies (
        #[trigger] rest[j]).start_time_ns <= (#[trigger] rest[k]).start_time_ns by {
            assert(rest[j] == changes[used + j] && rest[k] == changes[used + k]);
        }
    }
    assert forall|i: int| from <= i < to implies #[trigger] (gate.open)(i) == received_level(
        decoder.enable.current,
        rest,
        sample_time(i, step),
    ) by {
        let time = sample_time(i, step);
        lemma_sample_times(i, to - 1, step);
        if from > 0 {
            lemma_sample_times(from - 1, i, step);
        }
        lemma_passed(rest, 0, time);
        lemma_passed_stops(rest, 0, time);
        let q = passed(rest, 0, time);
        assert forall|j: int| 0 <= j < used + q implies (#[trigger] changes[j]).start_time_ns
            <= time by {
            if j >= used {
                assert(rest[j - used] == changes[j]);
            }
        }
        if q < rest.len() {
            assert(rest[q] == changes[used + q]);
        }
        lemma_passed_is(changes, used + q, time);
        if q > 0 {
            assert(rest[q - 1] == changes[used + q - 1]);
        }
    }
    assert forall|i: int| from <= i < to implies #[trigger] (gate.restarts)(i) == low_received(
        rest,
        step,
        i,
    ) by {
        lemma_sample_times(i, to - 1, step);
        if low_received(rest, step, i) {
            let j = choose|j: int|
                0 <= j < rest.len() && !(#[trigger] rest[j]).value && takes_effect_at(
                    rest[j].start_time_ns,
                    step,
                    i,
                );
            assert(changes[used + j] == rest[j]);
        }
        if low_received(changes, step, i) {
            let j = choose|j: int|
                0 <= j < changes.len() && !(#[trigger] changes[j]).value && takes_effect_at(
                    changes[j].start_time_ns,
                    step,
                    i,
                );
            if j < used {
                lemma_sample_times(from - 1, i - 1, step);
            }
            if j >= received {
                assert(changes[received].start_time_ns <= changes[j].start_time_ns);
            }
            assert(rest[j - used] == changes[j]);
        }
    }
    if low_overdue(rest, 0, step, from) {
        let j = choose|j: int|
            0 <= j < rest.len() && !(#[trigger] rest[j]).value && rest[j].start_time_ns
                <= sample_time(from - 1, step);
        assert(changes[used + j] == rest[j]);
    }
    if rest.len() > 0 {
        assert(rest[0] == changes[used]);
    }
}

/// Changes that were all used up without a word that they are all leave the level as it was.
proof fn lemma_used_up_unasked(
    positions: Seq<u64>,
    cs: CsAt,
    known: TriggerEnable,
    enable: EnableState,
    step: u64,
    count: nat,
)
    requires
        known matches TriggerEnable::Streamed { closed, .. } && !closed,
    ensures
        ({
            let gated = trigger_steps(
                initial_triggers(known, enable),
                positions,
                cs,
                known,
                step,
                count,
            );
            gated is Some && gated->0.consumed >= known->queued@.len() ==> gated->0.consumed == 0
                && gated->0.enable == enable
        }),
    decreases count,
{
    if count > 0 {
        lemma_used_up_unasked(positions, cs, known, enable, step, (count - 1) as nat);
        let before = trigger_steps(
            initial_triggers(known, enable),
            positions,
            cs,
            known,
            step,
            (count - 1) as nat,
        );
        if before is Some {
            let time = trigger_time(positions[count - 1], step);
            if before->0.consumed >= 0 {
                lemma_passed_from(known->queued@, before->0.consumed, time);
            }
        }
    }
}

proof fn lemma_passed_from(queued: Seq<Sample>, from: int, time: u64)
    ensures
        passed(queued, from, time) >= from,
        from >= queued.len() ==> passed(queued, from, time) == from,
    decreases queued.len() - from,
{
    if 0 <= from < queued.len() && queued[from].start_time_ns <= time {
        lemma_passed_from(queued, from + 1, time);
    }
}

/// A trigger at which the enable level was asked for lies before the first change that was not
/// received.
proof fn lemma_asked_is_known(
    initial: bool,
    changes: Seq<Sample>,
    step: u64,
    decoder: ParallelDecoder,
    used: int,
    received: int,
    queued: &[Sample],
    closed: bool,
    triggers: Seq<u64>,
    cs: CsAt,
    index: int,
)
    requires
        in_order(changes),
        follows_changes(initial, changes, step, decoder, used),
        queue_holds(changes, used, received, queued@, closed),
        forall|i: int, j: int|
            0 <= i <= j < triggers.len() ==> #[trigger] triggers[i] <= #[trigger] triggers[j],
        0 <= index < triggers.len(),
        cs.opens(index),
        trigger_steps(
            initial_triggers((TriggerEnable::Streamed { queued, closed }), decoder.enable),
            triggers,
            cs,
            (TriggerEnable::Streamed { queued, closed }),
            step,
            (index + 1) as nat,
        ) is Some,
    ensures
        known_to(changes, received, trigger_time(triggers[index], step)),
{
    let known = TriggerEnable::Streamed { queued, closed };
    let rest = queued@;
    let time = trigger_time(triggers[index], step);
    let before = trigger_steps(
        initial_triggers(known, decoder.enable),
        triggers,
        cs,
        known,
        step,
        index as nat,
    )->0;
    if rest.len() > 0 {
        assert(rest[0] == changes[used]);
    }
    lemma_caught_up(triggers, cs, known, decoder.enable, step, index as nat);
    if !closed {
        lemma_used_up_unasked(triggers, cs, known, decoder.enable, step, index as nat);
    }
    if received < changes.len() {
        let next = if time < before.enable.next_change_position {
            before.consumed
        } else {
            passed(rest, before.consumed, time)
        };
        lemma_passed(rest, before.consumed, time);
        lemma_passed_stops(rest, before.consumed, time);
        if next < rest.len() {
            assert(rest[next] == changes[used + next]);
            assert(changes[used + next].start_time_ns <= changes[received].start_time_ns);
        }
    }
}

/// A batch leaves its decoder following the changes, behind those that it used up.
pub proof fn law_batch_follows_changes(
    initial: bool,
    changes: Seq<Sample>,
    step: u64,
    decoder: ParallelDecoder,
    used: int,
    received: int,
    queued: &[Sample],
    closed: bool,
    bus: BusLevels,
)
    requires
        in_order(changes),
        follows_changes(initial, changes, step, decoder, used),
        queue_holds(changes, used, received, queued@, closed),
        batch_end(decoder, bus.strobe) <= u64::MAX,
        forall|i: int, j: int|
            0 <= i <= j < decoder.found_triggers(bus.strobe).len() ==> #[trigger] decoder.found_triggers(
                bus.strobe,
            )[i] <= #[trigger] decoder.found_triggers(bus.strobe)[j],
        decoder.query_gate_position <= decoder.gates_known_to(bus.strobe),
        decoder.found_triggers(bus.strobe).len() > 0 ==> decoder.found_triggers(
            bus.strobe,
        ).last() < batch_end(decoder, bus.strobe),
        decoder.passed_triggers(bus, (TriggerEnable::Streamed { queued, closed }), step) is Some,
    ensures
        ({
            let known = TriggerEnable::Streamed { queued, closed };
            let gated = decoder.passed_triggers(bus, known, step)->0;
            &&& 0 <= gated.consumed
            &&& follows_changes(
                initial,
                changes,
                step,
                decoder.after_batch(bus, gated, step),
                used + gated.consumed,
            )
        }),
{
    let known = TriggerEnable::Streamed { queued, closed };
    let triggers = decoder.found_triggers(bus.strobe);
    let cs = decoder.cs_at(bus, triggers);
    let gated = decoder.passed_triggers(bus, known, step)->0;
    let after = decoder.after_batch(bus, gated, step);
    let from = decoder.query_gate_position as int;
    let left = after.query_gate_position as int;
    let rest = queued@;
    if rest.len() > 0 {
        assert(rest[0] == changes[used]);
    }
    lemma_caught_up(triggers, cs, known, decoder.enable, step, triggers.len());
    if !closed {
        lemma_used_up_unasked(triggers, cs, known, decoder.enable, step, triggers.len());
    }
    let consumed = gated.consumed;
    if consumed > 0 {
        assert(rest[consumed - 1] == changes[used + consumed - 1]);
    }
    if consumed < rest.len() {
        assert(rest[consumed] == changes[used + consumed]);
    }
    if triggers.len() > 0 {
        let last = triggers.len() - 1;
        let time = trigger_time(triggers[last], step);
        assert(time == sample_time(left - 1, step));
        assert forall|j: int| 0 <= j < used + consumed implies (#[trigger] changes[j]).start_time_ns
            <= sample_time(left - 1, step) by {
            if j < used {
                lemma_sample_times(from - 1, left - 1, step);
            } else {
                assert(rest[j - used] == changes[j]);
            }
        }
        let start = progress_of(after, Seq::empty());
        if !gated.pending {
            let before = trigger_steps(
                initial_triggers(known, decoder.enable),
                triggers,
                cs,
                known,
                step,
                last as nat,
            )->0;
            lemma_caught_up(triggers, cs, known, decoder.enable, step, last as nat);
            lemma_passed(rest, before.consumed, time);
            lemma_passed_stops(rest, before.consumed, time);
            if low_overdue(changes, used + consumed, step, left) {
                let j = choose|j: int|
                    used + consumed <= j < changes.len() && !(#[trigger] changes[j]).value
                        && changes[j].start_time_ns <= sample_time(left - 1, step);
                lemma_asked_is_known(
                    initial,
                    changes,
                    step,
                    decoder,
                    used,
                    received,
                    queued,
                    closed,
                    triggers,
                    cs,
                    last,
                );
                if consumed < rest.len() {
                    assert(changes[used + consumed].start_time_ns <= changes[j].start_time_ns);
                    assert(rest[consumed].start_time_ns > time);
                } else {
                    assert(changes[received].start_time_ns <= changes[j].start_time_ns);
                }
            }
        }
    }
}

proof fn lemma_same_gates(
    signals: Signals,
    one: Gate,
    other: Gate,
    state: MergeState,
    from: int,
    to: int,
)
    requires
        forall|i: int|
            from <= i < to ==> #[trigger] (one.open)(i) == (other.open)(i) && (one.restarts)(i)
                == (other.restarts)(i),
    ensures
        signals.points(one, state, from, to) == signals.points(other, state, from, to),
    decreases to - from,
{
    if from < to {
        lemma_same_gates(signals, one, other, state, from, to - 1);
        assert((one.open)(to - 1) == (other.open)(to - 1));
    }
}

/// What the received changes yield, up to the last trigger, is what all changes yield: at a
/// trigger at which the enable level is not asked for, chip select is closed.
proof fn lemma_received_points(
    initial: bool,
    changes: Seq<Sample>,
    signals: Signals,
    decoder: ParallelDecoder,
    used: int,
    received: int,
    queued: &[Sample],
    closed: bool,
    cs: CsAt,
    state: MergeState,
    total: int,
    end: int,
)
    requires
        in_order(changes),
        follows_changes(initial, changes, signals.strobe.timestamp_step, decoder, used),
        queue_holds(changes, used, received, queued@, closed),
        decoder.query_gate_position <= end <= total <= u64::MAX,
        cs_says(
            cs,
            signals,
            decoder.query_gate_position as int,
            signals.trigger_list(decoder.query_gate_position as int, total),
            decoder.assembles(),
        ),
        trigger_steps(
            initial_triggers((TriggerEnable::Streamed { queued, closed }), decoder.enable),
            signals.trigger_list(decoder.query_gate_position as int, total),
            cs,
            (TriggerEnable::Streamed { queued, closed }),
            signals.strobe.timestamp_step,
            signals.trigger_list(decoder.query_gate_position as int, end).len(),
        ) is Some,
    ensures
        ({
            let step = signals.strobe.timestamp_step;
            let from = decoder.query_gate_position as int;
            let triggers = signals.trigger_list(from, end);
            let left = gap_start(from, triggers, triggers.len() as int);
            &&& from <= left <= end
            &&& forall|i: int| left <= i < end ==> !#[trigger] signals.triggers(i)
            &&& signals.points(
                received_gate(decoder.enable.current, queued@, step),
                state,
                from,
                left,
            ) == signals.points(received_gate(initial, changes, step), state, from, left)
        }),
    decreases end,
{
    let step = signals.strobe.timestamp_step;
    let from = decoder.query_gate_position as int;
    let shown = received_gate(decoder.enable.current, queued@, step);
    let gate = received_gate(initial, changes, step);
    let all = signals.trigger_list(from, total);
    if from < end {
        let x = end - 1;
        let before = signals.trigger_list(from, x);
        let index = before.len() as int;
        lemma_received_points(
            initial,
            changes,
            signals,
            decoder,
            used,
            received,
            queued,
            closed,
            cs,
            state,
            total,
            x,
        );
        if signals.triggers(x) {
            let left = gap_start(from, before, index);
            lemma_trigger_list_prefix(signals, from, end, total);
            lemma_trigger_list_grows(signals, from, total);
            assert(signals.trigger_list(from, end)[index] == x);
            assert(all[index] == x);
            if cs.opens(index) {
                lemma_asked_is_known(
                    initial,
                    changes,
                    step,
                    decoder,
                    used,
                    received,
                    queued,
                    closed,
                    all,
                    cs,
                    index,
                );
                law_received_changes_say(
                    initial,
                    changes,
                    step,
                    decoder,
                    used,
                    received,
                    queued,
                    closed,
                    all,
                    end,
                );
                assert forall|i: int| from <= i < end implies #[trigger] (shown.open)(i) == (
                gate.open)(i) && (shown.restarts)(i) == (gate.restarts)(i) by {
                    assert((gate.open)(i) == received_level(
                        decoder.enable.current,
                        queued@,
                        sample_time(i, step),
                    ));
                    assert((gate.restarts)(i) == low_received(queued@, step, i));
                }
                lemma_same_gates(signals, shown, gate, state, from, end);
            } else {
                let reached = signals.points(gate, state, from, left);
                lemma_quiet_points(signals, gate, reached, left, x);
                lemma_quiet_points(signals, shown, reached, left, x);
                law_runs_join(signals, gate, state, from, left, x);
                law_runs_join(signals, shown, state, from, left, x);
                assert(cs.values[index] == bit_of(signals.cs->0.data@, x));
                assert(!cs_open(signals.config, signals.cs, x));
            }
        }
    }
}

/// A batch that is given the changes of an enable signal as far as they are received, and need not
/// wait, decodes what the signal says, sample by sample.
pub proof fn law_received_batch_decodes(
    initial: bool,
    changes: Seq<Sample>,
    signals: Signals,
    bus: BusLevels,
    decoder: ParallelDecoder,
    used: int,
    received: int,
    queued: &[Sample],
    closed: bool,
)
    requires
        in_order(changes),
        follows_changes(initial, changes, signals.strobe.timestamp_step, decoder, used),
        queue_holds(changes, used, received, queued@, closed),
        decoder.wf(),
        decoder.mode.on_edges(),
        bus.data.len() == decoder.num_data_bits,
        bus.cs is None ==> decoder.cs_polarity is Disabled,
        signals.config == decoder.scan_config(),
        signals.format == decoder.word_format(),
        signals_record(signals, bus),
        decoder.query_strobe_position < bus.strobe.len() <= u64::MAX,
        gates_follow_search(decoder, signals),
        decoder.passed_triggers(
            bus,
            (TriggerEnable::Streamed { queued, closed }),
            signals.strobe.timestamp_step,
        ) is Some,
    ensures
        batch_decodes(
            decoder,
            signals,
            bus,
            received_gate(initial, changes, signals.strobe.timestamp_step),
            TriggerEnable::Streamed { queued, closed },
        ),
{
    let step = signals.strobe.timestamp_step;
    let known = TriggerEnable::Streamed { queued, closed };
    let from = decoder.query_gate_position as int;
    let end = batch_end(decoder, bus.strobe);
    let rest = queued@;
    let triggers = decoder.found_triggers(bus.strobe);
    let shown = received_gate(decoder.enable.current, rest, step);
    assert(in_order(rest)) by {
        assert forall|j: int, k: int| 0 <= j <= k < rest.len() implies (
        #[trigger] rest[j]).start_time_ns <= (#[trigger] rest[k]).start_time_ns by {
            assert(rest[j] == changes[used + j] && rest[k] == changes[used + k]);
        }
    }
    assert(follows_changes(decoder.enable.current, rest, step, decoder, 0)) by {
        if rest.len() > 0 {
            assert(rest[0] == changes[used]);
        }
        if low_overdue(rest, 0, step, from) {
            let j = choose|j: int|
                0 <= j < rest.len() && !(#[trigger] rest[j]).value && rest[j].start_time_ns
                    <= sample_time(from - 1, step);
            assert(changes[used + j] == rest[j]);
        }
    }
    assert(rest =~= rest.subrange(0, rest.len() as int));
    lemma_batch_bounds(decoder, signals, bus);
    lemma_found_are_all(decoder, signals, bus);
    lemma_found_within(decoder, bus.strobe);
    lemma_triggers_from(
        signals,
        from,
        searched_from(decoder.query_strobe_position as int),
        end,
    );
    law_received_changes_say(
        decoder.enable.current,
        rest,
        step,
        decoder,
        0,
        rest.len() as int,
        queued,
        closed,
        triggers,
        end,
    );
    law_recorded_batch_is_sample_by_sample(decoder, signals, bus, shown, known);
    lemma_recorded_cs(decoder, signals, bus, triggers);
    lemma_received_points(
        initial,
        changes,
        signals,
        decoder,
        used,
        received,
        queued,
        closed,
        decoder.cs_at(bus, triggers),
        progress_of(decoder, Seq::empty()),
        end,
        end,
    );
}

} // verus!
