//! The ways in which an enable signal reaches a decoder, and what they say of it.

use vstd::prelude::*;

use crate::parallel_decoder::agreement::{received_level, Gate};
use crate::parallel_decoder::decoder::ParallelDecoder;
use crate::parallel_decoder::gate::{
    edge_changes, gate_result, gated, sample_changes, time_step, EnableInput, EnableScan,
    EnableWindow,
};
use crate::parallel_decoder::index_model::{in_order, sample_time, takes_effect_at};
use crate::parallel_decoder::indexed::TriggerEnable;
use crate::parallel_decoder::merge::MergeState;
use crate::parallel_decoder::received_model::{
    law_received_window_is_high_samples, law_received_window_restarts, lemma_effect,
    level_behind, received_gate, steady, used_up,
};
use crate::parallel_decoder::received_runs::queue_holds;
use crate::parallel_decoder::recorded::{cuts_at, level_ahead_of, levels_at, recorded_gate};
use crate::parallel_decoder::recorded_model::{always_enabled, recorded_enable};
use crate::parallel_decoder::sample_model::Signals;
use crate::parallel_decoder::streamed_model::{
    law_recorded_window_follows, law_unconnected_window_follows, ranges_enable, ranges_restart,
};
use crate::streams::{CaptureTransition, Sample, SampleBlock};

verus! {

/// How an enable signal reaches a decoder.
pub enum EnableFeed {
    Unconnected,
    /// It is recorded, and read from an index.
    Recorded(Seq<bool>),
    /// Its changes are received one after the other.
    Received(Seq<Sample>),
}

/// What a received signal gates a window by: `used` changes were used up before, and those up to
/// number `received` are in the queue.
pub open spec fn received_gates(
    changes: Seq<Sample>,
    used: int,
    received: int,
    queued: &[Sample],
    closed: bool,
    level: bool,
    strobe: SampleBlock,
    start: int,
    end: int,
    window: EnableWindow,
) -> bool {
    &&& queue_holds(changes, used, received, queued@, closed)
    &&& gated(
        EnableInput::Streamed { queued, closed },
        level,
        strobe.start_position as int,
        start,
        end,
        strobe.timestamp_step,
        EnableScan::Ready(window),
    )
}

impl EnableFeed {
    /// The signal, sample by sample. `initial` is the level before the first received change.
    pub open spec fn gate(self, initial: bool, step: u64) -> Gate {
        match self {
            EnableFeed::Unconnected => always_enabled(),
            EnableFeed::Recorded(levels) => recorded_enable(levels),
            EnableFeed::Received(changes) => received_gate(initial, changes, step),
        }
    }

    /// Whether `known` is what a decoder can know of the signal at the triggers of its next batch,
    /// once `used` received changes are used up.
    pub open spec fn known_at(
        self,
        used: int,
        decoder: ParallelDecoder,
        triggers: Seq<u64>,
        known: TriggerEnable,
    ) -> bool {
        match self {
            EnableFeed::Unconnected => known is Unconnected,
            EnableFeed::Recorded(levels) => {
                &&& known matches TriggerEnable::Indexed { values, cuts }
                &&& values@ == levels_at(levels, triggers)
                &&& cuts@ == cuts_at(
                    levels,
                    true,
                    decoder.query_gate_position as int,
                    triggers,
                    decoder.assembles(),
                )
            },
            EnableFeed::Received(changes) => {
                &&& known matches TriggerEnable::Streamed { queued, closed }
                &&& exists|received: int| #[trigger]
                    queue_holds(changes, used, received, queued@, closed)
            },
        }
    }

    /// Whether a window of a block is gated by the signal, where `level` is the level in force and
    /// `used` received changes are used up.
    pub open spec fn gates(
        self,
        used: int,
        level: bool,
        strobe: SampleBlock,
        start: int,
        end: int,
        window: EnableWindow,
    ) -> bool {
        match self {
            EnableFeed::Unconnected => gated(
                EnableInput::Unconnected,
                level,
                strobe.start_position as int,
                start,
                end,
                strobe.timestamp_step,
                EnableScan::Ready(window),
            ),
            EnableFeed::Recorded(levels) => exists|edges: &[CaptureTransition]| #[trigger]
                recorded_gate(
                    levels,
                    strobe.start_position as int,
                    start,
                    end,
                    edges,
                    window,
                ),
            EnableFeed::Received(changes) => exists|received: int, queued: &[Sample], closed: bool| #[trigger]
                received_gates(
                    changes,
                    used,
                    received,
                    queued,
                    closed,
                    level,
                    strobe,
                    start,
                    end,
                    window,
                ),
        }
    }

    /// Whether the signal has some levels. Times have to fit a clock of 64 bits.
    pub open spec fn tells(self, initial: bool, levels: Seq<bool>, step: u64) -> bool {
        let len = levels.len() as int;
        match self {
            EnableFeed::Unconnected => forall|i: int| 0 <= i < len ==> #[trigger] levels[i],
            EnableFeed::Recorded(recorded) => {
                &&& len <= recorded.len() <= u64::MAX
                &&& forall|i: int| 0 <= i < len ==> #[trigger] recorded[i] == levels[i]
            },
            EnableFeed::Received(changes) => {
                &&& step > 0
                &&& len * (step as int) <= u64::MAX
                &&& in_order(changes)
                &&& forall|i: int|
                    0 <= i < len ==> #[trigger] levels[i] == received_level(
                        initial,
                        changes,
                        sample_time(i, step),
                    )
            },
        }
    }

    /// Whether the signal drops no partial word but around low samples.
    pub open spec fn drops_around_low(self, initial: bool, step: u64, len: int) -> bool {
        self matches EnableFeed::Received(changes) ==> steady(initial, changes, step, len)
    }
}

proof fn lemma_one_indexed_window(
    levels: Seq<bool>,
    at: int,
    start: int,
    end: int,
    edges: &[CaptureTransition],
    other_edges: &[CaptureTransition],
    window: EnableWindow,
    other: EnableWindow,
)
    requires
        recorded_gate(levels, at, start, end, edges, window),
        recorded_gate(levels, at, start, end, other_edges, other),
    ensures
        window.ranges@ == other.ranges@,
        window.current == other.current,
        window.consumed == other.consumed,
{
    let first = at + start;
    let before = level_ahead_of(levels, first);
    let pending = !levels[first] || (before is Some && before->0 != levels[first]);
    let all = edges@;
    let one = choose|count: nat|
        {
            &&& count <= all.len()
            &&& forall|k: int| 0 <= k < count ==> (#[trigger] all[k]).sample < at + end
            &&& count < all.len() ==> all[count as int].sample >= at + end
            &&& gate_result(
                levels[first],
                pending,
                #[trigger] edge_changes(all, at, count),
                start,
                end,
                window,
            )
        };
    let two = choose|count: nat|
        {
            &&& count <= all.len()
            &&& forall|k: int| 0 <= k < count ==> (#[trigger] all[k]).sample < at + end
            &&& count < all.len() ==> all[count as int].sample >= at + end
            &&& gate_result(
                levels[first],
                pending,
                #[trigger] edge_changes(all, at, count),
                start,
                end,
                other,
            )
        };
    if one < two {
        assert(all[one as int].sample < at + end);
    }
    if two < one {
        assert(all[two as int].sample < at + end);
    }
}

/// A window is gated in one way: it does not matter how many changes have been received beyond
/// those that it needs.
pub proof fn law_window_is_gated_in_one_way(
    feed: EnableFeed,
    used: int,
    level: bool,
    strobe: SampleBlock,
    start: int,
    end: int,
    window: EnableWindow,
    other: EnableWindow,
)
    requires
        feed.gates(used, level, strobe, start, end, window),
        feed.gates(used, level, strobe, start, end, other),
    ensures
        window.ranges@ == other.ranges@,
        window.current == other.current,
        window.consumed == other.consumed,
{
    let at = strobe.start_position as int;
    match feed {
        EnableFeed::Unconnected => {},
        EnableFeed::Recorded(levels) => {
            let edges = choose|edges: &[CaptureTransition]| #[trigger]
                recorded_gate(levels, at, start, end, edges, window);
            let other_edges = choose|edges: &[CaptureTransition]| #[trigger]
                recorded_gate(levels, at, start, end, edges, other);
            lemma_one_indexed_window(levels, at, start, end, edges, other_edges, window, other);
        },
        EnableFeed::Received(changes) => {
            let (r1, q1, c1) = choose|received: int, queued: &[Sample], closed: bool| #[trigger]
                received_gates(
                    changes,
                    used,
                    received,
                    queued,
                    closed,
                    level,
                    strobe,
                    start,
                    end,
                    window,
                );
            let (r2, q2, c2) = choose|received: int, queued: &[Sample], closed: bool| #[trigger]
                received_gates(
                    changes,
                    used,
                    received,
                    queued,
                    closed,
                    level,
                    strobe,
                    start,
                    end,
                    other,
                );
            let one = window.consumed as int;
            let two = other.consumed as int;
            if one < two {
                assert(q2@[one] == changes[used + one]);
                if one < q1@.len() {
                    assert(q1@[one] == changes[used + one]);
                }
            }
            if two < one {
                assert(q1@[two] == changes[used + two]);
                if two < q2@.len() {
                    assert(q2@[two] == changes[used + two]);
                }
            }
            assert(one == two);
            let unit = time_step(strobe.timestamp_step);
            let shown = sample_changes(q1@, unit, at, start, end, one as nat);
            let shown_too = sample_changes(q2@, unit, at, start, end, one as nat);
            assert forall|k: int| 0 <= k < one implies shown[k] == shown_too[k] by {
                assert(q1@[k] == changes[used + k] && q2@[k] == changes[used + k]);
            }
            assert(shown =~= shown_too);
        },
    }
}

/// Whether the level and the number of used-up changes are those of a signal at a sample.
pub open spec fn feed_at(
    feed: EnableFeed,
    initial: bool,
    step: u64,
    used: int,
    level: bool,
    sample: int,
) -> bool {
    feed matches EnableFeed::Received(changes) ==> {
        &&& used_up(changes, used, sample, step)
        &&& level == level_behind(initial, changes, used)
    }
}

/// A window that is gated by a signal has the stretches at which the signal is high, and leaves
/// the level and the changes where the window ends.
pub proof fn law_window_follows_feed(
    feed: EnableFeed,
    initial: bool,
    levels: Seq<bool>,
    used: int,
    level: bool,
    strobe: SampleBlock,
    start: int,
    end: int,
    window: EnableWindow,
)
    requires
        0 <= start < end <= usize::MAX,
        strobe.start_position + end <= levels.len(),
        feed.tells(initial, levels, strobe.timestamp_step),
        feed_at(
            feed,
            initial,
            strobe.timestamp_step,
            used,
            level,
            strobe.start_position + start,
        ),
        feed.gates(used, level, strobe, start, end, window),
    ensures
        ({
            let at = strobe.start_position as int;
            let step = strobe.timestamp_step;
            let gate = feed.gate(initial, step);
            &&& ranges_enable(window.ranges@, start, end, at, gate)
            &&& feed.drops_around_low(initial, step, levels.len() as int) ==> ranges_restart(
                window.ranges@,
                start,
                end,
                at,
                gate,
            )
            &&& feed_at(feed, initial, step, used + window.consumed, window.current, at + end)
        }),
{
    let at = strobe.start_position as int;
    let step = strobe.timestamp_step;
    match feed {
        EnableFeed::Unconnected => {
            law_unconnected_window_follows(at, start, end, level, step, window);
        },
        EnableFeed::Recorded(recorded) => {
            let edges = choose|edges: &[CaptureTransition]| #[trigger]
                recorded_gate(recorded, at, start, end, edges, window);
            law_recorded_window_follows(recorded, at, start, end, edges, window);
        },
        EnableFeed::Received(changes) => {
            let total = levels.len() as int;
            let (received, queued, closed) = choose|
                received: int,
                queued: &[Sample],
                closed: bool,
            | #[trigger]
                received_gates(
                    changes,
                    used,
                    received,
                    queued,
                    closed,
                    level,
                    strobe,
                    start,
                    end,
                    window,
                );
            assert((at + end) * (step as int) <= total * (step as int)) by (nonlinear_arith)
                requires
                    at + end <= total,
                    step >= 0,
            ;
            law_received_window_is_high_samples(
                initial,
                changes,
                queued,
                closed,
                used,
                received,
                at,
                start,
                end,
                step,
                window,
            );
            if steady(initial, changes, step, total) {
                law_received_window_restarts(
                    initial,
                    changes,
                    queued,
                    closed,
                    used,
                    received,
                    at,
                    start,
                    end,
                    step,
                    total,
                    window,
                );
            }
        },
    }
}

/// Two gates that are open at the same samples decode the same, where they drop a partial word
/// around closed samples only, or there is none to drop.
proof fn lemma_same_where_open(
    signals: Signals,
    one: Gate,
    other: Gate,
    state: MergeState,
    to: int,
)
    requires
        0 <= to,
        signals.format.wf(),
        state.assembly.wf(signals.format),
        forall|i: int| 0 <= i < to ==> #[trigger] (one.open)(i) == (other.open)(i),
        state == state.dropped(),
        signals.format.cycles_per_word > 1 ==> forall|i: int|
            0 <= i < to && #[trigger] (one.restarts)(i) != (other.restarts)(i) ==> i == 0 || !(
            one.open)(i) || !(one.open)(i - 1),
    ensures
        signals.points(one, state, 0, to) == signals.points(other, state, 0, to),
        signals.points(one, state, 0, to).assembly.wf(signals.format),
        to == 0 || !(one.open)(to - 1) ==> signals.points(one, state, 0, to) == signals.points(
            one,
            state,
            0,
            to,
        ).dropped(),
    decreases to,
{
    if to > 0 {
        lemma_same_where_open(signals, one, other, state, to - 1);
        assert((one.open)(to - 1) == (other.open)(to - 1));
        let before = signals.points(one, state, 0, to - 1);
        if signals.format.cycles_per_word == 1 {
            assert(before.dropped() =~= before);
        }
    }
}

/// However an enable signal reaches a decoder, its levels decide what is decoded.
pub proof fn law_feed_decodes_as_its_levels(
    feed: EnableFeed,
    initial: bool,
    levels: Seq<bool>,
    signals: Signals,
    state: MergeState,
)
    requires
        signals.format.wf(),
        state.assembly.wf(signals.format),
        state == state.dropped(),
        feed.tells(initial, levels, signals.strobe.timestamp_step),
        signals.format.cycles_per_word > 1 ==> feed.drops_around_low(
            initial,
            signals.strobe.timestamp_step,
            levels.len() as int,
        ),
    ensures
        signals.points(
            feed.gate(initial, signals.strobe.timestamp_step),
            state,
            0,
            levels.len() as int,
        ) == signals.points(recorded_enable(levels), state, 0, levels.len() as int),
{
    let step = signals.strobe.timestamp_step;
    let len = levels.len() as int;
    let gate = feed.gate(initial, step);
    let other = recorded_enable(levels);
    assert forall|i: int| 0 <= i < len implies #[trigger] (gate.open)(i) == (other.open)(i) by {
        assert(levels[i] == levels[i]);
        if let EnableFeed::Recorded(recorded) = feed {
            assert(recorded[i] == levels[i]);
        }
    }
    if signals.format.cycles_per_word > 1 {
        assert forall|i: int|
            0 <= i < len && #[trigger] (gate.restarts)(i) != (other.restarts)(i) implies i == 0 || !(
        gate.open)(i) || !(gate.open)(i - 1) by {
            if let EnableFeed::Received(changes) = feed {
                let j = choose|j: int|
                    0 <= j < changes.len() && !(#[trigger] changes[j]).value && takes_effect_at(
                        changes[j].start_time_ns,
                        step,
                        i,
                    );
                assert(i * (step as int) <= len * (step as int)) by (nonlinear_arith)
                    requires
                        i <= len,
                        step >= 0,
                ;
                lemma_effect(changes[j], step, i);
            }
        }
    }
    lemma_same_where_open(signals, gate, other, state, len);
}

} // verus!
