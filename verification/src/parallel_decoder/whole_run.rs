//! Whole runs: the batches of a recorded bus, and the events of concurrent scans.

use vstd::prelude::*;

use crate::parallel_decoder::agreement::{lemma_trigger_list_grows, searched_from, Gate};
use crate::parallel_decoder::decoder::ParallelDecoder;
use crate::parallel_decoder::enable_feed::EnableFeed;
use crate::parallel_decoder::index_model::in_order;
use crate::parallel_decoder::indexed::TriggerEnable;
use crate::parallel_decoder::parallel_order::{
    law_fresh_run_holds, law_windows_are_merged_in_turn, RunHistory,
};
use crate::parallel_decoder::parallel_run::{
    counters_fit, event_fits, lemma_next_wf, run_expects, ActionView, RunEvent, RunView,
};
use crate::parallel_decoder::received_runs::{
    follows_changes, law_batch_follows_changes, law_received_batch_decodes, queue_holds,
};
use crate::parallel_decoder::recorded::BusLevels;
use crate::parallel_decoder::recorded_model::{
    batch_decodes, batch_end, gates_follow_search, law_recorded_batch_is_sample_by_sample,
    law_recorded_run, lemma_batch_bounds, lemma_found_are_all, lemma_recorded_enable_says,
    progress_of, recorded_run_holds, signals_record,
};
use crate::parallel_decoder::sample_model::Signals;
use crate::parallel_decoder::types::DecodeFragment;
use crate::streams::Word;

verus! {

/// A decoder in the course of a run, with the words so far.
pub struct DecodedSoFar {
    pub decoder: ParallelDecoder,
    pub words: Seq<Word>,
}

impl DecodedSoFar {
    /// Whether the strobe of a recorded bus has no edges left behind the next batch.
    pub open spec fn last_is_next(self, bus: BusLevels) -> bool {
        self.decoder.found_edges(bus.strobe).len() < self.decoder.edges_wanted(bus.strobe)
    }

    /// The run behind one more batch of a recorded bus.
    pub open spec fn after(self, bus: BusLevels, step: u64, known: TriggerEnable) -> DecodedSoFar {
        let gated = self.decoder.passed_triggers(bus, known, step)->0;
        DecodedSoFar {
            decoder: self.decoder.after_batch(bus, gated, step),
            words: self.words + self.decoder.recorded_words(bus, gated, step).words,
        }
    }
}

/// The batches of a recorded bus, one after the other; of each it is known what the enable signal
/// says at its triggers.
pub open spec fn batches_taken(
    start: ParallelDecoder,
    bus: BusLevels,
    step: u64,
    known: Seq<TriggerEnable>,
) -> DecodedSoFar
    decreases known.len(),
{
    if known.len() == 0 {
        DecodedSoFar { decoder: start, words: Seq::empty() }
    } else {
        batches_taken(start, bus, step, known.drop_last()).after(bus, step, known.last())
    }
}

/// Whether each of some batches was decoded as an enable signal says, and none came behind the last
/// edge of the strobe.
pub open spec fn batches_decoded(
    start: ParallelDecoder,
    signals: Signals,
    bus: BusLevels,
    gate: Gate,
    known: Seq<TriggerEnable>,
) -> bool
    decreases known.len(),
{
    known.len() > 0 ==> {
        let step = signals.strobe.timestamp_step;
        let before = batches_taken(start, bus, step, known.drop_last());
        &&& batches_decoded(start, signals, bus, gate, known.drop_last())
        &&& known.len() > 1 ==> !batches_taken(
            start,
            bus,
            step,
            known.drop_last().drop_last(),
        ).last_is_next(bus)
        &&& batch_decodes(before.decoder, signals, bus, gate, known.last())
        &&& before.after(bus, step, known.last()).decoder.wf()
    }
}

/// A decoder that has decoded nothing of a recorded bus.
pub open spec fn fresh_for(start: ParallelDecoder, signals: Signals, bus: BusLevels) -> bool {
    &&& start.wf()
    &&& start.mode.on_edges()
    &&& start.query_strobe_position == 0
    &&& start.query_gate_position == 0
    &&& signals.config == start.scan_config()
    &&& signals.format == start.word_format()
    &&& signals_record(signals, bus)
    &&& bus.data.len() == start.num_data_bits
    &&& bus.cs is None ==> start.cs_polarity is Disabled
    &&& 0 < bus.strobe.len() <= u64::MAX
}

proof fn lemma_settings_stay(
    start: ParallelDecoder,
    bus: BusLevels,
    step: u64,
    known: Seq<TriggerEnable>,
)
    ensures
        ({
            let decoder = batches_taken(start, bus, step, known).decoder;
            &&& decoder.mode == start.mode
            &&& decoder.num_data_bits == start.num_data_bits
            &&& decoder.cs_polarity == start.cs_polarity
        }),
    decreases known.len(),
{
    if known.len() > 0 {
        lemma_settings_stay(start, bus, step, known.drop_last());
    }
}

/// What holds behind the batches of a recorded bus.
proof fn lemma_batches(
    start: ParallelDecoder,
    signals: Signals,
    bus: BusLevels,
    gate: Gate,
    known: Seq<TriggerEnable>,
)
    requires
        fresh_for(start, signals, bus),
        batches_decoded(start, signals, bus, gate, known),
        known.len() > 0 ==> !batches_taken(
            start,
            bus,
            signals.strobe.timestamp_step,
            known.drop_last(),
        ).last_is_next(bus),
    ensures
        ({
            let run = batches_taken(start, bus, signals.strobe.timestamp_step, known);
            recorded_run_holds(start, signals, gate, run.decoder, run.words)
                && run.decoder.query_strobe_position < bus.strobe.len()
        }),
    decreases known.len(),
{
    let step = signals.strobe.timestamp_step;
    if known.len() > 0 {
        let before = batches_taken(start, bus, step, known.drop_last());
        lemma_batches(start, signals, bus, gate, known.drop_last());
        lemma_settings_stay(start, bus, step, known.drop_last());
        law_recorded_run(start, signals, bus, gate, before.decoder, before.words, known.last());
    } else {
        assert(signals.points(gate, progress_of(start, Seq::empty()), 0, 0) == progress_of(
            start,
            Seq::empty(),
        ));
    }
}

/// A recorded bus that was decoded to its end has yielded what its signals yield, sample by
/// sample, however many batches it took.
pub proof fn law_recorded_bus_is_decoded_whole(
    start: ParallelDecoder,
    signals: Signals,
    bus: BusLevels,
    gate: Gate,
    known: Seq<TriggerEnable>,
)
    requires
        fresh_for(start, signals, bus),
        batches_decoded(start, signals, bus, gate, known),
        known.len() > 0,
        batches_taken(start, bus, signals.strobe.timestamp_step, known.drop_last()).last_is_next(
            bus,
        ),
    ensures
        batches_taken(start, bus, signals.strobe.timestamp_step, known).words == signals.points(
            gate,
            progress_of(start, Seq::empty()),
            0,
            bus.strobe.len() as int,
        ).words,
{
    let step = signals.strobe.timestamp_step;
    let before = batches_taken(start, bus, step, known.drop_last());
    lemma_batches(start, signals, bus, gate, known.drop_last());
    lemma_settings_stay(start, bus, step, known.drop_last());
    law_recorded_run(start, signals, bus, gate, before.decoder, before.words, known.last());
}

/// How many of the received changes of an enable signal some batches use up.
pub open spec fn changes_used(
    start: ParallelDecoder,
    bus: BusLevels,
    step: u64,
    known: Seq<TriggerEnable>,
) -> int
    decreases known.len(),
{
    if known.len() == 0 {
        0
    } else {
        let before = batches_taken(start, bus, step, known.drop_last());
        changes_used(start, bus, step, known.drop_last()) + before.decoder.passed_triggers(
            bus,
            known.last(),
            step,
        )->0.consumed
    }
}

/// Whether each of some batches was given what can be known of an enable signal at its triggers,
/// knew enough to be decoded, and none came behind the last edge of the strobe.
pub open spec fn batches_fed(
    start: ParallelDecoder,
    bus: BusLevels,
    step: u64,
    feed: EnableFeed,
    known: Seq<TriggerEnable>,
) -> bool
    decreases known.len(),
{
    known.len() > 0 ==> {
        let before = batches_taken(start, bus, step, known.drop_last());
        &&& batches_fed(start, bus, step, feed, known.drop_last())
        &&& known.len() > 1 ==> !batches_taken(
            start,
            bus,
            step,
            known.drop_last().drop_last(),
        ).last_is_next(bus)
        &&& feed.known_at(
            changes_used(start, bus, step, known.drop_last()),
            before.decoder,
            before.decoder.found_triggers(bus.strobe),
            known.last(),
        )
        &&& before.decoder.passed_triggers(bus, known.last(), step) is Some
        &&& before.after(bus, step, known.last()).decoder.wf()
    }
}

proof fn lemma_read_batch(
    feed: EnableFeed,
    used: int,
    initial: bool,
    signals: Signals,
    bus: BusLevels,
    decoder: ParallelDecoder,
    known: TriggerEnable,
)
    requires
        !(feed is Received),
        feed.known_at(used, decoder, decoder.found_triggers(bus.strobe), known),
        decoder.wf(),
        decoder.mode.on_edges(),
        bus.data.len() == decoder.num_data_bits,
        bus.cs is None ==> decoder.cs_polarity is Disabled,
        signals.config == decoder.scan_config(),
        signals.format == decoder.word_format(),
        signals_record(signals, bus),
        decoder.query_strobe_position < bus.strobe.len() <= u64::MAX,
        gates_follow_search(decoder, signals),
    ensures
        batch_decodes(
            decoder,
            signals,
            bus,
            feed.gate(initial, signals.strobe.timestamp_step),
            known,
        ),
{
    let step = signals.strobe.timestamp_step;
    if let EnableFeed::Recorded(levels) = feed {
        lemma_recorded_enable_says(
            levels,
            decoder,
            step,
            batch_end(decoder, bus.strobe),
            decoder.found_triggers(bus.strobe),
            known,
            progress_of(decoder, Seq::empty()),
        );
    }
    law_recorded_batch_is_sample_by_sample(
        decoder,
        signals,
        bus,
        feed.gate(initial, step),
        known,
    );
}

/// Whether a decoder follows a received enable signal, once some changes are used up.
pub open spec fn follows_feed(
    feed: EnableFeed,
    initial: bool,
    step: u64,
    decoder: ParallelDecoder,
    used: int,
) -> bool {
    feed matches EnableFeed::Received(changes) ==> follows_changes(
        initial,
        changes,
        step,
        decoder,
        used,
    )
}

/// Batches that are given what can be known of an enable signal decode what it says, sample by
/// sample.
pub proof fn law_fed_batches_are_decoded(
    start: ParallelDecoder,
    signals: Signals,
    bus: BusLevels,
    feed: EnableFeed,
    known: Seq<TriggerEnable>,
)
    requires
        fresh_for(start, signals, bus),
        start.enable.next_change_position == 0,
        start.assembly == start.assembly.dropped(),
        feed matches EnableFeed::Received(changes) ==> in_order(changes),
        batches_fed(start, bus, signals.strobe.timestamp_step, feed, known),
    ensures
        ({
            let step = signals.strobe.timestamp_step;
            let initial = start.enable.current;
            &&& batches_decoded(start, signals, bus, feed.gate(initial, step), known)
            &&& follows_feed(
                feed,
                initial,
                step,
                batches_taken(start, bus, step, known).decoder,
                changes_used(start, bus, step, known),
            )
        }),
    decreases known.len(),
{
    let step = signals.strobe.timestamp_step;
    let initial = start.enable.current;
    if known.len() > 0 {
        let gate = feed.gate(initial, step);
        let decoder = batches_taken(start, bus, step, known.drop_last()).decoder;
        let used = changes_used(start, bus, step, known.drop_last());
        let end = batch_end(decoder, bus.strobe);
        law_fed_batches_are_decoded(start, signals, bus, feed, known.drop_last());
        lemma_batches(start, signals, bus, gate, known.drop_last());
        lemma_settings_stay(start, bus, step, known.drop_last());
        lemma_found_are_all(decoder, signals, bus);
        lemma_trigger_list_grows(
            signals,
            searched_from(decoder.query_strobe_position as int),
            end,
        );
        match (feed, known.last()) {
            (EnableFeed::Received(changes), TriggerEnable::Streamed { queued, closed }) => {
                let received = choose|received: int| #[trigger]
                    queue_holds(changes, used, received, queued@, closed);
                lemma_batch_bounds(decoder, signals, bus);
                law_received_batch_decodes(
                    initial,
                    changes,
                    signals,
                    bus,
                    decoder,
                    used,
                    received,
                    queued,
                    closed,
                );
                law_batch_follows_changes(
                    initial,
                    changes,
                    step,
                    decoder,
                    used,
                    received,
                    queued,
                    closed,
                    bus,
                );
            },
            _ => {
                lemma_read_batch(feed, used, initial, signals, bus, decoder, known.last());
            },
        }
    }
}

/// A run of concurrent scans after some events.
pub struct RunSoFar {
    pub run: RunView,
    pub decoder: ParallelDecoder,
    pub history: RunHistory,
    /// What the last event led to.
    pub action: Option<ActionView>,
}

impl RunSoFar {
    /// Whether an event can come next; the number tells how many bytes the buffers of a completed
    /// fragment take.
    pub open spec fn admits(self, event: (RunEvent, usize)) -> bool {
        &&& run_expects(self.run.stage, event.0)
        &&& event_fits(self.decoder.mode, event.0)
        &&& self.history.admits(event.0)
        &&& counters_fit(self.decoder)
        &&& self.run.next_sequence < u64::MAX
    }

    /// The run once an event has come.
    pub open spec fn after(self, event: (RunEvent, usize)) -> RunSoFar {
        let outcome = self.run.next(self.decoder, event.0, event.1);
        RunSoFar {
            run: outcome.run,
            decoder: outcome.decoder,
            history: self.history.after(self.run, self.decoder, event.0, outcome),
            action: Some(outcome.action),
        }
    }
}

/// A run of concurrent scans after some events, from its first call on.
pub open spec fn run_so_far(
    start: ParallelDecoder,
    run: RunView,
    events: Seq<(RunEvent, usize)>,
) -> RunSoFar
    decreases events.len(),
{
    if events.len() == 0 {
        RunSoFar { run, decoder: start, history: RunHistory::fresh(start), action: None }
    } else {
        run_so_far(start, run, events.drop_last()).after(events.last())
    }
}

/// Events of which each can come in its place and none leads to a failure.
pub open spec fn run_goes_on(
    start: ParallelDecoder,
    run: RunView,
    events: Seq<(RunEvent, usize)>,
) -> bool
    decreases events.len(),
{
    events.len() > 0 ==> {
        &&& run_goes_on(start, run, events.drop_last())
        &&& run_so_far(start, run, events.drop_last()).admits(events.last())
        &&& !(run_so_far(start, run, events).action->0 is Fail)
    }
}

/// A run that was not called yet.
pub open spec fn run_uncalled(start: ParallelDecoder, run: RunView) -> bool {
    &&& start.next_stream_merge_sequence == 0
    &&& run.strobe is None
    &&& run.next_sequence == 0
    &&& run.in_flight == 0
    &&& run.kept == Map::<u64, DecodeFragment>::empty()
    &&& run.stage is Idle
}

pub proof fn lemma_run_holds(
    start: ParallelDecoder,
    run: RunView,
    events: Seq<(RunEvent, usize)>,
)
    requires
        run_uncalled(start, run),
        run_goes_on(start, run, events),
    ensures
        ({
            let so_far = run_so_far(start, run, events);
            &&& so_far.history.holds(start, so_far.run, so_far.decoder)
            &&& so_far.run.wf(so_far.decoder.mode)
            &&& so_far.history.handed.len() == 0 && so_far.history.pending is None
                ==> so_far.history.level == start.enable.current
        }),
    decreases events.len(),
{
    if events.len() > 0 {
        lemma_run_holds(start, run, events.drop_last());
        let before = run_so_far(start, run, events.drop_last());
        let event = events.last();
        law_windows_are_merged_in_turn(
            before.history,
            start,
            before.run,
            before.decoder,
            event.0,
            event.1,
        );
        lemma_next_wf(before.run, before.decoder, event.0, event.1);
    } else {
        law_fresh_run_holds(start, run);
    }
}

} // verus!
