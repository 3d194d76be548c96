//! A bus decodes to the same words however it is wired and scheduled.

use vstd::prelude::*;

use crate::parallel_decoder::decoder::{ParallelDecoder, StreamBlockState};
use crate::parallel_decoder::enable_feed::{law_feed_decodes_as_its_levels, EnableFeed};
use crate::parallel_decoder::gate::EnableWindow;
use crate::parallel_decoder::indexed::TriggerEnable;
use crate::parallel_decoder::parallel_run::{RunEvent, RunView};
use crate::parallel_decoder::received_runs::queue_holds;
use crate::parallel_decoder::recorded::{enable_known, BusLevels, EdgeQuery, EnableSource};
use crate::parallel_decoder::recorded_model::{progress_of, recorded_enable};
use crate::parallel_decoder::sample_model::Signals;
use crate::parallel_decoder::stream_runs::{
    calls_go_on, calls_so_far, law_calls_decode_all_windows,
    law_concurrent_run_decodes_all_windows, run_fed, run_gated, CallEvent, CallsSoFar,
};
use crate::parallel_decoder::stream_windows::{
    block_start, blocks_hold, law_windows_decode_stream, BlockSet,
};
use crate::parallel_decoder::whole_run::{
    batches_fed, batches_taken, fresh_for, law_fed_batches_are_decoded,
    law_recorded_bus_is_decoded_whole, run_goes_on, run_so_far, run_uncalled,
};
use crate::streams::Word;

verus! {

/// One way to decode a bus: how its raw inputs and its enable signal reach the decoder, and what
/// happens in the course of it.
pub enum BusRun<'a> {
    /// The raw inputs are read from an index, in batches. Of each batch it is known what the enable
    /// signal says at its triggers.
    Indexed { feed: EnableFeed, known: Seq<TriggerEnable<'a>> },
    /// The raw inputs are streamed, and each call decodes one window.
    Calls { feed: EnableFeed, events: Seq<CallEvent> },
    /// The raw inputs are streamed, and windows are scanned concurrently.
    Concurrent { feed: EnableFeed, run: RunView, events: Seq<(RunEvent, usize)> },
}

/// Whether streamed blocks hold a whole bus and no more.
pub open spec fn blocks_are_bus(
    start: ParallelDecoder,
    blocks: Seq<BlockSet>,
    signals: Signals,
    bus: BusLevels,
) -> bool {
    &&& blocks_hold(start, blocks, signals)
    &&& block_start(blocks, blocks.len() as int) == bus.strobe.len()
}

impl BusRun<'_> {
    /// How the enable signal reaches the decoder.
    pub open spec fn feed(self) -> EnableFeed {
        match self {
            BusRun::Indexed { feed, .. } => feed,
            BusRun::Calls { feed, .. } => feed,
            BusRun::Concurrent { feed, .. } => feed,
        }
    }

    /// Whether a run that starts with `start` decodes a bus to its end.
    pub open spec fn decodes(self, start: ParallelDecoder, signals: Signals, bus: BusLevels) -> bool {
        let step = signals.strobe.timestamp_step;
        match self {
            BusRun::Indexed { feed, known } => {
                &&& known.len() > 0
                &&& batches_fed(start, bus, step, feed, known)
                &&& batches_taken(start, bus, step, known.drop_last()).last_is_next(bus)
            },
            BusRun::Calls { feed, events } => {
                &&& calls_go_on(start, feed, events)
                &&& calls_so_far(start, events).blocks.strobe is None
                &&& blocks_are_bus(start, calls_so_far(start, events).taken, signals, bus)
            },
            BusRun::Concurrent { feed, run, events } => {
                &&& run_uncalled(start, run)
                &&& events.len() > 0
                &&& run_goes_on(start, run, events)
                &&& run_gated(start, run, feed, events)
                &&& run_so_far(start, run, events).action->0 is Finish
                &&& blocks_are_bus(start, run_fed(start, run, events).taken, signals, bus)
            },
        }
    }

    /// The words that the run completes.
    pub open spec fn words(self, start: ParallelDecoder, bus: BusLevels, step: u64) -> Seq<Word> {
        match self {
            BusRun::Indexed { known, .. } => batches_taken(start, bus, step, known).words,
            BusRun::Calls { events, .. } => calls_so_far(start, events).words,
            BusRun::Concurrent { run, events, .. } => run_so_far(start, run, events).history.words,
        }
    }

    /// Whether the enable signal has some levels. Where a word has several cycles, it drops no
    /// partial word but around low samples besides.
    pub open spec fn enabled_by(self, start: ParallelDecoder, levels: Seq<bool>, step: u64) -> bool {
        let initial = start.enable.current;
        &&& self.feed().tells(initial, levels, step)
        &&& start.cycles_per_word > 1 ==> self.feed().drops_around_low(
            initial,
            step,
            levels.len() as int,
        )
    }
}

/// A decoder that has decoded nothing.
pub open spec fn unused(start: ParallelDecoder) -> bool {
    &&& !start.last_strobe_value
    &&& start.assembly == start.assembly.dropped()
    &&& start.enable.next_change_position == 0
}

/// Whatever the wiring, a run yields the words that the samples of the bus yield one by one.
pub proof fn law_run_decodes_samples(
    start: ParallelDecoder,
    signals: Signals,
    bus: BusLevels,
    enable: Seq<bool>,
    run: BusRun<'_>,
)
    requires
        fresh_for(start, signals, bus),
        unused(start),
        enable.len() == bus.strobe.len(),
        run.enabled_by(start, enable, signals.strobe.timestamp_step),
        run.decodes(start, signals, bus),
    ensures
        run.words(start, bus, signals.strobe.timestamp_step) == signals.points(
            recorded_enable(enable),
            progress_of(start, Seq::empty()),
            0,
            enable.len() as int,
        ).words,
{
    let step = signals.strobe.timestamp_step;
    let feed = run.feed();
    match run {
        BusRun::Indexed { known, .. } => {
            law_fed_batches_are_decoded(start, signals, bus, feed, known);
            law_recorded_bus_is_decoded_whole(
                start,
                signals,
                bus,
                feed.gate(start.enable.current, step),
                known,
            );
            law_feed_decodes_as_its_levels(
                feed,
                start.enable.current,
                enable,
                signals,
                progress_of(start, Seq::empty()),
            );
        },
        BusRun::Calls { events, .. } => {
            let done = calls_so_far(start, events);
            law_calls_decode_all_windows(start, feed, events);
            law_windows_decode_stream(start, done.taken, feed, enable, signals, done.windows);
        },
        BusRun::Concurrent { run, events, .. } => {
            let fed = run_fed(start, run, events);
            law_concurrent_run_decodes_all_windows(start, run, feed, events);
            law_windows_decode_stream(start, fed.taken, feed, enable, signals, fed.handed);
        },
    }
}

/// The transport does not matter: two decoders that start alike and are given the same strobe,
/// data, chip-select and enable levels complete the same words, whichever of the inputs are
/// streamed and whichever are read from an index, and whether windows are scanned concurrently or
/// not.
pub proof fn law_transport_does_not_matter(
    start: ParallelDecoder,
    signals: Signals,
    bus: BusLevels,
    enable: Seq<bool>,
    one: BusRun<'_>,
    other: BusRun<'_>,
)
    requires
        fresh_for(start, signals, bus),
        unused(start),
        enable.len() == bus.strobe.len(),
        one.enabled_by(start, enable, signals.strobe.timestamp_step),
        other.enabled_by(start, enable, signals.strobe.timestamp_step),
        one.decodes(start, signals, bus),
        other.decodes(start, signals, bus),
    ensures
        one.words(start, bus, signals.strobe.timestamp_step) == other.words(
            start,
            bus,
            signals.strobe.timestamp_step,
        ),
{
    law_run_decodes_samples(start, signals, bus, enable, one);
    law_run_decodes_samples(start, signals, bus, enable, other);
}

/// What a batch reads of its enable signal is what can be known of it.
pub proof fn law_batch_knows_its_feed<Q: EdgeQuery>(
    enable: EnableSource<'_, Q>,
    feed: EnableFeed,
    used: int,
    decoder: ParallelDecoder,
    triggers: Seq<u64>,
    known: TriggerEnable,
)
    requires
        enable_known(
            enable,
            decoder.query_gate_position as int,
            triggers,
            decoder.assembles(),
            known,
        ),
        match enable {
            EnableSource::Unconnected => feed is Unconnected,
            EnableSource::Recorded(signal) => feed == EnableFeed::Recorded(signal.levels()),
            EnableSource::Streamed { queued, closed } => feed matches EnableFeed::Received(changes)
                && exists|received: int| #[trigger]
                queue_holds(changes, used, received, queued@, closed),
        },
    ensures
        feed.known_at(used, decoder, triggers, known),
{
    if let EnableSource::Streamed { queued, closed } = enable {
        let changes = feed->Received_0;
        let received = choose|received: int| #[trigger]
            queue_holds(changes, used, received, queued@, closed);
        assert(queue_holds(changes, used, received, known->queued@, known->closed));
    }
}

/// A call that decodes the next window of its blocks takes the step of a run.
pub proof fn law_call_takes_the_step(
    so_far: CallsSoFar,
    blocks: StreamBlockState,
    window: EnableWindow,
)
    requires
        so_far.blocks == blocks@,
        blocks.strobe is Some,
    ensures
        ({
            let decoder = so_far.decoder;
            let fragment = decoder.next_fragment(blocks, window.ranges@);
            let after = so_far.after(CallEvent::Window(window));
            &&& after.decoder == decoder.after_merge(fragment, window.current)
            &&& after.words == so_far.words + decoder.merging(fragment).words
            &&& after.blocks == blocks@.moved_on()
        }),
{
}

} // verus!
