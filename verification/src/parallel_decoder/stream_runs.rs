//! Runs over a stream of blocks: calls that scan and merge one window each, and concurrent scans.
//! Both go through the same windows, and so decode the same words.

use vstd::prelude::*;

use crate::parallel_decoder::decoder::{block_set_error, BlocksView, ParallelDecoder};
use crate::parallel_decoder::enable_feed::EnableFeed;
use crate::parallel_decoder::gate::EnableWindow;
use crate::parallel_decoder::parallel_order::{
    law_finished_run_has_merged_everything, law_sequential_call_takes_the_next_turn,
    lemma_in_turn_prefix, merged_in_turn, RunHistory,
};
use crate::parallel_decoder::parallel_run::{run_expects, RunEvent, RunView};
use crate::parallel_decoder::scan::scanned_fragment;
use crate::parallel_decoder::stream_windows::{
    fed_fragments, fed_in_turn, fed_whole, law_stream_has_one_list_of_windows, lemma_blocks_added,
    lemma_window_added, level_behind_windows, next_place, used_by_windows, window_gated, BlockSet,
    FedWindow,
};
use crate::parallel_decoder::types::FragmentView;
use crate::parallel_decoder::whole_run::{
    lemma_run_holds, run_goes_on, run_so_far, run_uncalled, RunSoFar,
};
use crate::streams::{SampleBlock, Word};

verus! {

/// What happens to a decoder of one window at a time.
pub enum CallEvent {
    /// It takes in the next blocks.
    Blocks(BlockSet),
    /// It decodes the next window of its blocks, with the stretches in which it is enabled.
    Window(EnableWindow),
}

/// A decoder of one window at a time after some events.
pub struct CallsSoFar {
    pub blocks: BlocksView,
    pub decoder: ParallelDecoder,
    /// The words completed.
    pub words: Seq<Word>,
    /// The blocks taken in.
    pub taken: Seq<BlockSet>,
    /// How many received changes of the enable signal are used up.
    pub used: int,
    /// The windows decoded.
    pub windows: Seq<FedWindow>,
}

impl CallsSoFar {
    /// Whether an event can come next.
    pub open spec fn admits(self, feed: EnableFeed, event: CallEvent) -> bool {
        match event {
            CallEvent::Blocks(set) => {
                &&& self.blocks.strobe is None
                &&& block_set_error(set.strobe, set.data, set.cs) is None
            },
            CallEvent::Window(window) => {
                &&& self.blocks.strobe is Some
                &&& self.blocks.next_sequence < u64::MAX
                &&& feed.gates(
                    self.used,
                    self.decoder.enable.current,
                    self.blocks.strobe->0,
                    self.blocks.offset,
                    self.blocks.window_end(),
                    window,
                )
            },
        }
    }

    /// The fragment of the next window.
    pub open spec fn next_fragment(self, window: EnableWindow) -> FragmentView {
        scanned_fragment(
            self.decoder.scan_config(),
            self.blocks.next_sequence,
            self.blocks.strobe->0,
            self.blocks.data,
            self.blocks.cs,
            self.blocks.offset,
            self.blocks.window_end(),
            window.ranges@,
        )
    }

    /// The decoder once an event has taken place.
    pub open spec fn after(self, event: CallEvent) -> CallsSoFar {
        match event {
            CallEvent::Blocks(set) => CallsSoFar {
                blocks: BlocksView {
                    strobe: Some(set.strobe),
                    data: set.data,
                    cs: set.cs,
                    offset: 0,
                    ..self.blocks
                },
                taken: self.taken.push(set),
                ..self
            },
            CallEvent::Window(window) => {
                let fragment = self.next_fragment(window);
                CallsSoFar {
                    blocks: self.blocks.moved_on(),
                    decoder: self.decoder.after_merge(fragment, window.current),
                    words: self.words + self.decoder.merging(fragment).words,
                    taken: self.taken,
                    used: self.used + window.consumed,
                    windows: self.windows.push(
                        FedWindow {
                            block: self.taken.len() - 1,
                            start: self.blocks.offset,
                            end: self.blocks.window_end(),
                            ranges: window.ranges@,
                            level: window.current,
                            used: self.used + window.consumed,
                        },
                    ),
                }
            },
        }
    }

    /// What holds between two calls.
    spec fn holds(self, start: ParallelDecoder, feed: EnableFeed) -> bool {
        let initial = start.enable.current;
        let count = self.windows.len();
        let merged = merged_in_turn(start, fed_fragments(start, self.taken, self.windows), count);
        &&& fed_in_turn(self.taken, feed, initial, self.windows)
        &&& self.used == used_by_windows(self.windows, count as int)
        &&& self.decoder.enable.current == level_behind_windows(initial, self.windows, count as int)
        &&& self.blocks.next_sequence == count
        &&& self.decoder.word_format() == start.word_format()
        &&& self.decoder.mode == start.mode
        &&& self.decoder.cs_polarity == start.cs_polarity
        &&& self.words == merged.words
        &&& self.decoder.assembly == merged.assembly
        &&& self.decoder.last_strobe_value == merged.last_strobe_value
        &&& blocks_reached(
            self.taken,
            self.windows,
            self.blocks.strobe,
            self.blocks.data,
            self.blocks.cs,
            self.blocks.offset,
        )
    }
}

/// Whether resident blocks are the last that were taken in, and the windows end where the next
/// begins.
spec fn blocks_reached(
    taken: Seq<BlockSet>,
    windows: Seq<FedWindow>,
    strobe: Option<SampleBlock>,
    data: Seq<SampleBlock>,
    cs: Option<SampleBlock>,
    offset: int,
) -> bool {
    let place = next_place(taken, windows, windows.len() as int);
    match strobe {
        Some(strobe) => {
            &&& taken.len() > 0
            &&& taken.last() == BlockSet { strobe, data, cs }
            &&& place == (taken.len() - 1, offset)
            &&& 0 <= offset < strobe.num_samples
        },
        None => place == (taken.len() as int, 0int),
    }
}

/// A decoder of one window at a time after some events, from the first on.
pub open spec fn calls_so_far(start: ParallelDecoder, events: Seq<CallEvent>) -> CallsSoFar
    decreases events.len(),
{
    if events.len() == 0 {
        CallsSoFar {
            blocks: BlocksView {
                strobe: None,
                data: Seq::empty(),
                cs: None,
                offset: 0,
                next_sequence: 0,
            },
            decoder: start,
            words: Seq::empty(),
            taken: Seq::empty(),
            used: 0,
            windows: Seq::empty(),
        }
    } else {
        calls_so_far(start, events.drop_last()).after(events.last())
    }
}

/// Whether each of some events can come in its place.
pub open spec fn calls_go_on(start: ParallelDecoder, feed: EnableFeed, events: Seq<CallEvent>) -> bool
    decreases events.len(),
{
    events.len() > 0 ==> {
        &&& calls_go_on(start, feed, events.drop_last())
        &&& calls_so_far(start, events.drop_last()).admits(feed, events.last())
    }
}

proof fn lemma_fragment_added(
    decoder: ParallelDecoder,
    blocks: Seq<BlockSet>,
    windows: Seq<FedWindow>,
    window: FedWindow,
)
    ensures
        fed_fragments(decoder, blocks, windows.push(window)) == fed_fragments(
            decoder,
            blocks,
            windows,
        ).push(blocks[window.block].fragment(decoder, windows.len() as u64, window)),
{
    let more = windows.push(window);
    let all = fed_fragments(decoder, blocks, more);
    let before = fed_fragments(decoder, blocks, windows);
    assert forall|k: int| 0 <= k < windows.len() implies all[k] == before[k] by {
        assert(more[k] == windows[k]);
    }
    assert(all =~= before.push(
        blocks[window.block].fragment(decoder, windows.len() as u64, window),
    ));
}

proof fn lemma_call(start: ParallelDecoder, feed: EnableFeed, so_far: CallsSoFar, event: CallEvent)
    requires
        so_far.holds(start, feed),
        so_far.admits(feed, event),
    ensures
        so_far.after(event).holds(start, feed),
{
    let initial = start.enable.current;
    match event {
        CallEvent::Blocks(set) => {
            lemma_blocks_added(so_far.taken, set, feed, initial, so_far.windows);
            let after = so_far.after(event);
            assert(fed_fragments(start, after.taken, so_far.windows) == fed_fragments(
                start,
                so_far.taken,
                so_far.windows,
            ));
        },
        CallEvent::Window(gated) => {
            let after = so_far.after(event);
            let window = after.windows.last();
            let count = so_far.windows.len();
            let fragments = fed_fragments(start, so_far.taken, so_far.windows);
            let fragment = so_far.next_fragment(gated);
            assert(after.windows == so_far.windows.push(window));
            assert(window_gated(
                so_far.taken,
                feed,
                used_by_windows(so_far.windows, count as int),
                level_behind_windows(initial, so_far.windows, count as int),
                window,
                gated,
            ));
            lemma_window_added(so_far.taken, feed, initial, so_far.windows, window, gated);
            lemma_fragment_added(start, so_far.taken, so_far.windows, window);
            lemma_in_turn_prefix(start, fragments, fragment, count);
            law_sequential_call_takes_the_next_turn(
                start,
                fragments.push(fragment),
                count,
                so_far.decoder,
                gated.current,
            );
        },
    }
}

proof fn lemma_calls(start: ParallelDecoder, feed: EnableFeed, events: Seq<CallEvent>)
    requires
        calls_go_on(start, feed, events),
    ensures
        calls_so_far(start, events).holds(start, feed),
    decreases events.len(),
{
    if events.len() > 0 {
        lemma_calls(start, feed, events.drop_last());
        lemma_call(start, feed, calls_so_far(start, events.drop_last()), events.last());
    }
}

/// Calls that have gone through all their blocks have decoded all windows of the stream, in turn.
pub proof fn law_calls_decode_all_windows(
    start: ParallelDecoder,
    feed: EnableFeed,
    events: Seq<CallEvent>,
)
    requires
        calls_go_on(start, feed, events),
        calls_so_far(start, events).blocks.strobe is None,
    ensures
        ({
            let done = calls_so_far(start, events);
            let merged = merged_in_turn(
                start,
                fed_fragments(start, done.taken, done.windows),
                done.windows.len(),
            );
            &&& fed_in_turn(done.taken, feed, start.enable.current, done.windows)
            &&& fed_whole(done.taken, done.windows)
            &&& done.words == merged.words
            &&& done.decoder.assembly == merged.assembly
            &&& done.decoder.last_strobe_value == merged.last_strobe_value
            &&& done.decoder.enable.current == level_behind_windows(
                start.enable.current,
                done.windows,
                done.windows.len() as int,
            )
        }),
{
    lemma_calls(start, feed, events);
}

/// What a run of concurrent scans has taken in and handed out.
pub struct RunFed {
    pub taken: Seq<BlockSet>,
    /// How many received changes of the enable signal are used up.
    pub used: int,
    /// The windows that workers were given.
    pub handed: Seq<FedWindow>,
    /// The window that waits for a worker.
    pub pending: Option<FedWindow>,
}

impl RunFed {
    pub open spec fn after(self, run: RunView, event: RunEvent) -> RunFed {
        match event {
            RunEvent::Blocks { strobe, data, cs } => RunFed {
                taken: self.taken.push(BlockSet { strobe, data: data@, cs }),
                ..self
            },
            RunEvent::Gated(window) => RunFed {
                used: self.used + window.consumed,
                pending: Some(
                    FedWindow {
                        block: self.taken.len() - 1,
                        start: run.offset as int,
                        end: run.window_end(),
                        ranges: window.ranges@,
                        level: window.current,
                        used: self.used + window.consumed,
                    },
                ),
                ..self
            },
            RunEvent::Dispatched => RunFed {
                handed: self.handed.push(self.pending->0),
                pending: None,
                ..self
            },
            _ => self,
        }
    }

    /// Whether an event is what an enable signal makes of it: a window is gated by the signal.
    pub open spec fn admits(self, feed: EnableFeed, run: RunView, event: RunEvent) -> bool {
        event matches RunEvent::Gated(window) ==> feed.gates(
            self.used,
            run.scanned_enable,
            run.strobe->0,
            run.offset as int,
            run.window_end(),
            window,
        )
    }

    /// What holds between two events.
    spec fn holds(
        self,
        start: ParallelDecoder,
        feed: EnableFeed,
        run: RunView,
        history: RunHistory,
    ) -> bool {
        let initial = start.enable.current;
        let count = self.handed.len();
        &&& fed_in_turn(self.taken, feed, initial, self.handed)
        &&& history.handed == fed_fragments(start, self.taken, self.handed)
        &&& blocks_reached(
            self.taken,
            self.handed,
            run.strobe,
            run.data,
            run.cs,
            run.offset as int,
        )
        &&& match self.pending {
            Some(window) => {
                &&& run.strobe is Some
                &&& window.block == self.taken.len() - 1
                &&& window.start == run.offset
                &&& window.end == run.window_end()
                &&& fed_in_turn(self.taken, feed, initial, self.handed.push(window))
                &&& history.pending == Some(
                    self.taken[window.block].fragment(start, count as u64, window),
                )
                &&& history.level == window.level
                &&& self.used == window.used
            },
            None => {
                &&& history.pending is None
                &&& history.level == level_behind_windows(initial, self.handed, count as int)
                &&& self.used == used_by_windows(self.handed, count as int)
            },
        }
    }
}

/// What a run has taken in and handed out after some events.
pub open spec fn run_fed(
    start: ParallelDecoder,
    run: RunView,
    events: Seq<(RunEvent, usize)>,
) -> RunFed
    decreases events.len(),
{
    if events.len() == 0 {
        RunFed { taken: Seq::empty(), used: 0, handed: Seq::empty(), pending: None }
    } else {
        run_fed(start, run, events.drop_last()).after(
            run_so_far(start, run, events.drop_last()).run,
            events.last().0,
        )
    }
}

/// Whether each window of a run is gated by an enable signal.
pub open spec fn run_gated(
    start: ParallelDecoder,
    run: RunView,
    feed: EnableFeed,
    events: Seq<(RunEvent, usize)>,
) -> bool
    decreases events.len(),
{
    events.len() > 0 ==> {
        &&& run_gated(start, run, feed, events.drop_last())
        &&& run_fed(start, run, events.drop_last()).admits(
            feed,
            run_so_far(start, run, events.drop_last()).run,
            events.last().0,
        )
    }
}

/// The blocks that a run holds change only as blocks come in and windows are handed out.
proof fn lemma_next_blocks(run: RunView, decoder: ParallelDecoder, event: RunEvent, bytes: usize)
    requires
        !(run.next(decoder, event, bytes).action is Fail),
    ensures
        ({
            let after = run.next(decoder, event, bytes).run;
            let held = match event {
                RunEvent::Blocks { strobe, data, cs } => RunView {
                    strobe: Some(strobe),
                    data: data@,
                    cs,
                    offset: 0,
                    ..run
                },
                RunEvent::Dispatched => run.dispatched(),
                _ => run,
            };
            &&& after.strobe == held.strobe
            &&& after.data == held.data
            &&& after.cs == held.cs
            &&& after.offset == held.offset
        }),
{
}

proof fn lemma_event(
    start: ParallelDecoder,
    feed: EnableFeed,
    fed: RunFed,
    before: RunSoFar,
    event: RunEvent,
    bytes: usize,
)
    requires
        fed.holds(start, feed, before.run, before.history),
        fed.admits(feed, before.run, event),
        before.history.owns(before.run, before.decoder.next_stream_merge_sequence as int),
        before.history.staged(before.run, before.decoder),
        before.run.wf(before.decoder.mode),
        before.run.next_sequence < u64::MAX,
        before.decoder.scan_config() == start.scan_config(),
        run_expects(before.run.stage, event),
        !(before.run.next(before.decoder, event, bytes).action is Fail),
    ensures
        fed.after(before.run, event).holds(
            start,
            feed,
            before.after((event, bytes)).run,
            before.after((event, bytes)).history,
        ),
{
    let initial = start.enable.current;
    let run = before.run;
    let count = fed.handed.len();
    lemma_next_blocks(run, before.decoder, event, bytes);
    match event {
        RunEvent::Blocks { strobe, data, cs } => {
            let set = BlockSet { strobe, data: data@, cs };
            assert(run.strobe is None);
            lemma_blocks_added(fed.taken, set, feed, initial, fed.handed);
            assert(fed_fragments(start, fed.taken.push(set), fed.handed) == fed_fragments(
                start,
                fed.taken,
                fed.handed,
            ));
        },
        RunEvent::Gated(window) => {
            let next = fed.after(run, event).pending->0;
            assert(window_gated(
                fed.taken,
                feed,
                used_by_windows(fed.handed, count as int),
                level_behind_windows(initial, fed.handed, count as int),
                next,
                window,
            ));
            lemma_window_added(fed.taken, feed, initial, fed.handed, next, window);
        },
        RunEvent::Dispatched => {
            lemma_fragment_added(start, fed.taken, fed.handed, fed.pending->0);
        },
        _ => {},
    }
}

proof fn lemma_run_fed(
    start: ParallelDecoder,
    run: RunView,
    feed: EnableFeed,
    events: Seq<(RunEvent, usize)>,
)
    requires
        run_uncalled(start, run),
        run_goes_on(start, run, events),
        run_gated(start, run, feed, events),
    ensures
        run_fed(start, run, events).holds(
            start,
            feed,
            run_so_far(start, run, events).run,
            run_so_far(start, run, events).history,
        ),
    decreases events.len(),
{
    if events.len() > 0 {
        lemma_run_fed(start, run, feed, events.drop_last());
        lemma_run_holds(start, run, events.drop_last());
        let (event, bytes) = events.last();
        lemma_event(
            start,
            feed,
            run_fed(start, run, events.drop_last()),
            run_so_far(start, run, events.drop_last()),
            event,
            bytes,
        );
    } else {
        assert(fed_fragments(start, Seq::empty(), Seq::empty()) =~= Seq::<FragmentView>::empty());
    }
}

/// A finished run of concurrent scans has decoded all windows of the stream, in turn.
pub proof fn law_concurrent_run_decodes_all_windows(
    start: ParallelDecoder,
    run: RunView,
    feed: EnableFeed,
    events: Seq<(RunEvent, usize)>,
)
    requires
        run_uncalled(start, run),
        run_goes_on(start, run, events),
        run_gated(start, run, feed, events),
        events.len() > 0,
        run_so_far(start, run, events).action->0 is Finish,
    ensures
        ({
            let done = run_so_far(start, run, events);
            let fed = run_fed(start, run, events);
            let merged = merged_in_turn(
                start,
                fed_fragments(start, fed.taken, fed.handed),
                fed.handed.len(),
            );
            &&& fed_in_turn(fed.taken, feed, start.enable.current, fed.handed)
            &&& fed_whole(fed.taken, fed.handed)
            &&& done.history.words == merged.words
            &&& done.decoder.assembly == merged.assembly
            &&& done.decoder.last_strobe_value == merged.last_strobe_value
            &&& done.decoder.enable.current == level_behind_windows(
                start.enable.current,
                fed.handed,
                fed.handed.len() as int,
            )
        }),
{
    let before = run_so_far(start, run, events.drop_last());
    lemma_run_holds(start, run, events.drop_last());
    lemma_run_holds(start, run, events);
    lemma_run_fed(start, run, feed, events);
    law_finished_run_has_merged_everything(
        before.history,
        start,
        before.run,
        before.decoder,
        events.last().0,
        events.last().1,
    );
}

/// Concurrency does not matter: over the same blocks and the same enable signal, a run of
/// concurrent scans completes the same words in the same order, and leaves the same partial word,
/// strobe level and enable level, as calls that scan and merge one window each. How many workers
/// there are, and in which order they complete, changes nothing.
pub proof fn law_concurrency_does_not_matter(
    start: ParallelDecoder,
    feed: EnableFeed,
    calls: Seq<CallEvent>,
    run: RunView,
    events: Seq<(RunEvent, usize)>,
)
    requires
        calls_go_on(start, feed, calls),
        calls_so_far(start, calls).blocks.strobe is None,
        run_uncalled(start, run),
        run_goes_on(start, run, events),
        run_gated(start, run, feed, events),
        events.len() > 0,
        run_so_far(start, run, events).action->0 is Finish,
        calls_so_far(start, calls).taken == run_fed(start, run, events).taken,
    ensures
        ({
            let one = calls_so_far(start, calls);
            let other = run_so_far(start, run, events);
            &&& one.words == other.history.words
            &&& one.decoder.assembly == other.decoder.assembly
            &&& one.decoder.last_strobe_value == other.decoder.last_strobe_value
            &&& one.decoder.enable.current == other.decoder.enable.current
        }),
{
    law_calls_decode_all_windows(start, feed, calls);
    law_concurrent_run_decodes_all_windows(start, run, feed, events);
    law_stream_has_one_list_of_windows(
        calls_so_far(start, calls).taken,
        feed,
        start.enable.current,
        calls_so_far(start, calls).windows,
        run_fed(start, run, events).handed,
    );
}

} // verus!
