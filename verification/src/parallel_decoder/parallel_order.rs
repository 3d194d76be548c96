//! Concurrent scans decode what one scan after the other decodes, in whatever order they complete.

use vstd::prelude::*;

use crate::parallel_decoder::decoder::ParallelDecoder;
use crate::parallel_decoder::merge::{AssemblyState, MergeState, WordFormat};
use crate::parallel_decoder::parallel_run::{
    counters_fit, event_fits, fragment_fits, run_expects, ActionView, RunError, RunEvent,
    RunOutcome, RunView,
};
use crate::parallel_decoder::scan::scanned_fragment;
use crate::parallel_decoder::types::{DecodeFragment, FragmentView};
use crate::parallel_decoder::worker::{
    completion_metrics, larger, CompletionStep, FragmentCompletion, ParallelDecoderMetrics,
};
use crate::streams::Word;

verus! {

/// What decoding has come to: the partial word, the last strobe level, and the words.
#[verifier::ext_equal]
pub struct DecodeProgress {
    pub assembly: AssemblyState,
    pub last_strobe_value: bool,
    pub words: Seq<Word>,
}

/// The first `count` fragments merged one after the other, each as a call of its own.
pub open spec fn merged_in_turn(
    decoder: ParallelDecoder,
    fragments: Seq<FragmentView>,
    count: nat,
) -> DecodeProgress
    decreases count,
{
    if count == 0 {
        DecodeProgress {
            assembly: decoder.assembly,
            last_strobe_value: decoder.last_strobe_value,
            words: Seq::empty(),
        }
    } else {
        let before = merged_in_turn(decoder, fragments, (count - 1) as nat);
        let fragment = fragments[count - 1];
        let merged = ParallelDecoder {
            assembly: before.assembly,
            last_strobe_value: before.last_strobe_value,
            ..decoder
        }.merging(fragment);
        DecodeProgress {
            assembly: merged.assembly,
            last_strobe_value: fragment.last_strobe_value,
            words: before.words + merged.words,
        }
    }
}

/// What has happened in a run so far.
#[verifier::ext_equal]
pub struct RunHistory {
    /// The fragments of the windows handed out, by sequence number.
    pub handed: Seq<FragmentView>,
    /// Numbers of the windows that workers have.
    pub flying: Set<u64>,
    /// The window whose stretches are known and which no worker has yet.
    pub pending: Option<FragmentView>,
    /// The words completed.
    pub words: Seq<Word>,
    /// Enable level behind the last window.
    pub level: bool,
}

impl RunHistory {
    /// Nothing has happened yet.
    pub open spec fn fresh(decoder: ParallelDecoder) -> RunHistory {
        RunHistory {
            handed: Seq::empty(),
            flying: Set::empty(),
            pending: None,
            words: Seq::empty(),
            level: decoder.enable.current,
        }
    }

    /// The history after an event: a window that a worker has takes to the air, and a scan that
    /// completes lands.
    pub open spec fn after(
        self,
        run: RunView,
        decoder: ParallelDecoder,
        event: RunEvent,
        outcome: RunOutcome,
    ) -> RunHistory {
        let words = self.words + outcome.words;
        match event {
            RunEvent::Gated(window) => RunHistory {
                pending: Some(
                    scanned_fragment(
                        decoder.scan_config(),
                        run.next_sequence,
                        run.strobe->0,
                        run.data,
                        run.cs,
                        run.offset as int,
                        run.window_end(),
                        window.ranges@,
                    ),
                ),
                level: window.current,
                words,
                ..self
            },
            RunEvent::Dispatched => RunHistory {
                handed: self.handed.push(self.pending->0),
                flying: self.flying.insert(run.next_sequence),
                pending: None,
                words,
                ..self
            },
            RunEvent::Completed(FragmentCompletion::Complete(fragment)) => RunHistory {
                flying: self.flying.remove(fragment.sequence),
                words,
                ..self
            },
            _ => RunHistory { words, ..self },
        }
    }

    /// Workers hand back what they were given: a completed fragment is that of a window which a
    /// worker has.
    pub open spec fn admits(self, event: RunEvent) -> bool {
        event matches RunEvent::Completed(FragmentCompletion::Complete(fragment)) ==> {
            &&& self.flying.contains(fragment.sequence)
            &&& fragment@ == self.handed[fragment.sequence as int]
        }
    }

    /// Every window from `from` on is with a worker or kept, and none is both.
    pub open spec fn owns(self, run: RunView, from: int) -> bool {
        &&& run.next_sequence == self.handed.len()
        &&& self.flying.finite()
        &&& self.flying.len() == run.in_flight
        &&& forall|sequence: u64|
            #![trigger self.flying.contains(sequence)]
            #![trigger run.kept.dom().contains(sequence)]
            from <= sequence < self.handed.len() <==> (self.flying.contains(sequence)
                || run.kept.dom().contains(sequence))
        &&& forall|sequence: u64|
            #![trigger self.flying.contains(sequence)]
            #![trigger run.kept.dom().contains(sequence)]
            !(self.flying.contains(sequence) && run.kept.dom().contains(sequence))
        &&& forall|sequence: u64| #[trigger]
            run.kept.dom().contains(sequence) ==> run.kept[sequence]@
                == self.handed[sequence as int]
    }

    /// The decoder has merged the first windows in turn, as many as it has counted.
    pub open spec fn decoded(self, start: ParallelDecoder, decoder: ParallelDecoder) -> bool {
        let merged = decoder.next_stream_merge_sequence;
        let progress = merged_in_turn(start, self.handed, merged as nat);
        &&& merged <= self.handed.len()
        &&& self.words == progress.words
        &&& decoder == (ParallelDecoder {
            assembly: progress.assembly,
            last_strobe_value: progress.last_strobe_value,
            total_words_emitted: (start.total_words_emitted + self.words.len()) as u64,
            next_stream_merge_sequence: merged,
            enable: decoder.enable,
            parallel_metrics: decoder.parallel_metrics,
            ..start
        })
        &&& start.total_words_emitted + self.words.len() <= u64::MAX
    }

    /// What the run waits for fits what has happened.
    pub open spec fn staged(self, run: RunView, decoder: ParallelDecoder) -> bool {
        &&& run.stage is Receiving ==> !run.kept.dom().contains(decoder.next_stream_merge_sequence)
        &&& run.stage is Acquiring || run.input_exhausted ==> run.strobe is None
        &&& run.stage is Acquiring || run.stage is Gating || run.stage is Dispatching
            ==> !run.input_exhausted
        &&& !(run.stage is Idle) && self.pending is None && decoder.next_stream_merge_sequence
            == self.handed.len() ==> run.scanned_enable == decoder.enable.current
        &&& (run.stage is Dispatching) == (self.pending is Some)
        &&& self.level == if run.stage is Idle {
            decoder.enable.current
        } else {
            run.scanned_enable
        }
    }

    /// What holds of a run that started with `start`: every window handed out is merged, kept or
    /// with a worker, those merged are the first ones, and they were merged in turn.
    pub open spec fn holds(self, start: ParallelDecoder, run: RunView, decoder: ParallelDecoder) -> bool {
        &&& self.owns(run, decoder.next_stream_merge_sequence as int)
        &&& self.decoded(start, decoder)
        &&& self.staged(run, decoder)
    }
}

/// A run starts with nothing handed out.
pub proof fn law_fresh_run_holds(start: ParallelDecoder, run: RunView)
    requires
        start.next_stream_merge_sequence == 0,
        run.strobe is None,
        run.next_sequence == 0,
        run.in_flight == 0,
        run.kept == Map::<u64, DecodeFragment>::empty(),
        run.stage is Idle,
    ensures
        RunHistory::fresh(start).holds(start, run, start),
{
}

proof fn lemma_items_words(
    state: MergeState,
    format: WordFormat,
    step: u64,
    items: Seq<(u64, u64, bool)>,
    first_reset: bool,
    count: nat,
)
    requires
        count <= items.len(),
    ensures
        state.merged_items(format, step, items, first_reset, count).words.len()
            <= state.words.len() + count,
    decreases count,
{
    if count > 0 {
        lemma_items_words(state, format, step, items, first_reset, (count - 1) as nat);
    }
}

proof fn lemma_merging_words(decoder: ParallelDecoder, fragment: FragmentView)
    ensures
        decoder.merging(fragment).words.len() <= fragment.items.len() + 1,
{
    let start = MergeState { assembly: decoder.assembly, words: Seq::<Word>::empty() };
    let (state, first_reset) = start.merged_boundary(
        decoder.word_format(),
        decoder.mode,
        decoder.last_strobe_value,
        fragment.timestamp_step,
        fragment.boundary,
    );
    lemma_items_words(
        state,
        decoder.word_format(),
        fragment.timestamp_step,
        fragment.items,
        first_reset,
        fragment.items.len(),
    );
}

/// Merging the fragment whose turn it is.
proof fn lemma_merging_holds(
    history: RunHistory,
    start: ParallelDecoder,
    run: RunView,
    decoder: ParallelDecoder,
    fragment: DecodeFragment,
)
    requires
        history.owns(run, decoder.next_stream_merge_sequence + 1),
        history.decoded(start, decoder),
        decoder.next_stream_merge_sequence < history.handed.len(),
        fragment@ == history.handed[decoder.next_stream_merge_sequence as int],
        fragment_fits(decoder.mode, fragment),
        counters_fit(decoder),
        run.input_exhausted ==> run.strobe is None,
        history.pending is None,
        history.level == run.scanned_enable,
    ensures
        ({
            let outcome = run.merging(decoder, fragment);
            RunHistory { words: history.words + outcome.words, ..history }.holds(
                start,
                outcome.run,
                outcome.decoder,
            )
        }),
{
    let outcome = run.merging(decoder, fragment);
    let after = RunHistory { words: history.words + outcome.words, ..history };
    lemma_merging_words(decoder, fragment@);
    let merged = decoder.next_stream_merge_sequence;
    let before = merged_in_turn(start, history.handed, merged as nat);
    let base = ParallelDecoder {
        assembly: before.assembly,
        last_strobe_value: before.last_strobe_value,
        ..start
    };
    assert(base.merging(fragment@) == decoder.merging(fragment@));
    assert(after.decoded(start, outcome.decoder));
}

/// The expected fragment is merged where it was kept, or waited for.
proof fn lemma_settling_holds(
    history: RunHistory,
    start: ParallelDecoder,
    run: RunView,
    decoder: ParallelDecoder,
)
    requires
        history.owns(run, decoder.next_stream_merge_sequence as int),
        history.decoded(start, decoder),
        forall|sequence: u64| #[trigger]
            run.kept.dom().contains(sequence) ==> fragment_fits(decoder.mode, run.kept[sequence]),
        counters_fit(decoder),
        run.input_exhausted ==> run.strobe is None,
        history.pending is None,
        history.level == run.scanned_enable,
        decoder.next_stream_merge_sequence == history.handed.len() ==> history.level
            == decoder.enable.current,
        !(run.settling(decoder).action is Fail),
    ensures
        ({
            let outcome = run.settling(decoder);
            RunHistory { words: history.words + outcome.words, ..history }.holds(
                start,
                outcome.run,
                outcome.decoder,
            )
        }),
{
    let expected = decoder.next_stream_merge_sequence;
    if run.kept.dom().contains(expected) {
        let rest = RunView { kept: run.kept.remove(expected), ..run };
        assert(history.owns(rest, expected + 1));
        lemma_merging_holds(history, start, rest, decoder, run.kept[expected]);
    } else {
        let outcome = run.settling(decoder);
        assert(history.words + outcome.words =~= history.words);
    }
}

/// A further window does not change what the windows before it come to.
pub proof fn lemma_in_turn_prefix(
    decoder: ParallelDecoder,
    fragments: Seq<FragmentView>,
    fragment: FragmentView,
    count: nat,
)
    requires
        count <= fragments.len(),
    ensures
        merged_in_turn(decoder, fragments.push(fragment), count) == merged_in_turn(
            decoder,
            fragments,
            count,
        ),
    decreases count,
{
    if count > 0 {
        lemma_in_turn_prefix(decoder, fragments, fragment, (count - 1) as nat);
        assert(fragments.push(fragment)[count - 1] == fragments[count - 1]);
    }
}

/// Windows are handed out while there is room and input.
proof fn lemma_filling_holds(
    history: RunHistory,
    start: ParallelDecoder,
    run: RunView,
    decoder: ParallelDecoder,
)
    requires
        history.owns(run, decoder.next_stream_merge_sequence as int),
        history.decoded(start, decoder),
        forall|sequence: u64| #[trigger]
            run.kept.dom().contains(sequence) ==> fragment_fits(decoder.mode, run.kept[sequence]),
        counters_fit(decoder),
        run.input_exhausted ==> run.strobe is None,
        history.pending is None,
        history.level == run.scanned_enable,
        decoder.next_stream_merge_sequence == history.handed.len() ==> history.level
            == decoder.enable.current,
        !(run.filling(decoder).action is Fail),
    ensures
        ({
            let outcome = run.filling(decoder);
            RunHistory { words: history.words + outcome.words, ..history }.holds(
                start,
                outcome.run,
                outcome.decoder,
            )
        }),
{
    if !run.has_room() || run.input_exhausted {
        lemma_settling_holds(history, start, run, decoder);
    } else {
        assert(history.words + Seq::<Word>::empty() =~= history.words);
    }
}

/// Whatever happens to a run, short of a failure, its windows are merged in turn: a fragment that
/// completes early is kept until the windows before its own are merged, and none is lost or
/// merged twice.
pub proof fn law_windows_are_merged_in_turn(
    history: RunHistory,
    start: ParallelDecoder,
    run: RunView,
    decoder: ParallelDecoder,
    event: RunEvent,
    bytes: usize,
)
    requires
        history.holds(start, run, decoder),
        run.wf(decoder.mode),
        run_expects(run.stage, event),
        event_fits(decoder.mode, event),
        history.admits(event),
        counters_fit(decoder),
        run.next_sequence < u64::MAX,
        !(run.next(decoder, event, bytes).action is Fail),
    ensures
        ({
            let outcome = run.next(decoder, event, bytes);
            history.after(run, decoder, event, outcome).holds(start, outcome.run, outcome.decoder)
        }),
{
    let outcome = run.next(decoder, event, bytes);
    match event {
        RunEvent::Called { workers, cs_connected } => {
            let called = RunView {
                scanned_enable: decoder.enable.current,
                max_outstanding: (workers * 2) as usize,
                ..run
            };
            lemma_filling_holds(history, start, called, decoder);
        },
        RunEvent::Blocks { strobe, data, cs } => {
            let resident = RunView { strobe: Some(strobe), data: data@, cs, offset: 0, ..run };
            lemma_filling_holds(history, start, resident, decoder);
        },
        RunEvent::InputEnded => {
            let ended = RunView { input_exhausted: true, ..run };
            lemma_settling_holds(history, start, ended, decoder);
        },
        RunEvent::Gated(window) => {
            assert(history.words + Seq::<Word>::empty() =~= history.words);
        },
        RunEvent::Dispatched => {
            let handed = RunHistory {
                handed: history.handed.push(history.pending->0),
                flying: history.flying.insert(run.next_sequence),
                pending: None,
                ..history
            };
            let merged = decoder.next_stream_merge_sequence as nat;
            lemma_in_turn_prefix(start, history.handed, history.pending->0, merged);
            let counted = ParallelDecoder {
                parallel_metrics: ParallelDecoderMetrics {
                    max_outstanding: larger(
                        decoder.parallel_metrics.max_outstanding,
                        (run.in_flight + 1 + run.kept.len()) as usize,
                    ),
                    ..decoder.parallel_metrics
                },
                ..decoder
            };
            assert(!history.flying.contains(run.next_sequence));
            assert(handed.decoded(start, counted));
            assert(handed.owns(run.dispatched(), merged as int));
            lemma_filling_holds(handed, start, run.dispatched(), counted);
        },
        RunEvent::PoolStopped => {},
        RunEvent::Completed(FragmentCompletion::Complete(fragment)) => {
            let landed = RunHistory {
                flying: history.flying.remove(fragment.sequence),
                ..history
            };
            let rest = RunView { in_flight: (run.in_flight - 1) as usize, ..run };
            let expected = decoder.next_stream_merge_sequence;
            if fragment.sequence == expected {
                let counted = ParallelDecoder {
                    parallel_metrics: completion_metrics(
                        decoder.parallel_metrics,
                        bytes,
                        CompletionStep::Ready(fragment),
                        rest.kept.len(),
                    ),
                    ..decoder
                };
                assert(landed.decoded(start, counted));
                assert(landed.owns(rest, expected + 1));
                lemma_merging_holds(landed, start, rest, counted, fragment);
            } else {
                let kept = RunView { kept: rest.kept.insert(fragment.sequence, fragment), ..rest };
                assert(history.flying.contains(expected) || run.kept.dom().contains(expected));
                assert(landed.owns(kept, expected as int));
                assert(landed.words + Seq::<Word>::empty() =~= landed.words);
            }
        },
        RunEvent::Completed(_) => {},
        RunEvent::CompletionsClosed => {},
        RunEvent::Interrupted => {},
    }
}

/// Once a run finishes, every window was merged: its words are those of all windows merged one
/// after the other, no block is left, and the decoder knows the enable level behind the last
/// window.
pub proof fn law_finished_run_has_merged_everything(
    history: RunHistory,
    start: ParallelDecoder,
    run: RunView,
    decoder: ParallelDecoder,
    event: RunEvent,
    bytes: usize,
)
    requires
        history.holds(start, run, decoder),
        run.wf(decoder.mode),
        run_expects(run.stage, event),
        event_fits(decoder.mode, event),
        history.admits(event),
        counters_fit(decoder),
        run.next_sequence < u64::MAX,
        run.next(decoder, event, bytes).action is Finish,
    ensures
        ({
            let outcome = run.next(decoder, event, bytes);
            let after = history.after(run, decoder, event, outcome);
            let progress = merged_in_turn(start, after.handed, after.handed.len());
            &&& after.words == progress.words
            &&& outcome.decoder.assembly == progress.assembly
            &&& outcome.decoder.last_strobe_value == progress.last_strobe_value
            &&& outcome.decoder.total_words_emitted == start.total_words_emitted
                + progress.words.len()
            &&& outcome.decoder.enable.current == after.level
            &&& outcome.run.strobe is None
        }),
{
    law_windows_are_merged_in_turn(history, start, run, decoder, event, bytes);
    let outcome = run.next(decoder, event, bytes);
    let after = history.after(run, decoder, event, outcome);
    let merged = outcome.decoder.next_stream_merge_sequence;
    assert(after.flying =~= Set::empty());
    assert(!after.flying.contains(merged) && !outcome.run.kept.dom().contains(merged));
}

/// With at least one worker a run never expects a fragment that no worker has.
pub proof fn law_expected_fragment_is_on_its_way(
    history: RunHistory,
    start: ParallelDecoder,
    run: RunView,
    decoder: ParallelDecoder,
    event: RunEvent,
    bytes: usize,
)
    requires
        history.holds(start, run, decoder),
        run.wf(decoder.mode),
        run_expects(run.stage, event),
        event_fits(decoder.mode, event),
        history.admits(event),
        run.next_sequence < u64::MAX,
        event matches RunEvent::Called { workers, .. } ==> workers >= 1,
    ensures
        run.next(decoder, event, bytes).action != ActionView::Fail(RunError::NothingOutstanding),
{
    let merged = decoder.next_stream_merge_sequence;
    if run.in_flight == 0 && run.kept.len() > 0 {
        let sequence = run.kept.dom().choose();
        assert(run.kept.dom().contains(sequence));
        assert(history.flying =~= Set::empty());
        assert(!history.flying.contains(merged));
        assert(run.kept.dom().contains(merged));
    }
    if let RunEvent::Completed(FragmentCompletion::Complete(fragment)) = event {
        if fragment.sequence != merged {
            assert(history.flying.contains(fragment.sequence));
            assert(history.flying.contains(merged) || run.kept.dom().contains(merged));
            assert(history.flying.remove(fragment.sequence).contains(merged));
        }
    }
}

/// Where every call of a run is given workers of which twice the number stays within a limit, no
/// more fragments than the limit are ever on their way.
pub proof fn law_outstanding_fragments_are_bounded(
    run: RunView,
    decoder: ParallelDecoder,
    event: RunEvent,
    bytes: usize,
    limit: usize,
)
    requires
        run.wf(decoder.mode),
        run_expects(run.stage, event),
        event_fits(decoder.mode, event),
        run.max_outstanding <= limit,
        run.in_flight + run.kept.len() <= limit,
        event matches RunEvent::Called { workers, .. } ==> workers * 2 <= limit,
    ensures
        ({
            let after = run.next(decoder, event, bytes).run;
            after.max_outstanding <= limit && after.in_flight + after.kept.len() <= limit
        }),
{
}

/// A call that scans and merges one window itself takes the same step: what one call after the
/// other yields is what the windows come to when merged in turn.
pub proof fn law_sequential_call_takes_the_next_turn(
    start: ParallelDecoder,
    windows: Seq<FragmentView>,
    count: nat,
    decoder: ParallelDecoder,
    current_enable_value: bool,
)
    requires
        count < windows.len(),
        decoder.word_format() == start.word_format(),
        decoder.mode == start.mode,
        decoder.assembly == merged_in_turn(start, windows, count).assembly,
        decoder.last_strobe_value == merged_in_turn(start, windows, count).last_strobe_value,
    ensures
        ({
            let before = merged_in_turn(start, windows, count);
            let after = merged_in_turn(start, windows, count + 1);
            let called = decoder.after_merge(windows[count as int], current_enable_value);
            &&& called.assembly == after.assembly
            &&& called.last_strobe_value == after.last_strobe_value
            &&& after.words == before.words + decoder.merging(windows[count as int]).words
        }),
{
}

} // verus!
