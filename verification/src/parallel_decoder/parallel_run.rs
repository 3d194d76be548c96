//! The course of decoding a packed bus with concurrent scans: windows are handed out while there
//! is room, and their fragments are merged in turn.

use vstd::prelude::*;

use crate::parallel_decoder::decoder::{
    block_set_error, ParallelDecoder, StreamBlockState, StreamError, STREAM_SAMPLES_PER_CALL,
};
use crate::parallel_decoder::gate::EnableWindow;
use crate::parallel_decoder::types::{
    DecodeFragment, DecodeFragmentBuffers, EnabledRange, StrobeMode,
};
use crate::parallel_decoder::worker::{
    capacity_bytes, completion_metrics, larger, CompletionStep, FragmentCompletion,
    OutstandingWork, ParallelDecoderMetrics, ParallelStreamState,
};
use crate::streams::{SampleBlock, Word};

verus! {

/// What a run waits for.
#[derive(Debug, Clone, Copy, PartialEq, Eq, Structural)]
pub enum RunStage {
    /// To be called.
    Idle,
    /// For the next aligned set of blocks.
    Acquiring,
    /// For the stretches of the next window in which the decoder is enabled.
    Gating,
    /// For the next window to be handed to a worker.
    Dispatching,
    /// For a scan to complete.
    Receiving,
}

/// What a run is told.
pub enum RunEvent {
    /// It is called once more, with this many workers.
    Called { workers: usize, cs_connected: bool },
    /// The next aligned set of blocks.
    Blocks { strobe: SampleBlock, data: Vec<SampleBlock>, cs: Option<SampleBlock> },
    /// The inputs hold no further block.
    InputEnded,
    /// The stretches of the window asked for.
    Gated(EnableWindow),
    /// A worker has the window.
    Dispatched,
    /// No worker takes windows any more.
    PoolStopped,
    /// A scan has completed.
    Completed(FragmentCompletion),
    /// No further scan can complete.
    CompletionsClosed,
    /// The blocks or the stretches asked for could not be had.
    Interrupted,
}

/// Why a call of a run fails.
#[derive(Debug, Clone, Copy, PartialEq, Eq, Structural)]
pub enum RunError {
    Stream(StreamError),
    PoolStopped,
    CompletionsClosed,
    /// The scan with this sequence number did not finish.
    ScanPanicked(u64),
    /// A fragment is expected that no worker has.
    NothingOutstanding,
    /// The blocks or the stretches asked for could not be had.
    Interrupted,
}

/// What is to be done for a run.
#[derive(Debug)]
pub enum RunAction {
    /// Receive the next aligned set of blocks.
    Acquire,
    /// Find the stretches of `start..end` in which the decoder is enabled, given its enable level
    /// before.
    Gate { start: usize, end: usize, current: bool },
    /// Hand `start..end` of the resident blocks to a worker.
    Scan {
        sequence: u64,
        start: usize,
        end: usize,
        ranges: Vec<EnabledRange>,
        buffers: DecodeFragmentBuffers,
    },
    /// Wait for a scan to complete.
    Receive,
    /// The call ends; it has merged one fragment, which completed this many words.
    Emit(u64),
    /// The call ends with an error.
    Fail(RunError),
    /// Everything is decoded.
    Finish,
}

/// A [`RunAction`] with what its buffers hold.
#[verifier::ext_equal]
pub enum ActionView {
    Acquire,
    Gate { start: int, end: int, current: bool },
    Scan {
        sequence: u64,
        start: int,
        end: int,
        ranges: Seq<EnabledRange>,
        buffers: Seq<(u64, u64, bool)>,
    },
    Receive,
    Emit(nat),
    Fail(RunError),
    Finish,
}

impl View for RunAction {
    type V = ActionView;

    open spec fn view(&self) -> ActionView {
        match *self {
            RunAction::Acquire => ActionView::Acquire,
            RunAction::Gate { start, end, current } => ActionView::Gate {
                start: start as int,
                end: end as int,
                current,
            },
            RunAction::Scan { sequence, start, end, ranges, buffers } => ActionView::Scan {
                sequence,
                start: start as int,
                end: end as int,
                ranges: ranges@,
                buffers: buffers@,
            },
            RunAction::Receive => ActionView::Receive,
            RunAction::Emit(words) => ActionView::Emit(words as nat),
            RunAction::Fail(error) => ActionView::Fail(error),
            RunAction::Finish => ActionView::Finish,
        }
    }
}

/// A decoder's concurrent scans, between two pieces of work.
pub struct ParallelRun {
    pub blocks: StreamBlockState,
    pub stream: ParallelStreamState,
    /// Enable level behind the last window of this call.
    pub scanned_enable: bool,
    /// Most fragments that may be on their way.
    pub max_outstanding: usize,
    pub stage: RunStage,
}

/// What a [`ParallelRun`] holds.
#[verifier::ext_equal]
pub struct RunView {
    pub strobe: Option<SampleBlock>,
    pub data: Seq<SampleBlock>,
    pub cs: Option<SampleBlock>,
    /// First sample not yet handed out.
    pub offset: usize,
    /// Sequence number of the next window.
    pub next_sequence: u64,
    /// Number of windows that workers have.
    pub in_flight: usize,
    pub input_exhausted: bool,
    /// Fragments that completed before their turn.
    pub kept: Map<u64, DecodeFragment>,
    pub buffers: Seq<DecodeFragmentBuffers>,
    pub scanned_enable: bool,
    pub max_outstanding: usize,
    pub stage: RunStage,
}

impl View for ParallelRun {
    type V = RunView;

    open spec fn view(&self) -> RunView {
        RunView {
            strobe: self.blocks.strobe,
            data: self.blocks.data@,
            cs: self.blocks.cs,
            offset: self.blocks.offset,
            next_sequence: self.blocks.next_sequence,
            in_flight: self.stream.in_flight,
            input_exhausted: self.stream.input_exhausted,
            kept: self.stream.reorder@,
            buffers: self.stream.available_buffers@,
            scanned_enable: self.scanned_enable,
            max_outstanding: self.max_outstanding,
            stage: self.stage,
        }
    }
}

/// What an event leads to: the run and the decoder after it, what is to be done, and the words
/// that were completed.
#[verifier::ext_equal]
pub struct RunOutcome {
    pub run: RunView,
    pub decoder: ParallelDecoder,
    pub action: ActionView,
    pub words: Seq<Word>,
}

/// Whether an outcome was reached, and its words were appended where an output is connected.
pub open spec fn reached(
    outcome: RunOutcome,
    run: RunView,
    decoder: ParallelDecoder,
    action: ActionView,
    batch_before: Option<Vec<Word>>,
    batch_after: Option<Vec<Word>>,
) -> bool {
    &&& run == outcome.run
    &&& decoder == outcome.decoder
    &&& action == outcome.action
    &&& match batch_before {
        Some(before) => batch_after is Some && batch_after->0@ == before@ + outcome.words,
        None => batch_after is None,
    }
}

/// A fragment that a decoder in some mode can merge.
pub open spec fn fragment_fits(mode: StrobeMode, fragment: DecodeFragment) -> bool {
    &&& fragment.buffers.wf()
    &&& fragment.buffers@.len() <= STREAM_SAMPLES_PER_CALL
    &&& fragment.boundary is Some ==> mode.on_edges()
}

impl RunView {
    /// Kept fragments stand under their own numbers and can be merged; the resident blocks are not
    /// used up; there is room for the window being handed out; a completion that is waited for is
    /// on its way.
    pub open spec fn wf(self, mode: StrobeMode) -> bool {
        &&& self.kept.dom().finite()
        &&& forall|sequence: u64| #[trigger]
            self.kept.dom().contains(sequence) ==> self.kept[sequence].sequence == sequence
                && fragment_fits(mode, self.kept[sequence])
        &&& self.strobe is Some ==> self.offset < self.strobe->0.num_samples
        &&& match self.stage {
            RunStage::Idle => true,
            RunStage::Acquiring => self.has_room(),
            RunStage::Gating => self.has_room() && self.strobe is Some,
            RunStage::Dispatching => self.has_room() && self.strobe is Some,
            RunStage::Receiving => self.in_flight > 0,
        }
    }

    /// One more window may be handed out.
    pub open spec fn has_room(self) -> bool {
        self.in_flight + self.kept.len() < self.max_outstanding
    }

    /// End of the next window.
    pub open spec fn window_end(self) -> int {
        if self.offset + STREAM_SAMPLES_PER_CALL < self.strobe->0.num_samples {
            self.offset + STREAM_SAMPLES_PER_CALL
        } else {
            self.strobe->0.num_samples as int
        }
    }

    /// The run once its next window was handed to a worker; blocks that are used up are let go.
    pub open spec fn dispatched(self) -> RunView {
        let used_up = self.window_end() == self.strobe->0.num_samples;
        RunView {
            strobe: if used_up {
                None
            } else {
                self.strobe
            },
            data: if used_up {
                Seq::empty()
            } else {
                self.data
            },
            cs: if used_up {
                None
            } else {
                self.cs
            },
            offset: if used_up {
                0
            } else {
                self.window_end() as usize
            },
            next_sequence: (self.next_sequence + 1) as u64,
            in_flight: (self.in_flight + 1) as usize,
            ..self
        }
    }

    /// The run in another stage, with nothing else changed.
    pub open spec fn at(
        self,
        stage: RunStage,
        decoder: ParallelDecoder,
        action: ActionView,
    ) -> RunOutcome {
        RunOutcome { run: RunView { stage, ..self }, decoder, action, words: Seq::empty() }
    }

    /// A call that fails.
    pub open spec fn failing(self, decoder: ParallelDecoder, error: RunError) -> RunOutcome {
        self.at(RunStage::Idle, decoder, ActionView::Fail(error))
    }

    /// A fragment merged: the call ends.
    pub open spec fn merging(
        self,
        decoder: ParallelDecoder,
        fragment: DecodeFragment,
    ) -> RunOutcome {
        RunOutcome {
            run: RunView {
                buffers: self.buffers.push(fragment.buffers),
                stage: RunStage::Idle,
                ..self
            },
            decoder: decoder.after_merge(fragment@, self.scanned_enable),
            action: ActionView::Emit(decoder.merging(fragment@).words.len()),
            words: decoder.merging(fragment@).words,
        }
    }

    /// The expected fragment is not among those kept: it is waited for while workers have
    /// windows.
    pub open spec fn waiting(self, decoder: ParallelDecoder) -> RunOutcome {
        if self.in_flight > 0 {
            self.at(RunStage::Receiving, decoder, ActionView::Receive)
        } else if self.input_exhausted {
            self.at(RunStage::Idle, decoder, ActionView::Finish)
        } else {
            self.failing(decoder, RunError::NothingOutstanding)
        }
    }

    /// No further window is handed out in this call: the expected fragment is merged, or waited
    /// for.
    pub open spec fn settling(self, decoder: ParallelDecoder) -> RunOutcome {
        let expected = decoder.next_stream_merge_sequence;
        if self.kept.dom().contains(expected) {
            RunView { kept: self.kept.remove(expected), ..self }.merging(
                decoder,
                self.kept[expected],
            )
        } else {
            self.waiting(decoder)
        }
    }

    /// Windows are handed out while there is room and input.
    pub open spec fn filling(self, decoder: ParallelDecoder) -> RunOutcome {
        if !self.has_room() || self.input_exhausted {
            self.settling(decoder)
        } else if self.strobe is None {
            self.at(RunStage::Acquiring, decoder, ActionView::Acquire)
        } else {
            self.at(
                RunStage::Gating,
                decoder,
                ActionView::Gate {
                    start: self.offset as int,
                    end: self.window_end(),
                    current: self.scanned_enable,
                },
            )
        }
    }

    /// A scan has completed; its buffers take `bytes` bytes.
    pub open spec fn completing(
        self,
        decoder: ParallelDecoder,
        completion: FragmentCompletion,
        bytes: usize,
    ) -> RunOutcome {
        let rest = RunView { in_flight: (self.in_flight - 1) as usize, ..self };
        match completion {
            FragmentCompletion::Panicked(sequence) => rest.failing(
                decoder,
                RunError::ScanPanicked(sequence),
            ),
            FragmentCompletion::Complete(fragment) => if fragment.sequence
                == decoder.next_stream_merge_sequence {
                rest.merging(
                    ParallelDecoder {
                        parallel_metrics: completion_metrics(
                            decoder.parallel_metrics,
                            bytes,
                            CompletionStep::Ready(fragment),
                            rest.kept.len(),
                        ),
                        ..decoder
                    },
                    fragment,
                )
            } else {
                let kept = rest.kept.insert(fragment.sequence, fragment);
                RunView { kept, ..rest }.waiting(
                    ParallelDecoder {
                        parallel_metrics: completion_metrics(
                            decoder.parallel_metrics,
                            bytes,
                            CompletionStep::Stored,
                            kept.len(),
                        ),
                        ..decoder
                    },
                )
            },
        }
    }

    /// What an event leads to. Where a scan has completed, its buffers take `bytes` bytes.
    pub open spec fn next(
        self,
        decoder: ParallelDecoder,
        event: RunEvent,
        bytes: usize,
    ) -> RunOutcome {
        match event {
            RunEvent::Called { workers, cs_connected } => if !cs_connected
                && !(decoder.cs_polarity is Disabled) {
                self.failing(decoder, RunError::Stream(StreamError::MissingChipSelect))
            } else {
                RunView {
                    scanned_enable: decoder.enable.current,
                    max_outstanding: (workers * 2) as usize,
                    ..self
                }.filling(decoder)
            },
            RunEvent::Blocks { strobe, data, cs } => match block_set_error(strobe, data@, cs) {
                Some(error) => self.failing(decoder, RunError::Stream(error)),
                None => RunView {
                    strobe: Some(strobe),
                    data: data@,
                    cs,
                    offset: 0,
                    ..self
                }.filling(decoder),
            },
            RunEvent::InputEnded => RunView { input_exhausted: true, ..self }.settling(decoder),
            RunEvent::Gated(window) => RunView {
                scanned_enable: window.current,
                buffers: if self.buffers.len() > 0 {
                    self.buffers.drop_last()
                } else {
                    self.buffers
                },
                ..self
            }.at(
                RunStage::Dispatching,
                decoder,
                ActionView::Scan {
                    sequence: self.next_sequence,
                    start: self.offset as int,
                    end: self.window_end(),
                    ranges: window.ranges@,
                    buffers: if self.buffers.len() > 0 {
                        self.buffers.last()@
                    } else {
                        Seq::empty()
                    },
                },
            ),
            RunEvent::Dispatched => self.dispatched().filling(
                ParallelDecoder {
                    parallel_metrics: ParallelDecoderMetrics {
                        max_outstanding: larger(
                            decoder.parallel_metrics.max_outstanding,
                            (self.in_flight + 1 + self.kept.len()) as usize,
                        ),
                        ..decoder.parallel_metrics
                    },
                    ..decoder
                },
            ),
            RunEvent::PoolStopped => self.failing(decoder, RunError::PoolStopped),
            RunEvent::Completed(completion) => self.completing(decoder, completion, bytes),
            RunEvent::CompletionsClosed => self.failing(decoder, RunError::CompletionsClosed),
            RunEvent::Interrupted => self.failing(decoder, RunError::Interrupted),
        }
    }
}

/// Whether a run waits for an event.
pub open spec fn run_expects(stage: RunStage, event: RunEvent) -> bool {
    match event {
        RunEvent::Called { .. } => stage is Idle,
        RunEvent::Blocks { .. } => stage is Acquiring,
        RunEvent::InputEnded => stage is Acquiring,
        RunEvent::Gated(_) => stage is Gating,
        RunEvent::Dispatched => stage is Dispatching,
        RunEvent::PoolStopped => stage is Dispatching,
        RunEvent::Completed(_) => stage is Receiving,
        RunEvent::CompletionsClosed => stage is Receiving,
        RunEvent::Interrupted => stage is Acquiring || stage is Gating,
    }
}

/// Whether an event can come: the number of workers can be doubled, and a completed fragment can
/// be merged.
pub open spec fn event_fits(mode: StrobeMode, event: RunEvent) -> bool {
    match event {
        RunEvent::Called { workers, .. } => workers * 2 <= usize::MAX,
        RunEvent::Completed(FragmentCompletion::Complete(fragment)) => fragment_fits(
            mode,
            fragment,
        ),
        _ => true,
    }
}

/// Bytes that the buffers of a completed fragment can take.
pub open spec fn bytes_fit(event: RunEvent, bytes: usize) -> bool {
    event matches RunEvent::Completed(FragmentCompletion::Complete(fragment)) ==> bytes
        >= capacity_bytes(
        fragment.buffers@.len() as int,
        fragment.buffers@.len() as int,
        fragment.buffers@.len() as int,
    )
}

/// The counters of a decoder leave room for one more fragment.
pub open spec fn counters_fit(decoder: ParallelDecoder) -> bool {
    &&& decoder.total_words_emitted + STREAM_SAMPLES_PER_CALL + 1 <= u64::MAX
    &&& decoder.next_stream_merge_sequence < u64::MAX
}

/// An event keeps a run well-formed.
pub proof fn lemma_next_wf(run: RunView, decoder: ParallelDecoder, event: RunEvent, bytes: usize)
    requires
        run.wf(decoder.mode),
        run_expects(run.stage, event),
        event_fits(decoder.mode, event),
    ensures
        run.next(decoder, event, bytes).run.wf(decoder.mode),
        run.next(decoder, event, bytes).decoder.mode == decoder.mode,
{
}

impl ParallelRun {
    /// A run that has not been called.
    pub fn new() -> (result: Self)
        ensures
            result@ == (RunView {
                strobe: None,
                data: Seq::empty(),
                cs: None,
                offset: 0,
                next_sequence: 0,
                in_flight: 0,
                input_exhausted: false,
                kept: Map::empty(),
                buffers: Seq::empty(),
                scanned_enable: false,
                max_outstanding: 0,
                stage: RunStage::Idle,
            }),
    {
        ParallelRun {
            blocks: StreamBlockState::new(),
            stream: ParallelStreamState::new(),
            scanned_enable: false,
            max_outstanding: 0,
            stage: RunStage::Idle,
        }
    }

    /// Merges the fragment whose turn it is.
    fn merge(
        &mut self,
        decoder: &mut ParallelDecoder,
        fragment: DecodeFragment,
        word_batch: &mut Option<Vec<Word>>,
    ) -> (action: RunAction)
        requires
            old(decoder).wf(),
            fragment_fits(old(decoder).mode, fragment),
            fragment.sequence == old(decoder).next_stream_merge_sequence,
            counters_fit(*old(decoder)),
        ensures
            final(decoder).wf(),
            reached(
                old(self)@.merging(*old(decoder), fragment),
                final(self)@,
                *final(decoder),
                action@,
                *old(word_batch),
                *final(word_batch),
            ),
    {
        let merged = decoder.merge_fragment(&fragment, self.scanned_enable, word_batch);
        self.stage = RunStage::Idle;
        match merged {
            Ok(words_emitted) => {
                self.stream.available_buffers.push(fragment.buffers);
                RunAction::Emit(words_emitted)
            },
            Err(error) => RunAction::Fail(RunError::Stream(error)),
        }
    }

    /// Waits for the expected fragment while workers have windows.
    fn wait(&mut self, Ghost(decoder): Ghost<ParallelDecoder>) -> (action: RunAction)
        ensures
            final(self)@ == old(self)@.waiting(decoder).run,
            action@ == old(self)@.waiting(decoder).action,
    {
        match self.stream.outstanding() {
            OutstandingWork::Wait => {
                self.stage = RunStage::Receiving;
                RunAction::Receive
            },
            OutstandingWork::Finished => {
                self.stage = RunStage::Idle;
                RunAction::Finish
            },
            OutstandingWork::Missing => {
                self.stage = RunStage::Idle;
                RunAction::Fail(RunError::NothingOutstanding)
            },
        }
    }

    /// Merges the expected fragment where it was kept, or waits for it.
    fn settle(&mut self, decoder: &mut ParallelDecoder, word_batch: &mut Option<Vec<Word>>) -> (action:
        RunAction)
        requires
            old(decoder).wf(),
            (RunView { stage: RunStage::Idle, ..old(self)@ }).wf(old(decoder).mode),
            counters_fit(*old(decoder)),
        ensures
            final(decoder).wf(),
            reached(
                old(self)@.settling(*old(decoder)),
                final(self)@,
                *final(decoder),
                action@,
                *old(word_batch),
                *final(word_batch),
            ),
    {
        let ghost before = self@;
        match self.stream.take_kept(decoder.next_stream_merge_sequence) {
            Some(fragment) => self.merge(decoder, fragment, word_batch),
            None => {
                proof {
                    let expected = decoder.next_stream_merge_sequence;
                    assert(before.kept.remove(expected) =~= before.kept);
                }
                self.wait(Ghost(*decoder))
            },
        }
    }

    /// Hands out a window while there is room and input.
    fn fill(&mut self, decoder: &mut ParallelDecoder, word_batch: &mut Option<Vec<Word>>) -> (action:
        RunAction)
        requires
            old(decoder).wf(),
            (RunView { stage: RunStage::Idle, ..old(self)@ }).wf(old(decoder).mode),
            counters_fit(*old(decoder)),
        ensures
            final(decoder).wf(),
            reached(
                old(self)@.filling(*old(decoder)),
                final(self)@,
                *final(decoder),
                action@,
                *old(word_batch),
                *final(word_batch),
            ),
    {
        if !self.stream.wants_window(self.max_outstanding) {
            return self.settle(decoder, word_batch);
        }
        if self.blocks.strobe.is_none() {
            self.stage = RunStage::Acquiring;
            return RunAction::Acquire;
        }
        let (start, end) = self.blocks.next_window();
        self.stage = RunStage::Gating;
        RunAction::Gate { start, end, current: self.scanned_enable }
    }

    /// Takes in a completed scan.
    fn take_in(
        &mut self,
        decoder: &mut ParallelDecoder,
        completion: FragmentCompletion,
        word_batch: &mut Option<Vec<Word>>,
    ) -> (action: RunAction)
        requires
            old(decoder).wf(),
            old(self)@.wf(old(decoder).mode),
            old(self).stage is Receiving,
            event_fits(old(decoder).mode, RunEvent::Completed(completion)),
            counters_fit(*old(decoder)),
        ensures
            final(decoder).wf(),
            exists|bytes: usize|
                bytes_fit(RunEvent::Completed(completion), bytes) && reached(
                    #[trigger] old(self)@.completing(*old(decoder), completion, bytes),
                    final(self)@,
                    *final(decoder),
                    action@,
                    *old(word_batch),
                    *final(word_batch),
                ),
    {
        let ghost before = self@;
        let ghost metrics = decoder.parallel_metrics;
        let expected: u64 = decoder.next_stream_merge_sequence;
        let step = self.stream.complete(completion, expected, &mut decoder.parallel_metrics);
        let ghost kept = self@.kept;
        let ghost bytes: usize = choose|bytes: usize|
            #[trigger] completion_metrics(metrics, bytes, step, kept.len())
                == decoder.parallel_metrics && bytes_fit(RunEvent::Completed(completion), bytes);
        assert(completion_metrics(metrics, bytes, step, kept.len()) == decoder.parallel_metrics);
        let action = match step {
            CompletionStep::Ready(fragment) => self.merge(decoder, fragment, word_batch),
            CompletionStep::Stored => self.wait(Ghost(*decoder)),
            CompletionStep::Failed(sequence) => {
                self.stage = RunStage::Idle;
                RunAction::Fail(RunError::ScanPanicked(sequence))
            },
        };
        proof {
            let outcome = before.completing(*old(decoder), completion, bytes);
            assert(self@ == outcome.run);
            assert(*decoder == outcome.decoder);
        }
        action
    }

    /// Goes on with a call.
    fn call(
        &mut self,
        decoder: &mut ParallelDecoder,
        workers: usize,
        cs_connected: bool,
        word_batch: &mut Option<Vec<Word>>,
    ) -> (action: RunAction)
        requires
            old(decoder).wf(),
            old(self)@.wf(old(decoder).mode),
            old(self).stage is Idle,
            workers * 2 <= usize::MAX,
            counters_fit(*old(decoder)),
        ensures
            final(decoder).wf(),
            reached(
                old(self)@.next(*old(decoder), RunEvent::Called { workers, cs_connected }, 0),
                final(self)@,
                *final(decoder),
                action@,
                *old(word_batch),
                *final(word_batch),
            ),
    {
        match decoder.check_chip_select(cs_connected) {
            Ok(()) => {
                self.scanned_enable = decoder.enable.current;
                self.max_outstanding = workers * 2;
                self.fill(decoder, word_batch)
            },
            Err(error) => {
                self.stage = RunStage::Idle;
                RunAction::Fail(RunError::Stream(error))
            },
        }
    }

    /// Goes on with the next set of blocks.
    fn acquire(
        &mut self,
        decoder: &mut ParallelDecoder,
        strobe: SampleBlock,
        data: Vec<SampleBlock>,
        cs: Option<SampleBlock>,
        word_batch: &mut Option<Vec<Word>>,
    ) -> (action: RunAction)
        requires
            old(decoder).wf(),
            old(self)@.wf(old(decoder).mode),
            old(self).stage is Acquiring,
            counters_fit(*old(decoder)),
        ensures
            final(decoder).wf(),
            reached(
                old(self)@.next(*old(decoder), RunEvent::Blocks { strobe, data, cs }, 0),
                final(self)@,
                *final(decoder),
                action@,
                *old(word_batch),
                *final(word_batch),
            ),
    {
        match self.blocks.acquire_stream_block_set(strobe, data, cs) {
            Ok(()) => self.fill(decoder, word_batch),
            Err(error) => {
                self.stage = RunStage::Idle;
                RunAction::Fail(RunError::Stream(error))
            },
        }
    }

    /// Hands out the window whose stretches are known.
    fn hand_out(&mut self, Ghost(decoder): Ghost<ParallelDecoder>, window: EnableWindow) -> (action:
        RunAction)
        requires
            old(self)@.wf(decoder.mode),
            old(self).stage is Gating,
        ensures
            final(self)@ == old(self)@.next(decoder, RunEvent::Gated(window), 0).run,
            action@ == old(self)@.next(decoder, RunEvent::Gated(window), 0).action,
    {
        let (start, end) = self.blocks.next_window();
        self.scanned_enable = window.current;
        let buffers = match self.stream.available_buffers.pop() {
            Some(buffers) => buffers,
            None => DecodeFragmentBuffers::new(),
        };
        self.stage = RunStage::Dispatching;
        RunAction::Scan {
            sequence: self.blocks.next_sequence,
            start,
            end,
            ranges: window.ranges,
            buffers,
        }
    }

    /// Goes on once a worker has the window.
    fn move_on(&mut self, decoder: &mut ParallelDecoder, word_batch: &mut Option<Vec<Word>>) -> (action:
        RunAction)
        requires
            old(decoder).wf(),
            old(self)@.wf(old(decoder).mode),
            old(self).stage is Dispatching,
            counters_fit(*old(decoder)),
            old(self).blocks.next_sequence < u64::MAX,
        ensures
            final(decoder).wf(),
            reached(
                old(self)@.next(*old(decoder), RunEvent::Dispatched, 0),
                final(self)@,
                *final(decoder),
                action@,
                *old(word_batch),
                *final(word_batch),
            ),
    {
        let ghost before = self@;
        self.stream.dispatched(&mut decoder.parallel_metrics);
        self.blocks.advance();
        assert(self@ == before.dispatched());
        self.fill(decoder, word_batch)
    }

    /// Takes in an event and tells what to do next. The words of a merged fragment go to
    /// `word_batch`, where an output is connected.
    pub fn resume(
        &mut self,
        decoder: &mut ParallelDecoder,
        event: RunEvent,
        word_batch: &mut Option<Vec<Word>>,
    ) -> (action: RunAction)
        requires
            old(decoder).wf(),
            old(self)@.wf(old(decoder).mode),
            run_expects(old(self).stage, event),
            event_fits(old(decoder).mode, event),
            counters_fit(*old(decoder)),
            old(self).blocks.next_sequence < u64::MAX,
        ensures
            final(decoder).wf(),
            final(self)@.wf(final(decoder).mode),
            exists|bytes: usize|
                bytes_fit(event, bytes) && reached(
                    #[trigger] old(self)@.next(*old(decoder), event, bytes),
                    final(self)@,
                    *final(decoder),
                    action@,
                    *old(word_batch),
                    *final(word_batch),
                ),
    {
        let ghost before = self@;
        let ghost told = event;
        let action = match event {
            RunEvent::Called { workers, cs_connected } => self.call(
                decoder,
                workers,
                cs_connected,
                word_batch,
            ),
            RunEvent::Blocks { strobe, data, cs } => self.acquire(
                decoder,
                strobe,
                data,
                cs,
                word_batch,
            ),
            RunEvent::InputEnded => {
                self.stream.input_exhausted = true;
                self.settle(decoder, word_batch)
            },
            RunEvent::Gated(window) => self.hand_out(Ghost(*decoder), window),
            RunEvent::Dispatched => self.move_on(decoder, word_batch),
            RunEvent::PoolStopped => {
                self.stage = RunStage::Idle;
                RunAction::Fail(RunError::PoolStopped)
            },
            RunEvent::Completed(completion) => self.take_in(decoder, completion, word_batch),
            RunEvent::CompletionsClosed => {
                self.stage = RunStage::Idle;
                RunAction::Fail(RunError::CompletionsClosed)
            },
            RunEvent::Interrupted => {
                self.stage = RunStage::Idle;
                RunAction::Fail(RunError::Interrupted)
            },
        };
        proof {
            let bytes: usize = match told {
                RunEvent::Completed(completion) => choose|bytes: usize|
                    bytes_fit(told, bytes) && reached(
                        #[trigger] before.completing(*old(decoder), completion, bytes),
                        self@,
                        *decoder,
                        action@,
                        *old(word_batch),
                        *word_batch,
                    ),
                _ => 0,
            };
            let outcome = before.next(*old(decoder), told, bytes);
            assert(reached(outcome, self@, *decoder, action@, *old(word_batch), *word_batch));
            lemma_next_wf(before, *old(decoder), told, bytes);
        }
        action
    }
}

} // verus!
