//! The course of a deterministic acquisition.

use vstd::prelude::*;

use super::live_acquisition::{
    chunk_bytes, is_chunk, total, AcquisitionError, AcquisitionErrorView, DeterministicFakeConfig,
    PackedChunk,
};
use super::trigger::{fresh_evaluator, search, searched, DeterministicTriggerEvaluator};
use crate::text::owned;

verus! {

/// What the pace of an acquisition depends on.
#[derive(Debug, Clone, Copy, PartialEq, Eq, Structural)]
pub struct FakeControlState {
    pub manual: bool,
    pub permits: usize,
    pub stop_requested: bool,
    pub abort_requested: bool,
    pub force_trigger_requested: bool,
}

/// Why an acquisition goes on.
#[derive(Clone, Copy, Debug, PartialEq, Eq, Structural)]
pub enum FakeWake {
    Chunk,
    Stop,
    ForceTrigger,
}

impl FakeControlState {
    /// A control that lets every chunk pass, or waits for a permit before each.
    pub fn new(manual: bool) -> (result: Self)
        ensures
            result == (FakeControlState {
                manual,
                permits: 0,
                stop_requested: false,
                abort_requested: false,
                force_trigger_requested: false,
            }),
    {
        FakeControlState {
            manual,
            permits: 0,
            stop_requested: false,
            abort_requested: false,
            force_trigger_requested: false,
        }
    }

    /// Whether the acquisition has to wait.
    pub open spec fn waits(self) -> bool {
        self.manual && self.permits == 0 && !self.stop_requested && !self.abort_requested
            && !self.force_trigger_requested
    }

    /// Why the acquisition goes on, and what that uses up. Stopping comes first, a forced trigger
    /// is served once, a chunk uses up a permit.
    pub fn wait_for_chunk(&mut self) -> (result: Option<FakeWake>)
        ensures
            if old(self).waits() {
                result is None && *final(self) == *old(self)
            } else if old(self).stop_requested || old(self).abort_requested {
                result == Some(FakeWake::Stop) && *final(self) == *old(self)
            } else if old(self).force_trigger_requested {
                result == Some(FakeWake::ForceTrigger) && *final(self) == (FakeControlState {
                    force_trigger_requested: false,
                    ..*old(self)
                })
            } else {
                result == Some(FakeWake::Chunk) && *final(self) == (FakeControlState {
                    permits: if old(self).manual {
                        (old(self).permits - 1) as usize
                    } else {
                        old(self).permits
                    },
                    ..*old(self)
                })
            },
    {
        if self.manual && self.permits == 0 && !self.stop_requested && !self.abort_requested
            && !self.force_trigger_requested {
            return None;
        }
        if self.stop_requested || self.abort_requested {
            return Some(FakeWake::Stop);
        }
        if self.force_trigger_requested {
            self.force_trigger_requested = false;
            return Some(FakeWake::ForceTrigger);
        }
        if self.manual {
            self.permits = self.permits - 1;
        }
        Some(FakeWake::Chunk)
    }

    /// Permits more chunks.
    pub fn grant(&mut self, chunks: usize)
        ensures
            *final(self) == (FakeControlState {
                permits: if old(self).permits + chunks > usize::MAX {
                    usize::MAX
                } else {
                    (old(self).permits + chunks) as usize
                },
                ..*old(self)
            }),
    {
        self.permits = match self.permits.checked_add(chunks) {
            Some(permits) => permits,
            None => usize::MAX,
        };
    }

    pub fn request_stop(&mut self)
        ensures
            *final(self) == (FakeControlState { stop_requested: true, ..*old(self) }),
    {
        self.stop_requested = true;
    }

    pub fn request_abort(&mut self)
        ensures
            *final(self) == (FakeControlState { abort_requested: true, ..*old(self) }),
    {
        self.abort_requested = true;
    }

    pub fn request_force_trigger(&mut self)
        ensures
            *final(self) == (FakeControlState { force_trigger_requested: true, ..*old(self) }),
    {
        self.force_trigger_requested = true;
    }

    pub fn was_aborted(&self) -> (result: bool)
        ensures
            result == self.abort_requested,
    {
        self.abort_requested
    }
}

/// Paces an acquisition by hand.
#[derive(Debug)]
pub struct DeterministicFakeController {
    pub control: FakeControlState,
}

impl DeterministicFakeController {
    /// Permits more chunks.
    pub fn grant_chunks(&mut self, chunks: usize)
        ensures
            final(self).control == (FakeControlState {
                permits: if old(self).control.permits + chunks > usize::MAX {
                    usize::MAX
                } else {
                    (old(self).control.permits + chunks) as usize
                },
                ..old(self).control
            }),
    {
        self.control.grant(chunks)
    }
}

/// The state of a capture session.
#[derive(Clone, Copy, Debug, PartialEq, Eq, Structural)]
pub enum CaptureSessionState {
    Preparing,
    Prepared,
    Armed,
    Triggered,
    Recording,
    Stopping,
    Complete,
}

/// The phase of an acquisition.
#[derive(Clone, Copy, Debug, PartialEq, Eq, Structural)]
pub enum CaptureAcquisitionPhase {
    Preparing,
    Ready,
    WaitingForTrigger,
    ReceivingLiveData,
    Finalizing,
}

/// How an acquisition ended.
#[derive(Clone, Copy, Debug, PartialEq, Eq, Structural)]
pub enum CaptureCompletion {
    Finished,
    Stopped,
    CancelledBeforeTrigger,
    Aborted,
}

/// Something an acquisition makes known.
#[derive(Clone, Copy, Debug, PartialEq, Eq, Structural)]
pub enum Notice {
    Status(CaptureSessionState, CaptureAcquisitionPhase),
    Triggered(u64),
    Progress { captured_samples: u64, transferred_bytes: u64 },
}

/// What an acquisition comes to.
#[derive(Clone, Copy, Debug, PartialEq, Eq, Structural)]
pub struct AcquisitionOutcome {
    pub captured_samples: u64,
    pub chunk_count: u64,
    pub stopped: bool,
    pub completion: CaptureCompletion,
}

/// Tells that an acquisition is being prepared, and then that it is.
pub fn preparing_notices() -> (result: Vec<Notice>)
    ensures
        result@ == seq![
            Notice::Status(CaptureSessionState::Preparing, CaptureAcquisitionPhase::Preparing),
            Notice::Status(CaptureSessionState::Prepared, CaptureAcquisitionPhase::Ready),
        ],
{
    vec![
        Notice::Status(CaptureSessionState::Preparing, CaptureAcquisitionPhase::Preparing),
        Notice::Status(CaptureSessionState::Prepared, CaptureAcquisitionPhase::Ready),
    ]
}

/// Tells that an acquisition ends, and then that it is complete.
pub fn closing_notices() -> (result: Vec<Notice>)
    ensures
        result@ == seq![
            Notice::Status(CaptureSessionState::Stopping, CaptureAcquisitionPhase::Finalizing),
            Notice::Status(CaptureSessionState::Complete, CaptureAcquisitionPhase::Finalizing),
        ],
{
    vec![
        Notice::Status(CaptureSessionState::Stopping, CaptureAcquisitionPhase::Finalizing),
        Notice::Status(CaptureSessionState::Complete, CaptureAcquisitionPhase::Finalizing),
    ]
}

/// The two notices that follow a trigger.
pub open spec fn trigger_notices(sample: u64) -> Seq<Notice> {
    seq![
        Notice::Triggered(sample),
        Notice::Status(
            CaptureSessionState::Triggered,
            CaptureAcquisitionPhase::ReceivingLiveData,
        ),
        Notice::Status(
            CaptureSessionState::Recording,
            CaptureAcquisitionPhase::ReceivingLiveData,
        ),
    ]
}

fn push_trigger(notices: &mut Vec<Notice>, sample: u64)
    ensures
        final(notices)@ == old(notices)@ + trigger_notices(sample),
{
    let ghost before = notices@;
    notices.push(Notice::Triggered(sample));
    notices.push(
        Notice::Status(CaptureSessionState::Triggered, CaptureAcquisitionPhase::ReceivingLiveData),
    );
    notices.push(
        Notice::Status(CaptureSessionState::Recording, CaptureAcquisitionPhase::ReceivingLiveData),
    );
    assert(notices@ =~= before + trigger_notices(sample));
}

/// A deterministic acquisition under way.
#[derive(Debug, Clone, Copy, PartialEq, Eq, Structural)]
pub struct FakeRun {
    pub triggered: bool,
    pub captured_samples: u64,
    pub transferred_bytes: u64,
    pub chunk_count: u64,
    pub stopped: bool,
    pub evaluator: DeterministicTriggerEvaluator,
}

/// What follows a wake-up.
#[derive(Debug)]
pub enum RunStep {
    /// Publish the notices and wait again.
    Notices(Vec<Notice>),
    /// Append the chunk, publish the notices, then go on.
    Chunk(PackedChunk, Vec<Notice>),
    /// Finish the acquisition.
    Finish,
}

impl FakeRun {
    /// An acquisition that has handed out the first chunks of its settings and no more; one that
    /// was stopped has chunks left.
    pub open spec fn wf(self, config: DeterministicFakeConfig) -> bool {
        &&& config.wf()
        &&& self.chunk_count <= config.chunk_sample_counts@.len()
        &&& self.captured_samples == total(config.chunk_sample_counts@, self.chunk_count as nat)
        &&& self.stopped ==> self.chunk_count < config.chunk_sample_counts@.len()
    }

    /// Starts an acquisition: armed where it has a trigger, recording where it has none.
    pub fn begin(config: &DeterministicFakeConfig) -> (result: (FakeRun, Notice))
        requires
            config.wf(),
        ensures
            result.0.wf(*config),
            result.0 == (FakeRun {
                triggered: config.trigger is None,
                captured_samples: 0,
                transferred_bytes: 0,
                chunk_count: 0,
                stopped: false,
                evaluator: fresh_evaluator(),
            }),
            result.1 == if config.trigger is None {
                Notice::Status(
                    CaptureSessionState::Recording,
                    CaptureAcquisitionPhase::ReceivingLiveData,
                )
            } else {
                Notice::Status(
                    CaptureSessionState::Armed,
                    CaptureAcquisitionPhase::WaitingForTrigger,
                )
            },
    {
        let triggered: bool = !config.has_trigger();
        let run = FakeRun {
            triggered,
            captured_samples: 0,
            transferred_bytes: 0,
            chunk_count: 0,
            stopped: false,
            evaluator: DeterministicTriggerEvaluator {
                stage: 0,
                matched_count: 0,
                previous_stage_match: false,
            },
        };
        let notice: Notice = if triggered {
            Notice::Status(
                CaptureSessionState::Recording,
                CaptureAcquisitionPhase::ReceivingLiveData,
            )
        } else {
            Notice::Status(CaptureSessionState::Armed, CaptureAcquisitionPhase::WaitingForTrigger)
        };
        (run, notice)
    }

    /// Whether all chunks are handed out.
    pub fn is_complete(&self, config: &DeterministicFakeConfig) -> (result: bool)
        ensures
            result == (self.chunk_count >= config.chunk_sample_counts@.len()),
    {
        self.chunk_count >= config.chunk_sample_counts.len() as u64
    }

    /// Samples of the next chunk.
    pub open spec fn next_samples(self, config: DeterministicFakeConfig) -> u64 {
        config.chunk_sample_counts@[self.chunk_count as int]
    }

    /// The sample at which the next chunk triggers, and the progress behind it.
    pub open spec fn next_trigger(self, config: DeterministicFakeConfig) -> (
        Option<int>,
        DeterministicTriggerEvaluator,
    ) {
        if self.triggered || config.trigger is None {
            (None, self.evaluator)
        } else {
            searched(
                self.evaluator,
                config.trigger->0,
                config.seed,
                self.captured_samples as int,
                self.captured_samples + self.next_samples(config),
            )
        }
    }

    /// What a wake-up makes of an acquisition that still has chunks to hand out.
    pub open spec fn woken(
        self,
        config: DeterministicFakeConfig,
        wake: FakeWake,
        after: FakeRun,
        result: Result<RunStep, AcquisitionError>,
    ) -> bool {
        match wake {
            FakeWake::Stop => after == (FakeRun { stopped: true, ..self }) && result == Ok::<
                _,
                AcquisitionError,
            >(RunStep::Finish),
            FakeWake::ForceTrigger => {
                &&& after == (FakeRun { triggered: true, ..self })
                &&& result matches Ok(RunStep::Notices(notices)) && notices@ == if self.triggered {
                    Seq::empty()
                } else {
                    trigger_notices(self.captured_samples)
                }
            },
            FakeWake::Chunk => {
                let samples = self.next_samples(config);
                let bytes = chunk_bytes(
                    self.chunk_count as int,
                    samples as int,
                    config.channels@.len() as int,
                );
                let (found, evaluator) = self.next_trigger(config);
                match result {
                    Ok(RunStep::Chunk(chunk, notices)) => {
                        &&& after == (FakeRun {
                            triggered: self.triggered || found is Some,
                            captured_samples: (self.captured_samples + samples) as u64,
                            transferred_bytes: (self.transferred_bytes + bytes) as u64,
                            chunk_count: (self.chunk_count + 1) as u64,
                            stopped: self.stopped,
                            evaluator,
                        })
                        &&& self.transferred_bytes + bytes <= u64::MAX
                        &&& is_chunk(
                            chunk,
                            config.seed,
                            config.channels@.len() as int,
                            self.chunk_count as int,
                            self.captured_samples as int,
                            samples as int,
                        )
                        &&& notices@ == (match found {
                            Some(sample) => trigger_notices(sample as u64),
                            None => Seq::empty(),
                        }).push(
                            Notice::Progress {
                                captured_samples: after.captured_samples,
                                transferred_bytes: after.transferred_bytes,
                            },
                        )
                    },
                    Err(error) => {
                        ||| 8 * bytes > usize::MAX && error@ == AcquisitionErrorView::Internal(
                            "fake payload is too large"@,
                        )
                        ||| self.transferred_bytes + bytes > u64::MAX && error@
                            == AcquisitionErrorView::Internal("byte count overflow"@)
                    },
                    Ok(_) => false,
                }
            },
        }
    }

    /// Goes on after a wake-up.
    pub fn wake(&mut self, config: &DeterministicFakeConfig, wake: FakeWake) -> (result: Result<
        RunStep,
        AcquisitionError,
    >)
        requires
            old(self).wf(*config),
            !old(self).stopped,
            old(self).chunk_count < config.chunk_sample_counts@.len(),
            3 * config.chunk_sample_counts@.len() <= u64::MAX,
        ensures
            old(self).woken(*config, wake, *final(self), result),
            result is Ok ==> final(self).wf(*config),
    {
        match wake {
            FakeWake::Stop => {
                self.stopped = true;
                Ok(RunStep::Finish)
            },
            FakeWake::ForceTrigger => {
                let mut notices: Vec<Notice> = Vec::new();
                assert(notices@ =~= Seq::<Notice>::empty());
                assert(Seq::<Notice>::empty() + trigger_notices(self.captured_samples)
                    =~= trigger_notices(self.captured_samples));
                if !self.triggered {
                    push_trigger(&mut notices, self.captured_samples);
                    self.triggered = true;
                }
                Ok(RunStep::Notices(notices))
            },
            FakeWake::Chunk => {
                let chunks: usize = config.chunk_sample_counts.len();
                assert(self.chunk_count < chunks);
                let samples: u64 = config.chunk_sample_counts[self.chunk_count as usize];
                proof {
                    lemma_within(config.chunk_sample_counts@, self.chunk_count as nat);
                }
                let chunk: PackedChunk = match config.build_chunk(
                    self.chunk_count,
                    self.captured_samples,
                    samples,
                ) {
                    Ok(chunk) => chunk,
                    Err(error) => return Err(error),
                };
                let mut evaluator: DeterministicTriggerEvaluator = self.evaluator;
                let mut found: Option<u64> = None;
                if !self.triggered {
                    match &config.trigger {
                        Some(trigger) => {
                            found =
                            search(
                                &mut evaluator,
                                trigger,
                                config.seed,
                                self.captured_samples,
                                self.captured_samples + samples,
                            );
                        },
                        None => {},
                    }
                }
                let transferred: u64 = match self.transferred_bytes.checked_add(
                    chunk.data.len() as u64,
                ) {
                    Some(bytes) => bytes,
                    None => {
                        return Err(AcquisitionError::Internal(owned("byte count overflow")));
                    },
                };
                let mut notices: Vec<Notice> = Vec::new();
                assert(notices@ =~= Seq::<Notice>::empty());
                match found {
                    Some(sample) => {
                        assert(Seq::<Notice>::empty() + trigger_notices(sample)
                            =~= trigger_notices(sample));
                        push_trigger(&mut notices, sample);
                        self.triggered = true;
                    },
                    None => {},
                }
                self.evaluator = evaluator;
                self.transferred_bytes = transferred;
                self.captured_samples = self.captured_samples + samples;
                self.chunk_count = self.chunk_count + 1;
                notices.push(
                    Notice::Progress {
                        captured_samples: self.captured_samples,
                        transferred_bytes: self.transferred_bytes,
                    },
                );
                Ok(RunStep::Chunk(chunk, notices))
            },
        }
    }

    /// What the acquisition has come to.
    pub fn finish(&self, config: &DeterministicFakeConfig, aborted: bool) -> (result: AcquisitionOutcome)
        ensures
            result == (AcquisitionOutcome {
                captured_samples: self.captured_samples,
                chunk_count: self.chunk_count,
                stopped: self.stopped,
                completion: if aborted {
                    CaptureCompletion::Aborted
                } else if self.stopped && config.trigger is Some && !self.triggered {
                    CaptureCompletion::CancelledBeforeTrigger
                } else if self.stopped {
                    CaptureCompletion::Stopped
                } else {
                    CaptureCompletion::Finished
                },
            }),
    {
        let completion: CaptureCompletion = if aborted {
            CaptureCompletion::Aborted
        } else if self.stopped && config.has_trigger() && !self.triggered {
            CaptureCompletion::CancelledBeforeTrigger
        } else if self.stopped {
            CaptureCompletion::Stopped
        } else {
            CaptureCompletion::Finished
        };
        AcquisitionOutcome {
            captured_samples: self.captured_samples,
            chunk_count: self.chunk_count,
            stopped: self.stopped,
            completion,
        }
    }
}

proof fn lemma_within(counts: Seq<u64>, at: nat)
    requires
        at < counts.len(),
    ensures
        total(counts, (at + 1) as nat) <= total(counts, counts.len()),
    decreases counts.len() - at,
{
    if at + 1 < counts.len() {
        lemma_within(counts, (at + 1) as nat);
    }
}

/// A chunk never splits a trigger: the sample announced while the chunks are handed out one by
/// one is the first trigger sample of the whole acquisition, whatever the chunk sizes.
pub proof fn law_announced_trigger_is_the_first(
    before: FakeRun,
    config: DeterministicFakeConfig,
    end: int,
)
    requires
        before.wf(config),
        !before.triggered,
        config.trigger is Some,
        before.chunk_count < config.chunk_sample_counts@.len(),
        before.captured_samples + before.next_samples(config) <= end,
        searched(fresh_evaluator(), config.trigger->0, config.seed, 0, end) == searched(
            before.evaluator,
            config.trigger->0,
            config.seed,
            before.captured_samples as int,
            end,
        ),
    ensures
        ({
            let (found, evaluator) = before.next_trigger(config);
            let middle = before.captured_samples + before.next_samples(config);
            &&& found is Some ==> searched(
                fresh_evaluator(),
                config.trigger->0,
                config.seed,
                0,
                end,
            ).0 == found
            &&& found is None ==> searched(
                fresh_evaluator(),
                config.trigger->0,
                config.seed,
                0,
                end,
            ) == searched(evaluator, config.trigger->0, config.seed, middle, end)
        }),
{
    super::trigger::law_search_continues_across_chunks(
        before.evaluator,
        config.trigger->0,
        config.seed,
        before.captured_samples as int,
        before.captured_samples + before.next_samples(config),
        end,
    );
}

} // verus!
