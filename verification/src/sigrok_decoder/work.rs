//! The course of one call of a running decoder.

use vstd::prelude::*;

verus! {

/// What a call waits for.
#[derive(Debug, Clone, Copy, PartialEq, Eq, Structural)]
pub enum WorkStage {
    /// No call is under way.
    Idle,
    Joining,
    Acquiring,
    /// Input that counts as `units` is handed to the decoder.
    Pushing { units: usize },
    Finalizing,
    /// The decoder has ended.
    Finished,
}

/// What happened.
#[derive(Debug, Clone, Copy, PartialEq, Eq, Structural)]
pub enum WorkEvent {
    /// A call begins; `worker_finished` tells whether the decoder has ended on its own.
    Called { worker_finished: bool },
    /// The decoder's thread was joined.
    Joined,
    /// Input that counts as `units` arrived.
    Acquired { units: usize },
    /// The input has ended.
    InputEnded,
    /// The input was handed over, and `drained` outputs were sent.
    Pushed { drained: usize },
    /// The decoder was told to end, has ended, and `sent` outputs were sent.
    Finalized { sent: usize },
    /// The action failed.
    Failed,
}

/// How a call ends.
#[derive(Debug, Clone, Copy, PartialEq, Eq, Structural)]
pub enum WorkOutcome {
    Count(usize),
    Shutdown,
    /// The decoder ended before its input did.
    StoppedEarly,
    /// With the error of the action that failed.
    Failed,
}

/// What is to be done next.
#[derive(Debug, Clone, Copy, PartialEq, Eq, Structural)]
pub enum WorkAction {
    Join,
    Acquire,
    Push,
    Finalize,
    Return(WorkOutcome),
}

/// Whether an event can follow in a stage.
pub open spec fn work_expects(stage: WorkStage, event: WorkEvent) -> bool {
    match event {
        WorkEvent::Called { .. } => stage is Idle || stage is Finished,
        WorkEvent::Joined => stage is Joining,
        WorkEvent::Acquired { .. } => stage is Acquiring,
        WorkEvent::InputEnded => stage is Acquiring,
        WorkEvent::Pushed { drained } => stage matches WorkStage::Pushing { units } && units
            + drained <= usize::MAX,
        WorkEvent::Finalized { .. } => stage is Finalizing,
        WorkEvent::Failed => stage is Joining || stage is Acquiring || stage is Pushing
            || stage is Finalizing,
    }
}

/// Where an event leads, and what is to be done then.
pub open spec fn work_next(stage: WorkStage, event: WorkEvent) -> (WorkStage, WorkAction) {
    match event {
        WorkEvent::Called { worker_finished } => if stage is Finished {
            (stage, WorkAction::Return(WorkOutcome::Shutdown))
        } else if worker_finished {
            (WorkStage::Joining, WorkAction::Join)
        } else {
            (WorkStage::Acquiring, WorkAction::Acquire)
        },
        WorkEvent::Joined => (WorkStage::Finished, WorkAction::Return(WorkOutcome::StoppedEarly)),
        WorkEvent::Acquired { units } => (WorkStage::Pushing { units }, WorkAction::Push),
        WorkEvent::InputEnded => (WorkStage::Finalizing, WorkAction::Finalize),
        WorkEvent::Pushed { drained } => (
            WorkStage::Idle,
            WorkAction::Return(WorkOutcome::Count((stage->units + drained) as usize)),
        ),
        WorkEvent::Finalized { sent } => (
            WorkStage::Finished,
            WorkAction::Return(
                if sent == 0 {
                    WorkOutcome::Shutdown
                } else {
                    WorkOutcome::Count(sent)
                },
            ),
        ),
        WorkEvent::Failed => (WorkStage::Idle, WorkAction::Return(WorkOutcome::Failed)),
    }
}

/// Takes an event.
pub fn advance_work(stage: WorkStage, event: WorkEvent) -> (result: (WorkStage, WorkAction))
    requires
        work_expects(stage, event),
    ensures
        result == work_next(stage, event),
{
    match event {
        WorkEvent::Called { worker_finished } => match stage {
            WorkStage::Finished => (stage, WorkAction::Return(WorkOutcome::Shutdown)),
            _ => if worker_finished {
                (WorkStage::Joining, WorkAction::Join)
            } else {
                (WorkStage::Acquiring, WorkAction::Acquire)
            },
        },
        WorkEvent::Joined => (WorkStage::Finished, WorkAction::Return(WorkOutcome::StoppedEarly)),
        WorkEvent::Acquired { units } => (WorkStage::Pushing { units }, WorkAction::Push),
        WorkEvent::InputEnded => (WorkStage::Finalizing, WorkAction::Finalize),
        WorkEvent::Pushed { drained } => {
            let units: usize = match stage {
                WorkStage::Pushing { units } => units,
                _ => 0,
            };
            (WorkStage::Idle, WorkAction::Return(WorkOutcome::Count(units + drained)))
        },
        WorkEvent::Finalized { sent } => {
            let outcome: WorkOutcome = if sent == 0 {
                WorkOutcome::Shutdown
            } else {
                WorkOutcome::Count(sent)
            };
            (WorkStage::Finished, WorkAction::Return(outcome))
        },
        WorkEvent::Failed => (WorkStage::Idle, WorkAction::Return(WorkOutcome::Failed)),
    }
}

/// A decoder that has ended stays so: every later call is answered with the end.
pub proof fn law_ended_decoder_stays_ended(worker_finished: bool)
    ensures
        work_next(WorkStage::Finished, WorkEvent::Called { worker_finished }) == (
            WorkStage::Finished,
            WorkAction::Return(WorkOutcome::Shutdown),
        ),
{
}

} // verus!
