//! The course of a capture that feeds a source: configure, start, take chunks, stop.

use vstd::prelude::*;

use super::chunk::{LogicChunk, LogicEncoding};
use super::demux::{chunk_error, Demux, DemuxOutput};
use super::error::{ErrorView, LogicAnalyzerError};
use crate::streams::Sample;

verus! {

/// What a source waits for.
#[derive(Debug)]
pub enum SourceStage {
    Configuring,
    Starting,
    Capturing(Demux),
    Stopping(Demux),
    Finished,
}

/// How an action of the analyzer ended.
pub enum SourceReply<'a> {
    /// The settings were applied.
    Configured(Result<(), LogicAnalyzerError>),
    /// The capture was started, at this rate.
    Started(Result<u64, LogicAnalyzerError>),
    /// The next chunk; none where the capture has ended.
    Fetched(Result<Option<&'a LogicChunk>, LogicAnalyzerError>),
    /// The source is to end; no chunk was taken.
    ShutDown,
    /// The capture was stopped.
    Stopped(Result<(), LogicAnalyzerError>),
}

/// What the analyzer is to do next.
#[derive(Debug)]
pub enum SourceAction {
    Start,
    Fetch,
    Stop,
    /// Nothing: the source ends, with the closing sample of each channel.
    Done(Result<Vec<Option<Sample>>, LogicAnalyzerError>),
}

/// What a reply leads to.
#[derive(Debug)]
pub struct SourceStep {
    /// Whether the chunk is handed on as it is.
    pub raw: bool,
    /// What the chunk adds to each channel.
    pub output: Option<DemuxOutput>,
    pub action: SourceAction,
}

impl SourceStep {
    /// A step that hands nothing on.
    pub open spec fn quiet(self) -> bool {
        !self.raw && self.output is None
    }

    /// A step that ends the source with an error.
    pub open spec fn ends_with(self, error: ErrorView) -> bool {
        &&& self.action matches SourceAction::Done(Err(reason))
        &&& reason@ == error
    }
}

/// Whether a source waits for a reply.
pub open spec fn source_expects(stage: SourceStage, reply: SourceReply<'_>) -> bool {
    match reply {
        SourceReply::Configured(_) => stage is Configuring,
        SourceReply::Started(_) => stage is Starting,
        SourceReply::Fetched(_) => stage is Capturing,
        SourceReply::ShutDown => stage is Capturing,
        SourceReply::Stopped(_) => stage is Stopping,
    }
}

/// What a chunk leads to: an empty one to nothing, an encoded one to itself, and any other to
/// itself and to what it adds to the channels.
pub open spec fn chunk_taken(
    demux: Demux,
    chunk: LogicChunk,
    after: SourceStage,
    step: SourceStep,
) -> bool {
    if chunk.bit_len == 0 {
        &&& after == SourceStage::Capturing(demux)
        &&& step.quiet()
        &&& step.action is Fetch
    } else if chunk.encoding is Opaque {
        &&& after == SourceStage::Capturing(demux)
        &&& step.raw
        &&& step.output is None
        &&& step.action is Fetch
    } else {
        match chunk_error(demux, chunk) {
            Some(error) => {
                &&& after is Finished
                &&& step.raw
                &&& step.output is None
                &&& step.ends_with(error)
            },
            None => {
                &&& after is Capturing
                &&& step.raw
                &&& step.output is Some
                &&& demux.advanced(chunk, after->Capturing_0, step.output->0)
                &&& step.action is Fetch
            },
        }
    }
}

/// What a reply makes of a source of some channels.
pub open spec fn source_stepped(
    channels: usize,
    before: SourceStage,
    reply: SourceReply<'_>,
    after: SourceStage,
    step: SourceStep,
) -> bool {
    match reply {
        SourceReply::Configured(Ok(_)) => after is Starting && step.quiet()
            && step.action is Start,
        SourceReply::Configured(Err(error)) => after is Finished && step.quiet()
            && step.ends_with(error@),
        SourceReply::Started(Ok(rate)) => if rate == 0 {
            after is Finished && step.quiet() && step.ends_with(
                ErrorView::Protocol("driver reported a zero sample rate"@),
            )
        } else {
            &&& after matches SourceStage::Capturing(demux)
            &&& demux.fresh(channels, rate)
            &&& step.quiet()
            &&& step.action is Fetch
        },
        SourceReply::Started(Err(error)) => after is Finished && step.quiet() && step.ends_with(
            error@,
        ),
        SourceReply::Fetched(Ok(Some(chunk))) => chunk_taken(
            before->Capturing_0,
            *chunk,
            after,
            step,
        ),
        SourceReply::Fetched(Ok(None)) => after == SourceStage::Stopping(before->Capturing_0)
            && step.quiet() && step.action is Stop,
        SourceReply::Fetched(Err(error)) => after is Finished && step.quiet() && step.ends_with(
            error@,
        ),
        SourceReply::ShutDown => after == SourceStage::Stopping(before->Capturing_0)
            && step.quiet() && step.action is Stop,
        SourceReply::Stopped(Ok(_)) => {
            &&& after is Finished
            &&& step.quiet()
            &&& step.action matches SourceAction::Done(Ok(closing))
            &&& closing@ == before->Stopping_0.closing()
        },
        SourceReply::Stopped(Err(error)) => after is Finished && step.quiet() && step.ends_with(
            error@,
        ),
    }
}

/// A source ends without an error only once its analyzer has stopped the capture.
pub proof fn law_success_means_stopped(
    channels: usize,
    before: SourceStage,
    reply: SourceReply<'_>,
    after: SourceStage,
    step: SourceStep,
)
    requires
        source_expects(before, reply),
        source_stepped(channels, before, reply, after, step),
        step.action matches SourceAction::Done(Ok(_)),
    ensures
        before is Stopping,
        after is Finished,
        reply matches SourceReply::Stopped(Ok(_)),
{
}

/// The error that a reply brings.
pub open spec fn reply_error(reply: SourceReply<'_>) -> Option<ErrorView> {
    match reply {
        SourceReply::Configured(Err(error)) => Some(error@),
        SourceReply::Started(Err(error)) => Some(error@),
        SourceReply::Fetched(Err(error)) => Some(error@),
        SourceReply::Stopped(Err(error)) => Some(error@),
        _ => None,
    }
}

/// An error of the analyzer ends the source with that error, and nothing is handed on.
pub proof fn law_errors_end_the_source(
    channels: usize,
    before: SourceStage,
    reply: SourceReply<'_>,
    after: SourceStage,
    step: SourceStep,
)
    requires
        source_expects(before, reply),
        source_stepped(channels, before, reply, after, step),
        reply_error(reply) is Some,
    ensures
        after is Finished,
        step.action matches SourceAction::Done(Err(reason)) && reason@ == reply_error(reply)->0,
        !step.raw,
        step.output is None,
{
}

/// A source waits for the reply to the action that it asked for.
pub proof fn law_source_waits_for_its_action(
    channels: usize,
    before: SourceStage,
    reply: SourceReply<'_>,
    after: SourceStage,
    step: SourceStep,
)
    requires
        source_expects(before, reply),
        source_stepped(channels, before, reply, after, step),
    ensures
        step.action is Start <==> after is Starting,
        step.action is Fetch <==> after is Capturing,
        step.action is Stop <==> after is Stopping,
        step.action is Done <==> after is Finished,
        step.action is Start ==> before is Configuring,
        step.action is Stop ==> before is Capturing && (reply is ShutDown || reply matches
            SourceReply::Fetched(Ok(None))),
{
}

/// Every chunk with samples is handed on as it is, and nothing else is. Only a chunk whose samples
/// can be read adds to the channels, and an empty or encoded one leaves the channels alone.
pub proof fn law_chunks_are_handed_on(
    channels: usize,
    before: SourceStage,
    reply: SourceReply<'_>,
    after: SourceStage,
    step: SourceStep,
)
    requires
        source_expects(before, reply),
        source_stepped(channels, before, reply, after, step),
    ensures
        step.raw <==> (reply matches SourceReply::Fetched(Ok(Some(chunk))) && chunk.bit_len > 0),
        step.output is Some ==> (reply matches SourceReply::Fetched(Ok(Some(chunk)))
            && chunk.bit_len > 0 && !(chunk.encoding is Opaque)),
        (reply matches SourceReply::Fetched(Ok(Some(chunk))) && (chunk.bit_len == 0
            || chunk.encoding is Opaque)) ==> after == before,
        reply is ShutDown ==> after is Stopping && after->Stopping_0 == before->Capturing_0,
{
}

/// A source over a capture.
#[derive(Debug)]
pub struct SourceRun {
    pub channels: usize,
    pub stage: SourceStage,
}

fn quiet_step(action: SourceAction) -> (step: SourceStep)
    ensures
        step.quiet(),
        step.action == action,
{
    SourceStep { raw: false, output: None, action }
}

fn failed_step(error: LogicAnalyzerError) -> (step: SourceStep)
    ensures
        step.quiet(),
        step.ends_with(error@),
{
    quiet_step(SourceAction::Done(Err(error)))
}

impl SourceRun {
    /// The separator of a running capture is well formed.
    pub open spec fn wf(self) -> bool {
        match self.stage {
            SourceStage::Capturing(demux) => demux.wf() && demux.channels == self.channels,
            SourceStage::Stopping(demux) => demux.wf() && demux.channels == self.channels,
            _ => true,
        }
    }

    /// A source whose analyzer is to be configured first.
    pub fn new(channels: usize) -> (result: SourceRun)
        ensures
            result.wf(),
            result.channels == channels,
            result.stage is Configuring,
    {
        SourceRun { channels, stage: SourceStage::Configuring }
    }

    /// Takes the reply to the last action.
    pub fn resume(&mut self, reply: SourceReply<'_>) -> (step: SourceStep)
        requires
            old(self).wf(),
            source_expects(old(self).stage, reply),
        ensures
            final(self).wf(),
            final(self).channels == old(self).channels,
            source_stepped(old(self).channels, old(self).stage, reply, final(self).stage, step),
    {
        let mut stage: SourceStage = SourceStage::Finished;
        std::mem::swap(&mut stage, &mut self.stage);
        match reply {
            SourceReply::Configured(Ok(_)) => {
                self.stage = SourceStage::Starting;
                quiet_step(SourceAction::Start)
            },
            SourceReply::Started(Ok(rate)) => match Demux::new(self.channels, rate) {
                Ok(demux) => {
                    self.stage = SourceStage::Capturing(demux);
                    quiet_step(SourceAction::Fetch)
                },
                Err(error) => failed_step(error),
            },
            SourceReply::Fetched(Ok(Some(chunk))) => match stage {
                SourceStage::Capturing(demux) => self.take_chunk(demux, chunk),
                _ => quiet_step(SourceAction::Stop),
            },
            SourceReply::Fetched(Ok(None)) | SourceReply::ShutDown => match stage {
                SourceStage::Capturing(demux) => {
                    self.stage = SourceStage::Stopping(demux);
                    quiet_step(SourceAction::Stop)
                },
                _ => quiet_step(SourceAction::Stop),
            },
            SourceReply::Stopped(Ok(_)) => match stage {
                SourceStage::Stopping(demux) => quiet_step(SourceAction::Done(Ok(demux.finish()))),
                _ => quiet_step(SourceAction::Stop),
            },
            SourceReply::Configured(Err(error)) => failed_step(error),
            SourceReply::Started(Err(error)) => failed_step(error),
            SourceReply::Fetched(Err(error)) => failed_step(error),
            SourceReply::Stopped(Err(error)) => failed_step(error),
        }
    }

    fn take_chunk(&mut self, demux: Demux, chunk: &LogicChunk) -> (step: SourceStep)
        requires
            demux.wf(),
            demux.channels == old(self).channels,
            old(self).stage is Finished,
        ensures
            final(self).wf(),
            final(self).channels == old(self).channels,
            chunk_taken(demux, *chunk, final(self).stage, step),
    {
        if chunk.bit_len == 0 {
            self.stage = SourceStage::Capturing(demux);
            return quiet_step(SourceAction::Fetch);
        }
        match chunk.encoding {
            LogicEncoding::Opaque => {
                self.stage = SourceStage::Capturing(demux);
                SourceStep { raw: true, output: None, action: SourceAction::Fetch }
            },
            LogicEncoding::InterleavedLsbFirst => {
                let mut demux = demux;
                match demux.push(chunk) {
                    Ok(output) => {
                        self.stage = SourceStage::Capturing(demux);
                        SourceStep { raw: true, output: Some(output), action: SourceAction::Fetch }
                    },
                    Err(error) => SourceStep {
                        raw: true,
                        output: None,
                        action: SourceAction::Done(Err(error)),
                    },
                }
            },
        }
    }
}

} // verus!
