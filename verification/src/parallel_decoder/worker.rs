//! Ordered completion of fragments that are scanned concurrently, and its counters.

use std::collections::BTreeMap;

use vstd::prelude::*;

use crate::parallel_decoder::types::{DecodeFragment, DecodeFragmentBuffers};

verus! {

/// Product that stops at `usize::MAX`.
pub open spec fn saturated(value: int) -> int {
    if value > usize::MAX {
        usize::MAX as int
    } else {
        value
    }
}

/// Product that stops at `usize::MAX` instead of overflowing.
pub fn saturating_mul_usize(x: usize, y: usize) -> (result: usize)
    ensures
        result == saturated(x * y),
{
    match x.checked_mul(y) {
        Some(product) => product,
        None => usize::MAX,
    }
}

/// Counters of the concurrent scan.
#[derive(Clone, Copy, Debug, PartialEq, Eq, Structural)]
pub struct ParallelDecoderMetrics {
    pub workers: usize,
    pub max_outstanding: usize,
    pub max_reorder: usize,
    pub max_fragment_bytes: usize,
}

/// The counters as reported.
#[derive(Clone, Copy, Debug, PartialEq, Eq, Structural)]
pub struct ParallelDecoderMetricsSnapshot {
    pub workers: usize,
    pub max_outstanding: usize,
    pub max_reorder: usize,
    pub estimated_fragment_bytes: usize,
}

impl Default for ParallelDecoderMetrics {
    fn default() -> (result: Self)
        ensures
            result == (ParallelDecoderMetrics {
                workers: 1,
                max_outstanding: 0,
                max_reorder: 0,
                max_fragment_bytes: 0,
            }),
    {
        ParallelDecoderMetrics {
            workers: 1,
            max_outstanding: 0,
            max_reorder: 0,
            max_fragment_bytes: 0,
        }
    }
}

/// The larger of two numbers.
pub open spec fn larger(x: usize, y: usize) -> usize {
    if x < y {
        y
    } else {
        x
    }
}

fn raise(counter: usize, value: usize) -> (result: usize)
    ensures
        result == larger(counter, value),
{
    if counter < value {
        value
    } else {
        counter
    }
}

impl ParallelDecoderMetrics {
    /// Reports the counters. The memory estimate is the largest number of outstanding fragments
    /// times the largest fragment seen.
    pub fn snapshot(&self) -> (result: ParallelDecoderMetricsSnapshot)
        ensures
            result == (ParallelDecoderMetricsSnapshot {
                workers: self.workers,
                max_outstanding: self.max_outstanding,
                max_reorder: self.max_reorder,
                estimated_fragment_bytes: saturated(
                    self.max_outstanding * self.max_fragment_bytes,
                ) as usize,
            }),
    {
        ParallelDecoderMetricsSnapshot {
            workers: self.workers,
            max_outstanding: self.max_outstanding,
            max_reorder: self.max_reorder,
            estimated_fragment_bytes: saturating_mul_usize(
                self.max_outstanding,
                self.max_fragment_bytes,
            ),
        }
    }
}

/// Number of workers that a decoder gets of those that the pool has; the counters keep it.
pub fn platform_effective_workers(
    requested: usize,
    pool_workers: usize,
    metrics: &mut ParallelDecoderMetrics,
) -> (workers: usize)
    ensures
        workers == if requested < pool_workers {
            requested
        } else {
            pool_workers
        },
        *final(metrics) == (ParallelDecoderMetrics { workers, ..*old(metrics) }),
{
    let workers: usize = if requested < pool_workers {
        requested
    } else {
        pool_workers
    };
    metrics.workers = workers;
    workers
}

/// Bytes that buffers with the given capacities take: eight for each position and each value, one
/// bit for each flag.
pub open spec fn capacity_bytes(positions: int, values: int, flags: int) -> int {
    saturated(saturated(saturated(positions * 8) + saturated(values * 8)) + (flags + 7) / 8)
}

/// Bytes that buffers with the given capacities take.
pub fn buffer_bytes(positions: usize, values: usize, flags: usize) -> (result: usize)
    ensures
        result == capacity_bytes(positions as int, values as int, flags as int),
{
    let flag_bytes: usize = if flags % 8 == 0 {
        flags / 8
    } else {
        flags / 8 + 1
    };
    saturating_mul_usize(positions, 8).saturating_add(
        saturating_mul_usize(values, 8),
    ).saturating_add(flag_bytes)
}

/// Number of items that a vector can hold before it grows.
///
/// Trusted: `Vec::capacity` is never less than the number of items held. Which number it is
/// beyond that is up to the allocator and is not stated.
#[verifier::external_body]
fn vec_capacity<T>(items: &Vec<T>) -> (result: usize)
    ensures
        result >= items@.len(),
{
    items.capacity()
}

/// Bytes that the buffers of a fragment have allocated, at least those that its triggers take.
pub fn fragment_buffer_bytes(buffers: &DecodeFragmentBuffers) -> (result: usize)
    requires
        buffers.wf(),
    ensures
        result >= capacity_bytes(
            buffers@.len() as int,
            buffers@.len() as int,
            buffers@.len() as int,
        ),
{
    let positions: usize = vec_capacity(&buffers.positions);
    let values: usize = vec_capacity(&buffers.values);
    let flags: usize = vec_capacity(&buffers.reset_before);
    buffer_bytes(positions, values, flags)
}

/// Outcome of one concurrent scan.
pub enum FragmentCompletion {
    Complete(DecodeFragment),
    /// The scan with this sequence number did not finish.
    Panicked(u64),
}

/// What to do after a completion came in.
pub enum CompletionStep {
    /// The expected fragment is here.
    Ready(DecodeFragment),
    /// A later fragment came; it is kept.
    Stored,
    /// The scan with this sequence number did not finish.
    Failed(u64),
}

/// What to do when the expected fragment is not among those kept.
#[derive(Debug, Clone, Copy, PartialEq, Eq, Structural)]
pub enum OutstandingWork {
    /// Wait for a completion.
    Wait,
    /// Nothing is being scanned and no input is left.
    Finished,
    /// Nothing is being scanned although input is left.
    Missing,
}

/// Fragments on their way between the concurrent scans and the ordered merge.
pub struct ParallelStreamState {
    pub in_flight: usize,
    pub input_exhausted: bool,
    pub reorder: BTreeMap<u64, DecodeFragment>,
    pub available_buffers: Vec<DecodeFragmentBuffers>,
}

/// What a completion yields for the merge that expects sequence number `expected`.
pub open spec fn completion_step(
    before: ParallelStreamState,
    completion: FragmentCompletion,
    expected: u64,
    after: ParallelStreamState,
    step: CompletionStep,
) -> bool {
    &&& after.in_flight == before.in_flight - 1
    &&& after.input_exhausted == before.input_exhausted
    &&& after.available_buffers == before.available_buffers
    &&& match completion {
        FragmentCompletion::Panicked(sequence) => {
            &&& step == CompletionStep::Failed(sequence)
            &&& after.reorder@ == before.reorder@
        },
        FragmentCompletion::Complete(fragment) => if fragment.sequence == expected {
            &&& step == CompletionStep::Ready(fragment)
            &&& after.reorder@ == before.reorder@
        } else {
            &&& step == CompletionStep::Stored
            &&& after.reorder@ == before.reorder@.insert(fragment.sequence, fragment)
        },
    }
}

/// The counters after a completion.
pub open spec fn completion_metrics(
    metrics: ParallelDecoderMetrics,
    bytes: usize,
    step: CompletionStep,
    kept: nat,
) -> ParallelDecoderMetrics {
    match step {
        CompletionStep::Failed(_) => metrics,
        CompletionStep::Ready(_) => ParallelDecoderMetrics {
            max_fragment_bytes: larger(metrics.max_fragment_bytes, bytes),
            ..metrics
        },
        CompletionStep::Stored => ParallelDecoderMetrics {
            max_fragment_bytes: larger(metrics.max_fragment_bytes, bytes),
            max_reorder: larger(metrics.max_reorder, kept as usize),
            ..metrics
        },
    }
}

impl ParallelStreamState {
    pub fn new() -> (result: Self)
        ensures
            result.in_flight == 0,
            !result.input_exhausted,
            result.reorder@ == Map::<u64, DecodeFragment>::empty(),
            result.available_buffers@ == Seq::<DecodeFragmentBuffers>::empty(),
    {
        ParallelStreamState {
            in_flight: 0,
            input_exhausted: false,
            reorder: BTreeMap::new(),
            available_buffers: Vec::new(),
        }
    }

    /// Every kept fragment stands under its own sequence number.
    pub open spec fn wf(self) -> bool {
        forall|sequence: u64|
            #[trigger] self.reorder@.dom().contains(sequence) ==> self.reorder@[sequence].sequence
                == sequence
    }

    /// Tells whether one more window may be handed to a worker.
    pub fn wants_window(&self, max_outstanding: usize) -> (result: bool)
        ensures
            result == (self.in_flight + self.reorder@.len() < max_outstanding
                && !self.input_exhausted),
    {
        broadcast use vstd::std_specs::btree::group_btree_axioms;

        self.in_flight < max_outstanding && self.reorder.len() < max_outstanding - self.in_flight
            && !self.input_exhausted
    }

    /// Notes that a window was handed to a worker.
    pub fn dispatched(&mut self, metrics: &mut ParallelDecoderMetrics)
        requires
            old(self).in_flight + old(self).reorder@.len() < usize::MAX,
        ensures
            final(self).in_flight == old(self).in_flight + 1,
            final(self).input_exhausted == old(self).input_exhausted,
            final(self).reorder == old(self).reorder,
            final(self).available_buffers == old(self).available_buffers,
            *final(metrics) == (ParallelDecoderMetrics {
                max_outstanding: larger(
                    old(metrics).max_outstanding,
                    (old(self).in_flight + 1 + old(self).reorder@.len()) as usize,
                ),
                ..*old(metrics)
            }),
    {
        broadcast use vstd::std_specs::btree::group_btree_axioms;

        self.in_flight = self.in_flight + 1;
        metrics.max_outstanding = raise(
            metrics.max_outstanding,
            self.in_flight + self.reorder.len(),
        );
    }

    /// Takes out the expected fragment where it was kept.
    pub fn take_kept(&mut self, expected: u64) -> (result: Option<DecodeFragment>)
        ensures
            final(self).in_flight == old(self).in_flight,
            final(self).input_exhausted == old(self).input_exhausted,
            final(self).available_buffers == old(self).available_buffers,
            final(self).reorder@ == old(self).reorder@.remove(expected),
            match result {
                Some(fragment) => old(self).reorder@.dom().contains(expected) && fragment
                    == old(self).reorder@[expected],
                None => !old(self).reorder@.dom().contains(expected),
            },
    {
        broadcast use vstd::std_specs::btree::group_btree_axioms;

        let ghost before = self.reorder@;
        let result = self.reorder.remove(&expected);
        proof {
            if !before.dom().contains(expected) {
                assert(before.remove(expected) =~= before);
            }
        }
        result
    }

    /// Tells what to do when the expected fragment is not among those kept.
    pub fn outstanding(&self) -> (result: OutstandingWork)
        ensures
            result == if self.in_flight > 0 {
                OutstandingWork::Wait
            } else if self.input_exhausted {
                OutstandingWork::Finished
            } else {
                OutstandingWork::Missing
            },
    {
        if self.in_flight > 0 {
            OutstandingWork::Wait
        } else if self.input_exhausted {
            OutstandingWork::Finished
        } else {
            OutstandingWork::Missing
        }
    }

    /// Takes in one completion: the expected fragment is handed on, a later one is kept.
    pub fn complete(
        &mut self,
        completion: FragmentCompletion,
        expected: u64,
        metrics: &mut ParallelDecoderMetrics,
    ) -> (step: CompletionStep)
        requires
            old(self).in_flight > 0,
            old(self).wf(),
            completion matches FragmentCompletion::Complete(fragment) ==> fragment.buffers.wf(),
        ensures
            final(self).wf(),
            completion_step(*old(self), completion, expected, *final(self), step),
            exists|bytes: usize| #[trigger]
                completion_metrics(*old(metrics), bytes, step, final(self).reorder@.len())
                    == *final(metrics) && (completion matches FragmentCompletion::Complete(
                    fragment,
                ) ==> bytes >= capacity_bytes(
                    fragment.buffers@.len() as int,
                    fragment.buffers@.len() as int,
                    fragment.buffers@.len() as int,
                )),
    {
        broadcast use vstd::std_specs::btree::group_btree_axioms;

        self.in_flight = self.in_flight - 1;
        match completion {
            FragmentCompletion::Panicked(sequence) => {
                let step = CompletionStep::Failed(sequence);
                assert(completion_metrics(*old(metrics), 0, step, self.reorder@.len()) == *metrics);
                step
            },
            FragmentCompletion::Complete(fragment) => {
                let bytes: usize = fragment_buffer_bytes(&fragment.buffers);
                metrics.max_fragment_bytes = raise(metrics.max_fragment_bytes, bytes);
                if fragment.sequence == expected {
                    let step = CompletionStep::Ready(fragment);
                    assert(completion_metrics(*old(metrics), bytes, step, self.reorder@.len())
                        == *metrics);
                    step
                } else {
                    let sequence: u64 = fragment.sequence;
                    self.reorder.insert(sequence, fragment);
                    metrics.max_reorder = raise(metrics.max_reorder, self.reorder.len());
                    assert(completion_metrics(
                        *old(metrics),
                        bytes,
                        CompletionStep::Stored,
                        self.reorder@.len(),
                    ) == *metrics);
                    CompletionStep::Stored
                }
            },
        }
    }
}

} // verus!
