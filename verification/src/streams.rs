//! Values that travel between processing nodes.

use vstd::prelude::*;

verus! {

/// One level change of a digital signal.
#[derive(Debug, Clone, Copy, PartialEq, Eq, Structural)]
pub struct Sample {
    pub value: bool,
    pub start_time_ns: u64,
}

impl Sample {
    pub fn new(value: bool, start_time_ns: u64) -> (result: Self)
        ensures
            result == (Sample { value, start_time_ns }),
    {
        Sample { value, start_time_ns }
    }
}

/// A run of consecutive samples of one channel, packed least significant bit first.
#[derive(Debug, Clone)]
pub struct SampleBlock {
    pub data: Vec<u8>,
    pub start_position: u64,
    pub num_samples: usize,
    pub timestamp_step: u64,
}

impl SampleBlock {
    pub fn new(data: Vec<u8>, start_position: u64, num_samples: usize, timestamp_step: u64) -> (result:
        Self)
        ensures
            result == (SampleBlock { data, start_position, num_samples, timestamp_step }),
    {
        SampleBlock { data, start_position, num_samples, timestamp_step }
    }

    /// The bytes hold every sample, and every sample has an absolute position.
    pub open spec fn wf(self) -> bool {
        &&& self.num_samples <= 8 * self.data@.len()
        &&& self.start_position + self.num_samples <= u64::MAX
    }
}

/// One decoded word and the time it spans.
#[derive(Debug, Clone, Copy, PartialEq, Eq, Structural)]
pub struct Word {
    pub value: u64,
    pub timestamp_ns: u64,
    pub duration_ns: u64,
}

impl Word {
    pub fn new(value: u64, timestamp_ns: u64) -> (result: Self)
        ensures
            result == (Word { value, timestamp_ns, duration_ns: 0 }),
    {
        Word { value, timestamp_ns, duration_ns: 0 }
    }

    pub fn spanning(value: u64, timestamp_ns: u64, duration_ns: u64) -> (result: Self)
        ensures
            result == (Word { value, timestamp_ns, duration_ns }),
    {
        Word { value, timestamp_ns, duration_ns }
    }
}

/// An event without a value.
#[derive(Debug, Clone, Copy, PartialEq, Eq, Structural)]
pub struct Trigger {
    pub timestamp_ns: u64,
}

impl Trigger {
    pub fn new(timestamp_ns: u64) -> (result: Self)
        ensures
            result == (Trigger { timestamp_ns }),
    {
        Trigger { timestamp_ns }
    }
}

/// One change of an integer level.
#[derive(Debug, Clone, Copy, PartialEq, Eq, Structural)]
pub struct NumberSample {
    pub value: i64,
    pub start_time_ns: u64,
}

impl NumberSample {
    pub fn new(value: i64, start_time_ns: u64) -> (result: Self)
        ensures
            result == (NumberSample { value, start_time_ns }),
    {
        NumberSample { value, start_time_ns }
    }
}

/// One change of a text level.
#[derive(Debug, Clone, PartialEq, Eq)]
pub struct TextSample {
    pub value: String,
    pub start_time_ns: u64,
}

impl TextSample {
    pub fn new(value: String, start_time_ns: u64) -> (result: Self)
        ensures
            result == (TextSample { value, start_time_ns }),
    {
        TextSample { value, start_time_ns }
    }
}

/// A level change found by a random-access search.
#[derive(Debug, Clone, Copy, PartialEq, Eq, Structural)]
pub struct CaptureTransition {
    pub sample: u64,
    pub value: bool,
}

/// How the values of one input arrive.
#[derive(Debug, Clone, Copy, PartialEq, Eq, Structural)]
pub enum ProtocolKind {
    /// Consecutive blocks or level changes.
    Stream,
    /// Point and edge queries against an index.
    EdgeQuery,
}

} // verus!
