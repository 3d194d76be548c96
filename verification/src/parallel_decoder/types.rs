//! Settings and intermediate values of the parallel bus decoder.

use vstd::prelude::*;

use crate::digital::CsPolarity;

verus! {

/// Strobe signal mode for the parallel decoder.
#[derive(Debug, Clone, Copy, PartialEq, Eq, Structural)]
pub enum StrobeMode {
    /// Sample on the rising edge of the strobe signal.
    RisingEdge,
    /// Sample on the falling edge of the strobe signal.
    FallingEdge,
    /// Sample on any edge of the strobe signal.
    AnyEdge,
    /// Sample while the strobe signal is high.
    HighLevel,
    /// Sample while the strobe signal is low.
    LowLevel,
}

impl StrobeMode {
    /// Whether a sample triggers, given the level of the strobe there and just before.
    pub open spec fn triggers(self, previous: bool, value: bool) -> bool {
        match self {
            StrobeMode::RisingEdge => !previous && value,
            StrobeMode::FallingEdge => previous && !value,
            StrobeMode::AnyEdge => previous != value,
            StrobeMode::HighLevel => value,
            StrobeMode::LowLevel => !value,
        }
    }

    /// Whether the mode triggers on level changes rather than on levels.
    pub open spec fn on_edges(self) -> bool {
        self is RisingEdge || self is FallingEdge || self is AnyEdge
    }

    /// Tells whether the mode triggers on level changes rather than on levels.
    pub fn is_edge_triggered(self) -> (result: bool)
        ensures
            result == self.on_edges(),
    {
        match self {
            StrobeMode::RisingEdge | StrobeMode::FallingEdge | StrobeMode::AnyEdge => true,
            StrobeMode::HighLevel | StrobeMode::LowLevel => false,
        }
    }
}

/// Input transport strategy for the parallel decoder's raw signal inputs.
#[derive(Debug, Clone, Copy, PartialEq, Eq, Structural)]
pub enum ParallelInputStrategy {
    /// Let protocol negotiation choose. File sources currently prefer an
    /// indexed query when both transports are available.
    Auto,
    /// Consume aligned packed sample blocks.
    PackedStream,
    /// Query strobe edges and data values from a random-access index.
    Indexed,
}

impl Default for ParallelInputStrategy {
    fn default() -> (result: Self)
        ensures
            result == ParallelInputStrategy::Auto,
    {
        ParallelInputStrategy::Auto
    }
}

/// The part of the decoder's settings that a packed scan needs.
#[derive(Debug, Clone, Copy, PartialEq, Eq, Structural)]
pub struct StreamScanConfig {
    pub mode: StrobeMode,
    pub cs_polarity: CsPolarity,
}

/// A stretch of a block, in samples from the block's start, over which decoding is enabled.
#[derive(Debug, Clone, Copy, PartialEq, Eq, Structural)]
pub struct EnabledRange {
    pub start: usize,
    pub end: usize,
    /// A partial word from before the stretch is dropped.
    pub reset_before: bool,
}

/// Every range is non-empty and inside the window, and they follow one another.
pub open spec fn ranges_in_window(ranges: Seq<EnabledRange>, start: int, end: int) -> bool {
    &&& forall|k: int|
        0 <= k < ranges.len() ==> start <= (#[trigger] ranges[k]).start < ranges[k].end <= end
    &&& forall|j: int, k: int|
        0 <= j < k < ranges.len() ==> (#[trigger] ranges[j]).end <= (#[trigger] ranges[k]).start
}

/// Whether position `i` lies in one of the ranges.
pub open spec fn in_ranges(ranges: Seq<EnabledRange>, i: int) -> bool {
    exists|k: int| 0 <= k < ranges.len() && (#[trigger] ranges[k]).start <= i < ranges[k].end
}

/// Triggers collected by a scan: position, bus value, and whether a partial word is dropped
/// before the trigger.
#[derive(Debug)]
pub struct DecodeFragmentBuffers {
    pub positions: Vec<u64>,
    pub values: Vec<u64>,
    pub reset_before: Vec<bool>,
}

impl DecodeFragmentBuffers {
    pub open spec fn wf(self) -> bool {
        self.positions@.len() == self.values@.len() && self.positions@.len()
            == self.reset_before@.len()
    }

    pub fn new() -> (result: Self)
        ensures
            result.wf(),
            result@ == Seq::<(u64, u64, bool)>::empty(),
    {
        let result = DecodeFragmentBuffers {
            positions: Vec::new(),
            values: Vec::new(),
            reset_before: Vec::new(),
        };
        assert(result@ =~= Seq::<(u64, u64, bool)>::empty());
        result
    }

    /// Forgets every trigger; the allocations stay.
    pub fn clear(&mut self)
        ensures
            final(self).wf(),
            final(self)@ == Seq::<(u64, u64, bool)>::empty(),
    {
        self.positions.clear();
        self.values.clear();
        self.reset_before.clear();
        assert(self@ =~= Seq::<(u64, u64, bool)>::empty());
    }

    /// Appends one trigger.
    pub fn push(&mut self, position: u64, value: u64, reset_before: bool)
        requires
            old(self).wf(),
        ensures
            final(self).wf(),
            final(self)@ == old(self)@.push((position, value, reset_before)),
    {
        let ghost before = self@;
        self.positions.push(position);
        self.values.push(value);
        self.reset_before.push(reset_before);
        assert(self@ =~= before.push((position, value, reset_before)));
    }
}

impl View for DecodeFragmentBuffers {
    type V = Seq<(u64, u64, bool)>;

    open spec fn view(&self) -> Seq<(u64, u64, bool)> {
        Seq::new(
            self.positions@.len(),
            |i: int| (self.positions@[i], self.values@[i], self.reset_before@[i]),
        )
    }
}

impl Default for DecodeFragmentBuffers {
    fn default() -> (result: Self)
        ensures
            result.wf(),
            result@ == Seq::<(u64, u64, bool)>::empty(),
    {
        DecodeFragmentBuffers::new()
    }
}

/// The first sample of a fragment, whose trigger depends on the fragment before.
#[derive(Debug, Clone, Copy, PartialEq, Eq, Structural)]
pub struct FragmentBoundary {
    pub position: u64,
    pub strobe_value: bool,
    pub data_value: u64,
    pub cs_eligible: bool,
    pub reset_before: bool,
}

/// The triggers of one scanned window.
#[derive(Debug)]
pub struct DecodeFragment {
    pub sequence: u64,
    pub timestamp_step: u64,
    pub boundary: Option<FragmentBoundary>,
    pub last_strobe_value: bool,
    pub buffers: DecodeFragmentBuffers,
    /// A partial word is dropped after the window.
    pub reset_after: bool,
}

/// What a [`DecodeFragment`] holds.
#[verifier::ext_equal]
pub struct FragmentView {
    pub sequence: u64,
    pub timestamp_step: u64,
    pub boundary: Option<FragmentBoundary>,
    pub last_strobe_value: bool,
    pub items: Seq<(u64, u64, bool)>,
    pub reset_after: bool,
}

impl View for DecodeFragment {
    type V = FragmentView;

    open spec fn view(&self) -> FragmentView {
        FragmentView {
            sequence: self.sequence,
            timestamp_step: self.timestamp_step,
            boundary: self.boundary,
            last_strobe_value: self.last_strobe_value,
            items: self.buffers@,
            reset_after: self.reset_after,
        }
    }
}

} // verus!
