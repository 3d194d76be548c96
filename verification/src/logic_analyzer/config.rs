//! What a driver can do and what a capture asks of it.

use vstd::prelude::*;

use super::error::{invalid_settings, ErrorView, LogicAnalyzerError};

verus! {

/// Static capabilities exposed by a logic-analyzer driver.
#[derive(Debug, Clone, PartialEq, Eq)]
pub struct LogicAnalyzerInfo {
    pub driver: String,
    pub model: String,
    pub channels: u8,
    pub sample_rates_hz: Vec<u64>,
}

/// Capture mode supported by most logic analyzers.
#[derive(Debug, Clone, Copy, PartialEq, Eq, Structural)]
pub enum CaptureMode {
    Streaming,
    Finite,
}

/// What one input has to do at a trigger.
#[derive(Debug, Clone, Copy, PartialEq, Eq, Structural)]
pub enum TriggerCondition {
    Ignore,
    Low,
    High,
    Rising,
    Falling,
    Either,
}

/// How the conditions of one stage combine.
#[derive(Debug, Clone, Copy, PartialEq, Eq, Structural)]
pub enum TriggerLogic {
    And,
    Or,
}

/// How the matches of one stage are counted.
#[derive(Debug, Clone, Copy, PartialEq, Eq, Structural)]
pub enum TriggerCountMode {
    Occurrences,
    Consecutive,
}

/// One stage of a portable logic trigger. Two planes accommodate analyzers with parallel trigger
/// match units.
#[derive(Debug, Clone, Copy, PartialEq, Eq)]
pub struct LogicTriggerStage {
    pub plane0: [TriggerCondition; 16],
    pub plane1: [TriggerCondition; 16],
    pub logic: TriggerLogic,
    pub inverted: bool,
    pub count_mode: TriggerCountMode,
    pub count: u32,
}

impl Default for LogicTriggerStage {
    fn default() -> (result: Self)
        ensures
            forall|i: int|
                0 <= i < 16 ==> #[trigger] result.plane0@[i] == TriggerCondition::Ignore,
            forall|i: int|
                0 <= i < 16 ==> #[trigger] result.plane1@[i] == TriggerCondition::Ignore,
            result.logic == TriggerLogic::And,
            !result.inverted,
            result.count_mode == TriggerCountMode::Occurrences,
            result.count == 0,
    {
        LogicTriggerStage {
            plane0: [TriggerCondition::Ignore; 16],
            plane1: [TriggerCondition::Ignore; 16],
            logic: TriggerLogic::And,
            inverted: false,
            count_mode: TriggerCountMode::Occurrences,
            count: 0,
        }
    }
}

/// A sequence of trigger stages.
#[derive(Debug, Clone)]
pub struct LogicTrigger {
    pub stages: Vec<LogicTriggerStage>,
    pub serial: bool,
}

/// The stages of a trigger and whether they form a serial match.
pub struct TriggerView {
    pub stages: Seq<LogicTriggerStage>,
    pub serial: bool,
}

impl View for LogicTrigger {
    type V = TriggerView;

    open spec fn view(&self) -> TriggerView {
        TriggerView { stages: self.stages@, serial: self.serial }
    }
}

impl Default for LogicTrigger {
    fn default() -> (result: Self)
        ensures
            result@ == (TriggerView { stages: Seq::empty(), serial: false }),
    {
        LogicTrigger { stages: Vec::new(), serial: false }
    }
}

impl LogicTrigger {
    /// A trigger with the same stages.
    pub fn copied(&self) -> (result: Self)
        ensures
            result@ == self@,
    {
        let mut stages: Vec<LogicTriggerStage> = Vec::new();
        let mut index: usize = 0;
        while index < self.stages.len()
            invariant
                index <= self.stages@.len(),
                stages@ == self.stages@.take(index as int),
            decreases self.stages@.len() - index,
        {
            stages.push(self.stages[index]);
            proof {
                assert(self.stages@.take(index as int).push(self.stages@[index as int])
                    =~= self.stages@.take(index + 1));
            }
            index += 1;
        }
        assert(self.stages@.take(index as int) =~= self.stages@);
        LogicTrigger { stages, serial: self.serial }
    }
}

/// How a capture wants its data encoded.
#[derive(Debug, Clone, Copy, PartialEq, Eq, Structural)]
pub enum LogicEncodingRequest {
    Raw,
    RunLength,
}

impl Default for LogicEncodingRequest {
    fn default() -> (result: Self)
        ensures
            result == LogicEncodingRequest::Raw,
    {
        LogicEncodingRequest::Raw
    }
}

/// The edge at which an external clock samples.
#[derive(Debug, Clone, Copy, PartialEq, Eq, Structural)]
pub enum ClockEdge {
    Rising,
    Falling,
}

/// Where the sample clock comes from.
#[derive(Debug, Clone, Copy, PartialEq, Eq, Structural)]
pub enum ClockSource {
    Internal,
    External { edge: ClockEdge },
}

impl Default for ClockSource {
    fn default() -> (result: Self)
        ensures
            result == ClockSource::Internal,
    {
        ClockSource::Internal
    }
}

/// A requested input threshold, as the converter code that sets it.
#[derive(Debug, Clone, Copy, PartialEq, Eq, Structural)]
pub enum Threshold {
    /// The requested voltage is not a number.
    NotFinite,
    Code(u8),
}

/// Vendor-neutral capture request. Inputs are physical-channel bits; the enabled inputs are
/// exposed in increasing physical-channel order.
#[derive(Debug, Clone)]
pub struct LogicCaptureConfig {
    pub mode: CaptureMode,
    pub sample_rate_hz: u64,
    pub input_mask: u64,
    pub sample_limit: u64,
    pub trigger_percent: u8,
    /// Drivers without a threshold converter reject it.
    pub threshold: Option<Threshold>,
    pub trigger: LogicTrigger,
    pub encoding: LogicEncodingRequest,
    pub clock: ClockSource,
    pub input_filter: bool,
}

impl LogicCaptureConfig {
    /// A finite capture with the trigger in the middle and nothing special asked for.
    pub fn finite(sample_rate_hz: u64, input_mask: u64, sample_limit: u64) -> (result: Self)
        ensures
            result.mode == CaptureMode::Finite,
            result.sample_rate_hz == sample_rate_hz,
            result.input_mask == input_mask,
            result.sample_limit == sample_limit,
            result.trigger_percent == 50,
            result.threshold is None,
            result.trigger@ == (TriggerView { stages: Seq::empty(), serial: false }),
            result.encoding == LogicEncodingRequest::Raw,
            result.clock == ClockSource::Internal,
            !result.input_filter,
    {
        LogicCaptureConfig {
            mode: CaptureMode::Finite,
            sample_rate_hz,
            input_mask,
            sample_limit,
            trigger_percent: 50,
            threshold: None,
            trigger: LogicTrigger { stages: Vec::new(), serial: false },
            encoding: LogicEncodingRequest::Raw,
            clock: ClockSource::Internal,
            input_filter: false,
        }
    }
}

/// Number of set bits among the lowest `width` bits of a mask.
pub open spec fn enabled_below(mask: u64, width: nat) -> nat
    decreases width,
{
    if width == 0 {
        0
    } else {
        enabled_below(mask, (width - 1) as nat) + (if crate::bits::word_bit(mask, width - 1) {
            1nat
        } else {
            0nat
        })
    }
}

/// Number of inputs that a mask enables.
pub open spec fn enabled_inputs(mask: u64) -> nat {
    enabled_below(mask, 64)
}

/// Counts the inputs that a mask enables.
pub fn count_inputs(mask: u64) -> (result: u8)
    ensures
        result == enabled_inputs(mask),
        result <= 64,
{
    let mut count: u8 = 0;
    let mut width: u64 = 0;
    while width < 64
        invariant
            width <= 64,
            count <= width,
            count == enabled_below(mask, width as nat),
        decreases 64 - width,
    {
        if (mask >> width) & 1 == 1 {
            count += 1;
        }
        width += 1;
    }
    count
}

/// A mask whose bits all lie below `width` enables no more than its low bits do.
pub proof fn lemma_enabled_above(mask: u64, width: nat)
    requires
        width <= 64,
        forall|j: int| width <= j < 64 ==> !#[trigger] crate::bits::word_bit(mask, j),
    ensures
        enabled_inputs(mask) == enabled_below(mask, width),
        enabled_below(mask, width) <= width,
{
    lemma_enabled_range(mask, width, 64);
    lemma_enabled_bound(mask, width);
}

proof fn lemma_enabled_range(mask: u64, low: nat, high: nat)
    requires
        low <= high <= 64,
        forall|j: int| low <= j < high ==> !#[trigger] crate::bits::word_bit(mask, j),
    ensures
        enabled_below(mask, high) == enabled_below(mask, low),
    decreases high,
{
    if low < high {
        assert(!crate::bits::word_bit(mask, high - 1));
        lemma_enabled_range(mask, low, (high - 1) as nat);
    }
}

proof fn lemma_enabled_bound(mask: u64, width: nat)
    ensures
        enabled_below(mask, width) <= width,
    decreases width,
{
    if width > 0 {
        lemma_enabled_bound(mask, (width - 1) as nat);
    }
}

/// Checks a capture request against the number of inputs of a driver, and tells how many channels
/// the capture delivers.
pub fn source_channels(info: &LogicAnalyzerInfo, config: &LogicCaptureConfig) -> (result: Result<
    u8,
    LogicAnalyzerError,
>)
    ensures
        ({
            let channels = enabled_inputs(config.input_mask);
            let refused = channels == 0 || channels > info.channels || config.sample_limit == 0
                || config.trigger_percent > 100;
            match result {
                Ok(count) => !refused && count == channels,
                Err(error) => refused && error@ == ErrorView::InvalidSettings(
                    "invalid channel mask, sample limit, or trigger percentage"@,
                ),
            }
        }),
{
    let channels: u8 = count_inputs(config.input_mask);
    if channels == 0 || channels > info.channels || config.sample_limit == 0
        || config.trigger_percent > 100 {
        return Err(invalid_settings("invalid channel mask, sample limit, or trigger percentage"));
    }
    Ok(channels)
}

} // verus!
