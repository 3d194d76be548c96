//! Validation of a capture request and the plan that it leads to.

use vstd::prelude::*;

use vstd::std_specs::bits::{axiom_u16_leading_zeros, u16_leading_zeros};

use crate::bits::{spec_div_ceil, word_bit};
use crate::logic_analyzer::config::{
    count_inputs, enabled_inputs, lemma_enabled_above, CaptureMode, ClockEdge, ClockSource,
    LogicCaptureConfig, LogicEncodingRequest, LogicTrigger, Threshold, TriggerView,
};
use crate::logic_analyzer::error::{invalid_settings, ErrorView, LogicAnalyzerError};
use crate::text::{append_chars, decimal, decimal_chars, from_chars, to_chars};

verus! {

/// Inputs of the device.
pub const INPUTS: u8 = 16;

/// Samples that the device memory holds on one input.
pub const MEMORY_SAMPLES: u64 = 2_147_483_648;

/// Speed of the USB link.
#[derive(Debug, Clone, Copy, PartialEq, Eq, Structural)]
pub enum LinkSpeed {
    High,
    Super,
}

/// Capture settings in the terms of this device.
#[derive(Debug, Clone)]
pub struct DsLogicCaptureSettings {
    pub mode: CaptureMode,
    pub sample_rate_hz: u64,
    /// Physical input bits. The enabled inputs are exposed in increasing order.
    pub input_mask: u16,
    pub sample_limit: u64,
    pub trigger_percent: u8,
    pub threshold: Option<Threshold>,
    pub trigger: LogicTrigger,
    pub run_length: bool,
    pub external_clock: bool,
    pub external_clock_active_edge: bool,
    pub input_filter: bool,
}

/// Settings with the trigger seen as its stages.
pub struct SettingsView {
    pub mode: CaptureMode,
    pub sample_rate_hz: u64,
    pub input_mask: u16,
    pub sample_limit: u64,
    pub trigger_percent: u8,
    pub threshold: Option<Threshold>,
    pub trigger: TriggerView,
    pub run_length: bool,
    pub external_clock: bool,
    pub external_clock_active_edge: bool,
    pub input_filter: bool,
}

impl View for DsLogicCaptureSettings {
    type V = SettingsView;

    open spec fn view(&self) -> SettingsView {
        SettingsView {
            mode: self.mode,
            sample_rate_hz: self.sample_rate_hz,
            input_mask: self.input_mask,
            sample_limit: self.sample_limit,
            trigger_percent: self.trigger_percent,
            threshold: self.threshold,
            trigger: self.trigger@,
            run_length: self.run_length,
            external_clock: self.external_clock,
            external_clock_active_edge: self.external_clock_active_edge,
            input_filter: self.input_filter,
        }
    }
}

/// A finite capture with nothing special asked for.
pub open spec fn finite_settings(
    sample_rate_hz: u64,
    input_mask: u16,
    sample_limit: u64,
) -> SettingsView {
    SettingsView {
        mode: CaptureMode::Finite,
        sample_rate_hz,
        input_mask,
        sample_limit,
        trigger_percent: 50,
        threshold: None,
        trigger: TriggerView { stages: Seq::empty(), serial: false },
        run_length: false,
        external_clock: false,
        external_clock_active_edge: false,
        input_filter: false,
    }
}

impl DsLogicCaptureSettings {
    /// A finite capture with nothing special asked for.
    pub fn finite(sample_rate_hz: u64, input_mask: u16, sample_limit: u64) -> (result: Self)
        ensures
            result@ == finite_settings(sample_rate_hz, input_mask, sample_limit),
    {
        DsLogicCaptureSettings {
            mode: CaptureMode::Finite,
            sample_rate_hz,
            input_mask,
            sample_limit,
            trigger_percent: 50,
            threshold: None,
            trigger: LogicTrigger { stages: Vec::new(), serial: false },
            run_length: false,
            external_clock: false,
            external_clock_active_edge: false,
            input_filter: false,
        }
    }
}

/// Settings that a request stands for, or why this device cannot honour it.
pub open spec fn configured(config: LogicCaptureConfig) -> Result<SettingsView, ErrorView> {
    if config.input_mask > 0xffff {
        Err(ErrorView::InvalidSettings("U3Pro16 has only 16 inputs"@))
    } else if config.threshold == Some(Threshold::NotFinite) {
        Err(ErrorView::InvalidSettings("threshold must be finite"@))
    } else if config.trigger_percent > 100 {
        Err(
            ErrorView::InvalidSettings(
                "trigger position percentage must be within 0..=100"@,
            ),
        )
    } else if config.trigger.stages@.len() > 16 {
        Err(ErrorView::InvalidSettings("U3Pro16 supports at most 16 trigger stages"@))
    } else {
        Ok(
            SettingsView {
                mode: config.mode,
                sample_rate_hz: config.sample_rate_hz,
                input_mask: config.input_mask as u16,
                sample_limit: config.sample_limit,
                trigger_percent: config.trigger_percent,
                threshold: config.threshold,
                trigger: config.trigger@,
                run_length: config.encoding == LogicEncodingRequest::RunLength,
                external_clock: config.clock is External,
                external_clock_active_edge: config.clock == (ClockSource::External {
                    edge: ClockEdge::Rising,
                }),
                input_filter: config.input_filter,
            },
        )
    }
}

/// Translates a request into settings of this device.
pub fn settings_from_config(config: &LogicCaptureConfig) -> (result: Result<
    DsLogicCaptureSettings,
    LogicAnalyzerError,
>)
    ensures
        match result {
            Ok(settings) => configured(*config) == Ok::<_, ErrorView>(settings@),
            Err(error) => configured(*config) == Err::<SettingsView, _>(error@),
        },
{
    if config.input_mask > 0xffff {
        return Err(invalid_settings("U3Pro16 has only 16 inputs"));
    }
    let finite: bool = match config.threshold {
        Some(Threshold::NotFinite) => false,
        _ => true,
    };
    if !finite {
        return Err(invalid_settings("threshold must be finite"));
    }
    if config.trigger_percent > 100 {
        return Err(invalid_settings("trigger position percentage must be within 0..=100"));
    }
    if config.trigger.stages.len() > 16 {
        return Err(invalid_settings("U3Pro16 supports at most 16 trigger stages"));
    }
    let (external_clock, external_clock_active_edge): (bool, bool) = match config.clock {
        ClockSource::External { edge } => (true, edge == ClockEdge::Rising),
        ClockSource::Internal => (false, false),
    };
    Ok(
        DsLogicCaptureSettings {
            mode: config.mode,
            sample_rate_hz: config.sample_rate_hz,
            input_mask: config.input_mask as u16,
            sample_limit: config.sample_limit,
            trigger_percent: config.trigger_percent,
            threshold: config.threshold,
            trigger: config.trigger.copied(),
            run_length: config.encoding == LogicEncodingRequest::RunLength,
            external_clock,
            external_clock_active_edge,
            input_filter: config.input_filter,
        },
    )
}

/// The sample rates of the device, in hertz.
pub open spec fn rates() -> Seq<u64> {
    seq![
        10,
        20,
        50,
        100,
        200,
        500,
        1_000,
        2_000,
        5_000,
        10_000,
        20_000,
        40_000,
        50_000,
        100_000,
        200_000,
        400_000,
        500_000,
        1_000_000,
        2_000_000,
        4_000_000,
        5_000_000,
        10_000_000,
        20_000_000,
        25_000_000,
        50_000_000,
        100_000_000,
        125_000_000,
        250_000_000,
        500_000_000,
        1_000_000_000,
    ]
}

/// The sample rates of the device, in hertz.
pub fn supported_rates() -> (result: Vec<u64>)
    ensures
        result@ == rates(),
{
    let result: Vec<u64> = vec![
        10,
        20,
        50,
        100,
        200,
        500,
        1_000,
        2_000,
        5_000,
        10_000,
        20_000,
        40_000,
        50_000,
        100_000,
        200_000,
        400_000,
        500_000,
        1_000_000,
        2_000_000,
        4_000_000,
        5_000_000,
        10_000_000,
        20_000_000,
        25_000_000,
        50_000_000,
        100_000_000,
        125_000_000,
        250_000_000,
        500_000_000,
        1_000_000_000,
    ];
    assert(result@ =~= rates());
    result
}

/// Whether the device samples at a rate.
pub fn supports_rate(rate: u64) -> (result: bool)
    ensures
        result == rates().contains(rate),
        result ==> 10 <= rate <= 1_000_000_000,
{
    let known: Vec<u64> = supported_rates();
    let mut index: usize = 0;
    while index < known.len()
        invariant
            known@ == rates(),
            index <= known@.len(),
            forall|i: int| 0 <= i < index ==> known@[i] != rate,
        decreases known@.len() - index,
    {
        if known[index] == rate {
            return true;
        }
        index += 1;
    }
    false
}

/// Immutable, validated acquisition plan.
#[derive(Clone, Copy, Debug, PartialEq, Eq, Structural)]
pub struct DsLogicCapturePlan {
    pub channels: u8,
    pub actual_samples: u64,
    pub actual_bytes: usize,
    pub stream_buffer: usize,
}

impl DsLogicCapturePlan {
    /// A plan captures at least one input and no more than the device has.
    pub open spec fn wf(self) -> bool {
        1 <= self.channels <= INPUTS
    }

    pub fn channel_count(self) -> (result: u8)
        ensures
            result == self.channels,
    {
        self.channels
    }

    pub fn actual_samples(self) -> (result: u64)
        ensures
            result == self.actual_samples,
    {
        self.actual_samples
    }

    pub fn actual_bytes(self) -> (result: usize)
        ensures
            result == self.actual_bytes,
    {
        self.actual_bytes
    }

    pub fn stream_buffer_bytes(self) -> (result: usize)
        ensures
            result == self.stream_buffer,
    {
        self.stream_buffer
    }
}

/// The fastest rate of a mode whose highest enabled input is input `width - 1`.
pub open spec fn max_rate(speed: LinkSpeed, mode: CaptureMode, width: int) -> Option<u64> {
    if width > 16 {
        None
    } else {
        Some(
            match (mode, speed) {
                (CaptureMode::Finite, _) => if width <= 8 {
                    1_000_000_000
                } else {
                    500_000_000
                },
                (CaptureMode::Streaming, LinkSpeed::High) => if width <= 3 {
                    100_000_000
                } else if width <= 6 {
                    50_000_000
                } else if width <= 12 {
                    25_000_000
                } else {
                    20_000_000
                },
                (CaptureMode::Streaming, LinkSpeed::Super) => if width <= 3 {
                    1_000_000_000
                } else if width <= 6 {
                    500_000_000
                } else if width <= 12 {
                    250_000_000
                } else {
                    125_000_000
                },
            },
        )
    }
}

/// The fastest rate of a mode whose highest enabled input is input `width - 1`.
pub fn mode_max_rate(speed: LinkSpeed, mode: CaptureMode, width: u8) -> (result: Option<u64>)
    ensures
        result == max_rate(speed, mode, width as int),
{
    match (mode, speed) {
        (CaptureMode::Finite, _) => if width <= 8 {
            Some(1_000_000_000)
        } else if width <= 16 {
            Some(500_000_000)
        } else {
            None
        },
        (CaptureMode::Streaming, LinkSpeed::High) => if width <= 3 {
            Some(100_000_000)
        } else if width <= 6 {
            Some(50_000_000)
        } else if width <= 12 {
            Some(25_000_000)
        } else if width <= 16 {
            Some(20_000_000)
        } else {
            None
        },
        (CaptureMode::Streaming, LinkSpeed::Super) => if width <= 3 {
            Some(1_000_000_000)
        } else if width <= 6 {
            Some(500_000_000)
        } else if width <= 12 {
            Some(250_000_000)
        } else if width <= 16 {
            Some(125_000_000)
        } else {
            None
        },
    }
}

/// The slowest rate of a mode.
pub open spec fn min_rate(speed: LinkSpeed, mode: CaptureMode) -> u64 {
    if mode == CaptureMode::Streaming && speed == LinkSpeed::High {
        100_000
    } else {
        1_000_000
    }
}

/// The slowest rate of a mode, whatever its inputs.
pub fn mode_min_rate(speed: LinkSpeed, mode: CaptureMode, _width: u8) -> (result: Option<u64>)
    ensures
        result == Some(min_rate(speed, mode)),
{
    match (mode, speed) {
        (CaptureMode::Streaming, LinkSpeed::High) => Some(100_000),
        _ => Some(1_000_000),
    }
}

/// Quotient rounded up, where the rounding does not overflow.
pub fn div_ceil(n: u64, d: u64) -> (result: Result<u64, LogicAnalyzerError>)
    requires
        d > 0,
    ensures
        match result {
            Ok(quotient) => n + d - 1 <= u64::MAX && quotient == spec_div_ceil(n as int, d as int),
            Err(error) => n + d - 1 > u64::MAX && error@ == ErrorView::InvalidSettings(
                "arithmetic overflow"@,
            ),
        },
{
    match n.checked_add(d - 1) {
        Some(sum) => Ok(sum / d),
        None => Err(invalid_settings("arithmetic overflow")),
    }
}

/// The next multiple.
pub open spec fn rounded_up(value: int, multiple: int) -> int {
    spec_div_ceil(value, multiple) * multiple
}

proof fn lemma_rounded_up(value: int, multiple: int)
    requires
        value >= 0,
        multiple > 0,
    ensures
        value <= rounded_up(value, multiple) <= value + multiple - 1,
        spec_div_ceil(value, multiple) >= 0,
{
    vstd::arithmetic::div_mod::lemma_fundamental_div_mod(value + multiple - 1, multiple);
    vstd::arithmetic::div_mod::lemma_div_pos_is_pos(value + multiple - 1, multiple);
    let q = spec_div_ceil(value, multiple);
    assert(q * multiple == multiple * q) by (nonlinear_arith);
}

/// Rounds up to a multiple, where that does not overflow.
pub fn round_up(value: u64, multiple: u64) -> (result: Result<u64, LogicAnalyzerError>)
    requires
        multiple > 0,
    ensures
        match result {
            Ok(rounded) => value + multiple - 1 <= u64::MAX && rounded == rounded_up(
                value as int,
                multiple as int,
            ),
            Err(error) => value + multiple - 1 > u64::MAX && error@ == ErrorView::InvalidSettings(
                "arithmetic overflow"@,
            ),
        },
{
    let units: u64 = match div_ceil(value, multiple) {
        Ok(units) => units,
        Err(error) => return Err(error),
    };
    proof {
        lemma_rounded_up(value as int, multiple as int);
    }
    match units.checked_mul(multiple) {
        Some(rounded) => Ok(rounded),
        None => Err(invalid_settings("arithmetic overflow")),
    }
}

/// Rounds up to a multiple.
pub fn round_up_usize(value: usize, multiple: usize) -> (result: usize)
    requires
        multiple > 0,
        value + multiple - 1 <= usize::MAX,
    ensures
        result == rounded_up(value as int, multiple as int),
{
    proof {
        lemma_rounded_up(value as int, multiple as int);
    }
    (value + (multiple - 1)) / multiple * multiple
}

/// Samples that the device memory holds for each of `channels` inputs.
pub open spec fn input_depth(channels: int) -> int {
    MEMORY_SAMPLES as int / channels / 1024 * 1024
}

/// Samples that the device memory holds for each of `channels` inputs.
pub fn per_input_depth(channels: u8) -> (result: u64)
    requires
        channels > 0,
    ensures
        result == input_depth(channels as int),
        result <= MEMORY_SAMPLES,
{
    let share: u64 = MEMORY_SAMPLES / channels as u64;
    proof {
        vstd::arithmetic::div_mod::lemma_div_is_ordered_by_denominator(
            MEMORY_SAMPLES as int,
            1,
            channels as int,
        );
    }
    share / 1024 * 1024
}

/// Number of the highest enabled input plus one.
pub open spec fn mask_width(mask: u16) -> int {
    16 - u16_leading_zeros(mask)
}

/// Why a rate lies outside a mode.
pub open spec fn range_message(rate: u64, min: u64, max: u64) -> Seq<char> {
    decimal(rate as nat) + " Hz is outside this mode's "@ + decimal(min as nat) + "..="@ + decimal(
        max as nat,
    ) + " Hz range"@
}

/// Why a finite capture does not fit the device memory.
pub open spec fn depth_message(samples: int, depth: int) -> Seq<char> {
    "finite capture requests "@ + decimal(samples as nat) + " samples, but "@ + decimal(
        depth as nat,
    ) + " are available per enabled input"@
}

/// Bytes that hold a number of samples of each channel.
pub open spec fn capture_bytes(samples: int, channels: int) -> int {
    (samples * channels + 7) / 8
}

/// Bytes in which half a millisecond of samples arrives, in whole packets of the link.
pub open spec fn transfer_bytes(speed: LinkSpeed, rate: u64, channels: int) -> int {
    rounded_up(
        spec_div_ceil(spec_div_ceil(rate * channels, 8_000), 2),
        if speed == LinkSpeed::Super {
            1024
        } else {
            512
        },
    )
}

/// The plan for settings on a link, or why there is none.
pub open spec fn planned(speed: LinkSpeed, settings: SettingsView) -> Result<
    DsLogicCapturePlan,
    ErrorView,
> {
    let channels = enabled_inputs(settings.input_mask as u64) as int;
    let max = max_rate(speed, settings.mode, mask_width(settings.input_mask))->0;
    let min = min_rate(speed, settings.mode);
    let finite = settings.mode == CaptureMode::Finite;
    let samples = if finite {
        rounded_up(settings.sample_limit as int, 1024)
    } else {
        settings.sample_limit as int
    };
    if !rates().contains(settings.sample_rate_hz) {
        Err(
            ErrorView::InvalidSettings(
                "sample rate must be one of the device's discrete supported rates"@,
            ),
        )
    } else if channels == 0 || settings.sample_limit == 0 {
        Err(
            ErrorView::InvalidSettings(
                "capture requires enabled inputs and a non-zero sample limit"@,
            ),
        )
    } else if settings.sample_rate_hz < min || settings.sample_rate_hz > max {
        Err(ErrorView::InvalidSettings(range_message(settings.sample_rate_hz, min, max)))
    } else if finite && settings.sample_limit + 1023 > u64::MAX {
        Err(ErrorView::InvalidSettings("arithmetic overflow"@))
    } else if finite && samples > input_depth(channels) {
        Err(ErrorView::InvalidSettings(depth_message(samples, input_depth(channels))))
    } else if samples * channels + 7 > u64::MAX {
        Err(ErrorView::InvalidSettings("capture size overflows"@))
    } else if capture_bytes(samples, channels) > usize::MAX {
        Err(ErrorView::InvalidSettings("capture is too large for this host"@))
    } else {
        Ok(
            DsLogicCapturePlan {
                channels: channels as u8,
                actual_samples: samples as u64,
                actual_bytes: capture_bytes(samples, channels) as usize,
                stream_buffer: transfer_bytes(
                    speed,
                    settings.sample_rate_hz,
                    channels,
                ) as usize,
            },
        )
    }
}

proof fn lemma_mask_inputs(mask: u16)
    ensures
        enabled_inputs(mask as u64) <= 16,
        mask_width(mask) <= 16,
        enabled_inputs(mask as u64) > 0 ==> mask_width(mask) >= 1,
{
    assert forall|j: int| 16 <= j < 64 implies !#[trigger] word_bit(mask as u64, j) by {
        let k = j as u64;
        assert(((mask as u64) >> k) & 1 == 0) by (bit_vector)
            requires
                16 <= k < 64,
        ;
    }
    lemma_enabled_above(mask as u64, 16);
    axiom_u16_leading_zeros(mask);
    if mask == 0 {
        assert forall|j: int| 0 <= j < 64 implies !#[trigger] word_bit(mask as u64, j) by {
            crate::bits::lemma_word_ops(0, 0, j);
        }
        lemma_enabled_above(mask as u64, 0);
    }
}

fn range_error(rate: u64, min: u64, max: u64) -> (result: LogicAnalyzerError)
    ensures
        result@ == ErrorView::InvalidSettings(range_message(rate, min, max)),
{
    let mut message: Vec<char> = decimal_chars(rate);
    append_chars(&mut message, to_chars(" Hz is outside this mode's ").as_slice());
    append_chars(&mut message, decimal_chars(min).as_slice());
    append_chars(&mut message, to_chars("..=").as_slice());
    append_chars(&mut message, decimal_chars(max).as_slice());
    append_chars(&mut message, to_chars(" Hz range").as_slice());
    LogicAnalyzerError::InvalidSettings(from_chars(message.as_slice()))
}

fn depth_error(samples: u64, depth: u64) -> (result: LogicAnalyzerError)
    ensures
        result@ == ErrorView::InvalidSettings(depth_message(samples as int, depth as int)),
{
    let mut message: Vec<char> = to_chars("finite capture requests ");
    append_chars(&mut message, decimal_chars(samples).as_slice());
    append_chars(&mut message, to_chars(" samples, but ").as_slice());
    append_chars(&mut message, decimal_chars(depth).as_slice());
    append_chars(&mut message, to_chars(" are available per enabled input").as_slice());
    LogicAnalyzerError::InvalidSettings(from_chars(message.as_slice()))
}

/// Plans a capture on a link.
pub fn build_plan(speed: LinkSpeed, settings: &DsLogicCaptureSettings) -> (result: Result<
    DsLogicCapturePlan,
    LogicAnalyzerError,
>)
    ensures
        match result {
            Ok(plan) => planned(speed, settings@) == Ok::<_, ErrorView>(plan) && plan.wf(),
            Err(error) => planned(speed, settings@) == Err::<DsLogicCapturePlan, _>(error@),
        },
{
    let rate: u64 = settings.sample_rate_hz;
    if !supports_rate(rate) {
        return Err(
            invalid_settings("sample rate must be one of the device's discrete supported rates"),
        );
    }
    let channels: u8 = count_inputs(settings.input_mask as u64);
    if channels == 0 || settings.sample_limit == 0 {
        return Err(
            invalid_settings("capture requires enabled inputs and a non-zero sample limit"),
        );
    }
    proof {
        lemma_mask_inputs(settings.input_mask);
    }
    let zeros: u32 = settings.input_mask.leading_zeros();
    let width: u8 = 16 - zeros as u8;
    let max: u64 = match mode_max_rate(speed, settings.mode, width) {
        Some(max) => max,
        None => {
            return Err(invalid_settings("input mask does not fit a hardware acquisition mode"));
        },
    };
    let min: u64 = mode_min_rate(speed, settings.mode, width).unwrap();
    if rate < min || rate > max {
        return Err(range_error(rate, min, max));
    }
    let actual_samples: u64 = match settings.mode {
        CaptureMode::Finite => match round_up(settings.sample_limit, 1024) {
            Ok(samples) => samples,
            Err(error) => return Err(error),
        },
        CaptureMode::Streaming => settings.sample_limit,
    };
    let depth: u64 = per_input_depth(channels);
    if settings.mode == CaptureMode::Finite && actual_samples > depth {
        return Err(depth_error(actual_samples, depth));
    }
    let bits: u64 = match actual_samples.checked_mul(channels as u64) {
        Some(bits) => bits,
        None => return Err(invalid_settings("capture size overflows")),
    };
    let rounded: u64 = match bits.checked_add(7) {
        Some(rounded) => rounded,
        None => return Err(invalid_settings("capture size overflows")),
    };
    let actual_bytes: u64 = rounded / 8;
    assert(rate * channels <= 16_000_000_000) by (nonlinear_arith)
        requires
            rate <= 1_000_000_000,
            channels <= 16,
    ;
    let bytes_per_ms: u64 = (rate * channels as u64 + 7_999) / 8_000;
    let half: usize = ((bytes_per_ms + 1) / 2) as usize;
    let stream_buffer: usize = match speed {
        LinkSpeed::Super => round_up_usize(half, 1024),
        LinkSpeed::High => round_up_usize(half, 512),
    };
    if actual_bytes > usize::MAX as u64 {
        return Err(invalid_settings("capture is too large for this host"));
    }
    Ok(
        DsLogicCapturePlan {
            channels,
            actual_samples,
            actual_bytes: actual_bytes as usize,
            stream_buffer,
        },
    )
}

/// Plans a device-buffered capture without a device. Memory and rate limits of finite captures do
/// not depend on the link.
pub fn u3pro16_buffered_plan(config: &LogicCaptureConfig) -> (result: Result<
    DsLogicCapturePlan,
    LogicAnalyzerError,
>)
    ensures
        match (result, configured(*config)) {
            (Err(error), _) if config.mode != CaptureMode::Finite => error@
                == ErrorView::InvalidSettings("buffered acquisition requires finite capture mode"@),
            (Err(error), Err(refused)) => error@ == refused,
            (Err(error), Ok(settings)) => planned(LinkSpeed::Super, settings) == Err::<
                DsLogicCapturePlan,
                _,
            >(error@),
            (Ok(plan), Ok(settings)) => config.mode == CaptureMode::Finite && planned(
                LinkSpeed::Super,
                settings,
            ) == Ok::<_, ErrorView>(plan),
            (Ok(plan), Err(_)) => false,
        },
{
    if config.mode != CaptureMode::Finite {
        return Err(invalid_settings("buffered acquisition requires finite capture mode"));
    }
    match settings_from_config(config) {
        Ok(settings) => build_plan(LinkSpeed::Super, &settings),
        Err(error) => Err(error),
    }
}

/// Plans a host-streamed capture on one link.
pub fn u3pro16_streaming_plan(config: &LogicCaptureConfig, link_speed: LinkSpeed) -> (result: Result<
    DsLogicCapturePlan,
    LogicAnalyzerError,
>)
    ensures
        match (result, configured(*config)) {
            (Err(error), _) if config.mode != CaptureMode::Streaming => error@
                == ErrorView::InvalidSettings(
                "host-streamed acquisition requires streaming capture mode"@,
            ),
            (Err(error), Err(refused)) => error@ == refused,
            (Err(error), Ok(settings)) => planned(link_speed, settings) == Err::<
                DsLogicCapturePlan,
                _,
            >(error@),
            (Ok(plan), Ok(settings)) => config.mode == CaptureMode::Streaming && planned(
                link_speed,
                settings,
            ) == Ok::<_, ErrorView>(plan),
            (Ok(plan), Err(_)) => false,
        },
{
    if config.mode != CaptureMode::Streaming {
        return Err(invalid_settings("host-streamed acquisition requires streaming capture mode"));
    }
    match settings_from_config(config) {
        Ok(settings) => build_plan(link_speed, &settings),
        Err(error) => Err(error),
    }
}

/// The limits of a finite capture do not depend on the link: both speeds refuse the same settings
/// for the same reason, and accept the others with the same samples and bytes.
pub proof fn law_finite_limits_do_not_depend_on_the_link(settings: SettingsView)
    requires
        settings.mode == CaptureMode::Finite,
    ensures
        match (planned(LinkSpeed::High, settings), planned(LinkSpeed::Super, settings)) {
            (Ok(high), Ok(fast)) => high.channels == fast.channels && high.actual_samples
                == fast.actual_samples && high.actual_bytes == fast.actual_bytes,
            (Err(high), Err(fast)) => high == fast,
            _ => false,
        },
{
}

/// A plan captures at least the requested samples, in a finite capture rounded up to the next
/// multiple of 1024 and no more than the device memory holds, in bytes that hold them all.
pub proof fn law_plan_covers_the_request(speed: LinkSpeed, settings: SettingsView)
    requires
        planned(speed, settings) is Ok,
    ensures
        ({
            let plan = planned(speed, settings)->Ok_0;
            &&& settings.sample_limit <= plan.actual_samples
            &&& settings.mode == CaptureMode::Streaming ==> plan.actual_samples
                == settings.sample_limit
            &&& settings.mode == CaptureMode::Finite ==> plan.actual_samples % 1024 == 0
                && plan.actual_samples < settings.sample_limit + 1024 && plan.actual_samples
                * plan.channels <= MEMORY_SAMPLES
            &&& plan.actual_samples * plan.channels <= 8 * plan.actual_bytes
                < plan.actual_samples * plan.channels + 8
        }),
{
    lemma_rounded_up(settings.sample_limit as int, 1024);
    lemma_mask_inputs(settings.input_mask);
    let channels = enabled_inputs(settings.input_mask as u64) as int;
    let plan = planned(speed, settings)->Ok_0;
    let bits = plan.actual_samples * channels;
    assert(bits >= 0) by (nonlinear_arith)
        requires
            bits == plan.actual_samples * channels,
            channels >= 0,
    ;
    if settings.mode == CaptureMode::Finite {
        let depth = input_depth(channels);
        vstd::arithmetic::div_mod::lemma_fundamental_div_mod(MEMORY_SAMPLES as int, channels);
        assert(plan.actual_samples * channels <= MEMORY_SAMPLES) by (nonlinear_arith)
            requires
                plan.actual_samples <= depth,
                depth <= MEMORY_SAMPLES as int / channels,
                MEMORY_SAMPLES == channels * (MEMORY_SAMPLES as int / channels)
                    + MEMORY_SAMPLES as int % channels,
                MEMORY_SAMPLES as int % channels >= 0,
                channels > 0,
        ;
    }
}

} // verus!
