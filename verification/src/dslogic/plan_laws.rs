//! What plans, headers and the course of a capture come to.

use vstd::prelude::*;
use vstd::arithmetic::power2::pow2;

use super::blocks::{cross_index, crossed_bit, is_canonical};
use super::capture::{
    first_read_bytes, first_reads, read_limit, start_continued, started, stop_begun, stop_continued,
    DriverView, StartReply, StartStage, StartStepView, StartView, StopReply, StopStage,
    StopStepView,
};
use super::header::{delivered, translated, DsLogicTriggerHeader};
use super::ops::OpView;
use super::plan::{
    configured, input_depth, mask_width, max_rate, min_rate, planned, rates, rounded_up,
    transfer_bytes, DsLogicCapturePlan, LinkSpeed, SettingsView, MEMORY_SAMPLES,
};
use super::request::{link_plan, window_of};
use super::usb::RequestView;
use crate::bit_laws::{
    bytes_number, law_packed_bits_are_binary_digits, law_units_for_value,
    law_words_are_numbers_of_bytes, number_bit,
};
use crate::bits::{bit_of, spec_div_ceil};
use crate::little_endian::word32;
use crate::logic_analyzer::config::{
    enabled_inputs, CaptureMode, ClockEdge, ClockSource, LogicCaptureConfig, LogicEncodingRequest,
    Threshold,
};
use crate::logic_analyzer::error::LogicAnalyzerError;

verus! {

/// The rates of the device rise from ten hertz to one gigahertz, and all but the fastest come from
/// dividing its clock.
pub proof fn law_rates_divide_the_clock(i: int, j: int)
    requires
        0 <= i < j < rates().len(),
    ensures
        rates()[i] < rates()[j],
        rates()[i] >= 10,
        rates()[j] <= 1_000_000_000,
        500_000_000int % rates()[i] as int == 0,
        rates().last() == 1_000_000_000,
        rates()[rates().len() - 2] == 500_000_000,
        rates().len() == 30,
{
    let all = rates();
    lemma_rates(i);
    lemma_rates(j);
    lemma_rates_rise(i, j);
    assert(all[29] == 1_000_000_000 && all[28] == 500_000_000);
}

proof fn lemma_rates(i: int)
    requires
        0 <= i < rates().len(),
    ensures
        10 <= rates()[i] <= 1_000_000_000,
        i < 29 ==> 500_000_000int % rates()[i] as int == 0,
        rates().len() == 30,
{
    let all = rates();
    assert(500_000_000int % 10 == 0 && 500_000_000int % 20 == 0 && 500_000_000int % 50 == 0
        && 500_000_000int % 100 == 0 && 500_000_000int % 200 == 0 && 500_000_000int % 500 == 0
        && 500_000_000int % 1_000 == 0 && 500_000_000int % 2_000 == 0 && 500_000_000int % 5_000 == 0
        && 500_000_000int % 10_000 == 0 && 500_000_000int % 20_000 == 0 && 500_000_000int % 40_000
        == 0 && 500_000_000int % 50_000 == 0 && 500_000_000int % 100_000 == 0 && 500_000_000int
        % 200_000 == 0 && 500_000_000int % 400_000 == 0 && 500_000_000int % 500_000 == 0
        && 500_000_000int % 1_000_000 == 0 && 500_000_000int % 2_000_000 == 0 && 500_000_000int
        % 4_000_000 == 0 && 500_000_000int % 5_000_000 == 0 && 500_000_000int % 10_000_000 == 0
        && 500_000_000int % 20_000_000 == 0 && 500_000_000int % 25_000_000 == 0 && 500_000_000int
        % 50_000_000 == 0 && 500_000_000int % 100_000_000 == 0 && 500_000_000int % 125_000_000 == 0
        && 500_000_000int % 250_000_000 == 0 && 500_000_000int % 500_000_000 == 0);
}

proof fn lemma_rates_rise(i: int, j: int)
    requires
        0 <= i < j < rates().len(),
    ensures
        rates()[i] < rates()[j],
    decreases j - i,
{
    if i + 1 < j {
        lemma_rates_rise(i, j - 1);
    }
    let all = rates();
    let k = j - 1;
    assert(all[k] < all[k + 1]);
}

/// The fastest rate never rises with the number of the highest input. A finite capture reaches the
/// fastest rate on half of the inputs and half of it on all; a streaming one is limited by what the
/// link carries. Wider masks than the device has get no rate.
pub proof fn law_fastest_rates(speed: LinkSpeed, mode: CaptureMode, width: int, wider: int)
    requires
        0 <= width <= wider <= 16,
    ensures
        max_rate(speed, mode, width) is Some,
        max_rate(speed, mode, 17) is None,
        max_rate(speed, mode, width)->0 >= max_rate(speed, mode, wider)->0,
        mode == CaptureMode::Finite ==> max_rate(speed, mode, width)->0 == (if width <= 8 {
            1_000_000_000u64
        } else {
            500_000_000
        }),
        mode == CaptureMode::Streaming && speed == LinkSpeed::High ==> max_rate(
            speed,
            mode,
            width,
        )->0 * width <= 320_000_000,
        mode == CaptureMode::Streaming && speed == LinkSpeed::Super ==> max_rate(
            speed,
            mode,
            width,
        )->0 * width <= 3_000_000_000,
        mode == CaptureMode::Streaming && width <= 12 ==> max_rate(LinkSpeed::Super, mode, width)->0
            == 10 * max_rate(LinkSpeed::High, mode, width)->0,
        mode == CaptureMode::Streaming ==> (max_rate(speed, mode, width)->0 == max_rate(
            speed,
            mode,
            wider,
        )->0 <==> (wider <= 3 || (3 < width && wider <= 6) || (6 < width && wider <= 12) || 12 < width)),
        max_rate(LinkSpeed::High, CaptureMode::Streaming, 3) == Some(100_000_000u64),
        max_rate(LinkSpeed::High, CaptureMode::Streaming, 6) == Some(50_000_000u64),
        max_rate(LinkSpeed::High, CaptureMode::Streaming, 12) == Some(25_000_000u64),
        max_rate(LinkSpeed::High, CaptureMode::Streaming, 16) == Some(20_000_000u64),
        max_rate(LinkSpeed::Super, CaptureMode::Streaming, 16) == Some(125_000_000u64),
        min_rate(speed, mode) <= max_rate(speed, mode, width)->0,
        min_rate(speed, mode) == (if mode == CaptureMode::Streaming && speed == LinkSpeed::High {
            100_000u64
        } else {
            1_000_000
        }),
{
    let rate = max_rate(speed, mode, width)->0 as int;
    assert(rate * width <= 320_000_000 || speed == LinkSpeed::Super || mode == CaptureMode::Finite)
        by (nonlinear_arith)
        requires
            0 <= width <= 16,
            speed == LinkSpeed::Super || mode == CaptureMode::Finite || (width <= 3 && rate
                == 100_000_000) || (width <= 6 && rate == 50_000_000) || (width <= 12 && rate
                == 25_000_000) || rate == 20_000_000,
    ;
    assert(rate * width <= 3_000_000_000 || speed == LinkSpeed::High || mode == CaptureMode::Finite)
        by (nonlinear_arith)
        requires
            0 <= width <= 16,
            speed == LinkSpeed::High || mode == CaptureMode::Finite || (width <= 3 && rate
                == 1_000_000_000) || (width <= 6 && rate == 500_000_000) || (width <= 12 && rate
                == 250_000_000) || rate == 125_000_000,
    ;
}

/// The width of a mask is that of its number: its highest binary digit is the last one counted.
pub proof fn law_width_of_a_mask(mask: u16)
    requires
        mask > 0,
    ensures
        1 <= mask_width(mask) <= 16,
        number_bit(mask as int, (mask_width(mask) - 1) as nat),
        mask < pow2(mask_width(mask) as nat),
{
    let zeros = vstd::std_specs::bits::u16_leading_zeros(mask);
    let top = (15 - zeros) as u16;
    let width = (16 - zeros) as u16;
    assert((mask >> top) & 1u16 != 0u16 && mask >> width == 0);
    vstd::bits::lemma_u16_shr_is_div(mask, top);
    lemma_low_bit_u16(mask >> top);
    vstd::arithmetic::power2::lemma2_to64();
    if width < 16 {
        vstd::bits::lemma_u16_shr_is_div(mask, width);
        vstd::arithmetic::power2::lemma_pow2_pos(width as nat);
        let unit = pow2(width as nat) as int;
        vstd::arithmetic::div_mod::lemma_fundamental_div_mod(mask as int, unit);
        assert(unit * 0 == 0);
        vstd::arithmetic::div_mod::lemma_mod_bound(mask as int, unit);
    }
}

proof fn lemma_low_bit_u16(word: u16)
    by (bit_vector)
    ensures
        word & 1u16 == word % 2,
{
}

/// The memory is shared equally: the share of an input is the greatest number of whole kilosamples
/// with which all inputs fit.
pub proof fn law_memory_is_shared(channels: int)
    requires
        channels > 0,
    ensures
        input_depth(channels) % 1024 == 0,
        input_depth(channels) * channels <= MEMORY_SAMPLES,
        MEMORY_SAMPLES < (input_depth(channels) + 1024) * channels,
        MEMORY_SAMPLES == 2 * 1024 * 1024 * 1024,
{
    let share = MEMORY_SAMPLES as int / channels;
    let depth = input_depth(channels);
    vstd::arithmetic::div_mod::lemma_fundamental_div_mod(MEMORY_SAMPLES as int, channels);
    assert(depth <= share < depth + 1024);
    assert(depth * channels <= MEMORY_SAMPLES && MEMORY_SAMPLES < (depth + 1024) * channels)
        by (nonlinear_arith)
        requires
            MEMORY_SAMPLES == channels * share + MEMORY_SAMPLES as int % channels,
            0 <= MEMORY_SAMPLES as int % channels < channels,
            depth <= share < depth + 1024,
            channels > 0,
    ;
}

/// A rounded number is the next multiple.
pub proof fn law_rounding_up(value: int, multiple: int)
    requires
        value >= 0,
        multiple > 0,
    ensures
        rounded_up(value, multiple) >= value,
        rounded_up(value, multiple) < value + multiple,
        rounded_up(value, multiple) % multiple == 0,
{
    law_units_for_value(value, multiple);
    let units = spec_div_ceil(value, multiple);
    assert((units - 1) * multiple == units * multiple - multiple) by (nonlinear_arith);
    vstd::arithmetic::div_mod::lemma_mod_multiples_basic(units, multiple);
}

/// A transfer of a stream holds at least half a millisecond of samples, in whole packets of the link,
/// and less than a packet more, up to the rounding of half a byte.
pub proof fn law_transfer_holds_half_a_millisecond(speed: LinkSpeed, rate: u64, channels: int)
    requires
        channels >= 0,
    ensures
        ({
            let packet = if speed == LinkSpeed::Super {
                1024int
            } else {
                512
            };
            let bytes = transfer_bytes(speed, rate, channels);
            &&& bytes % packet == 0
            &&& bytes * 16_000 >= rate * channels
            &&& (bytes - packet - 1) * 16_000 < rate * channels
        }),
{
    let bits = rate * channels;
    assert(bits >= 0) by (nonlinear_arith)
        requires
            bits == rate * channels,
            channels >= 0,
            rate >= 0,
    ;
    let packet = if speed == LinkSpeed::Super {
        1024int
    } else {
        512
    };
    let whole = spec_div_ceil(bits, 8_000);
    let half = spec_div_ceil(whole, 2);
    law_units_for_value(bits, 8_000);
    law_units_for_value(whole, 2);
    law_rounding_up(half, packet);
}

/// A request is taken over setting by setting, and refused only where the device has no such input,
/// no such threshold, no such trigger position or not so many stages.
pub proof fn law_request_is_taken_over(config: LogicCaptureConfig)
    ensures
        configured(config) is Ok <==> {
            &&& config.input_mask < 0x1_0000
            &&& config.threshold != Some(Threshold::NotFinite)
            &&& config.trigger_percent <= 100
            &&& config.trigger.stages@.len() <= 16
        },
        configured(config) matches Ok(settings) ==> {
            &&& settings.mode == config.mode
            &&& settings.sample_rate_hz == config.sample_rate_hz
            &&& settings.input_mask == config.input_mask
            &&& settings.sample_limit == config.sample_limit
            &&& settings.trigger_percent == config.trigger_percent
            &&& settings.threshold == config.threshold
            &&& settings.trigger == config.trigger@
            &&& settings.run_length <==> config.encoding == LogicEncodingRequest::RunLength
            &&& settings.external_clock <==> config.clock != ClockSource::Internal
            &&& settings.external_clock_active_edge <==> (
            config.clock matches ClockSource::External { edge } && edge == ClockEdge::Rising)
            &&& settings.input_filter == config.input_filter
        },
{
}

/// Settings get a plan only where the rate is one of the device's and within the limits of mode, link
/// and inputs, where there are inputs and samples, and where a finite capture fits the memory; and the
/// plan has as many channels as there are enabled inputs.
pub proof fn law_plan_needs_proper_settings(speed: LinkSpeed, settings: SettingsView)
    requires
        planned(speed, settings) is Ok,
    ensures
        ({
            let plan = planned(speed, settings)->Ok_0;
            &&& rates().contains(settings.sample_rate_hz)
            &&& plan.channels == enabled_inputs(settings.input_mask as u64)
            &&& plan.channels >= 1
            &&& settings.sample_limit >= 1
            &&& settings.sample_rate_hz >= min_rate(speed, settings.mode)
            &&& settings.sample_rate_hz <= max_rate(
                speed,
                settings.mode,
                mask_width(settings.input_mask),
            )->0
            &&& plan.stream_buffer == transfer_bytes(
                speed,
                settings.sample_rate_hz,
                plan.channels as int,
            )
        }),
{
    let mask = settings.input_mask as u64;
    lemma_few_inputs(mask, 64);
    assert(enabled_inputs(mask) <= 64);
    let rate = settings.sample_rate_hz;
    let i = choose|i: int| 0 <= i < rates().len() && rates()[i] == rate;
    lemma_rates(i);
    let channels = enabled_inputs(mask) as int;
    law_transfer_holds_half_a_millisecond(speed, rate, channels);
    assert(rate * channels <= 64_000_000_000) by (nonlinear_arith)
        requires
            rate <= 1_000_000_000,
            0 <= channels <= 64,
    ;
    assert(transfer_bytes(speed, rate, channels) >= 0) by {
        assert(rate * channels >= 0) by (nonlinear_arith)
            requires
                0 <= channels,
        ;
    }
}

proof fn lemma_few_inputs(mask: u64, width: nat)
    ensures
        crate::logic_analyzer::config::enabled_below(mask, width) <= width,
    decreases width,
{
    if width > 0 {
        lemma_few_inputs(mask, (width - 1) as nat);
    }
}

/// A header is read as little-endian numbers: its mark, the position of the trigger, the start in
/// memory, the samples that remain, and whether there was a trigger. Of a finite capture the samples
/// that do not remain were captured, in whole kilosamples.
pub proof fn law_header_is_read_as_numbers(bytes: Seq<u8>, mode: CaptureMode, plan: DsLogicCapturePlan)
    requires
        translated(bytes, mode, plan) is Ok,
    ensures
        ({
            let header = translated(bytes, mode, plan)->Ok_0;
            &&& bytes.len() >= 24
            &&& bytes[0] == 0x55 && bytes[1] == 0x55 && bytes[2] == 0x55 && bytes[3] == 0x55
            &&& header.ram_start == bytes_number(bytes.subrange(8, 12))
            &&& header.remaining_samples == bytes_number(bytes.subrange(12, 16)) + 0x1_0000_0000
                * bytes_number(bytes.subrange(16, 20))
            &&& header.trigger_sample is Some <==> bytes[20] % 2 == 1
            &&& header.trigger_sample matches Some(sample) ==> sample == bytes_number(
                bytes.subrange(4, 8),
            )
            &&& mode == CaptureMode::Streaming ==> header.captured_samples == plan.actual_samples
            &&& mode == CaptureMode::Finite ==> header.captured_samples + header.remaining_samples
                <= plan.actual_samples && plan.actual_samples < header.captured_samples
                + header.remaining_samples + 1024
            &&& mode == CaptureMode::Finite ==> header.remaining_samples < plan.actual_samples
            &&& header.trigger_sample matches Some(sample) ==> sample < header.captured_samples
        }),
{
    law_words_are_numbers_of_bytes(bytes, 4);
    law_words_are_numbers_of_bytes(bytes, 8);
    law_words_are_numbers_of_bytes(bytes, 12);
    law_words_are_numbers_of_bytes(bytes, 16);
    assert(word32(bytes, 0) == 0x5555_5555);
    lemma_four_bytes(bytes[0], bytes[1], bytes[2], bytes[3]);
    assert(word32(bytes, 20) % 2 == bytes[20] % 2);
    assert(0 <= word32(bytes, 4) < 0x1_0000_0000 && 0 <= word32(bytes, 8) < 0x1_0000_0000 && 0
        <= word32(bytes, 12) < 0x1_0000_0000 && 0 <= word32(bytes, 16) < 0x1_0000_0000);
}

/// A header with its mark is accepted where samples were captured and the trigger, if there was one, is
/// among them.
pub proof fn law_proper_headers_are_accepted(
    bytes: Seq<u8>,
    mode: CaptureMode,
    plan: DsLogicCapturePlan,
)
    requires
        bytes.len() >= 24,
        bytes[0] == 0x55 && bytes[1] == 0x55 && bytes[2] == 0x55 && bytes[3] == 0x55,
        bytes[20] % 2 == 0 || bytes_number(bytes.subrange(4, 8)) + 1024 <= plan.actual_samples,
        mode == CaptureMode::Finite ==> bytes_number(bytes.subrange(12, 16)) + 0x1_0000_0000
            * bytes_number(bytes.subrange(16, 20)) < plan.actual_samples,
        mode == CaptureMode::Finite && bytes[20] % 2 == 1 ==> bytes_number(bytes.subrange(4, 8))
            + bytes_number(bytes.subrange(12, 16)) + 0x1_0000_0000 * bytes_number(
            bytes.subrange(16, 20),
        ) + 1024 <= plan.actual_samples,
    ensures
        translated(bytes, mode, plan) is Ok,
{
    law_words_are_numbers_of_bytes(bytes, 4);
    law_words_are_numbers_of_bytes(bytes, 12);
    law_words_are_numbers_of_bytes(bytes, 16);
    assert(word32(bytes, 0) == 0x5555_5555);
    assert(word32(bytes, 20) % 2 == bytes[20] % 2);
}

proof fn lemma_four_bytes(a: u8, b: u8, c: u8, d: u8)
    ensures
        a + 256 * b + 0x1_0000 * (c + 256 * d) == 0x5555_5555 ==> a == 0x55 && b == 0x55 && c == 0x55
            && d == 0x55,
{
}

/// What is delivered is just what the captured samples take, in whole blocks of 64 samples of each
/// channel.
pub proof fn law_delivered_bytes_hold_whole_blocks(
    header: DsLogicTriggerHeader,
    plan: DsLogicCapturePlan,
)
    ensures
        8 * delivered(header, plan) == (header.captured_samples - header.captured_samples % 64)
            * plan.channels,
{
    let blocks = header.captured_samples as int / 64;
    assert(8 * (blocks * plan.channels * 8) == (64 * blocks) * plan.channels) by (nonlinear_arith);
}

/// The canonical data of a device stream has, sample after sample, one binary digit for each channel;
/// the device sends 64 samples of a channel behind each other, channel after channel.
pub proof fn law_canonical_data_has_the_levels(
    output: Seq<u8>,
    data: Seq<u8>,
    channels: int,
    block: int,
    channel: int,
    place: int,
)
    requires
        1 <= channels <= 16,
        is_canonical(output, data, channels),
        0 <= block,
        0 <= channel < channels,
        0 <= place < 64,
        (64 * block + place) * channels + channel < 8 * output.len(),
        64 * (block * channels + channel) + place < 8 * data.len(),
    ensures
        number_bit(
            bytes_number(output) as int,
            ((64 * block + place) * channels + channel) as nat,
        ) <==> number_bit(
            bytes_number(data) as int,
            (64 * (block * channels + channel) + place) as nat,
        ),
        output.len() % (8 * channels as nat) == 0,
        output.len() <= data.len(),
        data.len() - output.len() < 8 * channels,
{
    let sample = 64 * block + place;
    let index = sample * channels + channel;
    assert(0 <= sample * channels) by (nonlinear_arith)
        requires
            sample >= 0,
            channels > 0,
    ;
    vstd::arithmetic::div_mod::lemma_fundamental_div_mod_converse(index, channels, sample, channel);
    vstd::arithmetic::div_mod::lemma_fundamental_div_mod_converse(sample, 64, block, place);
    assert(cross_index(channels, sample, channel) == 64 * (block * channels + channel) + place)
        by (nonlinear_arith)
        requires
            cross_index(channels, sample, channel) == block * (64 * channels) + 64 * channel + place,
    ;
    assert(64 * (block * channels + channel) + place >= 0) by (nonlinear_arith)
        requires
            block >= 0,
            channels > 0,
            channel >= 0,
            place >= 0,
    ;
    law_packed_bits_are_binary_digits(output, index);
    law_packed_bits_are_binary_digits(data, 64 * (block * channels + channel) + place);
    assert(bit_of(output, index) == crossed_bit(data, channels, index));
    let size = 8 * channels;
    let len = data.len() as int;
    vstd::arithmetic::div_mod::lemma_fundamental_div_mod(len, size);
    vstd::arithmetic::div_mod::lemma_mod_multiples_basic(len / size, size);
    assert(size * (len / size) == len / size * size) by (nonlinear_arith);
}

/// The start of a capture: the receive of the header is queued, then as many data receives as the mode
/// asks for, one of a finite capture and four of a stream, and behind the last the start command is
/// sent. Then the capture is active, and begins at its first bit.
pub proof fn law_course_of_a_start(driver: DriverView, plan: DsLogicCapturePlan, queued: u8)
    requires
        queued < first_reads(driver.settings.mode),
    ensures
        first_reads(CaptureMode::Finite) == 1,
        first_reads(CaptureMode::Streaming) == 4,
        ({
            let start = StartView { stage: StartStage::QueueHeader, plan, failure: None };
            let (unchanged, (next, step)) = start_continued(
                driver,
                start,
                StartReply::Queued(Ok(true)),
            );
            &&& unchanged == driver
            &&& next.stage == (StartStage::QueueData { header_queued: true, queued: 0 })
            &&& step == StartStepView::Ask(
                RequestView::QueueBulkRead {
                    length: first_read_bytes(driver.settings.mode, plan),
                },
            )
        }),
        ({
            let start = StartView {
                stage: StartStage::QueueData { header_queued: true, queued },
                plan,
                failure: None,
            };
            let (unchanged, (next, step)) = start_continued(
                driver,
                start,
                StartReply::Queued(Ok(true)),
            );
            let last = queued + 1 == first_reads(driver.settings.mode);
            &&& unchanged == driver
            &&& !last ==> next.stage == (StartStage::QueueData {
                header_queued: true,
                queued: (queued + 1) as u8,
            }) && step == StartStepView::Ask(
                RequestView::QueueBulkRead {
                    length: first_read_bytes(driver.settings.mode, plan),
                },
            )
            &&& last ==> next.stage == (StartStage::Command {
                header_queued: true,
                queued: (queued + 1) as u8,
            }) && step == StartStepView::Op(
                OpView::Command { command: 8, offset: 0, data: Seq::empty() },
            )
        }),
        ({
            let after = started(driver, plan, true, queued);
            &&& after.active
            &&& after.header_pending
            &&& after.header_receive_queued
            &&& after.queued_data_receives == queued
            &&& after.plan == Some(plan)
            &&& after.bit_position == 0
            &&& after.device_block_carry.len() == 0
            &&& after.bytes_remaining is None
            &&& after.trigger_header is None
            &&& after.settings == driver.settings
            &&& after.link_speed == driver.link_speed
        }),
        plan.actual_bytes <= 1_048_576 ==> first_read_bytes(CaptureMode::Finite, plan)
            == plan.actual_bytes,
        plan.actual_bytes > 1_048_576 ==> first_read_bytes(CaptureMode::Finite, plan) == 1_048_576,
        first_read_bytes(CaptureMode::Streaming, plan) == plan.stream_buffer,
{
}

/// A failed start does not start: whatever fails behind the receive of the header, what is queued is
/// cancelled, and then the failure is reported and the driver is as it was.
pub proof fn law_failed_start_is_undone(
    driver: DriverView,
    plan: DsLogicCapturePlan,
    header_queued: bool,
    queued: u8,
    error: LogicAnalyzerError,
)
    ensures
        ({
            let start = StartView {
                stage: StartStage::Command { header_queued, queued },
                plan,
                failure: None,
            };
            let (unchanged, (next, step)) = start_continued(
                driver,
                start,
                StartReply::Op(Err(error)),
            );
            let (still, (end, result)) = start_continued(unchanged, next, StartReply::Cancelled);
            &&& step == StartStepView::Ask(RequestView::CancelQueuedBulkRead)
            &&& still == driver
            &&& end.stage == StartStage::Finished
            &&& result == StartStepView::Done(Err(error@))
        }),
{
}

/// The stop of an active capture: the acquisition is cleared, the stop command is sent, what is queued
/// is cancelled, and then the driver is idle. An idle driver only cancels what is queued.
pub proof fn law_course_of_a_stop(driver: DriverView, cleared: Vec<u8>, commanded: Vec<u8>)
    ensures
        ({
            let (clear, first) = stop_begun(driver);
            let (d1, command, second) = stop_continued(
                driver,
                StopStage::Clear,
                StopReply::Op(Ok(cleared)),
            );
            let (d2, cancel, third) = stop_continued(d1, command, StopReply::Op(Ok(commanded)));
            let (d3, finished, last) = stop_continued(d2, cancel, StopReply::Cancelled(Ok(())));
            &&& driver.active ==> clear == StopStage::Clear && first == StopStepView::Op(
                OpView::Command { command: 14, offset: 0x70, data: seq![0x02] },
            )
            &&& !driver.active ==> clear == StopStage::Cancel && first == StopStepView::Ask(
                RequestView::CancelQueuedBulkRead,
            )
            &&& second == StopStepView::Op(
                OpView::Command { command: 9, offset: 0, data: Seq::empty() },
            )
            &&& third == StopStepView::Ask(RequestView::CancelQueuedBulkRead)
            &&& last == StopStepView::Done(Ok(()))
            &&& finished == StopStage::Finished
            &&& !d3.active
            &&& d3.queued_data_receives == 0
            &&& !d3.header_receive_queued
            &&& d3.device_block_carry.len() == 0
            &&& d3.plan == driver.plan
            &&& d3.settings == driver.settings
        }),
{
}

/// A request captures as many samples as a plan of its own kind: a finite one those of its plan, which
/// no link changes, and a streaming one its limit, where one of the links carries it.
pub proof fn law_window_of_a_request(config: LogicCaptureConfig, channels: nat)
    ensures
        window_of(config, channels) matches Ok(window) ==> {
            &&& channels == enabled_inputs(config.input_mask)
            &&& channels > 0
            &&& config.mode == CaptureMode::Finite ==> (link_plan(
                config,
                LinkSpeed::Super,
            ) matches Ok(plan) && window == plan.actual_samples)
            &&& config.mode == CaptureMode::Streaming ==> window == config.sample_limit && (
            link_plan(config, LinkSpeed::High) is Ok || link_plan(config, LinkSpeed::Super) is Ok)
        },
        channels > 0 && channels == enabled_inputs(config.input_mask) && config.mode
            == CaptureMode::Streaming && (link_plan(config, LinkSpeed::High) is Ok || link_plan(
            config,
            LinkSpeed::Super,
        ) is Ok) ==> window_of(config, channels) is Ok,
        channels > 0 && channels == enabled_inputs(config.input_mask) && config.mode
            == CaptureMode::Finite && link_plan(config, LinkSpeed::Super) is Ok ==> window_of(
            config,
            channels,
        ) is Ok,
{
}

/// Data reads of a stream may take longer than those of a finite capture, where all data is there.
pub proof fn law_read_limits()
    ensures
        read_limit(CaptureMode::Finite) == 20,
        read_limit(CaptureMode::Streaming) == 125,
{
}

} // verus!
