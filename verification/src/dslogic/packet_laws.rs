//! What a settings packet tells the device.

use vstd::prelude::*;

use super::packet::{
    clock_divider, condition_flag, condition_word, flag, is_packet, mode_word, packet_stage,
    replicated, second_divider, trigger_place, words_of, ConditionWord,
};
use super::plan::{input_depth, DsLogicCapturePlan, SettingsView, MEMORY_SAMPLES};
use crate::bit_laws::number_bit;
use crate::little_endian::{word16, word32};
use crate::logic_analyzer::config::{
    CaptureMode, LogicTriggerStage, TriggerCondition, TriggerCountMode, TriggerLogic,
};
use vstd::arithmetic::power2::pow2;

verus! {

/// Percent of the memory in front of which the trigger may stand.
pub open spec fn memory_percent(mode: CaptureMode) -> int {
    if mode == CaptureMode::Streaming {
        10
    } else {
        90
    }
}

proof fn lemma_trigger_place(asked: int, most: int, place: int)
    requires
        asked >= 0,
        most >= 6400,
        ({
            let wanted = (if asked > u64::MAX {
                u64::MAX as int
            } else {
                asked
            }) / 100;
            let least = if wanted < 64 {
                64
            } else {
                wanted
            };
            place == (if least < most / 100 {
                least
            } else {
                most / 100
            }) / 64 * 64
        }),
    ensures
        place % 64 == 0,
        place >= 64,
        100 * place <= most,
        place == 64 || 100 * place <= asked,
        6400 <= asked <= u64::MAX && asked <= most ==> 100 * place <= asked && asked < 100 * (place
            + 64),
        asked <= u64::MAX && most <= asked ==> most < 100 * (place + 64),
        asked < 6400 ==> place == 64,
{
}

/// The trigger position is a multiple of 64 samples inside the share of the memory that the mode
/// allows. Where the requested share of the capture lies between 64 samples and that share of the
/// memory, the position is not above it and less than 64 samples below it.
pub proof fn law_trigger_stands_at_the_requested_share(
    packet: Seq<u8>,
    settings: SettingsView,
    plan: DsLogicCapturePlan,
)
    requires
        is_packet(packet, settings, plan),
        plan.wf(),
    ensures
        word32(packet, 22) % 64 == 0,
        word32(packet, 22) >= 64,
        100 * word32(packet, 22) <= memory_percent(settings.mode) * input_depth(
            plan.channels as int,
        ),
        word32(packet, 22) == 64 || 100 * word32(packet, 22) <= settings.sample_limit
            * settings.trigger_percent,
        ({
            let asked = settings.sample_limit * settings.trigger_percent;
            let most = memory_percent(settings.mode) * input_depth(plan.channels as int);
            &&& 6400 <= asked <= u64::MAX && asked <= most ==> 100 * word32(packet, 22) <= asked
                && asked < 100 * (word32(packet, 22) + 64)
            &&& asked <= u64::MAX && most <= asked ==> most < 100 * (word32(packet, 22) + 64)
            &&& asked < 6400 ==> word32(packet, 22) == 64
        }),
{
    let channels = plan.channels as int;
    vstd::arithmetic::div_mod::lemma_div_is_ordered_by_denominator(
        MEMORY_SAMPLES as int,
        channels,
        16,
    );
    let asked = settings.sample_limit * settings.trigger_percent;
    assert(asked >= 0) by (nonlinear_arith)
        requires
            asked == settings.sample_limit * settings.trigger_percent,
            settings.sample_limit >= 0,
            settings.trigger_percent >= 0,
    ;
    lemma_trigger_place(
        asked,
        memory_percent(settings.mode) * input_depth(channels),
        word32(packet, 22),
    );
}

/// The trigger position never falls when the requested percentage or the sample limit grows.
pub proof fn law_trigger_moves_with_its_share(
    first: SettingsView,
    second: SettingsView,
    channels: int,
)
    requires
        0 < channels <= 16,
        first.mode == second.mode,
        first.sample_limit <= second.sample_limit,
        first.trigger_percent <= second.trigger_percent,
    ensures
        trigger_place(first, channels) <= trigger_place(second, channels),
{
    let a = first.sample_limit * first.trigger_percent;
    let b = second.sample_limit * second.trigger_percent;
    assert(a <= b) by (nonlinear_arith)
        requires
            a == first.sample_limit * first.trigger_percent,
            b == second.sample_limit * second.trigger_percent,
            0 <= first.sample_limit <= second.sample_limit,
            0 <= first.trigger_percent <= second.trigger_percent,
    ;
}

/// A packet is a chain of sections between its two markers. The head of a section holds the register
/// that it fills and the number of words that follow, and the register of the next section is the
/// next free one, except that the trigger stages have a register of their own.
pub proof fn law_sections_follow_each_other(
    packet: Seq<u8>,
    settings: SettingsView,
    plan: DsLogicCapturePlan,
)
    requires
        is_packet(packet, settings, plan),
    ensures
        packet.len() == 672,
        word32(packet, 0) == 0xf5a5_f5a5int,
        forall|at: int|
            #![trigger section_end(packet, at)]
            at == 4 || at == 8 || at == 14 || at == 20 || at == 26 || at == 30 || at == 36 ==> {
                let next = section_end(packet, at);
                &&& at < next <= 42
                &&& word16(packet, next) / 256 == word16(packet, at) / 256 + word16(packet, at)
                    % 256
            },
        word16(packet, 4) / 256 == 0,
        section_end(packet, 4) == 8,
        section_end(packet, 8) == 14,
        section_end(packet, 14) == 20,
        section_end(packet, 20) == 26,
        section_end(packet, 26) == 30,
        section_end(packet, 30) == 36,
        section_end(packet, 36) == 42,
        section_end(packet, 42) == 46,
        word16(packet, 46) / 256 == 64,
        section_end(packet, 46) == 368,
        word32(packet, 368) == 0xfa5a_fa5aint,
        forall|i: int| 372 <= i < packet.len() ==> #[trigger] packet[i] == 0,
{
}

/// Where the section with its head at `at` ends.
pub open spec fn section_end(packet: Seq<u8>, at: int) -> int {
    at + 2 + 2 * (word16(packet, at) % 256)
}

proof fn lemma_weights(
    a: int,
    b: int,
    c: int,
    d: int,
    e: int,
    f: int,
    g: int,
    h: int,
    i: int,
    j: int,
    sum: int,
)
    requires
        0 <= a <= 1,
        0 <= b <= 1,
        0 <= c <= 1,
        0 <= d <= 1,
        0 <= e <= 1,
        0 <= f <= 1,
        0 <= g <= 1,
        0 <= h <= 1,
        0 <= i <= 1,
        0 <= j <= 1,
        sum == a + 2 * b + 4 * c + 8 * d + 32 * e + 64 * f + 256 * g + 1024 * h + 2048 * i + 4096 * j,
    ensures
        sum % 2 == a,
        sum / 2 % 2 == b,
        sum / 4 % 2 == c,
        sum / 8 % 2 == d,
        sum / 16 % 2 == 0,
        sum / 32 % 2 == e,
        sum / 64 % 2 == f,
        sum / 128 % 2 == 0,
        sum / 256 % 2 == g,
        sum / 512 % 2 == 0,
        sum / 1024 % 2 == h,
        sum / 2048 % 2 == i,
        sum / 4096 % 2 == j,
        sum / 8192 == 0,
{
    let n12 = j;
    let n11 = i + 2 * n12;
    let n10 = h + 2 * n11;
    let n8 = g + 4 * n10;
    let n6 = f + 4 * n8;
    let n5 = e + 2 * n6;
    let n3 = d + 4 * n5;
    let n2 = c + 2 * n3;
    let n1 = b + 2 * n2;
    assert(sum / 2 == n1);
    assert(sum / 4 == n2);
    assert(sum / 8 == n3);
    assert(sum / 16 == 2 * n5);
    assert(sum / 32 == n5);
    assert(sum / 64 == n6);
    assert(sum / 128 == 2 * n8);
    assert(sum / 256 == n8);
    assert(sum / 512 == 2 * n10);
    assert(sum / 1024 == n10);
    assert(sum / 2048 == n11);
    assert(sum / 4096 == n12);
}

/// Each setting has a bit of its own in the mode word, and no other bit is set.
pub proof fn law_mode_bits(packet: Seq<u8>, settings: SettingsView, plan: DsLogicCapturePlan)
    requires
        is_packet(packet, settings, plan),
    ensures
        ({
            let mode = word16(packet, 6);
            &&& mode % 2 == 1 <==> settings.trigger.stages.len() > 0
            &&& mode / 2 % 2 == 1 <==> settings.external_clock
            &&& mode / 4 % 2 == 1 <==> settings.external_clock_active_edge
            &&& mode / 8 % 2 == 1 <==> settings.run_length
            &&& mode / 16 % 2 == 0
            &&& mode / 32 % 2 == 1 <==> settings.sample_rate_hz == 500_000_000
            &&& mode / 64 % 2 == 1 <==> settings.sample_rate_hz == 1_000_000_000
            &&& mode / 128 % 2 == 0
            &&& mode / 256 % 2 == 1 <==> settings.input_filter
            &&& mode / 512 % 2 == 0
            &&& mode / 1024 % 2 == 1 <==> settings.sample_rate_hz * plan.channels <= 1023 * 8_000
            &&& mode / 2048 % 2 == 1 <==> settings.trigger.serial
            &&& mode / 4096 % 2 == 1 <==> settings.mode == CaptureMode::Streaming
            &&& mode / 8192 == 0
        }),
{
    let rate = settings.sample_rate_hz;
    assert(mode_word(settings, plan.channels as int) == word16(packet, 6));
    let a = flag(settings.trigger.stages.len() > 0, 1);
    let b = flag(settings.external_clock, 1);
    let c = flag(settings.external_clock_active_edge, 1);
    let d = flag(settings.run_length, 1);
    let e = flag(rate == 500_000_000, 1);
    let f = flag(rate == 1_000_000_000, 1);
    let g = flag(settings.input_filter, 1);
    let h = flag(rate * plan.channels <= 1023 * 8_000, 1);
    let i = flag(settings.trigger.serial, 1);
    let j = flag(settings.mode == CaptureMode::Streaming, 1);
    let bytes = rate * plan.channels;
    assert(bytes >= 0) by (nonlinear_arith)
        requires
            bytes == rate * plan.channels,
    ;
    let mode = word16(packet, 6);
    assert(mode == a + 2 * b + 4 * c + 8 * d + 32 * e + 64 * f + 256 * g + 1024 * h + 2048 * i + 4096
        * j);
    lemma_weights(a, b, c, d, e, f, g, h, i, j, mode);
}

/// The device runs at its clock divided by both dividers of the packet: never faster than asked for,
/// and not by more than the last step of the dividers slower.
pub proof fn law_dividers_meet_the_rate(
    packet: Seq<u8>,
    settings: SettingsView,
    plan: DsLogicCapturePlan,
)
    requires
        is_packet(packet, settings, plan),
        settings.sample_rate_hz >= 6,
    ensures
        ({
            let first = word16(packet, 12) / 256 + 1;
            let second = word16(packet, 10) + 0x1_0000 * (word16(packet, 12) % 256);
            &&& 1 <= first <= 5
            &&& second >= 1
            &&& second > 1 ==> first == 5
            &&& first * second * settings.sample_rate_hz >= 500_000_000
            &&& (first * second - (if second == 1 {
                1int
            } else {
                5
            })) * settings.sample_rate_hz < 500_000_000
        }),
{
    let rate = settings.sample_rate_hz as int;
    let d0 = clock_divider(settings.sample_rate_hz);
    let d1 = second_divider(settings.sample_rate_hz);
    vstd::arithmetic::div_mod::lemma_fundamental_div_mod(500_000_000 + rate - 1, rate);
    assert(d0 * rate >= 500_000_000 && (d0 - 1) * rate < 500_000_000) by (nonlinear_arith)
        requires
            500_000_000 + rate - 1 == rate * d0 + (500_000_000 + rate - 1) % rate,
            0 <= (500_000_000 + rate - 1) % rate < rate,
            rate > 0,
    ;
    assert(1 <= d0 <= 83_333_334) by (nonlinear_arith)
        requires
            d0 * rate >= 500_000_000,
            (d0 - 1) * rate < 500_000_000,
            rate >= 6,
    ;
    assert(5 * d1 >= d0 && 5 * d1 < d0 + 5);
    let pre = if d0 < 5 {
        d0
    } else {
        5
    };
    let high: u16 = ((pre - 1) * 256) as u16;
    let low: u16 = (d1 / 0x1_0000) as u16;
    assert((high | low) == high + low && (high | low) / 256 == high / 256 && (high | low) % 256 == low)
        by (bit_vector)
        requires
            low < 256,
            high % 256 == 0,
    ;
    assert(word16(packet, 12) == high | low);
    assert(word16(packet, 12) / 256 + 1 == pre);
    assert(word16(packet, 10) + 0x1_0000 * (word16(packet, 12) % 256) == d1);
    let step = if d1 == 1 {
        1int
    } else {
        5
    };
    let total = pre * d1;
    assert(d1 == 1 ==> total == pre);
    assert(d1 > 1 ==> pre == 5);
    assert(pre == 5 ==> total == 5 * d1);
    assert(total >= d0 && total - step <= d0 - 1);
    assert(total * rate >= 500_000_000 && (total - step) * rate < 500_000_000) by (nonlinear_arith)
        requires
            d0 * rate >= 500_000_000,
            (d0 - 1) * rate < 500_000_000,
            total >= d0,
            total - step <= d0 - 1,
            rate > 0,
    ;
}

/// The packet carries how many samples to take, in samples and in groups of sixteen, which inputs
/// take part and how many they are, and the number of trigger stages beyond one.
pub proof fn law_packet_carries_the_plan(
    packet: Seq<u8>,
    settings: SettingsView,
    plan: DsLogicCapturePlan,
)
    requires
        is_packet(packet, settings, plan),
        plan.wf(),
        plan.actual_samples <= u32::MAX,
        settings.trigger.stages.len() < 256,
    ensures
        word32(packet, 32) == plan.actual_samples,
        16 * word32(packet, 16) <= plan.actual_samples < 16 * (word32(packet, 16) + 1),
        word16(packet, 38) == settings.input_mask,
        packet[29] == plan.channels,
        packet[28] == (if settings.trigger.stages.len() > 1 {
            settings.trigger.stages.len()
        } else {
            0
        }),
{
    let count: u16 = (if settings.trigger.stages.len() % 0x1_0000 <= 1 {
        0
    } else {
        settings.trigger.stages.len() % 0x1_0000
    }) as u16;
    let high: u16 = (plan.channels * 256) as u16;
    assert((high | count) / 256 == high / 256 && (high | count) % 256 == count) by (bit_vector)
        requires
            count < 256,
            high % 256 == 0,
    ;
    assert(word16(packet, 28) == high | count);
    lemma_two_bytes(packet[28], packet[29]);
    let samples = plan.actual_samples as int;
    assert(word32(packet, 16) == samples / 16) by {
        assert(0 <= samples / 16 < 0x1_0000_0000);
    }
}

proof fn lemma_two_bytes(low: u8, high: u8)
    ensures
        (low + 256 * high) % 256 == low,
        (low + 256 * high) / 256 == high,
{
}

/// Whether a level that followed another meets a trigger condition.
pub open spec fn meets(condition: TriggerCondition, current: bool, previous: bool) -> bool {
    match condition {
        TriggerCondition::Ignore => true,
        TriggerCondition::High => current,
        TriggerCondition::Low => !current,
        TriggerCondition::Rising => current && !previous,
        TriggerCondition::Falling => previous && !current,
        TriggerCondition::Either => current != previous,
    }
}

/// Whether a level that followed another meets what the three words of a stage say of one input:
/// with the edge bit the level has to change, and without the mask bit it has to be that of the value
/// bit.
pub open spec fn words_match(
    mask: int,
    value: int,
    edge: int,
    input: nat,
    current: bool,
    previous: bool,
) -> bool {
    &&& number_bit(edge, input) ==> current != previous
    &&& !number_bit(mask, input) ==> current == number_bit(value, input)
}

proof fn lemma_bit_of_sum(low: int, high: int, index: nat, place: nat)
    requires
        0 <= low < pow2(index),
        0 <= high <= 1,
        place <= index,
    ensures
        number_bit(low + high * pow2(index), place) == if place == index {
            high == 1
        } else {
            number_bit(low, place)
        },
        low + high * pow2(index) < pow2(index + 1),
{
    vstd::arithmetic::power2::lemma_pow2_pos(index);
    vstd::arithmetic::power2::lemma_pow2_pos(place);
    vstd::arithmetic::power2::lemma_pow2_unfold(index + 1);
    let sum = low + high * pow2(index);
    assert(high * pow2(index) == if high == 1 {
        pow2(index) as int
    } else {
        0
    }) by (nonlinear_arith)
        requires
            0 <= high <= 1,
    ;
    if place == index {
        assert(sum / pow2(index) as int == high) by {
            vstd::arithmetic::div_mod::lemma_fundamental_div_mod_converse(
                sum,
                pow2(index) as int,
                high,
                low,
            );
        }
    } else {
        let rest = (index - place - 1) as nat;
        vstd::arithmetic::power2::lemma_pow2_adds(place, (rest + 1) as nat);
        vstd::arithmetic::power2::lemma_pow2_unfold((rest + 1) as nat);
        let unit = pow2(place) as int;
        let step = 2 * pow2(rest) as int;
        assert(pow2(index) == unit * step);
        vstd::arithmetic::div_mod::lemma_fundamental_div_mod(low, unit);
        let quotient = low / unit;
        let shifted = quotient + high * step;
        assert(sum == unit * shifted + low % unit) by (nonlinear_arith)
            requires
                sum == low + high * (unit * step),
                low == unit * quotient + low % unit,
                shifted == quotient + high * step,
        ;
        vstd::arithmetic::div_mod::lemma_fundamental_div_mod_converse(
            sum,
            unit,
            shifted,
            low % unit,
        );
        assert(high == 0 || high == 1);
        assert(shifted % 2 == quotient % 2);
    }
}

proof fn lemma_condition_bits(
    plane: Seq<TriggerCondition>,
    word: ConditionWord,
    count: nat,
    input: nat,
)
    ensures
        condition_word(plane, word, count) < pow2(count),
        input < count ==> number_bit(condition_word(plane, word, count) as int, input)
            == condition_flag(plane[input as int], word),
    decreases count,
{
    vstd::arithmetic::power2::lemma2_to64();
    if count > 0 {
        let before = (count - 1) as nat;
        lemma_condition_bits(plane, word, before, input);
        let high: int = if condition_flag(plane[before as int], word) {
            1
        } else {
            0
        };
        if input <= before {
            lemma_bit_of_sum(condition_word(plane, word, before) as int, high, before, input);
        } else {
            lemma_bit_of_sum(condition_word(plane, word, before) as int, high, before, before);
        }
        assert(high * pow2(before) == if high == 1 {
            pow2(before) as int
        } else {
            0
        }) by (nonlinear_arith)
            requires
                0 <= high <= 1,
        ;
    }
}

proof fn lemma_plane_words(
    plane: Seq<TriggerCondition>,
    stage: LogicTriggerStage,
    input: nat,
    current: bool,
    previous: bool,
)
    requires
        input < 16,
    ensures
        ({
            let words = words_of(plane, Some(stage));
            words_match(
                words.mask as int,
                words.value as int,
                words.edge as int,
                input,
                current,
                previous,
            ) <==> meets(plane[input as int], current, previous)
        }),
{
    vstd::arithmetic::power2::lemma2_to64();
    lemma_condition_bits(plane, ConditionWord::Mask, 16, input);
    lemma_condition_bits(plane, ConditionWord::Value, 16, input);
    lemma_condition_bits(plane, ConditionWord::Edge, 16, input);
}

/// The words of a trigger stage make the device match exactly the levels that meet the conditions of
/// both planes on every input, below the fastest rate.
pub proof fn law_stage_words_match_the_conditions(
    packet: Seq<u8>,
    settings: SettingsView,
    plan: DsLogicCapturePlan,
    stage: int,
    input: nat,
    current: bool,
    previous: bool,
)
    requires
        is_packet(packet, settings, plan),
        0 <= stage < 16,
        stage < settings.trigger.stages.len(),
        input < 16,
        settings.sample_rate_hz != 1_000_000_000,
    ensures
        words_match(
            word16(packet, 48 + 2 * stage),
            word16(packet, 112 + 2 * stage),
            word16(packet, 176 + 2 * stage),
            input,
            current,
            previous,
        ) <==> meets(settings.trigger.stages[stage].plane0@[input as int], current, previous),
        words_match(
            word16(packet, 80 + 2 * stage),
            word16(packet, 144 + 2 * stage),
            word16(packet, 208 + 2 * stage),
            input,
            current,
            previous,
        ) <==> meets(settings.trigger.stages[stage].plane1@[input as int], current, previous),
{
    assert(packet_stage(packet, settings, stage));
    let set = settings.trigger.stages[stage];
    lemma_plane_words(set.plane0@, set, input, current, previous);
    lemma_plane_words(set.plane1@, set, input, current, previous);
}

/// A stage carries its count, and the bits of its logic word say whether it is inverted, whether all
/// inputs have to match and whether the matches have to be consecutive.
pub proof fn law_stage_logic(
    packet: Seq<u8>,
    settings: SettingsView,
    plan: DsLogicCapturePlan,
    stage: int,
)
    requires
        is_packet(packet, settings, plan),
        0 <= stage < 16,
        stage < settings.trigger.stages.len(),
    ensures
        word32(packet, 304 + 4 * stage) == settings.trigger.stages[stage].count,
        word16(packet, 240 + 2 * stage) == word16(packet, 272 + 2 * stage),
        ({
            let logic = word16(packet, 240 + 2 * stage);
            let set = settings.trigger.stages[stage];
            &&& logic % 2 == 1 <==> set.inverted
            &&& logic / 2 % 2 == 1 <==> set.logic == TriggerLogic::And
            &&& logic / 4 % 2 == 1 <==> set.count_mode == TriggerCountMode::Consecutive
            &&& logic / 8 == 0
        }),
{
    assert(packet_stage(packet, settings, stage));
}

/// A stage that is not configured matches any levels, as all inputs together and not inverted.
pub proof fn law_unused_stage_matches_everything(
    packet: Seq<u8>,
    settings: SettingsView,
    plan: DsLogicCapturePlan,
    stage: int,
    input: nat,
    current: bool,
    previous: bool,
)
    requires
        is_packet(packet, settings, plan),
        0 <= stage < 16,
        stage >= settings.trigger.stages.len(),
        input < 16,
    ensures
        words_match(
            word16(packet, 48 + 2 * stage),
            word16(packet, 112 + 2 * stage),
            word16(packet, 176 + 2 * stage),
            input,
            current,
            previous,
        ),
        words_match(
            word16(packet, 80 + 2 * stage),
            word16(packet, 144 + 2 * stage),
            word16(packet, 208 + 2 * stage),
            input,
            current,
            previous,
        ),
        word16(packet, 240 + 2 * stage) == 2,
        word16(packet, 272 + 2 * stage) == 2,
        word32(packet, 304 + 4 * stage) == 0,
{
    assert(packet_stage(packet, settings, stage));
    lemma_all_bits(input);
    assert(!number_bit(0, input)) by {
        vstd::arithmetic::power2::lemma_pow2_pos(input);
        vstd::arithmetic::div_mod::lemma_div_basics(pow2(input) as int);
    }
    assert(((0xffffu16 % 256) * 257) as u16 == 0xffffu16);
}

proof fn lemma_all_bits(bit: nat)
    requires
        bit < 16,
    ensures
        number_bit(0xffff, bit),
{
    vstd::arithmetic::power2::lemma2_to64();
    let unit = pow2(bit) as int;
    assert(bit == 0 || bit == 1 || bit == 2 || bit == 3 || bit == 4 || bit == 5 || bit == 6 || bit
        == 7 || bit == 8 || bit == 9 || bit == 10 || bit == 11 || bit == 12 || bit == 13 || bit == 14
        || bit == 15);
    assert(0xffffint / 1 == 65535);
    assert(0xffffint / 2 == 32767);
    assert(0xffffint / 4 == 16383);
    assert(0xffffint / 8 == 8191);
    assert(0xffffint / 16 == 4095);
    assert(0xffffint / 32 == 2047);
    assert(0xffffint / 64 == 1023);
    assert(0xffffint / 128 == 511);
    assert(0xffffint / 256 == 255);
    assert(0xffffint / 512 == 127);
    assert(0xffffint / 1024 == 63);
    assert(0xffffint / 2048 == 31);
    assert(0xffffint / 4096 == 15);
    assert(0xffffint / 8192 == 7);
    assert(0xffffint / 16384 == 3);
    assert(0xffffint / 32768 == 1);
}

/// At the fastest rate a trigger word repeats its lower eight inputs in its upper half; a word of the
/// serial matching stage, or at any other rate, is sent as it is.
pub proof fn law_fastest_rate_repeats_the_inputs(word: u16, rate: u64, serial: bool, stage: int)
    ensures
        rate == 1_000_000_000 && !(serial && stage == 3) ==> replicated(word, rate, serial, stage)
            % 256 == word % 256 && replicated(word, rate, serial, stage) / 256 == word % 256,
        rate != 1_000_000_000 || (serial && stage == 3) ==> replicated(word, rate, serial, stage)
            == word,
{
}

} // verus!
