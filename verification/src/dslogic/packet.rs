//! The packet that configures a capture.

use vstd::prelude::*;

use super::plan::{
    div_ceil, input_depth, per_input_depth, DsLogicCapturePlan, DsLogicCaptureSettings,
    SettingsView,
};
use crate::bits::{saturating_mul, spec_div_ceil, spec_saturating_mul, zero_bytes};
use crate::little_endian::{put16, put32, word16, word32};
use crate::logic_analyzer::config::{
    CaptureMode, LogicTriggerStage, TriggerCondition, TriggerCountMode, TriggerLogic,
};
use crate::logic_analyzer::error::{ErrorView, LogicAnalyzerError};

verus! {

/// Bytes of a settings packet.
pub const PACKET_BYTES: usize = 672;

/// Clock that the device divides, in hertz.
pub const DIVIDER_CLOCK_HZ: u64 = 500_000_000;

/// Largest first divider.
pub const PRE_DIVIDER: u64 = 5;

/// The three words that describe the conditions of a plane.
pub enum ConditionWord {
    /// Inputs whose level does not matter.
    Mask,
    /// Inputs whose level has to be high.
    Value,
    /// Inputs whose level has to change.
    Edge,
}

/// Whether a condition sets its input's bit in a word.
pub open spec fn condition_flag(condition: TriggerCondition, word: ConditionWord) -> bool {
    match word {
        ConditionWord::Mask => condition == TriggerCondition::Ignore || condition
            == TriggerCondition::Either,
        ConditionWord::Value => condition == TriggerCondition::High || condition
            == TriggerCondition::Rising,
        ConditionWord::Edge => condition == TriggerCondition::Rising || condition
            == TriggerCondition::Falling || condition == TriggerCondition::Either,
    }
}

/// The word that has bit `i` set where condition `i` sets it, for the first `count` conditions.
pub open spec fn condition_word(
    plane: Seq<TriggerCondition>,
    word: ConditionWord,
    count: nat,
) -> nat
    decreases count,
{
    if count == 0 {
        0
    } else {
        condition_word(plane, word, (count - 1) as nat) + (if condition_flag(
            plane[count - 1],
            word,
        ) {
            vstd::arithmetic::power2::pow2((count - 1) as nat)
        } else {
            0
        })
    }
}

/// How the matches of a stage combine.
pub open spec fn logic_word(stage: LogicTriggerStage) -> int {
    2 * ((if stage.logic == TriggerLogic::And {
        1int
    } else {
        0
    }) + (if stage.count_mode == TriggerCountMode::Consecutive {
        2int
    } else {
        0
    })) + (if stage.inverted {
        1int
    } else {
        0
    })
}

/// The words of one plane of a trigger stage.
#[derive(Debug, Clone, Copy, PartialEq, Eq, Structural)]
pub struct TriggerWords {
    pub mask: u16,
    pub value: u16,
    pub edge: u16,
    pub logic: u16,
    pub count: u32,
}

/// The words of a plane; an unused stage ignores every input and matches always.
pub open spec fn words_of(plane: Seq<TriggerCondition>, stage: Option<LogicTriggerStage>) -> TriggerWords {
    match stage {
        None => TriggerWords { mask: 0xffff, value: 0, edge: 0, logic: 2, count: 0 },
        Some(stage) => TriggerWords {
            mask: condition_word(plane, ConditionWord::Mask, 16) as u16,
            value: condition_word(plane, ConditionWord::Value, 16) as u16,
            edge: condition_word(plane, ConditionWord::Edge, 16) as u16,
            logic: logic_word(stage) as u16,
            count: stage.count,
        },
    }
}

/// Encodes how the matches of a stage combine.
pub fn trigger_logic_word(stage: &LogicTriggerStage) -> (result: u16)
    ensures
        result == logic_word(*stage),
{
    let logic: u16 = match stage.logic {
        TriggerLogic::Or => 0,
        TriggerLogic::And => 1,
    };
    let contiguous: u16 = if stage.count_mode == TriggerCountMode::Consecutive {
        1
    } else {
        0
    };
    let inverted: u16 = if stage.inverted {
        1
    } else {
        0
    };
    (logic + 2 * contiguous) * 2 + inverted
}

/// Encodes one plane of a trigger stage.
pub fn trigger_words(plane: &[TriggerCondition; 16], stage: Option<&LogicTriggerStage>) -> (result:
    TriggerWords)
    ensures
        result == words_of(
            plane@,
            match stage {
                Some(stage) => Some(*stage),
                None => None,
            },
        ),
{
    let stage: &LogicTriggerStage = match stage {
        Some(stage) => stage,
        None => {
            return TriggerWords { mask: 0xffff, value: 0, edge: 0, logic: 2, count: 0 };
        },
    };
    let mut mask: u32 = 0;
    let mut value: u32 = 0;
    let mut edge: u32 = 0;
    let mut bit: u32 = 1;
    let mut i: usize = 0;
    proof {
        vstd::arithmetic::power2::lemma2_to64();
    }
    while i < 16
        invariant
            i <= 16,
            plane@.len() == 16,
            bit == vstd::arithmetic::power2::pow2(i as nat),
            bit <= 0x1_0000,
            vstd::arithmetic::power2::pow2(16) == 0x1_0000,
            mask == condition_word(plane@, ConditionWord::Mask, i as nat),
            value == condition_word(plane@, ConditionWord::Value, i as nat),
            edge == condition_word(plane@, ConditionWord::Edge, i as nat),
            mask < bit,
            value < bit,
            edge < bit,
        decreases 16 - i,
    {
        match plane[i] {
            TriggerCondition::Ignore => {
                mask += bit;
            },
            TriggerCondition::Low => {},
            TriggerCondition::High => {
                value += bit;
            },
            TriggerCondition::Rising => {
                value += bit;
                edge += bit;
            },
            TriggerCondition::Falling => {
                edge += bit;
            },
            TriggerCondition::Either => {
                mask += bit;
                edge += bit;
            },
        }
        proof {
            vstd::arithmetic::power2::lemma_pow2_unfold((i + 1) as nat);
            if i + 1 < 16 {
                vstd::arithmetic::power2::lemma_pow2_strictly_increases((i + 1) as nat, 16);
            }
        }
        bit = 2 * bit;
        i += 1;
    }
    TriggerWords {
        mask: mask as u16,
        value: value as u16,
        edge: edge as u16,
        logic: trigger_logic_word(stage),
        count: stage.count,
    }
}

/// At the fastest rate both bytes of a trigger word repeat the inputs, except in the serial
/// matching stage.
pub open spec fn replicated(word: u16, rate: u64, serial: bool, stage: int) -> u16 {
    if rate == 1_000_000_000 && !(serial && stage == 3) {
        ((word % 256) * 257) as u16
    } else {
        word
    }
}

/// Repeats the inputs of a trigger word where the rate asks for it.
pub fn replicate_1g(word: u16, settings: &DsLogicCaptureSettings, stage: usize) -> (result: u16)
    ensures
        result == replicated(word, settings.sample_rate_hz, settings.trigger.serial, stage as int),
{
    if settings.sample_rate_hz == 1_000_000_000 && !(settings.trigger.serial && stage == 3) {
        (word % 256) * 257
    } else {
        word
    }
}

/// The first divider of the device clock.
pub open spec fn clock_divider(rate: u64) -> int {
    spec_div_ceil(DIVIDER_CLOCK_HZ as int, rate as int)
}

/// The second divider of the device clock.
pub open spec fn second_divider(rate: u64) -> int {
    spec_div_ceil(clock_divider(rate), PRE_DIVIDER as int)
}

/// The word with the first divider and the high part of the second.
pub open spec fn divider_high_word(rate: u64) -> u16 {
    let d0 = clock_divider(rate);
    (((if d0 < PRE_DIVIDER {
        d0
    } else {
        PRE_DIVIDER as int
    }) - 1) * 256) as u16 | (second_divider(rate) / 0x1_0000) as u16
}

/// Where the trigger stands in the capture: the requested share of it, at least 64 samples in, no
/// further than the memory allows, in steps of 64.
pub open spec fn trigger_place(settings: SettingsView, channels: int) -> int {
    let wanted = spec_saturating_mul(
        settings.sample_limit as int,
        settings.trigger_percent as int,
    ) / 100;
    let furthest = input_depth(channels) * (if settings.mode == CaptureMode::Streaming {
        10int
    } else {
        90
    }) / 100;
    let place = if wanted < 64 {
        64
    } else {
        wanted
    };
    (if place < furthest {
        place
    } else {
        furthest
    }) / 64 * 64
}

/// A mode flag.
pub open spec fn flag(set: bool, weight: int) -> int {
    if set {
        weight
    } else {
        0
    }
}

/// The mode word.
pub open spec fn mode_word(settings: SettingsView, channels: int) -> int {
    flag(settings.trigger.stages.len() > 0, 1) + flag(settings.external_clock, 2) + flag(
        settings.external_clock_active_edge,
        4,
    ) + flag(settings.run_length, 8) + flag(settings.sample_rate_hz == 500_000_000, 32) + flag(
        settings.sample_rate_hz == 1_000_000_000,
        64,
    ) + flag(settings.input_filter, 256) + flag(
        spec_div_ceil(settings.sample_rate_hz * channels, 8_000) < 1024,
        1024,
    ) + flag(settings.trigger.serial, 2048) + flag(
        settings.mode == CaptureMode::Streaming,
        4096,
    )
}

/// The stage at a place of the trigger, if one is configured.
pub open spec fn stage_at(settings: SettingsView, stage: int) -> Option<LogicTriggerStage> {
    if 0 <= stage < settings.trigger.stages.len() {
        Some(settings.trigger.stages[stage])
    } else {
        None
    }
}

/// The words of the first plane of a stage.
pub open spec fn plane0_words(settings: SettingsView, stage: int) -> TriggerWords {
    words_of(settings.trigger.stages[stage].plane0@, stage_at(settings, stage))
}

/// The words of the second plane of a stage.
pub open spec fn plane1_words(settings: SettingsView, stage: int) -> TriggerWords {
    words_of(settings.trigger.stages[stage].plane1@, stage_at(settings, stage))
}

/// A trigger word as a stage sends it.
pub open spec fn sent(settings: SettingsView, word: u16, stage: int) -> int {
    replicated(word, settings.sample_rate_hz, settings.trigger.serial, stage) as int
}

/// The part of a packet in front of the trigger stages.
pub open spec fn packet_head(packet: Seq<u8>, settings: SettingsView, plan: DsLogicCapturePlan) -> bool {
    let stages = settings.trigger.stages.len() % 0x1_0000;
    &&& word32(packet, 0) == 0xf5a5_f5a5int
    &&& word16(packet, 4) == 1
    &&& word16(packet, 6) == mode_word(settings, plan.channels as int)
    &&& word16(packet, 8) == 0x0102
    &&& word16(packet, 10) == second_divider(settings.sample_rate_hz) % 0x1_0000
    &&& word16(packet, 12) == divider_high_word(settings.sample_rate_hz)
    &&& word16(packet, 14) == 0x0302
    &&& word32(packet, 16) == (plan.actual_samples / 16) % 0x1_0000_0000
    &&& word16(packet, 20) == 0x0502
    &&& word32(packet, 22) == trigger_place(settings, plan.channels as int)
    &&& word16(packet, 26) == 0x0701
    &&& word16(packet, 28) == (plan.channels * 256) as u16 | (if stages <= 1 {
        0
    } else {
        stages
    }) as u16
    &&& word16(packet, 30) == 0x0802
    &&& word32(packet, 32) == plan.actual_samples % 0x1_0000_0000
    &&& word16(packet, 36) == 0x0a02
    &&& word16(packet, 38) == settings.input_mask
    &&& word16(packet, 40) == 0
    &&& word16(packet, 42) == 0x0c01
    &&& word16(packet, 44) == 0
    &&& word16(packet, 46) == 0x40a0
}

/// The numbers that describe one trigger stage.
pub struct StageWords {
    pub masks: (int, int),
    pub values: (int, int),
    pub edges: (int, int),
    pub logic: (int, int),
    pub count: int,
}

/// The numbers that stand in a packet for a stage.
pub open spec fn words_at(packet: Seq<u8>, stage: int) -> StageWords {
    StageWords {
        masks: (word16(packet, 48 + 2 * stage), word16(packet, 80 + 2 * stage)),
        values: (word16(packet, 112 + 2 * stage), word16(packet, 144 + 2 * stage)),
        edges: (word16(packet, 176 + 2 * stage), word16(packet, 208 + 2 * stage)),
        logic: (word16(packet, 240 + 2 * stage), word16(packet, 272 + 2 * stage)),
        count: word32(packet, 304 + 4 * stage),
    }
}

/// The numbers that describe a stage with the words of its two planes.
pub open spec fn stage_words(
    settings: SettingsView,
    first: TriggerWords,
    second: TriggerWords,
    stage: int,
) -> StageWords {
    StageWords {
        masks: (sent(settings, first.mask, stage), sent(settings, second.mask, stage)),
        values: (sent(settings, first.value, stage), sent(settings, second.value, stage)),
        edges: (sent(settings, first.edge, stage), sent(settings, second.edge, stage)),
        logic: (first.logic as int, second.logic as int),
        count: first.count as int,
    }
}

/// The words of one trigger stage in a packet.
pub open spec fn packet_stage(packet: Seq<u8>, settings: SettingsView, stage: int) -> bool {
    words_at(packet, stage) == stage_words(
        settings,
        plane0_words(settings, stage),
        plane1_words(settings, stage),
        stage,
    )
}

/// The settings packet: head, sixteen trigger stages, closing marker, zeros.
pub open spec fn is_packet(packet: Seq<u8>, settings: SettingsView, plan: DsLogicCapturePlan) -> bool {
    &&& packet.len() == PACKET_BYTES
    &&& packet_head(packet, settings, plan)
    &&& forall|stage: int| 0 <= stage < 16 ==> #[trigger] packet_stage(packet, settings, stage)
    &&& word32(packet, 368) == 0xfa5a_fa5aint
    &&& forall|i: int| 372 <= i < PACKET_BYTES ==> #[trigger] packet[i] == 0
}

fn exec_mode_word(settings: &DsLogicCaptureSettings, bytes_per_ms: u64) -> (result: u16)
    ensures
        result == flag(settings.trigger.stages@.len() > 0, 1) + flag(settings.external_clock, 2)
            + flag(settings.external_clock_active_edge, 4) + flag(settings.run_length, 8) + flag(
            settings.sample_rate_hz == 500_000_000,
            32,
        ) + flag(settings.sample_rate_hz == 1_000_000_000, 64) + flag(settings.input_filter, 256)
            + flag(bytes_per_ms < 1024, 1024) + flag(settings.trigger.serial, 2048) + flag(
            settings.mode == CaptureMode::Streaming,
            4096,
        ),
{
    let mut mode: u16 = 0;
    if settings.trigger.stages.len() > 0 {
        mode += 1;
    }
    if settings.external_clock {
        mode += 2;
    }
    if settings.external_clock_active_edge {
        mode += 4;
    }
    if settings.run_length {
        mode += 8;
    }
    if settings.sample_rate_hz == 500_000_000 {
        mode += 32;
    }
    if settings.sample_rate_hz == 1_000_000_000 {
        mode += 64;
    }
    if settings.input_filter {
        mode += 256;
    }
    if bytes_per_ms < 1024 {
        mode += 1024;
    }
    if settings.trigger.serial {
        mode += 2048;
    }
    if settings.mode == CaptureMode::Streaming {
        mode += 4096;
    }
    mode
}

fn exec_trigger_place(settings: &DsLogicCaptureSettings, channels: u8) -> (result: u64)
    requires
        channels > 0,
    ensures
        result == trigger_place(settings@, channels as int),
        result <= u32::MAX,
{
    let depth: u64 = per_input_depth(channels);
    let fraction: u64 = if settings.mode == CaptureMode::Streaming {
        10
    } else {
        90
    };
    let wanted: u64 = saturating_mul(settings.sample_limit, settings.trigger_percent as u64) / 100;
    let place: u64 = if wanted < 64 {
        64
    } else {
        wanted
    };
    let furthest: u64 = depth * fraction / 100;
    let bounded: u64 = if place < furthest {
        place
    } else {
        furthest
    };
    bounded / 64 * 64
}

proof fn lemma_head_kept(
    before: Seq<u8>,
    after: Seq<u8>,
    settings: SettingsView,
    plan: DsLogicCapturePlan,
)
    requires
        before.len() == after.len(),
        before.len() >= 48,
        packet_head(before, settings, plan),
        forall|i: int| 0 <= i < 48 ==> #[trigger] after[i] == before[i],
    ensures
        packet_head(after, settings, plan),
{
}

fn write_head(
    packet: &mut Vec<u8>,
    settings: &DsLogicCaptureSettings,
    plan: DsLogicCapturePlan,
    mode: u16,
)
    requires
        old(packet)@.len() == PACKET_BYTES,
        forall|i: int| 0 <= i < PACKET_BYTES ==> #[trigger] old(packet)@[i] == 0,
        plan.wf(),
        settings.sample_rate_hz > 0,
        DIVIDER_CLOCK_HZ + settings.sample_rate_hz - 1 <= u64::MAX,
        mode == mode_word(settings@, plan.channels as int),
    ensures
        final(packet)@.len() == PACKET_BYTES,
        packet_head(final(packet)@, settings@, plan),
        forall|i: int| 48 <= i < PACKET_BYTES ==> #[trigger] final(packet)@[i] == 0,
{
    let rate: u64 = settings.sample_rate_hz;
    let d0: u64 = crate::bits::div_ceil(DIVIDER_CLOCK_HZ, rate);
    proof {
        crate::bits::lemma_div_ceil_le(DIVIDER_CLOCK_HZ as int, rate as int, 0);
        crate::bits::lemma_div_ceil_le(
            DIVIDER_CLOCK_HZ as int,
            rate as int,
            DIVIDER_CLOCK_HZ as int,
        );
        assert(DIVIDER_CLOCK_HZ <= DIVIDER_CLOCK_HZ * rate) by (nonlinear_arith)
            requires
                rate >= 1,
        ;
    }
    let first: u64 = if d0 < PRE_DIVIDER {
        d0
    } else {
        PRE_DIVIDER
    };
    let d: u64 = crate::bits::div_ceil(d0, PRE_DIVIDER);
    let divider_high: u16 = ((first - 1) * 256) as u16 | (d / 0x1_0000) as u16;
    let stages: u64 = (settings.trigger.stages.len() % 0x1_0000) as u64;
    let place: u64 = exec_trigger_place(settings, plan.channels);
    let stage_word: u16 = (plan.channels as u16 * 256) | (if stages <= 1 {
        0
    } else {
        stages as u16
    });
    put32(packet, 0, 0xf5a5_f5a5);
    put16(packet, 4, 1);
    put16(packet, 6, mode);
    put16(packet, 8, 0x0102);
    put16(packet, 10, (d % 0x1_0000) as u16);
    put16(packet, 12, divider_high);
    put16(packet, 14, 0x0302);
    put32(packet, 16, (plan.actual_samples / 16 % 0x1_0000_0000) as u32);
    put16(packet, 20, 0x0502);
    put32(packet, 22, place as u32);
    put16(packet, 26, 0x0701);
    put16(packet, 28, stage_word);
    put16(packet, 30, 0x0802);
    put32(packet, 32, (plan.actual_samples % 0x1_0000_0000) as u32);
    put16(packet, 36, 0x0a02);
    put16(packet, 38, settings.input_mask);
    put16(packet, 42, 0x0c01);
    put16(packet, 46, 0x40a0);
}

/// Whether a byte of a packet belongs to a trigger stage.
spec fn stage_byte(i: int, stage: int) -> bool {
    ||| 48 + 2 * stage <= i < 50 + 2 * stage
    ||| 80 + 2 * stage <= i < 82 + 2 * stage
    ||| 112 + 2 * stage <= i < 114 + 2 * stage
    ||| 144 + 2 * stage <= i < 146 + 2 * stage
    ||| 176 + 2 * stage <= i < 178 + 2 * stage
    ||| 208 + 2 * stage <= i < 210 + 2 * stage
    ||| 240 + 2 * stage <= i < 242 + 2 * stage
    ||| 272 + 2 * stage <= i < 274 + 2 * stage
    ||| 304 + 4 * stage <= i < 308 + 4 * stage
}

proof fn lemma_words_kept(before: Seq<u8>, after: Seq<u8>, stage: int, other: int)
    requires
        before.len() == PACKET_BYTES,
        after.len() == PACKET_BYTES,
        0 <= stage < 16,
        0 <= other < 16,
        other != stage,
        forall|i: int|
            0 <= i < PACKET_BYTES && !stage_byte(i, stage) ==> #[trigger] after[i] == before[i],
    ensures
        words_at(after, other) == words_at(before, other),
{
}

fn write_words(
    packet: &mut Vec<u8>,
    settings: &DsLogicCaptureSettings,
    first: TriggerWords,
    second: TriggerWords,
    stage: usize,
)
    requires
        old(packet)@.len() == PACKET_BYTES,
        stage < 16,
    ensures
        final(packet)@.len() == PACKET_BYTES,
        words_at(final(packet)@, stage as int) == stage_words(
            settings@,
            first,
            second,
            stage as int,
        ),
        forall|i: int|
            0 <= i < PACKET_BYTES && !stage_byte(i, stage as int) ==> #[trigger] final(packet)@[i]
                == old(packet)@[i],
{
    put16(packet, 48 + stage * 2, replicate_1g(first.mask, settings, stage));
    put16(packet, 80 + stage * 2, replicate_1g(second.mask, settings, stage));
    put16(packet, 112 + stage * 2, replicate_1g(first.value, settings, stage));
    put16(packet, 144 + stage * 2, replicate_1g(second.value, settings, stage));
    put16(packet, 176 + stage * 2, replicate_1g(first.edge, settings, stage));
    put16(packet, 208 + stage * 2, replicate_1g(second.edge, settings, stage));
    put16(packet, 240 + stage * 2, first.logic);
    put16(packet, 272 + stage * 2, second.logic);
    put32(packet, 304 + stage * 4, first.count);
}

fn write_stage(packet: &mut Vec<u8>, settings: &DsLogicCaptureSettings, stage: usize)
    requires
        old(packet)@.len() == PACKET_BYTES,
        stage < 16,
    ensures
        final(packet)@.len() == PACKET_BYTES,
        packet_stage(final(packet)@, settings@, stage as int),
        forall|i: int|
            0 <= i < PACKET_BYTES && !stage_byte(i, stage as int) ==> #[trigger] final(packet)@[i]
                == old(packet)@[i],
{
    let unused: [TriggerCondition; 16] = [TriggerCondition::Ignore; 16];
    let (first, second): (TriggerWords, TriggerWords) = if stage < settings.trigger.stages.len() {
        let configured: LogicTriggerStage = settings.trigger.stages[stage];
        (
            trigger_words(&configured.plane0, Some(&configured)),
            trigger_words(&configured.plane1, Some(&configured)),
        )
    } else {
        (trigger_words(&unused, None), trigger_words(&unused, None))
    };
    write_words(packet, settings, first, second, stage);
}

/// Why the settings packet cannot be built.
pub open spec fn packet_overflows(settings: SettingsView, plan: DsLogicCapturePlan) -> bool {
    ||| DIVIDER_CLOCK_HZ + settings.sample_rate_hz - 1 > u64::MAX
    ||| settings.sample_rate_hz * plan.channels + 7_999 > u64::MAX
}

/// Builds the packet that configures a capture.
pub fn build_settings_packet(settings: &DsLogicCaptureSettings, plan: DsLogicCapturePlan) -> (result:
    Result<Vec<u8>, LogicAnalyzerError>)
    requires
        plan.wf(),
        settings.sample_rate_hz > 0,
        settings.sample_rate_hz * plan.channels <= u64::MAX,
    ensures
        match result {
            Ok(packet) => !packet_overflows(settings@, plan) && is_packet(
                packet@,
                settings@,
                plan,
            ),
            Err(error) => packet_overflows(settings@, plan) && error@
                == ErrorView::InvalidSettings("arithmetic overflow"@),
        },
{
    match div_ceil(DIVIDER_CLOCK_HZ, settings.sample_rate_hz) {
        Ok(_) => {},
        Err(error) => return Err(error),
    }
    let bytes_per_ms: u64 = match div_ceil(settings.sample_rate_hz * plan.channels as u64, 8_000) {
        Ok(bytes) => bytes,
        Err(error) => return Err(error),
    };
    let mode: u16 = exec_mode_word(settings, bytes_per_ms);
    let mut packet: Vec<u8> = zero_bytes(PACKET_BYTES);
    write_head(&mut packet, settings, plan, mode);
    let mut stage: usize = 0;
    while stage < 16
        invariant
            stage <= 16,
            packet@.len() == PACKET_BYTES,
            packet_head(packet@, settings@, plan),
            forall|k: int| 0 <= k < stage ==> #[trigger] packet_stage(packet@, settings@, k),
            forall|i: int| 368 <= i < PACKET_BYTES ==> #[trigger] packet@[i] == 0,
        decreases 16 - stage,
    {
        let ghost before = packet@;
        write_stage(&mut packet, settings, stage);
        proof {
            lemma_head_kept(before, packet@, settings@, plan);
            assert forall|k: int| 0 <= k < stage + 1 implies #[trigger] packet_stage(
                packet@,
                settings@,
                k,
            ) by {
                if k < stage {
                    assert(packet_stage(before, settings@, k));
                    lemma_words_kept(before, packet@, stage as int, k);
                }
            }
        }
        stage += 1;
    }
    let ghost before = packet@;
    put32(&mut packet, 368, 0xfa5a_fa5a);
    proof {
        lemma_head_kept(before, packet@, settings@, plan);
        assert forall|k: int| 0 <= k < 16 implies #[trigger] packet_stage(
            packet@,
            settings@,
            k,
        ) by {
            assert(packet_stage(before, settings@, k));
        }
    }
    Ok(packet)
}

} // verus!
