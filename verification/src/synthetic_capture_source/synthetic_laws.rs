//! What deterministic triggers find and what the authored waveforms carry.

use vstd::prelude::*;

use super::acquisition_run::{
    trigger_notices, CaptureSessionState, FakeControlState, FakeRun, FakeWake, Notice, RunStep,
};
use super::demo::{
    demo, filled, first_words, second_words, synthetic_ports, third_words, width_of, with_bits,
    with_burst, with_group, with_groups, with_transaction, with_word, BIT_SAMPLES, CYCLE_COUNT,
    CYCLE_SAMPLES, SAMPLE_COUNT,
};
use super::live_acquisition::{
    chunk_bytes, config_error, first_outside, is_chunk, largest, offset_of, payload_bytes,
    simple_predicates, stage_error, stages_error, total, trigger_error, AcquisitionError,
    DeterministicFakeConfig, PackedChunk,
};
use super::trigger::{
    all_hold, any_holds, fresh_evaluator, mixed_level, observed, odd_hold, predicate_holds, rotated,
    searched, stage_matches, DeterministicTrigger, DeterministicTriggerCountMode,
    DeterministicTriggerEvaluator, DeterministicTriggerLogic, DeterministicTriggerPredicate,
    DeterministicTriggerStage, SimpleTriggerCondition,
};
use crate::bit_laws::{
    bytes_number, law_byte_has_binary_digits, law_packed_bits_are_binary_digits, number_bit,
};
use crate::bits::{bit_of, byte_bit, lemma_word_ops, word_bit};
use crate::ports::PortKind;
use crate::text::decimal;

verus! {

/// An edge needs a level before it. An either-edge condition is met where a rising or a falling one
/// is, that is where the level changed.
pub proof fn law_trigger_conditions(previous: Option<bool>, current: bool)
    ensures
        SimpleTriggerCondition::Ignore.met(previous, current),
        SimpleTriggerCondition::High.met(previous, current) <==> current,
        SimpleTriggerCondition::Low.met(previous, current) <==> !SimpleTriggerCondition::High.met(
            previous,
            current,
        ),
        SimpleTriggerCondition::Either.met(previous, current) <==> (
        SimpleTriggerCondition::Rising.met(previous, current) || SimpleTriggerCondition::Falling.met(
            previous,
            current,
        )),
        SimpleTriggerCondition::Either.met(previous, current) <==> previous is Some && previous->0
            != current,
        SimpleTriggerCondition::Rising.met(previous, current) ==> current,
        SimpleTriggerCondition::Falling.met(previous, current) ==> !current,
        previous is None ==> !SimpleTriggerCondition::Rising.met(previous, current)
            && !SimpleTriggerCondition::Falling.met(previous, current),
{
}

/// The predicates of a stage that hold at a sample.
pub open spec fn holding(
    predicates: Seq<DeterministicTriggerPredicate>,
    seed: u64,
    sample: u64,
) -> Seq<DeterministicTriggerPredicate> {
    predicates.filter(
        |predicate: DeterministicTriggerPredicate| predicate_holds(predicate, seed, sample),
    )
}

proof fn lemma_holding(predicates: Seq<DeterministicTriggerPredicate>, seed: u64, sample: u64)
    ensures
        all_hold(predicates, seed, sample) <==> holding(predicates, seed, sample).len()
            == predicates.len(),
        any_holds(predicates, seed, sample) <==> holding(predicates, seed, sample).len() > 0,
        odd_hold(predicates, seed, sample) <==> holding(predicates, seed, sample).len() % 2 == 1,
        holding(predicates, seed, sample).len() <= predicates.len(),
    decreases predicates.len(),
{
    reveal(Seq::filter);
    if predicates.len() > 0 {
        let front = predicates.drop_last();
        let end = predicates.len() - 1;
        lemma_holding(front, seed, sample);
        if all_hold(front, seed, sample) && predicate_holds(predicates[end], seed, sample) {
            assert forall|i: int| 0 <= i < predicates.len() implies predicate_holds(
                #[trigger] predicates[i],
                seed,
                sample,
            ) by {
                if i < front.len() {
                    assert(front[i] == predicates[i]);
                }
            }
        }
        if all_hold(predicates, seed, sample) {
            assert(predicate_holds(predicates[end], seed, sample));
            assert forall|i: int| 0 <= i < front.len() implies predicate_holds(
                #[trigger] front[i],
                seed,
                sample,
            ) by {
                assert(predicates[i] == front[i]);
            }
        }
        if any_holds(front, seed, sample) {
            let i = choose|i: int|
                0 <= i < front.len() && predicate_holds(#[trigger] front[i], seed, sample);
            assert(predicates[i] == front[i]);
        }
        if any_holds(predicates, seed, sample) && !predicate_holds(predicates[end], seed, sample) {
            let i = choose|i: int|
                0 <= i < predicates.len() && predicate_holds(
                    #[trigger] predicates[i],
                    seed,
                    sample,
                );
            assert(front[i] == predicates[i]);
        }
    }
}

/// The logic of a stage goes by how many of its predicates hold: all of them, one of them, an odd
/// number of them, or the opposite; an inverted stage matches where the plain one does not.
pub proof fn law_stage_logic_counts_predicates(
    stage: DeterministicTriggerStage,
    seed: u64,
    sample: u64,
)
    ensures
        ({
            let hold = holding(stage.predicates@, seed, sample).len();
            let matched = stage_matches(stage, seed, sample) != stage.inverted;
            match stage.logic {
                DeterministicTriggerLogic::And => matched <==> hold == stage.predicates@.len(),
                DeterministicTriggerLogic::Or => matched <==> hold > 0,
                DeterministicTriggerLogic::Xor => matched <==> hold % 2 == 1,
                DeterministicTriggerLogic::Nand => matched <==> hold < stage.predicates@.len(),
                DeterministicTriggerLogic::Nor => matched <==> hold == 0,
            }
        }),
{
    lemma_holding(stage.predicates@, seed, sample);
}

/// Number of samples up to `at`, from `from` on, at which a stage has matched without a gap.
pub open spec fn run_before(
    stage: DeterministicTriggerStage,
    seed: u64,
    from: int,
    at: int,
) -> nat
    decreases at - from,
{
    if at <= from || !stage_matches(stage, seed, (at - 1) as u64) {
        0
    } else {
        1 + run_before(stage, seed, from, at - 1)
    }
}

/// Number of times that a stage has begun to match between `from` and `at`.
pub open spec fn starts_before(
    stage: DeterministicTriggerStage,
    seed: u64,
    from: int,
    at: int,
) -> nat
    decreases at - from,
{
    if at <= from {
        0
    } else {
        starts_before(stage, seed, from, at - 1) + (if stage_matches(stage, seed, (at - 1) as u64)
            && (at - 1 == from || !stage_matches(stage, seed, (at - 2) as u64)) {
            1nat
        } else {
            0nat
        })
    }
}

/// Whether a trigger of one stage fires at a sample of a search that began at `from`.
pub open spec fn fires_at(
    stage: DeterministicTriggerStage,
    seed: u64,
    from: int,
    sample: int,
) -> bool {
    match stage.count {
        None => stage_matches(stage, seed, sample as u64),
        Some(count) => match count.mode {
            DeterministicTriggerCountMode::Consecutive => run_before(stage, seed, from, sample + 1)
                >= count.value,
            DeterministicTriggerCountMode::Occurrences => starts_before(
                stage,
                seed,
                from,
                sample + 1,
            ) >= count.value,
        },
    }
}

/// What an evaluator has counted between `from` and `at`.
spec fn counted(
    evaluator: DeterministicTriggerEvaluator,
    stage: DeterministicTriggerStage,
    seed: u64,
    from: int,
    at: int,
) -> bool {
    &&& evaluator.stage == 0
    &&& evaluator.previous_stage_match <==> at > from && stage_matches(stage, seed, (at - 1) as u64)
    &&& stage.count matches Some(count) ==> match count.mode {
        DeterministicTriggerCountMode::Consecutive => evaluator.matched_count == run_before(
            stage,
            seed,
            from,
            at,
        ),
        DeterministicTriggerCountMode::Occurrences => evaluator.matched_count == starts_before(
            stage,
            seed,
            from,
            at,
        ),
    }
}

proof fn lemma_counts_are_small(stage: DeterministicTriggerStage, seed: u64, from: int, at: int)
    requires
        from <= at,
    ensures
        run_before(stage, seed, from, at) <= at - from,
        starts_before(stage, seed, from, at) <= at - from,
    decreases at - from,
{
    if from < at {
        lemma_counts_are_small(stage, seed, from, at - 1);
    }
}

proof fn lemma_one_stage(
    evaluator: DeterministicTriggerEvaluator,
    trigger: DeterministicTrigger,
    seed: u64,
    from: int,
    at: int,
    end: int,
)
    requires
        trigger.stages@.len() == 1,
        0 <= from <= at <= end <= u64::MAX,
        counted(evaluator, trigger.stages@[0], seed, from, at),
        forall|k: int| from <= k < at ==> !#[trigger] fires_at(trigger.stages@[0], seed, from, k),
    ensures
        match searched(evaluator, trigger, seed, at, end).0 {
            Some(sample) => from <= sample < end && fires_at(
                trigger.stages@[0],
                seed,
                from,
                sample,
            ) && forall|k: int|
                from <= k < sample ==> !#[trigger] fires_at(trigger.stages@[0], seed, from, k),
            None => forall|k: int|
                from <= k < end ==> !#[trigger] fires_at(trigger.stages@[0], seed, from, k),
        },
    decreases end - at,
{
    let stage = trigger.stages@[0];
    if at < end {
        lemma_counts_are_small(stage, seed, from, at);
        lemma_counts_are_small(stage, seed, from, at + 1);
        let (fires, next) = observed(evaluator, trigger, seed, at as u64);
        assert(fires == fires_at(stage, seed, from, at));
        if !fires {
            assert(counted(next, stage, seed, from, at + 1));
            lemma_one_stage(next, trigger, seed, from, at + 1, end);
        }
    }
}

/// A trigger of one stage fires at the first sample at which the stage matches; with a count, at the
/// first sample at which it has matched that often, either without a gap or again and again.
pub proof fn law_trigger_fires_at_the_first_match(
    trigger: DeterministicTrigger,
    seed: u64,
    from: int,
    end: int,
)
    requires
        trigger.stages@.len() == 1,
        0 <= from <= end <= u64::MAX,
    ensures
        match searched(fresh_evaluator(), trigger, seed, from, end).0 {
            Some(sample) => from <= sample < end && fires_at(
                trigger.stages@[0],
                seed,
                from,
                sample,
            ) && forall|k: int|
                from <= k < sample ==> !#[trigger] fires_at(trigger.stages@[0], seed, from, k),
            None => forall|k: int|
                from <= k < end ==> !#[trigger] fires_at(trigger.stages@[0], seed, from, k),
        },
{
    lemma_one_stage(fresh_evaluator(), trigger, seed, from, from, end);
}

/// Stages are passed one behind the other: a sample moves a trigger on by one stage at most, the next
/// stage counts from the beginning, and only the last stage fires.
pub proof fn law_stages_are_passed_in_order(
    evaluator: DeterministicTriggerEvaluator,
    trigger: DeterministicTrigger,
    seed: u64,
    sample: u64,
)
    requires
        evaluator.stage < trigger.stages@.len(),
    ensures
        ({
            let (fires, next) = observed(evaluator, trigger, seed, sample);
            &&& fires ==> evaluator.stage + 1 == trigger.stages@.len()
            &&& next.stage == evaluator.stage || (next.stage == evaluator.stage + 1
                && next.matched_count == 0 && !next.previous_stage_match)
            &&& fires ==> next.stage == evaluator.stage
        }),
{
    assert(trigger.stages.len() == trigger.stages@.len());
}

/// A stage without a count is passed at each sample at which it matches: the last stage fires there,
/// and any other hands over to the next.
pub proof fn law_uncounted_stage_is_passed_where_it_matches(
    evaluator: DeterministicTriggerEvaluator,
    trigger: DeterministicTrigger,
    seed: u64,
    sample: u64,
    matched: bool,
)
    requires
        evaluator.stage < trigger.stages@.len(),
        trigger.stages@[evaluator.stage as int].count is None,
        matched == stage_matches(trigger.stages@[evaluator.stage as int], seed, sample),
    ensures
        observed(evaluator, trigger, seed, sample).0 == (matched && evaluator.stage + 1
            == trigger.stages@.len()),
        observed(evaluator, trigger, seed, sample).1.stage == (if matched && evaluator.stage + 1
            < trigger.stages@.len() {
            evaluator.stage + 1
        } else {
            evaluator.stage as int
        }),
{
    assert(trigger.stages.len() == trigger.stages@.len());
}

proof fn lemma_rotated_bv(value: u64, by: u64, j: u64)
    by (bit_vector)
    requires
        0 < by < 64,
        j < 64,
    ensures
        ((((value << by) | (value >> ((64 - by) as u64))) >> j) & 1u64 == 1u64) == ((value >> ((if j
            >= by {
            (j - by) as u64
        } else {
            (j + 64 - by) as u64
        }))) & 1u64 == 1u64),
{
}

/// Rotating a number moves each of its bits up, and those at the top around to the bottom.
pub proof fn law_rotation_moves_the_bits(value: u64, by: u64, j: int)
    requires
        by < 64,
        0 <= j < 64,
    ensures
        word_bit(rotated(value, by), j) == word_bit(
            value,
            if j >= by {
                j - by
            } else {
                j + 64 - by
            },
        ),
{
    if by > 0 {
        lemma_rotated_bv(value, by, j as u64);
    }
}

proof fn lemma_mixture_bv(mixed: u64)
    by (bit_vector)
    ensures
        ((mixed ^ (mixed >> 17u64) ^ (mixed >> 41u64)) & 1 != 0) == ((((mixed >> 0u64) & 1u64 == 1u64) != ((
        mixed >> 17u64) & 1u64 == 1u64)) != ((mixed >> 41u64) & 1u64 == 1u64)),
{
}

/// One bit of the mixture of seed, sample and channel.
pub open spec fn mixture_bit(seed: u64, sample: u64, channel: int, j: int) -> bool {
    let turned = (channel % 63) as int;
    let from_sample = word_bit(
        ((sample * 0x9e37_79b9_7f4a_7c15) % 0x1_0000_0000_0000_0000) as u64,
        if j >= turned {
            j - turned
        } else {
            j + 64 - turned
        },
    );
    let from_channel = word_bit(
        ((channel * 0xd6e8_feb8_6659_fd93) % 0x1_0000_0000_0000_0000) as u64,
        j,
    );
    (from_sample != from_channel) != word_bit(seed, j)
}

/// A level is the parity of three bits of the mixture. So the seed alone can turn every level into its
/// opposite.
pub proof fn law_levels_are_mixed_from_three_bits(seed: u64, sample: u64, channel: int)
    requires
        0 <= channel <= u64::MAX,
    ensures
        mixed_level(seed, sample, channel) <==> ((mixture_bit(seed, sample, channel, 0)
            != mixture_bit(seed, sample, channel, 17)) != mixture_bit(seed, sample, channel, 41)),
{
    let lane = channel as u64;
    let product = ((sample * 0x9e37_79b9_7f4a_7c15) % 0x1_0000_0000_0000_0000) as u64;
    let turned = (lane % 63) as u64;
    let a = rotated(product, turned);
    let b = ((lane * 0xd6e8_feb8_6659_fd93) % 0x1_0000_0000_0000_0000) as u64;
    let mixed = a ^ b ^ seed;
    lemma_mixture_bv(mixed);
    lemma_mixed_bit(a, b, seed, 0);
    lemma_mixed_bit(a, b, seed, 17);
    lemma_mixed_bit(a, b, seed, 41);
    law_rotation_moves_the_bits(product, turned, 0);
    law_rotation_moves_the_bits(product, turned, 17);
    law_rotation_moves_the_bits(product, turned, 41);
}

proof fn lemma_mixed_bit(a: u64, b: u64, c: u64, j: int)
    requires
        0 <= j < 64,
    ensures
        word_bit(a ^ b ^ c, j) == ((word_bit(a, j) != word_bit(b, j)) != word_bit(c, j)),
{
    lemma_word_ops(a, b, j);
    lemma_word_ops(a ^ b, c, j);
}

/// A capture is between one and thirty-two channels wide, and as wide as asked for in between.
pub proof fn law_width_is_limited(channels: int)
    ensures
        1 <= width_of(channels) <= 32,
        1 <= channels <= 32 ==> width_of(channels) == channels,
        channels > 32 ==> width_of(channels) == 32,
        channels < 1 ==> width_of(channels) == 1,
{
}

/// Every channel reaches far enough.
pub open spec fn reaches(channels: Seq<Seq<bool>>, end: int) -> bool {
    channels.len() == 11 && forall|c: int| 0 <= c < 11 ==> (#[trigger] channels[c]).len() >= end
}

proof fn lemma_burst(
    channels: Seq<Seq<bool>>,
    start: int,
    words: Seq<u8>,
    count: nat,
    c: int,
    i: int,
)
    requires
        reaches(channels, start + count * 24),
        start >= 0,
        count <= words.len(),
        0 <= c < 11,
        0 <= i < channels[c].len(),
    ensures
        with_burst(channels, start, words, count).len() == 11,
        with_burst(channels, start, words, count)[c].len() == channels[c].len(),
        ({
            let level = with_burst(channels, start, words, count)[c][i];
            let inside = start <= i < start + count * 24;
            let word = words[(i - start) / 24];
            let place = (i - start) % 24;
            &&& !inside ==> level == channels[c][i]
            &&& inside && c < 8 ==> level == byte_bit(word, c)
            &&& inside && c == 10 && 8 <= place < 14 ==> level
            &&& inside && c == 10 && !(8 <= place < 14) ==> level == channels[c][i]
            &&& c == 8 || c == 9 ==> level == channels[c][i]
        }),
    decreases count,
{
    if count > 0 {
        let less = (count - 1) as nat;
        lemma_burst(channels, start, words, less, c, i);
        let before = with_burst(channels, start, words, less);
        let at = start + less * 24;
        assert(with_burst(channels, start, words, count) == with_word(before, at, words[count - 1]));
        if at <= i < at + 24 {
            assert((i - start) / 24 == less && (i - start) % 24 == i - at) by {
                vstd::arithmetic::div_mod::lemma_fundamental_div_mod_converse(
                    i - start,
                    24,
                    less as int,
                    i - at,
                );
            }
        }
    }
}

/// A burst can be read off the bus: while a word is there its binary digits are on the first eight
/// channels, lowest first, the strobe is high in the middle of it, and words follow each other at once.
/// Nothing else changes.
pub proof fn law_burst_can_be_read_off_the_bus(
    channels: Seq<Seq<bool>>,
    start: int,
    words: Seq<u8>,
    word: int,
    c: int,
    offset: int,
)
    requires
        start >= 0,
        reaches(channels, start + words.len() * 24),
        0 <= word < words.len(),
        0 <= c < 8,
        0 <= offset < 24,
    ensures
        ({
            let drawn = with_burst(channels, start, words, words.len());
            let at = start + 24 * word + offset;
            &&& drawn[c][at] <==> number_bit(words[word] as int, c as nat)
            &&& 8 <= offset < 14 ==> drawn[10][at]
            &&& !(8 <= offset < 14) ==> drawn[10][at] == channels[10][at]
            &&& drawn[8][at] == channels[8][at]
            &&& drawn[9][at] == channels[9][at]
        }),
{
    let at = start + 24 * word + offset;
    let count = words.len();
    assert(24 * word + offset < count * 24) by (nonlinear_arith)
        requires
            word < count,
            offset < 24,
    ;
    vstd::arithmetic::div_mod::lemma_fundamental_div_mod_converse(at - start, 24, word, offset);
    assert(at < channels[c].len() && at < channels[10].len() && at < channels[8].len() && at
        < channels[9].len());
    lemma_burst(channels, start, words, count, c, at);
    lemma_burst(channels, start, words, count, 10, at);
    lemma_burst(channels, start, words, count, 8, at);
    lemma_burst(channels, start, words, count, 9, at);
    law_byte_has_binary_digits(words[word], c);
}

proof fn lemma_bits(
    channels: Seq<Seq<bool>>,
    start: int,
    mosi: Seq<u8>,
    miso: Seq<u8>,
    count: nat,
    c: int,
    i: int,
)
    requires
        reaches(channels, start + 8 + count * 10),
        start >= 0,
        0 <= c < 11,
        0 <= i < channels[c].len(),
    ensures
        with_bits(channels, start, mosi, miso, count).len() == 11,
        with_bits(channels, start, mosi, miso, count)[c].len() == channels[c].len(),
        ({
            let level = with_bits(channels, start, mosi, miso, count)[c][i];
            let inside = start + 8 <= i < start + 8 + count * 10;
            let index = (i - start - 8) / 10;
            let place = (i - start - 8) % 10;
            &&& !inside ==> level == channels[c][i]
            &&& inside && c == 6 ==> level == byte_bit(mosi[index / 8], 7 - index % 8)
            &&& inside && c == 5 ==> level == byte_bit(miso[index / 8], 7 - index % 8)
            &&& inside && c == 7 && 3 <= place < 7 ==> level
            &&& inside && c == 7 && !(3 <= place < 7) ==> level == channels[c][i]
            &&& c < 5 || c > 7 ==> level == channels[c][i]
        }),
    decreases count,
{
    if count > 0 {
        let less = (count - 1) as nat;
        lemma_bits(channels, start, mosi, miso, less, c, i);
        let before = with_bits(channels, start, mosi, miso, less);
        let at = start + 8 + less * 10;
        if at <= i < at + 10 {
            assert((i - start - 8) / 10 == less && (i - start - 8) % 10 == i - at) by {
                vstd::arithmetic::div_mod::lemma_fundamental_div_mod_converse(
                    i - start - 8,
                    10,
                    less as int,
                    i - at,
                );
            }
        }
    }
}

proof fn lemma_transaction(
    channels: Seq<Seq<bool>>,
    start: int,
    mosi: Seq<u8>,
    miso: Seq<u8>,
    c: int,
    i: int,
)
    requires
        reaches(channels, start + mosi.len() * 80 + 16),
        start >= 0,
        0 <= c < 11,
        0 <= i < channels[c].len(),
    ensures
        with_transaction(channels, start, mosi, miso).len() == 11,
        with_transaction(channels, start, mosi, miso)[c].len() == channels[c].len(),
        ({
            let level = with_transaction(channels, start, mosi, miso)[c][i];
            let inside = start + 8 <= i < start + 8 + mosi.len() * 80;
            let index = (i - start - 8) / 10;
            let place = (i - start - 8) % 10;
            &&& !(start <= i < start + mosi.len() * 80 + 16) ==> level == channels[c][i]
            &&& inside && c == 6 ==> level == byte_bit(mosi[index / 8], 7 - index % 8)
            &&& inside && c == 5 ==> level == byte_bit(miso[index / 8], 7 - index % 8)
            &&& inside && c == 7 && 3 <= place < 7 ==> level
            &&& inside && c == 7 && !(3 <= place < 7) ==> level == channels[c][i]
            &&& start <= i < start + mosi.len() * 80 + 16 && c == 8 ==> !level
            &&& c < 5 || c > 8 ==> level == channels[c][i]
        }),
{
    let end = start + mosi.len() * 8 * BIT_SAMPLES + 16;
    assert(end == start + mosi.len() * 80 + 16);
    let selected = channels.update(8, filled(channels[8], start, end, false));
    assert forall|k: int| 0 <= k < 11 implies (#[trigger] selected[k]).len() >= start + 8 + 8
        * mosi.len() * 10 by {
        assert(channels[k].len() >= start + mosi.len() * 80 + 16);
    }
    assert(selected[c].len() == channels[c].len());
    lemma_bits(selected, start, mosi, miso, 8 * mosi.len(), c, i);
}

/// A transaction can be read off the serial line: select is low around it, and at each clock pulse
/// output and input have the next binary digit of their bytes, highest first. The bus strobe and the
/// channels of the bus alone do not change.
pub proof fn law_transaction_can_be_read_off_the_line(
    channels: Seq<Seq<bool>>,
    start: int,
    mosi: Seq<u8>,
    miso: Seq<u8>,
    byte: int,
    digit: int,
    offset: int,
)
    requires
        start >= 0,
        mosi.len() == miso.len(),
        reaches(channels, start + mosi.len() * 80 + 16),
        0 <= byte < mosi.len(),
        0 <= digit < 8,
        0 <= offset < 10,
    ensures
        ({
            let drawn = with_transaction(channels, start, mosi, miso);
            let at = start + 8 + 80 * byte + 10 * (7 - digit) + offset;
            &&& drawn[6][at] <==> number_bit(mosi[byte] as int, digit as nat)
            &&& drawn[5][at] <==> number_bit(miso[byte] as int, digit as nat)
            &&& !drawn[8][at]
            &&& 3 <= offset < 7 ==> drawn[7][at]
            &&& !(3 <= offset < 7) ==> drawn[7][at] == channels[7][at]
            &&& drawn[10][at] == channels[10][at]
        }),
{
    let at = start + 8 + 80 * byte + 10 * (7 - digit) + offset;
    let index = 8 * byte + (7 - digit);
    assert(80 * byte + 80 <= mosi.len() * 80) by (nonlinear_arith)
        requires
            byte < mosi.len(),
    ;
    vstd::arithmetic::div_mod::lemma_fundamental_div_mod_converse(
        at - start - 8,
        10,
        index,
        offset,
    );
    vstd::arithmetic::div_mod::lemma_fundamental_div_mod_converse(index, 8, byte, 7 - digit);
    assert(at < channels[5].len() && at < channels[6].len() && at < channels[7].len() && at
        < channels[8].len() && at < channels[10].len());
    lemma_transaction(channels, start, mosi, miso, 5, at);
    lemma_transaction(channels, start, mosi, miso, 6, at);
    lemma_transaction(channels, start, mosi, miso, 7, at);
    lemma_transaction(channels, start, mosi, miso, 8, at);
    lemma_transaction(channels, start, mosi, miso, 10, at);
    law_byte_has_binary_digits(mosi[byte], digit);
    law_byte_has_binary_digits(miso[byte], digit);
}

/// The stages in which an activity group is drawn: three bursts with two transactions between them.
spec fn group_stage(channels: Seq<Seq<bool>>, base: int, stage: int) -> Seq<Seq<bool>> {
    let first = with_burst(channels, base + 80, first_words(), 8);
    let second = with_transaction(first, base + 440, seq![0x9a, 0xbc, 0x42], seq![0x11, 0x22, 0x33]);
    let third = with_burst(second, base + 760, second_words(), 8);
    let fourth = with_transaction(third, base + 1_160, seq![0xde, 0xad], seq![0xbe, 0xef]);
    if stage == 0 {
        channels
    } else if stage == 1 {
        first
    } else if stage == 2 {
        second
    } else if stage == 3 {
        third
    } else if stage == 4 {
        fourth
    } else {
        with_burst(fourth, base + 1_440, third_words(), 8)
    }
}

proof fn lemma_group_reaches(channels: Seq<Seq<bool>>, base: int)
    requires
        base >= 0,
        reaches(channels, base + 1_632),
    ensures
        forall|stage: int, c: int|
            0 <= stage <= 5 && 0 <= c < 11 ==> (#[trigger] group_stage(channels, base, stage)[c]).len()
                == channels[c].len(),
        forall|stage: int|
            0 <= stage <= 5 ==> (#[trigger] group_stage(channels, base, stage)).len() == 11,
{
    let mosi: Seq<u8> = seq![0x9a, 0xbc, 0x42];
    let miso: Seq<u8> = seq![0x11, 0x22, 0x33];
    let out: Seq<u8> = seq![0xde, 0xad];
    let back: Seq<u8> = seq![0xbe, 0xef];
    let s1 = group_stage(channels, base, 1);
    let s2 = group_stage(channels, base, 2);
    let s3 = group_stage(channels, base, 3);
    let s4 = group_stage(channels, base, 4);
    let s5 = group_stage(channels, base, 5);
    assert(first_words().len() == 8 && second_words().len() == 8 && third_words().len() == 8);
    lemma_burst(channels, base + 80, first_words(), 8, 0, 0);
    assert forall|c: int| 0 <= c < 11 implies (#[trigger] s1[c]).len() == channels[c].len() by {
        lemma_burst(channels, base + 80, first_words(), 8, c, 0);
    }
    lemma_transaction(s1, base + 440, mosi, miso, 0, 0);
    assert forall|c: int| 0 <= c < 11 implies (#[trigger] s2[c]).len() == channels[c].len() by {
        assert(s1[c].len() == channels[c].len());
        lemma_transaction(s1, base + 440, mosi, miso, c, 0);
    }
    lemma_burst(s2, base + 760, second_words(), 8, 0, 0);
    assert forall|c: int| 0 <= c < 11 implies (#[trigger] s3[c]).len() == channels[c].len() by {
        assert(s2[c].len() == channels[c].len());
        lemma_burst(s2, base + 760, second_words(), 8, c, 0);
    }
    lemma_transaction(s3, base + 1_160, out, back, 0, 0);
    assert forall|c: int| 0 <= c < 11 implies (#[trigger] s4[c]).len() == channels[c].len() by {
        assert(s3[c].len() == channels[c].len());
        lemma_transaction(s3, base + 1_160, out, back, c, 0);
    }
    lemma_burst(s4, base + 1_440, third_words(), 8, 0, 0);
    assert forall|c: int| 0 <= c < 11 implies (#[trigger] s5[c]).len() == channels[c].len() by {
        assert(s4[c].len() == channels[c].len());
        lemma_burst(s4, base + 1_440, third_words(), 8, c, 0);
    }
}

proof fn lemma_group_stages(channels: Seq<Seq<bool>>, base: int, c: int, i: int)
    requires
        base >= 0,
        reaches(channels, base + 1_632),
        0 <= c < 11,
        0 <= i < channels[c].len(),
    ensures
        !(base + 80 <= i < base + 272) ==> group_stage(channels, base, 1)[c][i] == channels[c][i],
        !(base + 440 <= i < base + 696) ==> group_stage(channels, base, 2)[c][i] == group_stage(
            channels,
            base,
            1,
        )[c][i],
        !(base + 760 <= i < base + 952) ==> group_stage(channels, base, 3)[c][i] == group_stage(
            channels,
            base,
            2,
        )[c][i],
        !(base + 1_160 <= i < base + 1_336) ==> group_stage(channels, base, 4)[c][i] == group_stage(
            channels,
            base,
            3,
        )[c][i],
        !(base + 1_440 <= i < base + 1_632) ==> group_stage(channels, base, 5)[c][i] == group_stage(
            channels,
            base,
            4,
        )[c][i],
{
    lemma_group_reaches(channels, base);
    let mosi: Seq<u8> = seq![0x9a, 0xbc, 0x42];
    let miso: Seq<u8> = seq![0x11, 0x22, 0x33];
    let out: Seq<u8> = seq![0xde, 0xad];
    let back: Seq<u8> = seq![0xbe, 0xef];
    let s1 = group_stage(channels, base, 1);
    let s2 = group_stage(channels, base, 2);
    let s3 = group_stage(channels, base, 3);
    let s4 = group_stage(channels, base, 4);
    assert forall|k: int| 0 <= k < 11 implies (#[trigger] s1[k]).len() == channels[k].len()
        && s2[k].len() == channels[k].len() && s3[k].len() == channels[k].len() && s4[k].len()
        == channels[k].len() by {
        assert(group_stage(channels, base, 1)[k].len() == channels[k].len());
        assert(group_stage(channels, base, 2)[k].len() == channels[k].len());
        assert(group_stage(channels, base, 3)[k].len() == channels[k].len());
        assert(group_stage(channels, base, 4)[k].len() == channels[k].len());
    }
    assert(forall|k: int| 0 <= k < 11 ==> (#[trigger] s2[k]).len() == s1[k].len());
    assert(forall|k: int| 0 <= k < 11 ==> (#[trigger] s3[k]).len() == s1[k].len());
    assert(forall|k: int| 0 <= k < 11 ==> (#[trigger] s4[k]).len() == s1[k].len());
    lemma_burst(channels, base + 80, first_words(), 8, c, i);
    lemma_transaction(s1, base + 440, mosi, miso, c, i);
    lemma_burst(s2, base + 760, second_words(), 8, c, i);
    lemma_transaction(s3, base + 1_160, out, back, c, i);
    lemma_burst(s4, base + 1_440, third_words(), 8, c, i);
}

/// An activity group carries its three bursts, each at its own time: at the time of a word the bus has
/// the binary digits of that word, and the strobe is high in the middle of it.
pub proof fn law_group_carries_its_bursts(
    channels: Seq<Seq<bool>>,
    base: int,
    word: int,
    c: int,
    offset: int,
)
    requires
        base >= 0,
        reaches(channels, base + 1_632),
        0 <= word < 8,
        0 <= c < 8,
        0 <= offset < 24,
    ensures
        ({
            let drawn = with_group(channels, base);
            let place = 24 * word + offset;
            &&& drawn[c][base + 80 + place] <==> number_bit(first_words()[word] as int, c as nat)
            &&& drawn[c][base + 760 + place] <==> number_bit(second_words()[word] as int, c as nat)
            &&& drawn[c][base + 1_440 + place] <==> number_bit(third_words()[word] as int, c as nat)
            &&& 8 <= offset < 14 ==> drawn[10][base + 80 + place] && drawn[10][base + 760 + place]
                && drawn[10][base + 1_440 + place]
        }),
{
    lemma_group_reaches(channels, base);
    let s2 = group_stage(channels, base, 2);
    let s4 = group_stage(channels, base, 4);
    assert(with_group(channels, base) == group_stage(channels, base, 5));
    assert forall|k: int| 0 <= k < 11 implies (#[trigger] s2[k]).len() == channels[k].len() by {
        assert(group_stage(channels, base, 2)[k].len() == channels[k].len());
    }
    assert forall|k: int| 0 <= k < 11 implies (#[trigger] s4[k]).len() == channels[k].len() by {
        assert(group_stage(channels, base, 4)[k].len() == channels[k].len());
    }
    let place = 24 * word + offset;
    law_burst_can_be_read_off_the_bus(channels, base + 80, first_words(), word, c, offset);
    law_burst_can_be_read_off_the_bus(s2, base + 760, second_words(), word, c, offset);
    law_burst_can_be_read_off_the_bus(s4, base + 1_440, third_words(), word, c, offset);
    assert(base + 1_440 + place < channels[c].len() && base + 1_440 + place < channels[10].len());
    lemma_group_stages(channels, base, c, base + 80 + place);
    lemma_group_stages(channels, base, 10, base + 80 + place);
    lemma_group_stages(channels, base, c, base + 760 + place);
    lemma_group_stages(channels, base, 10, base + 760 + place);
}

/// An activity group carries two transactions: three bytes each way between the first two bursts, and
/// two bytes each way between the last two. At each clock pulse output and input have the next binary
/// digit of their bytes, highest first, while select is low.
pub proof fn law_group_carries_its_transactions(
    channels: Seq<Seq<bool>>,
    base: int,
    byte: int,
    digit: int,
    offset: int,
)
    requires
        base >= 0,
        reaches(channels, base + 1_632),
        0 <= byte < 3,
        0 <= digit < 8,
        3 <= offset < 7,
    ensures
        ({
            let drawn = with_group(channels, base);
            let place = base + 8 + 80 * byte + 10 * (7 - digit) + offset;
            let output: Seq<u8> = seq![0x9a, 0xbc, 0x42];
            let input: Seq<u8> = seq![0x11, 0x22, 0x33];
            let further_output: Seq<u8> = seq![0xde, 0xad];
            let further_input: Seq<u8> = seq![0xbe, 0xef];
            &&& drawn[6][place + 440] <==> number_bit(output[byte] as int, digit as nat)
            &&& drawn[5][place + 440] <==> number_bit(input[byte] as int, digit as nat)
            &&& drawn[7][place + 440]
            &&& !drawn[8][place + 440]
            &&& byte < 2 ==> {
                &&& drawn[6][place + 1_160] <==> number_bit(
                    further_output[byte] as int,
                    digit as nat,
                )
                &&& drawn[5][place + 1_160] <==> number_bit(
                    further_input[byte] as int,
                    digit as nat,
                )
                &&& drawn[7][place + 1_160]
                &&& !drawn[8][place + 1_160]
            }
        }),
{
    lemma_group_reaches(channels, base);
    let place = base + 8 + 80 * byte + 10 * (7 - digit) + offset;
    let output: Seq<u8> = seq![0x9a, 0xbc, 0x42];
    let input: Seq<u8> = seq![0x11, 0x22, 0x33];
    let further_output: Seq<u8> = seq![0xde, 0xad];
    let further_input: Seq<u8> = seq![0xbe, 0xef];
    let s1 = group_stage(channels, base, 1);
    let s3 = group_stage(channels, base, 3);
    assert(with_group(channels, base) == group_stage(channels, base, 5));
    assert forall|k: int| 0 <= k < 11 implies (#[trigger] s1[k]).len() == channels[k].len() by {
        assert(group_stage(channels, base, 1)[k].len() == channels[k].len());
    }
    assert forall|k: int| 0 <= k < 11 implies (#[trigger] s3[k]).len() == channels[k].len() by {
        assert(group_stage(channels, base, 3)[k].len() == channels[k].len());
    }
    assert(channels[5].len() >= base + 1_632 && channels[6].len() >= base + 1_632
        && channels[7].len() >= base + 1_632 && channels[8].len() >= base + 1_632);
    law_transaction_can_be_read_off_the_line(s1, base + 440, output, input, byte, digit, offset);
    lemma_group_stages(channels, base, 5, place + 440);
    lemma_group_stages(channels, base, 6, place + 440);
    lemma_group_stages(channels, base, 7, place + 440);
    lemma_group_stages(channels, base, 8, place + 440);
    if byte < 2 {
        law_transaction_can_be_read_off_the_line(
            s3,
            base + 1_160,
            further_output,
            further_input,
            byte,
            digit,
            offset,
        );
        lemma_group_stages(channels, base, 5, place + 1_160);
        lemma_group_stages(channels, base, 6, place + 1_160);
        lemma_group_stages(channels, base, 7, place + 1_160);
        lemma_group_stages(channels, base, 8, place + 1_160);
    }
}

proof fn lemma_total_grows(counts: Seq<u64>, more: Seq<u64>, count: nat)
    requires
        count <= counts.len(),
    ensures
        total(counts + more, count) == total(counts, count),
    decreases count,
{
    if count > 0 {
        lemma_total_grows(counts, more, (count - 1) as nat);
        assert((counts + more)[count - 1] == counts[count - 1]);
    }
}

/// A total is the sum of its parts.
pub proof fn law_totals_sum_up(counts: Seq<u64>, more: Seq<u64>, count: nat)
    requires
        count <= more.len(),
    ensures
        total(counts + more, counts.len() + count) == total(counts, counts.len()) + total(more, count),
        total(counts, 0) == 0,
        more.len() == 1 ==> total(more, 1) == more[0],
    decreases count,
{
    reveal_with_fuel(total, 2);
    if count > 0 {
        law_totals_sum_up(counts, more, (count - 1) as nat);
        assert((counts + more)[counts.len() + count - 1] == more[count - 1]);
    } else {
        lemma_total_grows(counts, more, counts.len());
    }
}

/// The largest of some numbers is one of them, and none is larger.
pub proof fn law_largest_is_the_largest(counts: Seq<u64>, count: nat)
    requires
        count <= counts.len(),
    ensures
        forall|i: int| 0 <= i < count ==> #[trigger] counts[i] <= largest(counts, count),
        count > 0 ==> exists|i: int| 0 <= i < count && #[trigger] counts[i] == largest(counts, count),
        largest(counts, 0) == 0,
    decreases count,
{
    if count > 0 {
        law_largest_is_the_largest(counts, (count - 1) as nat);
        if largest(counts, count) == counts[count - 1] {
            assert(counts[count - 1] == largest(counts, count));
        } else if count > 1 {
            let i = choose|i: int|
                0 <= i < count - 1 && #[trigger] counts[i] == largest(counts, (count - 1) as nat);
            assert(counts[i] == largest(counts, count));
        }
    }
}

/// The first chunk begins at the second bit of its first byte, and each chunk three bits further, around
/// the byte. A chunk has just the bytes that its bits need.
pub proof fn law_chunks_move_through_the_byte(sequence: int, samples: int, channels: int)
    requires
        sequence >= 0,
    ensures
        offset_of(0) == 1,
        0 <= offset_of(sequence) < 8,
        offset_of(sequence + 1) == offset_of(sequence) + 3 || offset_of(sequence + 1) == offset_of(
            sequence,
        ) - 5,
        8 * chunk_bytes(sequence, samples, channels) >= samples * channels + offset_of(sequence),
        8 * chunk_bytes(sequence, samples, channels) < samples * channels + offset_of(sequence) + 8,
{
}

/// The levels of a chunk are binary digits of its bytes: sample after sample, channel after channel,
/// from its offset on.
pub proof fn law_chunk_levels_are_digits(
    chunk: PackedChunk,
    seed: u64,
    channels: int,
    sequence: int,
    start: int,
    samples: int,
    sample: int,
    channel: int,
)
    requires
        is_chunk(chunk, seed, channels, sequence, start, samples),
        0 <= sample < samples,
        0 <= channel < channels,
    ensures
        number_bit(
            bytes_number(chunk.data@) as int,
            (chunk.bit_offset + sample * channels + channel) as nat,
        ) <==> mixed_level(seed, (start + sample) as u64, channel),
{
    let index = chunk.bit_index(sample, channel);
    assert(sample * channels + channel < samples * channels && sample * channels >= 0)
        by (nonlinear_arith)
        requires
            0 <= sample < samples,
            0 <= channel < channels,
    ;
    law_packed_bits_are_binary_digits(chunk.data@, index);
    assert(bit_of(chunk.data@, chunk.bit_index(sample, channel)) == mixed_level(
        seed,
        (start + sample) as u64,
        channel,
    ));
}

/// A simple trigger looks at each channel that has a condition to meet, once, in the order of the
/// channels, and at no other.
pub proof fn law_simple_trigger_has_each_condition(
    conditions: Seq<Option<SimpleTriggerCondition>>,
    count: nat,
)
    requires
        count <= conditions.len() <= usize::MAX,
    ensures
        ({
            let predicates = simple_predicates(conditions, count);
            &&& forall|k: int|
                #![trigger predicates[k]]
                0 <= k < predicates.len() ==> predicates[k].channel < count
                    && conditions[predicates[k].channel as int] == Some(predicates[k].condition)
                    && predicates[k].condition != SimpleTriggerCondition::Ignore
            &&& forall|k: int, l: int|
                0 <= k < l < predicates.len() ==> (#[trigger] predicates[k]).channel < (
                #[trigger] predicates[l]).channel
            &&& forall|c: int|
                #![trigger conditions[c]]
                0 <= c < count && conditions[c] is Some && conditions[c]->0
                    != SimpleTriggerCondition::Ignore ==> predicates.contains(
                    DeterministicTriggerPredicate {
                        channel: c as usize,
                        condition: conditions[c]->0,
                    },
                )
        }),
    decreases count,
{
    if count > 0 {
        let less = (count - 1) as nat;
        law_simple_trigger_has_each_condition(conditions, less);
        let before = simple_predicates(conditions, less);
        let predicates = simple_predicates(conditions, count);
        assert forall|c: int|
            #![trigger conditions[c]]
            0 <= c < count && conditions[c] is Some && conditions[c]->0
                != SimpleTriggerCondition::Ignore implies predicates.contains(
            DeterministicTriggerPredicate { channel: c as usize, condition: conditions[c]->0 },
        ) by {
            let wanted = DeterministicTriggerPredicate {
                channel: c as usize,
                condition: conditions[c]->0,
            };
            if c < less {
                assert(before.contains(wanted));
                let k = choose|k: int| 0 <= k < before.len() && before[k] == wanted;
                assert(predicates[k] == wanted);
            } else {
                assert(predicates[before.len() as int] == wanted);
            }
        }
        assert forall|k: int|
            #![trigger predicates[k]]
            0 <= k < predicates.len() implies predicates[k].channel < count
            && conditions[predicates[k].channel as int] == Some(predicates[k].condition)
            && predicates[k].condition != SimpleTriggerCondition::Ignore by {
            if k < before.len() {
                assert(predicates[k] == before[k]);
            }
        }
        assert forall|k: int, l: int| 0 <= k < l < predicates.len() implies (
        #[trigger] predicates[k]).channel < (#[trigger] predicates[l]).channel by {
            assert(predicates[k] == before[k]);
            if l < before.len() {
                assert(predicates[l] == before[l]);
            }
        }
    }
}

proof fn lemma_first_outside(
    predicates: Seq<DeterministicTriggerPredicate>,
    channels: int,
    from: int,
)
    requires
        0 <= from,
    ensures
        first_outside(predicates, channels, from) is None <==> forall|i: int|
            from <= i < predicates.len() ==> (#[trigger] predicates[i]).channel < channels,
    decreases predicates.len() - from,
{
    if from < predicates.len() {
        lemma_first_outside(predicates, channels, from + 1);
    }
}

proof fn lemma_stages_error(stages: Seq<DeterministicTriggerStage>, channels: int, from: int)
    requires
        0 <= from,
    ensures
        stages_error(stages, channels, from) is None <==> forall|i: int|
            from <= i < stages.len() ==> (#[trigger] stages[i]).wf(channels),
    decreases stages.len() - from,
{
    if from < stages.len() {
        lemma_stages_error(stages, channels, from + 1);
        lemma_first_outside(stages[from].predicates@, channels, 0);
        assert(stage_error(stages[from], from, channels) is None <==> stages[from].wf(channels));
    }
}

/// A trigger is accepted exactly where it has stages, each stage has predicates on channels that exist,
/// and no stage counts to zero.
pub proof fn law_acceptable_triggers(trigger: DeterministicTrigger, channels: int)
    ensures
        trigger_error(Some(trigger), channels) is None <==> {
            &&& trigger.stages@.len() > 0
            &&& forall|i: int|
                0 <= i < trigger.stages@.len() ==> {
                    let stage = #[trigger] trigger.stages@[i];
                    &&& stage.predicates@.len() > 0
                    &&& forall|k: int|
                        0 <= k < stage.predicates@.len() ==> (#[trigger] stage.predicates@[k]).channel
                            < channels
                    &&& stage.count is Some ==> stage.count->0.value != 0
                }
        },
        trigger_error(None, channels) is None,
{
    lemma_stages_error(trigger.stages@, channels, 0);
    if trigger_error(Some(trigger), channels) is None {
        assert forall|i: int| 0 <= i < trigger.stages@.len() implies {
            let stage = #[trigger] trigger.stages@[i];
            &&& stage.predicates@.len() > 0
            &&& forall|k: int|
                0 <= k < stage.predicates@.len() ==> (#[trigger] stage.predicates@[k]).channel
                    < channels
            &&& stage.count is Some ==> stage.count->0.value != 0
        } by {
            assert(trigger.stages@[i].wf(channels));
        }
    }
}

/// Chunks follow each other: each begins where the samples so far end, and what is reported as captured
/// and transferred grows by just what the chunk holds. A trigger, once there, stays.
pub proof fn law_chunks_follow_each_other(
    before: FakeRun,
    config: DeterministicFakeConfig,
    after: FakeRun,
    result: Result<RunStep, AcquisitionError>,
)
    requires
        before.wf(config),
        before.chunk_count < config.chunk_sample_counts@.len(),
        before.woken(config, FakeWake::Chunk, after, result),
        before.captured_samples + before.next_samples(config) <= u64::MAX,
        before.chunk_count < u64::MAX,
    ensures
        result matches Ok(RunStep::Chunk(chunk, notices)) ==> {
            &&& chunk.start_sample == before.captured_samples
            &&& chunk.sample_count == config.chunk_sample_counts@[before.chunk_count as int]
            &&& chunk.sequence == before.chunk_count
            &&& chunk.channel_count == config.channels@.len()
            &&& after.captured_samples == before.captured_samples + chunk.sample_count
            &&& after.transferred_bytes == before.transferred_bytes + chunk.data@.len()
            &&& after.chunk_count == before.chunk_count + 1
            &&& after.stopped == before.stopped
            &&& before.triggered ==> after.triggered && notices@.len() == 1
            &&& notices@.len() > 1 <==> !before.triggered && after.triggered
            &&& notices@.last() == Notice::Progress {
                captured_samples: after.captured_samples,
                transferred_bytes: after.transferred_bytes,
            }
        },
{
}

/// An acquisition that is stepped by hand waits until it is allowed a step, stopped, aborted or
/// made to trigger; one that runs by itself never waits.
pub proof fn law_only_manual_runs_wait(control: FakeControlState)
    ensures
        !control.manual ==> !control.waits(),
        control.permits > 0 ==> !control.waits(),
        control.stop_requested || control.abort_requested || control.force_trigger_requested ==> !control.waits(),
        control.manual && control.permits == 0 && !control.stop_requested && !control.abort_requested
            && !control.force_trigger_requested ==> control.waits(),
{
}

/// Every channel of a source has an output for its samples and, as many outputs further on as there
/// are channels, one for its blocks; both carry the channel's number.
pub proof fn law_synthetic_channel_has_two_outputs(channels: int, channel: int)
    requires
        0 <= channel < channels,
    ensures
        synthetic_ports(channels).len() == channels + channels,
        synthetic_ports(channels)[channel].1 == PortKind::Sample,
        synthetic_ports(channels)[channel + channels].1 == PortKind::SampleBlock,
        synthetic_ports(channels)[channel].0.skip(2) == decimal(channel as nat),
        synthetic_ports(channels)[channel].0.take(2) == seq!['c', 'h'],
        synthetic_ports(channels)[channel + channels].0.skip(5) == decimal(channel as nat),
        synthetic_ports(channels)[channel + channels].0.take(5) == seq!['b', 'l', 'o', 'c', 'k'],
{
    reveal_strlit("ch");
    reveal_strlit("block");
    let samples = synthetic_ports(channels)[channel].0;
    let blocks = synthetic_ports(channels)[channel + channels].0;
    assert(samples.skip(2) =~= decimal(channel as nat));
    assert(samples.take(2) =~= seq!['c', 'h']);
    assert(blocks.skip(5) =~= decimal(channel as nat));
    assert(blocks.take(5) =~= seq!['b', 'l', 'o', 'c', 'k']);
}

proof fn lemma_groups_reach(count: nat)
    requires
        count <= CYCLE_COUNT,
    ensures
        reaches(with_groups(count), SAMPLE_COUNT as int),
        forall|c: int| 0 <= c < 11 ==> (#[trigger] with_groups(count)[c]).len() == SAMPLE_COUNT,
    decreases count,
{
    if count > 0 {
        let before = with_groups((count - 1) as nat);
        let base = (count - 1) * CYCLE_SAMPLES;
        lemma_groups_reach((count - 1) as nat);
        assert(0 <= base <= SAMPLE_COUNT - CYCLE_SAMPLES);
        lemma_group_reaches(before, base);
        assert(with_groups(count) == group_stage(before, base, 5));
        assert forall|c: int| 0 <= c < 11 implies (#[trigger] with_groups(count)[c]).len()
            == SAMPLE_COUNT by {
            assert(group_stage(before, base, 5)[c].len() == before[c].len());
        }
    }
}

/// Behind the first groups, at a place in the cycle of one of them, the level is the one that this
/// group drew; and behind the groups all is idle.
proof fn lemma_groups_keep_apart(count: nat, c: int, i: int)
    requires
        count <= CYCLE_COUNT,
        0 <= c < 11,
        0 <= i < SAMPLE_COUNT,
    ensures
        i >= count * CYCLE_SAMPLES ==> with_groups(count)[c][i] == (c == 8),
        i < count * CYCLE_SAMPLES ==> with_groups(count)[c][i] == with_groups(
            (i / CYCLE_SAMPLES as int + 1) as nat,
        )[c][i],
    decreases count,
{
    if count > 0 {
        let less = (count - 1) as nat;
        let before = with_groups(less);
        let base = less * CYCLE_SAMPLES;
        lemma_groups_keep_apart(less, c, i);
        lemma_groups_reach(less);
        lemma_group_stages(before, base, c, i);
        assert(with_groups(count) == group_stage(before, base, 5));
        if base <= i < base + CYCLE_SAMPLES {
            assert(i / CYCLE_SAMPLES as int == less);
        }
    }
}

/// In every cycle the authored waveform carries three bursts, each at its own time in the cycle: the
/// bus has the binary digits of each word in turn, and the strobe is high in the middle of it.
pub proof fn law_waveform_carries_its_bursts(cycle: int, word: int, c: int, offset: int)
    requires
        0 <= cycle < CYCLE_COUNT,
        0 <= word < 8,
        0 <= c < 8,
        0 <= offset < 24,
    ensures
        ({
            let place = 5_000 * cycle + 24 * word + offset;
            &&& demo()[c][place + 80] <==> number_bit(first_words()[word] as int, c as nat)
            &&& demo()[c][place + 760] <==> number_bit(second_words()[word] as int, c as nat)
            &&& demo()[c][place + 1_440] <==> number_bit(third_words()[word] as int, c as nat)
            &&& 8 <= offset < 14 ==> demo()[10][place + 80] && demo()[10][place + 760]
                && demo()[10][place + 1_440]
        }),
{
    let place = 5_000 * cycle + 24 * word + offset;
    let all = CYCLE_COUNT as nat;
    let before = with_groups(cycle as nat);
    lemma_groups_reach(cycle as nat);
    lemma_groups_reach(all);
    law_group_carries_its_bursts(before, 5_000 * cycle, word, c, offset);
    assert(with_groups((cycle + 1) as nat) == with_group(before, cycle * CYCLE_SAMPLES));
    lemma_groups_keep_apart(all, c, place + 80);
    lemma_groups_keep_apart(all, c, place + 760);
    lemma_groups_keep_apart(all, c, place + 1_440);
    lemma_groups_keep_apart(all, 10, place + 80);
    lemma_groups_keep_apart(all, 10, place + 760);
    lemma_groups_keep_apart(all, 10, place + 1_440);
}

/// Between its activities the authored waveform is idle: all channels are low but the select line,
/// which idles high. Only a strobe closes it, one sample before its end.
pub proof fn law_waveform_idles_with_the_select_line_high(c: int, i: int)
    requires
        0 <= c < 11,
        0 <= i < 60_000,
        i % 5_000 < 80 || i % 5_000 >= 1_632,
    ensures
        demo()[c][i] <==> c == 8 || (c == 10 && i == 59_998),
{
    let cycle = i / 5_000;
    let all = CYCLE_COUNT as nat;
    let before = with_groups(cycle as nat);
    lemma_groups_reach(all);
    lemma_groups_reach(cycle as nat);
    lemma_groups_keep_apart(all, c, i);
    lemma_groups_keep_apart(cycle as nat, c, i);
    lemma_group_stages(before, cycle * CYCLE_SAMPLES, c, i);
    assert(with_groups((cycle + 1) as nat) == group_stage(before, cycle * CYCLE_SAMPLES, 5));
}

/// Settings are accepted where they have a channel and a chunk, every chunk has a sample, and the sums
/// can be counted.
pub proof fn law_acceptable_settings(channels: Seq<String>, counts: Seq<u64>)
    ensures
        config_error(channels, counts) is None <==> channels.len() > 0 && counts.len() > 0 && (
        forall|i: int| 0 <= i < counts.len() ==> #[trigger] counts[i] > 0) && total(
            counts,
            counts.len(),
        ) <= u64::MAX && payload_bytes(counts, channels.len() as int) <= usize::MAX,
{
    if counts.contains(0) {
        let i = choose|i: int| 0 <= i < counts.len() && counts[i] == 0;
        assert(counts[i] == 0);
    }
}

/// A trigger is made known with its sample first; then the session is triggered, and then it records.
pub proof fn law_trigger_is_made_known(sample: u64)
    ensures
        trigger_notices(sample).len() == 3,
        trigger_notices(sample)[0] == Notice::Triggered(sample),
        trigger_notices(sample)[1] matches Notice::Status(state, _) && state
            == CaptureSessionState::Triggered,
        trigger_notices(sample)[2] matches Notice::Status(state, _) && state
            == CaptureSessionState::Recording,
{
}

/// A stop ends an acquisition where it is. A forced trigger is made known at the next sample, once, and
/// captures nothing.
pub proof fn law_stop_and_forced_trigger(
    before: FakeRun,
    config: DeterministicFakeConfig,
    wake: FakeWake,
    after: FakeRun,
    result: Result<RunStep, AcquisitionError>,
)
    requires
        !(wake is Chunk),
        before.woken(config, wake, after, result),
    ensures
        after.captured_samples == before.captured_samples,
        after.transferred_bytes == before.transferred_bytes,
        after.chunk_count == before.chunk_count,
        after.stopped <==> before.stopped || wake is Stop,
        after.triggered <==> before.triggered || wake is ForceTrigger,
        wake is Stop ==> (result matches Ok(step) && step is Finish),
        wake is ForceTrigger ==> (result matches Ok(RunStep::Notices(notices)) && (if before.triggered {
            notices@.len() == 0
        } else {
            notices@.len() == 3 && notices@[0] == Notice::Triggered(before.captured_samples)
        })),
{
}

/// The trigger that is found in a chunk is made known before its progress, with its sample.
pub proof fn law_found_trigger_is_made_known(
    before: FakeRun,
    config: DeterministicFakeConfig,
    after: FakeRun,
    result: Result<RunStep, AcquisitionError>,
)
    requires
        before.woken(config, FakeWake::Chunk, after, result),
        result is Ok,
        !before.triggered,
        after.triggered,
    ensures
        before.next_trigger(config).0 is Some,
        result matches Ok(RunStep::Chunk(_, notices)) ==> notices@.len() == 4 && notices@[0]
            == Notice::Triggered(before.next_trigger(config).0->0 as u64),
{
}

} // verus!
