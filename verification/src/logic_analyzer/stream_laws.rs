//! What the channels of an interleaved stream hold.

use vstd::prelude::*;

use super::chunk::LogicChunk;
use super::config::{enabled_below, enabled_inputs};
use super::demux::{
    block_holds, changes, channel_levels, level_after, leftover, sample_time, whole_samples, Demux,
};
use crate::bit_laws::{
    bytes_number, law_packed_bits_are_binary_digits, law_word_has_binary_digits, number_bit,
};
use crate::bits::bit_of;
use crate::streams::{Sample, SampleBlock};

verus! {

/// The binary digits of a mask that are set.
pub open spec fn set_digits(mask: u64, width: nat) -> Seq<bool> {
    Seq::new(width, |i: int| number_bit(mask as int, i as nat)).filter(|set: bool| set)
}

proof fn lemma_enabled_below(mask: u64, width: nat)
    requires
        width <= 64,
    ensures
        enabled_below(mask, width) == set_digits(mask, width).len(),
    decreases width,
{
    reveal(Seq::filter);
    if width > 0 {
        let less = (width - 1) as nat;
        lemma_enabled_below(mask, less);
        law_word_has_binary_digits(mask, width - 1);
        let all = Seq::new(width, |i: int| number_bit(mask as int, i as nat));
        assert(all.drop_last() =~= Seq::new(less, |i: int| number_bit(mask as int, i as nat)));
    } else {
        assert(Seq::new(0, |i: int| number_bit(mask as int, i as nat)).len() == 0);
    }
}

/// A mask enables as many inputs as it has binary digits set.
pub proof fn law_mask_enables_its_set_digits(mask: u64)
    ensures
        enabled_inputs(mask) == set_digits(mask, 64).len(),
{
    lemma_enabled_below(mask, 64);
}

/// The valid bits of a chunk are the binary digits of its bytes from its offset on.
pub proof fn law_chunk_holds_binary_digits(chunk: LogicChunk, i: int)
    requires
        chunk.wf(),
        0 <= i < chunk.bit_len,
    ensures
        chunk.levels().len() == chunk.bit_len,
        chunk.levels()[i] <==> number_bit(
            bytes_number(chunk.data@) as int,
            (chunk.bit_offset + i) as nat,
        ),
{
    law_packed_bits_are_binary_digits(chunk.data@, chunk.bit_offset + i);
}

/// Samples are interleaved channel by channel: putting the levels of the channels together again
/// gives the stream, sample after sample, and less than one sample is left over.
pub proof fn law_channels_make_the_stream(stream: Seq<bool>, channels: nat, place: int)
    requires
        0 < channels,
        0 <= place < stream.len(),
    ensures
        ({
            let samples = whole_samples(stream.len(), channels);
            let sample = place / channels as int;
            let channel = place % channels as int;
            &&& leftover(stream, channels).len() < channels
            &&& samples * channels + leftover(stream, channels).len() == stream.len()
            &&& sample < samples ==> channel_levels(stream, channels, channel).len() == samples
                && channel_levels(stream, channels, channel)[sample] == stream[place]
            &&& sample >= samples ==> leftover(stream, channels)[place - samples * channels]
                == stream[place]
        }),
{
    let samples = whole_samples(stream.len(), channels) as int;
    let count = channels as int;
    let length = stream.len() as int;
    vstd::arithmetic::div_mod::lemma_fundamental_div_mod(length, count);
    vstd::arithmetic::div_mod::lemma_fundamental_div_mod(place, count);
    let sample = place / count;
    let channel = place % count;
    assert(samples * count == count * samples && sample * count == count * sample)
        by (nonlinear_arith);
    assert(sample >= samples ==> sample * count >= samples * count) by (nonlinear_arith)
        requires
            count > 0,
    ;
    assert(sample >= 0) by {
        vstd::arithmetic::div_mod::lemma_div_pos_is_pos(place, count);
    }
}

/// The time of a sample is the number of nanoseconds that the samples before it took, rounded down.
pub proof fn law_sample_time_is_rounded_down(position: u64, rate: u64)
    requires
        rate > 0,
        position * 1_000_000_000 <= u64::MAX,
    ensures
        sample_time(position as int, rate) * rate <= position * 1_000_000_000,
        position * 1_000_000_000 < (sample_time(position as int, rate) + 1) * rate,
{
    let total = position * 1_000_000_000;
    let time = sample_time(position as int, rate);
    let unit = rate as int;
    vstd::arithmetic::div_mod::lemma_fundamental_div_mod(total, unit);
    assert(time * unit <= total && total < (time + 1) * unit) by (nonlinear_arith)
        requires
            total == unit * time + total % unit,
            0 <= total % unit < unit,
    ;
}

/// Times do not fall from one sample to the next.
pub proof fn law_sample_times_are_in_order(early: u64, late: u64, rate: u64)
    requires
        rate > 0,
        early <= late,
    ensures
        sample_time(early as int, rate) <= sample_time(late as int, rate),
{
    let a = if early * 1_000_000_000 > u64::MAX {
        u64::MAX as int
    } else {
        early * 1_000_000_000
    };
    let b = if late * 1_000_000_000 > u64::MAX {
        u64::MAX as int
    } else {
        late * 1_000_000_000
    };
    vstd::arithmetic::div_mod::lemma_div_is_ordered(a, b, rate as int);
}

/// A channel reports a change exactly where its level differs from the one before, with the new level
/// and the time of the sample.
pub proof fn law_channel_reports_its_changes(
    levels: Seq<bool>,
    last: Option<bool>,
    start: int,
    rate: u64,
    level: bool,
)
    ensures
        changes(Seq::empty(), last, start, rate).len() == 0,
        ({
            let before = changes(levels, last, start, rate);
            let after = changes(levels.push(level), last, start, rate);
            let known = if levels.len() > 0 {
                Some(levels.last())
            } else {
                last
            };
            &&& known == Some(level) ==> after == before
            &&& known != Some(level) ==> after == before.push(
                Sample {
                    value: level,
                    start_time_ns: sample_time(start + levels.len(), rate) as u64,
                },
            )
            &&& level_after(levels.push(level), last) == Some(level)
        }),
{
    assert(levels.push(level).drop_last() =~= levels);
}

/// Reported levels alternate, so that the level at any sample is the last one reported before it.
pub proof fn law_reported_levels_alternate(
    levels: Seq<bool>,
    last: Option<bool>,
    start: int,
    rate: u64,
)
    ensures
        ({
            let list = changes(levels, last, start, rate);
            &&& list.len() > 0 ==> list.last().value == levels.last()
            &&& list.len() == 0 && levels.len() > 0 ==> last == Some(levels.last())
            &&& list.len() > 0 && last is Some ==> list[0].value != last->0
            &&& forall|k: int|
                #![trigger list[k]]
                0 < k < list.len() ==> list[k].value != list[k - 1].value
        }),
    decreases levels.len(),
{
    if levels.len() > 0 {
        let front = levels.drop_last();
        law_reported_levels_alternate(front, last, start, rate);
        let before = changes(front, last, start, rate);
        let list = changes(levels, last, start, rate);
        assert forall|k: int|
            #![trigger list[k]]
            0 < k < list.len() implies list[k].value != list[k - 1].value by {
            if k < before.len() {
                assert(list[k] == before[k] && list[k - 1] == before[k - 1]);
            } else {
                assert(list[k - 1] == before.last());
            }
        }
        if before.len() > 0 {
            assert(list[0] == before[0]);
        }
    }
}

/// A block holds the levels of its channel as binary digits, and no digit beyond them.
pub proof fn law_block_holds_binary_digits(
    block: SampleBlock,
    levels: Seq<bool>,
    start: int,
    rate: u64,
    i: int,
)
    requires
        block_holds(block, levels, start, rate),
        0 <= i < 8 * block.data@.len(),
    ensures
        number_bit(bytes_number(block.data@) as int, i as nat) <==> i < levels.len() && levels[i],
        block.num_samples == levels.len(),
        block.start_position == start,
        8 * block.data@.len() < levels.len() + 8,
        rate > 0 ==> block.timestamp_step * rate <= 1_000_000_000 && 1_000_000_000 < (
        block.timestamp_step + 1) * rate,
{
    law_packed_bits_are_binary_digits(block.data@, i);
    if i < levels.len() {
        assert(bit_of(block.data@, i) == levels[i]);
    }
    if rate > 0 {
        let step = block.timestamp_step as int;
        let unit = rate as int;
        let rest = 1_000_000_000int % unit;
        vstd::arithmetic::div_mod::lemma_fundamental_div_mod(1_000_000_000, unit);
        assert(step * unit <= 1_000_000_000 && 1_000_000_000 < (step + 1) * unit)
            by (nonlinear_arith)
            requires
                1_000_000_000 == unit * step + rest,
                0 <= rest < unit,
        ;
    }
}

/// A separator starts at the beginning of the stream with no level known, and a stream that ends there
/// has no closing sample.
pub proof fn law_separator_starts_with_nothing(demux: Demux, channels: usize, rate: u64, channel: int)
    requires
        demux.fresh(channels, rate),
        0 <= channel < channels,
    ensures
        demux.channels == channels,
        demux.sample_rate_hz == rate,
        demux.position == 0,
        demux.pending@.len() == 0,
        demux.next_bit is None,
        demux.values@.len() == channels,
        demux.values@[channel] is None,
        demux.closing()[channel] is None,
{
}

/// The closing sample of a channel has the level that it was last seen at, at the time of the sample
/// behind the last.
pub proof fn law_closing_sample_has_the_last_level(demux: Demux, channel: int)
    requires
        demux.channels == demux.values@.len(),
        0 <= channel < demux.channels,
    ensures
        demux.closing().len() == demux.channels,
        demux.closing()[channel] is Some <==> demux.values@[channel] is Some,
        demux.closing()[channel] matches Some(sample) ==> demux.values@[channel] == Some(
            sample.value,
        ) && sample.start_time_ns == sample_time(
            demux.position as int,
            demux.sample_rate_hz,
        ) as u64,
{
}

} // verus!
