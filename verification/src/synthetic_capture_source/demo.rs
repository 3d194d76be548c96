//! A small mixed-protocol capture in memory.

use vstd::prelude::*;

use crate::bits::{bit_of, byte_bit, bytes_for, pack};
use crate::level_changes::{
    changes_of, law_changes_give_every_level, level_from, list_changes, times_fit,
};
use crate::ports::{add_port, listed, numbered, port_views, PortKind, PortSchema};
use crate::streams::{Sample, SampleBlock};
use crate::text::{decimal, owned};

verus! {

/// Channels of the authored waveform.
pub const CHANNEL_COUNT: usize = 11;

/// Samples of the capture.
pub const SAMPLE_COUNT: usize = 60_000;

/// Time between samples.
pub const TIMESTAMP_STEP_NS: u64 = 1_000_000;

/// Samples of one activity group.
pub const CYCLE_SAMPLES: usize = 5_000;

/// Activity groups.
pub const CYCLE_COUNT: usize = 12;

/// Samples of one word on the parallel bus.
pub const WORD_SAMPLES: usize = 24;

/// Samples of one serial bit.
pub const BIT_SAMPLES: usize = 10;

/// The levels of every channel.
pub open spec fn lanes(channels: Seq<Vec<bool>>) -> Seq<Seq<bool>> {
    channels.map_values(|channel: Vec<bool>| channel@)
}

/// A channel with one stretch set to a level.
pub open spec fn filled(channel: Seq<bool>, start: int, end: int, value: bool) -> Seq<bool> {
    Seq::new(
        channel.len(),
        |i: int|
            if start <= i < end {
                value
            } else {
                channel[i]
            },
    )
}

/// The channels behind one word on the parallel bus: its bits on the first eight channels, and a
/// strobe in the middle of it on channel ten.
pub open spec fn with_word(channels: Seq<Seq<bool>>, start: int, word: u8) -> Seq<Seq<bool>> {
    Seq::new(
        channels.len(),
        |c: int|
            if c < 8 {
                filled(channels[c], start, start + WORD_SAMPLES, byte_bit(word, c))
            } else if c == 10 {
                filled(channels[c], start + 8, start + 14, true)
            } else {
                channels[c]
            },
    )
}

/// The channels behind the first `count` words of a burst.
pub open spec fn with_burst(channels: Seq<Seq<bool>>, start: int, words: Seq<u8>, count: nat) -> Seq<
    Seq<bool>,
>
    decreases count,
{
    if count == 0 {
        channels
    } else {
        with_word(
            with_burst(channels, start, words, (count - 1) as nat),
            start + (count - 1) * WORD_SAMPLES,
            words[count - 1],
        )
    }
}

/// The channels behind one serial bit: output on channel six, input on channel five, a clock pulse
/// in the middle of it on channel seven.
pub open spec fn with_bit(channels: Seq<Seq<bool>>, start: int, mosi: bool, miso: bool) -> Seq<
    Seq<bool>,
> {
    Seq::new(
        channels.len(),
        |c: int|
            if c == 6 {
                filled(channels[c], start, start + BIT_SAMPLES, mosi)
            } else if c == 5 {
                filled(channels[c], start, start + BIT_SAMPLES, miso)
            } else if c == 7 {
                filled(channels[c], start + 3, start + 7, true)
            } else {
                channels[c]
            },
    )
}

/// Bit `index` of a run of bytes that are sent most significant bit first.
pub open spec fn sent_bit(bytes: Seq<u8>, index: int) -> bool {
    byte_bit(bytes[index / 8], 7 - index % 8)
}

/// The channels behind the first `count` bits of a serial transaction.
pub open spec fn with_bits(
    channels: Seq<Seq<bool>>,
    start: int,
    mosi: Seq<u8>,
    miso: Seq<u8>,
    count: nat,
) -> Seq<Seq<bool>>
    decreases count,
{
    if count == 0 {
        channels
    } else {
        with_bit(
            with_bits(channels, start, mosi, miso, (count - 1) as nat),
            start + 8 + (count - 1) * BIT_SAMPLES,
            sent_bit(mosi, count - 1),
            sent_bit(miso, count - 1),
        )
    }
}

/// The channels behind a serial transaction: the select line on channel eight is low around it.
pub open spec fn with_transaction(
    channels: Seq<Seq<bool>>,
    start: int,
    mosi: Seq<u8>,
    miso: Seq<u8>,
) -> Seq<Seq<bool>> {
    let end = start + mosi.len() * 8 * BIT_SAMPLES + 16;
    with_bits(
        channels.update(8, filled(channels[8], start, end, false)),
        start,
        mosi,
        miso,
        8 * mosi.len(),
    )
}

/// Every channel of the authored waveform has every sample.
pub open spec fn full(channels: Seq<Seq<bool>>) -> bool {
    &&& channels.len() == CHANNEL_COUNT
    &&& forall|c: int| 0 <= c < CHANNEL_COUNT ==> (#[trigger] channels[c]).len() == SAMPLE_COUNT
}

/// The words of the first burst of a group.
pub open spec fn first_words() -> Seq<u8> {
    seq![0x10, 0x23, 0x45, 0x67, 0x89, 0xab, 0xcd, 0xef]
}

/// The words of the second burst of a group.
pub open spec fn second_words() -> Seq<u8> {
    seq![0x55, 0xaa, 0x0f, 0xf0, 0x3c, 0xc3, 0x5a, 0xa5]
}

/// The words of the third burst of a group.
pub open spec fn third_words() -> Seq<u8> {
    seq![0x01, 0x02, 0x04, 0x08, 0x10, 0x20, 0x40, 0x80]
}

/// The channels behind one activity group.
pub open spec fn with_group(channels: Seq<Seq<bool>>, base: int) -> Seq<Seq<bool>> {
    let first = with_burst(channels, base + 80, first_words(), 8);
    let second = with_transaction(first, base + 440, seq![0x9a, 0xbc, 0x42], seq![0x11, 0x22, 0x33]);
    let third = with_burst(second, base + 760, second_words(), 8);
    let fourth = with_transaction(third, base + 1_160, seq![0xde, 0xad], seq![0xbe, 0xef]);
    with_burst(fourth, base + 1_440, third_words(), 8)
}

/// The channels behind the first `count` activity groups; the select line idles high.
pub open spec fn with_groups(count: nat) -> Seq<Seq<bool>>
    decreases count,
{
    if count == 0 {
        Seq::new(
            CHANNEL_COUNT as nat,
            |c: int| Seq::new(SAMPLE_COUNT as nat, |i: int| c == 8),
        )
    } else {
        with_group(with_groups((count - 1) as nat), (count - 1) * CYCLE_SAMPLES)
    }
}

/// The authored waveform: all activity groups, and a closing strobe.
pub open spec fn demo() -> Seq<Seq<bool>> {
    let groups = with_groups(CYCLE_COUNT as nat);
    groups.update(10, filled(groups[10], SAMPLE_COUNT - 2, SAMPLE_COUNT - 1, true))
}

/// Sets a stretch of a channel to a level.
pub fn set_range(channel: &mut Vec<bool>, start: usize, end: usize, value: bool)
    requires
        start <= end <= old(channel)@.len(),
    ensures
        final(channel)@ == filled(old(channel)@, start as int, end as int, value),
{
    let ghost before = channel@;
    let mut index: usize = start;
    assert(channel@ =~= filled(before, start as int, start as int, value));
    while index < end
        invariant
            start <= index <= end <= before.len(),
            channel@ == filled(before, start as int, index as int, value),
        decreases end - index,
    {
        channel.set(index, value);
        assert(channel@ =~= filled(before, start as int, index + 1, value));
        index += 1;
    }
}

fn fill(channels: &mut Vec<Vec<bool>>, channel: usize, start: usize, end: usize, value: bool)
    requires
        full(lanes(old(channels)@)),
        channel < CHANNEL_COUNT,
        start <= end <= SAMPLE_COUNT,
    ensures
        full(lanes(final(channels)@)),
        lanes(final(channels)@) == lanes(old(channels)@).update(
            channel as int,
            filled(lanes(old(channels)@)[channel as int], start as int, end as int, value),
        ),
{
    let ghost before = channels@;
    assert(lanes(before)[channel as int] == before[channel as int]@);
    assert(lanes(before)[channel as int].len() == SAMPLE_COUNT);
    set_range(&mut channels[channel], start, end, value);
    proof {
        let filling = filled(lanes(before)[channel as int], start as int, end as int, value);
        assert(lanes(channels@) =~= lanes(before).update(channel as int, filling));
        assert forall|c: int| 0 <= c < CHANNEL_COUNT implies (#[trigger] lanes(
            channels@,
        )[c]).len() == SAMPLE_COUNT by {
            assert(lanes(before)[c].len() == SAMPLE_COUNT);
        }
    }
}

fn bit_set(word: u8, bit: u8) -> (result: bool)
    requires
        bit < 8,
    ensures
        result == byte_bit(word, bit as int),
{
    let value: u8 = (word >> bit) & 1;
    assert((word >> bit) & 1 == 0u8 || (word >> bit) & 1 == 1u8) by (bit_vector);
    value == 1
}

fn add_word(channels: &mut Vec<Vec<bool>>, start: usize, word: u8)
    requires
        full(lanes(old(channels)@)),
        start + WORD_SAMPLES <= SAMPLE_COUNT,
    ensures
        full(lanes(final(channels)@)),
        lanes(final(channels)@) == with_word(lanes(old(channels)@), start as int, word),
{
    let ghost before = lanes(channels@);
    let mut bit: u8 = 0;
    while bit < 8
        invariant
            bit <= 8,
            start + WORD_SAMPLES <= SAMPLE_COUNT,
            full(before),
            full(lanes(channels@)),
            forall|c: int|
                0 <= c < CHANNEL_COUNT ==> #[trigger] lanes(channels@)[c] == if c < bit {
                    filled(before[c], start as int, start + WORD_SAMPLES, byte_bit(word, c))
                } else {
                    before[c]
                },
        decreases 8 - bit,
    {
        let ghost now = lanes(channels@);
        fill(channels, bit as usize, start, start + WORD_SAMPLES, bit_set(word, bit));
        assert(now[bit as int] == before[bit as int]);
        bit += 1;
    }
    let ghost now = lanes(channels@);
    fill(channels, 10, start + 8, start + 14, true);
    proof {
        assert(now[10] == before[10]);
        assert forall|c: int| 0 <= c < CHANNEL_COUNT implies #[trigger] lanes(channels@)[c]
            == with_word(before, start as int, word)[c] by {
            assert(c != 10 ==> lanes(channels@)[c] == now[c]);
        }
        assert(lanes(channels@) =~= with_word(before, start as int, word));
    }
}

/// Draws a burst of words on the parallel bus.
pub fn add_parallel_burst(channels: &mut Vec<Vec<bool>>, start: usize, words: &[u8])
    requires
        full(lanes(old(channels)@)),
        start + words@.len() * WORD_SAMPLES <= SAMPLE_COUNT,
    ensures
        full(lanes(final(channels)@)),
        lanes(final(channels)@) == with_burst(
            lanes(old(channels)@),
            start as int,
            words@,
            words@.len(),
        ),
{
    let ghost before = lanes(channels@);
    let mut index: usize = 0;
    let mut at: usize = start;
    while index < words.len()
        invariant
            index <= words@.len(),
            at == start + index * WORD_SAMPLES,
            start + words@.len() * WORD_SAMPLES <= SAMPLE_COUNT,
            full(lanes(channels@)),
            lanes(channels@) == with_burst(before, start as int, words@, index as nat),
        decreases words@.len() - index,
    {
        add_word(channels, at, words[index]);
        at += WORD_SAMPLES;
        index += 1;
    }
}

fn add_bit(channels: &mut Vec<Vec<bool>>, start: usize, mosi: bool, miso: bool)
    requires
        full(lanes(old(channels)@)),
        start + BIT_SAMPLES <= SAMPLE_COUNT,
    ensures
        full(lanes(final(channels)@)),
        lanes(final(channels)@) == with_bit(lanes(old(channels)@), start as int, mosi, miso),
{
    let ghost before = lanes(channels@);
    fill(channels, 6, start, start + BIT_SAMPLES, mosi);
    fill(channels, 5, start, start + BIT_SAMPLES, miso);
    fill(channels, 7, start + 3, start + 7, true);
    assert(lanes(channels@) =~= with_bit(before, start as int, mosi, miso));
}

/// Draws a serial transaction.
pub fn add_spi_transaction(channels: &mut Vec<Vec<bool>>, start: usize, mosi: &[u8], miso: &[u8])
    requires
        full(lanes(old(channels)@)),
        mosi@.len() == miso@.len(),
        start + mosi@.len() * 8 * BIT_SAMPLES + 16 <= SAMPLE_COUNT,
    ensures
        full(lanes(final(channels)@)),
        lanes(final(channels)@) == with_transaction(
            lanes(old(channels)@),
            start as int,
            mosi@,
            miso@,
        ),
{
    let end: usize = start + mosi.len() * 8 * BIT_SAMPLES + 16;
    fill(channels, 8, start, end, false);
    let ghost before = lanes(channels@);
    let total: usize = mosi.len() * 8;
    let mut index: usize = 0;
    let mut at: usize = start + 8;
    while index < total
        invariant
            total == 8 * mosi@.len(),
            mosi@.len() == miso@.len(),
            index <= total,
            at == start + 8 + index * BIT_SAMPLES,
            start + total * BIT_SAMPLES + 16 <= SAMPLE_COUNT,
            full(lanes(channels@)),
            lanes(channels@) == with_bits(before, start as int, mosi@, miso@, index as nat),
        decreases total - index,
    {
        let bit: u8 = 7 - (index % 8) as u8;
        add_bit(channels, at, bit_set(mosi[index / 8], bit), bit_set(miso[index / 8], bit));
        at += BIT_SAMPLES;
        index += 1;
    }
}

fn add_group(channels: &mut Vec<Vec<bool>>, base: usize)
    requires
        full(lanes(old(channels)@)),
        base + CYCLE_SAMPLES <= SAMPLE_COUNT,
    ensures
        full(lanes(final(channels)@)),
        lanes(final(channels)@) == with_group(lanes(old(channels)@), base as int),
{
    let first: [u8; 8] = [0x10, 0x23, 0x45, 0x67, 0x89, 0xab, 0xcd, 0xef];
    assert(first@ =~= first_words());
    add_parallel_burst(channels, base + 80, first.as_slice());
    let mosi: [u8; 3] = [0x9a, 0xbc, 0x42];
    let miso: [u8; 3] = [0x11, 0x22, 0x33];
    assert(mosi@ =~= seq![0x9au8, 0xbc, 0x42]);
    assert(miso@ =~= seq![0x11u8, 0x22, 0x33]);
    add_spi_transaction(channels, base + 440, mosi.as_slice(), miso.as_slice());
    let second: [u8; 8] = [0x55, 0xaa, 0x0f, 0xf0, 0x3c, 0xc3, 0x5a, 0xa5];
    assert(second@ =~= second_words());
    add_parallel_burst(channels, base + 760, second.as_slice());
    let mosi: [u8; 2] = [0xde, 0xad];
    let miso: [u8; 2] = [0xbe, 0xef];
    assert(mosi@ =~= seq![0xdeu8, 0xad]);
    assert(miso@ =~= seq![0xbeu8, 0xef]);
    add_spi_transaction(channels, base + 1_160, mosi.as_slice(), miso.as_slice());
    let third: [u8; 8] = [0x01, 0x02, 0x04, 0x08, 0x10, 0x20, 0x40, 0x80];
    assert(third@ =~= third_words());
    add_parallel_burst(channels, base + 1_440, third.as_slice());
}

/// Draws the authored waveform.
pub fn demo_channels() -> (result: Vec<Vec<bool>>)
    ensures
        lanes(result@) == demo(),
        full(lanes(result@)),
{
    let mut channels: Vec<Vec<bool>> = Vec::new();
    let mut channel: usize = 0;
    while channel < CHANNEL_COUNT
        invariant
            channel <= CHANNEL_COUNT,
            channels@.len() == channel,
            forall|c: int|
                0 <= c < channel ==> (#[trigger] channels@[c])@ == Seq::new(
                    SAMPLE_COUNT as nat,
                    |i: int| c == 8,
                ),
        decreases CHANNEL_COUNT - channel,
    {
        let lane: Vec<bool> = vec![channel == 8; SAMPLE_COUNT];
        assert(lane@ =~= Seq::new(SAMPLE_COUNT as nat, |i: int| channel == 8));
        channels.push(lane);
        channel += 1;
    }
    assert(lanes(channels@) =~= with_groups(0));
    let mut cycle: usize = 0;
    while cycle < CYCLE_COUNT
        invariant
            cycle <= CYCLE_COUNT,
            full(lanes(channels@)),
            lanes(channels@) == with_groups(cycle as nat),
        decreases CYCLE_COUNT - cycle,
    {
        add_group(&mut channels, cycle * CYCLE_SAMPLES);
        cycle += 1;
    }
    // Gives raw viewers an explicit endpoint at almost exactly one minute.
    fill(&mut channels, 10, SAMPLE_COUNT - 2, SAMPLE_COUNT - 1, true);
    channels
}

/// The changes of a channel: its first level, then each later change.
pub open spec fn edge_list(values: Seq<bool>) -> Seq<Sample> {
    changes_of(values, TIMESTAMP_STEP_NS as int)
}

/// Lists the changes of a channel.
pub fn edges(values: &Vec<bool>) -> (result: Vec<Sample>)
    requires
        0 < values@.len(),
        times_fit(values@, TIMESTAMP_STEP_NS as int),
    ensures
        result@ == edge_list(values@),
{
    list_changes(values, TIMESTAMP_STEP_NS)
}

/// The changes of a channel and its packed samples tell the same: at every sample the list of
/// changes gives the level of that sample.
pub proof fn law_edges_give_every_sample(values: Seq<bool>, position: int)
    requires
        0 <= position < values.len(),
        times_fit(values, TIMESTAMP_STEP_NS as int),
    ensures
        level_from(edge_list(values), position * TIMESTAMP_STEP_NS) == values[position],
{
    law_changes_give_every_level(values, TIMESTAMP_STEP_NS as int, position);
}

/// In-memory capture containing an eight-bit parallel bus and repeated serial transactions. Bus
/// lines are channels zero to seven; select, clock, output and input of the serial line are
/// channels eight, seven, six and five; the bus strobe is channel ten. Twelve activity groups span
/// one minute.
#[derive(Debug)]
pub struct SyntheticCaptureSource {
    pub name: String,
    pub channel_count: usize,
    pub emitted: bool,
}

/// What the source emits.
#[derive(Debug)]
pub struct SyntheticOutput {
    pub edges: Vec<Vec<Sample>>,
    pub blocks: Vec<SampleBlock>,
}

/// A capture width between one and 32 channels.
pub open spec fn width_of(channels: int) -> int {
    if channels < 1 {
        1
    } else if channels > 32 {
        32
    } else {
        channels
    }
}

/// A block with all samples of one channel.
pub open spec fn holds_channel(block: SampleBlock, values: Seq<bool>) -> bool {
    &&& block.start_position == 0
    &&& block.num_samples == SAMPLE_COUNT
    &&& block.timestamp_step == TIMESTAMP_STEP_NS
    &&& block.data@.len() == bytes_for(values.len() as int)
    &&& forall|i: int| 0 <= i < values.len() ==> #[trigger] bit_of(block.data@, i) == values[i]
}

impl Default for SyntheticCaptureSource {
    fn default() -> (result: Self)
        ensures
            result.name@ == "synthetic_capture_source"@,
            result.channel_count == CHANNEL_COUNT,
            !result.emitted,
    {
        SyntheticCaptureSource::new()
    }
}

/// The outputs of a source of some channels.
pub open spec fn synthetic_ports(channels: int) -> Seq<(Seq<char>, PortKind)> {
    Seq::new(
        (2 * channels) as nat,
        |i: int|
            if i < channels {
                ("ch"@ + decimal(i as nat), PortKind::Sample)
            } else {
                ("block"@ + decimal((i - channels) as nat), PortKind::SampleBlock)
            },
    )
}

impl SyntheticCaptureSource {
    pub fn new() -> (result: Self)
        ensures
            result.name@ == "synthetic_capture_source"@,
            result.channel_count == CHANNEL_COUNT,
            !result.emitted,
    {
        SyntheticCaptureSource {
            name: owned("synthetic_capture_source"),
            channel_count: CHANNEL_COUNT,
            emitted: false,
        }
    }

    /// Uses the authored waveform for another capture width. Channels past the authored ones
    /// repeat them.
    pub fn with_channel_count(self, channel_count: usize) -> (result: Self)
        ensures
            result == (SyntheticCaptureSource {
                channel_count: width_of(channel_count as int) as usize,
                ..self
            }),
    {
        let width: usize = clamp_width(channel_count);
        SyntheticCaptureSource { channel_count: width, ..self }
    }

    pub fn with_name(self, name: String) -> (result: Self)
        ensures
            result == (SyntheticCaptureSource { name, ..self }),
    {
        SyntheticCaptureSource { name, ..self }
    }

    /// The changes of each authored channel, for display before anything runs.
    pub fn preview_channels() -> (result: Vec<Vec<Sample>>)
        ensures
            result@.len() == CHANNEL_COUNT,
            forall|c: int|
                0 <= c < CHANNEL_COUNT ==> (#[trigger] result@[c])@ == edge_list(demo()[c]),
    {
        let result: Vec<Vec<Sample>> = Self::preview_channels_with_count(CHANNEL_COUNT);
        assert forall|c: int| 0 <= c < CHANNEL_COUNT implies (#[trigger] result@[c])@ == edge_list(
            demo()[c],
        ) by {
            assert(c % CHANNEL_COUNT as int == c);
        }
        result
    }

    /// The changes of each channel of a capture of another width.
    pub fn preview_channels_with_count(channel_count: usize) -> (result: Vec<Vec<Sample>>)
        ensures
            result@.len() == width_of(channel_count as int),
            forall|c: int|
                0 <= c < result@.len() ==> (#[trigger] result@[c])@ == edge_list(
                    demo()[c % CHANNEL_COUNT as int],
                ),
    {
        let channels: Vec<Vec<bool>> = demo_channels();
        let width: usize = clamp_width(channel_count);
        let mut result: Vec<Vec<Sample>> = Vec::new();
        let mut channel: usize = 0;
        while channel < width
            invariant
                channel <= width,
                width <= 32,
                full(lanes(channels@)),
                lanes(channels@) == demo(),
                result@.len() == channel,
                forall|c: int|
                    0 <= c < channel ==> (#[trigger] result@[c])@ == edge_list(
                        demo()[c % CHANNEL_COUNT as int],
                    ),
            decreases width - channel,
        {
            let lane: usize = channel % CHANNEL_COUNT;
            assert(lanes(channels@)[lane as int] == channels@[lane as int]@);
            assert(lanes(channels@)[lane as int].len() == SAMPLE_COUNT);
            result.push(edges(&channels[lane]));
            channel += 1;
        }
        result
    }

    pub fn num_inputs(&self) -> (result: usize)
        ensures
            result == 0,
    {
        0
    }

    pub fn num_outputs(&self) -> (result: usize)
        requires
            self.channel_count * 2 <= usize::MAX,
        ensures
            result == self.channel_count * 2,
    {
        self.channel_count * 2
    }

    /// The outputs in order: the changes of each channel, then the block of each channel.
    pub fn output_schema(&self) -> (result: Vec<PortSchema>)
        requires
            self.channel_count * 2 <= usize::MAX,
        ensures
            port_views(result@) == listed(synthetic_ports(self.channel_count as int)),
    {
        let count: usize = self.channel_count;
        let ghost all = listed(synthetic_ports(count as int));
        let mut result: Vec<PortSchema> = Vec::new();
        assert(port_views(result@) =~= all.take(0));
        while result.len() < 2 * count
            invariant
                2 * count <= usize::MAX,
                all == listed(synthetic_ports(count as int)),
                result@.len() <= 2 * count,
                port_views(result@) == all.take(result@.len() as int),
            decreases 2 * count - result@.len(),
        {
            let index: usize = result.len();
            if index < count {
                add_port(&mut result, numbered("ch", index), PortKind::Sample);
            } else {
                add_port(&mut result, numbered("block", index - count), PortKind::SampleBlock);
            }
            assert(all.take(index as int).push(all[index as int]) =~= all.take(index + 1));
        }
        assert(all.take(2 * count as int) =~= all);
        result
    }

    /// Emits the whole capture, once: for each channel its changes and one block.
    pub fn work(&mut self) -> (result: Option<SyntheticOutput>)
        ensures
            *final(self) == (SyntheticCaptureSource {
                name: old(self).name,
                channel_count: old(self).channel_count,
                emitted: true,
            }),
            result is Some <==> !old(self).emitted,
            result matches Some(output) ==> {
                &&& output.edges@.len() == old(self).channel_count
                &&& output.blocks@.len() == old(self).channel_count
                &&& forall|c: int|
                    0 <= c < old(self).channel_count ==> (#[trigger] output.edges@[c])@
                        == edge_list(demo()[c % CHANNEL_COUNT as int])
                &&& forall|c: int|
                    0 <= c < old(self).channel_count ==> holds_channel(
                        #[trigger] output.blocks@[c],
                        demo()[c % CHANNEL_COUNT as int],
                    )
            },
    {
        if self.emitted {
            return None;
        }
        let count: usize = self.channel_count;
        let channels: Vec<Vec<bool>> = demo_channels();
        let mut lists: Vec<Vec<Sample>> = Vec::new();
        let mut blocks: Vec<SampleBlock> = Vec::new();
        let mut channel: usize = 0;
        while channel < count
            invariant
                channel <= count,
                full(lanes(channels@)),
                lanes(channels@) == demo(),
                lists@.len() == channel,
                blocks@.len() == channel,
                forall|c: int|
                    0 <= c < channel ==> (#[trigger] lists@[c])@ == edge_list(
                        demo()[c % CHANNEL_COUNT as int],
                    ),
                forall|c: int|
                    0 <= c < channel ==> holds_channel(
                        #[trigger] blocks@[c],
                        demo()[c % CHANNEL_COUNT as int],
                    ),
            decreases count - channel,
        {
            let lane: usize = channel % CHANNEL_COUNT;
            assert(lanes(channels@)[lane as int] == channels@[lane as int]@);
            assert(lanes(channels@)[lane as int].len() == SAMPLE_COUNT);
            lists.push(edges(&channels[lane]));
            blocks.push(
                SampleBlock::new(
                    pack(channels[lane].as_slice()),
                    0,
                    SAMPLE_COUNT,
                    TIMESTAMP_STEP_NS,
                ),
            );
            channel += 1;
        }
        self.emitted = true;
        Some(SyntheticOutput { edges: lists, blocks })
    }
}

fn clamp_width(channels: usize) -> (result: usize)
    ensures
        result == width_of(channels as int),
{
    if channels < 1 {
        1
    } else if channels > 32 {
        32
    } else {
        channels
    }
}

} // verus!
