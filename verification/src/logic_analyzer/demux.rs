//! Separates the channels of an interleaved stream.

use vstd::prelude::*;

use super::chunk::LogicChunk;
use super::error::{protocol, ErrorView, LogicAnalyzerError};
use crate::bits::{bit_of, bytes_for, pack, saturating_mul, spec_saturating_mul};
use crate::streams::{Sample, SampleBlock};
use crate::text::{append_chars, decimal, decimal_chars, from_chars, to_chars};

verus! {

/// Nanoseconds in a second.
pub const NANOSECONDS: u64 = 1_000_000_000;

/// Number of whole samples in a run of interleaved bits.
pub open spec fn whole_samples(bits: nat, channels: nat) -> nat {
    if channels == 0 {
        0
    } else {
        bits / channels
    }
}

/// The levels of one channel in a run of interleaved bits that starts at a sample.
pub open spec fn channel_levels(stream: Seq<bool>, channels: nat, channel: int) -> Seq<bool> {
    Seq::new(whole_samples(stream.len(), channels), |i: int| stream[i * channels + channel])
}

/// The bits behind the last whole sample.
pub open spec fn leftover(stream: Seq<bool>, channels: nat) -> Seq<bool> {
    stream.skip((whole_samples(stream.len(), channels) * channels) as int)
}

/// The time of a sample.
pub open spec fn sample_time(position: int, sample_rate_hz: u64) -> int {
    spec_saturating_mul(position, NANOSECONDS as int) / sample_rate_hz as int
}

/// The changes of a channel whose level was `last` before sample `start`.
pub open spec fn changes(
    levels: Seq<bool>,
    last: Option<bool>,
    start: int,
    sample_rate_hz: u64,
) -> Seq<Sample>
    decreases levels.len(),
{
    if levels.len() == 0 {
        Seq::empty()
    } else {
        let before = changes(levels.drop_last(), last, start, sample_rate_hz);
        if level_after(levels.drop_last(), last) == Some(levels.last()) {
            before
        } else {
            before.push(
                Sample {
                    value: levels.last(),
                    start_time_ns: sample_time(start + levels.len() - 1, sample_rate_hz) as u64,
                },
            )
        }
    }
}

/// The level of a channel behind its samples.
pub open spec fn level_after(levels: Seq<bool>, last: Option<bool>) -> Option<bool> {
    if levels.len() == 0 {
        last
    } else {
        Some(levels.last())
    }
}

/// A block that holds the levels of a channel from sample `start` on.
pub open spec fn block_holds(
    block: SampleBlock,
    levels: Seq<bool>,
    start: int,
    sample_rate_hz: u64,
) -> bool {
    &&& block.start_position == start
    &&& block.num_samples == levels.len()
    &&& block.timestamp_step == NANOSECONDS / sample_rate_hz
    &&& block.data@.len() == bytes_for(levels.len() as int)
    &&& forall|i: int| 0 <= i < levels.len() ==> #[trigger] bit_of(block.data@, i) == levels[i]
    &&& forall|i: int|
        levels.len() <= i < 8 * block.data@.len() ==> !#[trigger] bit_of(block.data@, i)
}

/// What one chunk adds to each channel.
#[derive(Debug)]
pub struct DemuxOutput {
    /// The changes of each channel.
    pub edges: Vec<Vec<Sample>>,
    /// One block for each channel, where the chunk completes a sample.
    pub blocks: Option<Vec<SampleBlock>>,
}

/// Separates the channels of an interleaved stream that arrives in chunks.
#[derive(Debug)]
pub struct Demux {
    pub channels: usize,
    pub sample_rate_hz: u64,
    pub pending: Vec<bool>,
    pub position: u64,
    pub next_bit: Option<u64>,
    pub values: Vec<Option<bool>>,
}

/// Why a chunk is refused.
pub open spec fn chunk_error(demux: Demux, chunk: LogicChunk) -> Option<ErrorView> {
    if !chunk.wf() {
        Some(ErrorView::Protocol("logic chunk bit range is outside its backing data"@))
    } else if chunk.channel_count != demux.channels {
        Some(
            ErrorView::Protocol(
                "chunk has "@ + decimal(chunk.channel_count as nat) + " channels; source expects "@
                    + decimal(demux.channels as nat),
            ),
        )
    } else if demux.next_bit is Some && chunk.start_bit != demux.next_bit->0 {
        Some(
            ErrorView::Protocol(
                "non-contiguous chunk: starts at bit "@ + decimal(chunk.start_bit as nat)
                    + ", expected "@ + decimal(demux.next_bit->0 as nat),
            ),
        )
    } else if chunk.start_bit + chunk.bit_len > u64::MAX {
        Some(ErrorView::Protocol("chunk bit position overflow"@))
    } else {
        None
    }
}

fn two_numbers(first: &str, left: u64, middle: &str, right: u64) -> (result: LogicAnalyzerError)
    ensures
        result@ == ErrorView::Protocol(
            first@ + decimal(left as nat) + middle@ + decimal(right as nat),
        ),
{
    let mut message: Vec<char> = to_chars(first);
    append_chars(&mut message, decimal_chars(left).as_slice());
    append_chars(&mut message, to_chars(middle).as_slice());
    append_chars(&mut message, decimal_chars(right).as_slice());
    LogicAnalyzerError::Protocol(from_chars(message.as_slice()))
}

proof fn lemma_sample_index(bits: nat, channels: nat, i: int, channel: int)
    requires
        0 < channels,
        0 <= i < bits / channels,
        0 <= channel < channels,
    ensures
        0 <= i * channels + channel < bits,
{
    vstd::arithmetic::div_mod::lemma_fundamental_div_mod(bits as int, channels as int);
    assert(0 <= i * channels + channel < bits) by (nonlinear_arith)
        requires
            bits == channels * (bits / channels) + bits % channels,
            0 <= bits % channels,
            0 <= i < bits / channels,
            0 <= channel < channels,
    ;
}

impl Demux {
    /// A whole sample never stays pending, every channel has a level slot, and the samples taken
    /// so far come from bits that have been counted.
    pub open spec fn wf(self) -> bool {
        &&& self.sample_rate_hz > 0
        &&& self.channels > 0 ==> self.pending@.len() < self.channels
        &&& self.values@.len() == self.channels
        &&& match self.next_bit {
            None => self.position == 0 && self.pending@.len() == 0,
            Some(next) => self.position * self.channels + self.pending@.len() <= next,
        }
        &&& self.channels == 0 ==> self.position == 0
    }

    /// A separator that has seen nothing yet.
    pub open spec fn fresh(self, channels: usize, sample_rate_hz: u64) -> bool {
        &&& self.channels == channels
        &&& self.sample_rate_hz == sample_rate_hz
        &&& self.pending@ == Seq::<bool>::empty()
        &&& self.position == 0
        &&& self.next_bit is None
        &&& self.values@ == Seq::new(channels as nat, |i: int| None::<bool>)
    }

    /// Makes a separator that has seen nothing yet.
    pub fn new(channels: usize, sample_rate_hz: u64) -> (result: Result<Self, LogicAnalyzerError>)
        ensures
            match result {
                Ok(demux) => {
                    &&& sample_rate_hz > 0
                    &&& demux.wf()
                    &&& demux.fresh(channels, sample_rate_hz)
                },
                Err(error) => sample_rate_hz == 0 && error@ == ErrorView::Protocol(
                    "driver reported a zero sample rate"@,
                ),
            },
    {
        if sample_rate_hz == 0 {
            return Err(protocol("driver reported a zero sample rate"));
        }
        let values: Vec<Option<bool>> = vec![None; channels];
        assert(values@ =~= Seq::new(channels as nat, |i: int| None::<bool>));
        Ok(
            Demux {
                channels,
                sample_rate_hz,
                pending: Vec::new(),
                position: 0,
                next_bit: None,
                values,
            },
        )
    }

    /// The time of a sample.
    pub fn timestamp(&self, position: u64) -> (result: u64)
        requires
            self.sample_rate_hz > 0,
        ensures
            result == sample_time(position as int, self.sample_rate_hz),
    {
        saturating_mul(position, NANOSECONDS) / self.sample_rate_hz
    }

    /// Checks that a chunk continues the stream.
    fn check(&self, chunk: &LogicChunk) -> (result: Result<u64, LogicAnalyzerError>)
        ensures
            match result {
                Ok(next) => chunk_error(*self, *chunk) is None && next == chunk.start_bit
                    + chunk.bit_len,
                Err(error) => chunk_error(*self, *chunk) == Some(error@),
            },
    {
        let inside: bool = match (chunk.bit_offset as usize).checked_add(chunk.bit_len) {
            Some(end) => {
                let bytes: usize = crate::bits::packed_len(end);
                chunk.bit_offset < 8 && bytes <= chunk.data.len()
            },
            None => false,
        };
        if !inside {
            return Err(protocol("logic chunk bit range is outside its backing data"));
        }
        if chunk.channel_count as usize != self.channels {
            return Err(
                two_numbers(
                    "chunk has ",
                    chunk.channel_count as u64,
                    " channels; source expects ",
                    self.channels as u64,
                ),
            );
        }
        match self.next_bit {
            Some(expected) => if chunk.start_bit != expected {
                return Err(
                    two_numbers(
                        "non-contiguous chunk: starts at bit ",
                        chunk.start_bit,
                        ", expected ",
                        expected,
                    ),
                );
            },
            None => {},
        }
        match chunk.start_bit.checked_add(chunk.bit_len as u64) {
            Some(next) => Ok(next),
            None => Err(protocol("chunk bit position overflow")),
        }
    }

    /// The pending bits followed by those of a chunk.
    pub open spec fn joined(self, chunk: LogicChunk) -> Seq<bool> {
        self.pending@ + chunk.levels()
    }

    /// What a chunk that continues the stream makes of the separator and adds to the channels.
    pub open spec fn advanced(self, chunk: LogicChunk, after: Demux, output: DemuxOutput) -> bool {
        let stream = self.joined(chunk);
        let channels = self.channels as nat;
        let samples = whole_samples(stream.len(), channels);
        &&& after.channels == self.channels
        &&& after.sample_rate_hz == self.sample_rate_hz
        &&& after.next_bit == Some((chunk.start_bit + chunk.bit_len) as u64)
        &&& after.position == self.position + samples
        &&& after.pending@ == leftover(stream, channels)
        &&& after.values@ == Seq::new(
            channels,
            |c: int| level_after(channel_levels(stream, channels, c), self.values@[c]),
        )
        &&& output.edges@.len() == channels
        &&& forall|c: int|
            0 <= c < channels ==> (#[trigger] output.edges@[c])@ == changes(
                channel_levels(stream, channels, c),
                self.values@[c],
                self.position as int,
                self.sample_rate_hz,
            )
        &&& output.blocks is Some <==> samples > 0
        &&& output.blocks matches Some(blocks) ==> blocks@.len() == channels && forall|c: int|
            0 <= c < channels ==> block_holds(
                #[trigger] blocks@[c],
                channel_levels(stream, channels, c),
                self.position as int,
                self.sample_rate_hz,
            )
    }

    /// Takes one chunk of the stream.
    pub fn push(&mut self, chunk: &LogicChunk) -> (result: Result<DemuxOutput, LogicAnalyzerError>)
        requires
            old(self).wf(),
        ensures
            final(self).wf(),
            match result {
                Ok(output) => chunk_error(*old(self), *chunk) is None && old(self).advanced(
                    *chunk,
                    *final(self),
                    output,
                ),
                Err(error) => chunk_error(*old(self), *chunk) == Some(error@) && *final(self)
                    == *old(self),
            },
    {
        let next: u64 = match self.check(chunk) {
            Ok(next) => next,
            Err(error) => return Err(error),
        };
        let ghost before = *self;
        let channels: usize = self.channels;
        let start: u64 = self.position;
        let mut stream: Vec<bool> = Vec::new();
        let mut index: usize = 0;
        while index < self.pending.len()
            invariant
                *self == before,
                index <= self.pending@.len(),
                stream@ == self.pending@.take(index as int),
            decreases self.pending@.len() - index,
        {
            stream.push(self.pending[index]);
            proof {
                assert(self.pending@.take(index as int).push(self.pending@[index as int])
                    =~= self.pending@.take(index + 1));
            }
            index += 1;
        }
        assert(self.pending@.take(index as int) =~= self.pending@);
        let mut bit: usize = 0;
        assert(self.pending@ + chunk.levels().take(0) =~= self.pending@);
        while bit < chunk.bit_len
            invariant
                *self == before,
                chunk.wf(),
                bit <= chunk.bit_len,
                stream@ == self.pending@ + chunk.levels().take(bit as int),
            decreases chunk.bit_len - bit,
        {
            stream.push(chunk.bit(bit));
            proof {
                assert((self.pending@ + chunk.levels().take(bit as int)).push(
                    chunk.levels()[bit as int],
                ) =~= self.pending@ + chunk.levels().take(bit + 1));
            }
            bit += 1;
        }
        assert(chunk.levels().take(bit as int) =~= chunk.levels());
        let ghost joined = before.joined(*chunk);
        assert(stream@ == joined);
        let samples: usize = if channels == 0 {
            0
        } else {
            stream.len() / channels
        };
        assert(samples == whole_samples(joined.len(), channels as nat));
        proof {
            if channels > 0 {
                lemma_position(
                    before.position as int,
                    channels as int,
                    joined.len() as int,
                    before.pending@.len() as int,
                    chunk.bit_len as int,
                    next as int,
                );
            }
        }
        let mut edges: Vec<Vec<Sample>> = Vec::new();
        let mut blocks: Vec<SampleBlock> = Vec::new();
        let mut values: Vec<Option<bool>> = Vec::new();
        let mut channel: usize = 0;
        while channel < channels
            invariant
                *self == before,
                before.wf(),
                channels == before.channels,
                start == before.position,
                channel <= channels,
                stream@ == joined,
                samples == whole_samples(joined.len(), channels as nat),
                start + samples <= u64::MAX,
                edges@.len() == channel,
                blocks@.len() == channel,
                values@.len() == channel,
                forall|c: int|
                    0 <= c < channel ==> (#[trigger] edges@[c])@ == changes(
                        channel_levels(joined, channels as nat, c),
                        before.values@[c],
                        start as int,
                        before.sample_rate_hz,
                    ),
                forall|c: int|
                    0 <= c < channel ==> block_holds(
                        #[trigger] blocks@[c],
                        channel_levels(joined, channels as nat, c),
                        start as int,
                        before.sample_rate_hz,
                    ),
                forall|c: int|
                    0 <= c < channel ==> #[trigger] values@[c] == level_after(
                        channel_levels(joined, channels as nat, c),
                        before.values@[c],
                    ),
            decreases channels - channel,
        {
            let levels: Vec<bool> = take_levels(&stream, channels, channel, samples);
            let last: Option<bool> = self.values[channel];
            edges.push(self.find_changes(levels.as_slice(), last, start));
            blocks.push(
                SampleBlock::new(
                    pack(levels.as_slice()),
                    start,
                    samples,
                    NANOSECONDS / self.sample_rate_hz,
                ),
            );
            values.push(
                if samples == 0 {
                    last
                } else {
                    Some(levels[samples - 1])
                },
            );
            channel += 1;
        }
        let mut pending: Vec<bool> = Vec::new();
        proof {
            if channels > 0 {
                vstd::arithmetic::div_mod::lemma_fundamental_div_mod(
                    joined.len() as int,
                    channels as int,
                );
                assert(samples * channels == channels * samples) by (nonlinear_arith);
            } else {
                assert(samples * channels == 0) by (nonlinear_arith)
                    requires
                        channels == 0,
                ;
            }
        }
        let first: usize = samples * channels;
        let mut rest: usize = first;
        assert(joined.subrange(first as int, first as int) =~= Seq::<bool>::empty());
        while rest < stream.len()
            invariant
                stream@ == joined,
                first <= rest <= joined.len(),
                pending@ == joined.subrange(first as int, rest as int),
            decreases joined.len() - rest,
        {
            pending.push(stream[rest]);
            proof {
                assert(joined.subrange(first as int, rest as int).push(joined[rest as int])
                    =~= joined.subrange(first as int, rest + 1));
            }
            rest += 1;
        }
        self.pending = pending;
        self.position = start + samples as u64;
        self.next_bit = Some(next);
        self.values = values;
        proof {
            assert(joined.subrange(first as int, rest as int) =~= leftover(
                joined,
                channels as nat,
            ));
            assert(self.values@ =~= Seq::new(
                channels as nat,
                |c: int|
                    level_after(channel_levels(joined, channels as nat, c), before.values@[c]),
            ));
        }
        Ok(
            DemuxOutput {
                edges,
                blocks: if samples > 0 {
                    Some(blocks)
                } else {
                    None
                },
            },
        )
    }

    /// The changes of a channel whose level was `last` before sample `start`.
    fn find_changes(&self, levels: &[bool], last: Option<bool>, start: u64) -> (result: Vec<Sample>)
        requires
            self.sample_rate_hz > 0,
            start + levels@.len() <= u64::MAX,
        ensures
            result@ == changes(levels@, last, start as int, self.sample_rate_hz),
    {
        let mut result: Vec<Sample> = Vec::new();
        let mut index: usize = 0;
        assert(levels@.take(0) =~= Seq::<bool>::empty());
        while index < levels.len()
            invariant
                self.sample_rate_hz > 0,
                start + levels@.len() <= u64::MAX,
                index <= levels@.len(),
                result@ == changes(
                    levels@.take(index as int),
                    last,
                    start as int,
                    self.sample_rate_hz,
                ),
            decreases levels@.len() - index,
        {
            let level: bool = levels[index];
            let previous: Option<bool> = if index == 0 {
                last
            } else {
                Some(levels[index - 1])
            };
            let same: bool = match previous {
                Some(value) => value == level,
                None => false,
            };
            proof {
                assert(levels@.take(index + 1).drop_last() =~= levels@.take(index as int));
                assert(levels@.take(index + 1).last() == level);
                assert(level_after(levels@.take(index as int), last) == previous);
            }
            if !same {
                result.push(Sample::new(level, self.timestamp(start + index as u64)));
            }
            index += 1;
        }
        assert(levels@.take(index as int) =~= levels@);
        result
    }

    /// The closing sample of each channel that has a level: its level at the end of the stream.
    pub open spec fn closing(self) -> Seq<Option<Sample>> {
        Seq::new(
            self.channels as nat,
            |c: int|
                match self.values@[c] {
                    Some(value) => Some(
                        Sample {
                            value,
                            start_time_ns: sample_time(self.position as int, self.sample_rate_hz)
                                as u64,
                        },
                    ),
                    None => None,
                },
        )
    }

    /// Lists the closing samples.
    pub fn finish(&self) -> (result: Vec<Option<Sample>>)
        requires
            self.wf(),
        ensures
            result@ == self.closing(),
    {
        let mut result: Vec<Option<Sample>> = Vec::new();
        let mut channel: usize = 0;
        while channel < self.values.len()
            invariant
                self.wf(),
                channel <= self.values@.len(),
                result@ == self.closing().take(channel as int),
            decreases self.values@.len() - channel,
        {
            match self.values[channel] {
                Some(value) => result.push(
                    Some(Sample::new(value, self.timestamp(self.position))),
                ),
                None => result.push(None),
            }
            proof {
                let closing = self.closing();
                assert(closing.take(channel as int).push(closing[channel as int]) =~= closing.take(
                    channel + 1,
                ));
            }
            channel += 1;
        }
        assert(self.closing().take(channel as int) =~= self.closing());
        result
    }
}

fn take_levels(stream: &Vec<bool>, channels: usize, channel: usize, samples: usize) -> (result: Vec<
    bool,
>)
    requires
        channel < channels,
        samples == whole_samples(stream@.len(), channels as nat),
    ensures
        result@ == channel_levels(stream@, channels as nat, channel as int),
{
    let mut result: Vec<bool> = Vec::new();
    let mut sample: usize = 0;
    while sample < samples
        invariant
            channel < channels,
            samples == whole_samples(stream@.len(), channels as nat),
            sample <= samples,
            result@ == channel_levels(stream@, channels as nat, channel as int).take(sample as int),
        decreases samples - sample,
    {
        proof {
            lemma_sample_index(stream@.len(), channels as nat, sample as int, channel as int);
            lemma_sample_index(stream@.len(), channels as nat, sample as int, 0);
        }
        let len: usize = stream.len();
        let level: bool = stream[sample * channels + channel];
        result.push(level);
        proof {
            let levels = channel_levels(stream@, channels as nat, channel as int);
            assert(levels.take(sample as int).push(levels[sample as int]) =~= levels.take(
                sample + 1,
            ));
        }
        sample += 1;
    }
    assert(channel_levels(stream@, channels as nat, channel as int).take(samples as int)
        =~= channel_levels(stream@, channels as nat, channel as int));
    result
}

proof fn lemma_position(
    position: int,
    channels: int,
    joined: int,
    pending: int,
    bits: int,
    next: int,
)
    requires
        channels > 0,
        position >= 0,
        0 <= pending < channels,
        bits >= 0,
        joined == pending + bits,
        position * channels + joined <= next,
    ensures
        position + joined / channels <= next,
        (position + joined / channels) * channels + (joined - (joined / channels) * channels)
            <= next,
        0 <= joined - (joined / channels) * channels < channels,
{
    vstd::arithmetic::div_mod::lemma_fundamental_div_mod(joined, channels);
    let samples = joined / channels;
    assert((position + samples) * channels == position * channels + samples * channels)
        by (nonlinear_arith);
    assert(samples * channels == channels * samples) by (nonlinear_arith);
    vstd::arithmetic::div_mod::lemma_div_pos_is_pos(joined, channels);
    assert(position + samples <= (position + samples) * channels) by (nonlinear_arith)
        requires
            channels >= 1,
            position + samples >= 0,
    ;
}

proof fn lemma_split_samples(first: int, second: int, channels: int)
    requires
        channels > 0,
        first >= 0,
        second >= 0,
    ensures
        ({
            let whole = first / channels;
            let rest = first - whole * channels;
            (first + second) / channels == whole + (rest + second) / channels
        }),
        0 <= first / channels * channels <= first,
{
    let whole = first / channels;
    let rest = first - whole * channels;
    vstd::arithmetic::div_mod::lemma_fundamental_div_mod(first, channels);
    assert(whole * channels == channels * whole) by (nonlinear_arith);
    vstd::arithmetic::div_mod::lemma_hoist_over_denominator(rest + second, whole, channels as nat);
    vstd::arithmetic::div_mod::lemma_div_pos_is_pos(first, channels);
    assert(0 <= whole * channels) by (nonlinear_arith)
        requires
            whole >= 0,
            channels > 0,
    ;
}

proof fn lemma_changes_split(
    first: Seq<bool>,
    second: Seq<bool>,
    last: Option<bool>,
    start: int,
    sample_rate_hz: u64,
)
    ensures
        changes(first + second, last, start, sample_rate_hz) == changes(
            first,
            last,
            start,
            sample_rate_hz,
        ) + changes(second, level_after(first, last), start + first.len(), sample_rate_hz),
        level_after(first + second, last) == level_after(second, level_after(first, last)),
    decreases second.len(),
{
    if second.len() == 0 {
        assert(first + second =~= first);
    } else {
        assert((first + second).drop_last() =~= first + second.drop_last());
        lemma_changes_split(first, second.drop_last(), last, start, sample_rate_hz);
    }
}

/// Where a stream is cut into chunks changes nothing: two runs of bits taken one behind the other
/// give every channel the levels, the changes and the last level that the joined run gives, and
/// leave the same bits pending.
pub proof fn law_chunk_boundaries_do_not_matter(
    pending: Seq<bool>,
    first: Seq<bool>,
    second: Seq<bool>,
    channels: nat,
    channel: int,
    last: Option<bool>,
    start: int,
    sample_rate_hz: u64,
)
    requires
        0 <= channel < channels,
    ensures
        ({
            let one = pending + first;
            let two = leftover(one, channels) + second;
            let all = pending + (first + second);
            let levels = channel_levels(one, channels, channel);
            &&& channel_levels(all, channels, channel) == levels + channel_levels(
                two,
                channels,
                channel,
            )
            &&& leftover(all, channels) == leftover(two, channels)
            &&& changes(channel_levels(all, channels, channel), last, start, sample_rate_hz)
                == changes(levels, last, start, sample_rate_hz) + changes(
                channel_levels(two, channels, channel),
                level_after(levels, last),
                start + levels.len(),
                sample_rate_hz,
            )
        }),
{
    let one = pending + first;
    let two = leftover(one, channels) + second;
    let all = pending + (first + second);
    let whole = whole_samples(one.len(), channels);
    lemma_split_samples(one.len() as int, second.len() as int, channels as int);
    assert(all.len() == one.len() + second.len());
    assert(two.len() == one.len() - whole * channels + second.len());
    assert(all.skip((whole * channels) as int) =~= two);
    let joined = channel_levels(one, channels, channel) + channel_levels(two, channels, channel);
    assert(channel_levels(all, channels, channel).len() == joined.len());
    assert forall|i: int| 0 <= i < joined.len() implies channel_levels(all, channels, channel)[i]
        == joined[i] by {
        if i < whole {
            lemma_sample_index(one.len(), channels, i, channel);
        } else {
            lemma_sample_index(two.len(), channels, i - whole, channel);
            assert(i * channels + channel == whole * channels + ((i - whole) * channels + channel))
                by (nonlinear_arith);
        }
    }
    assert(channel_levels(all, channels, channel) =~= joined);
    let taken = whole_samples(two.len(), channels);
    assert((whole + taken) * channels == whole * channels + taken * channels) by (nonlinear_arith);
    lemma_split_samples(two.len() as int, 0, channels as int);
    lemma_split_samples(all.len() as int, 0, channels as int);
    assert(leftover(all, channels) =~= leftover(two, channels));
    lemma_changes_split(
        channel_levels(one, channels, channel),
        channel_levels(two, channels, channel),
        last,
        start,
        sample_rate_hz,
    );
}

} // verus!
