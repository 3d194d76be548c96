//! Settings and inputs of a script decoder node.

use vstd::prelude::*;

use crate::bits::{bytes_for, packed_len};
use crate::sigrokdecode::scheduler::{InitialPin, LogicChunk};
use crate::streams::SampleBlock;
use crate::text::{append_chars, from_chars, owned, same_text, to_chars};

verus! {

/// Level of a pin before the first sample.
#[derive(Debug, Clone, Copy, PartialEq, Eq, Structural)]
pub enum SigrokInitialPin {
    Low,
    High,
    SameAsFirstSample,
}

/// A channel of a script decoder.
#[derive(Debug, Clone, PartialEq, Eq)]
pub struct SigrokChannel {
    pub name: String,
    pub connected: bool,
    pub initial_pin: SigrokInitialPin,
}

/// Number of connected channels among the first `count`.
pub open spec fn connected_among(channels: Seq<SigrokChannel>, count: nat) -> nat
    decreases count,
{
    if count == 0 {
        0
    } else {
        connected_among(channels, (count - 1) as nat) + (if channels[count - 1].connected {
            1nat
        } else {
            0nat
        })
    }
}

/// Number of connected channels.
pub fn connected_count(channels: &[SigrokChannel]) -> (result: usize)
    ensures
        result == connected_among(channels@, channels@.len()),
        result <= channels@.len(),
{
    let mut count: usize = 0;
    let mut index: usize = 0;
    while index < channels.len()
        invariant
            index <= channels@.len(),
            count <= index,
            count == connected_among(channels@, index as nat),
        decreases channels@.len() - index,
    {
        if channels[index].connected {
            count += 1;
        }
        index += 1;
    }
    count
}

/// Why settings are refused.
#[derive(Debug, Clone, Copy, PartialEq, Eq, Structural)]
pub enum ConfigError {
    /// The sample rate is not positive.
    SampleRate,
    /// Neither a channel nor a protocol input is connected.
    NoInput,
    /// Channels and protocol inputs do not mix.
    MixedInputs,
}

/// What feeds a script decoder.
#[derive(Debug, Clone, Copy, PartialEq, Eq, Structural)]
pub enum InputSource {
    Logic,
    Protocol,
}

/// Checks the settings of a script decoder and tells what feeds it.
pub fn check_config(sample_rate: u64, channels: &[SigrokChannel], protocol_inputs: usize) -> (result: Result<
    InputSource,
    ConfigError,
>)
    ensures
        ({
            let connected = connected_among(channels@, channels@.len());
            result == if sample_rate == 0 {
                Err::<InputSource, ConfigError>(ConfigError::SampleRate)
            } else if connected == 0 && protocol_inputs == 0 {
                Err(ConfigError::NoInput)
            } else if connected > 0 && protocol_inputs > 0 {
                Err(ConfigError::MixedInputs)
            } else if protocol_inputs == 0 {
                Ok(InputSource::Logic)
            } else {
                Ok(InputSource::Protocol)
            }
        }),
{
    if sample_rate == 0 {
        return Err(ConfigError::SampleRate);
    }
    let connected: bool = connected_count(channels) > 0;
    if !connected && protocol_inputs == 0 {
        Err(ConfigError::NoInput)
    } else if connected && protocol_inputs > 0 {
        Err(ConfigError::MixedInputs)
    } else if protocol_inputs == 0 {
        Ok(InputSource::Logic)
    } else {
        Ok(InputSource::Protocol)
    }
}

/// The scheduler's setting for a channel.
pub open spec fn scheduler_pin(channel: SigrokChannel) -> Option<InitialPin> {
    if channel.connected {
        Some(
            match channel.initial_pin {
                SigrokInitialPin::Low => InitialPin::Low,
                SigrokInitialPin::High => InitialPin::High,
                SigrokInitialPin::SameAsFirstSample => InitialPin::SameAsFirstSample,
            },
        )
    } else {
        None
    }
}

/// The scheduler's settings for all channels.
pub fn channel_initial(channels: &[SigrokChannel]) -> (result: Vec<Option<InitialPin>>)
    ensures
        result@.len() == channels@.len(),
        forall|i: int|
            0 <= i < channels@.len() ==> #[trigger] result@[i] == scheduler_pin(channels@[i]),
{
    let mut result: Vec<Option<InitialPin>> = Vec::new();
    let mut index: usize = 0;
    while index < channels.len()
        invariant
            index <= channels@.len(),
            result@.len() == index,
            forall|i: int|
                0 <= i < index ==> #[trigger] result@[i] == scheduler_pin(channels@[i]),
        decreases channels@.len() - index,
    {
        result.push(
            if channels[index].connected {
                Some(
                    match channels[index].initial_pin {
                        SigrokInitialPin::Low => InitialPin::Low,
                        SigrokInitialPin::High => InitialPin::High,
                        SigrokInitialPin::SameAsFirstSample => InitialPin::SameAsFirstSample,
                    },
                )
            } else {
                None
            },
        );
        index += 1;
    }
    result
}

/// Default name of the node that runs a decoder.
pub fn default_name(decoder_id: &str) -> (result: String)
    ensures
        result@ == "sigrok_"@ + decoder_id@,
{
    let mut name: Vec<char> = to_chars("sigrok_");
    let id: Vec<char> = to_chars(decoder_id);
    append_chars(&mut name, id.as_slice());
    from_chars(name.as_slice())
}

/// Names of the connected channels among the first `count`.
pub open spec fn connected_names(channels: Seq<SigrokChannel>, count: nat) -> Seq<Seq<char>>
    decreases count,
{
    if count == 0 {
        Seq::empty()
    } else {
        let before = connected_names(channels, (count - 1) as nat);
        if channels[count - 1].connected {
            before.push(channels[count - 1].name@)
        } else {
            before
        }
    }
}

/// Names of the node's inputs: the connected channels, or one input for packets.
pub fn input_names(channels: &[SigrokChannel], source: InputSource) -> (result: Vec<String>)
    ensures
        match source {
            InputSource::Protocol => result@.len() == 1 && result@[0]@ == "packets"@,
            InputSource::Logic => {
                let names = connected_names(channels@, channels@.len());
                result@.len() == names.len() && forall|i: int|
                    0 <= i < names.len() ==> (#[trigger] result@[i])@ == names[i]
            },
        },
{
    let mut result: Vec<String> = Vec::new();
    match source {
        InputSource::Protocol => {
            result.push(owned("packets"));
        },
        InputSource::Logic => {
            let mut index: usize = 0;
            while index < channels.len()
                invariant
                    index <= channels@.len(),
                    result@.len() == connected_names(channels@, index as nat).len(),
                    forall|i: int|
                        0 <= i < result@.len() ==> (#[trigger] result@[i])@ == connected_names(
                            channels@,
                            index as nat,
                        )[i],
                decreases channels@.len() - index,
            {
                if channels[index].connected {
                    result.push(channels[index].name.clone());
                }
                index += 1;
            }
        },
    }
    result
}

/// Why the blocks of the inputs do not form a chunk.
#[derive(Debug, Clone, Copy, PartialEq, Eq, Structural)]
pub enum ChunkError {
    /// The first block holds no sample.
    EmptyBlock,
    /// An input's block does not line up with that of the first input.
    Misaligned { input: usize },
    /// A channel's block has too few bytes for its samples.
    ShortBlock { channel: usize, bytes: usize, samples: usize },
}

/// Whether the block of an input does not line up with that of the first input.
pub open spec fn input_misaligned(blocks: Seq<SampleBlock>, input: int) -> bool {
    ||| blocks[input].start_position != blocks[0].start_position
    ||| blocks[input].num_samples != blocks[0].num_samples
    ||| blocks[input].timestamp_step != blocks[0].timestamp_step
}

/// The first input at or after `from` that does not line up with the first input.
pub open spec fn first_misaligned_input(blocks: Seq<SampleBlock>, from: int) -> Option<int>
    decreases blocks.len() - from,
{
    if from < 0 || from >= blocks.len() {
        None
    } else if input_misaligned(blocks, from) {
        Some(from)
    } else {
        first_misaligned_input(blocks, from + 1)
    }
}

/// The first connected channel at or after `from` whose block has too few bytes.
pub open spec fn first_short_channel(channels: Seq<SigrokChannel>, blocks: Seq<SampleBlock>, from: int) -> Option<
    int,
>
    decreases channels.len() - from,
{
    if from < 0 || from >= channels.len() {
        None
    } else if channels[from].connected && blocks[connected_among(
        channels,
        from as nat,
    ) as int].data@.len() < bytes_for(blocks[0].num_samples as int) {
        Some(from)
    } else {
        first_short_channel(channels, blocks, from + 1)
    }
}

/// The error of a set of blocks, one per connected channel.
pub open spec fn chunk_error(channels: Seq<SigrokChannel>, blocks: Seq<SampleBlock>) -> Option<
    ChunkError,
> {
    if blocks[0].num_samples == 0 {
        Some(ChunkError::EmptyBlock)
    } else if first_misaligned_input(blocks, 1) is Some {
        Some(ChunkError::Misaligned { input: first_misaligned_input(blocks, 1)->0 as usize })
    } else if first_short_channel(channels, blocks, 0) is Some {
        let channel = first_short_channel(channels, blocks, 0)->0;
        let block = blocks[connected_among(channels, channel as nat) as int];
        Some(
            ChunkError::ShortBlock {
                channel: channel as usize,
                bytes: block.data@.len() as usize,
                samples: block.num_samples,
            },
        )
    } else {
        None
    }
}

/// Whether a chunk's channel holds the bytes that its block holds for the samples.
pub open spec fn channel_filled(
    channels: Seq<SigrokChannel>,
    blocks: Seq<SampleBlock>,
    chunk_channels: Seq<Option<Vec<u8>>>,
    channel: int,
) -> bool {
    if channels[channel].connected {
        &&& chunk_channels[channel] is Some
        &&& chunk_channels[channel]->0@ == blocks[connected_among(
            channels,
            channel as nat,
        ) as int].data@.take(bytes_for(blocks[0].num_samples as int))
    } else {
        chunk_channels[channel] is None
    }
}

proof fn lemma_connected_bound(channels: Seq<SigrokChannel>, index: nat, count: nat)
    requires
        index < count <= channels.len(),
        channels[index as int].connected,
    ensures
        connected_among(channels, index) < connected_among(channels, count),
    decreases count,
{
    if index + 1 < count {
        lemma_connected_bound(channels, index, (count - 1) as nat);
    }
}

fn take_bytes(data: &Vec<u8>, count: usize) -> (result: Vec<u8>)
    requires
        count <= data@.len(),
    ensures
        result@ == data@.take(count as int),
{
    let mut result: Vec<u8> = Vec::new();
    let mut index: usize = 0;
    while index < count
        invariant
            index <= count <= data@.len(),
            result@ == data@.take(index as int),
        decreases count - index,
    {
        result.push(data[index]);
        assert(data@.take(index + 1) =~= data@.take(index as int).push(data@[index as int]));
        index += 1;
    }
    result
}

/// Puts the blocks of the connected channels together into one chunk.
pub fn assemble_chunk(channels: &[SigrokChannel], blocks: &[SampleBlock]) -> (result: Result<
    LogicChunk,
    ChunkError,
>)
    requires
        blocks@.len() >= 1,
        blocks@.len() == connected_among(channels@, channels@.len()),
    ensures
        match result {
            Ok(chunk) => {
                &&& chunk_error(channels@, blocks@) is None
                &&& chunk.start_sample == blocks@[0].start_position
                &&& chunk.sample_count == blocks@[0].num_samples
                &&& chunk.channels@.len() == channels@.len()
                &&& forall|c: int|
                    0 <= c < channels@.len() ==> #[trigger] channel_filled(
                        channels@,
                        blocks@,
                        chunk.channels@,
                        c,
                    )
            },
            Err(error) => chunk_error(channels@, blocks@) == Some(error),
        },
{
    if blocks[0].num_samples == 0 {
        return Err(ChunkError::EmptyBlock);
    }
    let mut input: usize = 1;
    while input < blocks.len()
        invariant
            1 <= input <= blocks@.len(),
            blocks@[0].num_samples != 0,
            first_misaligned_input(blocks@, 1) == first_misaligned_input(blocks@, input as int),
        decreases blocks@.len() - input,
    {
        if blocks[input].start_position != blocks[0].start_position || blocks[input].num_samples
            != blocks[0].num_samples || blocks[input].timestamp_step != blocks[0].timestamp_step {
            return Err(ChunkError::Misaligned { input });
        }
        input += 1;
    }
    let required_bytes: usize = packed_len(blocks[0].num_samples);
    let mut filled: Vec<Option<Vec<u8>>> = Vec::new();
    let mut next_block: usize = 0;
    let mut channel: usize = 0;
    while channel < channels.len()
        invariant
            channel <= channels@.len(),
            blocks@.len() >= 1,
            blocks@.len() == connected_among(channels@, channels@.len()),
            blocks@[0].num_samples != 0,
            first_misaligned_input(blocks@, 1) is None,
            required_bytes == bytes_for(blocks@[0].num_samples as int),
            next_block == connected_among(channels@, channel as nat),
            filled@.len() == channel,
            first_short_channel(channels@, blocks@, 0) == first_short_channel(
                channels@,
                blocks@,
                channel as int,
            ),
            forall|c: int|
                0 <= c < channel ==> #[trigger] channel_filled(channels@, blocks@, filled@, c),
        decreases channels@.len() - channel,
    {
        let ghost before = filled@;
        if channels[channel].connected {
            proof {
                lemma_connected_bound(channels@, channel as nat, channels@.len());
            }
            if blocks[next_block].data.len() < required_bytes {
                return Err(
                    ChunkError::ShortBlock {
                        channel,
                        bytes: blocks[next_block].data.len(),
                        samples: blocks[next_block].num_samples,
                    },
                );
            }
            filled.push(Some(take_bytes(&blocks[next_block].data, required_bytes)));
            next_block += 1;
        } else {
            filled.push(None);
        }
        proof {
            assert forall|c: int| 0 <= c < channel + 1 implies #[trigger] channel_filled(
                channels@,
                blocks@,
                filled@,
                c,
            ) by {
                if c < channel {
                    assert(channel_filled(channels@, blocks@, before, c));
                    assert(filled@[c] == before[c]);
                }
            }
        }
        channel += 1;
    }
    Ok(LogicChunk::new(blocks[0].start_position, blocks[0].num_samples, filled))
}

/// What the end of an input means.
#[derive(Debug, Clone, Copy, PartialEq, Eq, Structural)]
pub enum InputEnd {
    /// The stream is over.
    EndOfStream,
    /// The input ended while the first input goes on.
    EndedEarly { input: usize },
}

/// Tells whether a decoder takes the packets of a protocol.
pub fn accepts_protocol(accepted: &[String], protocol_id: &str) -> (result: bool)
    ensures
        result == exists|i: int|
            0 <= i < accepted@.len() && (#[trigger] accepted@[i])@ == protocol_id@,
{
    let mut index: usize = 0;
    while index < accepted.len()
        invariant
            index <= accepted@.len(),
            forall|i: int| 0 <= i < index ==> (#[trigger] accepted@[i])@ != protocol_id@,
        decreases accepted@.len() - index,
    {
        if same_text(accepted[index].as_str(), protocol_id) {
            return true;
        }
        index += 1;
    }
    false
}

/// Tells what the end of an input means: the stream is over when the first input ends.
pub fn ended_input(input: usize) -> (result: InputEnd)
    ensures
        result == if input == 0 {
            InputEnd::EndOfStream
        } else {
            InputEnd::EndedEarly { input }
        },
{
    if input == 0 {
        InputEnd::EndOfStream
    } else {
        InputEnd::EndedEarly { input }
    }
}

/// An assembled chunk passes the scheduler's checks on its channels.
pub proof fn law_assembled_chunk_is_accepted(
    channels: Seq<SigrokChannel>,
    blocks: Seq<SampleBlock>,
    chunk: LogicChunk,
    initial: Seq<Option<InitialPin>>,
    channel: int,
)
    requires
        blocks.len() >= 1,
        blocks.len() == connected_among(channels, channels.len()),
        chunk_error(channels, blocks) is None,
        chunk.sample_count == blocks[0].num_samples,
        chunk.channels@.len() == channels.len(),
        initial.len() == channels.len(),
        0 <= channel < channels.len(),
        initial[channel] == scheduler_pin(channels[channel]),
        channel_filled(channels, blocks, chunk.channels@, channel),
    ensures
        crate::sigrokdecode::scheduler::channel_error(initial[channel], chunk, channel) is None,
{
    if channels[channel].connected {
        lemma_connected_bound(channels, channel as nat, channels.len());
        lemma_no_short_channel(channels, blocks, 0, channel);
    }
}

proof fn lemma_no_short_channel(
    channels: Seq<SigrokChannel>,
    blocks: Seq<SampleBlock>,
    from: int,
    channel: int,
)
    requires
        0 <= from <= channel < channels.len(),
        first_short_channel(channels, blocks, from) is None,
        channels[channel].connected,
    ensures
        blocks[connected_among(channels, channel as nat) as int].data@.len() >= bytes_for(
            blocks[0].num_samples as int,
        ),
    decreases channel - from,
{
    if from < channel {
        lemma_no_short_channel(channels, blocks, from + 1, channel);
    }
}

} // verus!
