//! The parallel bus decoder between two pieces of work.

use vstd::prelude::*;

use crate::digital::{CsPolarity, Endianness};
use crate::parallel_decoder::gate::EnableWindow;
use crate::parallel_decoder::indexed::{
    assemble_triggers, trigger_items, EnableState, GatedTriggers,
};
use crate::parallel_decoder::merge::{merge_stream_fragment, AssemblyState, MergeState, WordFormat};
use crate::parallel_decoder::sample_model::{SampleState, Signals};
use crate::parallel_decoder::scan::{blocks_cover, scan_stream_fragment, scanned_fragment};
use crate::parallel_decoder::select::{
    chosen_protocol, accepted_protocols, input_kind, input_name, input_schema_at, select_protocols,
    InputProtocolCandidate, InputSchema,
};
use crate::parallel_decoder::types::{
    ranges_in_window, DecodeFragment, DecodeFragmentBuffers, EnabledRange, FragmentView,
    ParallelInputStrategy, StreamScanConfig, StrobeMode,
};
use crate::parallel_decoder::worker::{platform_effective_workers, ParallelDecoderMetrics};
use crate::ports::{list_ports, listed, port_views, PortKind, PortSchema};
use crate::streams::{CaptureTransition, ProtocolKind, SampleBlock, Word};
use crate::text::owned;

verus! {

/// Most samples that one call of the streamed path scans.
pub const STREAM_SAMPLES_PER_CALL: usize = 65_536;

/// Parallel bus decoder node (block-based).
///
/// Inputs: the strobe, one line per data bit and chip select, as aligned blocks or behind an
/// index; and an enable level. Output: words.
pub struct ParallelDecoder {
    pub name: String,
    pub num_data_bits: usize,
    pub mode: StrobeMode,
    pub cs_polarity: CsPolarity,
    pub input_strategy: ParallelInputStrategy,
    /// Bus cycles assembled into one output word (1 = one cycle per word).
    pub cycles_per_word: usize,
    /// Cycle order when `cycles_per_word > 1`.
    pub endianness: Endianness,
    /// Enable level, and the time up to which the index-driven path knows it.
    pub enable: EnableState,
    pub last_strobe_value: bool,
    pub total_words_emitted: u64,
    /// Word-assembly state, kept across blocks.
    pub assembly: AssemblyState,
    /// Where the index-driven path goes on searching.
    pub query_strobe_position: u64,
    /// Where the index-driven path goes on looking whether its gates were closed.
    pub query_gate_position: u64,
    /// Next fragment expected by the ordered merge.
    pub next_stream_merge_sequence: u64,
    /// Most packed scans that this decoder may run at once.
    pub parallel_workers: usize,
    pub parallel_metrics: ParallelDecoderMetrics,
}

/// Numbers that aligned blocks share.
#[derive(Debug, Clone, Copy, PartialEq, Eq, Structural)]
pub struct BlockShape {
    pub start_position: u64,
    pub num_samples: usize,
    pub timestamp_step: u64,
}

/// A block input beside the strobe.
#[derive(Debug, Clone, Copy, PartialEq, Eq, Structural)]
pub enum BlockInput {
    Data(usize),
    Cs,
}

/// Why the streamed path cannot go on.
#[derive(Debug, Clone, Copy, PartialEq, Eq, Structural)]
pub enum StreamError {
    /// The strobe block holds no sample.
    EmptyStrobeBlock,
    /// A block does not line up with the strobe block.
    Misaligned { input: BlockInput, block: BlockShape, strobe: BlockShape },
    /// Chip select matters but nothing is connected to it.
    MissingChipSelect,
    /// A fragment came out of turn.
    OutOfOrder { expected: u64, received: u64 },
}

/// The shape of a block.
pub open spec fn shape_of(block: SampleBlock) -> BlockShape {
    BlockShape {
        start_position: block.start_position,
        num_samples: block.num_samples,
        timestamp_step: block.timestamp_step,
    }
}

fn block_shape(block: &SampleBlock) -> (result: BlockShape)
    ensures
        result == shape_of(*block),
{
    BlockShape {
        start_position: block.start_position,
        num_samples: block.num_samples,
        timestamp_step: block.timestamp_step,
    }
}

/// Checks that the strobe block holds a sample.
pub fn check_strobe(strobe: &SampleBlock) -> (result: Result<(), StreamError>)
    ensures
        result == if strobe.num_samples == 0 {
            Err(StreamError::EmptyStrobeBlock)
        } else {
            Ok(())
        },
{
    if strobe.num_samples == 0 {
        Err(StreamError::EmptyStrobeBlock)
    } else {
        Ok(())
    }
}

/// Checks that a block lines up with the strobe block.
pub fn check_aligned(strobe: &SampleBlock, block: &SampleBlock, input: BlockInput) -> (result: Result<
    (),
    StreamError,
>)
    ensures
        result == if shape_of(*block) == shape_of(*strobe) {
            Ok(())
        } else {
            Err(
                StreamError::Misaligned {
                    input,
                    block: shape_of(*block),
                    strobe: shape_of(*strobe),
                },
            )
        },
{
    if block.start_position != strobe.start_position || block.num_samples != strobe.num_samples
        || block.timestamp_step != strobe.timestamp_step {
        return Err(
            StreamError::Misaligned {
                input,
                block: block_shape(block),
                strobe: block_shape(strobe),
            },
        );
    }
    Ok(())
}

/// The aligned blocks being decoded, and how far decoding has come.
pub struct StreamBlockState {
    pub strobe: Option<SampleBlock>,
    pub data: Vec<SampleBlock>,
    pub cs: Option<SampleBlock>,
    /// First sample not yet decoded.
    pub offset: usize,
    /// Sequence number of the next fragment.
    pub next_sequence: u64,
}

/// The resident blocks as sequences.
#[verifier::ext_equal]
pub struct BlocksView {
    pub strobe: Option<SampleBlock>,
    pub data: Seq<SampleBlock>,
    pub cs: Option<SampleBlock>,
    pub offset: int,
    pub next_sequence: u64,
}

impl View for StreamBlockState {
    type V = BlocksView;

    open spec fn view(&self) -> BlocksView {
        BlocksView {
            strobe: self.strobe,
            data: self.data@,
            cs: self.cs,
            offset: self.offset as int,
            next_sequence: self.next_sequence,
        }
    }
}

impl BlocksView {
    /// End of the next window.
    pub open spec fn window_end(self) -> int {
        if self.offset + STREAM_SAMPLES_PER_CALL < self.strobe->0.num_samples {
            self.offset + STREAM_SAMPLES_PER_CALL
        } else {
            self.strobe->0.num_samples as int
        }
    }

    /// The blocks once their next window was decoded; blocks that are used up are let go.
    pub open spec fn moved_on(self) -> BlocksView {
        let next_sequence = (self.next_sequence + 1) as u64;
        if self.window_end() == self.strobe->0.num_samples {
            BlocksView {
                strobe: None,
                data: Seq::empty(),
                cs: None,
                offset: 0,
                next_sequence,
            }
        } else {
            BlocksView { offset: self.window_end(), next_sequence, ..self }
        }
    }
}

/// The first error of an incoming set of blocks.
pub open spec fn block_set_error(strobe: SampleBlock, data: Seq<SampleBlock>, cs: Option<SampleBlock>) -> Option<
    StreamError,
> {
    if strobe.num_samples == 0 {
        Some(StreamError::EmptyStrobeBlock)
    } else if exists|k: int| misaligned_at(strobe, data, k) {
        let k = first_misaligned(strobe, data, 0);
        Some(
            StreamError::Misaligned {
                input: BlockInput::Data(k as usize),
                block: shape_of(data[k]),
                strobe: shape_of(strobe),
            },
        )
    } else if cs is Some && shape_of(cs->0) != shape_of(strobe) {
        Some(
            StreamError::Misaligned {
                input: BlockInput::Cs,
                block: shape_of(cs->0),
                strobe: shape_of(strobe),
            },
        )
    } else {
        None
    }
}

/// Whether data block `k` does not line up with the strobe block.
pub open spec fn misaligned_at(strobe: SampleBlock, data: Seq<SampleBlock>, k: int) -> bool {
    0 <= k < data.len() && shape_of(data[k]) != shape_of(strobe)
}

/// The first data block at or after `from` that does not line up with the strobe block.
pub open spec fn first_misaligned(strobe: SampleBlock, data: Seq<SampleBlock>, from: int) -> int
    decreases data.len() - from,
{
    if from >= data.len() || misaligned_at(strobe, data, from) {
        from
    } else {
        first_misaligned(strobe, data, from + 1)
    }
}

impl StreamBlockState {
    pub fn new() -> (result: Self)
        ensures
            result.strobe is None,
            result.data@ == Seq::<SampleBlock>::empty(),
            result.cs is None,
            result.offset == 0,
            result.next_sequence == 0,
    {
        StreamBlockState {
            strobe: None,
            data: Vec::new(),
            cs: None,
            offset: 0,
            next_sequence: 0,
        }
    }

    /// A block set is resident, not yet used up, and can be read for `num_data_bits` data lines.
    pub open spec fn resident(self, num_data_bits: int) -> bool {
        &&& self.strobe is Some
        &&& self.offset < self.strobe->0.num_samples
        &&& self.data@.len() == num_data_bits
        &&& blocks_cover(
            self.strobe->0,
            self.data@,
            self.cs,
            self.strobe->0.num_samples as int,
        )
    }

    /// End of the next window.
    pub open spec fn window_end(self) -> int {
        if self.offset + STREAM_SAMPLES_PER_CALL < self.strobe->0.num_samples {
            self.offset + STREAM_SAMPLES_PER_CALL
        } else {
            self.strobe->0.num_samples as int
        }
    }

    /// Takes in the next aligned set of blocks.
    pub fn acquire_stream_block_set(
        &mut self,
        strobe: SampleBlock,
        data: Vec<SampleBlock>,
        cs: Option<SampleBlock>,
    ) -> (result: Result<(), StreamError>)
        ensures
            match result {
                Ok(()) => {
                    &&& block_set_error(strobe, data@, cs) is None
                    &&& *final(self) == (StreamBlockState {
                        strobe: Some(strobe),
                        data,
                        cs,
                        offset: 0,
                        next_sequence: old(self).next_sequence,
                    })
                },
                Err(error) => block_set_error(strobe, data@, cs) == Some(error) && *final(self)
                    == *old(self),
            },
    {
        match check_strobe(&strobe) {
            Ok(()) => {},
            Err(error) => return Err(error),
        }
        let mut index: usize = 0;
        while index < data.len()
            invariant
                index <= data@.len(),
                strobe.num_samples != 0,
                forall|k: int| 0 <= k < index ==> !#[trigger] misaligned_at(strobe, data@, k),
                first_misaligned(strobe, data@, 0) == first_misaligned(
                    strobe,
                    data@,
                    index as int,
                ),
                *self == *old(self),
            decreases data@.len() - index,
        {
            match check_aligned(&strobe, &data[index], BlockInput::Data(index)) {
                Ok(()) => {},
                Err(error) => {
                    assert(misaligned_at(strobe, data@, index as int));
                    return Err(error);
                },
            }
            index += 1;
        }
        assert(forall|k: int| !misaligned_at(strobe, data@, k));
        if let Some(block) = &cs {
            match check_aligned(&strobe, block, BlockInput::Cs) {
                Ok(()) => {},
                Err(error) => return Err(error),
            }
        }
        self.strobe = Some(strobe);
        self.data = data;
        self.cs = cs;
        self.offset = 0;
        Ok(())
    }

    /// First and last-but-one sample of the next window.
    pub fn next_window(&self) -> (result: (usize, usize))
        requires
            self.strobe is Some,
            self.offset < self.strobe->0.num_samples,
        ensures
            result.0 == self.offset,
            result.1 == self.window_end(),
            result.0 < result.1 <= self.strobe->0.num_samples,
    {
        let num_samples: usize = match &self.strobe {
            Some(strobe) => strobe.num_samples,
            None => 0,
        };
        let end: usize = if num_samples - self.offset > STREAM_SAMPLES_PER_CALL {
            self.offset + STREAM_SAMPLES_PER_CALL
        } else {
            num_samples
        };
        (self.offset, end)
    }

    /// Moves on past the next window; blocks that are used up are let go.
    pub fn advance(&mut self)
        requires
            old(self).strobe is Some,
            old(self).offset < old(self).strobe->0.num_samples,
            old(self).next_sequence < u64::MAX,
        ensures
            final(self)@ == old(self)@.moved_on(),
    {
        let (_, window_end) = self.next_window();
        let num_samples: usize = match &self.strobe {
            Some(strobe) => strobe.num_samples,
            None => 0,
        };
        self.next_sequence = self.next_sequence + 1;
        self.offset = window_end;
        if window_end == num_samples {
            self.strobe = None;
            self.data.clear();
            self.cs = None;
            self.offset = 0;
        }
    }
}

impl ParallelDecoder {
    pub const DEFAULT_PARALLEL_WORKERS: usize = 4;

    /// Number of data lines, word layout and partial word are consistent.
    pub open spec fn wf(self) -> bool {
        &&& 1 <= self.num_data_bits <= 64
        &&& self.word_format().wf()
        &&& self.assembly.wf(self.word_format())
    }

    /// How bus values form words.
    pub open spec fn word_format(self) -> WordFormat {
        WordFormat {
            num_data_bits: self.num_data_bits,
            cycles_per_word: self.cycles_per_word,
            endianness: self.endianness,
        }
    }

    /// The settings that a scan needs.
    pub open spec fn scan_config(self) -> StreamScanConfig {
        StreamScanConfig { mode: self.mode, cs_polarity: self.cs_polarity }
    }

    /// Creates a parallel decoder for 1 to 64 data lines.
    pub fn new(num_data_bits: usize, mode: StrobeMode, cs_polarity: CsPolarity) -> (result: Self)
        requires
            1 <= num_data_bits <= 64,
        ensures
            result.wf(),
            result.name@ == "parallel_decoder"@,
            result.num_data_bits == num_data_bits,
            result.mode == mode,
            result.cs_polarity == cs_polarity,
            result.input_strategy == ParallelInputStrategy::Auto,
            result.cycles_per_word == 1,
            result.endianness == Endianness::Little,
            result.enable == (EnableState { current: false, next_change_position: 0 }),
            !result.last_strobe_value,
            result.total_words_emitted == 0,
            result.assembly == (AssemblyState { value: 0, cycles: 0, first_ts: 0 }),
            result.query_strobe_position == 0,
            result.query_gate_position == 0,
            result.next_stream_merge_sequence == 0,
            result.parallel_workers == Self::DEFAULT_PARALLEL_WORKERS,
            result.parallel_metrics == (ParallelDecoderMetrics {
                workers: 1,
                max_outstanding: 0,
                max_reorder: 0,
                max_fragment_bytes: 0,
            }),
    {
        ParallelDecoder {
            name: owned("parallel_decoder"),
            num_data_bits,
            mode,
            cs_polarity,
            input_strategy: ParallelInputStrategy::Auto,
            cycles_per_word: 1,
            endianness: Endianness::Little,
            enable: EnableState { current: false, next_change_position: 0 },
            last_strobe_value: false,
            total_words_emitted: 0,
            assembly: AssemblyState::new(),
            query_strobe_position: 0,
            query_gate_position: 0,
            next_stream_merge_sequence: 0,
            parallel_workers: Self::DEFAULT_PARALLEL_WORKERS,
            parallel_metrics: ParallelDecoderMetrics {
                workers: 1,
                max_outstanding: 0,
                max_reorder: 0,
                max_fragment_bytes: 0,
            },
        }
    }

    /// With custom name.
    pub fn with_name(self, name: String) -> (result: Self)
        ensures
            result == (ParallelDecoder { name, ..self }),
    {
        ParallelDecoder { name, ..self }
    }

    pub fn with_input_strategy(self, strategy: ParallelInputStrategy) -> (result: Self)
        ensures
            result == (ParallelDecoder { input_strategy: strategy, ..self }),
    {
        ParallelDecoder { input_strategy: strategy, ..self }
    }

    /// Runs up to `workers` packed scans at once; at least one and at most eight.
    pub fn with_parallel_workers(self, workers: usize) -> (result: Self)
        ensures
            result == (ParallelDecoder {
                parallel_workers: if workers < 1 {
                    1
                } else if workers > 8 {
                    8
                } else {
                    workers
                },
                ..self
            }),
    {
        let parallel_workers: usize = if workers < 1 {
            1
        } else if workers > 8 {
            8
        } else {
            workers
        };
        ParallelDecoder { parallel_workers, ..self }
    }

    /// Number of workers that the decoder gets of those that the pool has.
    pub fn parallel_workers(&mut self, pool_workers: usize) -> (workers: usize)
        ensures
            workers == if old(self).parallel_workers < pool_workers {
                old(self).parallel_workers
            } else {
                pool_workers
            },
            *final(self) == (ParallelDecoder {
                parallel_metrics: ParallelDecoderMetrics {
                    workers,
                    ..old(self).parallel_metrics
                },
                ..*old(self)
            }),
    {
        platform_effective_workers(self.parallel_workers, pool_workers, &mut self.parallel_metrics)
    }

    pub fn parallel_metrics(&self) -> (result: ParallelDecoderMetrics)
        ensures
            result == self.parallel_metrics,
    {
        self.parallel_metrics
    }

    /// Assembles `cycles` successive bus samples into one output word. `endianness` selects
    /// whether the first cycle is the least (`Little`) or most (`Big`) significant part.
    /// Incomplete words at a CS/enable boundary are dropped.
    pub fn with_word_assembly(self, cycles: usize, endianness: Endianness) -> (result: Self)
        requires
            cycles >= 1,
            cycles * self.num_data_bits <= 64,
        ensures
            result == (ParallelDecoder { cycles_per_word: cycles, endianness, ..self }),
            self.wf() && self.assembly.cycles == 0 ==> result.wf(),
    {
        ParallelDecoder { cycles_per_word: cycles, endianness, ..self }
    }

    /// Strobe, data lines, chip select and enable.
    pub fn num_inputs(&self) -> (result: usize)
        requires
            self.wf(),
        ensures
            result == self.num_data_bits + 3,
    {
        1 + self.num_data_bits + 1 + 1
    }

    pub fn num_outputs(&self) -> (result: usize)
        ensures
            result == 1,
    {
        1
    }

    /// The inputs in order: strobe, data lines, chip select, enable.
    pub fn input_schema(&self) -> (result: Vec<InputSchema>)
        requires
            self.wf(),
        ensures
            result@.len() == self.num_data_bits + 3,
            forall|i: int|
                0 <= i < result@.len() ==> {
                    &&& (#[trigger] result@[i]).index == i
                    &&& result@[i].name@ == input_name(self.num_data_bits as int, i)
                    &&& result@[i].kind == input_kind(self.num_data_bits as int, i)
                    &&& result@[i].protocols@ == accepted_protocols(
                        self.mode,
                        self.input_strategy,
                        self.num_data_bits as int,
                        i,
                    )
                },
    {
        let mut result: Vec<InputSchema> = Vec::new();
        let mut index: usize = 0;
        while index < self.num_data_bits + 3
            invariant
                self.wf(),
                index <= self.num_data_bits + 3,
                result@.len() == index,
                forall|i: int|
                    0 <= i < result@.len() ==> {
                        &&& (#[trigger] result@[i]).index == i
                        &&& result@[i].name@ == input_name(self.num_data_bits as int, i)
                        &&& result@[i].kind == input_kind(self.num_data_bits as int, i)
                        &&& result@[i].protocols@ == accepted_protocols(
                            self.mode,
                            self.input_strategy,
                            self.num_data_bits as int,
                            i,
                        )
                    },
            decreases self.num_data_bits + 3 - index,
        {
            result.push(
                input_schema_at(self.mode, self.input_strategy, self.num_data_bits, index),
            );
            index += 1;
        }
        result
    }

    /// The only output.
    pub fn output_schema(&self) -> (result: Vec<PortSchema>)
        ensures
            port_views(result@) == listed(seq![("words"@, PortKind::Word)]),
    {
        let ports: [(&str, PortKind); 1] = [("words", PortKind::Word)];
        let result: Vec<PortSchema> = list_ports(&ports);
        assert(port_views(result@) =~= listed(seq![("words"@, PortKind::Word)]));
        result
    }

    /// Chooses the transport of every input; `preferred` is the transport that the strobe's
    /// activity asks for, where it is known.
    pub fn select_input_protocols(
        &self,
        candidates: &[Option<InputProtocolCandidate>],
        preferred: Option<ProtocolKind>,
    ) -> (result: Vec<Option<ProtocolKind>>)
        requires
            self.wf(),
            self.input_strategy is Auto && self.mode.on_edges() && preferred is Some
                ==> self.num_data_bits + 2 <= candidates@.len(),
        ensures
            result@.len() == candidates@.len(),
            forall|i: int|
                0 <= i < candidates@.len() ==> #[trigger] result@[i] == chosen_protocol(
                    self.mode,
                    self.input_strategy,
                    self.num_data_bits as int,
                    candidates@,
                    preferred,
                    i,
                ),
    {
        select_protocols(self.mode, self.input_strategy, self.num_data_bits, candidates, preferred)
    }

    /// Tells whether the index-driven path can run: an edge trigger, with an index behind the
    /// strobe, every data line, and chip select where it matters.
    pub fn ready_for_query_mode(&self, strobe_query: bool, data_queries: &[bool], cs_query: bool) -> (result:
        bool)
        ensures
            result == (self.mode.on_edges() && strobe_query && (forall|k: int|
                0 <= k < data_queries@.len() ==> #[trigger] data_queries@[k]) && (
            self.cs_polarity is Disabled || cs_query)),
    {
        let mut all: bool = true;
        let mut index: usize = 0;
        while index < data_queries.len()
            invariant
                index <= data_queries@.len(),
                all == forall|k: int| 0 <= k < index ==> #[trigger] data_queries@[k],
            decreases data_queries@.len() - index,
        {
            all = all && data_queries[index];
            index += 1;
        }
        let cs_ready: bool = match self.cs_polarity {
            CsPolarity::Disabled => true,
            _ => cs_query,
        };
        self.mode.is_edge_triggered() && strobe_query && all && cs_ready
    }

    /// Checks that chip select is connected where it matters.
    pub fn check_chip_select(&self, connected: bool) -> (result: Result<(), StreamError>)
        ensures
            result == if !connected && !(self.cs_polarity is Disabled) {
                Err(StreamError::MissingChipSelect)
            } else {
                Ok(())
            },
    {
        match self.cs_polarity {
            CsPolarity::Disabled => Ok(()),
            _ => if connected {
                Ok(())
            } else {
                Err(StreamError::MissingChipSelect)
            },
        }
    }

    /// How bus values form words.
    pub fn format(&self) -> (result: WordFormat)
        ensures
            result == self.word_format(),
    {
        WordFormat {
            num_data_bits: self.num_data_bits,
            cycles_per_word: self.cycles_per_word,
            endianness: self.endianness,
        }
    }

    /// What merging a fragment yields.
    pub open spec fn merging(self, fragment: FragmentView) -> MergeState {
        MergeState { assembly: self.assembly, words: Seq::empty() }.merged_fragment(
            self.word_format(),
            self.mode,
            self.last_strobe_value,
            fragment,
        )
    }

    /// The decoder once a fragment is merged.
    pub open spec fn after_merge(self, fragment: FragmentView, current_enable_value: bool) -> ParallelDecoder {
        ParallelDecoder {
            assembly: self.merging(fragment).assembly,
            last_strobe_value: fragment.last_strobe_value,
            enable: EnableState { current: current_enable_value, ..self.enable },
            total_words_emitted: (self.total_words_emitted + self.merging(fragment).words.len())
                as u64,
            next_stream_merge_sequence: (self.next_stream_merge_sequence + 1) as u64,
            ..self
        }
    }

    /// Merges the next fragment. Its words go to `word_batch`, where an output is connected.
    /// A fragment out of turn is refused and changes nothing.
    pub fn merge_fragment(
        &mut self,
        fragment: &DecodeFragment,
        current_enable_value: bool,
        word_batch: &mut Option<Vec<Word>>,
    ) -> (result: Result<u64, StreamError>)
        requires
            old(self).wf(),
            fragment.buffers.wf(),
            fragment.boundary is Some ==> old(self).mode.on_edges(),
            old(self).total_words_emitted + fragment.buffers@.len() + 1 <= u64::MAX,
            old(self).next_stream_merge_sequence < u64::MAX,
        ensures
            final(self).wf(),
            final(word_batch).is_some() == old(word_batch).is_some(),
            match result {
                Ok(words_emitted) => {
                    &&& fragment.sequence == old(self).next_stream_merge_sequence
                    &&& words_emitted == old(self).merging(fragment@).words.len()
                    &&& *final(self) == old(self).after_merge(fragment@, current_enable_value)
                    &&& old(word_batch).is_some() ==> final(word_batch).unwrap()@ == old(word_batch).unwrap()@ + old(self).merging(fragment@).words
                },
                Err(error) => {
                    &&& fragment.sequence != old(self).next_stream_merge_sequence
                    &&& error == (StreamError::OutOfOrder {
                        expected: old(self).next_stream_merge_sequence,
                        received: fragment.sequence,
                    })
                    &&& *final(self) == *old(self)
                    &&& *final(word_batch) == *old(word_batch)
                },
            },
    {
        if fragment.sequence != self.next_stream_merge_sequence {
            return Err(
                StreamError::OutOfOrder {
                    expected: self.next_stream_merge_sequence,
                    received: fragment.sequence,
                },
            );
        }
        let format: WordFormat = self.format();
        let mut assembly: AssemblyState = self.assembly;
        let mut last_strobe_value: bool = self.last_strobe_value;
        let words_emitted: u64 = merge_stream_fragment(
            fragment,
            self.mode,
            &mut last_strobe_value,
            format,
            &mut assembly,
            word_batch,
        );
        self.next_stream_merge_sequence = self.next_stream_merge_sequence + 1;
        self.last_strobe_value = last_strobe_value;
        self.enable = EnableState { current: current_enable_value, ..self.enable };
        self.total_words_emitted = self.total_words_emitted + words_emitted;
        self.assembly = assembly;
        Ok(words_emitted)
    }

    /// The fragment of the resident blocks' next window.
    pub open spec fn next_fragment(self, blocks: StreamBlockState, ranges: Seq<EnabledRange>) -> FragmentView {
        scanned_fragment(
            self.scan_config(),
            blocks.next_sequence,
            blocks.strobe->0,
            blocks.data@,
            blocks.cs,
            blocks.offset as int,
            blocks.window_end(),
            ranges,
        )
    }

    /// Decodes the next window of the resident blocks: scans it, merges its fragment, and moves
    /// on. A fragment out of turn is refused and changes nothing.
    pub fn work_streamed_window(
        &mut self,
        blocks: &mut StreamBlockState,
        window: &EnableWindow,
        word_batch: &mut Option<Vec<Word>>,
    ) -> (result: Result<u64, StreamError>)
        requires
            old(self).wf(),
            old(blocks).resident(old(self).num_data_bits as int),
            ranges_in_window(
                window.ranges@,
                old(blocks).offset as int,
                old(blocks).window_end(),
            ),
            old(self).total_words_emitted + STREAM_SAMPLES_PER_CALL + 1 <= u64::MAX,
            old(self).next_stream_merge_sequence < u64::MAX,
            old(blocks).next_sequence < u64::MAX,
        ensures
            final(self).wf(),
            final(word_batch).is_some() == old(word_batch).is_some(),
            ({
                let fragment = old(self).next_fragment(*old(blocks), window.ranges@);
                match result {
                    Ok(words_emitted) => {
                        &&& old(blocks).next_sequence == old(self).next_stream_merge_sequence
                        &&& words_emitted == old(self).merging(fragment).words.len()
                        &&& *final(self) == old(self).after_merge(fragment, window.current)
                        &&& old(word_batch).is_some() ==> final(word_batch).unwrap()@ == old(word_batch).unwrap()@ + old(self).merging(fragment).words
                        &&& final(blocks)@ == old(blocks)@.moved_on()
                    },
                    Err(error) => {
                        &&& old(blocks).next_sequence != old(self).next_stream_merge_sequence
                        &&& error == (StreamError::OutOfOrder {
                            expected: old(self).next_stream_merge_sequence,
                            received: old(blocks).next_sequence,
                        })
                        &&& *final(self) == *old(self)
                        &&& *final(blocks) == *old(blocks)
                        &&& *final(word_batch) == *old(word_batch)
                    },
                }
            }),
    {
        let (window_start, window_end) = blocks.next_window();
        let config = StreamScanConfig { mode: self.mode, cs_polarity: self.cs_polarity };
        let buffers = DecodeFragmentBuffers::new();
        let fragment: DecodeFragment = match &blocks.strobe {
            Some(strobe) => scan_stream_fragment(
                config,
                blocks.next_sequence,
                strobe,
                blocks.data.as_slice(),
                blocks.cs.as_ref(),
                window_start,
                window_end,
                window.ranges.as_slice(),
                buffers,
            ),
            None => {
                return Err(
                    StreamError::OutOfOrder {
                        expected: self.next_stream_merge_sequence,
                        received: blocks.next_sequence,
                    },
                );
            },
        };
        match self.merge_fragment(&fragment, window.current, word_batch) {
            Ok(words_emitted) => {
                blocks.advance();
                Ok(words_emitted)
            },
            Err(error) => Err(error),
        }
    }

    /// What assembling one batch of the index-driven path yields.
    pub open spec fn assembling(
        self,
        gated: GatedTriggers,
        channels: Seq<Vec<bool>>,
        timestamp_step: u64,
    ) -> MergeState {
        let items = trigger_items(gated@.eligible, channels);
        MergeState { assembly: self.assembly, words: Seq::empty() }.merged_items(
            self.word_format(),
            timestamp_step,
            items,
            false,
            items.len(),
        ).dropped_if(gated.reset_after)
    }

    /// Decodes one batch of the index-driven path: assembles the triggers that passed, remembers
    /// the enable level, and goes on searching after the last edge of the batch.
    pub fn work_indexed_batch(
        &mut self,
        gated: &GatedTriggers,
        channels: &[Vec<bool>],
        edges: &[CaptureTransition],
        timestamp_step: u64,
        word_batch: &mut Option<Vec<Word>>,
    ) -> (words_emitted: u64)
        requires
            old(self).wf(),
            gated.wf(),
            channels@.len() == old(self).num_data_bits,
            forall|k: int|
                0 <= k < channels@.len() ==> (#[trigger] channels@[k])@.len()
                    == gated.positions@.len(),
            old(self).total_words_emitted + gated.positions@.len() <= u64::MAX,
        ensures
            final(self).wf(),
            final(word_batch).is_some() == old(word_batch).is_some(),
            ({
                let merged = old(self).assembling(*gated, channels@, timestamp_step);
                &&& words_emitted == merged.words.len()
                &&& old(word_batch).is_some() ==> final(word_batch).unwrap()@ == old(word_batch).unwrap()@ + merged.words
                &&& *final(self) == (ParallelDecoder {
                    assembly: merged.assembly,
                    enable: gated.enable,
                    total_words_emitted: (old(self).total_words_emitted + words_emitted) as u64,
                    query_strobe_position: if edges@.len() > 0 {
                        edges@.last().sample
                    } else {
                        old(self).query_strobe_position
                    },
                    ..*old(self)
                })
            }),
    {
        let format: WordFormat = self.format();
        let mut assembly: AssemblyState = self.assembly;
        let words_emitted: u64 = assemble_triggers(
            gated,
            channels,
            format,
            timestamp_step,
            &mut assembly,
            word_batch,
        );
        if edges.len() > 0 {
            self.query_strobe_position = edges[edges.len() - 1].sample;
        }
        self.enable = gated.enable;
        self.total_words_emitted = self.total_words_emitted + words_emitted;
        self.assembly = assembly;
        words_emitted
    }

    /// The resident blocks as signals.
    pub open spec fn signals(self, blocks: StreamBlockState) -> Signals {
        Signals {
            format: self.word_format(),
            config: self.scan_config(),
            strobe: blocks.strobe->0,
            data: blocks.data@,
            cs: blocks.cs,
        }
    }
}

/// One call of the streamed path decodes exactly the samples of its window, one by one.
pub proof fn law_streamed_call_is_sample_by_sample(
    decoder: ParallelDecoder,
    blocks: StreamBlockState,
    ranges: Seq<EnabledRange>,
)
    requires
        decoder.wf(),
        blocks.resident(decoder.num_data_bits as int),
        ranges_in_window(ranges, blocks.offset as int, blocks.window_end()),
        ranges.len() > 0 && ranges[0].start > blocks.offset ==> ranges[0].reset_before,
    ensures
        ({
            let start = SampleState {
                previous: decoder.last_strobe_value,
                merge: MergeState { assembly: decoder.assembly, words: Seq::empty() },
            };
            let fragment = decoder.next_fragment(blocks, ranges);
            let end = decoder.signals(blocks).samples(
                ranges,
                start,
                blocks.offset as int,
                blocks.window_end(),
            );
            decoder.merging(fragment) == end.merge && fragment.last_strobe_value == end.previous
        }),
{
    crate::parallel_decoder::sample_model::law_window_is_sample_by_sample(
        decoder.signals(blocks),
        blocks.next_sequence,
        blocks.offset as int,
        blocks.window_end(),
        ranges,
        SampleState {
            previous: decoder.last_strobe_value,
            merge: MergeState { assembly: decoder.assembly, words: Seq::empty() },
        },
    );
}

} // verus!
