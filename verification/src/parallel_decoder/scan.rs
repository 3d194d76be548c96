//! Packed trigger scan of one window of a block.

use vstd::prelude::*;

use crate::bits::{
    bit_of, bit_range_mask, lemma_clear_lowest, lemma_nonzero_has_bit, lemma_single_bit,
    lemma_word_ops, packed_bit, packed_word, word_bit,
};
use crate::digital::CsPolarity;
use crate::parallel_decoder::types::{
    ranges_in_window, DecodeFragment, DecodeFragmentBuffers, EnabledRange, FragmentBoundary,
    FragmentView, StreamScanConfig, StrobeMode,
};
use crate::streams::SampleBlock;

verus! {

/// Level of a packed signal just before sample `i` of its block; low before the first sample.
pub open spec fn level_before(data: Seq<u8>, i: int) -> bool {
    i > 0 && bit_of(data, i - 1)
}

/// Bus value at sample `i`: bit `k` is the level of data block `k`, for the first `count` blocks.
pub open spec fn bus_bits(data: Seq<SampleBlock>, count: nat, i: int) -> u64
    decreases count,
{
    if count == 0 {
        0
    } else {
        bus_bits(data, (count - 1) as nat, i) | ((if bit_of(data[count - 1].data@, i) {
            1u64
        } else {
            0u64
        }) << ((count - 1) as u64))
    }
}

/// Bus value at sample `i`.
pub open spec fn bus_value(data: Seq<SampleBlock>, i: int) -> u64 {
    bus_bits(data, data.len(), i)
}

/// Whether chip select lets a trigger through, given the level of the chip-select line.
pub open spec fn cs_passes(polarity: CsPolarity, level: bool) -> bool {
    match polarity {
        CsPolarity::ActiveLow => !level,
        CsPolarity::ActiveHigh => level,
        CsPolarity::Disabled => true,
    }
}

/// Whether chip select lets a trigger at sample `i` through; an absent line always does.
pub open spec fn cs_open(config: StreamScanConfig, cs: Option<SampleBlock>, i: int) -> bool {
    match cs {
        Some(block) => cs_passes(config.cs_polarity, bit_of(block.data@, i)),
        None => true,
    }
}

/// The block behind an optional reference.
pub open spec fn block_at(block: Option<&SampleBlock>) -> Option<SampleBlock> {
    match block {
        Some(block) => Some(*block),
        None => None,
    }
}

/// The aligned signals of one block and the sample whose trigger is left to the merge (a
/// negative number where none is).
pub struct ScanInput {
    pub config: StreamScanConfig,
    pub strobe: SampleBlock,
    pub data: Seq<SampleBlock>,
    pub cs: Option<SampleBlock>,
    pub skip: int,
}

/// Progress of a scan: the triggers found, and whether a partial word is to be dropped before
/// the next one.
#[verifier::ext_equal]
pub struct ScanState {
    pub items: Seq<(u64, u64, bool)>,
    pub pending: bool,
}

impl ScanInput {
    /// Whether a trigger at sample `i` is collected: chip select is open there.
    pub open spec fn fires(self, i: int) -> bool {
        i != self.skip && self.config.mode.triggers(
            level_before(self.strobe.data@, i),
            bit_of(self.strobe.data@, i),
        ) && cs_open(self.config, self.cs, i)
    }

    /// Whether chip select is closed at sample `i`.
    pub open spec fn closes(self, i: int) -> bool {
        i != self.skip && !cs_open(self.config, self.cs, i)
    }

    /// One sample of the scan: a trigger with chip select open is collected, a closed chip select
    /// drops the partial word.
    pub open spec fn step(self, state: ScanState, i: int) -> ScanState {
        if self.closes(i) {
            ScanState { items: state.items, pending: true }
        } else if self.fires(i) {
            ScanState {
                items: state.items.push(
                    (
                        (self.strobe.start_position + i) as u64,
                        bus_value(self.data, i),
                        state.pending,
                    ),
                ),
                pending: false,
            }
        } else {
            state
        }
    }

    /// Samples `from..to`, one after the other.
    pub open spec fn span(self, state: ScanState, from: int, to: int) -> ScanState
        decreases to - from,
    {
        if to <= from {
            state
        } else {
            self.step(self.span(state, from, to - 1), to - 1)
        }
    }

    /// The first `count` ranges. Entering a range drops the partial word, except that the first
    /// range does so only where it asks for it and its first sample is not left to the merge.
    pub open spec fn ranges(self, ranges: Seq<EnabledRange>, state: ScanState, count: nat) -> ScanState
        decreases count,
    {
        if count == 0 {
            state
        } else {
            let range = ranges[count - 1];
            self.span(
                self.entered(ranges, self.ranges(ranges, state, (count - 1) as nat), count - 1),
                range.start as int,
                range.end as int,
            )
        }
    }

    /// The state on entering range `index`.
    pub open spec fn entered(self, ranges: Seq<EnabledRange>, state: ScanState, index: int) -> ScanState {
        if index > 0 || (ranges[index].reset_before && self.skip < 0) {
            ScanState { items: state.items, pending: true }
        } else {
            state
        }
    }

    /// The scan before its first range.
    pub open spec fn initial(self, ranges: Seq<EnabledRange>) -> ScanState {
        ScanState {
            items: Seq::empty(),
            pending: self.skip < 0 && (ranges.len() == 0 || ranges[0].reset_before),
        }
    }

    /// The whole scan.
    pub open spec fn scan(self, ranges: Seq<EnabledRange>) -> ScanState {
        self.ranges(ranges, self.initial(ranges), ranges.len())
    }
}

/// Whether the first sample of the window is left to the merge: its edge depends on the
/// fragment before.
pub open spec fn has_boundary(config: StreamScanConfig, ranges: Seq<EnabledRange>, window_start: int) -> bool {
    config.mode.on_edges() && ranges.len() > 0 && ranges[0].start == window_start
}

/// The scan of a window as a [`ScanInput`].
pub open spec fn scan_input(
    config: StreamScanConfig,
    strobe: SampleBlock,
    data: Seq<SampleBlock>,
    cs: Option<SampleBlock>,
    window_start: int,
    ranges: Seq<EnabledRange>,
) -> ScanInput {
    ScanInput {
        config,
        strobe,
        data,
        cs,
        skip: if has_boundary(config, ranges, window_start) {
            window_start
        } else {
            -1
        },
    }
}

/// The fragment that scanning a window yields.
pub open spec fn scanned_fragment(
    config: StreamScanConfig,
    sequence: u64,
    strobe: SampleBlock,
    data: Seq<SampleBlock>,
    cs: Option<SampleBlock>,
    window_start: int,
    window_end: int,
    ranges: Seq<EnabledRange>,
) -> FragmentView {
    let scan = scan_input(config, strobe, data, cs, window_start, ranges).scan(ranges);
    FragmentView {
        sequence,
        timestamp_step: strobe.timestamp_step,
        boundary: if has_boundary(config, ranges, window_start) {
            Some(
                FragmentBoundary {
                    position: (strobe.start_position + window_start) as u64,
                    strobe_value: bit_of(strobe.data@, window_start),
                    data_value: bus_value(data, window_start),
                    cs_eligible: cs_open(config, cs, window_start),
                    reset_before: ranges[0].reset_before,
                },
            )
        } else {
            None
        },
        last_strobe_value: bit_of(strobe.data@, window_end - 1),
        items: scan.items,
        reset_after: scan.pending || ranges.len() == 0 || ranges.last().end < window_end,
    }
}

/// The blocks are large enough to be read up to `end`.
pub open spec fn blocks_cover(
    strobe: SampleBlock,
    data: Seq<SampleBlock>,
    cs: Option<SampleBlock>,
    end: int,
) -> bool {
    &&& strobe.wf()
    &&& end <= strobe.num_samples
    &&& data.len() <= 64
    &&& forall|k: int| 0 <= k < data.len() ==> end <= 8 * (#[trigger] data[k]).data@.len()
    &&& cs matches Some(block) ==> end <= 8 * block.data@.len()
}

/// Whether chip select is closed somewhere in `from..to`.
pub open spec fn closed_within(input: ScanInput, from: int, to: int) -> bool {
    exists|i: int| from <= i < to && #[trigger] input.closes(i)
}

/// A stretch without a trigger drops the partial word where chip select is closed in it, and does
/// nothing else.
pub proof fn lemma_idle_span(input: ScanInput, state: ScanState, from: int, mid: int, to: int)
    requires
        from <= mid <= to,
        forall|i: int| mid <= i < to ==> !#[trigger] input.fires(i),
    ensures
        input.span(state, from, to) == (ScanState {
            items: input.span(state, from, mid).items,
            pending: input.span(state, from, mid).pending || closed_within(input, mid, to),
        }),
    decreases to - mid,
{
    if mid < to {
        lemma_idle_span(input, state, from, mid, to - 1);
        assert(!input.fires(to - 1));
        if closed_within(input, mid, to - 1) {
            let i = choose|i: int| mid <= i < to - 1 && #[trigger] input.closes(i);
            assert(input.closes(i));
        }
        if closed_within(input, mid, to) && !closed_within(input, mid, to - 1) {
            let i = choose|i: int| mid <= i < to && #[trigger] input.closes(i);
            assert(i == to - 1);
        }
    }
}

/// A span collects at most one trigger per sample, and none at the skipped one.
pub proof fn lemma_span_len(input: ScanInput, state: ScanState, from: int, to: int)
    requires
        from <= to,
    ensures
        input.span(state, from, to).items.len() <= state.items.len() + (to - from) - (if from
            <= input.skip < to {
            1int
        } else {
            0int
        }),
    decreases to - from,
{
    if from < to {
        lemma_span_len(input, state, from, to - 1);
    }
}

/// The first ranges collect at most one trigger per sample up to their end, and none at the
/// skipped one.
pub proof fn lemma_scan_len(input: ScanInput, ranges: Seq<EnabledRange>, start: int, end: int, count: nat)
    requires
        ranges_in_window(ranges, start, end),
        0 < count <= ranges.len(),
        input.skip < 0 || (input.skip == start && ranges[0].start == start),
    ensures
        input.ranges(ranges, input.initial(ranges), count).items.len() <= ranges[count - 1].end
            - start - (if input.skip >= 0 {
            1int
        } else {
            0int
        }),
    decreases count,
{
    let range = ranges[count - 1];
    if count > 1 {
        lemma_scan_len(input, ranges, start, end, (count - 1) as nat);
        assert(ranges[count - 2].end <= ranges[count - 1].start);
        assert(ranges[0].end <= ranges[count - 1].start);
    } else {
        assert(input.ranges(ranges, input.initial(ranges), 0) == input.initial(ranges));
    }
    lemma_span_len(
        input,
        input.entered(
            ranges,
            input.ranges(ranges, input.initial(ranges), (count - 1) as nat),
            count - 1,
        ),
        range.start as int,
        range.end as int,
    );
}

proof fn lemma_bus_bit_bv(value: u64, bit: bool, k: u64, j: u64)
    by (bit_vector)
    requires
        k < 64,
        j < 64,
    ensures
        (((value | ((if bit { 1u64 } else { 0u64 }) << k)) >> j) & 1u64 == 1u64) == (((value >> j)
            & 1u64 == 1u64) || (j == k && bit)),
{
}

/// Bit `j` of the bus value is the level of data block `j`; higher bits are zero.
pub proof fn lemma_bus_bits(data: Seq<SampleBlock>, count: nat, i: int, j: int)
    requires
        count <= data.len(),
        count <= 64,
        0 <= j < 64,
    ensures
        word_bit(bus_bits(data, count, i), j) == (j < count && bit_of(data[j].data@, i)),
    decreases count,
{
    if count == 0 {
        lemma_word_ops(0, 0, j);
    } else {
        lemma_bus_bits(data, (count - 1) as nat, i, j);
        lemma_bus_bit_bv(
            bus_bits(data, (count - 1) as nat, i),
            bit_of(data[count - 1].data@, i),
            (count - 1) as u64,
            j as u64,
        );
    }
}

/// The bus value at one sample.
pub fn packed_bus_value(data: &[SampleBlock], local_index: usize) -> (result: u64)
    requires
        data@.len() <= 64,
        forall|k: int| 0 <= k < data@.len() ==> local_index < 8 * (#[trigger] data@[k]).data@.len(),
    ensures
        result == bus_value(data@, local_index as int),
        forall|j: int|
            0 <= j < 64 ==> #[trigger] word_bit(result, j) == (j < data@.len() && bit_of(
                data@[j].data@,
                local_index as int,
            )),
{
    let mut value: u64 = 0;
    let mut bit: usize = 0;
    while bit < data.len()
        invariant
            bit <= data@.len() <= 64,
            forall|k: int|
                0 <= k < data@.len() ==> local_index < 8 * (#[trigger] data@[k]).data@.len(),
            value == bus_bits(data@, bit as nat, local_index as int),
        decreases data@.len() - bit,
    {
        let level: bool = packed_bit(data[bit].data.as_slice(), local_index);
        let level_bit: u64 = if level {
            1
        } else {
            0
        };
        value = value | (level_bit << (bit as u64));
        bit += 1;
    }
    proof {
        assert forall|j: int| 0 <= j < 64 implies #[trigger] word_bit(value, j) == (j < data@.len()
            && bit_of(data@[j].data@, local_index as int)) by {
            lemma_bus_bits(data@, data@.len(), local_index as int, j);
        }
    }
    value
}

/// Tells whether chip select lets a trigger at one sample through.
pub fn cs_eligible(config: StreamScanConfig, cs: Option<&SampleBlock>, local_index: usize) -> (result:
    bool)
    requires
        cs matches Some(block) ==> local_index < 8 * block.data@.len(),
    ensures
        result == cs_open(config, block_at(cs), local_index as int),
{
    match cs {
        Some(block) => match config.cs_polarity {
            CsPolarity::ActiveLow => !packed_bit(block.data.as_slice(), local_index),
            CsPolarity::ActiveHigh => packed_bit(block.data.as_slice(), local_index),
            CsPolarity::Disabled => true,
        },
        None => true,
    }
}

/// The triggers among the 64 samples of one packed word.
pub fn trigger_word(mode: StrobeMode, data: &[u8], word_index: usize) -> (result: u64)
    requires
        8 * word_index < data@.len(),
    ensures
        forall|j: int|
            0 <= j < 64 && 64 * word_index + j < 8 * data@.len() ==> #[trigger] word_bit(result, j)
                == mode.triggers(
                level_before(data@, 64 * word_index + j),
                bit_of(data@, 64 * word_index + j),
            ),
{
    let len: usize = data.len();
    let word: u64 = packed_word(data, word_index);
    let previous: bool = if word_index == 0 {
        false
    } else {
        let last_byte: u8 = data[word_index * 8 - 1];
        let level: u8 = (last_byte >> 7u8) & 1;
        assert((last_byte >> 7u8) & 1 == 0u8 || (last_byte >> 7u8) & 1 == 1u8) by (bit_vector);
        assert((64 * word_index - 1) / 8 == word_index * 8 - 1);
        assert((64 * word_index - 1) % 8 == 7);
        level != 0
    };
    let previous_bit: u64 = if previous {
        1
    } else {
        0
    };
    let shifted: u64 = (word << 1u64) | previous_bit;
    let toggles: u64 = word ^ shifted;
    let result: u64 = match mode {
        StrobeMode::RisingEdge => toggles & word,
        StrobeMode::FallingEdge => toggles & !word,
        StrobeMode::AnyEdge => toggles,
        StrobeMode::HighLevel => word,
        StrobeMode::LowLevel => !word,
    };
    proof {
        assert forall|j: int| 0 <= j < 64 && 64 * word_index + j < 8 * data@.len() implies
            #[trigger] word_bit(result, j) == mode.triggers(
            level_before(data@, 64 * word_index + j),
            bit_of(data@, 64 * word_index + j),
        ) by {
            let i = 64 * word_index + j;
            assert(word_bit(word, j) == bit_of(data@, i));
            lemma_word_ops(word, shifted, j);
            lemma_word_ops(word << 1u64, previous_bit, j);
            lemma_word_ops(word, previous_bit, j);
            lemma_word_ops(toggles, word, j);
            lemma_word_ops(toggles, !word, j);
            lemma_single_bit(0, j);
            if j > 0 {
                assert(word_bit(word, j - 1) == bit_of(data@, i - 1));
            }
            assert(word_bit(shifted, j) == level_before(data@, i));
        }
    }
    result
}

/// The samples among the 64 of one packed word at which chip select is closed.
fn closed_word(config: StreamScanConfig, cs: Option<&SampleBlock>, word_index: usize) -> (result: u64)
    requires
        cs matches Some(block) ==> 8 * word_index < block.data@.len(),
    ensures
        forall|j: int|
            0 <= j < 64 && (cs matches Some(block) ==> 64 * word_index + j < 8 * block.data@.len())
                ==> #[trigger] word_bit(result, j) == !cs_open(
                config,
                block_at(cs),
                64 * word_index + j,
            ),
{
    let word: u64 = match cs {
        Some(block) => packed_word(block.data.as_slice(), word_index),
        None => 0,
    };
    let result: u64 = if cs.is_none() {
        0
    } else {
        match config.cs_polarity {
            CsPolarity::ActiveLow => word,
            CsPolarity::ActiveHigh => !word,
            CsPolarity::Disabled => 0,
        }
    };
    proof {
        assert forall|j: int|
            0 <= j < 64 && (cs matches Some(block) ==> 64 * word_index + j < 8 * block.data@.len())
            implies #[trigger] word_bit(result, j) == !cs_open(
            config,
            block_at(cs),
            64 * word_index + j,
        ) by {
            lemma_word_ops(word, word, j);
            if cs is Some {
                assert(word_bit(word, j) == bit_of(cs->0.data@, 64 * word_index + j));
            }
        }
    }
    result
}

/// Tells whether one of the bits `start..end` of a word is set.
fn any_bit(word: u64, start: usize, end: usize) -> (result: bool)
    requires
        start <= end <= 64,
    ensures
        result == exists|j: int| start <= j < end && #[trigger] word_bit(word, j),
{
    if start == end {
        return false;
    }
    let mask: u64 = bit_range_mask(start, end);
    let chosen: u64 = word & mask;
    proof {
        lemma_nonzero_has_bit(chosen);
        assert forall|j: int| 0 <= j < 64 implies #[trigger] word_bit(chosen, j) == (word_bit(word, j)
            && start <= j < end) by {
            lemma_word_ops(word, mask, j);
        }
        if chosen != 0 {
            let j = choose|j: int| 0 <= j < 64 && #[trigger] word_bit(chosen, j);
            assert(word_bit(word, j));
        }
        if exists|j: int| start <= j < end && #[trigger] word_bit(word, j) {
            let j = choose|j: int| start <= j < end && #[trigger] word_bit(word, j);
            assert(word_bit(chosen, j));
        }
    }
    chosen != 0
}

/// The bits of a word that say where chip select is closed say whether it is closed in a stretch.
proof fn lemma_closed_bits(
    input: ScanInput,
    closed: u64,
    word_start: int,
    first: int,
    upper: int,
    from: int,
    to: int,
)
    requires
        word_start <= first <= from <= to <= upper <= word_start + 64,
        forall|j: int|
            0 <= j < 64 ==> #[trigger] word_bit(closed, j) == (first <= word_start + j < upper
                && input.closes(word_start + j)),
    ensures
        closed_within(input, from, to) == exists|j: int|
            from - word_start <= j < to - word_start && #[trigger] word_bit(closed, j),
{
    if closed_within(input, from, to) {
        let i = choose|i: int| from <= i < to && #[trigger] input.closes(i);
        assert(input.closes(word_start + (i - word_start)));
        assert(word_bit(closed, i - word_start));
    }
    if exists|j: int| from - word_start <= j < to - word_start && #[trigger] word_bit(closed, j) {
        let j = choose|j: int|
            from - word_start <= j < to - word_start && #[trigger] word_bit(closed, j);
        assert(input.closes(word_start + j));
    }
}

/// Collects the triggers of one window.
pub fn scan_stream_fragment(
    config: StreamScanConfig,
    sequence: u64,
    strobe: &SampleBlock,
    data: &[SampleBlock],
    cs: Option<&SampleBlock>,
    window_start: usize,
    window_end: usize,
    enabled_ranges: &[EnabledRange],
    buffers: DecodeFragmentBuffers,
) -> (result: DecodeFragment)
    requires
        window_start < window_end,
        blocks_cover(*strobe, data@, block_at(cs), window_end as int),
        ranges_in_window(enabled_ranges@, window_start as int, window_end as int),
    ensures
        result.buffers.wf(),
        result.buffers@.len() + (if result.boundary is Some {
            1int
        } else {
            0int
        }) <= window_end - window_start,
        result@ == scanned_fragment(
            config,
            sequence,
            *strobe,
            data@,
            block_at(cs),
            window_start as int,
            window_end as int,
            enabled_ranges@,
        ),
{
    let mut buffers = buffers;
    buffers.clear();
    let boundary: Option<FragmentBoundary> = if enabled_ranges.len() > 0
        && enabled_ranges[0].start == window_start && config.mode.is_edge_triggered() {
        Some(
            FragmentBoundary {
                position: strobe.start_position + window_start as u64,
                strobe_value: packed_bit(strobe.data.as_slice(), window_start),
                data_value: packed_bus_value(data, window_start),
                cs_eligible: cs_eligible(config, cs, window_start),
                reset_before: enabled_ranges[0].reset_before,
            },
        )
    } else {
        None
    };
    let mut reset_before_next: bool = boundary.is_none() && (enabled_ranges.len() == 0
        || enabled_ranges[0].reset_before);
    let ghost input = scan_input(
        config,
        *strobe,
        data@,
        block_at(cs),
        window_start as int,
        enabled_ranges@,
    );
    let ghost initial = input.initial(enabled_ranges@);
    let mut range_index: usize = 0;
    while range_index < enabled_ranges.len()
        invariant
            range_index <= enabled_ranges@.len(),
            window_start < window_end,
            blocks_cover(*strobe, data@, block_at(cs), window_end as int),
            ranges_in_window(enabled_ranges@, window_start as int, window_end as int),
            input == scan_input(
                config,
                *strobe,
                data@,
                block_at(cs),
                window_start as int,
                enabled_ranges@,
            ),
            boundary.is_some() == has_boundary(config, enabled_ranges@, window_start as int),
            initial == input.initial(enabled_ranges@),
            buffers.wf(),
            input.ranges(enabled_ranges@, initial, range_index as nat) == (ScanState {
                items: buffers@,
                pending: reset_before_next,
            }),
        decreases enabled_ranges@.len() - range_index,
    {
        let range: EnabledRange = enabled_ranges[range_index];
        if range_index > 0 || (range.reset_before && boundary.is_none()) {
            reset_before_next = true;
        }
        let ghost entered = ScanState { items: buffers@, pending: reset_before_next };
        assert(entered == input.entered(
            enabled_ranges@,
            input.ranges(enabled_ranges@, initial, range_index as nat),
            range_index as int,
        ));
        let first_word: usize = range.start / 64;
        let last_word: usize = (range.end - 1) / 64;
        let mut word_index: usize = first_word;
        let ghost mut done: int = range.start as int;
        while word_index <= last_word
            invariant
                first_word == range.start / 64,
                last_word == (range.end - 1) / 64,
                first_word <= word_index <= last_word + 1,
                window_start <= range.start < range.end <= window_end,
                blocks_cover(*strobe, data@, block_at(cs), window_end as int),
                input == scan_input(
                    config,
                    *strobe,
                    data@,
                    block_at(cs),
                    window_start as int,
                    enabled_ranges@,
                ),
                boundary.is_some() == has_boundary(config, enabled_ranges@, window_start as int),
                buffers.wf(),
                done == if word_index == first_word {
                    range.start as int
                } else if word_index <= last_word {
                    64 * word_index
                } else {
                    range.end as int
                },
                input.span(entered, range.start as int, done) == (ScanState {
                    items: buffers@,
                    pending: reset_before_next,
                }),
            decreases last_word + 1 - word_index,
        {
            let word_start: usize = word_index * 64;
            let mut triggers: u64 = trigger_word(config.mode, strobe.data.as_slice(), word_index);
            let range_start: usize = if range.start > word_start {
                range.start - word_start
            } else {
                0
            };
            let range_end: usize = if range.end - word_start < 64 {
                range.end - word_start
            } else {
                64
            };
            let ghost upper = word_start + range_end;
            let ghost unmasked = triggers;
            let mut kept: u64 = bit_range_mask(range_start, range_end);
            let ghost mask = kept;
            if boundary.is_some() && word_start <= window_start {
                let left_to_merge: u64 = 1u64 << ((window_start - word_start) as u64);
                kept = kept & !left_to_merge;
            }
            let shut: u64 = closed_word(config, cs, word_index);
            let closed: u64 = shut & kept;
            let ghost masked = triggers & kept;
            triggers = triggers & kept & !closed;
            let mut done_bit: usize = range_start;
            proof {
                assert forall|j: int| 0 <= j < 64 implies #[trigger] word_bit(kept, j) == (done
                    <= word_start + j < upper && word_start + j != input.skip) by {
                    assert(word_bit(mask, j) == (range_start <= j < range_end));
                    if boundary.is_some() && word_start <= window_start {
                        let left_to_merge = 1u64 << ((window_start - word_start) as u64);
                        lemma_single_bit(window_start - word_start, j);
                        lemma_word_ops(mask, !left_to_merge, j);
                        lemma_word_ops(left_to_merge, 0, j);
                    }
                }
                assert forall|j: int| 0 <= j < 64 implies #[trigger] word_bit(closed, j) == (done
                    <= word_start + j < upper && input.closes(word_start + j)) by {
                    lemma_word_ops(shut, kept, j);
                    assert(word_bit(kept, j) == (done <= word_start + j < upper && word_start + j
                        != input.skip));
                    if range_start <= j < range_end {
                        assert(word_bit(shut, j) == !cs_open(
                            config,
                            block_at(cs),
                            64 * word_index + j,
                        ));
                    }
                }
                assert forall|j: int| 0 <= j < 64 implies #[trigger] word_bit(triggers, j) == (done
                    <= word_start + j < upper && input.fires(word_start + j)) by {
                    lemma_word_ops(unmasked, kept, j);
                    lemma_word_ops(masked, !closed, j);
                    lemma_word_ops(closed, closed, j);
                    assert(word_bit(kept, j) == (done <= word_start + j < upper && word_start + j
                        != input.skip));
                    assert(word_bit(closed, j) == (done <= word_start + j < upper && input.closes(
                        word_start + j,
                    )));
                    if range_start <= j < range_end {
                        assert(word_bit(unmasked, j) == config.mode.triggers(
                            level_before(strobe.data@, 64 * word_index + j),
                            bit_of(strobe.data@, 64 * word_index + j),
                        ));
                    }
                }
            }
            let ghost first = done;
            while triggers != 0
                invariant
                    word_start == 64 * word_index,
                    upper <= word_start + 64,
                    range.start <= done <= upper <= range.end,
                    word_start <= done,
                    window_start <= range.start < range.end <= window_end,
                    blocks_cover(*strobe, data@, block_at(cs), window_end as int),
                    input == scan_input(
                        config,
                        *strobe,
                        data@,
                        block_at(cs),
                        window_start as int,
                        enabled_ranges@,
                    ),
                    buffers.wf(),
                    input.span(entered, range.start as int, done) == (ScanState {
                        items: buffers@,
                        pending: reset_before_next,
                    }),
                    forall|j: int|
                        0 <= j < 64 ==> #[trigger] word_bit(triggers, j) == (done <= word_start + j
                            < upper && input.fires(word_start + j)),
                    forall|j: int|
                        0 <= j < 64 ==> #[trigger] word_bit(closed, j) == (first <= word_start + j
                            < upper && input.closes(word_start + j)),
                    word_start <= first <= done,
                    done == word_start + done_bit,
                    range_end <= 64,
                    upper == word_start + range_end,
                decreases upper - done,
            {
                let ghost before = triggers;
                proof {
                    lemma_clear_lowest(triggers, 0);
                }
                let bit_in_word: usize = triggers.trailing_zeros() as usize;
                triggers = triggers & (triggers - 1);
                let ghost fired = word_start + bit_in_word;
                proof {
                    assert(word_bit(before, bit_in_word as int));
                    assert forall|i: int| done <= i < fired implies !#[trigger] input.fires(i) by {
                        let j = i - word_start;
                        lemma_clear_lowest(before, j);
                        assert(!word_bit(before, j));
                    }
                    lemma_idle_span(input, entered, range.start as int, done, fired);
                    lemma_closed_bits(
                        input,
                        closed,
                        word_start as int,
                        first,
                        upper as int,
                        done,
                        fired as int,
                    );
                    assert forall|j: int| 0 <= j < 64 implies #[trigger] word_bit(triggers, j) == (
                    fired + 1 <= word_start + j < upper && input.fires(word_start + j)) by {
                        lemma_clear_lowest(before, j);
                        assert(word_bit(before, j) == (done <= word_start + j < upper
                            && input.fires(word_start + j)));
                    }
                    done = fired + 1;
                }
                let local_index: usize = word_start + bit_in_word;
                let position: u64 = strobe.start_position + local_index as u64;
                let reset: bool = reset_before_next || any_bit(closed, done_bit, bit_in_word);
                buffers.push(position, packed_bus_value(data, local_index), reset);
                reset_before_next = false;
                done_bit = bit_in_word + 1;
            }
            proof {
                lemma_nonzero_has_bit(triggers);
                assert forall|i: int| done <= i < upper implies !#[trigger] input.fires(i) by {
                    assert(!word_bit(triggers, i - word_start));
                }
                lemma_idle_span(input, entered, range.start as int, done, upper as int);
                lemma_closed_bits(
                    input,
                    closed,
                    word_start as int,
                    first,
                    upper as int,
                    done,
                    upper as int,
                );
                done = upper as int;
            }
            if any_bit(closed, done_bit, range_end) {
                reset_before_next = true;
            }
            word_index += 1;
        }
        range_index += 1;
    }
    proof {
        if enabled_ranges@.len() > 0 {
            lemma_scan_len(
                input,
                enabled_ranges@,
                window_start as int,
                window_end as int,
                enabled_ranges@.len(),
            );
        }
    }
    let last_strobe_value: bool = packed_bit(strobe.data.as_slice(), window_end - 1);
    let reset_after: bool = reset_before_next || enabled_ranges.len() == 0
        || enabled_ranges[enabled_ranges.len() - 1].end < window_end;
    DecodeFragment {
        sequence,
        timestamp_step: strobe.timestamp_step,
        boundary,
        last_strobe_value,
        buffers,
        reset_after,
    }
}

} // verus!
