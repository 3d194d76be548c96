//! Sample-by-sample meaning of the packed scan and the fragment merge.

use vstd::prelude::*;

use crate::bits::bit_of;
use crate::parallel_decoder::merge::{
    law_fragment_appends_words, AssemblyState, MergeState, WordFormat,
};
use crate::parallel_decoder::scan::{
    bus_value, cs_open, level_before, scan_input, scanned_fragment, ScanInput, ScanState,
};
use crate::parallel_decoder::types::{
    in_ranges, ranges_in_window, EnabledRange, FragmentView, StreamScanConfig,
};
use crate::streams::SampleBlock;

verus! {

/// The aligned signals of one block, and the way they are decoded.
pub struct Signals {
    pub format: WordFormat,
    pub config: StreamScanConfig,
    pub strobe: SampleBlock,
    pub data: Seq<SampleBlock>,
    pub cs: Option<SampleBlock>,
}

/// Decoder state between two samples: the strobe level of the sample before, and the words.
pub struct SampleState {
    pub previous: bool,
    pub merge: MergeState,
}

/// Whether a range that drops the partial word starts at sample `i`: every range but the first
/// does, and the first where it asks for it.
pub open spec fn restarts(ranges: Seq<EnabledRange>, i: int) -> bool {
    exists|k: int|
        0 <= k < ranges.len() && (#[trigger] ranges[k]).start == i && (k > 0
            || ranges[0].reset_before)
}

impl Signals {
    /// One sample. Outside the ranges, and where chip select is closed, the partial word is
    /// dropped. Elsewhere a trigger adds a cycle.
    pub open spec fn sample(self, ranges: Seq<EnabledRange>, state: SampleState, i: int) -> SampleState {
        let level = bit_of(self.strobe.data@, i);
        let entered = state.merge.dropped_if(restarts(ranges, i));
        SampleState {
            previous: level,
            merge: if !in_ranges(ranges, i) || !cs_open(self.config, self.cs, i) {
                entered.dropped()
            } else if self.config.mode.triggers(state.previous, level) {
                entered.merged(
                    self.format,
                    self.strobe.timestamp_step,
                    (self.strobe.start_position + i) as u64,
                    bus_value(self.data, i),
                )
            } else {
                entered
            },
        }
    }

    /// Samples `from..to`, one after the other.
    pub open spec fn samples(self, ranges: Seq<EnabledRange>, state: SampleState, from: int, to: int) -> SampleState
        decreases to - from,
    {
        if to <= from {
            state
        } else {
            self.sample(ranges, self.samples(ranges, state, from, to - 1), to - 1)
        }
    }

    /// The fragment that scanning a window yields.
    pub open spec fn fragment(self, sequence: u64, start: int, end: int, ranges: Seq<EnabledRange>) -> FragmentView {
        scanned_fragment(
            self.config,
            sequence,
            self.strobe,
            self.data,
            self.cs,
            start,
            end,
            ranges,
        )
    }

    /// Scanning a window and merging its fragment.
    pub open spec fn window(
        self,
        sequence: u64,
        start: int,
        end: int,
        ranges: Seq<EnabledRange>,
        state: SampleState,
    ) -> SampleState {
        let fragment = self.fragment(sequence, start, end, ranges);
        SampleState {
            previous: fragment.last_strobe_value,
            merge: state.merge.merged_fragment(
                self.format,
                self.config.mode,
                state.previous,
                fragment,
            ),
        }
    }

    /// The words so far, had the scan stopped here.
    spec fn settled(self, start: MergeState, first_reset: bool, scan: ScanState) -> MergeState {
        start.merged_items(
            self.format,
            self.strobe.timestamp_step,
            scan.items,
            first_reset,
            scan.items.len(),
        ).dropped_if(scan.pending || (first_reset && scan.items.len() == 0))
    }
}

proof fn lemma_items_prefix(
    start: MergeState,
    format: WordFormat,
    step: u64,
    items: Seq<(u64, u64, bool)>,
    item: (u64, u64, bool),
    first_reset: bool,
    count: nat,
)
    requires
        count <= items.len(),
    ensures
        start.merged_items(format, step, items.push(item), first_reset, count)
            == start.merged_items(format, step, items, first_reset, count),
    decreases count,
{
    if count > 0 {
        lemma_items_prefix(start, format, step, items, item, first_reset, (count - 1) as nat);
        assert(items.push(item)[count - 1] == items[count - 1]);
    }
}

/// One sample inside a range moves the settled words as one sample of the model does.
proof fn lemma_settled_step(
    signals: Signals,
    input: ScanInput,
    start: MergeState,
    first_reset: bool,
    scan: ScanState,
    i: int,
)
    requires
        input.config == signals.config,
        input.strobe == signals.strobe,
        input.data == signals.data,
        input.cs == signals.cs,
        i != input.skip,
    ensures
        ({
            let before = signals.settled(start, first_reset, scan);
            let after = signals.settled(start, first_reset, input.step(scan, i));
            after == if !cs_open(signals.config, signals.cs, i) {
                before.dropped()
            } else if signals.config.mode.triggers(
                level_before(signals.strobe.data@, i),
                bit_of(signals.strobe.data@, i),
            ) {
                before.merged(
                    signals.format,
                    signals.strobe.timestamp_step,
                    (signals.strobe.start_position + i) as u64,
                    bus_value(signals.data, i),
                )
            } else {
                before
            }
        }),
{
    if input.fires(i) {
        let item = (
            (signals.strobe.start_position + i) as u64,
            bus_value(signals.data, i),
            scan.pending,
        );
        lemma_items_prefix(
            start,
            signals.format,
            signals.strobe.timestamp_step,
            scan.items,
            item,
            first_reset,
            scan.items.len(),
        );
        assert(scan.items.push(item).last() == item);
    }
}

/// Inside range `k`, only its first sample can restart, and every sample is in the ranges.
proof fn lemma_inside_range(ranges: Seq<EnabledRange>, start: int, end: int, k: int, i: int)
    requires
        ranges_in_window(ranges, start, end),
        0 <= k < ranges.len(),
        ranges[k].start <= i < ranges[k].end,
    ensures
        in_ranges(ranges, i),
        restarts(ranges, i) == (i == ranges[k].start && (k > 0 || ranges[0].reset_before)),
{
    assert(ranges[k].start <= i < ranges[k].end);
    if restarts(ranges, i) {
        let j = choose|j: int|
            0 <= j < ranges.len() && (#[trigger] ranges[j]).start == i && (j > 0
                || ranges[0].reset_before);
        if j < k {
            assert(ranges[j].end <= ranges[k].start);
        } else if k < j {
            assert(ranges[k].end <= ranges[j].start);
        }
    }
}

/// Between range `k - 1` and range `k` nothing is in the ranges and nothing restarts.
proof fn lemma_between_ranges(ranges: Seq<EnabledRange>, start: int, end: int, k: int, i: int)
    requires
        ranges_in_window(ranges, start, end),
        0 <= k <= ranges.len(),
        k > 0 ==> ranges[k - 1].end <= i,
        k < ranges.len() ==> i < ranges[k].start,
    ensures
        !in_ranges(ranges, i),
        !restarts(ranges, i),
{
    if in_ranges(ranges, i) {
        let j = choose|j: int|
            0 <= j < ranges.len() && (#[trigger] ranges[j]).start <= i < ranges[j].end;
        if j < k {
            if j < k - 1 {
                assert(ranges[j].end <= ranges[k - 1].start);
            }
        } else if j > k {
            assert(ranges[k].end <= ranges[j].start);
        }
    }
    if restarts(ranges, i) {
        let j = choose|j: int|
            0 <= j < ranges.len() && (#[trigger] ranges[j]).start == i && (j > 0
                || ranges[0].reset_before);
        if j < k {
            if j < k - 1 {
                assert(ranges[j].end <= ranges[k - 1].start);
            }
        } else if j > k {
            assert(ranges[k].end <= ranges[j].start);
        }
    }
}

/// A non-empty stretch outside the ranges drops the partial word and does nothing else.
proof fn lemma_gap(
    signals: Signals,
    ranges: Seq<EnabledRange>,
    state: SampleState,
    first: int,
    from: int,
    to: int,
)
    requires
        first <= from <= to,
        forall|i: int| from <= i < to ==> !in_ranges(ranges, i) && !restarts(ranges, i),
    ensures
        signals.samples(ranges, state, first, to).merge == if from < to {
            signals.samples(ranges, state, first, from).merge.dropped()
        } else {
            signals.samples(ranges, state, first, from).merge
        },
        first < to ==> signals.samples(ranges, state, first, to).previous == bit_of(
            signals.strobe.data@,
            to - 1,
        ),
    decreases to - from,
{
    if from < to {
        lemma_gap(signals, ranges, state, first, from, to - 1);
        assert(!in_ranges(ranges, to - 1) && !restarts(ranges, to - 1));
    }
}

/// Inside range `k`, from its second sample on, the scan and the sample model move together.
proof fn lemma_inside_span(
    signals: Signals,
    input: ScanInput,
    ranges: Seq<EnabledRange>,
    start: int,
    end: int,
    k: int,
    state: SampleState,
    begin: MergeState,
    first_reset: bool,
    entered: ScanState,
    from: int,
    to: int,
)
    requires
        0 <= start,
        ranges_in_window(ranges, start, end),
        0 <= k < ranges.len(),
        ranges[k].start < from <= to <= ranges[k].end,
        input.config == signals.config,
        input.strobe == signals.strobe,
        input.data == signals.data,
        input.cs == signals.cs,
        input.skip < from,
        signals.samples(ranges, state, start, from).previous == bit_of(
            signals.strobe.data@,
            from - 1,
        ),
        signals.samples(ranges, state, start, from).merge == signals.settled(
            begin,
            first_reset,
            input.span(entered, ranges[k].start as int, from),
        ),
    ensures
        signals.samples(ranges, state, start, to).previous == bit_of(signals.strobe.data@, to - 1),
        signals.samples(ranges, state, start, to).merge == signals.settled(
            begin,
            first_reset,
            input.span(entered, ranges[k].start as int, to),
        ),
    decreases to - from,
{
    if from < to {
        lemma_inside_span(
            signals,
            input,
            ranges,
            start,
            end,
            k,
            state,
            begin,
            first_reset,
            entered,
            from,
            to - 1,
        );
        lemma_inside_range(ranges, start, end, k, to - 1);
        lemma_settled_step(
            signals,
            input,
            begin,
            first_reset,
            input.span(entered, ranges[k].start as int, to - 1),
            to - 1,
        );
    }
}

/// At the end of range `k`, the scan and the sample model agree.
proof fn lemma_range_end(
    signals: Signals,
    ranges: Seq<EnabledRange>,
    start: int,
    end: int,
    state: SampleState,
    k: int,
)
    requires
        0 <= start < end,
        ranges_in_window(ranges, start, end),
        0 <= k < ranges.len(),
        ranges[0].start > start ==> ranges[0].reset_before,
    ensures
        ({
            let input = scan_input(
                signals.config,
                signals.strobe,
                signals.data,
                signals.cs,
                start,
                ranges,
            );
            let fragment = signals.fragment(0, start, end, ranges);
            let (begin, first_reset) = state.merge.merged_boundary(
                signals.format,
                signals.config.mode,
                state.previous,
                signals.strobe.timestamp_step,
                fragment.boundary,
            );
            let at = signals.samples(ranges, state, start, ranges[k].end as int);
            &&& at.previous == bit_of(signals.strobe.data@, ranges[k].end - 1)
            &&& at.merge == signals.settled(
                begin,
                first_reset,
                input.ranges(ranges, input.initial(ranges), (k + 1) as nat),
            )
        }),
    decreases k,
{
    let input = scan_input(
        signals.config,
        signals.strobe,
        signals.data,
        signals.cs,
        start,
        ranges,
    );
    let initial = input.initial(ranges);
    let fragment = signals.fragment(0, start, end, ranges);
    let (begin, first_reset) = state.merge.merged_boundary(
        signals.format,
        signals.config.mode,
        state.previous,
        signals.strobe.timestamp_step,
        fragment.boundary,
    );
    let first = ranges[k].start as int;
    let before = input.ranges(ranges, initial, k as nat);
    let entered = input.entered(ranges, before, k);
    // Reach the first sample of the range.
    if k > 0 {
        lemma_range_end(signals, ranges, start, end, state, k - 1);
        assert(ranges[k - 1].end <= ranges[k].start);
        assert forall|i: int| ranges[k - 1].end <= i < first implies !in_ranges(ranges, i)
            && !restarts(ranges, i) by {
            lemma_between_ranges(ranges, start, end, k, i);
        }
        lemma_gap(signals, ranges, state, start, ranges[k - 1].end as int, first);
    } else {
        assert forall|i: int| start <= i < first implies !in_ranges(ranges, i) && !restarts(
            ranges,
            i,
        ) by {
            lemma_between_ranges(ranges, start, end, 0, i);
        }
        lemma_gap(signals, ranges, state, start, start, first);
        assert(signals.samples(ranges, state, start, start) == state);
        assert(before == initial);
    }
    // Its first sample.
    lemma_inside_range(ranges, start, end, k, first);
    let at_first = signals.samples(ranges, state, start, first);
    assert(signals.samples(ranges, state, start, first + 1) == signals.sample(
        ranges,
        at_first,
        first,
    ));
    assert(input.span(entered, first, first) == entered);
    assert(input.span(entered, first, first + 1) == input.step(entered, first));
    if first != input.skip {
        lemma_settled_step(signals, input, begin, first_reset, entered, first);
        assert(at_first.merge.dropped_if(restarts(ranges, first)) == signals.settled(
            begin,
            first_reset,
            entered,
        ));
    }
    lemma_inside_span(
        signals,
        input,
        ranges,
        start,
        end,
        k,
        state,
        begin,
        first_reset,
        entered,
        first + 1,
        ranges[k].end as int,
    );
}

/// Scanning a window word by word and merging its fragment yields what decoding its samples one
/// by one yields.
pub proof fn law_window_is_sample_by_sample(
    signals: Signals,
    sequence: u64,
    start: int,
    end: int,
    ranges: Seq<EnabledRange>,
    state: SampleState,
)
    requires
        0 <= start < end,
        ranges_in_window(ranges, start, end),
        ranges.len() > 0 && ranges[0].start > start ==> ranges[0].reset_before,
    ensures
        signals.window(sequence, start, end, ranges, state) == signals.samples(
            ranges,
            state,
            start,
            end,
        ),
{
    let fragment = signals.fragment(sequence, start, end, ranges);
    assert(fragment.boundary == signals.fragment(0, start, end, ranges).boundary);
    let last = if ranges.len() == 0 {
        start
    } else {
        ranges.last().end as int
    };
    assert forall|i: int| last <= i < end implies !in_ranges(ranges, i) && !restarts(ranges, i) by {
        lemma_between_ranges(ranges, start, end, ranges.len() as int, i);
    }
    lemma_gap(signals, ranges, state, start, last, end);
    if ranges.len() > 0 {
        lemma_range_end(signals, ranges, start, end, state, ranges.len() - 1);
    } else {
        assert(signals.samples(ranges, state, start, start) == state);
    }
}

proof fn lemma_samples_compose(
    signals: Signals,
    ranges: Seq<EnabledRange>,
    part: Seq<EnabledRange>,
    state: SampleState,
    from: int,
    mid: int,
    to: int,
)
    requires
        from <= mid <= to,
        forall|i: int|
            mid <= i < to ==> in_ranges(ranges, i) == in_ranges(part, i) && restarts(ranges, i)
                == restarts(part, i),
    ensures
        signals.samples(ranges, state, from, to) == signals.samples(
            part,
            signals.samples(ranges, state, from, mid),
            mid,
            to,
        ),
    decreases to - mid,
{
    if mid < to {
        lemma_samples_compose(signals, ranges, part, state, from, mid, to - 1);
    }
}

/// Splitting a window into two preserves edges, dropped words and partial words: decoding the two
/// parts in turn yields what decoding the whole yields.
pub proof fn law_window_splits(
    signals: Signals,
    sequence: u64,
    start: int,
    split: int,
    end: int,
    ranges: Seq<EnabledRange>,
    first: Seq<EnabledRange>,
    second: Seq<EnabledRange>,
    state: SampleState,
)
    requires
        0 <= start < split < end,
        ranges_in_window(ranges, start, end),
        ranges_in_window(first, start, split),
        ranges_in_window(second, split, end),
        ranges.len() > 0 && ranges[0].start > start ==> ranges[0].reset_before,
        first.len() > 0 && first[0].start > start ==> first[0].reset_before,
        second.len() > 0 && second[0].start > split ==> second[0].reset_before,
        forall|i: int|
            start <= i < split ==> in_ranges(ranges, i) == in_ranges(first, i) && restarts(ranges, i)
                == restarts(first, i),
        forall|i: int|
            split <= i < end ==> in_ranges(ranges, i) == in_ranges(second, i) && restarts(ranges, i)
                == restarts(second, i),
    ensures
        signals.window(
            (sequence + 1) as u64,
            split,
            end,
            second,
            signals.window(sequence, start, split, first, state),
        ) == signals.window(sequence, start, end, ranges, state),
{
    law_window_is_sample_by_sample(signals, sequence, start, end, ranges, state);
    law_window_is_sample_by_sample(signals, sequence, start, split, first, state);
    let middle = signals.window(sequence, start, split, first, state);
    law_window_is_sample_by_sample(signals, (sequence + 1) as u64, split, end, second, middle);
    lemma_samples_compose(signals, ranges, first, state, start, start, split);
    lemma_samples_compose(signals, ranges, second, state, start, split, end);
    assert(signals.samples(ranges, state, start, start) == state);
}

/// Merging the fragments of two parts of a window one after the other leaves the same partial word
/// and the same strobe level as merging the fragment of the whole window, and the words of the two
/// are those of the whole.
pub proof fn law_split_fragments_merge_as_one(
    signals: Signals,
    sequence: u64,
    start: int,
    split: int,
    end: int,
    ranges: Seq<EnabledRange>,
    first: Seq<EnabledRange>,
    second: Seq<EnabledRange>,
    assembly: AssemblyState,
    previous: bool,
)
    requires
        0 <= start < split < end,
        ranges_in_window(ranges, start, end),
        ranges_in_window(first, start, split),
        ranges_in_window(second, split, end),
        ranges.len() > 0 && ranges[0].start > start ==> ranges[0].reset_before,
        first.len() > 0 && first[0].start > start ==> first[0].reset_before,
        second.len() > 0 && second[0].start > split ==> second[0].reset_before,
        forall|i: int|
            start <= i < split ==> in_ranges(ranges, i) == in_ranges(first, i) && restarts(ranges, i)
                == restarts(first, i),
        forall|i: int|
            split <= i < end ==> in_ranges(ranges, i) == in_ranges(second, i) && restarts(ranges, i)
                == restarts(second, i),
    ensures
        ({
            let mode = signals.config.mode;
            let whole = signals.fragment(sequence, start, end, ranges);
            let one = signals.fragment(sequence, start, split, first);
            let two = signals.fragment((sequence + 1) as u64, split, end, second);
            let fresh = MergeState { assembly, words: Seq::empty() };
            let at_once = fresh.merged_fragment(signals.format, mode, previous, whole);
            let before = fresh.merged_fragment(signals.format, mode, previous, one);
            let after = MergeState {
                assembly: before.assembly,
                words: Seq::empty(),
            }.merged_fragment(signals.format, mode, one.last_strobe_value, two);
            &&& after.assembly == at_once.assembly
            &&& before.words + after.words == at_once.words
            &&& before.words.len() + after.words.len() == at_once.words.len()
            &&& two.last_strobe_value == whole.last_strobe_value
        }),
{
    let mode = signals.config.mode;
    let fresh = MergeState { assembly, words: Seq::empty() };
    let state = SampleState { previous, merge: fresh };
    law_window_splits(signals, sequence, start, split, end, ranges, first, second, state);
    let one = signals.fragment(sequence, start, split, first);
    let two = signals.fragment((sequence + 1) as u64, split, end, second);
    let before = fresh.merged_fragment(signals.format, mode, previous, one);
    let emptied = MergeState { assembly: before.assembly, words: Seq::empty() };
    law_fragment_appends_words(
        emptied,
        before.words,
        signals.format,
        mode,
        one.last_strobe_value,
        two,
    );
    assert(emptied.behind(before.words) =~= before);
}

/// A window that is enabled throughout, in one stretch.
pub open spec fn enabled_throughout(start: int, end: int) -> Seq<EnabledRange> {
    seq![EnabledRange { start: start as usize, end: end as usize, reset_before: false }]
}

/// A window that is enabled throughout can be split anywhere: the two fragments, merged one after
/// the other, yield the words, the partial word and the strobe level that the fragment of the
/// whole window yields.
pub proof fn law_enabled_window_splits(
    signals: Signals,
    sequence: u64,
    start: int,
    split: int,
    end: int,
    assembly: AssemblyState,
    previous: bool,
)
    requires
        0 <= start < split < end <= usize::MAX,
    ensures
        ({
            let mode = signals.config.mode;
            let whole = signals.fragment(sequence, start, end, enabled_throughout(start, end));
            let one = signals.fragment(sequence, start, split, enabled_throughout(start, split));
            let two = signals.fragment(
                (sequence + 1) as u64,
                split,
                end,
                enabled_throughout(split, end),
            );
            let fresh = MergeState { assembly, words: Seq::empty() };
            let at_once = fresh.merged_fragment(signals.format, mode, previous, whole);
            let before = fresh.merged_fragment(signals.format, mode, previous, one);
            let after = MergeState {
                assembly: before.assembly,
                words: Seq::empty(),
            }.merged_fragment(signals.format, mode, one.last_strobe_value, two);
            &&& after.assembly == at_once.assembly
            &&& before.words + after.words == at_once.words
            &&& before.words.len() + after.words.len() == at_once.words.len()
            &&& two.last_strobe_value == whole.last_strobe_value
        }),
{
    let ranges = enabled_throughout(start, end);
    let first = enabled_throughout(start, split);
    let second = enabled_throughout(split, end);
    assert forall|i: int| start <= i < split implies in_ranges(ranges, i) == in_ranges(first, i)
        && restarts(ranges, i) == restarts(first, i) by {
        assert(ranges[0].start <= i < ranges[0].end && first[0].start <= i < first[0].end);
    }
    assert forall|i: int| split <= i < end implies in_ranges(ranges, i) == in_ranges(second, i)
        && restarts(ranges, i) == restarts(second, i) by {
        assert(ranges[0].start <= i < ranges[0].end && second[0].start <= i < second[0].end);
    }
    law_split_fragments_merge_as_one(
        signals,
        sequence,
        start,
        split,
        end,
        ranges,
        first,
        second,
        assembly,
        previous,
    );
}

} // verus!
