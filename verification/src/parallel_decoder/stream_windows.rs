//! The windows of a stream of blocks: which they are, and what they come to.

use vstd::prelude::*;

use crate::parallel_decoder::decoder::{ParallelDecoder, STREAM_SAMPLES_PER_CALL};
use crate::parallel_decoder::enable_feed::{
    feed_at, law_feed_decodes_as_its_levels, law_window_follows_feed,
    law_window_is_gated_in_one_way, EnableFeed,
};
use crate::parallel_decoder::gate::EnableWindow;
use crate::parallel_decoder::parallel_order::merged_in_turn;
use crate::parallel_decoder::recorded_model::{progress_of, recorded_enable};
use crate::parallel_decoder::sample_model::Signals;
use crate::parallel_decoder::scan::scanned_fragment;
use crate::parallel_decoder::streamed_model::{
    block_part, law_streamed_run, signals_part, window_fragments, windows_end, windows_follow,
    StreamedWindow,
};
use crate::parallel_decoder::types::{EnabledRange, FragmentView};
use crate::streams::SampleBlock;

verus! {

/// Aligned blocks of all raw inputs.
pub struct BlockSet {
    pub strobe: SampleBlock,
    pub data: Seq<SampleBlock>,
    pub cs: Option<SampleBlock>,
}

impl BlockSet {
    /// The blocks as signals that a decoder decodes.
    pub open spec fn signals(self, decoder: ParallelDecoder) -> Signals {
        Signals {
            format: decoder.word_format(),
            config: decoder.scan_config(),
            strobe: self.strobe,
            data: self.data,
            cs: self.cs,
        }
    }

    /// End of the window that begins at sample `start`.
    pub open spec fn window_end(self, start: int) -> int {
        if start + STREAM_SAMPLES_PER_CALL < self.strobe.num_samples {
            start + STREAM_SAMPLES_PER_CALL
        } else {
            self.strobe.num_samples as int
        }
    }

    /// The fragment of one of its windows.
    pub open spec fn fragment(self, decoder: ParallelDecoder, sequence: u64, window: FedWindow) -> FragmentView {
        scanned_fragment(
            decoder.scan_config(),
            sequence,
            self.strobe,
            self.data,
            self.cs,
            window.start,
            window.end,
            window.ranges,
        )
    }
}

/// One window of a stream of blocks: the number of its blocks, its samples in them, its enabled
/// stretches, and the enable level and the number of used-up changes behind it.
pub struct FedWindow {
    pub block: int,
    pub start: int,
    pub end: int,
    pub ranges: Seq<EnabledRange>,
    pub level: bool,
    pub used: int,
}

/// Where the next window begins behind the first `count` windows: the number of its blocks, and
/// its first sample in them.
pub open spec fn next_place(blocks: Seq<BlockSet>, windows: Seq<FedWindow>, count: int) -> (int, int) {
    if count == 0 {
        (0, 0)
    } else {
        let last = windows[count - 1];
        if last.end == blocks[last.block].strobe.num_samples {
            (last.block + 1, 0)
        } else {
            (last.block, last.end)
        }
    }
}

/// The enable level behind the first `count` windows.
pub open spec fn level_behind_windows(initial: bool, windows: Seq<FedWindow>, count: int) -> bool {
    if count == 0 {
        initial
    } else {
        windows[count - 1].level
    }
}

/// How many received changes the first `count` windows use up.
pub open spec fn used_by_windows(windows: Seq<FedWindow>, count: int) -> int {
    if count == 0 {
        0
    } else {
        windows[count - 1].used
    }
}

/// Whether a window is what gating makes of it.
pub open spec fn window_gated(
    blocks: Seq<BlockSet>,
    feed: EnableFeed,
    used: int,
    level: bool,
    window: FedWindow,
    gated: EnableWindow,
) -> bool {
    &&& feed.gates(
        used,
        level,
        blocks[window.block].strobe,
        window.start,
        window.end,
        gated,
    )
    &&& window.ranges == gated.ranges@
    &&& window.level == gated.current
    &&& window.used == used + gated.consumed
}

/// Whether window `k` is the one that follows those before it.
pub open spec fn window_follows(
    blocks: Seq<BlockSet>,
    feed: EnableFeed,
    initial: bool,
    windows: Seq<FedWindow>,
    k: int,
) -> bool {
    let (block, start) = next_place(blocks, windows, k);
    let window = windows[k];
    &&& 0 <= block < blocks.len()
    &&& window.block == block
    &&& window.start == start
    &&& start < blocks[block].strobe.num_samples
    &&& window.end == blocks[block].window_end(start)
    &&& exists|gated: EnableWindow| #[trigger]
        window_gated(
            blocks,
            feed,
            used_by_windows(windows, k),
            level_behind_windows(initial, windows, k),
            window,
            gated,
        )
}

/// Whether some windows are the first windows of a stream of blocks.
pub open spec fn fed_in_turn(
    blocks: Seq<BlockSet>,
    feed: EnableFeed,
    initial: bool,
    windows: Seq<FedWindow>,
) -> bool {
    forall|k: int| 0 <= k < windows.len() ==> #[trigger] window_follows(
        blocks,
        feed,
        initial,
        windows,
        k,
    )
}

/// Whether some windows reach the end of the blocks.
pub open spec fn fed_whole(blocks: Seq<BlockSet>, windows: Seq<FedWindow>) -> bool {
    next_place(blocks, windows, windows.len() as int) == (blocks.len() as int, 0int)
}

/// The fragments of the windows of a stream, numbered from zero on.
pub open spec fn fed_fragments(
    decoder: ParallelDecoder,
    blocks: Seq<BlockSet>,
    windows: Seq<FedWindow>,
) -> Seq<FragmentView> {
    Seq::new(
        windows.len(),
        |k: int| blocks[windows[k].block].fragment(decoder, k as u64, windows[k]),
    )
}

/// One more window.
pub proof fn lemma_window_added(
    blocks: Seq<BlockSet>,
    feed: EnableFeed,
    initial: bool,
    windows: Seq<FedWindow>,
    window: FedWindow,
    gated: EnableWindow,
)
    requires
        fed_in_turn(blocks, feed, initial, windows),
        ({
            let count = windows.len() as int;
            let (block, start) = next_place(blocks, windows, count);
            &&& 0 <= block < blocks.len()
            &&& window.block == block
            &&& window.start == start
            &&& start < blocks[block].strobe.num_samples
            &&& window.end == blocks[block].window_end(start)
            &&& window_gated(
                blocks,
                feed,
                used_by_windows(windows, count),
                level_behind_windows(initial, windows, count),
                window,
                gated,
            )
        }),
    ensures
        fed_in_turn(blocks, feed, initial, windows.push(window)),
{
    let more = windows.push(window);
    assert forall|k: int| 0 <= k < more.len() implies #[trigger] window_follows(
        blocks,
        feed,
        initial,
        more,
        k,
    ) by {
        assert(next_place(blocks, more, k) == next_place(blocks, windows, k));
        assert(used_by_windows(more, k) == used_by_windows(windows, k));
        assert(level_behind_windows(initial, more, k) == level_behind_windows(
            initial,
            windows,
            k,
        ));
        if k < windows.len() {
            assert(window_follows(blocks, feed, initial, windows, k));
            assert(more[k] == windows[k]);
        } else {
            assert(more[k] == window);
            assert(window_gated(
                blocks,
                feed,
                used_by_windows(more, k),
                level_behind_windows(initial, more, k),
                more[k],
                gated,
            ));
        }
    }
}

proof fn lemma_window_in_blocks(
    blocks: Seq<BlockSet>,
    feed: EnableFeed,
    initial: bool,
    windows: Seq<FedWindow>,
    k: int,
)
    requires
        fed_in_turn(blocks, feed, initial, windows),
        0 <= k < windows.len(),
    ensures
        0 <= windows[k].block < blocks.len(),
        0 <= windows[k].start < windows[k].end <= blocks[windows[k].block].strobe.num_samples,
    decreases k,
{
    assert(window_follows(blocks, feed, initial, windows, k));
    if k > 0 {
        lemma_window_in_blocks(blocks, feed, initial, windows, k - 1);
    }
}

/// More blocks do not change the windows of the blocks before them.
pub proof fn lemma_blocks_added(
    blocks: Seq<BlockSet>,
    set: BlockSet,
    feed: EnableFeed,
    initial: bool,
    windows: Seq<FedWindow>,
)
    requires
        fed_in_turn(blocks, feed, initial, windows),
    ensures
        fed_in_turn(blocks.push(set), feed, initial, windows),
        next_place(blocks.push(set), windows, windows.len() as int) == next_place(
            blocks,
            windows,
            windows.len() as int,
        ),
        forall|decoder: ParallelDecoder| #[trigger]
            fed_fragments(decoder, blocks.push(set), windows) == fed_fragments(
                decoder,
                blocks,
                windows,
            ),
{
    let more = blocks.push(set);
    assert forall|k: int| 0 <= k < windows.len() implies #[trigger] window_follows(
        more,
        feed,
        initial,
        windows,
        k,
    ) by {
        assert(window_follows(blocks, feed, initial, windows, k));
        lemma_window_in_blocks(blocks, feed, initial, windows, k);
        if k > 0 {
            lemma_window_in_blocks(blocks, feed, initial, windows, k - 1);
        }
        let gated = choose|gated: EnableWindow| #[trigger]
            window_gated(
                blocks,
                feed,
                used_by_windows(windows, k),
                level_behind_windows(initial, windows, k),
                windows[k],
                gated,
            );
        assert(window_gated(
            more,
            feed,
            used_by_windows(windows, k),
            level_behind_windows(initial, windows, k),
            windows[k],
            gated,
        ));
    }
    if windows.len() > 0 {
        lemma_window_in_blocks(blocks, feed, initial, windows, windows.len() - 1);
    }
    assert forall|decoder: ParallelDecoder| #[trigger]
        fed_fragments(decoder, more, windows) == fed_fragments(decoder, blocks, windows) by {
        assert forall|k: int| 0 <= k < windows.len() implies fed_fragments(
            decoder,
            more,
            windows,
        )[k] == fed_fragments(decoder, blocks, windows)[k] by {
            lemma_window_in_blocks(blocks, feed, initial, windows, k);
        }
        assert(fed_fragments(decoder, more, windows) =~= fed_fragments(decoder, blocks, windows));
    }
}

proof fn lemma_same_window(
    blocks: Seq<BlockSet>,
    feed: EnableFeed,
    initial: bool,
    one: Seq<FedWindow>,
    other: Seq<FedWindow>,
    k: int,
)
    requires
        fed_in_turn(blocks, feed, initial, one),
        fed_in_turn(blocks, feed, initial, other),
        0 <= k < one.len(),
        k < other.len(),
    ensures
        one[k] == other[k],
    decreases k,
{
    if k > 0 {
        lemma_same_window(blocks, feed, initial, one, other, k - 1);
    }
    assert(window_follows(blocks, feed, initial, one, k));
    assert(window_follows(blocks, feed, initial, other, k));
    let used = used_by_windows(one, k);
    let level = level_behind_windows(initial, one, k);
    let first = choose|gated: EnableWindow| #[trigger]
        window_gated(blocks, feed, used, level, one[k], gated);
    let second = choose|gated: EnableWindow| #[trigger]
        window_gated(blocks, feed, used, level, other[k], gated);
    law_window_is_gated_in_one_way(
        feed,
        used,
        level,
        blocks[one[k].block].strobe,
        one[k].start,
        one[k].end,
        first,
        second,
    );
}

/// A stream of blocks has one list of windows: two readers that go through all of it see the same.
pub proof fn law_stream_has_one_list_of_windows(
    blocks: Seq<BlockSet>,
    feed: EnableFeed,
    initial: bool,
    one: Seq<FedWindow>,
    other: Seq<FedWindow>,
)
    requires
        fed_in_turn(blocks, feed, initial, one),
        fed_in_turn(blocks, feed, initial, other),
        fed_whole(blocks, one),
        fed_whole(blocks, other),
    ensures
        one == other,
{
    let count = if one.len() < other.len() {
        one.len() as int
    } else {
        other.len() as int
    };
    assert forall|k: int| 0 <= k < count implies one[k] == other[k] by {
        lemma_same_window(blocks, feed, initial, one, other, k);
    }
    if one.len() < other.len() {
        assert(window_follows(blocks, feed, initial, other, count));
        assert(next_place(blocks, one, count) == next_place(blocks, other, count));
    }
    if other.len() < one.len() {
        assert(window_follows(blocks, feed, initial, one, count));
        assert(next_place(blocks, one, count) == next_place(blocks, other, count));
    }
    assert(one =~= other);
}

/// The first sample of each set of blocks, counted from the start of the stream.
pub open spec fn block_start(blocks: Seq<BlockSet>, count: int) -> int
    decreases count,
{
    if count <= 0 {
        0
    } else {
        block_start(blocks, count - 1) + blocks[count - 1].strobe.num_samples
    }
}

/// Whether some blocks hold signals from their first sample on, one set behind the other.
pub open spec fn blocks_hold(decoder: ParallelDecoder, blocks: Seq<BlockSet>, signals: Signals) -> bool {
    forall|k: int|
        0 <= k < blocks.len() ==> {
            &&& (#[trigger] blocks[k]).strobe.start_position == block_start(blocks, k)
            &&& signals_part(
                blocks[k].signals(decoder),
                signals,
                blocks[k].strobe.num_samples as int,
            )
        }
}

/// The windows of a stream with the signals of their blocks.
spec fn with_signals(decoder: ParallelDecoder, blocks: Seq<BlockSet>, windows: Seq<FedWindow>) -> Seq<
    StreamedWindow,
> {
    Seq::new(
        windows.len(),
        |k: int|
            StreamedWindow {
                signals: blocks[windows[k].block].signals(decoder),
                sequence: k as u64,
                start: windows[k].start,
                end: windows[k].end,
                ranges: windows[k].ranges,
            },
    )
}

proof fn lemma_block_starts_grow(blocks: Seq<BlockSet>, first: int, second: int)
    requires
        0 <= first <= second <= blocks.len(),
    ensures
        0 <= block_start(blocks, first) <= block_start(blocks, second),
    decreases second,
{
    if first < second {
        lemma_block_starts_grow(blocks, first, second - 1);
    } else if first > 0 {
        lemma_block_starts_grow(blocks, first - 1, first - 1);
    }
}

proof fn lemma_shorter_part(part: Signals, whole: Signals, len: int, end: int)
    requires
        signals_part(part, whole, len),
        end <= len,
    ensures
        signals_part(part, whole, end),
{
    let at = part.strobe.start_position as int;
    assert forall|k: int| 0 <= k < part.data.len() implies block_part(
        #[trigger] part.data[k],
        whole.data[k],
        at,
        end,
    ) by {
        assert(block_part(part.data[k], whole.data[k], at, len));
    }
}

/// The windows follow each other, and each is gated as the enable signal says.
proof fn lemma_windows_belong(
    decoder: ParallelDecoder,
    blocks: Seq<BlockSet>,
    feed: EnableFeed,
    initial: bool,
    levels: Seq<bool>,
    signals: Signals,
    windows: Seq<FedWindow>,
    k: int,
)
    requires
        fed_in_turn(blocks, feed, initial, windows),
        blocks_hold(decoder, blocks, signals),
        block_start(blocks, blocks.len() as int) <= levels.len(),
        feed.tells(initial, levels, signals.strobe.timestamp_step),
        signals.format.cycles_per_word > 1 ==> feed.drops_around_low(
            initial,
            signals.strobe.timestamp_step,
            levels.len() as int,
        ),
        0 <= k < windows.len(),
    ensures
        ({
            let step = signals.strobe.timestamp_step;
            let window = with_signals(decoder, blocks, windows)[k];
            let (block, start) = next_place(blocks, windows, k + 1);
            &&& window.belongs(signals, feed.gate(initial, step))
            &&& window.from() == if k == 0 {
                0
            } else {
                with_signals(decoder, blocks, windows)[k - 1].to()
            }
            &&& feed_at(feed, initial, step, windows[k].used, windows[k].level, window.to())
            &&& 0 <= block <= blocks.len()
            &&& window.to() == block_start(blocks, block) + start
        }),
    decreases k,
{
    let step = signals.strobe.timestamp_step;
    assert(window_follows(blocks, feed, initial, windows, k));
    lemma_window_in_blocks(blocks, feed, initial, windows, k);
    let window = windows[k];
    let set = blocks[window.block];
    let used = used_by_windows(windows, k);
    let level = level_behind_windows(initial, windows, k);
    let shown = with_signals(decoder, blocks, windows)[k];
    assert(set.strobe.start_position == block_start(blocks, window.block));
    lemma_block_starts_grow(blocks, window.block + 1, blocks.len() as int);
    lemma_shorter_part(
        set.signals(decoder),
        signals,
        set.strobe.num_samples as int,
        window.end,
    );
    if k > 0 {
        lemma_windows_belong(
            decoder,
            blocks,
            feed,
            initial,
            levels,
            signals,
            windows,
            k - 1,
        );
    } else {
        assert(block_start(blocks, 0) == 0);
    }
    let gated = choose|gated: EnableWindow| #[trigger]
        window_gated(blocks, feed, used, level, window, gated);
    law_window_follows_feed(
        feed,
        initial,
        levels,
        used,
        level,
        set.strobe,
        window.start,
        window.end,
        gated,
    );
}

/// A stream of blocks, decoded window by window, yields what its signals yield sample by sample,
/// where its enable signal has some levels.
pub proof fn law_windows_decode_stream(
    decoder: ParallelDecoder,
    blocks: Seq<BlockSet>,
    feed: EnableFeed,
    levels: Seq<bool>,
    signals: Signals,
    windows: Seq<FedWindow>,
)
    requires
        decoder.wf(),
        !decoder.last_strobe_value,
        decoder.assembly == decoder.assembly.dropped(),
        signals.config == decoder.scan_config(),
        signals.format == decoder.word_format(),
        fed_in_turn(blocks, feed, decoder.enable.current, windows),
        fed_whole(blocks, windows),
        blocks_hold(decoder, blocks, signals),
        block_start(blocks, blocks.len() as int) == levels.len(),
        feed.tells(decoder.enable.current, levels, signals.strobe.timestamp_step),
        signals.format.cycles_per_word > 1 ==> feed.drops_around_low(
            decoder.enable.current,
            signals.strobe.timestamp_step,
            levels.len() as int,
        ),
    ensures
        merged_in_turn(decoder, fed_fragments(decoder, blocks, windows), windows.len()).words
            == signals.points(
            recorded_enable(levels),
            progress_of(decoder, Seq::empty()),
            0,
            levels.len() as int,
        ).words,
{
    let initial = decoder.enable.current;
    let step = signals.strobe.timestamp_step;
    let gate = feed.gate(initial, step);
    let shown = with_signals(decoder, blocks, windows);
    let count = windows.len();
    assert forall|k: int| 0 <= k < count implies (#[trigger] shown[k]).belongs(signals, gate)
        && shown[k].from() == (if k == 0 {
        0
    } else {
        shown[k - 1].to()
    }) by {
        lemma_windows_belong(
            decoder,
            blocks,
            feed,
            initial,
            levels,
            signals,
            windows,
            k,
        );
    }
    if count > 0 {
        lemma_windows_belong(
            decoder,
            blocks,
            feed,
            initial,
            levels,
            signals,
            windows,
            count - 1,
        );
    } else {
        assert(block_start(blocks, 0) == 0);
    }
    assert(windows_follow(shown));
    assert(windows_end(shown, count) == levels.len());
    law_streamed_run(decoder, signals, gate, shown, count);
    law_feed_decodes_as_its_levels(
        feed,
        initial,
        levels,
        signals,
        progress_of(decoder, Seq::empty()),
    );
    assert(window_fragments(shown) =~= fed_fragments(decoder, blocks, windows));
}

} // verus!
