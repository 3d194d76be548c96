//! Index-driven decoding: triggers found by edge search, signals point-read at each trigger.

use vstd::prelude::*;

use crate::bits::{lemma_word_ops, saturating_mul, spec_saturating_mul, word_bit};
use crate::digital::CsPolarity;
use crate::parallel_decoder::merge::{AssemblyState, MergeState, WordFormat};
use crate::parallel_decoder::scan::cs_passes;
use crate::parallel_decoder::types::StrobeMode;
use crate::streams::{CaptureTransition, Sample, Word};

verus! {

/// Most triggers that one batch of the index-driven path takes in.
pub const QUERY_TRIGGERS_PER_CALL: usize = 65_536;

/// Tells whether the strobe triggers at the very first sample; the level before it counts as low.
pub fn first_sample_triggers(mode: StrobeMode, level: bool) -> (result: bool)
    requires
        mode.on_edges(),
    ensures
        result == mode.triggers(false, level),
{
    match mode {
        StrobeMode::RisingEdge | StrobeMode::AnyEdge => level,
        _ => false,
    }
}

/// Triggers that a batch may still take from the edge search.
pub open spec fn triggers_left(triggered_at_start: bool) -> int {
    if triggered_at_start {
        QUERY_TRIGGERS_PER_CALL - 1
    } else {
        QUERY_TRIGGERS_PER_CALL as int
    }
}

/// Number of strobe edges to search for in one batch: one per trigger, or two where only every
/// other edge triggers.
pub fn edge_budget(mode: StrobeMode, triggered_at_start: bool) -> (result: usize)
    requires
        mode.on_edges(),
    ensures
        result == triggers_left(triggered_at_start) * (if mode is AnyEdge {
            1int
        } else {
            2int
        }),
{
    let remaining: usize = if triggered_at_start {
        QUERY_TRIGGERS_PER_CALL - 1
    } else {
        QUERY_TRIGGERS_PER_CALL
    };
    match mode {
        StrobeMode::AnyEdge => remaining,
        _ => remaining * 2,
    }
}

/// Whether an edge to `value` triggers.
pub open spec fn edge_triggers(mode: StrobeMode, value: bool) -> bool {
    mode.triggers(!value, value)
}

/// Positions of the triggering edges among the first `count`.
pub open spec fn edge_positions(mode: StrobeMode, edges: Seq<CaptureTransition>, count: nat) -> Seq<u64>
    decreases count,
{
    if count == 0 {
        Seq::empty()
    } else {
        let before = edge_positions(mode, edges, (count - 1) as nat);
        if edge_triggers(mode, edges[count - 1].value) {
            before.push(edges[count - 1].sample)
        } else {
            before
        }
    }
}

/// The part of a sequence that fits in `limit`.
pub open spec fn at_most(positions: Seq<u64>, limit: int) -> Seq<u64> {
    if positions.len() <= limit {
        positions
    } else {
        positions.take(limit)
    }
}

/// Trigger positions of one batch: the very first sample where it triggers, then the triggering
/// edges, up to the batch's limit.
pub open spec fn batch_positions(
    mode: StrobeMode,
    triggered_at_start: bool,
    edges: Seq<CaptureTransition>,
) -> Seq<u64> {
    (if triggered_at_start {
        seq![0u64]
    } else {
        Seq::empty()
    }) + at_most(edge_positions(mode, edges, edges.len()), triggers_left(triggered_at_start))
}

/// Collects the trigger positions of one batch.
pub fn trigger_positions(mode: StrobeMode, triggered_at_start: bool, edges: &[CaptureTransition]) -> (result:
    Vec<u64>)
    requires
        mode.on_edges(),
    ensures
        result@ == batch_positions(mode, triggered_at_start, edges@),
{
    let mut positions: Vec<u64> = Vec::new();
    if triggered_at_start {
        positions.push(0);
    }
    let ghost head = positions@;
    let ghost limit = triggers_left(triggered_at_start);
    let mut index: usize = 0;
    assert(positions@ =~= head + Seq::empty());
    while index < edges.len()
        invariant
            index <= edges@.len(),
            mode.on_edges(),
            head.len() == if triggered_at_start {
                1int
            } else {
                0int
            },
            limit == triggers_left(triggered_at_start),
            positions@ == head + at_most(edge_positions(mode, edges@, index as nat), limit),
        decreases edges@.len() - index,
    {
        let edge: CaptureTransition = edges[index];
        let triggers: bool = match mode {
            StrobeMode::RisingEdge => edge.value,
            StrobeMode::FallingEdge => !edge.value,
            _ => true,
        };
        let ghost before = edge_positions(mode, edges@, index as nat);
        let ghost after = edge_positions(mode, edges@, (index + 1) as nat);
        if triggers && positions.len() < QUERY_TRIGGERS_PER_CALL {
            positions.push(edge.sample);
            assert(at_most(after, limit) == at_most(before, limit).push(edge.sample));
            assert(positions@ =~= head + at_most(after, limit));
        } else {
            assert(at_most(after, limit) =~= at_most(before, limit));
        }
        index += 1;
    }
    assert(head =~= if triggered_at_start {
        seq![0u64]
    } else {
        Seq::empty()
    });
    positions
}

/// Enable level of the index-driven path, and the time up to which it is known to hold.
#[derive(Debug, Clone, Copy, PartialEq, Eq, Structural)]
pub struct EnableState {
    pub current: bool,
    pub next_change_position: u64,
}

/// The enable signal as far as it is known for one batch of triggers.
pub enum TriggerEnable<'a> {
    /// Nothing is connected: always enabled.
    Unconnected,
    /// Read from an index: one level per trigger, and whether the signal was low somewhere since
    /// the trigger before.
    Indexed { values: &'a [bool], cuts: &'a [bool] },
    /// Level changes received so far, and whether more can follow.
    Streamed { queued: &'a [Sample], closed: bool },
}

/// Number of received changes used up once those not after `timestamp_ns` are.
pub open spec fn passed(queued: Seq<Sample>, from: int, timestamp_ns: u64) -> int
    decreases queued.len() - from,
{
    if 0 <= from < queued.len() && queued[from].start_time_ns <= timestamp_ns {
        passed(queued, from + 1, timestamp_ns)
    } else {
        from
    }
}

/// Progress through the triggers of one batch.
#[verifier::ext_equal]
pub struct TriggerState {
    /// Triggers that pass, each with whether a partial word is dropped before it.
    pub eligible: Seq<(u64, bool)>,
    pub pending: bool,
    pub enable: EnableState,
    pub consumed: int,
}

/// Whether one of the received changes `from..to` is a change to low.
pub open spec fn low_among(queued: Seq<Sample>, from: int, to: int) -> bool {
    exists|j: int| from <= j < to && !(#[trigger] queued[j]).value
}

/// The enable level at a trigger, and whether the level was low since the trigger before; `None`
/// where the next level change has to be received first.
pub open spec fn enable_at_trigger(
    enable: TriggerEnable,
    state: EnableState,
    consumed: int,
    timestamp_ns: u64,
    index: int,
) -> Option<(EnableState, int, bool)> {
    match enable {
        TriggerEnable::Unconnected => Some((state, consumed, false)),
        TriggerEnable::Indexed { values, cuts } => Some(
            (EnableState { current: values@[index], ..state }, consumed, cuts@[index]),
        ),
        TriggerEnable::Streamed { queued, closed } => if timestamp_ns < state.next_change_position {
            Some((state, consumed, !state.current))
        } else {
            let next = passed(queued@, consumed, timestamp_ns);
            let current = if next > consumed {
                queued@[next - 1].value
            } else {
                state.current
            };
            let cut = !state.current || low_among(queued@, consumed, next);
            if next < queued@.len() {
                Some(
                    (
                        EnableState {
                            current,
                            next_change_position: queued@[next].start_time_ns,
                        },
                        next,
                        cut,
                    ),
                )
            } else if closed {
                Some((EnableState { current, next_change_position: u64::MAX }, next, cut))
            } else {
                None
            }
        },
    }
}

/// What is known of chip select at the triggers of one batch: its polarity, its level at each
/// trigger, and whether it was closed somewhere since the trigger before.
pub struct CsAt {
    pub polarity: CsPolarity,
    pub values: Seq<bool>,
    pub cuts: Seq<bool>,
}

impl CsAt {
    /// Whether chip select is open at trigger `index`.
    pub open spec fn opens(self, index: int) -> bool {
        self.polarity is Disabled || cs_passes(self.polarity, self.values[index])
    }

    /// Whether chip select was closed between trigger `index` and the trigger before.
    pub open spec fn cuts(self, index: int) -> bool {
        !(self.polarity is Disabled) && self.cuts[index]
    }
}

/// One trigger: chip select is looked at first, then the enable level. A gate that is closed, or
/// was since the trigger before, drops the partial word.
pub open spec fn trigger_step(
    state: TriggerState,
    position: u64,
    cs: CsAt,
    enable: TriggerEnable,
    timestamp_step: u64,
    index: int,
) -> Option<TriggerState> {
    if !cs.opens(index) {
        Some(TriggerState { pending: true, ..state })
    } else {
        match enable_at_trigger(
            enable,
            state.enable,
            state.consumed,
            spec_saturating_mul(position as int, timestamp_step as int) as u64,
            index,
        ) {
            None => None,
            Some((next, consumed, cut)) => Some(
                if next.current {
                    TriggerState {
                        eligible: state.eligible.push(
                            (position, state.pending || cs.cuts(index) || cut),
                        ),
                        pending: false,
                        enable: next,
                        consumed,
                    }
                } else {
                    TriggerState {
                        eligible: state.eligible,
                        pending: true,
                        enable: next,
                        consumed,
                    }
                },
            ),
        }
    }
}

/// The first `count` triggers.
pub open spec fn trigger_steps(
    initial: TriggerState,
    positions: Seq<u64>,
    cs: CsAt,
    enable: TriggerEnable,
    timestamp_step: u64,
    count: nat,
) -> Option<TriggerState>
    decreases count,
{
    if count == 0 {
        Some(initial)
    } else {
        match trigger_steps(
            initial,
            positions,
            cs,
            enable,
            timestamp_step,
            (count - 1) as nat,
        ) {
            None => None,
            Some(state) => trigger_step(
                state,
                positions[count - 1],
                cs,
                enable,
                timestamp_step,
                count - 1,
            ),
        }
    }
}

/// The state before the first trigger of a batch; an unconnected enable holds for good.
pub open spec fn initial_triggers(enable: TriggerEnable, state: EnableState) -> TriggerState {
    TriggerState {
        eligible: Seq::empty(),
        pending: false,
        enable: if enable is Unconnected {
            EnableState { current: true, next_change_position: u64::MAX }
        } else {
            state
        },
        consumed: 0,
    }
}

/// The triggers of one batch that pass chip select and enable.
#[derive(Debug)]
pub struct GatedTriggers {
    pub positions: Vec<u64>,
    pub reset_before: Vec<bool>,
    /// A partial word is dropped after the batch.
    pub reset_after: bool,
    pub enable: EnableState,
    /// Number of received level changes that the batch used up.
    pub consumed: usize,
}

impl GatedTriggers {
    pub open spec fn wf(self) -> bool {
        self.positions@.len() == self.reset_before@.len()
    }
}

impl View for GatedTriggers {
    type V = TriggerState;

    open spec fn view(&self) -> TriggerState {
        TriggerState {
            eligible: Seq::new(
                self.positions@.len(),
                |i: int| (self.positions@[i], self.reset_before@[i]),
            ),
            pending: self.reset_after,
            enable: self.enable,
            consumed: self.consumed as int,
        }
    }
}

/// Applies chip select and enable to the triggers of one batch, before any data is read. Returns
/// `None` where the next level change of a streamed enable has to be received first; nothing is
/// used up then.
pub fn gate_triggers(
    positions: &[u64],
    cs_polarity: CsPolarity,
    cs_values: &[bool],
    cs_cuts: &[bool],
    enable: TriggerEnable<'_>,
    state: EnableState,
    timestamp_step: u64,
) -> (result: Option<GatedTriggers>)
    requires
        cs_polarity is Disabled || (cs_values@.len() == positions@.len() && cs_cuts@.len()
            == positions@.len()),
        enable matches TriggerEnable::Indexed { values, cuts } ==> values@.len() == positions@.len()
            && cuts@.len() == positions@.len(),
    ensures
        ({
            let steps = trigger_steps(
                initial_triggers(enable, state),
                positions@,
                CsAt { polarity: cs_polarity, values: cs_values@, cuts: cs_cuts@ },
                enable,
                timestamp_step,
                positions@.len(),
            );
            match result {
                Some(gated) => gated.wf() && Some(gated@) == steps,
                None => steps is None,
            }
        }),
        result matches Some(gated) ==> gated.positions@.len() <= positions@.len(),
{
    let mut gated = GatedTriggers {
        positions: Vec::new(),
        reset_before: Vec::new(),
        reset_after: false,
        enable: match enable {
            TriggerEnable::Unconnected => EnableState {
                current: true,
                next_change_position: u64::MAX,
            },
            _ => state,
        },
        consumed: 0,
    };
    let ghost initial = initial_triggers(enable, state);
    let ghost cs = CsAt { polarity: cs_polarity, values: cs_values@, cuts: cs_cuts@ };
    assert(gated@ =~= initial);
    let mut index: usize = 0;
    while index < positions.len()
        invariant
            index <= positions@.len(),
            gated.wf(),
            initial == initial_triggers(enable, state),
            cs == (CsAt { polarity: cs_polarity, values: cs_values@, cuts: cs_cuts@ }),
            gated.positions@.len() <= index,
            cs_polarity is Disabled || (cs_values@.len() == positions@.len() && cs_cuts@.len()
                == positions@.len()),
            enable matches TriggerEnable::Indexed { values, cuts } ==> values@.len()
                == positions@.len() && cuts@.len() == positions@.len(),
            enable matches TriggerEnable::Streamed { queued, .. } ==> gated.consumed
                <= queued@.len(),
            Some(gated@) == trigger_steps(
                initial,
                positions@,
                cs,
                enable,
                timestamp_step,
                index as nat,
            ),
        decreases positions@.len() - index,
    {
        let position: u64 = positions[index];
        let cs_active: bool = match cs_polarity {
            CsPolarity::ActiveLow => !cs_values[index],
            CsPolarity::ActiveHigh => cs_values[index],
            CsPolarity::Disabled => true,
        };
        let ghost before = gated@;
        let ghost step = trigger_step(before, position, cs, enable, timestamp_step, index as int);
        if !cs_active {
            gated.reset_after = true;
            assert(gated@ =~= step->0);
        } else {
            let mut cut: bool = match cs_polarity {
                CsPolarity::Disabled => false,
                _ => cs_cuts[index],
            };
            let timestamp_ns: u64 = saturating_mul(position, timestamp_step);
            match enable {
                TriggerEnable::Unconnected => {},
                TriggerEnable::Indexed { values, cuts } => {
                    gated.enable.current = values[index];
                    cut = cut || cuts[index];
                },
                TriggerEnable::Streamed { queued, closed } => {
                    cut = cut || !gated.enable.current;
                    if timestamp_ns >= gated.enable.next_change_position {
                        let ghost first = gated.consumed as int;
                        let ghost cut_before = cut;
                        let mut next: usize = gated.consumed;
                        let mut current: bool = gated.enable.current;
                        while next < queued.len() && queued[next].start_time_ns <= timestamp_ns
                            invariant
                                first <= next <= queued@.len(),
                                0 <= first,
                                passed(queued@, first, timestamp_ns) == passed(
                                    queued@,
                                    next as int,
                                    timestamp_ns,
                                ),
                                current == if next > first {
                                    queued@[next - 1].value
                                } else {
                                    gated.enable.current
                                },
                                cut == (cut_before || low_among(queued@, first, next as int)),
                            decreases queued@.len() - next,
                        {
                            current = queued[next].value;
                            proof {
                                lemma_low_among_next(queued@, first, next as int);
                            }
                            cut = cut || !current;
                            next += 1;
                        }
                        if next < queued.len() {
                            gated.enable = EnableState {
                                current,
                                next_change_position: queued[next].start_time_ns,
                            };
                        } else if closed {
                            gated.enable = EnableState { current, next_change_position: u64::MAX };
                        } else {
                            proof {
                                assert(step is None);
                                lemma_steps_stop(
                                    initial,
                                    positions@,
                                    cs,
                                    enable,
                                    timestamp_step,
                                    (index + 1) as nat,
                                    positions@.len(),
                                );
                            }
                            return None;
                        }
                        gated.consumed = next;
                    }
                },
            }
            if !gated.enable.current {
                gated.reset_after = true;
                assert(gated@ =~= step->0);
            } else {
                gated.positions.push(position);
                let reset: bool = gated.reset_after || cut;
                gated.reset_before.push(reset);
                gated.reset_after = false;
                assert(gated@.eligible =~= before.eligible.push((position, reset)));
                assert(gated@ =~= step->0);
            }
        }
        index += 1;
    }
    Some(gated)
}

proof fn lemma_low_among_next(queued: Seq<Sample>, from: int, next: int)
    requires
        from <= next,
    ensures
        low_among(queued, from, next + 1) == (low_among(queued, from, next) || !queued[next].value),
{
    if low_among(queued, from, next) {
        let j = choose|j: int| from <= j < next && !(#[trigger] queued[j]).value;
        assert(!queued[j].value);
    }
    if low_among(queued, from, next + 1) && queued[next].value {
        let j = choose|j: int| from <= j < next + 1 && !(#[trigger] queued[j]).value;
        assert(j < next);
    }
}

proof fn lemma_steps_stop(
    initial: TriggerState,
    positions: Seq<u64>,
    cs: CsAt,
    enable: TriggerEnable,
    timestamp_step: u64,
    stopped: nat,
    count: nat,
)
    requires
        stopped <= count,
        trigger_steps(initial, positions, cs, enable, timestamp_step, stopped) is None,
    ensures
        trigger_steps(initial, positions, cs, enable, timestamp_step, count) is None,
    decreases count,
{
    if stopped < count {
        lemma_steps_stop(
            initial,
            positions,
            cs,
            enable,
            timestamp_step,
            stopped,
            (count - 1) as nat,
        );
    }
}

/// Bus value at trigger `index`: bit `k` is the level that data channel `k` had there.
pub open spec fn channel_value(channels: Seq<Vec<bool>>, count: nat, index: int) -> u64
    decreases count,
{
    if count == 0 {
        0
    } else {
        let before = channel_value(channels, (count - 1) as nat, index);
        if channels[count - 1]@[index] {
            before | (1u64 << ((count - 1) as u64))
        } else {
            before
        }
    }
}

/// Bit `j` of the bus value is the level of data channel `j`; higher bits are zero.
pub proof fn lemma_channel_value(channels: Seq<Vec<bool>>, count: nat, index: int, j: int)
    requires
        count <= channels.len(),
        count <= 64,
        0 <= j < 64,
    ensures
        word_bit(channel_value(channels, count, index), j) == (j < count && channels[j]@[index]),
    decreases count,
{
    if count == 0 {
        lemma_word_ops(0, 0, j);
    } else {
        lemma_channel_value(channels, (count - 1) as nat, index, j);
        let before = channel_value(channels, (count - 1) as nat, index);
        lemma_word_ops(before, 1u64 << ((count - 1) as u64), j);
        crate::bits::lemma_single_bit(count - 1, j);
    }
}

/// The eligible triggers with their bus values.
pub open spec fn trigger_items(eligible: Seq<(u64, bool)>, channels: Seq<Vec<bool>>) -> Seq<
    (u64, u64, bool),
> {
    Seq::new(
        eligible.len(),
        |i: int| (eligible[i].0, channel_value(channels, channels.len(), i), eligible[i].1),
    )
}

/// Assembles the eligible triggers of one batch into words, in the order of their positions.
/// `channels` holds, for each data line, its level at each eligible trigger. Returns the number
/// of completed words; the words themselves go to `word_batch`, where there is one.
pub fn assemble_triggers(
    gated: &GatedTriggers,
    channels: &[Vec<bool>],
    format: WordFormat,
    timestamp_step: u64,
    assembly: &mut AssemblyState,
    word_batch: &mut Option<Vec<Word>>,
) -> (words_emitted: u64)
    requires
        gated.wf(),
        format.wf(),
        old(assembly).wf(format),
        channels@.len() <= 64,
        forall|k: int|
            0 <= k < channels@.len() ==> (#[trigger] channels@[k])@.len() == gated.positions@.len(),
    ensures
        words_emitted <= gated.positions@.len(),
        final(assembly).wf(format),
        final(word_batch).is_some() == old(word_batch).is_some(),
        ({
            let items = trigger_items(gated@.eligible, channels@);
            let merged = MergeState { assembly: *old(assembly), words: Seq::empty() }.merged_items(
                format,
                timestamp_step,
                items,
                false,
                items.len(),
            ).dropped_if(gated.reset_after);
            &&& *final(assembly) == merged.assembly
            &&& words_emitted == merged.words.len()
            &&& old(word_batch).is_some() ==> final(word_batch).unwrap()@ == old(word_batch).unwrap()@ + merged.words
        }),
{
    let ghost start = MergeState { assembly: *assembly, words: Seq::<Word>::empty() };
    let ghost items = trigger_items(gated@.eligible, channels@);
    let ghost batch_before = word_batch.unwrap()@;
    let ghost mut state = start;
    let mut words_emitted: u64 = 0;
    let mut index: usize = 0;
    assert(batch_before + Seq::<Word>::empty() =~= batch_before);
    while index < gated.positions.len()
        invariant
            index <= gated.positions@.len(),
            gated.wf(),
            format.wf(),
            assembly.wf(format),
            channels@.len() <= 64,
            forall|k: int|
                0 <= k < channels@.len() ==> (#[trigger] channels@[k])@.len()
                    == gated.positions@.len(),
            items == trigger_items(gated@.eligible, channels@),
            state == start.merged_items(format, timestamp_step, items, false, index as nat),
            *assembly == state.assembly,
            words_emitted == state.words.len(),
            words_emitted <= index,
            word_batch.is_some() == old(word_batch).is_some(),
            word_batch.is_some() ==> word_batch.unwrap()@ == batch_before + state.words,
        decreases gated.positions@.len() - index,
    {
        let reset: bool = gated.reset_before[index];
        if reset {
            assembly.reset();
        }
        let position: u64 = gated.positions[index];
        let timestamp_ns: u64 = saturating_mul(position, timestamp_step);
        let mut value: u64 = 0;
        let mut bit: usize = 0;
        while bit < channels.len()
            invariant
                bit <= channels@.len() <= 64,
                index < gated.positions@.len(),
                forall|k: int|
                    0 <= k < channels@.len() ==> (#[trigger] channels@[k])@.len()
                        == gated.positions@.len(),
                value == channel_value(channels@, bit as nat, index as int),
            decreases channels@.len() - bit,
        {
            if channels[bit][index] {
                value = value | (1u64 << (bit as u64));
            }
            bit += 1;
        }
        let ghost next = state.dropped_if(reset).merged(format, timestamp_step, position, value);
        proof {
            assert(items[index as int] == (position, value, reset));
        }
        if let Some(word) = assembly.add_cycle(format, timestamp_ns, value) {
            if let Some(batch) = word_batch {
                batch.push(word);
            }
            assert((batch_before + state.words).push(word) =~= batch_before + next.words);
            words_emitted += 1;
        }
        proof {
            state = next;
        }
        index += 1;
    }
    if gated.reset_after {
        assembly.reset();
    }
    words_emitted
}

} // verus!
