//! Decoding recorded signals, which can be read anywhere.

use vstd::prelude::*;

use crate::digital::CsPolarity;
use crate::parallel_decoder::decoder::ParallelDecoder;
use crate::parallel_decoder::gate::{
    enabled_ranges_for_window, gated, EnableInput, EnableScan, EnableWindow,
};
use crate::parallel_decoder::indexed::{
    batch_positions, channel_value, edge_budget, edge_positions, first_sample_triggers,
    gate_triggers, initial_triggers, trigger_items, trigger_positions, trigger_steps,
    triggers_left, CsAt, GatedTriggers, TriggerEnable, TriggerState, QUERY_TRIGGERS_PER_CALL,
};
use crate::parallel_decoder::merge::MergeState;
use crate::parallel_decoder::types::{ranges_in_window, StrobeMode};
use crate::streams::{CaptureTransition, Sample, Word};
use crate::text::owned;

verus! {

/// Why a recorded signal could not be read.
#[derive(Debug, PartialEq, Eq)]
pub struct QueryError {
    pub reason: String,
}

/// Changes of a signal after sample `from` and before sample `end`.
pub open spec fn changes_between(levels: Seq<bool>, from: int, end: int) -> Seq<CaptureTransition>
    decreases end - from,
{
    if end <= from + 1 {
        Seq::empty()
    } else if levels[end - 1] != levels[end - 2] {
        changes_between(levels, from, end - 1).push(
            CaptureTransition { sample: (end - 1) as u64, value: levels[end - 1] },
        )
    } else {
        changes_between(levels, from, end - 1)
    }
}

/// The first `most` changes of a signal after sample `from` and before sample `limit`.
pub open spec fn next_changes(levels: Seq<bool>, from: int, limit: int, most: int) -> Seq<
    CaptureTransition,
> {
    let changes = changes_between(
        levels,
        from,
        if limit < levels.len() {
            limit
        } else {
            levels.len() as int
        },
    );
    if changes.len() <= most {
        changes
    } else {
        changes.take(most)
    }
}

/// The levels of a signal at some samples.
pub open spec fn levels_at(levels: Seq<bool>, samples: Seq<u64>) -> Seq<bool> {
    Seq::new(samples.len(), |i: int| levels[samples[i] as int])
}

/// Whether all of some samples lie in a signal.
pub open spec fn samples_within(samples: Seq<u64>, len: int) -> bool {
    forall|i: int| 0 <= i < samples.len() ==> (#[trigger] samples[i]) < len
}

/// A recorded signal that can be read anywhere.
pub trait EdgeQuery {
    /// The level of every sample.
    open spec fn levels(&self) -> Seq<bool> {
        Seq::empty()
    }

    /// Whether reading a sample that there is never fails.
    open spec fn readable(&self) -> bool {
        false
    }

    /// Number of samples.
    fn total_samples(&self) -> (result: u64)
        ensures
            result == self.levels().len(),
    ;

    /// The level of one sample.
    fn value_at(&self, sample: u64) -> (result: Result<bool, QueryError>)
        ensures
            result matches Ok(level) ==> sample < self.levels().len() && level
                == self.levels()[sample as int],
            self.readable() && sample < self.levels().len() ==> result is Ok,
    ;

    /// The levels of some samples.
    fn values_at(&self, samples: &[u64]) -> (result: Result<Vec<bool>, QueryError>)
        ensures
            result matches Ok(values) ==> samples_within(samples@, self.levels().len() as int)
                && values@ == levels_at(self.levels(), samples@),
            self.readable() && samples_within(samples@, self.levels().len() as int)
                ==> result is Ok,
    ;

    /// Up to `most` changes after sample `from` and before sample `limit`, in order.
    fn next_edges(&self, from: u64, limit: u64, most: usize) -> (result: Result<
        Vec<CaptureTransition>,
        QueryError,
    >)
        ensures
            result matches Ok(edges) ==> edges@ == next_changes(
                self.levels(),
                from as int,
                limit as int,
                most as int,
            ),
            self.readable() ==> result is Ok,
    ;
}

/// A recorded signal in memory.
#[derive(Debug, PartialEq, Eq)]
pub struct RecordedSignal {
    pub levels: Vec<bool>,
}

proof fn lemma_changes_prefix(levels: Seq<bool>, from: int, mid: int, end: int)
    requires
        mid <= end,
    ensures
        changes_between(levels, from, mid).len() <= changes_between(levels, from, end).len(),
        forall|i: int|
            0 <= i < changes_between(levels, from, mid).len() ==> changes_between(
                levels,
                from,
                mid,
            )[i] == #[trigger] changes_between(levels, from, end)[i],
    decreases end - mid,
{
    if mid < end {
        lemma_changes_prefix(levels, from, mid, end - 1);
    }
}

fn missing_sample() -> QueryError {
    QueryError { reason: owned("sample lies behind the end of the signal") }
}

impl EdgeQuery for RecordedSignal {
    open spec fn levels(&self) -> Seq<bool> {
        self.levels@
    }

    open spec fn readable(&self) -> bool {
        true
    }

    fn total_samples(&self) -> (result: u64) {
        self.levels.len() as u64
    }

    fn value_at(&self, sample: u64) -> (result: Result<bool, QueryError>) {
        if sample < self.levels.len() as u64 {
            Ok(self.levels[sample as usize])
        } else {
            Err(missing_sample())
        }
    }

    fn values_at(&self, samples: &[u64]) -> (result: Result<Vec<bool>, QueryError>) {
        let mut values: Vec<bool> = Vec::new();
        let mut index: usize = 0;
        while index < samples.len()
            invariant
                index <= samples@.len(),
                samples_within(samples@.take(index as int), self.levels@.len() as int),
                values@ == levels_at(self.levels@, samples@.take(index as int)),
            decreases samples@.len() - index,
        {
            let sample: u64 = samples[index];
            if sample >= self.levels.len() as u64 {
                assert(samples@[index as int] >= self.levels@.len());
                return Err(missing_sample());
            }
            values.push(self.levels[sample as usize]);
            proof {
                let taken = samples@.take(index as int);
                let next = samples@.take(index + 1);
                assert(next =~= taken.push(sample));
                assert(levels_at(self.levels@, next) =~= levels_at(self.levels@, taken).push(
                    self.levels@[sample as int],
                ));
            }
            index += 1;
        }
        assert(samples@.take(index as int) =~= samples@);
        Ok(values)
    }

    fn next_edges(&self, from: u64, limit: u64, most: usize) -> (result: Result<
        Vec<CaptureTransition>,
        QueryError,
    >) {
        let total: usize = self.levels.len();
        let end: usize = if limit < total as u64 {
            limit as usize
        } else {
            total
        };
        let mut edges: Vec<CaptureTransition> = Vec::new();
        if from >= end as u64 {
            return Ok(edges);
        }
        let mut sample: usize = from as usize + 1;
        while sample < end && edges.len() < most
            invariant
                from < sample <= end <= self.levels@.len(),
                edges@ == changes_between(self.levels@, from as int, sample as int),
                edges@.len() <= most,
            decreases end - sample,
        {
            let value: bool = self.levels[sample];
            if value != self.levels[sample - 1] {
                edges.push(CaptureTransition { sample: sample as u64, value });
            }
            sample += 1;
        }
        proof {
            lemma_changes_prefix(self.levels@, from as int, sample as int, end as int);
            let all = changes_between(self.levels@, from as int, end as int);
            if sample < end {
                assert(edges@ =~= all.take(most as int));
                if all.len() <= most {
                    assert(all.take(most as int) =~= all);
                }
            }
        }
        Ok(edges)
    }
}

/// Bus value at a sample: bit `k` is the level that data line `k` has there.
pub open spec fn recorded_value(data: Seq<Seq<bool>>, count: nat, sample: int) -> u64
    decreases count,
{
    if count == 0 {
        0
    } else {
        let before = recorded_value(data, (count - 1) as nat, sample);
        if data[count - 1][sample] {
            before | (1u64 << ((count - 1) as u64))
        } else {
            before
        }
    }
}

/// Triggers that pass, with the bus values there.
pub open spec fn recorded_items(data: Seq<Seq<bool>>, eligible: Seq<(u64, bool)>) -> Seq<
    (u64, u64, bool),
> {
    Seq::new(
        eligible.len(),
        |i: int|
            (eligible[i].0, recorded_value(data, data.len(), eligible[i].0 as int), eligible[i].1),
    )
}

proof fn lemma_recorded_value(
    data: Seq<Seq<bool>>,
    channels: Seq<Vec<bool>>,
    count: nat,
    sample: int,
    index: int,
)
    requires
        count <= data.len(),
        forall|k: int| 0 <= k < count ==> #[trigger] channels[k]@[index] == data[k][sample],
    ensures
        channel_value(channels, count, index) == recorded_value(data, count, sample),
    decreases count,
{
    if count > 0 {
        lemma_recorded_value(data, channels, (count - 1) as nat, sample, index);
        assert(channels[count - 1]@[index] == data[count - 1][sample]);
    }
}

/// The levels of the recorded signals of a bus.
pub struct BusLevels {
    pub strobe: Seq<bool>,
    pub data: Seq<Seq<bool>>,
    pub cs: Option<Seq<bool>>,
}

/// The recorded signals of a bus as levels.
pub open spec fn bus_levels<Q: EdgeQuery>(strobe: &Q, data: Seq<Q>, cs: Option<&Q>) -> BusLevels {
    BusLevels {
        strobe: strobe.levels(),
        data: Seq::new(data.len(), |k: int| data[k].levels()),
        cs: match cs {
            Some(signal) => Some(signal.levels()),
            None => None,
        },
    }
}

/// Where the enable signal of a recorded bus comes from.
pub enum EnableSource<'a, Q> {
    /// Nothing is connected: always enabled.
    Unconnected,
    /// It is recorded too.
    Recorded(&'a Q),
    /// Level changes received so far, and whether more can follow.
    Streamed { queued: &'a [Sample], closed: bool },
}

/// The first sample behind the trigger before trigger `index`; `start` before the first trigger.
pub open spec fn gap_start(start: int, triggers: Seq<u64>, index: int) -> int {
    if index == 0 {
        start
    } else {
        triggers[index - 1] + 1
    }
}

/// Whether a signal has left a level somewhere in `from..to`.
pub open spec fn leaves_level(levels: Seq<bool>, active: bool, from: int, to: int) -> bool {
    exists|i: int| from <= i < to && #[trigger] levels[i] != active
}

/// For each trigger at which a signal has its active level, whether it has left it since the
/// trigger before. Where words have one cycle there is no partial word that this could drop, and
/// it is not asked.
pub open spec fn cuts_at(
    levels: Seq<bool>,
    active: bool,
    start: int,
    triggers: Seq<u64>,
    asked: bool,
) -> Seq<bool> {
    Seq::new(
        triggers.len(),
        |k: int|
            asked && levels[triggers[k] as int] == active && leaves_level(
                levels,
                active,
                gap_start(start, triggers, k),
                triggers[k] as int,
            ),
    )
}

/// Whether `known` is what an enable signal says at some triggers behind sample `start`.
pub open spec fn enable_known<Q: EdgeQuery>(
    enable: EnableSource<Q>,
    start: int,
    triggers: Seq<u64>,
    asked: bool,
    known: TriggerEnable,
) -> bool {
    match enable {
        EnableSource::Unconnected => known is Unconnected,
        EnableSource::Recorded(signal) => {
            &&& known matches TriggerEnable::Indexed { values, cuts }
            &&& values@ == levels_at(signal.levels(), triggers)
            &&& cuts@ == cuts_at(signal.levels(), true, start, triggers, asked)
        },
        EnableSource::Streamed { queued, closed } => known == (TriggerEnable::Streamed {
            queued,
            closed,
        }),
    }
}

/// Whether reading the signals of a bus cannot fail.
pub open spec fn bus_readable<Q: EdgeQuery>(
    strobe: &Q,
    data: Seq<Q>,
    cs: Option<&Q>,
    enable: EnableSource<Q>,
) -> bool {
    let len = strobe.levels().len();
    &&& len > 0
    &&& strobe.readable()
    &&& forall|k: int|
        0 <= k < data.len() ==> (#[trigger] data[k]).readable() && len <= data[k].levels().len()
    &&& cs matches Some(signal) ==> signal.readable() && len <= signal.levels().len()
    &&& enable matches EnableSource::Recorded(signal) ==> signal.readable() && len
        <= signal.levels().len()
}

/// How a batch of a recorded bus ends.
#[derive(Debug, Clone, Copy, PartialEq, Eq, Structural)]
pub enum RecordedOutcome {
    /// The next level change of a streamed enable has to be received first.
    NeedMore,
    /// The batch is decoded. It used up `consumed` level changes of a streamed enable, and was
    /// the last where the strobe has no further edges.
    Decoded { words_emitted: u64, consumed: usize, exhausted: bool },
}

/// Why a batch of a recorded bus is not decoded.
#[derive(Debug, PartialEq, Eq)]
pub enum RecordedError {
    Query(QueryError),
    /// Chip select matters and is not recorded.
    MissingChipSelect,
}

/// What the search for the next batch of triggers found.
struct FoundTriggers {
    edges: Vec<CaptureTransition>,
    positions: Vec<u64>,
    /// The strobe has no further edges.
    exhausted: bool,
}

proof fn lemma_changes_leave_level(levels: Seq<bool>, active: bool, from: int, to: int)
    requires
        0 <= from,
        from <= to < levels.len(),
        levels[to] == active,
    ensures
        leaves_level(levels, active, from, to) == (changes_between(levels, from, to + 1).len() > 0),
    decreases to - from,
{
    if from < to {
        if levels[to - 1] == active {
            lemma_changes_leave_level(levels, active, from, to - 1);
            if leaves_level(levels, active, from, to - 1) {
                let i = choose|i: int| from <= i < to - 1 && #[trigger] levels[i] != active;
                assert(levels[i] != active);
            }
            if leaves_level(levels, active, from, to) {
                let i = choose|i: int| from <= i < to && #[trigger] levels[i] != active;
                assert(from <= i < to - 1 && levels[i] != active);
            }
        } else {
            assert(from <= to - 1 < to && levels[to - 1] != active);
        }
    }
}

/// Tells of each trigger at which a signal has its active level whether the signal has left it
/// since the trigger before.
fn read_cuts<Q: EdgeQuery>(
    signal: &Q,
    active: bool,
    start: u64,
    triggers: &[u64],
    values: &[bool],
    asked: bool,
) -> (result: Result<Vec<bool>, QueryError>)
    requires
        samples_within(triggers@, signal.levels().len() as int),
        values@ == levels_at(signal.levels(), triggers@),
    ensures
        result matches Ok(cuts) ==> cuts@ == cuts_at(
            signal.levels(),
            active,
            start as int,
            triggers@,
            asked,
        ),
        signal.readable() ==> result is Ok,
{
    let total: u64 = signal.total_samples();
    let ghost levels = signal.levels();
    let mut cuts: Vec<bool> = Vec::new();
    let mut index: usize = 0;
    while index < triggers.len()
        invariant
            index <= triggers@.len(),
            levels == signal.levels(),
            total == levels.len(),
            samples_within(triggers@, levels.len() as int),
            values@ == levels_at(levels, triggers@),
            cuts@.len() == index,
            forall|k: int|
                0 <= k < index ==> #[trigger] cuts@[k] == cuts_at(
                    levels,
                    active,
                    start as int,
                    triggers@,
                    asked,
                )[k],
        decreases triggers@.len() - index,
    {
        let trigger: u64 = triggers[index];
        assert(triggers@[index as int] < levels.len());
        let from: u64 = if index == 0 {
            start
        } else {
            assert(triggers@[index - 1] < levels.len());
            triggers[index - 1] + 1
        };
        let mut cut: bool = false;
        if asked && values[index] == active && from < trigger {
            match signal.next_edges(from, trigger + 1, 1) {
                Ok(edges) => {
                    cut = edges.len() > 0;
                },
                Err(error) => return Err(error),
            }
            proof {
                lemma_changes_leave_level(levels, active, from as int, trigger as int);
            }
        }
        cuts.push(cut);
        index += 1;
    }
    assert(cuts@ =~= cuts_at(levels, active, start as int, triggers@, asked));
    Ok(cuts)
}

fn read_lines<Q: EdgeQuery>(data: &[Q], samples: &[u64]) -> (result: Result<
    Vec<Vec<bool>>,
    QueryError,
>)
    ensures
        result matches Ok(channels) ==> {
            &&& channels@.len() == data@.len()
            &&& forall|k: int|
                0 <= k < data@.len() ==> (#[trigger] channels@[k])@ == levels_at(
                    data@[k].levels(),
                    samples@,
                )
        },
        (forall|k: int|
            0 <= k < data@.len() ==> (#[trigger] data@[k]).readable() && samples_within(
                samples@,
                data@[k].levels().len() as int,
            )) ==> result is Ok,
{
    let mut channels: Vec<Vec<bool>> = Vec::new();
    let mut line: usize = 0;
    while line < data.len()
        invariant
            line <= data@.len(),
            channels@.len() == line,
            forall|k: int|
                0 <= k < line ==> (#[trigger] channels@[k])@ == levels_at(
                    data@[k].levels(),
                    samples@,
                ),
        decreases data@.len() - line,
    {
        match data[line].values_at(samples) {
            Ok(values) => channels.push(values),
            Err(error) => {
                assert(!(data@[line as int].readable() && samples_within(
                    samples@,
                    data@[line as int].levels().len() as int,
                )));
                return Err(error);
            },
        }
        line += 1;
    }
    Ok(channels)
}

proof fn lemma_recorded_items(data: Seq<Seq<bool>>, channels: Seq<Vec<bool>>, gated: GatedTriggers)
    requires
        gated.wf(),
        channels.len() == data.len(),
        forall|k: int|
            0 <= k < data.len() ==> (#[trigger] channels[k])@ == levels_at(
                data[k],
                gated.positions@,
            ),
    ensures
        trigger_items(gated@.eligible, channels) == recorded_items(data, gated@.eligible),
        forall|k: int|
            0 <= k < channels.len() ==> (#[trigger] channels[k])@.len() == gated.positions@.len(),
{
    let eligible = gated@.eligible;
    assert forall|i: int| 0 <= i < eligible.len() implies channel_value(
        channels,
        channels.len(),
        i,
    ) == recorded_value(data, data.len(), #[trigger] eligible[i].0 as int) by {
        assert forall|k: int| 0 <= k < data.len() implies #[trigger] channels[k]@[i]
            == data[k][eligible[i].0 as int] by {
            assert(channels[k]@ == levels_at(data[k], gated.positions@));
        }
        lemma_recorded_value(data, channels, data.len(), eligible[i].0 as int, i);
    }
    assert(trigger_items(eligible, channels) =~= recorded_items(data, eligible));
}

impl ParallelDecoder {
    /// Whether the next batch begins with a trigger at the very first sample.
    pub open spec fn triggered_at_start(self, strobe: Seq<bool>) -> bool {
        self.query_strobe_position == 0 && self.mode.triggers(false, strobe[0])
    }

    /// Number of strobe edges that the next batch searches for.
    pub open spec fn edges_wanted(self, strobe: Seq<bool>) -> int {
        triggers_left(self.triggered_at_start(strobe)) * (if self.mode is AnyEdge {
            1int
        } else {
            2int
        })
    }

    /// The strobe edges of the next batch.
    pub open spec fn found_edges(self, strobe: Seq<bool>) -> Seq<CaptureTransition> {
        next_changes(
            strobe,
            self.query_strobe_position as int,
            strobe.len() as int,
            self.edges_wanted(strobe),
        )
    }

    /// The triggers of the next batch.
    pub open spec fn found_triggers(self, strobe: Seq<bool>) -> Seq<u64> {
        batch_positions(self.mode, self.triggered_at_start(strobe), self.found_edges(strobe))
    }

    /// The triggers of the next batch that pass chip select and enable.
    pub open spec fn passed_triggers(
        self,
        bus: BusLevels,
        known: TriggerEnable,
        timestamp_step: u64,
    ) -> Option<TriggerState> {
        let triggers = self.found_triggers(bus.strobe);
        trigger_steps(
            initial_triggers(known, self.enable),
            triggers,
            self.cs_at(bus, triggers),
            known,
            timestamp_step,
            triggers.len(),
        )
    }

    /// Whether words have several cycles, so that a word can be partial.
    pub open spec fn assembles(self) -> bool {
        self.cycles_per_word > 1
    }

    /// Chip select at some triggers of a recorded bus.
    pub open spec fn cs_at(self, bus: BusLevels, triggers: Seq<u64>) -> CsAt {
        if self.cs_polarity is Disabled {
            CsAt { polarity: self.cs_polarity, values: Seq::empty(), cuts: Seq::empty() }
        } else {
            CsAt {
                polarity: self.cs_polarity,
                values: levels_at(bus.cs->0, triggers),
                cuts: cuts_at(
                    bus.cs->0,
                    self.cs_polarity is ActiveHigh,
                    self.query_gate_position as int,
                    triggers,
                    self.assembles(),
                ),
            }
        }
    }

    /// What assembling the triggers that passed yields.
    pub open spec fn recorded_words(
        self,
        bus: BusLevels,
        gated: TriggerState,
        timestamp_step: u64,
    ) -> MergeState {
        let items = recorded_items(bus.data, gated.eligible);
        MergeState { assembly: self.assembly, words: Seq::empty() }.merged_items(
            self.word_format(),
            timestamp_step,
            items,
            false,
            items.len(),
        ).dropped_if(gated.pending)
    }

    /// The decoder behind a batch of a recorded bus.
    pub open spec fn after_batch(
        self,
        bus: BusLevels,
        gated: TriggerState,
        timestamp_step: u64,
    ) -> ParallelDecoder {
        let merged = self.recorded_words(bus, gated, timestamp_step);
        let edges = self.found_edges(bus.strobe);
        ParallelDecoder {
            assembly: merged.assembly,
            enable: gated.enable,
            total_words_emitted: (self.total_words_emitted + merged.words.len()) as u64,
            query_strobe_position: if edges.len() > 0 {
                edges.last().sample
            } else {
                self.query_strobe_position
            },
            query_gate_position: self.gates_known_to(bus.strobe),
            ..self
        }
    }

    /// The first sample at which the gates are still to be looked at behind the next batch.
    pub open spec fn gates_known_to(self, strobe: Seq<bool>) -> u64 {
        let triggers = self.found_triggers(strobe);
        if triggers.len() > 0 {
            (triggers.last() + 1) as u64
        } else {
            self.query_gate_position
        }
    }

    fn search<Q: EdgeQuery>(&self, strobe: &Q) -> (result: Result<FoundTriggers, QueryError>)
        requires
            self.mode.on_edges(),
        ensures
            result matches Ok(found) ==> {
                let levels = strobe.levels();
                &&& found.edges@ == self.found_edges(levels)
                &&& found.positions@ == self.found_triggers(levels)
                &&& found.exhausted == (self.found_edges(levels).len() < self.edges_wanted(levels))
                &&& found.positions@.len() <= QUERY_TRIGGERS_PER_CALL
                &&& samples_within(found.positions@, levels.len() as int)
            },
            strobe.readable() && strobe.levels().len() > 0 ==> result is Ok,
    {
        let position: u64 = self.query_strobe_position;
        let at_start: bool = if position == 0 {
            match strobe.value_at(0) {
                Ok(level) => first_sample_triggers(self.mode, level),
                Err(error) => return Err(error),
            }
        } else {
            false
        };
        let budget: usize = edge_budget(self.mode, at_start);
        let total: u64 = strobe.total_samples();
        let edges: Vec<CaptureTransition> = match strobe.next_edges(position, total, budget) {
            Ok(edges) => edges,
            Err(error) => return Err(error),
        };
        let positions: Vec<u64> = trigger_positions(self.mode, at_start, edges.as_slice());
        proof {
            lemma_found_within(*self, strobe.levels());
        }
        let exhausted: bool = edges.len() < budget;
        Ok(FoundTriggers { edges, positions, exhausted })
    }

    /// Decodes the next batch of a recorded bus: searches the strobe for triggers, reads chip
    /// select and enable there and looks whether they were closed in between, and reads the data
    /// lines only where both let a trigger pass. A batch that cannot be decoded changes nothing.
    pub fn work_indexed<Q: EdgeQuery>(
        &mut self,
        strobe: &Q,
        data: &[Q],
        cs: Option<&Q>,
        enable: EnableSource<'_, Q>,
        timestamp_step: u64,
        word_batch: &mut Option<Vec<Word>>,
    ) -> (result: Result<RecordedOutcome, RecordedError>)
        requires
            old(self).wf(),
            old(self).mode.on_edges(),
            data@.len() == old(self).num_data_bits,
            old(self).total_words_emitted + QUERY_TRIGGERS_PER_CALL <= u64::MAX,
        ensures
            final(self).wf(),
            final(word_batch).is_some() == old(word_batch).is_some(),
            ({
                let bus = bus_levels(strobe, data@, cs);
                let same = *final(self) == *old(self) && *final(word_batch) == *old(word_batch);
                match result {
                    Err(RecordedError::Query(_)) => same,
                    Err(RecordedError::MissingChipSelect) => same && cs is None
                        && !(old(self).cs_polarity is Disabled),
                    Ok(outcome) => {
                        &&& old(self).cs_polarity is Disabled || cs is Some
                        &&& exists|known: TriggerEnable| #[trigger]
                            enable_known(
                                enable,
                                old(self).query_gate_position as int,
                                old(self).found_triggers(bus.strobe),
                                old(self).assembles(),
                                known,
                            ) && match old(self).passed_triggers(bus, known, timestamp_step) {
                                None => same && outcome is NeedMore,
                                Some(gated) => {
                                    let merged = old(self).recorded_words(bus, gated, timestamp_step);
                                    &&& *final(self) == old(self).after_batch(bus, gated, timestamp_step)
                                    &&& outcome == (RecordedOutcome::Decoded {
                                        words_emitted: merged.words.len() as u64,
                                        consumed: gated.consumed as usize,
                                        exhausted: old(self).found_edges(bus.strobe).len()
                                            < old(self).edges_wanted(bus.strobe),
                                    })
                                    &&& merged.words.len() <= u64::MAX
                                    &&& old(word_batch).is_some() ==> final(word_batch).unwrap()@ == old(word_batch).unwrap()@ + merged.words
                                },
                            }
                    },
                }
            }),
            bus_readable(strobe, data@, cs, enable) ==> result is Ok || result == Err::<
                RecordedOutcome,
                RecordedError,
            >(RecordedError::MissingChipSelect),
    {
        let found: FoundTriggers = match self.search(strobe) {
            Ok(found) => found,
            Err(error) => return Err(RecordedError::Query(error)),
        };
        let ghost bus = bus_levels(strobe, data@, cs);
        let ghost before = *self;
        let positions: Vec<u64> = found.positions;
        let cs_values: Vec<bool> = match self.cs_polarity {
            CsPolarity::Disabled => Vec::new(),
            _ => match cs {
                Some(signal) => match signal.values_at(positions.as_slice()) {
                    Ok(values) => values,
                    Err(error) => return Err(RecordedError::Query(error)),
                },
                None => return Err(RecordedError::MissingChipSelect),
            },
        };
        let asked: bool = self.cycles_per_word > 1;
        let start: u64 = self.query_gate_position;
        let cs_cuts: Vec<bool> = match self.cs_polarity {
            CsPolarity::Disabled => Vec::new(),
            polarity => match cs {
                Some(signal) => match read_cuts(
                    signal,
                    matches!(polarity, CsPolarity::ActiveHigh),
                    start,
                    positions.as_slice(),
                    cs_values.as_slice(),
                    asked,
                ) {
                    Ok(cuts) => cuts,
                    Err(error) => return Err(RecordedError::Query(error)),
                },
                None => return Err(RecordedError::MissingChipSelect),
            },
        };
        let mut enable_values: Vec<bool> = Vec::new();
        let mut enable_cuts: Vec<bool> = Vec::new();
        if let EnableSource::Recorded(signal) = &enable {
            enable_values = match signal.values_at(positions.as_slice()) {
                Ok(values) => values,
                Err(error) => return Err(RecordedError::Query(error)),
            };
            enable_cuts = match read_cuts(
                *signal,
                true,
                start,
                positions.as_slice(),
                enable_values.as_slice(),
                asked,
            ) {
                Ok(cuts) => cuts,
                Err(error) => return Err(RecordedError::Query(error)),
            };
        }
        let known: TriggerEnable<'_> = match enable {
            EnableSource::Unconnected => TriggerEnable::Unconnected,
            EnableSource::Recorded(_) => TriggerEnable::Indexed {
                values: enable_values.as_slice(),
                cuts: enable_cuts.as_slice(),
            },
            EnableSource::Streamed { queued, closed } => TriggerEnable::Streamed { queued, closed },
        };
        let ghost shown = known;
        assert(enable_known(
            enable,
            start as int,
            before.found_triggers(bus.strobe),
            asked,
            shown,
        ));
        let ghost cs_at = CsAt {
            polarity: before.cs_polarity,
            values: cs_values@,
            cuts: cs_cuts@,
        };
        proof {
            let spoken = before.cs_at(bus, positions@);
            assert(cs_at.values =~= spoken.values && cs_at.cuts =~= spoken.cuts);
        }
        let gated: GatedTriggers = match gate_triggers(
            positions.as_slice(),
            self.cs_polarity,
            cs_values.as_slice(),
            cs_cuts.as_slice(),
            known,
            self.enable,
            timestamp_step,
        ) {
            Some(gated) => gated,
            None => return Ok(RecordedOutcome::NeedMore),
        };
        proof {
            let eligible = gated@.eligible;
            lemma_passed_within(
                initial_triggers(shown, before.enable),
                positions@,
                cs_at,
                shown,
                timestamp_step,
                positions@.len(),
                bus.strobe.len() as int,
            );
            assert forall|i: int| 0 <= i < gated.positions@.len() implies (
            #[trigger] gated.positions@[i]) < bus.strobe.len() by {
                assert(eligible[i].0 == gated.positions@[i]);
            }
        }
        let channels: Vec<Vec<bool>> = match read_lines(data, gated.positions.as_slice()) {
            Ok(channels) => channels,
            Err(error) => return Err(RecordedError::Query(error)),
        };
        proof {
            lemma_recorded_items(bus.data, channels@, gated);
        }
        let words_emitted: u64 = self.work_indexed_batch(
            &gated,
            channels.as_slice(),
            found.edges.as_slice(),
            timestamp_step,
            word_batch,
        );
        let count: usize = positions.len();
        if count > 0 {
            let total: u64 = strobe.total_samples();
            assert(positions@[count - 1] < total);
            self.query_gate_position = positions[count - 1] + 1;
        }
        let exhausted: bool = found.exhausted;
        Ok(RecordedOutcome::Decoded { words_emitted, consumed: gated.consumed, exhausted })
    }
}

pub proof fn lemma_found_within(decoder: ParallelDecoder, strobe: Seq<bool>)
    requires
        decoder.query_strobe_position == 0 ==> strobe.len() > 0,
        strobe.len() <= u64::MAX,
    ensures
        samples_within(decoder.found_triggers(strobe), strobe.len() as int),
{
    let edges = decoder.found_edges(strobe);
    let position = decoder.query_strobe_position as int;
    lemma_changes_within(strobe, position, strobe.len() as int);
    lemma_edge_positions_within(decoder.mode, edges, edges.len(), strobe.len() as int);
}

pub proof fn lemma_changes_within(levels: Seq<bool>, from: int, end: int)
    requires
        0 <= from,
        end <= levels.len() <= u64::MAX,
    ensures
        forall|i: int|
            0 <= i < changes_between(levels, from, end).len() ==> from < (
            #[trigger] changes_between(levels, from, end)[i]).sample < end,
    decreases end - from,
{
    if end > from + 1 {
        lemma_changes_within(levels, from, end - 1);
        let before = changes_between(levels, from, end - 1);
        let all = changes_between(levels, from, end);
        assert forall|i: int| 0 <= i < all.len() implies from < (#[trigger] all[i]).sample < end by {
            if i < before.len() {
                assert(all[i] == before[i]);
            }
        }
    }
}

pub proof fn lemma_passed_within(
    initial: TriggerState,
    positions: Seq<u64>,
    cs: CsAt,
    known: TriggerEnable,
    timestamp_step: u64,
    count: nat,
    len: int,
)
    requires
        count <= positions.len(),
        samples_within(positions, len),
        initial.eligible.len() == 0,
        trigger_steps(initial, positions, cs, known, timestamp_step, count) is Some,
    ensures
        ({
            let eligible = trigger_steps(
                initial,
                positions,
                cs,
                known,
                timestamp_step,
                count,
            )->0.eligible;
            forall|i: int| 0 <= i < eligible.len() ==> (#[trigger] eligible[i]).0 < len
        }),
    decreases count,
{
    if count > 0 {
        lemma_passed_within(
            initial,
            positions,
            cs,
            known,
            timestamp_step,
            (count - 1) as nat,
            len,
        );
        assert(positions[count - 1] < len);
    }
}

proof fn lemma_edge_positions_within(
    mode: StrobeMode,
    edges: Seq<CaptureTransition>,
    count: nat,
    len: int,
)
    requires
        count <= edges.len(),
        forall|i: int| 0 <= i < edges.len() ==> (#[trigger] edges[i]).sample < len,
    ensures
        samples_within(edge_positions(mode, edges, count), len),
    decreases count,
{
    if count > 0 {
        lemma_edge_positions_within(mode, edges, (count - 1) as nat, len);
        assert(edges[count - 1].sample < len);
    }
}

pub proof fn lemma_changes_ordered(levels: Seq<bool>, from: int, end: int)
    requires
        0 <= from,
        end <= levels.len() <= u64::MAX,
    ensures
        forall|i: int, j: int|
            0 <= i < j < changes_between(levels, from, end).len() ==> (#[trigger] changes_between(
                levels,
                from,
                end,
            )[i]).sample < (#[trigger] changes_between(levels, from, end)[j]).sample,
    decreases end - from,
{
    if end > from + 1 {
        lemma_changes_ordered(levels, from, end - 1);
        lemma_changes_within(levels, from, end - 1);
        let before = changes_between(levels, from, end - 1);
        let all = changes_between(levels, from, end);
        assert forall|i: int, j: int| 0 <= i < j < all.len() implies (#[trigger] all[i]).sample < (
        #[trigger] all[j]).sample by {
            assert(all[i] == before[i]);
            if j < before.len() {
                assert(all[j] == before[j]);
            }
        }
    }
}

/// The level of a signal before a sample, where there is one.
pub open spec fn level_ahead_of(levels: Seq<bool>, sample: int) -> Option<bool> {
    if sample > 0 {
        Some(levels[sample - 1])
    } else {
        None
    }
}

/// Whether a window holds the stretches in which a signal with some changes enables a decoder.
pub open spec fn recorded_gate(
    levels: Seq<bool>,
    block_start: int,
    window_start: int,
    window_end: int,
    edges: &[CaptureTransition],
    window: EnableWindow,
) -> bool {
    let first = block_start + window_start;
    &&& edges@ == next_changes(levels, first, block_start + window_end, usize::MAX as int)
    &&& gated(
        EnableInput::Indexed {
            at_start: levels[first],
            before: level_ahead_of(levels, first),
            edges,
        },
        false,
        block_start,
        window_start,
        window_end,
        1,
        EnableScan::Ready(window),
    )
}

/// Finds the stretches of a window in which a recorded signal enables a decoder.
pub fn recorded_window<Q: EdgeQuery>(
    signal: &Q,
    block_start_position: u64,
    window_start: usize,
    window_end: usize,
) -> (result: Result<EnableWindow, QueryError>)
    requires
        window_start < window_end,
        block_start_position + window_end <= u64::MAX,
    ensures
        result matches Ok(window) ==> {
            &&& block_start_position + window_start < signal.levels().len()
            &&& ranges_in_window(window.ranges@, window_start as int, window_end as int)
            &&& exists|edges: &[CaptureTransition]| #[trigger]
                recorded_gate(
                    signal.levels(),
                    block_start_position as int,
                    window_start as int,
                    window_end as int,
                    edges,
                    window,
                )
        },
        signal.readable() && block_start_position + window_start < signal.levels().len()
            ==> result is Ok,
{
    let first: u64 = block_start_position + window_start as u64;
    let limit: u64 = block_start_position + window_end as u64;
    let at_start: bool = match signal.value_at(first) {
        Ok(level) => level,
        Err(error) => return Err(error),
    };
    let before: Option<bool> = if first > 0 {
        match signal.value_at(first - 1) {
            Ok(level) => Some(level),
            Err(error) => return Err(error),
        }
    } else {
        None
    };
    let edges: Vec<CaptureTransition> = match signal.next_edges(first, limit, usize::MAX) {
        Ok(edges) => edges,
        Err(error) => return Err(error),
    };
    let total: u64 = signal.total_samples();
    proof {
        let end = if limit < total {
            limit as int
        } else {
            total as int
        };
        lemma_changes_within(signal.levels(), first as int, end);
        lemma_changes_ordered(signal.levels(), first as int, end);
        let all = changes_between(signal.levels(), first as int, end);
        assert forall|k: int| 0 <= k < edges@.len() implies #[trigger] edges@[k] == all[k] by {}
    }
    let found: &[CaptureTransition] = edges.as_slice();
    let scan: EnableScan = enabled_ranges_for_window(
        EnableInput::Indexed { at_start, before, edges: found },
        false,
        block_start_position,
        window_start,
        window_end,
        1,
    );
    match scan {
        EnableScan::Ready(window) => {
            assert(recorded_gate(
                signal.levels(),
                block_start_position as int,
                window_start as int,
                window_end as int,
                found,
                window,
            ));
            Ok(window)
        },
        EnableScan::NeedMore => Err(missing_sample()),
    }
}

} // verus!
