//! A deterministic acquisition: its settings, its chunks and its course.

use vstd::prelude::*;

use super::trigger::{
    exec_mixed_level, fresh_evaluator, mixed_level, search, searched, DeterministicTrigger,
    DeterministicTriggerEvaluator, DeterministicTriggerLogic, DeterministicTriggerPredicate,
    DeterministicTriggerStage, SimpleTriggerCondition,
};
use crate::bits::{bit_of, packed_bit, set_packed_bit, zero_bytes};
use crate::text::{append_chars, decimal, decimal_chars, from_chars, owned, to_chars};

verus! {

/// Why an acquisition is refused or fails.
#[derive(Debug, PartialEq, Eq)]
pub enum AcquisitionError {
    InvalidRequest(String),
    Internal(String),
}

/// The kind of an error and its message.
pub enum AcquisitionErrorView {
    InvalidRequest(Seq<char>),
    Internal(Seq<char>),
}

impl View for AcquisitionError {
    type V = AcquisitionErrorView;

    open spec fn view(&self) -> AcquisitionErrorView {
        match *self {
            AcquisitionError::InvalidRequest(message) => AcquisitionErrorView::InvalidRequest(
                message@,
            ),
            AcquisitionError::Internal(message) => AcquisitionErrorView::Internal(message@),
        }
    }
}

fn invalid(message: &str) -> (result: AcquisitionError)
    ensures
        result@ == AcquisitionErrorView::InvalidRequest(message@),
{
    AcquisitionError::InvalidRequest(owned(message))
}

fn internal(message: &str) -> (result: AcquisitionError)
    ensures
        result@ == AcquisitionErrorView::Internal(message@),
{
    AcquisitionError::Internal(owned(message))
}

/// Sum of the first `count` numbers.
pub open spec fn total(counts: Seq<u64>, count: nat) -> nat
    decreases count,
{
    if count == 0 {
        0
    } else {
        total(counts, (count - 1) as nat) + counts[count - 1] as nat
    }
}

/// Largest of the first `count` numbers.
pub open spec fn largest(counts: Seq<u64>, count: nat) -> nat
    decreases count,
{
    if count == 0 {
        0
    } else {
        let before = largest(counts, (count - 1) as nat);
        if counts[count - 1] > before {
            counts[count - 1] as nat
        } else {
            before
        }
    }
}

proof fn lemma_total_grows(counts: Seq<u64>, low: nat, high: nat)
    requires
        low <= high <= counts.len(),
    ensures
        total(counts, low) <= total(counts, high),
    decreases high,
{
    if low < high {
        lemma_total_grows(counts, low, (high - 1) as nat);
    }
}

/// Bytes of the payload of the largest chunk.
pub open spec fn payload_bytes(counts: Seq<u64>, channels: int) -> int {
    (largest(counts, counts.len()) * channels + 7) / 8
}

/// Settings of a deterministic acquisition.
#[derive(Debug, Clone)]
pub struct DeterministicFakeConfig {
    pub channels: Vec<String>,
    pub chunk_sample_counts: Vec<u64>,
    pub trigger: Option<DeterministicTrigger>,
    pub seed: u64,
}

/// Why settings are refused.
pub open spec fn config_error(channels: Seq<String>, counts: Seq<u64>) -> Option<AcquisitionErrorView> {
    if channels.len() == 0 {
        Some(AcquisitionErrorView::InvalidRequest("fake capture requires at least one channel"@))
    } else if counts.len() == 0 || counts.contains(0) {
        Some(
            AcquisitionErrorView::InvalidRequest(
                "fake capture requires non-empty, non-zero chunk sizes"@,
            ),
        )
    } else if total(counts, counts.len()) > u64::MAX {
        Some(
            AcquisitionErrorView::InvalidRequest("fake capture sample count overflows u64"@),
        )
    } else if payload_bytes(counts, channels.len() as int) > usize::MAX {
        Some(AcquisitionErrorView::Internal("fake payload is too large"@))
    } else {
        None
    }
}

/// The trigger of a simple condition on each channel.
pub open spec fn simple_predicates(conditions: Seq<Option<SimpleTriggerCondition>>, count: nat) -> Seq<
    DeterministicTriggerPredicate,
>
    decreases count,
{
    if count == 0 {
        Seq::empty()
    } else {
        let before = simple_predicates(conditions, (count - 1) as nat);
        match conditions[count - 1] {
            Some(condition) => if condition == SimpleTriggerCondition::Ignore {
                before
            } else {
                before.push(
                    DeterministicTriggerPredicate { channel: (count - 1) as usize, condition },
                )
            },
            None => before,
        }
    }
}

/// Why a stage of a trigger is refused.
pub open spec fn stage_error(stage: DeterministicTriggerStage, index: int, channels: int) -> Option<
    Seq<char>,
> {
    if stage.predicates@.len() == 0 {
        Some(
            "fake trigger stage "@ + decimal(index as nat) + " requires at least one predicate"@,
        )
    } else if first_outside(stage.predicates@, channels, 0) is Some {
        let outside = first_outside(stage.predicates@, channels, 0)->0;
        Some(
            "fake trigger channel "@ + decimal(stage.predicates@[outside].channel as nat)
                + " is outside 0.."@ + decimal(channels as nat),
        )
    } else if stage.count is Some && stage.count->0.value == 0 {
        Some("fake trigger stage "@ + decimal(index as nat) + " count must be non-zero"@)
    } else {
        None
    }
}

/// The first predicate on a channel that does not exist, from one on.
pub open spec fn first_outside(
    predicates: Seq<DeterministicTriggerPredicate>,
    channels: int,
    from: int,
) -> Option<int>
    decreases predicates.len() - from,
{
    if from < 0 || from >= predicates.len() {
        None
    } else if predicates[from].channel >= channels {
        Some(from)
    } else {
        first_outside(predicates, channels, from + 1)
    }
}

/// Why the first refused stage is refused, from one on.
pub open spec fn stages_error(
    stages: Seq<DeterministicTriggerStage>,
    channels: int,
    from: int,
) -> Option<Seq<char>>
    decreases stages.len() - from,
{
    if from < 0 || from >= stages.len() {
        None
    } else if stage_error(stages[from], from, channels) is Some {
        stage_error(stages[from], from, channels)
    } else {
        stages_error(stages, channels, from + 1)
    }
}

/// Why a trigger is refused.
pub open spec fn trigger_error(trigger: Option<DeterministicTrigger>, channels: int) -> Option<
    Seq<char>,
> {
    match trigger {
        None => None,
        Some(trigger) => if trigger.stages@.len() == 0 {
            Some("fake trigger requires at least one stage"@)
        } else {
            stages_error(trigger.stages@, channels, 0)
        },
    }
}

proof fn lemma_first_outside(predicates: Seq<DeterministicTriggerPredicate>, channels: int, from: int)
    requires
        0 <= from,
        first_outside(predicates, channels, from) is None,
    ensures
        forall|i: int|
            from <= i < predicates.len() ==> (#[trigger] predicates[i]).channel < channels,
    decreases predicates.len() - from,
{
    if from < predicates.len() {
        lemma_first_outside(predicates, channels, from + 1);
    }
}

proof fn lemma_stages_in_order(stages: Seq<DeterministicTriggerStage>, channels: int, from: int)
    requires
        0 <= from,
        stages_error(stages, channels, from) is None,
    ensures
        forall|i: int| from <= i < stages.len() ==> (#[trigger] stages[i]).wf(channels),
    decreases stages.len() - from,
{
    if from < stages.len() {
        lemma_first_outside(stages[from].predicates@, channels, 0);
        lemma_stages_in_order(stages, channels, from + 1);
    }
}

fn stage_message(head: &str, number: usize, tail: &str) -> (result: AcquisitionError)
    ensures
        result@ == AcquisitionErrorView::InvalidRequest(head@ + decimal(number as nat) + tail@),
{
    let mut message: Vec<char> = to_chars(head);
    append_chars(&mut message, decimal_chars(number as u64).as_slice());
    append_chars(&mut message, to_chars(tail).as_slice());
    AcquisitionError::InvalidRequest(from_chars(message.as_slice()))
}

fn numbers_message(head: &str, left: usize, middle: &str, right: usize) -> (result: AcquisitionError)
    ensures
        result@ == AcquisitionErrorView::InvalidRequest(
            head@ + decimal(left as nat) + middle@ + decimal(right as nat),
        ),
{
    let mut message: Vec<char> = to_chars(head);
    append_chars(&mut message, decimal_chars(left as u64).as_slice());
    append_chars(&mut message, to_chars(middle).as_slice());
    append_chars(&mut message, decimal_chars(right as u64).as_slice());
    AcquisitionError::InvalidRequest(from_chars(message.as_slice()))
}

fn check_stage(stage: &DeterministicTriggerStage, index: usize, channels: usize) -> (result: Option<
    AcquisitionError,
>)
    ensures
        match result {
            Some(error) => stage_error(*stage, index as int, channels as int) is Some && error@
                == AcquisitionErrorView::InvalidRequest(
                stage_error(*stage, index as int, channels as int)->0,
            ),
            None => stage_error(*stage, index as int, channels as int) is None,
        },
{
    if stage.predicates.len() == 0 {
        return Some(
            stage_message("fake trigger stage ", index, " requires at least one predicate"),
        );
    }
    let mut at: usize = 0;
    while at < stage.predicates.len()
        invariant
            at <= stage.predicates@.len(),
            stage.predicates@.len() > 0,
            first_outside(stage.predicates@, channels as int, 0) == first_outside(
                stage.predicates@,
                channels as int,
                at as int,
            ),
        decreases stage.predicates@.len() - at,
    {
        let channel: usize = stage.predicates[at].channel;
        if channel >= channels {
            return Some(
                numbers_message("fake trigger channel ", channel, " is outside 0..", channels),
            );
        }
        at += 1;
    }
    match stage.count {
        Some(count) => if count.value == 0 {
            return Some(stage_message("fake trigger stage ", index, " count must be non-zero"));
        },
        None => {},
    }
    None
}

/// One packed piece of a deterministic acquisition.
#[derive(Debug)]
pub struct PackedChunk {
    pub sequence: u64,
    pub start_sample: u64,
    pub sample_count: u64,
    pub channel_count: usize,
    pub data: Vec<u8>,
    pub bit_offset: u8,
}

impl PackedChunk {
    /// The bits of all samples lie in the data.
    pub open spec fn wf(self) -> bool {
        &&& self.bit_offset < 8
        &&& self.bit_offset + self.sample_count * self.channel_count <= 8 * self.data@.len()
        &&& self.bit_offset + self.sample_count * self.channel_count <= usize::MAX
    }

    /// The bit that holds the level of a channel at a sample of the chunk.
    pub open spec fn bit_index(self, sample: int, channel: int) -> int {
        self.bit_offset + (sample * self.channel_count + channel)
    }

    /// The level of a channel at a sample of the chunk, where the chunk has it.
    pub fn packed_level(&self, sample: u64, channel: usize) -> (result: Option<bool>)
        requires
            self.wf(),
        ensures
            result == if sample < self.sample_count && channel < self.channel_count {
                Some(bit_of(self.data@, self.bit_index(sample as int, channel as int)))
            } else {
                None
            },
    {
        if sample >= self.sample_count || channel >= self.channel_count {
            return None;
        }
        proof {
            lemma_inside(
                sample as int,
                self.sample_count as int,
                channel as int,
                self.channel_count as int,
            );
        }
        let index: usize = self.bit_offset as usize + (sample as usize * self.channel_count
            + channel);
        Some(packed_bit(self.data.as_slice(), index))
    }
}

proof fn lemma_inside(sample: int, count: int, channel: int, channels: int)
    requires
        0 <= sample < count,
        0 <= channel < channels,
    ensures
        0 <= sample * channels,
        sample * channels + channel < count * channels,
        sample <= sample * channels,
        count <= count * channels,
{
    assert(0 <= sample * channels) by (nonlinear_arith)
        requires
            0 <= sample,
            0 < channels,
    ;
    assert(sample * channels + channel < count * channels) by (nonlinear_arith)
        requires
            sample + 1 <= count,
            0 <= channel < channels,
    ;
    assert(sample <= sample * channels) by (nonlinear_arith)
        requires
            0 <= sample,
            1 <= channels,
    ;
    assert(count <= count * channels) by (nonlinear_arith)
        requires
            0 <= count,
            1 <= channels,
    ;
}

/// Where in its first byte a chunk starts; it moves with the sequence number.
pub open spec fn offset_of(sequence: int) -> int {
    (sequence * 3 + 1) % 8
}

/// Bytes of a chunk.
pub open spec fn chunk_bytes(sequence: int, samples: int, channels: int) -> int {
    (samples * channels + offset_of(sequence) + 7) / 8
}

/// A chunk that holds the deterministic levels of its samples and nothing else.
pub open spec fn is_chunk(
    chunk: PackedChunk,
    seed: u64,
    channels: int,
    sequence: int,
    start: int,
    samples: int,
) -> bool {
    &&& chunk.wf()
    &&& chunk.sequence == sequence
    &&& chunk.start_sample == start
    &&& chunk.sample_count == samples
    &&& chunk.channel_count == channels
    &&& chunk.bit_offset == offset_of(sequence)
    &&& chunk.data@.len() == chunk_bytes(sequence, samples, channels)
    &&& forall|sample: int, channel: int|
        0 <= sample < samples && 0 <= channel < channels ==> bit_of(
            chunk.data@,
            #[trigger] chunk.bit_index(sample, channel),
        ) == mixed_level(seed, (start + sample) as u64, channel)
}

impl DeterministicFakeConfig {
    /// Settings that `new` accepts, with a trigger that `with_trigger` accepts.
    pub open spec fn wf(self) -> bool {
        &&& config_error(self.channels@, self.chunk_sample_counts@) is None
        &&& self.trigger matches Some(trigger) ==> trigger.wf(self.channels@.len() as int)
    }

    /// Settings without a trigger.
    pub fn new(channels: Vec<String>, chunk_sample_counts: Vec<u64>, seed: u64) -> (result: Result<
        Self,
        AcquisitionError,
    >)
        ensures
            match result {
                Ok(config) => {
                    &&& config.wf()
                    &&& config.channels == channels
                    &&& config.chunk_sample_counts == chunk_sample_counts
                    &&& config.trigger is None
                    &&& config.seed == seed
                },
                Err(error) => config_error(channels@, chunk_sample_counts@) == Some(error@),
            },
    {
        if channels.len() == 0 {
            return Err(invalid("fake capture requires at least one channel"));
        }
        let mut empty: bool = chunk_sample_counts.len() == 0;
        let mut index: usize = 0;
        while index < chunk_sample_counts.len()
            invariant
                index <= chunk_sample_counts@.len(),
                empty == (chunk_sample_counts@.len() == 0 || exists|i: int|
                    0 <= i < index && #[trigger] chunk_sample_counts@[i] == 0),
            decreases chunk_sample_counts@.len() - index,
        {
            if chunk_sample_counts[index] == 0 {
                empty = true;
            }
            index += 1;
        }
        if empty {
            return Err(invalid("fake capture requires non-empty, non-zero chunk sizes"));
        }
        let mut sum: u64 = 0;
        let mut most: u64 = 0;
        let mut at: usize = 0;
        while at < chunk_sample_counts.len()
            invariant
                channels@.len() > 0,
                chunk_sample_counts@.len() > 0,
                !chunk_sample_counts@.contains(0),
                at <= chunk_sample_counts@.len(),
                sum == total(chunk_sample_counts@, at as nat),
                most == largest(chunk_sample_counts@, at as nat),
            decreases chunk_sample_counts@.len() - at,
        {
            let count: u64 = chunk_sample_counts[at];
            match sum.checked_add(count) {
                Some(next) => {
                    sum = next;
                },
                None => {
                    proof {
                        lemma_total_grows(
                            chunk_sample_counts@,
                            (at + 1) as nat,
                            chunk_sample_counts@.len(),
                        );
                    }
                    return Err(invalid("fake capture sample count overflows u64"));
                },
            }
            if count > most {
                most = count;
            }
            at += 1;
        }
        proof {
            assert(most * channels@.len() + 7 <= u128::MAX) by (nonlinear_arith)
                requires
                    most <= u64::MAX,
                    channels@.len() <= u64::MAX,
            ;
            assert(most * channels@.len() == largest(
                chunk_sample_counts@,
                chunk_sample_counts@.len(),
            ) * channels@.len());
        }
        let bits: u128 = most as u128 * channels.len() as u128 + 7;
        if bits / 8 > usize::MAX as u128 {
            return Err(internal("fake payload is too large"));
        }
        Ok(DeterministicFakeConfig { channels, chunk_sample_counts, trigger: None, seed })
    }

    /// The names of the channels.
    pub fn channels(&self) -> (result: &[String])
        ensures
            result@ == self.channels@,
    {
        self.channels.as_slice()
    }

    /// The numbers of samples of the chunks.
    pub fn chunk_sample_counts(&self) -> (result: &[u64])
        ensures
            result@ == self.chunk_sample_counts@,
    {
        self.chunk_sample_counts.as_slice()
    }

    /// The trigger, if there is one.
    pub fn trigger(&self) -> (result: Option<&DeterministicTrigger>)
        ensures
            match result {
                Some(trigger) => self.trigger == Some(*trigger),
                None => self.trigger is None,
            },
    {
        match &self.trigger {
            Some(trigger) => Some(trigger),
            None => None,
        }
    }

    /// Number of samples of the whole acquisition.
    pub fn total_samples(&self) -> (result: u64)
        requires
            self.wf(),
        ensures
            result == total(self.chunk_sample_counts@, self.chunk_sample_counts@.len()),
    {
        let mut sum: u64 = 0;
        let mut at: usize = 0;
        while at < self.chunk_sample_counts.len()
            invariant
                self.wf(),
                at <= self.chunk_sample_counts@.len(),
                sum == total(self.chunk_sample_counts@, at as nat),
            decreases self.chunk_sample_counts@.len() - at,
        {
            proof {
                lemma_total_grows(
                    self.chunk_sample_counts@,
                    (at + 1) as nat,
                    self.chunk_sample_counts@.len(),
                );
            }
            sum = sum + self.chunk_sample_counts[at];
            at += 1;
        }
        sum
    }

    /// Sets a simple trigger: all the given conditions at once. `None` and `Ignore` leave a
    /// channel out; without any condition there is no trigger.
    pub fn with_simple_trigger(self, conditions: &[Option<SimpleTriggerCondition>]) -> (result: Result<
        Self,
        AcquisitionError,
    >)
        requires
            self.wf(),
        ensures
            match result {
                Ok(config) => {
                    let predicates = simple_predicates(conditions@, conditions@.len());
                    &&& conditions@.len() == self.channels@.len()
                    &&& config.wf()
                    &&& config.channels == self.channels
                    &&& config.chunk_sample_counts == self.chunk_sample_counts
                    &&& config.seed == self.seed
                    &&& config.trigger is Some <==> predicates.len() > 0
                    &&& config.trigger matches Some(trigger) ==> trigger.stages@.len() == 1
                        && trigger.stages@[0].predicates@ == predicates && trigger.stages@[0].logic
                        == DeterministicTriggerLogic::And && !trigger.stages@[0].inverted
                        && trigger.stages@[0].count is None
                },
                Err(error) => conditions@.len() != self.channels@.len() && error@
                    == AcquisitionErrorView::InvalidRequest(
                    "fake trigger has "@ + decimal(conditions@.len()) + " channels, expected "@
                        + decimal(self.channels@.len()),
                ),
            },
    {
        if conditions.len() != self.channels.len() {
            return Err(
                numbers_message(
                    "fake trigger has ",
                    conditions.len(),
                    " channels, expected ",
                    self.channels.len(),
                ),
            );
        }
        let mut predicates: Vec<DeterministicTriggerPredicate> = Vec::new();
        let mut channel: usize = 0;
        while channel < conditions.len()
            invariant
                channel <= conditions@.len(),
                predicates@ == simple_predicates(conditions@, channel as nat),
                forall|i: int|
                    0 <= i < predicates@.len() ==> (#[trigger] predicates@[i]).channel < channel,
            decreases conditions@.len() - channel,
        {
            match conditions[channel] {
                Some(condition) => if condition != SimpleTriggerCondition::Ignore {
                    predicates.push(DeterministicTriggerPredicate { channel, condition });
                },
                None => {},
            }
            channel += 1;
        }
        let trigger: Option<DeterministicTrigger> = if predicates.len() == 0 {
            None
        } else {
            let mut stages: Vec<DeterministicTriggerStage> = Vec::new();
            stages.push(
                DeterministicTriggerStage {
                    predicates,
                    logic: DeterministicTriggerLogic::And,
                    inverted: false,
                    count: None,
                },
            );
            Some(DeterministicTrigger { stages })
        };
        Ok(DeterministicFakeConfig { trigger, ..self })
    }

    /// Sets or removes the trigger.
    pub fn with_trigger(self, trigger: Option<DeterministicTrigger>) -> (result: Result<
        Self,
        AcquisitionError,
    >)
        requires
            self.wf(),
        ensures
            match result {
                Ok(config) => trigger_error(trigger, self.channels@.len() as int) is None && config
                    == (DeterministicFakeConfig { trigger, ..self }) && config.wf(),
                Err(error) => trigger_error(trigger, self.channels@.len() as int) is Some && error@
                    == AcquisitionErrorView::InvalidRequest(
                    trigger_error(trigger, self.channels@.len() as int)->0,
                ),
            },
    {
        let channels: usize = self.channels.len();
        match &trigger {
            Some(wanted) => {
                if wanted.stages.len() == 0 {
                    return Err(invalid("fake trigger requires at least one stage"));
                }
                let mut index: usize = 0;
                while index < wanted.stages.len()
                    invariant
                        index <= wanted.stages@.len(),
                        stages_error(wanted.stages@, channels as int, 0) == stages_error(
                            wanted.stages@,
                            channels as int,
                            index as int,
                        ),
                        channels == self.channels@.len(),
                        trigger == Some(*wanted),
                        wanted.stages@.len() > 0,
                    decreases wanted.stages@.len() - index,
                {
                    match check_stage(&wanted.stages[index], index, channels) {
                        Some(error) => return Err(error),
                        None => {},
                    }
                    index += 1;
                }
                proof {
                    lemma_stages_in_order(wanted.stages@, channels as int, 0);
                }
            },
            None => {},
        }
        Ok(DeterministicFakeConfig { trigger, ..self })
    }

    pub fn without_trigger(self) -> (result: Self)
        ensures
            result == (DeterministicFakeConfig { trigger: None, ..self }),
    {
        DeterministicFakeConfig { trigger: None, ..self }
    }

    pub fn has_trigger(&self) -> (result: bool)
        ensures
            result == (self.trigger is Some),
    {
        self.trigger.is_some()
    }

    /// The level of a channel at a sample.
    pub fn level_at(&self, sample: u64, channel: usize) -> (result: bool)
        ensures
            result == mixed_level(self.seed, sample, channel as int),
    {
        exec_mixed_level(self.seed, sample, channel)
    }

    /// The sample at which the acquisition triggers.
    pub fn first_trigger_sample(&self) -> (result: Option<u64>)
        requires
            self.wf(),
        ensures
            match self.trigger {
                None => result is None,
                Some(trigger) => ({
                    let found = searched(
                        fresh_evaluator(),
                        trigger,
                        self.seed,
                        0,
                        total(self.chunk_sample_counts@, self.chunk_sample_counts@.len()) as int,
                    ).0;
                    match result {
                        Some(sample) => found == Some(sample as int),
                        None => found is None,
                    }
                }),
            },
    {
        let mut evaluator = DeterministicTriggerEvaluator {
            stage: 0,
            matched_count: 0,
            previous_stage_match: false,
        };
        let samples: u64 = self.total_samples();
        match &self.trigger {
            Some(trigger) => search(&mut evaluator, trigger, self.seed, 0, samples),
            None => None,
        }
    }

    /// Builds one chunk, or tells that it does not fit this host.
    pub fn build_chunk(&self, sequence: u64, start_sample: u64, sample_count: u64) -> (result: Result<
        PackedChunk,
        AcquisitionError,
    >)
        requires
            self.channels@.len() > 0,
            sequence * 3 + 1 <= u64::MAX,
            start_sample + sample_count <= u64::MAX,
        ensures
            match result {
                Ok(chunk) => is_chunk(
                    chunk,
                    self.seed,
                    self.channels@.len() as int,
                    sequence as int,
                    start_sample as int,
                    sample_count as int,
                ) && 8 * chunk_bytes(
                    sequence as int,
                    sample_count as int,
                    self.channels@.len() as int,
                ) <= usize::MAX,
                Err(error) => 8 * chunk_bytes(
                    sequence as int,
                    sample_count as int,
                    self.channels@.len() as int,
                ) > usize::MAX && error@ == AcquisitionErrorView::Internal(
                    "fake payload is too large"@,
                ),
            },
    {
        let channels: usize = self.channels.len();
        let bit_offset: u8 = ((sequence * 3 + 1) % 8) as u8;
        proof {
            assert(sample_count * channels + 14 <= u128::MAX && 0 <= sample_count * channels)
                by (nonlinear_arith)
                requires
                    sample_count <= u64::MAX,
                    channels <= u64::MAX,
            ;
        }
        let total_bits: u128 = sample_count as u128 * channels as u128 + bit_offset as u128;
        let bytes: u128 = (total_bits + 7) / 8;
        if bytes > (usize::MAX / 8) as u128 {
            return Err(internal("fake payload is too large"));
        }
        let ghost n = channels as int;
        let mut data: Vec<u8> = zero_bytes(bytes as usize);
        let mut relative: u64 = 0;
        let ghost offset = bit_offset as int;
        assert(0 * n == 0) by (nonlinear_arith);
        while relative < sample_count
            invariant
                self.channels@.len() > 0,
                channels == self.channels@.len(),
                n == channels,
                offset == bit_offset,
                offset < 8,
                start_sample + sample_count <= u64::MAX,
                relative <= sample_count,
                data@.len() == bytes,
                offset + sample_count * n <= 8 * data@.len(),
                8 * data@.len() <= usize::MAX,
                forall|sample: int, channel: int|
                    0 <= sample < relative && 0 <= channel < n ==> bit_of(
                        data@,
                        #[trigger] level_index(offset, n, sample, channel),
                    ) == mixed_level(self.seed, (start_sample + sample) as u64, channel),
                forall|index: int|
                    offset + relative * n <= index < 8 * data@.len() ==> !#[trigger] bit_of(
                        data@,
                        index,
                    ),
            decreases sample_count - relative,
        {
            proof {
                lemma_inside(relative as int, sample_count as int, 0, n);
                assert((relative + 1) * n == relative * n + n) by (nonlinear_arith);
                assert((relative + 1) * n <= sample_count * n) by (nonlinear_arith)
                    requires
                        relative + 1 <= sample_count,
                        n > 0,
                ;
            }
            let row: usize = relative as usize * channels;
            let mut channel: usize = 0;
            while channel < channels
                invariant
                    self.channels@.len() > 0,
                    channels == self.channels@.len(),
                    n == channels,
                    offset == bit_offset,
                    offset < 8,
                    start_sample + sample_count <= u64::MAX,
                    relative < sample_count,
                    channel <= channels,
                    row == relative * n,
                    data@.len() == bytes,
                    offset + row + n <= 8 * data@.len(),
                    8 * data@.len() <= usize::MAX,
                    forall|sample: int, c: int|
                        0 <= sample < relative && 0 <= c < n ==> bit_of(
                            data@,
                            #[trigger] level_index(offset, n, sample, c),
                        ) == mixed_level(self.seed, (start_sample + sample) as u64, c),
                    forall|c: int|
                        0 <= c < channel ==> bit_of(
                            data@,
                            #[trigger] level_index(offset, n, relative as int, c),
                        ) == mixed_level(self.seed, (start_sample + relative) as u64, c),
                    forall|index: int|
                        offset + row + channel <= index < 8 * data@.len() ==> !#[trigger] bit_of(
                            data@,
                            index,
                        ),
                decreases channels - channel,
            {
                let ghost before = data@;
                if self.level_at(start_sample + relative, channel) {
                    let at: usize = bit_offset as usize + (row + channel);
                    set_packed_bit(&mut data, at);
                    proof {
                        assert forall|sample: int, c: int|
                            0 <= sample < relative && 0 <= c < n implies bit_of(
                            data@,
                            #[trigger] level_index(offset, n, sample, c),
                        ) == mixed_level(self.seed, (start_sample + sample) as u64, c) by {
                            lemma_inside(sample, relative as int, c, n);
                            assert(bit_of(before, level_index(offset, n, sample, c))
                                == mixed_level(self.seed, (start_sample + sample) as u64, c));
                        }
                        assert forall|c: int| 0 <= c < channel + 1 implies bit_of(
                            data@,
                            #[trigger] level_index(offset, n, relative as int, c),
                        ) == mixed_level(self.seed, (start_sample + relative) as u64, c) by {
                            if c < channel {
                                assert(bit_of(
                                    before,
                                    level_index(offset, n, relative as int, c),
                                ) == mixed_level(self.seed, (start_sample + relative) as u64, c));
                            }
                        }
                    }
                }
                channel += 1;
            }
            proof {
                assert forall|sample: int, c: int|
                    0 <= sample < relative + 1 && 0 <= c < n implies bit_of(
                    data@,
                    #[trigger] level_index(offset, n, sample, c),
                ) == mixed_level(self.seed, (start_sample + sample) as u64, c) by {
                    if sample == relative {
                        assert(bit_of(data@, level_index(offset, n, relative as int, c))
                            == mixed_level(self.seed, (start_sample + relative) as u64, c));
                    }
                }
            }
            relative += 1;
        }
        let chunk = PackedChunk {
            sequence,
            start_sample,
            sample_count,
            channel_count: channels,
            data,
            bit_offset,
        };
        proof {
            assert forall|sample: int, c: int|
                0 <= sample < sample_count && 0 <= c < n implies bit_of(
                chunk.data@,
                #[trigger] chunk.bit_index(sample, c),
            ) == mixed_level(self.seed, (start_sample + sample) as u64, c) by {
                assert(chunk.bit_index(sample, c) == level_index(offset, n, sample, c));
            }
        }
        Ok(chunk)
    }
}

spec fn level_index(offset: int, channels: int, sample: int, channel: int) -> int {
    offset + (sample * channels + channel)
}

} // verus!
