//! Staged triggers on deterministic levels.

use vstd::prelude::*;

verus! {

/// What one input has to do at a trigger.
#[derive(Clone, Copy, Debug, PartialEq, Eq, Structural)]
pub enum SimpleTriggerCondition {
    Ignore,
    Low,
    High,
    Rising,
    Falling,
    Either,
}

impl SimpleTriggerCondition {
    /// Whether an input meets the condition; an edge needs a level before it.
    pub open spec fn met(self, previous: Option<bool>, current: bool) -> bool {
        match self {
            SimpleTriggerCondition::Ignore => true,
            SimpleTriggerCondition::Low => !current,
            SimpleTriggerCondition::High => current,
            SimpleTriggerCondition::Rising => previous == Some(false) && current,
            SimpleTriggerCondition::Falling => previous == Some(true) && !current,
            SimpleTriggerCondition::Either => previous == Some(!current),
        }
    }

    /// Whether an input meets the condition; an edge needs a level before it.
    pub fn matches(self, previous: Option<bool>, current: bool) -> (result: bool)
        ensures
            result == self.met(previous, current),
    {
        match self {
            SimpleTriggerCondition::Ignore => true,
            SimpleTriggerCondition::Low => !current,
            SimpleTriggerCondition::High => current,
            SimpleTriggerCondition::Rising => match previous {
                Some(level) => !level && current,
                None => false,
            },
            SimpleTriggerCondition::Falling => match previous {
                Some(level) => level && !current,
                None => false,
            },
            SimpleTriggerCondition::Either => match previous {
                Some(level) => level != current,
                None => false,
            },
        }
    }
}

/// How the predicates of a stage combine.
#[derive(Clone, Copy, Debug, PartialEq, Eq, Structural)]
pub enum DeterministicTriggerLogic {
    And,
    Or,
    Xor,
    Nand,
    Nor,
}

/// How the matches of a stage are counted.
#[derive(Clone, Copy, Debug, PartialEq, Eq, Structural)]
pub enum DeterministicTriggerCountMode {
    Occurrences,
    Consecutive,
}

/// How often a stage has to match.
#[derive(Clone, Copy, Debug, PartialEq, Eq, Structural)]
pub struct DeterministicTriggerCount {
    pub mode: DeterministicTriggerCountMode,
    pub value: u64,
}

/// A condition on one channel.
#[derive(Clone, Copy, Debug, PartialEq, Eq, Structural)]
pub struct DeterministicTriggerPredicate {
    pub channel: usize,
    pub condition: SimpleTriggerCondition,
}

/// One stage of a trigger.
#[derive(Debug, Clone, PartialEq, Eq)]
pub struct DeterministicTriggerStage {
    pub predicates: Vec<DeterministicTriggerPredicate>,
    pub logic: DeterministicTriggerLogic,
    pub inverted: bool,
    pub count: Option<DeterministicTriggerCount>,
}

/// A trigger of one or more stages.
#[derive(Debug, Clone, PartialEq, Eq)]
pub struct DeterministicTrigger {
    pub stages: Vec<DeterministicTriggerStage>,
}

impl DeterministicTriggerStage {
    /// A stage has something to look at, on channels that exist, and a count that can be reached.
    pub open spec fn wf(self, channels: int) -> bool {
        &&& self.predicates@.len() > 0
        &&& forall|i: int|
            0 <= i < self.predicates@.len() ==> (#[trigger] self.predicates@[i]).channel < channels
        &&& self.count matches Some(count) ==> count.value > 0
    }
}

impl DeterministicTrigger {
    /// A trigger has a stage, and all its stages are in order.
    pub open spec fn wf(self, channels: int) -> bool {
        &&& self.stages@.len() > 0
        &&& forall|i: int| 0 <= i < self.stages@.len() ==> (#[trigger] self.stages@[i]).wf(channels)
    }
}

/// Progress through a trigger.
#[derive(Clone, Copy, Debug, PartialEq, Eq, Structural)]
pub struct DeterministicTriggerEvaluator {
    pub stage: usize,
    pub matched_count: u64,
    pub previous_stage_match: bool,
}

impl Default for DeterministicTriggerEvaluator {
    fn default() -> (result: Self)
        ensures
            result == fresh_evaluator(),
    {
        DeterministicTriggerEvaluator { stage: 0, matched_count: 0, previous_stage_match: false }
    }
}

/// No progress yet.
pub open spec fn fresh_evaluator() -> DeterministicTriggerEvaluator {
    DeterministicTriggerEvaluator { stage: 0, matched_count: 0, previous_stage_match: false }
}

/// `value` rotated to the left.
pub open spec fn rotated(value: u64, by: u64) -> u64 {
    if by == 0 {
        value
    } else {
        (value << by) | (value >> ((64 - by) as u64))
    }
}

/// The level of a channel at a sample: a fixed mixture of the seed and both numbers.
pub open spec fn mixed_level(seed: u64, sample: u64, channel: int) -> bool {
    let lane = channel as u64;
    let mixed = rotated(
        ((sample * 0x9e37_79b9_7f4a_7c15) % 0x1_0000_0000_0000_0000) as u64,
        (lane % 63) as u64,
    ) ^ ((lane * 0xd6e8_feb8_6659_fd93) % 0x1_0000_0000_0000_0000) as u64 ^ seed;
    (mixed ^ (mixed >> 17) ^ (mixed >> 41)) & 1 != 0
}

/// The level of a channel at a sample.
pub fn exec_mixed_level(seed: u64, sample: u64, channel: usize) -> (result: bool)
    ensures
        result == mixed_level(seed, sample, channel as int),
{
    let lane: u64 = channel as u64;
    let product: u64 = sample.wrapping_mul(0x9e37_79b9_7f4a_7c15);
    let by: u64 = lane % 63;
    let turned: u64 = if by == 0 {
        product
    } else {
        (product << by) | (product >> (64 - by))
    };
    let mixed: u64 = turned ^ lane.wrapping_mul(0xd6e8_feb8_6659_fd93) ^ seed;
    (mixed ^ (mixed >> 17) ^ (mixed >> 41)) & 1 != 0
}

/// Whether a predicate holds at a sample.
pub open spec fn predicate_holds(predicate: DeterministicTriggerPredicate, seed: u64, sample: u64) -> bool {
    let channel = predicate.channel as int;
    let previous = if sample == 0 {
        None
    } else {
        Some(mixed_level(seed, (sample - 1) as u64, channel))
    };
    predicate.condition.met(previous, mixed_level(seed, sample, channel))
}

/// Whether the first `count` predicates all hold.
pub open spec fn all_hold(predicates: Seq<DeterministicTriggerPredicate>, seed: u64, sample: u64) -> bool {
    forall|i: int|
        0 <= i < predicates.len() ==> predicate_holds(#[trigger] predicates[i], seed, sample)
}

/// Whether one of the predicates holds.
pub open spec fn any_holds(predicates: Seq<DeterministicTriggerPredicate>, seed: u64, sample: u64) -> bool {
    exists|i: int|
        0 <= i < predicates.len() && predicate_holds(#[trigger] predicates[i], seed, sample)
}

/// Whether an odd number of the predicates holds.
pub open spec fn odd_hold(predicates: Seq<DeterministicTriggerPredicate>, seed: u64, sample: u64) -> bool
    decreases predicates.len(),
{
    if predicates.len() == 0 {
        false
    } else {
        odd_hold(predicates.drop_last(), seed, sample) != predicate_holds(
            predicates.last(),
            seed,
            sample,
        )
    }
}

/// Whether a stage matches at a sample.
pub open spec fn stage_matches(stage: DeterministicTriggerStage, seed: u64, sample: u64) -> bool {
    let predicates = stage.predicates@;
    (match stage.logic {
        DeterministicTriggerLogic::And => all_hold(predicates, seed, sample),
        DeterministicTriggerLogic::Or => any_holds(predicates, seed, sample),
        DeterministicTriggerLogic::Xor => odd_hold(predicates, seed, sample),
        DeterministicTriggerLogic::Nand => !all_hold(predicates, seed, sample),
        DeterministicTriggerLogic::Nor => !any_holds(predicates, seed, sample),
    }) != stage.inverted
}

/// A count that stops at its largest value.
pub open spec fn counted_up(count: u64) -> u64 {
    if count == u64::MAX {
        u64::MAX
    } else {
        (count + 1) as u64
    }
}

/// The match count of a stage behind a sample.
pub open spec fn count_after(
    evaluator: DeterministicTriggerEvaluator,
    count: Option<DeterministicTriggerCount>,
    matched: bool,
) -> u64 {
    match count {
        None => evaluator.matched_count,
        Some(count) => match count.mode {
            DeterministicTriggerCountMode::Occurrences => if matched
                && !evaluator.previous_stage_match {
                counted_up(evaluator.matched_count)
            } else {
                evaluator.matched_count
            },
            DeterministicTriggerCountMode::Consecutive => if matched {
                counted_up(evaluator.matched_count)
            } else {
                0
            },
        },
    }
}

/// Whether the trigger fires at a sample, and the progress behind it.
pub open spec fn observed(
    evaluator: DeterministicTriggerEvaluator,
    trigger: DeterministicTrigger,
    seed: u64,
    sample: u64,
) -> (bool, DeterministicTriggerEvaluator) {
    if evaluator.stage >= trigger.stages@.len() {
        (true, evaluator)
    } else {
        let stage = trigger.stages@[evaluator.stage as int];
        let matched = stage_matches(stage, seed, sample);
        let count = count_after(evaluator, stage.count, matched);
        let qualified = match stage.count {
            None => matched,
            Some(wanted) => count >= wanted.value,
        };
        let looked = DeterministicTriggerEvaluator {
            matched_count: count,
            previous_stage_match: matched,
            ..evaluator
        };
        if !qualified {
            (false, looked)
        } else if evaluator.stage + 1 == trigger.stages@.len() {
            (true, looked)
        } else {
            (
                false,
                DeterministicTriggerEvaluator {
                    stage: (evaluator.stage + 1) as usize,
                    matched_count: 0,
                    previous_stage_match: false,
                },
            )
        }
    }
}

fn check_predicate(predicate: DeterministicTriggerPredicate, seed: u64, sample: u64) -> (result: bool)
    ensures
        result == predicate_holds(predicate, seed, sample),
{
    let previous: Option<bool> = if sample == 0 {
        None
    } else {
        Some(exec_mixed_level(seed, sample - 1, predicate.channel))
    };
    predicate.condition.matches(previous, exec_mixed_level(seed, sample, predicate.channel))
}

fn check_stage(stage: &DeterministicTriggerStage, seed: u64, sample: u64) -> (result: bool)
    ensures
        result == stage_matches(*stage, seed, sample),
{
    let mut all: bool = true;
    let mut any: bool = false;
    let mut odd: bool = false;
    let mut index: usize = 0;
    let ghost predicates = stage.predicates@;
    assert(predicates.take(0) =~= Seq::<DeterministicTriggerPredicate>::empty());
    while index < stage.predicates.len()
        invariant
            predicates == stage.predicates@,
            index <= predicates.len(),
            all == all_hold(predicates.take(index as int), seed, sample),
            any == any_holds(predicates.take(index as int), seed, sample),
            odd == odd_hold(predicates.take(index as int), seed, sample),
        decreases predicates.len() - index,
    {
        let holds: bool = check_predicate(stage.predicates[index], seed, sample);
        proof {
            let before = predicates.take(index as int);
            let after = predicates.take(index + 1);
            assert(after.drop_last() =~= before);
            assert(after.last() == predicates[index as int]);
            assert forall|i: int| 0 <= i < before.len() implies #[trigger] after[i]
                == before[i] by {}
            assert(all_hold(after, seed, sample) == (all && holds)) by {
                if all && holds {
                    assert forall|i: int| 0 <= i < after.len() implies predicate_holds(
                        #[trigger] after[i],
                        seed,
                        sample,
                    ) by {
                        if i < before.len() {
                            assert(predicate_holds(before[i], seed, sample));
                        }
                    }
                } else if !all {
                    let i = choose|i: int|
                        0 <= i < before.len() && !predicate_holds(
                            #[trigger] before[i],
                            seed,
                            sample,
                        );
                    assert(!predicate_holds(after[i], seed, sample));
                } else {
                    assert(!predicate_holds(after[index as int], seed, sample));
                }
            }
            assert(any_holds(after, seed, sample) == (any || holds)) by {
                if any {
                    let i = choose|i: int|
                        0 <= i < before.len() && predicate_holds(#[trigger] before[i], seed, sample);
                    assert(predicate_holds(after[i], seed, sample));
                } else if holds {
                    assert(predicate_holds(after[index as int], seed, sample));
                } else {
                    assert forall|i: int| 0 <= i < after.len() implies !predicate_holds(
                        #[trigger] after[i],
                        seed,
                        sample,
                    ) by {
                        if i < before.len() {
                            assert(!predicate_holds(before[i], seed, sample));
                        }
                    }
                }
            }
        }
        all = all && holds;
        any = any || holds;
        odd = odd != holds;
        index += 1;
    }
    assert(predicates.take(index as int) =~= predicates);
    let combined: bool = match stage.logic {
        DeterministicTriggerLogic::And => all,
        DeterministicTriggerLogic::Or => any,
        DeterministicTriggerLogic::Xor => odd,
        DeterministicTriggerLogic::Nand => !all,
        DeterministicTriggerLogic::Nor => !any,
    };
    combined != stage.inverted
}

fn count_up(count: u64) -> (result: u64)
    ensures
        result == counted_up(count),
{
    if count == u64::MAX {
        u64::MAX
    } else {
        count + 1
    }
}

impl DeterministicTriggerEvaluator {
    /// Looks at one sample and tells whether the trigger fires there.
    pub fn observe(&mut self, trigger: &DeterministicTrigger, seed: u64, sample: u64) -> (fires: bool)
        ensures
            (fires, *final(self)) == observed(*old(self), *trigger, seed, sample),
    {
        if self.stage >= trigger.stages.len() {
            return true;
        }
        let stage: &DeterministicTriggerStage = &trigger.stages[self.stage];
        let matched: bool = check_stage(stage, seed, sample);
        let qualified: bool = match stage.count {
            None => matched,
            Some(count) => {
                match count.mode {
                    DeterministicTriggerCountMode::Occurrences => {
                        if matched && !self.previous_stage_match {
                            self.matched_count = count_up(self.matched_count);
                        }
                    },
                    DeterministicTriggerCountMode::Consecutive => {
                        self.matched_count = if matched {
                            count_up(self.matched_count)
                        } else {
                            0
                        };
                    },
                }
                self.matched_count >= count.value
            },
        };
        self.previous_stage_match = matched;
        if !qualified {
            return false;
        }
        if self.stage + 1 == trigger.stages.len() {
            return true;
        }
        self.stage = self.stage + 1;
        self.matched_count = 0;
        self.previous_stage_match = false;
        false
    }
}

/// The first sample of a range at which the trigger fires, and the progress behind the search.
pub open spec fn searched(
    evaluator: DeterministicTriggerEvaluator,
    trigger: DeterministicTrigger,
    seed: u64,
    from: int,
    end: int,
) -> (Option<int>, DeterministicTriggerEvaluator)
    decreases end - from,
{
    if from >= end {
        (None, evaluator)
    } else {
        let (fires, next) = observed(evaluator, trigger, seed, from as u64);
        if fires {
            (Some(from), next)
        } else {
            searched(next, trigger, seed, from + 1, end)
        }
    }
}

/// Where a range is cut does not matter: searching its two parts one behind the other finds what
/// searching it at once finds.
pub proof fn law_search_continues_across_chunks(
    evaluator: DeterministicTriggerEvaluator,
    trigger: DeterministicTrigger,
    seed: u64,
    from: int,
    middle: int,
    end: int,
)
    requires
        from <= middle <= end,
    ensures
        ({
            let (found, next) = searched(evaluator, trigger, seed, from, middle);
            searched(evaluator, trigger, seed, from, end) == match found {
                Some(sample) => (Some(sample), next),
                None => searched(next, trigger, seed, middle, end),
            }
        }),
    decreases middle - from,
{
    if from < middle {
        let (fires, next) = observed(evaluator, trigger, seed, from as u64);
        if !fires {
            law_search_continues_across_chunks(next, trigger, seed, from + 1, middle, end);
        }
    }
}

/// Searches a range of samples for the first at which the trigger fires.
pub fn search(
    evaluator: &mut DeterministicTriggerEvaluator,
    trigger: &DeterministicTrigger,
    seed: u64,
    from: u64,
    end: u64,
) -> (result: Option<u64>)
    requires
        from <= end,
    ensures
        ({
            let (found, next) = searched(*old(evaluator), *trigger, seed, from as int, end as int);
            &&& *final(evaluator) == next
            &&& match result {
                Some(sample) => found == Some(sample as int) && from <= sample < end,
                None => found is None,
            }
        }),
{
    let mut sample: u64 = from;
    while sample < end
        invariant
            from <= sample <= end,
            searched(*old(evaluator), *trigger, seed, from as int, end as int) == searched(
                *evaluator,
                *trigger,
                seed,
                sample as int,
                end as int,
            ),
        decreases end - sample,
    {
        if evaluator.observe(trigger, seed, sample) {
            return Some(sample);
        }
        sample += 1;
    }
    None
}

} // verus!
