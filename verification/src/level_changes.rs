//! A row of levels as the list of its changes.

use vstd::prelude::*;

use crate::streams::Sample;

verus! {

/// The changes of a row of levels: its first level, then each later change. Levels are `step`
/// nanoseconds apart.
pub open spec fn changes_of(values: Seq<bool>, step: int) -> Seq<Sample>
    decreases values.len(),
{
    if values.len() <= 1 {
        seq![Sample { value: values[0], start_time_ns: 0 }]
    } else {
        let before = changes_of(values.drop_last(), step);
        let last = values.len() - 1;
        if values[last - 1] != values[last] {
            before.push(Sample { value: values[last], start_time_ns: (last * step) as u64 })
        } else {
            before
        }
    }
}

/// Whether every change comes at a time that a clock of 64 bits can tell.
pub open spec fn times_fit(values: Seq<bool>, step: int) -> bool {
    forall|i: int|
        0 < i < values.len() && values[i - 1] != #[trigger] values[i] ==> i * step <= u64::MAX
}

/// Tells whether every change comes at a time that a clock of 64 bits can tell.
pub fn changes_fit(values: &Vec<bool>, step: u64) -> (result: bool)
    ensures
        result == times_fit(values@, step as int),
{
    let mut position: usize = 1;
    while position < values.len()
        invariant
            1 <= position,
            forall|i: int|
                0 < i < position && i < values@.len() && values@[i - 1] != #[trigger] values@[i]
                    ==> i * step <= u64::MAX,
        decreases values@.len() - position,
    {
        if values[position] != values[position - 1] {
            match (position as u64).checked_mul(step) {
                Some(time) => {},
                None => {
                    assert(values@[position - 1] != values@[position as int]);
                    return false;
                },
            }
        }
        position += 1;
    }
    true
}

/// Lists the changes of a row of levels.
pub fn list_changes(values: &Vec<bool>, step: u64) -> (result: Vec<Sample>)
    requires
        0 < values@.len(),
        times_fit(values@, step as int),
    ensures
        result@ == changes_of(values@, step as int),
{
    let mut result: Vec<Sample> = Vec::new();
    result.push(Sample::new(values[0], 0));
    let mut position: usize = 1;
    assert(result@ =~= changes_of(values@.take(1), step as int));
    while position < values.len()
        invariant
            1 <= position <= values@.len(),
            times_fit(values@, step as int),
            result@ == changes_of(values@.take(position as int), step as int),
        decreases values@.len() - position,
    {
        assert(values@.take(position + 1).drop_last() =~= values@.take(position as int));
        if values[position] != values[position - 1] {
            assert(values@[position - 1] != values@[position as int]);
            assert(0 <= position * step) by (nonlinear_arith);
            result.push(Sample::new(values[position], position as u64 * step));
        }
        position += 1;
    }
    assert(values@.take(values@.len() as int) =~= values@);
    result
}

/// The level that a list of changes gives at a time.
pub open spec fn level_from(list: Seq<Sample>, time: int) -> bool
    decreases list.len(),
{
    if list.len() <= 1 || list.last().start_time_ns <= time {
        list.last().value
    } else {
        level_from(list.drop_last(), time)
    }
}

/// The changes tell every level: at the time of each level the list of changes gives that level.
pub proof fn law_changes_give_every_level(values: Seq<bool>, step: int, position: int)
    requires
        0 <= position < values.len(),
        0 < step,
        times_fit(values, step),
    ensures
        changes_of(values, step).len() > 0,
        level_from(changes_of(values, step), position * step) == values[position],
        changes_of(values, step).last().value == values.last(),
        changes_of(values, step).last().start_time_ns <= (values.len() - 1) * step,
    decreases values.len(),
{
    assert(0 <= position * step && 0 <= (values.len() - 1) * step) by (nonlinear_arith)
        requires
            0 <= position < values.len(),
            0 < step,
    ;
    if values.len() > 1 {
        let before = values.drop_last();
        let last = values.len() - 1;
        assert(times_fit(before, step)) by {
            assert forall|i: int|
                0 < i < before.len() && before[i - 1] != #[trigger] before[i] implies i * step
                <= u64::MAX by {
                assert(values[i] == before[i]);
            }
        }
        assert((last - 1) * step < last * step) by (nonlinear_arith)
            requires
                0 < step,
        ;
        if values[last - 1] != values[last] {
            assert(last * step <= u64::MAX);
        }
        if position < last {
            law_changes_give_every_level(before, step, position);
            assert(position * step < last * step) by (nonlinear_arith)
                requires
                    position < last,
                    0 < step,
            ;
            if values[last - 1] != values[last] {
                assert(changes_of(values, step).drop_last() =~= changes_of(before, step));
            }
        } else {
            law_changes_give_every_level(before, step, last - 1);
        }
    }
}

} // verus!
