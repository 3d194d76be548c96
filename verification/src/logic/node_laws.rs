//! What the small nodes do with their events.

use vstd::prelude::*;

use super::formatter::{
    due, input_name, template_after, FormatterStep, FormatterView, ScheduledView,
};
use super::merge::comes_next;
use super::sr_latch::{LatchStep, LatchView};
use super::template::{formatted, placeholder, substituted};
use super::trigger_counter::TriggerCounter;
use crate::level_changes::{changes_of, times_fit};
use crate::ports::{listed, PortKind};
use crate::sinks::text_file_writer::{ActionView, WriterView};
use crate::streams::Sample;
use crate::text::{decimal, first_at, padded_decimal};
use crate::text_laws::{
    law_decimal_reads_back, law_first_place_of_a_character, law_unsigned_number_reads_back,
};

verus! {

/// Number of places at which a row of levels differs from the level before.
pub open spec fn number_of_changes(values: Seq<bool>) -> nat {
    Seq::new(values.len(), |i: int| i > 0 && values[i] != values[i - 1]).filter(
        |changed: bool| changed,
    ).len()
}

proof fn lemma_one_more_change(values: Seq<bool>)
    requires
        values.len() > 1,
    ensures
        number_of_changes(values) == number_of_changes(values.drop_last()) + (if values.last()
            != values[values.len() - 2] {
            1nat
        } else {
            0nat
        }),
{
    reveal(Seq::filter);
    let all = Seq::new(values.len(), |i: int| i > 0 && values[i] != values[i - 1]);
    let front = values.drop_last();
    assert(all.drop_last() =~= Seq::new(front.len(), |i: int| i > 0 && front[i] != front[i - 1]));
}

/// A list of changes begins with the first level at time zero, holds nothing but changes, in the
/// order of their times, and holds each of them.
pub proof fn law_changes_are_changes(values: Seq<bool>, step: int)
    requires
        values.len() > 0,
        0 < step,
        times_fit(values, step),
    ensures
        ({
            let list = changes_of(values, step);
            &&& list.len() == 1 + number_of_changes(values)
            &&& list[0] == Sample { value: values[0], start_time_ns: 0 }
            &&& list.last().value == values.last()
            &&& list.last().start_time_ns <= (values.len() - 1) * step
            &&& forall|k: int|
                #![trigger list[k]]
                0 < k < list.len() ==> list[k].value != list[k - 1].value && list[k].start_time_ns
                    > list[k - 1].start_time_ns
            &&& forall|k: int|
                #![trigger list[k]]
                0 <= k < list.len() ==> list[k].start_time_ns as int % step == 0
        }),
    decreases values.len(),
{
    let list = changes_of(values, step);
    if values.len() == 1 {
        reveal(Seq::filter);
        reveal_with_fuel(Seq::filter, 3);
        let all = Seq::new(values.len(), |i: int| i > 0 && values[i] != values[i - 1]);
        assert(all.drop_last().len() == 0);
        assert(!all.last());
        assert(number_of_changes(values) == 0);
        assert(0int % step == 0) by {
            vstd::arithmetic::div_mod::lemma_small_mod(0, step as nat);
        }
    } else {
        let front = values.drop_last();
        assert forall|i: int|
            0 < i < front.len() && front[i - 1] != #[trigger] front[i] implies i * step
            <= u64::MAX by {
            assert(values[i - 1] != values[i]);
        }
        law_changes_are_changes(front, step);
        lemma_one_more_change(values);
        let before = changes_of(front, step);
        let last = values.len() - 1;
        assert((last - 1) * step + step == last * step) by (nonlinear_arith);
        if values[last - 1] != values[last] {
            assert(last * step <= u64::MAX);
            assert((last * step) % step == 0) by {
                vstd::arithmetic::div_mod::lemma_mod_multiples_basic(last, step);
            }
            assert forall|k: int|
                #![trigger list[k]]
                0 < k < list.len() implies list[k].value != list[k - 1].value
                && list[k].start_time_ns > list[k - 1].start_time_ns by {
                if k < before.len() {
                    assert(list[k] == before[k] && list[k - 1] == before[k - 1]);
                } else {
                    assert(list[k - 1] == before.last());
                }
            }
            assert forall|k: int|
                #![trigger list[k]]
                0 <= k < list.len() implies list[k].start_time_ns as int % step == 0 by {
                if k < before.len() {
                    assert(list[k] == before[k]);
                }
            }
        } else {
            assert(list == before);
            assert((values.len() - 2) * step <= (values.len() - 1) * step);
        }
    }
}

/// The head that comes next is no later than any other, and of simultaneous heads it is the one of
/// the first stream.
pub proof fn law_next_head_is_the_earliest(times: Seq<Option<u64>>, next: int, other: int)
    requires
        comes_next(times, next),
        0 <= other < times.len(),
        times[other] is Some,
    ensures
        times[next] is Some,
        times[next]->0 <= times[other]->0,
        other < next ==> times[next]->0 < times[other]->0,
{
}

/// A latch follows its events: a set makes it high and a reset low, a change is emitted at the time
/// of the event, and nothing is emitted where the level stays. The other stream is left alone.
pub proof fn law_latch_follows_its_events(latch: LatchView, index: int)
    requires
        comes_next(latch.heads, index),
        latch.heads.len() == 2,
    ensures
        ({
            let (after, step) = latch.advanced(index);
            let time = latch.heads[index]->0;
            &&& after.state <==> index == 0
            &&& after.heads[index] is None
            &&& after.heads[1 - index] == latch.heads[1 - index]
            &&& after.ended == latch.ended
            &&& step is Emit <==> latch.state != after.state
            &&& time >= latch.last_emit_ts ==> (step matches LatchStep::Emit(sample) ==> sample
                == Sample { value: after.state, start_time_ns: time })
            &&& step == LatchStep::Unchanged || step is Emit
        }),
{
}

/// A latch waits for the first stream whose next event is unknown, and for none where all are known
/// or have ended.
pub proof fn law_latch_waits_for_the_unknown(latch: LatchView)
    requires
        latch.heads.len() == 2,
        latch.ended.len() == 2,
    ensures
        latch.waits_for(0) == Some(0int) <==> latch.heads[0] is None && !latch.ended[0],
        latch.waits_for(0) == Some(1int) <==> !(latch.heads[0] is None && !latch.ended[0])
            && latch.heads[1] is None && !latch.ended[1],
        latch.waits_for(0) is None <==> forall|i: int|
            0 <= i < 2 ==> (#[trigger] latch.heads[i]) is Some || latch.ended[i],
{
    reveal_with_fuel(LatchView::waits_for, 3);
}

/// A counter begins with its start, and each trigger adds its step.
pub proof fn law_counter_adds_its_step(counter: TriggerCounter, count: int)
    ensures
        counter.level(0) == counter.start,
        counter.level(count + 1) - counter.level(count) == counter.step,
{
    assert((count + 1) * counter.step == count * counter.step + counter.step) by (nonlinear_arith);
}

/// The templates that are due at a time are all those at the front that are not later than it.
pub proof fn law_due_templates(scheduled: Seq<ScheduledView>, time: u64)
    ensures
        ({
            let count = due(scheduled, time) as int;
            &&& count <= scheduled.len()
            &&& forall|i: int| 0 <= i < count ==> (#[trigger] scheduled[i]).timestamp_ns <= time
            &&& count < scheduled.len() ==> scheduled[count].timestamp_ns > time
        }),
    decreases scheduled.len(),
{
    if scheduled.len() > 0 && scheduled[0].timestamp_ns <= time {
        let rest = scheduled.skip(1);
        law_due_templates(rest, time);
        let count = due(scheduled, time) as int;
        assert forall|i: int| 0 <= i < count implies (#[trigger] scheduled[i]).timestamp_ns <= time by {
            if i > 0 {
                assert(rest[i - 1] == scheduled[i]);
            }
        }
        if count < scheduled.len() {
            assert(rest[count - 1] == scheduled[count]);
        }
    }
}

/// The template in force is the last one that took over, and the old one where none did.
pub proof fn law_last_due_template_is_in_force(
    template: Seq<char>,
    scheduled: Seq<ScheduledView>,
    count: nat,
)
    requires
        count <= scheduled.len(),
    ensures
        ({
            ||| template_after(template, scheduled, count) == template && forall|i: int|
                0 <= i < count ==> (#[trigger] scheduled[i]).template is None
            ||| exists|i: int|
                0 <= i < count && (#[trigger] scheduled[i]).template == Some(
                    template_after(template, scheduled, count),
                ) && forall|later: int|
                    i < later < count ==> (#[trigger] scheduled[later]).template is None
        }),
    decreases count,
{
    if count > 0 {
        let next = match scheduled[0].template {
            Some(text) => text,
            None => template,
        };
        let rest = scheduled.skip(1);
        let less = (count - 1) as nat;
        law_last_due_template_is_in_force(next, rest, less);
        let result = template_after(template, scheduled, count);
        if exists|i: int|
            0 <= i < less && (#[trigger] rest[i]).template == Some(result) && forall|later: int|
                i < later < less ==> (#[trigger] rest[later]).template is None {
            let i = choose|i: int|
                0 <= i < less && (#[trigger] rest[i]).template == Some(result) && forall|later: int|
                    i < later < less ==> (#[trigger] rest[later]).template is None;
            assert(scheduled[i + 1] == rest[i]);
            assert forall|later: int| i + 1 < later < count implies (
            #[trigger] scheduled[later]).template is None by {
                assert(rest[later - 1] == scheduled[later]);
            }
            assert(scheduled[i + 1].template == Some(result));
        } else {
            assert(result == next);
            assert forall|later: int| 0 < later < count implies (
            #[trigger] scheduled[later]).template is None by {
                assert(rest[later - 1] == scheduled[later]);
            }
            if scheduled[0].template is Some {
                assert(scheduled[0].template == Some(result));
            }
        }
    }
}

/// A formatter of several inputs emits its text exactly where it changes, at the time of the sample
/// that changed it. Only the value of that sample's input changes.
pub proof fn law_formatter_emits_changes(
    formatter: FormatterView,
    index: int,
    after: FormatterView,
    step: FormatterStep,
)
    requires
        0 <= index < formatter.heads.len(),
        formatter.values.len() == formatter.heads.len(),
        formatter.heads[index] is Some,
        formatter.advanced(index, after, step),
    ensures
        after.values == formatter.values.update(index, formatter.heads[index]->0.value),
        after.heads == formatter.heads.update(index, None),
        after.last_text == Some(formatted(after.template, after.values)),
        step is Emit <==> after.last_text != formatter.last_text,
        step matches FormatterStep::Emit(sample) ==> after.last_text == Some(sample.value@)
            && sample.start_time_ns == formatter.heads[index]->0.start_time_ns,
        step is Emit || step is Unchanged,
{
}

/// The inputs of a formatter have different names, and the first one has no number.
pub proof fn law_input_names_differ(first: int, second: int)
    requires
        0 <= first < second,
    ensures
        input_name(0) == "value"@,
        input_name(first) != input_name(second),
        input_name(second) == "value"@ + decimal(second as nat),
{
    let a = decimal(first as nat);
    let b = decimal(second as nat);
    law_decimal_reads_back(first as nat);
    law_decimal_reads_back(second as nat);
    let x = input_name(first);
    let y = input_name(second);
    let front = "value"@.len() as int;
    assert(y.skip(front) =~= b);
    if first > 0 {
        assert(x.skip(front) =~= a);
    } else {
        assert(y.len() > x.len());
    }
}

/// A placeholder names an input by its number, or the first one by a letter, and a width behind a
/// colon and a zero.
#[verifier::spinoff_prover]
#[verifier::rlimit(60)]
pub proof fn law_placeholders(index: usize, width: usize)
    ensures
        placeholder(decimal(index as nat)) == Some((index as int, 0int)),
        placeholder(seq!['n']) == Some((0int, 0int)),
        placeholder(decimal(index as nat) + seq![':', '0'] + decimal(width as nat)) == Some(
            (index as int, width as int),
        ),
        placeholder(seq!['n'] + seq![':', '0'] + decimal(width as nat)) == Some(
            (0int, width as int),
        ),
{
    let a = decimal(index as nat);
    let b = decimal(width as nat);
    law_decimal_reads_back(index as nat);
    law_decimal_reads_back(width as nat);
    law_unsigned_number_reads_back(index as nat, usize::MAX as int);
    law_unsigned_number_reads_back(width as nat, usize::MAX as int);
    law_first_place_of_a_character(a, ':', 0);
    assert(first_at(a, ':', 0) is None);
    assert(a != seq!['n']) by {
        assert(seq!['n'][0] == 'n');
        assert(a[0] != 'n');
    }
    let n = seq!['n'];
    assert(n[0] == 'n');
    law_first_place_of_a_character(n, ':', 0);
    assert(first_at(n, ':', 0) is None);
    let c = a + seq![':', '0'] + b;
    let at = a.len() as int;
    law_first_place_of_a_character(c, ':', 0);
    assert(c[at] == ':');
    assert forall|i: int| 0 <= i < at implies #[trigger] c[i] != ':' by {
        assert(c[i] == a[i]);
    }
    assert(first_at(c, ':', 0) == Some(at));
    assert(c.subrange(0, at) =~= a);
    let tail = c.subrange(at + 1, c.len() as int);
    assert(tail[0] == '0');
    assert(tail.subrange(1, tail.len() as int) =~= b);
    let d = n + seq![':', '0'] + b;
    law_first_place_of_a_character(d, ':', 0);
    assert(d[0] == 'n' && d[1] == ':');
    assert(first_at(d, ':', 0) == Some(1int));
    assert(d.subrange(0, 1) =~= n);
    let rest = d.subrange(2, d.len() as int);
    assert(rest[0] == '0');
    assert(rest.subrange(1, rest.len() as int) =~= b);
}

/// A placeholder in a template becomes the value of its input, padded to its width; one that names no
/// input stays as it is. What stands around it is kept.
pub proof fn law_placeholder_becomes_its_value(
    front: Seq<char>,
    spec: Seq<char>,
    rest: Seq<char>,
    values: Seq<i64>,
)
    requires
        forall|i: int| 0 <= i < front.len() ==> #[trigger] front[i] != '{',
        forall|i: int| 0 <= i < spec.len() ==> #[trigger] spec[i] != '}',
    ensures
        formatted(front + seq!['{'] + spec + seq!['}'] + rest, values) == front + substituted(
            spec,
            values,
        ) + formatted(rest, values),
        placeholder(spec) matches Some((index, width)) ==> 0 <= index < values.len() ==> substituted(
            spec,
            values,
        ) == padded_decimal(values[index], width),
        placeholder(spec) matches Some((index, _)) ==> index >= values.len() ==> substituted(
            spec,
            values,
        ) == seq!['{'] + spec + seq!['}'],
        placeholder(spec) is None ==> substituted(spec, values) == seq!['{'] + spec + seq!['}'],
{
    let template = front + seq!['{'] + spec + seq!['}'] + rest;
    let open = front.len() as int;
    let close = open + 1 + spec.len();
    law_first_place_of_a_character(template, '{', 0);
    law_first_place_of_a_character(template, '}', open);
    assert(template[open] == '{');
    assert forall|i: int| 0 <= i < open implies #[trigger] template[i] != '{' by {
        assert(template[i] == front[i]);
    }
    assert(template[close] == '}');
    assert forall|i: int| open <= i < close implies #[trigger] template[i] != '}' by {
        if i > open {
            assert(template[i] == spec[i - open - 1]);
        }
    }
    assert(first_at(template, '{', 0) == Some(open));
    assert(first_at(template, '}', open) == Some(close));
    assert(template.subrange(0, open) =~= front);
    assert(template.subrange(open + 1, close) =~= spec);
    assert(template.subrange(close + 1, template.len() as int) =~= rest);
}

/// All names up to the time of a line take over, and no later one; the last of them names the file
/// from then on. An open file is closed exactly where a name takes over.
pub proof fn law_names_up_to_a_line_take_over(writer: WriterView, time: u64)
    ensures
        ({
            let after = writer.named(time);
            let names = writer.pending_names;
            let passed = names.len() - after.pending_names.len();
            &&& 0 <= passed <= names.len()
            &&& forall|i: int| 0 <= i < passed ==> (#[trigger] names[i]).time <= time
            &&& passed < names.len() ==> names[passed].time > time
            &&& after.pending_names == names.skip(passed)
            &&& passed == 0 ==> after == writer && writer.naming(time).len() == 0
            &&& passed > 0 ==> {
                &&& after.current_name == Some(names[passed - 1].name)
                &&& !after.file_open
                &&& after.lines_in_file == 0
                &&& writer.file_open ==> writer.naming(time) == seq![ActionView::Close]
                &&& !writer.file_open ==> writer.naming(time).len() == 0
            }
        }),
    decreases writer.pending_names.len(),
{
    let names = writer.pending_names;
    if names.len() > 0 && names[0].time <= time {
        let next = WriterView {
            current_name: Some(names[0].name),
            pending_names: names.skip(1),
            ..writer.closed()
        };
        law_names_up_to_a_line_take_over(next, time);
        let after = writer.named(time);
        let passed = names.len() - after.pending_names.len();
        assert forall|i: int| 0 <= i < passed implies (#[trigger] names[i]).time <= time by {
            if i > 0 {
                assert(names.skip(1)[i - 1] == names[i]);
            }
        }
        if passed > 1 {
            assert(names.skip(1)[passed - 2] == names[passed - 1]);
        }
        if passed < names.len() {
            assert(names.skip(1)[passed - 1] == names[passed]);
        }
        assert(names.skip(1).skip(passed - 1) =~= names.skip(passed));
    } else {
        assert(names.skip(0) =~= names);
    }
}

/// Ports are numbered in the order in which they are listed.
pub proof fn law_ports_are_numbered(ports: Seq<(Seq<char>, PortKind)>, i: int)
    requires
        0 <= i < ports.len(),
    ensures
        listed(ports).len() == ports.len(),
        listed(ports)[i].index == i,
        listed(ports)[i].name == ports[i].0,
        listed(ports)[i].kind == ports[i].1,
{
}

} // verus!
