//! What a decoder gets for its wait requests.

use vstd::prelude::*;

use super::bridge::{first_same, kind_of, OutputRegistration, RegistrationView, SigrokOutputKind};
use super::conditions::{PinCondition, WaitRequest, WaitTerm};
use super::script_value::{ScriptPair, ScriptValue};
use super::scheduler::{
    channel_error, conditions_hold, conditions_looked_at, first_channel_error, given_level,
    reported_pins, requested_wait, terms_hold, terms_looked_at, InitialPin, LogicChunk, Pins,
    SchedulerView, StatusView, TermState, WaitView,
};
use super::wait_request::{
    alternatives_error, request_error, request_read, term_of, terms_error, unsigned_of,
    WaitErrorView,
};
use crate::bit_laws::{bytes_number, law_packed_bits_are_binary_digits, number_bit};

verus! {

/// A wait for one term.
pub open spec fn wait_for(term: TermState) -> WaitView {
    WaitView { conditions: seq![seq![term]], automatic: false }
}

/// The level of a channel at a received sample; the one before the first is the last one seen.
pub open spec fn level_at(scheduler: SchedulerView, channel: int, sample: int) -> bool {
    if sample < 0 {
        scheduler.previous[channel]->0
    } else {
        scheduler.rows[sample][channel]->0
    }
}

/// Whether the levels of a connected channel are known: now and one sample before.
pub open spec fn channel_known(scheduler: SchedulerView, channel: int) -> bool {
    &&& 0 <= channel < scheduler.previous.len()
    &&& scheduler.previous[channel] is Some
    &&& scheduler.initialized
    &&& forall|i: int|
        0 <= i < scheduler.rows.len() ==> channel < (#[trigger] scheduler.rows[i]).len()
            && scheduler.rows[i][channel] is Some
}

/// A wait for a pin ends at the first sample at which the condition of the pin is met by its level
/// there and its level one sample before, and goes on where there is none.
pub proof fn law_pin_wait_ends_at_the_first_match(
    scheduler: SchedulerView,
    channel: usize,
    condition: PinCondition,
)
    requires
        !scheduler.cancelled,
        scheduler.wait == Some(wait_for(TermState::Pin { channel, condition })),
        channel_known(scheduler, channel as int),
    ensures
        match scheduler.scanned().1 {
            StatusView::Matched { sample, pins, matched } => {
                let k = sample - scheduler.next;
                &&& 0 <= k < scheduler.rows.len()
                &&& condition.holds(
                    level_at(scheduler, channel as int, k),
                    level_at(scheduler, channel as int, k - 1),
                )
                &&& forall|j: int|
                    0 <= j < k ==> !#[trigger] condition.holds(
                        level_at(scheduler, channel as int, j),
                        level_at(scheduler, channel as int, j - 1),
                    )
                &&& pins == reported_pins(scheduler.rows[k])
                &&& matched == Some(seq![true])
            },
            StatusView::Cancelled => false,
            _ => forall|j: int|
                0 <= j < scheduler.rows.len() ==> !#[trigger] condition.holds(
                    level_at(scheduler, channel as int, j),
                    level_at(scheduler, channel as int, j - 1),
                ),
        },
    decreases scheduler.rows.len(),
{
    let term = TermState::Pin { channel, condition };
    let wait = wait_for(term);
    assert(wait.conditions[0] == seq![term]);
    assert(seq![term][0] == term);
    if scheduler.rows.len() > 0 {
        let current = scheduler.rows[0];
        let met = scheduler.met();
        assert(channel < current.len() && current[channel as int] is Some);
        let holds = condition.holds(
            level_at(scheduler, channel as int, 0),
            level_at(scheduler, channel as int, -1),
        );
        assert(terms_hold(seq![term], current, scheduler.previous, 0) == holds) by {
            if terms_hold(seq![term], current, scheduler.previous, 0) {
                assert(seq![term][0].holds(current, scheduler.previous));
            }
        }
        assert(met =~= seq![holds]);
        assert(met[0] == holds);
        if holds {
            assert(met.contains(true));
        } else {
            assert(!met.contains(true));
            let next = scheduler.passed();
            assert(terms_looked_at(seq![term], current, scheduler.previous, 0) =~= seq![term]) by {
                reveal_with_fuel(terms_looked_at, 2);
            }
            assert(conditions_looked_at(wait.conditions, current, scheduler.previous)
                =~= wait.conditions);
            assert(next.wait->0 =~= wait);
            assert forall|i: int| 0 <= i < next.rows.len() implies channel < (
            #[trigger] next.rows[i]).len() && next.rows[i][channel as int] is Some by {
                assert(next.rows[i] == scheduler.rows[i + 1]);
            }
            law_pin_wait_ends_at_the_first_match(next, channel, condition);
            assert forall|j: int| 0 <= j < next.rows.len() implies level_at(
                next,
                channel as int,
                j,
            ) == #[trigger] level_at(scheduler, channel as int, j + 1) && level_at(
                next,
                channel as int,
                j - 1,
            ) == level_at(scheduler, channel as int, j) by {}
            match scheduler.scanned().1 {
                StatusView::Matched { sample, pins, matched } => {
                    let k = sample - scheduler.next;
                    assert(level_at(scheduler, channel as int, k - 1 + 1) == level_at(
                        next,
                        channel as int,
                        k - 1,
                    ));
                    assert forall|j: int| 0 <= j < k implies !#[trigger] condition.holds(
                        level_at(scheduler, channel as int, j),
                        level_at(scheduler, channel as int, j - 1),
                    ) by {
                        if j > 0 {
                            assert(level_at(scheduler, channel as int, j - 1 + 1) == level_at(
                                next,
                                channel as int,
                                j - 1,
                            ));
                            assert(!condition.holds(
                                level_at(next, channel as int, j - 1),
                                level_at(next, channel as int, j - 1 - 1),
                            ));
                        }
                    }
                },
                _ => {
                    assert forall|j: int| 0 <= j < scheduler.rows.len() implies !#[trigger] condition.holds(
                        level_at(scheduler, channel as int, j),
                        level_at(scheduler, channel as int, j - 1),
                    ) by {
                        if j > 0 {
                            assert(level_at(scheduler, channel as int, j - 1 + 1) == level_at(
                                next,
                                channel as int,
                                j - 1,
                            ));
                            assert(!condition.holds(
                                level_at(next, channel as int, j - 1),
                                level_at(next, channel as int, j - 1 - 1),
                            ));
                        }
                    }
                },
            }
        }
    }
}

/// A wait that lets a number of samples pass ends at the sample behind them, where it has come.
pub proof fn law_skip_lets_its_number_of_samples_pass(
    scheduler: SchedulerView,
    target: u64,
    skipped: u64,
)
    requires
        !scheduler.cancelled,
        scheduler.wait == Some(wait_for(TermState::Skip { target, skipped })),
        skipped <= target,
    ensures
        match scheduler.scanned().1 {
            StatusView::Matched { sample, pins, matched } => {
                &&& target - skipped < scheduler.rows.len()
                &&& sample == scheduler.next + (target - skipped)
                &&& pins == reported_pins(scheduler.rows[target - skipped])
                &&& matched == Some(seq![true])
            },
            StatusView::Cancelled => false,
            _ => target - skipped >= scheduler.rows.len(),
        },
    decreases scheduler.rows.len(),
{
    let term = TermState::Skip { target, skipped };
    let wait = wait_for(term);
    assert(wait.conditions[0] == seq![term]);
    assert(seq![term][0] == term);
    if scheduler.rows.len() > 0 {
        let current = scheduler.rows[0];
        let previous = scheduler.levels_before(current);
        let met = scheduler.met();
        let holds = skipped == target;
        assert(terms_hold(seq![term], current, previous, 0) == holds) by {
            if terms_hold(seq![term], current, previous, 0) {
                assert(seq![term][0].holds(current, previous));
            }
        }
        assert(met =~= seq![holds]);
        assert(met[0] == holds);
        if holds {
            assert(met.contains(true));
        } else {
            assert(!met.contains(true));
            let later = TermState::Skip { target, skipped: (skipped + 1) as u64 };
            assert(terms_looked_at(seq![term], current, previous, 0) =~= seq![later]) by {
                reveal_with_fuel(terms_looked_at, 2);
            }
            assert(conditions_looked_at(wait.conditions, current, previous) =~= wait_for(
                later,
            ).conditions);
            assert(scheduler.passed().wait->0 =~= wait_for(later));
            law_skip_lets_its_number_of_samples_pass(
                scheduler.passed(),
                target,
                (skipped + 1) as u64,
            );
        }
    }
}

/// A request for the next sample gives the first sample the first time, and afterwards the one behind
/// the sample that the wait before it ended on. A request without alternatives is the same request.
pub proof fn law_next_request_moves_on_by_one(scheduler: SchedulerView, request: WaitRequest)
    requires
        !scheduler.cancelled,
        request matches WaitRequest::Conditions(conditions) ==> conditions@.len() == 0,
    ensures
        ({
            let step: int = if scheduler.waits_started == 0 {
                0
            } else {
                1
            };
            match scheduler.waiting(request).scanned().1 {
                StatusView::Matched { sample, pins, .. } => sample == scheduler.next + step && pins
                    == reported_pins(scheduler.rows[step]),
                StatusView::Cancelled => false,
                _ => scheduler.rows.len() <= step,
            }
        }),
{
    let target: u64 = if scheduler.waits_started == 0 {
        0
    } else {
        1
    };
    let wait = requested_wait(request, scheduler.waits_started == 0);
    assert(wait =~= wait_for(TermState::Skip { target, skipped: 0 }));
    law_skip_lets_its_number_of_samples_pass(scheduler.waiting(request), target, 0);
}

/// A sample meets a request where one of its conditions has terms and all of them hold.
pub proof fn law_alternatives_and_terms(
    conditions: Seq<Seq<TermState>>,
    current: Pins,
    previous: Pins,
    i: int,
)
    requires
        0 <= i < conditions.len(),
    ensures
        conditions_hold(conditions, current, previous).len() == conditions.len(),
        conditions_hold(conditions, current, previous)[i] <==> conditions[i].len() > 0 && forall|k: int|
            0 <= k < conditions[i].len() ==> (#[trigger] conditions[i][k]).holds(current, previous),
{
}

/// A pin that is not connected, or whose level before is not known, meets no condition; a term that
/// never holds holds nowhere.
pub proof fn law_unknown_pins_meet_nothing(
    channel: usize,
    condition: PinCondition,
    current: Pins,
    previous: Pins,
)
    ensures
        !TermState::Never.holds(current, previous),
        channel >= current.len() || channel >= previous.len() ==> !(TermState::Pin {
            channel,
            condition,
        }).holds(current, previous),
        channel < current.len() && current[channel as int] is None ==> !(TermState::Pin {
            channel,
            condition,
        }).holds(current, previous),
        channel < previous.len() && previous[channel as int] is None ==> !(TermState::Pin {
            channel,
            condition,
        }).holds(current, previous),
{
}

/// Before the first sample a pin has the level that was set for it; a pin set to start like the first
/// sample shows no edge there. Afterwards the level before a sample is that of the sample before it.
pub proof fn law_levels_before_the_first_sample(scheduler: SchedulerView, current: Pins, i: int)
    requires
        0 <= i < scheduler.previous.len(),
        scheduler.initial.len() == scheduler.previous.len(),
        current.len() == scheduler.previous.len(),
        !scheduler.initialized ==> scheduler.previous[i] == given_level(scheduler.initial[i]),
    ensures
        !scheduler.initialized && scheduler.initial[i] == Some(InitialPin::Low)
            ==> scheduler.levels_before(current)[i] == Some(false),
        !scheduler.initialized && scheduler.initial[i] == Some(InitialPin::High)
            ==> scheduler.levels_before(current)[i] == Some(true),
        !scheduler.initialized && scheduler.initial[i] == Some(InitialPin::SameAsFirstSample)
            ==> scheduler.levels_before(current)[i] == current[i],
        !scheduler.initialized && scheduler.initial[i] is None ==> scheduler.levels_before(
            current,
        )[i] is None,
        scheduler.initialized ==> scheduler.levels_before(current) == scheduler.previous,
        scheduler.wait is Some && scheduler.rows.len() > 0 ==> scheduler.passed().previous
            == scheduler.rows[0] && scheduler.passed().initialized,
{
}

/// The level of a channel at a sample of a chunk is a binary digit of its data.
pub proof fn law_chunk_level_is_a_digit(chunk: LogicChunk, channel: int, sample: int)
    requires
        chunk.holds_samples(),
        0 <= channel < chunk.channels@.len(),
        0 <= sample < chunk.sample_count,
    ensures
        match chunk.channels@[channel] {
            Some(data) => chunk.level(channel, sample) == Some(
                number_bit(bytes_number(data@) as int, sample as nat),
            ),
            None => chunk.level(channel, sample) is None,
        },
        chunk.rows(0).len() == chunk.sample_count,
        chunk.rows(0)[sample].len() == chunk.channels@.len(),
        chunk.rows(0)[sample][channel] == chunk.level(channel, sample),
{
    match chunk.channels@[channel] {
        Some(data) => {
            law_packed_bits_are_binary_digits(data@, sample);
        },
        None => {},
    }
}

/// Pins are reported as one where they are high, as zero where they are low, and as the largest byte
/// where nothing is connected.
pub proof fn law_reported_pins(pins: Pins, i: int)
    requires
        0 <= i < pins.len(),
    ensures
        reported_pins(pins).len() == pins.len(),
        reported_pins(pins)[i] == 255 <==> pins[i] is None,
        reported_pins(pins)[i] == 1 <==> pins[i] == Some(true),
        reported_pins(pins)[i] == 0 <==> pins[i] == Some(false),
{
}

/// Whether a chunk has what a channel needs: data for every sample exactly where it is connected.
pub open spec fn channel_fits(initial: Option<InitialPin>, chunk: LogicChunk, channel: int) -> bool {
    match chunk.channels@[channel] {
        Some(data) => initial is Some && 8 * data@.len() >= chunk.sample_count,
        None => initial is None,
    }
}

proof fn lemma_first_channel_error(
    initial: Seq<Option<InitialPin>>,
    chunk: LogicChunk,
    from: int,
)
    requires
        0 <= from,
    ensures
        first_channel_error(initial, chunk, from) is None <==> forall|channel: int|
            from <= channel < initial.len() ==> #[trigger] channel_fits(
                initial[channel],
                chunk,
                channel,
            ),
    decreases initial.len() - from,
{
    if from < initial.len() {
        lemma_first_channel_error(initial, chunk, from + 1);
        assert(channel_error(initial[from], chunk, from) is None <==> channel_fits(
            initial[from],
            chunk,
            from,
        ));
    }
}

/// A chunk is taken exactly where it holds samples, follows the samples so far, and has data for every
/// sample of each connected channel and of no other.
pub proof fn law_chunk_is_taken_where_it_fits(scheduler: SchedulerView, chunk: LogicChunk)
    ensures
        scheduler.chunk_error(chunk) is None <==> {
            &&& chunk.sample_count > 0
            &&& chunk.start_sample == scheduler.next
            &&& chunk.start_sample + chunk.sample_count <= u64::MAX
            &&& chunk.channels@.len() == scheduler.initial.len()
            &&& forall|channel: int|
                0 <= channel < scheduler.initial.len() ==> #[trigger] channel_fits(
                    scheduler.initial[channel],
                    chunk,
                    channel,
                )
        },
{
    lemma_first_channel_error(scheduler.initial, chunk, 0);
}

/// A script value stands for an unsigned number where it is one that fits, or a truth value.
pub proof fn law_unsigned_values(number: i128, max: int)
    requires
        max >= 1,
    ensures
        forall|value: ScriptValue|
            (#[trigger] unsigned_of(value, max)) matches Some(result) ==> 0 <= result <= max,
        unsigned_of(ScriptValue::Integer(number), max) is Some <==> 0 <= number <= max,
        unsigned_of(ScriptValue::Integer(number), max) matches Some(result) ==> result == number,
        unsigned_of(ScriptValue::Bool(true), max) == Some(1int),
        unsigned_of(ScriptValue::Bool(false), max) == Some(0int),
        unsigned_of(ScriptValue::Null, max) is None,
{
}

/// The error of a dictionary is that of its first improper entry, and there is none where every entry
/// is a proper one.
pub proof fn law_first_improper_entry_is_reported(pairs: Seq<ScriptPair>, from: int)
    requires
        0 <= from,
    ensures
        match terms_error(pairs, from) {
            None => forall|i: int| from <= i < pairs.len() ==> term_of(#[trigger] pairs[i]) is Ok,
            Some(error) => exists|i: int|
                from <= i < pairs.len() && term_of(#[trigger] pairs[i]) == Err::<
                    WaitTerm,
                    WaitErrorView,
                >(error) && forall|j: int| from <= j < i ==> term_of(#[trigger] pairs[j]) is Ok,
        },
    decreases pairs.len() - from,
{
    if from < pairs.len() {
        match term_of(pairs[from]) {
            Ok(_) => {
                law_first_improper_entry_is_reported(pairs, from + 1);
                match terms_error(pairs, from) {
                    Some(error) => {
                        let i = choose|i: int|
                            from + 1 <= i < pairs.len() && term_of(#[trigger] pairs[i]) == Err::<
                                WaitTerm,
                                WaitErrorView,
                            >(error) && forall|j: int|
                                from + 1 <= j < i ==> term_of(#[trigger] pairs[j]) is Ok;
                        assert(term_of(pairs[i]) == Err::<WaitTerm, WaitErrorView>(error));
                    },
                    None => {},
                }
            },
            Err(error) => {
                assert(term_of(pairs[from]) == Err::<WaitTerm, WaitErrorView>(error));
            },
        }
    }
}

/// An entry under a channel number waits for that channel by its code letter, and one under the word
/// for skipping lets samples pass.
pub proof fn law_entries_of_a_condition(pair: ScriptPair)
    ensures
        term_of(pair) matches Ok(term) ==> match term {
            WaitTerm::Pin { channel, condition } => {
                &&& unsigned_of(pair.key, usize::MAX as int) == Some(channel as int)
                &&& pair.value is Text
                &&& PinCondition::of_code(pair.value->Text_0@) == Some(condition)
                &&& !(pair.key is Text)
            },
            WaitTerm::Skip(count) => {
                &&& pair.key is Text && pair.key->Text_0@ == "skip"@
                &&& unsigned_of(pair.value, u64::MAX as int) == Some(count as int)
            },
            WaitTerm::Never => false,
        },
        pair.key is Text && pair.key->Text_0@ != "skip"@ ==> term_of(pair) == Err::<
            WaitTerm,
            WaitErrorView,
        >(WaitErrorView::InvalidKey),
{
}

/// A list of alternatives is proper exactly where each of them is a dictionary with proper entries.
pub proof fn law_proper_alternatives(items: Seq<ScriptValue>, from: int)
    requires
        0 <= from,
    ensures
        alternatives_error(items, from) is None <==> forall|i: int|
            from <= i < items.len() ==> ((#[trigger] items[i]) matches ScriptValue::Dict(pairs)
                && terms_error(pairs@, 0) is None),
    decreases items.len() - from,
{
    if from < items.len() {
        law_proper_alternatives(items, from + 1);
    }
}

/// The kinds of outputs are numbered from zero to four, each kind once, and no other number is one.
pub proof fn law_output_kinds_are_numbered(number: i32, other: i32)
    ensures
        kind_of(number) is Some <==> 0 <= number <= 4,
        kind_of(number) is Some && kind_of(number) == kind_of(other) ==> number == other,
        kind_of(0) == Some(SigrokOutputKind::Annotation),
        kind_of(1) == Some(SigrokOutputKind::ProtocolPacket),
        kind_of(2) == Some(SigrokOutputKind::Binary),
        kind_of(3) == Some(SigrokOutputKind::GeneratedLogic),
        kind_of(4) == Some(SigrokOutputKind::Metadata),
{
}

/// A registration is found at the first number under which the same was registered.
pub proof fn law_first_same_registration(
    registrations: Seq<OutputRegistration>,
    registration: RegistrationView,
    from: int,
)
    requires
        0 <= from,
    ensures
        match first_same(registrations, registration, from) {
            Some(id) => from <= id < registrations.len() && registrations[id]@ == registration
                && forall|i: int| from <= i < id ==> (#[trigger] registrations[i])@ != registration,
            None => forall|i: int|
                from <= i < registrations.len() ==> (#[trigger] registrations[i])@ != registration,
        },
    decreases registrations.len() - from,
{
    if from < registrations.len() && registrations[from]@ != registration {
        law_first_same_registration(registrations, registration, from + 1);
    }
}

/// No request, or an empty one of a kind without entries, is proper. A dictionary is one condition
/// and a row of dictionaries one condition for each; a number is no request.
pub proof fn law_proper_requests(
    pairs: Vec<ScriptPair>,
    items: Vec<ScriptValue>,
    number: i128,
)
    ensures
        request_error(None) is None,
        request_error(Some(ScriptValue::Null)) is None,
        request_error(Some(ScriptValue::Dict(pairs))) is None <==> forall|i: int|
            0 <= i < pairs@.len() ==> term_of(#[trigger] pairs@[i]) is Ok,
        request_error(Some(ScriptValue::List(items))) == request_error(
            Some(ScriptValue::Tuple(items)),
        ),
        request_error(Some(ScriptValue::List(items))) == alternatives_error(items@, 0),
        request_error(Some(ScriptValue::Integer(number))) is Some,
{
    law_first_improper_entry_is_reported(pairs@, 0);
}

/// A request that is read waits for the next sample where nothing was asked for; else it has a
/// condition for each dictionary that the script wrote, with a term for each entry.
pub proof fn law_request_has_its_conditions(
    pairs: Vec<ScriptPair>,
    items: Vec<ScriptValue>,
    request: WaitRequest,
)
    ensures
        request_read(None, request) <==> request is Next,
        request_read(Some(ScriptValue::Dict(pairs)), request) ==> {
            &&& (request matches WaitRequest::Conditions(conditions) && conditions@.len() == 1
                && conditions@[0].terms@.len() == pairs@.len() && forall|i: int|
                #![trigger pairs@[i]]
                0 <= i < pairs@.len() ==> term_of(pairs@[i]) == Ok::<WaitTerm, WaitErrorView>(
                    conditions@[0].terms@[i],
                ))
        },
        request_read(Some(ScriptValue::List(items)), request) ==> {
            &&& (request matches WaitRequest::Conditions(conditions) && conditions@.len()
                == items@.len() && forall|i: int|
                #![trigger items@[i]]
                0 <= i < items@.len() ==> items@[i] is Dict && conditions@[i].terms@.len()
                    == items@[i]->Dict_0@.len())
        },
        request_read(Some(ScriptValue::List(items)), request) <==> request_read(
            Some(ScriptValue::Tuple(items)),
            request,
        ),
{
}

} // verus!
