//! Wait requests as scripts write them.

use vstd::prelude::*;

use crate::sigrokdecode::conditions::{PinCondition, WaitCondition, WaitRequest, WaitTerm};
use crate::sigrokdecode::script_value::{ScriptPair, ScriptValue};
use crate::text::same_text;

verus! {

/// Why a wait request is refused.
#[derive(Debug, PartialEq, Eq)]
pub enum WaitRequestError {
    /// The request cannot be gone through.
    NotIterable,
    /// An alternative is not a dictionary.
    NotACondition,
    /// A key is neither a channel number nor `skip`.
    InvalidKey,
    /// A skip is not an unsigned 64-bit number.
    InvalidSkip,
    /// A pin condition is not a text.
    CodeNotText,
    /// A pin condition is an unknown code.
    UnsupportedCode(String),
}

/// What a [`WaitRequestError`] says.
pub enum WaitErrorView {
    NotIterable,
    NotACondition,
    InvalidKey,
    InvalidSkip,
    CodeNotText,
    UnsupportedCode(Seq<char>),
}

impl View for WaitRequestError {
    type V = WaitErrorView;

    open spec fn view(&self) -> WaitErrorView {
        match *self {
            WaitRequestError::NotIterable => WaitErrorView::NotIterable,
            WaitRequestError::NotACondition => WaitErrorView::NotACondition,
            WaitRequestError::InvalidKey => WaitErrorView::InvalidKey,
            WaitRequestError::InvalidSkip => WaitErrorView::InvalidSkip,
            WaitRequestError::CodeNotText => WaitErrorView::CodeNotText,
            WaitRequestError::UnsupportedCode(code) => WaitErrorView::UnsupportedCode(code@),
        }
    }
}

/// The unsigned number, no greater than `max`, that a script value stands for; truth values count
/// as one and zero.
pub open spec fn unsigned_of(value: ScriptValue, max: int) -> Option<int> {
    match value {
        ScriptValue::Integer(number) => if 0 <= number <= max {
            Some(number as int)
        } else {
            None
        },
        ScriptValue::Bool(true) => if max >= 1 {
            Some(1)
        } else {
            None
        },
        ScriptValue::Bool(false) => Some(0),
        _ => None,
    }
}

/// Reads an unsigned 64-bit number.
pub fn as_u64(value: &ScriptValue) -> (result: Option<u64>)
    ensures
        match result {
            Some(number) => unsigned_of(*value, u64::MAX as int) == Some(number as int),
            None => unsigned_of(*value, u64::MAX as int) is None,
        },
{
    match value {
        ScriptValue::Integer(number) => if *number >= 0 && *number <= u64::MAX as i128 {
            Some(*number as u64)
        } else {
            None
        },
        ScriptValue::Bool(true) => Some(1),
        ScriptValue::Bool(false) => Some(0),
        _ => None,
    }
}

/// Reads an index.
pub fn as_index(value: &ScriptValue) -> (result: Option<usize>)
    ensures
        match result {
            Some(number) => unsigned_of(*value, usize::MAX as int) == Some(number as int),
            None => unsigned_of(*value, usize::MAX as int) is None,
        },
{
    match value {
        ScriptValue::Integer(number) => if *number >= 0 && *number <= usize::MAX as i128 {
            Some(*number as usize)
        } else {
            None
        },
        ScriptValue::Bool(true) => Some(1),
        ScriptValue::Bool(false) => Some(0),
        _ => None,
    }
}

/// The term that one dictionary entry stands for.
pub open spec fn term_of(pair: ScriptPair) -> Result<WaitTerm, WaitErrorView> {
    if pair.key is Text && pair.key->Text_0@ == "skip"@ {
        match unsigned_of(pair.value, u64::MAX as int) {
            Some(count) => Ok(WaitTerm::Skip(count as u64)),
            None => Err(WaitErrorView::InvalidSkip),
        }
    } else {
        match unsigned_of(pair.key, usize::MAX as int) {
            None => Err(WaitErrorView::InvalidKey),
            Some(channel) => match pair.value {
                ScriptValue::Text(code) => match PinCondition::of_code(code@) {
                    Some(condition) => Ok(WaitTerm::Pin { channel: channel as usize, condition }),
                    None => Err(WaitErrorView::UnsupportedCode(code@)),
                },
                _ => Err(WaitErrorView::CodeNotText),
            },
        }
    }
}

/// The first error among dictionary entries from `from` on.
pub open spec fn terms_error(pairs: Seq<ScriptPair>, from: int) -> Option<WaitErrorView>
    decreases pairs.len() - from,
{
    if from < 0 || from >= pairs.len() {
        None
    } else {
        match term_of(pairs[from]) {
            Err(error) => Some(error),
            Ok(_) => terms_error(pairs, from + 1),
        }
    }
}

/// Whether terms are those of the dictionary entries, in their order.
pub open spec fn terms_read(pairs: Seq<ScriptPair>, terms: Seq<WaitTerm>) -> bool {
    &&& terms.len() == pairs.len()
    &&& forall|i: int| 0 <= i < pairs.len() ==> term_of(#[trigger] pairs[i]) == Ok::<
        WaitTerm,
        WaitErrorView,
    >(terms[i])
}

fn parse_term(pair: &ScriptPair) -> (result: Result<WaitTerm, WaitRequestError>)
    ensures
        match result {
            Ok(term) => term_of(*pair) == Ok::<WaitTerm, WaitErrorView>(term),
            Err(error) => term_of(*pair) == Err::<WaitTerm, WaitErrorView>(error@),
        },
{
    let is_skip: bool = match &pair.key {
        ScriptValue::Text(text) => same_text(text.as_str(), "skip"),
        _ => false,
    };
    if is_skip {
        return match as_u64(&pair.value) {
            Some(count) => Ok(WaitTerm::Skip(count)),
            None => Err(WaitRequestError::InvalidSkip),
        };
    }
    let channel: usize = match as_index(&pair.key) {
        Some(channel) => channel,
        None => return Err(WaitRequestError::InvalidKey),
    };
    match &pair.value {
        ScriptValue::Text(code) => match PinCondition::from_code(code.as_str()) {
            Some(condition) => Ok(WaitTerm::pin(channel, condition)),
            None => Err(WaitRequestError::UnsupportedCode(code.clone())),
        },
        _ => Err(WaitRequestError::CodeNotText),
    }
}

/// Reads one condition from the entries of a dictionary.
pub fn parse_condition(pairs: &Vec<ScriptPair>) -> (result: Result<WaitCondition, WaitRequestError>)
    ensures
        match result {
            Ok(condition) => terms_error(pairs@, 0) is None && terms_read(
                pairs@,
                condition.terms@,
            ),
            Err(error) => terms_error(pairs@, 0) == Some(error@),
        },
{
    let mut terms: Vec<WaitTerm> = Vec::new();
    let mut index: usize = 0;
    while index < pairs.len()
        invariant
            index <= pairs@.len(),
            terms@.len() == index,
            terms_error(pairs@, 0) == terms_error(pairs@, index as int),
            forall|i: int|
                0 <= i < index ==> term_of(#[trigger] pairs@[i]) == Ok::<WaitTerm, WaitErrorView>(
                    terms@[i],
                ),
        decreases pairs@.len() - index,
    {
        match parse_term(&pairs[index]) {
            Ok(term) => {
                terms.push(term);
            },
            Err(error) => return Err(error),
        }
        index += 1;
    }
    Ok(WaitCondition::new(terms))
}

/// The first error among alternatives from `from` on.
pub open spec fn alternatives_error(items: Seq<ScriptValue>, from: int) -> Option<WaitErrorView>
    decreases items.len() - from,
{
    if from < 0 || from >= items.len() {
        None
    } else {
        match items[from] {
            ScriptValue::Dict(pairs) => match terms_error(pairs@, 0) {
                Some(error) => Some(error),
                None => alternatives_error(items, from + 1),
            },
            _ => Some(WaitErrorView::NotACondition),
        }
    }
}

/// Whether conditions are those of the alternatives, in their order.
pub open spec fn alternatives_read(items: Seq<ScriptValue>, conditions: Seq<WaitCondition>) -> bool {
    &&& conditions.len() == items.len()
    &&& forall|i: int|
        0 <= i < items.len() ==> (#[trigger] items[i]) is Dict && terms_read(
            items[i]->Dict_0@,
            conditions[i].terms@,
        )
}

fn parse_alternatives(items: &Vec<ScriptValue>) -> (result: Result<
    Vec<WaitCondition>,
    WaitRequestError,
>)
    ensures
        match result {
            Ok(conditions) => alternatives_error(items@, 0) is None && alternatives_read(
                items@,
                conditions@,
            ),
            Err(error) => alternatives_error(items@, 0) == Some(error@),
        },
{
    let mut conditions: Vec<WaitCondition> = Vec::new();
    let mut index: usize = 0;
    while index < items.len()
        invariant
            index <= items@.len(),
            conditions@.len() == index,
            alternatives_error(items@, 0) == alternatives_error(items@, index as int),
            forall|i: int|
                0 <= i < index ==> (#[trigger] items@[i]) is Dict && terms_read(
                    items@[i]->Dict_0@,
                    conditions@[i].terms@,
                ),
        decreases items@.len() - index,
    {
        match &items[index] {
            ScriptValue::Dict(pairs) => match parse_condition(pairs) {
                Ok(condition) => {
                    conditions.push(condition);
                },
                Err(error) => return Err(error),
            },
            _ => return Err(WaitRequestError::NotACondition),
        }
        index += 1;
    }
    Ok(conditions)
}

/// The error of a request; `None` where it is a proper one.
pub open spec fn request_error(request: Option<ScriptValue>) -> Option<WaitErrorView> {
    match request {
        None => None,
        Some(ScriptValue::Null) => None,
        Some(ScriptValue::Dict(pairs)) => terms_error(pairs@, 0),
        Some(ScriptValue::List(items)) => alternatives_error(items@, 0),
        Some(ScriptValue::Tuple(items)) => alternatives_error(items@, 0),
        Some(ScriptValue::Text(text)) => if text@.len() == 0 {
            None
        } else {
            Some(WaitErrorView::NotACondition)
        },
        Some(ScriptValue::Bytes(bytes)) => if bytes@.len() == 0 {
            None
        } else {
            Some(WaitErrorView::NotACondition)
        },
        Some(_) => Some(WaitErrorView::NotIterable),
    }
}

/// Whether a wait request is what the script wrote.
pub open spec fn request_read(script: Option<ScriptValue>, request: WaitRequest) -> bool {
    match script {
        None => request is Next,
        Some(ScriptValue::Null) => request is Next,
        Some(ScriptValue::Dict(pairs)) => {
            &&& request matches WaitRequest::Conditions(conditions)
            &&& conditions@.len() == 1
            &&& terms_read(pairs@, conditions@[0].terms@)
        },
        Some(ScriptValue::List(items)) => request matches WaitRequest::Conditions(conditions)
            && alternatives_read(items@, conditions@),
        Some(ScriptValue::Tuple(items)) => request matches WaitRequest::Conditions(conditions)
            && alternatives_read(items@, conditions@),
        Some(_) => request matches WaitRequest::Conditions(conditions) && conditions@.len() == 0,
    }
}

/// Reads a wait request. Nothing at all asks for the next sample, a dictionary is one condition,
/// and a sequence of dictionaries is a list of alternatives.
pub fn parse_wait_request(request: Option<&ScriptValue>) -> (result: Result<
    WaitRequest,
    WaitRequestError,
>)
    ensures
        ({
            let script = match request {
                Some(value) => Some(*value),
                None => None,
            };
            match result {
                Ok(request) => request_error(script) is None && request_read(script, request),
                Err(error) => request_error(script) == Some(error@),
            }
        }),
{
    match request {
        None => Ok(WaitRequest::Next),
        Some(value) => match value {
            ScriptValue::Null => Ok(WaitRequest::Next),
            ScriptValue::Dict(pairs) => match parse_condition(pairs) {
                Ok(condition) => {
                    let mut conditions: Vec<WaitCondition> = Vec::new();
                    conditions.push(condition);
                    Ok(WaitRequest::Conditions(conditions))
                },
                Err(error) => Err(error),
            },
            ScriptValue::List(items) | ScriptValue::Tuple(items) => match parse_alternatives(
                items,
            ) {
                Ok(conditions) => Ok(WaitRequest::Conditions(conditions)),
                Err(error) => Err(error),
            },
            ScriptValue::Text(text) => if text.as_str().is_empty() {
                Ok(WaitRequest::Conditions(Vec::new()))
            } else {
                Err(WaitRequestError::NotACondition)
            },
            ScriptValue::Bytes(bytes) => if bytes.len() == 0 {
                Ok(WaitRequest::Conditions(Vec::new()))
            } else {
                Err(WaitRequestError::NotACondition)
            },
            _ => Err(WaitRequestError::NotIterable),
        },
    }
}

} // verus!
