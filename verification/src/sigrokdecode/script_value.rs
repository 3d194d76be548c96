//! Values of a decoder script, and their plain counterparts.

use vstd::prelude::*;

verus! {

/// Levels of nesting that a protocol packet may have.
pub const VALUE_RECURSION_LIMIT: usize = 64;

/// A value as a decoder script holds it. Floating-point numbers are kept as their bit patterns.
#[derive(Debug, PartialEq, Eq)]
pub enum ScriptValue {
    Null,
    Bool(bool),
    Integer(i128),
    /// An integer beyond 128 bits.
    HugeInteger,
    Float(u64),
    Text(String),
    Bytes(Vec<u8>),
    List(Vec<ScriptValue>),
    Tuple(Vec<ScriptValue>),
    Dict(Vec<ScriptPair>),
    /// A value of any other type, with the type's name.
    Other(String),
}

/// One entry of a dictionary.
#[derive(Debug, PartialEq, Eq)]
pub struct ScriptPair {
    pub key: ScriptValue,
    pub value: ScriptValue,
}

/// An owned protocol value. Floating-point numbers are kept as their bit patterns; a mapping keeps
/// its entries in the order of the dictionary.
#[derive(Debug, PartialEq, Eq)]
pub enum SigrokValue {
    Null,
    Bool(bool),
    Integer(i64),
    Float(u64),
    String(String),
    Bytes(Vec<u8>),
    List(Vec<SigrokValue>),
    Tuple(Vec<SigrokValue>),
    Mapping(Vec<SigrokEntry>),
}

/// One entry of a mapping.
#[derive(Debug, PartialEq, Eq)]
pub struct SigrokEntry {
    pub key: String,
    pub value: SigrokValue,
}

/// Why a value has no plain counterpart.
#[derive(Debug, PartialEq, Eq)]
pub enum ValueError {
    /// Nested deeper than the limit.
    TooDeep,
    /// An integer beyond 64 bits.
    IntegerRange,
    /// A dictionary key is not a text.
    KeyNotText,
    /// The type, by its name, is not supported.
    Unsupported(String),
}

/// What a [`ValueError`] says.
pub enum ValueErrorView {
    TooDeep,
    IntegerRange,
    KeyNotText,
    Unsupported(Seq<char>),
}

impl View for ValueError {
    type V = ValueErrorView;

    open spec fn view(&self) -> ValueErrorView {
        match *self {
            ValueError::TooDeep => ValueErrorView::TooDeep,
            ValueError::IntegerRange => ValueErrorView::IntegerRange,
            ValueError::KeyNotText => ValueErrorView::KeyNotText,
            ValueError::Unsupported(name) => ValueErrorView::Unsupported(name@),
        }
    }
}

/// Whether a number fits in a signed 64-bit integer.
pub open spec fn fits_i64(value: i128) -> bool {
    i64::MIN <= value <= i64::MAX
}

/// Whether a plain value stands for a script value found at nesting level `depth`.
pub open spec fn stands_for(script: ScriptValue, value: SigrokValue, depth: nat) -> bool
    decreases VALUE_RECURSION_LIMIT - depth,
{
    if depth >= VALUE_RECURSION_LIMIT {
        false
    } else {
        match (script, value) {
            (ScriptValue::Null, SigrokValue::Null) => true,
            (ScriptValue::Bool(a), SigrokValue::Bool(b)) => a == b,
            (ScriptValue::Integer(a), SigrokValue::Integer(b)) => a == b,
            (ScriptValue::Float(a), SigrokValue::Float(b)) => a == b,
            (ScriptValue::Text(a), SigrokValue::String(b)) => a@ == b@,
            (ScriptValue::Bytes(a), SigrokValue::Bytes(b)) => a@ == b@,
            (ScriptValue::List(a), SigrokValue::List(b)) => {
                &&& a@.len() == b@.len()
                &&& forall|i: int|
                    0 <= i < a@.len() ==> stands_for(#[trigger] a@[i], b@[i], depth + 1)
            },
            (ScriptValue::Tuple(a), SigrokValue::Tuple(b)) => {
                &&& a@.len() == b@.len()
                &&& forall|i: int|
                    0 <= i < a@.len() ==> stands_for(#[trigger] a@[i], b@[i], depth + 1)
            },
            (ScriptValue::Dict(a), SigrokValue::Mapping(b)) => {
                &&& a@.len() == b@.len()
                &&& forall|i: int|
                    0 <= i < a@.len() ==> (#[trigger] a@[i]).key is Text && a@[i].key->Text_0@
                        == b@[i].key@ && stands_for(a@[i].value, b@[i].value, depth + 1)
            },
            _ => false,
        }
    }
}

/// The first error met when a script value at nesting level `depth` is converted.
pub open spec fn value_error(script: ScriptValue, depth: nat) -> Option<ValueErrorView>
    decreases VALUE_RECURSION_LIMIT - depth, 0int, 0int,
{
    if depth >= VALUE_RECURSION_LIMIT {
        Some(ValueErrorView::TooDeep)
    } else {
        match script {
            ScriptValue::Integer(value) => if fits_i64(value) {
                None
            } else {
                Some(ValueErrorView::IntegerRange)
            },
            ScriptValue::HugeInteger => Some(ValueErrorView::IntegerRange),
            ScriptValue::List(values) => items_error(values@, 0, depth + 1),
            ScriptValue::Tuple(values) => items_error(values@, 0, depth + 1),
            ScriptValue::Dict(pairs) => pairs_error(pairs@, 0, depth + 1),
            ScriptValue::Other(name) => Some(ValueErrorView::Unsupported(name@)),
            _ => None,
        }
    }
}

/// The first error among items from `from` on.
pub open spec fn items_error(items: Seq<ScriptValue>, from: int, depth: nat) -> Option<
    ValueErrorView,
>
    decreases VALUE_RECURSION_LIMIT - depth, 1int, items.len() - from,
{
    if from < 0 || from >= items.len() || depth > VALUE_RECURSION_LIMIT {
        None
    } else if value_error(items[from], depth) is Some {
        value_error(items[from], depth)
    } else {
        items_error(items, from + 1, depth)
    }
}

/// The first error among dictionary entries from `from` on.
pub open spec fn pairs_error(pairs: Seq<ScriptPair>, from: int, depth: nat) -> Option<ValueErrorView>
    decreases VALUE_RECURSION_LIMIT - depth, 1int, pairs.len() - from,
{
    if from < 0 || from >= pairs.len() || depth > VALUE_RECURSION_LIMIT {
        None
    } else if !(pairs[from].key is Text) {
        Some(ValueErrorView::KeyNotText)
    } else if value_error(pairs[from].value, depth) is Some {
        value_error(pairs[from].value, depth)
    } else {
        pairs_error(pairs, from + 1, depth)
    }
}

fn convert_items(items: &Vec<ScriptValue>, depth: usize) -> (result: Result<
    Vec<SigrokValue>,
    ValueError,
>)
    requires
        depth <= VALUE_RECURSION_LIMIT,
    ensures
        match result {
            Ok(values) => {
                &&& items_error(items@, 0, depth as nat) is None
                &&& values@.len() == items@.len()
                &&& forall|i: int|
                    0 <= i < items@.len() ==> stands_for(#[trigger] items@[i],
                        values@[i],
                        depth as nat,
                    )
            },
            Err(error) => items_error(items@, 0, depth as nat) == Some(error@),
        },
    decreases VALUE_RECURSION_LIMIT - depth, 1int,
{
    let mut values: Vec<SigrokValue> = Vec::new();
    let mut index: usize = 0;
    while index < items.len()
        invariant
            depth <= VALUE_RECURSION_LIMIT,
            index <= items@.len(),
            values@.len() == index,
            items_error(items@, 0, depth as nat) == items_error(items@, index as int, depth as nat),
            forall|i: int|
                0 <= i < index ==> stands_for(#[trigger] items@[i], values@[i], depth as nat),
        decreases items@.len() - index,
    {
        match convert_value(&items[index], depth) {
            Ok(value) => {
                values.push(value);
            },
            Err(error) => return Err(error),
        }
        index += 1;
    }
    Ok(values)
}

/// Copies bytes.
pub fn copy_bytes(bytes: &Vec<u8>) -> (result: Vec<u8>)
    ensures
        result@ == bytes@,
{
    let mut result: Vec<u8> = Vec::new();
    let mut index: usize = 0;
    while index < bytes.len()
        invariant
            index <= bytes@.len(),
            result@ == bytes@.take(index as int),
        decreases bytes@.len() - index,
    {
        result.push(bytes[index]);
        assert(bytes@.take(index + 1) =~= bytes@.take(index as int).push(bytes@[index as int]));
        index += 1;
    }
    assert(bytes@.take(index as int) =~= bytes@);
    result
}

/// Converts a script value found at nesting level `depth` into its plain counterpart.
pub fn convert_value(script: &ScriptValue, depth: usize) -> (result: Result<SigrokValue, ValueError>)
    requires
        depth <= VALUE_RECURSION_LIMIT,
    ensures
        match result {
            Ok(value) => value_error(*script, depth as nat) is None && stands_for(
                *script,
                value,
                depth as nat,
            ),
            Err(error) => value_error(*script, depth as nat) == Some(error@),
        },
    decreases VALUE_RECURSION_LIMIT - depth, 0int,
{
    if depth >= VALUE_RECURSION_LIMIT {
        return Err(ValueError::TooDeep);
    }
    match script {
        ScriptValue::Null => Ok(SigrokValue::Null),
        ScriptValue::Bool(value) => Ok(SigrokValue::Bool(*value)),
        ScriptValue::Integer(value) => {
            if *value < -9_223_372_036_854_775_808i128 || *value > 9_223_372_036_854_775_807i128 {
                Err(ValueError::IntegerRange)
            } else {
                Ok(SigrokValue::Integer(*value as i64))
            }
        },
        ScriptValue::HugeInteger => Err(ValueError::IntegerRange),
        ScriptValue::Float(value) => Ok(SigrokValue::Float(*value)),
        ScriptValue::Text(text) => Ok(SigrokValue::String(text.clone())),
        ScriptValue::Bytes(bytes) => Ok(SigrokValue::Bytes(copy_bytes(bytes))),
        ScriptValue::List(items) => match convert_items(items, depth + 1) {
            Ok(values) => Ok(SigrokValue::List(values)),
            Err(error) => Err(error),
        },
        ScriptValue::Tuple(items) => match convert_items(items, depth + 1) {
            Ok(values) => Ok(SigrokValue::Tuple(values)),
            Err(error) => Err(error),
        },
        ScriptValue::Dict(pairs) => {
            let mut entries: Vec<SigrokEntry> = Vec::new();
            let mut index: usize = 0;
            while index < pairs.len()
                invariant
                    depth < VALUE_RECURSION_LIMIT,
                    index <= pairs@.len(),
                    entries@.len() == index,
                    pairs_error(pairs@, 0, (depth + 1) as nat) == pairs_error(
                        pairs@,
                        index as int,
                        (depth + 1) as nat,
                    ),
                    *script == ScriptValue::Dict(*pairs),
                    forall|i: int|
                        0 <= i < index ==> (#[trigger] pairs@[i]).key is Text
                            && pairs@[i].key->Text_0@ == entries@[i].key@ && stands_for(
                            pairs@[i].value,
                            entries@[i].value,
                            (depth + 1) as nat,
                        ),
                decreases pairs@.len() - index,
            {
                let key: String = match &pairs[index].key {
                    ScriptValue::Text(text) => text.clone(),
                    _ => return Err(ValueError::KeyNotText),
                };
                match convert_value(&pairs[index].value, depth + 1) {
                    Ok(value) => {
                        entries.push(SigrokEntry { key, value });
                    },
                    Err(error) => return Err(error),
                }
                index += 1;
            }
            Ok(SigrokValue::Mapping(entries))
        },
        ScriptValue::Other(name) => Err(ValueError::Unsupported(name.clone())),
    }
}

/// Whether a plain value at nesting level `depth` goes deeper than the limit.
pub open spec fn too_deep(value: SigrokValue, depth: nat) -> bool
    decreases VALUE_RECURSION_LIMIT - depth,
{
    if depth >= VALUE_RECURSION_LIMIT {
        true
    } else {
        match value {
            SigrokValue::List(values) => exists|i: int|
                0 <= i < values@.len() && too_deep(#[trigger] values@[i], depth + 1),
            SigrokValue::Tuple(values) => exists|i: int|
                0 <= i < values@.len() && too_deep(#[trigger] values@[i], depth + 1),
            SigrokValue::Mapping(entries) => exists|i: int|
                0 <= i < entries@.len() && too_deep((#[trigger] entries@[i]).value, depth + 1),
            _ => false,
        }
    }
}

fn rebuild_items(values: &Vec<SigrokValue>, depth: usize) -> (result: Result<
    Vec<ScriptValue>,
    ValueError,
>)
    requires
        depth <= VALUE_RECURSION_LIMIT,
    ensures
        match result {
            Ok(items) => {
                &&& items@.len() == values@.len()
                &&& forall|i: int|
                    0 <= i < items@.len() ==> stands_for(#[trigger] items@[i],
                        values@[i],
                        depth as nat,
                    )
                &&& forall|i: int|
                    0 <= i < items@.len() ==> !too_deep(#[trigger] values@[i], depth as nat)
            },
            Err(error) => error == ValueError::TooDeep && exists|i: int|
                0 <= i < values@.len() && too_deep(#[trigger] values@[i], depth as nat),
        },
    decreases VALUE_RECURSION_LIMIT - depth, 1int,
{
    let mut items: Vec<ScriptValue> = Vec::new();
    let mut index: usize = 0;
    while index < values.len()
        invariant
            depth <= VALUE_RECURSION_LIMIT,
            index <= values@.len(),
            items@.len() == index,
            forall|i: int|
                0 <= i < index ==> stands_for(#[trigger] items@[i], values@[i], depth as nat),
            forall|i: int| 0 <= i < index ==> !too_deep(#[trigger] values@[i], depth as nat),
        decreases values@.len() - index,
    {
        match value_to_script(&values[index], depth) {
            Ok(item) => {
                items.push(item);
            },
            Err(error) => {
                assert(too_deep(values@[index as int], depth as nat));
                return Err(error);
            },
        }
        index += 1;
    }
    Ok(items)
}

/// Rebuilds the script value that a plain value stands for.
pub fn value_to_script(value: &SigrokValue, depth: usize) -> (result: Result<ScriptValue, ValueError>)
    requires
        depth <= VALUE_RECURSION_LIMIT,
    ensures
        match result {
            Ok(script) => stands_for(script, *value, depth as nat) && !too_deep(
                *value,
                depth as nat,
            ),
            Err(error) => error == ValueError::TooDeep && too_deep(*value, depth as nat),
        },
    decreases VALUE_RECURSION_LIMIT - depth, 0int,
{
    if depth >= VALUE_RECURSION_LIMIT {
        return Err(ValueError::TooDeep);
    }
    match value {
        SigrokValue::Null => Ok(ScriptValue::Null),
        SigrokValue::Bool(value) => Ok(ScriptValue::Bool(*value)),
        SigrokValue::Integer(value) => Ok(ScriptValue::Integer(*value as i128)),
        SigrokValue::Float(value) => Ok(ScriptValue::Float(*value)),
        SigrokValue::String(text) => Ok(ScriptValue::Text(text.clone())),
        SigrokValue::Bytes(bytes) => Ok(ScriptValue::Bytes(copy_bytes(bytes))),
        SigrokValue::List(values) => match rebuild_items(values, depth + 1) {
            Ok(items) => Ok(ScriptValue::List(items)),
            Err(error) => Err(error),
        },
        SigrokValue::Tuple(values) => match rebuild_items(values, depth + 1) {
            Ok(items) => Ok(ScriptValue::Tuple(items)),
            Err(error) => Err(error),
        },
        SigrokValue::Mapping(entries) => {
            let mut pairs: Vec<ScriptPair> = Vec::new();
            let mut index: usize = 0;
            while index < entries.len()
                invariant
                    depth < VALUE_RECURSION_LIMIT,
                    index <= entries@.len(),
                    pairs@.len() == index,
                    *value == SigrokValue::Mapping(*entries),
                    forall|i: int|
                        0 <= i < index ==> (#[trigger] pairs@[i]).key is Text
                            && pairs@[i].key->Text_0@ == entries@[i].key@ && stands_for(
                            pairs@[i].value,
                            entries@[i].value,
                            (depth + 1) as nat,
                        ),
                    forall|i: int|
                        0 <= i < index ==> !too_deep(
                            (#[trigger] entries@[i]).value,
                            (depth + 1) as nat,
                        ),
                decreases entries@.len() - index,
            {
                match value_to_script(&entries[index].value, depth + 1) {
                    Ok(item) => {
                        let key = ScriptValue::Text(entries[index].key.clone());
                        pairs.push(ScriptPair { key, value: item });
                    },
                    Err(error) => {
                        assert(too_deep(entries@[index as int].value, (depth + 1) as nat));
                        return Err(error);
                    },
                }
                index += 1;
            }
            Ok(ScriptValue::Dict(pairs))
        },
    }
}

/// Whether two plain values hold the same.
pub open spec fn same_value(a: SigrokValue, b: SigrokValue, depth: nat) -> bool
    decreases VALUE_RECURSION_LIMIT - depth,
{
    if depth >= VALUE_RECURSION_LIMIT {
        false
    } else {
        match (a, b) {
            (SigrokValue::String(a), SigrokValue::String(b)) => a@ == b@,
            (SigrokValue::Bytes(a), SigrokValue::Bytes(b)) => a@ == b@,
            (SigrokValue::List(a), SigrokValue::List(b)) => {
                &&& a@.len() == b@.len()
                &&& forall|i: int|
                    0 <= i < a@.len() ==> same_value(#[trigger] a@[i], b@[i], depth + 1)
            },
            (SigrokValue::Tuple(a), SigrokValue::Tuple(b)) => {
                &&& a@.len() == b@.len()
                &&& forall|i: int|
                    0 <= i < a@.len() ==> same_value(#[trigger] a@[i], b@[i], depth + 1)
            },
            (SigrokValue::Mapping(a), SigrokValue::Mapping(b)) => {
                &&& a@.len() == b@.len()
                &&& forall|i: int|
                    0 <= i < a@.len() ==> (#[trigger] a@[i]).key@ == b@[i].key@ && same_value(
                        a@[i].value,
                        b@[i].value,
                        depth + 1,
                    )
            },
            _ => a == b,
        }
    }
}

/// A script value stands for one plain value only: rebuilding a packet for the next decoder and
/// converting it again gives back what the packet held.
pub proof fn law_values_round_trip(script: ScriptValue, a: SigrokValue, b: SigrokValue, depth: nat)
    requires
        stands_for(script, a, depth),
        stands_for(script, b, depth),
    ensures
        same_value(a, b, depth),
        value_error(script, depth) is None,
    decreases VALUE_RECURSION_LIMIT - depth,
{
    match (script, a, b) {
        (ScriptValue::List(s), SigrokValue::List(x), SigrokValue::List(y)) => {
            assert forall|i: int| 0 <= i < s@.len() implies same_value(
                #[trigger] x@[i],
                y@[i],
                depth + 1,
            ) && value_error(s@[i], depth + 1) is None by {
                assert(stands_for(s@[i], x@[i], depth + 1));
                assert(stands_for(s@[i], y@[i], depth + 1));
                law_values_round_trip(s@[i], x@[i], y@[i], depth + 1);
            }
            assert forall|i: int| 0 <= i < s@.len() implies value_error(
                #[trigger] s@[i],
                depth + 1,
            ) is None by {
                assert(same_value(x@[i], y@[i], depth + 1));
                assert(x@[i] == x@[i]);
            }
            lemma_no_items_error(s@, 0, depth + 1);
        },
        (ScriptValue::Tuple(s), SigrokValue::Tuple(x), SigrokValue::Tuple(y)) => {
            assert forall|i: int| 0 <= i < s@.len() implies same_value(
                #[trigger] x@[i],
                y@[i],
                depth + 1,
            ) && value_error(s@[i], depth + 1) is None by {
                assert(stands_for(s@[i], x@[i], depth + 1));
                assert(stands_for(s@[i], y@[i], depth + 1));
                law_values_round_trip(s@[i], x@[i], y@[i], depth + 1);
            }
            assert forall|i: int| 0 <= i < s@.len() implies value_error(
                #[trigger] s@[i],
                depth + 1,
            ) is None by {
                assert(same_value(x@[i], y@[i], depth + 1));
                assert(x@[i] == x@[i]);
            }
            lemma_no_items_error(s@, 0, depth + 1);
        },
        (ScriptValue::Dict(s), SigrokValue::Mapping(x), SigrokValue::Mapping(y)) => {
            assert forall|i: int| 0 <= i < s@.len() implies (#[trigger] s@[i]).key is Text
                && value_error(s@[i].value, depth + 1) is None && x@[i].key@ == y@[i].key@
                && same_value(x@[i].value, y@[i].value, depth + 1) by {
                law_values_round_trip(s@[i].value, x@[i].value, y@[i].value, depth + 1);
            }
            assert forall|i: int| 0 <= i < x@.len() implies (#[trigger] x@[i]).key@ == y@[i].key@
                && same_value(x@[i].value, y@[i].value, depth + 1) by {
                assert(s@[i].key is Text);
            }
            lemma_no_pairs_error(s@, 0, depth + 1);
        },
        _ => {},
    }
}

proof fn lemma_no_items_error(items: Seq<ScriptValue>, from: int, depth: nat)
    requires
        forall|i: int| 0 <= i < items.len() ==> value_error(#[trigger] items[i], depth) is None,
        0 <= from,
    ensures
        items_error(items, from, depth) is None,
    decreases items.len() - from,
{
    if from < items.len() {
        lemma_no_items_error(items, from + 1, depth);
    }
}

proof fn lemma_no_pairs_error(pairs: Seq<ScriptPair>, from: int, depth: nat)
    requires
        forall|i: int|
            0 <= i < pairs.len() ==> (#[trigger] pairs[i]).key is Text && value_error(
                pairs[i].value,
                depth,
            ) is None,
        0 <= from,
    ensures
        pairs_error(pairs, from, depth) is None,
    decreases pairs.len() - from,
{
    if from < pairs.len() {
        lemma_no_pairs_error(pairs, from + 1, depth);
    }
}

} // verus!
