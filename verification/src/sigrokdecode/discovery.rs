//! What a decoder script says of itself.

use vstd::prelude::*;
use vstd::utf8::encode_utf8;

use crate::digest::{blake3_hash, digest};
use crate::sigrokdecode::bridge::{
    kind_of, output_kind, supports_api, OutputRegistration, SigrokOutputKind, API_VERSION,
};
use crate::sigrokdecode::script_value::{fits_i64, ScriptPair, ScriptValue};
use crate::sigrokdecode::wait_request::{as_index, unsigned_of};
use crate::text::{from_chars, hex_pair_chars, hex_pairs, owned, same_text};

verus! {

/// Why a script cannot be described.
#[derive(Debug, PartialEq, Eq)]
pub enum DescriptorError {
    /// It speaks another version of the interface.
    UnsupportedApi(i64),
    /// A dictionary lacks an entry.
    MissingField(String),
    /// A value is not of the type that is expected.
    WrongType,
    /// A type, by its name, that an option cannot have.
    UnsupportedScalar(String),
}

/// An error seen through its texts.
pub enum DescriptorErrorView {
    UnsupportedApi(i64),
    MissingField(Seq<char>),
    WrongType,
    UnsupportedScalar(Seq<char>),
}

impl View for DescriptorError {
    type V = DescriptorErrorView;

    open spec fn view(&self) -> DescriptorErrorView {
        match *self {
            DescriptorError::UnsupportedApi(version) => DescriptorErrorView::UnsupportedApi(
                version,
            ),
            DescriptorError::MissingField(key) => DescriptorErrorView::MissingField(key@),
            DescriptorError::WrongType => DescriptorErrorView::WrongType,
            DescriptorError::UnsupportedScalar(name) => DescriptorErrorView::UnsupportedScalar(
                name@,
            ),
        }
    }
}

/// A value that can be read from a script value.
pub trait FromScript: View + Sized {
    /// What a script value reads as.
    spec fn reading(value: ScriptValue) -> Result<Self::V, DescriptorErrorView>;

    /// Reads a script value.
    fn from_script(value: &ScriptValue) -> (result: Result<Self, DescriptorError>)
        ensures
            match result {
                Ok(read) => Self::reading(*value) == Ok::<Self::V, DescriptorErrorView>(read@),
                Err(error) => Self::reading(*value) == Err::<Self::V, DescriptorErrorView>(error@),
            },
    ;
}

/// What the first `count` script values read as: all of them, or the first error.
pub open spec fn readings<T: FromScript>(values: Seq<ScriptValue>, count: nat) -> Result<
    Seq<T::V>,
    DescriptorErrorView,
>
    decreases count,
{
    if count == 0 {
        Ok(Seq::empty())
    } else {
        match readings::<T>(values, (count - 1) as nat) {
            Ok(before) => match T::reading(values[count - 1]) {
                Ok(read) => Ok(before.push(read)),
                Err(error) => Err(error),
            },
            Err(error) => Err(error),
        }
    }
}

/// What a row of script values reads as.
pub open spec fn all_readings<T: FromScript>(values: Seq<ScriptValue>) -> Result<
    Seq<T::V>,
    DescriptorErrorView,
> {
    readings::<T>(values, values.len())
}

/// Read values seen through their views.
pub open spec fn views<T: View>(values: Seq<T>) -> Seq<T::V> {
    values.map_values(|value: T| value@)
}

proof fn lemma_early_error<T: FromScript>(values: Seq<ScriptValue>, count: nat, more: nat)
    requires
        count <= more,
        readings::<T>(values, count) is Err,
    ensures
        readings::<T>(values, more) == readings::<T>(values, count),
    decreases more,
{
    if count < more {
        lemma_early_error::<T>(values, count, (more - 1) as nat);
    }
}

/// Reads a row of script values.
pub fn read_all<T: FromScript>(values: &Vec<ScriptValue>) -> (result: Result<
    Vec<T>,
    DescriptorError,
>)
    ensures
        match result {
            Ok(read) => all_readings::<T>(values@) == Ok::<Seq<T::V>, DescriptorErrorView>(
                views(read@),
            ),
            Err(error) => all_readings::<T>(values@) == Err::<Seq<T::V>, DescriptorErrorView>(
                error@,
            ),
        },
{
    let mut result: Vec<T> = Vec::new();
    let mut index: usize = 0;
    assert(views(result@) =~= Seq::<T::V>::empty());
    while index < values.len()
        invariant
            index <= values@.len(),
            readings::<T>(values@, index as nat) == Ok::<Seq<T::V>, DescriptorErrorView>(
                views(result@),
            ),
        decreases values@.len() - index,
    {
        match T::from_script(&values[index]) {
            Ok(read) => {
                let ghost before = result@;
                let ghost view = read@;
                result.push(read);
                assert(views(result@) =~= views(before).push(view));
            },
            Err(error) => {
                proof {
                    lemma_early_error::<T>(values@, (index + 1) as nat, values@.len());
                }
                return Err(error);
            },
        }
        index += 1;
    }
    Ok(result)
}

impl FromScript for String {
    open spec fn reading(value: ScriptValue) -> Result<Seq<char>, DescriptorErrorView> {
        match value {
            ScriptValue::Text(text) => Ok(text@),
            _ => Err(DescriptorErrorView::WrongType),
        }
    }

    fn from_script(value: &ScriptValue) -> (result: Result<String, DescriptorError>) {
        match value {
            ScriptValue::Text(text) => Ok(owned(text.as_str())),
            _ => Err(DescriptorError::WrongType),
        }
    }
}

impl FromScript for usize {
    open spec fn reading(value: ScriptValue) -> Result<usize, DescriptorErrorView> {
        match unsigned_of(value, usize::MAX as int) {
            Some(number) => Ok(number as usize),
            None => Err(DescriptorErrorView::WrongType),
        }
    }

    fn from_script(value: &ScriptValue) -> (result: Result<usize, DescriptorError>) {
        match as_index(value) {
            Some(number) => Ok(number),
            None => Err(DescriptorError::WrongType),
        }
    }
}

impl FromScript for i64 {
    open spec fn reading(value: ScriptValue) -> Result<i64, DescriptorErrorView> {
        match value {
            ScriptValue::Integer(number) => if fits_i64(number) {
                Ok(number as i64)
            } else {
                Err(DescriptorErrorView::WrongType)
            },
            ScriptValue::Bool(truth) => Ok(
                if truth {
                    1
                } else {
                    0
                },
            ),
            _ => Err(DescriptorErrorView::WrongType),
        }
    }

    fn from_script(value: &ScriptValue) -> (result: Result<i64, DescriptorError>) {
        match value {
            ScriptValue::Integer(number) => if i64::MIN as i128 <= *number && *number
                <= i64::MAX as i128 {
                Ok(*number as i64)
            } else {
                Err(DescriptorError::WrongType)
            },
            ScriptValue::Bool(truth) => if *truth {
                Ok(1)
            } else {
                Ok(0)
            },
            _ => Err(DescriptorError::WrongType),
        }
    }
}

/// A value that an option can have. Floating-point numbers are kept as their bit patterns.
#[derive(Debug, Clone, PartialEq, Eq)]
pub enum SigrokScalarValue {
    Bool(bool),
    Integer(i64),
    Float(u64),
    String(String),
}

/// A value of an option seen through its text.
pub enum ScalarView {
    Bool(bool),
    Integer(i64),
    Float(u64),
    String(Seq<char>),
}

impl View for SigrokScalarValue {
    type V = ScalarView;

    open spec fn view(&self) -> ScalarView {
        match *self {
            SigrokScalarValue::Bool(value) => ScalarView::Bool(value),
            SigrokScalarValue::Integer(value) => ScalarView::Integer(value),
            SigrokScalarValue::Float(value) => ScalarView::Float(value),
            SigrokScalarValue::String(value) => ScalarView::String(value@),
        }
    }
}

/// The name of the type of a script value that no option can have.
pub open spec fn kind_name(value: ScriptValue) -> Seq<char> {
    match value {
        ScriptValue::Null => "NoneType"@,
        ScriptValue::Bytes(_) => "bytes"@,
        ScriptValue::List(_) => "list"@,
        ScriptValue::Tuple(_) => "tuple"@,
        ScriptValue::Dict(_) => "dict"@,
        ScriptValue::Other(name) => name@,
        _ => Seq::empty(),
    }
}

impl FromScript for SigrokScalarValue {
    open spec fn reading(value: ScriptValue) -> Result<ScalarView, DescriptorErrorView> {
        match value {
            ScriptValue::Bool(truth) => Ok(ScalarView::Bool(truth)),
            ScriptValue::Integer(number) => if fits_i64(number) {
                Ok(ScalarView::Integer(number as i64))
            } else {
                Err(DescriptorErrorView::WrongType)
            },
            ScriptValue::HugeInteger => Err(DescriptorErrorView::WrongType),
            ScriptValue::Float(bits) => Ok(ScalarView::Float(bits)),
            ScriptValue::Text(text) => Ok(ScalarView::String(text@)),
            _ => Err(DescriptorErrorView::UnsupportedScalar(kind_name(value))),
        }
    }

    fn from_script(value: &ScriptValue) -> (result: Result<SigrokScalarValue, DescriptorError>) {
        match value {
            ScriptValue::Bool(truth) => Ok(SigrokScalarValue::Bool(*truth)),
            ScriptValue::Integer(number) => if i64::MIN as i128 <= *number && *number
                <= i64::MAX as i128 {
                Ok(SigrokScalarValue::Integer(*number as i64))
            } else {
                Err(DescriptorError::WrongType)
            },
            ScriptValue::HugeInteger => Err(DescriptorError::WrongType),
            ScriptValue::Float(bits) => Ok(SigrokScalarValue::Float(*bits)),
            ScriptValue::Text(text) => Ok(SigrokScalarValue::String(owned(text.as_str()))),
            ScriptValue::Null => Err(DescriptorError::UnsupportedScalar(owned("NoneType"))),
            ScriptValue::Bytes(_) => Err(DescriptorError::UnsupportedScalar(owned("bytes"))),
            ScriptValue::List(_) => Err(DescriptorError::UnsupportedScalar(owned("list"))),
            ScriptValue::Tuple(_) => Err(DescriptorError::UnsupportedScalar(owned("tuple"))),
            ScriptValue::Dict(_) => Err(DescriptorError::UnsupportedScalar(owned("dict"))),
            ScriptValue::Other(name) => Err(
                DescriptorError::UnsupportedScalar(owned(name.as_str())),
            ),
        }
    }
}

/// The value under a text key of a dictionary.
pub open spec fn entry_of(pairs: Seq<ScriptPair>, key: Seq<char>) -> Option<ScriptValue>
    decreases pairs.len(),
{
    if pairs.len() == 0 {
        None
    } else if pairs[0].key is Text && pairs[0].key->Text_0@ == key {
        Some(pairs[0].value)
    } else {
        entry_of(pairs.skip(1), key)
    }
}

fn find_entry<'a>(pairs: &'a Vec<ScriptPair>, key: &str) -> (result: Option<&'a ScriptValue>)
    ensures
        match result {
            Some(value) => entry_of(pairs@, key@) == Some(*value),
            None => entry_of(pairs@, key@) is None,
        },
{
    let mut index: usize = 0;
    assert(pairs@.skip(0) =~= pairs@);
    while index < pairs.len()
        invariant
            index <= pairs@.len(),
            entry_of(pairs@, key@) == entry_of(pairs@.skip(index as int), key@),
        decreases pairs@.len() - index,
    {
        let pair: &ScriptPair = &pairs[index];
        assert(pairs@.skip(index as int)[0] == *pair);
        assert(pairs@.skip(index as int).skip(1) =~= pairs@.skip(index + 1));
        match &pair.key {
            ScriptValue::Text(text) => {
                if same_text(text.as_str(), key) {
                    return Some(&pair.value);
                }
            },
            _ => {},
        }
        index += 1;
    }
    None
}

/// What an entry that must be there reads as.
pub open spec fn field<T: FromScript>(pairs: Seq<ScriptPair>, key: Seq<char>) -> Result<
    T::V,
    DescriptorErrorView,
> {
    match entry_of(pairs, key) {
        Some(value) => T::reading(value),
        None => Err(DescriptorErrorView::MissingField(key)),
    }
}

/// Reads an entry that must be there.
fn required_field<T: FromScript>(pairs: &Vec<ScriptPair>, key: &str) -> (result: Result<
    T,
    DescriptorError,
>)
    ensures
        match result {
            Ok(read) => field::<T>(pairs@, key@) == Ok::<T::V, DescriptorErrorView>(read@),
            Err(error) => field::<T>(pairs@, key@) == Err::<T::V, DescriptorErrorView>(error@),
        },
{
    match find_entry(pairs, key) {
        Some(value) => T::from_script(value),
        None => Err(DescriptorError::MissingField(owned(key))),
    }
}

/// A channel of a decoder.
#[derive(Debug, Clone, PartialEq, Eq)]
pub struct SigrokDecoderChannelDescriptor {
    pub id: String,
    pub name: String,
    pub description: String,
}

/// A channel seen through its texts.
pub struct ChannelView {
    pub id: Seq<char>,
    pub name: Seq<char>,
    pub description: Seq<char>,
}

impl View for SigrokDecoderChannelDescriptor {
    type V = ChannelView;

    open spec fn view(&self) -> ChannelView {
        ChannelView { id: self.id@, name: self.name@, description: self.description@ }
    }
}

impl FromScript for SigrokDecoderChannelDescriptor {
    open spec fn reading(value: ScriptValue) -> Result<ChannelView, DescriptorErrorView> {
        match value {
            ScriptValue::Dict(pairs) => match field::<String>(pairs@, "id"@) {
                Err(error) => Err(error),
                Ok(id) => match field::<String>(pairs@, "name"@) {
                    Err(error) => Err(error),
                    Ok(name) => match field::<String>(pairs@, "desc"@) {
                        Err(error) => Err(error),
                        Ok(description) => Ok(ChannelView { id, name, description }),
                    },
                },
            },
            _ => Err(DescriptorErrorView::WrongType),
        }
    }

    fn from_script(value: &ScriptValue) -> (result: Result<
        SigrokDecoderChannelDescriptor,
        DescriptorError,
    >) {
        match value {
            ScriptValue::Dict(pairs) => {
                let id: String = match required_field(pairs, "id") {
                    Ok(id) => id,
                    Err(error) => {
                        return Err(error);
                    },
                };
                let name: String = match required_field(pairs, "name") {
                    Ok(name) => name,
                    Err(error) => {
                        return Err(error);
                    },
                };
                match required_field(pairs, "desc") {
                    Ok(description) => Ok(
                        SigrokDecoderChannelDescriptor { id, name, description },
                    ),
                    Err(error) => Err(error),
                }
            },
            _ => Err(DescriptorError::WrongType),
        }
    }
}

/// An option of a decoder.
#[derive(Debug, Clone, PartialEq, Eq)]
pub struct SigrokDecoderOptionDescriptor {
    pub id: String,
    pub description: String,
    pub default: SigrokScalarValue,
    pub values: Vec<SigrokScalarValue>,
}

/// An option seen through its texts.
#[verifier::ext_equal]
pub struct OptionView {
    pub id: Seq<char>,
    pub description: Seq<char>,
    pub default: ScalarView,
    pub values: Seq<ScalarView>,
}

impl View for SigrokDecoderOptionDescriptor {
    type V = OptionView;

    open spec fn view(&self) -> OptionView {
        OptionView {
            id: self.id@,
            description: self.description@,
            default: self.default@,
            values: views(self.values@),
        }
    }
}

/// The values that an option is limited to: none where the dictionary names none.
pub open spec fn option_values(pairs: Seq<ScriptPair>) -> Result<
    Seq<ScalarView>,
    DescriptorErrorView,
> {
    match entry_of(pairs, "values"@) {
        None => Ok(Seq::empty()),
        Some(ScriptValue::List(values)) => all_readings::<SigrokScalarValue>(values@),
        Some(ScriptValue::Tuple(values)) => all_readings::<SigrokScalarValue>(values@),
        Some(_) => Err(DescriptorErrorView::WrongType),
    }
}

fn read_option_values(pairs: &Vec<ScriptPair>) -> (result: Result<
    Vec<SigrokScalarValue>,
    DescriptorError,
>)
    ensures
        match result {
            Ok(read) => option_values(pairs@) == Ok::<Seq<ScalarView>, DescriptorErrorView>(
                views(read@),
            ),
            Err(error) => option_values(pairs@) == Err::<Seq<ScalarView>, DescriptorErrorView>(
                error@,
            ),
        },
{
    match find_entry(pairs, "values") {
        None => {
            let none: Vec<SigrokScalarValue> = Vec::new();
            assert(views(none@) =~= Seq::<ScalarView>::empty());
            Ok(none)
        },
        Some(value) => match value {
            ScriptValue::List(values) => read_all(values),
            ScriptValue::Tuple(values) => read_all(values),
            _ => Err(DescriptorError::WrongType),
        },
    }
}

impl FromScript for SigrokDecoderOptionDescriptor {
    open spec fn reading(value: ScriptValue) -> Result<OptionView, DescriptorErrorView> {
        match value {
            ScriptValue::Dict(pairs) => match option_values(pairs@) {
                Err(error) => Err(error),
                Ok(values) => match field::<String>(pairs@, "id"@) {
                    Err(error) => Err(error),
                    Ok(id) => match field::<String>(pairs@, "desc"@) {
                        Err(error) => Err(error),
                        Ok(description) => match field::<SigrokScalarValue>(pairs@, "default"@) {
                            Err(error) => Err(error),
                            Ok(default) => Ok(OptionView { id, description, default, values }),
                        },
                    },
                },
            },
            _ => Err(DescriptorErrorView::WrongType),
        }
    }

    fn from_script(value: &ScriptValue) -> (result: Result<
        SigrokDecoderOptionDescriptor,
        DescriptorError,
    >) {
        match value {
            ScriptValue::Dict(pairs) => {
                let values: Vec<SigrokScalarValue> = match read_option_values(pairs) {
                    Ok(values) => values,
                    Err(error) => {
                        return Err(error);
                    },
                };
                let id: String = match required_field(pairs, "id") {
                    Ok(id) => id,
                    Err(error) => {
                        return Err(error);
                    },
                };
                let description: String = match required_field(pairs, "desc") {
                    Ok(description) => description,
                    Err(error) => {
                        return Err(error);
                    },
                };
                match required_field(pairs, "default") {
                    Ok(default) => Ok(
                        SigrokDecoderOptionDescriptor { id, description, default, values },
                    ),
                    Err(error) => Err(error),
                }
            },
            _ => Err(DescriptorError::WrongType),
        }
    }
}

/// A class of annotations.
#[derive(Debug, Clone, PartialEq, Eq)]
pub struct SigrokAnnotationClassDescriptor {
    pub id: String,
    pub description: String,
}

impl View for SigrokAnnotationClassDescriptor {
    type V = (Seq<char>, Seq<char>);

    open spec fn view(&self) -> (Seq<char>, Seq<char>) {
        (self.id@, self.description@)
    }
}

impl FromScript for SigrokAnnotationClassDescriptor {
    open spec fn reading(value: ScriptValue) -> Result<
        (Seq<char>, Seq<char>),
        DescriptorErrorView,
    > {
        match value {
            ScriptValue::Tuple(parts) => if parts@.len() == 2 {
                match String::reading(parts@[0]) {
                    Err(error) => Err(error),
                    Ok(id) => match String::reading(parts@[1]) {
                        Err(error) => Err(error),
                        Ok(description) => Ok((id, description)),
                    },
                }
            } else {
                Err(DescriptorErrorView::WrongType)
            },
            _ => Err(DescriptorErrorView::WrongType),
        }
    }

    fn from_script(value: &ScriptValue) -> (result: Result<
        SigrokAnnotationClassDescriptor,
        DescriptorError,
    >) {
        match value {
            ScriptValue::Tuple(parts) => {
                if parts.len() != 2 {
                    return Err(DescriptorError::WrongType);
                }
                let id: String = match String::from_script(&parts[0]) {
                    Ok(id) => id,
                    Err(error) => {
                        return Err(error);
                    },
                };
                match String::from_script(&parts[1]) {
                    Ok(description) => Ok(SigrokAnnotationClassDescriptor { id, description }),
                    Err(error) => Err(error),
                }
            },
            _ => Err(DescriptorError::WrongType),
        }
    }
}

/// A row in which annotations of some classes are shown.
#[derive(Debug, Clone, PartialEq, Eq)]
pub struct SigrokAnnotationRowDescriptor {
    pub id: String,
    pub description: String,
    pub classes: Vec<usize>,
}

/// A row seen through its texts.
#[verifier::ext_equal]
pub struct RowView {
    pub id: Seq<char>,
    pub description: Seq<char>,
    pub classes: Seq<usize>,
}

impl View for SigrokAnnotationRowDescriptor {
    type V = RowView;

    open spec fn view(&self) -> RowView {
        RowView { id: self.id@, description: self.description@, classes: self.classes@ }
    }
}

/// The classes of a row.
pub open spec fn row_classes(value: ScriptValue) -> Result<Seq<usize>, DescriptorErrorView> {
    match value {
        ScriptValue::List(classes) => all_readings::<usize>(classes@),
        ScriptValue::Tuple(classes) => all_readings::<usize>(classes@),
        _ => Err(DescriptorErrorView::WrongType),
    }
}

fn read_row_classes(value: &ScriptValue) -> (result: Result<Vec<usize>, DescriptorError>)
    ensures
        match result {
            Ok(classes) => row_classes(*value) == Ok::<Seq<usize>, DescriptorErrorView>(classes@),
            Err(error) => row_classes(*value) == Err::<Seq<usize>, DescriptorErrorView>(error@),
        },
{
    let read: Result<Vec<usize>, DescriptorError> = match value {
        ScriptValue::List(classes) => read_all(classes),
        ScriptValue::Tuple(classes) => read_all(classes),
        _ => Err(DescriptorError::WrongType),
    };
    match read {
        Ok(classes) => {
            assert(views(classes@) =~= classes@);
            Ok(classes)
        },
        Err(error) => Err(error),
    }
}

impl FromScript for SigrokAnnotationRowDescriptor {
    open spec fn reading(value: ScriptValue) -> Result<RowView, DescriptorErrorView> {
        match value {
            ScriptValue::Tuple(parts) => if parts@.len() == 3 {
                match String::reading(parts@[0]) {
                    Err(error) => Err(error),
                    Ok(id) => match String::reading(parts@[1]) {
                        Err(error) => Err(error),
                        Ok(description) => match row_classes(parts@[2]) {
                            Err(error) => Err(error),
                            Ok(classes) => Ok(RowView { id, description, classes }),
                        },
                    },
                }
            } else {
                Err(DescriptorErrorView::WrongType)
            },
            _ => Err(DescriptorErrorView::WrongType),
        }
    }

    fn from_script(value: &ScriptValue) -> (result: Result<
        SigrokAnnotationRowDescriptor,
        DescriptorError,
    >) {
        match value {
            ScriptValue::Tuple(parts) => {
                if parts.len() != 3 {
                    return Err(DescriptorError::WrongType);
                }
                let id: String = match String::from_script(&parts[0]) {
                    Ok(id) => id,
                    Err(error) => {
                        return Err(error);
                    },
                };
                let description: String = match String::from_script(&parts[1]) {
                    Ok(description) => description,
                    Err(error) => {
                        return Err(error);
                    },
                };
                match read_row_classes(&parts[2]) {
                    Ok(classes) => Ok(
                        SigrokAnnotationRowDescriptor { id, description, classes },
                    ),
                    Err(error) => Err(error),
                }
            },
            _ => Err(DescriptorError::WrongType),
        }
    }
}

/// The attributes of a decoder's class. Attributes that can be walked through are given as the
/// values met on the way; a class without logic outputs has none of them.
#[derive(Debug)]
pub struct DecoderClass {
    pub api_version: ScriptValue,
    pub id: ScriptValue,
    pub name: ScriptValue,
    pub long_name: ScriptValue,
    pub description: ScriptValue,
    pub license: ScriptValue,
    pub inputs: Vec<ScriptValue>,
    pub outputs: Vec<ScriptValue>,
    pub tags: Vec<ScriptValue>,
    pub channels: Vec<ScriptValue>,
    pub optional_channels: Vec<ScriptValue>,
    pub options: Vec<ScriptValue>,
    pub annotations: Vec<ScriptValue>,
    pub annotation_rows: Vec<ScriptValue>,
    pub binary: Vec<ScriptValue>,
    pub logic_output_channels: Vec<ScriptValue>,
}

/// What a decoder says of itself.
#[derive(Debug, Clone, PartialEq, Eq)]
pub struct SigrokDecoderDescriptor {
    pub api_version: i64,
    pub id: String,
    pub name: String,
    pub long_name: String,
    pub description: String,
    pub license: String,
    pub inputs: Vec<String>,
    pub outputs: Vec<String>,
    pub tags: Vec<String>,
    pub channels: Vec<SigrokDecoderChannelDescriptor>,
    pub optional_channels: Vec<SigrokDecoderChannelDescriptor>,
    pub options: Vec<SigrokDecoderOptionDescriptor>,
    pub annotations: Vec<SigrokAnnotationClassDescriptor>,
    pub annotation_rows: Vec<SigrokAnnotationRowDescriptor>,
    pub binary: Vec<SigrokAnnotationClassDescriptor>,
    pub logic_output_channels: Vec<SigrokDecoderChannelDescriptor>,
    pub registered_outputs: Vec<SigrokOutputKind>,
    pub package_fingerprint: String,
}

/// The version of the interface that a class speaks, which must be the supported one.
pub open spec fn version_reading(value: ScriptValue) -> Result<i64, DescriptorErrorView> {
    match i64::reading(value) {
        Ok(version) => if version == API_VERSION {
            Ok(version)
        } else {
            Err(DescriptorErrorView::UnsupportedApi(version))
        },
        Err(error) => Err(error),
    }
}

/// The error of a reading.
pub open spec fn error_of<V>(reading: Result<V, DescriptorErrorView>) -> Option<
    DescriptorErrorView,
> {
    match reading {
        Ok(_) => None,
        Err(error) => Some(error),
    }
}

/// The first error of two steps, where the second is taken only after the first.
pub open spec fn either(first: Option<DescriptorErrorView>, second: Option<DescriptorErrorView>) -> Option<
    DescriptorErrorView,
> {
    match first {
        Some(error) => Some(error),
        None => second,
    }
}

/// The first error met when the texts of a class are read, in the order in which they are read.
pub open spec fn text_errors(class: DecoderClass) -> Option<DescriptorErrorView> {
    either(
        error_of(String::reading(class.id)),
        either(
            error_of(String::reading(class.name)),
            either(
                error_of(String::reading(class.long_name)),
                either(
                    error_of(String::reading(class.description)),
                    error_of(String::reading(class.license)),
                ),
            ),
        ),
    )
}

/// The first error met when the rows of a class are read, in the order in which they are read.
pub open spec fn row_errors(class: DecoderClass) -> Option<DescriptorErrorView> {
    either(
        error_of(all_readings::<String>(class.inputs@)),
        either(
            error_of(all_readings::<String>(class.outputs@)),
            either(
                error_of(all_readings::<String>(class.tags@)),
                either(
                    error_of(all_readings::<SigrokDecoderChannelDescriptor>(class.channels@)),
                    either(
                        error_of(all_readings::<SigrokDecoderChannelDescriptor>(class.optional_channels@)),
                        either(
                            error_of(all_readings::<SigrokDecoderOptionDescriptor>(class.options@)),
                            either(
                                error_of(all_readings::<SigrokAnnotationClassDescriptor>(class.annotations@)),
                                either(
                                    error_of(all_readings::<SigrokAnnotationRowDescriptor>(class.annotation_rows@)),
                                    either(
                                        error_of(all_readings::<SigrokAnnotationClassDescriptor>(class.binary@)),
                                        error_of(all_readings::<SigrokDecoderChannelDescriptor>(class.logic_output_channels@)),
                                    ),
                                ),
                            ),
                        ),
                    ),
                ),
            ),
        ),
    )
}

/// The first error met when a class is read.
pub open spec fn class_error(class: DecoderClass) -> Option<DescriptorErrorView> {
    either(
        error_of(version_reading(class.api_version)),
        either(text_errors(class), row_errors(class)),
    )
}

/// Whether a descriptor says what a class says.
pub open spec fn describes(descriptor: SigrokDecoderDescriptor, class: DecoderClass) -> bool {
    &&& version_reading(class.api_version) == Ok::<i64, DescriptorErrorView>(
        descriptor.api_version,
    )
    &&& String::reading(class.id) == Ok::<Seq<char>, DescriptorErrorView>(descriptor.id@)
    &&& String::reading(class.name) == Ok::<Seq<char>, DescriptorErrorView>(descriptor.name@)
    &&& String::reading(class.long_name) == Ok::<Seq<char>, DescriptorErrorView>(descriptor.long_name@)
    &&& String::reading(class.description) == Ok::<Seq<char>, DescriptorErrorView>(descriptor.description@)
    &&& String::reading(class.license) == Ok::<Seq<char>, DescriptorErrorView>(descriptor.license@)
    &&& all_readings::<String>(class.inputs@) == Ok::<
        Seq<<String as View>::V>,
        DescriptorErrorView,
    >(views(descriptor.inputs@))
    &&& all_readings::<String>(class.outputs@) == Ok::<
        Seq<<String as View>::V>,
        DescriptorErrorView,
    >(views(descriptor.outputs@))
    &&& all_readings::<String>(class.tags@) == Ok::<
        Seq<<String as View>::V>,
        DescriptorErrorView,
    >(views(descriptor.tags@))
    &&& all_readings::<SigrokDecoderChannelDescriptor>(class.channels@) == Ok::<
        Seq<<SigrokDecoderChannelDescriptor as View>::V>,
        DescriptorErrorView,
    >(views(descriptor.channels@))
    &&& all_readings::<SigrokDecoderChannelDescriptor>(class.optional_channels@) == Ok::<
        Seq<<SigrokDecoderChannelDescriptor as View>::V>,
        DescriptorErrorView,
    >(views(descriptor.optional_channels@))
    &&& all_readings::<SigrokDecoderOptionDescriptor>(class.options@) == Ok::<
        Seq<<SigrokDecoderOptionDescriptor as View>::V>,
        DescriptorErrorView,
    >(views(descriptor.options@))
    &&& all_readings::<SigrokAnnotationClassDescriptor>(class.annotations@) == Ok::<
        Seq<<SigrokAnnotationClassDescriptor as View>::V>,
        DescriptorErrorView,
    >(views(descriptor.annotations@))
    &&& all_readings::<SigrokAnnotationRowDescriptor>(class.annotation_rows@) == Ok::<
        Seq<<SigrokAnnotationRowDescriptor as View>::V>,
        DescriptorErrorView,
    >(views(descriptor.annotation_rows@))
    &&& all_readings::<SigrokAnnotationClassDescriptor>(class.binary@) == Ok::<
        Seq<<SigrokAnnotationClassDescriptor as View>::V>,
        DescriptorErrorView,
    >(views(descriptor.binary@))
    &&& all_readings::<SigrokDecoderChannelDescriptor>(class.logic_output_channels@) == Ok::<
        Seq<<SigrokDecoderChannelDescriptor as View>::V>,
        DescriptorErrorView,
    >(views(descriptor.logic_output_channels@))
}

/// Reads the attributes of a decoder's class. Its outputs and the digest of its files are not
/// known yet.
pub fn descriptor_from_class(class: &DecoderClass) -> (result: Result<
    SigrokDecoderDescriptor,
    DescriptorError,
>)
    ensures
        match class_error(*class) {
            Some(expected) => result matches Err(error) && error@ == expected,
            None => {
                &&& result matches Ok(descriptor)
                &&& describes(descriptor, *class)
                &&& descriptor.registered_outputs@ == Seq::<SigrokOutputKind>::empty()
                &&& descriptor.package_fingerprint@ == ""@
            },
        },
{
    let api_version: i64 = match i64::from_script(&class.api_version) {
        Ok(version) => {
            if !supports_api(version) {
                return Err(DescriptorError::UnsupportedApi(version));
            }
            version
        },
        Err(error) => {
            return Err(error);
        },
    };
    let id: String = match String::from_script(&class.id) {
        Ok(read) => read,
        Err(error) => {
            return Err(error);
        },
    };
    let name: String = match String::from_script(&class.name) {
        Ok(read) => read,
        Err(error) => {
            return Err(error);
        },
    };
    let long_name: String = match String::from_script(&class.long_name) {
        Ok(read) => read,
        Err(error) => {
            return Err(error);
        },
    };
    let description: String = match String::from_script(&class.description) {
        Ok(read) => read,
        Err(error) => {
            return Err(error);
        },
    };
    let license: String = match String::from_script(&class.license) {
        Ok(read) => read,
        Err(error) => {
            return Err(error);
        },
    };
    let inputs: Vec<String> = match read_all(&class.inputs) {
        Ok(read) => read,
        Err(error) => {
            return Err(error);
        },
    };
    let outputs: Vec<String> = match read_all(&class.outputs) {
        Ok(read) => read,
        Err(error) => {
            return Err(error);
        },
    };
    let tags: Vec<String> = match read_all(&class.tags) {
        Ok(read) => read,
        Err(error) => {
            return Err(error);
        },
    };
    let channels: Vec<SigrokDecoderChannelDescriptor> = match read_all(&class.channels) {
        Ok(read) => read,
        Err(error) => {
            return Err(error);
        },
    };
    let optional_channels: Vec<SigrokDecoderChannelDescriptor> = match read_all(&class.optional_channels) {
        Ok(read) => read,
        Err(error) => {
            return Err(error);
        },
    };
    let options: Vec<SigrokDecoderOptionDescriptor> = match read_all(&class.options) {
        Ok(read) => read,
        Err(error) => {
            return Err(error);
        },
    };
    let annotations: Vec<SigrokAnnotationClassDescriptor> = match read_all(&class.annotations) {
        Ok(read) => read,
        Err(error) => {
            return Err(error);
        },
    };
    let annotation_rows: Vec<SigrokAnnotationRowDescriptor> = match read_all(&class.annotation_rows) {
        Ok(read) => read,
        Err(error) => {
            return Err(error);
        },
    };
    let binary: Vec<SigrokAnnotationClassDescriptor> = match read_all(&class.binary) {
        Ok(read) => read,
        Err(error) => {
            return Err(error);
        },
    };
    let logic_output_channels: Vec<SigrokDecoderChannelDescriptor> = match read_all(&class.logic_output_channels) {
        Ok(read) => read,
        Err(error) => {
            return Err(error);
        },
    };
    Ok(
        SigrokDecoderDescriptor {
            api_version,
            id,
            name,
            long_name,
            description,
            license,
            inputs,
            outputs,
            tags,
            channels,
            optional_channels,
            options,
            annotations,
            annotation_rows,
            binary,
            logic_output_channels,
            registered_outputs: Vec::new(),
            package_fingerprint: owned(""),
        },
    )
}

/// The kinds of the first `count` registered outputs, without those whose type is unknown.
pub open spec fn registered_kinds(registrations: Seq<OutputRegistration>, count: nat) -> Seq<
    SigrokOutputKind,
>
    decreases count,
{
    if count == 0 {
        Seq::empty()
    } else {
        let before = registered_kinds(registrations, (count - 1) as nat);
        match kind_of(registrations[count - 1].output_type) {
            Some(kind) => before.push(kind),
            None => before,
        }
    }
}

/// Lists the kinds of the outputs that a decoder has registered.
pub fn registered_outputs(registrations: &Vec<OutputRegistration>) -> (result: Vec<
    SigrokOutputKind,
>)
    ensures
        result@ == registered_kinds(registrations@, registrations@.len()),
{
    let mut kinds: Vec<SigrokOutputKind> = Vec::new();
    let mut index: usize = 0;
    while index < registrations.len()
        invariant
            index <= registrations@.len(),
            kinds@ == registered_kinds(registrations@, index as nat),
        decreases registrations@.len() - index,
    {
        match output_kind(registrations[index].output_type) {
            Some(kind) => {
                kinds.push(kind);
            },
            None => {},
        }
        index += 1;
    }
    kinds
}

/// A file of a decoder's package.
#[derive(Debug)]
pub struct PackageFile {
    /// Its path below the package.
    pub path: String,
    pub contents: Vec<u8>,
}

/// Whether a directory is left out of a package: compiled scripts are.
pub fn skips_directory(name: &str) -> (result: bool)
    ensures
        result == (name@ == "__pycache__"@),
{
    same_text(name, "__pycache__")
}

/// Whether a file is left out of a package: compiled scripts are.
pub fn skips_file(extension: Option<&str>) -> (result: bool)
    ensures
        result == match extension {
            Some(extension) => extension@ == "pyc"@ || extension@ == "pyo"@,
            None => false,
        },
{
    match extension {
        Some(extension) => same_text(extension, "pyc") || same_text(extension, "pyo"),
        None => false,
    }
}

/// The paths and the contents of the first `count` files of a package, one behind the other.
pub open spec fn package_contents(files: Seq<PackageFile>, count: nat) -> Seq<u8>
    decreases count,
{
    if count == 0 {
        Seq::empty()
    } else {
        package_contents(files, (count - 1) as nat) + encode_utf8(files[count - 1].path@)
            + files[count - 1].contents@
    }
}

/// Writes the paths and the contents of a package's files down, one behind the other.
pub fn package_bytes(files: &Vec<PackageFile>) -> (result: Vec<u8>)
    ensures
        result@ == package_contents(files@, files@.len()),
{
    let mut bytes: Vec<u8> = Vec::new();
    let mut index: usize = 0;
    while index < files.len()
        invariant
            index <= files@.len(),
            bytes@ == package_contents(files@, index as nat),
        decreases files@.len() - index,
    {
        let ghost before = bytes@;
        let file: &PackageFile = &files[index];
        bytes.extend_from_slice(file.path.as_str().as_bytes());
        bytes.extend_from_slice(file.contents.as_slice());
        assert(bytes@ =~= before + encode_utf8(file.path@) + file.contents@);
        index += 1;
    }
    bytes
}

/// The digest of a package, in hexadecimal. The files are given in the order of their paths.
pub fn package_fingerprint(files: &Vec<PackageFile>) -> (result: String)
    ensures
        result@ == hex_pairs(blake3_hash(package_contents(files@, files@.len()))),
{
    let bytes: Vec<u8> = package_bytes(files);
    let digest: [u8; 32] = digest(bytes.as_slice());
    from_chars(hex_pair_chars(digest.as_slice()).as_slice())
}

} // verus!
