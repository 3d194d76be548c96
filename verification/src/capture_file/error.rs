//! Why a capture file cannot be read.

use vstd::prelude::*;

use crate::text::{append_chars, decimal, decimal_chars, from_chars, owned, to_chars};

verus! {

/// Why a capture file cannot be read.
#[derive(Debug, PartialEq, Eq)]
pub enum CaptureFileError {
    ParseError(String),
    InvalidProbe(usize),
    InvalidBlock(u64),
    OutOfBounds(u64),
}

/// An error seen through its message.
pub enum FileErrorView {
    ParseError(Seq<char>),
    InvalidProbe(usize),
    InvalidBlock(u64),
    OutOfBounds(u64),
}

impl View for CaptureFileError {
    type V = FileErrorView;

    open spec fn view(&self) -> FileErrorView {
        match *self {
            CaptureFileError::ParseError(message) => FileErrorView::ParseError(message@),
            CaptureFileError::InvalidProbe(probe) => FileErrorView::InvalidProbe(probe),
            CaptureFileError::InvalidBlock(block) => FileErrorView::InvalidBlock(block),
            CaptureFileError::OutOfBounds(position) => FileErrorView::OutOfBounds(position),
        }
    }
}

/// An error with a message.
pub fn parse_error(message: &str) -> (result: CaptureFileError)
    ensures
        result@ == FileErrorView::ParseError(message@),
{
    CaptureFileError::ParseError(owned(message))
}

/// An error whose message is made of two parts.
pub fn labelled_error(first: &str, second: &[char]) -> (result: CaptureFileError)
    ensures
        result@ == FileErrorView::ParseError(first@ + second@),
{
    let mut message: Vec<char> = to_chars(first);
    append_chars(&mut message, second);
    CaptureFileError::ParseError(from_chars(message.as_slice()))
}

/// An error whose message is made of three parts.
pub fn joined_error(first: &str, second: &[char], third: &str) -> (result: CaptureFileError)
    ensures
        result@ == FileErrorView::ParseError(first@ + second@ + third@),
{
    let mut message: Vec<char> = to_chars(first);
    append_chars(&mut message, second);
    append_chars(&mut message, to_chars(third).as_slice());
    CaptureFileError::ParseError(from_chars(message.as_slice()))
}

/// An error whose message holds two numbers.
pub fn numbers_error(first: &str, left: u64, middle: &str, right: u64, last: &str) -> (result:
    CaptureFileError)
    ensures
        result@ == FileErrorView::ParseError(
            first@ + decimal(left as nat) + middle@ + decimal(right as nat) + last@,
        ),
{
    let mut message: Vec<char> = to_chars(first);
    append_chars(&mut message, decimal_chars(left).as_slice());
    append_chars(&mut message, to_chars(middle).as_slice());
    append_chars(&mut message, decimal_chars(right).as_slice());
    append_chars(&mut message, to_chars(last).as_slice());
    CaptureFileError::ParseError(from_chars(message.as_slice()))
}

} // verus!
