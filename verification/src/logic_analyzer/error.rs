//! Driver-independent capture errors.

use vstd::prelude::*;

use crate::text::{append_chars, decimal, decimal_chars, from_chars, owned, to_chars};

verus! {

/// A driver-independent capture error.
#[derive(Debug, PartialEq, Eq)]
pub enum LogicAnalyzerError {
    InvalidSettings(String),
    Transport(String),
    Protocol(String),
    Integrity(String),
    Timeout(String),
    NotCapturing,
}

/// The kind of an error and its message.
pub enum ErrorView {
    InvalidSettings(Seq<char>),
    Transport(Seq<char>),
    Protocol(Seq<char>),
    Integrity(Seq<char>),
    Timeout(Seq<char>),
    NotCapturing,
}

impl View for LogicAnalyzerError {
    type V = ErrorView;

    open spec fn view(&self) -> ErrorView {
        match *self {
            LogicAnalyzerError::InvalidSettings(message) => ErrorView::InvalidSettings(message@),
            LogicAnalyzerError::Transport(message) => ErrorView::Transport(message@),
            LogicAnalyzerError::Protocol(message) => ErrorView::Protocol(message@),
            LogicAnalyzerError::Integrity(message) => ErrorView::Integrity(message@),
            LogicAnalyzerError::Timeout(message) => ErrorView::Timeout(message@),
            LogicAnalyzerError::NotCapturing => ErrorView::NotCapturing,
        }
    }
}

/// The sentence that describes an error.
pub open spec fn error_sentence(error: ErrorView) -> Seq<char> {
    match error {
        ErrorView::InvalidSettings(message) => "invalid capture settings: "@ + message,
        ErrorView::Transport(message) => "transport error: "@ + message,
        ErrorView::Protocol(message) => "protocol error: "@ + message,
        ErrorView::Integrity(message) => "capture integrity error: "@ + message,
        ErrorView::Timeout(message) => "operation timed out: "@ + message,
        ErrorView::NotCapturing => "capture is not active"@,
    }
}

/// What a result is once its values are seen through a view.
pub open spec fn outcome<T: View>(result: Result<T, LogicAnalyzerError>) -> Result<
    T::V,
    ErrorView,
> {
    match result {
        Ok(value) => Ok(value@),
        Err(error) => Err(error@),
    }
}

fn sentence(prefix: &str, message: &str) -> (result: String)
    ensures
        result@ == prefix@ + message@,
{
    let mut characters: Vec<char> = to_chars(prefix);
    append_chars(&mut characters, to_chars(message).as_slice());
    from_chars(characters.as_slice())
}

impl LogicAnalyzerError {
    /// The sentence that describes this error.
    pub fn sentence(&self) -> (result: String)
        ensures
            result@ == error_sentence(self@),
    {
        match self {
            LogicAnalyzerError::InvalidSettings(message) => sentence(
                "invalid capture settings: ",
                message.as_str(),
            ),
            LogicAnalyzerError::Transport(message) => sentence(
                "transport error: ",
                message.as_str(),
            ),
            LogicAnalyzerError::Protocol(message) => sentence("protocol error: ", message.as_str()),
            LogicAnalyzerError::Integrity(message) => sentence(
                "capture integrity error: ",
                message.as_str(),
            ),
            LogicAnalyzerError::Timeout(message) => sentence(
                "operation timed out: ",
                message.as_str(),
            ),
            LogicAnalyzerError::NotCapturing => owned("capture is not active"),
        }
    }
}

/// An error for settings that a device cannot honour.
pub fn invalid_settings(message: &str) -> (result: LogicAnalyzerError)
    ensures
        result@ == ErrorView::InvalidSettings(message@),
{
    LogicAnalyzerError::InvalidSettings(owned(message))
}

/// An error in what a device sent or accepted.
pub fn protocol(message: &str) -> (result: LogicAnalyzerError)
    ensures
        result@ == ErrorView::Protocol(message@),
{
    LogicAnalyzerError::Protocol(owned(message))
}

/// An error of the transport itself.
pub fn transport(message: &str) -> (result: LogicAnalyzerError)
    ensures
        result@ == ErrorView::Transport(message@),
{
    LogicAnalyzerError::Transport(owned(message))
}

/// An operation that did not end in time.
pub fn timeout(message: &str) -> (result: LogicAnalyzerError)
    ensures
        result@ == ErrorView::Timeout(message@),
{
    LogicAnalyzerError::Timeout(owned(message))
}

/// Says how much of a transfer came through.
pub open spec fn short_message(what: Seq<char>, moved: int, expected: int) -> Seq<char> {
    "short "@ + what + ": "@ + decimal(moved as nat) + "/"@ + decimal(expected as nat) + " bytes"@
}

/// The error for a transfer that moved fewer or more bytes than it should have.
pub fn short_transfer(what: &str, moved: usize, expected: usize) -> (result: LogicAnalyzerError)
    ensures
        result@ == ErrorView::Protocol(short_message(what@, moved as int, expected as int)),
{
    let mut message: Vec<char> = to_chars("short ");
    append_chars(&mut message, to_chars(what).as_slice());
    append_chars(&mut message, to_chars(": ").as_slice());
    append_chars(&mut message, decimal_chars(moved as u64).as_slice());
    append_chars(&mut message, to_chars("/").as_slice());
    append_chars(&mut message, decimal_chars(expected as u64).as_slice());
    append_chars(&mut message, to_chars(" bytes").as_slice());
    LogicAnalyzerError::Protocol(from_chars(message.as_slice()))
}

/// The words that a kind of error is described by.
pub open spec fn kind_words(error: ErrorView) -> Seq<char> {
    if error is Timeout {
        "operation timed out"@
    } else if error is Integrity {
        "capture integrity error"@
    } else if error is Protocol {
        "protocol error"@
    } else if error is Transport {
        "transport error"@
    } else if error is InvalidSettings {
        "invalid capture settings"@
    } else {
        "capture is not active"@
    }
}

/// The sentence of an error begins with the words of its kind and ends with its message, and only
/// a colon and a blank stand between them.
pub proof fn law_sentence_names_kind_and_message(error: ErrorView, message: Seq<char>)
    requires
        ({
            ||| error == ErrorView::InvalidSettings(message)
            ||| error == ErrorView::Transport(message)
            ||| error == ErrorView::Protocol(message)
            ||| error == ErrorView::Integrity(message)
            ||| error == ErrorView::Timeout(message)
        }),
    ensures
        error_sentence(error).len() == kind_words(error).len() + 2 + message.len(),
        error_sentence(error).take(kind_words(error).len() as int) == kind_words(error),
        error_sentence(error)[kind_words(error).len() as int] == ':',
        error_sentence(error).skip(kind_words(error).len() as int + 2) == message,
        error_sentence(ErrorView::NotCapturing) == kind_words(ErrorView::NotCapturing),
{
    reveal_strlit("operation timed out");
    reveal_strlit("operation timed out: ");
    reveal_strlit("capture integrity error");
    reveal_strlit("capture integrity error: ");
    reveal_strlit("protocol error");
    reveal_strlit("protocol error: ");
    reveal_strlit("transport error");
    reveal_strlit("transport error: ");
    reveal_strlit("invalid capture settings");
    reveal_strlit("invalid capture settings: ");
    assert(error_sentence(error).take(kind_words(error).len() as int) =~= kind_words(error));
    assert(error_sentence(error).skip(kind_words(error).len() as int + 2) =~= message);
}

} // verus!
