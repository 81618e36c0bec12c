//! The errors of the store.

use vstd::prelude::*;
use vstd::string::StringExecFns;

verus! {

#[verifier::external_type_specification]
#[verifier::external_body]
pub struct ExJsonError(serde_json::Error);

/// What can go wrong.
#[derive(Debug)]
pub enum JsonlDBError {
    /// The store is open already.
    AlreadyOpen,
    /// The store is not open.
    NotOpen,
    /// The store must be stopped before it is closed.
    NotStopped,
    /// A value that had to be null, a boolean, a number or a string is an
    /// array or an object; the value's JSON text is attached.
    NotPrimitive(String),
    /// The options cannot be used.
    InvalidOptions { reason: String },
    /// Another process holds the lock.
    LockBusy,
    /// The lock was taken over by another process.
    LockCompromised,
    /// The state of the lock cannot be read.
    LockUnknown,
    /// An operation on the files failed.
    IoError { reason: String },
    /// Text that had to be JSON of a given form is not. With `line`, the
    /// text is that line of the log, counted from one.
    ParseError { line: Option<usize> },
    /// A value could not be rendered as JSON.
    SerializeError { reason: String },
    /// The persistence loop could not be reached.
    AsyncError { reason: String },
    /// Anything else.
    Other { reason: String },
}

/// An error as contracts see it.
pub enum ErrorView {
    AlreadyOpen,
    NotOpen,
    NotStopped,
    NotPrimitive(Seq<char>),
    InvalidOptions { reason: Seq<char> },
    LockBusy,
    LockCompromised,
    LockUnknown,
    IoError { reason: Seq<char> },
    ParseError { line: Option<usize> },
    SerializeError { reason: Seq<char> },
    AsyncError { reason: Seq<char> },
    Other { reason: Seq<char> },
}

impl View for JsonlDBError {
    type V = ErrorView;

    open spec fn view(&self) -> ErrorView {
        match self {
            JsonlDBError::AlreadyOpen => ErrorView::AlreadyOpen,
            JsonlDBError::NotOpen => ErrorView::NotOpen,
            JsonlDBError::NotStopped => ErrorView::NotStopped,
            JsonlDBError::NotPrimitive(text) => ErrorView::NotPrimitive(text@),
            JsonlDBError::InvalidOptions { reason } => ErrorView::InvalidOptions { reason: reason@ },
            JsonlDBError::LockBusy => ErrorView::LockBusy,
            JsonlDBError::LockCompromised => ErrorView::LockCompromised,
            JsonlDBError::LockUnknown => ErrorView::LockUnknown,
            JsonlDBError::IoError { reason } => ErrorView::IoError { reason: reason@ },
            JsonlDBError::ParseError { line } => ErrorView::ParseError { line: *line },
            JsonlDBError::SerializeError { reason } => ErrorView::SerializeError { reason: reason@ },
            JsonlDBError::AsyncError { reason } => ErrorView::AsyncError { reason: reason@ },
            JsonlDBError::Other { reason } => ErrorView::Other { reason: reason@ },
        }
    }
}

/// The reason that `serde_to_string_failed` gives.
pub open spec fn serialize_failed_reason() -> Seq<char> {
    "Failed to serialize to JSON"@
}

impl JsonlDBError {
    /// An error of the files with the given reason.
    pub fn io_error_from_reason(reason: String) -> (e: Self)
        ensures
            e@ == (ErrorView::IoError { reason: reason@ }),
    {
        JsonlDBError::IoError { reason }
    }

    /// The error for a value that `serde_json` could not render.
    pub fn serde_to_string_failed(e: serde_json::Error) -> (r: Self)
        ensures
            r@ == (ErrorView::SerializeError { reason: serialize_failed_reason() }),
    {
        JsonlDBError::SerializeError { reason: String::from_str("Failed to serialize to JSON") }
    }

    /// Any other error with the given reason.
    pub fn other(reason: &str) -> (e: Self)
        ensures
            e@ == (ErrorView::Other { reason: reason@ }),
    {
        JsonlDBError::Other { reason: String::from_str(reason) }
    }
}

/// The decimal digit for a number below ten.
pub open spec fn digit(d: nat) -> Seq<char> {
    if d == 0 {
        "0"@
    } else if d == 1 {
        "1"@
    } else if d == 2 {
        "2"@
    } else if d == 3 {
        "3"@
    } else if d == 4 {
        "4"@
    } else if d == 5 {
        "5"@
    } else if d == 6 {
        "6"@
    } else if d == 7 {
        "7"@
    } else if d == 8 {
        "8"@
    } else {
        "9"@
    }
}

/// The decimal numeral of a number.
pub open spec fn decimal(n: nat) -> Seq<char>
    decreases n,
{
    if n < 10 {
        digit(n)
    } else {
        decimal(n / 10) + digit(n % 10)
    }
}

/// The decimal digit for a number below ten.
fn digit_text(d: usize) -> (text: &'static str)
    requires
        d < 10,
    ensures
        text@ == digit(d as nat),
{
    if d == 0 {
        "0"
    } else if d == 1 {
        "1"
    } else if d == 2 {
        "2"
    } else if d == 3 {
        "3"
    } else if d == 4 {
        "4"
    } else if d == 5 {
        "5"
    } else if d == 6 {
        "6"
    } else if d == 7 {
        "7"
    } else if d == 8 {
        "8"
    } else {
        "9"
    }
}

/// The decimal numeral of a number.
pub fn decimal_text(n: usize) -> (text: String)
    ensures
        text@ == decimal(n as nat),
    decreases n,
{
    if n < 10 {
        String::from_str(digit_text(n))
    } else {
        let mut text = decimal_text(n / 10);
        text.append(digit_text(n % 10));
        text
    }
}

/// The message of an error.
pub open spec fn message_of(e: ErrorView) -> Seq<char> {
    match e {
        ErrorView::AlreadyOpen => "The DB is already open"@,
        ErrorView::NotOpen => "The DB is not open"@,
        ErrorView::NotStopped => "The DB must be stopped to close the DB files"@,
        ErrorView::NotPrimitive(text) => "The value "@ + text + " is not a primitive"@,
        ErrorView::InvalidOptions { reason } => "Invalid options"@,
        ErrorView::LockBusy => "Lockfile is in use"@,
        ErrorView::LockCompromised => "Lockfile was compromised"@,
        ErrorView::LockUnknown => "Could not acquire lockfile"@,
        ErrorView::IoError { reason } => "IO operation failed"@,
        ErrorView::ParseError { line: Some(n) } => "Cannot open DB file: Invalid data in line "@ + decimal(
            n as nat,
        ),
        ErrorView::ParseError { line: None } => "Could not import JSON"@,
        ErrorView::SerializeError { reason } => reason,
        ErrorView::AsyncError { reason } => reason,
        ErrorView::Other { reason } => reason,
    }
}

impl JsonlDBError {
    /// The message of the error.
    pub fn message(&self) -> (text: String)
        ensures
            text@ == message_of(self@),
    {
        match self {
            JsonlDBError::AlreadyOpen => String::from_str("The DB is already open"),
            JsonlDBError::NotOpen => String::from_str("The DB is not open"),
            JsonlDBError::NotStopped => String::from_str("The DB must be stopped to close the DB files"),
            JsonlDBError::NotPrimitive(value) => {
                let mut text = String::from_str("The value ");
                text.append(value.as_str());
                text.append(" is not a primitive");
                text
            },
            JsonlDBError::InvalidOptions { reason: _ } => String::from_str("Invalid options"),
            JsonlDBError::LockBusy => String::from_str("Lockfile is in use"),
            JsonlDBError::LockCompromised => String::from_str("Lockfile was compromised"),
            JsonlDBError::LockUnknown => String::from_str("Could not acquire lockfile"),
            JsonlDBError::IoError { reason: _ } => String::from_str("IO operation failed"),
            JsonlDBError::ParseError { line } => match line {
                Some(n) => {
                    let mut text = String::from_str("Cannot open DB file: Invalid data in line ");
                    let number = decimal_text(*n);
                    text.append(number.as_str());
                    text
                },
                None => String::from_str("Could not import JSON"),
            },
            JsonlDBError::SerializeError { reason } => reason.clone(),
            JsonlDBError::AsyncError { reason } => reason.clone(),
            JsonlDBError::Other { reason } => reason.clone(),
        }
    }
}

} // verus!
