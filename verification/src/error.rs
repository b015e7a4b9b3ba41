//! The library's error type and the message each error is shown with.

use vstd::prelude::*;
use vstd::string::*;

use crate::text::{decimal, push_decimal};

verus! {

/// What can go wrong in `ix`. Errors from the operating system and from the
/// JSON codec are carried as their messages.
#[derive(Debug, Clone)]
pub enum IxError {
    NoIndex,
    SlotOutOfRange(usize, usize),
    ParseError(String),
    Io(String),
    Json(String),
    Provider(String),
    Other(String),
}

/// The text an error is shown with.
pub open spec fn error_message(e: IxError) -> Seq<char> {
    match e {
        IxError::NoIndex => "No index found. Run `ix` first to build an index."@,
        IxError::SlotOutOfRange(n, total) => "Slot "@ + decimal(n as nat)
            + " not found in index (index has "@ + decimal(total as nat) + " items)"@,
        IxError::ParseError(m) => "Failed to parse selector: "@ + m@,
        IxError::Io(m) => "I/O error: "@ + m@,
        IxError::Json(m) => "JSON error: "@ + m@,
        IxError::Provider(m) => "Provider error: "@ + m@,
        IxError::Other(m) => m@,
    }
}

/// A parse error carrying exactly the message `msg`.
pub open spec fn is_parse_error(e: IxError, msg: Seq<char>) -> bool {
    e matches IxError::ParseError(m) && m@ == msg
}

impl IxError {
    /// The text this error is shown with.
    pub fn message(&self) -> (r: String)
        ensures
            r@ == error_message(*self),
    {
        match self {
            IxError::NoIndex => String::from_str("No index found. Run `ix` first to build an index."),
            IxError::SlotOutOfRange(n, total) => {
                let mut r = String::from_str("Slot ");
                push_decimal(&mut r, *n as u64);
                r.append(" not found in index (index has ");
                push_decimal(&mut r, *total as u64);
                r.append(" items)");
                r
            },
            IxError::ParseError(m) => {
                let mut r = String::from_str("Failed to parse selector: ");
                r.append(m.as_str());
                r
            },
            IxError::Io(m) => {
                let mut r = String::from_str("I/O error: ");
                r.append(m.as_str());
                r
            },
            IxError::Json(m) => {
                let mut r = String::from_str("JSON error: ");
                r.append(m.as_str());
                r
            },
            IxError::Provider(m) => {
                let mut r = String::from_str("Provider error: ");
                r.append(m.as_str());
                r
            },
            IxError::Other(m) => m.clone(),
        }
    }
}

} // verus!
