//! The error type both exporters surface: one aggregated, human-readable
//! message. No partial artifact accompanies an error.

use vstd::prelude::*;

use crate::text::{join_sep, join_strings, strs_view};

verus! {

/// A failed export, described by a single joined message.
pub enum QsError {
    ErrorMessage { error_text: String },
}

/// The message a `QsError` carries.
pub open spec fn error_text_of(e: QsError) -> Seq<char> {
    match e {
        QsError::ErrorMessage { error_text } => error_text@,
    }
}

impl QsError {
    /// Aggregates an accumulated error list into one error, the messages
    /// joined by a comma and a space.
    pub fn from_messages(messages: &Vec<String>) -> (r: QsError)
        ensures
            error_text_of(r) == join_sep(strs_view(messages@), ", "@),
    {
        QsError::ErrorMessage { error_text: join_strings(messages, ", ") }
    }

    /// Reads the message back.
    pub fn message(&self) -> (r: &str)
        ensures
            r@ == error_text_of(*self),
    {
        match self {
            QsError::ErrorMessage { error_text } => error_text.as_str(),
        }
    }
}

} // verus!
