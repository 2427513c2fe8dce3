//! The ways in which a translation can fail.

use vstd::prelude::*;

verus! {

/// Why a line or a message could not be translated.
#[derive(Clone, Copy, Debug, PartialEq, Eq, Structural)]
pub enum TranslateError {
    /// The first token of the line is none of `NOTIFY`, `OK` and `ERROR`.
    UnsupportedVerb,
    /// The line is empty, a `NOTIFY` or `OK` line lacks one of the two tokens
    /// that make its address, or the address has no non-empty segment.
    InvalidAddress,
    /// An argument is neither an integer, a float nor text.
    UnsupportedArgumentType,
}

impl TranslateError {
    /// The text of `message`.
    pub open spec fn message_text(self) -> Seq<char> {
        match self {
            TranslateError::UnsupportedVerb => "Unsupported message type"@,
            TranslateError::InvalidAddress => "Invalid OSC address"@,
            TranslateError::UnsupportedArgumentType => "Unsupported OSC type"@,
        }
    }

    /// A short description for a log line.
    pub fn message(&self) -> (r: &'static str)
        ensures
            r@ == self.message_text(),
    {
        match self {
            TranslateError::UnsupportedVerb => "Unsupported message type",
            TranslateError::InvalidAddress => "Invalid OSC address",
            TranslateError::UnsupportedArgumentType => "Unsupported OSC type",
        }
    }
}

} // verus!
