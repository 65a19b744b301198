//! The ways in which a calculation can fail.

use crate::decimal::{hours_text, push_hours};
use vstd::prelude::*;
use vstd::string::*;

verus! {

/// Why a calculation stopped. Every failure is final: no partial result is
/// handed out beside it.
#[derive(Clone, Debug, PartialEq, Eq)]
pub enum TimeError {
    /// A time token ends in neither `am` nor `pm`.
    Suffix,
    /// A time token has none of the recognised forms; holds the token.
    Parse(String),
    /// Fewer than three tokens, or an even number of them; holds the count.
    InvalidArgumentCount(usize),
    /// A span ends before it starts; holds both ends in seconds since midnight.
    NegativeDuration { start: u32, end: u32 },
    /// There is no accumulated entry to lay out.
    EmptyInput,
}

/// What an error says, with text taken by its characters.
pub enum TimeErrorView {
    Suffix,
    Parse(Seq<char>),
    InvalidArgumentCount(nat),
    NegativeDuration { start: nat, end: nat },
    EmptyInput,
}

impl View for TimeError {
    type V = TimeErrorView;

    open spec fn view(&self) -> TimeErrorView {
        match *self {
            TimeError::Suffix => TimeErrorView::Suffix,
            TimeError::Parse(text) => TimeErrorView::Parse(text@),
            TimeError::InvalidArgumentCount(count) => TimeErrorView::InvalidArgumentCount(
                count as nat,
            ),
            TimeError::NegativeDuration { start, end } => TimeErrorView::NegativeDuration {
                start: start as nat,
                end: end as nat,
            },
            TimeError::EmptyInput => TimeErrorView::EmptyInput,
        }
    }
}

/// The message of an error, naming the token or the condition at fault.
pub open spec fn message_text(error: TimeErrorView) -> Seq<char> {
    match error {
        TimeErrorView::Suffix => "Found no am/pm suffix"@,
        TimeErrorView::Parse(text) => "Failed to parse \""@ + text + "\""@,
        TimeErrorView::InvalidArgumentCount(count) => if count < 3 {
            "Must provide at least 3 arguments"@
        } else {
            "Must provide odd number of arguments"@
        },
        TimeErrorView::NegativeDuration { start, end } => "Duration of -"@ + hours_text(
            if start >= end {
                (start - end) as nat
            } else {
                0
            },
        ) + " hours must be non-negative"@,
        TimeErrorView::EmptyInput => "Found no durations"@,
    }
}

impl TimeError {
    /// The message of this error.
    pub fn message(&self) -> (message: String)
        ensures
            message@ == message_text(self@),
    {
        match self {
            TimeError::Suffix => String::from_str("Found no am/pm suffix"),
            TimeError::Parse(text) => {
                let mut message = String::from_str("Failed to parse \"");
                message.append(text.as_str());
                message.append("\"");
                message
            },
            TimeError::InvalidArgumentCount(count) => if *count < 3 {
                String::from_str("Must provide at least 3 arguments")
            } else {
                String::from_str("Must provide odd number of arguments")
            },
            TimeError::NegativeDuration { start, end } => {
                let mut message = String::from_str("Duration of -");
                let short: u32 = if *start >= *end {
                    *start - *end
                } else {
                    0
                };
                push_hours(&mut message, short as u128);
                message.append(" hours must be non-negative");
                message
            },
            TimeError::EmptyInput => String::from_str("Found no durations"),
        }
    }
}

/// A result in seconds, or its error, as plain values.
pub open spec fn seconds_result_view(result: Result<u32, TimeError>) -> Result<
    nat,
    TimeErrorView,
> {
    match result {
        Ok(seconds) => Ok(seconds as nat),
        Err(error) => Err(error@),
    }
}

} // verus!
