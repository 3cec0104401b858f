//! Errors of the stages of ingestion.

use vstd::prelude::*;
use vstd::string::*;

use crate::text::{decimal, decimal_text};

verus! {

/// An error of a stage.
#[derive(Debug, PartialEq, Eq)]
pub enum StageError {
    /// A line is longer than the limit.
    LineTooLarge { size: usize, max: usize },
    /// A line is not a JSON object.
    Parse(String),
    /// A value does not fit its column.
    Normalization(String),
    /// A floating-point value does not fit its column. The message is complete once the value that
    /// the numeral rounds to is shown behind it.
    FloatMismatch { message: String, numeral: String },
    /// The write-ahead log or the dead-letter output failed.
    Wal(String),
    /// A table could not be written.
    Write(String),
}

/// What an error of a stage says.
pub enum StageErrorView {
    LineTooLarge { size: usize, max: usize },
    Parse(Seq<char>),
    Normalization(Seq<char>),
    FloatMismatch { message: Seq<char>, numeral: Seq<char> },
    Wal(Seq<char>),
    Write(Seq<char>),
}

impl View for StageError {
    type V = StageErrorView;

    open spec fn view(&self) -> StageErrorView {
        match self {
            StageError::LineTooLarge { size, max } => StageErrorView::LineTooLarge {
                size: *size,
                max: *max,
            },
            StageError::Parse(text) => StageErrorView::Parse(text@),
            StageError::Normalization(text) => StageErrorView::Normalization(text@),
            StageError::FloatMismatch { message, numeral } => StageErrorView::FloatMismatch {
                message: message@,
                numeral: numeral@,
            },
            StageError::Wal(text) => StageErrorView::Wal(text@),
            StageError::Write(text) => StageErrorView::Write(text@),
        }
    }
}

impl StageErrorView {
    /// Whether nothing is left to be shown in the message.
    pub open spec fn complete(self) -> bool {
        !(self is FloatMismatch)
    }

    /// The error with the message completed by how its floating-point value is shown.
    pub open spec fn showing(self, shown: Seq<char>) -> StageErrorView {
        match self {
            StageErrorView::FloatMismatch { message, .. } => StageErrorView::Normalization(
                message + "Float64("@ + shown + ")"@,
            ),
            other => other,
        }
    }

    /// What a complete error says.
    pub open spec fn message(self) -> Seq<char>
        recommends
            self.complete(),
    {
        match self {
            StageErrorView::LineTooLarge { size, max } => "line too large: "@ + decimal_text(
                size as nat,
            ) + " bytes (max "@ + decimal_text(max as nat) + ")"@,
            StageErrorView::Parse(text) => "JSON parse error: "@ + text,
            StageErrorView::Normalization(text) => "normalization error: "@ + text,
            StageErrorView::FloatMismatch { message, .. } => "normalization error: "@ + message,
            StageErrorView::Wal(text) => "WAL error: "@ + text,
            StageErrorView::Write(text) => "write error: "@ + text,
        }
    }
}

impl StageError {
    /// The numeral whose value is left to be shown in the message.
    pub fn unshown_float(&self) -> (r: Option<&String>)
        ensures
            match self {
                StageError::FloatMismatch { numeral, .. } => r == Some(numeral),
                _ => r is None,
            },
    {
        match self {
            StageError::FloatMismatch { numeral, .. } => Some(numeral),
            _ => None,
        }
    }

    /// Completes the message by how its floating-point value is shown.
    pub fn show_float(self, shown: &str) -> (r: StageError)
        ensures
            r@ == self@.showing(shown@),
            r@.complete(),
    {
        match self {
            StageError::FloatMismatch { message, .. } => StageError::Normalization(
                message.concat("Float64(").concat(shown).concat(")"),
            ),
            other => other,
        }
    }

    pub fn to_string(&self) -> (r: String)
        requires
            self@.complete(),
        ensures
            r@ == self@.message(),
    {
        match self {
            StageError::LineTooLarge { size, max } => {
                let size_text: String = decimal(*size as u64);
                let max_text: String = decimal(*max as u64);
                "line too large: ".to_owned().concat(size_text.as_str()).concat(
                    " bytes (max ",
                ).concat(max_text.as_str()).concat(")")
            },
            StageError::Parse(text) => "JSON parse error: ".to_owned().concat(text.as_str()),
            StageError::Normalization(text) => "normalization error: ".to_owned().concat(
                text.as_str(),
            ),
            StageError::FloatMismatch { .. } => vstd::pervasive::unreached(),
            StageError::Wal(text) => "WAL error: ".to_owned().concat(text.as_str()),
            StageError::Write(text) => "write error: ".to_owned().concat(text.as_str()),
        }
    }
}

} // verus!
