//! Why a listing failed.

use vstd::prelude::*;
use vstd::string::*;

use crate::status::code_digits;
use crate::status::status_text;
use crate::status::HttpStatus;

verus! {

/// The three ways in which a listing fails.
#[derive(Clone, Debug, PartialEq, Eq)]
pub enum ListError {
    /// The request could not be completed; holds the transport's account of
    /// the cause.
    ConnectionFailure(String),
    /// A response came, with a status that does not report success.
    StatusFailure(HttpStatus),
    /// The body is not the expected JSON; holds the decoder's account of the
    /// cause.
    ParseFailure(String),
}

impl ListError {
    /// The message shown for this failure.
    pub open spec fn message_text(self) -> Seq<char> {
        match self {
            ListError::ConnectionFailure(cause) => "failed to connect ollama: "@ + cause@,
            ListError::StatusFailure(status) => "ollama request failed with status "@
                + status_text(status.code()),
            ListError::ParseFailure(cause) => "failed to parse ollama response: "@ + cause@,
        }
    }

    /// The message shown for this failure. The message of a status failure
    /// names the status code, in decimal, right after its fixed part.
    pub fn message(&self) -> (text: String)
        ensures
            text@ == self.message_text(),
            self matches ListError::StatusFailure(status) ==> ("ollama request failed with status "@
                + code_digits(status.code()).push(' ')).is_prefix_of(text@),
    {
        match self {
            ListError::ConnectionFailure(cause) => {
                let mut text = String::from_str("failed to connect ollama: ");
                text.append(cause.as_str());
                text
            },
            ListError::StatusFailure(status) => {
                let shown = status.to_text();
                let mut text = String::from_str("ollama request failed with status ");
                text.append(shown.as_str());
                text
            },
            ListError::ParseFailure(cause) => {
                let mut text = String::from_str("failed to parse ollama response: ");
                text.append(cause.as_str());
                text
            },
        }
    }
}

} // verus!
