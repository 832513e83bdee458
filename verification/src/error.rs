//! What can go wrong when a challenge is made.

use vstd::prelude::*;

verus! {

/// Why a list of weights admits no sampling.
#[derive(Clone, Copy, Debug, PartialEq, Eq, Structural)]
pub enum WeightsError {
    /// The list is empty.
    NoItem,
    /// A weight is out of the supported range.
    InvalidWeight,
    /// Every weight is zero.
    AllWeightsZero,
    /// There are more weights than can be handled.
    TooMany,
}

/// An error of the library.
#[derive(Clone, Copy, Debug, PartialEq, Eq, Structural)]
pub enum TouchTypingError {
    /// The word list could not be read.
    FileParseError,
    /// A path is no valid text.
    InvalidPathError,
    /// The counts of the word list admit no sampling.
    Weights(WeightsError),
    /// A challenge of no words was asked for.
    NoWordAsked,
    /// The challenge would hold more touches than can be counted.
    TooLong,
}

impl WeightsError {
    /// The message of the error, as a character sequence.
    pub open spec fn text(self) -> Seq<char> {
        match self {
            WeightsError::NoItem => "No weights provided in distribution"@,
            WeightsError::InvalidWeight => "A weight is invalid in distribution"@,
            WeightsError::AllWeightsZero => "All weights are zero in distribution"@,
            WeightsError::TooMany => "Too many weights (hit u32::MAX) in distribution"@,
        }
    }

    /// The message of the error.
    pub fn to_string(&self) -> (message: String)
        ensures
            message@ == self.text(),
    {
        match self {
            WeightsError::NoItem => "No weights provided in distribution".to_string(),
            WeightsError::InvalidWeight => "A weight is invalid in distribution".to_string(),
            WeightsError::AllWeightsZero => "All weights are zero in distribution".to_string(),
            WeightsError::TooMany => "Too many weights (hit u32::MAX) in distribution".to_string(),
        }
    }
}

impl TouchTypingError {
    /// The message of the error, as a character sequence.
    pub open spec fn text(self) -> Seq<char> {
        match self {
            TouchTypingError::FileParseError => "A line for form 'word(str) count(usize)' was expected"@,
            TouchTypingError::InvalidPathError => "invalid path"@,
            TouchTypingError::Weights(e) => e.text(),
            TouchTypingError::NoWordAsked => "a challenge needs at least one word"@,
            TouchTypingError::TooLong => "the challenge is too long"@,
        }
    }

    /// The message of the error.
    pub fn to_string(&self) -> (message: String)
        ensures
            message@ == self.text(),
    {
        match self {
            TouchTypingError::FileParseError => "A line for form 'word(str) count(usize)' was expected".to_string(),
            TouchTypingError::InvalidPathError => "invalid path".to_string(),
            TouchTypingError::Weights(e) => e.to_string(),
            TouchTypingError::NoWordAsked => "a challenge needs at least one word".to_string(),
            TouchTypingError::TooLong => "the challenge is too long".to_string(),
        }
    }
}

} // verus!
