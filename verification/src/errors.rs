//! The failure conditions the tokenizer can surface.

use vstd::prelude::*;

verus! {

/// A recoverable tokenization failure, detected purely from local lexical
/// context. `UnterminatedValue`: a quote opened a value but no closing quote
/// exists in the remaining input. `InvalidNameStart`: the carried character
/// reached name extraction but is not an ASCII letter or `_`.
#[derive(Debug, Copy, Clone, PartialEq, Eq)]
pub enum ExtractError {
    UnterminatedValue,
    InvalidNameStart(char),
}

impl ExtractError {
    /// A short, fixed description of the failure kind.
    pub fn description(&self) -> (r: String)
        ensures
            self is UnterminatedValue ==> r@ == "missing closing quote for value"@,
            self is InvalidNameStart ==> r@ == "invalid first character for name"@,
    {
        match self {
            ExtractError::UnterminatedValue => String::from_str("missing closing quote for value"),
            ExtractError::InvalidNameStart(_c) => String::from_str("invalid first character for name"),
        }
    }
}

} // verus!
