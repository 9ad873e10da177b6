//! Decoder and browser core for a length-prefixed, line-oriented trace
//! format: primitive parsers, a class-spec decoder, a shared state-block
//! decoder, a line decoder with a root-id filter, a grouping engine, and a
//! navigator state machine over the resulting groups.
use vstd::prelude::*;

pub mod decode;
pub mod group;
pub mod nav;
pub mod primitives;

verus! {

/// The decode failures that the parsers actually produce. The filter
/// outcome ("record belongs to another root") is not an error and is
/// represented separately, in `decode::LineOutcome`.
#[derive(Clone, Copy, Debug, PartialEq, Eq, Structural)]
pub enum ParsedLineError {
    /// A numeric token was missing or its value overflows the target type.
    BadNumber,
    /// A required single delimiter character was not found.
    BadSeparator,
    /// A declared item length exceeds the remaining input.
    NotEnoughCharacters,
    /// Unconsumed input remained after a structurally complete line decode.
    TrailingData,
}

/// The report text of each error kind.
pub open spec fn describe_spec(e: ParsedLineError) -> Seq<char> {
    match e {
        ParsedLineError::BadNumber => "unable to parse number"@,
        ParsedLineError::BadSeparator => "unable to find separator"@,
        ParsedLineError::NotEnoughCharacters => "not enough characters in string"@,
        ParsedLineError::TrailingData => "unconsumed input after line"@,
    }
}

impl ParsedLineError {
    /// A short message for reporting a dropped line.
    pub fn describe(&self) -> (m: &'static str)
        ensures
            m@ == describe_spec(*self),
    {
        match self {
            ParsedLineError::BadNumber => "unable to parse number",
            ParsedLineError::BadSeparator => "unable to find separator",
            ParsedLineError::NotEnoughCharacters => "not enough characters in string",
            ParsedLineError::TrailingData => "unconsumed input after line",
        }
    }
}

} // verus!
