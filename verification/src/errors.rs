use vstd::prelude::*;

verus! {

/// Why a schedule cell or a raw session record was rejected.
#[derive(Debug, Clone, Copy, PartialEq, Eq, Structural)]
pub enum ParseError {
    /// A required part of the input was absent: a schedule cell with fewer
    /// than two space-separated fields, or a source record missing a field.
    MissingField,
    /// A weekday letter outside the fixed seven-symbol alphabet.
    InvalidDayLetter,
    /// A time token that does not match the 12-hour grammar, names an hour
    /// outside 1..=12, or names minutes above 59.
    InvalidTime,
}

/// Why a set of courses could not be compiled into a calendar document.
#[derive(Debug, Clone, Copy, PartialEq, Eq, Structural)]
pub enum CompileError {
    /// A period's weekday index lies outside 0..=6, or its first occurrence
    /// would fall past the last representable calendar date.
    DateOutOfRange,
}

/// The wording of each parse failure.
pub open spec fn parse_error_text(e: ParseError) -> Seq<char> {
    match e {
        ParseError::MissingField => "Missing required field"@,
        ParseError::InvalidDayLetter => "Invalid day letter"@,
        ParseError::InvalidTime => "Invalid time string"@,
    }
}

/// The wording of each compile failure.
pub open spec fn compile_error_text(e: CompileError) -> Seq<char> {
    match e {
        CompileError::DateOutOfRange => "Error finding first date of course"@,
    }
}

impl ParseError {
    /// A short description of the failure.
    pub fn message(&self) -> (s: &'static str)
        ensures
            s@ == parse_error_text(*self),
    {
        match self {
            ParseError::MissingField => "Missing required field",
            ParseError::InvalidDayLetter => "Invalid day letter",
            ParseError::InvalidTime => "Invalid time string",
        }
    }
}

impl CompileError {
    /// A short description of the failure.
    pub fn message(&self) -> (s: &'static str)
        ensures
            s@ == compile_error_text(*self),
    {
        match self {
            CompileError::DateOutOfRange => "Error finding first date of course",
        }
    }
}

} // verus!
