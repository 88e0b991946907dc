//! Positioned parse failures and their classification.

use vstd::prelude::*;

verus! {

/// The six record kinds of the format, each identified by a three-digit
/// leading code.
#[derive(Clone, Copy, Debug, PartialEq, Eq, Structural)]
pub enum RecordTag {
    /// `100`: file header.
    Header,
    /// `200`: meter configuration, opening a block.
    NMIDataDetails,
    /// `300`: one day of interval readings.
    IntervalData,
    /// `400`: quality event attached to the preceding interval data.
    IntervalEvent,
    /// `500`: exchange record trailing a block.
    B2BDetails,
    /// `900`: terminal marker.
    EndOfData,
}

/// Why an input was rejected.
#[derive(Clone, Copy, Debug, PartialEq, Eq, Structural)]
pub enum ErrorKind {
    /// A field violates its width or character-set constraint.
    Lexical,
    /// A date or time token has the right shape but names no calendar value.
    Temporal,
    /// An interval-data record does not carry the number of readings that
    /// its block's interval length implies.
    Arity,
    /// A record appears where its kind is not legal.
    Structure,
    /// An interval length does not evenly divide the minutes of a day.
    Divisibility,
}

/// A failure in mathematical form: what went wrong, which record was wanted
/// there (for structural failures), and the offset of the offending token.
pub struct Fault {
    pub kind: ErrorKind,
    pub expected: Option<RecordTag>,
    pub at: int,
}

/// A positioned failure. `offset` is the index, in the buffer that was
/// parsed, of the first byte of the token that could not be accepted.
#[derive(Clone, Copy, Debug, PartialEq, Eq, Structural)]
pub struct ParseError {
    pub kind: ErrorKind,
    pub expected: Option<RecordTag>,
    pub offset: usize,
}

impl View for ParseError {
    type V = Fault;

    open spec fn view(&self) -> Fault {
        Fault { kind: self.kind, expected: self.expected, at: self.offset as int }
    }
}

/// The fault of a field that breaks its width or character-set rule at `at`.
pub open spec fn lexical(at: int) -> Fault {
    Fault { kind: ErrorKind::Lexical, expected: None, at }
}

/// The fault of a date or time token at `at` that names no calendar value.
pub open spec fn temporal(at: int) -> Fault {
    Fault { kind: ErrorKind::Temporal, expected: None, at }
}

/// The fault of a reading count that differs from the sample count, seen at `at`.
pub open spec fn arity(at: int) -> Fault {
    Fault { kind: ErrorKind::Arity, expected: None, at }
}

/// The fault of finding something else at `at` where a `tag` record was wanted.
pub open spec fn structural(at: int, tag: RecordTag) -> Fault {
    Fault { kind: ErrorKind::Structure, expected: Some(tag), at }
}

impl ParseError {
    /// A lexical failure at `offset`.
    pub fn lexical(offset: usize) -> (e: ParseError)
        ensures
            e@ == lexical(offset as int),
    {
        ParseError { kind: ErrorKind::Lexical, expected: None, offset }
    }

    /// A temporal failure at `offset`.
    pub fn temporal(offset: usize) -> (e: ParseError)
        ensures
            e@ == temporal(offset as int),
    {
        ParseError { kind: ErrorKind::Temporal, expected: None, offset }
    }

    /// An arity failure at `offset`.
    pub fn arity(offset: usize) -> (e: ParseError)
        ensures
            e@ == arity(offset as int),
    {
        ParseError { kind: ErrorKind::Arity, expected: None, offset }
    }

    /// A structural failure at `offset`, where a `tag` record was wanted.
    pub fn structural(offset: usize, tag: RecordTag) -> (e: ParseError)
        ensures
            e@ == structural(offset as int, tag),
    {
        ParseError { kind: ErrorKind::Structure, expected: Some(tag), offset }
    }
}

impl ErrorKind {
    /// The sentence that states the rule this kind of failure breaks.
    pub open spec fn reason_text(self) -> Seq<char> {
        match self {
            ErrorKind::Lexical => "a field violates its width or character set"@,
            ErrorKind::Temporal => "a date or time names no calendar value"@,
            ErrorKind::Arity => "the number of readings differs from the sample count"@,
            ErrorKind::Structure => "a record stands where its kind is not legal"@,
            ErrorKind::Divisibility => "the interval length does not divide the day"@,
        }
    }

    /// States the rule that this kind of failure breaks.
    pub fn reason(self) -> (text: &'static str)
        ensures
            text@ == self.reason_text(),
    {
        match self {
            ErrorKind::Lexical => "a field violates its width or character set",
            ErrorKind::Temporal => "a date or time names no calendar value",
            ErrorKind::Arity => "the number of readings differs from the sample count",
            ErrorKind::Structure => "a record stands where its kind is not legal",
            ErrorKind::Divisibility => "the interval length does not divide the day",
        }
    }
}

/// Why a document was rejected: the failure and the 1-based number of the
/// line that holds the offending token.
#[derive(Clone, Copy, Debug, PartialEq, Eq, Structural)]
pub struct Failure {
    pub line: usize,
    pub error: ParseError,
}

impl Failure {
    /// States the rule that was broken.
    pub fn message(&self) -> (text: &'static str)
        ensures
            text@ == self.error.kind.reason_text(),
    {
        self.error.kind.reason()
    }
}

} // verus!
