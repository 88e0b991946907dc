//! Token primitives: bounded-length fields, fixed-width dates and times,
//! record separators and the rule for optional fields.
//!
//! Every primitive reads `input` from the offset `start` and answers with
//! the offset just behind what it accepted. An offset beyond the end of the
//! input reads as the end of the input.

use crate::calendar::{
    all_digits, chrono_date, chrono_datetime, date_of_digits, datetime_of_digits, Date, DateTime,
};
use crate::charset::{is_digit, lemma_run_len, run_len, scan_run, Charset, NEWLINE, POINT};
use crate::error::{lexical, temporal, Fault, ParseError};
use vstd::prelude::*;
use vstd::slice::slice_subrange;

verus! {

/// The shape of a field's text.
#[derive(Clone, Copy, Debug, PartialEq, Eq, Structural)]
pub enum Token {
    /// The longest run of bytes of one class.
    Run(Charset),
    /// Decimal digits, then at most once a point followed by more digits.
    Decimal,
}

impl Token {
    /// Length of the text of this shape that starts at `p` in `s`; zero where
    /// there is none.
    pub open spec fn len_at(self, s: Seq<u8>, p: int) -> nat {
        match self {
            Token::Run(set) => run_len(s, p, set),
            Token::Decimal => {
                let whole = run_len(s, p, Charset::Digit);
                let fraction = run_len(s, p + whole + 1, Charset::Digit);
                if whole > 0 && p + whole < s.len() && s[p + whole] == POINT && fraction > 0 {
                    whole + 1 + fraction
                } else {
                    whole
                }
            },
        }
    }

    /// Finds the end of the text of this shape that starts at `start`.
    pub fn scan(self, input: &[u8], start: usize) -> (end: usize)
        ensures
            end == start + self.len_at(input@, start as int),
            start <= input@.len() ==> end <= input@.len(),
    {
        match self {
            Token::Run(set) => scan_run(input, start, set),
            Token::Decimal => {
                let whole_end = scan_run(input, start, Charset::Digit);
                if whole_end > start && whole_end < input.len() && input[whole_end] == POINT {
                    let fraction_end = scan_run(input, whole_end + 1, Charset::Digit);
                    if fraction_end > whole_end + 1 {
                        fraction_end
                    } else {
                        whole_end
                    }
                } else {
                    proof {
                        lemma_run_len(input@, start as int, Charset::Digit);
                    }
                    whole_end
                }
            },
        }
    }
}

/// Every text of shape `token` that starts inside `s` ends inside it.
pub proof fn lemma_tokens_end_inside(s: Seq<u8>, token: Token)
    ensures
        forall|p: int| 0 <= p <= s.len() ==> p + #[trigger] token.len_at(s, p) <= s.len(),
{
    assert forall|p: int| 0 <= p <= s.len() implies p + #[trigger] token.len_at(s, p)
        <= s.len() by {
        match token {
            Token::Run(set) => {
                lemma_run_len(s, p, set);
            },
            Token::Decimal => {
                let whole = run_len(s, p, Charset::Digit);
                lemma_run_len(s, p, Charset::Digit);
                lemma_run_len(s, p + whole + 1, Charset::Digit);
            },
        }
    }
}

/// A field of shape `token` at `p` that is not empty and at most `max` bytes
/// long: the offset behind it, or a lexical fault at `p`.
pub open spec fn bounded_at(s: Seq<u8>, p: int, token: Token, max: nat) -> Result<int, Fault> {
    let n = token.len_at(s, p);
    if 1 <= n <= max {
        Ok(p + n)
    } else {
        Err(lexical(p))
    }
}

/// A field of shape `token` at `p` that is exactly `len` bytes long and not
/// empty: the offset behind it, or a lexical fault at `p`.
pub open spec fn exact_at(s: Seq<u8>, p: int, token: Token, len: nat) -> Result<int, Fault> {
    let n = token.len_at(s, p);
    if 1 <= n && n == len {
        Ok(p + n)
    } else {
        Err(lexical(p))
    }
}

/// One or more line feeds at `p`: the offset behind them and their number, or
/// a lexical fault at `p`.
pub open spec fn separator_at(s: Seq<u8>, p: int) -> Result<(int, nat), Fault> {
    let n = run_len(s, p, Charset::Newline);
    if n >= 1 {
        Ok((p + n, n))
    } else {
        Err(lexical(p))
    }
}

/// Whether the slot at `p` holds no value: the input ends there, or the
/// delimiter `end_marker` or a line feed stands there.
pub open spec fn slot_is_empty(s: Seq<u8>, p: int, end_marker: u8) -> bool {
    p >= s.len() || s[p] == end_marker || s[p] == NEWLINE
}

/// The rule for an optional field at `p`, given what the field's own parser
/// made of it: a value that parsed is present; a failure over an empty slot
/// means the field is absent and nothing is consumed; any other failure
/// stands.
pub open spec fn optional_at<T>(
    inner: Result<(int, T), Fault>,
    s: Seq<u8>,
    p: int,
    end_marker: u8,
) -> Result<(int, Option<T>), Fault> {
    match inner {
        Ok((next, value)) => Ok((next, Some(value))),
        Err(fault) => if slot_is_empty(s, p, end_marker) {
            Ok((p, None))
        } else {
            Err(fault)
        },
    }
}

/// Whether the `n` bytes from `p` on exist and are all digits.
pub open spec fn digits_at(s: Seq<u8>, p: int, n: nat) -> bool {
    0 <= p && p + n <= s.len() && all_digits(s.subrange(p, p + n))
}

/// Eight digits `YYYYMMDD` at `p`: a lexical fault where there are no eight
/// digits, a temporal fault where they name no day.
pub open spec fn date8_at(s: Seq<u8>, p: int) -> Result<(int, Date), Fault> {
    if digits_at(s, p, 8) {
        match date_of_digits(s.subrange(p, p + 8)) {
            Some(date) => Ok((p + 8, date)),
            None => Err(temporal(p)),
        }
    } else {
        Err(lexical(p))
    }
}

/// `width` digits at `p`, twelve for `YYYYMMDDHHMM` or fourteen for
/// `YYYYMMDDHHMMSS`: a lexical fault where the digits are missing, a
/// temporal fault where they name no day or no time of day.
pub open spec fn datetime_at(s: Seq<u8>, p: int, width: nat) -> Result<(int, DateTime), Fault> {
    if digits_at(s, p, width) {
        match datetime_of_digits(s.subrange(p, p + width)) {
            Some(time) => Ok((p + width, time)),
            None => Err(temporal(p)),
        }
    } else {
        Err(lexical(p))
    }
}

/// The number of line feeds among the first `p` bytes of `s`.
pub open spec fn newlines_before(s: Seq<u8>, p: int) -> nat
    decreases p,
{
    if p <= 0 || p > s.len() {
        0
    } else {
        newlines_before(s, p - 1) + if s[p - 1] == NEWLINE {
            1nat
        } else {
            0nat
        }
    }
}

/// The 1-based number of the line that holds offset `p`; an offset beyond
/// the end counts as the end.
pub open spec fn line_at(s: Seq<u8>, p: int) -> nat {
    if p > s.len() {
        1 + newlines_before(s, s.len() as int)
    } else {
        1 + newlines_before(s, p)
    }
}

/// Skips the run of line feeds that separates two records.
pub fn rec_separator(input: &[u8], start: usize) -> (r: Result<(usize, usize), ParseError>)
    ensures
        r matches Ok((next, count)) ==> separator_at(input@, start as int) == Ok::<
            (int, nat),
            Fault,
        >((next as int, count as nat)),
        r matches Err(e) ==> separator_at(input@, start as int) == Err::<(int, nat), Fault>(e@),
{
    let end = scan_run(input, start, Charset::Newline);
    if end > start {
        Ok((end, end - start))
    } else {
        Err(ParseError::lexical(start))
    }
}

/// Reads a field of shape `token` that is not empty and at most `length`
/// bytes long.
pub fn section_of_max_length<'a>(input: &'a [u8], start: usize, token: Token, length: usize) -> (r:
    Result<(usize, &'a [u8]), ParseError>)
    ensures
        r matches Ok((next, field)) ==> bounded_at(input@, start as int, token, length as nat)
            == Ok::<int, Fault>(next as int) && field@ == input@.subrange(
            start as int,
            next as int,
        ),
        r matches Err(e) ==> bounded_at(input@, start as int, token, length as nat) == Err::<
            int,
            Fault,
        >(e@),
{
    let end = token.scan(input, start);
    if end > start && end - start <= length {
        Ok((end, slice_subrange(input, start, end)))
    } else {
        Err(ParseError::lexical(start))
    }
}

/// Reads a field of shape `token` that is exactly `length` bytes long.
pub fn section_of_exact_length<'a>(
    input: &'a [u8],
    start: usize,
    token: Token,
    length: usize,
) -> (r: Result<(usize, &'a [u8]), ParseError>)
    ensures
        r matches Ok((next, field)) ==> exact_at(input@, start as int, token, length as nat)
            == Ok::<int, Fault>(next as int) && field@ == input@.subrange(
            start as int,
            next as int,
        ),
        r matches Err(e) ==> exact_at(input@, start as int, token, length as nat) == Err::<
            int,
            Fault,
        >(e@),
{
    let end = token.scan(input, start);
    if end > start && end - start == length {
        Ok((end, slice_subrange(input, start, end)))
    } else {
        Err(ParseError::lexical(start))
    }
}

/// Tells whether the slot at `start` holds no value.
pub fn slot_empty(input: &[u8], start: usize, end_marker: u8) -> (r: bool)
    ensures
        r == slot_is_empty(input@, start as int, end_marker),
{
    start >= input.len() || input[start] == end_marker || input[start] == NEWLINE
}

/// Applies the rule for optional fields to `outcome`, the result of parsing
/// the field at `start`: a parsed value is present, a failure over an empty
/// slot is an absent field at `start`, and any other failure is handed on
/// unchanged.
pub fn optional_field<T>(
    outcome: Result<(usize, T), ParseError>,
    input: &[u8],
    start: usize,
    end_marker: u8,
) -> (r: Result<(usize, Option<T>), ParseError>)
    ensures
        outcome matches Ok((next, value)) ==> r == Ok::<(usize, Option<T>), ParseError>(
            (next, Some(value)),
        ),
        outcome matches Err(e) ==> r == if slot_is_empty(input@, start as int, end_marker) {
            Ok::<(usize, Option<T>), ParseError>((start, None))
        } else {
            Err::<(usize, Option<T>), ParseError>(e)
        },
{
    match outcome {
        Ok((next, value)) => Ok((next, Some(value))),
        Err(e) => if slot_empty(input, start, end_marker) {
            Ok((start, None))
        } else {
            Err(e)
        },
    }
}

/// Tells whether the `n` bytes from `start` on exist and are all digits.
pub fn digits_present(input: &[u8], start: usize, n: usize) -> (r: bool)
    ensures
        r == digits_at(input@, start as int, n as nat),
{
    let len = input.len();
    if start > len || len - start < n {
        return false;
    }
    let ghost token = input@.subrange(start as int, start + n);
    let mut i: usize = 0;
    while i < n
        invariant
            i <= n,
            start + n <= len == input@.len(),
            token == input@.subrange(start as int, start + n),
            forall|k: int| 0 <= k < i ==> is_digit(#[trigger] token[k]),
        decreases n - i,
    {
        let b = input[start + i];
        if !(48 <= b && b <= 57) {
            assert(!is_digit(token[i as int]));
            return false;
        }
        i = i + 1;
    }
    true
}

/// Reads a calendar date written as eight digits, `YYYYMMDD`.
pub fn date_8(input: &[u8], start: usize) -> (r: Result<(usize, Date), ParseError>)
    ensures
        r matches Ok((next, date)) ==> date8_at(input@, start as int) == Ok::<(int, Date), Fault>(
            (next as int, date),
        ),
        r matches Err(e) ==> date8_at(input@, start as int) == Err::<(int, Date), Fault>(e@),
{
    if !digits_present(input, start, 8) {
        return Err(ParseError::lexical(start));
    }
    assert(start + 8 <= input.len());
    match chrono_date(slice_subrange(input, start, start + 8)) {
        Some(date) => Ok((start + 8, date)),
        None => Err(ParseError::temporal(start)),
    }
}

/// Reads a local date-time written as twelve digits, `YYYYMMDDHHMM`.
pub fn datetime_12(input: &[u8], start: usize) -> (r: Result<(usize, DateTime), ParseError>)
    ensures
        r matches Ok((next, time)) ==> datetime_at(input@, start as int, 12) == Ok::<
            (int, DateTime),
            Fault,
        >((next as int, time)),
        r matches Err(e) ==> datetime_at(input@, start as int, 12) == Err::<
            (int, DateTime),
            Fault,
        >(e@),
{
    if !digits_present(input, start, 12) {
        return Err(ParseError::lexical(start));
    }
    assert(start + 12 <= input.len());
    match chrono_datetime(slice_subrange(input, start, start + 12), "%Y%m%d%H%M") {
        Some(time) => Ok((start + 12, time)),
        None => Err(ParseError::temporal(start)),
    }
}

/// Reads a local date-time written as fourteen digits, `YYYYMMDDHHMMSS`.
pub fn datetime_14(input: &[u8], start: usize) -> (r: Result<(usize, DateTime), ParseError>)
    ensures
        r matches Ok((next, time)) ==> datetime_at(input@, start as int, 14) == Ok::<
            (int, DateTime),
            Fault,
        >((next as int, time)),
        r matches Err(e) ==> datetime_at(input@, start as int, 14) == Err::<
            (int, DateTime),
            Fault,
        >(e@),
{
    if !digits_present(input, start, 14) {
        return Err(ParseError::lexical(start));
    }
    assert(start + 14 <= input.len());
    match chrono_datetime(slice_subrange(input, start, start + 14), "%Y%m%d%H%M%S") {
        Some(time) => Ok((start + 14, time)),
        None => Err(ParseError::temporal(start)),
    }
}

/// Succeeds, consuming nothing, exactly where the input ends.
pub fn eof(input: &[u8], start: usize) -> (r: Result<usize, ParseError>)
    ensures
        start >= input@.len() ==> r == Ok::<usize, ParseError>(start),
        start < input@.len() ==> (r matches Err(e) && e@ == lexical(start as int)),
{
    if start >= input.len() {
        Ok(start)
    } else {
        Err(ParseError::lexical(start))
    }
}

/// Gives the 1-based number of the line that holds `offset`, or the largest
/// `usize` where the number does not fit.
pub fn line_of(input: &[u8], offset: usize) -> (line: usize)
    ensures
        line == if line_at(input@, offset as int) <= usize::MAX {
            line_at(input@, offset as int)
        } else {
            usize::MAX as nat
        },
{
    let end = if offset > input.len() {
        input.len()
    } else {
        offset
    };
    let mut count: usize = 0;
    let mut i: usize = 0;
    while i < end
        invariant
            i <= end <= input@.len(),
            count == newlines_before(input@, i as int),
            count <= i,
        decreases end - i,
    {
        if input[i] == NEWLINE {
            count = count + 1;
        }
        i = i + 1;
    }
    if count < usize::MAX {
        count + 1
    } else {
        count
    }
}

} // verus!
