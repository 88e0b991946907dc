//! Byte classes of the format and the runs they form.
//!
//! Every token of the grammar is ASCII, so the text is read as bytes: a byte
//! of a multi-byte character belongs to no class and ends any run.

use vstd::prelude::*;

verus! {

/// The field separator, `,`.
pub const COMMA: u8 = 44;

/// The record separator, a line feed.
pub const NEWLINE: u8 = 10;

/// The decimal point, `.`.
pub const POINT: u8 = 46;

/// Whether `b` is an ASCII decimal digit.
pub open spec fn is_digit(b: u8) -> bool {
    48 <= b <= 57
}

/// Whether `b` is an ASCII letter.
pub open spec fn is_alpha(b: u8) -> bool {
    65 <= b <= 90 || 97 <= b <= 122
}

/// Whether `b` is an ASCII letter or digit.
pub open spec fn is_alphanumeric(b: u8) -> bool {
    is_digit(b) || is_alpha(b)
}

/// Whether `b` is blank: a space, a tab, a carriage return or a line feed.
pub open spec fn is_blank(b: u8) -> bool {
    b == 32 || b == 9 || b == 13 || b == 10
}

/// Whether `b` may stand inside a field: anything but the two separators.
pub open spec fn is_field_byte(b: u8) -> bool {
    b != COMMA && b != NEWLINE
}

/// A class of bytes.
#[derive(Clone, Copy, Debug, PartialEq, Eq, Structural)]
pub enum Charset {
    /// ASCII letters.
    Alpha,
    /// ASCII decimal digits.
    Digit,
    /// ASCII letters and digits.
    Alphanumeric,
    /// Space, tab, carriage return, line feed.
    Blank,
    /// Only the line feed.
    Newline,
    /// Every byte but the comma and the line feed.
    Field,
    /// Every byte but the line feed.
    Line,
    /// Space, tab, carriage return: the blanks that stay on one line.
    Space,
}

impl Charset {
    /// Whether the class holds `b`.
    pub open spec fn holds(self, b: u8) -> bool {
        match self {
            Charset::Alpha => is_alpha(b),
            Charset::Digit => is_digit(b),
            Charset::Alphanumeric => is_alphanumeric(b),
            Charset::Blank => is_blank(b),
            Charset::Newline => b == NEWLINE,
            Charset::Field => is_field_byte(b),
            Charset::Line => b != NEWLINE,
            Charset::Space => b == 32 || b == 9 || b == 13,
        }
    }

    /// Tells whether the class holds `b`.
    pub fn contains(self, b: u8) -> (r: bool)
        ensures
            r == self.holds(b),
    {
        match self {
            Charset::Alpha => (65 <= b && b <= 90) || (97 <= b && b <= 122),
            Charset::Digit => 48 <= b && b <= 57,
            Charset::Alphanumeric => (48 <= b && b <= 57) || (65 <= b && b <= 90) || (97 <= b
                && b <= 122),
            Charset::Blank => b == 32 || b == 9 || b == 13 || b == 10,
            Charset::Newline => b == NEWLINE,
            Charset::Field => b != COMMA && b != NEWLINE,
            Charset::Line => b != NEWLINE,
            Charset::Space => b == 32 || b == 9 || b == 13,
        }
    }
}

/// Length of the longest run of bytes of `set` that starts at `p` in `s`.
/// It is zero where `p` lies outside `s`.
pub open spec fn run_len(s: Seq<u8>, p: int, set: Charset) -> nat
    decreases s.len() - p,
{
    if 0 <= p < s.len() && set.holds(s[p]) {
        1 + run_len(s, p + 1, set)
    } else {
        0
    }
}

/// A run ends inside the text, covers only bytes of its class, and stops at
/// the end of the text or before a byte outside the class.
pub proof fn lemma_run_len(s: Seq<u8>, p: int, set: Charset)
    requires
        0 <= p,
    ensures
        p <= s.len() ==> p + run_len(s, p, set) <= s.len(),
        p > s.len() ==> run_len(s, p, set) == 0,
        forall|i: int| p <= i < p + run_len(s, p, set) ==> set.holds(#[trigger] s[i]),
        p + run_len(s, p, set) < s.len() ==> !set.holds(s[p + run_len(s, p, set)]),
    decreases s.len() - p,
{
    if p < s.len() && set.holds(s[p]) {
        lemma_run_len(s, p + 1, set);
    }
}

/// A stretch of bytes of the class that cannot be extended is the run.
pub proof fn lemma_run_len_is(s: Seq<u8>, p: int, set: Charset, n: nat)
    requires
        0 <= p,
        p + n <= s.len(),
        forall|i: int| p <= i < p + n ==> set.holds(#[trigger] s[i]),
        p + n < s.len() ==> !set.holds(s[p + n]),
    ensures
        run_len(s, p, set) == n,
    decreases n,
{
    if n > 0 {
        lemma_run_len_is(s, p + 1, set, (n - 1) as nat);
    }
}

/// Finds the end of the longest run of bytes of `set` that starts at `start`.
pub fn scan_run(input: &[u8], start: usize, set: Charset) -> (end: usize)
    ensures
        end == start + run_len(input@, start as int, set),
        start <= input@.len() ==> end <= input@.len(),
{
    proof {
        lemma_run_len(input@, start as int, set);
    }
    if start >= input.len() {
        return start;
    }
    let mut end: usize = start;
    while end < input.len() && set.contains(input[end])
        invariant
            start <= end <= input@.len(),
            forall|i: int| start <= i < end ==> set.holds(#[trigger] input@[i]),
        decreases input@.len() - end,
    {
        end = end + 1;
    }
    proof {
        lemma_run_len_is(input@, start as int, set, (end - start) as nat);
    }
    end
}

/// Whether every byte of `t` is of the class `set`.
pub open spec fn in_class(t: Seq<u8>, set: Charset) -> bool {
    forall|i: int| 0 <= i < t.len() ==> set.holds(#[trigger] t[i])
}

} // verus!
