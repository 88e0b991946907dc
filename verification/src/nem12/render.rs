//! The text of a document: how its records are written, one to a line.
//!
//! Nothing here runs. The writing is the yardstick for the law that a
//! document, written out and parsed again, comes back as it was.

use crate::calendar::{
    all_digits, date_of_digits, datetime_of_digits, digits_value, Date, DateTime,
};
use crate::charset::{
    in_class, lemma_run_len, lemma_run_len_is, run_len, Charset, COMMA, NEWLINE,
};
use crate::common::{
    bounded_at, date8_at, datetime_at, digits_at, exact_at, optional_at, slot_is_empty, Token,
};
use crate::error::{Fault, RecordTag};
use crate::nem12::record::{
    can_be_written, comma_at, field_at, has_code, is_reading_text, opt_in_class, tag_at,
    values_at, B2BDetailsView, HeaderView, IntervalDataView, IntervalEventView,
    NMIDataDetailsView,
};
use crate::nem12::{line_end_at, listed, record_follows, skip_newlines, NEM12View};
use vstd::prelude::*;

verus! {

/// Whether the text `t` stands in `s` at `p`.
pub open spec fn holds_at(s: Seq<u8>, p: int, t: Seq<u8>) -> bool {
    0 <= p && p + t.len() <= s.len() && s.subrange(p, p + t.len()) == t
}

/// Whether what stands in `s` at `p` is no byte of `set`: the text ends
/// there, or a byte outside the class stands there.
pub open spec fn stops_at(s: Seq<u8>, p: int, set: Charset) -> bool {
    p >= s.len() || !set.holds(s[p])
}

/// A text that stands at `p` gives the bytes there.
pub proof fn lemma_holds_at_bytes(s: Seq<u8>, p: int, t: Seq<u8>)
    requires
        holds_at(s, p, t),
    ensures
        forall|i: int| 0 <= i < t.len() ==> #[trigger] s[p + i] == t[i],
{
    assert forall|i: int| 0 <= i < t.len() implies #[trigger] s[p + i] == t[i] by {
        assert(s.subrange(p, p + t.len())[i] == s[p + i]);
    }
}

/// Two texts in a row stand at `p` exactly when the first stands at `p` and
/// the second behind it.
pub proof fn lemma_holds_at_split(s: Seq<u8>, p: int, a: Seq<u8>, b: Seq<u8>)
    requires
        holds_at(s, p, a + b),
    ensures
        holds_at(s, p, a),
        holds_at(s, p + a.len(), b),
{
    lemma_holds_at_bytes(s, p, a + b);
    assert(s.subrange(p, p + a.len()) =~= a) by {
        assert forall|i: int| 0 <= i < a.len() implies s[p + i] == a[i] by {
            assert((a + b)[i] == a[i]);
        }
    }
    assert(s.subrange(p + a.len(), p + a.len() + b.len()) =~= b) by {
        assert forall|i: int| 0 <= i < b.len() implies s[p + a.len() + i] == b[i] by {
            assert((a + b)[a.len() + i] == b[i]);
        }
    }
}

/// A text of one class that stands at `p` and cannot go on is the run at
/// `p`.
pub proof fn lemma_reads_run(s: Seq<u8>, p: int, t: Seq<u8>, set: Charset)
    requires
        holds_at(s, p, t),
        in_class(t, set),
        stops_at(s, p + t.len(), set),
    ensures
        run_len(s, p, set) == t.len(),
{
    lemma_holds_at_bytes(s, p, t);
    assert forall|i: int| p <= i < p + t.len() implies set.holds(#[trigger] s[i]) by {
        assert(s[p + (i - p)] == t[i - p]);
    }
    lemma_run_len_is(s, p, set, t.len());
}

/// The text of the run at `p` is of the run's class, and the text stops
/// behind it.
pub proof fn lemma_run_is_in_class(s: Seq<u8>, p: int, set: Charset)
    requires
        0 <= p <= s.len(),
    ensures
        in_class(s.subrange(p, p + run_len(s, p, set)), set),
        holds_at(s, p, s.subrange(p, p + run_len(s, p, set))),
        stops_at(s, p + run_len(s, p, set), set),
{
    lemma_run_len(s, p, set);
    let t = s.subrange(p, p + run_len(s, p, set));
    assert forall|i: int| 0 <= i < t.len() implies set.holds(#[trigger] t[i]) by {
        assert(t[i] == s[p + i]);
    }
    assert(s.subrange(p, p + t.len()) == t);
}

/// A run inside a text that stands at `p` is the same run in `s`, where it
/// ends inside the text or the text cannot go on.
pub proof fn lemma_run_carries_over(s: Seq<u8>, p: int, t: Seq<u8>, i: int, set: Charset)
    requires
        holds_at(s, p, t),
        0 <= i <= t.len(),
        i + run_len(t, i, set) < t.len() || stops_at(s, p + t.len(), set),
    ensures
        run_len(s, p + i, set) == run_len(t, i, set),
{
    let n = run_len(t, i, set);
    lemma_run_len(t, i, set);
    lemma_holds_at_bytes(s, p, t);
    assert forall|k: int| p + i <= k < p + i + n implies set.holds(#[trigger] s[k]) by {
        assert(s[p + (k - p)] == t[k - p]);
    }
    if i + n < t.len() {
        assert(s[p + (i + n)] == t[i + n]);
    }
    lemma_run_len_is(s, p + i, set, n);
}

/// A run of `s` that ends inside a part of `s` is the same run in the part.
pub proof fn lemma_run_of_part(s: Seq<u8>, a: int, b: int, i: int, set: Charset)
    requires
        0 <= a <= a + i <= b <= s.len(),
        a + i + run_len(s, a + i, set) <= b,
    ensures
        run_len(s.subrange(a, b), i, set) == run_len(s, a + i, set),
{
    let t = s.subrange(a, b);
    let n = run_len(s, a + i, set);
    lemma_run_len(s, a + i, set);
    assert forall|k: int| i <= k < i + n implies set.holds(#[trigger] t[k]) by {
        assert(t[k] == s[a + k]);
    }
    if i + n < t.len() {
        assert(t[i + n] == s[a + i + n]);
    }
    lemma_run_len_is(t, i, set, n);
}

/// The two decimal digits that write `n`.
pub open spec fn two(n: int) -> Seq<u8> {
    seq![(48 + n / 10) as u8, (48 + n % 10) as u8]
}

/// The four decimal digits that write `n`.
pub open spec fn four(n: int) -> Seq<u8> {
    seq![
        (48 + n / 1000) as u8,
        (48 + (n / 100) % 10) as u8,
        (48 + (n / 10) % 10) as u8,
        (48 + n % 10) as u8,
    ]
}

/// A date written as `YYYYMMDD`.
pub open spec fn date_text(date: Date) -> Seq<u8> {
    four(date.year as int) + two(date.month as int) + two(date.day as int)
}

/// The second of a time as it is written: 60 for a leap second.
pub open spec fn written_second(time: DateTime) -> int {
    if time.nanosecond == 0 {
        time.second as int
    } else {
        60
    }
}

/// A date-time written as `YYYYMMDDHHMM`.
pub open spec fn minute_text(time: DateTime) -> Seq<u8> {
    date_text(time.date) + two(time.hour as int) + two(time.minute as int)
}

/// A date-time written as `YYYYMMDDHHMMSS`.
pub open spec fn second_text(time: DateTime) -> Seq<u8> {
    minute_text(time) + two(written_second(time))
}

/// Two digits write the number they were made of.
pub proof fn lemma_two(n: int)
    requires
        0 <= n <= 99,
    ensures
        two(n).len() == 2,
        all_digits(two(n)),
        digits_value(two(n), 0, 2) == n,
{
    reveal_with_fuel(digits_value, 3);
}

/// Four digits write the number they were made of.
pub proof fn lemma_four(n: int)
    requires
        0 <= n <= 9999,
    ensures
        four(n).len() == 4,
        all_digits(four(n)),
        digits_value(four(n), 0, 4) == n,
{
    reveal_with_fuel(digits_value, 5);
}

/// What digits write depends on those digits alone.
pub proof fn lemma_digits_value_of_part(s: Seq<u8>, i: int, n: nat, t: Seq<u8>)
    requires
        0 <= i,
        i + n <= s.len(),
        t == s.subrange(i, i + n),
    ensures
        digits_value(s, i, n) == digits_value(t, 0, n),
    decreases n,
{
    if n > 0 {
        lemma_digits_value_of_part(s, i, (n - 1) as nat, s.subrange(i, i + n - 1));
        assert(t.subrange(0, n - 1) =~= s.subrange(i, i + n - 1));
        lemma_digits_value_of_part(t, 0, (n - 1) as nat, s.subrange(i, i + n - 1));
        assert(t[n - 1] == s[i + n - 1]);
    }
}

/// What `n` digits write lies below the `n`-th power of ten; here for two
/// and for four digits.
pub proof fn lemma_digits_value_bounds(s: Seq<u8>, i: int)
    requires
        0 <= i,
    ensures
        i + 2 <= s.len() && all_digits(s.subrange(i, i + 2)) ==> 0 <= digits_value(s, i, 2) <= 99,
        i + 4 <= s.len() && all_digits(s.subrange(i, i + 4)) ==> 0 <= digits_value(s, i, 4)
            <= 9999,
{
    reveal_with_fuel(digits_value, 5);
    if i + 2 <= s.len() && all_digits(s.subrange(i, i + 2)) {
        let t = s.subrange(i, i + 2);
        assert(t[0] == s[i] && t[1] == s[i + 1]);
    }
    if i + 4 <= s.len() && all_digits(s.subrange(i, i + 4)) {
        let t = s.subrange(i, i + 4);
        assert(t[0] == s[i] && t[1] == s[i + 1] && t[2] == s[i + 2] && t[3] == s[i + 3]);
    }
}

/// A date of the calendar is written as eight digits that name it.
pub proof fn lemma_date_text(date: Date)
    requires
        date.is_valid(),
    ensures
        date_text(date).len() == 8,
        all_digits(date_text(date)),
        date_of_digits(date_text(date)) == Some(date),
{
    let t = date_text(date);
    lemma_four(date.year as int);
    lemma_two(date.month as int);
    lemma_two(date.day as int);
    assert(t.subrange(0, 4) =~= four(date.year as int));
    assert(t.subrange(4, 6) =~= two(date.month as int));
    assert(t.subrange(6, 8) =~= two(date.day as int));
    lemma_digits_value_of_part(t, 0, 4, four(date.year as int));
    lemma_digits_value_of_part(t, 4, 2, two(date.month as int));
    lemma_digits_value_of_part(t, 6, 2, two(date.day as int));
    assert forall|i: int| 0 <= i < t.len() implies 48 <= #[trigger] t[i] <= 57 by {
        if i < 4 {
            assert(t[i] == four(date.year as int)[i]);
        } else if i < 6 {
            assert(t[i] == two(date.month as int)[i - 4]);
        } else {
            assert(t[i] == two(date.day as int)[i - 6]);
        }
    }
}

/// A date-time without seconds is written as twelve digits that name it.
pub proof fn lemma_minute_text(time: DateTime)
    requires
        time.is_valid(),
        time.second == 0,
        time.nanosecond == 0,
    ensures
        minute_text(time).len() == 12,
        all_digits(minute_text(time)),
        datetime_of_digits(minute_text(time)) == Some(time),
{
    let t = minute_text(time);
    let d = date_text(time.date);
    lemma_date_text(time.date);
    lemma_two(time.hour as int);
    lemma_two(time.minute as int);
    assert(t.subrange(0, 8) =~= d);
    assert(t.subrange(0, 4) =~= d.subrange(0, 4));
    assert(t.subrange(4, 6) =~= d.subrange(4, 6));
    assert(t.subrange(6, 8) =~= d.subrange(6, 8));
    assert(t.subrange(8, 10) =~= two(time.hour as int));
    assert(t.subrange(10, 12) =~= two(time.minute as int));
    lemma_digits_value_of_part(t, 0, 4, d.subrange(0, 4));
    lemma_digits_value_of_part(t, 4, 2, d.subrange(4, 6));
    lemma_digits_value_of_part(t, 6, 2, d.subrange(6, 8));
    lemma_digits_value_of_part(d, 0, 4, d.subrange(0, 4));
    lemma_digits_value_of_part(d, 4, 2, d.subrange(4, 6));
    lemma_digits_value_of_part(d, 6, 2, d.subrange(6, 8));
    lemma_digits_value_of_part(t, 8, 2, two(time.hour as int));
    lemma_digits_value_of_part(t, 10, 2, two(time.minute as int));
    assert forall|i: int| 0 <= i < t.len() implies 48 <= #[trigger] t[i] <= 57 by {
        if i < 8 {
            assert(t[i] == d[i]);
        } else if i < 10 {
            assert(t[i] == two(time.hour as int)[i - 8]);
        } else {
            assert(t[i] == two(time.minute as int)[i - 10]);
        }
    }
}

/// A date-time is written as fourteen digits that name it.
pub proof fn lemma_second_text(time: DateTime)
    requires
        time.is_valid(),
    ensures
        second_text(time).len() == 14,
        all_digits(second_text(time)),
        datetime_of_digits(second_text(time)) == Some(time),
{
    let t = second_text(time);
    let d = date_text(time.date);
    lemma_date_text(time.date);
    lemma_two(time.hour as int);
    lemma_two(time.minute as int);
    lemma_two(written_second(time));
    assert(t.subrange(0, 8) =~= d);
    assert(t.subrange(0, 4) =~= d.subrange(0, 4));
    assert(t.subrange(4, 6) =~= d.subrange(4, 6));
    assert(t.subrange(6, 8) =~= d.subrange(6, 8));
    assert(t.subrange(8, 10) =~= two(time.hour as int));
    assert(t.subrange(10, 12) =~= two(time.minute as int));
    assert(t.subrange(12, 14) =~= two(written_second(time)));
    lemma_digits_value_of_part(t, 0, 4, d.subrange(0, 4));
    lemma_digits_value_of_part(t, 4, 2, d.subrange(4, 6));
    lemma_digits_value_of_part(t, 6, 2, d.subrange(6, 8));
    lemma_digits_value_of_part(d, 0, 4, d.subrange(0, 4));
    lemma_digits_value_of_part(d, 4, 2, d.subrange(4, 6));
    lemma_digits_value_of_part(d, 6, 2, d.subrange(6, 8));
    lemma_digits_value_of_part(t, 8, 2, two(time.hour as int));
    lemma_digits_value_of_part(t, 10, 2, two(time.minute as int));
    lemma_digits_value_of_part(t, 12, 2, two(written_second(time)));
    assert forall|i: int| 0 <= i < t.len() implies 48 <= #[trigger] t[i] <= 57 by {
        if i < 8 {
            assert(t[i] == d[i]);
        } else if i < 10 {
            assert(t[i] == two(time.hour as int)[i - 8]);
        } else if i < 12 {
            assert(t[i] == two(time.minute as int)[i - 10]);
        } else {
            assert(t[i] == two(written_second(time))[i - 12]);
        }
    }
}

/// The date that eight digits name is a date of the calendar.
pub proof fn lemma_named_date_is_valid(t: Seq<u8>)
    requires
        t.len() >= 8,
        all_digits(t.subrange(0, 8)),
    ensures
        date_of_digits(t) matches Some(date) ==> date.is_valid(),
{
    lemma_digits_value_bounds(t, 0);
    lemma_digits_value_bounds(t, 4);
    lemma_digits_value_bounds(t, 6);
    assert forall|i: int, n: int| 0 <= i && i + n <= 8 && 0 <= n implies all_digits(
        #[trigger] t.subrange(i, i + n),
    ) by {
        assert forall|k: int| 0 <= k < n implies 48 <= #[trigger] t.subrange(i, i + n)[k]
            <= 57 by {
            assert(t.subrange(i, i + n)[k] == t.subrange(0, 8)[i + k]);
        }
    }
    assert(all_digits(t.subrange(0, 4)));
    assert(all_digits(t.subrange(4, 6)));
    assert(all_digits(t.subrange(6, 8)));
}

/// The date-time that twelve or fourteen digits name is valid, and without
/// seconds where the digits are twelve.
pub proof fn lemma_named_time_is_valid(t: Seq<u8>)
    requires
        t.len() == 12 || t.len() == 14,
        all_digits(t),
    ensures
        datetime_of_digits(t) matches Some(time) ==> time.is_valid() && (t.len() == 12
            ==> time.second == 0 && time.nanosecond == 0),
{
    assert(all_digits(t.subrange(0, 8))) by {
        assert forall|k: int| 0 <= k < 8 implies 48 <= #[trigger] t.subrange(0, 8)[k] <= 57 by {
            assert(t.subrange(0, 8)[k] == t[k]);
        }
    }
    lemma_named_date_is_valid(t);
    assert forall|i: int| 8 <= i <= 12 && i + 2 <= t.len() implies all_digits(
        #[trigger] t.subrange(i, i + 2),
    ) by {
        assert forall|k: int| 0 <= k < 2 implies 48 <= #[trigger] t.subrange(i, i + 2)[k]
            <= 57 by {
            assert(t.subrange(i, i + 2)[k] == t[i + k]);
        }
    }
    assert(all_digits(t.subrange(8, 10)));
    assert(all_digits(t.subrange(10, 12)));
    lemma_digits_value_bounds(t, 8);
    lemma_digits_value_bounds(t, 10);
    if t.len() == 14 {
        assert(all_digits(t.subrange(12, 14)));
        lemma_digits_value_bounds(t, 12);
    }
}

/// A date that stands written at `p` is read there.
pub proof fn lemma_reads_date(s: Seq<u8>, p: int, date: Date)
    requires
        date.is_valid(),
        holds_at(s, p, date_text(date)),
    ensures
        date8_at(s, p) == Ok::<(int, Date), Fault>((p + 8, date)),
{
    lemma_date_text(date);
}

/// A date-time that stands written with seconds at `p` is read there.
pub proof fn lemma_reads_second(s: Seq<u8>, p: int, time: DateTime)
    requires
        time.is_valid(),
        holds_at(s, p, second_text(time)),
    ensures
        datetime_at(s, p, 14) == Ok::<(int, DateTime), Fault>((p + 14, time)),
{
    lemma_second_text(time);
}

/// A date-time that stands written without seconds at `p` is read there.
pub proof fn lemma_reads_minute(s: Seq<u8>, p: int, time: DateTime)
    requires
        time.is_valid(),
        time.second == 0,
        time.nanosecond == 0,
        holds_at(s, p, minute_text(time)),
    ensures
        datetime_at(s, p, 12) == Ok::<(int, DateTime), Fault>((p + 12, time)),
{
    lemma_minute_text(time);
}

/// A date that was read at `p` is a date of the calendar.
pub proof fn lemma_read_date_is_valid(s: Seq<u8>, p: int)
    ensures
        date8_at(s, p) matches Ok((_, date)) ==> date.is_valid(),
{
    if digits_at(s, p, 8) {
        let t = s.subrange(p, p + 8);
        assert(t.subrange(0, 8) =~= t);
        lemma_named_date_is_valid(t);
    }
}

/// A date-time that was read at `p` is valid, and without seconds where it
/// was read from twelve digits.
pub proof fn lemma_read_time_is_valid(s: Seq<u8>, p: int, width: nat)
    requires
        width == 12 || width == 14,
    ensures
        datetime_at(s, p, width) matches Ok((_, time)) ==> time.is_valid() && (width == 12
            ==> time.second == 0 && time.nanosecond == 0),
{
    if digits_at(s, p, width) {
        lemma_named_time_is_valid(s.subrange(p, p + width));
    }
}

/// A field that stands written at `p`, is of the class `set`, keeps to its
/// bound and cannot go on, is read there.
pub proof fn lemma_reads_field(s: Seq<u8>, p: int, field: Seq<u8>, set: Charset, max: nat)
    requires
        holds_at(s, p, field),
        in_class(field, set),
        1 <= field.len() <= max,
        stops_at(s, p + field.len(), set),
    ensures
        bounded_at(s, p, Token::Run(set), max) == Ok::<int, Fault>(p + field.len()),
        exact_at(s, p, Token::Run(set), field.len()) == Ok::<int, Fault>(p + field.len()),
        s.subrange(p, p + field.len()) == field,
{
    lemma_reads_run(s, p, field, set);
}

/// The text of an optional field: nothing where the field is absent.
pub open spec fn opt_text(field: Option<Seq<u8>>) -> Seq<u8> {
    match field {
        Some(text) => text,
        None => Seq::empty(),
    }
}

/// An optional field that stands written at `p`, with its delimiter or the
/// end of the line behind it, is read there, be it absent or present.
pub proof fn lemma_reads_optional_field(
    s: Seq<u8>,
    p: int,
    field: Option<Seq<u8>>,
    set: Charset,
    max: nat,
    end_marker: u8,
)
    requires
        holds_at(s, p, opt_text(field)),
        opt_in_class(field, set, 1, max),
        slot_is_empty(s, p + opt_text(field).len(), end_marker),
        !set.holds(end_marker),
        !set.holds(NEWLINE),
    ensures
        optional_at(
            field_at(s, p, bounded_at(s, p, Token::Run(set), max)),
            s,
            p,
            end_marker,
        ) == Ok::<(int, Option<Seq<u8>>), Fault>((p + opt_text(field).len(), field)),
{
    match field {
        Some(text) => {
            lemma_reads_field(s, p, text, set, max);
        },
        None => {
            lemma_run_len(s, p, set);
        },
    }
}

/// The text of a record's tag: its code and a comma.
pub open spec fn tag_text(tag: RecordTag) -> Seq<u8> {
    seq![tag.lead(), 48u8, 48u8, COMMA]
}

/// The text of one comma.
pub open spec fn comma_text() -> Seq<u8> {
    seq![COMMA]
}

/// The text of one line feed.
pub open spec fn newline_text() -> Seq<u8> {
    seq![NEWLINE]
}

/// A tag that stands written at `p` is read there.
pub proof fn lemma_reads_tag(s: Seq<u8>, p: int, tag: RecordTag)
    requires
        holds_at(s, p, tag_text(tag)),
    ensures
        tag_at(s, p, tag) == Ok::<int, Fault>(p + 4),
        has_code(s, p, tag),
{
    lemma_holds_at_bytes(s, p, tag_text(tag));
    assert(s[p + 0] == tag_text(tag)[0]);
    assert(s[p + 1] == tag_text(tag)[1]);
    assert(s[p + 2] == tag_text(tag)[2]);
    assert(s[p + 3] == tag_text(tag)[3]);
}

/// A comma that stands written at `p` is read there.
pub proof fn lemma_reads_comma(s: Seq<u8>, p: int)
    requires
        holds_at(s, p, comma_text()),
    ensures
        comma_at(s, p) == Ok::<int, Fault>(p + 1),
        s[p] == COMMA,
{
    lemma_holds_at_bytes(s, p, comma_text());
    assert(s[p + 0] == comma_text()[0]);
}

/// An interval event as a line of text, without its line ending.
#[verifier::opaque]
pub open spec fn event_text(event: IntervalEventView) -> Seq<u8> {
    tag_text(RecordTag::IntervalEvent) + (event.start_interval + (comma_text() + (
    event.end_interval + (comma_text() + (event.quality_method + (comma_text() + (opt_text(
        event.reason_code,
    ) + (comma_text() + opt_text(event.reason_description)))))))))
}

/// An exchange record as a line of text, without its line ending.
#[verifier::opaque]
pub open spec fn exchange_text(details: B2BDetailsView) -> Seq<u8> {
    tag_text(RecordTag::B2BDetails) + (details.trans_code + (comma_text() + (
    details.ret_service_order + (comma_text() + (second_text(details.read_datetime) + (
    comma_text() + details.index_read))))))
}

/// A header as a line of text, without its line ending.
#[verifier::opaque]
pub open spec fn header_text(header: HeaderView) -> Seq<u8> {
    tag_text(RecordTag::Header) + (header.format + (comma_text() + (minute_text(header.created)
        + (comma_text() + (header.from_participant + (comma_text()
        + header.to_participant))))))
}

/// A text that writes the reading `bits`, where there is one.
pub open spec fn reading_text(bits: u64) -> Seq<u8> {
    choose|text: Seq<u8>| is_reading_text(text, bits)
}

/// Readings as text, each behind a comma.
pub open spec fn values_text(values: Seq<u64>) -> Seq<u8>
    decreases values.len(),
{
    if values.len() == 0 {
        Seq::empty()
    } else {
        comma_text() + (reading_text(values[0]) + values_text(values.drop_first()))
    }
}

/// The text of an optional date: nothing where the date is absent.
pub open spec fn opt_date_text(date: Option<Date>) -> Seq<u8> {
    match date {
        Some(date) => date_text(date),
        None => Seq::empty(),
    }
}

/// The text of an optional date-time with seconds: nothing where it is
/// absent.
pub open spec fn opt_second_text(time: Option<DateTime>) -> Seq<u8> {
    match time {
        Some(time) => second_text(time),
        None => Seq::empty(),
    }
}

/// An interval data record as a line of text, without its line ending and
/// without its events.
#[verifier::opaque]
pub open spec fn interval_data_text(data: IntervalDataView) -> Seq<u8> {
    tag_text(RecordTag::IntervalData) + (date_text(data.interval_date) + (values_text(
        data.interval_value,
    ) + (comma_text() + (data.quality_method + (comma_text() + (opt_text(data.reason_code) + (
    comma_text() + (opt_text(data.reason_description) + (comma_text() + (second_text(
        data.update_datetime,
    ) + (comma_text() + opt_second_text(data.msats_load_datetime))))))))))))
}

/// A meter configuration as a line of text, without its line ending and
/// without its block.
#[verifier::opaque]
pub open spec fn configuration_text(details: NMIDataDetailsView) -> Seq<u8> {
    tag_text(RecordTag::NMIDataDetails) + (details.nmi + (comma_text() + (
    details.nmi_configuration + (comma_text() + (details.register_id + (comma_text() + (
    details.nmi_suffix + (comma_text() + (opt_text(details.mdm_data_stream_id) + (comma_text()
        + (details.meter_serial_number + (comma_text() + (details.uom + (comma_text() + (two(
        details.interval_length as int,
    ) + (comma_text() + opt_date_text(details.next_scheduled_read_date)))))))))))))))))
}

/// A decimal number that stands written at `p` and ends its line is read
/// there.
pub proof fn lemma_reads_decimal(s: Seq<u8>, p: int, text: Seq<u8>, max: nat)
    requires
        holds_at(s, p, text),
        1 <= text.len() <= max,
        Token::Decimal.len_at(text, 0) == text.len(),
        p + text.len() >= s.len() || s[p + text.len()] == NEWLINE,
    ensures
        bounded_at(s, p, Token::Decimal, max) == Ok::<int, Fault>(p + text.len()),
        s.subrange(p, p + text.len()) == text,
{
    let whole = run_len(text, 0, Charset::Digit) as int;
    lemma_run_len(text, 0, Charset::Digit);
    lemma_run_len(text, whole + 1, Charset::Digit);
    lemma_run_carries_over(s, p, text, 0, Charset::Digit);
    lemma_holds_at_bytes(s, p, text);
    if whole < text.len() {
        assert(s[p + whole] == text[whole]);
        lemma_run_carries_over(s, p, text, whole + 1, Charset::Digit);
    } else {
        lemma_run_len(s, p + whole + 1, Charset::Digit);
    }
}

/// The decimal number that was read at `p` is digits with at most one
/// fraction, on its own as in the text.
pub proof fn lemma_read_decimal_is_decimal(s: Seq<u8>, p: int, max: nat)
    requires
        0 <= p <= s.len(),
    ensures
        bounded_at(s, p, Token::Decimal, max) matches Ok(next) ==> Token::Decimal.len_at(
            s.subrange(p, next),
            0,
        ) == next - p && 1 <= next - p <= max && next <= s.len(),
{
    if let Ok(next) = bounded_at(s, p, Token::Decimal, max) {
        let whole = run_len(s, p, Charset::Digit) as int;
        lemma_run_len(s, p, Charset::Digit);
        lemma_run_len(s, p + whole + 1, Charset::Digit);
        let t = s.subrange(p, next);
        lemma_run_of_part(s, p, next, 0, Charset::Digit);
        if next - p > whole {
            lemma_run_of_part(s, p, next, whole + 1, Charset::Digit);
            assert(t[whole] == s[p + whole]);
        } else {
            lemma_run_len(t, whole + 1, Charset::Digit);
        }
    }
}

/// An optional field of a fixed length that stands written at `p`, with
/// its delimiter or the end of the line behind it, is read there, be it
/// absent or present.
pub proof fn lemma_reads_optional_exact(
    s: Seq<u8>,
    p: int,
    field: Option<Seq<u8>>,
    set: Charset,
    len: nat,
    end_marker: u8,
)
    requires
        holds_at(s, p, opt_text(field)),
        opt_in_class(field, set, len, len),
        len >= 1,
        slot_is_empty(s, p + opt_text(field).len(), end_marker),
        !set.holds(end_marker),
        !set.holds(NEWLINE),
    ensures
        optional_at(
            field_at(s, p, exact_at(s, p, Token::Run(set), len)),
            s,
            p,
            end_marker,
        ) == Ok::<(int, Option<Seq<u8>>), Fault>((p + opt_text(field).len(), field)),
{
    match field {
        Some(text) => {
            lemma_reads_field(s, p, text, set, len);
        },
        None => {
            lemma_run_len(s, p, set);
        },
    }
}

/// An optional date that stands written at `p` and ends its line is read
/// there, be it absent or present.
pub proof fn lemma_reads_optional_date(s: Seq<u8>, p: int, date: Option<Date>)
    requires
        holds_at(s, p, opt_date_text(date)),
        date matches Some(day) ==> day.is_valid(),
        slot_is_empty(s, p + opt_date_text(date).len(), NEWLINE),
    ensures
        optional_at(date8_at(s, p), s, p, NEWLINE) == Ok::<(int, Option<Date>), Fault>(
            (p + opt_date_text(date).len(), date),
        ),
{
    match date {
        Some(day) => {
            lemma_reads_date(s, p, day);
        },
        None => {
            if digits_at(s, p, 8) {
                assert(s.subrange(p, p + 8)[0] == s[p]);
            }
        },
    }
}

/// An optional date-time that stands written with seconds at `p` and ends
/// its line is read there, be it absent or present.
pub proof fn lemma_reads_optional_second(s: Seq<u8>, p: int, time: Option<DateTime>)
    requires
        holds_at(s, p, opt_second_text(time)),
        time matches Some(moment) ==> moment.is_valid(),
        slot_is_empty(s, p + opt_second_text(time).len(), NEWLINE),
    ensures
        optional_at(datetime_at(s, p, 14), s, p, NEWLINE) == Ok::<
            (int, Option<DateTime>),
            Fault,
        >((p + opt_second_text(time).len(), time)),
{
    match time {
        Some(moment) => {
            lemma_reads_second(s, p, moment);
        },
        None => {
            if digits_at(s, p, 14) {
                assert(s.subrange(p, p + 14)[0] == s[p]);
            }
        },
    }
}

/// A number below one hundred that stands written as two digits at `p`,
/// with a comma behind it, is read there.
pub proof fn lemma_reads_two_digits(s: Seq<u8>, p: int, n: nat)
    requires
        n <= 99,
        holds_at(s, p, two(n as int)),
        stops_at(s, p + 2, Charset::Digit),
    ensures
        exact_at(s, p, Token::Run(Charset::Digit), 2) == Ok::<int, Fault>(p + 2),
        digits_value(s, p, 2) == n,
{
    lemma_two(n as int);
    assert(in_class(two(n as int), Charset::Digit));
    lemma_reads_field(s, p, two(n as int), Charset::Digit, 2);
    lemma_digits_value_of_part(s, p, 2, two(n as int));
}

/// Readings that stand written in a row at `p`, with a comma behind the
/// last, are read there, one by one.
pub proof fn lemma_reads_values(s: Seq<u8>, p: int, values: Seq<u64>, found: Seq<u64>)
    requires
        holds_at(s, p, values_text(values)),
        forall|i: int| 0 <= i < values.len() ==> can_be_written(#[trigger] values[i]),
        p + values_text(values).len() < s.len(),
        s[p + values_text(values).len()] == COMMA,
    ensures
        values_at(s, p, values.len(), found) == Ok::<
            (int, Seq<u64>),
            Fault,
        >((p + values_text(values).len(), found + values)),
    decreases values.len(),
{
    if values.len() == 0 {
        assert(found + values =~= found);
    } else {
        let first = reading_text(values[0]);
        let rest = values.drop_first();
        assert(can_be_written(values[0]));
        assert(is_reading_text(first, values[0]));
        lemma_holds_at_split(s, p, comma_text(), first + values_text(rest));
        lemma_holds_at_split(s, p + 1, first, values_text(rest));
        lemma_reads_comma(s, p);
        let next = p + 1 + first.len();
        if rest.len() > 0 {
            lemma_holds_at_split(
                s,
                next,
                comma_text(),
                reading_text(rest[0]) + values_text(rest.drop_first()),
            );
            lemma_reads_comma(s, next);
        }
        lemma_reads_run(s, p + 1, first, Charset::Field);
        assert forall|i: int| 0 <= i < rest.len() implies can_be_written(#[trigger] rest[i]) by {
            assert(rest[i] == values[i + 1]);
        }
        lemma_reads_values(s, next, rest, found.push(values[0]));
        assert(found.push(values[0]) + rest =~= found + values);
    }
}

/// Interval events as lines of text, each behind a line feed.
pub open spec fn events_text(events: Seq<IntervalEventView>) -> Seq<u8>
    decreases events.len(),
{
    if events.len() == 0 {
        Seq::empty()
    } else {
        newline_text() + (event_text(events[0]) + events_text(events.drop_first()))
    }
}

/// An interval data record and its events as lines of text, without the
/// last line ending.
pub open spec fn interval_text(data: IntervalDataView) -> Seq<u8> {
    interval_data_text(data) + events_text(listed(data.interval_events))
}

/// Interval data records with their events as lines of text, each record
/// behind a line feed.
pub open spec fn intervals_text(intervals: Seq<IntervalDataView>) -> Seq<u8>
    decreases intervals.len(),
{
    if intervals.len() == 0 {
        Seq::empty()
    } else {
        newline_text() + (interval_text(intervals[0]) + intervals_text(intervals.drop_first()))
    }
}

/// Exchange records as lines of text, each behind a line feed.
pub open spec fn exchanges_text(exchanges: Seq<B2BDetailsView>) -> Seq<u8>
    decreases exchanges.len(),
{
    if exchanges.len() == 0 {
        Seq::empty()
    } else {
        newline_text() + (exchange_text(exchanges[0]) + exchanges_text(exchanges.drop_first()))
    }
}

/// A meter block as lines of text, without the last line ending.
pub open spec fn block_text(block: NMIDataDetailsView) -> Seq<u8> {
    configuration_text(block) + (intervals_text(listed(block.interval_data_vec))
        + exchanges_text(listed(block.b2b_details)))
}

/// Meter blocks as lines of text, each block behind a line feed.
pub open spec fn blocks_text(blocks: Seq<NMIDataDetailsView>) -> Seq<u8>
    decreases blocks.len(),
{
    if blocks.len() == 0 {
        Seq::empty()
    } else {
        newline_text() + (block_text(blocks[0]) + blocks_text(blocks.drop_first()))
    }
}

/// The text of the terminal marker.
pub open spec fn end_text() -> Seq<u8> {
    seq![57u8, 48u8, 48u8]
}

/// A document as text: the header, the blocks and the terminal marker, one
/// record to a line, without a line ending behind the marker.
pub open spec fn document_text(document: NEM12View) -> Seq<u8> {
    header_text(document.header) + (blocks_text(document.nmi_data_details) + (newline_text()
        + end_text()))
}

/// Whether the text `t` starts with the tag of `tag`.
pub open spec fn starts_with_tag(t: Seq<u8>, tag: RecordTag) -> bool {
    t.len() >= 4 && t.subrange(0, 4) == tag_text(tag)
}

/// Whether the text `t` starts with the code of `tag`.
pub open spec fn starts_with_code(t: Seq<u8>, tag: RecordTag) -> bool {
    t.len() >= 3 && t[0] == tag.lead() && t[1] == 48 && t[2] == 48
}

/// A text that starts with a tag starts with its code.
pub proof fn lemma_tag_has_code(t: Seq<u8>, tag: RecordTag)
    requires
        starts_with_tag(t, tag),
    ensures
        starts_with_code(t, tag),
{
    assert(t.subrange(0, 4)[0] == t[0]);
    assert(t.subrange(0, 4)[1] == t[1]);
    assert(t.subrange(0, 4)[2] == t[2]);
}

/// A text that starts with a tag still starts with its code when more text
/// is put behind it.
pub proof fn lemma_code_stays_in_front(t: Seq<u8>, more: Seq<u8>, tag: RecordTag)
    requires
        starts_with_tag(t, tag),
    ensures
        starts_with_code(t, tag),
        starts_with_code(t + more, tag),
{
    lemma_tag_has_code(t, tag);
    assert((t + more)[0] == t[0]);
    assert((t + more)[1] == t[1]);
    assert((t + more)[2] == t[2]);
}

/// A meter configuration, and so a meter block, is written with its tag
/// first.
pub proof fn lemma_block_text_starts(block: NMIDataDetailsView)
    ensures
        starts_with_tag(configuration_text(block), RecordTag::NMIDataDetails),
        starts_with_tag(block_text(block), RecordTag::NMIDataDetails),
{
    reveal(configuration_text);
    assert(configuration_text(block).subrange(0, 4) =~= tag_text(RecordTag::NMIDataDetails));
    assert(block_text(block).subrange(0, 4) =~= tag_text(RecordTag::NMIDataDetails));
}

/// An interval data record, with or without its events, is written with its
/// tag first.
pub proof fn lemma_interval_text_starts(data: IntervalDataView)
    ensures
        starts_with_tag(interval_data_text(data), RecordTag::IntervalData),
        starts_with_tag(interval_text(data), RecordTag::IntervalData),
{
    reveal(interval_data_text);
    assert(interval_data_text(data).subrange(0, 4) =~= tag_text(RecordTag::IntervalData));
    assert(interval_text(data).subrange(0, 4) =~= tag_text(RecordTag::IntervalData));
}

/// An interval event is written with its tag first.
pub proof fn lemma_event_text_starts(event: IntervalEventView)
    ensures
        starts_with_tag(event_text(event), RecordTag::IntervalEvent),
{
    reveal(event_text);
    assert(event_text(event).subrange(0, 4) =~= tag_text(RecordTag::IntervalEvent));
}

/// An exchange record is written with its tag first.
pub proof fn lemma_exchange_text_starts(details: B2BDetailsView)
    ensures
        starts_with_tag(exchange_text(details), RecordTag::B2BDetails),
{
    reveal(exchange_text);
    assert(exchange_text(details).subrange(0, 4) =~= tag_text(RecordTag::B2BDetails));
}

/// Where a line feed and then a text with the code of `tag` stand at `p`,
/// the record that ends at `p` ends its line, and the record that follows
/// it is one of `tag` and of no other kind.
pub proof fn lemma_next_line(s: Seq<u8>, p: int, text: Seq<u8>, tag: RecordTag)
    requires
        holds_at(s, p, newline_text() + text),
        starts_with_code(text, tag),
    ensures
        line_end_at(s, p) is Ok,
        s[p] == NEWLINE,
        skip_newlines(s, p) == p + 1,
        holds_at(s, p + 1, text),
        forall|other: RecordTag| record_follows(s, p, other) <==> other == tag,
{
    lemma_holds_at_split(s, p, newline_text(), text);
    lemma_holds_at_bytes(s, p, newline_text());
    lemma_holds_at_bytes(s, p + 1, text);
    assert(s[p + 0] == newline_text()[0]);
    assert(s[p + 1 + 0] == text[0]);
    assert(s[p + 1 + 1] == text[1]);
    assert(s[p + 1 + 2] == text[2]);
    lemma_run_len_is(s, p, Charset::Newline, 1);
}

} // verus!
