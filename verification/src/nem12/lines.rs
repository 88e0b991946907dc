//! A record is read from its line alone: what stands on other lines does
//! not change what the grammar makes of it. So the reader that goes line by
//! line hands out the very records that the document holds.

use crate::calendar::{Date, DateTime};
use crate::charset::{lemma_run_len, lemma_run_len_is, run_len, Charset, COMMA, NEWLINE};
use crate::common::{
    bounded_at, date8_at, datetime_at, digits_at, exact_at, optional_at, slot_is_empty, Token,
};
use crate::error::{Fault, RecordTag};
use crate::nem12::record::{
    alnum, b2b_details_at, comma_at, digits, field_at, format_at, has_code, header_at,
    interval_data_at, interval_event_at, letters, nmi_data_details_at, quality_at, tag_at,
    value_at, values_at, B2BDetailsView, HeaderView, IntervalDataView, IntervalEventView,
    NMIDataDetailsView,
};
use crate::nem12::parser::{
    after_line, content_end, lemma_prepend_nothing, lemma_prepend_twice, line_record, line_stop,
    prepend, read_all, skip_blank_lines,
};
use crate::nem12::record::{
    end_of_data_at, lemma_b2b_details_bounds, lemma_header_bounds, lemma_interval_data_bounds,
    lemma_interval_event_bounds, lemma_nmi_data_details_bounds, KindView,
};
use crate::nem12::wellformed::{lemma_read_configuration_is_ok, lemma_read_interval_data_is_ok};
use crate::nem12::render::{lemma_digits_value_of_part, lemma_run_of_part};
use crate::nem12::{
    block_at, blocks_at, document_of, events_at, exchanges_at, interval_at, intervals_at,
    lemma_block_bounds, lemma_interval_bounds, lemma_intervals_bounds, line_end_at, listed,
    record_follows, sample_count_of, skip_newlines, NEM12View,
};
use vstd::prelude::*;

verus! {

/// Whether the bytes of `s` from `a` up to `b` are the rest of one line: no
/// line feed is among them, and the line or the text ends at `b`.
pub open spec fn is_line(s: Seq<u8>, a: int, b: int) -> bool {
    &&& 0 <= a <= b <= s.len()
    &&& forall|i: int| a <= i < b ==> #[trigger] s[i] != NEWLINE
    &&& b == s.len() || s[b] == NEWLINE
}

/// Whether `token` is one of the shapes that the fields of the format have.
pub open spec fn is_field_shape(token: Token) -> bool {
    token == alnum() || token == digits() || token == letters() || token == Token::Decimal
}

/// A run of a class without the line feed, started on a line, stays on the
/// line, and is the same run in the line taken alone.
pub proof fn lemma_run_in_line(s: Seq<u8>, a: int, b: int, p: int, set: Charset)
    requires
        is_line(s, a, b),
        a <= p <= b,
        !set.holds(NEWLINE),
    ensures
        p + run_len(s, p, set) <= b,
        run_len(s.subrange(a, b), p - a, set) == run_len(s, p, set),
{
    lemma_run_len(s, p, set);
    if p + run_len(s, p, set) > b {
        assert(set.holds(s[b]));
    }
    lemma_run_of_part(s, a, b, p - a, set);
}

/// A field's text, started on a line, stays on the line, and is the same
/// text in the line taken alone.
pub proof fn lemma_token_in_line(s: Seq<u8>, a: int, b: int, p: int, token: Token)
    requires
        is_line(s, a, b),
        a <= p <= b,
        is_field_shape(token),
    ensures
        p + token.len_at(s, p) <= b,
        token.len_at(s.subrange(a, b), p - a) == token.len_at(s, p),
        s.subrange(a, b).subrange(p - a, p - a + token.len_at(s, p)) == s.subrange(
            p,
            p + token.len_at(s, p),
        ),
{
    let line = s.subrange(a, b);
    match token {
        Token::Run(set) => {
            lemma_run_in_line(s, a, b, p, set);
        },
        Token::Decimal => {
            let whole = run_len(s, p, Charset::Digit) as int;
            lemma_run_in_line(s, a, b, p, Charset::Digit);
            if p + whole < b {
                assert(line[p - a + whole] == s[p + whole]);
                lemma_run_in_line(s, a, b, p + whole + 1, Charset::Digit);
            }
        },
    }
    assert(line.subrange(p - a, p - a + token.len_at(s, p)) =~= s.subrange(
        p,
        p + token.len_at(s, p),
    ));
}

/// A field within a bound is found on its line as in the whole text.
pub proof fn lemma_bounded_in_line(
    s: Seq<u8>,
    a: int,
    b: int,
    p: int,
    token: Token,
    max: nat,
)
    requires
        is_line(s, a, b),
        a <= p <= b,
        is_field_shape(token),
    ensures
        match bounded_at(s, p, token, max) {
            Ok(next) => p <= next <= b && bounded_at(s.subrange(a, b), p - a, token, max) == Ok::<
                int,
                Fault,
            >(next - a) && s.subrange(a, b).subrange(p - a, next - a) == s.subrange(p, next),
            Err(_) => bounded_at(s.subrange(a, b), p - a, token, max) is Err,
        },
        match exact_at(s, p, token, max) {
            Ok(next) => p <= next <= b && exact_at(s.subrange(a, b), p - a, token, max) == Ok::<
                int,
                Fault,
            >(next - a) && s.subrange(a, b).subrange(p - a, next - a) == s.subrange(p, next),
            Err(_) => exact_at(s.subrange(a, b), p - a, token, max) is Err,
        },
{
    lemma_token_in_line(s, a, b, p, token);
}

/// A tag, a comma and a format tag are found on their line as in the whole
/// text.
pub proof fn lemma_marks_in_line(s: Seq<u8>, a: int, b: int, p: int, tag: RecordTag)
    requires
        is_line(s, a, b),
        a <= p <= b,
    ensures
        tag_at(s, p, tag) matches Ok(next) ==> next <= b && tag_at(
            s.subrange(a, b),
            p - a,
            tag,
        ) == Ok::<int, Fault>(next - a),
        comma_at(s, p) matches Ok(next) ==> next <= b && comma_at(s.subrange(a, b), p - a)
            == Ok::<int, Fault>(next - a),
        format_at(s, p) matches Ok(next) ==> next <= b && format_at(s.subrange(a, b), p - a)
            == Ok::<int, Fault>(next - a) && s.subrange(a, b).subrange(p - a, next - a)
            == s.subrange(p, next),
{
    let line = s.subrange(a, b);
    if tag_at(s, p, tag) is Ok {
        assert(s[p] != NEWLINE && s[p + 1] != NEWLINE && s[p + 2] != NEWLINE && s[p + 3]
            != NEWLINE);
        assert(p + 4 <= b) by {
            if p + 4 > b {
                assert(s[b] != NEWLINE);
            }
        }
        assert(line[p - a] == s[p] && line[p - a + 1] == s[p + 1] && line[p - a + 2] == s[p + 2]
            && line[p - a + 3] == s[p + 3]);
    }
    if comma_at(s, p) is Ok {
        assert(p + 1 <= b);
        assert(line[p - a] == s[p]);
    }
    if format_at(s, p) is Ok {
        assert(p + 5 <= b) by {
            if p + 5 > b {
                assert(s[b] != NEWLINE);
            }
        }
        assert(line[p - a] == s[p] && line[p - a + 1] == s[p + 1] && line[p - a + 2] == s[p + 2]
            && line[p - a + 3] == s[p + 3] && line[p - a + 4] == s[p + 4]);
        assert(line.subrange(p - a, p - a + 5) =~= s.subrange(p, p + 5));
    }
}

/// Digits are found on their line as in the whole text.
pub proof fn lemma_digits_in_line(s: Seq<u8>, a: int, b: int, p: int, n: nat)
    requires
        is_line(s, a, b),
        a <= p <= b,
    ensures
        digits_at(s, p, n) == digits_at(s.subrange(a, b), p - a, n),
        digits_at(s, p, n) ==> p + n <= b && s.subrange(a, b).subrange(p - a, p - a + n)
            == s.subrange(p, p + n),
{
    let line = s.subrange(a, b);
    if p + n <= b {
        assert(line.subrange(p - a, p - a + n) =~= s.subrange(p, p + n));
    } else if digits_at(s, p, n) {
        assert(s.subrange(p, p + n)[b - p] == s[b]);
    }
}

/// A date and a date-time are found on their line as in the whole text.
pub proof fn lemma_times_in_line(s: Seq<u8>, a: int, b: int, p: int, width: nat)
    requires
        is_line(s, a, b),
        a <= p <= b,
    ensures
        match date8_at(s, p) {
            Ok((next, date)) => next <= b && date8_at(s.subrange(a, b), p - a) == Ok::<
                (int, Date),
                Fault,
            >((next - a, date)),
            Err(_) => date8_at(s.subrange(a, b), p - a) is Err,
        },
        match datetime_at(s, p, width) {
            Ok((next, time)) => next <= b && datetime_at(s.subrange(a, b), p - a, width) == Ok::<
                (int, DateTime),
                Fault,
            >((next - a, time)),
            Err(_) => datetime_at(s.subrange(a, b), p - a, width) is Err,
        },
{
    lemma_digits_in_line(s, a, b, p, 8);
    lemma_digits_in_line(s, a, b, p, width);
}

/// A slot is empty on its line exactly when it is empty in the whole text.
pub proof fn lemma_slot_in_line(s: Seq<u8>, a: int, b: int, p: int, end_marker: u8)
    requires
        is_line(s, a, b),
        a <= p <= b,
    ensures
        slot_is_empty(s, p, end_marker) == slot_is_empty(s.subrange(a, b), p - a, end_marker),
{
    if p < b {
        assert(s.subrange(a, b)[p - a] == s[p]);
    }
}

/// An optional field within a bound is found on its line as in the whole
/// text.
pub proof fn lemma_optional_in_line(
    s: Seq<u8>,
    a: int,
    b: int,
    p: int,
    token: Token,
    max: nat,
    end_marker: u8,
)
    requires
        is_line(s, a, b),
        a <= p <= b,
        is_field_shape(token),
    ensures
        optional_at(field_at(s, p, bounded_at(s, p, token, max)), s, p, end_marker) matches Ok(
            (next, field),
        ) ==> p <= next <= b && optional_at(
            field_at(
                s.subrange(a, b),
                p - a,
                bounded_at(s.subrange(a, b), p - a, token, max),
            ),
            s.subrange(a, b),
            p - a,
            end_marker,
        ) == Ok::<(int, Option<Seq<u8>>), Fault>((next - a, field)),
        optional_at(field_at(s, p, exact_at(s, p, token, max)), s, p, end_marker) matches Ok(
            (next, field),
        ) ==> p <= next <= b && optional_at(
            field_at(s.subrange(a, b), p - a, exact_at(s.subrange(a, b), p - a, token, max)),
            s.subrange(a, b),
            p - a,
            end_marker,
        ) == Ok::<(int, Option<Seq<u8>>), Fault>((next - a, field)),
{
    lemma_bounded_in_line(s, a, b, p, token, max);
    lemma_slot_in_line(s, a, b, p, end_marker);
}

/// An optional date and an optional date-time are found on their line as in
/// the whole text.
pub proof fn lemma_optional_times_in_line(
    s: Seq<u8>,
    a: int,
    b: int,
    p: int,
    width: nat,
    end_marker: u8,
)
    requires
        is_line(s, a, b),
        a <= p <= b,
    ensures
        optional_at(date8_at(s, p), s, p, end_marker) matches Ok((next, date)) ==> p <= next
            <= b && optional_at(
            date8_at(s.subrange(a, b), p - a),
            s.subrange(a, b),
            p - a,
            end_marker,
        ) == Ok::<(int, Option<Date>), Fault>((next - a, date)),
        optional_at(datetime_at(s, p, width), s, p, end_marker) matches Ok((next, time)) ==> p
            <= next <= b && optional_at(
            datetime_at(s.subrange(a, b), p - a, width),
            s.subrange(a, b),
            p - a,
            end_marker,
        ) == Ok::<(int, Option<DateTime>), Fault>((next - a, time)),
{
    lemma_times_in_line(s, a, b, p, width);
    lemma_slot_in_line(s, a, b, p, end_marker);
}

/// A reading is found on its line as in the whole text.
pub proof fn lemma_value_in_line(s: Seq<u8>, a: int, b: int, p: int)
    requires
        is_line(s, a, b),
        a <= p <= b,
    ensures
        value_at(s, p) matches Ok((next, bits)) ==> p < next <= b && value_at(
            s.subrange(a, b),
            p - a,
        ) == Ok::<(int, u64), Fault>((next - a, bits)),
{
    let line = s.subrange(a, b);
    if let Ok((next, bits)) = value_at(s, p) {
        assert(p < b);
        assert(line[p - a] == s[p]);
        lemma_run_in_line(s, a, b, p + 1, Charset::Field);
        assert(line.subrange(p - a + 1, next - a) =~= s.subrange(p + 1, next));
    }
}

/// Readings in a row are found on their line as in the whole text.
pub proof fn lemma_values_in_line(
    s: Seq<u8>,
    a: int,
    b: int,
    p: int,
    count: nat,
    found: Seq<u64>,
)
    requires
        is_line(s, a, b),
        a <= p <= b,
    ensures
        values_at(s, p, count, found) matches Ok((next, values)) ==> p <= next <= b
            && values_at(s.subrange(a, b), p - a, count, found) == Ok::<
            (int, Seq<u64>),
            Fault,
        >((next - a, values)),
    decreases count,
{
    if count > 0 {
        if let Ok((next, bits)) = value_at(s, p) {
            lemma_value_in_line(s, a, b, p);
            lemma_values_in_line(s, a, b, next, (count - 1) as nat, found.push(bits));
        }
    }
}

/// A quality method is found on its line as in the whole text.
pub proof fn lemma_quality_in_line(s: Seq<u8>, a: int, b: int, p: int)
    requires
        is_line(s, a, b),
        a <= p <= b,
    ensures
        quality_at(s, p) matches Ok(next) ==> p <= next <= b && quality_at(
            s.subrange(a, b),
            p - a,
        ) == Ok::<int, Fault>(next - a) && s.subrange(a, b).subrange(p - a, next - a)
            == s.subrange(p, next),
{
    lemma_bounded_in_line(s, a, b, p, letters(), 3);
}

/// A header is read from its line alone, and its last byte is no carriage
/// return.
pub proof fn lemma_header_in_line(s: Seq<u8>, a: int, b: int)
    requires
        is_line(s, a, b),
    ensures
        header_at(s, a) matches Ok((next, header)) ==> a < next <= b && s[next - 1] != 13
            && header_at(s.subrange(a, b), 0) == Ok::<(int, HeaderView), Fault>(
            (next - a, header),
        ),
{
    reveal(header_at);
    if header_at(s, a) is Ok {
        let tag = tag_at(s, a, RecordTag::Header);
        let format = format_at(s, tag->Ok_0);
        let c1 = comma_at(s, format->Ok_0);
        let created = datetime_at(s, c1->Ok_0, 12);
        let c2 = comma_at(s, created->Ok_0.0);
        let from = bounded_at(s, c2->Ok_0, alnum(), 10);
        let c3 = comma_at(s, from->Ok_0);
        let to = bounded_at(s, c3->Ok_0, alnum(), 10);
        lemma_marks_in_line(s, a, b, a, RecordTag::Header);
        lemma_marks_in_line(s, a, b, tag->Ok_0, RecordTag::Header);
        lemma_marks_in_line(s, a, b, format->Ok_0, RecordTag::Header);
        lemma_times_in_line(s, a, b, c1->Ok_0, 12);
        lemma_marks_in_line(s, a, b, created->Ok_0.0, RecordTag::Header);
        lemma_bounded_in_line(s, a, b, c2->Ok_0, alnum(), 10);
        lemma_marks_in_line(s, a, b, from->Ok_0, RecordTag::Header);
        lemma_bounded_in_line(s, a, b, c3->Ok_0, alnum(), 10);
        lemma_run_len(s, c3->Ok_0, Charset::Alphanumeric);
        assert(Charset::Alphanumeric.holds(s[to->Ok_0 - 1]));
    }
}

/// An interval event is read from its line alone, and its last byte is no
/// carriage return.
pub proof fn lemma_event_in_line(s: Seq<u8>, a: int, b: int)
    requires
        is_line(s, a, b),
    ensures
        interval_event_at(s, a) matches Ok((next, event)) ==> a < next <= b && s[next - 1] != 13
            && interval_event_at(s.subrange(a, b), 0) == Ok::<(int, IntervalEventView), Fault>(
            (next - a, event),
        ),
{
    reveal(interval_event_at);
    if interval_event_at(s, a) is Ok {
        let tag = tag_at(s, a, RecordTag::IntervalEvent);
        let start = bounded_at(s, tag->Ok_0, digits(), 4);
        let c1 = comma_at(s, start->Ok_0);
        let end = bounded_at(s, c1->Ok_0, digits(), 4);
        let c2 = comma_at(s, end->Ok_0);
        let quality = bounded_at(s, c2->Ok_0, alnum(), 3);
        let c3 = comma_at(s, quality->Ok_0);
        let code = optional_at(
            field_at(s, c3->Ok_0, bounded_at(s, c3->Ok_0, digits(), 3)),
            s,
            c3->Ok_0,
            COMMA,
        );
        let c4 = comma_at(s, code->Ok_0.0);
        let text = optional_at(
            field_at(s, c4->Ok_0, bounded_at(s, c4->Ok_0, alnum(), 24)),
            s,
            c4->Ok_0,
            NEWLINE,
        );
        lemma_marks_in_line(s, a, b, a, RecordTag::IntervalEvent);
        lemma_bounded_in_line(s, a, b, tag->Ok_0, digits(), 4);
        lemma_marks_in_line(s, a, b, start->Ok_0, RecordTag::IntervalEvent);
        lemma_bounded_in_line(s, a, b, c1->Ok_0, digits(), 4);
        lemma_marks_in_line(s, a, b, end->Ok_0, RecordTag::IntervalEvent);
        lemma_bounded_in_line(s, a, b, c2->Ok_0, alnum(), 3);
        lemma_marks_in_line(s, a, b, quality->Ok_0, RecordTag::IntervalEvent);
        lemma_optional_in_line(s, a, b, c3->Ok_0, digits(), 3, COMMA);
        lemma_marks_in_line(s, a, b, code->Ok_0.0, RecordTag::IntervalEvent);
        lemma_optional_in_line(s, a, b, c4->Ok_0, alnum(), 24, NEWLINE);
        lemma_run_len(s, c4->Ok_0, Charset::Alphanumeric);
        if text->Ok_0.1 is Some {
            assert(Charset::Alphanumeric.holds(s[text->Ok_0.0 - 1]));
        }
    }
}

/// Every byte of a decimal number is a digit or the point.
pub proof fn lemma_decimal_ends_in_digit(s: Seq<u8>, p: int)
    requires
        0 <= p <= s.len(),
    ensures
        Token::Decimal.len_at(s, p) > 0 ==> 48 <= s[p + Token::Decimal.len_at(s, p) - 1] <= 57,
{
    let whole = run_len(s, p, Charset::Digit) as int;
    lemma_run_len(s, p, Charset::Digit);
    lemma_run_len(s, p + whole + 1, Charset::Digit);
    let n = Token::Decimal.len_at(s, p) as int;
    if n > 0 {
        if n == whole {
            assert(Charset::Digit.holds(s[p + whole - 1]));
        } else {
            assert(Charset::Digit.holds(s[p + n - 1]));
        }
    }
}

/// An exchange record is read from its line alone, and its last byte is no
/// carriage return.
pub proof fn lemma_exchange_in_line(s: Seq<u8>, a: int, b: int)
    requires
        is_line(s, a, b),
    ensures
        b2b_details_at(s, a) matches Ok((next, details)) ==> a < next <= b && s[next - 1] != 13
            && b2b_details_at(s.subrange(a, b), 0) == Ok::<(int, B2BDetailsView), Fault>(
            (next - a, details),
        ),
{
    reveal(b2b_details_at);
    if b2b_details_at(s, a) is Ok {
        let tag = tag_at(s, a, RecordTag::B2BDetails);
        let code = exact_at(s, tag->Ok_0, letters(), 1);
        let c1 = comma_at(s, code->Ok_0);
        let order = bounded_at(s, c1->Ok_0, alnum(), 15);
        let c2 = comma_at(s, order->Ok_0);
        let read = datetime_at(s, c2->Ok_0, 14);
        let c3 = comma_at(s, read->Ok_0.0);
        let index = bounded_at(s, c3->Ok_0, Token::Decimal, 15);
        lemma_marks_in_line(s, a, b, a, RecordTag::B2BDetails);
        lemma_bounded_in_line(s, a, b, tag->Ok_0, letters(), 1);
        lemma_marks_in_line(s, a, b, code->Ok_0, RecordTag::B2BDetails);
        lemma_bounded_in_line(s, a, b, c1->Ok_0, alnum(), 15);
        lemma_marks_in_line(s, a, b, order->Ok_0, RecordTag::B2BDetails);
        lemma_times_in_line(s, a, b, c2->Ok_0, 14);
        lemma_marks_in_line(s, a, b, read->Ok_0.0, RecordTag::B2BDetails);
        lemma_bounded_in_line(s, a, b, c3->Ok_0, Token::Decimal, 15);
        lemma_decimal_ends_in_digit(s, c3->Ok_0);
    }
}

/// An interval data record is read from its line alone, and its last byte
/// is no carriage return.
pub proof fn lemma_interval_data_in_line(s: Seq<u8>, a: int, b: int, capacity: nat)
    requires
        is_line(s, a, b),
    ensures
        interval_data_at(s, a, capacity) matches Ok((next, data)) ==> a < next <= b && s[next
            - 1] != 13 && interval_data_at(s.subrange(a, b), 0, capacity) == Ok::<
            (int, IntervalDataView),
            Fault,
        >((next - a, data)),
{
    reveal(interval_data_at);
    if interval_data_at(s, a, capacity) is Ok {
        let tag = tag_at(s, a, RecordTag::IntervalData);
        let day = date8_at(s, tag->Ok_0);
        let values = values_at(s, day->Ok_0.0, capacity, Seq::empty());
        let c1 = comma_at(s, values->Ok_0.0);
        let quality = quality_at(s, c1->Ok_0);
        let c2 = comma_at(s, quality->Ok_0);
        let code = optional_at(
            field_at(s, c2->Ok_0, bounded_at(s, c2->Ok_0, digits(), 3)),
            s,
            c2->Ok_0,
            COMMA,
        );
        let c3 = comma_at(s, code->Ok_0.0);
        let text = optional_at(
            field_at(s, c3->Ok_0, bounded_at(s, c3->Ok_0, alnum(), 240)),
            s,
            c3->Ok_0,
            COMMA,
        );
        let c4 = comma_at(s, text->Ok_0.0);
        let update = datetime_at(s, c4->Ok_0, 14);
        let c5 = comma_at(s, update->Ok_0.0);
        let load = optional_at(datetime_at(s, c5->Ok_0, 14), s, c5->Ok_0, NEWLINE);
        lemma_marks_in_line(s, a, b, a, RecordTag::IntervalData);
        lemma_times_in_line(s, a, b, tag->Ok_0, 14);
        lemma_values_in_line(s, a, b, day->Ok_0.0, capacity, Seq::empty());
        lemma_marks_in_line(s, a, b, values->Ok_0.0, RecordTag::IntervalData);
        lemma_quality_in_line(s, a, b, c1->Ok_0);
        lemma_marks_in_line(s, a, b, quality->Ok_0, RecordTag::IntervalData);
        lemma_optional_in_line(s, a, b, c2->Ok_0, digits(), 3, COMMA);
        lemma_marks_in_line(s, a, b, code->Ok_0.0, RecordTag::IntervalData);
        lemma_optional_in_line(s, a, b, c3->Ok_0, alnum(), 240, COMMA);
        lemma_marks_in_line(s, a, b, text->Ok_0.0, RecordTag::IntervalData);
        lemma_times_in_line(s, a, b, c4->Ok_0, 14);
        lemma_marks_in_line(s, a, b, update->Ok_0.0, RecordTag::IntervalData);
        lemma_optional_times_in_line(s, a, b, c5->Ok_0, 14, NEWLINE);
        if load->Ok_0.1 is Some {
            assert(s.subrange(c5->Ok_0, c5->Ok_0 + 14)[13] == s[c5->Ok_0 + 13]);
        }
    }
}

/// A meter configuration is read from its line alone, and its last byte is
/// no carriage return.
pub proof fn lemma_configuration_in_line(s: Seq<u8>, a: int, b: int)
    requires
        is_line(s, a, b),
    ensures
        nmi_data_details_at(s, a) matches Ok((next, details)) ==> a < next <= b && s[next - 1]
            != 13 && nmi_data_details_at(s.subrange(a, b), 0) == Ok::<
            (int, NMIDataDetailsView),
            Fault,
        >((next - a, details)),
{
    reveal(nmi_data_details_at);
    if nmi_data_details_at(s, a) is Ok {
        let tag = tag_at(s, a, RecordTag::NMIDataDetails);
        let nmi = exact_at(s, tag->Ok_0, alnum(), 10);
        let c1 = comma_at(s, nmi->Ok_0);
        let config = bounded_at(s, c1->Ok_0, alnum(), 240);
        let c2 = comma_at(s, config->Ok_0);
        let register = bounded_at(s, c2->Ok_0, alnum(), 10);
        let c3 = comma_at(s, register->Ok_0);
        let suffix = exact_at(s, c3->Ok_0, alnum(), 2);
        let c4 = comma_at(s, suffix->Ok_0);
        let stream = optional_at(
            field_at(s, c4->Ok_0, exact_at(s, c4->Ok_0, alnum(), 2)),
            s,
            c4->Ok_0,
            COMMA,
        );
        let c5 = comma_at(s, stream->Ok_0.0);
        let serial = bounded_at(s, c5->Ok_0, alnum(), 12);
        let c6 = comma_at(s, serial->Ok_0);
        let uom = bounded_at(s, c6->Ok_0, alnum(), 5);
        let c7 = comma_at(s, uom->Ok_0);
        let length = exact_at(s, c7->Ok_0, digits(), 2);
        let c8 = comma_at(s, length->Ok_0);
        let next_read = optional_at(date8_at(s, c8->Ok_0), s, c8->Ok_0, NEWLINE);
        lemma_marks_in_line(s, a, b, a, RecordTag::NMIDataDetails);
        lemma_bounded_in_line(s, a, b, tag->Ok_0, alnum(), 10);
        lemma_marks_in_line(s, a, b, nmi->Ok_0, RecordTag::NMIDataDetails);
        lemma_bounded_in_line(s, a, b, c1->Ok_0, alnum(), 240);
        lemma_marks_in_line(s, a, b, config->Ok_0, RecordTag::NMIDataDetails);
        lemma_bounded_in_line(s, a, b, c2->Ok_0, alnum(), 10);
        lemma_marks_in_line(s, a, b, register->Ok_0, RecordTag::NMIDataDetails);
        lemma_bounded_in_line(s, a, b, c3->Ok_0, alnum(), 2);
        lemma_marks_in_line(s, a, b, suffix->Ok_0, RecordTag::NMIDataDetails);
        lemma_optional_in_line(s, a, b, c4->Ok_0, alnum(), 2, COMMA);
        lemma_marks_in_line(s, a, b, stream->Ok_0.0, RecordTag::NMIDataDetails);
        lemma_bounded_in_line(s, a, b, c5->Ok_0, alnum(), 12);
        lemma_marks_in_line(s, a, b, serial->Ok_0, RecordTag::NMIDataDetails);
        lemma_bounded_in_line(s, a, b, c6->Ok_0, alnum(), 5);
        lemma_marks_in_line(s, a, b, uom->Ok_0, RecordTag::NMIDataDetails);
        lemma_bounded_in_line(s, a, b, c7->Ok_0, digits(), 2);
        lemma_marks_in_line(s, a, b, length->Ok_0, RecordTag::NMIDataDetails);
        lemma_optional_times_in_line(s, a, b, c8->Ok_0, 14, NEWLINE);
        lemma_digits_value_of_part(
            s,
            c7->Ok_0,
            2,
            s.subrange(c7->Ok_0, c7->Ok_0 + 2),
        );
        lemma_digits_value_of_part(
            s.subrange(a, b),
            c7->Ok_0 - a,
            2,
            s.subrange(c7->Ok_0, c7->Ok_0 + 2),
        );
        if next_read->Ok_0.1 is Some {
            assert(s.subrange(c8->Ok_0, c8->Ok_0 + 8)[7] == s[c8->Ok_0 + 7]);
        }
    }
}

/// The offset where the reader goes on behind a line whose content ends at
/// `end`: behind the line feed, or at the end of the text.
pub open spec fn resume(s: Seq<u8>, end: int) -> int {
    if end < s.len() {
        end + 1
    } else {
        end
    }
}

/// What the reader hands out depends on where the next line that is not
/// blank starts, and on nothing before it.
pub proof fn lemma_read_all_from_same_start(s: Seq<u8>, p: int, q: int, ctx: Option<nat>)
    requires
        skip_blank_lines(s, p).0 == skip_blank_lines(s, q).0,
    ensures
        read_all(s, p, ctx) == read_all(s, q, ctx),
{
}

/// Line feeds in a row are blank lines.
pub proof fn lemma_newlines_are_blank_lines(s: Seq<u8>, p: int, q: int)
    requires
        0 <= p <= q <= s.len(),
        forall|i: int| p <= i < q ==> #[trigger] s[i] == NEWLINE,
    ensures
        skip_blank_lines(s, p).0 == skip_blank_lines(s, q).0,
    decreases q - p,
{
    if p < q {
        assert(s[p] == NEWLINE);
        assert(run_len(s, p, Charset::Line) == 0);
        lemma_newlines_are_blank_lines(s, p + 1, q);
    }
}

/// Behind a record that ends its line, the reader goes on with the next
/// line that is not empty.
pub proof fn lemma_reader_resumes(s: Seq<u8>, end: int, ctx: Option<nat>)
    requires
        0 <= end,
        line_end_at(s, end) is Ok,
    ensures
        read_all(s, resume(s, end), ctx) == read_all(s, skip_newlines(s, end), ctx),
{
    if end < s.len() {
        lemma_run_len(s, end, Charset::Newline);
        lemma_newlines_are_blank_lines(s, end + 1, skip_newlines(s, end));
        lemma_read_all_from_same_start(s, end + 1, skip_newlines(s, end), ctx);
    } else {
        assert(run_len(s, end, Charset::Newline) == 0);
    }
}

/// A line that starts with a byte that is no blank, holds no line feed and
/// does not end in a carriage return is read as it stands.
pub proof fn lemma_reader_takes_line(s: Seq<u8>, start: int, end: int, ctx: Option<nat>)
    requires
        start < end,
        is_line(s, start, end),
        s[end - 1] != 13,
        !Charset::Space.holds(s[start]),
    ensures
        read_all(s, start, ctx) == match line_record(s.subrange(start, end), ctx) {
            Ok((kind, carried)) => prepend(seq![kind], read_all(s, resume(s, end), carried)),
            Err(_) => None,
        },
{
    lemma_run_len_is(s, start, Charset::Line, (end - start) as nat);
    assert(run_len(s, start, Charset::Space) == 0);
}

/// The line of a record that ends its line reaches from the record's first
/// byte to its last.
pub proof fn lemma_record_fills_its_line(s: Seq<u8>, start: int, end: int)
    requires
        0 <= start <= end <= line_stop(s, start),
        start <= s.len(),
        line_end_at(s, end) is Ok,
    ensures
        is_line(s, start, end),
        end == line_stop(s, start),
{
    lemma_run_len(s, start, Charset::Line);
}

/// The rest of a line from any offset of the text on.
pub proof fn lemma_line_stop_is_line(s: Seq<u8>, start: int)
    requires
        0 <= start <= s.len(),
    ensures
        is_line(s, start, line_stop(s, start)),
{
    lemma_run_len(s, start, Charset::Line);
}

/// Where only blanks are left, the reader finds no further line.
pub proof fn lemma_blank_tail(s: Seq<u8>, p: int)
    requires
        0 <= p <= s.len(),
        forall|i: int| p <= i < s.len() ==> Charset::Blank.holds(#[trigger] s[i]),
    ensures
        skip_blank_lines(s, p).0 == s.len(),
    decreases s.len() - p,
{
    if p < s.len() {
        lemma_run_len(s, p, Charset::Line);
        let stop = line_stop(s, p);
        assert forall|i: int| p <= i < stop implies Charset::Space.holds(#[trigger] s[i]) by {
            assert(Charset::Blank.holds(s[i]));
        }
        if p + run_len(s, p, Charset::Space) < stop {
            lemma_run_len(s, p, Charset::Space);
        }
        lemma_blank_tail(s, after_line(s, p));
    }
}

/// The reader hands out a header that ends its line, and goes on behind it.
pub proof fn lemma_reader_reads_header(s: Seq<u8>, p: int, ctx: Option<nat>)
    requires
        0 <= p,
        header_at(s, p) is Ok,
        line_end_at(s, header_at(s, p)->Ok_0.0) is Ok,
    ensures
        read_all(s, p, ctx) == prepend(
            seq![KindView::Header(header_at(s, p)->Ok_0.1)],
            read_all(s, skip_newlines(s, header_at(s, p)->Ok_0.0), ctx),
        ),
{
    let end = header_at(s, p)->Ok_0.0;
    lemma_header_bounds(s, p);
    lemma_line_stop_is_line(s, p);
    lemma_header_in_line(s, p, line_stop(s, p));
    lemma_record_fills_its_line(s, p, end);
    assert(has_code(s, p, RecordTag::Header) && has_code(
        s.subrange(p, end),
        0,
        RecordTag::Header,
    )) by {
        reveal(header_at);
        let line = s.subrange(p, end);
        assert(line[0] == s[p] && line[1] == s[p + 1] && line[2] == s[p + 2]);
    }
    lemma_reader_takes_line(s, p, end, ctx);
    lemma_reader_resumes(s, end, ctx);
}

/// The reader hands out an interval event that ends its line, and goes on
/// behind it.
pub proof fn lemma_reader_reads_event(s: Seq<u8>, p: int, ctx: Option<nat>)
    requires
        0 <= p,
        interval_event_at(s, p) is Ok,
        line_end_at(s, interval_event_at(s, p)->Ok_0.0) is Ok,
    ensures
        read_all(s, p, ctx) == prepend(
            seq![KindView::IntervalEvent(interval_event_at(s, p)->Ok_0.1)],
            read_all(s, skip_newlines(s, interval_event_at(s, p)->Ok_0.0), ctx),
        ),
{
    let end = interval_event_at(s, p)->Ok_0.0;
    lemma_interval_event_bounds(s, p);
    lemma_line_stop_is_line(s, p);
    lemma_event_in_line(s, p, line_stop(s, p));
    lemma_record_fills_its_line(s, p, end);
    assert(has_code(s, p, RecordTag::IntervalEvent) && has_code(
        s.subrange(p, end),
        0,
        RecordTag::IntervalEvent,
    )) by {
        reveal(interval_event_at);
        let line = s.subrange(p, end);
        assert(line[0] == s[p] && line[1] == s[p + 1] && line[2] == s[p + 2]);
    }
    lemma_reader_takes_line(s, p, end, ctx);
    lemma_reader_resumes(s, end, ctx);
}

/// The reader hands out an exchange record that ends its line, and goes on
/// behind it.
pub proof fn lemma_reader_reads_exchange(s: Seq<u8>, p: int, ctx: Option<nat>)
    requires
        0 <= p,
        b2b_details_at(s, p) is Ok,
        line_end_at(s, b2b_details_at(s, p)->Ok_0.0) is Ok,
    ensures
        read_all(s, p, ctx) == prepend(
            seq![KindView::B2BDetails(b2b_details_at(s, p)->Ok_0.1)],
            read_all(s, skip_newlines(s, b2b_details_at(s, p)->Ok_0.0), ctx),
        ),
{
    let end = b2b_details_at(s, p)->Ok_0.0;
    lemma_b2b_details_bounds(s, p);
    lemma_line_stop_is_line(s, p);
    lemma_exchange_in_line(s, p, line_stop(s, p));
    lemma_record_fills_its_line(s, p, end);
    assert(has_code(s, p, RecordTag::B2BDetails) && has_code(
        s.subrange(p, end),
        0,
        RecordTag::B2BDetails,
    )) by {
        reveal(b2b_details_at);
        let line = s.subrange(p, end);
        assert(line[0] == s[p] && line[1] == s[p + 1] && line[2] == s[p + 2]);
    }
    lemma_reader_takes_line(s, p, end, ctx);
    lemma_reader_resumes(s, end, ctx);
}

/// The reader that carries the sample count `count` hands out an interval
/// data record of that many readings that ends its line, and goes on behind
/// it.
pub proof fn lemma_reader_reads_interval_data(s: Seq<u8>, p: int, count: nat)
    requires
        0 <= p,
        interval_data_at(s, p, count) is Ok,
        line_end_at(s, interval_data_at(s, p, count)->Ok_0.0) is Ok,
    ensures
        read_all(s, p, Some(count)) == prepend(
            seq![KindView::IntervalData(interval_data_at(s, p, count)->Ok_0.1)],
            read_all(s, skip_newlines(s, interval_data_at(s, p, count)->Ok_0.0), Some(count)),
        ),
{
    let end = interval_data_at(s, p, count)->Ok_0.0;
    lemma_interval_data_bounds(s, p, count);
    lemma_line_stop_is_line(s, p);
    lemma_interval_data_in_line(s, p, line_stop(s, p), count);
    lemma_record_fills_its_line(s, p, end);
    assert(has_code(s, p, RecordTag::IntervalData) && has_code(
        s.subrange(p, end),
        0,
        RecordTag::IntervalData,
    )) by {
        reveal(interval_data_at);
        let line = s.subrange(p, end);
        assert(line[0] == s[p] && line[1] == s[p + 1] && line[2] == s[p + 2]);
    }
    lemma_reader_takes_line(s, p, end, Some(count));
    lemma_reader_resumes(s, end, Some(count));
}

/// The reader hands out a meter configuration that ends its line and whose
/// interval length divides the day, and goes on behind it with the sample
/// count that the configuration declares.
pub proof fn lemma_reader_reads_configuration(s: Seq<u8>, p: int, ctx: Option<nat>)
    requires
        0 <= p,
        nmi_data_details_at(s, p) is Ok,
        line_end_at(s, nmi_data_details_at(s, p)->Ok_0.0) is Ok,
        sample_count_of(nmi_data_details_at(s, p)->Ok_0.1.interval_length) is Some,
    ensures
        read_all(s, p, ctx) == prepend(
            seq![KindView::NMIDataDetails(nmi_data_details_at(s, p)->Ok_0.1)],
            read_all(
                s,
                skip_newlines(s, nmi_data_details_at(s, p)->Ok_0.0),
                sample_count_of(nmi_data_details_at(s, p)->Ok_0.1.interval_length),
            ),
        ),
{
    let end = nmi_data_details_at(s, p)->Ok_0.0;
    let carried = sample_count_of(nmi_data_details_at(s, p)->Ok_0.1.interval_length);
    lemma_nmi_data_details_bounds(s, p);
    lemma_line_stop_is_line(s, p);
    lemma_configuration_in_line(s, p, line_stop(s, p));
    lemma_record_fills_its_line(s, p, end);
    assert(has_code(s, p, RecordTag::NMIDataDetails) && has_code(
        s.subrange(p, end),
        0,
        RecordTag::NMIDataDetails,
    )) by {
        reveal(nmi_data_details_at);
        let line = s.subrange(p, end);
        assert(line[0] == s[p] && line[1] == s[p + 1] && line[2] == s[p + 2]);
    }
    lemma_reader_takes_line(s, p, end, ctx);
    lemma_reader_resumes(s, end, carried);
}

/// The reader hands out the terminal marker that has nothing but blanks
/// behind it, and nothing after it.
pub proof fn lemma_reader_reads_end(s: Seq<u8>, p: int, ctx: Option<nat>)
    requires
        0 <= p,
        end_of_data_at(s, p) matches Ok(end) && end >= s.len(),
    ensures
        read_all(s, p, ctx) == Some(seq![KindView::EndOfData]),
{
    let stop = line_stop(s, p);
    let end = content_end(s, p);
    let line = s.subrange(p, end);
    lemma_run_len(s, p, Charset::Line);
    lemma_run_len(s, p + 3, Charset::Blank);
    assert(s[p] != NEWLINE && s[p + 1] != NEWLINE && s[p + 2] != NEWLINE);
    assert(p + 3 <= stop) by {
        if stop < p + 3 {
            assert(s[stop] == NEWLINE);
        }
    }
    assert(p + 3 <= end);
    assert(run_len(s, p, Charset::Space) == 0);
    assert(line[0] == s[p] && line[1] == s[p + 1] && line[2] == s[p + 2]);
    assert forall|i: int| 3 <= i < line.len() implies Charset::Blank.holds(#[trigger] line[i]) by {
        assert(line[i] == s[p + i]);
    }
    lemma_run_len_is(line, 3, Charset::Blank, (line.len() - 3) as nat);
    lemma_blank_tail(s, after_line(s, p));
    assert(read_all(s, after_line(s, p), ctx) == Some(Seq::<KindView>::empty()));
    assert(seq![KindView::EndOfData] + Seq::<KindView>::empty() =~= seq![KindView::EndOfData]);
}

/// Interval events as the records of their lines.
pub open spec fn event_records(events: Seq<IntervalEventView>) -> Seq<KindView> {
    events.map_values(|event: IntervalEventView| KindView::IntervalEvent(event))
}

/// Exchange records as the records of their lines.
pub open spec fn exchange_records(exchanges: Seq<B2BDetailsView>) -> Seq<KindView> {
    exchanges.map_values(|details: B2BDetailsView| KindView::B2BDetails(details))
}

/// The records of the lines that an interval data record with its events
/// was read from: the record without events, then the events.
pub open spec fn interval_records(data: IntervalDataView) -> Seq<KindView> {
    seq![KindView::IntervalData(IntervalDataView { interval_events: None, ..data })]
        + event_records(listed(data.interval_events))
}

/// The records of the lines that interval data records were read from.
pub open spec fn intervals_records(intervals: Seq<IntervalDataView>) -> Seq<KindView>
    decreases intervals.len(),
{
    if intervals.len() == 0 {
        Seq::empty()
    } else {
        intervals_records(intervals.drop_last()) + interval_records(intervals.last())
    }
}

/// The records of the lines that a meter block was read from: the
/// configuration with an empty block, then the interval data with their
/// events, then the exchange records.
pub open spec fn block_records(block: NMIDataDetailsView) -> Seq<KindView> {
    seq![
        KindView::NMIDataDetails(
            NMIDataDetailsView { interval_data_vec: None, b2b_details: None, ..block },
        ),
    ] + intervals_records(listed(block.interval_data_vec)) + exchange_records(
        listed(block.b2b_details),
    )
}

/// The records of the lines that meter blocks were read from.
pub open spec fn blocks_records(blocks: Seq<NMIDataDetailsView>) -> Seq<KindView>
    decreases blocks.len(),
{
    if blocks.len() == 0 {
        Seq::empty()
    } else {
        blocks_records(blocks.drop_last()) + block_records(blocks.last())
    }
}

/// The records of a document in the order of their lines: the header, the
/// records of the blocks, the terminal marker.
pub open spec fn records_of(document: NEM12View) -> Seq<KindView> {
    seq![KindView::Header(document.header)] + blocks_records(document.nmi_data_details)
        + seq![KindView::EndOfData]
}

/// Behind a record, the reader hands out the events that the document
/// attaches to it, and goes on behind them.
pub proof fn lemma_reader_reads_events(
    s: Seq<u8>,
    p: int,
    found: Seq<IntervalEventView>,
    ctx: Option<nat>,
)
    requires
        0 <= p <= s.len(),
        events_at(s, p, found) is Ok,
    ensures
        prepend(event_records(found), read_all(s, skip_newlines(s, p), ctx)) == prepend(
            event_records(events_at(s, p, found)->Ok_0.1),
            read_all(s, skip_newlines(s, events_at(s, p, found)->Ok_0.0), ctx),
        ),
    decreases s.len() - p,
{
    if record_follows(s, p, RecordTag::IntervalEvent) {
        let line = skip_newlines(s, p);
        let next = interval_event_at(s, line)->Ok_0.0;
        let event = interval_event_at(s, line)->Ok_0.1;
        lemma_interval_event_bounds(s, line);
        lemma_reader_reads_event(s, line, ctx);
        lemma_reader_reads_events(s, next, found.push(event), ctx);
        lemma_prepend_twice(
            event_records(found),
            seq![KindView::IntervalEvent(event)],
            read_all(s, skip_newlines(s, next), ctx),
        );
        assert(event_records(found.push(event)) =~= event_records(found) + seq![
            KindView::IntervalEvent(event),
        ]);
    }
}

/// Behind a record, the reader hands out the exchange records that the
/// document puts into the block, and goes on behind them.
pub proof fn lemma_reader_reads_exchanges(
    s: Seq<u8>,
    p: int,
    found: Seq<B2BDetailsView>,
    ctx: Option<nat>,
)
    requires
        0 <= p <= s.len(),
        exchanges_at(s, p, found) is Ok,
    ensures
        prepend(exchange_records(found), read_all(s, skip_newlines(s, p), ctx)) == prepend(
            exchange_records(exchanges_at(s, p, found)->Ok_0.1),
            read_all(s, skip_newlines(s, exchanges_at(s, p, found)->Ok_0.0), ctx),
        ),
    decreases s.len() - p,
{
    if record_follows(s, p, RecordTag::B2BDetails) {
        let line = skip_newlines(s, p);
        let next = b2b_details_at(s, line)->Ok_0.0;
        let details = b2b_details_at(s, line)->Ok_0.1;
        lemma_b2b_details_bounds(s, line);
        lemma_reader_reads_exchange(s, line, ctx);
        lemma_reader_reads_exchanges(s, next, found.push(details), ctx);
        lemma_prepend_twice(
            exchange_records(found),
            seq![KindView::B2BDetails(details)],
            read_all(s, skip_newlines(s, next), ctx),
        );
        assert(exchange_records(found.push(details)) =~= exchange_records(found) + seq![
            KindView::B2BDetails(details),
        ]);
    }
}

/// The reader that carries the sample count `count` hands out the lines of
/// an interval data record with its events, and goes on behind them.
pub proof fn lemma_reader_reads_interval(s: Seq<u8>, p: int, count: nat)
    requires
        0 <= p,
        interval_at(s, p, count) is Ok,
    ensures
        read_all(s, p, Some(count)) == prepend(
            interval_records(interval_at(s, p, count)->Ok_0.1),
            read_all(s, skip_newlines(s, interval_at(s, p, count)->Ok_0.0), Some(count)),
        ),
{
    let next = interval_data_at(s, p, count)->Ok_0.0;
    let data = interval_data_at(s, p, count)->Ok_0.1;
    let end = events_at(s, next, Seq::empty())->Ok_0.0;
    let events = events_at(s, next, Seq::empty())->Ok_0.1;
    let whole = interval_at(s, p, count)->Ok_0.1;
    lemma_interval_data_bounds(s, p, count);
    lemma_read_interval_data_is_ok(s, p, count);
    lemma_reader_reads_interval_data(s, p, count);
    lemma_reader_reads_events(s, next, Seq::empty(), Some(count));
    assert(event_records(Seq::empty()) =~= Seq::<KindView>::empty());
    lemma_prepend_nothing(read_all(s, skip_newlines(s, next), Some(count)));
    lemma_prepend_twice(
        seq![KindView::IntervalData(data)],
        event_records(events),
        read_all(s, skip_newlines(s, end), Some(count)),
    );
    assert(listed(whole.interval_events) =~= events);
    assert((IntervalDataView { interval_events: None, ..whole }) == data);
}

/// Behind a record of a block, the reader that carries the block's sample
/// count hands out the lines of the interval data that the document puts
/// into the block, and goes on behind them.
pub proof fn lemma_reader_reads_intervals(
    s: Seq<u8>,
    p: int,
    count: nat,
    found: Seq<IntervalDataView>,
)
    requires
        0 <= p <= s.len(),
        intervals_at(s, p, count, found) is Ok,
    ensures
        prepend(intervals_records(found), read_all(s, skip_newlines(s, p), Some(count)))
            == prepend(
            intervals_records(intervals_at(s, p, count, found)->Ok_0.1),
            read_all(
                s,
                skip_newlines(s, intervals_at(s, p, count, found)->Ok_0.0),
                Some(count),
            ),
        ),
    decreases s.len() - p,
{
    if record_follows(s, p, RecordTag::IntervalData) {
        let line = skip_newlines(s, p);
        let next = interval_at(s, line, count)->Ok_0.0;
        let data = interval_at(s, line, count)->Ok_0.1;
        lemma_interval_bounds(s, line, count);
        lemma_reader_reads_interval(s, line, count);
        lemma_reader_reads_intervals(s, next, count, found.push(data));
        lemma_prepend_twice(
            intervals_records(found),
            interval_records(data),
            read_all(s, skip_newlines(s, next), Some(count)),
        );
        assert(found.push(data).drop_last() =~= found);
    }
}

/// The reader hands out the lines of a meter block, and goes on behind them
/// with the block's sample count.
pub proof fn lemma_reader_reads_block(s: Seq<u8>, p: int, ctx: Option<nat>)
    requires
        0 <= p,
        block_at(s, p) is Ok,
    ensures
        read_all(s, p, ctx) == prepend(
            block_records(block_at(s, p)->Ok_0.1),
            read_all(
                s,
                skip_newlines(s, block_at(s, p)->Ok_0.0),
                sample_count_of(block_at(s, p)->Ok_0.1.interval_length),
            ),
        ),
{
    let next = nmi_data_details_at(s, p)->Ok_0.0;
    let details = nmi_data_details_at(s, p)->Ok_0.1;
    let carried = sample_count_of(details.interval_length);
    let count = carried->Some_0;
    let middle = intervals_at(s, next, count, Seq::empty())->Ok_0.0;
    let intervals = intervals_at(s, next, count, Seq::empty())->Ok_0.1;
    let end = exchanges_at(s, middle, Seq::empty())->Ok_0.0;
    let exchanges = exchanges_at(s, middle, Seq::empty())->Ok_0.1;
    let block = block_at(s, p)->Ok_0.1;
    lemma_nmi_data_details_bounds(s, p);
    lemma_read_configuration_is_ok(s, p);
    lemma_reader_reads_configuration(s, p, ctx);
    lemma_intervals_bounds(s, next, count, Seq::empty());
    lemma_reader_reads_intervals(s, next, count, Seq::empty());
    lemma_reader_reads_exchanges(s, middle, Seq::empty(), carried);
    assert(exchange_records(Seq::empty()) =~= Seq::<KindView>::empty());
    lemma_prepend_nothing(read_all(s, skip_newlines(s, next), carried));
    lemma_prepend_nothing(read_all(s, skip_newlines(s, middle), carried));
    lemma_prepend_twice(
        intervals_records(intervals),
        exchange_records(exchanges),
        read_all(s, skip_newlines(s, end), carried),
    );
    lemma_prepend_twice(
        seq![KindView::NMIDataDetails(details)],
        intervals_records(intervals) + exchange_records(exchanges),
        read_all(s, skip_newlines(s, end), carried),
    );
    assert(listed(block.interval_data_vec) =~= intervals);
    assert(listed(block.b2b_details) =~= exchanges);
    assert((NMIDataDetailsView { interval_data_vec: None, b2b_details: None, ..block })
        == details);
    assert(seq![KindView::NMIDataDetails(details)] + (intervals_records(intervals)
        + exchange_records(exchanges)) =~= block_records(block));
}

/// Behind the header or a block, the reader hands out the lines of the
/// blocks that the document holds and then the terminal marker, and nothing
/// more.
pub proof fn lemma_reader_reads_blocks(
    s: Seq<u8>,
    p: int,
    found: Seq<NMIDataDetailsView>,
    ctx: Option<nat>,
)
    requires
        0 <= p <= s.len(),
        blocks_at(s, p, found) is Ok,
        end_of_data_at(s, skip_newlines(s, blocks_at(s, p, found)->Ok_0.0)) matches Ok(end)
            && end >= s.len(),
    ensures
        prepend(blocks_records(found), read_all(s, skip_newlines(s, p), ctx)) == Some(
            blocks_records(blocks_at(s, p, found)->Ok_0.1) + seq![KindView::EndOfData],
        ),
    decreases s.len() - p,
{
    if record_follows(s, p, RecordTag::NMIDataDetails) {
        let line = skip_newlines(s, p);
        let next = block_at(s, line)->Ok_0.0;
        let block = block_at(s, line)->Ok_0.1;
        let carried = sample_count_of(block.interval_length);
        lemma_block_bounds(s, line);
        lemma_reader_reads_block(s, line, ctx);
        lemma_reader_reads_blocks(s, next, found.push(block), carried);
        lemma_prepend_twice(
            blocks_records(found),
            block_records(block),
            read_all(s, skip_newlines(s, next), carried),
        );
        assert(found.push(block).drop_last() =~= found);
    } else {
        lemma_reader_reads_end(s, skip_newlines(s, p), ctx);
    }
}

/// The reader that goes through a well-formed file line by line hands out,
/// record for record, what the document of the file holds, and then reports
/// the end: first the header, then for each block its configuration, its
/// interval data each with its events behind it, and its exchange records,
/// and last the terminal marker.
pub proof fn lemma_reader_agrees_with_document(s: Seq<u8>)
    requires
        document_of(s) is Ok,
    ensures
        read_all(s, 0, None) == Some(records_of(document_of(s)->Ok_0)),
{
    let next = header_at(s, 0)->Ok_0.0;
    let header = header_at(s, 0)->Ok_0.1;
    let blocks = blocks_at(s, next, Seq::empty())->Ok_0.1;
    lemma_header_bounds(s, 0);
    lemma_reader_reads_header(s, 0, None);
    lemma_reader_reads_blocks(s, next, Seq::empty(), None);
    lemma_prepend_nothing(read_all(s, skip_newlines(s, next), None));
    assert(seq![KindView::Header(header)] + (blocks_records(blocks) + seq![KindView::EndOfData])
        =~= records_of(document_of(s)->Ok_0));
}

} // verus!
