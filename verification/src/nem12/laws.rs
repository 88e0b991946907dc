//! What holds of every input: the laws of the grammar.

use crate::calendar::{all_digits, Date, DateTime};
use crate::charset::{lemma_run_len, lemma_run_len_is, run_len, Charset, COMMA, NEWLINE};
use crate::common::{
    bounded_at, date8_at, datetime_at, digits_at, exact_at, lemma_tokens_end_inside,
    optional_at, slot_is_empty, Token,
};
use crate::error::{lexical, ErrorKind, Fault, RecordTag};
use crate::nem12::equality::{same_block, same_document};
use crate::nem12::parser::line_stop;
use crate::nem12::record::{
    alnum, comma_at, digits, field_at, interval_data_at, lemma_nmi_data_details_bounds,
    lemma_values_at_len, letters, nmi_data_details_at, quality_at, tag_at, value_at, values_at,
    IntervalDataView, NMIDataDetailsView,
};
use crate::nem12::render::document_text;
use crate::nem12::roundtrip::lemma_reads_document;
use crate::nem12::wellformed::lemma_read_document_is_ok;
use crate::nem12::{
    block_at, document_of, document_ok, indivisible, interval_at, intervals_at,
    lemma_interval_bounds, line_end_at, record_follows, sample_count_of, skip_newlines,
    NEM12View,
};
use vstd::prelude::*;

verus! {

/// The number of commas among the bytes of `s` from `a` up to `b`.
pub open spec fn commas_in(s: Seq<u8>, a: int, b: int) -> nat
    decreases b - a,
{
    if b <= a {
        0
    } else {
        commas_in(s, a, b - 1) + if s[b - 1] == COMMA {
            1nat
        } else {
            0nat
        }
    }
}

/// Whether the bytes of `s` from `a` up to `b` lie inside `s`, hold no line
/// feed and hold exactly `commas` commas.
pub open spec fn spans(s: Seq<u8>, a: int, b: int, commas: nat) -> bool {
    &&& 0 <= a <= b <= s.len()
    &&& forall|i: int| a <= i < b ==> #[trigger] s[i] != NEWLINE
    &&& commas_in(s, a, b) == commas
}

/// Commas add up over adjoining stretches.
pub proof fn lemma_commas_add(s: Seq<u8>, a: int, b: int, c: int)
    requires
        a <= b <= c,
    ensures
        commas_in(s, a, c) == commas_in(s, a, b) + commas_in(s, b, c),
    decreases c - b,
{
    if b < c {
        lemma_commas_add(s, a, b, c - 1);
    }
}

/// A stretch without commas counts none.
pub proof fn lemma_no_commas(s: Seq<u8>, a: int, b: int)
    requires
        forall|i: int| a <= i < b ==> #[trigger] s[i] != COMMA,
    ensures
        commas_in(s, a, b) == 0,
    decreases b - a,
{
    if a < b {
        lemma_no_commas(s, a, b - 1);
    }
}

/// Two adjoining stretches make one.
pub proof fn lemma_spans_join(s: Seq<u8>, a: int, b: int, c: int, m: nat, n: nat)
    requires
        spans(s, a, b, m),
        spans(s, b, c, n),
    ensures
        spans(s, a, c, m + n),
{
    lemma_commas_add(s, a, b, c);
}

/// A record's tag is four bytes on one line with one comma.
pub proof fn lemma_tag_spans(s: Seq<u8>, p: int, tag: RecordTag)
    ensures
        tag_at(s, p, tag) matches Ok(next) ==> spans(s, p, next, 1),
{
    if let Ok(next) = tag_at(s, p, tag) {
        reveal_with_fuel(commas_in, 5);
    }
}

/// A comma is one byte on one line.
pub proof fn lemma_comma_spans(s: Seq<u8>, p: int)
    ensures
        comma_at(s, p) matches Ok(next) ==> spans(s, p, next, 1),
{
    reveal_with_fuel(commas_in, 2);
}

/// A run of letters, of digits or of both stays on one line and holds no
/// comma; so does a decimal number.
pub proof fn lemma_token_spans(s: Seq<u8>, p: int, token: Token)
    requires
        0 <= p <= s.len(),
        token == alnum() || token == digits() || token == letters() || token == Token::Decimal,
    ensures
        spans(s, p, p + token.len_at(s, p), 0),
{
    match token {
        Token::Run(set) => {
            lemma_run_len(s, p, set);
        },
        Token::Decimal => {
            let whole = run_len(s, p, Charset::Digit);
            lemma_run_len(s, p, Charset::Digit);
            lemma_run_len(s, p + whole + 1, Charset::Digit);
        },
    }
    lemma_no_commas(s, p, p + token.len_at(s, p));
}

/// A stretch of digits stays on one line and holds no comma.
pub proof fn lemma_digits_span(s: Seq<u8>, p: int, n: nat)
    requires
        0 <= p,
        p + n <= s.len(),
        all_digits(s.subrange(p, p + n)),
    ensures
        spans(s, p, p + n, 0),
{
    assert forall|i: int| p <= i < p + n implies 48 <= #[trigger] s[i] <= 57 by {
        assert(s[i] == s.subrange(p, p + n)[i - p]);
    }
    lemma_no_commas(s, p, p + n);
}

/// One reading is a comma and a field on one line.
pub proof fn lemma_value_spans(s: Seq<u8>, p: int)
    ensures
        value_at(s, p) matches Ok((next, _)) ==> spans(s, p, next, 1),
{
    if let Ok((next, _)) = value_at(s, p) {
        lemma_run_len(s, p + 1, Charset::Field);
        lemma_no_commas(s, p + 1, next);
        lemma_comma_spans(s, p);
        lemma_spans_join(s, p, p + 1, next, 1, 0);
    }
}

/// `count` readings in a row stay on one line and hold `count` commas.
pub proof fn lemma_values_span(s: Seq<u8>, p: int, count: nat, found: Seq<u64>)
    requires
        0 <= p <= s.len(),
    ensures
        values_at(s, p, count, found) matches Ok((next, _)) ==> spans(s, p, next, count),
    decreases count,
{
    if count > 0 {
        if let Ok((middle, bits)) = value_at(s, p) {
            lemma_value_spans(s, p);
            lemma_values_span(s, middle, (count - 1) as nat, found.push(bits));
            if let Ok((next, _)) = values_at(s, middle, (count - 1) as nat, found.push(bits)) {
                lemma_spans_join(s, p, middle, next, 1, (count - 1) as nat);
            }
        }
    }
}

/// An interval data record with `capacity` readings stays on one line and
/// holds six commas more than readings.
pub proof fn lemma_interval_data_spans(s: Seq<u8>, p: int, capacity: nat)
    requires
        0 <= p,
    ensures
        interval_data_at(s, p, capacity) matches Ok((next, _)) ==> spans(
            s,
            p,
            next,
            capacity + 6,
        ),
{
    reveal(interval_data_at);
    if let Ok((next, _)) = interval_data_at(s, p, capacity) {
        let tag = tag_at(s, p, RecordTag::IntervalData);
        let day = date8_at(s, tag->Ok_0);
        let values = values_at(s, day->Ok_0.0, capacity, Seq::empty());
        let c1 = comma_at(s, values->Ok_0.0);
        let quality = quality_at(s, c1->Ok_0);
        let c2 = comma_at(s, quality->Ok_0);
        let code = optional_at(
            field_at(s, c2->Ok_0, bounded_at(s, c2->Ok_0, digits(), 3)),
            s,
            c2->Ok_0,
            COMMA,
        );
        let c3 = comma_at(s, code->Ok_0.0);
        let text = optional_at(
            field_at(s, c3->Ok_0, bounded_at(s, c3->Ok_0, alnum(), 240)),
            s,
            c3->Ok_0,
            COMMA,
        );
        let c4 = comma_at(s, text->Ok_0.0);
        let update = datetime_at(s, c4->Ok_0, 14);
        let c5 = comma_at(s, update->Ok_0.0);
        let load = optional_at(datetime_at(s, c5->Ok_0, 14), s, c5->Ok_0, NEWLINE);
        let at1 = tag->Ok_0;
        let at2 = day->Ok_0.0;
        let at3 = values->Ok_0.0;
        let at4 = c1->Ok_0;
        let at5 = quality->Ok_0;
        let at6 = c2->Ok_0;
        let at7 = code->Ok_0.0;
        let at8 = c3->Ok_0;
        let at9 = text->Ok_0.0;
        let at10 = c4->Ok_0;
        let at11 = update->Ok_0.0;
        let at12 = c5->Ok_0;
        lemma_tag_spans(s, p, RecordTag::IntervalData);
        lemma_digits_span(s, at1, 8);
        lemma_spans_join(s, p, at1, at2, 1, 0);
        lemma_values_span(s, at2, capacity, Seq::empty());
        lemma_spans_join(s, p, at2, at3, 1, capacity);
        lemma_comma_spans(s, at3);
        lemma_spans_join(s, p, at3, at4, 1 + capacity, 1);
        lemma_token_spans(s, at4, letters());
        lemma_spans_join(s, p, at4, at5, 2 + capacity, 0);
        lemma_comma_spans(s, at5);
        lemma_spans_join(s, p, at5, at6, 2 + capacity, 1);
        lemma_token_spans(s, at6, digits());
        assert(spans(s, at6, at7, 0)) by {
            reveal_with_fuel(commas_in, 1);
        }
        lemma_spans_join(s, p, at6, at7, 3 + capacity, 0);
        lemma_comma_spans(s, at7);
        lemma_spans_join(s, p, at7, at8, 3 + capacity, 1);
        lemma_token_spans(s, at8, alnum());
        assert(spans(s, at8, at9, 0)) by {
            reveal_with_fuel(commas_in, 1);
        }
        lemma_spans_join(s, p, at8, at9, 4 + capacity, 0);
        lemma_comma_spans(s, at9);
        lemma_spans_join(s, p, at9, at10, 4 + capacity, 1);
        lemma_digits_span(s, at10, 14);
        lemma_spans_join(s, p, at10, at11, 5 + capacity, 0);
        lemma_comma_spans(s, at11);
        lemma_spans_join(s, p, at11, at12, 5 + capacity, 1);
        if datetime_at(s, at12, 14) is Ok {
            lemma_digits_span(s, at12, 14);
        }
        assert(spans(s, at12, next, 0)) by {
            reveal_with_fuel(commas_in, 1);
        }
        lemma_spans_join(s, p, at12, next, 6 + capacity, 0);
    }
}

/// A stretch on one line that ends its line reaches exactly to where the
/// line stops.
pub proof fn lemma_spans_to_line_stop(s: Seq<u8>, p: int, next: int, commas: nat)
    requires
        spans(s, p, next, commas),
        line_end_at(s, next) is Ok,
    ensures
        next == line_stop(s, p),
{
    lemma_run_len_is(s, p, Charset::Line, (next - p) as nat);
}

/// An interval data record that ends its line holds the readings of one
/// sample count only: the line that is accepted under one sample count is
/// refused under every other, be it larger or smaller.
pub proof fn lemma_sample_count_is_unique(s: Seq<u8>, p: int, first: nat, second: nat)
    requires
        0 <= p,
        interval_at(s, p, first) is Ok,
        interval_at(s, p, second) is Ok,
    ensures
        first == second,
{
    let a = interval_data_at(s, p, first)->Ok_0.0;
    let b = interval_data_at(s, p, second)->Ok_0.0;
    lemma_interval_data_spans(s, p, first);
    lemma_interval_data_spans(s, p, second);
    lemma_spans_to_line_stop(s, p, a, first + 6);
    lemma_spans_to_line_stop(s, p, b, second + 6);
}

/// Where the line behind a record of a block holds an interval data record
/// with `readings` readings, a block with the sample count `count` takes the
/// record in if `readings` is `count`, and fails if it is more or fewer.
pub proof fn lemma_block_takes_its_sample_count_only(
    s: Seq<u8>,
    p: int,
    count: nat,
    readings: nat,
    found: Seq<IntervalDataView>,
)
    requires
        record_follows(s, p, RecordTag::IntervalData),
        interval_at(s, skip_newlines(s, p), readings) is Ok,
    ensures
        readings == count ==> intervals_at(s, p, count, found) == intervals_at(
            s,
            interval_at(s, skip_newlines(s, p), readings)->Ok_0.0,
            count,
            found.push(interval_at(s, skip_newlines(s, p), readings)->Ok_0.1),
        ),
        readings != count ==> intervals_at(s, p, count, found) is Err,
{
    if readings != count && interval_at(s, skip_newlines(s, p), count) is Ok {
        lemma_sample_count_is_unique(s, skip_newlines(s, p), readings, count);
    }
}

/// A block whose interval length `L` divides the 1440 minutes of the day
/// takes interval data records of exactly 1440 / `L` readings and no
/// others: where the line behind its configuration holds an interval data
/// record with `readings` readings, more or fewer than that, the block
/// fails; where it holds exactly that many, the block reads on behind the
/// record.
pub proof fn lemma_block_of_length_takes_only_its_readings(s: Seq<u8>, p: int, readings: nat)
    requires
        nmi_data_details_at(s, p) is Ok,
        nmi_data_details_at(s, p)->Ok_0.1.interval_length > 0,
        1440int % (nmi_data_details_at(s, p)->Ok_0.1.interval_length as int) == 0,
        line_end_at(s, nmi_data_details_at(s, p)->Ok_0.0) is Ok,
        record_follows(s, nmi_data_details_at(s, p)->Ok_0.0, RecordTag::IntervalData),
        interval_at(s, skip_newlines(s, nmi_data_details_at(s, p)->Ok_0.0), readings) is Ok,
    ensures
        ({
            let next = nmi_data_details_at(s, p)->Ok_0.0;
            let length = nmi_data_details_at(s, p)->Ok_0.1.interval_length as int;
            let record = interval_at(s, skip_newlines(s, next), readings)->Ok_0;
            &&& readings != 1440int / length ==> block_at(s, p) is Err
            &&& readings == 1440int / length ==> intervals_at(
                s,
                next,
                readings,
                Seq::empty(),
            ) == intervals_at(s, record.0, readings, seq![record.1])
        }),
{
    let next = nmi_data_details_at(s, p)->Ok_0.0;
    let length = nmi_data_details_at(s, p)->Ok_0.1.interval_length;
    let count = sample_count_of(length)->Some_0;
    lemma_block_takes_its_sample_count_only(s, next, count, readings, Seq::empty());
    assert(Seq::<IntervalDataView>::empty().push(
        interval_at(s, skip_newlines(s, next), readings)->Ok_0.1,
    ) =~= seq![interval_at(s, skip_newlines(s, next), readings)->Ok_0.1]);
}

/// Whether every record of `list` holds exactly `count` readings.
pub open spec fn all_hold(list: Seq<IntervalDataView>, count: nat) -> bool {
    forall|i: int| 0 <= i < list.len() ==> (#[trigger] list[i]).interval_value.len() == count
}

/// The interval data that a block reads all hold the block's sample count.
pub proof fn lemma_intervals_hold_sample_count(
    s: Seq<u8>,
    p: int,
    count: nat,
    found: Seq<IntervalDataView>,
)
    requires
        0 <= p <= s.len(),
        all_hold(found, count),
    ensures
        intervals_at(s, p, count, found) matches Ok((_, list)) ==> all_hold(list, count),
    decreases s.len() - p,
{
    if record_follows(s, p, RecordTag::IntervalData) {
        let line = skip_newlines(s, p);
        if let Ok((next, data)) = interval_at(s, line, count) {
            lemma_interval_bounds(s, line, count);
            reveal(interval_data_at);
            let day = date8_at(s, tag_at(s, line, RecordTag::IntervalData)->Ok_0);
            lemma_values_at_len(s, day->Ok_0.0, count, Seq::empty());
            lemma_intervals_hold_sample_count(s, next, count, found.push(data));
        }
    }
}

/// Every interval data record of a block that was accepted holds exactly as
/// many readings as the block's interval length gives the day: 1440 divided
/// by that length, which divides 1440 evenly.
pub proof fn lemma_block_holds_its_sample_count(s: Seq<u8>, p: int)
    requires
        0 <= p,
    ensures
        block_at(s, p) matches Ok((_, block)) ==> block.interval_length > 0 && 1440int % (
        block.interval_length as int) == 0 && (block.interval_data_vec matches Some(list)
            ==> all_hold(list, (1440int / (block.interval_length as int)) as nat)),
{
    if let Ok((next, details)) = nmi_data_details_at(s, p) {
        lemma_nmi_data_details_bounds(s, p);
        if let Some(count) = sample_count_of(details.interval_length) {
            lemma_intervals_hold_sample_count(s, next, count, Seq::empty());
        }
    }
}

/// A meter configuration whose interval length does not divide the 1440
/// minutes of the day evenly makes its block fail with a divisibility fault
/// at the configuration record, whatever follows the record: no interval
/// data is looked at.
pub proof fn lemma_indivisible_length_fails_the_block(s: Seq<u8>, p: int)
    requires
        nmi_data_details_at(s, p) matches Ok((_, details)) && (details.interval_length == 0
            || 1440int % (details.interval_length as int) != 0),
    ensures
        block_at(s, p) == Err::<(int, NMIDataDetailsView), Fault>(indivisible(p)),
        indivisible(p).kind == ErrorKind::Divisibility,
{
}

/// The three outcomes of an optional field of letters, digits or both at
/// `p`, which `end_marker`, a comma or a line feed, delimits.
///
/// A field that is there and within its bound parses to its text. An empty
/// slot, one where the delimiter stands at once or the line or the text
/// ends, parses to an absent field and consumes nothing. A slot that holds
/// neither, a text that is too long or starts with a byte outside the
/// class, is a lexical fault at `p` and never an absent field.
pub proof fn lemma_optional_field(s: Seq<u8>, p: int, token: Token, max: nat, end_marker: u8)
    requires
        0 <= p <= s.len(),
        token == alnum() || token == digits() || token == letters(),
        end_marker == COMMA || end_marker == NEWLINE,
    ensures
        ({
            let field = optional_at(
                field_at(s, p, bounded_at(s, p, token, max)),
                s,
                p,
                end_marker,
            );
            let n = token.len_at(s, p);
            &&& 1 <= n <= max ==> field == Ok::<(int, Option<Seq<u8>>), Fault>(
                (p + n, Some(s.subrange(p, p + n))),
            )
            &&& slot_is_empty(s, p, end_marker) ==> field == Ok::<(int, Option<Seq<u8>>), Fault>(
                (p, None),
            )
            &&& !(1 <= n <= max) && !slot_is_empty(s, p, end_marker) ==> field == Err::<
                (int, Option<Seq<u8>>),
                Fault,
            >(lexical(p))
        }),
{
    lemma_run_len(s, p, token->Run_0);
}

/// The three outcomes of an optional field of a fixed length at `p`, as the
/// data stream of a meter configuration is one: a run of exactly `len`
/// letters and digits parses to its text; an empty slot parses to an absent
/// field and consumes nothing; a run of any other length that is not an
/// empty slot is a lexical fault at `p` and never an absent field.
pub proof fn lemma_optional_exact_field(s: Seq<u8>, p: int, len: nat, end_marker: u8)
    requires
        0 <= p <= s.len(),
        len >= 1,
        end_marker == COMMA || end_marker == NEWLINE,
    ensures
        ({
            let field = optional_at(
                field_at(s, p, exact_at(s, p, alnum(), len)),
                s,
                p,
                end_marker,
            );
            let n = run_len(s, p, Charset::Alphanumeric);
            &&& n == len ==> field == Ok::<(int, Option<Seq<u8>>), Fault>(
                (p + n, Some(s.subrange(p, p + n))),
            )
            &&& slot_is_empty(s, p, end_marker) ==> field == Ok::<(int, Option<Seq<u8>>), Fault>(
                (p, None),
            )
            &&& n != len && !slot_is_empty(s, p, end_marker) ==> field == Err::<
                (int, Option<Seq<u8>>),
                Fault,
            >(lexical(p))
        }),
{
    lemma_run_len(s, p, Charset::Alphanumeric);
}

/// The outcomes of an optional date, and of an optional date-time of
/// fourteen digits, at the end of a record at `p`: digits that name a day or
/// a time parse to it; an empty slot, one where the line or the text ends,
/// parses to an absent field; anything else is a fault at `p`, lexical
/// where the digits are missing and temporal where they name nothing, and
/// never an absent field.
pub proof fn lemma_optional_date_or_time(s: Seq<u8>, p: int)
    requires
        0 <= p <= s.len(),
    ensures
        ({
            let date = optional_at(date8_at(s, p), s, p, NEWLINE);
            let time = optional_at(datetime_at(s, p, 14), s, p, NEWLINE);
            let empty = slot_is_empty(s, p, NEWLINE);
            &&& date8_at(s, p) matches Ok((next, day)) ==> date == Ok::<
                (int, Option<Date>),
                Fault,
            >((next, Some(day)))
            &&& datetime_at(s, p, 14) matches Ok((next, moment)) ==> time == Ok::<
                (int, Option<DateTime>),
                Fault,
            >((next, Some(moment)))
            &&& empty ==> date == Ok::<(int, Option<Date>), Fault>((p, None)) && time == Ok::<
                (int, Option<DateTime>),
                Fault,
            >((p, None))
            &&& !empty && date8_at(s, p) is Err ==> date is Err && date->Err_0.at == p && (
            date->Err_0.kind == ErrorKind::Lexical || date->Err_0.kind == ErrorKind::Temporal)
            &&& !empty && datetime_at(s, p, 14) is Err ==> time is Err && time->Err_0.at == p && (
            time->Err_0.kind == ErrorKind::Lexical || time->Err_0.kind == ErrorKind::Temporal)
        }),
{
    if slot_is_empty(s, p, NEWLINE) {
        if digits_at(s, p, 8) {
            assert(s.subrange(p, p + 8)[0] == s[p]);
        }
        if digits_at(s, p, 14) {
            assert(s.subrange(p, p + 14)[0] == s[p]);
        }
    }
}

/// The meter identifier is exactly ten letters and digits. Behind the tag
/// of a meter configuration at `p`, a run of ten is taken as the
/// identifier, and no fault of the record lies before the end of it; a run
/// of any other length, nine or eleven or none, makes the record fail with
/// a lexical fault at the first byte of the field.
pub proof fn lemma_identifier_is_exact(s: Seq<u8>, p: int)
    requires
        tag_at(s, p, RecordTag::NMIDataDetails) is Ok,
    ensures
        run_len(s, p + 4, Charset::Alphanumeric) != 10 ==> nmi_data_details_at(s, p) == Err::<
            (int, NMIDataDetailsView),
            Fault,
        >(lexical(p + 4)),
        run_len(s, p + 4, Charset::Alphanumeric) == 10 ==> match nmi_data_details_at(s, p) {
            Ok((_, details)) => details.nmi == s.subrange(p + 4, p + 14),
            Err(fault) => fault.at >= p + 14,
        },
{
    reveal(nmi_data_details_at);
    lemma_tokens_end_inside(s, alnum());
    lemma_tokens_end_inside(s, digits());
}

/// A document is equal to itself.
pub proof fn lemma_document_equals_itself(document: NEM12View)
    ensures
        same_document(document, document),
{
    assert forall|i: int| 0 <= i < document.nmi_data_details.len() implies same_block(
        #[trigger] document.nmi_data_details[i],
        document.nmi_data_details[i],
    ) by {}
}

/// Parsing is idempotent over writing. Where a text holds a document, the
/// document keeps to the rules of the format; written out, one record to a
/// line, and parsed again, it comes back field for field, and so equal to
/// the first also where the letters of a unit of measure are compared
/// without their case.
pub proof fn lemma_reparsing_gives_the_document_back(s: Seq<u8>)
    requires
        document_of(s) is Ok,
    ensures
        document_ok(document_of(s)->Ok_0),
        document_of(document_text(document_of(s)->Ok_0)) == document_of(s),
        same_document(
            document_of(document_text(document_of(s)->Ok_0))->Ok_0,
            document_of(s)->Ok_0,
        ),
{
    let document = document_of(s)->Ok_0;
    lemma_read_document_is_ok(s);
    lemma_reads_document(document);
    lemma_document_equals_itself(document);
}

} // verus!
