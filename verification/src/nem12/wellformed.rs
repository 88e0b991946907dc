//! What was parsed keeps to the rules: every record that the grammar accepts
//! has fields of their classes and within their bounds, valid dates and
//! times, and as many readings as its block declares.

use crate::calendar::digits_value;
use crate::charset::{in_class, lemma_run_len, run_len, Charset};
use crate::common::{bounded_at, date8_at, datetime_at, exact_at, lemma_tokens_end_inside, Token};
use crate::error::RecordTag;
use crate::nem12::record::{
    b2b_details_at, can_be_written, comma_at, configuration_ok, event_ok, exchange_ok,
    header_at, header_ok, interval_data_at, interval_data_ok, interval_event_at,
    is_reading_text, lemma_b2b_details_bounds, lemma_header_bounds,
    lemma_interval_data_bounds, lemma_interval_event_bounds, lemma_nmi_data_details_bounds,
    lemma_values_at_len, lemma_values_bounds, nmi_data_details_at, tag_at, value_at, values_at,
    B2BDetailsView, IntervalDataView, IntervalEventView, NMIDataDetailsView,
};
use crate::nem12::render::{
    lemma_digits_value_bounds, lemma_read_date_is_valid, lemma_read_decimal_is_decimal,
    lemma_read_time_is_valid, lemma_run_is_in_class,
};
use crate::nem12::{
    block_at, block_ok, blocks_at, document_of, document_ok, events_at, exchanges_at,
    interval_at, interval_ok, intervals_at, lemma_block_bounds, lemma_interval_bounds,
    lemma_intervals_bounds, line_end_at, record_follows, sample_count_of, skip_newlines,
};
use vstd::prelude::*;

verus! {

/// The texts of all runs in `s` are of their runs' classes.
pub proof fn lemma_fields_are_in_class(s: Seq<u8>, set: Charset)
    ensures
        forall|p: int|
            0 <= p <= s.len() ==> in_class(
                #[trigger] s.subrange(p, p + run_len(s, p, set)),
                set,
            ),
{
    assert forall|p: int| 0 <= p <= s.len() implies in_class(
        #[trigger] s.subrange(p, p + run_len(s, p, set)),
        set,
    ) by {
        lemma_run_is_in_class(s, p, set);
    }
}

/// An interval event that was read keeps to the rules of its fields.
pub proof fn lemma_read_event_is_ok(s: Seq<u8>, p: int)
    requires
        0 <= p,
    ensures
        interval_event_at(s, p) matches Ok((_, event)) ==> event_ok(event),
{
    reveal(interval_event_at);
    lemma_fields_are_in_class(s, Charset::Digit);
    lemma_fields_are_in_class(s, Charset::Alphanumeric);
    lemma_tokens_end_inside(s, Token::Run(Charset::Digit));
    lemma_tokens_end_inside(s, Token::Run(Charset::Alphanumeric));
}

/// An exchange record that was read keeps to the rules of its fields.
pub proof fn lemma_read_exchange_is_ok(s: Seq<u8>, p: int)
    requires
        0 <= p,
    ensures
        b2b_details_at(s, p) matches Ok((_, details)) ==> exchange_ok(details),
{
    reveal(b2b_details_at);
    lemma_fields_are_in_class(s, Charset::Alpha);
    lemma_fields_are_in_class(s, Charset::Alphanumeric);
    lemma_tokens_end_inside(s, Token::Run(Charset::Alpha));
    lemma_tokens_end_inside(s, Token::Run(Charset::Alphanumeric));
    if let Ok((_, details)) = b2b_details_at(s, p) {
        let tag = tag_at(s, p, RecordTag::B2BDetails);
        let code = exact_at(s, tag->Ok_0, Token::Run(Charset::Alpha), 1);
        let c1 = comma_at(s, code->Ok_0);
        let order = bounded_at(s, c1->Ok_0, Token::Run(Charset::Alphanumeric), 15);
        let c2 = comma_at(s, order->Ok_0);
        let read = datetime_at(s, c2->Ok_0, 14);
        let c3 = comma_at(s, read->Ok_0.0);
        lemma_read_time_is_valid(s, c2->Ok_0, 14);
        lemma_read_decimal_is_decimal(s, c3->Ok_0, 15);
    }
}

/// A header that was read keeps to the rules of its fields.
pub proof fn lemma_read_header_is_ok(s: Seq<u8>, p: int)
    requires
        0 <= p,
    ensures
        header_at(s, p) matches Ok((_, header)) ==> header_ok(header),
{
    reveal(header_at);
    lemma_fields_are_in_class(s, Charset::Alphanumeric);
    lemma_tokens_end_inside(s, Token::Run(Charset::Alphanumeric));
    if let Ok((_, header)) = header_at(s, p) {
        let q = p + 4;
        lemma_read_time_is_valid(s, q + 6, 12);
        if s[q + 4] == 50 {
            assert(header.format =~= seq![78u8, 69u8, 77u8, 49u8, 50u8]);
        } else {
            assert(header.format =~= seq![78u8, 69u8, 77u8, 49u8, 51u8]);
        }
    }
}

/// Readings that were read are readings of some text: each of the text it
/// was read from.
pub proof fn lemma_read_values_are_ok(s: Seq<u8>, p: int, count: nat, found: Seq<u64>)
    requires
        0 <= p <= s.len(),
        forall|i: int| 0 <= i < found.len() ==> can_be_written(#[trigger] found[i]),
    ensures
        values_at(s, p, count, found) matches Ok((_, values)) ==> forall|i: int|
            0 <= i < values.len() ==> can_be_written(#[trigger] values[i]),
    decreases count,
{
    if count > 0 {
        if let Ok((next, bits)) = value_at(s, p) {
            lemma_run_len(s, p + 1, Charset::Field);
            lemma_run_is_in_class(s, p + 1, Charset::Field);
            assert(is_reading_text(s.subrange(p + 1, next), bits));
            lemma_read_values_are_ok(s, next, (count - 1) as nat, found.push(bits));
        }
    }
}

/// An interval data record that was read keeps to the rules of its fields
/// and has no events yet.
pub proof fn lemma_read_interval_data_is_ok(s: Seq<u8>, p: int, count: nat)
    requires
        0 <= p,
    ensures
        interval_data_at(s, p, count) matches Ok((_, data)) ==> interval_data_ok(data, count)
            && data.interval_events is None,
{
    reveal(interval_data_at);
    lemma_fields_are_in_class(s, Charset::Digit);
    lemma_fields_are_in_class(s, Charset::Alpha);
    lemma_fields_are_in_class(s, Charset::Alphanumeric);
    lemma_tokens_end_inside(s, Token::Run(Charset::Digit));
    lemma_tokens_end_inside(s, Token::Run(Charset::Alpha));
    lemma_tokens_end_inside(s, Token::Run(Charset::Alphanumeric));
    if let Ok((_, data)) = interval_data_at(s, p, count) {
        let tag = tag_at(s, p, RecordTag::IntervalData);
        let day = date8_at(s, tag->Ok_0);
        let values = values_at(s, day->Ok_0.0, count, Seq::empty());
        lemma_read_date_is_valid(s, tag->Ok_0);
        lemma_values_at_len(s, day->Ok_0.0, count, Seq::empty());
        lemma_read_values_are_ok(s, day->Ok_0.0, count, Seq::empty());
        lemma_values_bounds(s, day->Ok_0.0, count, Seq::empty());
        assert forall|q: int| #[trigger] datetime_at(s, q, 14) is Ok implies datetime_at(
            s,
            q,
            14,
        )->Ok_0.1.is_valid() by {
            lemma_read_time_is_valid(s, q, 14);
        }
    }
}

/// A meter configuration that was read keeps to the rules of its fields
/// and has an empty block yet.
pub proof fn lemma_read_configuration_is_ok(s: Seq<u8>, p: int)
    requires
        0 <= p,
    ensures
        nmi_data_details_at(s, p) matches Ok((_, details)) ==> configuration_ok(details)
            && details.interval_data_vec is None && details.b2b_details is None,
{
    reveal(nmi_data_details_at);
    lemma_fields_are_in_class(s, Charset::Alphanumeric);
    lemma_tokens_end_inside(s, Token::Run(Charset::Digit));
    lemma_tokens_end_inside(s, Token::Run(Charset::Alphanumeric));
    if let Ok((_, details)) = nmi_data_details_at(s, p) {
        assert forall|q: int| #[trigger] date8_at(s, q) is Ok implies date8_at(
            s,
            q,
        )->Ok_0.1.is_valid() by {
            lemma_read_date_is_valid(s, q);
        }
        assert forall|q: int|
            exact_at(s, q, Token::Run(Charset::Digit), 2) is Ok && 0 <= q implies 0
                <= #[trigger] digits_value(s, q, 2) <= 99 by {
            lemma_run_len(s, q, Charset::Digit);
            lemma_digits_value_bounds(s, q);
            assert forall|i: int| 0 <= i < 2 implies 48 <= #[trigger] s.subrange(q, q + 2)[i]
                <= 57 by {
                assert(s.subrange(q, q + 2)[i] == s[q + i]);
            }
        }
    }
}

/// Whether every event of `events` keeps to the rules.
pub open spec fn events_ok(events: Seq<IntervalEventView>) -> bool {
    forall|i: int| 0 <= i < events.len() ==> event_ok(#[trigger] events[i])
}

/// Whether every exchange record of `exchanges` keeps to the rules.
pub open spec fn exchanges_ok(exchanges: Seq<B2BDetailsView>) -> bool {
    forall|i: int| 0 <= i < exchanges.len() ==> exchange_ok(#[trigger] exchanges[i])
}

/// Whether every record of `intervals` keeps to the rules under the sample count
/// `count`.
pub open spec fn intervals_ok(intervals: Seq<IntervalDataView>, count: nat) -> bool {
    forall|i: int| 0 <= i < intervals.len() ==> interval_ok(#[trigger] intervals[i], count)
}

/// Whether every block of `blocks` keeps to the rules.
pub open spec fn blocks_ok(blocks: Seq<NMIDataDetailsView>) -> bool {
    forall|i: int| 0 <= i < blocks.len() ==> block_ok(#[trigger] blocks[i])
}

/// Interval events that were read keep to the rules.
pub proof fn lemma_read_events_are_ok(s: Seq<u8>, p: int, found: Seq<IntervalEventView>)
    requires
        0 <= p <= s.len(),
        events_ok(found),
    ensures
        events_at(s, p, found) matches Ok((_, events)) ==> events_ok(events) && events.len()
            >= found.len(),
    decreases s.len() - p,
{
    if record_follows(s, p, RecordTag::IntervalEvent) {
        let line = skip_newlines(s, p);
        lemma_interval_event_bounds(s, line);
        lemma_read_event_is_ok(s, line);
        if let Ok((next, event)) = interval_event_at(s, line) {
            if line_end_at(s, next) is Ok {
                lemma_read_events_are_ok(s, next, found.push(event));
            }
        }
    }
}

/// Exchange records that were read keep to the rules.
pub proof fn lemma_read_exchanges_are_ok(s: Seq<u8>, p: int, found: Seq<B2BDetailsView>)
    requires
        0 <= p <= s.len(),
        exchanges_ok(found),
    ensures
        exchanges_at(s, p, found) matches Ok((_, exchanges)) ==> exchanges_ok(exchanges)
            && exchanges.len() >= found.len(),
    decreases s.len() - p,
{
    if record_follows(s, p, RecordTag::B2BDetails) {
        let line = skip_newlines(s, p);
        lemma_b2b_details_bounds(s, line);
        lemma_read_exchange_is_ok(s, line);
        if let Ok((next, details)) = b2b_details_at(s, line) {
            if line_end_at(s, next) is Ok {
                lemma_read_exchanges_are_ok(s, next, found.push(details));
            }
        }
    }
}

/// An interval data record that was read with its events keeps to the
/// rules.
pub proof fn lemma_read_interval_is_ok(s: Seq<u8>, p: int, count: nat)
    requires
        0 <= p,
    ensures
        interval_at(s, p, count) matches Ok((_, data)) ==> interval_ok(data, count),
{
    lemma_interval_data_bounds(s, p, count);
    lemma_read_interval_data_is_ok(s, p, count);
    if let Ok((next, _)) = interval_data_at(s, p, count) {
        lemma_read_events_are_ok(s, next, Seq::empty());
    }
}

/// Interval data records that were read keep to the rules.
pub proof fn lemma_read_intervals_are_ok(
    s: Seq<u8>,
    p: int,
    count: nat,
    found: Seq<IntervalDataView>,
)
    requires
        0 <= p <= s.len(),
        intervals_ok(found, count),
    ensures
        intervals_at(s, p, count, found) matches Ok((_, intervals)) ==> intervals_ok(
            intervals,
            count,
        ) && intervals.len() >= found.len(),
    decreases s.len() - p,
{
    if record_follows(s, p, RecordTag::IntervalData) {
        let line = skip_newlines(s, p);
        lemma_interval_bounds(s, line, count);
        lemma_read_interval_is_ok(s, line, count);
        if let Ok((next, data)) = interval_at(s, line, count) {
            lemma_read_intervals_are_ok(s, next, count, found.push(data));
        }
    }
}

/// A meter block that was read keeps to the rules.
pub proof fn lemma_read_block_is_ok(s: Seq<u8>, p: int)
    requires
        0 <= p,
    ensures
        block_at(s, p) matches Ok((_, block)) ==> block_ok(block),
{
    lemma_nmi_data_details_bounds(s, p);
    lemma_read_configuration_is_ok(s, p);
    if let Ok((next, details)) = nmi_data_details_at(s, p) {
        if let Some(count) = sample_count_of(details.interval_length) {
            lemma_intervals_bounds(s, next, count, Seq::empty());
            lemma_read_intervals_are_ok(s, next, count, Seq::empty());
            if let Ok((middle, _)) = intervals_at(s, next, count, Seq::empty()) {
                lemma_read_exchanges_are_ok(s, middle, Seq::empty());
            }
        }
    }
}

/// Meter blocks that were read keep to the rules.
pub proof fn lemma_read_blocks_are_ok(s: Seq<u8>, p: int, found: Seq<NMIDataDetailsView>)
    requires
        0 <= p <= s.len(),
        blocks_ok(found),
    ensures
        blocks_at(s, p, found) matches Ok((_, blocks)) ==> blocks_ok(blocks),
    decreases s.len() - p,
{
    if record_follows(s, p, RecordTag::NMIDataDetails) {
        let line = skip_newlines(s, p);
        lemma_block_bounds(s, line);
        lemma_read_block_is_ok(s, line);
        if let Ok((next, block)) = block_at(s, line) {
            lemma_read_blocks_are_ok(s, next, found.push(block));
        }
    }
}

/// A document that was read keeps to the rules.
pub proof fn lemma_read_document_is_ok(s: Seq<u8>)
    ensures
        document_of(s) matches Ok(document) ==> document_ok(document),
{
    lemma_header_bounds(s, 0);
    lemma_read_header_is_ok(s, 0);
    if let Ok((next, _)) = header_at(s, 0) {
        lemma_read_blocks_are_ok(s, next, Seq::empty());
    }
}

} // verus!
