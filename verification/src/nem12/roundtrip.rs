//! A document that is written out and parsed again comes back as it was.

use crate::charset::{run_len, Charset, COMMA, NEWLINE};
use crate::error::{Fault, RecordTag};
use crate::nem12::record::{
    b2b_details_at, configuration_ok, end_of_data_at, event_ok, exchange_ok, has_code,
    header_at, header_ok, interval_data_at, interval_data_ok, interval_event_at,
    nmi_data_details_at, B2BDetailsView, HeaderView, IntervalDataView, IntervalEventView,
    NMIDataDetailsView,
};
use crate::nem12::render::{
    block_text, blocks_text, comma_text, configuration_text, date_text, document_text,
    end_text, event_text, events_text, exchange_text, exchanges_text, header_text, holds_at,
    interval_data_text, interval_text, intervals_text, lemma_block_text_starts,
    lemma_code_stays_in_front, lemma_date_text, lemma_event_text_starts,
    lemma_exchange_text_starts, lemma_holds_at_bytes, lemma_holds_at_split,
    lemma_interval_text_starts, lemma_minute_text, lemma_next_line, lemma_reads_comma,
    lemma_reads_date, lemma_reads_decimal, lemma_reads_field, lemma_reads_minute,
    lemma_reads_optional_date, lemma_reads_optional_exact, lemma_reads_optional_field,
    lemma_reads_optional_second, lemma_reads_second, lemma_reads_tag, lemma_reads_two_digits,
    lemma_reads_values, lemma_second_text, lemma_two, minute_text, newline_text,
    opt_date_text, opt_second_text, opt_text, second_text, starts_with_code, tag_text, two,
    values_text,
};
use crate::nem12::{
    block_at, block_ok, blocks_at, document_of, document_ok, events_at, exchanges_at,
    interval_at, interval_ok, intervals_at, line_end_at, listed, record_follows,
    sample_count_of, NEM12View,
};
use vstd::prelude::*;

verus! {

/// An interval event that stands written at `p` and ends its line is read
/// there as it was written.
pub proof fn lemma_reads_event(s: Seq<u8>, p: int, event: IntervalEventView)
    requires
        event_ok(event),
        holds_at(s, p, event_text(event)),
        line_end_at(s, p + event_text(event).len()) is Ok,
    ensures
        interval_event_at(s, p) == Ok::<(int, IntervalEventView), Fault>(
            (p + event_text(event).len(), event),
        ),
{
    reveal(interval_event_at);
    reveal(event_text);
    let code = opt_text(event.reason_code);
    let text = opt_text(event.reason_description);
    let r9 = text;
    let r8 = comma_text() + r9;
    let r7 = code + r8;
    let r6 = comma_text() + r7;
    let r5 = event.quality_method + r6;
    let r4 = comma_text() + r5;
    let r3 = event.end_interval + r4;
    let r2 = comma_text() + r3;
    let r1 = event.start_interval + r2;
    let at1 = p + 4;
    let at2 = at1 + event.start_interval.len();
    let at3 = at2 + 1;
    let at4 = at3 + event.end_interval.len();
    let at5 = at4 + 1;
    let at6 = at5 + event.quality_method.len();
    let at7 = at6 + 1;
    let at8 = at7 + code.len();
    let at9 = at8 + 1;
    lemma_holds_at_split(s, p, tag_text(RecordTag::IntervalEvent), r1);
    lemma_holds_at_split(s, at1, event.start_interval, r2);
    lemma_holds_at_split(s, at2, comma_text(), r3);
    lemma_holds_at_split(s, at3, event.end_interval, r4);
    lemma_holds_at_split(s, at4, comma_text(), r5);
    lemma_holds_at_split(s, at5, event.quality_method, r6);
    lemma_holds_at_split(s, at6, comma_text(), r7);
    lemma_holds_at_split(s, at7, code, r8);
    lemma_holds_at_split(s, at8, comma_text(), r9);
    lemma_reads_tag(s, p, RecordTag::IntervalEvent);
    lemma_reads_comma(s, at2);
    lemma_reads_comma(s, at4);
    lemma_reads_comma(s, at6);
    lemma_reads_comma(s, at8);
    lemma_reads_field(s, at1, event.start_interval, Charset::Digit, 4);
    lemma_reads_field(s, at3, event.end_interval, Charset::Digit, 4);
    lemma_reads_field(s, at5, event.quality_method, Charset::Alphanumeric, 3);
    lemma_reads_optional_field(s, at7, event.reason_code, Charset::Digit, 3, COMMA);
    lemma_reads_optional_field(
        s,
        at9,
        event.reason_description,
        Charset::Alphanumeric,
        24,
        NEWLINE,
    );
}

/// An exchange record that stands written at `p` and ends its line is read
/// there as it was written.
pub proof fn lemma_reads_exchange(s: Seq<u8>, p: int, details: B2BDetailsView)
    requires
        exchange_ok(details),
        holds_at(s, p, exchange_text(details)),
        line_end_at(s, p + exchange_text(details).len()) is Ok,
    ensures
        b2b_details_at(s, p) == Ok::<(int, B2BDetailsView), Fault>(
            (p + exchange_text(details).len(), details),
        ),
{
    reveal(b2b_details_at);
    reveal(exchange_text);
    let time = second_text(details.read_datetime);
    lemma_second_text(details.read_datetime);
    let r7 = details.index_read;
    let r6 = comma_text() + r7;
    let r5 = time + r6;
    let r4 = comma_text() + r5;
    let r3 = details.ret_service_order + r4;
    let r2 = comma_text() + r3;
    let r1 = details.trans_code + r2;
    let at1 = p + 4;
    let at2 = at1 + details.trans_code.len();
    let at3 = at2 + 1;
    let at4 = at3 + details.ret_service_order.len();
    let at5 = at4 + 1;
    let at6 = at5 + 14;
    let at7 = at6 + 1;
    lemma_holds_at_split(s, p, tag_text(RecordTag::B2BDetails), r1);
    lemma_holds_at_split(s, at1, details.trans_code, r2);
    lemma_holds_at_split(s, at2, comma_text(), r3);
    lemma_holds_at_split(s, at3, details.ret_service_order, r4);
    lemma_holds_at_split(s, at4, comma_text(), r5);
    lemma_holds_at_split(s, at5, time, r6);
    lemma_holds_at_split(s, at6, comma_text(), r7);
    lemma_reads_tag(s, p, RecordTag::B2BDetails);
    lemma_reads_comma(s, at2);
    lemma_reads_comma(s, at4);
    lemma_reads_comma(s, at6);
    lemma_reads_field(s, at1, details.trans_code, Charset::Alpha, 1);
    lemma_reads_field(s, at3, details.ret_service_order, Charset::Alphanumeric, 15);
    lemma_reads_second(s, at5, details.read_datetime);
    lemma_reads_decimal(s, at7, details.index_read, 15);
}

/// A header that stands written at `p` and ends its line is read there as
/// it was written.
pub proof fn lemma_reads_header(s: Seq<u8>, p: int, header: HeaderView)
    requires
        header_ok(header),
        holds_at(s, p, header_text(header)),
        line_end_at(s, p + header_text(header).len()) is Ok,
    ensures
        header_at(s, p) == Ok::<(int, HeaderView), Fault>(
            (p + header_text(header).len(), header),
        ),
{
    reveal(header_at);
    reveal(header_text);
    let time = minute_text(header.created);
    lemma_minute_text(header.created);
    let r7 = header.to_participant;
    let r6 = comma_text() + r7;
    let r5 = header.from_participant + r6;
    let r4 = comma_text() + r5;
    let r3 = time + r4;
    let r2 = comma_text() + r3;
    let r1 = header.format + r2;
    let at1 = p + 4;
    let at2 = at1 + 5;
    let at3 = at2 + 1;
    let at4 = at3 + 12;
    let at5 = at4 + 1;
    let at6 = at5 + header.from_participant.len();
    let at7 = at6 + 1;
    lemma_holds_at_split(s, p, tag_text(RecordTag::Header), r1);
    lemma_holds_at_split(s, at1, header.format, r2);
    lemma_holds_at_split(s, at2, comma_text(), r3);
    lemma_holds_at_split(s, at3, time, r4);
    lemma_holds_at_split(s, at4, comma_text(), r5);
    lemma_holds_at_split(s, at5, header.from_participant, r6);
    lemma_holds_at_split(s, at6, comma_text(), r7);
    lemma_reads_tag(s, p, RecordTag::Header);
    lemma_reads_comma(s, at2);
    lemma_reads_comma(s, at4);
    lemma_reads_comma(s, at6);
    lemma_holds_at_bytes(s, at1, header.format);
    assert(s[at1 + 0] == header.format[0]);
    assert(s[at1 + 1] == header.format[1]);
    assert(s[at1 + 2] == header.format[2]);
    assert(s[at1 + 3] == header.format[3]);
    assert(s[at1 + 4] == header.format[4]);
    lemma_reads_minute(s, at3, header.created);
    lemma_reads_field(s, at5, header.from_participant, Charset::Alphanumeric, 10);
    lemma_reads_field(s, at7, header.to_participant, Charset::Alphanumeric, 10);
}

/// An interval data record that stands written at `p` and ends its line is
/// read there as it was written, without events, under the sample count
/// that is the number of its readings.
pub proof fn lemma_reads_interval_data(s: Seq<u8>, p: int, data: IntervalDataView, count: nat)
    requires
        interval_data_ok(data, count),
        data.interval_events is None,
        holds_at(s, p, interval_data_text(data)),
        line_end_at(s, p + interval_data_text(data).len()) is Ok,
    ensures
        interval_data_at(s, p, count) == Ok::<(int, IntervalDataView), Fault>(
            (p + interval_data_text(data).len(), data),
        ),
{
    reveal(interval_data_at);
    reveal(interval_data_text);
    let day = date_text(data.interval_date);
    let values = values_text(data.interval_value);
    let code = opt_text(data.reason_code);
    let text = opt_text(data.reason_description);
    let update = second_text(data.update_datetime);
    let load = opt_second_text(data.msats_load_datetime);
    lemma_date_text(data.interval_date);
    lemma_second_text(data.update_datetime);
    let r12 = load;
    let r11 = comma_text() + r12;
    let r10 = update + r11;
    let r9 = comma_text() + r10;
    let r8 = text + r9;
    let r7 = comma_text() + r8;
    let r6 = code + r7;
    let r5 = comma_text() + r6;
    let r4 = data.quality_method + r5;
    let r3 = comma_text() + r4;
    let r2 = values + r3;
    let r1 = day + r2;
    let at1 = p + 4;
    let at2 = at1 + 8;
    let at3 = at2 + values.len();
    let at4 = at3 + 1;
    let at5 = at4 + data.quality_method.len();
    let at6 = at5 + 1;
    let at7 = at6 + code.len();
    let at8 = at7 + 1;
    let at9 = at8 + text.len();
    let at10 = at9 + 1;
    let at11 = at10 + 14;
    let at12 = at11 + 1;
    lemma_holds_at_split(s, p, tag_text(RecordTag::IntervalData), r1);
    lemma_holds_at_split(s, at1, day, r2);
    lemma_holds_at_split(s, at2, values, r3);
    lemma_holds_at_split(s, at3, comma_text(), r4);
    lemma_holds_at_split(s, at4, data.quality_method, r5);
    lemma_holds_at_split(s, at5, comma_text(), r6);
    lemma_holds_at_split(s, at6, code, r7);
    lemma_holds_at_split(s, at7, comma_text(), r8);
    lemma_holds_at_split(s, at8, text, r9);
    lemma_holds_at_split(s, at9, comma_text(), r10);
    lemma_holds_at_split(s, at10, update, r11);
    lemma_holds_at_split(s, at11, comma_text(), r12);
    lemma_reads_tag(s, p, RecordTag::IntervalData);
    lemma_reads_comma(s, at3);
    lemma_reads_comma(s, at5);
    lemma_reads_comma(s, at7);
    lemma_reads_comma(s, at9);
    lemma_reads_comma(s, at11);
    lemma_reads_date(s, at1, data.interval_date);
    lemma_reads_values(s, at2, data.interval_value, Seq::empty());
    assert(Seq::<u64>::empty() + data.interval_value =~= data.interval_value);
    lemma_reads_field(s, at4, data.quality_method, Charset::Alpha, 3);
    lemma_reads_optional_field(s, at6, data.reason_code, Charset::Digit, 3, COMMA);
    lemma_reads_optional_field(s, at8, data.reason_description, Charset::Alphanumeric, 240, COMMA);
    lemma_reads_second(s, at10, data.update_datetime);
    lemma_reads_optional_second(s, at12, data.msats_load_datetime);
}

/// A meter configuration that stands written at `p` and ends its line is
/// read there as it was written, with an empty block.
pub proof fn lemma_reads_configuration(s: Seq<u8>, p: int, details: NMIDataDetailsView)
    requires
        configuration_ok(details),
        details.interval_data_vec is None,
        details.b2b_details is None,
        holds_at(s, p, configuration_text(details)),
        line_end_at(s, p + configuration_text(details).len()) is Ok,
    ensures
        nmi_data_details_at(s, p) == Ok::<(int, NMIDataDetailsView), Fault>(
            (p + configuration_text(details).len(), details),
        ),
{
    reveal(nmi_data_details_at);
    reveal(configuration_text);
    let stream = opt_text(details.mdm_data_stream_id);
    let length = two(details.interval_length as int);
    let next_read = opt_date_text(details.next_scheduled_read_date);
    lemma_two(details.interval_length as int);
    let r17 = next_read;
    let r16 = comma_text() + r17;
    let r15 = length + r16;
    let r14 = comma_text() + r15;
    let r13 = details.uom + r14;
    let r12 = comma_text() + r13;
    let r11 = details.meter_serial_number + r12;
    let r10 = comma_text() + r11;
    let r9 = stream + r10;
    let r8 = comma_text() + r9;
    let r7 = details.nmi_suffix + r8;
    let r6 = comma_text() + r7;
    let r5 = details.register_id + r6;
    let r4 = comma_text() + r5;
    let r3 = details.nmi_configuration + r4;
    let r2 = comma_text() + r3;
    let r1 = details.nmi + r2;
    let at1 = p + 4;
    let at2 = at1 + details.nmi.len();
    let at3 = at2 + 1;
    let at4 = at3 + details.nmi_configuration.len();
    let at5 = at4 + 1;
    let at6 = at5 + details.register_id.len();
    let at7 = at6 + 1;
    let at8 = at7 + details.nmi_suffix.len();
    let at9 = at8 + 1;
    let at10 = at9 + stream.len();
    let at11 = at10 + 1;
    let at12 = at11 + details.meter_serial_number.len();
    let at13 = at12 + 1;
    let at14 = at13 + details.uom.len();
    let at15 = at14 + 1;
    let at16 = at15 + 2;
    let at17 = at16 + 1;
    lemma_holds_at_split(s, p, tag_text(RecordTag::NMIDataDetails), r1);
    lemma_holds_at_split(s, at1, details.nmi, r2);
    lemma_holds_at_split(s, at2, comma_text(), r3);
    lemma_holds_at_split(s, at3, details.nmi_configuration, r4);
    lemma_holds_at_split(s, at4, comma_text(), r5);
    lemma_holds_at_split(s, at5, details.register_id, r6);
    lemma_holds_at_split(s, at6, comma_text(), r7);
    lemma_holds_at_split(s, at7, details.nmi_suffix, r8);
    lemma_holds_at_split(s, at8, comma_text(), r9);
    lemma_holds_at_split(s, at9, stream, r10);
    lemma_holds_at_split(s, at10, comma_text(), r11);
    lemma_holds_at_split(s, at11, details.meter_serial_number, r12);
    lemma_holds_at_split(s, at12, comma_text(), r13);
    lemma_holds_at_split(s, at13, details.uom, r14);
    lemma_holds_at_split(s, at14, comma_text(), r15);
    lemma_holds_at_split(s, at15, length, r16);
    lemma_holds_at_split(s, at16, comma_text(), r17);
    lemma_reads_tag(s, p, RecordTag::NMIDataDetails);
    lemma_reads_comma(s, at2);
    lemma_reads_comma(s, at4);
    lemma_reads_comma(s, at6);
    lemma_reads_comma(s, at8);
    lemma_reads_comma(s, at10);
    lemma_reads_comma(s, at12);
    lemma_reads_comma(s, at14);
    lemma_reads_comma(s, at16);
    lemma_reads_field(s, at1, details.nmi, Charset::Alphanumeric, 10);
    lemma_reads_field(s, at3, details.nmi_configuration, Charset::Alphanumeric, 240);
    lemma_reads_field(s, at5, details.register_id, Charset::Alphanumeric, 10);
    lemma_reads_field(s, at7, details.nmi_suffix, Charset::Alphanumeric, 2);
    lemma_reads_optional_exact(s, at9, details.mdm_data_stream_id, Charset::Alphanumeric, 2, COMMA);
    lemma_reads_field(s, at11, details.meter_serial_number, Charset::Alphanumeric, 12);
    lemma_reads_field(s, at13, details.uom, Charset::Alphanumeric, 5);
    lemma_reads_two_digits(s, at15, details.interval_length);
    lemma_reads_optional_date(s, at17, details.next_scheduled_read_date);
}

/// Interval events that stand written at `p`, line by line, are read there
/// as they were written, where the lines end with the last of them and no
/// further event follows.
pub proof fn lemma_reads_events(
    s: Seq<u8>,
    p: int,
    events: Seq<IntervalEventView>,
    found: Seq<IntervalEventView>,
)
    requires
        forall|i: int| 0 <= i < events.len() ==> event_ok(#[trigger] events[i]),
        holds_at(s, p, events_text(events)),
        line_end_at(s, p + events_text(events).len()) is Ok,
        !record_follows(s, p + events_text(events).len(), RecordTag::IntervalEvent),
    ensures
        events_at(s, p, found) == Ok::<(int, Seq<IntervalEventView>), Fault>(
            (p + events_text(events).len(), found + events),
        ),
    decreases events.len(),
{
    if events.len() == 0 {
        assert(found + events =~= found);
    } else {
        let first = events[0];
        let rest = events.drop_first();
        lemma_event_text_starts(first);
        lemma_code_stays_in_front(event_text(first), events_text(rest), RecordTag::IntervalEvent);
        lemma_next_line(
            s,
            p,
            event_text(first) + events_text(rest),
            RecordTag::IntervalEvent,
        );
        lemma_holds_at_split(s, p + 1, event_text(first), events_text(rest));
        let next = p + 1 + event_text(first).len();
        if rest.len() > 0 {
            lemma_event_text_starts(rest[0]);
            lemma_code_stays_in_front(
                event_text(rest[0]),
                events_text(rest.drop_first()),
                RecordTag::IntervalEvent,
            );
            lemma_next_line(
                s,
                next,
                event_text(rest[0]) + events_text(rest.drop_first()),
                RecordTag::IntervalEvent,
            );
        }
        lemma_reads_event(s, p + 1, first);
        assert forall|i: int| 0 <= i < rest.len() implies event_ok(#[trigger] rest[i]) by {
            assert(rest[i] == events[i + 1]);
        }
        lemma_reads_events(s, next, rest, found.push(first));
        assert(found.push(first) + rest =~= found + events);
    }
}

/// Exchange records that stand written at `p`, line by line, are read there
/// as they were written, where the lines end with the last of them and no
/// further exchange record follows.
pub proof fn lemma_reads_exchanges(
    s: Seq<u8>,
    p: int,
    exchanges: Seq<B2BDetailsView>,
    found: Seq<B2BDetailsView>,
)
    requires
        forall|i: int| 0 <= i < exchanges.len() ==> exchange_ok(#[trigger] exchanges[i]),
        holds_at(s, p, exchanges_text(exchanges)),
        line_end_at(s, p + exchanges_text(exchanges).len()) is Ok,
        !record_follows(s, p + exchanges_text(exchanges).len(), RecordTag::B2BDetails),
    ensures
        exchanges_at(s, p, found) == Ok::<(int, Seq<B2BDetailsView>), Fault>(
            (p + exchanges_text(exchanges).len(), found + exchanges),
        ),
    decreases exchanges.len(),
{
    if exchanges.len() == 0 {
        assert(found + exchanges =~= found);
    } else {
        let first = exchanges[0];
        let rest = exchanges.drop_first();
        lemma_exchange_text_starts(first);
        lemma_code_stays_in_front(
            exchange_text(first),
            exchanges_text(rest),
            RecordTag::B2BDetails,
        );
        lemma_next_line(
            s,
            p,
            exchange_text(first) + exchanges_text(rest),
            RecordTag::B2BDetails,
        );
        lemma_holds_at_split(s, p + 1, exchange_text(first), exchanges_text(rest));
        let next = p + 1 + exchange_text(first).len();
        if rest.len() > 0 {
            lemma_exchange_text_starts(rest[0]);
            lemma_code_stays_in_front(
                exchange_text(rest[0]),
                exchanges_text(rest.drop_first()),
                RecordTag::B2BDetails,
            );
            lemma_next_line(
                s,
                next,
                exchange_text(rest[0]) + exchanges_text(rest.drop_first()),
                RecordTag::B2BDetails,
            );
        }
        lemma_reads_exchange(s, p + 1, first);
        assert forall|i: int| 0 <= i < rest.len() implies exchange_ok(#[trigger] rest[i]) by {
            assert(rest[i] == exchanges[i + 1]);
        }
        lemma_reads_exchanges(s, next, rest, found.push(first));
        assert(found.push(first) + rest =~= found + exchanges);
    }
}

/// An interval data record that stands written at `p` with its events is
/// read there as it was written, where the lines end with the last of them
/// and no further event follows.
pub proof fn lemma_reads_interval(s: Seq<u8>, p: int, data: IntervalDataView, count: nat)
    requires
        interval_ok(data, count),
        holds_at(s, p, interval_text(data)),
        line_end_at(s, p + interval_text(data).len()) is Ok,
        !record_follows(s, p + interval_text(data).len(), RecordTag::IntervalEvent),
    ensures
        interval_at(s, p, count) == Ok::<(int, IntervalDataView), Fault>(
            (p + interval_text(data).len(), data),
        ),
{
    let bare = IntervalDataView { interval_events: None, ..data };
    let events = listed(data.interval_events);
    assert(interval_data_text(bare) == interval_data_text(data)) by {
        reveal(interval_data_text);
    }
    lemma_holds_at_split(s, p, interval_data_text(data), events_text(events));
    let next = p + interval_data_text(data).len();
    if events.len() > 0 {
        lemma_event_text_starts(events[0]);
        lemma_code_stays_in_front(
            event_text(events[0]),
            events_text(events.drop_first()),
            RecordTag::IntervalEvent,
        );
        lemma_next_line(
            s,
            next,
            event_text(events[0]) + events_text(events.drop_first()),
            RecordTag::IntervalEvent,
        );
    }
    lemma_reads_interval_data(s, p, bare, count);
    lemma_reads_events(s, next, events, Seq::empty());
    assert(Seq::<IntervalEventView>::empty() + events =~= events);
}

/// Interval data records that stand written at `p` with their events are
/// read there as they were written, where the lines end with the last of
/// them and neither an event nor another interval data record follows.
pub proof fn lemma_reads_intervals(
    s: Seq<u8>,
    p: int,
    intervals: Seq<IntervalDataView>,
    count: nat,
    found: Seq<IntervalDataView>,
)
    requires
        forall|i: int| 0 <= i < intervals.len() ==> interval_ok(#[trigger] intervals[i], count),
        holds_at(s, p, intervals_text(intervals)),
        line_end_at(s, p + intervals_text(intervals).len()) is Ok,
        !record_follows(s, p + intervals_text(intervals).len(), RecordTag::IntervalEvent),
        !record_follows(s, p + intervals_text(intervals).len(), RecordTag::IntervalData),
    ensures
        intervals_at(s, p, count, found) == Ok::<(int, Seq<IntervalDataView>), Fault>(
            (p + intervals_text(intervals).len(), found + intervals),
        ),
    decreases intervals.len(),
{
    if intervals.len() == 0 {
        assert(found + intervals =~= found);
    } else {
        let first = intervals[0];
        let rest = intervals.drop_first();
        lemma_interval_text_starts(first);
        lemma_code_stays_in_front(
            interval_text(first),
            intervals_text(rest),
            RecordTag::IntervalData,
        );
        lemma_next_line(
            s,
            p,
            interval_text(first) + intervals_text(rest),
            RecordTag::IntervalData,
        );
        lemma_holds_at_split(s, p + 1, interval_text(first), intervals_text(rest));
        let next = p + 1 + interval_text(first).len();
        if rest.len() > 0 {
            lemma_interval_text_starts(rest[0]);
            lemma_code_stays_in_front(
                interval_text(rest[0]),
                intervals_text(rest.drop_first()),
                RecordTag::IntervalData,
            );
            lemma_next_line(
                s,
                next,
                interval_text(rest[0]) + intervals_text(rest.drop_first()),
                RecordTag::IntervalData,
            );
        }
        lemma_reads_interval(s, p + 1, first, count);
        assert forall|i: int| 0 <= i < rest.len() implies interval_ok(
            #[trigger] rest[i],
            count,
        ) by {
            assert(rest[i] == intervals[i + 1]);
        }
        lemma_reads_intervals(s, next, rest, count, found.push(first));
        assert(found.push(first) + rest =~= found + intervals);
    }
}

/// Whether the block that ends at `p` ends there: the line ends, and what
/// follows is neither interval data nor an event nor an exchange record.
pub open spec fn block_ends_at(s: Seq<u8>, p: int) -> bool {
    &&& line_end_at(s, p) is Ok
    &&& !record_follows(s, p, RecordTag::IntervalData)
    &&& !record_follows(s, p, RecordTag::IntervalEvent)
    &&& !record_follows(s, p, RecordTag::B2BDetails)
}

/// A meter block that stands written at `p` is read there as it was
/// written, where the block ends with its last line.
pub proof fn lemma_reads_block(s: Seq<u8>, p: int, block: NMIDataDetailsView)
    requires
        block_ok(block),
        holds_at(s, p, block_text(block)),
        block_ends_at(s, p + block_text(block).len()),
    ensures
        block_at(s, p) == Ok::<(int, NMIDataDetailsView), Fault>(
            (p + block_text(block).len(), block),
        ),
{
    let bare = NMIDataDetailsView { interval_data_vec: None, b2b_details: None, ..block };
    let intervals = listed(block.interval_data_vec);
    let exchanges = listed(block.b2b_details);
    let count = sample_count_of(block.interval_length)->Some_0;
    assert(configuration_text(bare) == configuration_text(block)) by {
        reveal(configuration_text);
    }
    lemma_holds_at_split(
        s,
        p,
        configuration_text(block),
        intervals_text(intervals) + exchanges_text(exchanges),
    );
    let first = p + configuration_text(block).len();
    lemma_holds_at_split(s, first, intervals_text(intervals), exchanges_text(exchanges));
    let middle = first + intervals_text(intervals).len();
    if exchanges.len() > 0 {
        lemma_exchange_text_starts(exchanges[0]);
        lemma_code_stays_in_front(
            exchange_text(exchanges[0]),
            exchanges_text(exchanges.drop_first()),
            RecordTag::B2BDetails,
        );
        lemma_next_line(
            s,
            middle,
            exchange_text(exchanges[0]) + exchanges_text(exchanges.drop_first()),
            RecordTag::B2BDetails,
        );
    }
    if intervals.len() > 0 {
        lemma_interval_text_starts(intervals[0]);
        lemma_code_stays_in_front(
            interval_text(intervals[0]),
            intervals_text(intervals.drop_first()),
            RecordTag::IntervalData,
        );
        lemma_next_line(
            s,
            first,
            interval_text(intervals[0]) + intervals_text(intervals.drop_first()),
            RecordTag::IntervalData,
        );
    }
    lemma_reads_configuration(s, p, bare);
    lemma_reads_intervals(s, first, intervals, count, Seq::empty());
    lemma_reads_exchanges(s, middle, exchanges, Seq::empty());
    assert(Seq::<IntervalDataView>::empty() + intervals =~= intervals);
    assert(Seq::<B2BDetailsView>::empty() + exchanges =~= exchanges);
}

/// Meter blocks that stand written at `p` are read there as they were
/// written, where the last block ends with its last line and no further
/// block follows.
pub proof fn lemma_reads_blocks(
    s: Seq<u8>,
    p: int,
    blocks: Seq<NMIDataDetailsView>,
    found: Seq<NMIDataDetailsView>,
)
    requires
        forall|i: int| 0 <= i < blocks.len() ==> block_ok(#[trigger] blocks[i]),
        holds_at(s, p, blocks_text(blocks)),
        block_ends_at(s, p + blocks_text(blocks).len()),
        !record_follows(s, p + blocks_text(blocks).len(), RecordTag::NMIDataDetails),
    ensures
        blocks_at(s, p, found) == Ok::<(int, Seq<NMIDataDetailsView>), Fault>(
            (p + blocks_text(blocks).len(), found + blocks),
        ),
    decreases blocks.len(),
{
    if blocks.len() == 0 {
        assert(found + blocks =~= found);
    } else {
        let first = blocks[0];
        let rest = blocks.drop_first();
        lemma_block_text_starts(first);
        lemma_code_stays_in_front(block_text(first), blocks_text(rest), RecordTag::NMIDataDetails);
        lemma_next_line(
            s,
            p,
            block_text(first) + blocks_text(rest),
            RecordTag::NMIDataDetails,
        );
        lemma_holds_at_split(s, p + 1, block_text(first), blocks_text(rest));
        let next = p + 1 + block_text(first).len();
        if rest.len() > 0 {
            lemma_block_text_starts(rest[0]);
            lemma_code_stays_in_front(
                block_text(rest[0]),
                blocks_text(rest.drop_first()),
                RecordTag::NMIDataDetails,
            );
            lemma_next_line(
                s,
                next,
                block_text(rest[0]) + blocks_text(rest.drop_first()),
                RecordTag::NMIDataDetails,
            );
        }
        lemma_reads_block(s, p + 1, first);
        assert forall|i: int| 0 <= i < rest.len() implies block_ok(#[trigger] rest[i]) by {
            assert(rest[i] == blocks[i + 1]);
        }
        lemma_reads_blocks(s, next, rest, found.push(first));
        assert(found.push(first) + rest =~= found + blocks);
    }
}

/// A document that keeps to the rules is read from its text as it was
/// written.
pub proof fn lemma_reads_document(document: NEM12View)
    requires
        document_ok(document),
    ensures
        document_of(document_text(document)) == Ok::<NEM12View, Fault>(document),
{
    let s = document_text(document);
    let blocks = document.nmi_data_details;
    let tail = newline_text() + end_text();
    let first = header_text(document.header).len() as int;
    let last = first + blocks_text(blocks).len();
    assert(holds_at(s, 0, s)) by {
        assert(s.subrange(0, s.len() as int) =~= s);
    }
    lemma_holds_at_split(s, 0, header_text(document.header), blocks_text(blocks) + tail);
    lemma_holds_at_split(s, first, blocks_text(blocks), tail);
    assert(s.len() == last + 4);
    assert(starts_with_code(end_text(), RecordTag::EndOfData));
    lemma_next_line(s, last, end_text(), RecordTag::EndOfData);
    assert(line_end_at(s, first) is Ok) by {
        if blocks.len() > 0 {
            lemma_block_text_starts(blocks[0]);
            lemma_code_stays_in_front(
                block_text(blocks[0]),
                blocks_text(blocks.drop_first()),
                RecordTag::NMIDataDetails,
            );
            lemma_next_line(
                s,
                first,
                block_text(blocks[0]) + blocks_text(blocks.drop_first()),
                RecordTag::NMIDataDetails,
            );
        }
    }
    assert(header_at(s, 0) == Ok::<(int, HeaderView), Fault>((first, document.header))) by {
        lemma_reads_header(s, 0, document.header);
    }
    assert(blocks_at(s, first, Seq::empty()) == Ok::<(int, Seq<NMIDataDetailsView>), Fault>(
        (last, blocks),
    )) by {
        assert(block_ends_at(s, last));
        lemma_reads_blocks(s, first, blocks, Seq::empty());
        assert(Seq::<NMIDataDetailsView>::empty() + blocks =~= blocks);
    }
    assert(end_of_data_at(s, last + 1) == Ok::<int, Fault>(last + 4)) by {
        lemma_holds_at_bytes(s, last + 1, end_text());
        assert(s[last + 1 + 0] == end_text()[0]);
        assert(s[last + 1 + 1] == end_text()[1]);
        assert(s[last + 1 + 2] == end_text()[2]);
        assert(has_code(s, last + 1, RecordTag::EndOfData));
        assert(run_len(s, last + 4, Charset::Blank) == 0);
    }
}

} // verus!
