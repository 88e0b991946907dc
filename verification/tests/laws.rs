use nem_parser::calendar::{Date, DateTime};
use nem_parser::charset::Charset;
use nem_parser::codes::{
    data_stream_suffix, method, quality, reason, transaction_code, uom, DataStreamSuffix,
    MethodMeta, UomMeta,
};
use nem_parser::common::{optional_field, section_of_exact_length, section_of_max_length, Token};
use nem_parser::error::{ErrorKind, ParseError};
use nem_parser::nem12::record::{
    B2BDetails, Header, IntervalData, IntervalEvent, Kind, NMIDataDetails,
};
use nem_parser::nem12::NEM12;

const ALNUM: Token = Token::Run(Charset::Alphanumeric);

fn lexical(offset: usize) -> ParseError {
    ParseError { kind: ErrorKind::Lexical, expected: None, offset }
}

fn configuration(nmi: &str) -> String {
    format!("200,{},E1Q1,1,E1,N1,METSER123,KWH,30,", nmi)
}

#[test]
fn an_identifier_of_ten_parses_and_of_nine_or_eleven_fails_at_the_field() {
    let ten = configuration("VABD000163");
    let parsed = NMIDataDetails::parse(ten.as_bytes(), 0).unwrap();
    assert_eq!(parsed.1.nmi, b"VABD000163");
    assert_eq!(parsed.0, ten.len());
    let nine = configuration("VABD00016");
    assert_eq!(NMIDataDetails::parse(nine.as_bytes(), 0), Err(lexical(4)));
    let eleven = configuration("VABD0001634");
    assert_eq!(NMIDataDetails::parse(eleven.as_bytes(), 0), Err(lexical(4)));
    let none = configuration("");
    assert_eq!(NMIDataDetails::parse(none.as_bytes(), 0), Err(lexical(4)));
    let broken = configuration("VABD-00163");
    assert_eq!(NMIDataDetails::parse(broken.as_bytes(), 0), Err(lexical(4)));
}

#[test]
fn identifiers_of_every_length_but_ten_fail() {
    for length in 0..40usize {
        let nmi = "A".repeat(length);
        let line = configuration(&nmi);
        let outcome = NMIDataDetails::parse(line.as_bytes(), 0);
        assert_eq!(outcome.is_ok(), length == 10, "{}", length);
        if length != 10 {
            assert_eq!(outcome, Err(lexical(4)));
        }
        let found = section_of_exact_length(line.as_bytes(), 4, ALNUM, 10);
        assert_eq!(found.is_ok(), length == 10);
    }
}

#[test]
fn an_optional_field_is_present_absent_or_a_failure() {
    let present = "200,VABD000163,E1Q1,1,E1,N1,METSER123,KWH,30,";
    assert_eq!(
        NMIDataDetails::parse(present.as_bytes(), 0).unwrap().1.mdm_data_stream_id,
        Some(&b"N1"[..])
    );
    let absent = "200,VABD000163,E1Q1,1,E1,,METSER123,KWH,30,";
    assert_eq!(NMIDataDetails::parse(absent.as_bytes(), 0).unwrap().1.mdm_data_stream_id, None);
    let long = "200,VABD000163,E1Q1,1,E1,N12,METSER123,KWH,30,";
    assert_eq!(NMIDataDetails::parse(long.as_bytes(), 0), Err(lexical(25)));
    let short = "200,VABD000163,E1Q1,1,E1,N,METSER123,KWH,30,";
    assert_eq!(NMIDataDetails::parse(short.as_bytes(), 0), Err(lexical(25)));
    let wrong = "200,VABD000163,E1Q1,1,E1,-,METSER123,KWH,30,";
    assert_eq!(NMIDataDetails::parse(wrong.as_bytes(), 0), Err(lexical(25)));
}

#[test]
fn optional_fields_of_every_record_take_the_empty_slot_as_absent() {
    let event = IntervalEvent::parse(b"400,1,20,F14,,", 0).unwrap().1;
    assert_eq!((event.reason_code, event.reason_description), (None, None));
    let event = IntervalEvent::parse(b"400,1,20,F14,76,Fault\n", 0).unwrap().1;
    assert_eq!(event.reason_code, Some(&b"76"[..]));
    assert_eq!(event.reason_description, Some(&b"Fault"[..]));
    assert_eq!(IntervalEvent::parse(b"400,1,20,F14,7654,", 0), Err(lexical(13)));
    assert_eq!(IntervalEvent::parse(b"400,1,20,F14,76,no good", 0).map(|r| r.0), Ok(18));
    assert_eq!(IntervalEvent::parse(b"400,1,20,F14,76,-", 0), Err(lexical(16)));
    let long = format!("400,1,20,F14,76,{}", "x".repeat(25));
    assert_eq!(IntervalEvent::parse(long.as_bytes(), 0), Err(lexical(16)));
    let data = IntervalData::parse(1, b"300,20040201,1.5,A,12,Wet,20040202120025,", 0).unwrap().1;
    assert_eq!(data.reason_code, Some(&b"12"[..]));
    assert_eq!(data.reason_description, Some(&b"Wet"[..]));
    assert_eq!(data.msats_load_datetime, None);
    let data = IntervalData::parse(1, b"300,20040201,1.5,A,,,20040202120025,\n", 0).unwrap();
    assert_eq!(data.0, 36);
    assert_eq!((data.1.reason_code, data.1.reason_description), (None, None));
    assert_eq!(
        IntervalData::parse(1, b"300,20040201,1.5,A,,,20040202120025,2004020212", 0),
        Err(lexical(36))
    );
    assert_eq!(
        IntervalData::parse(1, b"300,20040201,1.5,A,,,20040202120025,20041302120025", 0),
        Err(ParseError { kind: ErrorKind::Temporal, expected: None, offset: 36 })
    );
}

#[test]
fn an_optional_field_never_hides_a_failure() {
    for slot in ["", "7", "76", "765", "7654", "x", "7x", " ", "-1"] {
        let line = format!("{},rest", slot);
        let raw = line.as_bytes();
        let digits = Token::Run(Charset::Digit);
        let inner = section_of_max_length(raw, 0, digits, 3);
        let outcome = optional_field(inner, raw, 0, b',');
        let run = slot.bytes().take_while(|b| b.is_ascii_digit()).count();
        if (1..=3).contains(&run) {
            assert_eq!(outcome, Ok((run, Some(&raw[..run]))), "{:?}", slot);
        } else if slot.is_empty() {
            assert_eq!(outcome, Ok((0, None)));
        } else {
            assert_eq!(outcome, Err(lexical(0)), "{:?}", slot);
        }
    }
}

fn write_date(date: Date) -> String {
    format!("{:04}{:02}{:02}", date.year, date.month, date.day)
}

fn write_minute(time: DateTime) -> String {
    format!("{}{:02}{:02}", write_date(time.date), time.hour, time.minute)
}

fn write_second(time: DateTime) -> String {
    let second = if time.nanosecond == 0 { time.second } else { 60 };
    format!("{}{:02}", write_minute(time), second)
}

fn text(bytes: &[u8]) -> &str {
    std::str::from_utf8(bytes).unwrap()
}

fn optional(bytes: Option<&[u8]>) -> &str {
    bytes.map(text).unwrap_or("")
}

fn write_document(document: &NEM12) -> String {
    let header = &document.header;
    let mut lines = vec![format!(
        "100,{},{},{},{}",
        text(header.format),
        write_minute(header.created),
        text(header.from_participant),
        text(header.to_participant)
    )];
    for block in &document.nmi_data_details {
        lines.push(format!(
            "200,{},{},{},{},{},{},{},{:02},{}",
            text(block.nmi),
            text(block.nmi_configuration),
            text(block.register_id),
            text(block.nmi_suffix),
            optional(block.mdm_data_stream_id),
            text(block.meter_serial_number),
            text(block.uom),
            block.interval_length,
            block.next_scheduled_read_date.map(write_date).unwrap_or_default()
        ));
        for data in block.interval_data_vec.iter().flatten() {
            let mut line = format!("300,{}", write_date(data.interval_date));
            for bits in &data.interval_value {
                line.push_str(&format!(",{:?}", f64::from_bits(*bits)));
            }
            line.push_str(&format!(
                ",{},{},{},{},{}",
                text(data.quality_method),
                optional(data.reason_code),
                optional(data.reason_description),
                write_second(data.update_datetime),
                data.msats_load_datetime.map(write_second).unwrap_or_default()
            ));
            lines.push(line);
            for event in data.interval_events.iter().flatten() {
                lines.push(format!(
                    "400,{},{},{},{},{}",
                    text(event.start_interval),
                    text(event.end_interval),
                    text(event.quality_method),
                    optional(event.reason_code),
                    optional(event.reason_description)
                ));
            }
        }
        for exchange in block.b2b_details.iter().flatten() {
            lines.push(format!(
                "500,{},{},{},{}",
                text(exchange.trans_code),
                text(exchange.ret_service_order),
                write_second(exchange.read_datetime),
                text(exchange.index_read)
            ));
        }
    }
    lines.push("900".to_string());
    lines.join("\n")
}

fn day(date: &str, values: &[&str], tail: &str) -> String {
    let mut line = format!("300,{}", date);
    for value in values {
        line.push(',');
        line.push_str(value);
    }
    line.push_str(tail);
    line
}

fn samples() -> Vec<String> {
    let plain = day("20040417", &["18.023"; 48], ",V,,,20040418203500,20040419003500");
    let odd = day(
        "20040229",
        &[
            "0", "-0", "1e3", "1E-2", "+4.5", ".5", "5.", "001.500", "123456789012345678", "0.1",
            "1e308", "4.9e-324", "inf", "nan", "1", "2", "3", "4", "5", "6", "7", "8", "9", "10",
        ],
        ",E,99,Storm,20040418235960,",
    );
    vec![
        "100,NEM12,200404201300,MDA1,Ret1\n900\n".to_string(),
        format!(
            "100,NEM13,000001010000,A,B\n\n200,CCCC123456,E1,001,E1,N1,METSER123,kWh,30,\n{}\n400,1,20,F14,76,\n400,21,24,A,,Note\n\n\n500,S,RETNSRVCEORD1,20031220154500,001123.5\n200,CCCC123456,E1,002,B1,,M,W,60,99991231\n{}\n900 \n\n",
            plain, odd
        ),
    ]
}

#[test]
fn parsing_what_was_written_gives_the_document_back() {
    for sample in samples() {
        let document = NEM12::from_str(sample.as_bytes()).unwrap();
        let written = write_document(&document);
        let again = NEM12::from_str(written.as_bytes()).unwrap();
        assert_eq!(again, document);
        assert_eq!(write_document(&again), written);
    }
}

#[test]
fn documents_are_equal_whatever_the_case_of_a_unit_of_measure() {
    let lower = "100,NEM12,200404201300,MDA1,Ret1\n200,CCCC123456,E1,001,E1,N1,METSER123,kwh,30,\n900";
    let upper = lower.replace("kwh", "KWh");
    let other = lower.replace("kwh", "kvh");
    let a = NEM12::from_str(lower.as_bytes()).unwrap();
    let b = NEM12::from_str(upper.as_bytes()).unwrap();
    let c = NEM12::from_str(other.as_bytes()).unwrap();
    assert_eq!(a, b);
    assert_ne!(a, c);
    assert_ne!(a.nmi_data_details[0].uom, b.nmi_data_details[0].uom);
    let mixed = lower.replace("MDA1", "mda1");
    assert_ne!(NEM12::from_str(mixed.as_bytes()).unwrap(), a);
    let suffix = lower.replace(",E1,N1", ",e1,N1");
    assert_ne!(NEM12::from_str(suffix.as_bytes()).unwrap(), a);
}

#[test]
fn records_are_equal_field_for_field() {
    let date = DateTime {
        date: Date { year: 2004, month: 5, day: 1 },
        hour: 11,
        minute: 35,
        second: 0,
        nanosecond: 0,
    };
    let header = Header::new(b"NEM12", date, b"MDA1", b"Ret1");
    assert_eq!(header, Header::new(b"NEM12", date, b"MDA1", b"Ret1"));
    assert_ne!(header, Header::new(b"NEM13", date, b"MDA1", b"Ret1"));
    assert_ne!(header, Header::new(b"NEM12", date, b"MDA2", b"Ret1"));
    assert_ne!(header, Header::new(b"NEM12", date, b"MDA1", b"Ret"));
    assert_ne!(header, Header::new(b"NEM12", DateTime { minute: 36, ..date }, b"MDA1", b"Ret1"));
    let exchange = B2BDetails {
        trans_code: b"S",
        ret_service_order: b"ORDER",
        read_datetime: date,
        index_read: b"1.5",
    };
    assert_eq!(exchange, exchange);
    assert_ne!(exchange, B2BDetails { index_read: b"1.50", ..exchange });
    assert_ne!(Kind::Header(header), Kind::B2BDetails(exchange));
    assert_eq!(Kind::B2BDetails(exchange), Kind::B2BDetails(exchange));
    let data = IntervalData::parse(2, b"300,20040201,1.5,2.5,A,,,20040202120025,", 0).unwrap().1;
    let same = IntervalData::parse(2, b"300,20040201,1.50,25e-1,A,,,20040202120025,", 0).unwrap().1;
    let other = IntervalData::parse(2, b"300,20040201,1.5,2.6,A,,,20040202120025,", 0).unwrap().1;
    assert_eq!(data, same);
    assert_ne!(data, other);
    let mut with_events = data.clone();
    with_events.interval_events = Some(vec![IntervalEvent::parse(b"400,1,2,A,,", 0).unwrap().1]);
    assert_ne!(data, with_events);
    assert_eq!(with_events, with_events.clone());
}

#[test]
fn dates_are_valid_exactly_when_the_calendar_has_them() {
    for year in [-1i32, 0, 1, 1900, 2000, 2003, 2004, 2100, 9999, 10000] {
        for month in 0..=13u32 {
            for day in 0..=32u32 {
                let date = Date { year, month, day };
                let expected = (0..=9999).contains(&year)
                    && chrono::NaiveDate::from_ymd_opt(year, month, day).is_some();
                assert_eq!(date.validate(), expected, "{:?}", date);
                if (0..=9999).contains(&year) && month <= 99 && day <= 99 {
                    let text = format!("{:04}{:02}{:02}", year, month, day);
                    let parsed = nem_parser::common::date_8(text.as_bytes(), 0);
                    assert_eq!(parsed.is_ok(), date.validate(), "{}", text);
                    if let Ok((_, found)) = parsed {
                        assert_eq!(found, date);
                    }
                }
            }
        }
    }
}

#[test]
fn times_are_valid_in_the_form_that_decoding_gives() {
    let date = Date { year: 2004, month: 2, day: 29 };
    let time = DateTime { date, hour: 23, minute: 59, second: 59, nanosecond: 0 };
    assert!(time.validate());
    assert!(DateTime { nanosecond: 1_000_000_000, ..time }.validate());
    assert!(!DateTime { nanosecond: 1, ..time }.validate());
    assert!(!DateTime { second: 58, nanosecond: 1_000_000_000, ..time }.validate());
    assert!(!DateTime { hour: 24, ..time }.validate());
    assert!(!DateTime { minute: 60, ..time }.validate());
    assert!(!DateTime { second: 60, ..time }.validate());
    assert!(!DateTime { date: Date { day: 30, ..date }, ..time }.validate());
    for hour in [0u32, 12, 23, 24] {
        for minute in [0u32, 59, 60] {
            for second in [0u32, 59, 60, 61] {
                let text = format!("20040229{:02}{:02}{:02}", hour, minute, second);
                let parsed = nem_parser::common::datetime_14(text.as_bytes(), 0);
                assert_eq!(parsed.is_ok(), hour <= 23 && minute <= 59 && second <= 60);
                if let Ok((_, found)) = parsed {
                    assert!(found.validate());
                    assert_eq!(write_second(found), text);
                }
            }
        }
    }
}

#[test]
fn the_tables_hold_the_codes_of_the_format() {
    assert_eq!(transaction_code(b'A'), Some("Alteration"));
    assert_eq!(transaction_code(b'S'), Some("Special Read"));
    assert_eq!(transaction_code(b'R'), Some("Removal of Meter"));
    assert_eq!(transaction_code(b'Z'), None);
    assert_eq!(transaction_code(b'a'), None);
    assert_eq!(quality(b'A'), Some("Actual Data"));
    assert_eq!(quality(b'V'), Some("Variable Data"));
    assert_eq!(quality(b'X'), None);
    assert_eq!(reason(0), Some("Free Text Description"));
    assert_eq!(reason(4), Some("Savage Dog"));
    assert_eq!(reason(76), Some("Communications Fault"));
    assert_eq!(reason(99), Some("Energy Type (Register Changed)"));
    assert_eq!(reason(100), None);
    assert_eq!((0..=255u8).filter(|code| reason(*code).is_some()).count(), 100);
    assert_eq!((0..=255u8).filter(|code| transaction_code(*code).is_some()).count(), 9);
    assert_eq!((0..=255u8).filter(|code| quality(*code).is_some()).count(), 6);
    assert_eq!((0..=255u8).filter(|code| method(*code).is_some()).count(), 30);
    assert_eq!((0..=255u8).filter(|code| data_stream_suffix(*code).is_some()).count(), 22);
}

#[test]
fn the_tables_describe_methods_streams_and_units() {
    assert_eq!(
        method(14),
        Some(MethodMeta {
            estimate: false,
            substitute: true,
            first_installation_type: 1,
            last_installation_type: 4,
            short_descriptor: "Like Day",
            description: "",
        })
    );
    assert_eq!(
        method(51),
        Some(MethodMeta {
            estimate: true,
            substitute: true,
            first_installation_type: 5,
            last_installation_type: 5,
            short_descriptor: "Previous Year",
            description: "",
        })
    );
    let existing = method(75).unwrap();
    assert_eq!((existing.estimate, existing.substitute), (true, false));
    assert_eq!(existing.first_installation_type, 7);
    assert_eq!(method(10), None);
    assert_eq!(method(76), None);
    assert_eq!(
        data_stream_suffix(b'E'),
        Some(DataStreamSuffix { stream: "Master", description: "Export", units: "kWh" })
    );
    assert_eq!(
        data_stream_suffix(b'S'),
        Some(DataStreamSuffix { stream: "Average", description: "", units: "kVAh" })
    );
    assert_eq!(data_stream_suffix(b'e'), None);
    assert_eq!(data_stream_suffix(b'N'), None);
    assert_eq!(uom(b"kWh"), Some(UomMeta { name: "Kilowatt Hour", multiplier: 1000 }));
    assert_eq!(uom(b"KWH"), Some(UomMeta { name: "Kilowatt Hour", multiplier: 1000 }));
    assert_eq!(uom(b"MWh"), Some(UomMeta { name: "Megawatt Hour", multiplier: 1_000_000 }));
    assert_eq!(uom(b"Wh"), Some(UomMeta { name: "Watt Hour", multiplier: 1 }));
    assert_eq!(uom(b"VArh"), Some(UomMeta { name: "Volt Ampere Reactive Hour", multiplier: 1 }));
    assert_eq!(uom(b"pf"), Some(UomMeta { name: "Power Factor", multiplier: 1 }));
    assert_eq!(uom(b"a"), Some(UomMeta { name: "Ampere", multiplier: 1 }));
    assert_eq!(uom(b""), None);
    assert_eq!(uom(b"kWhh"), None);
    assert_eq!(uom(b"J"), None);
}
