use nem_parser::calendar::{Date, DateTime};
use nem_parser::error::{ErrorKind, Failure, ParseError, RecordTag};
use nem_parser::nem12::record::{B2BDetails, IntervalData, NMIDataDetails};
use nem_parser::nem12::{parse_interval_data, parse_nmi_data_details, sample_count, NEM12};

const HEADER: &str = "100,NEM12,200402070911,MDA1,Ret1";

fn day(date: &str, value: &str, count: usize, tail: &str) -> String {
    let mut line = format!("300,{}", date);
    for _ in 0..count {
        line.push(',');
        line.push_str(value);
    }
    line.push_str(tail);
    line
}

fn text(lines: &[&str]) -> String {
    lines.join("\n")
}

fn failure(line: usize, kind: ErrorKind, expected: Option<RecordTag>, offset: usize) -> Failure {
    Failure { line, error: ParseError { kind, expected, offset } }
}

fn readings(data: &IntervalData) -> Vec<f64> {
    data.interval_value.iter().map(|bits| f64::from_bits(*bits)).collect()
}

#[test]
fn one_block_with_two_days_and_no_exchange_records() {
    let first = day("20031204", "10", 96, ",A,,,20031206011132,20031207011022");
    let second = day("20031205", "10.5", 96, ",A,,,20031206011132,");
    let raw = text(&[
        HEADER,
        "200,NCDE001111,E1B1Q1E2,1,E1,N1,METSER123,Wh,15,",
        &first,
        &second,
        "900",
    ]);
    let parsed = NEM12::from_str(raw.as_bytes()).unwrap();
    assert_eq!(parsed.header.format, b"NEM12");
    assert_eq!(parsed.header.from_participant, b"MDA1");
    assert_eq!(parsed.header.to_participant, b"Ret1");
    assert_eq!(parsed.nmi_data_details.len(), 1);
    let block = &parsed.nmi_data_details[0];
    assert_eq!(block.interval_length, 15);
    assert_eq!(block.b2b_details, None);
    let days = block.interval_data_vec.as_ref().unwrap();
    assert_eq!(days.len(), 2);
    assert_eq!(readings(&days[0]), vec![10.0; 96]);
    assert_eq!(readings(&days[1]), vec![10.5; 96]);
    assert_eq!(days[0].interval_date, Date { year: 2003, month: 12, day: 4 });
    assert_eq!(days[1].msats_load_datetime, None);
    assert_eq!(days[0].interval_events, None);
}

#[test]
fn events_attach_in_order_to_the_day_before_them() {
    let first = day("20040417", "18.023", 48, ",V,,,20040418203500,20040419003500");
    let raw = text(&[
        "100,NEM12,200404201300,MDA1,Ret1",
        "200,CCCC123456,E1,001,E1,N1,METSER123,kWh,30,",
        &first,
        "400,1,20,F14,76,",
        "400,21,24,A,,",
        "400,25,48,S14,1,",
        "900",
        "",
    ]);
    let parsed = NEM12::from_str(raw.as_bytes()).unwrap();
    let days = parsed.nmi_data_details[0].interval_data_vec.as_ref().unwrap();
    assert_eq!(days.len(), 1);
    let events = days[0].interval_events.as_ref().unwrap();
    let slots: Vec<(&[u8], &[u8])> =
        events.iter().map(|e| (e.start_interval, e.end_interval)).collect();
    let expected: Vec<(&[u8], &[u8])> = vec![(b"1", b"20"), (b"21", b"24"), (b"25", b"48")];
    assert_eq!(slots, expected);
    assert_eq!(events[0].reason_code, Some(&b"76"[..]));
    assert_eq!(events[1].reason_code, None);
    assert_eq!(events[2].quality_method, b"S14");
}

#[test]
fn events_attach_to_their_own_day_only() {
    let first = day("20040417", "1", 48, ",V,,,20040418203500,");
    let second = day("20040418", "2", 48, ",A,,,20040418203500,");
    let raw = text(&[
        "200,CCCC123456,E1,001,E1,N1,METSER123,kWh,30,",
        &first,
        "400,1,48,F14,76,",
        &second,
    ]);
    let (next, block) = parse_nmi_data_details(raw.as_bytes(), 0).unwrap();
    assert_eq!(next, raw.len());
    let days = block.interval_data_vec.unwrap();
    assert_eq!(days[0].interval_events.as_ref().map(|e| e.len()), Some(1));
    assert_eq!(days[1].interval_events, None);
}

#[test]
fn two_blocks_of_one_meter_keep_their_own_sample_counts() {
    let quarter = day("20031204", "10", 96, ",A,,,20031206011132,20031207011022");
    let half = day("20031204", "50", 48, ",A,,,20031206011155,");
    let raw = text(&[
        HEADER,
        "200,NCDE001111,E1B1Q1E2,1,E1,N1,METSER123,Wh,15,",
        &quarter,
        "200,NCDE001111,E1B1Q1E2,3,Q1,,METSER123,VArh,30,",
        &half,
        "900",
    ]);
    let parsed = NEM12::from_str(raw.as_bytes()).unwrap();
    assert_eq!(parsed.nmi_data_details.len(), 2);
    let first = &parsed.nmi_data_details[0];
    let second = &parsed.nmi_data_details[1];
    assert_eq!(first.nmi, b"NCDE001111");
    assert_eq!(second.nmi, b"NCDE001111");
    assert_eq!(first.nmi_suffix, b"E1");
    assert_eq!(second.nmi_suffix, b"Q1");
    assert_eq!(first.mdm_data_stream_id, Some(&b"N1"[..]));
    assert_eq!(second.mdm_data_stream_id, None);
    assert_eq!(first.interval_data_vec.as_ref().unwrap()[0].interval_value.len(), 96);
    assert_eq!(second.interval_data_vec.as_ref().unwrap()[0].interval_value.len(), 48);
}

#[test]
fn missing_end_marker_without_a_last_line_feed() {
    let first = day("20031204", "10", 96, ",A,,,20031206011132,20031207011022");
    let raw = text(&[HEADER, "200,NCDE001111,E1B1Q1E2,1,E1,N1,METSER123,Wh,15,", &first]);
    assert_eq!(
        NEM12::from_str(raw.as_bytes()),
        Err(failure(3, ErrorKind::Structure, Some(RecordTag::EndOfData), raw.len()))
    );
    let raw = format!("{}\n\n", raw);
    assert_eq!(
        NEM12::from_str(raw.as_bytes()),
        Err(failure(5, ErrorKind::Structure, Some(RecordTag::EndOfData), raw.len()))
    );
}

#[test]
fn a_header_and_the_end_marker_make_a_document() {
    let raw = text(&[HEADER, "900"]);
    let parsed = NEM12::from_str(raw.as_bytes()).unwrap();
    assert_eq!(parsed.nmi_data_details.len(), 0);
    assert_eq!(
        parsed.header.created,
        DateTime {
            date: Date { year: 2004, month: 2, day: 7 },
            hour: 9,
            minute: 11,
            second: 0,
            nanosecond: 0
        }
    );
}

#[test]
fn the_second_format_tag_is_accepted() {
    let raw = text(&["100,NEM13,200402070911,MDA1,Ret1", "900"]);
    assert_eq!(NEM12::from_str(raw.as_bytes()).unwrap().header.format, b"NEM13");
    let raw = text(&["100,NEM14,200402070911,MDA1,Ret1", "900"]);
    assert_eq!(NEM12::from_str(raw.as_bytes()), Err(failure(1, ErrorKind::Lexical, None, 4)));
}

#[test]
fn blank_lines_between_records_and_blanks_at_the_end() {
    let first = day("20031204", "10", 96, ",A,,,20031206011132,20031207011022");
    let raw = text(&[
        HEADER,
        "",
        "200,NCDE001111,E1B1Q1E2,1,E1,N1,METSER123,Wh,15,",
        "",
        "",
        &first,
        "",
        "900",
        "  \t",
        "",
    ]);
    let parsed = NEM12::from_str(raw.as_bytes()).unwrap();
    assert_eq!(parsed.nmi_data_details[0].interval_data_vec.as_ref().map(|d| d.len()), Some(1));
}

#[test]
fn exchange_records_trail_their_block() {
    let first = day("20031204", "10", 96, ",A,,,20031206011132,20031207011022");
    let raw = text(&[
        HEADER,
        "200,NCDE001111,E1B1Q1E2,1,E1,N1,METSER123,Wh,15,20040101",
        &first,
        "500,S,RETNSRVCEORD1,20031220154500,001123.5",
        "500,N,ORDER2,20031221154500,42",
        "200,NCDE001111,E1B1Q1E2,2,B1,N1,METSER123,Wh,15,",
        "500,O,ORDER3,20031222154500,7",
        "900",
    ]);
    let parsed = NEM12::from_str(raw.as_bytes()).unwrap();
    let first = &parsed.nmi_data_details[0];
    assert_eq!(first.next_scheduled_read_date, Some(Date { year: 2004, month: 1, day: 1 }));
    let trailing: &Vec<B2BDetails> = first.b2b_details.as_ref().unwrap();
    assert_eq!(trailing.len(), 2);
    assert_eq!(trailing[0].trans_code, b"S");
    assert_eq!(trailing[0].index_read, b"001123.5");
    assert_eq!(trailing[1].ret_service_order, b"ORDER2");
    let second = &parsed.nmi_data_details[1];
    assert_eq!(second.interval_data_vec, None);
    assert_eq!(second.b2b_details.as_ref().map(|b| b.len()), Some(1));
}

#[test]
fn a_record_out_of_place_is_a_structural_failure() {
    let raw = text(&["200,NCDE001111,E1B1Q1E2,1,E1,N1,METSER123,Wh,15,", "900"]);
    assert_eq!(
        NEM12::from_str(raw.as_bytes()),
        Err(failure(1, ErrorKind::Structure, Some(RecordTag::Header), 0))
    );
    let raw = text(&[HEADER, "500,S,RETNSRVCEORD1,20031220154500,001123.5", "900"]);
    assert_eq!(
        NEM12::from_str(raw.as_bytes()),
        Err(failure(2, ErrorKind::Structure, Some(RecordTag::EndOfData), HEADER.len() + 1))
    );
    let raw = text(&[HEADER, "400,1,20,F14,76,", "900"]);
    assert_eq!(
        NEM12::from_str(raw.as_bytes()),
        Err(failure(2, ErrorKind::Structure, Some(RecordTag::EndOfData), HEADER.len() + 1))
    );
    let raw = text(&[HEADER, "250,what", "900"]);
    assert_eq!(
        NEM12::from_str(raw.as_bytes()),
        Err(failure(2, ErrorKind::Structure, Some(RecordTag::EndOfData), HEADER.len() + 1))
    );
    assert_eq!(
        NEM12::from_str(b""),
        Err(failure(1, ErrorKind::Structure, Some(RecordTag::Header), 0))
    );
}

#[test]
fn two_end_markers_are_a_structural_failure() {
    let raw = text(&[HEADER, "900", "900"]);
    assert_eq!(
        NEM12::from_str(raw.as_bytes()),
        Err(failure(3, ErrorKind::Structure, None, HEADER.len() + 5))
    );
    let raw = text(&[HEADER, "9000"]);
    assert_eq!(
        NEM12::from_str(raw.as_bytes()),
        Err(failure(2, ErrorKind::Structure, None, HEADER.len() + 4))
    );
}

#[test]
fn days_after_exchange_records_do_not_belong_to_the_block() {
    let first = day("20031204", "10", 96, ",A,,,20031206011132,20031207011022");
    let raw = text(&[
        HEADER,
        "200,NCDE001111,E1B1Q1E2,1,E1,N1,METSER123,Wh,15,",
        "500,S,RETNSRVCEORD1,20031220154500,001123.5",
        &first,
        "900",
    ]);
    let offset = raw.find("300,").unwrap();
    assert_eq!(
        NEM12::from_str(raw.as_bytes()),
        Err(failure(4, ErrorKind::Structure, Some(RecordTag::EndOfData), offset))
    );
}

#[test]
fn text_behind_a_record_is_a_lexical_failure() {
    let raw = text(&["100,NEM12,200402070911,MDA1,Ret1;", "900"]);
    assert_eq!(
        NEM12::from_str(raw.as_bytes()),
        Err(failure(1, ErrorKind::Lexical, None, HEADER.len()))
    );
    let raw = text(&[HEADER, "200,NCDE001111,E1B1Q1E2,1,E1,N1,METSER123,Wh,15,x", "900"]);
    assert_eq!(
        NEM12::from_str(raw.as_bytes()),
        Err(failure(2, ErrorKind::Lexical, None, raw.find(",x").unwrap() + 1))
    );
    let raw = text(&[HEADER, "200,NCDE001111,E1B1Q1E2,1,E1,N1,METSER123,Wh,15,\r", "900"]);
    assert_eq!(
        NEM12::from_str(raw.as_bytes()),
        Err(failure(2, ErrorKind::Lexical, None, raw.find('\r').unwrap()))
    );
}

#[test]
fn a_date_that_does_not_exist_is_a_temporal_failure() {
    let raw = text(&["100,NEM12,200413070911,MDA1,Ret1", "900"]);
    assert_eq!(NEM12::from_str(raw.as_bytes()), Err(failure(1, ErrorKind::Temporal, None, 10)));
    let first = day("20030229", "10", 96, ",A,,,20031206011132,20031207011022");
    let raw = text(&[HEADER, "200,NCDE001111,E1B1Q1E2,1,E1,N1,METSER123,Wh,15,", &first, "900"]);
    assert_eq!(
        NEM12::from_str(raw.as_bytes()),
        Err(failure(3, ErrorKind::Temporal, None, raw.find("20030229").unwrap()))
    );
    let first = day("20031204", "10", 96, ",A,,,20031206011132,20031207011099");
    let raw = text(&[HEADER, "200,NCDE001111,E1B1Q1E2,1,E1,N1,METSER123,Wh,15,", &first, "900"]);
    assert_eq!(
        NEM12::from_str(raw.as_bytes()),
        Err(failure(3, ErrorKind::Temporal, None, raw.find("20031207011099").unwrap()))
    );
    let raw = text(&[HEADER, "200,NCDE001111,E1B1Q1E2,1,E1,N1,METSER123,Wh,15,20041301", "900"]);
    assert_eq!(
        NEM12::from_str(raw.as_bytes()),
        Err(failure(2, ErrorKind::Temporal, None, raw.find("20041301").unwrap()))
    );
}

#[test]
fn a_wrong_number_of_readings_is_an_arity_failure() {
    let config = "200,NCDE001111,E1B1Q1E2,1,E1,N1,METSER123,Wh,15,";
    let short = day("20031204", "10", 95, ",A,,,20031206011132,20031207011022");
    let raw = text(&[HEADER, config, &short, "900"]);
    assert_eq!(
        NEM12::from_str(raw.as_bytes()),
        Err(failure(3, ErrorKind::Arity, None, raw.find(",A,").unwrap() + 1))
    );
    let long = day("20031204", "10", 97, ",A,,,20031206011132,20031207011022");
    let raw = text(&[HEADER, config, &long, "900"]);
    assert_eq!(
        NEM12::from_str(raw.as_bytes()),
        Err(failure(3, ErrorKind::Arity, None, raw.find(",A,").unwrap() - 2))
    );
    let cut = day("20031204", "10", 3, "");
    let raw = text(&[HEADER, config, &cut, "900"]);
    assert_eq!(
        NEM12::from_str(raw.as_bytes()),
        Err(failure(3, ErrorKind::Arity, None, raw.find("\n900").unwrap()))
    );
    let garbled = day("20031204", "1.2.3", 96, ",A,,,20031206011132,20031207011022");
    let raw = text(&[HEADER, config, &garbled, "900"]);
    assert_eq!(
        NEM12::from_str(raw.as_bytes()),
        Err(failure(3, ErrorKind::Arity, None, raw.find("1.2.3").unwrap()))
    );
}

#[test]
fn a_missing_quality_method_is_a_lexical_failure() {
    let config = "200,NCDE001111,E1B1Q1E2,1,E1,N1,METSER123,Wh,15,";
    let bare = day("20031204", "10", 96, ",,,,20031206011132,20031207011022");
    let raw = text(&[HEADER, config, &bare, "900"]);
    assert_eq!(
        NEM12::from_str(raw.as_bytes()),
        Err(failure(3, ErrorKind::Lexical, None, raw.find(",,,,").unwrap() + 1))
    );
    let long = day("20031204", "10", 96, ",ABCD,,,20031206011132,20031207011022");
    let raw = text(&[HEADER, config, &long, "900"]);
    assert_eq!(
        NEM12::from_str(raw.as_bytes()),
        Err(failure(3, ErrorKind::Lexical, None, raw.find("ABCD").unwrap()))
    );
}

#[test]
fn an_interval_length_that_does_not_divide_the_day_fails_the_block() {
    for length in ["07", "11", "13", "50", "99", "00"] {
        let config = format!("200,NCDE001111,E1B1Q1E2,1,E1,N1,METSER123,Wh,{},", length);
        let first = day("20031204", "10", 96, ",A,,,20031206011132,20031207011022");
        let raw = text(&[HEADER, &config, &first, "900"]);
        assert_eq!(
            NEM12::from_str(raw.as_bytes()),
            Err(failure(2, ErrorKind::Divisibility, None, HEADER.len() + 1)),
            "{}",
            length
        );
        let raw = text(&[&config, "300,not even a record"]);
        assert_eq!(
            parse_nmi_data_details(raw.as_bytes(), 0),
            Err(ParseError { kind: ErrorKind::Divisibility, expected: None, offset: 0 })
        );
        assert!(NMIDataDetails::parse(raw.as_bytes(), 0).is_ok());
    }
}

#[test]
fn sample_count_is_the_day_divided_by_the_length() {
    assert_eq!(sample_count(15), Some(96));
    assert_eq!(sample_count(30), Some(48));
    assert_eq!(sample_count(5), Some(288));
    assert_eq!(sample_count(1), Some(1440));
    assert_eq!(sample_count(60), Some(24));
    assert_eq!(sample_count(96), Some(15));
    assert_eq!(sample_count(1440), Some(1));
    assert_eq!(sample_count(0), None);
    assert_eq!(sample_count(7), None);
    assert_eq!(sample_count(50), None);
    assert_eq!(sample_count(2880), None);
    let mut divisors = 0;
    for length in 1..100 {
        match sample_count(length) {
            Some(count) => {
                assert_eq!(count * length, 1440);
                divisors += 1;
            }
            None => assert_ne!(1440 % length, 0),
        }
    }
    assert_eq!(divisors, 26);
}

#[test]
fn every_sample_count_takes_its_own_number_of_readings_only() {
    for length in 1usize..100 {
        if let Some(count) = sample_count(length) {
            let config = format!("200,NCDE001111,E1B1Q1E2,1,E1,N1,METSER123,Wh,{:02},", length);
            for readings in [count - 1, count, count + 1] {
                let line = day("20031204", "1.5", readings, ",A,,,20031206011132,");
                let raw = text(&[&config, &line]);
                let block = parse_nmi_data_details(raw.as_bytes(), 0);
                let alone = parse_interval_data(count, line.as_bytes(), 0);
                if readings == count {
                    let days = block.unwrap().1.interval_data_vec.unwrap();
                    assert_eq!(days[0].interval_value.len(), count);
                    assert_eq!(alone.unwrap().1.interval_value.len(), count);
                } else {
                    assert_eq!(block.unwrap_err().kind, ErrorKind::Arity);
                    assert_eq!(alone.unwrap_err().kind, ErrorKind::Arity);
                }
            }
        }
    }
}

#[test]
fn readings_that_look_like_other_fields_do_not_pass_under_another_count() {
    let line = "300,20031204,1,nan,5,7,20031206011132,20031206011132,A,,,20031206011140,20031207011022";
    let six = parse_interval_data(6, line.as_bytes(), 0).unwrap();
    assert_eq!(six.0, line.len());
    assert_eq!(six.1.interval_value.len(), 6);
    for count in [0usize, 1, 2, 3, 4, 5, 7, 8, 9, 10, 11] {
        assert!(parse_interval_data(count, line.as_bytes(), 0).is_err(), "{}", count);
    }
    let one = IntervalData::parse(1, line.as_bytes(), 0).unwrap();
    assert_eq!(&line[one.0..], ",A,,,20031206011140,20031207011022");
    assert_eq!(one.1.quality_method, b"nan");
}
