use nem_parser::error::{ErrorKind, ParseError, RecordTag};
use nem_parser::nem12::parser::{parse_record, LineError, Parser};
use nem_parser::nem12::record::{EndOfData, Kind};
use nem_parser::nem12::NEM12;

fn day(date: &str, value: &str, count: usize, tail: &str) -> String {
    let mut line = format!("300,{}", date);
    for _ in 0..count {
        line.push(',');
        line.push_str(value);
    }
    line.push_str(tail);
    line
}

fn sample(ending: &str) -> String {
    let lines = [
        "100,NEM12,200404201300,MDA1,Ret1".to_string(),
        "200,CCCC123456,E1,001,E1,N1,METSER123,kWh,30,".to_string(),
        day("20040417", "18.023", 48, ",V,,,20040418203500,20040419003500"),
        "400,1,20,F14,76,".to_string(),
        "400,21,48,A,,".to_string(),
        day("20040418", "1", 48, ",A,,,20040418203500,"),
        "500,S,RETNSRVCEORD1,20031220154500,001123.5".to_string(),
        "200,CCCC123456,E1,002,B1,,METSER123,kWh,15,".to_string(),
        day("20040417", "2", 96, ",A,,,20040418203500,"),
        "900".to_string(),
    ];
    let mut text = String::new();
    for line in lines {
        text.push_str(&line);
        text.push_str(ending);
    }
    text
}

fn all_records(text: &str) -> Vec<Kind<'_>> {
    let mut parser = Parser::new(text.as_bytes());
    let mut records = Vec::new();
    while let Some(record) = parser.parse_line().unwrap() {
        records.push(record);
    }
    assert_eq!(Parser::new(text.as_bytes()).records(), Ok(records.clone()));
    records
}

fn flatten<'a>(document: &NEM12<'a>) -> Vec<Kind<'a>> {
    let mut records = vec![Kind::Header(document.header)];
    for block in &document.nmi_data_details {
        let mut bare = block.clone();
        bare.interval_data_vec = None;
        bare.b2b_details = None;
        records.push(Kind::NMIDataDetails(bare));
        for data in block.interval_data_vec.iter().flatten() {
            let mut bare = data.clone();
            bare.interval_events = None;
            records.push(Kind::IntervalData(bare));
            for event in data.interval_events.iter().flatten() {
                records.push(Kind::IntervalEvent(*event));
            }
        }
        for exchange in block.b2b_details.iter().flatten() {
            records.push(Kind::B2BDetails(*exchange));
        }
    }
    records.push(Kind::EndOfData(EndOfData {}));
    records
}

#[test]
fn the_reader_hands_out_the_records_of_the_document() {
    let text = sample("\n");
    let document = NEM12::from_str(text.as_bytes()).unwrap();
    let records = all_records(&text);
    assert_eq!(records.len(), 10);
    assert_eq!(records, flatten(&document));
}

#[test]
fn the_reader_skips_empty_lines() {
    let text = sample("\n\n\n");
    let document = NEM12::from_str(text.as_bytes()).unwrap();
    assert_eq!(all_records(&text), flatten(&document));
}

#[test]
fn the_reader_takes_carriage_returns_as_part_of_the_line_ending() {
    let unix = sample("\n");
    let dos = sample("\r\n");
    assert_eq!(all_records(&dos), all_records(&unix));
    assert!(NEM12::from_str(dos.as_bytes()).is_err());
}

#[test]
fn the_reader_needs_no_last_line_ending() {
    let text = sample("\n");
    let cut = &text[..text.len() - 1];
    assert_eq!(all_records(cut), all_records(&text));
}

#[test]
fn the_reader_reports_the_end_once() {
    let mut parser = Parser::new(b"900\n");
    assert_eq!(parser.parse_line(), Ok(Some(Kind::EndOfData(EndOfData {}))));
    assert_eq!(parser.parse_line(), Ok(None));
    assert_eq!(parser.parse_line(), Err(LineError::Exhausted));
    assert_eq!(parser.parse_line(), Err(LineError::Exhausted));
    let mut parser = Parser::new(b"");
    assert_eq!(parser.parse_line(), Ok(None));
    assert_eq!(parser.parse_line(), Err(LineError::Exhausted));
    let mut parser = Parser::new(b"\n\r\n\n");
    assert_eq!(parser.parse_line(), Ok(None));
    assert_eq!(parser.parse_line(), Err(LineError::Exhausted));
}

#[test]
fn the_reader_numbers_the_lines_it_reports() {
    let text = "100,NEM12,200404201300,MDA1,Ret1\n\n200,CCCC123456,E1,001,E1,N1,METSER123,kWh,30,extra\n900\n";
    let mut parser = Parser::new(text.as_bytes());
    assert!(parser.parse_line().unwrap().is_some());
    let error = parser.parse_line().unwrap_err();
    assert_eq!(
        error,
        LineError::Malformed {
            line: 3,
            error: ParseError { kind: ErrorKind::Lexical, expected: None, offset: 45 }
        }
    );
    assert_eq!(error.line(), 3);
    assert_eq!(error.message(), "Error parsing line: ");
    assert_eq!(parser.parse_line(), Ok(Some(Kind::EndOfData(EndOfData {}))));
    assert_eq!(parser.parse_line(), Ok(None));
}

#[test]
fn the_reader_needs_a_configuration_before_interval_data() {
    let line = day("20040417", "2", 48, ",A,,,20040418203500,");
    let text = format!("{}\n200,CCCC123456,E1,002,B1,,METSER123,kWh,30,\n{}\n", line, line);
    let mut parser = Parser::new(text.as_bytes());
    assert_eq!(
        parser.parse_line(),
        Err(LineError::Malformed {
            line: 1,
            error: ParseError {
                kind: ErrorKind::Structure,
                expected: Some(RecordTag::NMIDataDetails),
                offset: 0
            }
        })
    );
    assert!(matches!(parser.parse_line(), Ok(Some(Kind::NMIDataDetails(_)))));
    assert!(matches!(parser.parse_line(), Ok(Some(Kind::IntervalData(_)))));
}

#[test]
fn the_reader_carries_the_sample_count_of_the_last_configuration() {
    let half = day("20040417", "2", 48, ",A,,,20040418203500,");
    let quarter = day("20040417", "2", 96, ",A,,,20040418203500,");
    let text = format!(
        "200,CCCC123456,E1,002,B1,,METSER123,kWh,30,\n{}\n{}\n200,CCCC123456,E1,002,B1,,METSER123,kWh,15,\n{}\n{}\n200,CCCC123456,E1,002,B1,,METSER123,kWh,07,\n{}\n",
        half, quarter, half, quarter, quarter
    );
    let mut parser = Parser::new(text.as_bytes());
    let outcomes: Vec<Option<ErrorKind>> = (0..7)
        .map(|_| match parser.parse_line() {
            Ok(_) => None,
            Err(LineError::Malformed { error, .. }) => Some(error.kind),
            Err(LineError::Exhausted) => panic!("the input has seven lines"),
        })
        .collect();
    assert_eq!(
        outcomes,
        vec![
            None,
            None,
            Some(ErrorKind::Arity),
            None,
            Some(ErrorKind::Arity),
            None,
            Some(ErrorKind::Divisibility),
        ]
    );
    assert!(matches!(parser.parse_line(), Ok(Some(Kind::IntervalData(_)))));
}

#[test]
fn a_line_without_a_known_code_is_a_structural_failure() {
    let unknown = ParseError { kind: ErrorKind::Structure, expected: None, offset: 0 };
    assert_eq!(parse_record(b"250,what", None), Err(unknown));
    assert_eq!(parse_record(b"90", None), Err(unknown));
    assert_eq!(parse_record(b" 900", None), Err(unknown));
    assert_eq!(parse_record(b"", Some(3)), Err(unknown));
}

#[test]
fn a_record_must_fill_its_line() {
    assert_eq!(parse_record(b"900", None), Ok((Kind::EndOfData(EndOfData {}), None)));
    assert_eq!(parse_record(b"900 \t", Some(4)), Ok((Kind::EndOfData(EndOfData {}), Some(4))));
    assert_eq!(
        parse_record(b"900x", None),
        Err(ParseError { kind: ErrorKind::Lexical, expected: None, offset: 3 })
    );
    assert_eq!(
        parse_record(b"100,NEM12,200404201300,MDA1,Ret1,", None),
        Err(ParseError { kind: ErrorKind::Lexical, expected: None, offset: 32 })
    );
    assert_eq!(
        parse_record(b"100;NEM12", None),
        Err(ParseError { kind: ErrorKind::Structure, expected: Some(RecordTag::Header), offset: 0 })
    );
}

#[test]
fn a_configuration_sets_the_sample_count() {
    let (record, carried) =
        parse_record(b"200,CCCC123456,E1,002,B1,,METSER123,kWh,05,20040101", Some(48)).unwrap();
    assert_eq!(carried, Some(288));
    match record {
        Kind::NMIDataDetails(details) => assert_eq!(details.interval_length, 5),
        other => panic!("{:?}", other),
    }
    assert_eq!(
        parse_record(b"200,CCCC123456,E1,002,B1,,METSER123,kWh,07,", Some(48)),
        Err(ParseError { kind: ErrorKind::Divisibility, expected: None, offset: 0 })
    );
}

#[test]
fn the_reader_passes_over_blank_lines() {
    let text = sample("\n");
    let spaced = format!("{} \n\t\n\r\n \t \r\n", sample("\n \t\n"));
    assert_eq!(all_records(&spaced), all_records(&text));
    let closed = format!("{}  \n\n \t", text);
    let document = NEM12::from_str(closed.as_bytes()).unwrap();
    assert_eq!(all_records(&closed), flatten(&document));
}

#[test]
fn records_reads_to_the_end_or_to_the_first_failure() {
    let text = sample("\n");
    let mut parser = Parser::new(text.as_bytes());
    let first = parser.parse_line().unwrap().unwrap();
    let rest = parser.records().unwrap();
    assert_eq!(rest.len(), 9);
    assert!(matches!(first, Kind::Header(_)));
    assert!(matches!(rest[8], Kind::EndOfData(_)));
    assert_eq!(parser.records(), Ok(vec![]));
    assert_eq!(parser.parse_line(), Err(LineError::Exhausted));
    let broken = "100,NEM12,200404201300,MDA1,Ret1\n\n200,CCCC123456,E1,001,E1,N1,METSER123,kWh,30,\n\n300,20040417,1\n900\n";
    let mut parser = Parser::new(broken.as_bytes());
    assert_eq!(
        parser.records(),
        Err(LineError::Malformed {
            line: 5,
            error: ParseError { kind: ErrorKind::Arity, expected: None, offset: 14 }
        })
    );
    assert_eq!(parser.records(), Ok(vec![Kind::EndOfData(EndOfData {})]));
    assert_eq!(Parser::new(b"").records(), Ok(vec![]));
    assert_eq!(Parser::new(b" \n\n").records(), Ok(vec![]));
}
