use chrono::{Datelike, NaiveDate, NaiveDateTime, Timelike};
use nem_parser::calendar::{Date, DateTime};
use nem_parser::common::rec_separator;
use nem_parser::error::{ErrorKind, Failure, RecordTag};
use nem_parser::nem12::parser::{LineError, Parser};
use nem_parser::nem12::record::{
    EndOfData, Header, IntervalData, IntervalEvent, Kind, NMIDataDetails,
};
use nem_parser::nem12::{parse_nmi_data_details, NEM12};

const MULTIPLE_METERS_STR: &str = "100,NEM12,200402070911,MDA1,Ret1\n\
200,NCDE001111,E1B1Q1E2,1,E1,N1,METSER123,Wh,15,\n\
300,20031204,10,10,10,10,10,10,10,10,10,10,10,10,10,10,10,10,10,10,10,10,10,10,10,10,10,10,10,10,10,10,10,10,10,10,10,10,10,10,10,10,10,10,10,10,10,10,10,10,10,10,10,10,10,10,10,10,10,10,10,10,10,10,10,10,10,10,10,10,10,10,10,10,10,10,10,10,10,10,10,10,10,10,10,10,10,10,10,10,10,10,10,10,10,10,10,10,A,,,20031206011132,20031207011022\n\
300,20031205,10,10,10,10,10,10,10,10,10,10,10,10,10,10,10,10,10,10,10,10,10,10,10,10,10,10,10,10,10,10,10,10,10,10,10,10,10,10,10,10,10,10,10,10,10,10,10,10,10,10,10,10,10,10,10,10,10,10,10,10,10,10,10,10,10,10,10,10,10,10,10,10,10,10,10,10,10,10,10,10,10,10,10,10,10,10,10,10,10,10,10,10,10,10,10,10,A,,,20031206011132,20031207011022\n\
200,NCDE001111,E1B1Q1E2,2,B1,N1,METSER123,Wh,15,\n\
300,20031204,10,10,10,10,10,10,10,10,10,10,10,10,10,10,10,10,10,10,10,10,10,10,10,10,10,10,10,10,10,10,10,10,10,10,10,10,10,10,10,10,10,10,10,10,10,10,10,10,10,10,10,10,10,10,10,10,10,10,10,10,10,10,10,10,10,10,10,10,10,10,10,10,10,10,10,10,10,10,10,10,10,10,10,10,10,10,10,10,10,10,10,10,10,10,10,10,A,,,20031206011132,20031207011022\n\
300,20031205,10,10,10,10,10,10,10,10,10,10,10,10,10,10,10,10,10,10,10,10,10,10,10,10,10,10,10,10,10,10,10,10,10,10,10,10,10,10,10,10,10,10,10,10,10,10,10,10,10,10,10,10,10,10,10,10,10,10,10,10,10,10,10,10,10,10,10,10,10,10,10,10,10,10,10,10,10,10,10,10,10,10,10,10,10,10,10,10,10,10,10,10,10,10,10,10,A,,,20031206011132,20031207011022\n\
200,NCDE001111,E1B1Q1E2,3,Q1,,METSER123,VArh,15,\n\
300,20031204,50,50,50,50,50,50,50,50,50,50,50,50,50,50,50,50,50,50,50,50,50,50,50,50,50,50,50,50,50,50,50,50,50,50,50,50,50,50,50,50,50,50,50,50,50,50,50,50,50,50,50,50,50,50,50,50,50,50,50,50,50,50,50,50,50,50,50,50,50,50,50,50,50,50,50,50,50,50,50,50,50,50,50,50,50,50,50,50,50,50,50,50,50,50,50,50,A,,,20031206011155,\n\
300,20031205,50,50,50,50,50,50,50,50,50,50,50,50,50,50,50,50,50,50,50,50,50,50,50,50,50,50,50,50,50,50,50,50,50,50,50,50,50,50,50,50,50,50,50,50,50,50,50,50,50,50,50,50,50,50,50,50,50,50,50,50,50,50,50,50,50,50,50,50,50,50,50,50,50,50,50,50,50,50,50,50,50,50,50,50,50,50,50,50,50,50,50,50,50,50,50,50,A,,,20031206011155,\n\
200,NCDE001111,E1B1Q1E2,4,E2,N2,METSER456,Wh,15,\n\
300,20031204,100,100,100,100,100,100,100,100,100,100,100,100,100,100,100,100,100,100,100,100,100,100,100,100,100,100,100,100,100,100,100,100,100,100,100,100,100,100,100,100,100,100,100,100,100,100,100,100,100,100,100,100,100,100,100,100,100,100,100,100,100,100,100,100,100,100,100,100,100,100,100,100,100,100,100,100,100,100,100,100,100,100,100,100,100,100,100,100,100,100,100,100,100,100,100,100,A,,,20031206011140,20031207011022\n\
300,20031205,100,100,100,100,100,100,100,100,100,100,100,100,100,100,100,100,100,100,100,100,100,100,100,100,100,100,100,100,100,100,100,100,100,100,100,100,100,100,100,100,100,100,100,100,100,100,100,100,100,100,100,100,100,100,100,100,100,100,100,100,100,100,100,100,100,100,100,100,100,100,100,100,100,100,100,100,100,100,100,100,100,100,100,100,100,100,100,100,100,100,100,100,100,100,100,100,A,,,20031206011140,20031207011022\n\
200,NDDD001888,B1K2,1,B1,N1,METSER991,Wh,15,\n\
300,20031204,20,20,20,20,20,20,20,20,20,20,20,20,20,20,20,20,20,20,20,20,20,20,20,20,20,20,20,20,20,20,20,20,20,20,20,20,20,20,20,20,20,20,20,20,20,20,20,20,20,20,20,20,20,20,20,20,20,20,20,20,20,20,20,20,20,20,20,20,20,20,20,20,20,20,20,20,20,20,20,20,20,20,20,20,20,20,20,20,20,20,20,20,20,20,20,20,A,,,20031206011145,20031207011022\n\
300,20031205,20,20,20,20,20,20,20,20,20,20,20,20,20,20,20,20,20,20,20,20,20,20,20,20,20,20,20,20,20,20,20,20,20,20,20,20,20,20,20,20,20,20,20,20,20,20,20,20,20,20,20,20,20,20,20,20,20,20,20,20,20,20,20,20,20,20,20,20,20,20,20,20,20,20,20,20,20,20,20,20,20,20,20,20,20,20,20,20,20,20,20,20,20,20,20,20,A,,,20031206011145,20031207011022\n\
200,NDDD001888,B1K2,2,K2,,METSER992,VArh,15,\n\
300,20031204,50,50,50,50,50,50,50,50,50,50,50,50,50,50,50,50,50,50,50,50,50,50,50,50,50,50,50,50,50,50,50,50,50,50,50,50,50,50,50,50,50,50,50,50,50,50,50,50,50,50,50,50,50,50,50,50,50,50,50,50,50,50,50,50,50,50,50,50,50,50,50,50,50,50,50,50,50,50,50,50,50,50,50,50,50,50,50,50,50,50,50,50,50,50,50,50,A,,,20031206011155,\n\
300,20031205,50,50,50,50,50,50,50,50,50,50,50,50,50,50,50,50,50,50,50,50,50,50,50,50,50,50,50,50,50,50,50,50,50,50,50,50,50,50,50,50,50,50,50,50,50,50,50,50,50,50,50,50,50,50,50,50,50,50,50,50,50,50,50,50,50,50,50,50,50,50,50,50,50,50,50,50,50,50,50,50,50,50,50,50,50,50,50,50,50,50,50,50,50,50,50,50,A,,,20031206011155,\n\
900";

const DATADETAILS_ROWS_STR: &str = "200,NCDE001111,E1B1Q1E2,1,E1,N1,METSER123,Wh,15,\n\
300,20031204,10,10,10,10,10,10,10,10,10,10,10,10,10,10,10,10,10,10,10,10,10,10,10,10,10,10,10,10,10,10,10,10,10,10,10,10,10,10,10,10,10,10,10,10,10,10,10,10,10,10,10,10,10,10,10,10,10,10,10,10,10,10,10,10,10,10,10,10,10,10,10,10,10,10,10,10,10,10,10,10,10,10,10,10,10,10,10,10,10,10,10,10,10,10,10,10,A,,,20031206011132,20031207011022\n\
300,20031205,10,10,10,10,10,10,10,10,10,10,10,10,10,10,10,10,10,10,10,10,10,10,10,10,10,10,10,10,10,10,10,10,10,10,10,10,10,10,10,10,10,10,10,10,10,10,10,10,10,10,10,10,10,10,10,10,10,10,10,10,10,10,10,10,10,10,10,10,10,10,10,10,10,10,10,10,10,10,10,10,10,10,10,10,10,10,10,10,10,10,10,10,10,10,10,10,A,,,20031206011132,20031207011022\n\
";

const NEM12_WITH_QUALITY: &str = "100,NEM12,200404201300,MDA1,Ret1\n\
200,CCCC123456,E1,001,E1,N1,METSER123,kWh,30,\n\
300,20040417,18.023,19.150,17.592,24.155,18.568,22.304,19.222,19.032,19.090,22.237,24.350,22.274,20.193,16.615,19.575,20.391,16.459,20.527,21.438,19.327,21.424,16.656,17.616,18.416,16.666,19.961,18.120,18.023,18.588,21.759,17.841,19.548,18.486,21.391,15.656,16.634,16.377,14.246,17.451,15.742,18.038,18.470,14.936,17.987,15.751,19.750,16.202,14.733,V,,,20040418203500,20040419003500\n\
400,1,20,F14,76,\n\
400,21,24,A,,\n\
400,25,48,S14,1,\n\
900\n\
";

fn date(value: NaiveDate) -> Date {
    Date { year: value.year(), month: value.month(), day: value.day() }
}

fn datetime(value: NaiveDateTime) -> DateTime {
    DateTime {
        date: date(value.date()),
        hour: value.hour(),
        minute: value.minute(),
        second: value.second(),
        nanosecond: value.nanosecond(),
    }
}

fn bits(values: &[f64]) -> Vec<u64> {
    values.iter().map(|value| value.to_bits()).collect()
}

fn event(raw: &str) -> IntervalEvent<'_> {
    IntervalEvent::parse(raw.as_bytes(), 0).map(|(_, o)| o).unwrap()
}

#[test]
fn get_nmi_data_details_parser() {
    let raw = DATADETAILS_ROWS_STR.as_bytes();
    let (input, nmi_data_details) = NMIDataDetails::parse(raw, 0).unwrap();

    let capacity = 1440 / nmi_data_details.interval_length;
    let (input, _) = rec_separator(raw, input).unwrap();
    let (input, _) = IntervalData::parse(capacity, raw, input).unwrap();
    let (input, _) = rec_separator(raw, input).unwrap();
    let (input, _) = IntervalData::parse(capacity, raw, input).unwrap();
    assert_eq!(&raw[input..], b"\n");

    let (input, nmi_data_details) = parse_nmi_data_details(raw, 0).unwrap();
    assert_eq!(&raw[input..], b"\n");
    assert_eq!(nmi_data_details.interval_data_vec.map(|v| v.len()), Some(2));
    assert_eq!(nmi_data_details.b2b_details, None);
}

#[test]
fn get_nmi_with_data_quality() {
    let nmi_data_details = NMIDataDetails {
        nmi: b"CCCC123456",
        nmi_configuration: b"E1",
        register_id: b"001",
        nmi_suffix: b"E1",
        mdm_data_stream_id: Some(b"N1"),
        meter_serial_number: b"METSER123",
        uom: b"KWH",
        interval_length: 30usize,
        next_scheduled_read_date: None,
        interval_data_vec: Some(vec![IntervalData {
            interval_date: date(NaiveDate::from_ymd_opt(2004, 04, 17).unwrap()),
            interval_value: bits(&[
                18.023, 19.15, 17.592, 24.155, 18.568, 22.304, 19.222, 19.032, 19.09, 22.237,
                24.35, 22.274, 20.193, 16.615, 19.575, 20.391, 16.459, 20.527, 21.438, 19.327,
                21.424, 16.656, 17.616, 18.416, 16.666, 19.961, 18.12, 18.023, 18.588, 21.759,
                17.841, 19.548, 18.486, 21.391, 15.656, 16.634, 16.377, 14.246, 17.451, 15.742,
                18.038, 18.47, 14.936, 17.987, 15.751, 19.75, 16.202, 14.733,
            ]),
            quality_method: b"V",
            reason_code: None,
            reason_description: None,
            update_datetime: datetime(
                NaiveDateTime::parse_from_str("2004-04-18T20:35:00", "%Y-%m-%dT%H:%M:%S")
                    .unwrap(),
            ),
            msats_load_datetime: Some(datetime(
                NaiveDateTime::parse_from_str("2004-04-19T00:35:00", "%Y-%m-%dT%H:%M:%S")
                    .unwrap(),
            )),
            interval_events: Some(vec![
                event("400,1,20,F14,76,\n"),
                event("400,21,24,A,,\n"),
                event("400,25,48,S14,1,\n"),
            ]),
        }]),
        b2b_details: None,
    };
    let nem12_test = NEM12 {
        header: Header::new(
            b"NEM12",
            datetime(NaiveDate::from_ymd_opt(2004, 04, 20).unwrap().and_hms_opt(13, 0, 0).unwrap()),
            b"MDA1",
            b"Ret1",
        ),
        nmi_data_details: vec![nmi_data_details],
    };
    let nem12_obj = NEM12::from_str(NEM12_WITH_QUALITY.as_bytes());
    assert_eq!(Ok(nem12_test), nem12_obj)
}

#[test]
fn multiple_meters_from_str() {
    let _nem12_obj = NEM12::from_str(MULTIPLE_METERS_STR.as_bytes()).unwrap();
}

#[test]
fn multiple_meters() {
    let mut parser = Parser::new(MULTIPLE_METERS_STR.as_bytes());

    for _ in 1..20 {
        parser.parse_line().unwrap();
    }

    assert_eq!(parser.parse_line(), Ok(Some(Kind::EndOfData(EndOfData {}))));
    assert_eq!(parser.parse_line(), Ok(None));
    let exhausted = parser.parse_line();
    assert_eq!(exhausted, Err(LineError::Exhausted));
    let error = exhausted.unwrap_err();
    assert_eq!((error.message(), error.line()), ("Error: parser consumed all input", 0));
}

#[test]
fn nem12_from_str() {
    let _nem12_obj = NEM12::from_str(MULTIPLE_METERS_STR.as_bytes());
    if let Err(e) = _nem12_obj {
        println!("{:?}", e);
    }
}

#[test]
fn header_100() {
    let date = datetime(NaiveDate::from_ymd_opt(2004, 5, 1).unwrap().and_hms_opt(11, 35, 0).unwrap());
    let header = Header::new(b"NEM12", date.clone(), b"MDA1", b"Ret1");

    let raw = "100,NEM12,200405011135,MDA1,Ret1\n";

    let res = Header::parse(raw.as_bytes(), 0);

    assert_eq!(res.map(|(r, v)| (&raw[r..], v)), Ok(("\n", header)));

    let header = Header::new(b"NEM12", date.clone().into(), b"0123456789", b"Ret1");

    let raw = "100,NEM12,200405011135,0123456789,Ret1\n";

    let res = Header::parse(raw.as_bytes(), 0);

    assert_eq!(res.map(|(r, v)| (&raw[r..], v)), Ok(("\n", header)));

    let raw = "100,NEM12,200405011135,12345678910,Ret1\n";

    let res = match Header::parse(raw.as_bytes(), 0).map(|(r, v)| (&raw[r..], v)) {
        Ok(o) => {
            println!("{:?}", o);
            panic!("Failed")
        }
        Err(e) => (&raw[e.offset..], e.kind),
    };

    assert_eq!(res, ("12345678910,Ret1\n", ErrorKind::Lexical));
}

#[test]
fn nmi_data_details_200() {
    let nmi_data_details = NMIDataDetails {
        nmi: b"VABD000163",
        nmi_configuration: b"E1Q1",
        register_id: b"1",
        nmi_suffix: b"E1",
        mdm_data_stream_id: Some(b"N1"),
        meter_serial_number: b"METSER123",
        uom: b"KWH",
        interval_length: 30usize,
        next_scheduled_read_date: None,
        interval_data_vec: None,
        b2b_details: None,
    };

    let raw = "200,VABD000163,E1Q1,1,E1,N1,METSER123,KWH,30,\n";

    let res = NMIDataDetails::parse(raw.as_bytes(), 0);

    assert_eq!(res.map(|(i, v)| (&raw[i..], v)), Ok(("\n", nmi_data_details)));

    let raw = "200,VABD000163,E1Q1,1,E1,N1,METSER123,kWh,30,1234\n";

    let res = NMIDataDetails::parse(raw.as_bytes(), 0);

    assert_eq!(res.map(|(i, v)| (&raw[i..], v)).map_err(|e| &raw[e.offset..]), Err("1234\n"));
}

#[test]
fn interval_data_300() {
    let interval_data = IntervalData {
        interval_date: date(NaiveDate::from_ymd_opt(2004, 2, 1).unwrap()),
        interval_value: bits(&[
            1.111, 1.111, 1.111, 1.111, 1.111, 1.111, 1.111, 1.111, 1.111, 1.111, 1.111, 1.111,
            1.111, 1.111, 1.111, 1.111, 1.111, 1.111, 1.111, 1.111, 1.111, 1.111, 1.111, 1.111,
            1.111, 1.111, 1.111, 1.111, 1.111, 1.111, 1.111, 1.111, 1.111, 1.111, 1.111, 1.111,
            1.111, 1.111, 1.111, 1.111, 1.111, 1.111, 1.111, 1.111, 1.111, 1.111, 1.111, 1.111,
        ]),
        quality_method: b"A",
        reason_code: None,
        reason_description: None,
        update_datetime: datetime(
            NaiveDate::from_ymd_opt(2004, 2, 2).unwrap().and_hms_opt(12, 0, 25).unwrap(),
        ),
        msats_load_datetime: Some(datetime(
            NaiveDate::from_ymd_opt(2004, 2, 2).unwrap().and_hms_opt(14, 25, 16).unwrap(),
        )),
        interval_events: None,
    };

    let raw = "300,20040201,1.111,1.111,1.111,1.111,1.111,1.111,1.111,1.111,1.111,1.111,1.111,1.111,1.111,1.111,1.111,1.111,1.111,1.111,1.111,1.111,1.111,1.111,1.111,1.111,1.111,1.111,1.111,1.111,1.111,1.111,1.111,1.111,1.111,1.111,1.111,1.111,1.111,1.111,1.111,1.111,1.111,1.111,1.111,1.111,1.111,1.111,1.111,1.111,A,,,20040202120025,20040202142516";

    let res = IntervalData::parse(48, raw.as_bytes(), 0);

    assert_eq!(res.map(|(i, v)| (&raw[i..], v)), Ok(("", interval_data)));
}

#[test]
fn interval_event_400() {
    let interval_event = IntervalEvent {
        start_interval: b"1",
        end_interval: b"20",
        quality_method: b"F14",
        reason_code: Some(b"76"),
        reason_description: None,
    };

    let raw = "400,1,20,F14,76,\n";
    let res = IntervalEvent::parse(raw.as_bytes(), 0);
    assert_eq!(res.map(|(i, v)| (&raw[i..], v)), Ok(("\n", interval_event)));

    let interval_event = IntervalEvent {
        start_interval: b"25",
        end_interval: b"48",
        quality_method: b"S14",
        reason_code: Some(b"1"),
        reason_description: None,
    };

    let raw = "400,25,48,S14,1,\n";
    let res = IntervalEvent::parse(raw.as_bytes(), 0);
    assert_eq!(res.map(|(i, v)| (&raw[i..], v)), Ok(("\n", interval_event)));

    let interval_event = IntervalEvent {
        start_interval: b"21",
        end_interval: b"24",
        quality_method: b"A",
        reason_code: None,
        reason_description: None,
    };

    let raw = "400,21,24,A,,\n";
    let res = IntervalEvent::parse(raw.as_bytes(), 0);
    assert_eq!(res.map(|(r, v)| (&raw[r..], v)), Ok(("\n", interval_event)));
}

#[test]
fn b2b_details_500() {
    let interval_event = nem_parser::nem12::record::B2BDetails {
        trans_code: b"S",
        ret_service_order: b"RETNSRVCEORD1",
        read_datetime: datetime(
            NaiveDate::from_ymd_opt(2003, 12, 20).unwrap().and_hms_opt(15, 45, 0).unwrap(),
        ),
        index_read: b"001123.5",
    };

    let raw = "500,S,RETNSRVCEORD1,20031220154500,001123.5\n";
    let res = nem_parser::nem12::record::B2BDetails::parse(raw.as_bytes(), 0);
    assert_eq!(res.map(|(r, v)| (&raw[r..], v)), Ok(("\n", interval_event)));
}

#[test]
fn end_of_data_900() {
    let end_of_data = EndOfData {};

    let raw = "900\n";
    let res = EndOfData::parse(raw.as_bytes(), 0);
    assert_eq!(res.map(|(r, v)| (&raw[r..], v)), Ok(("", end_of_data)));
}

#[test]
fn missing_end_marker_names_the_terminal_record() {
    let raw = "100,NEM12,200405011135,MDA1,Ret1\n200,VABD000163,E1Q1,1,E1,N1,METSER123,KWH,30,\n";
    let failure: Failure = NEM12::from_str(raw.as_bytes()).unwrap_err();
    assert_eq!(failure.error.kind, ErrorKind::Structure);
    assert_eq!(failure.error.expected, Some(RecordTag::EndOfData));
    assert_eq!(failure.error.offset, raw.len());
    assert_eq!(failure.line, 3);
}
