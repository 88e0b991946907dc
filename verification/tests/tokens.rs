use chrono::{Datelike, NaiveDate, NaiveDateTime, Timelike};
use nem_parser::calendar::{Date, DateTime};
use nem_parser::charset::Charset;
use nem_parser::common::{
    date_8, datetime_12, datetime_14, eof, line_of, optional_field, rec_separator,
    section_of_exact_length, section_of_max_length, Token,
};
use nem_parser::error::{ErrorKind, ParseError};
use nem_parser::number::reading;
use nom::bytes::complete::take;
use nom::character::complete::{alpha1, alphanumeric1, digit1, multispace0, newline};
use nom::multi::many1_count;
use nom::combinator::verify;
use nom_locate::LocatedSpan;

const ALNUM: Token = Token::Run(Charset::Alphanumeric);
const DIGITS: Token = Token::Run(Charset::Digit);
const LETTERS: Token = Token::Run(Charset::Alpha);

fn lexical(offset: usize) -> ParseError {
    ParseError { kind: ErrorKind::Lexical, expected: None, offset }
}

fn temporal(offset: usize) -> ParseError {
    ParseError { kind: ErrorKind::Temporal, expected: None, offset }
}

fn field(text: &str) -> &[u8] {
    text.as_bytes()
}

#[test]
fn max_length_accepts_one_to_max_bytes() {
    let raw = b"MDA1,Ret1";
    assert_eq!(section_of_max_length(raw, 0, ALNUM, 10), Ok((4, field("MDA1"))));
    assert_eq!(section_of_max_length(raw, 5, ALNUM, 10), Ok((9, field("Ret1"))));
    assert_eq!(section_of_max_length(raw, 0, ALNUM, 4), Ok((4, field("MDA1"))));
    assert_eq!(section_of_max_length(raw, 0, ALNUM, 3), Err(lexical(0)));
    assert_eq!(section_of_max_length(raw, 4, ALNUM, 10), Err(lexical(4)));
}

#[test]
fn max_length_reads_past_the_end_as_an_empty_run() {
    let raw = b"abc";
    assert_eq!(section_of_max_length(raw, 3, ALNUM, 10), Err(lexical(3)));
    assert_eq!(section_of_max_length(raw, 7, ALNUM, 10), Err(lexical(7)));
    assert_eq!(section_of_max_length(b"", 0, ALNUM, 10), Err(lexical(0)));
}

#[test]
fn exact_length_accepts_only_that_length() {
    let raw = b"E1,E12,E";
    assert_eq!(section_of_exact_length(raw, 0, ALNUM, 2), Ok((2, field("E1"))));
    assert_eq!(section_of_exact_length(raw, 3, ALNUM, 2), Err(lexical(3)));
    assert_eq!(section_of_exact_length(raw, 7, ALNUM, 2), Err(lexical(7)));
    assert_eq!(section_of_exact_length(raw, 2, ALNUM, 0), Err(lexical(2)));
}

#[test]
fn runs_stop_at_bytes_outside_their_class() {
    assert_eq!(section_of_max_length(b"abc123", 0, LETTERS, 10), Ok((3, field("abc"))));
    assert_eq!(section_of_max_length(b"123abc", 0, DIGITS, 10), Ok((3, field("123"))));
    assert_eq!(section_of_max_length(b"ab-cd", 0, ALNUM, 10), Ok((2, field("ab"))));
    assert_eq!(section_of_max_length("abé".as_bytes(), 0, ALNUM, 10), Ok((2, field("ab"))));
    assert_eq!(section_of_max_length("éab".as_bytes(), 0, ALNUM, 10), Err(lexical(0)));
}

#[test]
fn decimal_takes_digits_and_one_fraction() {
    let decimal = Token::Decimal;
    assert_eq!(section_of_max_length(b"001123.5\n", 0, decimal, 15), Ok((8, field("001123.5"))));
    assert_eq!(section_of_max_length(b"42", 0, decimal, 15), Ok((2, field("42"))));
    assert_eq!(section_of_max_length(b"42.", 0, decimal, 15), Ok((2, field("42"))));
    assert_eq!(section_of_max_length(b"4.2.1", 0, decimal, 15), Ok((3, field("4.2"))));
    assert_eq!(section_of_max_length(b".5", 0, decimal, 15), Err(lexical(0)));
    assert_eq!(section_of_max_length(b"1234567890.12345", 0, decimal, 15), Err(lexical(0)));
    assert_eq!(
        section_of_max_length(b"1234567890.1234", 0, decimal, 15),
        Ok((15, field("1234567890.1234")))
    );
}

fn nom_max(test: u8, input: &str, length: usize) -> Option<usize> {
    let check = move |s: &str| s.len() <= length && s.len() > 0;
    let found = match test {
        0 => verify(alpha1::<&str, nom::error::Error<&str>>, check)(input),
        1 => verify(digit1::<&str, nom::error::Error<&str>>, check)(input),
        _ => verify(alphanumeric1::<&str, nom::error::Error<&str>>, check)(input),
    };
    found.ok().map(|(rest, _)| input.len() - rest.len())
}

#[test]
fn bounded_fields_agree_with_nom() {
    let inputs = [
        "", "a", "A1", "abc,def", "12345678901", "1234567890", "x y", "é", "aé", ",", "\n",
        "Z9z0,", "0123", "abcd",
    ];
    for input in inputs {
        for length in [1usize, 2, 3, 4, 10, 11] {
            for (code, token) in [(0u8, LETTERS), (1, DIGITS), (2, ALNUM)] {
                let ours = section_of_max_length(input.as_bytes(), 0, token, length)
                    .ok()
                    .map(|(next, _)| next);
                assert_eq!(ours, nom_max(code, input, length), "{:?} {} {}", input, length, code);
            }
        }
    }
}

#[test]
fn separator_counts_line_feeds() {
    assert_eq!(rec_separator(b"a\n\n\nb", 1), Ok((4, 3)));
    assert_eq!(rec_separator(b"a\nb", 1), Ok((2, 1)));
    assert_eq!(rec_separator(b"a\nb", 0), Err(lexical(0)));
    assert_eq!(rec_separator(b"a\r\nb", 1), Err(lexical(1)));
    assert_eq!(rec_separator(b"a", 1), Err(lexical(1)));
}

#[test]
fn eof_holds_only_at_the_end() {
    assert_eq!(eof(b"abc", 3), Ok(3));
    assert_eq!(eof(b"abc", 5), Ok(5));
    assert_eq!(eof(b"", 0), Ok(0));
    assert_eq!(eof(b"abc", 2), Err(lexical(2)));
}

#[test]
fn optional_field_present_absent_malformed() {
    let raw = b"76,,7654,x";
    let present = optional_field(section_of_max_length(raw, 0, DIGITS, 3), raw, 0, b',');
    assert_eq!(present, Ok((2, Some(field("76")))));
    let absent = optional_field(section_of_max_length(raw, 3, DIGITS, 3), raw, 3, b',');
    assert_eq!(absent, Ok((3, None)));
    let too_long = optional_field(section_of_max_length(raw, 4, DIGITS, 3), raw, 4, b',');
    assert_eq!(too_long, Err(lexical(4)));
    let wrong_class = optional_field(section_of_max_length(raw, 9, DIGITS, 3), raw, 9, b',');
    assert_eq!(wrong_class, Err(lexical(9)));
    let at_end = optional_field(section_of_max_length(raw, 10, DIGITS, 3), raw, 10, b',');
    assert_eq!(at_end, Ok((10, None)));
    let at_line_end = optional_field(section_of_max_length(b"\n", 0, DIGITS, 3), b"\n", 0, b',');
    assert_eq!(at_line_end, Ok((0, None)));
}

#[test]
fn optional_field_keeps_the_failure_it_was_given() {
    let given: Result<(usize, u8), ParseError> = Err(temporal(2));
    assert_eq!(optional_field(given, b"abcd", 2, b','), Err(temporal(2)));
    assert_eq!(optional_field(given, b"ab,d", 2, b','), Ok((2, None)));
    let fine: Result<(usize, u8), ParseError> = Ok((3, 9));
    assert_eq!(optional_field(fine, b"ab,d", 2, b','), Ok((3, Some(9))));
}

fn chrono_date(text: &str) -> Option<Date> {
    NaiveDate::parse_from_str(text, "%Y%m%d")
        .ok()
        .map(|d| Date { year: d.year(), month: d.month(), day: d.day() })
}

fn chrono_datetime(text: &str, format: &str) -> Option<DateTime> {
    NaiveDateTime::parse_from_str(text, format).ok().map(|t| DateTime {
        date: Date { year: t.year(), month: t.month(), day: t.day() },
        hour: t.hour(),
        minute: t.minute(),
        second: t.second(),
        nanosecond: t.nanosecond(),
    })
}

#[test]
fn date_8_decodes_calendar_days() {
    assert_eq!(date_8(b"20040201", 0), Ok((8, Date { year: 2004, month: 2, day: 1 })));
    assert_eq!(date_8(b"x,20031204,", 2), Ok((10, Date { year: 2003, month: 12, day: 4 })));
    assert_eq!(date_8(b"20040229", 0), Ok((8, Date { year: 2004, month: 2, day: 29 })));
    assert_eq!(date_8(b"20000229", 0), Ok((8, Date { year: 2000, month: 2, day: 29 })));
    assert_eq!(date_8(b"00000229", 0), Ok((8, Date { year: 0, month: 2, day: 29 })));
    assert_eq!(date_8(b"99991231", 0), Ok((8, Date { year: 9999, month: 12, day: 31 })));
}

#[test]
fn date_8_tells_malformed_from_impossible() {
    assert_eq!(date_8(b"20041301", 0), Err(temporal(0)));
    assert_eq!(date_8(b"20040132", 0), Err(temporal(0)));
    assert_eq!(date_8(b"20040100", 0), Err(temporal(0)));
    assert_eq!(date_8(b"20040001", 0), Err(temporal(0)));
    assert_eq!(date_8(b"20030229", 0), Err(temporal(0)));
    assert_eq!(date_8(b"21000229", 0), Err(temporal(0)));
    assert_eq!(date_8(b"20040431", 0), Err(temporal(0)));
    assert_eq!(date_8(b"1234\n", 0), Err(lexical(0)));
    assert_eq!(date_8(b"2004020", 0), Err(lexical(0)));
    assert_eq!(date_8(b"2004 2 1", 0), Err(lexical(0)));
    assert_eq!(date_8(b"+2004021", 0), Err(lexical(0)));
    assert_eq!(date_8(b"2004020a", 0), Err(lexical(0)));
    assert_eq!(date_8(b"20040201", 1), Err(lexical(1)));
    assert_eq!(date_8(b"20040201", 9), Err(lexical(9)));
}

#[test]
fn dates_agree_with_chrono_on_every_day_number() {
    for year in ["0000", "0001", "0100", "0400", "1900", "2000", "2003", "2004", "2100", "9999"] {
        for month in 0..=13u32 {
            for day in 0..=32u32 {
                let text = format!("{}{:02}{:02}", year, month, day);
                let ours = date_8(text.as_bytes(), 0).ok().map(|(_, d)| d);
                assert_eq!(ours, chrono_date(&text), "{}", text);
            }
        }
    }
}

#[test]
fn datetime_14_decodes_seconds() {
    let expected = DateTime {
        date: Date { year: 2004, month: 2, day: 2 },
        hour: 12,
        minute: 0,
        second: 25,
        nanosecond: 0,
    };
    assert_eq!(datetime_14(b"20040202120025", 0), Ok((14, expected)));
    assert_eq!(datetime_14(b"20040202120025,", 0), Ok((14, expected)));
    assert_eq!(datetime_14(b"20040202240025", 0), Err(temporal(0)));
    assert_eq!(datetime_14(b"20040202126025", 0), Err(temporal(0)));
    assert_eq!(datetime_14(b"20040202120061", 0), Err(temporal(0)));
    assert_eq!(datetime_14(b"20040230120025", 0), Err(temporal(0)));
    assert_eq!(datetime_14(b"2004020212002", 0), Err(lexical(0)));
    assert_eq!(datetime_14(b"2004020212002,", 0), Err(lexical(0)));
    assert_eq!(datetime_14(b"2004-02-02T12:", 0), Err(lexical(0)));
}

#[test]
fn datetime_14_holds_a_leap_second_as_chrono_does() {
    let expected = DateTime {
        date: Date { year: 2004, month: 2, day: 2 },
        hour: 12,
        minute: 0,
        second: 59,
        nanosecond: 1_000_000_000,
    };
    assert_eq!(datetime_14(b"20040202120060", 0), Ok((14, expected)));
    assert_eq!(chrono_datetime("20040202120060", "%Y%m%d%H%M%S"), Some(expected));
}

#[test]
fn datetime_12_has_no_seconds() {
    let expected = DateTime {
        date: Date { year: 2004, month: 5, day: 1 },
        hour: 11,
        minute: 35,
        second: 0,
        nanosecond: 0,
    };
    assert_eq!(datetime_12(b"200405011135", 0), Ok((12, expected)));
    assert_eq!(datetime_12(b"20040501113500", 0), Ok((12, expected)));
    assert_eq!(datetime_12(b"200405012435", 0), Err(temporal(0)));
    assert_eq!(datetime_12(b"200405011160", 0), Err(temporal(0)));
    assert_eq!(datetime_12(b"20040501113", 0), Err(lexical(0)));
}

#[test]
fn datetimes_agree_with_chrono_on_times_of_day() {
    for hour in [0u32, 1, 11, 12, 23, 24, 25, 99] {
        for minute in [0u32, 1, 59, 60, 99] {
            let text = format!("20031220{:02}{:02}", hour, minute);
            let ours = datetime_12(text.as_bytes(), 0).ok().map(|(_, t)| t);
            assert_eq!(ours, chrono_datetime(&text, "%Y%m%d%H%M"), "{}", text);
            for second in [0u32, 1, 59, 60, 61, 99] {
                let text = format!("20031220{:02}{:02}{:02}", hour, minute, second);
                let ours = datetime_14(text.as_bytes(), 0).ok().map(|(_, t)| t);
                assert_eq!(ours, chrono_datetime(&text, "%Y%m%d%H%M%S"), "{}", text);
            }
        }
    }
}

#[test]
fn reading_decodes_the_whole_text_as_one_number() {
    assert_eq!(reading(b"1.111"), Some(1.111f64.to_bits()));
    assert_eq!(reading(b"10"), Some(10f64.to_bits()));
    assert_eq!(reading(b"-0.5"), Some((-0.5f64).to_bits()));
    assert_eq!(reading(b"+2.5e3"), Some(2500f64.to_bits()));
    assert_eq!(reading(b"18.023"), Some(18.023f64.to_bits()));
    assert_eq!(reading(b"0"), Some(0f64.to_bits()));
    assert_eq!(reading(b"-0"), Some((-0f64).to_bits()));
    assert_eq!(reading(b".5"), Some(0.5f64.to_bits()));
    assert_eq!(reading(b"5."), Some(5f64.to_bits()));
    assert_eq!(reading(b"inf"), Some(f64::INFINITY.to_bits()));
    assert_eq!(reading(b""), None);
    assert_eq!(reading(b"A"), None);
    assert_eq!(reading(b"1.2.3"), None);
    assert_eq!(reading(b"12K"), None);
    assert_eq!(reading(b"1e"), None);
    assert_eq!(reading(b" 1"), None);
    assert_eq!(reading(b"1 "), None);
    assert_eq!(reading(b"1,2"), None);
    assert_eq!(reading(b"infinity"), None);
    assert_eq!(reading(b"-inf"), None);
    assert_eq!(reading(b"+nan"), None);
}

#[test]
fn reading_of_not_a_number_is_a_nan() {
    let bits = reading(b"nan").unwrap();
    assert!(f64::from_bits(bits).is_nan());
    let bits = reading(b"NaN").unwrap();
    assert!(f64::from_bits(bits).is_nan());
}

#[test]
fn readings_agree_with_the_standard_parser() {
    for text in ["0", "1", "10", "1.5", "18.023", "001123.5", "1e3", "1E-3", "123456789012345678"] {
        let expected: f64 = text.parse().unwrap();
        assert_eq!(reading(text.as_bytes()), Some(expected.to_bits()), "{}", text);
    }
}

#[test]
fn line_of_counts_from_one() {
    let raw = b"ab\ncd\n\nef";
    assert_eq!(line_of(raw, 0), 1);
    assert_eq!(line_of(raw, 2), 1);
    assert_eq!(line_of(raw, 3), 2);
    assert_eq!(line_of(raw, 5), 2);
    assert_eq!(line_of(raw, 6), 3);
    assert_eq!(line_of(raw, 7), 4);
    assert_eq!(line_of(raw, 9), 4);
    assert_eq!(line_of(raw, 100), 4);
    assert_eq!(line_of(b"", 0), 1);
}

#[test]
fn line_of_agrees_with_located_spans() {
    let text = "100,NEM12\n200,x\n\n300\n900";
    for offset in 0..=text.len() {
        let span = LocatedSpan::new(text);
        let (rest, _) = take::<usize, LocatedSpan<&str>, nom::error::Error<LocatedSpan<&str>>>(
            offset,
        )(span)
        .unwrap();
        assert_eq!(rest.location_offset(), offset);
        assert_eq!(rest.location_line() as usize, line_of(text.as_bytes(), offset));
    }
}

#[test]
fn byte_classes_are_the_ascii_classes() {
    for b in 0..=255u8 {
        assert_eq!(Charset::Alpha.contains(b), b.is_ascii_alphabetic(), "{}", b);
        assert_eq!(Charset::Digit.contains(b), b.is_ascii_digit(), "{}", b);
        assert_eq!(Charset::Alphanumeric.contains(b), b.is_ascii_alphanumeric(), "{}", b);
        assert_eq!(Charset::Blank.contains(b), matches!(b, b' ' | b'\t' | b'\r' | b'\n'));
        assert_eq!(Charset::Space.contains(b), matches!(b, b' ' | b'\t' | b'\r'));
        assert_eq!(Charset::Newline.contains(b), b == b'\n');
        assert_eq!(Charset::Field.contains(b), b != b',' && b != b'\n');
        assert_eq!(Charset::Line.contains(b), b != b'\n');
    }
}

#[test]
fn blanks_and_separators_agree_with_nom() {
    for text in ["", " ", "\n", "\n\n\nx", " \t\r\n x", "x\n", "\r\n", "\t\t", "\n \n"] {
        let blanks = multispace0::<&str, nom::error::Error<&str>>(text).unwrap().0;
        let ours = nem_parser::charset::scan_run(text.as_bytes(), 0, Charset::Blank);
        assert_eq!(ours, text.len() - blanks.len(), "{:?}", text);
        let lines = many1_count(newline::<&str, nom::error::Error<&str>>)(text).ok();
        let separator = rec_separator(text.as_bytes(), 0).ok();
        assert_eq!(separator, lines.map(|(rest, count)| (text.len() - rest.len(), count)));
    }
}

#[test]
fn tokens_are_scanned_to_their_end() {
    assert_eq!(Token::Decimal.scan(b"12.5x", 0), 4);
    assert_eq!(Token::Decimal.scan(b"12.x", 0), 2);
    assert_eq!(Token::Decimal.scan(b"x12", 0), 0);
    assert_eq!(Token::Decimal.scan(b"x12", 1), 3);
    assert_eq!(Token::Decimal.scan(b"x12", 7), 7);
    assert_eq!(ALNUM.scan(b"ab1,c", 0), 3);
    assert_eq!(LETTERS.scan(b"ab1,c", 0), 2);
    assert_eq!(DIGITS.scan(b"ab1,c", 2), 3);
    assert_eq!(nem_parser::common::slot_empty(b"a,b", 1, b','), true);
    assert_eq!(nem_parser::common::slot_empty(b"a,b", 0, b','), false);
    assert_eq!(nem_parser::common::slot_empty(b"a\nb", 1, b','), true);
    assert_eq!(nem_parser::common::slot_empty(b"a,b", 3, b','), true);
    assert_eq!(nem_parser::common::digits_present(b"a123", 1, 3), true);
    assert_eq!(nem_parser::common::digits_present(b"a123", 1, 4), false);
    assert_eq!(nem_parser::common::digits_present(b"a123", 0, 2), false);
    assert_eq!(nem_parser::common::digits_present(b"a123", 9, 0), false);
    assert_eq!(nem_parser::common::digits_present(b"a123", 4, 0), true);
}
