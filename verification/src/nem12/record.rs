//! The six record kinds and their parsers. Each parser reads one record from
//! an offset of the input and answers with the offset behind the record's
//! last field; the line feed that ends the line is left unread.

use crate::calendar::{digits_value, Date, DateTime};
use crate::charset::{in_class, lemma_run_len, run_len, scan_run, Charset, COMMA, NEWLINE};
use crate::common::{
    bounded_at, date8_at, date_8, datetime_12, datetime_14, datetime_at, exact_at,
    lemma_tokens_end_inside, optional_at, optional_field, section_of_exact_length,
    section_of_max_length, Token,
};
use crate::error::{arity, lexical, structural, Fault, ParseError, RecordTag};
use crate::nem12::wellformed::{
    lemma_read_configuration_is_ok, lemma_read_event_is_ok, lemma_read_exchange_is_ok,
    lemma_read_header_is_ok, lemma_read_interval_data_is_ok,
};
use crate::number::{reading, reading_of};
use vstd::prelude::*;
use vstd::slice::slice_subrange;

verus! {

impl RecordTag {
    /// The first digit of the record's three-digit code; the other two are
    /// zeros.
    pub open spec fn lead(self) -> u8 {
        match self {
            RecordTag::Header => 49,
            RecordTag::NMIDataDetails => 50,
            RecordTag::IntervalData => 51,
            RecordTag::IntervalEvent => 52,
            RecordTag::B2BDetails => 53,
            RecordTag::EndOfData => 57,
        }
    }

    /// Gives the first digit of the record's code.
    pub fn leading(self) -> (b: u8)
        ensures
            b == self.lead(),
    {
        match self {
            RecordTag::Header => 49,
            RecordTag::NMIDataDetails => 50,
            RecordTag::IntervalData => 51,
            RecordTag::IntervalEvent => 52,
            RecordTag::B2BDetails => 53,
            RecordTag::EndOfData => 57,
        }
    }
}

/// Whether the three-digit code of `tag` stands at `p`.
pub open spec fn has_code(s: Seq<u8>, p: int, tag: RecordTag) -> bool {
    0 <= p && p + 3 <= s.len() && s[p] == tag.lead() && s[p + 1] == 48 && s[p + 2] == 48
}

/// The record kind whose code stands at `p`, if any.
pub open spec fn classify_at(s: Seq<u8>, p: int) -> Option<RecordTag> {
    if has_code(s, p, RecordTag::Header) {
        Some(RecordTag::Header)
    } else if has_code(s, p, RecordTag::NMIDataDetails) {
        Some(RecordTag::NMIDataDetails)
    } else if has_code(s, p, RecordTag::IntervalData) {
        Some(RecordTag::IntervalData)
    } else if has_code(s, p, RecordTag::IntervalEvent) {
        Some(RecordTag::IntervalEvent)
    } else if has_code(s, p, RecordTag::B2BDetails) {
        Some(RecordTag::B2BDetails)
    } else if has_code(s, p, RecordTag::EndOfData) {
        Some(RecordTag::EndOfData)
    } else {
        None
    }
}

/// The code of `tag` and a comma at `p`: the offset behind them, or a
/// structural fault at `p` that names `tag`.
pub open spec fn tag_at(s: Seq<u8>, p: int, tag: RecordTag) -> Result<int, Fault> {
    if has_code(s, p, tag) && p + 3 < s.len() && s[p + 3] == COMMA {
        Ok(p + 4)
    } else {
        Err(structural(p, tag))
    }
}

/// A comma at `p`: the offset behind it, or a lexical fault at `p`.
pub open spec fn comma_at(s: Seq<u8>, p: int) -> Result<int, Fault> {
    if 0 <= p < s.len() && s[p] == COMMA {
        Ok(p + 1)
    } else {
        Err(lexical(p))
    }
}

/// One of the two format tags, `NEM12` or `NEM13`, at `p`: the offset behind
/// it, or a lexical fault at `p`.
pub open spec fn format_at(s: Seq<u8>, p: int) -> Result<int, Fault> {
    if 0 <= p && p + 5 <= s.len() && s[p] == 78 && s[p + 1] == 69 && s[p + 2] == 77 && s[p + 3]
        == 49 && (s[p + 4] == 50 || s[p + 4] == 51) {
        Ok(p + 5)
    } else {
        Err(lexical(p))
    }
}

/// Tells which record kind's code stands at `start`.
pub fn classify(input: &[u8], start: usize) -> (r: Option<RecordTag>)
    ensures
        r == classify_at(input@, start as int),
{
    let len = input.len();
    if start > len || len - start < 3 || input[start + 1] != 48 || input[start + 2] != 48 {
        return None;
    }
    let lead = input[start];
    if lead == 49 {
        Some(RecordTag::Header)
    } else if lead == 50 {
        Some(RecordTag::NMIDataDetails)
    } else if lead == 51 {
        Some(RecordTag::IntervalData)
    } else if lead == 52 {
        Some(RecordTag::IntervalEvent)
    } else if lead == 53 {
        Some(RecordTag::B2BDetails)
    } else if lead == 57 {
        Some(RecordTag::EndOfData)
    } else {
        None
    }
}

/// Reads the code of `tag` and the comma behind it.
pub fn tag(input: &[u8], start: usize, kind: RecordTag) -> (r: Result<usize, ParseError>)
    ensures
        r matches Ok(next) ==> tag_at(input@, start as int, kind) == Ok::<int, Fault>(next as int),
        r matches Err(e) ==> tag_at(input@, start as int, kind) == Err::<int, Fault>(e@),
{
    let len = input.len();
    if start <= len && len - start >= 4 && input[start] == kind.leading() && input[start + 1]
        == 48 && input[start + 2] == 48 && input[start + 3] == COMMA {
        Ok(start + 4)
    } else {
        Err(ParseError::structural(start, kind))
    }
}

/// Reads one comma.
pub fn comma(input: &[u8], start: usize) -> (r: Result<usize, ParseError>)
    ensures
        r matches Ok(next) ==> comma_at(input@, start as int) == Ok::<int, Fault>(next as int),
        r matches Err(e) ==> comma_at(input@, start as int) == Err::<int, Fault>(e@),
{
    if start < input.len() && input[start] == COMMA {
        Ok(start + 1)
    } else {
        Err(ParseError::lexical(start))
    }
}

/// Reads one of the two format tags.
pub fn format<'a>(input: &'a [u8], start: usize) -> (r: Result<(usize, &'a [u8]), ParseError>)
    ensures
        r matches Ok((next, field)) ==> format_at(input@, start as int) == Ok::<int, Fault>(
            next as int,
        ) && field@ == input@.subrange(start as int, next as int),
        r matches Err(e) ==> format_at(input@, start as int) == Err::<int, Fault>(e@),
{
    let len = input.len();
    if start <= len && len - start >= 5 && input[start] == 78 && input[start + 1] == 69
        && input[start + 2] == 77 && input[start + 3] == 49 && (input[start + 4] == 50
        || input[start + 4] == 51) {
        Ok((start + 5, slice_subrange(input, start, start + 5)))
    } else {
        Err(ParseError::lexical(start))
    }
}

/// A run of letters and digits.
pub open spec fn alnum() -> Token {
    Token::Run(Charset::Alphanumeric)
}

/// A run of digits.
pub open spec fn digits() -> Token {
    Token::Run(Charset::Digit)
}

/// A run of letters.
pub open spec fn letters() -> Token {
    Token::Run(Charset::Alpha)
}

/// The header record (`100`): the format tag, when the file was made, and
/// the two participants.
#[derive(Clone, Copy, Debug)]
pub struct Header<'a> {
    pub format: &'a [u8],
    pub created: DateTime,
    pub from_participant: &'a [u8],
    pub to_participant: &'a [u8],
}

/// A header in mathematical form.
pub struct HeaderView {
    pub format: Seq<u8>,
    pub created: DateTime,
    pub from_participant: Seq<u8>,
    pub to_participant: Seq<u8>,
}

impl<'a> View for Header<'a> {
    type V = HeaderView;

    open spec fn view(&self) -> HeaderView {
        HeaderView {
            format: self.format@,
            created: self.created,
            from_participant: self.from_participant@,
            to_participant: self.to_participant@,
        }
    }
}

/// The header record at `p`: the tag `100`, a format tag, the creation time
/// as twelve digits, and two participants of one to ten letters and digits,
/// each field behind a comma. The first step that fails decides the fault.
#[verifier::opaque]
pub open spec fn header_at(s: Seq<u8>, p: int) -> Result<(int, HeaderView), Fault> {
    let tag = tag_at(s, p, RecordTag::Header);
    let format = format_at(s, tag->Ok_0);
    let c1 = comma_at(s, format->Ok_0);
    let created = datetime_at(s, c1->Ok_0, 12);
    let c2 = comma_at(s, created->Ok_0.0);
    let from = bounded_at(s, c2->Ok_0, alnum(), 10);
    let c3 = comma_at(s, from->Ok_0);
    let to = bounded_at(s, c3->Ok_0, alnum(), 10);
    if tag is Err {
        Err(tag->Err_0)
    } else if format is Err {
        Err(format->Err_0)
    } else if c1 is Err {
        Err(c1->Err_0)
    } else if created is Err {
        Err(created->Err_0)
    } else if c2 is Err {
        Err(c2->Err_0)
    } else if from is Err {
        Err(from->Err_0)
    } else if c3 is Err {
        Err(c3->Err_0)
    } else if to is Err {
        Err(to->Err_0)
    } else {
        Ok(
            (
                to->Ok_0,
                HeaderView {
                    format: s.subrange(tag->Ok_0, format->Ok_0),
                    created: created->Ok_0.1,
                    from_participant: s.subrange(c2->Ok_0, from->Ok_0),
                    to_participant: s.subrange(c3->Ok_0, to->Ok_0),
                },
            ),
        )
    }
}

impl<'a> Header<'a> {
    /// Makes a header of its four fields.
    pub fn new(
        format: &'a [u8],
        created: DateTime,
        from_participant: &'a [u8],
        to_participant: &'a [u8],
    ) -> (header: Self)
        ensures
            header.format == format,
            header.created == created,
            header.from_participant == from_participant,
            header.to_participant == to_participant,
    {
        Header { format, created, from_participant, to_participant }
    }

    /// Reads a header record at `start`.
    pub fn parse(input: &'a [u8], start: usize) -> (r: Result<(usize, Header<'a>), ParseError>)
        ensures
            r matches Ok((next, header)) ==> header_at(input@, start as int) == Ok::<
                (int, HeaderView),
                Fault,
            >((next as int, header@)) && header_ok(header@),
            r matches Err(e) ==> header_at(input@, start as int) == Err::<
                (int, HeaderView),
                Fault,
            >(e@),
    {
        proof {
            reveal(header_at);
            lemma_read_header_is_ok(input@, start as int);
        }
        let p = tag(input, start, RecordTag::Header)?;
        let (p, format) = format(input, p)?;
        let p = comma(input, p)?;
        let (p, created) = datetime_12(input, p)?;
        let p = comma(input, p)?;
        let (p, from_participant) = section_of_max_length(
            input,
            p,
            Token::Run(Charset::Alphanumeric),
            10,
        )?;
        let p = comma(input, p)?;
        let (p, to_participant) = section_of_max_length(
            input,
            p,
            Token::Run(Charset::Alphanumeric),
            10,
        )?;
        Ok((p, Header::new(format, created, from_participant, to_participant)))
    }
}

/// The text of a field together with the offset behind it.
pub open spec fn field_at(s: Seq<u8>, p: int, end: Result<int, Fault>) -> Result<
    (int, Seq<u8>),
    Fault,
> {
    match end {
        Ok(next) => Ok((next, s.subrange(p, next))),
        Err(fault) => Err(fault),
    }
}

/// The text of an optional field, if it is there.
pub open spec fn opt_bytes(field: Option<&[u8]>) -> Option<Seq<u8>> {
    match field {
        Some(bytes) => Some(bytes@),
        None => None,
    }
}

/// The interval event record (`400`): a range of intervals of the day and
/// the quality of their readings.
#[derive(Clone, Copy, Debug)]
pub struct IntervalEvent<'a> {
    pub start_interval: &'a [u8],
    pub end_interval: &'a [u8],
    pub quality_method: &'a [u8],
    pub reason_code: Option<&'a [u8]>,
    pub reason_description: Option<&'a [u8]>,
}

/// An interval event in mathematical form.
pub struct IntervalEventView {
    pub start_interval: Seq<u8>,
    pub end_interval: Seq<u8>,
    pub quality_method: Seq<u8>,
    pub reason_code: Option<Seq<u8>>,
    pub reason_description: Option<Seq<u8>>,
}

impl<'a> View for IntervalEvent<'a> {
    type V = IntervalEventView;

    open spec fn view(&self) -> IntervalEventView {
        IntervalEventView {
            start_interval: self.start_interval@,
            end_interval: self.end_interval@,
            quality_method: self.quality_method@,
            reason_code: opt_bytes(self.reason_code),
            reason_description: opt_bytes(self.reason_description),
        }
    }
}

/// The interval event record at `p`: the tag `400`, the first and the last
/// interval as one to four digits each, a quality method of one to three
/// letters and digits, an optional reason code of one to three digits, and
/// an optional description of one to twenty-four letters and digits that
/// ends the line. The first step that fails decides the fault.
#[verifier::opaque]
pub open spec fn interval_event_at(s: Seq<u8>, p: int) -> Result<(int, IntervalEventView), Fault> {
    let tag = tag_at(s, p, RecordTag::IntervalEvent);
    let start = bounded_at(s, tag->Ok_0, digits(), 4);
    let c1 = comma_at(s, start->Ok_0);
    let end = bounded_at(s, c1->Ok_0, digits(), 4);
    let c2 = comma_at(s, end->Ok_0);
    let quality = bounded_at(s, c2->Ok_0, alnum(), 3);
    let c3 = comma_at(s, quality->Ok_0);
    let code = optional_at(
        field_at(s, c3->Ok_0, bounded_at(s, c3->Ok_0, digits(), 3)),
        s,
        c3->Ok_0,
        COMMA,
    );
    let c4 = comma_at(s, code->Ok_0.0);
    let text = optional_at(
        field_at(s, c4->Ok_0, bounded_at(s, c4->Ok_0, alnum(), 24)),
        s,
        c4->Ok_0,
        NEWLINE,
    );
    if tag is Err {
        Err(tag->Err_0)
    } else if start is Err {
        Err(start->Err_0)
    } else if c1 is Err {
        Err(c1->Err_0)
    } else if end is Err {
        Err(end->Err_0)
    } else if c2 is Err {
        Err(c2->Err_0)
    } else if quality is Err {
        Err(quality->Err_0)
    } else if c3 is Err {
        Err(c3->Err_0)
    } else if code is Err {
        Err(code->Err_0)
    } else if c4 is Err {
        Err(c4->Err_0)
    } else if text is Err {
        Err(text->Err_0)
    } else {
        Ok(
            (
                text->Ok_0.0,
                IntervalEventView {
                    start_interval: s.subrange(tag->Ok_0, start->Ok_0),
                    end_interval: s.subrange(c1->Ok_0, end->Ok_0),
                    quality_method: s.subrange(c2->Ok_0, quality->Ok_0),
                    reason_code: code->Ok_0.1,
                    reason_description: text->Ok_0.1,
                },
            ),
        )
    }
}

impl<'a> IntervalEvent<'a> {
    /// Reads an interval event record at `start`.
    pub fn parse(input: &'a [u8], start: usize) -> (r: Result<
        (usize, IntervalEvent<'a>),
        ParseError,
    >)
        ensures
            r matches Ok((next, event)) ==> interval_event_at(input@, start as int) == Ok::<
                (int, IntervalEventView),
                Fault,
            >((next as int, event@)) && event_ok(event@),
            r matches Err(e) ==> interval_event_at(input@, start as int) == Err::<
                (int, IntervalEventView),
                Fault,
            >(e@),
    {
        interval_event(input, start)
    }
}

fn interval_event<'a>(input: &'a [u8], start: usize) -> (r: Result<
    (usize, IntervalEvent<'a>),
    ParseError,
>)
    ensures
        r matches Ok((next, event)) ==> interval_event_at(input@, start as int) == Ok::<
            (int, IntervalEventView),
            Fault,
        >((next as int, event@)) && event_ok(event@),
        r matches Err(e) ==> interval_event_at(input@, start as int) == Err::<
            (int, IntervalEventView),
            Fault,
        >(e@),
{
    proof {
        reveal(interval_event_at);
        lemma_read_event_is_ok(input@, start as int);
    }
    let p = tag(input, start, RecordTag::IntervalEvent)?;
    let (p, start_interval) = section_of_max_length(input, p, Token::Run(Charset::Digit), 4)?;
    let p = comma(input, p)?;
    let (p, end_interval) = section_of_max_length(input, p, Token::Run(Charset::Digit), 4)?;
    let p = comma(input, p)?;
    let (p, quality_method) = section_of_max_length(
        input,
        p,
        Token::Run(Charset::Alphanumeric),
        3,
    )?;
    let p = comma(input, p)?;
    let (p, reason_code) = optional_field(
        section_of_max_length(input, p, Token::Run(Charset::Digit), 3),
        input,
        p,
        COMMA,
    )?;
    let p = comma(input, p)?;
    let (p, reason_description) = optional_field(
        section_of_max_length(input, p, Token::Run(Charset::Alphanumeric), 24),
        input,
        p,
        NEWLINE,
    )?;
    Ok(
        (
            p,
            IntervalEvent {
                start_interval,
                end_interval,
                quality_method,
                reason_code,
                reason_description,
            },
        ),
    )
}

/// The exchange record (`500`): a read that two participants exchanged.
#[derive(Clone, Copy, Debug)]
pub struct B2BDetails<'a> {
    pub trans_code: &'a [u8],
    pub ret_service_order: &'a [u8],
    pub read_datetime: DateTime,
    pub index_read: &'a [u8],
}

/// An exchange record in mathematical form.
pub struct B2BDetailsView {
    pub trans_code: Seq<u8>,
    pub ret_service_order: Seq<u8>,
    pub read_datetime: DateTime,
    pub index_read: Seq<u8>,
}

impl<'a> View for B2BDetails<'a> {
    type V = B2BDetailsView;

    open spec fn view(&self) -> B2BDetailsView {
        B2BDetailsView {
            trans_code: self.trans_code@,
            ret_service_order: self.ret_service_order@,
            read_datetime: self.read_datetime,
            index_read: self.index_read@,
        }
    }
}

/// The exchange record at `p`: the tag `500`, a transaction code of one
/// letter, a service order of one to fifteen letters and digits, the time of
/// the read as fourteen digits, and the index read, a decimal number of at
/// most fifteen bytes. The first step that fails decides the fault.
#[verifier::opaque]
pub open spec fn b2b_details_at(s: Seq<u8>, p: int) -> Result<(int, B2BDetailsView), Fault> {
    let tag = tag_at(s, p, RecordTag::B2BDetails);
    let code = exact_at(s, tag->Ok_0, letters(), 1);
    let c1 = comma_at(s, code->Ok_0);
    let order = bounded_at(s, c1->Ok_0, alnum(), 15);
    let c2 = comma_at(s, order->Ok_0);
    let read = datetime_at(s, c2->Ok_0, 14);
    let c3 = comma_at(s, read->Ok_0.0);
    let index = bounded_at(s, c3->Ok_0, Token::Decimal, 15);
    if tag is Err {
        Err(tag->Err_0)
    } else if code is Err {
        Err(code->Err_0)
    } else if c1 is Err {
        Err(c1->Err_0)
    } else if order is Err {
        Err(order->Err_0)
    } else if c2 is Err {
        Err(c2->Err_0)
    } else if read is Err {
        Err(read->Err_0)
    } else if c3 is Err {
        Err(c3->Err_0)
    } else if index is Err {
        Err(index->Err_0)
    } else {
        Ok(
            (
                index->Ok_0,
                B2BDetailsView {
                    trans_code: s.subrange(tag->Ok_0, code->Ok_0),
                    ret_service_order: s.subrange(c1->Ok_0, order->Ok_0),
                    read_datetime: read->Ok_0.1,
                    index_read: s.subrange(c3->Ok_0, index->Ok_0),
                },
            ),
        )
    }
}

impl<'a> B2BDetails<'a> {
    /// Reads an exchange record at `start`.
    pub fn parse(input: &'a [u8], start: usize) -> (r: Result<(usize, B2BDetails<'a>), ParseError>)
        ensures
            r matches Ok((next, details)) ==> b2b_details_at(input@, start as int) == Ok::<
                (int, B2BDetailsView),
                Fault,
            >((next as int, details@)) && exchange_ok(details@),
            r matches Err(e) ==> b2b_details_at(input@, start as int) == Err::<
                (int, B2BDetailsView),
                Fault,
            >(e@),
    {
        b2b_details(input, start)
    }
}

fn b2b_details<'a>(input: &'a [u8], start: usize) -> (r: Result<
    (usize, B2BDetails<'a>),
    ParseError,
>)
    ensures
        r matches Ok((next, details)) ==> b2b_details_at(input@, start as int) == Ok::<
            (int, B2BDetailsView),
            Fault,
        >((next as int, details@)) && exchange_ok(details@),
        r matches Err(e) ==> b2b_details_at(input@, start as int) == Err::<
            (int, B2BDetailsView),
            Fault,
        >(e@),
{
    proof {
        reveal(b2b_details_at);
        lemma_read_exchange_is_ok(input@, start as int);
    }
    let p = tag(input, start, RecordTag::B2BDetails)?;
    let (p, trans_code) = section_of_exact_length(input, p, Token::Run(Charset::Alpha), 1)?;
    let p = comma(input, p)?;
    let (p, ret_service_order) = section_of_max_length(
        input,
        p,
        Token::Run(Charset::Alphanumeric),
        15,
    )?;
    let p = comma(input, p)?;
    let (p, read_datetime) = datetime_14(input, p)?;
    let p = comma(input, p)?;
    let (p, index_read) = section_of_max_length(input, p, Token::Decimal, 15)?;
    Ok((p, B2BDetails { trans_code, ret_service_order, read_datetime, index_read }))
}

/// The terminal marker (`900`).
#[derive(Clone, Copy, Debug, PartialEq, Eq, Structural)]
pub struct EndOfData {}

/// The terminal marker at `p`: the code `900` and any blanks behind it, or a
/// structural fault at `p`.
pub open spec fn end_of_data_at(s: Seq<u8>, p: int) -> Result<int, Fault> {
    if has_code(s, p, RecordTag::EndOfData) {
        Ok(p + 3 + run_len(s, p + 3, Charset::Blank))
    } else {
        Err(structural(p, RecordTag::EndOfData))
    }
}

impl EndOfData {
    /// Reads the terminal marker at `start` and the blanks, line feeds
    /// among them, that follow it.
    pub fn parse(input: &[u8], start: usize) -> (r: Result<(usize, EndOfData), ParseError>)
        ensures
            r matches Ok((next, _)) ==> end_of_data_at(input@, start as int) == Ok::<int, Fault>(
                next as int,
            ),
            r matches Err(e) ==> end_of_data_at(input@, start as int) == Err::<int, Fault>(e@),
    {
        end_of_data(input, start)
    }
}

fn end_of_data(input: &[u8], start: usize) -> (r: Result<(usize, EndOfData), ParseError>)
    ensures
        r matches Ok((next, _)) ==> end_of_data_at(input@, start as int) == Ok::<int, Fault>(
            next as int,
        ),
        r matches Err(e) ==> end_of_data_at(input@, start as int) == Err::<int, Fault>(e@),
{
    let len = input.len();
    if start <= len && len - start >= 3 && input[start] == 57 && input[start + 1] == 48
        && input[start + 2] == 48 {
        let next = scan_run(input, start + 3, Charset::Blank);
        Ok((next, EndOfData {  }))
    } else {
        Err(ParseError::structural(start, RecordTag::EndOfData))
    }
}

/// One reading at `p`: a comma, then the text up to the next comma or line
/// feed, all of which must be one number. The reading's bit pattern and the
/// offset behind it, or an arity fault where no reading stands.
pub open spec fn value_at(s: Seq<u8>, p: int) -> Result<(int, u64), Fault> {
    if 0 <= p < s.len() && s[p] == COMMA {
        let end = p + 1 + run_len(s, p + 1, Charset::Field);
        match reading_of(s.subrange(p + 1, end)) {
            Some(bits) => Ok((end, bits)),
            None => Err(arity(p + 1)),
        }
    } else {
        Err(arity(p))
    }
}

/// `count` readings in a row from `p` on, appended to `found`.
pub open spec fn values_at(s: Seq<u8>, p: int, count: nat, found: Seq<u64>) -> Result<
    (int, Seq<u64>),
    Fault,
>
    decreases count,
{
    if count == 0 {
        Ok((p, found))
    } else {
        match value_at(s, p) {
            Ok((next, bits)) => values_at(s, next, (count - 1) as nat, found.push(bits)),
            Err(fault) => Err(fault),
        }
    }
}

/// The quality method of an interval data record at `p`: one to three
/// letters. Where a number stands there instead, the record holds more
/// readings than its block allows, which is an arity fault; anything else is
/// a lexical fault.
pub open spec fn quality_at(s: Seq<u8>, p: int) -> Result<int, Fault> {
    match bounded_at(s, p, letters(), 3) {
        Ok(next) => Ok(next),
        Err(_) => if 0 <= p <= s.len() && reading_of(
            s.subrange(p, p + run_len(s, p, Charset::Field)),
        ) is Some {
            Err(arity(p))
        } else {
            Err(lexical(p))
        },
    }
}

/// Parsing `count` readings gives `count` more than were found before.
pub proof fn lemma_values_at_len(s: Seq<u8>, p: int, count: nat, found: Seq<u64>)
    ensures
        values_at(s, p, count, found) matches Ok((_, values)) ==> values.len() == found.len()
            + count,
    decreases count,
{
    if count > 0 {
        if let Ok((next, bits)) = value_at(s, p) {
            lemma_values_at_len(s, next, (count - 1) as nat, found.push(bits));
        }
    }
}

/// The mathematical form of a list of interval events.
pub open spec fn events_view<'a>(events: Seq<IntervalEvent<'a>>) -> Seq<IntervalEventView> {
    events.map_values(|event: IntervalEvent<'a>| event@)
}

/// The interval data record (`300`): the readings of one day with their
/// quality, and the events that the following lines attach to them.
///
/// A reading is held as the bit pattern of its binary64 value.
#[derive(Clone, Debug)]
pub struct IntervalData<'a> {
    pub interval_date: Date,
    pub interval_value: Vec<u64>,
    pub quality_method: &'a [u8],
    pub reason_code: Option<&'a [u8]>,
    pub reason_description: Option<&'a [u8]>,
    pub update_datetime: DateTime,
    pub msats_load_datetime: Option<DateTime>,
    pub interval_events: Option<Vec<IntervalEvent<'a>>>,
}

/// Interval data in mathematical form.
pub struct IntervalDataView {
    pub interval_date: Date,
    pub interval_value: Seq<u64>,
    pub quality_method: Seq<u8>,
    pub reason_code: Option<Seq<u8>>,
    pub reason_description: Option<Seq<u8>>,
    pub update_datetime: DateTime,
    pub msats_load_datetime: Option<DateTime>,
    pub interval_events: Option<Seq<IntervalEventView>>,
}

impl<'a> View for IntervalData<'a> {
    type V = IntervalDataView;

    open spec fn view(&self) -> IntervalDataView {
        IntervalDataView {
            interval_date: self.interval_date,
            interval_value: self.interval_value@,
            quality_method: self.quality_method@,
            reason_code: opt_bytes(self.reason_code),
            reason_description: opt_bytes(self.reason_description),
            update_datetime: self.update_datetime,
            msats_load_datetime: self.msats_load_datetime,
            interval_events: match self.interval_events {
                Some(events) => Some(events_view(events@)),
                None => None,
            },
        }
    }
}

/// The interval data record at `p` in a block whose days have `capacity`
/// readings: the tag `300`, the day as eight digits, exactly `capacity`
/// readings, a quality method, an optional reason code of one to three
/// digits, an optional description of one to 240 letters and digits, the
/// time of the update as fourteen digits, and an optional load time of
/// fourteen digits that ends the line. The first step that fails decides the
/// fault. No events are attached yet.
#[verifier::opaque]
pub open spec fn interval_data_at(s: Seq<u8>, p: int, capacity: nat) -> Result<
    (int, IntervalDataView),
    Fault,
> {
    let tag = tag_at(s, p, RecordTag::IntervalData);
    let day = date8_at(s, tag->Ok_0);
    let values = values_at(s, day->Ok_0.0, capacity, Seq::empty());
    let c1 = comma_at(s, values->Ok_0.0);
    let quality = quality_at(s, c1->Ok_0);
    let c2 = comma_at(s, quality->Ok_0);
    let code = optional_at(
        field_at(s, c2->Ok_0, bounded_at(s, c2->Ok_0, digits(), 3)),
        s,
        c2->Ok_0,
        COMMA,
    );
    let c3 = comma_at(s, code->Ok_0.0);
    let text = optional_at(
        field_at(s, c3->Ok_0, bounded_at(s, c3->Ok_0, alnum(), 240)),
        s,
        c3->Ok_0,
        COMMA,
    );
    let c4 = comma_at(s, text->Ok_0.0);
    let update = datetime_at(s, c4->Ok_0, 14);
    let c5 = comma_at(s, update->Ok_0.0);
    let load = optional_at(datetime_at(s, c5->Ok_0, 14), s, c5->Ok_0, NEWLINE);
    if tag is Err {
        Err(tag->Err_0)
    } else if day is Err {
        Err(day->Err_0)
    } else if values is Err {
        Err(values->Err_0)
    } else if c1 is Err {
        Err(c1->Err_0)
    } else if quality is Err {
        Err(quality->Err_0)
    } else if c2 is Err {
        Err(c2->Err_0)
    } else if code is Err {
        Err(code->Err_0)
    } else if c3 is Err {
        Err(c3->Err_0)
    } else if text is Err {
        Err(text->Err_0)
    } else if c4 is Err {
        Err(c4->Err_0)
    } else if update is Err {
        Err(update->Err_0)
    } else if c5 is Err {
        Err(c5->Err_0)
    } else if load is Err {
        Err(load->Err_0)
    } else {
        Ok(
            (
                load->Ok_0.0,
                IntervalDataView {
                    interval_date: day->Ok_0.1,
                    interval_value: values->Ok_0.1,
                    quality_method: s.subrange(c1->Ok_0, quality->Ok_0),
                    reason_code: code->Ok_0.1,
                    reason_description: text->Ok_0.1,
                    update_datetime: update->Ok_0.1,
                    msats_load_datetime: load->Ok_0.1,
                    interval_events: None,
                },
            ),
        )
    }
}

/// Reads one reading: a comma and a number that fills the field.
pub fn value(input: &[u8], start: usize) -> (r: Result<(usize, u64), ParseError>)
    ensures
        r matches Ok((next, bits)) ==> value_at(input@, start as int) == Ok::<(int, u64), Fault>(
            (next as int, bits),
        ),
        r matches Err(e) ==> value_at(input@, start as int) == Err::<(int, u64), Fault>(e@),
{
    if start < input.len() && input[start] == COMMA {
        let end = scan_run(input, start + 1, Charset::Field);
        match reading(slice_subrange(input, start + 1, end)) {
            Some(bits) => Ok((end, bits)),
            None => Err(ParseError::arity(start + 1)),
        }
    } else {
        Err(ParseError::arity(start))
    }
}

/// Reads `count` readings in a row.
pub fn values(input: &[u8], start: usize, count: usize) -> (r: Result<
    (usize, Vec<u64>),
    ParseError,
>)
    ensures
        r matches Ok((next, found)) ==> values_at(
            input@,
            start as int,
            count as nat,
            Seq::empty(),
        ) == Ok::<(int, Seq<u64>), Fault>((next as int, found@)) && found@.len() == count,
        r matches Err(e) ==> values_at(input@, start as int, count as nat, Seq::empty()) == Err::<
            (int, Seq<u64>),
            Fault,
        >(e@),
{
    let mut found: Vec<u64> = Vec::new();
    let mut p: usize = start;
    let mut i: usize = 0;
    while i < count
        invariant
            i <= count,
            found@.len() == i,
            values_at(input@, start as int, count as nat, Seq::empty()) == values_at(
                input@,
                p as int,
                (count - i) as nat,
                found@,
            ),
        decreases count - i,
    {
        match value(input, p) {
            Ok((next, bits)) => {
                found.push(bits);
                p = next;
            },
            Err(e) => {
                return Err(e);
            },
        }
        i = i + 1;
    }
    Ok((p, found))
}

/// Reads the quality method of an interval data record.
pub fn quality<'a>(input: &'a [u8], start: usize) -> (r: Result<(usize, &'a [u8]), ParseError>)
    ensures
        r matches Ok((next, field)) ==> quality_at(input@, start as int) == Ok::<int, Fault>(
            next as int,
        ) && field@ == input@.subrange(start as int, next as int),
        r matches Err(e) ==> quality_at(input@, start as int) == Err::<int, Fault>(e@),
{
    match section_of_max_length(input, start, Token::Run(Charset::Alpha), 3) {
        Ok(found) => Ok(found),
        Err(_) => {
            if start <= input.len() {
                let end = scan_run(input, start, Charset::Field);
                if reading(slice_subrange(input, start, end)).is_some() {
                    return Err(ParseError::arity(start));
                }
            }
            Err(ParseError::lexical(start))
        },
    }
}

impl<'a> IntervalData<'a> {
    /// Reads an interval data record at `start`, in a block whose days have
    /// `capacity` readings.
    pub fn parse(capacity: usize, input: &'a [u8], start: usize) -> (r: Result<
        (usize, IntervalData<'a>),
        ParseError,
    >)
        ensures
            r matches Ok((next, data)) ==> interval_data_at(
                input@,
                start as int,
                capacity as nat,
            ) == Ok::<(int, IntervalDataView), Fault>((next as int, data@))
                && data.interval_events is None && interval_data_ok(data@, capacity as nat),
            r matches Err(e) ==> interval_data_at(input@, start as int, capacity as nat) == Err::<
                (int, IntervalDataView),
                Fault,
            >(e@),
    {
        interval_data(capacity, input, start)
    }
}

fn interval_data<'a>(capacity: usize, input: &'a [u8], start: usize) -> (r: Result<
    (usize, IntervalData<'a>),
    ParseError,
>)
    ensures
        r matches Ok((next, data)) ==> interval_data_at(input@, start as int, capacity as nat)
            == Ok::<(int, IntervalDataView), Fault>((next as int, data@))
            && data.interval_events is None && interval_data_ok(data@, capacity as nat),
        r matches Err(e) ==> interval_data_at(input@, start as int, capacity as nat) == Err::<
            (int, IntervalDataView),
            Fault,
        >(e@),
{
    proof {
        reveal(interval_data_at);
        lemma_read_interval_data_is_ok(input@, start as int, capacity as nat);
    }
    let p = tag(input, start, RecordTag::IntervalData)?;
    let (p, interval_date) = date_8(input, p)?;
    let (p, interval_value) = values(input, p, capacity)?;
    let p = comma(input, p)?;
    let (p, quality_method) = quality(input, p)?;
    let p = comma(input, p)?;
    let (p, reason_code) = optional_field(
        section_of_max_length(input, p, Token::Run(Charset::Digit), 3),
        input,
        p,
        COMMA,
    )?;
    let p = comma(input, p)?;
    let (p, reason_description) = optional_field(
        section_of_max_length(input, p, Token::Run(Charset::Alphanumeric), 240),
        input,
        p,
        COMMA,
    )?;
    let p = comma(input, p)?;
    let (p, update_datetime) = datetime_14(input, p)?;
    let p = comma(input, p)?;
    let (p, msats_load_datetime) = optional_field(datetime_14(input, p), input, p, NEWLINE)?;
    Ok(
        (
            p,
            IntervalData {
                interval_date,
                interval_value,
                quality_method,
                reason_code,
                reason_description,
                update_datetime,
                msats_load_datetime,
                interval_events: None,
            },
        ),
    )
}

/// The mathematical form of a list of interval data records.
pub open spec fn intervals_view<'a>(intervals: Seq<IntervalData<'a>>) -> Seq<IntervalDataView> {
    intervals.map_values(|data: IntervalData<'a>| data@)
}

/// The mathematical form of a list of exchange records.
pub open spec fn exchanges_view<'a>(exchanges: Seq<B2BDetails<'a>>) -> Seq<B2BDetailsView> {
    exchanges.map_values(|details: B2BDetails<'a>| details@)
}

/// The meter configuration record (`200`), which opens a block: the meter,
/// one of its registers, the length of its intervals in minutes, and then
/// the interval data and the exchange records that the block holds.
#[derive(Clone, Debug)]
pub struct NMIDataDetails<'a> {
    pub nmi: &'a [u8],
    pub nmi_configuration: &'a [u8],
    pub register_id: &'a [u8],
    pub nmi_suffix: &'a [u8],
    pub mdm_data_stream_id: Option<&'a [u8]>,
    pub meter_serial_number: &'a [u8],
    pub uom: &'a [u8],
    pub interval_length: usize,
    pub next_scheduled_read_date: Option<Date>,
    pub interval_data_vec: Option<Vec<IntervalData<'a>>>,
    pub b2b_details: Option<Vec<B2BDetails<'a>>>,
}

/// A meter configuration with its block in mathematical form.
pub struct NMIDataDetailsView {
    pub nmi: Seq<u8>,
    pub nmi_configuration: Seq<u8>,
    pub register_id: Seq<u8>,
    pub nmi_suffix: Seq<u8>,
    pub mdm_data_stream_id: Option<Seq<u8>>,
    pub meter_serial_number: Seq<u8>,
    pub uom: Seq<u8>,
    pub interval_length: nat,
    pub next_scheduled_read_date: Option<Date>,
    pub interval_data_vec: Option<Seq<IntervalDataView>>,
    pub b2b_details: Option<Seq<B2BDetailsView>>,
}

impl<'a> View for NMIDataDetails<'a> {
    type V = NMIDataDetailsView;

    open spec fn view(&self) -> NMIDataDetailsView {
        NMIDataDetailsView {
            nmi: self.nmi@,
            nmi_configuration: self.nmi_configuration@,
            register_id: self.register_id@,
            nmi_suffix: self.nmi_suffix@,
            mdm_data_stream_id: opt_bytes(self.mdm_data_stream_id),
            meter_serial_number: self.meter_serial_number@,
            uom: self.uom@,
            interval_length: self.interval_length as nat,
            next_scheduled_read_date: self.next_scheduled_read_date,
            interval_data_vec: match self.interval_data_vec {
                Some(intervals) => Some(intervals_view(intervals@)),
                None => None,
            },
            b2b_details: match self.b2b_details {
                Some(exchanges) => Some(exchanges_view(exchanges@)),
                None => None,
            },
        }
    }
}

/// The meter configuration record at `p`: the tag `200`, a meter identifier
/// of exactly ten letters and digits, a configuration of one to 240, a
/// register of one to ten, a suffix of exactly two, an optional data stream
/// of exactly two, a meter serial of one to twelve, a unit of measure of one
/// to five, the interval length as exactly two digits, and an optional date
/// of the next scheduled read that ends the line. The first step that fails
/// decides the fault. Whether the interval length divides the day is not
/// asked here, and the block is still empty.
#[verifier::opaque]
pub open spec fn nmi_data_details_at(s: Seq<u8>, p: int) -> Result<
    (int, NMIDataDetailsView),
    Fault,
> {
    let tag = tag_at(s, p, RecordTag::NMIDataDetails);
    let nmi = exact_at(s, tag->Ok_0, alnum(), 10);
    let c1 = comma_at(s, nmi->Ok_0);
    let config = bounded_at(s, c1->Ok_0, alnum(), 240);
    let c2 = comma_at(s, config->Ok_0);
    let register = bounded_at(s, c2->Ok_0, alnum(), 10);
    let c3 = comma_at(s, register->Ok_0);
    let suffix = exact_at(s, c3->Ok_0, alnum(), 2);
    let c4 = comma_at(s, suffix->Ok_0);
    let stream = optional_at(
        field_at(s, c4->Ok_0, exact_at(s, c4->Ok_0, alnum(), 2)),
        s,
        c4->Ok_0,
        COMMA,
    );
    let c5 = comma_at(s, stream->Ok_0.0);
    let serial = bounded_at(s, c5->Ok_0, alnum(), 12);
    let c6 = comma_at(s, serial->Ok_0);
    let uom = bounded_at(s, c6->Ok_0, alnum(), 5);
    let c7 = comma_at(s, uom->Ok_0);
    let length = exact_at(s, c7->Ok_0, digits(), 2);
    let c8 = comma_at(s, length->Ok_0);
    let next_read = optional_at(date8_at(s, c8->Ok_0), s, c8->Ok_0, NEWLINE);
    if tag is Err {
        Err(tag->Err_0)
    } else if nmi is Err {
        Err(nmi->Err_0)
    } else if c1 is Err {
        Err(c1->Err_0)
    } else if config is Err {
        Err(config->Err_0)
    } else if c2 is Err {
        Err(c2->Err_0)
    } else if register is Err {
        Err(register->Err_0)
    } else if c3 is Err {
        Err(c3->Err_0)
    } else if suffix is Err {
        Err(suffix->Err_0)
    } else if c4 is Err {
        Err(c4->Err_0)
    } else if stream is Err {
        Err(stream->Err_0)
    } else if c5 is Err {
        Err(c5->Err_0)
    } else if serial is Err {
        Err(serial->Err_0)
    } else if c6 is Err {
        Err(c6->Err_0)
    } else if uom is Err {
        Err(uom->Err_0)
    } else if c7 is Err {
        Err(c7->Err_0)
    } else if length is Err {
        Err(length->Err_0)
    } else if c8 is Err {
        Err(c8->Err_0)
    } else if next_read is Err {
        Err(next_read->Err_0)
    } else {
        Ok(
            (
                next_read->Ok_0.0,
                NMIDataDetailsView {
                    nmi: s.subrange(tag->Ok_0, nmi->Ok_0),
                    nmi_configuration: s.subrange(c1->Ok_0, config->Ok_0),
                    register_id: s.subrange(c2->Ok_0, register->Ok_0),
                    nmi_suffix: s.subrange(c3->Ok_0, suffix->Ok_0),
                    mdm_data_stream_id: stream->Ok_0.1,
                    meter_serial_number: s.subrange(c5->Ok_0, serial->Ok_0),
                    uom: s.subrange(c6->Ok_0, uom->Ok_0),
                    interval_length: digits_value(s, c7->Ok_0, 2) as nat,
                    next_scheduled_read_date: next_read->Ok_0.1,
                    interval_data_vec: None,
                    b2b_details: None,
                },
            ),
        )
    }
}

/// Reads a number written as exactly two digits.
pub fn two_digits(input: &[u8], start: usize) -> (r: Result<(usize, usize), ParseError>)
    ensures
        r matches Ok((next, number)) ==> exact_at(input@, start as int, digits(), 2) == Ok::<
            int,
            Fault,
        >(next as int) && number == digits_value(input@, start as int, 2),
        r matches Err(e) ==> exact_at(input@, start as int, digits(), 2) == Err::<int, Fault>(e@),
{
    let (next, field) = section_of_exact_length(input, start, Token::Run(Charset::Digit), 2)?;
    proof {
        lemma_run_len(input@, start as int, Charset::Digit);
        reveal_with_fuel(digits_value, 3);
        assert(field@[0] == input@[start as int]);
        assert(field@[1] == input@[start + 1]);
    }
    let tens: usize = (field[0] - 48) as usize;
    let ones: usize = (field[1] - 48) as usize;
    Ok((next, tens * 10 + ones))
}

impl<'a> NMIDataDetails<'a> {
    /// Reads a meter configuration record at `start`. The block it opens
    /// comes back empty.
    pub fn parse(input: &'a [u8], start: usize) -> (r: Result<
        (usize, NMIDataDetails<'a>),
        ParseError,
    >)
        ensures
            r matches Ok((next, details)) ==> nmi_data_details_at(input@, start as int) == Ok::<
                (int, NMIDataDetailsView),
                Fault,
            >((next as int, details@)) && details.interval_data_vec is None
                && details.b2b_details is None && configuration_ok(details@),
            r matches Err(e) ==> nmi_data_details_at(input@, start as int) == Err::<
                (int, NMIDataDetailsView),
                Fault,
            >(e@),
    {
        proof {
            reveal(nmi_data_details_at);
            lemma_read_configuration_is_ok(input@, start as int);
        }
        let p = tag(input, start, RecordTag::NMIDataDetails)?;
        let (p, nmi) = section_of_exact_length(input, p, Token::Run(Charset::Alphanumeric), 10)?;
        let p = comma(input, p)?;
        let (p, nmi_configuration) = section_of_max_length(
            input,
            p,
            Token::Run(Charset::Alphanumeric),
            240,
        )?;
        let p = comma(input, p)?;
        let (p, register_id) = section_of_max_length(
            input,
            p,
            Token::Run(Charset::Alphanumeric),
            10,
        )?;
        let p = comma(input, p)?;
        let (p, nmi_suffix) = section_of_exact_length(
            input,
            p,
            Token::Run(Charset::Alphanumeric),
            2,
        )?;
        let p = comma(input, p)?;
        let (p, mdm_data_stream_id) = optional_field(
            section_of_exact_length(input, p, Token::Run(Charset::Alphanumeric), 2),
            input,
            p,
            COMMA,
        )?;
        let p = comma(input, p)?;
        let (p, meter_serial_number) = section_of_max_length(
            input,
            p,
            Token::Run(Charset::Alphanumeric),
            12,
        )?;
        let p = comma(input, p)?;
        let (p, uom) = section_of_max_length(input, p, Token::Run(Charset::Alphanumeric), 5)?;
        let p = comma(input, p)?;
        let (p, interval_length) = two_digits(input, p)?;
        let p = comma(input, p)?;
        let (p, next_scheduled_read_date) = optional_field(date_8(input, p), input, p, NEWLINE)?;
        Ok(
            (
                p,
                NMIDataDetails {
                    nmi,
                    nmi_configuration,
                    register_id,
                    nmi_suffix,
                    mdm_data_stream_id,
                    meter_serial_number,
                    uom,
                    interval_length,
                    next_scheduled_read_date,
                    interval_data_vec: None,
                    b2b_details: None,
                },
            ),
        )
    }
}

/// A record of any of the six kinds.
#[derive(Clone, Debug)]
pub enum Kind<'a> {
    Header(Header<'a>),
    NMIDataDetails(NMIDataDetails<'a>),
    IntervalData(IntervalData<'a>),
    IntervalEvent(IntervalEvent<'a>),
    B2BDetails(B2BDetails<'a>),
    EndOfData(EndOfData),
}

/// A record of any kind in mathematical form.
pub enum KindView {
    Header(HeaderView),
    NMIDataDetails(NMIDataDetailsView),
    IntervalData(IntervalDataView),
    IntervalEvent(IntervalEventView),
    B2BDetails(B2BDetailsView),
    EndOfData,
}

impl<'a> View for Kind<'a> {
    type V = KindView;

    open spec fn view(&self) -> KindView {
        match self {
            Kind::Header(header) => KindView::Header(header@),
            Kind::NMIDataDetails(details) => KindView::NMIDataDetails(details@),
            Kind::IntervalData(data) => KindView::IntervalData(data@),
            Kind::IntervalEvent(event) => KindView::IntervalEvent(event@),
            Kind::B2BDetails(details) => KindView::B2BDetails(details@),
            Kind::EndOfData(_) => KindView::EndOfData,
        }
    }
}

/// A header record lies inside the text and is not empty.
pub proof fn lemma_header_bounds(s: Seq<u8>, p: int)
    requires
        0 <= p,
    ensures
        header_at(s, p) matches Ok((next, _)) ==> p < next <= s.len(),
{
    reveal(header_at);
    lemma_tokens_end_inside(s, alnum());
}

/// A meter configuration record lies inside the text and is not empty.
pub proof fn lemma_nmi_data_details_bounds(s: Seq<u8>, p: int)
    requires
        0 <= p,
    ensures
        nmi_data_details_at(s, p) matches Ok((next, _)) ==> p < next <= s.len(),
{
    reveal(nmi_data_details_at);
    lemma_tokens_end_inside(s, alnum());
    lemma_tokens_end_inside(s, digits());
}

/// Readings in a row lie inside the text.
pub proof fn lemma_values_bounds(s: Seq<u8>, p: int, count: nat, found: Seq<u64>)
    requires
        0 <= p <= s.len(),
    ensures
        values_at(s, p, count, found) matches Ok((next, _)) ==> p <= next <= s.len(),
    decreases count,
{
    if count > 0 {
        if let Ok((next, bits)) = value_at(s, p) {
            lemma_run_len(s, p + 1, Charset::Field);
            lemma_values_bounds(s, next, (count - 1) as nat, found.push(bits));
        }
    }
}

/// An interval data record lies inside the text and is not empty.
pub proof fn lemma_interval_data_bounds(s: Seq<u8>, p: int, capacity: nat)
    requires
        0 <= p,
    ensures
        interval_data_at(s, p, capacity) matches Ok((next, _)) ==> p < next <= s.len(),
{
    reveal(interval_data_at);
    lemma_tokens_end_inside(s, alnum());
    lemma_tokens_end_inside(s, digits());
    lemma_tokens_end_inside(s, letters());
    let tag = tag_at(s, p, RecordTag::IntervalData);
    let day = date8_at(s, tag->Ok_0);
    if tag is Ok && day is Ok {
        lemma_values_bounds(s, day->Ok_0.0, capacity, Seq::empty());
    }
}

/// An interval event record lies inside the text and is not empty.
pub proof fn lemma_interval_event_bounds(s: Seq<u8>, p: int)
    requires
        0 <= p,
    ensures
        interval_event_at(s, p) matches Ok((next, _)) ==> p < next <= s.len(),
{
    reveal(interval_event_at);
    lemma_tokens_end_inside(s, alnum());
    lemma_tokens_end_inside(s, digits());
}

/// An exchange record lies inside the text and is not empty.
pub proof fn lemma_b2b_details_bounds(s: Seq<u8>, p: int)
    requires
        0 <= p,
    ensures
        b2b_details_at(s, p) matches Ok((next, _)) ==> p < next <= s.len(),
{
    reveal(b2b_details_at);
    lemma_tokens_end_inside(s, alnum());
    lemma_tokens_end_inside(s, letters());
    lemma_tokens_end_inside(s, Token::Decimal);
}

/// Whether an optional field is absent, or of the class `set` and between
/// `min` and `max` bytes long.
pub open spec fn opt_in_class(field: Option<Seq<u8>>, set: Charset, min: nat, max: nat) -> bool {
    field matches Some(text) ==> in_class(text, set) && 1 <= min <= text.len() <= max
}

/// Whether an interval event keeps to the rules of its fields: each is of
/// its class and within its bound, and an optional field that is there is
/// not empty.
pub open spec fn event_ok(event: IntervalEventView) -> bool {
    &&& in_class(event.start_interval, Charset::Digit)
    &&& 1 <= event.start_interval.len() <= 4
    &&& in_class(event.end_interval, Charset::Digit)
    &&& 1 <= event.end_interval.len() <= 4
    &&& in_class(event.quality_method, Charset::Alphanumeric)
    &&& 1 <= event.quality_method.len() <= 3
    &&& opt_in_class(event.reason_code, Charset::Digit, 1, 3)
    &&& opt_in_class(event.reason_description, Charset::Alphanumeric, 1, 24)
}

/// Whether an exchange record keeps to the rules of its fields: each is of
/// its class and within its bound, the time of the read is valid, and the
/// index read is digits with at most one fraction.
pub open spec fn exchange_ok(details: B2BDetailsView) -> bool {
    &&& in_class(details.trans_code, Charset::Alpha)
    &&& details.trans_code.len() == 1
    &&& in_class(details.ret_service_order, Charset::Alphanumeric)
    &&& 1 <= details.ret_service_order.len() <= 15
    &&& details.read_datetime.is_valid()
    &&& 1 <= details.index_read.len() <= 15
    &&& Token::Decimal.len_at(details.index_read, 0) == details.index_read.len()
}

/// Whether a header keeps to the rules of its fields: one of the two format
/// tags, a valid creation time without seconds, and participants of one to
/// ten letters and digits.
pub open spec fn header_ok(header: HeaderView) -> bool {
    &&& header.format == seq![78u8, 69u8, 77u8, 49u8, 50u8] || header.format == seq![
        78u8,
        69u8,
        77u8,
        49u8,
        51u8,
    ]
    &&& header.created.is_valid()
    &&& header.created.second == 0
    &&& header.created.nanosecond == 0
    &&& in_class(header.from_participant, Charset::Alphanumeric)
    &&& 1 <= header.from_participant.len() <= 10
    &&& in_class(header.to_participant, Charset::Alphanumeric)
    &&& 1 <= header.to_participant.len() <= 10
}

/// Whether `text` writes the reading `bits`: a text without comma and line
/// feed that decodes, as a whole, to `bits`.
pub open spec fn is_reading_text(text: Seq<u8>, bits: u64) -> bool {
    in_class(text, Charset::Field) && reading_of(text) == Some(bits)
}

/// Whether some text writes the reading `bits`.
pub open spec fn can_be_written(bits: u64) -> bool {
    exists|text: Seq<u8>| is_reading_text(text, bits)
}

/// Whether an interval data record keeps to the rules of its fields, in a
/// block with the sample count `count`: exactly `count` readings, each
/// decoded from some text, valid dates and times, and texts of their class
/// and within their bound. The events are not looked at.
pub open spec fn interval_data_ok(data: IntervalDataView, count: nat) -> bool {
    &&& data.interval_date.is_valid()
    &&& data.interval_value.len() == count
    &&& forall|i: int| 0 <= i < data.interval_value.len() ==> can_be_written(
        #[trigger] data.interval_value[i],
    )
    &&& in_class(data.quality_method, Charset::Alpha)
    &&& 1 <= data.quality_method.len() <= 3
    &&& opt_in_class(data.reason_code, Charset::Digit, 1, 3)
    &&& opt_in_class(data.reason_description, Charset::Alphanumeric, 1, 240)
    &&& data.update_datetime.is_valid()
    &&& data.msats_load_datetime matches Some(time) ==> time.is_valid()
}

/// Whether a meter configuration keeps to the rules of its fields: each
/// text is of its class and of its length, the interval length has two
/// digits, and the date of the next read is valid. The block is not looked
/// at.
pub open spec fn configuration_ok(details: NMIDataDetailsView) -> bool {
    &&& in_class(details.nmi, Charset::Alphanumeric)
    &&& details.nmi.len() == 10
    &&& in_class(details.nmi_configuration, Charset::Alphanumeric)
    &&& 1 <= details.nmi_configuration.len() <= 240
    &&& in_class(details.register_id, Charset::Alphanumeric)
    &&& 1 <= details.register_id.len() <= 10
    &&& in_class(details.nmi_suffix, Charset::Alphanumeric)
    &&& details.nmi_suffix.len() == 2
    &&& opt_in_class(details.mdm_data_stream_id, Charset::Alphanumeric, 2, 2)
    &&& in_class(details.meter_serial_number, Charset::Alphanumeric)
    &&& 1 <= details.meter_serial_number.len() <= 12
    &&& in_class(details.uom, Charset::Alphanumeric)
    &&& 1 <= details.uom.len() <= 5
    &&& details.interval_length <= 99
    &&& details.next_scheduled_read_date matches Some(date) ==> date.is_valid()
}

} // verus!
