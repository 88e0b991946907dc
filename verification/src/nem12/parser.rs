//! Reading a file one line at a time.
//!
//! The reader classifies each line by its leading code and hands it to the
//! parser of that record kind. The one thing it carries from line to line is
//! the sample count that the last meter configuration declared, which the
//! interval data lines behind it need. Blank lines are passed over.

use crate::charset::{lemma_run_len, run_len, scan_run, Charset};
use crate::error::{lexical, structural, ErrorKind, Fault, ParseError, RecordTag};
use crate::nem12::record::{
    b2b_details_at, classify, classify_at, end_of_data_at, header_at, interval_data_at,
    interval_event_at, nmi_data_details_at, B2BDetails, EndOfData, Header, IntervalData,
    IntervalEvent, Kind, KindView, NMIDataDetails,
};
use crate::nem12::{indivisible, sample_count, sample_count_of, trailing};
use vstd::prelude::*;
use vstd::slice::slice_subrange;

verus! {

/// Why the reader could not hand out a record.
#[derive(Clone, Copy, Debug, PartialEq, Eq, Structural)]
pub enum LineError {
    /// The reader was asked for a line after it had reported the end of the
    /// input.
    Exhausted,
    /// The line with the 1-based number `line` holds no well-formed record.
    /// The offset of `error` counts from the start of that line.
    Malformed { line: usize, error: ParseError },
}

impl LineError {
    /// The text of the failure's message.
    pub open spec fn message_text(self) -> Seq<char> {
        match self {
            LineError::Exhausted => "Error: parser consumed all input"@,
            LineError::Malformed { .. } => "Error parsing line: "@,
        }
    }

    /// The number of the line that failed; zero where no line was read.
    pub open spec fn line_number(self) -> usize {
        match self {
            LineError::Exhausted => 0,
            LineError::Malformed { line, .. } => line,
        }
    }

    /// Gives the failure's message.
    pub fn message(&self) -> (text: &'static str)
        ensures
            text@ == self.message_text(),
    {
        match self {
            LineError::Exhausted => "Error: parser consumed all input",
            LineError::Malformed { .. } => "Error parsing line: ",
        }
    }

    /// Gives the number of the line that failed; zero where no line was
    /// read.
    pub fn line(&self) -> (line: usize)
        ensures
            line == self.line_number(),
    {
        match self {
            LineError::Exhausted => 0,
            LineError::Malformed { line, .. } => *line,
        }
    }
}

/// The offset where the line that starts at `p` stops: at its line feed, or
/// at the end of the text.
pub open spec fn line_stop(s: Seq<u8>, p: int) -> int {
    p + run_len(s, p, Charset::Line)
}

/// The offset behind the content of the line that starts at `p`. A carriage
/// return just before the line feed belongs to the line ending.
pub open spec fn content_end(s: Seq<u8>, p: int) -> int {
    let stop = line_stop(s, p);
    if p < stop < s.len() && s[stop - 1] == 13 {
        stop - 1
    } else {
        stop
    }
}

/// The offset where the line behind the one that starts at `p` starts.
pub open spec fn after_line(s: Seq<u8>, p: int) -> int {
    let stop = line_stop(s, p);
    if stop < s.len() {
        stop + 1
    } else {
        stop
    }
}

/// Whether the line that starts at `p` is blank: empty, or made of spaces,
/// tabs and carriage returns alone.
pub open spec fn is_blank_line(s: Seq<u8>, p: int) -> bool {
    p + run_len(s, p, Charset::Space) >= line_stop(s, p)
}

/// The start of the first line at or behind `p` that is not blank, and the
/// number of blank lines before it. Where only blank lines are left, the
/// offset is the end of the text.
pub open spec fn skip_blank_lines(s: Seq<u8>, p: int) -> (int, nat)
    decreases s.len() - p,
{
    if 0 <= p < s.len() && is_blank_line(s, p) {
        proof {
            lemma_run_len(s, p, Charset::Line);
        }
        let (start, skipped) = skip_blank_lines(s, after_line(s, p));
        (start, skipped + 1)
    } else {
        (p, 0)
    }
}

/// A record must fill its line: where it ends at `next` before the end of
/// `line`, the rest is a lexical fault.
pub open spec fn filling<T>(line: Seq<u8>, next: int, value: T) -> Result<T, Fault> {
    if next >= line.len() {
        Ok(value)
    } else {
        Err(lexical(next))
    }
}

/// What one line holds, given the sample count `ctx` that the last meter
/// configuration declared: the record of the kind that the line's leading
/// code names, which must fill the line, and the sample count to carry on.
///
/// A meter configuration whose interval length does not divide the day is a
/// divisibility fault. Interval data before any meter configuration is a
/// structural fault that names the meter configuration. A line without a
/// known code is a structural fault.
pub open spec fn line_record(line: Seq<u8>, ctx: Option<nat>) -> Result<
    (KindView, Option<nat>),
    Fault,
> {
    match classify_at(line, 0) {
        Some(RecordTag::Header) => match header_at(line, 0) {
            Ok((next, header)) => filling(line, next, (KindView::Header(header), ctx)),
            Err(fault) => Err(fault),
        },
        Some(RecordTag::NMIDataDetails) => match nmi_data_details_at(line, 0) {
            Ok((next, details)) => match sample_count_of(details.interval_length) {
                Some(count) => filling(
                    line,
                    next,
                    (KindView::NMIDataDetails(details), Some(count)),
                ),
                None => Err(indivisible(0)),
            },
            Err(fault) => Err(fault),
        },
        Some(RecordTag::IntervalData) => match ctx {
            Some(count) => match interval_data_at(line, 0, count) {
                Ok((next, data)) => filling(line, next, (KindView::IntervalData(data), ctx)),
                Err(fault) => Err(fault),
            },
            None => Err(structural(0, RecordTag::NMIDataDetails)),
        },
        Some(RecordTag::IntervalEvent) => match interval_event_at(line, 0) {
            Ok((next, event)) => filling(line, next, (KindView::IntervalEvent(event), ctx)),
            Err(fault) => Err(fault),
        },
        Some(RecordTag::B2BDetails) => match b2b_details_at(line, 0) {
            Ok((next, details)) => filling(line, next, (KindView::B2BDetails(details), ctx)),
            Err(fault) => Err(fault),
        },
        Some(RecordTag::EndOfData) => match end_of_data_at(line, 0) {
            Ok(next) => filling(line, next, (KindView::EndOfData, ctx)),
            Err(fault) => Err(fault),
        },
        None => Err(trailing(0)),
    }
}

/// Reads the record that `line` holds, given the sample count `ctx` of the
/// block it belongs to.
pub fn parse_record<'a>(line: &'a [u8], ctx: Option<usize>) -> (r: Result<
    (Kind<'a>, Option<usize>),
    ParseError,
>)
    ensures
        r matches Ok((kind, carried)) ==> line_record(line@, counts_view(ctx)) == Ok::<
            (KindView, Option<nat>),
            Fault,
        >((kind@, counts_view(carried))),
        r matches Err(e) ==> line_record(line@, counts_view(ctx)) == Err::<
            (KindView, Option<nat>),
            Fault,
        >(e@),
{
    let (next, kind, carried) = match classify(line, 0) {
        Some(RecordTag::Header) => {
            let (next, header) = Header::parse(line, 0)?;
            (next, Kind::Header(header), ctx)
        },
        Some(RecordTag::NMIDataDetails) => {
            let (next, details) = NMIDataDetails::parse(line, 0)?;
            match sample_count(details.interval_length) {
                Some(count) => (next, Kind::NMIDataDetails(details), Some(count)),
                None => {
                    return Err(
                        ParseError { kind: ErrorKind::Divisibility, expected: None, offset: 0 },
                    );
                },
            }
        },
        Some(RecordTag::IntervalData) => match ctx {
            Some(count) => {
                let (next, data) = IntervalData::parse(count, line, 0)?;
                (next, Kind::IntervalData(data), ctx)
            },
            None => {
                return Err(ParseError::structural(0, RecordTag::NMIDataDetails));
            },
        },
        Some(RecordTag::IntervalEvent) => {
            let (next, event) = IntervalEvent::parse(line, 0)?;
            (next, Kind::IntervalEvent(event), ctx)
        },
        Some(RecordTag::B2BDetails) => {
            let (next, details) = B2BDetails::parse(line, 0)?;
            (next, Kind::B2BDetails(details), ctx)
        },
        Some(RecordTag::EndOfData) => {
            let (next, end) = EndOfData::parse(line, 0)?;
            (next, Kind::EndOfData(end), ctx)
        },
        None => {
            return Err(ParseError { kind: ErrorKind::Structure, expected: None, offset: 0 });
        },
    };
    if next >= line.len() {
        Ok((kind, carried))
    } else {
        Err(ParseError::lexical(next))
    }
}

/// A sample count in mathematical form.
pub open spec fn counts_view(ctx: Option<usize>) -> Option<nat> {
    match ctx {
        Some(count) => Some(count as nat),
        None => None,
    }
}

/// The state of a reader in mathematical form.
pub struct ParserView {
    /// The whole input.
    pub text: Seq<u8>,
    /// The offset where the next unread line starts.
    pub cursor: int,
    /// The number of lines read so far.
    pub line_no: nat,
    /// Whether the end of the input has been reported.
    pub finished: bool,
    /// The sample count that the last meter configuration declared.
    pub ctx: Option<nat>,
}

/// A reader that hands out the records of a file line by line.
pub struct Parser<'a> {
    src: &'a [u8],
    cursor: usize,
    line_no: usize,
    finished: bool,
    ctx: Option<usize>,
}

impl<'a> View for Parser<'a> {
    type V = ParserView;

    closed spec fn view(&self) -> ParserView {
        ParserView {
            text: self.src@,
            cursor: self.cursor as int,
            line_no: self.line_no as nat,
            finished: self.finished,
            ctx: counts_view(self.ctx),
        }
    }
}

impl<'a> Parser<'a> {
    #[verifier::type_invariant]
    spec fn well_formed(self) -> bool {
        self.line_no <= self.cursor <= self.src@.len()
    }

    /// Makes a reader at the first line of `src`.
    pub fn new(src: &'a [u8]) -> (parser: Self)
        ensures
            parser@ == (ParserView {
                text: src@,
                cursor: 0,
                line_no: 0,
                finished: false,
                ctx: None,
            }),
    {
        Parser { src, cursor: 0, line_no: 0, finished: false, ctx: None }
    }

    /// Reads the next line that is not blank and hands out the record it
    /// holds.
    ///
    /// At the end of the input the reader answers once with no record, and
    /// from then on with a failure. A line that holds no well-formed record
    /// is consumed and reported with its number; the sample count carried
    /// over stays as it was.
    pub fn parse_line(&mut self) -> (r: Result<Option<Kind<'a>>, LineError>)
        ensures
            final(self)@.text == old(self)@.text,
            ({
                let before = old(self)@;
                let after = final(self)@;
                let (start, skipped) = skip_blank_lines(before.text, before.cursor);
                if start >= before.text.len() {
                    &&& after.cursor == start
                    &&& after.line_no == before.line_no + skipped
                    &&& after.ctx == before.ctx
                    &&& after.finished
                    &&& r == if before.finished {
                        Err::<Option<Kind<'a>>, LineError>(LineError::Exhausted)
                    } else {
                        Ok::<Option<Kind<'a>>, LineError>(None)
                    }
                } else {
                    let line = before.text.subrange(start, content_end(before.text, start));
                    &&& after.cursor == after_line(before.text, start)
                    &&& after.line_no == before.line_no + skipped + 1
                    &&& after.finished == before.finished
                    &&& match line_record(line, before.ctx) {
                        Ok((kind, carried)) => {
                            &&& r matches Ok(Some(found))
                            &&& found@ == kind
                            &&& after.ctx == carried
                        },
                        Err(fault) => {
                            &&& r matches Err(LineError::Malformed { line: number, error })
                            &&& number == after.line_no
                            &&& error@ == fault
                            &&& after.ctx == before.ctx
                        },
                    }
                }
            }),
    {
        proof {
            use_type_invariant(&*self);
        }
        let src = self.src;
        let (start, skipped) = first_line(src, self.cursor);
        if start >= src.len() {
            let was_finished = self.finished;
            self.cursor = start;
            self.line_no = self.line_no + skipped;
            self.finished = true;
            return if was_finished {
                Err(LineError::Exhausted)
            } else {
                Ok(None)
            };
        }
        let (end, next, _) = split_line(src, start);
        self.cursor = next;
        self.line_no = self.line_no + skipped + 1;
        match parse_record(slice_subrange(src, start, end), self.ctx) {
            Ok((kind, carried)) => {
                self.ctx = carried;
                Ok(Some(kind))
            },
            Err(error) => Err(LineError::Malformed { line: self.line_no, error }),
        }
    }
}

/// The first line that is not blank starts at or behind the offset the
/// search starts from, and inside the text where the search does.
pub proof fn lemma_skip_blank_lines_bounds(s: Seq<u8>, p: int)
    ensures
        p <= skip_blank_lines(s, p).0,
        p <= s.len() ==> skip_blank_lines(s, p).0 <= s.len(),
    decreases s.len() - p,
{
    if 0 <= p < s.len() && is_blank_line(s, p) {
        lemma_run_len(s, p, Charset::Line);
        lemma_skip_blank_lines_bounds(s, after_line(s, p));
    }
}

/// `records` in front of what `rest` holds, where it holds anything.
pub open spec fn prepend(records: Seq<KindView>, rest: Option<Seq<KindView>>) -> Option<
    Seq<KindView>,
> {
    match rest {
        Some(more) => Some(records + more),
        None => None,
    }
}

/// The records that the reader hands out from the offset `p` to the end of
/// the text, given the sample count `ctx` that it carries; nothing where a
/// line on the way holds no well-formed record.
pub open spec fn read_all(s: Seq<u8>, p: int, ctx: Option<nat>) -> Option<Seq<KindView>>
    decreases s.len() - p,
{
    let start = skip_blank_lines(s, p).0;
    if 0 <= start < s.len() {
        match line_record(s.subrange(start, content_end(s, start)), ctx) {
            Ok((kind, carried)) => {
                proof {
                    lemma_skip_blank_lines_bounds(s, p);
                    lemma_run_len(s, start, Charset::Line);
                }
                prepend(seq![kind], read_all(s, after_line(s, start), carried))
            },
            Err(_) => None,
        }
    } else {
        Some(Seq::empty())
    }
}

/// The first line from the offset `p` on that holds no well-formed record,
/// given the sample count `ctx` that the reader carries: how many lines the
/// reader reads up to and with that line, and the line's fault. Nothing
/// where every line holds a record.
pub open spec fn read_failure(s: Seq<u8>, p: int, ctx: Option<nat>) -> Option<(nat, Fault)>
    decreases s.len() - p,
{
    let (start, skipped) = skip_blank_lines(s, p);
    if 0 <= start < s.len() {
        match line_record(s.subrange(start, content_end(s, start)), ctx) {
            Ok((_, carried)) => {
                proof {
                    lemma_skip_blank_lines_bounds(s, p);
                    lemma_run_len(s, start, Charset::Line);
                }
                match read_failure(s, after_line(s, start), carried) {
                    Some((lines, fault)) => Some((skipped + 1 + lines, fault)),
                    None => None,
                }
            },
            Err(fault) => Some((skipped + 1, fault)),
        }
    } else {
        None
    }
}

/// The reader hands out all records exactly where no line fails.
pub proof fn lemma_read_all_or_failure(s: Seq<u8>, p: int, ctx: Option<nat>)
    ensures
        read_all(s, p, ctx) is Some <==> read_failure(s, p, ctx) is None,
    decreases s.len() - p,
{
    let start = skip_blank_lines(s, p).0;
    if 0 <= start < s.len() {
        if let Ok((_, carried)) = line_record(s.subrange(start, content_end(s, start)), ctx) {
            lemma_skip_blank_lines_bounds(s, p);
            lemma_run_len(s, start, Charset::Line);
            lemma_read_all_or_failure(s, after_line(s, start), carried);
        }
    }
}

/// The mathematical form of a list of records.
pub open spec fn kinds_view<'a>(records: Seq<Kind<'a>>) -> Seq<KindView> {
    records.map_values(|record: Kind<'a>| record@)
}

impl<'a> Parser<'a> {
    /// Reads the records of all lines that are left, up to the end of the
    /// input or to the first line that holds no well-formed record, which
    /// is reported with its number.
    pub fn records(&mut self) -> (r: Result<Vec<Kind<'a>>, LineError>)
        ensures
            final(self)@.text == old(self)@.text,
            r matches Ok(list) ==> read_all(
                old(self)@.text,
                old(self)@.cursor,
                old(self)@.ctx,
            ) == Some(kinds_view(list@)) && final(self)@.finished && final(self)@.cursor == old(
                self,
            )@.text.len(),
            r matches Err(e) ==> read_failure(
                old(self)@.text,
                old(self)@.cursor,
                old(self)@.ctx,
            ) matches Some((lines, fault)) && e matches LineError::Malformed { line, error }
                && line == old(self)@.line_no + lines && error@ == fault,
    {
        let ghost before = self@;
        let mut found: Vec<Kind<'a>> = Vec::new();
        assert(kinds_view(found@) =~= Seq::empty());
        proof {
            use_type_invariant(&*self);
            lemma_prepend_nothing(read_all(before.text, before.cursor, before.ctx));
        }
        loop
            invariant
                before == old(self)@,
                self@.text == before.text,
                0 <= self@.cursor <= before.text.len(),
                read_all(before.text, before.cursor, before.ctx) == prepend(
                    kinds_view(found@),
                    read_all(before.text, self@.cursor, self@.ctx),
                ),
                read_failure(before.text, before.cursor, before.ctx) == match read_failure(
                    before.text,
                    self@.cursor,
                    self@.ctx,
                ) {
                    Some((lines, fault)) => Some(
                        ((self@.line_no - before.line_no + lines) as nat, fault),
                    ),
                    None => None,
                },
                self@.line_no >= before.line_no,
            decreases before.text.len() - self@.cursor,
        {
            let ghost now = self@;
            proof {
                lemma_skip_blank_lines_bounds(now.text, now.cursor);
                lemma_run_len(now.text, skip_blank_lines(now.text, now.cursor).0, Charset::Line);
            }
            match self.parse_line() {
                Ok(Some(record)) => {
                    proof {
                        let rest = read_all(before.text, self@.cursor, self@.ctx);
                        lemma_prepend_twice(kinds_view(found@), seq![record@], rest);
                        assert(kinds_view(found@.push(record)) =~= kinds_view(found@) + seq![
                            record@,
                        ]);
                    }
                    found.push(record);
                },
                Ok(None) => {
                    proof {
                        assert(kinds_view(found@) + Seq::<KindView>::empty() =~= kinds_view(
                            found@,
                        ));
                    }
                    return Ok(found);
                },
                Err(LineError::Exhausted) => {
                    proof {
                        assert(kinds_view(found@) + Seq::<KindView>::empty() =~= kinds_view(
                            found@,
                        ));
                    }
                    return Ok(found);
                },
                Err(error) => {
                    return Err(error);
                },
            }
        }
    }
}

/// Putting records in front twice is putting both lists in front.
pub proof fn lemma_prepend_twice(
    first: Seq<KindView>,
    second: Seq<KindView>,
    rest: Option<Seq<KindView>>,
)
    ensures
        prepend(first, prepend(second, rest)) == prepend(first + second, rest),
{
    if let Some(more) = rest {
        assert(first + (second + more) =~= (first + second) + more);
    }
}

/// Putting no records in front changes nothing.
pub proof fn lemma_prepend_nothing(rest: Option<Seq<KindView>>)
    ensures
        prepend(Seq::empty(), rest) == rest,
{
    if let Some(more) = rest {
        assert(Seq::<KindView>::empty() + more =~= more);
    }
}

/// Finds where the content of the line that starts at `start` ends and
/// where the next line starts, and tells whether the line is blank.
fn split_line(input: &[u8], start: usize) -> (r: (usize, usize, bool))
    requires
        start < input@.len(),
    ensures
        r.0 == content_end(input@, start as int),
        r.1 == after_line(input@, start as int),
        r.2 == is_blank_line(input@, start as int),
        start <= r.0 <= r.1 <= input@.len(),
        start < r.1,
        !r.2 ==> start < r.0,
{
    let len = input.len();
    let stop = scan_run(input, start, Charset::Line);
    let blanks = scan_run(input, start, Charset::Space);
    proof {
        lemma_run_len(input@, start as int, Charset::Line);
        lemma_run_len(input@, start as int, Charset::Space);
    }
    let end = if start < stop && stop < len && input[stop - 1] == 13 {
        stop - 1
    } else {
        stop
    };
    let next = if stop < len {
        stop + 1
    } else {
        stop
    };
    (end, next, blanks >= stop)
}

/// Finds the start of the first line at or behind `cursor` that is not
/// blank, and counts the blank lines before it.
fn first_line(input: &[u8], cursor: usize) -> (r: (usize, usize))
    requires
        cursor <= input@.len(),
    ensures
        skip_blank_lines(input@, cursor as int) == (r.0 as int, r.1 as nat),
        cursor + r.1 <= r.0 <= input@.len(),
{
    let len = input.len();
    let mut start: usize = cursor;
    let mut skipped: usize = 0;
    loop
        invariant
            len == input@.len(),
            cursor + skipped <= start <= len,
            ({
                let whole = skip_blank_lines(input@, cursor as int);
                let rest = skip_blank_lines(input@, start as int);
                whole.0 == rest.0 && whole.1 == rest.1 + skipped
            }),
        decreases len - start,
    {
        if start >= len {
            return (start, skipped);
        }
        let (_, next, blank) = split_line(input, start);
        if !blank {
            return (start, skipped);
        }
        start = next;
        skipped = skipped + 1;
    }
}

} // verus!
