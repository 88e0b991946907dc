//! The document: a header, the meter blocks and the terminal marker.
//!
//! Records follow one another on lines of their own, separated by one or
//! more line feeds. Which record a line holds is decided by its leading code
//! alone; a record of a kind that cannot continue what is being read ends
//! it, and the reader above decides whether that record is welcome.

pub mod equality;
pub mod laws;
pub mod lines;
pub mod parser;
pub mod record;
pub mod render;
pub mod roundtrip;
pub mod wellformed;

use crate::charset::{run_len, Charset, NEWLINE};
use crate::common::{line_at, line_of, rec_separator};
use crate::error::{lexical, ErrorKind, Failure, Fault, ParseError, RecordTag};
use crate::nem12::record::{
    b2b_details_at, classify, classify_at, configuration_ok, end_of_data_at, event_ok, events_view,
    exchange_ok, exchanges_view, header_at, header_ok, interval_data_ok, intervals_view,
    interval_data_at, interval_event_at, lemma_b2b_details_bounds, lemma_interval_data_bounds,
    lemma_interval_event_bounds, lemma_nmi_data_details_bounds, nmi_data_details_at, B2BDetails,
    B2BDetailsView, EndOfData, Header, HeaderView, IntervalData, IntervalDataView, IntervalEvent,
    IntervalEventView, NMIDataDetails, NMIDataDetailsView,
};
use crate::nem12::wellformed::{
    lemma_read_block_is_ok, lemma_read_document_is_ok, lemma_read_interval_is_ok,
};
use vstd::prelude::*;

verus! {

/// The number of minutes in a day.
pub const MINUTES_PER_DAY: usize = 1440;

/// The number of readings that a day holds at `interval_length` minutes
/// each, where that length divides the day evenly.
pub open spec fn sample_count_of(interval_length: nat) -> Option<nat> {
    if interval_length > 0 && 1440int % (interval_length as int) == 0 {
        Some((1440int / (interval_length as int)) as nat)
    } else {
        None
    }
}

/// The fault of an interval length that does not divide the day, raised at
/// the record at `at` that declares it.
pub open spec fn indivisible(at: int) -> Fault {
    Fault { kind: ErrorKind::Divisibility, expected: None, at }
}

/// The fault of text at `at` behind the terminal marker.
pub open spec fn trailing(at: int) -> Fault {
    Fault { kind: ErrorKind::Structure, expected: None, at }
}

/// The offset behind the line feeds that stand at `p`.
pub open spec fn skip_newlines(s: Seq<u8>, p: int) -> int {
    p + run_len(s, p, Charset::Newline)
}

/// Whether the record that ends at `p` is followed, on a later line, by a
/// record with the code of `tag`.
pub open spec fn record_follows(s: Seq<u8>, p: int, tag: RecordTag) -> bool {
    0 <= p && run_len(s, p, Charset::Newline) >= 1 && classify_at(s, skip_newlines(s, p)) == Some(
        tag,
    )
}

/// A record that ends at `p` must end its line: the text ends there or a
/// line feed stands there. Anything else is a lexical fault at `p`.
pub open spec fn line_end_at(s: Seq<u8>, p: int) -> Result<int, Fault> {
    if p >= s.len() || s[p] == NEWLINE {
        Ok(p)
    } else {
        Err(lexical(p))
    }
}

/// A list, or nothing where the list is empty.
pub open spec fn some_if_any<T>(list: Seq<T>) -> Option<Seq<T>> {
    if list.len() > 0 {
        Some(list)
    } else {
        None
    }
}

/// The interval events on the lines behind `p`, the end of the record before
/// them, appended to `found`: every following line that bears the code `400`
/// must hold an event that ends its line. The offset behind the last event
/// comes with them.
pub open spec fn events_at(s: Seq<u8>, p: int, found: Seq<IntervalEventView>) -> Result<
    (int, Seq<IntervalEventView>),
    Fault,
>
    decreases s.len() - p,
{
    if record_follows(s, p, RecordTag::IntervalEvent) {
        match interval_event_at(s, skip_newlines(s, p)) {
            Ok((next, event)) => match line_end_at(s, next) {
                Ok(_) => {
                    proof {
                        lemma_interval_event_bounds(s, skip_newlines(s, p));
                    }
                    events_at(s, next, found.push(event))
                },
                Err(fault) => Err(fault),
            },
            Err(fault) => Err(fault),
        }
    } else {
        Ok((p, found))
    }
}

/// An interval data record at `p` with the events that follow it: the record
/// must end its line, and its event list is absent where no event follows.
pub open spec fn interval_at(s: Seq<u8>, p: int, capacity: nat) -> Result<
    (int, IntervalDataView),
    Fault,
> {
    match interval_data_at(s, p, capacity) {
        Ok((next, data)) => match line_end_at(s, next) {
            Ok(_) => match events_at(s, next, Seq::empty()) {
                Ok((end, events)) => Ok(
                    (end, IntervalDataView { interval_events: some_if_any(events), ..data }),
                ),
                Err(fault) => Err(fault),
            },
            Err(fault) => Err(fault),
        },
        Err(fault) => Err(fault),
    }
}

/// An interval data record with its events lies inside the text and is not
/// empty.
pub proof fn lemma_interval_bounds(s: Seq<u8>, p: int, capacity: nat)
    requires
        0 <= p,
    ensures
        interval_at(s, p, capacity) matches Ok((next, _)) ==> p < next <= s.len(),
{
    lemma_interval_data_bounds(s, p, capacity);
    if let Ok((next, _)) = interval_data_at(s, p, capacity) {
        lemma_events_bounds(s, next, Seq::empty());
    }
}

/// The events behind a record end inside the text.
pub proof fn lemma_events_bounds(s: Seq<u8>, p: int, found: Seq<IntervalEventView>)
    requires
        0 <= p <= s.len(),
    ensures
        events_at(s, p, found) matches Ok((next, _)) ==> p <= next <= s.len(),
    decreases s.len() - p,
{
    if record_follows(s, p, RecordTag::IntervalEvent) {
        lemma_interval_event_bounds(s, skip_newlines(s, p));
        if let Ok((next, event)) = interval_event_at(s, skip_newlines(s, p)) {
            if line_end_at(s, next) is Ok {
                lemma_events_bounds(s, next, found.push(event));
            }
        }
    }
}

/// The interval data records, each with its events, on the lines behind `p`,
/// appended to `found`: every following line that bears the code `300` must
/// hold a record with exactly `capacity` readings.
pub open spec fn intervals_at(
    s: Seq<u8>,
    p: int,
    capacity: nat,
    found: Seq<IntervalDataView>,
) -> Result<(int, Seq<IntervalDataView>), Fault>
    decreases s.len() - p,
{
    if record_follows(s, p, RecordTag::IntervalData) {
        match interval_at(s, skip_newlines(s, p), capacity) {
            Ok((next, data)) => {
                proof {
                    lemma_interval_bounds(s, skip_newlines(s, p), capacity);
                }
                intervals_at(s, next, capacity, found.push(data))
            },
            Err(fault) => Err(fault),
        }
    } else {
        Ok((p, found))
    }
}

/// The interval data behind a record ends inside the text.
pub proof fn lemma_intervals_bounds(
    s: Seq<u8>,
    p: int,
    capacity: nat,
    found: Seq<IntervalDataView>,
)
    requires
        0 <= p <= s.len(),
    ensures
        intervals_at(s, p, capacity, found) matches Ok((next, _)) ==> p <= next <= s.len(),
    decreases s.len() - p,
{
    if record_follows(s, p, RecordTag::IntervalData) {
        lemma_interval_bounds(s, skip_newlines(s, p), capacity);
        if let Ok((next, data)) = interval_at(s, skip_newlines(s, p), capacity) {
            lemma_intervals_bounds(s, next, capacity, found.push(data));
        }
    }
}

/// The exchange records on the lines behind `p`, appended to `found`: every
/// following line that bears the code `500` must hold an exchange record
/// that ends its line.
pub open spec fn exchanges_at(s: Seq<u8>, p: int, found: Seq<B2BDetailsView>) -> Result<
    (int, Seq<B2BDetailsView>),
    Fault,
>
    decreases s.len() - p,
{
    if record_follows(s, p, RecordTag::B2BDetails) {
        match b2b_details_at(s, skip_newlines(s, p)) {
            Ok((next, details)) => match line_end_at(s, next) {
                Ok(_) => {
                    proof {
                        lemma_b2b_details_bounds(s, skip_newlines(s, p));
                    }
                    exchanges_at(s, next, found.push(details))
                },
                Err(fault) => Err(fault),
            },
            Err(fault) => Err(fault),
        }
    } else {
        Ok((p, found))
    }
}

/// The exchange records behind a record end inside the text.
pub proof fn lemma_exchanges_bounds(s: Seq<u8>, p: int, found: Seq<B2BDetailsView>)
    requires
        0 <= p <= s.len(),
    ensures
        exchanges_at(s, p, found) matches Ok((next, _)) ==> p <= next <= s.len(),
    decreases s.len() - p,
{
    if record_follows(s, p, RecordTag::B2BDetails) {
        lemma_b2b_details_bounds(s, skip_newlines(s, p));
        if let Ok((next, details)) = b2b_details_at(s, skip_newlines(s, p)) {
            if line_end_at(s, next) is Ok {
                lemma_exchanges_bounds(s, next, found.push(details));
            }
        }
    }
}

/// The meter block at `p`: a meter configuration record that ends its line
/// and whose interval length divides the day, else a divisibility fault at
/// `p`; then the interval data of the block, each record with the sample
/// count that the interval length gives; then the exchange records of the
/// block. A list that would be empty is absent.
pub open spec fn block_at(s: Seq<u8>, p: int) -> Result<(int, NMIDataDetailsView), Fault> {
    match nmi_data_details_at(s, p) {
        Ok((next, details)) => match sample_count_of(details.interval_length) {
            Some(capacity) => match line_end_at(s, next) {
                Ok(_) => match intervals_at(s, next, capacity, Seq::empty()) {
                    Ok((middle, intervals)) => match exchanges_at(s, middle, Seq::empty()) {
                        Ok((end, exchanges)) => Ok(
                            (
                                end,
                                NMIDataDetailsView {
                                    interval_data_vec: some_if_any(intervals),
                                    b2b_details: some_if_any(exchanges),
                                    ..details
                                },
                            ),
                        ),
                        Err(fault) => Err(fault),
                    },
                    Err(fault) => Err(fault),
                },
                Err(fault) => Err(fault),
            },
            None => Err(indivisible(p)),
        },
        Err(fault) => Err(fault),
    }
}

/// A meter block lies inside the text and is not empty.
pub proof fn lemma_block_bounds(s: Seq<u8>, p: int)
    requires
        0 <= p,
    ensures
        block_at(s, p) matches Ok((next, _)) ==> p < next <= s.len(),
{
    lemma_nmi_data_details_bounds(s, p);
    if let Ok((next, details)) = nmi_data_details_at(s, p) {
        if let Some(capacity) = sample_count_of(details.interval_length) {
            lemma_intervals_bounds(s, next, capacity, Seq::empty());
            if let Ok((middle, _)) = intervals_at(s, next, capacity, Seq::empty()) {
                lemma_exchanges_bounds(s, middle, Seq::empty());
            }
        }
    }
}

/// The meter blocks on the lines behind `p`, appended to `found`: every
/// following line that bears the code `200` must open a block.
pub open spec fn blocks_at(s: Seq<u8>, p: int, found: Seq<NMIDataDetailsView>) -> Result<
    (int, Seq<NMIDataDetailsView>),
    Fault,
>
    decreases s.len() - p,
{
    if record_follows(s, p, RecordTag::NMIDataDetails) {
        match block_at(s, skip_newlines(s, p)) {
            Ok((next, block)) => {
                proof {
                    lemma_block_bounds(s, skip_newlines(s, p));
                }
                blocks_at(s, next, found.push(block))
            },
            Err(fault) => Err(fault),
        }
    } else {
        Ok((p, found))
    }
}

/// A parsed document in mathematical form.
pub struct NEM12View {
    pub header: HeaderView,
    pub nmi_data_details: Seq<NMIDataDetailsView>,
}

/// The document that the text `s` holds: a header on the first line, then
/// the meter blocks, then the terminal marker on a line of its own, with
/// nothing but blanks behind it. Where the text ends, or holds any other
/// record, in the place of a block or of the terminal marker, the fault is
/// structural and names the terminal marker; text behind the marker is a
/// structural fault too.
pub open spec fn document_of(s: Seq<u8>) -> Result<NEM12View, Fault> {
    match header_at(s, 0) {
        Ok((next, header)) => match line_end_at(s, next) {
            Ok(_) => match blocks_at(s, next, Seq::empty()) {
                Ok((last, blocks)) => match end_of_data_at(s, skip_newlines(s, last)) {
                    Ok(end) => if end >= s.len() {
                        Ok(NEM12View { header, nmi_data_details: blocks })
                    } else {
                        Err(trailing(end))
                    },
                    Err(fault) => Err(fault),
                },
                Err(fault) => Err(fault),
            },
            Err(fault) => Err(fault),
        },
        Err(fault) => Err(fault),
    }
}

/// Gives the number of readings that a day holds at `interval_length`
/// minutes each, where that length divides the day evenly.
pub fn sample_count(interval_length: usize) -> (r: Option<usize>)
    ensures
        r matches Some(count) ==> sample_count_of(interval_length as nat) == Some(count as nat),
        r is None ==> sample_count_of(interval_length as nat) is None,
{
    if interval_length > 0 && MINUTES_PER_DAY % interval_length == 0 {
        Some(MINUTES_PER_DAY / interval_length)
    } else {
        None
    }
}

/// Checks that the record that ends at `start` ends its line.
pub fn line_end(input: &[u8], start: usize) -> (r: Result<usize, ParseError>)
    ensures
        r matches Ok(next) ==> line_end_at(input@, start as int) == Ok::<int, Fault>(next as int),
        r matches Err(e) ==> line_end_at(input@, start as int) == Err::<int, Fault>(e@),
{
    if start >= input.len() || input[start] == NEWLINE {
        Ok(start)
    } else {
        Err(ParseError::lexical(start))
    }
}

/// Looks behind the record that ends at `start` for a later line that bears
/// the code of `tag`, and gives the offset where that line starts.
pub fn following(input: &[u8], start: usize, tag: RecordTag) -> (r: Option<usize>)
    ensures
        r matches Some(next) ==> record_follows(input@, start as int, tag) && next
            == skip_newlines(input@, start as int) && start < next < input@.len(),
        r is None ==> !record_follows(input@, start as int, tag),
{
    match rec_separator(input, start) {
        Ok((next, _)) => match classify(input, next) {
            Some(found) => if found == tag {
                Some(next)
            } else {
                None
            },
            None => None,
        },
        Err(_) => None,
    }
}

fn events<'a>(input: &'a [u8], start: usize) -> (r: Result<
    (usize, Vec<IntervalEvent<'a>>),
    ParseError,
>)
    ensures
        r matches Ok((next, found)) ==> events_at(input@, start as int, Seq::empty()) == Ok::<
            (int, Seq<IntervalEventView>),
            Fault,
        >((next as int, events_view(found@))),
        r matches Err(e) ==> events_at(input@, start as int, Seq::empty()) == Err::<
            (int, Seq<IntervalEventView>),
            Fault,
        >(e@),
{
    let mut found: Vec<IntervalEvent<'a>> = Vec::new();
    let mut p: usize = start;
    assert(events_view(found@) =~= Seq::empty());
    loop
        invariant
            events_at(input@, start as int, Seq::empty()) == events_at(
                input@,
                p as int,
                events_view(found@),
            ),
        decreases input@.len() - p,
    {
        match following(input, p, RecordTag::IntervalEvent) {
            None => {
                return Ok((p, found));
            },
            Some(line) => {
                let (next, event) = IntervalEvent::parse(input, line)?;
                line_end(input, next)?;
                proof {
                    lemma_interval_event_bounds(input@, line as int);
                    assert(events_view(found@.push(event)) =~= events_view(found@).push(event@));
                }
                found.push(event);
                p = next;
            },
        }
    }
}

/// Reads an interval data record at `start`, in a block whose days have
/// `capacity` readings, and attaches the interval events on the lines that
/// follow it.
pub fn parse_interval_data<'a>(capacity: usize, input: &'a [u8], start: usize) -> (r: Result<
    (usize, IntervalData<'a>),
    ParseError,
>)
    ensures
        r matches Ok((next, data)) ==> interval_at(input@, start as int, capacity as nat) == Ok::<
            (int, IntervalDataView),
            Fault,
        >((next as int, data@)) && interval_ok(data@, capacity as nat),
        r matches Err(e) ==> interval_at(input@, start as int, capacity as nat) == Err::<
            (int, IntervalDataView),
            Fault,
        >(e@),
{
    proof {
        lemma_read_interval_is_ok(input@, start as int, capacity as nat);
    }
    let (next, mut data) = IntervalData::parse(capacity, input, start)?;
    line_end(input, next)?;
    let (end, found) = events(input, next)?;
    if found.len() > 0 {
        data.interval_events = Some(found);
    }
    Ok((end, data))
}

fn intervals<'a>(capacity: usize, input: &'a [u8], start: usize) -> (r: Result<
    (usize, Vec<IntervalData<'a>>),
    ParseError,
>)
    ensures
        r matches Ok((next, found)) ==> intervals_at(
            input@,
            start as int,
            capacity as nat,
            Seq::empty(),
        ) == Ok::<(int, Seq<IntervalDataView>), Fault>((next as int, intervals_view(found@))),
        r matches Err(e) ==> intervals_at(input@, start as int, capacity as nat, Seq::empty())
            == Err::<(int, Seq<IntervalDataView>), Fault>(e@),
{
    let mut found: Vec<IntervalData<'a>> = Vec::new();
    let mut p: usize = start;
    assert(intervals_view(found@) =~= Seq::empty());
    loop
        invariant
            intervals_at(input@, start as int, capacity as nat, Seq::empty()) == intervals_at(
                input@,
                p as int,
                capacity as nat,
                intervals_view(found@),
            ),
        decreases input@.len() - p,
    {
        match following(input, p, RecordTag::IntervalData) {
            None => {
                return Ok((p, found));
            },
            Some(line) => {
                let (next, data) = parse_interval_data(capacity, input, line)?;
                proof {
                    lemma_interval_bounds(input@, line as int, capacity as nat);
                    assert(intervals_view(found@.push(data)) =~= intervals_view(found@).push(
                        data@,
                    ));
                }
                found.push(data);
                p = next;
            },
        }
    }
}

fn exchanges<'a>(input: &'a [u8], start: usize) -> (r: Result<
    (usize, Vec<B2BDetails<'a>>),
    ParseError,
>)
    ensures
        r matches Ok((next, found)) ==> exchanges_at(input@, start as int, Seq::empty()) == Ok::<
            (int, Seq<B2BDetailsView>),
            Fault,
        >((next as int, exchanges_view(found@))),
        r matches Err(e) ==> exchanges_at(input@, start as int, Seq::empty()) == Err::<
            (int, Seq<B2BDetailsView>),
            Fault,
        >(e@),
{
    let mut found: Vec<B2BDetails<'a>> = Vec::new();
    let mut p: usize = start;
    assert(exchanges_view(found@) =~= Seq::empty());
    loop
        invariant
            exchanges_at(input@, start as int, Seq::empty()) == exchanges_at(
                input@,
                p as int,
                exchanges_view(found@),
            ),
        decreases input@.len() - p,
    {
        match following(input, p, RecordTag::B2BDetails) {
            None => {
                return Ok((p, found));
            },
            Some(line) => {
                let (next, details) = B2BDetails::parse(input, line)?;
                line_end(input, next)?;
                proof {
                    lemma_b2b_details_bounds(input@, line as int);
                    assert(exchanges_view(found@.push(details)) =~= exchanges_view(found@).push(
                        details@,
                    ));
                }
                found.push(details);
                p = next;
            },
        }
    }
}

/// Reads the meter block that starts at `start`: the meter configuration
/// record, the interval data with their events, and the exchange records.
/// An interval length that does not divide the day is refused before any
/// interval data is read.
pub fn parse_nmi_data_details<'a>(input: &'a [u8], start: usize) -> (r: Result<
    (usize, NMIDataDetails<'a>),
    ParseError,
>)
    ensures
        r matches Ok((next, block)) ==> block_at(input@, start as int) == Ok::<
            (int, NMIDataDetailsView),
            Fault,
        >((next as int, block@)) && block_ok(block@),
        r matches Err(e) ==> block_at(input@, start as int) == Err::<
            (int, NMIDataDetailsView),
            Fault,
        >(e@),
{
    proof {
        lemma_read_block_is_ok(input@, start as int);
    }
    let (next, mut details) = NMIDataDetails::parse(input, start)?;
    let capacity = match sample_count(details.interval_length) {
        Some(capacity) => capacity,
        None => {
            return Err(
                ParseError { kind: ErrorKind::Divisibility, expected: None, offset: start },
            );
        },
    };
    line_end(input, next)?;
    let (middle, data) = intervals(capacity, input, next)?;
    let (end, trailing) = exchanges(input, middle)?;
    if data.len() > 0 {
        details.interval_data_vec = Some(data);
    }
    if trailing.len() > 0 {
        details.b2b_details = Some(trailing);
    }
    Ok((end, details))
}

/// The mathematical form of a list of meter blocks.
pub open spec fn blocks_view<'a>(blocks: Seq<NMIDataDetails<'a>>) -> Seq<NMIDataDetailsView> {
    blocks.map_values(|block: NMIDataDetails<'a>| block@)
}

fn blocks<'a>(input: &'a [u8], start: usize) -> (r: Result<
    (usize, Vec<NMIDataDetails<'a>>),
    ParseError,
>)
    ensures
        r matches Ok((next, found)) ==> blocks_at(input@, start as int, Seq::empty()) == Ok::<
            (int, Seq<NMIDataDetailsView>),
            Fault,
        >((next as int, blocks_view(found@))),
        r matches Err(e) ==> blocks_at(input@, start as int, Seq::empty()) == Err::<
            (int, Seq<NMIDataDetailsView>),
            Fault,
        >(e@),
{
    let mut found: Vec<NMIDataDetails<'a>> = Vec::new();
    let mut p: usize = start;
    assert(blocks_view(found@) =~= Seq::empty());
    loop
        invariant
            blocks_at(input@, start as int, Seq::empty()) == blocks_at(
                input@,
                p as int,
                blocks_view(found@),
            ),
        decreases input@.len() - p,
    {
        match following(input, p, RecordTag::NMIDataDetails) {
            None => {
                return Ok((p, found));
            },
            Some(line) => {
                let (next, block) = parse_nmi_data_details(input, line)?;
                proof {
                    lemma_block_bounds(input@, line as int);
                    assert(blocks_view(found@.push(block)) =~= blocks_view(found@).push(block@));
                }
                found.push(block);
                p = next;
            },
        }
    }
}

/// A parsed document: the header and the meter blocks in the order of the
/// file.
#[derive(Clone, Debug)]
pub struct NEM12<'a> {
    pub header: Header<'a>,
    pub nmi_data_details: Vec<NMIDataDetails<'a>>,
}

impl<'a> View for NEM12<'a> {
    type V = NEM12View;

    open spec fn view(&self) -> NEM12View {
        NEM12View {
            header: self.header@,
            nmi_data_details: blocks_view(self.nmi_data_details@),
        }
    }
}

/// The line number as a program can hold it: the largest `usize` where the
/// true number is larger.
pub open spec fn clipped_line(s: Seq<u8>, at: int) -> nat {
    if line_at(s, at) <= usize::MAX {
        line_at(s, at)
    } else {
        usize::MAX as nat
    }
}

fn document<'a>(input: &'a [u8]) -> (r: Result<NEM12<'a>, ParseError>)
    ensures
        r matches Ok(parsed) ==> document_of(input@) == Ok::<NEM12View, Fault>(parsed@),
        r matches Err(e) ==> document_of(input@) == Err::<NEM12View, Fault>(e@),
{
    let (next, header) = Header::parse(input, 0)?;
    line_end(input, next)?;
    let (last, nmi_data_details) = blocks(input, next)?;
    let line = match rec_separator(input, last) {
        Ok((next, _)) => next,
        Err(_) => last,
    };
    let (end, _) = EndOfData::parse(input, line)?;
    if end >= input.len() {
        Ok(NEM12::new(header, nmi_data_details))
    } else {
        Err(ParseError { kind: ErrorKind::Structure, expected: None, offset: end })
    }
}

impl<'a> NEM12<'a> {
    /// Makes a document of a header and its meter blocks.
    pub fn new(header: Header<'a>, nmi_data_details: Vec<NMIDataDetails<'a>>) -> (parsed: Self)
        ensures
            parsed.header == header,
            parsed.nmi_data_details == nmi_data_details,
    {
        NEM12 { header, nmi_data_details }
    }

    /// Parses a whole file. The document comes back exactly where the text
    /// is well formed; else the first failure comes back with the number of
    /// the line it stands on.
    pub fn from_str(input: &'a [u8]) -> (r: Result<NEM12<'a>, Failure>)
        ensures
            r matches Ok(parsed) ==> document_of(input@) == Ok::<NEM12View, Fault>(parsed@)
                && document_ok(parsed@),
            r matches Err(failure) ==> document_of(input@) == Err::<NEM12View, Fault>(
                failure.error@,
            ) && failure.line == clipped_line(input@, failure.error.offset as int),
    {
        proof {
            lemma_read_document_is_ok(input@);
        }
        match document(input) {
            Ok(parsed) => Ok(parsed),
            Err(error) => Err(Failure { line: line_of(input, error.offset), error }),
        }
    }
}

/// The list that an optional list stands for: the empty list where it is
/// absent.
pub open spec fn listed<T>(list: Option<Seq<T>>) -> Seq<T> {
    match list {
        Some(items) => items,
        None => Seq::empty(),
    }
}

/// Whether an optional list is absent or holds something.
pub open spec fn absent_or_filled<T>(list: Option<Seq<T>>) -> bool {
    list matches Some(items) ==> items.len() > 0
}

/// Whether an interval data record with its events keeps to the rules, in a
/// block with the sample count `count`: its own fields do, its events do,
/// and its event list is absent where it would be empty.
pub open spec fn interval_ok(data: IntervalDataView, count: nat) -> bool {
    &&& interval_data_ok(data, count)
    &&& absent_or_filled(data.interval_events)
    &&& forall|i: int|
        0 <= i < listed(data.interval_events).len() ==> event_ok(
            #[trigger] listed(data.interval_events)[i],
        )
}

/// Whether a meter block keeps to the rules: its configuration does, its
/// interval length divides the day, every interval data record holds the
/// sample count that this gives, every record of the block keeps to its own
/// rules, and no list is there but empty.
pub open spec fn block_ok(block: NMIDataDetailsView) -> bool {
    &&& configuration_ok(block)
    &&& sample_count_of(block.interval_length) is Some
    &&& absent_or_filled(block.interval_data_vec)
    &&& absent_or_filled(block.b2b_details)
    &&& forall|i: int|
        0 <= i < listed(block.interval_data_vec).len() ==> interval_ok(
            #[trigger] listed(block.interval_data_vec)[i],
            sample_count_of(block.interval_length)->Some_0,
        )
    &&& forall|i: int|
        0 <= i < listed(block.b2b_details).len() ==> exchange_ok(
            #[trigger] listed(block.b2b_details)[i],
        )
}

/// Whether a document keeps to the rules: its header does, and every
/// block.
pub open spec fn document_ok(document: NEM12View) -> bool {
    &&& header_ok(document.header)
    &&& forall|i: int|
        0 <= i < document.nmi_data_details.len() ==> block_ok(
            #[trigger] document.nmi_data_details[i],
        )
}

} // verus!
