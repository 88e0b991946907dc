//! When two records, and two documents, are equal.
//!
//! Records are equal when their fields are: texts byte for byte, readings
//! bit for bit. The one exception is the unit of measure of a meter
//! configuration, which the format does not tell apart by the case of its
//! letters.

use crate::nem12::record::{
    events_view, exchanges_view, intervals_view, opt_bytes, B2BDetails, Header, IntervalData,
    IntervalEvent, Kind, KindView, NMIDataDetails, NMIDataDetailsView,
};
use crate::nem12::{blocks_view, NEM12View, NEM12};
use vstd::prelude::*;
use vstd::std_specs::cmp::PartialEqSpecImpl;

verus! {

/// The lower-case form of an ASCII letter; any other byte as it is.
pub open spec fn lower(b: u8) -> u8 {
    if 65 <= b <= 90 {
        (b + 32) as u8
    } else {
        b
    }
}

/// Whether two texts differ at most in the case of their ASCII letters.
pub open spec fn same_ignoring_case(a: Seq<u8>, b: Seq<u8>) -> bool {
    a.len() == b.len() && forall|i: int| 0 <= i < a.len() ==> lower(#[trigger] a[i]) == lower(b[i])
}

/// Whether two meter blocks are equal: field for field, but for the case of
/// the letters of the unit of measure.
pub open spec fn same_block(a: NMIDataDetailsView, b: NMIDataDetailsView) -> bool {
    same_ignoring_case(a.uom, b.uom) && a == (NMIDataDetailsView { uom: a.uom, ..b })
}

/// Whether two lists of meter blocks are equal, block for block.
pub open spec fn same_blocks(a: Seq<NMIDataDetailsView>, b: Seq<NMIDataDetailsView>) -> bool {
    a.len() == b.len() && forall|i: int| 0 <= i < a.len() ==> same_block(#[trigger] a[i], b[i])
}

/// Whether two documents are equal: the headers field for field, the blocks
/// one by one.
pub open spec fn same_document(a: NEM12View, b: NEM12View) -> bool {
    a.header == b.header && same_blocks(a.nmi_data_details, b.nmi_data_details)
}

/// Whether two records are of one kind and equal.
pub open spec fn same_record(a: KindView, b: KindView) -> bool {
    match (a, b) {
        (KindView::NMIDataDetails(x), KindView::NMIDataDetails(y)) => same_block(x, y),
        _ => a == b,
    }
}

/// Tells whether two texts are equal byte for byte.
pub fn bytes_eq(a: &[u8], b: &[u8]) -> (r: bool)
    ensures
        r == (a@ == b@),
{
    if a.len() != b.len() {
        return false;
    }
    let mut i: usize = 0;
    while i < a.len()
        invariant
            i <= a@.len() == b@.len(),
            forall|k: int| 0 <= k < i ==> a@[k] == b@[k],
        decreases a@.len() - i,
    {
        if a[i] != b[i] {
            return false;
        }
        i = i + 1;
    }
    assert(a@ =~= b@);
    true
}

/// Gives the lower-case form of an ASCII letter, and any other byte as it
/// is.
pub fn to_lower(b: u8) -> (r: u8)
    ensures
        r == lower(b),
{
    if 65 <= b && b <= 90 {
        b + 32
    } else {
        b
    }
}

/// Tells whether two texts differ at most in the case of their ASCII
/// letters.
pub fn bytes_eq_ignoring_case(a: &[u8], b: &[u8]) -> (r: bool)
    ensures
        r == same_ignoring_case(a@, b@),
{
    if a.len() != b.len() {
        return false;
    }
    let mut i: usize = 0;
    while i < a.len()
        invariant
            i <= a@.len() == b@.len(),
            forall|k: int| 0 <= k < i ==> lower(#[trigger] a@[k]) == lower(b@[k]),
        decreases a@.len() - i,
    {
        if to_lower(a[i]) != to_lower(b[i]) {
            return false;
        }
        i = i + 1;
    }
    true
}

/// Tells whether two optional texts are both absent or both there and equal.
pub fn opt_bytes_eq(a: Option<&[u8]>, b: Option<&[u8]>) -> (r: bool)
    ensures
        r == (opt_bytes(a) == opt_bytes(b)),
{
    match (a, b) {
        (Some(x), Some(y)) => bytes_eq(x, y),
        (None, None) => true,
        _ => false,
    }
}

fn readings_eq(a: &Vec<u64>, b: &Vec<u64>) -> (r: bool)
    ensures
        r == (a@ == b@),
{
    if a.len() != b.len() {
        return false;
    }
    let mut i: usize = 0;
    while i < a.len()
        invariant
            i <= a@.len() == b@.len(),
            forall|k: int| 0 <= k < i ==> a@[k] == b@[k],
        decreases a@.len() - i,
    {
        if a[i] != b[i] {
            return false;
        }
        i = i + 1;
    }
    assert(a@ =~= b@);
    true
}

impl<'a> PartialEq for Header<'a> {
    fn eq(&self, other: &Self) -> (r: bool) {
        bytes_eq(self.format, other.format) && self.created == other.created && bytes_eq(
            self.from_participant,
            other.from_participant,
        ) && bytes_eq(self.to_participant, other.to_participant)
    }
}

impl<'a> PartialEqSpecImpl for Header<'a> {
    open spec fn obeys_eq_spec() -> bool {
        true
    }

    open spec fn eq_spec(&self, other: &Self) -> bool {
        self@ == other@
    }
}

impl<'a> Eq for Header<'a> {

}

impl<'a> PartialEq for IntervalEvent<'a> {
    fn eq(&self, other: &Self) -> (r: bool) {
        bytes_eq(self.start_interval, other.start_interval) && bytes_eq(
            self.end_interval,
            other.end_interval,
        ) && bytes_eq(self.quality_method, other.quality_method) && opt_bytes_eq(
            self.reason_code,
            other.reason_code,
        ) && opt_bytes_eq(self.reason_description, other.reason_description)
    }
}

impl<'a> PartialEqSpecImpl for IntervalEvent<'a> {
    open spec fn obeys_eq_spec() -> bool {
        true
    }

    open spec fn eq_spec(&self, other: &Self) -> bool {
        self@ == other@
    }
}

impl<'a> Eq for IntervalEvent<'a> {

}

impl<'a> PartialEq for B2BDetails<'a> {
    fn eq(&self, other: &Self) -> (r: bool) {
        bytes_eq(self.trans_code, other.trans_code) && bytes_eq(
            self.ret_service_order,
            other.ret_service_order,
        ) && self.read_datetime == other.read_datetime && bytes_eq(
            self.index_read,
            other.index_read,
        )
    }
}

impl<'a> PartialEqSpecImpl for B2BDetails<'a> {
    open spec fn obeys_eq_spec() -> bool {
        true
    }

    open spec fn eq_spec(&self, other: &Self) -> bool {
        self@ == other@
    }
}

impl<'a> Eq for B2BDetails<'a> {

}

fn events_eq<'a>(a: &Vec<IntervalEvent<'a>>, b: &Vec<IntervalEvent<'a>>) -> (r: bool)
    ensures
        r == (events_view(a@) == events_view(b@)),
{
    if a.len() != b.len() {
        assert(events_view(a@).len() != events_view(b@).len());
        return false;
    }
    let mut i: usize = 0;
    while i < a.len()
        invariant
            i <= a@.len() == b@.len(),
            forall|k: int| 0 <= k < i ==> a@[k]@ == b@[k]@,
        decreases a@.len() - i,
    {
        if a[i] != b[i] {
            assert(events_view(a@)[i as int] != events_view(b@)[i as int]);
            return false;
        }
        i = i + 1;
    }
    assert(events_view(a@) =~= events_view(b@));
    true
}

fn opt_events_eq<'a>(
    a: &Option<Vec<IntervalEvent<'a>>>,
    b: &Option<Vec<IntervalEvent<'a>>>,
) -> (r: bool)
    ensures
        r == (match (*a, *b) {
            (Some(x), Some(y)) => events_view(x@) == events_view(y@),
            (None, None) => true,
            _ => false,
        }),
{
    match (a, b) {
        (Some(x), Some(y)) => events_eq(x, y),
        (None, None) => true,
        _ => false,
    }
}

impl<'a> PartialEq for IntervalData<'a> {
    fn eq(&self, other: &Self) -> (r: bool) {
        self.interval_date == other.interval_date && readings_eq(
            &self.interval_value,
            &other.interval_value,
        ) && bytes_eq(self.quality_method, other.quality_method) && opt_bytes_eq(
            self.reason_code,
            other.reason_code,
        ) && opt_bytes_eq(self.reason_description, other.reason_description)
            && self.update_datetime == other.update_datetime && self.msats_load_datetime
            == other.msats_load_datetime && opt_events_eq(
            &self.interval_events,
            &other.interval_events,
        )
    }
}

impl<'a> PartialEqSpecImpl for IntervalData<'a> {
    open spec fn obeys_eq_spec() -> bool {
        true
    }

    open spec fn eq_spec(&self, other: &Self) -> bool {
        self@ == other@
    }
}

impl<'a> Eq for IntervalData<'a> {

}

fn intervals_eq<'a>(a: &Vec<IntervalData<'a>>, b: &Vec<IntervalData<'a>>) -> (r: bool)
    ensures
        r == (intervals_view(a@) == intervals_view(b@)),
{
    if a.len() != b.len() {
        assert(intervals_view(a@).len() != intervals_view(b@).len());
        return false;
    }
    let mut i: usize = 0;
    while i < a.len()
        invariant
            i <= a@.len() == b@.len(),
            forall|k: int| 0 <= k < i ==> a@[k]@ == b@[k]@,
        decreases a@.len() - i,
    {
        if a[i] != b[i] {
            assert(intervals_view(a@)[i as int] != intervals_view(b@)[i as int]);
            return false;
        }
        i = i + 1;
    }
    assert(intervals_view(a@) =~= intervals_view(b@));
    true
}

fn exchanges_eq<'a>(a: &Vec<B2BDetails<'a>>, b: &Vec<B2BDetails<'a>>) -> (r: bool)
    ensures
        r == (exchanges_view(a@) == exchanges_view(b@)),
{
    if a.len() != b.len() {
        assert(exchanges_view(a@).len() != exchanges_view(b@).len());
        return false;
    }
    let mut i: usize = 0;
    while i < a.len()
        invariant
            i <= a@.len() == b@.len(),
            forall|k: int| 0 <= k < i ==> a@[k]@ == b@[k]@,
        decreases a@.len() - i,
    {
        if a[i] != b[i] {
            assert(exchanges_view(a@)[i as int] != exchanges_view(b@)[i as int]);
            return false;
        }
        i = i + 1;
    }
    assert(exchanges_view(a@) =~= exchanges_view(b@));
    true
}

impl<'a> PartialEq for NMIDataDetails<'a> {
    fn eq(&self, other: &Self) -> (r: bool) {
        let intervals = match (&self.interval_data_vec, &other.interval_data_vec) {
            (Some(x), Some(y)) => intervals_eq(x, y),
            (None, None) => true,
            _ => false,
        };
        let exchanges = match (&self.b2b_details, &other.b2b_details) {
            (Some(x), Some(y)) => exchanges_eq(x, y),
            (None, None) => true,
            _ => false,
        };
        bytes_eq(self.nmi, other.nmi) && bytes_eq(self.nmi_configuration, other.nmi_configuration)
            && bytes_eq(self.register_id, other.register_id) && bytes_eq(
            self.nmi_suffix,
            other.nmi_suffix,
        ) && opt_bytes_eq(self.mdm_data_stream_id, other.mdm_data_stream_id) && bytes_eq(
            self.meter_serial_number,
            other.meter_serial_number,
        ) && bytes_eq_ignoring_case(self.uom, other.uom) && self.interval_length
            == other.interval_length && self.next_scheduled_read_date
            == other.next_scheduled_read_date && intervals && exchanges
    }
}

impl<'a> PartialEqSpecImpl for NMIDataDetails<'a> {
    open spec fn obeys_eq_spec() -> bool {
        true
    }

    open spec fn eq_spec(&self, other: &Self) -> bool {
        same_block(self@, other@)
    }
}

impl<'a> Eq for NMIDataDetails<'a> {

}

impl<'a> PartialEq for Kind<'a> {
    fn eq(&self, other: &Self) -> (r: bool) {
        match (self, other) {
            (Kind::Header(x), Kind::Header(y)) => x == y,
            (Kind::NMIDataDetails(x), Kind::NMIDataDetails(y)) => x == y,
            (Kind::IntervalData(x), Kind::IntervalData(y)) => x == y,
            (Kind::IntervalEvent(x), Kind::IntervalEvent(y)) => x == y,
            (Kind::B2BDetails(x), Kind::B2BDetails(y)) => x == y,
            (Kind::EndOfData(_), Kind::EndOfData(_)) => true,
            _ => false,
        }
    }
}

impl<'a> PartialEqSpecImpl for Kind<'a> {
    open spec fn obeys_eq_spec() -> bool {
        true
    }

    open spec fn eq_spec(&self, other: &Self) -> bool {
        same_record(self@, other@)
    }
}

fn blocks_eq<'a>(a: &Vec<NMIDataDetails<'a>>, b: &Vec<NMIDataDetails<'a>>) -> (r: bool)
    ensures
        r == same_blocks(blocks_view(a@), blocks_view(b@)),
{
    if a.len() != b.len() {
        return false;
    }
    let mut i: usize = 0;
    while i < a.len()
        invariant
            i <= a@.len() == b@.len(),
            forall|k: int| 0 <= k < i ==> same_block(a@[k]@, b@[k]@),
        decreases a@.len() - i,
    {
        if a[i] != b[i] {
            assert(!same_block(blocks_view(a@)[i as int], blocks_view(b@)[i as int]));
            return false;
        }
        i = i + 1;
    }
    assert forall|k: int| 0 <= k < blocks_view(a@).len() implies same_block(
        #[trigger] blocks_view(a@)[k],
        blocks_view(b@)[k],
    ) by {
        assert(same_block(a@[k]@, b@[k]@));
    }
    true
}

impl<'a> PartialEq for NEM12<'a> {
    fn eq(&self, other: &Self) -> (r: bool) {
        self.header == other.header && blocks_eq(&self.nmi_data_details, &other.nmi_data_details)
    }
}

impl<'a> PartialEqSpecImpl for NEM12<'a> {
    open spec fn obeys_eq_spec() -> bool {
        true
    }

    open spec fn eq_spec(&self, other: &Self) -> bool {
        same_document(self@, other@)
    }
}

} // verus!
