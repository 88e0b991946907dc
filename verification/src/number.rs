//! Readings: decimal numbers in text, decoded into binary64 values.

use vstd::prelude::*;

verus! {

/// What nom's `number::complete::double` makes of `text`: nothing where it
/// rejects the text, else the number of bytes it leaves unread at the end
/// and the IEEE 754 binary64 bit pattern of the value it decoded.
pub uninterp spec fn nom_double(text: Seq<u8>) -> Option<(nat, u64)>;

/// The bit pattern of the reading that `text` writes, where nom's `double`
/// accepts all of `text` as one number.
pub open spec fn reading_of(text: Seq<u8>) -> Option<u64> {
    match nom_double(text) {
        Some((left, bits)) => if left == 0 {
            Some(bits)
        } else {
            None
        },
        None => None,
    }
}

/// Runs nom's `number::complete::double` on `text` and reports how many
/// bytes it left unread and the bit pattern of the value, or nothing where
/// it rejects the text. The contract claims only that this outcome is a
/// function of the text.
#[verifier::external_body]
fn double(text: &[u8]) -> (r: Option<(usize, u64)>)
    ensures
        nom_double(text@) == match r {
            Some((left, bits)) => Some((left as nat, bits)),
            None => None,
        },
{
    match nom::number::complete::double::<&[u8], nom::error::Error<&[u8]>>(text) {
        Ok((rest, value)) => Some((rest.len(), value.to_bits())),
        Err(_) => None,
    }
}

/// Decodes `text` as one reading: the whole of it must be a number.
pub fn reading(text: &[u8]) -> (r: Option<u64>)
    ensures
        r == reading_of(text@),
{
    match double(text) {
        Some((left, bits)) => if left == 0 {
            Some(bits)
        } else {
            None
        },
        None => None,
    }
}

} // verus!
