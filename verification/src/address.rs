//! Finding a byte slice inside another by the addresses that the two occupy.
//!
//! A slice obtained from a buffer, by trimming or splitting its text, lies
//! within the addresses of that buffer. Its position is then the difference
//! of two addresses, and no byte has to be compared to find it.
use std::ops::Range;
use vstd::prelude::*;

verus! {

/// The addresses that a byte slice occupies: from `start` up to `end`, which
/// is the first address behind the slice.
#[derive(Clone, Copy, Debug, PartialEq, Eq, Structural)]
pub struct AddressRange {
    /// Address of the first byte.
    pub start: usize,
    /// Address behind the last byte.
    pub end: usize,
}

impl AddressRange {
    /// Whether `other` is a range that lies within this one. An empty range
    /// lies within this one if its address does, or comes directly behind.
    pub open spec fn contains(&self, other: &AddressRange) -> bool {
        self.start <= other.start <= other.end <= self.end
    }

    /// The place of `other` within this range, as offsets from the start of
    /// this range. It has a meaning where this range contains `other`.
    pub open spec fn place_of(&self, other: &AddressRange) -> Range<usize> {
        Range {
            start: (other.start - self.start) as usize,
            end: (other.end - self.start) as usize,
        }
    }
}

/// `<[u8]>::as_ptr_range` of two slices that are borrowed at the same time:
/// the address at which each starts, and the address behind its end.
///
/// The contract says nothing of what the addresses are. It says that the
/// two addresses of a slice lie as far apart as the slice is long, and that
/// where the addresses of `candidate` lie within those of `current`, both
/// refer to the same memory, so that `candidate` holds the bytes of
/// `current` at that place.
#[verifier::external_body]
pub(crate) fn slice_ptr_range(current: &[u8], candidate: &[u8]) -> (r: (
    AddressRange,
    AddressRange,
))
    ensures
        r.0.start + current@.len() == r.0.end,
        r.1.start + candidate@.len() == r.1.end,
        r.0.contains(&r.1) ==> candidate@ == current@.subrange(
            r.1.start - r.0.start,
            r.1.end - r.0.start,
        ),
{
    let current = current.as_ptr_range();
    let candidate = candidate.as_ptr_range();
    (
        AddressRange { start: current.start as usize, end: current.end as usize },
        AddressRange { start: candidate.start as usize, end: candidate.end as usize },
    )
}

/// The place of `candidate` within `current`, as offsets from the start of
/// `current`, if `current` contains it, and `None` if it does not. Only the
/// addresses are looked at.
pub fn try_slice_offset(current: AddressRange, candidate: AddressRange) -> (r: Option<
    Range<usize>,
>)
    ensures
        match r {
            Some(range) => {
                &&& current.contains(&candidate)
                &&& range == current.place_of(&candidate)
                &&& range.start == candidate.start - current.start
                &&& range.end == candidate.end - current.start
            },
            None => !current.contains(&candidate),
        },
{
    let contains_start = current.start <= candidate.start;
    let contains_end = current.end >= candidate.end;
    if !contains_start || !contains_end || candidate.start > candidate.end {
        return None;
    }
    let offset_start = candidate.start - current.start;
    let offset_end = candidate.end - current.start;
    Some(offset_start..offset_end)
}

} // verus!
