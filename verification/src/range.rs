//! Ranges of byte offsets, as slicing takes them.
use std::ops::Bound;
use std::ops::Range;
use std::ops::RangeFrom;
use std::ops::RangeFull;
use std::ops::RangeInclusive;
use std::ops::RangeTo;
use std::ops::RangeToInclusive;
use vstd::prelude::*;

verus! {

/// `std::ops::Bound`, an end of a range: a value that belongs to the range,
/// a value that does not, or no end at all. Its variants are read as the
/// standard library declares them.
#[verifier::external_type_specification]
#[verifier::reject_recursive_types(T)]
pub struct ExBound<T>(Bound<T>);

/// `std::ops::RangeFrom`, the range `start..`, with its field `start` as
/// the standard library declares it.
#[verifier::external_type_specification]
#[verifier::reject_recursive_types(Idx)]
pub struct ExRangeFrom<Idx>(RangeFrom<Idx>);

/// `std::ops::RangeTo`, the range `..end`, with its field `end` as the
/// standard library declares it.
#[verifier::external_type_specification]
#[verifier::reject_recursive_types(Idx)]
pub struct ExRangeTo<Idx>(RangeTo<Idx>);

/// `std::ops::RangeToInclusive`, the range `..=end`, with its field `end`
/// as the standard library declares it.
#[verifier::external_type_specification]
#[verifier::reject_recursive_types(Idx)]
pub struct ExRangeToInclusive<Idx>(RangeToInclusive<Idx>);

/// `std::ops::RangeFull`, the range `..`, which has no fields.
#[verifier::external_type_specification]
pub struct ExRangeFull(RangeFull);

/// A range of byte offsets, given by its two bounds: `a..b`, `a..`, `..b`,
/// `..`, `a..=b`, `..=b`, or a pair of bounds.
pub trait ByteRange {
    /// The bound at which the range starts.
    spec fn start_bound_spec(&self) -> Bound<usize>;

    /// The bound at which the range ends.
    spec fn end_bound_spec(&self) -> Bound<usize>;

    /// The bound at which the range starts.
    fn start_bound(&self) -> (r: Bound<usize>)
        ensures
            r == self.start_bound_spec(),
    ;

    /// The bound at which the range ends.
    fn end_bound(&self) -> (r: Bound<usize>)
        ensures
            r == self.end_bound_spec(),
    ;
}

impl ByteRange for Range<usize> {
    open spec fn start_bound_spec(&self) -> Bound<usize> {
        Bound::Included(self.start)
    }

    open spec fn end_bound_spec(&self) -> Bound<usize> {
        Bound::Excluded(self.end)
    }

    fn start_bound(&self) -> (r: Bound<usize>) {
        Bound::Included(self.start)
    }

    fn end_bound(&self) -> (r: Bound<usize>) {
        Bound::Excluded(self.end)
    }
}

impl ByteRange for RangeFrom<usize> {
    open spec fn start_bound_spec(&self) -> Bound<usize> {
        Bound::Included(self.start)
    }

    open spec fn end_bound_spec(&self) -> Bound<usize> {
        Bound::Unbounded
    }

    fn start_bound(&self) -> (r: Bound<usize>) {
        Bound::Included(self.start)
    }

    fn end_bound(&self) -> (r: Bound<usize>) {
        Bound::Unbounded
    }
}

impl ByteRange for RangeTo<usize> {
    open spec fn start_bound_spec(&self) -> Bound<usize> {
        Bound::Unbounded
    }

    open spec fn end_bound_spec(&self) -> Bound<usize> {
        Bound::Excluded(self.end)
    }

    fn start_bound(&self) -> (r: Bound<usize>) {
        Bound::Unbounded
    }

    fn end_bound(&self) -> (r: Bound<usize>) {
        Bound::Excluded(self.end)
    }
}

impl ByteRange for RangeToInclusive<usize> {
    open spec fn start_bound_spec(&self) -> Bound<usize> {
        Bound::Unbounded
    }

    open spec fn end_bound_spec(&self) -> Bound<usize> {
        Bound::Included(self.end)
    }

    fn start_bound(&self) -> (r: Bound<usize>) {
        Bound::Unbounded
    }

    fn end_bound(&self) -> (r: Bound<usize>) {
        Bound::Included(self.end)
    }
}

/// `RangeInclusive::start`: the first value of the range `start..=end`.
#[verifier::external_body]
pub(crate) fn inclusive_start(range: &RangeInclusive<usize>) -> (r: usize)
    ensures
        r == range@.start,
{
    *range.start()
}

/// `RangeInclusive::end`: the last value of the range `start..=end`.
#[verifier::external_body]
pub(crate) fn inclusive_end(range: &RangeInclusive<usize>) -> (r: usize)
    ensures
        r == range@.end,
{
    *range.end()
}

/// `RangeInclusive::is_empty`, for a range whose end is not before its
/// start: whether the range was used as an iterator and has handed out its
/// last value, after which no value belongs to it.
#[verifier::external_body]
pub(crate) fn inclusive_is_exhausted(range: &RangeInclusive<usize>) -> (r: bool)
    requires
        range@.start <= range@.end,
    ensures
        r == range@.exhausted,
{
    range.is_empty()
}

impl ByteRange for RangeInclusive<usize> {
    open spec fn start_bound_spec(&self) -> Bound<usize> {
        Bound::Included(self@.start)
    }

    /// The end belongs to the range, unless the range was used as an
    /// iterator and has handed out its last value.
    open spec fn end_bound_spec(&self) -> Bound<usize> {
        if self@.start <= self@.end && self@.exhausted {
            Bound::Excluded(self@.end)
        } else {
            Bound::Included(self@.end)
        }
    }

    fn start_bound(&self) -> (r: Bound<usize>) {
        Bound::Included(inclusive_start(self))
    }

    fn end_bound(&self) -> (r: Bound<usize>) {
        let start = inclusive_start(self);
        let end = inclusive_end(self);
        if start <= end && inclusive_is_exhausted(self) {
            Bound::Excluded(end)
        } else {
            Bound::Included(end)
        }
    }
}

impl ByteRange for RangeFull {
    open spec fn start_bound_spec(&self) -> Bound<usize> {
        Bound::Unbounded
    }

    open spec fn end_bound_spec(&self) -> Bound<usize> {
        Bound::Unbounded
    }

    fn start_bound(&self) -> (r: Bound<usize>) {
        Bound::Unbounded
    }

    fn end_bound(&self) -> (r: Bound<usize>) {
        Bound::Unbounded
    }
}

impl ByteRange for (Bound<usize>, Bound<usize>) {
    open spec fn start_bound_spec(&self) -> Bound<usize> {
        self.0
    }

    open spec fn end_bound_spec(&self) -> Bound<usize> {
        self.1
    }

    fn start_bound(&self) -> (r: Bound<usize>) {
        self.0
    }

    fn end_bound(&self) -> (r: Bound<usize>) {
        self.1
    }
}

/// The first byte offset of a range that starts at `bound`.
pub open spec fn start_index(bound: Bound<usize>) -> int {
    match bound {
        Bound::Included(value) => value as int,
        Bound::Excluded(value) => value + 1,
        Bound::Unbounded => 0,
    }
}

/// The byte offset at which a range that ends at `bound` stops, in a string
/// of `len` bytes: behind the byte at `value` where that byte belongs to
/// the range, at `value` where it does not.
pub open spec fn end_index(bound: Bound<usize>, len: int) -> int {
    match bound {
        Bound::Included(value) => value + 1,
        Bound::Excluded(value) => value as int,
        Bound::Unbounded => len,
    }
}

} // verus!
