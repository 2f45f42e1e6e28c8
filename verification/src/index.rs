//! Indexing a string by a range of byte offsets, which gives a string slice.
//!
//! As with `str`, the range must lie within the string and both of its ends
//! must be character boundaries.
use crate::data::Data;
use crate::encoding::{lemma_boundary_in_bounds, lemma_ends_are_boundaries};
use crate::range::{inclusive_end, inclusive_is_exhausted, inclusive_start};
use crate::string::{window, ImString};
use std::ops::Index;
use std::ops::Range;
use std::ops::RangeFrom;
use std::ops::RangeFull;
use std::ops::RangeInclusive;
use std::ops::RangeTo;
use vstd::prelude::*;
use vstd::string::StringSliceAdditionalSpecFns;
use vstd::utf8::*;

verus! {

impl<S: Data<String>> Index<Range<usize>> for ImString<S> {
    type Output = str;

    fn index(&self, index: Range<usize>) -> (r: &str)
        ensures
            r.spec_bytes() == self.bytes().subrange(index.start as int, index.end as int),
    {
        window(self.as_str(), index.start, index.end)
    }
}

impl<S: Data<String>> vstd::std_specs::core::IndexSpecImpl<Range<usize>> for ImString<S> {
    open spec fn index_req(&self, index: &Range<usize>) -> bool {
        &&& index.start <= index.end
        &&& is_char_boundary(self.bytes(), index.start as int)
        &&& is_char_boundary(self.bytes(), index.end as int)
    }
}

impl<S: Data<String>> Index<RangeFrom<usize>> for ImString<S> {
    type Output = str;

    fn index(&self, index: RangeFrom<usize>) -> (r: &str)
        ensures
            r.spec_bytes() == self.bytes().subrange(
                index.start as int,
                self.bytes().len() as int,
            ),
    {
        let text = self.as_str();
        proof {
            self.lemma_bytes_encode_text();
            lemma_boundary_in_bounds(self.bytes(), index.start as int);
            lemma_ends_are_boundaries(self.bytes());
        }
        window(text, index.start, text.as_bytes().len())
    }
}

impl<S: Data<String>> vstd::std_specs::core::IndexSpecImpl<RangeFrom<usize>> for ImString<S> {
    open spec fn index_req(&self, index: &RangeFrom<usize>) -> bool {
        is_char_boundary(self.bytes(), index.start as int)
    }
}

impl<S: Data<String>> Index<RangeTo<usize>> for ImString<S> {
    type Output = str;

    fn index(&self, index: RangeTo<usize>) -> (r: &str)
        ensures
            r.spec_bytes() == self.bytes().subrange(0, index.end as int),
    {
        let text = self.as_str();
        proof {
            self.lemma_bytes_encode_text();
            lemma_ends_are_boundaries(self.bytes());
        }
        window(text, 0, index.end)
    }
}

impl<S: Data<String>> vstd::std_specs::core::IndexSpecImpl<RangeTo<usize>> for ImString<S> {
    open spec fn index_req(&self, index: &RangeTo<usize>) -> bool {
        is_char_boundary(self.bytes(), index.end as int)
    }
}

/// The offset at which the string slice for `start..=end` starts: `start`,
/// or the offset behind `end` once the range has handed out its last value
/// as an iterator, when nothing is left of it.
pub open spec fn inclusive_begin(index: RangeInclusive<usize>) -> int {
    if index@.start <= index@.end && index@.exhausted {
        index@.end + 1
    } else {
        index@.start as int
    }
}

impl<S: Data<String>> Index<RangeInclusive<usize>> for ImString<S> {
    type Output = str;

    /// The string slice from `start` up to `end`, which belongs to it.
    fn index(&self, index: RangeInclusive<usize>) -> (r: &str)
        ensures
            r.spec_bytes() == self.bytes().subrange(inclusive_begin(index), index@.end + 1),
    {
        let start = inclusive_start(&index);
        let end = inclusive_end(&index);
        let text = self.as_str();
        proof {
            self.lemma_bytes_encode_text();
        }
        if start <= end && inclusive_is_exhausted(&index) {
            window(text, end + 1, end + 1)
        } else {
            window(text, start, end + 1)
        }
    }
}

impl<S: Data<String>> vstd::std_specs::core::IndexSpecImpl<RangeInclusive<usize>> for ImString<S> {
    open spec fn index_req(&self, index: &RangeInclusive<usize>) -> bool {
        &&& index@.end < self.bytes().len()
        &&& inclusive_begin(*index) <= index@.end + 1
        &&& is_char_boundary(self.bytes(), inclusive_begin(*index))
        &&& is_char_boundary(self.bytes(), index@.end + 1)
    }
}

impl<S: Data<String>> Index<RangeFull> for ImString<S> {
    type Output = str;

    fn index(&self, index: RangeFull) -> (r: &str)
        ensures
            r.spec_bytes() == self.bytes(),
            r@ == self@,
    {
        self.as_str()
    }
}

impl<S: Data<String>> vstd::std_specs::core::IndexSpecImpl<RangeFull> for ImString<S> {
    open spec fn index_req(&self, index: &RangeFull) -> bool {
        true
    }
}

} // verus!
