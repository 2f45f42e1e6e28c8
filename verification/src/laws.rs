//! What holds of strings whatever buffers they are on: of slices, of the two
//! parts of a split, of a text that goes out to a standard string and comes
//! back, and of the positions at which text can be inserted.
use crate::data::Data;
use crate::encoding::{lemma_decode_concat, lemma_ends_are_boundaries, lemma_window_valid};
use crate::error::SliceError;
use crate::string::{slice_check, ImString};
use vstd::prelude::*;
use vstd::utf8::*;

verus! {

/// A range that lies within valid UTF-8 and starts and ends at character
/// boundaries can be taken as a slice.
pub proof fn lemma_aligned_range_is_admitted(bytes: Seq<u8>, start: int, end: int)
    requires
        valid_utf8(bytes),
        0 <= start <= end <= bytes.len(),
        is_char_boundary(bytes, start),
        is_char_boundary(bytes, end),
    ensures
        slice_check(bytes, start, end) is None,
{
}

/// The whole of valid UTF-8 can be taken as a slice, and is all of it.
pub proof fn lemma_whole_range_is_admitted(bytes: Seq<u8>)
    requires
        valid_utf8(bytes),
    ensures
        slice_check(bytes, 0, bytes.len() as int) is None,
        bytes.subrange(0, bytes.len() as int) == bytes,
{
    lemma_ends_are_boundaries(bytes);
    assert(bytes.subrange(0, bytes.len() as int) =~= bytes);
}

/// A start behind the end of the text is what is reported, whatever else is
/// wrong with the range: also where its end lies before its start.
pub proof fn lemma_start_is_tested_first(bytes: Seq<u8>, start: int, end: int)
    requires
        start > bytes.len(),
    ensures
        slice_check(bytes, start, end) == Some(SliceError::StartOutOfBounds),
{
}

/// The errors come in a fixed order: each is reported only where none of
/// those before it applies.
pub proof fn lemma_errors_in_order(bytes: Seq<u8>, start: int, end: int)
    ensures
        slice_check(bytes, start, end) == Some(SliceError::StartOutOfBounds) <==> start
            > bytes.len(),
        slice_check(bytes, start, end) == Some(SliceError::EndBeforeStart) <==> start
            <= bytes.len() && end < start,
        slice_check(bytes, start, end) == Some(SliceError::EndOutOfBounds) <==> start <= end
            && start <= bytes.len() < end,
        slice_check(bytes, start, end) == Some(SliceError::StartNotAligned) <==> start <= end
            <= bytes.len() && !is_char_boundary(bytes, start),
        slice_check(bytes, start, end) == Some(SliceError::EndNotAligned) <==> start <= end
            <= bytes.len() && is_char_boundary(bytes, start) && !is_char_boundary(bytes, end),
{
}

impl<S: Data<String>> ImString<S> {
    /// The text of a slice is the part of the text that its bytes encode.
    /// What stands before the slice, the slice, and what stands behind it
    /// make up the text.
    pub proof fn lemma_slice_text(&self, slice: &Self, start: int, end: int)
        requires
            self.wf(),
            slice_check(self.bytes(), start, end) is None,
            self.is_slice(slice, start, end),
        ensures
            slice.bytes() == self.bytes().subrange(start, end),
            self@ == decode_utf8(self.bytes().subrange(0, start)) + slice@ + decode_utf8(
                self.bytes().subrange(end, self.bytes().len() as int),
            ),
    {
        self.lemma_bytes_encode_text();
        let bytes = self.bytes();
        let len = bytes.len() as int;
        crate::encoding::lemma_boundary_in_bounds(bytes, start);
        lemma_ends_are_boundaries(bytes);
        lemma_window_valid(bytes, 0, start);
        lemma_window_valid(bytes, start, end);
        lemma_window_valid(bytes, end, len);
        let head = bytes.subrange(0, start);
        let middle = bytes.subrange(start, end);
        let tail = bytes.subrange(end, len);
        lemma_decode_concat(head, middle);
        lemma_decode_concat(head + middle, tail);
        assert(head + middle + tail =~= bytes);
    }

    /// A slice of the whole of a string shows the text of the string.
    pub proof fn lemma_slice_all(&self, slice: &Self)
        requires
            self.wf(),
            self.is_slice(slice, 0, self.bytes().len() as int),
        ensures
            slice_check(self.bytes(), 0, self.bytes().len() as int) is None,
            slice.bytes() == self.bytes(),
            slice@ == self@,
            slice.raw_offset() == self.raw_offset(),
    {
        self.lemma_bytes_encode_text();
        lemma_whole_range_is_admitted(self.bytes());
    }

    /// The two parts of a split, one after the other, are the string that
    /// was split: no byte is lost, none is in both.
    pub proof fn lemma_split_parts(&self, head: &Self, tail: &Self, position: int)
        requires
            self.wf(),
            is_char_boundary(self.bytes(), position),
            self.is_slice(head, 0, position),
            self.is_slice(tail, position, self.bytes().len() as int),
        ensures
            head.bytes() + tail.bytes() == self.bytes(),
            head@ + tail@ == self@,
            head.bytes().len() == position,
            head.raw_offset().end == tail.raw_offset().start,
    {
        self.lemma_bytes_encode_text();
        crate::encoding::lemma_boundary_in_bounds(self.bytes(), position);
        assert(head.bytes() + tail.bytes() =~= self.bytes());
        decode_utf8_split(self.bytes(), position);
    }

    /// A text that is made a string, taken out as a standard string and made
    /// a string again is the same text at every step.
    pub proof fn lemma_round_trip<O: Data<String>>(
        &self,
        text: Seq<char>,
        owned: String,
        again: &ImString<O>,
    )
        requires
            self.bytes() == encode_utf8(text),
            encode_utf8(owned@) == self.bytes(),
            again.bytes() == encode_utf8(owned@),
        ensures
            self@ == text,
            owned@ == text,
            again@ == text,
            again.bytes() == self.bytes(),
    {
        encode_utf8_decode_utf8(text);
        encode_utf8_decode_utf8(owned@);
    }

    /// Text can always be inserted at the start and at the end of a string:
    /// both are character boundaries.
    pub proof fn lemma_insert_at_ends(&self)
        requires
            self.wf(),
        ensures
            is_char_boundary(self.bytes(), 0),
            is_char_boundary(self.bytes(), self.bytes().len() as int),
    {
        self.lemma_bytes_encode_text();
        lemma_ends_are_boundaries(self.bytes());
    }

    /// Inserting puts the new bytes between the two parts of the old ones,
    /// so the length grows by the number of bytes inserted.
    pub proof fn lemma_insert_length(&self, index: int, added: Seq<u8>)
        requires
            self.wf(),
            is_char_boundary(self.bytes(), index),
        ensures
            0 <= index <= self.bytes().len(),
            (self.bytes().subrange(0, index) + added + self.bytes().subrange(
                index,
                self.bytes().len() as int,
            )).len() == self.bytes().len() + added.len(),
    {
        self.lemma_bytes_encode_text();
        crate::encoding::lemma_boundary_in_bounds(self.bytes(), index);
    }
}

} // verus!
