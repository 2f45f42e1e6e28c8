//! The string type.
use crate::address::{slice_ptr_range, try_slice_offset, AddressRange};
use crate::buffer::{
    string_capacity, string_clear, string_from_utf8, string_from_utf8_lossy, string_insert,
    is_valid_up_to, string_insert_str, string_push, string_truncate, string_with_capacity,
    utf8_lossy,
};
use crate::data::Data;
use crate::encoding::{
    lemma_boundary_in_bounds, lemma_boundary_in_window, lemma_encode_concat,
    lemma_ends_are_boundaries, lemma_valid_prefix_is_boundary, lemma_window_valid,
};
use crate::error::{FromUtf8Error, SliceError};
use crate::range::{end_index, start_index, ByteRange};
use std::ops::Bound;
use std::ops::Range;
use vstd::prelude::*;
use vstd::string::StringExecFns;
use vstd::string::StringSliceAdditionalSpecFns;
use vstd::utf8::*;

verus! {

/// Cheaply cloneable and sliceable UTF-8 string.
///
/// An `ImString` is a window into a buffer behind a [`Data`] handle: the
/// handle and a range of byte offsets. Clones and slices share the buffer.
/// A change writes the buffer in place only where this string alone refers
/// to it and sees it from its first byte; otherwise it moves the visible
/// text to a buffer of its own first. So no change to one string shows in
/// another.
pub struct ImString<S: Data<String>> {
    /// Handle to the buffer.
    string: S,
    /// The visible window. Both ends are character boundaries of the buffer.
    offset: Range<usize>,
}

/// The part of `whole` between two of its character boundaries.
pub(crate) fn window(whole: &str, start: usize, end: usize) -> (r: &str)
    requires
        start <= end,
        is_char_boundary(whole.spec_bytes(), start as int),
        is_char_boundary(whole.spec_bytes(), end as int),
    ensures
        r.spec_bytes() == whole.spec_bytes().subrange(start as int, end as int),
        r@ == decode_utf8(whole.spec_bytes().subrange(start as int, end as int)),
{
    let ghost bytes = whole.spec_bytes();
    proof {
        encode_utf8_valid_utf8(whole@);
    }
    let (head, _) = whole.split_at(end);
    proof {
        valid_utf8_split(bytes, end as int);
        valid_utf8_split(bytes, start as int);
        assert(head.spec_bytes().subrange(0, start as int) =~= bytes.subrange(0, start as int));
        lemma_valid_prefix_is_boundary(head.spec_bytes(), start as int);
    }
    let (_, text) = head.split_at(start);
    proof {
        assert(text.spec_bytes() =~= bytes.subrange(start as int, end as int));
        encode_utf8_decode_utf8(text@);
    }
    text
}

/// The texts of `parts`, one after the other.
pub open spec fn join(parts: Seq<&str>) -> Seq<char>
    decreases parts.len(),
{
    if parts.len() == 0 {
        Seq::empty()
    } else {
        join(parts.drop_last()) + parts.last()@
    }
}

/// A change to a text, as the mutating methods of [`ImString`] hand it to
/// the one place that carries changes out.
enum Edit<'a> {
    /// Put a character at a byte position.
    Insert(usize, char),
    /// Put a string slice at a byte position.
    InsertStr(usize, &'a str),
    /// Append a character.
    Push(char),
    /// Append a string slice.
    PushStr(&'a str),
    /// Append characters, one after the other.
    Chars(&'a [char]),
    /// Append string slices, one after the other.
    Strs(&'a [&'a str]),
    /// Keep the given number of bytes at most.
    Truncate(usize),
    /// Remove everything.
    Clear,
}

impl<'a> Edit<'a> {
    /// Whether the change can be made to a text with the given bytes:
    /// positions to insert or cut at must be character boundaries.
    spec fn admits(self, bytes: Seq<u8>) -> bool {
        match self {
            Edit::Insert(index, _) => is_char_boundary(bytes, index as int),
            Edit::InsertStr(index, _) => is_char_boundary(bytes, index as int),
            Edit::Truncate(length) => length <= bytes.len() ==> is_char_boundary(
                bytes,
                length as int,
            ),
            _ => true,
        }
    }

    /// The bytes of the text after the change.
    spec fn result(self, bytes: Seq<u8>) -> Seq<u8> {
        match self {
            Edit::Insert(index, c) => bytes.subrange(0, index as int) + encode_utf8(seq![c])
                + bytes.subrange(index as int, bytes.len() as int),
            Edit::InsertStr(index, s) => bytes.subrange(0, index as int) + encode_utf8(s@)
                + bytes.subrange(index as int, bytes.len() as int),
            Edit::Push(c) => bytes + encode_utf8(seq![c]),
            Edit::PushStr(s) => bytes + encode_utf8(s@),
            Edit::Chars(chars) => bytes + encode_utf8(chars@),
            Edit::Strs(parts) => bytes + encode_utf8(join(parts@)),
            Edit::Truncate(length) => if length <= bytes.len() {
                bytes.subrange(0, length as int)
            } else {
                bytes
            },
            Edit::Clear => Seq::empty(),
        }
    }

    /// Makes the change to `text`.
    fn apply(self, text: String) -> (r: String)
        requires
            self.admits(encode_utf8(text@)),
        ensures
            encode_utf8(r@) == self.result(encode_utf8(text@)),
    {
        let mut text = text;
        match self {
            Edit::Insert(index, c) => string_insert(&mut text, index, c),
            Edit::InsertStr(index, s) => string_insert_str(&mut text, index, s),
            Edit::Push(c) => {
                proof {
                    assert(text@.push(c) =~= text@ + seq![c]);
                    lemma_encode_concat(text@, seq![c]);
                }
                string_push(&mut text, c)
            },
            Edit::PushStr(s) => {
                proof {
                    lemma_encode_concat(text@, s@);
                }
                text.append(s)
            },
            Edit::Chars(chars) => {
                let ghost start = text@;
                let mut index: usize = 0;
                while index < chars.len()
                    invariant
                        index <= chars@.len(),
                        text@ == start + chars@.subrange(0, index as int),
                    decreases chars@.len() - index,
                {
                    string_push(&mut text, chars[index]);
                    proof {
                        assert(chars@.subrange(0, index + 1) =~= chars@.subrange(
                            0,
                            index as int,
                        ).push(chars@[index as int]));
                    }
                    index += 1;
                }
                proof {
                    assert(chars@.subrange(0, index as int) =~= chars@);
                    lemma_encode_concat(start, chars@);
                }
            },
            Edit::Strs(parts) => {
                let ghost start = text@;
                let mut index: usize = 0;
                while index < parts.len()
                    invariant
                        index <= parts@.len(),
                        text@ == start + join(parts@.subrange(0, index as int)),
                    decreases parts@.len() - index,
                {
                    text.append(parts[index]);
                    proof {
                        let done = parts@.subrange(0, index + 1);
                        assert(done.drop_last() =~= parts@.subrange(0, index as int));
                        assert(done.last() == parts@[index as int]);
                    }
                    index += 1;
                }
                proof {
                    assert(parts@.subrange(0, index as int) =~= parts@);
                    lemma_encode_concat(start, join(parts@));
                }
            },
            Edit::Truncate(length) => string_truncate(&mut text, length),
            Edit::Clear => {
                proof {
                    assert(encode_utf8(Seq::<char>::empty()) =~= Seq::<u8>::empty());
                }
                string_clear(&mut text)
            },
        }
        text
    }
}

/// Whether `offset` can be the window of a string on a buffer with the
/// given bytes: it lies within them and both of its ends are character
/// boundaries.
pub open spec fn fits(buffer: Seq<u8>, offset: Range<usize>) -> bool {
    &&& offset.start <= offset.end <= buffer.len()
    &&& is_char_boundary(buffer, offset.start as int)
    &&& is_char_boundary(buffer, offset.end as int)
}

/// What stands in the way of taking bytes `start..end` of `bytes` as a
/// slice, if anything does. The tests are made in a fixed order and the
/// first that fails names the error: the start lies within the text, the end
/// does not lie before the start, the end lies within the text, the start is
/// a character boundary, the end is one.
pub open spec fn slice_check(bytes: Seq<u8>, start: int, end: int) -> Option<SliceError> {
    if start > bytes.len() {
        Some(SliceError::StartOutOfBounds)
    } else if end < start {
        Some(SliceError::EndBeforeStart)
    } else if end > bytes.len() {
        Some(SliceError::EndOutOfBounds)
    } else if !is_char_boundary(bytes, start) {
        Some(SliceError::StartNotAligned)
    } else if !is_char_boundary(bytes, end) {
        Some(SliceError::EndNotAligned)
    } else {
        None
    }
}

impl<S: Data<String>> Clone for ImString<S> {
    /// Another string on the same buffer with the same window.
    fn clone(&self) -> (r: Self)
        ensures
            r.wf(),
            r.buffer() == self.buffer(),
            r.raw_offset() == self.raw_offset(),
            r.bytes() == self.bytes(),
            r@ == self@,
    {
        proof {
            use_type_invariant(self);
        }
        ImString { string: self.string.duplicate(), offset: self.offset.start..self.offset.end }
    }
}

impl<S: Data<String>> View for ImString<S> {
    type V = Seq<char>;

    /// The visible text.
    open spec fn view(&self) -> Seq<char> {
        decode_utf8(self.bytes())
    }
}

impl<S: Data<String>> ImString<S> {
    #[verifier::type_invariant]
    spec fn inv(self) -> bool {
        self.wf()
    }

    /// The bytes of the whole buffer, of which this string shows a window.
    pub closed spec fn buffer(&self) -> Seq<u8> {
        encode_utf8(self.string.content()@)
    }

    /// The window as byte offsets into the buffer.
    pub closed spec fn spec_raw_offset(&self) -> Range<usize> {
        self.offset
    }

    /// The visible bytes: the window of the buffer.
    pub open spec fn bytes(&self) -> Seq<u8> {
        self.buffer().subrange(self.raw_offset().start as int, self.raw_offset().end as int)
    }

    /// The window lies within the buffer and both of its ends are character
    /// boundaries. Every string that this library hands out is well formed.
    pub open spec fn wf(&self) -> bool {
        &&& valid_utf8(self.buffer())
        &&& fits(self.buffer(), self.raw_offset())
    }

    /// The visible bytes of a well-formed string are valid UTF-8: they are
    /// the encoding of its text.
    pub proof fn lemma_bytes_encode_text(&self)
        requires
            self.wf(),
        ensures
            valid_utf8(self.bytes()),
            encode_utf8(self@) == self.bytes(),
            self.bytes().len() == self.raw_offset().end - self.raw_offset().start,
    {
        lemma_window_valid(
            self.buffer(),
            self.raw_offset().start as int,
            self.raw_offset().end as int,
        );
        decode_utf8_encode_utf8(self.bytes());
    }

    /// Returns a byte slice of this string's contents.
    pub fn as_bytes(&self) -> (r: &[u8])
        ensures
            self.wf(),
            r@ == self.bytes(),
    {
        proof {
            use_type_invariant(self);
        }
        let whole = self.string.get().as_str().as_bytes();
        &whole[self.offset.start..self.offset.end]
    }

    /// Returns the capacity of the buffer in bytes. It is that of the whole
    /// buffer, whatever part of it this string shows.
    pub fn capacity(&self) -> (r: usize)
        ensures
            r >= self.buffer().len(),
            r >= self.bytes().len(),
    {
        proof {
            use_type_invariant(self);
        }
        string_capacity(self.string.get())
    }

    /// Creates a string from a standard library `String`, which becomes the
    /// buffer without being copied.
    pub fn from_std_string(string: String) -> (r: Self)
        ensures
            r.wf(),
            r@ == string@,
            r.bytes() == encode_utf8(string@),
            r.buffer() == encode_utf8(string@),
            r.raw_offset().start == 0,
            r.raw_offset().end == r.buffer().len(),
    {
        let len = string.as_str().as_bytes().len();
        proof {
            encode_utf8_valid_utf8(string@);
            encode_utf8_decode_utf8(string@);
            lemma_ends_are_boundaries(encode_utf8(string@));
            assert(encode_utf8(string@).subrange(0, len as int) =~= encode_utf8(string@));
        }
        ImString { string: S::new(string), offset: 0..len }
    }

    /// Creates an empty string with room for `capacity` bytes, which must
    /// not be more than an allocation can hold.
    pub fn with_capacity(capacity: usize) -> (r: Self)
        requires
            capacity <= isize::MAX,
        ensures
            r.wf(),
            r@ == Seq::<char>::empty(),
            r.bytes() == Seq::<u8>::empty(),
            r.buffer() == Seq::<u8>::empty(),
            r.raw_offset().start == 0,
            r.raw_offset().end == 0,
    {
        let string = string_with_capacity(capacity);
        proof {
            assert(encode_utf8(string@) =~= Seq::<u8>::empty());
        }
        ImString::from_std_string(string)
    }

    /// Returns the length of the string in bytes.
    pub fn len(&self) -> (r: usize)
        ensures
            self.wf(),
            r == self.bytes().len(),
    {
        proof {
            use_type_invariant(self);
        }
        self.offset.end - self.offset.start
    }

    /// Creates a new, empty string.
    pub fn new() -> (r: Self)
        ensures
            r.wf(),
            r@ == Seq::<char>::empty(),
            r.bytes() == Seq::<u8>::empty(),
            r.buffer() == Seq::<u8>::empty(),
            r.raw_offset().start == 0,
            r.raw_offset().end == 0,
    {
        let string = String::new();
        proof {
            assert(encode_utf8(string@) =~= Seq::<u8>::empty());
        }
        ImString::from_std_string(string)
    }

    /// Returns the visible text as a string slice.
    pub fn as_str(&self) -> (r: &str)
        ensures
            self.wf(),
            r@ == self@,
            r.spec_bytes() == self.bytes(),
    {
        proof {
            use_type_invariant(self);
        }
        window(self.string.get().as_str(), self.offset.start, self.offset.end)
    }

    /// Converts a vector of bytes to a string, if the bytes are valid UTF-8.
    /// The error tells where they stop being valid and hands them back.
    pub fn from_utf8(vec: Vec<u8>) -> (r: Result<Self, FromUtf8Error>)
        ensures
            match r {
                Ok(string) => {
                    &&& valid_utf8(vec@)
                    &&& string.wf()
                    &&& string.bytes() == vec@
                    &&& string@ == decode_utf8(vec@)
                    &&& string.buffer() == vec@
                    &&& string.raw_offset().start == 0
                    &&& string.raw_offset().end == vec@.len()
                },
                Err(error) => {
                    &&& !valid_utf8(vec@)
                    &&& error.bytes@ == vec@
                    &&& is_valid_up_to(vec@, error.valid_up_to as int)
                },
            },
    {
        match string_from_utf8(vec) {
            Ok(string) => {
                proof {
                    decode_utf8_encode_utf8(vec@);
                }
                Ok(ImString::from_std_string(string))
            },
            Err(error) => Err(error),
        }
    }

    /// Converts a slice of bytes to a string, with U+FFFD in place of each
    /// sequence that is not valid UTF-8.
    pub fn from_utf8_lossy(bytes: &[u8]) -> (r: Self)
        ensures
            r.wf(),
            r@ == utf8_lossy(bytes@),
            r.bytes() == encode_utf8(utf8_lossy(bytes@)),
            r.buffer() == r.bytes(),
            r.raw_offset().start == 0,
            r.raw_offset().end == r.buffer().len(),
            valid_utf8(bytes@) ==> r@ == decode_utf8(bytes@) && r.bytes() == bytes@,
    {
        let string = string_from_utf8_lossy(bytes);
        proof {
            if valid_utf8(bytes@) {
                decode_utf8_encode_utf8(bytes@);
            }
        }
        ImString::from_std_string(string)
    }

    /// Converts a vector of bytes that the caller knows to be valid UTF-8
    /// to a string.
    pub fn from_utf8_unchecked(vec: Vec<u8>) -> (r: Self)
        requires
            valid_utf8(vec@),
        ensures
            r.wf(),
            r.bytes() == vec@,
            r@ == decode_utf8(vec@),
            r.buffer() == vec@,
            r.raw_offset().start == 0,
            r.raw_offset().end == vec@.len(),
    {
        match ImString::from_utf8(vec) {
            Ok(string) => string,
            Err(_) => unreached(),
        }
    }

    /// Converts this string into a standard library `String`.
    ///
    /// Where this string alone refers to its buffer and sees it from its
    /// first byte, the buffer itself is returned, cut to the visible end.
    /// Otherwise the visible text is copied.
    pub fn into_std_string(self) -> (r: String)
        ensures
            r@ == self@,
            encode_utf8(r@) == self.bytes(),
    {
        proof {
            use_type_invariant(&self);
            self.lemma_bytes_encode_text();
        }
        if self.offset.start != 0 {
            return self.as_str().to_owned();
        }
        let ImString { mut string, offset } = self;
        match string.get_mut() {
            Some(buffer) => {
                let mut text = String::new();
                core::mem::swap(buffer, &mut text);
                string_truncate(&mut text, offset.end);
                proof {
                    encode_utf8_decode_utf8(text@);
                }
                text
            },
            None => window(string.get().as_str(), offset.start, offset.end).to_owned(),
        }
    }

    /// Makes a change to the visible text. Every change to a string goes
    /// through here.
    ///
    /// Where this string alone refers to its buffer and sees it from its
    /// first byte, the buffer itself is cut to the visible end, changed, and
    /// stored behind the same handle. Otherwise the change is made to a copy
    /// of the visible text, which goes behind a new handle. Either way this
    /// string then shows its buffer whole.
    fn unchecked_append(&mut self, edit: Edit)
        requires
            edit.admits(old(self).bytes()),
        ensures
            final(self).wf(),
            final(self).bytes() == edit.result(old(self).bytes()),
            final(self).buffer() == final(self).bytes(),
            final(self).raw_offset().start == 0,
            final(self).raw_offset().end == final(self).buffer().len(),
    {
        let mut taken = ImString::new();
        core::mem::swap(self, &mut taken);
        proof {
            use_type_invariant(&taken);
            taken.lemma_bytes_encode_text();
        }
        let ImString { mut string, offset } = taken;
        match string.get_mut() {
            Some(buffer) if offset.start == 0 => {
                let mut text = String::new();
                core::mem::swap(buffer, &mut text);
                string_truncate(&mut text, offset.end);
                *buffer = edit.apply(text);
            },
            _ => {
                let text = window(string.get().as_str(), offset.start, offset.end).to_owned();
                string = S::new(edit.apply(text));
            },
        }
        let end = string.get().as_str().as_bytes().len();
        proof {
            let buffer = encode_utf8(string.content()@);
            encode_utf8_valid_utf8(string.content()@);
            lemma_ends_are_boundaries(buffer);
            assert(buffer.subrange(0, end as int) =~= buffer);
        }
        *self = ImString { string, offset: 0..end };
    }

    /// Inserts a character at byte position `index`, which must be a
    /// character boundary of this string.
    pub fn insert(&mut self, index: usize, c: char)
        requires
            is_char_boundary(old(self).bytes(), index as int),
        ensures
            final(self).wf(),
            final(self).bytes() == old(self).bytes().subrange(0, index as int) + encode_utf8(
                seq![c],
            ) + old(self).bytes().subrange(index as int, old(self).bytes().len() as int),
            final(self).bytes().len() == old(self).bytes().len() + encode_utf8(seq![c]).len(),
            final(self).buffer() == final(self).bytes(),
            final(self).raw_offset().start == 0,
            final(self).raw_offset().end == final(self).buffer().len(),
    {
        proof {
            use_type_invariant(&*self);
            self.lemma_bytes_encode_text();
            lemma_boundary_in_bounds(self.bytes(), index as int);
        }
        self.unchecked_append(Edit::Insert(index, c));
    }

    /// Inserts a string slice at byte position `index`, which must be a
    /// character boundary of this string.
    pub fn insert_str(&mut self, index: usize, s: &str)
        requires
            is_char_boundary(old(self).bytes(), index as int),
        ensures
            final(self).wf(),
            final(self).bytes() == old(self).bytes().subrange(0, index as int) + encode_utf8(s@)
                + old(self).bytes().subrange(index as int, old(self).bytes().len() as int),
            final(self).bytes().len() == old(self).bytes().len() + encode_utf8(s@).len(),
            final(self).buffer() == final(self).bytes(),
            final(self).raw_offset().start == 0,
            final(self).raw_offset().end == final(self).buffer().len(),
    {
        proof {
            use_type_invariant(&*self);
            self.lemma_bytes_encode_text();
            lemma_boundary_in_bounds(self.bytes(), index as int);
        }
        self.unchecked_append(Edit::InsertStr(index, s));
    }

    /// Shortens this string to its first `length` bytes. A string that is
    /// no longer than that keeps its text. `length` must be a character
    /// boundary of this string if it lies within it.
    pub fn truncate(&mut self, length: usize)
        requires
            length <= old(self).bytes().len() ==> is_char_boundary(
                old(self).bytes(),
                length as int,
            ),
        ensures
            final(self).wf(),
            final(self).bytes() == if length <= old(self).bytes().len() {
                old(self).bytes().subrange(0, length as int)
            } else {
                old(self).bytes()
            },
            final(self).buffer() == final(self).bytes(),
            final(self).raw_offset().start == 0,
            final(self).raw_offset().end == final(self).buffer().len(),
    {
        self.unchecked_append(Edit::Truncate(length));
    }

    /// Removes all of the text.
    pub fn clear(&mut self)
        ensures
            final(self).wf(),
            final(self)@ == Seq::<char>::empty(),
            final(self).bytes() == Seq::<u8>::empty(),
            final(self).buffer() == Seq::<u8>::empty(),
            final(self).raw_offset().start == 0,
            final(self).raw_offset().end == 0,
    {
        self.unchecked_append(Edit::Clear);
    }

    /// Appends a character.
    pub fn push(&mut self, c: char)
        ensures
            final(self).wf(),
            final(self)@ == old(self)@.push(c),
            final(self).bytes() == old(self).bytes() + encode_utf8(seq![c]),
            final(self).buffer() == final(self).bytes(),
            final(self).raw_offset().start == 0,
            final(self).raw_offset().end == final(self).buffer().len(),
    {
        proof {
            use_type_invariant(&*self);
            self.lemma_bytes_encode_text();
        }
        self.unchecked_append(Edit::Push(c));
        proof {
            assert(old(self)@.push(c) =~= old(self)@ + seq![c]);
            lemma_encode_concat(old(self)@, seq![c]);
            encode_utf8_decode_utf8(old(self)@.push(c));
        }
    }

    /// Appends a string slice.
    pub fn push_str(&mut self, slice: &str)
        ensures
            final(self).wf(),
            final(self)@ == old(self)@ + slice@,
            final(self).bytes() == old(self).bytes() + encode_utf8(slice@),
            final(self).buffer() == final(self).bytes(),
            final(self).raw_offset().start == 0,
            final(self).raw_offset().end == final(self).buffer().len(),
    {
        proof {
            use_type_invariant(&*self);
            self.lemma_bytes_encode_text();
        }
        self.unchecked_append(Edit::PushStr(slice));
        proof {
            lemma_encode_concat(old(self)@, slice@);
            encode_utf8_decode_utf8(old(self)@ + slice@);
        }
    }

    /// Appends characters, one after the other.
    pub fn extend_chars(&mut self, chars: &[char])
        ensures
            final(self).wf(),
            final(self)@ == old(self)@ + chars@,
            final(self).bytes() == old(self).bytes() + encode_utf8(chars@),
            final(self).buffer() == final(self).bytes(),
            final(self).raw_offset().start == 0,
            final(self).raw_offset().end == final(self).buffer().len(),
    {
        proof {
            use_type_invariant(&*self);
            self.lemma_bytes_encode_text();
        }
        self.unchecked_append(Edit::Chars(chars));
        proof {
            lemma_encode_concat(old(self)@, chars@);
            encode_utf8_decode_utf8(old(self)@ + chars@);
        }
    }

    /// Appends string slices, one after the other.
    pub fn extend_strs(&mut self, parts: &[&str])
        ensures
            final(self).wf(),
            final(self)@ == old(self)@ + join(parts@),
            final(self).bytes() == old(self).bytes() + encode_utf8(join(parts@)),
            final(self).buffer() == final(self).bytes(),
            final(self).raw_offset().start == 0,
            final(self).raw_offset().end == final(self).buffer().len(),
    {
        proof {
            use_type_invariant(&*self);
            self.lemma_bytes_encode_text();
        }
        self.unchecked_append(Edit::Strs(parts));
        proof {
            lemma_encode_concat(old(self)@, join(parts@));
            encode_utf8_decode_utf8(old(self)@ + join(parts@));
        }
    }

    /// Returns the visible text as a standard library `String` of its own.
    pub fn to_string(&self) -> (r: String)
        ensures
            r@ == self@,
    {
        self.as_str().to_owned()
    }

    /// Creates a string on the same buffer with `offset` as its window, if
    /// `offset` lies within the buffer and both of its ends are character
    /// boundaries. The offsets count from the start of the buffer, not of
    /// this string.
    pub fn try_raw_slice(&self, offset: Range<usize>) -> (r: Option<Self>)
        ensures
            match r {
                Some(slice) => {
                    &&& fits(self.buffer(), offset)
                    &&& slice.wf()
                    &&& slice.buffer() == self.buffer()
                    &&& slice.raw_offset() == offset
                    &&& slice.bytes() == self.buffer().subrange(
                        offset.start as int,
                        offset.end as int,
                    )
                },
                None => !fits(self.buffer(), offset),
            },
    {
        let whole = self.string.get().as_str();
        if offset.start > offset.end || offset.end > whole.as_bytes().len() {
            return None;
        }
        if !whole.is_char_boundary(offset.start) || !whole.is_char_boundary(offset.end) {
            return None;
        }
        proof {
            encode_utf8_valid_utf8(self.string.content()@);
        }
        Some(ImString { string: self.string.duplicate(), offset })
    }

    /// Creates a string from a string slice that was taken from the buffer
    /// of this string, without copying: the result shares the buffer.
    ///
    /// The slice is found by its address. `None` is returned if it does not
    /// lie within the buffer, or lies there across a character boundary.
    pub fn try_str_ref(&self, string: &str) -> (r: Option<Self>)
        ensures
            r matches Some(slice) ==> {
                &&& slice.wf()
                &&& slice.buffer() == self.buffer()
                &&& slice.bytes() == string.spec_bytes()
                &&& slice@ == string@
            },
    {
        let found = self.try_slice_ref(string.as_bytes());
        proof {
            encode_utf8_decode_utf8(string@);
        }
        found
    }

    /// Creates a string from a byte slice that was taken from the buffer of
    /// this string, without copying: the result shares the buffer.
    ///
    /// The slice is found by its address. `None` is returned if it does not
    /// lie within the buffer, or lies there across a character boundary.
    pub fn try_slice_ref(&self, slice: &[u8]) -> (r: Option<Self>)
        ensures
            r matches Some(found) ==> {
                &&& found.wf()
                &&& found.buffer() == self.buffer()
                &&& found.bytes() == slice@
            },
    {
        let whole = self.string.get().as_str().as_bytes();
        let (current, candidate) = slice_ptr_range(whole, slice);
        self.try_address_slice(current, candidate)
    }

    /// Creates a string on the same buffer at the place that `candidate`
    /// has within `current`, where `current` are the addresses of the
    /// buffer and `candidate` those of a slice.
    ///
    /// `None` is returned if `current` does not contain `candidate`, or if
    /// the place does not lie within the buffer between two character
    /// boundaries.
    pub fn try_address_slice(&self, current: AddressRange, candidate: AddressRange) -> (r:
        Option<Self>)
        ensures
            match r {
                Some(found) => {
                    &&& current.contains(&candidate)
                    &&& fits(self.buffer(), current.place_of(&candidate))
                    &&& found.wf()
                    &&& found.buffer() == self.buffer()
                    &&& found.raw_offset() == current.place_of(&candidate)
                    &&& found.raw_offset().start == candidate.start - current.start
                    &&& found.raw_offset().end == candidate.end - current.start
                    &&& found.bytes() == self.buffer().subrange(
                        candidate.start - current.start,
                        candidate.end - current.start,
                    )
                },
                None => !current.contains(&candidate) || !fits(
                    self.buffer(),
                    current.place_of(&candidate),
                ),
            },
    {
        match try_slice_offset(current, candidate) {
            Some(range) => self.try_raw_slice(range),
            None => None,
        }
    }

    /// Makes this string the only one on its buffer, without changing its
    /// text, and says whether the text had to be copied for it.
    ///
    /// Where the handle grants access for writing, nothing changes. Where
    /// it does not, because the buffer is shared, the visible text is
    /// copied to a buffer of its own, which this string then shows whole.
    pub fn detach(&mut self) -> (copied: bool)
        ensures
            final(self).wf(),
            final(self).bytes() == old(self).bytes(),
            final(self)@ == old(self)@,
            copied ==> {
                &&& final(self).buffer() == final(self).bytes()
                &&& final(self).raw_offset().start == 0
                &&& final(self).raw_offset().end == final(self).buffer().len()
            },
            !copied ==> {
                &&& final(self).buffer() == old(self).buffer()
                &&& final(self).raw_offset() == old(self).raw_offset()
            },
    {
        let mut taken = ImString::new();
        core::mem::swap(self, &mut taken);
        proof {
            use_type_invariant(&taken);
            taken.lemma_bytes_encode_text();
        }
        let ImString { mut string, offset } = taken;
        let copied = match string.get_mut() {
            Some(_) => false,
            None => true,
        };
        if copied {
            let text = window(string.get().as_str(), offset.start, offset.end).to_owned();
            *self = ImString::from_std_string(text);
        } else {
            *self = ImString { string, offset };
        }
        copied
    }

    /// Splits this string at byte position `position`: this string keeps
    /// the text before it, the text from it on is returned. Both share the
    /// buffer. A position behind the end or inside a character gives `None`
    /// and leaves this string as it is.
    pub fn try_split_off(&mut self, position: usize) -> (r: Option<Self>)
        ensures
            final(self).wf(),
            match r {
                Some(tail) => {
                    &&& is_char_boundary(old(self).bytes(), position as int)
                    &&& old(self).is_slice(final(self), 0, position as int)
                    &&& old(self).is_slice(&tail, position as int, old(self).bytes().len() as int)
                },
                None => {
                    &&& !is_char_boundary(old(self).bytes(), position as int)
                    &&& *final(self) == *old(self)
                },
            },
    {
        proof {
            use_type_invariant(&*self);
            self.lemma_bytes_encode_text();
        }
        if position > self.offset.end - self.offset.start {
            proof {
                if is_char_boundary(self.bytes(), position as int) {
                    lemma_boundary_in_bounds(self.bytes(), position as int);
                }
            }
            return None;
        }
        if !self.as_str().is_char_boundary(position) {
            return None;
        }
        let middle = self.offset.start + position;
        proof {
            let lo = self.offset.start as int;
            let hi = self.offset.end as int;
            lemma_boundary_in_window(self.buffer(), lo, hi, position as int);
            assert(self.buffer().subrange(middle as int, hi) =~= self.bytes().subrange(
                position as int,
                self.bytes().len() as int,
            ));
            assert(self.buffer().subrange(lo, middle as int) =~= self.bytes().subrange(
                0,
                position as int,
            ));
        }
        let tail = ImString { string: self.string.duplicate(), offset: middle..self.offset.end };
        self.offset.end = middle;
        Some(tail)
    }

    /// Splits this string at byte position `position`, which must be a
    /// character boundary of it: this string keeps the text before it, the
    /// text from it on is returned.
    pub fn split_off(&mut self, position: usize) -> (r: Self)
        requires
            is_char_boundary(old(self).bytes(), position as int),
        ensures
            old(self).is_slice(final(self), 0, position as int),
            old(self).is_slice(&r, position as int, old(self).bytes().len() as int),
    {
        match self.try_split_off(position) {
            Some(tail) => tail,
            None => unreached(),
        }
    }

    /// Returns `true` if this string has a length of zero.
    pub fn is_empty(&self) -> (r: bool)
        ensures
            self.wf(),
            r == (self.bytes().len() == 0),
            r == (self@.len() == 0),
    {
        proof {
            use_type_invariant(self);
            self.lemma_bytes_encode_text();
            if self@.len() == 0 {
                assert(encode_utf8(self@) =~= Seq::<u8>::empty());
            } else {
                encode_utf8_first_scalar(self@);
            }
        }
        self.offset.start == self.offset.end
    }

    /// Returns a handle to the whole buffer, which may hold more than the
    /// text of this string.
    pub fn raw_string(&self) -> (r: S)
        ensures
            encode_utf8(r.content()@) == self.buffer(),
    {
        self.string.duplicate()
    }

    /// Whether `other` is bytes `start..end` of this string, seen through
    /// the same buffer.
    pub open spec fn is_slice(&self, other: &Self, start: int, end: int) -> bool {
        &&& other.wf()
        &&& other.buffer() == self.buffer()
        &&& other.raw_offset().start == self.raw_offset().start + start
        &&& other.raw_offset().end == self.raw_offset().start + end
        &&& other.bytes() == self.bytes().subrange(start, end)
    }

    /// Creates a slice of this string, which shares its buffer.
    ///
    /// The range must be one that [`try_slice`](ImString::try_slice) accepts.
    pub fn slice<R: ByteRange>(&self, range: R) -> (r: Self)
        requires
            slice_check(
                self.bytes(),
                start_index(range.start_bound_spec()),
                end_index(range.end_bound_spec(), self.bytes().len() as int),
            ) is None,
        ensures
            self.is_slice(
                &r,
                start_index(range.start_bound_spec()),
                end_index(range.end_bound_spec(), self.bytes().len() as int),
            ),
    {
        match self.try_slice(range) {
            Ok(slice) => slice,
            Err(_) => unreached(),
        }
    }

    /// Creates a slice of this string, which shares its buffer, or says why
    /// the range cannot be taken.
    ///
    /// An included start `a` stands for offset `a`, an excluded one for
    /// `a + 1`; an excluded end `b` stands for offset `b`, an included one
    /// for `b + 1`; an open end for the end of the string.
    pub fn try_slice<R: ByteRange>(&self, range: R) -> (r: Result<Self, SliceError>)
        ensures
            match r {
                Ok(slice) => {
                    &&& slice_check(
                        self.bytes(),
                        start_index(range.start_bound_spec()),
                        end_index(range.end_bound_spec(), self.bytes().len() as int),
                    ) is None
                    &&& self.is_slice(
                        &slice,
                        start_index(range.start_bound_spec()),
                        end_index(range.end_bound_spec(), self.bytes().len() as int),
                    )
                },
                Err(error) => slice_check(
                    self.bytes(),
                    start_index(range.start_bound_spec()),
                    end_index(range.end_bound_spec(), self.bytes().len() as int),
                ) == Some(error),
            },
    {
        let len = self.len();
        let start = match range.start_bound() {
            Bound::Included(value) => value,
            Bound::Excluded(value) => {
                if value >= len {
                    return Err(SliceError::StartOutOfBounds);
                }
                value + 1
            },
            Bound::Unbounded => 0,
        };
        if start > len {
            return Err(SliceError::StartOutOfBounds);
        }
        let end = match range.end_bound() {
            Bound::Included(value) => {
                if value >= len {
                    return Err(SliceError::EndOutOfBounds);
                }
                value + 1
            },
            Bound::Excluded(value) => value,
            Bound::Unbounded => len,
        };
        if end < start {
            return Err(SliceError::EndBeforeStart);
        }
        if end > len {
            return Err(SliceError::EndOutOfBounds);
        }
        if !self.as_str().is_char_boundary(start) {
            return Err(SliceError::StartNotAligned);
        }
        if !self.as_str().is_char_boundary(end) {
            return Err(SliceError::EndNotAligned);
        }
        Ok(self.slice_unchecked(range))
    }

    /// Creates a slice of this string without testing the range.
    ///
    /// The caller answers for the range: it must be one that
    /// [`try_slice`](ImString::try_slice) accepts.
    pub fn slice_unchecked<R: ByteRange>(&self, range: R) -> (r: Self)
        requires
            slice_check(
                self.bytes(),
                start_index(range.start_bound_spec()),
                end_index(range.end_bound_spec(), self.bytes().len() as int),
            ) is None,
        ensures
            self.is_slice(
                &r,
                start_index(range.start_bound_spec()),
                end_index(range.end_bound_spec(), self.bytes().len() as int),
            ),
    {
        proof {
            use_type_invariant(self);
        }
        let start = match range.start_bound() {
            Bound::Included(value) => value,
            Bound::Excluded(value) => value + 1,
            Bound::Unbounded => 0,
        };
        let end = match range.end_bound() {
            Bound::Included(value) => value + 1,
            Bound::Excluded(value) => value,
            Bound::Unbounded => self.offset.end - self.offset.start,
        };
        proof {
            let lo = self.offset.start as int;
            let hi = self.offset.end as int;
            lemma_boundary_in_window(self.buffer(), lo, hi, start as int);
            lemma_boundary_in_window(self.buffer(), lo, hi, end as int);
            assert(self.buffer().subrange(lo + start, lo + end) =~= self.bytes().subrange(
                start as int,
                end as int,
            ));
        }
        ImString {
            string: self.string.duplicate(),
            offset: self.offset.start + start..self.offset.start + end,
        }
    }

    /// Returns the window of this string as byte offsets into its buffer.
    #[verifier::when_used_as_spec(spec_raw_offset)]
    pub fn raw_offset(&self) -> (r: Range<usize>)
        ensures
            r == self.spec_raw_offset(),
    {
        self.offset.start..self.offset.end
    }
}

} // verus!
