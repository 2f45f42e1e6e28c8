//! Splitting a string into its lines.
use crate::data::Data;
use crate::encoding::{
    lemma_ascii_boundaries, lemma_boundary_in_window, lemma_ends_are_boundaries,
};
use crate::string::{fits, ImString};
use std::ops::Range;
use vstd::prelude::*;
use vstd::utf8::*;

verus! {

/// The line feed, which ends a line.
pub const LINE_FEED: u8 = 0x0a;

/// The carriage return, which belongs to the line ending where it stands
/// directly before the line feed.
pub const CARRIAGE_RETURN: u8 = 0x0d;

/// The number of bytes before the first line feed, or the number of all
/// bytes where there is none.
pub open spec fn line_break(bytes: Seq<u8>) -> nat
    decreases bytes.len(),
{
    if bytes.len() == 0 || bytes[0] == LINE_FEED {
        0
    } else {
        1 + line_break(bytes.drop_first())
    }
}

/// `line` without the carriage return that it ends with, if it ends with one.
pub open spec fn strip_carriage_return(line: Seq<u8>) -> Seq<u8> {
    if line.len() > 0 && line.last() == CARRIAGE_RETURN {
        line.drop_last()
    } else {
        line
    }
}

/// The first line of `bytes`, without its line ending: what stands before
/// the first line feed, less a carriage return directly before it; or all
/// of `bytes`, where no line feed follows.
pub open spec fn first_line(bytes: Seq<u8>) -> Seq<u8> {
    if line_break(bytes) < bytes.len() {
        strip_carriage_return(bytes.subrange(0, line_break(bytes) as int))
    } else {
        bytes
    }
}

/// What follows the first line of `bytes` and its line ending.
pub open spec fn after_first_line(bytes: Seq<u8>) -> Seq<u8> {
    if line_break(bytes) < bytes.len() {
        bytes.subrange(line_break(bytes) as int + 1, bytes.len() as int)
    } else {
        Seq::empty()
    }
}

/// The lines of `bytes`, each without its line ending. A line ends with a
/// line feed, or with a carriage return and a line feed; the last line may
/// go without. Empty text has no lines, and a line ending at the very end
/// does not start another line.
pub open spec fn split_lines(bytes: Seq<u8>) -> Seq<Seq<u8>>
    decreases bytes.len(),
{
    if bytes.len() == 0 {
        Seq::empty()
    } else {
        seq![first_line(bytes)] + split_lines(after_first_line(bytes))
    }
}

/// Where the lines of `bytes` lie, each as the offsets of its start and of
/// its end, in a buffer that holds `bytes` from offset `at` on.
pub open spec fn line_offsets(bytes: Seq<u8>, at: int) -> Seq<(int, int)>
    decreases bytes.len(),
{
    if bytes.len() == 0 {
        Seq::empty()
    } else {
        seq![(at, at + first_line(bytes).len())] + line_offsets(
            after_first_line(bytes),
            at + bytes.len() - after_first_line(bytes).len(),
        )
    }
}

/// There is one pair of offsets for each line.
pub proof fn lemma_line_offsets_len(bytes: Seq<u8>, at: int)
    ensures
        line_offsets(bytes, at).len() == split_lines(bytes).len(),
    decreases bytes.len(),
{
    if bytes.len() != 0 {
        lemma_line_offsets_len(
            after_first_line(bytes),
            at + bytes.len() - after_first_line(bytes).len(),
        );
    }
}

/// The first line feed is where a line feed stands with none before it.
pub proof fn lemma_line_break(bytes: Seq<u8>, index: int)
    requires
        0 <= index <= bytes.len(),
        forall|earlier: int| 0 <= earlier < index ==> bytes[earlier] != LINE_FEED,
        index < bytes.len() ==> bytes[index] == LINE_FEED,
    ensures
        line_break(bytes) == index,
    decreases index,
{
    if index > 0 {
        let rest = bytes.drop_first();
        assert forall|earlier: int| 0 <= earlier < index - 1 implies rest[earlier]
            != LINE_FEED by {
            assert(rest[earlier] == bytes[earlier + 1]);
        }
        lemma_line_break(rest, index - 1);
    }
}

/// No line feed stands before the first line feed, and a line feed stands
/// there unless there is none at all.
pub proof fn lemma_line_break_is_first(bytes: Seq<u8>)
    ensures
        line_break(bytes) <= bytes.len(),
        forall|earlier: int| 0 <= earlier < line_break(bytes) ==> bytes[earlier] != LINE_FEED,
        line_break(bytes) < bytes.len() ==> bytes[line_break(bytes) as int] == LINE_FEED,
    decreases bytes.len(),
{
    if bytes.len() != 0 && bytes[0] != LINE_FEED {
        let rest = bytes.drop_first();
        lemma_line_break_is_first(rest);
        assert forall|earlier: int| 0 <= earlier < line_break(bytes) implies bytes[earlier]
            != LINE_FEED by {
            if earlier > 0 {
                assert(bytes[earlier] == rest[earlier - 1]);
            }
        }
        if line_break(bytes) < bytes.len() {
            assert(bytes[line_break(bytes) as int] == rest[line_break(rest) as int]);
        }
    }
}

/// A line ending at the very end of a text does not start another line: the
/// text has the same lines with it as without. This holds of a text that
/// ends in a line, that is, in a byte that is itself no part of a line
/// ending.
pub proof fn lemma_final_line_feed(bytes: Seq<u8>)
    requires
        bytes.len() > 0,
        bytes.last() != LINE_FEED,
        bytes.last() != CARRIAGE_RETURN,
    ensures
        split_lines(bytes.push(LINE_FEED)) == split_lines(bytes),
    decreases bytes.len(),
{
    let longer = bytes.push(LINE_FEED);
    let first = line_break(bytes) as int;
    lemma_line_break_is_first(bytes);
    assert forall|earlier: int| 0 <= earlier < first implies longer[earlier] != LINE_FEED by {
        assert(longer[earlier] == bytes[earlier]);
    }
    lemma_line_break(longer, first);
    assert(longer.subrange(0, first) =~= bytes.subrange(0, first));
    if first < bytes.len() {
        let rest = after_first_line(bytes);
        assert(bytes[first] == LINE_FEED);
        assert(rest.len() > 0);
        assert(rest.last() == bytes.last());
        assert(after_first_line(longer) =~= rest.push(LINE_FEED));
        lemma_final_line_feed(rest);
    } else {
        assert(bytes.subrange(0, first) =~= bytes);
        assert(after_first_line(longer) =~= Seq::<u8>::empty());
        assert(split_lines(after_first_line(longer)) =~= split_lines(after_first_line(bytes)));
    }
}

/// An iterator over the lines of a string. Each line is a slice of the
/// string and shares its buffer.
pub struct ImStringIterator<S: Data<String>> {
    /// The string that is split.
    source: ImString<S>,
    /// Byte offset in `source` at which the next line starts.
    position: usize,
}

/// The iterator that [`ImString::lines`] returns.
pub type Lines<S> = ImStringIterator<S>;

impl<S: Data<String>> ImStringIterator<S> {
    /// The position of the iterator is a character boundary of the string
    /// that it splits.
    #[verifier::type_invariant]
    spec fn inv(self) -> bool {
        &&& self.source.wf()
        &&& is_char_boundary(self.source.bytes(), self.position as int)
    }

    /// The bytes of the buffer that the lines share.
    pub closed spec fn buffer(&self) -> Seq<u8> {
        self.source.buffer()
    }

    /// The window of the buffer that is still to be split, as byte offsets
    /// into the buffer. It starts where the next line starts and ends where
    /// the string that is split ends.
    pub closed spec fn raw_offset(&self) -> Range<usize> {
        Range {
            start: (self.source.raw_offset().start + self.position) as usize,
            end: self.source.raw_offset().end,
        }
    }

    /// The bytes that are still to be split: the window of the buffer.
    pub open spec fn remaining(&self) -> Seq<u8> {
        self.buffer().subrange(self.raw_offset().start as int, self.raw_offset().end as int)
    }

    /// The window lies within the buffer and both of its ends are character
    /// boundaries. Every iterator that this library hands out is well
    /// formed.
    pub open spec fn wf(&self) -> bool {
        &&& valid_utf8(self.buffer())
        &&& fits(self.buffer(), self.raw_offset())
    }

    /// What the invariant says in terms of the buffer.
    proof fn lemma_window(&self)
        requires
            self.inv(),
        ensures
            self.wf(),
            self.source.bytes().len() == self.source.raw_offset().end
                - self.source.raw_offset().start,
            self.position <= self.source.bytes().len(),
            self.raw_offset().start == self.source.raw_offset().start + self.position,
            self.remaining() == self.source.bytes().subrange(
                self.position as int,
                self.source.bytes().len() as int,
            ),
    {
        self.source.lemma_bytes_encode_text();
        crate::encoding::lemma_boundary_in_bounds(self.source.bytes(), self.position as int);
        lemma_boundary_in_window(
            self.source.buffer(),
            self.source.raw_offset().start as int,
            self.source.raw_offset().end as int,
            self.position as int,
        );
        assert(self.remaining() =~= self.source.bytes().subrange(
            self.position as int,
            self.source.bytes().len() as int,
        ));
    }

    /// An iterator over the lines of `source`.
    pub(crate) fn new(source: ImString<S>) -> (r: Self)
        ensures
            r.wf(),
            r.buffer() == source.buffer(),
            r.raw_offset() == source.raw_offset(),
            r.remaining() == source.bytes(),
    {
        let _ = source.len();
        proof {
            source.lemma_bytes_encode_text();
            lemma_ends_are_boundaries(source.bytes());
        }
        let lines = ImStringIterator { source, position: 0 };
        proof {
            lines.lemma_window();
        }
        lines
    }

    /// Returns the next line, or `None` when nothing is left to split.
    ///
    /// The line starts where the window of the iterator starts, and the
    /// window then starts behind the line and its ending.
    pub fn next(&mut self) -> (r: Option<ImString<S>>)
        ensures
            old(self).wf(),
            final(self).wf(),
            final(self).buffer() == old(self).buffer(),
            final(self).raw_offset().end == old(self).raw_offset().end,
            match r {
                Some(line) => {
                    &&& old(self).remaining().len() > 0
                    &&& line.wf()
                    &&& line.buffer() == old(self).buffer()
                    &&& line.bytes() == first_line(old(self).remaining())
                    &&& line.raw_offset().start == old(self).raw_offset().start
                    &&& line.raw_offset().end == old(self).raw_offset().start + first_line(
                        old(self).remaining(),
                    ).len()
                    &&& final(self).remaining() == after_first_line(old(self).remaining())
                    &&& final(self).raw_offset().start == old(self).raw_offset().end
                        - after_first_line(old(self).remaining()).len()
                },
                None => {
                    &&& old(self).remaining().len() == 0
                    &&& final(self).remaining() == old(self).remaining()
                    &&& final(self).raw_offset() == old(self).raw_offset()
                },
            },
    {
        proof {
            use_type_invariant(&*self);
            self.lemma_window();
            self.source.lemma_bytes_encode_text();
            lemma_ends_are_boundaries(self.source.bytes());
        }
        let bytes = self.source.as_bytes();
        let len = bytes.len();
        let start = self.position;
        if start >= len {
            return None;
        }
        let ghost rest = self.remaining();
        let mut index = start;
        while index < len && bytes[index] != LINE_FEED
            invariant
                start <= index <= len,
                len == bytes@.len(),
                forall|earlier: int| start <= earlier < index ==> bytes@[earlier] != LINE_FEED,
            decreases len - index,
        {
            index += 1;
        }
        proof {
            assert forall|earlier: int| 0 <= earlier < index - start implies rest[earlier]
                != LINE_FEED by {
                assert(rest[earlier] == bytes@[start + earlier]);
            }
            lemma_line_break(rest, index - start);
        }
        let (end, next) = if index < len {
            proof {
                lemma_ascii_boundaries(bytes@, index as int);
            }
            if index > start && bytes[index - 1] == CARRIAGE_RETURN {
                proof {
                    lemma_ascii_boundaries(bytes@, index - 1);
                }
                (index - 1, index + 1)
            } else {
                (index, index + 1)
            }
        } else {
            (len, len)
        };
        proof {
            let chunk = rest.subrange(0, index - start);
            assert(chunk =~= bytes@.subrange(start as int, index as int));
            if index < len {
                if index > start && bytes@[index - 1] == CARRIAGE_RETURN {
                    assert(chunk.last() == bytes@[index - 1]);
                    assert(chunk.drop_last() =~= bytes@.subrange(start as int, end as int));
                } else {
                    if chunk.len() > 0 {
                        assert(chunk.last() == bytes@[index - 1]);
                    }
                }
                assert(rest.subrange(index - start + 1, rest.len() as int) =~= bytes@.subrange(
                    next as int,
                    len as int,
                ));
            } else {
                assert(rest =~= bytes@.subrange(start as int, end as int));
                assert(bytes@.subrange(next as int, len as int) =~= Seq::<u8>::empty());
            }
            assert(first_line(rest) == bytes@.subrange(start as int, end as int));
            assert(after_first_line(rest) == bytes@.subrange(next as int, len as int));
        }
        let line = self.source.slice_unchecked(start..end);
        self.position = next;
        proof {
            self.lemma_window();
        }
        Some(line)
    }

    /// Returns the lines that are left, in their order, each at its place
    /// in the buffer.
    pub fn collect(self) -> (r: Vec<ImString<S>>)
        ensures
            r@.len() == split_lines(self.remaining()).len(),
            r@.len() == line_offsets(self.remaining(), self.raw_offset().start as int).len(),
            forall|index: int|
                0 <= index < r@.len() ==> {
                    &&& (#[trigger] r@[index]).wf()
                    &&& r@[index].buffer() == self.buffer()
                    &&& r@[index].bytes() == split_lines(self.remaining())[index]
                    &&& r@[index].raw_offset().start == line_offsets(
                        self.remaining(),
                        self.raw_offset().start as int,
                    )[index].0
                    &&& r@[index].raw_offset().end == line_offsets(
                        self.remaining(),
                        self.raw_offset().start as int,
                    )[index].1
                },
    {
        let ghost all = split_lines(self.remaining());
        let ghost places = line_offsets(self.remaining(), self.raw_offset().start as int);
        let ghost buffer = self.buffer();
        proof {
            lemma_line_offsets_len(self.remaining(), self.raw_offset().start as int);
        }
        let mut rest = self;
        let mut lines: Vec<ImString<S>> = Vec::new();
        loop
            invariant
                rest.buffer() == buffer,
                lines@.len() <= all.len(),
                places.len() == all.len(),
                split_lines(rest.remaining()) == all.subrange(lines@.len() as int, all.len() as int),
                line_offsets(rest.remaining(), rest.raw_offset().start as int) == places.subrange(
                    lines@.len() as int,
                    places.len() as int,
                ),
                forall|index: int|
                    0 <= index < lines@.len() ==> {
                        &&& (#[trigger] lines@[index]).wf()
                        &&& lines@[index].buffer() == buffer
                        &&& lines@[index].bytes() == all[index]
                        &&& lines@[index].raw_offset().start == places[index].0
                        &&& lines@[index].raw_offset().end == places[index].1
                    },
            ensures
                lines@.len() == all.len(),
            decreases rest.remaining().len(),
        {
            let ghost before = rest.remaining();
            let ghost at = rest.raw_offset().start as int;
            match rest.next() {
                Some(line) => {
                    proof {
                        let behind = at + before.len() - after_first_line(before).len();
                        let spots = places.subrange(lines@.len() as int, places.len() as int);
                        assert(spots == seq![(at, at + first_line(before).len())] + line_offsets(
                            after_first_line(before),
                            behind,
                        ));
                        assert(spots.len() > 0);
                        assert(spots[0] == (at, at + first_line(before).len()));
                        assert(rest.raw_offset().start == behind);
                        assert(line_offsets(after_first_line(before), behind) =~= places.subrange(
                            lines@.len() as int + 1,
                            places.len() as int,
                        )) by {
                            assert(spots.subrange(1, spots.len() as int) =~= line_offsets(
                                after_first_line(before),
                                behind,
                            ));
                        }
                        let tail = all.subrange(lines@.len() as int, all.len() as int);
                        assert(tail == seq![first_line(before)] + split_lines(
                            after_first_line(before),
                        ));
                        assert(tail.len() > 0);
                        assert(tail[0] == first_line(before));
                        assert(split_lines(after_first_line(before)) =~= all.subrange(
                            lines@.len() as int + 1,
                            all.len() as int,
                        )) by {
                            assert(tail.subrange(1, tail.len() as int) =~= split_lines(
                                after_first_line(before),
                            ));
                        }
                    }
                    lines.push(line);
                },
                None => {
                    proof {
                        assert(all.subrange(lines@.len() as int, all.len() as int).len() == 0);
                    }
                    break ;
                },
            }
        }
        lines
    }
}

impl<S: Data<String>> ImString<S> {
    /// An iterator over the lines of this string.
    ///
    /// A line ends with a line feed, or with a carriage return and a line
    /// feed, neither of which belongs to the line. The last line may go
    /// without a line ending. The lines share the buffer of this string.
    pub fn lines(&self) -> (r: Lines<S>)
        ensures
            r.wf(),
            r.buffer() == self.buffer(),
            r.raw_offset() == self.raw_offset(),
            r.remaining() == self.bytes(),
    {
        ImStringIterator::new(self.clone())
    }
}

} // verus!
