//! Facts about UTF-8 byte sequences and their character boundaries.
//!
//! A string's offsets count bytes, and its text is those bytes decoded. The
//! lemmas here carry a boundary from a window of a buffer to the buffer and
//! back, which is what slicing, splitting and writing in place rest on.
use vstd::prelude::*;
use vstd::utf8::*;

verus! {

/// A position that is a character boundary lies within the sequence.
pub proof fn lemma_boundary_in_bounds(bytes: Seq<u8>, index: int)
    requires
        valid_utf8(bytes),
        is_char_boundary(bytes, index),
    ensures
        0 <= index <= bytes.len(),
{
}

/// A prefix that is valid UTF-8 on its own ends at a character boundary.
pub proof fn lemma_valid_prefix_is_boundary(bytes: Seq<u8>, index: int)
    requires
        valid_utf8(bytes),
        0 <= index <= bytes.len(),
        valid_utf8(bytes.subrange(0, index)),
    ensures
        is_char_boundary(bytes, index),
    decreases bytes.len(),
{
    if index != 0 {
        let prefix = bytes.subrange(0, index);
        let width = length_of_first_scalar(bytes);
        assert(prefix[0] == bytes[0]);
        assert(length_of_first_scalar(prefix) == width);
        assert(width <= index);
        assert(pop_first_scalar(prefix) =~= pop_first_scalar(bytes).subrange(0, index - width));
        lemma_valid_prefix_is_boundary(pop_first_scalar(bytes), index - width);
    }
}

/// The bytes between two character boundaries are valid UTF-8.
pub proof fn lemma_window_valid(bytes: Seq<u8>, lo: int, hi: int)
    requires
        valid_utf8(bytes),
        lo <= hi,
        is_char_boundary(bytes, lo),
        is_char_boundary(bytes, hi),
    ensures
        0 <= lo <= hi <= bytes.len(),
        valid_utf8(bytes.subrange(lo, hi)),
{
    lemma_boundary_in_bounds(bytes, lo);
    lemma_boundary_in_bounds(bytes, hi);
    let head = bytes.subrange(0, hi);
    valid_utf8_split(bytes, hi);
    valid_utf8_split(bytes, lo);
    assert(head.subrange(0, lo) =~= bytes.subrange(0, lo));
    lemma_valid_prefix_is_boundary(head, lo);
    valid_utf8_split(head, lo);
    assert(head.subrange(lo, head.len() as int) =~= bytes.subrange(lo, hi));
}

/// Inside a window that starts and ends at character boundaries, a position
/// is a boundary of the window exactly if it is a boundary of the whole.
pub proof fn lemma_boundary_in_window(bytes: Seq<u8>, lo: int, hi: int, index: int)
    requires
        valid_utf8(bytes),
        lo <= hi,
        is_char_boundary(bytes, lo),
        is_char_boundary(bytes, hi),
        0 <= index <= hi - lo,
    ensures
        is_char_boundary(bytes.subrange(lo, hi), index) <==> is_char_boundary(bytes, lo + index),
{
    lemma_window_valid(bytes, lo, hi);
    let window = bytes.subrange(lo, hi);
    if is_char_boundary(window, index) {
        valid_utf8_split(window, index);
        valid_utf8_split(bytes, lo);
        valid_utf8_concat(bytes.subrange(0, lo), window.subrange(0, index));
        assert(bytes.subrange(0, lo) + window.subrange(0, index) =~= bytes.subrange(
            0,
            lo + index,
        ));
        lemma_valid_prefix_is_boundary(bytes, lo + index);
    }
    if is_char_boundary(bytes, lo + index) {
        lemma_window_valid(bytes, lo, lo + index);
        assert(window.subrange(0, index) =~= bytes.subrange(lo, lo + index));
        lemma_valid_prefix_is_boundary(window, index);
    }
}

/// Both ends of valid UTF-8 are character boundaries.
pub proof fn lemma_ends_are_boundaries(bytes: Seq<u8>)
    requires
        valid_utf8(bytes),
    ensures
        is_char_boundary(bytes, 0),
        is_char_boundary(bytes, bytes.len() as int),
{
    is_char_boundary_start_end_of_seq(bytes);
}

/// Encoding a concatenation gives the concatenation of the encodings.
pub proof fn lemma_encode_concat(left: Seq<char>, right: Seq<char>)
    ensures
        encode_utf8(left + right) == encode_utf8(left) + encode_utf8(right),
    decreases left.len(),
{
    if left.len() == 0 {
        assert(left + right =~= right);
        assert(encode_utf8(left) + encode_utf8(right) =~= encode_utf8(right));
    } else {
        assert((left + right).drop_first() =~= left.drop_first() + right);
        lemma_encode_concat(left.drop_first(), right);
        assert(encode_utf8(left + right) =~= encode_utf8(left) + encode_utf8(right));
    }
}

/// Decoding a concatenation of valid UTF-8 gives the concatenation of the
/// decoded parts.
pub proof fn lemma_decode_concat(left: Seq<u8>, right: Seq<u8>)
    requires
        valid_utf8(left),
        valid_utf8(right),
    ensures
        valid_utf8(left + right),
        is_char_boundary(left + right, left.len() as int),
        decode_utf8(left + right) == decode_utf8(left) + decode_utf8(right),
{
    let whole = left + right;
    valid_utf8_concat(left, right);
    assert(whole.subrange(0, left.len() as int) =~= left);
    assert(whole.subrange(left.len() as int, whole.len() as int) =~= right);
    lemma_valid_prefix_is_boundary(whole, left.len() as int);
    decode_utf8_split(whole, left.len() as int);
}

/// The byte after an ASCII byte starts a character, as the ASCII byte does.
pub proof fn lemma_ascii_boundaries(bytes: Seq<u8>, index: int)
    requires
        valid_utf8(bytes),
        0 <= index < bytes.len(),
        bytes[index] < 0x80,
    ensures
        is_char_boundary(bytes, index),
        is_char_boundary(bytes, index + 1),
{
    is_char_boundary_iff_not_is_continuation_byte(bytes, index);
    valid_utf8_split(bytes, index);
    let one = bytes.subrange(index, index + 1);
    assert(one.len() == 1 && one[0] == bytes[index]);
    assert(valid_first_scalar(one)) by {
        assert(decode_first_codepoint(one) == codepoint_width_1(one[0]));
        let b = one[0];
        assert(b < 0x80 ==> (b & 0x7F) as u32 == b as u32 && !(0xD800 <= (b & 0x7F) as u32
            <= 0xDFFF)) by (bit_vector);
    }
    assert(valid_utf8(one)) by {
        reveal_with_fuel(valid_utf8, 2);
        assert(pop_first_scalar(one) =~= Seq::<u8>::empty());
    }
    valid_utf8_concat(bytes.subrange(0, index), one);
    assert(bytes.subrange(0, index) + one =~= bytes.subrange(0, index + 1));
    lemma_valid_prefix_is_boundary(bytes, index + 1);
}

} // verus!
