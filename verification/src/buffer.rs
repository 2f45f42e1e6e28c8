//! The operations of `String` that the library needs and `vstd` does not
//! specify, each with the contract that its documentation gives.
//!
//! Positions and lengths count bytes of the UTF-8 encoding, as they do in
//! `String`; the contracts state them over `encode_utf8` of the text.
use crate::error::FromUtf8Error;
use std::hash::Hash;
use std::hash::Hasher;
use vstd::prelude::*;
use vstd::utf8::*;

verus! {

/// What `String::from_utf8_lossy` makes of a byte sequence: the decoded
/// text, with U+FFFD in place of each invalid sequence.
pub uninterp spec fn utf8_lossy(bytes: Seq<u8>) -> Seq<char>;

/// Whether `index` is the length of the longest prefix of `bytes` that is
/// valid UTF-8.
pub open spec fn is_valid_up_to(bytes: Seq<u8>, index: int) -> bool {
    &&& 0 <= index <= bytes.len()
    &&& valid_utf8(bytes.subrange(0, index))
    &&& forall|longer: int|
        index < longer <= bytes.len() ==> !valid_utf8(#[trigger] bytes.subrange(0, longer))
}

/// `String::with_capacity`: an empty string. Room for `capacity` bytes is
/// allocated, which the contract does not speak of.
#[verifier::external_body]
pub(crate) fn string_with_capacity(capacity: usize) -> (r: String)
    requires
        capacity <= isize::MAX,
    ensures
        r@ == Seq::<char>::empty(),
{
    String::with_capacity(capacity)
}

/// `String::capacity`: the size of the allocation in bytes, which is never
/// less than the length.
#[verifier::external_body]
pub(crate) fn string_capacity(s: &String) -> (r: usize)
    ensures
        r >= encode_utf8(s@).len(),
{
    s.capacity()
}

/// `String::truncate`: cuts the string to its first `new_len` bytes, and
/// leaves it as it is where it is no longer than that. A cut inside a
/// character panics, so it is not admitted.
#[verifier::external_body]
pub(crate) fn string_truncate(s: &mut String, new_len: usize)
    requires
        new_len <= encode_utf8(old(s)@).len() ==> is_char_boundary(
            encode_utf8(old(s)@),
            new_len as int,
        ),
    ensures
        encode_utf8(final(s)@) == if new_len <= encode_utf8(old(s)@).len() {
            encode_utf8(old(s)@).subrange(0, new_len as int)
        } else {
            encode_utf8(old(s)@)
        },
{
    s.truncate(new_len)
}

/// `String::clear`: removes all of the text.
#[verifier::external_body]
pub(crate) fn string_clear(s: &mut String)
    ensures
        final(s)@ == Seq::<char>::empty(),
{
    s.clear()
}

/// `String::push`: appends one character.
#[verifier::external_body]
pub(crate) fn string_push(s: &mut String, c: char)
    ensures
        final(s)@ == old(s)@.push(c),
{
    s.push(c)
}

/// `String::insert`: puts the encoding of `c` at byte position `index`. A
/// position behind the end or inside a character panics, so it is not
/// admitted.
#[verifier::external_body]
pub(crate) fn string_insert(s: &mut String, index: usize, c: char)
    requires
        is_char_boundary(encode_utf8(old(s)@), index as int),
    ensures
        encode_utf8(final(s)@) == encode_utf8(old(s)@).subrange(0, index as int) + encode_utf8(
            seq![c],
        ) + encode_utf8(old(s)@).subrange(index as int, encode_utf8(old(s)@).len() as int),
{
    s.insert(index, c)
}

/// `String::insert_str`: puts the bytes of `text` at byte position `index`.
/// A position behind the end or inside a character panics, so it is not
/// admitted.
#[verifier::external_body]
pub(crate) fn string_insert_str(s: &mut String, index: usize, text: &str)
    requires
        is_char_boundary(encode_utf8(old(s)@), index as int),
    ensures
        encode_utf8(final(s)@) == encode_utf8(old(s)@).subrange(0, index as int) + encode_utf8(
            text@,
        ) + encode_utf8(old(s)@).subrange(index as int, encode_utf8(old(s)@).len() as int),
{
    s.insert_str(index, text)
}

/// `String::from_utf8`: the text that `bytes` encode, if they are valid
/// UTF-8. If they are not, the error holds the bytes and, from
/// `Utf8Error::valid_up_to`, the length of their longest valid prefix.
#[verifier::external_body]
pub(crate) fn string_from_utf8(bytes: Vec<u8>) -> (r: Result<String, FromUtf8Error>)
    ensures
        match r {
            Ok(s) => valid_utf8(bytes@) && s@ == decode_utf8(bytes@),
            Err(e) => {
                &&& !valid_utf8(bytes@)
                &&& e.bytes@ == bytes@
                &&& is_valid_up_to(bytes@, e.valid_up_to as int)
            },
        },
{
    match String::from_utf8(bytes) {
        Ok(s) => Ok(s),
        Err(e) => Err(
            FromUtf8Error { valid_up_to: e.utf8_error().valid_up_to(), bytes: e.into_bytes() },
        ),
    }
}

/// `String::from_utf8_lossy`: the text of `bytes` with each invalid
/// sequence replaced. Valid UTF-8 comes back as the text it encodes.
#[verifier::external_body]
pub(crate) fn string_from_utf8_lossy(bytes: &[u8]) -> (r: String)
    ensures
        r@ == utf8_lossy(bytes@),
        valid_utf8(bytes@) ==> r@ == decode_utf8(bytes@),
{
    String::from_utf8_lossy(bytes).into_owned()
}

/// `<str as Hash>::hash`: feeds the text to the hasher. What the hasher
/// makes of it is its own matter, so nothing is stated.
#[verifier::external_body]
pub(crate) fn hash_str<H: Hasher>(text: &str, state: &mut H) {
    text.hash(state)
}

} // verus!
