//! Conversions between strings of this library and those of the standard
//! library, and the standard traits that rest on the visible text.
use crate::buffer::{hash_str, string_push};
use std::borrow::Cow;
use crate::data::Data;
use crate::string::ImString;
use std::borrow::Borrow;
use std::convert::Infallible;
use std::hash::Hash;
use std::hash::Hasher;
use std::ops::Add;
use std::ops::AddAssign;
use std::ops::Deref;
use std::str::FromStr;
use vstd::prelude::*;
use vstd::string::StringSliceAdditionalSpecFns;
use vstd::utf8::*;

verus! {

impl<S: Data<String>> Default for ImString<S> {
    /// The empty string.
    fn default() -> (r: Self)
        ensures
            r.wf(),
            r@ == Seq::<char>::empty(),
            r.bytes() == Seq::<u8>::empty(),
            r.buffer() == Seq::<u8>::empty(),
            r.raw_offset().start == 0,
            r.raw_offset().end == 0,
    {
        ImString::new()
    }
}

impl<'a, S: Data<String>> From<&'a str> for ImString<S> {
    /// A string with a copy of `string` as its text.
    fn from(string: &'a str) -> (r: Self)
        ensures
            r.wf(),
            r@ == string@,
            r.bytes() == string.spec_bytes(),
            r.buffer() == string.spec_bytes(),
            r.raw_offset().start == 0,
            r.raw_offset().end == r.buffer().len(),
    {
        ImString::from_std_string(string.to_owned())
    }
}

impl<'a, S: Data<String>> vstd::std_specs::convert::FromSpecImpl<&'a str> for ImString<S> {
    open spec fn obeys_from_spec() -> bool {
        false
    }

    open spec fn from_spec(string: &'a str) -> Self {
        arbitrary()
    }
}

impl<S: Data<String>> From<char> for ImString<S> {
    /// A string with the one character `c` as its text.
    fn from(c: char) -> (r: Self)
        ensures
            r.wf(),
            r@ == seq![c],
            r.bytes() == encode_utf8(seq![c]),
            r.buffer() == encode_utf8(seq![c]),
            r.raw_offset().start == 0,
            r.raw_offset().end == r.buffer().len(),
    {
        let mut string = String::new();
        string_push(&mut string, c);
        proof {
            assert(Seq::<char>::empty().push(c) =~= seq![c]);
        }
        ImString::from_std_string(string)
    }
}

impl<S: Data<String>> vstd::std_specs::convert::FromSpecImpl<char> for ImString<S> {
    open spec fn obeys_from_spec() -> bool {
        false
    }

    open spec fn from_spec(c: char) -> Self {
        arbitrary()
    }
}

impl<S: Data<String>> From<String> for ImString<S> {
    /// A string with `string` as its buffer.
    fn from(string: String) -> (r: Self)
        ensures
            r.wf(),
            r@ == string@,
            r.bytes() == encode_utf8(string@),
            r.buffer() == encode_utf8(string@),
            r.raw_offset().start == 0,
            r.raw_offset().end == r.buffer().len(),
    {
        ImString::from_std_string(string)
    }
}

impl<S: Data<String>> vstd::std_specs::convert::FromSpecImpl<String> for ImString<S> {
    open spec fn obeys_from_spec() -> bool {
        false
    }

    open spec fn from_spec(string: String) -> Self {
        arbitrary()
    }
}

impl<S: Data<String>> From<ImString<S>> for String {
    /// The text of `string` as a standard string.
    fn from(string: ImString<S>) -> (r: Self)
        ensures
            r@ == string@,
    {
        string.into_std_string()
    }
}

impl<S: Data<String>> vstd::std_specs::convert::FromSpecImpl<ImString<S>> for String {
    open spec fn obeys_from_spec() -> bool {
        false
    }

    open spec fn from_spec(string: ImString<S>) -> Self {
        arbitrary()
    }
}

impl<'a, S: Data<String>> From<Cow<'a, str>> for ImString<S> {
    /// A string with the text of `string`, which is copied only where it
    /// was borrowed.
    fn from(string: Cow<'a, str>) -> (r: Self)
        ensures
            r.wf(),
            r@ == string@,
            r.bytes() == encode_utf8(string@),
            r.buffer() == encode_utf8(string@),
            r.raw_offset().start == 0,
            r.raw_offset().end == r.buffer().len(),
    {
        match string {
            Cow::Borrowed(borrowed) => ImString::from_std_string(borrowed.to_owned()),
            Cow::Owned(owned) => ImString::from_std_string(owned),
        }
    }
}

impl<'a, S: Data<String>> vstd::std_specs::convert::FromSpecImpl<Cow<'a, str>> for ImString<S> {
    open spec fn obeys_from_spec() -> bool {
        false
    }

    open spec fn from_spec(string: Cow<'a, str>) -> Self {
        arbitrary()
    }
}

impl<S: Data<String>> FromStr for ImString<S> {
    type Err = Infallible;

    /// A string with a copy of `s` as its text. This never fails.
    fn from_str(s: &str) -> (r: Result<Self, Infallible>)
        ensures
            r matches Ok(string) && {
                &&& string.wf()
                &&& string@ == s@
                &&& string.bytes() == s.spec_bytes()
                &&& string.buffer() == s.spec_bytes()
                &&& string.raw_offset().start == 0
                &&& string.raw_offset().end == string.buffer().len()
            },
    {
        Ok(ImString::from_std_string(s.to_owned()))
    }
}

/// `std::fmt::Error`, which says that writing failed and nothing more.
#[verifier::external_type_specification]
pub struct ExFmtError(std::fmt::Error);

impl<S: Data<String>> std::fmt::Write for ImString<S> {
    /// Appends `string`. This never fails.
    fn write_str(&mut self, string: &str) -> (r: Result<(), std::fmt::Error>)
        ensures
            r is Ok,
            final(self).wf(),
            final(self)@ == old(self)@ + string@,
            final(self).bytes() == old(self).bytes() + encode_utf8(string@),
            final(self).buffer() == final(self).bytes(),
            final(self).raw_offset().start == 0,
            final(self).raw_offset().end == final(self).buffer().len(),
    {
        self.push_str(string);
        Ok(())
    }

    /// Appends `c`. This never fails.
    fn write_char(&mut self, c: char) -> (r: Result<(), std::fmt::Error>)
        ensures
            r is Ok,
            final(self).wf(),
            final(self)@ == old(self)@.push(c),
            final(self).bytes() == old(self).bytes() + encode_utf8(seq![c]),
            final(self).buffer() == final(self).bytes(),
            final(self).raw_offset().start == 0,
            final(self).raw_offset().end == final(self).buffer().len(),
    {
        self.push(c);
        Ok(())
    }
}

impl<S: Data<String>> Hash for ImString<S> {
    /// Feeds the visible text to the hasher, as a string slice with that
    /// text would be fed.
    fn hash<H: Hasher>(&self, hasher: &mut H) {
        hash_str(self.as_str(), hasher)
    }
}

impl<S: Data<String>> Deref for ImString<S> {
    type Target = str;

    /// The visible text.
    fn deref(&self) -> (r: &str)
        ensures
            r@ == self@,
            r.spec_bytes() == self.bytes(),
    {
        self.as_str()
    }
}

impl<S: Data<String>> Borrow<str> for ImString<S> {
    /// The visible text.
    fn borrow(&self) -> (r: &str)
        ensures
            <str as View>::view(r) == self@,
            <str as StringSliceAdditionalSpecFns>::spec_bytes(r) == self.bytes(),
    {
        self.as_str()
    }
}

impl<S: Data<String>> AsRef<str> for ImString<S> {
    /// The visible text.
    fn as_ref(&self) -> (r: &str)
        ensures
            <str as View>::view(r) == self@,
            <str as StringSliceAdditionalSpecFns>::spec_bytes(r) == self.bytes(),
    {
        self.as_str()
    }
}

impl<S: Data<String>> AsRef<[u8]> for ImString<S> {
    /// The visible bytes.
    fn as_ref(&self) -> (r: &[u8])
        ensures
            <[u8] as View>::view(r) == self.bytes(),
    {
        self.as_bytes()
    }
}

impl<'a, S: Data<String>> Add<&'a str> for ImString<S> {
    type Output = ImString<S>;

    /// This string with `string` appended.
    fn add(self, string: &'a str) -> (r: ImString<S>)
        ensures
            r.wf(),
            r@ == self@ + string@,
            r.bytes() == self.bytes() + encode_utf8(string@),
            r.buffer() == r.bytes(),
            r.raw_offset().start == 0,
            r.raw_offset().end == r.buffer().len(),
    {
        let mut sum = self;
        sum.push_str(string);
        sum
    }
}

impl<'a, S: Data<String>> vstd::std_specs::ops::AddSpecImpl<&'a str> for ImString<S> {
    open spec fn obeys_add_spec() -> bool {
        false
    }

    open spec fn add_req(self, string: &'a str) -> bool {
        true
    }

    open spec fn add_spec(self, string: &'a str) -> ImString<S> {
        arbitrary()
    }
}

impl<'a, S: Data<String>> AddAssign<&'a str> for ImString<S> {
    /// Appends `string`.
    fn add_assign(&mut self, string: &'a str)
        ensures
            final(self).wf(),
            final(self)@ == old(self)@ + string@,
            final(self).bytes() == old(self).bytes() + encode_utf8(string@),
            final(self).buffer() == final(self).bytes(),
            final(self).raw_offset().start == 0,
            final(self).raw_offset().end == final(self).buffer().len(),
    {
        self.push_str(string);
    }
}

} // verus!
