//! Equality and order of strings, which go by the visible text alone.
use crate::bytes::{
    compare_bytes, equal_bytes, lemma_lexicographic_equal, lexicographic, Order,
};
use crate::data::Data;
use crate::string::ImString;
use std::cmp::Ordering;
use vstd::prelude::*;
use vstd::std_specs::cmp::PartialEqSpec;
use vstd::utf8::*;

verus! {

impl<S: Data<String>, O: Data<String>> PartialEq<ImString<O>> for ImString<S> {
    /// Whether the two strings show the same text, whatever buffers they
    /// show it from.
    fn eq(&self, other: &ImString<O>) -> (r: bool) {
        let same = equal_bytes(self.as_bytes(), other.as_bytes());
        proof {
            self.lemma_bytes_encode_text();
            other.lemma_bytes_encode_text();
        }
        same
    }
}

impl<S: Data<String>, O: Data<String>> vstd::std_specs::cmp::PartialEqSpecImpl<ImString<O>> for ImString<S> {
    open spec fn obeys_eq_spec() -> bool {
        true
    }

    open spec fn eq_spec(&self, other: &ImString<O>) -> bool {
        self@ == other@
    }
}

impl<S: Data<String>> Eq for ImString<S> {
}

impl<S: Data<String>> ImString<S> {
    /// Whether two strings are equal depends on the visible bytes alone:
    /// strings on different buffers, or at different places of one buffer,
    /// are equal if they show the same bytes, and only then. Strings that
    /// are equal are neither less nor greater than one another.
    pub proof fn lemma_equal_by_text<O: Data<String>>(&self, other: &ImString<O>)
        requires
            self.wf(),
            other.wf(),
        ensures
            self.eq_spec(other) <==> self.bytes() == other.bytes(),
            self.eq_spec(other) <==> self@ == other@,
            self.eq_spec(other) <==> lexicographic(self.bytes(), other.bytes()) == Order::Equal,
    {
        self.lemma_bytes_encode_text();
        other.lemma_bytes_encode_text();
        lemma_lexicographic_equal(self.bytes(), other.bytes());
    }
}

impl<S: Data<String>> PartialEq<str> for ImString<S> {
    /// Whether this string shows the text of `other`.
    fn eq(&self, other: &str) -> (r: bool) {
        let same = equal_bytes(self.as_bytes(), other.as_bytes());
        proof {
            self.lemma_bytes_encode_text();
            encode_utf8_decode_utf8(other@);
        }
        same
    }
}

impl<S: Data<String>> vstd::std_specs::cmp::PartialEqSpecImpl<str> for ImString<S> {
    open spec fn obeys_eq_spec() -> bool {
        true
    }

    open spec fn eq_spec(&self, other: &str) -> bool {
        self@ == other@
    }
}

impl<'a, S: Data<String>> PartialEq<&'a str> for ImString<S> {
    /// Whether this string shows the text of `other`.
    fn eq(&self, other: &&'a str) -> (r: bool) {
        let same = equal_bytes(self.as_bytes(), other.as_bytes());
        proof {
            self.lemma_bytes_encode_text();
            encode_utf8_decode_utf8(other@);
        }
        same
    }
}

impl<'a, S: Data<String>> vstd::std_specs::cmp::PartialEqSpecImpl<&'a str> for ImString<S> {
    open spec fn obeys_eq_spec() -> bool {
        true
    }

    open spec fn eq_spec(&self, other: &&'a str) -> bool {
        self@ == other@
    }
}

impl<S: Data<String>> PartialEq<String> for ImString<S> {
    /// Whether this string shows the text of `other`.
    fn eq(&self, other: &String) -> (r: bool) {
        let same = equal_bytes(self.as_bytes(), other.as_str().as_bytes());
        proof {
            self.lemma_bytes_encode_text();
            encode_utf8_decode_utf8(other@);
        }
        same
    }
}

impl<S: Data<String>> vstd::std_specs::cmp::PartialEqSpecImpl<String> for ImString<S> {
    open spec fn obeys_eq_spec() -> bool {
        true
    }

    open spec fn eq_spec(&self, other: &String) -> bool {
        self@ == other@
    }
}

/// `order` in the terms of the standard library.
pub open spec fn ordering_of(order: Order) -> Ordering {
    match order {
        Order::Less => Ordering::Less,
        Order::Equal => Ordering::Equal,
        Order::Greater => Ordering::Greater,
    }
}

impl<S: Data<String>> ImString<S> {
    /// The order of the two texts by their bytes, which is the order of
    /// string slices. It is total: two strings are equal, or one comes
    /// first.
    pub fn cmp(&self, other: &Self) -> (r: Ordering)
        ensures
            r == ordering_of(lexicographic(self.bytes(), other.bytes())),
    {
        match compare_bytes(self.as_bytes(), other.as_bytes()) {
            Order::Less => Ordering::Less,
            Order::Equal => Ordering::Equal,
            Order::Greater => Ordering::Greater,
        }
    }
}

impl<S: Data<String>> PartialOrd<ImString<S>> for ImString<S> {
    /// The order of the two texts by their bytes.
    fn partial_cmp(&self, other: &ImString<S>) -> (r: Option<Ordering>) {
        Some(self.cmp(other))
    }
}

impl<S: Data<String>> vstd::std_specs::cmp::PartialOrdSpecImpl<ImString<S>> for ImString<S> {
    open spec fn obeys_partial_cmp_spec() -> bool {
        true
    }

    open spec fn partial_cmp_spec(&self, other: &ImString<S>) -> Option<Ordering> {
        Some(ordering_of(lexicographic(self.bytes(), other.bytes())))
    }
}

} // verus!
