//! Comparing byte sequences, which is how strings compare.
use vstd::prelude::*;

verus! {

/// How one byte sequence stands to another.
#[derive(Clone, Copy, Debug, PartialEq, Eq, Structural)]
pub enum Order {
    /// It comes first.
    Less,
    /// The two are the same.
    Equal,
    /// It comes last.
    Greater,
}

/// The order of two byte sequences as in a dictionary: the first byte in
/// which they differ decides, and a sequence comes before those that
/// continue it.
pub open spec fn lexicographic(left: Seq<u8>, right: Seq<u8>) -> Order
    decreases left.len(),
{
    if left.len() == 0 {
        if right.len() == 0 {
            Order::Equal
        } else {
            Order::Less
        }
    } else if right.len() == 0 {
        Order::Greater
    } else if left[0] < right[0] {
        Order::Less
    } else if left[0] > right[0] {
        Order::Greater
    } else {
        lexicographic(left.drop_first(), right.drop_first())
    }
}

/// A common prefix does not change the order of two sequences.
pub proof fn lemma_lexicographic_skip(left: Seq<u8>, right: Seq<u8>, common: int)
    requires
        0 <= common <= left.len(),
        common <= right.len(),
        left.subrange(0, common) == right.subrange(0, common),
    ensures
        lexicographic(left, right) == lexicographic(
            left.subrange(common, left.len() as int),
            right.subrange(common, right.len() as int),
        ),
    decreases common,
{
    if common == 0 {
        assert(left.subrange(0, left.len() as int) =~= left);
        assert(right.subrange(0, right.len() as int) =~= right);
    } else {
        assert(left[0] == left.subrange(0, common)[0]);
        assert(right[0] == right.subrange(0, common)[0]);
        let l = left.drop_first();
        let r = right.drop_first();
        assert(l.subrange(0, common - 1) =~= left.subrange(0, common).drop_first());
        assert(r.subrange(0, common - 1) =~= right.subrange(0, common).drop_first());
        lemma_lexicographic_skip(l, r, common - 1);
        assert(l.subrange(common - 1, l.len() as int) =~= left.subrange(
            common,
            left.len() as int,
        ));
        assert(r.subrange(common - 1, r.len() as int) =~= right.subrange(
            common,
            right.len() as int,
        ));
    }
}

/// Two sequences are equal exactly if neither comes before the other.
pub proof fn lemma_lexicographic_equal(left: Seq<u8>, right: Seq<u8>)
    ensures
        lexicographic(left, right) == Order::Equal <==> left == right,
    decreases left.len(),
{
    if left.len() > 0 && right.len() > 0 && left[0] == right[0] {
        lemma_lexicographic_equal(left.drop_first(), right.drop_first());
        if left.drop_first() == right.drop_first() {
            assert(left =~= seq![left[0]] + left.drop_first());
            assert(right =~= seq![right[0]] + right.drop_first());
        }
    } else if left.len() == 0 && right.len() == 0 {
        assert(left =~= right);
    }
}

/// Whether two byte slices hold the same bytes.
pub fn equal_bytes(left: &[u8], right: &[u8]) -> (r: bool)
    ensures
        r == (left@ == right@),
{
    if left.len() != right.len() {
        return false;
    }
    let mut index: usize = 0;
    while index < left.len()
        invariant
            index <= left@.len(),
            left@.len() == right@.len(),
            forall|earlier: int| 0 <= earlier < index ==> left@[earlier] == right@[earlier],
        decreases left@.len() - index,
    {
        if left[index] != right[index] {
            return false;
        }
        index += 1;
    }
    assert(left@ =~= right@);
    true
}

/// The order of two byte slices as in a dictionary.
pub fn compare_bytes(left: &[u8], right: &[u8]) -> (r: Order)
    ensures
        r == lexicographic(left@, right@),
{
    let mut index: usize = 0;
    while index < left.len() && index < right.len()
        invariant
            index <= left@.len(),
            index <= right@.len(),
            left@.subrange(0, index as int) == right@.subrange(0, index as int),
        decreases left@.len() - index,
    {
        proof {
            lemma_lexicographic_skip(left@, right@, index as int);
        }
        if left[index] < right[index] {
            return Order::Less;
        }
        if left[index] > right[index] {
            return Order::Greater;
        }
        proof {
            assert(left@.subrange(0, index + 1) =~= left@.subrange(0, index as int).push(
                left@[index as int],
            ));
            assert(right@.subrange(0, index + 1) =~= right@.subrange(0, index as int).push(
                right@[index as int],
            ));
        }
        index += 1;
    }
    proof {
        lemma_lexicographic_skip(left@, right@, index as int);
    }
    if index < right.len() {
        Order::Less
    } else if index < left.len() {
        Order::Greater
    } else {
        Order::Equal
    }
}

} // verus!
