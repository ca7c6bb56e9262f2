//! Lexicographic order of byte strings, the order in which `String`
//! compares: byte by byte, a proper prefix first.

use vstd::prelude::*;

verus! {

/// -1, 0 or 1 as `a` sorts before, equal to or after `b`.
pub open spec fn byte_order(a: Seq<u8>, b: Seq<u8>) -> int
    decreases a.len(),
{
    if a.len() == 0 {
        if b.len() == 0 {
            0
        } else {
            -1
        }
    } else if b.len() == 0 {
        1
    } else if a[0] < b[0] {
        -1
    } else if a[0] > b[0] {
        1
    } else {
        byte_order(a.drop_first(), b.drop_first())
    }
}

pub proof fn lemma_byte_order_range(a: Seq<u8>, b: Seq<u8>)
    ensures
        -1 <= byte_order(a, b) <= 1,
    decreases a.len(),
{
    if a.len() > 0 && b.len() > 0 && a[0] == b[0] {
        lemma_byte_order_range(a.drop_first(), b.drop_first());
    }
}

/// Equal exactly when the strings are.
pub proof fn lemma_byte_order_equal(a: Seq<u8>, b: Seq<u8>)
    ensures
        (byte_order(a, b) == 0) == (a == b),
    decreases a.len(),
{
    if a.len() > 0 && b.len() > 0 && a[0] == b[0] {
        lemma_byte_order_equal(a.drop_first(), b.drop_first());
        if a.drop_first() == b.drop_first() {
            assert(a =~= seq![a[0]] + a.drop_first());
            assert(b =~= seq![b[0]] + b.drop_first());
        }
        if a == b {
            assert(a.drop_first() == b.drop_first());
        }
    } else if a.len() > 0 && b.len() > 0 {
        assert(a[0] != b[0]);
        if a == b {
            assert(a[0] == b[0]);
        }
    } else if a.len() == 0 && b.len() == 0 {
        assert(a =~= b);
    }
}

/// Swapping the arguments flips the order.
pub proof fn lemma_byte_order_flip(a: Seq<u8>, b: Seq<u8>)
    ensures
        byte_order(a, b) == -byte_order(b, a),
    decreases a.len(),
{
    if a.len() > 0 && b.len() > 0 && a[0] == b[0] {
        lemma_byte_order_flip(a.drop_first(), b.drop_first());
    }
}

/// The order is transitive.
pub proof fn lemma_byte_order_transitive(a: Seq<u8>, b: Seq<u8>, c: Seq<u8>)
    requires
        byte_order(a, b) <= 0,
        byte_order(b, c) <= 0,
    ensures
        byte_order(a, c) <= 0,
        byte_order(a, b) < 0 || byte_order(b, c) < 0 ==> byte_order(a, c) < 0,
    decreases a.len(),
{
    if a.len() > 0 && b.len() > 0 && c.len() > 0 && a[0] == b[0] && b[0] == c[0] {
        lemma_byte_order_transitive(a.drop_first(), b.drop_first(), c.drop_first());
    }
}

/// Compares two byte strings.
pub fn byte_order_of(a: &[u8], b: &[u8]) -> (order: i8)
    ensures
        order as int == byte_order(a@, b@),
{
    let mut i: usize = 0;
    assert(a@.skip(0) =~= a@);
    assert(b@.skip(0) =~= b@);
    while i < a.len() && i < b.len()
        invariant
            i <= a@.len(),
            i <= b@.len(),
            byte_order(a@, b@) == byte_order(a@.skip(i as int), b@.skip(i as int)),
        decreases a@.len() - i,
    {
        if a[i] < b[i] {
            return -1;
        }
        if a[i] > b[i] {
            return 1;
        }
        assert(a@.skip(i as int).drop_first() =~= a@.skip(i + 1));
        assert(b@.skip(i as int).drop_first() =~= b@.skip(i + 1));
        i = i + 1;
    }
    if a.len() == i && b.len() == i {
        0
    } else if a.len() == i {
        -1
    } else {
        1
    }
}

} // verus!
