//! Ordering compact strings: byte by byte, which for UTF-8 is the order of their characters.
use core::cmp::Ordering;

use vstd::prelude::*;
use vstd::std_specs::cmp::{PartialEqSpec, PartialOrdSpec, PartialOrdSpecImpl};

use crate::CompactString;

verus! {

/// The lexicographic order of two byte sequences: the first differing byte decides, and a
/// proper prefix comes first.
pub open spec fn byte_order(a: Seq<u8>, b: Seq<u8>) -> Ordering
    decreases a.len(),
{
    if a.len() == 0 {
        if b.len() == 0 {
            Ordering::Equal
        } else {
            Ordering::Less
        }
    } else if b.len() == 0 {
        Ordering::Greater
    } else if a[0] < b[0] {
        Ordering::Less
    } else if a[0] > b[0] {
        Ordering::Greater
    } else {
        byte_order(a.drop_first(), b.drop_first())
    }
}

/// Two strings compare as equal exactly when they hold the same bytes.
pub proof fn law_order_equal(a: Seq<u8>, b: Seq<u8>)
    ensures
        (byte_order(a, b) == Ordering::Equal) <==> (a == b),
    decreases a.len(),
{
    if a.len() == 0 && b.len() == 0 {
        assert(a =~= b);
    }
    if a.len() > 0 && b.len() > 0 && a[0] == b[0] {
        law_order_equal(a.drop_first(), b.drop_first());
        if a.drop_first() == b.drop_first() {
            assert(a =~= seq![a[0]] + a.drop_first());
            assert(b =~= seq![b[0]] + b.drop_first());
        }
    }
}

/// Swapping two strings turns the order around.
pub proof fn law_order_antisymmetric(a: Seq<u8>, b: Seq<u8>)
    ensures
        (byte_order(a, b) == Ordering::Less) <==> (byte_order(b, a) == Ordering::Greater),
    decreases a.len(),
{
    if a.len() > 0 && b.len() > 0 && a[0] == b[0] {
        law_order_antisymmetric(a.drop_first(), b.drop_first());
    }
}

/// The order is transitive.
pub proof fn law_order_transitive(a: Seq<u8>, b: Seq<u8>, c: Seq<u8>)
    requires
        byte_order(a, b) == Ordering::Less,
        byte_order(b, c) == Ordering::Less,
    ensures
        byte_order(a, c) == Ordering::Less,
    decreases a.len(),
{
    if a.len() > 0 && b.len() > 0 && c.len() > 0 && a[0] == b[0] && b[0] == c[0] {
        law_order_transitive(a.drop_first(), b.drop_first(), c.drop_first());
    }
}

/// The first byte at which two strings differ decides their order, whatever their lengths: the
/// string with the smaller byte there comes first.
pub proof fn law_order_first_difference(a: Seq<u8>, b: Seq<u8>, i: int)
    requires
        0 <= i < a.len(),
        i < b.len(),
        a.subrange(0, i) == b.subrange(0, i),
        a[i] < b[i],
    ensures
        byte_order(a, b) == Ordering::Less,
        byte_order(b, a) == Ordering::Greater,
    decreases i,
{
    if i > 0 {
        assert(a[0] == a.subrange(0, i)[0]);
        assert(b[0] == b.subrange(0, i)[0]);
        assert(a.drop_first().subrange(0, i - 1) =~= a.subrange(0, i).drop_first());
        assert(b.drop_first().subrange(0, i - 1) =~= b.subrange(0, i).drop_first());
        law_order_first_difference(a.drop_first(), b.drop_first(), i - 1);
    }
}

/// A proper prefix comes before the longer string.
pub proof fn law_order_prefix(a: Seq<u8>, b: Seq<u8>)
    requires
        a.len() < b.len(),
        forall|j: int| 0 <= j < a.len() ==> a[j] == b[j],
    ensures
        byte_order(a, b) == Ordering::Less,
        byte_order(b, a) == Ordering::Greater,
    decreases a.len(),
{
    if a.len() > 0 {
        assert(a[0] == b[0]);
        assert forall|j: int| 0 <= j < a.drop_first().len() implies a.drop_first()[j] == b.drop_first()[j] by {
            assert(a[j + 1] == b[j + 1]);
        }
        law_order_prefix(a.drop_first(), b.drop_first());
    }
}

/// Comparing two compact strings orders them as their bytes are ordered: by the first byte at
/// which they differ, or, when one is a prefix of the other, the shorter first; and they compare
/// as equal exactly when they hold the same bytes.
pub proof fn law_compact_order(x: CompactString, y: CompactString)
    ensures
        PartialOrdSpec::partial_cmp_spec(&x, &y) is Some,
        PartialOrdSpec::partial_cmp_spec(&x, &y) == Some(Ordering::Equal) <==> PartialEqSpec::eq_spec(&x, &y),
        PartialOrdSpec::partial_cmp_spec(&x, &y) == Some(Ordering::Equal) <==> x.bytes_view() == y.bytes_view(),
        forall|i: int|
            0 <= i < x.bytes_view().len() && i < y.bytes_view().len() && x.bytes_view().subrange(0, i)
                == y.bytes_view().subrange(0, i) && #[trigger] x.bytes_view()[i] < #[trigger] y.bytes_view()[i]
                ==> PartialOrdSpec::partial_cmp_spec(&x, &y) == Some(Ordering::Less),
        x.bytes_view().len() < y.bytes_view().len() && (forall|j: int|
            0 <= j < x.bytes_view().len() ==> x.bytes_view()[j] == y.bytes_view()[j])
            ==> PartialOrdSpec::partial_cmp_spec(&x, &y) == Some(Ordering::Less),
{
    law_order_equal(x.bytes_view(), y.bytes_view());
    assert forall|i: int|
        0 <= i < x.bytes_view().len() && i < y.bytes_view().len() && x.bytes_view().subrange(0, i)
            == y.bytes_view().subrange(0, i) && #[trigger] x.bytes_view()[i] < #[trigger] y.bytes_view()[i]
            implies PartialOrdSpec::partial_cmp_spec(&x, &y) == Some(Ordering::Less) by {
        law_order_first_difference(x.bytes_view(), y.bytes_view(), i);
    }
    if x.bytes_view().len() < y.bytes_view().len() && (forall|j: int|
        0 <= j < x.bytes_view().len() ==> x.bytes_view()[j] == y.bytes_view()[j]) {
        law_order_prefix(x.bytes_view(), y.bytes_view());
    }
}

/// Compares two byte slices lexicographically.
pub fn compare_bytes(a: &[u8], b: &[u8]) -> (r: Ordering)
    ensures
        r == byte_order(a@, b@),
{
    let n: usize = a.len();
    let m: usize = b.len();
    let mut i: usize = 0;
    let ghost mut k: int = 0;
    assert(a@.skip(0) =~= a@);
    assert(b@.skip(0) =~= b@);
    while i < n && i < m
        invariant
            k == i,
            i <= n,
            i <= m,
            n == a@.len(),
            m == b@.len(),
            byte_order(a@, b@) == byte_order(a@.skip(k), b@.skip(k)),
        decreases n - i,
    {
        if a[i] < b[i] {
            return Ordering::Less;
        }
        if a[i] > b[i] {
            return Ordering::Greater;
        }
        assert(a@.skip(k).drop_first() =~= a@.skip(k + 1));
        assert(b@.skip(k).drop_first() =~= b@.skip(k + 1));
        i = i + 1;
        proof {
            k = k + 1;
        }
    }
    if i < m {
        Ordering::Less
    } else if i < n {
        Ordering::Greater
    } else {
        Ordering::Equal
    }
}

impl Eq for CompactString {
}

impl PartialOrd for CompactString {
    fn partial_cmp(&self, other: &CompactString) -> (r: Option<Ordering>) {
        Some(compare_bytes(self.as_bytes(), other.as_bytes()))
    }
}

impl PartialOrdSpecImpl for CompactString {
    open spec fn obeys_partial_cmp_spec() -> bool {
        true
    }

    open spec fn partial_cmp_spec(&self, other: &CompactString) -> Option<Ordering> {
        Some(byte_order(self.bytes_view(), other.bytes_view()))
    }
}

} // verus!
