//! Natural version ordering.  The comparison itself is done by the `natord`
//! crate; its result is named by the uninterpreted function `nat_cmp`, and the
//! sortedness contracts of the bucket sorter are stated over that name.

use core::cmp::Ordering;
use vstd::prelude::*;

verus! {

/// The result of comparing two strings in natural order (digit runs compare
/// by numeric value, other characters by code point).
pub uninterp spec fn nat_cmp(a: Seq<char>, b: Seq<char>) -> Ordering;

/// Relies on `natord::compare`: a case-sensitive natural-order comparison of
/// the two strings' characters alone.  Its source mirrors the two sides in
/// every branch, so swapping the arguments reverses the result; the two
/// antisymmetry clauses below state that.
#[verifier::external_body]
pub(crate) fn natural_compare(a: &str, b: &str) -> (r: Ordering)
    ensures
        r == nat_cmp(a@, b@),
        (nat_cmp(b@, a@) is Less) <==> (r is Greater),
        (nat_cmp(b@, a@) is Equal) <==> (r is Equal),
{
    natord::compare(a, b)
}

/// The versions of `s` are weakly descending in natural order: no element is
/// naturally below its successor.
pub open spec fn sorted_desc(vs: Seq<Seq<char>>) -> bool {
    forall|i: int| 0 <= i && i + 1 < vs.len() ==> !((#[trigger] nat_cmp(vs[i], vs[i + 1])) is Less)
}

/// The versions of `s` are strictly descending in natural order.
pub open spec fn strictly_desc(vs: Seq<Seq<char>>) -> bool {
    forall|i: int| 0 <= i && i + 1 < vs.len() ==> (#[trigger] nat_cmp(vs[i], vs[i + 1])) is Greater
}

/// A weakly descending list whose entries are pairwise naturally distinct is
/// strictly descending: each entry orders strictly above its successor.
pub proof fn lemma_sorted_strictly_descending(vs: Seq<Seq<char>>)
    requires
        sorted_desc(vs),
        forall|i: int, j: int|
            0 <= i < j < vs.len() ==> !((#[trigger] nat_cmp(vs[i], vs[j])) is Equal),
    ensures
        strictly_desc(vs),
{
    assert forall|i: int| 0 <= i && i + 1 < vs.len() implies (#[trigger] nat_cmp(vs[i], vs[i + 1]))
        is Greater by {
        assert(!(nat_cmp(vs[i], vs[i + 1]) is Less));
        assert(!(nat_cmp(vs[i], vs[i + 1]) is Equal));
    }
}

} // verus!
