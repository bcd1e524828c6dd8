use itertools::Itertools;
use std::cmp::Ordering;
use vstd::prelude::*;

verus! {

/// Counts never rise along the sequence.
pub open spec fn descending<A>(s: Seq<(A, u64)>) -> bool {
    forall|i: int, j: int| 0 <= i < j < s.len() ==> (#[trigger] s[i]).1 >= (#[trigger] s[j]).1
}

/// The test that an entry carries the count `c`.
pub open spec fn has_count<A>(c: u64) -> spec_fn((A, u64)) -> bool {
    |e: (A, u64)| e.1 == c
}

/// The entries with count `c`, in the order in which the sequence holds them.
pub open spec fn with_count<A>(s: Seq<(A, u64)>, c: u64) -> Seq<(A, u64)> {
    s.filter(has_count::<A>(c))
}

/// `r` lists the entries of `s` by falling count, and entries of equal count
/// in the order in which `s` holds them.
pub open spec fn is_ranking<A>(r: Seq<(A, u64)>, s: Seq<(A, u64)>) -> bool {
    &&& descending(r)
    &&& r.len() == s.len()
    &&& forall|c: u64| #[trigger] with_count(r, c) == with_count(s, c)
}

/// Orders two entries so that the larger count comes first.
pub fn by_count_desc<K>(a: &(K, u64), b: &(K, u64)) -> (o: Ordering)
    ensures
        a.1 > b.1 ==> o == Ordering::Less,
        a.1 < b.1 ==> o == Ordering::Greater,
        a.1 == b.1 ==> o == Ordering::Equal,
{
    if a.1 > b.1 {
        Ordering::Less
    } else if a.1 < b.1 {
        Ordering::Greater
    } else {
        Ordering::Equal
    }
}

/// Calls `Itertools::sorted_by` with [`by_count_desc`] as the comparison.
///
/// Trusted: the result holds the same entries, ordered by falling count, and
/// the sort is stable, so entries of equal count keep their relative order.
#[verifier::external_body]
pub(crate) fn sorted_by_count<K>(entries: Vec<(K, u64)>) -> (sorted: Vec<(K, u64)>)
    ensures
        is_ranking(sorted@, entries@),
{
    entries.into_iter().sorted_by(|a, b| by_count_desc(a, b)).collect()
}

} // verus!
