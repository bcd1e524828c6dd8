use vstd::prelude::*;
use crate::counter::{total_of, Counter};
use crate::key::Key;
use crate::order::{descending, has_count, is_ranking, sorted_by_count, with_count};

verus! {

/// The ranking of a sequence of entries: by falling count, entries of equal
/// count in the order in which the sequence holds them.
pub open spec fn ranked<A>(s: Seq<(A, u64)>) -> Seq<(A, u64)> {
    choose|r: Seq<(A, u64)>| is_ranking(r, s)
}

/// No two entries carry the same count.
pub open spec fn distinct_counts<A>(s: Seq<(A, u64)>) -> bool {
    forall|i: int, j: int| 0 <= i < j < s.len() ==> (#[trigger] s[i]).1 != (#[trigger] s[j]).1
}

/// Counts fall strictly along the sequence.
pub open spec fn strictly_descending<A>(s: Seq<(A, u64)>) -> bool {
    forall|i: int, j: int| 0 <= i < j < s.len() ==> (#[trigger] s[i]).1 > (#[trigger] s[j]).1
}

/// The number of entries that a limit lets through.
pub open spec fn limited(limit: Option<usize>, len: nat) -> nat {
    match limit {
        Some(n) => if (n as nat) < len {
            n as nat
        } else {
            len
        },
        None => len,
    }
}

proof fn lemma_with_count_last<A>(r: Seq<(A, u64)>, c: u64)
    requires
        r.len() > 0,
    ensures
        with_count(r, c) == if r.last().1 == c {
            with_count(r.drop_last(), c).push(r.last())
        } else {
            with_count(r.drop_last(), c)
        },
{
    reveal(Seq::filter);
}

proof fn lemma_with_count_empty<A>(r: Seq<(A, u64)>, c: u64)
    requires
        r.len() == 0,
    ensures
        with_count(r, c).len() == 0,
{
    reveal(Seq::filter);
}

proof fn lemma_count_occurs<A>(r: Seq<(A, u64)>, c: u64)
    requires
        with_count(r, c).len() > 0,
    ensures
        exists|i: int| 0 <= i < r.len() && (#[trigger] r[i]).1 == c,
{
    let pred = has_count::<A>(c);
    let f = r.filter(pred);
    r.lemma_filter_pred(pred, 0);
    assert(f.contains(f[0]));
    r.lemma_filter_contains_rev(pred, f[0]);
    let i = choose|i: int| 0 <= i < r.len() && r[i] == f[0];
    assert(r[i].1 == c);
}

/// A sequence of entries has at most one ranking.
pub proof fn lemma_ranking_unique<A>(r1: Seq<(A, u64)>, r2: Seq<(A, u64)>)
    requires
        descending(r1),
        descending(r2),
        r1.len() == r2.len(),
        forall|c: u64| #[trigger] with_count(r1, c) == with_count(r2, c),
    ensures
        r1 == r2,
    decreases r1.len(),
{
    if r1.len() == 0 {
        assert(r1 =~= r2);
    } else {
        let n = r1.len() - 1;
        let c1 = r1[n].1;
        let c2 = r2[n].1;
        lemma_with_count_last(r1, c1);
        lemma_with_count_last(r2, c2);
        assert(with_count(r1, c1) == with_count(r2, c1));
        assert(with_count(r1, c2) == with_count(r2, c2));
        lemma_count_occurs(r2, c1);
        lemma_count_occurs(r1, c2);
        let i2 = choose|i: int| 0 <= i < r2.len() && (#[trigger] r2[i]).1 == c1;
        let i1 = choose|i: int| 0 <= i < r1.len() && (#[trigger] r1[i]).1 == c2;
        assert(r2[i2].1 >= r2[n].1 || i2 == n);
        assert(r1[i1].1 >= r1[n].1 || i1 == n);
        assert(c1 == c2);
        assert(with_count(r1, c1).last() == r1[n]);
        assert(with_count(r2, c1).last() == r2[n]);
        assert(r1[n] == r2[n]);
        let d1 = r1.drop_last();
        let d2 = r2.drop_last();
        assert forall|c: u64| #[trigger] with_count(d1, c) == with_count(d2, c) by {
            lemma_with_count_last(r1, c);
            lemma_with_count_last(r2, c);
            assert(with_count(r1, c) == with_count(r2, c));
            if c == c1 {
                assert(with_count(d1, c) =~= with_count(r1, c).drop_last());
                assert(with_count(d2, c) =~= with_count(r2, c).drop_last());
            }
        }
        assert(descending(d1)) by {
            assert forall|i: int, j: int| 0 <= i < j < d1.len() implies (#[trigger] d1[i]).1 >= (
            #[trigger] d1[j]).1 by {
                assert(r1[i].1 >= r1[j].1);
            }
        }
        assert(descending(d2)) by {
            assert forall|i: int, j: int| 0 <= i < j < d2.len() implies (#[trigger] d2[i]).1 >= (
            #[trigger] d2[j]).1 by {
                assert(r2[i].1 >= r2[j].1);
            }
        }
        lemma_ranking_unique(d1, d2);
        assert(r1 =~= d1.push(r1[n]));
        assert(r2 =~= d2.push(r2[n]));
    }
}

/// Whatever ranks a sequence of entries is its ranking.
pub proof fn lemma_ranking_is_ranked<A>(r: Seq<(A, u64)>, s: Seq<(A, u64)>)
    requires
        is_ranking(r, s),
    ensures
        r == ranked(s),
        is_ranking(ranked(s), s),
{
    let q = ranked(s);
    assert(is_ranking(q, s));
    assert forall|c: u64| #[trigger] with_count(r, c) == with_count(q, c) by {
        assert(with_count(r, c) == with_count(s, c));
        assert(with_count(q, c) == with_count(s, c));
    }
    lemma_ranking_unique(r, q);
}

/// All entries of a counter, by falling count; entries of equal count stay
/// in the order in which their keys were first counted.
pub fn ranking<K: Key>(counter: Counter<K>) -> (r: Vec<(K, u64)>)
    ensures
        r@ == ranked(counter.entries@),
        is_ranking(r@, counter.entries@),
{
    let ghost s = counter.entries@;
    let r = sorted_by_count(counter.entries);
    proof {
        lemma_ranking_is_ranked(r@, s);
    }
    r
}

/// The first entries of the ranking of a counter: as many as the limit
/// allows, all of them where there is no limit.
pub fn top_n<K: Key>(counter: Counter<K>, limit: Option<usize>) -> (r: Vec<(K, u64)>)
    ensures
        r@ == ranked(counter.entries@).take(limited(limit, counter.entries@.len()) as int),
        r@.len() == limited(limit, counter.entries@.len()),
        descending(r@),
        is_ranking(ranked(counter.entries@), counter.entries@),
{
    let ghost s = counter.entries@;
    let mut r = ranking(counter);
    let ghost full = r@;
    match limit {
        Some(n) => {
            r.truncate(n);
            proof {
                if n <= full.len() {
                    assert(r@ =~= full.take(n as int));
                } else {
                    assert(r@ =~= full.take(full.len() as int));
                }
            }
        },
        None => {
            proof {
                assert(r@ =~= full.take(full.len() as int));
            }
        },
    }
    proof {
        assert forall|i: int, j: int| 0 <= i < j < r@.len() implies (#[trigger] r@[i]).1 >= (
        #[trigger] r@[j]).1 by {
            assert(full[i].1 >= full[j].1);
        }
    }
    r
}

/// The ten entries with the highest counts, highest first.
pub fn extract_top10<K: Key>(counter: Counter<K>) -> (r: Vec<(K, u64)>)
    ensures
        r@ == ranked(counter.entries@).take(limited(Some(10usize), counter.entries@.len()) as int),
        r@.len() == limited(Some(10usize), counter.entries@.len()),
        descending(r@),
        is_ranking(ranked(counter.entries@), counter.entries@),
{
    top_n(counter, Some(10))
}

proof fn lemma_distinct_at_most_one<A>(s: Seq<(A, u64)>, c: u64)
    requires
        distinct_counts(s),
    ensures
        with_count(s, c).len() <= 1,
    decreases s.len(),
{
    if s.len() == 0 {
        lemma_with_count_empty(s, c);
    } else {
        let d = s.drop_last();
        let n = s.len() - 1;
        lemma_with_count_last(s, c);
        assert forall|i: int, j: int| 0 <= i < j < d.len() implies (#[trigger] d[i]).1 != (
        #[trigger] d[j]).1 by {
            assert(s[i].1 != s[j].1);
        }
        lemma_distinct_at_most_one(d, c);
        if s[n].1 == c && with_count(d, c).len() > 0 {
            lemma_count_occurs(d, c);
            let i = choose|i: int| 0 <= i < d.len() && (#[trigger] d[i]).1 == c;
            assert(s[i].1 != s[n].1);
        }
    }
}

proof fn lemma_two_occurrences<A>(r: Seq<(A, u64)>, i: int, j: int, c: u64)
    requires
        0 <= i < j < r.len(),
        r[i].1 == c,
        r[j].1 == c,
    ensures
        with_count(r, c).len() >= 2,
    decreases r.len(),
{
    let d = r.drop_last();
    lemma_with_count_last(r, c);
    if j == r.len() - 1 {
        assert(d[i].1 == c);
        d.lemma_filter_contains(has_count::<A>(c), i);
    } else {
        lemma_two_occurrences(d, i, j, c);
    }
}

/// Where no two entries carry the same count, their ranking falls strictly.
pub proof fn lemma_ranking_strict<A>(r: Seq<(A, u64)>, s: Seq<(A, u64)>)
    requires
        is_ranking(r, s),
        distinct_counts(s),
    ensures
        strictly_descending(r),
{
    assert forall|i: int, j: int| 0 <= i < j < r.len() implies (#[trigger] r[i]).1 > (
    #[trigger] r[j]).1 by {
        if r[i].1 == r[j].1 {
            let c = r[i].1;
            lemma_two_occurrences(r, i, j, c);
            assert(with_count(r, c) == with_count(s, c));
            lemma_distinct_at_most_one(s, c);
        }
    }
}

/// A ranking holds exactly the entries that were ranked.
pub proof fn lemma_ranking_members<A>(r: Seq<(A, u64)>, s: Seq<(A, u64)>, e: (A, u64))
    requires
        is_ranking(r, s),
    ensures
        r.contains(e) == s.contains(e),
{
    let pred = has_count::<A>(e.1);
    assert(with_count(r, e.1) == with_count(s, e.1));
    if r.contains(e) {
        let i = choose|i: int| 0 <= i < r.len() && r[i] == e;
        r.lemma_filter_contains(pred, i);
        s.lemma_filter_contains_rev(pred, e);
    }
    if s.contains(e) {
        let i = choose|i: int| 0 <= i < s.len() && s[i] == e;
        s.lemma_filter_contains(pred, i);
        r.lemma_filter_contains_rev(pred, e);
    }
}

/// The first `n` entries of a ranking fall in count, never rise; where no two
/// of the ranked entries carry the same count, they fall strictly. Their
/// number is `n`, or the number of all entries where that is smaller.
pub proof fn lemma_top_is_prefix<A>(s: Seq<(A, u64)>, r: Seq<(A, u64)>, n: usize)
    requires
        is_ranking(r, s),
    ensures
        r == ranked(s),
        ranked(s).take(limited(Some(n), s.len()) as int).len() == if (n as nat) < s.len() {
            n as nat
        } else {
            s.len()
        },
        descending(ranked(s).take(limited(Some(n), s.len()) as int)),
        distinct_counts(s) ==> strictly_descending(
            ranked(s).take(limited(Some(n), s.len()) as int),
        ),
{
    lemma_ranking_is_ranked(r, s);
    let m = limited(Some(n), s.len()) as int;
    let t = r.take(m);
    assert forall|i: int, j: int| 0 <= i < j < t.len() implies (#[trigger] t[i]).1 >= (
    #[trigger] t[j]).1 by {
        assert(r[i].1 >= r[j].1);
    }
    if distinct_counts(s) {
        lemma_ranking_strict(r, s);
        assert forall|i: int, j: int| 0 <= i < j < t.len() implies (#[trigger] t[i]).1 > (
        #[trigger] t[j]).1 by {
            assert(r[i].1 > r[j].1);
        }
    }
}

proof fn lemma_last_occurrence<A>(r: Seq<(A, u64)>, c: u64) -> (k: int)
    requires
        with_count(r, c).len() > 0,
    ensures
        0 <= k < r.len(),
        r[k].1 == c,
        forall|j: int| k < j < r.len() ==> (#[trigger] r[j]).1 != c,
        with_count(r, c) == with_count(r.take(k), c).push(r[k]),
    decreases r.len(),
{
    if r.len() == 0 {
        lemma_with_count_empty(r, c);
        0
    } else {
        lemma_with_count_last(r, c);
        let n = r.len() - 1;
        if r[n].1 == c {
            assert(r.take(n) =~= r.drop_last());
            n
        } else {
            let d = r.drop_last();
            let k = lemma_last_occurrence(d, c);
            assert(d.take(k) =~= r.take(k));
            assert forall|j: int| k < j < r.len() implies (#[trigger] r[j]).1 != c by {
                if j < n {
                    assert(d[j].1 != c);
                }
            }
            k
        }
    }
}

proof fn lemma_remove_other<A>(r: Seq<(A, u64)>, k: int, c: u64)
    requires
        0 <= k < r.len(),
        r[k].1 != c,
    ensures
        with_count(r.remove(k), c) == with_count(r, c),
    decreases r.len(),
{
    let n = r.len() - 1;
    lemma_with_count_last(r, c);
    if k == n {
        assert(r.remove(k) =~= r.drop_last());
    } else {
        let q = r.remove(k);
        assert(q.drop_last() =~= r.drop_last().remove(k));
        assert(q.last() == r.last());
        lemma_with_count_last(q, c);
        lemma_remove_other(r.drop_last(), k, c);
    }
}

proof fn lemma_remove_last_occurrence<A>(r: Seq<(A, u64)>, k: int, c: u64)
    requires
        0 <= k < r.len(),
        forall|j: int| k < j < r.len() ==> (#[trigger] r[j]).1 != c,
    ensures
        with_count(r.remove(k), c) == with_count(r.take(k), c),
    decreases r.len(),
{
    let n = r.len() - 1;
    if k == n {
        assert(r.remove(k) =~= r.take(k));
    } else {
        let q = r.remove(k);
        assert(q.drop_last() =~= r.drop_last().remove(k));
        assert(q.last() == r[n]);
        assert(r[n].1 != c);
        lemma_with_count_last(q, c);
        lemma_remove_last_occurrence(r.drop_last(), k, c);
        assert(r.drop_last().take(k) =~= r.take(k));
    }
}

proof fn lemma_total_remove<A>(r: Seq<(A, u64)>, k: int)
    requires
        0 <= k < r.len(),
    ensures
        total_of(r) == total_of(r.remove(k)) + r[k].1,
    decreases r.len(),
{
    let n = r.len() - 1;
    if k == n {
        assert(r.remove(k) =~= r.drop_last());
    } else {
        let q = r.remove(k);
        assert(q.drop_last() =~= r.drop_last().remove(k));
        assert(q.last() == r[n]);
        lemma_total_remove(r.drop_last(), k);
    }
}

/// Two sequences that hold, for every count, the same entries in the same
/// order have the same total.
pub proof fn lemma_same_counts_same_total<A>(r: Seq<(A, u64)>, s: Seq<(A, u64)>)
    requires
        r.len() == s.len(),
        forall|c: u64| #[trigger] with_count(r, c) == with_count(s, c),
    ensures
        total_of(r) == total_of(s),
    decreases s.len(),
{
    if s.len() > 0 {
        let e = s.last();
        let c = e.1;
        let d = s.drop_last();
        lemma_with_count_last(s, c);
        assert(with_count(r, c) == with_count(s, c));
        let k = lemma_last_occurrence(r, c);
        let q = r.remove(k);
        lemma_remove_last_occurrence(r, k, c);
        lemma_total_remove(r, k);
        assert(with_count(r, c).drop_last() =~= with_count(r.take(k), c));
        assert(with_count(s, c).drop_last() =~= with_count(d, c));
        assert forall|x: u64| #[trigger] with_count(q, x) == with_count(d, x) by {
            assert(with_count(r, x) == with_count(s, x));
            if x != c {
                lemma_remove_other(r, k, x);
                lemma_with_count_last(s, x);
            }
        }
        lemma_same_counts_same_total(q, d);
    }
}

/// Ranking keeps the total of the counts.
pub proof fn lemma_ranking_total<A>(r: Seq<(A, u64)>, s: Seq<(A, u64)>)
    requires
        is_ranking(r, s),
    ensures
        total_of(r) == total_of(s),
{
    lemma_same_counts_same_total(r, s);
}

} // verus!
