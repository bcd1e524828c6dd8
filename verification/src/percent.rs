use vstd::prelude::*;
use crate::counter::{total_of, Counter};
use crate::order::descending;
use crate::rank::ranking;
use crate::rank::{lemma_ranking_total, ranked};

verus! {

/// The share of `part` in `total`, in whole percent, rounded down; zero
/// where the total is zero.
pub open spec fn percent_of(part: int, total: int) -> int {
    if total <= 0 {
        0
    } else {
        (100 * part) / total
    }
}

/// The entries with each count replaced by its share in `total`.
pub open spec fn percents(s: Seq<(u64, u64)>, total: u64) -> Seq<(u64, u64)> {
    Seq::new(s.len(), |i: int| (s[i].0, percent_of(s[i].1 as int, total as int) as u64))
}

/// A part of a total has a share between 0 and 100.
pub proof fn lemma_percent_range(part: int, total: int)
    requires
        0 <= part <= total,
    ensures
        0 <= percent_of(part, total) <= 100,
{
    if total > 0 {
        assert(0 <= (100 * part) / total <= 100) by (nonlinear_arith)
            requires
                0 <= part <= total,
                0 < total,
        ;
    }
}

/// A larger part has no smaller share.
pub proof fn lemma_percent_monotone(a: int, b: int, total: int)
    requires
        0 <= a <= b,
    ensures
        percent_of(a, total) <= percent_of(b, total),
{
    if total > 0 {
        assert((100 * a) / total <= (100 * b) / total) by (nonlinear_arith)
            requires
                0 <= a <= b,
                0 < total,
        ;
    }
}

/// Computes the share of `part` in `total` in whole percent, truncating.
pub fn percentage(part: u64, total: u64) -> (pct: u64)
    requires
        part <= total,
    ensures
        pct as int == percent_of(part as int, total as int),
        pct <= 100,
{
    proof {
        lemma_percent_range(part as int, total as int);
    }
    if total == 0 {
        return 0;
    }
    let wide: u128 = 100u128 * (part as u128);
    let q: u128 = wide / (total as u128);
    q as u64
}

/// Every count of the entries is at most their total.
pub proof fn lemma_entry_le_total(s: Seq<(u64, u64)>, i: int)
    requires
        0 <= i < s.len(),
    ensures
        s[i].1 <= total_of(s),
    decreases s.len(),
{
    if i < s.len() - 1 {
        lemma_entry_le_total(s.drop_last(), i);
    }
}

/// The shares of the parts of a total never add up to more than the parts
/// themselves do: `total` times the sum of the shares is at most a hundred
/// times the sum of the counts.
pub proof fn lemma_shares_bound(s: Seq<(u64, u64)>, total: u64)
    requires
        total_of(s) <= total,
    ensures
        total * total_of(percents(s, total)) <= 100 * total_of(s),
    decreases s.len(),
{
    let t = total as int;
    if s.len() > 0 {
        let d = s.drop_last();
        let x = s.last().1 as int;
        let ps = percents(s, total);
        assert(ps.drop_last() =~= percents(d, total));
        lemma_shares_bound(d, total);
        lemma_entry_le_total(s, s.len() - 1);
        lemma_percent_range(x, t);
        let p = percent_of(x, t);
        assert(ps.last().1 as int == p);
        let rest = total_of(percents(d, total)) as int;
        assert(total_of(ps) as int == rest + p);
        assert(total_of(s) as int == total_of(d) as int + x);
        assert(t * p <= 100 * x) by {
            if t > 0 {
                assert(t * ((100 * x) / t) <= 100 * x) by (nonlinear_arith)
                    requires
                        0 <= x,
                        0 < t,
                ;
            } else {
                assert(t * p == 0) by (nonlinear_arith)
                    requires
                        t == 0,
                ;
            }
        }
        assert(t * (rest + p) == t * rest + t * p) by (nonlinear_arith);
    } else {
        assert(total_of(percents(s, total)) == 0);
        assert(t * 0 == 0);
    }
}

/// The shares of the parts of a total add up to at most 100, and to 100
/// only where the parts add up to the whole total.
pub proof fn lemma_shares_sum(s: Seq<(u64, u64)>, total: u64)
    requires
        total_of(s) <= total,
    ensures
        total_of(percents(s, total)) <= 100,
        total_of(percents(s, total)) == 100 ==> total_of(s) == total,
{
    lemma_shares_bound(s, total);
    let shares = total_of(percents(s, total)) as int;
    let parts = total_of(s) as int;
    let t = total as int;
    if t > 0 {
        assert(shares <= 100) by (nonlinear_arith)
            requires
                t * shares <= 100 * parts,
                parts <= t,
                0 < t,
        ;
        if shares == 100 {
            assert(parts >= t) by (nonlinear_arith)
                requires
                    t * 100 <= 100 * parts,
            ;
        }
    } else {
        lemma_zero_total(s);
    }
}

proof fn lemma_zero_total(s: Seq<(u64, u64)>)
    ensures
        total_of(percents(s, 0)) == 0,
    decreases s.len(),
{
    if s.len() > 0 {
        assert(percents(s, 0).drop_last() =~= percents(s.drop_last(), 0));
        lemma_zero_total(s.drop_last());
    }
}

/// The breakdown of a count by channel: for every channel of the counter its
/// share of `sum` in whole percent, rounded down, the largest share first;
/// channels of equal count stay in the order in which they were first
/// counted.
pub fn channel_shares(par_channel: &Counter<u64>, sum: u64) -> (r: Vec<(u64, u64)>)
    requires
        par_channel.total() <= sum,
    ensures
        r@ == percents(ranked(par_channel.entries@), sum),
        descending(r@),
        total_of(r@) <= 100,
        total_of(r@) == 100 ==> par_channel.total() == sum,
{
    let mut copy: Counter<u64> = Counter::new();
    let mut i: usize = 0;
    while i < par_channel.entries.len()
        invariant
            i <= par_channel.entries@.len(),
            copy.entries@ == par_channel.entries@.take(i as int),
        decreases par_channel.entries@.len() - i,
    {
        copy.entries.push(par_channel.entries[i]);
        proof {
            assert(copy.entries@ =~= par_channel.entries@.take(i + 1));
        }
        i += 1;
    }
    proof {
        assert(par_channel.entries@.take(par_channel.entries@.len() as int)
            =~= par_channel.entries@);
    }
    let sorted = ranking(copy);
    proof {
        lemma_ranking_total(sorted@, par_channel.entries@);
        lemma_shares_sum(sorted@, sum);
    }
    let mut shares: Vec<(u64, u64)> = Vec::new();
    let mut j: usize = 0;
    while j < sorted.len()
        invariant
            j <= sorted@.len(),
            total_of(sorted@) <= sum,
            shares@ == percents(sorted@, sum).take(j as int),
        decreases sorted@.len() - j,
    {
        proof {
            lemma_entry_le_total(sorted@, j as int);
        }
        let entry = sorted[j];
        shares.push((entry.0, percentage(entry.1, sum)));
        proof {
            assert(shares@ =~= percents(sorted@, sum).take(j + 1));
        }
        j += 1;
    }
    proof {
        let all = percents(sorted@, sum);
        assert(all.take(all.len() as int) =~= all);
        assert forall|a: int, b: int| 0 <= a < b < all.len() implies (#[trigger] all[a]).1 >= (
        #[trigger] all[b]).1 by {
            assert(sorted@[a].1 >= sorted@[b].1);
            lemma_percent_monotone(sorted@[b].1 as int, sorted@[a].1 as int, sum as int);
            lemma_entry_le_total(sorted@, a);
            lemma_entry_le_total(sorted@, b);
            lemma_percent_range(sorted@[a].1 as int, sum as int);
            lemma_percent_range(sorted@[b].1 as int, sum as int);
        }
    }
    shares
}

} // verus!
