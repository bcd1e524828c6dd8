use vstd::prelude::*;
use crate::key::Key;

verus! {

/// The identities of the keys of a sequence of entries, in order.
pub open spec fn key_ids<K: Key>(s: Seq<(K, u64)>) -> Seq<K::V> {
    Seq::new(s.len(), |i: int| s[i].0@)
}

/// The sum of the counts that a sequence of entries records under `k`.
pub open spec fn tally_of<K: Key>(s: Seq<(K, u64)>, k: K::V) -> nat
    decreases s.len(),
{
    if s.len() == 0 {
        0
    } else {
        tally_of(s.drop_last(), k) + if s.last().0@ == k {
            s.last().1 as nat
        } else {
            0
        }
    }
}

/// Whether some entry of the sequence is recorded under `k`.
pub open spec fn has_key<K: Key>(s: Seq<(K, u64)>, k: K::V) -> bool {
    exists|i: int| 0 <= i < s.len() && (#[trigger] s[i]).0@ == k
}

/// The sum of all counts of a sequence of entries.
pub open spec fn total_of<A>(s: Seq<(A, u64)>) -> nat
    decreases s.len(),
{
    if s.len() == 0 {
        0
    } else {
        total_of(s.drop_last()) + s.last().1 as nat
    }
}

/// Appending an entry adds its count under its own key and nothing elsewhere.
pub proof fn lemma_tally_push<K: Key>(s: Seq<(K, u64)>, e: (K, u64), k: K::V)
    ensures
        tally_of(s.push(e), k) == tally_of(s, k) + if e.0@ == k {
            e.1 as nat
        } else {
            0
        },
{
    assert(s.push(e).drop_last() =~= s);
}

/// Replacing one entry by another under the same key shifts the tally of that
/// key by the difference of the counts and leaves every other key alone.
pub proof fn lemma_tally_update<K: Key>(s: Seq<(K, u64)>, i: int, e: (K, u64), k: K::V)
    requires
        0 <= i < s.len(),
        e.0@ == s[i].0@,
    ensures
        tally_of(s.update(i, e), k) + (if e.0@ == k {
            s[i].1 as nat
        } else {
            0
        }) == tally_of(s, k) + if e.0@ == k {
            e.1 as nat
        } else {
            0
        },
    decreases s.len(),
{
    let t = s.update(i, e);
    if i == s.len() - 1 {
        assert(t.drop_last() =~= s.drop_last());
    } else {
        assert(t.drop_last() =~= s.drop_last().update(i, e));
        lemma_tally_update(s.drop_last(), i, e, k);
    }
}

/// A key that no entry carries has tally zero.
pub proof fn lemma_tally_absent<K: Key>(s: Seq<(K, u64)>, k: K::V)
    requires
        !has_key(s, k),
    ensures
        tally_of(s, k) == 0,
    decreases s.len(),
{
    if s.len() > 0 {
        assert(s[s.len() - 1].0@ != k);
        assert forall|i: int| 0 <= i < s.drop_last().len() implies (#[trigger] s.drop_last()[i]).0@
            != k by {
            assert(s[i].0@ != k);
        }
        lemma_tally_absent(s.drop_last(), k);
    }
}

/// Where no key occurs twice, the tally of a key is the count of its entry.
pub proof fn lemma_tally_unique<K: Key>(s: Seq<(K, u64)>, i: int)
    requires
        key_ids(s).no_duplicates(),
        0 <= i < s.len(),
    ensures
        tally_of(s, s[i].0@) == s[i].1 as nat,
    decreases s.len(),
{
    let k = s[i].0@;
    let init = s.drop_last();
    let n = s.len() - 1;
    assert forall|a: int, b: int| 0 <= a < init.len() && 0 <= b < init.len() && a != b implies key_ids(
        init,
    )[a] != key_ids(init)[b] by {
        assert(key_ids(s)[a] != key_ids(s)[b]);
    }
    if i == n {
        assert forall|j: int| 0 <= j < init.len() implies (#[trigger] init[j]).0@ != k by {
            assert(key_ids(s)[j] != key_ids(s)[n]);
        }
        lemma_tally_absent(init, k);
    } else {
        assert(key_ids(s)[i] != key_ids(s)[n]);
        lemma_tally_unique(init, i);
    }
}

/// The tally of any key is at most the total of all counts.
pub proof fn lemma_tally_le_total<K: Key>(s: Seq<(K, u64)>, k: K::V)
    ensures
        tally_of(s, k) <= total_of(s),
    decreases s.len(),
{
    if s.len() > 0 {
        lemma_tally_le_total(s.drop_last(), k);
    }
}

/// Replacing entries by entries with the same keys keeps the set of keys.
pub proof fn lemma_has_key_same<K: Key>(before: Seq<(K, u64)>, after: Seq<(K, u64)>, kid: K::V)
    requires
        after.len() == before.len(),
        forall|j: int| 0 <= j < before.len() ==> (#[trigger] after[j]).0@ == before[j].0@,
        has_key(before, kid),
    ensures
        forall|k: K::V| has_key(after, k) == (has_key(before, k) || k == kid),
{
    assert forall|k: K::V| has_key(after, k) == (has_key(before, k) || k == kid) by {
        if has_key(before, k) {
            let j = choose|j: int| 0 <= j < before.len() && (#[trigger] before[j]).0@ == k;
            assert(after[j].0@ == k);
        }
        if has_key(after, k) {
            let j = choose|j: int| 0 <= j < after.len() && (#[trigger] after[j]).0@ == k;
            assert(before[j].0@ == k);
        }
    }
}

/// Appending an entry under a key that is new keeps the keys distinct and
/// adds that key to them.
pub proof fn lemma_push_fresh<K: Key>(before: Seq<(K, u64)>, e: (K, u64))
    requires
        key_ids(before).no_duplicates(),
        !has_key(before, e.0@),
    ensures
        key_ids(before.push(e)).no_duplicates(),
        key_ids(before.push(e)) == key_ids(before).push(e.0@),
        forall|k: K::V| has_key(before.push(e), k) == (has_key(before, k) || k == e.0@),
{
    let after = before.push(e);
    let kid = e.0@;
    assert(key_ids(after) =~= key_ids(before).push(kid));
    assert forall|a: int, b: int|
        0 <= a < after.len() && 0 <= b < after.len() && a != b implies key_ids(after)[a] != key_ids(
        after,
    )[b] by {
        if a < before.len() {
            assert(before[a].0@ != kid);
            assert(key_ids(before)[a] == before[a].0@);
        }
        if b < before.len() {
            assert(before[b].0@ != kid);
            assert(key_ids(before)[b] == before[b].0@);
        }
    }
    assert forall|k: K::V| has_key(after, k) == (has_key(before, k) || k == kid) by {
        if has_key(before, k) {
            let j = choose|j: int| 0 <= j < before.len() && (#[trigger] before[j]).0@ == k;
            assert(after[j].0@ == k);
        }
        if has_key(after, k) {
            let j = choose|j: int| 0 <= j < after.len() && (#[trigger] after[j]).0@ == k;
            if j < before.len() {
                assert(before[j].0@ == k);
            }
        }
        if k == kid {
            assert(after[before.len() as int].0@ == k);
        }
    }
}

/// The sum of the counts of the first `n` entries is at most that of all.
pub proof fn lemma_total_prefix<K: Key>(s: Seq<(K, u64)>, n: int)
    requires
        0 <= n <= s.len(),
    ensures
        total_of(s.take(n)) <= total_of(s),
    decreases s.len() - n,
{
    if n < s.len() {
        assert(s.take(n + 1).drop_last() =~= s.take(n));
        lemma_total_prefix(s, n + 1);
    } else {
        assert(s.take(n) =~= s);
    }
}

/// A counter: keys with non-negative counts, kept in the order in which the
/// keys were first seen. No key occurs twice.
#[derive(Debug)]
pub struct Counter<K: Key> {
    pub entries: Vec<(K, u64)>,
}

impl<K: Key> Counter<K> {
    /// The identities of the keys, in order of first appearance.
    pub open spec fn keys(&self) -> Seq<K::V> {
        key_ids(self.entries@)
    }

    /// The invariant of a counter: no key occurs twice.
    pub open spec fn wf(&self) -> bool {
        self.keys().no_duplicates()
    }

    /// Whether the counter has an entry for `k`.
    pub open spec fn contains(&self, k: K::V) -> bool {
        has_key(self.entries@, k)
    }

    /// The count recorded under `k`; zero where there is no entry.
    pub open spec fn count(&self, k: K::V) -> nat {
        tally_of(self.entries@, k)
    }

    /// The sum of all counts.
    pub open spec fn total(&self) -> nat {
        total_of(self.entries@)
    }

    /// A counter without entries.
    pub fn new() -> (c: Self)
        ensures
            c.wf(),
            c.entries@.len() == 0,
            forall|k: K::V| c.count(k) == 0,
            forall|k: K::V| !c.contains(k),
            c.total() == 0,
    {
        Counter { entries: Vec::new() }
    }

    /// The number of keys.
    pub fn len(&self) -> (n: usize)
        ensures
            n == self.entries@.len(),
    {
        self.entries.len()
    }

    /// The position of the entry for `key`, if there is one.
    pub fn position(&self, key: &K) -> (r: Option<usize>)
        ensures
            match r {
                Some(i) => {
                    &&& i < self.entries@.len()
                    &&& self.entries@[i as int].0@ == key@
                    &&& forall|j: int| 0 <= j < i ==> (#[trigger] self.entries@[j]).0@ != key@
                },
                None => !self.contains(key@),
            },
            r.is_some() == self.contains(key@),
    {
        let mut i: usize = 0;
        while i < self.entries.len()
            invariant
                i <= self.entries@.len(),
                forall|j: int| 0 <= j < i ==> (#[trigger] self.entries@[j]).0@ != key@,
            decreases self.entries@.len() - i,
        {
            if self.entries[i].0.same(key) {
                return Some(i);
            }
            i += 1;
        }
        None
    }

    /// The count recorded under `key`, if the counter has an entry for it.
    pub fn get(&self, key: &K) -> (r: Option<u64>)
        requires
            self.wf(),
        ensures
            r.is_some() == self.contains(key@),
            r.is_some() ==> r.unwrap() as nat == self.count(key@),
            r.is_none() ==> self.count(key@) == 0,
    {
        match self.position(key) {
            Some(i) => {
                proof {
                    lemma_tally_unique(self.entries@, i as int);
                }
                Some(self.entries[i].1)
            },
            None => {
                proof {
                    lemma_tally_absent(self.entries@, key@);
                }
                None
            },
        }
    }

    /// Decides whether the counter is valid: whether no key occurs twice.
    pub fn check(&self) -> (ok: bool)
        ensures
            ok == self.wf(),
    {
        let mut j: usize = 0;
        while j < self.entries.len()
            invariant
                j <= self.entries@.len(),
                forall|a: int, b: int|
                    0 <= a < b < j ==> self.entries@[a].0@ != self.entries@[b].0@,
            decreases self.entries@.len() - j,
        {
            let mut i: usize = 0;
            while i < j
                invariant
                    i <= j,
                    j < self.entries@.len(),
                    forall|a: int| 0 <= a < i ==> self.entries@[a].0@ != self.entries@[j as int].0@,
                decreases j - i,
            {
                if self.entries[i].0.same(&self.entries[j].0) {
                    proof {
                        assert(key_ids(self.entries@)[i as int] == key_ids(self.entries@)[j as int]);
                    }
                    return false;
                }
                i += 1;
            }
            j += 1;
        }
        proof {
            assert forall|a: int, b: int|
                0 <= a < self.keys().len() && 0 <= b < self.keys().len() && a != b implies self.keys()[a]
                != self.keys()[b] by {
                if a < b {
                    assert(self.entries@[a].0@ != self.entries@[b].0@);
                } else {
                    assert(self.entries@[b].0@ != self.entries@[a].0@);
                }
            }
        }
        true
    }

    /// The sum of all counts, where it fits in 64 bits.
    pub fn checked_total(&self) -> (r: Option<u64>)
        ensures
            match r {
                Some(t) => t as nat == self.total(),
                None => self.total() > u64::MAX,
            },
    {
        let mut sum: u64 = 0;
        let mut i: usize = 0;
        proof {
            assert(self.entries@.take(0) =~= Seq::<(K, u64)>::empty());
        }
        while i < self.entries.len()
            invariant
                i <= self.entries@.len(),
                sum as nat == total_of(self.entries@.take(i as int)),
            decreases self.entries@.len() - i,
        {
            let count: u64 = self.entries[i].1;
            proof {
                assert(self.entries@.take(i + 1).drop_last() =~= self.entries@.take(i as int));
                lemma_total_prefix(self.entries@, i + 1);
            }
            if count > u64::MAX - sum {
                return None;
            }
            sum = sum + count;
            i += 1;
        }
        proof {
            assert(self.entries@.take(self.entries@.len() as int) =~= self.entries@);
        }
        Some(sum)
    }

    /// Records `value` as the count of `key`, whatever it was before, creating
    /// the entry at the end where the key is new.
    pub fn set(&mut self, key: K, value: u64)
        requires
            old(self).wf(),
        ensures
            final(self).wf(),
            forall|k: K::V|
                final(self).count(k) == if k == key@ {
                    value as nat
                } else {
                    old(self).count(k)
                },
            forall|k: K::V| final(self).contains(k) == (old(self).contains(k) || k == key@),
            final(self).keys() == if old(self).contains(key@) {
                old(self).keys()
            } else {
                old(self).keys().push(key@)
            },
            final(self).total() + old(self).count(key@) == old(self).total() + value,
    {
        let ghost before = self.entries@;
        let ghost kid = key@;
        match self.position(&key) {
            Some(i) => {
                proof {
                    lemma_tally_unique(before, i as int);
                }
                self.entries.set(i, (key, value));
                proof {
                    let after = self.entries@;
                    lemma_total_update(before, i as int, after[i as int]);
                    assert(key_ids(after) =~= key_ids(before));
                    assert forall|k: K::V|
                        tally_of(after, k) == if k == kid {
                            value as nat
                        } else {
                            tally_of(before, k)
                        } by {
                        lemma_tally_update(before, i as int, after[i as int], k);
                    }
                    lemma_has_key_same(before, after, kid);
                }
            },
            None => {
                let ghost e = (key, value);
                self.entries.push((key, value));
                proof {
                    let after = self.entries@;
                    assert(after == before.push(e));
                    assert(after.drop_last() =~= before);
                    lemma_tally_absent(before, kid);
                    lemma_push_fresh(before, e);
                    assert forall|k: K::V|
                        tally_of(after, k) == if k == kid {
                            value as nat
                        } else {
                            tally_of(before, k)
                        } by {
                        lemma_tally_push(before, e, k);
                    }
                }
            },
        }
    }

    /// Raises the count of `key` by `amount`, creating the entry at the end
    /// where the key is new. An amount of zero still creates the entry.
    pub fn add(&mut self, key: K, amount: u64)
        requires
            old(self).wf(),
            old(self).count(key@) + amount <= u64::MAX,
        ensures
            final(self).wf(),
            forall|k: K::V|
                final(self).count(k) == old(self).count(k) + if k == key@ {
                    amount as nat
                } else {
                    0
                },
            forall|k: K::V| final(self).contains(k) == (old(self).contains(k) || k == key@),
            final(self).keys() == if old(self).contains(key@) {
                old(self).keys()
            } else {
                old(self).keys().push(key@)
            },
            final(self).total() == old(self).total() + amount,
    {
        let ghost before = self.entries@;
        match self.position(&key) {
            Some(i) => {
                let now: u64 = self.entries[i].1;
                proof {
                    lemma_tally_unique(before, i as int);
                }
                let ghost kid = key@;
                self.entries.set(i, (key, now + amount));
                proof {
                    let after = self.entries@;
                    assert(key_ids(after) =~= key_ids(before));
                    assert forall|k: K::V| tally_of(after, k) == tally_of(before, k) + if k == kid {
                        amount as nat
                    } else {
                        0
                    } by {
                        lemma_tally_update(before, i as int, after[i as int], k);
                    }
                    assert forall|k: K::V| has_key(after, k) == (has_key(before, k) || k == kid) by {
                        if has_key(before, k) {
                            let j = choose|j: int| 0 <= j < before.len() && (#[trigger] before[j]).0@ == k;
                            assert(after[j].0@ == k);
                        }
                        if has_key(after, k) {
                            let j = choose|j: int| 0 <= j < after.len() && (#[trigger] after[j]).0@ == k;
                            assert(before[j].0@ == k);
                        }
                        if k == kid {
                            assert(after[i as int].0@ == k);
                        }
                    }
                    lemma_total_update(before, i as int, after[i as int]);
                }
            },
            None => {
                let ghost kid = key@;
                let ghost e = (key, amount);
                self.entries.push((key, amount));
                proof {
                    let after = self.entries@;
                    assert(after == before.push(e));
                    assert(key_ids(after) =~= key_ids(before).push(kid));
                    assert forall|a: int, b: int|
                        0 <= a < after.len() && 0 <= b < after.len() && a != b implies key_ids(after)[a]
                        != key_ids(after)[b] by {
                        if a < before.len() {
                            assert(before[a].0@ != kid);
                            assert(key_ids(before)[a] == before[a].0@);
                        }
                        if b < before.len() {
                            assert(before[b].0@ != kid);
                            assert(key_ids(before)[b] == before[b].0@);
                        }
                    }
                    assert forall|k: K::V| tally_of(after, k) == tally_of(before, k) + if k == kid {
                        amount as nat
                    } else {
                        0
                    } by {
                        lemma_tally_push(before, e, k);
                    }
                    assert forall|k: K::V| has_key(after, k) == (has_key(before, k) || k == kid) by {
                        if has_key(before, k) {
                            let j = choose|j: int| 0 <= j < before.len() && (#[trigger] before[j]).0@ == k;
                            assert(after[j].0@ == k);
                        }
                        if has_key(after, k) {
                            let j = choose|j: int| 0 <= j < after.len() && (#[trigger] after[j]).0@ == k;
                            if j < before.len() {
                                assert(before[j].0@ == k);
                            }
                        }
                        if k == kid {
                            assert(after[before.len() as int].0@ == k);
                        }
                    }
                    assert(after.drop_last() =~= before);
                }
            },
        }
    }
}

/// Replacing one entry shifts the total by the difference of the counts.
pub proof fn lemma_total_update<K: Key>(s: Seq<(K, u64)>, i: int, e: (K, u64))
    requires
        0 <= i < s.len(),
    ensures
        total_of(s.update(i, e)) + s[i].1 as nat == total_of(s) + e.1 as nat,
    decreases s.len(),
{
    let t = s.update(i, e);
    if i == s.len() - 1 {
        assert(t.drop_last() =~= s.drop_last());
    } else {
        assert(t.drop_last() =~= s.drop_last().update(i, e));
        lemma_total_update(s.drop_last(), i, e);
    }
}

/// Counts one more occurrence of `key`: raises its count by one, or enters
/// it with a count of one where it is new.
pub fn add_or_insert<K: Key>(map: &mut Counter<K>, key: K)
    requires
        old(map).wf(),
        old(map).count(key@) < u64::MAX,
    ensures
        final(map).wf(),
        forall|k: K::V|
            final(map).count(k) == old(map).count(k) + if k == key@ {
                1nat
            } else {
                0
            },
        forall|k: K::V| final(map).contains(k) == (old(map).contains(k) || k == key@),
        final(map).keys() == if old(map).contains(key@) {
            old(map).keys()
        } else {
            old(map).keys().push(key@)
        },
        final(map).total() == old(map).total() + 1,
{
    map.add(key, 1);
}

} // verus!
