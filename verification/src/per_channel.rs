use vstd::prelude::*;
use crate::counter::{
    has_key, key_ids, lemma_tally_absent, lemma_tally_le_total, lemma_tally_unique, total_of, Counter,
};
use crate::key::Key;

verus! {

/// The identities of the keys of a sequence of rows, in order.
pub open spec fn row_ids<K: Key>(rows: Seq<(K, Counter<u64>)>) -> Seq<K::V> {
    Seq::new(rows.len(), |i: int| rows[i].0@)
}

/// Whether some row of the sequence belongs to `k`.
pub open spec fn has_row<K: Key>(rows: Seq<(K, Counter<u64>)>, k: K::V) -> bool {
    exists|i: int| 0 <= i < rows.len() && (#[trigger] rows[i]).0@ == k
}

/// The count that the rows of `k` record for channel `c`.
pub open spec fn cell_of<K: Key>(rows: Seq<(K, Counter<u64>)>, k: K::V, c: u64) -> nat
    decreases rows.len(),
{
    if rows.len() == 0 {
        0
    } else {
        cell_of(rows.drop_last(), k, c) + if rows.last().0@ == k {
            rows.last().1.count(c)
        } else {
            0
        }
    }
}

/// The sum, over all channels, of the counts that the rows of `k` record.
pub open spec fn row_total_of<K: Key>(rows: Seq<(K, Counter<u64>)>, k: K::V) -> nat
    decreases rows.len(),
{
    if rows.len() == 0 {
        0
    } else {
        row_total_of(rows.drop_last(), k) + if rows.last().0@ == k {
            rows.last().1.total()
        } else {
            0
        }
    }
}

proof fn lemma_rows_absent<K: Key>(rows: Seq<(K, Counter<u64>)>, k: K::V, c: u64)
    requires
        !has_row(rows, k),
    ensures
        row_total_of(rows, k) == 0,
        cell_of(rows, k, c) == 0,
    decreases rows.len(),
{
    if rows.len() > 0 {
        assert(rows[rows.len() - 1].0@ != k);
        assert forall|i: int| 0 <= i < rows.drop_last().len() implies (
        #[trigger] rows.drop_last()[i]).0@ != k by {
            assert(rows[i].0@ != k);
        }
        lemma_rows_absent(rows.drop_last(), k, c);
    }
}

proof fn lemma_rows_unique<K: Key>(rows: Seq<(K, Counter<u64>)>, i: int, c: u64)
    requires
        row_ids(rows).no_duplicates(),
        0 <= i < rows.len(),
    ensures
        row_total_of(rows, rows[i].0@) == rows[i].1.total(),
        cell_of(rows, rows[i].0@, c) == rows[i].1.count(c),
    decreases rows.len(),
{
    let k = rows[i].0@;
    let init = rows.drop_last();
    let n = rows.len() - 1;
    assert forall|a: int, b: int| 0 <= a < init.len() && 0 <= b < init.len() && a != b implies row_ids(
        init,
    )[a] != row_ids(init)[b] by {
        assert(row_ids(rows)[a] != row_ids(rows)[b]);
    }
    if i == n {
        assert forall|j: int| 0 <= j < init.len() implies (#[trigger] init[j]).0@ != k by {
            assert(row_ids(rows)[j] != row_ids(rows)[n]);
        }
        lemma_rows_absent(init, k, c);
    } else {
        assert(row_ids(rows)[i] != row_ids(rows)[n]);
        lemma_rows_unique(init, i, c);
    }
}

proof fn lemma_rows_push<K: Key>(
    rows: Seq<(K, Counter<u64>)>,
    e: (K, Counter<u64>),
    k: K::V,
    c: u64,
)
    ensures
        row_total_of(rows.push(e), k) == row_total_of(rows, k) + if e.0@ == k {
            e.1.total()
        } else {
            0
        },
        cell_of(rows.push(e), k, c) == cell_of(rows, k, c) + if e.0@ == k {
            e.1.count(c)
        } else {
            0
        },
{
    assert(rows.push(e).drop_last() =~= rows);
}

proof fn lemma_rows_other<K: Key>(
    rows: Seq<(K, Counter<u64>)>,
    after: Seq<(K, Counter<u64>)>,
    i: int,
    k: K::V,
    c: u64,
)
    requires
        0 <= i < rows.len(),
        after.len() == rows.len(),
        forall|j: int| 0 <= j < rows.len() ==> (#[trigger] after[j]).0@ == rows[j].0@,
        forall|j: int| 0 <= j < rows.len() && j != i ==> (#[trigger] after[j]).1 == rows[j].1,
        rows[i].0@ != k,
    ensures
        row_total_of(after, k) == row_total_of(rows, k),
        cell_of(after, k, c) == cell_of(rows, k, c),
    decreases rows.len(),
{
    let n = rows.len() - 1;
    if i == n {
        lemma_rows_same(rows.drop_last(), after.drop_last(), k, c);
        assert(after[n].0@ == rows[n].0@);
    } else {
        assert(after[n].0@ == rows[n].0@);
        assert(after[n].1 == rows[n].1);
        assert forall|j: int| 0 <= j < rows.drop_last().len() implies (
        #[trigger] after.drop_last()[j]).0@ == rows.drop_last()[j].0@ by {
            assert(after[j].0@ == rows[j].0@);
        }
        assert forall|j: int| 0 <= j < rows.drop_last().len() && j != i implies (
        #[trigger] after.drop_last()[j]).1 == rows.drop_last()[j].1 by {
            assert(after[j].1 == rows[j].1);
        }
        lemma_rows_other(rows.drop_last(), after.drop_last(), i, k, c);
    }
}

proof fn lemma_rows_same<K: Key>(
    rows: Seq<(K, Counter<u64>)>,
    after: Seq<(K, Counter<u64>)>,
    k: K::V,
    c: u64,
)
    requires
        after.len() == rows.len(),
        forall|j: int| 0 <= j < rows.len() ==> (#[trigger] after[j]).0@ == rows[j].0@,
        forall|j: int| 0 <= j < rows.len() ==> (#[trigger] after[j]).1 == rows[j].1,
    ensures
        row_total_of(after, k) == row_total_of(rows, k),
        cell_of(after, k, c) == cell_of(rows, k, c),
    decreases rows.len(),
{
    if rows.len() > 0 {
        let n = rows.len() - 1;
        assert(after[n].0@ == rows[n].0@);
        assert(after[n].1 == rows[n].1);
        assert forall|j: int| 0 <= j < rows.drop_last().len() implies (
        #[trigger] after.drop_last()[j]).0@ == rows.drop_last()[j].0@ by {
            assert(after[j].0@ == rows[j].0@);
        }
        assert forall|j: int| 0 <= j < rows.drop_last().len() implies (
        #[trigger] after.drop_last()[j]).1 == rows.drop_last()[j].1 by {
            assert(after[j].1 == rows[j].1);
        }
        lemma_rows_same(rows.drop_last(), after.drop_last(), k, c);
    }
}

/// For each key, a counter over channels: how much of the key's count fell
/// into which channel. No key has two rows, and every row is a valid counter.
#[derive(Debug)]
pub struct CounterPerChannel<K: Key> {
    pub rows: Vec<(K, Counter<u64>)>,
}

impl<K: Key> CounterPerChannel<K> {
    /// The identities of the keys that have a row, in order of first appearance.
    pub open spec fn keys(&self) -> Seq<K::V> {
        row_ids(self.rows@)
    }

    /// The invariant: no key has two rows, and every row is a valid counter.
    pub open spec fn wf(&self) -> bool {
        &&& self.keys().no_duplicates()
        &&& forall|i: int| 0 <= i < self.rows@.len() ==> (#[trigger] self.rows@[i]).1.wf()
    }

    /// Whether `k` has a row.
    pub open spec fn contains(&self, k: K::V) -> bool {
        has_row(self.rows@, k)
    }

    /// The count of `k` in channel `c`; zero where nothing was recorded.
    pub open spec fn count(&self, k: K::V, c: u64) -> nat {
        cell_of(self.rows@, k, c)
    }

    /// The sum over all channels of the counts of `k`.
    pub open spec fn row_total(&self, k: K::V) -> nat {
        row_total_of(self.rows@, k)
    }

    /// The channels of `k` with their counts, in the order in which they
    /// were first counted; empty where `k` has no row.
    pub open spec fn row_entries(&self, k: K::V) -> Seq<(u64, u64)> {
        if self.contains(k) {
            let i = choose|i: int| 0 <= i < self.rows@.len() && (#[trigger] self.rows@[i]).0@ == k;
            self.rows@[i].1.entries@
        } else {
            Seq::empty()
        }
    }

    /// A table without rows.
    pub fn new() -> (t: Self)
        ensures
            t.wf(),
            t.rows@.len() == 0,
            forall|k: K::V| t.row_total(k) == 0,
            forall|k: K::V| !t.contains(k),
            forall|k: K::V, c: u64| t.count(k, c) == 0,
    {
        CounterPerChannel { rows: Vec::new() }
    }

    /// Decides whether the table is valid: whether no key has two rows and
    /// every row is a valid counter.
    pub fn check(&self) -> (ok: bool)
        ensures
            ok == self.wf(),
    {
        let mut j: usize = 0;
        while j < self.rows.len()
            invariant
                j <= self.rows@.len(),
                forall|a: int, b: int| 0 <= a < b < j ==> self.rows@[a].0@ != self.rows@[b].0@,
                forall|a: int| 0 <= a < j ==> (#[trigger] self.rows@[a]).1.wf(),
            decreases self.rows@.len() - j,
        {
            if !self.rows[j].1.check() {
                return false;
            }
            let mut i: usize = 0;
            while i < j
                invariant
                    i <= j,
                    j < self.rows@.len(),
                    forall|a: int| 0 <= a < i ==> self.rows@[a].0@ != self.rows@[j as int].0@,
                decreases j - i,
            {
                if self.rows[i].0.same(&self.rows[j].0) {
                    proof {
                        assert(row_ids(self.rows@)[i as int] == row_ids(self.rows@)[j as int]);
                    }
                    return false;
                }
                i += 1;
            }
            j += 1;
        }
        proof {
            assert forall|a: int, b: int|
                0 <= a < self.keys().len() && 0 <= b < self.keys().len() && a != b implies self.keys()[a]
                != self.keys()[b] by {
                if a < b {
                    assert(self.rows@[a].0@ != self.rows@[b].0@);
                } else {
                    assert(self.rows@[b].0@ != self.rows@[a].0@);
                }
            }
        }
        true
    }

    /// The position of the row of `key`, if it has one.
    pub fn position(&self, key: &K) -> (r: Option<usize>)
        ensures
            match r {
                Some(i) => {
                    &&& i < self.rows@.len()
                    &&& self.rows@[i as int].0@ == key@
                    &&& forall|j: int| 0 <= j < i ==> (#[trigger] self.rows@[j]).0@ != key@
                },
                None => !self.contains(key@),
            },
            r.is_some() == self.contains(key@),
    {
        let mut i: usize = 0;
        while i < self.rows.len()
            invariant
                i <= self.rows@.len(),
                forall|j: int| 0 <= j < i ==> (#[trigger] self.rows@[j]).0@ != key@,
            decreases self.rows@.len() - i,
        {
            if self.rows[i].0.same(key) {
                return Some(i);
            }
            i += 1;
        }
        None
    }

    /// The channel counter of `key`, if it has a row.
    pub fn get(&self, key: &K) -> (r: Option<&Counter<u64>>)
        requires
            self.wf(),
        ensures
            r.is_some() == self.contains(key@),
            r.is_some() ==> {
                &&& r.unwrap().wf()
                &&& r.unwrap().total() == self.row_total(key@)
                &&& r.unwrap().entries@ == self.row_entries(key@)
                &&& forall|c: u64| r.unwrap().count(c) == self.count(key@, c)
            },
            r.is_none() ==> self.row_total(key@) == 0,
    {
        match self.position(key) {
            Some(i) => {
                proof {
                    let w = choose|w: int|
                        0 <= w < self.rows@.len() && (#[trigger] self.rows@[w]).0@ == key@;
                    assert(row_ids(self.rows@)[w] == row_ids(self.rows@)[i as int]);
                    assert(w == i);
                    lemma_rows_unique(self.rows@, i as int, 0);
                    assert forall|c: u64| self.rows@[i as int].1.count(c) == self.count(key@, c) by {
                        lemma_rows_unique(self.rows@, i as int, c);
                    }
                }
                Some(&self.rows[i].1)
            },
            None => {
                proof {
                    lemma_rows_absent(self.rows@, key@, 0);
                }
                None
            },
        }
    }

    /// Raises the count of `key` in `channel` by `amount`, creating the row
    /// and the channel's entry where they are new.
    pub fn add(&mut self, key: K, channel: u64, amount: u64)
        requires
            old(self).wf(),
            old(self).row_total(key@) + amount <= u64::MAX,
        ensures
            final(self).wf(),
            forall|k: K::V, c: u64|
                final(self).count(k, c) == old(self).count(k, c) + if k == key@ && c == channel {
                    amount as nat
                } else {
                    0
                },
            forall|k: K::V|
                final(self).row_total(k) == old(self).row_total(k) + if k == key@ {
                    amount as nat
                } else {
                    0
                },
            forall|k: K::V| final(self).contains(k) == (old(self).contains(k) || k == key@),
            final(self).keys() == if old(self).contains(key@) {
                old(self).keys()
            } else {
                old(self).keys().push(key@)
            },
    {
        let ghost before = self.rows@;
        let ghost kid = key@;
        match self.position(&key) {
            Some(i) => {
                proof {
                    lemma_rows_unique(before, i as int, channel);
                    lemma_tally_le_total(before[i as int].1.entries@, channel);
                }
                let (k0, mut row) = self.rows.remove(i);
                row.add(channel, amount);
                self.rows.insert(i, (k0, row));
                proof {
                    let after = self.rows@;
                    assert(after.len() == before.len());
                    assert forall|j: int| 0 <= j < before.len() implies (#[trigger] after[j]).0@
                        == before[j].0@ by {}
                    assert forall|j: int| 0 <= j < before.len() && j != i implies (
                    #[trigger] after[j]).1 == before[j].1 by {}
                    assert(row_ids(after) =~= row_ids(before));
                    assert forall|j: int| 0 <= j < after.len() implies (#[trigger] after[j]).1.wf() by {
                        if j != i {
                            assert(after[j].1 == before[j].1);
                        }
                    }
                    lemma_rows_unique(after, i as int, channel);
                    assert forall|k: K::V| k != kid implies row_total_of(after, k) == row_total_of(
                        before,
                        k,
                    ) by {
                        lemma_rows_other(before, after, i as int, k, 0);
                    }
                    assert forall|k: K::V, c: u64|
                        cell_of(after, k, c) == cell_of(before, k, c) + if k == kid && c == channel {
                            amount as nat
                        } else {
                            0
                        } by {
                        if k == kid {
                            lemma_rows_unique(before, i as int, c);
                            lemma_rows_unique(after, i as int, c);
                        } else {
                            lemma_rows_other(before, after, i as int, k, c);
                        }
                    }
                    assert forall|k: K::V| has_row(after, k) == (has_row(before, k) || k == kid) by {
                        if has_row(before, k) {
                            let j = choose|j: int| 0 <= j < before.len() && (#[trigger] before[j]).0@ == k;
                            assert(after[j].0@ == k);
                        }
                        if has_row(after, k) {
                            let j = choose|j: int| 0 <= j < after.len() && (#[trigger] after[j]).0@ == k;
                            assert(before[j].0@ == k);
                        }
                        if k == kid {
                            assert(after[i as int].0@ == k);
                        }
                    }
                }
            },
            None => {
                let mut row: Counter<u64> = Counter::new();
                row.add(channel, amount);
                let ghost e = (key, row);
                self.rows.push((key, row));
                proof {
                    let after = self.rows@;
                    assert(after == before.push(e));
                    lemma_rows_absent(before, kid, channel);
                    assert(row_ids(after) =~= row_ids(before).push(kid));
                    assert forall|a: int, b: int|
                        0 <= a < after.len() && 0 <= b < after.len() && a != b implies row_ids(after)[a]
                        != row_ids(after)[b] by {
                        if a < before.len() {
                            assert(before[a].0@ != kid);
                            assert(row_ids(before)[a] == before[a].0@);
                        }
                        if b < before.len() {
                            assert(before[b].0@ != kid);
                            assert(row_ids(before)[b] == before[b].0@);
                        }
                    }
                    assert forall|j: int| 0 <= j < after.len() implies (#[trigger] after[j]).1.wf() by {
                        if j < before.len() {
                            assert(after[j] == before[j]);
                        }
                    }
                    assert forall|k: K::V|
                        row_total_of(after, k) == row_total_of(before, k) + if k == kid {
                            amount as nat
                        } else {
                            0
                        } by {
                        lemma_rows_push(before, e, k, 0);
                    }
                    assert forall|k: K::V, c: u64|
                        cell_of(after, k, c) == cell_of(before, k, c) + if k == kid && c == channel {
                            amount as nat
                        } else {
                            0
                        } by {
                        lemma_rows_push(before, e, k, c);
                    }
                    assert forall|k: K::V| has_row(after, k) == (has_row(before, k) || k == kid) by {
                        if has_row(before, k) {
                            let j = choose|j: int| 0 <= j < before.len() && (#[trigger] before[j]).0@ == k;
                            assert(after[j].0@ == k);
                        }
                        if has_row(after, k) {
                            let j = choose|j: int| 0 <= j < after.len() && (#[trigger] after[j]).0@ == k;
                            if j < before.len() {
                                assert(before[j].0@ == k);
                            }
                        }
                        if k == kid {
                            assert(after[before.len() as int].0@ == k);
                        }
                    }
                }
            },
        }
    }
}

/// The total of a key's row is the sum of its counts over the channels: the
/// row lists every channel once, each with the count that the table records
/// for the key in that channel; the total is the sum of the listed counts;
/// and in a channel that the row does not list the key has count zero.
pub proof fn lemma_row_is_channel_sum<K: Key>(table: CounterPerChannel<K>, k: K::V)
    requires
        table.wf(),
        table.contains(k),
    ensures
        key_ids(table.row_entries(k)).no_duplicates(),
        total_of(table.row_entries(k)) == table.row_total(k),
        forall|i: int|
            0 <= i < table.row_entries(k).len() ==> table.count(
                k,
                (#[trigger] table.row_entries(k)[i]).0,
            ) == table.row_entries(k)[i].1,
        forall|c: u64| !has_key(table.row_entries(k), c) ==> table.count(k, c) == 0,
{
    let i = choose|i: int| 0 <= i < table.rows@.len() && (#[trigger] table.rows@[i]).0@ == k;
    let row = table.rows@[i].1;
    let entries = row.entries@;
    assert(row.wf());
    lemma_rows_unique(table.rows@, i, 0);
    assert forall|j: int| 0 <= j < entries.len() implies table.count(k, (#[trigger] entries[j]).0)
        == entries[j].1 by {
        lemma_rows_unique(table.rows@, i, entries[j].0);
        lemma_tally_unique(entries, j);
    }
    assert forall|c: u64| !has_key(entries, c) implies table.count(k, c) == 0 by {
        lemma_rows_unique(table.rows@, i, c);
        lemma_tally_absent(entries, c);
    }
}

} // verus!
