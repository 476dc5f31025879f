//! A small table of values keyed by `u64`, the shape of every column the
//! engines keep (one value per region, per store, ...).
use vstd::prelude::*;

verus! {

/// Rows whose keys are distinct.
pub open spec fn unique_keys<V>(rows: Seq<(u64, V)>) -> bool {
    forall|i: int, j: int| 0 <= i < j < rows.len() ==> (#[trigger] rows[i]).0 != (#[trigger] rows[j]).0
}

/// The map that rows stand for.
pub closed spec fn rows_map<V>(rows: Seq<(u64, V)>) -> Map<u64, V> {
    Map::new(
        |k: u64| exists|i: int| 0 <= i < rows.len() && (#[trigger] rows[i]).0 == k,
        |k: u64| rows[choose|i: int| 0 <= i < rows.len() && (#[trigger] rows[i]).0 == k].1,
    )
}

proof fn lemma_rows_map_at<V>(rows: Seq<(u64, V)>, i: int)
    requires
        unique_keys(rows),
        0 <= i < rows.len(),
    ensures
        rows_map(rows).contains_key(rows[i].0),
        rows_map(rows)[rows[i].0] == rows[i].1,
{
    let k = rows[i].0;
    assert(rows_map(rows).contains_key(k));
    let c = choose|j: int| 0 <= j < rows.len() && (#[trigger] rows[j]).0 == k;
    if c != i {
        if c < i {
            assert(rows[c].0 != rows[i].0);
        } else {
            assert(rows[i].0 != rows[c].0);
        }
    }
}

proof fn lemma_rows_map_len<V>(rows: Seq<(u64, V)>)
    requires
        unique_keys(rows),
    ensures
        rows_map(rows).dom().len() == rows.len(),
        rows_map(rows).dom().finite(),
    decreases rows.len(),
{
    if rows.len() == 0 {
        assert(rows_map(rows).dom() =~= Set::<u64>::empty());
    } else {
        let prefix = rows.drop_last();
        let last = rows.last();
        assert(unique_keys(prefix)) by {
            assert forall|i: int, j: int| 0 <= i < j < prefix.len() implies (#[trigger] prefix[i]).0
                != (#[trigger] prefix[j]).0 by {
                assert(prefix[i] == rows[i]);
                assert(prefix[j] == rows[j]);
            }
        }
        lemma_rows_map_len(prefix);
        assert(!rows_map(prefix).dom().contains(last.0)) by {
            if rows_map(prefix).dom().contains(last.0) {
                let c = choose|c: int| 0 <= c < prefix.len() && (#[trigger] prefix[c]).0 == last.0;
                assert(rows[c].0 != rows[rows.len() - 1].0);
            }
        }
        assert(rows_map(rows).dom() =~= rows_map(prefix).dom().insert(last.0)) by {
            assert forall|k: u64| #[trigger] rows_map(rows).dom().contains(k) implies rows_map(
                prefix,
            ).dom().insert(last.0).contains(k) by {
                let c = choose|c: int| 0 <= c < rows.len() && (#[trigger] rows[c]).0 == k;
                if c < rows.len() - 1 {
                    assert(prefix[c] == rows[c]);
                }
            }
            assert forall|k: u64| #[trigger] rows_map(prefix).dom().insert(last.0).contains(k) implies rows_map(
                rows,
            ).dom().contains(k) by {
                if k != last.0 {
                    let c = choose|c: int| 0 <= c < prefix.len() && (#[trigger] prefix[c]).0 == k;
                    assert(rows[c] == prefix[c]);
                } else {
                    assert(rows[rows.len() - 1].0 == k);
                }
            }
        }
    }
}

/// Values keyed by `u64`; each key occurs at most once.
pub struct KeyedTable<V> {
    rows: Vec<(u64, V)>,
}

impl<V> KeyedTable<V> {
    /// No key occurs twice.
    pub closed spec fn wf(&self) -> bool {
        unique_keys(self.rows@)
    }

    /// The table as a map.
    pub closed spec fn view(&self) -> Map<u64, V> {
        rows_map(self.rows@)
    }

    /// An empty table.
    pub fn new() -> (t: Self)
        ensures
            t.wf(),
            t.view() == Map::<u64, V>::empty(),
    {
        let t = KeyedTable { rows: Vec::new() };
        assert(t.view() =~= Map::<u64, V>::empty());
        t
    }

    fn position(&self, key: u64) -> (res: Option<usize>)
        requires
            self.wf(),
        ensures
            match res {
                Some(i) => i < self.rows@.len() && self.rows@[i as int].0 == key,
                None => !self.view().contains_key(key),
            },
    {
        let mut i: usize = 0;
        while i < self.rows.len()
            invariant
                i <= self.rows@.len(),
                forall|j: int| 0 <= j < i ==> (#[trigger] self.rows@[j]).0 != key,
            decreases self.rows@.len() - i,
        {
            if self.rows[i].0 == key {
                return Some(i);
            }
            i = i + 1;
        }
        None
    }

    /// The value under `key`, if any.
    pub fn get(&self, key: u64) -> (res: Option<&V>)
        requires
            self.wf(),
        ensures
            match res {
                Some(v) => self.view().contains_key(key) && self.view()[key] == *v,
                None => !self.view().contains_key(key),
            },
    {
        match self.position(key) {
            Some(i) => {
                proof {
                    lemma_rows_map_at(self.rows@, i as int);
                }
                Some(&self.rows[i].1)
            },
            None => None,
        }
    }

    /// Whether `key` has a value.
    pub fn contains(&self, key: u64) -> (res: bool)
        requires
            self.wf(),
        ensures
            res == self.view().contains_key(key),
    {
        match self.position(key) {
            Some(i) => {
                proof {
                    lemma_rows_map_at(self.rows@, i as int);
                }
                true
            },
            None => false,
        }
    }

    /// Removes the value under `key` and hands it back, if any.
    pub fn take(&mut self, key: u64) -> (res: Option<V>)
        requires
            old(self).wf(),
        ensures
            final(self).wf(),
            final(self).view() == old(self).view().remove(key),
            match res {
                Some(v) => old(self).view().contains_key(key) && old(self).view()[key] == v,
                None => !old(self).view().contains_key(key),
            },
    {
        match self.position(key) {
            Some(i) => {
                proof {
                    lemma_rows_map_at(self.rows@, i as int);
                }
                let ghost old_rows = self.rows@;
                let ghost old_view = self.view();
                let (_, v) = self.rows.remove(i);
                proof {
                    assert forall|a: int, b: int|
                        0 <= a < b < self.rows@.len() implies (#[trigger] self.rows@[a]).0
                        != (#[trigger] self.rows@[b]).0 by {
                        let oa = if a < i { a } else { a + 1 };
                        let ob = if b < i { b } else { b + 1 };
                        assert(self.rows@[a] == old_rows[oa]);
                        assert(self.rows@[b] == old_rows[ob]);
                    }
                    assert forall|k: u64| #[trigger] self.view().contains_key(k) <==> old_view.remove(
                        key,
                    ).contains_key(k) by {
                        if self.view().contains_key(k) {
                            let j = choose|j: int|
                                0 <= j < self.rows@.len() && (#[trigger] self.rows@[j]).0 == k;
                            let oj = if j < i { j } else { j + 1 };
                            assert(old_rows[oj].0 == k);
                            assert(k != key);
                        }
                        if old_view.remove(key).contains_key(k) {
                            let oj = choose|j: int|
                                0 <= j < old_rows.len() && (#[trigger] old_rows[j]).0 == k;
                            assert(oj != i);
                            let j = if oj < i { oj } else { oj - 1 };
                            assert(self.rows@[j] == old_rows[oj]);
                        }
                    }
                    assert forall|k: u64| #[trigger] self.view().contains_key(k) implies self.view()[k]
                        == old_view[k] by {
                        let j = choose|j: int|
                            0 <= j < self.rows@.len() && (#[trigger] self.rows@[j]).0 == k;
                        lemma_rows_map_at(self.rows@, j);
                        let oj = if j < i { j } else { j + 1 };
                        assert(old_rows[oj] == self.rows@[j]);
                        lemma_rows_map_at(old_rows, oj);
                    }
                    assert(self.view() =~= old_view.remove(key));
                }
                Some(v)
            },
            None => {
                assert(self.view() =~= self.view().remove(key));
                None
            },
        }
    }

    /// Sets the value under `key`, replacing any earlier one.
    pub fn put(&mut self, key: u64, value: V)
        requires
            old(self).wf(),
        ensures
            final(self).wf(),
            final(self).view() == old(self).view().insert(key, value),
    {
        let _ = self.take(key);
        let ghost mid_rows = self.rows@;
        let ghost mid_view = self.view();
        self.rows.push((key, value));
        proof {
            let n = self.rows@.len() - 1;
            assert forall|a: int, b: int|
                0 <= a < b < self.rows@.len() implies (#[trigger] self.rows@[a]).0 != (
            #[trigger] self.rows@[b]).0 by {
                if b == n {
                    assert(self.rows@[a] == mid_rows[a]);
                    if mid_rows[a].0 == key {
                        assert(mid_view.contains_key(key));
                    }
                } else {
                    assert(self.rows@[a] == mid_rows[a]);
                    assert(self.rows@[b] == mid_rows[b]);
                }
            }
            lemma_rows_map_at(self.rows@, n);
            assert forall|k: u64| #[trigger] self.view().contains_key(k) <==> mid_view.insert(
                key,
                value,
            ).contains_key(k) by {
                if mid_view.contains_key(k) {
                    let j = choose|j: int| 0 <= j < mid_rows.len() && (#[trigger] mid_rows[j]).0 == k;
                    assert(self.rows@[j] == mid_rows[j]);
                }
                if self.view().contains_key(k) && k != key {
                    let j = choose|j: int|
                        0 <= j < self.rows@.len() && (#[trigger] self.rows@[j]).0 == k;
                    assert(j != n);
                    assert(mid_rows[j] == self.rows@[j]);
                }
            }
            assert forall|k: u64| #[trigger] self.view().contains_key(k) implies self.view()[k]
                == mid_view.insert(key, value)[k] by {
                if k != key {
                    let j = choose|j: int|
                        0 <= j < self.rows@.len() && (#[trigger] self.rows@[j]).0 == k;
                    lemma_rows_map_at(self.rows@, j);
                    assert(j != n);
                    assert(mid_rows[j] == self.rows@[j]);
                    lemma_rows_map_at(mid_rows, j);
                }
            }
            assert(self.view() =~= mid_view.insert(key, value));
        }
    }
    /// The smallest key of the table, if it has any.
    pub fn min_key(&self) -> (res: Option<u64>)
        requires
            self.wf(),
        ensures
            match res {
                Some(k) => self.view().contains_key(k) && forall|j: u64| #[trigger]
                    self.view().contains_key(j) ==> k <= j,
                None => self.view().dom() == Set::<u64>::empty(),
            },
    {
        if self.rows.len() == 0 {
            assert(self.view().dom() =~= Set::<u64>::empty());
            return None;
        }
        let mut best: u64 = self.rows[0].0;
        let mut i: usize = 1;
        while i < self.rows.len()
            invariant
                1 <= i <= self.rows@.len(),
                exists|j: int| 0 <= j < i && (#[trigger] self.rows@[j]).0 == best,
                forall|j: int| 0 <= j < i ==> best <= (#[trigger] self.rows@[j]).0,
            decreases self.rows@.len() - i,
        {
            if self.rows[i].0 < best {
                best = self.rows[i].0;
            }
            i = i + 1;
        }
        assert forall|j: u64| #[trigger] self.view().contains_key(j) implies best <= j by {
            let c = choose|c: int| 0 <= c < self.rows@.len() && (#[trigger] self.rows@[c]).0 == j;
        }
        Some(best)
    }

    /// The number of keys.
    pub fn len(&self) -> (res: usize)
        requires
            self.wf(),
        ensures
            res == self.view().dom().len(),
    {
        proof {
            lemma_rows_map_len(self.rows@);
        }
        self.rows.len()
    }
}


} // verus!
