//! The two storage engines of a store: the raft engine, which keeps the raft
//! log and raft state of each region, and the kv engine, which keeps the
//! apply state and region state of each region and the store identity.
//!
//! Writes go through write batches, which record operations and are applied
//! in order when consumed.
use vstd::prelude::*;
use crate::entry::{Entry, EntryView, entries_view};
use crate::keyed_table::KeyedTable;
use crate::metapb::{Region, RegionView};
use crate::raft_state::{RaftApplyState, RaftLocalState};
use crate::tikv_util::KeyBuilder;

verus! {

/// The mathematical value of a raft engine: the entries keyed by
/// `(region_id, index)`, and the raft state of each region.
pub struct RaftEngineView {
    pub entries: Map<(u64, u64), EntryView>,
    pub states: Map<u64, RaftLocalState>,
}

/// The raft engine of a store.
pub struct RaftEngine {
    logs: KeyedTable<KeyedTable<Entry>>,
    states: KeyedTable<RaftLocalState>,
}

/// Whether every entry of `t` is stored under its own index.
pub open spec fn keyed_by_index(t: Map<u64, Entry>) -> bool {
    forall|i: u64| #[trigger] t.contains_key(i) ==> t[i].index == i
}

/// The flat map that per-region tables of entries stand for.
pub open spec fn flatten_logs(logs: Map<u64, KeyedTable<Entry>>) -> Map<(u64, u64), EntryView> {
    Map::new(
        |k: (u64, u64)| logs.contains_key(k.0) && logs[k.0]@.contains_key(k.1),
        |k: (u64, u64)| logs[k.0]@[k.1]@,
    )
}

/// The entries of region `region_id` in a flat map of entries.
pub open spec fn region_log(entries: Map<(u64, u64), EntryView>, region_id: u64) -> Map<u64, EntryView> {
    Map::new(|i: u64| entries.contains_key((region_id, i)), |i: u64| entries[(region_id, i)])
}

impl RaftEngine {
    /// The tables are well formed and every entry sits under its own index.
    pub closed spec fn wf(&self) -> bool {
        &&& self.logs.wf()
        &&& self.states.wf()
        &&& forall|r: u64| #[trigger] self.logs@.contains_key(r) ==> self.logs@[r].wf()
            && keyed_by_index(self.logs@[r]@)
    }

    pub closed spec fn view(&self) -> RaftEngineView {
        RaftEngineView { entries: flatten_logs(self.logs@), states: self.states@ }
    }

    /// An empty engine.
    pub fn new() -> (e: RaftEngine)
        ensures
            e.wf(),
            e@.entries == Map::<(u64, u64), EntryView>::empty(),
            e@.states == Map::<u64, RaftLocalState>::empty(),
    {
        let e = RaftEngine { logs: KeyedTable::new(), states: KeyedTable::new() };
        assert(e@.entries =~= Map::<(u64, u64), EntryView>::empty());
        e
    }

    /// The raft state of region `region_id`, if any.
    pub fn get_raft_state(&self, region_id: u64) -> (res: Option<RaftLocalState>)
        requires
            self.wf(),
        ensures
            res == (if self@.states.contains_key(region_id) {
                Some(self@.states[region_id])
            } else {
                None
            }),
    {
        match self.states.get(region_id) {
            Some(s) => Some(*s),
            None => None,
        }
    }

    /// Stores the raft state of region `region_id`.
    pub fn put_raft_state(&mut self, region_id: u64, state: RaftLocalState)
        requires
            old(self).wf(),
        ensures
            final(self).wf(),
            final(self)@.entries == old(self)@.entries,
            final(self)@.states == old(self)@.states.insert(region_id, state),
    {
        self.states.put(region_id, state);
    }

    /// The entry at `index` of region `region_id`, if any.
    pub fn get_entry(&self, region_id: u64, index: u64) -> (res: Option<Entry>)
        requires
            self.wf(),
        ensures
            match res {
                Some(e) => self@.entries.contains_key((region_id, index)) && e@ == self@.entries[(
                    region_id,
                    index,
                )],
                None => !self@.entries.contains_key((region_id, index)),
            },
    {
        match self.logs.get(region_id) {
            Some(t) => match t.get(index) {
                Some(e) => Some(e.copy()),
                None => None,
            },
            None => None,
        }
    }

    /// Stores `e` under `(region_id, e.index)`.
    pub fn put_entry(&mut self, region_id: u64, e: Entry)
        requires
            old(self).wf(),
        ensures
            final(self).wf(),
            final(self)@.entries == old(self)@.entries.insert((region_id, e.index), e@),
            final(self)@.states == old(self)@.states,
    {
        let ghost old_logs = self.logs@;
        let ghost ev = e@;
        let ghost idx = e.index;
        let mut t = match self.logs.take(region_id) {
            Some(t) => t,
            None => KeyedTable::new(),
        };
        let ghost old_t = t@;
        t.put(e.index, e);
        self.logs.put(region_id, t);
        proof {
            assert(keyed_by_index(self.logs@[region_id]@));
            assert forall|r: u64| #[trigger] self.logs@.contains_key(r) implies self.logs@[r].wf()
                && keyed_by_index(self.logs@[r]@) by {
                if r != region_id {
                    assert(old_logs.contains_key(r));
                }
            }
            let ne = flatten_logs(self.logs@);
            let oe = flatten_logs(old_logs).insert((region_id, idx), ev);
            assert forall|k: (u64, u64)| #[trigger] ne.contains_key(k) <==> oe.contains_key(k) by {
                if k.0 == region_id && old_logs.contains_key(region_id) {
                    assert(old_t == old_logs[region_id]@);
                }
            }
            assert forall|k: (u64, u64)| #[trigger] ne.contains_key(k) implies ne[k] == oe[k] by {
                if k.0 == region_id && old_logs.contains_key(region_id) {
                    assert(old_t == old_logs[region_id]@);
                }
            }
            assert(ne =~= oe);
        }
    }

    /// Deletes the entry under `(region_id, index)`, if any.
    pub fn delete_entry(&mut self, region_id: u64, index: u64)
        requires
            old(self).wf(),
        ensures
            final(self).wf(),
            final(self)@.entries == old(self)@.entries.remove((region_id, index)),
            final(self)@.states == old(self)@.states,
    {
        let ghost old_logs = self.logs@;
        match self.logs.take(region_id) {
            Some(t) => {
                let mut t = t;
                let ghost old_t = t@;
                let _ = t.take(index);
                self.logs.put(region_id, t);
                proof {
                    assert forall|r: u64| #[trigger] self.logs@.contains_key(r) implies self.logs@[r].wf()
                        && keyed_by_index(self.logs@[r]@) by {
                        if r != region_id {
                            assert(old_logs.contains_key(r));
                        }
                    }
                    let ne = flatten_logs(self.logs@);
                    let oe = flatten_logs(old_logs).remove((region_id, index));
                    assert forall|k: (u64, u64)| #[trigger] ne.contains_key(k) <==> oe.contains_key(k) by {
                    }
                    assert forall|k: (u64, u64)| #[trigger] ne.contains_key(k) implies ne[k] == oe[k] by {
                    }
                    assert(ne =~= oe);
                }
            },
            None => {
                assert(flatten_logs(old_logs) =~= flatten_logs(old_logs).remove((region_id, index)));
            },
        }
    }

    /// The smallest index of region `region_id`'s log, if it has any entry.
    pub fn first_log_index(&self, region_id: u64) -> (res: Option<u64>)
        requires
            self.wf(),
        ensures
            match res {
                Some(i) => self@.entries.contains_key((region_id, i)) && forall|j: u64| #[trigger]
                    self@.entries.contains_key((region_id, j)) ==> i <= j,
                None => forall|j: u64| !(#[trigger] self@.entries.contains_key((region_id, j))),
            },
    {
        match self.logs.get(region_id) {
            Some(t) => {
                let r = t.min_key();
                proof {
                    if r is None {
                        assert forall|j: u64| !(#[trigger] self@.entries.contains_key((region_id, j))) by {
                            if self@.entries.contains_key((region_id, j)) {
                                assert(t@.dom().contains(j));
                            }
                        }
                    }
                }
                r
            },
            None => None,
        }
    }
}

/// Whether region `region_id` has no entry.
pub open spec fn region_is_empty(entries: Map<(u64, u64), EntryView>, region_id: u64) -> bool {
    forall|j: u64| !(#[trigger] entries.contains_key((region_id, j)))
}

/// The smallest index of region `region_id`'s entries (meaningful when it has some).
pub open spec fn region_min_index(entries: Map<(u64, u64), EntryView>, region_id: u64) -> u64 {
    choose|m: u64|
        entries.contains_key((region_id, m)) && forall|j: u64| #[trigger]
            entries.contains_key((region_id, j)) ==> m <= j
}

/// The entries without those of region `region_id` in `[from, to)`.
pub open spec fn remove_range(
    entries: Map<(u64, u64), EntryView>,
    region_id: u64,
    from: u64,
    to: u64,
) -> Map<(u64, u64), EntryView> {
    Map::new(
        |k: (u64, u64)| entries.contains_key(k) && !(k.0 == region_id && from <= k.1 < to),
        |k: (u64, u64)| entries[k],
    )
}

/// Where a log collection of `[from, to)` starts: `from`, except that 0
/// means "the first entry of the region" (and nothing to collect if the
/// region has none).
pub open spec fn gc_start(entries: Map<(u64, u64), EntryView>, region_id: u64, from: u64) -> Option<u64> {
    if from != 0 {
        Some(from)
    } else if region_is_empty(entries, region_id) {
        None
    } else {
        Some(region_min_index(entries, region_id))
    }
}

/// Reading entries one by one from `i` (at most 8 of them): how many are
/// read before `high`, stopping once a positive total size reaches `max`.
pub open spec fn multi_get_count(log: Map<u64, EntryView>, i: int, high: int, max: int, total: int) -> nat
    decreases high - i,
{
    if i >= high || (total > 0 && total >= max) {
        0
    } else {
        1 + multi_get_count(log, i + 1, high, max, total + log[i as u64].size)
    }
}

/// Every entry that `multi_get_count` reads exists.
pub open spec fn multi_get_ok(log: Map<u64, EntryView>, i: int, high: int, max: int, total: int) -> bool
    decreases high - i,
{
    if i >= high || (total > 0 && total >= max) {
        true
    } else {
        log.contains_key(i as u64) && multi_get_ok(log, i + 1, high, max, total + log[i as u64].size)
    }
}

/// Scanning consecutive entries from `i` before `high`: how many are taken,
/// the total size reached, and whether the scan stopped because that total
/// reached `max`.
pub open spec fn scan_run(log: Map<u64, EntryView>, i: int, high: int, max: int, total: int) -> (
    nat,
    int,
    bool,
)
    decreases high - i,
{
    if i >= high || !log.contains_key(i as u64) {
        (0, total, false)
    } else {
        let t = total + log[i as u64].size;
        if t >= max {
            (1, t, true)
        } else {
            let r = scan_run(log, i + 1, high, max, t);
            (r.0 + 1, r.1, r.2)
        }
    }
}

/// The entries of `log` at `low`, `low + 1`, ..., `low + count - 1`.
pub open spec fn log_range(log: Map<u64, EntryView>, low: int, count: nat) -> Seq<EntryView> {
    Seq::new(count, |k: int| log[(low + k) as u64])
}

/// Fetching `[low, high)` does not run into a missing entry.
pub open spec fn fetch_ok(log: Map<u64, EntryView>, low: u64, high: u64, max: int) -> bool {
    high <= low || (if high - low <= RAFT_LOG_MULTI_GET_CNT {
        multi_get_ok(log, low as int, high as int, max, 0)
    } else {
        let r = scan_run(log, low as int, high as int, max, 0);
        r.2 || forall|j: u64| low + r.0 <= j < high ==> !(#[trigger] log.contains_key(j))
    })
}

/// How many entries fetching `[low, high)` yields.
pub open spec fn fetch_count(log: Map<u64, EntryView>, low: u64, high: u64, max: int) -> nat {
    if high <= low {
        0
    } else if high - low <= RAFT_LOG_MULTI_GET_CNT {
        multi_get_count(log, low as int, high as int, max, 0)
    } else {
        let r = scan_run(log, low as int, high as int, max, 0);
        if r.0 == high - low || r.1 >= max {
            r.0
        } else {
            0
        }
    }
}

/// Whether fetching `[low, high)` fails after the scan and clears the buffer.
pub open spec fn fetch_clears(log: Map<u64, EntryView>, low: u64, high: u64, max: int) -> bool {
    high > low && high - low > RAFT_LOG_MULTI_GET_CNT && {
        let r = scan_run(log, low as int, high as int, max, 0);
        !(r.0 == high - low || r.1 >= max)
    }
}

/// Up to this many entries are read one by one; more are scanned.
pub const RAFT_LOG_MULTI_GET_CNT: u64 = 8;

/// One operation recorded in a raft write batch.
pub enum RaftWriteOp {
    PutEntry { region_id: u64, entry: Entry },
    DeleteEntry { region_id: u64, index: u64 },
    PutRaftState { region_id: u64, state: RaftLocalState },
}

/// The engine value after applying `ops` in order to `v`.
pub open spec fn apply_raft_ops(v: RaftEngineView, ops: Seq<RaftWriteOp>) -> RaftEngineView
    decreases ops.len(),
{
    if ops.len() == 0 {
        v
    } else {
        let w = apply_raft_ops(v, ops.drop_last());
        match ops.last() {
            RaftWriteOp::PutEntry { region_id, entry } => RaftEngineView {
                entries: w.entries.insert((region_id, entry.index), entry@),
                states: w.states,
            },
            RaftWriteOp::DeleteEntry { region_id, index } => RaftEngineView {
                entries: w.entries.remove((region_id, index)),
                states: w.states,
            },
            RaftWriteOp::PutRaftState { region_id, state } => RaftEngineView {
                entries: w.entries,
                states: w.states.insert(region_id, state),
            },
        }
    }
}

/// A batch of writes to the raft engine.
pub struct RaftWriteBatch {
    pub ops: Vec<RaftWriteOp>,
}

impl RaftWriteBatch {
    /// An empty batch.
    pub fn new() -> (b: RaftWriteBatch)
        ensures
            b.ops@.len() == 0,
    {
        RaftWriteBatch { ops: Vec::new() }
    }

    /// The number of operations recorded.
    pub fn count(&self) -> (res: usize)
        ensures
            res == self.ops@.len(),
    {
        self.ops.len()
    }

    /// Whether no operation is recorded.
    pub fn is_empty(&self) -> (res: bool)
        ensures
            res == (self.ops@.len() == 0),
    {
        self.ops.len() == 0
    }

    /// Records the writes of `entries` for region `region_id`, in order.
    pub fn append(&mut self, region_id: u64, entries: Vec<Entry>)
        ensures
            final(self).ops@.len() == old(self).ops@.len() + entries@.len(),
            final(self).ops@.subrange(0, old(self).ops@.len() as int) == old(self).ops@,
            forall|i: int| 0 <= i < entries@.len() ==> (#[trigger] final(self).ops@[old(self).ops@.len() + i])
                == (RaftWriteOp::PutEntry { region_id, entry: entries@[i] }),
    {
        let ghost old_ops = self.ops@;
        let ghost ents = entries@;
        let mut rest = entries;
        let n = rest.len();
        let mut i: usize = 0;
        while i < n
            invariant
                n == ents.len(),
                i <= n,
                rest@ == ents.subrange(i as int, n as int),
                self.ops@.len() == old_ops.len() + i,
                self.ops@.subrange(0, old_ops.len() as int) == old_ops,
                forall|j: int| 0 <= j < i ==> (#[trigger] self.ops@[old_ops.len() + j]) == (
                RaftWriteOp::PutEntry { region_id, entry: ents[j] }),
            decreases n - i,
        {
            let e = rest.remove(0);
            let ghost before = self.ops@;
            self.ops.push(RaftWriteOp::PutEntry { region_id, entry: e });
            proof {
                assert(self.ops@.subrange(0, old_ops.len() as int) =~= before.subrange(
                    0,
                    old_ops.len() as int,
                ));
                assert forall|j: int| 0 <= j < i + 1 implies (#[trigger] self.ops@[old_ops.len() + j])
                    == (RaftWriteOp::PutEntry { region_id, entry: ents[j] }) by {
                    if j < i {
                        assert(self.ops@[old_ops.len() + j] == before[old_ops.len() + j]);
                    }
                }
            }
            i = i + 1;
            assert(rest@ =~= ents.subrange(i as int, n as int));
        }
    }

    /// Records the deletion of the entries of region `region_id` in `[from, to)`.
    pub fn cut_logs(&mut self, region_id: u64, from: u64, to: u64)
        ensures
            final(self).ops@.len() == old(self).ops@.len() + (if from < to { to - from } else { 0 }),
            final(self).ops@.subrange(0, old(self).ops@.len() as int) == old(self).ops@,
            forall|i: int| 0 <= i < (if from < to { to - from } else { 0 }) ==> (#[trigger] final(self).ops@[old(self).ops@.len() + i]) == (RaftWriteOp::DeleteEntry {
                region_id,
                index: (from + i) as u64,
            }),
    {
        let ghost old_ops = self.ops@;
        let mut index = from;
        while index < to
            invariant
                from <= index,
                from < to ==> index <= to,
                from >= to ==> index == from,
                self.ops@.len() == old_ops.len() + (index - from),
                self.ops@.subrange(0, old_ops.len() as int) == old_ops,
                forall|j: int| 0 <= j < index - from ==> (#[trigger] self.ops@[old_ops.len() + j]) == (
                RaftWriteOp::DeleteEntry { region_id, index: (from + j) as u64 }),
            decreases to - index,
        {
            let ghost before = self.ops@;
            self.ops.push(RaftWriteOp::DeleteEntry { region_id, index });
            proof {
                assert(self.ops@.subrange(0, old_ops.len() as int) =~= before.subrange(
                    0,
                    old_ops.len() as int,
                ));
                assert forall|j: int| 0 <= j < index + 1 - from implies (#[trigger] self.ops@[old_ops.len()
                    + j]) == (RaftWriteOp::DeleteEntry { region_id, index: (from + j) as u64 }) by {
                    if j < index - from {
                        assert(self.ops@[old_ops.len() + j] == before[old_ops.len() + j]);
                    }
                }
            }
            index = index + 1;
        }
    }

    /// Records the write of the raft state of region `region_id`.
    pub fn put_raft_state(&mut self, region_id: u64, state: RaftLocalState)
        ensures
            final(self).ops@ == old(self).ops@.push(RaftWriteOp::PutRaftState { region_id, state }),
    {
        self.ops.push(RaftWriteOp::PutRaftState { region_id, state });
    }
}

impl RaftEngine {
    /// Applies the operations of `batch` in order and empties it; returns how
    /// many operations were applied.
    pub fn consume(&mut self, batch: &mut RaftWriteBatch) -> (res: usize)
        requires
            old(self).wf(),
        ensures
            final(self).wf(),
            final(self)@ == apply_raft_ops(old(self)@, old(batch).ops@),
            final(batch).ops@.len() == 0,
            res == old(batch).ops@.len(),
    {
        let ghost all = batch.ops@;
        let ghost start = self@;
        let n = batch.ops.len();
        let mut ops = Vec::new();
        std::mem::swap(&mut ops, &mut batch.ops);
        let mut i: usize = 0;
        while i < n
            invariant
                n == all.len(),
                i <= n,
                ops@ == all.subrange(i as int, n as int),
                self.wf(),
                self@ == apply_raft_ops(start, all.subrange(0, i as int)),
            decreases n - i,
        {
            let op = ops.remove(0);
            proof {
                assert(all.subrange(0, i + 1).drop_last() =~= all.subrange(0, i as int));
            }
            match op {
                RaftWriteOp::PutEntry { region_id, entry } => {
                    self.put_entry(region_id, entry);
                },
                RaftWriteOp::DeleteEntry { region_id, index } => {
                    self.delete_entry(region_id, index);
                },
                RaftWriteOp::PutRaftState { region_id, state } => {
                    self.put_raft_state(region_id, state);
                },
            }
            i = i + 1;
            assert(ops@ =~= all.subrange(i as int, n as int));
        }
        assert(all.subrange(0, n as int) =~= all);
        n
    }
}

impl RaftEngine {
    /// Deletes the entries of region `region_id` in `[from, to)`, where a
    /// `from` of 0 stands for the first entry of the region. Returns the
    /// size of the range deleted.
    pub fn gc(&mut self, region_id: u64, from: u64, to: u64) -> (res: usize)
        requires
            old(self).wf(),
            from >= to || from != 0 || region_is_empty(old(self)@.entries, region_id)
                || region_min_index(old(self)@.entries, region_id) <= to,
            to - from <= usize::MAX || from >= to || from == 0,
            from == 0 && from < to && !region_is_empty(old(self)@.entries, region_id) ==> to
                - region_min_index(old(self)@.entries, region_id) <= usize::MAX,
        ensures
            final(self).wf(),
            final(self)@.states == old(self)@.states,
            from >= to ==> res == 0 && final(self)@.entries == old(self)@.entries,
            from < to ==> match gc_start(old(self)@.entries, region_id, from) {
                None => res == 0 && final(self)@.entries == old(self)@.entries,
                Some(f) => res == to - f && final(self)@.entries == remove_range(
                    old(self)@.entries,
                    region_id,
                    f,
                    to,
                ),
            },
    {
        if from >= to {
            return 0;
        }
        let mut start = from;
        if from == 0 {
            match self.first_log_index(region_id) {
                Some(m) => {
                    proof {
                        let c = region_min_index(self@.entries, region_id);
                        assert(self@.entries.contains_key((region_id, c)) && forall|j: u64| #[trigger]
                            self@.entries.contains_key((region_id, j)) ==> c <= j);
                        assert(m <= c && c <= m);
                    }
                    start = m;
                },
                None => {
                    return 0;
                },
            }
        }
        let ghost orig = self@.entries;
        let mut idx = start;
        while idx < to
            invariant
                self.wf(),
                start <= idx <= to,
                self@.states == old(self)@.states,
                self@.entries == remove_range(orig, region_id, start, idx),
            decreases to - idx,
        {
            self.delete_entry(region_id, idx);
            assert(self@.entries =~= remove_range(orig, region_id, start, (idx + 1) as u64));
            idx = idx + 1;
        }
        (to - start) as usize
    }

    /// Fetches the entries `[low, high)` of region `region_id` into `buf`, reading
    /// them one by one when there are at most `RAFT_LOG_MULTI_GET_CNT` and
    /// scanning otherwise; stops once the total size of what was read reaches
    /// `max_size`. A scan that does not reach `high` nor the size limit clears
    /// `buf`. Returns how many entries were added.
    pub fn fetch_entries_to(
        &self,
        region_id: u64,
        low: u64,
        high: u64,
        max_size: Option<usize>,
        buf: &mut Vec<Entry>,
    ) -> (res: usize)
        requires
            self.wf(),
            high <= low || high - low <= usize::MAX,
            fetch_ok(
                region_log(self@.entries, region_id),
                low,
                high,
                match max_size {
                    Some(m) => m as int,
                    None => usize::MAX as int,
                },
            ),
        ensures
            ({
                let log = region_log(self@.entries, region_id);
                let max = match max_size {
                    Some(m) => m as int,
                    None => usize::MAX as int,
                };
                &&& res == fetch_count(log, low, high, max)
                &&& if fetch_clears(log, low, high, max) {
                    final(buf)@.len() == 0
                } else {
                    entries_view(final(buf)@) == entries_view(old(buf)@) + log_range(
                        log,
                        low as int,
                        res as nat,
                    )
                }
            }),
    {
        let ghost log = region_log(self@.entries, region_id);
        let max: u128 = match max_size {
            Some(m) => m as u128,
            None => usize::MAX as u128,
        };
        let ghost maxi = max as int;
        if high <= low {
            return 0;
        }
        let ghost buf0 = entries_view(buf@);
        if high - low <= RAFT_LOG_MULTI_GET_CNT {
            let mut total: u128 = 0;
            let mut count: usize = 0;
            let mut i: u64 = low;
            while i < high && !(total > 0 && total >= max)
                invariant
                    low <= i <= high,
                    high - low <= RAFT_LOG_MULTI_GET_CNT,
                    count == i - low,
                    total < 0x1_0000_0000_0000_0000 * (count + 1),
                    log == region_log(self@.entries, region_id),
                    self.wf(),
                    maxi == max as int,
                    multi_get_count(log, low as int, high as int, maxi, 0) == count + multi_get_count(
                        log,
                        i as int,
                        high as int,
                        maxi,
                        total as int,
                    ),
                    multi_get_ok(log, i as int, high as int, maxi, total as int),
                    entries_view(buf@) == buf0 + log_range(log, low as int, count as nat),
                decreases high - i,
            {
                let e = self.get_entry(region_id, i);
                let e = match e {
                    Some(e) => e,
                    None => {
                        assert(false);
                        return 0;
                    },
                };
                let ghost before = buf@;
                total = total + e.size as u128;
                buf.push(e);
                proof {
                    assert(entries_view(buf@) =~= entries_view(before).push(log[i]));
                    assert(log_range(log, low as int, (count + 1) as nat) =~= log_range(
                        log,
                        low as int,
                        count as nat,
                    ).push(log[i]));
                }
                count = count + 1;
                i = i + 1;
            }
            return count;
        }
        let mut total: u128 = 0;
        let mut count: usize = 0;
        let mut i: u64 = low;
        let mut stopped = false;
        while i < high
            invariant_except_break
                !stopped,
                total < max || total == 0,
                scan_run(log, low as int, high as int, maxi, 0) == ({
                    let r = scan_run(log, i as int, high as int, maxi, total as int);
                    ((r.0 + count) as nat, r.1, r.2)
                }),
            invariant
                low <= i <= high,
                count == i - low,
                high - low <= usize::MAX,
                max <= usize::MAX,
                total < 0x1_0000_0000_0000_0000 * 2,
                log == region_log(self@.entries, region_id),
                self.wf(),
                maxi == max as int,
                entries_view(buf@) == buf0 + log_range(log, low as int, count as nat),
            ensures
                stopped ==> scan_run(log, low as int, high as int, maxi, 0) == (count as nat,
                total as int, true),
                !stopped ==> scan_run(log, low as int, high as int, maxi, 0) == (count as nat,
                total as int, false),
            decreases high - i,
        {
            let e = match self.get_entry(region_id, i) {
                Some(e) => e,
                None => {
                    break;
                },
            };
            let ghost before = buf@;
            total = total + e.size as u128;
            buf.push(e);
            proof {
                assert(entries_view(buf@) =~= entries_view(before).push(log[i]));
                assert(log_range(log, low as int, (count + 1) as nat) =~= log_range(
                    log,
                    low as int,
                    count as nat,
                ).push(log[i]));
            }
            count = count + 1;
            i = i + 1;
            if total >= max {
                stopped = true;
                break;
            }
        }
        if count as u64 == high - low || total >= max {
            return count;
        }
        buf.clear();
        0
    }
}

/// The identity of a store.
#[derive(Clone, Copy, Debug, PartialEq, Eq, Structural)]
pub struct StoreIdent {
    pub cluster_id: u64,
    pub store_id: u64,
}

/// The mathematical value of a kv engine.
pub struct KvEngineView {
    pub apply_states: Map<u64, RaftApplyState>,
    pub region_states: Map<u64, RegionView>,
    pub store_ident: Option<StoreIdent>,
}

/// The kv engine of a store.
pub struct KvEngine {
    apply_states: KeyedTable<RaftApplyState>,
    region_states: KeyedTable<Region>,
    store_ident: Option<StoreIdent>,
}

impl KvEngine {
    pub closed spec fn wf(&self) -> bool {
        self.apply_states.wf() && self.region_states.wf()
    }

    pub closed spec fn view(&self) -> KvEngineView {
        KvEngineView {
            apply_states: self.apply_states@,
            region_states: self.region_states@.map_values(|r: Region| r@),
            store_ident: self.store_ident,
        }
    }

    /// An empty engine.
    pub fn new() -> (e: KvEngine)
        ensures
            e.wf(),
            e@.apply_states == Map::<u64, RaftApplyState>::empty(),
            e@.region_states == Map::<u64, RegionView>::empty(),
            e@.store_ident is None,
    {
        let e = KvEngine {
            apply_states: KeyedTable::new(),
            region_states: KeyedTable::new(),
            store_ident: None,
        };
        assert(e@.region_states =~= Map::<u64, RegionView>::empty());
        e
    }

    /// The apply state of region `region_id`, if any.
    pub fn get_apply_state(&self, region_id: u64) -> (res: Option<RaftApplyState>)
        requires
            self.wf(),
        ensures
            res == (if self@.apply_states.contains_key(region_id) {
                Some(self@.apply_states[region_id])
            } else {
                None
            }),
    {
        match self.apply_states.get(region_id) {
            Some(s) => Some(*s),
            None => None,
        }
    }

    /// The region state of region `region_id`, if any.
    pub fn get_region_state(&self, region_id: u64) -> (res: Option<Region>)
        requires
            self.wf(),
        ensures
            match res {
                Some(r) => self@.region_states.contains_key(region_id) && r@
                    == self@.region_states[region_id],
                None => !self@.region_states.contains_key(region_id),
            },
    {
        match self.region_states.get(region_id) {
            Some(r) => Some(r.copy()),
            None => None,
        }
    }

    /// The identity of the store, if it has been bootstrapped.
    pub fn get_store_ident(&self) -> (res: Option<StoreIdent>)
        ensures
            res == self@.store_ident,
    {
        self.store_ident
    }

    /// Records the identity of the store.
    pub fn put_store_ident(&mut self, ident: StoreIdent)
        ensures
            final(self).wf() == old(self).wf(),
            final(self)@.store_ident == Some(ident),
            final(self)@.apply_states == old(self)@.apply_states,
            final(self)@.region_states == old(self)@.region_states,
    {
        self.store_ident = Some(ident);
    }

    /// Stores the apply state of region `region_id`.
    pub fn put_apply_state(&mut self, region_id: u64, state: RaftApplyState)
        requires
            old(self).wf(),
        ensures
            final(self).wf(),
            final(self)@.apply_states == old(self)@.apply_states.insert(region_id, state),
            final(self)@.region_states == old(self)@.region_states,
            final(self)@.store_ident == old(self)@.store_ident,
    {
        self.apply_states.put(region_id, state);
    }

    /// Stores the region state of region `region_id`.
    pub fn put_region_state(&mut self, region_id: u64, region: Region)
        requires
            old(self).wf(),
        ensures
            final(self).wf(),
            final(self)@.apply_states == old(self)@.apply_states,
            final(self)@.region_states == old(self)@.region_states.insert(region_id, region@),
            final(self)@.store_ident == old(self)@.store_ident,
    {
        let ghost rv = region@;
        self.region_states.put(region_id, region);
        assert(self@.region_states =~= old(self)@.region_states.insert(region_id, rv));
    }
}

/// One operation recorded in a kv write batch.
pub enum KvWriteOp {
    PutApplyState { region_id: u64, state: RaftApplyState },
    PutRegionState { region_id: u64, region: Region },
}

/// The kv engine value after applying `ops` in order to `v`.
pub open spec fn apply_kv_ops(v: KvEngineView, ops: Seq<KvWriteOp>) -> KvEngineView
    decreases ops.len(),
{
    if ops.len() == 0 {
        v
    } else {
        let w = apply_kv_ops(v, ops.drop_last());
        match ops.last() {
            KvWriteOp::PutApplyState { region_id, state } => KvEngineView {
                apply_states: w.apply_states.insert(region_id, state),
                ..w
            },
            KvWriteOp::PutRegionState { region_id, region } => KvEngineView {
                region_states: w.region_states.insert(region_id, region@),
                ..w
            },
        }
    }
}

/// A batch of writes to the kv engine.
pub struct KvWriteBatch {
    pub ops: Vec<KvWriteOp>,
}

impl KvWriteBatch {
    /// An empty batch.
    pub fn new() -> (b: KvWriteBatch)
        ensures
            b.ops@.len() == 0,
    {
        KvWriteBatch { ops: Vec::new() }
    }

    /// Whether no operation is recorded.
    pub fn is_empty(&self) -> (res: bool)
        ensures
            res == (self.ops@.len() == 0),
    {
        self.ops.len() == 0
    }

    /// Records the write of the apply state of region `region_id`.
    pub fn put_apply_state(&mut self, region_id: u64, state: RaftApplyState)
        ensures
            final(self).ops@ == old(self).ops@.push(KvWriteOp::PutApplyState { region_id, state }),
    {
        self.ops.push(KvWriteOp::PutApplyState { region_id, state });
    }

    /// Records the write of the region state of region `region_id`.
    pub fn put_region_state(&mut self, region_id: u64, region: Region)
        ensures
            final(self).ops@ == old(self).ops@.push(KvWriteOp::PutRegionState { region_id, region }),
    {
        self.ops.push(KvWriteOp::PutRegionState { region_id, region });
    }
}

impl KvEngine {
    /// Applies the operations of `batch` in order and empties it.
    pub fn write(&mut self, batch: &mut KvWriteBatch)
        requires
            old(self).wf(),
        ensures
            final(self).wf(),
            final(self)@ == apply_kv_ops(old(self)@, old(batch).ops@),
            final(batch).ops@.len() == 0,
    {
        let ghost all = batch.ops@;
        let ghost start = self@;
        let n = batch.ops.len();
        let mut ops = Vec::new();
        std::mem::swap(&mut ops, &mut batch.ops);
        let mut i: usize = 0;
        while i < n
            invariant
                n == all.len(),
                i <= n,
                ops@ == all.subrange(i as int, n as int),
                self.wf(),
                self@ == apply_kv_ops(start, all.subrange(0, i as int)),
            decreases n - i,
        {
            let op = ops.remove(0);
            proof {
                assert(all.subrange(0, i + 1).drop_last() =~= all.subrange(0, i as int));
            }
            match op {
                KvWriteOp::PutApplyState { region_id, state } => {
                    self.put_apply_state(region_id, state);
                },
                KvWriteOp::PutRegionState { region_id, region } => {
                    self.put_region_state(region_id, region);
                },
            }
            i = i + 1;
            assert(ops@ =~= all.subrange(i as int, n as int));
        }
        assert(all.subrange(0, n as int) =~= all);
    }
}

/// Both engines of a store.
pub struct Engines {
    pub kv: KvEngine,
    pub raft: RaftEngine,
}

impl Engines {
    pub open spec fn wf(&self) -> bool {
        self.kv.wf() && self.raft.wf()
    }

    /// Two empty engines.
    pub fn new() -> (e: Engines)
        ensures
            e.wf(),
            e.raft@.entries == Map::<(u64, u64), EntryView>::empty(),
            e.raft@.states == Map::<u64, RaftLocalState>::empty(),
            e.kv@.apply_states == Map::<u64, RaftApplyState>::empty(),
            e.kv@.region_states == Map::<u64, RegionView>::empty(),
            e.kv@.store_ident is None,
    {
        Engines { kv: KvEngine::new(), raft: RaftEngine::new() }
    }
}

/// The key bounds of an iteration.
pub struct IterOptions {
    lower_bound: Option<KeyBuilder>,
    upper_bound: Option<KeyBuilder>,
}

/// The key a bound stands for, if there is a bound.
pub open spec fn bound_key(b: Option<KeyBuilder>) -> Option<Seq<u8>> {
    match b {
        Some(k) => Some(k.key()),
        None => None,
    }
}

/// Whether a bound, if there is one, is well formed.
pub open spec fn bound_wf(b: Option<KeyBuilder>) -> bool {
    match b {
        Some(k) => k.wf(),
        None => true,
    }
}

impl IterOptions {
    /// The lower bound.
    pub closed spec fn lower(&self) -> Option<KeyBuilder> {
        self.lower_bound
    }

    /// The upper bound.
    pub closed spec fn upper(&self) -> Option<KeyBuilder> {
        self.upper_bound
    }

    /// Options with the given bounds.
    pub fn new(lower_bound: Option<KeyBuilder>, upper_bound: Option<KeyBuilder>) -> (res: IterOptions)
        ensures
            res.lower() == lower_bound,
            res.upper() == upper_bound,
    {
        IterOptions { lower_bound, upper_bound }
    }

    /// The bounds as plain keys.
    pub fn build_bounds(self) -> (res: (Option<Vec<u8>>, Option<Vec<u8>>))
        requires
            bound_wf(self.lower()),
            bound_wf(self.upper()),
        ensures
            match res.0 {
                Some(v) => bound_key(self.lower()) == Some(v@),
                None => self.lower() is None,
            },
            match res.1 {
                Some(v) => bound_key(self.upper()) == Some(v@),
                None => self.upper() is None,
            },
    {
        let lower = match self.lower_bound {
            Some(k) => Some(k.build()),
            None => None,
        };
        let upper = match self.upper_bound {
            Some(k) => Some(k.build()),
            None => None,
        };
        (lower, upper)
    }
}

impl Default for IterOptions {
    fn default() -> (res: IterOptions)
        ensures
            res.lower() is None,
            res.upper() is None,
    {
        IterOptions { lower_bound: None, upper_bound: None }
    }
}

} // verus!
