//! The storage of one region peer: its raft state and apply state, kept in
//! memory and in the engines, and the reads of its log that raft makes.
use vstd::prelude::*;
use crate::engine::{
    Engines, KvWriteBatch, KvWriteOp, RaftEngineView, RaftWriteBatch, RaftWriteOp,
    fetch_clears, fetch_count, fetch_ok, log_range, region_log,
};
use crate::entry::{Entry, EntryView, entries_view};
use crate::metapb::{ConfState, PeerRole, Region, RegionView, conf_state_from_region, is_region_initialized};
use crate::raft_state::{
    HardState, RaftApplyState, RaftLocalState, RaftTruncatedState, RAFT_INIT_LOG_INDEX, RAFT_INIT_LOG_TERM,
    initial_apply_state, initial_raft_state,
};

verus! {

/// The commit index after `validate_states`: the larger of the raft state's
/// and the apply state's.
pub open spec fn validated_commit(raft_state: RaftLocalState, apply_state: RaftApplyState) -> u64 {
    if raft_state.hard_state.commit < apply_state.commit_index {
        apply_state.commit_index
    } else {
        raft_state.hard_state.commit
    }
}

/// The raft state and apply state of a region are consistent with each
/// other and with the log: the entry at a newer recorded commit index exists
/// with the recorded term, and applied index <= commit index <= last index,
/// and the raft term is not behind the commit term.
pub open spec fn states_valid(
    log: Map<u64, EntryView>,
    raft_state: RaftLocalState,
    apply_state: RaftApplyState,
) -> bool {
    let c = validated_commit(raft_state, apply_state);
    &&& raft_state.hard_state.commit < apply_state.commit_index ==> log.contains_key(
        apply_state.commit_index,
    ) && log[apply_state.commit_index].term == apply_state.commit_term
    &&& apply_state.applied_index <= c
    &&& c <= raft_state.last_index
    &&& raft_state.hard_state.term >= apply_state.commit_term
}

/// Checks that the raft state and apply state of region `region_id` are
/// consistent, and moves the raft commit index forward to the apply state's
/// recorded one when that is newer.
pub fn validate_states(
    region_id: u64,
    engines: &Engines,
    raft_state: &mut RaftLocalState,
    apply_state: &RaftApplyState,
)
    requires
        engines.wf(),
        states_valid(region_log(engines.raft@.entries, region_id), *old(raft_state), *apply_state),
    ensures
        *final(raft_state) == (RaftLocalState {
            hard_state: HardState {
                commit: validated_commit(*old(raft_state), *apply_state),
                ..old(raft_state).hard_state
            },
            ..*old(raft_state)
        }),
{
    let mut commit_index = raft_state.hard_state.commit;
    let recorded_commit_index = apply_state.commit_index;
    if commit_index < recorded_commit_index {
        let entry = engines.raft.get_entry(region_id, recorded_commit_index);
        match entry {
            Some(e) => {
                if e.term != apply_state.commit_term {
                    assert(false);
                }
            },
            None => {
                assert(false);
            },
        }
        commit_index = recorded_commit_index;
    }
    raft_state.hard_state.commit = commit_index;
}

/// The term of the last log entry, as `init_last_term` finds it.
pub open spec fn last_term_of(
    log: Map<u64, EntryView>,
    raft_state: RaftLocalState,
    apply_state: RaftApplyState,
) -> u64 {
    let last = raft_state.last_index;
    if last == 0 {
        0
    } else if last == RAFT_INIT_LOG_INDEX {
        RAFT_INIT_LOG_TERM
    } else if last == apply_state.truncated_state.index {
        apply_state.truncated_state.term
    } else {
        log[last].term
    }
}

/// `init_last_term` finds the last entry where it must read it.
pub open spec fn last_term_ok(
    log: Map<u64, EntryView>,
    raft_state: RaftLocalState,
    apply_state: RaftApplyState,
) -> bool {
    let last = raft_state.last_index;
    last == 0 || last == RAFT_INIT_LOG_INDEX || last == apply_state.truncated_state.index || (last
        > RAFT_INIT_LOG_INDEX && log.contains_key(last))
}

/// The term of the last entry of the region's log.
pub fn init_last_term(
    engines: &Engines,
    region: &Region,
    raft_state: &RaftLocalState,
    apply_state: &RaftApplyState,
) -> (res: u64)
    requires
        engines.wf(),
        last_term_ok(region_log(engines.raft@.entries, region.id), *raft_state, *apply_state),
    ensures
        res == last_term_of(region_log(engines.raft@.entries, region.id), *raft_state, *apply_state),
{
    let last_idx = raft_state.last_index;
    if last_idx == 0 {
        return 0;
    } else if last_idx == RAFT_INIT_LOG_INDEX {
        return RAFT_INIT_LOG_TERM;
    } else if last_idx == apply_state.truncated_state.index {
        return apply_state.truncated_state.term;
    }
    match engines.raft.get_entry(region.id, last_idx) {
        Some(entry) => entry.term,
        None => {
            assert(false);
            0
        },
    }
}

/// The term of the entry at the applied index, as `init_applied_index_term` finds it.
pub open spec fn applied_index_term_of(log: Map<u64, EntryView>, apply_state: RaftApplyState) -> u64 {
    if apply_state.applied_index == RAFT_INIT_LOG_INDEX {
        RAFT_INIT_LOG_TERM
    } else if apply_state.applied_index == apply_state.truncated_state.index {
        apply_state.truncated_state.term
    } else {
        log[apply_state.applied_index].term
    }
}

/// `init_applied_index_term` finds the applied entry where it must read it.
pub open spec fn applied_index_term_ok(log: Map<u64, EntryView>, apply_state: RaftApplyState) -> bool {
    apply_state.applied_index == RAFT_INIT_LOG_INDEX || apply_state.applied_index
        == apply_state.truncated_state.index || log.contains_key(apply_state.applied_index)
}

/// The term of the entry at the applied index.
pub fn init_applied_index_term(engines: &Engines, region: &Region, apply_state: &RaftApplyState) -> (res:
    u64)
    requires
        engines.wf(),
        applied_index_term_ok(region_log(engines.raft@.entries, region.id), *apply_state),
    ensures
        res == applied_index_term_of(region_log(engines.raft@.entries, region.id), *apply_state),
{
    if apply_state.applied_index == RAFT_INIT_LOG_INDEX {
        return RAFT_INIT_LOG_TERM;
    }
    if apply_state.applied_index == apply_state.truncated_state.index {
        return apply_state.truncated_state.term;
    }
    match engines.raft.get_entry(region.id, apply_state.applied_index) {
        Some(entry) => entry.term,
        None => {
            assert(false);
            0
        },
    }
}

/// The raft state of the region, which must have been written.
pub fn init_raft_state(engines: &Engines, region: &Region) -> (res: RaftLocalState)
    requires
        engines.wf(),
        engines.raft@.states.contains_key(region.id),
    ensures
        res == engines.raft@.states[region.id],
{
    match engines.raft.get_raft_state(region.id) {
        Some(s) => s,
        None => {
            assert(false);
            initial_raft_state()
        },
    }
}

/// The apply state of the region, which must have been written.
pub fn init_apply_state(engines: &Engines, region: &Region) -> (res: RaftApplyState)
    requires
        engines.wf(),
        engines.kv@.apply_states.contains_key(region.id),
    ensures
        res == engines.kv@.apply_states[region.id],
{
    match engines.kv.get_apply_state(region.id) {
        Some(s) => s,
        None => {
            assert(false);
            initial_apply_state()
        },
    }
}

/// Records the raft state a region is bootstrapped with.
pub fn write_initial_raft_state(raft_wb: &mut RaftWriteBatch, region_id: u64)
    ensures
        final(raft_wb).ops@ == old(raft_wb).ops@.push(
            RaftWriteOp::PutRaftState {
                region_id,
                state: RaftLocalState {
                    hard_state: HardState { term: RAFT_INIT_LOG_TERM, vote: 0, commit: RAFT_INIT_LOG_INDEX },
                    last_index: RAFT_INIT_LOG_INDEX,
                },
            },
        ),
{
    raft_wb.put_raft_state(region_id, initial_raft_state());
}

/// Records the apply state a region is bootstrapped with.
pub fn write_initial_apply_state(kv_wb: &mut KvWriteBatch, region_id: u64)
    ensures
        final(kv_wb).ops@ == old(kv_wb).ops@.push(
            KvWriteOp::PutApplyState {
                region_id,
                state: RaftApplyState {
                    applied_index: RAFT_INIT_LOG_INDEX,
                    commit_index: 0,
                    commit_term: 0,
                    truncated_state: RaftTruncatedState {
                        index: RAFT_INIT_LOG_INDEX,
                        term: RAFT_INIT_LOG_TERM,
                    },
                },
            },
        ),
{
    kv_wb.put_apply_state(region_id, initial_apply_state());
}

} // verus!

verus! {

/// The storage of one region peer.
pub struct PeerStorage {
    pub engines: Engines,
    pub peer_id: u64,
    pub region: Region,
    pub raft_state: RaftLocalState,
    pub apply_state: RaftApplyState,
    pub applied_index_term: u64,
    pub last_term: u64,
    pub tag: String,
}

/// What raft needs to start from: its hard state and configuration.
pub struct RaftState {
    pub hard_state: HardState,
    pub conf_state: ConfState,
}

/// The states stored for region `region_id` let a peer storage start on it:
/// both exist and are consistent with each other and with the log.
pub open spec fn storage_can_start(raft: RaftEngineView, apply_states: Map<u64, RaftApplyState>, region_id: u64) -> bool {
    &&& raft.states.contains_key(region_id)
    &&& apply_states.contains_key(region_id)
    &&& {
        let log = region_log(raft.entries, region_id);
        let rs = raft.states[region_id];
        let aps = apply_states[region_id];
        let validated = RaftLocalState {
            hard_state: HardState { commit: validated_commit(rs, aps), ..rs.hard_state },
            ..rs
        };
        &&& states_valid(log, rs, aps)
        &&& last_term_ok(log, validated, aps)
        &&& applied_index_term_ok(log, aps)
    }
}

impl PeerStorage {
    pub open spec fn wf(&self) -> bool {
        self.engines.wf()
    }

    /// The log of this peer's region.
    pub open spec fn log(&self) -> Map<u64, EntryView> {
        region_log(self.engines.raft@.entries, self.region.id)
    }

    /// Loads the storage of `peer_id` on `region` from the engines, after
    /// checking and repairing the consistency of its states.
    pub fn new(engines: Engines, region: &Region, peer_id: u64, tag: String) -> (ps: PeerStorage)
        requires
            engines.wf(),
            storage_can_start(engines.raft@, engines.kv@.apply_states, region.id),
        ensures
            ps.wf(),
            ps.engines == engines,
            ps.peer_id == peer_id,
            ps.region@ == region@,
            ps.tag == tag,
            ({
                let log = region_log(engines.raft@.entries, region.id);
                let rs = engines.raft@.states[region.id];
                let aps = engines.kv@.apply_states[region.id];
                let validated = RaftLocalState {
                    hard_state: HardState { commit: validated_commit(rs, aps), ..rs.hard_state },
                    ..rs
                };
                &&& ps.raft_state == validated
                &&& ps.apply_state == aps
                &&& ps.last_term == last_term_of(log, validated, aps)
                &&& ps.applied_index_term == applied_index_term_of(log, aps)
            }),
    {
        let mut raft_state = init_raft_state(&engines, region);
        let apply_state = init_apply_state(&engines, region);
        validate_states(region.id, &engines, &mut raft_state, &apply_state);
        let last_term = init_last_term(&engines, region, &raft_state, &apply_state);
        let applied_index_term = init_applied_index_term(&engines, region, &apply_state);
        PeerStorage {
            engines,
            peer_id,
            region: region.copy(),
            raft_state,
            apply_state,
            applied_index_term,
            last_term,
            tag,
        }
    }

    /// Whether the region has peers.
    pub fn is_initialized(&self) -> (res: bool)
        ensures
            res == (self.region.peers@.len() > 0),
    {
        is_region_initialized(&self.region)
    }

    /// The range `[low, high)` can be read: it is ordered, after the
    /// truncated index and at most one past the last index.
    pub open spec fn range_ok(&self, low: u64, high: u64) -> bool {
        low <= high && low > self.apply_state.truncated_state.index && high <= self.raft_state.last_index
            + 1
    }

    /// Checks that `[low, high)` can be read (see `range_ok`).
    pub fn check_range(&self, low: u64, high: u64)
        requires
            self.range_ok(low, high),
    {
    }

    /// The state raft starts from: the hard state, and the configuration of
    /// the region unless the hard state is the default one.
    pub fn initial_state(&self) -> (res: RaftState)
        requires
            self.raft_state.hard_state != HardState::spec_default() ==> forall|i: int|
                0 <= i < self.region.peers@.len() ==> (#[trigger] self.region.peers@[i]).role
                    == PeerRole::Voter,
        ensures
            res.hard_state == self.raft_state.hard_state,
            self.raft_state.hard_state == HardState::spec_default() ==> res.conf_state.voters@.len() == 0,
            self.raft_state.hard_state != HardState::spec_default() ==> res.conf_state.voters@
                == crate::metapb::peer_ids(self.region.peers@),
    {
        let hard_state = self.raft_state.hard_state;
        if hard_state == (HardState { term: 0, vote: 0, commit: 0 }) {
            return RaftState { hard_state, conf_state: ConfState { voters: Vec::new() } };
        }
        RaftState { hard_state, conf_state: conf_state_from_region(&self.region) }
    }

    /// The entries `[low, high)` of the log, up to a total size of `max_size`.
    pub fn entries(&self, low: u64, high: u64, max_size: u64) -> (res: Vec<Entry>)
        requires
            self.wf(),
            self.range_ok(low, high),
            high - low <= usize::MAX,
            fetch_ok(self.log(), low, high, (max_size as usize) as int),
        ensures
            entries_view(res@) == log_range(
                self.log(),
                low as int,
                fetch_count(self.log(), low, high, (max_size as usize) as int),
            ),
    {
        self.check_range(low, high);
        let mut ents: Vec<Entry> = Vec::new();
        if low == high {
            assert(entries_view(ents@) =~= log_range(self.log(), low as int, 0));
            return ents;
        }
        let region_id = self.region.id;
        self.engines.raft.fetch_entries_to(region_id, low, high, Some(max_size as usize), &mut ents);
        proof {
            let c = fetch_count(self.log(), low, high, (max_size as usize) as int);
            if fetch_clears(self.log(), low, high, (max_size as usize) as int) {
                assert(c == 0);
                assert(entries_view(ents@) =~= log_range(self.log(), low as int, 0));
            } else {
                assert(entries_view(Seq::<Entry>::empty()) =~= Seq::<EntryView>::empty());
                assert(entries_view(ents@) =~= log_range(self.log(), low as int, c));
            }
        }
        ents
    }

    /// The term of the entry at `idx`.
    pub open spec fn term_of(&self, idx: u64) -> u64 {
        if idx == self.apply_state.truncated_state.index {
            self.apply_state.truncated_state.term
        } else if self.apply_state.truncated_state.term == self.last_term || idx
            == self.raft_state.last_index {
            self.last_term
        } else {
            self.log()[idx].term
        }
    }

    /// The term of the entry at `idx`: known without a read at the truncated
    /// index, at the last index, and when every entry after the truncated one
    /// has the last term; read from the log otherwise.
    pub fn term(&self, idx: u64) -> (res: u64)
        requires
            self.wf(),
            idx == self.apply_state.truncated_state.index || (idx < u64::MAX && self.range_ok(
                idx,
                (idx + 1) as u64,
            ) && (self.apply_state.truncated_state.term == self.last_term || idx
                == self.raft_state.last_index || self.log().contains_key(idx))),
        ensures
            res == self.term_of(idx),
    {
        if idx == self.apply_state.truncated_state.index {
            return self.apply_state.truncated_state.term;
        }
        self.check_range(idx, idx + 1);
        if self.apply_state.truncated_state.term == self.last_term || idx == self.raft_state.last_index {
            return self.last_term;
        }
        proof {
            reveal_with_fuel(crate::engine::multi_get_ok, 2);
            reveal_with_fuel(crate::engine::multi_get_count, 2);
        }
        let entries = self.entries(idx, idx + 1, u64::MAX);
        proof {
            assert(entries_view(entries@).len() == 1);
            assert(entries_view(entries@)[0] == self.log()[idx]);
        }
        entries[0].term
    }

    /// The first index still in the log.
    pub fn first_index(&self) -> (res: u64)
        requires
            self.apply_state.truncated_state.index < u64::MAX,
        ensures
            res == self.apply_state.truncated_state.index + 1,
    {
        crate::raft_state::first_index(&self.apply_state)
    }

    /// The last index of the log.
    pub fn last_index(&self) -> (res: u64)
        ensures
            res == self.raft_state.last_index,
    {
        self.raft_state.last_index
    }

    /// The term of the last entry.
    pub fn last_term(&self) -> (res: u64)
        ensures
            res == self.last_term,
    {
        self.last_term
    }

    /// The applied index.
    pub fn applied_index(&self) -> (res: u64)
        ensures
            res == self.apply_state.applied_index,
    {
        self.apply_state.applied_index
    }

    /// Replaces the apply state.
    pub fn set_applied_state(&mut self, apply_state: RaftApplyState)
        ensures
            *final(self) == (PeerStorage { apply_state, ..*old(self) }),
    {
        self.apply_state = apply_state;
    }

    /// Replaces the term of the applied entry.
    pub fn set_applied_term(&mut self, applied_index_term: u64)
        ensures
            *final(self) == (PeerStorage { applied_index_term, ..*old(self) }),
    {
        self.applied_index_term = applied_index_term;
    }

    /// The term of the applied entry.
    pub fn applied_index_term(&self) -> (res: u64)
        ensures
            res == self.applied_index_term,
    {
        self.applied_index_term
    }

    /// The commit index of the hard state.
    pub fn commit_index(&self) -> (res: u64)
        ensures
            res == self.raft_state.hard_state.commit,
    {
        self.raft_state.hard_state.commit
    }

    /// Moves the commit index forward to `commit`.
    pub fn set_commit_index(&mut self, commit: u64)
        requires
            commit >= old(self).raft_state.hard_state.commit,
        ensures
            *final(self) == (PeerStorage {
                raft_state: RaftLocalState {
                    hard_state: HardState { commit, ..old(self).raft_state.hard_state },
                    ..old(self).raft_state
                },
                ..*old(self)
            }),
    {
        self.raft_state.hard_state.commit = commit;
    }

    /// The hard state.
    pub fn hard_state(&self) -> (res: HardState)
        ensures
            res == self.raft_state.hard_state,
    {
        self.raft_state.hard_state
    }

    /// The truncated index.
    pub fn truncated_index(&self) -> (res: u64)
        ensures
            res == self.apply_state.truncated_state.index,
    {
        self.apply_state.truncated_state.index
    }

    /// The term of the truncated index.
    pub fn truncated_term(&self) -> (res: u64)
        ensures
            res == self.apply_state.truncated_state.term,
    {
        self.apply_state.truncated_state.term
    }

    /// Replaces the region.
    pub fn set_region(&mut self, region: Region)
        ensures
            *final(self) == (PeerStorage { region, ..*old(self) }),
    {
        self.region = region;
    }

    /// The id of the region.
    pub fn get_region_id(&self) -> (res: u64)
        ensures
            res == self.region.id,
    {
        self.region.id
    }
}

/// The states that handling a ready changes, to be stored in memory once
/// they are written to the engines.
pub struct InvokeContext {
    pub region_id: u64,
    pub raft_state: RaftLocalState,
    pub apply_state: RaftApplyState,
    pub last_term: u64,
    pub has_new_entries: bool,
}

/// The writes of new entries: one put per entry, in order.
pub open spec fn entry_writes(region_id: u64, entries: Seq<Entry>) -> Seq<RaftWriteOp> {
    Seq::new(entries.len(), |i: int| RaftWriteOp::PutEntry { region_id, entry: entries[i] })
}

/// The deletes of `count` entries from index `from` on.
pub open spec fn cut_writes(region_id: u64, from: u64, count: nat) -> Seq<RaftWriteOp> {
    Seq::new(count, |i: int| RaftWriteOp::DeleteEntry { region_id, index: (from + i) as u64 })
}

/// The raft state a round leaves: the last index of its entries, and its
/// hard state once the log is not empty.
pub open spec fn ready_raft_state(ps: PeerStorage, entries: Seq<Entry>, hs: Option<HardState>) -> RaftLocalState {
    let appended_last = if entries.len() > 0 { entries.last().index } else { ps.raft_state.last_index };
    let hard = match hs {
        Some(h) if appended_last > 0 => h,
        _ => ps.raft_state.hard_state,
    };
    RaftLocalState { hard_state: hard, last_index: appended_last }
}

/// The states a round of raft leads to once its writes are stored.
pub open spec fn ready_context(ps: PeerStorage, entries: Seq<Entry>, hs: Option<HardState>) -> InvokeContext {
    InvokeContext {
        region_id: ps.region.id,
        raft_state: ready_raft_state(ps, entries, hs),
        apply_state: ps.apply_state,
        last_term: if entries.len() > 0 { entries.last().term } else { ps.last_term },
        has_new_entries: entries.len() > 0,
    }
}

/// The storage once the states of `ctx` are taken in.
pub open spec fn post_ready_state(ps: PeerStorage, ctx: InvokeContext) -> PeerStorage {
    PeerStorage { raft_state: ctx.raft_state, apply_state: ctx.apply_state, last_term: ctx.last_term, ..ps }
}

/// The writes a round of raft makes: its entries, the deletes of the old
/// entries past its last one, then the raft state if it changed.
pub open spec fn ready_writes(ps: PeerStorage, entries: Seq<Entry>, hs: Option<HardState>) -> Seq<RaftWriteOp> {
    let region_id = ps.region.id;
    let prev = ps.raft_state.last_index;
    let log_ops = if entries.len() > 0 {
        let last = entries.last().index;
        let cut: nat = if last < prev { (prev - last) as nat } else { 0 };
        entry_writes(region_id, entries) + cut_writes(region_id, (last + 1) as u64, cut)
    } else {
        Seq::empty()
    };
    let new_state = ready_raft_state(ps, entries, hs);
    log_ops + (if new_state != ps.raft_state {
        seq![RaftWriteOp::PutRaftState { region_id, state: new_state }]
    } else {
        Seq::empty()
    })
}

impl InvokeContext {
    /// The context of `store` before any change.
    pub fn new(store: &PeerStorage) -> (ctx: InvokeContext)
        ensures
            ctx == (InvokeContext {
                region_id: store.region.id,
                raft_state: store.raft_state,
                apply_state: store.apply_state,
                last_term: store.last_term,
                has_new_entries: false,
            }),
    {
        InvokeContext {
            region_id: store.region.id,
            raft_state: store.raft_state,
            apply_state: store.apply_state,
            last_term: store.last_term,
            has_new_entries: false,
        }
    }

    /// Records the write of the raft state.
    pub fn save_raft_state_to(&self, raft_wb: &mut RaftWriteBatch)
        ensures
            final(raft_wb).ops@ == old(raft_wb).ops@.push(
                RaftWriteOp::PutRaftState { region_id: self.region_id, state: self.raft_state },
            ),
    {
        raft_wb.put_raft_state(self.region_id, self.raft_state);
    }

    /// Records the write of the apply state.
    pub fn save_apply_state_to(&self, kv_wb: &mut KvWriteBatch)
        ensures
            final(kv_wb).ops@ == old(kv_wb).ops@.push(
                KvWriteOp::PutApplyState { region_id: self.region_id, state: self.apply_state },
            ),
    {
        kv_wb.put_apply_state(self.region_id, self.apply_state);
    }
}

impl PeerStorage {
    /// Appends `entries` to the log: records their writes, and the deletion of
    /// the older entries after them that were never committed; moves the
    /// last index and last term of `invoke_ctx` to the last entry. Returns the
    /// new last index.
    pub fn append(&mut self, invoke_ctx: &mut InvokeContext, entries: Vec<Entry>, raft_wb: &mut RaftWriteBatch) -> (res: u64)
        requires
            old(invoke_ctx).raft_state.last_index < u64::MAX,
            entries@.len() > 0 ==> entries@.last().index < u64::MAX,
        ensures
            *final(self) == *old(self),
            entries@.len() == 0 ==> res == old(invoke_ctx).raft_state.last_index && *final(invoke_ctx)
                == *old(invoke_ctx) && final(raft_wb).ops@ == old(raft_wb).ops@,
            entries@.len() > 0 ==> ({
                let last = entries@.last();
                let prev = old(invoke_ctx).raft_state.last_index;
                let cut = if last.index < prev { prev - last.index } else { 0 };
                &&& res == last.index
                &&& *final(invoke_ctx) == (InvokeContext {
                    raft_state: RaftLocalState { last_index: last.index, ..old(invoke_ctx).raft_state },
                    last_term: last.term,
                    has_new_entries: true,
                    ..*old(invoke_ctx)
                })
                &&& final(raft_wb).ops@.len() == old(raft_wb).ops@.len() + entries@.len() + cut
                &&& final(raft_wb).ops@.subrange(0, old(raft_wb).ops@.len() as int) == old(raft_wb).ops@
                &&& forall|i: int| 0 <= i < entries@.len() ==> (#[trigger] final(raft_wb).ops@[old(raft_wb).ops@.len() + i]) == (RaftWriteOp::PutEntry { region_id: old(self).region.id, entry: entries@[i] })
                &&& forall|i: int| 0 <= i < cut ==> (#[trigger] final(raft_wb).ops@[old(raft_wb).ops@.len() + entries@.len() + i]) == (RaftWriteOp::DeleteEntry { region_id: old(self).region.id, index: (last.index + 1 + i) as u64 })
            }),
    {
        let region_id = self.region.id;
        let prev_last_index = invoke_ctx.raft_state.last_index;
        if entries.len() == 0 {
            return prev_last_index;
        }
        invoke_ctx.has_new_entries = true;
        let last_index = entries[entries.len() - 1].index;
        let last_term = entries[entries.len() - 1].term;
        let ghost w0 = raft_wb.ops@;
        let ghost ents = entries@;
        raft_wb.append(region_id, entries);
        let ghost w1 = raft_wb.ops@;
        raft_wb.cut_logs(region_id, last_index + 1, prev_last_index + 1);
        proof {
            let cut = if last_index < prev_last_index { prev_last_index - last_index } else { 0 };
            assert(raft_wb.ops@.subrange(0, w0.len() as int) =~= w0) by {
                assert(raft_wb.ops@.subrange(0, w1.len() as int) == w1);
                assert(w1.subrange(0, w0.len() as int) == w0);
            }
            assert forall|i: int| 0 <= i < ents.len() implies (#[trigger] raft_wb.ops@[w0.len() + i])
                == (RaftWriteOp::PutEntry { region_id, entry: ents[i] }) by {
                assert(raft_wb.ops@.subrange(0, w1.len() as int) == w1);
                assert(raft_wb.ops@[w0.len() + i] == w1[w0.len() + i]);
            }
            assert forall|i: int| 0 <= i < cut implies (#[trigger] raft_wb.ops@[w0.len() + ents.len() + i])
                == (RaftWriteOp::DeleteEntry { region_id, index: (last_index + 1 + i) as u64 }) by {
                assert(raft_wb.ops@[w1.len() + i] == RaftWriteOp::DeleteEntry {
                    region_id,
                    index: ((last_index + 1) + i) as u64,
                });
            }
        }
        invoke_ctx.raft_state.last_index = last_index;
        invoke_ctx.last_term = last_term;
        last_index
    }

    /// Handles the persistent part of a raft ready: appends its new entries,
    /// takes its hard state unless the log is still empty, and records the
    /// write of the raft state if it changed. Only the write batch is changed;
    /// the memory states follow in `post_ready` once it is written.
    pub fn handle_raft_ready(&mut self, raft_wb: &mut RaftWriteBatch, entries: Vec<Entry>, hs: Option<HardState>) -> (ctx: InvokeContext)
        requires
            old(self).raft_state.last_index < u64::MAX,
            entries@.len() > 0 ==> entries@.last().index < u64::MAX,
        ensures
            *final(self) == *old(self),
            ({
                let appended_last = if entries@.len() > 0 { entries@.last().index } else { old(self).raft_state.last_index };
                let appended_term = if entries@.len() > 0 { entries@.last().term } else { old(self).last_term };
                let hard = match hs {
                    Some(h) if appended_last > 0 => h,
                    _ => old(self).raft_state.hard_state,
                };
                let new_state = RaftLocalState { hard_state: hard, last_index: appended_last };
                &&& ctx == (InvokeContext {
                    region_id: old(self).region.id,
                    raft_state: new_state,
                    apply_state: old(self).apply_state,
                    last_term: appended_term,
                    has_new_entries: entries@.len() > 0,
                })
                &&& final(raft_wb).ops@.subrange(0, old(raft_wb).ops@.len() as int) == old(raft_wb).ops@
                &&& new_state != old(self).raft_state ==> final(raft_wb).ops@.last() == (RaftWriteOp::PutRaftState { region_id: old(self).region.id, state: new_state })
                &&& new_state == old(self).raft_state ==> final(raft_wb).ops@.len() == old(raft_wb).ops@.len() + entries@.len()
            }),
            final(raft_wb).ops@ == old(raft_wb).ops@ + ready_writes(*old(self), entries@, hs),
            ctx == ready_context(*old(self), entries@, hs),
    {
        let mut ctx = InvokeContext::new(self);
        let ghost w0 = raft_wb.ops@;
        let ghost ents = entries@;
        if entries.len() > 0 {
            self.append(&mut ctx, entries, raft_wb);
            proof {
                let region_id = self.region.id;
                let prev = self.raft_state.last_index;
                let last = ents.last().index;
                let cut: nat = if last < prev { (prev - last) as nat } else { 0 };
                assert(raft_wb.ops@ =~= w0 + (entry_writes(region_id, ents) + cut_writes(region_id, (last + 1) as u64, cut))) by {
                    assert forall|i: int| 0 <= i < raft_wb.ops@.len() implies raft_wb.ops@[i]
                        == (w0 + (entry_writes(region_id, ents) + cut_writes(region_id, (last + 1) as u64, cut)))[i] by {
                        if i < w0.len() {
                            assert(raft_wb.ops@.subrange(0, w0.len() as int)[i] == w0[i]);
                        } else if i < w0.len() + ents.len() {
                            let k = i - w0.len();
                            assert(raft_wb.ops@[w0.len() + k] == RaftWriteOp::PutEntry { region_id, entry: ents[k] });
                        } else {
                            let k = i - w0.len() - ents.len();
                            assert(raft_wb.ops@[w0.len() + ents.len() + k] == RaftWriteOp::DeleteEntry { region_id, index: (last + 1 + k) as u64 });
                        }
                    }
                }
            }
        } else {
            assert(raft_wb.ops@ =~= w0 + Seq::<RaftWriteOp>::empty());
        }
        let ghost w_log = raft_wb.ops@;
        if ctx.raft_state.last_index > 0 {
            if let Some(h) = hs {
                ctx.raft_state.hard_state = h;
            }
        }
        assert(ctx.raft_state == ready_raft_state(*old(self), ents, hs));
        if ctx.raft_state != self.raft_state {
            let ghost w1 = raft_wb.ops@;
            ctx.save_raft_state_to(raft_wb);
            assert(raft_wb.ops@.subrange(0, w0.len() as int) =~= w1.subrange(0, w0.len() as int));
            assert(raft_wb.ops@ =~= w0 + ready_writes(*old(self), ents, hs));
        } else {
            assert(raft_wb.ops@ =~= w0 + ready_writes(*old(self), ents, hs));
        }
        ctx
    }

    /// Takes the states of `ctx` once its writes are stored.
    pub fn post_ready(&mut self, ctx: InvokeContext)
        ensures
            *final(self) == post_ready_state(*old(self), ctx),
            *final(self) == (PeerStorage {
                raft_state: ctx.raft_state,
                apply_state: ctx.apply_state,
                last_term: ctx.last_term,
                ..*old(self)
            }),
    {
        self.raft_state = ctx.raft_state;
        self.apply_state = ctx.apply_state;
        self.last_term = ctx.last_term;
    }
}

/// Committed entries handed to the apply side, with the range of their indexes.
pub struct CachedEntries {
    pub range_start: u64,
    pub range_end: u64,
    pub entries: Vec<Entry>,
}

impl CachedEntries {
    /// Wraps a non-empty run of committed entries.
    pub fn new(entries: Vec<Entry>) -> (c: CachedEntries)
        requires
            entries@.len() > 0,
            entries@.last().index < u64::MAX,
        ensures
            c.range_start == entries@[0].index,
            c.range_end == entries@.last().index + 1,
            c.entries == entries,
    {
        let start = entries[0].index;
        let end = entries[entries.len() - 1].index + 1;
        CachedEntries { range_start: start, range_end: end, entries }
    }

    /// Hands the entries out, leaving none.
    pub fn take_entries(&mut self) -> (res: Vec<Entry>)
        ensures
            res == old(self).entries,
            final(self).entries@.len() == 0,
            final(self).range_start == old(self).range_start,
            final(self).range_end == old(self).range_end,
    {
        let mut out: Vec<Entry> = Vec::new();
        std::mem::swap(&mut out, &mut self.entries);
        out
    }
}

} // verus!
