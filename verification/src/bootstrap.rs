//! Bootstrapping a store and the single region of the cluster.
use vstd::prelude::*;
use crate::engine::{Engines, KvWriteBatch, RaftWriteBatch, StoreIdent};
use crate::errors::Error;
use crate::metapb::{INVALID_ID, Peer, PeerRole, Region, RegionView, initial_region};
use crate::peer_storage::{write_initial_apply_state, write_initial_raft_state};
use crate::raft_state::{RAFT_INIT_LOG_INDEX, initial_apply_state, initial_raft_state};

verus! {

/// The id of the cluster's only region.
pub const FIRST_REGION_ID: u64 = 1;

/// Records the identity of the store.
pub fn bootstrap_store(engines: &mut Engines, cluster_id: u64, store_id: u64) -> (res: Result<(), Error>)
    requires
        old(engines).wf(),
    ensures
        res is Ok,
        final(engines).wf(),
        final(engines).kv@.store_ident == Some(StoreIdent { cluster_id, store_id }),
        final(engines).kv@.apply_states == old(engines).kv@.apply_states,
        final(engines).kv@.region_states == old(engines).kv@.region_states,
        final(engines).raft == old(engines).raft,
{
    engines.kv.put_store_ident(StoreIdent { cluster_id, store_id });
    Ok(())
}

/// Stores what a region starts from: its region state and initial apply
/// state in the kv engine, its initial raft state in the raft engine.
pub fn prepare_bootstrap_cluster(engines: &mut Engines, region: &Region) -> (res: Result<(), Error>)
    requires
        old(engines).wf(),
    ensures
        res is Ok,
        final(engines).wf(),
        final(engines).kv@.region_states == old(engines).kv@.region_states.insert(region.id, region@),
        final(engines).kv@.apply_states == old(engines).kv@.apply_states.insert(region.id, initial_apply_state_spec()),
        final(engines).kv@.store_ident == old(engines).kv@.store_ident,
        final(engines).raft@.states == old(engines).raft@.states.insert(region.id, initial_raft_state_spec()),
        final(engines).raft@.entries == old(engines).raft@.entries,
{
    let mut wb = KvWriteBatch::new();
    wb.put_region_state(region.id, region.copy());
    write_initial_apply_state(&mut wb, region.id);
    proof {
        reveal_with_fuel(crate::engine::apply_kv_ops, 3);
        assert(wb.ops@.drop_last().drop_last() =~= Seq::<crate::engine::KvWriteOp>::empty());
        assert(wb.ops@.drop_last() =~= seq![wb.ops@[0]]);
    }
    engines.kv.write(&mut wb);
    let mut raft_wb = RaftWriteBatch::new();
    write_initial_raft_state(&mut raft_wb, region.id);
    proof {
        reveal_with_fuel(crate::engine::apply_raft_ops, 2);
        assert(raft_wb.ops@.drop_last() =~= Seq::<crate::engine::RaftWriteOp>::empty());
    }
    engines.raft.consume(&mut raft_wb);
    Ok(())
}

/// The initial apply state, as a value.
pub open spec fn initial_apply_state_spec() -> crate::raft_state::RaftApplyState {
    crate::raft_state::RaftApplyState {
        applied_index: RAFT_INIT_LOG_INDEX,
        commit_index: 0,
        commit_term: 0,
        truncated_state: crate::raft_state::RaftTruncatedState {
            index: RAFT_INIT_LOG_INDEX,
            term: crate::raft_state::RAFT_INIT_LOG_TERM,
        },
    }
}

/// The initial raft state, as a value.
pub open spec fn initial_raft_state_spec() -> crate::raft_state::RaftLocalState {
    crate::raft_state::RaftLocalState {
        hard_state: crate::raft_state::HardState {
            term: crate::raft_state::RAFT_INIT_LOG_TERM,
            vote: 0,
            commit: RAFT_INIT_LOG_INDEX,
        },
        last_index: RAFT_INIT_LOG_INDEX,
    }
}

/// A store node of the cluster.
pub struct Node {
    pub cluster_id: u64,
    pub cluster_size: u64,
    pub store_id: u64,
    pub has_started: bool,
}

impl Node {
    pub fn new(cluster_id: u64, cluster_size: u64, store_id: u64) -> (res: Node)
        ensures
            res == (Node { cluster_id, cluster_size, store_id, has_started: false }),
    {
        Node { cluster_id, cluster_size, store_id, has_started: false }
    }

    /// The id of this node's store.
    pub fn id(&self) -> (res: u64)
        ensures
            res == self.store_id,
    {
        self.store_id
    }

    /// The store id recorded in the engines, or `INVALID_ID` when the store
    /// is not bootstrapped. A recorded identity must be this node's.
    pub fn check_store(&self, engines: &Engines) -> (res: Result<u64, Error>)
        requires
            engines.kv@.store_ident matches Some(ident) ==> ident.cluster_id == self.cluster_id
                && ident.store_id == self.store_id,
        ensures
            res == Ok::<u64, Error>(if engines.kv@.store_ident is None { INVALID_ID } else { self.store_id }),
    {
        match engines.kv.get_store_ident() {
            None => Ok(INVALID_ID),
            Some(_) => Ok(self.store_id),
        }
    }

    /// Bootstraps the cluster's region: one peer on each store, the peer
    /// of store `i` having id `i`.
    pub fn prepare_bootstrap_cluster(&self, engines: &mut Engines, cluster_size: u64) -> (res: Result<Region, Error>)
        requires
            old(engines).wf(),
            cluster_size < u64::MAX,
        ensures
            final(engines).wf(),
            res matches Ok(r) && r.id == FIRST_REGION_ID && r.peers@.len() == cluster_size
                && (forall|i: int| 0 <= i < cluster_size ==> #[trigger] r.peers@[i] == (Peer {
                    id: (i + 1) as u64,
                    store_id: (i + 1) as u64,
                    role: PeerRole::Voter,
                }))
                && final(engines).kv@.region_states == old(engines).kv@.region_states.insert(FIRST_REGION_ID, r@)
                && final(engines).kv@.apply_states == old(engines).kv@.apply_states.insert(FIRST_REGION_ID, initial_apply_state_spec())
                && final(engines).raft@.states == old(engines).raft@.states.insert(FIRST_REGION_ID, initial_raft_state_spec()),
            final(engines).raft@.entries == old(engines).raft@.entries,
            final(engines).kv@.store_ident == old(engines).kv@.store_ident,
    {
        let mut v: Vec<(u64, u64)> = Vec::new();
        let mut i: u64 = 1;
        while i <= cluster_size
            invariant
                1 <= i <= cluster_size + 1,
                cluster_size < u64::MAX,
                v@.len() == i - 1,
                forall|k: int| 0 <= k < v@.len() ==> #[trigger] v@[k] == ((k + 1) as u64, (k + 1) as u64),
            decreases cluster_size + 1 - i,
        {
            v.push((i, i));
            i = i + 1;
        }
        let region = initial_region(FIRST_REGION_ID, &v);
        let _ = prepare_bootstrap_cluster(engines, &region);
        Ok(region)
    }

    /// Bootstraps the store and the cluster's region unless the store is
    /// already bootstrapped (a node whose store id is `INVALID_ID` always
    /// bootstraps).
    pub fn try_bootstrap_store(&mut self, engines: &mut Engines) -> (res: Result<(), Error>)
        requires
            old(engines).wf(),
            old(self).cluster_size < u64::MAX,
            old(engines).kv@.store_ident matches Some(ident) ==> ident.cluster_id == old(self).cluster_id
                && ident.store_id == old(self).store_id,
        ensures
            res is Ok,
            final(engines).wf(),
            old(engines).kv@.store_ident is Some && old(self).store_id != INVALID_ID ==> *final(engines) == *old(engines),
            old(engines).kv@.store_ident is None || old(self).store_id == INVALID_ID ==> {
                &&& final(engines).kv@.store_ident == Some(StoreIdent { cluster_id: old(self).cluster_id, store_id: old(self).store_id })
                &&& final(engines).kv@.apply_states == old(engines).kv@.apply_states.insert(FIRST_REGION_ID, initial_apply_state_spec())
                &&& final(engines).raft@.states == old(engines).raft@.states.insert(FIRST_REGION_ID, initial_raft_state_spec())
                &&& final(engines).kv@.region_states.contains_key(FIRST_REGION_ID)
            },
            *final(self) == *old(self),
    {
        let store_id = match self.check_store(engines) {
            Ok(id) => id,
            Err(e) => return Err(e),
        };
        if store_id == INVALID_ID {
            let _ = bootstrap_store(engines, self.cluster_id, self.store_id);
            let _ = self.prepare_bootstrap_cluster(engines, self.cluster_size);
        }
        Ok(())
    }
}

} // verus!
