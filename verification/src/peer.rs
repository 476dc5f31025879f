//! The bookkeeping of a peer around its raft group: what it proposes, what
//! it learns is committed, the peers it knows, the status commands it
//! answers, and when it compacts its log.
//!
//! The raft group itself reports its state to the peer as plain values
//! (`RaftStatus`), and the outcome of each call into it is handed back to
//! the function that decides what follows.
use std::collections::HashMap;
use vstd::prelude::*;
use crate::text::{cat, cat_u64, decimal};
use crate::apply::{Apply, ApplyRes, ExecResult};
use crate::raft_state::RaftTruncatedState;
use crate::raftlog_gc::Task as RaftlogGcTask;
use crate::engine::Engines;
use crate::raft_client::{RaftMessageView, capacities, enqueue, has_room, queued};
use crate::store::{TICK_BATCH_COUNT, TICK_RAFT_LOG_GC, TickBatches, schedule_tick, tick_registered};
use crate::entry::Entry;
use crate::errors::Error;
use crate::metapb::{INVALID_ID, Peer as MetaPeer, PeerRole, Region};
use crate::peer_storage::{PeerStorage, ready_writes, storage_can_start};
use crate::proposal::{Proposal, ProposalQueue, find_run, key_lt, waiting_ids};
use crate::raft_cmd::{
    AdminCmdType, CmdType, RaftCmdRequest, RaftCmdResponse, RegionDetailResponse, StatusCmdType,
    StatusResponse, bind_error, bind_term, check_peer_id, check_store_id, check_term,
    new_compact_log_request,
};

verus! {

broadcast use vstd::std_specs::hash::group_hash_axioms;

/// How a request is handled.
#[derive(Clone, Copy, Debug, PartialEq, Eq, Structural)]
pub enum RequestPolicy {
    /// Read directly, without going through raft.
    ReadLocal,
    StaleRead,
    /// Read through raft's read index.
    ReadIndex,
    /// Propose it as a normal entry.
    ProposeNormal,
    ProposeTransferLeader,
    ProposeConfChange,
}

/// Whether every request of a command has a known type.
pub open spec fn requests_typed(req: RaftCmdRequest) -> bool {
    forall|i: int| 0 <= i < req.requests@.len() ==> (#[trigger] req.requests@[i]).cmd_type != CmdType::Invalid
}

/// Decides how a command is handled: an admin command or a write is
/// proposed as a normal entry. A command is either an admin command or
/// holds writes of known types.
pub fn inspect(req: &RaftCmdRequest) -> (res: Result<RequestPolicy, Error>)
    requires
        req.admin_request is Some || (req.requests@.len() > 0 && requests_typed(*req)),
    ensures
        res == Ok::<RequestPolicy, Error>(RequestPolicy::ProposeNormal),
{
    if req.admin_request.is_some() {
        return Ok(RequestPolicy::ProposeNormal);
    }
    let mut has_write = false;
    let n = req.requests.len();
    let mut i: usize = 0;
    while i < n
        invariant
            n == req.requests@.len(),
            i <= n,
            requests_typed(*req),
            has_write == (i > 0),
        decreases n - i,
    {
        match req.requests[i].cmd_type {
            CmdType::MessageQueue => {
                has_write = true;
            },
            CmdType::Invalid => {
                assert(false);
            },
        }
        i = i + 1;
    }
    if has_write {
        return Ok(RequestPolicy::ProposeNormal);
    }
    assert(false);
    Ok(RequestPolicy::ProposeNormal)
}

/// Whether a command must be broadcast as soon as it commits; no command
/// of this store is.
pub fn is_request_urgent(req: &RaftCmdRequest) -> (res: bool)
    ensures
        !res,
{
    if req.admin_request.is_none() {
        return false;
    }
    false
}

/// Tells whether a source peer can be destroyed after a merge, and
/// whether it was merged into this peer: `(can_destroy, merge_to_this_peer)`.
/// Regions are never merged here, so neither holds.
pub fn maybe_destroy_source() -> (res: (bool, bool))
    ensures
        !res.0 && !res.1,
{
    (false, false)
}

/// The largest entry a peer proposes, in bytes.
pub const MAX_ENTRY_SIZE: u64 = 8 * 1024 * 1024 * 1024;

/// What the raft group reports of itself.
#[derive(Clone, Copy, Debug, PartialEq, Eq, Structural)]
pub struct RaftStatus {
    pub term: u64,
    /// The leader's peer id, or 0 when there is none.
    pub leader_id: u64,
    /// The last index of raft's log.
    pub last_index: u64,
    pub is_leader: bool,
}

/// What happened when an entry was handed to the raft group.
#[derive(Debug)]
pub enum RaftProposeOutcome {
    /// Raft refused it.
    Failed(Error),
    /// Raft took it; its log now ends before `next_index`.
    Taken { next_index: u64 },
}

/// The callbacks to invoke, recorded in order: replies, proposal and commit
/// notices, and stale commands with the term to answer them with.
pub struct PeerNotices {
    pub replies: Vec<(u64, RaftCmdResponse)>,
    pub proposed: Vec<u64>,
    pub committed: Vec<u64>,
    pub stale: Vec<(u64, u64)>,
}

impl PeerNotices {
    pub fn new() -> (res: PeerNotices)
        ensures
            res.replies@.len() == 0,
            res.proposed@.len() == 0,
            res.committed@.len() == 0,
            res.stale@.len() == 0,
    {
        PeerNotices { replies: Vec::new(), proposed: Vec::new(), committed: Vec::new(), stale: Vec::new() }
    }
}

/// A replica of a region on this store.
pub struct Peer {
    pub peer: MetaPeer,
    pub region_id: u64,
    pub tag: String,
    pub proposals: ProposalQueue,
    pub peer_cache: HashMap<u64, MetaPeer>,
    pub last_applying_idx: u64,
    pub last_compacted_idx: u64,
    pub last_urgent_proposal_idx: u64,
    pub last_unpersisted_number: u64,
    /// Whether raft may skip broadcasting commits.
    pub skip_bcast_commit: bool,
    pub store: PeerStorage,
    pub raft: RaftStatus,
}

/// The first peer of the region with id `id`, if any.
pub open spec fn region_peer(peers: Seq<MetaPeer>, id: u64) -> Option<MetaPeer>
    decreases peers.len(),
{
    if peers.len() == 0 {
        None
    } else if peers[0].id == id {
        Some(peers[0])
    } else {
        region_peer(peers.drop_first(), id)
    }
}

/// The recipient a message to peer `to` goes to: the cached peer, or else
/// the region's. Id 0 names no peer.
pub open spec fn lookup_peer(cache: Map<u64, MetaPeer>, peers: Seq<MetaPeer>, to: u64) -> Option<MetaPeer> {
    if to == 0 {
        None
    } else if cache.contains_key(to) {
        Some(cache[to])
    } else {
        region_peer(peers, to)
    }
}

/// The cache after looking up peer `to`: a peer found in the region is
/// cached.
pub open spec fn cache_after(cache: Map<u64, MetaPeer>, peers: Seq<MetaPeer>, to: u64) -> Map<u64, MetaPeer> {
    if to != 0 && !cache.contains_key(to) && region_peer(peers, to) is Some {
        cache.insert(to, region_peer(peers, to)->0)
    } else {
        cache
    }
}

/// What sending one message changes: the peer cache, and the queues and
/// capacities of the transport. A message to a peer that cannot be found,
/// or for a full queue, is dropped.
pub open spec fn send_step(
    st: (Map<u64, MetaPeer>, Map<u64, Seq<RaftMessageView>>, Map<u64, nat>),
    peers: Seq<MetaPeer>,
    region_id: u64,
    from: MetaPeer,
    to: u64,
    message: Seq<u8>,
) -> (Map<u64, MetaPeer>, Map<u64, Seq<RaftMessageView>>, Map<u64, nat>) {
    match lookup_peer(st.0, peers, to) {
        None => st,
        Some(p) => {
            let q = enqueue(st.1, st.2, p.store_id, RaftMessageView { region_id, from_peer: from, to_peer: p, message });
            (cache_after(st.0, peers, to), q.0, q.1)
        },
    }
}

/// What sending `msgs` in order changes.
pub open spec fn send_all(
    st: (Map<u64, MetaPeer>, Map<u64, Seq<RaftMessageView>>, Map<u64, nat>),
    peers: Seq<MetaPeer>,
    region_id: u64,
    from: MetaPeer,
    msgs: Seq<(u64, Vec<u8>)>,
) -> (Map<u64, MetaPeer>, Map<u64, Seq<RaftMessageView>>, Map<u64, nat>)
    decreases msgs.len(),
{
    if msgs.len() == 0 {
        st
    } else {
        send_step(send_all(st, peers, region_id, from, msgs.drop_last()), peers, region_id, from, msgs.last().0, msgs.last().1@)
    }
}

/// Every cached peer is stored under its own id.
pub open spec fn cache_ok(cache: Map<u64, MetaPeer>) -> bool {
    forall|k: u64| #[trigger] cache.contains_key(k) ==> cache[k].id == k
}

/// Whether the region holds a peer with id `peer_id` that is not a learner.
pub open spec fn has_voter(peers: Seq<MetaPeer>, peer_id: u64) -> bool {
    exists|i: int| 0 <= i < peers.len() && peers[i].id == peer_id && peers[i].role != PeerRole::Learner
}

/// The label of a peer in the log: `[region R] P`.
pub open spec fn peer_tag_text(region_id: u64, peer_id: u64) -> Seq<char> {
    "[region "@ + decimal(region_id as nat) + "] "@ + decimal(peer_id as nat)
}

/// Formats the label of a peer.
fn peer_tag(region_id: u64, peer_id: u64) -> (s: String)
    ensures
        s@ == peer_tag_text(region_id, peer_id),
{
    let s = cat_u64(String::from_str("[region "), region_id);
    let s = cat(s, "] ");
    cat_u64(s, peer_id)
}

/// The message of the error for a peer with an invalid id.
pub open spec fn invalid_peer_text() -> Seq<char> {
    seq!['i', 'n', 'v', 'a', 'l', 'i', 'd', ' ', 'p', 'e', 'e', 'r', ' ', 'i', 'd']
}

impl Peer {
    /// The peer `peer` of `region` on store `store_id`, loaded from the
    /// engines, and whether it must campaign at once: it is the only peer of
    /// its region and lives on this store.
    pub fn new(store_id: u64, engines: Engines, region: &Region, peer: MetaPeer) -> (res: Result<(Peer, bool), Error>)
        requires
            engines.wf(),
            peer.id != INVALID_ID ==> storage_can_start(engines.raft@, engines.kv@.apply_states, region.id),
        ensures
            peer.id == INVALID_ID ==> (res matches Err(Error::Other(s)) && s@ == invalid_peer_text()),
            peer.id != INVALID_ID ==> (res matches Ok((p, campaign)) && {
                &&& p.peer == peer
                &&& p.region_id == region.id
                &&& p.tag@ == peer_tag_text(region.id, peer.id)
                &&& p.proposals@.len() == 0
                &&& p.peer_cache@ == Map::<u64, MetaPeer>::empty()
                &&& p.store.wf()
                &&& p.store.region@ == region@
                &&& p.store.peer_id == peer.id
                &&& p.last_applying_idx == p.store.apply_state.applied_index
                &&& p.last_compacted_idx == 0
                &&& p.last_urgent_proposal_idx == u64::MAX
                &&& p.last_unpersisted_number == 0
                &&& p.raft == (RaftStatus {
                    term: p.store.raft_state.hard_state.term,
                    leader_id: INVALID_ID,
                    last_index: p.store.raft_state.last_index,
                    is_leader: false,
                })
                &&& campaign == (region.peers@.len() == 1 && region.peers@[0].store_id == store_id)
            }),
    {
        if peer.id == INVALID_ID {
            let msg = "invalid peer id".to_owned();
            proof {
                reveal_strlit("invalid peer id");
            }
            assert(msg@ =~= invalid_peer_text());
            return Err(Error::Other(msg));
        }
        let tag = peer_tag(region.id, peer.id);
        let ps = PeerStorage::new(engines, region, peer.id, peer_tag(region.id, peer.id));
        let applied_index = ps.applied_index();
        let raft = RaftStatus {
            term: ps.raft_state.hard_state.term,
            leader_id: INVALID_ID,
            last_index: ps.last_index(),
            is_leader: false,
        };
        let p = Peer {
            peer,
            region_id: region.id,
            tag,
            proposals: ProposalQueue::new(peer_tag(region.id, peer.id)),
            peer_cache: HashMap::new(),
            last_applying_idx: applied_index,
            last_compacted_idx: 0,
            last_urgent_proposal_idx: u64::MAX,
            last_unpersisted_number: 0,
            skip_bcast_commit: true,
            store: ps,
            raft,
        };
        let campaign = region.peers.len() == 1 && region.peers[0].store_id == store_id;
        Ok((p, campaign))
    }

    /// The index the next proposal gets.
    pub fn next_proposal_index(&self) -> (res: u64)
        requires
            self.raft.last_index < u64::MAX,
        ensures
            res == self.raft.last_index + 1,
    {
        self.raft.last_index + 1
    }

    /// Whether the raft group knows a leader that is a voter of the region.
    pub fn has_valid_leader(&self) -> (res: bool)
        ensures
            res == (self.raft.leader_id != INVALID_ID && has_voter(self.store.region.peers@, self.raft.leader_id)),
    {
        if self.raft.leader_id == INVALID_ID {
            return false;
        }
        let peers = &self.store.region.peers;
        let mut i: usize = 0;
        while i < peers.len()
            invariant
                peers@ == self.store.region.peers@,
                i <= peers@.len(),
                self.raft.leader_id != INVALID_ID,
                forall|j: int| 0 <= j < i ==> !(peers@[j].id == self.raft.leader_id && peers@[j].role != PeerRole::Learner),
            decreases peers@.len() - i,
        {
            let p = peers[i];
            if p.id == self.raft.leader_id && p.role != PeerRole::Learner {
                assert(self.store.region.peers@[i as int] == p);
                return true;
            }
            i = i + 1;
        }
        false
    }

    /// Whether to campaign after a split: only when the region has other
    /// peers and the parent region's peer here was the leader.
    pub fn maybe_campaign(&self, parent_is_leader: bool) -> (res: bool)
        ensures
            res == (self.store.region.peers@.len() > 1 && parent_is_leader),
    {
        if self.store.region.peers.len() <= 1 {
            return false;
        }
        if !parent_is_leader {
            return false;
        }
        true
    }

    /// Whether the peer has applied an entry of its current term.
    pub fn has_applied_to_current_term(&self) -> (res: bool)
        ensures
            res == (self.store.applied_index_term == self.raft.term),
    {
        self.store.applied_index_term() == self.raft.term
    }

    /// The peer of the region with id `peer_id`, from the cache or else
    /// from the region, where it is then cached. Id 0 names no peer.
    pub fn get_peer_from_cache(&mut self, peer_id: u64) -> (res: Option<MetaPeer>)
        ensures
            res == lookup_peer(old(self).peer_cache@, old(self).store.region.peers@, peer_id),
            final(self).peer_cache@ == cache_after(old(self).peer_cache@, old(self).store.region.peers@, peer_id),
            peer_id == 0 ==> res is None && final(self).peer_cache@ == old(self).peer_cache@,
            peer_id != 0 && old(self).peer_cache@.contains_key(peer_id) ==> res == Some(old(self).peer_cache@[peer_id])
                && final(self).peer_cache@ == old(self).peer_cache@,
            peer_id != 0 && !old(self).peer_cache@.contains_key(peer_id) ==> match res {
                Some(p) => p.id == peer_id && old(self).store.region.peers@.contains(p)
                    && final(self).peer_cache@ == old(self).peer_cache@.insert(peer_id, p),
                None => (forall|i: int| 0 <= i < old(self).store.region.peers@.len() ==> (#[trigger] old(self).store.region.peers@[i]).id != peer_id)
                    && final(self).peer_cache@ == old(self).peer_cache@,
            },
            cache_ok(old(self).peer_cache@) ==> cache_ok(final(self).peer_cache@),
            *final(self) == (Peer { peer_cache: final(self).peer_cache, ..*old(self) }),
    {
        if peer_id == 0 {
            return None;
        }
        match self.peer_cache.get(&peer_id) {
            Some(p) => {
                return Some(*p);
            },
            None => {},
        }
        let n = self.store.region.peers.len();
        let mut i: usize = 0;
        assert(self.store.region.peers@.skip(0) =~= self.store.region.peers@);
        while i < n
            invariant
                n == self.store.region.peers@.len(),
                i <= n,
                *self == *old(self),
                peer_id != 0,
                !old(self).peer_cache@.contains_key(peer_id),
                forall|j: int| 0 <= j < i ==> (#[trigger] self.store.region.peers@[j]).id != peer_id,
                region_peer(self.store.region.peers@, peer_id) == region_peer(self.store.region.peers@.skip(i as int), peer_id),
            decreases n - i,
        {
            let p = self.store.region.peers[i];
            proof {
                let sk = self.store.region.peers@.skip(i as int);
                assert(sk[0] == p);
                assert(sk.drop_first() =~= self.store.region.peers@.skip(i + 1));
            }
            if p.id == peer_id {
                self.peer_cache.insert(peer_id, p);
                assert(old(self).store.region.peers@[i as int] == p);
                return Some(p);
            }
            i = i + 1;
        }
        assert(self.store.region.peers@.skip(n as int).len() == 0);
        None
    }
}

/// What checking and proposing an entry of `data_len` bytes at
/// `propose_index` gives: too large an entry is refused before raft sees
/// it; raft's refusal is passed on; an entry raft dropped silently (its log
/// did not grow) means the peer is not the leader.
pub open spec fn propose_normal_result(region_id: u64, data_len: u64, propose_index: u64, outcome: RaftProposeOutcome) -> Result<u64, Error> {
    if data_len > MAX_ENTRY_SIZE {
        Err(Error::RaftEntryTooLarge { region_id, entry_size: data_len })
    } else {
        match outcome {
            RaftProposeOutcome::Failed(e) => Err(e),
            RaftProposeOutcome::Taken { next_index } => if next_index == propose_index {
                Err(Error::NotLeader(region_id, None))
            } else {
                Ok(propose_index)
            },
        }
    }
}

/// The ids told of the commit of the found proposals: those whose epoch
/// was checked when proposed.
pub open spec fn early_commit_ids(found: Seq<Proposal>) -> Seq<u64>
    decreases found.len(),
{
    if found.len() == 0 {
        Seq::empty()
    } else {
        let rest = early_commit_ids(found.drop_last());
        let p = found.last();
        if p.must_pass_epoch_check && p.cb is Some {
            rest.push(p.cb->0)
        } else {
            rest
        }
    }
}

/// Matching committed entries, given as `(term, index)`, against the
/// proposals in order: the proposals left, those found (with somebody
/// waiting), the callback ids found stale, and whether no lost proposal
/// was met.
pub open spec fn commit_chain(q: Seq<Proposal>, keys: Seq<(u64, u64)>) -> (Seq<Proposal>, Seq<Proposal>, Seq<u64>, bool)
    decreases keys.len(),
{
    if keys.len() == 0 {
        (q, Seq::empty(), Seq::empty(), true)
    } else {
        let t = keys[0].0;
        let i = keys[0].1;
        let run = find_run(q, t, i);
        let nstale: nat = if run.1 { (run.0 - 1) as nat } else { run.0 };
        let f = if run.1 && q[run.0 - 1].cb is Some { seq![q[run.0 - 1]] } else { Seq::<Proposal>::empty() };
        let r = commit_chain(q.skip(run.0 as int), keys.drop_first());
        (r.0, f + r.1, waiting_ids(q, nstale) + r.2, run.2 && r.3)
    }
}

/// The `(term, index)` of each entry.
pub open spec fn entry_keys(entries: Seq<Entry>) -> Seq<(u64, u64)> {
    entries.map_values(|e: Entry| (e.term, e.index))
}

/// Each stale id with the term to answer it with.
pub open spec fn with_term(ids: Seq<u64>, term: u64) -> Seq<(u64, u64)> {
    ids.map_values(|id: u64| (id, term))
}

impl Peer {
    /// Checks an entry of `data_len` bytes proposed at `propose_index`,
    /// given what raft did with it.
    pub fn propose_normal(&self, data_len: u64, propose_index: u64, outcome: RaftProposeOutcome) -> (res: Result<u64, Error>)
        ensures
            res == propose_normal_result(self.region_id, data_len, propose_index, outcome),
    {
        if data_len > MAX_ENTRY_SIZE {
            return Err(Error::RaftEntryTooLarge { region_id: self.region_id, entry_size: data_len });
        }
        match outcome {
            RaftProposeOutcome::Failed(e) => Err(e),
            RaftProposeOutcome::Taken { next_index } => {
                if next_index == propose_index {
                    Err(Error::NotLeader(self.region_id, None))
                } else {
                    Ok(propose_index)
                }
            },
        }
    }

    /// Proposes a command: on failure the waiting callback gets `err_resp`
    /// with the error; on success, the proposal is queued (told at once
    /// that it is proposed when the peer has applied an entry of its
    /// term) and the peer's view of raft's log grows to it.
    pub fn propose(
        &mut self,
        notices: &mut PeerNotices,
        cb: Option<u64>,
        req: &RaftCmdRequest,
        err_resp: RaftCmdResponse,
        data_len: u64,
        outcome: RaftProposeOutcome,
        now: Option<u64>,
    ) -> (res: bool)
        requires
            req.admin_request is Some || (req.requests@.len() > 0 && requests_typed(*req)),
            old(self).raft.last_index < u64::MAX,
            old(self).proposals@.len() > 0 ==> key_lt(
                old(self).proposals@.last().term,
                old(self).proposals@.last().index,
                old(self).raft.term,
                (old(self).raft.last_index + 1) as u64,
            ),
        ensures
            ({
                let r = propose_normal_result(old(self).region_id, data_len, (old(self).raft.last_index + 1) as u64, outcome);
                let applied_now = old(self).store.applied_index_term == old(self).raft.term;
                match r {
                    Err(e) => {
                        &&& !res
                        &&& final(self).proposals@ == old(self).proposals@
                        &&& final(self).raft == old(self).raft
                        &&& final(notices).proposed == old(notices).proposed
                        &&& match cb {
                            Some(id) => {
                                &&& final(notices).replies@.len() == old(notices).replies@.len() + 1
                                &&& final(notices).replies@.drop_last() == old(notices).replies@
                                &&& final(notices).replies@.last().0 == id
                                &&& (final(notices).replies@.last().1.header.error matches Some(pb)
                                    && crate::errors::errorpb_fields_of(e, pb))
                                &&& final(notices).replies@.last().1.header.current_term == err_resp.header.current_term
                            },
                            None => final(notices).replies == old(notices).replies,
                        }
                    },
                    Ok(idx) => {
                        &&& res
                        &&& final(self).proposals@ == old(self).proposals@.push(Proposal {
                            is_conf_change: false,
                            index: idx,
                            term: old(self).raft.term,
                            cb,
                            propose_time: now,
                            must_pass_epoch_check: applied_now,
                        })
                        &&& final(notices).replies == old(notices).replies
                        &&& final(notices).proposed@ == (if applied_now && cb is Some {
                            old(notices).proposed@.push(cb->0)
                        } else {
                            old(notices).proposed@
                        })
                        &&& final(self).raft == (RaftStatus { last_index: idx, ..old(self).raft })
                    },
                }
            }),
            final(notices).committed == old(notices).committed,
            final(notices).stale == old(notices).stale,
            final(self).store == old(self).store,
            final(self).region_id == old(self).region_id,
            final(self).peer == old(self).peer,
            final(self).last_applying_idx == old(self).last_applying_idx,
            final(self).last_urgent_proposal_idx == old(self).last_urgent_proposal_idx,
    {
        let _is_urgent = is_request_urgent(req);
        let _policy = inspect(req);
        let propose_index = self.next_proposal_index();
        let res = self.propose_normal(data_len, propose_index, outcome);
        match res {
            Err(e) => {
                let mut resp = err_resp;
                bind_error(&mut resp, e);
                match cb {
                    Some(id) => {
                        let ghost before = notices.replies@;
                        notices.replies.push((id, resp));
                        assert(notices.replies@.drop_last() =~= before);
                    },
                    None => {},
                }
                false
            },
            Ok(idx) => {
                let has_applied_to_current_term = self.has_applied_to_current_term();
                if has_applied_to_current_term {
                    match cb {
                        Some(id) => notices.proposed.push(id),
                        None => {},
                    }
                }
                let p = Proposal {
                    is_conf_change: false,
                    index: idx,
                    term: self.raft.term,
                    cb,
                    propose_time: now,
                    must_pass_epoch_check: has_applied_to_current_term,
                };
                self.proposals.push(p);
                self.raft.last_index = idx;
                true
            },
        }
    }

    /// Hands entries raft committed to the apply worker, with the proposals
    /// that wait for them; proposals of older terms met on the way are
    /// stale. The applying index moves to the last entry.
    pub fn handle_raft_committed_entries(&mut self, notices: &mut PeerNotices, committed_entries: Vec<Entry>) -> (res: Option<Apply>)
        requires
            commit_chain(old(self).proposals@, entry_keys(committed_entries@)).3,
        ensures
            committed_entries@.len() == 0 ==> res is None && *final(self) == *old(self) && *final(notices) == *old(notices),
            committed_entries@.len() > 0 ==> ({
                let chain = commit_chain(old(self).proposals@, entry_keys(committed_entries@));
                let last = committed_entries@.last().index;
                &&& final(self).last_applying_idx == last
                &&& if last >= old(self).last_urgent_proposal_idx {
                    final(self).skip_bcast_commit && final(self).last_urgent_proposal_idx == u64::MAX
                } else {
                    final(self).skip_bcast_commit == old(self).skip_bcast_commit
                        && final(self).last_urgent_proposal_idx == old(self).last_urgent_proposal_idx
                }
                &&& final(self).proposals@ == chain.0
                &&& res matches Some(a) && a == (Apply {
                    peer_id: old(self).peer.id,
                    region_id: old(self).region_id,
                    term: old(self).raft.term,
                    entries: committed_entries,
                    cbs: a.cbs,
                }) && a.cbs@ == chain.1
                &&& final(notices).committed@ == old(notices).committed@ + early_commit_ids(chain.1)
                &&& final(notices).stale@ == old(notices).stale@ + with_term(chain.2, old(self).raft.term)
                &&& final(notices).replies == old(notices).replies
                &&& final(notices).proposed == old(notices).proposed
            }),
            final(self).store == old(self).store,
            final(self).raft == old(self).raft,
            final(self).region_id == old(self).region_id,
            final(self).peer == old(self).peer,
            final(self).peer_cache == old(self).peer_cache,
            final(self).last_unpersisted_number == old(self).last_unpersisted_number,
            final(self).last_compacted_idx == old(self).last_compacted_idx,
    {
        let n = committed_entries.len();
        if n == 0 {
            return None;
        }
        let last_index = committed_entries[n - 1].index;
        self.last_applying_idx = last_index;
        if self.last_applying_idx >= self.last_urgent_proposal_idx {
            self.skip_bcast_commit = true;
            self.last_urgent_proposal_idx = u64::MAX;
        }
        let current_term = self.raft.term;
        let ghost keys = entry_keys(committed_entries@);
        let ghost q0 = self.proposals@;
        let ghost total = commit_chain(q0, keys);
        let ghost c0 = notices.committed@;
        let ghost s0 = notices.stale@;
        let mut cbs: Vec<Proposal> = Vec::new();
        let mut i: usize = 0;
        proof {
            assert(keys.skip(0) =~= keys);
            let e = Seq::<u64>::empty();
            assert(e + total.2 =~= total.2);
            assert(with_term(e, current_term) =~= notices.stale@.skip(s0.len() as int));
            assert(cbs@ + total.1 =~= total.1);
            assert(notices.stale@.subrange(0, s0.len() as int) =~= s0);
            assert(early_commit_ids(cbs@) =~= Seq::<u64>::empty());
            assert(notices.committed@ =~= c0 + early_commit_ids(cbs@));
        }
        while i < n
            invariant
                n == committed_entries@.len(),
                keys == entry_keys(committed_entries@),
                i <= n,
                current_term == old(self).raft.term,
                ({
                    let r = commit_chain(self.proposals@, keys.skip(i as int));
                    let done = commit_chain(q0, keys);
                    &&& r.3
                    &&& r.0 == done.0
                    &&& cbs@ + r.1 == done.1
                    &&& exists|st: Seq<u64>| st + r.2 == done.2 && #[trigger] with_term(st, current_term) == notices.stale@.skip(s0.len() as int)
                        && notices.stale@.len() >= s0.len()
                }),
                total == commit_chain(q0, keys),
                notices.stale@.subrange(0, s0.len() as int) == s0,
                notices.committed@ == c0 + early_commit_ids(cbs@),
                c0 == old(notices).committed@,
                s0 == old(notices).stale@,
                notices.replies == old(notices).replies,
                notices.proposed == old(notices).proposed,
                self.store == old(self).store,
                self.raft == old(self).raft,
                self.region_id == old(self).region_id,
                self.peer == old(self).peer,
                self.peer_cache == old(self).peer_cache,
                self.last_unpersisted_number == old(self).last_unpersisted_number,
                self.last_compacted_idx == old(self).last_compacted_idx,
                self.last_applying_idx == last_index,
                self.last_urgent_proposal_idx == (if last_index >= old(self).last_urgent_proposal_idx { u64::MAX } else { old(self).last_urgent_proposal_idx }),
                self.skip_bcast_commit == (if last_index >= old(self).last_urgent_proposal_idx { true } else { old(self).skip_bcast_commit }),
            decreases n - i,
        {
            let term = committed_entries[i].term;
            let index = committed_entries[i].index;
            let ghost qb = self.proposals@;
            let ghost rest = keys.skip(i as int);
            proof {
                assert(rest[0] == (term, index));
                assert(rest.drop_first() =~= keys.skip(i + 1));
            }
            let ghost cbs_before = cbs@;
            let ghost stale_before = notices.stale@;
            let (found, stale) = self.proposals.find_proposal(term, index);
            let ghost run = find_run(qb, term, index);
            let ghost nstale: nat = if run.1 { (run.0 - 1) as nat } else { run.0 };
            let mut k: usize = 0;
            while k < stale.len()
                invariant
                    k <= stale@.len(),
                    stale@ == waiting_ids(qb, nstale),
                    notices.stale@ == stale_before + with_term(stale@.subrange(0, k as int), current_term),
                    notices.committed@ == c0 + early_commit_ids(cbs@),
                    notices.replies == old(notices).replies,
                    notices.proposed == old(notices).proposed,
                decreases stale@.len() - k,
            {
                let ghost sb = notices.stale@;
                notices.stale.push((stale[k], current_term));
                assert(with_term(stale@.subrange(0, k + 1), current_term) =~= with_term(stale@.subrange(0, k as int), current_term).push((stale@[k as int], current_term)));
                assert(notices.stale@ =~= stale_before + with_term(stale@.subrange(0, k + 1), current_term));
                k = k + 1;
            }
            assert(stale@.subrange(0, stale@.len() as int) =~= stale@);
            match found {
                Some(p) => {
                    if p.must_pass_epoch_check {
                        match p.cb {
                            Some(id) => notices.committed.push(id),
                            None => {},
                        }
                    }
                    cbs.push(p);
                    assert(cbs@.drop_last() =~= cbs_before);
                },
                None => {},
            }
            proof {
                let r_old = commit_chain(qb, rest);
                let r_new = commit_chain(self.proposals@, keys.skip(i + 1));
                let done = commit_chain(q0, keys);
                let f = if run.1 && qb[run.0 - 1].cb is Some { seq![qb[run.0 - 1]] } else { Seq::<Proposal>::empty() };
                assert(r_old.1 == f + r_new.1);
                assert(cbs@ =~= cbs_before + f);
                assert(cbs@ + r_new.1 =~= cbs_before + r_old.1);
                let st_old = choose|st: Seq<u64>| st + r_old.2 == done.2 && #[trigger] with_term(st, current_term) == stale_before.skip(s0.len() as int) && stale_before.len() >= s0.len();
                let st_new = st_old + waiting_ids(qb, nstale);
                assert(st_new + r_new.2 =~= st_old + r_old.2);
                assert(notices.stale@.skip(s0.len() as int) =~= stale_before.skip(s0.len() as int) + with_term(waiting_ids(qb, nstale), current_term));
                assert(with_term(st_new, current_term) =~= with_term(st_old, current_term) + with_term(waiting_ids(qb, nstale), current_term));
                assert(notices.stale@.subrange(0, s0.len() as int) =~= stale_before.subrange(0, s0.len() as int));
            }
            i = i + 1;
        }
        proof {
            let r = commit_chain(self.proposals@, keys.skip(n as int));
            assert(keys.skip(n as int).len() == 0);
            assert(cbs@ =~= cbs@ + r.1);
            let st = choose|st: Seq<u64>| st + r.2 == total.2 && #[trigger] with_term(st, current_term) == notices.stale@.skip(s0.len() as int) && notices.stale@.len() >= s0.len();
            assert(st =~= total.2);
            assert(notices.stale@ =~= s0 + notices.stale@.skip(s0.len() as int));
        }
        Some(Apply::new(self.peer.id, self.region_id, current_term, committed_entries, cbs))
    }
}

/// The smallest of `last` and the matched indexes.
pub open spec fn min_matched(last: u64, matched: Seq<u64>) -> u64
    decreases matched.len(),
{
    if matched.len() == 0 {
        last
    } else {
        let m = min_matched(last, matched.drop_last());
        if m > matched.last() { matched.last() } else { m }
    }
}

/// Where a leader compacts its log to, if it does: once every follower
/// has replicated at least `limit` entries past the first one, the first
/// tenth of the limit goes.
pub open spec fn gc_compact_index(is_leader: bool, last_idx: u64, matched: Seq<u64>, first_idx: u64, limit: u64) -> Option<u64> {
    let replicated = min_matched(last_idx, matched);
    if !is_leader || replicated < first_idx || replicated - first_idx < limit {
        None
    } else {
        Some((first_idx + limit / 10) as u64)
    }
}

/// Decides where a leader compacts its log, from the last index, the index
/// each peer has replicated, the first index still in the log and the
/// count of entries that triggers a compaction.
pub fn raft_log_gc_decision(is_leader: bool, last_idx: u64, matched: &Vec<u64>, first_idx: u64, limit: u64) -> (res: Option<u64>)
    requires
        first_idx + limit / 10 <= u64::MAX,
    ensures
        res == gc_compact_index(is_leader, last_idx, matched@, first_idx, limit),
{
    if !is_leader {
        return None;
    }
    let mut replicated_idx = last_idx;
    let n = matched.len();
    let mut i: usize = 0;
    while i < n
        invariant
            n == matched@.len(),
            i <= n,
            replicated_idx == min_matched(last_idx, matched@.subrange(0, i as int)),
        decreases n - i,
    {
        proof {
            assert(matched@.subrange(0, i + 1).drop_last() =~= matched@.subrange(0, i as int));
        }
        if replicated_idx > matched[i] {
            replicated_idx = matched[i];
        }
        i = i + 1;
    }
    assert(matched@.subrange(0, n as int) =~= matched@);
    if replicated_idx < first_idx {
        return None;
    }
    if replicated_idx - first_idx < limit {
        return None;
    }
    Some(first_idx + limit / 10)
}

/// Whether the term of the entry at `idx` can be read from the storage.
pub open spec fn index_term_readable(ps: PeerStorage, idx: u64) -> bool {
    idx == ps.apply_state.truncated_state.index || (idx < u64::MAX && ps.range_ok(idx, (idx + 1) as u64) && (
    ps.apply_state.truncated_state.term == ps.last_term || idx == ps.raft_state.last_index
        || ps.log().contains_key(idx)))
}

impl Peer {
    /// Moves the commit index to the one raft reports, which never goes
    /// back.
    pub fn on_commit_index(&mut self, commit_index: u64)
        requires
            commit_index >= old(self).store.raft_state.hard_state.commit,
        ensures
            final(self).store.raft_state.hard_state.commit == commit_index,
            final(self).store.raft_state.hard_state.term == old(self).store.raft_state.hard_state.term,
            final(self).store.raft_state.hard_state.vote == old(self).store.raft_state.hard_state.vote,
            final(self).store.raft_state.last_index == old(self).store.raft_state.last_index,
            final(self).store.apply_state == old(self).store.apply_state,
            final(self).proposals == old(self).proposals,
            final(self).raft == old(self).raft,
            final(self).peer_cache == old(self).peer_cache,
            final(self).store.region == old(self).store.region,
            *final(self) == (Peer { store: final(self).store, ..*old(self) }),
    {
        self.store.set_commit_index(commit_index);
    }

    /// When the peer becomes leader, the entries up to raft's last index
    /// count as urgent: commits are broadcast until they are applied.
    pub fn on_become_leader(&mut self)
        ensures
            *final(self) == (Peer { last_urgent_proposal_idx: old(self).raft.last_index, skip_bcast_commit: false, ..*old(self) }),
    {
        self.last_urgent_proposal_idx = self.raft.last_index;
        self.skip_bcast_commit = false;
    }

    /// On the log gc tick: registers the next log gc tick of this peer in
    /// `registry` and `batches`, then gives the compaction a leader
    /// proposes, if any: a request to compact to the chosen index, with the
    /// term of its entry.
    pub fn on_raft_gc_log_tick(&self, registry: &mut u8, batches: &mut TickBatches, matched: &Vec<u64>, limit: u64) -> (res: Option<RaftCmdRequest>)
        requires
            old(batches).wf(),
            self.store.wf(),
            self.store.apply_state.truncated_state.index < u64::MAX,
            self.store.apply_state.truncated_state.index + 1 + limit / 10 <= u64::MAX,
            gc_compact_index(
                self.raft.is_leader,
                self.store.raft_state.last_index,
                matched@,
                (self.store.apply_state.truncated_state.index + 1) as u64,
                limit,
            ) matches Some(c) ==> index_term_readable(self.store, c),
        ensures
            final(batches).wf(),
            tick_registered(*final(registry), TICK_RAFT_LOG_GC),
            tick_registered(*old(registry), TICK_RAFT_LOG_GC) ==> *final(registry) == *old(registry)
                && *final(batches) == *old(batches),
            !tick_registered(*old(registry), TICK_RAFT_LOG_GC) ==> {
                &&& *final(registry) == *old(registry) | TICK_RAFT_LOG_GC
                &&& final(batches).batches@[TICK_RAFT_LOG_GC as int].ticks@
                    == old(batches).batches@[TICK_RAFT_LOG_GC as int].ticks@.push(self.peer.id)
                &&& final(batches).batches@[TICK_RAFT_LOG_GC as int].wait_duration
                    == old(batches).batches@[TICK_RAFT_LOG_GC as int].wait_duration
                &&& forall|i: int| 0 <= i < TICK_BATCH_COUNT && i != TICK_RAFT_LOG_GC
                    ==> #[trigger] final(batches).batches@[i] == old(batches).batches@[i]
            },
            match gc_compact_index(
                self.raft.is_leader,
                self.store.raft_state.last_index,
                matched@,
                (self.store.apply_state.truncated_state.index + 1) as u64,
                limit,
            ) {
                None => res is None,
                Some(c) => res matches Some(req) && req.header.region_id == self.store.region.id
                    && req.header.peer == self.peer && req.header.term == 0 && req.requests@.len() == 0
                    && req.status_request is None && req.admin_request == Some(
                    crate::raft_cmd::AdminRequest {
                        cmd_type: AdminCmdType::CompactLog,
                        compact_log: crate::raft_cmd::CompactLogRequest { compact_index: c, compact_term: self.store.term_of(c) },
                    },
                ),
            },
    {
        schedule_tick(registry, batches, self.peer.id, TICK_RAFT_LOG_GC);
        proof {
            let r = *old(registry);
            assert(tick_registered(r | TICK_RAFT_LOG_GC, TICK_RAFT_LOG_GC)) by (bit_vector);
        }
        let last_idx = self.store.last_index();
        let first_idx = self.store.first_index();
        match raft_log_gc_decision(self.raft.is_leader, last_idx, matched, first_idx, limit) {
            None => None,
            Some(compact_idx) => {
                let term = self.store.term(compact_idx);
                let req = new_compact_log_request(self.store.region.id, self.peer, compact_idx, term);
                Some(req)
            },
        }
    }

    /// The log gc task for a compaction the apply worker carried out: from
    /// where the last one ended to past the new truncated index.
    pub fn on_ready_compact_log(&mut self, state: RaftTruncatedState) -> (res: RaftlogGcTask)
        requires
            state.index < u64::MAX,
        ensures
            res == (RaftlogGcTask::Gc {
                region_id: old(self).store.region.id,
                start_idx: old(self).last_compacted_idx,
                end_idx: (state.index + 1) as u64,
            }),
            final(self).last_compacted_idx == state.index + 1,
            final(self).store == old(self).store,
            final(self).raft == old(self).raft,
            final(self).proposals == old(self).proposals,
    {
        let compact_to = state.index + 1;
        let task = RaftlogGcTask::gc(self.store.region.id, self.last_compacted_idx, compact_to);
        self.last_compacted_idx = compact_to;
        task
    }

    /// Takes in what the apply worker applied: its results first (a
    /// compaction gives a log gc task), then the new apply state and term.
    pub fn on_apply_res(&mut self, res: ApplyRes) -> (tasks: Vec<RaftlogGcTask>)
        requires
            forall|k: int| 0 <= k < res.exec_res@.len() ==> (#[trigger] res.exec_res@[k])->state.index < u64::MAX,
        ensures
            final(self).store.apply_state == res.apply_state,
            final(self).store.applied_index_term == res.applied_index_term,
            final(self).store.raft_state == old(self).store.raft_state,
            final(self).store.region == old(self).store.region,
            final(self).store.engines == old(self).store.engines,
            tasks@.len() == res.exec_res@.len(),
            res.exec_res@.len() > 0 ==> final(self).last_compacted_idx == res.exec_res@.last()->state.index + 1,
            forall|k: int| 0 <= k < tasks@.len() ==> (#[trigger] tasks@[k]) == (RaftlogGcTask::Gc {
                region_id: old(self).store.region.id,
                start_idx: if k == 0 { old(self).last_compacted_idx } else { (res.exec_res@[k - 1]->state.index + 1) as u64 },
                end_idx: (res.exec_res@[k]->state.index + 1) as u64,
            }),
            final(self).raft == old(self).raft,
            final(self).proposals == old(self).proposals,
    {
        let mut tasks: Vec<RaftlogGcTask> = Vec::new();
        let n = res.exec_res.len();
        let mut i: usize = 0;
        while i < n
            invariant
                n == res.exec_res@.len(),
                i <= n,
                forall|k: int| 0 <= k < n ==> (#[trigger] res.exec_res@[k])->state.index < u64::MAX,
                tasks@.len() == i,
                i > 0 ==> self.last_compacted_idx == res.exec_res@[i - 1]->state.index + 1,
                i == 0 ==> self.last_compacted_idx == old(self).last_compacted_idx,
                forall|k: int| 0 <= k < i ==> (#[trigger] tasks@[k]) == (RaftlogGcTask::Gc {
                    region_id: old(self).store.region.id,
                    start_idx: if k == 0 { old(self).last_compacted_idx } else { (res.exec_res@[k - 1]->state.index + 1) as u64 },
                    end_idx: (res.exec_res@[k]->state.index + 1) as u64,
                }),
                self.store == old(self).store,
                self.raft == old(self).raft,
                self.proposals == old(self).proposals,
            decreases n - i,
        {
            match res.exec_res[i] {
                ExecResult::CompactLog { state, first_index: _ } => {
                    let t = self.on_ready_compact_log(state);
                    tasks.push(t);
                },
            }
            i = i + 1;
        }
        self.store.set_applied_state(res.apply_state);
        self.store.set_applied_term(res.applied_index_term);
        tasks
    }

    /// Whether a raft message is for this store; others are ignored.
    pub fn validate_raft_msg(&self, to_store_id: u64) -> (res: bool)
        ensures
            res == (to_store_id == self.peer.store_id),
    {
        to_store_id == self.peer.store_id
    }

    /// Answers who leads the region, if this peer knows.
    pub fn execute_region_leader(&mut self) -> (res: StatusResponse)
        requires
            cache_ok(old(self).peer_cache@),
        ensures
            cache_ok(final(self).peer_cache@),
            res.cmd_type == StatusCmdType::InvalidStatus,
            res.region_detail is None,
            match res.region_leader {
                Some(p) => p.id == old(self).raft.leader_id && old(self).raft.leader_id != 0,
                None => old(self).raft.leader_id == 0 || (!old(self).peer_cache@.contains_key(old(self).raft.leader_id)
                    && forall|i: int| 0 <= i < old(self).store.region.peers@.len() ==> (#[trigger] old(self).store.region.peers@[i]).id != old(self).raft.leader_id),
            },
            final(self).store == old(self).store,
            final(self).raft == old(self).raft,
            final(self).proposals == old(self).proposals,
            final(self).peer == old(self).peer,
    {
        let leader = self.get_peer_from_cache(self.raft.leader_id);
        StatusResponse { cmd_type: StatusCmdType::InvalidStatus, region_leader: leader, region_detail: None }
    }

    /// Answers the region and who leads it; an uninitialized region cannot
    /// answer.
    pub fn execute_region_detail(&mut self, request: &RaftCmdRequest) -> (res: Result<StatusResponse, Error>)
        requires
            cache_ok(old(self).peer_cache@),
        ensures
            cache_ok(final(self).peer_cache@),
            old(self).store.region.peers@.len() == 0 ==> res == Err::<StatusResponse, Error>(Error::RegionNotInitialized(request.header.region_id)),
            old(self).store.region.peers@.len() > 0 ==> (res matches Ok(r) && {
                &&& r.cmd_type == StatusCmdType::InvalidStatus
                &&& r.region_leader is None
                &&& r.region_detail is Some
                &&& r.region_detail->0.region is Some
                &&& r.region_detail->0.region->0@ == old(self).store.region@
                &&& (r.region_detail->0.leader matches Some(p) ==> p.id == old(self).raft.leader_id)
            }),
            final(self).store == old(self).store,
            final(self).raft == old(self).raft,
            final(self).proposals == old(self).proposals,
            final(self).peer == old(self).peer,
    {
        if !self.store.is_initialized() {
            return Err(Error::RegionNotInitialized(request.header.region_id));
        }
        let region = self.store.region.copy();
        let leader = self.get_peer_from_cache(self.raft.leader_id);
        Ok(StatusResponse {
            cmd_type: StatusCmdType::InvalidStatus,
            region_leader: None,
            region_detail: Some(RegionDetailResponse { region: Some(region), leader }),
        })
    }

    /// Answers a status command, stamped with the current term.
    pub fn execute_status_command(&mut self, request: &RaftCmdRequest) -> (res: Result<RaftCmdResponse, Error>)
        requires
            request.status_request is Some,
            cache_ok(old(self).peer_cache@),
        ensures
            cache_ok(final(self).peer_cache@),
            ({
                let cmd_type = request.status_request->0.cmd_type;
                match res {
                    Ok(resp) => {
                        &&& cmd_type != StatusCmdType::InvalidStatus
                        &&& resp.header.current_term == old(self).raft.term
                        &&& resp.header.error is None
                        &&& resp.status_response matches Some(sr) && sr.cmd_type == cmd_type
                        &&& (cmd_type == StatusCmdType::RegionDetail ==> old(self).store.region.peers@.len() > 0)
                    },
                    Err(e) => {
                        ||| cmd_type == StatusCmdType::InvalidStatus && e is Other
                        ||| cmd_type == StatusCmdType::RegionDetail && old(self).store.region.peers@.len() == 0
                            && e == Error::RegionNotInitialized(request.header.region_id)
                    },
                }
            }),
            final(self).store == old(self).store,
            final(self).raft == old(self).raft,
            final(self).proposals == old(self).proposals,
            final(self).peer == old(self).peer,
    {
        let cmd_type = match &request.status_request {
            Some(sr) => sr.cmd_type,
            None => {
                assert(false);
                StatusCmdType::InvalidStatus
            },
        };
        let mut response = match cmd_type {
            StatusCmdType::RegionLeader => self.execute_region_leader(),
            StatusCmdType::RegionDetail => {
                match self.execute_region_detail(request) {
                    Ok(r) => r,
                    Err(e) => return Err(e),
                }
            },
            StatusCmdType::InvalidStatus => {
                let msg = invalid_status_message(&self.tag);
                return Err(Error::Other(msg));
            },
        };
        response.cmd_type = cmd_type;
        let mut resp = RaftCmdResponse::new();
        resp.status_response = Some(response);
        bind_term(&mut resp, self.raft.term);
        Ok(resp)
    }

    /// Checks a command before it is proposed: it must be for this store;
    /// a status command is answered at once; otherwise it must be for this
    /// peer and not from a term long past. The region must be initialized.
    pub fn pre_propose_raft_command(&mut self, msg: &RaftCmdRequest) -> (res: Result<Option<RaftCmdResponse>, Error>)
        requires
            cache_ok(old(self).peer_cache@),
            old(self).store.region.peers@.len() > 0 || msg.header.peer.store_id != old(self).peer.store_id
                || msg.status_request is Some || msg.header.peer.id != old(self).peer.id,
        ensures
            cache_ok(final(self).peer_cache@),
            msg.header.peer.store_id != old(self).peer.store_id ==> res == Err::<Option<RaftCmdResponse>, Error>(
                Error::StoreNotMatch { to_store_id: msg.header.peer.store_id, my_store_id: old(self).peer.store_id },
            ),
            msg.header.peer.store_id == old(self).peer.store_id && msg.status_request is Some ==> (match res {
                Ok(Some(_)) => true,
                Err(_) => true,
                Ok(None) => false,
            }),
            msg.header.peer.store_id == old(self).peer.store_id && msg.status_request is None ==> {
                if msg.header.peer.id != old(self).peer.id {
                    res matches Err(e) && e is Other
                } else if !(msg.header.term == 0 || old(self).raft.term <= msg.header.term + 1) {
                    res == Err::<Option<RaftCmdResponse>, Error>(Error::StaleCommand)
                } else {
                    res == Ok::<Option<RaftCmdResponse>, Error>(None)
                }
            },
            final(self).store == old(self).store,
            final(self).raft == old(self).raft,
            final(self).proposals == old(self).proposals,
    {
        match check_store_id(msg, self.peer.store_id) {
            Err(e) => return Err(e),
            Ok(()) => {},
        }
        if msg.status_request.is_some() {
            match self.execute_status_command(msg) {
                Ok(resp) => return Ok(Some(resp)),
                Err(e) => return Err(e),
            }
        }
        match check_peer_id(msg, self.peer.id) {
            Err(e) => return Err(e),
            Ok(()) => {},
        }
        if !self.store.is_initialized() {
            assert(false);
        }
        match check_term(msg, self.raft.term) {
            Err(e) => return Err(e),
            Ok(()) => {},
        }
        Ok(None)
    }
}

impl Peer {
    /// Sends a raft message to the peer `to` of the region: the recipient
    /// is looked up among the cached and the region's peers, and the
    /// message is queued for its store. Fails when the recipient is unknown
    /// or its store's queue is full.
    pub fn send_raft_message(&mut self, to: u64, message: Vec<u8>, trans: &mut crate::raft_client::RaftClient) -> (res: bool)
        requires
            cache_ok(old(self).peer_cache@),
        ensures
            cache_ok(final(self).peer_cache@),
            res == (lookup_peer(old(self).peer_cache@, old(self).store.region.peers@, to) matches Some(p)
                && has_room(queued(*old(trans)), capacities(*old(trans)), p.store_id)),
            (final(self).peer_cache@, queued(*final(trans)), capacities(*final(trans))) == send_step(
                (old(self).peer_cache@, queued(*old(trans)), capacities(*old(trans))),
                old(self).store.region.peers@,
                old(self).region_id,
                old(self).peer,
                to,
                message@,
            ),
            *final(self) == (Peer { peer_cache: final(self).peer_cache, ..*old(self) }),
    {
        let to_peer = match self.get_peer_from_cache(to) {
            Some(p) => p,
            None => {
                return false;
            },
        };
        let msg = crate::raft_client::RaftMessage { region_id: self.region_id, from_peer: self.peer, to_peer, message };
        trans.send(msg)
    }

    /// Sends the messages of a round in order, each as `send_raft_message`
    /// does.
    pub fn send_raft_messages(&mut self, messages: Vec<(u64, Vec<u8>)>, trans: &mut crate::raft_client::RaftClient)
        requires
            cache_ok(old(self).peer_cache@),
        ensures
            cache_ok(final(self).peer_cache@),
            (final(self).peer_cache@, queued(*final(trans)), capacities(*final(trans))) == send_all(
                (old(self).peer_cache@, queued(*old(trans)), capacities(*old(trans))),
                old(self).store.region.peers@,
                old(self).region_id,
                old(self).peer,
                messages@,
            ),
            *final(self) == (Peer { peer_cache: final(self).peer_cache, ..*old(self) }),
    {
        let n = messages.len();
        let mut rest = messages;
        let ghost all = rest@;
        let mut i: usize = 0;
        assert(all.take(0) =~= Seq::<(u64, Vec<u8>)>::empty());
        assert(all.subrange(0, n as int) =~= all);
        while i < n
            invariant
                n == all.len(),
                i <= n,
                rest@ == all.subrange(i as int, n as int),
                cache_ok(self.peer_cache@),
                *self == (Peer { peer_cache: self.peer_cache, ..*old(self) }),
                (self.peer_cache@, queued(*trans), capacities(*trans)) == send_all(
                    (old(self).peer_cache@, queued(*old(trans)), capacities(*old(trans))),
                    old(self).store.region.peers@,
                    old(self).region_id,
                    old(self).peer,
                    all.take(i as int),
                ),
            decreases n - i,
        {
            let (to, message) = rest.remove(0);
            proof {
                assert(all.take(i + 1).drop_last() =~= all.take(i as int));
                assert(all.take(i + 1).last() == all[i as int]);
                assert(all[i as int] == (to, message));
            }
            let _ = self.send_raft_message(to, message, trans);
            i = i + 1;
            assert(rest@ =~= all.subrange(i as int, n as int));
        }
        assert(all.take(n as int) =~= all);
    }
}

/// What the raft group hands out in one round: the number of the round,
/// its new hard state, whether the peer became leader or follower, the
/// messages to send (recipient and encoded message), the entries committed
/// and those to append, and whether they must be synced.
pub struct Ready {
    pub number: u64,
    pub hs: Option<crate::raft_state::HardState>,
    pub becomes_leader: Option<bool>,
    pub messages: Vec<(u64, Vec<u8>)>,
    pub committed_entries: Vec<Entry>,
    pub entries: Vec<Entry>,
    pub must_sync: bool,
}

impl Peer {
    /// Handles a round of raft: records its number, follows a change of
    /// role, checks that the commit index does not go back, sends its
    /// messages, hands its committed entries to the apply worker, and
    /// records the writes of its new entries and hard state. Returns the
    /// apply task, if any, and what the writes will change once stored.
    pub fn handle_raft_ready_append(
        &mut self,
        notices: &mut PeerNotices,
        trans: &mut crate::raft_client::RaftClient,
        raft_wb: &mut crate::engine::RaftWriteBatch,
        ready: Ready,
    ) -> (res: (Option<Apply>, crate::peer_storage::InvokeContext))
        requires
            cache_ok(old(self).peer_cache@),
            !ready.must_sync ==> ready.entries@.len() == 0 && (ready.hs matches Some(h) ==> h.term == old(self).store.raft_state.hard_state.term
                && h.vote == old(self).store.raft_state.hard_state.vote),
            ready.hs matches Some(h) ==> h.commit >= old(self).store.raft_state.hard_state.commit,
            commit_chain(old(self).proposals@, entry_keys(ready.committed_entries@)).3,
            old(self).store.raft_state.last_index < u64::MAX,
            ready.entries@.len() > 0 ==> ready.entries@.last().index < u64::MAX,
        ensures
            final(self).last_unpersisted_number == ready.number,
            ready.becomes_leader == Some(true) ==> final(self).last_urgent_proposal_idx == old(self).raft.last_index
                || (ready.committed_entries@.len() > 0 && final(self).last_urgent_proposal_idx == u64::MAX),
            final(self).store == old(self).store,
            final(self).raft == old(self).raft,
            ready.committed_entries@.len() == 0 ==> res.0 is None,
            ready.committed_entries@.len() > 0 ==> (res.0 matches Some(a) && a.entries == ready.committed_entries
                && a.cbs@ == commit_chain(old(self).proposals@, entry_keys(ready.committed_entries@)).1),
            final(self).proposals@ == commit_chain(old(self).proposals@, entry_keys(ready.committed_entries@)).0,
            ({
                let entries = ready.entries@;
                let appended_last = if entries.len() > 0 { entries.last().index } else { old(self).store.raft_state.last_index };
                let hard = match ready.hs {
                    Some(h) if appended_last > 0 => h,
                    _ => old(self).store.raft_state.hard_state,
                };
                &&& res.1.raft_state == (crate::raft_state::RaftLocalState { hard_state: hard, last_index: appended_last })
                &&& res.1.apply_state == old(self).store.apply_state
                &&& res.1.has_new_entries == (entries.len() > 0)
            }),
            final(raft_wb).ops@ == old(raft_wb).ops@ + ready_writes(old(self).store, ready.entries@, ready.hs),
            cache_ok(final(self).peer_cache@),
            (final(self).peer_cache@, queued(*final(trans)), capacities(*final(trans))) == send_all(
                (old(self).peer_cache@, queued(*old(trans)), capacities(*old(trans))),
                old(self).store.region.peers@,
                old(self).region_id,
                old(self).peer,
                ready.messages@,
            ),
    {
        let Ready { number, hs, becomes_leader, messages, committed_entries, entries, must_sync: _ } = ready;
        self.last_unpersisted_number = number;
        match becomes_leader {
            Some(true) => self.on_become_leader(),
            _ => {},
        }
        self.send_raft_messages(messages, trans);
        let apply = self.handle_raft_committed_entries(notices, committed_entries);
        let invoke_ctx = self.store.handle_raft_ready(raft_wb, entries, hs);
        (apply, invoke_ctx)
    }

    /// Takes in the states of a round once its writes are stored.
    pub fn post_raft_ready_append(&mut self, invoke_ctx: crate::peer_storage::InvokeContext)
        ensures
            final(self).store.raft_state == invoke_ctx.raft_state,
            final(self).store.apply_state == invoke_ctx.apply_state,
            final(self).store.last_term == invoke_ctx.last_term,
            final(self).store.region == old(self).store.region,
            final(self).store.engines == old(self).store.engines,
            final(self).proposals == old(self).proposals,
            final(self).raft == old(self).raft,
    {
        self.store.post_ready(invoke_ctx);
    }
}

/// What the raft group hands out after the writes of a round are stored:
/// a new commit index, messages to send, and entries committed.
pub struct LightReady {
    pub commit_index: Option<u64>,
    pub messages: Vec<(u64, Vec<u8>)>,
    pub committed_entries: Vec<Entry>,
}

impl Peer {
    /// Handles the part of a round that follows the stored writes: moves
    /// the commit index (which never goes back), sends the messages and
    /// hands the committed entries to the apply worker.
    pub fn handle_raft_ready_advance(
        &mut self,
        notices: &mut PeerNotices,
        trans: &mut crate::raft_client::RaftClient,
        light: LightReady,
    ) -> (res: Option<Apply>)
        requires
            cache_ok(old(self).peer_cache@),
            light.commit_index matches Some(c) ==> c >= old(self).store.raft_state.hard_state.commit,
            commit_chain(old(self).proposals@, entry_keys(light.committed_entries@)).3,
        ensures
            final(self).store.raft_state.hard_state.commit == (match light.commit_index {
                Some(c) => c,
                None => old(self).store.raft_state.hard_state.commit,
            }),
            final(self).store.raft_state.last_index == old(self).store.raft_state.last_index,
            final(self).store.apply_state == old(self).store.apply_state,
            final(self).raft == old(self).raft,
            light.committed_entries@.len() == 0 ==> res is None,
            light.committed_entries@.len() > 0 ==> (res matches Some(a) && a.entries == light.committed_entries
                && a.cbs@ == commit_chain(old(self).proposals@, entry_keys(light.committed_entries@)).1),
            final(self).proposals@ == commit_chain(old(self).proposals@, entry_keys(light.committed_entries@)).0,
            cache_ok(final(self).peer_cache@),
            (final(self).peer_cache@, queued(*final(trans)), capacities(*final(trans))) == send_all(
                (old(self).peer_cache@, queued(*old(trans)), capacities(*old(trans))),
                old(self).store.region.peers@,
                old(self).region_id,
                old(self).peer,
                light.messages@,
            ),
    {
        let LightReady { commit_index, messages, committed_entries } = light;
        match commit_index {
            Some(c) => self.on_commit_index(c),
            None => {},
        }
        self.send_raft_messages(messages, trans);
        self.handle_raft_committed_entries(notices, committed_entries)
    }

    /// Takes in the apply state and term the apply worker reached.
    pub fn post_apply(&mut self, apply_state: crate::raft_state::RaftApplyState, applied_index_term: u64) -> (has_ready: bool)
        ensures
            !has_ready,
            *final(self) == (Peer {
                store: PeerStorage { apply_state, applied_index_term, ..old(self).store },
                ..*old(self)
            }),
    {
        self.store.set_applied_state(apply_state);
        self.store.set_applied_term(applied_index_term);
        false
    }

    /// Checks a command before proposing it: a status command or a failed
    /// check is answered at once (the answer is recorded for the callback);
    /// otherwise gives the reply to use if the proposal fails, stamped with
    /// the current term.
    pub fn propose_raft_command_prepare(&mut self, notices: &mut PeerNotices, msg: &RaftCmdRequest, cb: Option<u64>) -> (res: Option<RaftCmdResponse>)
        requires
            cache_ok(old(self).peer_cache@),
            old(self).store.region.peers@.len() > 0,
        ensures
            cache_ok(final(self).peer_cache@),
            final(self).store == old(self).store,
            final(self).raft == old(self).raft,
            final(self).proposals == old(self).proposals,
            res matches Some(r) ==> r.header.current_term == old(self).raft.term && r.header.error is None
                && r.responses@.len() == 0 && final(notices).replies == old(notices).replies,
            res is None ==> match cb {
                Some(id) => final(notices).replies@.len() == old(notices).replies@.len() + 1
                    && final(notices).replies@.drop_last() == old(notices).replies@
                    && final(notices).replies@.last().0 == id,
                None => final(notices).replies == old(notices).replies,
            },
            msg.header.peer.store_id == old(self).peer.store_id && msg.status_request is None
                && msg.header.peer.id == old(self).peer.id
                && (msg.header.term == 0 || old(self).raft.term <= msg.header.term + 1) ==> res is Some,
            final(notices).proposed == old(notices).proposed,
            final(notices).committed == old(notices).committed,
            final(notices).stale == old(notices).stale,
    {
        match self.pre_propose_raft_command(msg) {
            Ok(Some(resp)) => {
                match cb {
                    Some(id) => {
                        let ghost before = notices.replies@;
                        notices.replies.push((id, resp));
                        assert(notices.replies@.drop_last() =~= before);
                    },
                    None => {},
                }
                None
            },
            Err(e) => {
                let resp = crate::raft_cmd::new_error(e);
                match cb {
                    Some(id) => {
                        let ghost before = notices.replies@;
                        notices.replies.push((id, resp));
                        assert(notices.replies@.drop_last() =~= before);
                    },
                    None => {},
                }
                None
            },
            Ok(None) => {
                let mut resp = RaftCmdResponse::new();
                bind_term(&mut resp, self.raft.term);
                Some(resp)
            },
        }
    }
}

/// The message of the error for a status command of no known kind.
fn invalid_status_message(tag: &String) -> (s: String)
    ensures
        s@ == invalid_status_text(tag@),
{
    cat(tag.clone(), " invalid status command!")
}

/// The text of the error for a status command of no known kind.
pub open spec fn invalid_status_text(tag: Seq<char>) -> Seq<char> {
    tag + " invalid status command!"@
}

} // verus!
