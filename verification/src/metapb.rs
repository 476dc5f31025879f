//! Region and peer metadata, and the helpers that inspect them.
use vstd::prelude::*;

verus! {

/// The id that no peer, store or region ever has.
pub const INVALID_ID: u64 = 0;

/// The initial region epoch version.
pub const INIT_EPOCH_VER: u64 = 1;

/// The initial region epoch conf_version.
pub const INIT_EPOCH_CONF_VER: u64 = 1;

/// The role of a peer in its raft group.
#[derive(Clone, Copy, Debug, PartialEq, Eq, Structural)]
pub enum PeerRole {
    Voter,
    Learner,
    IncomingVoter,
    DemotingVoter,
}

/// A replica of a region, living on a store.
#[derive(Clone, Copy, Debug, PartialEq, Eq, Structural)]
pub struct Peer {
    pub id: u64,
    pub store_id: u64,
    pub role: PeerRole,
}

/// The version of a region's key range and of its membership.
#[derive(Clone, Copy, Debug, PartialEq, Eq, Structural)]
pub struct RegionEpoch {
    pub conf_ver: u64,
    pub version: u64,
}

/// A region: a key range replicated by a set of peers.
#[derive(Debug)]
pub struct Region {
    pub id: u64,
    pub start_key: Vec<u8>,
    pub end_key: Vec<u8>,
    pub region_epoch: RegionEpoch,
    pub peers: Vec<Peer>,
}

/// The mathematical value of a region.
pub struct RegionView {
    pub id: u64,
    pub start_key: Seq<u8>,
    pub end_key: Seq<u8>,
    pub region_epoch: RegionEpoch,
    pub peers: Seq<Peer>,
}

impl View for Region {
    type V = RegionView;

    open spec fn view(&self) -> RegionView {
        RegionView {
            id: self.id,
            start_key: self.start_key@,
            end_key: self.end_key@,
            region_epoch: self.region_epoch,
            peers: self.peers@,
        }
    }
}

/// Copies a byte vector.
pub fn copy_bytes(v: &Vec<u8>) -> (res: Vec<u8>)
    ensures
        res@ == v@,
{
    let mut res: Vec<u8> = Vec::with_capacity(v.len());
    let mut i: usize = 0;
    while i < v.len()
        invariant
            i <= v.len(),
            res@ == v@.subrange(0, i as int),
        decreases v.len() - i,
    {
        res.push(v[i]);
        i = i + 1;
    }
    assert(res@ =~= v@);
    res
}

/// Copies a vector of peers.
pub fn copy_peers(v: &Vec<Peer>) -> (res: Vec<Peer>)
    ensures
        res@ == v@,
{
    let mut res: Vec<Peer> = Vec::with_capacity(v.len());
    let mut i: usize = 0;
    while i < v.len()
        invariant
            i <= v.len(),
            res@ == v@.subrange(0, i as int),
        decreases v.len() - i,
    {
        res.push(v[i]);
        i = i + 1;
    }
    assert(res@ =~= v@);
    res
}

impl Region {
    /// An empty region: id 0, no keys, default epoch, no peers.
    pub fn new_empty() -> (r: Region)
        ensures
            r.id == 0,
            r.start_key@.len() == 0,
            r.end_key@.len() == 0,
            r.region_epoch == (RegionEpoch { conf_ver: 0, version: 0 }),
            r.peers@.len() == 0,
    {
        Region {
            id: 0,
            start_key: Vec::new(),
            end_key: Vec::new(),
            region_epoch: RegionEpoch { conf_ver: 0, version: 0 },
            peers: Vec::new(),
        }
    }

    /// A copy of this region.
    pub fn copy(&self) -> (r: Region)
        ensures
            r@ == self@,
    {
        Region {
            id: self.id,
            start_key: copy_bytes(&self.start_key),
            end_key: copy_bytes(&self.end_key),
            region_epoch: self.region_epoch,
            peers: copy_peers(&self.peers),
        }
    }
}

/// Whether some peer of `peers` lives on `store_id`.
pub open spec fn has_peer_on_store(peers: Seq<Peer>, store_id: u64) -> bool {
    exists|i: int| 0 <= i < peers.len() && (#[trigger] peers[i]).store_id == store_id
}

/// The first peer of `region` that lives on `store_id`, if any.
pub fn find_peer(region: &Region, store_id: u64) -> (res: Option<Peer>)
    ensures
        match res {
            Some(p) => exists|i: int|
                0 <= i < region.peers@.len() && region.peers@[i] == p && p.store_id == store_id
                    && forall|j: int| 0 <= j < i ==> (#[trigger] region.peers@[j]).store_id != store_id,
            None => !has_peer_on_store(region.peers@, store_id),
        },
{
    let mut i: usize = 0;
    while i < region.peers.len()
        invariant
            i <= region.peers@.len(),
            forall|j: int| 0 <= j < i ==> (#[trigger] region.peers@[j]).store_id != store_id,
        decreases region.peers@.len() - i,
    {
        if region.peers[i].store_id == store_id {
            return Some(region.peers[i]);
        }
        i = i + 1;
    }
    None
}

/// A voter peer with the given store and peer ids.
pub fn new_peer(store_id: u64, peer_id: u64) -> (p: Peer)
    ensures
        p == (Peer { id: peer_id, store_id, role: PeerRole::Voter }),
{
    Peer { id: peer_id, store_id, role: PeerRole::Voter }
}

/// A region is initialized once it has at least one peer.
pub fn is_region_initialized(r: &Region) -> (res: bool)
    ensures
        res == (r.peers@.len() > 0),
{
    r.peers.len() > 0
}

/// The voters of a raft configuration.
pub struct ConfState {
    pub voters: Vec<u64>,
}

/// The ids of `peers`, in order.
pub open spec fn peer_ids(peers: Seq<Peer>) -> Seq<u64> {
    peers.map_values(|p: Peer| p.id)
}

/// The raft configuration of a region whose peers are all voters.
pub fn conf_state_from_region(region: &Region) -> (cs: ConfState)
    requires
        forall|i: int| 0 <= i < region.peers@.len() ==> (#[trigger] region.peers@[i]).role
            == PeerRole::Voter,
    ensures
        cs.voters@ == peer_ids(region.peers@),
{
    let mut voters: Vec<u64> = Vec::new();
    let mut i: usize = 0;
    while i < region.peers.len()
        invariant
            i <= region.peers@.len(),
            voters@ == peer_ids(region.peers@.subrange(0, i as int)),
        decreases region.peers@.len() - i,
    {
        voters.push(region.peers[i].id);
        i = i + 1;
        assert(peer_ids(region.peers@.subrange(0, i as int)) =~= peer_ids(
            region.peers@.subrange(0, (i - 1) as int),
        ).push(region.peers@[i - 1].id));
    }
    assert(region.peers@.subrange(0, i as int) =~= region.peers@);
    ConfState { voters }
}

/// The region that a cluster is bootstrapped with: the whole key space, the
/// initial epoch, and one voter for each `(store_id, peer_id)` pair.
pub fn initial_region(region_id: u64, peers: &Vec<(u64, u64)>) -> (r: Region)
    ensures
        r.id == region_id,
        r.start_key@.len() == 0,
        r.end_key@.len() == 0,
        r.region_epoch == (RegionEpoch { conf_ver: INIT_EPOCH_CONF_VER, version: INIT_EPOCH_VER }),
        r.peers@.len() == peers@.len(),
        forall|i: int| 0 <= i < peers@.len() ==> #[trigger] r.peers@[i] == (Peer {
            id: peers@[i].1,
            store_id: peers@[i].0,
            role: PeerRole::Voter,
        }),
{
    let mut region_peers: Vec<Peer> = Vec::new();
    let mut i: usize = 0;
    while i < peers.len()
        invariant
            i <= peers@.len(),
            region_peers@.len() == i,
            forall|j: int| 0 <= j < i ==> #[trigger] region_peers@[j] == (Peer {
                id: peers@[j].1,
                store_id: peers@[j].0,
                role: PeerRole::Voter,
            }),
        decreases peers@.len() - i,
    {
        let (store_id, peer_id) = peers[i];
        region_peers.push(new_peer(store_id, peer_id));
        i = i + 1;
    }
    Region {
        id: region_id,
        start_key: Vec::new(),
        end_key: Vec::new(),
        region_epoch: RegionEpoch { conf_ver: INIT_EPOCH_CONF_VER, version: INIT_EPOCH_VER },
        peers: region_peers,
    }
}

} // verus!
