//! The gateway in front of a raft cluster: it keeps track of the leader,
//! probes the nodes in turn to find a new one, and resends a request until
//! an answer that is not a "not leader" error comes back.
use vstd::prelude::*;
use crate::errors::NotLeader;

verus! {

/// The leader that a cluster starts out with.
pub const INITIAL_LEADER: usize = 1;

/// What the gateway needs to know of a service's answer.
pub trait AbstractResponse {
    /// Whether the answer carries no error.
    spec fn is_success(&self) -> bool;

    /// Whether the answer carries no error.
    fn success(&self) -> (res: bool)
        ensures
            res == self.is_success();

    /// Whether the error the answer carries says the node is not the
    /// leader.
    spec fn is_not_leader_error(&self) -> bool;

    /// Whether the error the answer carries says the node is not the
    /// leader; asked only of an answer with an error.
    fn has_not_leader_error(&self) -> (res: bool)
        requires
            !self.is_success(),
        ensures
            res == self.is_not_leader_error();
}

/// Wraps a service's answer so that the gateway can inspect it.
pub struct ResponseWrapper<T>(pub T);

/// The kind of error a service answers with.
pub enum ResponseErrorKind {
    NotLeader(NotLeader),
    Other(String),
}

/// The error part of a service's answer.
pub struct ResponseError {
    pub error: Option<ResponseErrorKind>,
}

/// A service's answer, as far as the gateway reads it.
pub struct ServiceResponse {
    pub error: Option<ResponseError>,
}

impl AbstractResponse for ResponseWrapper<ServiceResponse> {
    open spec fn is_success(&self) -> bool {
        self.0.error is None
    }

    open spec fn is_not_leader_error(&self) -> bool {
        self.0.error matches Some(e) && e.error matches Some(ResponseErrorKind::NotLeader(_))
    }

    fn success(&self) -> (res: bool) {
        self.0.error.is_none()
    }

    fn has_not_leader_error(&self) -> (res: bool) {
        match &self.0.error {
            Some(e) => match &e.error {
                Some(ResponseErrorKind::NotLeader(_)) => true,
                _ => false,
            },
            None => false,
        }
    }
}

/// Whether the gateway hands an answer back to its caller: one without
/// error, or one whose error is not about leadership.
pub fn should_return<R: AbstractResponse>(resp: &R) -> (res: bool)
    ensures
        res == (resp.is_success() || !resp.is_not_leader_error()),
{
    resp.success() || !resp.has_not_leader_error()
}

/// What the gateway does after one try of a request.
#[derive(Clone, Copy, Debug, PartialEq, Eq, Structural)]
pub enum GatewayStep {
    /// Hand the answer back.
    Return,
    /// Wait, then ask again with the leader counter given.
    Retry { reset_leader_counter: usize },
}

/// The decision after one try: an answer that came back and should be
/// returned ends the request; otherwise the request is retried, asking for
/// a leader newer than the one just used.
pub fn gateway_step(got_answer: bool, answer_returnable: bool, reset_leader_counter: usize) -> (res: GatewayStep)
    requires
        reset_leader_counter < usize::MAX,
    ensures
        got_answer && answer_returnable ==> res == GatewayStep::Return,
        !(got_answer && answer_returnable) ==> res == (GatewayStep::Retry { reset_leader_counter: (reset_leader_counter + 1) as usize }),
{
    if got_answer && answer_returnable {
        GatewayStep::Return
    } else {
        GatewayStep::Retry { reset_leader_counter: reset_leader_counter + 1 }
    }
}

/// What the search for a leader does next.
#[derive(Clone, Copy, Debug, PartialEq, Eq, Structural)]
pub enum ProbeStep {
    /// Wait, then probe this node.
    Probe { node_id: usize },
    /// The leader is `leader_id`, as `probed_node` answered.
    Found { leader_id: usize, probed_node: usize },
}

/// What the gateway knows of the cluster's leader.
pub struct LeaderState<Node> {
    pub reset_leader_counter: usize,
    pub leader_node: Option<Node>,
    /// The node id of the leader, from 1.
    pub leader_id: usize,
    /// The node to probe first when looking for a leader.
    pub next_probe_node: usize,
}

/// The cluster as the gateway sees it: the address of each node, ordered
/// by node id, and what it knows of the leader.
pub struct RaftCluster<Node> {
    pub node_addresses: Vec<String>,
    pub inner: LeaderState<Node>,
}

/// The node probed after `node_id` failed: the next one, wrapping around.
pub open spec fn next_node(node_id: int, node_count: int) -> int {
    node_id % node_count + 1
}

impl<Node> RaftCluster<Node> {
    /// Whether the state fits the cluster: node ids run from 1 to the
    /// number of nodes.
    pub open spec fn wf(&self) -> bool {
        &&& self.node_addresses@.len() > 0
        &&& 1 <= self.inner.leader_id <= self.node_addresses@.len()
        &&& 1 <= self.inner.next_probe_node <= self.node_addresses@.len()
    }

    /// A cluster of the given nodes with no leader known yet.
    pub fn new(node_addresses: Vec<String>) -> (res: RaftCluster<Node>)
        requires
            node_addresses@.len() > 0,
        ensures
            res.wf(),
            res.node_addresses == node_addresses,
            res.inner.reset_leader_counter == 0,
            res.inner.leader_node is None,
            res.inner.leader_id == INITIAL_LEADER,
            res.inner.next_probe_node == INITIAL_LEADER,
    {
        RaftCluster {
            node_addresses,
            inner: LeaderState {
                reset_leader_counter: 0,
                leader_node: None,
                leader_id: INITIAL_LEADER,
                next_probe_node: INITIAL_LEADER,
            },
        }
    }

    /// The known leader, if the caller's counter is not newer than the
    /// cluster's and a leader is known; otherwise the counter moves on and
    /// a new leader must be looked for (`None`).
    pub fn get_or_reset_leader(&mut self, reset_leader_counter: usize) -> (res: Option<(&Node, usize)>)
        requires
            old(self).inner.reset_leader_counter < usize::MAX,
        ensures
            final(self).node_addresses == old(self).node_addresses,
            final(self).inner.leader_node == old(self).inner.leader_node,
            final(self).inner.leader_id == old(self).inner.leader_id,
            final(self).inner.next_probe_node == old(self).inner.next_probe_node,
            if reset_leader_counter <= old(self).inner.reset_leader_counter && old(self).inner.leader_node is Some {
                &&& res matches Some((n, c)) && Some(*n) == old(self).inner.leader_node && c == old(self).inner.reset_leader_counter
                &&& final(self).inner.reset_leader_counter == old(self).inner.reset_leader_counter
            } else {
                &&& res is None
                &&& final(self).inner.reset_leader_counter == old(self).inner.reset_leader_counter + 1
            },
    {
        if reset_leader_counter <= self.inner.reset_leader_counter && self.inner.leader_node.is_some() {
            let c = self.inner.reset_leader_counter;
            match &self.inner.leader_node {
                Some(n) => return Some((n, c)),
                None => {
                    assert(false);
                    return None;
                },
            }
        }
        self.inner.reset_leader_counter = self.inner.reset_leader_counter + 1;
        None
    }

    /// The node to probe after probing `node_id` failed.
    pub fn next_probe(&self, node_id: usize) -> (res: usize)
        requires
            self.wf(),
            1 <= node_id <= self.node_addresses@.len(),
        ensures
            res == next_node(node_id as int, self.node_addresses@.len() as int),
            1 <= res <= self.node_addresses@.len(),
    {
        node_id % self.node_addresses.len() + 1
    }

    /// The address of a node, by id.
    pub fn node_address(&self, node_id: usize) -> (res: &String)
        requires
            1 <= node_id <= self.node_addresses@.len(),
        ensures
            *res == self.node_addresses@[node_id - 1],
    {
        &self.node_addresses[node_id - 1]
    }

    /// The node the search for a leader starts at.
    pub fn probe_start(&self) -> (res: usize)
        ensures
            res == self.inner.next_probe_node,
    {
        self.inner.next_probe_node
    }

    /// The decision after probing `node_id` in the search for a leader: a
    /// leader id answered ends the search there; a failed probe moves on
    /// to the next node, wrapping around. A probe answers a node id of the
    /// cluster.
    pub fn reset_leader_step(&self, node_id: usize, answer: Option<usize>) -> (res: ProbeStep)
        requires
            self.wf(),
            1 <= node_id <= self.node_addresses@.len(),
            answer matches Some(l) ==> 1 <= l <= self.node_addresses@.len(),
        ensures
            match answer {
                Some(l) => res == (ProbeStep::Found { leader_id: l, probed_node: node_id }),
                None => res == (ProbeStep::Probe { node_id: next_node(node_id as int, self.node_addresses@.len() as int) as usize }),
            },
    {
        match answer {
            Some(l) => ProbeStep::Found { leader_id: l, probed_node: node_id },
            None => ProbeStep::Probe { node_id: self.next_probe(node_id) },
        }
    }

    /// Records the leader found by probing `probed_node`, which is also
    /// where the next search starts. A probe answers a node id of the
    /// cluster.
    pub fn record_leader(&mut self, leader_node: Node, leader_id: usize, probed_node: usize) -> (res: usize)
        requires
            old(self).wf(),
            1 <= leader_id <= old(self).node_addresses@.len(),
            1 <= probed_node <= old(self).node_addresses@.len(),
        ensures
            final(self).wf(),
            final(self).node_addresses == old(self).node_addresses,
            final(self).inner.leader_node == Some(leader_node),
            final(self).inner.leader_id == leader_id,
            final(self).inner.next_probe_node == probed_node,
            final(self).inner.reset_leader_counter == old(self).inner.reset_leader_counter,
            res == old(self).inner.reset_leader_counter,
    {
        self.inner.leader_node = Some(leader_node);
        self.inner.leader_id = leader_id;
        self.inner.next_probe_node = probed_node;
        self.inner.reset_leader_counter
    }
}

/// What a probe of a node answered: the id of the leader it knows, if it
/// knows one (an id of 0 means none).
pub fn probe_result(leader_peer_id: Option<u64>) -> (res: Option<usize>)
    ensures
        match leader_peer_id {
            Some(id) => if 0 < id && id <= usize::MAX { res == Some(id as usize) } else { res is None },
            None => res is None,
        },
{
    match leader_peer_id {
        Some(id) => {
            if id > 0 && id <= usize::MAX as u64 {
                Some(id as usize)
            } else {
                None
            }
        },
        None => None,
    }
}

/// Whether a leader id answered by a probe is a node of the cluster.
pub fn leader_id_in_cluster(leader_id: usize, node_count: usize) -> (res: bool)
    ensures
        res == (1 <= leader_id <= node_count),
{
    leader_id != 0 && leader_id <= node_count
}

/// Whether a character has the Unicode White_Space property.
pub open spec fn is_white_space(c: char) -> bool {
    ||| '\u{9}' <= c <= '\u{D}'
    ||| c == ' '
    ||| c == '\u{85}'
    ||| c == '\u{A0}'
    ||| c == '\u{1680}'
    ||| '\u{2000}' <= c <= '\u{200A}'
    ||| c == '\u{2028}'
    ||| c == '\u{2029}'
    ||| c == '\u{202F}'
    ||| c == '\u{205F}'
    ||| c == '\u{3000}'
}

/// The text without its leading white space.
pub open spec fn trim_start_spec(s: Seq<char>) -> Seq<char>
    decreases s.len(),
{
    if s.len() > 0 && is_white_space(s[0]) {
        trim_start_spec(s.drop_first())
    } else {
        s
    }
}

/// The text without its trailing white space.
pub open spec fn trim_end_spec(s: Seq<char>) -> Seq<char>
    decreases s.len(),
{
    if s.len() > 0 && is_white_space(s.last()) {
        trim_end_spec(s.drop_last())
    } else {
        s
    }
}

/// The text without leading and trailing white space.
pub open spec fn trim_spec(s: Seq<char>) -> Seq<char> {
    trim_end_spec(trim_start_spec(s))
}

/// The pieces of the text between the separators, in order; there is one
/// more piece than separators.
pub open spec fn split_spec(s: Seq<char>, sep: char) -> Seq<Seq<char>>
    decreases s.len(),
{
    if s.len() == 0 {
        seq![Seq::<char>::empty()]
    } else {
        let rest = split_spec(s.drop_first(), sep);
        if s[0] == sep {
            seq![Seq::<char>::empty()] + rest
        } else {
            rest.update(0, seq![s[0]] + rest[0])
        }
    }
}

/// The text of each piece.
pub open spec fn str_views(v: Seq<&str>) -> Seq<Seq<char>> {
    v.map_values(|p: &str| p@)
}

/// The text without leading and trailing white space (`str::trim`).
#[verifier::external_body]
fn str_trim(s: &str) -> (res: &str)
    ensures
        res@ == trim_spec(s@),
{
    s.trim()
}

/// The pieces of the text between commas (`str::split`, collected).
#[verifier::external_body]
fn str_split_commas(s: &str) -> (res: Vec<&str>)
    ensures
        str_views(res@) == split_spec(s@, ','),
{
    s.split(',').collect()
}

impl<Node> RaftCluster<Node> {
    /// The node addresses in a comma-separated list, each without white
    /// space around it.
    pub fn parse_address(address_str: &str) -> (res: Vec<String>)
        ensures
            res@.map_values(|a: String| a@) == split_spec(trim_spec(address_str@), ',').map_values(|p: Seq<char>| trim_spec(p)),
    {
        let trimmed = str_trim(address_str);
        let pieces = str_split_commas(trimmed);
        let ghost all = split_spec(trimmed@, ',');
        let mut out: Vec<String> = Vec::new();
        let n = pieces.len();
        let mut i: usize = 0;
        while i < n
            invariant
                n == pieces@.len(),
                i <= n,
                str_views(pieces@) == all,
                all == split_spec(trim_spec(address_str@), ','),
                out@.map_values(|a: String| a@) == all.subrange(0, i as int).map_values(|p: Seq<char>| trim_spec(p)),
            decreases n - i,
        {
            let piece = str_trim(pieces[i]);
            let owned = piece.to_owned();
            let ghost before = out@;
            out.push(owned);
            proof {
                assert(pieces@[i as int]@ == all[i as int]);
                assert(out@.map_values(|a: String| a@) =~= before.map_values(|a: String| a@).push(trim_spec(all[i as int])));
                assert(all.subrange(0, i + 1).map_values(|p: Seq<char>| trim_spec(p)) =~= all.subrange(0, i as int).map_values(|p: Seq<char>| trim_spec(p)).push(trim_spec(all[i as int])));
            }
            i = i + 1;
        }
        assert(all.subrange(0, n as int) =~= all);
        out
    }
}

} // verus!
