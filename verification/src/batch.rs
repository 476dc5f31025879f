//! Batching of write commands: small writes with the same header are put
//! together into one command, whose reply is split back among the writers.
use vstd::prelude::*;
use crate::msg::{Callback, RaftCommand, copy_response_header, copy_responses, reply_target};
use crate::raft_cmd::{CmdType, RaftCmdRequest, RaftCmdRequestView, RaftCmdResponse, RequestView, requests_view};

verus! {

/// A batch is cut once it holds more requests than this.
pub const MAX_BATCH_REQUESTS: usize = 256;

/// Gathers write commands into one.
pub struct BatchRaftCmdRequestBuilder {
    /// The largest entry raft accepts, in bytes.
    pub raft_entry_max_size: u64,
    /// The total size of the commands gathered.
    pub batch_req_size: u32,
    /// The command gathered so far.
    pub request: Option<RaftCmdRequest>,
    /// Who waits for each command gathered, with its number of requests.
    pub callbacks: Vec<(Callback, usize)>,
}

/// Whether every request is a queue message.
pub open spec fn all_queue_writes(reqs: Seq<RequestView>) -> bool {
    forall|i: int| 0 <= i < reqs.len() ==> (#[trigger] reqs[i]).cmd_type == CmdType::MessageQueue
}

/// The ids that receive a part of a batch's reply, each with its number
/// of requests.
pub open spec fn batch_parts(cbs: Seq<(Callback, usize)>) -> Seq<(Option<u64>, usize)> {
    cbs.map_values(|c: (Callback, usize)| (reply_target(c.0), c.1))
}

/// The ids told when a batch is proposed, in order.
pub open spec fn batch_proposed(cbs: Seq<(Callback, usize)>) -> Seq<u64>
    decreases cbs.len(),
{
    if cbs.len() == 0 {
        Seq::empty()
    } else {
        batch_proposed(cbs.drop_last()) + match cbs.last().0 {
            Callback::Write { proposed_cb: Some(p), .. } => seq![p],
            _ => Seq::empty(),
        }
    }
}

/// The ids told when a batch is committed, in order.
pub open spec fn batch_committed(cbs: Seq<(Callback, usize)>) -> Seq<u64>
    decreases cbs.len(),
{
    if cbs.len() == 0 {
        Seq::empty()
    } else {
        batch_committed(cbs.drop_last()) + match cbs.last().0 {
            Callback::Write { committed_cb: Some(c), .. } => seq![c],
            _ => Seq::empty(),
        }
    }
}

/// The view of the command gathered so far, if any.
pub open spec fn gathered(r: Option<RaftCmdRequest>) -> Option<RaftCmdRequestView> {
    match r {
        Some(x) => Some(x@),
        None => None,
    }
}

/// What adding a command does to the command gathered and the callbacks:
/// the first command is taken whole, a later one adds its requests; its
/// callback waits with its number of requests.
pub open spec fn add_step(
    st: (Option<RaftCmdRequestView>, Seq<(Callback, usize)>),
    req: RaftCmdRequestView,
    cb: Callback,
) -> (Option<RaftCmdRequestView>, Seq<(Callback, usize)>) {
    (
        match st.0 {
            None => Some(req),
            Some(b) => Some(RaftCmdRequestView { requests: b.requests + req.requests, ..b }),
        },
        st.1.push((cb, req.requests.len() as usize)),
    )
}

/// What adding the commands `cmds` in order does.
pub open spec fn add_all(
    st: (Option<RaftCmdRequestView>, Seq<(Callback, usize)>),
    cmds: Seq<(RaftCmdRequestView, Callback)>,
) -> (Option<RaftCmdRequestView>, Seq<(Callback, usize)>)
    decreases cmds.len(),
{
    if cmds.len() == 0 {
        st
    } else {
        add_step(add_all(st, cmds.drop_last()), cmds.last().0, cmds.last().1)
    }
}

/// The requests of the commands, in order.
pub open spec fn all_requests(cmds: Seq<(RaftCmdRequestView, Callback)>) -> Seq<RequestView>
    decreases cmds.len(),
{
    if cmds.len() == 0 {
        Seq::empty()
    } else {
        all_requests(cmds.drop_last()) + cmds.last().0.requests
    }
}

impl BatchRaftCmdRequestBuilder {
    /// An empty builder for entries of at most `raft_entry_max_size` bytes.
    pub fn new(raft_entry_max_size: u64) -> (res: BatchRaftCmdRequestBuilder)
        ensures
            res.raft_entry_max_size == raft_entry_max_size,
            res.batch_req_size == 0,
            res.request is None,
            res.callbacks@.len() == 0,
    {
        BatchRaftCmdRequestBuilder { raft_entry_max_size, batch_req_size: 0, request: None, callbacks: Vec::new() }
    }

    /// Whether a command can join the batch: it holds only queue writes,
    /// at least one, it is no larger than a fifth of the largest entry, and
    /// its header is the batch's.
    pub fn can_batch(&self, req: &RaftCmdRequest, req_size: u32) -> (res: bool)
        ensures
            res == ({
                &&& req.requests@.len() > 0
                &&& req_size * 5 <= self.raft_entry_max_size
                &&& all_queue_writes(req@.requests)
                &&& (self.request matches Some(b) ==> b.header@ == req.header@)
            }),
    {
        if req.requests.len() == 0 || req_size as u128 * 5 > self.raft_entry_max_size as u128 {
            return false;
        }
        let n = req.requests.len();
        let mut i: usize = 0;
        while i < n
            invariant
                n == req.requests@.len(),
                i <= n,
                forall|j: int| 0 <= j < i ==> (#[trigger] req@.requests[j]).cmd_type == CmdType::MessageQueue,
            decreases n - i,
        {
            match req.requests[i].cmd_type {
                CmdType::MessageQueue => {},
                _ => {
                    assert(req@.requests[i as int].cmd_type != CmdType::MessageQueue);
                    return false;
                },
            }
            i = i + 1;
        }
        match &self.request {
            Some(batch_req) => {
                if !batch_req.header.same_as(&req.header) {
                    return false;
                }
            },
            None => {},
        }
        true
    }

    /// Adds a command to the batch: its requests join those gathered, and
    /// its callback waits for its share of the reply.
    pub fn add(&mut self, cmd: RaftCommand, req_size: u32)
        requires
            old(self).batch_req_size + req_size <= u32::MAX,
        ensures
            final(self).raft_entry_max_size == old(self).raft_entry_max_size,
            final(self).batch_req_size == old(self).batch_req_size + req_size,
            final(self).callbacks@ == old(self).callbacks@.push((cmd.callback, cmd.request.requests@.len() as usize)),
            (gathered(final(self).request), final(self).callbacks@)
                == add_step((gathered(old(self).request), old(self).callbacks@), cmd.request@, cmd.callback),
            match old(self).request {
                None => final(self).request == Some(cmd.request),
                Some(b) => final(self).request matches Some(nb) && nb@ == (RaftCmdRequestView {
                    requests: b@.requests + cmd.request@.requests,
                    ..b@
                }),
            },
    {
        let req_num = cmd.request.requests.len();
        let RaftCommand { request, callback } = cmd;
        let mut request = request;
        match self.request.take() {
            Some(mut batch_req) => {
                let ghost b0 = batch_req@;
                let mut requests: Vec<crate::raft_cmd::Request> = Vec::new();
                std::mem::swap(&mut requests, &mut request.requests);
                let ghost added = requests@;
                let mut k: usize = 0;
                let n = requests.len();
                let mut rest = requests;
                while k < n
                    invariant
                        n == added.len(),
                        k <= n,
                        rest@ == added.subrange(k as int, n as int),
                        batch_req@ == (RaftCmdRequestView {
                            requests: b0.requests + requests_view(added.subrange(0, k as int)),
                            ..b0
                        }),
                    decreases n - k,
                {
                    let q = rest.remove(0);
                    let ghost before = batch_req.requests@;
                    batch_req.requests.push(q);
                    proof {
                        assert(added.subrange(0, k + 1) =~= added.subrange(0, k as int).push(added[k as int]));
                        assert(requests_view(batch_req.requests@) =~= requests_view(before).push(added[k as int]@));
                        assert(requests_view(added.subrange(0, k + 1)) =~= requests_view(added.subrange(0, k as int)).push(added[k as int]@));
                    }
                    k = k + 1;
                }
                assert(added.subrange(0, n as int) =~= added);
                self.request = Some(batch_req);
            },
            None => {
                self.request = Some(request);
            },
        }
        self.callbacks.push((callback, req_num));
        self.batch_req_size = self.batch_req_size + req_size;
    }

    /// Whether the batch should be proposed now: it is larger than two
    /// fifths of the largest entry, or holds too many requests.
    pub fn should_finish(&self) -> (res: bool)
        ensures
            res == (self.request matches Some(b) && (self.batch_req_size * 5 > self.raft_entry_max_size * 2
                || b.requests@.len() > MAX_BATCH_REQUESTS)),
    {
        match &self.request {
            Some(batch_req) => {
                if self.batch_req_size as u128 * 5 > self.raft_entry_max_size as u128 * 2 {
                    return true;
                }
                if batch_req.requests.len() > MAX_BATCH_REQUESTS {
                    return true;
                }
                false
            },
            None => false,
        }
    }

    /// Takes the batch out as one command. A batch of one command keeps its
    /// callback; otherwise the callback splits the reply among the writers
    /// and tells those waiting for the proposal and the commit.
    pub fn build(&mut self) -> (res: Option<RaftCommand>)
        ensures
            final(self).raft_entry_max_size == old(self).raft_entry_max_size,
            match old(self).request {
                None => res is None && *final(self) == *old(self),
                Some(req) => {
                    &&& final(self).request is None
                    &&& final(self).batch_req_size == 0
                    &&& final(self).callbacks@.len() == 0
                    &&& res matches Some(cmd) && cmd.request == req && if old(self).callbacks@.len() == 1 {
                        cmd.callback == old(self).callbacks@[0].0
                    } else {
                        cmd.callback matches Callback::BatchWrite { parts, proposed_cbs, committed_cbs }
                            && parts@ == batch_parts(old(self).callbacks@)
                            && proposed_cbs@ == batch_proposed(old(self).callbacks@)
                            && committed_cbs@ == batch_committed(old(self).callbacks@)
                    }
                },
            },
    {
        match self.request.take() {
            None => None,
            Some(req) => {
                self.batch_req_size = 0;
                if self.callbacks.len() == 1 {
                    let (cb, _) = self.callbacks.pop().unwrap();
                    return Some(RaftCommand::new(req, cb));
                }
                let mut cbs: Vec<(Callback, usize)> = Vec::new();
                std::mem::swap(&mut cbs, &mut self.callbacks);
                let ghost all = cbs@;
                let mut parts: Vec<(Option<u64>, usize)> = Vec::new();
                let mut proposed_cbs: Vec<u64> = Vec::new();
                let mut committed_cbs: Vec<u64> = Vec::new();
                let n = cbs.len();
                let mut i: usize = 0;
                while i < n
                    invariant
                        n == all.len(),
                        cbs@ == all,
                        i <= n,
                        parts@ == batch_parts(all.subrange(0, i as int)),
                        proposed_cbs@ == batch_proposed(all.subrange(0, i as int)),
                        committed_cbs@ == batch_committed(all.subrange(0, i as int)),
                    decreases n - i,
                {
                    let ghost pre = all.subrange(0, i as int);
                    let ghost pre1 = all.subrange(0, i + 1);
                    proof {
                        assert(pre1.drop_last() =~= pre);
                        assert(pre1.last() == all[i as int]);
                    }
                    let (cb, num) = (&cbs[i].0, cbs[i].1);
                    parts.push((cb.target(), num));
                    match cb {
                        Callback::Write { proposed_cb, committed_cb, .. } => {
                            match proposed_cb {
                                Some(p) => proposed_cbs.push(*p),
                                None => {},
                            }
                            match committed_cb {
                                Some(c) => committed_cbs.push(*c),
                                None => {},
                            }
                        },
                        _ => {},
                    }
                    proof {
                        assert(parts@ =~= batch_parts(pre1));
                        assert(proposed_cbs@ =~= batch_proposed(pre1));
                        assert(committed_cbs@ =~= batch_committed(pre1));
                    }
                    i = i + 1;
                }
                assert(all.subrange(0, n as int) =~= all);
                Some(RaftCommand::new(req, Callback::BatchWrite { parts, proposed_cbs, committed_cbs }))
            },
        }
    }
}

impl BatchRaftCmdRequestBuilder {
    /// Takes a command in: one that can join the batch does, and the batch
    /// is proposed once it should finish; any other command is proposed on
    /// its own, after the batch gathered so far. Gives the commands to
    /// propose now, in order.
    pub fn batch_or_propose(&mut self, cmd: RaftCommand, req_size: u32) -> (res: Vec<RaftCommand>)
        requires
            old(self).batch_req_size + req_size <= u32::MAX,
        ensures
            final(self).raft_entry_max_size == old(self).raft_entry_max_size,
            ({
                let joins = cmd.request.requests@.len() > 0 && req_size * 5 <= old(self).raft_entry_max_size
                    && all_queue_writes(cmd.request@.requests)
                    && (old(self).request matches Some(b) ==> b.header@ == cmd.request.header@);
                if joins {
                    &&& final(self).request is None ==> res@.len() == 1
                    &&& final(self).request is Some ==> res@.len() == 0 && final(self).callbacks@ == old(self).callbacks@.push((cmd.callback, cmd.request.requests@.len() as usize))
                } else {
                    &&& final(self).request is None
                    &&& final(self).batch_req_size == (if old(self).request is Some { 0 } else { old(self).batch_req_size })
                    &&& res@.len() == (if old(self).request is Some { 2nat } else { 1nat })
                    &&& res@.last().request == cmd.request
                    &&& res@.last().callback == cmd.callback
                    &&& (old(self).request matches Some(b) ==> res@[0].request == b)
                }
            }),
    {
        let mut out: Vec<RaftCommand> = Vec::new();
        let req_size_ok = self.can_batch(&cmd.request, req_size);
        if req_size_ok {
            self.add(cmd, req_size);
            if self.should_finish() {
                match self.build() {
                    Some(c) => out.push(c),
                    None => {},
                }
            }
        } else {
            match self.build() {
                Some(c) => out.push(c),
                None => {},
            }
            out.push(cmd);
        }
        out
    }
}

/// Where the share of part `k` of a batch starts: the requests of the
/// parts before it.
pub open spec fn part_offset(parts: Seq<(Option<u64>, usize)>, k: int) -> int
    decreases k,
{
    if k <= 0 {
        0
    } else {
        part_offset(parts, k - 1) + parts[k - 1].1
    }
}

/// The share of a batch's reply that part `k` receives: the reply's header,
/// and, when the reply carries no error, its responses for the part's
/// requests.
pub open spec fn part_reply_fits(
    resp: RaftCmdResponse,
    parts: Seq<(Option<u64>, usize)>,
    k: int,
    share: RaftCmdResponse,
) -> bool {
    &&& share.header.error == resp.header.error
    &&& share.header.uuid@ == resp.header.uuid@
    &&& share.header.current_term == resp.header.current_term
    &&& share.admin_response is None
    &&& share.status_response is None
    &&& if resp.header.error is None {
        share.responses@ == resp.responses@.subrange(part_offset(parts, k), part_offset(parts, k) + parts[k].1)
    } else {
        share.responses@.len() == 0
    }
}

/// Splits the reply to a batch among its parts, in order. A reply without
/// error must hold a response for every request of the batch.
pub fn split_batch_response(resp: &RaftCmdResponse, parts: &Vec<(Option<u64>, usize)>) -> (res: Vec<(Option<u64>, RaftCmdResponse)>)
    requires
        resp.header.error is None ==> part_offset(parts@, parts@.len() as int) <= resp.responses@.len(),
    ensures
        res@.len() == parts@.len(),
        forall|k: int| 0 <= k < parts@.len() ==> (#[trigger] res@[k]).0 == parts@[k].0 && part_reply_fits(
            *resp,
            parts@,
            k,
            res@[k].1,
        ),
{
    let has_error = resp.header.error.is_some();
    let total = resp.responses.len();
    let mut out: Vec<(Option<u64>, RaftCmdResponse)> = Vec::new();
    let mut last_index: usize = 0;
    let n = parts.len();
    let mut i: usize = 0;
    proof {
        lemma_part_offset_monotone(parts@);
    }
    while i < n
        invariant
            n == parts@.len(),
            i <= n,
            has_error == resp.header.error is Some,
            total == resp.responses@.len(),
            !has_error ==> part_offset(parts@, n as int) <= resp.responses@.len(),
            forall|a: int, b: int| 0 <= a <= b <= n ==> part_offset(parts@, a) <= part_offset(parts@, b),
            !has_error ==> last_index == part_offset(parts@, i as int),
            out@.len() == i,
            forall|k: int| 0 <= k < i ==> (#[trigger] out@[k]).0 == parts@[k].0 && part_reply_fits(
                *resp,
                parts@,
                k,
                out@[k].1,
            ),
        decreases n - i,
    {
        let (target, req_num) = parts[i];
        let header = copy_response_header(&resp.header);
        let mut cmd_resp = RaftCmdResponse { header, responses: Vec::new(), admin_response: None, status_response: None };
        assert(req_num == parts@[i as int].1 && target == parts@[i as int].0);
        if !has_error {
            assert(part_offset(parts@, i + 1) == part_offset(parts@, i as int) + req_num);
            assert(part_offset(parts@, i + 1) <= part_offset(parts@, n as int));
            let next_index = last_index + req_num;
            cmd_resp.responses = copy_responses(&resp.responses, last_index, next_index);
            last_index = next_index;
        }
        out.push((target, cmd_resp));
        i = i + 1;
    }
    out
}

/// Offsets grow with the part.
proof fn lemma_part_offset_monotone(parts: Seq<(Option<u64>, usize)>)
    ensures
        forall|a: int, b: int| 0 <= a <= b <= parts.len() ==> part_offset(parts, a) <= part_offset(parts, b),
{
    assert forall|a: int, b: int| 0 <= a <= b <= parts.len() implies part_offset(parts, a) <= part_offset(parts, b) by {
        lemma_part_offset_step(parts, a, b);
    }
}

proof fn lemma_part_offset_step(parts: Seq<(Option<u64>, usize)>, a: int, b: int)
    requires
        0 <= a <= b <= parts.len(),
    ensures
        part_offset(parts, a) <= part_offset(parts, b),
    decreases b - a,
{
    if a < b {
        lemma_part_offset_step(parts, a, b - 1);
    }
}

} // verus!
