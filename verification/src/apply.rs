//! The apply side of a region peer: it applies committed log entries in
//! order, answers the proposals waiting for them, and executes admin
//! commands such as log compaction.
use vstd::prelude::*;
use vstd::string::StringExecFns;
use crate::engine::{KvEngine, KvWriteBatch, KvWriteOp, apply_kv_ops};
use crate::entry::{Entry, EntryType, EntryView, cmd_view, entries_view};
use crate::errors::{Error, errorpb_fields_of, wrapped};
use crate::text::quoted;
use crate::metapb::Region;
use crate::raft_cmd::{
    AdminCmdType, AdminRequest, AdminResponse, CmdType, MessageQueueResponse, RaftCmdRequest,
    RaftCmdRequestView, RaftCmdResponse, RaftResponseHeader, Response, bind_term, err_resp,
    new_error,
};
use crate::metapb::copy_bytes;
use crate::raft_state::{RaftApplyState, RaftTruncatedState};
use crate::proposal::Proposal;

verus! {

/// A proposed command waiting to be applied, with the id of the callback
/// that must be answered.
#[derive(Clone, Copy, Debug, PartialEq, Eq, Structural)]
pub struct PendingCmd {
    pub index: u64,
    pub term: u64,
    pub cb: u64,
}

/// `(term, index)` of `c` is at most `(t, i)`, terms compared first.
pub open spec fn cmd_le(c: PendingCmd, t: u64, i: u64) -> bool {
    c.term < t || (c.term == t && c.index <= i)
}

/// Commands waiting to be committed and applied, oldest first.
pub struct PendingCmdQueue {
    pub normals: Vec<PendingCmd>,
}

impl PendingCmdQueue {
    /// An empty queue.
    pub fn new() -> (q: PendingCmdQueue)
        ensures
            q.normals@.len() == 0,
    {
        PendingCmdQueue { normals: Vec::new() }
    }

    /// Pops the oldest command if it is at or before `(term, index)`.
    pub fn pop_normal(&mut self, index: u64, term: u64) -> (res: Option<PendingCmd>)
        ensures
            if old(self).normals@.len() > 0 && cmd_le(old(self).normals@[0], term, index) {
                res == Some(old(self).normals@[0]) && final(self).normals@ == old(self).normals@.drop_first()
            } else {
                res is None && final(self).normals@ == old(self).normals@
            },
    {
        if self.normals.len() == 0 {
            return None;
        }
        let front = self.normals[0];
        if front.term > term || (front.term == term && front.index > index) {
            return None;
        }
        let c = self.normals.remove(0);
        assert(self.normals@ =~= old(self).normals@.drop_first());
        Some(c)
    }

    /// Appends a newer command.
    pub fn append_normal(&mut self, cmd: PendingCmd)
        ensures
            final(self).normals@ == old(self).normals@.push(cmd),
    {
        self.normals.push(cmd);
    }
}

/// Looking for the command of entry `(term, index)` in queue `q`: how many
/// commands are taken off the front, whether the last of them is the one
/// looked for, and whether no command of the same term but another index
/// came first (which would mean a lost proposal).
pub open spec fn find_pending_run(q: Seq<PendingCmd>, index: u64, term: u64) -> (nat, bool, bool)
    decreases q.len(),
{
    if q.len() == 0 || !cmd_le(q[0], term, index) {
        (0, false, true)
    } else if q[0].term == term {
        if q[0].index == index {
            (1, true, true)
        } else {
            (1, false, false)
        }
    } else {
        let r = find_pending_run(q.drop_first(), index, term);
        ((r.0 + 1) as nat, r.1, r.2)
    }
}

/// The number of commands at the front of `q` from terms before `term`.
pub open spec fn stale_prefix(q: Seq<PendingCmd>, term: u64) -> nat
    decreases q.len(),
{
    if q.len() == 0 || q[0].term >= term {
        0
    } else {
        (stale_prefix(q.drop_first(), term) + 1) as nat
    }
}

/// What an apply answers a callback with.
pub enum Reply {
    /// Command `cmd` was applied at `index` on apply state `state`.
    Applied { index: u64, cmd: RaftCmdRequestView, state: RaftApplyState },
    /// The command became stale; the reply carries this term.
    Stale(u64),
}

/// The callbacks answered stale when the first `n` commands of `q` are dropped.
pub open spec fn stale_replies(q: Seq<PendingCmd>, n: nat, term: u64) -> Seq<(u64, Reply)> {
    Seq::new(n, |k: int| (q[k].cb, Reply::Stale(term)))
}

/// The result of executing a command, for the peer to act on.
#[derive(Clone, Copy, Debug, PartialEq, Eq, Structural)]
pub enum ExecResult {
    CompactLog { state: RaftTruncatedState, first_index: u64 },
}

/// Whether executing a command produced a result for the peer.
#[derive(Clone, Copy, Debug, PartialEq, Eq, Structural)]
pub enum ApplyResult {
    NoResult,
    Res(ExecResult),
}

/// The error of a compaction that is not allowed.
pub open spec fn compact_error(state: RaftApplyState, compact_index: u64) -> bool {
    compact_index <= state.truncated_state.index || compact_index > state.applied_index
}

/// The message of a refused compaction.
pub open spec fn compact_error_text(state: RaftApplyState, compact_index: u64) -> Seq<char> {
    if compact_index <= state.truncated_state.index {
        "try to truncate compacted entries"@
    } else {
        "compact index > applied index"@
    }
}

/// Moves the truncated state of `state` to `(compact_index, compact_term)`.
/// The entries themselves are deleted later, by the log collector.
pub fn compact_raft_log(state: &mut RaftApplyState, compact_index: u64, compact_term: u64) -> (res:
    Result<(), Error>)
    ensures
        res is Err <==> compact_error(*old(state), compact_index),
        res matches Err(e) ==> e matches Error::Other(m) && m@ == compact_error_text(*old(state), compact_index),
        res is Err ==> *final(state) == *old(state),
        res is Ok ==> *final(state) == (RaftApplyState {
            truncated_state: RaftTruncatedState { index: compact_index, term: compact_term },
            ..*old(state)
        }),
{
    if compact_index <= state.truncated_state.index {
        return Err(Error::Other(String::from_str("try to truncate compacted entries")));
    } else if compact_index > state.applied_index {
        return Err(Error::Other(String::from_str("compact index > applied index")));
    }
    state.truncated_state.index = compact_index;
    state.truncated_state.term = compact_term;
    Ok(())
}

/// Executes a log compaction request against `apply_state`: nothing to do
/// when it does not go past the first index; an error for a request without
/// a term or one that `compact_raft_log` refuses; otherwise the truncated
/// state moves and the peer is told the old first index.
pub fn exec_compact_log(apply_state: &mut RaftApplyState, req: &AdminRequest) -> (res: Result<
    (AdminResponse, ApplyResult),
    Error,
>)
    requires
        old(apply_state).truncated_state.index < u64::MAX,
    ensures
        ({
            let ci = req.compact_log.compact_index;
            let ct = req.compact_log.compact_term;
            let first = old(apply_state).truncated_state.index + 1;
            if ci <= first {
                res == Ok::<(AdminResponse, ApplyResult), Error>(
                    (AdminResponse { cmd_type: AdminCmdType::InvalidAdmin }, ApplyResult::NoResult),
                ) && *final(apply_state) == *old(apply_state)
            } else if ct == 0 || compact_error(*old(apply_state), ci) {
                res matches Err(e) && e matches Error::Other(m) && m@ == (if ct == 0 {
                    "command format is outdated, please upgrade leader"@
                } else {
                    compact_error_text(*old(apply_state), ci)
                }) && *final(apply_state) == *old(apply_state)
            } else {
                &&& *final(apply_state) == (RaftApplyState {
                    truncated_state: RaftTruncatedState { index: ci, term: ct },
                    ..*old(apply_state)
                })
                &&& res == Ok::<(AdminResponse, ApplyResult), Error>(
                    (
                        AdminResponse { cmd_type: AdminCmdType::InvalidAdmin },
                        ApplyResult::Res(
                            ExecResult::CompactLog {
                                state: RaftTruncatedState { index: ci, term: ct },
                                first_index: first as u64,
                            },
                        ),
                    ),
                )
            }
        }),
{
    let compact_index = req.compact_log.compact_index;
    let resp = AdminResponse { cmd_type: AdminCmdType::InvalidAdmin };
    let first_index = crate::raft_state::first_index(apply_state);
    if compact_index <= first_index {
        return Ok((resp, ApplyResult::NoResult));
    }
    let compact_term = req.compact_log.compact_term;
    if compact_term == 0 {
        return Err(Error::Other(String::from_str("command format is outdated, please upgrade leader")));
    }
    match compact_raft_log(apply_state, compact_index, compact_term) {
        Ok(()) => {},
        Err(e) => {
            return Err(e);
        },
    }
    Ok(
        (
            resp,
            ApplyResult::Res(
                ExecResult::CompactLog { state: apply_state.truncated_state, first_index },
            ),
        ),
    )
}

/// Executes an admin command against `apply_state`: compaction is executed,
/// any other admin command is refused. The reply carries the command type
/// and the uuid of the request.
pub fn exec_admin_cmd(apply_state: &mut RaftApplyState, req: &RaftCmdRequest) -> (res: Result<
    (RaftCmdResponse, ApplyResult),
    Error,
>)
    requires
        old(apply_state).truncated_state.index < u64::MAX,
        req.admin_request is Some,
    ensures
        ({
            let admin = req.admin_request->0;
            match admin.cmd_type {
                AdminCmdType::InvalidAdmin => res matches Err(e) && e matches Error::Other(m)
                    && m@ == admin_error_text(*old(apply_state), admin) && *final(apply_state) == *old(apply_state),
                AdminCmdType::CompactLog => {
                    let mut s = *old(apply_state);
                    match res {
                        Ok((resp, r)) => {
                            &&& exec_compact_log_ok(*old(apply_state), admin, *final(apply_state), r)
                            &&& resp.header.error is None
                            &&& resp.header.current_term == 0
                            &&& resp.header.uuid@ == req.header.uuid@
                            &&& resp.responses@.len() == 0
                            &&& resp.admin_response == Some(AdminResponse { cmd_type: AdminCmdType::CompactLog })
                            &&& resp.status_response is None
                        },
                        Err(e) => e matches Error::Other(m) && m@ == admin_error_text(*old(apply_state), admin)
                            && *final(apply_state) == *old(apply_state) && exec_compact_log_fails(*old(apply_state), admin),
                    }
                },
            }
        }),
{
    let request = req.admin_request.unwrap();
    let cmd_type = request.cmd_type;
    let r = match cmd_type {
        AdminCmdType::CompactLog => exec_compact_log(apply_state, &request),
        AdminCmdType::InvalidAdmin => Err(Error::Other(String::from_str("unsupported admin command type"))),
    };
    let (mut response, exec_result) = match r {
        Ok(x) => x,
        Err(e) => {
            return Err(e);
        },
    };
    response.cmd_type = cmd_type;
    let mut resp = RaftCmdResponse::new();
    resp.header.uuid = copy_bytes(&req.header.uuid);
    resp.admin_response = Some(response);
    Ok((resp, exec_result))
}

/// The message an admin command is refused with on `state`, where it is.
pub open spec fn admin_error_text(state: RaftApplyState, admin: AdminRequest) -> Seq<char> {
    match admin.cmd_type {
        AdminCmdType::InvalidAdmin => "unsupported admin command type"@,
        AdminCmdType::CompactLog => if admin.compact_log.compact_term == 0 {
            "command format is outdated, please upgrade leader"@
        } else {
            compact_error_text(state, admin.compact_log.compact_index)
        },
    }
}

/// The reply that carries only the error `Other(msg)` (and a term).
pub open spec fn other_error_reply(resp: RaftCmdResponse, msg: Seq<char>) -> bool {
    &&& resp.header.error matches Some(pb) && pb.message@ == wrapped("Other"@, quoted(msg))
        && pb.not_leader is None && pb.region_not_found is None && pb.raft_entry_too_large is None
        && pb.store_not_match is None && !pb.stale_command && pb.region_not_initialized is None
    &&& resp.header.uuid@.len() == 0
    &&& resp.responses@.len() == 0
    &&& resp.admin_response is None
    &&& resp.status_response is None
}

/// `exec_compact_log` refuses `admin` on `state`.
pub open spec fn exec_compact_log_fails(state: RaftApplyState, admin: AdminRequest) -> bool {
    let ci = admin.compact_log.compact_index;
    let ct = admin.compact_log.compact_term;
    ci > state.truncated_state.index + 1 && (ct == 0 || compact_error(state, ci))
}

/// `exec_compact_log` accepts `admin` on `state`, leaving `new_state` and result `r`.
pub open spec fn exec_compact_log_ok(state: RaftApplyState, admin: AdminRequest, new_state: RaftApplyState, r: ApplyResult) -> bool {
    let ci = admin.compact_log.compact_index;
    let ct = admin.compact_log.compact_term;
    let first = state.truncated_state.index + 1;
    if ci <= first {
        new_state == state && r == ApplyResult::NoResult
    } else {
        &&& !(ct == 0 || compact_error(state, ci))
        &&& new_state == (RaftApplyState { truncated_state: RaftTruncatedState { index: ci, term: ct }, ..state })
        &&& r == ApplyResult::Res(ExecResult::CompactLog { state: RaftTruncatedState { index: ci, term: ct }, first_index: first as u64 })
    }
}

/// Every request of the command is a message queue request.
pub open spec fn all_message_queue(req: RaftCmdRequestView) -> bool {
    forall|i: int| 0 <= i < req.requests.len() ==> (#[trigger] req.requests[i]).cmd_type == CmdType::MessageQueue
}

/// Executes the write requests of a command at log index `index`: each
/// message is answered with its place in the queue, `(index, offset)`, where
/// `offset` is its position in the command.
pub fn exec_write_cmd(index: u64, req: &RaftCmdRequest) -> (resp: RaftCmdResponse)
    requires
        all_message_queue(req@),
    ensures
        resp.header.error is None,
        resp.header.current_term == 0,
        resp.header.uuid@ == req.header.uuid@,
        resp.admin_response is None,
        resp.status_response is None,
        resp.responses@.len() == req.requests@.len(),
        forall|i: int| 0 <= i < resp.responses@.len() ==> {
            &&& (#[trigger] resp.responses@[i]).cmd_type == CmdType::MessageQueue
            &&& resp.responses@[i].message_queue.index == index
            &&& resp.responses@[i].message_queue.offset == i
            &&& resp.responses@[i].message_queue.error@ == "OK"@
        },
{
    let mut responses: Vec<Response> = Vec::with_capacity(req.requests.len());
    let mut offset: usize = 0;
    while offset < req.requests.len()
        invariant
            offset <= req.requests@.len(),
            all_message_queue(req@),
            responses@.len() == offset,
            forall|i: int| 0 <= i < offset ==> {
                &&& (#[trigger] responses@[i]).cmd_type == CmdType::MessageQueue
                &&& responses@[i].message_queue.index == index
                &&& responses@[i].message_queue.offset == i
                &&& responses@[i].message_queue.error@ == "OK"@
            },
        decreases req.requests@.len() - offset,
    {
        assert(req@.requests[offset as int].cmd_type == CmdType::MessageQueue);
        let mq = MessageQueueResponse { index, offset: offset as u64, error: String::from_str("OK") };
        responses.push(Response { cmd_type: CmdType::MessageQueue, message_queue: mq });
        offset = offset + 1;
    }
    let mut resp = RaftCmdResponse::new();
    resp.header.uuid = copy_bytes(&req.header.uuid);
    resp.responses = responses;
    resp
}

} // verus!

verus! {

/// A reply is right for its kind: a stale reply carries the stale error and
/// its term; an applied reply carries the term of the applying delegate.
pub open spec fn reply_fits(resp: RaftCmdResponse, r: Reply, delegate_term: u64) -> bool {
    match r {
        Reply::Stale(t) => resp.header.error matches Some(pb) && pb.stale_command
            && resp.header.current_term == t,
        Reply::Applied { index, cmd, state } => resp.header.current_term == delegate_term
            && apply_response_fits(resp, index, cmd, state),
    }
}

/// The replies `actual` are the replies `model`, one for one.
pub open spec fn replies_match(actual: Seq<(u64, RaftCmdResponse)>, model: Seq<(u64, Reply)>, delegate_term: u64) -> bool {
    &&& actual.len() == model.len()
    &&& forall|i: int| 0 <= i < actual.len() ==> (#[trigger] actual[i]).0 == model[i].0 && reply_fits(actual[i].1, model[i].1, delegate_term)
}

/// The apply state after executing command `c` at `index`: admin commands
/// may move the truncated state; the applied index moves to `index` in every case.
pub open spec fn exec_model(state: RaftApplyState, index: u64, c: RaftCmdRequestView) -> (RaftApplyState, ApplyResult) {
    let applied = RaftApplyState { applied_index: index, ..state };
    match c.admin_request {
        Some(a) => match a.cmd_type {
            AdminCmdType::InvalidAdmin => (applied, ApplyResult::NoResult),
            AdminCmdType::CompactLog => {
                let ci = a.compact_log.compact_index;
                let ct = a.compact_log.compact_term;
                let first = state.truncated_state.index + 1;
                if ci <= first || ct == 0 || compact_error(state, ci) {
                    (applied, ApplyResult::NoResult)
                } else {
                    (
                        RaftApplyState { truncated_state: RaftTruncatedState { index: ci, term: ct }, ..applied },
                        ApplyResult::Res(ExecResult::CompactLog { state: RaftTruncatedState { index: ci, term: ct }, first_index: first as u64 }),
                    )
                }
            },
        },
        None => (applied, ApplyResult::NoResult),
    }
}

/// The state of an apply delegate as far as applying entries goes.
pub struct ApplyModel {
    pub apply_state: RaftApplyState,
    pub applied_index_term: u64,
    pub pending: Seq<PendingCmd>,
    pub results: Seq<ExecResult>,
    /// Replies sent once the applied writes are stored.
    pub batch: Seq<(u64, Reply)>,
    /// Replies sent at once.
    pub immediate: Seq<(u64, Reply)>,
}

/// Entry `e` can be applied next: it is the one after the applied index, a
/// normal entry, with a term when it is empty, without a lost proposal
/// before it, and with only message queue requests when it is not an admin
/// command.
pub open spec fn entry_ok(m: ApplyModel, e: EntryView) -> bool {
    &&& e.index == m.apply_state.applied_index + 1
    &&& e.entry_type == EntryType::EntryNormal
    &&& m.apply_state.truncated_state.index < u64::MAX
    &&& match e.cmd {
        None => e.term > 0,
        Some(c) => find_pending_run(m.pending, e.index, e.term).2 && (c.admin_request is None ==> all_message_queue(c)),
    }
}

/// The state after applying entry `e`, the delegate being in term `dterm`.
pub open spec fn apply_entry(m: ApplyModel, dterm: u64, e: EntryView) -> ApplyModel {
    match e.cmd {
        None => {
            let k = stale_prefix(m.pending, e.term);
            ApplyModel {
                apply_state: RaftApplyState { applied_index: e.index, ..m.apply_state },
                applied_index_term: e.term,
                pending: m.pending.skip(k as int),
                batch: m.batch + stale_replies(m.pending, k, e.term),
                ..m
            }
        },
        Some(c) => {
            let (st, r) = exec_model(m.apply_state, e.index, c);
            let run = find_pending_run(m.pending, e.index, e.term);
            let nstale: nat = if run.1 { (run.0 - 1) as nat } else { run.0 };
            ApplyModel {
                apply_state: st,
                applied_index_term: e.term,
                pending: m.pending.skip(run.0 as int),
                results: match r {
                    ApplyResult::Res(x) => m.results.push(x),
                    ApplyResult::NoResult => m.results,
                },
                batch: if run.1 { m.batch.push((m.pending[run.0 - 1].cb, Reply::Applied { index: e.index, cmd: c, state: m.apply_state })) } else { m.batch },
                immediate: m.immediate + stale_replies(m.pending, nstale, dterm),
            }
        },
    }
}

/// The state after applying `es` in order.
pub open spec fn apply_entries(m: ApplyModel, dterm: u64, es: Seq<EntryView>) -> ApplyModel
    decreases es.len(),
{
    if es.len() == 0 {
        m
    } else {
        apply_entry(apply_entries(m, dterm, es.drop_last()), dterm, es.last())
    }
}

/// Applying entries leaves the commit index and term as they were.
pub proof fn lemma_apply_entries_keep_commit(m: ApplyModel, dterm: u64, es: Seq<EntryView>)
    ensures
        apply_entries(m, dterm, es).apply_state.commit_index == m.apply_state.commit_index,
        apply_entries(m, dterm, es).apply_state.commit_term == m.apply_state.commit_term,
    decreases es.len(),
{
    if es.len() > 0 {
        lemma_apply_entries_keep_commit(m, dterm, es.drop_last());
    }
}

/// Every entry of `es` can be applied in turn.
pub open spec fn entries_ok(m: ApplyModel, dterm: u64, es: Seq<EntryView>) -> bool
    decreases es.len(),
{
    es.len() == 0 || (entries_ok(m, dterm, es.drop_last()) && entry_ok(apply_entries(m, dterm, es.drop_last()), es.last()))
}

proof fn lemma_entries_ok_prefix(m: ApplyModel, dterm: u64, es: Seq<EntryView>, n: int)
    requires
        entries_ok(m, dterm, es),
        0 <= n <= es.len(),
    ensures
        entries_ok(m, dterm, es.subrange(0, n)),
    decreases es.len() - n,
{
    if n < es.len() {
        assert(es.drop_last() =~= es.subrange(0, es.len() - 1));
        lemma_entries_ok_prefix(m, dterm, es.drop_last(), n);
        assert(es.drop_last().subrange(0, n) =~= es.subrange(0, n));
    } else {
        assert(es.subrange(0, n) =~= es);
    }
}

/// The result of applying a batch of entries, for the peer.
pub struct ApplyRes {
    pub region_id: u64,
    pub apply_state: RaftApplyState,
    pub applied_index_term: u64,
    pub exec_res: Vec<ExecResult>,
}

/// What applying accumulates across delegates until it is written out.
pub struct ApplyContext {
    pub kv_wb: KvWriteBatch,
    /// Replies sent once the writes are stored.
    pub applied_batch: Vec<(u64, RaftCmdResponse)>,
    /// Replies already sent.
    pub notified: Vec<(u64, RaftCmdResponse)>,
    pub apply_res: Vec<ApplyRes>,
    pub committed_count: usize,
    pub sync_log_hint: bool,
    pub store_id: u64,
}

impl ApplyContext {
    /// A fresh context for store `store_id`.
    pub fn new(store_id: u64) -> (c: ApplyContext)
        ensures
            c.kv_wb.ops@.len() == 0,
            c.applied_batch@.len() == 0,
            c.notified@.len() == 0,
            c.apply_res@.len() == 0,
            c.committed_count == 0,
            !c.sync_log_hint,
            c.store_id == store_id,
    {
        ApplyContext {
            kv_wb: KvWriteBatch::new(),
            applied_batch: Vec::new(),
            notified: Vec::new(),
            apply_res: Vec::new(),
            committed_count: 0,
            sync_log_hint: false,
            store_id,
        }
    }
}

/// The apply side of one region peer.
pub struct ApplyDelegate {
    pub id: u64,
    pub term: u64,
    pub region: Region,
    pub pending_cmds: PendingCmdQueue,
    pub apply_state: RaftApplyState,
    pub applied_index_term: u64,
    pub last_flush_applied_index: u64,
}

/// The reply a stale command gets.
pub fn stale_reply(term: u64) -> (resp: RaftCmdResponse)
    ensures
        reply_fits(resp, Reply::Stale(term), 0),
        resp.header.error matches Some(pb) && errorpb_fields_of(Error::StaleCommand, pb),
{
    err_resp(Error::StaleCommand, term)
}

impl ApplyDelegate {
    /// The delegate as an apply model, with `ctx`'s replies from `batch_from`
    /// and `notified_from` on.
    pub open spec fn model(&self, results: Seq<ExecResult>, batch: Seq<(u64, Reply)>, immediate: Seq<(u64, Reply)>) -> ApplyModel {
        ApplyModel {
            apply_state: self.apply_state,
            applied_index_term: self.applied_index_term,
            pending: self.pending_cmds.normals@,
            results,
            batch,
            immediate,
        }
    }

    /// A delegate for peer `id` of `region`, in term `term`, starting from
    /// `apply_state` and with no pending command.
    pub fn new(id: u64, term: u64, region: Region, apply_state: RaftApplyState, applied_index_term: u64) -> (d: ApplyDelegate)
        ensures
            d.id == id,
            d.term == term,
            d.region == region,
            d.pending_cmds.normals@.len() == 0,
            d.apply_state == apply_state,
            d.applied_index_term == applied_index_term,
            d.last_flush_applied_index == apply_state.applied_index,
    {
        ApplyDelegate {
            id,
            term,
            region,
            pending_cmds: PendingCmdQueue::new(),
            apply_state,
            applied_index_term,
            last_flush_applied_index: apply_state.applied_index,
        }
    }

    /// The id of the region.
    pub fn region_id(&self) -> (res: u64)
        ensures
            res == self.region.id,
    {
        self.region.id
    }

    /// The id of the peer.
    pub fn id(&self) -> (res: u64)
        ensures
            res == self.id,
    {
        self.id
    }

    /// Finds the callback of the command at `(term, index)`: commands of
    /// older terms in front of it are answered stale at once.
    pub fn find_pending(&mut self, ctx: &mut ApplyContext, index: u64, term: u64) -> (res: Option<u64>)
        requires
            find_pending_run(old(self).pending_cmds.normals@, index, term).2,
        ensures
            ({
                let q = old(self).pending_cmds.normals@;
                let run = find_pending_run(q, index, term);
                let nstale: nat = if run.1 { (run.0 - 1) as nat } else { run.0 };
                &&& final(self).pending_cmds.normals@ == q.skip(run.0 as int)
                &&& res == (if run.1 { Some(q[run.0 - 1].cb) } else { None::<u64> })
                &&& final(ctx).notified@.len() >= old(ctx).notified@.len()
                &&& final(ctx).notified@.subrange(0, old(ctx).notified@.len() as int) == old(ctx).notified@
                &&& replies_match(final(ctx).notified@.skip(old(ctx).notified@.len() as int), stale_replies(q, nstale, old(self).term), old(self).term)
                &&& final(ctx).applied_batch == old(ctx).applied_batch
                &&& final(ctx).kv_wb == old(ctx).kv_wb
                &&& final(ctx).apply_res == old(ctx).apply_res
                &&& final(ctx).committed_count == old(ctx).committed_count
                &&& final(ctx).sync_log_hint == old(ctx).sync_log_hint
                &&& final(self).apply_state == old(self).apply_state
                &&& final(self).applied_index_term == old(self).applied_index_term
                &&& final(self).term == old(self).term
                &&& final(self).id == old(self).id
                &&& final(self).region == old(self).region
                &&& final(self).last_flush_applied_index == old(self).last_flush_applied_index
            }),
        decreases old(self).pending_cmds.normals@.len(),
    {
        let ghost q = self.pending_cmds.normals@;
        assert(q == old(self).pending_cmds.normals@);
        let ghost n0 = ctx.notified@.len();
        let qlen = self.pending_cmds.normals.len();
        let mut taken: usize = 0;
        loop
            invariant
                taken <= q.len(),
                qlen == q.len(),
                q == old(self).pending_cmds.normals@,
                n0 == old(ctx).notified@.len(),
                self.pending_cmds.normals@ == q.skip(taken as int),
                find_pending_run(q, index, term) == ({
                    let r = find_pending_run(q.skip(taken as int), index, term);
                    ((r.0 + taken) as nat, r.1, r.2)
                }),
                find_pending_run(q, index, term).2,
                forall|j: int| 0 <= j < taken ==> (#[trigger] q[j]).term != term,
                ctx.notified@.len() == n0 + taken,
                ctx.notified@.subrange(0, n0 as int) == old(ctx).notified@,
                replies_match(ctx.notified@.skip(n0 as int), stale_replies(q, taken as nat, self.term), self.term),
                ctx.applied_batch == old(ctx).applied_batch,
                ctx.kv_wb == old(ctx).kv_wb,
                ctx.apply_res == old(ctx).apply_res,
                ctx.committed_count == old(ctx).committed_count,
                ctx.sync_log_hint == old(ctx).sync_log_hint,
                self.apply_state == old(self).apply_state,
                self.applied_index_term == old(self).applied_index_term,
                self.term == old(self).term,
                self.id == old(self).id,
                self.region == old(self).region,
                self.last_flush_applied_index == old(self).last_flush_applied_index,
            decreases q.len() - taken,
        {
            let ghost before = self.pending_cmds.normals@;
            let head = self.pending_cmds.pop_normal(index, term);
            match head {
                Some(c) => {
                    assert(before.drop_first() =~= q.skip(taken + 1));
                    assert(before[0] == q[taken as int]);
                    assert(taken < q.len());
                    assert(q.skip(taken as int).drop_first() =~= q.skip(taken + 1));
                    if c.term == term {
                        if c.index == index {
                            proof {
                                assert(find_pending_run(q.skip(taken as int), index, term) == (1nat, true, true));
                                let run = find_pending_run(q, index, term);
                                assert(run.0 == taken + 1 && run.1);
                                assert(q[run.0 - 1] == c);
                            }
                            return Some(c.cb);
                        } else {
                            assert(false);
                            return None;
                        }
                    } else {
                        let ghost nb = ctx.notified@;
                        ctx.notified.push((c.cb, stale_reply(self.term)));
                        proof {
                            assert(ctx.notified@.subrange(0, n0 as int) =~= nb.subrange(0, n0 as int));
                            let a = ctx.notified@.skip(n0 as int);
                            let m = stale_replies(q, (taken + 1) as nat, self.term);
                            assert forall|i: int| 0 <= i < a.len() implies (#[trigger] a[i]).0 == m[i].0 && reply_fits(a[i].1, m[i].1, self.term) by {
                                if i < taken {
                                    assert(a[i] == nb.skip(n0 as int)[i]);
                                    assert(m[i] == stale_replies(q, taken as nat, self.term)[i]);
                                }
                            }
                        }
                        taken = taken + 1;
                    }
                },
                None => {
                    proof {
                        assert(q.skip(taken as int) =~= before);
                        assert(find_pending_run(before, index, term) == (0nat, false, true));
                        let run = find_pending_run(q, index, term);
                        assert(run.0 == taken && !run.1);
                        assert(self.pending_cmds.normals@ =~= q.skip(run.0 as int));
                        assert(self.term == old(self).term);
                        assert(q == old(self).pending_cmds.normals@);
                    }
                    return None;
                },
            }
        }
    }
}


/// The reply to command `c` applied at `index` on apply state `state`
/// (before the delegate's term is bound to it).
pub open spec fn apply_response_fits(resp: RaftCmdResponse, index: u64, c: RaftCmdRequestView, state: RaftApplyState) -> bool {
    match c.admin_request {
        None => {
            &&& resp.header.error is None
            &&& resp.header.uuid@ == c.header.uuid
            &&& resp.admin_response is None
            &&& resp.responses@.len() == c.requests.len()
            &&& forall|i: int| 0 <= i < resp.responses@.len() ==> {
                &&& (#[trigger] resp.responses@[i]).cmd_type == CmdType::MessageQueue
                &&& resp.responses@[i].message_queue.index == index
                &&& resp.responses@[i].message_queue.offset == i
                &&& resp.responses@[i].message_queue.error@ == "OK"@
            }
        },
        Some(a) => match a.cmd_type {
            AdminCmdType::InvalidAdmin => other_error_reply(resp, admin_error_text(state, a)),
            AdminCmdType::CompactLog => if exec_compact_log_fails(state, a) {
                other_error_reply(resp, admin_error_text(state, a))
            } else {
                &&& resp.header.error is None
                &&& resp.header.uuid@ == c.header.uuid
                &&& resp.admin_response == Some(AdminResponse { cmd_type: AdminCmdType::CompactLog })
            },
        },
    }
}

impl ApplyDelegate {
    /// Applies command `req` of entry `(term, index)`: executes it against a
    /// copy of the apply state, turning an error into an error reply, then
    /// takes the copy with the applied index moved to `index`.
    pub fn apply_raft_cmd(&mut self, index: u64, term: u64, req: &RaftCmdRequest) -> (res: (RaftCmdResponse, ApplyResult))
        requires
            old(self).apply_state.truncated_state.index < u64::MAX,
            req.admin_request is None ==> all_message_queue(req@),
        ensures
            (final(self).apply_state, res.1) == exec_model(old(self).apply_state, index, req@),
            final(self).applied_index_term == term,
            apply_response_fits(res.0, index, req@, old(self).apply_state),
            res.0.header.current_term == 0,
            final(self).pending_cmds == old(self).pending_cmds,
            final(self).term == old(self).term,
            final(self).id == old(self).id,
            final(self).region == old(self).region,
            final(self).last_flush_applied_index == old(self).last_flush_applied_index,
    {
        let mut exec_state = self.apply_state;
        let (resp, exec_result) = if req.admin_request.is_some() {
            match exec_admin_cmd(&mut exec_state, req) {
                Ok(x) => x,
                Err(e) => (new_error(e), ApplyResult::NoResult),
            }
        } else {
            (exec_write_cmd(index, req), ApplyResult::NoResult)
        };
        exec_state.applied_index = index;
        self.apply_state = exec_state;
        self.applied_index_term = term;
        (resp, exec_result)
    }

    /// Applies the command of entry `(term, index)` and queues the reply to
    /// its proposal, if it is waiting here.
    pub fn process_raft_cmd(&mut self, ctx: &mut ApplyContext, index: u64, term: u64, cmd: &RaftCmdRequest) -> (res: ApplyResult)
        requires
            index != 0,
            old(self).apply_state.truncated_state.index < u64::MAX,
            cmd.admin_request is None ==> all_message_queue(cmd@),
            find_pending_run(old(self).pending_cmds.normals@, index, term).2,
        ensures
            ({
                let q = old(self).pending_cmds.normals@;
                let run = find_pending_run(q, index, term);
                let nstale: nat = if run.1 { (run.0 - 1) as nat } else { run.0 };
                let (st, r) = exec_model(old(self).apply_state, index, cmd@);
                &&& final(self).apply_state == st
                &&& res == r
                &&& final(self).applied_index_term == term
                &&& final(self).pending_cmds.normals@ == q.skip(run.0 as int)
                &&& final(ctx).notified@.len() >= old(ctx).notified@.len()
                &&& final(ctx).notified@.subrange(0, old(ctx).notified@.len() as int) == old(ctx).notified@
                &&& replies_match(final(ctx).notified@.skip(old(ctx).notified@.len() as int), stale_replies(q, nstale, old(self).term), old(self).term)
                &&& final(ctx).applied_batch@.subrange(0, old(ctx).applied_batch@.len() as int) == old(ctx).applied_batch@
                &&& if run.1 {
                    &&& final(ctx).applied_batch@.len() == old(ctx).applied_batch@.len() + 1
                    &&& final(ctx).applied_batch@.last().0 == q[run.0 - 1].cb
                    &&& final(ctx).applied_batch@.last().1.header.current_term == old(self).term
                    &&& apply_response_fits(final(ctx).applied_batch@.last().1, index, cmd@, old(self).apply_state)
                } else {
                    final(ctx).applied_batch@.len() == old(ctx).applied_batch@.len()
                }
                &&& final(ctx).kv_wb == old(ctx).kv_wb
                &&& final(ctx).apply_res == old(ctx).apply_res
                &&& final(ctx).committed_count == old(ctx).committed_count
                &&& final(ctx).sync_log_hint == old(ctx).sync_log_hint
                &&& final(self).term == old(self).term
                &&& final(self).id == old(self).id
                &&& final(self).region == old(self).region
                &&& final(self).last_flush_applied_index == old(self).last_flush_applied_index
            }),
    {
        let (mut resp, exec_result) = self.apply_raft_cmd(index, term, cmd);
        bind_term(&mut resp, self.term);
        let cmd_cb = self.find_pending(ctx, index, term);
        match cmd_cb {
            Some(cb) => {
                let ghost b = ctx.applied_batch@;
                ctx.applied_batch.push((cb, resp));
                assert(ctx.applied_batch@.subrange(0, b.len() as int) =~= b);
            },
            None => {},
        }
        exec_result
    }

    /// Applies a normal entry: its command if it has one; otherwise it only
    /// moves the applied index, and the commands of older terms still
    /// waiting become stale (a new leader's empty entry ends their chance).
    pub fn handle_raft_entry_normal(&mut self, ctx: &mut ApplyContext, entry: &Entry) -> (res: ApplyResult)
        requires
            entry.index != 0,
            entry_ok(old(self).model(Seq::empty(), Seq::empty(), Seq::empty()), entry@),
        ensures
            ({
                let m0 = old(self).model(Seq::empty(), Seq::empty(), Seq::empty());
                let m1 = apply_entry(m0, old(self).term, entry@);
                &&& final(self).apply_state == m1.apply_state
                &&& final(self).applied_index_term == m1.applied_index_term
                &&& final(self).pending_cmds.normals@ == m1.pending
                &&& m1.results == (match res { ApplyResult::Res(x) => seq![x], ApplyResult::NoResult => Seq::<ExecResult>::empty() })
                &&& final(ctx).applied_batch@.len() >= old(ctx).applied_batch@.len()
                &&& final(ctx).notified@.len() >= old(ctx).notified@.len()
                &&& final(ctx).applied_batch@.subrange(0, old(ctx).applied_batch@.len() as int) == old(ctx).applied_batch@
                &&& replies_match(final(ctx).applied_batch@.skip(old(ctx).applied_batch@.len() as int), m1.batch, old(self).term)
                &&& final(ctx).notified@.subrange(0, old(ctx).notified@.len() as int) == old(ctx).notified@
                &&& replies_match(final(ctx).notified@.skip(old(ctx).notified@.len() as int), m1.immediate, old(self).term)
                &&& final(ctx).kv_wb == old(ctx).kv_wb
                &&& final(ctx).apply_res == old(ctx).apply_res
                &&& final(ctx).committed_count == old(ctx).committed_count
                &&& final(self).term == old(self).term
                &&& final(self).id == old(self).id
                &&& final(self).region == old(self).region
                &&& final(self).last_flush_applied_index == old(self).last_flush_applied_index
            }),
    {
        let index = entry.index;
        let term = entry.term;
        let ghost b0 = ctx.applied_batch@;
        let ghost n0 = ctx.notified@;
        match &entry.cmd {
            Some(cmd) => {
                let r = self.process_raft_cmd(ctx, index, term, cmd);
                proof {
                    let q = old(self).pending_cmds.normals@;
                    let run = find_pending_run(q, index, term);
                    let m0 = old(self).model(Seq::empty(), Seq::empty(), Seq::empty());
                    let m1 = apply_entry(m0, old(self).term, entry@);
                    let nstale: nat = if run.1 { (run.0 - 1) as nat } else { run.0 };
                    assert(m1.immediate =~= stale_replies(q, nstale, old(self).term));
                    if run.1 {
                        assert(m1.batch =~= seq![(q[run.0 - 1].cb, Reply::Applied { index, cmd: cmd@, state: old(self).apply_state })]);
                        assert(ctx.applied_batch@.skip(b0.len() as int) =~= seq![ctx.applied_batch@.last()]);
                    } else {
                        assert(ctx.applied_batch@ =~= b0);
                        assert(ctx.applied_batch@.skip(b0.len() as int) =~= Seq::<(u64, RaftCmdResponse)>::empty());
                        assert(m1.batch =~= Seq::<(u64, Reply)>::empty());
                    }
                    match r {
                        ApplyResult::Res(x) => { assert(m1.results =~= seq![x]); },
                        ApplyResult::NoResult => { assert(m1.results =~= Seq::<ExecResult>::empty()); },
                    }
                }
                return r;
            },
            None => {},
        }
        self.apply_state.applied_index = index;
        self.applied_index_term = term;
        let ghost q = self.pending_cmds.normals@;
        assert(q.skip(0) =~= q);
        let qlen = self.pending_cmds.normals.len();
        let mut k: usize = 0;
        loop
            invariant
                q == old(self).pending_cmds.normals@,
                qlen == q.len(),
                entry.cmd is None,
                term == entry.term,
                index == entry.index,
                n0 == old(ctx).notified@,
                term > 0,
                k <= q.len(),
                stale_prefix(q, term) == k + stale_prefix(q.skip(k as int), term),
                self.pending_cmds.normals@ == q.skip(k as int),
                ctx.applied_batch@.len() == b0.len() + k,
                ctx.applied_batch@.subrange(0, b0.len() as int) == b0,
                b0 == old(ctx).applied_batch@,
                replies_match(ctx.applied_batch@.skip(b0.len() as int), stale_replies(q, k as nat, term), old(self).term),
                ctx.notified == old(ctx).notified,
                ctx.kv_wb == old(ctx).kv_wb,
                ctx.apply_res == old(ctx).apply_res,
                ctx.committed_count == old(ctx).committed_count,
                self.apply_state == (RaftApplyState { applied_index: index, ..old(self).apply_state }),
                self.applied_index_term == term,
                self.term == old(self).term,
                self.id == old(self).id,
                self.region == old(self).region,
                self.last_flush_applied_index == old(self).last_flush_applied_index,
            decreases q.len() - k,
        {
            let ghost before = self.pending_cmds.normals@;
            match self.pending_cmds.pop_normal(u64::MAX, term - 1) {
                Some(cmd) => {
                    proof {
                        assert(k < q.len());
                        assert(before[0] == q[k as int]);
                        assert(q.skip(k as int).drop_first() =~= q.skip(k + 1));
                        assert(self.pending_cmds.normals@ =~= q.skip(k + 1));
                    }
                    let ghost bb = ctx.applied_batch@;
                    ctx.applied_batch.push((cmd.cb, stale_reply(term)));
                    proof {
                        assert(ctx.applied_batch@.subrange(0, b0.len() as int) =~= bb.subrange(0, b0.len() as int));
                        let a = ctx.applied_batch@.skip(b0.len() as int);
                        let m = stale_replies(q, (k + 1) as nat, term);
                        assert forall|i: int| 0 <= i < a.len() implies (#[trigger] a[i]).0 == m[i].0 && reply_fits(a[i].1, m[i].1, old(self).term) by {
                            if i < k {
                                assert(a[i] == bb.skip(b0.len() as int)[i]);
                                assert(m[i] == stale_replies(q, k as nat, term)[i]);
                            }
                        }
                    }
                    k = k + 1;
                },
                None => {
                    proof {
                        assert(q.skip(k as int) =~= before);
                        assert(stale_prefix(before, term) == 0);
                        let m0 = old(self).model(Seq::empty(), Seq::empty(), Seq::empty());
                        assert(stale_prefix(q, term) == k);
                        assert(entry@.cmd is None);
                        let m1 = apply_entry(m0, old(self).term, entry@);
                        assert(m1.batch =~= stale_replies(q, k as nat, term));
                        assert(m1.immediate =~= Seq::<(u64, Reply)>::empty());
                        assert(ctx.notified@.skip(n0.len() as int) =~= Seq::<(u64, RaftCmdResponse)>::empty());
                        assert(m1.results =~= Seq::<ExecResult>::empty());
                    }
                    return ApplyResult::NoResult;
                },
            }
        }
    }
}


/// The model with the same state as `m` and nothing accumulated.
pub open spec fn fresh(m: ApplyModel) -> ApplyModel {
    ApplyModel { results: Seq::empty(), batch: Seq::empty(), immediate: Seq::empty(), ..m }
}

proof fn lemma_apply_entry_decompose(m: ApplyModel, t: u64, e: EntryView)
    ensures
        ({
            let a = apply_entry(m, t, e);
            let b = apply_entry(fresh(m), t, e);
            &&& a.apply_state == b.apply_state
            &&& a.applied_index_term == b.applied_index_term
            &&& a.pending == b.pending
            &&& a.results == m.results + b.results
            &&& a.batch == m.batch + b.batch
            &&& a.immediate == m.immediate + b.immediate
        }),
{
    let a = apply_entry(m, t, e);
    let b = apply_entry(fresh(m), t, e);
    match e.cmd {
        None => {
            assert(a.results =~= m.results + b.results);
            assert(a.batch =~= m.batch + b.batch);
            assert(a.immediate =~= m.immediate + b.immediate);
        },
        Some(c) => {
            let (st, r) = exec_model(m.apply_state, e.index, c);
            let run = find_pending_run(m.pending, e.index, e.term);
            match r {
                ApplyResult::Res(x) => {
                    assert(a.results =~= m.results + b.results);
                },
                ApplyResult::NoResult => {
                    assert(a.results =~= m.results + b.results);
                },
            }
            if run.1 {
                assert(a.batch =~= m.batch + b.batch);
            } else {
                assert(a.batch =~= m.batch + b.batch);
            }
            assert(a.immediate =~= m.immediate + b.immediate);
        },
    }
}

proof fn lemma_replies_concat(a1: Seq<(u64, RaftCmdResponse)>, m1: Seq<(u64, Reply)>, a2: Seq<(u64, RaftCmdResponse)>, m2: Seq<(u64, Reply)>, t: u64)
    requires
        replies_match(a1, m1, t),
        replies_match(a2, m2, t),
    ensures
        replies_match(a1 + a2, m1 + m2, t),
{
    let a = a1 + a2;
    let m = m1 + m2;
    assert forall|i: int| 0 <= i < a.len() implies (#[trigger] a[i]).0 == m[i].0 && reply_fits(a[i].1, m[i].1, t) by {
        if i < a1.len() {
            assert(a[i] == a1[i]);
            assert(m[i] == m1[i]);
        } else {
            assert(a[i] == a2[i - a1.len()]);
            assert(m[i] == m2[i - a1.len()]);
        }
    }
}

impl ApplyDelegate {
    /// Applies committed entries in order, then records the new apply state
    /// in the write batch and the result of the batch for the peer.
    pub fn handle_raft_committed_entries(&mut self, ctx: &mut ApplyContext, entries: Vec<Entry>)
        requires
            entries_ok(fresh(old(self).model(Seq::empty(), Seq::empty(), Seq::empty())), old(self).term, entries_view(entries@)),
            old(ctx).committed_count + entries@.len() <= usize::MAX,
        ensures
            entries@.len() == 0 ==> *final(self) == *old(self) && *final(ctx) == *old(ctx),
            entries@.len() > 0 ==> ({
                let m = apply_entries(old(self).model(Seq::empty(), Seq::empty(), Seq::empty()), old(self).term, entries_view(entries@));
                &&& final(self).apply_state == m.apply_state
                &&& final(self).applied_index_term == m.applied_index_term
                &&& final(self).pending_cmds.normals@ == m.pending
                &&& final(ctx).applied_batch@.subrange(0, old(ctx).applied_batch@.len() as int) == old(ctx).applied_batch@
                &&& replies_match(final(ctx).applied_batch@.skip(old(ctx).applied_batch@.len() as int), m.batch, old(self).term)
                &&& final(ctx).notified@.subrange(0, old(ctx).notified@.len() as int) == old(ctx).notified@
                &&& replies_match(final(ctx).notified@.skip(old(ctx).notified@.len() as int), m.immediate, old(self).term)
                &&& final(ctx).kv_wb.ops@ == old(ctx).kv_wb.ops@.push(KvWriteOp::PutApplyState { region_id: old(self).region.id, state: m.apply_state })
                &&& final(ctx).apply_res@.len() == old(ctx).apply_res@.len() + 1
                &&& final(ctx).apply_res@.subrange(0, old(ctx).apply_res@.len() as int) == old(ctx).apply_res@
                &&& final(ctx).apply_res@.last().region_id == old(self).region.id
                &&& final(ctx).apply_res@.last().apply_state == m.apply_state
                &&& final(ctx).apply_res@.last().applied_index_term == m.applied_index_term
                &&& final(ctx).apply_res@.last().exec_res@ == m.results
                &&& final(ctx).committed_count == old(ctx).committed_count + entries@.len()
                &&& final(self).term == old(self).term
                &&& final(self).id == old(self).id
                &&& final(self).region == old(self).region
                &&& final(self).last_flush_applied_index == old(self).last_flush_applied_index
            }),
    {
        if entries.len() == 0 {
            return ;
        }
        ctx.committed_count = ctx.committed_count + entries.len();
        let ghost ev = entries_view(entries@);
        let ghost m0 = self.model(Seq::empty(), Seq::empty(), Seq::empty());
        assert(fresh(m0) == m0);
        let ghost b0 = ctx.applied_batch@.len();
        let ghost n0 = ctx.notified@.len();
        let mut results: Vec<ExecResult> = Vec::new();
        let n = entries.len();
        let mut i: usize = 0;
        while i < n
            invariant
                n == entries@.len(),
                ev == entries_view(entries@),
                i <= n,
                m0 == old(self).model(Seq::empty(), Seq::empty(), Seq::empty()),
                entries_ok(m0, old(self).term, ev),
                ({
                    let m = apply_entries(m0, old(self).term, ev.subrange(0, i as int));
                    &&& self.apply_state == m.apply_state
                    &&& self.applied_index_term == m.applied_index_term
                    &&& self.pending_cmds.normals@ == m.pending
                    &&& results@ == m.results
                    &&& ctx.applied_batch@.len() >= b0
                    &&& ctx.notified@.len() >= n0
                    &&& replies_match(ctx.applied_batch@.skip(b0 as int), m.batch, old(self).term)
                    &&& replies_match(ctx.notified@.skip(n0 as int), m.immediate, old(self).term)
                }),
                b0 == old(ctx).applied_batch@.len(),
                n0 == old(ctx).notified@.len(),
                ctx.applied_batch@.subrange(0, b0 as int) == old(ctx).applied_batch@,
                ctx.notified@.subrange(0, n0 as int) == old(ctx).notified@,
                ctx.kv_wb == old(ctx).kv_wb,
                ctx.apply_res == old(ctx).apply_res,
                ctx.committed_count == old(ctx).committed_count + n,
                self.term == old(self).term,
                self.id == old(self).id,
                self.region == old(self).region,
                self.last_flush_applied_index == old(self).last_flush_applied_index,
            decreases n - i,
        {
            let ghost mi = apply_entries(m0, old(self).term, ev.subrange(0, i as int));
            proof {
                lemma_entries_ok_prefix(m0, old(self).term, ev, i + 1);
                let pre = ev.subrange(0, i + 1);
                assert(pre.drop_last() =~= ev.subrange(0, i as int));
                assert(pre.last() == ev[i as int]);
                assert(ev[i as int] == entries@[i as int]@);
                assert(self.model(Seq::empty(), Seq::empty(), Seq::empty()) == fresh(mi));
            }
            let ghost ba = ctx.applied_batch@;
            let ghost na = ctx.notified@;
            let r = self.handle_raft_entry_normal(ctx, &entries[i]);
            proof {
                let e = ev[i as int];
                lemma_apply_entry_decompose(mi, old(self).term, e);
                let step = apply_entry(fresh(mi), old(self).term, e);
                let m2 = apply_entries(m0, old(self).term, ev.subrange(0, i + 1));
                assert(ev.subrange(0, i + 1).drop_last() =~= ev.subrange(0, i as int));
                assert(m2 == apply_entry(mi, old(self).term, e));
                assert(ctx.applied_batch@.skip(b0 as int) =~= ba.skip(b0 as int) + ctx.applied_batch@.skip(ba.len() as int));
                assert(ctx.notified@.skip(n0 as int) =~= na.skip(n0 as int) + ctx.notified@.skip(na.len() as int));
                lemma_replies_concat(ba.skip(b0 as int), mi.batch, ctx.applied_batch@.skip(ba.len() as int), step.batch, old(self).term);
                lemma_replies_concat(na.skip(n0 as int), mi.immediate, ctx.notified@.skip(na.len() as int), step.immediate, old(self).term);
                assert(ctx.applied_batch@.subrange(0, b0 as int) =~= ba.subrange(0, b0 as int));
                assert(ctx.notified@.subrange(0, n0 as int) =~= na.subrange(0, n0 as int));
            }
            match r {
                ApplyResult::Res(x) => {
                    results.push(x);
                },
                ApplyResult::NoResult => {},
            }
            proof {
                let e = ev[i as int];
                let step = apply_entry(fresh(mi), old(self).term, e);
                let m2 = apply_entries(m0, old(self).term, ev.subrange(0, i + 1));
                assert(results@ =~= m2.results);
            }
            i = i + 1;
        }
        assert(ev.subrange(0, n as int) =~= ev);
        self.finish_for(ctx, results);
    }

    /// Records the apply state in the write batch and the result of the
    /// batch of entries for the peer.
    pub fn finish_for(&mut self, ctx: &mut ApplyContext, results: Vec<ExecResult>)
        ensures
            *final(self) == *old(self),
            final(ctx).kv_wb.ops@ == old(ctx).kv_wb.ops@.push(KvWriteOp::PutApplyState { region_id: old(self).region.id, state: old(self).apply_state }),
            final(ctx).apply_res@ == old(ctx).apply_res@.push(ApplyRes {
                region_id: old(self).region.id,
                apply_state: old(self).apply_state,
                applied_index_term: old(self).applied_index_term,
                exec_res: results,
            }),
            final(ctx).applied_batch == old(ctx).applied_batch,
            final(ctx).notified == old(ctx).notified,
            final(ctx).committed_count == old(ctx).committed_count,
            final(ctx).sync_log_hint == old(ctx).sync_log_hint,
    {
        self.write_apply_state(&mut ctx.kv_wb);
        ctx.apply_res.push(ApplyRes {
            region_id: self.region.id,
            apply_state: self.apply_state,
            applied_index_term: self.applied_index_term,
            exec_res: results,
        });
    }

    /// Records the write of the apply state.
    pub fn write_apply_state(&self, wb: &mut KvWriteBatch)
        ensures
            final(wb).ops@ == old(wb).ops@.push(KvWriteOp::PutApplyState { region_id: self.region.id, state: self.apply_state }),
    {
        wb.put_apply_state(self.region.id, self.apply_state);
    }

    /// Answers every waiting command stale, in order, and drops them.
    pub fn clear_all_commands_as_stale(&mut self, ctx: &mut ApplyContext)
        ensures
            final(self).pending_cmds.normals@.len() == 0,
            final(ctx).notified@.subrange(0, old(ctx).notified@.len() as int) == old(ctx).notified@,
            replies_match(final(ctx).notified@.skip(old(ctx).notified@.len() as int), stale_replies(old(self).pending_cmds.normals@, old(self).pending_cmds.normals@.len(), old(self).term), old(self).term),
            final(self).apply_state == old(self).apply_state,
            final(self).term == old(self).term,
            final(ctx).applied_batch == old(ctx).applied_batch,
    {
        let ghost q = self.pending_cmds.normals@;
        let ghost n0 = ctx.notified@.len();
        let mut cmds: Vec<PendingCmd> = Vec::new();
        std::mem::swap(&mut cmds, &mut self.pending_cmds.normals);
        let mut i: usize = 0;
        while i < cmds.len()
            invariant
                cmds@ == q,
                i <= q.len(),
                self.pending_cmds.normals@.len() == 0,
                ctx.notified@.len() == n0 + i,
                n0 == old(ctx).notified@.len(),
                ctx.notified@.subrange(0, n0 as int) == old(ctx).notified@,
                replies_match(ctx.notified@.skip(n0 as int), stale_replies(q, i as nat, self.term), self.term),
                self.apply_state == old(self).apply_state,
                self.term == old(self).term,
                ctx.applied_batch == old(ctx).applied_batch,
            decreases q.len() - i,
        {
            let ghost nb = ctx.notified@;
            ctx.notified.push((cmds[i].cb, stale_reply(self.term)));
            proof {
                assert(ctx.notified@.subrange(0, n0 as int) =~= nb.subrange(0, n0 as int));
                let a = ctx.notified@.skip(n0 as int);
                let m = stale_replies(q, (i + 1) as nat, self.term);
                assert forall|j: int| 0 <= j < a.len() implies (#[trigger] a[j]).0 == m[j].0 && reply_fits(a[j].1, m[j].1, self.term) by {
                    if j < i {
                        assert(a[j] == nb.skip(n0 as int)[j]);
                        assert(m[j] == stale_replies(q, i as nat, self.term)[j]);
                    }
                }
            }
            i = i + 1;
        }
    }
}

/// Committed entries handed to the apply worker, with the proposals that
/// wait for them.
pub struct Apply {
    pub peer_id: u64,
    pub region_id: u64,
    pub term: u64,
    pub entries: Vec<Entry>,
    pub cbs: Vec<Proposal>,
}

impl Apply {
    pub fn new(peer_id: u64, region_id: u64, term: u64, entries: Vec<Entry>, cbs: Vec<Proposal>) -> (res: Apply)
        ensures
            res == (Apply { peer_id, region_id, term, entries, cbs }),
    {
        Apply { peer_id, region_id, term, entries, cbs }
    }
}

/// What the apply side of a peer starts from.
pub struct Registration {
    pub id: u64,
    pub term: u64,
    pub apply_state: RaftApplyState,
    pub applied_index_term: u64,
    pub region: Region,
}

impl Registration {
    /// The registration of a peer: its id, term, apply state and region.
    pub fn new(peer: &crate::peer::Peer) -> (res: Registration)
        ensures
            res.id == peer.peer.id,
            res.term == peer.raft.term,
            res.apply_state == peer.store.apply_state,
            res.applied_index_term == peer.store.applied_index_term,
            res.region@ == peer.store.region@,
    {
        Registration {
            id: peer.peer.id,
            term: peer.raft.term,
            apply_state: peer.store.apply_state,
            applied_index_term: peer.store.applied_index_term,
            region: peer.store.region.copy(),
        }
    }
}

impl ApplyDelegate {
    /// The apply side of a registered peer, flushed up to its applied index
    /// and with no pending command.
    pub fn from_registration(reg: Registration) -> (d: ApplyDelegate)
        ensures
            d.id == reg.id,
            d.term == reg.term,
            d.region == reg.region,
            d.pending_cmds.normals@.len() == 0,
            d.apply_state == reg.apply_state,
            d.applied_index_term == reg.applied_index_term,
            d.last_flush_applied_index == reg.apply_state.applied_index,
    {
        ApplyDelegate::new(reg.id, reg.term, reg.region, reg.apply_state, reg.applied_index_term)
    }
}

/// The pending command a proposal becomes on the apply side.
pub open spec fn pending_of(p: Proposal) -> PendingCmd {
    PendingCmd { index: p.index, term: p.term, cb: p.cb->0 }
}

/// The apply state once the commit state moved to the last entry.
pub open spec fn committed_to(s: RaftApplyState, last: EntryView) -> RaftApplyState {
    RaftApplyState { commit_index: last.index, commit_term: last.term, ..s }
}

/// The apply model of a delegate once an apply task is taken in: commit
/// state moved to the last entry, proposals waiting.
pub open spec fn prepared_model(d: ApplyDelegate, a: Apply) -> ApplyModel {
    ApplyModel {
        apply_state: committed_to(d.apply_state, a.entries@.last()@),
        applied_index_term: d.applied_index_term,
        pending: d.pending_cmds.normals@ + a.cbs@.map_values(|p: Proposal| pending_of(p)),
        results: Seq::empty(),
        batch: Seq::empty(),
        immediate: Seq::empty(),
    }
}

/// The state machine that applies the entries of one peer.
pub struct ApplyFsm {
    pub delegate: ApplyDelegate,
}

impl ApplyFsm {
    /// Queues the proposals as commands waiting for their entries.
    pub fn append_proposal(&mut self, props: Vec<Proposal>)
        requires
            forall|k: int| 0 <= k < props@.len() ==> (#[trigger] props@[k]).cb is Some,
        ensures
            final(self).delegate.pending_cmds.normals@ == old(self).delegate.pending_cmds.normals@ + props@.map_values(|p: Proposal| pending_of(p)),
            final(self).delegate.apply_state == old(self).delegate.apply_state,
            final(self).delegate.applied_index_term == old(self).delegate.applied_index_term,
            final(self).delegate.term == old(self).delegate.term,
            final(self).delegate.id == old(self).delegate.id,
            final(self).delegate.region == old(self).delegate.region,
            final(self).delegate.last_flush_applied_index == old(self).delegate.last_flush_applied_index,
    {
        let n = props.len();
        let mut i: usize = 0;
        while i < n
            invariant
                n == props@.len(),
                i <= n,
                forall|k: int| 0 <= k < props@.len() ==> (#[trigger] props@[k]).cb is Some,
                self.delegate.pending_cmds.normals@ == old(self).delegate.pending_cmds.normals@ + props@.subrange(0, i as int).map_values(|p: Proposal| pending_of(p)),
                self.delegate.apply_state == old(self).delegate.apply_state,
                self.delegate.applied_index_term == old(self).delegate.applied_index_term,
                self.delegate.term == old(self).delegate.term,
                self.delegate.id == old(self).delegate.id,
                self.delegate.region == old(self).delegate.region,
                self.delegate.last_flush_applied_index == old(self).delegate.last_flush_applied_index,
            decreases n - i,
        {
            let p = props[i];
            let cb = match p.cb {
                Some(id) => id,
                None => {
                    assert(false);
                    0
                },
            };
            let ghost before = self.delegate.pending_cmds.normals@;
            self.delegate.pending_cmds.append_normal(PendingCmd { index: p.index, term: p.term, cb });
            assert(props@.subrange(0, i + 1).map_values(|p: Proposal| pending_of(p)) =~= props@.subrange(0, i as int).map_values(|p: Proposal| pending_of(p)).push(pending_of(p)));
            assert(self.delegate.pending_cmds.normals@ =~= old(self).delegate.pending_cmds.normals@ + props@.subrange(0, i + 1).map_values(|p: Proposal| pending_of(p)));
            i = i + 1;
        }
        assert(props@.subrange(0, n as int) =~= props@);
    }

    /// Takes in an apply task: the delegate moves to the task's term, its
    /// commit state to the last entry (it never goes back), the task's
    /// proposals wait for their entries, and the entries are applied.
    pub fn handle_apply(&mut self, ctx: &mut ApplyContext, apply: Apply)
        requires
            apply.entries@.len() > 0,
            old(self).delegate.apply_state.commit_index <= apply.entries@.last().index,
            old(self).delegate.apply_state.commit_term <= apply.entries@.last().term,
            forall|k: int| 0 <= k < apply.cbs@.len() ==> (#[trigger] apply.cbs@[k]).cb is Some,
            entries_ok(prepared_model(old(self).delegate, apply), apply.term, entries_view(apply.entries@)),
            old(ctx).committed_count + apply.entries@.len() <= usize::MAX,
        ensures
            ({
                let m = apply_entries(prepared_model(old(self).delegate, apply), apply.term, entries_view(apply.entries@));
                &&& final(self).delegate.term == apply.term
                &&& final(self).delegate.apply_state == m.apply_state
                &&& final(self).delegate.applied_index_term == m.applied_index_term
                &&& final(self).delegate.pending_cmds.normals@ == m.pending
                &&& final(ctx).applied_batch@.subrange(0, old(ctx).applied_batch@.len() as int) == old(ctx).applied_batch@
                &&& replies_match(final(ctx).applied_batch@.skip(old(ctx).applied_batch@.len() as int), m.batch, apply.term)
                &&& final(ctx).notified@.subrange(0, old(ctx).notified@.len() as int) == old(ctx).notified@
                &&& replies_match(final(ctx).notified@.skip(old(ctx).notified@.len() as int), m.immediate, apply.term)
                &&& final(ctx).apply_res@.len() == old(ctx).apply_res@.len() + 1
                &&& final(ctx).apply_res@.last().apply_state == m.apply_state
                &&& final(ctx).apply_res@.last().exec_res@ == m.results
                &&& final(ctx).committed_count == old(ctx).committed_count + apply.entries@.len()
            }),
            final(self).delegate.apply_state.commit_index == apply.entries@.last().index,
            final(self).delegate.apply_state.commit_term == apply.entries@.last().term,
    {
        proof {
            lemma_apply_entries_keep_commit(prepared_model(old(self).delegate, apply), apply.term, entries_view(apply.entries@));
        }
        self.delegate.term = apply.term;
        let Apply { peer_id: _, region_id: _, term: _, entries, cbs } = apply;
        let n = entries.len();
        let last_index = entries[n - 1].index;
        let last_term = entries[n - 1].term;
        self.delegate.apply_state.commit_index = last_index;
        self.delegate.apply_state.commit_term = last_term;
        self.append_proposal(cbs);
        assert(self.delegate.model(Seq::empty(), Seq::empty(), Seq::empty()) == prepared_model(old(self).delegate, apply));
        self.delegate.handle_raft_committed_entries(ctx, entries);
    }
}

impl ApplyContext {
    /// Writes the batched state changes to the engine and sends the replies
    /// that waited for them. Says whether the write had to be synced.
    pub fn write_to_db(&mut self, engine: &mut KvEngine) -> (res: bool)
        requires
            old(engine).wf(),
        ensures
            final(engine).wf(),
            res == old(self).sync_log_hint,
            final(engine)@ == apply_kv_ops(old(engine)@, old(self).kv_wb.ops@),
            final(self).kv_wb.ops@.len() == 0,
            old(self).kv_wb.ops@.len() > 0 ==> !final(self).sync_log_hint,
            old(self).kv_wb.ops@.len() == 0 ==> final(self).sync_log_hint == old(self).sync_log_hint,
            final(self).applied_batch@.len() == 0,
            final(self).notified@ == old(self).notified@ + old(self).applied_batch@,
            final(self).apply_res == old(self).apply_res,
            final(self).committed_count == old(self).committed_count,
    {
        let need_sync = self.sync_log_hint;
        if !self.kv_wb.is_empty() {
            engine.write(&mut self.kv_wb);
            self.sync_log_hint = false;
        } else {
            assert(apply_kv_ops(engine@, self.kv_wb.ops@) == engine@) by {
                reveal_with_fuel(apply_kv_ops, 1);
            }
        }
        let mut batch: Vec<(u64, RaftCmdResponse)> = Vec::new();
        std::mem::swap(&mut batch, &mut self.applied_batch);
        self.notified.append(&mut batch);
        need_sync
    }

    /// Stores what was applied for a delegate: its apply state, if it moved
    /// since the last flush, then every batched write; the delegate is then
    /// flushed up to its applied index.
    pub fn commit(&mut self, delegate: &mut ApplyDelegate, engine: &mut KvEngine) -> (res: bool)
        requires
            old(engine).wf(),
        ensures
            final(engine).wf(),
            final(engine)@ == apply_kv_ops(
                old(engine)@,
                if old(delegate).last_flush_applied_index < old(delegate).apply_state.applied_index {
                    old(self).kv_wb.ops@.push(KvWriteOp::PutApplyState { region_id: old(delegate).region.id, state: old(delegate).apply_state })
                } else {
                    old(self).kv_wb.ops@
                },
            ),
            final(delegate).last_flush_applied_index == old(delegate).apply_state.applied_index,
            final(delegate).apply_state == old(delegate).apply_state,
            final(delegate).pending_cmds == old(delegate).pending_cmds,
            final(self).kv_wb.ops@.len() == 0,
            final(self).applied_batch@.len() == 0,
            final(self).notified@ == old(self).notified@ + old(self).applied_batch@,
    {
        if delegate.last_flush_applied_index < delegate.apply_state.applied_index {
            delegate.write_apply_state(&mut self.kv_wb);
        }
        let synced = self.write_to_db(engine);
        delegate.last_flush_applied_index = delegate.apply_state.applied_index;
        synced
    }

    /// Ends a round of applying: the batched writes are stored, the replies
    /// sent, and the results of the round handed out for the peers.
    pub fn flush(&mut self, engine: &mut KvEngine) -> (res: (bool, Vec<ApplyRes>))
        requires
            old(engine).wf(),
        ensures
            final(engine).wf(),
            res.0 == old(self).sync_log_hint,
            final(engine)@ == apply_kv_ops(old(engine)@, old(self).kv_wb.ops@),
            res.1@ == old(self).apply_res@,
            final(self).apply_res@.len() == 0,
            final(self).kv_wb.ops@.len() == 0,
            final(self).applied_batch@.len() == 0,
            final(self).notified@ == old(self).notified@ + old(self).applied_batch@,
            final(self).committed_count == 0,
    {
        let is_synced = self.write_to_db(engine);
        let mut res: Vec<ApplyRes> = Vec::new();
        std::mem::swap(&mut res, &mut self.apply_res);
        self.committed_count = 0;
        (is_synced, res)
    }
}

} // verus!
