//! Commands sent to a peer and the callbacks that wait for their replies.
//! A callback is known by an id; invoking it is recorded as a notice that
//! the caller delivers.
use vstd::prelude::*;
use crate::errors::ErrorPb;
use crate::raft_cmd::{MessageQueueResponse, RaftCmdRequest, RaftCmdResponse, RaftResponseHeader, Response};
use crate::metapb::copy_bytes;

verus! {

/// Who waits for the reply to a command.
#[derive(Debug)]
pub enum Callback {
    /// Nobody.
    NoCallback,
    /// A reader, by id.
    Read(u64),
    /// A writer, by id, with the ids of those told when the command is
    /// proposed and when it is committed.
    Write { cb: u64, proposed_cb: Option<u64>, committed_cb: Option<u64> },
    /// The writers of a batch: each with the number of requests it sent,
    /// in order, and those told when the batch is proposed and committed.
    BatchWrite { parts: Vec<(Option<u64>, usize)>, proposed_cbs: Vec<u64>, committed_cbs: Vec<u64> },
}

/// The id that receives the reply of a single command, if any.
pub open spec fn reply_target(cb: Callback) -> Option<u64> {
    match cb {
        Callback::Read(id) => Some(id),
        Callback::Write { cb, .. } => Some(cb),
        _ => None,
    }
}

impl Callback {
    /// The id that receives the reply of a single command, if any.
    pub fn target(&self) -> (res: Option<u64>)
        ensures
            res == reply_target(*self),
    {
        match self {
            Callback::Read(id) => Some(*id),
            Callback::Write { cb, .. } => Some(*cb),
            _ => None,
        }
    }

    /// Whether nobody waits.
    pub fn is_none(&self) -> (res: bool)
        ensures
            res == (*self is NoCallback),
    {
        match self {
            Callback::NoCallback => true,
            _ => false,
        }
    }

    /// The ids told when the command is proposed.
    pub open spec fn proposed_ids(self) -> Seq<u64> {
        match self {
            Callback::Write { proposed_cb: Some(p), .. } => seq![p],
            Callback::BatchWrite { proposed_cbs, .. } => proposed_cbs@,
            _ => Seq::empty(),
        }
    }

    /// The ids told when the command is committed.
    pub open spec fn committed_ids(self) -> Seq<u64> {
        match self {
            Callback::Write { committed_cb: Some(c), .. } => seq![c],
            Callback::BatchWrite { committed_cbs, .. } => committed_cbs@,
            _ => Seq::empty(),
        }
    }
}

/// A command for a peer, with who waits for its reply.
#[derive(Debug)]
pub struct RaftCommand {
    pub request: RaftCmdRequest,
    pub callback: Callback,
}

impl RaftCommand {
    pub fn new(request: RaftCmdRequest, callback: Callback) -> (res: RaftCommand)
        ensures
            res.request == request,
            res.callback == callback,
    {
        RaftCommand { request, callback }
    }
}

/// A copy of an error.
pub fn copy_error_pb(e: &ErrorPb) -> (res: ErrorPb)
    ensures
        res == *e,
{
    ErrorPb {
        message: e.message.clone(),
        not_leader: e.not_leader,
        region_not_found: e.region_not_found,
        raft_entry_too_large: e.raft_entry_too_large,
        store_not_match: e.store_not_match,
        stale_command: e.stale_command,
        region_not_initialized: e.region_not_initialized,
    }
}

/// A copy of a reply header.
pub fn copy_response_header(h: &RaftResponseHeader) -> (res: RaftResponseHeader)
    ensures
        res.error == h.error,
        res.uuid@ == h.uuid@,
        res.current_term == h.current_term,
{
    let error = match &h.error {
        Some(e) => Some(copy_error_pb(e)),
        None => None,
    };
    RaftResponseHeader { error, uuid: copy_bytes(&h.uuid), current_term: h.current_term }
}

/// A copy of a response.
pub fn copy_response(r: &Response) -> (res: Response)
    ensures
        res == *r,
{
    Response {
        cmd_type: r.cmd_type,
        message_queue: MessageQueueResponse {
            index: r.message_queue.index,
            offset: r.message_queue.offset,
            error: r.message_queue.error.clone(),
        },
    }
}

/// Copies the responses `[from, to)`.
pub fn copy_responses(v: &Vec<Response>, from: usize, to: usize) -> (res: Vec<Response>)
    requires
        from <= to <= v@.len(),
    ensures
        res@ == v@.subrange(from as int, to as int),
{
    let mut out: Vec<Response> = Vec::new();
    let mut i: usize = from;
    while i < to
        invariant
            from <= i <= to <= v@.len(),
            out@ == v@.subrange(from as int, i as int),
        decreases to - i,
    {
        out.push(copy_response(&v[i]));
        assert(out@ =~= v@.subrange(from as int, i + 1));
        i = i + 1;
    }
    out
}

} // verus!
