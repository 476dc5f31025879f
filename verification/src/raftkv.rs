//! The storage front end: turns client writes into raft commands and turns
//! their replies back into results.
use vstd::prelude::*;
use crate::text::{cat, cat_u64, decimal};
use crate::errors::Error;
use crate::raft_cmd::{Context, Modify, RaftCmdRequest, RaftCmdResponse, RaftRequestHeader, Response, modifies_to_requests};

verus! {

/// What a callback learns besides the result: the term of the reply.
#[derive(Debug)]
pub struct CbContext {
    pub term: Option<u64>,
}

impl CbContext {
    /// A context that knows no term yet.
    pub fn new() -> (res: CbContext)
        ensures
            res.term is None,
    {
        CbContext { term: None }
    }
}

/// The context of a reply: its current term.
pub fn new_ctx(resp: &RaftCmdResponse) -> (res: CbContext)
    ensures
        res.term == Some(resp.header.current_term),
{
    let mut cb_ctx = CbContext::new();
    cb_ctx.term = Some(resp.header.current_term);
    cb_ctx
}

/// The text of the error for a reply with the wrong number of responses.
pub open spec fn count_mismatch_text(got: usize, want: usize) -> Seq<char> {
    "responses count "@ + decimal(got as nat) + " is not equal to requests count "@ + decimal(want as nat)
}

/// Formats the message for a reply that holds `got` responses where `want`
/// were expected (`format!`). Claims only that the text is a function of
/// the two counts.
fn count_mismatch_message(got: usize, want: usize) -> (s: String)
    ensures
        s@ == count_mismatch_text(got, want),
{
    let s = cat_u64(String::from_str("responses count "), got as u64);
    let s = cat(s, " is not equal to requests count ");
    cat_u64(s, want as u64)
}

/// Checks a reply to a write of `req_cnt` requests: it fails with the error
/// the reply carries, or when it does not hold one response per request.
/// The error is taken out of the reply.
pub fn check_raft_cmd_response(resp: &mut RaftCmdResponse, req_cnt: usize) -> (res: Result<(), Error>)
    ensures
        match old(resp).header.error {
            Some(pb) => res == Err::<(), Error>(Error::RequestFailed(pb)) && final(resp).header.error is None,
            None => {
                &&& *final(resp) == *old(resp)
                &&& if req_cnt == old(resp).responses@.len() {
                    res is Ok
                } else {
                    res matches Err(Error::Other(s)) && s@ == count_mismatch_text(old(resp).responses@.len() as usize, req_cnt)
                }
            },
        },
        final(resp).responses == old(resp).responses,
        final(resp).header.current_term == old(resp).header.current_term,
{
    if resp.header.error.is_some() {
        let mut taken: Option<crate::errors::ErrorPb> = None;
        std::mem::swap(&mut taken, &mut resp.header.error);
        match taken {
            Some(pb) => return Err(Error::RequestFailed(pb)),
            None => {
                assert(false);
                return Ok(());
            },
        }
    }
    let got = resp.responses.len();
    if req_cnt != got {
        return Err(Error::Other(count_mismatch_message(got, req_cnt)));
    }
    Ok(())
}

/// Turns the reply to a write of `req_cnt` requests into its context and
/// either its responses or the error that `check_raft_cmd_response` finds.
pub fn on_write_result(write_resp: RaftCmdResponse, req_cnt: usize) -> (res: (CbContext, Result<Vec<Response>, Error>))
    ensures
        res.0.term == Some(write_resp.header.current_term),
        match write_resp.header.error {
            Some(pb) => res.1 == Err::<Vec<Response>, Error>(Error::RequestFailed(pb)),
            None => if req_cnt == write_resp.responses@.len() {
                res.1 matches Ok(v) && v@ == write_resp.responses@
            } else {
                res.1 matches Err(Error::Other(s)) && s@ == count_mismatch_text(write_resp.responses@.len() as usize, req_cnt)
            },
        },
{
    let mut resp = write_resp;
    let cb_ctx = new_ctx(&resp);
    match check_raft_cmd_response(&mut resp, req_cnt) {
        Err(e) => (cb_ctx, Err(e)),
        Ok(()) => {
            let mut resps: Vec<Response> = Vec::new();
            std::mem::swap(&mut resps, &mut resp.responses);
            (cb_ctx, Ok(resps))
        },
    }
}

/// The header of a command addressed as the client's context says.
pub fn new_request_header(ctx: &Context) -> (header: RaftRequestHeader)
    ensures
        header.region_id == ctx.region_id,
        header.peer == ctx.peer,
        header.term == ctx.term,
        header.uuid@.len() == 0,
{
    let mut header = RaftRequestHeader { region_id: ctx.region_id, peer: ctx.peer, term: 0, uuid: Vec::new() };
    if ctx.term != 0 {
        header.term = ctx.term;
    }
    header
}

/// The command that writes a batch of modifications in the client's
/// context, with the number of requests it carries.
pub fn build_write_command(ctx: &Context, modifies: Vec<Modify>) -> (res: (RaftCmdRequest, usize))
    ensures
        res.0.header.region_id == ctx.region_id,
        res.0.header.peer == ctx.peer,
        res.0.header.term == ctx.term,
        res.0.header.uuid@.len() == 0,
        res.0.requests@.len() == modifies@.len(),
        forall|i: int| 0 <= i < modifies@.len() ==> (match modifies@[i] {
            Modify::MessageQueue(m) => (#[trigger] res.0.requests@[i]).message_queue == m,
        }) && res.0.requests@[i].cmd_type == crate::raft_cmd::CmdType::MessageQueue,
        res.0.admin_request is None,
        res.0.status_request is None,
        res.1 == modifies@.len(),
{
    let reqs = modifies_to_requests(modifies);
    let len = reqs.len();
    let header = new_request_header(ctx);
    (RaftCmdRequest { header, requests: reqs, admin_request: None, status_request: None }, len)
}

} // verus!
