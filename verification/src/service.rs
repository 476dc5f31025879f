//! What the store's services decide around their calls into the store:
//! the commands they send and how they read the replies.
use vstd::prelude::*;
use crate::text::{cat, cat_u64, decimal};
use crate::errors::{Error, debug_text, error_debug_text};
use crate::metapb::{Peer, PeerRole, Region};
use crate::raft_cmd::{
    CmdType, Context, MessageQueueRequest, MessageQueueResponse, RaftCmdRequest, RaftCmdResponse,
    Response, StatusCmdType, new_status_request,
};
use crate::raftkv::build_write_command;
use crate::raft_cmd::Modify;

verus! {

/// The region every service addresses: the cluster has a single one.
pub const SERVICE_REGION_ID: u64 = 1;

/// The status command a probe sends to its store: the detail of the region.
pub fn probe_request(store_id: u64) -> (req: RaftCmdRequest)
    ensures
        req.header.region_id == SERVICE_REGION_ID,
        req.header.peer.store_id == store_id,
        req.status_request == Some(crate::raft_cmd::StatusRequest { cmd_type: StatusCmdType::RegionDetail }),
        req.requests@.len() == 0,
        req.admin_request is None,
{
    new_status_request(SERVICE_REGION_ID, store_id, StatusCmdType::RegionDetail)
}

/// What a probe answers from the store's reply: the region and its
/// leader, or the error the reply carries, as a message.
pub fn probe_result(resp: RaftCmdResponse) -> (res: Result<(Option<Region>, Option<Peer>), Error>)
    ensures
        match resp.header.error {
            Some(pb) => res matches Err(Error::Other(m)) && m == pb.message,
            None => match resp.status_response {
                Some(sr) => match sr.region_detail {
                    Some(d) => res matches Ok((r, l)) && r == d.region && l == d.leader,
                    None => res matches Ok((r, l)) && r is None && l is None,
                },
                None => res matches Ok((r, l)) && r is None && l is None,
            },
        },
{
    match resp.header.error {
        Some(e) => {
            return Err(Error::Other(e.message));
        },
        None => {},
    }
    match resp.status_response {
        Some(sr) => match sr.region_detail {
            Some(d) => Ok((d.region, d.leader)),
            None => Ok((None, None)),
        },
        None => Ok((None, None)),
    }
}

/// The text of the error for a raft message sent to another store.
pub open spec fn wrong_store_text(to_store_id: u64, store_id: u64) -> Seq<char> {
    "to_store_id != store_id, to_store_id is "@ + decimal(to_store_id as nat) + ", store_id is "@ + decimal(store_id as nat)
}

/// Formats the error for a raft message sent to another store. Claims
/// only that the text is a function of the two ids.
fn wrong_store_message(to_store_id: u64, store_id: u64) -> (s: String)
    ensures
        s@ == wrong_store_text(to_store_id, store_id),
{
    let s = cat_u64(String::from_str("to_store_id != store_id, to_store_id is "), to_store_id);
    let s = cat(s, ", store_id is ");
    cat_u64(s, store_id)
}

/// Checks that a raft message received by this store is addressed to it.
pub fn check_raft_message_store(to_store_id: u64, store_id: u64) -> (res: Result<(), Error>)
    ensures
        to_store_id == store_id ==> res is Ok,
        to_store_id != store_id ==> (res matches Err(Error::Other(m)) && m@ == wrong_store_text(to_store_id, store_id)),
{
    if to_store_id != store_id {
        return Err(Error::Other(wrong_store_message(to_store_id, store_id)));
    }
    Ok(())
}

/// The write command that appends one message to the queue, addressed as
/// the message's context says, with its number of requests.
pub fn raw_message_queue_command(req: MessageQueueRequest) -> (res: (RaftCmdRequest, usize))
    ensures
        res.0.header.region_id == req.context.region_id,
        res.0.header.peer == req.context.peer,
        res.0.header.term == req.context.term,
        res.0.requests@.len() == 1,
        res.0.requests@[0].cmd_type == CmdType::MessageQueue,
        res.0.requests@[0].message_queue == req,
        res.0.admin_request is None,
        res.0.status_request is None,
        res.1 == 1,
{
    let ctx = req.context;
    let mut modifies: Vec<Modify> = Vec::new();
    modifies.push(Modify::MessageQueue(req));
    build_write_command(&ctx, modifies)
}

/// The answer to an append from the result of its write: the response to
/// its single request, or the error.
pub fn message_queue_result(res: Result<Vec<Response>, Error>) -> (out: Result<MessageQueueResponse, Error>)
    requires
        res matches Ok(v) ==> v@.len() == 1,
    ensures
        match res {
            Ok(v) => out matches Ok(r) && r == v@[0].message_queue,
            Err(e) => out == Err::<MessageQueueResponse, Error>(e),
        },
{
    match res {
        Ok(mut resps) => {
            let r = resps.pop().unwrap();
            Ok(r.message_queue)
        },
        Err(e) => Err(e),
    }
}

/// The reply of the queue service: the response, or an empty response
/// whose error describes what failed.
pub fn message_queue_reply(v: Result<MessageQueueResponse, Error>) -> (resp: MessageQueueResponse)
    ensures
        match v {
            Ok(r) => resp == r,
            Err(e) => resp.index == 0 && resp.offset == 0 && resp.error@ == error_debug_text(e),
        },
{
    match v {
        Ok(resp) => resp,
        Err(e) => MessageQueueResponse { index: 0, offset: 0, error: debug_text(&e) },
    }
}

/// The status command that asks a store who leads the region.
pub fn is_leader_request(region_id: u64, store_id: u64) -> (req: RaftCmdRequest)
    ensures
        req.header.region_id == region_id,
        req.header.peer.store_id == store_id,
        req.status_request == Some(crate::raft_cmd::StatusRequest { cmd_type: StatusCmdType::RegionLeader }),
        req.requests@.len() == 0,
        req.admin_request is None,
{
    new_status_request(region_id, store_id, StatusCmdType::RegionLeader)
}

/// Whether the store leads the region, from the reply to the leader
/// status command: the leader's id is compared with the store's id (peer
/// ids equal store ids in this cluster); a failed call says no.
pub fn is_leader_result(reply: Result<RaftCmdResponse, Error>, store_id: u64) -> (res: bool)
    ensures
        match reply {
            Ok(resp) => res == (leader_id_of(resp) == store_id),
            Err(_) => !res,
        },
{
    match reply {
        Ok(resp) => {
            let leader_id = match &resp.status_response {
                Some(sr) => match &sr.region_leader {
                    Some(p) => p.id,
                    None => 0,
                },
                None => 0,
            };
            leader_id == store_id
        },
        Err(_) => false,
    }
}

/// The leader id a status reply names (0 when it names none).
pub open spec fn leader_id_of(resp: RaftCmdResponse) -> u64 {
    match resp.status_response {
        Some(sr) => match sr.region_leader {
            Some(p) => p.id,
            None => 0,
        },
        None => 0,
    }
}

/// The append request a client of the queue sends: addressed to the
/// region, through the peer whose id is the store's id.
pub fn send_payload_request(region_id: u64, store_id: u64, payload: Vec<u8>) -> (req: MessageQueueRequest)
    ensures
        req.context == (Context {
            region_id,
            peer: Peer { id: store_id, store_id, role: PeerRole::Voter },
            term: 0,
        }),
        req.payload == payload,
{
    MessageQueueRequest {
        context: Context { region_id, peer: Peer { id: store_id, store_id, role: PeerRole::Voter }, term: 0 },
        payload,
    }
}

/// Where an appended message went: its log index and its offset in the
/// entry.
pub fn send_payload_result(resp: &MessageQueueResponse) -> (res: (u64, u64))
    ensures
        res == (resp.index, resp.offset),
{
    (resp.index, resp.offset)
}

} // verus!
