//! Raft commands: what a client proposes to a region and what it gets back.
use vstd::prelude::*;
use crate::text::{cat, cat_u64, decimal};
use crate::errors::{Error, ErrorPb, errorpb_fields_of, error_debug_text};
use crate::metapb::{Peer, Region, copy_bytes};

verus! {

/// The kind of a normal (non-admin) request.
#[derive(Clone, Copy, Debug, PartialEq, Eq, Structural)]
pub enum CmdType {
    Invalid,
    MessageQueue,
}

/// The kind of an admin request.
#[derive(Clone, Copy, Debug, PartialEq, Eq, Structural)]
pub enum AdminCmdType {
    InvalidAdmin,
    CompactLog,
}

/// The kind of a status request.
#[derive(Clone, Copy, Debug, PartialEq, Eq, Structural)]
pub enum StatusCmdType {
    InvalidStatus,
    RegionLeader,
    RegionDetail,
}

/// Where a client request is addressed.
#[derive(Clone, Copy, Debug, PartialEq, Eq, Structural)]
pub struct Context {
    pub region_id: u64,
    pub peer: Peer,
    pub term: u64,
}

/// A message to append to the queue.
#[derive(Debug)]
pub struct MessageQueueRequest {
    pub context: Context,
    pub payload: Vec<u8>,
}

/// One normal request of a command.
#[derive(Debug)]
pub struct Request {
    pub cmd_type: CmdType,
    pub message_queue: MessageQueueRequest,
}

/// A request to compact the log before `compact_index`.
#[derive(Clone, Copy, Debug, PartialEq, Eq, Structural)]
pub struct CompactLogRequest {
    pub compact_index: u64,
    pub compact_term: u64,
}

/// An admin request.
#[derive(Clone, Copy, Debug, PartialEq, Eq, Structural)]
pub struct AdminRequest {
    pub cmd_type: AdminCmdType,
    pub compact_log: CompactLogRequest,
}

/// A status request.
#[derive(Clone, Copy, Debug, PartialEq, Eq, Structural)]
pub struct StatusRequest {
    pub cmd_type: StatusCmdType,
}

/// The header of a command.
#[derive(Debug)]
pub struct RaftRequestHeader {
    pub region_id: u64,
    pub peer: Peer,
    pub term: u64,
    pub uuid: Vec<u8>,
}

/// A command proposed to a region.
#[derive(Debug)]
pub struct RaftCmdRequest {
    pub header: RaftRequestHeader,
    pub requests: Vec<Request>,
    pub admin_request: Option<AdminRequest>,
    pub status_request: Option<StatusRequest>,
}

/// The reply to one message queue request.
#[derive(Debug)]
pub struct MessageQueueResponse {
    pub index: u64,
    pub offset: u64,
    pub error: String,
}

/// The reply to one normal request.
#[derive(Debug)]
pub struct Response {
    pub cmd_type: CmdType,
    pub message_queue: MessageQueueResponse,
}

/// The reply to an admin request.
#[derive(Clone, Copy, Debug, PartialEq, Eq, Structural)]
pub struct AdminResponse {
    pub cmd_type: AdminCmdType,
}

/// The details of a region, as a status request reports them.
#[derive(Debug)]
pub struct RegionDetailResponse {
    pub region: Option<Region>,
    pub leader: Option<Peer>,
}

/// The reply to a status request.
#[derive(Debug)]
pub struct StatusResponse {
    pub cmd_type: StatusCmdType,
    pub region_leader: Option<Peer>,
    pub region_detail: Option<RegionDetailResponse>,
}

/// The header of a reply.
#[derive(Debug)]
pub struct RaftResponseHeader {
    pub error: Option<ErrorPb>,
    pub uuid: Vec<u8>,
    pub current_term: u64,
}

/// The reply to a command.
#[derive(Debug)]
pub struct RaftCmdResponse {
    pub header: RaftResponseHeader,
    pub responses: Vec<Response>,
    pub admin_response: Option<AdminResponse>,
    pub status_response: Option<StatusResponse>,
}

/// The mathematical value of a message queue request.
pub struct MessageQueueRequestView {
    pub context: Context,
    pub payload: Seq<u8>,
}

impl View for MessageQueueRequest {
    type V = MessageQueueRequestView;

    open spec fn view(&self) -> MessageQueueRequestView {
        MessageQueueRequestView { context: self.context, payload: self.payload@ }
    }
}

/// The mathematical value of a normal request.
pub struct RequestView {
    pub cmd_type: CmdType,
    pub message_queue: MessageQueueRequestView,
}

impl View for Request {
    type V = RequestView;

    open spec fn view(&self) -> RequestView {
        RequestView { cmd_type: self.cmd_type, message_queue: self.message_queue@ }
    }
}

/// The mathematical value of a command header.
pub struct RaftRequestHeaderView {
    pub region_id: u64,
    pub peer: Peer,
    pub term: u64,
    pub uuid: Seq<u8>,
}

impl View for RaftRequestHeader {
    type V = RaftRequestHeaderView;

    open spec fn view(&self) -> RaftRequestHeaderView {
        RaftRequestHeaderView {
            region_id: self.region_id,
            peer: self.peer,
            term: self.term,
            uuid: self.uuid@,
        }
    }
}

/// The views of a sequence of requests.
pub open spec fn requests_view(reqs: Seq<Request>) -> Seq<RequestView> {
    reqs.map_values(|r: Request| r@)
}

/// The mathematical value of a command.
pub struct RaftCmdRequestView {
    pub header: RaftRequestHeaderView,
    pub requests: Seq<RequestView>,
    pub admin_request: Option<AdminRequest>,
    pub status_request: Option<StatusRequest>,
}

impl View for RaftCmdRequest {
    type V = RaftCmdRequestView;

    open spec fn view(&self) -> RaftCmdRequestView {
        RaftCmdRequestView {
            header: self.header@,
            requests: requests_view(self.requests@),
            admin_request: self.admin_request,
            status_request: self.status_request,
        }
    }
}

impl MessageQueueRequest {
    /// A copy of this request.
    pub fn copy(&self) -> (r: MessageQueueRequest)
        ensures
            r@ == self@,
    {
        MessageQueueRequest { context: self.context, payload: copy_bytes(&self.payload) }
    }
}

impl Request {
    /// A copy of this request.
    pub fn copy(&self) -> (r: Request)
        ensures
            r@ == self@,
    {
        Request { cmd_type: self.cmd_type, message_queue: self.message_queue.copy() }
    }
}

impl RaftRequestHeader {
    /// A copy of this header.
    pub fn copy(&self) -> (r: RaftRequestHeader)
        ensures
            r@ == self@,
    {
        RaftRequestHeader {
            region_id: self.region_id,
            peer: self.peer,
            term: self.term,
            uuid: copy_bytes(&self.uuid),
        }
    }

    /// Whether two headers are the same.
    pub fn same_as(&self, other: &RaftRequestHeader) -> (res: bool)
        ensures
            res == (self@ == other@),
    {
        if self.region_id != other.region_id || self.peer != other.peer || self.term != other.term
            || self.uuid.len() != other.uuid.len() {
            assert(self@ != other@) by {
                if self@ == other@ {
                    assert(self.uuid@.len() == other.uuid@.len());
                }
            }
            return false;
        }
        let mut i: usize = 0;
        while i < self.uuid.len()
            invariant
                i <= self.uuid@.len(),
                self.uuid@.len() == other.uuid@.len(),
                forall|j: int| 0 <= j < i ==> self.uuid@[j] == other.uuid@[j],
            decreases self.uuid@.len() - i,
        {
            if self.uuid[i] != other.uuid[i] {
                assert(self.uuid@ != other.uuid@) by {
                    assert(self.uuid@[i as int] != other.uuid@[i as int]);
                }
                return false;
            }
            i = i + 1;
        }
        assert(self.uuid@ =~= other.uuid@);
        true
    }
}

/// Copies a vector of requests.
pub fn copy_requests(v: &Vec<Request>) -> (res: Vec<Request>)
    ensures
        requests_view(res@) == requests_view(v@),
{
    let mut res: Vec<Request> = Vec::with_capacity(v.len());
    let mut i: usize = 0;
    while i < v.len()
        invariant
            i <= v.len(),
            res@.len() == i,
            requests_view(res@) =~= requests_view(v@.subrange(0, i as int)),
        decreases v.len() - i,
    {
        let ghost old_res = res@;
        let r = v[i].copy();
        res.push(r);
        i = i + 1;
        assert forall|k: int| 0 <= k < i implies #[trigger] requests_view(res@)[k] == requests_view(
            v@.subrange(0, i as int),
        )[k] by {
            if k < i - 1 {
                assert(requests_view(old_res)[k] == requests_view(v@.subrange(0, i - 1))[k]);
                assert(res@[k] == old_res[k]);
            }
        }
        assert(requests_view(res@) =~= requests_view(v@.subrange(0, i as int)));
    }
    assert(v@.subrange(0, i as int) =~= v@);
    res
}

impl RaftCmdRequest {
    /// A copy of this command.
    pub fn copy(&self) -> (r: RaftCmdRequest)
        ensures
            r@ == self@,
    {
        RaftCmdRequest {
            header: self.header.copy(),
            requests: copy_requests(&self.requests),
            admin_request: self.admin_request,
            status_request: self.status_request,
        }
    }
}

impl RaftCmdResponse {
    /// An empty reply: no error, no uuid, term 0, no responses.
    pub fn new() -> (r: RaftCmdResponse)
        ensures
            r.header.error is None,
            r.header.uuid@.len() == 0,
            r.header.current_term == 0,
            r.responses@.len() == 0,
            r.admin_response is None,
            r.status_response is None,
    {
        RaftCmdResponse {
            header: RaftResponseHeader { error: None, uuid: Vec::new(), current_term: 0 },
            responses: Vec::new(),
            admin_response: None,
            status_response: None,
        }
    }
}

/// Records `term` as the current term of `resp`, unless `term` is 0.
pub fn bind_term(resp: &mut RaftCmdResponse, term: u64)
    ensures
        final(resp).header.current_term == (if term == 0 {
            old(resp).header.current_term
        } else {
            term
        }),
        final(resp).header.error == old(resp).header.error,
        final(resp).header.uuid == old(resp).header.uuid,
        final(resp).responses == old(resp).responses,
        final(resp).admin_response == old(resp).admin_response,
        final(resp).status_response == old(resp).status_response,
{
    if term == 0 {
        return ;
    }
    resp.header.current_term = term;
}

/// Records `err` in the header of `resp`.
pub fn bind_error(resp: &mut RaftCmdResponse, err: Error)
    ensures
        final(resp).header.error matches Some(pb) && pb.message@ == error_debug_text(err)
            && errorpb_fields_of(err, pb),
        final(resp).header.current_term == old(resp).header.current_term,
        final(resp).header.uuid == old(resp).header.uuid,
        final(resp).responses == old(resp).responses,
        final(resp).admin_response == old(resp).admin_response,
        final(resp).status_response == old(resp).status_response,
{
    resp.header.error = Some(ErrorPb::from_error(err));
}

/// A reply that carries only `err`.
pub fn new_error(err: Error) -> (resp: RaftCmdResponse)
    ensures
        resp.header.error matches Some(pb) && pb.message@ == error_debug_text(err)
            && errorpb_fields_of(err, pb),
        resp.header.current_term == 0,
        resp.header.uuid@.len() == 0,
        resp.responses@.len() == 0,
        resp.admin_response is None,
        resp.status_response is None,
{
    let mut resp = RaftCmdResponse::new();
    bind_error(&mut resp, err);
    resp
}

/// A reply that carries only `e`, stamped with `term`.
pub fn err_resp(e: Error, term: u64) -> (resp: RaftCmdResponse)
    ensures
        resp.header.error matches Some(pb) && pb.message@ == error_debug_text(e)
            && errorpb_fields_of(e, pb),
        resp.header.current_term == term,
        resp.header.uuid@.len() == 0,
        resp.responses@.len() == 0,
        resp.admin_response is None,
        resp.status_response is None,
{
    let mut resp = new_error(e);
    bind_term(&mut resp, term);
    resp
}

/// The error a store returns for a command addressed to another store.
pub open spec fn store_mismatch_error(to_store_id: u64, my_store_id: u64) -> Error {
    Error::StoreNotMatch { to_store_id, my_store_id }
}

/// Checks that the command is addressed to `store_id`.
pub fn check_store_id(req: &RaftCmdRequest, store_id: u64) -> (res: Result<(), Error>)
    ensures
        res is Ok <==> req.header.peer.store_id == store_id,
        res matches Err(e) ==> e == (Error::StoreNotMatch {
            to_store_id: req.header.peer.store_id,
            my_store_id: store_id,
        }),
{
    let peer = req.header.peer;
    if peer.store_id == store_id {
        Ok(())
    } else {
        Err(Error::StoreNotMatch { to_store_id: peer.store_id, my_store_id: store_id })
    }
}

/// Checks that the command was not made more than one term before `term`:
/// a header term of 0 means "any term".
pub fn check_term(req: &RaftCmdRequest, term: u64) -> (res: Result<(), Error>)
    ensures
        res is Ok <==> (req.header.term == 0 || term <= req.header.term + 1),
        res matches Err(e) ==> e is StaleCommand,
{
    let header_term = req.header.term;
    if header_term == 0 || term as u128 <= header_term as u128 + 1 {
        Ok(())
    } else {
        Err(Error::StaleCommand)
    }
}

/// Checks that the command is addressed to the peer `peer_id`.
pub fn check_peer_id(req: &RaftCmdRequest, peer_id: u64) -> (res: Result<(), Error>)
    ensures
        res is Ok <==> req.header.peer.id == peer_id,
        res matches Err(e) ==> (e matches Error::Other(s) && s@ == mismatch_peer_id_text(req.header.peer.id, peer_id)),
{
    if req.header.peer.id == peer_id {
        Ok(())
    } else {
        Err(Error::Other(mismatch_peer_id_message(req.header.peer.id, peer_id)))
    }
}

/// The text of the error for a command addressed to another peer.
pub open spec fn mismatch_peer_id_text(got: u64, expected: u64) -> Seq<char> {
    "mismatch peer id "@ + decimal(got as nat) + " != "@ + decimal(expected as nat)
}

/// Formats the error for a command addressed to another peer (`format!`).
/// Claims only that the text is a function of the two ids.
fn mismatch_peer_id_message(got: u64, expected: u64) -> (s: String)
    ensures
        s@ == mismatch_peer_id_text(got, expected),
{
    let s = cat_u64(String::from_str("mismatch peer id "), got);
    let s = cat(s, " != ");
    cat_u64(s, expected)
}

/// An admin command header addressed to `peer` of region `region_id`.
pub fn new_admin_request(region_id: u64, peer: Peer) -> (req: RaftCmdRequest)
    ensures
        req.header.region_id == region_id,
        req.header.peer == peer,
        req.header.term == 0,
        req.header.uuid@.len() == 0,
        req.requests@.len() == 0,
        req.admin_request is None,
        req.status_request is None,
{
    RaftCmdRequest {
        header: RaftRequestHeader { region_id, peer, term: 0, uuid: Vec::new() },
        requests: Vec::new(),
        admin_request: None,
        status_request: None,
    }
}

/// A request to compact the log of region `region_id` up to `compact_index`,
/// whose entry has term `compact_term`.
pub fn new_compact_log_request(region_id: u64, peer: Peer, compact_index: u64, compact_term: u64) -> (req:
    RaftCmdRequest)
    ensures
        req.header.region_id == region_id,
        req.header.peer == peer,
        req.header.term == 0,
        req.header.uuid@.len() == 0,
        req.requests@.len() == 0,
        req.admin_request == Some(
            AdminRequest {
                cmd_type: AdminCmdType::CompactLog,
                compact_log: CompactLogRequest { compact_index, compact_term },
            },
        ),
        req.status_request is None,
{
    let mut request = new_admin_request(region_id, peer);
    request.admin_request = Some(
        AdminRequest {
            cmd_type: AdminCmdType::CompactLog,
            compact_log: CompactLogRequest { compact_index, compact_term },
        },
    );
    request
}

/// A status request for `cmd_type`, addressed to the store `store_id` of region `region_id`.
pub fn new_status_request(region_id: u64, store_id: u64, cmd_type: StatusCmdType) -> (req:
    RaftCmdRequest)
    ensures
        req.header.region_id == region_id,
        req.header.peer.store_id == store_id,
        req.header.peer.id == 0,
        req.header.term == 0,
        req.requests@.len() == 0,
        req.admin_request is None,
        req.status_request == Some(StatusRequest { cmd_type }),
{
    let peer = Peer { id: 0, store_id, role: crate::metapb::PeerRole::Voter };
    RaftCmdRequest {
        header: RaftRequestHeader { region_id, peer, term: 0, uuid: Vec::new() },
        requests: Vec::new(),
        admin_request: None,
        status_request: Some(StatusRequest { cmd_type }),
    }
}

/// A write of the storage layer.
#[derive(Debug)]
pub enum Modify {
    MessageQueue(MessageQueueRequest),
}

/// The requests that carry `modifies`, one each, in order.
pub fn modifies_to_requests(modifies: Vec<Modify>) -> (reqs: Vec<Request>)
    ensures
        reqs@.len() == modifies@.len(),
        forall|i: int| 0 <= i < reqs@.len() ==> (#[trigger] reqs@[i]).cmd_type == CmdType::MessageQueue
            && (match modifies@[i] {
                Modify::MessageQueue(m) => reqs@[i].message_queue == m,
            }),
{
    let mut reqs: Vec<Request> = Vec::with_capacity(modifies.len());
    let mut rest = modifies;
    let ghost orig = rest@;
    let n = rest.len();
    let mut i: usize = 0;
    while i < n
        invariant
            n == orig.len(),
            i <= n,
            rest@ == orig.subrange(i as int, n as int),
            reqs@.len() == i,
            forall|j: int| 0 <= j < i ==> (#[trigger] reqs@[j]).cmd_type == CmdType::MessageQueue
                && (match orig[j] {
                    Modify::MessageQueue(m) => reqs@[j].message_queue == m,
                }),
        decreases n - i,
    {
        let m = rest.remove(0);
        match m {
            Modify::MessageQueue(message_queue) => {
                reqs.push(Request { cmd_type: CmdType::MessageQueue, message_queue });
            },
        }
        i = i + 1;
        assert(rest@ =~= orig.subrange(i as int, n as int));
    }
    reqs
}

} // verus!
