use tiny_mq::bootstrap::{FIRST_REGION_ID, Node};
use tiny_mq::engine::Engines;
use tiny_mq::errors::{Error, ErrorPb};
use tiny_mq::metapb::{Peer, PeerRole};
use tiny_mq::raft_cmd::{
    CmdType, Context, MessageQueueRequest, MessageQueueResponse, RaftCmdResponse, Response, StatusCmdType,
    StatusResponse,
};
use tiny_mq::raftkv::{CbContext, check_raft_cmd_response, on_write_result};
use tiny_mq::service::{
    check_raft_message_store, is_leader_request, is_leader_result, message_queue_reply, message_queue_result,
    probe_request, probe_result, raw_message_queue_command, send_payload_request, send_payload_result,
};

fn error_pb(msg: &str) -> ErrorPb {
    ErrorPb {
        message: String::from(msg),
        not_leader: None,
        region_not_found: None,
        raft_entry_too_large: None,
        store_not_match: None,
        stale_command: false,
        region_not_initialized: None,
    }
}

fn mq_response(index: u64, offset: u64) -> Response {
    Response { cmd_type: CmdType::MessageQueue, message_queue: MessageQueueResponse { index, offset, error: String::from("OK") } }
}

#[test]
fn write_replies_are_checked() {
    assert!(CbContext::new().term.is_none());
    let mut resp = RaftCmdResponse::new();
    resp.header.current_term = 4;
    resp.responses.push(mq_response(3, 0));
    let (ctx, res) = on_write_result(resp, 1);
    assert_eq!(ctx.term, Some(4));
    assert_eq!(res.unwrap().len(), 1);

    let mut resp = RaftCmdResponse::new();
    resp.responses.push(mq_response(3, 0));
    assert!(matches!(check_raft_cmd_response(&mut resp, 2), Err(Error::Other(_))));

    let mut resp = RaftCmdResponse::new();
    resp.header.error = Some(error_pb("not leader"));
    match check_raft_cmd_response(&mut resp, 0) {
        Err(Error::RequestFailed(pb)) => assert_eq!(pb.message, "not leader"),
        _ => panic!("the error must be passed on"),
    }
    assert!(resp.header.error.is_none());
}

#[test]
fn probes_read_the_region_detail() {
    let req = probe_request(3);
    assert_eq!(req.header.region_id, 1);
    assert_eq!(req.header.peer.store_id, 3);
    let mut resp = RaftCmdResponse::new();
    resp.status_response = Some(StatusResponse {
        cmd_type: StatusCmdType::RegionDetail,
        region_leader: None,
        region_detail: Some(tiny_mq::raft_cmd::RegionDetailResponse {
            region: None,
            leader: Some(Peer { id: 2, store_id: 2, role: PeerRole::Voter }),
        }),
    });
    let (region, leader) = probe_result(resp).unwrap();
    assert!(region.is_none());
    assert_eq!(leader.unwrap().id, 2);
    let mut failed = RaftCmdResponse::new();
    failed.header.error = Some(error_pb("gone"));
    assert!(matches!(probe_result(failed), Err(Error::Other(m)) if m == "gone"));
}

#[test]
fn raft_messages_must_be_for_this_store() {
    assert!(check_raft_message_store(1, 1).is_ok());
    assert!(matches!(check_raft_message_store(2, 1), Err(Error::Other(_))));
}

#[test]
fn appends_are_single_writes() {
    let req = MessageQueueRequest { context: Context { region_id: 1, peer: Peer { id: 1, store_id: 1, role: PeerRole::Voter }, term: 3 }, payload: vec![5] };
    let (cmd, n) = raw_message_queue_command(req);
    assert_eq!(n, 1);
    assert_eq!(cmd.header.term, 3);
    assert_eq!(cmd.requests[0].message_queue.payload, vec![5]);
    let r = message_queue_result(Ok(vec![mq_response(8, 0)])).unwrap();
    assert_eq!((r.index, r.offset), (8, 0));
    let reply = message_queue_reply(Err(Error::StaleCommand));
    assert_eq!(reply.error, "StaleCommand");
    let reply = message_queue_reply(Ok(r));
    assert_eq!(send_payload_result(&reply), (8, 0));
    let p = send_payload_request(1, 2, vec![1]);
    assert_eq!(p.context.peer.id, 2);
    assert_eq!(p.context.peer.store_id, 2);
}

#[test]
fn leadership_from_the_leader_status() {
    let req = is_leader_request(1, 2);
    assert!(req.status_request.is_some());
    let mut resp = RaftCmdResponse::new();
    resp.status_response = Some(StatusResponse {
        cmd_type: StatusCmdType::RegionLeader,
        region_leader: Some(Peer { id: 2, store_id: 2, role: PeerRole::Voter }),
        region_detail: None,
    });
    assert!(is_leader_result(Ok(resp), 2));
    assert!(!is_leader_result(Err(Error::StaleCommand), 2));
}

#[test]
fn node_bootstraps_once() {
    let mut engines = Engines::new();
    let mut node = Node::new(1, 3, 2);
    assert_eq!(node.check_store(&engines).unwrap(), 0);
    node.try_bootstrap_store(&mut engines).unwrap();
    assert_eq!(node.check_store(&engines).unwrap(), 2);
    let region = engines.kv.get_region_state(FIRST_REGION_ID).unwrap();
    assert_eq!(region.peers.len(), 3);
    assert_eq!(region.peers[2].id, 3);
    assert!(engines.raft.get_raft_state(FIRST_REGION_ID).is_some());
    node.try_bootstrap_store(&mut engines).unwrap();
    assert_eq!(node.id(), 2);
}
