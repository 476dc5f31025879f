use tiny_mq::batch::{BatchRaftCmdRequestBuilder, split_batch_response};
use tiny_mq::metapb::{Peer, PeerRole};
use tiny_mq::msg::{Callback, RaftCommand};
use tiny_mq::raft_cmd::{
    CmdType, Context, MessageQueueRequest, MessageQueueResponse, RaftCmdRequest, RaftCmdResponse, RaftRequestHeader,
    Request, Response,
};
use tiny_mq::errors::ErrorPb;

fn peer(id: u64) -> Peer {
    Peer { id, store_id: id, role: PeerRole::Voter }
}

fn write_command(n: usize, term: u64) -> RaftCmdRequest {
    let mut requests = Vec::new();
    for k in 0..n {
        requests.push(Request {
            cmd_type: CmdType::MessageQueue,
            message_queue: MessageQueueRequest {
                context: Context { region_id: 1, peer: peer(1), term: 0 },
                payload: vec![k as u8],
            },
        });
    }
    RaftCmdRequest {
        header: RaftRequestHeader { region_id: 1, peer: peer(1), term, uuid: Vec::new() },
        requests,
        admin_request: None,
        status_request: None,
    }
}

fn write_cb(id: u64) -> Callback {
    Callback::Write { cb: id, proposed_cb: Some(id + 100), committed_cb: Some(id + 200) }
}

fn response(n: usize) -> RaftCmdResponse {
    let mut resp = RaftCmdResponse::new();
    for k in 0..n {
        resp.responses.push(Response {
            cmd_type: CmdType::MessageQueue,
            message_queue: MessageQueueResponse { index: 7, offset: k as u64, error: String::from("OK") },
        });
    }
    resp
}

#[test]
fn batchable_commands() {
    let b = BatchRaftCmdRequestBuilder::new(1000);
    assert!(b.can_batch(&write_command(2, 0), 200));
    assert!(!b.can_batch(&write_command(2, 0), 201));
    assert!(!b.can_batch(&write_command(0, 0), 10));
    let mut b = b;
    b.add(RaftCommand::new(write_command(1, 0), write_cb(1)), 10);
    assert!(!b.can_batch(&write_command(1, 3), 10));
    assert!(b.can_batch(&write_command(1, 0), 10));
}

#[test]
fn batch_finishes_on_size_or_count() {
    let mut b = BatchRaftCmdRequestBuilder::new(1000);
    assert!(!b.should_finish());
    b.add(RaftCommand::new(write_command(1, 0), write_cb(1)), 200);
    assert!(!b.should_finish());
    b.add(RaftCommand::new(write_command(1, 0), write_cb(2)), 201);
    assert!(b.should_finish());
    let mut c = BatchRaftCmdRequestBuilder::new(1_000_000);
    c.add(RaftCommand::new(write_command(257, 0), write_cb(3)), 1);
    assert!(c.should_finish());
}

#[test]
fn single_command_keeps_its_callback() {
    let mut b = BatchRaftCmdRequestBuilder::new(1000);
    assert!(b.build().is_none());
    b.add(RaftCommand::new(write_command(2, 0), write_cb(5)), 10);
    let cmd = b.build().unwrap();
    assert_eq!(cmd.request.requests.len(), 2);
    assert!(matches!(cmd.callback, Callback::Write { cb: 5, .. }));
    assert!(b.request.is_none());
    assert_eq!(b.batch_req_size, 0);
}

#[test]
fn batch_reply_is_split_by_request_counts() {
    let mut b = BatchRaftCmdRequestBuilder::new(1000);
    b.add(RaftCommand::new(write_command(2, 0), write_cb(1)), 10);
    b.add(RaftCommand::new(write_command(1, 0), Callback::NoCallback), 10);
    b.add(RaftCommand::new(write_command(3, 0), write_cb(3)), 10);
    let cmd = b.build().unwrap();
    assert_eq!(cmd.request.requests.len(), 6);
    assert_eq!(cmd.request.requests[2].message_queue.payload, vec![0]);
    match cmd.callback {
        Callback::BatchWrite { parts, proposed_cbs, committed_cbs } => {
            assert_eq!(parts, vec![(Some(1), 2), (None, 1), (Some(3), 3)]);
            assert_eq!(proposed_cbs, vec![101, 103]);
            assert_eq!(committed_cbs, vec![201, 203]);
            let shares = split_batch_response(&response(6), &parts);
            assert_eq!(shares.len(), 3);
            assert_eq!(shares[0].1.responses.len(), 2);
            assert_eq!(shares[2].1.responses[0].message_queue.offset, 3);
            assert_eq!(shares[2].1.responses[2].message_queue.offset, 5);
            let mut failed = RaftCmdResponse::new();
            failed.header.error = Some(ErrorPb {
                message: String::from("stale"),
                not_leader: None,
                region_not_found: None,
                raft_entry_too_large: None,
                store_not_match: None,
                stale_command: true,
                region_not_initialized: None,
            });
            let shares = split_batch_response(&failed, &parts);
            assert!(shares.iter().all(|s| s.1.responses.is_empty() && s.1.header.error.is_some()));
        },
        _ => panic!("expected a batch callback"),
    }
}
