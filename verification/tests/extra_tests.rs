use tiny_mq::batch::BatchRaftCmdRequestBuilder;
use tiny_mq::bootstrap::prepare_bootstrap_cluster;
use tiny_mq::engine::Engines;
use tiny_mq::entry::{Entry, EntryType};
use tiny_mq::gateway::RaftCluster;
use tiny_mq::message_queue::load_region;
use tiny_mq::metapb::{Peer as MetaPeer, PeerRole, initial_region};
use tiny_mq::msg::{Callback, RaftCommand};
use tiny_mq::peer::{LightReady, Peer, PeerNotices};
use tiny_mq::raft_client::RaftClient;
use tiny_mq::raft_cmd::{CmdType, Context, MessageQueueRequest, RaftCmdRequest, RaftRequestHeader, Request, StatusCmdType, StatusRequest};

fn meta(id: u64) -> MetaPeer {
    MetaPeer { id, store_id: id, role: PeerRole::Voter }
}

fn write_command(n: usize, term: u64) -> RaftCmdRequest {
    let mut requests = Vec::new();
    for k in 0..n {
        requests.push(Request {
            cmd_type: CmdType::MessageQueue,
            message_queue: MessageQueueRequest { context: Context { region_id: 1, peer: meta(1), term: 0 }, payload: vec![k as u8] },
        });
    }
    RaftCmdRequest {
        header: RaftRequestHeader { region_id: 1, peer: meta(1), term, uuid: Vec::new() },
        requests,
        admin_request: None,
        status_request: None,
    }
}

fn peer3() -> Peer {
    let mut engines = Engines::new();
    let region = initial_region(1, &vec![(1, 1), (2, 2), (3, 3)]);
    prepare_bootstrap_cluster(&mut engines, &region).unwrap();
    Peer::new(1, engines, &region, meta(1)).unwrap().0
}

#[test]
fn addresses_are_split_and_trimmed() {
    let a = RaftCluster::<String>::parse_address("  http://a:1 , http://b:2,http://c:3\n");
    assert_eq!(a, vec!["http://a:1", "http://b:2", "http://c:3"]);
    let one = RaftCluster::<String>::parse_address("x");
    assert_eq!(one, vec!["x"]);
    let empty_piece = RaftCluster::<String>::parse_address("a,,b");
    assert_eq!(empty_piece, vec!["a", "", "b"]);
}

#[test]
fn commands_are_batched_or_proposed_alone() {
    let mut b = BatchRaftCmdRequestBuilder::new(1000);
    let out = b.batch_or_propose(RaftCommand::new(write_command(1, 0), Callback::Read(1)), 10);
    assert!(out.is_empty());
    let out = b.batch_or_propose(RaftCommand::new(write_command(1, 7), Callback::Read(2)), 10);
    assert_eq!(out.len(), 2);
    assert_eq!(out[0].request.header.term, 0);
    assert_eq!(out[1].request.header.term, 7);
    assert!(b.request.is_none());
    let out = b.batch_or_propose(RaftCommand::new(write_command(1, 0), Callback::Read(3)), 500);
    assert_eq!(out.len(), 1);
    let out = b.batch_or_propose(RaftCommand::new(write_command(1, 0), Callback::Read(4)), 150);
    assert!(out.is_empty());
    let out = b.batch_or_propose(RaftCommand::new(write_command(1, 0), Callback::Read(5)), 150);
    assert!(out.is_empty());
    let out = b.batch_or_propose(RaftCommand::new(write_command(1, 0), Callback::Read(6)), 150);
    assert_eq!(out.len(), 1);
    assert_eq!(out[0].request.requests.len(), 3);
}

#[test]
fn advancing_moves_the_commit_index() {
    let mut p = peer3();
    let mut notices = PeerNotices::new();
    let mut trans = RaftClient::new();
    let light = LightReady { commit_index: Some(7), messages: vec![(3, vec![1])], committed_entries: vec![] };
    assert!(p.handle_raft_ready_advance(&mut notices, &mut trans, light).is_none());
    assert_eq!(p.store.commit_index(), 7);
    assert_eq!(trans.new_streams, vec![3]);
    let e = Entry { entry_type: EntryType::EntryNormal, term: 5, index: 6, cmd: None, size: 0 };
    let light = LightReady { commit_index: None, messages: vec![], committed_entries: vec![e] };
    let apply = p.handle_raft_ready_advance(&mut notices, &mut trans, light).unwrap();
    assert_eq!(apply.entries.len(), 1);
    assert_eq!(p.last_applying_idx, 6);
}

#[test]
fn commands_are_checked_before_proposing() {
    let mut p = peer3();
    let mut notices = PeerNotices::new();
    p.raft.term = 4;
    let resp = p.propose_raft_command_prepare(&mut notices, &write_command(1, 0), Some(1)).unwrap();
    assert_eq!(resp.header.current_term, 4);
    let mut status = write_command(0, 0);
    status.status_request = Some(StatusRequest { cmd_type: StatusCmdType::RegionLeader });
    assert!(p.propose_raft_command_prepare(&mut notices, &status, Some(2)).is_none());
    assert_eq!(notices.replies.len(), 1);
    assert_eq!(notices.replies[0].0, 2);
    let mut wrong = write_command(1, 0);
    wrong.header.peer = MetaPeer { id: 1, store_id: 9, role: PeerRole::Voter };
    assert!(p.propose_raft_command_prepare(&mut notices, &wrong, Some(3)).is_none());
    assert!(notices.replies[1].1.header.error.as_ref().unwrap().store_not_match.is_some());
    assert!(!p.post_apply(p.store.apply_state, 4));
    assert_eq!(p.store.applied_index_term(), 4);
}

#[test]
fn queue_region_is_loaded_from_the_engine() {
    let mut engines = Engines::new();
    let region = initial_region(1, &vec![(1, 1), (2, 2)]);
    prepare_bootstrap_cluster(&mut engines, &region).unwrap();
    let r = load_region(&engines, 1);
    assert_eq!(r.peers.len(), 2);
    assert_eq!(r.id, 1);
}
