use tiny_mq::apply::{ApplyRes, ExecResult};
use tiny_mq::bootstrap::prepare_bootstrap_cluster;
use tiny_mq::engine::{Engines, RaftWriteBatch};
use tiny_mq::entry::{Entry, EntryType};
use tiny_mq::errors::Error;
use tiny_mq::metapb::{Peer as MetaPeer, PeerRole, initial_region};
use tiny_mq::peer::{
    Peer, PeerNotices, RaftProposeOutcome, Ready, RequestPolicy, inspect, is_request_urgent, maybe_destroy_source,
    raft_log_gc_decision,
};
use tiny_mq::raft_client::RaftClient;
use tiny_mq::store::{TICK_RAFT_LOG_GC, TickBatches, on_tick};
use tiny_mq::raft_cmd::{
    CmdType, Context, MessageQueueRequest, RaftCmdRequest, RaftCmdResponse, RaftRequestHeader, Request, StatusCmdType,
    StatusRequest,
};
use tiny_mq::raft_state::{HardState, RaftTruncatedState};

fn meta(id: u64) -> MetaPeer {
    MetaPeer { id, store_id: id, role: PeerRole::Voter }
}

fn write_command(n: usize, term: u64) -> RaftCmdRequest {
    let mut requests = Vec::new();
    for k in 0..n {
        requests.push(Request {
            cmd_type: CmdType::MessageQueue,
            message_queue: MessageQueueRequest {
                context: Context { region_id: 1, peer: meta(1), term: 0 },
                payload: vec![k as u8],
            },
        });
    }
    RaftCmdRequest {
        header: RaftRequestHeader { region_id: 1, peer: meta(1), term, uuid: Vec::new() },
        requests,
        admin_request: None,
        status_request: None,
    }
}

fn bootstrapped_peer(n: u64) -> Peer {
    let mut engines = Engines::new();
    let mut peers = Vec::new();
    for i in 1..=n {
        peers.push((i, i));
    }
    let region = initial_region(1, &peers);
    prepare_bootstrap_cluster(&mut engines, &region).unwrap();
    let (p, _) = Peer::new(1, engines, &region, meta(1)).unwrap();
    p
}

#[test]
fn new_peer_checks_its_id_and_campaigns_alone() {
    let mut engines = Engines::new();
    let region = initial_region(1, &vec![(1, 1)]);
    prepare_bootstrap_cluster(&mut engines, &region).unwrap();
    match Peer::new(1, engines, &region, meta(0)) {
        Err(Error::Other(m)) => assert_eq!(m, "invalid peer id"),
        _ => panic!("an invalid id must be refused"),
    }
    let mut engines = Engines::new();
    prepare_bootstrap_cluster(&mut engines, &region).unwrap();
    let (p, campaign) = Peer::new(1, engines, &region, meta(1)).unwrap();
    assert!(campaign);
    assert_eq!(p.last_applying_idx, 5);
    assert_eq!(p.raft.last_index, 5);
    assert_eq!(p.next_proposal_index(), 6);
    let (_, campaign) = {
        let mut engines = Engines::new();
        let region3 = initial_region(1, &vec![(1, 1), (2, 2), (3, 3)]);
        prepare_bootstrap_cluster(&mut engines, &region3).unwrap();
        Peer::new(1, engines, &region3, meta(1)).unwrap()
    };
    assert!(!campaign);
}

#[test]
fn writes_are_proposed_normally() {
    assert!(matches!(inspect(&write_command(1, 0)), Ok(RequestPolicy::ProposeNormal)));
    assert!(!is_request_urgent(&write_command(1, 0)));
    assert_eq!(maybe_destroy_source(), (false, false));
}

#[test]
fn proposals_queue_and_failures_reply() {
    let mut p = bootstrapped_peer(3);
    let mut notices = PeerNotices::new();
    let idx = p.next_proposal_index();
    let ok = p.propose(&mut notices, Some(11), &write_command(1, 0), RaftCmdResponse::new(), 10,
        RaftProposeOutcome::Taken { next_index: idx + 1 }, Some(1));
    assert!(ok);
    assert_eq!(p.proposals.len(), 1);
    assert_eq!(notices.proposed, vec![11]);
    assert_eq!(p.raft.last_index, idx);
    // raft dropped the entry: not the leader
    let idx2 = p.next_proposal_index();
    let ok = p.propose(&mut notices, Some(12), &write_command(1, 0), RaftCmdResponse::new(), 10,
        RaftProposeOutcome::Taken { next_index: idx2 }, None);
    assert!(!ok);
    assert_eq!(notices.replies.len(), 1);
    assert_eq!(notices.replies[0].0, 12);
    assert!(notices.replies[0].1.header.error.as_ref().unwrap().not_leader.is_some());
    // too large an entry
    let ok = p.propose(&mut notices, Some(13), &write_command(1, 0), RaftCmdResponse::new(), 8 * 1024 * 1024 * 1024 + 1,
        RaftProposeOutcome::Taken { next_index: idx2 + 1 }, None);
    assert!(!ok);
    let e = notices.replies[1].1.header.error.as_ref().unwrap();
    assert_eq!(e.raft_entry_too_large.unwrap().entry_size, 8 * 1024 * 1024 * 1024 + 1);
    assert_eq!(p.proposals.len(), 1);
}

#[test]
fn committed_entries_find_their_proposals() {
    let mut p = bootstrapped_peer(3);
    let mut notices = PeerNotices::new();
    let idx = p.next_proposal_index();
    p.propose(&mut notices, Some(21), &write_command(1, 0), RaftCmdResponse::new(), 10,
        RaftProposeOutcome::Taken { next_index: idx + 1 }, None);
    let entry = Entry { entry_type: EntryType::EntryNormal, term: p.raft.term, index: idx, cmd: Some(write_command(1, 0)), size: 10 };
    let apply = p.handle_raft_committed_entries(&mut notices, vec![entry]).unwrap();
    assert_eq!(apply.cbs.len(), 1);
    assert_eq!(apply.cbs[0].cb, Some(21));
    assert_eq!(notices.committed, vec![21]);
    assert_eq!(p.last_applying_idx, idx);
    assert!(p.proposals.is_empty());
    assert!(p.handle_raft_committed_entries(&mut notices, vec![]).is_none());
}

#[test]
fn leader_compacts_once_enough_is_replicated() {
    assert_eq!(raft_log_gc_decision(true, 100, &vec![90, 80], 10, 50), Some(15));
    assert_eq!(raft_log_gc_decision(true, 100, &vec![90, 40], 10, 50), None);
    assert_eq!(raft_log_gc_decision(false, 100, &vec![90, 80], 10, 50), None);
    assert_eq!(raft_log_gc_decision(true, 100, &vec![5], 10, 50), None);
    assert_eq!(raft_log_gc_decision(true, 60, &vec![], 10, 50), Some(15));
}

#[test]
fn status_commands_are_answered() {
    let mut p = bootstrapped_peer(3);
    let mut req = write_command(0, 0);
    req.status_request = Some(StatusRequest { cmd_type: StatusCmdType::RegionDetail });
    let resp = p.execute_status_command(&req).unwrap();
    let detail = resp.status_response.unwrap().region_detail.unwrap();
    assert_eq!(detail.region.unwrap().peers.len(), 3);
    assert!(detail.leader.is_none());
    p.raft.leader_id = 2;
    assert!(p.has_valid_leader());
    req.status_request = Some(StatusRequest { cmd_type: StatusCmdType::RegionLeader });
    let resp = p.execute_status_command(&req).unwrap();
    assert_eq!(resp.status_response.unwrap().region_leader.unwrap().id, 2);
    req.status_request = Some(StatusRequest { cmd_type: StatusCmdType::InvalidStatus });
    assert!(p.execute_status_command(&req).is_err());
}

#[test]
fn pre_propose_checks() {
    let mut p = bootstrapped_peer(3);
    let mut req = write_command(1, 0);
    assert!(matches!(p.pre_propose_raft_command(&req), Ok(None)));
    req.header.peer = MetaPeer { id: 1, store_id: 2, role: PeerRole::Voter };
    assert!(matches!(p.pre_propose_raft_command(&req), Err(Error::StoreNotMatch { .. })));
    req.header.peer = MetaPeer { id: 3, store_id: 1, role: PeerRole::Voter };
    assert!(matches!(p.pre_propose_raft_command(&req), Err(Error::Other(_))));
    req.header.peer = meta(1);
    p.raft.term = 10;
    req.header.term = 8;
    assert!(matches!(p.pre_propose_raft_command(&req), Err(Error::StaleCommand)));
    req.header.term = 9;
    assert!(matches!(p.pre_propose_raft_command(&req), Ok(None)));
}

#[test]
fn messages_go_to_the_recipient_store() {
    let mut p = bootstrapped_peer(3);
    let mut trans = RaftClient::new();
    assert!(p.send_raft_message(3, vec![1, 2], &mut trans));
    assert!(!p.send_raft_message(4, vec![1], &mut trans));
    assert!(!p.send_raft_message(0, vec![1], &mut trans));
    assert_eq!(trans.new_streams, vec![3]);
    let m = trans.pop_for(3).unwrap();
    assert_eq!(m.to_peer.id, 3);
    assert_eq!(m.from_peer.id, 1);
    assert_eq!(m.message, vec![1, 2]);
}

#[test]
fn apply_results_schedule_log_gc() {
    let mut p = bootstrapped_peer(1);
    let mut state = p.store.apply_state;
    state.applied_index = 20;
    let res = ApplyRes {
        region_id: 1,
        apply_state: state,
        applied_index_term: 6,
        exec_res: vec![ExecResult::CompactLog { state: RaftTruncatedState { index: 10, term: 6 }, first_index: 6 }],
    };
    let tasks = p.on_apply_res(res);
    assert_eq!(tasks.len(), 1);
    assert_eq!(tasks[0], tiny_mq::raftlog_gc::Task::gc(1, 0, 11));
    assert_eq!(p.last_compacted_idx, 11);
    assert_eq!(p.store.applied_index(), 20);
    assert_eq!(p.store.applied_index_term(), 6);
}

#[test]
fn a_ready_round_appends_and_sends() {
    let mut p = bootstrapped_peer(3);
    let mut notices = PeerNotices::new();
    let mut trans = RaftClient::new();
    let mut wb = RaftWriteBatch::new();
    let term = p.raft.term;
    let ready = Ready {
        number: 4,
        hs: Some(HardState { term, vote: 1, commit: 5 }),
        becomes_leader: Some(true),
        messages: vec![(2, vec![9]), (7, vec![8])],
        committed_entries: vec![],
        entries: vec![Entry { entry_type: EntryType::EntryNormal, term, index: 6, cmd: None, size: 1 }],
        must_sync: true,
    };
    let (apply, ctx) = p.handle_raft_ready_append(&mut notices, &mut trans, &mut wb, ready);
    assert!(apply.is_none());
    assert_eq!(p.last_unpersisted_number, 4);
    assert_eq!(p.last_urgent_proposal_idx, 5);
    assert_eq!(ctx.raft_state.last_index, 6);
    assert!(ctx.has_new_entries);
    assert_eq!(trans.new_streams, vec![2]);
    assert_eq!(wb.count(), 2);
    p.post_raft_ready_append(ctx);
    assert_eq!(p.store.last_index(), 6);
}

#[test]
fn gc_tick_builds_a_compact_request() {
    let mut p = bootstrapped_peer(1);
    p.raft.is_leader = true;
    p.store.raft_state.last_index = 100;
    let mut registry: u8 = 0;
    let mut batches = TickBatches::new();
    assert!(p.on_raft_gc_log_tick(&mut registry, &mut batches, &vec![100], 200).is_none());
    assert_eq!(registry, TICK_RAFT_LOG_GC);
    assert_eq!(batches.batches[TICK_RAFT_LOG_GC as usize].ticks, vec![p.peer.id]);
    on_tick(&mut registry, TICK_RAFT_LOG_GC);
    assert!(p.on_raft_gc_log_tick(&mut registry, &mut batches, &vec![20], 50).is_none());
    assert_eq!(batches.batches[TICK_RAFT_LOG_GC as usize].ticks, vec![p.peer.id, p.peer.id]);
    let req = p.on_raft_gc_log_tick(&mut registry, &mut batches, &vec![100], 90).unwrap();
    assert_eq!(batches.batches[TICK_RAFT_LOG_GC as usize].ticks.len(), 2);
    let admin = req.admin_request.unwrap();
    assert_eq!(admin.compact_log.compact_index, 15);
    assert_eq!(admin.compact_log.compact_term, 5);
}

#[test]
fn peer_tag_names_region_and_peer() {
    let p = bootstrapped_peer(1);
    assert_eq!(p.tag, "[region 1] 1");
}
