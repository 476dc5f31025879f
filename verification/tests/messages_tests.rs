use tiny_mq::apply::ApplyDelegate;
use tiny_mq::errors::{Error, ErrorPb, debug_text};
use tiny_mq::gateway::{ProbeStep, RaftCluster};
use tiny_mq::message_queue::{ConsumeStep, LogEntry, QueryRangeError, TryRecvError, consume_step, recv_step};
use tiny_mq::metapb::{Peer, PeerRole, Region};
use tiny_mq::persist::{collect_step, MAX_BATCH_LEN};
use tiny_mq::raft_client::{Queue, RaftClient, RaftMessage};
use tiny_mq::raft_cmd::new_compact_log_request;
use tiny_mq::raft_state::initial_apply_state;
use tiny_mq::raftkv::check_raft_cmd_response;
use tiny_mq::raft_cmd::RaftCmdResponse;
use tiny_mq::service::check_raft_message_store;

fn msg(to_store: u64, tag: u8) -> RaftMessage {
    RaftMessage {
        region_id: 1,
        from_peer: Peer { id: 1, store_id: 1, role: PeerRole::Voter },
        to_peer: Peer { id: to_store, store_id: to_store, role: PeerRole::Voter },
        message: vec![tag],
    }
}

#[test]
fn error_texts_name_the_variant_and_its_fields() {
    assert_eq!(ErrorPb::from_error(Error::RegionNotFound(3)).message, "RegionNotFound(3)");
    assert_eq!(ErrorPb::from_error(Error::Other(String::from("boom"))).message, "Other(\"boom\")");
    assert_eq!(ErrorPb::from_error(Error::NotLeader(12, None)).message, "NotLeader(12, None)");
    let leader = Peer { id: 2, store_id: 7, role: PeerRole::Learner };
    assert_eq!(
        ErrorPb::from_error(Error::NotLeader(1, Some(leader))).message,
        "NotLeader(1, Some(Peer { id: 2, store_id: 7, role: Learner }))"
    );
    assert_eq!(
        ErrorPb::from_error(Error::StoreNotMatch { to_store_id: 4, my_store_id: 5 }).message,
        "StoreNotMatch { to_store_id: 4, my_store_id: 5 }"
    );
    assert_eq!(ErrorPb::from_error(Error::StaleCommand).message, "StaleCommand");
}

#[test]
fn check_messages_carry_the_numbers() {
    match check_raft_message_store(3, 4) {
        Err(Error::Other(m)) => assert_eq!(m, "to_store_id != store_id, to_store_id is 3, store_id is 4"),
        _ => panic!("expected a store mismatch"),
    }
    let mut resp = RaftCmdResponse::new();
    match check_raft_cmd_response(&mut resp, 2) {
        Err(Error::Other(m)) => assert_eq!(m, "responses count 0 is not equal to requests count 2"),
        _ => panic!("expected a count mismatch"),
    }
}

#[test]
fn refused_compaction_replies_with_its_reason() {
    let mut d = ApplyDelegate::new(1, 1, Region::new_empty(), initial_apply_state(), 0);
    let peer = Peer { id: 1, store_id: 1, role: PeerRole::Voter };
    let (resp, _) = d.apply_raft_cmd(6, 1, &new_compact_log_request(1, peer, 7, 0));
    assert_eq!(
        resp.header.error.unwrap().message,
        "Other(\"command format is outdated, please upgrade leader\")"
    );
    let (resp, _) = d.apply_raft_cmd(7, 1, &new_compact_log_request(1, peer, 8, 1));
    assert_eq!(resp.header.error.unwrap().message, "Other(\"compact index > applied index\")");
    assert_eq!(d.apply_state.applied_index, 7);
}

#[test]
fn a_full_queue_refuses_a_message() {
    let mut q = Queue::with_capacity(1);
    assert!(q.push(msg(2, 1)));
    assert!(!q.push(msg(2, 2)));
    assert_eq!(q.len(), 1);
}

#[test]
fn flush_clears_the_dirty_flags_once() {
    let mut c = RaftClient::new();
    assert!(c.send(msg(2, 1)));
    assert!(c.send(msg(3, 1)));
    assert!(c.streams.get(&2).unwrap().dirty);
    c.flush();
    assert!(!c.streams.get(&2).unwrap().dirty);
    assert!(!c.streams.get(&3).unwrap().dirty);
    assert_eq!(c.to_wake, vec![2, 3]);
    c.flush();
    assert_eq!(c.to_wake, vec![2, 3]);
    assert!(!c.need_flush());
}

#[test]
fn batch_steps_add_until_told_to_stop() {
    let mut buffer = vec![0u32];
    assert!(collect_step(&mut buffer, Some(1)));
    assert_eq!(buffer, vec![0, 1]);
    assert!(!collect_step(&mut buffer, None));
    assert_eq!(buffer, vec![0, 1]);
    let mut full: Vec<u32> = (0..MAX_BATCH_LEN as u32).collect();
    assert!(!collect_step(&mut full, Some(7)));
    assert_eq!(full.len(), MAX_BATCH_LEN + 1);

    let mut entries: Vec<LogEntry<u8>> = Vec::new();
    assert!(recv_step(&mut entries, Ok(LogEntry::new(4, vec![1]))));
    assert!(!recv_step(&mut entries, Err(TryRecvError::Empty)));
    assert!(!recv_step(&mut entries, Err(TryRecvError::Disconnected)));
    assert_eq!(entries.len(), 1);
    assert_eq!(entries[0].index, 4);
}

#[test]
fn leader_search_moves_round_the_nodes() {
    let mut cluster: RaftCluster<String> =
        RaftCluster::new(vec![String::from("a"), String::from("b"), String::from("c")]);
    assert!(cluster.get_or_reset_leader(0).is_none());
    let start = cluster.probe_start();
    assert_eq!(start, 1);
    assert_eq!(cluster.reset_leader_step(3, None), ProbeStep::Probe { node_id: 1 });
    assert_eq!(cluster.reset_leader_step(1, None), ProbeStep::Probe { node_id: 2 });
    assert_eq!(cluster.reset_leader_step(2, Some(3)), ProbeStep::Found { leader_id: 3, probed_node: 2 });
    let counter = cluster.record_leader(String::from("c"), 3, 2);
    assert_eq!(counter, 1);
    let (node, c) = cluster.get_or_reset_leader(1).unwrap();
    assert_eq!(node, "c");
    assert_eq!(c, 1);
    assert_eq!(cluster.probe_start(), 2);
}

#[test]
fn empty_query_range_is_explained() {
    let e = QueryRangeError { req_start: 9, first_log_index: 6, start_index: 9, req_end: 3, last_log_index: 7, end_index: 3 };
    assert_eq!(
        e.text(),
        "Illegal Request. Max(Req's start index(9), first_log_index(6))==9 is greater than min(Req's end index(3), last_log_index(7))==3"
    );
}

#[test]
fn error_texts_agree_with_debug() {
    let leader = Peer { id: 2, store_id: 7, role: PeerRole::IncomingVoter };
    let mut cases = vec![
        Error::Other(String::from("a \"quoted\" word\n")),
        Error::Io(String::from("io")),
        Error::Protobuf(String::from("pb")),
        Error::Grpc(String::from("grpc")),
        Error::AddrParse(String::from("addr")),
        Error::Sink,
        Error::RecvError,
        Error::SendError(String::from("send")),
        Error::TrySendError(String::from("try")),
        Error::RaftEntryTooLarge { region_id: 1, entry_size: 99 },
        Error::StoreNotMatch { to_store_id: 4, my_store_id: 5 },
        Error::RegionNotFound(0),
        Error::RegionNotInitialized(18446744073709551615),
        Error::NotLeader(1, None),
        Error::NotLeader(1, Some(leader)),
        Error::Raft(String::from("raft")),
        Error::Timeout(String::from("t")),
        Error::StaleCommand,
        Error::Engine(String::from("e")),
    ];
    let inner = vec![
        Error::NotLeader(3, Some(leader)),
        Error::RaftEntryTooLarge { region_id: 1, entry_size: 2 },
        Error::StoreNotMatch { to_store_id: 1, my_store_id: 2 },
        Error::StaleCommand,
        Error::RegionNotFound(9),
        Error::RegionNotInitialized(8),
        Error::Other(String::from("x")),
    ];
    for e in inner {
        cases.push(Error::RequestFailed(ErrorPb::from_error(e)));
    }
    for e in &cases {
        assert_eq!(debug_text(e), format!("{:?}", e));
    }
}

#[test]
fn consumer_steps_read_every_index_once() {
    let mut at: u64 = 6;
    let mut read = Vec::new();
    for applied in [5u64, 9, 9, 2500, 2600] {
        match consume_step(at, 6, applied) {
            ConsumeStep::Wait => {}
            ConsumeStep::Read { start, end } => {
                assert_eq!(start, at);
                assert!(end <= applied);
                for i in start..=end {
                    read.push(i);
                }
                at = end + 1;
            }
        }
    }
    let expected: Vec<u64> = (6..at).collect();
    assert_eq!(read, expected);
    assert_eq!(at, 2012);
}

#[test]
fn sends_then_flush_wake_each_store_once() {
    let mut c = RaftClient::new();
    for (store, tag) in [(2u64, 1u8), (3, 1), (2, 2), (2, 3)] {
        assert!(c.send(msg(store, tag)));
    }
    assert!(c.need_flush());
    c.flush();
    assert_eq!(c.to_wake, vec![2, 3]);
    c.flush();
    assert_eq!(c.to_wake, vec![2, 3]);
}
