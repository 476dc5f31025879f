use tiny_mq::bootstrap::prepare_bootstrap_cluster;
use tiny_mq::engine::{Engines, RaftWriteBatch};
use tiny_mq::entry::{Entry, EntryType};
use tiny_mq::message_queue::{
    ConsumeStep, LogEntry, LogEntryReceiver, consume_step, get_range, get_start_index_and_applied_index,
    parse_log_entry, query_raft_log_entries,
};
use tiny_mq::metapb::{Peer, PeerRole, initial_region};
use tiny_mq::raft_cmd::{CmdType, Context, MessageQueueRequest, RaftCmdRequest, RaftRequestHeader, Request};

fn meta(id: u64) -> Peer {
    Peer { id, store_id: id, role: PeerRole::Voter }
}

fn write_command(payloads: &[&[u8]]) -> RaftCmdRequest {
    let mut requests = Vec::new();
    for p in payloads {
        requests.push(Request {
            cmd_type: CmdType::MessageQueue,
            message_queue: MessageQueueRequest { context: Context { region_id: 1, peer: meta(1), term: 0 }, payload: p.to_vec() },
        });
    }
    RaftCmdRequest {
        header: RaftRequestHeader { region_id: 1, peer: meta(1), term: 0, uuid: Vec::new() },
        requests,
        admin_request: None,
        status_request: None,
    }
}

fn engines_with_log(applied: u64) -> (Engines, tiny_mq::metapb::Region) {
    let mut engines = Engines::new();
    let region = initial_region(1, &vec![(1, 1)]);
    prepare_bootstrap_cluster(&mut engines, &region).unwrap();
    let mut wb = RaftWriteBatch::new();
    let mut entries = Vec::new();
    for i in 6..=20u64 {
        entries.push(Entry { entry_type: EntryType::EntryNormal, term: 6, index: i, cmd: Some(write_command(&[b"m"])), size: 4 });
    }
    wb.append(1, entries);
    engines.raft.consume(&mut wb);
    let mut state = engines.kv.get_apply_state(1).unwrap();
    state.applied_index = applied;
    engines.kv.put_apply_state(1, state);
    (engines, region)
}

#[test]
fn readable_range_is_after_truncation_up_to_applied() {
    let (engines, region) = engines_with_log(12);
    assert_eq!(get_start_index_and_applied_index(&engines, &region), (6, 12));
    assert!(matches!(get_range(&engines, &region, 5, 8), Err((6, 12))));
    assert!(matches!(get_range(&engines, &region, 6, 13), Err((6, 12))));
    let got = get_range(&engines, &region, 7, 9).unwrap();
    assert_eq!(got.len(), 3);
    assert_eq!(got[0].index, 7);
    assert_eq!(got[2].index, 9);
}

#[test]
fn query_is_cut_to_the_readable_log() {
    let (engines, region) = engines_with_log(12);
    let resp = query_raft_log_entries(&engines, &region, 0, 100);
    assert_eq!(resp.first_log_index, 6);
    assert_eq!(resp.last_log_index, 12);
    assert!(resp.error.is_none());
    assert_eq!(resp.entries.len(), 7);
    let resp = query_raft_log_entries(&engines, &region, 13, 100);
    let e = resp.error.unwrap();
    assert_eq!(e.start_index, 13);
    assert_eq!(e.end_index, 12);
    assert!(resp.entries.is_empty());
}

#[test]
fn consumer_steps() {
    assert_eq!(consume_step(10, 5, 9), ConsumeStep::Wait);
    assert_eq!(consume_step(10, 5, 10), ConsumeStep::Read { start: 10, end: 10 });
    assert_eq!(consume_step(10, 5, 5000), ConsumeStep::Read { start: 10, end: 1010 });
    let mut at = 1;
    let mut read = 0;
    while let ConsumeStep::Read { start, end } = consume_step(at, 1, 2500) {
        assert_eq!(start, at);
        read += end - start + 1;
        at = end + 1;
    }
    assert_eq!(read, 2500);
}

#[test]
fn entries_decode_to_payloads() {
    let e = Entry { entry_type: EntryType::EntryNormal, term: 1, index: 9, cmd: Some(write_command(&[b"ab", b"c"])), size: 10 };
    let (index, msgs) = parse_log_entry(&e);
    assert_eq!(index, 9);
    assert_eq!(msgs, vec![b"ab".to_vec(), b"c".to_vec()]);
    let empty = Entry { entry_type: EntryType::EntryNormal, term: 1, index: 10, cmd: None, size: 0 };
    assert_eq!(parse_log_entry(&empty), (10, vec![]));
}

#[test]
fn receiver_stamps_and_batches() {
    let (tx, rx) = std::sync::mpsc::sync_channel(10);
    for i in 0..5u64 {
        tx.send(LogEntry::new(i, vec![i])).unwrap();
    }
    let r = LogEntryReceiver(rx);
    let first = r.try_recv().ok().unwrap();
    assert_eq!(first.index, 0);
    assert!(first.meta.recv_time.is_some());
    let batch = r.batch_recv(3);
    assert_eq!(batch.len(), 3);
    assert_eq!(batch[2].index, 3);
    assert!(batch.iter().all(|e| e.meta.recv_time.is_some()));
    let rest = r.batch_recv(10);
    assert_eq!(rest.len(), 1);
    drop(tx);
    assert!(r.recv().is_err());
    assert!(r.try_recv().is_err());
}
