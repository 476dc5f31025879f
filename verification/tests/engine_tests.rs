use tiny_mq::engine::{RaftEngine, RaftWriteBatch, RAFT_LOG_MULTI_GET_CNT};
use tiny_mq::entry::{Entry, EntryType};
use tiny_mq::raft_state::{HardState, RaftLocalState};

fn entry(index: u64) -> Entry {
    Entry { entry_type: EntryType::EntryNormal, term: 0, index, cmd: None, size: 3 }
}

fn entries(low: u64, high: u64) -> Vec<Entry> {
    let mut v = Vec::new();
    for i in low..high {
        v.push(entry(i));
    }
    v
}

#[test]
fn test_engine_log() {
    let mut engine = RaftEngine::new();

    let mock_group = 5;
    let low = 0;
    let high = 3;

    let mut wb = RaftWriteBatch::new();
    wb.append(mock_group, entries(low, high));
    engine.consume(&mut wb);

    let expected = entries(low, high);
    for i in 0..high {
        let e = engine.get_entry(mock_group, i).unwrap();
        let want = &expected[i as usize];
        assert_eq!(e.entry_type, want.entry_type);
        assert_eq!(e.term, want.term);
        assert_eq!(e.index, want.index);
        assert_eq!(e.size, want.size);
        assert_eq!(e.cmd.is_none(), want.cmd.is_none());
    }
    assert!(engine.get_entry(mock_group, high).is_none());

    let size = engine.fetch_entries_to(mock_group, low, high, None, &mut vec![]);
    assert_eq!(size, high as usize);

    // the first entry is fetched even when it is larger than the limit
    let size = engine.fetch_entries_to(mock_group, low, high, Some(0), &mut vec![]);
    assert_eq!(size, 1);

    let size = engine.fetch_entries_to(mock_group, low, high + RAFT_LOG_MULTI_GET_CNT + 1, Some(0), &mut vec![]);
    assert_eq!(size, 1);

    // no entry is fetched when high <= low
    let size = engine.fetch_entries_to(mock_group, low, low, Some(0), &mut vec![]);
    assert_eq!(size, 0);

    let raft_state = RaftLocalState { hard_state: HardState { term: 0, vote: 0, commit: 0 }, last_index: 0 };
    assert!(engine.get_raft_state(mock_group).is_none());
    engine.put_raft_state(mock_group, raft_state);
    assert!(engine.get_raft_state(mock_group).is_some());
}

#[test]
fn test_write_batch_log() {
    let mut write_batch = RaftWriteBatch::new();

    let mock_group = 5;
    let low = 0;
    let high = 3;

    write_batch.append(mock_group, entries(low, high));

    write_batch.cut_logs(mock_group, low, low + 1);
    assert_eq!(write_batch.count(), (high - low + 1) as usize);
}

#[test]
fn fetch_fills_the_buffer_in_order() {
    let mut engine = RaftEngine::new();
    let mut wb = RaftWriteBatch::new();
    wb.append(1, entries(10, 30));
    assert_eq!(engine.consume(&mut wb), 20);
    assert!(wb.is_empty());
    let mut buf = Vec::new();
    let n = engine.fetch_entries_to(1, 12, 25, None, &mut buf);
    assert_eq!(n, 13);
    assert_eq!(buf.len(), 13);
    for (k, e) in buf.iter().enumerate() {
        assert_eq!(e.index, 12 + k as u64);
    }
    assert_eq!(engine.first_log_index(1), Some(10));
    assert_eq!(engine.first_log_index(2), None);
}

#[test]
fn gc_from_zero_starts_at_the_first_entry() {
    let mut engine = RaftEngine::new();
    let mut wb = RaftWriteBatch::new();
    wb.append(7, entries(5, 15));
    engine.consume(&mut wb);
    assert_eq!(engine.gc(7, 0, 8), 3);
    assert!(engine.get_entry(7, 7).is_none());
    assert!(engine.get_entry(7, 8).is_some());
    assert_eq!(engine.gc(7, 9, 9), 0);
    assert_eq!(engine.gc(8, 0, 100), 0);
}

#[test]
fn delete_and_read_back() {
    let mut engine = RaftEngine::new();
    engine.put_entry(3, entry(4));
    assert!(engine.get_entry(3, 4).is_some());
    engine.delete_entry(3, 4);
    assert!(engine.get_entry(3, 4).is_none());
}
