use tiny_mq::engine::{Engines, RaftWriteBatch};
use tiny_mq::entry::{Entry, EntryType};
use tiny_mq::raftlog_gc::{Runner, Task};

fn raft_log_must_not_exist(engines: &Engines, region_id: u64, start_idx: u64, end_idx: u64) {
    for i in start_idx..end_idx {
        assert!(engines.raft.get_entry(region_id, i).is_none());
    }
}

fn raft_log_must_exist(engines: &Engines, region_id: u64, start_idx: u64, end_idx: u64) {
    for i in start_idx..end_idx {
        assert!(engines.raft.get_entry(region_id, i).is_some());
    }
}

#[test]
fn test_gc_raft_log() {
    let mut engines = Engines::new();

    // generate raft logs
    let region_id = 1;
    let mut raft_wb = RaftWriteBatch::new();
    let mut entries = Vec::new();
    for i in 0..100 {
        entries.push(Entry { entry_type: EntryType::EntryNormal, term: 0, index: i, cmd: None, size: 5 });
    }
    raft_wb.append(region_id, entries);
    engines.raft.consume(&mut raft_wb);

    let mut runner = Runner::new(engines);

    let tbls = vec![
        (Task::gc(region_id, 0, 10), 10, (0, 10), (10, 100)),
        (Task::gc(region_id, 0, 50), 40, (0, 50), (50, 100)),
        (Task::gc(region_id, 50, 50), 0, (0, 50), (50, 100)),
        (Task::gc(region_id, 50, 60), 10, (0, 60), (60, 100)),
    ];

    for (task, expected_collectd, not_exist_range, exist_range) in tbls {
        runner.run(task);
        runner.flush();
        let res = runner.take_reports();
        assert_eq!(res, vec![expected_collectd]);
        raft_log_must_not_exist(&runner.engines, 1, not_exist_range.0, not_exist_range.1);
        raft_log_must_exist(&runner.engines, 1, exist_range.0, exist_range.1);
    }
}

#[test]
fn runner_waits_for_a_full_batch() {
    let mut engines = Engines::new();
    let mut raft_wb = RaftWriteBatch::new();
    let mut entries = Vec::new();
    for i in 1..300 {
        entries.push(Entry { entry_type: EntryType::EntryNormal, term: 1, index: i, cmd: None, size: 5 });
    }
    raft_wb.append(2, entries);
    engines.raft.consume(&mut raft_wb);
    let mut runner = Runner::new(engines);
    for k in 0..127u64 {
        runner.run(Task::gc(2, k + 1, k + 2));
    }
    assert_eq!(runner.tasks.len(), 127);
    assert!(runner.reports.is_empty());
    runner.run(Task::gc(2, 128, 130));
    assert!(runner.tasks.is_empty());
    let reports = runner.take_reports();
    assert_eq!(reports.len(), 128);
    assert_eq!(reports[127], 2);
    assert!(runner.engines.raft.get_entry(2, 129).is_none());
    assert!(runner.engines.raft.get_entry(2, 130).is_some());
}
