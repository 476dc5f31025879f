use tiny_mq::persist::{PersistRecord, Persistable, RetryStep, TryOutcome, MAX_RETRY, collect_batch, prepare_batch, transaction_step};

fn row(id: u32) -> PersistRecord {
    PersistRecord {
        key: format!("k{}", id),
        value: format!("v{}", id),
        query: format!("INSERT INTO t VALUES ({})", id),
        indicator: format!("row {}", id),
    }
}

#[test]
fn batch_is_joined_with_semicolons() {
    let rows = vec![row(1), row(2), row(3)];
    let (script, begin, end) = prepare_batch(&rows);
    assert_eq!(script, "INSERT INTO t VALUES (1);INSERT INTO t VALUES (2);INSERT INTO t VALUES (3)");
    assert_eq!(begin, "row 1");
    assert_eq!(end, "row 3");
    assert_eq!(rows[0].get_insert_key(), "k1");
    assert_eq!(rows[0].get_insert_value(), "v1");
}

#[test]
fn batch_stops_past_the_limit() {
    let (tx, rx) = crossbeam::channel::unbounded();
    for i in 0..150u32 {
        tx.send(i).unwrap();
    }
    let batch = collect_batch(1000u32, &rx);
    assert_eq!(batch.len(), 101);
    assert_eq!(batch[0], 1000);
    assert_eq!(batch[1], 0);
    let rest = collect_batch(2000u32, &rx);
    assert_eq!(rest.len(), 51);
    let alone = collect_batch(3000u32, &rx);
    assert_eq!(alone, vec![3000]);
}

#[test]
fn transaction_is_tried_three_times() {
    assert!(matches!(transaction_step(0, TryOutcome::Committed), RetryStep::Done));
    assert!(matches!(transaction_step(0, TryOutcome::NoConnection), RetryStep::ConnectionError));
    assert!(matches!(transaction_step(0, TryOutcome::Failed), RetryStep::Retry { next: 1 }));
    assert!(matches!(transaction_step(1, TryOutcome::Failed), RetryStep::Retry { next: 2 }));
    match transaction_step(MAX_RETRY - 1, TryOutcome::Failed) {
        RetryStep::GiveUp(e) => {
            assert_eq!(e.message, "PG transaction");
            assert_eq!(e.retries, 3);
        },
        _ => panic!("expected to give up"),
    }
}
