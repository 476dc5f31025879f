use tiny_mq::engine::IterOptions;
use tiny_mq::thread_group::{GroupProperties, current_properties, is_shutdown, mark_shutdown, set_properties};
use tiny_mq::tikv_util::{Either, KeyBuilder, MustConsumeVec};
use tiny_mq::store::{TICK_RAFT, TICK_RAFT_LOG_GC, TickBatches, on_tick, schedule_tick, PeerTickBatch};

#[test]
fn either_sides() {
    let l: Either<u32, &str> = Either::Left(3);
    assert_eq!(l.left(), Some(3));
    let r: Either<u32, &str> = Either::Right("x");
    assert_eq!(r.right(), Some("x"));
    let r2: Either<u32, &str> = Either::Right("y");
    assert_eq!(r2.left(), None);
    let mut m: Either<u32, u32> = Either::Left(1);
    match m.as_mut() {
        Either::Left(v) => *v = 9,
        Either::Right(_) => panic!("wrong side"),
    }
    match m.as_ref() {
        Either::Left(v) => assert_eq!(*v, 9),
        Either::Right(_) => panic!("wrong side"),
    }
}

#[test]
fn must_consume_vec_take_moves_items() {
    let mut v: MustConsumeVec<u64> = MustConsumeVec::new("test");
    assert!(v.is_empty());
    v.push(1);
    v.push(2);
    assert_eq!(v.len(), 2);
    let t = v.take();
    assert!(v.is_empty());
    assert_eq!(t.as_slice(), &[1, 2]);
    let w: MustConsumeVec<u64> = MustConsumeVec::with_capacity("cap", 10);
    assert_eq!(w.len(), 0);
}

#[test]
fn key_builder_prefix_and_append() {
    let mut k = KeyBuilder::from_slice(b"abc", 2, 0);
    assert_eq!(k.as_slice(), b"abc");
    k.append(b"de");
    assert_eq!(k.as_slice(), b"abcde");
    k.set_prefix(b"z");
    assert_eq!(k.as_slice(), b"zabcde");
    assert_eq!(k.build(), b"zabcde".to_vec());
    let plain = KeyBuilder::from_slice(b"k", 0, 0);
    assert_eq!(plain.build(), b"k".to_vec());
}

#[test]
fn iter_options_bounds() {
    let lower = KeyBuilder::from_slice(b"a", 1, 0);
    let opts = IterOptions::new(Some(lower), None);
    let (lo, hi) = opts.build_bounds();
    assert_eq!(lo, Some(b"a".to_vec()));
    assert_eq!(hi, None);
    let (lo, hi) = IterOptions::default().build_bounds();
    assert!(lo.is_none() && hi.is_none());
}

#[test]
fn shutdown_needs_a_group() {
    let mut slot: Option<GroupProperties> = None;
    assert!(!is_shutdown(&slot, false));
    assert!(current_properties(&slot).is_none());
    mark_shutdown(&slot);
    assert!(!is_shutdown(&slot, false));
    set_properties(&mut slot, Some(GroupProperties::new()));
    assert!(current_properties(&slot).is_some());
    assert!(!is_shutdown(&slot, true));
    let other = current_properties(&slot);
    mark_shutdown(&slot);
    assert!(is_shutdown(&slot, true));
    assert!(is_shutdown(&other, true));
}

#[test]
fn ticks_register_once() {
    let mut registry: u8 = 0;
    let mut batches = TickBatches::new();
    batches.update_ticks_timeout();
    assert_eq!(batches.batches[TICK_RAFT as usize].wait_duration, 200);
    assert_eq!(batches.batches[TICK_RAFT_LOG_GC as usize].wait_duration, 10_000);
    schedule_tick(&mut registry, &mut batches, 7, TICK_RAFT);
    schedule_tick(&mut registry, &mut batches, 7, TICK_RAFT);
    assert_eq!(batches.batches[TICK_RAFT as usize].ticks, vec![7]);
    schedule_tick(&mut registry, &mut batches, 7, TICK_RAFT_LOG_GC);
    assert_eq!(registry, TICK_RAFT | TICK_RAFT_LOG_GC);
    on_tick(&mut registry, TICK_RAFT);
    assert_eq!(registry, TICK_RAFT_LOG_GC);
    let fired = batches.take_ticks(TICK_RAFT as usize);
    assert_eq!(fired, vec![7]);
    assert!(batches.batches[TICK_RAFT as usize].ticks.is_empty());
    schedule_tick(&mut registry, &mut batches, 8, TICK_RAFT);
    assert_eq!(batches.batches[TICK_RAFT as usize].ticks, vec![8]);
}

#[test]
fn tick_batch_clone_keeps_only_the_wait() {
    let mut b = PeerTickBatch::new();
    b.ticks.push(1);
    b.wait_duration = 5;
    let c = b.clone();
    assert!(c.ticks.is_empty());
    assert_eq!(c.wait_duration, 5);
}
