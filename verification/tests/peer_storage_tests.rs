use tiny_mq::bootstrap::{bootstrap_store, prepare_bootstrap_cluster};
use tiny_mq::engine::Engines;
use tiny_mq::metapb::initial_region;
use tiny_mq::peer_storage::PeerStorage;

#[test]
fn test_bootstrap() {
    let mut engines = Engines::new();

    let region = initial_region(1, &vec![(1, 1), (2, 2), (3, 3), (4, 4), (5, 5)]);

    assert!(prepare_bootstrap_cluster(&mut engines, &region).is_ok());

    assert!(bootstrap_store(&mut engines, 1, 1).is_ok());

    assert!(engines.kv.get_apply_state(1).is_some());

    assert!(engines.raft.get_raft_state(1).is_some());
}

#[test]
fn bootstrapped_storage_starts_at_the_initial_index() {
    let mut engines = Engines::new();
    let region = initial_region(1, &vec![(1, 1), (2, 2), (3, 3)]);
    prepare_bootstrap_cluster(&mut engines, &region).unwrap();
    let ps = PeerStorage::new(engines, &region, 1, String::from("peer"));
    assert_eq!(ps.first_index(), 6);
    assert_eq!(ps.last_index(), 5);
    assert_eq!(ps.applied_index(), 5);
    assert_eq!(ps.applied_index_term(), 5);
    assert!(ps.is_initialized());
    assert_eq!(ps.term(5), 5);
}
