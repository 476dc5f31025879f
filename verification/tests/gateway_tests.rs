use tiny_mq::errors::NotLeader;
use tiny_mq::gateway::{
    AbstractResponse, GatewayStep, RaftCluster, ResponseError, ResponseErrorKind, ResponseWrapper, ServiceResponse,
    gateway_step, leader_id_in_cluster, probe_result, should_return,
};

fn cluster(n: usize) -> RaftCluster<String> {
    let mut addrs = Vec::new();
    for i in 0..n {
        addrs.push(format!("http://10.0.0.{}:20160", i + 1));
    }
    RaftCluster::new(addrs)
}

#[test]
fn responses_without_leader_errors_are_returned() {
    let ok = ResponseWrapper(ServiceResponse { error: None });
    assert!(ok.success());
    assert!(should_return(&ok));
    let not_leader = ResponseWrapper(ServiceResponse {
        error: Some(ResponseError { error: Some(ResponseErrorKind::NotLeader(NotLeader { region_id: 1, leader: None })) }),
    });
    assert!(!not_leader.success());
    assert!(not_leader.has_not_leader_error());
    assert!(!should_return(&not_leader));
    let business = ResponseWrapper(ServiceResponse {
        error: Some(ResponseError { error: Some(ResponseErrorKind::Other(String::from("insufficient balance"))) }),
    });
    assert!(should_return(&business));
}

#[test]
fn gateway_retries_with_a_newer_counter() {
    assert_eq!(gateway_step(true, true, 3), GatewayStep::Return);
    assert_eq!(gateway_step(true, false, 3), GatewayStep::Retry { reset_leader_counter: 4 });
    assert_eq!(gateway_step(false, true, 0), GatewayStep::Retry { reset_leader_counter: 1 });
}

#[test]
fn leader_is_cached_until_reset() {
    let mut c = cluster(3);
    assert!(c.get_or_reset_leader(0).is_none());
    assert_eq!(c.inner.reset_leader_counter, 1);
    let counter = c.record_leader(String::from("node2"), 2, 2);
    assert_eq!(counter, 1);
    let (n, cnt) = c.get_or_reset_leader(1).unwrap();
    assert_eq!(n, "node2");
    assert_eq!(cnt, 1);
    assert!(c.get_or_reset_leader(2).is_none());
    assert_eq!(c.inner.reset_leader_counter, 2);
}

#[test]
fn probing_walks_round_the_nodes() {
    let c = cluster(3);
    assert_eq!(c.next_probe(1), 2);
    assert_eq!(c.next_probe(2), 3);
    assert_eq!(c.next_probe(3), 1);
    assert_eq!(c.node_address(2), "http://10.0.0.2:20160");
    let mut id = 2;
    let mut seen = vec![];
    for _ in 0..3 {
        seen.push(id);
        id = c.next_probe(id);
    }
    seen.sort();
    assert_eq!(seen, vec![1, 2, 3]);
    assert_eq!(id, 2);
}

#[test]
fn probe_answers() {
    assert_eq!(probe_result(Some(3)), Some(3));
    assert_eq!(probe_result(Some(0)), None);
    assert_eq!(probe_result(None), None);
    assert!(leader_id_in_cluster(3, 3));
    assert!(!leader_id_in_cluster(4, 3));
    assert!(!leader_id_in_cluster(0, 3));
}
