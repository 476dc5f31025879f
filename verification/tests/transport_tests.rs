use tiny_mq::metapb::{Peer, PeerRole};
use tiny_mq::raft_client::{
    AddressMap, GrpcError, MessageBuffer, Queue, RaftClient, RaftMessage, fill_msg, grpc_error_is_unimplemented,
    should_fallback, GRPC_UNIMPLEMENTED,
};

fn msg(to_store: u64, tag: u8) -> RaftMessage {
    RaftMessage {
        region_id: 1,
        from_peer: Peer { id: 1, store_id: 1, role: PeerRole::Voter },
        to_peer: Peer { id: to_store, store_id: to_store, role: PeerRole::Voter },
        message: vec![tag],
    }
}

#[test]
fn address_map_read_after_write() {
    let mut m = AddressMap::new();
    assert_eq!(m.get(1), None);
    m.insert(1, String::from("127.0.0.1:20160"));
    assert_eq!(m.get(1), Some(String::from("127.0.0.1:20160")));
    m.insert(1, String::from("127.0.0.1:20161"));
    assert_eq!(m.resolve(1), String::from("127.0.0.1:20161"));
}

#[test]
fn queue_is_first_in_first_out() {
    let mut q = Queue::with_capacity(4);
    assert!(q.is_empty());
    q.push(msg(2, 1));
    q.push(msg(2, 2));
    assert_eq!(q.len(), 2);
    assert_eq!(q.try_pop().unwrap().message, vec![1]);
    assert_eq!(q.try_pop().unwrap().message, vec![2]);
    assert!(q.try_pop().is_none());
    q.push(msg(2, 3));
    q.clear_pending_message();
    assert!(q.is_empty());
}

#[test]
fn buffer_takes_two_messages() {
    let mut q = Queue::with_capacity(8);
    for t in 0..5 {
        q.push(msg(3, t));
    }
    let mut b = MessageBuffer::new();
    assert!(b.empty());
    fill_msg(&mut b, &mut q);
    assert!(b.full());
    assert_eq!(q.len(), 3);
    let (first, more) = b.flush().unwrap();
    assert_eq!(first.message, vec![0]);
    assert!(more);
    let (second, more) = b.flush().unwrap();
    assert_eq!(second.message, vec![1]);
    assert!(!more);
    assert!(b.flush().is_none());
}

#[test]
fn client_wakes_each_dirty_queue_once() {
    let mut c = RaftClient::new();
    assert!(!c.need_flush());
    c.send(msg(2, 1));
    c.send(msg(3, 1));
    c.send(msg(2, 2));
    assert_eq!(c.new_streams, vec![2, 3]);
    assert_eq!(c.need_flush, vec![2, 3]);
    c.flush();
    assert!(!c.need_flush());
    assert_eq!(c.to_wake, vec![2, 3]);
    assert_eq!(c.pop_for(2).unwrap().message, vec![1]);
    assert_eq!(c.pop_for(2).unwrap().message, vec![2]);
    assert!(c.pop_for(2).is_none());
    assert!(c.pop_for(4).is_none());
    c.send(msg(2, 3));
    assert_eq!(c.need_flush, vec![2]);
    assert_eq!(c.new_streams, vec![2, 3]);
}

#[test]
fn unimplemented_errors_fall_back() {
    let unimpl = GrpcError::RpcFailure { code: GRPC_UNIMPLEMENTED };
    assert!(grpc_error_is_unimplemented(&unimpl));
    assert!(!grpc_error_is_unimplemented(&GrpcError::RpcFailure { code: 14 }));
    assert!(!grpc_error_is_unimplemented(&GrpcError::Other));
    assert!(should_fallback(&None, &Some(unimpl)));
    assert!(!should_fallback(&Some(GrpcError::Other), &None));
}
