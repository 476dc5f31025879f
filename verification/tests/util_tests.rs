use tiny_mq::metapb::{Peer, PeerRole, Region, conf_state_from_region, find_peer, is_region_initialized, new_peer};
use tiny_mq::raft_cmd::{RaftCmdRequest, RaftRequestHeader, check_peer_id, check_store_id, check_term};
use tiny_mq::util::bytes_capacity;

fn default_request() -> RaftCmdRequest {
    RaftCmdRequest {
        header: RaftRequestHeader {
            region_id: 0,
            peer: Peer { id: 0, store_id: 0, role: PeerRole::Voter },
            term: 0,
            uuid: Vec::new(),
        },
        requests: Vec::new(),
        admin_request: None,
        status_request: None,
    }
}

#[test]
fn test_region() {
    let mut region = Region::new_empty();
    assert!(!is_region_initialized(&region));

    let store_id = 1;

    let peer = new_peer(store_id, 0);
    region.peers.push(peer);

    assert!(find_peer(&region, store_id).is_some());

    let conf_state = conf_state_from_region(&region);
    assert_eq!(conf_state.voters.len(), 1);
}

#[test]
fn test_raft_cmd_request() {
    let mut cmd_req = default_request();
    assert!(check_store_id(&cmd_req, 0).is_ok());
    assert!(check_store_id(&cmd_req, 4).is_err());

    let mock_term = 2;
    cmd_req.header.term = mock_term;
    assert_eq!(cmd_req.header.term, 2);
    assert!(check_term(&cmd_req, 0).is_ok());
    assert!(check_term(&cmd_req, mock_term + 2).is_err());

    assert!(check_peer_id(&cmd_req, 0).is_ok());
    assert!(check_peer_id(&cmd_req, 1).is_err());
}

#[test]
fn test_base() {
    let data = b"abc";
    let bytes = bytes::Bytes::from(data.to_vec());
    assert_ne!(bytes_capacity(&bytes), 0);
    assert_eq!(bytes_capacity(&bytes), 3);
}

#[test]
fn check_term_accepts_one_term_behind() {
    let mut cmd_req = default_request();
    cmd_req.header.term = 5;
    assert!(check_term(&cmd_req, 6).is_ok());
    assert!(check_term(&cmd_req, 5).is_ok());
    assert!(check_term(&cmd_req, 7).is_err());
}

#[test]
fn find_peer_picks_the_store() {
    let mut region = Region::new_empty();
    region.peers.push(new_peer(1, 11));
    region.peers.push(new_peer(2, 22));
    let p = find_peer(&region, 2).unwrap();
    assert_eq!(p.id, 22);
    assert!(find_peer(&region, 3).is_none());
}
