use tiny_mq::proposal::{Proposal, ProposalQueue};

fn p(term: u64, index: u64, cb: Option<u64>) -> Proposal {
    Proposal { is_conf_change: false, index, term, cb, propose_time: Some(index * 10), must_pass_epoch_check: true }
}

#[test]
fn pop_only_takes_earlier_proposals() {
    let mut q = ProposalQueue::new(String::from("t"));
    q.push(p(1, 5, Some(1)));
    q.push(p(1, 6, Some(2)));
    assert!(q.pop(1, 4).is_none());
    assert_eq!(q.pop(1, 5).unwrap().index, 5);
    assert_eq!(q.pop(2, 1).unwrap().index, 6);
    assert!(q.is_empty());
}

#[test]
fn older_terms_are_stale() {
    let mut q = ProposalQueue::new(String::from("t"));
    q.push(p(1, 5, Some(1)));
    q.push(p(1, 6, None));
    q.push(p(1, 7, Some(3)));
    q.push(p(2, 8, Some(4)));
    q.push(p(2, 9, Some(5)));
    let (found, stale) = q.find_proposal(2, 8);
    assert_eq!(found.unwrap().cb, Some(4));
    assert_eq!(stale, vec![1, 3]);
    assert_eq!(q.len(), 1);
    assert_eq!(q.find_propose_time(2, 9), Some(90));
    assert_eq!(q.find_propose_time(2, 8), None);
}

#[test]
fn proposal_nobody_waits_for_is_dropped() {
    let mut q = ProposalQueue::new(String::from("t"));
    q.push(p(3, 1, None));
    let (found, stale) = q.find_proposal(3, 1);
    assert!(found.is_none());
    assert!(stale.is_empty());
    assert!(q.is_empty());
    let (found, _) = q.find_proposal(3, 2);
    assert!(found.is_none());
}
