use tiny_mq::apply::{Apply, ApplyContext, ApplyDelegate, ApplyFsm, ExecResult, PendingCmd};
use tiny_mq::engine::KvEngine;
use tiny_mq::entry::{Entry, EntryType};
use tiny_mq::metapb::{Peer, PeerRole, initial_region};
use tiny_mq::proposal::Proposal;
use tiny_mq::raft_cmd::{
    AdminCmdType, AdminRequest, CmdType, CompactLogRequest, Context, MessageQueueRequest, RaftCmdRequest,
    RaftRequestHeader, Request,
};
use tiny_mq::raft_state::initial_apply_state;

fn meta(id: u64) -> Peer {
    Peer { id, store_id: id, role: PeerRole::Voter }
}

fn write_command(n: usize) -> RaftCmdRequest {
    let mut requests = Vec::new();
    for k in 0..n {
        requests.push(Request {
            cmd_type: CmdType::MessageQueue,
            message_queue: MessageQueueRequest {
                context: Context { region_id: 1, peer: meta(1), term: 0 },
                payload: vec![k as u8],
            },
        });
    }
    RaftCmdRequest {
        header: RaftRequestHeader { region_id: 1, peer: meta(1), term: 0, uuid: vec![7] },
        requests,
        admin_request: None,
        status_request: None,
    }
}

fn compact_command(index: u64, term: u64) -> RaftCmdRequest {
    let mut c = write_command(0);
    c.admin_request = Some(AdminRequest {
        cmd_type: AdminCmdType::CompactLog,
        compact_log: CompactLogRequest { compact_index: index, compact_term: term },
    });
    c
}

fn entry(term: u64, index: u64, cmd: Option<RaftCmdRequest>) -> Entry {
    Entry { entry_type: EntryType::EntryNormal, term, index, cmd, size: 8 }
}

fn proposal(term: u64, index: u64, cb: u64) -> Proposal {
    Proposal { is_conf_change: false, index, term, cb: Some(cb), propose_time: None, must_pass_epoch_check: false }
}

fn fsm() -> ApplyFsm {
    let region = initial_region(1, &vec![(1, 1), (2, 2), (3, 3)]);
    ApplyFsm { delegate: ApplyDelegate::new(1, 6, region, initial_apply_state(), 5) }
}

#[test]
fn writes_are_answered_with_their_place_in_the_queue() {
    let mut f = fsm();
    let mut ctx = ApplyContext::new(1);
    let apply = Apply::new(1, 1, 6, vec![entry(6, 6, Some(write_command(2))), entry(6, 7, Some(write_command(1)))],
        vec![proposal(6, 6, 100), proposal(6, 7, 101)]);
    f.handle_apply(&mut ctx, apply);
    assert_eq!(f.delegate.apply_state.applied_index, 7);
    assert_eq!(f.delegate.apply_state.commit_index, 7);
    assert_eq!(f.delegate.apply_state.commit_term, 6);
    assert_eq!(f.delegate.applied_index_term, 6);
    assert_eq!(ctx.applied_batch.len(), 2);
    let (cb, resp) = &ctx.applied_batch[0];
    assert_eq!(*cb, 100);
    assert_eq!(resp.responses.len(), 2);
    assert_eq!(resp.responses[1].message_queue.index, 6);
    assert_eq!(resp.responses[1].message_queue.offset, 1);
    assert_eq!(resp.responses[1].message_queue.error, "OK");
    assert_eq!(resp.header.current_term, 6);
    assert_eq!(ctx.applied_batch[1].1.responses[0].message_queue.index, 7);
    assert_eq!(ctx.committed_count, 2);
    assert_eq!(ctx.apply_res.len(), 1);
    let mut engine = KvEngine::new();
    let (_, results) = ctx.flush(&mut engine);
    assert_eq!(results.len(), 1);
    assert_eq!(ctx.notified.len(), 2);
    assert_eq!(engine.get_apply_state(1).unwrap().applied_index, 7);
}

#[test]
fn older_commands_become_stale() {
    let mut f = fsm();
    f.delegate.pending_cmds.append_normal(PendingCmd { index: 6, term: 5, cb: 200 });
    let mut ctx = ApplyContext::new(1);
    let apply = Apply::new(1, 1, 6, vec![entry(6, 6, None)], vec![]);
    f.handle_apply(&mut ctx, apply);
    assert!(ctx.applied_batch.len() == 1 || ctx.notified.len() == 1);
    let stale = if ctx.applied_batch.len() == 1 { &ctx.applied_batch[0] } else { &ctx.notified[0] };
    assert_eq!(stale.0, 200);
    assert!(stale.1.header.error.as_ref().unwrap().stale_command);
    assert_eq!(f.delegate.apply_state.applied_index, 6);
}

#[test]
fn compaction_moves_the_truncated_state() {
    let mut f = fsm();
    let mut ctx = ApplyContext::new(1);
    let apply = Apply::new(1, 1, 6, vec![entry(6, 6, Some(write_command(1))), entry(6, 7, Some(write_command(1)))], vec![]);
    f.handle_apply(&mut ctx, apply);
    let apply = Apply::new(1, 1, 6, vec![entry(6, 8, Some(compact_command(7, 6)))], vec![proposal(6, 8, 300)]);
    f.handle_apply(&mut ctx, apply);
    assert_eq!(f.delegate.apply_state.truncated_state.index, 7);
    assert_eq!(f.delegate.apply_state.applied_index, 8);
    let last = ctx.apply_res.last().unwrap();
    assert_eq!(last.exec_res.len(), 1);
    assert!(matches!(last.exec_res[0], ExecResult::CompactLog { state, first_index: 6 } if state.index == 7));
    // compacting past what is applied is refused
    let apply = Apply::new(1, 1, 6, vec![entry(6, 9, Some(compact_command(20, 6)))], vec![proposal(6, 9, 301)]);
    f.handle_apply(&mut ctx, apply);
    assert_eq!(f.delegate.apply_state.truncated_state.index, 7);
    let (cb, resp) = ctx.applied_batch.last().unwrap();
    assert_eq!(*cb, 301);
    assert!(resp.header.error.is_some());
}

#[test]
fn clearing_answers_every_waiting_command() {
    let mut f = fsm();
    f.delegate.pending_cmds.append_normal(PendingCmd { index: 6, term: 6, cb: 1 });
    f.delegate.pending_cmds.append_normal(PendingCmd { index: 7, term: 6, cb: 2 });
    let mut ctx = ApplyContext::new(1);
    f.delegate.clear_all_commands_as_stale(&mut ctx);
    assert_eq!(ctx.notified.len(), 2);
    assert_eq!(ctx.notified[1].0, 2);
    assert!(f.delegate.pending_cmds.normals.is_empty());
}
