//! The persistent state of a raft peer: its hard state and last log index,
//! and how far its log has been applied and truncated.
use vstd::prelude::*;

verus! {

/// When a region peer is created its log starts at this term and index, so
/// that a follower must first be brought up to date by its leader.
pub const RAFT_INIT_LOG_TERM: u64 = 5;

/// See `RAFT_INIT_LOG_TERM`.
pub const RAFT_INIT_LOG_INDEX: u64 = 5;

/// The raft hard state: current term, vote and commit index.
#[derive(Clone, Copy, Debug, PartialEq, Eq, Structural)]
pub struct HardState {
    pub term: u64,
    pub vote: u64,
    pub commit: u64,
}

/// The persistent raft state of a region peer.
#[derive(Clone, Copy, Debug, PartialEq, Eq, Structural)]
pub struct RaftLocalState {
    pub hard_state: HardState,
    pub last_index: u64,
}

/// The point before which the log has been compacted away.
#[derive(Clone, Copy, Debug, PartialEq, Eq, Structural)]
pub struct RaftTruncatedState {
    pub index: u64,
    pub term: u64,
}

/// How far the log of a region peer has been applied.
#[derive(Clone, Copy, Debug, PartialEq, Eq, Structural)]
pub struct RaftApplyState {
    pub applied_index: u64,
    pub commit_index: u64,
    pub commit_term: u64,
    pub truncated_state: RaftTruncatedState,
}

impl HardState {
    /// The default hard state: all zero.
    pub open spec fn spec_default() -> HardState {
        HardState { term: 0, vote: 0, commit: 0 }
    }
}

/// The first index still in the log: the one after the truncated index.
pub fn first_index(state: &RaftApplyState) -> (res: u64)
    requires
        state.truncated_state.index < u64::MAX,
    ensures
        res == state.truncated_state.index + 1,
{
    state.truncated_state.index + 1
}

/// The index of the last entry of the log.
pub fn last_index(state: &RaftLocalState) -> (res: u64)
    ensures
        res == state.last_index,
{
    state.last_index
}

/// The raft state a region is bootstrapped with: the log ends at
/// `RAFT_INIT_LOG_INDEX`, which is committed, in term `RAFT_INIT_LOG_TERM`.
pub fn initial_raft_state() -> (s: RaftLocalState)
    ensures
        s == (RaftLocalState {
            hard_state: HardState { term: RAFT_INIT_LOG_TERM, vote: 0, commit: RAFT_INIT_LOG_INDEX },
            last_index: RAFT_INIT_LOG_INDEX,
        }),
{
    RaftLocalState {
        hard_state: HardState { term: RAFT_INIT_LOG_TERM, vote: 0, commit: RAFT_INIT_LOG_INDEX },
        last_index: RAFT_INIT_LOG_INDEX,
    }
}

/// The apply state a region is bootstrapped with: applied and truncated up
/// to `RAFT_INIT_LOG_INDEX`, in term `RAFT_INIT_LOG_TERM`.
pub fn initial_apply_state() -> (s: RaftApplyState)
    ensures
        s == (RaftApplyState {
            applied_index: RAFT_INIT_LOG_INDEX,
            commit_index: 0,
            commit_term: 0,
            truncated_state: RaftTruncatedState { index: RAFT_INIT_LOG_INDEX, term: RAFT_INIT_LOG_TERM },
        }),
{
    RaftApplyState {
        applied_index: RAFT_INIT_LOG_INDEX,
        commit_index: 0,
        commit_term: 0,
        truncated_state: RaftTruncatedState { index: RAFT_INIT_LOG_INDEX, term: RAFT_INIT_LOG_TERM },
    }
}

} // verus!
