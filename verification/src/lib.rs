//! A replicated message queue built on a Raft log: the bookkeeping of the
//! log, the apply state machine, the proposal pipeline and the surrounding
//! gateway and persistence logic, with their contracts proved by Verus.
use vstd::prelude::*;

pub mod apply;
pub mod batch;
pub mod bootstrap;
pub mod engine;
pub mod entry;
pub mod errors;
pub mod gateway;
pub mod keyed_table;
pub mod laws;
pub mod message_queue;
pub mod metapb;
pub mod msg;
pub mod peer;
pub mod peer_storage;
pub mod proposal;
pub mod persist;
pub mod raft_client;
pub mod raft_cmd;
pub mod raft_state;
pub mod raftkv;
pub mod raftlog_gc;
pub mod service;
pub mod store;
pub mod text;
pub mod thread_group;
pub mod tikv_util;
pub mod util;

verus! {
} // verus!
