//! Raft log entries.
use vstd::prelude::*;
use crate::raft_cmd::{RaftCmdRequest, RaftCmdRequestView};

verus! {

/// The kind of a log entry.
#[derive(Clone, Copy, Debug, PartialEq, Eq, Structural)]
pub enum EntryType {
    EntryNormal,
    EntryConfChange,
    EntryConfChangeV2,
}

/// A raft log entry. The command it carries is held decoded; `size` is the
/// number of bytes its encoding takes in the log.
#[derive(Debug)]
pub struct Entry {
    pub entry_type: EntryType,
    pub term: u64,
    pub index: u64,
    pub cmd: Option<RaftCmdRequest>,
    pub size: u64,
}

/// The mathematical value of an entry.
pub struct EntryView {
    pub entry_type: EntryType,
    pub term: u64,
    pub index: u64,
    pub cmd: Option<RaftCmdRequestView>,
    pub size: u64,
}

/// The view of an optional command.
pub open spec fn cmd_view(c: Option<RaftCmdRequest>) -> Option<RaftCmdRequestView> {
    match c {
        Some(c) => Some(c@),
        None => None,
    }
}

impl View for Entry {
    type V = EntryView;

    open spec fn view(&self) -> EntryView {
        EntryView {
            entry_type: self.entry_type,
            term: self.term,
            index: self.index,
            cmd: cmd_view(self.cmd),
            size: self.size,
        }
    }
}

/// The views of a sequence of entries.
pub open spec fn entries_view(s: Seq<Entry>) -> Seq<EntryView> {
    s.map_values(|e: Entry| e@)
}

impl Entry {
    /// A copy of this entry.
    pub fn copy(&self) -> (e: Entry)
        ensures
            e@ == self@,
    {
        let cmd = match &self.cmd {
            Some(c) => Some(c.copy()),
            None => None,
        };
        Entry { entry_type: self.entry_type, term: self.term, index: self.index, cmd, size: self.size }
    }
}

} // verus!
