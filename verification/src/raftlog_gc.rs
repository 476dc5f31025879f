//! The worker that deletes raft log entries no longer needed: gc tasks are
//! batched and run together.
use vstd::prelude::*;
use crate::engine::{Engines, gc_start, region_is_empty, region_min_index, remove_range};
use crate::entry::EntryView;

verus! {

/// The number of tasks that makes the runner flush at once.
pub const MAX_GC_REGION_BATCH: usize = 128;

/// A job for the log gc worker.
#[derive(Clone, Copy, Debug, PartialEq, Eq, Structural)]
pub enum Task {
    /// Delete the entries of a region in `[start_idx, end_idx)`; a start of
    /// 0 stands for the first entry of the region.
    Gc { region_id: u64, start_idx: u64, end_idx: u64 },
}

impl Task {
    /// The task that collects `[start, end)` of a region's log.
    pub fn gc(region_id: u64, start: u64, end: u64) -> (res: Self)
        ensures
            res == (Task::Gc { region_id, start_idx: start, end_idx: end }),
    {
        Task::Gc { region_id, start_idx: start, end_idx: end }
    }
}

/// Whether collecting `[from, to)` of a region is defined on these entries:
/// when it starts at the first entry, that entry is not past `to`.
pub open spec fn gc_allowed(entries: Map<(u64, u64), EntryView>, region_id: u64, from: u64, to: u64) -> bool {
    &&& (from >= to || from != 0 || region_is_empty(entries, region_id)
        || region_min_index(entries, region_id) <= to)
    &&& (to - from <= usize::MAX || from >= to || from == 0)
    &&& (from == 0 && from < to && !region_is_empty(entries, region_id) ==> to - region_min_index(
        entries,
        region_id,
    ) <= usize::MAX)
}

/// The entries after collecting `[from, to)` of a region, and the number
/// of entries counted as collected.
pub open spec fn gc_effect(entries: Map<(u64, u64), EntryView>, region_id: u64, from: u64, to: u64) -> (
    Map<(u64, u64), EntryView>,
    nat,
) {
    if from >= to {
        (entries, 0)
    } else {
        match gc_start(entries, region_id, from) {
            None => (entries, 0),
            Some(f) => (remove_range(entries, region_id, f, to), (to - f) as nat),
        }
    }
}

/// Whether every task of a batch, run in order, is defined.
pub open spec fn tasks_allowed(entries: Map<(u64, u64), EntryView>, tasks: Seq<Task>) -> bool
    decreases tasks.len(),
{
    if tasks.len() == 0 {
        true
    } else {
        let prev = tasks.drop_last();
        &&& tasks_allowed(entries, prev)
        &&& match tasks.last() {
            Task::Gc { region_id, start_idx, end_idx } => gc_allowed(
                tasks_effect(entries, prev).0,
                region_id,
                start_idx,
                end_idx,
            ),
        }
    }
}

/// The entries after running a batch of tasks in order, and the count each
/// task collected.
pub open spec fn tasks_effect(entries: Map<(u64, u64), EntryView>, tasks: Seq<Task>) -> (
    Map<(u64, u64), EntryView>,
    Seq<nat>,
)
    decreases tasks.len(),
{
    if tasks.len() == 0 {
        (entries, Seq::empty())
    } else {
        let prev = tasks_effect(entries, tasks.drop_last());
        match tasks.last() {
            Task::Gc { region_id, start_idx, end_idx } => {
                let step = gc_effect(prev.0, region_id, start_idx, end_idx);
                (step.0, prev.1.push(step.1))
            },
        }
    }
}

/// Runs gc tasks in batches against the raft engine, and reports how many
/// entries each task collected.
pub struct Runner {
    pub tasks: Vec<Task>,
    pub engines: Engines,
    pub reports: Vec<usize>,
}

/// The counts as reported.
pub open spec fn reported(counts: Seq<nat>) -> Seq<usize> {
    counts.map_values(|c: nat| c as usize)
}

impl Runner {
    /// A runner with no pending task over the given engines.
    pub fn new(engines: Engines) -> (res: Runner)
        ensures
            res.tasks@.len() == 0,
            res.engines == engines,
            res.reports@.len() == 0,
    {
        Runner { tasks: Vec::new(), engines, reports: Vec::new() }
    }

    /// Collects `[start_idx, end_idx)` of a region's log; returns the count
    /// of entries collected.
    pub fn gc_raft_log(&mut self, region_id: u64, start_idx: u64, end_idx: u64) -> (res: usize)
        requires
            old(self).engines.wf(),
            gc_allowed(old(self).engines.raft@.entries, region_id, start_idx, end_idx),
        ensures
            final(self).engines.wf(),
            ({
                let eff = gc_effect(old(self).engines.raft@.entries, region_id, start_idx, end_idx);
                final(self).engines.raft@.entries == eff.0 && res == eff.1
            }),
            final(self).engines.raft@.states == old(self).engines.raft@.states,
            final(self).engines.kv == old(self).engines.kv,
            final(self).tasks == old(self).tasks,
            final(self).reports == old(self).reports,
    {
        self.engines.raft.gc(region_id, start_idx, end_idx)
    }

    /// Reports the count collected by one task.
    pub fn report_collected(&mut self, collected: usize)
        ensures
            final(self).reports@ == old(self).reports@.push(collected),
            final(self).tasks == old(self).tasks,
            final(self).engines == old(self).engines,
    {
        self.reports.push(collected);
    }

    /// Runs the pending tasks in order, reporting each one's count.
    pub fn flush(&mut self)
        requires
            old(self).engines.wf(),
            tasks_allowed(old(self).engines.raft@.entries, old(self).tasks@),
        ensures
            final(self).engines.wf(),
            final(self).tasks@.len() == 0,
            ({
                let eff = tasks_effect(old(self).engines.raft@.entries, old(self).tasks@);
                &&& final(self).engines.raft@.entries == eff.0
                &&& final(self).reports@ == old(self).reports@ + reported(eff.1)
            }),
            final(self).engines.raft@.states == old(self).engines.raft@.states,
            final(self).engines.kv == old(self).engines.kv,
    {
        let mut tasks: Vec<Task> = Vec::new();
        std::mem::swap(&mut tasks, &mut self.tasks);
        let ghost all = tasks@;
        let ghost e0 = self.engines.raft@.entries;
        let ghost r0 = self.reports@;
        let n = tasks.len();
        let mut i: usize = 0;
        while i < n
            invariant
                n == all.len(),
                tasks@ == all,
                i <= n,
                self.engines.wf(),
                self.tasks@.len() == 0,
                tasks_allowed(e0, all),
                ({
                    let eff = tasks_effect(e0, all.subrange(0, i as int));
                    &&& self.engines.raft@.entries == eff.0
                    &&& self.reports@ == r0 + reported(eff.1)
                }),
                e0 == old(self).engines.raft@.entries,
                r0 == old(self).reports@,
                self.engines.raft@.states == old(self).engines.raft@.states,
                self.engines.kv == old(self).engines.kv,
            decreases n - i,
        {
            let t = tasks[i];
            let ghost pre = all.subrange(0, i as int);
            let ghost pre1 = all.subrange(0, i + 1);
            proof {
                assert(pre1.drop_last() =~= pre);
                assert(pre1.last() == all[i as int]);
                lemma_tasks_allowed_prefix(e0, all, i + 1);
            }
            match t {
                Task::Gc { region_id, start_idx, end_idx } => {
                    let n_collected = self.gc_raft_log(region_id, start_idx, end_idx);
                    self.report_collected(n_collected);
                },
            }
            proof {
                let a = tasks_effect(e0, pre);
                let b = tasks_effect(e0, pre1);
                assert(reported(b.1) =~= reported(a.1).push(b.1.last() as usize));
                assert(self.reports@ =~= r0 + reported(b.1));
            }
            i = i + 1;
        }
        assert(all.subrange(0, n as int) =~= all);
    }

    /// Queues a task, and runs the batch once it is large enough.
    pub fn run(&mut self, task: Task)
        requires
            old(self).engines.wf(),
            tasks_allowed(old(self).engines.raft@.entries, old(self).tasks@.push(task)),
        ensures
            final(self).engines.wf(),
            ({
                let all = old(self).tasks@.push(task);
                if all.len() < MAX_GC_REGION_BATCH {
                    &&& final(self).tasks@ == all
                    &&& final(self).engines == old(self).engines
                    &&& final(self).reports == old(self).reports
                } else {
                    let eff = tasks_effect(old(self).engines.raft@.entries, all);
                    &&& final(self).tasks@.len() == 0
                    &&& final(self).engines.raft@.entries == eff.0
                    &&& final(self).engines.raft@.states == old(self).engines.raft@.states
                    &&& final(self).engines.kv == old(self).engines.kv
                    &&& final(self).reports@ == old(self).reports@ + reported(eff.1)
                }
            }),
    {
        self.tasks.push(task);
        if self.tasks.len() < MAX_GC_REGION_BATCH {
            return;
        }
        self.flush();
    }

    /// Runs what is pending before the worker stops.
    pub fn shutdown(&mut self)
        requires
            old(self).engines.wf(),
            tasks_allowed(old(self).engines.raft@.entries, old(self).tasks@),
        ensures
            final(self).engines.wf(),
            final(self).tasks@.len() == 0,
            ({
                let eff = tasks_effect(old(self).engines.raft@.entries, old(self).tasks@);
                &&& final(self).engines.raft@.entries == eff.0
                &&& final(self).reports@ == old(self).reports@ + reported(eff.1)
            }),
    {
        self.flush();
    }

    /// Runs what is pending when the timer fires.
    pub fn on_timeout(&mut self)
        requires
            old(self).engines.wf(),
            tasks_allowed(old(self).engines.raft@.entries, old(self).tasks@),
        ensures
            final(self).engines.wf(),
            final(self).tasks@.len() == 0,
            ({
                let eff = tasks_effect(old(self).engines.raft@.entries, old(self).tasks@);
                &&& final(self).engines.raft@.entries == eff.0
                &&& final(self).reports@ == old(self).reports@ + reported(eff.1)
            }),
    {
        self.flush();
    }

    /// Hands out the counts reported so far, in order.
    pub fn take_reports(&mut self) -> (res: Vec<usize>)
        ensures
            res@ == old(self).reports@,
            final(self).reports@.len() == 0,
            final(self).tasks == old(self).tasks,
            final(self).engines == old(self).engines,
    {
        let mut out: Vec<usize> = Vec::new();
        std::mem::swap(&mut out, &mut self.reports);
        out
    }
}

/// A prefix of an allowed batch is allowed.
proof fn lemma_tasks_allowed_prefix(entries: Map<(u64, u64), EntryView>, tasks: Seq<Task>, k: int)
    requires
        tasks_allowed(entries, tasks),
        0 <= k <= tasks.len(),
    ensures
        tasks_allowed(entries, tasks.subrange(0, k)),
    decreases tasks.len(),
{
    if k < tasks.len() {
        assert(tasks.drop_last().subrange(0, k) =~= tasks.subrange(0, k));
        lemma_tasks_allowed_prefix(entries, tasks.drop_last(), k);
    } else {
        assert(tasks.subrange(0, k) =~= tasks);
    }
}

} // verus!
