//! The proposals a peer made and still waits to see committed, ordered by
//! `(term, index)`.
use std::collections::VecDeque;
use vstd::prelude::*;

verus! {

/// A command proposed to raft, with who waits for it.
#[derive(Clone, Copy, Debug, PartialEq, Eq, Structural)]
pub struct Proposal {
    pub is_conf_change: bool,
    pub index: u64,
    pub term: u64,
    /// The callback id of whoever waits, if anybody does.
    pub cb: Option<u64>,
    /// When it was proposed.
    pub propose_time: Option<u64>,
    /// Whether its epoch was checked when proposed, so that it may be told
    /// of the commit early.
    pub must_pass_epoch_check: bool,
}

/// `(term, index)` of `a` comes before that of `b`, terms compared first.
pub open spec fn key_lt(at: u64, ai: u64, bt: u64, bi: u64) -> bool {
    at < bt || (at == bt && ai < bi)
}

/// `p` comes no later than `(t, i)`.
pub open spec fn prop_le(p: Proposal, t: u64, i: u64) -> bool {
    p.term < t || (p.term == t && p.index <= i)
}

/// Looking for the proposal of `(term, index)` at the front of `q`: how
/// many proposals are taken off, whether the last one taken is the one
/// looked for, and whether no proposal of the same term but another index
/// came first.
pub open spec fn find_run(q: Seq<Proposal>, term: u64, index: u64) -> (nat, bool, bool)
    decreases q.len(),
{
    if q.len() == 0 || !prop_le(q[0], term, index) {
        (0, false, true)
    } else if q[0].term == term {
        if q[0].index == index {
            (1, true, true)
        } else {
            (1, false, false)
        }
    } else {
        let r = find_run(q.drop_first(), term, index);
        ((r.0 + 1) as nat, r.1, r.2)
    }
}

/// The callback ids of the first `n` proposals, skipping those nobody
/// waits for.
pub open spec fn waiting_ids(q: Seq<Proposal>, n: nat) -> Seq<u64>
    decreases n,
{
    if n == 0 || q.len() == 0 {
        Seq::empty()
    } else {
        let rest = waiting_ids(q, (n - 1) as nat);
        match q[n - 1].cb {
            Some(id) => rest.push(id),
            None => rest,
        }
    }
}

/// The proposals are strictly ordered by `(term, index)`.
pub open spec fn proposals_sorted(q: Seq<Proposal>) -> bool {
    forall|i: int, j: int| 0 <= i < j < q.len() ==> key_lt(q[i].term, q[i].index, q[j].term, q[j].index)
}

/// The proposals of a peer.
pub struct ProposalQueue {
    pub tag: String,
    pub queue: VecDeque<Proposal>,
}

impl View for ProposalQueue {
    type V = Seq<Proposal>;

    open spec fn view(&self) -> Seq<Proposal> {
        self.queue@
    }
}

impl ProposalQueue {
    /// An empty queue.
    pub fn new(tag: String) -> (res: ProposalQueue)
        ensures
            res@ == Seq::<Proposal>::empty(),
            res.tag == tag,
    {
        ProposalQueue { tag, queue: VecDeque::new() }
    }

    /// When the proposal of `(term, index)` was made, if it is queued.
    pub fn find_propose_time(&self, term: u64, index: u64) -> (res: Option<u64>)
        requires
            proposals_sorted(self@),
        ensures
            (exists|k: int| 0 <= k < self@.len() && self@[k].term == term && self@[k].index == index) ==> ({
                let k = choose|k: int| 0 <= k < self@.len() && self@[k].term == term && self@[k].index == index;
                res == self@[k].propose_time
            }),
            !(exists|k: int| 0 <= k < self@.len() && self@[k].term == term && self@[k].index == index) ==> res is None,
    {
        let n = self.queue.len();
        let mut i: usize = 0;
        while i < n
            invariant
                n == self@.len(),
                i <= n,
                proposals_sorted(self@),
                forall|k: int| 0 <= k < i ==> !(self@[k].term == term && self@[k].index == index),
            decreases n - i,
        {
            let p = self.queue[i];
            if p.term == term && p.index == index {
                proof {
                    let k = choose|k: int| 0 <= k < self@.len() && self@[k].term == term && self@[k].index == index;
                    assert(k >= i);
                    if k > i {
                        assert(key_lt(self@[i as int].term, self@[i as int].index, self@[k].term, self@[k].index));
                    }
                }
                return p.propose_time;
            }
            i = i + 1;
        }
        None
    }

    /// Takes the front proposal if it comes no later than `(term, index)`.
    pub fn pop(&mut self, term: u64, index: u64) -> (res: Option<Proposal>)
        ensures
            if old(self)@.len() > 0 && prop_le(old(self)@[0], term, index) {
                res == Some(old(self)@[0]) && final(self)@ == old(self)@.drop_first()
            } else {
                res is None && final(self)@ == old(self)@
            },
            final(self).tag == old(self).tag,
    {
        match self.queue.pop_front() {
            Some(p) => {
                if p.term > term || (p.term == term && p.index > index) {
                    self.queue.push_front(p);
                    assert(self@ =~= old(self)@);
                    None
                } else {
                    Some(p)
                }
            },
            None => None,
        }
    }

    /// Finds the proposal of an entry committed at `(term, index)`: the
    /// proposals before it are taken off, and those of older terms are
    /// stale; their callback ids are returned to be told so. The proposal
    /// itself is returned if somebody waits for it.
    pub fn find_proposal(&mut self, term: u64, index: u64) -> (res: (Option<Proposal>, Vec<u64>))
        requires
            find_run(old(self)@, term, index).2,
        ensures
            ({
                let q = old(self)@;
                let run = find_run(q, term, index);
                let nstale: nat = if run.1 { (run.0 - 1) as nat } else { run.0 };
                &&& final(self)@ == q.skip(run.0 as int)
                &&& res.0 == (if run.1 && q[run.0 - 1].cb is Some { Some(q[run.0 - 1]) } else { None::<Proposal> })
                &&& res.1@ == waiting_ids(q, nstale)
            }),
            final(self).tag == old(self).tag,
        decreases old(self)@.len(),
    {
        let ghost q = self@;
        let mut stale: Vec<u64> = Vec::new();
        let mut taken: usize = 0;
        let qlen = self.queue.len();
        assert(q.skip(0) =~= q);
        loop
            invariant
                taken <= q.len(),
                qlen == q.len(),
                q == old(self)@,
                self@ == q.skip(taken as int),
                self.tag == old(self).tag,
                find_run(q, term, index) == ({
                    let r = find_run(q.skip(taken as int), term, index);
                    ((r.0 + taken) as nat, r.1, r.2)
                }),
                find_run(q, term, index).2,
                forall|j: int| 0 <= j < taken ==> (#[trigger] q[j]).term != term,
                stale@ == waiting_ids(q, taken as nat),
            decreases q.len() - taken,
        {
            let ghost before = self@;
            match self.pop(term, index) {
                Some(p) => {
                    assert(before.drop_first() =~= q.skip(taken + 1));
                    assert(before[0] == q[taken as int]);
                    assert(q.skip(taken as int).drop_first() =~= q.skip(taken + 1));
                    if p.term == term {
                        if p.index == index {
                            proof {
                                assert(find_run(q.skip(taken as int), term, index) == (1nat, true, true));
                            }
                            if p.cb.is_none() {
                                return (None, stale);
                            }
                            return (Some(p), stale);
                        } else {
                            assert(false);
                            return (None, stale);
                        }
                    } else {
                        match p.cb {
                            Some(id) => {
                                stale.push(id);
                            },
                            None => {},
                        }
                        assert(stale@ == waiting_ids(q, (taken + 1) as nat));
                        taken = taken + 1;
                    }
                },
                None => {
                    proof {
                        assert(q.skip(taken as int) =~= before);
                        assert(find_run(before, term, index) == (0nat, false, true));
                    }
                    return (None, stale);
                },
            }
        }
    }

    /// Queues a proposal, which must come after every queued one.
    pub fn push(&mut self, p: Proposal)
        requires
            old(self)@.len() > 0 ==> key_lt(old(self)@.last().term, old(self)@.last().index, p.term, p.index),
        ensures
            final(self)@ == old(self)@.push(p),
            final(self).tag == old(self).tag,
    {
        self.queue.push_back(p);
    }

    /// Whether no proposal waits.
    pub fn is_empty(&self) -> (res: bool)
        ensures
            res == (self@.len() == 0),
    {
        self.queue.len() == 0
    }

    /// The number of proposals waiting.
    pub fn len(&self) -> (res: usize)
        ensures
            res == self@.len(),
    {
        self.queue.len()
    }
}

/// Pushing a proposal later than every queued one keeps the queue sorted.
pub proof fn lemma_push_keeps_sorted(q: Seq<Proposal>, p: Proposal)
    requires
        proposals_sorted(q),
        q.len() > 0 ==> key_lt(q.last().term, q.last().index, p.term, p.index),
    ensures
        proposals_sorted(q.push(p)),
{
    let r = q.push(p);
    assert forall|i: int, j: int| 0 <= i < j < r.len() implies key_lt(r[i].term, r[i].index, r[j].term, r[j].index) by {
        if j == q.len() {
            assert(r[j] == p);
            if i < q.len() - 1 {
                assert(key_lt(q[i].term, q[i].index, q[q.len() - 1].term, q[q.len() - 1].index));
            }
        }
    }
}

} // verus!
