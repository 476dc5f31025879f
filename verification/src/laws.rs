//! Properties that span the functions of the library.
use vstd::prelude::*;
use crate::apply::{ApplyModel, apply_entries, apply_entry, exec_model};
use crate::batch::{add_all, all_requests, batch_parts, part_offset, part_reply_fits};
use crate::msg::Callback;
use crate::raft_cmd::RaftCmdRequestView;
use crate::engine::{gc_start, region_log, remove_range};
use crate::entry::EntryView;
use crate::gateway::next_node;
use crate::message_queue::{CONSUME_BATCH, consume_reads, query_range};
use crate::peer::{MAX_ENTRY_SIZE, RaftProposeOutcome, gc_compact_index, min_matched, propose_normal_result};
use crate::errors::Error;
use crate::proposal::{Proposal, key_lt, proposals_sorted};
use crate::raft_cmd::RaftCmdResponse;
use crate::raftlog_gc::gc_effect;
use crate::raft_client::{flush_marks, listed, send_all_marks, send_marks, wake_order};
use crate::entry::Entry;
use crate::peer_storage::{PeerStorage, post_ready_state, ready_context};
use crate::raft_state::HardState;

verus! {

/// Applying a non-empty run of entries leaves the applied index and its
/// term at the last entry.
pub proof fn law_apply_moves_applied_index(m: ApplyModel, dterm: u64, es: Seq<EntryView>)
    requires
        es.len() > 0,
    ensures
        apply_entries(m, dterm, es).apply_state.applied_index == es.last().index,
        apply_entries(m, dterm, es).applied_index_term == es.last().term,
{
    let prev = apply_entries(m, dterm, es.drop_last());
    let e = es.last();
    match e.cmd {
        None => {},
        Some(c) => {
            let (st, r) = exec_model(prev.apply_state, e.index, c);
            assert(st.applied_index == e.index);
        },
    }
}

/// Applying an entry past the applied index never moves the truncated
/// index past the applied one: a log is only compacted up to what was
/// applied.
pub proof fn law_truncated_within_applied(m: ApplyModel, dterm: u64, e: EntryView)
    requires
        m.apply_state.truncated_state.index <= m.apply_state.applied_index,
        m.apply_state.applied_index <= e.index,
    ensures
        apply_entry(m, dterm, e).apply_state.truncated_state.index <= apply_entry(m, dterm, e).apply_state.applied_index,
{
    match e.cmd {
        None => {},
        Some(c) => {
            let (st, r) = exec_model(m.apply_state, e.index, c);
            assert(st.truncated_state.index <= st.applied_index);
        },
    }
}

/// Collecting `[from, to)` of a region's log removes exactly the entries of
/// that region from where the collection starts up to `to`, and keeps
/// every other entry.
pub proof fn law_gc_removes_exactly(entries: Map<(u64, u64), EntryView>, region_id: u64, from: u64, to: u64)
    requires
        from < to,
        gc_start(entries, region_id, from) is Some,
    ensures
        ({
            let f = gc_start(entries, region_id, from)->0;
            let after = gc_effect(entries, region_id, from, to).0;
            &&& forall|j: u64| f <= j < to ==> !(#[trigger] after.contains_key((region_id, j)))
            &&& forall|k: (u64, u64)| #[trigger] entries.contains_key(k) && !(k.0 == region_id && f <= k.1 < to)
                ==> after.contains_key(k) && after[k] == entries[k]
            &&& forall|k: (u64, u64)| #[trigger] after.contains_key(k) ==> entries.contains_key(k)
        }),
{
}

/// What a write of an entry stores is what a read of it gives back.
pub proof fn law_read_after_write_entry(entries: Map<(u64, u64), EntryView>, region_id: u64, e: EntryView)
    ensures
        region_log(entries.insert((region_id, e.index), e), region_id).contains_key(e.index),
        region_log(entries.insert((region_id, e.index), e), region_id)[e.index] == e,
{
}

/// Taking proposals off the front of an ordered queue leaves it ordered.
pub proof fn law_proposals_stay_sorted(q: Seq<Proposal>, n: int)
    requires
        proposals_sorted(q),
        0 <= n <= q.len(),
    ensures
        proposals_sorted(q.skip(n)),
{
    let r = q.skip(n);
    assert forall|i: int, j: int| 0 <= i < j < r.len() implies key_lt(r[i].term, r[i].index, r[j].term, r[j].index) by {
        assert(r[i] == q[i + n] && r[j] == q[j + n]);
    }
}

/// The shares of a batch's reply, put back together in order, are the
/// responses of the reply for the batch's requests.
pub proof fn law_batch_shares_cover_reply(
    resp: RaftCmdResponse,
    parts: Seq<(Option<u64>, usize)>,
    shares: Seq<(Option<u64>, RaftCmdResponse)>,
    k: int,
)
    requires
        resp.header.error is None,
        shares.len() == parts.len(),
        0 <= k <= parts.len(),
        part_offset(parts, parts.len() as int) <= resp.responses@.len(),
        forall|i: int| 0 <= i < parts.len() ==> part_reply_fits(resp, parts, i, #[trigger] shares[i].1),
    ensures
        shares_responses(shares, k) == resp.responses@.subrange(0, part_offset(parts, k)),
    decreases k,
{
    if k > 0 {
        law_batch_shares_cover_reply(resp, parts, shares, k - 1);
        lemma_offsets_grow(parts, k, parts.len() as int);
        lemma_offsets_grow(parts, k - 1, k);
        lemma_offsets_grow(parts, 0, k - 1);
        assert(part_offset(parts, k) == part_offset(parts, k - 1) + parts[k - 1].1);
        assert(part_reply_fits(resp, parts, k - 1, shares[k - 1].1));
        assert(shares[k - 1].1.responses@ == resp.responses@.subrange(part_offset(parts, k - 1), part_offset(parts, k)));
        assert(shares_responses(shares, k) == shares_responses(shares, k - 1) + shares[k - 1].1.responses@);
        assert(resp.responses@.subrange(0, part_offset(parts, k)) =~= resp.responses@.subrange(0, part_offset(parts, k - 1))
            + resp.responses@.subrange(part_offset(parts, k - 1), part_offset(parts, k)));
    } else {
        assert(resp.responses@.subrange(0, 0) =~= Seq::<crate::raft_cmd::Response>::empty());
    }
}

/// The responses of the first `k` shares, in order.
pub open spec fn shares_responses(shares: Seq<(Option<u64>, RaftCmdResponse)>, k: int) -> Seq<crate::raft_cmd::Response>
    decreases k,
{
    if k <= 0 {
        Seq::empty()
    } else {
        shares_responses(shares, k - 1) + shares[k - 1].1.responses@
    }
}

proof fn lemma_offsets_grow(parts: Seq<(Option<u64>, usize)>, a: int, b: int)
    requires
        0 <= a <= b <= parts.len(),
    ensures
        part_offset(parts, a) <= part_offset(parts, b),
    decreases b - a,
{
    if a < b {
        lemma_offsets_grow(parts, a, b - 1);
    }
}

/// A consumer reads a run of entries that starts where it stands, stays
/// within what is applied and is at most one batch long; it then stands
/// right after it, so runs follow each other with no gap and no overlap.
pub proof fn law_consumer_reads_contiguous(log_index: u64, start_index: u64, applied_index: u64)
    requires
        start_index <= log_index <= applied_index,
        log_index + CONSUME_BATCH <= u64::MAX,
    ensures
        ({
            let end = if log_index + CONSUME_BATCH < applied_index { (log_index + CONSUME_BATCH) as u64 } else { applied_index };
            &&& log_index <= end <= applied_index
            &&& end - log_index <= CONSUME_BATCH
            &&& end + 1 > end
        }),
{
}

/// The range a query reads lies within both the request and the part of
/// the log that can be read.
pub proof fn law_query_range_within(req_start: u64, req_end: u64, first: u64, last: u64)
    ensures
        ({
            let r = query_range(req_start, req_end, first, last);
            r.0 <= r.1 ==> first <= r.0 && r.1 <= last && req_start <= r.0 && r.1 <= req_end
        }),
{
}

/// The node probed after `k` failed probes from `node_id`.
pub open spec fn probe_after(node_id: int, node_count: int, k: nat) -> int
    decreases k,
{
    if k == 0 {
        node_id
    } else {
        next_node(probe_after(node_id, node_count, (k - 1) as nat), node_count)
    }
}

/// Looking for a leader probes the nodes in turn: after `k` failures from
/// node `node_id` it probes node `(node_id - 1 + k) % n + 1`, so every node
/// is probed within `n` tries.
pub proof fn law_probe_visits_every_node(node_id: int, node_count: int, k: nat)
    requires
        node_count > 0,
        1 <= node_id <= node_count,
    ensures
        probe_after(node_id, node_count, k) == (node_id - 1 + k) % node_count + 1,
        1 <= probe_after(node_id, node_count, k) <= node_count,
    decreases k,
{
    if k > 0 {
        law_probe_visits_every_node(node_id, node_count, (k - 1) as nat);
        let p = probe_after(node_id, node_count, (k - 1) as nat);
        let a = node_id - 1 + k - 1;
        assert(p == a % node_count + 1);
        assert(next_node(p, node_count) == p % node_count + 1);
        assert((a % node_count + 1) % node_count == (a + 1) % node_count) by {
            vstd::arithmetic::div_mod::lemma_add_mod_noop(a, 1, node_count);
            if node_count == 1 {
                vstd::arithmetic::div_mod::lemma_mod_bound(a % node_count + 1, node_count);
                vstd::arithmetic::div_mod::lemma_mod_bound(a + 1, node_count);
            } else {
                vstd::arithmetic::div_mod::lemma_small_mod(1nat, node_count as nat);
            }
        }
        vstd::arithmetic::div_mod::lemma_mod_bound(a, node_count);
    } else {
        vstd::arithmetic::div_mod::lemma_small_mod((node_id - 1) as nat, node_count as nat);
    }
    vstd::arithmetic::div_mod::lemma_mod_bound(node_id - 1 + k, node_count);
}

/// The replicated index is at most the last index and at most every
/// peer's matched index.
proof fn lemma_min_matched_bound(last: u64, matched: Seq<u64>)
    ensures
        min_matched(last, matched) <= last,
        forall|i: int| 0 <= i < matched.len() ==> min_matched(last, matched) <= #[trigger] matched[i],
    decreases matched.len(),
{
    if matched.len() > 0 {
        lemma_min_matched_bound(last, matched.drop_last());
        assert forall|i: int| 0 <= i < matched.len() implies min_matched(last, matched) <= #[trigger] matched[i] by {
            if i < matched.len() - 1 {
                assert(matched[i] == matched.drop_last()[i]);
            }
        }
    }
}

/// A leader never compacts past what every peer has replicated, nor past
/// its own last index, and compaction only moves forward from the first
/// index.
pub proof fn law_gc_compaction_within_replicated(is_leader: bool, last_idx: u64, matched: Seq<u64>, first_idx: u64, limit: u64)
    requires
        first_idx + limit / 10 <= u64::MAX,
    ensures
        gc_compact_index(is_leader, last_idx, matched, first_idx, limit) matches Some(c) ==> {
            &&& is_leader
            &&& first_idx <= c <= last_idx
            &&& forall|i: int| 0 <= i < matched.len() ==> c <= #[trigger] matched[i]
        },
{
    lemma_min_matched_bound(last_idx, matched);
}

/// Commands added to an empty batch builder, in order, make one command:
/// the first command's header with the requests of all of them in order,
/// and each callback waits, in the order of the adds, with its command's
/// number of requests.
pub proof fn law_batch_gathers_in_order(cmds: Seq<(RaftCmdRequestView, Callback)>)
    requires
        cmds.len() >= 1,
    ensures
        add_all((None, Seq::empty()), cmds).0 == Some(RaftCmdRequestView { requests: all_requests(cmds), ..cmds[0].0 }),
        add_all((None, Seq::empty()), cmds).1
            == cmds.map_values(|c: (RaftCmdRequestView, Callback)| (c.1, c.0.requests.len() as usize)),
    decreases cmds.len(),
{
    let f = |c: (RaftCmdRequestView, Callback)| (c.1, c.0.requests.len() as usize);
    if cmds.len() == 1 {
        assert(cmds.drop_last().len() == 0);
        assert(all_requests(cmds.drop_last()) =~= Seq::empty());
        assert(all_requests(cmds) =~= cmds[0].0.requests);
        assert(cmds.map_values(f) =~= seq![f(cmds[0])]);
        assert(add_all((None, Seq::empty()), cmds).1 =~= seq![f(cmds[0])]);
    } else {
        let pre = cmds.drop_last();
        law_batch_gathers_in_order(pre);
        assert(pre[0] == cmds[0]);
        assert(cmds.map_values(f) =~= pre.map_values(f).push(f(cmds.last())));
    }
}

/// Once the writes of a round with new entries are stored and its states
/// taken in, the storage's last index and last term are those of the
/// round's last entry, and its raft and apply states those the round led
/// to.
pub proof fn law_post_ready_takes_last_entry(ps: PeerStorage, entries: Seq<Entry>, hs: Option<HardState>)
    requires
        entries.len() > 0,
    ensures
        ({
            let ctx = ready_context(ps, entries, hs);
            let after = post_ready_state(ps, ctx);
            &&& after.raft_state.last_index == entries.last().index
            &&& after.last_term == entries.last().term
            &&& after.raft_state == ctx.raft_state
            &&& after.apply_state == ctx.apply_state
            &&& after.apply_state == ps.apply_state
        }),
{
}

/// Messages queued for the stores `ids`, one after another, then a flush:
/// before the flush something needs flushing; the flush wakes every store
/// that got a message, each once, and leaves no queue dirty; a second flush
/// wakes nobody and changes nothing.
pub proof fn law_flush_after_sends(d: Map<u64, bool>, l: Seq<u64>, ids: Seq<u64>)
    requires
        listed(d, l),
        ids.len() >= 1,
    ensures
        ({
            let st = send_all_marks((d, l), ids);
            let flushed = flush_marks(st.0, st.1);
            &&& st.1.len() > 0
            &&& forall|i: int| 0 <= i < ids.len() ==> #[trigger] wake_order(st.0, st.1).contains(ids[i])
            &&& wake_order(st.0, st.1).no_duplicates()
            &&& forall|k: u64| #[trigger] flushed.contains_key(k) ==> !flushed[k]
            &&& flush_marks(flushed, Seq::empty()) == flushed
            &&& wake_order(flushed, Seq::empty()) == Seq::<u64>::empty()
        }),
{
    let st = send_all_marks((d, l), ids);
    lemma_sends_mark(d, l, ids);
    assert(st.1.contains(ids.last()));
    assert forall|i: int| 0 <= i < ids.len() implies #[trigger] wake_order(st.0, st.1).contains(ids[i]) by {
        lemma_wake_contains(st.0, st.1, ids[i]);
    }
    lemma_wake_no_duplicates(st.0, st.1);
    let flushed = flush_marks(st.0, st.1);
    assert(flush_marks(flushed, Seq::empty()) =~= flushed);
}

/// After messages are queued for `ids`, every queue that got one is dirty
/// and listed, and the flags and list still agree.
proof fn lemma_sends_mark(d: Map<u64, bool>, l: Seq<u64>, ids: Seq<u64>)
    requires
        listed(d, l),
    ensures
        listed(send_all_marks((d, l), ids).0, send_all_marks((d, l), ids).1),
        forall|i: int| 0 <= i < ids.len() ==> {
            let st = send_all_marks((d, l), ids);
            &&& st.0.contains_key(#[trigger] ids[i])
            &&& st.0[ids[i]]
            &&& st.1.contains(ids[i])
        },
    decreases ids.len(),
{
    if ids.len() > 0 {
        let pre = ids.drop_last();
        lemma_sends_mark(d, l, pre);
        let a = send_all_marks((d, l), pre);
        let id = ids.last();
        let b = send_marks(a, id);
        assert(b == send_all_marks((d, l), ids));
        assert forall|k: u64| #[trigger] b.0.contains_key(k) && b.0[k] implies b.1.contains(k) by {
            if k == id {
                if !(a.0.contains_key(id) && a.0[id]) {
                    assert(b.1.last() == id);
                }
            } else {
                assert(a.0.contains_key(k) && a.0[k]);
                assert(a.1.contains(k));
                let j = choose|j: int| 0 <= j < a.1.len() && a.1[j] == k;
                assert(b.1[j] == k);
            }
        }
        assert forall|i: int| 0 <= i < ids.len() implies b.0.contains_key(#[trigger] ids[i]) && b.0[ids[i]] && b.1.contains(ids[i]) by {
            if ids[i] != id {
                assert(pre[i] == ids[i]);
                assert(a.1.contains(ids[i]));
                let j = choose|j: int| 0 <= j < a.1.len() && a.1[j] == ids[i];
                assert(b.1[j] == ids[i]);
            } else if !(a.0.contains_key(id) && a.0[id]) {
                assert(b.1.last() == id);
            }
        }
    }
}

/// A listed queue that is dirty is woken.
proof fn lemma_wake_contains(d: Map<u64, bool>, l: Seq<u64>, k: u64)
    requires
        l.contains(k),
        d.contains_key(k),
        d[k],
    ensures
        wake_order(d, l).contains(k),
    decreases l.len(),
{
    let id = l[0];
    if id == k {
        assert(wake_order(d, l)[0] == k);
    } else {
        let rest = l.drop_first();
        let j = choose|j: int| 0 <= j < l.len() && l[j] == k;
        assert(rest[j - 1] == k);
        if d.contains_key(id) && d[id] {
            let d2 = d.insert(id, false);
            lemma_wake_contains(d2, rest, k);
            let w = wake_order(d2, rest);
            let jj = choose|jj: int| 0 <= jj < w.len() && w[jj] == k;
            assert(wake_order(d, l) == seq![id] + w);
            assert(wake_order(d, l)[jj + 1] == k);
        } else {
            lemma_wake_contains(d, rest, k);
        }
    }
}

/// The stores woken are dirty ones, each woken once.
proof fn lemma_wake_no_duplicates(d: Map<u64, bool>, l: Seq<u64>)
    ensures
        wake_order(d, l).no_duplicates(),
        forall|i: int| 0 <= i < wake_order(d, l).len() ==> d.contains_key(#[trigger] wake_order(d, l)[i])
            && d[wake_order(d, l)[i]],
    decreases l.len(),
{
    if l.len() > 0 {
        let id = l[0];
        let rest = l.drop_first();
        if d.contains_key(id) && d[id] {
            let d2 = d.insert(id, false);
            lemma_wake_no_duplicates(d2, rest);
            let w = wake_order(d2, rest);
            let all = wake_order(d, l);
            assert(all == seq![id] + w);
            assert forall|i: int| 0 <= i < all.len() implies d.contains_key(#[trigger] all[i]) && d[all[i]] by {
                if i > 0 {
                    assert(all[i] == w[i - 1]);
                }
            }
            assert forall|i: int, j: int| 0 <= i < all.len() && 0 <= j < all.len() && i != j implies all[i] != all[j] by {
                if i > 0 && j > 0 {
                    assert(all[i] == w[i - 1] && all[j] == w[j - 1]);
                } else if i == 0 {
                    assert(all[j] == w[j - 1]);
                    assert(d2[w[j - 1]]);
                } else {
                    assert(all[i] == w[i - 1]);
                    assert(d2[w[i - 1]]);
                }
            }
        } else {
            lemma_wake_no_duplicates(d, rest);
        }
    }
}

/// Over any number of steps, a consumer reads the entries from where it
/// started, in order, with no gap and no repeat, and stands right after
/// the last one it read; it never reads past the largest applied index it
/// saw.
pub proof fn law_consumer_reads_in_order(log_index: int, applieds: Seq<int>)
    ensures
        ({
            let (reads, at) = consume_reads(log_index, applieds);
            &&& at >= log_index
            &&& reads == Seq::new((at - log_index) as nat, |i: int| log_index + i)
            &&& forall|k: int| 0 <= k < reads.len() ==> exists|j: int| 0 <= j < applieds.len() && #[trigger] reads[k] <= applieds[j]
        }),
    decreases applieds.len(),
{
    if applieds.len() > 0 {
        let pre = applieds.drop_last();
        law_consumer_reads_in_order(log_index, pre);
        let (reads, at) = consume_reads(log_index, pre);
        let a = applieds.last();
        if at <= a {
            let end = if at + CONSUME_BATCH < a { at + CONSUME_BATCH } else { a };
            let added = Seq::new((end + 1 - at) as nat, |i: int| at + i);
            assert(reads + added =~= Seq::new((end + 1 - log_index) as nat, |i: int| log_index + i));
            let all = reads + added;
            assert forall|k: int| 0 <= k < all.len() implies exists|j: int| 0 <= j < applieds.len() && #[trigger] all[k] <= applieds[j] by {
                if k < reads.len() {
                    let j = choose|j: int| 0 <= j < pre.len() && reads[k] <= pre[j];
                    assert(applieds[j] == pre[j]);
                    assert(all[k] <= applieds[j]);
                } else {
                    assert(all[k] <= applieds[applieds.len() - 1]);
                }
            }
        } else {
            assert forall|k: int| 0 <= k < reads.len() implies exists|j: int| 0 <= j < applieds.len() && #[trigger] reads[k] <= applieds[j] by {
                let j = choose|j: int| 0 <= j < pre.len() && reads[k] <= pre[j];
                assert(applieds[j] == pre[j]);
            }
        }
    } else {
        assert(Seq::<int>::empty() =~= Seq::new(0, |i: int| log_index + i));
    }
}

/// The reply to a batch of commands, split among them: each command gets
/// as many responses as it had requests, and the shares, put back together
/// in the order of the adds, are the whole reply.
pub proof fn law_batch_reply_split(
    cmds: Seq<(RaftCmdRequestView, Callback)>,
    resp: RaftCmdResponse,
    shares: Seq<(Option<u64>, RaftCmdResponse)>,
)
    requires
        cmds.len() >= 1,
        forall|i: int| 0 <= i < cmds.len() ==> (#[trigger] cmds[i]).0.requests.len() <= usize::MAX,
        resp.header.error is None,
        resp.responses@.len() == all_requests(cmds).len(),
        shares.len() == cmds.len(),
        forall|i: int| 0 <= i < cmds.len() ==> part_reply_fits(
            resp,
            batch_parts(add_all((None, Seq::empty()), cmds).1),
            i,
            #[trigger] shares[i].1,
        ),
    ensures
        shares_responses(shares, cmds.len() as int) == resp.responses@,
        forall|i: int| 0 <= i < cmds.len() ==> (#[trigger] shares[i]).1.responses@.len() == cmds[i].0.requests.len(),
{
    law_batch_gathers_in_order(cmds);
    let parts = batch_parts(add_all((None, Seq::empty()), cmds).1);
    let n = cmds.len() as int;
    assert(parts.len() == n);
    assert forall|i: int| 0 <= i < n implies (#[trigger] parts[i]).1 == cmds[i].0.requests.len() by {}
    lemma_offsets_count(cmds, parts, n);
    assert(cmds.take(n) =~= cmds);
    law_batch_shares_cover_reply(resp, parts, shares, n);
    assert(resp.responses@.subrange(0, resp.responses@.len() as int) =~= resp.responses@);
    assert forall|i: int| 0 <= i < n implies (#[trigger] shares[i]).1.responses@.len() == cmds[i].0.requests.len() by {
        lemma_offsets_grow(parts, i + 1, n);
        lemma_offsets_grow(parts, 0, i);
        assert(part_offset(parts, 0) == 0);
        assert(part_offset(parts, n) == resp.responses@.len());
        assert(part_offset(parts, i + 1) == part_offset(parts, i) + parts[i].1);
        assert(part_reply_fits(resp, parts, i, shares[i].1));
        assert(shares[i].1.responses@ == resp.responses@.subrange(part_offset(parts, i), part_offset(parts, i) + parts[i].1));
    }
}

/// Where the share of command `k` starts: after the requests of the
/// commands before it.
proof fn lemma_offsets_count(cmds: Seq<(RaftCmdRequestView, Callback)>, parts: Seq<(Option<u64>, usize)>, k: int)
    requires
        0 <= k <= cmds.len(),
        parts.len() == cmds.len(),
        forall|i: int| 0 <= i < cmds.len() ==> (#[trigger] parts[i]).1 == cmds[i].0.requests.len(),
    ensures
        part_offset(parts, k) == all_requests(cmds.take(k)).len(),
    decreases k,
{
    if k > 0 {
        lemma_offsets_count(cmds, parts, k - 1);
        assert(cmds.take(k).drop_last() =~= cmds.take(k - 1));
        assert(cmds.take(k).last() == cmds[k - 1]);
    } else {
        assert(cmds.take(0).len() == 0);
    }
}

/// Whether index `i` is both requested (in `[req_start, req_end]`) and
/// readable (in `[first, last]`).
pub open spec fn requested_and_readable(i: int, req_start: u64, req_end: u64, first: u64, last: u64) -> bool {
    req_start <= i <= req_end && first <= i <= last
}

/// A query reads every index that is both requested and readable, and
/// nothing else: its range starts at the larger and ends at the smaller of
/// the two bounds. It is refused (an empty range) exactly when no index is
/// both requested and readable.
pub proof fn law_query_reads_all_requested(req_start: u64, req_end: u64, first: u64, last: u64)
    ensures
        ({
            let r = query_range(req_start, req_end, first, last);
            &&& forall|i: int| #[trigger] requested_and_readable(i, req_start, req_end, first, last) ==> r.0 <= i <= r.1
            &&& forall|i: int| r.0 <= i <= r.1 ==> #[trigger] requested_and_readable(i, req_start, req_end, first, last)
            &&& (r.0 <= r.1 <==> exists|i: int| #[trigger] requested_and_readable(i, req_start, req_end, first, last))
            &&& (r.0 == req_start || r.0 == first) && r.0 >= req_start && r.0 >= first
            &&& (r.1 == req_end || r.1 == last) && r.1 <= req_end && r.1 <= last
        }),
{
    let r = query_range(req_start, req_end, first, last);
    if r.0 <= r.1 {
        assert(requested_and_readable(r.0 as int, req_start, req_end, first, last));
    }
}

/// An entry raft refused is never reported as proposed: the refusal comes
/// back as the error (after the size check, which comes first). A proposal
/// succeeds only when raft took the entry and its log grew, and then at the
/// index proposed.
pub proof fn law_refused_entry_never_proposed(region_id: u64, data_len: u64, propose_index: u64, outcome: RaftProposeOutcome)
    ensures
        ({
            let r = propose_normal_result(region_id, data_len, propose_index, outcome);
            &&& outcome is Failed ==> r is Err
            &&& (outcome is Failed && data_len <= MAX_ENTRY_SIZE) ==> r == Err::<u64, Error>(outcome->Failed_0)
            &&& data_len > MAX_ENTRY_SIZE ==> r == Err::<u64, Error>(Error::RaftEntryTooLarge { region_id, entry_size: data_len })
            &&& r is Ok ==> r->Ok_0 == propose_index && data_len <= MAX_ENTRY_SIZE && outcome is Taken
                && outcome->next_index != propose_index
            &&& (data_len <= MAX_ENTRY_SIZE && outcome is Taken && outcome->next_index != propose_index)
                ==> r == Ok::<u64, Error>(propose_index)
        }),
{
}

} // verus!
