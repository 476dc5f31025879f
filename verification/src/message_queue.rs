//! Reading the queue: the range of the log that can be read, reading a
//! range, decoding entries into messages, the consumer that follows the
//! log, and the channel that hands entries to the reader.
use std::sync::mpsc::Receiver;
use std::time::Instant;
use vstd::prelude::*;
use crate::engine::{Engines, fetch_clears, fetch_count, fetch_ok, log_range, region_log};
use crate::entry::{Entry, EntryView, entries_view};
use crate::metapb::Region;
use crate::text::{cat, cat_u64, decimal};
use crate::peer_storage::init_apply_state;
use crate::raft_cmd::{CmdType, Request};
use crate::raft_state::RaftApplyState;

verus! {

#[verifier::external_type_specification]
#[verifier::external_body]
pub struct ExInstant(Instant);

#[verifier::external_type_specification]
#[verifier::external_body]
#[verifier::reject_recursive_types(T)]
pub struct ExReceiver<T>(Receiver<T>);

/// The region a queue reads, as the kv engine stores it.
pub fn load_region(engines: &Engines, region_id: u64) -> (res: Region)
    requires
        engines.wf(),
        engines.kv@.region_states.contains_key(region_id),
    ensures
        res@ == engines.kv@.region_states[region_id],
{
    match engines.kv.get_region_state(region_id) {
        Some(r) => r,
        None => {
            assert(false);
            Region::new_empty()
        },
    }
}

/// The first index that can be read and the last applied index.
pub open spec fn readable_bounds(s: RaftApplyState) -> (u64, u64) {
    ((s.truncated_state.index + 1) as u64, s.applied_index)
}

/// The range of a region's log that can be read: from the entry after the
/// truncated one to the applied one.
pub fn get_start_index_and_applied_index(engines: &Engines, region: &Region) -> (res: (u64, u64))
    requires
        engines.wf(),
        engines.kv@.apply_states.contains_key(region.id),
        engines.kv@.apply_states[region.id].truncated_state.index < u64::MAX,
    ensures
        res == readable_bounds(engines.kv@.apply_states[region.id]),
{
    let apply_state = init_apply_state(engines, region);
    (apply_state.truncated_state.index + 1, apply_state.applied_index)
}

/// Reads the entries `[start, end]` of a region's log, or, when the range
/// is not readable, gives back the readable bounds.
pub fn get_range(engines: &Engines, region: &Region, start: u64, end: u64) -> (res: Result<Vec<Entry>, (u64, u64)>)
    requires
        engines.wf(),
        engines.kv@.apply_states.contains_key(region.id),
        engines.kv@.apply_states[region.id].truncated_state.index < u64::MAX,
        ({
            let b = readable_bounds(engines.kv@.apply_states[region.id]);
            b.0 <= start && end <= b.1 ==> end < u64::MAX && end + 1 - start <= usize::MAX && fetch_ok(
                region_log(engines.raft@.entries, region.id),
                start,
                (end + 1) as u64,
                usize::MAX as int,
            )
        }),
    ensures
        ({
            let b = readable_bounds(engines.kv@.apply_states[region.id]);
            let log = region_log(engines.raft@.entries, region.id);
            if start < b.0 || end > b.1 {
                res == Err::<Vec<Entry>, (u64, u64)>(b)
            } else {
                res matches Ok(v) && if fetch_clears(log, start, (end + 1) as u64, usize::MAX as int) {
                    v@.len() == 0
                } else {
                    entries_view(v@) == log_range(
                        log,
                        start as int,
                        fetch_count(log, start, (end + 1) as u64, usize::MAX as int),
                    )
                }
            }
        }),
{
    let (log_start_index, log_end_index) = get_start_index_and_applied_index(engines, region);
    if start < log_start_index || end > log_end_index {
        return Err((log_start_index, log_end_index));
    }
    let mut buf: Vec<Entry> = Vec::new();
    engines.raft.fetch_entries_to(region.id, start, end + 1, None, &mut buf);
    assert(entries_view(Seq::<Entry>::empty()) =~= Seq::<EntryView>::empty());
    Ok(buf)
}

/// The payloads of the messages an entry carries, with its index. An entry
/// with no command carries none.
pub open spec fn entry_payloads(e: EntryView) -> Seq<Seq<u8>> {
    match e.cmd {
        None => Seq::empty(),
        Some(c) => c.requests.map_values(|r: crate::raft_cmd::RequestView| r.message_queue.payload),
    }
}

/// Every request of the entry's command is a queue message.
pub open spec fn entry_is_queue_only(e: EntryView) -> bool {
    match e.cmd {
        None => true,
        Some(c) => forall|i: int| 0 <= i < c.requests.len() ==> (#[trigger] c.requests[i]).cmd_type == CmdType::MessageQueue,
    }
}

/// Decodes an entry into its index and the payloads of its messages.
pub fn parse_log_entry(entry: &Entry) -> (res: (u64, Vec<Vec<u8>>))
    requires
        entry_is_queue_only(entry@),
    ensures
        res.0 == entry.index,
        res.1@.len() == entry_payloads(entry@).len(),
        forall|i: int| 0 <= i < res.1@.len() ==> (#[trigger] res.1@[i])@ == entry_payloads(entry@)[i],
{
    let index = entry.index;
    match &entry.cmd {
        None => (index, Vec::new()),
        Some(cmd) => {
            let mut out: Vec<Vec<u8>> = Vec::new();
            let n = cmd.requests.len();
            let mut i: usize = 0;
            while i < n
                invariant
                    n == cmd.requests@.len(),
                    i <= n,
                    entry.cmd == Some(*cmd),
                    entry_is_queue_only(entry@),
                    out@.len() == i,
                    forall|j: int| 0 <= j < i ==> (#[trigger] out@[j])@ == entry_payloads(entry@)[j],
                decreases n - i,
            {
                let req: &Request = &cmd.requests[i];
                out.push(copy_payload(&req.message_queue.payload));
                i = i + 1;
            }
            (index, out)
        },
    }
}

/// A copy of a payload.
fn copy_payload(p: &Vec<u8>) -> (res: Vec<u8>)
    ensures
        res@ == p@,
{
    let mut out: Vec<u8> = Vec::new();
    let mut i: usize = 0;
    while i < p.len()
        invariant
            i <= p@.len(),
            out@ == p@.subrange(0, i as int),
        decreases p@.len() - i,
    {
        out.push(p[i]);
        assert(out@ =~= p@.subrange(0, i + 1));
        i = i + 1;
    }
    assert(p@.subrange(0, p@.len() as int) =~= p@);
    out
}

/// The most entries a consumer reads at once, past the first.
pub const CONSUME_BATCH: u64 = 1000;

/// What a consumer does next.
#[derive(Clone, Copy, Debug, PartialEq, Eq, Structural)]
pub enum ConsumeStep {
    /// Nothing new is applied yet: wait a little and look again.
    Wait,
    /// Read the entries `[start, end]` and go on from `end + 1`.
    Read { start: u64, end: u64 },
}

/// Where a read from `log_index` ends when `applied` is applied.
pub open spec fn read_end(log_index: int, applied: int) -> int {
    if log_index + CONSUME_BATCH < applied { log_index + CONSUME_BATCH } else { applied }
}

/// A consumer starting at `log_index` that sees the applied indexes
/// `applieds`, one per step: the indexes it reads, in order, and where it
/// then stands. A step reads from where it stands to `read_end`, or waits
/// when nothing new is applied.
pub open spec fn consume_reads(log_index: int, applieds: Seq<int>) -> (Seq<int>, int)
    decreases applieds.len(),
{
    if applieds.len() == 0 {
        (Seq::empty(), log_index)
    } else {
        let (reads, at) = consume_reads(log_index, applieds.drop_last());
        let a = applieds.last();
        if at > a {
            (reads, at)
        } else {
            let end = read_end(at, a);
            (reads + Seq::new((end + 1 - at) as nat, |i: int| at + i), end + 1)
        }
    }
}

/// The next step of a consumer at `log_index`, given the readable range of
/// the log. A consumer must never fall behind the truncated part.
pub fn consume_step(log_index: u64, start_index: u64, applied_index: u64) -> (res: ConsumeStep)
    requires
        start_index <= log_index,
        log_index + CONSUME_BATCH <= u64::MAX,
    ensures
        log_index > applied_index ==> res == ConsumeStep::Wait,
        log_index <= applied_index ==> res == (ConsumeStep::Read {
            start: log_index,
            end: if log_index + CONSUME_BATCH < applied_index { (log_index + CONSUME_BATCH) as u64 } else { applied_index },
        }),
        res matches ConsumeStep::Read { start, end } ==> start == log_index && end == read_end(log_index as int, applied_index as int),
{
    if log_index > applied_index {
        return ConsumeStep::Wait;
    }
    let far = log_index + CONSUME_BATCH;
    let end = if far < applied_index { far } else { applied_index };
    ConsumeStep::Read { start: log_index, end }
}

/// The answer to a query for the entries of a range of the log.
pub struct QueryRaftLogEntriesResponse {
    pub first_log_index: u64,
    pub last_log_index: u64,
    pub error: Option<QueryRangeError>,
    pub entries: Vec<Entry>,
}

/// Why a query range cannot be served: the request's bounds, the log's
/// bounds, and the range they leave, which is empty.
#[derive(Clone, Copy, Debug, PartialEq, Eq, Structural)]
pub struct QueryRangeError {
    pub req_start: u64,
    pub first_log_index: u64,
    pub start_index: u64,
    pub req_end: u64,
    pub last_log_index: u64,
    pub end_index: u64,
}

/// The message of a query whose range is empty.
pub open spec fn query_error_text(e: QueryRangeError) -> Seq<char> {
    "Illegal Request. Max(Req's start index("@ + decimal(e.req_start as nat) + "), first_log_index("@
        + decimal(e.first_log_index as nat) + "))=="@ + decimal(e.start_index as nat)
        + " is greater than min(Req's end index("@ + decimal(e.req_end as nat) + "), last_log_index("@
        + decimal(e.last_log_index as nat) + "))=="@ + decimal(e.end_index as nat)
}

impl QueryRangeError {
    /// The message the query is answered with.
    pub fn text(&self) -> (s: String)
        ensures
            s@ == query_error_text(*self),
    {
        let s = cat_u64(String::from_str("Illegal Request. Max(Req's start index("), self.req_start);
        let s = cat_u64(cat(s, "), first_log_index("), self.first_log_index);
        let s = cat_u64(cat(s, "))=="), self.start_index);
        let s = cat_u64(cat(s, " is greater than min(Req's end index("), self.req_end);
        let s = cat_u64(cat(s, "), last_log_index("), self.last_log_index);
        cat_u64(cat(s, "))=="), self.end_index)
    }
}

/// The range a query reads: the requested range cut to what the log holds.
pub open spec fn query_range(req_start: u64, req_end: u64, first: u64, last: u64) -> (u64, u64) {
    (if req_start > first { req_start } else { first }, if req_end < last { req_end } else { last })
}

/// Answers a query for the entries `[req_start, req_end]` of a region's
/// log: the range is cut to the readable part, and an empty range is an
/// error that carries the bounds.
pub fn query_raft_log_entries(engines: &Engines, region: &Region, req_start: u64, req_end: u64) -> (resp: QueryRaftLogEntriesResponse)
    requires
        engines.wf(),
        engines.kv@.apply_states.contains_key(region.id),
        engines.kv@.apply_states[region.id].truncated_state.index < u64::MAX,
        ({
            let b = readable_bounds(engines.kv@.apply_states[region.id]);
            let r = query_range(req_start, req_end, b.0, b.1);
            r.0 <= r.1 ==> r.1 < u64::MAX && r.1 + 1 - r.0 <= usize::MAX && fetch_ok(
                region_log(engines.raft@.entries, region.id),
                r.0,
                (r.1 + 1) as u64,
                usize::MAX as int,
            )
        }),
    ensures
        ({
            let b = readable_bounds(engines.kv@.apply_states[region.id]);
            let r = query_range(req_start, req_end, b.0, b.1);
            let log = region_log(engines.raft@.entries, region.id);
            &&& resp.first_log_index == b.0
            &&& resp.last_log_index == b.1
            &&& if r.0 > r.1 {
                &&& resp.error == Some(QueryRangeError {
                    req_start,
                    first_log_index: b.0,
                    start_index: r.0,
                    req_end,
                    last_log_index: b.1,
                    end_index: r.1,
                })
                &&& resp.entries@.len() == 0
            } else {
                &&& resp.error is None
                &&& if fetch_clears(log, r.0, (r.1 + 1) as u64, usize::MAX as int) {
                    resp.entries@.len() == 0
                } else {
                    entries_view(resp.entries@) == log_range(
                        log,
                        r.0 as int,
                        fetch_count(log, r.0, (r.1 + 1) as u64, usize::MAX as int),
                    )
                }
            }
        }),
{
    let (first_log_index, last_log_index) = get_start_index_and_applied_index(engines, region);
    let start_index = if req_start > first_log_index { req_start } else { first_log_index };
    let end_index = if req_end < last_log_index { req_end } else { last_log_index };
    if start_index > end_index {
        return QueryRaftLogEntriesResponse {
            first_log_index,
            last_log_index,
            error: Some(QueryRangeError {
                req_start,
                first_log_index,
                start_index,
                req_end,
                last_log_index,
                end_index,
            }),
            entries: Vec::new(),
        };
    }
    match get_range(engines, region, start_index, end_index) {
        Ok(entries) => QueryRaftLogEntriesResponse { first_log_index, last_log_index, error: None, entries },
        Err(_) => {
            assert(false);
            QueryRaftLogEntriesResponse { first_log_index, last_log_index, error: None, entries: Vec::new() }
        },
    }
}

/// When an entry was sent to the reader and when the reader got it.
pub struct MetaInfo {
    pub send_time: Instant,
    pub recv_time: Option<Instant>,
}

/// The messages of one log entry, as handed to a reader.
pub struct LogEntry<T> {
    pub meta: MetaInfo,
    pub index: u64,
    pub messages: Vec<T>,
}

/// The current time (`Instant::now`). Nothing is claimed of it.
#[verifier::external_body]
fn now() -> (res: Instant) {
    Instant::now()
}

impl<T> LogEntry<T> {
    /// An entry sent now and not received yet.
    pub fn new(index: u64, messages: Vec<T>) -> (res: Self)
        ensures
            res.index == index,
            res.messages == messages,
            res.meta.recv_time is None,
    {
        let meta = MetaInfo { send_time: now(), recv_time: None };
        LogEntry { meta, index, messages }
    }
}

/// Why nothing was received without waiting.
#[derive(Clone, Copy, Debug, PartialEq, Eq, Structural)]
pub enum TryRecvError {
    /// Nothing is waiting yet.
    Empty,
    /// The sending side is gone.
    Disconnected,
}

/// Why nothing will ever be received: the sending side is gone.
#[derive(Clone, Copy, Debug, PartialEq, Eq, Structural)]
pub struct RecvError;

/// Takes what waits in the channel without blocking (`Receiver::try_recv`).
/// What comes back depends on the other threads; nothing is claimed of it.
#[verifier::external_body]
fn channel_try_recv<T>(rx: &Receiver<T>) -> (res: Result<T, TryRecvError>) {
    match rx.try_recv() {
        Ok(v) => Ok(v),
        Err(std::sync::mpsc::TryRecvError::Empty) => Err(TryRecvError::Empty),
        Err(std::sync::mpsc::TryRecvError::Disconnected) => Err(TryRecvError::Disconnected),
    }
}

/// Waits for the next item of the channel (`Receiver::recv`). What comes
/// back depends on the other threads; nothing is claimed of it.
#[verifier::external_body]
fn channel_recv<T>(rx: &Receiver<T>) -> (res: Result<T, RecvError>) {
    match rx.recv() {
        Ok(v) => Ok(v),
        Err(_) => Err(RecvError),
    }
}

/// The receiving end of the channel of log entries.
#[verifier::reject_recursive_types(T)]
pub struct LogEntryReceiver<T>(pub Receiver<LogEntry<T>>);

impl<T> LogEntryReceiver<T> {
    /// Takes the next entry if one waits, stamped with its receive time.
    pub fn try_recv(&self) -> (res: Result<LogEntry<T>, TryRecvError>)
        ensures
            res matches Ok(e) ==> e.meta.recv_time is Some,
    {
        match channel_try_recv(&self.0) {
            Ok(entry) => Ok(Self::enrich_meta_info(entry)),
            Err(e) => Err(e),
        }
    }

    /// Waits for the next entry, stamped with its receive time.
    pub fn recv(&self) -> (res: Result<LogEntry<T>, RecvError>)
        ensures
            res matches Ok(e) ==> e.meta.recv_time is Some,
    {
        match channel_recv(&self.0) {
            Ok(entry) => Ok(Self::enrich_meta_info(entry)),
            Err(e) => Err(e),
        }
    }

    /// Stamps an entry with the time it is received.
    pub fn enrich_meta_info(entry: LogEntry<T>) -> (res: LogEntry<T>)
        ensures
            res.index == entry.index,
            res.messages == entry.messages,
            res.meta.send_time == entry.meta.send_time,
            res.meta.recv_time is Some,
    {
        let mut entry = entry;
        entry.meta.recv_time = Some(now());
        entry
    }

    /// Takes the entries waiting, up to `max_count`, without blocking, each
    /// added by `recv_step`. It stops early when none is waiting or the
    /// sending side is gone.
    pub fn batch_recv(&self, max_count: usize) -> (res: Vec<LogEntry<T>>)
        ensures
            res@.len() <= max_count,
            forall|i: int| 0 <= i < res@.len() ==> (#[trigger] res@[i]).meta.recv_time is Some,
    {
        let mut buffer: Vec<LogEntry<T>> = Vec::new();
        while buffer.len() < max_count
            invariant
                buffer@.len() <= max_count,
                forall|i: int| 0 <= i < buffer@.len() ==> (#[trigger] buffer@[i]).meta.recv_time is Some,
            decreases max_count - buffer@.len(),
        {
            let received = self.try_recv();
            if !recv_step(&mut buffer, received) {
                break;
            }
        }
        buffer
    }
}

/// One step of taking a batch of entries, given what one look at the
/// channel found: an entry found is added at the end and the taking goes
/// on; nothing found, or a channel whose sending side is gone, ends it.
pub fn recv_step<T>(buffer: &mut Vec<LogEntry<T>>, received: Result<LogEntry<T>, TryRecvError>) -> (more: bool)
    ensures
        received matches Ok(e) ==> final(buffer)@ == old(buffer)@.push(e) && more,
        received is Err ==> final(buffer)@ == old(buffer)@ && !more,
{
    match received {
        Ok(e) => {
            buffer.push(e);
            true
        },
        Err(_) => false,
    }
}

} // verus!
