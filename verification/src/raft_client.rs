//! The client side of the Raft transport: the table of store addresses and
//! the bookkeeping of outgoing message queues.
use crossbeam::queue::ArrayQueue;
use std::collections::{HashMap, VecDeque};
use vstd::prelude::*;
use crate::metapb::{Peer, copy_bytes};

verus! {

broadcast use vstd::std_specs::hash::group_hash_axioms;

/// The address of each known store, by store id.
pub struct AddressMap {
    addrs: HashMap<u64, String>,
}

impl View for AddressMap {
    type V = Map<u64, String>;

    closed spec fn view(&self) -> Map<u64, String> {
        self.addrs@
    }
}

impl AddressMap {
    /// An empty table.
    pub fn new() -> (res: AddressMap)
        ensures
            res@ == Map::<u64, String>::empty(),
    {
        AddressMap { addrs: HashMap::new() }
    }

    /// The address of a store, if it is known.
    pub fn get(&self, store_id: u64) -> (res: Option<String>)
        ensures
            res == (if self@.contains_key(store_id) { Some(self@[store_id]) } else { None::<String> }),
    {
        match self.addrs.get(&store_id) {
            Some(a) => Some(a.clone()),
            None => None,
        }
    }

    /// Records the address of a store, replacing any earlier one.
    pub fn insert(&mut self, store_id: u64, addr: String)
        ensures
            final(self)@ == old(self)@.insert(store_id, addr),
    {
        self.addrs.insert(store_id, addr);
    }

    /// The address of a store that must be known.
    pub fn resolve(&self, store_id: u64) -> (res: String)
        requires
            self@.contains_key(store_id),
        ensures
            res == self@[store_id],
    {
        match self.get(store_id) {
            Some(addr) => addr,
            None => {
                assert(false);
                String::new()
            },
        }
    }
}

impl Default for AddressMap {
    fn default() -> (res: AddressMap)
        ensures
            res@ == Map::<u64, String>::empty(),
    {
        AddressMap::new()
    }
}

/// A message of the raft transport: a raft message of a region, from one
/// peer to another.
#[derive(Debug)]
pub struct RaftMessage {
    pub region_id: u64,
    pub from_peer: Peer,
    pub to_peer: Peer,
    /// The encoded raft message.
    pub message: Vec<u8>,
}

/// The mathematical value of a transport message.
pub struct RaftMessageView {
    pub region_id: u64,
    pub from_peer: Peer,
    pub to_peer: Peer,
    pub message: Seq<u8>,
}

impl View for RaftMessage {
    type V = RaftMessageView;

    open spec fn view(&self) -> RaftMessageView {
        RaftMessageView { region_id: self.region_id, from_peer: self.from_peer, to_peer: self.to_peer, message: self.message@ }
    }
}

impl RaftMessage {
    pub fn copy(&self) -> (res: RaftMessage)
        ensures
            res@ == self@,
    {
        RaftMessage { region_id: self.region_id, from_peer: self.from_peer, to_peer: self.to_peer, message: copy_bytes(&self.message) }
    }
}

#[verifier::external_type_specification]
#[verifier::external_body]
#[verifier::reject_recursive_types(T)]
pub struct ExArrayQueue<T>(ArrayQueue<T>);

/// The messages a bounded queue holds, oldest first.
pub uninterp spec fn array_queue_items(q: ArrayQueue<RaftMessage>) -> Seq<RaftMessageView>;

/// The capacity a bounded queue was made with.
pub uninterp spec fn array_queue_capacity(q: ArrayQueue<RaftMessage>) -> nat;

/// A bounded queue of `cap` slots (`ArrayQueue::new`), which must be
/// positive and at most half the address space.
#[verifier::external_body]
fn array_queue_new(cap: usize) -> (res: ArrayQueue<RaftMessage>)
    requires
        0 < cap <= usize::MAX / 2,
    ensures
        array_queue_items(res) == Seq::<RaftMessageView>::empty(),
        array_queue_capacity(res) == cap,
{
    ArrayQueue::new(cap)
}

/// Appends a message unless the queue is full, in which case it is handed
/// back (`ArrayQueue::push_mut`).
#[verifier::external_body]
fn array_queue_push(q: &mut ArrayQueue<RaftMessage>, msg: RaftMessage) -> (res: Result<(), RaftMessage>)
    ensures
        array_queue_items(*old(q)).len() < array_queue_capacity(*old(q)) ==> res is Ok
            && array_queue_items(*final(q)) == array_queue_items(*old(q)).push(msg@)
            && array_queue_capacity(*final(q)) == array_queue_capacity(*old(q)),
        array_queue_items(*old(q)).len() >= array_queue_capacity(*old(q)) ==> (res matches Err(m) && m == msg)
            && array_queue_items(*final(q)) == array_queue_items(*old(q))
            && array_queue_capacity(*final(q)) == array_queue_capacity(*old(q)),
{
    q.push_mut(msg)
}

/// Takes the oldest message, if any (`ArrayQueue::pop_mut`).
#[verifier::external_body]
fn array_queue_pop(q: &mut ArrayQueue<RaftMessage>) -> (res: Option<RaftMessage>)
    ensures
        array_queue_items(*old(q)).len() == 0 ==> res is None && array_queue_items(*final(q)) == array_queue_items(*old(q))
            && array_queue_capacity(*final(q)) == array_queue_capacity(*old(q)),
        array_queue_items(*old(q)).len() > 0 ==> (res matches Some(m) && m@ == array_queue_items(*old(q))[0]
            && array_queue_items(*final(q)) == array_queue_items(*old(q)).drop_first()
            && array_queue_capacity(*final(q)) == array_queue_capacity(*old(q))),
{
    q.pop_mut()
}

/// The number of messages held (`ArrayQueue::len`).
#[verifier::external_body]
fn array_queue_len(q: &ArrayQueue<RaftMessage>) -> (res: usize)
    ensures
        res == array_queue_items(*q).len(),
{
    q.len()
}

/// A bounded queue of outgoing messages for one connection.
pub struct Queue {
    buf: ArrayQueue<RaftMessage>,
}

impl Queue {
    /// The messages held, oldest first.
    pub closed spec fn items(&self) -> Seq<RaftMessageView> {
        array_queue_items(self.buf)
    }

    /// How many messages it can hold.
    pub closed spec fn capacity(&self) -> nat {
        array_queue_capacity(self.buf)
    }

    /// An empty queue for `cap` messages.
    pub fn with_capacity(cap: usize) -> (res: Queue)
        requires
            0 < cap <= usize::MAX / 2,
        ensures
            res.items() == Seq::<RaftMessageView>::empty(),
            res.capacity() == cap,
    {
        Queue { buf: array_queue_new(cap) }
    }

    /// Appends a message if the queue has room; tells whether it did.
    pub fn push(&mut self, msg: RaftMessage) -> (res: bool)
        ensures
            res == (old(self).items().len() < old(self).capacity()),
            res ==> final(self).items() == old(self).items().push(msg@),
            !res ==> final(self).items() == old(self).items(),
            final(self).capacity() == old(self).capacity(),
    {
        let r = array_queue_push(&mut self.buf, msg);
        match r {
            Ok(()) => true,
            Err(_) => false,
        }
    }

    /// The number of messages held.
    pub fn len(&self) -> (res: usize)
        ensures
            res == self.items().len(),
    {
        array_queue_len(&self.buf)
    }

    /// Whether no message waits.
    pub fn is_empty(&self) -> (res: bool)
        ensures
            res == (self.items().len() == 0),
    {
        array_queue_len(&self.buf) == 0
    }

    /// Takes the oldest message, if any.
    pub fn try_pop(&mut self) -> (res: Option<RaftMessage>)
        ensures
            final(self).capacity() == old(self).capacity(),
            old(self).items().len() == 0 ==> res is None && final(self).items() == old(self).items(),
            old(self).items().len() > 0 ==> (res matches Some(m) && m@ == old(self).items()[0]
                && final(self).items() == old(self).items().drop_first()),
    {
        array_queue_pop(&mut self.buf)
    }

    /// Drops every message waiting, as when the connection is lost.
    pub fn clear_pending_message(&mut self)
        ensures
            final(self).items().len() == 0,
            final(self).capacity() == old(self).capacity(),
    {
        let len = self.len();
        let mut i: usize = 0;
        while i < len
            invariant
                i <= len,
                self.items().len() == len - i,
                self.capacity() == old(self).capacity(),
            decreases len - i,
        {
            let _ = self.try_pop();
            i = i + 1;
        }
    }
}

/// The messages being sent on a connection: at most two at a time.
pub struct MessageBuffer {
    pub batch: VecDeque<RaftMessage>,
}

/// A buffer is full with this many messages.
pub const MESSAGE_BUFFER_LIMIT: usize = 2;

impl MessageBuffer {
    pub fn new() -> (res: MessageBuffer)
        ensures
            res.batch@.len() == 0,
    {
        MessageBuffer { batch: VecDeque::new() }
    }

    /// Whether the buffer takes no more messages.
    pub fn full(&self) -> (res: bool)
        ensures
            res == (self.batch@.len() >= MESSAGE_BUFFER_LIMIT),
    {
        self.batch.len() >= MESSAGE_BUFFER_LIMIT
    }

    pub fn push(&mut self, msg: RaftMessage)
        ensures
            final(self).batch@ == old(self).batch@.push(msg),
    {
        self.batch.push_back(msg);
    }

    pub fn empty(&self) -> (res: bool)
        ensures
            res == (self.batch@.len() == 0),
    {
        self.batch.len() == 0
    }

    /// The next message to send, with whether more follow (a hint to
    /// buffer the write).
    pub fn flush(&mut self) -> (res: Option<(RaftMessage, bool)>)
        ensures
            old(self).batch@.len() == 0 ==> res is None && final(self).batch@ == old(self).batch@,
            old(self).batch@.len() > 0 ==> (res matches Some((m, more)) && m == old(self).batch@[0]
                && final(self).batch@ == old(self).batch@.drop_first() && more == (final(self).batch@.len() > 0)),
    {
        match self.batch.pop_front() {
            Some(msg) => {
                let more = self.batch.len() > 0;
                Some((msg, more))
            },
            None => None,
        }
    }
}

/// The views of the messages of a buffer.
pub open spec fn buffer_views(b: Seq<RaftMessage>) -> Seq<RaftMessageView> {
    b.map_values(|m: RaftMessage| m@)
}

/// Moves messages from the queue into the buffer until the buffer is full
/// or the queue is empty.
pub fn fill_msg(buffer: &mut MessageBuffer, queue: &mut Queue)
    ensures
        ({
            let room: int = if old(buffer).batch@.len() >= MESSAGE_BUFFER_LIMIT { 0 } else { MESSAGE_BUFFER_LIMIT - old(buffer).batch@.len() };
            let moved: int = if room < old(queue).items().len() { room } else { old(queue).items().len() as int };
            &&& buffer_views(final(buffer).batch@) == buffer_views(old(buffer).batch@) + old(queue).items().subrange(0, moved)
            &&& final(queue).items() == old(queue).items().skip(moved)
        }),
        final(queue).capacity() == old(queue).capacity(),
{
    let ghost b0 = buffer_views(buffer.batch@);
    let ghost q0 = queue.items();
    let ghost room: int = if buffer.batch@.len() >= MESSAGE_BUFFER_LIMIT { 0 } else { MESSAGE_BUFFER_LIMIT - buffer.batch@.len() };
    let ghost moved: int = if room < q0.len() { room } else { q0.len() as int };
    let mut k: usize = 0;
    assert(q0.skip(0) =~= q0);
    assert(b0 + q0.subrange(0, 0) =~= b0);
    while !buffer.full()
        invariant
            k <= moved,
            b0.len() + k == buffer.batch@.len(),
            buffer_views(buffer.batch@) == b0 + q0.subrange(0, k as int),
            queue.items() == q0.skip(k as int),
            queue.capacity() == old(queue).capacity(),
            b0 == buffer_views(old(buffer).batch@),
            q0 == old(queue).items(),
            room == (if b0.len() >= MESSAGE_BUFFER_LIMIT { 0 } else { MESSAGE_BUFFER_LIMIT - b0.len() }),
            moved == (if room < q0.len() { room } else { q0.len() as int }),
        decreases moved - k,
    {
        match queue.try_pop() {
            Some(msg) => {
                let ghost before = buffer.batch@;
                buffer.push(msg);
                proof {
                    assert(buffer_views(buffer.batch@) =~= buffer_views(before).push(msg@));
                    assert(q0.subrange(0, k + 1) =~= q0.subrange(0, k as int).push(q0[k as int]));
                    assert(q0.skip(k as int).drop_first() =~= q0.skip(k + 1));
                }
                k = k + 1;
            },
            None => {
                return;
            },
        }
    }
}

/// What a gRPC call failed with, as far as the transport looks at it.
#[derive(Clone, Copy, Debug, PartialEq, Eq, Structural)]
pub enum GrpcError {
    /// The call failed with this status code.
    RpcFailure { code: i32 },
    /// Any other failure.
    Other,
}

/// The gRPC status code of a method the server does not implement.
pub const GRPC_UNIMPLEMENTED: i32 = 12;

/// Whether the failure says the server does not implement the method.
pub fn grpc_error_is_unimplemented(e: &GrpcError) -> (res: bool)
    ensures
        res == (*e == GrpcError::RpcFailure { code: GRPC_UNIMPLEMENTED }),
{
    match e {
        GrpcError::RpcFailure { code } => *code == GRPC_UNIMPLEMENTED,
        GrpcError::Other => false,
    }
}

/// Whether a broken connection should fall back to the older API: one of
/// its two sides failed because the method is not implemented.
pub fn should_fallback(sink_err: &Option<GrpcError>, recv_err: &Option<GrpcError>) -> (res: bool)
    ensures
        res == (*sink_err == Some(GrpcError::RpcFailure { code: GRPC_UNIMPLEMENTED })
            || *recv_err == Some(GrpcError::RpcFailure { code: GRPC_UNIMPLEMENTED })),
{
    let a = match sink_err {
        Some(e) => grpc_error_is_unimplemented(e),
        None => false,
    };
    let b = match recv_err {
        Some(e) => grpc_error_is_unimplemented(e),
        None => false,
    };
    a || b
}

/// The queue of a connection, with whether it got messages since the
/// last flush.
pub struct CachedQueue {
    pub queue: Queue,
    pub dirty: bool,
}

/// How many messages a connection queue holds.
pub const STREAM_QUEUE_CAPACITY: usize = 819200;

/// The sending side of the raft transport: a queue per store, filled by
/// `send` and drained by the connection to that store.
pub struct RaftClient {
    pub streams: HashMap<u64, CachedQueue>,
    /// The stores whose queues got messages since the last flush.
    pub need_flush: Vec<u64>,
    /// The stores whose connections are to be woken, in order.
    pub to_wake: Vec<u64>,
    /// The stores a connection was opened for, in order.
    pub new_streams: Vec<u64>,
}

/// Going through the stores to flush in order: the stores woken, given
/// which queues are dirty.
pub open spec fn wake_order(dirty: Map<u64, bool>, ids: Seq<u64>) -> Seq<u64>
    decreases ids.len(),
{
    if ids.len() == 0 {
        Seq::empty()
    } else {
        let id = ids[0];
        if dirty.contains_key(id) && dirty[id] {
            seq![id] + wake_order(dirty.insert(id, false), ids.drop_first())
        } else {
            wake_order(dirty, ids.drop_first())
        }
    }
}

/// Every dirty queue is listed: the flags `d` and the list `l` of queues
/// to flush agree.
pub open spec fn listed(d: Map<u64, bool>, l: Seq<u64>) -> bool {
    forall|k: u64| #[trigger] d.contains_key(k) && d[k] ==> l.contains(k)
}

/// The dirty flags and the list of queues to flush after a message is
/// queued for `id`: its queue becomes dirty and is listed once.
pub open spec fn send_marks(st: (Map<u64, bool>, Seq<u64>), id: u64) -> (Map<u64, bool>, Seq<u64>) {
    (st.0.insert(id, true), if st.0.contains_key(id) && st.0[id] { st.1 } else { st.1.push(id) })
}

/// The flags and list after messages are queued for the stores `ids`, in
/// order.
pub open spec fn send_all_marks(st: (Map<u64, bool>, Seq<u64>), ids: Seq<u64>) -> (Map<u64, bool>, Seq<u64>)
    decreases ids.len(),
{
    if ids.len() == 0 {
        st
    } else {
        send_marks(send_all_marks(st, ids.drop_last()), ids.last())
    }
}

/// The dirty flags after a flush of the stores `l`.
pub open spec fn flush_marks(d: Map<u64, bool>, l: Seq<u64>) -> Map<u64, bool> {
    Map::new(|k: u64| d.contains_key(k), |k: u64| d[k] && !l.contains(k))
}

/// Every queue that got messages since the last flush is listed to be
/// flushed.
pub open spec fn dirty_listed(c: RaftClient) -> bool {
    forall|k: u64| #[trigger] c.streams@.contains_key(k) && c.streams@[k].dirty ==> c.need_flush@.contains(k)
}

/// Which queues stay dirty after a flush of the stores `ids`: those that
/// were dirty and are not flushed.
pub open spec fn flushed_flags(streams: Map<u64, CachedQueue>, ids: Seq<u64>) -> Map<u64, bool> {
    Map::new(|k: u64| streams.contains_key(k), |k: u64| streams[k].dirty && !ids.contains(k))
}

/// Which queues are dirty.
pub open spec fn dirty_flags(streams: Map<u64, CachedQueue>) -> Map<u64, bool> {
    Map::new(|k: u64| streams.contains_key(k), |k: u64| streams[k].dirty)
}

/// The messages waiting in each store's queue.
pub open spec fn queued(t: RaftClient) -> Map<u64, Seq<RaftMessageView>> {
    Map::new(|k: u64| t.streams@.contains_key(k), |k: u64| t.streams@[k].queue.items())
}

/// The capacity of each store's queue.
pub open spec fn capacities(t: RaftClient) -> Map<u64, nat> {
    Map::new(|k: u64| t.streams@.contains_key(k), |k: u64| t.streams@[k].queue.capacity())
}

/// Whether a message for `store` can be queued: the store has no queue
/// yet (a new one is opened) or its queue has room.
pub open spec fn has_room(items: Map<u64, Seq<RaftMessageView>>, caps: Map<u64, nat>, store: u64) -> bool {
    !items.contains_key(store) || items[store].len() < caps[store]
}

/// The queues and capacities after a message for `store` is sent: it is
/// queued if there is room, in a new queue if the store had none.
pub open spec fn enqueue(
    items: Map<u64, Seq<RaftMessageView>>,
    caps: Map<u64, nat>,
    store: u64,
    v: RaftMessageView,
) -> (Map<u64, Seq<RaftMessageView>>, Map<u64, nat>) {
    if !has_room(items, caps, store) {
        (items, caps)
    } else if items.contains_key(store) {
        (items.insert(store, items[store].push(v)), caps)
    } else {
        (items.insert(store, seq![v]), caps.insert(store, STREAM_QUEUE_CAPACITY as nat))
    }
}

impl RaftClient {
    pub fn new() -> (res: RaftClient)
        ensures
            res.streams@ == Map::<u64, CachedQueue>::empty(),
            res.need_flush@.len() == 0,
            res.to_wake@.len() == 0,
            res.new_streams@.len() == 0,
            dirty_listed(res),
    {
        RaftClient { streams: HashMap::new(), need_flush: Vec::new(), to_wake: Vec::new(), new_streams: Vec::new() }
    }

    /// Queues a message for the store of its recipient, opening a
    /// connection to that store first if there is none. Tells whether the
    /// message was queued: it is not when the store's queue is full.
    pub fn send(&mut self, msg: RaftMessage) -> (res: bool)
        ensures
            ({
                let id = msg.to_peer.store_id;
                let had = old(self).streams@.contains_key(id);
                &&& res == has_room(queued(*old(self)), capacities(*old(self)), id)
                &&& (queued(*final(self)), capacities(*final(self)))
                    == enqueue(queued(*old(self)), capacities(*old(self)), id, msg@)
                &&& dirty_flags(final(self).streams@) == (if res { dirty_flags(old(self).streams@).insert(id, true) } else { dirty_flags(old(self).streams@) })
                &&& final(self).need_flush@ == (if !res || (had && old(self).streams@[id].dirty) { old(self).need_flush@ } else { old(self).need_flush@.push(id) })
                &&& final(self).new_streams@ == (if had { old(self).new_streams@ } else { old(self).new_streams@.push(id) })
                &&& final(self).streams@.dom() == old(self).streams@.dom().insert(id)
                &&& res ==> final(self).streams@[id].dirty
                &&& forall|k: u64| k != id && old(self).streams@.contains_key(k) ==> #[trigger] final(self).streams@[k] == old(self).streams@[k]
            }),
            final(self).to_wake == old(self).to_wake,
            dirty_listed(*old(self)) ==> dirty_listed(*final(self)),
            dirty_listed(*old(self)) && res ==> final(self).need_flush@.contains(msg.to_peer.store_id),
            res ==> (dirty_flags(final(self).streams@), final(self).need_flush@)
                == send_marks((dirty_flags(old(self).streams@), old(self).need_flush@), msg.to_peer.store_id),
            !res ==> dirty_flags(final(self).streams@) == dirty_flags(old(self).streams@)
                && final(self).need_flush@ == old(self).need_flush@,
    {
        let store_id = msg.to_peer.store_id;
        let ghost v = msg@;
        let ghost items0 = queued(*self);
        let ghost caps0 = capacities(*self);
        let ghost s0 = self.streams@;
        let existing = self.streams.remove(&store_id);
        let mut cached = match existing {
            Some(c) => c,
            None => {
                self.new_streams.push(store_id);
                CachedQueue { queue: Queue::with_capacity(STREAM_QUEUE_CAPACITY), dirty: false }
            },
        };
        let ghost c0 = cached;
        let pushed = cached.queue.push(msg);
        if pushed && !cached.dirty {
            cached.dirty = true;
            self.need_flush.push(store_id);
        }
        if pushed {
            cached.dirty = true;
        }
        self.streams.insert(store_id, cached);
        proof {
            if pushed {
                assert(queued(*self) =~= enqueue(items0, caps0, store_id, v).0);
                assert(capacities(*self) =~= enqueue(items0, caps0, store_id, v).1);
                assert(dirty_flags(self.streams@) =~= dirty_flags(s0).insert(store_id, true));
            } else {
                assert(s0.contains_key(store_id));
                assert(queued(*self) =~= items0);
                assert(capacities(*self) =~= caps0);
                assert(dirty_flags(self.streams@) =~= dirty_flags(s0));
            }
            assert(self.streams@.dom() =~= s0.dom().insert(store_id));
            if dirty_listed(*old(self)) {
                if pushed {
                    if !(s0.contains_key(store_id) && s0[store_id].dirty) {
                        assert(self.need_flush@.last() == store_id);
                    }
                    assert(self.need_flush@.contains(store_id));
                }
                assert forall|k: u64| #[trigger] self.streams@.contains_key(k) && self.streams@[k].dirty implies self.need_flush@.contains(k) by {
                    if k != store_id {
                        assert(s0.contains_key(k) && s0[k].dirty);
                        assert(old(self).need_flush@.contains(k));
                        let j = choose|j: int| 0 <= j < old(self).need_flush@.len() && old(self).need_flush@[j] == k;
                        assert(self.need_flush@[j] == k);
                    } else if !pushed {
                        assert(s0[k].dirty);
                    }
                }
            }
        }
        pushed
    }

    /// Whether some queue got messages since the last flush.
    pub fn need_flush(&self) -> (res: bool)
        ensures
            res == (self.need_flush@.len() > 0),
    {
        self.need_flush.len() > 0
    }

    /// Wakes the connection of every queue that got messages since the last
    /// flush, once each.
    pub fn flush(&mut self)
        ensures
            final(self).need_flush@.len() == 0,
            final(self).to_wake@ == old(self).to_wake@ + wake_order(dirty_flags(old(self).streams@), old(self).need_flush@),
            final(self).streams@.dom() == old(self).streams@.dom(),
            forall|k: u64| #[trigger] old(self).streams@.contains_key(k) ==> final(self).streams@[k].queue == old(self).streams@[k].queue,
            dirty_flags(final(self).streams@) == flushed_flags(old(self).streams@, old(self).need_flush@),
            final(self).new_streams == old(self).new_streams,
            dirty_listed(*old(self)) ==> forall|k: u64| #[trigger] final(self).streams@.contains_key(k) ==> !final(self).streams@[k].dirty,
            dirty_listed(*old(self)) ==> dirty_listed(*final(self)),
            dirty_flags(final(self).streams@) == flush_marks(dirty_flags(old(self).streams@), old(self).need_flush@),
    {
        let mut ids: Vec<u64> = Vec::new();
        std::mem::swap(&mut ids, &mut self.need_flush);
        let ghost all = ids@;
        let ghost w0 = self.to_wake@;
        let ghost d0 = dirty_flags(self.streams@);
        let n = ids.len();
        let mut i: usize = 0;
        assert(all.skip(0) =~= all);
        assert(w0 + Seq::<u64>::empty() =~= w0);
        assert(dirty_flags(self.streams@) =~= flushed_flags(old(self).streams@, all.take(0)));
        while i < n
            invariant
                n == all.len(),
                ids@ == all,
                i <= n,
                self.need_flush@.len() == 0,
                self.to_wake@ + wake_order(dirty_flags(self.streams@), all.skip(i as int)) == w0 + wake_order(d0, all),
                d0 == dirty_flags(old(self).streams@),
                w0 == old(self).to_wake@,
                self.streams@.dom() == old(self).streams@.dom(),
                forall|k: u64| #[trigger] old(self).streams@.contains_key(k) ==> self.streams@[k].queue == old(self).streams@[k].queue,
                dirty_flags(self.streams@) == flushed_flags(old(self).streams@, all.take(i as int)),
                self.new_streams == old(self).new_streams,
            decreases n - i,
        {
            let id = ids[i];
            let ghost rest = all.skip(i as int);
            let ghost dm = dirty_flags(self.streams@);
            let ghost wb = self.to_wake@;
            proof {
                assert(rest[0] == id);
                assert(rest.drop_first() =~= all.skip(i + 1));
                assert(all.take(i + 1) =~= all.take(i as int).push(id));
                let t0 = all.take(i as int);
                let t1 = all.take(i + 1);
                assert forall|k: u64| #[trigger] t1.contains(k) <==> (t0.contains(k) || k == id) by {
                    if t1.contains(k) {
                        let j = choose|j: int| 0 <= j < t1.len() && #[trigger] t1[j] == k;
                        if j < i {
                            assert(t0[j] == k);
                        }
                    }
                    if t0.contains(k) {
                        let j = choose|j: int| 0 <= j < t0.len() && #[trigger] t0[j] == k;
                        assert(t1[j] == k);
                    }
                    if k == id {
                        assert(t1[i as int] == k);
                    }
                }
            }
            let entry = self.streams.remove(&id);
            match entry {
                Some(mut c) => {
                    if c.dirty {
                        c.dirty = false;
                        self.to_wake.push(id);
                    }
                    self.streams.insert(id, c);
                    proof {
                        let t1 = all.take(i + 1);
                        assert(t1.contains(id)) by {
                            assert(t1[i as int] == id);
                        }
                        assert forall|k: u64| #[trigger] self.streams@.contains_key(k) implies dirty_flags(self.streams@)[k]
                            == flushed_flags(old(self).streams@, t1)[k] by {
                            if k != id {
                                assert(t1.contains(k) == all.take(i as int).contains(k));
                                assert(dm[k] == flushed_flags(old(self).streams@, all.take(i as int))[k]);
                            }
                        }
                        assert(self.streams@.dom() =~= old(self).streams@.dom());
                        assert(dirty_flags(self.streams@) =~= flushed_flags(old(self).streams@, all.take(i + 1)));
                        if dm[id] {
                            assert(dirty_flags(self.streams@) =~= dm.insert(id, false));
                            assert(self.to_wake@ + wake_order(dirty_flags(self.streams@), all.skip(i + 1)) =~= wb + wake_order(dm, rest));
                        } else {
                            assert(dirty_flags(self.streams@) =~= dm);
                            assert(self.streams@.dom() =~= old(self).streams@.dom());
                        }
                        assert(self.streams@.dom() =~= old(self).streams@.dom());
                    }
                },
                None => {
                    proof {
                        assert(self.streams@ =~= old(self).streams@.remove(id).union_prefer_right(self.streams@));
                        assert(dirty_flags(self.streams@) =~= dm);
                        assert(dirty_flags(self.streams@) =~= flushed_flags(old(self).streams@, all.take(i + 1)));
                    }
                },
            }
            i = i + 1;
        }
        proof {
            assert(all.take(n as int) =~= all);
            assert(flushed_flags(old(self).streams@, all) =~= flush_marks(dirty_flags(old(self).streams@), all));
            assert forall|k: u64| #[trigger] self.streams@.contains_key(k) implies self.streams@[k].dirty == (old(self).streams@[k].dirty && !all.contains(k)) by {
                assert(dirty_flags(self.streams@)[k] == flushed_flags(old(self).streams@, all)[k]);
            }
            assert(all.skip(n as int).len() == 0);
            assert(self.to_wake@ =~= self.to_wake@ + wake_order(dirty_flags(self.streams@), all.skip(n as int)));
        }
    }

    /// The message that should go next on the connection to a store, if
    /// any waits.
    pub fn pop_for(&mut self, store_id: u64) -> (res: Option<RaftMessage>)
        ensures
            !old(self).streams@.contains_key(store_id) ==> res is None && final(self).streams@ == old(self).streams@,
            old(self).streams@.contains_key(store_id) ==> ({
                let q = old(self).streams@[store_id].queue.items();
                &&& final(self).streams@.contains_key(store_id)
                &&& (q.len() == 0 ==> res is None && final(self).streams@[store_id].queue.items() == q)
                &&& (q.len() > 0 ==> (res matches Some(m) && m@ == q[0]) && final(self).streams@[store_id].queue.items() == q.drop_first())
                &&& final(self).streams@[store_id].dirty == old(self).streams@[store_id].dirty
            }),
            final(self).need_flush == old(self).need_flush,
            final(self).to_wake == old(self).to_wake,
    {
        match self.streams.remove(&store_id) {
            Some(mut c) => {
                let m = c.queue.try_pop();
                self.streams.insert(store_id, c);
                m
            },
            None => {
                assert(self.streams@ =~= old(self).streams@);
                None
            },
        }
    }
}

} // verus!
