//! The ticks of peers: each peer registers a tick at most once until it
//! fires, and the ticks of a kind are batched to fire together after the
//! kind's wait.
use vstd::prelude::*;

verus! {

/// A kind of tick, by its bit.
pub type PeerTicks = u8;

/// The raft clock tick.
pub const TICK_RAFT: PeerTicks = 0b0000_0001;
/// The log gc tick.
pub const TICK_RAFT_LOG_GC: PeerTicks = 0b0000_0010;

/// The number of tick batches: one per possible set of tick bits.
pub const TICK_BATCH_COUNT: usize = 256;

/// The ticks of one kind waiting to fire, by the id of the peer to tick,
/// and how long they wait.
pub struct PeerTickBatch {
    pub ticks: Vec<u64>,
    /// The wait, in milliseconds.
    pub wait_duration: u64,
}

impl PeerTickBatch {
    pub fn new() -> (res: PeerTickBatch)
        ensures
            res.ticks@.len() == 0,
            res.wait_duration == 0,
    {
        PeerTickBatch { ticks: Vec::new(), wait_duration: 0 }
    }
}

impl Clone for PeerTickBatch {
    /// A batch with the same wait and no tick.
    fn clone(&self) -> (res: PeerTickBatch)
        ensures
            res.ticks@.len() == 0,
            res.wait_duration == self.wait_duration,
    {
        PeerTickBatch { ticks: Vec::new(), wait_duration: self.wait_duration }
    }
}

/// The tick batches of a poller, one per kind of tick.
pub struct TickBatches {
    pub batches: Vec<PeerTickBatch>,
}

impl TickBatches {
    pub open spec fn wf(&self) -> bool {
        self.batches@.len() == TICK_BATCH_COUNT
    }

    /// Empty batches, with no wait yet.
    pub fn new() -> (res: TickBatches)
        ensures
            res.wf(),
            forall|i: int| 0 <= i < TICK_BATCH_COUNT ==> (#[trigger] res.batches@[i]).ticks@.len() == 0
                && res.batches@[i].wait_duration == 0,
    {
        let mut batches: Vec<PeerTickBatch> = Vec::new();
        let mut i: usize = 0;
        while i < TICK_BATCH_COUNT
            invariant
                i <= TICK_BATCH_COUNT,
                batches@.len() == i,
                forall|k: int| 0 <= k < i ==> (#[trigger] batches@[k]).ticks@.len() == 0 && batches@[k].wait_duration == 0,
            decreases TICK_BATCH_COUNT - i,
        {
            batches.push(PeerTickBatch::new());
            i = i + 1;
        }
        TickBatches { batches }
    }

    /// Sets the waits of the ticks in use: 200 ms for the raft clock, 10 s
    /// for log gc.
    pub fn update_ticks_timeout(&mut self)
        requires
            old(self).wf(),
        ensures
            final(self).wf(),
            final(self).batches@[TICK_RAFT as int].wait_duration == 200,
            final(self).batches@[TICK_RAFT_LOG_GC as int].wait_duration == 10_000,
            final(self).batches@[TICK_RAFT as int].ticks == old(self).batches@[TICK_RAFT as int].ticks,
            final(self).batches@[TICK_RAFT_LOG_GC as int].ticks == old(self).batches@[TICK_RAFT_LOG_GC as int].ticks,
            forall|i: int| 0 <= i < TICK_BATCH_COUNT && i != TICK_RAFT && i != TICK_RAFT_LOG_GC ==> #[trigger] final(self).batches@[i] == old(self).batches@[i],
    {
        self.set_wait(TICK_RAFT as usize, 200);
        self.set_wait(TICK_RAFT_LOG_GC as usize, 10_000);
    }

    /// Sets the wait of one batch.
    fn set_wait(&mut self, idx: usize, wait: u64)
        requires
            old(self).wf(),
            idx < TICK_BATCH_COUNT,
        ensures
            final(self).wf(),
            final(self).batches@[idx as int].wait_duration == wait,
            final(self).batches@[idx as int].ticks == old(self).batches@[idx as int].ticks,
            forall|i: int| 0 <= i < TICK_BATCH_COUNT && i != idx ==> #[trigger] final(self).batches@[i] == old(self).batches@[i],
    {
        let mut b = PeerTickBatch::new();
        std::mem::swap(&mut b, &mut self.batches[idx]);
        b.wait_duration = wait;
        std::mem::swap(&mut b, &mut self.batches[idx]);
    }

    /// Takes the ticks of one kind out of its batch, to fire them together.
    pub fn take_ticks(&mut self, idx: usize) -> (res: Vec<u64>)
        requires
            old(self).wf(),
            idx < TICK_BATCH_COUNT,
        ensures
            final(self).wf(),
            res@ == old(self).batches@[idx as int].ticks@,
            final(self).batches@[idx as int].ticks@.len() == 0,
            final(self).batches@[idx as int].wait_duration == old(self).batches@[idx as int].wait_duration,
            forall|i: int| 0 <= i < TICK_BATCH_COUNT && i != idx ==> #[trigger] final(self).batches@[i] == old(self).batches@[i],
    {
        let mut b = PeerTickBatch::new();
        std::mem::swap(&mut b, &mut self.batches[idx]);
        let mut out: Vec<u64> = Vec::new();
        std::mem::swap(&mut out, &mut b.ticks);
        std::mem::swap(&mut b, &mut self.batches[idx]);
        out
    }
}

/// Whether a tick kind is registered in a set of tick bits.
pub open spec fn tick_registered(registry: u8, tick: u8) -> bool {
    registry & tick == tick
}

/// Registers a tick of `peer_id` unless one of that kind is already
/// registered; a new one joins the batch of its kind.
pub fn schedule_tick(registry: &mut u8, batches: &mut TickBatches, peer_id: u64, tick: PeerTicks)
    requires
        old(batches).wf(),
    ensures
        final(batches).wf(),
        tick_registered(*old(registry), tick) ==> *final(registry) == *old(registry) && *final(batches) == *old(batches),
        !tick_registered(*old(registry), tick) ==> {
            &&& *final(registry) == *old(registry) | tick
            &&& final(batches).batches@[tick as int].ticks@ == old(batches).batches@[tick as int].ticks@.push(peer_id)
            &&& final(batches).batches@[tick as int].wait_duration == old(batches).batches@[tick as int].wait_duration
            &&& forall|i: int| 0 <= i < TICK_BATCH_COUNT && i != tick ==> #[trigger] final(batches).batches@[i] == old(batches).batches@[i]
        },
{
    if *registry & tick == tick {
        return;
    }
    *registry = *registry | tick;
    let idx = tick as usize;
    let mut b = PeerTickBatch::new();
    std::mem::swap(&mut b, &mut batches.batches[idx]);
    b.ticks.push(peer_id);
    std::mem::swap(&mut b, &mut batches.batches[idx]);
}

/// Clears a tick kind from the registry when it fires.
pub fn on_tick(registry: &mut u8, tick: PeerTicks)
    ensures
        *final(registry) == *old(registry) & !tick,
{
    *registry = *registry & !tick;
}

/// A registered tick no longer is once it fired, and other kinds stay as
/// they were.
pub proof fn lemma_tick_cleared(registry: u8, tick: u8, other: u8)
    requires
        other & tick == 0,
    ensures
        !tick_registered(registry & !tick, tick) || tick == 0,
        tick_registered(registry & !tick, other) == tick_registered(registry, other),
{
    assert(tick != 0 ==> (registry & !tick) & tick != tick) by (bit_vector);
    assert(other & tick == 0 ==> (((registry & !tick) & other == other) == (registry & other == other))) by (bit_vector);
}

} // verus!
