//! Packets and the pools that recycle their storage.
//!
//! A pool keeps a bounded number of cleared buffers and hands them out again. A
//! packet that leaves a stack without copying holds its headers, and the extents
//! of the payload it still owes; the payload is appended where the packet leaves
//! the egress queue, and the chain of buffers that holds it goes back to the
//! stack.

use crossbeam_queue::ArrayQueue;
use vstd::prelude::*;

use crate::counter;
use crate::counter::{counter_add, counter_sub};
use crate::tcp_stream_context;

verus! {

/// The bounded queue of the crate `crossbeam_queue`.
#[verifier::external_type_specification]
#[verifier::external_body]
#[verifier::reject_recursive_types(T)]
pub struct ExArrayQueue<T>(ArrayQueue<T>);

/// What a queue of cleared buffers holds, the oldest first: each buffer, and its
/// capacity.
pub uninterp spec fn queue_contents(queue: ArrayQueue<(Vec<u8>, usize)>) -> Seq<(Vec<u8>, usize)>;

/// How many buffers a queue was made to hold.
pub uninterp spec fn queue_limit(queue: ArrayQueue<(Vec<u8>, usize)>) -> nat;

/// A bound on the size of one slot of a queue of buffers, in bytes.
pub const QUEUE_SLOT_BYTES: usize = 40;

/// `ArrayQueue::new`: an empty queue that holds up to `limit` items. It panics
/// where `limit` is zero, and where the slots would not fit into memory.
#[verifier::external_body]
fn queue_new(limit: usize) -> (queue: ArrayQueue<(Vec<u8>, usize)>)
    requires
        limit > 0,
        limit * QUEUE_SLOT_BYTES <= isize::MAX,
    ensures
        queue_contents(queue) == Seq::<(Vec<u8>, usize)>::empty(),
        queue_limit(queue) == limit,
{
    ArrayQueue::new(limit)
}

/// `ArrayQueue::push`, with exclusive access to the queue: appends the item
/// where there is room, and hands it back where there is none.
#[verifier::external_body]
fn queue_push(queue: &mut ArrayQueue<(Vec<u8>, usize)>, item: (Vec<u8>, usize)) -> (pushed: Result<
    (),
    (Vec<u8>, usize),
>)
    ensures
        queue_limit(*final(queue)) == queue_limit(*old(queue)),
        match pushed {
            Ok(()) => queue_contents(*old(queue)).len() < queue_limit(*old(queue))
                && queue_contents(*final(queue)) == queue_contents(*old(queue)).push(item),
            Err(back) => queue_contents(*old(queue)).len() >= queue_limit(*old(queue))
                && queue_contents(*final(queue)) == queue_contents(*old(queue)) && back == item,
        },
{
    queue.push(item)
}

/// `ArrayQueue::pop`, with exclusive access to the queue: takes out the oldest
/// item, if there is one.
#[verifier::external_body]
fn queue_pop(queue: &mut ArrayQueue<(Vec<u8>, usize)>) -> (item: Option<(Vec<u8>, usize)>)
    ensures
        queue_limit(*final(queue)) == queue_limit(*old(queue)),
        match item {
            Some(item) => queue_contents(*old(queue)).len() > 0 && item == queue_contents(
                *old(queue),
            )[0] && queue_contents(*final(queue)) == queue_contents(*old(queue)).skip(1),
            None => queue_contents(*old(queue)).len() == 0 && queue_contents(*final(queue))
                == queue_contents(*old(queue)),
        },
{
    queue.pop()
}

/// `ArrayQueue::len`: how many items the queue holds.
#[verifier::external_body]
fn queue_len(queue: &ArrayQueue<(Vec<u8>, usize)>) -> (len: usize)
    ensures
        len == queue_contents(*queue).len(),
{
    queue.len()
}

/// `Vec::capacity`: how many bytes the buffer holds without reallocating, which
/// is no fewer than it holds now. How many more is up to the allocator.
#[verifier::external_body]
fn buffer_capacity(buffer: &Vec<u8>) -> (capacity: usize)
    ensures
        capacity >= buffer@.len(),
{
    buffer.capacity()
}

/// Whether a buffer, asked for its capacity, has answered `capacity`.
pub closed spec fn measured(buffer: Vec<u8>, capacity: usize) -> bool {
    call_ensures(buffer_capacity, (&buffer,), capacity)
}

/// A measured capacity is one that the buffer answered: nothing else counts as one.
proof fn law_capacities_come_from_the_buffer(buffer: Vec<u8>, capacity: usize)
    requires
        measured(buffer, capacity),
    ensures
        call_ensures(buffer_capacity, (&buffer,), capacity),
{
}

/// `Vec::reserve_exact`: makes room for `additional` more bytes and keeps the
/// ones that are there. It panics where the capacity would not fit into `isize`.
#[verifier::external_body]
fn buffer_reserve_exact(buffer: &mut Vec<u8>, additional: usize)
    requires
        old(buffer)@.len() + additional <= isize::MAX,
    ensures
        final(buffer)@ == old(buffer)@,
{
    buffer.reserve_exact(additional)
}

/// How many extents of payload a packet can owe.
pub const PBUF_TAIL_MAX_SEGS: usize = 4;

/// A stretch of payload in the memory of a stack.
#[derive(Clone, Copy, Debug, PartialEq, Eq, Structural)]
pub struct PayloadExtent {
    pub address: usize,
    pub len: u32,
}

/// A chain of buffers that is to go back to a stack.
#[derive(Clone, Copy, Debug, PartialEq, Eq, Structural)]
pub struct PbufLease {
    pub shard_id: usize,
    pub chain: usize,
}

/// The payload that a packet still owes: where it lies, and the chain that keeps
/// it alive.
#[derive(Debug)]
pub struct PbufTail {
    pub lease: PbufLease,
    pub segs: Vec<PayloadExtent>,
}

impl PbufTail {
    /// There are no more extents than a packet can owe.
    pub open spec fn wf(&self) -> bool {
        self.segs@.len() <= PBUF_TAIL_MAX_SEGS
    }

    /// The payload in `segs`, kept alive by `chain` of stack `shard_id`.
    pub fn new(chain: usize, shard_id: usize, segs: Vec<PayloadExtent>) -> (tail: Self)
        requires
            segs@.len() <= PBUF_TAIL_MAX_SEGS,
        ensures
            tail.wf(),
            tail.lease == (PbufLease { shard_id, chain }),
            tail.segs == segs,
    {
        PbufTail { lease: PbufLease { shard_id, chain }, segs }
    }

    /// The chain, for a caller that can free it at once.
    pub fn into_chain(self) -> (chain: usize)
        ensures
            chain == self.lease.chain,
    {
        self.lease.chain
    }
}

/// Whether `payload` is what the extents `segs` cover, as far as sizes tell.
pub open spec fn covers(payload: Seq<Vec<u8>>, segs: Seq<PayloadExtent>) -> bool {
    &&& payload.len() == segs.len()
    &&& forall|i: int| 0 <= i < segs.len() ==> (#[trigger] payload[i])@.len() == segs[i].len
}

/// An IP packet: its bytes, the pool that its storage goes back to, how much
/// storage is known to be reserved, and payload that it still owes.
#[derive(Debug)]
pub struct IpPacket {
    pub buffer: Vec<u8>,
    pub reserved: usize,
    pub pool: Option<u64>,
    pub tail: Option<PbufTail>,
}

impl IpPacket {
    /// What the packet owes is valid.
    pub open spec fn wf(&self) -> bool {
        self.tail matches Some(tail) ==> tail.wf()
    }

    /// The lease that is to go back when the packet is completed or given up.
    pub open spec fn owed(&self) -> Option<PbufLease> {
        match self.tail {
            Some(tail) => Some(tail.lease),
            None => None,
        }
    }

    /// The bytes of a packet that owes nothing.
    pub fn as_ref(&self) -> (bytes: &[u8])
        requires
            self.tail is None,
        ensures
            bytes@ == self.buffer@,
    {
        self.buffer.as_slice()
    }

    /// The length of a packet that owes nothing.
    pub fn len(&self) -> (len: usize)
        requires
            self.tail is None,
        ensures
            len == self.buffer@.len(),
    {
        self.buffer.len()
    }

    /// Whether a packet that owes nothing holds no bytes.
    pub fn is_empty(&self) -> (empty: bool)
        requires
            self.tail is None,
        ensures
            empty == (self.buffer@.len() == 0),
    {
        self.buffer.len() == 0
    }

    /// Appends bytes.
    pub fn extend(&mut self, data: &[u8])
        ensures
            final(self).buffer@ == old(self).buffer@ + data@,
            *final(self) == (IpPacket { buffer: final(self).buffer, ..*old(self) }),
    {
        let mut i: usize = 0;
        while i < data.len()
            invariant
                i <= data@.len(),
                self.buffer@ == old(self).buffer@ + data@.take(i as int),
                *self == (IpPacket { buffer: self.buffer, ..*old(self) }),
            decreases data@.len() - i,
        {
            self.buffer.push(data[i]);
            i = i + 1;
            assert(self.buffer@ =~= old(self).buffer@ + data@.take(i as int));
        }
        assert(data@.take(data@.len() as int) =~= data@);
    }

    /// Attaches the payload that a packet still owes.
    pub fn set_tail(&mut self, tail: PbufTail)
        requires
            old(self).tail is None,
        ensures
            *final(self) == (IpPacket { tail: Some(tail), ..*old(self) }),
    {
        self.tail = Some(tail);
    }

    /// Gives up the payload that the packet owes, and returns the chain that held
    /// it, for a caller that can free it at once.
    pub fn drop_tail_for_immediate_free(&mut self) -> (chain: Option<usize>)
        ensures
            *final(self) == (IpPacket { tail: None, ..*old(self) }),
            chain == match old(self).owed() {
                Some(lease) => Some(lease.chain),
                None => None,
            },
    {
        match self.tail.take() {
            Some(tail) => Some(tail.into_chain()),
            None => None,
        }
    }

    /// Appends the payload that the packet owes, and returns the lease of the
    /// chain that held it. A packet that owes nothing stays as it is. `payload`
    /// is what the extents of the packet cover.
    pub fn finalize(&mut self, payload: &Vec<Vec<u8>>) -> (lease: Option<PbufLease>)
        requires
            old(self).tail matches Some(tail) ==> covers(payload@, tail.segs@),
        ensures
            *final(self) == (IpPacket { buffer: final(self).buffer, tail: None, ..*old(self) }),
            lease == old(self).owed(),
            match old(self).tail {
                Some(_) => final(self).buffer@ == old(self).buffer@ + tcp_stream_context::flat(
                    payload@,
                ),
                None => *final(self) == *old(self),
            },
    {
        match self.tail.take() {
            None => None,
            Some(tail) => {
                let ghost start = self.buffer@;
                let mut i: usize = 0;
                assert(payload@.take(0) =~= Seq::empty());
                assert(self.buffer@ =~= start + tcp_stream_context::flat(payload@.take(0)));
                while i < payload.len()
                    invariant
                        i <= payload@.len(),
                        self.buffer@ == start + tcp_stream_context::flat(payload@.take(i as int)),
                        *self == (IpPacket { buffer: self.buffer, tail: None, ..*old(self) }),
                    decreases payload@.len() - i,
                {
                    self.extend(payload[i].as_slice());
                    proof {
                        tcp_stream_context::lemma_flat_push(payload@.take(i as int), payload@[i as int]);
                        assert(payload@.take(i + 1) =~= payload@.take(i as int).push(
                            payload@[i as int],
                        ));
                        assert(self.buffer@ =~= start + tcp_stream_context::flat(
                            payload@.take(i + 1),
                        ));
                    }
                    i = i + 1;
                }
                assert(payload@.take(payload@.len() as int) =~= payload@);
                Some(tail.lease)
            },
        }
    }
}

impl From<Vec<u8>> for IpPacket {
    fn from(buffer: Vec<u8>) -> (packet: Self) {
        IpPacket { buffer, reserved: 0, pool: None, tail: None }
    }
}

impl vstd::std_specs::convert::FromSpecImpl<Vec<u8>> for IpPacket {
    open spec fn obeys_from_spec() -> bool {
        true
    }

    open spec fn from_spec(buffer: Vec<u8>) -> Self {
        IpPacket { buffer, reserved: 0, pool: None, tail: None }
    }
}

/// The numbers of one pool.
#[derive(Clone, Copy, Debug, PartialEq, Eq, Structural)]
pub struct PacketPoolStats {
    pub allocations: u64,
    pub reuses: u64,
    pub returned: u64,
    pub discarded: u64,
    pub cached: usize,
    pub cached_bytes: usize,
}

/// The capacities of cached buffers together.
pub open spec fn total_capacity(buffers: Seq<(Vec<u8>, usize)>) -> int
    decreases buffers.len(),
{
    if buffers.len() == 0 {
        0
    } else {
        buffers[0].1 + total_capacity(buffers.skip(1))
    }
}

/// One more buffer at the end adds its capacity.
pub proof fn lemma_total_capacity_push(buffers: Seq<(Vec<u8>, usize)>, item: (Vec<u8>, usize))
    ensures
        total_capacity(buffers.push(item)) == total_capacity(buffers) + item.1,
    decreases buffers.len(),
{
    let longer = buffers.push(item);
    if buffers.len() == 0 {
        reveal_with_fuel(total_capacity, 2);
        assert(longer.skip(1) =~= Seq::empty());
    } else {
        lemma_total_capacity_push(buffers.skip(1), item);
        assert(longer.skip(1) =~= buffers.skip(1).push(item));
    }
}

/// A pool of packet storage.
#[derive(Debug)]
pub struct PacketPool {
    pub id: u64,
    pub buffers: ArrayQueue<(Vec<u8>, usize)>,
    pub max_capacity: usize,
    pub allocations: u64,
    pub reuses: u64,
    pub returned: u64,
    pub discarded: u64,
    pub cached_bytes: usize,
}

impl PacketPool {
    /// The cached buffers, the oldest first.
    pub open spec fn cached(&self) -> Seq<(Vec<u8>, usize)> {
        queue_contents(self.buffers)
    }

    /// How many buffers the pool keeps at most.
    pub open spec fn limit(&self) -> nat {
        queue_limit(self.buffers)
    }

    /// The pool is bounded, no buffer is larger than allowed, all are cleared, and
    /// the cached bytes are accounted for.
    pub open spec fn wf(&self) -> bool {
        &&& self.cached().len() <= self.limit()
        &&& forall|i: int|
            0 <= i < self.cached().len() ==> (#[trigger] self.cached()[i]).1 <= self.max_capacity
                && self.cached()[i].0@.len() == 0
        &&& self.cached_bytes == counter::wrapped(total_capacity(self.cached()))
    }

    /// How many buffers that the pool has allocated are with its users: all but
    /// those it keeps and those it gave up.
    pub open spec fn outstanding(&self) -> int {
        counter::wrapped64(self.allocations - self.discarded - self.cached().len())
    }

    /// How many kept buffers trimming gave up: all that came back, but for those that
    /// were handed out again and those that are kept.
    pub open spec fn trimmed(&self) -> int {
        counter::wrapped64(self.returned - self.reuses - self.cached().len())
    }

    /// Whether this is a pool that nothing has happened to.
    pub open spec fn fresh(&self) -> bool {
        &&& self.cached() == Seq::<(Vec<u8>, usize)>::empty()
        &&& self.allocations == 0 && self.reuses == 0
        &&& self.returned == 0 && self.discarded == 0
    }

    /// Whether `after` is this pool as far as its number and bounds go.
    pub open spec fn same_bounds(&self, after: Self) -> bool {
        &&& after.id == self.id
        &&& after.limit() == self.limit()
        &&& after.max_capacity == self.max_capacity
    }

    /// How much storage a packet that is handed out for `length` bytes is known to
    /// have: what the oldest cached buffer has, or as much as was asked for.
    pub open spec fn room(&self, length: usize) -> usize {
        if self.cached().len() > 0 && self.cached()[0].1 > length {
            self.cached()[0].1
        } else {
            length
        }
    }

    /// What handing out a packet does: the oldest cached buffer leaves, or where none
    /// is cached a new one is allocated.
    pub open spec fn acquired(&self, after: Self) -> bool {
        &&& self.same_bounds(after)
        &&& after.returned == self.returned
        &&& after.discarded == self.discarded
        &&& if self.cached().len() > 0 {
            &&& after.cached() == self.cached().skip(1)
            &&& after.reuses == counter::wrapped64(self.reuses + 1)
            &&& after.allocations == self.allocations
        } else {
            &&& after.cached() == self.cached()
            &&& after.reuses == self.reuses
            &&& after.allocations == counter::wrapped64(self.allocations + 1)
        }
    }

    /// What taking back storage does of which `reserved` bytes are known: the storage is
    /// measured, and it is kept, as the newest cached buffer, unless it is larger than
    /// allowed or the pool is full. How large it is beyond what is known is up to the
    /// allocator.
    pub open spec fn took_back(&self, reserved: usize, after: Self) -> bool {
        &&& self.same_bounds(after)
        &&& after.allocations == self.allocations
        &&& after.reuses == self.reuses
        &&& if after.cached() == self.cached() {
            &&& after.discarded == counter::wrapped64(self.discarded + 1)
            &&& after.returned == self.returned
        } else {
            let kept = after.cached().last();
            &&& after.cached() == self.cached().push(kept)
            &&& kept.1 >= reserved
            &&& after.returned == counter::wrapped64(self.returned + 1)
            &&& after.discarded == self.discarded
        }
        &&& self.cached().len() >= self.limit() ==> after.cached() == self.cached()
        &&& reserved > self.max_capacity ==> after.cached() == self.cached()
        &&& self.cached().len() < self.limit() && self.max_capacity == usize::MAX
            ==> after.cached() != self.cached()
        &&& exists|buffer: Vec<u8>, capacity: usize|
            #[trigger] measured(buffer, capacity) && self.stored(
                buffer,
                if capacity < reserved {
                    reserved
                } else {
                    capacity
                },
                after,
            )
    }

    /// What handing a cleared buffer of `capacity` bytes to the pool does to what it
    /// keeps.
    pub open spec fn stored(&self, buffer: Vec<u8>, capacity: usize, after: Self) -> bool {
        &&& buffer@.len() == 0
        &&& after.cached() == if capacity <= self.max_capacity && self.cached().len()
            < self.limit() {
            self.cached().push((buffer, capacity))
        } else {
            self.cached()
        }
    }

    /// What trimming does: all cached storage is given up.
    pub open spec fn emptied(&self, after: Self) -> bool {
        &&& self.same_bounds(after)
        &&& after.cached() == Seq::<(Vec<u8>, usize)>::empty()
        &&& after.cached_bytes == 0
        &&& after.discarded == counter::wrapped64(self.discarded + self.cached().len())
        &&& after.allocations == self.allocations
        &&& after.reuses == self.reuses
        &&& after.returned == self.returned
    }

    /// The statistics that `stats` reports.
    pub open spec fn stats_spec(&self) -> PacketPoolStats {
        PacketPoolStats {
            allocations: self.allocations,
            reuses: self.reuses,
            returned: self.returned,
            discarded: self.discarded,
            cached: self.cached().len() as usize,
            cached_bytes: self.cached_bytes,
        }
    }

    /// A pool that keeps up to `max_cached` buffers of up to `max_capacity` bytes.
    pub fn new(id: u64, max_cached: usize, max_capacity: usize) -> (pool: Self)
        requires
            max_cached > 0,
            max_capacity > 0,
            max_cached * QUEUE_SLOT_BYTES <= isize::MAX,
        ensures
            pool.wf(),
            pool.id == id,
            pool.limit() == max_cached,
            pool.max_capacity == max_capacity,
            pool.fresh(),
            pool.outstanding() == 0,
            pool.trimmed() == 0,
    {
        proof {
            counter::lemma_wrapped_small(0);
        }
        PacketPool {
            id,
            buffers: queue_new(max_cached),
            max_capacity,
            allocations: 0,
            reuses: 0,
            returned: 0,
            discarded: 0,
            cached_bytes: 0,
        }
    }

    /// A packet with room for `length` bytes: in the oldest cached buffer, or in
    /// a new one where none is cached.
    pub fn acquire(&mut self, length: usize) -> (packet: IpPacket)
        requires
            old(self).wf(),
            length <= isize::MAX,
        ensures
            final(self).wf(),
            packet.wf(),
            packet.buffer@ == Seq::<u8>::empty(),
            packet.pool == Some(old(self).id),
            packet.tail is None,
            packet.reserved == old(self).room(length),
            old(self).cached().len() > 0 && old(self).cached()[0].1 >= length ==> packet.buffer
                == old(self).cached()[0].0,
            old(self).acquired(*final(self)),
            final(self).outstanding() == counter::wrapped64(old(self).outstanding() + 1),
            final(self).trimmed() == old(self).trimmed(),
    {
        let ghost before = self.cached();
        let (mut buffer, capacity): (Vec<u8>, usize) = match queue_pop(&mut self.buffers) {
            Some(item) => {
                let (buffer, capacity): (Vec<u8>, usize) = item;
                proof {
                    assert(item == before[0]);
                    counter::lemma_wrapped_shift(total_capacity(before), -(capacity as int));
                    assert forall|i: int| 0 <= i < self.cached().len() implies (
                    #[trigger] self.cached()[i]).1 <= self.max_capacity && self.cached()[i].0@.len()
                        == 0 by {
                        assert(self.cached()[i] == before[i + 1]);
                    }
                }
                counter_sub(&mut self.cached_bytes, capacity);
                self.reuses = self.reuses.wrapping_add(1);
                (buffer, capacity)
            },
            None => {
                self.allocations = self.allocations.wrapping_add(1);
                (Vec::with_capacity(length), length)
            },
        };
        if buffer.len() > 0 {
            buffer.clear();
        }
        let mut reserved: usize = capacity;
        if capacity < length {
            buffer_reserve_exact(&mut buffer, length);
            reserved = length;
        }
        IpPacket { buffer, reserved, pool: Some(self.id), tail: None }
    }

    /// A packet with a copy of `data`.
    pub fn copy_from_slice(&mut self, data: &[u8]) -> (packet: IpPacket)
        requires
            old(self).wf(),
            data@.len() <= isize::MAX,
        ensures
            final(self).wf(),
            packet.wf(),
            packet.buffer@ == data@,
            packet.pool == Some(old(self).id),
            packet.tail is None,
            packet.reserved == old(self).room(data@.len() as usize),
            old(self).acquired(*final(self)),
            final(self).outstanding() == counter::wrapped64(old(self).outstanding() + 1),
            final(self).trimmed() == old(self).trimmed(),
    {
        let mut packet = self.acquire(data.len());
        packet.extend(data);
        assert(packet.buffer@ =~= data@);
        packet
    }

    /// Takes back the storage of a packet of this pool that is no longer needed,
    /// and returns the lease of payload that the packet still owed. Storage is
    /// kept unless it is larger than allowed or the pool is full.
    pub fn release(&mut self, packet: IpPacket) -> (lease: Option<PbufLease>)
        requires
            old(self).wf(),
            packet.pool == Some(old(self).id),
        ensures
            final(self).wf(),
            lease == packet.owed(),
            old(self).took_back(packet.reserved, *final(self)),
            packet.buffer@.len() == 0 ==> exists|capacity: usize|
                #[trigger] measured(packet.buffer, capacity) && old(self).stored(
                    packet.buffer,
                    if capacity < packet.reserved {
                        packet.reserved
                    } else {
                        capacity
                    },
                    *final(self),
                ),
            final(self).outstanding() == counter::wrapped64(old(self).outstanding() - 1),
            final(self).trimmed() == old(self).trimmed(),
    {
        let IpPacket { mut buffer, reserved, tail, .. } = packet;
        let lease = match tail {
            Some(tail) => Some(tail.lease),
            None => None,
        };
        if buffer.len() > 0 {
            buffer.clear();
        }
        let found: usize = buffer_capacity(&buffer);
        let capacity: usize = if found < reserved {
            reserved
        } else {
            found
        };
        let ghost cleared = buffer;
        let kept = self.store(buffer, capacity);
        assert(kept ==> self.cached().len() != old(self).cached().len());
        assert(measured(cleared, found) && old(self).stored(cleared, capacity, *self));
        lease
    }

    /// Keeps a cleared buffer of `capacity` bytes, unless it is larger than
    /// allowed or the pool is full. Returns whether it was kept.
    pub fn store(&mut self, buffer: Vec<u8>, capacity: usize) -> (kept: bool)
        requires
            old(self).wf(),
            buffer@.len() == 0,
        ensures
            final(self).wf(),
            kept == (capacity <= old(self).max_capacity && old(self).cached().len() < old(
                self,
            ).limit()),
            final(self).id == old(self).id,
            final(self).limit() == old(self).limit(),
            final(self).max_capacity == old(self).max_capacity,
            final(self).allocations == old(self).allocations,
            final(self).reuses == old(self).reuses,
            final(self).outstanding() == counter::wrapped64(old(self).outstanding() - 1),
            final(self).trimmed() == old(self).trimmed(),
            if kept {
                &&& final(self).cached() == old(self).cached().push((buffer, capacity))
                &&& final(self).returned == counter::wrapped64(old(self).returned + 1)
                &&& final(self).discarded == old(self).discarded
            } else {
                &&& final(self).cached() == old(self).cached()
                &&& final(self).returned == old(self).returned
                &&& final(self).discarded == counter::wrapped64(old(self).discarded + 1)
            },
    {
        let ghost before = self.cached();
        if capacity > self.max_capacity {
            self.discarded = self.discarded.wrapping_add(1);
            return false;
        }
        match queue_push(&mut self.buffers, (buffer, capacity)) {
            Err(_) => {
                self.discarded = self.discarded.wrapping_add(1);
                false
            },
            Ok(()) => {
                proof {
                    lemma_total_capacity_push(before, (buffer, capacity));
                    counter::lemma_wrapped_shift(total_capacity(before), capacity as int);
                }
                counter_add(&mut self.cached_bytes, capacity);
                self.returned = self.returned.wrapping_add(1);
                true
            },
        }
    }

    /// Gives up all cached storage, and returns how many bytes that were.
    pub fn trim(&mut self) -> (released: usize)
        requires
            old(self).wf(),
        ensures
            final(self).wf(),
            released == old(self).cached_bytes,
            released == counter::wrapped(total_capacity(old(self).cached())),
            old(self).emptied(*final(self)),
            final(self).outstanding() == old(self).outstanding(),
            final(self).trimmed() == counter::wrapped64(
                old(self).trimmed() + old(self).cached().len(),
            ),
    {
        let ghost all = self.cached();
        let ghost mut done: int = 0;
        let mut released: usize = 0;
        proof {
            counter::lemma_wrapped_small(0);
            assert(all.skip(0) =~= all);
        }
        loop
            invariant
                0 <= done <= all.len(),
                self.wf(),
                self.cached() == all.skip(done),
                released == counter::wrapped(total_capacity(all) - total_capacity(all.skip(done))),
                self.discarded == counter::wrapped64(old(self).discarded + done),
                self.id == old(self).id,
                self.limit() == old(self).limit(),
                self.max_capacity == old(self).max_capacity,
                self.allocations == old(self).allocations,
                self.reuses == old(self).reuses,
                self.returned == old(self).returned,
            ensures
                done == all.len(),
            decreases all.len() - done,
        {
            let ghost before = self.cached();
            match queue_pop(&mut self.buffers) {
                None => {
                    break;
                },
                Some(item) => {
                    let (_, capacity): (Vec<u8>, usize) = item;
                    proof {
                        assert(all.skip(done).skip(1) =~= all.skip(done + 1));
                        assert(item == before[0]);
                        counter::lemma_wrapped_shift(
                            total_capacity(all) - total_capacity(all.skip(done)),
                            capacity as int,
                        );
                        counter::lemma_wrapped_shift(total_capacity(before), -(capacity as int));
                        assert forall|i: int| 0 <= i < self.cached().len() implies (
                        #[trigger] self.cached()[i]).1 <= self.max_capacity
                            && self.cached()[i].0@.len() == 0 by {
                            assert(self.cached()[i] == before[i + 1]);
                        }
                    }
                    counter_add(&mut released, capacity);
                    counter_sub(&mut self.cached_bytes, capacity);
                    self.discarded = self.discarded.wrapping_add(1);
                    proof {
                        done = done + 1;
                    }
                },
            }
        }
        proof {
            assert(all.skip(done) =~= Seq::empty());
            counter::lemma_wrapped_small(0);
        }
        released
    }

    /// The numbers of the pool.
    pub fn stats(&self) -> (stats: PacketPoolStats)
        ensures
            stats == self.stats_spec(),
    {
        PacketPoolStats {
            allocations: self.allocations,
            reuses: self.reuses,
            returned: self.returned,
            discarded: self.discarded,
            cached: queue_len(&self.buffers),
            cached_bytes: self.cached_bytes,
        }
    }
}

/// What happens to a pool.
pub enum PoolMove {
    Acquire,
    TakeBack { reserved: usize },
    Trim,
}

/// Whether a move leads from one state of a pool to another.
pub open spec fn pool_moves(before: PacketPool, step: PoolMove, after: PacketPool) -> bool {
    match step {
        PoolMove::Acquire => before.acquired(after),
        PoolMove::TakeBack { reserved } => before.took_back(reserved, after),
        PoolMove::Trim => before.emptied(after),
    }
}

/// How many packets were handed out and not taken back.
pub open spec fn in_flight(steps: Seq<PoolMove>) -> int
    decreases steps.len(),
{
    if steps.len() == 0 {
        0
    } else {
        in_flight(steps.drop_last()) + match steps.last() {
            PoolMove::Acquire => 1int,
            PoolMove::TakeBack { .. } => -1int,
            PoolMove::Trim => 0int,
        }
    }
}

/// How many buffers were given up by trimming.
pub open spec fn given_up(states: Seq<PacketPool>, steps: Seq<PoolMove>) -> int
    decreases steps.len(),
{
    if steps.len() == 0 {
        0
    } else {
        given_up(states.drop_last(), steps.drop_last()) + match steps.last() {
            PoolMove::Trim => states[steps.len() - 1].cached().len() as int,
            _ => 0int,
        }
    }
}

/// The numbers of a pool balance, over any run of operations on a fresh pool: every
/// buffer that was allocated was given up, is kept, or is with a user; and every
/// buffer that came back was handed out again, is kept, or was given up by trimming.
pub proof fn law_the_numbers_of_a_pool_balance(states: Seq<PacketPool>, steps: Seq<PoolMove>)
    requires
        states.len() == steps.len() + 1,
        states[0].fresh(),
        forall|i: int|
            0 <= i < steps.len() ==> #[trigger] pool_moves(states[i], steps[i], states[i + 1]),
    ensures
        ({
            let pool = states.last();
            &&& pool.allocations == counter::wrapped64(
                pool.discarded + pool.cached().len() + in_flight(steps),
            )
            &&& pool.returned == counter::wrapped64(
                pool.reuses + pool.cached().len() + given_up(states, steps),
            )
        }),
    decreases steps.len(),
{
    if steps.len() > 0 {
        let n = steps.len() as int;
        assert forall|i: int| 0 <= i < n - 1 implies #[trigger] pool_moves(
            states.drop_last()[i],
            steps.drop_last()[i],
            states.drop_last()[i + 1],
        ) by {
            assert(pool_moves(states[i], steps[i], states[i + 1]));
        }
        law_the_numbers_of_a_pool_balance(states.drop_last(), steps.drop_last());
        assert(pool_moves(states[n - 1], steps[n - 1], states[n - 1 + 1]));
    }
}

/// The numbers of all live pools together. They wrap around.
#[derive(Clone, Copy, Debug, PartialEq, Eq, Structural)]
pub struct PacketPoolsRuntimeStats {
    pub live_pools: usize,
    pub cached_packets: usize,
    pub cached_bytes: usize,
    pub allocations: u64,
    pub reuses: u64,
    pub returned: u64,
    pub discarded: u64,
}

impl PacketPoolsRuntimeStats {
    /// No pools.
    pub open spec fn zero() -> Self {
        PacketPoolsRuntimeStats {
            live_pools: 0,
            cached_packets: 0,
            cached_bytes: 0,
            allocations: 0,
            reuses: 0,
            returned: 0,
            discarded: 0,
        }
    }

    /// These numbers with those of one more pool.
    pub open spec fn with_pool(self, pool: PacketPoolStats) -> Self {
        PacketPoolsRuntimeStats {
            live_pools: counter::wrapped(self.live_pools + 1) as usize,
            cached_packets: counter::wrapped(self.cached_packets + pool.cached) as usize,
            cached_bytes: counter::wrapped(self.cached_bytes + pool.cached_bytes) as usize,
            allocations: counter::wrapped64(self.allocations + pool.allocations) as u64,
            reuses: counter::wrapped64(self.reuses + pool.reuses) as u64,
            returned: counter::wrapped64(self.returned + pool.returned) as u64,
            discarded: counter::wrapped64(self.discarded + pool.discarded) as u64,
        }
    }

    /// Adds the numbers of one more pool.
    fn add_pool(&mut self, pool: PacketPoolStats)
        ensures
            *final(self) == old(self).with_pool(pool),
    {
        proof {
            counter::lemma_wrapped_shift(self.live_pools + 1, 0);
            counter::lemma_wrapped_shift(self.cached_packets + pool.cached, 0);
            counter::lemma_wrapped_shift(self.cached_bytes + pool.cached_bytes, 0);
        }
        counter_add(&mut self.live_pools, 1);
        counter_add(&mut self.cached_packets, pool.cached);
        counter_add(&mut self.cached_bytes, pool.cached_bytes);
        self.allocations = self.allocations.wrapping_add(pool.allocations);
        self.reuses = self.reuses.wrapping_add(pool.reuses);
        self.returned = self.returned.wrapping_add(pool.returned);
        self.discarded = self.discarded.wrapping_add(pool.discarded);
    }
}

impl Default for PacketPoolsRuntimeStats {
    fn default() -> (stats: Self)
        ensures
            stats == PacketPoolsRuntimeStats::zero(),
    {
        PacketPoolsRuntimeStats {
            live_pools: 0,
            cached_packets: 0,
            cached_bytes: 0,
            allocations: 0,
            reuses: 0,
            returned: 0,
            discarded: 0,
        }
    }
}

/// One pool of the registry: how many handles keep it alive, and the pool while
/// there are any.
#[derive(Debug)]
pub struct PoolEntry {
    pub id: u64,
    pub handles: usize,
    pub pool: Option<PacketPool>,
}

impl PoolEntry {
    /// The pool exists exactly while a handle does, and knows its own number.
    pub open spec fn wf(&self) -> bool {
        &&& self.pool is Some <==> self.handles > 0
        &&& self.pool matches Some(pool) ==> pool.wf() && pool.id == self.id
    }
}

/// The entries whose pool is alive, in order.
pub open spec fn live_entries(entries: Seq<PoolEntry>) -> Seq<PoolEntry>
    decreases entries.len(),
{
    if entries.len() == 0 {
        Seq::empty()
    } else if entries.last().pool is Some {
        live_entries(entries.drop_last()).push(entries.last())
    } else {
        live_entries(entries.drop_last())
    }
}

/// The numbers of live pools together.
pub open spec fn pools_stats(live: Seq<PoolEntry>) -> PacketPoolsRuntimeStats
    decreases live.len(),
{
    if live.len() == 0 {
        PacketPoolsRuntimeStats::zero()
    } else {
        pools_stats(live.drop_last()).with_pool(live.last().pool->0.stats_spec())
    }
}

/// The bytes that live pools keep, together.
pub open spec fn pools_cached_bytes(live: Seq<PoolEntry>) -> int
    decreases live.len(),
{
    if live.len() == 0 {
        0
    } else {
        pools_cached_bytes(live.drop_last()) + live.last().pool->0.cached_bytes
    }
}

/// Whether handing out a packet for `length` bytes and taking it back leads from one
/// state of a pool to another.
pub open spec fn passed_through(before: PacketPool, length: usize, after: PacketPool) -> bool {
    exists|between: PacketPool| #[trigger]
        before.acquired(between) && between.took_back(before.room(length), after)
}

/// All packet pools of the process.
#[derive(Debug)]
pub struct PacketPools {
    pub entries: Vec<PoolEntry>,
    pub next_id: u64,
}

/// Live entries are entries, in order.
proof fn lemma_live_entries(entries: Seq<PoolEntry>)
    ensures
        live_entries(entries).len() <= entries.len(),
        forall|k: int|
            0 <= k < live_entries(entries).len() ==> (#[trigger] live_entries(
                entries,
            )[k]).pool is Some && entries.contains(live_entries(entries)[k]),
        forall|i: int|
            0 <= i < entries.len() && (#[trigger] entries[i]).pool is Some ==> live_entries(
                entries,
            ).contains(entries[i]),
    decreases entries.len(),
{
    if entries.len() > 0 {
        let shorter = entries.drop_last();
        lemma_live_entries(shorter);
        let live = live_entries(entries);
        let before = live_entries(shorter);
        assert forall|k: int| 0 <= k < live.len() implies (#[trigger] live[k]).pool is Some
            && entries.contains(live[k]) by {
            if k < before.len() {
                assert(live[k] == before[k]);
                let i = choose|i: int| 0 <= i < shorter.len() && shorter[i] == before[k];
                assert(entries[i] == live[k]);
            } else {
                assert(entries[entries.len() - 1] == live[k]);
            }
        }
        assert forall|i: int| 0 <= i < entries.len() && (
        #[trigger] entries[i]).pool is Some implies live.contains(entries[i]) by {
            if i < shorter.len() {
                assert(shorter[i] == entries[i]);
                let k = choose|k: int| 0 <= k < before.len() && before[k] == entries[i];
                assert(live[k] == entries[i]);
            } else {
                assert(live[live.len() - 1] == entries[i]);
            }
        }
    }
}

/// Distinct numbers stay distinct among the live entries.
proof fn lemma_live_entries_distinct(entries: Seq<PoolEntry>)
    requires
        forall|i: int, j: int|
            0 <= i < j < entries.len() ==> #[trigger] entries[i].id != #[trigger] entries[j].id,
    ensures
        forall|i: int, j: int|
            0 <= i < j < live_entries(entries).len() ==> #[trigger] live_entries(entries)[i].id
                != #[trigger] live_entries(entries)[j].id,
    decreases entries.len(),
{
    if entries.len() > 0 {
        let shorter = entries.drop_last();
        lemma_live_entries_distinct(shorter);
        lemma_live_entries(shorter);
        let live = live_entries(entries);
        let before = live_entries(shorter);
        assert forall|i: int, j: int| 0 <= i < j < live.len() implies #[trigger] live[i].id
            != #[trigger] live[j].id by {
            assert(live[i] == before[i]);
            if j < before.len() {
                assert(live[j] == before[j]);
            } else {
                let at = choose|at: int| 0 <= at < shorter.len() && shorter[at] == before[i];
                assert(entries[at].id == live[i].id);
                assert(live[j] == entries[entries.len() - 1]);
            }
        }
    }
}

/// An appended entry comes last among the live ones, if it is live.
proof fn lemma_live_entries_push(entries: Seq<PoolEntry>, entry: PoolEntry)
    ensures
        live_entries(entries.push(entry)) == if entry.pool is Some {
            live_entries(entries).push(entry)
        } else {
            live_entries(entries)
        },
{
    assert(entries.push(entry).drop_last() =~= entries);
}

impl PacketPools {
    /// Every entry is valid, and no two have the same number.
    pub open spec fn wf(&self) -> bool {
        &&& forall|i: int| 0 <= i < self.entries@.len() ==> (#[trigger] self.entries@[i]).wf()
        &&& forall|i: int|
            0 <= i < self.entries@.len() ==> (#[trigger] self.entries@[i]).id < self.next_id
        &&& forall|i: int, j: int|
            0 <= i < j < self.entries@.len() ==> #[trigger] self.entries@[i].id
                != #[trigger] self.entries@[j].id
    }

    /// The live entries.
    pub open spec fn live(&self) -> Seq<PoolEntry> {
        live_entries(self.entries@)
    }

    /// No pools.
    pub fn new() -> (pools: Self)
        ensures
            pools.wf(),
            pools.entries@ == Seq::<PoolEntry>::empty(),
            pools.live() == Seq::<PoolEntry>::empty(),
            pools.next_id == 0,
    {
        PacketPools { entries: Vec::new(), next_id: 0 }
    }

    /// Drops the entries of pools that are gone.
    fn retain_live(&mut self)
        requires
            old(self).wf(),
        ensures
            final(self).wf(),
            final(self).entries@ == old(self).live(),
            final(self).live() == old(self).live(),
            final(self).next_id == old(self).next_id,
    {
        let ghost start = *self;
        let ghost all = self.entries@;
        let ghost mut seen: int = 0;
        let mut i: usize = 0;
        assert(all.take(0) =~= Seq::empty());
        assert(self.entries@ =~= live_entries(all.take(0)) + all.skip(0));
        while i < self.entries.len()
            invariant
                0 <= seen <= all.len(),
                i == live_entries(all.take(seen)).len(),
                self.entries@ == live_entries(all.take(seen)) + all.skip(seen),
                self.next_id == start.next_id,
            decreases all.len() - seen,
        {
            let ghost kept = live_entries(all.take(seen));
            assert(self.entries@[i as int] == all.skip(seen)[0]);
            assert(all.take(seen + 1) =~= all.take(seen).push(all[seen]));
            proof {
                lemma_live_entries_push(all.take(seen), all[seen]);
            }
            if self.entries[i].pool.is_none() {
                self.entries.remove(i);
                assert(self.entries@ =~= kept + all.skip(seen + 1));
            } else {
                i = i + 1;
                assert(self.entries@ =~= kept.push(all[seen]) + all.skip(seen + 1));
            }
            proof {
                seen = seen + 1;
            }
        }
        proof {
            assert(all.skip(seen).len() == 0);
            assert(all.take(seen) =~= all);
            assert(self.entries@ =~= live_entries(all));
            lemma_live_entries(all);
            lemma_live_entries_distinct(all);
            assert forall|k: int| 0 <= k < self.entries@.len() implies (
            #[trigger] self.entries@[k]).wf() && self.entries@[k].id < self.next_id by {
                let at = choose|at: int| 0 <= at < all.len() && all[at] == self.entries@[k];
                assert(all[at].wf());
            }
            lemma_all_live(self.entries@);
        }
    }

    /// What making a pool does: there is one more live pool, the last, with the next
    /// number and one handle, and nothing has happened to it.
    pub open spec fn created(
        &self,
        id: u64,
        max_cached: int,
        max_capacity: int,
        after: Self,
    ) -> bool {
        let entry = after.entry(id);
        &&& id == self.next_id
        &&& after.next_id == self.next_id + 1
        &&& after.has(id)
        &&& entry.id == id
        &&& entry.handles == 1
        &&& entry.pool->0.limit() == max_cached
        &&& entry.pool->0.max_capacity == max_capacity
        &&& entry.pool->0.fresh()
        &&& after.entries@ == self.live().push(entry)
        &&& after.live() == self.live().push(entry)
    }

    /// Makes a pool with one handle, and returns its number.
    pub fn create(&mut self, max_cached: usize, max_capacity: usize) -> (id: u64)
        requires
            old(self).wf(),
            old(self).next_id < u64::MAX,
            max_cached > 0,
            max_capacity > 0,
            max_cached * QUEUE_SLOT_BYTES <= isize::MAX,
        ensures
            final(self).wf(),
            old(self).created(id, max_cached as int, max_capacity as int, *final(self)),
    {
        self.retain_live();
        let id: u64 = self.next_id;
        let entry = PoolEntry {
            id,
            handles: 1,
            pool: Some(PacketPool::new(id, max_cached, max_capacity)),
        };
        proof {
            lemma_live_entries_push(self.entries@, entry);
        }
        self.entries.push(entry);
        self.next_id = id + 1;
        proof {
            self.lemma_last_entry();
        }
        id
    }

    /// The index of the live entry with the number `id`.
    fn find(&self, id: u64) -> (at: Option<usize>)
        requires
            self.wf(),
        ensures
            match at {
                Some(at) => at < self.entries@.len() && self.entries@[at as int].id == id
                    && self.entries@[at as int].pool is Some,
                None => forall|i: int|
                    0 <= i < self.entries@.len() ==> (#[trigger] self.entries@[i]).id != id
                        || self.entries@[i].pool is None,
            },
    {
        let mut i: usize = 0;
        while i < self.entries.len()
            invariant
                i <= self.entries@.len(),
                forall|k: int|
                    0 <= k < i ==> (#[trigger] self.entries@[k]).id != id
                        || self.entries@[k].pool is None,
            decreases self.entries@.len() - i,
        {
            if self.entries[i].id == id && self.entries[i].pool.is_some() {
                return Some(i);
            }
            i = i + 1;
        }
        None
    }

    /// Whether there is a live pool with the number `id`.
    pub open spec fn has(&self, id: u64) -> bool {
        exists|i: int|
            0 <= i < self.entries@.len() && (#[trigger] self.entries@[i]).id == id
                && self.entries@[i].pool is Some
    }

    /// The entry with the number `id`.
    pub open spec fn entry(&self, id: u64) -> PoolEntry {
        self.entries@[choose|i: int|
            0 <= i < self.entries@.len() && (#[trigger] self.entries@[i]).id == id
                && self.entries@[i].pool is Some]
    }

    /// Whether `after` differs from these pools in the entry with the number `id`
    /// alone, which has become `entry`.
    pub open spec fn replaced(&self, id: u64, entry: PoolEntry, after: Self) -> bool {
        &&& after.next_id == self.next_id
        &&& after.entries@.len() == self.entries@.len()
        &&& forall|i: int|
            0 <= i < self.entries@.len() ==> #[trigger] after.entries@[i] == if self.entries@[i].id
                == id {
                entry
            } else {
                self.entries@[i]
            }
    }

    /// How much storage a packet of the pool `id` is known to have that is handed out
    /// for `length` bytes.
    pub open spec fn room(&self, id: u64, length: usize) -> usize {
        self.entry(id).pool->0.room(length)
    }

    /// What handing out a packet of the pool `id` does: that pool alone changes, and
    /// it has one more handle.
    pub open spec fn acquired(&self, id: u64, after: Self) -> bool {
        &&& after.has(id)
        &&& self.replaced(id, after.entry(id), after)
        &&& after.entry(id).id == id
        &&& after.entry(id).handles == self.entry(id).handles + 1
        &&& self.entry(id).pool->0.acquired(after.entry(id).pool->0)
    }

    /// What handing out a packet of the pool `id` for `length` bytes and taking it back
    /// does: that pool alone changes, and it has as many handles as before.
    pub open spec fn bounced(&self, id: u64, length: usize, after: Self) -> bool {
        &&& after.has(id)
        &&& self.replaced(id, after.entry(id), after)
        &&& after.entry(id).id == id
        &&& after.entry(id).handles == self.entry(id).handles
        &&& passed_through(self.entry(id).pool->0, length, after.entry(id).pool->0)
    }

    /// A packet that is handed out and then taken back leaves the pool of a living
    /// owner alive.
    pub proof fn lemma_bounced(
        self,
        id: u64,
        length: usize,
        between: Self,
        packet: IpPacket,
        after: Self,
    )
        requires
            self.wf(),
            self.has(id),
            between.wf(),
            after.wf(),
            self.acquired(id, between),
            packet.pool == Some(id),
            packet.reserved == self.room(id, length),
            between.released(packet, after),
        ensures
            self.bounced(id, length, after),
    {
        let entry = choose|entry: PoolEntry|
            {
                &&& #[trigger] between.replaced(id, entry, after)
                &&& entry.id == id
                &&& entry.handles == between.entry(id).handles - 1
                &&& entry.pool is Some <==> between.entry(id).handles > 1
                &&& entry.pool matches Some(pool) ==> between.entry(id).pool->0.took_back(
                    packet.reserved,
                    pool,
                )
            };
        let i = choose|i: int|
            0 <= i < self.entries@.len() && (#[trigger] self.entries@[i]).id == id
                && self.entries@[i].pool is Some;
        assert(self.entries@[i].wf());
        assert(between.entries@[i] == between.entry(id));
        assert(after.entries@[i] == entry);
        after.lemma_entry(i);
        assert forall|k: int| 0 <= k < self.entries@.len() implies #[trigger] after.entries@[k]
            == if self.entries@[k].id == id {
            after.entry(id)
        } else {
            self.entries@[k]
        } by {
            assert(between.entries@[k] == if self.entries@[k].id == id {
                between.entry(id)
            } else {
                self.entries@[k]
            });
        }
        assert(passed_through(self.entry(id).pool->0, length, after.entry(id).pool->0)) by {
            let mid = between.entry(id).pool->0;
            assert(self.entry(id).pool->0.acquired(mid));
            assert(mid.took_back(packet.reserved, after.entry(id).pool->0));
        }
    }

    /// A change of one pool leaves every other one as it is.
    pub proof fn lemma_others(self, id: u64, entry: PoolEntry, after: Self, other: u64)
        requires
            self.wf(),
            after.wf(),
            self.replaced(id, entry, after),
            entry.id == id,
            other != id,
        ensures
            after.has(other) == self.has(other),
            self.has(other) ==> after.entry(other) == self.entry(other),
    {
        if self.has(other) {
            let i = choose|i: int|
                0 <= i < self.entries@.len() && (#[trigger] self.entries@[i]).id == other
                    && self.entries@[i].pool is Some;
            assert(after.entries@[i] == self.entries@[i]);
            self.lemma_entry(i);
            after.lemma_entry(i);
        }
        if after.has(other) {
            let i = choose|i: int|
                0 <= i < after.entries@.len() && (#[trigger] after.entries@[i]).id == other
                    && after.entries@[i].pool is Some;
            assert(after.entries@[i] == if self.entries@[i].id == id {
                entry
            } else {
                self.entries@[i]
            });
            self.lemma_entry(i);
        }
    }

    /// A new pool has a number of its own, and making it leaves every live one as it
    /// is.
    pub proof fn lemma_created(
        self,
        id: u64,
        max_cached: int,
        max_capacity: int,
        after: Self,
        other: u64,
    )
        requires
            self.wf(),
            after.wf(),
            self.created(id, max_cached, max_capacity, after),
            self.has(other),
        ensures
            other != id,
            after.has(other),
            after.entry(other) == self.entry(other),
    {
        let i = choose|i: int|
            0 <= i < self.entries@.len() && (#[trigger] self.entries@[i]).id == other
                && self.entries@[i].pool is Some;
        lemma_live_entries(self.entries@);
        assert(self.live().contains(self.entries@[i]));
        let k = choose|k: int| 0 <= k < self.live().len() && self.live()[k] == self.entries@[i];
        assert(after.entries@[k] == self.entries@[i]);
        self.lemma_entry(i);
        after.lemma_entry(k);
    }

    /// The last entry, if it is live, is the one with its number, and the last live
    /// one.
    pub proof fn lemma_last_entry(self)
        requires
            self.wf(),
            self.entries@.len() > 0,
            self.entries@.last().pool is Some,
        ensures
            self.has(self.entries@.last().id),
            self.entry(self.entries@.last().id) == self.entries@.last(),
            self.live().last() == self.entries@.last(),
    {
        self.lemma_entry(self.entries@.len() - 1);
    }

    /// The numbers of the pool `id`; `None` where there is no such pool.
    pub fn pool_stats(&self, id: u64) -> (stats: Option<PacketPoolStats>)
        requires
            self.wf(),
        ensures
            match stats {
                Some(stats) => self.has(id) && stats == self.entry(id).pool->0.stats_spec(),
                None => !self.has(id),
            },
    {
        match self.find(id) {
            None => None,
            Some(at) => {
                proof {
                    self.lemma_entry(at as int);
                }
                match &self.entries[at].pool {
                    Some(pool) => Some(pool.stats()),
                    None => None,
                }
            },
        }
    }

    /// The entry at `at` is the one with its number.
    pub proof fn lemma_entry(self, at: int)
        requires
            self.wf(),
            0 <= at < self.entries@.len(),
            self.entries@[at].pool is Some,
        ensures
            self.has(self.entries@[at].id),
            self.entry(self.entries@[at].id) == self.entries@[at],
    {
        let id = self.entries@[at].id;
        let i = choose|i: int|
            0 <= i < self.entries@.len() && (#[trigger] self.entries@[i]).id == id
                && self.entries@[i].pool is Some;
        assert(i == at) by {
            if i < at {
                assert(self.entries@[i].id != self.entries@[at].id);
            } else if at < i {
                assert(self.entries@[at].id != self.entries@[i].id);
            }
        }
    }

    /// Adds a handle to the pool `id`. `false`, and nothing changed, where there
    /// is no such pool or its handles cannot be counted.
    pub fn clone_handle(&mut self, id: u64) -> (cloned: bool)
        requires
            old(self).wf(),
        ensures
            final(self).wf(),
            cloned == (old(self).has(id) && old(self).entry(id).handles < usize::MAX),
            !cloned ==> *final(self) == *old(self),
            cloned ==> old(self).replaced(
                id,
                PoolEntry {
                    handles: (old(self).entry(id).handles + 1) as usize,
                    ..old(self).entry(id)
                },
                *final(self),
            ),
    {
        match self.find(id) {
            None => false,
            Some(at) => {
                proof {
                    self.lemma_entry(at as int);
                }
                if self.entries[at].handles == usize::MAX {
                    return false;
                }
                let ghost before = self.entries@;
                let mut entry = self.entries.remove(at);
                entry.handles = entry.handles + 1;
                self.entries.insert(at, entry);
                assert(self.entries@ =~= before.update(at as int, entry));
                true
            },
        }
    }

    /// What dropping a handle of the pool `id` does. With the last one the pool goes
    /// away; where there is no such pool, nothing changes.
    pub open spec fn handle_dropped(&self, id: u64, after: Self) -> bool {
        if !self.has(id) {
            after == *self
        } else {
            let before = self.entry(id);
            self.replaced(
                id,
                PoolEntry {
                    id,
                    handles: (before.handles - 1) as usize,
                    pool: if before.handles == 1 {
                        None
                    } else {
                        before.pool
                    },
                },
                after,
            )
        }
    }

    /// Drops a handle of the pool `id`. With the last one the pool goes away.
    /// `false`, and nothing changed, where there is no such pool.
    pub fn drop_handle(&mut self, id: u64) -> (dropped: bool)
        requires
            old(self).wf(),
        ensures
            final(self).wf(),
            dropped == old(self).has(id),
            old(self).handle_dropped(id, *final(self)),
    {
        match self.find(id) {
            None => false,
            Some(at) => {
                proof {
                    self.lemma_entry(at as int);
                }
                let ghost before = self.entries@;
                let mut entry = self.entries.remove(at);
                assert(before[at as int].wf());
                entry.handles = entry.handles - 1;
                if entry.handles == 0 {
                    entry.pool = None;
                }
                self.entries.insert(at, entry);
                assert(self.entries@ =~= before.update(at as int, entry));
                true
            },
        }
    }

    /// A packet of the pool `id` with room for `length` bytes. The packet counts
    /// as a handle. `None`, and nothing changed, where there is no such pool or
    /// its handles cannot be counted.
    pub fn acquire(&mut self, id: u64, length: usize) -> (packet: Option<IpPacket>)
        requires
            old(self).wf(),
            length <= isize::MAX,
        ensures
            final(self).wf(),
            packet is Some == (old(self).has(id) && old(self).entry(id).handles < usize::MAX),
            match packet {
                None => *final(self) == *old(self),
                Some(packet) => {
                    &&& packet.wf()
                    &&& packet.buffer@ == Seq::<u8>::empty()
                    &&& packet.pool == Some(id)
                    &&& packet.tail is None
                    &&& packet.reserved == old(self).room(id, length)
                    &&& old(self).acquired(id, *final(self))
                },
            },
    {
        match self.find(id) {
            None => None,
            Some(at) => {
                proof {
                    self.lemma_entry(at as int);
                }
                if self.entries[at].handles == usize::MAX {
                    return None;
                }
                let ghost before = *self;
                let mut entry = self.entries.remove(at);
                assert(before.entries@[at as int].wf());
                let mut pool = entry.pool.take().unwrap();
                let packet = pool.acquire(length);
                entry.pool = Some(pool);
                entry.handles = entry.handles + 1;
                self.entries.insert(at, entry);
                proof {
                    assert(self.entries@ =~= before.entries@.update(at as int, entry));
                    assert(self.wf());
                    self.lemma_entry(at as int);
                }
                Some(packet)
            },
        }
    }

    /// What taking back `packet` does: its storage goes to its pool while that is
    /// alive, and its handle is dropped, with which the pool may go away.
    pub open spec fn released(&self, packet: IpPacket, after: Self) -> bool {
        match packet.pool {
            None => after == *self,
            Some(id) => if !self.has(id) {
                after == *self
            } else {
                let before = self.entry(id);
                exists|entry: PoolEntry|
                    {
                        &&& #[trigger] self.replaced(id, entry, after)
                        &&& entry.id == id
                        &&& entry.handles == before.handles - 1
                        &&& entry.pool is Some <==> before.handles > 1
                        &&& entry.pool matches Some(pool) ==> before.pool->0.took_back(
                            packet.reserved,
                            pool,
                        )
                    }
            },
        }
    }

    /// Takes back a packet that is no longer needed: its storage goes to its pool
    /// while that is alive, its handle is dropped, and the lease of payload that
    /// it still owed is returned.
    pub fn release(&mut self, packet: IpPacket) -> (lease: Option<PbufLease>)
        requires
            old(self).wf(),
        ensures
            final(self).wf(),
            lease == packet.owed(),
            old(self).released(packet, *final(self)),
    {
        let id: u64 = match packet.pool {
            None => {
                return match packet.tail {
                    Some(tail) => Some(tail.lease),
                    None => None,
                };
            },
            Some(id) => id,
        };
        match self.find(id) {
            None => match packet.tail {
                Some(tail) => Some(tail.lease),
                None => None,
            },
            Some(at) => {
                proof {
                    self.lemma_entry(at as int);
                }
                let ghost before = *self;
                let mut entry = self.entries.remove(at);
                assert(before.entries@[at as int].wf());
                let mut pool = entry.pool.take().unwrap();
                let lease = pool.release(packet);
                entry.handles = entry.handles - 1;
                if entry.handles > 0 {
                    entry.pool = Some(pool);
                }
                self.entries.insert(at, entry);
                assert(self.entries@ =~= before.entries@.update(at as int, entry));
                assert(before.replaced(id, entry, *self));
                lease
            },
        }
    }
}

/// Where all entries are live, nothing is left out.
proof fn lemma_all_live(entries: Seq<PoolEntry>)
    requires
        forall|i: int| 0 <= i < entries.len() ==> (#[trigger] entries[i]).pool is Some,
    ensures
        live_entries(entries) == entries,
    decreases entries.len(),
{
    if entries.len() > 0 {
        lemma_all_live(entries.drop_last());
        assert(entries.drop_last().push(entries.last()) =~= entries);
    }
}

/// Gives up the cached storage of all live pools, and returns how many bytes that
/// were.
pub fn trim_packet_pools(pools: &mut PacketPools) -> (released: usize)
    requires
        old(pools).wf(),
    ensures
        final(pools).wf(),
        released == counter::wrapped(pools_cached_bytes(old(pools).live())),
        final(pools).next_id == old(pools).next_id,
        final(pools).entries@.len() == old(pools).live().len(),
        forall|i: int|
            0 <= i < final(pools).entries@.len() ==> {
                let before = old(pools).live()[i];
                let after = #[trigger] final(pools).entries@[i];
                &&& after.id == before.id
                &&& after.handles == before.handles
                &&& after.pool is Some
                &&& after.pool->0.cached() == Seq::<(Vec<u8>, usize)>::empty()
                &&& after.pool->0.cached_bytes == 0
                &&& after.pool->0.limit() == before.pool->0.limit()
                &&& after.pool->0.max_capacity == before.pool->0.max_capacity
                &&& after.pool->0.allocations == before.pool->0.allocations
                &&& after.pool->0.reuses == before.pool->0.reuses
                &&& after.pool->0.returned == before.pool->0.returned
                &&& after.pool->0.discarded == counter::wrapped64(
                    before.pool->0.discarded + before.pool->0.cached().len(),
                )
            },
{
    pools.retain_live();
    let ghost live = pools.entries@;
    let mut released: usize = 0;
    let mut i: usize = 0;
    proof {
        lemma_live_entries(old(pools).entries@);
        counter::lemma_wrapped_small(0);
        assert(live.take(0) =~= Seq::empty());
    }
    while i < pools.entries.len()
        invariant
            pools.wf(),
            i <= pools.entries@.len(),
            pools.entries@.len() == live.len(),
            pools.next_id == old(pools).next_id,
            released == counter::wrapped(pools_cached_bytes(live.take(i as int))),
            forall|k: int| 0 <= k < live.len() ==> (#[trigger] live[k]).pool is Some,
            forall|k: int| i <= k < live.len() ==> #[trigger] pools.entries@[k] == live[k],
            forall|k: int|
                0 <= k < i ==> {
                    let before = live[k];
                    let after = #[trigger] pools.entries@[k];
                    &&& after.id == before.id
                    &&& after.handles == before.handles
                    &&& after.pool is Some
                    &&& after.pool->0.cached() == Seq::<(Vec<u8>, usize)>::empty()
                    &&& after.pool->0.cached_bytes == 0
                    &&& after.pool->0.limit() == before.pool->0.limit()
                    &&& after.pool->0.max_capacity == before.pool->0.max_capacity
                    &&& after.pool->0.allocations == before.pool->0.allocations
                    &&& after.pool->0.reuses == before.pool->0.reuses
                    &&& after.pool->0.returned == before.pool->0.returned
                    &&& after.pool->0.discarded == counter::wrapped64(
                        before.pool->0.discarded + before.pool->0.cached().len(),
                    )
                },
        decreases pools.entries@.len() - i,
    {
        let ghost before = *pools;
        let mut entry = pools.entries.remove(i);
        assert(entry == live[i as int]);
        assert(before.entries@[i as int].wf());
        let mut pool = entry.pool.take().unwrap();
        let trimmed: usize = pool.trim();
        entry.pool = Some(pool);
        pools.entries.insert(i, entry);
        proof {
            assert(pools.entries@ =~= before.entries@.update(i as int, entry));
            assert(live.take(i + 1).drop_last() =~= live.take(i as int));
            counter::lemma_wrapped_shift(
                pools_cached_bytes(live.take(i as int)),
                trimmed as int,
            );
        }
        counter_add(&mut released, trimmed);
        i = i + 1;
    }
    assert(live.take(live.len() as int) =~= live);
    released
}

/// The numbers of all live pools together.
pub fn packet_pool_runtime_stats(pools: &mut PacketPools) -> (runtime: PacketPoolsRuntimeStats)
    requires
        old(pools).wf(),
    ensures
        final(pools).wf(),
        runtime == pools_stats(old(pools).live()),
        final(pools).entries@ == old(pools).live(),
        final(pools).next_id == old(pools).next_id,
{
    pools.retain_live();
    let ghost live = pools.entries@;
    let mut runtime = PacketPoolsRuntimeStats::default();
    let mut i: usize = 0;
    proof {
        lemma_live_entries(old(pools).entries@);
        assert(live.take(0) =~= Seq::empty());
    }
    while i < pools.entries.len()
        invariant
            i <= pools.entries@.len(),
            pools.entries@ == live,
            forall|k: int| 0 <= k < live.len() ==> (#[trigger] live[k]).pool is Some,
            runtime == pools_stats(live.take(i as int)),
        decreases pools.entries@.len() - i,
    {
        if let Some(pool) = &pools.entries[i].pool {
            runtime.add_pool(pool.stats());
        }
        assert(live.take(i + 1).drop_last() =~= live.take(i as int));
        i = i + 1;
    }
    assert(live.take(live.len() as int) =~= live);
    runtime
}

} // verus!
