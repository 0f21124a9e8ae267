//! Stacks as users see them: how one is set up, and its two halves.

use tokio::sync::mpsc::Receiver;
use vstd::prelude::*;
use vstd::string::*;

use crate::channel;
use crate::error::Error;
use crate::packet::{IpPacket, PacketPools, PbufLease};
use crate::shard::{ShardState, SHARD_COUNT};
use crate::stack_impl;
use crate::stack_impl::{NetStackImpl, DEFAULT_MTU};
use crate::tcp_stream_context;
use crate::text;
use crate::text::{append_decimal, RawSetting};

verus! {

/// How a stack is set up: which one, how many packets its egress queue and
/// datagrams its UDP queue hold, and its MTU.
#[derive(Clone, Copy, Debug, PartialEq, Eq, Structural)]
pub struct StackPlan {
    pub shard_id: usize,
    pub stack_buffer_size: usize,
    pub udp_buffer_size: usize,
    pub mtu: u16,
}

/// The egress queue of a stack that is not told otherwise.
pub const DEFAULT_STACK_BUFFER: usize = 512;

/// The UDP queue of a stack that is not told otherwise.
pub const DEFAULT_UDP_BUFFER: usize = 64;

/// A stack.
pub struct NetStack {
    pub stack: NetStackImpl,
}

/// What is said of a stack that there is not.
pub open spec fn out_of_range(shard_id: usize) -> Seq<char> {
    "shard "@ + text::decimal(shard_id as nat) + " out of range; this build carries "@
        + text::decimal(SHARD_COUNT as nat) + " stacks"@
}

impl NetStack {
    /// The primary stack, with default sizes.
    pub fn new() -> (plan: StackPlan)
        ensures
            plan == (StackPlan {
                shard_id: 0,
                stack_buffer_size: DEFAULT_STACK_BUFFER,
                udp_buffer_size: DEFAULT_UDP_BUFFER,
                mtu: DEFAULT_MTU,
            }),
    {
        NetStack::with_buffer_size(DEFAULT_STACK_BUFFER, DEFAULT_UDP_BUFFER)
    }

    /// The primary stack, with queues of the given sizes.
    pub fn with_buffer_size(stack_buffer_size: usize, udp_buffer_size: usize) -> (plan: StackPlan)
        ensures
            plan == (StackPlan {
                shard_id: 0,
                stack_buffer_size,
                udp_buffer_size,
                mtu: DEFAULT_MTU,
            }),
    {
        NetStack::with_buffer_size_and_mtu(stack_buffer_size, udp_buffer_size, DEFAULT_MTU)
    }

    /// The primary stack, with queues of the given sizes and the given MTU.
    pub fn with_buffer_size_and_mtu(
        stack_buffer_size: usize,
        udp_buffer_size: usize,
        mtu: u16,
    ) -> (plan: StackPlan)
        ensures
            plan == (StackPlan { shard_id: 0, stack_buffer_size, udp_buffer_size, mtu }),
    {
        StackPlan { shard_id: 0, stack_buffer_size, udp_buffer_size, mtu }
    }

    /// The stack with the number `shard_id`, independent of all others.
    pub fn new_sharded(
        shard_id: usize,
        stack_buffer_size: usize,
        udp_buffer_size: usize,
        mtu: u16,
    ) -> (plan: Result<StackPlan, Error>)
        ensures
            match plan {
                Ok(plan) => shard_id < SHARD_COUNT && plan == (StackPlan {
                    shard_id,
                    stack_buffer_size,
                    udp_buffer_size,
                    mtu,
                }),
                Err(error) => shard_id >= SHARD_COUNT && error.configures(out_of_range(shard_id)),
            },
    {
        if shard_id >= SHARD_COUNT {
            let mut message = "shard ".to_owned();
            append_decimal(&mut message, shard_id as u64);
            message.append(" out of range; this build carries ");
            append_decimal(&mut message, SHARD_COUNT as u64);
            message.append(" stacks");
            return Err(Error::RuntimeConfig(message));
        }
        Ok(StackPlan { shard_id, stack_buffer_size, udp_buffer_size, mtu })
    }

    /// Sets the stack up as planned. `id` is the number by which its stack will know
    /// it, and `timer` the setting for its timer.
    pub fn build<W>(
        plan: StackPlan,
        id: usize,
        timer: RawSetting<'_>,
        shard: &mut ShardState<W>,
        pools: &mut PacketPools,
    ) -> (stack: NetStack)
        requires
            id != 0,
            plan.shard_id == old(shard).id,
            channel::valid_queue_size(plan.stack_buffer_size),
            old(pools).wf(),
            old(pools).next_id < u64::MAX,
        ensures
            stack.stack.wf(*final(pools)),
            stack.stack.id == id,
            stack.stack.shard_id == plan.shard_id,
            stack.stack.mtu == plan.mtu,
            stack.stack.opens_queue(plan.stack_buffer_size),
            stack.stack.sink_buf is None,
            stack.stack.timer_interval_ms == stack_impl::timer_interval_of(timer@),
            *final(shard) == (ShardState { output_cb: id, ..*old(shard) }),
            stack.stack.opens_pool(plan.stack_buffer_size, *old(pools), *final(pools)),
    {
        let stack = NetStackImpl::new_with_mtu(
            id,
            plan.stack_buffer_size,
            plan.mtu,
            timer,
            shard,
            pools,
        );
        NetStack { stack }
    }

    /// Splits the stack into a half that takes packets in and a half that gives
    /// them out, so that the two can be driven by different tasks.
    pub fn split(self) -> (halves: (StackIngress, StackEgress))
        requires
            self.stack.rx is Some,
        ensures
            halves.0.stack == (NetStackImpl { rx: None, ..self.stack }),
            halves.1.rx == self.stack.rx->0,
            halves.1.shard_id == self.stack.shard_id,
    {
        let mut stack = self.stack;
        let rx = stack.take_egress();
        let shard_id: usize = stack.shard_id;
        (StackIngress { stack }, StackEgress { rx, shard_id })
    }
}

/// The half of a stack that takes packets in.
pub struct StackIngress {
    pub stack: NetStackImpl,
}

impl StackIngress {
    /// The frames of a batch that go into the stack, all under one hold of its lock:
    /// those that are not empty, in order.
    pub fn input_batch(&self, items: Vec<Vec<u8>>) -> (frames: Vec<Vec<u8>>)
        ensures
            frames@ == stack_impl::nonempty_frames(items@),
    {
        NetStackImpl::input_batch(items)
    }
}

/// The half of a stack that gives packets out.
pub struct StackEgress {
    pub rx: Receiver<IpPacket>,
    pub shard_id: usize,
}

/// Whether `after` is the packet `before` with the payload appended that it owed.
pub open spec fn finalized(before: IpPacket, payload: Seq<Vec<u8>>, after: IpPacket) -> bool {
    &&& after.tail is None
    &&& after.pool == before.pool
    &&& after.reserved == before.reserved
    &&& after.buffer@ == if before.tail is Some {
        before.buffer@ + tcp_stream_context::flat(payload)
    } else {
        before.buffer@
    }
}

/// Whether the payload for a packet is what the packet owes, as far as sizes tell.
pub open spec fn payload_matches(packet: IpPacket, payload: Seq<Vec<u8>>) -> bool {
    packet.tail matches Some(tail) ==> crate::packet::covers(payload, tail.segs@)
}

/// The leases of the packets from `from` up to `to` that owed payload, in order.
pub open spec fn leases(packets: Seq<IpPacket>, from: int, to: int) -> Seq<PbufLease>
    decreases to - from,
{
    if to <= from {
        Seq::empty()
    } else {
        match packets[to - 1].owed() {
            Some(lease) => leases(packets, from, to - 1).push(lease),
            None => leases(packets, from, to - 1),
        }
    }
}

/// Stack objects have packet pools of their own: setting one up leaves the pool of
/// every other as it is, with all that it keeps and counts.
pub proof fn law_stack_objects_share_no_pool(
    stack: NetStackImpl,
    before: PacketPools,
    other: NetStackImpl,
    buffer_size: usize,
    after: PacketPools,
)
    requires
        stack.wf(before),
        after.wf(),
        other.opens_pool(buffer_size, before, after),
    ensures
        other.output_pool != stack.output_pool,
        after.entry(stack.output_pool) == before.entry(stack.output_pool),
        stack.wf(after),
{
    before.lemma_created(
        other.output_pool,
        stack_impl::clamped(buffer_size as int, 1, stack_impl::OUTPUT_PACKET_CACHE as int),
        stack_impl::OUTPUT_PACKET_MAX_CAPACITY as int,
        after,
        stack.output_pool,
    );
}

impl StackEgress {
    /// Completes a packet that left the egress queue, off the stack's lock, with the
    /// payload that it owed. Returns the lease to park, if it held one.
    pub fn recv(&self, packet: &mut IpPacket, payload: &Vec<Vec<u8>>) -> (lease: Option<PbufLease>)
        requires
            payload_matches(*old(packet), payload@),
        ensures
            finalized(*old(packet), payload@, *final(packet)),
            lease == old(packet).owed(),
    {
        packet.finalize(payload)
    }

    /// Completes the packets from `received_from` on that left the egress queue in
    /// one go. Returns the leases to park.
    pub fn recv_many(
        &self,
        packets: &mut Vec<IpPacket>,
        received_from: usize,
        payloads: &Vec<Vec<Vec<u8>>>,
    ) -> (parked: Vec<PbufLease>)
        requires
            received_from <= old(packets)@.len(),
            payloads@.len() == old(packets)@.len() - received_from,
            forall|i: int|
                received_from <= i < old(packets)@.len() ==> payload_matches(
                    #[trigger] old(packets)@[i],
                    payloads@[i - received_from]@,
                ),
        ensures
            final(packets)@.len() == old(packets)@.len(),
            forall|i: int|
                0 <= i < received_from ==> #[trigger] final(packets)@[i] == old(packets)@[i],
            forall|i: int|
                received_from <= i < final(packets)@.len() ==> finalized(
                    old(packets)@[i],
                    payloads@[i - received_from]@,
                    #[trigger] final(packets)@[i],
                ),
            parked@ == leases(
                old(packets)@,
                received_from as int,
                old(packets)@.len() as int,
            ),
    {
        let ghost before = packets@;
        let mut parked: Vec<PbufLease> = Vec::new();
        let mut i: usize = received_from;
        let count: usize = packets.len();
        while i < count
            invariant
                received_from <= i <= count,
                count == before.len(),
                packets@.len() == before.len(),
                payloads@.len() == before.len() - received_from,
                forall|k: int|
                    received_from <= k < before.len() ==> payload_matches(
                        #[trigger] before[k],
                        payloads@[k - received_from]@,
                    ),
                forall|k: int| 0 <= k < received_from ==> #[trigger] packets@[k] == before[k],
                forall|k: int| i <= k < before.len() ==> #[trigger] packets@[k] == before[k],
                forall|k: int|
                    received_from <= k < i ==> finalized(
                        before[k],
                        payloads@[k - received_from]@,
                        #[trigger] packets@[k],
                    ),
                parked@ == leases(before, received_from as int, i as int),
            decreases count - i,
        {
            let mut packet = packets.remove(i);
            assert(packet == before[i as int]);
            let lease = packet.finalize(&payloads[i - received_from]);
            packets.insert(i, packet);
            if let Some(lease) = lease {
                parked.push(lease);
            }
            i = i + 1;
        }
        parked
    }
}

/// A packet is completed once: completing it again changes nothing and returns no
/// lease a second time.
pub proof fn law_completing_a_packet_is_idempotent(
    before: IpPacket,
    payload: Seq<Vec<u8>>,
    after: IpPacket,
    again: Seq<Vec<u8>>,
    twice: IpPacket,
)
    requires
        finalized(before, payload, after),
        finalized(after, again, twice),
    ensures
        twice.buffer@ == after.buffer@,
        twice.tail is None,
        twice.pool == after.pool,
        leases(seq![after], 0, 1) == Seq::<PbufLease>::empty(),
{
    reveal_with_fuel(leases, 2);
}

/// A lease goes back exactly once: completing a packet returns what it owed, and
/// giving the completed packet up returns nothing more. A packet that is given up
/// before returns what it owed then.
pub proof fn law_a_lease_goes_back_once(
    before: IpPacket,
    payload: Seq<Vec<u8>>,
    after: IpPacket,
)
    requires
        finalized(before, payload, after),
    ensures
        after.owed() is None,
        before.owed() is Some <==> before.tail is Some,
        leases(seq![before, after], 0, 2) == match before.owed() {
            Some(lease) => seq![lease],
            None => Seq::<PbufLease>::empty(),
        },
{
    reveal_with_fuel(leases, 3);
    assert(leases(seq![before, after], 0, 2) =~= match before.owed() {
        Some(lease) => seq![lease],
        None => Seq::<PbufLease>::empty(),
    });
}

/// A completed packet is its headers, followed by exactly the payload that it owed.
pub proof fn law_a_completed_packet_is_headers_then_payload(
    before: IpPacket,
    payload: Seq<Vec<u8>>,
    after: IpPacket,
)
    requires
        before.tail is Some,
        finalized(before, payload, after),
    ensures
        after.buffer@.take(before.buffer@.len() as int) == before.buffer@,
        after.buffer@.skip(before.buffer@.len() as int) == tcp_stream_context::flat(payload),
{
    assert(after.buffer@.take(before.buffer@.len() as int) =~= before.buffer@);
    assert(after.buffer@.skip(before.buffer@.len() as int) =~= tcp_stream_context::flat(payload));
}

} // verus!
