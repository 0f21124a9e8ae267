//! How frames go into a stack, and how they leave it.

use vstd::prelude::*;

use crate::channel;
use crate::channel::{SendAnswer, SendOutcome};
use crate::laws::pools;
use crate::laws::reading;
use crate::output::{output, output_packet, output_settled, OutputAnswer};
use crate::packet::{IpPacket, PacketPools, PayloadExtent, PbufLease, PbufTail};
use crate::shard::ShardState;
use crate::stack::{StackEgress, StackIngress};
use crate::stack_impl;
use crate::stack_impl::{input_owned_packet_locked, InputAction, InputEvent, NetStackImpl};

verus! {

/// No frame of a batch is lost, added or moved: those that are not empty come out, in order.
pub proof fn law_no_frame_of_a_batch_is_lost(items: Vec<Vec<u8>>, frames: Vec<Vec<u8>>)
    requires
        call_ensures(NetStackImpl::input_batch, (items,), frames),
    ensures
        frames@ == items@.filter(|frame: Vec<u8>| frame@.len() > 0),
        (forall|i: int| 0 <= i < items@.len() ==> (#[trigger] items@[i])@.len() > 0) ==> frames@
            == items@,
        forall|i: int|
            0 <= i < items@.len() && (#[trigger] items@[i])@.len() > 0 ==> frames@.contains(
                items@[i],
            ),
        items@.len() == 1 && items@[0]@.len() == 0 ==> frames@ == Seq::<Vec<u8>>::empty(),
{
    let filled = |frame: Vec<u8>| frame@.len() > 0;
    lemma_nonempty_frames(items@, filled);
    assert forall|i: int| 0 <= i < items@.len() && (
    #[trigger] items@[i])@.len() > 0 implies frames@.contains(items@[i]) by {
        broadcast use vstd::seq_lib::group_filter_ensures;
        assert(filled(items@[i]));
    }
    if items@.len() == 1 && items@[0]@.len() == 0 {
        reveal_with_fuel(stack_impl::nonempty_frames, 2);
        assert(items@.drop_last() =~= Seq::empty());
    }
}

/// The frames of two batches, one after the other, are those of the first followed by those
/// of the second.
pub proof fn law_batches_follow_one_another(
    first: Vec<Vec<u8>>,
    second: Vec<Vec<u8>>,
    both: Vec<Vec<u8>>,
    first_frames: Vec<Vec<u8>>,
    second_frames: Vec<Vec<u8>>,
    frames: Vec<Vec<u8>>,
)
    requires
        both@ == first@ + second@,
        call_ensures(NetStackImpl::input_batch, (first,), first_frames),
        call_ensures(NetStackImpl::input_batch, (second,), second_frames),
        call_ensures(NetStackImpl::input_batch, (both,), frames),
    ensures
        frames@ == first_frames@ + second_frames@,
{
    let filled = |frame: Vec<u8>| frame@.len() > 0;
    lemma_nonempty_frames(first@, filled);
    lemma_nonempty_frames(second@, filled);
    lemma_nonempty_frames(both@, filled);
    Seq::filter_distributes_over_add(first@, second@, filled);
}

/// The half of a stack that takes packets in loses no frame of a batch either.
pub proof fn law_no_frame_of_a_batch_is_lost_by_a_half(
    half: StackIngress,
    items: Vec<Vec<u8>>,
    frames: Vec<Vec<u8>>,
)
    requires
        call_ensures(StackIngress::input_batch, (&half, items), frames),
    ensures
        frames@ == items@.filter(|frame: Vec<u8>| frame@.len() > 0),
{
    let filled = |frame: Vec<u8>| frame@.len() > 0;
    lemma_nonempty_frames(items@, filled);
}

/// The frames of a batch are those that pass the test.
proof fn lemma_nonempty_frames(items: Seq<Vec<u8>>, filled: spec_fn(Vec<u8>) -> bool)
    requires
        forall|frame: Vec<u8>| #[trigger] filled(frame) == (frame@.len() > 0),
    ensures
        stack_impl::nonempty_frames(items) == items.filter(filled),
        (forall|i: int| 0 <= i < items.len() ==> (#[trigger] items[i])@.len() > 0)
            ==> items.filter(filled) == items,
    decreases items.len(),
{
    reveal(Seq::filter);
    if items.len() > 0 {
        let shorter = items.drop_last();
        lemma_nonempty_frames(shorter, filled);
        if forall|i: int| 0 <= i < items.len() ==> (#[trigger] items[i])@.len() > 0 {
            assert forall|i: int| 0 <= i < shorter.len() implies (#[trigger] shorter[i])@.len()
                > 0 by {
                assert(items[i]@.len() > 0);
            }
            assert(items[items.len() - 1]@.len() > 0);
            assert(shorter.push(items.last()) =~= items);
        }
    }
}

/// A frame asks for a buffer of its own length where a length of 16 bits can tell it, and is
/// handed to the stack where it got one. Otherwise it fails as a buffer error. The stack owns
/// a frame exactly where it took it, and the answer of the stack is the frame's.
pub proof fn law_a_frame_is_owned_by_stack_or_caller(event: InputEvent, action: InputAction)
    requires
        call_ensures(input_owned_packet_locked, (event,), action),
    ensures
        match event {
            InputEvent::Frame { len } => {
                &&& action is Allocate <==> len <= 65535
                &&& action matches InputAction::Allocate { len: asked } ==> asked == len
                &&& len > 65535 ==> action == (InputAction::Done { code: -2i8, free: false })
            },
            InputEvent::Allocated { present } => {
                &&& action is Submit <==> present
                &&& !present ==> action == (InputAction::Done { code: -2i8, free: false })
            },
            InputEvent::Submitted { code } => {
                &&& action matches InputAction::Done { code: answered, free }
                &&& answered == code
                &&& free <==> code != 0
            },
        },
{
}

/// A frame that the sink holds is the one that is flushed, unless it is empty, and it is
/// flushed once: the sink is ready again then, and has nothing more.
pub proof fn law_the_sink_flushes_what_it_holds_once(
    sink: &mut NetStackImpl,
    item: Vec<u8>,
    held: &mut NetStackImpl,
    frame: Option<Vec<u8>>,
    flushed: &mut NetStackImpl,
    again: Option<Vec<u8>>,
    before: bool,
    after: bool,
)
    requires
        call_ensures(NetStackImpl::start_send, (sink, item), ()),
        *old(held) == *final(sink),
        call_ensures(NetStackImpl::poll_ready, (&*final(sink),), before),
        call_ensures(NetStackImpl::poll_flush, (held,), frame),
        *old(flushed) == *final(held),
        call_ensures(NetStackImpl::poll_ready, (&*final(held),), after),
        call_ensures(NetStackImpl::poll_flush, (flushed,), again),
    ensures
        !before,
        after,
        item@.len() > 0 ==> frame == Some(item),
        item@.len() == 0 ==> frame is None,
        again is None,
        *final(flushed) == (NetStackImpl { sink_buf: None, ..*old(sink) }),
{
}

/// A frame that leaves a stack is handed to the egress queue of the live stack object once,
/// whole, and the code tells what the queue answered. Without such an object it is aborted,
/// and a frame that could not be copied whole is a buffer error; neither touches the queue. A
/// full queue is noted, and no note is lost.
pub proof fn law_a_frame_leaves_whole_or_not_at_all<W>(
    shard: &mut ShardState<W>,
    stack: Option<&mut NetStackImpl>,
    pools: &mut PacketPools,
    tot_len: u16,
    copied: &[u8],
    code: i8,
)
    requires
        old(pools).wf(),
        old(shard).output_cb != 0 ==> stack is Some,
        call_ensures(output::<W>, (shard, stack, pools, tot_len, copied), code),
    ensures
        old(shard).output_cb == 0 ==> code == -13,
        old(shard).output_cb != 0 && copied@.len() != tot_len ==> code == -2,
        old(shard).output_cb == 0 || copied@.len() != tot_len ==> {
            &&& stack is Some ==> *final(stack->0) == *stack->0
            &&& *final(shard) == *old(shard)
        },
        old(shard).output_cb == 0 ==> *final(pools) == *old(pools),
        old(shard).output_cb != 0 && code != 0 ==> pools::passes_through(
            *old(pools),
            stack->0.output_pool,
            tot_len as usize,
            *final(pools),
        ),
        old(shard).output_cb != 0 && copied@.len() == tot_len ==> {
            let before = *stack->0;
            let after = *final(stack->0);
            let answer = channel::egress_sends(after.tx).last();
            let packet = channel::egress_put(after.tx).last();
            &&& after == (NetStackImpl { tx: after.tx, ..before })
            &&& channel::egress_queue(after.tx) == channel::egress_queue(before.tx)
            &&& channel::egress_sends(after.tx) == channel::egress_sends(before.tx).push(answer)
            &&& answer == SendAnswer::Sent <==> code == 0
            &&& answer == SendAnswer::Full <==> code == -1
            &&& answer == SendAnswer::Closed <==> code == -13
            &&& code != 0 ==> channel::egress_put(after.tx) == channel::egress_put(before.tx)
            &&& code == 0 ==> {
                &&& channel::egress_put(after.tx) == channel::egress_put(before.tx).push(packet)
                &&& packet.buffer@ == copied@
                &&& packet.tail is None
                &&& packet.pool == Some(before.output_pool)
                &&& pools::lends(
                    *old(pools),
                    before.output_pool,
                    tot_len as usize,
                    packet.reserved,
                    *final(pools),
                )
            }
            &&& *final(shard) == (ShardState {
                egress_backpressured: old(shard).egress_backpressured || code == -1,
                ..*old(shard)
            })
        },
{
    if old(shard).output_cb != 0 {
        let id = stack->0.output_pool;
        if code == 0 {
            pools::lemma_lends(*old(pools), id, tot_len as usize, *final(pools));
        } else {
            pools::lemma_passes_through(*old(pools), id, tot_len as usize, *final(pools));
        }
    }
}

/// A refused packet returns the lease of what it owed, and one that was sent returns none. A
/// full queue, and only that, is noted.
pub proof fn law_a_refused_packet_returns_its_lease<W>(
    shard: &mut ShardState<W>,
    pools: &mut PacketPools,
    outcome: SendOutcome<IpPacket>,
    answer: OutputAnswer,
)
    requires
        old(pools).wf(),
        call_ensures(output_settled::<W>, (shard, pools, outcome), answer),
    ensures
        answer.code == match outcome {
            SendOutcome::Sent => 0i8,
            SendOutcome::Full(_) => -1i8,
            SendOutcome::Closed(_) => -13i8,
        },
        match outcome {
            SendOutcome::Sent => answer.lease is None,
            SendOutcome::Full(packet) | SendOutcome::Closed(packet) => match packet.tail {
                Some(tail) => answer.lease == Some(tail.lease),
                None => answer.lease is None,
            },
        },
        *final(shard) == (ShardState {
            egress_backpressured: old(shard).egress_backpressured || outcome is Full,
            ..*old(shard)
        }),
        match outcome {
            SendOutcome::Sent => *final(pools) == *old(pools),
            SendOutcome::Full(packet) | SendOutcome::Closed(packet) => pools::gets_back(
                *old(pools),
                packet,
                *final(pools),
            ),
        },
{
    match outcome {
        SendOutcome::Sent => {},
        SendOutcome::Full(packet) | SendOutcome::Closed(packet) => {
            pools::lemma_gets_back(*old(pools), packet, *final(pools));
        },
    }
}

/// The packet for a frame holds the whole frame, and comes from the pool of its stack object.
pub proof fn law_an_output_packet_holds_the_whole_frame(
    stack: NetStackImpl,
    pools: &mut PacketPools,
    tot_len: u16,
    copied: &[u8],
    packet: Result<IpPacket, i8>,
)
    requires
        old(pools).wf(),
        call_ensures(output_packet, (&stack, pools, tot_len, copied), packet),
    ensures
        packet is Ok <==> copied@.len() == tot_len,
        packet matches Err(code) ==> code == -2,
        packet matches Ok(packet) ==> {
            &&& packet.buffer@ == copied@
            &&& packet.tail is None
            &&& packet.pool == Some(stack.output_pool)
            &&& pools::lends(
                *old(pools),
                stack.output_pool,
                tot_len as usize,
                packet.reserved,
                *final(pools),
            )
        },
        packet is Err ==> pools::passes_through(
            *old(pools),
            stack.output_pool,
            tot_len as usize,
            *final(pools),
        ),
{
    if packet is Ok {
        pools::lemma_lends(*old(pools), stack.output_pool, tot_len as usize, *final(pools));
    } else {
        pools::lemma_passes_through(
            *old(pools),
            stack.output_pool,
            tot_len as usize,
            *final(pools),
        );
    }
}

/// Whether `after` is the packet `before`, completed by `payload`: its own bytes, then all of
/// the payload where it owed any.
pub open spec fn completes(before: IpPacket, payload: Seq<Vec<u8>>, after: IpPacket) -> bool {
    &&& after.tail is None
    &&& after.pool == before.pool
    &&& after.reserved == before.reserved
    &&& after.buffer@ == if before.tail is Some {
        before.buffer@ + payload.map_values(|part: Vec<u8>| part@).flatten()
    } else {
        before.buffer@
    }
}

/// A packet is completed with all the payload that it owed, behind its own bytes, and its
/// lease is returned. Completing it again changes nothing and returns no lease.
pub proof fn law_a_packet_is_completed_once(
    half: StackEgress,
    packet: &mut IpPacket,
    payload: Vec<Vec<u8>>,
    lease: Option<PbufLease>,
    again: &mut IpPacket,
    more: Vec<Vec<u8>>,
    lease_again: Option<PbufLease>,
)
    requires
        call_ensures(StackEgress::recv, (&half, packet, &payload), lease),
        *old(again) == *final(packet),
        call_ensures(IpPacket::finalize, (again, &more), lease_again),
    ensures
        completes(*old(packet), payload@, *final(packet)),
        lease is Some <==> old(packet).tail is Some,
        lease matches Some(lease) ==> lease == old(packet).tail->0.lease,
        lease_again is None,
        *final(again) == *final(packet),
{
    reading::lemma_bytes_of(payload@);
}

/// Completing a packet in place appends all the payload that it owed.
pub proof fn law_completing_appends_the_payload(
    packet: &mut IpPacket,
    payload: Vec<Vec<u8>>,
    lease: Option<PbufLease>,
)
    requires
        call_ensures(IpPacket::finalize, (packet, &payload), lease),
    ensures
        completes(*old(packet), payload@, *final(packet)),
        lease == match old(packet).tail {
            Some(tail) => Some(tail.lease),
            None => None,
        },
{
    reading::lemma_bytes_of(payload@);
}

/// Packets that left the queue in one go are completed one by one, each with its own payload,
/// and those that were there before stay as they are. The leases are those of the packets that
/// owed payload, in order.
pub proof fn law_packets_are_completed_one_by_one(
    half: StackEgress,
    packets: &mut Vec<IpPacket>,
    received_from: usize,
    payloads: Vec<Vec<Vec<u8>>>,
    parked: Vec<PbufLease>,
)
    requires
        received_from <= old(packets)@.len(),
        call_ensures(
            StackEgress::recv_many,
            (&half, packets, received_from, &payloads),
            parked,
        ),
    ensures
        final(packets)@.len() == old(packets)@.len(),
        final(packets)@.take(received_from as int) == old(packets)@.take(received_from as int),
        forall|i: int|
            received_from <= i < old(packets)@.len() ==> completes(
                old(packets)@[i],
                payloads@[i - received_from]@,
                #[trigger] final(packets)@[i],
            ),
        parked@ == old(packets)@.skip(received_from as int).filter_map(
            |packet: IpPacket|
                match packet.tail {
                    Some(tail) => Some(tail.lease),
                    None => None,
                },
        ),
{
    assert(final(packets)@.take(received_from as int) =~= old(packets)@.take(
        received_from as int,
    ));
    assert forall|i: int| received_from <= i < old(packets)@.len() implies completes(
        old(packets)@[i],
        payloads@[i - received_from]@,
        #[trigger] final(packets)@[i],
    ) by {
        reading::lemma_bytes_of(payloads@[i - received_from]@);
    }
    let owed = |packet: IpPacket|
        match packet.tail {
            Some(tail) => Some(tail.lease),
            None => None,
        };
    lemma_leases(
        old(packets)@,
        received_from as int,
        old(packets)@.len() as int,
        owed,
    );
    assert(old(packets)@.subrange(received_from as int, old(packets)@.len() as int)
        =~= old(packets)@.skip(received_from as int));
}

/// The leases of packets are those of the packets that owe payload.
proof fn lemma_leases(
    packets: Seq<IpPacket>,
    from: int,
    to: int,
    owed: spec_fn(IpPacket) -> Option<PbufLease>,
)
    requires
        0 <= from <= to <= packets.len(),
        forall|packet: IpPacket| #[trigger] owed(packet) == packet.owed(),
    ensures
        crate::stack::leases(packets, from, to) == packets.subrange(from, to).filter_map(owed),
    decreases to - from,
{
    reveal(Seq::filter_map);
    let part = packets.subrange(from, to);
    if from < to {
        lemma_leases(packets, from, to - 1, owed);
        assert(part.drop_last() =~= packets.subrange(from, to - 1));
        assert(part.last() == packets[to - 1]);
        assert(owed(packets[to - 1]) == packets[to - 1].owed());
        assert(crate::stack::leases(packets, from, to) =~= part.filter_map(owed));
    } else {
        assert(crate::stack::leases(packets, from, to) =~= part.filter_map(owed));
    }
}

/// Appending puts all the bytes behind those that were there, and changes nothing else.
pub proof fn law_appending_puts_all_bytes_behind(packet: &mut IpPacket, data: &[u8])
    requires
        call_ensures(IpPacket::extend, (packet, data), ()),
    ensures
        final(packet).buffer@ == old(packet).buffer@ + data@,
        final(packet).reserved == old(packet).reserved,
        final(packet).pool == old(packet).pool,
        final(packet).tail == old(packet).tail,
{
}

/// What is attached to a packet is what giving it up returns, once.
pub proof fn law_attached_payload_is_given_up_once(
    packet: &mut IpPacket,
    tail: PbufTail,
    attached: &mut IpPacket,
    chain: Option<usize>,
    given_up: &mut IpPacket,
    again: Option<usize>,
)
    requires
        call_ensures(IpPacket::set_tail, (packet, tail), ()),
        *old(attached) == *final(packet),
        call_ensures(IpPacket::drop_tail_for_immediate_free, (attached,), chain),
        *old(given_up) == *final(attached),
        call_ensures(IpPacket::drop_tail_for_immediate_free, (given_up,), again),
    ensures
        chain == Some(tail.lease.chain),
        again is None,
        final(given_up).buffer == old(packet).buffer,
        final(given_up).tail is None,
{
}

/// A packet that is made of bytes holds them, and belongs to no pool. Its length and its bytes
/// are those.
pub proof fn law_a_packet_of_bytes_holds_them(
    buffer: Vec<u8>,
    packet: IpPacket,
    bytes: &[u8],
    len: usize,
    empty: bool,
)
    requires
        call_ensures(<IpPacket as From<Vec<u8>>>::from, (buffer,), packet),
        call_ensures(IpPacket::as_ref, (&packet,), bytes),
        call_ensures(IpPacket::len, (&packet,), len),
        call_ensures(IpPacket::is_empty, (&packet,), empty),
    ensures
        packet.buffer == buffer,
        packet.reserved == 0 && packet.pool is None && packet.tail is None,
        bytes@ == buffer@,
        len == buffer@.len(),
        empty <==> buffer@.len() == 0,
{
}

/// Payload that is owed lies where it was said to lie, and is kept alive by its chain.
pub proof fn law_owed_payload_is_kept_alive_by_its_chain(
    chain: usize,
    shard_id: usize,
    segs: Vec<PayloadExtent>,
    tail: PbufTail,
    given_up: usize,
)
    requires
        call_ensures(PbufTail::new, (chain, shard_id, segs), tail),
        call_ensures(PbufTail::into_chain, (tail,), given_up),
    ensures
        tail.segs == segs,
        tail.lease.chain == chain,
        tail.lease.shard_id == shard_id,
        given_up == chain,
{
}

} // verus!
