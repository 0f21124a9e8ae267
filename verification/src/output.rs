//! The way out of a stack: its packets go into the egress queue of the live stack
//! object.

use vstd::prelude::*;

use crate::channel;
use crate::channel::{egress_try_send, SendAnswer, SendOutcome};
use crate::err::{ERR_ABRT, ERR_BUF, ERR_MEM, ERR_OK};
use crate::packet::{IpPacket, PacketPools, PbufLease};
use crate::shard::{ShardState, Shards, SHARD_COUNT};
use crate::stack_impl::NetStackImpl;

verus! {

/// What the output hook answers: the code for the stack, and the lease of payload
/// that a refused packet owed, which is free to go back at once.
#[derive(Clone, Copy, Debug, PartialEq, Eq, Structural)]
pub struct OutputAnswer {
    pub code: i8,
    pub lease: Option<PbufLease>,
}

/// The packet for a frame of `tot_len` bytes of which `copied` could be copied
/// out. A short copy is an error.
pub fn output_packet(
    stack: &NetStackImpl,
    pools: &mut PacketPools,
    tot_len: u16,
    copied: &[u8],
) -> (packet: Result<IpPacket, i8>)
    requires
        stack.wf(*old(pools)),
    ensures
        final(pools).wf(),
        match packet {
            Ok(packet) => {
                &&& copied@.len() == tot_len
                &&& packet.buffer@ == copied@
                &&& packet.pool == Some(stack.output_pool)
                &&& packet.tail is None
                &&& packet.reserved == old(pools).room(stack.output_pool, tot_len as usize)
                &&& old(pools).acquired(stack.output_pool, *final(pools))
            },
            Err(code) => {
                &&& copied@.len() != tot_len
                &&& code == ERR_BUF
                &&& old(pools).bounced(stack.output_pool, tot_len as usize, *final(pools))
            },
        },
{
    let mut packet = pools.acquire(stack.output_pool, tot_len as usize).unwrap();
    if copied.len() != tot_len as usize {
        let ghost before = *pools;
        let ghost dropped = packet;
        let _ = pools.release(packet);
        proof {
            old(pools).lemma_bounced(
                stack.output_pool,
                tot_len as usize,
                before,
                dropped,
                *pools,
            );
        }
        return Err(ERR_BUF);
    }
    packet.extend(copied);
    assert(packet.buffer@ =~= copied@);
    Ok(packet)
}

/// Settles an attempt to put a packet into the egress queue. A full queue is
/// noted, so that output is retried when it drains. A packet that was refused goes
/// back to its pool.
pub fn output_settled<W>(
    shard: &mut ShardState<W>,
    pools: &mut PacketPools,
    outcome: SendOutcome<IpPacket>,
) -> (answer: OutputAnswer)
    requires
        old(pools).wf(),
    ensures
        final(pools).wf(),
        match outcome {
            SendOutcome::Sent => {
                &&& answer == (OutputAnswer { code: ERR_OK, lease: None })
                &&& *final(shard) == *old(shard)
                &&& *final(pools) == *old(pools)
            },
            SendOutcome::Full(packet) => {
                &&& answer.code == ERR_MEM
                &&& answer.lease == packet.owed()
                &&& *final(shard) == (ShardState { egress_backpressured: true, ..*old(shard) })
                &&& old(pools).released(packet, *final(pools))
            },
            SendOutcome::Closed(packet) => {
                &&& answer.code == ERR_ABRT
                &&& answer.lease == packet.owed()
                &&& *final(shard) == *old(shard)
                &&& old(pools).released(packet, *final(pools))
            },
        },
{
    match outcome {
        SendOutcome::Sent => OutputAnswer { code: ERR_OK, lease: None },
        SendOutcome::Full(packet) => {
            shard.mark_egress_backpressured();
            let lease = pools.release(packet);
            OutputAnswer { code: ERR_MEM, lease }
        },
        SendOutcome::Closed(packet) => {
            let lease = pools.release(packet);
            OutputAnswer { code: ERR_ABRT, lease }
        },
    }
}

/// What an output that came to `code` does to the state of the stack: a full egress
/// queue is noted, and a note that was there stays.
pub open spec fn output_noted<W>(before: ShardState<W>, code: i8, after: ShardState<W>) -> bool {
    after == (ShardState {
        egress_backpressured: before.egress_backpressured || code == ERR_MEM,
        ..before
    })
}

/// A refused packet is not forgotten: after any run of outputs, one of which met a
/// full egress queue, the stack knows that output is to be retried.
pub proof fn law_a_full_queue_is_remembered<W>(states: Seq<ShardState<W>>, codes: Seq<i8>)
    requires
        states.len() == codes.len() + 1,
        forall|i: int|
            0 <= i < codes.len() ==> #[trigger] output_noted(states[i], codes[i], states[i + 1]),
    ensures
        states.last().egress_backpressured == (states[0].egress_backpressured || codes.contains(
            ERR_MEM,
        )),
    decreases codes.len(),
{
    if codes.len() > 0 {
        let n = codes.len() as int;
        let earlier = codes.drop_last();
        assert forall|i: int| 0 <= i < earlier.len() implies #[trigger] output_noted(
            states.drop_last()[i],
            earlier[i],
            states.drop_last()[i + 1],
        ) by {
            assert(output_noted(states[i], codes[i], states[i + 1]));
        }
        law_a_full_queue_is_remembered(states.drop_last(), earlier);
        assert(output_noted(states[n - 1], codes[n - 1], states[n - 1 + 1]));
        if earlier.contains(ERR_MEM) {
            let i = choose|i: int| 0 <= i < earlier.len() && earlier[i] == ERR_MEM;
            assert(codes[i] == ERR_MEM);
        }
        if codes.contains(ERR_MEM) && codes[n - 1] != ERR_MEM {
            let i = choose|i: int| 0 <= i < codes.len() && codes[i] == ERR_MEM;
            assert(earlier[i] == ERR_MEM);
        }
    }
}

/// The code for the stack where the egress queue gave an answer.
pub open spec fn answer_code(answer: SendAnswer) -> i8 {
    match answer {
        SendAnswer::Sent => ERR_OK,
        SendAnswer::Full => ERR_MEM,
        SendAnswer::Closed => ERR_ABRT,
    }
}

/// What the output of a frame that came to `code` does to the stack object: the frame
/// is handed to the egress queue once, whose answer the code tells. It is there, as
/// one packet at the end, where it went well, and otherwise nothing is.
pub open spec fn emitted(
    before: NetStackImpl,
    frame: Seq<u8>,
    code: i8,
    after: NetStackImpl,
) -> bool {
    let put = channel::egress_put(after.tx);
    let sends = channel::egress_sends(after.tx);
    &&& after == (NetStackImpl { tx: after.tx, ..before })
    &&& sends == channel::egress_sends(before.tx).push(sends.last())
    &&& code == answer_code(sends.last())
    &&& channel::egress_queue(after.tx) == channel::egress_queue(before.tx)
    &&& channel::egress_limit(after.tx) == channel::egress_limit(before.tx)
    &&& if code == ERR_OK {
        &&& put == channel::egress_put(before.tx).push(put.last())
        &&& put.last().buffer@ == frame
        &&& put.last().tail is None
        &&& put.last().pool == Some(before.output_pool)
    } else {
        put == channel::egress_put(before.tx)
    }
}

/// The bytes of packets.
pub open spec fn packet_bytes(packets: Seq<IpPacket>) -> Seq<Seq<u8>> {
    packets.map_values(|packet: IpPacket| packet.buffer@)
}

/// The frames whose output went well, in order.
pub open spec fn accepted(frames: Seq<Seq<u8>>, codes: Seq<i8>) -> Seq<Seq<u8>>
    decreases frames.len(),
{
    if frames.len() == 0 {
        Seq::empty()
    } else if codes.last() == ERR_OK {
        accepted(frames.drop_last(), codes.drop_last()).push(frames.last())
    } else {
        accepted(frames.drop_last(), codes.drop_last())
    }
}

/// Frames leave whole and in order, behind those that left before: after any run of
/// outputs the egress queue has been given exactly the frames whose output went well.
pub proof fn law_frames_leave_whole_and_in_order(
    stacks: Seq<NetStackImpl>,
    frames: Seq<Seq<u8>>,
    codes: Seq<i8>,
)
    requires
        stacks.len() == frames.len() + 1,
        codes.len() == frames.len(),
        forall|i: int|
            0 <= i < frames.len() ==> #[trigger] emitted(
                stacks[i],
                frames[i],
                codes[i],
                stacks[i + 1],
            ),
    ensures
        packet_bytes(channel::egress_put(stacks.last().tx)) == packet_bytes(
            channel::egress_put(stacks[0].tx),
        ) + accepted(frames, codes),
        channel::egress_queue(stacks.last().tx) == channel::egress_queue(stacks[0].tx),
    decreases frames.len(),
{
    let n = frames.len() as int;
    let start = packet_bytes(channel::egress_put(stacks[0].tx));
    if n == 0 {
        assert(start =~= start + accepted(frames, codes));
    } else {
        assert forall|i: int| 0 <= i < n - 1 implies #[trigger] emitted(
            stacks.drop_last()[i],
            frames.drop_last()[i],
            codes.drop_last()[i],
            stacks.drop_last()[i + 1],
        ) by {
            assert(emitted(stacks[i], frames[i], codes[i], stacks[i + 1]));
        }
        law_frames_leave_whole_and_in_order(
            stacks.drop_last(),
            frames.drop_last(),
            codes.drop_last(),
        );
        assert(emitted(stacks[n - 1], frames[n - 1], codes[n - 1], stacks[n - 1 + 1]));
        let before = channel::egress_put(stacks[n - 1].tx);
        let after = channel::egress_put(stacks[n].tx);
        if codes[n - 1] == ERR_OK {
            assert(packet_bytes(after) =~= packet_bytes(before).push(frames[n - 1]));
        }
        assert(packet_bytes(after) =~= start + accepted(frames, codes));
    }
}

/// What one stack puts out stays its own: a frame that leaves it changes no other
/// stack, neither its streams, its output and the note of a full queue, nor the pool
/// of the object that drives it. The frame is in the egress queue of the stack that it
/// left, or in none.
pub proof fn law_stacks_put_out_independently<W>(
    shards: Shards<W>,
    shards_after: Shards<W>,
    stack: NetStackImpl,
    frame: Seq<u8>,
    code: i8,
    stack_after: NetStackImpl,
    other: NetStackImpl,
    pools: PacketPools,
    pools_after: PacketPools,
)
    requires
        shards.wf(),
        stack.shard_id < SHARD_COUNT,
        other.shard_id < SHARD_COUNT,
        stack.shard_id != other.shard_id,
        stack.wf(pools),
        other.wf(pools),
        stack.output_pool != other.output_pool,
        pools_after.wf(),
        emitted(stack, frame, code, stack_after),
        pools.acquired(stack.output_pool, pools_after) || pools.bounced(
            stack.output_pool,
            frame.len() as usize,
            pools_after,
        ),
        ({
            let id = stack.shard_id as int;
            &&& shards_after.shards@ == shards.shards@.update(id, shards_after.shards@[id])
            &&& output_noted(shards.shards@[id], code, shards_after.shards@[id])
        }),
    ensures
        shards_after.wf(),
        shards_after.shards@[other.shard_id as int] == shards.shards@[other.shard_id as int],
        pools_after.entry(other.output_pool) == pools.entry(other.output_pool),
        other.wf(pools_after),
        channel::egress_queue(stack_after.tx) == channel::egress_queue(stack.tx),
        code != ERR_OK ==> channel::egress_put(stack_after.tx) == channel::egress_put(stack.tx),
{
    let id = stack.output_pool;
    pools.lemma_others(id, pools_after.entry(id), pools_after, other.output_pool);
}

/// The output hook of a stack: a frame of `tot_len` bytes, of which `copied` could
/// be copied out, leaves through the live stack object.
pub fn output<W>(
    shard: &mut ShardState<W>,
    stack: Option<&mut NetStackImpl>,
    pools: &mut PacketPools,
    tot_len: u16,
    copied: &[u8],
) -> (code: i8)
    requires
        old(pools).wf(),
        old(shard).output_cb != 0 ==> (stack matches Some(stack) && stack.id == old(shard).output_cb
            && stack.wf(*old(pools))),
    ensures
        final(pools).wf(),
        if old(shard).output_cb == 0 {
            &&& code == ERR_ABRT
            &&& *final(shard) == *old(shard)
            &&& *final(pools) == *old(pools)
            &&& stack matches Some(stack) ==> *final(stack) == *stack
        } else if copied@.len() != tot_len {
            &&& code == ERR_BUF
            &&& *final(shard) == *old(shard)
            &&& *final(stack->0) == *stack->0
            &&& old(pools).bounced(stack->0.output_pool, tot_len as usize, *final(pools))
        } else {
            &&& emitted(*stack->0, copied@, code, *final(stack->0))
            &&& if code == ERR_OK {
                let packet = channel::egress_put(final(stack->0).tx).last();
                &&& packet.reserved == old(pools).room(stack->0.output_pool, tot_len as usize)
                &&& old(pools).acquired(stack->0.output_pool, *final(pools))
            } else {
                old(pools).bounced(stack->0.output_pool, tot_len as usize, *final(pools))
            }
            &&& output_noted(*old(shard), code, *final(shard))
        },
{
    if shard.output_cb == 0 {
        return ERR_ABRT;
    }
    let stack = stack.unwrap();
    match output_packet(stack, pools, tot_len, copied) {
        Err(code) => code,
        Ok(packet) => {
            let ghost before = *pools;
            let ghost sent = packet;
            let outcome = egress_try_send(&mut stack.tx, packet);
            let code: i8 = output_settled(shard, pools, outcome).code;
            proof {
                if code != ERR_OK {
                    old(pools).lemma_bounced(
                        stack.output_pool,
                        tot_len as usize,
                        before,
                        sent,
                        *pools,
                    );
                }
            }
            code
        },
    }
}

} // verus!
