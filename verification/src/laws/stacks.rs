//! What stacks have, each for itself and together.

use tokio::sync::mpsc::{Receiver, WeakSender};
use vstd::prelude::*;

use crate::addr::{IpAddr, SocketAddr};
use crate::channel;
use crate::counter;
use crate::counter::{counter_add, counter_sub};
use crate::err;
use crate::error::Error;
use crate::io::{ErrorKind, IoError};
use crate::laws::pools;
use crate::laws::reading;
use crate::mutex::AtomicMutexErr;
use crate::packet::{
    queue_contents, queue_limit, IpPacket, PacketPoolStats, PacketPools, PacketPoolsRuntimeStats,
    PbufLease,
};
use crate::pbuf_pool::{
    capacity_answer, configure_pbuf_pool_capacity, pbuf_pool_runtime_stats,
    pbuf_pool_runtime_stats_sharded, PbufPoolRuntimeStats,
};
use crate::shard;
use crate::shard::{shard_count, tcp_runtime_stats, ShardState, Shards};
use crate::stack::{NetStack, StackEgress, StackIngress, StackPlan};
use crate::stack_impl;
use crate::stack_impl::{send_queue_fits, timer_interval, NetStackImpl};
use crate::tcp_stream_context::{ActiveTcpStream, QueuedPbuf, TcpContexts, TcpRuntimeStats};
use crate::tcp_stream_impl::TcpStreamImpl;
use crate::text;
use crate::text::RawSetting;
use crate::udp::{egress_closed, udp_runtime_stats, UdpRuntimeStats, UdpSocket};

verus! {

/// A counter shows what was added and not subtracted, as far as it goes: what is added and then
/// subtracted leaves it where it was.
pub proof fn law_a_counter_shows_the_balance(
    n: usize,
    counter: &mut usize,
    later: &mut usize,
)
    requires
        call_ensures(counter_add, (counter, n), ()),
        *old(later) == *final(counter),
        call_ensures(counter_sub, (later, n), ()),
    ensures
        *final(counter) == (*old(counter) + n) % (usize::MAX + 1),
        *old(counter) + n <= usize::MAX ==> *final(counter) == *old(counter) + n,
        *old(counter) + n > usize::MAX ==> *final(counter) == *old(counter) + n - usize::MAX - 1,
        *final(later) == *old(counter),
{
    let before = *old(counter) as int;
    counter::lemma_wrapped_shift(before + n, -(n as int));
    counter::lemma_wrapped_small(before);
    if before + n <= usize::MAX {
        counter::lemma_wrapped_small(before + n);
    } else {
        vstd::arithmetic::div_mod::lemma_mod_multiples_vanish(
            1,
            before + n - usize::MAX - 1,
            usize::MAX + 1,
        );
        counter::lemma_wrapped_small(before + n - usize::MAX - 1);
    }
}

/// A chain that is taken over counts for one and for its bytes, and discounting it takes the
/// same off again.
pub proof fn law_a_chain_counts_from_start_to_end(
    head: usize,
    nodes: Vec<Vec<u8>>,
    stats: &mut TcpRuntimeStats,
    chain: QueuedPbuf,
    later: &mut TcpRuntimeStats,
)
    requires
        call_ensures(QueuedPbuf::new, (head, nodes, stats), chain),
        *old(later) == *final(stats),
        call_ensures(QueuedPbuf::discount, (&chain, later), ()),
    ensures
        chain.head == head,
        chain.nodes == nodes,
        chain.bytes == reading::bytes_of(nodes@).len(),
        final(stats).active_streams == old(stats).active_streams,
        final(stats).queued_packets == (old(stats).queued_packets + 1) % (usize::MAX + 1),
        final(stats).queued_bytes == (old(stats).queued_bytes + chain.bytes) % (usize::MAX + 1),
        *final(later) == *old(stats),
{
    reading::lemma_bytes_of(nodes@);
    counter::lemma_wrapped_shift(old(stats).queued_packets + 1, 0);
    counter::lemma_wrapped_shift(old(stats).queued_bytes + chain.bytes, 0);
    crate::tcp_stream_context::lemma_shifted_twice(
        *old(stats),
        1,
        chain.bytes as int,
        -1,
        -(chain.bytes as int),
    );
    crate::tcp_stream_context::lemma_shifted_zero(*old(stats));
}

/// A stream counts as open from start to end, and touches no other counter.
pub proof fn law_a_stream_counts_from_start_to_end(
    stats: &mut TcpRuntimeStats,
    active: ActiveTcpStream,
    later: &mut TcpRuntimeStats,
)
    requires
        call_ensures(ActiveTcpStream::new, (stats,), active),
        *old(later) == *final(stats),
        call_ensures(ActiveTcpStream::release, (active, later), ()),
    ensures
        final(stats).active_streams == (old(stats).active_streams + 1) % (usize::MAX + 1),
        final(stats).queued_packets == old(stats).queued_packets,
        final(stats).queued_bytes == old(stats).queued_bytes,
        *final(later) == *old(stats),
{
    let before = old(stats).active_streams as int;
    counter::lemma_wrapped_shift(before + 1, 0);
    counter::lemma_wrapped_shift(before + 1, -1);
    counter::lemma_wrapped_small(before);
}

/// A new stream has nothing received, nothing owed and nobody waiting, counts as open, and
/// leaves every other stream as it is.
pub proof fn law_a_new_stream_begins_with_nothing<W>(
    pcb: usize,
    id: u64,
    shard_id: usize,
    remote: SocketAddr,
    local: SocketAddr,
    table: &mut TcpContexts<W>,
    stats: &mut TcpRuntimeStats,
    stream: TcpStreamImpl,
    local_addr: SocketAddr,
    remote_addr: SocketAddr,
)
    requires
        call_ensures(
            TcpStreamImpl::new::<W>,
            (pcb, id, shard_id, remote, local, table, stats),
            stream,
        ),
        call_ensures(TcpStreamImpl::local_addr, (&stream,), local_addr),
        call_ensures(TcpStreamImpl::remote_addr, (&stream,), remote_addr),
    ensures
        local_addr == remote,
        remote_addr == local,
        stream.pcb == pcb && stream.ctx == id && stream.shard_id == shard_id,
        stream.reader.spent@.len() == 0 && stream.reader.pending_recved == 0,
        ({
            let ctx = final(table).contexts@[id];
            &&& final(table).contexts@ == old(table).contexts@.insert(id, ctx)
            &&& reading::claimed_chains(stream.reader) + ctx.read_queue@ == Seq::<
                QueuedPbuf,
            >::empty()
            &&& ctx.local_addr == remote
            &&& ctx.read_waker is None && ctx.write_waker is None
            &&& !ctx.read_eof && !ctx.errored && !ctx.closed && !ctx.pressure_parked
        }),
        final(table).parked@ == old(table).parked@,
        final(stats).active_streams == (old(stats).active_streams + 1) % (usize::MAX + 1),
        final(stats).queued_packets == old(stats).queued_packets,
        final(stats).queued_bytes == old(stats).queued_bytes,
{
    counter::lemma_wrapped_shift(old(stats).active_streams + 1, 0);
    let ctx = final(table).contexts@[id];
    assert(reading::claimed_chains(stream.reader) + ctx.read_queue@
        =~= crate::tcp_stream_impl::holding(stream.reader, ctx));
}

/// A context is added under a key that is free, and the table stays as it is where it is not.
pub proof fn law_a_key_has_one_context<W>(
    table: &mut TcpContexts<W>,
    id: u64,
    addr: SocketAddr,
    added: bool,
    len: usize,
)
    requires
        call_ensures(TcpContexts::<W>::register, (table, id, addr), added),
        call_ensures(TcpContexts::<W>::pressure_queue_len_locked, (&*old(table),), len),
    ensures
        added <==> !old(table).contexts@.contains_key(id),
        !added ==> final(table).contexts@ == old(table).contexts@,
        added ==> {
            let ctx = final(table).contexts@[id];
            &&& final(table).contexts@ == old(table).contexts@.insert(id, ctx)
            &&& ctx.local_addr == addr
            &&& ctx.read_queue@.len() == 0
            &&& ctx.read_waker is None && ctx.write_waker is None
            &&& !ctx.read_eof && !ctx.errored && !ctx.closed && !ctx.pressure_parked
        },
        final(table).parked@ == old(table).parked@,
        len == old(table).parked@.len(),
{
}

/// A stack is to be initialized the first time, and never again.
pub proof fn law_a_stack_is_initialized_once<W>(
    shard: &mut ShardState<W>,
    first: bool,
    later: &mut ShardState<W>,
    second: bool,
)
    requires
        call_ensures(ShardState::<W>::latch_init, (shard,), first),
        *old(later) == *final(shard),
        call_ensures(ShardState::<W>::latch_init, (later,), second),
    ensures
        first <==> !old(shard).initialized,
        !second,
        *final(later) == (ShardState { initialized: true, ..*old(shard) }),
{
}

/// A chain that is parked comes out when the chains are next taken, behind those that were
/// parked before, and once.
pub proof fn law_a_parked_chain_comes_out_once<W>(
    shard: &mut ShardState<W>,
    chain: usize,
    later: &mut ShardState<W>,
    chains: Vec<usize>,
    last: &mut ShardState<W>,
    more: Vec<usize>,
)
    requires
        call_ensures(ShardState::<W>::park_pbuf_lease, (shard, chain), ()),
        *old(later) == *final(shard),
        call_ensures(ShardState::<W>::drain_pbuf_leases, (later,), chains),
        *old(last) == *final(later),
        call_ensures(ShardState::<W>::drain_pbuf_leases, (last,), more),
    ensures
        chains@ == old(shard).pbuf_leases@ + seq![chain],
        more@.len() == 0,
        *final(last) == (ShardState { pbuf_leases: final(last).pbuf_leases, ..*old(shard) }),
{
    assert(old(shard).pbuf_leases@.push(chain) =~= old(shard).pbuf_leases@ + seq![chain]);
}

/// A full egress queue that was noted is retried once, and a retry failed exactly where it did
/// not go well and met no full queue.
pub proof fn law_a_noted_queue_is_retried_once<W>(
    shard: &mut ShardState<W>,
    noted: &mut ShardState<W>,
    retry: bool,
    taken: &mut ShardState<W>,
    again: bool,
    code: i8,
    failed: bool,
)
    requires
        call_ensures(ShardState::<W>::mark_egress_backpressured, (shard,), ()),
        *old(noted) == *final(shard),
        call_ensures(ShardState::<W>::take_backpressure, (noted,), retry),
        *old(taken) == *final(noted),
        call_ensures(ShardState::<W>::take_backpressure, (taken,), again),
        call_ensures(ShardState::<W>::retry_failed, (&*old(shard), code), failed),
    ensures
        retry,
        !again,
        *final(taken) == (ShardState { egress_backpressured: false, ..*old(shard) }),
        failed <==> code != 0 && !old(shard).egress_backpressured,
{
}

/// The output of a stack goes to the object that took it last. Clearing it for another object
/// leaves it there, and clearing it for that one leaves none.
pub proof fn law_output_goes_to_the_last_object<W>(
    shard: &mut ShardState<W>,
    object: usize,
    taken: &mut ShardState<W>,
    cleared_for: usize,
    switched: &mut ShardState<W>,
    enabled: bool,
)
    requires
        call_ensures(ShardState::<W>::set_output_hook, (shard, object), ()),
        *old(taken) == *final(shard),
        call_ensures(ShardState::<W>::clear_output_hook, (taken, cleared_for), ()),
        call_ensures(ShardState::<W>::set_tcp_tx_partial_checksum, (switched, enabled), ()),
    ensures
        final(shard).output_cb == object,
        cleared_for != object ==> *final(taken) == *final(shard),
        cleared_for == object ==> *final(taken) == (ShardState { output_cb: 0, ..*old(shard) }),
        *final(switched) == (ShardState { tcp_tx_partial_checksum: enabled, ..*old(switched) }),
{
}

/// There are four stacks, each under its number, and none has been used.
pub proof fn law_there_are_four_unused_stacks<W>(all: Shards<W>, count: usize, i: int)
    requires
        call_ensures(Shards::<W>::new, (), all),
        call_ensures(shard_count, (), count),
        0 <= i < 4,
    ensures
        count == 4,
        all.shards@.len() == 4,
        ({
            let shard = all.shards@[i];
            &&& shard.id == i
            &&& !shard.initialized && !shard.egress_backpressured
            &&& shard.output_cb == 0 && !shard.tcp_tx_partial_checksum
            &&& shard.pbuf_leases@.len() == 0
            &&& shard.tcp.contexts@.dom() == Set::<u64>::empty()
            &&& shard.tcp.parked@.len() == 0
            &&& shard.tcp_stats.active_streams == 0
            &&& shard.tcp_stats.queued_packets == 0
            &&& shard.tcp_stats.queued_bytes == 0
        }),
{
    assert(all.shards@[i].id == i);
}

/// A stack is found exactly where there is one with that number, and the first is the primary
/// one.
pub proof fn law_a_stack_is_found_by_its_number<W>(
    all: Shards<W>,
    id: usize,
    found: Option<&ShardState<W>>,
    primary: &ShardState<W>,
)
    requires
        call_ensures(Shards::<W>::get, (&all, id), found),
        call_ensures(Shards::<W>::primary, (&all,), primary),
    ensures
        found is Some <==> id < 4,
        found matches Some(shard) ==> *shard == all.shards@[id as int],
        *primary == all.shards@[0],
{
}

/// A stack that is found for a change is changed alone.
pub proof fn law_a_stack_is_changed_alone<W>(
    all: &mut Shards<W>,
    id: usize,
    found: Option<&mut ShardState<W>>,
)
    requires
        call_ensures(Shards::<W>::get_mut, (all, id), found),
    ensures
        found is Some <==> id < 4,
        found is None ==> *final(all) == *old(all),
        found is Some ==> {
            &&& *found->0 == old(all).shards@[id as int]
            &&& final(all).shards@ == old(all).shards@.update(id as int, *final(found->0))
        },
{
}

/// A leased chain is parked at the stack that it belongs to, last, and at no other.
pub proof fn law_a_lease_is_parked_at_its_stack<W>(
    all: &mut Shards<W>,
    lease: PbufLease,
    parked: bool,
    other: int,
)
    requires
        old(all).wf(),
        call_ensures(Shards::<W>::park_lease, (all, lease), parked),
    ensures
        parked <==> lease.shard_id < 4,
        final(all).shards@.len() == old(all).shards@.len(),
        0 <= other < 4 && other != lease.shard_id ==> final(all).shards@[other] == old(
            all,
        ).shards@[other],
        parked ==> {
            let before = old(all).shards@[lease.shard_id as int];
            let after = final(all).shards@[lease.shard_id as int];
            &&& after.pbuf_leases@ == before.pbuf_leases@ + seq![lease.chain]
            &&& after == (ShardState { pbuf_leases: after.pbuf_leases, ..before })
        },
{
    if parked {
        let before = old(all).shards@[lease.shard_id as int].pbuf_leases@;
        assert(before.push(lease.chain) =~= before + seq![lease.chain]);
    }
}

/// The telemetry of the process is that of all four stacks together.
pub proof fn law_the_process_counts_all_stacks<W>(all: Shards<W>, stats: TcpRuntimeStats)
    requires
        call_ensures(tcp_runtime_stats::<W>, (&all,), stats),
    ensures
        ({
            let a = all.shards@[0].tcp_stats;
            let b = all.shards@[1].tcp_stats;
            let c = all.shards@[2].tcp_stats;
            let d = all.shards@[3].tcp_stats;
            &&& stats.active_streams == (a.active_streams + b.active_streams + c.active_streams
                + d.active_streams) % (usize::MAX + 1)
            &&& stats.queued_packets == (a.queued_packets + b.queued_packets + c.queued_packets
                + d.queued_packets) % (usize::MAX + 1)
            &&& stats.queued_bytes == (a.queued_bytes + b.queued_bytes + c.queued_bytes
                + d.queued_bytes) % (usize::MAX + 1)
        }),
{
    let shards = all.shards@;
    counter::lemma_wrapped_small(0);
    lemma_total(shards, 1, 0, 0, 0);
    let (s, p, b) = (
        shards[0].tcp_stats.active_streams as int,
        shards[0].tcp_stats.queued_packets as int,
        shards[0].tcp_stats.queued_bytes as int,
    );
    lemma_total(shards, 2, s, p, b);
    let (s, p, b) = (
        s + shards[1].tcp_stats.active_streams,
        p + shards[1].tcp_stats.queued_packets,
        b + shards[1].tcp_stats.queued_bytes,
    );
    lemma_total(shards, 3, s, p, b);
    let (s, p, b) = (
        s + shards[2].tcp_stats.active_streams,
        p + shards[2].tcp_stats.queued_packets,
        b + shards[2].tcp_stats.queued_bytes,
    );
    lemma_total(shards, 4, s, p, b);
}

/// One more stack adds its numbers.
proof fn lemma_total<W>(
    shards: Seq<ShardState<W>>,
    n: int,
    streams: int,
    packets: int,
    bytes: int,
)
    requires
        n > 0,
        shard::tcp_totals(shards, n - 1).active_streams == counter::wrapped(streams),
        shard::tcp_totals(shards, n - 1).queued_packets == counter::wrapped(packets),
        shard::tcp_totals(shards, n - 1).queued_bytes == counter::wrapped(bytes),
    ensures
        shard::tcp_totals(shards, n).active_streams == counter::wrapped(
            streams + shards[n - 1].tcp_stats.active_streams,
        ),
        shard::tcp_totals(shards, n).queued_packets == counter::wrapped(
            packets + shards[n - 1].tcp_stats.queued_packets,
        ),
        shard::tcp_totals(shards, n).queued_bytes == counter::wrapped(
            bytes + shards[n - 1].tcp_stats.queued_bytes,
        ),
{
    let own = shards[n - 1].tcp_stats;
    counter::lemma_wrapped_shift(streams, own.active_streams as int);
    counter::lemma_wrapped_shift(packets, own.queued_packets as int);
    counter::lemma_wrapped_shift(bytes, own.queued_bytes as int);
    counter::lemma_wrapped_shift(streams + own.active_streams, 0);
    counter::lemma_wrapped_shift(packets + own.queued_packets, 0);
    counter::lemma_wrapped_shift(bytes + own.queued_bytes, 0);
}

/// A segment queue fits exactly where its segments together hold the largest write: the send
/// buffer, as far as one call carries.
pub proof fn law_a_segment_queue_fits_where_it_holds_the_largest_write(
    send_buf: usize,
    queue_len: usize,
    base_mss: usize,
    fits: bool,
)
    requires
        base_mss > 0,
        call_ensures(send_queue_fits, (send_buf, queue_len, base_mss), fits),
    ensures
        fits <==> (send_buf <= queue_len * base_mss || 65535 <= queue_len * base_mss),
{
    let write = if send_buf < 65535 {
        send_buf as int
    } else {
        65535
    };
    let m = base_mss as int;
    let q = queue_len as int;
    let n = (write + m - 1) / m;
    let r = (write + m - 1) % m;
    vstd::arithmetic::div_mod::lemma_fundamental_div_mod(write + m - 1, m);
    vstd::arithmetic::div_mod::lemma_mod_bound(write + m - 1, m);
    assert(fits == (q >= n));
    if q >= n {
        assert(write <= q * m) by (nonlinear_arith)
            requires
                write + m - 1 == m * n + r,
                0 <= r < m,
                q >= n,
                m > 0,
        ;
    } else {
        assert(write > q * m) by (nonlinear_arith)
            requires
                write + m - 1 == m * n + r,
                0 <= r < m,
                q <= n - 1,
                m > 0,
        ;
    }
}

/// A plan is the primary stack's with the sizes and the MTU that were asked for: 512 packets, 64
/// datagrams and 1500 bytes where nothing is.
pub proof fn law_a_plan_is_as_asked(
    stack_buffer: usize,
    udp_buffer: usize,
    mtu: u16,
    plain: StackPlan,
    sized: StackPlan,
    full: StackPlan,
)
    requires
        call_ensures(NetStack::new, (), plain),
        call_ensures(NetStack::with_buffer_size, (stack_buffer, udp_buffer), sized),
        call_ensures(NetStack::with_buffer_size_and_mtu, (stack_buffer, udp_buffer, mtu), full),
    ensures
        plain == (StackPlan {
            shard_id: 0,
            stack_buffer_size: 512,
            udp_buffer_size: 64,
            mtu: 1500,
        }),
        sized == (StackPlan {
            shard_id: 0,
            stack_buffer_size: stack_buffer,
            udp_buffer_size: udp_buffer,
            mtu: 1500,
        }),
        full == (StackPlan {
            shard_id: 0,
            stack_buffer_size: stack_buffer,
            udp_buffer_size: udp_buffer,
            mtu,
        }),
{
}

/// A stack is planned exactly where there is one with that number; otherwise the error tells the
/// number and how many there are.
pub proof fn law_a_stack_is_planned_where_there_is_one(
    shard_id: usize,
    stack_buffer: usize,
    udp_buffer: usize,
    mtu: u16,
    plan: Result<StackPlan, Error>,
)
    requires
        call_ensures(NetStack::new_sharded, (shard_id, stack_buffer, udp_buffer, mtu), plan),
    ensures
        plan is Ok <==> shard_id < 4,
        plan matches Ok(plan) ==> plan == (StackPlan {
            shard_id,
            stack_buffer_size: stack_buffer,
            udp_buffer_size: udp_buffer,
            mtu,
        }),
        plan matches Err(error) ==> (error matches Error::RuntimeConfig(message) && message@
            == "shard "@ + text::decimal(shard_id as nat) + " out of range; this build carries "@
            + text::decimal(4) + " stacks"@),
{
}

/// Whether a stack object has a queue for `buffer_size` packets, both ends of it, and a pool of
/// its own for as many packets, from one to 256.
pub open spec fn opened(
    stack: NetStackImpl,
    buffer_size: usize,
    before: PacketPools,
    after: PacketPools,
) -> bool {
    let entry = after.entries@.last();
    &&& channel::egress_limit(stack.tx) == buffer_size
    &&& channel::egress_put(stack.tx).len() == 0
    &&& stack.rx is Some
    &&& channel::egress_rx_queue(stack.rx->0) == channel::egress_queue(stack.tx)
    &&& stack.output_pool == before.next_id
    &&& after.next_id == before.next_id + 1
    &&& entry.id == stack.output_pool
    &&& entry.handles == 1
    &&& entry.pool is Some
    &&& queue_contents(entry.pool->0.buffers).len() == 0
    &&& entry.pool->0.max_capacity == 2048
    &&& queue_limit(entry.pool->0.buffers) == if buffer_size < 1 {
        1
    } else if buffer_size > 256 {
        256
    } else {
        buffer_size as int
    }
}

/// A stack object is set up as planned: with its queue and its pool, on its stack, whose output
/// it takes over. The plain one has an MTU of 1500 bytes.
pub proof fn law_a_stack_is_set_up_as_planned<W>(
    plan: StackPlan,
    id: usize,
    timer: RawSetting<'_>,
    shard: &mut ShardState<W>,
    pools: &mut PacketPools,
    stack: NetStack,
    plain_shard: &mut ShardState<W>,
    plain_pools: &mut PacketPools,
    plain: NetStackImpl,
    ms: u64,
)
    requires
        call_ensures(timer_interval, (timer,), ms),
        call_ensures(NetStack::build::<W>, (plan, id, timer, shard, pools), stack),
        call_ensures(
            NetStackImpl::new::<W>,
            (id, plan.stack_buffer_size, timer, plain_shard, plain_pools),
            plain,
        ),
    ensures
        opened(stack.stack, plan.stack_buffer_size, *old(pools), *final(pools)),
        stack.stack.id == id,
        stack.stack.shard_id == plan.shard_id,
        stack.stack.mtu == plan.mtu,
        stack.stack.sink_buf is None,
        *final(shard) == (ShardState { output_cb: id, ..*old(shard) }),
        opened(plain, plan.stack_buffer_size, *old(plain_pools), *final(plain_pools)),
        plain.id == id,
        plain.mtu == 1500,
        plain.shard_id == old(plain_shard).id,
        *final(plain_shard) == (ShardState { output_cb: id, ..*old(plain_shard) }),
        stack.stack.timer_interval_ms == ms,
        plain.timer_interval_ms == ms,
{
    let entry = final(pools).entries@.last();
    assert(entry == final(pools).entry(stack.stack.output_pool));
    let other = final(plain_pools).entries@.last();
    assert(other == final(plain_pools).entry(plain.output_pool));
}

/// A stack object of any MTU takes over the output of its stack as well.
pub proof fn law_a_stack_object_has_the_mtu_that_was_asked_for<W>(
    id: usize,
    buffer_size: usize,
    mtu: u16,
    timer: RawSetting<'_>,
    shard: &mut ShardState<W>,
    pools: &mut PacketPools,
    stack: NetStackImpl,
    ms: u64,
)
    requires
        call_ensures(timer_interval, (timer,), ms),
        call_ensures(
            NetStackImpl::new_with_mtu::<W>,
            (id, buffer_size, mtu, timer, shard, pools),
            stack,
        ),
    ensures
        opened(stack, buffer_size, *old(pools), *final(pools)),
        stack.id == id,
        stack.mtu == mtu,
        stack.shard_id == old(shard).id,
        stack.sink_buf is None,
        stack.timer_interval_ms == ms,
        *final(shard) == (ShardState { output_cb: id, ..*old(shard) }),
{
    let entry = final(pools).entries@.last();
    assert(entry == final(pools).entry(stack.output_pool));
}

/// The egress queue of an object has one receiving end, which is taken once, and its weak
/// senders are of the same queue. The numbers of its pool are those of the pool.
pub proof fn law_an_object_has_one_egress_queue(
    stack: NetStackImpl,
    weak: WeakSender<IpPacket>,
    taken: &mut NetStackImpl,
    rx: Receiver<IpPacket>,
    pools: PacketPools,
    found: Option<PacketPoolStats>,
    i: int,
)
    requires
        call_ensures(NetStackImpl::egress_sender, (&stack,), weak),
        call_ensures(NetStackImpl::take_egress, (taken,), rx),
        pools.wf(),
        call_ensures(NetStackImpl::output_pool_stats, (&stack, &pools), found),
    ensures
        channel::weak_egress_queue(weak) == channel::egress_queue(stack.tx),
        channel::weak_egress_limit(weak) == channel::egress_limit(stack.tx),
        rx == old(taken).rx->0,
        *final(taken) == (NetStackImpl { rx: None, ..*old(taken) }),
        pools::at(pools, stack.output_pool, i) ==> {
            let pool = pools.entries@[i].pool->0;
            &&& found is Some
            &&& found->0.allocations == pool.allocations
            &&& found->0.reuses == pool.reuses
            &&& found->0.returned == pool.returned
            &&& found->0.discarded == pool.discarded
            &&& found->0.cached == queue_contents(pool.buffers).len() as usize
            &&& found->0.cached_bytes == pool.cached_bytes
        },
{
    if pools::at(pools, stack.output_pool, i) {
        pools.lemma_entry(i);
    }
}

/// A stack that is split keeps its parts: the receiving end goes to one half, and everything
/// else to the other.
pub proof fn law_halves_of_a_stack_keep_its_parts(
    stack: NetStack,
    halves: (StackIngress, StackEgress),
)
    requires
        call_ensures(NetStack::split, (stack,), halves),
    ensures
        halves.0.stack == (NetStackImpl { rx: None, ..stack.stack }),
        halves.1.rx == stack.stack.rx->0,
        halves.1.shard_id == stack.stack.shard_id,
{
}

/// A torn down object gives up the output of its stack, unless another has taken it over, and
/// its handle of its pool, as a torn down socket does.
pub proof fn law_a_torn_down_object_gives_up_what_it_had<W>(
    stack: NetStackImpl,
    shard: &mut ShardState<W>,
    pools: &mut PacketPools,
    socket: UdpSocket<W>,
    socket_pools: &mut PacketPools,
    i: int,
)
    requires
        old(pools).wf(),
        old(socket_pools).wf(),
        call_ensures(NetStackImpl::teardown::<W>, (stack, shard, pools), ()),
        call_ensures(UdpSocket::<W>::teardown, (socket, socket_pools), ()),
    ensures
        *final(shard) == (ShardState {
            output_cb: if old(shard).output_cb == stack.id {
                0
            } else {
                old(shard).output_cb
            },
            ..*old(shard)
        }),
        pools::at(*old(pools), stack.output_pool, i) ==> {
            &&& final(pools).entries@[i].handles == old(pools).entries@[i].handles - 1
            &&& final(pools).entries@[i].pool is Some <==> old(pools).entries@[i].handles > 1
        },
        pools::at(*old(socket_pools), socket.packet_pool, i) ==> {
            &&& final(socket_pools).entries@[i].handles == old(socket_pools).entries@[i].handles - 1
            &&& final(socket_pools).entries@[i].pool is Some <==> old(
                socket_pools,
            ).entries@[i].handles > 1
        },
{
    if pools::at(*old(pools), stack.output_pool, i) {
        old(pools).lemma_entry(i);
        assert(old(pools).entries@[i].wf());
        assert(final(pools).entries@[i].handles == old(pools).entries@[i].handles - 1);
    }
    if pools::at(*old(socket_pools), socket.packet_pool, i) {
        old(socket_pools).lemma_entry(i);
        assert(old(socket_pools).entries@[i].wf());
        assert(final(socket_pools).entries@[i].handles == old(socket_pools).entries@[i].handles
            - 1);
    }
}

/// What is said of a capacity that a stack refused with `code`.
pub open spec fn refused_capacity(capacity: u16, code: i8) -> Seq<char> {
    if code == -6 {
        "PBUF_POOL capacity must be between "@ + text::decimal(32) + " and "@ + text::decimal(512)
            + ", got "@ + text::decimal(capacity as nat)
    } else if code == -8 {
        "PBUF_POOL capacity must be configured before the first NetStack; restart the process to change it"@
    } else {
        "PBUF_POOL capacity configuration failed with lwIP error "@ + text::signed_decimal(
            code as int,
        )
    }
}

/// The stack takes a capacity exactly where it answers that all is well. The error of one that
/// is out of bounds tells the bounds, that of one that comes too late says so, and any other
/// tells the answer.
pub proof fn law_a_refused_capacity_tells_why(capacity: u16, code: i8, outcome: Result<(), Error>)
    requires
        call_ensures(capacity_answer, (capacity, code), outcome),
    ensures
        outcome is Ok <==> code == 0,
        outcome matches Err(error) ==> (error matches Error::RuntimeConfig(message) && message@
            == refused_capacity(capacity, code)),
{
}

/// A capacity is configured where all four stacks took it. Where one refused it, all before it
/// took it, and none behind it need have been asked.
pub proof fn law_a_capacity_is_configured_at_all_stacks<Ask: Fn(usize, u16) -> i8>(
    capacity: u16,
    set: Ask,
    outcome: Result<(), Error>,
    id: usize,
)
    requires
        call_ensures(configure_pbuf_pool_capacity::<Ask>, (capacity, set), outcome),
    ensures
        outcome is Ok ==> {
            &&& call_ensures(set, (0usize, capacity), 0i8)
            &&& call_ensures(set, (1usize, capacity), 0i8)
            &&& call_ensures(set, (2usize, capacity), 0i8)
            &&& call_ensures(set, (3usize, capacity), 0i8)
        },
        outcome is Err ==> exists|refusing: usize, code: i8|
            {
                &&& refusing < 4
                &&& code != 0
                &&& #[trigger] call_ensures(set, (refusing, capacity), code)
                &&& id < refusing ==> call_ensures(set, (id, capacity), 0i8)
                &&& outcome->Err_0 matches Error::RuntimeConfig(message)
                &&& message@ == refused_capacity(capacity, code)
            },
{
    if outcome is Err {
        let error = outcome->Err_0;
        let (refusing, code) = choose|refusing: usize, code: i8|
            {
                &&& refusing < shard::SHARD_COUNT
                &&& code != err::ERR_OK
                &&& #[trigger] call_ensures(set, (refusing, capacity), code)
                &&& forall|earlier: usize|
                    earlier < refusing ==> #[trigger] call_ensures(
                        set,
                        (earlier, capacity),
                        err::ERR_OK,
                    )
                &&& error.configures(crate::pbuf_pool::capacity_refusal(capacity, code))
            };
        assert(call_ensures(set, (refusing, capacity), code));
    }
}

/// The numbers of a buffer pool are asked of the stack that they are those of, and of the
/// primary one where none is named.
pub proof fn law_pool_numbers_are_asked_of_their_stack<Read: Fn(usize) -> PbufPoolRuntimeStats>(
    read: Read,
    shard_id: usize,
    primary: PbufPoolRuntimeStats,
    found: Option<PbufPoolRuntimeStats>,
)
    requires
        call_ensures(pbuf_pool_runtime_stats::<Read>, (read,), primary),
        call_ensures(pbuf_pool_runtime_stats_sharded::<Read>, (shard_id, read), found),
    ensures
        call_ensures(read, (0usize,), primary),
        found is Some <==> shard_id < 4,
        found matches Some(stats) ==> call_ensures(read, (shard_id,), stats),
{
}

/// The result codes are those of the lwIP API.
pub proof fn law_result_codes_are_those_of_lwip()
    ensures
        err::ERR_OK == 0,
        err::ERR_MEM == -1,
        err::ERR_BUF == -2,
        err::ERR_RTE == -4,
        err::ERR_VAL == -6,
        err::ERR_USE == -8,
        err::ERR_CONN == -11,
        err::ERR_ABRT == -13,
{
}

/// Telemetry begins with zeros, and is shown as it stands.
pub proof fn law_telemetry_begins_with_zeros(
    tcp: TcpRuntimeStats,
    pools: PacketPoolsRuntimeStats,
    udp: UdpRuntimeStats,
    counters: UdpRuntimeStats,
    shown: UdpRuntimeStats,
)
    requires
        call_ensures(TcpRuntimeStats::default, (), tcp),
        call_ensures(PacketPoolsRuntimeStats::default, (), pools),
        call_ensures(UdpRuntimeStats::default, (), udp),
        call_ensures(udp_runtime_stats, (&counters,), shown),
    ensures
        tcp.active_streams == 0 && tcp.queued_packets == 0 && tcp.queued_bytes == 0,
        pools.live_pools == 0 && pools.cached_packets == 0 && pools.cached_bytes == 0,
        pools.allocations == 0 && pools.reuses == 0,
        pools.returned == 0 && pools.discarded == 0,
        udp.ingress_queue_drops == 0,
        shown == counters,
{
}

/// An endpoint is its address and its port, and an IPv6 one exactly where its address is.
pub proof fn law_an_endpoint_is_its_address_and_port(
    ip: IpAddr,
    port: u16,
    addr: SocketAddr,
    v6: bool,
)
    requires
        call_ensures(SocketAddr::new, (ip, port), addr),
        call_ensures(SocketAddr::is_ipv6, (&addr,), v6),
    ensures
        addr.ip == ip,
        addr.port == port,
        v6 <==> ip is V6,
{
}

/// A held lock is an error of its own.
pub proof fn law_a_held_lock_is_an_error(error: AtomicMutexErr, converted: Error)
    requires
        call_ensures(<Error as From<AtomicMutexErr>>::from, (error,), converted),
    ensures
        converted is AtomicMutexErr,
{
}

/// There are no streams, no writers and no pools at first, and a stack starts unused.
pub proof fn law_everything_starts_empty<W>(
    table: TcpContexts<W>,
    pools: PacketPools,
    id: usize,
    unused: ShardState<W>,
)
    requires
        call_ensures(TcpContexts::<W>::new, (), table),
        call_ensures(PacketPools::new, (), pools),
        call_ensures(ShardState::<W>::new, (id,), unused),
    ensures
        table.contexts@.dom() == Set::<u64>::empty(),
        table.parked@.len() == 0,
        pools.entries@.len() == 0,
        pools.next_id == 0,
        unused.id == id,
        !unused.initialized && !unused.egress_backpressured && !unused.tcp_tx_partial_checksum,
        unused.output_cb == 0,
        unused.pbuf_leases@.len() == 0,
        unused.tcp.contexts@.dom() == Set::<u64>::empty(),
        unused.tcp.parked@.len() == 0,
        unused.tcp_stats.active_streams == 0,
        unused.tcp_stats.queued_packets == 0,
        unused.tcp_stats.queued_bytes == 0,
{
}

/// An error has the kind and the text that it was given, and a closed egress queue is a broken
/// pipe.
pub proof fn law_an_error_has_its_kind_and_text(
    kind: ErrorKind,
    text: &str,
    error: IoError,
    closed: IoError,
)
    requires
        call_ensures(IoError::new, (kind, text), error),
        call_ensures(egress_closed, (), closed),
    ensures
        error.kind == kind,
        error.message@ == text@,
        closed.kind == ErrorKind::BrokenPipe,
        closed.message@ == "lwIP egress queue is closed"@,
{
}

/// What errors say.
pub proof fn law_errors_say_what_went_wrong(error: Error, message: String)
    requires
        call_ensures(Error::message, (&error,), message),
    ensures
        message@ == match error {
            Error::LwIP(code) => "LwIP error ("@ + text::signed_decimal(code as int) + ")"@,
            Error::AtomicMutexErr(_) => "AtomicMutexErr AtomicMutexErr"@,
            Error::RuntimeConfig(text) => "runtime configuration error: "@ + text@,
        },
{
}

} // verus!
