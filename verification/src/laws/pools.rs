//! How packet storage is handed out, kept and given up.

use vstd::prelude::*;

use crate::counter;
use crate::packet;
use crate::packet::{
    packet_pool_runtime_stats, queue_contents, queue_limit, trim_packet_pools, IpPacket,
    PacketPool, PacketPoolStats, PacketPools, PacketPoolsRuntimeStats, PbufLease, PoolEntry,
};

verus! {

/// The sum of numbers.
pub open spec fn sum(numbers: Seq<int>) -> int {
    numbers.fold_left(0int, |total: int, n: int| total + n)
}

/// Whether handing out a packet of `reserved` bytes, that `length` were asked for, leads from
/// one state of a pool to another: the oldest kept buffer leaves, or a new one is allocated
/// where none is kept.
pub open spec fn hands_out(
    before: PacketPool,
    length: usize,
    reserved: usize,
    after: PacketPool,
) -> bool {
    let kept = queue_contents(before.buffers);
    let left = queue_contents(after.buffers);
    &&& after.id == before.id
    &&& after.max_capacity == before.max_capacity
    &&& queue_limit(after.buffers) == queue_limit(before.buffers)
    &&& after.returned == before.returned
    &&& after.discarded == before.discarded
    &&& reserved >= length
    &&& if kept.len() > 0 {
        &&& kept == seq![kept[0]] + left
        &&& reserved == length || reserved == kept[0].1
        &&& reserved >= kept[0].1
        &&& after.allocations == before.allocations
        &&& after.reuses == (before.reuses + 1) % 0x1_0000_0000_0000_0000
    } else {
        &&& left == kept
        &&& reserved == length
        &&& after.reuses == before.reuses
        &&& after.allocations == (before.allocations + 1) % 0x1_0000_0000_0000_0000
    }
}

/// Whether taking back storage of which `reserved` bytes are known leads from one state of a
/// pool to another: it is measured, and kept as the newest exactly where it is no larger than
/// allowed and there is room.
pub open spec fn takes_back(before: PacketPool, reserved: usize, after: PacketPool) -> bool {
    let kept = queue_contents(before.buffers);
    let left = queue_contents(after.buffers);
    &&& after.id == before.id
    &&& after.max_capacity == before.max_capacity
    &&& queue_limit(after.buffers) == queue_limit(before.buffers)
    &&& after.allocations == before.allocations
    &&& after.reuses == before.reuses
    &&& exists|buffer: Vec<u8>, capacity: usize| #[trigger]
        packet::measured(buffer, capacity) && {
            let room = kept.len() < queue_limit(before.buffers) && reserved <= before.max_capacity
                && capacity <= before.max_capacity;
            &&& room ==> {
                &&& left.len() == kept.len() + 1
                &&& left.drop_last() == kept
                &&& left.last().0 == buffer && buffer@.len() == 0
                &&& left.last().1 >= capacity && left.last().1 >= reserved
                &&& left.last().1 == capacity || left.last().1 == reserved
                &&& after.returned == (before.returned + 1) % 0x1_0000_0000_0000_0000
                &&& after.discarded == before.discarded
            }
            &&& !room ==> {
                &&& left == kept
                &&& after.returned == before.returned
                &&& after.discarded == (before.discarded + 1) % 0x1_0000_0000_0000_0000
            }
        }
}

/// A pool hands out its oldest buffer, cleared and with the room that was asked for.
pub proof fn law_a_packet_comes_in_the_oldest_buffer(
    pool: &mut PacketPool,
    length: usize,
    packet: IpPacket,
)
    requires
        call_ensures(PacketPool::acquire, (pool, length), packet),
    ensures
        hands_out(*old(pool), length, packet.reserved, *final(pool)),
        packet.buffer@ == Seq::<u8>::empty(),
        queue_contents(old(pool).buffers).len() > 0 && queue_contents(old(pool).buffers)[0].1
            >= length ==> packet.buffer == queue_contents(old(pool).buffers)[0].0,
        packet.pool == Some(old(pool).id),
        packet.tail is None,
{
    let kept = queue_contents(old(pool).buffers);
    if kept.len() > 0 {
        assert(kept =~= seq![kept[0]] + kept.skip(1));
    }
}

/// A copy holds all the data, in storage of the pool.
pub proof fn law_a_copy_holds_all_the_data(pool: &mut PacketPool, data: &[u8], packet: IpPacket)
    requires
        data@.len() <= usize::MAX,
        call_ensures(PacketPool::copy_from_slice, (pool, data), packet),
    ensures
        packet.buffer@ == data@,
        packet.pool == Some(old(pool).id),
        packet.tail is None,
        hands_out(*old(pool), data@.len() as usize, packet.reserved, *final(pool)),
{
    let kept = queue_contents(old(pool).buffers);
    if kept.len() > 0 {
        assert(kept =~= seq![kept[0]] + kept.skip(1));
    }
}

/// A packet that is no longer needed leaves its storage to the pool and returns the lease of
/// what it owed. What is kept of an empty packet is its own buffer.
pub proof fn law_a_released_packet_leaves_its_storage(
    pool: &mut PacketPool,
    packet: IpPacket,
    lease: Option<PbufLease>,
)
    requires
        call_ensures(PacketPool::release, (pool, packet), lease),
    ensures
        takes_back(*old(pool), packet.reserved, *final(pool)),
        packet.buffer@.len() == 0 && queue_contents(final(pool).buffers).len() > queue_contents(
            old(pool).buffers,
        ).len() ==> queue_contents(final(pool).buffers).last().0 == packet.buffer,
        lease == match packet.tail {
            Some(tail) => Some(tail.lease),
            None => None,
        },
{
    lemma_takes_back(*old(pool), packet.reserved, *final(pool));
}

/// A buffer is kept exactly where it is no larger than allowed and there is room, as the newest
/// and with its capacity; otherwise it is given up.
pub proof fn law_a_buffer_is_kept_where_it_may_be(
    pool: &mut PacketPool,
    buffer: Vec<u8>,
    capacity: usize,
    kept: bool,
)
    requires
        call_ensures(PacketPool::store, (pool, buffer, capacity), kept),
    ensures
        kept <==> capacity <= old(pool).max_capacity && queue_contents(old(pool).buffers).len()
            < queue_limit(old(pool).buffers),
        queue_contents(final(pool).buffers) == if kept {
            queue_contents(old(pool).buffers) + seq![(buffer, capacity)]
        } else {
            queue_contents(old(pool).buffers)
        },
        final(pool).returned == (old(pool).returned + if kept {
            1int
        } else {
            0int
        }) % 0x1_0000_0000_0000_0000,
        final(pool).discarded == (old(pool).discarded + if kept {
            0int
        } else {
            1int
        }) % 0x1_0000_0000_0000_0000,
        final(pool).allocations == old(pool).allocations,
        final(pool).reuses == old(pool).reuses,
{
    assert(queue_contents(old(pool).buffers).push((buffer, capacity)) =~= queue_contents(
        old(pool).buffers,
    ) + seq![(buffer, capacity)]);
    lemma_small(old(pool).returned);
    lemma_small(old(pool).discarded);
}

/// Trimming gives up every kept buffer, counts each, and returns their capacities together.
pub proof fn law_trimming_gives_up_every_buffer(pool: &mut PacketPool, released: usize)
    requires
        call_ensures(PacketPool::trim, (pool,), released),
    ensures
        released == sum(
            queue_contents(old(pool).buffers).map_values(|item: (Vec<u8>, usize)| item.1 as int),
        ) % (usize::MAX + 1),
        queue_contents(final(pool).buffers).len() == 0,
        final(pool).cached_bytes == 0,
        final(pool).discarded == (old(pool).discarded + queue_contents(
            old(pool).buffers,
        ).len()) % 0x1_0000_0000_0000_0000,
        final(pool).allocations == old(pool).allocations,
        final(pool).reuses == old(pool).reuses,
        final(pool).returned == old(pool).returned,
        final(pool).max_capacity == old(pool).max_capacity,
        queue_limit(final(pool).buffers) == queue_limit(old(pool).buffers),
{
    let capacities = |item: (Vec<u8>, usize)| item.1 as int;
    lemma_total_capacity(queue_contents(old(pool).buffers), capacities);
}

/// The bytes that a valid pool says it keeps are the capacities of what it keeps.
pub proof fn law_kept_bytes_are_the_capacities_of_what_is_kept(
    pool: PacketPool,
    stats: PacketPoolStats,
)
    requires
        pool.wf(),
        call_ensures(PacketPool::stats, (&pool,), stats),
    ensures
        stats.cached_bytes == sum(
            queue_contents(pool.buffers).map_values(|item: (Vec<u8>, usize)| item.1 as int),
        ) % (usize::MAX + 1),
        stats.cached == queue_contents(pool.buffers).len() as usize,
        stats.allocations == pool.allocations,
        stats.reuses == pool.reuses,
        stats.returned == pool.returned,
        stats.discarded == pool.discarded,
        forall|i: int|
            0 <= i < queue_contents(pool.buffers).len() ==> (#[trigger] queue_contents(
                pool.buffers,
            )[i]).1 <= pool.max_capacity && queue_contents(pool.buffers)[i].0@.len() == 0,
        queue_contents(pool.buffers).len() <= queue_limit(pool.buffers),
{
    let capacities = |item: (Vec<u8>, usize)| item.1 as int;
    lemma_total_capacity(queue_contents(pool.buffers), capacities);
    assert(queue_contents(pool.buffers) == pool.cached());
}

/// A pool begins with nothing kept and nothing counted.
pub proof fn law_a_pool_begins_empty(
    id: u64,
    max_cached: usize,
    max_capacity: usize,
    pool: PacketPool,
)
    requires
        call_ensures(PacketPool::new, (id, max_cached, max_capacity), pool),
    ensures
        pool.id == id,
        queue_contents(pool.buffers).len() == 0,
        queue_limit(pool.buffers) == max_cached,
        pool.max_capacity == max_capacity,
        pool.cached_bytes == 0,
        pool.allocations == 0 && pool.reuses == 0 && pool.returned == 0 && pool.discarded == 0,
{
    counter::lemma_wrapped_small(0);
}

/// A new pool is the last, with the next number and one handle. The live ones stay, in order,
/// and those that are gone are forgotten.
pub proof fn law_a_new_pool_joins_the_live_ones(
    pools: &mut PacketPools,
    max_cached: usize,
    max_capacity: usize,
    id: u64,
)
    requires
        call_ensures(PacketPools::create, (pools, max_cached, max_capacity), id),
    ensures
        id == old(pools).next_id,
        final(pools).next_id == old(pools).next_id + 1,
        ({
            let entry = final(pools).entries@.last();
            &&& final(pools).entries@ == old(pools).entries@.filter(
                |entry: PoolEntry| entry.pool is Some,
            ).push(entry)
            &&& entry.id == id
            &&& entry.handles == 1
            &&& entry.pool is Some
            &&& queue_contents(entry.pool->0.buffers).len() == 0
            &&& queue_limit(entry.pool->0.buffers) == max_cached
            &&& entry.pool->0.max_capacity == max_capacity
            &&& entry.pool->0.id == id
            &&& entry.pool->0.allocations == 0 && entry.pool->0.reuses == 0
            &&& entry.pool->0.returned == 0 && entry.pool->0.discarded == 0
        }),
{
    let alive = |entry: PoolEntry| entry.pool is Some;
    lemma_live(old(pools).entries@, alive);
}

/// The index of the live pool with a number, if there is one: numbers are not shared.
pub open spec fn at(pools: PacketPools, id: u64, i: int) -> bool {
    &&& 0 <= i < pools.entries@.len()
    &&& pools.entries@[i].id == id
    &&& pools.entries@[i].pool is Some
}

/// Whether handing out a packet of the pool `id`, for `length` bytes, leads from one state of
/// all pools to another: that pool alone changes, and it has one more handle.
pub open spec fn lends(
    before: PacketPools,
    id: u64,
    length: usize,
    reserved: usize,
    after: PacketPools,
) -> bool {
    &&& after.next_id == before.next_id
    &&& forall|i: int| #[trigger]
        at(before, id, i) ==> {
            let entry = after.entries@[i];
            &&& after.entries@ == before.entries@.update(i, entry)
            &&& entry.id == id
            &&& entry.handles == before.entries@[i].handles + 1
            &&& entry.pool is Some
            &&& hands_out(before.entries@[i].pool->0, length, reserved, entry.pool->0)
        }
}

/// Whether taking back a packet leads from one state of all pools to another: its pool alone
/// changes, has one handle less, and goes away with the last one. A packet of no live pool
/// changes nothing.
pub open spec fn gets_back(before: PacketPools, packet: IpPacket, after: PacketPools) -> bool {
    &&& after.next_id == before.next_id
    &&& packet.pool is None || (forall|i: int| !(#[trigger] at(before, packet.pool->0, i)))
        ==> after == before
    &&& packet.pool is Some ==> forall|i: int| #[trigger]
        at(before, packet.pool->0, i) ==> {
            let entry = after.entries@[i];
            &&& after.entries@ == before.entries@.update(i, entry)
            &&& entry.id == before.entries@[i].id
            &&& entry.handles == before.entries@[i].handles - 1
            &&& entry.pool is Some <==> before.entries@[i].handles > 1
            &&& entry.pool matches Some(pool) ==> takes_back(
                before.entries@[i].pool->0,
                packet.reserved,
                pool,
            )
        }
}

/// Whether handing out a packet and taking it back leads from one state of a pool to another.
pub open spec fn passes(before: PacketPool, length: usize, after: PacketPool) -> bool {
    exists|between: PacketPool, reserved: usize| #[trigger]
        hands_out(before, length, reserved, between) && takes_back(between, reserved, after)
}

/// Whether handing out a packet of the pool `id`, for `length` bytes, and taking it back leads
/// from one state of all pools to another: that pool alone changes, and has as many handles.
pub open spec fn passes_through(
    before: PacketPools,
    id: u64,
    length: usize,
    after: PacketPools,
) -> bool {
    &&& after.next_id == before.next_id
    &&& forall|i: int| #[trigger]
        at(before, id, i) ==> {
            let entry = after.entries@[i];
            &&& after.entries@ == before.entries@.update(i, entry)
            &&& entry.id == id
            &&& entry.handles == before.entries@[i].handles
            &&& entry.pool is Some
            &&& passes(before.entries@[i].pool->0, length, entry.pool->0)
        }
}

/// A handle that is added counts, and changes nothing else; there is one more exactly where the
/// pool is alive and can count it.
pub proof fn law_an_added_handle_counts(pools: &mut PacketPools, id: u64, cloned: bool, i: int)
    requires
        old(pools).wf(),
        call_ensures(PacketPools::clone_handle, (pools, id), cloned),
    ensures
        !cloned ==> *final(pools) == *old(pools),
        final(pools).next_id == old(pools).next_id,
        cloned ==> exists|i: int| #[trigger] at(*old(pools), id, i),
        at(*old(pools), id, i) ==> {
            &&& cloned <==> old(pools).entries@[i].handles < usize::MAX
            &&& cloned ==> final(pools).entries@ == old(pools).entries@.update(
                i,
                PoolEntry {
                    handles: (old(pools).entries@[i].handles + 1) as usize,
                    ..old(pools).entries@[i]
                },
            )
        },
{
    if at(*old(pools), id, i) {
        old(pools).lemma_entry(i);
        if cloned {
            lemma_replaced(*old(pools), id, i, *final(pools));
        }
    }
    if cloned {
        let k = lemma_has(*old(pools), id);
    }
}

/// A handle that is dropped counts, and the pool goes away with its last one, and only then.
pub proof fn law_a_pool_lives_as_long_as_a_handle(
    pools: &mut PacketPools,
    id: u64,
    dropped: bool,
    i: int,
)
    requires
        old(pools).wf(),
        call_ensures(PacketPools::drop_handle, (pools, id), dropped),
    ensures
        !dropped ==> *final(pools) == *old(pools),
        final(pools).next_id == old(pools).next_id,
        dropped <==> exists|i: int| #[trigger] at(*old(pools), id, i),
        at(*old(pools), id, i) ==> final(pools).entries@ == old(pools).entries@.update(
            i,
            PoolEntry {
                id,
                handles: (old(pools).entries@[i].handles - 1) as usize,
                pool: if old(pools).entries@[i].handles == 1 {
                    None
                } else {
                    old(pools).entries@[i].pool
                },
            },
        ),
{
    if at(*old(pools), id, i) {
        old(pools).lemma_entry(i);
        lemma_replaced(*old(pools), id, i, *final(pools));
    }
    if dropped {
        let k = lemma_has(*old(pools), id);
    } else {
        assert forall|k: int| !(#[trigger] at(*old(pools), id, k)) by {
            if at(*old(pools), id, k) {
                old(pools).lemma_entry(k);
            }
        }
    }
}

/// A packet of a live pool comes from that pool alone, and counts as a handle of it. There is
/// one exactly where the pool is alive and can count it.
pub proof fn law_a_packet_is_a_handle_of_its_pool(
    pools: &mut PacketPools,
    id: u64,
    length: usize,
    packet: Option<IpPacket>,
    i: int,
)
    requires
        old(pools).wf(),
        call_ensures(PacketPools::acquire, (pools, id, length), packet),
    ensures
        packet is None ==> *final(pools) == *old(pools),
        packet is Some ==> exists|i: int| #[trigger] at(*old(pools), id, i),
        at(*old(pools), id, i) ==> (packet is Some <==> old(pools).entries@[i].handles
            < usize::MAX),
        packet matches Some(packet) ==> {
            &&& lends(*old(pools), id, length, packet.reserved, *final(pools))
            &&& packet.buffer@ == Seq::<u8>::empty()
            &&& packet.pool == Some(id)
            &&& packet.tail is None
        },
{
    if at(*old(pools), id, i) {
        old(pools).lemma_entry(i);
    }
    if packet is Some {
        let k = lemma_has(*old(pools), id);
        lemma_lends(*old(pools), id, length, *final(pools));
    }
}

/// A packet that is taken back leaves its storage to its own pool while that is alive, drops
/// its handle, and returns the lease of what it owed.
pub proof fn law_a_packet_goes_back_to_its_pool(
    pools: &mut PacketPools,
    packet: IpPacket,
    lease: Option<PbufLease>,
)
    requires
        old(pools).wf(),
        call_ensures(PacketPools::release, (pools, packet), lease),
    ensures
        lease == match packet.tail {
            Some(tail) => Some(tail.lease),
            None => None,
        },
        gets_back(*old(pools), packet, *final(pools)),
{
    lemma_gets_back(*old(pools), packet, *final(pools));
}

/// The numbers of a pool are found exactly while it is alive.
pub proof fn law_numbers_are_found_while_a_pool_lives(
    pools: PacketPools,
    id: u64,
    found: Option<PacketPoolStats>,
    i: int,
)
    requires
        pools.wf(),
        call_ensures(PacketPools::pool_stats, (&pools, id), found),
    ensures
        found is Some ==> exists|i: int| #[trigger] at(pools, id, i),
        at(pools, id, i) ==> {
            let pool = pools.entries@[i].pool->0;
            &&& found is Some
            &&& found->0.allocations == pool.allocations
            &&& found->0.reuses == pool.reuses
            &&& found->0.returned == pool.returned
            &&& found->0.discarded == pool.discarded
            &&& found->0.cached == queue_contents(pool.buffers).len() as usize
            &&& found->0.cached_bytes == pool.cached_bytes
        },
{
    if at(pools, id, i) {
        pools.lemma_entry(i);
    }
    if found is Some {
        let k = lemma_has(pools, id);
    }
}

/// The numbers of all live pools are those of each, together.
pub proof fn law_the_numbers_of_all_pools_add_up(
    pools: &mut PacketPools,
    runtime: PacketPoolsRuntimeStats,
)
    requires
        call_ensures(packet_pool_runtime_stats, (pools,), runtime),
    ensures
        ({
            let live = old(pools).entries@.filter(|entry: PoolEntry| entry.pool is Some);
            &&& final(pools).entries@ == live
            &&& final(pools).next_id == old(pools).next_id
            &&& runtime.live_pools == live.len() % ((usize::MAX + 1) as nat)
            &&& runtime.cached_packets == sum(
                live.map_values(
                    |entry: PoolEntry|
                        (queue_contents(entry.pool->0.buffers).len() as usize) as int,
                ),
            ) % (usize::MAX + 1)
            &&& runtime.cached_bytes == sum(
                live.map_values(|entry: PoolEntry| entry.pool->0.cached_bytes as int),
            ) % (usize::MAX + 1)
            &&& runtime.allocations == sum(
                live.map_values(|entry: PoolEntry| entry.pool->0.allocations as int),
            ) % 0x1_0000_0000_0000_0000
            &&& runtime.reuses == sum(
                live.map_values(|entry: PoolEntry| entry.pool->0.reuses as int),
            ) % 0x1_0000_0000_0000_0000
            &&& runtime.returned == sum(
                live.map_values(|entry: PoolEntry| entry.pool->0.returned as int),
            ) % 0x1_0000_0000_0000_0000
            &&& runtime.discarded == sum(
                live.map_values(|entry: PoolEntry| entry.pool->0.discarded as int),
            ) % 0x1_0000_0000_0000_0000
        }),
{
    let alive = |entry: PoolEntry| entry.pool is Some;
    lemma_live(old(pools).entries@, alive);
    let live = packet::live_entries(old(pools).entries@);
    let packets = |entry: PoolEntry| (queue_contents(entry.pool->0.buffers).len() as usize) as int;
    let bytes = |entry: PoolEntry| entry.pool->0.cached_bytes as int;
    let allocations = |entry: PoolEntry| entry.pool->0.allocations as int;
    let reuses = |entry: PoolEntry| entry.pool->0.reuses as int;
    let returned = |entry: PoolEntry| entry.pool->0.returned as int;
    let discarded = |entry: PoolEntry| entry.pool->0.discarded as int;
    lemma_pools_stats(live, packets, bytes);
    lemma_pools_counts(live, allocations, reuses, returned, discarded);
}

/// Trimming all pools gives up what each live one keeps, and returns the bytes together; the
/// pools stay, with their handles.
pub proof fn law_trimming_all_pools_trims_each(pools: &mut PacketPools, released: usize)
    requires
        call_ensures(trim_packet_pools, (pools,), released),
    ensures
        ({
            let live = old(pools).entries@.filter(|entry: PoolEntry| entry.pool is Some);
            &&& released == sum(
                live.map_values(|entry: PoolEntry| entry.pool->0.cached_bytes as int),
            ) % (usize::MAX + 1)
            &&& final(pools).entries@.len() == live.len()
            &&& final(pools).next_id == old(pools).next_id
            &&& forall|i: int|
                0 <= i < live.len() ==> {
                    let after = #[trigger] final(pools).entries@[i];
                    &&& after.id == live[i].id
                    &&& after.handles == live[i].handles
                    &&& after.pool is Some
                    &&& queue_contents(after.pool->0.buffers).len() == 0
                    &&& after.pool->0.cached_bytes == 0
                    &&& after.pool->0.max_capacity == live[i].pool->0.max_capacity
                    &&& queue_limit(after.pool->0.buffers) == queue_limit(
                        live[i].pool->0.buffers,
                    )
                    &&& after.pool->0.allocations == live[i].pool->0.allocations
                    &&& after.pool->0.reuses == live[i].pool->0.reuses
                    &&& after.pool->0.returned == live[i].pool->0.returned
                    &&& after.pool->0.discarded == (live[i].pool->0.discarded + queue_contents(
                        live[i].pool->0.buffers,
                    ).len()) % 0x1_0000_0000_0000_0000
                }
        }),
{
    let alive = |entry: PoolEntry| entry.pool is Some;
    lemma_live(old(pools).entries@, alive);
    let live = packet::live_entries(old(pools).entries@);
    let cached = |entry: PoolEntry| entry.pool->0.cached_bytes as int;
    lemma_cached_bytes(live, cached);
    assert forall|i: int| 0 <= i < live.len() implies {
        let after = #[trigger] final(pools).entries@[i];
        queue_contents(after.pool->0.buffers).len() == 0
    } by {
        assert(final(pools).entries@[i].pool->0.cached() == Seq::<(Vec<u8>, usize)>::empty());
    }
}

/// A number that fits 64 bits is shown as it is.
proof fn lemma_small(n: u64)
    ensures
        n as int % 0x1_0000_0000_0000_0000 == n,
{
}

/// What is handed out is as stated.
proof fn lemma_hands_out(before: PacketPool, length: usize, after: PacketPool)
    requires
        before.acquired(after),
    ensures
        hands_out(before, length, before.room(length), after),
{
    let kept = queue_contents(before.buffers);
    if kept.len() > 0 {
        assert(kept =~= seq![kept[0]] + kept.skip(1));
    }
}

/// Lending is as stated.
pub(crate) proof fn lemma_lends(
    before: PacketPools,
    id: u64,
    length: usize,
    after: PacketPools,
)
    requires
        before.wf(),
        before.acquired(id, after),
    ensures
        lends(before, id, length, before.room(id, length), after),
{
    assert forall|i: int| #[trigger] at(before, id, i) implies {
        let entry = after.entries@[i];
        &&& after.entries@ == before.entries@.update(i, entry)
        &&& entry.id == id
        &&& entry.handles == before.entries@[i].handles + 1
        &&& entry.pool is Some
        &&& hands_out(
            before.entries@[i].pool->0,
            length,
            before.room(id, length),
            entry.pool->0,
        )
    } by {
        before.lemma_entry(i);
        lemma_replaced(before, id, i, after);
        lemma_has(after, id);
        lemma_hands_out(before.entries@[i].pool->0, length, after.entries@[i].pool->0);
    }
}

/// Getting back is as stated.
pub(crate) proof fn lemma_gets_back(before: PacketPools, packet: IpPacket, after: PacketPools)
    requires
        before.wf(),
        before.released(packet, after),
    ensures
        gets_back(before, packet, after),
{
    if packet.pool is Some {
        let id = packet.pool->0;
        if forall|i: int| !(#[trigger] at(before, id, i)) {
            if before.has(id) {
                let k = lemma_has(before, id);
            }
        }
        assert forall|i: int| #[trigger] at(before, id, i) implies {
            let entry = after.entries@[i];
            &&& after.entries@ == before.entries@.update(i, entry)
            &&& entry.id == before.entries@[i].id
            &&& entry.handles == before.entries@[i].handles - 1
            &&& entry.pool is Some <==> before.entries@[i].handles > 1
            &&& entry.pool matches Some(pool) ==> takes_back(
                before.entries@[i].pool->0,
                packet.reserved,
                pool,
            )
        } by {
            before.lemma_entry(i);
            lemma_replaced(before, id, i, after);
            let entry = after.entries@[i];
            if entry.pool is Some {
                lemma_takes_back(before.entries@[i].pool->0, packet.reserved, entry.pool->0);
            }
        }
    }
}

/// Passing through is as stated.
pub(crate) proof fn lemma_passes_through(
    before: PacketPools,
    id: u64,
    length: usize,
    after: PacketPools,
)
    requires
        before.wf(),
        before.bounced(id, length, after),
    ensures
        passes_through(before, id, length, after),
{
    assert forall|i: int| #[trigger] at(before, id, i) implies {
        let entry = after.entries@[i];
        &&& after.entries@ == before.entries@.update(i, entry)
        &&& entry.id == id
        &&& entry.handles == before.entries@[i].handles
        &&& entry.pool is Some
        &&& passes(before.entries@[i].pool->0, length, entry.pool->0)
    } by {
        before.lemma_entry(i);
        lemma_replaced(before, id, i, after);
        lemma_has(after, id);
        let pool = before.entries@[i].pool->0;
        let pool_after = after.entries@[i].pool->0;
        let between = choose|between: PacketPool| #[trigger]
            pool.acquired(between) && between.took_back(pool.room(length), pool_after);
        lemma_hands_out(pool, length, between);
        lemma_takes_back(between, pool.room(length), pool_after);
        assert(hands_out(pool, length, pool.room(length), between));
    }
}

/// What is taken back is as stated.
proof fn lemma_takes_back(before: PacketPool, reserved: usize, after: PacketPool)
    requires
        before.took_back(reserved, after),
    ensures
        takes_back(before, reserved, after),
{
    let (buffer, capacity) = choose|buffer: Vec<u8>, capacity: usize|
        #[trigger] packet::measured(buffer, capacity) && before.stored(
            buffer,
            if capacity < reserved {
                reserved
            } else {
                capacity
            },
            after,
        );
    let kept = queue_contents(before.buffers);
    let left = queue_contents(after.buffers);
    if left.len() > kept.len() {
        assert(left.drop_last() =~= kept);
        assert(after.cached() != before.cached());
    }
    assert(packet::measured(buffer, capacity));
}

/// One more number adds to the sum.
proof fn lemma_sum_last(numbers: Seq<int>)
    requires
        numbers.len() > 0,
    ensures
        sum(numbers) == sum(numbers.drop_last()) + numbers.last(),
{
    reveal(Seq::fold_left);
}

/// The capacities of buffers, however they are added.
proof fn lemma_total_capacity(
    buffers: Seq<(Vec<u8>, usize)>,
    capacities: spec_fn((Vec<u8>, usize)) -> int,
)
    requires
        forall|item: (Vec<u8>, usize)| #[trigger] capacities(item) == item.1,
    ensures
        packet::total_capacity(buffers) == sum(buffers.map_values(capacities)),
    decreases buffers.len(),
{
    let numbers = buffers.map_values(capacities);
    if buffers.len() > 0 {
        let shorter = buffers.drop_last();
        lemma_total_capacity(shorter, capacities);
        packet::lemma_total_capacity_push(shorter, buffers.last());
        assert(shorter.push(buffers.last()) =~= buffers);
        lemma_sum_last(numbers);
        assert(numbers.drop_last() =~= shorter.map_values(capacities));
        assert(numbers.last() == capacities(buffers.last()));
    } else {
        reveal(Seq::fold_left);
    }
}

/// The live entries are those whose pool is there.
proof fn lemma_live(entries: Seq<PoolEntry>, alive: spec_fn(PoolEntry) -> bool)
    requires
        forall|entry: PoolEntry| #[trigger] alive(entry) == (entry.pool is Some),
    ensures
        packet::live_entries(entries) == entries.filter(alive),
    decreases entries.len(),
{
    reveal(Seq::filter);
    if entries.len() > 0 {
        lemma_live(entries.drop_last(), alive);
    }
}

/// A pool that is there is at some index.
proof fn lemma_has(pools: PacketPools, id: u64) -> (i: int)
    requires
        pools.has(id),
    ensures
        at(pools, id, i),
        pools.entries@[i] == pools.entry(id),
{
    choose|i: int|
        0 <= i < pools.entries@.len() && (#[trigger] pools.entries@[i]).id == id
            && pools.entries@[i].pool is Some
}

/// Replacing the entry with a number is updating it where it is.
proof fn lemma_replaced(before: PacketPools, id: u64, i: int, after: PacketPools)
    requires
        before.wf(),
        at(before, id, i),
        exists|entry: PoolEntry| #[trigger] before.replaced(id, entry, after),
    ensures
        after.entries@ == before.entries@.update(i, after.entries@[i]),
        forall|entry: PoolEntry| #[trigger]
            before.replaced(id, entry, after) ==> after.entries@[i] == entry,
{
    let entry = choose|entry: PoolEntry| #[trigger] before.replaced(id, entry, after);
    assert forall|k: int| 0 <= k < before.entries@.len() implies #[trigger] after.entries@[k]
        == before.entries@.update(i, after.entries@[i])[k] by {
        if k < i {
            assert(before.entries@[k].id != before.entries@[i].id);
        } else if k > i {
            assert(before.entries@[i].id != before.entries@[k].id);
        }
    }
    assert(after.entries@ =~= before.entries@.update(i, after.entries@[i]));
}

/// The kept bytes of pools, however they are added.
proof fn lemma_cached_bytes(live: Seq<PoolEntry>, cached: spec_fn(PoolEntry) -> int)
    requires
        forall|entry: PoolEntry| #[trigger] cached(entry) == entry.pool->0.cached_bytes,
    ensures
        packet::pools_cached_bytes(live) == sum(live.map_values(cached)),
    decreases live.len(),
{
    let numbers = live.map_values(cached);
    if live.len() > 0 {
        lemma_cached_bytes(live.drop_last(), cached);
        lemma_sum_last(numbers);
        assert(numbers.drop_last() =~= live.drop_last().map_values(cached));
        assert(numbers.last() == cached(live.last()));
    } else {
        reveal(Seq::fold_left);
    }
}

/// Adding to a number that wraps at 64 bits is adding, and wrapping then.
proof fn lemma_wide(a: int, b: int)
    ensures
        counter::wrapped64(counter::wrapped64(a) + b) == counter::wrapped64(a + b),
        0 <= counter::wrapped64(a + b) <= u64::MAX,
{
}

/// The machine-sized numbers of pools, however they are added.
proof fn lemma_pools_stats(
    live: Seq<PoolEntry>,
    packets: spec_fn(PoolEntry) -> int,
    bytes: spec_fn(PoolEntry) -> int,
)
    requires
        forall|entry: PoolEntry| #[trigger]
            packets(entry) == (queue_contents(entry.pool->0.buffers).len() as usize) as int,
        forall|entry: PoolEntry| #[trigger] bytes(entry) == entry.pool->0.cached_bytes,
    ensures
        ({
            let runtime = packet::pools_stats(live);
            &&& runtime.live_pools == counter::wrapped(live.len() as int)
            &&& runtime.cached_packets == counter::wrapped(sum(live.map_values(packets)))
            &&& runtime.cached_bytes == counter::wrapped(sum(live.map_values(bytes)))
        }),
    decreases live.len(),
{
    if live.len() > 0 {
        let shorter = live.drop_last();
        lemma_pools_stats(shorter, packets, bytes);
        lemma_sum_mapped(live, packets);
        lemma_sum_mapped(live, bytes);
        let last = live.last();
        counter::lemma_wrapped_shift(shorter.len() as int, 1);
        counter::lemma_wrapped_shift(live.len() as int, 0);
        counter::lemma_wrapped_shift(sum(shorter.map_values(packets)), packets(last));
        counter::lemma_wrapped_shift(sum(live.map_values(packets)), 0);
        counter::lemma_wrapped_shift(sum(shorter.map_values(bytes)), bytes(last));
        counter::lemma_wrapped_shift(sum(live.map_values(bytes)), 0);
    } else {
        reveal(Seq::fold_left);
        counter::lemma_wrapped_small(0);
        assert(live.map_values(packets) =~= Seq::empty());
        assert(live.map_values(bytes) =~= Seq::empty());
    }
}

/// The wide numbers of pools, however they are added.
proof fn lemma_pools_counts(
    live: Seq<PoolEntry>,
    allocations: spec_fn(PoolEntry) -> int,
    reuses: spec_fn(PoolEntry) -> int,
    returned: spec_fn(PoolEntry) -> int,
    discarded: spec_fn(PoolEntry) -> int,
)
    requires
        forall|entry: PoolEntry| #[trigger] allocations(entry) == entry.pool->0.allocations,
        forall|entry: PoolEntry| #[trigger] reuses(entry) == entry.pool->0.reuses,
        forall|entry: PoolEntry| #[trigger] returned(entry) == entry.pool->0.returned,
        forall|entry: PoolEntry| #[trigger] discarded(entry) == entry.pool->0.discarded,
    ensures
        ({
            let runtime = packet::pools_stats(live);
            &&& runtime.allocations == counter::wrapped64(sum(live.map_values(allocations)))
            &&& runtime.reuses == counter::wrapped64(sum(live.map_values(reuses)))
            &&& runtime.returned == counter::wrapped64(sum(live.map_values(returned)))
            &&& runtime.discarded == counter::wrapped64(sum(live.map_values(discarded)))
        }),
    decreases live.len(),
{
    if live.len() > 0 {
        let shorter = live.drop_last();
        let last = live.last();
        lemma_pools_counts(shorter, allocations, reuses, returned, discarded);
        lemma_sum_mapped(live, allocations);
        lemma_sum_mapped(live, reuses);
        lemma_sum_mapped(live, returned);
        lemma_sum_mapped(live, discarded);
        lemma_wide(sum(shorter.map_values(allocations)), allocations(last));
        lemma_wide(sum(shorter.map_values(reuses)), reuses(last));
        lemma_wide(sum(shorter.map_values(returned)), returned(last));
        lemma_wide(sum(shorter.map_values(discarded)), discarded(last));
    } else {
        reveal(Seq::fold_left);
        assert(live.map_values(allocations) =~= Seq::empty());
        assert(live.map_values(reuses) =~= Seq::empty());
        assert(live.map_values(returned) =~= Seq::empty());
        assert(live.map_values(discarded) =~= Seq::empty());
    }
}

/// The sum over entries is that over all but the last, and the last.
proof fn lemma_sum_mapped(live: Seq<PoolEntry>, f: spec_fn(PoolEntry) -> int)
    requires
        live.len() > 0,
    ensures
        sum(live.map_values(f)) == sum(live.drop_last().map_values(f)) + f(live.last()),
{
    lemma_sum_last(live.map_values(f));
    assert(live.map_values(f).drop_last() =~= live.drop_last().map_values(f));
}

} // verus!
