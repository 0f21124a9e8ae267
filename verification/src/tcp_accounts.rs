//! The books of a stack's streams: what its TCP telemetry shows is what its live
//! streams hold.

use vstd::prelude::*;

use crate::counter;
use crate::shard;
use crate::shard::ShardState;
use crate::tcp_stream_context::{
    QueuedPbuf, TcpContexts, TcpRuntimeStats, TcpStreamContextInner,
};
use crate::tcp_stream_impl;
use crate::tcp_stream_impl::TcpStreamImpl;

verus! {

/// The chains that each stream holds with bytes that were not delivered.
pub open spec fn held<W>(
    streams: Seq<TcpStreamImpl>,
    contexts: Map<u64, TcpStreamContextInner<W>>,
) -> Seq<Seq<QueuedPbuf>> {
    streams.map_values(
        |stream: TcpStreamImpl|
            tcp_stream_impl::holding(stream.reader, contexts[stream.ctx]),
    )
}

/// How many chains these are, over all streams.
pub open spec fn total_packets(held: Seq<Seq<QueuedPbuf>>) -> int
    decreases held.len(),
{
    if held.len() == 0 {
        0
    } else {
        total_packets(held.drop_last()) + held.last().len()
    }
}

/// How many bytes they count for, over all streams.
pub open spec fn total_bytes(held: Seq<Seq<QueuedPbuf>>) -> int
    decreases held.len(),
{
    if held.len() == 0 {
        0
    } else {
        total_bytes(held.drop_last()) + tcp_stream_impl::chains_bytes(held.last())
    }
}

/// Whether these are the live streams of a stack: each has a context of its own, and
/// every context belongs to one.
pub open spec fn carried<W>(
    streams: Seq<TcpStreamImpl>,
    contexts: Map<u64, TcpStreamContextInner<W>>,
) -> bool {
    &&& forall|i: int|
        0 <= i < streams.len() ==> contexts.contains_key((#[trigger] streams[i]).ctx)
    &&& forall|i: int, j: int|
        0 <= i < j < streams.len() ==> (#[trigger] streams[i]).ctx != (#[trigger] streams[j]).ctx
    &&& forall|id: u64| #[trigger]
        contexts.contains_key(id) ==> exists|i: int|
            0 <= i < streams.len() && (#[trigger] streams[i]).ctx == id
}

/// Whether the telemetry of a stack is what its live streams add up to: how many there
/// are, how many chains they hold, and how many bytes those count for.
pub open spec fn accounted<W>(
    streams: Seq<TcpStreamImpl>,
    table: TcpContexts<W>,
    stats: TcpRuntimeStats,
) -> bool {
    let held = held(streams, table.contexts@);
    &&& carried(streams, table.contexts@)
    &&& stats.active_streams == counter::wrapped(streams.len() as int)
    &&& stats.queued_packets == counter::wrapped(total_packets(held))
    &&& stats.queued_bytes == counter::wrapped(total_bytes(held))
}

/// Whether an operation that is not one of a stream's reader keeps the books, whichever
/// streams live.
pub open spec fn keeps_books<W>(
    table: TcpContexts<W>,
    stats: TcpRuntimeStats,
    table_after: TcpContexts<W>,
    stats_after: TcpRuntimeStats,
) -> bool {
    forall|streams: Seq<TcpStreamImpl>| #[trigger]
        accounted(streams, table, stats) ==> accounted(streams, table_after, stats_after)
}

/// Whether an operation that leaves the counters alone keeps the books, whatever they
/// show and whichever streams live.
pub open spec fn leaves_books<W>(table: TcpContexts<W>, table_after: TcpContexts<W>) -> bool {
    forall|streams: Seq<TcpStreamImpl>, stats: TcpRuntimeStats| #[trigger]
        accounted(streams, table, stats) ==> accounted(streams, table_after, stats)
}

/// Whether the operation that opened `stream` keeps the books.
pub open spec fn opens_in_books<W>(
    table: TcpContexts<W>,
    stats: TcpRuntimeStats,
    stream: TcpStreamImpl,
    table_after: TcpContexts<W>,
    stats_after: TcpRuntimeStats,
) -> bool {
    forall|streams: Seq<TcpStreamImpl>| #[trigger]
        accounted(streams, table, stats) ==> accounted(
            streams.push(stream),
            table_after,
            stats_after,
        )
}

/// Whether an operation that turned the live stream `stream` into `stream_after` keeps
/// the books.
pub open spec fn turns_in_books<W>(
    stream: TcpStreamImpl,
    table: TcpContexts<W>,
    stats: TcpRuntimeStats,
    stream_after: TcpStreamImpl,
    table_after: TcpContexts<W>,
    stats_after: TcpRuntimeStats,
) -> bool {
    forall|streams: Seq<TcpStreamImpl>, at: int|
        #![trigger accounted(streams, table, stats), streams[at]]
        accounted(streams, table, stats) && 0 <= at < streams.len() && streams[at] == stream
            ==> accounted(streams.update(at, stream_after), table_after, stats_after)
}

/// Whether the operation that closed the live stream `stream` keeps the books.
pub open spec fn closes_in_books<W>(
    stream: TcpStreamImpl,
    table: TcpContexts<W>,
    stats: TcpRuntimeStats,
    table_after: TcpContexts<W>,
    stats_after: TcpRuntimeStats,
) -> bool {
    forall|streams: Seq<TcpStreamImpl>, at: int|
        #![trigger accounted(streams, table, stats), streams[at]]
        accounted(streams, table, stats) && 0 <= at < streams.len() && streams[at] == stream
            ==> accounted(streams.remove(at), table_after, stats_after)
}

/// Replacing what one stream holds changes the totals by the difference.
proof fn lemma_totals_update(held: Seq<Seq<QueuedPbuf>>, at: int, chains: Seq<QueuedPbuf>)
    requires
        0 <= at < held.len(),
    ensures
        total_packets(held.update(at, chains)) == total_packets(held) - held[at].len()
            + chains.len(),
        total_bytes(held.update(at, chains)) == total_bytes(held) - tcp_stream_impl::chains_bytes(
            held[at],
        ) + tcp_stream_impl::chains_bytes(chains),
    decreases held.len(),
{
    let after = held.update(at, chains);
    if at == held.len() - 1 {
        assert(after.drop_last() =~= held.drop_last());
    } else {
        lemma_totals_update(held.drop_last(), at, chains);
        assert(after.drop_last() =~= held.drop_last().update(at, chains));
    }
}

/// Leaving out one stream takes what it holds off the totals.
proof fn lemma_totals_remove(held: Seq<Seq<QueuedPbuf>>, at: int)
    requires
        0 <= at < held.len(),
    ensures
        total_packets(held.remove(at)) == total_packets(held) - held[at].len(),
        total_bytes(held.remove(at)) == total_bytes(held) - tcp_stream_impl::chains_bytes(held[at]),
    decreases held.len(),
{
    let after = held.remove(at);
    if at == held.len() - 1 {
        assert(after =~= held.drop_last());
    } else {
        lemma_totals_remove(held.drop_last(), at);
        assert(after.drop_last() =~= held.drop_last().remove(at));
        assert(after.last() == held.last());
    }
}

/// An operation that leaves the queues of received chains as they are keeps the books.
pub proof fn law_what_leaves_the_queues_alone_keeps_the_books<W>(
    table: TcpContexts<W>,
    table_after: TcpContexts<W>,
)
    requires
        forall|id: u64| #[trigger]
            table_after.contexts@.contains_key(id) <==> table.contexts@.contains_key(id),
        forall|id: u64| #[trigger]
            table.contexts@.contains_key(id) ==> table_after.contexts@[id].read_queue@
                == table.contexts@[id].read_queue@,
    ensures
        leaves_books(table, table_after),
{
    assert forall|streams: Seq<TcpStreamImpl>, stats: TcpRuntimeStats| #[trigger]
        accounted(streams, table, stats) implies accounted(streams, table_after, stats) by {
        let before = table.contexts@;
        let after = table_after.contexts@;
        assert forall|i: int| 0 <= i < streams.len() implies held(streams, after)[i] == held(
            streams,
            before,
        )[i] by {
            assert(before.contains_key(streams[i].ctx));
        }
        assert(held(streams, after) =~= held(streams, before));
        assert forall|i: int| 0 <= i < streams.len() implies after.contains_key(
            (#[trigger] streams[i]).ctx,
        ) by {
            assert(before.contains_key(streams[i].ctx));
        }
        assert forall|id: u64| #[trigger] after.contains_key(id) implies exists|i: int|
            0 <= i < streams.len() && (#[trigger] streams[i]).ctx == id by {
            assert(before.contains_key(id));
        }
    }
}

/// A change of one stream and its context keeps the books where the counters follow
/// what the stream holds.
pub proof fn lemma_turns_in_books<W>(
    stream: TcpStreamImpl,
    table: TcpContexts<W>,
    stats: TcpRuntimeStats,
    stream_after: TcpStreamImpl,
    table_after: TcpContexts<W>,
    stats_after: TcpRuntimeStats,
)
    requires
        stream_after.ctx == stream.ctx,
        table.contexts@.contains_key(stream.ctx),
        table_after.contexts@ == table.contexts@.insert(
            stream.ctx,
            table_after.contexts@[stream.ctx],
        ),
        ({
            let before = tcp_stream_impl::holding(stream.reader, table.contexts@[stream.ctx]);
            let after = tcp_stream_impl::holding(
                stream_after.reader,
                table_after.contexts@[stream.ctx],
            );
            stats_after == stats.shifted(
                after.len() - before.len(),
                tcp_stream_impl::chains_bytes(after) - tcp_stream_impl::chains_bytes(before),
            )
        }),
    ensures
        turns_in_books(stream, table, stats, stream_after, table_after, stats_after),
{
    assert forall|streams: Seq<TcpStreamImpl>, at: int|
        #![trigger accounted(streams, table, stats), streams[at]]
        accounted(streams, table, stats) && 0 <= at < streams.len() && streams[at]
            == stream implies accounted(
        streams.update(at, stream_after),
        table_after,
        stats_after,
    ) by {
        let before = table.contexts@;
        let after = table_after.contexts@;
        let streams_after = streams.update(at, stream_after);
        let chains = tcp_stream_impl::holding(stream_after.reader, after[stream.ctx]);
        let h = held(streams, before);
        assert forall|i: int| 0 <= i < streams.len() implies held(streams_after, after)[i]
            == h.update(at, chains)[i] by {
            if i != at {
                assert(streams[i].ctx != streams[at].ctx);
            }
        }
        assert(held(streams_after, after) =~= h.update(at, chains));
        lemma_totals_update(h, at, chains);
        counter::lemma_wrapped_shift(total_packets(h), chains.len() - h[at].len());
        counter::lemma_wrapped_shift(
            total_bytes(h),
            tcp_stream_impl::chains_bytes(chains) - tcp_stream_impl::chains_bytes(h[at]),
        );
        counter::lemma_wrapped_shift(stats.queued_packets + chains.len() - h[at].len(), 0);
        counter::lemma_wrapped_shift(
            stats.queued_bytes + tcp_stream_impl::chains_bytes(chains)
                - tcp_stream_impl::chains_bytes(h[at]),
            0,
        );
        assert forall|i: int| 0 <= i < streams_after.len() implies (
        #[trigger] streams_after[i]).ctx == streams[i].ctx by {}
        assert forall|id: u64| #[trigger] after.contains_key(id) implies exists|i: int|
            0 <= i < streams_after.len() && (#[trigger] streams_after[i]).ctx == id by {
            assert(before.contains_key(id));
            let i = choose|i: int| 0 <= i < streams.len() && (#[trigger] streams[i]).ctx == id;
            assert(streams_after[i].ctx == id);
        }
    }
}

/// A change of one context, of a stream that stays as it is, keeps the books where the
/// counters follow what its queue holds.
pub proof fn lemma_context_in_books<W>(
    id: u64,
    table: TcpContexts<W>,
    stats: TcpRuntimeStats,
    table_after: TcpContexts<W>,
    stats_after: TcpRuntimeStats,
)
    requires
        table.contexts@.contains_key(id),
        table_after.contexts@ == table.contexts@.insert(id, table_after.contexts@[id]),
        ({
            let before = table.contexts@[id].read_queue@;
            let after = table_after.contexts@[id].read_queue@;
            stats_after == stats.shifted(
                after.len() - before.len(),
                tcp_stream_impl::chains_bytes(after) - tcp_stream_impl::chains_bytes(before),
            )
        }),
    ensures
        keeps_books(table, stats, table_after, stats_after),
{
    assert forall|streams: Seq<TcpStreamImpl>| #[trigger]
        accounted(streams, table, stats) implies accounted(streams, table_after, stats_after) by {
        let at = choose|i: int| 0 <= i < streams.len() && (#[trigger] streams[i]).ctx == id;
        let stream = streams[at];
        let queue = table.contexts@[id].read_queue@;
        let queue_after = table_after.contexts@[id].read_queue@;
        tcp_stream_impl::lemma_chains_bytes_concat(stream.reader.holding(), queue);
        tcp_stream_impl::lemma_chains_bytes_concat(stream.reader.holding(), queue_after);
        lemma_turns_in_books(stream, table, stats, stream, table_after, stats_after);
        assert(streams.update(at, stream) =~= streams);
    }
}

/// A new stream that holds nothing, under a key that was free, keeps the books where it
/// is counted.
pub proof fn lemma_opens_in_books<W>(
    table: TcpContexts<W>,
    stats: TcpRuntimeStats,
    stream: TcpStreamImpl,
    table_after: TcpContexts<W>,
    stats_after: TcpRuntimeStats,
)
    requires
        !table.contexts@.contains_key(stream.ctx),
        table_after.contexts@ == table.contexts@.insert(
            stream.ctx,
            table_after.contexts@[stream.ctx],
        ),
        tcp_stream_impl::holding(stream.reader, table_after.contexts@[stream.ctx]) == Seq::<
            QueuedPbuf,
        >::empty(),
        stats_after == stats.with_streams(1),
    ensures
        opens_in_books(table, stats, stream, table_after, stats_after),
{
    assert forall|streams: Seq<TcpStreamImpl>| #[trigger]
        accounted(streams, table, stats) implies accounted(
        streams.push(stream),
        table_after,
        stats_after,
    ) by {
        let before = table.contexts@;
        let after = table_after.contexts@;
        let streams_after = streams.push(stream);
        let h = held(streams, before);
        assert forall|i: int| 0 <= i < streams.len() implies held(streams_after, after)[i]
            == h[i] by {
            assert(before.contains_key(streams[i].ctx));
        }
        assert(held(streams_after, after).drop_last() =~= h);
        counter::lemma_wrapped_shift(streams.len() as int, 1);
        counter::lemma_wrapped_shift(stats.active_streams + 1, 0);
        assert forall|i: int| 0 <= i < streams_after.len() implies after.contains_key(
            (#[trigger] streams_after[i]).ctx,
        ) by {
            if i < streams.len() {
                assert(before.contains_key(streams[i].ctx));
            }
        }
        assert forall|i: int, j: int| 0 <= i < j < streams_after.len() implies (
        #[trigger] streams_after[i]).ctx != (#[trigger] streams_after[j]).ctx by {
            assert(before.contains_key(streams[i].ctx));
            if j < streams.len() {
                assert(streams[i].ctx != streams[j].ctx);
            }
        }
        assert forall|id: u64| #[trigger] after.contains_key(id) implies exists|i: int|
            0 <= i < streams_after.len() && (#[trigger] streams_after[i]).ctx == id by {
            if id == stream.ctx {
                assert(streams_after[streams.len() as int].ctx == id);
            } else {
                assert(before.contains_key(id));
                let i = choose|i: int| 0 <= i < streams.len() && (#[trigger] streams[i]).ctx == id;
                assert(streams_after[i].ctx == id);
            }
        }
    }
}

/// A stream that goes away with its context keeps the books where what it held and it
/// itself are discounted, and no other queue changes.
pub proof fn lemma_closes_in_books<W>(
    stream: TcpStreamImpl,
    table: TcpContexts<W>,
    stats: TcpRuntimeStats,
    table_after: TcpContexts<W>,
    stats_after: TcpRuntimeStats,
)
    requires
        table.contexts@.contains_key(stream.ctx),
        forall|id: u64| #[trigger]
            table_after.contexts@.contains_key(id) <==> table.contexts@.contains_key(id) && id
                != stream.ctx,
        forall|id: u64| #[trigger]
            table_after.contexts@.contains_key(id) ==> table_after.contexts@[id].read_queue@
                == table.contexts@[id].read_queue@,
        ({
            let chains = tcp_stream_impl::holding(stream.reader, table.contexts@[stream.ctx]);
            stats_after == stats.shifted(
                -(chains.len() as int),
                -tcp_stream_impl::chains_bytes(chains),
            ).with_streams(-1)
        }),
    ensures
        closes_in_books(stream, table, stats, table_after, stats_after),
{
    assert forall|streams: Seq<TcpStreamImpl>, at: int|
        #![trigger accounted(streams, table, stats), streams[at]]
        accounted(streams, table, stats) && 0 <= at < streams.len() && streams[at]
            == stream implies accounted(streams.remove(at), table_after, stats_after) by {
        let before = table.contexts@;
        let after = table_after.contexts@;
        let rest = streams.remove(at);
        let h = held(streams, before);
        assert forall|i: int| 0 <= i < rest.len() implies held(rest, after)[i] == h.remove(
            at,
        )[i] by {
            let from = if i < at {
                i
            } else {
                i + 1
            };
            assert(rest[i] == streams[from]);
            assert(before.contains_key(streams[from].ctx));
            assert(streams[from].ctx != streams[at].ctx);
            assert(after.contains_key(rest[i].ctx));
        }
        assert(held(rest, after) =~= h.remove(at));
        lemma_totals_remove(h, at);
        counter::lemma_wrapped_shift(total_packets(h), -(h[at].len() as int));
        counter::lemma_wrapped_shift(total_bytes(h), -tcp_stream_impl::chains_bytes(h[at]));
        counter::lemma_wrapped_shift(stats.queued_packets - h[at].len(), 0);
        counter::lemma_wrapped_shift(
            stats.queued_bytes - tcp_stream_impl::chains_bytes(h[at]),
            0,
        );
        counter::lemma_wrapped_shift(streams.len() as int, -1);
        counter::lemma_wrapped_shift(stats.active_streams - 1, 0);
        assert forall|i: int| 0 <= i < rest.len() implies after.contains_key(
            (#[trigger] rest[i]).ctx,
        ) by {
            let from = if i < at {
                i
            } else {
                i + 1
            };
            assert(rest[i] == streams[from]);
            assert(before.contains_key(streams[from].ctx));
            assert(streams[from].ctx != streams[at].ctx);
        }
        assert forall|i: int, j: int| 0 <= i < j < rest.len() implies (#[trigger] rest[i]).ctx
            != (#[trigger] rest[j]).ctx by {
            let from = if i < at {
                i
            } else {
                i + 1
            };
            let to = if j < at {
                j
            } else {
                j + 1
            };
            assert(rest[i] == streams[from] && rest[j] == streams[to]);
        }
        assert forall|id: u64| #[trigger] after.contains_key(id) implies exists|i: int|
            0 <= i < rest.len() && (#[trigger] rest[i]).ctx == id by {
            assert(before.contains_key(id));
            let i = choose|i: int| 0 <= i < streams.len() && (#[trigger] streams[i]).ctx == id;
            if i < at {
                assert(rest[i].ctx == id);
            } else {
                assert(i > at);
                assert(rest[i - 1].ctx == id);
            }
        }
    }
}

/// A new stack is in order, and so is one whose streams are all gone: its counters are
/// zero.
pub proof fn law_without_streams_the_counters_are_zero<W>(
    table: TcpContexts<W>,
    stats: TcpRuntimeStats,
)
    requires
        table.contexts@ == Map::<u64, TcpStreamContextInner<W>>::empty(),
    ensures
        accounted(Seq::empty(), table, stats) <==> stats == (TcpRuntimeStats {
            active_streams: 0,
            queued_packets: 0,
            queued_bytes: 0,
        }),
{
    counter::lemma_wrapped_small(0);
    assert(held(Seq::empty(), table.contexts@) =~= Seq::empty());
}

/// The counters are the numbers themselves as long as those fit: how many streams there
/// are, how many chains they hold, and how many bytes in them.
pub proof fn law_counters_are_exact_while_they_fit<W>(
    streams: Seq<TcpStreamImpl>,
    table: TcpContexts<W>,
    stats: TcpRuntimeStats,
)
    requires
        accounted(streams, table, stats),
        streams.len() <= usize::MAX,
        0 <= total_packets(held(streams, table.contexts@)) <= usize::MAX,
        0 <= total_bytes(held(streams, table.contexts@)) <= usize::MAX,
    ensures
        stats.active_streams == streams.len(),
        stats.queued_packets == total_packets(held(streams, table.contexts@)),
        stats.queued_bytes == total_bytes(held(streams, table.contexts@)),
{
    counter::lemma_wrapped_small(streams.len() as int);
    counter::lemma_wrapped_small(total_packets(held(streams, table.contexts@)));
    counter::lemma_wrapped_small(total_bytes(held(streams, table.contexts@)));
}

/// What streams hold determines the telemetry, so whatever happened in between, opening
/// and closing streams, receiving and reading, the telemetry is back where it was once
/// the same streams hold the same chains.
pub proof fn law_the_books_determine_the_counters<W>(
    streams: Seq<TcpStreamImpl>,
    table: TcpContexts<W>,
    stats: TcpRuntimeStats,
    streams_later: Seq<TcpStreamImpl>,
    table_later: TcpContexts<W>,
    stats_later: TcpRuntimeStats,
)
    requires
        accounted(streams, table, stats),
        accounted(streams_later, table_later, stats_later),
        held(streams_later, table_later.contexts@) == held(streams, table.contexts@),
    ensures
        stats_later == stats,
{
    assert(streams_later.len() == held(streams_later, table_later.contexts@).len());
    assert(streams.len() == held(streams, table.contexts@).len());
}

/// How many streams the first `n` stacks have, where `streams` lists those of each.
pub open spec fn all_streams(streams: Seq<Seq<TcpStreamImpl>>, n: int) -> int
    decreases n,
{
    if n <= 0 {
        0
    } else {
        all_streams(streams, n - 1) + streams[n - 1].len()
    }
}

/// How many chains those streams hold.
pub open spec fn all_packets<W>(
    streams: Seq<Seq<TcpStreamImpl>>,
    shards: Seq<ShardState<W>>,
    n: int,
) -> int
    decreases n,
{
    if n <= 0 {
        0
    } else {
        all_packets(streams, shards, n - 1) + total_packets(
            held(streams[n - 1], shards[n - 1].tcp.contexts@),
        )
    }
}

/// How many bytes those chains count for.
pub open spec fn all_bytes<W>(
    streams: Seq<Seq<TcpStreamImpl>>,
    shards: Seq<ShardState<W>>,
    n: int,
) -> int
    decreases n,
{
    if n <= 0 {
        0
    } else {
        all_bytes(streams, shards, n - 1) + total_bytes(
            held(streams[n - 1], shards[n - 1].tcp.contexts@),
        )
    }
}

/// Wrapping two counters and then their sum is wrapping the sum.
proof fn lemma_wrapped_sum(a: int, b: int)
    ensures
        counter::wrapped(counter::wrapped(a) + counter::wrapped(b)) == counter::wrapped(a + b),
        0 <= counter::wrapped(a + b) <= usize::MAX,
{
    counter::lemma_wrapped_shift(a, counter::wrapped(b));
    counter::lemma_wrapped_shift(b, a);
    counter::lemma_wrapped_shift(a + b, 0);
}

/// The telemetry of the process is what the live streams of all stacks add up to.
pub proof fn law_the_process_counts_all_streams<W>(
    streams: Seq<Seq<TcpStreamImpl>>,
    shards: Seq<ShardState<W>>,
    n: int,
)
    requires
        0 <= n <= shards.len(),
        n <= streams.len(),
        forall|k: int|
            0 <= k < n ==> accounted(
                streams[k],
                (#[trigger] shards[k]).tcp,
                shards[k].tcp_stats,
            ),
    ensures
        ({
            let stats = shard::tcp_totals(shards, n);
            &&& stats.active_streams == counter::wrapped(all_streams(streams, n))
            &&& stats.queued_packets == counter::wrapped(all_packets(streams, shards, n))
            &&& stats.queued_bytes == counter::wrapped(all_bytes(streams, shards, n))
        }),
    decreases n,
{
    if n == 0 {
        counter::lemma_wrapped_small(0);
    } else {
        law_the_process_counts_all_streams(streams, shards, n - 1);
        assert(accounted(streams[n - 1], shards[n - 1].tcp, shards[n - 1].tcp_stats));
        let h = held(streams[n - 1], shards[n - 1].tcp.contexts@);
        lemma_wrapped_sum(all_streams(streams, n - 1), streams[n - 1].len() as int);
        lemma_wrapped_sum(all_packets(streams, shards, n - 1), total_packets(h));
        lemma_wrapped_sum(all_bytes(streams, shards, n - 1), total_bytes(h));
    }
}

} // verus!
