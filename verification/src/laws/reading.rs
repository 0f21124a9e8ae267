//! What a stream receives, what a read delivers, and what goes back to the stack.

use vstd::prelude::*;

use crate::counter;
use crate::io::{ErrorKind, Poll};
use crate::tcp_stream_context;
use crate::tcp_stream_context::{
    flat_len, QueuedPbuf, TcpContexts, TcpRuntimeStats, TcpStreamContextInner,
};
use crate::tcp_stream_impl;
use crate::tcp_stream_impl::{
    tcp_recv_cb, ReadPoll, ReceivedChain, RecvCallback, TcpReader, TcpStreamImpl, Teardown,
};

verus! {

/// The bytes of buffers, one buffer after the other.
pub open spec fn bytes_of(nodes: Seq<Vec<u8>>) -> Seq<u8> {
    nodes.map_values(|node: Vec<u8>| node@).flatten()
}

/// The bytes of chains, one chain after the other.
pub open spec fn bytes_in(chains: Seq<QueuedPbuf>) -> Seq<u8> {
    chains.map_values(|chain: QueuedPbuf| bytes_of(chain.nodes@)).flatten()
}

/// The bytes that a reader has claimed and not delivered: the rest of the chain that it
/// copies out, and the chains that it has not touched.
pub open spec fn claimed_bytes(reader: TcpReader) -> Seq<u8> {
    (match reader.read_buf {
        Some(cursor) => cursor.chain.nodes@[cursor.node as int]@.skip(cursor.node_off as int)
            + bytes_of(cursor.chain.nodes@.skip(cursor.node + 1)),
        None => Seq::empty(),
    }) + bytes_in(reader.staged@)
}

/// The chains that a reader has claimed and not read out.
pub open spec fn claimed_chains(reader: TcpReader) -> Seq<QueuedPbuf> {
    (match reader.read_buf {
        Some(cursor) => seq![cursor.chain],
        None => Seq::empty(),
    }) + reader.staged@
}

/// The counters after `packets` chains with `bytes` bytes were discounted.
pub open spec fn discounted(
    before: TcpRuntimeStats,
    packets: int,
    bytes: int,
    after: TcpRuntimeStats,
) -> bool {
    &&& after.active_streams == before.active_streams
    &&& after.queued_packets == (before.queued_packets - packets) % (usize::MAX + 1)
    &&& after.queued_bytes == (before.queued_bytes - bytes) % (usize::MAX + 1)
}

/// Copying out delivers the first of the claimed bytes, as many as there is room for, and
/// leaves the others. The chains that it read out are the first of those claimed, and they
/// are discounted.
pub proof fn law_copying_out_delivers_the_first_bytes(
    reader: &mut TcpReader,
    stats: &mut TcpRuntimeStats,
    capacity: usize,
    delivered: Vec<u8>,
)
    requires
        old(reader).wf(),
        call_ensures(TcpReader::copy_out, (reader, stats, capacity), delivered),
    ensures
        ({
            let bytes = claimed_bytes(*old(reader));
            let n = if capacity < bytes.len() {
                capacity as int
            } else {
                bytes.len() as int
            };
            let retired = final(reader).spent@.skip(old(reader).spent@.len() as int);
            &&& delivered@ == bytes.take(n)
            &&& claimed_bytes(*final(reader)) == bytes.skip(n)
            &&& final(reader).spent@ == old(reader).spent@ + retired
            &&& claimed_chains(*old(reader)) == retired + claimed_chains(*final(reader))
            &&& discounted(
                *old(stats),
                retired.len() as int,
                bytes_in(retired).len() as int,
                *final(stats),
            )
            &&& final(reader).pending_recved == old(reader).pending_recved
        }),
{
    let bytes = claimed_bytes(*old(reader));
    lemma_claimed(*old(reader));
    lemma_claimed(*final(reader));
    let rest = claimed_bytes(*final(reader));
    let retired = final(reader).spent@.skip(old(reader).spent@.len() as int);
    if delivered@.len() < capacity {
        assert(final(reader).read_buf is None);
        assert(final(reader).staged@ =~= Seq::empty());
        assert(rest =~= Seq::empty()) by {
            reveal(Seq::flatten);
        }
    }
    assert(bytes.take(delivered@.len() as int) =~= delivered@);
    assert(bytes.skip(delivered@.len() as int) =~= rest);
    lemma_claimed_valid(*old(reader));
    assert forall|i: int| 0 <= i < retired.len() implies (#[trigger] retired[i]).wf() by {
        assert(claimed_chains(*old(reader))[i] == retired[i]);
    }
    lemma_counted(retired);
    lemma_discounted(*old(stats), retired.len() as int, bytes_in(retired).len() as int);
}

/// A read on a live connection delivers the first of the bytes that were received and not
/// delivered, as many as there is room for, and leaves the others. It waits exactly where
/// there are none and the stream has not ended. A read on a failed connection is refused and
/// delivers nothing.
pub proof fn law_a_read_delivers_the_first_bytes<W>(
    stream: &mut TcpStreamImpl,
    table: &mut TcpContexts<W>,
    stats: &mut TcpRuntimeStats,
    waker: W,
    registered_will_wake: bool,
    capacity: usize,
    read: ReadPoll,
)
    requires
        old(stream).wf(*old(table)),
        call_ensures(
            TcpStreamImpl::poll_read::<W>,
            (stream, table, stats, waker, registered_will_wake, capacity),
            read,
        ),
    ensures
        ({
            let ctx = old(table).contexts@[old(stream).ctx];
            let bytes = claimed_bytes(old(stream).reader) + bytes_in(ctx.read_queue@);
            let after = final(table).contexts@[old(stream).ctx];
            let rest = claimed_bytes(final(stream).reader) + bytes_in(after.read_queue@);
            let n = if ctx.errored {
                0
            } else if capacity < bytes.len() {
                capacity as int
            } else {
                bytes.len() as int
            };
            &&& read.delivered@ == bytes.take(n)
            &&& rest == bytes.skip(n)
            &&& match read.outcome {
                Poll::Pending => !ctx.errored && bytes.len() == 0 && !ctx.read_eof,
                Poll::Ready(Ok(())) => !ctx.errored && (bytes.len() > 0 || ctx.read_eof),
                Poll::Ready(Err(error)) => ctx.errored && error.kind == ErrorKind::BrokenPipe
                    && error.message@ == "broken pipe"@,
            }
            &&& after == (TcpStreamContextInner {
                read_queue: after.read_queue,
                read_waker: if read.outcome is Pending && !(ctx.read_waker is Some
                    && registered_will_wake) {
                    Some(waker)
                } else {
                    ctx.read_waker
                },
                ..ctx
            })
            &&& final(table).contexts@ == old(table).contexts@.insert(old(stream).ctx, after)
            &&& final(table).parked@ == old(table).parked@
            &&& *final(stream) == (TcpStreamImpl { reader: final(stream).reader, ..*old(stream) })
        }),
{
    let ctx = old(table).contexts@[old(stream).ctx];
    let after = final(table).contexts@[old(stream).ctx];
    lemma_claimed(old(stream).reader);
    lemma_claimed(final(stream).reader);
    lemma_bytes_in(ctx.read_queue@);
    lemma_bytes_in(after.read_queue@);
    let bytes = claimed_bytes(old(stream).reader) + bytes_in(ctx.read_queue@);
    let rest = claimed_bytes(final(stream).reader) + bytes_in(after.read_queue@);
    assert(bytes == tcp_stream_impl::undelivered(old(stream).reader, ctx));
    assert(rest == tcp_stream_impl::undelivered(final(stream).reader, after));
    assert(bytes.take(read.delivered@.len() as int) =~= read.delivered@);
    assert(bytes.skip(read.delivered@.len() as int) =~= rest);
}

/// A read gives the chains back that the previous one read out, and grants the credit for
/// what that one delivered, in calls that are as large as they can be. The chains that it
/// reads out itself are the first of those with undelivered bytes; they are discounted, and
/// are the next to go back.
pub proof fn law_a_read_settles_the_previous_one<W>(
    stream: &mut TcpStreamImpl,
    table: &mut TcpContexts<W>,
    stats: &mut TcpRuntimeStats,
    waker: W,
    registered_will_wake: bool,
    capacity: usize,
    read: ReadPoll,
)
    requires
        old(stream).wf(*old(table)),
        call_ensures(
            TcpStreamImpl::poll_read::<W>,
            (stream, table, stats, waker, registered_will_wake, capacity),
            read,
        ),
    ensures
        ({
            let ctx = old(table).contexts@[old(stream).ctx];
            let after = final(table).contexts@[old(stream).ctx];
            let spent = final(stream).reader.spent@;
            let owed = old(stream).reader.pending_recved;
            let calls = read.recved@;
            &&& read.freed@ == old(stream).reader.spent@.map_values(|chain: QueuedPbuf| chain.head)
            &&& claimed_chains(old(stream).reader) + ctx.read_queue@ == spent + (claimed_chains(
                final(stream).reader,
            ) + after.read_queue@)
            &&& claimed_chains(final(stream).reader) + after.read_queue@ == Seq::<
                QueuedPbuf,
            >::empty() <==> claimed_bytes(final(stream).reader) + bytes_in(after.read_queue@)
                == Seq::<u8>::empty()
            &&& discounted(
                *old(stats),
                spent.len() as int,
                bytes_in(spent).len() as int,
                *final(stats),
            )
            &&& if ctx.errored {
                calls == Seq::<u16>::empty() && final(stream).reader.pending_recved == owed
            } else {
                &&& final(stream).reader.pending_recved == read.delivered@.len()
                &&& owed == 0 <==> calls.len() == 0
                &&& forall|i: int| 0 <= i < calls.len() - 1 ==> #[trigger] calls[i] == 65535
                &&& owed > 0 ==> 0 < calls.last() && calls.last() + 65535 * (calls.len() - 1)
                    == owed
            }
        }),
{
    let ctx = old(table).contexts@[old(stream).ctx];
    let after = final(table).contexts@[old(stream).ctx];
    let reader = old(stream).reader;
    let reader_after = final(stream).reader;
    let spent = reader_after.spent@;
    lemma_claimed(reader_after);
    lemma_bytes_in(after.read_queue@);
    let held = tcp_stream_impl::holding(reader, ctx);
    let kept = tcp_stream_impl::holding(reader_after, after);
    assert(claimed_chains(reader) + ctx.read_queue@ =~= held);
    assert(claimed_chains(reader_after) + after.read_queue@ =~= kept);
    assert(kept == Seq::<QueuedPbuf>::empty() <==> kept.len() == 0);
    let rest = tcp_stream_impl::undelivered(reader_after, after);
    assert(rest == Seq::<u8>::empty() <==> rest.len() == 0);
    assert(claimed_bytes(reader_after) + bytes_in(after.read_queue@) == rest);
    lemma_claimed_valid(reader);
    assert forall|i: int| 0 <= i < held.len() implies (#[trigger] held[i]).wf() by {
        let claimed = claimed_chains(reader);
        if i < claimed.len() {
            assert(held[i] == claimed[i]);
        } else {
            assert(old(table).contexts@.contains_key(old(stream).ctx));
            assert(held[i] == ctx.read_queue@[i - claimed.len()]);
        }
    }
    assert forall|i: int| 0 <= i < spent.len() implies (#[trigger] spent[i]).wf() by {
        assert(held[i] == spent[i]);
    }
    lemma_counted(spent);
    tcp_stream_impl::lemma_chains_bytes_concat(spent, kept);
    lemma_discounted(*old(stats), spent.len() as int, bytes_in(spent).len() as int);
    lemma_calls(reader.pending_recved as nat);
}

/// A received chain joins the end of its stream's queue with its address and all of its
/// buffers, counts for what it holds, and wakes a waiting reader. An empty one goes back at
/// once, and the end of the stream is noted. A chain for a stream that is gone is refused.
pub proof fn law_a_received_chain_is_queued_whole<W>(
    table: &mut TcpContexts<W>,
    stats: &mut TcpRuntimeStats,
    id: Option<u64>,
    chain: Option<ReceivedChain>,
    answer: RecvCallback<W>,
)
    requires
        call_ensures(tcp_recv_cb::<W>, (table, stats, id, chain), answer),
    ensures
        ({
            let known = id is Some && old(table).contexts@.contains_key(id->0);
            let before = old(table).contexts@[id->0];
            let after = final(table).contexts@[id->0];
            let filled = chain is Some && bytes_of(chain->0.nodes@).len() > 0;
            &&& final(table).parked@ == old(table).parked@
            &&& answer.code == if known {
                0i8
            } else {
                -11i8
            }
            &&& !known ==> {
                &&& final(table).contexts@ == old(table).contexts@
                &&& answer.free is None && answer.wake is None
            }
            &&& known ==> {
                &&& final(table).contexts@ == old(table).contexts@.insert(id->0, after)
                &&& after == (TcpStreamContextInner {
                    read_queue: after.read_queue,
                    read_eof: before.read_eof || chain is None,
                    read_waker: if filled || chain is None {
                        None
                    } else {
                        before.read_waker
                    },
                    ..before
                })
                &&& answer.wake == if filled || chain is None {
                    before.read_waker
                } else {
                    None
                }
                &&& answer.free == if chain is Some && !filled {
                    Some(chain->0.head)
                } else {
                    None
                }
                &&& filled ==> {
                    let queued = after.read_queue@.last();
                    &&& after.read_queue@ == before.read_queue@.push(queued)
                    &&& queued.head == chain->0.head
                    &&& queued.nodes@ == chain->0.nodes@
                    &&& queued.bytes == bytes_of(chain->0.nodes@).len()
                }
                &&& !filled ==> after.read_queue@ == before.read_queue@
            }
            &&& if known && filled {
                discounted(
                    *old(stats),
                    -1,
                    -(bytes_of(chain->0.nodes@).len() as int),
                    *final(stats),
                )
            } else {
                *final(stats) == *old(stats)
            }
        }),
{
    if chain is Some {
        let nodes = chain->0.nodes@;
        lemma_bytes_of(nodes);
        lemma_discounted(*old(stats), -1, -(bytes_of(nodes).len() as int));
    }
}

/// A new reader has claimed nothing, read nothing out and owes no credit.
pub proof fn law_a_new_reader_has_nothing(reader: TcpReader, chain: QueuedPbuf, head: usize)
    requires
        call_ensures(TcpReader::new, (), reader),
        call_ensures(QueuedPbuf::head, (&chain,), head),
    ensures
        claimed_chains(reader) == Seq::<QueuedPbuf>::empty(),
        reader.spent@.len() == 0,
        reader.pending_recved == 0,
        head == chain.head,
{
}

/// A chain counts for as many bytes as its buffers hold together.
pub proof fn law_a_chain_counts_for_its_bytes(nodes: Vec<Vec<u8>>, len: usize)
    requires
        call_ensures(flat_len, (&nodes,), len),
    ensures
        len == bytes_of(nodes@).len(),
{
    lemma_bytes_of(nodes@);
}

/// A teardown gives back every chain that the stream had, each once, whether it was read
/// out, claimed or never claimed. What was not read out is discounted, and so is the stream.
/// A failed connection is gone, one whose sending direction was shut is closed, and any other
/// is aborted.
pub proof fn law_a_teardown_gives_everything_back<W>(
    stream: TcpStreamImpl,
    table: &mut TcpContexts<W>,
    stats: &mut TcpRuntimeStats,
    answer: Teardown<W>,
)
    requires
        stream.wf(*old(table)),
        call_ensures(TcpStreamImpl::teardown::<W>, (stream, table, stats), answer),
    ensures
        ({
            let ctx = old(table).contexts@[stream.ctx];
            let held = claimed_chains(stream.reader) + ctx.read_queue@;
            let all = stream.reader.spent@ + held;
            &&& answer.freed@.to_multiset() == all.map_values(
                |chain: QueuedPbuf| chain.head,
            ).to_multiset()
            &&& answer.pcb is Gone <==> ctx.errored
            &&& answer.pcb is Close <==> !ctx.errored && ctx.closed
            &&& answer.pcb is Abort <==> !ctx.errored && !ctx.closed
            &&& final(stats).active_streams == (old(stats).active_streams - 1) % (usize::MAX + 1)
            &&& final(stats).queued_packets == (old(stats).queued_packets - held.len()) % (
            usize::MAX + 1)
            &&& final(stats).queued_bytes == (old(stats).queued_bytes - bytes_in(held).len()) % (
            usize::MAX + 1)
        }),
{
    let ctx = old(table).contexts@[stream.ctx];
    let held = claimed_chains(stream.reader) + ctx.read_queue@;
    let all = stream.reader.spent@ + held;
    assert(held =~= tcp_stream_impl::holding(stream.reader, ctx));
    assert(all =~= tcp_stream_impl::owned(stream.reader, ctx));
    tcp_stream_impl::law_teardown_gives_back_everything(stream.reader, ctx, answer.freed@);
    lemma_claimed_valid(stream.reader);
    assert forall|i: int| 0 <= i < held.len() implies (#[trigger] held[i]).wf() by {
        let claimed = claimed_chains(stream.reader);
        if i < claimed.len() {
            assert(held[i] == claimed[i]);
        } else {
            assert(old(table).contexts@.contains_key(stream.ctx));
            assert(held[i] == ctx.read_queue@[i - claimed.len()]);
        }
    }
    lemma_counted(held);
    lemma_discounted(*old(stats), held.len() as int, bytes_in(held).len() as int);
    counter::lemma_wrapped_shift(old(stats).active_streams - 1, 0);
    let heads = |chain: QueuedPbuf| chain.head;
    assert(all.map_values(heads) =~= tcp_stream_impl::chain_heads(all));
}

/// The bytes of buffers, however they are put together.
pub(crate) proof fn lemma_bytes_of(nodes: Seq<Vec<u8>>)
    ensures
        bytes_of(nodes) == tcp_stream_context::flat(nodes),
    decreases nodes.len(),
{
    reveal(Seq::flatten);
    let views = nodes.map_values(|node: Vec<u8>| node@);
    if nodes.len() > 0 {
        lemma_bytes_of(nodes.skip(1));
        assert(views.drop_first() =~= nodes.skip(1).map_values(|node: Vec<u8>| node@));
    }
}

/// The bytes of chains, however they are put together.
pub(crate) proof fn lemma_bytes_in(chains: Seq<QueuedPbuf>)
    ensures
        bytes_in(chains) == tcp_stream_impl::chains_payload(chains),
    decreases chains.len(),
{
    reveal(Seq::flatten);
    let parts = chains.map_values(|chain: QueuedPbuf| bytes_of(chain.nodes@));
    if chains.len() > 0 {
        lemma_bytes_of(chains[0].nodes@);
        lemma_bytes_in(chains.skip(1));
        assert(parts.drop_first() =~= chains.skip(1).map_values(
            |chain: QueuedPbuf| bytes_of(chain.nodes@),
        ));
    }
}

/// What a reader has claimed, however it is put together.
proof fn lemma_claimed(reader: TcpReader)
    ensures
        claimed_bytes(reader) == reader.unread(),
        claimed_chains(reader) == reader.holding(),
{
    lemma_bytes_in(reader.staged@);
    if reader.read_buf is Some {
        let cursor = reader.read_buf->0;
        lemma_bytes_of(cursor.chain.nodes@.skip(cursor.node + 1));
    }
}

/// The chains that a valid reader has claimed are valid.
proof fn lemma_claimed_valid(reader: TcpReader)
    requires
        reader.wf(),
    ensures
        forall|i: int|
            0 <= i < claimed_chains(reader).len() ==> (#[trigger] claimed_chains(reader)[i]).wf(),
{
    let claimed = claimed_chains(reader);
    assert forall|i: int| 0 <= i < claimed.len() implies (#[trigger] claimed[i]).wf() by {
        if reader.read_buf is None {
            assert(claimed[i] == reader.staged@[i]);
        } else if i > 0 {
            assert(claimed[i] == reader.staged@[i - 1]);
        }
    }
}

/// Valid chains count for as many bytes as they hold.
proof fn lemma_counted(chains: Seq<QueuedPbuf>)
    requires
        forall|i: int| 0 <= i < chains.len() ==> (#[trigger] chains[i]).wf(),
    ensures
        tcp_stream_impl::chains_bytes(chains) == bytes_in(chains).len(),
    decreases chains.len(),
{
    lemma_bytes_in(chains);
    if chains.len() > 0 {
        assert(chains[0].wf());
        assert forall|i: int| 0 <= i < chains.skip(1).len() implies (
        #[trigger] chains.skip(1)[i]).wf() by {
            assert(chains[i + 1].wf());
        }
        lemma_counted(chains.skip(1));
        lemma_bytes_in(chains.skip(1));
    }
}

/// Shifting the counters is discounting.
proof fn lemma_discounted(stats: TcpRuntimeStats, packets: int, bytes: int)
    ensures
        discounted(stats, packets, bytes, stats.shifted(-packets, -bytes)),
{
    counter::lemma_wrapped_shift(stats.queued_packets - packets, 0);
    counter::lemma_wrapped_shift(stats.queued_bytes - bytes, 0);
}

/// Credit is granted in full calls and one that holds the rest.
proof fn lemma_calls(n: nat)
    ensures
        ({
            let calls = tcp_stream_impl::credit_calls(n);
            &&& n == 0 <==> calls.len() == 0
            &&& forall|i: int| 0 <= i < calls.len() - 1 ==> #[trigger] calls[i] == 65535
            &&& n > 0 ==> 0 < calls.last() && calls.last() + 65535 * (calls.len() - 1) == n
        }),
    decreases n,
{
    let calls = tcp_stream_impl::credit_calls(n);
    if n > 65535 {
        let rest = tcp_stream_impl::credit_calls((n - 65535) as nat);
        lemma_calls((n - 65535) as nat);
        assert(calls =~= seq![65535u16] + rest);
        assert forall|i: int| 0 <= i < calls.len() - 1 implies #[trigger] calls[i] == 65535 by {
            if i > 0 {
                assert(calls[i] == rest[i - 1]);
            }
        }
    }
}

} // verus!
