//! A TCP stream over one stack: reading, writing, shutdown and teardown, and
//! the callbacks through which the stack reports events.
//!
//! Every operation here runs while the lock of the stream's stack is held,
//! except the copying of received bytes, which needs no lock. Calls into the
//! stack itself are made by the caller: an operation says which to make, and
//! takes their result codes back.

use std::collections::VecDeque;
use vstd::prelude::*;

use crate::addr::SocketAddr;
use crate::counter;
use crate::err::{ERR_CONN, ERR_MEM, ERR_OK};
use crate::io::{ErrorKind, IoError, Poll};
use crate::shard::{ShardState, Shards, SHARD_COUNT};
use crate::stack_impl;
use crate::tcp_accounts;
use crate::tcp_stream_context;
use crate::tcp_stream_context::{
    flat_len, ActiveTcpStream, QueuedPbuf, TcpContexts, TcpRuntimeStats, TcpStreamContextInner,
};
use crate::text;
use crate::text::append_signed;

verus! {

/// Appends `from[start..end]` to `out`.
fn append_range(out: &mut Vec<u8>, from: &Vec<u8>, start: usize, end: usize)
    requires
        start <= end <= from@.len(),
        old(out)@.len() + (end - start) <= usize::MAX,
    ensures
        final(out)@ == old(out)@ + from@.subrange(start as int, end as int),
{
    let mut i: usize = start;
    while i < end
        invariant
            start <= i <= end <= from@.len(),
            out@ == old(out)@ + from@.subrange(start as int, i as int),
        decreases end - i,
    {
        out.push(from[i]);
        i = i + 1;
        assert(out@ =~= old(out)@ + from@.subrange(start as int, i as int));
    }
}

/// The chain that is being copied out, and how far it has been.
#[derive(Debug)]
pub struct PbufCursor {
    pub chain: QueuedPbuf,
    pub node: usize,
    pub node_off: usize,
}

impl PbufCursor {
    /// The cursor stands before a byte of its chain.
    pub open spec fn wf(&self) -> bool {
        &&& self.chain.wf()
        &&& self.node < self.chain.nodes@.len()
        &&& self.node_off < self.chain.nodes@[self.node as int]@.len()
    }

    /// The bytes of the chain that have not been copied out.
    pub open spec fn unread(&self) -> Seq<u8> {
        self.chain.nodes@[self.node as int]@.skip(self.node_off as int)
            + tcp_stream_context::flat(self.chain.nodes@.skip(self.node + 1))
    }

    /// Steps over the ends of buffers, and over empty ones, up to the next byte.
    /// Returns whether there is none.
    fn settle(&mut self) -> (finished: bool)
        requires
            old(self).chain.wf(),
            old(self).node < old(self).chain.nodes@.len(),
            old(self).node_off <= old(self).chain.nodes@[old(self).node as int]@.len(),
        ensures
            final(self).chain == old(self).chain,
            final(self).unread() == old(self).unread(),
            finished == (final(self).unread().len() == 0),
            !finished ==> final(self).wf(),
    {
        let ghost nodes = self.chain.nodes@;
        while self.node_off == self.chain.nodes[self.node].len()
            invariant
                self.chain == old(self).chain,
                self.chain.nodes@ == nodes,
                self.node < nodes.len(),
                self.node_off <= nodes[self.node as int]@.len(),
                self.unread() == old(self).unread(),
            decreases nodes.len() - self.node,
        {
            let ghost at = self.node as int;
            let ghost before = *self;
            assert(nodes[at]@.skip(nodes[at]@.len() as int) =~= Seq::empty());
            let count: usize = self.chain.nodes.len();
            if self.node == count - 1 {
                assert(nodes.skip(at + 1) =~= Seq::empty());
                return true;
            }
            self.node = self.node + 1;
            self.node_off = 0;
            proof {
                assert(nodes.skip(at + 1)[0] == nodes[at + 1]);
                assert(nodes.skip(at + 1).skip(1) =~= nodes.skip(at + 2));
                assert(nodes[at + 1]@.skip(0) =~= nodes[at + 1]@);
                assert(self.unread() =~= before.unread());
            }
        }
        false
    }

    /// Copies from the buffer at the cursor until it ends or `out` holds
    /// `capacity` bytes, and steps to the next byte. Returns whether that was the
    /// last byte of the chain.
    fn copy_node(&mut self, out: &mut Vec<u8>, capacity: usize) -> (finished: bool)
        requires
            old(self).wf(),
            old(out)@.len() < capacity,
        ensures
            final(self).chain == old(self).chain,
            old(out)@.len() < final(out)@.len() <= capacity,
            final(out)@ + final(self).unread() == old(out)@ + old(self).unread(),
            finished == (final(self).unread().len() == 0),
            !finished ==> final(self).wf(),
    {
        let ghost nodes = self.chain.nodes@;
        let ghost at = self.node as int;
        let ghost from = self.node_off as int;
        let ghost before = *self;
        let node_len: usize = self.chain.nodes[self.node].len();
        let room: usize = capacity - out.len();
        let available: usize = node_len - self.node_off;
        let to_read: usize = if room < available {
            room
        } else {
            available
        };
        let end: usize = self.node_off + to_read;
        append_range(out, &self.chain.nodes[self.node], self.node_off, end);
        self.node_off = end;
        proof {
            assert(nodes[at]@.skip(from) =~= nodes[at]@.subrange(from, end as int)
                + nodes[at]@.skip(end as int));
            assert(out@ + self.unread() =~= old(out)@ + before.unread());
        }
        self.settle()
    }
}

/// The payloads of chains, one after the other.
pub open spec fn chains_payload(chains: Seq<QueuedPbuf>) -> Seq<u8>
    decreases chains.len(),
{
    if chains.len() == 0 {
        Seq::empty()
    } else {
        chains[0].payload() + chains_payload(chains.skip(1))
    }
}

/// How many bytes the chains count for.
pub open spec fn chains_bytes(chains: Seq<QueuedPbuf>) -> int
    decreases chains.len(),
{
    if chains.len() == 0 {
        0
    } else {
        chains[0].bytes + chains_bytes(chains.skip(1))
    }
}

/// The addresses of the chains.
pub open spec fn chain_heads(chains: Seq<QueuedPbuf>) -> Seq<usize> {
    chains.map_values(|chain: QueuedPbuf| chain.head)
}

/// The chain of a cursor, as a sequence of one or none.
pub open spec fn cursor_chain(cursor: Option<PbufCursor>) -> Seq<QueuedPbuf> {
    match cursor {
        Some(cursor) => seq![cursor.chain],
        None => Seq::empty(),
    }
}

/// Counting two sequences of chains is counting each.
pub proof fn lemma_chains_bytes_concat(a: Seq<QueuedPbuf>, b: Seq<QueuedPbuf>)
    ensures
        chains_bytes(a + b) == chains_bytes(a) + chains_bytes(b),
    decreases a.len(),
{
    if a.len() == 0 {
        assert(a + b =~= b);
    } else {
        lemma_chains_bytes_concat(a.skip(1), b);
        assert((a + b).skip(1) =~= a.skip(1) + b);
    }
}

/// The payload of two sequences of chains is that of the first, then that of
/// the second.
pub proof fn lemma_chains_payload_concat(a: Seq<QueuedPbuf>, b: Seq<QueuedPbuf>)
    ensures
        chains_payload(a + b) == chains_payload(a) + chains_payload(b),
    decreases a.len(),
{
    if a.len() == 0 {
        assert(a + b =~= b);
        assert(chains_payload(a) + chains_payload(b) =~= chains_payload(b));
    } else {
        lemma_chains_payload_concat(a.skip(1), b);
        assert((a + b).skip(1) =~= a.skip(1) + b);
        assert(chains_payload(a + b) =~= chains_payload(a) + chains_payload(b));
    }
}

/// The largest amount of window credit that one call grants.
pub const MAX_CREDIT: usize = 65535;

/// The calls that grant `n` bytes of window credit: full ones first, then the
/// rest.
pub open spec fn credit_calls(n: nat) -> Seq<u16>
    decreases n,
{
    if n == 0 {
        Seq::empty()
    } else if n <= MAX_CREDIT {
        seq![n as u16]
    } else {
        seq![MAX_CREDIT as u16] + credit_calls((n - MAX_CREDIT) as nat)
    }
}

/// The credit that a sequence of calls grants.
pub open spec fn granted(calls: Seq<u16>) -> nat
    decreases calls.len(),
{
    if calls.len() == 0 {
        0
    } else {
        calls[0] as nat + granted(calls.skip(1))
    }
}

/// What the single reader of a stream owns: received chains on their way to the
/// caller, and the credit it owes the stack for bytes it has delivered.
#[derive(Debug)]
pub struct TcpReader {
    /// The chain that is being copied out.
    pub read_buf: Option<PbufCursor>,
    /// Chains claimed from the shared queue and not yet touched.
    pub staged: VecDeque<QueuedPbuf>,
    /// Chains copied out completely, to be given back to the stack.
    pub spent: Vec<QueuedPbuf>,
    /// Delivered bytes whose window credit has not been granted.
    pub pending_recved: usize,
}

impl TcpReader {
    /// Every chain is valid, and so is the cursor.
    pub open spec fn wf(&self) -> bool {
        &&& self.read_buf is Some ==> self.read_buf->0.wf()
        &&& tcp_stream_context::chains_wf(self.staged@)
    }

    /// The claimed bytes that have not been delivered, in order.
    pub open spec fn unread(&self) -> Seq<u8> {
        (match self.read_buf {
            Some(cursor) => cursor.unread(),
            None => Seq::empty(),
        }) + chains_payload(self.staged@)
    }

    /// The claimed chains that still hold undelivered bytes.
    pub open spec fn holding(&self) -> Seq<QueuedPbuf> {
        cursor_chain(self.read_buf) + self.staged@
    }

    /// A reader that has received nothing.
    pub fn new() -> (reader: Self)
        ensures
            reader.wf(),
            reader.read_buf is None,
            reader.staged@ == Seq::<QueuedPbuf>::empty(),
            reader.spent@ == Seq::<QueuedPbuf>::empty(),
            reader.pending_recved == 0,
    {
        TcpReader {
            read_buf: None,
            staged: VecDeque::new(),
            spent: Vec::new(),
            pending_recved: 0,
        }
    }

    /// Copies claimed bytes out, as many as `capacity` takes. A chain whose last
    /// byte was copied is spent, and no longer counts as queued.
    pub fn copy_out(&mut self, stats: &mut TcpRuntimeStats, capacity: usize) -> (delivered: Vec<u8>)
        requires
            old(self).wf(),
        ensures
            final(self).wf(),
            final(self).pending_recved == old(self).pending_recved,
            delivered@.len() <= capacity,
            delivered@ + final(self).unread() == old(self).unread(),
            delivered@.len() < capacity ==> final(self).holding().len() == 0,
            ({
                let retired = final(self).spent@.skip(old(self).spent@.len() as int);
                &&& final(self).spent@ == old(self).spent@ + retired
                &&& old(self).holding() == retired + final(self).holding()
                &&& *final(stats) == old(stats).shifted(
                    -(retired.len() as int),
                    -chains_bytes(retired),
                )
            }),
    {
        let ghost start = *self;
        let ghost base = *stats;
        let mut delivered: Vec<u8> = Vec::new();
        let ghost mut retired: Seq<QueuedPbuf> = Seq::empty();
        proof {
            assert(start.spent@ =~= start.spent@ + retired);
            assert(start.holding() =~= retired + start.holding());
            assert(delivered@ + start.unread() =~= start.unread());
            tcp_stream_context::lemma_shifted_zero(base);
        }
        while delivered.len() < capacity && (self.read_buf.is_some() || self.staged.len() > 0)
            invariant
                self.wf(),
                self.pending_recved == start.pending_recved,
                delivered@.len() <= capacity,
                delivered@ + self.unread() == start.unread(),
                self.spent@ == start.spent@ + retired,
                start.holding() == retired + self.holding(),
                *stats == base.shifted(-(retired.len() as int), -chains_bytes(retired)),
            decreases capacity - delivered@.len(),
        {
            let ghost before = *self;
            let ghost delivered_before = delivered@;
            let mut cursor = match self.read_buf.take() {
                Some(cursor) => cursor,
                None => {
                    let chain = self.staged.pop_front().unwrap();
                    assert(chain.wf());
                    let mut opened = PbufCursor { chain, node: 0, node_off: 0 };
                    proof {
                        lemma_opened(opened);
                    }
                    let _ = opened.settle();
                    opened
                },
            };
            let ghost first = cursor;
            proof {
                lemma_claimed(before, first, self.staged@);
            }
            let finished = cursor.copy_node(&mut delivered, capacity);
            let ghost rest = self.staged@;
            if finished {
                proof {
                    lemma_retire(base, retired, cursor.chain);
                }
                cursor.chain.discount(stats);
                self.spent.push(cursor.chain);
                proof {
                    assert(self.spent@ =~= start.spent@ + retired.push(cursor.chain));
                    assert(self.holding() =~= rest);
                    assert(retired + (seq![cursor.chain] + rest) =~= retired.push(cursor.chain) + rest);
                    assert(self.unread() =~= chains_payload(rest));
                    assert(delivered@ =~= delivered_before + first.unread());
                    assert(delivered@ + self.unread() =~= delivered_before + before.unread());
                    retired = retired.push(cursor.chain);
                }
            } else {
                self.read_buf = Some(cursor);
                proof {
                    assert(self.holding() =~= before.holding());
                    assert(delivered@ + self.unread() =~= (delivered@ + cursor.unread())
                        + chains_payload(rest));
                    assert(delivered_before + before.unread() =~= (delivered_before
                        + first.unread()) + chains_payload(rest));
                }
            }
        }
        proof {
            assert(self.spent@.skip(start.spent@.len() as int) =~= retired);
            if delivered@.len() < capacity {
                assert(self.holding() =~= Seq::empty());
            }
        }
        delivered
    }

    /// Takes out the addresses of the chains to give back to the stack.
    fn take_spent(&mut self) -> (freed: Vec<usize>)
        ensures
            freed@ == chain_heads(old(self).spent@),
            final(self).spent@ == Seq::<QueuedPbuf>::empty(),
            final(self).read_buf == old(self).read_buf,
            final(self).staged == old(self).staged,
            final(self).pending_recved == old(self).pending_recved,
    {
        let mut freed: Vec<usize> = Vec::new();
        let mut i: usize = 0;
        while i < self.spent.len()
            invariant
                i <= self.spent@.len(),
                freed@ == chain_heads(self.spent@.take(i as int)),
                *self == *old(self),
            decreases self.spent@.len() - i,
        {
            freed.push(self.spent[i].head());
            i = i + 1;
            assert(freed@ =~= chain_heads(self.spent@.take(i as int)));
        }
        assert(self.spent@.take(self.spent@.len() as int) =~= self.spent@);
        self.spent = Vec::new();
        freed
    }

    /// Takes out the window credit that is owed, as the calls that grant it.
    fn take_credit(&mut self) -> (calls: Vec<u16>)
        ensures
            calls@ == credit_calls(old(self).pending_recved as nat),
            final(self).pending_recved == 0,
            final(self).read_buf == old(self).read_buf,
            final(self).staged == old(self).staged,
            final(self).spent == old(self).spent,
    {
        let mut calls: Vec<u16> = Vec::new();
        while self.pending_recved > 0
            invariant
                calls@ + credit_calls(self.pending_recved as nat) == credit_calls(
                    old(self).pending_recved as nat,
                ),
                self.read_buf == old(self).read_buf,
                self.staged == old(self).staged,
                self.spent == old(self).spent,
            decreases self.pending_recved,
        {
            let ghost owed = self.pending_recved as nat;
            let ghost before = calls@;
            let acknowledged: usize = if self.pending_recved < MAX_CREDIT {
                self.pending_recved
            } else {
                MAX_CREDIT
            };
            calls.push(acknowledged as u16);
            self.pending_recved = self.pending_recved - acknowledged;
            proof {
                reveal_with_fuel(credit_calls, 2);
                assert(credit_calls(owed) =~= seq![acknowledged as u16] + credit_calls(
                    self.pending_recved as nat,
                ));
                assert(calls@ + credit_calls(self.pending_recved as nat) =~= before
                    + credit_calls(owed));
            }
        }
        assert(calls@ + credit_calls(0) =~= calls@);
        calls
    }
}

/// A cursor at the beginning of a chain has all of its bytes before it.
proof fn lemma_opened(cursor: PbufCursor)
    requires
        cursor.chain.wf(),
        cursor.node == 0,
        cursor.node_off == 0,
    ensures
        cursor.chain.nodes@.len() > 0,
        cursor.unread() == cursor.chain.payload(),
        cursor.unread().len() > 0,
{
    let nodes = cursor.chain.nodes@;
    assert(nodes[0]@.skip(0) =~= nodes[0]@);
    assert(cursor.unread() =~= cursor.chain.payload());
}

/// A cursor taken over, or opened at the first staged chain, accounts for the
/// same bytes and chains as before.
proof fn lemma_claimed(before: TcpReader, cursor: PbufCursor, staged: Seq<QueuedPbuf>)
    requires
        before.wf(),
        match before.read_buf {
            Some(c) => cursor == c && staged == before.staged@,
            None => {
                &&& before.staged@.len() > 0
                &&& cursor.chain == before.staged@[0]
                &&& cursor.unread() == cursor.chain.payload()
                &&& staged == before.staged@.subrange(1, before.staged@.len() as int)
            },
        },
    ensures
        tcp_stream_context::chains_wf(staged),
        before.unread() == cursor.unread() + chains_payload(staged),
        before.holding() == seq![cursor.chain] + staged,
{
    if before.read_buf is None {
        assert(staged =~= before.staged@.skip(1));
        assert(before.unread() =~= cursor.unread() + chains_payload(staged));
    }
    assert(before.holding() =~= seq![cursor.chain] + staged);
}

/// Valid chains have a payload exactly where there are any.
proof fn lemma_payload_of_chains(chains: Seq<QueuedPbuf>)
    requires
        tcp_stream_context::chains_wf(chains),
    ensures
        chains_payload(chains).len() == 0 <==> chains.len() == 0,
{
    if chains.len() > 0 {
        assert(chains[0].wf());
    }
}

/// Bytes are undelivered exactly while chains hold some.
proof fn lemma_holding_is_undelivered<W>(reader: TcpReader, ctx: TcpStreamContextInner<W>)
    requires
        reader.wf(),
        tcp_stream_context::chains_wf(ctx.read_queue@),
    ensures
        holding(reader, ctx).len() == 0 <==> undelivered(reader, ctx).len() == 0,
{
    lemma_payload_of_chains(reader.staged@);
    lemma_payload_of_chains(ctx.read_queue@);
}

/// Discounting one more retired chain keeps the books.
proof fn lemma_retire(base: TcpRuntimeStats, retired: Seq<QueuedPbuf>, chain: QueuedPbuf)
    ensures
        base.shifted(-(retired.len() as int), -chains_bytes(retired)).shifted(
            -1,
            -(chain.bytes as int),
        ) == base.shifted(-(retired.push(chain).len() as int), -chains_bytes(retired.push(chain))),
{
    assert(retired.push(chain) =~= retired + seq![chain]);
    lemma_chains_bytes_concat(retired, seq![chain]);
    reveal_with_fuel(chains_bytes, 2);
    assert(seq![chain].skip(1) =~= Seq::empty());
    tcp_stream_context::lemma_shifted_twice(
        base,
        -(retired.len() as int),
        -chains_bytes(retired),
        -1,
        -(chain.bytes as int),
    );
}

/// The message of an operation on a stream whose connection has failed.
fn broken_pipe() -> (error: IoError)
    ensures
        error.describes(ErrorKind::BrokenPipe, "broken pipe"@),
{
    IoError::new(ErrorKind::BrokenPipe, "broken pipe")
}

/// What one attempt to read calls for: chains to give back to the stack, window
/// credit to grant, the bytes for the caller, and how the attempt ended.
#[derive(Debug)]
pub struct ReadPoll {
    pub freed: Vec<usize>,
    pub recved: Vec<u16>,
    pub delivered: Vec<u8>,
    pub outcome: Poll<Result<(), IoError>>,
}

/// A TCP stream.
#[derive(Debug)]
pub struct TcpStreamImpl {
    /// The stack that the stream lives on.
    pub shard_id: usize,
    pub src_addr: SocketAddr,
    pub dest_addr: SocketAddr,
    /// The address of the connection in its stack.
    pub pcb: usize,
    /// The key of the context that the stream shares with its callbacks.
    pub ctx: u64,
    pub reader: TcpReader,
    pub active: ActiveTcpStream,
}

/// The bytes that were received and not delivered, in order.
pub open spec fn undelivered<W>(reader: TcpReader, ctx: TcpStreamContextInner<W>) -> Seq<u8> {
    reader.unread() + chains_payload(ctx.read_queue@)
}

/// The chains that hold them.
pub open spec fn holding<W>(reader: TcpReader, ctx: TcpStreamContextInner<W>) -> Seq<QueuedPbuf> {
    reader.holding() + ctx.read_queue@
}

/// What a read does to the reader and to the context it shares: the bytes that
/// it delivers are the first of those undelivered, the chains that it empties
/// are spent, and it settles what the previous read left to settle.
pub open spec fn reads<W>(
    before: TcpReader,
    ctx: TcpStreamContextInner<W>,
    read: ReadPoll,
    after: TcpReader,
    ctx_after: TcpStreamContextInner<W>,
) -> bool {
    &&& ctx_after == (TcpStreamContextInner {
        read_queue: ctx_after.read_queue,
        read_waker: ctx_after.read_waker,
        ..ctx
    })
    &&& read.freed@ == chain_heads(before.spent@)
    &&& read.delivered@ + undelivered(after, ctx_after) == undelivered(before, ctx)
    &&& holding(before, ctx) == after.spent@ + holding(after, ctx_after)
    &&& holding(after, ctx_after).len() == 0 <==> undelivered(after, ctx_after).len() == 0
    &&& if ctx.errored {
        &&& read.outcome is Ready && read.outcome->0 is Err
        &&& read.outcome->0->Err_0.describes(ErrorKind::BrokenPipe, "broken pipe"@)
        &&& read.recved@ == Seq::<u16>::empty()
        &&& read.delivered@ == Seq::<u8>::empty()
        &&& after.pending_recved == before.pending_recved
        &&& after.holding() == before.holding()
        &&& ctx_after == ctx
    } else {
        &&& read.outcome == if undelivered(before, ctx).len() == 0 && !ctx.read_eof {
            Poll::<Result<(), IoError>>::Pending
        } else {
            Poll::Ready(Ok(()))
        }
        &&& read.recved@ == credit_calls(before.pending_recved as nat)
        &&& ctx_after.read_queue@ == Seq::<QueuedPbuf>::empty()
        &&& after.pending_recved == read.delivered@.len()
    }
}

impl TcpStreamImpl {
    /// Whether the stream is valid and its context is in the table.
    pub open spec fn wf<W>(&self, table: TcpContexts<W>) -> bool {
        &&& self.reader.wf()
        &&& table.wf()
        &&& table.contexts@.contains_key(self.ctx)
    }

    /// Reads up to `capacity` bytes.
    ///
    /// First the chains that the previous read emptied go back to the stack, and
    /// the window credit for its bytes is granted. Everything that has been
    /// received is claimed. Where there is nothing, the reader waits:
    /// `registered_will_wake` says that the waker already registered would wake
    /// the reader as it is, and otherwise `waker` takes its place.
    pub fn poll_read<W>(
        &mut self,
        table: &mut TcpContexts<W>,
        stats: &mut TcpRuntimeStats,
        waker: W,
        registered_will_wake: bool,
        capacity: usize,
    ) -> (read: ReadPoll)
        requires
            old(self).wf(*old(table)),
        ensures
            final(self).wf(*final(table)),
            *final(self) == (TcpStreamImpl { reader: final(self).reader, ..*old(self) }),
            final(table).parked@ == old(table).parked@,
            tcp_accounts::turns_in_books(
                *old(self),
                *old(table),
                *old(stats),
                *final(self),
                *final(table),
                *final(stats),
            ),
            ({
                let before = old(self).reader;
                let after = final(self).reader;
                let ctx = old(table).contexts@[old(self).ctx];
                let ctx_after = final(table).contexts@[old(self).ctx];
                &&& final(table).contexts@ == old(table).contexts@.insert(old(self).ctx, ctx_after)
                &&& reads(before, ctx, read, after, ctx_after)
                &&& ctx_after.read_waker == if read.outcome is Pending && !(ctx.read_waker is Some
                    && registered_will_wake) {
                    Some(waker)
                } else {
                    ctx.read_waker
                }
                &&& read.delivered@.len() <= capacity
                &&& !ctx.errored && read.delivered@.len() < capacity ==> undelivered(
                    after,
                    ctx_after,
                ).len() == 0
                &&& *final(stats) == old(stats).shifted(
                    holding(after, ctx_after).len() - holding(before, ctx).len(),
                    chains_bytes(holding(after, ctx_after)) - chains_bytes(holding(before, ctx)),
                )
            }),
    {
        let ghost before = self.reader;
        let ghost ctx0 = table.contexts@[self.ctx];
        let ghost table0 = *table;
        proof {
            lemma_shifted_same(*stats, holding(before, ctx0));
            lemma_holding_is_undelivered(before, ctx0);
        }
        let freed = self.reader.take_spent();
        let mut ctx = table.contexts.remove(&self.ctx).unwrap();
        if ctx.errored {
            table.contexts.insert(self.ctx, ctx);
            proof {
                assert(table.contexts@ =~= table0.contexts@.insert(self.ctx, ctx));
                assert(table.wf()) by {
                    lemma_replaced(table0, *table, self.ctx);
                }
                assert(undelivered(self.reader, ctx) =~= Seq::<u8>::empty() + undelivered(
                    before,
                    ctx0,
                ));
                assert(holding(before, ctx0) =~= self.reader.spent@ + holding(self.reader, ctx));
                tcp_accounts::lemma_turns_in_books(
                    *old(self),
                    *old(table),
                    *old(stats),
                    *self,
                    *table,
                    *stats,
                );
            }
            return ReadPoll {
                freed,
                recved: Vec::new(),
                delivered: Vec::new(),
                outcome: Poll::Ready(Err(broken_pipe())),
            };
        }
        let recved = self.reader.take_credit();
        self.reader.staged.append(&mut ctx.read_queue);
        let ghost claimed = self.reader;
        proof {
            lemma_chains_payload_concat(before.staged@, ctx0.read_queue@);
            assert(claimed.unread() =~= undelivered(before, ctx0));
            assert(claimed.holding() =~= holding(before, ctx0));
            assert(claimed.wf());
            assert(chains_payload(ctx.read_queue@) =~= Seq::empty());
        }
        if self.reader.read_buf.is_none() && self.reader.staged.len() == 0 && !ctx.read_eof {
            if !(ctx.read_waker.is_some() && registered_will_wake) {
                ctx.read_waker = Some(waker);
            }
            table.contexts.insert(self.ctx, ctx);
            proof {
                assert(table.contexts@ =~= table0.contexts@.insert(self.ctx, ctx));
                lemma_replaced(table0, *table, self.ctx);
                assert(holding(before, ctx0) =~= self.reader.spent@ + holding(self.reader, ctx));
                assert(undelivered(self.reader, ctx) =~= Seq::<u8>::empty() + undelivered(
                    before,
                    ctx0,
                ));
                tcp_accounts::lemma_turns_in_books(
                    *old(self),
                    *old(table),
                    *old(stats),
                    *self,
                    *table,
                    *stats,
                );
            }
            return ReadPoll { freed, recved, delivered: Vec::new(), outcome: Poll::Pending };
        }
        table.contexts.insert(self.ctx, ctx);
        let delivered = self.reader.copy_out(stats, capacity);
        self.reader.pending_recved = delivered.len();
        proof {
            let after = self.reader;
            assert(table.contexts@ =~= table0.contexts@.insert(self.ctx, ctx));
            lemma_replaced(table0, *table, self.ctx);
            assert(after.spent@.skip(0) =~= after.spent@);
            assert(holding(after, ctx) =~= after.holding());
            assert(claimed.holding() =~= after.spent@ + after.holding());
            lemma_chains_bytes_concat(after.spent@, after.holding());
            assert(undelivered(after, ctx) =~= after.unread());
            assert(delivered@ + undelivered(after, ctx) =~= undelivered(before, ctx0));
            lemma_holding_is_undelivered(after, ctx);
            tcp_accounts::lemma_turns_in_books(
                *old(self),
                *old(table),
                *old(stats),
                *self,
                *table,
                *stats,
            );
        }
        ReadPoll { freed, recved, delivered, outcome: Poll::Ready(Ok(())) }
    }
}

impl TcpStreamImpl {
    /// A stream for a new connection. Its context is added to the table under
    /// `ctx`, the key that its callbacks will carry.
    pub fn new<W>(
        pcb: usize,
        ctx: u64,
        shard_id: usize,
        remote: SocketAddr,
        local: SocketAddr,
        table: &mut TcpContexts<W>,
        stats: &mut TcpRuntimeStats,
    ) -> (stream: Self)
        requires
            old(table).wf(),
            !old(table).contexts@.contains_key(ctx),
        ensures
            stream.wf(*final(table)),
            stream.shard_id == shard_id,
            stream.src_addr == remote,
            stream.dest_addr == local,
            stream.pcb == pcb,
            stream.ctx == ctx,
            stream.reader.pending_recved == 0,
            stream.reader.spent@ == Seq::<QueuedPbuf>::empty(),
            final(table).parked@ == old(table).parked@,
            ({
                let fresh = final(table).contexts@[ctx];
                &&& final(table).contexts@ == old(table).contexts@.insert(ctx, fresh)
                &&& fresh.local_addr == remote
                &&& holding(stream.reader, fresh) == Seq::<QueuedPbuf>::empty()
                &&& fresh.read_waker is None && fresh.write_waker is None
                &&& !fresh.read_eof && !fresh.errored && !fresh.closed && !fresh.pressure_parked
            }),
            *final(stats) == old(stats).with_streams(1),
            tcp_accounts::opens_in_books(
                *old(table),
                *old(stats),
                stream,
                *final(table),
                *final(stats),
            ),
    {
        table.register(ctx, remote);
        let reader = TcpReader::new();
        let active = ActiveTcpStream::new(stats);
        proof {
            assert(holding(reader, table.contexts@[ctx]) =~= Seq::empty());
        }
        let stream = TcpStreamImpl {
            shard_id,
            src_addr: remote,
            dest_addr: local,
            pcb,
            ctx,
            reader,
            active,
        };
        proof {
            tcp_accounts::lemma_opens_in_books(*old(table), *old(stats), stream, *table, *stats);
        }
        stream
    }

    /// The endpoint that opened the connection.
    pub fn local_addr(&self) -> (addr: SocketAddr)
        ensures
            addr == self.src_addr,
    {
        self.src_addr
    }

    /// The endpoint that the connection was opened to.
    pub fn remote_addr(&self) -> (addr: SocketAddr)
        ensures
            addr == self.dest_addr,
    {
        self.dest_addr
    }
}

/// How often, in slow-timer intervals, the stack polls an idle connection.
pub const TCP_POLL_INTERVAL: u8 = 8;

/// A chain of buffers that the stack hands to its receive callback.
#[derive(Debug)]
pub struct ReceivedChain {
    pub head: usize,
    pub nodes: Vec<Vec<u8>>,
}

/// What the receive callback answers: the code for the stack, a chain to give
/// back at once, and a reader to wake.
#[derive(Debug)]
pub struct RecvCallback<W> {
    pub code: i8,
    pub free: Option<usize>,
    pub wake: Option<W>,
}

/// Takes in a received chain, or the end of the stream where there is none.
/// `ctx` is the key that the connection carries, if it still carries one.
pub fn tcp_recv_cb<W>(
    table: &mut TcpContexts<W>,
    stats: &mut TcpRuntimeStats,
    ctx: Option<u64>,
    chain: Option<ReceivedChain>,
) -> (answer: RecvCallback<W>)
    requires
        old(table).wf(),
        chain matches Some(chain) ==> tcp_stream_context::flat(chain.nodes@).len() <= u16::MAX,
    ensures
        final(table).wf(),
        final(table).parked@ == old(table).parked@,
        tcp_accounts::keeps_books(*old(table), *old(stats), *final(table), *final(stats)),
        (ctx matches Some(id) && old(table).contexts@.contains_key(id)) ==> {
            let id = ctx->0;
            let before = old(table).contexts@[id];
            let after = final(table).contexts@[id];
            &&& answer.code == ERR_OK
            &&& final(table).contexts@ == old(table).contexts@.insert(id, after)
            &&& match chain {
                None => {
                    &&& after == (TcpStreamContextInner {
                        read_eof: true,
                        read_waker: None,
                        ..before
                    })
                    &&& answer.wake == before.read_waker
                    &&& answer.free is None
                    &&& *final(stats) == *old(stats)
                },
                Some(chain) => {
                    let payload = tcp_stream_context::flat(chain.nodes@);
                    if payload.len() == 0 {
                        &&& after == before
                        &&& answer.wake is None
                        &&& answer.free == Some(chain.head)
                        &&& *final(stats) == *old(stats)
                    } else {
                        let queued = after.read_queue@.last();
                        &&& receives(before, queued, after)
                        &&& queued.wf()
                        &&& queued.head == chain.head
                        &&& queued.nodes@ == chain.nodes@
                        &&& queued.payload() == payload
                        &&& answer.wake == before.read_waker
                        &&& answer.free is None
                        &&& *final(stats) == old(stats).shifted(1, payload.len() as int)
                    }
                },
            }
        },
        !(ctx matches Some(id) && old(table).contexts@.contains_key(id)) ==> {
            &&& answer.code == ERR_CONN
            &&& answer.wake is None
            &&& answer.free is None
            &&& final(table).contexts@ == old(table).contexts@
            &&& *final(stats) == *old(stats)
        },
{
    let ghost table0 = *table;
    let id: u64 = match ctx {
        None => return RecvCallback { code: ERR_CONN, free: None, wake: None },
        Some(id) => id,
    };
    let mut context = match table.contexts.remove(&id) {
        None => {
            proof {
                assert(table.contexts@ =~= table0.contexts@);
                tcp_accounts::law_what_leaves_the_queues_alone_keeps_the_books(table0, *table);
            }
            return RecvCallback { code: ERR_CONN, free: None, wake: None };
        },
        Some(context) => context,
    };
    let mut free: Option<usize> = None;
    let mut wake: Option<W> = None;
    match chain {
        None => {
            context.read_eof = true;
            wake = context.read_waker.take();
        },
        Some(chain) => {
            if flat_len(&chain.nodes) == 0 {
                free = Some(chain.head);
            } else {
                let queued = QueuedPbuf::new(chain.head, chain.nodes, stats);
                context.read_queue.push_back(queued);
                wake = context.read_waker.take();
            }
        },
    }
    table.contexts.insert(id, context);
    proof {
        assert(table.contexts@ =~= table0.contexts@.insert(id, context));
        lemma_replaced(table0, *table, id);
        let queue = table0.contexts@[id].read_queue@;
        let queue_after = context.read_queue@;
        if queue_after.len() > queue.len() {
            let one = seq![queue_after.last()];
            assert(queue_after =~= queue + one);
            lemma_chains_bytes_concat(queue, one);
            reveal_with_fuel(chains_bytes, 2);
            assert(one.skip(1) =~= Seq::empty());
        } else {
            tcp_stream_context::lemma_shifted_zero(*old(stats));
        }
        tcp_accounts::lemma_context_in_books(id, table0, *old(stats), *table, *stats);
    }
    RecvCallback { code: ERR_OK, free, wake }
}

/// Whom an acknowledgement wakes: the writer of the connection itself, and one
/// parked writer, which gets the memory that was freed.
#[derive(Debug)]
pub struct SentCallback<W> {
    pub code: i8,
    pub wake: Option<W>,
    pub wake_parked: Option<W>,
}

/// The peer acknowledged data, and the stack freed the segments that held it.
pub fn tcp_sent_cb<W>(table: &mut TcpContexts<W>, ctx: u64) -> (answer: SentCallback<W>)
    requires
        old(table).wf(),
        old(table).contexts@.contains_key(ctx),
    ensures
        final(table).wf(),
        tcp_accounts::leaves_books(*old(table), *final(table)),
        answer.code == ERR_OK,
        answer.wake == old(table).contexts@[ctx].write_waker,
        (final(table).contexts@, final(table).parked@, answer.wake_parked)
            == tcp_stream_context::after_unpark_one(
            old(table).contexts@.insert(ctx, old(table).contexts@[ctx].writer_woken()),
            old(table).parked@,
        ),
{
    let wake = tcp_poll_cb(table, ctx);
    let ghost polled = *table;
    let wake_parked = table.pressure_unpark_one_locked();
    proof {
        let k = tcp_stream_context::first_waiting(polled.contexts@, polled.parked@) as int;
        if k < polled.parked@.len() {
            assert(polled.parked@.contains(polled.parked@[k]));
        }
        tcp_accounts::law_what_leaves_the_queues_alone_keeps_the_books(*old(table), *table);
    }
    SentCallback { code: ERR_OK, wake, wake_parked }
}

/// The stack polls an idle connection: its writer, if one waits, tries again.
pub fn tcp_poll_cb<W>(table: &mut TcpContexts<W>, ctx: u64) -> (wake: Option<W>)
    requires
        old(table).wf(),
        old(table).contexts@.contains_key(ctx),
    ensures
        final(table).wf(),
        tcp_accounts::leaves_books(*old(table), *final(table)),
        wake == old(table).contexts@[ctx].write_waker,
        final(table).contexts@ == old(table).contexts@.insert(
            ctx,
            old(table).contexts@[ctx].writer_woken(),
        ),
        final(table).parked@ == old(table).parked@,
{
    let ghost table0 = *table;
    let mut context = table.contexts.remove(&ctx).unwrap();
    let wake = context.write_waker.take();
    table.contexts.insert(ctx, context);
    proof {
        assert(table.contexts@ =~= table0.contexts@.insert(ctx, context));
        lemma_replaced(table0, *table, ctx);
        tcp_accounts::law_what_leaves_the_queues_alone_keeps_the_books(*old(table), *table);
    }
    wake
}

/// Whom a fatal error wakes: reader and writer of the connection itself, and
/// every parked writer, since all memory of the connection was freed.
#[derive(Debug)]
pub struct ErrCallback<W> {
    pub wake_read: Option<W>,
    pub wake_write: Option<W>,
    pub wake_parked: Vec<W>,
}

/// The context of a connection that failed.
pub open spec fn failed<W>(ctx: TcpStreamContextInner<W>) -> TcpStreamContextInner<W> {
    TcpStreamContextInner {
        errored: true,
        pressure_parked: false,
        read_waker: None,
        write_waker: None,
        ..ctx
    }
}

/// The connection failed, and the stack freed it and everything it had queued.
pub fn tcp_err_cb<W>(table: &mut TcpContexts<W>, ctx: u64) -> (answer: ErrCallback<W>)
    requires
        old(table).wf(),
        old(table).contexts@.contains_key(ctx),
    ensures
        final(table).wf(),
        tcp_accounts::leaves_books(*old(table), *final(table)),
        answer.wake_read == old(table).contexts@[ctx].read_waker,
        answer.wake_write == old(table).contexts@[ctx].write_waker,
        final(table).parked@ == Seq::<u64>::empty(),
        ({
            let own = old(table).contexts@.insert(ctx, failed(old(table).contexts@[ctx]));
            let others = old(table).parked@.remove_value(ctx);
            &&& answer.wake_parked@ == tcp_stream_context::waiting_wakers(own, others)
            &&& final(table).contexts@ == tcp_stream_context::all_woken(own, others)
        }),
{
    let ghost table0 = *table;
    table.pressure_remove_locked(ctx);
    let ghost table1 = *table;
    let mut context = table.contexts.remove(&ctx).unwrap();
    context.errored = true;
    let wake_read = context.read_waker.take();
    let wake_write = context.write_waker.take();
    table.contexts.insert(ctx, context);
    proof {
        assert(context == failed(table0.contexts@[ctx]));
        assert(table.contexts@ =~= table1.contexts@.insert(ctx, context));
        lemma_replaced(table1, *table, ctx);
        assert(table.contexts@ =~= table0.contexts@.insert(ctx, context));
    }
    let wake_parked = table.pressure_unpark_all_locked();
    proof {
        tcp_accounts::law_what_leaves_the_queues_alone_keeps_the_books(*old(table), *table);
    }
    ErrCallback { wake_read, wake_write, wake_parked }
}

/// The next step of a write: it is settled, or `len` bytes are to be submitted
/// to the stack, with the waker kept for the answer.
#[derive(Debug)]
pub enum WriteStep<W> {
    Done(Poll<Result<usize, IoError>>),
    Submit { len: u16, waker: W },
}

/// How many bytes a write submits: what the caller has, what the send buffer
/// takes, and what one call can carry.
pub open spec fn write_len(buf_len: usize, send_buf: usize) -> int {
    let fits = if buf_len < send_buf {
        buf_len as int
    } else {
        send_buf as int
    };
    if fits < u16::MAX {
        fits
    } else {
        u16::MAX as int
    }
}

/// The error of a call into the stack that failed with `code`.
fn stack_error(text: &str, code: i8) -> (error: IoError)
    ensures
        error.describes(ErrorKind::Interrupted, text@ + text::signed_decimal(code as int)),
{
    let mut message = text.to_owned();
    append_signed(&mut message, code);
    IoError { kind: ErrorKind::Interrupted, message }
}

impl TcpStreamImpl {
    /// Starts a write of `buf_len` bytes while the send buffer has room for
    /// `send_buf`. Without room the writer waits.
    pub fn poll_write<W>(
        &self,
        table: &mut TcpContexts<W>,
        buf_len: usize,
        send_buf: usize,
        waker: W,
    ) -> (step: WriteStep<W>)
        requires
            self.wf(*old(table)),
        ensures
            self.wf(*final(table)),
            tcp_accounts::leaves_books(*old(table), *final(table)),
            final(table).parked@ == old(table).parked@,
            ({
                let ctx = old(table).contexts@[self.ctx];
                let len = write_len(buf_len, send_buf);
                if ctx.errored {
                    &&& step matches WriteStep::Done(Poll::Ready(Err(error)))
                    &&& error.describes(ErrorKind::BrokenPipe, "broken pipe"@)
                    &&& final(table).contexts@ == old(table).contexts@
                } else if len == 0 {
                    &&& step == WriteStep::<W>::Done(Poll::Pending)
                    &&& final(table).contexts@ == old(table).contexts@.insert(
                        self.ctx,
                        TcpStreamContextInner { write_waker: Some(waker), ..ctx },
                    )
                } else {
                    &&& step == (WriteStep::Submit { len: len as u16, waker })
                    &&& final(table).contexts@ == old(table).contexts@
                }
            }),
    {
        let ghost table0 = *table;
        let mut context = table.contexts.remove(&self.ctx).unwrap();
        let step = if context.errored {
            WriteStep::Done(Poll::Ready(Err(broken_pipe())))
        } else {
            let fits: usize = if buf_len < send_buf {
                buf_len
            } else {
                send_buf
            };
            let to_write: u16 = if fits < u16::MAX as usize {
                fits as u16
            } else {
                u16::MAX
            };
            if to_write == 0 {
                context.write_waker = Some(waker);
                WriteStep::Done(Poll::Pending)
            } else {
                WriteStep::Submit { len: to_write, waker }
            }
        };
        table.contexts.insert(self.ctx, context);
        proof {
            assert(table.contexts@ =~= table0.contexts@.insert(self.ctx, context));
            if context == table0.contexts@[self.ctx] {
                assert(table.contexts@ =~= table0.contexts@);
            }
            lemma_replaced(table0, *table, self.ctx);
            tcp_accounts::law_what_leaves_the_queues_alone_keeps_the_books(*old(table), *table);
        }
        step
    }

    /// Settles a write of `len` bytes that the stack answered with `code`.
    ///
    /// Accepted bytes stay accepted even where sending them right away fails: the
    /// stack keeps them queued, and an error would make the caller write them
    /// twice. Where shared memory is exhausted, the writer parks.
    pub fn poll_write_submitted<W>(
        &self,
        table: &mut TcpContexts<W>,
        len: u16,
        code: i8,
        waker: W,
    ) -> (poll: Poll<Result<usize, IoError>>)
        requires
            self.wf(*old(table)),
        ensures
            self.wf(*final(table)),
            tcp_accounts::leaves_books(*old(table), *final(table)),
            ({
                let ctx = old(table).contexts@[self.ctx];
                if code == ERR_MEM {
                    &&& poll == Poll::<Result<usize, IoError>>::Pending
                    &&& final(table).contexts@ == old(table).contexts@.insert(
                        self.ctx,
                        TcpStreamContextInner {
                            write_waker: Some(waker),
                            pressure_parked: true,
                            ..ctx
                        },
                    )
                    &&& final(table).parked@ == if ctx.pressure_parked {
                        old(table).parked@
                    } else {
                        old(table).parked@.push(self.ctx)
                    }
                } else {
                    &&& final(table).contexts@ == old(table).contexts@
                    &&& final(table).parked@ == old(table).parked@
                    &&& if code == ERR_OK {
                        poll == Poll::<Result<usize, IoError>>::Ready(Ok(len as usize))
                    } else {
                        poll matches Poll::Ready(Err(error)) && error.describes(
                            ErrorKind::Interrupted,
                            "netstack tcp_write error "@ + text::signed_decimal(code as int),
                        )
                    }
                }
            }),
    {
        if code == ERR_OK {
            return Poll::Ready(Ok(len as usize));
        }
        if code == ERR_MEM {
            let ghost table0 = *table;
            let mut context = table.contexts.remove(&self.ctx).unwrap();
            context.write_waker = Some(waker);
            table.contexts.insert(self.ctx, context);
            proof {
                assert(table.contexts@ =~= table0.contexts@.insert(self.ctx, context));
                lemma_replaced(table0, *table, self.ctx);
            }
            table.pressure_park_locked(self.ctx);
            assert(table.contexts@ =~= table0.contexts@.insert(
                self.ctx,
                TcpStreamContextInner {
                    write_waker: Some(waker),
                    pressure_parked: true,
                    ..table0.contexts@[self.ctx]
                },
            ));
            proof {
                tcp_accounts::law_what_leaves_the_queues_alone_keeps_the_books(*old(table), *table);
            }
            return Poll::Pending;
        }
        Poll::Ready(Err(stack_error("netstack tcp_write error ", code)))
    }

    /// Starts a flush: `Ok` where the stack is to be asked to send what it has
    /// queued.
    pub fn poll_flush<W>(&self, table: &TcpContexts<W>) -> (start: Result<(), IoError>)
        requires
            self.wf(*table),
        ensures
            match start {
                Ok(()) => !table.contexts@[self.ctx].errored,
                Err(error) => table.contexts@[self.ctx].errored && error.describes(
                    ErrorKind::BrokenPipe,
                    "broken pipe"@,
                ),
            },
    {
        let context = table.contexts.get(&self.ctx).unwrap();
        if context.errored {
            return Err(broken_pipe());
        }
        Ok(())
    }

    /// Settles a flush that the stack answered with `code`. Whatever the code,
    /// the bytes stay queued and the stack sends them later: a fatal state is
    /// reported through the error callback instead.
    pub fn poll_flush_sent(&self, code: i8) -> (poll: Poll<Result<(), IoError>>)
        ensures
            poll == Poll::<Result<(), IoError>>::Ready(Ok(())),
    {
        Poll::Ready(Ok(()))
    }

    /// Starts a shutdown of the sending direction: `Ok` where the stack is to be
    /// asked for it.
    pub fn poll_shutdown<W>(&self, table: &TcpContexts<W>) -> (start: Result<(), IoError>)
        requires
            self.wf(*table),
        ensures
            match start {
                Ok(()) => !table.contexts@[self.ctx].errored,
                Err(error) => table.contexts@[self.ctx].errored && error.describes(
                    ErrorKind::BrokenPipe,
                    "broken pipe"@,
                ),
            },
    {
        self.poll_flush(table)
    }

    /// Settles a shutdown that the stack answered with `code`.
    pub fn poll_shutdown_sent<W>(
        &self,
        table: &mut TcpContexts<W>,
        code: i8,
    ) -> (poll: Poll<Result<(), IoError>>)
        requires
            self.wf(*old(table)),
        ensures
            self.wf(*final(table)),
            tcp_accounts::leaves_books(*old(table), *final(table)),
            final(table).parked@ == old(table).parked@,
            if code == ERR_OK {
                &&& poll == Poll::<Result<(), IoError>>::Ready(Ok(()))
                &&& final(table).contexts@ == old(table).contexts@.insert(
                    self.ctx,
                    TcpStreamContextInner { closed: true, ..old(table).contexts@[self.ctx] },
                )
            } else {
                &&& poll matches Poll::Ready(Err(error))
                &&& error.describes(
                    ErrorKind::Interrupted,
                    "netstack tcp_shutdown tx error "@ + text::signed_decimal(code as int),
                )
                &&& final(table).contexts@ == old(table).contexts@
            },
    {
        if code != ERR_OK {
            return Poll::Ready(Err(stack_error("netstack tcp_shutdown tx error ", code)));
        }
        let ghost table0 = *table;
        let mut context = table.contexts.remove(&self.ctx).unwrap();
        context.closed = true;
        table.contexts.insert(self.ctx, context);
        proof {
            assert(table.contexts@ =~= table0.contexts@.insert(self.ctx, context));
            lemma_replaced(table0, *table, self.ctx);
            tcp_accounts::law_what_leaves_the_queues_alone_keeps_the_books(*old(table), *table);
        }
        Poll::Ready(Ok(()))
    }
}

/// What becomes of the connection of a stream that goes away.
#[derive(Clone, Copy, Debug, PartialEq, Eq, Structural)]
pub enum PcbTeardown {
    /// The stack has freed it already.
    Gone,
    /// Detach its callbacks and abort it.
    Abort,
    /// Detach its callbacks and close it: its sending direction is shut, and
    /// only a closed connection is reaped when the peer vanishes. Where closing
    /// fails, abort it.
    Close,
}

/// Whether closing a connection at teardown failed, so that it is to be aborted.
pub fn close_needs_abort(code: i8) -> (abort: bool)
    ensures
        abort == (code != ERR_OK),
{
    code != ERR_OK
}

/// What a teardown calls for: chains to give back to the stack, what to do with
/// the connection, and then writers to wake.
#[derive(Debug)]
pub struct Teardown<W> {
    pub freed: Vec<usize>,
    pub pcb: PcbTeardown,
    pub wakes: Vec<W>,
}

/// Gives back chains that were not read out: lists their addresses and stops
/// counting them.
fn give_back(chains: &mut VecDeque<QueuedPbuf>, freed: &mut Vec<usize>, stats: &mut TcpRuntimeStats)
    ensures
        final(chains)@ == Seq::<QueuedPbuf>::empty(),
        final(freed)@ == old(freed)@ + chain_heads(old(chains)@),
        *final(stats) == old(stats).shifted(
            -(old(chains)@.len() as int),
            -chains_bytes(old(chains)@),
        ),
{
    let ghost all = chains@;
    let ghost base = *stats;
    let ghost mut done: int = 0;
    proof {
        assert(all.take(0) =~= Seq::empty());
        assert(all.skip(0) =~= all);
        assert(freed@ =~= old(freed)@ + chain_heads(all.take(0)));
        tcp_stream_context::lemma_shifted_zero(base);
    }
    while chains.len() > 0
        invariant
            0 <= done <= all.len(),
            chains@ == all.skip(done),
            freed@ == old(freed)@ + chain_heads(all.take(done)),
            *stats == base.shifted(-done, -chains_bytes(all.take(done))),
        decreases chains@.len(),
    {
        let chain = chains.pop_front().unwrap();
        proof {
            assert(chain == all[done]);
            assert(all.take(done + 1) =~= all.take(done).push(chain));
            assert(all.skip(done).subrange(1, all.skip(done).len() as int) =~= all.skip(done + 1));
            lemma_retire(base, all.take(done), chain);
        }
        chain.discount(stats);
        freed.push(chain.head());
        proof {
            done = done + 1;
            assert(freed@ =~= old(freed)@ + chain_heads(all.take(done)));
        }
    }
    assert(all.take(all.len() as int) =~= all);
}

impl TcpStreamImpl {
    /// Tears the stream down. Every chain that it still owns goes back to the
    /// stack: undelivered, being copied, spent, and never claimed. Its context
    /// leaves the queue of parked writers and the table, and since the memory of
    /// the connection is freed, every parked writer is woken.
    pub fn teardown<W>(
        self,
        table: &mut TcpContexts<W>,
        stats: &mut TcpRuntimeStats,
    ) -> (teardown: Teardown<W>)
        requires
            self.wf(*old(table)),
        ensures
            final(table).wf(),
            tcp_accounts::closes_in_books(
                self,
                *old(table),
                *old(stats),
                *final(table),
                *final(stats),
            ),
            ({
                let ctx = old(table).contexts@[self.ctx];
                let held = holding(self.reader, ctx);
                let rest = old(table).contexts@.remove(self.ctx);
                let others = old(table).parked@.remove_value(self.ctx);
                &&& teardown.freed@ == chain_heads(
                    self.reader.staged@ + cursor_chain(self.reader.read_buf) + self.reader.spent@
                        + ctx.read_queue@,
                )
                &&& teardown.pcb == if ctx.errored {
                    PcbTeardown::Gone
                } else if !ctx.closed {
                    PcbTeardown::Abort
                } else {
                    PcbTeardown::Close
                }
                &&& teardown.wakes@ == tcp_stream_context::waiting_wakers(rest, others)
                &&& final(table).contexts@ == tcp_stream_context::all_woken(rest, others)
                &&& final(table).parked@ == Seq::<u64>::empty()
                &&& *final(stats) == old(stats).shifted(
                    -(held.len() as int),
                    -chains_bytes(held),
                ).with_streams(-1)
            }),
    {
        let ghost base = *stats;
        let ghost reader0 = self.reader;
        let ghost table0 = *table;
        let ghost ctx0 = table.contexts@[self.ctx];
        let TcpStreamImpl { ctx, mut reader, active, .. } = self;
        let mut freed: Vec<usize> = Vec::new();
        give_back(&mut reader.staged, &mut freed, stats);
        if let Some(cursor) = reader.read_buf.take() {
            cursor.chain.discount(stats);
            freed.push(cursor.chain.head());
        }
        let mut spent = reader.take_spent();
        freed.append(&mut spent);
        table.pressure_remove_locked(ctx);
        let ghost table1 = *table;
        let mut context = table.contexts.remove(&ctx).unwrap();
        give_back(&mut context.read_queue, &mut freed, stats);
        let pcb = if context.errored {
            PcbTeardown::Gone
        } else if !context.closed {
            PcbTeardown::Abort
        } else {
            PcbTeardown::Close
        };
        proof {
            let staged = reader0.staged@;
            let cursor = cursor_chain(reader0.read_buf);
            let queue = ctx0.read_queue@;
            assert(freed@ =~= chain_heads(staged + cursor + reader0.spent@ + queue));
            lemma_chains_bytes_concat(cursor, staged);
            lemma_chains_bytes_concat(cursor + staged, queue);
            reveal_with_fuel(chains_bytes, 2);
            if reader0.read_buf is Some {
                assert(cursor.skip(1) =~= Seq::empty());
            }
            let p = staged.len() as int;
            let b = chains_bytes(staged);
            tcp_stream_context::lemma_shifted_zero(base.shifted(-p, -b));
            tcp_stream_context::lemma_shifted_twice(
                base,
                -p,
                -b,
                -(cursor.len() as int),
                -chains_bytes(cursor),
            );
            tcp_stream_context::lemma_shifted_twice(
                base,
                -p - cursor.len(),
                -b - chains_bytes(cursor),
                -(queue.len() as int),
                -chains_bytes(queue),
            );
            assert(table.contexts@ =~= table0.contexts@.remove(ctx));
            assert forall|k: u64| #[trigger] table.parked@.contains(k) <==> (
            table.contexts@.contains_key(k) && table.contexts@[k].pressure_parked) by {
                assert(table1.parked@.contains(k) <==> (table1.contexts@.contains_key(k)
                    && table1.contexts@[k].pressure_parked));
            }
        }
        active.release(stats);
        let wakes = table.pressure_unpark_all_locked();
        proof {
            tcp_accounts::lemma_closes_in_books(self, table0, base, *table, *stats);
        }
        Teardown { freed, pcb, wakes }
    }
}

/// What a received chain does to the context: it joins the end of the queue, and
/// a waiting reader is woken.
pub open spec fn receives<W>(
    ctx: TcpStreamContextInner<W>,
    chain: QueuedPbuf,
    ctx_after: TcpStreamContextInner<W>,
) -> bool {
    &&& ctx_after == (TcpStreamContextInner {
        read_queue: ctx_after.read_queue,
        read_waker: None,
        ..ctx
    })
    &&& ctx_after.read_queue@ == ctx.read_queue@.push(chain)
}

/// The chains that a reader owns: spent ones, and ones that hold bytes.
pub open spec fn owned<W>(reader: TcpReader, ctx: TcpStreamContextInner<W>) -> Seq<QueuedPbuf> {
    reader.spent@ + holding(reader, ctx)
}

/// The sequences of `parts`, one after the other.
pub open spec fn joined(parts: Seq<Seq<u8>>) -> Seq<u8>
    decreases parts.len(),
{
    if parts.len() == 0 {
        Seq::empty()
    } else {
        joined(parts.drop_last()) + parts.last()
    }
}

/// A received chain adds its payload to what is to be delivered, itself to what
/// the reader owns, and counts for what it holds.
pub proof fn law_receiving_adds_the_payload<W>(
    reader: TcpReader,
    ctx: TcpStreamContextInner<W>,
    chain: QueuedPbuf,
    ctx_after: TcpStreamContextInner<W>,
)
    requires
        receives(ctx, chain, ctx_after),
    ensures
        undelivered(reader, ctx_after) == undelivered(reader, ctx) + chain.payload(),
        owned(reader, ctx_after) == owned(reader, ctx).push(chain),
        holding(reader, ctx_after).len() == holding(reader, ctx).len() + 1,
        chains_bytes(holding(reader, ctx_after)) == chains_bytes(holding(reader, ctx))
            + chain.bytes,
{
    let one = seq![chain];
    assert(ctx_after.read_queue@ =~= ctx.read_queue@ + one);
    lemma_chains_payload_concat(ctx.read_queue@, one);
    reveal_with_fuel(chains_payload, 2);
    reveal_with_fuel(chains_bytes, 2);
    assert(one.skip(1) =~= Seq::empty());
    assert(chains_payload(one) =~= chain.payload());
    assert(undelivered(reader, ctx_after) =~= undelivered(reader, ctx) + chain.payload());
    assert(holding(reader, ctx_after) =~= holding(reader, ctx) + one);
    lemma_chains_bytes_concat(holding(reader, ctx), one);
    assert(owned(reader, ctx_after) =~= owned(reader, ctx).push(chain));
}

/// One step in the life of a stream: a read that delivers `delivered`, or the
/// reception of a chain with the payload `received`.
pub open spec fn moves<W>(
    state: (TcpReader, TcpStreamContextInner<W>),
    state_after: (TcpReader, TcpStreamContextInner<W>),
    received: Seq<u8>,
    delivered: Seq<u8>,
) -> bool {
    ||| exists|read: ReadPoll|
        #[trigger] reads(state.0, state.1, read, state_after.0, state_after.1) && received
            == Seq::<u8>::empty() && delivered == read.delivered@
    ||| exists|chain: QueuedPbuf|
        #[trigger] receives(state.1, chain, state_after.1) && state_after.0 == state.0 && received
            == chain.payload() && delivered == Seq::<u8>::empty()
}

/// A step takes what it delivers from the front of the undelivered bytes, and
/// adds what it receives at their end.
proof fn lemma_moves<W>(
    state: (TcpReader, TcpStreamContextInner<W>),
    state_after: (TcpReader, TcpStreamContextInner<W>),
    received: Seq<u8>,
    delivered: Seq<u8>,
)
    requires
        moves(state, state_after, received, delivered),
    ensures
        delivered + undelivered(state_after.0, state_after.1) == undelivered(state.0, state.1)
            + received,
{
    if exists|chain: QueuedPbuf|
        #[trigger] receives(state.1, chain, state_after.1) && state_after.0 == state.0 && received
            == chain.payload() && delivered == Seq::<u8>::empty() {
        let chain = choose|chain: QueuedPbuf|
            #[trigger] receives(state.1, chain, state_after.1) && state_after.0 == state.0
                && received == chain.payload() && delivered == Seq::<u8>::empty();
        law_receiving_adds_the_payload(state.0, state.1, chain, state_after.1);
    }
    assert(delivered + undelivered(state_after.0, state_after.1) =~= undelivered(state.0, state.1)
        + received);
}

/// Bytes are delivered once, in the order in which they were received, and none
/// is lost: over any run of receptions and reads, what was delivered, followed
/// by what is still undelivered, is what was undelivered at first, followed by
/// what was received.
pub proof fn law_bytes_arrive_once_and_in_order<W>(
    states: Seq<(TcpReader, TcpStreamContextInner<W>)>,
    received: Seq<Seq<u8>>,
    delivered: Seq<Seq<u8>>,
)
    requires
        states.len() == received.len() + 1,
        states.len() == delivered.len() + 1,
        forall|i: int|
            0 <= i < received.len() ==> #[trigger] moves(
                states[i],
                states[i + 1],
                received[i],
                delivered[i],
            ),
    ensures
        joined(delivered) + undelivered(states.last().0, states.last().1)
            == undelivered(states[0].0, states[0].1) + joined(received),
    decreases received.len(),
{
    let n = received.len() as int;
    let start = undelivered(states[0].0, states[0].1);
    if n == 0 {
        assert(joined(delivered) + start =~= start + joined(received));
    } else {
        let earlier = states.drop_last();
        let received_earlier = received.drop_last();
        let delivered_earlier = delivered.drop_last();
        assert forall|i: int| 0 <= i < received_earlier.len() implies #[trigger] moves(
            earlier[i],
            earlier[i + 1],
            received_earlier[i],
            delivered_earlier[i],
        ) by {
            assert(moves(states[i], states[i + 1], received[i], delivered[i]));
        }
        law_bytes_arrive_once_and_in_order(earlier, received_earlier, delivered_earlier);
        let d = delivered[n - 1];
        let r = received[n - 1];
        assert(moves(states[n - 1], states[n - 1 + 1], r, d));
        lemma_moves(states[n - 1], states[n], r, d);
        let mid = undelivered(states[n - 1].0, states[n - 1].1);
        let end = undelivered(states[n].0, states[n].1);
        assert(earlier.last() == states[n - 1]);
        assert(joined(delivered) + end =~= joined(delivered_earlier) + (d + end));
        assert(joined(delivered_earlier) + (mid + r) =~= (joined(delivered_earlier) + mid) + r);
        assert(start + joined(received) =~= (start + joined(received_earlier)) + r);
    }
}

/// The calls that grant a credit grant exactly that credit, and each call is
/// one that the stack can take.
pub proof fn law_credit_calls_are_exact(n: nat)
    ensures
        granted(credit_calls(n)) == n,
        forall|i: int| 0 <= i < credit_calls(n).len() ==> 0 < #[trigger] credit_calls(n)[i]
            <= MAX_CREDIT,
    decreases n,
{
    let calls = credit_calls(n);
    if n == 0 {
    } else if n <= MAX_CREDIT {
        reveal_with_fuel(granted, 2);
        assert(calls.skip(1) =~= Seq::empty());
    } else {
        let rest = (n - MAX_CREDIT) as nat;
        law_credit_calls_are_exact(rest);
        assert(calls.skip(1) =~= credit_calls(rest));
        assert forall|i: int| 0 <= i < calls.len() implies 0 < #[trigger] calls[i] <= MAX_CREDIT by {
            if i > 0 {
                assert(calls[i] == credit_calls(rest)[i - 1]);
            }
        }
    }
}

/// A write is never larger than the segment queue takes: where the queue holds the
/// segments of the largest write, it holds those of every write that is submitted,
/// whatever the caller has and however much of the send buffer is free. So a write
/// that meets a memory error does so for want of shared memory, not forever.
pub proof fn law_every_write_fits_the_segment_queue(
    buf_len: usize,
    free: usize,
    send_buf: usize,
    queue_len: usize,
    base_mss: usize,
)
    requires
        base_mss > 0,
        free <= send_buf,
        queue_len >= stack_impl::required_segments(send_buf, base_mss),
    ensures
        stack_impl::segments(write_len(buf_len, free), base_mss) <= queue_len,
        write_len(buf_len, free) <= queue_len * base_mss,
{
    let len = write_len(buf_len, free);
    let largest = if send_buf < u16::MAX {
        send_buf as int
    } else {
        u16::MAX as int
    };
    let m = base_mss as int;
    let n = stack_impl::segments(len, base_mss);
    vstd::arithmetic::div_mod::lemma_div_is_ordered(len + m - 1, largest + m - 1, m);
    vstd::arithmetic::div_mod::lemma_fundamental_div_mod(len + m - 1, m);
    assert(len <= n * m) by (nonlinear_arith)
        requires
            len + m - 1 == m * n + (len + m - 1) % m,
            (len + m - 1) % m < m,
    ;
    assert(n * m <= queue_len * m) by (nonlinear_arith)
        requires
            n <= queue_len,
            m > 0,
    ;
}

/// Streams belong to one stack: whatever a stack receives, reads out or wakes, the
/// streams of every other have the same bytes to deliver, in the same chains, and the
/// same counters and parked writers.
pub proof fn law_streams_of_stacks_are_independent<W>(
    shards: Shards<W>,
    id: int,
    changed: ShardState<W>,
    shards_after: Shards<W>,
    stream: TcpStreamImpl,
)
    requires
        shards.wf(),
        0 <= id < SHARD_COUNT,
        shards_after.shards@ == shards.shards@.update(id, changed),
        stream.shard_id < SHARD_COUNT,
        stream.shard_id != id,
        stream.wf(shards.shards@[stream.shard_id as int].tcp),
    ensures
        ({
            let before = shards.shards@[stream.shard_id as int];
            let after = shards_after.shards@[stream.shard_id as int];
            &&& stream.wf(after.tcp)
            &&& undelivered(stream.reader, after.tcp.contexts@[stream.ctx]) == undelivered(
                stream.reader,
                before.tcp.contexts@[stream.ctx],
            )
            &&& holding(stream.reader, after.tcp.contexts@[stream.ctx]) == holding(
                stream.reader,
                before.tcp.contexts@[stream.ctx],
            )
            &&& after.tcp_stats == before.tcp_stats
            &&& after.tcp.parked@ == before.tcp.parked@
        }),
{
}

/// A read of everything that there is leaves nothing that counts: every chain is
/// discounted with its last byte, also one that ends in empty buffers.
pub proof fn law_reading_everything_clears_the_counters<W>(
    before: TcpReader,
    ctx: TcpStreamContextInner<W>,
    read: ReadPoll,
    after: TcpReader,
    ctx_after: TcpStreamContextInner<W>,
    stats: TcpRuntimeStats,
    stats_after: TcpRuntimeStats,
)
    requires
        reads(before, ctx, read, after, ctx_after),
        stats_after == stats.shifted(
            holding(after, ctx_after).len() - holding(before, ctx).len(),
            chains_bytes(holding(after, ctx_after)) - chains_bytes(holding(before, ctx)),
        ),
        read.delivered@.len() == undelivered(before, ctx).len(),
    ensures
        undelivered(after, ctx_after).len() == 0,
        holding(after, ctx_after).len() == 0,
        stats.queued_packets >= holding(before, ctx).len() ==> stats_after.queued_packets
            == stats.queued_packets - holding(before, ctx).len(),
        0 <= chains_bytes(holding(before, ctx)) <= stats.queued_bytes ==> stats_after.queued_bytes
            == stats.queued_bytes - chains_bytes(holding(before, ctx)),
{
    assert(undelivered(before, ctx).len() == read.delivered@.len() + undelivered(
        after,
        ctx_after,
    ).len());
    if stats.queued_packets >= holding(before, ctx).len() {
        counter::lemma_wrapped_small(stats.queued_packets - holding(before, ctx).len());
    }
    if 0 <= chains_bytes(holding(before, ctx)) <= stats.queued_bytes {
        counter::lemma_wrapped_small(stats.queued_bytes - chains_bytes(holding(before, ctx)));
    }
}

/// Window credit is neither lost nor granted early: a read of a live connection
/// grants exactly the credit for what the previous read delivered, and gives
/// back exactly the chains that it emptied.
pub proof fn law_credit_and_chains_follow_one_read_later<W>(
    r0: TcpReader,
    c0: TcpStreamContextInner<W>,
    first: ReadPoll,
    r1: TcpReader,
    c1: TcpStreamContextInner<W>,
    c1_later: TcpStreamContextInner<W>,
    second: ReadPoll,
    r2: TcpReader,
    c2: TcpStreamContextInner<W>,
)
    requires
        reads(r0, c0, first, r1, c1),
        reads(r1, c1_later, second, r2, c2),
        !c0.errored,
        !c1_later.errored,
    ensures
        granted(second.recved@) == first.delivered@.len(),
        holding(r0, c0) == r1.spent@ + holding(r1, c1),
        second.freed@ == chain_heads(r1.spent@),
{
    law_credit_calls_are_exact(first.delivered@.len());
}

/// Every chain goes back to the stack once: a read gives back the first chains
/// that the reader owned and keeps the others.
pub proof fn law_every_chain_goes_back_once<W>(
    before: TcpReader,
    ctx: TcpStreamContextInner<W>,
    read: ReadPoll,
    after: TcpReader,
    ctx_after: TcpStreamContextInner<W>,
)
    requires
        reads(before, ctx, read, after, ctx_after),
    ensures
        read.freed@ + chain_heads(owned(after, ctx_after)) == chain_heads(owned(before, ctx)),
{
    assert(read.freed@ + chain_heads(owned(after, ctx_after)) =~= chain_heads(owned(before, ctx)));
}

/// A teardown gives back every chain that the reader owns, each once.
pub proof fn law_teardown_gives_back_everything<W>(
    reader: TcpReader,
    ctx: TcpStreamContextInner<W>,
    freed: Seq<usize>,
)
    requires
        freed == chain_heads(
            reader.staged@ + cursor_chain(reader.read_buf) + reader.spent@ + ctx.read_queue@,
        ),
    ensures
        freed.to_multiset() == chain_heads(owned(reader, ctx)).to_multiset(),
{
    let staged = chain_heads(reader.staged@);
    let cursor = chain_heads(cursor_chain(reader.read_buf));
    let spent = chain_heads(reader.spent@);
    let queue = chain_heads(ctx.read_queue@);
    assert(freed =~= ((staged + cursor) + spent) + queue);
    assert(chain_heads(owned(reader, ctx)) =~= spent + ((cursor + staged) + queue));
    vstd::seq_lib::lemma_multiset_commutative(staged, cursor);
    vstd::seq_lib::lemma_multiset_commutative(staged + cursor, spent);
    vstd::seq_lib::lemma_multiset_commutative((staged + cursor) + spent, queue);
    vstd::seq_lib::lemma_multiset_commutative(cursor, staged);
    vstd::seq_lib::lemma_multiset_commutative(cursor + staged, queue);
    vstd::seq_lib::lemma_multiset_commutative(spent, (cursor + staged) + queue);
    assert(freed.to_multiset() =~= chain_heads(owned(reader, ctx)).to_multiset());
}

/// The end of the stream is reported once all bytes were delivered, and from
/// then on by every read.
pub proof fn law_end_of_stream_is_sticky<W>(
    before: TcpReader,
    ctx: TcpStreamContextInner<W>,
    read: ReadPoll,
    after: TcpReader,
    ctx_after: TcpStreamContextInner<W>,
)
    requires
        reads(before, ctx, read, after, ctx_after),
        ctx.read_eof,
        !ctx.errored,
        undelivered(before, ctx).len() == 0,
    ensures
        read.outcome == Poll::<Result<(), IoError>>::Ready(Ok(())),
        read.delivered@ == Seq::<u8>::empty(),
        ctx_after.read_eof,
        !ctx_after.errored,
        undelivered(after, ctx_after).len() == 0,
{
    assert((read.delivered@ + undelivered(after, ctx_after)).len() == 0);
}

/// A connection that failed stays failed: neither receptions and reads nor the
/// waking of parked writers undo it, and what was received before is kept.
pub proof fn law_a_failed_stream_stays_failed<W>(
    state: (TcpReader, TcpStreamContextInner<W>),
    state_after: (TcpReader, TcpStreamContextInner<W>),
    received: Seq<u8>,
    delivered: Seq<u8>,
    contexts: Map<u64, TcpStreamContextInner<W>>,
    queue: Seq<u64>,
    id: u64,
)
    requires
        moves(state, state_after, received, delivered),
        contexts.contains_key(id),
    ensures
        failed(state.1).errored,
        undelivered(state.0, failed(state.1)) == undelivered(state.0, state.1),
        state.1.errored ==> state_after.1.errored && delivered == Seq::<u8>::empty(),
        contexts[id].errored ==> tcp_stream_context::all_woken(contexts, queue)[id].errored,
        contexts[id].errored ==> tcp_stream_context::after_unpark_one(
            contexts,
            queue,
        ).0[id].errored,
{
}

/// The counters are unchanged where the chains are.
proof fn lemma_shifted_same(stats: TcpRuntimeStats, chains: Seq<QueuedPbuf>)
    ensures
        stats.shifted(
            chains.len() - chains.len(),
            chains_bytes(chains) - chains_bytes(chains),
        ) == stats,
{
    tcp_stream_context::lemma_shifted_zero(stats);
}

/// Replacing one context by another with the same mark keeps the table valid.
proof fn lemma_replaced<W>(before: TcpContexts<W>, after: TcpContexts<W>, id: u64)
    requires
        before.wf(),
        before.contexts@.contains_key(id),
        after.parked@ == before.parked@,
        after.contexts@ == before.contexts@.insert(id, after.contexts@[id]),
        after.contexts@[id].pressure_parked == before.contexts@[id].pressure_parked,
        after.contexts@[id].wf(),
    ensures
        after.wf(),
{
    assert forall|k: u64| #[trigger] after.parked@.contains(k) <==> (after.contexts@.contains_key(k)
        && after.contexts@[k].pressure_parked) by {
        assert(before.parked@.contains(k) <==> (before.contexts@.contains_key(k)
            && before.contexts@[k].pressure_parked));
    }
}

} // verus!
