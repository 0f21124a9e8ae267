//! The state that a TCP stream shares with the callbacks of its stack, and the
//! queue of writers that wait for shared segment memory.
//!
//! `tcp_write` reports a memory error while send-buffer space remains when a
//! resource that all connections share is exhausted, usually by other
//! connections. The stack only ever calls back into the failing connection, so
//! a writer that met such an error parks on a queue of its stack, and whoever
//! returns capacity hands it to the longest-parked writer: an acknowledgement
//! wakes one, a teardown or a fatal error wakes all.

use std::collections::{HashMap, VecDeque};
use vstd::prelude::*;
use vstd::std_specs::hash::*;

use crate::addr::SocketAddr;
use crate::counter;
use crate::counter::{counter_add, counter_sub};

verus! {

broadcast use group_hash_axioms;

/// Room that a fresh read queue reserves.
pub const TCP_READ_QUEUE_INITIAL_CAPACITY: usize = 32;

/// TCP telemetry: how many streams are open, and how many received chains (and
/// bytes in them) have not been read out completely.
#[derive(Clone, Copy, Debug, PartialEq, Eq, Structural)]
pub struct TcpRuntimeStats {
    pub active_streams: usize,
    pub queued_packets: usize,
    pub queued_bytes: usize,
}

impl TcpRuntimeStats {
    /// These numbers after `packets` more chains with `bytes` more bytes were
    /// queued (fewer, where the arguments are negative).
    pub open spec fn shifted(self, packets: int, bytes: int) -> Self {
        TcpRuntimeStats {
            active_streams: self.active_streams,
            queued_packets: counter::wrapped(self.queued_packets + packets) as usize,
            queued_bytes: counter::wrapped(self.queued_bytes + bytes) as usize,
        }
    }

    /// These numbers after `streams` more streams were opened.
    pub open spec fn with_streams(self, streams: int) -> Self {
        TcpRuntimeStats { active_streams: counter::wrapped(self.active_streams + streams) as usize, ..self }
    }
}

impl Default for TcpRuntimeStats {
    fn default() -> (stats: Self)
        ensures
            stats == (TcpRuntimeStats { active_streams: 0, queued_packets: 0, queued_bytes: 0 }),
    {
        TcpRuntimeStats { active_streams: 0, queued_packets: 0, queued_bytes: 0 }
    }
}

/// Shifting the counters twice is shifting them once by the sum.
pub proof fn lemma_shifted_twice(stats: TcpRuntimeStats, p1: int, b1: int, p2: int, b2: int)
    ensures
        stats.shifted(p1, b1).shifted(p2, b2) == stats.shifted(p1 + p2, b1 + b2),
{
    counter::lemma_wrapped_shift(stats.queued_packets + p1, p2);
    counter::lemma_wrapped_shift(stats.queued_bytes + b1, b2);
}

/// Shifting the counters by nothing leaves them as they are.
pub proof fn lemma_shifted_zero(stats: TcpRuntimeStats)
    ensures
        stats.shifted(0, 0) == stats,
{
    counter::lemma_wrapped_small(stats.queued_packets as int);
    counter::lemma_wrapped_small(stats.queued_bytes as int);
}

/// The bytes of a chain of buffers, in order.
pub open spec fn flat(nodes: Seq<Vec<u8>>) -> Seq<u8>
    decreases nodes.len(),
{
    if nodes.len() == 0 {
        Seq::empty()
    } else {
        nodes[0]@ + flat(nodes.skip(1))
    }
}

/// Adding one more node adds its bytes at the end.
pub proof fn lemma_flat_push(nodes: Seq<Vec<u8>>, node: Vec<u8>)
    ensures
        flat(nodes.push(node)) == flat(nodes) + node@,
    decreases nodes.len(),
{
    let longer = nodes.push(node);
    if nodes.len() == 0 {
        reveal_with_fuel(flat, 2);
        assert(longer.skip(1) =~= Seq::empty());
        assert(flat(longer) =~= node@);
    } else {
        lemma_flat_push(nodes.skip(1), node);
        assert(longer.skip(1) =~= nodes.skip(1).push(node));
        assert(flat(longer) =~= flat(nodes) + node@);
    }
}

/// A prefix of the nodes holds no more bytes than all of them.
proof fn lemma_flat_prefix(nodes: Seq<Vec<u8>>, i: int)
    requires
        0 <= i < nodes.len(),
    ensures
        flat(nodes.take(i + 1)).len() == flat(nodes.take(i)).len() + nodes[i]@.len(),
        flat(nodes.take(i + 1)).len() <= flat(nodes).len(),
    decreases nodes.len() - i,
{
    assert(nodes.take(i + 1) =~= nodes.take(i).push(nodes[i]));
    lemma_flat_push(nodes.take(i), nodes[i]);
    if i + 1 < nodes.len() {
        lemma_flat_prefix(nodes, i + 1);
    } else {
        assert(nodes.take(i + 1) =~= nodes);
    }
}

/// How many bytes the nodes of a chain hold together.
pub fn flat_len(nodes: &Vec<Vec<u8>>) -> (len: usize)
    requires
        flat(nodes@).len() <= u16::MAX,
    ensures
        len == flat(nodes@).len(),
{
    let mut len: usize = 0;
    let mut i: usize = 0;
    assert(nodes@.take(0) =~= Seq::empty());
    while i < nodes.len()
        invariant
            i <= nodes@.len(),
            len == flat(nodes@.take(i as int)).len(),
            flat(nodes@).len() <= u16::MAX,
        decreases nodes@.len() - i,
    {
        proof {
            lemma_flat_prefix(nodes@, i as int);
        }
        len = len + nodes[i].len();
        i = i + 1;
    }
    assert(nodes@.take(nodes@.len() as int) =~= nodes@);
    len
}

/// A chain of received buffers that the stack surrendered to the reader: the
/// address to give back to the stack, and the payload of each buffer.
#[derive(Debug)]
pub struct QueuedPbuf {
    pub head: usize,
    pub bytes: usize,
    pub nodes: Vec<Vec<u8>>,
}

impl QueuedPbuf {
    /// The byte count is that of the payload, and the payload is not empty.
    pub open spec fn wf(&self) -> bool {
        &&& self.bytes == flat(self.nodes@).len()
        &&& self.bytes > 0
    }

    /// The received bytes.
    pub open spec fn payload(&self) -> Seq<u8> {
        flat(self.nodes@)
    }

    /// Takes over a chain and counts it as queued.
    pub fn new(head: usize, nodes: Vec<Vec<u8>>, stats: &mut TcpRuntimeStats) -> (chain: Self)
        requires
            0 < flat(nodes@).len() <= u16::MAX,
        ensures
            chain.wf(),
            chain.head == head,
            chain.nodes == nodes,
            *final(stats) == old(stats).shifted(1, flat(nodes@).len() as int),
    {
        let bytes: usize = flat_len(&nodes);
        proof {
            counter::lemma_wrapped_shift(stats.queued_packets + 1, 0);
            counter::lemma_wrapped_shift(stats.queued_bytes + bytes, 0);
        }
        counter_add(&mut stats.queued_packets, 1);
        counter_add(&mut stats.queued_bytes, bytes);
        QueuedPbuf { head, bytes, nodes }
    }

    /// The address of the chain.
    pub fn head(&self) -> (head: usize)
        ensures
            head == self.head,
    {
        self.head
    }

    /// Stops counting the chain as queued: it was read out, or is given back
    /// unread.
    pub fn discount(&self, stats: &mut TcpRuntimeStats)
        ensures
            *final(stats) == old(stats).shifted(-1, -(self.bytes as int)),
    {
        proof {
            counter::lemma_wrapped_shift(stats.queued_packets - 1, 0);
            counter::lemma_wrapped_shift(stats.queued_bytes - self.bytes, 0);
        }
        counter_sub(&mut stats.queued_packets, 1);
        counter_sub(&mut stats.queued_bytes, self.bytes);
    }
}

/// The token that an open stream holds while it counts as active.
#[derive(Debug)]
pub struct ActiveTcpStream;

impl ActiveTcpStream {
    /// Counts one more open stream.
    pub fn new(stats: &mut TcpRuntimeStats) -> (active: Self)
        ensures
            *final(stats) == old(stats).with_streams(1),
    {
        proof {
            counter::lemma_wrapped_shift(stats.active_streams + 1, 0);
        }
        counter_add(&mut stats.active_streams, 1);
        ActiveTcpStream
    }

    /// Counts one open stream less.
    pub fn release(self, stats: &mut TcpRuntimeStats)
        ensures
            *final(stats) == old(stats).with_streams(-1),
    {
        proof {
            counter::lemma_wrapped_shift(stats.active_streams - 1, 0);
        }
        counter_sub(&mut stats.active_streams, 1);
    }
}

/// What a stream shares with the callbacks of its stack. `W` is the handle by
/// which a waiting task is woken.
#[derive(Debug)]
pub struct TcpStreamContextInner<W> {
    pub local_addr: SocketAddr,
    pub read_queue: VecDeque<QueuedPbuf>,
    pub read_waker: Option<W>,
    pub read_eof: bool,
    pub errored: bool,
    pub closed: bool,
    pub write_waker: Option<W>,
    /// Whether the stream sits in the queue of parked writers.
    pub pressure_parked: bool,
}

/// Whether every chain is valid.
pub open spec fn chains_wf(chains: Seq<QueuedPbuf>) -> bool {
    forall|i: int| 0 <= i < chains.len() ==> (#[trigger] chains[i]).wf()
}

impl<W> TcpStreamContextInner<W> {
    /// Whether every queued chain is valid.
    pub open spec fn wf(&self) -> bool {
        chains_wf(self.read_queue@)
    }

    /// This context out of the queue of parked writers.
    pub open spec fn unparked(self) -> Self {
        TcpStreamContextInner { pressure_parked: false, ..self }
    }

    /// This context with its writer woken.
    pub open spec fn writer_woken(self) -> Self {
        TcpStreamContextInner { write_waker: None, ..self }
    }

    /// The context of a stream that has received nothing.
    pub fn new(local_addr: SocketAddr) -> (ctx: Self)
        ensures
            ctx.wf(),
            ctx.local_addr == local_addr,
            ctx.read_queue@ == Seq::<QueuedPbuf>::empty(),
            ctx.read_waker is None,
            !ctx.read_eof,
            !ctx.errored,
            !ctx.closed,
            ctx.write_waker is None,
            !ctx.pressure_parked,
    {
        TcpStreamContextInner {
            local_addr,
            read_queue: VecDeque::with_capacity(TCP_READ_QUEUE_INITIAL_CAPACITY),
            read_waker: None,
            read_eof: false,
            errored: false,
            closed: false,
            write_waker: None,
            pressure_parked: false,
        }
    }
}

/// The contexts of one stack's open streams, each under the key that its
/// callbacks carry, and the queue of writers parked on shared memory.
#[derive(Debug)]
pub struct TcpContexts<W> {
    pub contexts: HashMap<u64, TcpStreamContextInner<W>>,
    pub parked: VecDeque<u64>,
}

/// The index of the first stream in `queue` whose writer waits to be woken, or
/// the length of the queue where there is none.
pub open spec fn first_waiting<W>(
    contexts: Map<u64, TcpStreamContextInner<W>>,
    queue: Seq<u64>,
) -> nat
    decreases queue.len(),
{
    if queue.len() == 0 || contexts[queue[0]].write_waker is Some {
        0
    } else {
        first_waiting(contexts, queue.skip(1)) + 1
    }
}

/// The contexts after those in `ids` left the queue of parked writers.
pub open spec fn all_unparked<W>(
    contexts: Map<u64, TcpStreamContextInner<W>>,
    ids: Seq<u64>,
) -> Map<u64, TcpStreamContextInner<W>> {
    contexts.map_entries(
        |id: u64, ctx: TcpStreamContextInner<W>|
            if ids.contains(id) {
                ctx.unparked()
            } else {
                ctx
            },
    )
}

/// The contexts after those in `ids` left the queue of parked writers and
/// their writers were woken.
pub open spec fn all_woken<W>(
    contexts: Map<u64, TcpStreamContextInner<W>>,
    ids: Seq<u64>,
) -> Map<u64, TcpStreamContextInner<W>> {
    contexts.map_entries(
        |id: u64, ctx: TcpStreamContextInner<W>|
            if ids.contains(id) {
                ctx.unparked().writer_woken()
            } else {
                ctx
            },
    )
}

/// What one freed unit of shared memory does: the streams up to the first
/// waiting writer leave the queue, and that writer is woken. Where no writer
/// waits, the queue empties and nobody is woken.
pub open spec fn after_unpark_one<W>(
    contexts: Map<u64, TcpStreamContextInner<W>>,
    queue: Seq<u64>,
) -> (Map<u64, TcpStreamContextInner<W>>, Seq<u64>, Option<W>) {
    let k = first_waiting(contexts, queue) as int;
    if k < queue.len() {
        (
            all_unparked(contexts, queue.take(k + 1)).insert(
                queue[k],
                contexts[queue[k]].unparked().writer_woken(),
            ),
            queue.skip(k + 1),
            contexts[queue[k]].write_waker,
        )
    } else {
        (all_unparked(contexts, queue), Seq::empty(), None)
    }
}

/// The wakers of the writers in `queue`, in the order of the queue.
pub open spec fn waiting_wakers<W>(
    contexts: Map<u64, TcpStreamContextInner<W>>,
    queue: Seq<u64>,
) -> Seq<W>
    decreases queue.len(),
{
    if queue.len() == 0 {
        Seq::empty()
    } else {
        (match contexts[queue[0]].write_waker {
            Some(waker) => seq![waker],
            None => Seq::empty(),
        }) + waiting_wakers(contexts, queue.skip(1))
    }
}

impl<W> TcpContexts<W> {
    /// A stream is marked as parked exactly while it stands in the queue, and
    /// it stands there once. Every queued chain is valid.
    pub open spec fn wf(&self) -> bool {
        &&& self.parked@.no_duplicates()
        &&& forall|id: u64| #[trigger]
            self.parked@.contains(id) <==> (self.contexts@.contains_key(id)
                && self.contexts@[id].pressure_parked)
        &&& forall|id: u64| #[trigger]
            self.contexts@.contains_key(id) ==> self.contexts@[id].wf()
    }

    /// No streams.
    pub fn new() -> (table: Self)
        ensures
            table.wf(),
            table.contexts@ == Map::<u64, TcpStreamContextInner<W>>::empty(),
            table.parked@ == Seq::<u64>::empty(),
    {
        TcpContexts { contexts: HashMap::new(), parked: VecDeque::new() }
    }

    /// Adds the context of a new stream under `id`; `false`, and nothing
    /// changed, where that key is taken.
    pub fn register(&mut self, id: u64, local_addr: SocketAddr) -> (added: bool)
        requires
            old(self).wf(),
        ensures
            final(self).wf(),
            added == !old(self).contexts@.contains_key(id),
            final(self).parked@ == old(self).parked@,
            !added ==> final(self).contexts@ == old(self).contexts@,
            added ==> {
                let ctx = final(self).contexts@[id];
                &&& final(self).contexts@ == old(self).contexts@.insert(id, ctx)
                &&& ctx.local_addr == local_addr
                &&& ctx.read_queue@ == Seq::<QueuedPbuf>::empty()
                &&& ctx.read_waker is None && ctx.write_waker is None
                &&& !ctx.read_eof && !ctx.errored && !ctx.closed && !ctx.pressure_parked
            },
    {
        if self.contexts.contains_key(&id) {
            return false;
        }
        let ctx = TcpStreamContextInner::new(local_addr);
        self.contexts.insert(id, ctx);
        true
    }

    /// Parks the writer of a stream whose write met exhausted shared memory.
    /// Its waker has been stored in the context.
    pub fn pressure_park_locked(&mut self, id: u64)
        requires
            old(self).wf(),
            old(self).contexts@.contains_key(id),
        ensures
            final(self).wf(),
            final(self).contexts@ == old(self).contexts@.insert(
                id,
                TcpStreamContextInner { pressure_parked: true, ..old(self).contexts@[id] },
            ),
            final(self).parked@ == if old(self).contexts@[id].pressure_parked {
                old(self).parked@
            } else {
                old(self).parked@.push(id)
            },
    {
        let ghost before = *self;
        let mut ctx = self.contexts.remove(&id).unwrap();
        if !ctx.pressure_parked {
            assert(!self.parked@.contains(id));
            ctx.pressure_parked = true;
            self.parked.push_back(id);
        }
        self.contexts.insert(id, ctx);
        proof {
            assert(self.contexts@ =~= before.contexts@.insert(id, ctx));
            if !before.contexts@[id].pressure_parked {
                let p = before.parked@;
                assert forall|k: u64| #[trigger] self.parked@.contains(k) <==> (
                self.contexts@.contains_key(k) && self.contexts@[k].pressure_parked) by {
                    if self.parked@.contains(k) && k != id {
                        let i = choose|i: int| 0 <= i < p.push(id).len() && p.push(id)[i] == k;
                        assert(p[i] == k);
                        assert(p.contains(k));
                    }
                    if p.contains(k) {
                        let i = choose|i: int| 0 <= i < p.len() && p[i] == k;
                        assert(p.push(id)[i] == k);
                    }
                    if k == id {
                        assert(p.push(id)[p.len() as int] == id);
                    }
                }
            }
        }
    }

    /// Takes a stream out of the queue of parked writers, before its context
    /// goes away or stops being pollable.
    pub fn pressure_remove_locked(&mut self, id: u64)
        requires
            old(self).wf(),
            old(self).contexts@.contains_key(id),
        ensures
            final(self).wf(),
            final(self).contexts@ == old(self).contexts@.insert(
                id,
                old(self).contexts@[id].unparked(),
            ),
            final(self).parked@ == old(self).parked@.remove_value(id),
    {
        let ghost before = *self;
        let mut ctx = self.contexts.remove(&id).unwrap();
        if ctx.pressure_parked {
            ctx.pressure_parked = false;
            let n: usize = self.parked.len();
            let mut i: usize = 0;
            assert(before.parked@.contains(id));
            while self.parked[i] != id
                invariant
                    i < n == self.parked@.len(),
                    self.parked@ == before.parked@,
                    before.parked@.contains(id),
                    forall|k: int| 0 <= k < i ==> #[trigger] before.parked@[k] != id,
                decreases self.parked@.len() - i,
            {
                proof {
                    let at = choose|k: int| 0 <= k < before.parked@.len() && before.parked@[k] == id;
                    assert(at > i);
                }
                i = i + 1;
            }
            self.parked.remove(i);
        }
        self.contexts.insert(id, ctx);
        proof {
            assert(before.parked@.contains(id) <==> before.contexts@[id].pressure_parked);
            before.parked@.index_of_first_ensures(id);
            lemma_remove_value_distinct(before.parked@, id);
            assert(self.contexts@ =~= before.contexts@.insert(id, ctx));
        }
    }

    /// Hands one freed unit of shared memory to the longest-parked writer that
    /// still waits, and returns the waker to fire. Streams ahead of it whose
    /// writer was woken by other means just leave the queue: they are scheduled
    /// anyway and park again if they still cannot proceed.
    pub fn pressure_unpark_one_locked(&mut self) -> (wake: Option<W>)
        requires
            old(self).wf(),
        ensures
            final(self).wf(),
            (final(self).contexts@, final(self).parked@, wake) == after_unpark_one(
                old(self).contexts@,
                old(self).parked@,
            ),
    {
        let ghost start = *self;
        let ghost queue = self.parked@;
        let ghost mut done: int = 0;
        proof {
            assert(queue.skip(0) =~= queue);
            assert(all_unparked(start.contexts@, queue.take(0)) =~= start.contexts@);
        }
        while self.parked.len() > 0
            invariant
                start == *old(self),
                start.wf(),
                self.wf(),
                queue == start.parked@,
                0 <= done <= queue.len(),
                self.parked@ == queue.skip(done),
                self.contexts@ == all_unparked(start.contexts@, queue.take(done)),
                first_waiting(start.contexts@, queue) == done + first_waiting(
                    start.contexts@,
                    queue.skip(done),
                ),
            decreases self.parked@.len(),
        {
            let ghost before = *self;
            let id: u64 = self.parked.pop_front().unwrap();
            proof {
                assert(id == queue[done]);
                assert(before.parked@.contains(id));
                assert(queue.skip(done).skip(1) =~= queue.skip(done + 1));
                assert(queue.take(done + 1) =~= queue.take(done).push(id));
                lemma_distinct_ends(queue, done);
            }
            let mut ctx = self.contexts.remove(&id).unwrap();
            assert(ctx == start.contexts@[id]);
            ctx.pressure_parked = false;
            let wake = ctx.write_waker.take();
            let woken = wake.is_some();
            self.contexts.insert(id, ctx);
            proof {
                let marked = all_unparked(start.contexts@, queue.take(done + 1));
                assert(queue.skip(done)[0] == id);
                if woken {
                    assert(first_waiting(start.contexts@, queue.skip(done)) == 0);
                    assert(wake == start.contexts@[id].write_waker);
                    assert(self.contexts@ =~= marked.insert(
                        id,
                        start.contexts@[id].unparked().writer_woken(),
                    ));
                } else {
                    assert(ctx == start.contexts@[id].unparked());
                    assert(self.contexts@ =~= marked);
                }
                assert forall|k: u64| #[trigger] self.parked@.contains(k) <==> (
                self.contexts@.contains_key(k) && self.contexts@[k].pressure_parked) by {
                    assert(before.parked@.contains(k) <==> k == id || self.parked@.contains(k));
                }
                done = done + 1;
            }
            if woken {
                return wake;
            }
        }
        assert(queue.take(queue.len() as int) =~= queue);
        None
    }

    /// Hands bulk freed memory to every parked writer: empties the queue and
    /// returns the wakers to fire, longest-parked first.
    pub fn pressure_unpark_all_locked(&mut self) -> (wakes: Vec<W>)
        requires
            old(self).wf(),
        ensures
            final(self).wf(),
            wakes@ == waiting_wakers(old(self).contexts@, old(self).parked@),
            final(self).parked@ == Seq::<u64>::empty(),
            final(self).contexts@ == all_woken(old(self).contexts@, old(self).parked@),
    {
        let ghost start = *self;
        let ghost queue = self.parked@;
        let ghost mut done: int = 0;
        let mut wakes: Vec<W> = Vec::new();
        proof {
            assert(queue.skip(0) =~= queue);
            assert(all_woken(start.contexts@, queue.take(0)) =~= start.contexts@);
        }
        while self.parked.len() > 0
            invariant
                start.wf(),
                self.wf(),
                queue == start.parked@,
                0 <= done <= queue.len(),
                self.parked@ == queue.skip(done),
                self.contexts@ == all_woken(start.contexts@, queue.take(done)),
                wakes@ + waiting_wakers(start.contexts@, queue.skip(done)) == waiting_wakers(
                    start.contexts@,
                    queue,
                ),
            decreases self.parked@.len(),
        {
            let ghost before = *self;
            let ghost wakes_before = wakes@;
            let id: u64 = self.parked.pop_front().unwrap();
            proof {
                assert(id == queue[done]);
                assert(before.parked@.contains(id));
                assert(queue.skip(done).skip(1) =~= queue.skip(done + 1));
                assert(queue.take(done + 1) =~= queue.take(done).push(id));
                lemma_distinct_ends(queue, done);
            }
            let mut ctx = self.contexts.remove(&id).unwrap();
            assert(ctx == start.contexts@[id]);
            ctx.pressure_parked = false;
            if let Some(waker) = ctx.write_waker.take() {
                wakes.push(waker);
            }
            self.contexts.insert(id, ctx);
            proof {
                assert(ctx == start.contexts@[id].unparked().writer_woken());
                assert(self.contexts@ =~= all_woken(start.contexts@, queue.take(done + 1)));
                assert forall|k: u64| #[trigger] self.parked@.contains(k) <==> (
                self.contexts@.contains_key(k) && self.contexts@[k].pressure_parked) by {
                    assert(before.parked@.contains(k) <==> k == id || self.parked@.contains(k));
                }
                let rest = waiting_wakers(start.contexts@, queue.skip(done + 1));
                assert(wakes@ + rest =~= wakes_before + waiting_wakers(
                    start.contexts@,
                    queue.skip(done),
                ));
                done = done + 1;
            }
        }
        proof {
            assert(queue.take(queue.len() as int) =~= queue);
            assert(wakes@ =~= wakes@ + waiting_wakers(start.contexts@, queue.skip(done)));
        }
        wakes
    }

    /// How many writers are parked.
    pub fn pressure_queue_len_locked(&self) -> (len: usize)
        ensures
            len == self.parked@.len(),
    {
        self.parked.len()
    }
}

/// In a sequence without repetitions, taking the element at `at` off the rest
/// leaves the rest without it.
proof fn lemma_distinct_ends(s: Seq<u64>, at: int)
    requires
        s.no_duplicates(),
        0 <= at < s.len(),
    ensures
        s.skip(at + 1).no_duplicates(),
        forall|k: u64| #[trigger]
            s.skip(at).contains(k) <==> (k == s[at] || s.skip(at + 1).contains(k)),
        !s.skip(at + 1).contains(s[at]),
        !s.take(at).contains(s[at]),
        forall|k: u64| #[trigger]
            s.take(at + 1).contains(k) <==> (k == s[at] || s.take(at).contains(k)),
{
    assert forall|k: u64| #[trigger] s.skip(at).contains(k) <==> (k == s[at] || s.skip(
        at + 1,
    ).contains(k)) by {
        let rest = s.skip(at);
        let tail = s.skip(at + 1);
        if rest.contains(k) {
            let i = choose|i: int| 0 <= i < rest.len() && rest[i] == k;
            if i > 0 {
                assert(tail[i - 1] == k);
            }
        }
        if tail.contains(k) {
            let i = choose|i: int| 0 <= i < tail.len() && tail[i] == k;
            assert(rest[i + 1] == k);
        }
        assert(rest[0] == s[at]);
    }
    assert forall|k: u64| #[trigger] s.take(at + 1).contains(k) <==> (k == s[at] || s.take(
        at,
    ).contains(k)) by {
        let short = s.take(at);
        let long = s.take(at + 1);
        if long.contains(k) {
            let i = choose|i: int| 0 <= i < long.len() && long[i] == k;
            if i < at {
                assert(short[i] == k);
            }
        }
        if short.contains(k) {
            let i = choose|i: int| 0 <= i < short.len() && short[i] == k;
            assert(long[i] == k);
        }
        assert(long[at] == s[at]);
    }
}

/// Removing a value from a sequence without repetitions leaves the others, in
/// order and without repetitions.
proof fn lemma_remove_value_distinct(s: Seq<u64>, v: u64)
    requires
        s.no_duplicates(),
    ensures
        s.remove_value(v).no_duplicates(),
        !s.remove_value(v).contains(v),
        forall|k: u64| k != v ==> (#[trigger] s.remove_value(v).contains(k) <==> s.contains(k)),
{
    s.index_of_first_ensures(v);
    if s.contains(v) {
        let i = s.index_of_first(v).unwrap();
        let r = s.remove(i);
        assert(s.remove_value(v) =~= r);
        assert forall|k: u64| k != v implies (#[trigger] r.contains(k) <==> s.contains(k)) by {
            if s.contains(k) {
                let j = choose|j: int| 0 <= j < s.len() && s[j] == k;
                if j < i {
                    assert(r[j] == k);
                } else {
                    assert(r[j - 1] == k);
                }
            }
        }
    }
}

/// A freed unit of shared memory is not lost while a parked writer waits: it
/// wakes the longest-parked one that waits, and nobody where none does.
pub proof fn law_freed_memory_reaches_the_longest_parked_writer<W>(
    contexts: Map<u64, TcpStreamContextInner<W>>,
    queue: Seq<u64>,
)
    ensures
        ({
            let (_, queue_after, wake) = after_unpark_one(contexts, queue);
            match wake {
                Some(waker) => exists|k: int|
                    #![trigger queue[k]]
                    {
                        &&& 0 <= k < queue.len()
                        &&& contexts[queue[k]].write_waker == Some(waker)
                        &&& queue_after == queue.skip(k + 1)
                        &&& forall|i: int|
                            0 <= i < k ==> (#[trigger] contexts[queue[i]]).write_waker is None
                    },
                None => forall|i: int|
                    0 <= i < queue.len() ==> (#[trigger] contexts[queue[i]]).write_waker is None,
            }
        }),
{
    lemma_first_waiting(contexts, queue);
    let k = first_waiting(contexts, queue) as int;
    if k < queue.len() {
        assert(contexts[queue[k]].write_waker is Some);
    }
}

/// All before the first waiting stream do not wait, and it does.
pub proof fn lemma_first_waiting<W>(contexts: Map<u64, TcpStreamContextInner<W>>, queue: Seq<u64>)
    ensures
        first_waiting(contexts, queue) <= queue.len(),
        forall|i: int|
            0 <= i < first_waiting(contexts, queue) ==> (
            #[trigger] contexts[queue[i]]).write_waker is None,
        first_waiting(contexts, queue) < queue.len()
            ==> contexts[queue[first_waiting(contexts, queue) as int]].write_waker is Some,
    decreases queue.len(),
{
    if queue.len() > 0 && contexts[queue[0]].write_waker is None {
        let rest = queue.skip(1);
        lemma_first_waiting(contexts, rest);
        assert forall|i: int| 0 <= i < first_waiting(contexts, queue) implies (
        #[trigger] contexts[queue[i]]).write_waker is None by {
            if i > 0 {
                assert(queue[i] == rest[i - 1]);
                assert(contexts[rest[i - 1]].write_waker is None);
            }
        }
        if first_waiting(contexts, queue) < queue.len() {
            assert(queue[first_waiting(contexts, queue) as int] == rest[first_waiting(
                contexts,
                rest,
            ) as int]);
        }
    }
}

} // verus!
