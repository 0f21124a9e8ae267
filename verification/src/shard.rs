//! The independent stacks of the process, one state for each.
//!
//! Every stack is a complete copy: its own lock, connections, pools, timers and
//! output. Nothing is shared between them: it lives here once per stack, and an
//! operation on one stack leaves the others alone.

use vstd::prelude::*;

use crate::counter;
use crate::counter::counter_add;
use crate::packet::PbufLease;
use crate::tcp_accounts;
use crate::tcp_stream_context;
use crate::tcp_stream_context::{TcpContexts, TcpRuntimeStats};

verus! {

/// How many stacks there are.
pub const SHARD_COUNT: usize = 4;

/// How many independent stacks this build can host. Stack 0 is the primary one.
pub fn shard_count() -> (count: usize)
    ensures
        count == SHARD_COUNT,
{
    SHARD_COUNT
}

/// The state of one stack. `W` is the handle by which a waiting task is woken.
#[derive(Debug)]
pub struct ShardState<W> {
    pub id: usize,
    /// Whether the stack has been initialized.
    pub initialized: bool,
    /// Whether output met a full egress queue since the last retry.
    pub egress_backpressured: bool,
    /// The number of the live stack object that output goes to; 0 is none.
    pub output_cb: usize,
    /// Whether outgoing segments carry partial checksums.
    pub tcp_tx_partial_checksum: bool,
    /// The contexts of the open streams, and the parked writers.
    pub tcp: TcpContexts<W>,
    /// The TCP telemetry of this stack.
    pub tcp_stats: TcpRuntimeStats,
    /// Chains that are to be freed when the stack's lock is next held.
    pub pbuf_leases: Vec<usize>,
}

impl<W> ShardState<W> {
    /// The streams of the stack are valid.
    pub open spec fn wf(&self) -> bool {
        self.tcp.wf()
    }

    /// The state of an unused stack.
    pub fn new(id: usize) -> (shard: Self)
        ensures
            shard.wf(),
            shard.id == id,
            !shard.initialized,
            !shard.egress_backpressured,
            shard.output_cb == 0,
            !shard.tcp_tx_partial_checksum,
            shard.tcp.contexts@ == Map::<
                u64,
                tcp_stream_context::TcpStreamContextInner<W>,
            >::empty(),
            shard.tcp.parked@ == Seq::<u64>::empty(),
            shard.tcp_stats == (TcpRuntimeStats {
                active_streams: 0,
                queued_packets: 0,
                queued_bytes: 0,
            }),
            shard.pbuf_leases@ == Seq::<usize>::empty(),
    {
        ShardState {
            id,
            initialized: false,
            egress_backpressured: false,
            output_cb: 0,
            tcp_tx_partial_checksum: false,
            tcp: TcpContexts::new(),
            tcp_stats: TcpRuntimeStats::default(),
            pbuf_leases: Vec::new(),
        }
    }

    /// Returns whether the stack is to be initialized now: the first time only.
    pub fn latch_init(&mut self) -> (first: bool)
        ensures
            first == !old(self).initialized,
            *final(self) == (ShardState { initialized: true, ..*old(self) }),
    {
        let first = !self.initialized;
        self.initialized = true;
        first
    }

    /// Parks a leased chain until the stack's lock is next held.
    pub fn park_pbuf_lease(&mut self, chain: usize)
        ensures
            final(self).pbuf_leases@ == old(self).pbuf_leases@.push(chain),
            *final(self) == (ShardState { pbuf_leases: final(self).pbuf_leases, ..*old(self) }),
    {
        self.pbuf_leases.push(chain);
    }

    /// Takes out all parked chains, in the order in which they were parked, to be
    /// freed while the stack's lock is held.
    pub fn drain_pbuf_leases(&mut self) -> (chains: Vec<usize>)
        ensures
            chains@ == old(self).pbuf_leases@,
            final(self).pbuf_leases@ == Seq::<usize>::empty(),
            *final(self) == (ShardState { pbuf_leases: final(self).pbuf_leases, ..*old(self) }),
    {
        let mut chains: Vec<usize> = Vec::new();
        chains.append(&mut self.pbuf_leases);
        assert(chains@ =~= old(self).pbuf_leases@);
        chains
    }

    /// Selects whether outgoing segments of this stack carry partial checksums.
    pub fn set_tcp_tx_partial_checksum(&mut self, enabled: bool)
        ensures
            *final(self) == (ShardState { tcp_tx_partial_checksum: enabled, ..*old(self) }),
    {
        self.tcp_tx_partial_checksum = enabled;
    }

    /// Notes that output met a full egress queue.
    pub fn mark_egress_backpressured(&mut self)
        ensures
            *final(self) == (ShardState { egress_backpressured: true, ..*old(self) }),
    {
        self.egress_backpressured = true;
    }

    /// Whether deferred output is to be retried: clears the note that output met a
    /// full egress queue, and returns whether it was there.
    pub fn take_backpressure(&mut self) -> (retry: bool)
        ensures
            retry == old(self).egress_backpressured,
            *final(self) == (ShardState { egress_backpressured: false, ..*old(self) }),
    {
        let retry = self.egress_backpressured;
        self.egress_backpressured = false;
        retry
    }

    /// Whether a retry that the stack answered with `code` failed for another
    /// reason than a full egress queue.
    pub fn retry_failed(&self, code: i8) -> (failed: bool)
        ensures
            failed == (code != crate::err::ERR_OK && !self.egress_backpressured),
    {
        code != crate::err::ERR_OK && !self.egress_backpressured
    }

    /// Directs the output of the stack to the stack object `stack`.
    pub fn set_output_hook(&mut self, stack: usize)
        ensures
            *final(self) == (ShardState { output_cb: stack, ..*old(self) }),
    {
        self.output_cb = stack;
    }

    /// Undirects the output of the stack from `stack`, unless a successor has
    /// taken it over.
    pub fn clear_output_hook(&mut self, stack: usize)
        ensures
            *final(self) == (ShardState {
                output_cb: if old(self).output_cb == stack {
                    0
                } else {
                    old(self).output_cb
                },
                ..*old(self)
            }),
    {
        if self.output_cb == stack {
            self.output_cb = 0;
        }
    }
}

/// What a tick of a stack's timers calls for: parked chains to free, and then
/// writers to wake.
#[derive(Debug)]
pub struct TimerTick<W> {
    pub freed: Vec<usize>,
    pub wakes: Vec<W>,
}

impl<W> ShardState<W> {
    /// Follows up a tick of the stack's timers, while its lock is still held. Timers
    /// free memory in bulk and report none of it, so every parked writer is woken.
    pub fn timer_tick(&mut self) -> (tick: TimerTick<W>)
        requires
            old(self).wf(),
        ensures
            final(self).wf(),
            tick.freed@ == old(self).pbuf_leases@,
            tick.wakes@ == tcp_stream_context::waiting_wakers(
                old(self).tcp.contexts@,
                old(self).tcp.parked@,
            ),
            final(self).pbuf_leases@ == Seq::<usize>::empty(),
            final(self).tcp.parked@ == Seq::<u64>::empty(),
            final(self).tcp.contexts@ == tcp_stream_context::all_woken(
                old(self).tcp.contexts@,
                old(self).tcp.parked@,
            ),
            *final(self) == (ShardState {
                pbuf_leases: final(self).pbuf_leases,
                tcp: final(self).tcp,
                ..*old(self)
            }),
            tcp_accounts::leaves_books(old(self).tcp, final(self).tcp),
    {
        let freed = self.drain_pbuf_leases();
        let wakes = self.tcp.pressure_unpark_all_locked();
        proof {
            tcp_accounts::law_what_leaves_the_queues_alone_keeps_the_books(
                old(self).tcp,
                self.tcp,
            );
        }
        TimerTick { freed, wakes }
    }
}

/// All stacks.
#[derive(Debug)]
pub struct Shards<W> {
    pub shards: Vec<ShardState<W>>,
}

/// The TCP telemetry of the first `n` stacks together.
pub open spec fn tcp_totals<W>(shards: Seq<ShardState<W>>, n: int) -> TcpRuntimeStats
    decreases n,
{
    if n <= 0 {
        TcpRuntimeStats { active_streams: 0, queued_packets: 0, queued_bytes: 0 }
    } else {
        let rest = tcp_totals(shards, n - 1);
        let own = shards[n - 1].tcp_stats;
        rest.shifted(own.queued_packets as int, own.queued_bytes as int).with_streams(
            own.active_streams as int,
        )
    }
}

impl<W> Shards<W> {
    /// There is a valid state for each stack, under its own number.
    pub open spec fn wf(&self) -> bool {
        &&& self.shards@.len() == SHARD_COUNT
        &&& forall|i: int|
            0 <= i < SHARD_COUNT ==> (#[trigger] self.shards@[i]).id == i && self.shards@[i].wf()
    }

    /// Unused stacks.
    pub fn new() -> (all: Self)
        ensures
            all.wf(),
            forall|i: int|
                0 <= i < SHARD_COUNT ==> {
                    let shard = #[trigger] all.shards@[i];
                    &&& !shard.initialized && !shard.egress_backpressured
                    &&& !shard.tcp_tx_partial_checksum
                    &&& shard.output_cb == 0
                    &&& shard.pbuf_leases@ == Seq::<usize>::empty()
                    &&& shard.tcp.contexts@ == Map::<
                        u64,
                        tcp_stream_context::TcpStreamContextInner<W>,
                    >::empty()
                    &&& shard.tcp.parked@ == Seq::<u64>::empty()
                    &&& shard.tcp_stats == (TcpRuntimeStats {
                        active_streams: 0,
                        queued_packets: 0,
                        queued_bytes: 0,
                    })
                },
    {
        let mut shards: Vec<ShardState<W>> = Vec::new();
        let mut i: usize = 0;
        while i < SHARD_COUNT
            invariant
                i <= SHARD_COUNT,
                shards@.len() == i,
                forall|k: int|
                    0 <= k < i ==> {
                        let shard = #[trigger] shards@[k];
                        &&& shard.wf()
                        &&& shard.id == k
                        &&& !shard.initialized && !shard.egress_backpressured
                        &&& !shard.tcp_tx_partial_checksum
                        &&& shard.output_cb == 0
                        &&& shard.pbuf_leases@ == Seq::<usize>::empty()
                        &&& shard.tcp.contexts@ == Map::<
                            u64,
                            tcp_stream_context::TcpStreamContextInner<W>,
                        >::empty()
                        &&& shard.tcp.parked@ == Seq::<u64>::empty()
                        &&& shard.tcp_stats == (TcpRuntimeStats {
                            active_streams: 0,
                            queued_packets: 0,
                            queued_bytes: 0,
                        })
                    },
            decreases SHARD_COUNT - i,
        {
            shards.push(ShardState::new(i));
            i = i + 1;
        }
        Shards { shards }
    }

    /// The primary stack.
    pub fn primary(&self) -> (shard: &ShardState<W>)
        requires
            self.wf(),
        ensures
            *shard == self.shards@[0],
    {
        &self.shards[0]
    }

    /// The stack with the number `id`, if there is one.
    pub fn get(&self, id: usize) -> (shard: Option<&ShardState<W>>)
        requires
            self.wf(),
        ensures
            shard is Some == (id < SHARD_COUNT),
            shard matches Some(shard) ==> *shard == self.shards@[id as int],
    {
        if id < self.shards.len() {
            Some(&self.shards[id])
        } else {
            None
        }
    }

    /// The stack with the number `id`, for a change of it alone.
    pub fn get_mut(&mut self, id: usize) -> (shard: Option<&mut ShardState<W>>)
        requires
            old(self).wf(),
        ensures
            shard is Some == (id < SHARD_COUNT),
            match shard {
                Some(shard) => {
                    &&& *shard == old(self).shards@[id as int]
                    &&& final(self).shards@ == old(self).shards@.update(id as int, *final(shard))
                },
                None => *final(self) == *old(self),
            },
    {
        if id < self.shards.len() {
            Some(&mut self.shards[id])
        } else {
            None
        }
    }

    /// Parks a leased chain at the stack that it belongs to. `false`, and nothing
    /// changed, where there is no such stack.
    pub fn park_lease(&mut self, lease: PbufLease) -> (parked: bool)
        requires
            old(self).wf(),
        ensures
            final(self).wf(),
            parked == (lease.shard_id < SHARD_COUNT),
            !parked ==> *final(self) == *old(self),
            parked ==> {
                let id = lease.shard_id as int;
                let after = final(self).shards@[id];
                &&& final(self).shards@ == old(self).shards@.update(id, after)
                &&& after.pbuf_leases@ == old(self).shards@[id].pbuf_leases@.push(lease.chain)
                &&& after == (ShardState {
                    pbuf_leases: after.pbuf_leases,
                    ..old(self).shards@[id]
                })
            },
    {
        match self.get_mut(lease.shard_id) {
            Some(shard) => {
                shard.park_pbuf_lease(lease.chain);
                true
            },
            None => false,
        }
    }
}

/// The TCP telemetry of all stacks together.
pub fn tcp_runtime_stats<W>(shards: &Shards<W>) -> (stats: TcpRuntimeStats)
    requires
        shards.wf(),
    ensures
        stats == tcp_totals(shards.shards@, SHARD_COUNT as int),
{
    let mut stats = TcpRuntimeStats::default();
    let mut i: usize = 0;
    while i < SHARD_COUNT
        invariant
            i <= SHARD_COUNT,
            shards.wf(),
            stats == tcp_totals(shards.shards@, i as int),
        decreases SHARD_COUNT - i,
    {
        let own = shards.shards[i].tcp_stats;
        proof {
            counter::lemma_wrapped_shift(stats.active_streams + own.active_streams, 0);
            counter::lemma_wrapped_shift(stats.queued_packets + own.queued_packets, 0);
            counter::lemma_wrapped_shift(stats.queued_bytes + own.queued_bytes, 0);
        }
        counter_add(&mut stats.active_streams, own.active_streams);
        counter_add(&mut stats.queued_packets, own.queued_packets);
        counter_add(&mut stats.queued_bytes, own.queued_bytes);
        i = i + 1;
    }
    stats
}

/// Stacks share no state: a change of one leaves every other as it is.
pub proof fn law_stacks_are_independent<W>(
    before: Shards<W>,
    id: int,
    changed: ShardState<W>,
    after: Shards<W>,
)
    requires
        before.wf(),
        0 <= id < SHARD_COUNT,
        after.shards@ == before.shards@.update(id, changed),
    ensures
        forall|other: int|
            0 <= other < SHARD_COUNT && other != id ==> #[trigger] after.shards@[other]
                == before.shards@[other],
        changed.wf() && changed.id == id ==> after.wf(),
{
}

/// A stack object that is torn down does not sever the output of a successor
/// that has taken the stack over, whatever the two are numbered.
pub proof fn law_a_successor_keeps_its_output<W>(
    before: ShardState<W>,
    predecessor: usize,
    successor: usize,
    taken_over: ShardState<W>,
    after: ShardState<W>,
)
    requires
        predecessor != successor,
        taken_over == (ShardState { output_cb: successor, ..before }),
        after == (ShardState {
            output_cb: if taken_over.output_cb == predecessor {
                0
            } else {
                taken_over.output_cb
            },
            ..taken_over
        }),
    ensures
        after.output_cb == successor,
        after == taken_over,
{
}

} // verus!
