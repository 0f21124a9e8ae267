//! Who is woken when shared segment memory is freed.

use vstd::prelude::*;

use crate::shard::{ShardState, TimerTick};
use crate::tcp_stream_context;
use crate::tcp_stream_context::{TcpContexts, TcpRuntimeStats, TcpStreamContextInner};
use crate::tcp_stream_impl::{
    tcp_err_cb, tcp_poll_cb, tcp_sent_cb, ErrCallback, SentCallback, TcpStreamImpl, Teardown,
};

verus! {

/// Bulk freed memory wakes every parked writer that waits, the longest-parked first, and
/// each once: no stored waker is cleared without being returned. The queue is empty then,
/// and nothing else of any stream has changed.
pub proof fn law_bulk_freed_memory_wakes_every_waiting_writer<W>(
    table: &mut TcpContexts<W>,
    wakes: Vec<W>,
)
    requires
        call_ensures(TcpContexts::<W>::pressure_unpark_all_locked, (table,), wakes),
    ensures
        final(table).parked@ == Seq::<u64>::empty(),
        wakes@ == old(table).parked@.filter_map(
            |id: u64| old(table).contexts@[id].write_waker,
        ),
        wakes@.len() == old(table).parked@.filter(
            |id: u64| old(table).contexts@[id].write_waker is Some,
        ).len(),
        forall|i: int, waker: W|
            0 <= i < old(table).parked@.len() && (#[trigger] old(table).contexts@[old(
                table,
            ).parked@[i]]).write_waker == Some(waker) ==> #[trigger] wakes@.contains(waker),
        forall|id: u64, waker: W|
            old(table).contexts@.contains_key(id) && (#[trigger] old(
                table,
            ).contexts@[id]).write_waker == Some(waker)
                && final(table).contexts@[id].write_waker is None
                ==> #[trigger] wakes@.contains(waker),
        final(table).contexts@.dom() == old(table).contexts@.dom(),
        forall|id: u64| #[trigger]
            old(table).contexts@.contains_key(id) ==> final(table).contexts@[id] == if old(
                table,
            ).parked@.contains(id) {
                TcpStreamContextInner {
                    write_waker: None,
                    pressure_parked: false,
                    ..old(table).contexts@[id]
                }
            } else {
                old(table).contexts@[id]
            },
{
    let contexts = old(table).contexts@;
    let queue = old(table).parked@;
    let stored = |id: u64| contexts[id].write_waker;
    let waits = |id: u64| contexts[id].write_waker is Some;
    lemma_waiting_wakers(contexts, queue, stored, waits);
    assert(final(table).contexts@.dom() =~= contexts.dom());
    assert forall|id: u64, waker: W|
        contexts.contains_key(id) && (#[trigger] contexts[id]).write_waker == Some(waker)
            && final(table).contexts@[id].write_waker is None implies #[trigger] wakes@.contains(
        waker,
    ) by {
        assert(queue.contains(id));
        let i = choose|i: int| 0 <= i < queue.len() && queue[i] == id;
        assert(contexts[queue[i]].write_waker == Some(waker));
    }
    assert(stored =~= |id: u64| old(table).contexts@[id].write_waker);
    assert(waits =~= |id: u64| old(table).contexts@[id].write_waker is Some);
}

/// Whether waking all of `queue` leads from `contexts` to `contexts_after` and returns
/// `wakes`: each waker that is stored, in the order of the queue, and it is stored no
/// longer. Streams that are not in the queue stay as they are.
pub open spec fn wakes_all<W>(
    contexts: Map<u64, TcpStreamContextInner<W>>,
    queue: Seq<u64>,
    wakes: Seq<W>,
    contexts_after: Map<u64, TcpStreamContextInner<W>>,
) -> bool {
    &&& wakes == queue.filter_map(|id: u64| contexts[id].write_waker)
    &&& contexts_after.dom() == contexts.dom()
    &&& forall|id: u64| #[trigger]
        contexts.contains_key(id) ==> contexts_after[id] == if queue.contains(id) {
            TcpStreamContextInner { write_waker: None, pressure_parked: false, ..contexts[id] }
        } else {
            contexts[id]
        }
}

/// Whether one unit of memory that is handed to `queue` leads from `contexts` to
/// `contexts_after`, leaves `queue_after`, and returns `wake`: the first writer that waits
/// is woken, and it and those before it leave the queue. Where none waits nobody is woken,
/// and the queue empties.
pub open spec fn wakes_one<W>(
    contexts: Map<u64, TcpStreamContextInner<W>>,
    queue: Seq<u64>,
    wake: Option<W>,
    contexts_after: Map<u64, TcpStreamContextInner<W>>,
    queue_after: Seq<u64>,
) -> bool {
    &&& contexts_after.dom() == contexts.dom()
    &&& match wake {
        Some(waker) => exists|k: int|
            #![trigger queue[k]]
            {
                &&& 0 <= k < queue.len()
                &&& contexts[queue[k]].write_waker == Some(waker)
                &&& forall|i: int|
                    0 <= i < k ==> (#[trigger] contexts[queue[i]]).write_waker is None
                &&& queue_after == queue.skip(k + 1)
                &&& forall|id: u64| #[trigger]
                    contexts.contains_key(id) ==> contexts_after[id] == if id == queue[k] {
                        TcpStreamContextInner {
                            write_waker: None,
                            pressure_parked: false,
                            ..contexts[id]
                        }
                    } else if queue.take(k).contains(id) {
                        TcpStreamContextInner { pressure_parked: false, ..contexts[id] }
                    } else {
                        contexts[id]
                    }
            },
        None => {
            &&& forall|i: int|
                0 <= i < queue.len() ==> (#[trigger] contexts[queue[i]]).write_waker is None
            &&& queue_after == Seq::<u64>::empty()
            &&& forall|id: u64| #[trigger]
                contexts.contains_key(id) ==> contexts_after[id] == if queue.contains(id) {
                    TcpStreamContextInner { pressure_parked: false, ..contexts[id] }
                } else {
                    contexts[id]
                }
        },
    }
}

/// A freed unit of memory goes to the longest-parked writer that waits, and to no other. It
/// is not lost while one waits.
pub proof fn law_a_freed_unit_wakes_the_longest_parked_waiting_writer<W>(
    table: &mut TcpContexts<W>,
    wake: Option<W>,
)
    requires
        old(table).wf(),
        call_ensures(TcpContexts::<W>::pressure_unpark_one_locked, (table,), wake),
    ensures
        wakes_one(
            old(table).contexts@,
            old(table).parked@,
            wake,
            final(table).contexts@,
            final(table).parked@,
        ),
{
    assert forall|i: int| 0 <= i < old(table).parked@.len() implies old(
        table,
    ).contexts@.contains_key(#[trigger] old(table).parked@[i]) by {
        assert(old(table).parked@.contains(old(table).parked@[i]));
    }
    lemma_wakes_one(
        old(table).contexts@,
        old(table).parked@,
        wake,
        final(table).contexts@,
        final(table).parked@,
    );
}

/// A writer that parks stands in the queue from then on, behind all that did before, and
/// once however often it parks.
pub proof fn law_a_writer_parks_once_behind_the_others<W>(table: &mut TcpContexts<W>, id: u64)
    requires
        old(table).wf(),
        old(table).contexts@.contains_key(id),
        call_ensures(TcpContexts::<W>::pressure_park_locked, (table, id), ()),
    ensures
        final(table).parked@.to_multiset().count(id) == 1,
        old(table).parked@.is_prefix_of(final(table).parked@),
        old(table).parked@.contains(id) ==> final(table).parked@ == old(table).parked@,
        !old(table).parked@.contains(id) ==> final(table).parked@ == old(table).parked@ + seq![id],
        final(table).contexts@ == old(table).contexts@.insert(
            id,
            TcpStreamContextInner { pressure_parked: true, ..old(table).contexts@[id] },
        ),
{
    let before = old(table).parked@;
    let after = final(table).parked@;
    assert(before.push(id) =~= before + seq![id]);
    assert(after.contains(id)) by {
        if !before.contains(id) {
            assert(after[before.len() as int] == id);
        }
    }
    after.lemma_multiset_has_no_duplicates();
    broadcast use vstd::seq_lib::group_to_multiset_ensures;
    assert(after.contains(id) <==> after.to_multiset().count(id) > 0);
}

/// A writer that is taken out of the queue is not in it, and the others keep their places.
/// Nothing else of it changes, and nothing of any other.
pub proof fn law_a_removed_writer_leaves_the_others_in_place<W>(
    table: &mut TcpContexts<W>,
    id: u64,
)
    requires
        old(table).wf(),
        old(table).contexts@.contains_key(id),
        call_ensures(TcpContexts::<W>::pressure_remove_locked, (table, id), ()),
    ensures
        final(table).parked@ == old(table).parked@.filter(|other: u64| other != id),
        final(table).contexts@ == old(table).contexts@.insert(
            id,
            TcpStreamContextInner { pressure_parked: false, ..old(table).contexts@[id] },
        ),
{
    let others = |other: u64| other != id;
    lemma_remove_value_is_filter(old(table).parked@, id, others);
}

/// A poll of an idle connection wakes its writer, if it waits, and touches nothing else.
pub proof fn law_a_poll_wakes_the_writer<W>(table: &mut TcpContexts<W>, id: u64, wake: Option<W>)
    requires
        call_ensures(tcp_poll_cb::<W>, (table, id), wake),
    ensures
        wake == old(table).contexts@[id].write_waker,
        final(table).contexts@ == old(table).contexts@.insert(
            id,
            TcpStreamContextInner { write_waker: None, ..old(table).contexts@[id] },
        ),
        final(table).parked@ == old(table).parked@,
{
}

/// An acknowledgement wakes the writer of its connection, and hands one unit of memory to
/// the parked writers. The connection's own writer, which is awake then, does not get it.
pub proof fn law_an_acknowledgement_wakes_its_writer_and_one_parked<W>(
    table: &mut TcpContexts<W>,
    id: u64,
    answer: SentCallback<W>,
)
    requires
        old(table).wf(),
        old(table).contexts@.contains_key(id),
        call_ensures(tcp_sent_cb::<W>, (table, id), answer),
    ensures
        answer.code == 0,
        answer.wake == old(table).contexts@[id].write_waker,
        wakes_one(
            old(table).contexts@.insert(
                id,
                TcpStreamContextInner { write_waker: None, ..old(table).contexts@[id] },
            ),
            old(table).parked@,
            answer.wake_parked,
            final(table).contexts@,
            final(table).parked@,
        ),
{
    let contexts = old(table).contexts@.insert(
        id,
        TcpStreamContextInner { write_waker: None, ..old(table).contexts@[id] },
    );
    assert forall|i: int| 0 <= i < old(table).parked@.len() implies contexts.contains_key(
        #[trigger] old(table).parked@[i],
    ) by {
        assert(old(table).parked@.contains(old(table).parked@[i]));
    }
    lemma_wakes_one(
        contexts,
        old(table).parked@,
        answer.wake_parked,
        final(table).contexts@,
        final(table).parked@,
    );
}

/// A fatal error wakes reader and writer of the failed connection, and every other parked
/// writer that waits. Only the failed connection is marked, and keeps what it received.
pub proof fn law_a_fatal_error_wakes_everyone_who_waits<W>(
    table: &mut TcpContexts<W>,
    id: u64,
    answer: ErrCallback<W>,
)
    requires
        old(table).wf(),
        old(table).contexts@.contains_key(id),
        call_ensures(tcp_err_cb::<W>, (table, id), answer),
    ensures
        ({
            let contexts = old(table).contexts@;
            let others = old(table).parked@.filter(|other: u64| other != id);
            &&& answer.wake_read == contexts[id].read_waker
            &&& answer.wake_write == contexts[id].write_waker
            &&& final(table).parked@ == Seq::<u64>::empty()
            &&& wakes_all(
                contexts.remove(id),
                others,
                answer.wake_parked@,
                final(table).contexts@.remove(id),
            )
            &&& final(table).contexts@.contains_key(id)
            &&& final(table).contexts@[id] == (TcpStreamContextInner {
                errored: true,
                pressure_parked: false,
                read_waker: None,
                write_waker: None,
                ..contexts[id]
            })
        }),
{
    let contexts = old(table).contexts@;
    let apart = |other: u64| other != id;
    lemma_remove_value_is_filter(old(table).parked@, id, apart);
    let others = old(table).parked@.filter(apart);
    lemma_filter_keeps(old(table).parked@, apart);
    let rest = contexts.remove(id);
    let failed = contexts.insert(
        id,
        TcpStreamContextInner {
            errored: true,
            pressure_parked: false,
            read_waker: None,
            write_waker: None,
            ..contexts[id]
        },
    );
    assert(!others.contains(id));
    let stored = |other: u64| failed[other].write_waker;
    let waits = |other: u64| failed[other].write_waker is Some;
    lemma_waiting_wakers(failed, others, stored, waits);
    let stored_rest = |other: u64| rest[other].write_waker;
    assert forall|i: int| 0 <= i < others.len() implies stored(#[trigger] others[i])
        == stored_rest(others[i]) by {
        assert(others.contains(others[i]));
        assert(old(table).parked@.contains(others[i]));
    }
    lemma_filter_map_agrees(others, stored, stored_rest);
    assert(final(table).contexts@.remove(id).dom() =~= rest.dom());
}

/// A teardown wakes every other parked writer that waits, and the stream's context is gone.
pub proof fn law_a_teardown_wakes_every_other_waiting_writer<W>(
    stream: TcpStreamImpl,
    table: &mut TcpContexts<W>,
    stats: &mut TcpRuntimeStats,
    answer: Teardown<W>,
)
    requires
        stream.wf(*old(table)),
        call_ensures(TcpStreamImpl::teardown::<W>, (stream, table, stats), answer),
    ensures
        ({
            let others = old(table).parked@.filter(|other: u64| other != stream.ctx);
            &&& final(table).parked@ == Seq::<u64>::empty()
            &&& wakes_all(
                old(table).contexts@.remove(stream.ctx),
                others,
                answer.wakes@,
                final(table).contexts@,
            )
        }),
{
    let id = stream.ctx;
    let rest = old(table).contexts@.remove(id);
    let apart = |other: u64| other != id;
    lemma_remove_value_is_filter(old(table).parked@, id, apart);
    let others = old(table).parked@.filter(apart);
    let stored = |other: u64| rest[other].write_waker;
    let waits = |other: u64| rest[other].write_waker is Some;
    lemma_waiting_wakers(rest, others, stored, waits);
    assert(apart =~= |other: u64| other != stream.ctx);
    assert(final(table).contexts@.dom() =~= rest.dom());
}

/// A tick of the timers wakes every parked writer that waits, and hands out every parked
/// chain, in the order in which they were parked.
pub proof fn law_a_tick_wakes_every_waiting_writer<W>(
    shard: &mut ShardState<W>,
    tick: TimerTick<W>,
)
    requires
        call_ensures(ShardState::<W>::timer_tick, (shard,), tick),
    ensures
        tick.freed@ == old(shard).pbuf_leases@,
        final(shard).pbuf_leases@ == Seq::<usize>::empty(),
        final(shard).tcp.parked@ == Seq::<u64>::empty(),
        wakes_all(
            old(shard).tcp.contexts@,
            old(shard).tcp.parked@,
            tick.wakes@,
            final(shard).tcp.contexts@,
        ),
        *final(shard) == (ShardState {
            pbuf_leases: final(shard).pbuf_leases,
            tcp: final(shard).tcp,
            ..*old(shard)
        }),
{
    let contexts = old(shard).tcp.contexts@;
    let queue = old(shard).tcp.parked@;
    let stored = |id: u64| contexts[id].write_waker;
    let waits = |id: u64| contexts[id].write_waker is Some;
    lemma_waiting_wakers(contexts, queue, stored, waits);
    assert(final(shard).tcp.contexts@.dom() =~= contexts.dom());
}

/// What one freed unit does is as stated, element by element.
proof fn lemma_wakes_one<W>(
    contexts: Map<u64, TcpStreamContextInner<W>>,
    queue: Seq<u64>,
    wake: Option<W>,
    contexts_after: Map<u64, TcpStreamContextInner<W>>,
    queue_after: Seq<u64>,
)
    requires
        (contexts_after, queue_after, wake) == tcp_stream_context::after_unpark_one(
            contexts,
            queue,
        ),
        queue.no_duplicates(),
        forall|i: int| 0 <= i < queue.len() ==> contexts.contains_key(#[trigger] queue[i]),
    ensures
        wakes_one(contexts, queue, wake, contexts_after, queue_after),
{
    tcp_stream_context::law_freed_memory_reaches_the_longest_parked_writer(contexts, queue);
    let k = tcp_stream_context::first_waiting(contexts, queue) as int;
    tcp_stream_context::lemma_first_waiting(contexts, queue);
    if k < queue.len() {
        assert(contexts.contains_key(queue[k]));
        let taken = queue.take(k + 1);
        assert forall|id: u64| #[trigger] taken.contains(id) <==> id == queue[k] || queue.take(
            k,
        ).contains(id) by {
            if taken.contains(id) {
                let i = choose|i: int| 0 <= i < taken.len() && taken[i] == id;
                if i < k {
                    assert(queue.take(k)[i] == id);
                }
            }
            if queue.take(k).contains(id) {
                let i = choose|i: int| 0 <= i < k && queue.take(k)[i] == id;
                assert(taken[i] == id);
            }
            assert(taken[k] == queue[k]);
        }
        assert(contexts_after.dom() =~= contexts.dom());
        assert(wake == contexts[queue[k]].write_waker);
    } else {
        assert(contexts_after.dom() =~= contexts.dom());
    }
}

/// Taking a value out of a sequence without repetitions leaves what is not that value.
proof fn lemma_remove_value_is_filter(s: Seq<u64>, v: u64, apart: spec_fn(u64) -> bool)
    requires
        s.no_duplicates(),
        forall|k: u64| #[trigger] apart(k) == (k != v),
    ensures
        s.remove_value(v) == s.filter(apart),
        !s.filter(apart).contains(v),
{
    s.index_of_first_ensures(v);
    if s.contains(v) {
        let i = s.index_of_first(v).unwrap();
        let head = s.take(i);
        let tail = s.skip(i + 1);
        assert(s.remove(i) =~= head + tail);
        assert(s =~= head + (seq![v] + tail));
        Seq::filter_distributes_over_add(head, seq![v] + tail, apart);
        Seq::filter_distributes_over_add(seq![v], tail, apart);
        assert(seq![v].filter(apart) =~= Seq::empty()) by {
            reveal(Seq::filter);
            assert(seq![v].drop_last() =~= Seq::empty());
            reveal_with_fuel(Seq::filter, 2);
        }
        lemma_filter_all(head, apart);
        lemma_filter_all(tail, apart);
        assert(s.filter(apart) =~= head + tail);
    } else {
        lemma_filter_all(s, apart);
    }
    lemma_filter_keeps(s, apart);
}

/// A filter that everything passes keeps everything.
proof fn lemma_filter_all(s: Seq<u64>, keep: spec_fn(u64) -> bool)
    requires
        forall|i: int| 0 <= i < s.len() ==> keep(#[trigger] s[i]),
    ensures
        s.filter(keep) == s,
    decreases s.len(),
{
    reveal(Seq::filter);
    if s.len() > 0 {
        lemma_filter_all(s.drop_last(), keep);
        assert(keep(s[s.len() - 1]));
        assert(s.drop_last().push(s.last()) =~= s);
    }
}

/// What is left by a filter passes it, and was there.
proof fn lemma_filter_keeps(s: Seq<u64>, keep: spec_fn(u64) -> bool)
    ensures
        forall|k: u64| #[trigger] s.filter(keep).contains(k) ==> keep(k) && s.contains(k),
    decreases s.len(),
{
    reveal(Seq::filter);
    if s.len() > 0 {
        let shorter = s.drop_last();
        lemma_filter_keeps(shorter, keep);
        assert forall|k: u64| #[trigger] s.filter(keep).contains(k) implies keep(k)
            && s.contains(k) by {
            let i = choose|i: int| 0 <= i < s.filter(keep).len() && s.filter(keep)[i] == k;
            if i < shorter.filter(keep).len() {
                assert(shorter.filter(keep)[i] == k);
                assert(shorter.filter(keep).contains(k));
                let j = choose|j: int| 0 <= j < shorter.len() && shorter[j] == k;
                assert(s[j] == k);
            } else {
                assert(s[s.len() - 1] == k);
            }
        }
    }
}

/// What is picked depends on the picks of the elements alone.
proof fn lemma_filter_map_agrees<W>(
    s: Seq<u64>,
    f: spec_fn(u64) -> Option<W>,
    g: spec_fn(u64) -> Option<W>,
)
    requires
        forall|i: int| 0 <= i < s.len() ==> f(#[trigger] s[i]) == g(s[i]),
    ensures
        s.filter_map(f) == s.filter_map(g),
    decreases s.len(),
{
    reveal(Seq::filter_map);
    if s.len() > 0 {
        lemma_filter_map_agrees(s.drop_last(), f, g);
        assert(f(s[s.len() - 1]) == g(s[s.len() - 1]));
    }
}

/// The wakers of a queue are those that are stored, in order.
proof fn lemma_waiting_wakers<W>(
    contexts: Map<u64, TcpStreamContextInner<W>>,
    queue: Seq<u64>,
    stored: spec_fn(u64) -> Option<W>,
    waits: spec_fn(u64) -> bool,
)
    requires
        forall|id: u64| #[trigger] stored(id) == contexts[id].write_waker,
        forall|id: u64| #[trigger] waits(id) == (contexts[id].write_waker is Some),
    ensures
        tcp_stream_context::waiting_wakers(contexts, queue) == queue.filter_map(stored),
        queue.filter_map(stored).len() == queue.filter(waits).len(),
        forall|i: int, waker: W|
            0 <= i < queue.len() && (#[trigger] contexts[queue[i]]).write_waker == Some(waker)
                ==> #[trigger] queue.filter_map(stored).contains(waker),
    decreases queue.len(),
{
    reveal(Seq::filter);
    reveal(Seq::filter_map);
    if queue.len() > 0 {
        let shorter = queue.drop_last();
        let id = queue.last();
        lemma_waiting_wakers(contexts, shorter, stored, waits);
        lemma_waiting_wakers_push(contexts, shorter, id);
        assert(queue =~= shorter.push(id));
        let all = queue.filter_map(stored);
        let some = shorter.filter_map(stored);
        assert forall|i: int, waker: W|
            0 <= i < queue.len() && (#[trigger] contexts[queue[i]]).write_waker == Some(
                waker,
            ) implies #[trigger] all.contains(waker) by {
            if i == shorter.len() {
                assert(stored(id) == Some(waker));
                assert(all[some.len() as int] == waker);
            } else {
                assert(shorter[i] == queue[i]);
                assert(contexts[shorter[i]].write_waker == Some(waker));
                assert(some.contains(waker));
                let k = choose|k: int| 0 <= k < some.len() && some[k] == waker;
                assert(all[k] == waker);
            }
        }
    } else {
        assert(tcp_stream_context::waiting_wakers(contexts, queue) =~= queue.filter_map(stored));
    }
}

/// One more stream at the end of a queue adds its waker at the end, if it has one.
proof fn lemma_waiting_wakers_push<W>(
    contexts: Map<u64, TcpStreamContextInner<W>>,
    queue: Seq<u64>,
    id: u64,
)
    ensures
        tcp_stream_context::waiting_wakers(contexts, queue.push(id))
            == tcp_stream_context::waiting_wakers(contexts, queue) + match contexts[id].write_waker {
            Some(waker) => seq![waker],
            None => Seq::empty(),
        },
    decreases queue.len(),
{
    reveal_with_fuel(tcp_stream_context::waiting_wakers, 2);
    let longer = queue.push(id);
    if queue.len() == 0 {
        assert(longer.skip(1) =~= Seq::empty());
        assert(tcp_stream_context::waiting_wakers(contexts, longer) =~= match contexts[id].write_waker {
            Some(waker) => seq![waker],
            None => Seq::empty(),
        });
    } else {
        lemma_waiting_wakers_push(contexts, queue.skip(1), id);
        assert(longer.skip(1) =~= queue.skip(1).push(id));
        assert(tcp_stream_context::waiting_wakers(contexts, longer)
            =~= tcp_stream_context::waiting_wakers(contexts, queue) + match contexts[id].write_waker {
            Some(waker) => seq![waker],
            None => Seq::empty(),
        });
    }
}

} // verus!
