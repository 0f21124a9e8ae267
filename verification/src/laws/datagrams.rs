//! How a socket takes datagrams in, and hands them out.

use tokio::sync::mpsc::WeakSender;
use vstd::prelude::*;

use crate::addr::SocketAddr;
use crate::channel;
use crate::channel::{RecvOutcome, SendAnswer, SendOutcome, UdpPkt};
use crate::error::Error;
use crate::io::{ErrorKind, IoError, Poll};
use crate::laws::pools;
use crate::packet::{queue_contents, queue_limit, IpPacket, PacketPools};
use crate::udp;
use crate::udp::{
    enqueue_settled, receive_step, recv_settled, ReceiveStep, RecvHalf, SendHalf, UdpRuntimeStats,
    UdpSocket, WindowsUdpRuntimeConfig,
};

verus! {

/// Whether `after` is the telemetry `before` with `drops` more drops.
pub open spec fn counts_drops(before: UdpRuntimeStats, drops: int, after: UdpRuntimeStats) -> bool {
    after.ingress_queue_drops == (before.ingress_queue_drops + drops) % 0x1_0000_0000_0000_0000
}

/// Whether a socket has both ends of one open queue, and the only sender of it.
pub open spec fn owns_queue<W>(socket: UdpSocket<W>) -> bool {
    &&& channel::udp_tx_queue(socket.tx) == channel::udp_rx_queue(socket.rx)
    &&& channel::udp_only_end(socket.tx)
    &&& channel::udp_open(socket.rx)
    &&& channel::udp_taken(socket.rx).is_prefix_of(channel::udp_put(socket.tx))
    &&& channel::udp_put(socket.tx).len() - channel::udp_taken(socket.rx).len()
        <= channel::udp_queue_limit(socket.tx)
}

/// A socket is made exactly where there is a connection for it and binding went well; the code
/// of what failed is reported otherwise. It has a queue of its own, for as many datagrams as
/// asked, that nothing went through.
pub proof fn law_a_socket_is_made_where_binding_went_well<W>(
    pcb: usize,
    bind_code: i8,
    buffer_size: usize,
    egress_tx: WeakSender<IpPacket>,
    mtu: u16,
    shard_id: usize,
    modes: WindowsUdpRuntimeConfig,
    pools: &mut PacketPools,
    made: Result<UdpSocket<W>, Error>,
)
    requires
        call_ensures(
            UdpSocket::<W>::new,
            (pcb, bind_code, buffer_size, egress_tx, mtu, shard_id, modes, pools),
            made,
        ),
    ensures
        made is Ok <==> pcb != 0 && bind_code == 0,
        pcb == 0 ==> made == Err::<UdpSocket<W>, Error>(Error::LwIP(-1i8)),
        pcb != 0 && bind_code != 0 ==> made == Err::<UdpSocket<W>, Error>(Error::LwIP(bind_code)),
        made is Err ==> *final(pools) == *old(pools),
        made matches Ok(socket) ==> {
            &&& owns_queue(socket)
            &&& channel::udp_put(socket.tx) == Seq::<UdpPkt>::empty()
            &&& channel::udp_taken(socket.rx) == Seq::<UdpPkt>::empty()
            &&& channel::udp_queue_limit(socket.tx) == buffer_size
            &&& socket.pcb == pcb && socket.shard_id == shard_id && socket.mtu == mtu
            &&& socket.modes == modes && socket.egress_tx == egress_tx
            &&& socket.waker is None && !socket.direct_ingress
            &&& socket.packet_pool == old(pools).next_id
            &&& final(pools).next_id == old(pools).next_id + 1
        },
        made is Ok ==> {
            let entry = final(pools).entries@.last();
            &&& entry.id == old(pools).next_id
            &&& entry.handles == 1
            &&& entry.pool is Some
            &&& queue_contents(entry.pool->0.buffers).len() == 0
            &&& entry.pool->0.max_capacity == 4096
            &&& queue_limit(entry.pool->0.buffers) == if buffer_size < 1 {
                1
            } else if buffer_size > 256 {
                256
            } else {
                buffer_size as int
            }
        },
{
}

/// The halves of a socket send and receive as the socket did.
pub proof fn law_halves_send_and_receive_as_the_socket_did<W>(
    socket: UdpSocket<W>,
    halves: (SendHalf, RecvHalf<W>),
)
    requires
        call_ensures(UdpSocket::<W>::split, (socket,), halves),
    ensures
        halves.1.socket == socket,
        halves.0.pcb == socket.pcb,
        halves.0.shard_id == socket.shard_id,
        halves.0.mtu == socket.mtu,
        halves.0.reserve_mode == socket.modes.reserve,
        halves.0.send_gate_mode == socket.modes.send_gate,
        channel::weak_egress_queue(halves.0.egress_tx) == channel::weak_egress_queue(
            socket.egress_tx,
        ),
        channel::weak_egress_limit(halves.0.egress_tx) == channel::weak_egress_limit(
            socket.egress_tx,
        ),
{
}

/// A datagram is taken whole or dropped: it holds all that was copied, between the addresses
/// that it came with.
pub proof fn law_a_short_copy_is_dropped<W>(
    socket: UdpSocket<W>,
    pools: &mut PacketPools,
    tot_len: u16,
    copied: &[u8],
    src: SocketAddr,
    dst: SocketAddr,
    datagram: Option<UdpPkt>,
    direct_pools: &mut PacketPools,
    direct: Option<UdpPkt>,
)
    requires
        socket.wf(*old(pools)),
        socket.wf(*old(direct_pools)),
        call_ensures(
            UdpSocket::<W>::copy_udp_packet,
            (&socket, pools, tot_len, copied, src, dst),
            datagram,
        ),
        call_ensures(
            UdpSocket::<W>::udp_recv_direct_cb,
            (&socket, direct_pools, tot_len, copied, src, dst),
            direct,
        ),
    ensures
        datagram is Some <==> copied@.len() == tot_len,
        direct is Some <==> copied@.len() == tot_len,
        datagram matches Some(datagram) ==> {
            &&& datagram.0.buffer@ == copied@ && datagram.0.tail is None
            &&& datagram.0.pool == Some(socket.packet_pool)
            &&& datagram.1 == src && datagram.2 == dst
            &&& pools::lends(
                *old(pools),
                socket.packet_pool,
                tot_len as usize,
                datagram.0.reserved,
                *final(pools),
            )
        },
        datagram is None ==> pools::passes_through(
            *old(pools),
            socket.packet_pool,
            tot_len as usize,
            *final(pools),
        ),
        direct is None ==> pools::passes_through(
            *old(direct_pools),
            socket.packet_pool,
            tot_len as usize,
            *final(direct_pools),
        ),
        direct matches Some(direct) ==> {
            &&& direct.0.buffer@ == copied@ && direct.0.tail is None
            &&& direct.0.pool == Some(socket.packet_pool)
            &&& direct.1 == src && direct.2 == dst
            &&& pools::lends(
                *old(direct_pools),
                socket.packet_pool,
                tot_len as usize,
                direct.0.reserved,
                *final(direct_pools),
            )
        },
{
    let id = socket.packet_pool;
    if copied@.len() == tot_len {
        pools::lemma_lends(*old(pools), id, tot_len as usize, *final(pools));
        pools::lemma_lends(*old(direct_pools), id, tot_len as usize, *final(direct_pools));
    } else {
        pools::lemma_passes_through(*old(pools), id, tot_len as usize, *final(pools));
        pools::lemma_passes_through(
            *old(direct_pools),
            id,
            tot_len as usize,
            *final(direct_pools),
        );
    }
}

/// A datagram that is handed to a queue is there, at the end, exactly where the queue took it,
/// and a queue of the socket's own takes it exactly where there is room. Only one that met a
/// full queue counts as dropped. The reader is woken by the socket's waker where it has one and
/// readers are woken by it.
pub proof fn law_a_datagram_is_queued_where_there_is_room<W>(
    socket: &mut UdpSocket<W>,
    datagram: UdpPkt,
    stats: &mut UdpRuntimeStats,
    pools: &mut PacketPools,
    notify: bool,
)
    requires
        old(pools).wf(),
        call_ensures(
            UdpSocket::<W>::enqueue_windows_udp_packet,
            (socket, datagram, stats, pools),
            notify,
        ),
    ensures
        ({
            let answer = channel::udp_sends(final(socket).tx).last();
            let put = channel::udp_put(old(socket).tx);
            let queued = put.len() - channel::udp_taken(old(socket).rx).len();
            &&& *final(socket) == (UdpSocket { tx: final(socket).tx, ..*old(socket) })
            &&& channel::udp_sends(final(socket).tx) == channel::udp_sends(old(socket).tx).push(
                answer,
            )
            &&& channel::udp_put(final(socket).tx) == if answer == SendAnswer::Sent {
                put.push(datagram)
            } else {
                put
            }
            &&& counts_drops(
                *old(stats),
                if answer == SendAnswer::Full {
                    1
                } else {
                    0
                },
                *final(stats),
            )
            &&& owns_queue(*old(socket)) ==> {
                &&& owns_queue(*final(socket))
                &&& answer == SendAnswer::Sent <==> queued < channel::udp_queue_limit(
                    old(socket).tx,
                )
                &&& answer == SendAnswer::Full <==> queued >= channel::udp_queue_limit(
                    old(socket).tx,
                )
            }
            &&& answer == SendAnswer::Sent ==> *final(pools) == *old(pools)
            &&& answer != SendAnswer::Sent ==> pools::gets_back(
                *old(pools),
                datagram.0,
                *final(pools),
            )
        }),
        notify <==> old(socket).modes.notify is Legacy && old(socket).waker is Some,
{
    let put = channel::udp_put(old(socket).tx);
    let taken = channel::udp_taken(old(socket).rx);
    if owns_queue(*old(socket)) {
        assert(old(socket).backlog().len() == put.len() - taken.len());
        assert(old(socket).paired());
    }
    if channel::udp_sends(final(socket).tx).last() != SendAnswer::Sent {
        pools::lemma_gets_back(*old(pools), datagram.0, *final(pools));
    }
    if channel::udp_sends(final(socket).tx).last() != SendAnswer::Full {
        assert(old(stats).ingress_queue_drops as int % 0x1_0000_0000_0000_0000 == old(
            stats,
        ).ingress_queue_drops);
    }
}

/// A datagram that arrives whole is handed to the queue with its payload and its addresses, and
/// counts as dropped exactly where that was full. One that was copied short touches neither
/// queue nor telemetry, and wakes nobody.
pub proof fn law_an_arriving_datagram_is_handed_to_the_queue_whole<W>(
    socket: &mut UdpSocket<W>,
    stats: &mut UdpRuntimeStats,
    pools: &mut PacketPools,
    tot_len: u16,
    copied: &[u8],
    src: SocketAddr,
    dst: SocketAddr,
    notify: bool,
)
    requires
        old(socket).wf(*old(pools)),
        call_ensures(
            UdpSocket::<W>::udp_recv_cb,
            (socket, stats, pools, tot_len, copied, src, dst),
            notify,
        ),
    ensures
        notify <==> copied@.len() == tot_len && old(socket).modes.notify is Legacy && old(
            socket,
        ).waker is Some,
        copied@.len() != tot_len ==> {
            &&& *final(socket) == *old(socket)
            &&& *final(stats) == *old(stats)
            &&& pools::passes_through(
                *old(pools),
                old(socket).packet_pool,
                tot_len as usize,
                *final(pools),
            )
        },
        copied@.len() == tot_len ==> {
            let answer = channel::udp_sends(final(socket).tx).last();
            let put = channel::udp_put(old(socket).tx);
            let item = channel::udp_put(final(socket).tx).last();
            let queued = put.len() - channel::udp_taken(old(socket).rx).len();
            &&& *final(socket) == (UdpSocket { tx: final(socket).tx, ..*old(socket) })
            &&& channel::udp_sends(final(socket).tx) == channel::udp_sends(old(socket).tx).push(
                answer,
            )
            &&& answer == SendAnswer::Sent ==> {
                &&& channel::udp_put(final(socket).tx) == put.push(item)
                &&& item.0.buffer@ == copied@ && item.0.tail is None
                &&& item.1 == src && item.2 == dst
                &&& item.0.pool == Some(old(socket).packet_pool)
                &&& pools::lends(
                    *old(pools),
                    old(socket).packet_pool,
                    tot_len as usize,
                    item.0.reserved,
                    *final(pools),
                )
            }
            &&& answer != SendAnswer::Sent ==> {
                &&& channel::udp_put(final(socket).tx) == put
                &&& pools::passes_through(
                    *old(pools),
                    old(socket).packet_pool,
                    tot_len as usize,
                    *final(pools),
                )
            }
            &&& counts_drops(
                *old(stats),
                if answer == SendAnswer::Full {
                    1
                } else {
                    0
                },
                *final(stats),
            )
            &&& owns_queue(*old(socket)) ==> {
                &&& owns_queue(*final(socket))
                &&& answer == SendAnswer::Sent <==> queued < channel::udp_queue_limit(
                    old(socket).tx,
                )
                &&& answer == SendAnswer::Full <==> queued >= channel::udp_queue_limit(
                    old(socket).tx,
                )
            }
        },
{
    let put = channel::udp_put(old(socket).tx);
    let taken = channel::udp_taken(old(socket).rx);
    if owns_queue(*old(socket)) {
        assert(old(socket).backlog().len() == put.len() - taken.len());
        assert(old(socket).paired());
    }
    let id = old(socket).packet_pool;
    if copied@.len() == tot_len && channel::udp_sends(final(socket).tx).last()
        == SendAnswer::Sent {
        pools::lemma_lends(*old(pools), id, tot_len as usize, *final(pools));
    } else {
        pools::lemma_passes_through(*old(pools), id, tot_len as usize, *final(pools));
    }
    if copied@.len() == tot_len && channel::udp_sends(final(socket).tx).last()
        != SendAnswer::Full {
        assert(old(stats).ingress_queue_drops as int % 0x1_0000_0000_0000_0000 == old(
            stats,
        ).ingress_queue_drops);
    }
}

/// Only a datagram that met a full queue counts as dropped.
pub proof fn law_only_full_queues_count_as_drops(
    outcome: SendOutcome<UdpPkt>,
    stats: &mut UdpRuntimeStats,
    pools: &mut PacketPools,
)
    requires
        old(pools).wf(),
        call_ensures(enqueue_settled, (outcome, stats, pools), ()),
    ensures
        outcome is Full ==> counts_drops(*old(stats), 1, *final(stats)),
        !(outcome is Full) ==> *final(stats) == *old(stats),
        match outcome {
            SendOutcome::Sent => *final(pools) == *old(pools),
            SendOutcome::Full(datagram) | SendOutcome::Closed(datagram) => pools::gets_back(
                *old(pools),
                datagram.0,
                *final(pools),
            ),
        },
{
    match outcome {
        SendOutcome::Sent => {},
        SendOutcome::Full(datagram) | SendOutcome::Closed(datagram) => {
            pools::lemma_gets_back(*old(pools), datagram.0, *final(pools));
        },
    }
}

/// How many datagrams met a full queue is how many answers say so.
pub proof fn law_full_answers_are_counted_one_by_one(answers: Seq<SendAnswer>)
    ensures
        udp::full_answers(answers) == answers.filter(
            |answer: SendAnswer| answer == SendAnswer::Full,
        ).len(),
    decreases answers.len(),
{
    reveal(Seq::filter);
    if answers.len() > 0 {
        law_full_answers_are_counted_one_by_one(answers.drop_last());
    }
}

/// A read without waiting takes the oldest datagram of the socket's own queue, if there is one,
/// and nothing else. It takes nothing where datagrams go to a handler.
pub proof fn law_a_read_takes_the_oldest_datagram<W>(
    half: &mut RecvHalf<W>,
    outcome: Result<Option<UdpPkt>, IoError>,
)
    requires
        call_ensures(RecvHalf::<W>::try_recv_from, (half,), outcome),
    ensures
        ({
            let before = old(half).socket;
            let after = final(half).socket;
            let put = channel::udp_put(before.tx);
            let taken = channel::udp_taken(before.rx);
            let answer = channel::udp_answers(after.rx).last();
            &&& after == (UdpSocket { rx: after.rx, ..before })
            &&& before.direct_ingress ==> after == before && outcome == Ok::<
                Option<UdpPkt>,
                IoError,
            >(None)
            &&& !before.direct_ingress ==> {
                &&& channel::udp_answers(after.rx) == channel::udp_answers(before.rx).push(answer)
                &&& outcome is Err <==> answer is Disconnected
                &&& outcome matches Err(error) ==> error.kind == ErrorKind::BrokenPipe
                    && error.message@ == "lwIP UDP ingress queue is closed"@
                &&& outcome matches Ok(Some(datagram)) ==> answer == RecvOutcome::Received(
                    datagram,
                ) && channel::udp_taken(after.rx) == taken.push(datagram)
                &&& outcome matches Ok(None) ==> answer is Empty
                &&& !(answer is Received) ==> channel::udp_taken(after.rx) == taken
                &&& owns_queue(before) ==> {
                    &&& owns_queue(after)
                    &&& outcome == Ok::<Option<UdpPkt>, IoError>(
                        if taken.len() < put.len() {
                            Some(put[taken.len() as int])
                        } else {
                            None
                        },
                    )
                }
            }
        }),
{
    let before = old(half).socket;
    let after = final(half).socket;
    let put = channel::udp_put(before.tx);
    let taken = channel::udp_taken(before.rx);
    if !before.direct_ingress {
        if owns_queue(before) {
            assert(before.backlog().len() == put.len() - taken.len());
            assert(before.paired());
            assert(after.backlog().len() == put.len() - channel::udp_taken(after.rx).len());
        }
        if outcome is Ok && outcome->Ok_0 is Some {
            assert(taken + seq![outcome->Ok_0->0] =~= taken.push(outcome->Ok_0->0));
        } else {
            assert(taken + Seq::<UdpPkt>::empty() =~= taken);
        }
    }
}

/// A batch takes the oldest datagrams of the socket's own queue, in order, as many as there are
/// and as are asked for, and appends them behind what the caller had. In general it stops with
/// the first attempt that gets nothing, and fails only where that was the first and the queue
/// is closed.
pub proof fn law_a_batch_takes_the_oldest_datagrams<W>(
    half: &mut RecvHalf<W>,
    buffer: &mut Vec<UdpPkt>,
    limit: usize,
    outcome: Result<usize, IoError>,
)
    requires
        call_ensures(RecvHalf::<W>::try_recv_many, (half, buffer, limit), outcome),
    ensures
        ({
            let before = old(half).socket;
            let after = final(half).socket;
            let put = channel::udp_put(before.tx);
            let taken = channel::udp_taken(before.rx);
            let got = final(buffer)@.skip(old(buffer)@.len() as int);
            let answers = channel::udp_answers(after.rx).skip(
                channel::udp_answers(before.rx).len() as int,
            );
            &&& after == (UdpSocket { rx: after.rx, ..before })
            &&& final(buffer)@ == old(buffer)@ + got
            &&& before.direct_ingress ==> after == before && got.len() == 0 && outcome == Ok::<
                usize,
                IoError,
            >(0)
            &&& !before.direct_ingress ==> {
                &&& got.len() <= limit
                &&& channel::udp_taken(after.rx) == taken + got
                &&& got == answers.filter_map(
                    |answer: RecvOutcome<UdpPkt>|
                        match answer {
                            RecvOutcome::Received(datagram) => Some(datagram),
                            _ => None,
                        },
                )
                &&& got.len() < limit ==> answers.len() == got.len() + 1 && !(
                answers.last() is Received)
                &&& got.len() == limit ==> answers.len() == limit
                &&& outcome is Err <==> limit > 0 && answers[0] is Disconnected
                &&& outcome matches Ok(n) ==> n == got.len()
                &&& outcome matches Err(error) ==> error.kind == ErrorKind::BrokenPipe
                    && error.message@ == "lwIP UDP ingress queue is closed"@
                &&& owns_queue(before) ==> {
                    let queued = put.skip(taken.len() as int);
                    &&& owns_queue(after)
                    &&& outcome is Ok
                    &&& got.len() == limit || got.len() == queued.len()
                    &&& got.is_prefix_of(queued)
                }
            }
        }),
{
    let before = old(half).socket;
    let after = final(half).socket;
    let put = channel::udp_put(before.tx);
    let taken = channel::udp_taken(before.rx);
    let got = final(buffer)@.skip(old(buffer)@.len() as int);
    let answers = channel::udp_answers(after.rx).skip(channel::udp_answers(before.rx).len() as int);
    assert(final(buffer)@ =~= old(buffer)@ + got);
    if !before.direct_ingress {
        if owns_queue(before) {
            assert(before.backlog().len() == put.len() - taken.len());
            assert(before.paired());
            assert(after.backlog().len() == put.len() - channel::udp_taken(after.rx).len());
        }
        let received = |answer: RecvOutcome<UdpPkt>|
            match answer {
                RecvOutcome::Received(datagram) => Some(datagram),
                _ => None,
            };
        lemma_received(answers, got, received);
    }
}

/// The datagrams that were received are those that answers brought.
proof fn lemma_received(
    answers: Seq<RecvOutcome<UdpPkt>>,
    got: Seq<UdpPkt>,
    received: spec_fn(RecvOutcome<UdpPkt>) -> Option<UdpPkt>,
)
    requires
        got.len() <= answers.len() <= got.len() + 1,
        forall|i: int|
            0 <= i < got.len() ==> #[trigger] answers[i] == RecvOutcome::Received(got[i]),
        answers.len() > got.len() ==> !(answers.last() is Received),
        forall|answer: RecvOutcome<UdpPkt>| #[trigger]
            received(answer) == match answer {
                RecvOutcome::Received(datagram) => Some(datagram),
                _ => None,
            },
    ensures
        answers.filter_map(received) == got,
    decreases answers.len(),
{
    reveal(Seq::filter_map);
    if answers.len() > 0 {
        let shorter = answers.drop_last();
        assert forall|i: int| 0 <= i < shorter.len() implies #[trigger] shorter[i]
            == RecvOutcome::Received(got[i]) by {
            assert(answers[i] == RecvOutcome::Received(got[i]));
        }
        if answers.len() > got.len() {
            lemma_received(shorter, got, received);
        } else {
            let n = got.len() - 1;
            let fewer = got.drop_last();
            assert forall|i: int| 0 <= i < fewer.len() implies #[trigger] shorter[i]
                == RecvOutcome::Received(fewer[i]) by {
                assert(answers[i] == RecvOutcome::Received(got[i]));
            }
            lemma_received(shorter, fewer, received);
            assert(answers[n] == RecvOutcome::Received(got[n]));
            assert(fewer.push(got[n]) =~= got);
        }
    } else {
        assert(answers.filter_map(received) =~= got);
    }
}

/// An attempt that got a datagram returns it, one that found nothing returns none, and one that
/// met a closed queue fails; in a batch the latter only ends it where some came out before.
pub proof fn law_an_attempt_is_settled_as_it_was_answered(
    outcome: RecvOutcome<UdpPkt>,
    count: usize,
    settled: Result<Option<UdpPkt>, IoError>,
    step: ReceiveStep,
)
    requires
        call_ensures(recv_settled, (outcome,), settled),
        call_ensures(receive_step, (outcome, count), step),
    ensures
        match outcome {
            RecvOutcome::Received(datagram) => settled == Ok::<Option<UdpPkt>, IoError>(
                Some(datagram),
            ) && step == ReceiveStep::Append(datagram),
            RecvOutcome::Empty => settled == Ok::<Option<UdpPkt>, IoError>(None) && step is Stop,
            RecvOutcome::Disconnected => {
                &&& settled matches Err(error)
                &&& error.kind == ErrorKind::BrokenPipe
                &&& error.message@ == "lwIP UDP ingress queue is closed"@
                &&& step is Stop <==> count > 0
                &&& step is Fail <==> count == 0
                &&& step matches ReceiveStep::Fail(failure) ==> failure.kind
                    == ErrorKind::BrokenPipe && failure.message@
                    == "lwIP UDP ingress queue is closed"@
            },
        },
{
}

/// A wait for a datagram returns it, and fails where the queue has ended.
pub proof fn law_a_wait_ends_with_a_datagram_or_the_queue<W>(
    datagram: Option<UdpPkt>,
    outcome: Result<UdpPkt, IoError>,
)
    requires
        call_ensures(RecvHalf::<W>::recv_from, (datagram,), outcome),
    ensures
        datagram matches Some(datagram) ==> outcome == Ok::<UdpPkt, IoError>(datagram),
        datagram is None ==> (outcome matches Err(error) && error.kind == ErrorKind::Other
            && error.message@ == "recv_from udp socket faied: tx closed"@),
{
}

/// A reader that has to wait leaves its waker, where readers are woken by it; otherwise the
/// socket stays as it is. What the queue answered is returned as it is.
pub proof fn law_a_waiting_reader_leaves_its_waker<W>(
    socket: &mut UdpSocket<W>,
    poll: Poll<Option<UdpPkt>>,
    waker: W,
    settled: Poll<Option<UdpPkt>>,
)
    requires
        call_ensures(UdpSocket::<W>::poll_windows_udp_receiver, (socket, poll, waker), settled),
    ensures
        settled == poll,
        *final(socket) == (UdpSocket { waker: final(socket).waker, ..*old(socket) }),
        poll is Pending && old(socket).modes.notify is Legacy ==> final(socket).waker == Some(
            waker,
        ),
        !(poll is Pending) || !(old(socket).modes.notify is Legacy) ==> final(socket).waker == old(
            socket,
        ).waker,
{
}

/// A handler can be set once, and from then on the queue answers no reads.
pub proof fn law_a_handler_is_set_once<W>(
    half: &mut RecvHalf<W>,
    first: Result<(), IoError>,
    set: &mut RecvHalf<W>,
    second: Result<(), IoError>,
    reads: bool,
)
    requires
        call_ensures(RecvHalf::<W>::set_windows_direct_ingress_handler, (half,), first),
        *old(set) == *final(half),
        call_ensures(RecvHalf::<W>::set_windows_direct_ingress_handler, (set,), second),
        call_ensures(UdpSocket::<W>::reads_queue, (&final(half).socket,), reads),
    ensures
        first is Ok <==> !old(half).socket.direct_ingress,
        second matches Err(error) && error.kind == ErrorKind::AlreadyExists && error.message@
            == "lwIP UDP direct ingress handler is already configured"@,
        !reads,
        final(set).socket == (UdpSocket { direct_ingress: true, ..old(half).socket }),
{
}

} // verus!
