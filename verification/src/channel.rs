//! The bounded queues between the stacks and their users, as the crate `tokio`
//! provides them.
//!
//! Both ends of such a queue may be in use at once, so what a call meets there is in
//! general not a function of its arguments. The contracts state what holds whatever it
//! meets, and more where the caller has both ends in hand.

use tokio::sync::mpsc::error::{TryRecvError, TrySendError};
use tokio::sync::mpsc::{channel, Receiver, Sender, WeakSender};
use vstd::prelude::*;

use crate::addr::SocketAddr;
use crate::packet::IpPacket;

verus! {

/// The sending end of a queue of the crate `tokio`.
#[verifier::external_type_specification]
#[verifier::external_body]
#[verifier::reject_recursive_types(T)]
pub struct ExSender<T>(Sender<T>);

/// The receiving end of a queue of the crate `tokio`.
#[verifier::external_type_specification]
#[verifier::external_body]
#[verifier::reject_recursive_types(T)]
pub struct ExReceiver<T>(Receiver<T>);

/// A sending end that does not keep its queue open.
#[verifier::external_type_specification]
#[verifier::external_body]
#[verifier::reject_recursive_types(T)]
pub struct ExWeakSender<T>(WeakSender<T>);

/// A UDP datagram: its payload, source and destination.
pub type UdpPkt = (IpPacket, SocketAddr, SocketAddr);

/// How many packets an egress queue was made to hold.
pub uninterp spec fn egress_limit(tx: Sender<IpPacket>) -> usize;

/// How many packets an egress queue was made to hold, by a weak sender.
pub uninterp spec fn weak_egress_limit(tx: WeakSender<IpPacket>) -> usize;

/// Which egress queue a sender belongs to: a label that all ends of a queue share.
pub uninterp spec fn egress_queue(tx: Sender<IpPacket>) -> int;

/// Which egress queue a receiving end belongs to.
pub uninterp spec fn egress_rx_queue(rx: Receiver<IpPacket>) -> int;

/// Which egress queue a weak sender belongs to.
pub uninterp spec fn weak_egress_queue(tx: WeakSender<IpPacket>) -> int;

/// The packets that have been put into an egress queue through this sender, in
/// order.
pub uninterp spec fn egress_put(tx: Sender<IpPacket>) -> Seq<IpPacket>;

/// What this sender has answered to attempts to send, in order.
pub uninterp spec fn egress_sends(tx: Sender<IpPacket>) -> Seq<SendAnswer>;

/// What this sender has answered when asked how much room there is, in order.
pub uninterp spec fn egress_rooms(tx: Sender<IpPacket>) -> Seq<usize>;

/// How many datagrams a queue of datagrams was made to hold.
pub uninterp spec fn udp_queue_limit(
    tx: Sender<(IpPacket, SocketAddr, SocketAddr)>,
) -> usize;

/// Which queue of datagrams a sender belongs to: a label that both ends of a queue
/// share.
pub uninterp spec fn udp_tx_queue(tx: Sender<(IpPacket, SocketAddr, SocketAddr)>) -> int;

/// Which queue of datagrams a receiving end belongs to.
pub uninterp spec fn udp_rx_queue(rx: Receiver<(IpPacket, SocketAddr, SocketAddr)>) -> int;

/// Whether a sender is the only one that was ever made of its queue, and has never set
/// room aside without sending.
pub uninterp spec fn udp_only_end(tx: Sender<(IpPacket, SocketAddr, SocketAddr)>) -> bool;

/// The datagrams that have been put into a queue through this sender, in order.
pub uninterp spec fn udp_put(
    tx: Sender<(IpPacket, SocketAddr, SocketAddr)>,
) -> Seq<(IpPacket, SocketAddr, SocketAddr)>;

/// What this sender has answered to attempts to send, in order.
pub uninterp spec fn udp_sends(
    tx: Sender<(IpPacket, SocketAddr, SocketAddr)>,
) -> Seq<SendAnswer>;

/// The datagrams that have been taken out of a queue through its receiving end, in
/// order. Only that end takes any out, so this changes with it alone, whatever the
/// sending ends do meanwhile.
pub uninterp spec fn udp_taken(
    rx: Receiver<(IpPacket, SocketAddr, SocketAddr)>,
) -> Seq<(IpPacket, SocketAddr, SocketAddr)>;

/// Whether a receiving end has not been closed.
pub uninterp spec fn udp_open(rx: Receiver<(IpPacket, SocketAddr, SocketAddr)>) -> bool;

/// What the receiving end has answered to attempts to take a datagram out without
/// waiting, in order.
pub uninterp spec fn udp_answers(
    rx: Receiver<(IpPacket, SocketAddr, SocketAddr)>,
) -> Seq<RecvOutcome<(IpPacket, SocketAddr, SocketAddr)>>;

/// Whether a queue can be made for `buffer` items.
pub open spec fn valid_queue_size(buffer: usize) -> bool {
    0 < buffer <= usize::MAX / 8
}

/// `tokio::sync::mpsc::channel` for packets: the two ends of an empty queue for up to
/// `buffer` items. It panics where `buffer` is zero or more than an eighth of the
/// address space.
#[verifier::external_body]
pub(crate) fn egress_channel(buffer: usize) -> (ends: (Sender<IpPacket>, Receiver<IpPacket>))
    requires
        valid_queue_size(buffer),
    ensures
        egress_limit(ends.0) == buffer,
        egress_queue(ends.0) == egress_rx_queue(ends.1),
        egress_put(ends.0) == Seq::<IpPacket>::empty(),
        egress_sends(ends.0) == Seq::<SendAnswer>::empty(),
        egress_rooms(ends.0) == Seq::<usize>::empty(),
{
    channel(buffer)
}

/// `tokio::sync::mpsc::channel` for datagrams: the two ends of an empty queue for up
/// to `buffer` items. It panics where `buffer` is zero or more than an eighth of the
/// address space.
#[verifier::external_body]
pub(crate) fn udp_channel(buffer: usize) -> (ends: (
    Sender<(IpPacket, SocketAddr, SocketAddr)>,
    Receiver<(IpPacket, SocketAddr, SocketAddr)>,
))
    requires
        valid_queue_size(buffer),
    ensures
        udp_queue_limit(ends.0) == buffer,
        udp_tx_queue(ends.0) == udp_rx_queue(ends.1),
        udp_only_end(ends.0),
        udp_open(ends.1),
        udp_put(ends.0) == Seq::<(IpPacket, SocketAddr, SocketAddr)>::empty(),
        udp_sends(ends.0) == Seq::<SendAnswer>::empty(),
        udp_taken(ends.1) == Seq::<(IpPacket, SocketAddr, SocketAddr)>::empty(),
        udp_answers(ends.1) == Seq::<RecvOutcome<(IpPacket, SocketAddr, SocketAddr)>>::empty(),
{
    channel(buffer)
}

/// How an attempt to send ended. An item that was not sent comes back.
#[derive(Debug)]
pub enum SendOutcome<T> {
    Sent,
    Full(T),
    Closed(T),
}

/// How an attempt to send ended, apart from the item.
#[derive(Clone, Copy, Debug, PartialEq, Eq, Structural)]
pub enum SendAnswer {
    Sent,
    Full,
    Closed,
}

/// The answer of an attempt that ended with `outcome`.
pub open spec fn answer_of<T>(outcome: SendOutcome<T>) -> SendAnswer {
    match outcome {
        SendOutcome::Sent => SendAnswer::Sent,
        SendOutcome::Full(_) => SendAnswer::Full,
        SendOutcome::Closed(_) => SendAnswer::Closed,
    }
}

/// How an attempt to receive ended.
#[derive(Debug)]
pub enum RecvOutcome<T> {
    Received(T),
    Empty,
    Disconnected,
}

/// The sequence `before` after `item` was handed to a queue that answered `outcome`:
/// it is there, at the end, where it was sent, and otherwise it came back.
pub open spec fn handed_over<T>(before: Seq<T>, item: T, outcome: SendOutcome<T>, after: Seq<T>) -> bool {
    match outcome {
        SendOutcome::Sent => after == before.push(item),
        SendOutcome::Full(back) => back == item && after == before,
        SendOutcome::Closed(back) => back == item && after == before,
    }
}

/// `Sender::try_send` for packets: puts the item into the queue, at its end, or hands
/// it back where the queue is full or its receiving end is gone. Which of these it
/// meets depends on what the other ends of the queue have done, so that is not stated.
#[verifier::external_body]
pub(crate) fn egress_try_send(tx: &mut Sender<IpPacket>, item: IpPacket) -> (outcome: SendOutcome<
    IpPacket,
>)
    ensures
        handed_over(egress_put(*old(tx)), item, outcome, egress_put(*final(tx))),
        egress_sends(*final(tx)) == egress_sends(*old(tx)).push(answer_of(outcome)),
        egress_queue(*final(tx)) == egress_queue(*old(tx)),
        egress_limit(*final(tx)) == egress_limit(*old(tx)),
        egress_rooms(*final(tx)) == egress_rooms(*old(tx)),
{
    match tx.try_send(item) {
        Ok(()) => SendOutcome::Sent,
        Err(TrySendError::Full(back)) => SendOutcome::Full(back),
        Err(TrySendError::Closed(back)) => SendOutcome::Closed(back),
    }
}

/// `Sender::try_send` for datagrams: puts the item into the queue, at its end, or
/// hands it back where the queue is full or its receiving end is closed or gone. Where
/// `rx` is the receiving end, open, and `tx` is the only sender, the queue holds what
/// was put in and not taken out, and it is full exactly where that is as much as it
/// was made for. Otherwise which of these it meets depends on what other ends have
/// done, and is not stated.
#[verifier::external_body]
pub(crate) fn udp_try_send(
    tx: &mut Sender<(IpPacket, SocketAddr, SocketAddr)>,
    rx: &Receiver<(IpPacket, SocketAddr, SocketAddr)>,
    item: (IpPacket, SocketAddr, SocketAddr),
) -> (outcome: SendOutcome<(IpPacket, SocketAddr, SocketAddr)>)
    ensures
        handed_over(udp_put(*old(tx)), item, outcome, udp_put(*final(tx))),
        udp_sends(*final(tx)) == udp_sends(*old(tx)).push(answer_of(outcome)),
        udp_tx_queue(*final(tx)) == udp_tx_queue(*old(tx)),
        udp_only_end(*final(tx)) == udp_only_end(*old(tx)),
        udp_queue_limit(*final(tx)) == udp_queue_limit(*old(tx)),
        udp_tx_queue(*old(tx)) == udp_rx_queue(*rx) && udp_only_end(*old(tx)) && udp_open(*rx)
            ==> answer_of(outcome) == if udp_put(*old(tx)).len() - udp_taken(*rx).len()
            < udp_queue_limit(*old(tx)) {
            SendAnswer::Sent
        } else {
            SendAnswer::Full
        },
{
    match tx.try_send(item) {
        Ok(()) => SendOutcome::Sent,
        Err(TrySendError::Full(back)) => SendOutcome::Full(back),
        Err(TrySendError::Closed(back)) => SendOutcome::Closed(back),
    }
}

/// `Receiver::try_recv`: takes the next datagram out of the queue and returns it, or
/// takes none where the queue is empty, or empty and closed or with no sender left.
/// The queue is first in, first out: where `tx` is the only sender that its queue ever
/// had, what was taken out is what was put in first through `tx`, and none comes only
/// where all of it has been taken; as `tx` is there, an open end is not disconnected.
/// Otherwise which of these it meets depends on what the sending ends have done, and
/// is not stated.
#[verifier::external_body]
pub(crate) fn try_recv(
    tx: &Sender<(IpPacket, SocketAddr, SocketAddr)>,
    rx: &mut Receiver<(IpPacket, SocketAddr, SocketAddr)>,
) -> (outcome: RecvOutcome<(IpPacket, SocketAddr, SocketAddr)>)
    ensures
        udp_rx_queue(*final(rx)) == udp_rx_queue(*old(rx)),
        udp_open(*final(rx)) == udp_open(*old(rx)),
        udp_answers(*final(rx)) == udp_answers(*old(rx)).push(outcome),
        udp_taken(*final(rx)) == match outcome {
            RecvOutcome::Received(datagram) => udp_taken(*old(rx)).push(datagram),
            RecvOutcome::Empty => udp_taken(*old(rx)),
            RecvOutcome::Disconnected => udp_taken(*old(rx)),
        },
        udp_tx_queue(*tx) == udp_rx_queue(*old(rx)) && udp_only_end(*tx) ==> {
            &&& udp_taken(*final(rx)).is_prefix_of(udp_put(*tx))
            &&& !(outcome is Received) ==> udp_taken(*final(rx)) == udp_put(*tx)
            &&& outcome is Disconnected ==> !udp_open(*final(rx))
        },
{
    match rx.try_recv() {
        Ok(item) => RecvOutcome::Received(item),
        Err(TryRecvError::Empty) => RecvOutcome::Empty,
        Err(TryRecvError::Disconnected) => RecvOutcome::Disconnected,
    }
}

/// `Sender::max_capacity`: how many items the queue was made to hold.
#[verifier::external_body]
pub(crate) fn egress_max_capacity(tx: &Sender<IpPacket>) -> (slots: usize)
    ensures
        slots == egress_limit(*tx),
{
    tx.max_capacity()
}

/// `Sender::capacity`: how many items can be sent right now, which is never more
/// than the queue was made to hold. How many it is depends on what the other ends
/// of the queue have done, so no more is stated of it.
#[verifier::external_body]
pub(crate) fn egress_capacity(tx: &mut Sender<IpPacket>) -> (slots: usize)
    ensures
        slots <= egress_limit(*old(tx)),
        egress_rooms(*final(tx)) == egress_rooms(*old(tx)).push(slots),
        egress_queue(*final(tx)) == egress_queue(*old(tx)),
        egress_limit(*final(tx)) == egress_limit(*old(tx)),
        egress_put(*final(tx)) == egress_put(*old(tx)),
        egress_sends(*final(tx)) == egress_sends(*old(tx)),
{
    tx.capacity()
}

/// `Sender::downgrade`: a weak sender of the same queue.
#[verifier::external_body]
pub(crate) fn egress_downgrade(tx: &Sender<IpPacket>) -> (weak: WeakSender<IpPacket>)
    ensures
        weak_egress_limit(weak) == egress_limit(*tx),
        weak_egress_queue(weak) == egress_queue(*tx),
{
    tx.downgrade()
}

/// `WeakSender::upgrade`: another sender of the same queue, through which nothing has
/// gone yet, unless all senders are gone. Whether they are is not stated, since any
/// task may hold one.
#[verifier::external_body]
pub(crate) fn egress_upgrade(weak: &WeakSender<IpPacket>) -> (tx: Option<Sender<IpPacket>>)
    ensures
        tx matches Some(tx) ==> {
            &&& egress_limit(tx) == weak_egress_limit(*weak)
            &&& egress_queue(tx) == weak_egress_queue(*weak)
            &&& egress_put(tx) == Seq::<IpPacket>::empty()
            &&& egress_sends(tx) == Seq::<SendAnswer>::empty()
            &&& egress_rooms(tx) == Seq::<usize>::empty()
        },
{
    weak.upgrade()
}

/// Whether a weak sender, asked for a sender, has given `answer`.
pub closed spec fn upgraded(
    weak: WeakSender<IpPacket>,
    answer: Option<Sender<IpPacket>>,
) -> bool {
    call_ensures(egress_upgrade, (&weak,), answer)
}

/// An answer is one that the queue gave: nothing else counts as one.
pub(crate) proof fn law_answers_come_from_the_queue(
    weak: WeakSender<IpPacket>,
    answer: Option<Sender<IpPacket>>,
)
    requires
        upgraded(weak, answer),
    ensures
        call_ensures(egress_upgrade, (&weak,), answer),
{
}

/// Asks a weak sender for a sender of its queue, through which nothing has gone yet.
/// There is none where all senders are gone.
pub(crate) fn egress_ask(weak: &WeakSender<IpPacket>) -> (answer: Option<Sender<IpPacket>>)
    ensures
        upgraded(*weak, answer),
        answer matches Some(tx) ==> {
            &&& egress_limit(tx) == weak_egress_limit(*weak)
            &&& egress_queue(tx) == weak_egress_queue(*weak)
            &&& egress_put(tx) == Seq::<IpPacket>::empty()
            &&& egress_sends(tx) == Seq::<SendAnswer>::empty()
            &&& egress_rooms(tx) == Seq::<usize>::empty()
        },
{
    egress_upgrade(weak)
}

/// `<WeakSender as Clone>::clone`: another weak sender of the same queue.
#[verifier::external_body]
pub(crate) fn egress_clone(weak: &WeakSender<IpPacket>) -> (another: WeakSender<IpPacket>)
    ensures
        weak_egress_limit(another) == weak_egress_limit(*weak),
        weak_egress_queue(another) == weak_egress_queue(*weak),
{
    weak.clone()
}

} // verus!
