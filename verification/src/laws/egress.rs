//! How a datagram is cut into packets, and when the egress queue takes them.

use tokio::sync::mpsc::Sender;
use vstd::prelude::*;

use crate::addr::SocketAddr;
use crate::channel;
use crate::io::{ErrorKind, IoError};
use crate::packet::IpPacket;
use crate::udp;
use crate::text;
use crate::udp::{
    admit_udp, check_through, fits_queue, send_udp, submit_through, udp_egress_slots, udp_sent,
    SendAction, SendEvent, SendHalf, SendPhase, SendWait, UdpSubmission, WindowsUdpReserveMode,
    WindowsUdpSendGateMode,
};

verus! {

/// Whether `payload` is what one fragment carries of a datagram on a link with this MTU:
/// it fits beside the headers, wastes less than one unit of eight, and is made of such
/// units. IPv6 fragments have a header more, and keep to the minimum MTU of 1280 bytes.
pub open spec fn fragment(destination: SocketAddr, mtu: u16, payload: int) -> bool {
    &&& payload > 0
    &&& payload % 8 == 0
    &&& if destination.ip is V6 {
        let limit: int = if mtu < 1280 {
            mtu as int
        } else {
            1280
        };
        payload + 48 <= limit < payload + 48 + 8
    } else {
        payload + 20 <= mtu < payload + 20 + 8
    }
}

/// A datagram takes one packet where it fits the MTU with its headers. Otherwise it takes
/// the fewest fragments that carry it, each as large as the MTU lets it be. It takes none
/// where no fragment carries anything, or where the machine cannot count its bytes.
pub proof fn law_a_datagram_takes_the_fewest_packets(
    data_len: usize,
    destination: SocketAddr,
    mtu: u16,
    slots: Result<usize, IoError>,
    payload: int,
)
    requires
        call_ensures(udp_egress_slots, (data_len, &destination, mtu), slots),
    ensures
        ({
            let transport = data_len + 8;
            let total = transport + if destination.ip is V6 {
                40int
            } else {
                20int
            };
            &&& total <= mtu ==> slots == Ok::<usize, IoError>(1)
            &&& total > mtu && slots is Ok ==> exists|payload: int|
                #[trigger] fragment(destination, mtu, payload)
            &&& total > mtu && fragment(destination, mtu, payload) ==> match slots {
                Ok(slots) => {
                    &&& slots * payload >= transport
                    &&& forall|n: int| #[trigger] (n * payload) >= transport ==> n >= slots
                },
                Err(error) => {
                    &&& error.kind == ErrorKind::InvalidInput
                    &&& total > usize::MAX || transport + payload - 1 > usize::MAX
                },
            }
            &&& slots matches Err(error) ==> {
                &&& error.kind == ErrorKind::InvalidInput
                &&& total > mtu
                &&& total + mtu <= usize::MAX ==> forall|payload: int|
                    !(#[trigger] fragment(destination, mtu, payload))
                &&& total <= usize::MAX && (forall|payload: int|
                    !(#[trigger] fragment(destination, mtu, payload))) ==> error.message@
                    == "MTU "@ + text::decimal(mtu as nat)
                    + " is too small for UDP fragmentation"@
                &&& total > usize::MAX || (exists|payload: int| #[trigger]
                    fragment(destination, mtu, payload)) ==> error.message@
                    == "UDP datagram is too large"@
            }
        }),
{
    let transport = data_len + 8;
    let each = udp::fragment_payload(destination, mtu);
    assert(each % 8 == 0);
    if transport + udp::ip_header_len(destination) > mtu {
        if slots is Ok {
            assert(fragment(destination, mtu, each));
            udp::law_slots_are_the_fewest_fragments(
                data_len,
                destination,
                mtu,
                slots->Ok_0 as int,
            );
        }
        assert(each > 0 ==> fragment(destination, mtu, each));
        if fragment(destination, mtu, payload) {
            lemma_one_fragment_length(destination, mtu, payload);
            if slots is Ok {
                let k = slots->Ok_0 as int;
                assert forall|n: int| #[trigger] (n * payload) >= transport implies n >= k by {
                    assert(n > k - 1) by (nonlinear_arith)
                        requires
                            n * payload > (k - 1) * payload,
                            payload > 0,
                    ;
                }
            }
        }
        assert forall|p: int| slots is Err && transport + udp::ip_header_len(destination) + mtu
            <= usize::MAX implies !(#[trigger] fragment(destination, mtu, p)) by {
            if fragment(destination, mtu, p) {
                lemma_one_fragment_length(destination, mtu, p);
            }
        }
    }
}

/// An MTU leaves one length to its fragments.
proof fn lemma_one_fragment_length(destination: SocketAddr, mtu: u16, payload: int)
    requires
        fragment(destination, mtu, payload),
    ensures
        payload == udp::fragment_payload(destination, mtu),
{
}

/// What is said of a datagram that takes `slots` packets, which a queue for `limit` of them
/// does not take while it has room for `room`.
pub open spec fn refusal(slots: usize, limit: usize, room: usize) -> Seq<char> {
    if slots > limit {
        "UDP datagram requires "@ + text::decimal(slots as nat)
            + " egress slots but the queue capacity is "@ + text::decimal(limit as nat)
    } else {
        "UDP datagram requires "@ + text::decimal(slots as nat) + " egress slots but only "@
            + text::decimal(room as nat) + " are available"@
    }
}

/// Whether `answer` is what a send of `slots` packets comes to that was told `sender` by
/// the queue of `half`.
pub open spec fn answers_send(
    half: SendHalf,
    slots: usize,
    sender: Option<Sender<IpPacket>>,
    answer: Result<UdpSubmission, IoError>,
) -> bool {
    &&& channel::upgraded(half.egress_tx, sender)
    &&& sender is None <==> (answer matches Err(error) && error.kind == ErrorKind::BrokenPipe)
    &&& sender is None ==> answer->Err_0.message@ == "lwIP egress queue is closed"@
    &&& sender matches Some(sender) ==> exists|asked: Sender<IpPacket>|
        {
            let rooms = #[trigger] channel::egress_rooms(asked);
            &&& channel::egress_queue(asked) == channel::egress_queue(sender)
            &&& rooms == channel::egress_rooms(sender).push(rooms.last())
            &&& answer is Ok <==> slots <= channel::egress_limit(sender) && slots
                <= rooms.last()
            &&& answer matches Ok(submission) ==> submission.sender == asked
                && submission.slots == slots
            &&& answer matches Err(error) ==> error.message@ == refusal(
                slots,
                channel::egress_limit(sender),
                rooms.last(),
            ) && error.kind == if slots > channel::egress_limit(sender) {
                ErrorKind::InvalidInput
            } else {
                ErrorKind::WouldBlock
            }
        }
}

/// A submission is refused as closed exactly where the egress queue was asked for a sender
/// and had none. Where it gave one, the datagram is taken exactly where the queue was made
/// for as many packets and has the room that it answered.
pub proof fn law_only_a_queue_without_senders_is_closed(
    half: SendHalf,
    slots: usize,
    answer: Result<UdpSubmission, IoError>,
)
    requires
        call_ensures(SendHalf::try_submit, (&half, slots), answer),
    ensures
        exists|sender: Option<Sender<IpPacket>>| #[trigger] answers_send(half, slots, sender, answer),
{
    let sender = choose|sender: Option<Sender<IpPacket>>|
        #[trigger] channel::upgraded(half.egress_tx, sender) && udp::submits(sender, slots, answer);
    lemma_answers_send(half, slots, sender, answer);
}

/// A send asks the queue as a submission of the packets that the datagram takes does. What
/// cannot be cut into packets is refused before the queue is asked.
pub proof fn law_a_send_is_a_submission_of_its_packets(
    half: SendHalf,
    data_len: usize,
    destination: SocketAddr,
    slots: Result<usize, IoError>,
    answer: Result<UdpSubmission, IoError>,
)
    requires
        call_ensures(udp_egress_slots, (data_len, &destination, half.mtu), slots),
        call_ensures(SendHalf::send_to, (&half, data_len, &destination), answer),
    ensures
        slots matches Ok(slots) ==> exists|sender: Option<Sender<IpPacket>>| #[trigger]
            answers_send(half, slots, sender, answer),
        slots matches Err(error) ==> (answer matches Err(refusal) && refusal.kind == error.kind
            && refusal.message@ == error.message@),
{
    if slots is Ok {
        let n = slots->Ok_0;
        let sender = choose|sender: Option<Sender<IpPacket>>|
            #[trigger] channel::upgraded(half.egress_tx, sender) && udp::submits(
                sender,
                n,
                answer,
            );
        lemma_answers_send(half, n, sender, answer);
    }
}

/// What a sender of the queue comes to, as the queue answered.
proof fn lemma_answers_send(
    half: SendHalf,
    slots: usize,
    sender: Option<Sender<IpPacket>>,
    answer: Result<UdpSubmission, IoError>,
)
    requires
        channel::upgraded(half.egress_tx, sender),
        udp::submits(sender, slots, answer),
    ensures
        answers_send(half, slots, sender, answer),
{
    if sender is Some && answer is Ok {
        let asked = answer->Ok_0.sender;
        assert(channel::egress_rooms(asked).last() == channel::egress_rooms(asked).last());
    }
}

/// Whether waiting makes sense is asked of the queue as well: it is closed exactly where it
/// had no sender to give, and otherwise waiting makes sense exactly where the queue was made
/// for as many packets.
pub proof fn law_waiting_makes_sense_for_what_the_queue_was_made_for(
    half: SendHalf,
    slots: usize,
    checked: Result<Sender<IpPacket>, IoError>,
)
    requires
        call_ensures(SendHalf::check_queue, (&half, slots), checked),
    ensures
        exists|sender: Option<Sender<IpPacket>>|
            {
                &&& #[trigger] channel::upgraded(half.egress_tx, sender)
                &&& sender is None <==> (checked matches Err(error) && error.kind
                    == ErrorKind::BrokenPipe)
                &&& sender is None ==> checked->Err_0.message@ == "lwIP egress queue is closed"@
                &&& sender matches Some(sender) ==> {
                    &&& checked is Ok <==> slots <= channel::egress_limit(sender)
                    &&& checked matches Ok(given) ==> given == sender
                    &&& checked matches Err(error) ==> error.kind == ErrorKind::InvalidInput
                        && error.message@ == refusal(slots, channel::egress_limit(sender), 0)
                }
            },
{
    let sender = choose|sender: Option<Sender<IpPacket>>|
        #[trigger] channel::upgraded(half.egress_tx, sender) && udp::checks(
            sender,
            slots,
            checked,
        );
}

/// A datagram is admitted exactly where the queue was made for all of its packets and has
/// room for them now. It is invalid where the queue can never hold it, and would block where
/// it only cannot now; the messages tell the numbers.
pub proof fn law_a_datagram_is_admitted_where_all_of_it_fits(
    required: usize,
    limit: usize,
    free: usize,
    admitted: Result<(), IoError>,
    fits: Result<(), IoError>,
)
    requires
        call_ensures(admit_udp, (required, limit, free), admitted),
        call_ensures(fits_queue, (required, limit), fits),
    ensures
        admitted is Ok <==> required <= limit && required <= free,
        fits is Ok <==> required <= limit,
        required > limit ==> (admitted matches Err(error) && error.kind
            == ErrorKind::InvalidInput),
        free < required <= limit ==> (admitted matches Err(error) && error.kind
            == ErrorKind::WouldBlock),
        admitted matches Err(error) ==> error.message@ == refusal(required, limit, free),
        fits matches Err(error) ==> error.kind == ErrorKind::InvalidInput && error.message@
            == refusal(required, limit, free),
{
}

/// A sender is asked once how much room there is, and the datagram is admitted exactly where
/// that is enough, and the queue was made for as much. Nothing is put into the queue.
pub proof fn law_the_room_that_was_answered_decides(
    sender: &mut Sender<IpPacket>,
    required: usize,
    admitted: Result<(), IoError>,
)
    requires
        call_ensures(send_udp, (sender, required), admitted),
    ensures
        ({
            let rooms = channel::egress_rooms(*final(sender));
            &&& rooms.len() == channel::egress_rooms(*old(sender)).len() + 1
            &&& rooms.drop_last() == channel::egress_rooms(*old(sender))
            &&& admitted is Ok <==> required <= rooms.last() && required
                <= channel::egress_limit(*old(sender))
            &&& admitted matches Err(error) ==> error.message@ == refusal(
                required,
                channel::egress_limit(*old(sender)),
                rooms.last(),
            ) && error.kind == if required > channel::egress_limit(*old(sender)) {
                ErrorKind::InvalidInput
            } else {
                ErrorKind::WouldBlock
            }
        }),
        channel::egress_queue(*final(sender)) == channel::egress_queue(*old(sender)),
        channel::egress_put(*final(sender)) == channel::egress_put(*old(sender)),
{
    let rooms = channel::egress_rooms(*final(sender));
    assert(rooms.drop_last() =~= channel::egress_rooms(*old(sender)));
}

/// A submission through a sender is taken exactly where the room that the sender answers is
/// enough and its queue was made for as much. It is closed exactly where there is no sender.
pub proof fn law_a_submission_is_taken_where_it_fits(
    sender: Option<Sender<IpPacket>>,
    slots: usize,
    answer: Result<UdpSubmission, IoError>,
    checked: Result<Sender<IpPacket>, IoError>,
)
    requires
        call_ensures(submit_through, (sender, slots), answer),
        call_ensures(check_through, (sender, slots), checked),
    ensures
        sender is None <==> (answer matches Err(error) && error.kind == ErrorKind::BrokenPipe),
        sender is None <==> (checked matches Err(error) && error.kind == ErrorKind::BrokenPipe),
        sender is None ==> answer->Err_0.message@ == "lwIP egress queue is closed"@
            && checked->Err_0.message@ == "lwIP egress queue is closed"@,
        sender matches Some(sender) ==> {
            &&& checked is Ok <==> slots <= channel::egress_limit(sender)
            &&& checked matches Ok(given) ==> given == sender
            &&& checked matches Err(error) ==> error.kind == ErrorKind::InvalidInput
                && error.message@ == refusal(slots, channel::egress_limit(sender), 0)
            &&& exists|asked: Sender<IpPacket>|
                {
                    let rooms = #[trigger] channel::egress_rooms(asked);
                    &&& channel::egress_queue(asked) == channel::egress_queue(sender)
                    &&& rooms == channel::egress_rooms(sender).push(rooms.last())
                    &&& answer is Ok <==> slots <= channel::egress_limit(sender) && slots
                        <= rooms.last()
                    &&& answer matches Ok(submission) ==> submission.sender == asked
                        && submission.slots == slots
                    &&& answer matches Err(error) ==> error.message@ == refusal(
                        slots,
                        channel::egress_limit(sender),
                        rooms.last(),
                    ) && error.kind == if slots > channel::egress_limit(sender) {
                        ErrorKind::InvalidInput
                    } else {
                        ErrorKind::WouldBlock
                    }
                }
        },
{
    if sender is Some && answer is Ok {
        let asked = answer->Ok_0.sender;
        assert(channel::egress_rooms(asked).last() == channel::egress_rooms(asked).last());
    }
}

/// A datagram went out exactly where the stack answered that all is well. A broken pipe is
/// reported exactly where the stack aborted, and the message tells the answer.
pub proof fn law_the_answer_of_the_stack_is_the_outcome(code: i8, outcome: Result<(), IoError>)
    requires
        call_ensures(udp_sent, (code,), outcome),
    ensures
        outcome is Ok <==> code == 0,
        outcome matches Err(error) ==> {
            &&& error.kind == ErrorKind::BrokenPipe <==> code == -13
            &&& error.kind == ErrorKind::Other <==> code != -13
            &&& error.message@ == "udp_sendto error: "@ + text::signed_decimal(code as int)
        },
{
}

/// A waiting send begins with the packets that its datagram takes, and in the modes that it is
/// given. What cannot be cut into packets is refused.
pub proof fn law_a_waiting_send_begins_with_its_packets(
    half: SendHalf,
    data_len: usize,
    destination: SocketAddr,
    reserve_mode: WindowsUdpReserveMode,
    send_gate_mode: WindowsUdpSendGateMode,
    slots: Result<usize, IoError>,
    wait: Result<SendWait, IoError>,
    given: Result<SendWait, IoError>,
)
    requires
        call_ensures(udp_egress_slots, (data_len, &destination, half.mtu), slots),
        call_ensures(SendHalf::send_to_wait, (&half, data_len, &destination), wait),
        call_ensures(
            SendHalf::send_to_wait_with_runtime_modes,
            (&half, data_len, &destination, reserve_mode, send_gate_mode),
            given,
        ),
    ensures
        slots is Ok <==> wait is Ok,
        slots is Ok <==> given is Ok,
        wait matches Ok(wait) ==> {
            &&& wait.slots == slots->Ok_0
            &&& wait.reserve_mode == half.reserve_mode
            &&& wait.send_gate_mode == half.send_gate_mode
            &&& wait.phase == SendPhase::Start
        },
        given matches Ok(given) ==> {
            &&& given.slots == slots->Ok_0
            &&& given.reserve_mode == reserve_mode
            &&& given.send_gate_mode == send_gate_mode
            &&& given.phase == SendPhase::Start
        },
        slots matches Err(error) ==> {
            &&& wait matches Err(refusal)
            &&& refusal.kind == error.kind
            &&& refusal.message@ == error.message@
        },
{
}

/// A waiting send makes an attempt at once, or lines up first, by its mode; when it is its
/// turn it checks the queue; then it makes an attempt, or waits for room first, by its mode;
/// and room that was waited for leads to an attempt. An attempt that would block goes one step
/// back: to lining up, to waiting for room, or to the check. It is over with an attempt that
/// does not have to be made again, with a check that fails, or with a queue that is closed, and
/// reports exactly that.
pub proof fn law_a_waiting_send_goes_step_by_step(
    wait: &mut SendWait,
    event: SendEvent,
    action: SendAction,
)
    requires
        match event {
            SendEvent::Sent(_) => old(wait).phase == SendPhase::FastSend || old(wait).phase
                == SendPhase::TryFirst || old(wait).phase == SendPhase::AfterReserve,
            _ => true,
        },
        call_ensures(SendWait::next, (wait, event), action),
    ensures
        final(wait).slots == old(wait).slots,
        final(wait).reserve_mode == old(wait).reserve_mode,
        final(wait).send_gate_mode == old(wait).send_gate_mode,
        final(wait).phase == SendPhase::Over <==> action is Finish,
        final(wait).phase == SendPhase::Gate <==> action is LockGate,
        final(wait).phase == SendPhase::Check <==> action is CheckQueue,
        final(wait).phase == SendPhase::Reserving <==> action is Reserve,
        match event {
            SendEvent::Started => if old(wait).send_gate_mode == WindowsUdpSendGateMode::Always {
                action is LockGate
            } else {
                action is TrySend && final(wait).phase == SendPhase::FastSend
            },
            SendEvent::GateLocked => action is CheckQueue,
            SendEvent::QueueChecked(Err(error)) => action == SendAction::Finish(Err(error)),
            SendEvent::QueueChecked(Ok(())) => if old(wait).reserve_mode
                == WindowsUdpReserveMode::Always {
                action is Reserve
            } else {
                action is TrySend && final(wait).phase == SendPhase::TryFirst
            },
            SendEvent::Reserved(true) => action is TrySend && final(wait).phase
                == SendPhase::AfterReserve,
            SendEvent::Reserved(false) => action matches SendAction::Finish(Err(error))
                && error.kind == ErrorKind::BrokenPipe && error.message@
                == "lwIP egress queue is closed"@,
            SendEvent::Sent(sent) => if sent matches Err(error) && error.kind
                == ErrorKind::WouldBlock {
                match old(wait).phase {
                    SendPhase::FastSend => action is LockGate,
                    SendPhase::TryFirst => action is Reserve,
                    _ => action is CheckQueue,
                }
            } else {
                action == SendAction::Finish(sent)
            },
        },
{
}

} // verus!
