use lwip::addr::{IpAddr, SocketAddr};
use lwip::err::{ERR_CONN, ERR_MEM, ERR_OK, ERR_RTE};
use lwip::io::{ErrorKind, IoError, Poll};
use lwip::output::output;
use lwip::packet::PacketPools;
use lwip::shard::{tcp_runtime_stats, ShardState, Shards};
use lwip::stack::{NetStack, StackEgress, StackIngress};
use lwip::tcp_stream_context::TcpRuntimeStats;
use lwip::tcp_stream_impl::{
    close_needs_abort, tcp_err_cb, tcp_poll_cb, tcp_recv_cb, tcp_sent_cb, PcbTeardown, ReadPoll,
    ReceivedChain, RecvCallback, TcpStreamImpl, WriteStep, TCP_POLL_INTERVAL,
};
use lwip::text::RawSetting;

/// Wakers are numbers here.
type Shard = ShardState<u32>;

fn addr(a: u8, b: u8, c: u8, d: u8, port: u16) -> SocketAddr {
    SocketAddr::new(IpAddr::V4(u32::from_be_bytes([a, b, c, d])), port)
}

fn open(shard: &mut Shard, ctx: u64) -> TcpStreamImpl {
    TcpStreamImpl::new(
        0x1000 + ctx as usize,
        ctx,
        shard.id,
        addr(10, 0, 0, 2, 50_000),
        addr(203, 0, 113, 1, 443),
        &mut shard.tcp,
        &mut shard.tcp_stats,
    )
}

fn receive(shard: &mut Shard, ctx: u64, head: usize, nodes: Vec<Vec<u8>>) -> RecvCallback<u32> {
    tcp_recv_cb(
        &mut shard.tcp,
        &mut shard.tcp_stats,
        Some(ctx),
        Some(ReceivedChain { head, nodes }),
    )
}

fn fin(shard: &mut Shard, ctx: u64) -> RecvCallback<u32> {
    tcp_recv_cb(&mut shard.tcp, &mut shard.tcp_stats, Some(ctx), None)
}

fn read(shard: &mut Shard, stream: &mut TcpStreamImpl, waker: u32, capacity: usize) -> ReadPoll {
    stream.poll_read(&mut shard.tcp, &mut shard.tcp_stats, waker, false, capacity)
}

fn ready(read: &ReadPoll) -> bool {
    matches!(read.outcome, Poll::Ready(Ok(())))
}

fn failed_with(outcome: &Poll<Result<(), IoError>>, kind: ErrorKind) -> bool {
    matches!(outcome, Poll::Ready(Err(error)) if error.kind == kind)
}

fn credit(read: &ReadPoll) -> usize {
    read.recved.iter().map(|call| usize::from(*call)).sum()
}

/// A write against exhausted shared memory parks.
fn park(shard: &mut Shard, stream: &TcpStreamImpl, len: usize, waker: u32) -> bool {
    match stream.poll_write(&mut shard.tcp, len, 65535, waker) {
        WriteStep::Submit { len, waker } => matches!(
            stream.poll_write_submitted(&mut shard.tcp, len, ERR_MEM, waker),
            Poll::Pending
        ),
        WriteStep::Done(_) => false,
    }
}

#[test]
fn foreign_ack_wakes_writer_parked_on_shared_pool_exhaustion() {
    let mut shard: Shard = ShardState::new(0);
    let victim = open(&mut shard, 1);
    assert!(
        park(&mut shard, &victim, 4096, 7),
        "a write against an exhausted segment pool must park"
    );

    assert!(shard.tcp.register(2, addr(127, 0, 0, 1, 9999)));
    let answer = tcp_sent_cb(&mut shard.tcp, 2);
    assert_eq!(answer.code, ERR_OK);
    assert_eq!(answer.wake, None);
    assert_eq!(
        answer.wake_parked,
        Some(7),
        "the freed capacity never reached the parked writer"
    );
    assert_eq!(tcp_sent_cb(&mut shard.tcp, 2).wake_parked, None);
}

#[test]
fn drop_removes_the_stream_from_the_pressure_queue() {
    let mut shard: Shard = ShardState::new(0);
    let victim = open(&mut shard, 1);
    assert!(park(&mut shard, &victim, 4096, 7));
    assert_eq!(shard.tcp.pressure_queue_len_locked(), 1);

    let teardown = victim.teardown(&mut shard.tcp, &mut shard.tcp_stats);
    assert_eq!(teardown.pcb, PcbTeardown::Abort);
    assert!(teardown.wakes.is_empty());
    assert_eq!(shard.tcp.pressure_queue_len_locked(), 0);

    assert!(shard.tcp.register(2, addr(127, 0, 0, 1, 9999)));
    assert_eq!(tcp_sent_cb(&mut shard.tcp, 2).wake_parked, None);
}

#[test]
fn poll_flush_defers_transient_output_errors() {
    let mut shard: Shard = ShardState::new(0);
    let stream = open(&mut shard, 1);
    let wrote = match stream.poll_write(&mut shard.tcp, 512, 65535, 3) {
        WriteStep::Submit { len, waker } => {
            stream.poll_write_submitted(&mut shard.tcp, len, ERR_OK, waker)
        }
        WriteStep::Done(poll) => poll,
    };
    assert!(matches!(wrote, Poll::Ready(Ok(512))), "got {wrote:?}");

    assert!(stream.poll_flush(&shard.tcp).is_ok());
    let flush = stream.poll_flush_sent(ERR_RTE);
    assert!(
        matches!(flush, Poll::Ready(Ok(()))),
        "a deferred transmission is not a stream error, got {flush:?}"
    );
}

#[test]
fn tcp_sent_consumes_the_registered_write_waker() {
    let mut shard: Shard = ShardState::new(0);
    assert!(shard.tcp.register(5, addr(127, 0, 0, 1, 1234)));
    shard.tcp.contexts.get_mut(&5).unwrap().write_waker = Some(11);

    let wakes: Vec<u32> = (0..2)
        .filter_map(|_| tcp_sent_cb(&mut shard.tcp, 5).wake)
        .collect();

    assert_eq!(wakes.len(), 1);
    assert!(shard.tcp.contexts[&5].write_waker.is_none());
}

#[test]
fn read_window_credit_is_granted_on_the_next_poll() {
    let mut shard: Shard = ShardState::new(0);
    let mut stream = open(&mut shard, 1);
    for head in 0..2 {
        receive(&mut shard, 1, 100 + head, vec![vec![0u8; 1000]]);
    }

    let first = read(&mut shard, &mut stream, 1, 4096);
    assert!(ready(&first));
    assert_eq!(first.delivered.len(), 2000);
    assert_eq!(credit(&first), 0, "credit must not be granted in the same poll");

    let second = read(&mut shard, &mut stream, 1, 4096);
    assert!(matches!(second.outcome, Poll::Pending));
    assert_eq!(
        credit(&second),
        2000,
        "the next poll's locked phase grants the deferred credit"
    );
}

#[test]
fn chained_pbuf_delivery_survives_partial_reads() {
    const FIRST: usize = 1100;
    const SECOND: usize = 900;
    let mut shard: Shard = ShardState::new(0);
    let mut stream = open(&mut shard, 1);
    let mut expected = Vec::with_capacity(FIRST + SECOND);
    expected.extend((0..FIRST).map(|i| (i % 251) as u8));
    expected.extend((0..SECOND).map(|i| (i.wrapping_mul(7) % 253) as u8));
    receive(
        &mut shard,
        1,
        100,
        vec![expected[..FIRST].to_vec(), expected[FIRST..].to_vec()],
    );

    let mut delivered = Vec::new();
    loop {
        let poll = read(&mut shard, &mut stream, 1, 700);
        match poll.outcome {
            Poll::Ready(Ok(())) if poll.delivered.is_empty() => break,
            Poll::Ready(Ok(())) => delivered.extend_from_slice(&poll.delivered),
            Poll::Pending => break,
            other => panic!("unexpected poll result: {other:?}"),
        }
        if delivered.len() >= expected.len() {
            break;
        }
    }
    assert_eq!(delivered.len(), expected.len());
    assert_eq!(delivered, expected, "handoff must not reorder or corrupt");
}

#[test]
fn handed_off_chains_are_returned_on_next_poll_and_teardown() {
    let mut shards: Shards<u32> = Shards::new();
    let baseline = tcp_runtime_stats(&shards);
    let mut stream = open(shards.get_mut(0).unwrap(), 1);

    receive(shards.get_mut(0).unwrap(), 1, 100, vec![vec![0u8; 640]]);
    let after_first = tcp_runtime_stats(&shards);
    assert_eq!(after_first.queued_packets, baseline.queued_packets + 1);
    assert_eq!(after_first.queued_bytes, baseline.queued_bytes + 640);

    let first = read(shards.get_mut(0).unwrap(), &mut stream, 1, 4096);
    assert!(ready(&first));
    assert_eq!(first.delivered.len(), 640);
    assert!(first.freed.is_empty());
    let second = read(shards.get_mut(0).unwrap(), &mut stream, 1, 4096);
    assert_eq!(second.freed, vec![100]);
    let after_return = tcp_runtime_stats(&shards);
    assert_eq!(after_return.queued_packets, baseline.queued_packets);
    assert_eq!(after_return.queued_bytes, baseline.queued_bytes);

    receive(shards.get_mut(0).unwrap(), 1, 101, vec![vec![0u8; 512]]);
    receive(shards.get_mut(0).unwrap(), 1, 102, vec![vec![0u8; 256]]);
    let shard = shards.get_mut(0).unwrap();
    let teardown = stream.teardown(&mut shard.tcp, &mut shard.tcp_stats);
    assert_eq!(teardown.freed, vec![101, 102]);
    let after_drop = tcp_runtime_stats(&shards);
    assert_eq!(after_drop.queued_packets, baseline.queued_packets);
    assert_eq!(after_drop.queued_bytes, baseline.queued_bytes);
    assert_eq!(after_drop.active_streams, baseline.active_streams);
}

#[test]
fn payload_is_read_before_fin_becomes_sticky_eof() {
    let mut shards: Shards<u32> = Shards::new();
    let payload = [0xabu8; 1_400];
    let mut stream = open(shards.get_mut(0).unwrap(), 50_000);
    receive(shards.get_mut(0).unwrap(), 50_000, 1, vec![payload.to_vec()]);
    fin(shards.get_mut(0).unwrap(), 50_000);

    let first = read(shards.get_mut(0).unwrap(), &mut stream, 1, payload.len() * 2);
    assert!(ready(&first), "payload read failed");
    assert_eq!(first.delivered.len(), payload.len());
    assert_eq!(first.delivered, payload);
    assert_eq!(tcp_runtime_stats(&shards).queued_packets, 0);
    assert_eq!(tcp_runtime_stats(&shards).queued_bytes, 0);

    let first_eof = read(shards.get_mut(0).unwrap(), &mut stream, 1, payload.len() * 2);
    let second_eof = read(shards.get_mut(0).unwrap(), &mut stream, 1, payload.len() * 2);
    assert!(ready(&first_eof) && ready(&second_eof));
    assert_eq!(first_eof.delivered.len(), 0);
    assert_eq!(second_eof.delivered.len(), 0);
}

#[test]
fn one_large_read_drains_all_queued_packets_and_counters() {
    const SEGMENT_BYTES: usize = 1_400;
    const SEGMENTS: usize = 4;
    let mut shards: Shards<u32> = Shards::new();
    let mut stream = open(shards.get_mut(0).unwrap(), 50_005);
    for index in 0..SEGMENTS {
        let payload = vec![index as u8; SEGMENT_BYTES];
        receive(shards.get_mut(0).unwrap(), 50_005, index + 1, vec![payload]);
    }
    let queued = tcp_runtime_stats(&shards);
    assert_eq!(queued.queued_packets, SEGMENTS);
    assert_eq!(queued.queued_bytes, SEGMENTS * SEGMENT_BYTES);

    let received = read(
        shards.get_mut(0).unwrap(),
        &mut stream,
        1,
        SEGMENTS * SEGMENT_BYTES,
    );
    assert_eq!(received.delivered.len(), SEGMENTS * SEGMENT_BYTES);
    for (index, segment) in received.delivered.chunks_exact(SEGMENT_BYTES).enumerate() {
        assert!(segment.iter().all(|byte| *byte == index as u8));
    }

    let drained = tcp_runtime_stats(&shards);
    assert_eq!(drained.queued_packets, 0);
    assert_eq!(drained.queued_bytes, 0);
}

#[test]
fn remote_fin_is_sticky_eof() {
    let mut shard: Shard = ShardState::new(0);
    let mut stream = open(&mut shard, 50_001);
    fin(&mut shard, 50_001);
    let first = read(&mut shard, &mut stream, 1, 1);
    assert!(ready(&first), "first EOF read failed");
    assert_eq!(first.delivered.len(), 0);
    let second = read(&mut shard, &mut stream, 1, 1);
    assert!(ready(&second), "EOF must remain ready on every subsequent read");
    assert_eq!(second.delivered.len(), 0);
}

#[test]
fn remote_fin_is_not_a_queued_packet() {
    let mut shards: Shards<u32> = Shards::new();
    let stream = open(shards.get_mut(0).unwrap(), 50_002);
    assert_eq!(tcp_runtime_stats(&shards).queued_packets, 0);
    fin(shards.get_mut(0).unwrap(), 50_002);
    let after_fin = tcp_runtime_stats(&shards);
    assert_eq!(after_fin.queued_packets, 0);
    assert_eq!(after_fin.queued_bytes, 0);
    let shard = shards.get_mut(0).unwrap();
    stream.teardown(&mut shard.tcp, &mut shard.tcp_stats);
}

#[test]
fn partial_read_continues_into_the_next_queued_packet() {
    const SEGMENT_BYTES: usize = 1_400;
    let mut shard: Shard = ShardState::new(0);
    let mut stream = open(&mut shard, 50_003);
    receive(&mut shard, 50_003, 1, vec![vec![0x11u8; SEGMENT_BYTES]]);
    receive(&mut shard, 50_003, 2, vec![vec![0x22u8; SEGMENT_BYTES]]);

    let first = read(&mut shard, &mut stream, 1, 1);
    assert_eq!(first.delivered, [0x11]);

    let rest = SEGMENT_BYTES * 2 - 1;
    let remaining = read(&mut shard, &mut stream, 1, rest).delivered;
    assert_eq!(
        remaining.len(),
        rest,
        "a ready packet after a partial packet must fill the caller's remaining capacity"
    );
    assert!(remaining[..SEGMENT_BYTES - 1].iter().all(|byte| *byte == 0x11));
    assert!(remaining[SEGMENT_BYTES - 1..].iter().all(|byte| *byte == 0x22));
}

#[test]
fn rst_wakes_a_pending_reader() {
    let mut shard: Shard = ShardState::new(0);
    let mut stream = open(&mut shard, 50_004);
    let pending = read(&mut shard, &mut stream, 9, 1);
    assert!(matches!(pending.outcome, Poll::Pending));

    let answer = tcp_err_cb(&mut shard.tcp, 50_004);
    assert_eq!(answer.wake_read, Some(9), "RST did not wake the pending reader");
    let error = read(&mut shard, &mut stream, 9, 1);
    assert!(
        failed_with(&error.outcome, ErrorKind::BrokenPipe),
        "RST must fail the pending read"
    );
}

#[test]
fn accepted_tcp_write_is_not_reported_as_failed_when_egress_is_full() {
    let mut shard: Shard = ShardState::new(0);
    let stream = open(&mut shard, 20_001);
    let data = b"accepted-before-output-pressure";
    let (len, waker) = match stream.poll_write(&mut shard.tcp, data.len(), 65535, 1) {
        WriteStep::Submit { len, waker } => (len, waker),
        WriteStep::Done(poll) => panic!("unexpected {poll:?}"),
    };
    shard.mark_egress_backpressured();
    let wrote = stream.poll_write_submitted(&mut shard.tcp, len, ERR_OK, waker);
    assert!(
        matches!(wrote, Poll::Ready(Ok(n)) if n == data.len()),
        "tcp_write accepted bytes must not be reported as failed"
    );
    assert!(shard.take_backpressure());
    assert!(!shard.take_backpressure());
}

/// A stack object for one of the shards, split.
fn lane(shards: &mut Shards<u32>, id: usize, pools: &mut PacketPools) -> (StackIngress, StackEgress) {
    let plan = NetStack::new_sharded(id, 8, 8, 1500).unwrap();
    NetStack::build(plan, id + 1, RawSetting::Unset, shards.get_mut(id).unwrap(), pools).split()
}

/// Writes to a stream, whose stack puts each accepted write out as one frame.
fn write(
    shard: &mut Shard,
    stream: &TcpStreamImpl,
    ingress: &mut StackIngress,
    pools: &mut PacketPools,
    data: &[u8],
) -> usize {
    let (len, waker) = match stream.poll_write(&mut shard.tcp, data.len(), 65535, 9) {
        WriteStep::Submit { len, waker } => (len, waker),
        WriteStep::Done(poll) => panic!("unexpected {poll:?}"),
    };
    let frame = &data[..usize::from(len)];
    let code = output(shard, Some(&mut ingress.stack), pools, len, frame);
    match stream.poll_write_submitted(&mut shard.tcp, len, code, waker) {
        Poll::Ready(Ok(accepted)) => accepted,
        other => panic!("unexpected {other:?}"),
    }
}

#[test]
fn the_telemetry_is_what_all_live_streams_add_up_to() {
    let mut shards: Shards<u32> = Shards::new();
    let mut first = open(shards.get_mut(0).unwrap(), 1);
    let second = open(shards.get_mut(0).unwrap(), 2);
    let third = open(shards.get_mut(2).unwrap(), 1);
    receive(shards.get_mut(0).unwrap(), 1, 1, vec![vec![1; 10], vec![2; 5]]);
    receive(shards.get_mut(0).unwrap(), 1, 2, vec![vec![3; 7]]);
    receive(shards.get_mut(0).unwrap(), 2, 3, vec![vec![4; 20]]);
    receive(shards.get_mut(2).unwrap(), 1, 4, vec![vec![5; 100]]);
    let show = |shards: &Shards<u32>| {
        let stats = tcp_runtime_stats(shards);
        (stats.active_streams, stats.queued_packets, stats.queued_bytes)
    };
    assert_eq!(show(&shards), (3, 4, 142));
    read(shards.get_mut(0).unwrap(), &mut first, 1, 16);
    assert_eq!(show(&shards), (3, 3, 127));
    let stack = shards.get_mut(0).unwrap();
    second.teardown(&mut stack.tcp, &mut stack.tcp_stats);
    assert_eq!(show(&shards), (2, 2, 107));
    let stack = shards.get_mut(2).unwrap();
    third.teardown(&mut stack.tcp, &mut stack.tcp_stats);
    assert_eq!(show(&shards), (1, 1, 7));
    let stack = shards.get_mut(0).unwrap();
    first.teardown(&mut stack.tcp, &mut stack.tcp_stats);
    assert_eq!(show(&shards), (0, 0, 0));
}

#[test]
fn new_stacks_have_no_streams() {
    let shards: Shards<u32> = Shards::new();
    for shard in &shards.shards {
        assert!(shard.tcp.contexts.is_empty());
        assert!(shard.tcp.parked.is_empty());
    }
}

#[test]
fn two_shards_emit_their_own_replies() {
    let mut shards: Shards<u32> = Shards::new();
    let mut pools = PacketPools::new();
    let (mut ingress0, mut egress0) = lane(&mut shards, 0, &mut pools);
    let (mut ingress3, mut egress3) = lane(&mut shards, 3, &mut pools);
    let stream0 = open(shards.get_mut(0).unwrap(), 1);
    let stream3 = open(shards.get_mut(3).unwrap(), 1);
    for round in 0..8u8 {
        let shard0 = shards.get_mut(0).unwrap();
        write(shard0, &stream0, &mut ingress0, &mut pools, &[0, round]);
        let shard3 = shards.get_mut(3).unwrap();
        write(shard3, &stream3, &mut ingress3, &mut pools, &[3, round, round]);
    }
    let idle = shards.get_mut(3).unwrap();
    assert!(!idle.egress_backpressured);
    let shard0 = shards.get_mut(0).unwrap();
    let code = output(shard0, Some(&mut ingress0.stack), &mut pools, 1, &[0]);
    assert_eq!(code, ERR_MEM);
    assert!(shards.get(0).unwrap().egress_backpressured);
    assert!(!shards.get(3).unwrap().egress_backpressured);
    for round in 0..8u8 {
        assert_eq!(egress0.rx.try_recv().unwrap().as_ref(), &[0, round]);
        assert_eq!(egress3.rx.try_recv().unwrap().as_ref(), &[3, round, round]);
    }
    assert!(egress0.rx.try_recv().is_err() && egress3.rx.try_recv().is_err());
    let stats3 = ingress3.stack.output_pool_stats(&pools).unwrap();
    assert_eq!((stats3.allocations, stats3.returned), (8, 0));
}

#[test]
fn two_shards_carry_independent_tcp_connections_concurrently() {
    let mut shards: Shards<u32> = Shards::new();
    let mut stream0 = open(shards.get_mut(0).unwrap(), 40_001);
    let mut stream1 = open(shards.get_mut(1).unwrap(), 40_002);
    assert_eq!((stream0.shard_id, stream1.shard_id), (0, 1));
    let inbound0 = b"shard-zero-inbound".to_vec();
    let inbound1 = b"shard-one-inbound".to_vec();
    receive(shards.get_mut(0).unwrap(), 40_001, 1, vec![inbound0.clone()]);
    receive(shards.get_mut(1).unwrap(), 40_002, 1, vec![inbound1.clone()]);
    let crossed = receive(shards.get_mut(0).unwrap(), 40_002, 2, vec![vec![1]]);
    assert_eq!(crossed.code, ERR_CONN);

    let read0 = read(shards.get_mut(0).unwrap(), &mut stream0, 1, 4096);
    let read1 = read(shards.get_mut(1).unwrap(), &mut stream1, 1, 4096);
    assert_eq!(read0.delivered, inbound0, "shard 0 payload never reached the stream");
    assert_eq!(read1.delivered, inbound1, "shard 1 payload never reached the stream");

    let mut pools = PacketPools::new();
    let (mut ingress0, mut egress0) = lane(&mut shards, 0, &mut pools);
    let (mut ingress1, mut egress1) = lane(&mut shards, 1, &mut pools);
    let reply0 = b"shard-zero-outbound".as_slice();
    let reply1 = b"shard-one-outbound".as_slice();
    let shard0 = shards.get_mut(0).unwrap();
    assert_eq!(write(shard0, &stream0, &mut ingress0, &mut pools, reply0), reply0.len());
    let shard1 = shards.get_mut(1).unwrap();
    assert_eq!(write(shard1, &stream1, &mut ingress1, &mut pools, reply1), reply1.len());
    let emitted0 = egress0.rx.try_recv().expect("shard 0 never emitted its reply");
    let emitted1 = egress1.rx.try_recv().expect("shard 1 never emitted its reply");
    assert_eq!(emitted0.as_ref(), reply0, "shard 0 reply corrupted or crossed");
    assert_eq!(emitted1.as_ref(), reply1, "shard 1 reply corrupted or crossed");
    assert!(egress0.rx.try_recv().is_err() && egress1.rx.try_recv().is_err());
    assert_ne!(ingress0.stack.output_pool, ingress1.stack.output_pool);

    tcp_err_cb(&mut shards.get_mut(0).unwrap().tcp, 40_001);
    assert!(matches!(
        read(shards.get_mut(1).unwrap(), &mut stream1, 1, 4096).outcome,
        Poll::Pending
    ));
    assert_eq!(tcp_runtime_stats(&shards).active_streams, 2);
}

/// One connection that receives a window which nobody reads, and is then dropped.
/// Returns how many chains it kept.
fn one_unread_window(shards: &mut Shards<u32>, ctx: u64) -> i64 {
    const SEGMENT_BYTES: usize = 1_400;
    const SEGMENTS: usize = 32;

    let shard = shards.get_mut(0).unwrap();
    let stream = open(shard, ctx);
    for segment in 0..SEGMENTS {
        receive(shard, ctx, segment + 1, vec![vec![0x5au8; SEGMENT_BYTES]]);
    }
    let queued = tcp_runtime_stats(shards);
    assert_eq!(queued.active_streams, 1);
    assert_eq!(queued.queued_packets, SEGMENTS);
    assert_eq!(queued.queued_bytes, SEGMENTS * SEGMENT_BYTES);

    let shard = shards.get_mut(0).unwrap();
    let teardown = stream.teardown(&mut shard.tcp, &mut shard.tcp_stats);
    let released = tcp_runtime_stats(shards);
    assert_eq!(released.active_streams, 0);
    assert_eq!(released.queued_packets, 0);
    assert_eq!(released.queued_bytes, 0);
    SEGMENTS as i64 - teardown.freed.len() as i64
}

#[test]
fn dropping_unread_tcp_windows_has_zero_retention_slope() {
    const WARMUP: u64 = 100;
    const MEASURE: u64 = 2_000;
    const MAX_RETAINED_PER_CONNECTION: f64 = 0.02;

    let mut shards: Shards<u32> = Shards::new();
    for index in 0..WARMUP {
        one_unread_window(&mut shards, 10_000 + index);
    }
    let mut retained = 0;
    for index in 0..MEASURE {
        retained += one_unread_window(&mut shards, 20_000 + index);
    }
    let slope = retained as f64 / MEASURE as f64;
    assert!(
        slope < MAX_RETAINED_PER_CONNECTION,
        "dropping an unread stream retained {slope:.5} chains/connection"
    );
    assert!(shards.primary().tcp.contexts.is_empty());
}

#[test]
fn a_callback_without_a_context_is_refused() {
    let mut shard: Shard = ShardState::new(0);
    let chain = Some(ReceivedChain { head: 1, nodes: vec![vec![1]] });
    let answer = tcp_recv_cb(&mut shard.tcp, &mut shard.tcp_stats, None, chain);
    assert_eq!(answer.code, ERR_CONN);
    assert_eq!(answer.free, None);
    assert_eq!(receive(&mut shard, 3, 1, vec![vec![1]]).code, ERR_CONN);
    assert_eq!(shard.tcp_stats, TcpRuntimeStats::default());
}

#[test]
fn an_empty_chain_is_freed_at_once() {
    let mut shard: Shard = ShardState::new(0);
    let mut stream = open(&mut shard, 1);
    let answer = receive(&mut shard, 1, 44, vec![vec![], vec![]]);
    assert_eq!((answer.code, answer.free), (ERR_OK, Some(44)));
    assert_eq!(shard.tcp_stats.queued_packets, 0);
    assert!(matches!(
        read(&mut shard, &mut stream, 1, 10).outcome,
        Poll::Pending
    ));
}

#[test]
fn empty_buffers_inside_a_chain_are_skipped() {
    let mut shard: Shard = ShardState::new(0);
    let mut stream = open(&mut shard, 1);
    receive(&mut shard, 1, 44, vec![vec![], vec![1, 2], vec![], vec![3]]);
    assert_eq!(read(&mut shard, &mut stream, 1, 2).delivered, [1, 2]);
    assert_eq!(read(&mut shard, &mut stream, 1, 2).delivered, [3]);
    assert_eq!(shard.tcp_stats.queued_packets, 0);
}

#[test]
fn a_chain_that_ends_in_empty_buffers_is_spent_with_its_last_byte() {
    let mut shard: Shard = ShardState::new(0);
    let mut stream = open(&mut shard, 1);
    receive(&mut shard, 1, 44, vec![vec![], vec![1, 2], vec![], vec![]]);
    assert_eq!(shard.tcp_stats.queued_packets, 1);
    assert_eq!(read(&mut shard, &mut stream, 1, 2).delivered, [1, 2]);
    assert_eq!(shard.tcp_stats.queued_packets, 0);
    assert_eq!(shard.tcp_stats.queued_bytes, 0);
    let next = read(&mut shard, &mut stream, 5, 2);
    assert!(matches!(next.outcome, Poll::Pending), "there is neither a byte nor an end");
    assert_eq!(next.freed, vec![44]);
    assert_eq!(credit(&next), 2);
    assert_eq!(fin(&mut shard, 1).wake, Some(5));
}

#[test]
fn a_waiting_reader_is_woken_by_data_and_by_the_end() {
    let mut shard: Shard = ShardState::new(0);
    let mut stream = open(&mut shard, 1);
    read(&mut shard, &mut stream, 5, 10);
    let kept = stream.poll_read(&mut shard.tcp, &mut shard.tcp_stats, 6, true, 10);
    assert!(matches!(kept.outcome, Poll::Pending));
    assert_eq!(receive(&mut shard, 1, 1, vec![vec![1]]).wake, Some(5));
    assert_eq!(receive(&mut shard, 1, 2, vec![vec![2]]).wake, None);
    assert_eq!(read(&mut shard, &mut stream, 7, 10).delivered, [1, 2]);
    read(&mut shard, &mut stream, 8, 10);
    assert_eq!(fin(&mut shard, 1).wake, Some(8));
}

#[test]
fn credit_is_granted_in_calls_that_the_stack_can_take() {
    let mut shard: Shard = ShardState::new(0);
    let mut stream = open(&mut shard, 1);
    for head in 0..3 {
        receive(&mut shard, 1, head, vec![vec![0u8; 60_000]]);
    }
    assert_eq!(read(&mut shard, &mut stream, 1, 200_000).delivered.len(), 180_000);
    let next = read(&mut shard, &mut stream, 1, 1);
    assert_eq!(next.recved, vec![65535, 65535, 48930]);
    assert_eq!(next.freed, vec![0, 1, 2]);
}

#[test]
fn a_read_of_nothing_leaves_everything() {
    let mut shard: Shard = ShardState::new(0);
    let mut stream = open(&mut shard, 1);
    receive(&mut shard, 1, 1, vec![vec![1, 2, 3]]);
    let empty = read(&mut shard, &mut stream, 1, 0);
    assert!(ready(&empty));
    assert!(empty.delivered.is_empty());
    assert_eq!(read(&mut shard, &mut stream, 1, 9).delivered, [1, 2, 3]);
}

#[test]
fn an_errored_stream_fails_every_operation() {
    let mut shard: Shard = ShardState::new(0);
    let mut stream = open(&mut shard, 1);
    receive(&mut shard, 1, 1, vec![vec![1]]);
    read(&mut shard, &mut stream, 1, 9);
    tcp_err_cb(&mut shard.tcp, 1);
    let failed = read(&mut shard, &mut stream, 1, 9);
    assert!(failed_with(&failed.outcome, ErrorKind::BrokenPipe));
    assert_eq!(failed.freed, vec![1]);
    assert!(failed.recved.is_empty());
    assert!(matches!(
        stream.poll_write(&mut shard.tcp, 1, 1, 1),
        WriteStep::Done(Poll::Ready(Err(error))) if error.message == "broken pipe"
    ));
    assert_eq!(stream.poll_flush(&shard.tcp).unwrap_err().kind, ErrorKind::BrokenPipe);
    assert_eq!(stream.poll_shutdown(&shard.tcp).unwrap_err().kind, ErrorKind::BrokenPipe);
    let teardown = stream.teardown(&mut shard.tcp, &mut shard.tcp_stats);
    assert_eq!(teardown.pcb, PcbTeardown::Gone);
}

#[test]
fn writes_are_clamped_and_wait_for_room() {
    let mut shard: Shard = ShardState::new(0);
    let stream = open(&mut shard, 1);
    for (buf_len, send_buf, expected) in [(10, 100, 10), (100, 10, 10), (70_000, 80_000, 65535)] {
        match stream.poll_write(&mut shard.tcp, buf_len, send_buf, 1) {
            WriteStep::Submit { len, .. } => assert_eq!(len, expected),
            WriteStep::Done(poll) => panic!("unexpected {poll:?}"),
        }
    }
    assert!(matches!(
        stream.poll_write(&mut shard.tcp, 10, 0, 6),
        WriteStep::Done(Poll::Pending)
    ));
    assert_eq!(tcp_poll_cb(&mut shard.tcp, 1), Some(6));
    assert_eq!(tcp_poll_cb(&mut shard.tcp, 1), None);
    let error = stream.poll_write_submitted(&mut shard.tcp, 5, -6, 1);
    assert!(matches!(
        error,
        Poll::Ready(Err(error))
            if error.kind == ErrorKind::Interrupted && error.message == "netstack tcp_write error -6"
    ));
}

#[test]
fn a_shut_down_stream_is_closed_and_not_aborted() {
    let mut shard: Shard = ShardState::new(0);
    let stream = open(&mut shard, 1);
    assert!(stream.poll_shutdown(&shard.tcp).is_ok());
    assert!(matches!(
        stream.poll_shutdown_sent(&mut shard.tcp, -11),
        Poll::Ready(Err(error)) if error.message == "netstack tcp_shutdown tx error -11"
    ));
    assert!(matches!(
        stream.poll_shutdown_sent(&mut shard.tcp, ERR_OK),
        Poll::Ready(Ok(()))
    ));
    let teardown = stream.teardown(&mut shard.tcp, &mut shard.tcp_stats);
    assert_eq!(teardown.pcb, PcbTeardown::Close);
    assert!(!close_needs_abort(ERR_OK));
    assert!(close_needs_abort(ERR_MEM));
    assert_eq!(TCP_POLL_INTERVAL, 8);
}

#[test]
fn freed_memory_goes_to_the_longest_parked_writer_that_waits() {
    let mut shard: Shard = ShardState::new(0);
    let streams: Vec<TcpStreamImpl> = (1..=4).map(|ctx| open(&mut shard, ctx)).collect();
    for (stream, waker) in streams.iter().zip([10, 20, 30, 40]) {
        assert!(park(&mut shard, stream, 100, waker));
        assert!(park(&mut shard, stream, 100, waker));
    }
    assert_eq!(shard.tcp.pressure_queue_len_locked(), 4);
    assert_eq!(tcp_poll_cb(&mut shard.tcp, 1), Some(10));
    let answer = tcp_sent_cb(&mut shard.tcp, 3);
    assert_eq!(answer.wake, Some(30));
    assert_eq!(answer.wake_parked, Some(20));
    assert_eq!(shard.tcp.pressure_queue_len_locked(), 2);
    let answer = tcp_err_cb(&mut shard.tcp, 1);
    assert_eq!(answer.wake_parked, vec![40]);
    assert_eq!(shard.tcp.pressure_queue_len_locked(), 0);
}

#[test]
fn a_teardown_wakes_every_parked_writer() {
    let mut shard: Shard = ShardState::new(0);
    let streams: Vec<TcpStreamImpl> = (1..=3).map(|ctx| open(&mut shard, ctx)).collect();
    for (stream, waker) in streams.iter().zip([10, 20, 30]) {
        assert!(park(&mut shard, stream, 100, waker));
    }
    let mut streams = streams.into_iter();
    let first = streams.next().unwrap();
    let teardown = first.teardown(&mut shard.tcp, &mut shard.tcp_stats);
    assert_eq!(teardown.wakes, vec![20, 30]);
    assert_eq!(shard.tcp_stats.active_streams, 2);
    assert!(!shard.tcp.contexts.contains_key(&1));
}

#[test]
fn a_teardown_gives_back_chains_in_every_state() {
    let mut shard: Shard = ShardState::new(0);
    let mut stream = open(&mut shard, 1);
    for head in [1, 2, 3] {
        receive(&mut shard, 1, head, vec![vec![0u8; 10]]);
    }
    read(&mut shard, &mut stream, 1, 15);
    receive(&mut shard, 1, 4, vec![vec![0u8; 10]]);
    assert_eq!(shard.tcp_stats.queued_packets, 3);
    assert_eq!(shard.tcp_stats.queued_bytes, 30);
    let teardown = stream.teardown(&mut shard.tcp, &mut shard.tcp_stats);
    assert_eq!(teardown.freed, vec![3, 2, 1, 4]);
    assert_eq!(shard.tcp_stats, TcpRuntimeStats::default());
}

#[test]
fn endpoints_are_those_of_the_connection() {
    let mut shard: Shard = ShardState::new(2);
    let stream = open(&mut shard, 1);
    assert_eq!(stream.local_addr(), addr(10, 0, 0, 2, 50_000));
    assert_eq!(stream.remote_addr(), addr(203, 0, 113, 1, 443));
    assert_eq!(stream.shard_id, 2);
    assert!(!shard.tcp.register(1, addr(1, 1, 1, 1, 1)));
    assert!(!addr(1, 1, 1, 1, 1).is_ipv6());
    assert!(SocketAddr::new(IpAddr::V6(1), 1).is_ipv6());
}

#[test]
fn a_timer_tick_frees_parked_chains_and_wakes_every_parked_writer() {
    let mut shard: Shard = ShardState::new(0);
    let streams: Vec<TcpStreamImpl> = (1..=2).map(|ctx| open(&mut shard, ctx)).collect();
    for (stream, waker) in streams.iter().zip([10, 20]) {
        assert!(park(&mut shard, stream, 100, waker));
    }
    shard.park_pbuf_lease(7);
    shard.park_pbuf_lease(5);
    let tick = shard.timer_tick();
    assert_eq!((tick.freed, tick.wakes), (vec![7, 5], vec![10, 20]));
    let idle = shard.timer_tick();
    assert!(idle.freed.is_empty() && idle.wakes.is_empty());
    assert!(park(&mut shard, &streams[0], 100, 30));
}
