use lwip::addr::{IpAddr, SocketAddr};
use lwip::channel::{RecvOutcome, SendOutcome, UdpPkt};
use lwip::err::{ERR_ABRT, ERR_BUF, ERR_MEM, ERR_OK};
use lwip::error::Error;
use lwip::io::{ErrorKind, IoError, Poll as LinkPoll};
use lwip::output::{output, output_settled};
use lwip::packet::{packet_pool_runtime_stats, IpPacket, PacketPools, PbufLease, PbufTail};
use lwip::shard::ShardState;
use lwip::stack::{NetStack, StackEgress, StackIngress};
use lwip::text::RawSetting;
use lwip::udp::{
    admit_udp, check_through, default_udp_runtime_config, enqueue_settled, parse_windows_udp_notify_mode,
    parse_windows_udp_reserve_mode, parse_windows_udp_send_gate_mode, receive_step, send_udp, submit_through,
    udp_egress_slots, udp_runtime_stats, udp_sent, ReceiveStep, RecvHalf, SendAction, SendEvent,
    SendHalf, UdpRuntimeStats, UdpSocket, WindowsUdpNotifyMode, WindowsUdpReserveMode,
    WindowsUdpRuntimeConfig, WindowsUdpSendGateMode,
};
use std::future::{poll_fn, Future};
use std::sync::atomic::{AtomicUsize, Ordering};
use std::sync::{Arc, Mutex};
use std::task::{Context, Poll, Wake, Waker};
use tokio::sync::mpsc::Sender;
use tokio::sync::Mutex as AsyncMutex;
use tokio::time::{timeout, Duration};

const CLIENT_IP: [u8; 4] = [10, 0, 0, 2];
const CLIENT_PORT: u16 = 40000;
const FOREIGN_IP: [u8; 4] = [203, 0, 113, 9];
const FOREIGN_PORT: u16 = 5353;

fn v4(ip: [u8; 4], port: u16) -> SocketAddr {
    SocketAddr::new(IpAddr::V4(u32::from_be_bytes(ip)), port)
}

fn ip_bytes(addr: &SocketAddr) -> [u8; 4] {
    match addr.ip {
        IpAddr::V4(ip) => ip.to_be_bytes(),
        IpAddr::V6(_) => panic!("the wire carries IPv4 alone"),
    }
}

/// A frame that carries `payload` as one UDP datagram over IPv4.
fn udp_frame(src: &SocketAddr, dst: &SocketAddr, payload: &[u8]) -> Vec<u8> {
    let total = 28 + payload.len();
    let mut frame = vec![0u8; total];
    frame[0] = 0x45;
    frame[2..4].copy_from_slice(&(total as u16).to_be_bytes());
    frame[8] = 64;
    frame[9] = 17;
    frame[12..16].copy_from_slice(&ip_bytes(src));
    frame[16..20].copy_from_slice(&ip_bytes(dst));
    frame[20..22].copy_from_slice(&src.port.to_be_bytes());
    frame[22..24].copy_from_slice(&dst.port.to_be_bytes());
    frame[24..26].copy_from_slice(&((8 + payload.len()) as u16).to_be_bytes());
    frame[28..].copy_from_slice(payload);
    frame
}

/// The stack side of a test: what holds the lock, and a wire that fragments.
struct Link {
    shard: ShardState<Waker>,
    pools: PacketPools,
    ingress: StackIngress,
    mtu: usize,
}

impl Link {
    fn emit(&mut self, frame: &[u8]) -> i8 {
        output(
            &mut self.shard,
            Some(&mut self.ingress.stack),
            &mut self.pools,
            frame.len() as u16,
            frame,
        )
    }

    fn sendto(&mut self, src: &SocketAddr, dst: &SocketAddr, payload: &[u8]) -> i8 {
        let frame = udp_frame(src, dst, payload);
        if frame.len() <= self.mtu {
            return self.emit(&frame);
        }
        let transport = &frame[20..];
        let each = (self.mtu - 20) / 8 * 8;
        for (index, part) in transport.chunks(each).enumerate() {
            let offset = index * each;
            let more = offset + part.len() < transport.len();
            let mut fragment = frame[..20].to_vec();
            fragment[2..4].copy_from_slice(&((20 + part.len()) as u16).to_be_bytes());
            let flags = (offset / 8) as u16 | if more { 0x2000 } else { 0 };
            fragment[6..8].copy_from_slice(&flags.to_be_bytes());
            fragment.extend_from_slice(part);
            let code = self.emit(&fragment);
            if code != ERR_OK {
                return code;
            }
        }
        ERR_OK
    }

    /// Takes frames in, and returns the datagrams that go to a handler.
    fn input(
        &mut self,
        frames: Vec<Vec<u8>>,
        half: &mut RecvHalf<Waker>,
        stats: &mut UdpRuntimeStats,
    ) -> Vec<UdpPkt> {
        let mut handled = Vec::new();
        for frame in self.ingress.input_batch(frames) {
            let ip = |at: usize| u32::from_be_bytes(frame[at..at + 4].try_into().unwrap());
            let port = |at: usize| u16::from_be_bytes([frame[at], frame[at + 1]]);
            let src = SocketAddr::new(IpAddr::V4(ip(12)), port(20));
            let dst = SocketAddr::new(IpAddr::V4(ip(16)), port(22));
            let payload = &frame[28..];
            let socket = &mut half.socket;
            if socket.direct_ingress {
                let len = payload.len() as u16;
                handled.extend(socket.udp_recv_direct_cb(&mut self.pools, len, payload, src, dst));
            } else {
                let len = payload.len() as u16;
                if socket.udp_recv_cb(stats, &mut self.pools, len, payload, src, dst) {
                    socket.waker.as_ref().unwrap().wake_by_ref();
                }
            }
        }
        handled
    }
}

/// The sending side of a test.
#[derive(Clone)]
struct Path {
    link: Arc<Mutex<Link>>,
    half: Arc<SendHalf>,
    gate: Arc<AsyncMutex<()>>,
    reservations: Arc<AtomicUsize>,
    gate_locks: Arc<AtomicUsize>,
}

impl Path {
    fn send_to(&self, data: &[u8], src: &SocketAddr, dst: &SocketAddr) -> Result<(), IoError> {
        let mut link = self.link.lock().unwrap();
        let _submission = self.half.send_to(data.len(), dst)?;
        udp_sent(link.sendto(src, dst, data))
    }

    fn attempt(
        &self,
        sender: Option<&mut Sender<IpPacket>>,
        slots: usize,
        data: &[u8],
        src: &SocketAddr,
        dst: &SocketAddr,
    ) -> Result<(), IoError> {
        let mut link = self.link.lock().unwrap();
        match sender {
            Some(sender) => {
                send_udp(sender, slots)?;
                udp_sent(link.sendto(src, dst, data))
            }
            None => {
                let _submission = self.half.try_submit(slots)?;
                udp_sent(link.sendto(src, dst, data))
            }
        }
    }

    async fn send_in_modes(
        &self,
        data: &[u8],
        src: &SocketAddr,
        dst: &SocketAddr,
        reserve: WindowsUdpReserveMode,
        gate: WindowsUdpSendGateMode,
    ) -> Result<(), IoError> {
        let mut wait =
            self.half.send_to_wait_with_runtime_modes(data.len(), dst, reserve, gate)?;
        let mut turn = None;
        let mut sender = None;
        let mut action = wait.next(SendEvent::Started);
        loop {
            let event = match action {
                SendAction::TrySend => {
                    SendEvent::Sent(self.attempt(sender.as_mut(), wait.slots, data, src, dst))
                }
                SendAction::LockGate => {
                    self.gate_locks.fetch_add(1, Ordering::Relaxed);
                    turn = Some(self.gate.lock().await);
                    SendEvent::GateLocked
                }
                SendAction::CheckQueue => {
                    assert!(turn.is_some());
                    match self.half.check_queue(wait.slots) {
                        Ok(open) => {
                            sender = Some(open);
                            SendEvent::QueueChecked(Ok(()))
                        }
                        Err(error) => SendEvent::QueueChecked(Err(error)),
                    }
                }
                SendAction::Reserve => {
                    self.reservations.fetch_add(1, Ordering::Relaxed);
                    let open = sender.as_ref().unwrap().reserve_many(wait.slots).await.is_ok();
                    SendEvent::Reserved(open)
                }
                SendAction::Finish(outcome) => return outcome,
            };
            action = wait.next(event);
        }
    }

    async fn send_to_wait(
        &self,
        data: &[u8],
        src: &SocketAddr,
        dst: &SocketAddr,
    ) -> Result<(), IoError> {
        self.send_in_modes(data, src, dst, self.half.reserve_mode, self.half.send_gate_mode).await
    }

    async fn send_reserving(
        &self,
        data: &[u8],
        src: &SocketAddr,
        dst: &SocketAddr,
        reserve: WindowsUdpReserveMode,
    ) -> Result<(), IoError> {
        self.send_in_modes(data, src, dst, reserve, WindowsUdpSendGateMode::Always).await
    }

    fn counted(&self) -> (usize, usize) {
        (self.reservations.load(Ordering::Relaxed), self.gate_locks.load(Ordering::Relaxed))
    }
}

fn open(stack_buffer: usize, udp_buffer: usize) -> (Path, RecvHalf<Waker>, StackEgress) {
    let mut shard = ShardState::new(0);
    let mut pools = PacketPools::new();
    let plan = NetStack::with_buffer_size(stack_buffer, udp_buffer);
    let stack = NetStack::build(plan, 1, RawSetting::Unset, &mut shard, &mut pools);
    let socket = UdpSocket::new(
        77,
        ERR_OK,
        plan.udp_buffer_size,
        stack.stack.egress_sender(),
        plan.mtu,
        0,
        default_udp_runtime_config(),
        &mut pools,
    )
    .unwrap();
    let (half, recv) = socket.split();
    let (ingress, egress) = stack.split();
    let path = Path {
        link: Arc::new(Mutex::new(Link { shard, pools, ingress, mtu: usize::from(plan.mtu) })),
        half: Arc::new(half),
        gate: Arc::new(AsyncMutex::new(())),
        reservations: Arc::new(AtomicUsize::new(0)),
        gate_locks: Arc::new(AtomicUsize::new(0)),
    };
    (path, recv, egress)
}

async fn leave(egress: &mut StackEgress) -> Vec<u8> {
    let mut packet = egress.rx.recv().await.unwrap();
    assert!(egress.recv(&mut packet, &Vec::new()).is_none());
    packet.as_ref().to_vec()
}

async fn recv_from(half: &mut RecvHalf<Waker>) -> Result<UdpPkt, IoError> {
    let datagram = poll_fn(|cx| {
        if !half.socket.reads_queue() {
            return Poll::Pending;
        }
        let polled = match half.socket.rx.poll_recv(cx) {
            Poll::Ready(datagram) => LinkPoll::Ready(datagram),
            Poll::Pending => LinkPoll::Pending,
        };
        match half.socket.poll_windows_udp_receiver(polled, cx.waker().clone()) {
            LinkPoll::Ready(datagram) => Poll::Ready(datagram),
            LinkPoll::Pending => Poll::Pending,
        }
    })
    .await;
    RecvHalf::<Waker>::recv_from(datagram)
}

fn run<F: Future>(future: F) -> F::Output {
    tokio::runtime::Builder::new_current_thread()
        .enable_time()
        .build()
        .unwrap()
        .block_on(future)
}

fn endpoints() -> (SocketAddr, SocketAddr) {
    (v4(FOREIGN_IP, FOREIGN_PORT), v4(CLIENT_IP, CLIENT_PORT))
}

#[test]
fn windows_udp_runtime_axis_parsers_are_strict_and_use_supported_defaults() {
    assert_eq!(
        parse_windows_udp_notify_mode(RawSetting::Unset).unwrap(),
        WindowsUdpNotifyMode::Legacy
    );
    assert_eq!(
        parse_windows_udp_notify_mode(RawSetting::Text("legacy")).unwrap(),
        WindowsUdpNotifyMode::Legacy
    );
    assert_eq!(
        parse_windows_udp_notify_mode(RawSetting::Text("mpsc")).unwrap(),
        WindowsUdpNotifyMode::Mpsc
    );
    assert_eq!(
        parse_windows_udp_reserve_mode(RawSetting::Unset).unwrap(),
        WindowsUdpReserveMode::OnBlock
    );
    assert_eq!(
        parse_windows_udp_reserve_mode(RawSetting::Text("always")).unwrap(),
        WindowsUdpReserveMode::Always
    );
    assert_eq!(
        parse_windows_udp_reserve_mode(RawSetting::Text("on-block")).unwrap(),
        WindowsUdpReserveMode::OnBlock
    );
    assert_eq!(
        parse_windows_udp_send_gate_mode(RawSetting::Unset).unwrap(),
        WindowsUdpSendGateMode::Always
    );
    assert_eq!(
        parse_windows_udp_send_gate_mode(RawSetting::Text("always")).unwrap(),
        WindowsUdpSendGateMode::Always
    );
    assert_eq!(
        parse_windows_udp_send_gate_mode(RawSetting::Text("on-block")).unwrap(),
        WindowsUdpSendGateMode::OnBlock
    );

    for invalid in ["", "Legacy", "mpsc ", "manual", "0"] {
        assert!(
            parse_windows_udp_notify_mode(RawSetting::Text(invalid)).is_err(),
            "{invalid:?} must be rejected"
        );
    }
    for invalid in ["", "Always", "on_block", "never", "0"] {
        assert!(
            parse_windows_udp_reserve_mode(RawSetting::Text(invalid)).is_err(),
            "{invalid:?} must be rejected"
        );
        assert!(
            parse_windows_udp_send_gate_mode(RawSetting::Text(invalid)).is_err(),
            "{invalid:?} must be rejected"
        );
    }

    assert!(parse_windows_udp_notify_mode(RawSetting::NotUnicode).is_err());
    assert!(parse_windows_udp_reserve_mode(RawSetting::NotUnicode).is_err());
    assert!(parse_windows_udp_send_gate_mode(RawSetting::NotUnicode).is_err());
}

#[test]
fn modes_have_the_names_that_select_them() {
    for mode in [WindowsUdpNotifyMode::Legacy, WindowsUdpNotifyMode::Mpsc] {
        assert_eq!(parse_windows_udp_notify_mode(RawSetting::Text(mode.as_str())), Ok(mode));
    }
    for mode in [WindowsUdpReserveMode::Always, WindowsUdpReserveMode::OnBlock] {
        assert_eq!(parse_windows_udp_reserve_mode(RawSetting::Text(mode.as_str())), Ok(mode));
    }
    for mode in [WindowsUdpSendGateMode::Always, WindowsUdpSendGateMode::OnBlock] {
        assert_eq!(parse_windows_udp_send_gate_mode(RawSetting::Text(mode.as_str())), Ok(mode));
    }
    assert_eq!(
        parse_windows_udp_notify_mode(RawSetting::NotUnicode).unwrap_err(),
        "value must be valid UTF-8"
    );
    assert_eq!(
        parse_windows_udp_notify_mode(RawSetting::Text("0")).unwrap_err(),
        "value must be legacy or mpsc, got \"0\""
    );
}

struct WakeCounter(AtomicUsize);

impl Wake for WakeCounter {
    fn wake(self: Arc<Self>) {
        self.0.fetch_add(1, Ordering::Relaxed);
    }

    fn wake_by_ref(self: &Arc<Self>) {
        self.0.fetch_add(1, Ordering::Relaxed);
    }
}

fn udp_packet(value: u8) -> UdpPkt {
    (
        IpPacket::from(vec![value]),
        v4([192, 0, 2, 1], 1000),
        v4([198, 51, 100, 2], 2000),
    )
}

/// A socket without a stack, whose reads and writes are counted by a waker.
struct Bench {
    socket: UdpSocket<Waker>,
    pools: PacketPools,
    stats: UdpRuntimeStats,
    counter: Arc<WakeCounter>,
    waker: Waker,
}

impl Bench {
    fn new(buffer: usize, notify: WindowsUdpNotifyMode) -> Self {
        let mut pools = PacketPools::new();
        let (egress_tx, _egress_rx) = tokio::sync::mpsc::channel(1);
        let modes = WindowsUdpRuntimeConfig { notify, ..default_udp_runtime_config() };
        let socket =
            UdpSocket::new(1, ERR_OK, buffer, egress_tx.downgrade(), 1500, 0, modes, &mut pools)
                .unwrap();
        let counter = Arc::new(WakeCounter(AtomicUsize::new(0)));
        let waker = Waker::from(Arc::clone(&counter));
        Bench { socket, pools, stats: UdpRuntimeStats::default(), counter, waker }
    }

    fn poll(&mut self) -> bool {
        let mut context = Context::from_waker(&self.waker);
        let polled = match self.socket.rx.poll_recv(&mut context) {
            Poll::Ready(datagram) => LinkPoll::Ready(datagram),
            Poll::Pending => LinkPoll::Pending,
        };
        matches!(
            self.socket.poll_windows_udp_receiver(polled, self.waker.clone()),
            LinkPoll::Pending
        )
    }

    fn enqueue(&mut self, value: u8) {
        let notify = self.socket.enqueue_windows_udp_packet(
            udp_packet(value),
            &mut self.stats,
            &mut self.pools,
        );
        if notify {
            self.socket.waker.as_ref().unwrap().wake_by_ref();
        }
    }

    fn wakes(&self) -> usize {
        self.counter.0.load(Ordering::Relaxed)
    }
}

#[test]
fn mpsc_notify_removes_only_the_redundant_wake_and_preserves_fifo_and_drop() {
    for (mode, expected_wakes) in
        [(WindowsUdpNotifyMode::Legacy, 9), (WindowsUdpNotifyMode::Mpsc, 1)]
    {
        let mut bench = Bench::new(8, mode);
        assert!(bench.poll());
        for value in 0..8 {
            bench.enqueue(value);
        }
        assert_eq!(bench.wakes(), expected_wakes);
        assert_eq!(udp_runtime_stats(&bench.stats).ingress_queue_drops, 0);
        for expected in 0..8 {
            assert_eq!(bench.socket.rx.try_recv().unwrap().0.as_ref(), &[expected]);
        }
    }

    let mut bench = Bench::new(1, WindowsUdpNotifyMode::Mpsc);
    assert!(bench.poll());
    assert!(bench.socket.waker.is_none());
    bench.enqueue(1);
    bench.enqueue(2);

    assert_eq!(bench.wakes(), 1);
    assert_eq!(bench.stats.ingress_queue_drops, 1);
    assert_eq!(bench.socket.rx.try_recv().unwrap().0.as_ref(), &[1]);
    assert!(matches!(
        bench.socket.rx.try_recv(),
        Err(tokio::sync::mpsc::error::TryRecvError::Empty)
    ));
    let (_tx, other) = tokio::sync::mpsc::channel(1);
    drop(std::mem::replace(&mut bench.socket.rx, other));
    bench.enqueue(3);
    assert_eq!(bench.wakes(), 1);
    assert_eq!(bench.stats.ingress_queue_drops, 1);
}

#[test]
fn direct_flow_ingress_bypasses_the_relay_queue_and_preserves_the_packet() {
    let (path, mut recv_half, _egress) = open(1, 1);
    let source = v4([192, 0, 2, 1], 1000);
    let destination = v4([198, 51, 100, 2], 2000);
    recv_half.set_windows_direct_ingress_handler().unwrap();

    let frames = [7u8, 23, 91].map(|value| udp_frame(&source, &destination, &[value]));
    let mut stats = UdpRuntimeStats::default();
    let seen = path.link.lock().unwrap().input(frames.to_vec(), &mut recv_half, &mut stats);
    assert_eq!(seen.len(), 3);
    assert_eq!(
        seen.iter().map(|packet| packet.0.as_ref()[0]).collect::<Vec<_>>(),
        [7, 23, 91]
    );
    for packet in seen.iter() {
        assert_eq!(packet.1, source);
        assert_eq!(packet.2, destination);
    }
    assert_eq!(stats.ingress_queue_drops, 0);
    assert!(recv_half.try_recv_from().unwrap().is_none());
    assert_eq!(recv_half.try_recv_many(&mut Vec::new(), 8).unwrap(), 0);
    let error = recv_half.set_windows_direct_ingress_handler().unwrap_err();
    assert_eq!(error.kind, ErrorKind::AlreadyExists);
    assert_eq!(error.message, "lwIP UDP direct ingress handler is already configured");
}

#[test]
fn on_block_send_gate_locks_only_after_the_fast_send_would_block() {
    run(async {
        let source = v4([198, 51, 100, 2], 2000);
        let destination = v4([192, 0, 2, 1], 1000);
        let (path, _recv_half, mut egress) = open(1, 1);
        let reserve = WindowsUdpReserveMode::OnBlock;
        let gate = WindowsUdpSendGateMode::OnBlock;

        path.send_in_modes(b"fast", &source, &destination, reserve, gate).await.unwrap();
        assert_eq!(path.counted(), (0, 0));
        assert_eq!(&leave(&mut egress).await[28..], b"fast");

        path.send_to(b"fill", &source, &destination).unwrap();
        let mut send_task =
            Box::pin(path.send_in_modes(b"blocked", &source, &destination, reserve, gate));
        assert!(timeout(Duration::from_millis(10), &mut send_task).await.is_err());
        assert_eq!(path.counted(), (1, 1));
        assert_eq!(&leave(&mut egress).await[28..], b"fill");
        timeout(Duration::from_secs(1), &mut send_task).await.unwrap().unwrap();
        assert_eq!(&leave(&mut egress).await[28..], b"blocked");
    });
}

#[test]
fn on_block_reserve_counts_only_real_waits_and_preserves_send_behavior() {
    run(async {
        let source = v4([198, 51, 100, 2], 2000);
        let destination = v4([192, 0, 2, 1], 1000);
        let on_block = WindowsUdpReserveMode::OnBlock;
        let always = WindowsUdpReserveMode::Always;

        // An empty queue needs no reservation in on-block mode, while the
        // always mode performs exactly one.
        let (path, _recv_half, mut egress) = open(1, 1);
        path.send_reserving(b"on-block-empty", &source, &destination, on_block).await.unwrap();
        assert_eq!(path.counted().0, 0);
        assert_eq!(&leave(&mut egress).await[28..], b"on-block-empty".as_slice());
        path.send_reserving(b"always-empty", &source, &destination, always).await.unwrap();
        assert_eq!(path.counted().0, 1);
        assert_eq!(&leave(&mut egress).await[28..], b"always-empty".as_slice());

        // A full queue makes on-block perform one real reservation and resume
        // in order once there is room.
        let (path, _recv_half, mut egress) = open(1, 1);
        path.send_to(b"first", &source, &destination).unwrap();
        let task_path = path.clone();
        let send_task = tokio::spawn(async move {
            task_path.send_reserving(b"second", &source, &destination, on_block).await
        });
        tokio::task::yield_now().await;
        assert!(!send_task.is_finished());
        assert_eq!(path.counted().0, 1);
        assert_eq!(&leave(&mut egress).await[28..], b"first");
        timeout(Duration::from_secs(1), send_task).await.unwrap().unwrap().unwrap();
        assert_eq!(&leave(&mut egress).await[28..], b"second");

        // A fragmented datagram can take all available slots directly in
        // on-block mode, while always still reserves all three.
        let (path, _recv_half, mut egress) = open(3, 1);
        let payload = vec![0x5a; 3000];
        path.send_reserving(&payload, &source, &destination, on_block).await.unwrap();
        assert_eq!(path.counted().0, 0);
        for expected_offset in [0, 1480, 2960] {
            let fragment = leave(&mut egress).await;
            let flags_offset = u16::from_be_bytes([fragment[6], fragment[7]]);
            assert_eq!(usize::from(flags_offset & 0x1fff) * 8, expected_offset);
        }
        path.send_reserving(&payload, &source, &destination, always).await.unwrap();
        assert_eq!(path.counted().0, 1);
        for _ in 0..3 {
            leave(&mut egress).await;
        }

        // A closed queue fails directly in on-block mode and through the
        // reservation in always mode.
        for (mode, expected_reservations) in [(on_block, 0), (always, 1)] {
            let (path, _recv_half, egress) = open(1, 1);
            drop(egress);
            let error =
                path.send_reserving(b"closed", &source, &destination, mode).await.unwrap_err();
            assert_eq!(error.kind, ErrorKind::BrokenPipe);
            assert_eq!(path.counted().0, expected_reservations);
        }
    });
}

#[test]
fn udp_catchall_delivers_and_replies_with_original_tuple() {
    run(async {
        let payload = b"udp-catchall-probe";
        let (path, mut recv_half, mut egress) = open(8, 8);
        let (expected_dst, expected_src) = endpoints();

        let mut stats = UdpRuntimeStats::default();
        let frame = udp_frame(&expected_src, &expected_dst, payload);
        let handled = path.link.lock().unwrap().input(vec![frame], &mut recv_half, &mut stats);
        assert!(handled.is_empty());
        let (packet, src, dst) = timeout(Duration::from_secs(1), recv_from(&mut recv_half))
            .await
            .expect("the socket never saw the datagram")
            .expect("udp socket closed before delivering the datagram");

        assert_eq!(packet.as_ref(), payload, "payload must survive the stack");
        assert_eq!(src, expected_src, "original source tuple must be preserved");
        assert_eq!(dst, expected_dst, "original destination tuple must be preserved");

        let reply_payload = b"udp-catchall-reply";
        path.send_to(reply_payload, &expected_dst, &expected_src)
            .expect("spoofed-source UDP reply send failed");
        let reply = timeout(Duration::from_secs(1), leave(&mut egress))
            .await
            .expect("lwIP did not emit the UDP reply");

        assert_eq!(reply[9], 17, "reply must be UDP");
        assert_eq!(&reply[12..16], &FOREIGN_IP, "reply source IP must be spoofed");
        assert_eq!(&reply[16..20], &CLIENT_IP, "reply must target the client");
        assert_eq!(
            u16::from_be_bytes([reply[20], reply[21]]),
            FOREIGN_PORT,
            "reply source port must be spoofed"
        );
        assert_eq!(
            u16::from_be_bytes([reply[22], reply[23]]),
            CLIENT_PORT,
            "reply destination port must be the client port"
        );
        assert_eq!(&reply[28..], reply_payload);
    });
}

#[test]
fn udp_send_reports_a_full_egress_queue_instead_of_silently_dropping() {
    let (path, _recv_half, _egress) = open(1, 1);
    let (source, destination) = endpoints();

    path.send_to(b"fills-egress", &source, &destination)
        .expect("the first datagram must occupy the only egress slot");
    let error = path
        .send_to(b"must-not-disappear", &source, &destination)
        .expect_err("a full egress queue must not report a dropped datagram as sent");

    assert_eq!(error.kind, ErrorKind::WouldBlock);
    assert_eq!(
        error.message,
        "UDP datagram requires 1 egress slots but only 0 are available"
    );
}

#[test]
fn fragmented_udp_send_is_atomic_when_egress_lacks_slots() {
    run(async {
        let (path, _recv_half, mut egress) = open(3, 1);
        let (source, destination) = endpoints();
        let payload = vec![0x5a; 3000];

        path.send_to(b"prefill", &source, &destination)
            .expect("the prefill datagram must occupy one egress slot");
        let error = path
            .send_to(&payload, &source, &destination)
            .expect_err("all fragments must wait until the bounded queue has enough slots");
        assert_eq!(error.kind, ErrorKind::WouldBlock);
        let prefill = timeout(Duration::from_secs(1), leave(&mut egress))
            .await
            .expect("the prefill datagram was not emitted");
        assert_eq!(&prefill[28..], b"prefill");
        assert!(
            timeout(Duration::from_millis(10), egress.rx.recv()).await.is_err(),
            "a failed atomic send must not leak an initial fragment"
        );
    });
}

#[test]
fn fragmented_udp_send_emits_every_fragment_in_order() {
    run(async {
        let (path, _recv_half, mut egress) = open(3, 1);
        let (source, destination) = endpoints();
        let payload = vec![0x5a; 3000];

        path.send_to_wait(&payload, &source, &destination)
            .await
            .expect("a three-slot queue must atomically accept all three fragments");

        let mut reassembled = vec![0u8; payload.len() + 8];
        for expected_index in 0..3 {
            let fragment = timeout(Duration::from_secs(1), leave(&mut egress))
                .await
                .expect("a UDP fragment was not emitted");
            let total_len = usize::from(u16::from_be_bytes([fragment[2], fragment[3]]));
            let flags_offset = u16::from_be_bytes([fragment[6], fragment[7]]);
            let offset = usize::from(flags_offset & 0x1fff) * 8;
            let more_fragments = flags_offset & 0x2000 != 0;
            assert_eq!(offset, expected_index * 1480);
            assert_eq!(more_fragments, expected_index < 2);
            reassembled[offset..offset + total_len - 20]
                .copy_from_slice(&fragment[20..total_len]);
        }

        assert_eq!(&reassembled[8..], payload.as_slice());
        assert_eq!(
            u16::from_be_bytes([reassembled[4], reassembled[5]]),
            (payload.len() + 8) as u16
        );
    });
}

#[test]
fn fragmented_udp_send_fails_when_one_datagram_exceeds_queue_capacity() {
    run(async {
        let (path, _recv_half, mut egress) = open(2, 1);
        let (source, destination) = endpoints();
        let payload = vec![0x5a; 3000];

        let error = timeout(
            Duration::from_secs(1),
            path.send_to_wait(&payload, &source, &destination),
        )
        .await
        .expect("an impossible reservation must fail instead of waiting forever")
        .expect_err("a two-slot queue cannot atomically hold three fragments");
        assert_eq!(error.kind, ErrorKind::InvalidInput);
        assert_eq!(
            error.message,
            "UDP datagram requires 3 egress slots but the queue capacity is 2"
        );
        assert!(
            timeout(Duration::from_millis(10), egress.rx.recv()).await.is_err(),
            "a rejected oversized reservation must not emit partial fragments"
        );
    });
}

#[test]
fn udp_send_waits_for_egress_capacity_and_preserves_order() {
    run(async {
        let (path, _recv_half, mut egress) = open(1, 1);
        let (source, destination) = endpoints();

        path.send_to(b"first", &source, &destination)
            .expect("the first datagram must occupy the only egress slot");
        let task_path = path.clone();
        let send_task = tokio::spawn(async move {
            task_path.send_to_wait(b"second", &source, &destination).await
        });
        tokio::task::yield_now().await;
        assert!(
            !send_task.is_finished(),
            "the second send must wait while the bounded egress queue is full"
        );

        let first = timeout(Duration::from_secs(1), leave(&mut egress))
            .await
            .expect("the first datagram was not emitted");
        assert_eq!(&first[28..], b"first");

        timeout(Duration::from_secs(1), send_task)
            .await
            .expect("the waiting send was not woken after capacity became available")
            .expect("the waiting send task panicked")
            .expect("the waiting send failed");
        let second = timeout(Duration::from_secs(1), leave(&mut egress))
            .await
            .expect("the second datagram was not emitted");
        assert_eq!(&second[28..], b"second");
    });
}

#[test]
fn udp_send_wait_returns_broken_pipe_when_egress_is_closed() {
    run(async {
        let (path, _recv_half, egress) = open(1, 1);
        drop(egress);
        let (source, destination) = endpoints();

        let error = path
            .send_to_wait(b"closed", &source, &destination)
            .await
            .expect_err("a closed egress queue must fail");
        assert_eq!(error.kind, ErrorKind::BrokenPipe);
        assert_eq!(error.message, "lwIP egress queue is closed");
    });
}

#[test]
fn a_send_after_the_stack_is_gone_is_a_broken_pipe() {
    let (egress_tx, _egress_rx) = tokio::sync::mpsc::channel(4);
    let mut pools = PacketPools::new();
    let socket: UdpSocket<Waker> = UdpSocket::new(
        5,
        ERR_OK,
        2,
        egress_tx.downgrade(),
        1500,
        2,
        default_udp_runtime_config(),
        &mut pools,
    )
    .unwrap();
    let (half, recv) = socket.split();
    assert_eq!((half.shard_id, half.pcb, half.mtu), (2, 5, 1500));
    drop(egress_tx);
    let (_, destination) = endpoints();
    assert_eq!(half.send_to(3, &destination).err().unwrap().kind, ErrorKind::BrokenPipe);
    assert_eq!(half.check_queue(1).err().unwrap().kind, ErrorKind::BrokenPipe);
    recv.socket.teardown(&mut pools);
    assert_eq!(packet_pool_runtime_stats(&mut pools).live_pools, 0);
}

#[test]
fn sockets_that_cannot_be_made_leave_no_pool_behind() {
    let mut pools = PacketPools::new();
    let (egress_tx, _egress_rx) = tokio::sync::mpsc::channel(1);
    for (pcb, code, expected) in [(0, ERR_OK, ERR_MEM), (9, -8, -8)] {
        let socket: Result<UdpSocket<Waker>, Error> = UdpSocket::new(
            pcb,
            code,
            1,
            egress_tx.downgrade(),
            1500,
            0,
            default_udp_runtime_config(),
            &mut pools,
        );
        assert!(matches!(socket.err(), Some(Error::LwIP(code)) if code == expected));
    }
    assert_eq!(packet_pool_runtime_stats(&mut pools).live_pools, 0);
}

#[test]
fn datagrams_take_the_fewest_slots() {
    let to_v4 = v4(CLIENT_IP, 1);
    let to_v6 = SocketAddr::new(IpAddr::V6(1), 1);
    for (len, destination, mtu, slots) in [
        (0, to_v4, 28, 1),
        (1472, to_v4, 1500, 1),
        (1473, to_v4, 1500, 2),
        (2952, to_v4, 1500, 2),
        (2953, to_v4, 1500, 3),
        (3000, to_v4, 1500, 3),
        (1, to_v4, 28, 2),
        (1452, to_v6, 1500, 1),
        (1453, to_v6, 1500, 2),
        (2456, to_v6, 1500, 2),
        (2457, to_v6, 1500, 3),
        (1225, to_v6, 1280, 1),
        (1233, to_v6, 1280, 2),
    ] {
        assert_eq!(udp_egress_slots(len, &destination, mtu).unwrap(), slots, "{len} {mtu}");
    }
}

#[test]
fn datagrams_that_cannot_be_cut_are_invalid() {
    let to_v4 = v4(CLIENT_IP, 1);
    let to_v6 = SocketAddr::new(IpAddr::V6(1), 1);
    for (len, destination, mtu, message) in [
        (usize::MAX, to_v4, 1500, "UDP datagram is too large"),
        (usize::MAX - 8, to_v4, 1500, "UDP datagram is too large"),
        (usize::MAX - 28, to_v4, 1500, "UDP datagram is too large"),
        (1, to_v4, 27, "MTU 27 is too small for UDP fragmentation"),
        (1, to_v4, 0, "MTU 0 is too small for UDP fragmentation"),
        (8, to_v6, 55, "MTU 55 is too small for UDP fragmentation"),
    ] {
        let error = udp_egress_slots(len, &destination, mtu).unwrap_err();
        assert_eq!((error.kind, error.message.as_str()), (ErrorKind::InvalidInput, message));
    }
    assert_eq!(udp_egress_slots(8, &to_v6, 56).unwrap(), 1);
    assert_eq!(udp_egress_slots(9, &to_v6, 56).unwrap(), 3);
}

#[test]
fn admission_is_all_or_nothing() {
    for required in 0..5 {
        for limit in 0..5 {
            for free in 0..=limit {
                let admitted = admit_udp(required, limit, free);
                assert_eq!(admitted.is_ok(), required <= free);
                if let Err(error) = admitted {
                    let too_many = required > limit;
                    assert_eq!(error.kind == ErrorKind::InvalidInput, too_many);
                    assert_eq!(error.kind == ErrorKind::WouldBlock, !too_many);
                }
            }
        }
    }
}

#[test]
fn codes_of_the_stack_become_errors() {
    assert!(udp_sent(ERR_OK).is_ok());
    let aborted = udp_sent(ERR_ABRT).unwrap_err();
    assert_eq!((aborted.kind, aborted.message.as_str()), (
        ErrorKind::BrokenPipe,
        "udp_sendto error: -13"
    ));
    let other = udp_sent(-4).unwrap_err();
    assert_eq!((other.kind, other.message.as_str()), (ErrorKind::Other, "udp_sendto error: -4"));
}

#[test]
fn a_batch_of_reads_ends_with_the_queue_and_fails_only_when_empty() {
    let mut bench = Bench::new(8, WindowsUdpNotifyMode::Legacy);
    for value in 0..5 {
        bench.enqueue(value);
    }
    let mut half = RecvHalf { socket: bench.socket };
    let mut buffer = vec![udp_packet(99)];
    assert_eq!(half.try_recv_many(&mut buffer, 3).unwrap(), 3);
    assert_eq!(half.try_recv_many(&mut buffer, 0).unwrap(), 0);
    assert_eq!(half.try_recv_from().unwrap().unwrap().0.as_ref(), &[3]);
    let (tx, _other) = tokio::sync::mpsc::channel(1);
    drop(std::mem::replace(&mut half.socket.tx, tx));
    assert_eq!(half.try_recv_many(&mut buffer, 9).unwrap(), 1);
    assert_eq!(
        buffer.iter().map(|packet| packet.0.as_ref()[0]).collect::<Vec<_>>(),
        [99, 0, 1, 2, 4]
    );
    let error = half.try_recv_many(&mut buffer, 1).unwrap_err();
    assert_eq!(error.kind, ErrorKind::BrokenPipe);
    assert_eq!(half.try_recv_from().unwrap_err().message, "lwIP UDP ingress queue is closed");
    assert_eq!(half.try_recv_many(&mut buffer, 0).unwrap(), 0);
    let ended = RecvHalf::<Waker>::recv_from(None).unwrap_err();
    assert_eq!(ended.message, "recv_from udp socket faied: tx closed");
    assert!(matches!(receive_step(RecvOutcome::Disconnected, 1), ReceiveStep::Stop));
    assert!(matches!(receive_step(RecvOutcome::Disconnected, 0), ReceiveStep::Fail(_)));
}

#[test]
fn dropped_datagrams_give_their_storage_back() {
    let mut bench = Bench::new(1, WindowsUdpNotifyMode::Legacy);
    let (src, dst) = endpoints();
    for value in 0..4u8 {
        bench.socket.udp_recv_cb(&mut bench.stats, &mut bench.pools, 1, &[value], src, dst);
    }
    assert_eq!(bench.stats.ingress_queue_drops, 3);
    let numbers = bench.pools.pool_stats(bench.socket.packet_pool).unwrap();
    assert_eq!((numbers.allocations, numbers.reuses, numbers.returned), (2, 2, 3));
    assert_eq!(numbers.cached, 1);

    let notify = bench.socket.udp_recv_cb(&mut bench.stats, &mut bench.pools, 2, &[1], src, dst);
    assert!(!notify);
    assert_eq!(bench.stats.ingress_queue_drops, 3);
    let mut stats = UdpRuntimeStats { ingress_queue_drops: u64::MAX };
    enqueue_settled(SendOutcome::Full(udp_packet(0)), &mut stats, &mut bench.pools);
    assert_eq!(stats.ingress_queue_drops, 0);
}

#[test]
fn output_answers_for_what_became_of_a_packet() {
    let (path, _recv_half, mut egress) = open(1, 1);
    let mut link = path.link.lock().unwrap();
    assert_eq!(link.emit(&[1, 2]), ERR_OK);
    assert!(!link.shard.egress_backpressured);
    assert_eq!(link.emit(&[3]), ERR_MEM);
    assert_eq!(egress.rx.try_recv().unwrap().as_ref(), &[1, 2]);
    assert_eq!(link.emit(&[1, 2]), ERR_OK);
    assert!(link.shard.egress_backpressured, "a later success does not undo the note");
    assert!(link.shard.take_backpressure());
    assert!(!link.shard.take_backpressure());
    let Link { shard, pools, ingress, .. } = &mut *link;
    assert_eq!(output(shard, Some(&mut ingress.stack), pools, 5, &[1]), ERR_BUF);
    assert_eq!(egress.rx.try_recv().unwrap().as_ref(), &[1, 2]);
    drop(egress);
    assert_eq!(output(shard, Some(&mut ingress.stack), pools, 1, &[1]), ERR_ABRT);
    assert!(!shard.egress_backpressured);
    shard.clear_output_hook(1);
    assert_eq!(output(shard, None, pools, 1, &[1]), ERR_ABRT);

    let mut owed = IpPacket::from(vec![1]);
    owed.set_tail(PbufTail::new(6, 0, Vec::new()));
    let answer = output_settled(shard, pools, SendOutcome::Full(owed));
    assert_eq!(answer.code, ERR_MEM);
    assert_eq!(answer.lease, Some(PbufLease { shard_id: 0, chain: 6 }));
}

#[test]
fn datagrams_come_out_as_they_went_in() {
    let mut bench = Bench::new(4, WindowsUdpNotifyMode::Legacy);
    for value in 0..6u8 {
        let src = v4([192, 0, 2, value], 1000 + u16::from(value));
        let dst = v4([198, 51, 100, value], 2000 + u16::from(value));
        bench.socket.udp_recv_cb(&mut bench.stats, &mut bench.pools, 2, &[value, 7], src, dst);
    }
    assert_eq!(bench.stats.ingress_queue_drops, 2, "the newer datagrams are dropped");
    let (_half, mut recv) = bench.socket.split();
    let mut taken = vec![recv.try_recv_from().unwrap().unwrap()];
    assert_eq!(recv.try_recv_many(&mut taken, 2).unwrap(), 2);
    assert_eq!(recv.try_recv_many(&mut taken, 9).unwrap(), 1);
    assert_eq!(recv.try_recv_many(&mut taken, 9).unwrap(), 0);
    assert!(recv.try_recv_from().unwrap().is_none());
    assert_eq!(taken.len(), 4);
    for (index, (packet, src, dst)) in taken.iter().enumerate() {
        let value = index as u8;
        assert_eq!(packet.as_ref(), &[value, 7]);
        assert_eq!(*src, v4([192, 0, 2, value], 1000 + u16::from(value)));
        assert_eq!(*dst, v4([198, 51, 100, value], 2000 + u16::from(value)));
    }
}

#[test]
fn frames_leave_whole_and_in_order() {
    let (path, _recv_half, mut egress) = open(2, 1);
    let mut link = path.link.lock().unwrap();
    let codes = [&[1u8, 1][..], &[2], &[3, 3, 3], &[4]].map(|frame| link.emit(frame));
    assert_eq!(codes, [ERR_OK, ERR_OK, ERR_MEM, ERR_MEM]);
    assert_eq!(egress.rx.try_recv().unwrap().as_ref(), &[1, 1]);
    assert_eq!(link.emit(&[5]), ERR_OK);
    assert_eq!(egress.rx.try_recv().unwrap().as_ref(), &[2]);
    assert_eq!(egress.rx.try_recv().unwrap().as_ref(), &[5]);
    assert!(egress.rx.try_recv().is_err());
    let pool = link.ingress.stack.output_pool;
    let numbers = link.pools.pool_stats(pool).unwrap();
    assert_eq!(numbers.returned - numbers.reuses, numbers.cached as u64);
}

#[test]
fn a_waiting_send_for_which_all_goes_well_is_soon_over() {
    let (path, _recv_half, _egress) = open(1, 1);
    let (_, destination) = endpoints();
    for (reserve, gate, expected) in [
        (WindowsUdpReserveMode::OnBlock, WindowsUdpSendGateMode::OnBlock, 2),
        (WindowsUdpReserveMode::Always, WindowsUdpSendGateMode::OnBlock, 2),
        (WindowsUdpReserveMode::OnBlock, WindowsUdpSendGateMode::Always, 4),
        (WindowsUdpReserveMode::Always, WindowsUdpSendGateMode::Always, 5),
    ] {
        let mut wait =
            path.half.send_to_wait_with_runtime_modes(1, &destination, reserve, gate).unwrap();
        let mut event = SendEvent::Started;
        let mut events = 0;
        let outcome = loop {
            events += 1;
            event = match wait.next(event) {
                SendAction::TrySend => SendEvent::Sent(Ok(())),
                SendAction::LockGate => SendEvent::GateLocked,
                SendAction::CheckQueue => SendEvent::QueueChecked(Ok(())),
                SendAction::Reserve => SendEvent::Reserved(true),
                SendAction::Finish(outcome) => break outcome,
            };
        };
        assert!(outcome.is_ok());
        assert_eq!(events, expected);
    }
}

#[test]
fn the_room_is_asked_for_at_every_attempt() {
    let (mut tx, mut rx) = tokio::sync::mpsc::channel(2);
    assert!(send_udp(&mut tx, 2).is_ok());
    tx.try_send(IpPacket::from(vec![1])).unwrap();
    let refused = send_udp(&mut tx, 2).unwrap_err();
    assert_eq!(refused.kind, ErrorKind::WouldBlock);
    assert_eq!(send_udp(&mut tx, 3).unwrap_err().kind, ErrorKind::InvalidInput);
    rx.try_recv().unwrap();
    assert!(send_udp(&mut tx, 2).is_ok());
}

#[test]
fn a_queue_without_senders_is_closed() {
    let (tx, _rx) = tokio::sync::mpsc::channel(2);
    let submission = submit_through(Some(tx.clone()), 2).unwrap();
    assert_eq!(submission.slots, 2);
    assert!(submission.sender.same_channel(&tx));
    assert!(check_through(Some(tx.clone()), 2).unwrap().same_channel(&tx));
    let large = check_through(Some(tx), 3).unwrap_err();
    assert_eq!(large.kind, ErrorKind::InvalidInput);
    for error in [submit_through(None, 2).err().unwrap(), check_through(None, 2).unwrap_err()] {
        assert_eq!(error.kind, ErrorKind::BrokenPipe);
        assert_eq!(error.message, "lwIP egress queue is closed");
    }
}

#[test]
fn a_socket_that_could_not_be_bound_makes_no_queue() {
    let mut pools = PacketPools::new();
    let (egress_tx, _egress_rx) = tokio::sync::mpsc::channel(1);
    for (pcb, code, expected) in [(0, ERR_OK, ERR_MEM), (7, -8, -8)] {
        let modes = default_udp_runtime_config();
        let socket: Result<UdpSocket<Waker>, Error> =
            UdpSocket::new(pcb, code, 0, egress_tx.downgrade(), 1500, 0, modes, &mut pools);
        assert!(matches!(socket, Err(Error::LwIP(code)) if code == expected));
    }
    assert!(pools.entries.is_empty());
}
