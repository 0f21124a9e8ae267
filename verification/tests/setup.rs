use lwip::err::{ERR_BUF, ERR_OK, ERR_USE, ERR_VAL};
use lwip::error::Error;
use lwip::mutex::AtomicMutexErr;
use lwip::packet::{IpPacket, PacketPools, PayloadExtent, PbufLease, PbufTail};
use lwip::pbuf_pool::{
    configure_pbuf_pool_capacity, pbuf_pool_runtime_stats, pbuf_pool_runtime_stats_sharded,
    PbufPoolRuntimeStats,
};
use lwip::shard::{shard_count, ShardState, Shards};
use lwip::stack::{NetStack, StackPlan};
use lwip::stack_impl::{
    initialize_windows_runtime_config, initialize_windows_tcp_rcv_window_once,
    input_owned_packet_locked, parse_windows_tcp_rcv_window_mss, send_queue_fits, timer_interval,
    InputAction, InputEvent, NetStackImpl, TcpWindowLimits, WindowsRuntime,
};
use lwip::text::{RawSetting, Setting};
use lwip::udp::{
    WindowsSetting, WindowsUdpNotifyMode, WindowsUdpReserveMode, WindowsUdpSendGateMode,
};
use std::cell::{Cell, RefCell};
use std::sync::atomic::{AtomicUsize, Ordering};
use std::sync::{Arc, Barrier, Mutex};

/// The size of a TCP segment at an MTU of 1500.
const PANDA_BASE_TCP_MSS: u32 = 1460;

#[test]
fn shard_stacks_own_globals_independent_of_the_primary() {
    let mut shards: Shards<u32> = Shards::new();
    for id in 0..4 {
        assert!(shards.get_mut(id).unwrap().latch_init());
    }
    let read = |shards: &Shards<u32>, id: usize| {
        i32::from(shards.get(id).unwrap().tcp_tx_partial_checksum)
    };

    shards.get_mut(0).unwrap().set_tcp_tx_partial_checksum(true);
    assert_eq!(read(&shards, 0), 1);
    assert_eq!(read(&shards, 1), 0, "shard1 aliases the primary stack's globals");
    assert_eq!(read(&shards, 2), 0, "shard2 aliases the primary stack's globals");
    assert_eq!(read(&shards, 3), 0, "shard3 aliases the primary stack's globals");

    shards.get_mut(1).unwrap().set_tcp_tx_partial_checksum(true);
    shards.get_mut(0).unwrap().set_tcp_tx_partial_checksum(false);
    assert_eq!(read(&shards, 1), 1, "the primary stack's write clobbered shard1");
    assert_eq!(read(&shards, 0), 0);
    assert_eq!(read(&shards, 2), 0, "shard1's write leaked into shard2");
}

#[test]
fn out_of_range_shard_is_rejected() {
    let error = NetStack::new_sharded(shard_count(), 8, 8, 1500)
        .err()
        .expect("an out-of-range shard id must be rejected");
    assert!(matches!(error, Error::RuntimeConfig(_)));
    assert_eq!(
        error.message(),
        "runtime configuration error: shard 4 out of range; this build carries 4 stacks"
    );
}

#[test]
fn tcp_send_queue_can_segment_the_largest_rust_write_at_1500_mtu() {
    let base_mss = PANDA_BASE_TCP_MSS as usize;
    for tcp_snd_buf in [2 * base_mss, 65535, 256 * base_mss, 2872 * base_mss] {
        let write_bytes = tcp_snd_buf.min(u16::MAX as usize);
        let required_segments = write_bytes.div_ceil(base_mss);
        let tcp_snd_queuelen = (4 * tcp_snd_buf).div_ceil(base_mss);
        assert!(tcp_snd_queuelen >= required_segments);
        assert!(send_queue_fits(tcp_snd_buf, tcp_snd_queuelen, base_mss));
        assert!(send_queue_fits(tcp_snd_buf, required_segments, base_mss));
        assert!(!send_queue_fits(tcp_snd_buf, required_segments - 1, base_mss));
    }
    assert!(send_queue_fits(1 << 20, 45, base_mss));
    assert!(!send_queue_fits(1 << 20, 44, base_mss));
}

#[test]
fn netif_rejection_is_reported_without_panicking() {
    const ERR_IF: i8 = -12;
    let frame = vec![0x45u8; 20];
    assert_eq!(
        input_owned_packet_locked(InputEvent::Frame { len: frame.len() }),
        InputAction::Allocate { len: 20 }
    );
    assert_eq!(
        input_owned_packet_locked(InputEvent::Allocated { present: true }),
        InputAction::Submit
    );
    assert_eq!(
        input_owned_packet_locked(InputEvent::Submitted { code: ERR_IF }),
        InputAction::Done { code: ERR_IF, free: true }
    );
}

#[test]
fn frames_that_cannot_go_in_are_buffer_errors() {
    let refused = InputAction::Done { code: ERR_BUF, free: false };
    assert_eq!(input_owned_packet_locked(InputEvent::Frame { len: 65536 }), refused);
    assert_eq!(
        input_owned_packet_locked(InputEvent::Frame { len: 65535 }),
        InputAction::Allocate { len: 65535 }
    );
    assert_eq!(input_owned_packet_locked(InputEvent::Allocated { present: false }), refused);
    assert_eq!(
        input_owned_packet_locked(InputEvent::Submitted { code: ERR_OK }),
        InputAction::Done { code: ERR_OK, free: false }
    );
}

#[test]
fn windows_tcp_receive_window_parser_accepts_only_the_supported_range() {
    assert_eq!(
        parse_windows_tcp_rcv_window_mss(RawSetting::Unset, 2872, 512).unwrap(),
        512
    );
    assert_eq!(
        parse_windows_tcp_rcv_window_mss(RawSetting::Text("2"), 2872, 512).unwrap(),
        2
    );
    assert_eq!(
        parse_windows_tcp_rcv_window_mss(RawSetting::Text("2872"), 2872, 512).unwrap(),
        2872
    );

    for invalid in ["", "one", "1", "2873", "2.0", " 512"] {
        assert!(
            parse_windows_tcp_rcv_window_mss(RawSetting::Text(invalid), 2872, 512).is_err(),
            "{invalid:?} must be rejected"
        );
    }
}

#[test]
fn windows_tcp_receive_window_parser_rejects_non_utf8() {
    assert!(parse_windows_tcp_rcv_window_mss(RawSetting::NotUnicode, 2872, 512).is_err());
}

#[test]
fn window_settings_say_what_is_wrong_with_them() {
    let parse = |text| parse_windows_tcp_rcv_window_mss(text, 2872, 512).unwrap_err();
    assert_eq!(parse(RawSetting::NotUnicode), "value must be valid UTF-8");
    assert_eq!(
        parse(RawSetting::Text("4294967296")),
        "value must be an unsigned decimal integer"
    );
    assert_eq!(parse(RawSetting::Text("+")), "value must be an unsigned decimal integer");
    assert_eq!(parse(RawSetting::Text("-3")), "value must be an unsigned decimal integer");
    assert_eq!(
        parse(RawSetting::Text("2873")),
        "value must be between 2 and 2872 MSS, got 2873"
    );
    assert_eq!(
        parse_windows_tcp_rcv_window_mss(RawSetting::Text("+00012"), 2872, 512),
        Ok(12)
    );
}

#[test]
fn windows_runtime_config_reads_and_applies_once_under_concurrency() {
    let config = Arc::new(Mutex::new(None));
    let reads = Arc::new(AtomicUsize::new(0));
    let applies = Arc::new(AtomicUsize::new(0));
    let together = Arc::new(Barrier::new(8));

    tokio::runtime::Builder::new_current_thread().build().unwrap().block_on(async {
        let mut tasks = Vec::new();
        for _ in 0..8 {
            let (config, reads) = (Arc::clone(&config), Arc::clone(&reads));
            let (applies, together) = (Arc::clone(&applies), Arc::clone(&together));
            tasks.push(tokio::task::spawn_blocking(move || {
                together.wait();
                initialize_windows_tcp_rcv_window_once(
                    &mut config.lock().unwrap(),
                    || {
                        reads.fetch_add(1, Ordering::SeqCst);
                        Setting::Text("512".to_owned())
                    },
                    2872,
                    512,
                    PANDA_BASE_TCP_MSS,
                    |window| {
                        assert_eq!(window, 512 * PANDA_BASE_TCP_MSS);
                        applies.fetch_add(1, Ordering::SeqCst);
                        Ok(())
                    },
                )
            }));
        }
        for task in tasks {
            assert_eq!(task.await.unwrap().unwrap(), 512 * PANDA_BASE_TCP_MSS);
        }
    });

    assert_eq!(reads.load(Ordering::SeqCst), 1);
    assert_eq!(applies.load(Ordering::SeqCst), 1);
}

#[test]
fn windows_runtime_config_caches_failure_without_rereading() {
    let mut config = None;
    let reads = Cell::new(0);
    let applies = Cell::new(0);

    let first = initialize_windows_tcp_rcv_window_once(
        &mut config,
        || {
            reads.set(reads.get() + 1);
            Setting::Text("1".to_owned())
        },
        2872,
        512,
        PANDA_BASE_TCP_MSS,
        |_| {
            applies.set(applies.get() + 1);
            Ok(())
        },
    );
    let second = initialize_windows_tcp_rcv_window_once(
        &mut config,
        || {
            reads.set(reads.get() + 1);
            Setting::Text("512".to_owned())
        },
        2872,
        512,
        PANDA_BASE_TCP_MSS,
        |_| {
            applies.set(applies.get() + 1);
            Ok(())
        },
    );

    assert_eq!(first, second);
    assert!(first.is_err());
    assert_eq!(reads.get(), 1);
    assert_eq!(applies.get(), 0);
}

#[test]
fn a_window_that_overflows_or_is_refused_is_an_error() {
    let mut config = None;
    let overflow = initialize_windows_tcp_rcv_window_once(
        &mut config,
        || Setting::Unset,
        u32::MAX,
        1 << 31,
        2,
        |_| Ok(()),
    );
    assert_eq!(overflow.unwrap_err(), "active TCP receive window overflowed u32");
    let mut config = None;
    let refused = initialize_windows_tcp_rcv_window_once(
        &mut config,
        || Setting::Unset,
        10,
        5,
        2,
        |window| Err(format!("no {window}")),
    );
    assert_eq!(refused.unwrap_err(), "no 10");
}

const LIMITS: TcpWindowLimits = TcpWindowLimits {
    tcp_wnd: 2872 * PANDA_BASE_TCP_MSS,
    runtime_default: 512 * PANDA_BASE_TCP_MSS,
    base_mss: PANDA_BASE_TCP_MSS,
};

fn configure(
    runtime: &mut WindowsRuntime,
    settings: &[(WindowsSetting, &str)],
    code: i8,
) -> Result<(), String> {
    initialize_windows_runtime_config(
        true,
        runtime,
        LIMITS,
        |setting| match settings.iter().find(|(name, _)| *name == setting) {
            Some((_, text)) => Setting::Text((*text).to_owned()),
            None => Setting::Unset,
        },
        |_| code,
    )
    .map_err(|error| error.message())
}

#[test]
fn the_runtime_settings_have_defaults() {
    let mut runtime = WindowsRuntime::new();
    configure(&mut runtime, &[], ERR_OK).unwrap();
    assert_eq!(runtime.tcp_rcv_window, Some(Ok(512 * PANDA_BASE_TCP_MSS)));
    let modes = runtime.udp.unwrap().unwrap();
    assert_eq!(modes.notify, WindowsUdpNotifyMode::Legacy);
    assert_eq!(modes.reserve, WindowsUdpReserveMode::OnBlock);
    assert_eq!(modes.send_gate, WindowsUdpSendGateMode::Always);
}

#[test]
fn runtime_settings_fail_with_their_names_and_stay_failed() {
    let mut runtime = WindowsRuntime::new();
    let window = [(WindowsSetting::TcpRcvWndMss, "1")];
    let message = "runtime configuration error: PANDA_LWIP_TCP_RCV_WND_MSS: value must be \
                   between 2 and 2872 MSS, got 1";
    assert_eq!(configure(&mut runtime, &window, ERR_OK).unwrap_err(), message);
    assert_eq!(configure(&mut runtime, &[], ERR_OK).unwrap_err(), message);
    assert!(runtime.udp.is_none());

    let mut runtime = WindowsRuntime::new();
    assert_eq!(
        configure(&mut runtime, &[], ERR_VAL).unwrap_err(),
        "runtime configuration error: PANDA_LWIP_TCP_RCV_WND_MSS: PANDA_LWIP_TCP_RCV_WND_MSS \
         produced 747520 bytes outside the C runtime bounds"
    );

    for (setting, message) in [
        (
            WindowsSetting::UdpNotify,
            "PANDA_WINDOWS_LWIP_UDP_NOTIFY: value must be legacy or mpsc, got \"x\\n\"",
        ),
        (
            WindowsSetting::UdpReserve,
            "PANDA_WINDOWS_LWIP_UDP_RESERVE: value must be always or on-block, got \"x\\n\"",
        ),
        (
            WindowsSetting::UdpSendGate,
            "PANDA_WINDOWS_LWIP_UDP_SEND_GATE: value must be always or on-block, got \"x\\n\"",
        ),
    ] {
        let mut runtime = WindowsRuntime::new();
        let expected = format!("runtime configuration error: {message}");
        assert_eq!(configure(&mut runtime, &[(setting, "x\n")], ERR_OK).unwrap_err(), expected);
        assert_eq!(configure(&mut runtime, &[], ERR_OK).unwrap_err(), expected);
    }
}

#[test]
fn other_platforms_read_no_settings() {
    let mut runtime = WindowsRuntime::new();
    let outcome = initialize_windows_runtime_config(
        false,
        &mut runtime,
        LIMITS,
        |_| panic!("no setting is read"),
        |_| panic!("no window is applied"),
    );
    assert!(outcome.is_ok());
    assert!(runtime.tcp_rcv_window.is_none());
}

#[test]
fn kept_settings_are_neither_read_nor_applied_again() {
    for (settings, code) in [
        (vec![], ERR_OK),
        (vec![], ERR_VAL),
        (vec![(WindowsSetting::TcpRcvWndMss, "1")], ERR_OK),
        (vec![(WindowsSetting::UdpSendGate, "x")], ERR_OK),
    ] {
        let mut runtime = WindowsRuntime::new();
        let first = configure(&mut runtime, &settings, code);
        let again = initialize_windows_runtime_config(
            true,
            &mut runtime,
            LIMITS,
            |_| panic!("no setting is read again"),
            |_| panic!("no window is applied again"),
        );
        assert_eq!(again.map_err(|error| error.message()), first);
    }
}

#[test]
fn settings_are_read_in_order_until_one_is_not_valid() {
    for (bad, expected) in [
        (Some(WindowsSetting::TcpRcvWndMss), 1),
        (Some(WindowsSetting::UdpNotify), 2),
        (Some(WindowsSetting::UdpReserve), 3),
        (Some(WindowsSetting::UdpSendGate), 4),
        (None, 4),
    ] {
        let asked = RefCell::new(Vec::new());
        let applied = RefCell::new(0);
        let mut runtime = WindowsRuntime::new();
        let outcome = initialize_windows_runtime_config(
            true,
            &mut runtime,
            LIMITS,
            |setting: WindowsSetting| {
                asked.borrow_mut().push(setting);
                if Some(setting) == bad {
                    Setting::Text("x".to_owned())
                } else {
                    Setting::Unset
                }
            },
            |_| {
                *applied.borrow_mut() += 1;
                ERR_OK
            },
        );
        assert_eq!(outcome.is_ok(), bad.is_none());
        let order = [
            WindowsSetting::TcpRcvWndMss,
            WindowsSetting::UdpNotify,
            WindowsSetting::UdpReserve,
            WindowsSetting::UdpSendGate,
        ];
        assert_eq!(*asked.borrow(), order[..expected]);
        assert_eq!(*applied.borrow(), usize::from(expected > 1));
    }
}

#[test]
fn the_timer_interval_is_read_or_defaulted() {
    assert_eq!(timer_interval(RawSetting::Unset), 250);
    assert_eq!(timer_interval(RawSetting::NotUnicode), 250);
    for (text, ms) in [
        ("1", 1),
        ("1000", 1000),
        ("0", 250),
        ("1001", 250),
        ("ten", 250),
        ("18446744073709551616", 250),
        ("18446744073709551615", 250),
    ] {
        assert_eq!(timer_interval(RawSetting::Text(text)), ms, "{text}");
    }
}

#[test]
fn buffer_pools_are_configured_alike_until_one_refuses() {
    let asked = RefCell::new(Vec::new());
    let set = |id: usize, capacity: u16| {
        asked.borrow_mut().push((id, capacity));
        if !(32..=512).contains(&capacity) {
            ERR_VAL
        } else if id == 2 && capacity == 64 {
            ERR_USE
        } else if id == 3 && capacity == 65 {
            -5
        } else {
            ERR_OK
        }
    };
    for invalid in [0, 31, 513, u16::MAX] {
        assert_eq!(
            configure_pbuf_pool_capacity(invalid, set).unwrap_err().message(),
            format!(
                "runtime configuration error: PBUF_POOL capacity must be between 32 and 512, \
                 got {invalid}"
            )
        );
    }
    asked.borrow_mut().clear();
    configure_pbuf_pool_capacity(32, set).unwrap();
    assert_eq!(*asked.borrow(), vec![(0, 32), (1, 32), (2, 32), (3, 32)]);
    asked.borrow_mut().clear();
    assert_eq!(
        configure_pbuf_pool_capacity(64, set).unwrap_err().message(),
        "runtime configuration error: PBUF_POOL capacity must be configured before the first \
         NetStack; restart the process to change it"
    );
    assert_eq!(*asked.borrow(), vec![(0, 64), (1, 64), (2, 64)]);
    assert_eq!(
        configure_pbuf_pool_capacity(65, set).unwrap_err().message(),
        "runtime configuration error: PBUF_POOL capacity configuration failed with lwIP error -5"
    );
}

#[test]
fn buffer_pool_numbers_come_from_the_stack_asked_for() {
    let read = |id: usize| PbufPoolRuntimeStats {
        configured: 512,
        effective: id as u16,
        compile_capacity: 512,
        used: 0,
        max_used: 0,
        alloc_failures: 0,
    };
    assert_eq!(pbuf_pool_runtime_stats(read).effective, 0);
    assert_eq!(pbuf_pool_runtime_stats_sharded(3, read).unwrap().effective, 3);
    assert!(pbuf_pool_runtime_stats_sharded(4, read).is_none());
}

#[test]
fn stack_plans_have_the_documented_sizes() {
    assert_eq!(
        NetStack::new(),
        StackPlan { shard_id: 0, stack_buffer_size: 512, udp_buffer_size: 64, mtu: 1500 }
    );
    assert_eq!(
        NetStack::with_buffer_size(8, 9),
        StackPlan { shard_id: 0, stack_buffer_size: 8, udp_buffer_size: 9, mtu: 1500 }
    );
    assert_eq!(
        NetStack::with_buffer_size_and_mtu(8, 9, 9000),
        StackPlan { shard_id: 0, stack_buffer_size: 8, udp_buffer_size: 9, mtu: 9000 }
    );
    assert_eq!(NetStack::new_sharded(3, 8, 9, 1280).unwrap().shard_id, 3);
}

#[test]
fn a_torn_down_stack_leaves_the_output_of_its_successor() {
    let mut shard: ShardState<u32> = ShardState::new(0);
    let mut pools = PacketPools::new();
    let plan = NetStack::with_buffer_size(1000, 1);
    let first = NetStack::build(plan, 11, RawSetting::Unset, &mut shard, &mut pools);
    let second = NetStack::build(plan, 22, RawSetting::Text("10"), &mut shard, &mut pools);
    assert_eq!(shard.output_cb, 22);
    assert_eq!(second.stack.timer_interval_ms, 10);
    assert_eq!(first.stack.output_pool_stats(&pools).unwrap().cached, 0);
    first.stack.teardown(&mut shard, &mut pools);
    assert_eq!(shard.output_cb, 22);
    let third = NetStackImpl::new(33, 1000, RawSetting::Unset, &mut shard, &mut pools);
    assert_eq!((third.mtu, third.timer_interval_ms, shard.output_cb), (1500, 250, 33));
    assert_eq!(lwip::packet::packet_pool_runtime_stats(&mut pools).live_pools, 2);
    third.teardown(&mut shard, &mut pools);
    assert_eq!(shard.output_cb, 0);
    shard.set_output_hook(22);
    second.stack.teardown(&mut shard, &mut pools);
    assert_eq!(shard.output_cb, 0);
    assert_eq!(lwip::packet::packet_pool_runtime_stats(&mut pools).live_pools, 0);
}

#[test]
fn batches_and_sinks_leave_empty_frames_out() {
    let mut shard: ShardState<u32> = ShardState::new(0);
    let mut pools = PacketPools::new();
    let frames = NetStackImpl::input_batch(vec![vec![1], vec![], vec![2, 3], vec![]]);
    assert_eq!(frames, vec![vec![1], vec![2, 3]]);

    let plan = NetStack::with_buffer_size(1, 1);
    let mut stack = NetStack::build(plan, 1, RawSetting::Unset, &mut shard, &mut pools).stack;
    assert!(stack.poll_ready());
    assert_eq!(stack.poll_flush(), None);
    stack.start_send(vec![7]);
    assert!(!stack.poll_ready());
    stack.start_send(vec![8]);
    assert_eq!(stack.poll_flush(), Some(vec![8]));
    stack.start_send(Vec::new());
    assert_eq!(stack.poll_flush(), None);
    assert!(stack.poll_ready());
}

#[test]
fn packets_that_leave_together_are_completed_together() {
    let mut shard: ShardState<u32> = ShardState::new(1);
    let mut pools = PacketPools::new();
    let plan = NetStack::new_sharded(1, 4, 1, 1500).unwrap();
    let stack = NetStack::build(plan, 1, RawSetting::Unset, &mut shard, &mut pools);
    let (_ingress, egress) = stack.split();
    assert_eq!(egress.shard_id, 1);
    let mut owed = IpPacket::from(vec![1]);
    owed.set_tail(PbufTail::new(9, 1, vec![PayloadExtent { address: 1, len: 2 }]));
    let mut packets = vec![IpPacket::from(vec![0]), owed, IpPacket::from(vec![2])];
    let payloads = vec![vec![vec![7, 8]], vec![]];
    let leases = egress.recv_many(&mut packets, 1, &payloads);
    assert_eq!(leases, vec![PbufLease { shard_id: 1, chain: 9 }]);
    let bytes: Vec<Vec<u8>> = packets.iter().map(|packet| packet.as_ref().to_vec()).collect();
    assert_eq!(bytes, vec![vec![0], vec![1, 7, 8], vec![2]]);
    assert_eq!(egress.recv(&mut packets[1], &Vec::new()), None);
}

#[test]
fn a_stack_is_initialized_once_and_retries_output_once() {
    let mut shard: ShardState<u32> = ShardState::new(0);
    assert!(shard.latch_init());
    assert!(!shard.latch_init());
    assert!(!shard.take_backpressure());
    shard.mark_egress_backpressured();
    assert!(!shard.retry_failed(ERR_BUF));
    assert!(shard.take_backpressure());
    assert!(shard.retry_failed(ERR_BUF));
    assert!(!shard.retry_failed(ERR_OK));
    let shards: Shards<u32> = Shards::new();
    assert_eq!(shards.primary().id, 0);
    assert!(shards.get(4).is_none());
}

#[test]
fn errors_have_their_messages() {
    assert_eq!(Error::LwIP(-1).message(), "LwIP error (-1)");
    assert_eq!(Error::LwIP(-128).message(), "LwIP error (-128)");
    assert_eq!(Error::LwIP(100).message(), "LwIP error (100)");
    assert_eq!(
        Error::from(AtomicMutexErr).message(),
        "AtomicMutexErr AtomicMutexErr"
    );
    assert_eq!(
        Error::RuntimeConfig("x".to_owned()).message(),
        "runtime configuration error: x"
    );
}
