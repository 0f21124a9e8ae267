//! One stack object: its egress queue, its packet pool, its timer, and the frames
//! that go into it.

use tokio::sync::mpsc::{Receiver, Sender, WeakSender};
use vstd::prelude::*;
use vstd::string::*;

use crate::channel;
use crate::channel::{egress_channel, egress_downgrade, SendAnswer};
use crate::err::{ERR_BUF, ERR_OK};
use crate::error::Error;
use crate::packet::{IpPacket, PacketPoolStats, PacketPools};
use crate::shard::ShardState;
use crate::text;
use crate::text::{append_decimal, parse_unsigned, RawSetting, Setting};
use crate::udp;
use crate::udp::{initialize_windows_udp_runtime_config, WindowsSetting, WindowsUdpRuntimeConfig};

verus! {

/// The MTU of a stack that is not told otherwise.
pub const DEFAULT_MTU: u16 = 1500;

/// How many packets the pool of a stack keeps at most.
pub const OUTPUT_PACKET_CACHE: usize = 256;

/// The largest packet storage that the pool of a stack keeps.
pub const OUTPUT_PACKET_MAX_CAPACITY: usize = 2048;

/// The timer interval of a stack that is not told otherwise, in milliseconds.
pub const DEFAULT_TIMER_MS: u64 = 250;

/// The largest timer interval, in milliseconds.
pub const MAX_TIMER_MS: u64 = 1000;

/// The timer interval that a setting selects: a number in range, or else the
/// default.
pub open spec fn timer_interval_of(raw: text::SettingView) -> int {
    match raw {
        text::SettingView::Text(text) => match text::unsigned_at_most(text, u64::MAX as nat) {
            Some(ms) => if 1 <= ms <= MAX_TIMER_MS {
                ms as int
            } else {
                DEFAULT_TIMER_MS as int
            },
            None => DEFAULT_TIMER_MS as int,
        },
        _ => DEFAULT_TIMER_MS as int,
    }
}

/// Reads the timer interval, in milliseconds.
pub fn timer_interval(raw: RawSetting<'_>) -> (ms: u64)
    ensures
        ms == timer_interval_of(raw@),
{
    match raw {
        RawSetting::Text(text) => match parse_unsigned(text, u64::MAX) {
            Some(ms) => if 1 <= ms && ms <= MAX_TIMER_MS {
                ms
            } else {
                DEFAULT_TIMER_MS
            },
            None => DEFAULT_TIMER_MS,
        },
        _ => DEFAULT_TIMER_MS,
    }
}

/// `n`, brought into the range from `low` to `high`.
pub open spec fn clamped(n: int, low: int, high: int) -> int {
    if n < low {
        low
    } else if n > high {
        high
    } else {
        n
    }
}

/// `n`, brought into the range from `low` to `high`.
pub(crate) fn clamp(n: usize, low: usize, high: usize) -> (c: usize)
    requires
        low <= high,
    ensures
        c == clamped(n as int, low as int, high as int),
{
    if n < low {
        low
    } else if n > high {
        high
    } else {
        n
    }
}

/// A stack object.
pub struct NetStackImpl {
    /// The number by which the stack knows this object; not 0.
    pub id: usize,
    /// The stack that this object drives.
    pub shard_id: usize,
    pub mtu: u16,
    pub tx: Sender<IpPacket>,
    /// Taken where a consumer drains the egress queue on its own.
    pub rx: Option<Receiver<IpPacket>>,
    /// The number of the pool for outgoing packets.
    pub output_pool: u64,
    /// The frame that waits to be put in.
    pub sink_buf: Option<Vec<u8>>,
    pub timer_interval_ms: u64,
}

impl NetStackImpl {
    /// The pool of the object is alive, and its handles can be counted.
    pub open spec fn wf(&self, pools: PacketPools) -> bool {
        &&& pools.wf()
        &&& pools.has(self.output_pool)
        &&& pools.entry(self.output_pool).handles < usize::MAX
    }

    /// Whether the pool of this object, which has a queue of `buffer_size`, is what
    /// came to `before`: one with a single handle, that keeps as many packets as the
    /// queue holds, up to a bound.
    pub open spec fn opens_pool(
        &self,
        buffer_size: usize,
        before: PacketPools,
        after: PacketPools,
    ) -> bool {
        before.created(
            self.output_pool,
            clamped(buffer_size as int, 1, OUTPUT_PACKET_CACHE as int),
            OUTPUT_PACKET_MAX_CAPACITY as int,
            after,
        )
    }

    /// Whether this object has both ends of one egress queue for `buffer_size`
    /// packets, into which nothing has gone.
    pub open spec fn opens_queue(&self, buffer_size: usize) -> bool {
        &&& channel::egress_limit(self.tx) == buffer_size
        &&& channel::egress_put(self.tx) == Seq::<IpPacket>::empty()
        &&& channel::egress_sends(self.tx) == Seq::<SendAnswer>::empty()
        &&& self.rx is Some
        &&& channel::egress_rx_queue(self.rx->0) == channel::egress_queue(self.tx)
    }

    /// A stack object with the default MTU for the stack of `shard`, whose output it
    /// takes over.
    pub fn new<W>(
        id: usize,
        buffer_size: usize,
        timer: RawSetting<'_>,
        shard: &mut ShardState<W>,
        pools: &mut PacketPools,
    ) -> (stack: Self)
        requires
            id != 0,
            channel::valid_queue_size(buffer_size),
            old(pools).wf(),
            old(pools).next_id < u64::MAX,
        ensures
            stack.wf(*final(pools)),
            stack.id == id,
            stack.shard_id == old(shard).id,
            stack.mtu == DEFAULT_MTU,
            stack.opens_queue(buffer_size),
            stack.sink_buf is None,
            stack.timer_interval_ms == timer_interval_of(timer@),
            *final(shard) == (ShardState { output_cb: id, ..*old(shard) }),
            stack.opens_pool(buffer_size, *old(pools), *final(pools)),
    {
        NetStackImpl::new_with_mtu(id, buffer_size, DEFAULT_MTU, timer, shard, pools)
    }

    /// A stack object for the stack of `shard`, whose output it takes over.
    pub fn new_with_mtu<W>(
        id: usize,
        buffer_size: usize,
        mtu: u16,
        timer: RawSetting<'_>,
        shard: &mut ShardState<W>,
        pools: &mut PacketPools,
    ) -> (stack: Self)
        requires
            id != 0,
            channel::valid_queue_size(buffer_size),
            old(pools).wf(),
            old(pools).next_id < u64::MAX,
        ensures
            stack.wf(*final(pools)),
            stack.id == id,
            stack.shard_id == old(shard).id,
            stack.mtu == mtu,
            stack.opens_queue(buffer_size),
            stack.sink_buf is None,
            stack.timer_interval_ms == timer_interval_of(timer@),
            *final(shard) == (ShardState { output_cb: id, ..*old(shard) }),
            stack.opens_pool(buffer_size, *old(pools), *final(pools)),
    {
        let (tx, rx) = egress_channel(buffer_size);
        let output_pool: u64 = pools.create(
            clamp(buffer_size, 1, OUTPUT_PACKET_CACHE),
            OUTPUT_PACKET_MAX_CAPACITY,
        );
        let timer_interval_ms: u64 = timer_interval(timer);
        let stack = NetStackImpl {
            id,
            shard_id: shard.id,
            mtu,
            tx,
            rx: Some(rx),
            output_pool,
            sink_buf: None,
            timer_interval_ms,
        };
        shard.set_output_hook(id);
        stack
    }

    /// A sender of the egress queue that does not keep it open.
    pub fn egress_sender(&self) -> (weak: WeakSender<IpPacket>)
        ensures
            channel::weak_egress_limit(weak) == channel::egress_limit(self.tx),
            channel::weak_egress_queue(weak) == channel::egress_queue(self.tx),
    {
        egress_downgrade(&self.tx)
    }

    /// Takes the receiving end of the egress queue, which can be done once.
    pub fn take_egress(&mut self) -> (rx: Receiver<IpPacket>)
        requires
            old(self).rx is Some,
        ensures
            rx == old(self).rx->0,
            *final(self) == (NetStackImpl { rx: None, ..*old(self) }),
    {
        self.rx.take().unwrap()
    }

    /// The frames of a batch that go into the stack: all that are not empty, in
    /// order.
    pub fn input_batch(items: Vec<Vec<u8>>) -> (frames: Vec<Vec<u8>>)
        ensures
            frames@ == nonempty_frames(items@),
    {
        let mut items = items;
        let ghost all = items@;
        let mut frames: Vec<Vec<u8>> = Vec::new();
        let ghost mut done: int = 0;
        assert(all.skip(0) =~= all);
        assert(all.take(0) =~= Seq::empty());
        while items.len() > 0
            invariant
                0 <= done <= all.len(),
                items@ == all.skip(done),
                frames@ == nonempty_frames(all.take(done)),
            decreases items@.len(),
        {
            let item = items.remove(0);
            proof {
                assert(all.take(done + 1).drop_last() =~= all.take(done));
                assert(all.skip(done).remove(0) =~= all.skip(done + 1));
                done = done + 1;
            }
            if item.len() > 0 {
                frames.push(item);
            }
        }
        assert(all.take(all.len() as int) =~= all);
        frames
    }

    /// The numbers of the pool for outgoing packets; `None` where it is gone.
    pub fn output_pool_stats(&self, pools: &PacketPools) -> (stats: Option<PacketPoolStats>)
        requires
            pools.wf(),
        ensures
            match stats {
                Some(stats) => pools.has(self.output_pool) && stats == pools.entry(
                    self.output_pool,
                ).pool->0.stats_spec(),
                None => !pools.has(self.output_pool),
            },
    {
        pools.pool_stats(self.output_pool)
    }

    /// Tears the object down: the output of the stack is undirected from it, unless
    /// a successor has taken it over, and its pool loses a handle.
    pub fn teardown<W>(self, shard: &mut ShardState<W>, pools: &mut PacketPools)
        requires
            old(pools).wf(),
        ensures
            final(pools).wf(),
            *final(shard) == (ShardState {
                output_cb: if old(shard).output_cb == self.id {
                    0
                } else {
                    old(shard).output_cb
                },
                ..*old(shard)
            }),
            old(pools).handle_dropped(self.output_pool, *final(pools)),
    {
        shard.clear_output_hook(self.id);
        let _ = pools.drop_handle(self.output_pool);
    }

    /// Whether the sink takes another frame at once. Otherwise the one that waits
    /// is to be flushed first.
    pub fn poll_ready(&self) -> (ready: bool)
        ensures
            ready == (self.sink_buf is None),
    {
        self.sink_buf.is_none()
    }

    /// Holds a frame until it is flushed; one that waited before is dropped.
    pub fn start_send(&mut self, item: Vec<u8>)
        ensures
            *final(self) == (NetStackImpl { sink_buf: Some(item), ..*old(self) }),
    {
        self.sink_buf = Some(item);
    }

    /// The frame to put into the stack when the sink is flushed: the one that
    /// waits, unless it is empty. Flushing succeeds whatever the stack answers,
    /// since a rejected frame is an event of that packet alone.
    pub fn poll_flush(&mut self) -> (frame: Option<Vec<u8>>)
        ensures
            *final(self) == (NetStackImpl { sink_buf: None, ..*old(self) }),
            match old(self).sink_buf {
                Some(item) => if item@.len() == 0 {
                    frame is None
                } else {
                    frame == Some(item)
                },
                None => frame is None,
            },
    {
        match self.sink_buf.take() {
            Some(item) => if item.len() == 0 {
                None
            } else {
                Some(item)
            },
            None => None,
        }
    }
}

/// The frames that are not empty, in order.
pub open spec fn nonempty_frames(items: Seq<Vec<u8>>) -> Seq<Vec<u8>>
    decreases items.len(),
{
    if items.len() == 0 {
        Seq::empty()
    } else if items.last()@.len() > 0 {
        nonempty_frames(items.drop_last()).push(items.last())
    } else {
        nonempty_frames(items.drop_last())
    }
}

/// What happened to a frame on its way into a stack.
#[derive(Clone, Copy, Debug, PartialEq, Eq, Structural)]
pub enum InputEvent {
    /// A frame of `len` bytes is there.
    Frame { len: usize },
    /// A buffer header was asked for; `present` where there was one.
    Allocated { present: bool },
    /// The frame was handed to the stack, which answered with `code`.
    Submitted { code: i8 },
}

/// What to do next with a frame on its way into a stack.
#[derive(Clone, Copy, Debug, PartialEq, Eq, Structural)]
pub enum InputAction {
    /// Ask for a buffer header for `len` bytes.
    Allocate { len: u16 },
    /// Hand the frame to the stack.
    Submit,
    /// Done, with `code`. Where `free` is set, the stack did not take the frame
    /// over, and it is to be freed.
    Done { code: i8, free: bool },
}

/// Takes a frame into a stack, one step at a time. A frame that is too long for
/// the stack, or that gets no buffer header, fails; the stack owns a frame that it
/// accepted, and the caller one that it rejected.
pub fn input_owned_packet_locked(event: InputEvent) -> (action: InputAction)
    ensures
        action == match event {
            InputEvent::Frame { len } => if len <= u16::MAX {
                InputAction::Allocate { len: len as u16 }
            } else {
                InputAction::Done { code: ERR_BUF, free: false }
            },
            InputEvent::Allocated { present } => if present {
                InputAction::Submit
            } else {
                InputAction::Done { code: ERR_BUF, free: false }
            },
            InputEvent::Submitted { code } => InputAction::Done { code, free: code != ERR_OK },
        },
{
    match event {
        InputEvent::Frame { len } => if len <= u16::MAX as usize {
            InputAction::Allocate { len: len as u16 }
        } else {
            InputAction::Done { code: ERR_BUF, free: false }
        },
        InputEvent::Allocated { present } => if present {
            InputAction::Submit
        } else {
            InputAction::Done { code: ERR_BUF, free: false }
        },
        InputEvent::Submitted { code } => InputAction::Done { code, free: code != ERR_OK },
    }
}

/// How many segments of `base_mss` bytes `len` bytes take.
pub open spec fn segments(len: int, base_mss: usize) -> int {
    (len + base_mss - 1) / (base_mss as int)
}

/// How many segments the largest write takes: the send buffer, as far as one call
/// can carry.
pub open spec fn required_segments(send_buf: usize, base_mss: usize) -> int {
    let write = if send_buf < u16::MAX {
        send_buf as int
    } else {
        u16::MAX as int
    };
    segments(write, base_mss)
}

/// Whether a queue of `queue_len` segments can hold the largest write. Otherwise
/// such a write would meet a memory error each time, and never be sent.
pub fn send_queue_fits(send_buf: usize, queue_len: usize, base_mss: usize) -> (fits: bool)
    requires
        base_mss > 0,
    ensures
        fits == (queue_len >= required_segments(send_buf, base_mss)),
{
    let write: usize = if send_buf < u16::MAX as usize {
        send_buf
    } else {
        u16::MAX as usize
    };
    let whole: usize = write / base_mss;
    proof {
        vstd::arithmetic::div_mod::lemma_fundamental_div_mod(write as int, base_mss as int);
        vstd::arithmetic::div_mod::lemma_fundamental_div_mod(
            write + base_mss - 1,
            base_mss as int,
        );
        let q = (write + base_mss - 1) / (base_mss as int);
        let w = write as int / base_mss as int;
        let r = write as int % base_mss as int;
        let m = base_mss as int;
        if r == 0 {
            vstd::arithmetic::div_mod::lemma_fundamental_div_mod_converse(
                write + m - 1,
                m,
                w,
                m - 1,
            );
        } else {
            assert(m * (w + 1) == m * w + m) by (nonlinear_arith);
            vstd::arithmetic::div_mod::lemma_fundamental_div_mod_converse(
                write + m - 1,
                m,
                w + 1,
                r - 1,
            );
        }
    }
    if write % base_mss == 0 {
        queue_len >= whole
    } else {
        queue_len > whole
    }
}

/// The receive window, in segments, that a setting selects: a number from 2 to
/// `max_mss`, where `default_mss` stands for an absent setting.
pub open spec fn window_mss_of(
    raw: text::SettingView,
    max_mss: u32,
    default_mss: u32,
) -> Result<u32, Seq<char>> {
    let value = match raw {
        text::SettingView::Unset => Ok(default_mss),
        text::SettingView::NotUnicode => Err("value must be valid UTF-8"@),
        text::SettingView::Text(text) => match text::unsigned_at_most(text, u32::MAX as nat) {
            Some(value) => Ok(value as u32),
            None => Err("value must be an unsigned decimal integer"@),
        },
    };
    match value {
        Err(message) => Err(message),
        Ok(value) => if 2 <= value <= max_mss {
            Ok(value)
        } else {
            Err(
                "value must be between 2 and "@ + text::decimal(max_mss as nat) + " MSS, got "@
                    + text::decimal(value as nat),
            )
        },
    }
}

/// Reads the receive window, in segments.
pub fn parse_windows_tcp_rcv_window_mss(
    raw: RawSetting<'_>,
    compiled_max_mss: u32,
    default_mss: u32,
) -> (mss: Result<u32, String>)
    ensures
        text::outcome_view(mss) == window_mss_of(raw@, compiled_max_mss, default_mss),
{
    let value: u32 = match raw {
        RawSetting::Unset => default_mss,
        RawSetting::NotUnicode => return Err("value must be valid UTF-8".to_owned()),
        RawSetting::Text(text) => match parse_unsigned(text, u32::MAX as u64) {
            Some(value) => value as u32,
            None => return Err("value must be an unsigned decimal integer".to_owned()),
        },
    };
    if value < 2 || value > compiled_max_mss {
        let mut message = "value must be between 2 and ".to_owned();
        append_decimal(&mut message, compiled_max_mss as u64);
        message.append(" MSS, got ");
        append_decimal(&mut message, value as u64);
        return Err(message);
    }
    Ok(value)
}

/// The receive window, in bytes, that a setting selects.
pub open spec fn window_of(
    raw: text::SettingView,
    max_mss: u32,
    default_mss: u32,
    base_mss: u32,
) -> Result<u32, Seq<char>> {
    match window_mss_of(raw, max_mss, default_mss) {
        Err(message) => Err(message),
        Ok(mss) => if mss * base_mss <= u32::MAX {
            Ok((mss * base_mss) as u32)
        } else {
            Err("active TCP receive window overflowed u32"@)
        },
    }
}

/// Whether `outcome` is what reading a setting and applying the window that it
/// selects comes to.
pub open spec fn window_applied<Read: FnOnce() -> Setting, Apply: FnOnce(u32) -> Result<(), String>>(
    read: Read,
    max_mss: u32,
    default_mss: u32,
    base_mss: u32,
    apply: Apply,
    outcome: Result<u32, String>,
) -> bool {
    exists|raw: Setting|
        #[trigger] call_ensures(read, (), raw) && match window_of(
            raw@,
            max_mss,
            default_mss,
            base_mss,
        ) {
            Err(message) => text::outcome_view(outcome) == Err::<u32, Seq<char>>(message),
            Ok(window) => applies(apply, window, outcome),
        }
}

/// Whether `outcome` is what applying `window` through `apply` comes to.
pub open spec fn applies<Apply: FnOnce(u32) -> Result<(), String>>(
    apply: Apply,
    window: u32,
    outcome: Result<u32, String>,
) -> bool {
    exists|applied: Result<(), String>|
        #[trigger] call_ensures(apply, (window,), applied) && match applied {
            Ok(()) => outcome == Ok::<u32, String>(window),
            Err(message) => outcome == Err::<u32, String>(message),
        }
}

/// Reads the receive window and applies it, once. The outcome is kept in `config`,
/// be it success or failure, and from then on it is returned without reading or
/// applying anything: neither `read` nor `apply` need be there to be called then. A
/// window that is not valid is not applied.
pub fn initialize_windows_tcp_rcv_window_once<
    Read: FnOnce() -> Setting,
    Apply: FnOnce(u32) -> Result<(), String>,
>(
    config: &mut Option<Result<u32, String>>,
    read: Read,
    compiled_max_mss: u32,
    default_mss: u32,
    base_mss: u32,
    apply: Apply,
) -> (outcome: Result<u32, String>)
    requires
        (*old(config)) is None ==> call_requires(read, ()),
        forall|raw: Setting, window: u32|
            (*old(config)) is None && #[trigger] call_ensures(read, (), raw) && window_of(
                raw@,
                compiled_max_mss,
                default_mss,
                base_mss,
            ) == Ok::<u32, Seq<char>>(window) ==> #[trigger] call_requires(apply, (window,)),
    ensures
        (*final(config)) is Some,
        text::outcome_view(outcome) == text::outcome_view((*final(config))->0),
        (*old(config)) is Some ==> *final(config) == *old(config),
        (*old(config)) is None ==> window_applied(
            read,
            compiled_max_mss,
            default_mss,
            base_mss,
            apply,
            (*final(config))->0,
        ),
{
    if config.is_none() {
        let raw = read();
        let resolved = match parse_windows_tcp_rcv_window_mss(
            raw.as_raw(),
            compiled_max_mss,
            default_mss,
        ) {
            Err(message) => Err(message),
            Ok(active_mss) => match active_mss.checked_mul(base_mss) {
                None => Err("active TCP receive window overflowed u32".to_owned()),
                Some(active_window) => {
                    assert(window_of(raw@, compiled_max_mss, default_mss, base_mss) == Ok::<
                        u32,
                        Seq<char>,
                    >(active_window));
                    let applied = match apply(active_window) {
                        Err(message) => Err(message),
                        Ok(()) => Ok(active_window),
                    };
                    assert(applies(apply, active_window, applied));
                    applied
                },
            },
        };
        assert(window_applied(
            read,
            compiled_max_mss,
            default_mss,
            base_mss,
            apply,
            resolved,
        ));
        *config = Some(resolved);
    }
    match config.as_ref().unwrap() {
        Ok(window) => Ok(*window),
        Err(message) => Err(message.clone()),
    }
}

/// The receive windows that are compiled in, in bytes: the largest, the default,
/// and the size of a segment.
#[derive(Clone, Copy, Debug, PartialEq, Eq, Structural)]
pub struct TcpWindowLimits {
    pub tcp_wnd: u32,
    pub runtime_default: u32,
    pub base_mss: u32,
}

/// The settings that have been read: the receive window and the UDP modes, each
/// with the outcome of reading it.
#[derive(Debug)]
pub struct WindowsRuntime {
    pub tcp_rcv_window: Option<Result<u32, String>>,
    pub udp: Option<Result<WindowsUdpRuntimeConfig, String>>,
}

/// What is said of a window that the stack refused.
pub open spec fn window_refusal(window: u32) -> Seq<char> {
    WindowsSetting::TcpRcvWndMss.spec_name() + " produced "@ + text::decimal(window as nat)
        + " bytes outside the C runtime bounds"@
}

/// What applying a window comes to that the stack answered with `code`.
pub fn window_answer(window: u32, code: i8) -> (outcome: Result<(), String>)
    ensures
        text::outcome_view(outcome) == if code == ERR_OK {
            Ok::<(), Seq<char>>(())
        } else {
            Err(window_refusal(window))
        },
{
    if code != ERR_OK {
        let mut message = WindowsSetting::TcpRcvWndMss.name().to_owned();
        message.append(" produced ");
        append_decimal(&mut message, window as u64);
        message.append(" bytes outside the C runtime bounds");
        return Err(message);
    }
    Ok(())
}

impl WindowsRuntime {
    /// Nothing has been read.
    pub fn new() -> (runtime: Self)
        ensures
            runtime.tcp_rcv_window is None,
            runtime.udp is None,
    {
        WindowsRuntime { tcp_rcv_window: None, udp: None }
    }
}

/// Whether `outcome` is what reading the receive window through `read` and asking
/// the stack for it through `apply` comes to.
pub open spec fn window_configured<Read: Fn(WindowsSetting) -> Setting, Apply: FnOnce(u32) -> i8>(
    read: Read,
    limits: TcpWindowLimits,
    apply: Apply,
    outcome: Result<u32, String>,
) -> bool {
    exists|raw: Setting|
        #[trigger] call_ensures(read, (WindowsSetting::TcpRcvWndMss,), raw) && match window_of(
            raw@,
            limits.tcp_wnd / limits.base_mss,
            limits.runtime_default / limits.base_mss,
            limits.base_mss,
        ) {
            Err(message) => text::outcome_view(outcome) == Err::<u32, Seq<char>>(message),
            Ok(window) => asks(apply, window, outcome),
        }
}

/// Whether `outcome` is what asking the stack for `window` through `apply` comes to.
pub open spec fn asks<Apply: FnOnce(u32) -> i8>(
    apply: Apply,
    window: u32,
    outcome: Result<u32, String>,
) -> bool {
    exists|code: i8|
        #[trigger] call_ensures(apply, (window,), code) && text::outcome_view(outcome) == if code
            == ERR_OK {
            Ok::<u32, Seq<char>>(window)
        } else {
            Err(window_refusal(window))
        }
}

/// Reads and applies the runtime settings, once for the process: the receive
/// window first, and the UDP modes where that went well. Success and failure are
/// both kept, and nothing is read or applied again. Platforms other than Windows
/// succeed without reading or applying anything. What is not to be called need not be
/// there to be called.
pub fn initialize_windows_runtime_config<
    Read: Fn(WindowsSetting) -> Setting,
    Apply: FnOnce(u32) -> i8,
>(
    windows: bool,
    runtime: &mut WindowsRuntime,
    limits: TcpWindowLimits,
    read: Read,
    apply: Apply,
) -> (outcome: Result<(), Error>)
    requires
        limits.base_mss > 0,
        windows && old(runtime).tcp_rcv_window is None ==> call_requires(
            read,
            (WindowsSetting::TcpRcvWndMss,),
        ),
        forall|raw: Setting, window: u32|
            windows && old(runtime).tcp_rcv_window is None && #[trigger] call_ensures(
                read,
                (WindowsSetting::TcpRcvWndMss,),
                raw,
            ) && window_of(
                raw@,
                limits.tcp_wnd / limits.base_mss,
                limits.runtime_default / limits.base_mss,
                limits.base_mss,
            ) == Ok::<u32, Seq<char>>(window) ==> #[trigger] call_requires(apply, (window,)),
        windows && old(runtime).udp is None ==> match old(runtime).tcp_rcv_window {
            Some(Ok(_)) => udp::udp_readable(read),
            Some(Err(_)) => true,
            None => forall|outcome: Result<u32, String>|
                #[trigger] window_configured(read, limits, apply, outcome) && outcome is Ok
                    ==> udp::udp_readable(read),
        },
    ensures
        !windows ==> outcome is Ok && *final(runtime) == *old(runtime),
        windows ==> {
            let window = final(runtime).tcp_rcv_window;
            &&& window is Some
            &&& old(runtime).tcp_rcv_window is Some ==> window == old(runtime).tcp_rcv_window
            &&& old(runtime).tcp_rcv_window is None ==> window_configured(
                read,
                limits,
                apply,
                window->0,
            )
            &&& match window->0 {
                Err(message) => {
                    &&& outcome matches Err(error)
                    &&& error.configures(
                        udp::setting_error(WindowsSetting::TcpRcvWndMss, message@),
                    )
                    &&& final(runtime).udp == old(runtime).udp
                },
                Ok(_) => {
                    let udp = final(runtime).udp;
                    &&& udp is Some
                    &&& old(runtime).udp is Some ==> udp == old(runtime).udp
                    &&& old(runtime).udp is None ==> udp::udp_config_read(read, udp->0)
                    &&& match udp->0 {
                        Ok(_) => outcome is Ok,
                        Err(message) => outcome matches Err(error) && error.configures(message@),
                    }
                },
            }
        },
{
    if !windows {
        return Ok(());
    }
    let max_mss: u32 = limits.tcp_wnd / limits.base_mss;
    let default_mss: u32 = limits.runtime_default / limits.base_mss;
    let read_window = || -> (raw: Setting)
        requires
            call_requires(read, (WindowsSetting::TcpRcvWndMss,)),
        ensures
            call_ensures(read, (WindowsSetting::TcpRcvWndMss,), raw),
        { read(WindowsSetting::TcpRcvWndMss) };
    let apply_window = |window: u32| -> (applied: Result<(), String>)
        requires
            call_requires(apply, (window,)),
        ensures
            exists|code: i8|
                #[trigger] call_ensures(apply, (window,), code) && text::outcome_view(applied)
                    == if code == ERR_OK {
                    Ok::<(), Seq<char>>(())
                } else {
                    Err(window_refusal(window))
                },
        { window_answer(window, apply(window)) };
    let window = initialize_windows_tcp_rcv_window_once(
        &mut runtime.tcp_rcv_window,
        read_window,
        max_mss,
        default_mss,
        limits.base_mss,
        apply_window,
    );
    proof {
        if old(runtime).tcp_rcv_window is None {
            assert(window_configured(read, limits, apply, runtime.tcp_rcv_window->0));
        }
    }
    match window {
        Ok(_) => initialize_windows_udp_runtime_config(&mut runtime.udp, &read),
        Err(message) => Err(
            Error::RuntimeConfig(WindowsSetting::TcpRcvWndMss.message(message.as_str())),
        ),
    }
}

} // verus!
