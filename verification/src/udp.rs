//! UDP over one stack: a socket that takes in all datagrams, and sends that never
//! put a part of a datagram into the egress queue.

use tokio::sync::mpsc::{Receiver, Sender, WeakSender};
use vstd::prelude::*;
use vstd::string::*;

use crate::addr::SocketAddr;
use crate::channel;
use crate::channel::{
    egress_ask, egress_capacity, egress_clone, egress_max_capacity, try_recv, udp_channel,
    udp_try_send, RecvOutcome, SendAnswer, SendOutcome, UdpPkt,
};
use crate::counter;
use crate::err::{ERR_ABRT, ERR_MEM, ERR_OK};
use crate::error::Error;
use crate::io::{ErrorKind, IoError, Poll};
use crate::packet::{IpPacket, PacketPools};
use crate::stack_impl;
use crate::stack_impl::clamp;
use crate::text;
use crate::text::{append_decimal, append_signed, prefixed, quote, same_text, RawSetting, Setting};

verus! {

pub const UDP_HEADER_LEN: usize = 8;

pub const IPV4_HEADER_LEN: usize = 20;

pub const IPV6_HEADER_LEN: usize = 40;

pub const IPV6_FRAGMENT_HEADER_LEN: usize = 8;

pub const IPV6_MINIMUM_MTU: usize = 1280;

/// How the reader of a socket learns of a datagram.
#[derive(Clone, Copy, Debug, PartialEq, Eq, Structural)]
pub enum WindowsUdpNotifyMode {
    /// By the queue, and once more by a waker of its own.
    Legacy,
    /// By the queue alone.
    Mpsc,
}

/// When a waiting send reserves room in the egress queue.
#[derive(Clone, Copy, Debug, PartialEq, Eq, Structural)]
pub enum WindowsUdpReserveMode {
    /// Before every attempt.
    Always,
    /// After an attempt that would block.
    OnBlock,
}

/// When a waiting send lines up behind others.
#[derive(Clone, Copy, Debug, PartialEq, Eq, Structural)]
pub enum WindowsUdpSendGateMode {
    /// Before the first attempt.
    Always,
    /// After an attempt that would block.
    OnBlock,
}

impl WindowsUdpNotifyMode {
    /// The name of the mode in settings.
    pub fn as_str(self) -> (name: &'static str)
        ensures
            name@ == match self {
                WindowsUdpNotifyMode::Legacy => "legacy"@,
                WindowsUdpNotifyMode::Mpsc => "mpsc"@,
            },
    {
        match self {
            WindowsUdpNotifyMode::Legacy => "legacy",
            WindowsUdpNotifyMode::Mpsc => "mpsc",
        }
    }
}

impl WindowsUdpReserveMode {
    /// The name of the mode in settings.
    pub fn as_str(self) -> (name: &'static str)
        ensures
            name@ == match self {
                WindowsUdpReserveMode::Always => "always"@,
                WindowsUdpReserveMode::OnBlock => "on-block"@,
            },
    {
        match self {
            WindowsUdpReserveMode::Always => "always",
            WindowsUdpReserveMode::OnBlock => "on-block",
        }
    }
}

impl WindowsUdpSendGateMode {
    /// The name of the mode in settings.
    pub fn as_str(self) -> (name: &'static str)
        ensures
            name@ == match self {
                WindowsUdpSendGateMode::Always => "always"@,
                WindowsUdpSendGateMode::OnBlock => "on-block"@,
            },
    {
        match self {
            WindowsUdpSendGateMode::Always => "always",
            WindowsUdpSendGateMode::OnBlock => "on-block",
        }
    }
}

/// The UDP modes of the process.
#[derive(Clone, Copy, Debug, PartialEq, Eq, Structural)]
pub struct WindowsUdpRuntimeConfig {
    pub notify: WindowsUdpNotifyMode,
    pub reserve: WindowsUdpReserveMode,
    pub send_gate: WindowsUdpSendGateMode,
}

/// What a setting chooses between two names: the first or the second, or an error.
pub open spec fn chosen<T>(
    raw: text::SettingView,
    default: T,
    first_name: Seq<char>,
    first: T,
    second_name: Seq<char>,
    second: T,
    expected: Seq<char>,
) -> Result<T, Seq<char>> {
    match raw {
        text::SettingView::Unset => Ok(default),
        text::SettingView::NotUnicode => Err("value must be valid UTF-8"@),
        text::SettingView::Text(text) => if text == first_name {
            Ok(first)
        } else if text == second_name {
            Ok(second)
        } else {
            Err(expected + text::debug_quoted(text))
        },
    }
}

/// The notify mode that a setting chooses.
pub open spec fn notify_mode_of(raw: text::SettingView) -> Result<WindowsUdpNotifyMode, Seq<char>> {
    chosen(
        raw,
        WindowsUdpNotifyMode::Legacy,
        "legacy"@,
        WindowsUdpNotifyMode::Legacy,
        "mpsc"@,
        WindowsUdpNotifyMode::Mpsc,
        "value must be legacy or mpsc, got "@,
    )
}

/// The reserve mode that a setting chooses.
pub open spec fn reserve_mode_of(raw: text::SettingView) -> Result<
    WindowsUdpReserveMode,
    Seq<char>,
> {
    chosen(
        raw,
        WindowsUdpReserveMode::OnBlock,
        "always"@,
        WindowsUdpReserveMode::Always,
        "on-block"@,
        WindowsUdpReserveMode::OnBlock,
        "value must be always or on-block, got "@,
    )
}

/// The send gate mode that a setting chooses.
pub open spec fn send_gate_mode_of(raw: text::SettingView) -> Result<
    WindowsUdpSendGateMode,
    Seq<char>,
> {
    chosen(
        raw,
        WindowsUdpSendGateMode::Always,
        "always"@,
        WindowsUdpSendGateMode::Always,
        "on-block"@,
        WindowsUdpSendGateMode::OnBlock,
        "value must be always or on-block, got "@,
    )
}

/// Reads a setting that chooses between two names.
fn choose_mode<T: Copy>(
    raw: RawSetting<'_>,
    default: T,
    first_name: &str,
    first: T,
    second_name: &str,
    second: T,
    expected: &str,
) -> (mode: Result<T, String>)
    ensures
        text::outcome_view(mode) == chosen(
            raw@,
            default,
            first_name@,
            first,
            second_name@,
            second,
            expected@,
        ),
{
    match raw {
        RawSetting::Unset => Ok(default),
        RawSetting::NotUnicode => Err("value must be valid UTF-8".to_owned()),
        RawSetting::Text(text) => {
            if same_text(text, first_name) {
                Ok(first)
            } else if same_text(text, second_name) {
                Ok(second)
            } else {
                let quoted = quote(text);
                Err(prefixed(expected, quoted.as_str()))
            }
        },
    }
}

/// Reads the notify mode.
pub fn parse_windows_udp_notify_mode(raw: RawSetting<'_>) -> (mode: Result<
    WindowsUdpNotifyMode,
    String,
>)
    ensures
        text::outcome_view(mode) == notify_mode_of(raw@),
{
    choose_mode(
        raw,
        WindowsUdpNotifyMode::Legacy,
        "legacy",
        WindowsUdpNotifyMode::Legacy,
        "mpsc",
        WindowsUdpNotifyMode::Mpsc,
        "value must be legacy or mpsc, got ",
    )
}

/// Reads the reserve mode.
pub fn parse_windows_udp_reserve_mode(raw: RawSetting<'_>) -> (mode: Result<
    WindowsUdpReserveMode,
    String,
>)
    ensures
        text::outcome_view(mode) == reserve_mode_of(raw@),
{
    choose_mode(
        raw,
        WindowsUdpReserveMode::OnBlock,
        "always",
        WindowsUdpReserveMode::Always,
        "on-block",
        WindowsUdpReserveMode::OnBlock,
        "value must be always or on-block, got ",
    )
}

/// Reads the send gate mode.
pub fn parse_windows_udp_send_gate_mode(raw: RawSetting<'_>) -> (mode: Result<
    WindowsUdpSendGateMode,
    String,
>)
    ensures
        text::outcome_view(mode) == send_gate_mode_of(raw@),
{
    choose_mode(
        raw,
        WindowsUdpSendGateMode::Always,
        "always",
        WindowsUdpSendGateMode::Always,
        "on-block",
        WindowsUdpSendGateMode::OnBlock,
        "value must be always or on-block, got ",
    )
}

/// The settings of the process environment that the library reads.
#[derive(Clone, Copy, Debug, PartialEq, Eq, Structural)]
pub enum WindowsSetting {
    TcpRcvWndMss,
    UdpNotify,
    UdpReserve,
    UdpSendGate,
}

impl WindowsSetting {
    /// The name of the setting.
    pub open spec fn spec_name(self) -> Seq<char> {
        match self {
            WindowsSetting::TcpRcvWndMss => "PANDA_LWIP_TCP_RCV_WND_MSS"@,
            WindowsSetting::UdpNotify => "PANDA_WINDOWS_LWIP_UDP_NOTIFY"@,
            WindowsSetting::UdpReserve => "PANDA_WINDOWS_LWIP_UDP_RESERVE"@,
            WindowsSetting::UdpSendGate => "PANDA_WINDOWS_LWIP_UDP_SEND_GATE"@,
        }
    }

    /// The name of the setting.
    pub fn name(self) -> (name: &'static str)
        ensures
            name@ == self.spec_name(),
    {
        match self {
            WindowsSetting::TcpRcvWndMss => "PANDA_LWIP_TCP_RCV_WND_MSS",
            WindowsSetting::UdpNotify => "PANDA_WINDOWS_LWIP_UDP_NOTIFY",
            WindowsSetting::UdpReserve => "PANDA_WINDOWS_LWIP_UDP_RESERVE",
            WindowsSetting::UdpSendGate => "PANDA_WINDOWS_LWIP_UDP_SEND_GATE",
        }
    }

    /// A message about the setting.
    pub fn message(self, message: &str) -> (full: String)
        ensures
            full@ == self.spec_name() + ": "@ + message@,
    {
        let mut full = self.name().to_owned();
        full.append(": ");
        full.append(message);
        full
    }
}

/// What is said of a setting that is not valid.
pub open spec fn setting_error(setting: WindowsSetting, message: Seq<char>) -> Seq<char> {
    setting.spec_name() + ": "@ + message
}

/// Whether `config` is what asking `read` for the send gate mode gives, the other
/// modes being known.
pub open spec fn send_gate_read<Read: Fn(WindowsSetting) -> Setting>(
    read: Read,
    notify: WindowsUdpNotifyMode,
    reserve: WindowsUdpReserveMode,
    config: Result<WindowsUdpRuntimeConfig, String>,
) -> bool {
    exists|raw: Setting|
        #[trigger] call_ensures(read, (WindowsSetting::UdpSendGate,), raw) && text::outcome_view(
            config,
        ) == match send_gate_mode_of(raw@) {
            Ok(send_gate) => Ok(WindowsUdpRuntimeConfig { notify, reserve, send_gate }),
            Err(message) => Err(setting_error(WindowsSetting::UdpSendGate, message)),
        }
}

/// Whether `config` is what asking `read` for the reserve mode and then for the
/// send gate mode gives, the notify mode being known.
pub open spec fn reserve_read<Read: Fn(WindowsSetting) -> Setting>(
    read: Read,
    notify: WindowsUdpNotifyMode,
    config: Result<WindowsUdpRuntimeConfig, String>,
) -> bool {
    exists|raw: Setting|
        #[trigger] call_ensures(read, (WindowsSetting::UdpReserve,), raw) && match reserve_mode_of(
            raw@,
        ) {
            Ok(reserve) => send_gate_read(read, notify, reserve, config),
            Err(message) => text::outcome_view(config) == Err::<WindowsUdpRuntimeConfig, Seq<char>>(
                setting_error(WindowsSetting::UdpReserve, message),
            ),
        }
}

/// Whether `read` may be asked for the UDP settings: for each one only after those
/// before it proved valid.
pub open spec fn udp_readable<Read: Fn(WindowsSetting) -> Setting>(read: Read) -> bool {
    &&& call_requires(read, (WindowsSetting::UdpNotify,))
    &&& forall|notify: Setting|
        #[trigger] call_ensures(read, (WindowsSetting::UdpNotify,), notify) && notify_mode_of(
            notify@,
        ) is Ok ==> call_requires(read, (WindowsSetting::UdpReserve,))
    &&& forall|notify: Setting, reserve: Setting|
        #[trigger] call_ensures(read, (WindowsSetting::UdpNotify,), notify) && notify_mode_of(
            notify@,
        ) is Ok && #[trigger] call_ensures(read, (WindowsSetting::UdpReserve,), reserve)
            && reserve_mode_of(reserve@) is Ok ==> call_requires(
            read,
            (WindowsSetting::UdpSendGate,),
        )
}

/// Whether `config` is what asking `read` for the UDP settings gives.
pub open spec fn udp_config_read<Read: Fn(WindowsSetting) -> Setting>(
    read: Read,
    config: Result<WindowsUdpRuntimeConfig, String>,
) -> bool {
    exists|raw: Setting|
        #[trigger] call_ensures(read, (WindowsSetting::UdpNotify,), raw) && match notify_mode_of(
            raw@,
        ) {
            Ok(notify) => reserve_read(read, notify, config),
            Err(message) => text::outcome_view(config) == Err::<WindowsUdpRuntimeConfig, Seq<char>>(
                setting_error(WindowsSetting::UdpNotify, message),
            ),
        }
}

/// Reads the UDP modes. Each setting is read only after the one before it proved
/// valid.
fn read_udp_config<Read: Fn(WindowsSetting) -> Setting>(read: &Read) -> (config: Result<
    WindowsUdpRuntimeConfig,
    String,
>)
    requires
        udp_readable(*read),
    ensures
        udp_config_read(*read, config),
{
    let notify_raw = read(WindowsSetting::UdpNotify);
    let notify = match parse_windows_udp_notify_mode(notify_raw.as_raw()) {
        Ok(mode) => mode,
        Err(message) => return Err(WindowsSetting::UdpNotify.message(message.as_str())),
    };
    let reserve_raw = read(WindowsSetting::UdpReserve);
    let reserve = match parse_windows_udp_reserve_mode(reserve_raw.as_raw()) {
        Ok(mode) => mode,
        Err(message) => return Err(WindowsSetting::UdpReserve.message(message.as_str())),
    };
    let gate_raw = read(WindowsSetting::UdpSendGate);
    match parse_windows_udp_send_gate_mode(gate_raw.as_raw()) {
        Ok(send_gate) => Ok(WindowsUdpRuntimeConfig { notify, reserve, send_gate }),
        Err(message) => Err(WindowsSetting::UdpSendGate.message(message.as_str())),
    }
}

/// Reads the UDP modes of the process once. The outcome is kept, be it success or
/// failure, and no setting is read again: `read` need not be there to be asked then.
pub fn initialize_windows_udp_runtime_config<Read: Fn(WindowsSetting) -> Setting>(
    config: &mut Option<Result<WindowsUdpRuntimeConfig, String>>,
    read: &Read,
) -> (outcome: Result<(), Error>)
    requires
        (*old(config)) is None ==> udp_readable(*read),
    ensures
        (*final(config)) is Some,
        (*old(config)) is Some ==> *final(config) == *old(config),
        (*old(config)) is None ==> udp_config_read(*read, (*final(config))->0),
        match outcome {
            Ok(()) => (*final(config))->0 is Ok,
            Err(error) => (*final(config))->0 matches Err(message) && error.configures(message@),
        },
{
    if config.is_none() {
        *config = Some(read_udp_config(read));
    }
    match config.as_ref().unwrap() {
        Ok(_) => Ok(()),
        Err(message) => Err(Error::RuntimeConfig(message.clone())),
    }
}

/// The UDP modes of the process, which have been read and are valid.
pub fn windows_udp_runtime_config(
    config: &Option<Result<WindowsUdpRuntimeConfig, String>>,
) -> (modes: WindowsUdpRuntimeConfig)
    requires
        config is Some && config->0 is Ok,
    ensures
        config->0->Ok_0 == modes,
{
    match config.as_ref().unwrap() {
        Ok(modes) => *modes,
        Err(_) => WindowsUdpRuntimeConfig {
            notify: WindowsUdpNotifyMode::Legacy,
            reserve: WindowsUdpReserveMode::OnBlock,
            send_gate: WindowsUdpSendGateMode::Always,
        },
    }
}

/// The modes of platforms without settings: a reader is woken twice, and a waiting
/// send lines up and reserves before every attempt.
pub fn default_udp_runtime_config() -> (modes: WindowsUdpRuntimeConfig)
    ensures
        modes == (WindowsUdpRuntimeConfig {
            notify: WindowsUdpNotifyMode::Legacy,
            reserve: WindowsUdpReserveMode::Always,
            send_gate: WindowsUdpSendGateMode::Always,
        }),
{
    WindowsUdpRuntimeConfig {
        notify: WindowsUdpNotifyMode::Legacy,
        reserve: WindowsUdpReserveMode::Always,
        send_gate: WindowsUdpSendGateMode::Always,
    }
}

/// UDP telemetry: how many datagrams were dropped because the queue was full. The
/// number wraps around.
#[derive(Clone, Copy, Debug, PartialEq, Eq, Structural)]
pub struct UdpRuntimeStats {
    pub ingress_queue_drops: u64,
}

impl Default for UdpRuntimeStats {
    fn default() -> (stats: Self)
        ensures
            stats.ingress_queue_drops == 0,
    {
        UdpRuntimeStats { ingress_queue_drops: 0 }
    }
}

/// The UDP telemetry as it stands in `counters`.
pub fn udp_runtime_stats(counters: &UdpRuntimeStats) -> (stats: UdpRuntimeStats)
    ensures
        stats == *counters,
{
    *counters
}

/// The length of the IP header towards a destination.
pub open spec fn ip_header_len(destination: SocketAddr) -> int {
    if destination.ip is V6 {
        IPV6_HEADER_LEN as int
    } else {
        IPV4_HEADER_LEN as int
    }
}

/// How many bytes of a datagram one fragment carries towards a destination: what
/// the MTU leaves beside the headers, in whole units of eight. IPv6 fragments keep
/// to the minimum MTU. Not positive where nothing is left.
pub open spec fn fragment_payload(destination: SocketAddr, mtu: u16) -> int {
    let room = if destination.ip is V6 {
        (if mtu < IPV6_MINIMUM_MTU {
            mtu as int
        } else {
            IPV6_MINIMUM_MTU as int
        }) - IPV6_HEADER_LEN - IPV6_FRAGMENT_HEADER_LEN
    } else {
        mtu - IPV4_HEADER_LEN
    };
    room / 8 * 8
}

/// How many packets a datagram takes. The error is the kind and the message.
pub open spec fn egress_slots(data_len: usize, destination: SocketAddr, mtu: u16) -> Result<
    int,
    Seq<char>,
> {
    let transport = data_len + UDP_HEADER_LEN;
    let total = transport + ip_header_len(destination);
    let each = fragment_payload(destination, mtu);
    if total > usize::MAX {
        Err("UDP datagram is too large"@)
    } else if total <= mtu {
        Ok(1)
    } else if each <= 0 {
        Err("MTU "@ + text::decimal(mtu as nat) + " is too small for UDP fragmentation"@)
    } else if transport + each - 1 > usize::MAX {
        Err("UDP datagram is too large"@)
    } else {
        Ok((transport + each - 1) / each)
    }
}

/// How many packets a datagram of `data_len` bytes takes on its way to
/// `destination`.
pub fn udp_egress_slots(data_len: usize, destination: &SocketAddr, mtu: u16) -> (slots: Result<
    usize,
    IoError,
>)
    ensures
        match slots {
            Ok(slots) => egress_slots(data_len, *destination, mtu) == Ok::<int, Seq<char>>(
                slots as int,
            ),
            Err(error) => egress_slots(data_len, *destination, mtu) matches Err(message)
                && error.describes(ErrorKind::InvalidInput, message),
        },
{
    let transport_len: usize = match data_len.checked_add(UDP_HEADER_LEN) {
        Some(len) => len,
        None => return Err(IoError::new(ErrorKind::InvalidInput, "UDP datagram is too large")),
    };
    let v6 = destination.is_ipv6();
    let link_mtu: usize = mtu as usize;
    let ip_len: usize = if v6 {
        IPV6_HEADER_LEN
    } else {
        IPV4_HEADER_LEN
    };
    let headers_len: usize = if v6 {
        IPV6_HEADER_LEN + IPV6_FRAGMENT_HEADER_LEN
    } else {
        IPV4_HEADER_LEN
    };
    let fragment_mtu: usize = if v6 && link_mtu > IPV6_MINIMUM_MTU {
        IPV6_MINIMUM_MTU
    } else {
        link_mtu
    };
    let total_len: usize = match transport_len.checked_add(ip_len) {
        Some(len) => len,
        None => return Err(IoError::new(ErrorKind::InvalidInput, "UDP datagram is too large")),
    };
    if total_len <= link_mtu {
        return Ok(1);
    }
    let payload: usize = if fragment_mtu >= headers_len {
        (fragment_mtu - headers_len) / 8 * 8
    } else {
        0
    };
    if payload == 0 {
        let mut message = "MTU ".to_owned();
        append_decimal(&mut message, mtu as u64);
        message.append(" is too small for UDP fragmentation");
        return Err(IoError { kind: ErrorKind::InvalidInput, message });
    }
    match transport_len.checked_add(payload - 1) {
        Some(len) => Ok(len / payload),
        None => Err(IoError::new(ErrorKind::InvalidInput, "UDP datagram is too large")),
    }
}

/// A datagram takes as few packets as it can: they carry all of it, and one fewer
/// would not.
pub proof fn law_slots_are_the_fewest_fragments(
    data_len: usize,
    destination: SocketAddr,
    mtu: u16,
    slots: int,
)
    requires
        egress_slots(data_len, destination, mtu) == Ok::<int, Seq<char>>(slots),
    ensures
        slots >= 1,
        data_len + UDP_HEADER_LEN + ip_header_len(destination) <= mtu ==> slots == 1,
        data_len + UDP_HEADER_LEN + ip_header_len(destination) > mtu ==> {
            let each = fragment_payload(destination, mtu);
            &&& each > 0
            &&& each % 8 == 0
            &&& slots * each >= data_len + UDP_HEADER_LEN
            &&& (slots - 1) * each < data_len + UDP_HEADER_LEN
        },
{
    let transport = data_len + UDP_HEADER_LEN;
    let each = fragment_payload(destination, mtu);
    if transport + ip_header_len(destination) > mtu {
        let n = transport + each - 1;
        vstd::arithmetic::div_mod::lemma_fundamental_div_mod(n, each);
        vstd::arithmetic::div_mod::lemma_mod_bound(n, each);
        let q = n / each;
        let r = n % each;
        assert(each * q + r == n);
        assert(q * each == each * q) by (nonlinear_arith);
        assert((q - 1) * each == q * each - each) by (nonlinear_arith);
        assert(q >= 1) by (nonlinear_arith)
            requires
                each * q + r == n,
                n >= each,
                0 <= r < each,
        ;
    }
}

/// The message of a datagram that the egress queue can never hold.
pub open spec fn too_many_slots(required: usize, limit: usize) -> Seq<char> {
    "UDP datagram requires "@ + text::decimal(required as nat)
        + " egress slots but the queue capacity is "@ + text::decimal(limit as nat)
}

/// The message of a datagram that the egress queue cannot hold now.
pub open spec fn too_few_free(required: usize, free: usize) -> Seq<char> {
    "UDP datagram requires "@ + text::decimal(required as nat) + " egress slots but only "@
        + text::decimal(free as nat) + " are available"@
}

/// The error of a send whose egress queue is gone.
pub fn egress_closed() -> (error: IoError)
    ensures
        error.describes(ErrorKind::BrokenPipe, "lwIP egress queue is closed"@),
{
    IoError::new(ErrorKind::BrokenPipe, "lwIP egress queue is closed")
}

/// Whether an egress queue made for `limit` packets can ever hold `required`.
pub fn fits_queue(required: usize, limit: usize) -> (fits: Result<(), IoError>)
    ensures
        match fits {
            Ok(()) => required <= limit,
            Err(error) => required > limit && error.describes(
                ErrorKind::InvalidInput,
                too_many_slots(required, limit),
            ),
        },
{
    if required > limit {
        let mut message = "UDP datagram requires ".to_owned();
        append_decimal(&mut message, required as u64);
        message.append(" egress slots but the queue capacity is ");
        append_decimal(&mut message, limit as u64);
        return Err(IoError { kind: ErrorKind::InvalidInput, message });
    }
    Ok(())
}

/// Whether `admitted` answers for a datagram that takes `required` packets while the
/// egress queue, made for `limit` packets, has room for `free`.
pub open spec fn admits(
    required: usize,
    limit: usize,
    free: usize,
    admitted: Result<(), IoError>,
) -> bool {
    match admitted {
        Ok(()) => required <= limit && required <= free,
        Err(error) => if required > limit {
            error.describes(ErrorKind::InvalidInput, too_many_slots(required, limit))
        } else {
            &&& required > free
            &&& error.describes(ErrorKind::WouldBlock, too_few_free(required, free))
        },
    }
}

/// Whether a datagram that takes `required` packets may be handed to the stack
/// while the egress queue, made for `limit` packets, has room for `free`. It may
/// where all of its packets fit, so that no part of it is ever dropped.
pub fn admit_udp(required: usize, limit: usize, free: usize) -> (admitted: Result<(), IoError>)
    ensures
        admits(required, limit, free, admitted),
{
    match fits_queue(required, limit) {
        Ok(()) => {},
        Err(error) => return Err(error),
    }
    if free < required {
        let mut message = "UDP datagram requires ".to_owned();
        append_decimal(&mut message, required as u64);
        message.append(" egress slots but only ");
        append_decimal(&mut message, free as u64);
        message.append(" are available");
        return Err(IoError { kind: ErrorKind::WouldBlock, message });
    }
    Ok(())
}

/// The outcome of a datagram that the stack answered with `code`.
pub fn udp_sent(code: i8) -> (outcome: Result<(), IoError>)
    ensures
        match outcome {
            Ok(()) => code == ERR_OK,
            Err(error) => code != ERR_OK && error.describes(
                if code == ERR_ABRT {
                    ErrorKind::BrokenPipe
                } else {
                    ErrorKind::Other
                },
                "udp_sendto error: "@ + text::signed_decimal(code as int),
            ),
        },
{
    if code == ERR_OK {
        return Ok(());
    }
    let kind = if code == ERR_ABRT {
        ErrorKind::BrokenPipe
    } else {
        ErrorKind::Other
    };
    let mut message = "udp_sendto error: ".to_owned();
    append_signed(&mut message, code);
    Err(IoError { kind, message })
}

/// A datagram that may be handed to the stack: how many packets it takes, and the
/// sender that keeps the egress queue open meanwhile. The caller hands it over
/// before it releases the stack's lock.
pub struct UdpSubmission {
    pub slots: usize,
    pub sender: Sender<IpPacket>,
}

impl UdpSubmission {
    /// The sender is one of the queue of `egress_tx`, which was asked once how much
    /// room there is, and had enough.
    pub open spec fn of_queue(&self, egress_tx: WeakSender<IpPacket>) -> bool {
        let rooms = channel::egress_rooms(self.sender);
        &&& channel::egress_limit(self.sender) == channel::weak_egress_limit(egress_tx)
        &&& channel::egress_queue(self.sender) == channel::weak_egress_queue(egress_tx)
        &&& rooms.len() == 1
        &&& self.slots <= rooms[0]
    }
}

/// Asks the egress queue how much room there is, and whether a datagram that takes
/// `required` packets may therefore be handed to the stack now.
pub fn send_udp(sender: &mut Sender<IpPacket>, required: usize) -> (admitted: Result<(), IoError>)
    ensures
        ({
            let rooms = channel::egress_rooms(*final(sender));
            &&& rooms == channel::egress_rooms(*old(sender)).push(rooms.last())
            &&& admits(required, channel::egress_limit(*old(sender)), rooms.last(), admitted)
        }),
        channel::egress_limit(*final(sender)) == channel::egress_limit(*old(sender)),
        channel::egress_queue(*final(sender)) == channel::egress_queue(*old(sender)),
        channel::egress_put(*final(sender)) == channel::egress_put(*old(sender)),
{
    let limit: usize = egress_max_capacity(sender);
    let free: usize = egress_capacity(sender);
    admit_udp(required, limit, free)
}

/// Whether `submission` answers for a datagram that takes `slots` packets, where
/// `sender` is that of the egress queue: without one the queue is closed, and with one
/// the room that it answers decides.
pub open spec fn submits(
    sender: Option<Sender<IpPacket>>,
    slots: usize,
    submission: Result<UdpSubmission, IoError>,
) -> bool {
    match sender {
        None => submission matches Err(error) && error.describes(
            ErrorKind::BrokenPipe,
            "lwIP egress queue is closed"@,
        ),
        Some(sender) => match submission {
            Ok(submission) => {
                let rooms = channel::egress_rooms(submission.sender);
                &&& submission.slots == slots
                &&& rooms == channel::egress_rooms(sender).push(rooms.last())
                &&& slots <= rooms.last()
                &&& slots <= channel::egress_limit(sender)
                &&& channel::egress_limit(submission.sender) == channel::egress_limit(sender)
                &&& channel::egress_queue(submission.sender) == channel::egress_queue(sender)
            },
            Err(error) => exists|asked: Sender<IpPacket>|
                {
                    let rooms = #[trigger] channel::egress_rooms(asked);
                    &&& rooms == channel::egress_rooms(sender).push(rooms.last())
                    &&& channel::egress_queue(asked) == channel::egress_queue(sender)
                    &&& admits(slots, channel::egress_limit(sender), rooms.last(), Err(error))
                },
        },
    }
}

/// Whether a datagram that takes `slots` packets may be handed to the stack now, where
/// `sender` is that of the egress queue; without one the queue is closed.
pub fn submit_through(sender: Option<Sender<IpPacket>>, slots: usize) -> (submission: Result<
    UdpSubmission,
    IoError,
>)
    ensures
        submits(sender, slots, submission),
{
    let mut sender = match sender {
        Some(sender) => sender,
        None => return Err(egress_closed()),
    };
    match send_udp(&mut sender, slots) {
        Ok(()) => Ok(UdpSubmission { slots, sender }),
        Err(error) => {
            let ghost rooms = channel::egress_rooms(sender);
            assert(admits(slots, channel::egress_limit(sender), rooms.last(), Err(error)));
            Err(error)
        },
    }
}

/// Whether `checked` answers whether waiting for room for `slots` packets makes sense,
/// where `sender` is that of the egress queue; without one the queue is closed.
pub open spec fn checks(
    sender: Option<Sender<IpPacket>>,
    slots: usize,
    checked: Result<Sender<IpPacket>, IoError>,
) -> bool {
    match sender {
        None => checked matches Err(error) && error.describes(
            ErrorKind::BrokenPipe,
            "lwIP egress queue is closed"@,
        ),
        Some(sender) => {
            let limit = channel::egress_limit(sender);
            match checked {
                Ok(checked) => slots <= limit && checked == sender,
                Err(error) => slots > limit && error.describes(
                    ErrorKind::InvalidInput,
                    too_many_slots(slots, limit),
                ),
            }
        },
    }
}

/// Whether waiting for room for `slots` packets makes sense, where `sender` is that of
/// the egress queue; without one the queue is closed.
pub fn check_through(sender: Option<Sender<IpPacket>>, slots: usize) -> (checked: Result<
    Sender<IpPacket>,
    IoError,
>)
    ensures
        checks(sender, slots, checked),
{
    let sender = match sender {
        Some(sender) => sender,
        None => return Err(egress_closed()),
    };
    match fits_queue(slots, egress_max_capacity(&sender)) {
        Ok(()) => Ok(sender),
        Err(error) => Err(error),
    }
}

/// A UDP socket that takes in all datagrams of its stack. `W` is the handle by
/// which a waiting task is woken.
pub struct UdpSocket<W> {
    /// The stack that the socket lives on.
    pub shard_id: usize,
    /// The address of the socket in its stack.
    pub pcb: usize,
    pub waker: Option<W>,
    pub modes: WindowsUdpRuntimeConfig,
    /// Whether datagrams go to a handler instead of the queue.
    pub direct_ingress: bool,
    pub tx: Sender<(IpPacket, SocketAddr, SocketAddr)>,
    pub rx: Receiver<(IpPacket, SocketAddr, SocketAddr)>,
    pub egress_tx: WeakSender<IpPacket>,
    pub mtu: u16,
    /// The number of the pool for received packets.
    pub packet_pool: u64,
}

/// How many received packets the pool of a socket keeps at most.
pub const UDP_PACKET_CACHE: usize = 256;

/// The largest storage of received packets that the pool of a socket keeps.
pub const UDP_PACKET_MAX_CAPACITY: usize = 4096;

/// The half of a socket that sends.
pub struct SendHalf {
    pub shard_id: usize,
    pub pcb: usize,
    pub egress_tx: WeakSender<IpPacket>,
    pub mtu: u16,
    pub reserve_mode: WindowsUdpReserveMode,
    pub send_gate_mode: WindowsUdpSendGateMode,
}

/// The half of a socket that receives.
pub struct RecvHalf<W> {
    pub socket: UdpSocket<W>,
}

impl<W> UdpSocket<W> {
    /// The pool of the socket is alive, and its handles can be counted.
    pub open spec fn wf(&self, pools: PacketPools) -> bool {
        &&& pools.wf()
        &&& pools.has(self.packet_pool)
        &&& pools.entry(self.packet_pool).handles < usize::MAX
    }

    /// The socket has both ends of one queue of datagrams, open, and the only sender
    /// that the queue ever had. What was taken out is what was put in first, and no
    /// more is queued than the queue was made for.
    pub open spec fn paired(&self) -> bool {
        &&& channel::udp_tx_queue(self.tx) == channel::udp_rx_queue(self.rx)
        &&& channel::udp_only_end(self.tx)
        &&& channel::udp_open(self.rx)
        &&& channel::udp_taken(self.rx).is_prefix_of(channel::udp_put(self.tx))
        &&& self.backlog().len() <= channel::udp_queue_limit(self.tx)
    }

    /// The datagrams that are queued, the oldest first: what was put in and has not
    /// been taken out.
    pub open spec fn backlog(&self) -> Seq<UdpPkt> {
        channel::udp_put(self.tx).skip(channel::udp_taken(self.rx).len() as int)
    }

    /// A socket for `pcb`, which the stack allocated (0 where it could not) and
    /// bound, answering with `bind_code`. Where binding failed the caller removes
    /// it again.
    pub fn new(
        pcb: usize,
        bind_code: i8,
        buffer_size: usize,
        egress_tx: WeakSender<IpPacket>,
        mtu: u16,
        shard_id: usize,
        modes: WindowsUdpRuntimeConfig,
        pools: &mut PacketPools,
    ) -> (socket: Result<Self, Error>)
        requires
            old(pools).wf(),
            pcb != 0 && bind_code == ERR_OK ==> channel::valid_queue_size(buffer_size)
                && old(pools).next_id < u64::MAX,
        ensures
            final(pools).wf(),
            match socket {
                Err(error) => {
                    &&& pcb == 0 || bind_code != ERR_OK
                    &&& error == Error::LwIP(
                        if pcb == 0 {
                            ERR_MEM
                        } else {
                            bind_code
                        },
                    )
                    &&& *final(pools) == *old(pools)
                },
                Ok(socket) => {
                    &&& pcb != 0 && bind_code == ERR_OK
                    &&& socket.wf(*final(pools))
                    &&& socket.shard_id == shard_id
                    &&& socket.pcb == pcb
                    &&& socket.waker is None
                    &&& socket.modes == modes
                    &&& !socket.direct_ingress
                    &&& socket.paired()
                    &&& socket.backlog() == Seq::<UdpPkt>::empty()
                    &&& channel::udp_queue_limit(socket.tx) == buffer_size
                    &&& channel::udp_put(socket.tx) == Seq::<UdpPkt>::empty()
                    &&& channel::udp_sends(socket.tx) == Seq::<SendAnswer>::empty()
                    &&& channel::udp_taken(socket.rx) == Seq::<UdpPkt>::empty()
                    &&& channel::udp_answers(socket.rx) == Seq::<RecvOutcome<UdpPkt>>::empty()
                    &&& socket.egress_tx == egress_tx
                    &&& socket.mtu == mtu
                    &&& old(pools).created(
                        socket.packet_pool,
                        stack_impl::clamped(buffer_size as int, 1, UDP_PACKET_CACHE as int),
                        UDP_PACKET_MAX_CAPACITY as int,
                        *final(pools),
                    )
                },
            },
    {
        if pcb == 0 {
            return Err(Error::LwIP(ERR_MEM));
        }
        if bind_code != ERR_OK {
            return Err(Error::LwIP(bind_code));
        }
        let (tx, rx) = udp_channel(buffer_size);
        let packet_pool: u64 = pools.create(
            clamp(buffer_size, 1, UDP_PACKET_CACHE),
            UDP_PACKET_MAX_CAPACITY,
        );
        Ok(
            UdpSocket {
                shard_id,
                pcb,
                waker: None,
                modes,
                direct_ingress: false,
                tx,
                rx,
                egress_tx,
                mtu,
                packet_pool,
            },
        )
    }

    /// Splits the socket into a half that sends and a half that receives.
    pub fn split(self) -> (halves: (SendHalf, RecvHalf<W>))
        ensures
            halves.0.shard_id == self.shard_id,
            halves.0.pcb == self.pcb,
            channel::weak_egress_limit(halves.0.egress_tx) == channel::weak_egress_limit(
                self.egress_tx,
            ),
            channel::weak_egress_queue(halves.0.egress_tx) == channel::weak_egress_queue(
                self.egress_tx,
            ),
            halves.0.mtu == self.mtu,
            halves.0.reserve_mode == self.modes.reserve,
            halves.0.send_gate_mode == self.modes.send_gate,
            halves.1.socket == self,
    {
        let send = SendHalf {
            shard_id: self.shard_id,
            pcb: self.pcb,
            egress_tx: egress_clone(&self.egress_tx),
            mtu: self.mtu,
            reserve_mode: self.modes.reserve,
            send_gate_mode: self.modes.send_gate,
        };
        (send, RecvHalf { socket: self })
    }

    /// The datagram that arrived with `tot_len` bytes, of which `copied` could be
    /// copied out. A short copy is dropped.
    pub fn copy_udp_packet(
        &self,
        pools: &mut PacketPools,
        tot_len: u16,
        copied: &[u8],
        src_addr: SocketAddr,
        dst_addr: SocketAddr,
    ) -> (datagram: Option<UdpPkt>)
        requires
            self.wf(*old(pools)),
        ensures
            final(pools).wf(),
            datagram is Some == (copied@.len() == tot_len),
            match datagram {
                Some(datagram) => {
                    &&& datagram.0.buffer@ == copied@
                    &&& datagram.0.pool == Some(self.packet_pool)
                    &&& datagram.0.tail is None
                    &&& datagram.0.reserved == old(pools).room(self.packet_pool, tot_len as usize)
                    &&& datagram.1 == src_addr
                    &&& datagram.2 == dst_addr
                    &&& old(pools).acquired(self.packet_pool, *final(pools))
                },
                None => old(pools).bounced(
                    self.packet_pool,
                    tot_len as usize,
                    *final(pools),
                ),
            },
    {
        let mut packet = pools.acquire(self.packet_pool, tot_len as usize).unwrap();
        if copied.len() != tot_len as usize {
            let ghost before = *pools;
            let ghost dropped = packet;
            let _ = pools.release(packet);
            proof {
                old(pools).lemma_bounced(
                    self.packet_pool,
                    tot_len as usize,
                    before,
                    dropped,
                    *pools,
                );
            }
            return None;
        }
        packet.extend(copied);
        assert(packet.buffer@ =~= copied@);
        Some((packet, src_addr, dst_addr))
    }

    /// Whether `after` is this socket after `got` was taken out of its queue: the oldest
    /// datagrams of its own queue, in order.
    pub open spec fn handed_out(&self, got: Seq<UdpPkt>, after: Self) -> bool {
        &&& after == (UdpSocket { rx: after.rx, ..*self })
        &&& channel::udp_taken(after.rx) == channel::udp_taken(self.rx) + got
        &&& self.paired() ==> {
            &&& after.paired()
            &&& self.backlog() == got + after.backlog()
        }
    }

    /// Whether a reader is to be woken by the socket's own waker after a datagram
    /// arrived.
    pub open spec fn notifies(&self) -> bool {
        self.modes.notify == WindowsUdpNotifyMode::Legacy && self.waker is Some
    }

    /// Whether `after` is this socket after a datagram was handed to its queue once,
    /// which answered `answer`: the datagram `item` is there, at the end, where it was
    /// sent, and otherwise nothing is. Its own queue takes it exactly where there is
    /// room.
    pub open spec fn handed(&self, item: UdpPkt, answer: SendAnswer, after: Self) -> bool {
        &&& after == (UdpSocket { tx: after.tx, ..*self })
        &&& channel::udp_sends(after.tx) == channel::udp_sends(self.tx).push(answer)
        &&& channel::udp_put(after.tx) == if answer is Sent {
            channel::udp_put(self.tx).push(item)
        } else {
            channel::udp_put(self.tx)
        }
        &&& channel::udp_tx_queue(after.tx) == channel::udp_tx_queue(self.tx)
        &&& channel::udp_only_end(after.tx) == channel::udp_only_end(self.tx)
        &&& channel::udp_queue_limit(after.tx) == channel::udp_queue_limit(self.tx)
        &&& self.paired() ==> {
            &&& after.paired()
            &&& answer == if self.backlog().len() < channel::udp_queue_limit(self.tx) {
                SendAnswer::Sent
            } else {
                SendAnswer::Full
            }
            &&& after.backlog() == if answer is Sent {
                self.backlog().push(item)
            } else {
                self.backlog()
            }
        }
    }

    /// Puts a datagram into the queue of the socket, at its end. Where the queue does
    /// not take it, it is this datagram that is dropped. Returns whether the reader is
    /// to be woken by the socket's own waker, which is so whatever became of the
    /// datagram.
    pub fn enqueue_windows_udp_packet(
        &mut self,
        datagram: UdpPkt,
        stats: &mut UdpRuntimeStats,
        pools: &mut PacketPools,
    ) -> (notify: bool)
        requires
            old(pools).wf(),
        ensures
            final(pools).wf(),
            notify == old(self).notifies(),
            ({
                let answer = channel::udp_sends(final(self).tx).last();
                &&& old(self).handed(datagram, answer, *final(self))
                &&& drop_counted(*old(stats), answer is Full, *final(stats))
                &&& if answer is Sent {
                    *final(pools) == *old(pools)
                } else {
                    old(pools).released(datagram.0, *final(pools))
                }
            }),
    {
        let outcome = udp_try_send(&mut self.tx, &self.rx, datagram);
        proof {
            if old(self).paired() && outcome is Sent {
                assert(self.backlog() =~= old(self).backlog().push(datagram));
            }
        }
        enqueue_settled(outcome, stats, pools);
        match self.modes.notify {
            WindowsUdpNotifyMode::Legacy => self.waker.is_some(),
            WindowsUdpNotifyMode::Mpsc => false,
        }
    }

    /// The receive callback: takes in a datagram that arrived with `tot_len` bytes,
    /// of which `copied` could be copied out. Where it is queued, it is queued with
    /// its payload and its addresses. Returns whether the reader is to be woken by the
    /// socket's own waker.
    pub fn udp_recv_cb(
        &mut self,
        stats: &mut UdpRuntimeStats,
        pools: &mut PacketPools,
        tot_len: u16,
        copied: &[u8],
        src_addr: SocketAddr,
        dst_addr: SocketAddr,
    ) -> (notify: bool)
        requires
            old(self).wf(*old(pools)),
        ensures
            final(pools).wf(),
            notify == (copied@.len() == tot_len && old(self).notifies()),
            if copied@.len() != tot_len {
                &&& *final(self) == *old(self)
                &&& *final(stats) == *old(stats)
                &&& old(pools).bounced(
                    old(self).packet_pool,
                    tot_len as usize,
                    *final(pools),
                )
            } else {
                let answer = channel::udp_sends(final(self).tx).last();
                let item = channel::udp_put(final(self).tx).last();
                &&& old(self).handed(item, answer, *final(self))
                &&& drop_counted(*old(stats), answer is Full, *final(stats))
                &&& if answer is Sent {
                    &&& item.0.buffer@ == copied@
                    &&& item.0.pool == Some(old(self).packet_pool)
                    &&& item.0.tail is None
                    &&& item.0.reserved == old(pools).room(
                        old(self).packet_pool,
                        tot_len as usize,
                    )
                    &&& item.1 == src_addr
                    &&& item.2 == dst_addr
                    &&& old(pools).acquired(old(self).packet_pool, *final(pools))
                } else {
                    old(pools).bounced(
                        old(self).packet_pool,
                        tot_len as usize,
                        *final(pools),
                    )
                }
            },
    {
        let ghost id = self.packet_pool;
        match self.copy_udp_packet(pools, tot_len, copied, src_addr, dst_addr) {
            None => false,
            Some(datagram) => {
                let ghost before = *pools;
                let ghost taken = datagram;
                let notify = self.enqueue_windows_udp_packet(datagram, stats, pools);
                proof {
                    if !(channel::udp_sends(self.tx).last() is Sent) {
                        old(pools).lemma_bounced(id, tot_len as usize, before, taken.0, *pools);
                    }
                }
                notify
            },
        }
    }

    /// The receive callback where datagrams go to a handler: the datagram for the
    /// handler, which never enters the queue. `None` where `copied` is not all of
    /// its `tot_len` bytes.
    pub fn udp_recv_direct_cb(
        &self,
        pools: &mut PacketPools,
        tot_len: u16,
        copied: &[u8],
        src_addr: SocketAddr,
        dst_addr: SocketAddr,
    ) -> (datagram: Option<UdpPkt>)
        requires
            self.direct_ingress,
            self.wf(*old(pools)),
        ensures
            final(pools).wf(),
            datagram is Some == (copied@.len() == tot_len),
            match datagram {
                Some(datagram) => {
                    &&& datagram.0.buffer@ == copied@
                    &&& datagram.0.pool == Some(self.packet_pool)
                    &&& datagram.0.tail is None
                    &&& datagram.0.reserved == old(pools).room(self.packet_pool, tot_len as usize)
                    &&& datagram.1 == src_addr
                    &&& datagram.2 == dst_addr
                    &&& old(pools).acquired(self.packet_pool, *final(pools))
                },
                None => old(pools).bounced(
                    self.packet_pool,
                    tot_len as usize,
                    *final(pools),
                ),
            },
    {
        self.copy_udp_packet(pools, tot_len, copied, src_addr, dst_addr)
    }

    /// Whether a read is answered by the queue: not where datagrams go to a handler.
    pub fn reads_queue(&self) -> (queue: bool)
        ensures
            queue == !self.direct_ingress,
    {
        !self.direct_ingress
    }

    /// Settles a poll of the queue that came to `poll`. A reader that has to wait
    /// leaves its waker where readers are woken by it.
    pub fn poll_windows_udp_receiver(
        &mut self,
        poll: Poll<Option<UdpPkt>>,
        waker: W,
    ) -> (settled: Poll<Option<UdpPkt>>)
        ensures
            settled == poll,
            *final(self) == (UdpSocket {
                waker: if poll is Pending && old(self).modes.notify == WindowsUdpNotifyMode::Legacy {
                    Some(waker)
                } else {
                    old(self).waker
                },
                ..*old(self)
            }),
    {
        match poll {
            Poll::Ready(datagram) => Poll::Ready(datagram),
            Poll::Pending => {
                match self.modes.notify {
                    WindowsUdpNotifyMode::Legacy => {
                        self.waker = Some(waker);
                    },
                    WindowsUdpNotifyMode::Mpsc => {},
                }
                Poll::Pending
            },
        }
    }

    /// Tears the socket down: its pool loses a handle.
    pub fn teardown(self, pools: &mut PacketPools)
        requires
            old(pools).wf(),
        ensures
            final(pools).wf(),
            old(pools).handle_dropped(self.packet_pool, *final(pools)),
    {
        let _ = pools.drop_handle(self.packet_pool);
    }
}

/// What a datagram does to the telemetry: one that met a full queue is counted, and
/// nothing else is.
pub open spec fn drop_counted(
    before: UdpRuntimeStats,
    full: bool,
    after: UdpRuntimeStats,
) -> bool {
    after.ingress_queue_drops == if full {
        counter::wrapped64(before.ingress_queue_drops + 1)
    } else {
        before.ingress_queue_drops as int
    }
}

/// How many of these answers are that the queue is full.
pub open spec fn full_answers(answers: Seq<SendAnswer>) -> int
    decreases answers.len(),
{
    if answers.len() == 0 {
        0
    } else {
        full_answers(answers.drop_last()) + if answers.last() is Full {
            1int
        } else {
            0int
        }
    }
}

/// The drop counter counts the datagrams that met a full queue, and no others, over
/// any run of datagrams: not those that were delivered, nor those that met a closed
/// queue. It wraps around.
pub proof fn law_drops_count_full_queues(stats: Seq<UdpRuntimeStats>, answers: Seq<SendAnswer>)
    requires
        stats.len() == answers.len() + 1,
        forall|i: int|
            0 <= i < answers.len() ==> #[trigger] drop_counted(
                stats[i],
                answers[i] is Full,
                stats[i + 1],
            ),
    ensures
        stats.last().ingress_queue_drops == counter::wrapped64(
            stats[0].ingress_queue_drops + full_answers(answers),
        ),
    decreases answers.len(),
{
    if answers.len() > 0 {
        let n = answers.len() as int;
        assert forall|i: int| 0 <= i < n - 1 implies #[trigger] drop_counted(
            stats.drop_last()[i],
            answers.drop_last()[i] is Full,
            stats.drop_last()[i + 1],
        ) by {
            assert(drop_counted(stats[i], answers[i] is Full, stats[i + 1]));
        }
        law_drops_count_full_queues(stats.drop_last(), answers.drop_last());
        assert(drop_counted(stats[n - 1], answers[n - 1] is Full, stats[n - 1 + 1]));
    }
}

/// Settles an attempt to put a datagram into the queue of a socket. A full queue
/// drops the datagram and counts it; a closed one just drops it. The storage of a
/// dropped datagram goes back to its pool.
pub fn enqueue_settled(
    outcome: SendOutcome<UdpPkt>,
    stats: &mut UdpRuntimeStats,
    pools: &mut PacketPools,
)
    requires
        old(pools).wf(),
    ensures
        final(pools).wf(),
        drop_counted(*old(stats), outcome is Full, *final(stats)),
        match outcome {
            SendOutcome::Sent => *final(pools) == *old(pools),
            SendOutcome::Full(datagram) => old(pools).released(datagram.0, *final(pools)),
            SendOutcome::Closed(datagram) => old(pools).released(datagram.0, *final(pools)),
        },
{
    match outcome {
        SendOutcome::Sent => {},
        SendOutcome::Full(datagram) => {
            stats.ingress_queue_drops = stats.ingress_queue_drops.wrapping_add(1);
            let _ = pools.release(datagram.0);
        },
        SendOutcome::Closed(datagram) => {
            let _ = pools.release(datagram.0);
        },
    }
}

/// Whether `error` is one with which a datagram that takes `slots` packets is
/// refused: the egress queue has no sender to give; or a sender of it was asked once how
/// much room there is, and the queue was made for fewer, or had too little room.
pub open spec fn refused(error: IoError, slots: usize, egress_tx: WeakSender<IpPacket>) -> bool {
    ||| {
        &&& channel::upgraded(egress_tx, None)
        &&& error.describes(ErrorKind::BrokenPipe, "lwIP egress queue is closed"@)
    }
    ||| exists|asked: Sender<IpPacket>|
        {
            let rooms = #[trigger] channel::egress_rooms(asked);
            &&& rooms.len() == 1
            &&& channel::egress_queue(asked) == channel::weak_egress_queue(egress_tx)
            &&& admits(slots, channel::weak_egress_limit(egress_tx), rooms[0], Err(error))
        }
}

impl SendHalf {
    /// Whether a datagram of `data_len` bytes to `destination` may be handed to the
    /// stack now, without waiting. The caller holds the stack's lock, and hands it
    /// over before releasing that.
    pub fn send_to(&self, data_len: usize, destination: &SocketAddr) -> (submission: Result<
        UdpSubmission,
        IoError,
    >)
        ensures
            match egress_slots(data_len, *destination, self.mtu) {
                Err(message) => submission matches Err(error) && error.describes(
                    ErrorKind::InvalidInput,
                    message,
                ),
                Ok(slots) => match submission {
                    Ok(submission) => {
                        &&& submission.slots == slots
                        &&& slots <= channel::weak_egress_limit(self.egress_tx)
                        &&& submission.of_queue(self.egress_tx)
                    },
                    Err(error) => refused(error, slots as usize, self.egress_tx),
                },
            },
            egress_slots(data_len, *destination, self.mtu) matches Ok(slots) ==> exists|
                answer: Option<Sender<IpPacket>>,
            |
                #[trigger] channel::upgraded(self.egress_tx, answer) && submits(
                    answer,
                    slots as usize,
                    submission,
                ),
    {
        let slots: usize = match udp_egress_slots(data_len, destination, self.mtu) {
            Ok(slots) => slots,
            Err(error) => return Err(error),
        };
        self.try_submit(slots)
    }

    /// Whether a datagram that takes `slots` packets may be handed to the stack now.
    pub fn try_submit(&self, slots: usize) -> (submission: Result<UdpSubmission, IoError>)
        ensures
            match submission {
                Ok(submission) => {
                    &&& submission.slots == slots
                    &&& slots <= channel::weak_egress_limit(self.egress_tx)
                    &&& submission.of_queue(self.egress_tx)
                },
                Err(error) => refused(error, slots, self.egress_tx),
            },
            exists|answer: Option<Sender<IpPacket>>|
                #[trigger] channel::upgraded(self.egress_tx, answer) && submits(
                    answer,
                    slots,
                    submission,
                ),
    {
        submit_through(egress_ask(&self.egress_tx), slots)
    }

    /// Whether waiting for room for `slots` packets makes sense: the egress queue is
    /// open and was made for as many.
    pub fn check_queue(&self, slots: usize) -> (checked: Result<Sender<IpPacket>, IoError>)
        ensures
            match checked {
                Ok(sender) => {
                    &&& slots <= channel::weak_egress_limit(self.egress_tx)
                    &&& channel::egress_limit(sender) == channel::weak_egress_limit(
                        self.egress_tx,
                    )
                    &&& channel::egress_queue(sender) == channel::weak_egress_queue(
                        self.egress_tx,
                    )
                },
                Err(error) => {
                    ||| channel::upgraded(self.egress_tx, None) && error.describes(
                        ErrorKind::BrokenPipe,
                        "lwIP egress queue is closed"@,
                    )
                    ||| slots > channel::weak_egress_limit(self.egress_tx) && error.describes(
                        ErrorKind::InvalidInput,
                        too_many_slots(slots, channel::weak_egress_limit(self.egress_tx)),
                    )
                },
            },
            exists|answer: Option<Sender<IpPacket>>|
                #[trigger] channel::upgraded(self.egress_tx, answer) && checks(
                    answer,
                    slots,
                    checked,
                ),
    {
        check_through(egress_ask(&self.egress_tx), slots)
    }
}

/// Where a waiting send stands.
#[derive(Clone, Copy, Debug, PartialEq, Eq, Structural)]
pub enum SendPhase {
    /// Nothing has been done.
    Start,
    /// An attempt before lining up is under way.
    FastSend,
    /// It lines up behind other sends.
    Gate,
    /// It asks whether waiting makes sense.
    Check,
    /// An attempt before reserving is under way.
    TryFirst,
    /// It waits for room.
    Reserving,
    /// An attempt after room was there is under way.
    AfterReserve,
    /// It is over.
    Over,
}

/// What happened to a waiting send.
#[derive(Debug)]
pub enum SendEvent {
    /// The send begins.
    Started,
    /// An attempt came to this.
    Sent(Result<(), IoError>),
    /// It is its turn.
    GateLocked,
    /// Waiting makes sense, or not.
    QueueChecked(Result<(), IoError>),
    /// There was room, and it has been given back; or the queue was closed.
    Reserved(bool),
}

/// What a waiting send does next.
#[derive(Debug)]
pub enum SendAction {
    /// Make an attempt.
    TrySend,
    /// Wait for its turn.
    LockGate,
    /// Ask whether waiting makes sense.
    CheckQueue,
    /// Wait for room.
    Reserve,
    /// Return this.
    Finish(Result<(), IoError>),
}

/// Whether an attempt has to be made again.
pub open spec fn would_block(sent: Result<(), IoError>) -> bool {
    sent matches Err(error) && error.kind == ErrorKind::WouldBlock
}

/// Whether an event can happen in a phase.
pub open spec fn expects(phase: SendPhase, event: SendEvent) -> bool {
    match phase {
        SendPhase::Start => event is Started,
        SendPhase::FastSend => event is Sent,
        SendPhase::Gate => event is GateLocked,
        SendPhase::Check => event is QueueChecked,
        SendPhase::TryFirst => event is Sent,
        SendPhase::Reserving => event is Reserved,
        SendPhase::AfterReserve => event is Sent,
        SendPhase::Over => false,
    }
}

/// Where an event leads, for every phase in which it can happen.
pub open spec fn next_phase(
    phase: SendPhase,
    reserve: WindowsUdpReserveMode,
    gate: WindowsUdpSendGateMode,
    event: SendEvent,
) -> SendPhase {
    match event {
        SendEvent::Started => match gate {
            WindowsUdpSendGateMode::OnBlock => SendPhase::FastSend,
            WindowsUdpSendGateMode::Always => SendPhase::Gate,
        },
        SendEvent::GateLocked => SendPhase::Check,
        SendEvent::QueueChecked(checked) => if checked is Err {
            SendPhase::Over
        } else {
            match reserve {
                WindowsUdpReserveMode::OnBlock => SendPhase::TryFirst,
                WindowsUdpReserveMode::Always => SendPhase::Reserving,
            }
        },
        SendEvent::Reserved(open) => if open {
            SendPhase::AfterReserve
        } else {
            SendPhase::Over
        },
        SendEvent::Sent(sent) => if !would_block(sent) {
            SendPhase::Over
        } else if phase == SendPhase::FastSend {
            SendPhase::Gate
        } else if phase == SendPhase::TryFirst {
            SendPhase::Reserving
        } else {
            SendPhase::Check
        },
    }
}

/// Whether `action` is what a send does that comes to `phase` by `event`.
pub open spec fn acts(phase: SendPhase, event: SendEvent, action: SendAction) -> bool {
    match phase {
        SendPhase::FastSend => action is TrySend,
        SendPhase::Gate => action is LockGate,
        SendPhase::Check => action is CheckQueue,
        SendPhase::TryFirst => action is TrySend,
        SendPhase::Reserving => action is Reserve,
        SendPhase::AfterReserve => action is TrySend,
        _ => match event {
            SendEvent::Sent(sent) => action == SendAction::Finish(sent),
            SendEvent::QueueChecked(checked) => action == SendAction::Finish(checked),
            _ => action matches SendAction::Finish(Err(error)) && error.describes(
                ErrorKind::BrokenPipe,
                "lwIP egress queue is closed"@,
            ),
        },
    }
}

/// A send that waits for room instead of dropping the datagram. The caller carries
/// out the actions, and reports what came of them.
#[derive(Clone, Copy, Debug)]
pub struct SendWait {
    pub slots: usize,
    pub reserve_mode: WindowsUdpReserveMode,
    pub send_gate_mode: WindowsUdpSendGateMode,
    pub phase: SendPhase,
}

impl SendWait {
    /// Takes in an event, and says what to do next.
    pub fn next(&mut self, event: SendEvent) -> (action: SendAction)
        requires
            expects(old(self).phase, event),
        ensures
            *final(self) == (SendWait {
                phase: next_phase(
                    old(self).phase,
                    old(self).reserve_mode,
                    old(self).send_gate_mode,
                    event,
                ),
                ..*old(self)
            }),
            acts(final(self).phase, event, action),
    {
        match event {
            SendEvent::Started => match self.send_gate_mode {
                WindowsUdpSendGateMode::OnBlock => {
                    self.phase = SendPhase::FastSend;
                    SendAction::TrySend
                },
                WindowsUdpSendGateMode::Always => {
                    self.phase = SendPhase::Gate;
                    SendAction::LockGate
                },
            },
            SendEvent::GateLocked => {
                self.phase = SendPhase::Check;
                SendAction::CheckQueue
            },
            SendEvent::QueueChecked(checked) => match checked {
                Err(error) => {
                    self.phase = SendPhase::Over;
                    SendAction::Finish(Err(error))
                },
                Ok(()) => match self.reserve_mode {
                    WindowsUdpReserveMode::OnBlock => {
                        self.phase = SendPhase::TryFirst;
                        SendAction::TrySend
                    },
                    WindowsUdpReserveMode::Always => {
                        self.phase = SendPhase::Reserving;
                        SendAction::Reserve
                    },
                },
            },
            SendEvent::Reserved(open) => {
                if open {
                    self.phase = SendPhase::AfterReserve;
                    SendAction::TrySend
                } else {
                    self.phase = SendPhase::Over;
                    SendAction::Finish(Err(egress_closed()))
                }
            },
            SendEvent::Sent(sent) => {
                let again = match &sent {
                    Err(error) => error.kind == ErrorKind::WouldBlock,
                    Ok(()) => false,
                };
                if !again {
                    self.phase = SendPhase::Over;
                    return SendAction::Finish(sent);
                }
                if self.phase == SendPhase::FastSend {
                    self.phase = SendPhase::Gate;
                    SendAction::LockGate
                } else if self.phase == SendPhase::TryFirst {
                    self.phase = SendPhase::Reserving;
                    SendAction::Reserve
                } else {
                    self.phase = SendPhase::Check;
                    SendAction::CheckQueue
                }
            },
        }
    }
}

impl SendHalf {
    /// Begins a send of `data_len` bytes to `destination` that waits for room, in
    /// the modes of the socket.
    pub fn send_to_wait(&self, data_len: usize, destination: &SocketAddr) -> (wait: Result<
        SendWait,
        IoError,
    >)
        ensures
            match egress_slots(data_len, *destination, self.mtu) {
                Err(message) => wait matches Err(error) && error.describes(
                    ErrorKind::InvalidInput,
                    message,
                ),
                Ok(slots) => wait == Ok::<SendWait, IoError>(
                    SendWait {
                        slots: slots as usize,
                        reserve_mode: self.reserve_mode,
                        send_gate_mode: self.send_gate_mode,
                        phase: SendPhase::Start,
                    },
                ),
            },
    {
        self.send_to_wait_with_runtime_modes(
            data_len,
            destination,
            self.reserve_mode,
            self.send_gate_mode,
        )
    }

    /// Begins a send of `data_len` bytes to `destination` that waits for room, in
    /// the given modes.
    pub fn send_to_wait_with_runtime_modes(
        &self,
        data_len: usize,
        destination: &SocketAddr,
        reserve_mode: WindowsUdpReserveMode,
        send_gate_mode: WindowsUdpSendGateMode,
    ) -> (wait: Result<SendWait, IoError>)
        ensures
            match egress_slots(data_len, *destination, self.mtu) {
                Err(message) => wait matches Err(error) && error.describes(
                    ErrorKind::InvalidInput,
                    message,
                ),
                Ok(slots) => wait == Ok::<SendWait, IoError>(
                    SendWait {
                        slots: slots as usize,
                        reserve_mode,
                        send_gate_mode,
                        phase: SendPhase::Start,
                    },
                ),
            },
    {
        match udp_egress_slots(data_len, destination, self.mtu) {
            Ok(slots) => Ok(
                SendWait { slots, reserve_mode, send_gate_mode, phase: SendPhase::Start },
            ),
            Err(error) => Err(error),
        }
    }
}

impl<W> RecvHalf<W> {
    /// Directs datagrams to a handler instead of the queue, which can be done once.
    pub fn set_windows_direct_ingress_handler(&mut self) -> (outcome: Result<(), IoError>)
        ensures
            match outcome {
                Ok(()) => !old(self).socket.direct_ingress,
                Err(error) => old(self).socket.direct_ingress && error.describes(
                    ErrorKind::AlreadyExists,
                    "lwIP UDP direct ingress handler is already configured"@,
                ),
            },
            final(self).socket == (UdpSocket { direct_ingress: true, ..old(self).socket }),
    {
        if self.socket.direct_ingress {
            return Err(
                IoError::new(
                    ErrorKind::AlreadyExists,
                    "lwIP UDP direct ingress handler is already configured",
                ),
            );
        }
        self.socket.direct_ingress = true;
        Ok(())
    }

    /// Settles a wait for a datagram; the queue ends with `None`.
    pub fn recv_from(datagram: Option<UdpPkt>) -> (outcome: Result<UdpPkt, IoError>)
        ensures
            match datagram {
                Some(datagram) => outcome == Ok::<UdpPkt, IoError>(datagram),
                None => outcome matches Err(error) && error.describes(
                    ErrorKind::Other,
                    "recv_from udp socket faied: tx closed"@,
                ),
            },
    {
        match datagram {
            Some(datagram) => Ok(datagram),
            None => Err(
                IoError::new(ErrorKind::Other, "recv_from udp socket faied: tx closed"),
            ),
        }
    }

    /// Takes the oldest datagram out of the queue, without waiting, and returns it.
    /// Without one nothing leaves the queue. Where datagrams go to a handler there is
    /// never one.
    pub fn try_recv_from(&mut self) -> (outcome: Result<Option<UdpPkt>, IoError>)
        ensures
            final(self).socket == (UdpSocket { rx: final(self).socket.rx, ..old(self).socket }),
            old(self).socket.direct_ingress ==> outcome == Ok::<Option<UdpPkt>, IoError>(None)
                && *final(self) == *old(self),
            !old(self).socket.direct_ingress ==> {
                let answers = channel::udp_answers(final(self).socket.rx);
                &&& answers == channel::udp_answers(old(self).socket.rx).push(answers.last())
                &&& settles(answers.last(), outcome)
                &&& old(self).socket.handed_out(received(outcome), final(self).socket)
                &&& old(self).socket.paired() ==> outcome == Ok::<Option<UdpPkt>, IoError>(
                    if old(self).socket.backlog().len() > 0 {
                        Some(old(self).socket.backlog()[0])
                    } else {
                        None
                    },
                )
            },
    {
        if self.socket.direct_ingress {
            return Ok(None);
        }
        let ghost before = self.socket;
        let outcome = try_recv(&self.socket.tx, &mut self.socket.rx);
        proof {
            lemma_handed_out(before, self.socket, outcome);
        }
        recv_settled(outcome)
    }

    /// Takes up to `limit` datagrams out of the queue, without waiting, and appends
    /// all of them to `buffer`, in the order in which they left the queue. A closed
    /// queue is an error only where nothing came out.
    pub fn try_recv_many(&mut self, buffer: &mut Vec<UdpPkt>, limit: usize) -> (outcome: Result<
        usize,
        IoError,
    >)
        ensures
            final(self).socket == (UdpSocket { rx: final(self).socket.rx, ..old(self).socket }),
            old(self).socket.direct_ingress ==> outcome == Ok::<usize, IoError>(0)
                && final(buffer)@ == old(buffer)@ && *final(self) == *old(self),
            !old(self).socket.direct_ingress ==> {
                let before = channel::udp_answers(old(self).socket.rx);
                let after = channel::udp_answers(final(self).socket.rx);
                let answers = after.skip(before.len() as int);
                let got = final(buffer)@.skip(old(buffer)@.len() as int);
                &&& after == before + answers
                &&& final(buffer)@ == old(buffer)@ + got
                &&& batch(answers, got, limit, outcome)
                &&& old(self).socket.handed_out(got, final(self).socket)
                &&& limit == 0 ==> *final(self) == *old(self)
                &&& old(self).socket.paired() ==> {
                    let queued = old(self).socket.backlog();
                    let n = if queued.len() < limit {
                        queued.len() as int
                    } else {
                        limit as int
                    };
                    outcome == Ok::<usize, IoError>(n as usize) && got == queued.take(n)
                }
            },
    {
        if self.socket.direct_ingress {
            return Ok(0);
        }
        let ghost held = buffer@;
        let ghost taken = channel::udp_taken(self.socket.rx);
        let ghost answered = channel::udp_answers(self.socket.rx);
        let ghost mut got: Seq<UdpPkt> = Seq::empty();
        let ghost mut answers: Seq<RecvOutcome<UdpPkt>> = Seq::empty();
        proof {
            assert(held + got =~= held);
            assert(taken + got =~= taken);
            assert(answered + answers =~= answered);
            assert(held.skip(held.len() as int) =~= got);
            assert(answered.skip(answered.len() as int) =~= answers);
        }
        let mut count: usize = 0;
        while count < limit
            invariant
                count <= limit,
                self.socket == (UdpSocket { rx: self.socket.rx, ..old(self).socket }),
                !old(self).socket.direct_ingress,
                held == old(buffer)@,
                taken == channel::udp_taken(old(self).socket.rx),
                answered == channel::udp_answers(old(self).socket.rx),
                got.len() == count,
                answers.len() == count,
                forall|i: int|
                    0 <= i < count ==> #[trigger] answers[i] == RecvOutcome::Received(got[i]),
                buffer@ == held + got,
                buffer@.skip(held.len() as int) == got,
                channel::udp_taken(self.socket.rx) == taken + got,
                old(self).socket.handed_out(got, self.socket),
                channel::udp_answers(self.socket.rx) == answered + answers,
                (answered + answers).skip(answered.len() as int) == answers,
                channel::udp_rx_queue(self.socket.rx) == channel::udp_rx_queue(
                    old(self).socket.rx,
                ),
                count == 0 ==> *self == *old(self),
            decreases limit - count,
        {
            let ghost before = self.socket;
            let outcome = try_recv(&self.socket.tx, &mut self.socket.rx);
            let ghost answer = outcome;
            proof {
                lemma_handed_out(before, self.socket, outcome);
                assert((answered + answers).push(answer) =~= answered + answers.push(answer));
                assert((answered + answers.push(answer)).skip(answered.len() as int)
                    =~= answers.push(answer));
            }
            match receive_step(outcome, count) {
                ReceiveStep::Append(datagram) => {
                    proof {
                        assert((held + got).push(datagram) =~= held + got.push(datagram));
                        assert((taken + got).push(datagram) =~= taken + got.push(datagram));
                        assert(got + (seq![datagram] + self.socket.backlog()) =~= got.push(datagram)
                            + self.socket.backlog());
                        got = got.push(datagram);
                        answers = answers.push(answer);
                        assert((held + got).skip(held.len() as int) =~= got);
                    }
                    buffer.push(datagram);
                    count = count + 1;
                },
                ReceiveStep::Stop => {
                    return Ok(count);
                },
                ReceiveStep::Fail(error) => {
                    return Err(error);
                },
            }
        }
        Ok(count)
    }
}

/// Whether `outcome` is what a batch of up to `limit` attempts comes to that were
/// answered by `answers`, with the datagrams `got`: attempts are made until one gets
/// nothing, or `limit` got one. It is an error only where the first one met a closed
/// queue.
pub open spec fn batch(
    answers: Seq<RecvOutcome<UdpPkt>>,
    got: Seq<UdpPkt>,
    limit: usize,
    outcome: Result<usize, IoError>,
) -> bool {
    &&& got.len() <= limit
    &&& answers.len() == if got.len() < limit {
        got.len() + 1
    } else {
        got.len()
    }
    &&& forall|i: int|
        0 <= i < got.len() ==> #[trigger] answers[i] == RecvOutcome::Received(got[i])
    &&& got.len() < limit ==> !(answers.last() is Received)
    &&& if limit > 0 && answers[0] is Disconnected {
        outcome matches Err(error) && error.describes(
            ErrorKind::BrokenPipe,
            "lwIP UDP ingress queue is closed"@,
        )
    } else {
        outcome == Ok::<usize, IoError>(got.len() as usize)
    }
}

/// An attempt to take a datagram out that was answered by `outcome` takes the oldest
/// one of the socket's own queue, if there is one.
proof fn lemma_handed_out<W>(before: UdpSocket<W>, after: UdpSocket<W>, outcome: RecvOutcome<UdpPkt>)
    requires
        after == (UdpSocket { rx: after.rx, ..before }),
        channel::udp_rx_queue(after.rx) == channel::udp_rx_queue(before.rx),
        channel::udp_open(after.rx) == channel::udp_open(before.rx),
        channel::udp_taken(after.rx) == match outcome {
            RecvOutcome::Received(datagram) => channel::udp_taken(before.rx).push(datagram),
            _ => channel::udp_taken(before.rx),
        },
        channel::udp_tx_queue(before.tx) == channel::udp_rx_queue(before.rx)
            && channel::udp_only_end(before.tx) ==> {
            &&& channel::udp_taken(after.rx).is_prefix_of(channel::udp_put(before.tx))
            &&& !(outcome is Received) ==> channel::udp_taken(after.rx) == channel::udp_put(
                before.tx,
            )
            &&& outcome is Disconnected ==> !channel::udp_open(after.rx)
        },
    ensures
        match outcome {
            RecvOutcome::Received(datagram) => {
                &&& before.handed_out(seq![datagram], after)
                &&& before.paired() ==> before.backlog().len() > 0 && before.backlog()[0]
                    == datagram
            },
            RecvOutcome::Empty => {
                &&& before.handed_out(Seq::empty(), after)
                &&& before.paired() ==> before.backlog().len() == 0
            },
            RecvOutcome::Disconnected => {
                &&& before.handed_out(Seq::empty(), after)
                &&& !before.paired()
            },
        },
{
    let taken = channel::udp_taken(before.rx);
    let put = channel::udp_put(before.tx);
    match outcome {
        RecvOutcome::Received(datagram) => {
            assert(taken.push(datagram) =~= taken + seq![datagram]);
            if before.paired() {
                assert(taken.push(datagram)[taken.len() as int] == datagram);
                assert(put[taken.len() as int] == datagram);
                assert(before.backlog() =~= seq![datagram] + after.backlog());
            }
        },
        _ => {
            assert(taken =~= taken + Seq::<UdpPkt>::empty());
            assert(before.backlog() =~= Seq::<UdpPkt>::empty() + after.backlog());
        },
    }
}

/// What an attempt that was settled as `outcome` has taken out.
pub open spec fn received(outcome: Result<Option<UdpPkt>, IoError>) -> Seq<UdpPkt> {
    match outcome {
        Ok(Some(datagram)) => seq![datagram],
        _ => Seq::empty(),
    }
}

/// One step in the life of a socket's queue: a datagram is handed to it, or some are
/// taken out.
pub open spec fn queue_moves<W>(before: UdpSocket<W>, after: UdpSocket<W>) -> bool {
    ||| exists|item: UdpPkt, answer: SendAnswer| #[trigger] before.handed(item, answer, after)
    ||| exists|got: Seq<UdpPkt>| #[trigger] before.handed_out(got, after)
}

/// A reader takes what was put in first, whole and in order, and a queue never holds
/// more than it was made for: over any run of datagrams and reads on a new socket, what
/// was taken out, followed by what is queued, is what was put in.
pub proof fn law_a_reader_takes_what_was_put_in_first<W>(sockets: Seq<UdpSocket<W>>)
    requires
        sockets.len() > 0,
        sockets[0].paired(),
        forall|i: int|
            0 <= i < sockets.len() - 1 ==> #[trigger] queue_moves(sockets[i], sockets[i + 1]),
    ensures
        ({
            let socket = sockets.last();
            &&& socket.paired()
            &&& channel::udp_taken(socket.rx) + socket.backlog() == channel::udp_put(socket.tx)
            &&& socket.backlog().len() <= channel::udp_queue_limit(socket.tx)
        }),
    decreases sockets.len(),
{
    let socket = sockets.last();
    if sockets.len() > 1 {
        let n = sockets.len() - 1;
        let earlier = sockets.drop_last();
        assert forall|i: int| 0 <= i < earlier.len() - 1 implies #[trigger] queue_moves(
            earlier[i],
            earlier[i + 1],
        ) by {
            assert(queue_moves(sockets[i], sockets[i + 1]));
        }
        law_a_reader_takes_what_was_put_in_first(earlier);
        assert(earlier.last() == sockets[n - 1]);
        assert(queue_moves(sockets[n - 1], sockets[n - 1 + 1]));
    }
    let taken = channel::udp_taken(socket.rx);
    let put = channel::udp_put(socket.tx);
    assert(taken + socket.backlog() =~= put);
}

/// Whether `settled` is what an attempt comes to that was answered by `outcome`.
pub open spec fn settles(
    outcome: RecvOutcome<UdpPkt>,
    settled: Result<Option<UdpPkt>, IoError>,
) -> bool {
    match outcome {
        RecvOutcome::Received(datagram) => settled == Ok::<Option<UdpPkt>, IoError>(
            Some(datagram),
        ),
        RecvOutcome::Empty => settled == Ok::<Option<UdpPkt>, IoError>(None),
        RecvOutcome::Disconnected => settled matches Err(error) && error.describes(
            ErrorKind::BrokenPipe,
            "lwIP UDP ingress queue is closed"@,
        ),
    }
}

/// Settles one attempt to take a datagram out of a queue.
pub fn recv_settled(outcome: RecvOutcome<UdpPkt>) -> (settled: Result<Option<UdpPkt>, IoError>)
    ensures
        settles(outcome, settled),
{
    match outcome {
        RecvOutcome::Received(datagram) => Ok(Some(datagram)),
        RecvOutcome::Empty => Ok(None),
        RecvOutcome::Disconnected => Err(
            IoError::new(ErrorKind::BrokenPipe, "lwIP UDP ingress queue is closed"),
        ),
    }
}

/// What taking datagrams out of a queue does after one attempt.
#[derive(Debug)]
pub enum ReceiveStep {
    Append(UdpPkt),
    Stop,
    Fail(IoError),
}

/// Decides what to do after an attempt to take a datagram out of a queue, when
/// `count` came out before.
pub fn receive_step(outcome: RecvOutcome<UdpPkt>, count: usize) -> (step: ReceiveStep)
    ensures
        match outcome {
            RecvOutcome::Received(datagram) => step == ReceiveStep::Append(datagram),
            RecvOutcome::Empty => step is Stop,
            RecvOutcome::Disconnected => if count > 0 {
                step is Stop
            } else {
                step matches ReceiveStep::Fail(error) && error.describes(
                    ErrorKind::BrokenPipe,
                    "lwIP UDP ingress queue is closed"@,
                )
            },
        },
{
    match recv_settled(outcome) {
        Ok(Some(datagram)) => ReceiveStep::Append(datagram),
        Ok(None) => ReceiveStep::Stop,
        Err(error) => if count > 0 {
            ReceiveStep::Stop
        } else {
            ReceiveStep::Fail(error)
        },
    }
}

/// A datagram goes out whole or not at all: it is handed to the stack only where
/// the egress queue has room for every packet that it takes.
pub proof fn law_datagrams_are_atomic(required: usize, limit: usize, free: usize)
    ensures
        forall|admitted: Result<(), IoError>|
            #[trigger] call_ensures(admit_udp, (required, limit, free), admitted) ==> (admitted is Ok
                <==> required <= limit && required <= free),
{
}

/// A waiting send never reports that it would block: it goes on instead.
pub proof fn law_a_waiting_send_never_would_block(
    phase: SendPhase,
    reserve: WindowsUdpReserveMode,
    gate: WindowsUdpSendGateMode,
    event: SendEvent,
    action: SendAction,
)
    requires
        expects(phase, event),
        acts(next_phase(phase, reserve, gate, event), event, action),
        event matches SendEvent::QueueChecked(Err(error)) ==> error.kind != ErrorKind::WouldBlock,
    ensures
        action matches SendAction::Finish(result) ==> !would_block(result),
{
}

/// Whether a send in the phase `before` goes over to `after` on an event.
pub open spec fn moves(
    before: SendPhase,
    reserve: WindowsUdpReserveMode,
    gate: WindowsUdpSendGateMode,
    event: SendEvent,
    after: SendPhase,
) -> bool {
    expects(before, event) && after == next_phase(before, reserve, gate, event)
}

/// Whether `phases` are those of a send that met `events`, from its beginning.
pub open spec fn send_run(
    phases: Seq<SendPhase>,
    events: Seq<SendEvent>,
    reserve: WindowsUdpReserveMode,
    gate: WindowsUdpSendGateMode,
) -> bool {
    &&& phases.len() == events.len() + 1
    &&& phases[0] == SendPhase::Start
    &&& forall|i: int|
        0 <= i < events.len() ==> #[trigger] moves(
            phases[i],
            reserve,
            gate,
            events[i],
            phases[i + 1],
        )
}

/// Whether an event ends a send: an attempt that does not have to be made again, a
/// queue for which waiting makes no sense, or one that was closed meanwhile.
pub open spec fn ends(event: SendEvent) -> bool {
    match event {
        SendEvent::Sent(sent) => !would_block(sent),
        SendEvent::QueueChecked(checked) => checked is Err,
        SendEvent::Reserved(open) => !open,
        _ => false,
    }
}

/// A waiting send hands its datagram over at most once, and it ends with that: every
/// attempt but the last would have blocked. A send that ends otherwise has handed
/// nothing over.
pub proof fn law_a_waiting_send_sends_at_most_once(
    phases: Seq<SendPhase>,
    events: Seq<SendEvent>,
    reserve: WindowsUdpReserveMode,
    gate: WindowsUdpSendGateMode,
)
    requires
        send_run(phases, events, reserve, gate),
    ensures
        forall|i: int|
            0 <= i < events.len() - 1 ==> (#[trigger] events[i] matches SendEvent::Sent(sent)
                ==> would_block(sent)),
        phases.last() == SendPhase::Over <==> events.len() > 0 && ends(events.last()),
{
    assert forall|i: int| 0 <= i < events.len() - 1 implies (
    #[trigger] events[i] matches SendEvent::Sent(sent) ==> would_block(sent)) by {
        assert(moves(phases[i], reserve, gate, events[i], phases[i + 1]));
        assert(moves(phases[i + 1], reserve, gate, events[i + 1], phases[i + 1 + 1]));
    }
    if events.len() > 0 {
        let n = events.len() - 1;
        assert(moves(phases[n], reserve, gate, events[n], phases[n + 1]));
    }
}

/// A waiting send ends once there is room: an attempt is admitted while the queue has
/// room for all packets, room that was waited for leads to an attempt, and an attempt
/// that goes well ends the send with success. Where waiting makes no sense it ends at
/// once, with that error.
pub proof fn law_a_waiting_send_ends_when_there_is_room(
    phase: SendPhase,
    reserve: WindowsUdpReserveMode,
    gate: WindowsUdpSendGateMode,
    event: SendEvent,
    action: SendAction,
    slots: usize,
    limit: usize,
    free: usize,
    admitted: Result<(), IoError>,
)
    requires
        expects(phase, event),
        acts(next_phase(phase, reserve, gate, event), event, action),
        admits(slots, limit, free, admitted),
    ensures
        slots <= limit && slots <= free ==> admitted is Ok,
        event == SendEvent::Reserved(true) ==> action is TrySend,
        event == SendEvent::Sent(Ok(())) ==> action == SendAction::Finish(Ok(())),
        event matches SendEvent::QueueChecked(Err(error)) ==> action == SendAction::Finish(
            Err(error),
        ),
        event == SendEvent::Reserved(false) ==> (action matches SendAction::Finish(Err(error))
            && error.describes(ErrorKind::BrokenPipe, "lwIP egress queue is closed"@)),
{
}

/// Whether an event is one that a send hopes for: room was there, or was waited for,
/// and the queue is open.
pub open spec fn goes_well(event: SendEvent) -> bool {
    match event {
        SendEvent::Sent(sent) => sent is Ok,
        SendEvent::QueueChecked(checked) => checked is Ok,
        SendEvent::Reserved(open) => open,
        _ => true,
    }
}

/// A waiting send for which all goes well is done after a handful of steps, in every
/// mode: it lines up, checks the queue, waits for room and makes one attempt at most,
/// and it is over exactly when that attempt was made.
pub proof fn law_a_waiting_send_for_which_all_goes_well_is_soon_over(
    phases: Seq<SendPhase>,
    events: Seq<SendEvent>,
    reserve: WindowsUdpReserveMode,
    gate: WindowsUdpSendGateMode,
)
    requires
        send_run(phases, events, reserve, gate),
        forall|i: int| 0 <= i < events.len() ==> goes_well(#[trigger] events[i]),
    ensures
        events.len() <= 5,
        events.len() == 5 ==> phases.last() == SendPhase::Over,
        phases.last() == SendPhase::Over <==> events.len() > 0 && events.last() is Sent,
{
    law_a_waiting_send_sends_at_most_once(phases, events, reserve, gate);
    let n = events.len() as int;
    if n > 0 {
        assert(moves(phases[0], reserve, gate, events[0], phases[0int + 1]));
    }
    if n > 1 {
        assert(moves(phases[1], reserve, gate, events[1], phases[1int + 1]));
    }
    if n > 2 {
        assert(moves(phases[2], reserve, gate, events[2], phases[2int + 1]));
    }
    if n > 3 {
        assert(moves(phases[3], reserve, gate, events[3], phases[3int + 1]));
    }
    if n > 4 {
        assert(moves(phases[4], reserve, gate, events[4], phases[4int + 1]));
    }
    if n > 5 {
        assert(moves(phases[5], reserve, gate, events[5], phases[5int + 1]));
    }
}

/// A send in the mode that reserves on blocking waits for room only after an
/// attempt that would block, and one in the mode that lines up on blocking lines up
/// only after such an attempt.
pub proof fn law_on_block_modes_wait_only_after_blocking(
    phase: SendPhase,
    reserve: WindowsUdpReserveMode,
    gate: WindowsUdpSendGateMode,
    event: SendEvent,
    action: SendAction,
)
    requires
        expects(phase, event),
        acts(next_phase(phase, reserve, gate, event), event, action),
    ensures
        reserve == WindowsUdpReserveMode::OnBlock && action is Reserve ==> (
        event matches SendEvent::Sent(sent) && would_block(sent)),
        gate == WindowsUdpSendGateMode::OnBlock && action is LockGate ==> (
        event matches SendEvent::Sent(sent) && would_block(sent)),
{
}

/// A send in the modes that always line up and always reserve makes an attempt only
/// after there was room.
pub proof fn law_always_modes_reserve_before_every_attempt(
    phase: SendPhase,
    event: SendEvent,
    action: SendAction,
)
    requires
        expects(phase, event),
        acts(
            next_phase(
                phase,
                WindowsUdpReserveMode::Always,
                WindowsUdpSendGateMode::Always,
                event,
            ),
            event,
            action,
        ),
    ensures
        action is TrySend ==> event == SendEvent::Reserved(true),
{
}

} // verus!
