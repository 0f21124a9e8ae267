//! What the settings of a process select.

use vstd::prelude::*;
use vstd::string::*;

use crate::error::Error;
use crate::laws::numerals;
use crate::mutex::init_park_from_env;
use crate::stack_impl;
use crate::stack_impl::{
    initialize_windows_runtime_config, initialize_windows_tcp_rcv_window_once,
    parse_windows_tcp_rcv_window_mss, timer_interval, window_answer, TcpWindowLimits,
    WindowsRuntime,
};
use crate::text;
use crate::text::{RawSetting, Setting};
use crate::udp;
use crate::udp::{
    default_udp_runtime_config, initialize_windows_udp_runtime_config,
    parse_windows_udp_notify_mode, parse_windows_udp_reserve_mode,
    parse_windows_udp_send_gate_mode, windows_udp_runtime_config, WindowsSetting,
    WindowsUdpNotifyMode, WindowsUdpReserveMode, WindowsUdpRuntimeConfig, WindowsUdpSendGateMode,
};

verus! {

/// The names of the modes, character by character where they differ.
proof fn lemma_mode_names()
    ensures
        "legacy"@ != "mpsc"@,
        "always"@ != "on-block"@,
{
    reveal_strlit("legacy");
    reveal_strlit("mpsc");
    reveal_strlit("always");
    reveal_strlit("on-block");
    assert("legacy"@.len() != "mpsc"@.len());
    assert("always"@.len() != "on-block"@.len());
}

/// A text selects a notify mode exactly where it is the name of that mode, and readers are
/// woken twice where nothing is set. Any other text is refused, and quoted.
pub proof fn law_a_notify_mode_is_selected_by_its_name(
    raw: RawSetting<'_>,
    selected: Result<WindowsUdpNotifyMode, String>,
    mode: WindowsUdpNotifyMode,
    name: &'static str,
)
    requires
        call_ensures(parse_windows_udp_notify_mode, (raw,), selected),
        call_ensures(WindowsUdpNotifyMode::as_str, (mode,), name),
    ensures
        raw matches RawSetting::Text(text) ==> {
            &&& selected == Ok::<WindowsUdpNotifyMode, String>(mode) <==> text@ == name@
            &&& selected matches Err(message) ==> message@ == "value must be legacy or mpsc, got "@
                + text::debug_quoted(text@)
        },
        raw is Unset ==> selected == Ok::<WindowsUdpNotifyMode, String>(
            WindowsUdpNotifyMode::Legacy,
        ),
        raw is NotUnicode ==> (selected matches Err(message) && message@
            == "value must be valid UTF-8"@),
{
    lemma_mode_names();
}

/// A text selects a reserve mode exactly where it is the name of that mode, and room is
/// reserved on blocking where nothing is set. Any other text is refused, and quoted.
pub proof fn law_a_reserve_mode_is_selected_by_its_name(
    raw: RawSetting<'_>,
    selected: Result<WindowsUdpReserveMode, String>,
    mode: WindowsUdpReserveMode,
    name: &'static str,
)
    requires
        call_ensures(parse_windows_udp_reserve_mode, (raw,), selected),
        call_ensures(WindowsUdpReserveMode::as_str, (mode,), name),
    ensures
        raw matches RawSetting::Text(text) ==> {
            &&& selected == Ok::<WindowsUdpReserveMode, String>(mode) <==> text@ == name@
            &&& selected matches Err(message) ==> message@
                == "value must be always or on-block, got "@ + text::debug_quoted(text@)
        },
        raw is Unset ==> selected == Ok::<WindowsUdpReserveMode, String>(
            WindowsUdpReserveMode::OnBlock,
        ),
        raw is NotUnicode ==> (selected matches Err(message) && message@
            == "value must be valid UTF-8"@),
{
    lemma_mode_names();
}

/// A text selects a send gate mode exactly where it is the name of that mode, and sends always
/// line up where nothing is set. Any other text is refused, and quoted.
pub proof fn law_a_send_gate_mode_is_selected_by_its_name(
    raw: RawSetting<'_>,
    selected: Result<WindowsUdpSendGateMode, String>,
    mode: WindowsUdpSendGateMode,
    name: &'static str,
)
    requires
        call_ensures(parse_windows_udp_send_gate_mode, (raw,), selected),
        call_ensures(WindowsUdpSendGateMode::as_str, (mode,), name),
    ensures
        raw matches RawSetting::Text(text) ==> {
            &&& selected == Ok::<WindowsUdpSendGateMode, String>(mode) <==> text@ == name@
            &&& selected matches Err(message) ==> message@
                == "value must be always or on-block, got "@ + text::debug_quoted(text@)
        },
        raw is Unset ==> selected == Ok::<WindowsUdpSendGateMode, String>(
            WindowsUdpSendGateMode::Always,
        ),
        raw is NotUnicode ==> (selected matches Err(message) && message@
            == "value must be valid UTF-8"@),
{
    lemma_mode_names();
}

/// The names under which modes are set.
pub proof fn law_modes_have_their_names(
    notify: WindowsUdpNotifyMode,
    notify_name: &'static str,
    reserve: WindowsUdpReserveMode,
    reserve_name: &'static str,
    gate: WindowsUdpSendGateMode,
    gate_name: &'static str,
)
    requires
        call_ensures(WindowsUdpNotifyMode::as_str, (notify,), notify_name),
        call_ensures(WindowsUdpReserveMode::as_str, (reserve,), reserve_name),
        call_ensures(WindowsUdpSendGateMode::as_str, (gate,), gate_name),
    ensures
        notify is Legacy <==> notify_name@ == "legacy"@,
        notify is Mpsc <==> notify_name@ == "mpsc"@,
        reserve is Always <==> reserve_name@ == "always"@,
        reserve is OnBlock <==> reserve_name@ == "on-block"@,
        gate is Always <==> gate_name@ == "always"@,
        gate is OnBlock <==> gate_name@ == "on-block"@,
{
    lemma_mode_names();
}

/// Settings have names of their own, and a message about one begins with its name.
pub proof fn law_settings_have_names_of_their_own(
    a: WindowsSetting,
    b: WindowsSetting,
    a_name: &'static str,
    b_name: &'static str,
    message: &str,
    full: String,
)
    requires
        call_ensures(WindowsSetting::name, (a,), a_name),
        call_ensures(WindowsSetting::name, (b,), b_name),
        call_ensures(WindowsSetting::message, (a, message), full),
    ensures
        a_name@ == b_name@ <==> a == b,
        full@ == a_name@ + ": "@ + message@,
        a is TcpRcvWndMss ==> a_name@ == "PANDA_LWIP_TCP_RCV_WND_MSS"@,
        a is UdpNotify ==> a_name@ == "PANDA_WINDOWS_LWIP_UDP_NOTIFY"@,
        a is UdpReserve ==> a_name@ == "PANDA_WINDOWS_LWIP_UDP_RESERVE"@,
        a is UdpSendGate ==> a_name@ == "PANDA_WINDOWS_LWIP_UDP_SEND_GATE"@,
{
    reveal_strlit("PANDA_LWIP_TCP_RCV_WND_MSS");
    reveal_strlit("PANDA_WINDOWS_LWIP_UDP_NOTIFY");
    reveal_strlit("PANDA_WINDOWS_LWIP_UDP_RESERVE");
    reveal_strlit("PANDA_WINDOWS_LWIP_UDP_SEND_GATE");
    assert("PANDA_LWIP_TCP_RCV_WND_MSS"@.len() == 26);
    assert("PANDA_WINDOWS_LWIP_UDP_NOTIFY"@.len() == 29);
    assert("PANDA_WINDOWS_LWIP_UDP_RESERVE"@.len() == 30);
    assert("PANDA_WINDOWS_LWIP_UDP_SEND_GATE"@.len() == 32);
}

/// The number that a setting spells: digits, behind a plus sign or none.
pub open spec fn spelled(text: Seq<char>) -> Option<int> {
    let digits = if text.len() > 0 && text[0] == '+' {
        text.skip(1)
    } else {
        text
    };
    if numerals::all_digits(digits) {
        Some(numerals::value(digits))
    } else {
        None
    }
}

/// A setting selects the timer interval that it spells, from one millisecond to a second. Any
/// other selects a quarter of a second.
pub proof fn law_a_timer_interval_is_what_is_spelled_in_range(raw: RawSetting<'_>, ms: u64)
    requires
        call_ensures(timer_interval, (raw,), ms),
    ensures
        1 <= ms <= 1000,
        match raw {
            RawSetting::Text(text) => match spelled(text@) {
                Some(n) => ms == if 1 <= n <= 1000 {
                    n
                } else {
                    250
                },
                None => ms == 250,
            },
            _ => ms == 250,
        },
{
    if raw is Text {
        numerals::lemma_unsigned(raw->Text_0@);
    }
}

/// A setting selects the window that it spells, where that is from two segments to the most
/// that is compiled in. Where nothing is set it is the default, by the same bounds.
pub proof fn law_a_window_is_what_is_spelled_in_range(
    raw: RawSetting<'_>,
    max: u32,
    default: u32,
    selected: Result<u32, String>,
)
    requires
        call_ensures(parse_windows_tcp_rcv_window_mss, (raw, max, default), selected),
    ensures
        selected matches Ok(mss) ==> 2 <= mss <= max,
        match raw {
            RawSetting::Unset => {
                &&& selected is Ok <==> 2 <= default <= max
                &&& selected matches Ok(mss) ==> mss == default
                &&& selected matches Err(message) ==> message@ == "value must be between 2 and "@
                    + text::decimal(max as nat) + " MSS, got "@ + text::decimal(default as nat)
            },
            RawSetting::NotUnicode => selected matches Err(message) && message@
                == "value must be valid UTF-8"@,
            RawSetting::Text(text) => match spelled(text@) {
                Some(n) => {
                    &&& selected is Ok <==> 2 <= n <= max
                    &&& selected matches Ok(mss) ==> mss == n
                    &&& n <= u32::MAX && selected is Err ==> selected->Err_0@
                        == "value must be between 2 and "@ + text::decimal(max as nat)
                        + " MSS, got "@ + text::decimal(n as nat)
                    &&& n > u32::MAX ==> selected->Err_0@
                        == "value must be an unsigned decimal integer"@
                },
                None => selected matches Err(message) && message@
                    == "value must be an unsigned decimal integer"@,
            },
        },
{
    if raw is Text {
        numerals::lemma_unsigned(raw->Text_0@);
    }
}

/// Whether `raw`, which was read, selects a window of `mss` segments.
pub open spec fn selects_window(raw: Setting, max: u32, default: u32, mss: int) -> bool {
    &&& 2 <= mss <= max
    &&& match raw {
        Setting::Unset => mss == default,
        Setting::NotUnicode => false,
        Setting::Text(text) => spelled(text@) == Some(mss),
    }
}

/// The window is read and applied once. Success means that a window of so many segments was
/// selected, that it is as many segments long, and that it was applied; a failure to apply it
/// is reported as it is. From then on the outcome is returned, whatever is set.
pub proof fn law_the_window_is_read_and_applied_once<
    Read: FnOnce() -> Setting,
    Apply: FnOnce(u32) -> Result<(), String>,
>(
    config: &mut Option<Result<u32, String>>,
    read: Read,
    max: u32,
    default: u32,
    base: u32,
    apply: Apply,
    outcome: Result<u32, String>,
)
    requires
        call_ensures(
            initialize_windows_tcp_rcv_window_once::<Read, Apply>,
            (config, read, max, default, base, apply),
            outcome,
        ),
    ensures
        (*final(config)) is Some,
        (*old(config)) is Some ==> *final(config) == *old(config),
        outcome is Ok <==> (*final(config))->0 is Ok,
        outcome matches Ok(window) ==> (*final(config))->0->Ok_0 == window,
        outcome matches Err(message) ==> (*final(config))->0->Err_0@ == message@,
        (*old(config)) is None ==> exists|raw: Setting|
            {
                &&& #[trigger] call_ensures(read, (), raw)
                &&& outcome matches Ok(window) ==> {
                    &&& exists|applied: Result<(), String>| #[trigger]
                        call_ensures(apply, (window,), applied) && applied is Ok
                    &&& exists|mss: int| #[trigger]
                        selects_window(raw, max, default, mss) && window == mss * base
                }
                &&& forall|mss: int| #[trigger]
                    selects_window(raw, max, default, mss) && mss * base > u32::MAX ==> (
                    outcome matches Err(message) && message@
                        == "active TCP receive window overflowed u32"@)
                &&& forall|mss: int| #[trigger]
                    selects_window(raw, max, default, mss) && mss * base <= u32::MAX && outcome
                        is Err ==> exists|refusal: Result<(), String>| #[trigger]
                        call_ensures(apply, ((mss * base) as u32,), refusal) && refusal is Err
                            && refusal->Err_0@ == outcome->Err_0@
            },
{
    if (*old(config)) is None {
        let stored = (*final(config))->0;
        let raw = choose|raw: Setting|
            #[trigger] call_ensures(read, (), raw) && match stack_impl::window_of(
                raw@,
                max,
                default,
                base,
            ) {
                Err(message) => text::outcome_view(stored) == Err::<u32, Seq<char>>(message),
                Ok(window) => stack_impl::applies(apply, window, stored),
            };
        lemma_selects_window(raw, max, default);
        let mss = stack_impl::window_mss_of(raw@, max, default)->Ok_0 as int;
        if stack_impl::window_of(raw@, max, default, base) is Ok {
            assert(selects_window(raw, max, default, mss));
            let window = stack_impl::window_of(raw@, max, default, base)->Ok_0;
            let applied = choose|applied: Result<(), String>|
                #[trigger] call_ensures(apply, (window,), applied) && match applied {
                    Ok(()) => stored == Ok::<u32, String>(window),
                    Err(message) => stored == Err::<u32, String>(message),
                };
            assert(call_ensures(apply, (window,), applied));
        }
        assert forall|other: int| #[trigger]
            selects_window(raw, max, default, other) && other * base > u32::MAX implies (
        outcome matches Err(message) && message@
            == "active TCP receive window overflowed u32"@) by {
            assert(selects_window(raw, max, default, mss));
            assert(other == mss);
        }
        assert forall|other: int| #[trigger]
            selects_window(raw, max, default, other) && other * base <= u32::MAX && outcome
                is Err implies exists|refusal: Result<(), String>| #[trigger]
            call_ensures(apply, ((other * base) as u32,), refusal) && refusal is Err
                && refusal->Err_0@ == outcome->Err_0@ by {
            assert(selects_window(raw, max, default, mss));
            assert(other == mss);
        }
        assert(call_ensures(read, (), raw));
    }
}

/// A setting selects a window exactly where reading it does.
proof fn lemma_selects_window(raw: Setting, max: u32, default: u32)
    ensures
        match stack_impl::window_mss_of(raw@, max, default) {
            Ok(mss) => selects_window(raw, max, default, mss as int),
            Err(_) => forall|mss: int| !(#[trigger] selects_window(raw, max, default, mss)),
        },
        forall|a: int, b: int| #[trigger]
            selects_window(raw, max, default, a) && #[trigger] selects_window(
                raw,
                max,
                default,
                b,
            ) ==> a == b,
{
    if raw is Text {
        numerals::lemma_unsigned(raw->Text_0@);
    }
}

/// The stack takes a window exactly where it answers that all is well, and a refusal tells the
/// setting and the bytes.
pub proof fn law_the_stack_takes_or_refuses_a_window(
    window: u32,
    code: i8,
    outcome: Result<(), String>,
)
    requires
        call_ensures(window_answer, (window, code), outcome),
    ensures
        outcome is Ok <==> code == 0,
        outcome matches Err(message) ==> message@ == "PANDA_LWIP_TCP_RCV_WND_MSS"@ + " produced "@
            + text::decimal(window as nat) + " bytes outside the C runtime bounds"@,
{
}

/// Whether a setting that was read selects a notify mode.
pub open spec fn selects_notify(raw: Setting, mode: WindowsUdpNotifyMode) -> bool {
    match raw {
        Setting::Unset => mode is Legacy,
        Setting::NotUnicode => false,
        Setting::Text(text) => text@ == if mode is Legacy {
            "legacy"@
        } else {
            "mpsc"@
        },
    }
}

/// Whether a setting that was read selects a reserve mode.
pub open spec fn selects_reserve(raw: Setting, mode: WindowsUdpReserveMode) -> bool {
    match raw {
        Setting::Unset => mode is OnBlock,
        Setting::NotUnicode => false,
        Setting::Text(text) => text@ == if mode is Always {
            "always"@
        } else {
            "on-block"@
        },
    }
}

/// Whether a setting that was read selects a send gate mode.
pub open spec fn selects_gate(raw: Setting, mode: WindowsUdpSendGateMode) -> bool {
    match raw {
        Setting::Unset => mode is Always,
        Setting::NotUnicode => false,
        Setting::Text(text) => text@ == if mode is Always {
            "always"@
        } else {
            "on-block"@
        },
    }
}

/// Whether the notify mode was read, and selected.
pub open spec fn notify_selected<Read: Fn(WindowsSetting) -> Setting>(read: Read) -> bool {
    exists|raw: Setting, mode: WindowsUdpNotifyMode|
        #[trigger] call_ensures(read, (WindowsSetting::UdpNotify,), raw)
            && #[trigger] selects_notify(raw, mode)
}

/// Whether the reserve mode was read, and selected.
pub open spec fn reserve_selected<Read: Fn(WindowsSetting) -> Setting>(read: Read) -> bool {
    exists|raw: Setting, mode: WindowsUdpReserveMode|
        #[trigger] call_ensures(read, (WindowsSetting::UdpReserve,), raw)
            && #[trigger] selects_reserve(raw, mode)
}

/// Why a setting that was read selects no mode; `expected` says what it should have been.
pub open spec fn refusal(raw: Setting, expected: Seq<char>) -> Seq<char> {
    match raw {
        Setting::Text(text) => expected + text::debug_quoted(text@),
        _ => "value must be valid UTF-8"@,
    }
}

/// The UDP modes are read once: success means that each setting was read and selected its
/// mode, and a failure is that of the first that did not. From then on the outcome is kept,
/// whatever is set.
pub proof fn law_the_udp_modes_are_read_once<Read: Fn(WindowsSetting) -> Setting>(
    config: &mut Option<Result<WindowsUdpRuntimeConfig, String>>,
    read: &Read,
    outcome: Result<(), Error>,
)
    requires
        call_ensures(
            initialize_windows_udp_runtime_config::<Read>,
            (config, read),
            outcome,
        ),
    ensures
        (*final(config)) is Some,
        (*old(config)) is Some ==> *final(config) == *old(config),
        outcome is Ok <==> (*final(config))->0 is Ok,
        outcome matches Err(error) ==> (error matches Error::RuntimeConfig(message) && message@
            == (*final(config))->0->Err_0@),
        (*old(config)) is None && outcome is Err ==> {
            let message = (*final(config))->0->Err_0@;
            ||| exists|raw: Setting|
                {
                    &&& #[trigger] call_ensures(*read, (WindowsSetting::UdpNotify,), raw)
                    &&& forall|mode: WindowsUdpNotifyMode| !(#[trigger] selects_notify(raw, mode))
                    &&& message == "PANDA_WINDOWS_LWIP_UDP_NOTIFY"@ + ": "@ + refusal(
                        raw,
                        "value must be legacy or mpsc, got "@,
                    )
                }
            ||| notify_selected(*read) && exists|raw: Setting|
                {
                    &&& #[trigger] call_ensures(*read, (WindowsSetting::UdpReserve,), raw)
                    &&& forall|mode: WindowsUdpReserveMode| !(#[trigger] selects_reserve(raw, mode))
                    &&& message == "PANDA_WINDOWS_LWIP_UDP_RESERVE"@ + ": "@ + refusal(
                        raw,
                        "value must be always or on-block, got "@,
                    )
                }
            ||| notify_selected(*read) && reserve_selected(*read) && exists|raw: Setting|
                {
                    &&& #[trigger] call_ensures(*read, (WindowsSetting::UdpSendGate,), raw)
                    &&& forall|mode: WindowsUdpSendGateMode| !(#[trigger] selects_gate(raw, mode))
                    &&& message == "PANDA_WINDOWS_LWIP_UDP_SEND_GATE"@ + ": "@ + refusal(
                        raw,
                        "value must be always or on-block, got "@,
                    )
                }
        },
        (*old(config)) is None && outcome is Ok ==> {
            let modes = (*final(config))->0->Ok_0;
            &&& exists|raw: Setting|
                #[trigger] call_ensures(*read, (WindowsSetting::UdpNotify,), raw) && selects_notify(
                    raw,
                    modes.notify,
                )
            &&& exists|raw: Setting|
                #[trigger] call_ensures(*read, (WindowsSetting::UdpReserve,), raw)
                    && selects_reserve(raw, modes.reserve)
            &&& exists|raw: Setting|
                #[trigger] call_ensures(*read, (WindowsSetting::UdpSendGate,), raw)
                    && selects_gate(raw, modes.send_gate)
        },
{
    lemma_mode_names();
    if (*old(config)) is None {
        let stored = (*final(config))->0;
        let notify = choose|raw: Setting|
            #[trigger] call_ensures(*read, (WindowsSetting::UdpNotify,), raw)
                && match udp::notify_mode_of(raw@) {
                Ok(notify) => udp::reserve_read(*read, notify, stored),
                Err(message) => text::outcome_view(stored) == Err::<
                    WindowsUdpRuntimeConfig,
                    Seq<char>,
                >(udp::setting_error(WindowsSetting::UdpNotify, message)),
            };
        assert(call_ensures(*read, (WindowsSetting::UdpNotify,), notify));
        if udp::notify_mode_of(notify@) is Ok {
            let n = udp::notify_mode_of(notify@)->Ok_0;
            assert(selects_notify(notify, n));
            assert(notify_selected(*read));
            let reserve = choose|raw: Setting|
                #[trigger] call_ensures(*read, (WindowsSetting::UdpReserve,), raw)
                    && match udp::reserve_mode_of(raw@) {
                    Ok(reserve) => udp::send_gate_read(*read, n, reserve, stored),
                    Err(message) => text::outcome_view(stored) == Err::<
                        WindowsUdpRuntimeConfig,
                        Seq<char>,
                    >(udp::setting_error(WindowsSetting::UdpReserve, message)),
                };
            assert(call_ensures(*read, (WindowsSetting::UdpReserve,), reserve));
            if udp::reserve_mode_of(reserve@) is Ok {
                let r = udp::reserve_mode_of(reserve@)->Ok_0;
                assert(selects_reserve(reserve, r));
                assert(reserve_selected(*read));
                let gate = choose|raw: Setting|
                    #[trigger] call_ensures(*read, (WindowsSetting::UdpSendGate,), raw)
                        && text::outcome_view(stored) == match udp::send_gate_mode_of(raw@) {
                        Ok(send_gate) => Ok(
                            WindowsUdpRuntimeConfig { notify: n, reserve: r, send_gate },
                        ),
                        Err(message) => Err(
                            udp::setting_error(WindowsSetting::UdpSendGate, message),
                        ),
                    };
                assert(call_ensures(*read, (WindowsSetting::UdpSendGate,), gate));
            }
        }
    }
}

/// The modes of a process whose settings were valid are those that were kept; without settings
/// a reader is woken twice, and a waiting send lines up and reserves before every attempt.
pub proof fn law_kept_modes_are_used(
    config: Option<Result<WindowsUdpRuntimeConfig, String>>,
    kept: WindowsUdpRuntimeConfig,
    default: WindowsUdpRuntimeConfig,
)
    requires
        call_ensures(windows_udp_runtime_config, (&config,), kept),
        call_ensures(default_udp_runtime_config, (), default),
    ensures
        config == Some(Ok::<WindowsUdpRuntimeConfig, String>(kept)) || !(config is Some
            && config->0 is Ok),
        default.notify is Legacy,
        default.reserve is Always,
        default.send_gate is Always,
{
}

/// The settings of a process succeed together or fail together, once: where the window failed
/// the modes are not touched, and what was kept stays. Only Windows has any.
pub proof fn law_runtime_settings_succeed_together<
    Read: Fn(WindowsSetting) -> Setting,
    Apply: FnOnce(u32) -> i8,
>(
    windows: bool,
    runtime: &mut WindowsRuntime,
    limits: TcpWindowLimits,
    read: Read,
    apply: Apply,
    outcome: Result<(), Error>,
)
    requires
        call_ensures(
            initialize_windows_runtime_config::<Read, Apply>,
            (windows, runtime, limits, read, apply),
            outcome,
        ),
    ensures
        !windows ==> outcome is Ok && *final(runtime) == *old(runtime),
        windows ==> {
            let window = final(runtime).tcp_rcv_window;
            &&& outcome is Ok <==> (window matches Some(Ok(_)) && final(runtime).udp matches Some(
                Ok(_),
            ))
            &&& window is Some
            &&& old(runtime).tcp_rcv_window is Some ==> window == old(runtime).tcp_rcv_window
            &&& old(runtime).udp is Some ==> final(runtime).udp == old(runtime).udp
            &&& window matches Some(Err(_)) ==> final(runtime).udp == old(runtime).udp
            &&& window matches Some(Ok(_)) ==> final(runtime).udp is Some
            &&& window matches Some(Err(message)) ==> (outcome matches Err(error)
                && error matches Error::RuntimeConfig(said) && said@
                == "PANDA_LWIP_TCP_RCV_WND_MSS"@ + ": "@ + message@)
            &&& window matches Some(Ok(_)) ==> (final(runtime).udp matches Some(Err(message)) ==> (
            outcome matches Err(error) && error matches Error::RuntimeConfig(said) && said@
                == message@))
            &&& old(runtime).tcp_rcv_window is None && window->0 is Err ==> exists|raw: Setting|
                {
                    &&& #[trigger] call_ensures(read, (WindowsSetting::TcpRcvWndMss,), raw)
                    &&& forall|mss: int| #[trigger]
                        selects_window(
                            raw,
                            limits.tcp_wnd / limits.base_mss,
                            limits.runtime_default / limits.base_mss,
                            mss,
                        ) && mss * limits.base_mss <= u32::MAX ==> exists|code: i8| #[trigger]
                            call_ensures(apply, ((mss * limits.base_mss) as u32,), code) && code
                                != 0 && window->0->Err_0@ == "PANDA_LWIP_TCP_RCV_WND_MSS"@
                                + " produced "@ + text::decimal((mss * limits.base_mss) as nat)
                                + " bytes outside the C runtime bounds"@
                }
            &&& old(runtime).tcp_rcv_window is None && window->0 is Ok ==> {
                &&& call_ensures(apply, (window->0->Ok_0,), 0i8)
                &&& exists|raw: Setting, mss: int|
                    #[trigger] call_ensures(read, (WindowsSetting::TcpRcvWndMss,), raw)
                        && #[trigger] selects_window(
                        raw,
                        limits.tcp_wnd / limits.base_mss,
                        limits.runtime_default / limits.base_mss,
                        mss,
                    ) && window->0->Ok_0 == mss * limits.base_mss
            }
        },
{
    if windows && old(runtime).tcp_rcv_window is None {
        let stored = final(runtime).tcp_rcv_window->0;
        let max = limits.tcp_wnd / limits.base_mss;
        let default = limits.runtime_default / limits.base_mss;
        let raw = choose|raw: Setting|
            #[trigger] call_ensures(read, (WindowsSetting::TcpRcvWndMss,), raw)
                && match stack_impl::window_of(raw@, max, default, limits.base_mss) {
                Err(message) => text::outcome_view(stored) == Err::<u32, Seq<char>>(message),
                Ok(window) => stack_impl::asks(apply, window, stored),
            };
        lemma_selects_window(raw, max, default);
        let mss = stack_impl::window_mss_of(raw@, max, default)->Ok_0 as int;
        assert(call_ensures(read, (WindowsSetting::TcpRcvWndMss,), raw));
        if stored is Ok {
            assert(selects_window(raw, max, default, mss));
        } else {
            assert forall|other: int| #[trigger]
                selects_window(raw, max, default, other) && other * limits.base_mss
                    <= u32::MAX implies exists|code: i8| #[trigger]
                call_ensures(apply, ((other * limits.base_mss) as u32,), code) && code != 0
                    && stored->Err_0@ == "PANDA_LWIP_TCP_RCV_WND_MSS"@ + " produced "@
                    + text::decimal((other * limits.base_mss) as nat)
                    + " bytes outside the C runtime bounds"@ by {
                assert(selects_window(raw, max, default, mss));
                assert(other == mss);
            }
        }
    }
}

/// A setting that is borrowed says what it said, and nothing has been read at first.
pub proof fn law_a_borrowed_setting_says_the_same(
    setting: Setting,
    raw: RawSetting<'_>,
    runtime: WindowsRuntime,
)
    requires
        call_ensures(Setting::as_raw, (&setting,), raw),
        call_ensures(WindowsRuntime::new, (), runtime),
    ensures
        setting is Unset <==> raw is Unset,
        setting is NotUnicode <==> raw is NotUnicode,
        setting matches Setting::Text(text) ==> (raw matches RawSetting::Text(borrowed)
            && borrowed@ == text@),
        runtime.tcp_rcv_window is None && runtime.udp is None,
{
    assert(raw@ == setting@);
}

/// Parking is turned on by a one, where it is supported, and off by a zero. It stays as it is
/// where nothing is set, and anything else is refused.
pub proof fn law_parking_is_switched_by_zero_and_one(
    supported: bool,
    raw: RawSetting<'_>,
    parked: Result<Option<bool>, String>,
)
    requires
        call_ensures(init_park_from_env, (supported, raw), parked),
    ensures
        parked matches Ok(Some(true)) <==> supported && (raw matches RawSetting::Text(text)
            && text@ == "1"@),
        parked matches Ok(Some(false)) <==> (raw matches RawSetting::Text(text) && text@ == "0"@),
        parked matches Ok(None) <==> raw is Unset,
        raw is NotUnicode ==> (parked matches Err(message) && message@
            == "PANDA_LWIP_LOCK_PARK must be \"0\" or \"1\", got None"@),
        raw matches RawSetting::Text(text) ==> {
            &&& text@ == "1"@ && !supported ==> (parked matches Err(message) && message@
                == "PANDA_LWIP_LOCK_PARK=1 is not supported on mobile packet tunnels"@)
            &&& text@ != "0"@ && text@ != "1"@ ==> (parked matches Err(message) && message@
                == "PANDA_LWIP_LOCK_PARK must be \"0\" or \"1\", got Some("@
                + text::debug_quoted(text@) + ")"@)
        },
{
    reveal_strlit("0");
    reveal_strlit("1");
    assert("0"@[0] != "1"@[0]);
}

} // verus!
