//! Notifications: escape sequences, resolution, idle detection and durations.

use deepseek_tui::duration::Duration;
use deepseek_tui::notifications::{
    build_escape, emit_notification, humanize_duration, native_notify, notify_after_idle,
    notify_done_to, poll_idle, resolve_effective_method, resolve_method, terminal_bundle_id,
    wrap_for_multiplexer, Aftermath, Emission, IdleStep, Method, Platform, Terminal,
    DEFAULT_IDLE_THRESHOLD_SECS, IDLE_POLL_INTERVAL_SECS, MAX_IDLE_WAIT_SECS,
};

fn terminal(term_program: &str, term: &str, windows: bool) -> Terminal {
    Terminal { term_program: term_program.to_string(), term: term.to_string(), windows }
}

fn capture_in(
    method: Method,
    in_tmux: bool,
    msg: &str,
    threshold_secs: u64,
    elapsed_secs: u64,
    terminal: &Terminal,
) -> (Vec<u8>, Aftermath) {
    let mut buf: Vec<u8> = Vec::new();
    let left = notify_done_to(
        method,
        in_tmux,
        msg,
        Duration::from_secs(threshold_secs),
        Duration::from_secs(elapsed_secs),
        terminal,
        &mut buf,
    );
    (buf, left)
}

fn capture(
    method: Method,
    in_tmux: bool,
    msg: &str,
    threshold_secs: u64,
    elapsed_secs: u64,
) -> Vec<u8> {
    capture_in(method, in_tmux, msg, threshold_secs, elapsed_secs, &terminal("", "", false)).0
}

#[test]
fn osc9_body_format() {
    let out = capture(Method::Osc9, false, "deepseek: done", 0, 1);
    assert_eq!(out, b"\x1b]9;deepseek: done\x07");
}

#[test]
fn bel_emits_exactly_one_byte() {
    let out = capture(Method::Bel, false, "ignored", 0, 1);
    assert_eq!(out, b"\x07");
}

#[test]
fn off_mode_emits_nothing() {
    let out = capture(Method::Off, false, "ignored", 0, 9999);
    assert!(out.is_empty());
}

/// A native notification goes through a command of the system: the sink stays
/// empty.
#[test]
fn native_method_emits_no_terminal_bytes() {
    let out = capture(Method::Native, false, "hello", 0, 1);
    assert!(out.is_empty());
}

#[test]
fn below_threshold_emits_nothing() {
    let out = capture(Method::Osc9, false, "msg", 30, 29);
    assert!(out.is_empty());
}

#[test]
fn at_threshold_emits() {
    let out = capture(Method::Osc9, false, "msg", 30, 30);
    assert!(!out.is_empty());
}

#[test]
fn tmux_dcs_passthrough_wraps_osc9() {
    let out = capture(Method::Osc9, true, "hello", 0, 1);
    let s = String::from_utf8(out).unwrap();
    assert!(s.starts_with("\x1bPtmux;"), "should start with DCS passthrough");
    assert!(s.ends_with("\x1b\\"), "should end with ST");
    assert!(s.contains("hello"), "should contain message");
}

#[test]
fn kitty_escape_uses_st_terminator() {
    let out = capture(Method::Kitty, false, "done", 0, 1);
    let s = String::from_utf8(out).unwrap();
    assert!(s.contains("99;d=0:p=title"), "should have kitty title seq");
    assert!(s.contains("p=body"), "should have kitty body seq");
    assert!(s.contains("\x1b\\"), "kitty uses ST terminator");
    assert!(!s.contains("\x07"), "kitty should NOT use BEL");
}

#[test]
fn ghostty_escape_format() {
    let out = capture(Method::Ghostty, false, "done", 0, 1);
    let s = String::from_utf8(out).unwrap();
    assert!(s.contains("777;notify;DeepSeek TUI;done"), "should have ghostty seq");
}

#[test]
fn kitty_tmux_dcs_passthrough() {
    let out = capture(Method::Kitty, true, "hello", 0, 1);
    let s = String::from_utf8(out).unwrap();
    assert!(s.starts_with("\x1bPtmux;"), "should start with DCS");
    assert!(s.ends_with("\x1b\\"), "should end with ST");
}

#[test]
fn ghostty_tmux_dcs_passthrough() {
    let out = capture(Method::Ghostty, true, "hello", 0, 1);
    let s = String::from_utf8(out).unwrap();
    assert!(s.starts_with("\x1bPtmux;"), "should start with DCS");
    assert!(s.ends_with("\x1b\\"), "should end with ST");
}

#[test]
fn auto_detect_picks_osc9_for_iterm() {
    assert_eq!(resolve_method(&terminal("iTerm.app", "", false)), Method::Osc9);
    assert_eq!(resolve_method(&terminal("iTerm.app", "", true)), Method::Osc9);
}

#[test]
fn auto_detect_picks_bel_for_unknown_on_unix() {
    assert_eq!(resolve_method(&terminal("xterm-256color", "", false)), Method::Bel);
}

/// On Windows the bell is the error chime, so an unknown terminal gets none.
#[test]
fn auto_detect_picks_off_for_unknown_on_windows() {
    assert_eq!(resolve_method(&terminal("Windows Terminal", "", true)), Method::Off);
}

#[test]
fn auto_detect_picks_osc9_for_wezterm_on_windows() {
    assert_eq!(resolve_method(&terminal("WezTerm", "", true)), Method::Osc9);
}

#[test]
fn auto_detect_picks_osc9_for_cmux() {
    assert_eq!(resolve_method(&terminal("Cmux", "", false)), Method::Osc9);
}

#[test]
fn auto_detect_picks_osc9_for_xterm_ghostty_term_fallback() {
    assert_eq!(resolve_method(&terminal("", "xterm-ghostty", false)), Method::Osc9);
}

#[test]
fn auto_detect_picks_ghostty_from_term_program() {
    assert_eq!(resolve_method(&terminal("Ghostty", "", false)), Method::Ghostty);
}

#[test]
fn auto_detect_picks_kitty_from_term_program() {
    assert_eq!(resolve_method(&terminal("kitty", "", false)), Method::Kitty);
}

#[test]
fn auto_detect_picks_kitty_from_term_fallback() {
    assert_eq!(resolve_method(&terminal("", "xterm-kitty", false)), Method::Kitty);
}

#[test]
fn auto_detect_falls_back_to_bel_for_unrelated_term() {
    assert_eq!(resolve_method(&terminal("", "xterm-256color", false)), Method::Bel);
}

#[test]
fn humanize_duration_seconds_and_minutes() {
    assert_eq!(humanize_duration(Duration::from_secs(0)), "0s");
    assert_eq!(humanize_duration(Duration::from_secs(45)), "45s");
    assert_eq!(humanize_duration(Duration::from_secs(60)), "1m");
    assert_eq!(humanize_duration(Duration::from_secs(72)), "1m 12s");
    // 59m 59s: still under the hour boundary.
    assert_eq!(humanize_duration(Duration::from_secs(3599)), "59m 59s");
}

#[test]
fn humanize_duration_promotes_to_hours_at_one_hour() {
    // 3661s = 1h 1m 1s: only the top two units are kept.
    assert_eq!(humanize_duration(Duration::from_secs(3661)), "1h 1m");
    assert_eq!(humanize_duration(Duration::from_secs(3600)), "1h");
    assert_eq!(humanize_duration(Duration::from_secs(7200)), "2h");
    assert_eq!(humanize_duration(Duration::from_secs(7320)), "2h 2m");
    assert_eq!(humanize_duration(Duration::from_secs(11_550)), "3h 12m");
}

#[test]
fn humanize_duration_handles_multi_day_sessions() {
    assert_eq!(humanize_duration(Duration::from_secs(86_400)), "1d");
    assert_eq!(humanize_duration(Duration::from_secs(90_000)), "1d 1h");
    assert_eq!(
        humanize_duration(Duration::from_secs(2 * 86_400 + 5 * 3600 + 17 * 60)),
        "2d 5h"
    );
}

#[test]
fn humanize_duration_promotes_to_weeks_after_seven_days() {
    assert_eq!(humanize_duration(Duration::from_secs(604_800)), "1w");
    assert_eq!(humanize_duration(Duration::from_secs(604_800 + 86_400)), "1w 1d");
    assert_eq!(
        humanize_duration(Duration::from_secs(3 * 604_800 + 2 * 86_400 + 17 * 3600)),
        "3w 2d"
    );
}

#[test]
fn humanize_duration_drops_fractions_and_takes_the_longest() {
    assert_eq!(humanize_duration(Duration::new(59, 999_999_999)), "59s");
    assert_eq!(humanize_duration(Duration::from_secs(u64::MAX)), "30500568904943w");
}

#[test]
fn tmux_doubles_every_escape_character() {
    assert_eq!(wrap_for_multiplexer("a\x1bb\x1b\\", true), "\x1bPtmux;a\x1b\x1bb\x1b\x1b\\\x1b\\");
    assert_eq!(wrap_for_multiplexer("a\x1bb", false), "a\x1bb");
    assert_eq!(
        build_escape(Method::Osc9, true, "hi"),
        b"\x1bPtmux;\x1b\x1b]9;hi\x07\x1b\\"
    );
    assert_eq!(build_escape(Method::Bel, true, "hi"), b"\x07");
}

#[test]
fn escape_sequences_to_the_byte() {
    assert_eq!(
        build_escape(Method::Kitty, false, "hi"),
        b"\x1b]99;d=0:p=title\x1b\\\x1b]99;p=body;hi\x1b\\\x1b]99;d=1:a=focus\x1b\\"
    );
    assert_eq!(
        build_escape(Method::Ghostty, false, "hi"),
        b"\x1b]777;notify;DeepSeek TUI;hi\x07"
    );
    assert_eq!(build_escape(Method::Osc9, false, "\u{e9}"), b"\x1b]9;\xc3\xa9\x07");
    assert!(build_escape(Method::Auto, false, "hi").is_empty());
    assert!(build_escape(Method::Off, true, "hi").is_empty());
    assert!(build_escape(Method::Native, true, "hi").is_empty());
}

#[test]
fn kitty_stays_silent_behind_tmux() {
    assert!(!build_escape(Method::Kitty, true, "quiet").contains(&7u8));
    assert!(build_escape(Method::Kitty, true, "lou\x07d").contains(&7u8));
}

#[test]
fn message_stands_in_the_sequence() {
    let text = String::from_utf8(build_escape(Method::Kitty, false, "a;b")).unwrap();
    assert!(text.contains("a;b"));
}

#[test]
fn the_sink_keeps_what_it_held() {
    let mut sink: Vec<u8> = vec![1, 2];
    let left = notify_done_to(
        Method::Bel,
        false,
        "",
        Duration::from_secs(0),
        Duration::from_secs(0),
        &terminal("", "", false),
        &mut sink,
    );
    assert_eq!(sink, vec![1, 2, 7]);
    assert_eq!(left, Aftermath::Done);
}

#[test]
fn aftermath_of_each_method() {
    let unix = terminal("", "", false);
    let windows = terminal("", "", true);
    assert_eq!(capture_in(Method::Native, false, "m", 0, 1, &unix).1, Aftermath::NativeNotification);
    assert_eq!(capture_in(Method::Native, false, "m", 2, 1, &unix).1, Aftermath::Done);
    assert_eq!(capture_in(Method::Bel, false, "m", 0, 1, &unix).1, Aftermath::Done);
    assert_eq!(capture_in(Method::Bel, false, "m", 0, 1, &windows).1, Aftermath::SystemBell);
    assert_eq!(capture_in(Method::Off, false, "m", 0, 1, &windows).1, Aftermath::Done);
}

#[test]
fn auto_never_rings_on_windows() {
    let (out, left) = capture_in(Method::Auto, false, "m", 0, 1, &terminal("", "kitty", true));
    assert!(out.is_empty());
    assert_eq!(left, Aftermath::Done);
    assert_eq!(Method::default(), Method::Auto);
    assert_eq!(resolve_effective_method(Method::Native, &terminal("kitty", "", true)), Method::Native);
}

fn bytes_of(step: IdleStep) -> Option<Vec<u8>> {
    match step {
        IdleStep::Emit(Emission::Terminal(bytes)) => Some(bytes),
        _ => None,
    }
}

#[test]
fn idle_user_is_notified_at_once() {
    let unix = terminal("", "", false);
    let zero = Duration::from_secs(0);
    let six = Duration::from_secs(DEFAULT_IDLE_THRESHOLD_SECS);
    assert_eq!(bytes_of(notify_after_idle(Method::Auto, false, "m", zero, zero, &unix, &Platform::Other)), Some(vec![7]));
    assert_eq!(bytes_of(notify_after_idle(Method::Auto, false, "m", six, six, &unix, &Platform::Other)), Some(vec![7]));
    let almost = Duration::new(5, 999_999_999);
    assert!(matches!(
        notify_after_idle(Method::Auto, false, "m", six, almost, &unix, &Platform::Other),
        IdleStep::Poll
    ));
}

#[test]
fn polling_ends_with_a_notification_or_gives_up() {
    let unix = terminal("", "", false);
    let six = Duration::from_secs(DEFAULT_IDLE_THRESHOLD_SECS);
    let one = Duration::from_secs(1);
    let interval = Duration::from_secs(IDLE_POLL_INTERVAL_SECS);
    let longest = Duration::from_secs(MAX_IDLE_WAIT_SECS);
    assert!(matches!(
        poll_idle(Method::Osc9, false, "m", six, one, interval, longest, &unix, &Platform::Other),
        IdleStep::Poll
    ));
    assert_eq!(
        bytes_of(poll_idle(Method::Osc9, false, "m", six, six, interval, longest, &unix, &Platform::Other)),
        Some(b"\x1b]9;m\x07".to_vec())
    );
    assert!(matches!(
        poll_idle(Method::Osc9, false, "m", six, six, longest, longest, &unix, &Platform::Other),
        IdleStep::GiveUp
    ));
}

#[test]
fn emission_of_each_method() {
    assert!(matches!(emit_notification(Method::Off, false, "m", &Platform::Other), Emission::Nothing));
    assert!(matches!(emit_notification(Method::Auto, false, "m", &Platform::Other), Emission::Nothing));
    match emit_notification(Method::Native, false, "m", &Platform::Linux { notify_send: true }) {
        Emission::Native(command) => assert_eq!(command.args, vec!["DeepSeek TUI", "m"]),
        other => panic!("unexpected {:?}", other),
    }
    match emit_notification(Method::Ghostty, false, "m", &Platform::Other) {
        Emission::Terminal(bytes) => assert_eq!(bytes, b"\x1b]777;notify;DeepSeek TUI;m\x07"),
        other => panic!("unexpected {:?}", other),
    }
}

#[test]
fn native_falls_back_to_the_bell() {
    for platform in [Platform::Linux { notify_send: false }, Platform::Other] {
        match emit_notification(Method::Native, true, "m", &platform) {
            Emission::Terminal(bytes) => assert_eq!(bytes, b"\x07"),
            other => panic!("unexpected {:?}", other),
        }
        let zero = Duration::from_secs(0);
        let unix = terminal("", "", false);
        assert_eq!(
            bytes_of(notify_after_idle(Method::Native, false, "m", zero, zero, &unix, &platform)),
            Some(vec![7])
        );
    }
}

#[test]
fn native_commands() {
    let clickable = Platform::MacOs {
        terminal_notifier: true,
        bundle_id: Some("com.example.app".to_string()),
    };
    let command = native_notify(&clickable, "hi").unwrap();
    assert_eq!(command.program, "terminal-notifier");
    assert_eq!(
        command.args,
        vec!["-title", "DeepSeek TUI", "-message", "hi", "-activate", "com.example.app"]
    );
    let anonymous = Platform::MacOs { terminal_notifier: true, bundle_id: None };
    let command = native_notify(&anonymous, "hi").unwrap();
    assert_eq!(command.args, vec!["-title", "DeepSeek TUI", "-message", "hi"]);
    let plain = Platform::MacOs { terminal_notifier: false, bundle_id: None };
    let command = native_notify(&plain, "hi").unwrap();
    assert_eq!(command.program, "osascript");
    assert_eq!(
        command.args,
        vec!["-e", "display notification \"hi\" with title \"DeepSeek TUI\""]
    );
    let command = native_notify(&Platform::Linux { notify_send: true }, "hi").unwrap();
    assert_eq!(command.program, "notify-send");
    assert_eq!(command.args, vec!["DeepSeek TUI", "hi"]);
    assert!(native_notify(&Platform::Linux { notify_send: false }, "hi").is_none());
    assert!(native_notify(&Platform::Other, "hi").is_none());
}

#[test]
fn bundle_identifiers() {
    let found = |program: &str, probe: Option<&[u8]>| terminal_bundle_id(program, probe);
    assert_eq!(found("iTerm.app", None), Some("com.googlecode.iterm2".to_string()));
    assert_eq!(found("Ghostty", None), Some("com.mitchellh.ghostty".to_string()));
    assert_eq!(found("Cmux", Some(b"other")), Some("com.cmuxterm.app".to_string()));
    assert_eq!(found("WezTerm", None), Some("com.github.wez.wezterm".to_string()));
    assert_eq!(found("", Some(b" com.apple.Terminal\n")), Some("com.apple.Terminal".to_string()));
    assert_eq!(found("", Some(b" \n")), None);
    assert_eq!(found("", Some(b"\xff\xfe")), None);
    assert_eq!(found("", None), None);
}

#[test]
fn durations_order_by_all_their_digits() {
    assert!(Duration::new(1, 0).at_least(&Duration::new(0, 999_999_999)));
    assert!(!Duration::new(1, 5).at_least(&Duration::new(1, 6)));
    assert!(Duration::new(0, 0).is_zero());
    assert!(!Duration::new(0, 1).is_zero());
    assert_eq!(Duration::new(7, 1).as_secs(), 7);
}
