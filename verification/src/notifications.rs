//! Desktop notifications for turn completion.
//!
//! Supports five delivery mechanisms:
//! - **OSC 9**: terminal escape sequence for iTerm2, WezTerm, Cmux and tmux
//!   (with DCS passthrough).
//! - **Kitty**: OSC 99 protocol with ST terminator (no audible beep).
//! - **Ghostty**: OSC 777 notification protocol.
//! - **Native**: OS-level notification through a command of the system.
//! - **BEL**: audible bell as a last-resort fallback.
//!
//! Trigger modes:
//! - **Idle detection**: fires when the user has not typed for a while.
//! - **Fixed threshold**: fires when the turn took at least so long.

use vstd::arithmetic::div_mod::{lemma_div_non_zero, lemma_fundamental_div_mod};
use vstd::arithmetic::mul::lemma_mul_is_commutative;
use vstd::prelude::*;
use vstd::string::*;
use vstd::utf8::*;

use crate::duration::Duration;
use crate::text::{
    all_space, chars_of, contains, decimal, has, is_tidy, occurs_at, push_decimal, same_text,
    starts_with, texts, trim_takes_the_ends, trimmed,
};

verus! {

// === Methods ===

/// Notification delivery method.
#[derive(Debug, Clone, Copy, PartialEq, Eq, Structural)]
pub enum Method {
    /// The method that suits the terminal: see [`resolve_method`].
    Auto,
    /// OSC 9 escape: `ESC ] 9 ; message BEL`.
    Osc9,
    /// Plain BEL character.
    Bel,
    /// Kitty notification protocol (OSC 99) with ST terminator: no audible
    /// beep, unlike BEL.
    Kitty,
    /// Ghostty notification protocol: `ESC ] 777 ; notify ; title ; message BEL`.
    Ghostty,
    /// Native OS notification, which works in any terminal. Where the system
    /// has no command for one, a notification that waited for the user to become
    /// idle falls back to `Bel`; one that goes to a sink writes nothing there.
    Native,
    /// Suppress all notifications.
    Off,
}

impl Default for Method {
    fn default() -> (r: Self)
        ensures
            r == Method::Auto,
    {
        Method::Auto
    }
}

/// What is known of the terminal.
#[derive(Debug)]
pub struct Terminal {
    /// `$TERM_PROGRAM`, empty if it is not set.
    pub term_program: String,
    /// `$TERM`, empty if it is not set.
    pub term: String,
    /// Whether the system is Windows.
    pub windows: bool,
}

/// The concrete method for a terminal.
pub open spec fn resolved(terminal: Terminal) -> Method {
    let program = terminal.term_program@;
    if program == "iTerm.app"@ || program == "WezTerm"@ || program == "Cmux"@ {
        Method::Osc9
    } else if program == "Ghostty"@ {
        Method::Ghostty
    } else if program == "kitty"@ {
        Method::Kitty
    } else if terminal.windows {
        Method::Off
    } else if contains(terminal.term@, "ghostty"@) {
        Method::Osc9
    } else if contains(terminal.term@, "kitty"@) {
        Method::Kitty
    } else {
        Method::Bel
    }
}

/// The method by which a notification goes out.
pub open spec fn effective(method: Method, terminal: Terminal) -> Method {
    if method == Method::Auto {
        resolved(terminal)
    } else {
        method
    }
}

/// Resolve `Auto` to a concrete method by inspecting `$TERM_PROGRAM`
/// with a `$TERM` fallback for Ghostty-based terminals and Kitty.
///
/// Resolution table:
/// - `iTerm.app`, `WezTerm`, `Cmux`: `Osc9`
/// - `Ghostty`: `Ghostty` (OSC 777)
/// - `kitty`: `Kitty` (OSC 99)
/// - unknown on Windows: `Off`, because BEL is the error chime there
/// - `$TERM` contains `ghostty`: `Osc9`
/// - `$TERM` contains `kitty`: `Kitty`
/// - unknown elsewhere: `Bel`
#[must_use]
pub fn resolve_method(terminal: &Terminal) -> (r: Method)
    ensures
        r == resolved(*terminal),
{
    let program: &str = terminal.term_program.as_str();
    if same_text(program, "iTerm.app") || same_text(program, "WezTerm") || same_text(
        program,
        "Cmux",
    ) {
        Method::Osc9
    } else if same_text(program, "Ghostty") {
        Method::Ghostty
    } else if same_text(program, "kitty") {
        Method::Kitty
    } else if terminal.windows {
        Method::Off
    } else if has(terminal.term.as_str(), "ghostty") {
        Method::Osc9
    } else if has(terminal.term.as_str(), "kitty") {
        Method::Kitty
    } else {
        Method::Bel
    }
}

/// Resolve `Auto` to a concrete method.
pub fn resolve_effective_method(method: Method, terminal: &Terminal) -> (r: Method)
    ensures
        r == effective(method, *terminal),
{
    match method {
        Method::Auto => resolve_method(terminal),
        other => other,
    }
}

// === Escape sequences ===

/// The escape character.
pub const ESC: char = '\x1b';

/// A sequence with every escape character doubled.
pub open spec fn doubled(s: Seq<char>) -> Seq<char>
    decreases s.len(),
{
    if s.len() == 0 {
        Seq::empty()
    } else if s[0] == ESC {
        seq![ESC, ESC] + doubled(s.drop_first())
    } else {
        seq![s[0]] + doubled(s.drop_first())
    }
}

/// A sequence as it goes to the terminal, which may be behind tmux.
pub open spec fn wrapped(s: Seq<char>, in_tmux: bool) -> Seq<char> {
    if in_tmux {
        "\x1bPtmux;"@ + doubled(s) + "\x1b\\"@
    } else {
        s
    }
}

/// The text that a method sends to the terminal.
pub open spec fn escape_text(method: Method, in_tmux: bool, msg: Seq<char>) -> Seq<char> {
    match method {
        Method::Bel => "\x07"@,
        Method::Osc9 => wrapped("\x1b]9;"@ + msg + "\x07"@, in_tmux),
        Method::Kitty => wrapped(
            "\x1b]99;d=0:p=title\x1b\\"@ + "\x1b]99;p=body;"@ + msg + "\x1b\\"@
                + "\x1b]99;d=1:a=focus\x1b\\"@,
            in_tmux,
        ),
        Method::Ghostty => wrapped("\x1b]777;notify;DeepSeek TUI;"@ + msg + "\x07"@, in_tmux),
        Method::Auto | Method::Off | Method::Native => Seq::empty(),
    }
}

/// Wrap an escape sequence for terminal multiplexer passthrough.
/// tmux intercepts escape sequences; DCS passthrough tunnels them to
/// the outer terminal unmodified.
pub fn wrap_for_multiplexer(seq: &str, in_tmux: bool) -> (r: String)
    ensures
        r@ == wrapped(seq@, in_tmux),
{
    if !in_tmux {
        return seq.to_string();
    }
    let v: Vec<char> = chars_of(seq);
    let mut out: String = "\x1bPtmux;".to_string();
    let mut i: usize = 0;
    assert(v@.skip(0) =~= v@);
    while i < v.len()
        invariant
            i <= v@.len(),
            out@ + doubled(v@.skip(i as int)) == "\x1bPtmux;"@ + doubled(v@),
        decreases v@.len() - i,
    {
        let ghost before = out@;
        assert(v@.skip(i as int).drop_first() =~= v@.skip(i + 1));
        if v[i] == ESC {
            out.push(ESC);
        }
        out.push(v[i]);
        assert(out@ + doubled(v@.skip(i + 1)) =~= before + doubled(v@.skip(i as int)));
        i = i + 1;
    }
    assert(out@ =~= out@ + doubled(v@.skip(v@.len() as int)));
    out.append("\x1b\\");
    out
}

/// Build the raw escape bytes for the given method and message.
///
/// When `in_tmux` is `true`, OSC sequences are wrapped in DCS passthrough
/// so tmux forwards them to the outer terminal.
#[must_use]
pub fn build_escape(method: Method, in_tmux: bool, msg: &str) -> (r: Vec<u8>)
    ensures
        r@ == encode_utf8(escape_text(method, in_tmux, msg@)),
{
    match method {
        Method::Bel => "\x07".as_bytes_vec(),
        Method::Osc9 => {
            let mut inner: String = "\x1b]9;".to_string();
            inner.append(msg);
            inner.append("\x07");
            wrap_for_multiplexer(inner.as_str(), in_tmux).as_str().as_bytes_vec()
        },
        Method::Kitty => {
            let mut combined: String = "\x1b]99;d=0:p=title\x1b\\".to_string();
            combined.append("\x1b]99;p=body;");
            combined.append(msg);
            combined.append("\x1b\\");
            combined.append("\x1b]99;d=1:a=focus\x1b\\");
            wrap_for_multiplexer(combined.as_str(), in_tmux).as_str().as_bytes_vec()
        },
        Method::Ghostty => {
            let mut seq: String = "\x1b]777;notify;DeepSeek TUI;".to_string();
            seq.append(msg);
            seq.append("\x07");
            wrap_for_multiplexer(seq.as_str(), in_tmux).as_str().as_bytes_vec()
        },
        Method::Auto | Method::Off | Method::Native => Vec::new(),
    }
}

// === Turn completion ===

/// What is left to do outside the terminal once the bytes are written.
#[derive(Debug, Clone, Copy, PartialEq, Eq, Structural)]
pub enum Aftermath {
    /// Nothing.
    Done,
    /// Show the message as a native OS notification.
    NativeNotification,
    /// Ring the system bell: a BEL is silent in most Windows terminals.
    SystemBell,
}

/// The text that goes to the terminal when a turn of this length completes.
pub open spec fn done_text(
    method: Method,
    in_tmux: bool,
    msg: Seq<char>,
    threshold: nat,
    elapsed: nat,
    terminal: Terminal,
) -> Seq<char> {
    if elapsed < threshold {
        Seq::empty()
    } else {
        escape_text(effective(method, terminal), in_tmux, msg)
    }
}

/// What is left to do when a turn of this length completes.
pub open spec fn done_aftermath(
    method: Method,
    threshold: nat,
    elapsed: nat,
    terminal: Terminal,
) -> Aftermath {
    if elapsed < threshold {
        Aftermath::Done
    } else if effective(method, terminal) == Method::Native {
        Aftermath::NativeNotification
    } else if effective(method, terminal) == Method::Bel && terminal.windows {
        Aftermath::SystemBell
    } else {
        Aftermath::Done
    }
}

/// Emit a turn-complete notification to `sink` if the elapsed time meets or
/// exceeds `threshold`, and `method` is not `Off`.
pub fn notify_done_to(
    method: Method,
    in_tmux: bool,
    msg: &str,
    threshold: Duration,
    elapsed: Duration,
    terminal: &Terminal,
    sink: &mut Vec<u8>,
) -> (r: Aftermath)
    ensures
        final(sink)@ == old(sink)@ + encode_utf8(
            done_text(method, in_tmux, msg@, threshold@, elapsed@, *terminal),
        ),
        r == done_aftermath(method, threshold@, elapsed@, *terminal),
{
    if !elapsed.at_least(&threshold) {
        assert(sink@ =~= old(sink)@ + encode_utf8(Seq::empty()));
        return Aftermath::Done;
    }
    let way: Method = resolve_effective_method(method, terminal);
    let mut bytes: Vec<u8> = build_escape(way, in_tmux, msg);
    sink.append(&mut bytes);
    match way {
        Method::Native => Aftermath::NativeNotification,
        Method::Bel => if terminal.windows {
            Aftermath::SystemBell
        } else {
            Aftermath::Done
        },
        _ => Aftermath::Done,
    }
}

// === Native notifications ===

/// What is known of the system's own notifications.
#[derive(Debug)]
pub enum Platform {
    /// macOS: whether `terminal-notifier` is installed, and the bundle
    /// identifier of the terminal.
    MacOs { terminal_notifier: bool, bundle_id: Option<String> },
    /// Linux: whether `notify-send` is installed.
    Linux { notify_send: bool },
    /// Any other system.
    Other,
}

/// A program and its arguments.
#[derive(Debug)]
pub struct CommandLine {
    pub program: String,
    pub args: Vec<String>,
}

/// The program and the arguments of a [`CommandLine`].
pub struct CommandLineView {
    pub program: Seq<char>,
    pub args: Seq<Seq<char>>,
}

impl View for CommandLine {
    type V = CommandLineView;

    open spec fn view(&self) -> CommandLineView {
        CommandLineView { program: self.program@, args: crate::text::texts(self.args@) }
    }
}

/// The command that shows a native notification.
pub open spec fn native_command(platform: Platform, msg: Seq<char>) -> Option<CommandLineView> {
    match platform {
        Platform::MacOs { terminal_notifier, bundle_id } => if terminal_notifier {
            Some(
                CommandLineView {
                    program: "terminal-notifier"@,
                    args: seq!["-title"@, "DeepSeek TUI"@, "-message"@, msg] + match bundle_id {
                        Some(id) => seq!["-activate"@, id@],
                        None => Seq::empty(),
                    },
                },
            )
        } else {
            Some(
                CommandLineView {
                    program: "osascript"@,
                    args: seq![
                        "-e"@,
                        "display notification \""@ + msg + "\" with title \"DeepSeek TUI\""@,
                    ],
                },
            )
        },
        Platform::Linux { notify_send } => if notify_send {
            Some(
                CommandLineView { program: "notify-send"@, args: seq!["DeepSeek TUI"@, msg] },
            )
        } else {
            None
        },
        Platform::Other => None,
    }
}

/// The command that shows a native OS notification, if the system has one.
///
/// On macOS, prefers `terminal-notifier` (supports click-to-focus) with a
/// fallback to `osascript display notification`. On Linux, uses `notify-send`.
pub fn native_notify(platform: &Platform, msg: &str) -> (r: Option<CommandLine>)
    ensures
        match r {
            Some(command) => native_command(*platform, msg@) == Some(command@),
            None => native_command(*platform, msg@) is None,
        },
{
    let mut args: Vec<String> = Vec::new();
    match platform {
        Platform::MacOs { terminal_notifier, bundle_id } => {
            if *terminal_notifier {
                args.push("-title".to_string());
                args.push("DeepSeek TUI".to_string());
                args.push("-message".to_string());
                args.push(msg.to_string());
                if let Some(id) = bundle_id {
                    args.push("-activate".to_string());
                    args.push(id.clone());
                }
                let command = CommandLine { program: "terminal-notifier".to_string(), args };
                assert(command@.args =~= native_command(*platform, msg@)->0.args);
                Some(command)
            } else {
                let mut script: String = "display notification \"".to_string();
                script.append(msg);
                script.append("\" with title \"DeepSeek TUI\"");
                args.push("-e".to_string());
                args.push(script);
                let command = CommandLine { program: "osascript".to_string(), args };
                assert(command@.args =~= native_command(*platform, msg@)->0.args);
                Some(command)
            }
        },
        Platform::Linux { notify_send } => {
            if *notify_send {
                args.push("DeepSeek TUI".to_string());
                args.push(msg.to_string());
                let command = CommandLine { program: "notify-send".to_string(), args };
                assert(command@.args =~= native_command(*platform, msg@)->0.args);
                Some(command)
            } else {
                None
            }
        },
        Platform::Other => None,
    }
}

/// The bundle identifier that belongs to a `$TERM_PROGRAM`.
pub open spec fn known_bundle_id(term_program: Seq<char>) -> Option<Seq<char>> {
    if term_program == "iTerm.app"@ {
        Some("com.googlecode.iterm2"@)
    } else if term_program == "Ghostty"@ {
        Some("com.mitchellh.ghostty"@)
    } else if term_program == "Cmux"@ {
        Some("com.cmuxterm.app"@)
    } else if term_program == "WezTerm"@ {
        Some("com.github.wez.wezterm"@)
    } else {
        None
    }
}

/// The bundle identifier that the output of a probe names.
pub open spec fn probed_bundle_id(stdout: Seq<u8>) -> Option<Seq<char>> {
    if valid_utf8(stdout) && !crate::text::is_blank(decode_utf8(stdout)) {
        Some(crate::text::trim(decode_utf8(stdout)))
    } else {
        None
    }
}

/// Best-guess the macOS bundle identifier of the current terminal.
///
/// Maps known `$TERM_PROGRAM` values to their bundle IDs. When it is
/// unrecognised, falls back to what a probe for the frontmost application
/// printed, if one was made.
pub fn terminal_bundle_id(term_program: &str, probe: Option<&[u8]>) -> (r: Option<String>)
    ensures
        ({
            let id = match known_bundle_id(term_program@) {
                Some(id) => Some(id),
                None => match probe {
                    Some(stdout) => probed_bundle_id(stdout@),
                    None => None,
                },
            };
            match r {
                Some(found) => id == Some(found@),
                None => id is None,
            }
        }),
{
    if same_text(term_program, "iTerm.app") {
        return Some("com.googlecode.iterm2".to_string());
    }
    if same_text(term_program, "Ghostty") {
        return Some("com.mitchellh.ghostty".to_string());
    }
    if same_text(term_program, "Cmux") {
        return Some("com.cmuxterm.app".to_string());
    }
    if same_text(term_program, "WezTerm") {
        return Some("com.github.wez.wezterm".to_string());
    }
    match probe {
        Some(stdout) => match core::str::from_utf8(stdout) {
            Ok(printed) => {
                let id: String = trimmed(printed);
                if id.as_str().is_empty() {
                    None
                } else {
                    Some(id)
                }
            },
            Err(_) => None,
        },
        None => None,
    }
}

// === Idle detection ===

/// The seconds without keyboard input after which the user counts as idle, by
/// default.
pub const DEFAULT_IDLE_THRESHOLD_SECS: u64 = 6;

/// The longest that the client waits for the user to become idle, in seconds.
pub const MAX_IDLE_WAIT_SECS: u64 = 300;

/// The seconds between two looks at whether the user is idle.
pub const IDLE_POLL_INTERVAL_SECS: u64 = 6;

/// A notification on its way out.
#[derive(Debug)]
pub enum Emission {
    /// Nothing goes out.
    Nothing,
    /// This command shows the message as a native OS notification.
    Native(CommandLine),
    /// These bytes go to the terminal.
    Terminal(Vec<u8>),
}

/// `e` is what the method, which is not `Auto`, sends on this platform. Where
/// the platform has no command for native notifications, the bell stands in.
pub open spec fn sends(
    e: Emission,
    method: Method,
    in_tmux: bool,
    msg: Seq<char>,
    platform: Platform,
) -> bool {
    match method {
        Method::Off | Method::Auto => e is Nothing,
        Method::Native => match native_command(platform, msg) {
            Some(command) => e matches Emission::Native(c) && c@ == command,
            None => e matches Emission::Terminal(bytes) && bytes@ == encode_utf8(
                escape_text(Method::Bel, in_tmux, msg),
            ),
        },
        _ => e matches Emission::Terminal(bytes) && bytes@ == encode_utf8(
            escape_text(method, in_tmux, msg),
        ),
    }
}

/// Core notification emission of the idle path.
pub fn emit_notification(
    method: Method,
    in_tmux: bool,
    msg: &str,
    platform: &Platform,
) -> (r: Emission)
    ensures
        sends(r, method, in_tmux, msg@, *platform),
{
    match method {
        Method::Off | Method::Auto => Emission::Nothing,
        Method::Native => match native_notify(platform, msg) {
            Some(command) => Emission::Native(command),
            None => Emission::Terminal(build_escape(Method::Bel, in_tmux, msg)),
        },
        other => Emission::Terminal(build_escape(other, in_tmux, msg)),
    }
}

/// What to do about a notification that waits for the user to become idle.
#[derive(Debug)]
pub enum IdleStep {
    /// Send it now; the waiting is over.
    Emit(Emission),
    /// Look again after [`IDLE_POLL_INTERVAL_SECS`] seconds.
    Poll,
    /// Do not send it; the waiting is over.
    GiveUp,
}

/// The user, who last typed `idle_for` ago, counts as idle.
pub open spec fn is_idle(idle_threshold: nat, idle_for: nat) -> bool {
    idle_for >= idle_threshold
}

/// Emit a notification when the user becomes idle after a turn completes:
/// what to do at once.
///
/// If `idle_threshold` is zero, or the user has typed nothing for at least
/// `idle_threshold`, the notification goes out immediately. If not, the caller
/// polls, and asks [`poll_idle`] each time.
pub fn notify_after_idle(
    method: Method,
    in_tmux: bool,
    msg: &str,
    idle_threshold: Duration,
    idle_for: Duration,
    terminal: &Terminal,
    platform: &Platform,
) -> (r: IdleStep)
    ensures
        is_idle(idle_threshold@, idle_for@) ==> (r matches IdleStep::Emit(e) && sends(
            e,
            effective(method, *terminal),
            in_tmux,
            msg@,
            *platform,
        )),
        !is_idle(idle_threshold@, idle_for@) ==> r is Poll,
        idle_for@ >= idle_threshold@ <==> r is Emit,
        idle_for@ < idle_threshold@ <==> r is Poll,
{
    if idle_threshold.is_zero() || idle_for.at_least(&idle_threshold) {
        let way: Method = resolve_effective_method(method, terminal);
        IdleStep::Emit(emit_notification(way, in_tmux, msg, platform))
    } else {
        IdleStep::Poll
    }
}

/// What to do at a poll, `waited` after the turn completed: give up once
/// `max_wait` is over, send the notification if the user is idle by now, and
/// otherwise poll again.
pub fn poll_idle(
    method: Method,
    in_tmux: bool,
    msg: &str,
    idle_threshold: Duration,
    idle_for: Duration,
    waited: Duration,
    max_wait: Duration,
    terminal: &Terminal,
    platform: &Platform,
) -> (r: IdleStep)
    ensures
        waited@ >= max_wait@ ==> r is GiveUp,
        waited@ < max_wait@ && is_idle(idle_threshold@, idle_for@) ==> (r matches IdleStep::Emit(e)
            && sends(e, effective(method, *terminal), in_tmux, msg@, *platform)),
        waited@ < max_wait@ && !is_idle(idle_threshold@, idle_for@) ==> r is Poll,
        waited@ >= max_wait@ <==> r is GiveUp,
        waited@ < max_wait@ && idle_for@ >= idle_threshold@ <==> r is Emit,
        waited@ < max_wait@ && idle_for@ < idle_threshold@ <==> r is Poll,
{
    if waited.at_least(&max_wait) {
        IdleStep::GiveUp
    } else {
        notify_after_idle(method, in_tmux, msg, idle_threshold, idle_for, terminal, platform)
    }
}

// === Durations in words ===

/// The seconds in a minute.
pub const MINUTE: u64 = 60;

/// The seconds in an hour.
pub const HOUR: u64 = 3_600;

/// The seconds in a day.
pub const DAY: u64 = 86_400;

/// The seconds in a week.
pub const WEEK: u64 = 604_800;

/// A unit of time in seconds with its letter, and the smaller one that is
/// shown behind it.
pub struct Scale {
    pub unit: nat,
    pub letter: char,
    pub sub: nat,
    pub sub_letter: char,
}

/// The units in which a number of seconds is shown.
pub open spec fn scale_of(secs: nat) -> Scale {
    if secs >= WEEK {
        Scale { unit: WEEK as nat, letter: 'w', sub: DAY as nat, sub_letter: 'd' }
    } else if secs >= DAY {
        Scale { unit: DAY as nat, letter: 'd', sub: HOUR as nat, sub_letter: 'h' }
    } else if secs >= HOUR {
        Scale { unit: HOUR as nat, letter: 'h', sub: MINUTE as nat, sub_letter: 'm' }
    } else if secs >= MINUTE {
        Scale { unit: MINUTE as nat, letter: 'm', sub: 1, sub_letter: 's' }
    } else {
        Scale { unit: 1, letter: 's', sub: 1, sub_letter: 's' }
    }
}

/// How many of the first unit are shown.
pub open spec fn major(secs: nat) -> nat {
    secs / scale_of(secs).unit
}

/// How many of the second unit are shown.
pub open spec fn minor(secs: nat) -> nat {
    (secs % scale_of(secs).unit) / scale_of(secs).sub
}

/// A number of seconds in words.
pub open spec fn humanized(secs: nat) -> Seq<char> {
    let scale = scale_of(secs);
    if minor(secs) == 0 {
        decimal(major(secs)).push(scale.letter)
    } else {
        decimal(major(secs)).push(scale.letter) + seq![' '] + decimal(minor(secs)).push(
            scale.sub_letter,
        )
    }
}

/// Writes one or two units.
fn two_units(q: u64, letter: char, r: u64, sub_letter: char) -> (s: String)
    ensures
        s@ == (if r == 0 {
            decimal(q as nat).push(letter)
        } else {
            decimal(q as nat).push(letter) + seq![' '] + decimal(r as nat).push(sub_letter)
        }),
{
    let mut s: String = String::new();
    push_decimal(&mut s, q);
    assert(s@ =~= decimal(q as nat));
    s.push(letter);
    if r != 0 {
        s.push(' ');
        push_decimal(&mut s, r);
        s.push(sub_letter);
        assert(s@ =~= decimal(q as nat).push(letter) + seq![' '] + decimal(r as nat).push(
            sub_letter,
        ));
    }
    s
}

/// Return a human-readable duration string, capped at two units so
/// it stays compact in headers and notifications.
///
/// Examples:
/// * `"45s"`, `"1m"`, `"1m 12s"`
/// * `"1h"`, `"3h 12m"`
/// * `"1d"`, `"2d 5h"`
/// * `"1w"`, `"3w 2d"`
///
/// The output drops the secondary unit when it's zero, so `"1h"`
/// rather than `"1h 0m"`. Sub-minute precision is dropped at the
/// hour mark and above.
#[must_use]
pub fn humanize_duration(d: Duration) -> (r: String)
    ensures
        r@ == humanized(d@ / 1_000_000_000),
{
    let total: u64 = d.as_secs();
    if total >= WEEK {
        two_units(total / WEEK, 'w', (total % WEEK) / DAY, 'd')
    } else if total >= DAY {
        two_units(total / DAY, 'd', (total % DAY) / HOUR, 'h')
    } else if total >= HOUR {
        two_units(total / HOUR, 'h', (total % HOUR) / MINUTE, 'm')
    } else if total >= MINUTE {
        two_units(total / MINUTE, 'm', total % MINUTE, 's')
    } else {
        two_units(total, 's', 0, 's')
    }
}

// === Laws ===

/// What tmux hands to the outer terminal of a passthrough, given what follows
/// its opening: a doubled escape character stands for one, and an escape
/// character with a backslash ends the passthrough.
pub open spec fn tunnelled(s: Seq<char>) -> Option<Seq<char>>
    decreases s.len(),
{
    if s.len() == 0 {
        None
    } else if s[0] != ESC {
        match tunnelled(s.drop_first()) {
            Some(rest) => Some(seq![s[0]] + rest),
            None => None,
        }
    } else if s.len() >= 2 && s[1] == ESC {
        match tunnelled(s.skip(2)) {
            Some(rest) => Some(seq![ESC] + rest),
            None => None,
        }
    } else if s =~= seq![ESC, '\\'] {
        Some(Seq::empty())
    } else {
        None
    }
}

/// The outer terminal receives a wrapped sequence unmodified, whatever it
/// holds: the passthrough neither ends early nor changes a character.
pub proof fn passthrough_delivers(s: Seq<char>)
    ensures
        starts_with(wrapped(s, true), "\x1bPtmux;"@),
        tunnelled(wrapped(s, true).skip("\x1bPtmux;"@.len() as int)) == Some(s),
{
    reveal_strlit("\x1bPtmux;");
    let open = "\x1bPtmux;"@;
    let w = wrapped(s, true);
    assert(w.subrange(0, open.len() as int) =~= open);
    assert(w.skip(open.len() as int) =~= doubled(s) + "\x1b\\"@);
    payload_is_tunnelled(s);
}

proof fn payload_is_tunnelled(s: Seq<char>)
    ensures
        tunnelled(doubled(s) + "\x1b\\"@) == Some(s),
    decreases s.len(),
{
    reveal_strlit("\x1b\\");
    let close = "\x1b\\"@;
    let w = doubled(s) + close;
    if s.len() == 0 {
        assert(w =~= seq![ESC, '\\']);
        assert(s =~= Seq::empty());
    } else {
        let rest = s.drop_first();
        payload_is_tunnelled(rest);
        if s[0] == ESC {
            assert(w.skip(2) =~= doubled(rest) + close);
            assert(s =~= seq![ESC] + rest);
        } else {
            assert(w.drop_first() =~= doubled(rest) + close);
            assert(s =~= seq![s[0]] + rest);
        }
    }
}

/// Doubling escape characters neither adds nor drops any other character.
proof fn doubled_keeps(s: Seq<char>, c: char)
    ensures
        doubled(s).contains(c) <==> s.contains(c),
    decreases s.len(),
{
    if s.len() > 0 {
        let rest = s.drop_first();
        doubled_keeps(rest, c);
        assert(s =~= seq![s[0]] + rest);
        let head = if s[0] == ESC {
            seq![ESC, ESC]
        } else {
            seq![s[0]]
        };
        assert(doubled(s) =~= head + doubled(rest));
        contains_in_sum(head, doubled(rest), c);
        contains_in_sum(seq![s[0]], rest, c);
        assert(head.contains(c) <==> seq![s[0]].contains(c)) by {
            assert(seq![s[0]][0] == s[0]);
            assert(head[0] == s[0]);
        }
    }
}

proof fn contains_in_sum(a: Seq<char>, b: Seq<char>, c: char)
    ensures
        (a + b).contains(c) <==> a.contains(c) || b.contains(c),
{
    if a.contains(c) {
        let i = choose|i: int| 0 <= i < a.len() && a[i] == c;
        assert((a + b)[i] == c);
    }
    if b.contains(c) {
        let i = choose|i: int| 0 <= i < b.len() && b[i] == c;
        assert((a + b)[a.len() + i] == c);
    }
    if (a + b).contains(c) {
        let i = choose|i: int| 0 <= i < (a + b).len() && (a + b)[i] == c;
        if i < a.len() {
            assert(a[i] == c);
        } else {
            assert(b[i - a.len()] == c);
        }
    }
}

/// A Kitty notification beeps only where the message itself holds a BEL.
pub proof fn kitty_adds_no_bell(in_tmux: bool, msg: Seq<char>)
    ensures
        escape_text(Method::Kitty, in_tmux, msg).contains('\x07') <==> msg.contains('\x07'),
{
    let bell = '\x07';
    reveal_strlit("\x1b]99;d=0:p=title\x1b\\");
    reveal_strlit("\x1b]99;p=body;");
    reveal_strlit("\x1b\\");
    reveal_strlit("\x1b]99;d=1:a=focus\x1b\\");
    reveal_strlit("\x1bPtmux;");
    let title = "\x1b]99;d=0:p=title\x1b\\"@;
    let body = "\x1b]99;p=body;"@;
    let close = "\x1b\\"@;
    let focus = "\x1b]99;d=1:a=focus\x1b\\"@;
    let open = "\x1bPtmux;"@;
    let inner = title + body + msg + close + focus;
    contains_in_sum(title, body, bell);
    contains_in_sum(title + body, msg, bell);
    contains_in_sum(title + body + msg, close, bell);
    contains_in_sum(title + body + msg + close, focus, bell);
    assert(!title.contains(bell));
    assert(!body.contains(bell));
    assert(!close.contains(bell));
    assert(!focus.contains(bell));
    assert(!open.contains(bell));
    if in_tmux {
        doubled_keeps(inner, bell);
        contains_in_sum(open, doubled(inner), bell);
        contains_in_sum(open + doubled(inner), close, bell);
    }
}

/// Outside tmux the message stands in the sequence as it is.
pub proof fn message_is_shown(method: Method, msg: Seq<char>)
    requires
        method == Method::Osc9 || method == Method::Kitty || method == Method::Ghostty,
    ensures
        contains(escape_text(method, false, msg), msg),
{
    let text = escape_text(method, false, msg);
    let before = match method {
        Method::Osc9 => "\x1b]9;"@,
        Method::Kitty => "\x1b]99;d=0:p=title\x1b\\"@ + "\x1b]99;p=body;"@,
        _ => "\x1b]777;notify;DeepSeek TUI;"@,
    };
    let at = before.len() as int;
    assert(text.subrange(at, at + msg.len()) =~= msg);
    assert(occurs_at(text, msg, at));
}

/// `Auto` always becomes a method of the terminal, and never a native one.
pub proof fn auto_is_resolved(terminal: Terminal)
    ensures
        effective(Method::Auto, terminal) != Method::Auto,
        effective(Method::Auto, terminal) != Method::Native,
{
}

/// `Auto` never rings the bell on Windows, where it is the error chime.
pub proof fn auto_never_chimes_on_windows(terminal: Terminal)
    requires
        terminal.windows,
    ensures
        effective(Method::Auto, terminal) != Method::Bel,
{
}

/// The terminal receives something exactly when the turn took long enough and
/// the method writes to the terminal at all.
pub proof fn terminal_is_silent_iff(
    method: Method,
    in_tmux: bool,
    msg: Seq<char>,
    threshold: nat,
    elapsed: nat,
    terminal: Terminal,
)
    ensures
        encode_utf8(done_text(method, in_tmux, msg, threshold, elapsed, terminal)).len() == 0 <==> (
        elapsed < threshold || effective(method, terminal) == Method::Off || effective(
            method,
            terminal,
        ) == Method::Native),
{
    let text = done_text(method, in_tmux, msg, threshold, elapsed, terminal);
    reveal_strlit("\x07");
    reveal_strlit("\x1b]9;");
    reveal_strlit("\x1b]99;d=0:p=title\x1b\\");
    reveal_strlit("\x1b]777;notify;DeepSeek TUI;");
    reveal_strlit("\x1bPtmux;");
    auto_is_resolved(terminal);
    if text.len() > 0 {
        encode_utf8_first_scalar(text);
        char_is_scalar(text[0]);
        assert(encode_scalar(text[0] as u32).len() > 0);
    }
}

/// A native notification that waited for an idle user is shown by a command or
/// heard as exactly one BEL: it is never lost.
pub proof fn native_falls_back_to_the_bell(
    e: Emission,
    in_tmux: bool,
    msg: Seq<char>,
    platform: Platform,
)
    requires
        sends(e, Method::Native, in_tmux, msg, platform),
    ensures
        native_command(platform, msg) is Some <==> e is Native,
        native_command(platform, msg) is None <==> (e matches Emission::Terminal(bytes) && bytes@
            == seq![7u8]),
{
    reveal_strlit("\x07");
    let bell = "\x07"@;
    assert(bell.drop_first() =~= Seq::empty());
    assert(encode_utf8(bell.drop_first()) =~= Seq::empty());
    assert((7u32 & 0x7F) as u8 == 7u8) by (bit_vector);
    assert(encode_utf8(bell) =~= seq![7u8]);
}

/// The units shown add up to the duration, but for less than one of the
/// smaller unit; both counts are in the range that their unit allows.
pub proof fn humanized_is_close(secs: nat)
    ensures
        ({
            let scale = scale_of(secs);
            let shown = major(secs) * scale.unit + minor(secs) * scale.sub;
            &&& shown <= secs < shown + scale.sub
            &&& minor(secs) * scale.sub < scale.unit
            &&& secs > 0 ==> major(secs) > 0
        }),
{
    let scale = scale_of(secs);
    let (n, unit, sub) = (secs as int, scale.unit as int, scale.sub as int);
    lemma_fundamental_div_mod(n, unit);
    lemma_fundamental_div_mod(n % unit, sub);
    lemma_mul_is_commutative(unit, n / unit);
    lemma_mul_is_commutative(sub, (n % unit) / sub);
    if n > 0 {
        lemma_div_non_zero(n, unit);
    }
}

/// The user counts as idle exactly when the time since the last key is at least
/// the threshold, whatever the threshold is.
pub proof fn idle_is_by_the_threshold(idle_threshold: nat, idle_for: nat)
    ensures
        is_idle(idle_threshold, idle_for) <==> idle_for >= idle_threshold,
{
}

/// The method that a terminal gets: its own protocol where `$TERM_PROGRAM` names
/// one, nothing on Windows otherwise, what `$TERM` speaks of elsewhere, and the
/// bell where nothing is known. A method that is asked for is never replaced.
pub proof fn terminal_gets_its_method(terminal: Terminal, method: Method)
    ensures
        method != Method::Auto ==> effective(method, terminal) == method,
        ({
            let program = terminal.term_program@;
            let auto = effective(Method::Auto, terminal);
            let osc9 = program == "iTerm.app"@ || program == "WezTerm"@ || program == "Cmux"@;
            let named = osc9 || program == "Ghostty"@ || program == "kitty"@;
            &&& osc9 ==> auto == Method::Osc9
            &&& program == "Ghostty"@ ==> auto == Method::Ghostty
            &&& program == "kitty"@ ==> auto == Method::Kitty
            &&& !named && terminal.windows ==> auto == Method::Off
            &&& !named && !terminal.windows ==> {
                let ghostty = exists|a: Seq<char>, b: Seq<char>|
                    terminal.term@ == #[trigger] (a + "ghostty"@ + b);
                let kitty = exists|a: Seq<char>, b: Seq<char>|
                    terminal.term@ == #[trigger] (a + "kitty"@ + b);
                &&& ghostty ==> auto == Method::Osc9
                &&& !ghostty && kitty ==> auto == Method::Kitty
                &&& !ghostty && !kitty ==> auto == Method::Bel
            }
        }),
{
    reveal_strlit("iTerm.app");
    reveal_strlit("WezTerm");
    reveal_strlit("Cmux");
    reveal_strlit("Ghostty");
    reveal_strlit("kitty");
    let program = terminal.term_program@;
    if program == "Ghostty"@ {
        assert(program[0] == 'G');
    }
    if program == "kitty"@ {
        assert(program[0] == 'k');
    }
    if program == "iTerm.app"@ {
        assert(program[0] == 'i');
    }
    if program == "WezTerm"@ {
        assert(program[0] == 'W');
    }
    if program == "Cmux"@ {
        assert(program[0] == 'C');
    }
    crate::text::containing_is_being_around(terminal.term@, "ghostty"@);
    crate::text::containing_is_being_around(terminal.term@, "kitty"@);
}

/// What each method sends to a terminal, with the whole message in it; behind
/// tmux the same goes through a passthrough, from which the outer terminal
/// receives it. The bell is never wrapped.
pub proof fn method_speaks_its_protocol(method: Method, msg: Seq<char>)
    ensures
        escape_text(Method::Osc9, false, msg) == "\x1b]9;"@ + msg + "\x07"@,
        escape_text(Method::Ghostty, false, msg) == "\x1b]777;notify;DeepSeek TUI;"@ + msg
            + "\x07"@,
        escape_text(Method::Kitty, false, msg) == "\x1b]99;d=0:p=title\x1b\\"@
            + "\x1b]99;p=body;"@ + msg + "\x1b\\"@ + "\x1b]99;d=1:a=focus\x1b\\"@,
        escape_text(Method::Bel, false, msg) == "\x07"@,
        escape_text(Method::Bel, true, msg) == "\x07"@,
        method == Method::Auto || method == Method::Off || method == Method::Native ==> escape_text(
            method,
            true,
            msg,
        ).len() == 0 && escape_text(method, false, msg).len() == 0,
        method == Method::Osc9 || method == Method::Kitty || method == Method::Ghostty ==> {
            let sent = escape_text(method, true, msg);
            &&& sent.len() >= 7 && sent.take(7) == "\x1bPtmux;"@
            &&& tunnelled(sent.skip(7)) == Some(escape_text(method, false, msg))
        },
{
    if method == Method::Osc9 || method == Method::Kitty || method == Method::Ghostty {
        let plain = escape_text(method, false, msg);
        let sent = escape_text(method, true, msg);
        passthrough_delivers(plain);
        reveal_strlit("\x1bPtmux;");
        assert(sent.take(7) =~= "\x1bPtmux;"@);
    }
}

/// When a turn completes, the terminal receives what the method sends exactly
/// when the turn took at least as long as the threshold. Then, too, a native
/// notification is shown, and the system's bell rings for a BEL on Windows.
pub proof fn turn_is_announced_by_the_threshold(
    method: Method,
    in_tmux: bool,
    msg: Seq<char>,
    threshold: nat,
    elapsed: nat,
    terminal: Terminal,
)
    ensures
        elapsed < threshold ==> {
            &&& done_text(method, in_tmux, msg, threshold, elapsed, terminal).len() == 0
            &&& done_aftermath(method, threshold, elapsed, terminal) == Aftermath::Done
        },
        elapsed >= threshold ==> {
            let way = effective(method, terminal);
            let left = done_aftermath(method, threshold, elapsed, terminal);
            &&& done_text(method, in_tmux, msg, threshold, elapsed, terminal) == escape_text(
                way,
                in_tmux,
                msg,
            )
            &&& left == Aftermath::NativeNotification <==> way == Method::Native
            &&& left == Aftermath::SystemBell <==> way == Method::Bel && terminal.windows
        },
{
}

/// The command of each system for a native notification, with the whole message
/// in it.
pub proof fn native_command_of_each_system(msg: Seq<char>, id: String)
    ensures
        native_command(
            Platform::MacOs { terminal_notifier: true, bundle_id: Some(id) },
            msg,
        ) matches Some(c) && c.program == "terminal-notifier"@ && c.args == seq![
            "-title"@,
            "DeepSeek TUI"@,
            "-message"@,
            msg,
            "-activate"@,
            id@,
        ],
        native_command(
            Platform::MacOs { terminal_notifier: true, bundle_id: None },
            msg,
        ) matches Some(c) && c.program == "terminal-notifier"@ && c.args == seq![
            "-title"@,
            "DeepSeek TUI"@,
            "-message"@,
            msg,
        ],
        forall|b: Option<String>|
            (#[trigger] native_command(
                Platform::MacOs { terminal_notifier: false, bundle_id: b },
                msg,
            )) matches Some(c) && c.program == "osascript"@ && c.args == seq![
                "-e"@,
                "display notification \""@ + msg + "\" with title \"DeepSeek TUI\""@,
            ],
        native_command(Platform::Linux { notify_send: true }, msg) matches Some(c) && c.program
            == "notify-send"@ && c.args == seq!["DeepSeek TUI"@, msg],
        native_command(Platform::Linux { notify_send: false }, msg) is None,
        native_command(Platform::Other, msg) is None,
{
    let with_id = native_command(
        Platform::MacOs { terminal_notifier: true, bundle_id: Some(id) },
        msg,
    )->0;
    let without = native_command(
        Platform::MacOs { terminal_notifier: true, bundle_id: None },
        msg,
    )->0;
    assert(with_id.args =~= seq![
        "-title"@,
        "DeepSeek TUI"@,
        "-message"@,
        msg,
        "-activate"@,
        id@,
    ]);
    assert(without.args =~= seq!["-title"@, "DeepSeek TUI"@, "-message"@, msg]);
}

/// What goes out by a method: nothing where there is none, the system's command
/// for a native one, and otherwise what the method says to a terminal.
pub proof fn emission_is_by_the_method(
    e: Emission,
    method: Method,
    in_tmux: bool,
    msg: Seq<char>,
    platform: Platform,
)
    requires
        sends(e, method, in_tmux, msg, platform),
    ensures
        method == Method::Off || method == Method::Auto ==> e is Nothing,
        method == Method::Native ==> (e matches Emission::Native(c) ==> Some(c@) == native_command(
            platform,
            msg,
        )),
        method == Method::Osc9 || method == Method::Kitty || method == Method::Ghostty || method
            == Method::Bel ==> (e matches Emission::Terminal(bytes) && bytes@ == encode_utf8(
            escape_text(method, in_tmux, msg),
        )),
{
}

/// A command is seen as its program and its arguments, each in its place.
pub proof fn command_is_seen_whole(c: CommandLine)
    ensures
        c@.program == c.program@,
        c@.args.len() == c.args@.len(),
        forall|i: int| 0 <= i < c.args@.len() ==> #[trigger] c@.args[i] == c.args@[i]@,
{
}

/// A terminal that is known has its bundle identifier; what a probe prints for
/// another is its identifier, but for the white space around it.
pub proof fn bundle_of_each_terminal(u: Seq<char>, id: Seq<char>, w: Seq<char>, b: Seq<u8>)
    requires
        all_space(u),
        all_space(w),
        is_tidy(id),
    ensures
        known_bundle_id("iTerm.app"@) == Some("com.googlecode.iterm2"@),
        known_bundle_id("Ghostty"@) == Some("com.mitchellh.ghostty"@),
        known_bundle_id("Cmux"@) == Some("com.cmuxterm.app"@),
        known_bundle_id("WezTerm"@) == Some("com.github.wez.wezterm"@),
        forall|p: Seq<char>|
            p != "iTerm.app"@ && p != "Ghostty"@ && p != "Cmux"@ && p != "WezTerm"@
                ==> #[trigger] known_bundle_id(p) is None,
        !valid_utf8(b) ==> probed_bundle_id(b) is None,
        id.len() > 0 ==> probed_bundle_id(encode_utf8(u + id + w)) == Some(id),
        id.len() == 0 ==> probed_bundle_id(encode_utf8(u + id + w)) is None,
{
    reveal_strlit("iTerm.app");
    reveal_strlit("Ghostty");
    reveal_strlit("Cmux");
    reveal_strlit("WezTerm");
    assert("iTerm.app"@[0] == 'i');
    assert("Ghostty"@[0] == 'G');
    assert("Cmux"@[0] == 'C');
    assert("WezTerm"@[0] == 'W');
    encode_utf8_valid_utf8(u + id + w);
    encode_utf8_decode_utf8(u + id + w);
    trim_takes_the_ends(u, id, w);
}

/// The seconds in the unit of time that a letter names.
pub open spec fn seconds_in(letter: char) -> nat {
    if letter == 'w' {
        604_800
    } else if letter == 'd' {
        86_400
    } else if letter == 'h' {
        3_600
    } else if letter == 'm' {
        60
    } else {
        1
    }
}

/// Whether one unit is the next below another.
pub open spec fn is_next_below(letter: char, above: char) -> bool {
    ||| above == 'w' && letter == 'd'
    ||| above == 'd' && letter == 'h'
    ||| above == 'h' && letter == 'm'
    ||| above == 'm' && letter == 's'
}

/// A duration in words is a whole number of the largest unit that it reaches,
/// and behind it the whole number of the next unit that is left, where that is
/// not zero.
pub proof fn humanized_counts_the_two_largest_units(secs: nat) -> (r: (nat, char, nat, char))
    ensures
        ({
            let (a, x, b, y) = r;
            &&& x == 'w' || x == 'd' || x == 'h' || x == 'm' || x == 's'
            &&& secs < 60 ==> x == 's' && a == secs && b == 0
            &&& secs >= 60 ==> is_next_below(y, x) && a >= 1
            &&& secs >= 60 ==> a * seconds_in(x) <= secs < (a + 1) * seconds_in(x)
            &&& secs >= 60 ==> b * seconds_in(y) <= secs - a * seconds_in(x) < (b + 1)
                * seconds_in(y)
            &&& x != 'w' && secs >= 60 ==> secs < if x == 'd' {
                604_800nat
            } else if x == 'h' {
                86_400nat
            } else {
                3_600nat
            }
            &&& humanized(secs) == if b == 0 {
                decimal(a) + seq![x]
            } else {
                decimal(a) + seq![x, ' '] + decimal(b) + seq![y]
            }
        }),
{
    let scale = scale_of(secs);
    let (a, b) = (major(secs), minor(secs));
    let r = (a, scale.letter, b, scale.sub_letter);
    if secs >= 60 {
        humanized_is_close(secs);
        lemma_fundamental_div_mod(secs as int, scale.unit as int);
        lemma_mul_is_commutative(scale.unit as int, a as int);
        assert((a + 1) * scale.unit == a * scale.unit + scale.unit) by (nonlinear_arith);
        assert((b + 1) * scale.sub == b * scale.sub + scale.sub) by (nonlinear_arith);
    }
    assert(secs < 60 ==> a == secs && b == 0) by {
        if secs < 60 {
            assert(secs / 1 == secs);
            assert(secs % 1 == 0);
        }
    }
    assert(seconds_in(scale.letter) == scale.unit);
    assert(secs >= 60 ==> seconds_in(scale.sub_letter) == scale.sub);
    assert(secs >= 60 ==> a * scale.unit <= secs < (a + 1) * scale.unit);
    assert(secs >= 60 ==> b * scale.sub <= secs - a * scale.unit < (b + 1) * scale.sub);
    assert(decimal(a).push(scale.letter) =~= decimal(a) + seq![scale.letter]);
    assert(decimal(a).push(scale.letter) + seq![' '] + decimal(b).push(scale.sub_letter)
        =~= decimal(a) + seq![scale.letter, ' '] + decimal(b) + seq![scale.sub_letter]);
    r
}

/// Outside tmux a sequence goes out as it is.
pub proof fn nothing_is_wrapped_outside_tmux(s: Seq<char>)
    ensures
        wrapped(s, false) == s,
{
}

/// By default the user counts as idle after six seconds; whether they are is
/// looked at every six seconds, for five minutes.
pub proof fn idle_times()
    ensures
        DEFAULT_IDLE_THRESHOLD_SECS == 6,
        IDLE_POLL_INTERVAL_SECS == 6,
        MAX_IDLE_WAIT_SECS == 5 * 60,
{
}

} // verus!
