//! Keyboard monitoring state: typing in a chat app, and the Enter key that
//! triggers learning from the message the user just sent.
use vstd::prelude::*;
use crate::auto_trigger::{is_chat_app, is_chat_app_name};

verus! {

#[verifier::external_type_specification]
#[verifier::external_body]
pub struct ExInstant(std::time::Instant);

/// Calls `std::time::Instant::now`. Trusted only to return; the time it reads is not
/// stated.
#[verifier::external_body]
fn instant_now() -> std::time::Instant {
    std::time::Instant::now()
}

/// Calls `Instant::elapsed` on `since`, in nanoseconds. Trusted only to return; the
/// duration depends on the clock and is not stated.
#[verifier::external_body]
fn nanos_since(since: &std::time::Instant) -> u128 {
    since.elapsed().as_nanos()
}

/// Configuration for input monitoring behavior.
#[derive(Clone)]
pub struct InputMonitorConfig {
    /// How long to wait after Enter before capturing (ms).
    pub enter_capture_delay_ms: u64,
}

/// The default wait after Enter before the sent message is captured, in milliseconds.
pub const ENTER_CAPTURE_DELAY_MS: u64 = 100;

impl Default for InputMonitorConfig {
    fn default() -> (c: Self)
        ensures
            c.enter_capture_delay_ms == ENTER_CAPTURE_DELAY_MS,
    {
        InputMonitorConfig { enter_capture_delay_ms: ENTER_CAPTURE_DELAY_MS }
    }
}

/// Keycode of Return.
pub const KEY_RETURN: u16 = 36;

/// Keycode of Enter on the numeric keypad.
pub const KEY_NUMPAD_ENTER: u16 = 76;

/// Keycodes from here on are function keys, arrows and modifiers, not typing.
pub const FIRST_NON_TYPING_KEY: u16 = 122;

/// Typing counts as stopped after this long without a keystroke (10 s).
pub const TYPING_IDLE_NANOS: u128 = 10_000_000_000;

/// How often creating the event tap is tried before giving up.
pub const MAX_TAP_ATTEMPTS: u32 = 10;

/// The longest wait between two tries to create the event tap, in seconds.
pub const MAX_TAP_RETRY_SECS: u64 = 15;

/// Shared state for the input monitor.
pub struct InputMonitorState {
    /// Whether we just detected an Enter key (consumed by learning loop).
    pub enter_detected: bool,
    /// Current frontmost app name (updated externally by polling thread).
    pub current_app: String,
    /// Time of last keystroke (for idle detection).
    pub last_keystroke: std::time::Instant,
    /// Whether typing is active.
    pub is_typing: bool,
}

/// The state without its clock: whether Enter is pending, the current app, and
/// whether the user is typing.
pub struct MonitorView {
    pub enter_detected: bool,
    pub current_app: Seq<char>,
    pub is_typing: bool,
}

impl View for InputMonitorState {
    type V = MonitorView;

    open spec fn view(&self) -> MonitorView {
        MonitorView {
            enter_detected: self.enter_detected,
            current_app: self.current_app@,
            is_typing: self.is_typing,
        }
    }
}

/// What a key press does to the state: nothing outside a chat app or with Command
/// held; Return and keypad Enter mark Enter and end typing; function keys, arrows
/// and modifiers do nothing; any other key marks typing.
pub open spec fn key_step(s: MonitorView, keycode: u16, command_held: bool) -> MonitorView {
    if !is_chat_app_name(s.current_app) || command_held {
        s
    } else if keycode == KEY_RETURN || keycode == KEY_NUMPAD_ENTER {
        MonitorView { enter_detected: true, is_typing: false, ..s }
    } else if keycode >= FIRST_NON_TYPING_KEY {
        s
    } else {
        MonitorView { is_typing: true, ..s }
    }
}

/// The key press marks typing, so the time of the last keystroke moves.
pub open spec fn key_is_typing(s: MonitorView, keycode: u16, command_held: bool) -> bool {
    is_chat_app_name(s.current_app) && !command_held && keycode != KEY_RETURN && keycode
        != KEY_NUMPAD_ENTER && keycode < FIRST_NON_TYPING_KEY
}

/// Taking the Enter flag: returns it and clears it.
pub open spec fn take_step(s: MonitorView) -> (bool, MonitorView) {
    (s.enter_detected, MonitorView { enter_detected: false, ..s })
}

impl InputMonitorState {
    pub fn new() -> (st: Self)
        ensures
            !st.enter_detected,
            st.current_app@.len() == 0,
            !st.is_typing,
    {
        InputMonitorState {
            enter_detected: false,
            current_app: String::new(),
            last_keystroke: instant_now(),
            is_typing: false,
        }
    }

    /// Take the enter_detected flag (resets it).
    pub fn take_enter(&mut self) -> (v: bool)
        ensures
            (v, final(self)@) == take_step(old(self)@),
            final(self).last_keystroke == old(self).last_keystroke,
    {
        let v = self.enter_detected;
        self.enter_detected = false;
        v
    }

    /// Handles one key press in the frontmost app: `keycode` is the key's virtual
    /// keycode and `command_held` whether the Command modifier is down.
    pub fn handle_key(&mut self, keycode: u16, command_held: bool)
        ensures
            final(self)@ == key_step(old(self)@, keycode, command_held),
            !key_is_typing(old(self)@, keycode, command_held) ==> final(self).last_keystroke
                == old(self).last_keystroke,
    {
        if !is_chat_app(self.current_app.as_str()) {
            return;
        }
        if command_held {
            return;
        }
        if keycode == KEY_RETURN || keycode == KEY_NUMPAD_ENTER {
            self.enter_detected = true;
            self.is_typing = false;
            return;
        }
        if keycode >= FIRST_NON_TYPING_KEY {
            return;
        }
        self.is_typing = true;
        self.last_keystroke = instant_now();
    }

    /// Ends typing when `idle_nanos`, the time since the last keystroke, exceeds
    /// `TYPING_IDLE_NANOS`.
    pub fn expire_typing_after(&mut self, idle_nanos: u128)
        ensures
            final(self).is_typing == (old(self).is_typing && idle_nanos <= TYPING_IDLE_NANOS),
            final(self).enter_detected == old(self).enter_detected,
            final(self).current_app == old(self).current_app,
            final(self).last_keystroke == old(self).last_keystroke,
    {
        if self.is_typing && idle_nanos > TYPING_IDLE_NANOS {
            self.is_typing = false;
        }
    }

    /// Ends typing when the last keystroke is more than 10 s ago by the clock. Whatever
    /// the clock reads, typing never starts here and nothing else changes.
    pub fn expire_typing_if_idle(&mut self)
        ensures
            final(self).is_typing ==> old(self).is_typing,
            final(self).enter_detected == old(self).enter_detected,
            final(self).current_app == old(self).current_app,
            final(self).last_keystroke == old(self).last_keystroke,
    {
        if self.is_typing {
            let idle = nanos_since(&self.last_keystroke);
            self.expire_typing_after(idle);
        }
    }
}

/// After a failed try `attempt` (counted from 1) to create the event tap: `None` to
/// give up once `MAX_TAP_ATTEMPTS` tries failed, else the wait before the next try,
/// three seconds per try so far and at most `MAX_TAP_RETRY_SECS`.
pub fn tap_retry_delay(attempt: u32) -> (r: Option<u64>)
    ensures
        attempt >= MAX_TAP_ATTEMPTS ==> r is None,
        attempt < MAX_TAP_ATTEMPTS ==> r == Some(
            if 3 * attempt <= MAX_TAP_RETRY_SECS {
                (3 * attempt) as u64
            } else {
                MAX_TAP_RETRY_SECS
            },
        ),
{
    if attempt >= MAX_TAP_ATTEMPTS {
        return None;
    }
    let delay = attempt * 3;
    if (delay as u64) <= MAX_TAP_RETRY_SECS {
        Some(delay as u64)
    } else {
        Some(MAX_TAP_RETRY_SECS)
    }
}

/// Enter pressed in a chat app is reported once by `take_enter`, and then no more.
pub proof fn lemma_enter_reported_once(s: MonitorView, keycode: u16)
    requires
        is_chat_app_name(s.current_app),
        keycode == KEY_RETURN || keycode == KEY_NUMPAD_ENTER,
    ensures
        take_step(key_step(s, keycode, false)).0,
        !take_step(take_step(key_step(s, keycode, false)).1).0,
        !key_step(s, keycode, false).is_typing,
{
}

/// Outside a chat app, or with Command held, no key press changes the state.
pub proof fn lemma_keys_ignored(s: MonitorView, keycode: u16, command_held: bool)
    requires
        !is_chat_app_name(s.current_app) || command_held,
    ensures
        key_step(s, keycode, command_held) == s,
{
}

/// The waits between tries never exceed `MAX_TAP_RETRY_SECS`, and at most
/// `MAX_TAP_ATTEMPTS` tries are made.
pub proof fn lemma_tap_retry_bounded(attempt: u32, delay: u64)
    requires
        attempt < MAX_TAP_ATTEMPTS,
        delay == (if 3 * attempt <= MAX_TAP_RETRY_SECS {
            (3 * attempt) as u64
        } else {
            MAX_TAP_RETRY_SECS
        }),
    ensures
        delay <= MAX_TAP_RETRY_SECS,
        attempt > 0 ==> delay > 0,
{
}

} // verus!
