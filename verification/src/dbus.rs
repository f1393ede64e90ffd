//! What a UI sees of the daemon on the session bus.
//!
//! The bus shows what the daemon is doing and what came of it, and lets a
//! client start and stop a capture as a hotkey would. It works with nobody
//! listening: a session without a bus loses the UI, not dictation.
use vstd::prelude::*;

use crate::router::Mode;
use crate::text::{concat2, quoted, same};

verus! {

pub const NAME: &'static str = "org.parla.Daemon";

pub const PATH: &'static str = "/org/parla/Daemon";

/// Milliseconds between two microphone levels while recording.
pub const LEVEL_INTERVAL_MS: u64 = 40;

/// What the daemon is doing.
#[derive(Clone, Copy, Debug, PartialEq, Eq, Structural)]
pub enum State {
    Idle,
    Recording,
    Transcribing,
    Thinking,
    Typing,
    Waiting,
    Paused,
}

/// The name of a state on the bus.
pub open spec fn state_name(state: State) -> Seq<char> {
    match state {
        State::Idle => "idle"@,
        State::Recording => "recording"@,
        State::Transcribing => "transcribing"@,
        State::Thinking => "thinking"@,
        State::Typing => "typing"@,
        State::Waiting => "waiting"@,
        State::Paused => "paused"@,
    }
}

impl State {
    /// The name of the state on the bus.
    pub fn as_str(self) -> (r: &'static str)
        ensures
            r@ == state_name(self),
    {
        match self {
            State::Idle => "idle",
            State::Recording => "recording",
            State::Transcribing => "transcribing",
            State::Thinking => "thinking",
            State::Typing => "typing",
            State::Waiting => "waiting",
            State::Paused => "paused",
        }
    }
}

/// The name of a mode on the bus, empty for none.
pub open spec fn mode_name(mode: Option<Mode>) -> Seq<char> {
    match mode {
        Some(Mode::Dictate) => "dictate"@,
        Some(Mode::Command) => "command"@,
        None => ""@,
    }
}

/// The name of a mode on the bus, empty for none.
pub fn mode_str(mode: Option<Mode>) -> (r: &'static str)
    ensures
        r@ == mode_name(mode),
{
    match mode {
        Some(Mode::Dictate) => "dictate",
        Some(Mode::Command) => "command",
        None => "",
    }
}

/// The mode a client names, or what is wrong with the name.
pub fn mode_of(name: &str) -> (r: Result<Mode, String>)
    ensures
        match r {
            Ok(m) => name@ == mode_name(Some(m)),
            Err(e) => name@ != "dictate"@ && name@ != "command"@ && e@ == "mode "@
                + crate::text::debug_text(name@),
        },
{
    if same(name, "dictate") {
        Ok(Mode::Dictate)
    } else if same(name, "command") {
        Ok(Mode::Command)
    } else {
        let shown = quoted(name);
        Err(concat2("mode ", shown.as_str()))
    }
}

/// A mode is read back from its name.
pub proof fn law_mode_names_differ(a: Mode, b: Mode)
    requires
        mode_name(Some(a)) == mode_name(Some(b)),
    ensures
        a == b,
{
    reveal_strlit("dictate");
    reveal_strlit("command");
    assert("dictate"@[0] != "command"@[0]);
}

/// No two states have one name, so a client can tell them apart.
pub proof fn law_state_names_differ(a: State, b: State)
    requires
        state_name(a) == state_name(b),
    ensures
        a == b,
{
    reveal_strlit("idle");
    reveal_strlit("recording");
    reveal_strlit("transcribing");
    reveal_strlit("thinking");
    reveal_strlit("typing");
    reveal_strlit("waiting");
    reveal_strlit("paused");
    let (x, y) = (state_name(a), state_name(b));
    assert(x.len() == y.len());
    if x.len() == 6 {
        assert(x[0] == y[0]);
    }
}

/// What is published.
#[derive(Clone, Debug, PartialEq)]
pub struct Status {
    pub state: State,
    pub mode: Option<Mode>,
    pub last_result: String,
    pub is_error: bool,
}

impl Default for Status {
    fn default() -> (r: Status)
        ensures
            r.state == State::Idle,
            r.mode is None,
            r.last_result@ == Seq::<char>::empty(),
            !r.is_error,
    {
        let last_result = String::new();
        assert(last_result@ =~= Seq::<char>::empty());
        Status { state: State::Idle, mode: None, last_result, is_error: false }
    }
}

impl Status {
    /// The daemon is doing something else now.
    pub fn set_state(&mut self, state: State, mode: Option<Mode>)
        ensures
            *final(self) == (Status { state, mode, ..*old(self) }),
    {
        self.state = state;
        self.mode = mode;
    }

    /// Record an outcome and go idle.
    pub fn finish(&mut self, result: &str, is_error: bool)
        ensures
            final(self).state == State::Idle,
            final(self).mode is None,
            final(self).last_result@ == result@,
            final(self).is_error == is_error,
    {
        self.state = State::Idle;
        self.mode = None;
        self.last_result = result.to_string();
        self.is_error = is_error;
    }
}

/// What a new status changes for a client.
#[derive(Clone, Copy, Debug, PartialEq, Eq, Structural)]
pub struct Changes {
    /// The state or the mode.
    pub state: bool,
    /// The last result, or whether it is an error.
    pub result: bool,
}

/// What changed since `previous`.
pub fn changes(previous: &Status, now: &Status) -> (r: Changes)
    ensures
        r.state == (now.state != previous.state || now.mode != previous.mode),
        r.result == (now.last_result@ != previous.last_result@ || now.is_error
            != previous.is_error),
{
    let mode = match (now.mode, previous.mode) {
        (Some(a), Some(b)) => a == b,
        (None, None) => true,
        _ => false,
    };
    Changes {
        state: now.state != previous.state || !mode,
        result: !same(now.last_result.as_str(), previous.last_result.as_str()) || now.is_error
            != previous.is_error,
    }
}

/// The state to show when the session was locked or unlocked: the lock shows
/// only while nothing is in flight.
pub fn lock_state(locked: bool, state: State, enabled: bool) -> (r: Option<State>)
    ensures
        r == if locked && state == State::Idle {
            Some(State::Paused)
        } else if !locked && state == State::Paused && enabled {
            Some(State::Idle)
        } else {
            None
        },
{
    if locked && state == State::Idle {
        Some(State::Paused)
    } else if !locked && state == State::Paused && enabled {
        Some(State::Idle)
    } else {
        None
    }
}

/// The state to show when the daemon was switched on or off from the UI.
pub open spec fn switched(enabled: bool, locked: bool, capturing: bool, state: State) -> Option<
    State,
> {
    if capturing || (state != State::Idle && state != State::Paused) {
        None
    } else if !enabled || locked {
        Some(State::Paused)
    } else {
        Some(State::Idle)
    }
}

/// The state to show when the daemon was switched on or off from the UI: the
/// switch shows only while nothing is in flight.
pub fn switch_state(enabled: bool, locked: bool, capturing: bool, state: State) -> (r: Option<
    State,
>)
    ensures
        r == switched(enabled, locked, capturing, state),
{
    if capturing || (state != State::Idle && state != State::Paused) {
        None
    } else if !enabled || locked {
        Some(State::Paused)
    } else {
        Some(State::Idle)
    }
}

/// Whether a prompt whose window ended is still shown, and so is taken down.
pub fn prompt_lapses(state: State) -> (r: bool)
    ensures
        r == (state == State::Waiting),
{
    state == State::Waiting
}

/// Whether the microphone level is published.
pub fn shows_level(state: State) -> (r: bool)
    ensures
        r == (state == State::Recording),
{
    state == State::Recording
}

/// Static facts a UI shows.
#[derive(Clone, Debug)]
pub struct Info {
    pub version: String,
    pub judge: String,
    pub cleanup: String,
    pub dictate_hotkey: String,
    pub command_hotkey: String,
}

/// A switch shows only while nothing is in flight: as idle where the daemon is on
/// and the session open, as paused otherwise.
pub proof fn law_switch_shows_when_nothing_is_in_flight(
    enabled: bool,
    locked: bool,
    capturing: bool,
    state: State,
)
    ensures
        switched(enabled, locked, capturing, state) is Some <==> !capturing && (state == State::Idle
            || state == State::Paused),
        switched(enabled, locked, capturing, state) == Some(State::Idle) ==> enabled && !locked,
        switched(enabled, locked, capturing, state) == Some(State::Paused) ==> !enabled || locked,
        switched(enabled, locked, capturing, state) matches Some(s) ==> s == State::Idle || s
            == State::Paused,
{
}

/// Every state is called what it is, and no two are called the same.
pub proof fn law_states_are_called_what_they_are(a: State, b: State)
    ensures
        state_name(a) == state_name(b) ==> a == b,
        a is Idle ==> state_name(a) == "idle"@,
        a is Recording ==> state_name(a) == "recording"@,
        a is Transcribing ==> state_name(a) == "transcribing"@,
        a is Thinking ==> state_name(a) == "thinking"@,
        a is Typing ==> state_name(a) == "typing"@,
        a is Waiting ==> state_name(a) == "waiting"@,
        a is Paused ==> state_name(a) == "paused"@,
{
    reveal_strlit("idle");
    reveal_strlit("recording");
    reveal_strlit("transcribing");
    reveal_strlit("thinking");
    reveal_strlit("typing");
    reveal_strlit("waiting");
    reveal_strlit("paused");
    assert("idle"@.len() == 4 && "recording"@.len() == 9 && "transcribing"@.len() == 12 && "thinking"@.len() == 8 && "typing"@.len() == 6 && "waiting"@.len() == 7 && "paused"@.len() == 6);
    assert("typing"@[0] == 't' && "paused"@[0] == 'p');
}

/// A mode is called what it is, having none is told by nothing, and no two are
/// told alike.
pub proof fn law_modes_are_called_what_they_are(a: Option<Mode>, b: Option<Mode>)
    ensures
        mode_name(a) == mode_name(b) ==> a == b,
        a == Some(Mode::Dictate) ==> mode_name(a) == "dictate"@,
        a == Some(Mode::Command) ==> mode_name(a) == "command"@,
        a is None <==> mode_name(a).len() == 0,
{
    reveal_strlit("dictate");
    reveal_strlit("command");
    reveal_strlit("");
    assert("dictate"@[0] == 'd' && "command"@[0] == 'c');
    assert("dictate"@.len() == 7 && "command"@.len() == 7 && ""@.len() == 0);
}

} // verus!
