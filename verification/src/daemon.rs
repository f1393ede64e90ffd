//! The daemon's main loop: when a capture starts and ends, what happens to it,
//! and what is told of an utterance.
//!
//! A key is held to talk. At most one capture runs; releasing the key, the
//! hold limit or the UI ends it. While the session is locked nothing starts,
//! and what was said before the lock goes nowhere.
use vstd::prelude::*;

use crate::config::{Backend, DaemonConfig, FlowBackend};
use crate::cues::Cue;
use crate::dbus::{switch_state, State};
use crate::desktop::Window;
use crate::flow::ProcessedView;
use crate::history::Record;
use crate::hotkeys::HotkeyEvent;
use crate::router::{Handled, HandledView, Mode};
use crate::text::{concat2, concat3, decimal_text, nothing, same};

verus! {

/// Finished captures that may wait to be transcribed.
pub const JOB_QUEUE: usize = 8;

/// Seconds an utterance in flight is waited for at shutdown.
pub const SHUTDOWN_GRACE: u64 = 10;

/// Seconds a stopped capture may take to hand over its samples.
pub const STOP_GRACE: u64 = 5;

/// Samples per second of captured audio.
pub const SAMPLE_RATE: u32 = 16_000;

/// A running push-to-talk capture.
#[derive(Clone, Copy, Debug, PartialEq, Eq, Structural)]
pub struct Held {
    pub mode: Mode,
    /// When the hold is treated as released even without a release.
    pub deadline: u64,
}

/// What the main loop keeps. Instants are milliseconds on a clock that only
/// moves forward.
#[derive(Debug)]
pub struct Loop {
    pub capture: Option<Held>,
}

/// What a request to talk comes to.
#[derive(Clone, Copy, Debug, PartialEq, Eq, Structural)]
pub enum Press {
    /// A capture is running already.
    Busy,
    /// The session is locked: voice is inert.
    Locked,
    /// Open the microphone, with room for this many samples.
    Open { max_samples: usize },
}

/// What the end of a hold comes to.
#[derive(Clone, Copy, Debug, PartialEq, Eq, Structural)]
pub enum Release {
    /// There was no capture.
    Nothing,
    /// The session was locked meanwhile: what was said goes nowhere.
    Discard(Mode),
    /// Stop the capture and queue it.
    Queue(Mode),
}

/// What becomes of an utterance that was transcribed.
#[derive(Clone, Copy, Debug, PartialEq, Eq, Structural)]
pub enum Heard {
    /// The session was locked meanwhile: what was said goes nowhere.
    Discard,
    /// It is acted on.
    Handle,
}

/// What is answered to a request while a capture runs.
pub const ALREADY_RECORDING: &'static str = "already recording";

/// What is answered to a request in a locked session.
pub const SESSION_LOCKED: &'static str = "the session is locked";

/// What is answered to the end of a capture that does not run.
pub const NOT_RECORDING: &'static str = "not recording";

/// What is shown of a key pressed in a locked session.
pub const VOICE_PAUSED: &'static str = "Session locked \u{2014} voice paused";

/// What is said of an utterance that a lock overtook.
pub const DISCARDED: &'static str = "session locked; utterance discarded";

/// What is said of an utterance that found the queue full.
pub const QUEUE_FULL: &'static str = "too many utterances waiting; dropped one";

/// What is said of a capture without speech in it.
pub const HEARD_NOTHING: &'static str = "heard nothing usable";

/// Milliseconds of audio in `samples` samples.
pub fn audio_ms(samples: usize) -> (r: u64)
    ensures
        r == (samples * 1000) / SAMPLE_RATE as int,
{
    let ms: u128 = samples as u128 * 1000 / SAMPLE_RATE as u128;
    ms as u64
}

/// The samples a capture has room for: the whole hold and a little slack, so
/// a runaway stream cannot eat memory. As many as can be counted where that
/// is more.
pub open spec fn capture_room(max_hold_ms: u64) -> int {
    let n = (SAMPLE_RATE * (max_hold_ms + 1_000)) / 1000;
    if n > usize::MAX {
        usize::MAX as int
    } else {
        n
    }
}

/// The samples a capture has room for.
pub fn samples_for_hold(max_hold_ms: u64) -> (r: usize)
    ensures
        r == capture_room(max_hold_ms),
{
    let n: u128 = SAMPLE_RATE as u128 * (max_hold_ms as u128 + 1_000) / 1000;
    if n > usize::MAX as u128 {
        usize::MAX
    } else {
        n as usize
    }
}

/// What a request to talk comes to.
pub open spec fn request_of(capture: Option<Held>, locked: bool, max_hold_ms: u64) -> Press {
    if capture is Some {
        Press::Busy
    } else if locked {
        Press::Locked
    } else {
        Press::Open { max_samples: capture_room(max_hold_ms) as usize }
    }
}

/// What the end of a hold comes to.
pub open spec fn release_of(capture: Option<Held>, locked: bool) -> Release {
    match capture {
        None => Release::Nothing,
        Some(held) => if locked {
            Release::Discard(held.mode)
        } else {
            Release::Queue(held.mode)
        },
    }
}

/// The mode a key stands for, and whether it was pressed.
pub open spec fn key_of(event: HotkeyEvent) -> (Mode, bool) {
    match event {
        HotkeyEvent::DictatePressed => (Mode::Dictate, true),
        HotkeyEvent::CommandPressed => (Mode::Command, true),
        HotkeyEvent::DictateReleased => (Mode::Dictate, false),
        HotkeyEvent::CommandReleased => (Mode::Command, false),
    }
}

/// What the loop waits for.
#[derive(Clone, Debug)]
pub enum Event {
    /// A key was pressed or released.
    Key(HotkeyEvent),
    /// The UI asks for a capture.
    Start(Mode),
    /// The UI asks for its end.
    Stop,
    /// The UI asks to forget it.
    Cancel,
    /// The UI switched the daemon on or off.
    Enabled(bool),
    /// The capture was started; `asked` says whether the UI waits for that.
    Started { mode: Mode, asked: bool },
    /// It was not.
    StartFailed { error: String, asked: bool },
    /// The device is open and recording.
    Ready,
    /// The device did not open.
    DeviceFailed(String),
    /// The key was held as long as allowed.
    HoldExpired,
    /// A stopped capture found the queue full.
    QueueFull,
}

/// What the loop knows when something happens.
#[derive(Clone, Copy, Debug, PartialEq, Eq, Structural)]
pub struct Facts {
    /// Whether the daemon is switched on.
    pub enabled: bool,
    pub locked: bool,
    /// The state shown on the bus.
    pub state: State,
    /// Whether cues are played.
    pub cues: bool,
    pub max_hold_ms: u64,
    pub now: u64,
}

/// What the loop has done.
#[derive(Debug, PartialEq, Eq)]
pub enum Action {
    /// Open the microphone, with room for this many samples.
    Open { mode: Mode, max_samples: usize, asked: bool },
    /// Stop the capture and queue it to be transcribed.
    Queue(Mode),
    /// Forget the capture.
    Drop,
    Play(Cue),
    Notify(String),
    /// Show a state on the bus.
    Show(State, Option<Mode>),
    /// Show an outcome on the bus and go idle.
    Finish { message: String, is_error: bool },
    /// Signal an error on the bus.
    SignalError(String),
    /// Answer the UI.
    Reply(Result<(), String>),
}

/// An [`Action`] with its texts as character sequences.
pub ghost enum ActionView {
    Open { mode: Mode, max_samples: usize, asked: bool },
    Queue(Mode),
    Drop,
    Play(Cue),
    Notify(Seq<char>),
    Show(State, Option<Mode>),
    Finish { message: Seq<char>, is_error: bool },
    SignalError(Seq<char>),
    Reply(Result<(), Seq<char>>),
}

impl View for Action {
    type V = ActionView;

    open spec fn view(&self) -> ActionView {
        match *self {
            Action::Open { mode, max_samples, asked } => ActionView::Open {
                mode,
                max_samples,
                asked,
            },
            Action::Queue(mode) => ActionView::Queue(mode),
            Action::Drop => ActionView::Drop,
            Action::Play(cue) => ActionView::Play(cue),
            Action::Notify(m) => ActionView::Notify(m@),
            Action::Show(state, mode) => ActionView::Show(state, mode),
            Action::Finish { message, is_error } => ActionView::Finish {
                message: message@,
                is_error,
            },
            Action::SignalError(m) => ActionView::SignalError(m@),
            Action::Reply(r) => ActionView::Reply(
                match r {
                    Ok(_) => Ok(()),
                    Err(e) => Err(e@),
                },
            ),
        }
    }
}

/// The views of a list of actions.
pub open spec fn action_views(v: Seq<Action>) -> Seq<ActionView> {
    v.map_values(|a: Action| a@)
}

/// A cue, where cues are on.
pub open spec fn played(cues: bool, cue: Cue) -> Seq<ActionView> {
    if cues {
        seq![ActionView::Play(cue)]
    } else {
        Seq::empty()
    }
}

/// An error before anything was transcribed: cue, notification, bus.
pub open spec fn failing(message: Seq<char>, cues: bool) -> Seq<ActionView> {
    played(cues, Cue::Error) + seq![
        ActionView::Notify(message),
        ActionView::Finish { message, is_error: true },
        ActionView::SignalError(message),
    ]
}

/// An answer to the UI, where it waits for one.
pub open spec fn replied(asked: bool, reply: Result<(), Seq<char>>) -> Seq<ActionView> {
    if asked {
        seq![ActionView::Reply(reply)]
    } else {
        Seq::empty()
    }
}

/// What a request to talk has done.
pub open spec fn start_actions(
    capture: Option<Held>,
    mode: Mode,
    asked: bool,
    facts: Facts,
) -> Seq<ActionView> {
    match request_of(capture, facts.locked, facts.max_hold_ms) {
        Press::Busy => replied(asked, Err(ALREADY_RECORDING@)),
        Press::Locked => seq![ActionView::Notify(VOICE_PAUSED@)] + replied(
            asked,
            Err(SESSION_LOCKED@),
        ),
        Press::Open { max_samples } => seq![ActionView::Open { mode, max_samples, asked }],
    }
}

/// What the end of a hold has done.
pub open spec fn finish_actions(capture: Option<Held>, facts: Facts) -> Seq<ActionView> {
    match release_of(capture, facts.locked) {
        Release::Nothing => Seq::empty(),
        Release::Discard(_) => played(facts.cues, Cue::Stop) + seq![ActionView::Drop] + failing(
            DISCARDED@,
            facts.cues,
        ),
        Release::Queue(mode) => played(facts.cues, Cue::Stop) + seq![
            ActionView::Show(State::Transcribing, Some(mode)),
            ActionView::Queue(mode),
        ],
    }
}

/// What an event does to the capture, and what it has done.
pub open spec fn step_of(capture: Option<Held>, event: Event, facts: Facts) -> (
    Option<Held>,
    Seq<ActionView>,
) {
    match event {
        Event::Key(key) => {
            let (mode, pressed) = key_of(key);
            if !pressed {
                (None, finish_actions(capture, facts))
            } else if !facts.enabled {
                (capture, Seq::empty())
            } else {
                (capture, start_actions(capture, mode, false, facts))
            }
        },
        Event::Start(mode) => (capture, start_actions(capture, mode, true, facts)),
        Event::Stop => (
            None,
            finish_actions(capture, facts) + seq![
                ActionView::Reply(
                    if capture is Some {
                        Ok(())
                    } else {
                        Err(NOT_RECORDING@)
                    },
                ),
            ],
        ),
        Event::Cancel => (
            None,
            if capture is Some {
                seq![
                    ActionView::Drop,
                    ActionView::Finish { message: "cancelled"@, is_error: false },
                    ActionView::Reply(Ok(())),
                ]
            } else {
                seq![ActionView::Reply(Err(NOT_RECORDING@))]
            },
        ),
        Event::Enabled(on) => (
            capture,
            match crate::dbus::switched(on, facts.locked, capture is Some, facts.state) {
                Some(state) => seq![ActionView::Show(state, None)],
                None => Seq::empty(),
            },
        ),
        Event::Started { mode, asked } => (
            Some(Held { mode, deadline: deadline_of(facts.now, facts.max_hold_ms) }),
            seq![ActionView::Show(State::Recording, Some(mode))] + replied(asked, Ok(())),
        ),
        Event::StartFailed { error, asked } => (
            capture,
            failing("capture failed: "@ + error@, facts.cues) + replied(asked, Err(error@)),
        ),
        Event::Ready => (capture, played(facts.cues, Cue::Start)),
        Event::DeviceFailed(error) => (
            None,
            seq![ActionView::Drop] + failing("capture failed: "@ + error@, facts.cues),
        ),
        Event::HoldExpired => (None, finish_actions(capture, facts)),
        Event::QueueFull => (capture, failing(QUEUE_FULL@, facts.cues)),
    }
}

/// When a hold that starts now ends by itself; never, where that is past what
/// the clock can count to.
pub open spec fn deadline_of(now: u64, max_hold_ms: u64) -> u64 {
    if now + max_hold_ms > u64::MAX {
        u64::MAX
    } else {
        (now + max_hold_ms) as u64
    }
}

fn play(out: &mut Vec<Action>, cues: bool, cue: Cue)
    ensures
        action_views(final(out)@) == action_views(old(out)@) + played(cues, cue),
{
    if cues {
        out.push(Action::Play(cue));
    }
    assert(action_views(out@) =~= action_views(old(out)@) + played(cues, cue));
}

fn fail(out: &mut Vec<Action>, message: &str, cues: bool)
    ensures
        action_views(final(out)@) == action_views(old(out)@) + failing(message@, cues),
{
    play(out, cues, Cue::Error);
    let ghost before = action_views(out@);
    out.push(Action::Notify(message.to_string()));
    out.push(Action::Finish { message: message.to_string(), is_error: true });
    out.push(Action::SignalError(message.to_string()));
    assert(action_views(out@) =~= before + seq![
        ActionView::Notify(message@),
        ActionView::Finish { message: message@, is_error: true },
        ActionView::SignalError(message@),
    ]);
    assert(action_views(out@) =~= action_views(old(out)@) + failing(message@, cues));
}

fn reply(out: &mut Vec<Action>, asked: bool, error: Option<&str>)
    ensures
        action_views(final(out)@) == action_views(old(out)@) + replied(
            asked,
            match error {
                Some(e) => Err(e@),
                None => Ok(()),
            },
        ),
{
    if asked {
        match error {
            Some(e) => out.push(Action::Reply(Err(e.to_string()))),
            None => out.push(Action::Reply(Ok(()))),
        }
    }
    assert(action_views(out@) =~= action_views(old(out)@) + replied(
        asked,
        match error {
            Some(e) => Err(e@),
            None => Ok(()),
        },
    ));
}

impl Loop {
    /// Nothing is captured yet.
    pub fn new() -> (r: Loop)
        ensures
            r.capture is None,
    {
        Loop { capture: None }
    }

    fn request(&self, locked: bool, max_hold_ms: u64) -> (r: Press)
        ensures
            r == request_of(self.capture, locked, max_hold_ms),
    {
        if self.capture.is_some() {
            Press::Busy
        } else if locked {
            Press::Locked
        } else {
            Press::Open { max_samples: samples_for_hold(max_hold_ms) }
        }
    }

    fn start_capture(&self, mode: Mode, asked: bool, facts: Facts) -> (r: Vec<Action>)
        ensures
            action_views(r@) == start_actions(self.capture, mode, asked, facts),
    {
        let mut out: Vec<Action> = Vec::new();
        match self.request(facts.locked, facts.max_hold_ms) {
            Press::Busy => reply(&mut out, asked, Some(ALREADY_RECORDING)),
            Press::Locked => {
                out.push(Action::Notify(VOICE_PAUSED.to_string()));
                reply(&mut out, asked, Some(SESSION_LOCKED));
            },
            Press::Open { max_samples } => {
                out.push(Action::Open { mode, max_samples, asked });
            },
        }
        assert(action_views(out@) =~= start_actions(self.capture, mode, asked, facts));
        out
    }

    fn finish_capture(&mut self, facts: Facts) -> (r: Vec<Action>)
        ensures
            action_views(r@) == finish_actions(old(self).capture, facts),
            final(self).capture is None,
    {
        let mut out: Vec<Action> = Vec::new();
        if let Some(held) = self.capture.take() {
            play(&mut out, facts.cues, Cue::Stop);
            if facts.locked {
                out.push(Action::Drop);
                fail(&mut out, DISCARDED, facts.cues);
            } else {
                out.push(Action::Show(State::Transcribing, Some(held.mode)));
                out.push(Action::Queue(held.mode));
            }
        }
        assert(action_views(out@) =~= finish_actions(old(self).capture, facts));
        out
    }

    /// What an event has done. A release ends the capture whichever key
    /// started it; a press while the daemon is switched off does nothing.
    pub fn step(&mut self, event: Event, facts: Facts) -> (r: Vec<Action>)
        ensures
            action_views(r@) == step_of(old(self).capture, event, facts).1,
            final(self).capture == step_of(old(self).capture, event, facts).0,
    {
        let ghost wanted = step_of(self.capture, event, facts).1;
        let mut out: Vec<Action> = Vec::new();
        match event {
            Event::Key(key) => {
                let (mode, pressed) = match key {
                    HotkeyEvent::DictatePressed => (Mode::Dictate, true),
                    HotkeyEvent::CommandPressed => (Mode::Command, true),
                    HotkeyEvent::DictateReleased => (Mode::Dictate, false),
                    HotkeyEvent::CommandReleased => (Mode::Command, false),
                };
                if !pressed {
                    return self.finish_capture(facts);
                }
                if facts.enabled {
                    return self.start_capture(mode, false, facts);
                }
            },
            Event::Start(mode) => {
                return self.start_capture(mode, true, facts);
            },
            Event::Stop => {
                let captured = self.capture.is_some();
                out = self.finish_capture(facts);
                if captured {
                    out.push(Action::Reply(Ok(())));
                } else {
                    out.push(Action::Reply(Err(NOT_RECORDING.to_string())));
                }
            },
            Event::Cancel => {
                if self.capture.is_some() {
                    self.capture = None;
                    out.push(Action::Drop);
                    out.push(
                        Action::Finish { message: "cancelled".to_string(), is_error: false },
                    );
                    out.push(Action::Reply(Ok(())));
                } else {
                    out.push(Action::Reply(Err(NOT_RECORDING.to_string())));
                }
            },
            Event::Enabled(on) => {
                if let Some(state) = switch_state(
                    on,
                    facts.locked,
                    self.capture.is_some(),
                    facts.state,
                ) {
                    out.push(Action::Show(state, None));
                }
            },
            Event::Started { mode, asked } => {
                let deadline: u64 = if facts.now > u64::MAX - facts.max_hold_ms {
                    u64::MAX
                } else {
                    facts.now + facts.max_hold_ms
                };
                self.capture = Some(Held { mode, deadline });
                out.push(Action::Show(State::Recording, Some(mode)));
                reply(&mut out, asked, None);
            },
            Event::StartFailed { error, asked } => {
                let message = concat2("capture failed: ", error.as_str());
                fail(&mut out, message.as_str(), facts.cues);
                reply(&mut out, asked, Some(error.as_str()));
            },
            Event::Ready => play(&mut out, facts.cues, Cue::Start),
            Event::DeviceFailed(error) => {
                self.capture = None;
                out.push(Action::Drop);
                let message = concat2("capture failed: ", error.as_str());
                fail(&mut out, message.as_str(), facts.cues);
            },
            Event::HoldExpired => {
                return self.finish_capture(facts);
            },
            Event::QueueFull => fail(&mut out, QUEUE_FULL, facts.cues),
        }
        assert(action_views(out@) =~= wanted);
        out
    }
}

/// While a capture runs no other one starts.
pub proof fn law_one_capture_at_a_time(held: Held, event: Event, facts: Facts)
    ensures
        forall|i: int|
            0 <= i < step_of(Some(held), event, facts).1.len() ==> !(#[trigger] step_of(
                Some(held),
                event,
                facts,
            ).1[i] is Open),
{
}

/// What becomes of an utterance that was transcribed: transcription takes long
/// enough for the screen to have locked.
pub open spec fn heard_of(locked: bool) -> Heard {
    if locked {
        Heard::Discard
    } else {
        Heard::Handle
    }
}

/// What becomes of an utterance that was transcribed.
pub fn after_hearing(locked: bool) -> (r: Heard)
    ensures
        r == heard_of(locked),
{
    if locked {
        Heard::Discard
    } else {
        Heard::Handle
    }
}

/// In a locked session nothing starts to record, nothing recorded is processed
/// and nothing transcribed is acted on.
pub proof fn law_locked_session_is_inert(capture: Option<Held>, event: Event, facts: Facts)
    requires
        facts.locked,
    ensures
        forall|i: int|
            0 <= i < step_of(capture, event, facts).1.len() ==> !(#[trigger] step_of(
                capture,
                event,
                facts,
            ).1[i] is Open || step_of(capture, event, facts).1[i] is Queue),
        heard_of(facts.locked) == Heard::Discard,
{
}

/// What a capture was started for is what it is processed as, whichever key
/// comes up, and when none does its hold ends by itself.
pub proof fn law_every_capture_is_queued(held: Held, event: Event, facts: Facts)
    requires
        !facts.locked,
        event == Event::HoldExpired || event == Event::Stop || (event matches Event::Key(key)
            && !key_of(key).1),
    ensures
        step_of(Some(held), event, facts).1.contains(ActionView::Queue(held.mode)),
        step_of(Some(held), event, facts).0 is None,
{
    let n = played(facts.cues, Cue::Stop).len() as int;
    assert(step_of(Some(held), event, facts).1[n + 1] == ActionView::Queue(held.mode));
}

/// Whoever asked over the bus is answered once, at the end of what was done:
/// at once, or when it is known whether the capture started.
pub proof fn law_requests_are_answered(capture: Option<Held>, event: Event, facts: Facts)
    requires
        event is Start || event is Stop || event is Cancel || (event matches Event::Started {
            asked,
            ..
        } && asked) || (event matches Event::StartFailed { asked, .. } && asked),
    ensures
        ({
            let actions = step_of(capture, event, facts).1;
            actions.len() > 0 && (actions.last() is Reply || (event is Start
                && actions.last() is Open))
        }),
{
}

/// Whether the text field is read when a capture starts.
pub fn wants_text(context: bool, mode: Mode) -> (r: bool)
    ensures
        r == (context && mode == Mode::Dictate),
{
    context && mode == Mode::Dictate
}

/// Whether any part of the daemon runs on the local model.
pub open spec fn local_wanted(cfg: DaemonConfig) -> bool {
    ||| cfg.judge.enabled && cfg.judge.backend == Backend::Local
    ||| cfg.flow.cleanup && cfg.flow.backend == FlowBackend::Local
}

/// Whether any part of the daemon runs on the local model.
pub fn wants_local(cfg: &DaemonConfig) -> (r: bool)
    ensures
        r == local_wanted(*cfg),
{
    (cfg.judge.enabled && cfg.judge.backend == Backend::Local) || (cfg.flow.cleanup
        && cfg.flow.backend == FlowBackend::Local)
}

/// What is told of an utterance, and how.
#[derive(Clone, Debug, PartialEq, Eq)]
pub struct Report {
    pub message: String,
    pub cue: Option<Cue>,
    /// Whether a notification shows the message.
    pub notify: bool,
    pub bus: BusUpdate,
}

/// What a UI is told of an utterance.
#[derive(Clone, Copy, Debug, PartialEq, Eq, Structural)]
pub enum BusUpdate {
    /// The message is the last result, and the daemon is idle.
    Result,
    /// The message is an error, signalled too, and the daemon is idle.
    Error,
    /// The message is a question, and the daemon waits for its answer.
    Question,
}

/// A [`Report`] as sequences.
pub ghost struct ReportView {
    pub message: Seq<char>,
    pub cue: Option<Cue>,
    pub notify: bool,
    pub bus: BusUpdate,
}

impl View for Report {
    type V = ReportView;

    open spec fn view(&self) -> ReportView {
        ReportView { message: self.message@, cue: self.cue, notify: self.notify, bus: self.bus }
    }
}

/// A cue, where cues are on.
pub open spec fn if_on(cues: bool, cue: Cue) -> Option<Cue> {
    if cues {
        Some(cue)
    } else {
        None
    }
}

/// What is told of an utterance that was handled, or failed with a message.
/// `words` is the number of words that were typed.
pub open spec fn report_of(
    result: Result<HandledView, Seq<char>>,
    words: nat,
    cues: bool,
    notify_results: bool,
) -> ReportView {
    match result {
        Ok(HandledView::Done(message)) => ReportView {
            message,
            cue: None,
            notify: notify_results,
            bus: BusUpdate::Result,
        },
        Ok(HandledView::Typed(p)) => ReportView {
            message: if p.outcome == "snippet"@ {
                "inserted a snippet"@
            } else if p.outcome == "edited"@ {
                "rewrote it: "@ + crate::text::decimal(words) + " words"@
            } else {
                "typed "@ + crate::text::decimal(words) + " words"@
            },
            cue: None,
            notify: false,
            bus: BusUpdate::Result,
        },
        Ok(HandledView::Confirm(message)) => ReportView {
            message,
            cue: if_on(cues, Cue::Stop),
            notify: true,
            bus: BusUpdate::Question,
        },
        Err(message) => ReportView {
            message,
            cue: if_on(cues, Cue::Error),
            notify: notify_results,
            bus: BusUpdate::Error,
        },
    }
}

/// A handled utterance or its failure, as sequences.
pub open spec fn result_view(r: Result<Handled, String>) -> Result<HandledView, Seq<char>> {
    match r {
        Ok(h) => Ok(h@),
        Err(e) => Err(e@),
    }
}

/// What is told of an utterance. A question has to be heard whatever the
/// settings say: the action waits on its answer.
pub fn report(
    result: Result<Handled, String>,
    words: usize,
    cues: bool,
    notify_results: bool,
) -> (r: Report)
    ensures
        r@ == report_of(result_view(result), words as nat, cues, notify_results),
{
    match result {
        Ok(Handled::Done(message)) => Report {
            message,
            cue: None,
            notify: notify_results,
            bus: BusUpdate::Result,
        },
        Ok(Handled::Typed(p)) => {
            let message = if same(p.outcome, "snippet") {
                "inserted a snippet".to_string()
            } else {
                let n = decimal_text(words as u64);
                if same(p.outcome, "edited") {
                    concat3("rewrote it: ", n.as_str(), " words")
                } else {
                    concat3("typed ", n.as_str(), " words")
                }
            };
            Report { message, cue: None, notify: false, bus: BusUpdate::Result }
        },
        Ok(Handled::Confirm(message)) => Report {
            message,
            cue: if cues {
                Some(Cue::Stop)
            } else {
                None
            },
            notify: true,
            bus: BusUpdate::Question,
        },
        Err(message) => Report {
            message,
            cue: if cues {
                Some(Cue::Error)
            } else {
                None
            },
            notify: notify_results,
            bus: BusUpdate::Error,
        },
    }
}

/// A question is always made heard.
pub proof fn law_questions_are_always_shown(
    question: Seq<char>,
    words: nat,
    cues: bool,
    notify_results: bool,
)
    ensures
        report_of(Ok(HandledView::Confirm(question)), words, cues, notify_results).notify,
{
}

/// What was typed, how it ended, the message that says so, and the profile.
pub ghost struct RecordedView {
    pub text: Seq<char>,
    pub outcome: Seq<char>,
    pub detail: Seq<char>,
    pub profile: Seq<char>,
}

/// What the history keeps of a result.
pub open spec fn recorded(result: Result<HandledView, Seq<char>>) -> RecordedView {
    let none = Seq::<char>::empty();
    match result {
        Ok(HandledView::Typed(p)) => RecordedView {
            text: p.text,
            outcome: p.outcome,
            detail: none,
            profile: p.profile,
        },
        Ok(HandledView::Done(m)) => RecordedView {
            text: none,
            outcome: "command"@,
            detail: m,
            profile: none,
        },
        Ok(HandledView::Confirm(q)) => RecordedView {
            text: none,
            outcome: "confirm"@,
            detail: q,
            profile: none,
        },
        Err(e) => RecordedView { text: none, outcome: "error"@, detail: e, profile: none },
    }
}

/// The text whose words are counted: what was typed, else what was heard.
pub open spec fn counted_of(result: Result<HandledView, Seq<char>>, transcript: Seq<char>) -> Seq<
    char,
> {
    if recorded(result).text.len() == 0 {
        transcript
    } else {
        recorded(result).text
    }
}

/// The text whose words the history counts.
pub fn counted<'a>(result: &'a Result<Handled, String>, transcript: &'a str) -> (r: &'a str)
    ensures
        r@ == counted_of(result_view(*result), transcript@),
{
    if let Ok(Handled::Typed(p)) = result {
        if !p.text.as_str().is_empty() {
            return p.text.as_str();
        }
    }
    transcript
}

/// The history line of one utterance, where `words` is the number of words of
/// [`counted`].
pub fn record_of(
    mode: Mode,
    transcript: &str,
    audio_ms: u64,
    focused: Option<&Window>,
    result: &Result<Handled, String>,
    latency_ms: u64,
    words: u32,
) -> (r: Record)
    ensures
        r.id@.len() == 0,
        r.at_ms == 0,
        r.mode@ == crate::dbus::mode_name(Some(mode)),
        r.app@ == (match focused {
            Some(w) => w.class@,
            None => Seq::empty(),
        }),
        r.title@ == (match focused {
            Some(w) => w.title@,
            None => Seq::empty(),
        }),
        r.raw@ == transcript@,
        r.words == words,
        r.audio_ms == audio_ms,
        r.latency_ms == latency_ms,
        r.text@ == recorded(result_view(*result)).text,
        r.outcome@ == recorded(result_view(*result)).outcome,
        r.detail@ == recorded(result_view(*result)).detail,
        r.profile@ == recorded(result_view(*result)).profile,
{
    let (text, outcome, detail, profile) = match result {
        Ok(Handled::Typed(p)) => (
            p.text.clone(),
            p.outcome.to_string(),
            nothing(),
            p.profile.clone(),
        ),
        Ok(Handled::Done(m)) => (nothing(), "command".to_string(), m.clone(), nothing()),
        Ok(Handled::Confirm(q)) => (nothing(), "confirm".to_string(), q.clone(), nothing()),
        Err(e) => (nothing(), "error".to_string(), e.clone(), nothing()),
    };
    let (app, title) = match focused {
        Some(w) => (w.class.clone(), w.title.clone()),
        None => (nothing(), nothing()),
    };
    Record {
        id: nothing(),
        at_ms: 0,
        mode: crate::dbus::mode_str(Some(mode)).to_string(),
        app,
        title,
        raw: transcript.to_string(),
        text,
        words,
        profile,
        audio_ms,
        latency_ms,
        outcome,
        detail,
    }
}

/// A key that is pressed opens the microphone for what the key is for, and so
/// does a request over the bus, unless a capture runs, the session is locked or,
/// for a key, the daemon is switched off.
pub proof fn law_pressing_opens_the_microphone(facts: Facts)
    requires
        !facts.locked,
    ensures
        ({
            let opens = |actions: Seq<ActionView>, mode: Mode, asked: bool|
                actions.len() == 1 && (actions[0] matches ActionView::Open { mode: m, asked: a, .. }
                    && m == mode && a == asked);
            &&& facts.enabled ==> opens(
                step_of(None, Event::Key(HotkeyEvent::DictatePressed), facts).1,
                Mode::Dictate,
                false,
            )
            &&& facts.enabled ==> opens(
                step_of(None, Event::Key(HotkeyEvent::CommandPressed), facts).1,
                Mode::Command,
                false,
            )
            &&& opens(
                step_of(None, Event::Start(Mode::Dictate), facts).1,
                Mode::Dictate,
                true,
            )
            &&& opens(
                step_of(None, Event::Start(Mode::Command), facts).1,
                Mode::Command,
                true,
            )
        }),
{
}

/// A daemon that is switched off leaves pressed keys alone.
pub proof fn law_switched_off_ignores_the_keys(capture: Option<Held>, facts: Facts)
    requires
        !facts.enabled,
    ensures
        step_of(capture, Event::Key(HotkeyEvent::DictatePressed), facts) == (
            capture,
            Seq::<ActionView>::empty(),
        ),
        step_of(capture, Event::Key(HotkeyEvent::CommandPressed), facts) == (
            capture,
            Seq::<ActionView>::empty(),
        ),
{
}

/// Whichever key comes up, a capture ends: it is queued as what it was started
/// for, or dropped with an error where the session is locked. Without a capture
/// nothing happens.
pub proof fn law_releasing_ends_the_capture(held: Held, key: HotkeyEvent, facts: Facts)
    requires
        key == HotkeyEvent::DictateReleased || key == HotkeyEvent::CommandReleased,
    ensures
        step_of(Some(held), Event::Key(key), facts).0 is None,
        !facts.locked ==> step_of(Some(held), Event::Key(key), facts).1.contains(
            ActionView::Queue(held.mode),
        ) && step_of(Some(held), Event::Key(key), facts).1.contains(
            ActionView::Show(State::Transcribing, Some(held.mode)),
        ),
        facts.locked ==> step_of(Some(held), Event::Key(key), facts).1.contains(ActionView::Drop)
            && step_of(Some(held), Event::Key(key), facts).1.contains(
            ActionView::SignalError(DISCARDED@),
        ),
        step_of(None, Event::Key(key), facts) == (None::<Held>, Seq::<ActionView>::empty()),
{
    let actions = step_of(Some(held), Event::Key(key), facts).1;
    let n = played(facts.cues, Cue::Stop).len() as int;
    if facts.locked {
        assert(actions[n] == ActionView::Drop);
        assert(actions.last() == ActionView::SignalError(DISCARDED@));
    } else {
        assert(actions[n] == ActionView::Show(State::Transcribing, Some(held.mode)));
        assert(actions[n + 1] == ActionView::Queue(held.mode));
    }
}

/// A capture that is cancelled, or whose device fails, is dropped and never
/// processed, and a failure is told.
pub proof fn law_dropped_captures_go_nowhere(held: Held, error: String, facts: Facts)
    ensures
        step_of(Some(held), Event::Cancel, facts).0 is None,
        step_of(Some(held), Event::Cancel, facts).1.contains(ActionView::Drop),
        forall|i: int|
            0 <= i < step_of(Some(held), Event::Cancel, facts).1.len() ==> !(#[trigger] step_of(
                Some(held),
                Event::Cancel,
                facts,
            ).1[i] is Queue || step_of(Some(held), Event::Cancel, facts).1[i] is SignalError),
        step_of(Some(held), Event::DeviceFailed(error), facts).0 is None,
        step_of(Some(held), Event::DeviceFailed(error), facts).1.contains(ActionView::Drop),
        step_of(Some(held), Event::DeviceFailed(error), facts).1.contains(
            ActionView::SignalError("capture failed: "@ + error@),
        ),
        forall|i: int|
            0 <= i < step_of(Some(held), Event::DeviceFailed(error), facts).1.len() ==> !(
            #[trigger] step_of(Some(held), Event::DeviceFailed(error), facts).1[i] is Queue),
{
    let a = step_of(Some(held), Event::Cancel, facts).1;
    assert(a[0] == ActionView::Drop);
    let b = step_of(Some(held), Event::DeviceFailed(error), facts).1;
    assert(b[0] == ActionView::Drop);
    assert(b.last() == ActionView::SignalError("capture failed: "@ + error@));
}

/// A capture that was started is shown as recording, is held for what it was
/// started for, and ends by itself once the longest hold is over.
pub proof fn law_a_started_capture_is_held(
    capture: Option<Held>,
    mode: Mode,
    asked: bool,
    facts: Facts,
)
    ensures
        ({
            let (held, actions) = step_of(capture, Event::Started { mode, asked }, facts);
            &&& held matches Some(h) && h.mode == mode && (if facts.now + facts.max_hold_ms
                <= u64::MAX {
                h.deadline - facts.now == facts.max_hold_ms
            } else {
                h.deadline == u64::MAX
            })
            &&& actions.len() > 0 && actions[0] == ActionView::Show(State::Recording, Some(mode))
        }),
{
}

/// Who asks for a capture while one runs, or for the end of one that does not,
/// is told so; nothing else happens.
pub proof fn law_refused_requests_are_told(held: Held, mode: Mode, facts: Facts)
    ensures
        step_of(Some(held), Event::Start(mode), facts) == (
            Some(held),
            seq![ActionView::Reply(Err("already recording"@))],
        ),
        step_of(None, Event::Stop, facts).1 =~= seq![ActionView::Reply(Err("not recording"@))],
        step_of(None, Event::Cancel, facts).1 == seq![ActionView::Reply(Err("not recording"@))],
        facts.locked ==> step_of(None, Event::Start(mode), facts).1 =~= seq![
            ActionView::Notify(VOICE_PAUSED@),
            ActionView::Reply(Err("the session is locked"@)),
        ],
{
}

/// Sounds are played only where cues are on.
pub proof fn law_no_cues_no_sound(capture: Option<Held>, event: Event, facts: Facts)
    requires
        !facts.cues,
    ensures
        forall|i: int|
            0 <= i < step_of(capture, event, facts).1.len() ==> !(#[trigger] step_of(
                capture,
                event,
                facts,
            ).1[i] is Play),
{
}

/// A capture has room for the longest hold and one second more.
pub proof fn law_captures_have_room(max_hold_ms: u64)
    ensures
        capture_room(max_hold_ms) == usize::MAX || {
            let samples = capture_room(max_hold_ms) * 1000;
            samples <= SAMPLE_RATE * (max_hold_ms + 1000) < samples + 1000
        },
{
}

/// What is told of an utterance is what came of it: a result or a failure in its
/// own words, a question as a question, and what was typed by its word count. A
/// failure is never shown as a result.
pub proof fn law_reports_say_what_happened(
    message: Seq<char>,
    p: ProcessedView,
    words: nat,
    cues: bool,
    notify_results: bool,
)
    ensures
        ({
            let done = report_of(Ok(HandledView::Done(message)), words, cues, notify_results);
            let asked = report_of(Ok(HandledView::Confirm(message)), words, cues, notify_results);
            let failed = report_of(Err(message), words, cues, notify_results);
            let typed = report_of(Ok(HandledView::Typed(p)), words, cues, notify_results);
            &&& done.message == message && done.bus == BusUpdate::Result && done.notify
                == notify_results && done.cue is None
            &&& asked.message == message && asked.bus == BusUpdate::Question && asked.notify
            &&& failed.message == message && failed.bus == BusUpdate::Error && failed.notify
                == notify_results
            &&& typed.bus == BusUpdate::Result && !typed.notify && typed.cue is None
            &&& cues ==> failed.cue == Some(Cue::Error) && asked.cue == Some(Cue::Stop)
            &&& !cues ==> failed.cue is None && asked.cue is None
            &&& p.outcome != "snippet"@ && p.outcome != "edited"@ ==> typed.message == "typed "@
                + crate::text::decimal(words) + " words"@
        }),
{
}

/// The history keeps what was typed as it was typed, and what was said of
/// everything else.
pub proof fn law_records_keep_what_happened(message: Seq<char>, p: ProcessedView)
    ensures
        recorded(Ok(HandledView::Typed(p))).text == p.text,
        recorded(Ok(HandledView::Typed(p))).outcome == p.outcome,
        recorded(Ok(HandledView::Typed(p))).profile == p.profile,
        recorded(Ok(HandledView::Done(message))).detail == message,
        recorded(Ok(HandledView::Done(message))).outcome == "command"@,
        recorded(Ok(HandledView::Confirm(message))).detail == message,
        recorded(Ok(HandledView::Confirm(message))).outcome == "confirm"@,
        recorded(Err(message)).detail == message,
        recorded(Err(message)).outcome == "error"@,
        counted_of(Ok(HandledView::Typed(p)), message) == if p.text.len() > 0 {
            p.text
        } else {
            message
        },
        counted_of(Err(message), p.text) == p.text,
{
}

/// The local model is wanted as soon as one of its users is on: the judge or
/// the cleanup, each where it is on and runs on this machine. One that is off
/// or runs elsewhere wants nothing.
pub proof fn law_local_model_is_loaded_for_its_users(cfg: DaemonConfig)
    ensures
        cfg.judge.enabled && cfg.judge.backend == Backend::Local ==> local_wanted(cfg),
        cfg.flow.cleanup && cfg.flow.backend == FlowBackend::Local ==> local_wanted(cfg),
        !cfg.judge.enabled && !cfg.flow.cleanup ==> !local_wanted(cfg),
        cfg.judge.backend != Backend::Local && cfg.flow.backend != FlowBackend::Local
            ==> !local_wanted(cfg),
        !cfg.judge.enabled && cfg.flow.backend != FlowBackend::Local ==> !local_wanted(cfg),
        cfg.judge.backend != Backend::Local && !cfg.flow.cleanup ==> !local_wanted(cfg),
{
}

} // verus!
