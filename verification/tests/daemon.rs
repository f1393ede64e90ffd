use parla::config::{Backend, DaemonConfig, FlowBackend};
use parla::cues::{asset_candidates, Cue, PLAYERS};
use parla::daemon::{
    after_hearing, audio_ms, counted, record_of, report, samples_for_hold, wants_local, wants_text, Action,
    BusUpdate, Event, Facts, Heard, Loop, ALREADY_RECORDING, DISCARDED, NOT_RECORDING, QUEUE_FULL,
    SESSION_LOCKED, VOICE_PAUSED,
};
use parla::dbus::{
    changes, lock_state, mode_of, mode_str, prompt_lapses, shows_level, switch_state, State,
    Status,
};
use parla::desktop::Window;
use parla::flow::Processed;
use parla::hotkeys::HotkeyEvent;
use parla::router::{Handled, Mode};
use parla::session::{already_running, next_backoff, BACKOFF_MAX, BACKOFF_MIN};

fn facts() -> Facts {
    Facts {
        enabled: true,
        locked: false,
        state: State::Idle,
        cues: true,
        max_hold_ms: 30_000,
        now: 100,
    }
}

fn open(mode: Mode, asked: bool) -> Action {
    Action::Open {
        mode,
        max_samples: 496_000,
        asked,
    }
}

#[test]
fn a_hold_is_recorded_and_queued() {
    let mut l = Loop::new();
    assert_eq!(
        l.step(Event::Key(HotkeyEvent::DictatePressed), facts()),
        vec![open(Mode::Dictate, false)]
    );
    assert_eq!(
        l.step(
            Event::Started {
                mode: Mode::Dictate,
                asked: false
            },
            facts()
        ),
        vec![Action::Show(State::Recording, Some(Mode::Dictate))]
    );
    assert_eq!(l.capture.unwrap().deadline, 30_100);
    assert_eq!(l.step(Event::Ready, facts()), vec![Action::Play(Cue::Start)]);
    assert_eq!(
        l.step(Event::Key(HotkeyEvent::DictateReleased), facts()),
        vec![
            Action::Play(Cue::Stop),
            Action::Show(State::Transcribing, Some(Mode::Dictate)),
            Action::Queue(Mode::Dictate)
        ]
    );
    assert!(l.capture.is_none());
}

fn recording(mode: Mode) -> Loop {
    let mut l = Loop::new();
    l.step(Event::Started { mode, asked: false }, facts());
    l
}

#[test]
fn one_capture_runs_at_a_time() {
    let mut l = recording(Mode::Command);
    assert!(l
        .step(Event::Key(HotkeyEvent::DictatePressed), facts())
        .is_empty());
    assert_eq!(
        l.step(Event::Start(Mode::Dictate), facts()),
        vec![Action::Reply(Err(ALREADY_RECORDING.into()))]
    );
    assert_eq!(l.capture.unwrap().mode, Mode::Command);
}

#[test]
fn a_locked_session_records_nothing() {
    let locked = Facts {
        locked: true,
        ..facts()
    };
    let mut l = Loop::new();
    assert_eq!(
        l.step(Event::Start(Mode::Dictate), locked),
        vec![
            Action::Notify(VOICE_PAUSED.into()),
            Action::Reply(Err(SESSION_LOCKED.into()))
        ]
    );
    let mut l = recording(Mode::Command);
    let done = l.step(Event::Key(HotkeyEvent::CommandReleased), locked);
    assert!(done.contains(&Action::Drop));
    assert!(done.contains(&Action::SignalError(DISCARDED.into())));
    assert!(!done.iter().any(|a| matches!(a, Action::Queue(_))));
}

#[test]
fn a_switched_off_daemon_ignores_keys_but_lets_go() {
    let off = Facts {
        enabled: false,
        ..facts()
    };
    let mut l = Loop::new();
    assert!(l
        .step(Event::Key(HotkeyEvent::CommandPressed), off)
        .is_empty());
    let mut l = recording(Mode::Command);
    assert!(l
        .step(Event::Key(HotkeyEvent::CommandReleased), off)
        .contains(&Action::Queue(Mode::Command)));
    assert_eq!(
        Loop::new().step(Event::Enabled(false), off),
        vec![Action::Show(State::Paused, None)]
    );
}

#[test]
fn the_ui_is_always_answered() {
    let mut l = Loop::new();
    for e in [Event::Stop, Event::Cancel] {
        assert_eq!(
            l.step(e, facts()),
            vec![Action::Reply(Err(NOT_RECORDING.into()))]
        );
    }
    let mut l = recording(Mode::Dictate);
    assert_eq!(
        l.step(Event::Stop, facts()).last(),
        Some(&Action::Reply(Ok(())))
    );
    let mut l = recording(Mode::Dictate);
    assert_eq!(
        l.step(Event::Cancel, facts()),
        vec![
            Action::Drop,
            Action::Finish {
                message: "cancelled".into(),
                is_error: false
            },
            Action::Reply(Ok(()))
        ]
    );
    let mut l = Loop::new();
    assert_eq!(
        l.step(
            Event::StartFailed {
                error: "no device".into(),
                asked: true
            },
            facts()
        )
        .last(),
        Some(&Action::Reply(Err("no device".into())))
    );
    assert_eq!(
        l.step(
            Event::Started {
                mode: Mode::Dictate,
                asked: true
            },
            facts()
        )
        .last(),
        Some(&Action::Reply(Ok(())))
    );
}

#[test]
fn failures_are_shown_heard_and_signalled() {
    let quiet = Facts {
        cues: false,
        ..facts()
    };
    let mut l = recording(Mode::Dictate);
    let message = "capture failed: gone".to_string();
    assert_eq!(
        l.step(Event::DeviceFailed("gone".into()), quiet),
        vec![
            Action::Drop,
            Action::Notify(message.clone()),
            Action::Finish {
                message: message.clone(),
                is_error: true
            },
            Action::SignalError(message)
        ]
    );
    assert!(l.capture.is_none());
    assert_eq!(
        l.step(Event::QueueFull, facts()).first(),
        Some(&Action::Play(Cue::Error))
    );
    assert!(l
        .step(Event::QueueFull, facts())
        .contains(&Action::SignalError(QUEUE_FULL.into())));
    let mut l = recording(Mode::Dictate);
    assert!(l
        .step(Event::HoldExpired, facts())
        .contains(&Action::Queue(Mode::Dictate)));
}

#[test]
fn durations_and_samples_agree() {
    // A second more than the hold itself.
    assert_eq!(samples_for_hold(30_000), 496_000);
    assert_eq!(audio_ms(16_000), 1_000);
    assert_eq!(audio_ms(17), 1);
    assert!(wants_text(true, Mode::Dictate));
    assert!(!wants_text(true, Mode::Command));
    assert!(!wants_text(false, Mode::Dictate));
}

#[test]
fn the_local_model_is_loaded_where_it_is_used() {
    let mut c = DaemonConfig::in_dir("/m");
    assert!(wants_local(&c));
    c.judge.backend = Backend::TypeSafe;
    c.flow.backend = FlowBackend::OpenAi;
    assert!(!wants_local(&c));
    c.flow.backend = FlowBackend::Local;
    assert!(wants_local(&c));
    c.flow.cleanup = false;
    assert!(!wants_local(&c));
    c.judge.backend = Backend::Local;
    assert!(wants_local(&c));
    c.judge.enabled = false;
    assert!(!wants_local(&c));
}

fn typed(outcome: &'static str) -> Result<Handled, String> {
    Ok(Handled::Typed(Processed {
        text: "Hi there.".into(),
        outcome,
        profile: "Chat".into(),
    }))
}

#[test]
fn results_are_reported() {
    let r = report(typed("typed"), 2, true, true);
    assert_eq!(r.message, "typed 2 words");
    assert_eq!((r.cue, r.notify, r.bus), (None, false, BusUpdate::Result));
    assert_eq!(report(typed("snippet"), 2, true, true).message, "inserted a snippet");
    assert_eq!(report(typed("edited"), 2, true, true).message, "rewrote it: 2 words");
    let r = report(Ok(Handled::Confirm("Close it? say yes".into())), 0, true, false);
    assert_eq!(
        (r.cue, r.notify, r.bus),
        (Some(Cue::Stop), true, BusUpdate::Question)
    );
    let r = report(Err("bad".into()), 0, true, true);
    assert_eq!(
        (r.message.as_str(), r.cue, r.notify, r.bus),
        ("bad", Some(Cue::Error), true, BusUpdate::Error)
    );
    let r = report(Ok(Handled::Done("done".into())), 0, true, true);
    assert_eq!((r.cue, r.notify, r.bus), (None, true, BusUpdate::Result));
}

#[test]
fn an_utterance_leaves_a_record() {
    let w = Window {
        id: "{w}".into(),
        title: "Inbox".into(),
        class: "thunderbird".into(),
        resource_name: String::new(),
        desktop: 1,
        active: true,
        minimized: false,
        stacking: 0,
        pid: 0,
        normal: true,
    };
    let r = record_of(Mode::Dictate, "hi there", 1_200, Some(&w), &typed("typed"), 800, 2);
    assert_eq!(
        (
            r.mode.as_str(),
            r.app.as_str(),
            r.title.as_str(),
            r.raw.as_str(),
            r.text.as_str(),
            r.profile.as_str(),
            r.outcome.as_str(),
            r.detail.as_str()
        ),
        ("dictate", "thunderbird", "Inbox", "hi there", "Hi there.", "Chat", "typed", "")
    );
    assert_eq!((r.words, r.audio_ms, r.latency_ms), (2, 1_200, 800));
    let r = record_of(Mode::Command, "x", 1, None, &Err("bad".into()), 1, 1);
    assert_eq!((r.outcome.as_str(), r.detail.as_str(), r.app.as_str()), ("error", "bad", ""));
    assert_eq!(counted(&typed("typed"), "hi there"), "Hi there.");
    assert_eq!(counted(&Err("bad".into()), "hi there"), "hi there");
}

#[test]
fn states_and_modes_have_names() {
    let all = [
        State::Idle,
        State::Recording,
        State::Transcribing,
        State::Thinking,
        State::Typing,
        State::Waiting,
        State::Paused,
    ];
    for s in all {
        assert_eq!(s.as_str(), format!("{s:?}").to_lowercase());
    }
    assert_eq!(mode_str(Some(Mode::Dictate)), "dictate");
    assert_eq!(mode_str(Some(Mode::Command)), "command");
    assert_eq!(mode_str(None), "");
    assert_eq!(mode_of("dictate"), Ok(Mode::Dictate));
    assert_eq!(mode_of("command"), Ok(Mode::Command));
    assert!(mode_of("Dictate").is_err());
    assert!(shows_level(State::Recording) && !shows_level(State::Idle));
    assert!(prompt_lapses(State::Waiting) && !prompt_lapses(State::Idle));
}

#[test]
fn the_shown_status_follows() {
    let mut s = Status::default();
    let before = s.clone();
    s.set_state(State::Recording, Some(Mode::Dictate));
    let c = changes(&before, &s);
    assert!(c.state && !c.result);
    s.finish("typed 2 words", false);
    assert_eq!((s.state, s.mode), (State::Idle, None));
    assert_eq!(s.last_result, "typed 2 words");
    let c = changes(&before, &s);
    assert!(!c.state && c.result);
}

#[test]
fn locking_pauses_and_unlocking_resumes() {
    assert_eq!(lock_state(true, State::Idle, true), Some(State::Paused));
    assert_eq!(lock_state(true, State::Recording, true), None);
    assert_eq!(lock_state(false, State::Paused, true), Some(State::Idle));
    assert_eq!(lock_state(false, State::Paused, false), None);
    assert_eq!(switch_state(false, false, false, State::Idle), Some(State::Paused));
    assert_eq!(switch_state(true, false, false, State::Paused), Some(State::Idle));
    assert_eq!(switch_state(true, true, false, State::Paused), Some(State::Paused));
    assert_eq!(switch_state(false, false, true, State::Idle), None);
    assert_eq!(switch_state(false, false, false, State::Thinking), None);
}

#[test]
fn the_wait_to_connect_again_doubles_up_to_a_limit() {
    let mut b = BACKOFF_MIN;
    let mut seen = vec![b];
    for _ in 0..6 {
        b = next_backoff(b);
        seen.push(b);
    }
    assert_eq!(seen, [1, 2, 4, 8, 16, 30, 30]);
    assert_eq!(b, BACKOFF_MAX);
    assert!(already_running("12", "/run/lock").contains("/run/lock"));
}

#[test]
fn cues_are_looked_for_beside_the_program_first() {
    assert_eq!(PLAYERS, ["pw-play", "paplay"]);
    for c in [Cue::Start, Cue::Stop, Cue::Error] {
        let found = asset_candidates(Some("/opt/bin"), "/src", Some("/data"), c.file());
        assert!(found.len() >= 3);
        assert!(found[0].starts_with("/opt/"), "{found:?}");
        assert!(found.iter().all(|p| p.ends_with(c.file())));
    }
    assert!(asset_candidates(None, "/src", None, "a.wav")
        .iter()
        .any(|p| p.starts_with("/src")));
}

#[test]
fn what_was_said_before_a_lock_goes_nowhere() {
    assert_eq!(after_hearing(true), Heard::Discard);
    assert_eq!(after_hearing(false), Heard::Handle);
}
