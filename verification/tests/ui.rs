use parla::dbus::State;
use parla::double::Double;
use parla::history::{delete, insert, page, Record};
use parla::mock::{
    Mock, Out, Phase, ALREADY_RUNNING, APPS, COMMANDS, DISABLED, FAILURE, NOTHING_TO_CANCEL, TEXTS,
};
use parla::router::Mode;
use parla::ui::{
    autostart_path, describe, failed, offline_word, owner_changed, request_name, state_props,
    Command, Event, Mirror, Owner, Props, Signal, Store, Value, AUTOSTART_ENTRY, NOT_RUNNING,
};

#[test]
fn properties_are_read_by_name_and_type() {
    let list = vec![
        ("State".to_string(), Value::Text("recording".into())),
        ("Enabled".to_string(), Value::Flag(true)),
        ("Mode".to_string(), Value::Flag(true)),
        ("Unheard".to_string(), Value::Text("x".into())),
        ("Version".to_string(), Value::Other),
        ("LastResult".to_string(), Value::Text("a".into())),
        ("LastResult".to_string(), Value::Text("b".into())),
    ];
    let p = Props::from_list(&list);
    assert_eq!(p.state.as_deref(), Some("recording"));
    assert_eq!(p.enabled, Some(true));
    assert_eq!(p.mode, None);
    assert_eq!(p.version, None);
    assert_eq!(p.last_result.as_deref(), Some("b"));
}

#[test]
fn going_idle_brings_the_result_along() {
    let all = || {
        Some(Props::from_list(&vec![
            ("LastResult".to_string(), Value::Text("done".into())),
            ("LastResultIsError".to_string(), Value::Flag(false)),
        ]))
    };
    let p = state_props("idle".into(), "".into(), all());
    assert_eq!(p.last_result.as_deref(), Some("done"));
    assert_eq!(p.last_result_is_error, Some(false));
    let p = state_props("typing".into(), "dictate".into(), all());
    assert_eq!(p.last_result, None);
    assert_eq!(p.mode.as_deref(), Some("dictate"));
}

#[test]
fn the_mirror_follows_the_bus() {
    let mut m = Mirror::new();
    assert_eq!(m.state, "unknown");
    assert_eq!(m.apply(Event::Connected(true)), None);
    assert_eq!(
        m.apply(Event::Confirm("Close it? say yes".into())),
        Some(Signal::Confirm("Close it? say yes".into()))
    );
    let state = |s: &str| Event::Props(state_props(s.into(), "command".into(), None));
    m.apply(state("waiting"));
    assert_eq!(m.confirm_question, "Close it? say yes");
    let level = Double {
        bits: 0.5f64.to_bits(),
    };
    m.apply(Event::Level(level));
    assert_eq!(m.level, level);
    m.apply(state("recording"));
    assert_eq!(m.confirm_question, "");
    assert_eq!(m.level.bits, 0.0f64.to_bits());
    m.apply(Event::Connected(false));
    assert_eq!((m.state.as_str(), m.mode.as_str()), ("offline", ""));
}

#[test]
fn the_same_result_again_flashes() {
    let mut m = Mirror::new();
    let result = || {
        Event::Props(Props::from_list(&vec![(
            "LastResult".to_string(),
            Value::Text("typed 2 words".into()),
        )]))
    };
    assert_eq!(m.apply(result()), None);
    assert_eq!(m.apply(result()), Some(Signal::Flash));
}

#[test]
fn events_become_signals() {
    let mut m = Mirror::new();
    assert_eq!(
        m.apply(Event::Utterance("{}".into())),
        Some(Signal::Utterance("{}".into()))
    );
    assert_eq!(m.apply(Event::Error("e".into())), Some(Signal::Error("e".into())));
    assert_eq!(
        m.apply(Event::History {
            json: "[]".into(),
            offset: 3
        }),
        Some(Signal::History {
            json: "[]".into(),
            offset: 3
        })
    );
    assert_eq!(
        m.apply(Event::HistoryDeleted("1".into())),
        Some(Signal::HistoryDeleted("1".into()))
    );
    assert_eq!(m.apply(Event::HistoryCleared), Some(Signal::HistoryCleared));
    assert_eq!(m.apply(Event::Stats("s".into())), None);
    assert_eq!(m.apply(Event::Paths("p".into())), None);
    assert_eq!((m.stats_json.as_str(), m.paths_json.as_str()), ("s", "p"));
    assert_eq!(m.apply(Event::Preview("t".into())), Some(Signal::Preview("t".into())));
    assert_eq!(
        m.apply(Event::Reloaded(Err("bad".into()))),
        Some(Signal::Reloaded {
            ok: false,
            message: "bad".into()
        })
    );
    assert_eq!(
        m.apply(Event::Reloaded(Ok(()))),
        Some(Signal::Reloaded {
            ok: true,
            message: "".into()
        })
    );
    let (moved, command) = m.request_enabled(true);
    assert!(moved && m.enabled);
    assert!(matches!(command, Command::SetEnabled(true)));
    assert!(!m.request_enabled(true).0);
}

#[test]
fn refusals_are_worded() {
    assert_eq!(
        describe("org.freedesktop.DBus.Error.ServiceUnknown", Some("no such name")),
        NOT_RUNNING
    );
    assert_eq!(
        describe("org.freedesktop.DBus.Error.NameHasNoOwner", None),
        NOT_RUNNING
    );
    assert_eq!(describe("org.x.Failed", Some("busy")), "busy");
    assert_eq!(describe("org.x.Failed", None), "org.x.Failed");
    assert_eq!(failed("Stop", "busy"), "Stop: busy");
    assert_eq!(offline_word(&Command::Stop), Some(NOT_RUNNING));
    assert_eq!(offline_word(&Command::Stats), None);
    assert_eq!(request_name(&Command::SetEnabled(true)), Some("Enabled"));
    assert_eq!(request_name(&Command::Reload), None);
}

#[test]
fn the_owner_is_asked_when_it_appears() {
    assert_eq!(owner_changed(true, false), Owner::Ask);
    assert_eq!(owner_changed(true, true), Owner::Now(true));
    assert_eq!(owner_changed(false, true), Owner::Now(false));
    assert!(AUTOSTART_ENTRY.starts_with("[Desktop Entry]\n"));
}

fn record(id: &str, at_ms: u64) -> Record {
    Record {
        id: id.into(),
        at_ms,
        mode: "dictate".into(),
        app: String::new(),
        title: String::new(),
        raw: String::new(),
        text: String::new(),
        profile: String::new(),
        words: 0,
        audio_ms: 0,
        latency_ms: 0,
        outcome: "typed".into(),
        detail: String::new(),
    }
}

fn ids(v: &[Record]) -> Vec<&str> {
    v.iter().map(|r| r.id.as_str()).collect()
}

#[test]
fn history_is_paged_newest_first() {
    let h: Vec<Record> = (1..=5).map(|n| record(&n.to_string(), n)).collect();
    assert_eq!(ids(&page(&h, 2, 0)), ["5", "4"]);
    assert_eq!(ids(&page(&h, 2, 3)), ["2", "1"]);
    assert_eq!(ids(&page(&h, 2, 4)), ["1"]);
    assert!(page(&h, 2, 9).is_empty());
    assert!(page(&h, 0, 0).is_empty());
}

#[test]
fn history_forgets_and_stays_in_order() {
    let h = vec![record("a", 1), record("b", 2), record("a", 3)];
    let (h, found) = delete(h, "a");
    assert!(found);
    assert_eq!(ids(&h), ["b"]);
    let (mut h, found) = delete(h, "a");
    assert!(!found);
    insert(&mut h, record("d", 4));
    insert(&mut h, record("c", 3));
    insert(&mut h, record("first", 0));
    assert_eq!(ids(&h), ["first", "b", "c", "d"]);
}

#[test]
fn the_stand_in_goes_through_the_states() {
    let mut m = Mock::new(0, 42);
    assert!(matches!(m.tick(3_999, 0), Out::Nothing));
    assert!(matches!(
        m.tick(4_000, 0),
        Out::State(State::Recording, Some(Mode::Dictate))
    ));
    assert!(matches!(m.tick(4_040, 0), Out::Level { ticks: 1, .. }));
    assert!(matches!(m.tick(7_200, 0), Out::State(State::Transcribing, _)));
    assert!(matches!(m.tick(8_400, 0), Out::State(State::Thinking, _)));
    assert!(matches!(m.tick(9_400, 0), Out::State(State::Typing, _)));
    let out = m.tick(10_200, 77);
    let Out::Finish { record, failed } = out else {
        panic!("{out:?}");
    };
    assert!(!failed);
    assert_eq!(record.id, "4d-1");
    assert_eq!(record.raw, record.text.to_lowercase().replace(['.', ','], ""));
    assert_eq!(record.words as usize, record.text.split_whitespace().count());
    assert_eq!(m.last_result, format!("typed {} words", record.words));
    assert_eq!(m.state(), State::Idle);
    assert_eq!(m.shown_mode(), None);
    assert_eq!(m.history, [record]);
}

#[test]
fn every_sixth_utterance_asks_and_every_fifth_fails() {
    let mut m = Mock::new(0, 7);
    let (mut asked, mut errors, mut now) = (Vec::new(), Vec::new(), 0);
    while m.history.len() < 12 {
        match m.tick(now, now) {
            Out::Confirm(mode) => {
                assert_eq!(mode, Some(Mode::Command));
                asked.push(m.history.len() + 1);
            }
            Out::Finish { record, failed: true } => {
                assert_eq!(record.detail, FAILURE);
                errors.push(m.history.len());
            }
            _ => {}
        }
        now += 40;
    }
    assert_eq!(asked, [6, 12]);
    assert_eq!(errors, [5, 10]);
}

#[test]
fn the_stand_in_takes_requests() {
    let mut m = Mock::new(0, 1);
    assert_eq!(m.cancel(0), Err(NOTHING_TO_CANCEL.into()));
    assert!(m.stop(0).is_err());
    assert!(m.start("shout", 0).is_err());
    assert_eq!(m.start("command", 0), Ok(Mode::Command));
    assert_eq!(m.start("command", 0), Err(ALREADY_RUNNING.into()));
    for now in [10_000, 20_000, 90_000] {
        m.tick(now, 0);
        assert_eq!(m.state(), State::Recording);
    }
    assert_eq!(m.stop(90_000), Ok(Some(Mode::Command)));
    assert!(matches!(m.phase, Phase::Transcribing { .. }));
    m.cancel(90_001).unwrap();
    assert_eq!(m.state(), State::Idle);
    m.set_enabled(false, 90_002);
    assert_eq!(m.state(), State::Paused);
    assert_eq!(m.start("dictate", 90_003), Err(DISABLED.into()));
}

#[test]
fn the_seeded_history_is_in_order() {
    let mut m = Mock::new(0, 3);
    m.seed(1_700_000_000_000);
    assert!(m.history.len() > 10);
    assert!(m.history.windows(2).all(|w| w[0].at_ms <= w[1].at_ms));
    assert!(m.history.iter().any(|r| r.mode == "command"));
    assert!(m.history.iter().any(|r| r.mode == "dictate"));
    assert!(m
        .history
        .iter()
        .all(|r| r.mode != "command" || r.text == r.detail.to_lowercase()));
}

#[test]
fn made_up_records_follow_the_generator() {
    fn rand(rng: &mut u64) -> f64 {
        *rng ^= *rng >> 12;
        *rng ^= *rng << 25;
        *rng ^= *rng >> 27;
        (rng.wrapping_mul(0x2545_F491_4F6C_DD1D) >> 11) as f64 / (1u64 << 53) as f64
    }
    fn pick<'a>(rng: &mut u64, items: &[&'a str]) -> &'a str {
        let i = (rand(rng) * items.len() as f64) as usize;
        items[i.min(items.len() - 1)]
    }
    let mut m = Mock::new(0, 0x9E37_79B9_7F4A_7C15);
    let mut rng = m.rng;
    for n in 0..5_000u64 {
        let mode = if n % 3 == 0 { Mode::Command } else { Mode::Dictate };
        let r = m.fabricate(mode, n);
        let text = pick(&mut rng, &TEXTS);
        let app = pick(&mut rng, &APPS);
        assert_eq!(r.app, app);
        if mode == Mode::Command {
            assert_eq!(r.detail, pick(&mut rng, &COMMANDS));
        } else {
            assert_eq!(r.text, text);
        }
        assert_eq!(r.latency_ms, 400 + (rand(&mut rng) * 900.0) as u64);
        assert_eq!(m.rng, rng);
    }
}

#[test]
fn the_autostart_switch_follows_the_file() {
    assert_eq!(
        autostart_path(None, Some("/home/me")),
        "/home/me/.config/autostart/parla-ui.desktop"
    );
    assert_eq!(
        autostart_path(Some("/cfg"), None),
        "/cfg/autostart/parla-ui.desktop"
    );
    let mut store = Store::new(false);
    assert!(store.set_autostart(true, Ok(()), false));
    assert!(store.autostart);
    assert!(!store.set_autostart(false, Err("removing it: denied".into()), true));
    assert!(store.autostart);
    assert_eq!(store.last_error, "removing it: denied");
    assert!(store.set_autostart(false, Ok(()), false));
    assert_eq!(store.last_error, "");
}

#[test]
fn a_failed_operation_is_kept_until_the_next_one() {
    let mut store = Store::new(true);
    assert_eq!(store.report(Ok("{}".into())), "{}");
    assert_eq!(store.report(Err("bad file".into())), "");
    assert_eq!(store.last_error, "bad file");
    assert!(store.report_ok(Ok(())));
    assert_eq!(store.last_error, "");
    assert!(!store.report_ok(Err("disk full".into())));
    assert_eq!(store.last_error, "disk full");
}
