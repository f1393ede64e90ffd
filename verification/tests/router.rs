use parla::config::typesafe_thresholds;
use parla::confirm::Pending;
use parla::desktop::{Command, Window, WindowOp, WindowTarget};
use parla::double::Double;
use parla::flow::Processed;
use parla::intent::Intent;
use parla::policy::{Policy, Signals};
use parla::router::{
    changed, confirmed, learn_region, promotion_notice, read_until, took_back, utterance,
    window_target, Handled, Learned, Route, Router, Snapshot, Verified,
};
use parla::verdict::{Resolved, Verdict};

fn d(x: f64) -> Double {
    Double { bits: x.to_bits() }
}

fn window(id: &str) -> Window {
    Window {
        id: id.into(),
        title: format!("title of {id}"),
        class: "kate".into(),
        resource_name: String::new(),
        desktop: 1,
        active: true,
        minimized: false,
        stacking: 0,
        pid: 0,
        normal: true,
    }
}

fn router() -> Router {
    Router::new(Some(Policy::from(typesafe_thresholds())), 8_000, 90_000)
}

fn act(intent: Intent, confidence: f64) -> Verdict {
    Verdict::Act(Resolved {
        intent,
        window_id: None,
        entry_id: None,
        confidence: d(confidence),
        signals: Signals::Judged {
            confidence: d(confidence),
            destructive: Some(d(0.0)),
            dictation: Some(d(0.0)),
        },
    })
}

fn failure(r: Route) -> String {
    match r {
        Route::Fail(s) => s,
        other => panic!("{other:?}"),
    }
}

#[test]
fn a_harmless_command_runs_at_once() {
    let mut r = router();
    let route = r.route("open a terminal", Some(Intent::OpenTerminal), None, 0);
    assert!(matches!(route, Route::Execute(Command::OpenTerminal)));
}

#[test]
fn closing_asks_and_a_yes_in_time_closes_that_window() {
    let mut r = router();
    let now = 1_000;
    let route = r.route("close kate", Some(Intent::CloseWindow { query: Some("kate".into()) }), None, now);
    let Route::Ask { command, reason } = route else {
        panic!("{route:?}");
    };
    assert_eq!(
        window_target(&command),
        Some(&WindowTarget::Query("kate".into()))
    );
    let asked = r.ask(command, reason, Some(&window("{k1}")), "close 'notes'".into(), now);
    assert_eq!(asked, Handled::Confirm("Close 'notes'? say yes".into()));

    let route = r.route("yes", Some(Intent::Confirm), None, now + 8_000);
    let Route::Recheck(pending) = route else {
        panic!("{route:?}");
    };
    assert_eq!(
        confirmed(pending.clone(), Some(&window("{k1}"))).unwrap(),
        Command::Window {
            op: WindowOp::Close,
            target: WindowTarget::Id("{k1}".into())
        }
    );
    assert!(confirmed(pending.clone(), Some(&window("{k2}"))).is_err());
    assert!(confirmed(pending, None).is_err());
    assert_eq!(
        failure(r.route("yes", Some(Intent::Confirm), None, now + 8_000)),
        "nothing to confirm"
    );
}

#[test]
fn a_question_starts_with_a_capital() {
    for (said, asked) in [
        ("écrire", "Écrire? say yes"),
        ("ß", "SS? say yes"),
        ("", "? say yes"),
        ("9 lives", "9 lives? say yes"),
    ] {
        let mut r = router();
        let h = r.ask(Command::ClaudeRead, String::new(), None, said.into(), 0);
        assert_eq!(h, Handled::Confirm(asked.into()));
    }
}

#[test]
fn a_late_yes_does_nothing() {
    let mut r = router();
    r.ask(
        Command::Key { chord: "ctrl+s".into() },
        "keys confirm".into(),
        None,
        "press ctrl+s".into(),
        0,
    );
    assert_eq!(
        failure(r.route("yes", Some(Intent::Confirm), None, 8_001)),
        "too late to confirm press ctrl+s (say the command again)"
    );
}

#[test]
fn a_yes_without_a_window_runs_the_command() {
    let mut r = router();
    let key = || Command::Key { chord: "ctrl+s".into() };
    r.ask(key(), String::new(), None, "press ctrl+s".into(), 0);
    let route = r.route("yes", Some(Intent::Confirm), None, 10);
    assert!(matches!(route, Route::Execute(c) if c == key()));
}

#[test]
fn a_no_and_any_other_command_drop_the_prompt() {
    let mut r = router();
    r.ask(Command::ClaudeRead, String::new(), None, "read".into(), 0);
    assert!(matches!(
        r.route("no", Some(Intent::Deny), None, 1),
        Route::Done(s) if s == "cancelled: read"
    ));
    assert!(matches!(
        r.route("no", Some(Intent::Deny), None, 1),
        Route::Done(s) if s == "nothing to cancel"
    ));
    r.ask(Command::ClaudeRead, String::new(), None, "read".into(), 0);
    r.route("open a terminal", Some(Intent::OpenTerminal), None, 1);
    assert_eq!(
        failure(r.route("yes", Some(Intent::Confirm), None, 1)),
        "nothing to confirm"
    );
}

#[test]
fn without_a_judge_an_unknown_phrase_fails() {
    let mut r = Router::new(None, 8_000, 90_000);
    assert_eq!(
        failure(r.route("say \"hi\"\n", None, None, 0)),
        format!(
            "no fast-path match for {:?} (judged path disabled)",
            "say \"hi\"\n"
        )
    );
    assert!(matches!(router().route("hm", None, None, 0), Route::Judge));
}

#[test]
fn verdicts_lead_to_what_the_policy_allows() {
    let r = router();
    let open = Intent::LaunchApp {
        query: "Firefox".into(),
    };
    assert!(matches!(
        r.judged(act(open.clone(), 0.9), "open firefox", None, 0),
        Route::Execute(Command::LaunchApp { .. })
    ));
    assert!(matches!(
        r.judged(act(open.clone(), 0.6), "open firefox", None, 0),
        Route::Ask { .. }
    ));
    let said = failure(r.judged(act(open.clone(), 0.1), "open firefox", None, 0));
    assert!(
        said.starts_with(&format!("judged (confidence 0.10) {open:?} refused: ")),
        "{said}"
    );
    let said = failure(r.judged(Verdict::Dictation, "hello", None, 0));
    assert!(said.contains("hold the dictate hotkey"), "{said}");
    assert_eq!(
        failure(r.judged(Verdict::Unclear("no match".into()), "blah", None, 0)),
        "could not act on \"blah\": no match"
    );
    assert_eq!(
        failure(r.judged(act(Intent::Confirm, 0.9), "yes", None, 0)),
        "judge produced a reply, not a command"
    );
}

#[test]
fn only_a_recent_dictation_in_the_same_window_is_taken_back() {
    let mut r = router();
    let w = window("{k1}");
    assert_eq!(r.dictated("hello", Some(&w), None, 1_000), 1);
    let scratch = || Some(Intent::ScratchThat);
    assert!(matches!(
        r.route("scratch that", scratch(), Some(&w), 91_000),
        Route::TakeBack(l) if l.text == "hello"
    ));
    for (focus, now) in [(window("{k2}"), 2_000), (window("{k1}"), 91_001)] {
        assert_eq!(
            failure(r.route("scratch that", scratch(), Some(&focus), now)),
            "nothing recent to take back"
        );
    }
    assert_eq!(
        r.scratched(Verified::Exact, 5),
        Handled::Done("took back 5 characters (verified)".into())
    );
    assert!(r.recent_dictation(Some(&w), 1_000).is_none());
}

#[test]
fn an_edit_rewrites_the_last_dictation() {
    let mut r = router();
    let w = window("{k1}");
    let edit = Intent::EditText {
        instruction: "louder".into(),
    };
    assert_eq!(
        failure(r.judged(act(edit.clone(), 0.9), "louder", Some(&w), 0)),
        "nothing recent to edit"
    );
    r.dictated("hello", Some(&w), None, 0);
    let route = r.judged(act(edit.clone(), 0.9), "louder", Some(&w), 10);
    let Route::Rewrite { last, instruction } = route else {
        panic!("{route:?}");
    };
    assert_eq!(instruction, "louder");
    assert!(changed(&last, "HELLO"));
    assert!(!changed(&last, "hello"));
    assert_eq!(
        r.edited(last, "HELLO".into(), 20),
        Handled::Typed(Processed {
            text: "HELLO".into(),
            outcome: "edited",
            profile: String::new()
        })
    );
    let l = r.recent_dictation(Some(&w), 90_020).unwrap();
    assert_eq!((l.text.as_str(), l.at, l.seq), ("HELLO", 20, 1));
    let said = failure(r.judged(act(edit, 0.1), "louder", Some(&w), 30));
    assert!(said.starts_with("edit refused: "), "{said}");
}

#[test]
fn a_correction_pass_runs_once_and_only_for_its_dictation() {
    let mut r = router();
    let learn = |n| Some(learn_region(n, "kate", "", "", 0, "hi", None));
    let first = r.dictated("hi", None, learn(1), 0);
    let second = r.dictated("ho", None, learn(2), 1);
    assert!(r.learn_due(first).is_none());
    assert_eq!(r.learn_due(second).unwrap().field, 2);
    assert!(r.learn_due(second).is_none());
    assert!(r.take_learn().is_none());
    r.dictated("hu", None, learn(3), 2);
    assert_eq!(r.take_learn().unwrap().field, 3);
}

#[test]
fn the_region_has_context_on_both_sides() {
    let before = "0123456789012345678901234";
    let after = "abcdefghijklmnopqrstuvwxyz";
    let l = learn_region(7, "kate", before, after, 25, "typed", None);
    assert_eq!(l.expected, "56789012345678901234typedabcdefghijklmnopqrst");
    assert_eq!((l.from, l.to), (5, 50));
    assert_eq!((l.to - l.from) as usize, l.expected.chars().count());
    assert_eq!(read_until(&l), 90);
    let l = learn_region(7, "kate", "é", "", 1, "typed", Some(9));
    assert_eq!((l.from, l.to), (0, 9));
    let l = learn_region(7, "kate", "é", "", 1, "typed", Some(2));
    assert_eq!((l.from, l.to), (0, 6));
}

#[test]
fn deletions_are_worded() {
    assert_eq!(
        took_back(Verified::Fuzzy { deleted: 4 }, 5),
        "took back 4 characters (verified; 5 were typed)"
    );
    assert_eq!(
        took_back(Verified::Blind, 5),
        "took back 5 characters (unverified)"
    );
}

#[test]
fn learned_words_are_announced_once_promoted() {
    let l = |heard: &str, written: &str, promoted| Learned {
        heard: heard.into(),
        written: written.into(),
        count: 2,
        promoted,
    };
    assert_eq!(promotion_notice(&vec![l("a", "b", false)]), None);
    assert_eq!(
        promotion_notice(&vec![
            l("kay win", "KWin", true),
            l("a", "b", false),
            l("c", "d", true)
        ]),
        Some("Learned: kay win -> KWin, c -> d".into())
    );
}

#[test]
fn blank_transcripts_are_nothing() {
    assert_eq!(utterance(" hi \n").as_deref(), Some("hi"));
    assert_eq!(utterance(" \n"), None);
}

#[test]
fn a_snapshot_becomes_the_judges_context() {
    let s = Snapshot {
        windows: vec![window("{a}")],
        current_desktop: 2,
        desktop_count: 4,
        claude_running: true,
        last_dictation: true,
    };
    let assistant = parla::config::RouterConfig::default().assistant;
    let c = s.context(vec![], assistant.clone());
    assert_eq!((c.current_desktop, c.desktop_count), (2, 4));
    assert!(c.claude_running && c.last_dictation && c.shortlist.is_empty());
    assert_eq!(c.windows[0].id, "{a}");
    assert_eq!(c.assistant, assistant);
}

#[test]
fn a_prompt_carries_the_window_it_named() {
    let mut r = router();
    r.ask(
        Command::Window {
            op: WindowOp::Close,
            target: WindowTarget::Focused,
        },
        "why".into(),
        Some(&window("{k9}")),
        "close it".into(),
        5,
    );
    let Route::Recheck(p) = r.route("yes", Some(Intent::Confirm), None, 6) else {
        panic!("not asked again");
    };
    assert_eq!(
        p,
        Pending {
            command: Command::Window {
                op: WindowOp::Close,
                target: WindowTarget::Focused
            },
            window_id: Some("{k9}".into()),
            reason: "why".into(),
            describe: "close it".into(),
            deadline: 8_005,
        }
    );
}
