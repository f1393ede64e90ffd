use parla::calibrate::{best_threshold, bucket, histogram, summarize, Tie, EDGES, GRID, SHOWN};
use parla::corpus::{
    assess, check_case, check_corpus, check_target, payload_matches, windows_of, Case,
    CaseError, CorpusError, Desktop, Win,
};
use parla::double::Double;
use parla::intent::Intent;
use parla::policy::{Policy, Signals};
use parla::verdict::{Detailed, Resolved, Verdict};

fn d(x: f64) -> Double {
    Double { bits: x.to_bits() }
}

fn case_of(say: &str, expect: &str) -> Case {
    Case {
        say: say.into(),
        expect: expect.into(),
        accept: vec![],
        target: None,
        desktop: None,
        direction: None,
        payload: None,
        model: None,
        last_dictation: false,
        destructive: None,
    }
}

#[test]
fn payload_tolerates_the_wrapper_word() {
    assert!(payload_matches("to fix the test", "fix the test"));
    assert!(payload_matches("Fix the  test", "fix the test"));
    assert!(!payload_matches("please fix the test", "fix the test"));
    assert!(!payload_matches("fix the test", "to fix the test"));
    assert!(payload_matches("to  Fix the Café", "fix the café"));
    assert!(payload_matches("that È VERO", "è vero"));
}

#[test]
fn target_matches_title_class_or_id_and_focused_is_special() {
    let case = |target: &str| Case {
        target: Some(target.into()),
        ..case_of("", "close_window")
    };
    let close = |q: Option<&str>| Intent::CloseWindow {
        query: q.map(String::from),
    };
    assert_eq!(
        check_target(
            &case("konsole"),
            &close(Some("build — Konsole")),
            Some("{w0}"),
            None
        )
        .1,
        Some(true)
    );
    assert_eq!(
        check_target(
            &case("{w0}"),
            &close(Some("build — Konsole")),
            Some("{w0}"),
            None
        )
        .1,
        Some(true)
    );
    assert_eq!(
        check_target(
            &case("kate"),
            &close(Some("build — Konsole")),
            Some("{w0}"),
            None
        )
        .1,
        Some(false)
    );
    assert_eq!(
        check_target(&case("focused"), &close(None), None, None).1,
        Some(true)
    );
    assert_eq!(
        check_target(&case("focused"), &close(Some("x")), None, None).1,
        Some(false)
    );
    assert_eq!(
        check_target(&case("kate"), &Intent::OpenTerminal, None, None).1,
        Some(false)
    );
    let launch = Intent::LaunchApp {
        query: "Firefox".into(),
    };
    assert_eq!(
        check_target(&case("firefox"), &launch, None, Some("firefox.desktop")).1,
        Some(true)
    );
}

#[test]
fn best_threshold_sits_in_the_middle_of_a_tie() {
    let pairs = vec![
        (d(0.0), false),
        (d(0.1), false),
        (d(0.9), true),
        (d(1.0), true),
    ];
    let t = f64::from_bits(best_threshold(&pairs, Tie::Middle).bits);
    assert!((0.45..=0.6).contains(&t), "{t}");
    let low = f64::from_bits(best_threshold(&pairs, Tie::Low).bits);
    assert!((low - 0.15).abs() < 1e-9);
}

#[test]
fn the_grid_is_made_of_twentieths() {
    for (i, bits) in GRID.iter().enumerate() {
        assert_eq!(*bits, (f64::from(i as u32 + 1) * 0.05).to_bits());
    }
    assert_eq!(GRID.len(), 19);
    assert!(!SHOWN.is_empty());
    assert!(!EDGES.is_empty());
}

#[test]
fn buckets_are_tenths() {
    for x in [0.0, 0.05, 0.1, 0.15, 0.29999, 0.3, 0.55, 0.7, 0.95, 1.0] {
        let want = ((x * 10.0) as usize).min(9);
        assert_eq!(bucket(d(x)), want, "{x}");
    }
    assert_eq!(bucket(d(f64::NAN)), 0);
    assert_eq!(bucket(d(-1.0)), 0);
    let h = histogram(&vec![d(0.05), d(0.95), d(1.0)]);
    assert_eq!(h.len(), 10);
    assert_eq!((h[0], h[9]), (1, 2));
}

#[test]
fn cases_are_checked() {
    assert_eq!(check_case(&case_of("open it", "show_app")), Ok(()));
    assert_eq!(check_case(&case_of(" ", "show_app")), Err(CaseError::EmptySay));
    assert_eq!(
        check_case(&case_of("x", "reboot")),
        Err(CaseError::UnknownExpectation {
            name: "reboot".into()
        })
    );
    assert_eq!(
        check_case(&case_of("x", "edit_text")),
        Err(CaseError::NothingToEdit)
    );
    let sideways = Case {
        direction: Some("sideways".into()),
        ..case_of("x", "virtual_desktop_rel")
    };
    assert_eq!(check_case(&sideways), Err(CaseError::BadDirection));
    let accepted = Case {
        accept: vec!["notify".into(), "nothing".into()],
        ..case_of("x", "dictation")
    };
    assert_eq!(
        check_case(&accepted),
        Err(CaseError::UnknownExpectation {
            name: "nothing".into()
        })
    );
}

fn desktop(count: u32, current: u32) -> Desktop {
    Desktop {
        desktop_count: count,
        current_desktop: current,
        claude_running: false,
        windows: vec![],
    }
}

#[test]
fn a_corpus_is_checked_before_it_runs() {
    let good = vec![case_of("a", "dictation")];
    assert_eq!(check_corpus(&desktop(2, 1), &good), Ok(()));
    assert_eq!(
        check_corpus(&desktop(2, 1), &vec![]),
        Err(CorpusError::NoCases)
    );
    for (count, current) in [(0, 0), (2, 0), (2, 3)] {
        assert_eq!(
            check_corpus(&desktop(count, current), &good),
            Err(CorpusError::BadDesktop)
        );
    }
    let second = vec![case_of("a", "dictation"), case_of("", "dictation")];
    assert_eq!(
        check_corpus(&desktop(1, 1), &second),
        Err(CorpusError::BadCase {
            number: 1,
            error: CaseError::EmptySay
        })
    );
}

#[test]
fn what_is_wrong_with_a_corpus_is_said_in_words() {
    let good = vec![case_of("a", "dictation")];
    let said = |d: &Desktop, cases: &Vec<Case>| check_corpus(d, cases).unwrap_err().text(cases);
    assert_eq!(said(&desktop(1, 1), &vec![]), "the corpus has no cases");
    assert_eq!(
        said(&desktop(2, 3), &good),
        "state.current_desktop must be within 1..=state.desktop_count"
    );
    let empty = vec![case_of("a", "dictation"), case_of(" ", "dictation")];
    assert_eq!(said(&desktop(1, 1), &empty), "a case has an empty `say`");
    let unknown = vec![case_of("say \"hi\"", "nosuch")];
    assert_eq!(
        said(&desktop(1, 1), &unknown),
        "case \"say \\\"hi\\\"\": unknown expectation \"nosuch\""
    );
}

#[test]
fn synthetic_windows_stand_in_order() {
    let wins = vec![
        Win {
            id: "a".into(),
            title: "A".into(),
            class: "k".into(),
            desktop: 1,
        },
        Win {
            id: "b".into(),
            title: "B".into(),
            class: "l".into(),
            desktop: 2,
        },
    ];
    let w = windows_of(&wins);
    assert_eq!(w[1].id, "b");
    assert_eq!(w[1].resource_name, "l");
    assert_eq!(w[1].stacking, 1);
    assert_eq!(w[1].desktop, 2);
    assert!(w[0].normal && !w[0].active);
}

fn launched(confidence: f64, dictation: f64) -> Detailed {
    Detailed {
        verdict: Verdict::Act(Resolved {
            intent: Intent::LaunchApp {
                query: "Firefox".into(),
            },
            window_id: None,
            entry_id: Some("firefox.desktop".into()),
            confidence: d(confidence),
            signals: Signals::Judged {
                confidence: d(confidence),
                destructive: Some(d(0.0)),
                dictation: Some(d(dictation)),
            },
        }),
        dictation: Some(d(dictation)),
        destructive: None,
        intent: Some(("show_app".into(), d(confidence))),
    }
}

#[test]
fn outcomes_are_judged_and_printed() {
    let policy = Policy::default();
    let case = Case {
        target: Some("firefox".into()),
        ..case_of("open firefox", "show_app")
    };
    let o = assess(&case, launched(0.9, 0.1), &policy);
    assert!(o.right());
    assert_eq!(o.got, "show_app");
    assert_eq!(
        parla::corpus::line(&o, &policy),
        format!(
            "{} {:<19} {:<19} {} conf {} dict {:.2} destr {:.2} {:<20} {:?}  [{}]",
            "ok   ", "show_app", "show_app", "target ok ", "0.90", 0.1, f64::NAN, "act",
            "open firefox", o.detail
        )
    );
    let prose = case_of("the report shows an increase", "dictation");
    let o = assess(&prose, launched(0.9, 0.8), &policy);
    assert!(o.intent_ok);
    let wrong = case_of("close it", "close_window");
    let o = assess(&wrong, launched(0.9, 0.1), &policy);
    assert!(!o.right());
    assert!(parla::corpus::line(&o, &policy).starts_with("WRONG"));
}

#[test]
fn a_summary_counts_what_was_right() {
    let policy = Policy::default();
    let good = Case {
        target: Some("firefox".into()),
        ..case_of("open firefox", "show_app")
    };
    let bad = case_of("close it", "close_window");
    let outcomes = vec![
        assess(&good, launched(0.9, 0.1), &policy),
        assess(&bad, launched(0.8, 0.1), &policy),
    ];
    let s = summarize(&outcomes, &policy);
    assert_eq!(s.right_confidence, vec![d(0.9)]);
    assert_eq!(s.wrong_confidence, vec![d(0.8)]);
    // One right act, one wrong one.
    assert_eq!(s.current, 1 - 5);
}
