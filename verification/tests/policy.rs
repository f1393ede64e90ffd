use parla::double::Double;
use parla::intent::{intent_name, intent_text, Intent};
use parla::policy::{risk_rule, Decision, Policy, Risk, Signals};

fn d(x: f64) -> Double {
    Double { bits: x.to_bits() }
}

fn judged(confidence: f64, destructive: Option<f64>, dictation: Option<f64>) -> Signals {
    Signals::Judged {
        confidence: d(confidence),
        destructive: destructive.map(d),
        dictation: dictation.map(d),
    }
}

fn launch() -> Intent {
    Intent::LaunchApp {
        query: "Firefox".into(),
    }
}

#[test]
fn risk_rule_agrees_with_the_always_confirm_list() {
    // Every variant, so a new intent cannot be added to one list and
    // not the other.
    let samples = [
        Intent::LaunchApp { query: String::new() },
        Intent::OpenTerminal,
        Intent::FocusWindow { query: String::new() },
        Intent::CloseWindow { query: None },
        Intent::MinimizeWindow { query: None },
        Intent::MaximizeWindow { query: None },
        Intent::VirtualDesktop { n: 1 },
        Intent::VirtualDesktopRel { delta: 1 },
        Intent::RunShortcut {
            component: String::new(),
            action: String::new(),
        },
        Intent::KRunner { query: String::new() },
        Intent::StartClaude { model: None },
        Intent::ClaudeModel { model: String::new() },
        Intent::ClaudeTell { text: String::new() },
        Intent::ClaudeRead,
        Intent::Notify { text: String::new() },
        Intent::Key { chord: String::new() },
        Intent::ScratchThat,
        Intent::EditText { instruction: String::new() },
        Intent::Confirm,
        Intent::Deny,
    ];
    for i in &samples {
        let name = intent_name(i);
        assert_eq!(
            risk_rule(name) == Risk::AlwaysConfirmed,
            i.needs_confirmation(),
            "{name}"
        );
    }
    assert_eq!(risk_rule("show_app"), Risk::Never);
    assert_eq!(risk_rule("krunner"), Risk::Judged);
    assert_eq!(risk_rule("edit_text"), Risk::Judged);
    assert_eq!(risk_rule("something_new"), Risk::Judged);
}

#[test]
fn grammar_key_and_close_confirm_like_the_judged_path() {
    let p = Policy::default();
    for intent in [
        Intent::Key {
            chord: "ctrl s".into(),
        },
        Intent::CloseWindow { query: None },
        Intent::ClaudeTell {
            text: "rm -rf".into(),
        },
        Intent::RunShortcut {
            component: "kwin".into(),
            action: "Kill Window".into(),
        },
    ] {
        assert!(matches!(
            p.decide(&intent, &Signals::Grammar),
            Decision::Confirm { .. }
        ));
        assert!(matches!(
            p.decide(&intent, &judged(1.0, Some(0.0), Some(0.0))),
            Decision::Confirm { .. }
        ));
    }
    assert_eq!(p.decide(&launch(), &Signals::Grammar), Decision::Act);
}

#[test]
fn missing_safety_answers_confirm_rather_than_act() {
    let p = Policy::default();
    assert!(matches!(
        p.decide(&launch(), &judged(0.99, None, Some(0.01))),
        Decision::Confirm { .. }
    ));
    assert!(matches!(
        p.decide(&launch(), &judged(0.99, Some(0.01), None)),
        Decision::Confirm { .. }
    ));
    assert_eq!(
        p.decide(&launch(), &judged(0.99, Some(0.01), Some(0.01))),
        Decision::Act
    );
}

#[test]
fn low_confidence_refuses_and_middling_confidence_asks() {
    let p = Policy::default();
    assert!(matches!(
        p.decide(&launch(), &judged(0.2, Some(0.0), Some(0.0))),
        Decision::Refuse { .. }
    ));
    assert!(matches!(
        p.decide(&launch(), &judged(0.6, Some(0.0), Some(0.0))),
        Decision::Confirm { .. }
    ));
}

#[test]
fn dictation_and_risk_are_decided_here_too() {
    let p = Policy::default();
    assert!(matches!(
        p.decide(&launch(), &judged(0.99, Some(0.0), Some(0.9))),
        Decision::Refuse { .. }
    ));
    assert!(matches!(
        p.decide(
            &Intent::MinimizeWindow { query: None },
            &judged(0.99, Some(0.9), Some(0.0))
        ),
        Decision::Confirm { .. }
    ));
}

#[test]
fn reasons_name_the_numbers() {
    let p = Policy::default();
    assert_eq!(
        p.decide(&launch(), &judged(0.2, Some(0.0), Some(0.0))),
        Decision::Refuse {
            reason: "confidence 0.20 is below the 0.35 floor".into()
        }
    );
    assert_eq!(
        p.decide(&launch(), &judged(0.6, Some(0.0), Some(0.0))),
        Decision::Confirm {
            reason: "confidence 0.60 is below the 0.65 needed to act unasked".into()
        }
    );
    assert_eq!(
        p.decide(&launch(), &judged(0.9, Some(0.85), Some(0.0))),
        Decision::Confirm {
            reason: "judged destructive (0.85)".into()
        }
    );
    assert_eq!(
        p.decide(&Intent::Key { chord: "ctrl+s".into() }, &Signals::Grammar),
        Decision::Confirm {
            reason: "key always confirms".into()
        }
    );
}

#[test]
fn intents_are_shown_with_their_arguments() {
    let samples = [
        launch(),
        Intent::OpenTerminal,
        Intent::FocusWindow { query: "a \"b\"".into() },
        Intent::CloseWindow { query: None },
        Intent::MinimizeWindow { query: Some("x\ny".into()) },
        Intent::MaximizeWindow { query: None },
        Intent::VirtualDesktop { n: 12 },
        Intent::VirtualDesktopRel { delta: -1 },
        Intent::VirtualDesktopRel { delta: 1 },
        Intent::RunShortcut {
            component: "kwin".into(),
            action: "Kill Window".into(),
        },
        Intent::KRunner { query: "è".into() },
        Intent::StartClaude { model: Some("opus".into()) },
        Intent::ClaudeModel { model: "haiku".into() },
        Intent::ClaudeTell { text: "hi".into() },
        Intent::ClaudeRead,
        Intent::Notify { text: "t".into() },
        Intent::Key { chord: "ctrl+s".into() },
        Intent::ScratchThat,
        Intent::EditText { instruction: "shorter".into() },
        Intent::Confirm,
        Intent::Deny,
    ];
    for i in &samples {
        assert_eq!(intent_text(i), format!("{i:?}"));
    }
}

#[test]
fn thresholds_are_inclusive() {
    let p = Policy::default();
    assert!(p.is_prose(Some(d(0.4))));
    assert!(!p.is_prose(Some(d(0.39))));
    assert!(!p.is_prose(Some(d(f64::NAN))));
    assert!(!p.is_prose(None));
    assert_eq!(
        p.decide(&launch(), &judged(0.65, Some(0.79), Some(0.39))),
        Decision::Act
    );
}
