use parla::desktop::Window;
use parla::double::Double;
use parla::intent::Intent;
use parla::judge::{
    AppCandidate, Candidates, Context, DICTATION_COMMAND, DICTATION_TEXT, FOCUSED, NO_TARGET,
    PAYLOAD_SPANS, WHOLE, WINDOW_CANDIDATES,
};
use parla::local::prose;
use parla::oracle::{Answer, Criteria, Prose, Question, Response, Usage, MAX_CHOICE_OPTIONS};
use parla::policy::{Decision, Policy, Signals};
use parla::verdict::{compose, detail, gated, key_words, Resolved, Verdict};

fn d(x: f64) -> Double {
    Double { bits: x.to_bits() }
}

fn resp(answers: Vec<(&str, Answer)>) -> Response {
    Response {
        answers: answers
            .into_iter()
            .map(|(id, a)| (id.to_string(), a))
            .collect(),
        usage: Some(Usage {
            input_tokens: 0,
            output_tokens: 0,
        }),
    }
}

fn choice(c: &str, conf: f64) -> Answer {
    Answer::Choice {
        choice: c.to_string(),
        confidence: d(conf),
        probabilities: vec![(c.to_string(), d(conf))],
    }
}

fn noul(p: f64) -> Answer {
    Answer::Noul { noul: d(p) }
}

/// The dictation question answered with `p` on its "text" reading.
fn dictation(p: f64) -> Answer {
    let (c, conf) = if p >= 0.5 {
        (DICTATION_TEXT, p)
    } else {
        (DICTATION_COMMAND, 1.0 - p)
    };
    Answer::Choice {
        choice: c.to_string(),
        confidence: d(conf),
        probabilities: vec![
            (DICTATION_COMMAND.to_string(), d(1.0 - p)),
            (DICTATION_TEXT.to_string(), d(p)),
        ],
    }
}

fn window(id: &str, title: &str, class: &str) -> Window {
    Window {
        id: id.to_string(),
        title: title.to_string(),
        class: class.to_string(),
        resource_name: String::new(),
        desktop: 1,
        active: false,
        minimized: false,
        stacking: 0,
        pid: 0,
        normal: true,
    }
}

const KONSOLE: (&str, &str, &str) = ("{k1}", "build — Konsole", "konsole");

/// An utterance that names the coding assistant: `{Name}` as the default
/// config writes it, `{name}` in lower case.
fn said(s: &str) -> String {
    let name = parla::config::RouterConfig::default().assistant;
    s.replace("{Name}", &name).replace("{name}", &name.to_lowercase())
}

fn cand_with(
    apps: &[&str],
    windows: &[(&str, &str, &str)],
    desktops: u32,
    utterance: &str,
) -> Candidates {
    let words: Vec<&str> = utterance.split_whitespace().collect();
    Candidates::assemble(
        utterance,
        apps.iter()
            .map(|a| AppCandidate {
                id: format!("{}.desktop", a.to_lowercase()),
                name: (*a).to_string(),
                generic_name: None,
            })
            .collect(),
        windows.iter().map(|(i, t, c)| window(i, t, c)).collect(),
        (0..words.len()).map(|i| words[i..].join(" ")).collect(),
        1,
        desktops,
        true,
        false,
        &said("{Name}"),
    )
}

fn cand() -> Candidates {
    cand_with(&["Firefox", "Kate"], &[KONSOLE], 2, "")
}

fn policy() -> Policy {
    Policy::default()
}

fn act(v: Verdict) -> (Resolved, Decision) {
    match v {
        Verdict::Act(r) => {
            let decision = policy().decide(&r.intent, &r.signals);
            (r, decision)
        }
        other => panic!("expected Act, got {other:?}"),
    }
}

fn refused(v: Verdict) -> String {
    match act(v) {
        (_, Decision::Refuse { reason }) => reason,
        (r, other) => panic!("expected Refuse, got {other:?} for {r:?}"),
    }
}

fn unclear(v: Verdict) -> String {
    match v {
        Verdict::Unclear(s) => s,
        other => panic!("expected Unclear, got {other:?}"),
    }
}

fn ids(questions: &[(String, Question)]) -> Vec<&str> {
    questions.iter().map(|(id, _)| id.as_str()).collect()
}

fn asks(c: &Candidates, intent: &str, id: &str) -> bool {
    ids(&c.second_round(intent)).contains(&id)
}

#[test]
fn confident_launch_acts_without_confirmation() {
    let r = resp(vec![
        ("intent", choice("show_app", 0.94)),
        ("target", choice("a:0", 0.99)),
        ("is_dictation", dictation(0.02)),
        ("is_destructive", noul(0.03)),
    ]);
    let (got, decision) = act(compose(&r, &cand(), None));
    assert_eq!(
        got.intent,
        Intent::LaunchApp {
            query: "Firefox".to_string()
        }
    );
    assert_eq!(decision, Decision::Act);
    assert_eq!(got.window_id, None);
    assert_eq!(got.entry_id.as_deref(), Some("firefox.desktop"));
}

#[test]
fn confidence_is_the_weakest_link_not_the_product() {
    let r = resp(vec![
        ("intent", choice("show_app", 0.95)),
        ("target", choice("a:1", 0.50)),
        ("is_dictation", dictation(0.01)),
        ("is_destructive", noul(0.01)),
    ]);
    let (got, decision) = act(compose(&r, &cand(), None));
    assert_eq!(got.confidence, d(0.50));
    assert!(matches!(decision, Decision::Confirm { .. }));
}

#[test]
fn no_match_confidence_is_folded_in() {
    let r = resp(vec![
        ("intent", choice("start_claude", 0.99)),
        ("claude_model", choice(NO_TARGET, 0.50)),
        ("is_dictation", dictation(0.01)),
        ("is_destructive", noul(0.02)),
    ]);
    let (got, decision) = act(compose(&r, &cand(), None));
    assert_eq!(got.intent, Intent::StartClaude { model: None });
    assert_eq!(got.confidence, d(0.50));
    assert!(matches!(decision, Decision::Confirm { .. }));

    let r = resp(vec![
        ("intent", choice("start_claude", 0.99)),
        ("claude_model", choice(NO_TARGET, 0.20)),
        ("is_dictation", dictation(0.01)),
        ("is_destructive", noul(0.02)),
    ]);
    assert!(refused(compose(&r, &cand(), None)).contains("0.20"));
}

#[test]
fn dictation_wins_over_any_intent() {
    let r = resp(vec![
        ("intent", choice("show_app", 0.99)),
        ("target", choice("a:0", 0.99)),
        ("is_dictation", dictation(0.88)),
        ("is_destructive", noul(0.01)),
    ]);
    let (got, decision) = act(compose(&r, &cand(), None));
    assert!(policy().is_prose(Some(d(0.88))));
    assert!(matches!(decision, Decision::Refuse { .. }), "{got:?}");
    let detailed = detail(&r, &cand(), None);
    assert!(matches!(gated(&policy(), detailed), Verdict::Dictation));
}

#[test]
fn judged_risk_forces_confirmation_even_when_certain() {
    let r = resp(vec![
        ("intent", choice("close_window", 1.0)),
        ("target", choice("w:0", 1.0)),
        ("is_dictation", dictation(0.01)),
        ("is_destructive", noul(0.91)),
    ]);
    let (got, decision) = act(compose(&r, &cand(), None));
    assert_eq!(
        got.intent,
        Intent::CloseWindow {
            query: Some("build — Konsole".to_string())
        }
    );
    assert_eq!(got.window_id.as_deref(), Some("{k1}"));
    assert!(matches!(decision, Decision::Confirm { .. }));
}

#[test]
fn missing_safety_answers_force_confirmation() {
    let c = cand_with(&[], &[], 1, "look for the invoice");
    let r = resp(vec![
        ("intent", choice("krunner", 0.95)),
        ("is_dictation", dictation(0.01)),
    ]);
    let (_, decision) = act(compose(&r, &c, None));
    assert!(matches!(decision, Decision::Confirm { .. }));

    let r = resp(vec![
        ("intent", choice("minimize_window", 0.95)),
        ("target", choice(FOCUSED, 0.95)),
        ("is_dictation", noul(0.1)),
        ("is_destructive", noul(0.01)),
    ]);
    let (_, decision) = act(compose(&r, &cand(), None));
    assert!(matches!(decision, Decision::Confirm { .. }));
}

#[test]
fn explicit_focused_window_judged_safe_skips_confirmation() {
    let r = resp(vec![
        ("intent", choice("minimize_window", 0.92)),
        ("target", choice(FOCUSED, 0.95)),
        ("is_dictation", dictation(0.01)),
        ("is_destructive", noul(0.04)),
    ]);
    let (got, decision) = act(compose(&r, &cand(), None));
    assert_eq!(got.intent, Intent::MinimizeWindow { query: None });
    assert_eq!(decision, Decision::Act);
}

#[test]
fn minimize_with_no_target_is_unclear() {
    let none = resp(vec![
        ("intent", choice("minimize_window", 0.92)),
        ("target", choice(NO_TARGET, 0.95)),
        ("is_dictation", dictation(0.01)),
        ("is_destructive", noul(0.04)),
    ]);
    assert!(unclear(compose(&none, &cand(), None)).contains("without a target"));

    let missing = resp(vec![
        ("intent", choice("close_window", 0.92)),
        ("is_dictation", dictation(0.01)),
        ("is_destructive", noul(0.04)),
    ]);
    assert!(unclear(compose(&missing, &cand(), None)).contains("without a target"));
}

#[test]
fn show_app_on_the_focused_window_is_unclear() {
    let r = resp(vec![
        ("intent", choice("show_app", 0.9)),
        ("target", choice(FOCUSED, 0.9)),
        ("is_dictation", dictation(0.01)),
        ("is_destructive", noul(0.01)),
    ]);
    unclear(compose(&r, &cand(), None));
}

#[test]
fn no_match_and_low_confidence_both_refuse() {
    let none = resp(vec![
        ("intent", choice(NO_TARGET, 0.9)),
        ("is_dictation", dictation(0.1)),
    ]);
    unclear(compose(&none, &cand(), None));

    let shaky = resp(vec![
        ("intent", choice("close_window", 0.20)),
        ("target", choice(FOCUSED, 0.9)),
        ("is_dictation", dictation(0.1)),
        ("is_destructive", noul(0.1)),
    ]);
    refused(compose(&shaky, &cand(), None));
}

#[test]
fn missing_required_argument_refuses_rather_than_guessing() {
    let r = resp(vec![
        ("intent", choice("virtual_desktop", 0.97)),
        ("desktop_number", choice(NO_TARGET, 0.99)),
        ("is_dictation", dictation(0.01)),
    ]);
    unclear(compose(&r, &cand(), None));
}

#[test]
fn out_of_range_desktop_is_unclear() {
    let r = resp(vec![
        ("intent", choice("virtual_desktop", 0.97)),
        ("desktop_number", choice("3", 0.99)),
        ("is_dictation", dictation(0.01)),
        ("is_destructive", noul(0.01)),
    ]);
    assert!(unclear(compose(&r, &cand(), None)).contains("never offered"));

    let r = resp(vec![
        ("intent", choice("virtual_desktop", 0.97)),
        ("desktop_number", choice("2", 0.99)),
        ("is_dictation", dictation(0.01)),
        ("is_destructive", noul(0.01)),
    ]);
    let (got, _) = act(compose(&r, &cand(), None));
    assert_eq!(got.intent, Intent::VirtualDesktop { n: 2 });
}

#[test]
fn unknown_direction_is_unclear_not_next() {
    let r = resp(vec![
        ("intent", choice("virtual_desktop_rel", 0.97)),
        ("desktop_direction", choice("sideways", 0.99)),
        ("is_dictation", dictation(0.01)),
        ("is_destructive", noul(0.01)),
    ]);
    unclear(compose(&r, &cand(), None));

    let r = resp(vec![
        ("intent", choice("virtual_desktop_rel", 0.97)),
        ("desktop_direction", choice("previous", 0.99)),
        ("is_dictation", dictation(0.01)),
        ("is_destructive", noul(0.01)),
    ]);
    let (got, _) = act(compose(&r, &cand(), None));
    assert_eq!(got.intent, Intent::VirtualDesktopRel { delta: -1 });
}

#[test]
fn unoffered_choice_is_rejected() {
    let r = resp(vec![
        ("intent", choice("show_app", 0.94)),
        ("target", choice("Firefox", 0.99)),
        ("is_dictation", dictation(0.02)),
        ("is_destructive", noul(0.03)),
    ]);
    assert!(unclear(compose(&r, &cand(), None)).contains("never offered"));

    let r = resp(vec![
        ("intent", choice("reboot", 0.94)),
        ("is_dictation", dictation(0.02)),
        ("is_destructive", noul(0.03)),
    ]);
    assert!(unclear(compose(&r, &cand(), None)).contains("never offered"));
}

#[test]
fn an_argument_that_was_never_offered_is_refused_as_such() {
    let c = cand_with(&["Firefox"], &[KONSOLE], 2, "one two three");
    for (intent, id, key) in [
        ("show_app", "target", "a:9"),
        ("close_window", "target", "w:9"),
        ("minimize_window", "target", "Firefox"),
        ("maximize_window", "target", "w:x"),
        ("virtual_desktop", "desktop_number", "9"),
        ("virtual_desktop_rel", "desktop_direction", "sideways"),
        ("start_claude", "claude_model", "nosuch"),
        ("claude_model", "claude_model", "nosuch"),
        ("krunner", "payload", "p:99"),
        ("claude_tell", "payload", "p:99"),
        ("notify", "payload", "four"),
        ("key", "payload", "p:99"),
    ] {
        let r = resp(vec![
            ("intent", choice(intent, 0.97)),
            (id, choice(key, 0.99)),
            ("is_dictation", dictation(0.01)),
        ]);
        let said = unclear(compose(&r, &c, None));
        assert!(said.contains("never offered"), "{intent}: {said}");
        assert!(said.contains(id) && said.contains(key), "{intent}: {said}");
    }
}

#[test]
fn optional_model_absent_leaves_the_default() {
    let r = resp(vec![
        ("intent", choice("start_claude", 0.96)),
        ("claude_model", choice(NO_TARGET, 0.98)),
        ("is_dictation", dictation(0.01)),
        ("is_destructive", noul(0.02)),
    ]);
    let (got, decision) = act(compose(&r, &cand(), None));
    assert_eq!(got.intent, Intent::StartClaude { model: None });
    assert_eq!(decision, Decision::Act);
}

#[test]
fn payload_cue_is_stripped_by_rule_and_claude_tell_confirms() {
    let c = cand_with(&[], &[], 1, &said("tell {name} to rerun the failing test"));
    assert!(!asks(&c, "claude_tell", "payload"));
    let r = resp(vec![
        ("intent", choice("claude_tell", 0.93)),
        ("payload", choice("p:1", 0.3)),
        ("is_dictation", dictation(0.2)),
    ]);
    let (got, decision) = act(compose(&r, &c, None));
    assert_eq!(
        got.intent,
        Intent::ClaudeTell {
            text: "rerun the failing test".to_string()
        }
    );
    assert_eq!(got.confidence, d(0.93));
    assert!(matches!(decision, Decision::Confirm { .. }));
}

#[test]
fn payload_falls_back_to_the_model_span_when_no_cue_applies() {
    let c = cand_with(&[], &[], 1, &said("let {name} know the tests are green"));
    let second = c.second_round("claude_tell");
    let payload = second
        .iter()
        .find(|(id, _)| id == "payload")
        .map(|(_, q)| q)
        .unwrap();
    let offered = payload.options().unwrap();
    assert!(
        !offered.contains_key("p:0"),
        "the first word is never a message"
    );
    assert_eq!(
        offered.keys().last().map(String::as_str),
        Some(WHOLE)
    );
    let r = resp(vec![
        ("intent", choice("claude_tell", 0.93)),
        ("payload", choice("p:3", 0.8)),
        ("is_dictation", dictation(0.02)),
    ]);
    let (got, _) = act(compose(&r, &c, None));
    assert_eq!(
        got.intent,
        Intent::ClaudeTell {
            text: "the tests are green".to_string()
        }
    );
    assert_eq!(got.confidence, d(0.8));

    let whole = resp(vec![
        ("intent", choice("notify", 0.93)),
        ("payload", choice(WHOLE, 0.8)),
        ("is_dictation", dictation(0.02)),
    ]);
    let (got, _) = act(compose(&whole, &c, None));
    assert_eq!(
        got.intent,
        Intent::Notify {
            text: said("let {name} know the tests are green")
        }
    );
}

#[test]
fn key_chord_is_mapped_by_rule_or_the_intent_is_unclear() {
    let c = cand_with(&[], &[], 1, "hit control s");
    let r = resp(vec![
        ("intent", choice("key", 0.97)),
        ("is_dictation", dictation(0.01)),
    ]);
    assert_eq!(key_words(&r, &c).as_deref(), Some("control s"));
    let (got, decision) = act(compose(&r, &c, Some("ctrl+s".to_string())));
    assert_eq!(
        got.intent,
        Intent::Key {
            chord: "ctrl+s".to_string()
        }
    );
    assert!(matches!(decision, Decision::Confirm { .. }));

    let c = cand_with(&[], &[], 1, "press the any key");
    let r = resp(vec![
        ("intent", choice("key", 0.97)),
        ("is_dictation", dictation(0.01)),
    ]);
    assert!(unclear(compose(&r, &c, None)).contains("not a key chord"));
}

#[test]
fn risk_is_the_intents_own_where_the_intent_decides_it() {
    let c = cand();
    assert!(!asks(&c, "start_claude", "is_destructive"));
    let r = resp(vec![
        ("intent", choice("start_claude", 0.99)),
        ("claude_model", choice(NO_TARGET, 0.99)),
        ("is_dictation", dictation(0.01)),
        ("is_destructive", noul(1.0)),
    ]);
    let (got, decision) = act(compose(&r, &c, None));
    assert_eq!(
        got.signals,
        Signals::Judged {
            confidence: d(0.99),
            destructive: Some(d(0.0)),
            dictation: Some(d(0.01)),
        }
    );
    assert_eq!(decision, Decision::Act);

    let c = cand_with(&[], &[], 1, "look for the invoice");
    assert!(asks(&c, "krunner", "is_destructive"));
    let r = resp(vec![
        ("intent", choice("krunner", 0.99)),
        ("is_dictation", dictation(0.01)),
        ("is_destructive", noul(0.9)),
    ]);
    let (got, decision) = act(compose(&r, &c, None));
    assert!(matches!(got.signals, Signals::Judged { destructive: Some(x), .. } if x == d(0.9)));
    assert!(matches!(decision, Decision::Confirm { .. }));
}

#[test]
fn rounds_ask_only_what_the_intent_needs() {
    let c = cand_with(&[], &[], 2, "remind me to buy milk");
    let first = c.first_round();
    assert_eq!(ids(&first), ["intent", "is_dictation"]);
    assert!(c.second_round("notify").is_empty(), "cue found, risk never");
    assert!(c.second_round("open_terminal").is_empty());
    assert!(c.second_round(NO_TARGET).is_empty());
    assert_eq!(ids(&c.second_round("show_app")), ["target"]);
    assert_eq!(ids(&c.second_round("virtual_desktop")), ["desktop_number"]);
    assert_eq!(
        ids(&c.second_round("virtual_desktop_rel")),
        ["desktop_direction"]
    );
    assert_eq!(ids(&c.second_round("claude_model")), ["claude_model"]);
    assert_eq!(ids(&c.second_round("edit_text")), ["is_destructive"]);
    assert!(
        asks(&c, "key", "payload"),
        "no key cue in this utterance"
    );
    let answered = resp(vec![("intent", choice("show_app", 0.9))]);
    assert_eq!(ids(&c.ask_more(&answered)), ["target"]);
    assert!(c.ask_more(&resp(vec![])).is_empty());
}

#[test]
fn krunner_searches_for_the_payload() {
    let c = cand_with(&["Firefox"], &[], 1, "search for quarterly report");
    let r = resp(vec![
        ("intent", choice("krunner", 0.93)),
        ("target", choice("a:0", 0.9)),
        ("payload", choice("p:2", 0.9)),
        ("is_dictation", dictation(0.02)),
        ("is_destructive", noul(0.01)),
    ]);
    let (got, _) = act(compose(&r, &c, None));
    assert_eq!(
        got.intent,
        Intent::KRunner {
            query: "quarterly report".to_string()
        }
    );
}

#[test]
fn sentinel_titled_window_is_not_no_match() {
    let c = cand_with(
        &[],
        &[("{w9}", NO_TARGET, "kate"), ("{w10}", FOCUSED, "kate")],
        1,
        "",
    );
    let r = resp(vec![
        ("intent", choice("show_app", 0.9)),
        ("target", choice("w:0", 0.95)),
        ("is_dictation", dictation(0.02)),
        ("is_destructive", noul(0.02)),
    ]);
    let (got, _) = act(compose(&r, &c, None));
    assert_eq!(
        got.intent,
        Intent::FocusWindow {
            query: NO_TARGET.to_string()
        }
    );
    assert_eq!(got.window_id.as_deref(), Some("{w9}"));

    let r = resp(vec![
        ("intent", choice("minimize_window", 0.9)),
        ("target", choice("w:1", 0.95)),
        ("is_dictation", dictation(0.02)),
        ("is_destructive", noul(0.02)),
    ]);
    let (got, _) = act(compose(&r, &c, None));
    assert_eq!(
        got.intent,
        Intent::MinimizeWindow {
            query: Some(FOCUSED.to_string())
        }
    );
    assert_eq!(got.window_id.as_deref(), Some("{w10}"));
}

#[test]
fn show_app_becomes_launch_when_nothing_is_open() {
    let c = cand_with(&["Dolphin"], &[KONSOLE], 1, "");
    let r = resp(vec![
        ("intent", choice("show_app", 0.9)),
        ("target", choice("a:0", 0.95)),
        ("is_dictation", dictation(0.02)),
        ("is_destructive", noul(0.02)),
    ]);
    let (got, _) = act(compose(&r, &c, None));
    assert_eq!(
        got.intent,
        Intent::LaunchApp {
            query: "Dolphin".to_string()
        }
    );
}

#[test]
fn show_app_becomes_focus_when_the_window_exists() {
    let c = cand_with(&["Dolphin"], &[KONSOLE], 1, "");
    let r = resp(vec![
        ("intent", choice("show_app", 0.9)),
        ("target", choice("w:0", 0.95)),
        ("is_dictation", dictation(0.02)),
        ("is_destructive", noul(0.02)),
    ]);
    let (got, _) = act(compose(&r, &c, None));
    assert_eq!(
        got.intent,
        Intent::FocusWindow {
            query: "build — Konsole".to_string()
        }
    );
    assert_eq!(got.window_id.as_deref(), Some("{k1}"));
    assert_eq!(got.entry_id, None);
}

fn question_text(q: &Question) -> String {
    match q {
        Question::Noul {
            instructions,
            criteria,
        } => {
            let ends = criteria
                .as_ref()
                .map(|c| format!("{} {}", c.yes, c.no))
                .unwrap_or_default();
            format!("{} {ends}", prose(instructions))
        }
        Question::Choice {
            instructions,
            criteria,
        } => {
            let mut out = prose(instructions);
            for (key, meaning) in &criteria.entries {
                out.push_str(&format!("\n{key}: {}", prose(meaning)));
            }
            out
        }
        Question::Score {
            instructions,
            criteria,
        } => {
            let levels: Vec<String> = criteria.iter().map(prose).collect();
            format!("{} {}", prose(instructions), levels.join("\n"))
        }
    }
}

#[test]
fn window_titles_stay_home_unless_opted_in() {
    let ctx = Context {
        windows: vec![window("{w1}", "secret-plan.md — Kate", "kate")],
        shortlist: Vec::new(),
        current_desktop: 1,
        desktop_count: 1,
        claude_running: false,
        last_dictation: false,
        assistant: said("{Name}"),
    };
    let sent = |send_window_titles: bool| {
        let c = Candidates::build("bring up kate", &ctx, send_window_titles);
        let mut out = prose(&c.state("bring up kate", &ctx));
        for (_, q) in &c.questions {
            out.push_str(&question_text(q));
        }
        out
    };
    let private = sent(false);
    assert!(!private.contains("secret-plan"), "{private}");
    assert!(private.contains("kate"));
    assert!(sent(true).contains("secret-plan.md"));
}

#[test]
fn windows_dedupe_by_id_and_questions_stay_within_the_option_limit() {
    let mut windows: Vec<Window> = (0..300)
        .map(|i| window(&format!("{{w{i}}}"), "Same title", "kate"))
        .collect();
    windows.push(window("{w0}", "Same title", "kate"));
    let ctx = Context {
        windows,
        shortlist: Vec::new(),
        current_desktop: 1,
        desktop_count: 400,
        claude_running: false,
        last_dictation: false,
        assistant: said("{Name}"),
    };
    let utterance = vec!["word"; 300].join(" ");
    let c = Candidates::build(&utterance, &ctx, false);
    assert_eq!(c.windows.len(), WINDOW_CANDIDATES);
    assert_eq!(c.spans.len(), PAYLOAD_SPANS);
    assert!(
        c.spans[0].split_whitespace().count() > PAYLOAD_SPANS,
        "the first span runs to the end of the utterance"
    );
    for (id, q) in &c.questions {
        if let Some(o) = q.options() {
            assert!(o.len() <= MAX_CHOICE_OPTIONS, "{id} offers {}", o.len());
        }
    }
    let n = c.question("desktop_number").unwrap().options().unwrap().len();
    assert_eq!(n, MAX_CHOICE_OPTIONS);
}

#[test]
fn the_ids_of_two_windows_with_one_title_do_not_swap() {
    let c = cand_with(
        &[],
        &[("{w1}", "notes", "kate"), ("{w2}", "notes", "kate")],
        1,
        "",
    );
    let r = resp(vec![
        ("intent", choice("close_window", 0.9)),
        ("target", choice("w:1", 0.95)),
        ("is_dictation", dictation(0.02)),
    ]);
    let (got, _) = act(compose(&r, &c, None));
    assert_eq!(got.window_id.as_deref(), Some("{w2}"));
}

#[test]
fn answers_are_described_by_what_was_offered() {
    let c = cand();
    assert_eq!(c.describe(&noul(0.25)), "0.25");
    let described = c.describe(&choice("a:0", 0.9));
    assert!(described.contains("Firefox"), "{described}");
    assert!(described.contains("0.90"), "{described}");
}

#[test]
fn an_edit_is_offered_only_after_a_dictation() {
    let with = parla::judge::intent_criteria(true, &said("{Name}"));
    let without = parla::judge::intent_criteria(false, &said("{Name}"));
    assert!(with.contains_key("edit_text"));
    assert!(!without.contains_key("edit_text"));
    assert_eq!(with.len(), without.len() + 1);
}

#[test]
fn missing_usage_keeps_the_answers() {
    let r = Response {
        answers: vec![("is_dictation".to_string(), noul(0.9))],
        usage: None,
    };
    assert_eq!(r.noul("is_dictation"), Some(d(0.9)));
    assert!(r.usage.is_none());
}

#[test]
fn unknown_answer_type_degrades_one_question_only() {
    let r = Response {
        answers: vec![
            ("intent".to_string(), Answer::Unknown),
            ("is_dictation".to_string(), noul(0.2)),
        ],
        usage: Some(Usage {
            input_tokens: 1,
            output_tokens: 1,
        }),
    };
    assert!(r.choice("intent").is_none());
    assert_eq!(r.noul("is_dictation"), Some(d(0.2)));
    assert!(r.usage.is_some());
}

#[test]
fn wrong_answer_type_for_an_id_reads_as_unanswered() {
    let r = resp(vec![
        ("is_dictation", choice("yes", 0.9)),
        ("intent", noul(0.5)),
    ]);
    assert_eq!(r.noul("is_dictation"), None);
    assert!(r.choice("intent").is_none());
}

#[test]
fn the_second_round_wins_and_costs_add_up() {
    let first = resp(vec![("intent", choice("key", 0.9)), ("payload", noul(0.1))]);
    let second = Response {
        answers: vec![("payload".to_string(), choice("p:1", 0.7))],
        usage: Some(Usage {
            input_tokens: 3,
            output_tokens: 2,
        }),
    };
    let both = first.merge(second);
    assert_eq!(both.choice("payload").map(|(k, _)| k.to_string()).as_deref(), Some("p:1"));
    assert_eq!(both.choice("intent").map(|(k, _)| k.to_string()).as_deref(), Some("key"));
    assert_eq!(
        both.usage,
        Some(Usage {
            input_tokens: 3,
            output_tokens: 2
        })
    );
}

#[test]
fn prose_flattens_objects_and_arrays() {
    let v = Prose::Object(vec![
        (
            "examples".to_string(),
            Prose::List(vec![
                Prose::Text("open firefox".to_string()),
                Prose::Text("close it".to_string()),
            ]),
        ),
        ("task".to_string(), Prose::Text("Decide".to_string())),
    ]);
    assert_eq!(prose(&v), "examples: open firefox, close it\ntask: Decide");
    assert_eq!(prose(&Prose::Text("plain".to_string())), "plain");
    assert_eq!(prose(&Prose::Null), "");
    assert_eq!(prose(&Prose::Bool(true)), "true");
    assert_eq!(prose(&Prose::Number(12)), "12");
}

#[test]
fn noul_renders_yes_no_in_that_order() {
    let q = Question::Noul {
        instructions: Prose::Text("Is it prose?".to_string()),
        criteria: Some(parla::oracle::NoulCriteria {
            yes: "text".to_string(),
            no: "a command".to_string(),
        }),
    };
    let r = parla::local::render("{}", &q);
    assert_eq!(r.options, vec!["yes", "no"]);
    assert!(r.prompt.contains("Answer yes if: text"));
    assert!(r.prompt.contains("Allowed answers: yes, no"));
    assert_eq!(
        r.prompt,
        "Desktop state (JSON):\n{}\n\nQuestion: Is it prose?\nAnswer yes if: text\nAnswer no if: a command\n\nAllowed answers: yes, no\nReply with one word."
    );
}

#[test]
fn choice_options_follow_the_criteria_order() {
    let mut criteria = Criteria::new();
    criteria.add("a:0", "installed application Firefox");
    criteria.add("__none__", "nothing");
    let q = Question::Choice {
        instructions: Prose::Object(vec![(
            "task".to_string(),
            Prose::Text("pick".to_string()),
        )]),
        criteria,
    };
    let r = parla::local::render("{}", &q);
    assert_eq!(r.options, vec!["a:0", "__none__"]);
    assert!(r
        .prompt
        .contains("a:0: installed application Firefox\n"));
    assert!(r.prompt.contains("task: pick"));
}

#[test]
fn levels_are_numbered_from_one() {
    let q = Question::Score {
        instructions: Prose::Text("How sure?".to_string()),
        criteria: vec![
            Prose::Text("not\nat all".to_string()),
            Prose::Text("fully".to_string()),
        ],
    };
    let r = parla::local::render("{}", &q);
    assert_eq!(r.options, vec!["1", "2"]);
    assert!(r.prompt.contains("1: not at all\n2: fully\n"));
}

#[test]
fn the_coding_assistant_is_called_by_its_name() {
    let c = parla::judge::intent_criteria(false, "Robin");
    let all = format!("{c:?}");
    assert!(
        all.contains("Start a new Robin Code coding session, optionally naming its model"),
        "{all}"
    );
    let served = prose(&parla::verdict::payload_instructions("claude_tell", "Robin"));
    assert!(
        served.contains("For 'let robin know the tests pass', the message is 'the tests pass'."),
        "{served}"
    );
    assert!(served.contains("passed to Robin Code as spoken"), "{served}");
    let c = parla::judge::intent_criteria(false, &said("{Name}"));
    let all = format!("{c:?}");
    assert!(
        all.contains(&said("Start a new {Name} Code coding session")),
        "{all}"
    );
}
