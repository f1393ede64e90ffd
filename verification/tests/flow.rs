use parla::breaks::spoken_breaks;
use parla::config::FlowBackend;
use parla::flow::{
    accept, asr_prompt, cleanup_prompt, edit_prompt, edited, finish, plan, plan_edit, rewriter,
    tidy_lines, typed, unquote, Finish, Plan, Processed, Profile, Rewriter,
};

fn profile() -> Profile {
    Profile {
        name: "Terminals".to_string(),
        guidance: "It goes into a terminal or code editor.".to_string(),
        code: true,
        cleanup: true,
        instructions: String::new(),
    }
}

#[test]
fn accept_rejects_empty_and_runaway_output() {
    assert_eq!(accept("um hello", ""), None);
    assert_eq!(accept("a b", "a  \nb  "), Some("a\nb".into()));
    assert_eq!(accept("um hello", "  "), None);
    assert_eq!(accept("um hello", "Hello."), Some("Hello.".into()));
    let long = "x".repeat(200);
    assert_eq!(accept("um hello", &long), None);
    let limit = "x".repeat(8 * 2 + 40);
    assert_eq!(accept("um hello", &limit), Some(limit.clone()));
    assert_eq!(accept("um hello", &(limit + "x")), None);
}

#[test]
fn model_quotes_are_stripped_unless_spoken() {
    assert_eq!(
        accept("hi there", "\"Hi there.\""),
        Some("Hi there.".into())
    );
    assert_eq!(accept("hi there", "“Hi there.”"), Some("Hi there.".into()));
    assert_eq!(
        accept("\"quoted\" she said", "\"Quoted,\" she said."),
        Some("\"Quoted,\" she said.".into())
    );
    assert_eq!(unquote("« salut »", "salut"), "salut");
    assert_eq!(unquote("\"", "x"), "\"");
}

#[test]
fn spoken_breaks_become_newlines() {
    assert_eq!(spoken_breaks("Hello. New line. Bye"), "Hello\nBye");
    assert_eq!(spoken_breaks("one new paragraph two"), "one\n\ntwo");
    assert_eq!(spoken_breaks("a newline b"), "a newline b");
    assert_eq!(spoken_breaks("plain text"), "plain text");
}

#[test]
fn breaks_inside_words_stay() {
    assert_eq!(spoken_breaks("renew lines"), "renew lines");
    assert_eq!(spoken_breaks("a new line"), "a\n");
    assert_eq!(
        spoken_breaks("one new line two new paragraph three"),
        "one\ntwo\n\nthree"
    );
    assert_eq!(spoken_breaks("è new line è"), "è\nè");
}

#[test]
fn letters_that_grow_when_lowered_do_not_hide_a_break() {
    assert_eq!(spoken_breaks("İ new line"), "İ\n");
    assert_eq!(spoken_breaks("İİ New Paragraph, İ"), "İİ\n\nİ");
    assert_eq!(spoken_breaks("ẞtraße new line K"), "ẞtraße\nK");
}

#[test]
fn guillemets_stay_where_they_were_spoken() {
    assert_eq!(unquote("«Ciao»", "«ciao»"), "«Ciao»");
    assert_eq!(unquote("«Ciao»", "ciao"), "Ciao");
    assert_eq!(accept("«ciao»", "«Ciao»"), Some("«Ciao»".into()));
}

#[test]
fn cleanup_prompt_carries_tone_and_words() {
    let p = Profile {
        instructions: "Prefer snake_case.".to_string(),
        ..profile()
    };
    let s = cleanup_prompt(&p, &vec!["KWin".into(), "parla".into()]);
    assert!(s.contains("terminal or code editor"));
    assert!(s.ends_with("KWin, parla."));
    assert!(s.contains("Prefer snake_case."));
    let s = cleanup_prompt(&profile(), &Vec::new());
    assert!(!s.contains("Spell these"));
    assert!(s.ends_with("terminal or code editor."));
}

#[test]
fn an_edit_is_told_about_code_and_words() {
    let s = edit_prompt(&profile(), &vec!["KWin".into()]);
    assert!(s.contains("keep it literal"));
    assert!(s.ends_with("exactly so: KWin."));
    let plain = Profile {
        code: false,
        ..profile()
    };
    assert!(!edit_prompt(&plain, &Vec::new()).contains("literal"));
    let (_, user) = plan_edit("hi", "louder", &plain, &Vec::new(), true).unwrap();
    assert_eq!(user, "Text:\nhi\n\nInstruction: louder");
    assert!(plan_edit("hi", "louder", &plain, &Vec::new(), false).is_none());
    assert_eq!(edited("\"HI\"  ", "hi").as_deref(), Some("HI"));
    assert_eq!(edited("  ", "hi"), None);
}

#[test]
fn a_snippet_is_typed_as_it_stands() {
    let p = plan(
        Some("sig new line".to_string()),
        "my signature",
        &profile(),
        &Vec::new(),
        true,
    );
    assert_eq!(
        p,
        Plan::Ready(Processed {
            text: "sig new line".to_string(),
            outcome: "snippet",
            profile: String::new(),
        })
    );
}

#[test]
fn without_cleanup_the_transcript_is_typed() {
    let off = Profile {
        cleanup: false,
        ..profile()
    };
    for (p, model) in [(off, true), (profile(), false)] {
        assert_eq!(
            plan(None, "one new line two", &p, &Vec::new(), model),
            Plan::Ready(Processed {
                text: "one\ntwo".to_string(),
                outcome: "raw",
                profile: "Terminals".to_string(),
            })
        );
    }
    assert!(matches!(
        plan(None, "one", &profile(), &Vec::new(), true),
        Plan::Generate { user, .. } if user == "one"
    ));
}

#[test]
fn a_failed_cleanup_costs_no_words() {
    let raw = Finish::Raw(Processed {
        text: "um hello".to_string(),
        outcome: "raw",
        profile: "Terminals".to_string(),
    });
    assert_eq!(finish("um hello", &profile(), None), raw);
    assert_eq!(finish("um hello", &profile(), Some("")), raw);
    assert_eq!(
        finish("um hello", &profile(), Some("Hello.")),
        Finish::Cleaned("Hello.".to_string())
    );
    assert_eq!(typed("Hello.".to_string(), &profile()).outcome, "typed");
}

#[test]
fn lines_are_tidied() {
    assert_eq!(tidy_lines("a \r\nb\t\n\nc  "), "a\nb\n\nc");
    assert_eq!(tidy_lines("a\n"), "a");
    assert_eq!(tidy_lines(""), "");
}

#[test]
fn the_recogniser_is_primed_with_prompt_and_words() {
    assert_eq!(asr_prompt(None, None), None);
    assert_eq!(asr_prompt(Some("a"), None).as_deref(), Some("a"));
    assert_eq!(asr_prompt(None, Some("b")).as_deref(), Some("b"));
    assert_eq!(asr_prompt(Some("a"), Some("b")).as_deref(), Some("a b"));
}

#[test]
fn the_rewriter_follows_the_config() {
    assert_eq!(rewriter(false, FlowBackend::Local, false), Some(Rewriter::Off));
    assert_eq!(rewriter(true, FlowBackend::Local, false), None);
    assert_eq!(rewriter(true, FlowBackend::Local, true), Some(Rewriter::Local));
    assert_eq!(rewriter(true, FlowBackend::OpenAi, false), Some(Rewriter::OpenAi));
    assert_eq!(Rewriter::Off.describe("m"), "off");
    assert_eq!(Rewriter::Local.describe("m"), "local m");
    assert_eq!(Rewriter::OpenAi.describe("m"), "openai m");
}
