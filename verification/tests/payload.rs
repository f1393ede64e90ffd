use parla::config::RouterConfig;
use parla::payload::strip_cue;

/// An utterance that names the coding assistant: `{Name}` as the default
/// config writes it, `{name}` in lower case.
fn said(s: &str) -> String {
    let name = RouterConfig::default().assistant;
    s.replace("{Name}", &name).replace("{name}", &name.to_lowercase())
}

fn strip(intent: &str, s: &str) -> Option<String> {
    strip_cue(intent, &RouterConfig::default().assistant, &said(s))
}

#[test]
fn key_cues() {
    assert_eq!(strip("key", "hit control s").as_deref(), Some("control s"));
    assert_eq!(strip("key", "press enter").as_deref(), Some("enter"));
    assert_eq!(
        strip("key", "send control shift t").as_deref(),
        Some("control shift t")
    );
    assert_eq!(strip("key", "push alt f4").as_deref(), Some("alt f4"));
    assert_eq!(
        strip("key", "do control z please").as_deref(),
        Some("control z")
    );
    assert_eq!(strip("key", "the key escape").as_deref(), Some("escape"));
    assert_eq!(strip("key", "could you press tab").as_deref(), Some("tab"));
    assert_eq!(
        strip("key", "please can you press enter").as_deref(),
        Some("enter")
    );
    assert_eq!(strip("key", "press a").as_deref(), Some("a"));
    // No cue: the model is asked.
    assert_eq!(strip("key", "control s"), None);
    assert_eq!(strip("key", "escape"), None);
    // A cue with nothing after it is not a payload.
    assert_eq!(strip("key", "press"), None);
}

#[test]
fn notify_cues() {
    assert_eq!(
        strip("notify", "remind me to buy milk").as_deref(),
        Some("buy milk")
    );
    assert_eq!(
        strip("notify", "remind me on screen that the meeting is at three").as_deref(),
        Some("the meeting is at three")
    );
    assert_eq!(
        strip("notify", "notify me when the build is done").as_deref(),
        Some("when the build is done")
    );
    assert_eq!(
        strip("notify", "make a note that rent is due").as_deref(),
        Some("rent is due")
    );
    assert_eq!(
        strip("notify", "set a reminder to call mum").as_deref(),
        Some("call mum")
    );
    assert_eq!(
        strip("notify", "Note: buy eggs").as_deref(),
        Some("buy eggs")
    );
    assert_eq!(
        strip("notify", "pop up a note saying lunch is ready").as_deref(),
        Some("lunch is ready")
    );
    assert_eq!(
        strip("notify", "put a notification up that says call mum").as_deref(),
        Some("call mum")
    );
    assert_eq!(
        strip("notify", "flash a message: build finished").as_deref(),
        Some("build finished")
    );
    assert_eq!(
        strip(
            "notify",
            "let me know with a notification that the pizza is here"
        )
        .as_deref(),
        Some("the pizza is here")
    );
    assert_eq!(
        strip("notify", "show a notification that says the build finished").as_deref(),
        Some("the build finished")
    );
    assert_eq!(
        strip("notify", "show a notification which says lunch").as_deref(),
        Some("lunch")
    );
    assert_eq!(
        strip("notify", "with a notification saying that's it").as_deref(),
        Some("that's it")
    );
    assert_eq!(strip("notify", "show a note on screen"), None);
}

#[test]
fn krunner_cues() {
    assert_eq!(
        strip("krunner", "search for the invoice").as_deref(),
        Some("the invoice")
    );
    assert_eq!(
        strip("krunner", "look up last year's tax return").as_deref(),
        Some("last year's tax return")
    );
    assert_eq!(
        strip("krunner", "can you look for the vacation photos").as_deref(),
        Some("the vacation photos")
    );
    assert_eq!(
        strip("krunner", "track down my thesis draft").as_deref(),
        Some("my thesis draft")
    );
    assert_eq!(
        strip("krunner", "where is the file called budget").as_deref(),
        Some("budget")
    );
    assert_eq!(
        strip("krunner", "find the document named report").as_deref(),
        Some("report")
    );
    assert_eq!(strip("krunner", "run htop").as_deref(), Some("htop"));
    // "called" names a thing only after a noun for one.
    assert_eq!(
        strip("krunner", "look up who called me").as_deref(),
        Some("who called me")
    );
    assert_eq!(
        strip("krunner", "find the one called notes").as_deref(),
        Some("notes")
    );
    assert_eq!(strip("krunner", "I want the vacation photos"), None);
}

#[test]
fn claude_tell_cues() {
    assert_eq!(
        strip("claude_tell", "tell {name} to fix the failing test").as_deref(),
        Some("fix the failing test")
    );
    assert_eq!(
        strip("claude_tell", "tell {name} code the tests pass").as_deref(),
        Some("the tests pass")
    );
    assert_eq!(
        strip("claude_tell", "ask {name} why this fails").as_deref(),
        Some("why this fails")
    );
    assert_eq!(
        strip("claude_tell", "{Name}, add a readme please").as_deref(),
        Some("add a readme")
    );
    assert_eq!(
        strip("claude_tell", "have {name} explain the last error").as_deref(),
        Some("explain the last error")
    );
    assert_eq!(
        strip("claude_tell", "get {name} to add a readme").as_deref(),
        Some("add a readme")
    );
    assert_eq!(
        strip("claude_tell", "message {name} that the tests are green now").as_deref(),
        Some("the tests are green now")
    );
    assert_eq!(
        strip("claude_tell", "pass this on to {name}: refactor the parser").as_deref(),
        Some("refactor the parser")
    );
    assert_eq!(
        strip("claude_tell", "send {name} the message: run the linter").as_deref(),
        Some("run the linter")
    );
    // The name without the comma is not the cue: this is left to the
    // model.
    assert_eq!(strip("claude_tell", "{name} fix it"), None);
    assert_eq!(strip("claude_tell", "tell {name}"), None);
    assert_eq!(strip("claude_tell", "tell {name}: please"), None);
    assert_eq!(strip("claude_tell", "tell {name} please please"), None);
    // A colon inside the message is not the wrapper's.
    assert_eq!(
        strip("claude_tell", "tell {name} to email Bob: the report is late").as_deref(),
        Some("email Bob: the report is late")
    );
    assert_eq!(
        strip("claude_tell", "tell {name}: fix the build").as_deref(),
        Some("fix the build")
    );
}

#[test]
fn text_is_kept_as_spoken() {
    assert_eq!(
        strip(
            "claude_tell",
            "tell {Name} to Rename `Foo` to `Bar`, please"
        )
        .as_deref(),
        Some("Rename `Foo` to `Bar`")
    );
    assert_eq!(strip("show_app", "tell {name} to fix it"), None);
}

#[test]
fn the_default_name_is_the_one_of_the_intents() {
    assert_eq!(format!("{}_tell", said("{name}")), "claude_tell");
    assert_eq!(said("start_{name}"), "start_claude");
    let name = said("{Name}");
    assert_eq!(name.chars().next(), Some('C'));
    assert_eq!(name[1..], said("{name}")[1..]);
}

#[test]
fn another_name_makes_other_cues() {
    assert_eq!(
        strip_cue("claude_tell", "Robin", "tell robin to fix it").as_deref(),
        Some("fix it")
    );
    assert_eq!(strip_cue("claude_tell", "Robin", &said("tell {name} to fix it")), None);
}

#[test]
fn polite_words_in_front_change_nothing() {
    for p in [
        "please",
        "can you",
        "could you",
        "would you",
        "will you",
        "hey",
        "Please",
        "hey could you please",
    ] {
        for (intent, u) in [
            ("claude_tell", "tell {name} to fix the failing test"),
            ("claude_tell", "{name} fix it"),
            ("key", "hit control s"),
            ("notify", "remind me"),
            ("krunner", ""),
        ] {
            assert_eq!(strip(intent, &format!("{p} {u}")), strip(intent, u), "{p} {u}");
        }
    }
    assert_eq!(
        strip("key", "hey could you please hit control s").as_deref(),
        Some("control s")
    );
}

#[test]
fn a_please_at_the_end_changes_nothing() {
    for (intent, u) in [
        ("claude_tell", "tell {name} to fix the failing test"),
        ("claude_tell", "tell {name}"),
        ("claude_tell", "{Name}, add a readme"),
        ("key", "hit control s"),
        ("key", "hit please"),
        ("krunner", ""),
    ] {
        assert_eq!(strip(intent, &format!("{u} please")), strip(intent, u), "{u}");
    }
    assert_eq!(strip("key", "hit control s please").as_deref(), Some("control s"));
}
