use parla::confirm::{check_target, Confirmations, Pending, Taken};
use parla::desktop::{
    command_for, from_intent, from_resolved, AppTarget, Command, Window, WindowOp, WindowTarget,
};
use parla::intent::Intent;

fn window(id: &str, title: &str) -> Window {
    Window {
        id: id.into(),
        title: title.into(),
        class: "konsole".into(),
        resource_name: String::new(),
        desktop: 1,
        active: true,
        minimized: false,
        stacking: 0,
        pid: 0,
        normal: true,
    }
}

fn pending(now: u64, window_id: Option<&str>) -> Pending {
    Pending {
        command: Command::Window {
            op: WindowOp::Close,
            target: WindowTarget::Query("konsole".into()),
        },
        window_id: window_id.map(String::from),
        reason: "close_window always confirms".into(),
        describe: "close 'build — Konsole'".into(),
        deadline: now + 8_000,
    }
}

#[test]
fn a_prompt_is_answerable_until_its_deadline() {
    let now = 1_000;
    let mut c = Confirmations::default();
    assert_eq!(c.take(now), Taken::Nothing);

    assert_eq!(c.arm(pending(now, Some("{k1}"))), None);
    assert_eq!(
        c.take(now + 7_000),
        Taken::Live(pending(now, Some("{k1}")))
    );
    assert_eq!(c.take(now + 7_000), Taken::Nothing);

    c.arm(pending(now, Some("{k1}")));
    assert_eq!(
        c.take(now + 9_000),
        Taken::Expired(pending(now, Some("{k1}")))
    );
    assert_eq!(c.take(now), Taken::Nothing);

    c.arm(pending(now, None));
    assert!(matches!(c.take(now + 8_000), Taken::Live(_)));
    c.arm(pending(now, None));
    assert!(matches!(c.take(now + 8_001), Taken::Expired(_)));
}

#[test]
fn a_new_prompt_replaces_and_a_command_cancels() {
    let now = 1_000;
    let mut c = Confirmations::default();
    c.arm(pending(now, Some("{k1}")));
    let replaced = c.arm(pending(now, Some("{k2}")));
    assert_eq!(replaced.unwrap().window_id.as_deref(), Some("{k1}"));
    assert_eq!(c.cancel().unwrap().window_id.as_deref(), Some("{k2}"));
    assert_eq!(c.cancel(), None);
    assert_eq!(c.take(now), Taken::Nothing);
}

#[test]
fn a_confirmed_action_refuses_a_stale_target() {
    let now = 1_000;
    let p = pending(now, Some("{k1}"));
    assert!(check_target(&p, Some(&window("{k1}", "build — Konsole"))).is_ok());
    let err = check_target(&p, Some(&window("{k2}", "htop — Konsole")))
        .unwrap_err()
        .text();
    assert!(err.contains("htop"), "{err}");
    assert_eq!(
        check_target(&p, None).unwrap_err().text(),
        "not done: the window from 'close 'build — Konsole'' is gone"
    );
    assert!(check_target(&pending(now, None), None).is_ok());
}

#[test]
fn window_queries_keep_the_executor_convention() {
    assert_eq!(
        from_intent(Intent::CloseWindow { query: None }),
        Command::Window {
            op: WindowOp::Close,
            target: WindowTarget::Focused
        }
    );
    assert_eq!(
        from_intent(Intent::FocusWindow {
            query: "kate".into()
        }),
        Command::Window {
            op: WindowOp::Focus,
            target: WindowTarget::Query("kate".into())
        }
    );
    assert_eq!(
        from_intent(Intent::LaunchApp {
            query: "firefox".into()
        }),
        Command::LaunchApp {
            app: AppTarget::Query("firefox".into())
        }
    );
}

#[test]
fn the_bare_word_window_means_the_focused_one() {
    for q in ["", "window"] {
        assert_eq!(
            WindowTarget::from_query(Some(q.to_string())),
            WindowTarget::Focused
        );
    }
    assert_eq!(command_for(Intent::Confirm), None);
    assert_eq!(command_for(Intent::ScratchThat), None);
}

#[test]
fn a_picked_window_is_named_by_its_id() {
    assert_eq!(
        from_resolved(
            Intent::CloseWindow {
                query: Some("notes".into())
            },
            Some("{w2}".into()),
            None
        ),
        Some(Command::Window {
            op: WindowOp::Close,
            target: WindowTarget::Id("{w2}".into())
        })
    );
    assert_eq!(
        from_resolved(
            Intent::LaunchApp {
                query: "Firefox".into()
            },
            None,
            Some("firefox.desktop".into())
        ),
        Some(Command::LaunchApp {
            app: AppTarget::Entry("firefox.desktop".into())
        })
    );
}
