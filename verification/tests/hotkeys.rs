use parla::hotkeys::{
    action_id, bound_as_asked, combine, decode, parse_chord, pressed, ChordError, HotkeyEvent,
    QT_CTRL, QT_META, QT_SHIFT,
};

#[test]
fn chords() {
    assert_eq!(parse_chord("ctrl+space").unwrap(), QT_CTRL | 0x20);
    assert_eq!(
        parse_chord("ctrl+shift+space").unwrap(),
        QT_CTRL | QT_SHIFT | 0x20
    );
    assert_eq!(parse_chord("Meta+D").unwrap(), QT_META | 0x44);
    assert_eq!(parse_chord("f5").unwrap(), 0x01000034);
    assert!(parse_chord("ctrl").is_err()); // no main key
    assert!(parse_chord("delete+delete").is_err()); // dup main key
    assert!(parse_chord("foo bar+baz").is_err());
}

#[test]
fn a_chord_without_a_key_or_with_two_is_refused() {
    assert!(parse_chord("").is_err());
    assert!(parse_chord("a+b").is_err());
    assert!(parse_chord("ctrl+nosuchkey").is_err());
    assert!(parse_chord("CTRL + Space").is_ok());
    let err: ChordError = parse_chord("ctrl").unwrap_err();
    assert!(!err.text("ctrl").is_empty());
    assert!(combine(&Vec::new()).is_err());
}

#[test]
fn signals_become_key_events() {
    assert_eq!(pressed(Some("globalShortcutPressed")), Some(true));
    assert_eq!(pressed(Some("globalShortcutReleased")), Some(false));
    assert_eq!(pressed(Some("something")), None);
    assert_eq!(pressed(None), None);
    let component = parla::hotkeys::COMPONENT;
    assert_eq!(
        decode(true, component, parla::hotkeys::ACTION_DICTATE),
        Some(HotkeyEvent::DictatePressed)
    );
    assert_eq!(
        decode(false, component, parla::hotkeys::ACTION_COMMAND),
        Some(HotkeyEvent::CommandReleased)
    );
    assert_eq!(decode(true, "kwin", parla::hotkeys::ACTION_DICTATE), None);
    assert_eq!(action_id(parla::hotkeys::ACTION_DICTATE).len(), 4);
    assert!(bound_as_asked(&vec![7], 7));
    assert!(!bound_as_asked(&vec![8], 7));
    assert!(!bound_as_asked(&Vec::new(), 7));
}

#[test]
fn order_case_and_repeats_make_no_difference() {
    let chord = parse_chord("ctrl+shift+t").unwrap();
    for other in [
        "shift+ctrl+t",
        "t+shift+ctrl",
        "Ctrl+SHIFT+T",
        " ctrl + shift + t ",
        "ctrl++shift+t+",
        "ctrl+ctrl+shift+t+shift",
    ] {
        assert_eq!(parse_chord(other).ok(), Some(chord), "{other}");
    }
    for (a, b) in [
        ("ctrl+shift", "shift+ctrl"),
        ("a+b+ctrl", "ctrl+B+A"),
        ("nosuchkey+ctrl", "CTRL+ctrl+nosuchkey"),
        ("delete+delete", "DELETE + delete"),
    ] {
        assert!(parse_chord(a).is_err() && parse_chord(b).is_err(), "{a} {b}");
    }
}
