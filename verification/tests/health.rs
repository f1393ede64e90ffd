use parla::config::DaemonConfig;
use parla::health::{hotkey_line, settings_lines, FileState, Found, Probe};

fn found() -> Found {
    Found {
        config_path: "/cfg/parla/parla.toml".into(),
        model_present: true,
        gate: "silero (/m/v.bin)".into(),
        local_present: false,
        files: vec![
            FileState {
                what: "dictionary".into(),
                path: "/cfg/d.toml".into(),
                written: true,
                held: Ok("2 words, 0 replacements".into()),
            },
            FileState {
                what: "snippets".into(),
                path: "/cfg/s.toml".into(),
                written: false,
                held: Ok("0 snippets".into()),
            },
            FileState {
                what: "app profiles".into(),
                path: "/cfg/a.toml".into(),
                written: true,
                held: Err("bad line".into()),
            },
        ],
        history_path: "/data/history.jsonl".into(),
    }
}

#[test]
fn the_report_says_what_is_there() {
    let mut cfg = DaemonConfig::in_dir("/m");
    cfg.judge.enabled = true;
    cfg.flow.cleanup = false;
    cfg.flow.history = true;
    let lines = settings_lines(&cfg, &found());
    assert_eq!(lines.len(), 13);
    assert_eq!(lines[0], "config path:   /cfg/parla/parla.toml");
    assert_eq!(lines[2], "model present: yes");
    assert_eq!(lines[3], "vad:           silero (/m/v.bin)");
    assert_eq!(lines[5], "local present: NO \u{2014} run scripts/fetch-model.sh");
    assert_eq!(lines[6], "judge:         local backend");
    assert_eq!(
        lines[7],
        "thresholds:    min_confidence 0.35 act_unconfirmed_above 0.65 dictation 0.40 destructive 0.80"
    );
    assert_eq!(lines[8], "cleanup:       off");
    assert_eq!(lines[9], "dictionary     2 words, 0 replacements (/cfg/d.toml)");
    assert_eq!(lines[10], "snippets       0 snippets (/cfg/s.toml, not written yet)");
    assert_eq!(lines[11], "app profiles   FAILED: bad line");
    assert_eq!(lines[12], "history:       /data/history.jsonl");
}

#[test]
fn what_is_switched_off_is_said_to_be_off() {
    let mut cfg = DaemonConfig::in_dir("/m");
    cfg.judge.enabled = false;
    cfg.flow.cleanup = true;
    cfg.flow.history = false;
    let mut f = found();
    f.files.clear();
    let lines = settings_lines(&cfg, &f);
    assert_eq!(
        lines[6..],
        [
            "judge:         disabled".to_string(),
            "cleanup:       local backend".to_string(),
            "history:       off".to_string(),
        ]
    );
}

#[test]
fn probes_are_told_one_by_one() {
    let cfg = DaemonConfig::in_dir("/m");
    assert_eq!(
        hotkey_line(&cfg, 0x0400_0020, 0x0600_0020),
        "hotkeys:       dictate=ctrl+space command=ctrl+shift+space (parsed: 0x4000020 0x6000020)"
    );
    assert_eq!(Probe::Injector("ei".into()).line(), "active injector: ei");
    assert_eq!(Probe::Windows(7).line(), "kdotool: 7 windows visible");
    assert_eq!(Probe::Desktops(4).line(), "virtual desktops: 4");
    assert_eq!(
        Probe::Application(Ok("org.kde.konsole.desktop".into())).line(),
        "desktop index: resolved 'konsole' -> org.kde.konsole.desktop"
    );
    assert_eq!(
        Probe::Application(Err("no such app".into())).line(),
        "desktop index: FAILED (no such app)"
    );
    assert_eq!(Probe::Locked(false).line(), "session locked: false");
    assert_eq!(
        Probe::Accessibility(Ok(true)).line(),
        "a11y:          bus reachable, IsEnabled=true"
    );
    assert_eq!(
        Probe::Accessibility(Err("no bus".into())).line(),
        "a11y:          unavailable (no bus)"
    );
    assert_eq!(
        Probe::Owned(true).line(),
        "session bus:   org.parla.Daemon is taken (a parlad is running)"
    );
    assert_eq!(
        Probe::Owned(false).line(),
        "session bus:   org.parla.Daemon is free"
    );
}
