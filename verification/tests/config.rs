use parla::config::{
    config_path, explain_thresholds, local_thresholds, lock_path, models_dir, typesafe_thresholds,
    AsrConfig, Backend, ConfigError, DaemonConfig, FlowBackend, JudgeConfig, LearnMode,
    OpenAiConfig, Secret, TypeSafeConfig,
};
use parla::double::Double;

fn d(x: f64) -> Double {
    Double { bits: x.to_bits() }
}

fn single(x: f32) -> Double {
    Double {
        bits: f64::from(x).to_bits(),
    }
}

const MODELS: &str = "/models";

fn defaults() -> DaemonConfig {
    DaemonConfig::in_dir(MODELS)
}

/// Reads the keys that the tests below write into a config.
fn load(text: &str) -> Result<DaemonConfig, String> {
    let table: toml::Table = text.parse().map_err(|_| "not a table".to_string())?;
    let mut cfg = defaults();
    let get = |section: &str, key: &str| {
        table
            .get(section)
            .and_then(|s| s.as_table())
            .and_then(|s| s.get(key))
            .cloned()
    };
    if let Some(v) = get("audio", "sample_rate") {
        cfg.audio.sample_rate = v.as_integer().map(|n| n as u32);
    }
    if let Some(v) = get("audio", "end_silence_ms") {
        cfg.audio.end_silence_ms = v.as_integer().map(|n| n as u64);
    }
    if let Some(v) = get("asr", "vad_model_path") {
        cfg.asr.vad_model_path = v.as_str().ok_or("path")?.to_string();
    }
    if let Some(v) = get("judge", "backend") {
        cfg.judge.backend = [Backend::Local, Backend::TypeSafe]
            .into_iter()
            .find(|b| v.as_str() == Some(b.name()))
            .ok_or("backend")?;
    }
    if let Some(v) = get("judge", "min_confidence") {
        cfg.judge.min_confidence = v.as_float().map(d);
    }
    if let Some(v) = get("flow", "backend") {
        cfg.flow.backend = [FlowBackend::Local, FlowBackend::OpenAi]
            .into_iter()
            .find(|b| v.as_str() == Some(b.name()))
            .ok_or("backend")?;
    }
    if let Some(v) = get("flow", "learn") {
        cfg.flow.learn = [LearnMode::Suggest, LearnMode::Auto, LearnMode::Off]
            .into_iter()
            .find(|m| v.as_str() == Some(m.name()))
            .ok_or("learn")?;
    }
    Ok(cfg)
}

fn section(keys: Vec<(&str, toml::Value)>) -> toml::Value {
    let mut t = toml::Table::new();
    for (k, v) in keys {
        t.insert(k.to_string(), v);
    }
    toml::Value::Table(t)
}

/// Prints the keys that the tests below look for, and the note on thresholds.
fn default_toml() -> Option<String> {
    let c = defaults();
    let flow = section(vec![
        ("backend", c.flow.backend.name().into()),
        ("learn", c.flow.learn.name().into()),
        ("learn_after_ms", (c.flow.learn_after_ms as i64).into()),
        (
            "openai",
            section(vec![("base_url", c.flow.openai.base_url.into())]),
        ),
    ]);
    let judge = section(vec![
        ("backend", c.judge.backend.name().into()),
        ("send_window_titles", c.judge.send_window_titles.into()),
    ]);
    let all = section(vec![
        ("asr", section(vec![("vad_model_path", c.asr.vad_model_path.into())])),
        (
            "audio",
            section(vec![(
                "vad_threshold",
                f64::from_bits(c.audio.vad_threshold.bits).into(),
            )]),
        ),
        ("flow", flow),
        ("judge", judge),
        ("local", section(vec![("gpu_layers", (c.local.gpu_layers as i64).into())])),
    ]);
    explain_thresholds(&toml::to_string_pretty(&all).unwrap())
}

#[test]
fn older_audio_fields_still_load() {
    let cfg = load("[audio]\nsample_rate = 48000\nend_silence_ms = 700\n").unwrap();
    assert_eq!(cfg.audio.sample_rate, Some(48000));
    cfg.validate().unwrap();
    assert_eq!(cfg.audio.ignored().len(), 2);
    assert!(defaults().audio.ignored().is_empty());
}

#[test]
fn defaults_validate() {
    defaults().validate().unwrap();
}

#[test]
fn rejects_bad_thresholds() {
    let mut c = defaults();
    c.audio.speech_threshold = single(f32::NAN);
    assert!(c.validate().is_err());
    let mut c = defaults();
    c.audio.speech_threshold = single(1.5);
    assert!(c.validate().is_err());
    let mut c = defaults();
    c.audio.vad_threshold = single(-0.1);
    assert!(c.validate().is_err());
    let mut c = defaults();
    c.judge.min_confidence = Some(d(0.9));
    c.judge.act_unconfirmed_above = Some(d(0.5));
    assert_eq!(
        c.validate(),
        Err(ConfigError::FloorAboveAct {
            min: d(0.9),
            act: d(0.5)
        })
    );
    let mut c = defaults();
    c.judge.dictation_threshold = Some(d(1.5));
    assert!(matches!(c.validate(), Err(ConfigError::NotUnit { .. })));
    let mut c = defaults();
    c.local.context_tokens = 16;
    assert_eq!(c.validate(), Err(ConfigError::SmallContext));
    let mut c = defaults();
    c.audio.min_utterance_ms = 40_000;
    assert_eq!(
        c.validate(),
        Err(ConfigError::MinAboveMax {
            min: 40_000,
            max: 30_000
        })
    );
    let mut c = defaults();
    c.audio.max_hold_ms = 0;
    assert!(matches!(c.validate(), Err(ConfigError::NotPositive { .. })));
    let mut c = defaults();
    c.router.confirm_window_ms = 0;
    assert!(c.validate().is_err());
    let mut c = defaults();
    c.asr.language = "  ".to_string();
    assert_eq!(c.validate(), Err(ConfigError::NoLanguage));
    let mut c = defaults();
    c.hotkeys.command = "ctrl".to_string();
    assert!(matches!(c.validate(), Err(ConfigError::BadChord { .. })));
    let mut c = defaults();
    c.flow.backend = FlowBackend::OpenAi;
    c.flow.openai.base_url = " ".to_string();
    assert_eq!(c.validate(), Err(ConfigError::NoBaseUrl));
}

#[test]
fn thresholds_resolve_per_backend_and_print_in_full() {
    // Nothing set: each backend's own table.
    let cfg = load("").unwrap();
    assert_eq!(cfg.judge.thresholds(), local_thresholds());
    let cfg = load("[judge]\nbackend = \"typesafe\"\n").unwrap();
    assert_eq!(cfg.judge.thresholds(), typesafe_thresholds());
    assert_eq!(cfg.judge.thresholds().act_unconfirmed_above, d(0.75));

    // A key that is set wins over the table, for that key only.
    let cfg = load("[judge]\nbackend = \"typesafe\"\nmin_confidence = 0.3\n").unwrap();
    let t = cfg.judge.thresholds();
    assert_eq!(t.min_confidence, d(0.3));
    assert_eq!(t.dictation_threshold, typesafe_thresholds().dictation_threshold);

    // The printed defaults show all four keys commented out, with the
    // local numbers, under [judge] and before send_window_titles, and
    // load back with no key set, so the backend's table applies.
    let text = default_toml().unwrap();
    let judge = text.find("[judge]").unwrap();
    for key in [
        "\n# min_confidence = 0.35\n",
        "\n# act_unconfirmed_above = 0.65\n",
        "\n# dictation_threshold = 0.4\n",
        "\n# destructive_threshold = 0.8\n",
        "typesafe 0.45/0.75/0.5/0.6",
    ] {
        let at = text.find(key).unwrap_or_else(|| panic!("{key:?} missing from\n{text}"));
        assert!(at > judge && at < text.find("send_window_titles").unwrap(), "{text}");
    }
    assert!(!text.contains("\nmin_confidence = "), "{text}");
    let back = load(&text).unwrap();
    assert_eq!(back.judge.thresholds(), local_thresholds());
    assert_eq!(back.judge.min_confidence, None);
    back.validate().unwrap();
}

#[test]
fn the_note_needs_its_key_once() {
    assert_eq!(explain_thresholds("nothing here"), None);
    assert_eq!(
        explain_thresholds("send_window_titles = false\nsend_window_titles = true\n"),
        None
    );
    let text = explain_thresholds("a\nsend_window_titles = false\nb").unwrap();
    assert!(text.starts_with("a\n# Defaults depend"), "{text}");
    assert!(text.ends_with("\nsend_window_titles = false\nb"), "{text}");
}

#[test]
fn the_explained_numbers_are_the_thresholds() {
    let text = explain_thresholds("send_window_titles = false\n").unwrap();
    let show = |b: Backend| {
        let t = b.default_thresholds();
        format!(
            "{}/{}/{}/{}",
            f64::from_bits(t.min_confidence.bits),
            f64::from_bits(t.act_unconfirmed_above.bits),
            f64::from_bits(t.dictation_threshold.bits),
            f64::from_bits(t.destructive_threshold.bits)
        )
    };
    assert!(text.contains(&format!("local {},", show(Backend::Local))), "{text}");
    assert!(text.contains(&format!("typesafe {};", show(Backend::TypeSafe))), "{text}");
}

#[test]
fn secret_never_prints() {
    let c = TypeSafeConfig {
        api_key: Some(Secret::new("sk-live-1234".to_string())),
        ..Default::default()
    };
    let key = c.api_key.as_ref().unwrap();
    let dbg = format!("{:?}", key.redacted());
    assert!(!dbg.contains("sk-live"), "{dbg}");
    assert!(!key.serialized().contains("sk-live"));
    assert_eq!(Secret::new("abc".to_string()).expose(), "abc");
    assert_ne!(
        Secret::new(String::new()).redacted(),
        key.redacted()
    );
}

#[test]
fn the_environment_wins_over_the_config() {
    let c = TypeSafeConfig {
        api_key: Some(Secret::new("from-file".to_string())),
        ..Default::default()
    };
    assert_eq!(c.resolved_api_key(Some("from-env")).as_deref(), Some("from-env"));
    assert_eq!(c.resolved_api_key(Some("  ")).as_deref(), Some("from-file"));
    assert_eq!(c.resolved_api_key(None).as_deref(), Some("from-file"));
    assert_eq!(TypeSafeConfig::default().resolved_api_key(None), None);
    assert_eq!(OpenAiConfig::default().resolved_api_key(None), "");
}

#[test]
fn default_toml_round_trips_with_vad_keys() {
    let text = default_toml().unwrap();
    assert!(text.contains("vad_model_path = "), "{text}");
    assert!(text.contains("vad_threshold = 0.5"), "{text}");
    let cfg = load(&text).unwrap();
    assert_eq!(cfg.asr.vad_model_path, AsrConfig::in_dir(MODELS).vad_model_path);
    assert_eq!(
        std::path::Path::new(&cfg.asr.vad_model_path).file_name().unwrap(),
        "ggml-silero-v5.1.2.bin"
    );
    assert_eq!(cfg.audio.speech_threshold, single(0.01));
}

#[test]
fn backend_is_spelled_in_lowercase() {
    let cfg = load("[judge]\nbackend = \"typesafe\"\n").unwrap();
    assert_eq!(cfg.judge.backend, Backend::TypeSafe);
    let text = default_toml().unwrap();
    assert!(text.contains("backend = \"local\""), "{text}");
    assert!(text.contains("[local]"), "{text}");
    assert!(text.contains("[flow.openai]"), "{text}");
    let cfg = load("[flow]\nbackend = \"openai\"\n").unwrap();
    assert_eq!(cfg.flow.backend, FlowBackend::OpenAi);
}

#[test]
fn learn_mode_round_trips() {
    let text = default_toml().unwrap();
    assert!(text.contains("learn = \"suggest\""), "{text}");
    assert!(text.contains("learn_after_ms = 20000"), "{text}");
    let cfg = load(&text).unwrap();
    assert_eq!(cfg.flow.learn, LearnMode::Suggest);
    let cfg = load("[flow]\nlearn = \"auto\"\n").unwrap();
    assert_eq!(cfg.flow.learn, LearnMode::Auto);
    let cfg = load("[flow]\nlearn = \"off\"\n").unwrap();
    assert_eq!(cfg.flow.learn, LearnMode::Off);
    assert!(load("[flow]\nlearn = \"always\"\n").is_err());
    let mut c = defaults();
    c.flow.learn_after_ms = 0;
    assert!(c.validate().is_err());
}

#[test]
fn paths_follow_the_xdg_layout() {
    assert_eq!(config_path(Some("/c"), Some("/h")), "/c/parla/parla.toml");
    assert_eq!(config_path(None, Some("/h")), "/h/.config/parla/parla.toml");
    assert_eq!(config_path(None, None), "/tmp/.config/parla/parla.toml");
    assert_eq!(models_dir(None, Some("/h/")), "/h/.local/share/parla/models");
    assert_eq!(lock_path(Some("/s"), None), "/s/parla/parlad.lock");
    assert_eq!(lock_path(None, Some("/h")), "/h/.local/state/parla/parlad.lock");
}

#[test]
fn titles_leave_the_machine_only_when_allowed() {
    let mut c = JudgeConfig::default();
    assert!(c.sends_titles());
    c.backend = Backend::TypeSafe;
    assert!(!c.sends_titles());
    c.send_window_titles = true;
    assert!(c.sends_titles());
}
