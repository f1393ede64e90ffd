//! Settings: their defaults, and the values that are refused before they can
//! fail at capture or judge time.
use vstd::prelude::*;

use crate::double::Double;
use crate::hotkeys::{parse_chord, ChordError, ChordErrorView};
use crate::text::{capitalize, concat2, concat3, find_in, slice_text, split_on, to_chars, trim};

verus! {

/// A string that must never reach a log or a written config: an API key. Read
/// it with [`Secret::expose`]; print it with [`Secret::redacted`].
#[derive(Clone, PartialEq, Eq)]
pub struct Secret {
    text: String,
}

impl View for Secret {
    type V = Seq<char>;

    closed spec fn view(&self) -> Seq<char> {
        self.text@
    }
}

impl Secret {
    /// A secret holding `text`.
    pub fn new(text: String) -> (r: Secret)
        ensures
            r@ == text@,
    {
        Secret { text }
    }

    /// The text itself.
    pub fn expose(&self) -> (r: &str)
        ensures
            r@ == self@,
    {
        self.text.as_str()
    }

    /// What a log line shows: whether there is a secret, and nothing of it.
    pub fn redacted(&self) -> (r: &'static str)
        ensures
            r@ == Secret::shown_of(self@),
    {
        if self.text.as_str().is_empty() {
            "Secret(<empty>)"
        } else {
            "Secret(<redacted>)"
        }
    }

    /// What a written config holds in its place.
    pub fn serialized(&self) -> (r: &'static str)
        ensures
            r@ == Secret::written_of(self@),
    {
        if self.text.as_str().is_empty() {
            ""
        } else {
            "<redacted>"
        }
    }
}

/// Two secrets of which neither is empty print and serialise alike: the
/// output carries nothing of the text.
pub proof fn law_secrets_print_alike(a: Seq<char>, b: Seq<char>)
    requires
        a.len() > 0,
        b.len() > 0,
    ensures
        Secret::shown_of(a) == Secret::shown_of(b),
        Secret::written_of(a) == Secret::written_of(b),
{
}

impl Secret {
    /// What is shown of a secret with the text `s`.
    pub open spec fn shown_of(s: Seq<char>) -> Seq<char> {
        if s.len() == 0 {
            "Secret(<empty>)"@
        } else {
            "Secret(<redacted>)"@
        }
    }

    /// What is written of a secret with the text `s`.
    pub open spec fn written_of(s: Seq<char>) -> Seq<char> {
        if s.len() == 0 {
            ""@
        } else {
            "<redacted>"@
        }
    }
}

/// Who answers the judge's questions.
#[derive(Clone, Copy, Debug, PartialEq, Eq, Structural)]
pub enum Backend {
    /// A model loaded on this machine.
    Local,
    /// The TypeSafe System One API, over HTTPS.
    TypeSafe,
}

/// The four probabilities the policy compares against, with every value
/// resolved: what the config said, or the backend's default where it said
/// nothing.
#[derive(Clone, Copy, Debug, PartialEq, Eq, Structural)]
pub struct Thresholds {
    /// Below this confidence, act on nothing.
    pub min_confidence: Double,
    /// At or above this, act without a confirmation prompt.
    pub act_unconfirmed_above: Double,
    /// `is_dictation` at or above this means the wrong hotkey was held.
    pub dictation_threshold: Double,
    /// `is_destructive` at or above this forces spoken confirmation.
    pub destructive_threshold: Double,
}

/// Measured on a labelled corpus: 0.35, 0.65, 0.4 and 0.8. The local model's
/// option probabilities sit near 0 or 1, so its numbers differ from
/// TypeSafe's.
#[verifier::allow_in_spec]
pub fn local_thresholds() -> Thresholds
    returns
        (Thresholds {
            min_confidence: Double { bits: 0x3fd6_6666_6666_6666 },
            act_unconfirmed_above: Double { bits: 0x3fe4_cccc_cccc_cccd },
            dictation_threshold: Double { bits: 0x3fd9_9999_9999_999a },
            destructive_threshold: Double { bits: 0x3fe9_9999_9999_999a },
        }),
{
    Thresholds {
        min_confidence: Double { bits: 0x3fd6_6666_6666_6666 },
        act_unconfirmed_above: Double { bits: 0x3fe4_cccc_cccc_cccd },
        dictation_threshold: Double { bits: 0x3fd9_9999_9999_999a },
        destructive_threshold: Double { bits: 0x3fe9_9999_9999_999a },
    }
}

/// Hand-picked for TypeSafe's calibrated outputs: 0.45, 0.75, 0.5 and 0.6.
#[verifier::allow_in_spec]
pub fn typesafe_thresholds() -> Thresholds
    returns
        (Thresholds {
            min_confidence: Double { bits: 0x3fdc_cccc_cccc_cccd },
            act_unconfirmed_above: Double { bits: 0x3fe8_0000_0000_0000 },
            dictation_threshold: Double { bits: 0x3fe0_0000_0000_0000 },
            destructive_threshold: Double { bits: 0x3fe3_3333_3333_3333 },
        }),
{
    Thresholds {
        min_confidence: Double { bits: 0x3fdc_cccc_cccc_cccd },
        act_unconfirmed_above: Double { bits: 0x3fe8_0000_0000_0000 },
        dictation_threshold: Double { bits: 0x3fe0_0000_0000_0000 },
        destructive_threshold: Double { bits: 0x3fe3_3333_3333_3333 },
    }
}

impl Backend {
    /// The thresholds this backend runs with when the config names none.
    #[verifier::allow_in_spec]
    pub fn default_thresholds(self) -> Thresholds
        returns
            (match self {
                Backend::Local => local_thresholds(),
                Backend::TypeSafe => typesafe_thresholds(),
            }),
    {
        match self {
            Backend::Local => local_thresholds(),
            Backend::TypeSafe => typesafe_thresholds(),
        }
    }

    /// How the backend is spelled.
    pub open spec fn spelled(self) -> Seq<char> {
        match self {
            Backend::Local => "local"@,
            Backend::TypeSafe => "typesafe"@,
        }
    }

    /// How the backend is spelled.
    pub fn name(self) -> (r: &'static str)
        ensures
            r@ == self.spelled(),
    {
        match self {
            Backend::Local => "local",
            Backend::TypeSafe => "typesafe",
        }
    }
}

/// The TypeSafe backend.
#[derive(Clone)]
pub struct TypeSafeConfig {
    /// API key. The environment wins over it.
    pub api_key: Option<Secret>,
    pub model: String,
}

impl TypeSafeConfig {
    /// Every value as it is where the config sets nothing.
    pub open spec fn is_default(&self) -> bool {
        &&& self.api_key is None
        &&& self.model@ == "jev-latest"@
    }
}

impl Default for TypeSafeConfig {
    fn default() -> (r: TypeSafeConfig)
        ensures
            r.is_default(),
    {
        TypeSafeConfig { api_key: None, model: "jev-latest".to_string() }
    }
}

/// Whether a key says anything: not blank.
pub open spec fn says_something(key: Option<Seq<char>>) -> bool {
    key matches Some(k) && crate::text::trimmed(k).len() > 0
}

/// The text of an optional string slice.
pub open spec fn opt_str(s: Option<&str>) -> Option<Seq<char>> {
    match s {
        Some(s) => Some(s@),
        None => None,
    }
}

/// The text of an optional secret.
pub open spec fn opt_secret(s: Option<Secret>) -> Option<Seq<char>> {
    match s {
        Some(s) => Some(s@),
        None => None,
    }
}

fn is_blank(s: &str) -> (r: bool)
    ensures
        r == (crate::text::trimmed(s@).len() == 0),
{
    let t = trim(s);
    t.as_str().is_empty()
}

impl TypeSafeConfig {
    /// The key to use, where `env` is the environment's. The environment wins
    /// over the config file, and a blank key is no key.
    pub fn resolved_api_key(&self, env: Option<&str>) -> (r: Option<String>)
        ensures
            crate::intent::opt_text(r) == if says_something(opt_str(env)) {
                opt_str(env)
            } else if says_something(opt_secret(self.api_key)) {
                opt_secret(self.api_key)
            } else {
                None
            },
    {
        if let Some(k) = env {
            if !is_blank(k) {
                return Some(k.to_string());
            }
        }
        match &self.api_key {
            Some(k) => {
                let text = k.expose();
                if is_blank(text) {
                    None
                } else {
                    Some(text.to_string())
                }
            },
            None => None,
        }
    }
}

/// The judged path: what happens to utterances the grammar rejects.
#[derive(Clone)]
pub struct JudgeConfig {
    /// Judge utterances the grammar does not match.
    pub enabled: bool,
    /// Who answers.
    pub backend: Backend,
    /// Give up rather than keep the speaker waiting.
    pub timeout_ms: u64,
    /// Below this intent confidence, act on nothing. Absent means the
    /// backend's default.
    pub min_confidence: Option<Double>,
    /// At or above this, act without a confirmation prompt, unless the action
    /// is judged destructive.
    pub act_unconfirmed_above: Option<Double>,
    /// `is_dictation` at or above this means the wrong hotkey was held.
    pub dictation_threshold: Option<Double>,
    /// `is_destructive` at or above this forces spoken confirmation.
    pub destructive_threshold: Option<Double>,
    /// Include window titles in what leaves the machine. The local backend
    /// always sees titles; nothing leaves the host.
    pub send_window_titles: bool,
    pub typesafe: TypeSafeConfig,
}

/// The value set, or the default.
pub open spec fn or_default(v: Option<Double>, d: Double) -> Double {
    match v {
        Some(v) => v,
        None => d,
    }
}

impl JudgeConfig {
    /// The thresholds in force: each key the config sets, and the backend's
    /// default for each it leaves out.
    pub open spec fn resolved(&self) -> Thresholds {
        let d = self.backend.default_thresholds();
        Thresholds {
            min_confidence: or_default(self.min_confidence, d.min_confidence),
            act_unconfirmed_above: or_default(self.act_unconfirmed_above, d.act_unconfirmed_above),
            dictation_threshold: or_default(self.dictation_threshold, d.dictation_threshold),
            destructive_threshold: or_default(self.destructive_threshold, d.destructive_threshold),
        }
    }

    /// The thresholds in force.
    pub fn thresholds(&self) -> (r: Thresholds)
        ensures
            r == self.resolved(),
    {
        let d = self.backend.default_thresholds();
        Thresholds {
            min_confidence: self.min_confidence.unwrap_or(d.min_confidence),
            act_unconfirmed_above: self.act_unconfirmed_above.unwrap_or(d.act_unconfirmed_above),
            dictation_threshold: self.dictation_threshold.unwrap_or(d.dictation_threshold),
            destructive_threshold: self.destructive_threshold.unwrap_or(d.destructive_threshold),
        }
    }
}

impl JudgeConfig {
    /// Every value as it is where the config sets nothing.
    pub open spec fn is_default(&self) -> bool {
        &&& self.enabled
        &&& self.backend == Backend::Local
        &&& self.timeout_ms == 4_000
        &&& self.min_confidence is None
        &&& self.act_unconfirmed_above is None
        &&& self.dictation_threshold is None
        &&& self.destructive_threshold is None
        &&& !self.send_window_titles
        &&& self.typesafe.is_default()
    }
}

impl Default for JudgeConfig {
    fn default() -> (r: JudgeConfig)
        ensures
            r.is_default(),
    {
        JudgeConfig {
            enabled: true,
            backend: Backend::Local,
            timeout_ms: 4_000,
            min_confidence: None,
            act_unconfirmed_above: None,
            dictation_threshold: None,
            destructive_threshold: None,
            send_window_titles: false,
            typesafe: TypeSafeConfig::default(),
        }
    }
}

/// The local model, shared by the judged path and dictation cleanup.
#[derive(Clone, Debug)]
pub struct LocalConfig {
    /// Path to a GGUF instruct model.
    pub model_path: String,
    /// Layers to offload to the GPU; more than the model has means all.
    pub gpu_layers: u32,
    /// Context size in tokens.
    pub context_tokens: u32,
    /// CPU threads for whatever is not offloaded.
    pub threads: usize,
}

/// `base` with `rel` below it.
pub open spec fn below(base: Seq<char>, rel: Seq<char>) -> Seq<char> {
    if base.len() == 0 {
        rel
    } else if base.last() == '/' {
        base + rel
    } else {
        base + "/"@ + rel
    }
}

/// `base` with the relative path `rel` below it.
pub fn path_below(base: &str, rel: &str) -> (r: String)
    ensures
        r@ == below(base@, rel@),
{
    let v = to_chars(base);
    if v.len() == 0 {
        rel.to_string()
    } else if v[v.len() - 1] == '/' {
        concat2(base, rel)
    } else {
        concat3(base, "/", rel)
    }
}

/// A directory of the XDG layout: what the variable names, or `fallback`
/// below the home directory, which is /tmp where none is set.
pub open spec fn xdg_dir(
    var: Option<Seq<char>>,
    home: Option<Seq<char>>,
    fallback: Seq<char>,
) -> Seq<char> {
    match var {
        Some(v) => v,
        None => match home {
            Some(h) => below(h, fallback),
            None => below("/tmp"@, fallback),
        },
    }
}

/// A directory of the XDG layout.
pub(crate) fn xdg_base(var: Option<&str>, home: Option<&str>, fallback: &str) -> (r: String)
    ensures
        r@ == xdg_dir(opt_str(var), opt_str(home), fallback@),
{
    match var {
        Some(v) => v.to_string(),
        None => match home {
            Some(h) => path_below(h, fallback),
            None => path_below("/tmp", fallback),
        },
    }
}

/// Where models are kept, from XDG_DATA_HOME and HOME.
pub fn models_dir(data_home: Option<&str>, home: Option<&str>) -> (r: String)
    ensures
        r@ == below(xdg_dir(opt_str(data_home), opt_str(home), ".local/share"@), "parla/models"@),
{
    let base = xdg_base(data_home, home, ".local/share");
    path_below(base.as_str(), "parla/models")
}

/// Where the config file is, from XDG_CONFIG_HOME and HOME.
pub fn config_path(config_home: Option<&str>, home: Option<&str>) -> (r: String)
    ensures
        r@ == below(xdg_dir(opt_str(config_home), opt_str(home), ".config"@), "parla/parla.toml"@),
{
    let base = xdg_base(config_home, home, ".config");
    path_below(base.as_str(), "parla/parla.toml")
}

/// Where the single-instance lock is, from XDG_STATE_HOME and HOME.
pub fn lock_path(state_home: Option<&str>, home: Option<&str>) -> (r: String)
    ensures
        r@ == below(
            xdg_dir(opt_str(state_home), opt_str(home), ".local/state"@),
            "parla/parlad.lock"@,
        ),
{
    let base = xdg_base(state_home, home, ".local/state");
    path_below(base.as_str(), "parla/parlad.lock")
}

/// The models directory where neither variable is set.
pub open spec fn bare_models_dir() -> Seq<char> {
    below(xdg_dir(None, None, ".local/share"@), "parla/models"@)
}

impl LocalConfig {
    /// Every value as it is where the config sets nothing, with the model in
    /// the directory `models`.
    pub open spec fn is_default_in(&self, models: Seq<char>) -> bool {
        &&& self.model_path@ == below(models, "Qwen3-4B-Instruct-2507-Q4_K_M.gguf"@)
        &&& self.gpu_layers == 999
        &&& self.context_tokens == 8_192
        &&& self.threads == 4
    }

    /// The defaults with the model in the directory `models`.
    pub fn in_dir(models: &str) -> (r: LocalConfig)
        ensures
            r.is_default_in(models@),
    {
        LocalConfig {
            model_path: path_below(models, "Qwen3-4B-Instruct-2507-Q4_K_M.gguf"),
            gpu_layers: 999,
            context_tokens: 8_192,
            threads: 4,
        }
    }
}

impl Default for LocalConfig {
    /// The defaults where neither XDG_DATA_HOME nor HOME is set.
    fn default() -> (r: LocalConfig)
        ensures
            r.is_default_in(bare_models_dir()),
    {
        let models = models_dir(None, None);
        LocalConfig::in_dir(models.as_str())
    }
}

/// What happens when a word is changed in the field right after a dictation.
#[derive(Clone, Copy, Debug, PartialEq, Eq, Structural)]
pub enum LearnMode {
    /// Record corrections; the UI offers them for the dictionary.
    Suggest,
    /// Record them, and put a pair seen twice into the dictionary.
    Auto,
    Off,
}

impl LearnMode {
    /// How the mode is spelled.
    pub fn name(self) -> (r: &'static str)
        ensures
            r@ == match self {
                LearnMode::Suggest => "suggest"@,
                LearnMode::Auto => "auto"@,
                LearnMode::Off => "off"@,
            },
    {
        match self {
            LearnMode::Suggest => "suggest",
            LearnMode::Auto => "auto",
            LearnMode::Off => "off",
        }
    }
}

/// Who rewrites dictation.
#[derive(Clone, Copy, Debug, PartialEq, Eq, Structural)]
pub enum FlowBackend {
    Local,
    OpenAi,
}

impl FlowBackend {
    /// How the backend is spelled.
    pub open spec fn spelled(self) -> Seq<char> {
        match self {
            FlowBackend::Local => "local"@,
            FlowBackend::OpenAi => "openai"@,
        }
    }

    /// How the backend is spelled.
    pub fn name(self) -> (r: &'static str)
        ensures
            r@ == self.spelled(),
    {
        match self {
            FlowBackend::Local => "local",
            FlowBackend::OpenAi => "openai",
        }
    }
}

/// Any server speaking the OpenAI chat completions API.
#[derive(Clone)]
pub struct OpenAiConfig {
    /// Base URL up to and excluding `/chat/completions`.
    pub base_url: String,
    /// API key. The environment wins over it.
    pub api_key: Option<Secret>,
    pub model: String,
}

impl OpenAiConfig {
    /// Every value as it is where the config sets nothing.
    pub open spec fn is_default(&self) -> bool {
        &&& self.base_url@ == "https://api.openai.com/v1"@
        &&& self.api_key is None
        &&& self.model@ == "gpt-4.1-mini"@
    }
}

impl Default for OpenAiConfig {
    fn default() -> (r: OpenAiConfig)
        ensures
            r.is_default(),
    {
        OpenAiConfig {
            base_url: "https://api.openai.com/v1".to_string(),
            api_key: None,
            model: "gpt-4.1-mini".to_string(),
        }
    }
}

impl OpenAiConfig {
    /// The key to use, where `env` is the environment's. A local server may
    /// need no key at all, so an absent key is an empty string.
    pub fn resolved_api_key(&self, env: Option<&str>) -> (r: String)
        ensures
            r@ == if says_something(opt_str(env)) {
                opt_str(env)->0
            } else if self.api_key is Some {
                self.api_key->0@
            } else {
                Seq::empty()
            },
    {
        if let Some(k) = env {
            if !is_blank(k) {
                return k.to_string();
            }
        }
        match &self.api_key {
            Some(k) => k.expose().to_string(),
            None => String::new(),
        }
    }
}

/// Dictation: what happens to a transcript before it is typed.
#[derive(Clone)]
pub struct FlowConfig {
    /// Run the cleanup model over dictation.
    pub cleanup: bool,
    /// Who rewrites.
    pub backend: FlowBackend,
    /// Give up on cleanup and type the raw transcript after this long.
    pub timeout_ms: u64,
    /// Most tokens the model may produce for one dictation.
    pub max_tokens: u32,
    /// Keep a history of dictations and commands for the UI.
    pub history: bool,
    /// How long after a dictation "scratch that" still refers to it.
    pub edit_window_ms: u64,
    /// Read the text field that has the focus when a dictation starts.
    pub context: bool,
    /// What happens when a word is changed right after a dictation.
    pub learn: LearnMode,
    /// How long after a dictation the field is read again for corrections.
    pub learn_after_ms: u64,
    pub openai: OpenAiConfig,
}

impl FlowConfig {
    /// Every value as it is where the config sets nothing.
    pub open spec fn is_default(&self) -> bool {
        &&& self.cleanup
        &&& self.backend == FlowBackend::Local
        &&& self.timeout_ms == 6_000
        &&& self.max_tokens == 1_024
        &&& self.history
        &&& self.edit_window_ms == 90_000
        &&& self.context
        &&& self.learn == LearnMode::Suggest
        &&& self.learn_after_ms == 20_000
        &&& self.openai.is_default()
    }
}

impl Default for FlowConfig {
    fn default() -> (r: FlowConfig)
        ensures
            r.is_default(),
    {
        FlowConfig {
            cleanup: true,
            backend: FlowBackend::Local,
            timeout_ms: 6_000,
            max_tokens: 1_024,
            history: true,
            edit_window_ms: 90_000,
            context: true,
            learn: LearnMode::Suggest,
            learn_after_ms: 20_000,
            openai: OpenAiConfig::default(),
        }
    }
}

/// The chords held to talk.
#[derive(Clone, Debug)]
pub struct HotkeyConfig {
    /// Chord held to dictate.
    pub dictate: String,
    /// Chord held to issue a command.
    pub command: String,
}

impl HotkeyConfig {
    /// Every value as it is where the config sets nothing.
    pub open spec fn is_default(&self) -> bool {
        &&& self.dictate@ == "ctrl+space"@
        &&& self.command@ == "ctrl+shift+space"@
    }
}

impl Default for HotkeyConfig {
    fn default() -> (r: HotkeyConfig)
        ensures
            r.is_default(),
    {
        HotkeyConfig {
            dictate: "ctrl+space".to_string(),
            command: "ctrl+shift+space".to_string(),
        }
    }
}

/// Capture. The two thresholds are single-precision in a config file; here
/// they stand as the double with the same value.
#[derive(Clone, Debug)]
pub struct AudioConfig {
    /// Input device name; None is the system default.
    pub device: Option<String>,
    /// A frame whose speech probability is at or above this is speech.
    pub vad_threshold: Double,
    /// The energy gate's threshold, used without a model.
    pub speech_threshold: Double,
    /// Hard cap on utterance length after silence trimming.
    pub max_utterance_ms: u64,
    /// Utterances shorter than this are dropped.
    pub min_utterance_ms: u64,
    /// Holding the hotkey longer than this finishes the capture.
    pub max_hold_ms: u64,
    /// No longer used: accepted so an older config still loads.
    pub sample_rate: Option<u32>,
    /// No longer used: accepted so an older config still loads.
    pub end_silence_ms: Option<u64>,
}

impl AudioConfig {
    /// Every value as it is where the config sets nothing.
    pub open spec fn is_default(&self) -> bool {
        &&& self.device is None
        &&& self.vad_threshold.bits == 0x3fe0_0000_0000_0000
        &&& self.speech_threshold.bits == 0x3f84_7ae1_4000_0000
        &&& self.max_utterance_ms == 30_000
        &&& self.min_utterance_ms == 250
        &&& self.max_hold_ms == 30_000
        &&& self.sample_rate is None
        &&& self.end_silence_ms is None
    }
}

impl Default for AudioConfig {
    /// The thresholds are 0.5 and the single-precision 0.01.
    fn default() -> (r: AudioConfig)
        ensures
            r.is_default(),
    {
        AudioConfig {
            device: None,
            vad_threshold: Double { bits: 0x3fe0_0000_0000_0000 },
            speech_threshold: Double { bits: 0x3f84_7ae1_4000_0000 },
            max_utterance_ms: 30_000,
            min_utterance_ms: 250,
            max_hold_ms: 30_000,
            sample_rate: None,
            end_silence_ms: None,
        }
    }
}

impl AudioConfig {
    /// What is said at start of each key that is set and does nothing.
    pub fn ignored(&self) -> (r: Vec<&'static str>)
        ensures
            crate::text::strs(r@) == (if self.sample_rate is Some {
                seq!["audio.sample_rate is ignored: capture is always resampled to 16 kHz"@]
            } else {
                Seq::empty()
            }) + (if self.end_silence_ms is Some {
                seq![
                    "audio.end_silence_ms is ignored: the energy gate has no end-of-speech timeout"@,
                ]
            } else {
                Seq::empty()
            }),
    {
        let mut out: Vec<&'static str> = Vec::new();
        if self.sample_rate.is_some() {
            out.push("audio.sample_rate is ignored: capture is always resampled to 16 kHz");
        }
        if self.end_silence_ms.is_some() {
            out.push(
                "audio.end_silence_ms is ignored: the energy gate has no end-of-speech timeout",
            );
        }
        assert(crate::text::strs(out@) =~= (if self.sample_rate is Some {
            seq!["audio.sample_rate is ignored: capture is always resampled to 16 kHz"@]
        } else {
            Seq::empty()
        }) + (if self.end_silence_ms is Some {
            seq!["audio.end_silence_ms is ignored: the energy gate has no end-of-speech timeout"@]
        } else {
            Seq::empty()
        }));
        out
    }
}

/// Speech recognition.
#[derive(Clone, Debug)]
pub struct AsrConfig {
    /// Path to the model file.
    pub model_path: String,
    /// Path to the voice activity model. Without the file the energy gate
    /// takes its place.
    pub vad_model_path: String,
    /// Language code, or "auto" to detect.
    pub language: String,
    pub threads: usize,
    /// Biases the model toward domain vocabulary.
    pub initial_prompt: Option<String>,
    /// Phrases the model invents on silence.
    pub hallucination_blocklist: Vec<String>,
}

impl AsrConfig {
    /// Every value as it is where the config sets nothing, with the models in
    /// the directory `models`.
    pub open spec fn is_default_in(&self, models: Seq<char>) -> bool {
        &&& self.model_path@ == below(models, "ggml-large-v3-turbo.bin"@)
        &&& self.vad_model_path@ == below(models, "ggml-silero-v5.1.2.bin"@)
        &&& self.language@ == "en"@
        &&& self.threads == 4
        &&& self.initial_prompt is None
        &&& crate::text::texts(self.hallucination_blocklist@) == default_blocklist()
    }

    /// The defaults with the models in the directory `models`.
    pub fn in_dir(models: &str) -> (r: AsrConfig)
        ensures
            r.is_default_in(models@),
    {
        let blocklist = vec![
            "thank you".to_string(),
            "thanks for watching".to_string(),
            "the end".to_string(),
            "subtitle".to_string(),
        ];
        assert(crate::text::texts(blocklist@) =~= default_blocklist());
        AsrConfig {
            model_path: path_below(models, "ggml-large-v3-turbo.bin"),
            vad_model_path: path_below(models, "ggml-silero-v5.1.2.bin"),
            language: "en".to_string(),
            threads: 4,
            initial_prompt: None,
            hallucination_blocklist: blocklist,
        }
    }
}

/// The phrases dropped by default.
pub open spec fn default_blocklist() -> Seq<Seq<char>> {
    seq!["thank you"@, "thanks for watching"@, "the end"@, "subtitle"@]
}

impl Default for AsrConfig {
    /// The defaults where neither XDG_DATA_HOME nor HOME is set.
    fn default() -> (r: AsrConfig)
        ensures
            r.is_default_in(bare_models_dir()),
    {
        let models = models_dir(None, None);
        AsrConfig::in_dir(models.as_str())
    }
}

/// Commands.
#[derive(Clone, Debug)]
pub struct RouterConfig {
    /// Extra grammar rules.
    pub grammar_file: Option<String>,
    /// Play audio cues on record start and stop.
    pub cues: bool,
    /// Show a notification with the action result.
    pub notify_results: bool,
    /// How long a "say yes" prompt stays answerable.
    pub confirm_window_ms: u64,
    /// The name the coding assistant goes by.
    pub assistant: String,
}

/// The name the coding assistant goes by where the config sets none: the one
/// that the intents for it carry.
pub open spec fn assistant_name() -> Seq<char> {
    crate::text::capitalized(crate::text::pieces("claude_tell"@, '_')[0])
}

fn default_assistant() -> (r: String)
    ensures
        r@ == assistant_name(),
{
    let parts = split_on("claude_tell", '_');
    proof {
        crate::text::lemma_pieces_some("claude_tell"@, '_');
        assert(crate::text::texts(parts@)[0] == parts@[0]@);
    }
    capitalize(parts[0].as_str())
}

impl RouterConfig {
    /// Every value as it is where the config sets nothing.
    pub open spec fn is_default(&self) -> bool {
        &&& self.grammar_file is None
        &&& self.cues
        &&& self.notify_results
        &&& self.confirm_window_ms == 8_000
        &&& self.assistant@ == assistant_name()
    }
}

impl Default for RouterConfig {
    fn default() -> (r: RouterConfig)
        ensures
            r.is_default(),
    {
        RouterConfig {
            grammar_file: None,
            cues: true,
            notify_results: true,
            confirm_window_ms: 8_000,
            assistant: default_assistant(),
        }
    }
}

/// All settings.
#[derive(Clone)]
pub struct DaemonConfig {
    pub hotkeys: HotkeyConfig,
    pub audio: AudioConfig,
    pub asr: AsrConfig,
    pub router: RouterConfig,
    /// The model both the judged path and dictation cleanup share.
    pub local: LocalConfig,
    pub judge: JudgeConfig,
    pub flow: FlowConfig,
}

impl DaemonConfig {
    /// Every value as it is where the config sets nothing, with the models in
    /// the directory `models`.
    pub open spec fn is_default_in(&self, models: Seq<char>) -> bool {
        &&& self.hotkeys.is_default()
        &&& self.audio.is_default()
        &&& self.asr.is_default_in(models)
        &&& self.router.is_default()
        &&& self.local.is_default_in(models)
        &&& self.judge.is_default()
        &&& self.flow.is_default()
    }

    /// The defaults with the models in the directory `models`.
    pub fn in_dir(models: &str) -> (r: DaemonConfig)
        ensures
            r.is_default_in(models@),
    {
        DaemonConfig {
            hotkeys: HotkeyConfig::default(),
            audio: AudioConfig::default(),
            asr: AsrConfig::in_dir(models),
            router: RouterConfig::default(),
            local: LocalConfig::in_dir(models),
            judge: JudgeConfig::default(),
            flow: FlowConfig::default(),
        }
    }
}

impl Default for DaemonConfig {
    /// The defaults where neither XDG_DATA_HOME nor HOME is set.
    fn default() -> (r: DaemonConfig)
        ensures
            r.is_default_in(bare_models_dir()),
    {
        let models = models_dir(None, None);
        DaemonConfig::in_dir(models.as_str())
    }
}

/// A value that would only fail later.
#[allow(inconsistent_fields)]
#[derive(Clone, Debug, PartialEq, Eq)]
pub enum ConfigError {
    /// Not a probability or normalised level.
    NotUnit { name: &'static str, value: Double },
    /// Zero where something is needed.
    NotPositive { name: &'static str },
    /// The shortest utterance kept is longer than the longest.
    MinAboveMax { min: u64, max: u64 },
    /// No language code.
    NoLanguage,
    /// A hotkey that cannot be read.
    BadChord { name: &'static str, error: ChordError },
    /// The floor is above the level at which to act unasked.
    FloorAboveAct { min: Double, act: Double },
    /// Too little context for one question.
    SmallContext,
    /// No server to ask.
    NoBaseUrl,
}

/// A [`ConfigError`] with its texts as character sequences.
#[allow(inconsistent_fields)]
pub ghost enum ConfigErrorView {
    NotUnit { name: Seq<char>, value: Double },
    NotPositive { name: Seq<char> },
    MinAboveMax { min: u64, max: u64 },
    NoLanguage,
    BadChord { name: Seq<char>, error: ChordErrorView },
    FloorAboveAct { min: Double, act: Double },
    SmallContext,
    NoBaseUrl,
}

impl View for ConfigError {
    type V = ConfigErrorView;

    open spec fn view(&self) -> ConfigErrorView {
        match *self {
            ConfigError::NotUnit { name, value } => ConfigErrorView::NotUnit { name: name@, value },
            ConfigError::NotPositive { name } => ConfigErrorView::NotPositive { name: name@ },
            ConfigError::MinAboveMax { min, max } => ConfigErrorView::MinAboveMax { min, max },
            ConfigError::NoLanguage => ConfigErrorView::NoLanguage,
            ConfigError::BadChord { name, error } => ConfigErrorView::BadChord {
                name: name@,
                error: error@,
            },
            ConfigError::FloorAboveAct { min, act } => ConfigErrorView::FloorAboveAct { min, act },
            ConfigError::SmallContext => ConfigErrorView::SmallContext,
            ConfigError::NoBaseUrl => ConfigErrorView::NoBaseUrl,
        }
    }
}

/// The key combination of a chord as it is written.
pub open spec fn chord_value(chord: Seq<char>) -> Result<u32, ChordErrorView> {
    crate::hotkeys::combination(crate::hotkeys::chord_parts(chord))
}

/// Whether an optional threshold, where it is set, is no probability.
pub open spec fn bad_threshold(v: Option<Double>) -> bool {
    v matches Some(v) && !v.unit()
}

impl DaemonConfig {
    /// The first value that is refused, in the order of the checks.
    pub open spec fn problem(&self) -> Option<ConfigErrorView> {
        let t = self.judge.resolved();
        if !self.audio.speech_threshold.unit() {
            Some(
                ConfigErrorView::NotUnit {
                    name: "audio.speech_threshold"@,
                    value: self.audio.speech_threshold,
                },
            )
        } else if !self.audio.vad_threshold.unit() {
            Some(
                ConfigErrorView::NotUnit {
                    name: "audio.vad_threshold"@,
                    value: self.audio.vad_threshold,
                },
            )
        } else if self.audio.max_utterance_ms == 0 {
            Some(ConfigErrorView::NotPositive { name: "audio.max_utterance_ms"@ })
        } else if self.audio.max_hold_ms == 0 {
            Some(ConfigErrorView::NotPositive { name: "audio.max_hold_ms"@ })
        } else if self.audio.min_utterance_ms > self.audio.max_utterance_ms {
            Some(
                ConfigErrorView::MinAboveMax {
                    min: self.audio.min_utterance_ms,
                    max: self.audio.max_utterance_ms,
                },
            )
        } else if self.asr.threads == 0 {
            Some(ConfigErrorView::NotPositive { name: "asr.threads"@ })
        } else if self.router.confirm_window_ms == 0 {
            Some(ConfigErrorView::NotPositive { name: "router.confirm_window_ms"@ })
        } else if crate::text::trimmed(self.asr.language@).len() == 0 {
            Some(ConfigErrorView::NoLanguage)
        } else if chord_value(self.hotkeys.dictate@) is Err {
            Some(
                ConfigErrorView::BadChord {
                    name: "hotkeys.dictate"@,
                    error: chord_value(self.hotkeys.dictate@)->Err_0,
                },
            )
        } else if chord_value(self.hotkeys.command@) is Err {
            Some(
                ConfigErrorView::BadChord {
                    name: "hotkeys.command"@,
                    error: chord_value(self.hotkeys.command@)->Err_0,
                },
            )
        } else if self.judge.timeout_ms == 0 {
            Some(ConfigErrorView::NotPositive { name: "judge.timeout_ms"@ })
        } else if bad_threshold(self.judge.min_confidence) {
            Some(
                ConfigErrorView::NotUnit {
                    name: "judge.min_confidence"@,
                    value: self.judge.min_confidence->0,
                },
            )
        } else if bad_threshold(self.judge.act_unconfirmed_above) {
            Some(
                ConfigErrorView::NotUnit {
                    name: "judge.act_unconfirmed_above"@,
                    value: self.judge.act_unconfirmed_above->0,
                },
            )
        } else if bad_threshold(self.judge.dictation_threshold) {
            Some(
                ConfigErrorView::NotUnit {
                    name: "judge.dictation_threshold"@,
                    value: self.judge.dictation_threshold->0,
                },
            )
        } else if bad_threshold(self.judge.destructive_threshold) {
            Some(
                ConfigErrorView::NotUnit {
                    name: "judge.destructive_threshold"@,
                    value: self.judge.destructive_threshold->0,
                },
            )
        } else if !t.min_confidence.le(t.act_unconfirmed_above) {
            Some(
                ConfigErrorView::FloorAboveAct {
                    min: t.min_confidence,
                    act: t.act_unconfirmed_above,
                },
            )
        } else if self.local.context_tokens < 512 {
            Some(ConfigErrorView::SmallContext)
        } else if self.local.threads == 0 {
            Some(ConfigErrorView::NotPositive { name: "local.threads"@ })
        } else if self.flow.timeout_ms == 0 {
            Some(ConfigErrorView::NotPositive { name: "flow.timeout_ms"@ })
        } else if self.flow.max_tokens == 0 {
            Some(ConfigErrorView::NotPositive { name: "flow.max_tokens"@ })
        } else if self.flow.learn_after_ms == 0 {
            Some(ConfigErrorView::NotPositive { name: "flow.learn_after_ms"@ })
        } else if crate::text::trimmed(self.flow.openai.base_url@).len() == 0 {
            Some(ConfigErrorView::NoBaseUrl)
        } else {
            None
        }
    }

    /// Reject values that would only fail later.
    pub fn validate(&self) -> (r: Result<(), ConfigError>)
        ensures
            match r {
                Ok(_) => self.problem() is None,
                Err(e) => self.problem() == Some(e@),
            },
    {
        let a = &self.audio;
        check_unit("audio.speech_threshold", a.speech_threshold)?;
        check_unit("audio.vad_threshold", a.vad_threshold)?;
        check_positive("audio.max_utterance_ms", a.max_utterance_ms)?;
        check_positive("audio.max_hold_ms", a.max_hold_ms)?;
        if a.min_utterance_ms > a.max_utterance_ms {
            return Err(
                ConfigError::MinAboveMax { min: a.min_utterance_ms, max: a.max_utterance_ms },
            );
        }
        check_positive("asr.threads", self.asr.threads as u64)?;
        check_positive("router.confirm_window_ms", self.router.confirm_window_ms)?;
        if is_blank(self.asr.language.as_str()) {
            return Err(ConfigError::NoLanguage);
        }
        check_chord("hotkeys.dictate", self.hotkeys.dictate.as_str())?;
        check_chord("hotkeys.command", self.hotkeys.command.as_str())?;
        let j = &self.judge;
        check_positive("judge.timeout_ms", j.timeout_ms)?;
        check_threshold("judge.min_confidence", j.min_confidence)?;
        check_threshold("judge.act_unconfirmed_above", j.act_unconfirmed_above)?;
        check_threshold("judge.dictation_threshold", j.dictation_threshold)?;
        check_threshold("judge.destructive_threshold", j.destructive_threshold)?;
        let t = j.thresholds();
        if !t.act_unconfirmed_above.at_least(t.min_confidence) {
            return Err(
                ConfigError::FloorAboveAct { min: t.min_confidence, act: t.act_unconfirmed_above },
            );
        }
        if self.local.context_tokens < 512 {
            return Err(ConfigError::SmallContext);
        }
        check_positive("local.threads", self.local.threads as u64)?;
        let fl = &self.flow;
        check_positive("flow.timeout_ms", fl.timeout_ms)?;
        check_positive("flow.max_tokens", fl.max_tokens as u64)?;
        check_positive("flow.learn_after_ms", fl.learn_after_ms)?;
        if is_blank(fl.openai.base_url.as_str()) {
            return Err(ConfigError::NoBaseUrl);
        }
        Ok(())
    }
}

/// A probability or normalised level: a number within [0, 1].
fn check_unit(name: &'static str, v: Double) -> (r: Result<(), ConfigError>)
    ensures
        match r {
            Ok(_) => v.unit(),
            Err(e) => !v.unit() && e@ == (ConfigErrorView::NotUnit { name: name@, value: v }),
        },
{
    if v.is_unit() {
        Ok(())
    } else {
        Err(ConfigError::NotUnit { name, value: v })
    }
}

fn check_threshold(name: &'static str, v: Option<Double>) -> (r: Result<(), ConfigError>)
    ensures
        match r {
            Ok(_) => !bad_threshold(v),
            Err(e) => bad_threshold(v) && e@ == (ConfigErrorView::NotUnit {
                name: name@,
                value: v->0,
            }),
        },
{
    match v {
        Some(v) => check_unit(name, v),
        None => Ok(()),
    }
}

fn check_positive(name: &'static str, v: u64) -> (r: Result<(), ConfigError>)
    ensures
        match r {
            Ok(_) => v > 0,
            Err(e) => v == 0 && e@ == (ConfigErrorView::NotPositive { name: name@ }),
        },
{
    if v > 0 {
        Ok(())
    } else {
        Err(ConfigError::NotPositive { name })
    }
}

fn check_chord(name: &'static str, chord: &str) -> (r: Result<(), ConfigError>)
    ensures
        match r {
            Ok(_) => chord_value(chord@) is Ok,
            Err(e) => chord_value(chord@) is Err && e@ == (ConfigErrorView::BadChord {
                name: name@,
                error: chord_value(chord@)->Err_0,
            }),
        },
{
    match parse_chord(chord) {
        Ok(_) => Ok(()),
        Err(error) => Err(ConfigError::BadChord { name, error }),
    }
}

/// A config that passes keeps the policy's floor at or below the level at
/// which it acts unasked, both within [0, 1], whichever of the two the config
/// sets.
pub proof fn law_valid_thresholds_are_ordered(c: DaemonConfig)
    requires
        c.problem() is None,
    ensures
        c.judge.resolved().min_confidence.unit(),
        c.judge.resolved().act_unconfirmed_above.unit(),
        c.judge.resolved().dictation_threshold.unit(),
        c.judge.resolved().destructive_threshold.unit(),
        c.judge.resolved().min_confidence.le(c.judge.resolved().act_unconfirmed_above),
{
}

/// A key that is set wins over the backend's table, for that key only: setting
/// one leaves the others as they were, and with none set the table applies.
pub proof fn law_each_key_overrides_itself_alone(c: JudgeConfig, v: Double)
    ensures
        (JudgeConfig { min_confidence: Some(v), ..c }).resolved() == (Thresholds {
            min_confidence: v,
            ..c.resolved()
        }),
        (JudgeConfig { act_unconfirmed_above: Some(v), ..c }).resolved() == (Thresholds {
            act_unconfirmed_above: v,
            ..c.resolved()
        }),
        (JudgeConfig { dictation_threshold: Some(v), ..c }).resolved() == (Thresholds {
            dictation_threshold: v,
            ..c.resolved()
        }),
        (JudgeConfig { destructive_threshold: Some(v), ..c }).resolved() == (Thresholds {
            destructive_threshold: v,
            ..c.resolved()
        }),
        c.min_confidence is None && c.act_unconfirmed_above is None && c.dictation_threshold is None
            && c.destructive_threshold is None ==> c.resolved() == c.backend.default_thresholds(),
{
}

/// The key before which the thresholds are explained.
pub const TITLES_KEY: &'static str = "send_window_titles = ";

/// What a printed config says of the thresholds: the numbers of both backends,
/// and each key commented out, so that it follows the backend until it is set.
pub const THRESHOLD_NOTE: &'static str = "# Defaults depend on the backend: local 0.35/0.65/0.4/0.8, typesafe 0.45/0.75/0.5/0.6; set a key to override.\n# min_confidence = 0.35\n# act_unconfirmed_above = 0.65\n# dictation_threshold = 0.4\n# destructive_threshold = 0.8\n";

/// A printed config with the thresholds explained; None unless the key before
/// which they stand is there exactly once.
pub open spec fn with_note(text: Seq<char>) -> Option<Seq<char>> {
    match crate::text::first_at(text, TITLES_KEY@) {
        None => None,
        Some(i) => if crate::text::first_at(
            text.skip(i + TITLES_KEY@.len()),
            TITLES_KEY@,
        ) is Some {
            None
        } else {
            Some(text.take(i) + THRESHOLD_NOTE@ + text.skip(i))
        },
    }
}

/// A printed config with the thresholds explained.
pub fn explain_thresholds(text: &str) -> (r: Option<String>)
    ensures
        crate::intent::opt_text(r) == with_note(text@),
{
    let v = to_chars(text);
    let k = to_chars(TITLES_KEY);
    proof {
        reveal_strlit("send_window_titles = ");
    }
    match find_in(&v, &k) {
        None => None,
        Some(i) => {
            let len: usize = v.len();
            let rest = slice_text(&v, i + k.len(), len);
            assert(rest@ =~= text@.skip(i + k@.len()));
            let r = to_chars(rest.as_str());
            if find_in(&r, &k).is_some() {
                return None;
            }
            let head = slice_text(&v, 0, i);
            let tail = slice_text(&v, i, v.len());
            assert(head@ =~= text@.take(i as int));
            assert(tail@ =~= text@.skip(i as int));
            Some(concat3(head.as_str(), THRESHOLD_NOTE, tail.as_str()))
        },
    }
}

/// The note is put before its key and changes nothing else.
pub proof fn law_note_only_adds(text: Seq<char>)
    ensures
        with_note(text) matches Some(t) ==> exists|i: int|
            0 <= i <= text.len() && t == #[trigger] text.take(i) + THRESHOLD_NOTE@ + text.skip(i),
{
    if with_note(text) is Some {
        crate::text::lemma_first_at(text, TITLES_KEY@);
        let i = crate::text::first_at(text, TITLES_KEY@)->0;
        assert(with_note(text)->0 == text.take(i) + THRESHOLD_NOTE@ + text.skip(i));
    }
}

impl JudgeConfig {
    /// Whether window titles go into the questions: always for a local model,
    /// over the network only where the config allows it.
    pub fn sends_titles(&self) -> (r: bool)
        ensures
            r == (self.backend == Backend::Local || self.send_window_titles),
    {
        self.backend == Backend::Local || self.send_window_titles
    }
}

/// The defaults are refused for nothing but a chord.
pub proof fn law_defaults_are_valid(c: DaemonConfig, models: Seq<char>)
    requires
        c.is_default_in(models),
    ensures
        c.problem() matches Some(e) ==> e is BadChord,
{
    reveal_strlit("en");
    reveal_strlit("https://api.openai.com/v1");
    lemma_not_blank(c.asr.language@);
    lemma_not_blank(c.flow.openai.base_url@);
}

/// A text that starts with something other than whitespace is not blank.
proof fn lemma_not_blank(s: Seq<char>)
    requires
        s.len() > 0,
        !crate::text::white_space(s[0]),
    ensures
        crate::text::trimmed(s).len() > 0,
{
    let p = |c: char| crate::text::white_space(c);
    crate::text::lemma_drop_front_is(s, p, 0);
    assert(s.skip(0) =~= s);
    crate::text::lemma_drop_back(s, p);
    if crate::text::drop_back(s, p).len() == 0 {
        assert(p(s[0]));
    }
}

/// A path below a directory begins with the directory, ends with what stands
/// below it, and has one slash between them.
pub proof fn law_paths_are_joined_by_one_slash(base: Seq<char>, rel: Seq<char>)
    ensures
        below(Seq::empty(), rel) == rel,
        base.len() > 0 && base.last() != '/' ==> below(base, rel) == base.push('/') + rel,
        base.len() > 0 && base.last() == '/' ==> below(base, rel) == base + rel,
        base.len() > 0 && base.last() != '/' ==> below(base, rel) == below(base.push('/'), rel),
{
    reveal_strlit("/");
    assert(base + "/"@ =~= base.push('/'));
}

/// What the variable names wins; without it the directory is below the home,
/// and without a home below /tmp.
pub proof fn law_variables_name_directories(v: Seq<char>, home: Seq<char>, fallback: Seq<char>)
    ensures
        xdg_dir(Some(v), Some(home), fallback) == v,
        xdg_dir(Some(v), None, fallback) == v,
        xdg_dir(None, Some(home), fallback) == below(home, fallback),
        xdg_dir(None, None, fallback) == xdg_dir(None, Some("/tmp"@), fallback),
{
}

/// A config is accepted exactly when every value it sets can be used: levels
/// and probabilities within [0, 1], the floor not above the level to act at,
/// times and counts above nothing, chords that can be read, a language, a
/// server and enough context.
pub proof fn law_configs_that_can_be_used(c: DaemonConfig)
    ensures
        c.problem() is None <==> {
            &&& c.audio.speech_threshold.unit()
            &&& c.audio.vad_threshold.unit()
            &&& c.audio.max_utterance_ms > 0
            &&& c.audio.max_hold_ms > 0
            &&& c.audio.min_utterance_ms <= c.audio.max_utterance_ms
            &&& c.asr.threads > 0
            &&& c.router.confirm_window_ms > 0
            &&& crate::text::trimmed(c.asr.language@).len() > 0
            &&& chord_value(c.hotkeys.dictate@) is Ok
            &&& chord_value(c.hotkeys.command@) is Ok
            &&& c.judge.timeout_ms > 0
            &&& c.judge.min_confidence is Some ==> c.judge.min_confidence->0.unit()
            &&& c.judge.act_unconfirmed_above is Some ==> c.judge.act_unconfirmed_above->0.unit()
            &&& c.judge.dictation_threshold is Some ==> c.judge.dictation_threshold->0.unit()
            &&& c.judge.destructive_threshold is Some ==> c.judge.destructive_threshold->0.unit()
            &&& c.judge.resolved().min_confidence.le(c.judge.resolved().act_unconfirmed_above)
            &&& c.local.context_tokens >= 512
            &&& c.local.threads > 0
            &&& c.flow.timeout_ms > 0
            &&& c.flow.max_tokens > 0
            &&& c.flow.learn_after_ms > 0
            &&& crate::text::trimmed(c.flow.openai.base_url@).len() > 0
        },
{
}

/// A refusal names the value it is about.
pub proof fn law_refused_values_are_the_ones_named(c: DaemonConfig)
    ensures
        c.problem() matches Some(ConfigErrorView::NotUnit { name, value }) ==> !value.unit() && (
        name == "audio.speech_threshold"@ && value == c.audio.speech_threshold || name
            == "audio.vad_threshold"@ && value == c.audio.vad_threshold || name
            == "judge.min_confidence"@ && c.judge.min_confidence == Some(value) || name
            == "judge.act_unconfirmed_above"@ && c.judge.act_unconfirmed_above == Some(value)
            || name == "judge.dictation_threshold"@ && c.judge.dictation_threshold == Some(value)
            || name == "judge.destructive_threshold"@ && c.judge.destructive_threshold == Some(
            value,
        )),
        c.problem() matches Some(ConfigErrorView::NotPositive { name }) ==> (name
            == "audio.max_utterance_ms"@ && c.audio.max_utterance_ms == 0 || name
            == "audio.max_hold_ms"@ && c.audio.max_hold_ms == 0 || name == "asr.threads"@
            && c.asr.threads == 0 || name == "router.confirm_window_ms"@
            && c.router.confirm_window_ms == 0 || name == "judge.timeout_ms"@ && c.judge.timeout_ms
            == 0 || name == "local.threads"@ && c.local.threads == 0 || name == "flow.timeout_ms"@
            && c.flow.timeout_ms == 0 || name == "flow.max_tokens"@ && c.flow.max_tokens == 0
            || name == "flow.learn_after_ms"@ && c.flow.learn_after_ms == 0),
        c.problem() matches Some(ConfigErrorView::MinAboveMax { min, max }) ==> min > max && min
            == c.audio.min_utterance_ms && max == c.audio.max_utterance_ms,
        c.problem() matches Some(ConfigErrorView::BadChord { name, error }) ==> (name
            == "hotkeys.dictate"@ && chord_value(c.hotkeys.dictate@) == Err::<u32, ChordErrorView>(
            error,
        ) || name == "hotkeys.command"@ && chord_value(c.hotkeys.command@) == Err::<
            u32,
            ChordErrorView,
        >(error)),
        c.problem() matches Some(ConfigErrorView::FloorAboveAct { min, act }) ==> !min.le(act)
            && min == c.judge.resolved().min_confidence && act
            == c.judge.resolved().act_unconfirmed_above,
{
}

/// The note stands right before its key, and only where the key is there once.
pub proof fn law_note_stands_before_its_key(text: Seq<char>)
    ensures
        match with_note(text) {
            Some(t) => exists|i: int|
                0 <= i && i + TITLES_KEY@.len() <= text.len() && #[trigger] text.subrange(
                    i,
                    i + TITLES_KEY@.len(),
                ) == TITLES_KEY@ && t == text.take(i) + THRESHOLD_NOTE@ + text.skip(i) && !(exists|
                    j: int,
                |
                    0 <= j < i && #[trigger] text.subrange(j, j + TITLES_KEY@.len())
                        == TITLES_KEY@),
            None => !crate::text::occurs(text, TITLES_KEY@) || exists|i: int, j: int|
                0 <= i && i + TITLES_KEY@.len() <= j && j + TITLES_KEY@.len() <= text.len()
                    && #[trigger] text.subrange(i, i + TITLES_KEY@.len()) == TITLES_KEY@
                    && #[trigger] text.subrange(j, j + TITLES_KEY@.len()) == TITLES_KEY@,
        },
{
    let key = TITLES_KEY@;
    let n = key.len() as int;
    crate::text::law_first_occurrence_is_found(text, key);
    match crate::text::first_at(text, key) {
        None => {},
        Some(i) => {
            let rest = text.skip(i + n);
            crate::text::law_first_occurrence_is_found(rest, key);
            match crate::text::first_at(rest, key) {
                None => {
                    assert(text.subrange(i, i + n) == key);
                },
                Some(k) => {
                    let j = i + n + k;
                    assert(text.subrange(j, j + n) =~= rest.subrange(k, k + n));
                    assert(text.subrange(i, i + n) == key);
                },
            }
        },
    }
}

/// A key says something exactly when it is not all whitespace.
pub proof fn law_blank_keys_say_nothing(key: Seq<char>)
    ensures
        !says_something(None),
        says_something(Some(key)) <==> exists|i: int|
            0 <= i < key.len() && !crate::text::white_space(#[trigger] key[i]),
{
    let (a, b) = crate::text::law_trimming_takes_only_whitespace(key);
    let t = crate::text::trimmed(key);
    if t.len() > 0 {
        assert(key[a] == t[0]);
    }
}

} // verus!
