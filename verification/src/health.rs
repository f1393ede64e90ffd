//! What the self-check says: one line for each thing it looked at.
use vstd::prelude::*;

use crate::config::DaemonConfig;
use crate::corpus::pad;
use crate::dbus::NAME;
use crate::text::{concat2, concat3, decimal_text, hex_text};

verus! {

/// What is said of a model file that is not there.
pub const MODEL_MISSING: &'static str = "NO \u{2014} run scripts/fetch-model.sh";

/// The column a file's name takes.
pub const COLUMN: usize = 14;

/// What became of a file that a person edits.
#[derive(Debug)]
pub struct FileState {
    /// What the file is.
    pub what: String,
    pub path: String,
    /// Whether it was written yet.
    pub written: bool,
    /// What it holds, or why it cannot be read.
    pub held: Result<String, String>,
}

/// The line on a file.
pub open spec fn file_line(f: FileState) -> Seq<char> {
    crate::corpus::padded(f.what@, COLUMN as nat) + " "@ + match f.held {
        Ok(c) => c@ + " ("@ + f.path@ + (if f.written {
            ""@
        } else {
            ", not written yet"@
        }) + ")"@,
        Err(e) => "FAILED: "@ + e@,
    }
}

impl FileState {
    /// The line on the file.
    pub fn line(&self) -> (r: String)
        ensures
            r@ == file_line(*self),
    {
        let column = pad(self.what.as_str(), COLUMN);
        let said = match &self.held {
            Ok(c) => {
                let note = if self.written {
                    ""
                } else {
                    ", not written yet"
                };
                let mut s = concat3(c.as_str(), " (", self.path.as_str());
                s.append(note);
                s.append(")");
                s
            },
            Err(e) => concat2("FAILED: ", e.as_str()),
        };
        concat3(column.as_str(), " ", said.as_str())
    }
}

/// What the check found out about the files and settings.
#[derive(Debug)]
pub struct Found {
    pub config_path: String,
    pub model_present: bool,
    /// The voice activity gate in use.
    pub gate: String,
    pub local_present: bool,
    pub files: Vec<FileState>,
    pub history_path: String,
}

/// Whether a model file is there.
pub open spec fn presence(present: bool) -> Seq<char> {
    if present {
        "yes"@
    } else {
        MODEL_MISSING@
    }
}

fn presence_text(present: bool) -> (r: &'static str)
    ensures
        r@ == presence(present),
{
    if present {
        "yes"
    } else {
        MODEL_MISSING
    }
}

/// The lines on the models.
pub open spec fn model_lines(cfg: DaemonConfig, found: Found) -> Seq<Seq<char>> {
    seq![
        "config path:   "@ + found.config_path@,
        "model path:    "@ + cfg.asr.model_path@,
        "model present: "@ + presence(found.model_present),
        "vad:           "@ + found.gate@,
        "local model:   "@ + cfg.local.model_path@,
        "local present: "@ + presence(found.local_present),
    ]
}

/// The lines on the judged path: the backend and the thresholds in force.
pub open spec fn judge_lines(cfg: DaemonConfig) -> Seq<Seq<char>> {
    let t = cfg.judge.resolved();
    if cfg.judge.enabled {
        seq![
            "judge:         "@ + cfg.judge.backend.spelled() + " backend"@,
            "thresholds:    min_confidence "@ + t.min_confidence.two_decimals()
                + " act_unconfirmed_above "@ + t.act_unconfirmed_above.two_decimals()
                + " dictation "@ + t.dictation_threshold.two_decimals() + " destructive "@
                + t.destructive_threshold.two_decimals(),
        ]
    } else {
        seq!["judge:         disabled"@]
    }
}

/// The line on dictation cleanup.
pub open spec fn cleanup_line(cfg: DaemonConfig) -> Seq<char> {
    if cfg.flow.cleanup {
        "cleanup:       "@ + cfg.flow.backend.spelled() + " backend"@
    } else {
        "cleanup:       off"@
    }
}

/// The line on the history.
pub open spec fn history_line(cfg: DaemonConfig, found: Found) -> Seq<char> {
    "history:       "@ + if cfg.flow.history {
        found.history_path@
    } else {
        "off"@
    }
}

/// Every line that the files and settings alone decide.
pub open spec fn settings_lines_of(cfg: DaemonConfig, found: Found) -> Seq<Seq<char>> {
    model_lines(cfg, found) + judge_lines(cfg) + seq![cleanup_line(cfg)]
        + found.files@.map_values(|f: FileState| file_line(f)) + seq![history_line(cfg, found)]
}

fn add_judge(cfg: &DaemonConfig, out: &mut Vec<String>)
    ensures
        crate::text::texts(final(out)@) == crate::text::texts(old(out)@) + judge_lines(*cfg),
{
    if cfg.judge.enabled {
        let t = cfg.judge.thresholds();
        out.push(concat3("judge:         ", cfg.judge.backend.name(), " backend"));
        let min = t.min_confidence.shown();
        let act = t.act_unconfirmed_above.shown();
        let dictation = t.dictation_threshold.shown();
        let destructive = t.destructive_threshold.shown();
        let mut line = concat3("thresholds:    min_confidence ", min.as_str(), " act_unconfirmed_above ");
        line.append(act.as_str());
        line.append(" dictation ");
        line.append(dictation.as_str());
        line.append(" destructive ");
        line.append(destructive.as_str());
        out.push(line);
    } else {
        out.push("judge:         disabled".to_string());
    }
    assert(crate::text::texts(out@) =~= crate::text::texts(old(out)@) + judge_lines(*cfg));
}

fn add_files(files: &Vec<FileState>, out: &mut Vec<String>)
    ensures
        crate::text::texts(final(out)@) == crate::text::texts(old(out)@) + files@.map_values(
            |f: FileState| file_line(f),
        ),
{
    let ghost before = crate::text::texts(out@);
    let ghost lines = files@.map_values(|f: FileState| file_line(f));
    let mut i: usize = 0;
    assert(crate::text::texts(out@) =~= before + lines.take(0));
    while i < files.len()
        invariant
            i <= files@.len(),
            lines == files@.map_values(|f: FileState| file_line(f)),
            crate::text::texts(out@) == before + lines.take(i as int),
        decreases files@.len() - i,
    {
        let line = files[i].line();
        assert(line@ == lines[i as int]);
        let ghost had = crate::text::texts(out@);
        out.push(line);
        assert(crate::text::texts(out@) =~= had.push(lines[i as int]));
        assert(crate::text::texts(out@) =~= before + lines.take(i + 1));
        i = i + 1;
    }
    assert(lines.take(i as int) =~= lines);
}

/// Every line that the files and settings alone decide.
pub fn settings_lines(cfg: &DaemonConfig, found: &Found) -> (r: Vec<String>)
    ensures
        crate::text::texts(r@) == settings_lines_of(*cfg, *found),
{
    let mut out: Vec<String> = vec![
        concat2("config path:   ", found.config_path.as_str()),
        concat2("model path:    ", cfg.asr.model_path.as_str()),
        concat2("model present: ", presence_text(found.model_present)),
        concat2("vad:           ", found.gate.as_str()),
        concat2("local model:   ", cfg.local.model_path.as_str()),
        concat2("local present: ", presence_text(found.local_present)),
    ];
    assert(crate::text::texts(out@) =~= model_lines(*cfg, *found));
    add_judge(cfg, &mut out);
    let ghost judged = crate::text::texts(out@);
    let cleanup = if cfg.flow.cleanup {
        concat3("cleanup:       ", cfg.flow.backend.name(), " backend")
    } else {
        "cleanup:       off".to_string()
    };
    out.push(cleanup);
    assert(crate::text::texts(out@) =~= judged + seq![cleanup_line(*cfg)]);
    add_files(&found.files, &mut out);
    let ghost listed = crate::text::texts(out@);
    let history = if cfg.flow.history {
        concat2("history:       ", found.history_path.as_str())
    } else {
        concat2("history:       ", "off")
    };
    out.push(history);
    assert(crate::text::texts(out@) =~= listed + seq![history_line(*cfg, *found)]);
    out
}

/// The line on the hotkeys, with the key combinations they come to.
pub fn hotkey_line(cfg: &DaemonConfig, dictate: u32, command: u32) -> (r: String)
    ensures
        r@ == "hotkeys:       dictate="@ + cfg.hotkeys.dictate@ + " command="@
            + cfg.hotkeys.command@ + " (parsed: 0x"@ + crate::text::hex(dictate as nat) + " 0x"@
            + crate::text::hex(command as nat) + ")"@,
{
    let a = hex_text(dictate as u64);
    let b = hex_text(command as u64);
    let mut out = concat3("hotkeys:       dictate=", cfg.hotkeys.dictate.as_str(), " command=");
    out.append(cfg.hotkeys.command.as_str());
    out.append(" (parsed: 0x");
    out.append(a.as_str());
    out.append(" 0x");
    out.append(b.as_str());
    out.append(")");
    out
}

/// One thing the check found out about the running session.
#[derive(Debug)]
pub enum Probe {
    /// The injector that answered.
    Injector(String),
    /// How many windows are visible.
    Windows(usize),
    /// How many virtual desktops there are.
    Desktops(usize),
    /// The application found under the name the check looks for.
    Application(Result<String, String>),
    Locked(bool),
    /// Whether the accessibility bus is enabled, if it can be reached.
    Accessibility(Result<bool, String>),
    /// Whether the daemon's name on the session bus has an owner.
    Owned(bool),
}

/// A truth value as it is printed.
pub open spec fn truth(b: bool) -> Seq<char> {
    if b {
        "true"@
    } else {
        "false"@
    }
}

fn truth_text(b: bool) -> (r: &'static str)
    ensures
        r@ == truth(b),
{
    if b {
        "true"
    } else {
        "false"
    }
}

impl Probe {
    /// The line on it.
    pub open spec fn says(self) -> Seq<char> {
        match self {
            Probe::Injector(name) => "active injector: "@ + name@,
            Probe::Windows(n) => "kdotool: "@ + crate::text::decimal(n as nat)
                + " windows visible"@,
            Probe::Desktops(n) => "virtual desktops: "@ + crate::text::decimal(n as nat),
            Probe::Application(Ok(id)) => "desktop index: resolved 'konsole' -> "@ + id@,
            Probe::Application(Err(e)) => "desktop index: FAILED ("@ + e@ + ")"@,
            Probe::Locked(b) => "session locked: "@ + truth(b),
            Probe::Accessibility(Ok(b)) => "a11y:          bus reachable, IsEnabled="@ + truth(b),
            Probe::Accessibility(Err(e)) => "a11y:          unavailable ("@ + e@ + ")"@,
            Probe::Owned(b) => "session bus:   "@ + NAME@ + if b {
                " is taken (a parlad is running)"@
            } else {
                " is free"@
            },
        }
    }

    /// The line on it.
    pub fn line(&self) -> (r: String)
        ensures
            r@ == self.says(),
    {
        match self {
            Probe::Injector(name) => concat2("active injector: ", name.as_str()),
            Probe::Windows(n) => {
                let count = decimal_text(*n as u64);
                concat3("kdotool: ", count.as_str(), " windows visible")
            },
            Probe::Desktops(n) => {
                let count = decimal_text(*n as u64);
                concat2("virtual desktops: ", count.as_str())
            },
            Probe::Application(Ok(id)) => concat2(
                "desktop index: resolved 'konsole' -> ",
                id.as_str(),
            ),
            Probe::Application(Err(e)) => concat3("desktop index: FAILED (", e.as_str(), ")"),
            Probe::Locked(b) => concat2("session locked: ", truth_text(*b)),
            Probe::Accessibility(Ok(b)) => concat2(
                "a11y:          bus reachable, IsEnabled=",
                truth_text(*b),
            ),
            Probe::Accessibility(Err(e)) => concat3("a11y:          unavailable (", e.as_str(), ")"),
            Probe::Owned(b) => {
                let how = if *b {
                    " is taken (a parlad is running)"
                } else {
                    " is free"
                };
                concat3("session bus:   ", NAME, how)
            },
        }
    }
}

/// A model that is missing is never shown as present, and a truth never as its
/// opposite.
pub proof fn law_presence_and_truth_are_told_apart()
    ensures
        presence(true) == "yes"@,
        presence(false) == MODEL_MISSING@,
        truth(true) == "true"@,
        truth(false) == "false"@,
{
}

/// Each model's line tells its own path and whether its own file is there.
pub proof fn law_each_model_has_its_lines(cfg: DaemonConfig, found: Found)
    ensures
        settings_lines_of(cfg, found).len() >= 6,
        settings_lines_of(cfg, found)[0] == "config path:   "@ + found.config_path@,
        settings_lines_of(cfg, found)[1] == "model path:    "@ + cfg.asr.model_path@,
        settings_lines_of(cfg, found)[2] == "model present: "@ + presence(found.model_present),
        settings_lines_of(cfg, found)[3] == "vad:           "@ + found.gate@,
        settings_lines_of(cfg, found)[4] == "local model:   "@ + cfg.local.model_path@,
        settings_lines_of(cfg, found)[5] == "local present: "@ + presence(found.local_present),
        settings_lines_of(cfg, found).last() == "history:       "@ + if cfg.flow.history {
            found.history_path@
        } else {
            "off"@
        },
{
}

/// A file that cannot be read is shown as failed, whatever is known of it
/// besides, and one that can is shown with its contents and path.
pub proof fn law_unreadable_files_are_shown_as_failed(f: FileState, more: FileState)
    ensures
        f.held is Err && more.held == f.held && more.what@ == f.what@ ==> file_line(f)
            == file_line(more),
        f.held is Err ==> file_line(f) == crate::corpus::padded(f.what@, COLUMN as nat)
            + " FAILED: "@ + f.held->Err_0@,
        f.held is Ok && f.written ==> file_line(f) == crate::corpus::padded(f.what@, COLUMN as nat)
            + " "@ + f.held->Ok_0@ + " ("@ + f.path@ + ")"@,
{
    reveal_strlit(" ");
    reveal_strlit("FAILED: ");
    reveal_strlit(" FAILED: ");
    reveal_strlit("");
    assert(" "@ + "FAILED: "@ =~= " FAILED: "@);
    let column = crate::corpus::padded(f.what@, COLUMN as nat);
    if f.held is Err {
        let e = f.held->Err_0@;
        assert(column + " "@ + ("FAILED: "@ + e) =~= column + (" "@ + "FAILED: "@) + e);
    } else if f.written {
        let c = f.held->Ok_0@;
        assert(column + " "@ + (c + " ("@ + f.path@ + ""@ + ")"@) =~= column + " "@ + c + " ("@
            + f.path@ + ")"@);
    }
}

} // verus!
