//! The UI's side of the session bus: what it asks of the daemon, and the
//! mirror of the daemon's properties that the windows bind to.
//!
//! Requests are fire and forget, and their results arrive as events, so the UI
//! never waits on the bus. The daemon may come and go.
use vstd::prelude::*;

use crate::config::{path_below, xdg_base};
use crate::double::Double;
use crate::text::{concat3, nothing, same};

verus! {

pub const INTERFACE: &'static str = "org.parla.Daemon1";

/// What is said when nobody owns the daemon's name.
pub const NOT_RUNNING: &'static str = "parlad is not running";

/// What the UI asks the daemon to do.
#[derive(Debug)]
pub enum Command {
    Start(String),
    Stop,
    Cancel,
    Reload,
    History { limit: u32, offset: u32 },
    DeleteHistory(String),
    ClearHistory,
    Stats,
    Paths,
    Preview { text: String, app: String },
    SetEnabled(bool),
}

/// Whether a request that cannot be carried out is worth a word: a person
/// waits for it, unlike for what a window fetches by itself.
pub open spec fn needs_word(command: Command) -> bool {
    command is Start || command is Stop || command is Cancel || command is SetEnabled
        || command is Reload
}

/// What is said of a request while the daemon is not there.
pub fn offline_word(command: &Command) -> (r: Option<&'static str>)
    ensures
        match r {
            Some(s) => needs_word(*command) && s@ == NOT_RUNNING@,
            None => !needs_word(*command),
        },
{
    match command {
        Command::Start(_)
        | Command::Stop
        | Command::Cancel
        | Command::SetEnabled(_)
        | Command::Reload => Some(NOT_RUNNING),
        _ => None,
    }
}

/// The name under which a failed request is reported; None for a reload,
/// which reports itself.
pub fn request_name(command: &Command) -> (r: Option<&'static str>)
    ensures
        match r {
            Some(s) => s@ == match *command {
                Command::Start(_) => "Start"@,
                Command::Stop => "Stop"@,
                Command::Cancel => "Cancel"@,
                Command::Reload => ""@,
                Command::History { .. } => "History"@,
                Command::DeleteHistory(_) => "DeleteHistory"@,
                Command::ClearHistory => "ClearHistory"@,
                Command::Stats => "Stats"@,
                Command::Paths => "Paths"@,
                Command::Preview { .. } => "Preview"@,
                Command::SetEnabled(_) => "Enabled"@,
            } && !(*command is Reload),
            None => *command is Reload,
        },
{
    match command {
        Command::Start(_) => Some("Start"),
        Command::Stop => Some("Stop"),
        Command::Cancel => Some("Cancel"),
        Command::Reload => None,
        Command::History { .. } => Some("History"),
        Command::DeleteHistory(_) => Some("DeleteHistory"),
        Command::ClearHistory => Some("ClearHistory"),
        Command::Stats => Some("Stats"),
        Command::Paths => Some("Paths"),
        Command::Preview { .. } => Some("Preview"),
        Command::SetEnabled(_) => Some("Enabled"),
    }
}

/// What is said of a failed request.
pub fn failed(what: &str, error: &str) -> (r: String)
    ensures
        r@ == what@ + ": "@ + error@,
{
    concat3(what, ": ", error)
}

/// Whether a text ends with another.
pub open spec fn ends_with(s: Seq<char>, end: Seq<char>) -> bool {
    s.len() >= end.len() && s.skip(s.len() - end.len()) == end
}

fn has_end(s: &str, end: &str) -> (r: bool)
    ensures
        r == ends_with(s@, end@),
{
    let v = crate::text::to_chars(s);
    let e = crate::text::to_chars(end);
    if v.len() < e.len() {
        return false;
    }
    let at: usize = v.len() - e.len();
    let r = crate::text::starts_at(&v, at, &e);
    assert(v@.skip(at as int) =~= v@.subrange(at as int, at + e@.len()));
    r
}

/// A refused call as the person should read it: the daemon's own message
/// without the error's name, and a plain sentence when nobody owns the name.
pub open spec fn refusal_text(name: Seq<char>, message: Option<Seq<char>>) -> Seq<char> {
    if ends_with(name, "ServiceUnknown"@) || ends_with(name, "NameHasNoOwner"@) {
        NOT_RUNNING@
    } else {
        match message {
            Some(m) => m,
            None => name,
        }
    }
}

/// A refused call as the person should read it.
pub fn describe(name: &str, message: Option<&str>) -> (r: String)
    ensures
        r@ == refusal_text(name@, crate::config::opt_str(message)),
{
    if has_end(name, "ServiceUnknown") || has_end(name, "NameHasNoOwner") {
        return NOT_RUNNING.to_string();
    }
    match message {
        Some(m) => m.to_string(),
        None => name.to_string(),
    }
}

/// A property's value as it comes over the bus.
#[derive(Clone, Debug, PartialEq, Eq)]
pub enum Value {
    Text(String),
    Flag(bool),
    /// Of another type.
    Other,
}

/// A [`Value`] with its text as characters.
pub ghost enum ValueView {
    Text(Seq<char>),
    Flag(bool),
    Other,
}

impl View for Value {
    type V = ValueView;

    open spec fn view(&self) -> ValueView {
        match *self {
            Value::Text(s) => ValueView::Text(s@),
            Value::Flag(b) => ValueView::Flag(b),
            Value::Other => ValueView::Other,
        }
    }
}

impl ValueView {
    /// The text, if it is one.
    pub open spec fn text(self) -> Option<Seq<char>> {
        match self {
            ValueView::Text(s) => Some(s),
            _ => None,
        }
    }

    /// The flag, if it is one.
    pub open spec fn flag(self) -> Option<bool> {
        match self {
            ValueView::Flag(b) => Some(b),
            _ => None,
        }
    }
}

fn text_in(value: &Value) -> (r: Option<String>)
    ensures
        crate::intent::opt_text(r) == value@.text(),
{
    match value {
        Value::Text(s) => Some(s.clone()),
        _ => None,
    }
}

fn flag_in(value: &Value) -> (r: Option<bool>)
    ensures
        r == value@.flag(),
{
    match value {
        Value::Flag(b) => Some(*b),
        _ => None,
    }
}

/// Property values that changed; None means unchanged.
#[derive(Debug)]
pub struct Props {
    pub state: Option<String>,
    pub mode: Option<String>,
    pub enabled: Option<bool>,
    pub last_result: Option<String>,
    pub last_result_is_error: Option<bool>,
    pub version: Option<String>,
    pub judge: Option<String>,
    pub cleanup: Option<String>,
    pub dictate_hotkey: Option<String>,
    pub command_hotkey: Option<String>,
}

/// [`Props`] as character sequences.
pub ghost struct PropsView {
    pub state: Option<Seq<char>>,
    pub mode: Option<Seq<char>>,
    pub enabled: Option<bool>,
    pub last_result: Option<Seq<char>>,
    pub last_result_is_error: Option<bool>,
    pub version: Option<Seq<char>>,
    pub judge: Option<Seq<char>>,
    pub cleanup: Option<Seq<char>>,
    pub dictate_hotkey: Option<Seq<char>>,
    pub command_hotkey: Option<Seq<char>>,
}

impl View for Props {
    type V = PropsView;

    open spec fn view(&self) -> PropsView {
        PropsView {
            state: crate::intent::opt_text(self.state),
            mode: crate::intent::opt_text(self.mode),
            enabled: self.enabled,
            last_result: crate::intent::opt_text(self.last_result),
            last_result_is_error: self.last_result_is_error,
            version: crate::intent::opt_text(self.version),
            judge: crate::intent::opt_text(self.judge),
            cleanup: crate::intent::opt_text(self.cleanup),
            dictate_hotkey: crate::intent::opt_text(self.dictate_hotkey),
            command_hotkey: crate::intent::opt_text(self.command_hotkey),
        }
    }
}

/// Nothing changed.
pub open spec fn no_props() -> PropsView {
    PropsView {
        state: None,
        mode: None,
        enabled: None,
        last_result: None,
        last_result_is_error: None,
        version: None,
        judge: None,
        cleanup: None,
        dictate_hotkey: None,
        command_hotkey: None,
    }
}

impl Default for Props {
    fn default() -> (r: Props)
        ensures
            r@ == no_props(),
    {
        Props {
            state: None,
            mode: None,
            enabled: None,
            last_result: None,
            last_result_is_error: None,
            version: None,
            judge: None,
            cleanup: None,
            dictate_hotkey: None,
            command_hotkey: None,
        }
    }
}

/// The properties with one of them set by its name on the bus. A value of the
/// wrong type leaves the property unknown, and an unknown name changes
/// nothing.
pub open spec fn with_prop(p: PropsView, name: Seq<char>, value: ValueView) -> PropsView {
    if name == "State"@ {
        PropsView { state: value.text(), ..p }
    } else if name == "Mode"@ {
        PropsView { mode: value.text(), ..p }
    } else if name == "Enabled"@ {
        PropsView { enabled: value.flag(), ..p }
    } else if name == "LastResult"@ {
        PropsView { last_result: value.text(), ..p }
    } else if name == "LastResultIsError"@ {
        PropsView { last_result_is_error: value.flag(), ..p }
    } else if name == "Version"@ {
        PropsView { version: value.text(), ..p }
    } else if name == "Judge"@ {
        PropsView { judge: value.text(), ..p }
    } else if name == "Cleanup"@ {
        PropsView { cleanup: value.text(), ..p }
    } else if name == "DictateHotkey"@ {
        PropsView { dictate_hotkey: value.text(), ..p }
    } else if name == "CommandHotkey"@ {
        PropsView { command_hotkey: value.text(), ..p }
    } else {
        p
    }
}

/// The properties of a list of names and values, set one by one.
pub open spec fn props_of(list: Seq<(Seq<char>, ValueView)>) -> PropsView
    decreases list.len(),
{
    if list.len() == 0 {
        no_props()
    } else {
        with_prop(props_of(list.drop_last()), list.last().0, list.last().1)
    }
}

/// The view of a list of names and values.
pub open spec fn value_views(v: Seq<(String, Value)>) -> Seq<(Seq<char>, ValueView)> {
    v.map_values(|p: (String, Value)| (p.0@, p.1@))
}

impl Props {
    /// Set one property by its name on the bus.
    pub fn set(&mut self, name: &str, value: &Value)
        ensures
            final(self)@ == with_prop(old(self)@, name@, value@),
    {
        if same(name, "State") {
            self.state = text_in(value);
        } else if same(name, "Mode") {
            self.mode = text_in(value);
        } else if same(name, "Enabled") {
            self.enabled = flag_in(value);
        } else if same(name, "LastResult") {
            self.last_result = text_in(value);
        } else if same(name, "LastResultIsError") {
            self.last_result_is_error = flag_in(value);
        } else if same(name, "Version") {
            self.version = text_in(value);
        } else if same(name, "Judge") {
            self.judge = text_in(value);
        } else if same(name, "Cleanup") {
            self.cleanup = text_in(value);
        } else if same(name, "DictateHotkey") {
            self.dictate_hotkey = text_in(value);
        } else if same(name, "CommandHotkey") {
            self.command_hotkey = text_in(value);
        }
    }

    /// The properties of a list of names and values.
    pub fn from_list(list: &Vec<(String, Value)>) -> (r: Props)
        ensures
            r@ == props_of(value_views(list@)),
    {
        let ghost all = value_views(list@);
        let mut p = Props::default();
        let mut i: usize = 0;
        while i < list.len()
            invariant
                i <= list@.len(),
                all == value_views(list@),
                p@ == props_of(all.take(i as int)),
            decreases list@.len() - i,
        {
            assert(all.take(i + 1).drop_last() =~= all.take(i as int));
            assert(all.take(i + 1).last() == all[i as int]);
            p.set(list[i].0.as_str(), &list[i].1);
            i = i + 1;
        }
        assert(all.take(i as int) =~= all);
        p
    }
}

/// The properties a change of state brings: state and mode, and, once the
/// daemon is idle, the last result, which is what a window flashes when a
/// capture ends. `all` is what the daemon answered when asked for everything.
pub fn state_props(state: String, mode: String, all: Option<Props>) -> (r: Props)
    ensures
        r@ == (PropsView {
            state: Some(state@),
            mode: Some(mode@),
            last_result: if state@ == "idle"@ && all is Some {
                all->0@.last_result
            } else {
                None
            },
            last_result_is_error: if state@ == "idle"@ && all is Some {
                all->0@.last_result_is_error
            } else {
                None
            },
            ..no_props()
        }),
{
    let idle = same(state.as_str(), "idle");
    let mut p = Props::default();
    p.state = Some(state);
    p.mode = Some(mode);
    if idle {
        if let Some(q) = all {
            p.last_result = q.last_result;
            p.last_result_is_error = q.last_result_is_error;
        }
    }
    p
}

/// What a change of the name's owner does: a daemon that appeared is asked for
/// its properties, anything else is taken as it is.
#[derive(Clone, Copy, Debug, PartialEq, Eq, Structural)]
pub enum Owner {
    /// Ask for the properties: connected once they are answered.
    Ask,
    Now(bool),
}

/// What a change of the name's owner does.
pub fn owner_changed(owned: bool, connected: bool) -> (r: Owner)
    ensures
        r == if owned && !connected {
            Owner::Ask
        } else {
            Owner::Now(owned)
        },
{
    if owned && !connected {
        Owner::Ask
    } else {
        Owner::Now(owned)
    }
}

/// What the bus tells the UI.
#[derive(Debug)]
pub enum Event {
    Connected(bool),
    Props(Props),
    Level(Double),
    Utterance(String),
    Error(String),
    Confirm(String),
    History { json: String, offset: u32 },
    HistoryDeleted(String),
    HistoryCleared,
    Stats(String),
    Paths(String),
    Preview(String),
    Reloaded(Result<(), String>),
}

/// What the UI is told beside a change of the mirror.
#[derive(Debug, PartialEq, Eq)]
pub enum Signal {
    Utterance(String),
    Error(String),
    Confirm(String),
    History { json: String, offset: u32 },
    HistoryDeleted(String),
    HistoryCleared,
    Preview(String),
    Reloaded { ok: bool, message: String },
    /// The last result came again: it is shown again.
    Flash,
}

/// A [`Signal`] as character sequences.
pub ghost enum SignalView {
    Utterance(Seq<char>),
    Error(Seq<char>),
    Confirm(Seq<char>),
    History { json: Seq<char>, offset: u32 },
    HistoryDeleted(Seq<char>),
    HistoryCleared,
    Preview(Seq<char>),
    Reloaded { ok: bool, message: Seq<char> },
    Flash,
}

/// The view of an optional signal.
pub open spec fn signal_view(s: Option<Signal>) -> Option<SignalView> {
    match s {
        None => None,
        Some(Signal::Utterance(t)) => Some(SignalView::Utterance(t@)),
        Some(Signal::Error(t)) => Some(SignalView::Error(t@)),
        Some(Signal::Confirm(t)) => Some(SignalView::Confirm(t@)),
        Some(Signal::History { json, offset }) => Some(SignalView::History { json: json@, offset }),
        Some(Signal::HistoryDeleted(t)) => Some(SignalView::HistoryDeleted(t@)),
        Some(Signal::HistoryCleared) => Some(SignalView::HistoryCleared),
        Some(Signal::Preview(t)) => Some(SignalView::Preview(t@)),
        Some(Signal::Reloaded { ok, message }) => Some(
            SignalView::Reloaded { ok, message: message@ },
        ),
        Some(Signal::Flash) => Some(SignalView::Flash),
    }
}

/// What the windows bind to.
#[derive(Debug)]
pub struct Mirror {
    /// Whether the daemon's name has an owner.
    pub connected: bool,
    pub state: String,
    pub mode: String,
    pub enabled: bool,
    pub last_result: String,
    pub last_result_is_error: bool,
    pub version: String,
    pub judge: String,
    pub cleanup: String,
    pub dictate_hotkey: String,
    pub command_hotkey: String,
    /// Microphone level from 0 to 1.
    pub level: Double,
    /// The open question, empty when there is none.
    pub confirm_question: String,
    pub stats_json: String,
    pub paths_json: String,
}

/// A [`Mirror`] as character sequences.
#[verifier::ext_equal]
pub ghost struct MirrorView {
    pub connected: bool,
    pub state: Seq<char>,
    pub mode: Seq<char>,
    pub enabled: bool,
    pub last_result: Seq<char>,
    pub last_result_is_error: bool,
    pub version: Seq<char>,
    pub judge: Seq<char>,
    pub cleanup: Seq<char>,
    pub dictate_hotkey: Seq<char>,
    pub command_hotkey: Seq<char>,
    pub level: Double,
    pub confirm_question: Seq<char>,
    pub stats_json: Seq<char>,
    pub paths_json: Seq<char>,
}

impl View for Mirror {
    type V = MirrorView;

    open spec fn view(&self) -> MirrorView {
        MirrorView {
            connected: self.connected,
            state: self.state@,
            mode: self.mode@,
            enabled: self.enabled,
            last_result: self.last_result@,
            last_result_is_error: self.last_result_is_error,
            version: self.version@,
            judge: self.judge@,
            cleanup: self.cleanup@,
            dictate_hotkey: self.dictate_hotkey@,
            command_hotkey: self.command_hotkey@,
            level: self.level,
            confirm_question: self.confirm_question@,
            stats_json: self.stats_json@,
            paths_json: self.paths_json@,
        }
    }
}

/// A new value, or the old one where there is none.
pub open spec fn or_old<T>(new: Option<T>, old_value: T) -> T {
    match new {
        Some(v) => v,
        None => old_value,
    }
}

/// The mirror with changed properties taken over. A question is open only
/// while the daemon waits, and the level starts from nothing.
pub open spec fn props_applied(m: MirrorView, p: PropsView) -> MirrorView {
    MirrorView {
        connected: m.connected,
        state: or_old(p.state, m.state),
        mode: or_old(p.mode, m.mode),
        enabled: or_old(p.enabled, m.enabled),
        last_result: or_old(p.last_result, m.last_result),
        last_result_is_error: or_old(p.last_result_is_error, m.last_result_is_error),
        version: or_old(p.version, m.version),
        judge: or_old(p.judge, m.judge),
        cleanup: or_old(p.cleanup, m.cleanup),
        dictate_hotkey: or_old(p.dictate_hotkey, m.dictate_hotkey),
        command_hotkey: or_old(p.command_hotkey, m.command_hotkey),
        level: if p.state == Some("recording"@) || p.state == Some("idle"@) {
            crate::double::zero()
        } else {
            m.level
        },
        confirm_question: if p.state is Some && p.state != Some("waiting"@) {
            Seq::empty()
        } else {
            m.confirm_question
        },
        stats_json: m.stats_json,
        paths_json: m.paths_json,
    }
}

/// The mirror of a daemon that is gone.
pub open spec fn gone(m: MirrorView) -> MirrorView {
    MirrorView {
        connected: false,
        state: "offline"@,
        mode: Seq::empty(),
        level: crate::double::zero(),
        confirm_question: Seq::empty(),
        ..m
    }
}

/// What an event does to the mirror.
pub open spec fn applied(m: MirrorView, event: Event) -> MirrorView {
    match event {
        Event::Connected(on) => if on {
            MirrorView { connected: true, ..m }
        } else {
            gone(m)
        },
        Event::Props(p) => props_applied(m, p@),
        Event::Level(level) => MirrorView { level, ..m },
        Event::Confirm(q) => MirrorView { confirm_question: q@, ..m },
        Event::Stats(json) => MirrorView { stats_json: json@, ..m },
        Event::Paths(json) => MirrorView { paths_json: json@, ..m },
        _ => m,
    }
}

/// What the UI is told of an event.
pub open spec fn signalled(m: MirrorView, event: Event) -> Option<SignalView> {
    match event {
        Event::Props(p) => if p@.last_result == Some(m.last_result) {
            Some(SignalView::Flash)
        } else {
            None
        },
        Event::Utterance(json) => Some(SignalView::Utterance(json@)),
        Event::Error(e) => Some(SignalView::Error(e@)),
        Event::Confirm(q) => Some(SignalView::Confirm(q@)),
        Event::History { json, offset } => Some(SignalView::History { json: json@, offset }),
        Event::HistoryDeleted(id) => Some(SignalView::HistoryDeleted(id@)),
        Event::HistoryCleared => Some(SignalView::HistoryCleared),
        Event::Preview(t) => Some(SignalView::Preview(t@)),
        Event::Reloaded(Ok(_)) => Some(SignalView::Reloaded { ok: true, message: Seq::empty() }),
        Event::Reloaded(Err(e)) => Some(SignalView::Reloaded { ok: false, message: e@ }),
        _ => None,
    }
}

fn update(slot: &mut String, value: Option<String>)
    ensures
        final(slot)@ == or_old(crate::intent::opt_text(value), old(slot)@),
{
    if let Some(v) = value {
        *slot = v;
    }
}

fn update_flag(slot: &mut bool, value: Option<bool>)
    ensures
        *final(slot) == or_old(value, *old(slot)),
{
    if let Some(v) = value {
        *slot = v;
    }
}

fn silence() -> (r: Double)
    ensures
        r == crate::double::zero(),
{
    Double { bits: 0 }
}

impl Mirror {
    /// Nothing is known until the bus reports in.
    pub fn new() -> (r: Mirror)
        ensures
            r@ == (MirrorView {
                connected: false,
                state: "unknown"@,
                mode: Seq::empty(),
                enabled: false,
                last_result: Seq::empty(),
                last_result_is_error: false,
                version: Seq::empty(),
                judge: Seq::empty(),
                cleanup: Seq::empty(),
                dictate_hotkey: Seq::empty(),
                command_hotkey: Seq::empty(),
                level: crate::double::zero(),
                confirm_question: Seq::empty(),
                stats_json: Seq::empty(),
                paths_json: Seq::empty(),
            }),
    {
        Mirror {
            connected: false,
            state: "unknown".to_string(),
            mode: nothing(),
            enabled: false,
            last_result: nothing(),
            last_result_is_error: false,
            version: nothing(),
            judge: nothing(),
            cleanup: nothing(),
            dictate_hotkey: nothing(),
            command_hotkey: nothing(),
            level: silence(),
            confirm_question: nothing(),
            stats_json: nothing(),
            paths_json: nothing(),
        }
    }

    /// Take changed properties over; says whether the last result came again.
    pub fn apply_props(&mut self, p: Props) -> (again: bool)
        ensures
            final(self)@ == props_applied(old(self)@, p@),
            again == (p@.last_result == Some(old(self)@.last_result)),
    {
        let mut again = false;
        if let Some(v) = &p.state {
            if !same(v.as_str(), "waiting") {
                self.confirm_question = nothing();
            }
            if same(v.as_str(), "recording") || same(v.as_str(), "idle") {
                self.level = silence();
            }
        }
        if let Some(v) = &p.last_result {
            again = same(self.last_result.as_str(), v.as_str());
        }
        update(&mut self.state, p.state);
        update(&mut self.mode, p.mode);
        update(&mut self.last_result, p.last_result);
        update(&mut self.version, p.version);
        update(&mut self.judge, p.judge);
        update(&mut self.cleanup, p.cleanup);
        update(&mut self.dictate_hotkey, p.dictate_hotkey);
        update(&mut self.command_hotkey, p.command_hotkey);
        update_flag(&mut self.enabled, p.enabled);
        update_flag(&mut self.last_result_is_error, p.last_result_is_error);
        again
    }

    /// Apply one event from the bus.
    pub fn apply(&mut self, event: Event) -> (r: Option<Signal>)
        ensures
            final(self)@ == applied(old(self)@, event),
            signal_view(r) == signalled(old(self)@, event),
    {
        match event {
            Event::Connected(on) => {
                self.connected = on;
                if !on {
                    self.state = "offline".to_string();
                    self.mode = nothing();
                    self.level = silence();
                    self.confirm_question = nothing();
                }
                None
            },
            Event::Props(p) => {
                if self.apply_props(p) {
                    Some(Signal::Flash)
                } else {
                    None
                }
            },
            Event::Level(level) => {
                self.level = level;
                None
            },
            Event::Utterance(json) => Some(Signal::Utterance(json)),
            Event::Error(e) => Some(Signal::Error(e)),
            Event::Confirm(q) => {
                self.confirm_question = q.clone();
                Some(Signal::Confirm(q))
            },
            Event::History { json, offset } => Some(Signal::History { json, offset }),
            Event::HistoryDeleted(id) => Some(Signal::HistoryDeleted(id)),
            Event::HistoryCleared => Some(Signal::HistoryCleared),
            Event::Stats(json) => {
                self.stats_json = json;
                None
            },
            Event::Paths(json) => {
                self.paths_json = json;
                None
            },
            Event::Preview(t) => Some(Signal::Preview(t)),
            Event::Reloaded(Ok(_)) => Some(Signal::Reloaded { ok: true, message: nothing() }),
            Event::Reloaded(Err(e)) => Some(Signal::Reloaded { ok: false, message: e }),
        }
    }

    /// The switch moves now, and the daemon's answer confirms or reverts it.
    /// Says whether it moved, and what is asked of the daemon.
    pub fn request_enabled(&mut self, on: bool) -> (r: (bool, Command))
        ensures
            r.0 == (old(self).enabled != on),
            r.1 == Command::SetEnabled(on),
            final(self)@ == (MirrorView { enabled: on, ..old(self)@ }),
    {
        let moved = self.enabled != on;
        self.enabled = on;
        (moved, Command::SetEnabled(on))
    }
}

/// No question stays open once the daemon does something else or is gone.
pub proof fn law_questions_close(m: MirrorView, event: Event)
    requires
        event == Event::Connected(false) || (event matches Event::Props(p) && p@.state is Some
            && p@.state != Some("waiting"@)),
    ensures
        applied(m, event).confirm_question.len() == 0,
{
}

/// What is written where the UI is to start with the session.
pub const AUTOSTART_ENTRY: &'static str = "[Desktop Entry]\nType=Application\nName=parla\nComment=Voice dictation and commands\nExec=parla-ui --hidden\nIcon=audio-input-microphone\nTerminal=false\nX-KDE-autostart-after=panel\nX-KDE-StartupNotify=false\n";

/// Where that is written, from XDG_CONFIG_HOME and HOME.
pub fn autostart_path(config_home: Option<&str>, home: Option<&str>) -> (r: String)
    ensures
        r@ == crate::config::below(
            crate::config::xdg_dir(
                crate::config::opt_str(config_home),
                crate::config::opt_str(home),
                ".config"@,
            ),
            "autostart/parla-ui.desktop"@,
        ),
{
    let base = xdg_base(config_home, home, ".config");
    path_below(base.as_str(), "autostart/parla-ui.desktop")
}

/// What the settings pages bind to.
#[derive(Debug)]
pub struct Store {
    /// Why the last operation failed, empty when it did not.
    pub last_error: String,
    /// Whether the UI starts with the session.
    pub autostart: bool,
}

impl Store {
    /// At the start, where `exists` says whether the autostart file does.
    pub fn new(exists: bool) -> (r: Store)
        ensures
            r.last_error@ == Seq::<char>::empty(),
            r.autostart == exists,
    {
        let last_error = String::new();
        assert(last_error@ =~= Seq::<char>::empty());
        Store { last_error, autostart: exists }
    }

    /// Keep the error of an operation that gives a text; what a page is given,
    /// which is nothing where it failed.
    pub fn report(&mut self, result: Result<String, String>) -> (r: String)
        ensures
            final(self).autostart == old(self).autostart,
            match result {
                Ok(s) => r == s && final(self).last_error@ == Seq::<char>::empty(),
                Err(e) => r@ == Seq::<char>::empty() && final(self).last_error == e,
            },
    {
        let nothing = String::new();
        assert(nothing@ =~= Seq::<char>::empty());
        match result {
            Ok(s) => {
                self.last_error = nothing;
                s
            },
            Err(e) => {
                self.last_error = e;
                nothing
            },
        }
    }

    /// Keep the error of an operation; whether it worked.
    pub fn report_ok(&mut self, result: Result<(), String>) -> (r: bool)
        ensures
            final(self).autostart == old(self).autostart,
            r == (result is Ok),
            match result {
                Ok(_) => final(self).last_error@ == Seq::<char>::empty(),
                Err(e) => final(self).last_error == e,
            },
    {
        match result {
            Ok(_) => {
                let nothing = String::new();
                assert(nothing@ =~= Seq::<char>::empty());
                self.last_error = nothing;
                true
            },
            Err(e) => {
                self.last_error = e;
                false
            },
        }
    }

    /// The autostart switch was asked for, with what writing or removing the
    /// file came to and whether the file exists now; whether the switch moved.
    pub fn set_autostart(&mut self, on: bool, result: Result<(), String>, exists: bool) -> (r: bool)
        ensures
            final(self).autostart == (if result is Ok {
                on
            } else {
                exists
            }),
            r == (final(self).autostart != old(self).autostart),
            match result {
                Ok(_) => final(self).last_error@ == Seq::<char>::empty(),
                Err(e) => final(self).last_error == e,
            },
    {
        let worked = self.report_ok(result);
        let now = autostart_after(on, worked, exists);
        let moved = self.autostart != now;
        self.autostart = now;
        moved
    }
}

/// Whether the UI starts with the session after a switch was asked for: as
/// asked where that worked, else as the file shows.
fn autostart_after(asked: bool, worked: bool, exists: bool) -> (r: bool)
    ensures
        r == if worked {
            asked
        } else {
            exists
        },
{
    if worked {
        asked
    } else {
        exists
    }
}

/// A property that comes under its name with a value of its type is set to
/// it, one of another type makes it unknown, and no other property moves.
pub proof fn law_properties_go_by_their_names(p: PropsView, text: Seq<char>, flag: bool)
    ensures
        with_prop(p, "State"@, ValueView::Text(text)) == (PropsView { state: Some(text), ..p }),
        with_prop(p, "State"@, ValueView::Flag(flag)) == (PropsView { state: None, ..p }),
        with_prop(p, "State"@, ValueView::Other) == (PropsView { state: None, ..p }),
        with_prop(p, "Mode"@, ValueView::Text(text)) == (PropsView { mode: Some(text), ..p }),
        with_prop(p, "Mode"@, ValueView::Flag(flag)) == (PropsView { mode: None, ..p }),
        with_prop(p, "Mode"@, ValueView::Other) == (PropsView { mode: None, ..p }),
        with_prop(p, "Enabled"@, ValueView::Flag(flag)) == (PropsView { enabled: Some(flag), ..p }),
        with_prop(p, "Enabled"@, ValueView::Text(text)) == (PropsView { enabled: None, ..p }),
        with_prop(p, "Enabled"@, ValueView::Other) == (PropsView { enabled: None, ..p }),
        with_prop(p, "LastResult"@, ValueView::Text(text)) == (PropsView { last_result: Some(text), ..p }),
        with_prop(p, "LastResult"@, ValueView::Flag(flag)) == (PropsView { last_result: None, ..p }),
        with_prop(p, "LastResult"@, ValueView::Other) == (PropsView { last_result: None, ..p }),
        with_prop(p, "LastResultIsError"@, ValueView::Flag(flag)) == (PropsView { last_result_is_error: Some(flag), ..p }),
        with_prop(p, "LastResultIsError"@, ValueView::Text(text)) == (PropsView { last_result_is_error: None, ..p }),
        with_prop(p, "LastResultIsError"@, ValueView::Other) == (PropsView { last_result_is_error: None, ..p }),
        with_prop(p, "Version"@, ValueView::Text(text)) == (PropsView { version: Some(text), ..p }),
        with_prop(p, "Version"@, ValueView::Flag(flag)) == (PropsView { version: None, ..p }),
        with_prop(p, "Version"@, ValueView::Other) == (PropsView { version: None, ..p }),
        with_prop(p, "Judge"@, ValueView::Text(text)) == (PropsView { judge: Some(text), ..p }),
        with_prop(p, "Judge"@, ValueView::Flag(flag)) == (PropsView { judge: None, ..p }),
        with_prop(p, "Judge"@, ValueView::Other) == (PropsView { judge: None, ..p }),
        with_prop(p, "Cleanup"@, ValueView::Text(text)) == (PropsView { cleanup: Some(text), ..p }),
        with_prop(p, "Cleanup"@, ValueView::Flag(flag)) == (PropsView { cleanup: None, ..p }),
        with_prop(p, "Cleanup"@, ValueView::Other) == (PropsView { cleanup: None, ..p }),
        with_prop(p, "DictateHotkey"@, ValueView::Text(text)) == (PropsView { dictate_hotkey: Some(text), ..p }),
        with_prop(p, "DictateHotkey"@, ValueView::Flag(flag)) == (PropsView { dictate_hotkey: None, ..p }),
        with_prop(p, "DictateHotkey"@, ValueView::Other) == (PropsView { dictate_hotkey: None, ..p }),
        with_prop(p, "CommandHotkey"@, ValueView::Text(text)) == (PropsView { command_hotkey: Some(text), ..p }),
        with_prop(p, "CommandHotkey"@, ValueView::Flag(flag)) == (PropsView { command_hotkey: None, ..p }),
        with_prop(p, "CommandHotkey"@, ValueView::Other) == (PropsView { command_hotkey: None, ..p }),
{
    reveal_strlit("State");
    reveal_strlit("Mode");
    reveal_strlit("Enabled");
    reveal_strlit("LastResult");
    reveal_strlit("LastResultIsError");
    reveal_strlit("Version");
    reveal_strlit("Judge");
    reveal_strlit("Cleanup");
    reveal_strlit("DictateHotkey");
    reveal_strlit("CommandHotkey");
    assert("State"@.len() == 5 && "Mode"@.len() == 4 && "Enabled"@.len() == 7 && "LastResult"@.len() == 10 && "LastResultIsError"@.len() == 17 && "Version"@.len() == 7 && "Judge"@.len() == 5 && "Cleanup"@.len() == 7 && "DictateHotkey"@.len() == 13 && "CommandHotkey"@.len() == 13);
    assert("State"@[0] == 'S' && "Mode"@[0] == 'M' && "Enabled"@[0] == 'E' && "LastResult"@[0] == 'L' && "LastResultIsError"@[0] == 'L' && "Version"@[0] == 'V' && "Judge"@[0] == 'J' && "Cleanup"@[0] == 'C' && "DictateHotkey"@[0] == 'D' && "CommandHotkey"@[0] == 'C');
}

/// Of two values under one name the later one stands, and a name shorter or
/// longer than every property's changes nothing.
pub proof fn law_the_later_value_stands(
    list: Seq<(Seq<char>, ValueView)>,
    name: Seq<char>,
    first: ValueView,
    second: ValueView,
)
    ensures
        props_of(list.push((name, first)).push((name, second))) == props_of(
            list.push((name, second)),
        ),
        props_of(Seq::empty()) == no_props(),
        name.len() < 4 || name.len() > 17 ==> props_of(list.push((name, first))) == props_of(list),
{
    let before = props_of(list);
    assert(list.push((name, first)).push((name, second)).drop_last() =~= list.push((name, first)));
    assert(list.push((name, first)).drop_last() =~= list);
    assert(list.push((name, second)).drop_last() =~= list);
    let once = with_prop(before, name, first);
    assert(props_of(list.push((name, first))) == once);
    assert(props_of(list.push((name, second))) == with_prop(before, name, second));
    assert(with_prop(once, name, second) == with_prop(before, name, second));
    reveal_strlit("State");
    reveal_strlit("Mode");
    reveal_strlit("Enabled");
    reveal_strlit("LastResult");
    reveal_strlit("LastResultIsError");
    reveal_strlit("Version");
    reveal_strlit("Judge");
    reveal_strlit("Cleanup");
    reveal_strlit("DictateHotkey");
    reveal_strlit("CommandHotkey");
    assert("State"@.len() == 5 && "Mode"@.len() == 4 && "Enabled"@.len() == 7 && "LastResult"@.len() == 10 && "LastResultIsError"@.len() == 17 && "Version"@.len() == 7 && "Judge"@.len() == 5 && "Cleanup"@.len() == 7 && "DictateHotkey"@.len() == 13 && "CommandHotkey"@.len() == 13);
}

/// A changed property is taken over and an unchanged one stays; the level
/// goes to nothing when a capture begins or ends, a question is closed by any
/// state but waiting, and nothing else moves.
pub proof fn law_changes_are_taken_over(m: MirrorView, p: Props)
    ensures
        p@.state is Some ==> applied(m, Event::Props(p)).state == p@.state->0,
        p@.state is None ==> applied(m, Event::Props(p)).state == m.state,
        p@.mode is Some ==> applied(m, Event::Props(p)).mode == p@.mode->0,
        p@.mode is None ==> applied(m, Event::Props(p)).mode == m.mode,
        p@.enabled is Some ==> applied(m, Event::Props(p)).enabled == p@.enabled->0,
        p@.enabled is None ==> applied(m, Event::Props(p)).enabled == m.enabled,
        p@.last_result is Some ==> applied(m, Event::Props(p)).last_result == p@.last_result->0,
        p@.last_result is None ==> applied(m, Event::Props(p)).last_result == m.last_result,
        p@.last_result_is_error is Some ==> applied(m, Event::Props(p)).last_result_is_error == p@.last_result_is_error->0,
        p@.last_result_is_error is None ==> applied(m, Event::Props(p)).last_result_is_error == m.last_result_is_error,
        p@.version is Some ==> applied(m, Event::Props(p)).version == p@.version->0,
        p@.version is None ==> applied(m, Event::Props(p)).version == m.version,
        p@.judge is Some ==> applied(m, Event::Props(p)).judge == p@.judge->0,
        p@.judge is None ==> applied(m, Event::Props(p)).judge == m.judge,
        p@.cleanup is Some ==> applied(m, Event::Props(p)).cleanup == p@.cleanup->0,
        p@.cleanup is None ==> applied(m, Event::Props(p)).cleanup == m.cleanup,
        p@.dictate_hotkey is Some ==> applied(m, Event::Props(p)).dictate_hotkey == p@.dictate_hotkey->0,
        p@.dictate_hotkey is None ==> applied(m, Event::Props(p)).dictate_hotkey == m.dictate_hotkey,
        p@.command_hotkey is Some ==> applied(m, Event::Props(p)).command_hotkey == p@.command_hotkey->0,
        p@.command_hotkey is None ==> applied(m, Event::Props(p)).command_hotkey == m.command_hotkey,
        applied(m, Event::Props(p)).connected == m.connected,
        applied(m, Event::Props(p)).stats_json == m.stats_json,
        applied(m, Event::Props(p)).paths_json == m.paths_json,
        p@.state == Some("recording"@) || p@.state == Some("idle"@) ==> applied(
            m,
            Event::Props(p),
        ).level == crate::double::zero(),
        p@.state != Some("recording"@) && p@.state != Some("idle"@) ==> applied(
            m,
            Event::Props(p),
        ).level == m.level,
        p@.state is None || p@.state == Some("waiting"@) ==> applied(
            m,
            Event::Props(p),
        ).confirm_question == m.confirm_question,
{
}

/// Every other event moves its own part of the mirror and leaves the rest.
pub proof fn law_events_move_their_own_part(m: MirrorView, event: Event)
    ensures
        event matches Event::Level(level) ==> applied(m, event) == (MirrorView { level, ..m }),
        event matches Event::Confirm(q) ==> applied(m, event) == (MirrorView {
            confirm_question: q@,
            ..m
        }),
        event matches Event::Stats(json) ==> applied(m, event) == (MirrorView {
            stats_json: json@,
            ..m
        }),
        event matches Event::Paths(json) ==> applied(m, event) == (MirrorView {
            paths_json: json@,
            ..m
        }),
        event == Event::Connected(true) ==> applied(m, event) == (MirrorView {
            connected: true,
            ..m
        }),
        event is Utterance || event is Error || event is History || event is HistoryDeleted
            || event is HistoryCleared || event is Preview || event is Reloaded ==> applied(m, event)
            == m,
{
}

/// A daemon that is gone is shown as gone: not connected, offline, in no mode,
/// silent and asking nothing, while what was last known of it stays.
pub proof fn law_a_gone_daemon_is_shown_offline(m: MirrorView)
    ensures
        ({
            let after = applied(m, Event::Connected(false));
            &&& !after.connected
            &&& after.state == "offline"@
            &&& after.mode.len() == 0
            &&& after.level == crate::double::zero()
            &&& after.confirm_question.len() == 0
            &&& after.last_result == m.last_result
            &&& after.last_result_is_error == m.last_result_is_error
            &&& after.enabled == m.enabled
            &&& after.version == m.version
            &&& after.stats_json == m.stats_json
            &&& after.paths_json == m.paths_json
        }),
{
}

/// What a person should see or hear of is passed on with what it carries, and
/// the rest of the events only move the mirror. A result that comes again is
/// shown again.
pub proof fn law_what_is_passed_on(m: MirrorView, event: Event)
    ensures
        event matches Event::Utterance(json) ==> signalled(m, event) == Some(
            SignalView::Utterance(json@),
        ),
        event matches Event::Error(e) ==> signalled(m, event) == Some(SignalView::Error(e@)),
        event matches Event::Confirm(q) ==> signalled(m, event) == Some(SignalView::Confirm(q@)),
        event matches Event::History { json, offset } ==> signalled(m, event) == Some(
            (SignalView::History { json: json@, offset }),
        ),
        event matches Event::HistoryDeleted(id) ==> signalled(m, event) == Some(
            SignalView::HistoryDeleted(id@),
        ),
        event is HistoryCleared ==> signalled(m, event) == Some(SignalView::HistoryCleared),
        event matches Event::Preview(t) ==> signalled(m, event) == Some(SignalView::Preview(t@)),
        event matches Event::Reloaded(r) ==> (signalled(m, event) matches Some(
            SignalView::Reloaded { ok, message },
        ) && ok == (r is Ok) && (r is Ok ==> message.len() == 0) && (r is Err ==> message
            == r->Err_0@)),
        event matches Event::Props(p) ==> (signalled(m, event) is Some <==> p@.last_result == Some(
            m.last_result,
        )),
        event is Connected || event is Level || event is Stats || event is Paths ==> signalled(
            m,
            event,
        ) is None,
{
}

/// A refusal of the daemon is read in its own words, and without words by its
/// name; where nobody owns the daemon's name the person reads that it is not
/// running.
pub proof fn law_refusals_are_read_plainly(front: Seq<char>, name: Seq<char>, said: Seq<char>)
    ensures
        refusal_text(front + "ServiceUnknown"@, Some(said)) == NOT_RUNNING@,
        refusal_text(front + "NameHasNoOwner"@, None) == NOT_RUNNING@,
        name.len() < 14 ==> refusal_text(name, Some(said)) == said && refusal_text(name, None)
            == name,
{
    reveal_strlit("ServiceUnknown");
    reveal_strlit("NameHasNoOwner");
    let a = front + "ServiceUnknown"@;
    assert(a.skip(a.len() - "ServiceUnknown"@.len()) =~= "ServiceUnknown"@);
    let b = front + "NameHasNoOwner"@;
    assert(b.skip(b.len() - "NameHasNoOwner"@.len()) =~= "NameHasNoOwner"@);
}

/// A request a person makes and waits for is worth a word when it cannot be
/// carried out; what a window fetches by itself is not.
pub proof fn law_people_are_told_of_what_they_asked(command: Command)
    ensures
        command is Start ==> needs_word(command),
        command is Stop ==> needs_word(command),
        command is Cancel ==> needs_word(command),
        command is SetEnabled ==> needs_word(command),
        command is Reload ==> needs_word(command),
        command is History || command is DeleteHistory || command is ClearHistory || command is Stats
            || command is Paths || command is Preview ==> !needs_word(command),
{
}

} // verus!
