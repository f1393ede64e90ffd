//! What the desktop shows and what can be done to it.
use vstd::prelude::*;

use crate::intent::Intent;
use crate::text::same;

verus! {

/// An open window as the compositor reports it.
#[derive(Clone, Debug, PartialEq, Eq)]
pub struct Window {
    pub id: String,
    pub title: String,
    pub class: String,
    pub resource_name: String,
    pub desktop: i32,
    pub active: bool,
    pub minimized: bool,
    pub stacking: i32,
    pub pid: u32,
    pub normal: bool,
}

/// What the rules read of a window.
pub ghost struct WindowView {
    pub id: Seq<char>,
    pub title: Seq<char>,
    pub class: Seq<char>,
}

impl View for Window {
    type V = WindowView;

    open spec fn view(&self) -> WindowView {
        WindowView { id: self.id@, title: self.title@, class: self.class@ }
    }
}

/// The views of a list of windows.
pub open spec fn window_views(v: Seq<Window>) -> Seq<WindowView> {
    v.map_values(|w: Window| w@)
}

impl Window {
    /// The same window again.
    pub fn copy(&self) -> (r: Window)
        ensures
            r == *self,
    {
        Window {
            id: self.id.clone(),
            title: self.title.clone(),
            class: self.class.clone(),
            resource_name: self.resource_name.clone(),
            desktop: self.desktop,
            active: self.active,
            minimized: self.minimized,
            stacking: self.stacking,
            pid: self.pid,
            normal: self.normal,
        }
    }
}

/// What is done to a window.
#[derive(Clone, Copy, Debug, PartialEq, Eq, Structural)]
pub enum WindowOp {
    Focus,
    Close,
    Minimize,
    Maximize,
}

/// The window a command acts on.
#[derive(Clone, Debug, PartialEq, Eq)]
pub enum WindowTarget {
    /// To be matched against the open windows.
    Query(String),
    /// Picked from the open windows already.
    Id(String),
    Focused,
}

/// The application a command starts.
#[derive(Clone, Debug, PartialEq, Eq)]
pub enum AppTarget {
    /// To be matched against the installed applications.
    Query(String),
    /// Picked from the installed applications already.
    Entry(String),
}

/// What the executor will touch.
#[allow(inconsistent_fields)]
#[derive(Clone, Debug, PartialEq, Eq)]
pub enum Command {
    LaunchApp { app: AppTarget },
    OpenTerminal,
    Window { op: WindowOp, target: WindowTarget },
    VirtualDesktop { n: u32 },
    VirtualDesktopRel { delta: i32 },
    RunShortcut { component: String, action: String },
    KRunner { query: String },
    StartClaude { model: Option<String> },
    ClaudeModel { model: String },
    ClaudeTell { text: String },
    ClaudeRead,
    Notify { text: String },
    Key { chord: String },
}

/// The window a query means: an empty query, or the bare word "window", means
/// the focused window, and so does no query.
pub open spec fn queried(query: Option<String>) -> WindowTarget {
    match query {
        Some(q) => if q@.len() == 0 || q@ == "window"@ {
            WindowTarget::Focused
        } else {
            WindowTarget::Query(q)
        },
        None => WindowTarget::Focused,
    }
}

impl WindowTarget {
    /// The window a query means.
    pub fn from_query(query: Option<String>) -> (r: WindowTarget)
        ensures
            r == queried(query),
    {
        match query {
            Some(q) => {
                if q.as_str().is_empty() || same(q.as_str(), "window") {
                    WindowTarget::Focused
                } else {
                    WindowTarget::Query(q)
                }
            },
            None => WindowTarget::Focused,
        }
    }
}

/// The command an intent asks for; None for the replies, and for the intents
/// that act on dictated text.
pub open spec fn command_of(intent: Intent) -> Option<Command> {
    match intent {
        Intent::LaunchApp { query } => Some(Command::LaunchApp { app: AppTarget::Query(query) }),
        Intent::OpenTerminal => Some(Command::OpenTerminal),
        Intent::FocusWindow { query } => Some(
            Command::Window { op: WindowOp::Focus, target: queried(Some(query)) },
        ),
        Intent::CloseWindow { query } => Some(
            Command::Window { op: WindowOp::Close, target: queried(query) },
        ),
        Intent::MinimizeWindow { query } => Some(
            Command::Window { op: WindowOp::Minimize, target: queried(query) },
        ),
        Intent::MaximizeWindow { query } => Some(
            Command::Window { op: WindowOp::Maximize, target: queried(query) },
        ),
        Intent::VirtualDesktop { n } => Some(Command::VirtualDesktop { n }),
        Intent::VirtualDesktopRel { delta } => Some(Command::VirtualDesktopRel { delta }),
        Intent::RunShortcut { component, action } => Some(
            Command::RunShortcut { component, action },
        ),
        Intent::KRunner { query } => Some(Command::KRunner { query }),
        Intent::StartClaude { model } => Some(Command::StartClaude { model }),
        Intent::ClaudeModel { model } => Some(Command::ClaudeModel { model }),
        Intent::ClaudeTell { text } => Some(Command::ClaudeTell { text }),
        Intent::ClaudeRead => Some(Command::ClaudeRead),
        Intent::Notify { text } => Some(Command::Notify { text }),
        Intent::Key { chord } => Some(Command::Key { chord }),
        Intent::ScratchThat
        | Intent::EditText { .. }
        | Intent::Confirm
        | Intent::Deny => None,
    }
}

/// The command an intent asks for, if it asks for one.
pub fn command_for(intent: Intent) -> (r: Option<Command>)
    ensures
        r == command_of(intent),
{
    match intent {
        Intent::LaunchApp { query } => Some(Command::LaunchApp { app: AppTarget::Query(query) }),
        Intent::OpenTerminal => Some(Command::OpenTerminal),
        Intent::FocusWindow { query } => Some(
            Command::Window { op: WindowOp::Focus, target: WindowTarget::from_query(Some(query)) },
        ),
        Intent::CloseWindow { query } => Some(
            Command::Window { op: WindowOp::Close, target: WindowTarget::from_query(query) },
        ),
        Intent::MinimizeWindow { query } => Some(
            Command::Window { op: WindowOp::Minimize, target: WindowTarget::from_query(query) },
        ),
        Intent::MaximizeWindow { query } => Some(
            Command::Window { op: WindowOp::Maximize, target: WindowTarget::from_query(query) },
        ),
        Intent::VirtualDesktop { n } => Some(Command::VirtualDesktop { n }),
        Intent::VirtualDesktopRel { delta } => Some(Command::VirtualDesktopRel { delta }),
        Intent::RunShortcut { component, action } => Some(
            Command::RunShortcut { component, action },
        ),
        Intent::KRunner { query } => Some(Command::KRunner { query }),
        Intent::StartClaude { model } => Some(Command::StartClaude { model }),
        Intent::ClaudeModel { model } => Some(Command::ClaudeModel { model }),
        Intent::ClaudeTell { text } => Some(Command::ClaudeTell { text }),
        Intent::ClaudeRead => Some(Command::ClaudeRead),
        Intent::Notify { text } => Some(Command::Notify { text }),
        Intent::Key { chord } => Some(Command::Key { chord }),
        Intent::ScratchThat
        | Intent::EditText { .. }
        | Intent::Confirm
        | Intent::Deny => None,
    }
}

/// The command a grammar intent asks for, where it asks for one.
pub fn from_intent(intent: Intent) -> (r: Command)
    requires
        command_of(intent) is Some,
    ensures
        Some(r) == command_of(intent),
{
    command_for(intent).unwrap()
}

/// Whether an intent acts on one window.
pub open spec fn on_window(intent: Intent) -> bool {
    intent is FocusWindow || intent is CloseWindow || intent is MinimizeWindow
        || intent is MaximizeWindow
}

/// The command a judged intent asks for: a window or an application picked
/// from the observed lists is named by its id instead of a title to be
/// matched again.
pub open spec fn resolved_command(
    intent: Intent,
    window_id: Option<String>,
    entry_id: Option<String>,
) -> Option<Command> {
    match command_of(intent) {
        Some(Command::Window { op, target }) => Some(
            Command::Window {
                op,
                target: match window_id {
                    Some(id) => WindowTarget::Id(id),
                    None => target,
                },
            },
        ),
        Some(Command::LaunchApp { app }) => Some(
            Command::LaunchApp {
                app: match entry_id {
                    Some(id) => AppTarget::Entry(id),
                    None => app,
                },
            },
        ),
        other => other,
    }
}

/// The command a judged intent asks for.
pub fn from_resolved(
    intent: Intent,
    window_id: Option<String>,
    entry_id: Option<String>,
) -> (r: Option<Command>)
    ensures
        r == resolved_command(intent, window_id, entry_id),
{
    match command_for(intent) {
        Some(Command::Window { op, target }) => Some(
            Command::Window {
                op,
                target: match window_id {
                    Some(id) => WindowTarget::Id(id),
                    None => target,
                },
            },
        ),
        Some(Command::LaunchApp { app }) => Some(
            Command::LaunchApp {
                app: match entry_id {
                    Some(id) => AppTarget::Entry(id),
                    None => app,
                },
            },
        ),
        other => other,
    }
}

/// Once a window was picked, the command touches that window and no other.
pub proof fn law_picked_window_is_the_target(intent: Intent, id: String, entry_id: Option<String>)
    requires
        on_window(intent),
    ensures
        resolved_command(intent, Some(id), entry_id) matches Some(Command::Window { target, .. })
            && target == WindowTarget::Id(id),
{
}

/// A window command does to the window what was named, whether the window is
/// still to be looked up or was picked already.
pub proof fn law_window_command_does_what_was_named(
    intent: Intent,
    window_id: Option<String>,
    entry_id: Option<String>,
)
    ensures
        intent is FocusWindow <==> (command_of(intent) matches Some(Command::Window { op, .. }) && op
            == WindowOp::Focus),
        intent is CloseWindow <==> (command_of(intent) matches Some(Command::Window { op, .. }) && op
            == WindowOp::Close),
        intent is MinimizeWindow <==> (command_of(intent) matches Some(Command::Window { op, .. }) && op
            == WindowOp::Minimize),
        intent is MaximizeWindow <==> (command_of(intent) matches Some(Command::Window { op, .. }) && op
            == WindowOp::Maximize),
        intent is FocusWindow <==> (resolved_command(intent, window_id, entry_id) matches Some(Command::Window { op, .. }) && op
            == WindowOp::Focus),
        intent is CloseWindow <==> (resolved_command(intent, window_id, entry_id) matches Some(Command::Window { op, .. }) && op
            == WindowOp::Close),
        intent is MinimizeWindow <==> (resolved_command(intent, window_id, entry_id) matches Some(Command::Window { op, .. }) && op
            == WindowOp::Minimize),
        intent is MaximizeWindow <==> (resolved_command(intent, window_id, entry_id) matches Some(Command::Window { op, .. }) && op
            == WindowOp::Maximize),
{
}

/// What a window is asked for by is what is looked for, and the focused window
/// is meant only where no window is named.
pub proof fn law_named_windows_are_looked_up(query: Option<String>)
    ensures
        queried(query) matches WindowTarget::Query(q) ==> query == Some(q),
        queried(query) is Focused <==> (query matches Some(q) ==> q@.len() == 0 || q@
            == "window"@),
        !(queried(query) is Id),
{
}

/// The intent can be read back from its command: nothing that was said is lost
/// on the way or turned into something else.
pub proof fn law_commands_read_back(intent: Intent)
    ensures
        match command_of(intent) {
            Some(Command::LaunchApp { app }) => app matches AppTarget::Query(query) && intent == (
            Intent::LaunchApp { query }),
            Some(Command::OpenTerminal) => intent == Intent::OpenTerminal,
            Some(Command::Window { op, target }) => match target {
                WindowTarget::Query(q) => intent == match op {
                    WindowOp::Focus => Intent::FocusWindow { query: q },
                    WindowOp::Close => Intent::CloseWindow { query: Some(q) },
                    WindowOp::Minimize => Intent::MinimizeWindow { query: Some(q) },
                    WindowOp::Maximize => Intent::MaximizeWindow { query: Some(q) },
                },
                WindowTarget::Id(_) => false,
                WindowTarget::Focused => true,
            },
            Some(Command::VirtualDesktop { n }) => intent == (Intent::VirtualDesktop { n }),
            Some(Command::VirtualDesktopRel { delta }) => intent == (Intent::VirtualDesktopRel {
                delta,
            }),
            Some(Command::RunShortcut { component, action }) => intent == (Intent::RunShortcut {
                component,
                action,
            }),
            Some(Command::KRunner { query }) => intent == (Intent::KRunner { query }),
            Some(Command::StartClaude { model }) => intent == (Intent::StartClaude { model }),
            Some(Command::ClaudeModel { model }) => intent == (Intent::ClaudeModel { model }),
            Some(Command::ClaudeTell { text }) => intent == (Intent::ClaudeTell { text }),
            Some(Command::ClaudeRead) => intent == Intent::ClaudeRead,
            Some(Command::Notify { text }) => intent == (Intent::Notify { text }),
            Some(Command::Key { chord }) => intent == (Intent::Key { chord }),
            None => intent is ScratchThat || intent is EditText || intent is Confirm
                || intent is Deny,
        },
        intent is ScratchThat || intent is EditText || intent is Confirm || intent is Deny
            ==> command_of(intent) is None,
{
}

/// What was picked from the observed lists only settles which window or
/// application is meant: the rest of the command is the one asked for.
pub proof fn law_picking_changes_only_the_target(
    intent: Intent,
    window_id: Option<String>,
    entry_id: Option<String>,
)
    ensures
        resolved_command(intent, None, None) == command_of(intent),
        !(intent is LaunchApp) ==> resolved_command(intent, None, entry_id) == command_of(intent),
        intent is LaunchApp ==> resolved_command(intent, window_id, entry_id) == match entry_id {
            Some(id) => Some(Command::LaunchApp { app: AppTarget::Entry(id) }),
            None => command_of(intent),
        },
        !(intent is LaunchApp || intent is FocusWindow || intent is CloseWindow
            || intent is MinimizeWindow || intent is MaximizeWindow) ==> resolved_command(
            intent,
            window_id,
            entry_id,
        ) == command_of(intent),
{
}

} // verus!
