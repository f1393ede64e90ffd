//! What an utterance can ask for.
use vstd::prelude::*;

use crate::text::{concat3, decimal_text, quoted, signed_text};

verus! {

/// A request, in the words of the person who made it.
#[allow(inconsistent_fields)]
#[derive(Clone, Debug, PartialEq, Eq)]
pub enum Intent {
    LaunchApp { query: String },
    OpenTerminal,
    FocusWindow { query: String },
    CloseWindow { query: Option<String> },
    MinimizeWindow { query: Option<String> },
    MaximizeWindow { query: Option<String> },
    VirtualDesktop { n: u32 },
    VirtualDesktopRel { delta: i32 },
    RunShortcut { component: String, action: String },
    KRunner { query: String },
    StartClaude { model: Option<String> },
    ClaudeModel { model: String },
    ClaudeTell { text: String },
    ClaudeRead,
    Notify { text: String },
    Key { chord: String },
    ScratchThat,
    EditText { instruction: String },
    Confirm,
    Deny,
}

/// An [`Intent`] with its texts as character sequences.
#[allow(inconsistent_fields)]
pub ghost enum IntentView {
    LaunchApp { query: Seq<char> },
    OpenTerminal,
    FocusWindow { query: Seq<char> },
    CloseWindow { query: Option<Seq<char>> },
    MinimizeWindow { query: Option<Seq<char>> },
    MaximizeWindow { query: Option<Seq<char>> },
    VirtualDesktop { n: u32 },
    VirtualDesktopRel { delta: i32 },
    RunShortcut { component: Seq<char>, action: Seq<char> },
    KRunner { query: Seq<char> },
    StartClaude { model: Option<Seq<char>> },
    ClaudeModel { model: Seq<char> },
    ClaudeTell { text: Seq<char> },
    ClaudeRead,
    Notify { text: Seq<char> },
    Key { chord: Seq<char> },
    ScratchThat,
    EditText { instruction: Seq<char> },
    Confirm,
    Deny,
}

/// The text inside an optional string.
pub open spec fn opt_text(s: Option<String>) -> Option<Seq<char>> {
    match s {
        Some(s) => Some(s@),
        None => None,
    }
}

impl View for Intent {
    type V = IntentView;

    open spec fn view(&self) -> IntentView {
        match *self {
            Intent::LaunchApp { query } => IntentView::LaunchApp { query: query@ },
            Intent::OpenTerminal => IntentView::OpenTerminal,
            Intent::FocusWindow { query } => IntentView::FocusWindow { query: query@ },
            Intent::CloseWindow { query } => IntentView::CloseWindow { query: opt_text(query) },
            Intent::MinimizeWindow { query } => IntentView::MinimizeWindow {
                query: opt_text(query),
            },
            Intent::MaximizeWindow { query } => IntentView::MaximizeWindow {
                query: opt_text(query),
            },
            Intent::VirtualDesktop { n } => IntentView::VirtualDesktop { n },
            Intent::VirtualDesktopRel { delta } => IntentView::VirtualDesktopRel { delta },
            Intent::RunShortcut { component, action } => IntentView::RunShortcut {
                component: component@,
                action: action@,
            },
            Intent::KRunner { query } => IntentView::KRunner { query: query@ },
            Intent::StartClaude { model } => IntentView::StartClaude { model: opt_text(model) },
            Intent::ClaudeModel { model } => IntentView::ClaudeModel { model: model@ },
            Intent::ClaudeTell { text } => IntentView::ClaudeTell { text: text@ },
            Intent::ClaudeRead => IntentView::ClaudeRead,
            Intent::Notify { text } => IntentView::Notify { text: text@ },
            Intent::Key { chord } => IntentView::Key { chord: chord@ },
            Intent::ScratchThat => IntentView::ScratchThat,
            Intent::EditText { instruction } => IntentView::EditText { instruction: instruction@ },
            Intent::Confirm => IntentView::Confirm,
            Intent::Deny => IntentView::Deny,
        }
    }
}

impl IntentView {
    /// Whether the intent asks first whatever was judged about it: it closes
    /// something, runs a shortcut, hands text to an agent or sends keys.
    pub open spec fn always_asks(self) -> bool {
        self is CloseWindow || self is RunShortcut || self is ClaudeTell || self is Key
    }

    /// The name of the variant.
    pub open spec fn name(self) -> Seq<char> {
        match self {
            IntentView::LaunchApp { .. } => "launch_app"@,
            IntentView::OpenTerminal => "open_terminal"@,
            IntentView::FocusWindow { .. } => "focus_window"@,
            IntentView::CloseWindow { .. } => "close_window"@,
            IntentView::MinimizeWindow { .. } => "minimize_window"@,
            IntentView::MaximizeWindow { .. } => "maximize_window"@,
            IntentView::VirtualDesktop { .. } => "virtual_desktop"@,
            IntentView::VirtualDesktopRel { .. } => "virtual_desktop_rel"@,
            IntentView::RunShortcut { .. } => "run_shortcut"@,
            IntentView::KRunner { .. } => "krunner"@,
            IntentView::StartClaude { .. } => "start_claude"@,
            IntentView::ClaudeModel { .. } => "claude_model"@,
            IntentView::ClaudeTell { .. } => "claude_tell"@,
            IntentView::ClaudeRead => "claude_read"@,
            IntentView::Notify { .. } => "notify"@,
            IntentView::Key { .. } => "key"@,
            IntentView::ScratchThat => "scratch_that"@,
            IntentView::EditText { .. } => "edit_text"@,
            IntentView::Confirm => "confirm"@,
            IntentView::Deny => "deny"@,
        }
    }
}

impl Intent {
    /// Whether the intent always waits for a spoken yes.
    pub fn needs_confirmation(&self) -> (r: bool)
        ensures
            r == self@.always_asks(),
    {
        match self {
            Intent::CloseWindow { .. }
            | Intent::RunShortcut { .. }
            | Intent::ClaudeTell { .. }
            | Intent::Key { .. } => true,
            _ => false,
        }
    }
}

/// The variant name, for messages that should not dump the arguments.
pub fn intent_name(intent: &Intent) -> (r: &'static str)
    ensures
        r@ == intent@.name(),
{
    match intent {
        Intent::LaunchApp { .. } => "launch_app",
        Intent::OpenTerminal => "open_terminal",
        Intent::FocusWindow { .. } => "focus_window",
        Intent::CloseWindow { .. } => "close_window",
        Intent::MinimizeWindow { .. } => "minimize_window",
        Intent::MaximizeWindow { .. } => "maximize_window",
        Intent::VirtualDesktop { .. } => "virtual_desktop",
        Intent::VirtualDesktopRel { .. } => "virtual_desktop_rel",
        Intent::RunShortcut { .. } => "run_shortcut",
        Intent::KRunner { .. } => "krunner",
        Intent::StartClaude { .. } => "start_claude",
        Intent::ClaudeModel { .. } => "claude_model",
        Intent::ClaudeTell { .. } => "claude_tell",
        Intent::ClaudeRead => "claude_read",
        Intent::Notify { .. } => "notify",
        Intent::Key { .. } => "key",
        Intent::ScratchThat => "scratch_that",
        Intent::EditText { .. } => "edit_text",
        Intent::Confirm => "confirm",
        Intent::Deny => "deny",
    }
}

/// An optional text as log lines show it.
pub open spec fn shown_option(s: Option<Seq<char>>) -> Seq<char> {
    match s {
        Some(s) => "Some("@ + crate::text::debug_text(s) + ")"@,
        None => "None"@,
    }
}

fn quoted_option(s: &Option<String>) -> (r: String)
    ensures
        r@ == shown_option(opt_text(*s)),
{
    match s {
        Some(s) => {
            let text = quoted(s.as_str());
            concat3("Some(", text.as_str(), ")")
        },
        None => "None".to_string(),
    }
}

impl IntentView {
    /// The intent with its arguments, as log lines and refusals show it.
    pub open spec fn shown(self) -> Seq<char> {
        match self {
            IntentView::LaunchApp { query } => "LaunchApp { query: "@ + crate::text::debug_text(query) + " }"@,
            IntentView::OpenTerminal => "OpenTerminal"@,
            IntentView::FocusWindow { query } => "FocusWindow { query: "@ + crate::text::debug_text(query) + " }"@,
            IntentView::CloseWindow { query } => "CloseWindow { query: "@ + shown_option(query) + " }"@,
            IntentView::MinimizeWindow { query } => "MinimizeWindow { query: "@ + shown_option(query) + " }"@,
            IntentView::MaximizeWindow { query } => "MaximizeWindow { query: "@ + shown_option(query) + " }"@,
            IntentView::VirtualDesktop { n } => "VirtualDesktop { n: "@ + crate::text::decimal(n as nat) + " }"@,
            IntentView::VirtualDesktopRel { delta } => "VirtualDesktopRel { delta: "@ + crate::text::signed(delta as int) + " }"@,
            IntentView::RunShortcut { component, action } => "RunShortcut { component: "@
                + crate::text::debug_text(component) + ", action: "@ + crate::text::debug_text(
                action,
            ) + " }"@,
            IntentView::KRunner { query } => "KRunner { query: "@ + crate::text::debug_text(query) + " }"@,
            IntentView::StartClaude { model } => "StartClaude { model: "@ + shown_option(model) + " }"@,
            IntentView::ClaudeModel { model } => "ClaudeModel { model: "@ + crate::text::debug_text(model) + " }"@,
            IntentView::ClaudeTell { text } => "ClaudeTell { text: "@ + crate::text::debug_text(text) + " }"@,
            IntentView::ClaudeRead => "ClaudeRead"@,
            IntentView::Notify { text } => "Notify { text: "@ + crate::text::debug_text(text) + " }"@,
            IntentView::Key { chord } => "Key { chord: "@ + crate::text::debug_text(chord) + " }"@,
            IntentView::ScratchThat => "ScratchThat"@,
            IntentView::EditText { instruction } => "EditText { instruction: "@ + crate::text::debug_text(instruction) + " }"@,
            IntentView::Confirm => "Confirm"@,
            IntentView::Deny => "Deny"@,
        }
    }
}

/// The intent with its arguments, as log lines and refusals show it.
pub fn intent_text(intent: &Intent) -> (r: String)
    ensures
        r@ == intent@.shown(),
{
    match intent {
        Intent::LaunchApp { query } => {
            let value = quoted(query.as_str());
            concat3("LaunchApp { query: ", value.as_str(), " }")
        },
        Intent::OpenTerminal => "OpenTerminal".to_string(),
        Intent::FocusWindow { query } => {
            let value = quoted(query.as_str());
            concat3("FocusWindow { query: ", value.as_str(), " }")
        },
        Intent::CloseWindow { query } => {
            let value = quoted_option(query);
            concat3("CloseWindow { query: ", value.as_str(), " }")
        },
        Intent::MinimizeWindow { query } => {
            let value = quoted_option(query);
            concat3("MinimizeWindow { query: ", value.as_str(), " }")
        },
        Intent::MaximizeWindow { query } => {
            let value = quoted_option(query);
            concat3("MaximizeWindow { query: ", value.as_str(), " }")
        },
        Intent::VirtualDesktop { n } => {
            let value = decimal_text(*n as u64);
            concat3("VirtualDesktop { n: ", value.as_str(), " }")
        },
        Intent::VirtualDesktopRel { delta } => {
            let value = signed_text(*delta);
            concat3("VirtualDesktopRel { delta: ", value.as_str(), " }")
        },
        Intent::RunShortcut { component, action } => {
            let first = quoted(component.as_str());
            let second = quoted(action.as_str());
            let mut out = concat3("RunShortcut { component: ", first.as_str(), ", action: ");
            out.append(second.as_str());
            out.append(" }");
            out
        },
        Intent::KRunner { query } => {
            let value = quoted(query.as_str());
            concat3("KRunner { query: ", value.as_str(), " }")
        },
        Intent::StartClaude { model } => {
            let value = quoted_option(model);
            concat3("StartClaude { model: ", value.as_str(), " }")
        },
        Intent::ClaudeModel { model } => {
            let value = quoted(model.as_str());
            concat3("ClaudeModel { model: ", value.as_str(), " }")
        },
        Intent::ClaudeTell { text } => {
            let value = quoted(text.as_str());
            concat3("ClaudeTell { text: ", value.as_str(), " }")
        },
        Intent::ClaudeRead => "ClaudeRead".to_string(),
        Intent::Notify { text } => {
            let value = quoted(text.as_str());
            concat3("Notify { text: ", value.as_str(), " }")
        },
        Intent::Key { chord } => {
            let value = quoted(chord.as_str());
            concat3("Key { chord: ", value.as_str(), " }")
        },
        Intent::ScratchThat => "ScratchThat".to_string(),
        Intent::EditText { instruction } => {
            let value = quoted(instruction.as_str());
            concat3("EditText { instruction: ", value.as_str(), " }")
        },
        Intent::Confirm => "Confirm".to_string(),
        Intent::Deny => "Deny".to_string(),
    }
}

/// What always asks first is what closes a window, runs a shortcut, hands text
/// to the coding assistant or sends keys, and nothing else.
pub proof fn law_what_always_asks(intent: Intent)
    ensures
        intent@.always_asks() <==> intent is CloseWindow || intent is RunShortcut
            || intent is ClaudeTell || intent is Key,
{
}

/// Every intent goes by the name of its kind, whatever its arguments.
pub proof fn law_intents_go_by_their_kind(intent: IntentView)
    ensures
        intent is LaunchApp ==> intent.name() == "launch_app"@,
        intent is OpenTerminal ==> intent.name() == "open_terminal"@,
        intent is FocusWindow ==> intent.name() == "focus_window"@,
        intent is CloseWindow ==> intent.name() == "close_window"@,
        intent is MinimizeWindow ==> intent.name() == "minimize_window"@,
        intent is MaximizeWindow ==> intent.name() == "maximize_window"@,
        intent is VirtualDesktop ==> intent.name() == "virtual_desktop"@,
        intent is VirtualDesktopRel ==> intent.name() == "virtual_desktop_rel"@,
        intent is RunShortcut ==> intent.name() == "run_shortcut"@,
        intent is KRunner ==> intent.name() == "krunner"@,
        intent is StartClaude ==> intent.name() == "start_claude"@,
        intent is ClaudeModel ==> intent.name() == "claude_model"@,
        intent is ClaudeTell ==> intent.name() == "claude_tell"@,
        intent is ClaudeRead ==> intent.name() == "claude_read"@,
        intent is Notify ==> intent.name() == "notify"@,
        intent is Key ==> intent.name() == "key"@,
        intent is ScratchThat ==> intent.name() == "scratch_that"@,
        intent is EditText ==> intent.name() == "edit_text"@,
        intent is Confirm ==> intent.name() == "confirm"@,
        intent is Deny ==> intent.name() == "deny"@,
{
}

/// An intent is shown under its kind, then with its arguments.
pub proof fn law_intents_are_shown_under_their_kind(intent: IntentView)
    ensures
        intent is LaunchApp ==> intent.shown().len() >= 9 && intent.shown().take(9)
            == "LaunchApp"@,
        intent is OpenTerminal ==> intent.shown().len() >= 12 && intent.shown().take(12)
            == "OpenTerminal"@,
        intent is FocusWindow ==> intent.shown().len() >= 11 && intent.shown().take(11)
            == "FocusWindow"@,
        intent is CloseWindow ==> intent.shown().len() >= 11 && intent.shown().take(11)
            == "CloseWindow"@,
        intent is MinimizeWindow ==> intent.shown().len() >= 14 && intent.shown().take(14)
            == "MinimizeWindow"@,
        intent is MaximizeWindow ==> intent.shown().len() >= 14 && intent.shown().take(14)
            == "MaximizeWindow"@,
        intent is VirtualDesktop ==> intent.shown().len() >= 14 && intent.shown().take(14)
            == "VirtualDesktop"@,
        intent is VirtualDesktopRel ==> intent.shown().len() >= 17 && intent.shown().take(17)
            == "VirtualDesktopRel"@,
        intent is RunShortcut ==> intent.shown().len() >= 11 && intent.shown().take(11)
            == "RunShortcut"@,
        intent is KRunner ==> intent.shown().len() >= 7 && intent.shown().take(7)
            == "KRunner"@,
        intent is StartClaude ==> intent.shown().len() >= 11 && intent.shown().take(11)
            == "StartClaude"@,
        intent is ClaudeModel ==> intent.shown().len() >= 11 && intent.shown().take(11)
            == "ClaudeModel"@,
        intent is ClaudeTell ==> intent.shown().len() >= 10 && intent.shown().take(10)
            == "ClaudeTell"@,
        intent is ClaudeRead ==> intent.shown().len() >= 10 && intent.shown().take(10)
            == "ClaudeRead"@,
        intent is Notify ==> intent.shown().len() >= 6 && intent.shown().take(6)
            == "Notify"@,
        intent is Key ==> intent.shown().len() >= 3 && intent.shown().take(3)
            == "Key"@,
        intent is ScratchThat ==> intent.shown().len() >= 11 && intent.shown().take(11)
            == "ScratchThat"@,
        intent is EditText ==> intent.shown().len() >= 8 && intent.shown().take(8)
            == "EditText"@,
        intent is Confirm ==> intent.shown().len() >= 7 && intent.shown().take(7)
            == "Confirm"@,
        intent is Deny ==> intent.shown().len() >= 4 && intent.shown().take(4)
            == "Deny"@,
        intent matches IntentView::VirtualDesktop { n } ==> intent.shown() == "VirtualDesktop { n: "@
            + crate::text::decimal(n as nat) + " }"@,
        intent matches IntentView::RunShortcut { component, action } ==> intent.shown()
            == "RunShortcut { component: "@ + crate::text::debug_text(component) + ", action: "@
            + crate::text::debug_text(action) + " }"@,
{
    match intent {
        IntentView::LaunchApp { .. } => {
            reveal_strlit("LaunchApp");
            reveal_strlit("LaunchApp { query: ");
            assert(intent.shown().take(9) =~= "LaunchApp"@);
        },
        IntentView::OpenTerminal => {
            reveal_strlit("OpenTerminal");
            assert(intent.shown().take(12) =~= "OpenTerminal"@);
        },
        IntentView::FocusWindow { .. } => {
            reveal_strlit("FocusWindow");
            reveal_strlit("FocusWindow { query: ");
            assert(intent.shown().take(11) =~= "FocusWindow"@);
        },
        IntentView::CloseWindow { .. } => {
            reveal_strlit("CloseWindow");
            reveal_strlit("CloseWindow { query: ");
            assert(intent.shown().take(11) =~= "CloseWindow"@);
        },
        IntentView::MinimizeWindow { .. } => {
            reveal_strlit("MinimizeWindow");
            reveal_strlit("MinimizeWindow { query: ");
            assert(intent.shown().take(14) =~= "MinimizeWindow"@);
        },
        IntentView::MaximizeWindow { .. } => {
            reveal_strlit("MaximizeWindow");
            reveal_strlit("MaximizeWindow { query: ");
            assert(intent.shown().take(14) =~= "MaximizeWindow"@);
        },
        IntentView::VirtualDesktop { .. } => {
            reveal_strlit("VirtualDesktop");
            reveal_strlit("VirtualDesktop { n: ");
            assert(intent.shown().take(14) =~= "VirtualDesktop"@);
        },
        IntentView::VirtualDesktopRel { .. } => {
            reveal_strlit("VirtualDesktopRel");
            reveal_strlit("VirtualDesktopRel { delta: ");
            assert(intent.shown().take(17) =~= "VirtualDesktopRel"@);
        },
        IntentView::RunShortcut { .. } => {
            reveal_strlit("RunShortcut");
            reveal_strlit("RunShortcut { component: ");
            assert(intent.shown().take(11) =~= "RunShortcut"@);
        },
        IntentView::KRunner { .. } => {
            reveal_strlit("KRunner");
            reveal_strlit("KRunner { query: ");
            assert(intent.shown().take(7) =~= "KRunner"@);
        },
        IntentView::StartClaude { .. } => {
            reveal_strlit("StartClaude");
            reveal_strlit("StartClaude { model: ");
            assert(intent.shown().take(11) =~= "StartClaude"@);
        },
        IntentView::ClaudeModel { .. } => {
            reveal_strlit("ClaudeModel");
            reveal_strlit("ClaudeModel { model: ");
            assert(intent.shown().take(11) =~= "ClaudeModel"@);
        },
        IntentView::ClaudeTell { .. } => {
            reveal_strlit("ClaudeTell");
            reveal_strlit("ClaudeTell { text: ");
            assert(intent.shown().take(10) =~= "ClaudeTell"@);
        },
        IntentView::ClaudeRead => {
            reveal_strlit("ClaudeRead");
            assert(intent.shown().take(10) =~= "ClaudeRead"@);
        },
        IntentView::Notify { .. } => {
            reveal_strlit("Notify");
            reveal_strlit("Notify { text: ");
            assert(intent.shown().take(6) =~= "Notify"@);
        },
        IntentView::Key { .. } => {
            reveal_strlit("Key");
            reveal_strlit("Key { chord: ");
            assert(intent.shown().take(3) =~= "Key"@);
        },
        IntentView::ScratchThat => {
            reveal_strlit("ScratchThat");
            assert(intent.shown().take(11) =~= "ScratchThat"@);
        },
        IntentView::EditText { .. } => {
            reveal_strlit("EditText");
            reveal_strlit("EditText { instruction: ");
            assert(intent.shown().take(8) =~= "EditText"@);
        },
        IntentView::Confirm => {
            reveal_strlit("Confirm");
            assert(intent.shown().take(7) =~= "Confirm"@);
        },
        IntentView::Deny => {
            reveal_strlit("Deny");
            assert(intent.shown().take(4) =~= "Deny"@);
        },
    }
}

} // verus!
