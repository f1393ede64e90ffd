//! The wording of the judge's questions. Some of it names the coding assistant,
//! as the settings say it is called.
use vstd::prelude::*;

use crate::text::concat3;

verus! {

pub const TARGET_FOCUSED: &'static str = "the window the user is working in right now: what `this window`, `the current window` or a request that names no window means";

pub const TARGET_NONE: &'static str = "none of these: the utterance names no application or window on this list";

pub const DESKTOP_NONE: &'static str = "none of these: no desktop number is named, or the number named does not exist";

pub const PAYLOAD_NONE: &'static str = "`utterance` carries no such message";

pub const PAYLOAD_WHOLE_BEFORE: &'static str = "all of `utterance`, ";

pub const PAYLOAD_WHOLE_AFTER: &'static str = ": only if no word of it is a command wrapper";

pub const INTENT_TASK: &'static str = "The user spoke `utterance` to a voice assistant that drives a KDE Plasma desktop. Decide which single action they asked for.";

pub const INTENT_NOTE: &'static str = "Use `open_windows` to tell a request to start something new from a request to switch to something already running.";

pub const DICTATION_ASK: &'static str = "What was `utterance`: a command for this desktop assistant, text the user meant to have typed as spoken, or neither?";

pub const DICTATION_IS_TEXT: &'static str = "a sentence for a document, email, chat or note, to be typed as spoken: a statement, a greeting, a remark or a request to another person; it asks nothing of this desktop";

pub const DICTATION_IS_NEITHER: &'static str = "a question for the assistant to answer, a fragment, or noise";

pub const DESTRUCTIVE_ASK: &'static str = "If the assistant carries out `utterance`, could that destroy unsaved work or be hard for the user to undo?";

pub const DESTRUCTIVE_FOCUS: &'static str = "Judge the actual target in `open_windows`, not the verb alone.";

pub const DESTRUCTIVE_YES: &'static str = "Closing or killing something holding unsaved state or a long-running job: an editor with unsaved changes, a terminal running a build, a VM.";

pub const DESTRUCTIVE_NO: &'static str = "Reversible or inert: focusing, minimizing, maximizing, switching desktop, launching, searching, notifying, or closing a viewer with no editable state.";

pub const TARGET_TASK: &'static str = "Assuming `utterance` acts on an application or window, which candidate did the user mean?";

pub const TARGET_NOTE: &'static str = "`a:` keys are applications installed on this machine, named with what they do; `w:` keys are the windows currently open, matching `open_windows`. An application asked for by name or by what it does is a match even if no window of it is open. Choose the open window when the user implies something already running.";

pub const DESKTOP_ASK_BEFORE: &'static str = "Assuming `utterance` asks to switch to a specific numbered virtual desktop, which number? The user is currently on desktop ";

pub const DESKTOP_ASK_AFTER: &'static str = ".";

pub const DIRECTION_ASK: &'static str = "Assuming `utterance` asks to move one virtual desktop relative to the current one, in which direction?";

pub const DIRECTION_NEXT: &'static str = "forward, to a higher-numbered desktop: the next or following one, to the right";

pub const DIRECTION_PREVIOUS: &'static str = "back, to a lower-numbered desktop: the previous one, to the left";

pub const DIRECTION_NONE: &'static str = "neither: no relative movement is asked for";

pub const MODEL_OPUS: &'static str = "the most capable model; also 'the big one', 'the smart one'";

pub const MODEL_SONNET: &'static str = "the balanced default";

pub const MODEL_HAIKU: &'static str = "the smallest and fastest; also 'the quick one', 'the small one', 'the cheap one'";

pub const MODEL_NONE: &'static str = "none of these: no model is named or implied";

pub const PAYLOAD_FOCUS: &'static str = "Each candidate's description is a trailing span of `utterance`. Pick the one that starts where the command wrapper ends, keeping the message itself complete and unaltered.";

pub const SERVED_TASK_BEFORE: &'static str = "`utterance` carries a message to pass on verbatim: ";

pub const SERVED_TASK_AFTER: &'static str = ". Which candidate is exactly that message?";

pub const SERVED_FOCUS: &'static str = "Each candidate is a trailing span of `utterance`. Pick the one that starts right after the words that ask for the action, keeping the message itself complete. The whole utterance is the answer only when it contains no such words.";

pub const SERVED_NOTIFY: &'static str = "the text of a desktop notification the user asked to be shown";

pub const SERVED_NOTIFY_EXAMPLE: &'static str = "For 'pop up a note saying lunch is ready', the message is 'lunch is ready'.";

pub const SERVED_KRUNNER: &'static str = "the search terms the user asked to be looked up";

pub const SERVED_KRUNNER_EXAMPLE: &'static str = "For 'can you look for the vacation photos', the message is 'the vacation photos'.";

pub const SERVED_KEY: &'static str = "the key chord the user asked to be pressed";

pub const SERVED_KEY_EXAMPLE: &'static str = "For 'hit control s', the message is 'control s'.";

pub const INTENT_NONE: &'static str = "Not a desktop command, or too ambiguous to act on safely";

pub const INTENT_CLOSE_WINDOW: &'static str = "Close or quit a window";

pub const INTENT_EDIT_TEXT: &'static str = "Change the text the user dictated a moment ago: rewrite, shorten, expand, reformat, translate, fix, or change its tone";

pub const INTENT_KEY: &'static str = "Press a key or key chord in the focused window: enter, escape, tab, control s, alt f4";

pub const INTENT_KRUNNER: &'static str = "Search this computer for a file, folder or document by name: find, look up, locate, where is. Not for starting a program";

pub const INTENT_MAXIMIZE: &'static str = "Maximize or full-screen a window";

pub const INTENT_MINIMIZE: &'static str = "Hide a window from the screen without closing it: minimize, tuck away, send to the taskbar";

pub const INTENT_NOTIFY: &'static str = "Show the user a desktop notification with the text they give";

pub const INTENT_TERMINAL: &'static str = "Open a new terminal window: a shell, a console";

pub const INTENT_SHOW_APP: &'static str = "Put an application or window in front of the user, whether or not it is already running. The application may be named by what it does: the file manager, the calculator, the screenshot tool";

pub const INTENT_DESKTOP: &'static str = "Switch to a virtual desktop identified by number";

pub const INTENT_DESKTOP_REL: &'static str = "Move one virtual desktop forward or back from the current one";

/// What a command is, in the dictation question.
pub open spec fn dictation_is_command(assistant: Seq<char>) -> Seq<char> {
    "asks the assistant to do something on this desktop or in "@ + assistant + " Code, even when it carries words to pass on: a notification's text, a search, a message for "@ + assistant + " Code, a change to the text just dictated"@
}

/// What a command is, in the dictation question.
pub fn dictation_is_command_text(assistant: &str) -> (r: String)
    ensures
        r@ == dictation_is_command(assistant@),
{
    let mut out = concat3(
        "asks the assistant to do something on this desktop or in ",
        assistant,
        " Code, even when it carries words to pass on: a notification's text, a search, a message for ",
    );
    out.append(assistant);
    out.append(" Code, a change to the text just dictated");
    out
}

/// Which model is named.
pub open spec fn model_ask(assistant: Seq<char>) -> Seq<char> {
    "Assuming `utterance` names which "@ + assistant + " model to use, which one? Choose the no-name option if the user does not mention a model at all, so the configured default stands."@
}

/// Which model is named.
pub fn model_ask_text(assistant: &str) -> (r: String)
    ensures
        r@ == model_ask(assistant@),
{
    concat3(
        "Assuming `utterance` names which ",
        assistant,
        " model to use, which one? Choose the no-name option if the user does not mention a model at all, so the configured default stands.",
    )
}

/// Which words are the message.
pub open spec fn payload_task(assistant: Seq<char>) -> Seq<char> {
    "Assuming `utterance` carries a message to pass on verbatim \u{2014} a prompt for "@ + assistant + " Code, a notification body, a search string, or a key chord \u{2014} which candidate is exactly that message?"@
}

/// Which words are the message.
pub fn payload_task_text(assistant: &str) -> (r: String)
    ensures
        r@ == payload_task(assistant@),
{
    concat3(
        "Assuming `utterance` carries a message to pass on verbatim \u{2014} a prompt for ",
        assistant,
        " Code, a notification body, a search string, or a key chord \u{2014} which candidate is exactly that message?",
    )
}

/// An example of a message.
pub open spec fn payload_example(assistant: Seq<char>) -> Seq<char> {
    "For 'tell "@ + crate::text::lowered(assistant) + " to fix the failing test', the message is 'to fix the failing test', not the whole utterance."@
}

/// An example of a message.
pub fn payload_example_text(assistant: &str) -> (r: String)
    ensures
        r@ == payload_example(assistant@),
{
    let name = crate::text::lower(assistant);
    concat3(
        "For 'tell ",
        name.as_str(),
        " to fix the failing test', the message is 'to fix the failing test', not the whole utterance.",
    )
}

/// What the message to the coding assistant is.
pub open spec fn served_claude(assistant: Seq<char>) -> Seq<char> {
    "the instruction the user wants passed to "@ + assistant + " Code as spoken"@
}

/// What the message to the coding assistant is.
pub fn served_claude_text(assistant: &str) -> (r: String)
    ensures
        r@ == served_claude(assistant@),
{
    concat3(
        "the instruction the user wants passed to ",
        assistant,
        " Code as spoken",
    )
}

/// An example of a message to the coding assistant.
pub open spec fn served_claude_example(assistant: Seq<char>) -> Seq<char> {
    "For 'let "@ + crate::text::lowered(assistant) + " know the tests pass', the message is 'the tests pass'."@
}

/// An example of a message to the coding assistant.
pub fn served_claude_example_text(assistant: &str) -> (r: String)
    ensures
        r@ == served_claude_example(assistant@),
{
    let name = crate::text::lower(assistant);
    concat3(
        "For 'let ",
        name.as_str(),
        " know the tests pass', the message is 'the tests pass'.",
    )
}

/// Changing the model of the coding assistant.
pub open spec fn intent_claude_model(assistant: Seq<char>) -> Seq<char> {
    "Change which model the running "@ + assistant + " Code session uses"@
}

/// Changing the model of the coding assistant.
pub fn intent_claude_model_text(assistant: &str) -> (r: String)
    ensures
        r@ == intent_claude_model(assistant@),
{
    concat3(
        "Change which model the running ",
        assistant,
        " Code session uses",
    )
}

/// Reading back what the coding assistant says.
pub open spec fn intent_claude_read(assistant: Seq<char>) -> Seq<char> {
    "Read back what the "@ + assistant + " Code session has output so far, or report what it is doing now"@
}

/// Reading back what the coding assistant says.
pub fn intent_claude_read_text(assistant: &str) -> (r: String)
    ensures
        r@ == intent_claude_read(assistant@),
{
    concat3(
        "Read back what the ",
        assistant,
        " Code session has output so far, or report what it is doing now",
    )
}

/// Telling the coding assistant something.
pub open spec fn intent_claude_tell(assistant: Seq<char>) -> Seq<char> {
    "Send the running "@ + assistant + " Code session an instruction, question or message to act on: have it fix, explain, add or run something"@
}

/// Telling the coding assistant something.
pub fn intent_claude_tell_text(assistant: &str) -> (r: String)
    ensures
        r@ == intent_claude_tell(assistant@),
{
    concat3(
        "Send the running ",
        assistant,
        " Code session an instruction, question or message to act on: have it fix, explain, add or run something",
    )
}

/// Starting the coding assistant.
pub open spec fn intent_start_claude(assistant: Seq<char>) -> Seq<char> {
    "Start a new "@ + assistant + " Code coding session, optionally naming its model"@
}

/// Starting the coding assistant.
pub fn intent_start_claude_text(assistant: &str) -> (r: String)
    ensures
        r@ == intent_start_claude(assistant@),
{
    concat3(
        "Start a new ",
        assistant,
        " Code coding session, optionally naming its model",
    )
}

} // verus!
