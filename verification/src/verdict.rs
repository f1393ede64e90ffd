//! From the model's answers to an intent: every choice is checked against
//! what was offered, an argument that is missing is never guessed, and the
//! whole is only as certain as its least certain part.
use vstd::prelude::*;

use crate::desktop::{Window, WindowView};
use crate::double::Double;
use crate::intent::{Intent, IntentView};
use crate::judge::{AppCandidate, AppView, Candidates, CandidatesView};
use crate::judge::{APP_KEY, DICTATION_TEXT, FOCUSED, NO_TARGET, SPAN_KEY, WHOLE, WINDOW_KEY};
use crate::oracle::{Answer, AnswerView, AnswersView, Prose, ProseView, Question};
use crate::oracle::{QuestionView, QuestionsView, Response};
use crate::payload::strip_cue;
use crate::policy::{risk_rule, Policy, Risk, Signals};
use crate::text::{concat2, concat3, decimal_text, parse_number, quoted, same, strip_prefix};

verus! {

/// Why nothing was built.
#[allow(inconsistent_fields)]
#[derive(Clone, Debug, PartialEq, Eq)]
pub enum Unclear {
    /// The model found no command.
    NotCommand,
    /// The intent question was not answered.
    NoIntent,
    /// The model chose a key that was not sent.
    NeverOffered { key: String, id: String },
    /// The intent needs an argument that was not given.
    Without { name: String, id: String },
    /// Asked to show what is already in front.
    ShowFocused,
    /// A desktop number that is none.
    NotNumber { key: String },
    /// A desktop that does not exist.
    NoSuchDesktop { n: u32, count: u32 },
    /// Neither forward nor back.
    BadDirection { key: String },
    /// Words that are no key chord.
    NotChord { spoken: String },
    /// A payload key that names no span.
    NoSpan { key: String },
    /// An intent nothing here can build.
    NoRule { name: String },
}

/// An [`Unclear`] as character sequences.
#[allow(inconsistent_fields)]
pub ghost enum UnclearView {
    NotCommand,
    NoIntent,
    NeverOffered { key: Seq<char>, id: Seq<char> },
    Without { name: Seq<char>, id: Seq<char> },
    ShowFocused,
    NotNumber { key: Seq<char> },
    NoSuchDesktop { n: u32, count: u32 },
    BadDirection { key: Seq<char> },
    NotChord { spoken: Seq<char> },
    NoSpan { key: Seq<char> },
    NoRule { name: Seq<char> },
}

impl View for Unclear {
    type V = UnclearView;

    open spec fn view(&self) -> UnclearView {
        match *self {
            Unclear::NotCommand => UnclearView::NotCommand,
            Unclear::NoIntent => UnclearView::NoIntent,
            Unclear::NeverOffered { key, id } => UnclearView::NeverOffered { key: key@, id: id@ },
            Unclear::Without { name, id } => UnclearView::Without { name: name@, id: id@ },
            Unclear::ShowFocused => UnclearView::ShowFocused,
            Unclear::NotNumber { key } => UnclearView::NotNumber { key: key@ },
            Unclear::NoSuchDesktop { n, count } => UnclearView::NoSuchDesktop { n, count },
            Unclear::BadDirection { key } => UnclearView::BadDirection { key: key@ },
            Unclear::NotChord { spoken } => UnclearView::NotChord { spoken: spoken@ },
            Unclear::NoSpan { key } => UnclearView::NoSpan { key: key@ },
            Unclear::NoRule { name } => UnclearView::NoRule { name: name@ },
        }
    }
}

/// What is said of it.
pub open spec fn unclear_text(u: UnclearView) -> Seq<char> {
    match u {
        UnclearView::NotCommand => "not a desktop command"@,
        UnclearView::NoIntent => "model returned no intent"@,
        UnclearView::NeverOffered { key, id } => "model chose "@ + crate::text::debug_text(key)
            + " for "@ + id + ", which was never offered"@,
        UnclearView::Without { name, id } => name + " without a "@ + id,
        UnclearView::ShowFocused => "show_app pointed at the window that already has focus"@,
        UnclearView::NotNumber { key } => "desktop number "@ + crate::text::debug_text(key)
            + " is not a number"@,
        UnclearView::NoSuchDesktop { n, count } => "desktop "@ + crate::text::decimal(n as nat)
            + " does not exist (this machine has "@ + crate::text::decimal(count as nat) + ")"@,
        UnclearView::BadDirection { key } => "desktop direction "@ + crate::text::debug_text(key)
            + " is not next or previous"@,
        UnclearView::NotChord { spoken } => crate::text::debug_text(spoken)
            + " is not a key chord"@,
        UnclearView::NoSpan { key } => "payload key "@ + crate::text::debug_text(key)
            + " names no span"@,
        UnclearView::NoRule { name } => "no rule to build intent "@ + crate::text::debug_text(name),
    }
}

impl Unclear {
    /// What is said of it.
    pub fn text(&self) -> (r: String)
        ensures
            r@ == unclear_text(self@),
    {
        match self {
            Unclear::NotCommand => "not a desktop command".to_string(),
            Unclear::NoIntent => "model returned no intent".to_string(),
            Unclear::NeverOffered { key, id } => {
                let q = quoted(key.as_str());
                let mut out = concat3("model chose ", q.as_str(), " for ");
                out.append(id.as_str());
                out.append(", which was never offered");
                out
            },
            Unclear::Without { name, id } => concat3(name.as_str(), " without a ", id.as_str()),
            Unclear::ShowFocused => {
                "show_app pointed at the window that already has focus".to_string()
            },
            Unclear::NotNumber { key } => {
                let q = quoted(key.as_str());
                concat3("desktop number ", q.as_str(), " is not a number")
            },
            Unclear::NoSuchDesktop { n, count } => {
                let a = decimal_text(*n as u64);
                let b = decimal_text(*count as u64);
                let mut out = concat3(
                    "desktop ",
                    a.as_str(),
                    " does not exist (this machine has ",
                );
                out.append(b.as_str());
                out.append(")");
                out
            },
            Unclear::BadDirection { key } => {
                let q = quoted(key.as_str());
                concat3("desktop direction ", q.as_str(), " is not next or previous")
            },
            Unclear::NotChord { spoken } => {
                let q = quoted(spoken.as_str());
                concat2(q.as_str(), " is not a key chord")
            },
            Unclear::NoSpan { key } => {
                let q = quoted(key.as_str());
                concat3("payload key ", q.as_str(), " names no span")
            },
            Unclear::NoRule { name } => {
                let q = quoted(name.as_str());
                concat2("no rule to build intent ", q.as_str())
            },
        }
    }
}

/// Whether `key` was among the options sent for the choice question `id`.
pub open spec fn was_offered(questions: QuestionsView, id: Seq<char>, key: Seq<char>) -> bool {
    match crate::oracle::find(questions, id) {
        Some(QuestionView::Choice { criteria, .. }) => crate::oracle::offers(criteria, key),
        _ => false,
    }
}

/// One choice answer, checked against what was offered.
pub ghost enum PickView {
    Chosen(Seq<char>, Double),
    NoMatch(Double),
    Missing,
}

/// The choice answered for `id`. A value that was never offered is an error
/// rather than a guess.
pub open spec fn picked(answers: AnswersView, questions: QuestionsView, id: Seq<char>) -> Result<
    PickView,
    UnclearView,
> {
    match crate::oracle::choice_of(answers, id) {
        None => Ok(PickView::Missing),
        Some((key, confidence)) => if !was_offered(questions, id, key) {
            Err(UnclearView::NeverOffered { key, id })
        } else if key == NO_TARGET@ {
            Ok(PickView::NoMatch(confidence))
        } else {
            Ok(PickView::Chosen(key, confidence))
        },
    }
}

/// The argument answered for `id`, with its confidence folded into the running
/// minimum. A no-match answer yields no key but still folds in: a shaky
/// "nothing named" is as much a doubt as a shaky name.
pub open spec fn argument(
    answers: AnswersView,
    questions: QuestionsView,
    id: Seq<char>,
    confidence: Double,
) -> Result<(Option<Seq<char>>, Double), UnclearView> {
    match picked(answers, questions, id) {
        Err(e) => Err(e),
        Ok(PickView::Chosen(key, c)) => Ok((Some(key), confidence.min_of(c))),
        Ok(PickView::NoMatch(c)) => Ok((None, confidence.min_of(c))),
        Ok(PickView::Missing) => Ok((None, confidence)),
    }
}

/// An argument the intent cannot do without.
pub open spec fn required(
    answers: AnswersView,
    questions: QuestionsView,
    name: Seq<char>,
    id: Seq<char>,
    confidence: Double,
) -> Result<(Seq<char>, Double), UnclearView> {
    match argument(answers, questions, id, confidence) {
        Err(e) => Err(e),
        Ok((Some(key), c)) => Ok((key, c)),
        Ok((None, _)) => Err(UnclearView::Without { name, id }),
    }
}

/// The index in a key of a kind, where it indexes `len` items.
pub open spec fn index_in(key: Seq<char>, prefix: Seq<char>, len: nat) -> Option<int> {
    match crate::text::after_prefix(key, prefix) {
        None => None,
        Some(digits) => match crate::text::number_of(digits, usize::MAX as nat) {
            Some(n) => if n < len {
                Some(n as int)
            } else {
                None
            },
            None => None,
        },
    }
}

/// What a target key denotes.
pub ghost enum TargetView {
    App(AppView),
    Window(WindowView),
    Focused,
    Unnamed,
}

/// What a target key denotes among the candidates.
pub open spec fn target_of(c: CandidatesView, key: Option<Seq<char>>) -> TargetView {
    match key {
        None => TargetView::Unnamed,
        Some(key) => if key == FOCUSED@ {
            TargetView::Focused
        } else if index_in(key, APP_KEY@, c.apps.len()) is Some {
            TargetView::App(c.apps[index_in(key, APP_KEY@, c.apps.len())->0])
        } else if index_in(key, WINDOW_KEY@, c.windows.len()) is Some {
            TargetView::Window(c.windows[index_in(key, WINDOW_KEY@, c.windows.len())->0])
        } else {
            TargetView::Unnamed
        },
    }
}

/// The span a payload key denotes.
pub open spec fn span_of(c: CandidatesView, key: Seq<char>) -> Option<Seq<char>> {
    if key == WHOLE@ {
        Some(c.utterance)
    } else if index_in(key, SPAN_KEY@, c.spans.len()) is Some {
        Some(c.spans[index_in(key, SPAN_KEY@, c.spans.len())->0])
    } else {
        None
    }
}

/// The message an intent passes on: `message` where a cue rule found it, else
/// the span the model picked. A rule's answer was never in doubt, so it
/// leaves the confidence alone.
pub open spec fn payload_of(
    answers: AnswersView,
    c: CandidatesView,
    name: Seq<char>,
    message: Option<Seq<char>>,
    confidence: Double,
) -> Result<(Seq<char>, Double), UnclearView> {
    match message {
        Some(text) => Ok((text, confidence)),
        None => match required(answers, c.questions, name, "payload"@, confidence) {
            Err(e) => Err(e),
            Ok((key, conf)) => match span_of(c, key) {
                Some(s) => Ok((s, conf)),
                None => Err(UnclearView::NoSpan { key }),
            },
        },
    }
}

/// An intent with what was picked for it, before the signals.
pub ghost struct BuiltView {
    pub intent: IntentView,
    pub window_id: Option<Seq<char>>,
    pub entry_id: Option<Seq<char>>,
    pub confidence: Double,
}

/// An intent that names no window or application by id.
pub open spec fn plain(intent: IntentView, confidence: Double) -> BuiltView {
    BuiltView { intent, window_id: None, entry_id: None, confidence }
}

/// The intent to show what `target` denotes: launch or focus, decided by what
/// was observed.
pub open spec fn show_intent(
    answers: AnswersView,
    c: CandidatesView,
    confidence: Double,
) -> Result<BuiltView, UnclearView> {
    match argument(answers, c.questions, "target"@, confidence) {
        Err(e) => Err(e),
        Ok((key, conf)) => match target_of(c, key) {
            TargetView::Window(w) => Ok(
                BuiltView {
                    intent: IntentView::FocusWindow { query: w.title },
                    window_id: Some(w.id),
                    entry_id: None,
                    confidence: conf,
                },
            ),
            TargetView::App(a) => Ok(
                BuiltView {
                    intent: IntentView::LaunchApp { query: a.name },
                    window_id: None,
                    entry_id: Some(a.id),
                    confidence: conf,
                },
            ),
            TargetView::Focused => Err(UnclearView::ShowFocused),
            TargetView::Unnamed => Err(UnclearView::Without { name: "show_app"@, id: "target"@ }),
        },
    }
}

/// The three intents that act on a window.
pub open spec fn window_intent(name: Seq<char>, query: Option<Seq<char>>) -> IntentView {
    if name == "close_window"@ {
        IntentView::CloseWindow { query }
    } else if name == "minimize_window"@ {
        IntentView::MinimizeWindow { query }
    } else {
        IntentView::MaximizeWindow { query }
    }
}

/// An intent on the window that `target` denotes. Only an explicit choice of
/// the focused window means "no query"; silence is not that choice.
pub open spec fn act_on_window(
    answers: AnswersView,
    c: CandidatesView,
    name: Seq<char>,
    confidence: Double,
) -> Result<BuiltView, UnclearView> {
    match argument(answers, c.questions, "target"@, confidence) {
        Err(e) => Err(e),
        Ok((key, conf)) => match target_of(c, key) {
            TargetView::Window(w) => Ok(
                BuiltView {
                    intent: window_intent(name, Some(w.title)),
                    window_id: Some(w.id),
                    entry_id: None,
                    confidence: conf,
                },
            ),
            TargetView::App(a) => Ok(plain(window_intent(name, Some(a.name)), conf)),
            TargetView::Focused => Ok(plain(window_intent(name, None), conf)),
            TargetView::Unnamed => Err(UnclearView::Without { name, id: "target"@ }),
        },
    }
}

/// The intent to go to a numbered desktop.
pub open spec fn desktop_intent(
    answers: AnswersView,
    c: CandidatesView,
    confidence: Double,
) -> Result<BuiltView, UnclearView> {
    match required(answers, c.questions, "virtual_desktop"@, "desktop_number"@, confidence) {
        Err(e) => Err(e),
        Ok((key, conf)) => match crate::text::number_of(key, u32::MAX as nat) {
            None => Err(UnclearView::NotNumber { key }),
            Some(n) => if 1 <= n <= c.desktop_count {
                Ok(plain(IntentView::VirtualDesktop { n: n as u32 }, conf))
            } else {
                Err(UnclearView::NoSuchDesktop { n: n as u32, count: c.desktop_count })
            },
        },
    }
}

/// The intent to move one desktop.
pub open spec fn direction_intent(
    answers: AnswersView,
    c: CandidatesView,
    confidence: Double,
) -> Result<BuiltView, UnclearView> {
    match required(
        answers,
        c.questions,
        "virtual_desktop_rel"@,
        "desktop_direction"@,
        confidence,
    ) {
        Err(e) => Err(e),
        Ok((key, conf)) => if key == "next"@ {
            Ok(plain(IntentView::VirtualDesktopRel { delta: 1 }, conf))
        } else if key == "previous"@ {
            Ok(plain(IntentView::VirtualDesktopRel { delta: (-1) as i32 }, conf))
        } else {
            Err(UnclearView::BadDirection { key })
        },
    }
}

/// The intent `name` with its arguments, where `message` is what a cue rule
/// found in the utterance and `chord` the key chord its words spell.
pub open spec fn named_intent(
    answers: AnswersView,
    c: CandidatesView,
    name: Seq<char>,
    confidence: Double,
    message: Option<Seq<char>>,
    chord: Option<Seq<char>>,
) -> Result<BuiltView, UnclearView> {
    if name == "show_app"@ {
        show_intent(answers, c, confidence)
    } else if name == "close_window"@ || name == "minimize_window"@ || name == "maximize_window"@ {
        act_on_window(answers, c, name, confidence)
    } else if name == "krunner"@ {
        match payload_of(answers, c, name, message, confidence) {
            Err(e) => Err(e),
            Ok((text, conf)) => Ok(plain(IntentView::KRunner { query: text }, conf)),
        }
    } else if name == "virtual_desktop"@ {
        desktop_intent(answers, c, confidence)
    } else if name == "virtual_desktop_rel"@ {
        direction_intent(answers, c, confidence)
    } else if name == "start_claude"@ {
        match argument(answers, c.questions, "claude_model"@, confidence) {
            Err(e) => Err(e),
            Ok((model, conf)) => Ok(plain(IntentView::StartClaude { model }, conf)),
        }
    } else if name == "claude_model"@ {
        match required(answers, c.questions, name, "claude_model"@, confidence) {
            Err(e) => Err(e),
            Ok((model, conf)) => Ok(plain(IntentView::ClaudeModel { model }, conf)),
        }
    } else if name == "claude_tell"@ {
        match payload_of(answers, c, name, message, confidence) {
            Err(e) => Err(e),
            Ok((text, conf)) => Ok(plain(IntentView::ClaudeTell { text }, conf)),
        }
    } else if name == "notify"@ {
        match payload_of(answers, c, name, message, confidence) {
            Err(e) => Err(e),
            Ok((text, conf)) => Ok(plain(IntentView::Notify { text }, conf)),
        }
    } else if name == "key"@ {
        match payload_of(answers, c, name, message, confidence) {
            Err(e) => Err(e),
            Ok((spoken, conf)) => match chord {
                Some(chord) => Ok(plain(IntentView::Key { chord }, conf)),
                None => Err(UnclearView::NotChord { spoken }),
            },
        }
    } else if name == "edit_text"@ {
        Ok(plain(IntentView::EditText { instruction: c.utterance }, confidence))
    } else if name == "open_terminal"@ {
        Ok(plain(IntentView::OpenTerminal, confidence))
    } else if name == "claude_read"@ {
        Ok(plain(IntentView::ClaudeRead, confidence))
    } else {
        Err(UnclearView::NoRule { name })
    }
}

/// The probability that the utterance was text to type: the weight the
/// dictation question put on its "text" reading. None when the question was
/// not answered as a choice, or the reading was not among the options
/// answered.
pub open spec fn dictation_of(answers: AnswersView) -> Option<Double> {
    match crate::oracle::find(answers, "is_dictation"@) {
        Some(AnswerView::Choice { probabilities, .. }) => crate::oracle::find(
            probabilities,
            DICTATION_TEXT@,
        ),
        _ => None,
    }
}

/// The risk of the intent `name`: its own where the intent decides it, the
/// model's answer where the rule leaves it to the model.
pub open spec fn destructive_of(answers: AnswersView, name: Seq<char>) -> Option<Double> {
    match crate::policy::risk_of(name) {
        Risk::Never => Some(crate::double::zero()),
        Risk::AlwaysConfirmed => None,
        Risk::Judged => crate::oracle::noul_of(answers, "is_destructive"@),
    }
}

/// An intent the judged path built, with the signals the policy needs.
#[derive(Debug)]
pub struct Resolved {
    pub intent: Intent,
    /// Id of the window named, when the target was chosen from the open
    /// windows. The intent carries the title for the policy and the logs;
    /// execution goes by this id.
    pub window_id: Option<String>,
    /// `.desktop` id of the application named, when the target was chosen
    /// from the installed applications.
    pub entry_id: Option<String>,
    /// Weakest link across the judgments that built the intent.
    pub confidence: Double,
    /// What the model said about risk and dictation.
    pub signals: Signals,
}

/// A [`Resolved`] as sequences.
pub ghost struct ResolvedView {
    pub built: BuiltView,
    pub signals: Signals,
}

impl View for Resolved {
    type V = ResolvedView;

    open spec fn view(&self) -> ResolvedView {
        ResolvedView {
            built: BuiltView {
                intent: self.intent@,
                window_id: crate::intent::opt_text(self.window_id),
                entry_id: crate::intent::opt_text(self.entry_id),
                confidence: self.confidence,
            },
            signals: self.signals,
        }
    }
}

/// What the answers amount to.
pub open spec fn resolution(
    answers: AnswersView,
    c: CandidatesView,
    message: Option<Seq<char>>,
    chord: Option<Seq<char>>,
) -> Result<ResolvedView, UnclearView> {
    match picked(answers, c.questions, "intent"@) {
        Err(e) => Err(e),
        Ok(PickView::NoMatch(_)) => Err(UnclearView::NotCommand),
        Ok(PickView::Missing) => Err(UnclearView::NoIntent),
        Ok(PickView::Chosen(name, confidence)) => match named_intent(
            answers,
            c,
            name,
            confidence,
            message,
            chord,
        ) {
            Err(e) => Err(e),
            Ok(built) => Ok(
                ResolvedView {
                    built,
                    signals: Signals::Judged {
                        confidence: built.confidence,
                        destructive: destructive_of(answers, name),
                        dictation: dictation_of(answers),
                    },
                },
            ),
        },
    }
}

/// One choice answer, checked against what was offered.
enum Pick<'a> {
    Chosen(&'a str, Double),
    NoMatch(Double),
    Missing,
}

/// What a target key denotes.
enum Target<'a> {
    App(&'a AppCandidate),
    Window(&'a Window),
    Focused,
    Unnamed,
}

spec fn pick_view(p: Pick) -> PickView {
    match p {
        Pick::Chosen(key, c) => PickView::Chosen(key@, c),
        Pick::NoMatch(c) => PickView::NoMatch(c),
        Pick::Missing => PickView::Missing,
    }
}

spec fn target_view(t: Target) -> TargetView {
    match t {
        Target::App(a) => TargetView::App(a@),
        Target::Window(w) => TargetView::Window(w@),
        Target::Focused => TargetView::Focused,
        Target::Unnamed => TargetView::Unnamed,
    }
}

/// The index in a key of a kind, where it indexes `len` items.
pub fn indexed(key: &str, prefix: &str, len: usize) -> (r: Option<usize>)
    ensures
        match r {
            Some(i) => index_in(key@, prefix@, len as nat) == Some(i as int),
            None => index_in(key@, prefix@, len as nat) is None,
        },
{
    match strip_prefix(key, prefix) {
        None => None,
        Some(digits) => match parse_number(digits.as_str(), usize::MAX as u64) {
            Some(n) => if n < len as u64 {
                Some(n as usize)
            } else {
                None
            },
            None => None,
        },
    }
}

impl Candidates {
    /// The question with the id `id`.
    pub fn question(&self, id: &str) -> (r: Option<&Question>)
        ensures
            match r {
                Some(q) => crate::oracle::find(self@.questions, id@) == Some(q@),
                None => crate::oracle::find(self@.questions, id@) is None,
            },
    {
        let ghost all = self@.questions;
        let mut i: usize = 0;
        assert(all.skip(0) =~= all);
        while i < self.questions.len()
            invariant
                i <= self.questions@.len(),
                all == crate::oracle::questions_view(self.questions@),
                crate::oracle::find(all, id@) == crate::oracle::find(all.skip(i as int), id@),
            decreases self.questions@.len() - i,
        {
            assert(all.skip(i as int)[0] == (
                self.questions@[i as int].0@,
                self.questions@[i as int].1@,
            ));
            assert(all.skip(i as int).drop_first() =~= all.skip(i + 1));
            if same(self.questions[i].0.as_str(), id) {
                return Some(&self.questions[i].1);
            }
            i = i + 1;
        }
        None
    }

    /// Was `key` among the options sent for choice question `id`?
    pub fn offered(&self, id: &str, key: &str) -> (r: bool)
        ensures
            r == was_offered(self@.questions, id@, key@),
    {
        match self.question(id) {
            Some(q) => match q.options() {
                Some(o) => o.contains_key(key),
                None => false,
            },
            None => false,
        }
    }

    fn pick<'a>(&self, resp: &'a Response, id: &str) -> (r: Result<Pick<'a>, Unclear>)
        ensures
            match r {
                Ok(p) => picked(resp@, self@.questions, id@) == Ok::<PickView, UnclearView>(
                    pick_view(p),
                ),
                Err(e) => picked(resp@, self@.questions, id@) == Err::<PickView, UnclearView>(e@),
            },
    {
        match resp.choice(id) {
            None => Ok(Pick::Missing),
            Some((key, confidence)) => {
                if !self.offered(id, key) {
                    return Err(
                        Unclear::NeverOffered { key: key.to_string(), id: id.to_string() },
                    );
                }
                if same(key, NO_TARGET) {
                    Ok(Pick::NoMatch(confidence))
                } else {
                    Ok(Pick::Chosen(key, confidence))
                }
            },
        }
    }

    fn arg<'a>(&self, resp: &'a Response, id: &str, confidence: Double) -> (r: Result<
        (Option<&'a str>, Double),
        Unclear,
    >)
        ensures
            match r {
                Ok((key, c)) => argument(resp@, self@.questions, id@, confidence) == Ok::<
                    (Option<Seq<char>>, Double),
                    UnclearView,
                >((crate::config::opt_str(key), c)),
                Err(e) => argument(resp@, self@.questions, id@, confidence) == Err::<
                    (Option<Seq<char>>, Double),
                    UnclearView,
                >(e@),
            },
    {
        match self.pick(resp, id) {
            Err(e) => Err(e),
            Ok(Pick::Chosen(key, c)) => Ok((Some(key), confidence.min(c))),
            Ok(Pick::NoMatch(c)) => Ok((None, confidence.min(c))),
            Ok(Pick::Missing) => Ok((None, confidence)),
        }
    }

    fn need<'a>(&self, resp: &'a Response, name: &str, id: &str, confidence: Double) -> (r: Result<
        (&'a str, Double),
        Unclear,
    >)
        ensures
            match r {
                Ok((key, c)) => required(resp@, self@.questions, name@, id@, confidence) == Ok::<
                    (Seq<char>, Double),
                    UnclearView,
                >((key@, c)),
                Err(e) => required(resp@, self@.questions, name@, id@, confidence) == Err::<
                    (Seq<char>, Double),
                    UnclearView,
                >(e@),
            },
    {
        match self.arg(resp, id, confidence) {
            Err(e) => Err(e),
            Ok((Some(key), c)) => Ok((key, c)),
            Ok((None, _)) => Err(Unclear::Without { name: name.to_string(), id: id.to_string() }),
        }
    }

    fn target(&self, key: Option<&str>) -> (r: Target<'_>)
        ensures
            target_view(r) == target_of(self@, crate::config::opt_str(key)),
    {
        match key {
            None => Target::Unnamed,
            Some(key) => {
                if same(key, FOCUSED) {
                    return Target::Focused;
                }
                if let Some(i) = indexed(key, APP_KEY, self.apps.len()) {
                    assert(self@.apps[i as int] == self.apps@[i as int]@);
                    return Target::App(&self.apps[i]);
                }
                if let Some(i) = indexed(key, WINDOW_KEY, self.windows.len()) {
                    assert(self@.windows[i as int] == self.windows@[i as int]@);
                    return Target::Window(&self.windows[i]);
                }
                Target::Unnamed
            },
        }
    }

    fn span(&self, key: &str) -> (r: Option<&str>)
        ensures
            crate::config::opt_str(r) == span_of(self@, key@),
    {
        if same(key, WHOLE) {
            return Some(self.utterance.as_str());
        }
        match indexed(key, SPAN_KEY, self.spans.len()) {
            Some(i) => {
                assert(self@.spans[i as int] == self.spans@[i as int]@);
                Some(self.spans[i].as_str())
            },
            None => None,
        }
    }

    fn payload(
        &self,
        resp: &Response,
        name: &str,
        message: &Option<String>,
        confidence: Double,
    ) -> (r: Result<(String, Double), Unclear>)
        ensures
            match r {
                Ok((text, c)) => payload_of(
                    resp@,
                    self@,
                    name@,
                    crate::intent::opt_text(*message),
                    confidence,
                ) == Ok::<(Seq<char>, Double), UnclearView>((text@, c)),
                Err(e) => payload_of(
                    resp@,
                    self@,
                    name@,
                    crate::intent::opt_text(*message),
                    confidence,
                ) == Err::<(Seq<char>, Double), UnclearView>(e@),
            },
    {
        match message {
            Some(text) => Ok((text.clone(), confidence)),
            None => match self.need(resp, name, "payload", confidence) {
                Err(e) => Err(e),
                Ok((key, c)) => match self.span(key) {
                    Some(s) => Ok((s.to_string(), c)),
                    None => Err(Unclear::NoSpan { key: key.to_string() }),
                },
            },
        }
    }
}

/// An intent with what was picked for it.
struct Built {
    intent: Intent,
    window_id: Option<String>,
    entry_id: Option<String>,
    confidence: Double,
}

spec fn built_view(b: Built) -> BuiltView {
    BuiltView {
        intent: b.intent@,
        window_id: crate::intent::opt_text(b.window_id),
        entry_id: crate::intent::opt_text(b.entry_id),
        confidence: b.confidence,
    }
}

spec fn built_result(r: Result<Built, Unclear>) -> Result<BuiltView, UnclearView> {
    match r {
        Ok(b) => Ok(built_view(b)),
        Err(e) => Err(e@),
    }
}

fn bare(intent: Intent, confidence: Double) -> (r: Result<Built, Unclear>)
    ensures
        built_result(r) == Ok::<BuiltView, UnclearView>(plain(intent@, confidence)),
{
    Ok(Built { intent, window_id: None, entry_id: None, confidence })
}

fn build_show(resp: &Response, cand: &Candidates, confidence: Double) -> (r: Result<Built, Unclear>)
    ensures
        built_result(r) == show_intent(resp@, cand@, confidence),
{
    match cand.arg(resp, "target", confidence) {
        Err(e) => Err(e),
        Ok((key, c)) => match cand.target(key) {
            Target::Window(w) => Ok(
                Built {
                    intent: Intent::FocusWindow { query: w.title.clone() },
                    window_id: Some(w.id.clone()),
                    entry_id: None,
                    confidence: c,
                },
            ),
            Target::App(a) => Ok(
                Built {
                    intent: Intent::LaunchApp { query: a.name.clone() },
                    window_id: None,
                    entry_id: Some(a.id.clone()),
                    confidence: c,
                },
            ),
            Target::Focused => Err(Unclear::ShowFocused),
            Target::Unnamed => Err(
                Unclear::Without { name: "show_app".to_string(), id: "target".to_string() },
            ),
        },
    }
}

fn on_window(name: &str, query: Option<String>) -> (r: Intent)
    ensures
        r@ == window_intent(name@, crate::intent::opt_text(query)),
{
    if same(name, "close_window") {
        Intent::CloseWindow { query }
    } else if same(name, "minimize_window") {
        Intent::MinimizeWindow { query }
    } else {
        Intent::MaximizeWindow { query }
    }
}

fn build_window(resp: &Response, cand: &Candidates, name: &str, confidence: Double) -> (r: Result<
    Built,
    Unclear,
>)
    ensures
        built_result(r) == act_on_window(resp@, cand@, name@, confidence),
{
    match cand.arg(resp, "target", confidence) {
        Err(e) => Err(e),
        Ok((key, c)) => match cand.target(key) {
            Target::Window(w) => Ok(
                Built {
                    intent: on_window(name, Some(w.title.clone())),
                    window_id: Some(w.id.clone()),
                    entry_id: None,
                    confidence: c,
                },
            ),
            Target::App(a) => bare(on_window(name, Some(a.name.clone())), c),
            Target::Focused => bare(on_window(name, None), c),
            Target::Unnamed => Err(
                Unclear::Without { name: name.to_string(), id: "target".to_string() },
            ),
        },
    }
}

fn build_desktop(resp: &Response, cand: &Candidates, confidence: Double) -> (r: Result<
    Built,
    Unclear,
>)
    ensures
        built_result(r) == desktop_intent(resp@, cand@, confidence),
{
    match cand.need(resp, "virtual_desktop", "desktop_number", confidence) {
        Err(e) => Err(e),
        Ok((key, c)) => match parse_number(key, u32::MAX as u64) {
            None => Err(Unclear::NotNumber { key: key.to_string() }),
            Some(n) => {
                let n: u32 = n as u32;
                if n >= 1 && n <= cand.desktop_count {
                    bare(Intent::VirtualDesktop { n }, c)
                } else {
                    Err(Unclear::NoSuchDesktop { n, count: cand.desktop_count })
                }
            },
        },
    }
}

fn build_direction(resp: &Response, cand: &Candidates, confidence: Double) -> (r: Result<
    Built,
    Unclear,
>)
    ensures
        built_result(r) == direction_intent(resp@, cand@, confidence),
{
    match cand.need(resp, "virtual_desktop_rel", "desktop_direction", confidence) {
        Err(e) => Err(e),
        Ok((key, c)) => {
            if same(key, "next") {
                bare(Intent::VirtualDesktopRel { delta: 1 }, c)
            } else if same(key, "previous") {
                bare(Intent::VirtualDesktopRel { delta: -1 }, c)
            } else {
                Err(Unclear::BadDirection { key: key.to_string() })
            }
        },
    }
}

fn build_named(
    resp: &Response,
    cand: &Candidates,
    name: &str,
    confidence: Double,
    message: &Option<String>,
    chord: Option<String>,
) -> (r: Result<Built, Unclear>)
    ensures
        built_result(r) == named_intent(
            resp@,
            cand@,
            name@,
            confidence,
            crate::intent::opt_text(*message),
            crate::intent::opt_text(chord),
        ),
{
    if same(name, "show_app") {
        build_show(resp, cand, confidence)
    } else if same(name, "close_window") || same(name, "minimize_window") || same(
        name,
        "maximize_window",
    ) {
        build_window(resp, cand, name, confidence)
    } else if same(name, "krunner") {
        match cand.payload(resp, name, message, confidence) {
            Err(e) => Err(e),
            Ok((query, c)) => bare(Intent::KRunner { query }, c),
        }
    } else if same(name, "virtual_desktop") {
        build_desktop(resp, cand, confidence)
    } else if same(name, "virtual_desktop_rel") {
        build_direction(resp, cand, confidence)
    } else if same(name, "start_claude") {
        // Optional: absent leaves the configured default model.
        match cand.arg(resp, "claude_model", confidence) {
            Err(e) => Err(e),
            Ok((Some(m), c)) => bare(Intent::StartClaude { model: Some(m.to_string()) }, c),
            Ok((None, c)) => bare(Intent::StartClaude { model: None }, c),
        }
    } else if same(name, "claude_model") {
        match cand.need(resp, name, "claude_model", confidence) {
            Err(e) => Err(e),
            Ok((m, c)) => bare(Intent::ClaudeModel { model: m.to_string() }, c),
        }
    } else if same(name, "claude_tell") {
        match cand.payload(resp, name, message, confidence) {
            Err(e) => Err(e),
            Ok((text, c)) => bare(Intent::ClaudeTell { text }, c),
        }
    } else if same(name, "notify") {
        match cand.payload(resp, name, message, confidence) {
            Err(e) => Err(e),
            Ok((text, c)) => bare(Intent::Notify { text }, c),
        }
    } else if same(name, "key") {
        // A chord is injected into whatever has focus, so a word that is not
        // a key must not become a guess.
        match cand.payload(resp, name, message, confidence) {
            Err(e) => Err(e),
            Ok((spoken, c)) => match chord {
                Some(chord) => bare(Intent::Key { chord }, c),
                None => Err(Unclear::NotChord { spoken }),
            },
        }
    } else if same(name, "edit_text") {
        bare(Intent::EditText { instruction: cand.utterance.clone() }, confidence)
    } else if same(name, "open_terminal") {
        bare(Intent::OpenTerminal, confidence)
    } else if same(name, "claude_read") {
        bare(Intent::ClaudeRead, confidence)
    } else {
        Err(Unclear::NoRule { name: name.to_string() })
    }
}

/// The probability that the utterance was text to type.
pub fn dictation_probability(resp: &Response) -> (r: Option<Double>)
    ensures
        r == dictation_of(resp@),
{
    match resp.answer("is_dictation") {
        Some(Answer::Choice { probabilities, .. }) => weight_of(probabilities, DICTATION_TEXT),
        _ => None,
    }
}

fn weight_of(probabilities: &Vec<(String, Double)>, key: &str) -> (r: Option<Double>)
    ensures
        r == crate::oracle::find(crate::oracle::weights(probabilities@), key@),
{
    let ghost all = crate::oracle::weights(probabilities@);
    let mut i: usize = 0;
    assert(all.skip(0) =~= all);
    while i < probabilities.len()
        invariant
            i <= probabilities@.len(),
            all == crate::oracle::weights(probabilities@),
            crate::oracle::find(all, key@) == crate::oracle::find(all.skip(i as int), key@),
        decreases probabilities@.len() - i,
    {
        assert(all.skip(i as int)[0] == (
            probabilities@[i as int].0@,
            probabilities@[i as int].1,
        ));
        assert(all.skip(i as int).drop_first() =~= all.skip(i + 1));
        if same(probabilities[i].0.as_str(), key) {
            return Some(probabilities[i].1);
        }
        i = i + 1;
    }
    None
}

/// A resolution with its parts as views.
pub open spec fn resolved_result(r: Result<Resolved, Unclear>) -> Result<
    ResolvedView,
    UnclearView,
> {
    match r {
        Ok(v) => Ok(v@),
        Err(e) => Err(e@),
    }
}

/// The intent the answers amount to, where `message` is what a cue rule found
/// in the utterance for the chosen intent and `chord` the key chord its words
/// spell.
pub fn build(
    resp: &Response,
    cand: &Candidates,
    message: &Option<String>,
    chord: Option<String>,
) -> (r: Result<Resolved, Unclear>)
    ensures
        resolved_result(r) == resolution(
            resp@,
            cand@,
            crate::intent::opt_text(*message),
            crate::intent::opt_text(chord),
        ),
{
    match cand.pick(resp, "intent") {
        Err(e) => Err(e),
        Ok(Pick::NoMatch(_)) => Err(Unclear::NotCommand),
        Ok(Pick::Missing) => Err(Unclear::NoIntent),
        Ok(Pick::Chosen(name, confidence)) => match build_named(
            resp,
            cand,
            name,
            confidence,
            message,
            chord,
        ) {
            Err(e) => Err(e),
            Ok(built) => {
                let destructive = match risk_rule(name) {
                    Risk::Never => Some(Double { bits: 0 }),
                    Risk::AlwaysConfirmed => None,
                    Risk::Judged => resp.noul("is_destructive"),
                };
                let dictation = dictation_probability(resp);
                Ok(
                    Resolved {
                        intent: built.intent,
                        window_id: built.window_id,
                        entry_id: built.entry_id,
                        confidence: built.confidence,
                        signals: Signals::Judged {
                            confidence: built.confidence,
                            destructive,
                            dictation,
                        },
                    },
                )
            },
        },
    }
}

/// What a cue rule finds in an utterance for an intent.
pub open spec fn carried(name: Seq<char>, assistant: Seq<char>, utterance: Seq<char>) -> Option<
    Seq<char>,
> {
    crate::payload::cue_message(name, assistant, utterance)
}

/// What a cue rule finds for the intent the model chose.
pub open spec fn carried_message(answers: AnswersView, c: CandidatesView) -> Option<Seq<char>> {
    match crate::oracle::choice_of(answers, "intent"@) {
        Some((name, _)) => carried(name, c.assistant, c.utterance),
        None => None,
    }
}

/// What the judged path concluded.
#[derive(Debug)]
pub enum Verdict {
    /// An intent was built. Whether it runs, asks, or is refused is the
    /// policy's call.
    Act(Resolved),
    /// Prose, not a command: the wrong hotkey was held.
    Dictation,
    /// Not confidently anything. Carries a reason for the notification.
    Unclear(String),
}

/// A [`Verdict`] as sequences.
pub ghost enum VerdictView {
    Act(ResolvedView),
    Dictation,
    Unclear(Seq<char>),
}

impl View for Verdict {
    type V = VerdictView;

    open spec fn view(&self) -> VerdictView {
        match self {
            Verdict::Act(r) => VerdictView::Act(r@),
            Verdict::Dictation => VerdictView::Dictation,
            Verdict::Unclear(reason) => VerdictView::Unclear(reason@),
        }
    }
}

/// The verdict the answers amount to, with no threshold applied.
pub open spec fn verdict_of(
    answers: AnswersView,
    c: CandidatesView,
    chord: Option<Seq<char>>,
) -> VerdictView {
    match resolution(answers, c, carried_message(answers, c), chord) {
        Ok(r) => VerdictView::Act(r),
        Err(u) => VerdictView::Unclear(unclear_text(u)),
    }
}

fn rule_message(resp: &Response, cand: &Candidates) -> (r: Option<String>)
    ensures
        crate::intent::opt_text(r) == carried_message(resp@, cand@),
{
    match resp.choice("intent") {
        Some((name, _)) => strip_cue(name, cand.assistant.as_str(), cand.utterance.as_str()),
        None => None,
    }
}

/// Turn the answers into an intent plus the signals that gate it, where
/// `chord` is the key chord that the words of [`key_words`] spell. No
/// threshold is applied here: whether the utterance was prose, and whether
/// the intent runs, asks or is refused, is the policy's.
pub fn compose(resp: &Response, cand: &Candidates, chord: Option<String>) -> (r: Verdict)
    ensures
        r@ == verdict_of(resp@, cand@, crate::intent::opt_text(chord)),
{
    let message = rule_message(resp, cand);
    match build(resp, cand, &message, chord) {
        Ok(v) => Verdict::Act(v),
        Err(u) => Verdict::Unclear(u.text()),
    }
}

/// The words to be read as a key chord, when the model chose the key intent
/// and a payload was found for it.
pub open spec fn spoken_keys(
    answers: AnswersView,
    c: CandidatesView,
    message: Option<Seq<char>>,
) -> Option<Seq<char>> {
    match picked(answers, c.questions, "intent"@) {
        Ok(PickView::Chosen(name, confidence)) => if name == "key"@ {
            match payload_of(answers, c, name, message, confidence) {
                Ok((spoken, _)) => Some(spoken),
                Err(_) => None,
            }
        } else {
            None
        },
        _ => None,
    }
}

/// The words to be read as a key chord, if any.
pub fn key_words(resp: &Response, cand: &Candidates) -> (r: Option<String>)
    ensures
        crate::intent::opt_text(r) == spoken_keys(resp@, cand@, carried_message(resp@, cand@)),
{
    let message = rule_message(resp, cand);
    match cand.pick(resp, "intent") {
        Ok(Pick::Chosen(name, confidence)) => {
            if same(name, "key") {
                match cand.payload(resp, name, &message, confidence) {
                    Ok((spoken, _)) => Some(spoken),
                    Err(_) => None,
                }
            } else {
                None
            }
        },
        _ => None,
    }
}

/// A verdict with the raw signals it was built from. The verdict is composed
/// without the dictation gate, so a case the model calls prose still shows
/// which intent it would have built.
#[derive(Debug)]
pub struct Detailed {
    pub verdict: Verdict,
    /// Weight of the "text" reading, before any threshold.
    pub dictation: Option<Double>,
    /// Probability of yes to `is_destructive`, before any threshold; None
    /// when the intent's risk was decided by rule and the model not asked.
    pub destructive: Option<Double>,
    /// The intent key the model ranked first and its probability.
    pub intent: Option<(String, Double)>,
}

/// The verdict and the probabilities behind it.
pub fn detail(resp: &Response, cand: &Candidates, chord: Option<String>) -> (r: Detailed)
    ensures
        r.verdict@ == verdict_of(resp@, cand@, crate::intent::opt_text(chord)),
        r.dictation == dictation_of(resp@),
        r.destructive == crate::oracle::noul_of(resp@, "is_destructive"@),
        match r.intent {
            Some((key, p)) => crate::oracle::choice_of(resp@, "intent"@) == Some((key@, p)),
            None => crate::oracle::choice_of(resp@, "intent"@) is None,
        },
{
    Detailed {
        verdict: compose(resp, cand, chord),
        dictation: dictation_probability(resp),
        destructive: resp.noul("is_destructive"),
        intent: match resp.choice("intent") {
            Some((key, p)) => Some((key.to_string(), p)),
            None => None,
        },
    }
}

/// The verdict once the policy's dictation threshold is applied.
pub fn gated(policy: &Policy, d: Detailed) -> (r: Verdict)
    ensures
        r@ == if policy.prose(d.dictation) {
            VerdictView::Dictation
        } else {
            d.verdict@
        },
{
    if policy.is_prose(d.dictation) {
        Verdict::Dictation
    } else {
        d.verdict
    }
}

/// The questions the intent still needs. A message a cue rule found, and a
/// risk the intent decides, are not among them.
pub open spec fn needed_ids(intent: Seq<char>, has_message: bool) -> Set<Seq<char>> {
    let arguments = if intent == "show_app"@ || intent == "close_window"@ || intent
        == "minimize_window"@ || intent == "maximize_window"@ {
        set!["target"@]
    } else if intent == "virtual_desktop"@ {
        set!["desktop_number"@]
    } else if intent == "virtual_desktop_rel"@ {
        set!["desktop_direction"@]
    } else if intent == "start_claude"@ || intent == "claude_model"@ {
        set!["claude_model"@]
    } else if (intent == "krunner"@ || intent == "notify"@ || intent == "claude_tell"@ || intent
        == "key"@) && !has_message {
        set!["payload"@]
    } else {
        Set::empty()
    };
    if crate::policy::risk_of(intent) == Risk::Judged {
        arguments.insert("is_destructive"@)
    } else {
        arguments
    }
}

/// The questions with these ids, in the order of the ids.
pub open spec fn round_of(questions: QuestionsView, ids: Set<Seq<char>>) -> QuestionsView {
    questions.filter(|q: (Seq<char>, QuestionView)| ids.contains(q.0))
}

/// What a payload is, for the intent it serves.
pub open spec fn served(intent: Seq<char>, assistant: Seq<char>) -> (Seq<char>, Seq<char>) {
    if intent == "notify"@ {
        (crate::judge_text::SERVED_NOTIFY@, crate::judge_text::SERVED_NOTIFY_EXAMPLE@)
    } else if intent == "krunner"@ {
        (crate::judge_text::SERVED_KRUNNER@, crate::judge_text::SERVED_KRUNNER_EXAMPLE@)
    } else if intent == "key"@ {
        (crate::judge_text::SERVED_KEY@, crate::judge_text::SERVED_KEY_EXAMPLE@)
    } else {
        (
            crate::judge_text::served_claude(assistant),
            crate::judge_text::served_claude_example(assistant),
        )
    }
}

/// The payload question worded for the intent it serves.
pub open spec fn served_instructions(intent: Seq<char>, assistant: Seq<char>) -> ProseView {
    let (what, example) = served(intent, assistant);
    ProseView::Object(
        seq![
            ("example"@, ProseView::Text(example)),
            ("focus"@, ProseView::Text(crate::judge_text::SERVED_FOCUS@)),
            (
                "task"@,
                ProseView::Text(
                    crate::judge_text::SERVED_TASK_BEFORE@ + what
                        + crate::judge_text::SERVED_TASK_AFTER@,
                ),
            ),
        ],
    )
}

/// A question as the second round asks it.
pub open spec fn worded(
    q: (Seq<char>, QuestionView),
    intent: Seq<char>,
    assistant: Seq<char>,
) -> (Seq<char>, QuestionView) {
    match q.1 {
        QuestionView::Choice { criteria, .. } => if q.0 == "payload"@ {
            (
                q.0,
                QuestionView::Choice {
                    instructions: served_instructions(intent, assistant),
                    criteria,
                },
            )
        } else {
            q
        },
        _ => q,
    }
}

/// The second round for an intent: what it still needs; nothing for an intent
/// that needs nothing more, and for no intent.
pub open spec fn second_of(
    questions: QuestionsView,
    assistant: Seq<char>,
    intent: Seq<char>,
    has_message: bool,
) -> QuestionsView {
    if intent == NO_TARGET@ {
        Seq::empty()
    } else {
        round_of(questions, needed_ids(intent, has_message)).map_values(
            |q: (Seq<char>, QuestionView)| worded(q, intent, assistant),
        )
    }
}

/// The payload question worded for the intent it serves.
pub fn payload_instructions(intent: &str, assistant: &str) -> (r: Prose)
    ensures
        r@ == served_instructions(intent@, assistant@),
{
    let (what, example) = if same(intent, "notify") {
        (
            crate::judge_text::SERVED_NOTIFY.to_string(),
            crate::judge_text::SERVED_NOTIFY_EXAMPLE.to_string(),
        )
    } else if same(intent, "krunner") {
        (
            crate::judge_text::SERVED_KRUNNER.to_string(),
            crate::judge_text::SERVED_KRUNNER_EXAMPLE.to_string(),
        )
    } else if same(intent, "key") {
        (
            crate::judge_text::SERVED_KEY.to_string(),
            crate::judge_text::SERVED_KEY_EXAMPLE.to_string(),
        )
    } else {
        (
            crate::judge_text::served_claude_text(assistant),
            crate::judge_text::served_claude_example_text(assistant),
        )
    };
    let task = concat3(
        crate::judge_text::SERVED_TASK_BEFORE,
        what.as_str(),
        crate::judge_text::SERVED_TASK_AFTER,
    );
    crate::judge::object3(
        "example",
        example.as_str(),
        "focus",
        crate::judge_text::SERVED_FOCUS,
        "task",
        task.as_str(),
    )
}

impl Candidates {
    /// The questions whose id is in `ids`, in the order of the ids.
    fn round(&self, ids: &Vec<&str>) -> (r: Vec<(String, Question)>)
        ensures
            crate::oracle::questions_view(r@) == round_of(
                self@.questions,
                crate::text::strs(ids@).to_set(),
            ),
    {
        let ghost all = self@.questions;
        let ghost set = crate::text::strs(ids@).to_set();
        let ghost p = |q: (Seq<char>, QuestionView)| set.contains(q.0);
        let mut out: Vec<(String, Question)> = Vec::new();
        let mut i: usize = 0;
        reveal(Seq::filter);
        while i < self.questions.len()
            invariant
                i <= self.questions@.len(),
                all == crate::oracle::questions_view(self.questions@),
                set == crate::text::strs(ids@).to_set(),
                p == (|q: (Seq<char>, QuestionView)| set.contains(q.0)),
                crate::oracle::questions_view(out@) == all.take(i as int).filter(p),
            decreases self.questions@.len() - i,
        {
            reveal(Seq::filter);
            let ghost here = (self.questions@[i as int].0@, self.questions@[i as int].1@);
            assert(all.take(i + 1).drop_last() =~= all.take(i as int));
            assert(all.take(i + 1).last() == here);
            if listed(ids, self.questions[i].0.as_str()) {
                let ghost before = out@;
                out.push((self.questions[i].0.clone(), self.questions[i].1.copy()));
                assert(crate::oracle::questions_view(out@) =~= crate::oracle::questions_view(
                    before,
                ).push(here));
            }
            i = i + 1;
        }
        assert(all.take(i as int) =~= all);
        out
    }

    /// The questions every utterance gets: what was asked for, and whether
    /// anything was asked for at all.
    pub fn first_round(&self) -> (r: Vec<(String, Question)>)
        ensures
            crate::oracle::questions_view(r@) == round_of(
                self@.questions,
                set!["intent"@, "is_dictation"@],
            ),
    {
        let ids = vec!["intent", "is_dictation"];
        let r = self.round(&ids);
        proof {
            let s = crate::text::strs(ids@);
            assert(s =~= seq!["intent"@, "is_dictation"@]);
            assert(s.to_set() =~= set!["intent"@, "is_dictation"@]) by {
                assert(s[0] == "intent"@ && s[1] == "is_dictation"@);
            }
        }
        r
    }

    /// The second round for an intent, where `has_message` says whether a cue
    /// rule found its message.
    pub fn second_round_given(&self, intent: &str, has_message: bool) -> (r: Vec<
        (String, Question),
    >)
        ensures
            crate::oracle::questions_view(r@) == second_of(
                self@.questions,
                self@.assistant,
                intent@,
                has_message,
            ),
    {
        if same(intent, NO_TARGET) {
            let r: Vec<(String, Question)> = Vec::new();
            assert(crate::oracle::questions_view(r@) =~= Seq::empty());
            return r;
        }
        let mut ids: Vec<&str> = Vec::new();
        if same(intent, "show_app") || same(intent, "close_window") || same(
            intent,
            "minimize_window",
        ) || same(intent, "maximize_window") {
            ids.push("target");
        } else if same(intent, "virtual_desktop") {
            ids.push("desktop_number");
        } else if same(intent, "virtual_desktop_rel") {
            ids.push("desktop_direction");
        } else if same(intent, "start_claude") || same(intent, "claude_model") {
            ids.push("claude_model");
        } else if (same(intent, "krunner") || same(intent, "notify") || same(intent, "claude_tell")
            || same(intent, "key")) && !has_message {
            ids.push("payload");
        }
        if risk_rule(intent) == Risk::Judged {
            ids.push("is_destructive");
        }
        proof {
            lemma_few_ids(ids@);
            assert(crate::text::strs(ids@).to_set() =~= needed_ids(intent@, has_message));
        }
        let asked = self.round(&ids);
        let ghost before = crate::oracle::questions_view(asked@);
        let mut out: Vec<(String, Question)> = Vec::new();
        let mut i: usize = 0;
        while i < asked.len()
            invariant
                i <= asked@.len(),
                before == crate::oracle::questions_view(asked@),
                out@.len() == i,
                forall|k: int|
                    0 <= k < i ==> ((#[trigger] out@[k]).0@, out@[k].1@) == worded(
                        before[k],
                        intent@,
                        self@.assistant,
                    ),
            decreases asked@.len() - i,
        {
            assert(before[i as int] == (asked@[i as int].0@, asked@[i as int].1@));
            let q = match &asked[i].1 {
                Question::Choice { criteria, .. } => {
                    if same(asked[i].0.as_str(), "payload") {
                        Question::Choice {
                            instructions: payload_instructions(intent, self.assistant.as_str()),
                            criteria: criteria.copy(),
                        }
                    } else {
                        asked[i].1.copy()
                    }
                },
                _ => asked[i].1.copy(),
            };
            out.push((asked[i].0.clone(), q));
            i = i + 1;
        }
        assert(crate::oracle::questions_view(out@) =~= before.map_values(
            |q: (Seq<char>, QuestionView)| worded(q, intent@, self@.assistant),
        ));
        out
    }

    /// The questions the chosen intent still needs.
    pub fn second_round(&self, intent: &str) -> (r: Vec<(String, Question)>)
        ensures
            crate::oracle::questions_view(r@) == second_of(
                self@.questions,
                self@.assistant,
                intent@,
                carried(intent@, self@.assistant, self@.utterance) is Some,
            ),
    {
        let found = strip_cue(intent, self.assistant.as_str(), self.utterance.as_str());
        self.second_round_given(intent, found.is_some())
    }
}

/// What is still to be asked once the first round is answered.
pub open spec fn more_questions(c: CandidatesView, answers: AnswersView) -> QuestionsView {
    match crate::oracle::choice_of(answers, "intent"@) {
        Some((intent, _)) => second_of(
            c.questions,
            c.assistant,
            intent,
            carried(intent, c.assistant, c.utterance) is Some,
        ),
        None => Seq::empty(),
    }
}

impl Candidates {
    /// What is still to be asked once the first round is answered: nothing
    /// when no intent was chosen, or when the intent needs nothing more.
    pub fn ask_more(&self, resp: &Response) -> (r: Vec<(String, Question)>)
        ensures
            crate::oracle::questions_view(r@) == more_questions(self@, resp@),
    {
        match resp.choice("intent") {
            Some((intent, _)) => self.second_round(intent),
            None => {
                let none: Vec<(String, Question)> = Vec::new();
                assert(crate::oracle::questions_view(none@) =~= Seq::empty());
                none
            },
        }
    }
}

/// The members of a list of at most two ids.
proof fn lemma_few_ids(ids: Seq<&str>)
    requires
        ids.len() <= 2,
    ensures
        forall|x: Seq<char>| #[trigger]
            crate::text::strs(ids).to_set().contains(x) <==> (ids.len() > 0 && x == ids[0]@) || (
            ids.len() > 1 && x == ids[1]@),
{
    let s = crate::text::strs(ids);
    assert forall|x: Seq<char>| #[trigger] s.to_set().contains(x) <==> (ids.len() > 0 && x
        == ids[0]@) || (ids.len() > 1 && x == ids[1]@) by {
        if s.contains(x) {
            let i = choose|i: int| 0 <= i < s.len() && s[i] == x;
            assert(s[i] == ids[i]@);
        }
        if ids.len() > 0 && x == ids[0]@ {
            assert(s[0] == x);
        }
        if ids.len() > 1 && x == ids[1]@ {
            assert(s[1] == x);
        }
    }
}

/// Whether `x` is one of `list`.
fn listed(list: &Vec<&str>, x: &str) -> (r: bool)
    ensures
        r == crate::text::strs(list@).to_set().contains(x@),
{
    let ghost all = crate::text::strs(list@);
    let mut i: usize = 0;
    while i < list.len()
        invariant
            i <= list@.len(),
            crate::text::strs(list@) == all,
            forall|k: int| 0 <= k < i ==> #[trigger] all[k] != x@,
        decreases list@.len() - i,
    {
        assert(all[i as int] == list@[i as int]@);
        if same(list[i], x) {
            assert(all.contains(x@));
            return true;
        }
        i = i + 1;
    }
    assert(!all.contains(x@));
    false
}

/// The place of a double in the total order of bit patterns, in which a
/// negative zero comes before a positive one and the NaNs stand at the ends.
pub open spec fn total_rank(d: Double) -> int {
    if d.negative() {
        -(d.magnitude() as int) - 1
    } else {
        d.magnitude() as int
    }
}

fn above(a: Double, b: Double) -> (r: bool)
    ensures
        r == (total_rank(a) > total_rank(b)),
{
    let sign: u64 = crate::double::SIGN;
    if a.bits >= sign {
        b.bits >= sign && a.bits < b.bits
    } else {
        b.bits >= sign || a.bits > b.bits
    }
}

/// The index of the option with the most weight among those that are not
/// `choice`, the first of equal ones; None when there is no other option.
pub open spec fn runner_up(weights: Seq<(Seq<char>, Double)>, choice: Seq<char>) -> Option<int>
    decreases weights.len(),
{
    if weights.len() == 0 {
        None
    } else {
        let n = weights.len() - 1;
        let best = runner_up(weights.drop_last(), choice);
        if weights[n].0 == choice {
            best
        } else {
            match best {
                Some(i) => if total_rank(weights[n].1) > total_rank(weights[i].1) {
                    Some(n)
                } else {
                    best
                },
                None => Some(n),
            }
        }
    }
}

fn second_best(probabilities: &Vec<(String, Double)>, choice: &str) -> (r: Option<usize>)
    ensures
        match r {
            Some(i) => i < probabilities@.len() && runner_up(
                crate::oracle::weights(probabilities@),
                choice@,
            ) == Some(i as int),
            None => runner_up(crate::oracle::weights(probabilities@), choice@) is None,
        },
{
    let ghost all = crate::oracle::weights(probabilities@);
    let mut best: Option<usize> = None;
    let mut i: usize = 0;
    while i < probabilities.len()
        invariant
            i <= probabilities@.len(),
            all == crate::oracle::weights(probabilities@),
            match best {
                Some(b) => b < i && runner_up(all.take(i as int), choice@) == Some(b as int),
                None => runner_up(all.take(i as int), choice@) is None,
            },
        decreases probabilities@.len() - i,
    {
        proof {
            let t = all.take(i + 1);
            assert(t.drop_last() =~= all.take(i as int));
            assert(t[i as int] == (probabilities@[i as int].0@, probabilities@[i as int].1));
            if best is Some {
                assert(t[best->0 as int] == (
                    probabilities@[best->0 as int].0@,
                    probabilities@[best->0 as int].1,
                ));
            }
        }
        if !same(probabilities[i].0.as_str(), choice) {
            match best {
                Some(b) => {
                    if above(probabilities[i].1, probabilities[b].1) {
                        best = Some(i);
                    }
                },
                None => {
                    best = Some(i);
                },
            }
        }
        i = i + 1;
    }
    assert(all.take(i as int) =~= all);
    best
}

/// A key with what it denotes.
pub open spec fn named_key(c: CandidatesView, key: Seq<char>) -> Seq<char> {
    match target_of(c, Some(key)) {
        TargetView::App(a) => key + " ("@ + a.name + ")"@,
        TargetView::Window(w) => key + " ("@ + w.title + ")"@,
        _ => match span_of(c, key) {
            Some(s) => key + " ("@ + crate::text::debug_text(s) + ")"@,
            None => key,
        },
    }
}

/// One answer as a log line: the chosen key with what it stands for, and the
/// runner-up.
pub open spec fn described(c: CandidatesView, answer: AnswerView) -> Seq<char> {
    match answer {
        AnswerView::Noul { noul } => noul.two_decimals(),
        AnswerView::Choice { choice, confidence, probabilities } => named_key(c, choice) + " "@
            + confidence.two_decimals() + (match runner_up(probabilities, choice) {
            Some(i) => ", then "@ + named_key(c, probabilities[i].0) + " "@
                + probabilities[i].1.two_decimals(),
            None => Seq::empty(),
        }),
        AnswerView::Score { score, confidence } => score.two_decimals() + " ("@
            + confidence.two_decimals() + ")"@,
        AnswerView::Unknown => "unknown"@,
    }
}

impl Candidates {
    /// The key plus what it denotes, for logs.
    fn name_of(&self, key: &str) -> (r: String)
        ensures
            r@ == named_key(self@, key@),
    {
        match self.target(Some(key)) {
            Target::App(a) => {
                let mut out = concat3(key, " (", a.name.as_str());
                out.append(")");
                out
            },
            Target::Window(w) => {
                let mut out = concat3(key, " (", w.title.as_str());
                out.append(")");
                out
            },
            _ => match self.span(key) {
                Some(s) => {
                    let q = quoted(s);
                    let mut out = concat3(key, " (", q.as_str());
                    out.append(")");
                    out
                },
                None => key.to_string(),
            },
        }
    }

    /// One answer as a log line.
    pub fn describe(&self, answer: &Answer) -> (r: String)
        ensures
            r@ == described(self@, answer@),
    {
        match answer {
            Answer::Noul { noul } => noul.shown(),
            Answer::Choice { choice, confidence, probabilities } => {
                let name = self.name_of(choice.as_str());
                let shown = confidence.shown();
                let mut out = concat3(name.as_str(), " ", shown.as_str());
                match second_best(probabilities, choice.as_str()) {
                    Some(i) => {
                        assert(crate::oracle::weights(probabilities@)[i as int] == (
                            probabilities@[i as int].0@,
                            probabilities@[i as int].1,
                        ));
                        let other = self.name_of(probabilities[i].0.as_str());
                        let weight = probabilities[i].1.shown();
                        let mut tail = concat3(", then ", other.as_str(), " ");
                        tail.append(weight.as_str());
                        out.append(tail.as_str());
                    },
                    None => {
                        assert(out@ + Seq::<char>::empty() =~= out@);
                    },
                }
                out
            },
            Answer::Score { score, confidence } => {
                let a = score.shown();
                let b = confidence.shown();
                let mut out = concat3(a.as_str(), " (", b.as_str());
                out.append(")");
                out
            },
            Answer::Unknown => "unknown".to_string(),
        }
    }
}

proof fn lemma_index_reads_back(prefix: Seq<char>, i: int, len: nat)
    requires
        0 <= i < len,
        len <= usize::MAX,
    ensures
        index_in(crate::judge::key_at(prefix, i), prefix, len) == Some(i),
{
    let key = crate::judge::key_at(prefix, i);
    let d = crate::text::decimal(i as nat);
    assert(key.take(prefix.len() as int) =~= prefix);
    assert(key.skip(prefix.len() as int) =~= d);
    crate::text::lemma_decimal_reads_back(i as nat);
    assert(48 <= d[0] as u32 <= 57);
}

/// Every offered key denotes the candidate it was offered for: an application
/// key that application, a window key that window, a span key that span, and
/// no sentinel is among them, whatever the candidates are called.
pub proof fn law_offered_keys_denote_their_candidates(c: CandidatesView, i: int)
    requires
        c.apps.len() <= usize::MAX,
        c.windows.len() <= usize::MAX,
        c.spans.len() <= usize::MAX,
    ensures
        0 <= i < c.apps.len() ==> target_of(c, Some(crate::judge::key_at(APP_KEY@, i)))
            == TargetView::App(c.apps[i]),
        0 <= i < c.windows.len() ==> target_of(c, Some(crate::judge::key_at(WINDOW_KEY@, i)))
            == TargetView::Window(c.windows[i]),
        0 <= i < c.spans.len() ==> span_of(c, crate::judge::key_at(SPAN_KEY@, i)) == Some(
            c.spans[i],
        ),
        0 <= i ==> crate::judge::key_at(APP_KEY@, i) != NO_TARGET@ && crate::judge::key_at(
            WINDOW_KEY@,
            i,
        ) != NO_TARGET@ && crate::judge::key_at(SPAN_KEY@, i) != NO_TARGET@,
{
    reveal_strlit("a:");
    reveal_strlit("w:");
    reveal_strlit("p:");
    reveal_strlit("__none__");
    reveal_strlit("__focused_window__");
    reveal_strlit("__whole__");
    if i >= 0 {
        let (a, w, p) = (
            crate::judge::key_at(APP_KEY@, i),
            crate::judge::key_at(WINDOW_KEY@, i),
            crate::judge::key_at(SPAN_KEY@, i),
        );
        assert(a[0] == 'a' && w[0] == 'w' && p[0] == 'p');
        assert(NO_TARGET@[0] == '_' && FOCUSED@[0] == '_' && WHOLE@[0] == '_');
        if i < c.apps.len() {
            lemma_index_reads_back(APP_KEY@, i, c.apps.len());
        }
        if i < c.windows.len() {
            lemma_index_reads_back(WINDOW_KEY@, i, c.windows.len());
            assert(w.take(2)[0] == 'w');
            assert(APP_KEY@[0] == 'a');
            assert(index_in(w, APP_KEY@, c.apps.len()) is None);
        }
        if i < c.spans.len() {
            lemma_index_reads_back(SPAN_KEY@, i, c.spans.len());
        }
    }
}

/// The model cannot invent an intent: a key that was never offered builds
/// nothing.
pub proof fn law_unoffered_intent_builds_nothing(
    answers: AnswersView,
    c: CandidatesView,
    key: Seq<char>,
    confidence: Double,
    message: Option<Seq<char>>,
    chord: Option<Seq<char>>,
)
    requires
        crate::oracle::choice_of(answers, "intent"@) == Some((key, confidence)),
        !was_offered(c.questions, "intent"@, key),
    ensures
        resolution(answers, c, message, chord) == Err::<ResolvedView, UnclearView>(
            UnclearView::NeverOffered { key, id: "intent"@ },
        ),
{
}

/// The question whose answer is the argument of the intent `name`, if the model
/// is asked for one: a message that a cue rule found needs no answer.
pub open spec fn argument_id(name: Seq<char>, message: Option<Seq<char>>) -> Option<Seq<char>> {
    if name == "show_app"@ || name == "close_window"@ || name == "minimize_window"@ || name
        == "maximize_window"@ {
        Some("target"@)
    } else if name == "virtual_desktop"@ {
        Some("desktop_number"@)
    } else if name == "virtual_desktop_rel"@ {
        Some("desktop_direction"@)
    } else if name == "start_claude"@ || name == "claude_model"@ {
        Some("claude_model"@)
    } else if (name == "krunner"@ || name == "claude_tell"@ || name == "notify"@ || name == "key"@)
        && message is None {
        Some("payload"@)
    } else {
        None
    }
}

/// Nor can it invent an argument: a target, desktop number, direction, model or
/// message that was never offered builds nothing, and what is said of it is
/// just that.
pub proof fn law_unoffered_argument_builds_nothing(
    answers: AnswersView,
    c: CandidatesView,
    name: Seq<char>,
    confidence: Double,
    id: Seq<char>,
    key: Seq<char>,
    weight: Double,
    message: Option<Seq<char>>,
    chord: Option<Seq<char>>,
)
    requires
        crate::oracle::choice_of(answers, "intent"@) == Some((name, confidence)),
        was_offered(c.questions, "intent"@, name),
        argument_id(name, message) == Some(id),
        crate::oracle::choice_of(answers, id) == Some((key, weight)),
        !was_offered(c.questions, id, key),
    ensures
        resolution(answers, c, message, chord) == Err::<ResolvedView, UnclearView>(
            UnclearView::NeverOffered { key, id },
        ),
{
    reveal_strlit("__none__");
    reveal_strlit("show_app");
    reveal_strlit("close_window");
    reveal_strlit("minimize_window");
    reveal_strlit("maximize_window");
    reveal_strlit("virtual_desktop");
    reveal_strlit("virtual_desktop_rel");
    reveal_strlit("start_claude");
    reveal_strlit("claude_model");
    reveal_strlit("krunner");
    reveal_strlit("claude_tell");
    reveal_strlit("notify");
    reveal_strlit("key");
    assert(NO_TARGET@[0] == '_' && name[0] != '_');
}

/// A window or application that was picked is one of the candidates: what a
/// resolved intent names by id was observed.
pub proof fn law_picked_ids_were_observed(
    answers: AnswersView,
    c: CandidatesView,
    message: Option<Seq<char>>,
    chord: Option<Seq<char>>,
)
    ensures
        resolution(answers, c, message, chord) matches Ok(r) ==> {
            &&& r.built.window_id matches Some(id) ==> exists|i: int|
                0 <= i < c.windows.len() && (#[trigger] c.windows[i]).id == id
            &&& r.built.entry_id matches Some(id) ==> exists|i: int|
                0 <= i < c.apps.len() && (#[trigger] c.apps[i]).id == id
        },
{
}

/// An action is only as certain as its least certain part: its confidence
/// never exceeds that of the intent, nor that of the argument asked for.
pub proof fn law_confidence_is_the_weakest_link(
    answers: AnswersView,
    c: CandidatesView,
    name: Seq<char>,
    confidence: Double,
    message: Option<Seq<char>>,
    chord: Option<Seq<char>>,
)
    requires
        !confidence.nan(),
    ensures
        named_intent(answers, c, name, confidence, message, chord) matches Ok(b) ==> {
            &&& !confidence.lt(b.confidence)
            &&& (name == "show_app"@ || name == "close_window"@ || name == "minimize_window"@
                || name == "maximize_window"@) ==> (crate::oracle::choice_of(answers, "target"@)
                matches Some((_, t)) ==> b.confidence == confidence.min_of(t))
        },
{
    reveal_strlit("show_app");
    reveal_strlit("close_window");
    reveal_strlit("minimize_window");
    reveal_strlit("maximize_window");
}

/// What the judged path builds for an intent that always asks never runs
/// unasked, whatever the answers say.
pub proof fn law_judged_always_asking_never_acts(
    policy: Policy,
    answers: AnswersView,
    c: CandidatesView,
    message: Option<Seq<char>>,
    chord: Option<Seq<char>>,
)
    ensures
        resolution(answers, c, message, chord) matches Ok(r) ==> r.built.intent.always_asks()
            ==> policy.decision(r.built.intent, r.signals) != crate::policy::DecisionView::Act,
{
}

/// A search or an edit with no risk answered is never carried out unasked,
/// and neither is anything when the dictation question went unanswered.
pub proof fn law_unanswered_safety_never_acts(
    policy: Policy,
    answers: AnswersView,
    c: CandidatesView,
    message: Option<Seq<char>>,
    chord: Option<Seq<char>>,
)
    requires
        dictation_of(answers) is None || (crate::oracle::noul_of(answers, "is_destructive"@)
            is None && (crate::oracle::choice_of(answers, "intent"@) matches Some((name, _))
            && crate::policy::risk_of(name) == Risk::Judged)),
    ensures
        resolution(answers, c, message, chord) matches Ok(r) ==> policy.decision(
            r.built.intent,
            r.signals,
        ) != crate::policy::DecisionView::Act,
{
}

/// A second round asks nothing that was not prepared, and asks no intent
/// question again.
pub proof fn law_second_round_is_part_of_the_questions(
    questions: QuestionsView,
    assistant: Seq<char>,
    intent: Seq<char>,
    has_message: bool,
)
    ensures
        forall|i: int|
            0 <= i < second_of(questions, assistant, intent, has_message).len() ==> needed_ids(
                intent,
                has_message,
            ).contains((#[trigger] second_of(questions, assistant, intent, has_message)[i]).0),
        !needed_ids(intent, has_message).contains("intent"@),
{
    let ids = needed_ids(intent, has_message);
    let p = |q: (Seq<char>, QuestionView)| ids.contains(q.0);
    questions.filter_lemma(p);
    reveal_strlit("intent");
    reveal_strlit("target");
    reveal_strlit("payload");
    reveal_strlit("claude_model");
    reveal_strlit("desktop_number");
    reveal_strlit("desktop_direction");
    reveal_strlit("is_destructive");
    assert("intent"@[0] != "target"@[0]);
    assert("intent"@ != "target"@);
    assert("intent"@.len() != "payload"@.len());
    assert("intent"@.len() != "claude_model"@.len());
    assert("intent"@.len() != "desktop_number"@.len());
    assert("intent"@.len() != "desktop_direction"@.len());
    assert("intent"@.len() != "is_destructive"@.len());
}

/// The names of the intents differ from each other and from the key for no
/// match.
proof fn lemma_names_differ()
    ensures
        NO_TARGET@.len() == 8 && NO_TARGET@[0] == '_',
        FOCUSED@.len() == 18 && FOCUSED@[0] == '_',
        WHOLE@.len() == 9 && WHOLE@[0] == '_',
        "show_app"@.len() == 8 && "show_app"@[0] == 's',
        "close_window"@.len() == 12 && "close_window"@[2] == 'o',
        "start_claude"@.len() == 12 && "start_claude"@[0] == 's',
        "claude_model"@.len() == 12 && "claude_model"@[0] == 'c' && "claude_model"@[2] == 'a',
        "close_window"@[0] == 'c',
        "minimize_window"@.len() == 15 && "minimize_window"@[1] == 'i' && "minimize_window"@[0]
            == 'm',
        "maximize_window"@.len() == 15 && "maximize_window"@[1] == 'a',
        "virtual_desktop"@.len() == 15 && "virtual_desktop"@[0] == 'v' && "virtual_desktop"@[1]
            == 'i',
        "virtual_desktop_rel"@.len() == 19,
        "krunner"@.len() == 7,
        "claude_tell"@.len() == 11 && "claude_tell"@[7] == 't',
        "claude_read"@.len() == 11 && "claude_read"@[7] == 'r',
        "notify"@.len() == 6,
        "key"@.len() == 3,
        "edit_text"@.len() == 9,
        "open_terminal"@.len() == 13,
        "next"@.len() == 4,
        "previous"@.len() == 8 && "previous"@[0] == 'p',
{
    reveal_strlit("__none__");
    reveal_strlit("__focused_window__");
    reveal_strlit("__whole__");
    reveal_strlit("show_app");
    reveal_strlit("close_window");
    reveal_strlit("minimize_window");
    reveal_strlit("maximize_window");
    reveal_strlit("virtual_desktop");
    reveal_strlit("virtual_desktop_rel");
    reveal_strlit("start_claude");
    reveal_strlit("claude_model");
    reveal_strlit("krunner");
    reveal_strlit("claude_tell");
    reveal_strlit("claude_read");
    reveal_strlit("notify");
    reveal_strlit("key");
    reveal_strlit("edit_text");
    reveal_strlit("open_terminal");
    reveal_strlit("next");
    reveal_strlit("previous");
}

/// Whether the model answered question `id` with `key`, one of the options it
/// was given, and with the confidence `weight`.
pub open spec fn answered(
    answers: AnswersView,
    c: CandidatesView,
    id: Seq<char>,
    key: Seq<char>,
    weight: Double,
) -> bool {
    crate::oracle::choice_of(answers, id) == Some((key, weight)) && was_offered(
        c.questions,
        id,
        key,
    )
}

/// The direction that was answered is the direction taken: "next" is one desktop
/// forward, "previous" one back, and nothing else is a direction.
pub proof fn law_direction_is_the_one_answered(
    answers: AnswersView,
    c: CandidatesView,
    confidence: Double,
    key: Seq<char>,
    weight: Double,
    message: Option<Seq<char>>,
    chord: Option<Seq<char>>,
)
    requires
        answered(answers, c, "intent"@, "virtual_desktop_rel"@, confidence),
        answered(answers, c, "desktop_direction"@, key, weight),
    ensures
        key == "next"@ ==> (resolution(answers, c, message, chord) matches Ok(r) && r.built.intent
            == (IntentView::VirtualDesktopRel { delta: 1 })),
        key == "previous"@ ==> (resolution(answers, c, message, chord) matches Ok(r)
            && r.built.intent == (IntentView::VirtualDesktopRel { delta: (-1) as i32 })),
        key != "next"@ && key != "previous"@ ==> resolution(answers, c, message, chord) is Err,
{
    lemma_names_differ();
}

/// The desktop that was answered by its number is the desktop gone to, if there
/// is one of that number.
pub proof fn law_desktop_is_the_one_answered(
    answers: AnswersView,
    c: CandidatesView,
    confidence: Double,
    n: u32,
    weight: Double,
    message: Option<Seq<char>>,
    chord: Option<Seq<char>>,
)
    requires
        answered(answers, c, "intent"@, "virtual_desktop"@, confidence),
        answered(answers, c, "desktop_number"@, crate::text::decimal(n as nat), weight),
    ensures
        1 <= n <= c.desktop_count ==> (resolution(answers, c, message, chord) matches Ok(r)
            && r.built.intent == (IntentView::VirtualDesktop { n })),
        !(1 <= n <= c.desktop_count) ==> resolution(answers, c, message, chord) is Err,
{
    lemma_names_differ();
    crate::text::lemma_decimal_reads_back(n as nat);
    let key = crate::text::decimal(n as nat);
    assert(48 <= key[0] as u32 <= 57);
    assert(key != NO_TARGET@);
}

/// A window that was answered is the window acted on: it is shown, closed,
/// minimized or maximized as the intent says, under its title, and goes by its
/// id.
pub proof fn law_window_is_the_one_answered(
    answers: AnswersView,
    c: CandidatesView,
    name: Seq<char>,
    confidence: Double,
    i: int,
    weight: Double,
    message: Option<Seq<char>>,
    chord: Option<Seq<char>>,
)
    requires
        c.apps.len() <= usize::MAX,
        c.spans.len() <= usize::MAX,
        0 <= i < c.windows.len() <= usize::MAX,
        name == "show_app"@ || name == "close_window"@ || name == "minimize_window"@ || name
            == "maximize_window"@,
        answered(answers, c, "intent"@, name, confidence),
        answered(answers, c, "target"@, "w:"@ + crate::text::decimal(i as nat), weight),
    ensures
        resolution(answers, c, message, chord) matches Ok(r) && {
            let title = c.windows[i].title;
            &&& name == "show_app"@ ==> r.built.intent == (IntentView::FocusWindow { query: title })
            &&& name == "close_window"@ ==> r.built.intent == (IntentView::CloseWindow {
                query: Some(title),
            })
            &&& name == "minimize_window"@ ==> r.built.intent == (IntentView::MinimizeWindow {
                query: Some(title),
            })
            &&& name == "maximize_window"@ ==> r.built.intent == (IntentView::MaximizeWindow {
                query: Some(title),
            })
            &&& r.built.window_id == Some(c.windows[i].id)
            &&& r.built.entry_id is None
        },
{
    lemma_names_differ();
    law_offered_keys_denote_their_candidates(c, i);
}

/// An application that was answered is started by its id when it is to be shown;
/// an intent on a window looks for a window under its name.
pub proof fn law_application_is_the_one_answered(
    answers: AnswersView,
    c: CandidatesView,
    name: Seq<char>,
    confidence: Double,
    i: int,
    weight: Double,
    message: Option<Seq<char>>,
    chord: Option<Seq<char>>,
)
    requires
        c.windows.len() <= usize::MAX,
        c.spans.len() <= usize::MAX,
        0 <= i < c.apps.len() <= usize::MAX,
        name == "show_app"@ || name == "close_window"@ || name == "minimize_window"@ || name
            == "maximize_window"@,
        answered(answers, c, "intent"@, name, confidence),
        answered(answers, c, "target"@, "a:"@ + crate::text::decimal(i as nat), weight),
    ensures
        resolution(answers, c, message, chord) matches Ok(r) && {
            let called = c.apps[i].name;
            &&& name == "show_app"@ ==> r.built.intent == (IntentView::LaunchApp { query: called })
                && r.built.entry_id == Some(c.apps[i].id)
            &&& name == "close_window"@ ==> r.built.intent == (IntentView::CloseWindow {
                query: Some(called),
            })
            &&& name == "minimize_window"@ ==> r.built.intent == (IntentView::MinimizeWindow {
                query: Some(called),
            })
            &&& name == "maximize_window"@ ==> r.built.intent == (IntentView::MaximizeWindow {
                query: Some(called),
            })
            &&& name != "show_app"@ ==> r.built.entry_id is None
            &&& r.built.window_id is None
        },
{
    lemma_names_differ();
    law_offered_keys_denote_their_candidates(c, i);
}

/// The focused window is acted on only where it was answered; it cannot be
/// shown, being in front already. Where nothing was named, nothing is done.
pub proof fn law_focused_window_must_be_answered(
    answers: AnswersView,
    c: CandidatesView,
    name: Seq<char>,
    confidence: Double,
    message: Option<Seq<char>>,
    chord: Option<Seq<char>>,
)
    requires
        name == "show_app"@ || name == "close_window"@ || name == "minimize_window"@ || name
            == "maximize_window"@,
        answered(answers, c, "intent"@, name, confidence),
    ensures
        ({
            let result = resolution(answers, c, message, chord);
            let target = crate::oracle::choice_of(answers, "target"@);
            &&& target is None || (target->0).0 == NO_TARGET@ ==> result is Err
            &&& target is Some && (target->0).0 == FOCUSED@ && was_offered(
                c.questions,
                "target"@,
                FOCUSED@,
            ) ==> {
                &&& name == "show_app"@ ==> result is Err
                &&& name == "close_window"@ ==> result is Ok && result->Ok_0.built.intent == (
                IntentView::CloseWindow { query: None })
                &&& name == "minimize_window"@ ==> result is Ok && result->Ok_0.built.intent == (
                IntentView::MinimizeWindow { query: None })
                &&& name == "maximize_window"@ ==> result is Ok && result->Ok_0.built.intent == (
                IntentView::MaximizeWindow { query: None })
                &&& result matches Ok(r) ==> r.built.window_id is None && r.built.entry_id is None
            }
        }),
{
    lemma_names_differ();
}

/// The text that an intent passes on is what a cue rule found, else the very
/// span of the utterance that was answered: it is searched for, told to the
/// coding assistant or put on the screen as the intent says, and keys are
/// pressed only where it spells a chord.
pub proof fn law_message_is_what_was_said(
    answers: AnswersView,
    c: CandidatesView,
    name: Seq<char>,
    confidence: Double,
    text: Seq<char>,
    i: int,
    weight: Double,
    message: Option<Seq<char>>,
    chord: Option<Seq<char>>,
)
    requires
        c.apps.len() <= usize::MAX,
        c.windows.len() <= usize::MAX,
        c.spans.len() <= usize::MAX,
        name == "krunner"@ || name == "claude_tell"@ || name == "notify"@ || name == "key"@,
        answered(answers, c, "intent"@, name, confidence),
        match message {
            Some(found) => text == found,
            None => {
                ||| 0 <= i < c.spans.len() && text == c.spans[i] && answered(
                    answers,
                    c,
                    "payload"@,
                    "p:"@ + crate::text::decimal(i as nat),
                    weight,
                )
                ||| text == c.utterance && answered(answers, c, "payload"@, WHOLE@, weight)
            },
        },
    ensures
        ({
            let result = resolution(answers, c, message, chord);
            &&& name == "krunner"@ ==> result is Ok && result->Ok_0.built.intent == (
            IntentView::KRunner { query: text })
            &&& name == "claude_tell"@ ==> result is Ok && result->Ok_0.built.intent == (
            IntentView::ClaudeTell { text })
            &&& name == "notify"@ ==> result is Ok && result->Ok_0.built.intent == (
            IntentView::Notify { text })
            &&& name == "key"@ && chord is Some ==> result is Ok && result->Ok_0.built.intent == (
            IntentView::Key { chord: chord->0 })
            &&& name == "key"@ && chord is None ==> result == Err::<ResolvedView, UnclearView>(
                UnclearView::NotChord { spoken: text },
            )
        }),
{
    lemma_names_differ();
    law_offered_keys_denote_their_candidates(c, i);
}

/// The model that was answered is the model started or changed to. A session can
/// be started with no model named; a change needs one.
pub proof fn law_model_is_the_one_answered(
    answers: AnswersView,
    c: CandidatesView,
    name: Seq<char>,
    confidence: Double,
    message: Option<Seq<char>>,
    chord: Option<Seq<char>>,
)
    requires
        name == "start_claude"@ || name == "claude_model"@,
        answered(answers, c, "intent"@, name, confidence),
    ensures
        ({
            let result = resolution(answers, c, message, chord);
            let model = crate::oracle::choice_of(answers, "claude_model"@);
            let named = model is Some && (model->0).0 != NO_TARGET@;
            &&& model is Some && !was_offered(c.questions, "claude_model"@, (model->0).0)
                ==> result is Err
            &&& model is None || was_offered(c.questions, "claude_model"@, (model->0).0) ==> {
                &&& name == "start_claude"@ ==> result is Ok && result->Ok_0.built.intent == (
                IntentView::StartClaude {
                    model: if named {
                        Some((model->0).0)
                    } else {
                        None
                    },
                })
                &&& name == "claude_model"@ && named ==> result is Ok
                    && result->Ok_0.built.intent == (IntentView::ClaudeModel { model: (model->0).0 })
                &&& name == "claude_model"@ && !named ==> result is Err
            }
        }),
{
    lemma_names_differ();
}

/// The intents that need no argument are built as they are named; an edit is
/// told in the words of the utterance.
pub proof fn law_bare_intents_are_built(
    answers: AnswersView,
    c: CandidatesView,
    confidence: Double,
    message: Option<Seq<char>>,
    chord: Option<Seq<char>>,
)
    ensures
        ({
            let result = resolution(answers, c, message, chord);
            &&& answered(answers, c, "intent"@, "edit_text"@, confidence) ==> result is Ok
                && result->Ok_0.built.intent == (IntentView::EditText { instruction: c.utterance })
            &&& answered(answers, c, "intent"@, "open_terminal"@, confidence) ==> result is Ok
                && result->Ok_0.built.intent == IntentView::OpenTerminal
            &&& answered(answers, c, "intent"@, "claude_read"@, confidence) ==> result is Ok
                && result->Ok_0.built.intent == IntentView::ClaudeRead
            &&& answered(answers, c, "intent"@, NO_TARGET@, confidence) ==> result == Err::<
                ResolvedView,
                UnclearView,
            >(UnclearView::NotCommand)
            &&& crate::oracle::choice_of(answers, "intent"@) is None ==> result == Err::<
                ResolvedView,
                UnclearView,
            >(UnclearView::NoIntent)
        }),
{
    lemma_names_differ();
}

/// An argument that the intent cannot do without and that was not named builds
/// nothing: it is never guessed.
pub proof fn law_missing_argument_is_never_guessed(
    answers: AnswersView,
    c: CandidatesView,
    name: Seq<char>,
    confidence: Double,
    id: Seq<char>,
    message: Option<Seq<char>>,
    chord: Option<Seq<char>>,
)
    requires
        answered(answers, c, "intent"@, name, confidence),
        name != "start_claude"@,
        argument_id(name, message) == Some(id),
        crate::oracle::choice_of(answers, id) matches Some((key, _)) ==> key == NO_TARGET@,
    ensures
        resolution(answers, c, message, chord) is Err,
{
    lemma_names_differ();
}

/// The signals are the model's own answers: the confidence is that of what was
/// built, the risk is asked of the model for a search and an edit alone, and
/// the weight of prose is what it put on the text reading.
pub proof fn law_signals_are_the_answers(
    answers: AnswersView,
    c: CandidatesView,
    message: Option<Seq<char>>,
    chord: Option<Seq<char>>,
)
    ensures
        resolution(answers, c, message, chord) matches Ok(r) ==> (r.signals matches Signals::Judged {
            confidence,
            destructive,
            dictation,
        } && {
            let intent = r.built.intent;
            &&& confidence == r.built.confidence
            &&& dictation == match crate::oracle::find(answers, "is_dictation"@) {
                Some(AnswerView::Choice { probabilities, .. }) => crate::oracle::find(
                    probabilities,
                    "text"@,
                ),
                _ => None,
            }
            &&& destructive == if intent is KRunner || intent is EditText {
                crate::oracle::noul_of(answers, "is_destructive"@)
            } else if intent is CloseWindow || intent is ClaudeTell || intent is Key {
                None
            } else {
                Some(Double { bits: 0 })
            }
        }),
{
    lemma_names_differ();
    reveal_strlit("launch_app");
    reveal_strlit("focus_window");
    reveal_strlit("scratch_that");
    reveal_strlit("confirm");
    reveal_strlit("deny");
    reveal_strlit("run_shortcut");
    reveal_strlit("krunner");
    assert("focus_window"@[0] == 'f' && "scratch_that"@[0] == 's' && "run_shortcut"@[0] == 'r');
    assert("confirm"@[0] == 'c' && "krunner"@[0] == 'k');
    assert(crate::policy::risk_of("krunner"@) == Risk::Judged);
    assert(crate::policy::risk_of("edit_text"@) == Risk::Judged);
    assert(crate::policy::risk_of("close_window"@) == Risk::AlwaysConfirmed);
    assert(crate::policy::risk_of("claude_tell"@) == Risk::AlwaysConfirmed);
    assert(crate::policy::risk_of("key"@) == Risk::AlwaysConfirmed);
}

/// What is built is as certain as the intent, or as its argument where that was
/// answered and is the less certain of the two.
pub proof fn law_confidence_is_folded_from_the_answers(
    answers: AnswersView,
    c: CandidatesView,
    name: Seq<char>,
    confidence: Double,
    message: Option<Seq<char>>,
    chord: Option<Seq<char>>,
)
    requires
        answered(answers, c, "intent"@, name, confidence),
        !confidence.nan(),
    ensures
        resolution(answers, c, message, chord) matches Ok(r) ==> {
            let asked = match argument_id(name, message) {
                Some(id) => crate::oracle::choice_of(answers, id),
                None => None,
            };
            match asked {
                Some((_, weight)) => r.built.confidence == if weight.lt(confidence) {
                    weight
                } else {
                    confidence
                },
                None => r.built.confidence == confidence,
            }
        },
{
    lemma_names_differ();
}

/// The second round asks for the argument of the intent that was chosen, and for
/// its risk where the intent is a search or an edit.
pub proof fn law_second_round_asks_what_is_needed(name: Seq<char>, message: Option<Seq<char>>)
    ensures
        argument_id(name, message) matches Some(id) ==> needed_ids(
            name,
            message is Some,
        ).contains(id),
        name == "krunner"@ || name == "edit_text"@ ==> needed_ids(name, message is Some).contains(
            "is_destructive"@,
        ),
        needed_ids(name, message is Some).contains("is_destructive"@)
            ==> crate::policy::risk_of(name) == Risk::Judged,
{
    lemma_names_differ();
    reveal_strlit("launch_app");
    reveal_strlit("focus_window");
    reveal_strlit("scratch_that");
    reveal_strlit("confirm");
    reveal_strlit("deny");
    reveal_strlit("run_shortcut");
    reveal_strlit("krunner");
    reveal_strlit("is_destructive");
    reveal_strlit("target");
    reveal_strlit("payload");
    reveal_strlit("desktop_number");
    reveal_strlit("desktop_direction");
    assert("confirm"@[0] == 'c' && "krunner"@[0] == 'k');
    assert("is_destructive"@.len() == 14 && "desktop_number"@.len() == 14);
    assert("is_destructive"@[0] == 'i' && "desktop_number"@[0] == 'd');
    assert("target"@.len() == 6 && "payload"@.len() == 7 && "desktop_direction"@.len() == 17);
    assert(crate::policy::risk_of("krunner"@) == Risk::Judged);
    assert(crate::policy::risk_of("edit_text"@) == Risk::Judged);
}

/// The runner-up is another option than the one chosen, no other has more
/// weight, and of equal ones it is the first; there is none exactly when
/// nothing else was weighed.
pub proof fn law_runner_up_is_the_heaviest_other(
    weights: Seq<(Seq<char>, Double)>,
    choice: Seq<char>,
)
    ensures
        match runner_up(weights, choice) {
            Some(i) => 0 <= i < weights.len() && weights[i].0 != choice && (forall|k: int|
                0 <= k < weights.len() && (#[trigger] weights[k]).0 != choice ==> total_rank(
                    weights[k].1,
                ) <= total_rank(weights[i].1)) && (forall|k: int|
                0 <= k < i && (#[trigger] weights[k]).0 != choice ==> total_rank(weights[k].1)
                    < total_rank(weights[i].1)),
            None => forall|k: int| 0 <= k < weights.len() ==> (#[trigger] weights[k]).0 == choice,
        },
    decreases weights.len(),
{
    if weights.len() > 0 {
        let front = weights.drop_last();
        law_runner_up_is_the_heaviest_other(front, choice);
        assert forall|k: int| 0 <= k < front.len() implies front[k] == #[trigger] weights[k] by {}
    }
}

/// Weights are ranked as the numbers are, a larger one before a smaller one.
pub proof fn law_larger_weights_rank_higher(a: Double, b: Double)
    ensures
        a.lt(b) ==> total_rank(a) < total_rank(b),
        total_rank(a) == total_rank(b) <==> a == b,
{
}

/// Only the question for the message is worded for the intent, and its options
/// stay; every other question is asked as it was.
pub proof fn law_only_the_message_is_reworded(
    id: Seq<char>,
    q: QuestionView,
    intent: Seq<char>,
    assistant: Seq<char>,
)
    ensures
        id != "payload"@ ==> worded((id, q), intent, assistant) == (id, q),
        !(q is Choice) ==> worded((id, q), intent, assistant) == (id, q),
        id == "payload"@ && q is Choice ==> {
            let w = worded((id, q), intent, assistant);
            &&& w.0 == id
            &&& w.1 is Choice
            &&& w.1->Choice_criteria == q->Choice_criteria
            &&& w.1->Choice_instructions == served_instructions(intent, assistant)
        },
{
}

/// Each intent's message is asked for in its own words.
pub proof fn law_each_message_is_asked_for_in_its_words(intent: Seq<char>, assistant: Seq<char>)
    ensures
        intent == "notify"@ ==> served(intent, assistant).0 == crate::judge_text::SERVED_NOTIFY@
            && served(intent, assistant).1 == crate::judge_text::SERVED_NOTIFY_EXAMPLE@,
        intent == "krunner"@ ==> served(intent, assistant).0 == crate::judge_text::SERVED_KRUNNER@
            && served(intent, assistant).1 == crate::judge_text::SERVED_KRUNNER_EXAMPLE@,
        intent == "key"@ ==> served(intent, assistant).0 == crate::judge_text::SERVED_KEY@
            && served(intent, assistant).1 == crate::judge_text::SERVED_KEY_EXAMPLE@,
        intent == "claude_tell"@ ==> served(intent, assistant).0
            == crate::judge_text::served_claude(assistant) && served(intent, assistant).1
            == crate::judge_text::served_claude_example(assistant),
{
    reveal_strlit("notify");
    reveal_strlit("krunner");
    reveal_strlit("key");
    reveal_strlit("claude_tell");
    assert("notify"@.len() == 6 && "krunner"@.len() == 7 && "key"@.len() == 3
        && "claude_tell"@.len() == 11);
}

/// An answer was offered exactly when its question was asked as a choice with
/// that option.
pub proof fn law_only_options_were_offered(questions: QuestionsView, id: Seq<char>, key: Seq<char>)
    ensures
        crate::oracle::find(questions, id) is None ==> !was_offered(questions, id, key),
        crate::oracle::find(questions, id) matches Some(q) ==> (!(q is Choice) ==> !was_offered(
            questions,
            id,
            key,
        )),
        crate::oracle::find(questions, id) matches Some(q) ==> (q is Choice ==> (was_offered(
            questions,
            id,
            key,
        ) <==> exists|i: int|
            0 <= i < q->Choice_criteria.len() && (#[trigger] q->Choice_criteria[i]).0 == key)),
{
}

} // verus!
