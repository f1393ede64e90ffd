//! A corpus of labelled utterances: which cases are well-formed, and whether
//! what the judge made of one is what the case asks for.
use vstd::prelude::*;

use crate::desktop::Window;
use crate::double::Double;
use crate::intent::{intent_name, Intent, IntentView};
use crate::policy::{Decision, DecisionView, Policy, Signals};
use crate::text::{concat2, concat3, contains, decimal_text, join_from, quoted, same, split_words};
use crate::text::{strip_prefix, trim};
use crate::verdict::{Detailed, Verdict, VerdictView};

verus! {

/// Expected-value spellings that are not intent names.
pub const DICTATION: &'static str = "dictation";

pub const UNCLEAR: &'static str = "unclear";

/// A target that means "the window with focus, no name given".
pub const FOCUSED: &'static str = "focused";

/// One utterance and what the judge ought to make of it.
#[derive(Clone, Debug)]
pub struct Case {
    pub say: String,
    /// An intent name as the judge uses them, or `dictation`, or `unclear`.
    pub expect: String,
    /// Other names that are also acceptable.
    pub accept: Vec<String>,
    /// Part of the window title, application name or desktop id that must be
    /// resolved; `focused` for the focused window.
    pub target: Option<String>,
    pub desktop: Option<u32>,
    /// `next` or `previous`.
    pub direction: Option<String>,
    /// The text a `claude_tell`, `notify`, `krunner` or `key` must carry.
    pub payload: Option<String>,
    /// The model a `start_claude` or `claude_model` must name.
    pub model: Option<String>,
    /// Judge as if text was dictated a moment ago.
    pub last_dictation: bool,
    /// Whether the model ought to flag this as destructive.
    pub destructive: Option<bool>,
}

/// Whether a case with this expectation expects something to be done.
pub open spec fn wants_action(expect: Seq<char>) -> bool {
    expect != DICTATION@ && expect != UNCLEAR@
}

/// Whether the case expects something to be done.
pub fn expects_action(case: &Case) -> (r: bool)
    ensures
        r == wants_action(case.expect@),
{
    !same(case.expect.as_str(), DICTATION) && !same(case.expect.as_str(), UNCLEAR)
}

/// The intents a case may expect.
pub open spec fn judged_intents() -> Seq<Seq<char>> {
    seq![
        "show_app"@,
        "close_window"@,
        "minimize_window"@,
        "maximize_window"@,
        "virtual_desktop"@,
        "virtual_desktop_rel"@,
        "open_terminal"@,
        "start_claude"@,
        "claude_model"@,
        "claude_tell"@,
        "claude_read"@,
        "krunner"@,
        "notify"@,
        "key"@,
        "edit_text"@,
    ]
}

/// Whether a name is an expectation.
pub open spec fn known(name: Seq<char>) -> bool {
    judged_intents().contains(name) || name == DICTATION@ || name == UNCLEAR@
}

fn is_known(name: &str) -> (r: bool)
    ensures
        r == known(name@),
{
    if same(name, DICTATION) || same(name, UNCLEAR) {
        return true;
    }
    let list = vec![
        "show_app",
        "close_window",
        "minimize_window",
        "maximize_window",
        "virtual_desktop",
        "virtual_desktop_rel",
        "open_terminal",
        "start_claude",
        "claude_model",
        "claude_tell",
        "claude_read",
        "krunner",
        "notify",
        "key",
        "edit_text",
    ];
    assert(crate::text::strs(list@) =~= judged_intents());
    let mut i: usize = 0;
    while i < list.len()
        invariant
            i <= list@.len(),
            crate::text::strs(list@) == judged_intents(),
            forall|k: int| 0 <= k < i ==> #[trigger] judged_intents()[k] != name@,
            name@ != DICTATION@,
            name@ != UNCLEAR@,
        decreases list@.len() - i,
    {
        assert(judged_intents()[i as int] == list@[i as int]@);
        if same(name, list[i]) {
            return true;
        }
        i = i + 1;
    }
    false
}

/// What is wrong with a case.
#[derive(Clone, Debug, PartialEq, Eq)]
pub enum CaseError {
    EmptySay,
    UnknownExpectation { name: String },
    BadDirection,
    /// An edit needs something to edit.
    NothingToEdit,
}

/// A [`CaseError`] as sequences.
pub ghost enum CaseErrorView {
    EmptySay,
    UnknownExpectation { name: Seq<char> },
    BadDirection,
    NothingToEdit,
}

impl View for CaseError {
    type V = CaseErrorView;

    open spec fn view(&self) -> CaseErrorView {
        match *self {
            CaseError::EmptySay => CaseErrorView::EmptySay,
            CaseError::UnknownExpectation { name } => CaseErrorView::UnknownExpectation {
                name: name@,
            },
            CaseError::BadDirection => CaseErrorView::BadDirection,
            CaseError::NothingToEdit => CaseErrorView::NothingToEdit,
        }
    }
}

impl CaseErrorView {
    /// What is said of the case that says `say`.
    pub open spec fn says(self, say: Seq<char>) -> Seq<char> {
        let case = "case "@ + crate::text::debug_text(say);
        match self {
            CaseErrorView::EmptySay => "a case has an empty `say`"@,
            CaseErrorView::UnknownExpectation { name } => case + ": unknown expectation "@
                + crate::text::debug_text(name),
            CaseErrorView::BadDirection => case + ": direction must be next or previous"@,
            CaseErrorView::NothingToEdit => case + ": edit_text needs last_dictation = true"@,
        }
    }
}

impl CaseError {
    /// What is said of the case that says `say`.
    pub fn text(&self, say: &str) -> (r: String)
        ensures
            r@ == self@.says(say@),
    {
        let q = quoted(say);
        match self {
            CaseError::EmptySay => "a case has an empty `say`".to_string(),
            CaseError::UnknownExpectation { name } => {
                let n = quoted(name.as_str());
                let mut out = concat3("case ", q.as_str(), ": unknown expectation ");
                out.append(n.as_str());
                out
            },
            CaseError::BadDirection => concat3(
                "case ",
                q.as_str(),
                ": direction must be next or previous",
            ),
            CaseError::NothingToEdit => concat3(
                "case ",
                q.as_str(),
                ": edit_text needs last_dictation = true",
            ),
        }
    }
}

/// The first of `names` that is no expectation.
pub open spec fn first_unknown(names: Seq<Seq<char>>) -> Option<Seq<char>>
    decreases names.len(),
{
    if names.len() == 0 {
        None
    } else if !known(names[0]) {
        Some(names[0])
    } else {
        first_unknown(names.drop_first())
    }
}

/// The first thing wrong with a case.
pub open spec fn case_problem(c: Case) -> Option<CaseErrorView> {
    let unknown = first_unknown(seq![c.expect@] + crate::text::texts(c.accept@));
    if crate::text::trimmed(c.say@).len() == 0 {
        Some(CaseErrorView::EmptySay)
    } else if unknown is Some {
        Some(CaseErrorView::UnknownExpectation { name: unknown->0 })
    } else if c.direction is Some && c.direction->0@ != "next"@ && c.direction->0@
        != "previous"@ {
        Some(CaseErrorView::BadDirection)
    } else if c.expect@ == "edit_text"@ && !c.last_dictation {
        Some(CaseErrorView::NothingToEdit)
    } else {
        None
    }
}

/// Whether a case is well-formed.
pub fn check_case(c: &Case) -> (r: Result<(), CaseError>)
    ensures
        match r {
            Ok(_) => case_problem(*c) is None,
            Err(e) => case_problem(*c) == Some(e@),
        },
{
    let said = trim(c.say.as_str());
    if said.as_str().is_empty() {
        return Err(CaseError::EmptySay);
    }
    let ghost names = seq![c.expect@] + crate::text::texts(c.accept@);
    assert(names.drop_first() =~= crate::text::texts(c.accept@));
    if !is_known(c.expect.as_str()) {
        return Err(CaseError::UnknownExpectation { name: c.expect.clone() });
    }
    if let Some(name) = unknown_of(&c.accept) {
        return Err(CaseError::UnknownExpectation { name });
    }
    if let Some(d) = &c.direction {
        if !same(d.as_str(), "next") && !same(d.as_str(), "previous") {
            return Err(CaseError::BadDirection);
        }
    }
    if same(c.expect.as_str(), "edit_text") && !c.last_dictation {
        return Err(CaseError::NothingToEdit);
    }
    Ok(())
}

fn unknown_of(names: &Vec<String>) -> (r: Option<String>)
    ensures
        crate::intent::opt_text(r) == first_unknown(crate::text::texts(names@)),
{
    let ghost all = crate::text::texts(names@);
    let mut i: usize = 0;
    assert(all.skip(0) =~= all);
    while i < names.len()
        invariant
            i <= names@.len(),
            all == crate::text::texts(names@),
            first_unknown(all) == first_unknown(all.skip(i as int)),
        decreases names@.len() - i,
    {
        assert(all.skip(i as int)[0] == names@[i as int]@);
        assert(all.skip(i as int).drop_first() =~= all.skip(i + 1));
        if !is_known(names[i].as_str()) {
            return Some(names[i].clone());
        }
        i = i + 1;
    }
    None
}

/// The judge's name for an intent: launch and focus are both `show_app` to
/// the judge.
pub open spec fn judged(intent: IntentView) -> Seq<char> {
    if intent is LaunchApp || intent is FocusWindow {
        "show_app"@
    } else {
        intent.name()
    }
}

/// The judge's name for a built intent.
pub fn judged_name(intent: &Intent) -> (r: &'static str)
    ensures
        r@ == judged(intent@),
{
    match intent {
        Intent::LaunchApp { .. } | Intent::FocusWindow { .. } => "show_app",
        other => intent_name(other),
    }
}

/// A text with single spaces, before it is put in lower case.
pub open spec fn spaced(s: Seq<char>) -> Seq<char> {
    crate::text::join(crate::text::words(s), " "@)
}

/// A text with single spaces and in lower case.
pub open spec fn normed(s: Seq<char>) -> Seq<char> {
    crate::text::lowered(spaced(s))
}

/// A text with single spaces and in lower case.
pub fn norm(s: &str) -> (r: String)
    ensures
        r@ == normed(s@),
{
    let words = split_words(s);
    assert(crate::text::texts(words@).skip(0) =~= crate::text::texts(words@));
    let joined = join_from(&words, 0, " ");
    crate::text::lower(joined.as_str())
}

/// Whether a payload in normal form is the one wanted, a wrapper word in
/// front allowed: "to fix the test" for "fix the test".
pub open spec fn same_message(got: Seq<char>, want: Seq<char>) -> bool {
    ||| got == want
    ||| crate::text::after_prefix(got, "to "@) == Some(want)
    ||| crate::text::after_prefix(got, "that "@) == Some(want)
    ||| crate::text::after_prefix(got, "the "@) == Some(want)
}

/// Whether two payloads in normal form are the same message.
pub fn normed_payload_matches(got: &str, want: &str) -> (r: bool)
    ensures
        r == same_message(got@, want@),
{
    same(got, want) || follows(got, "to ", want) || follows(got, "that ", want) || follows(
        got,
        "the ",
        want,
    )
}

fn follows(s: &str, prefix: &str, rest: &str) -> (r: bool)
    ensures
        r == (crate::text::after_prefix(s@, prefix@) == Some(rest@)),
{
    match strip_prefix(s, prefix) {
        Some(t) => same(t.as_str(), rest),
        None => false,
    }
}

/// The payload as spoken may keep a wrapper word the case leaves out; either
/// is the same message.
pub fn payload_matches(got: &str, want: &str) -> (r: bool)
    ensures
        r == same_message(normed(got@), normed(want@)),
{
    let a = norm(got);
    let b = norm(want);
    normed_payload_matches(a.as_str(), b.as_str())
}

/// What an intent says about its target: None when it has none, and then the
/// query, None for the focused window.
pub open spec fn target_query(intent: IntentView) -> Option<Option<Seq<char>>> {
    match intent {
        IntentView::LaunchApp { query } => Some(Some(query)),
        IntentView::FocusWindow { query } => Some(Some(query)),
        IntentView::CloseWindow { query } => Some(query),
        IntentView::MinimizeWindow { query } => Some(query),
        IntentView::MaximizeWindow { query } => Some(query),
        _ => None,
    }
}

/// The argument of an intent, for the report.
pub open spec fn intent_detail(intent: IntentView) -> Seq<char> {
    match target_query(intent) {
        Some(Some(q)) => crate::text::debug_text(q),
        Some(None) => "focused window"@,
        None => match intent {
            IntentView::VirtualDesktop { n } => "desktop "@ + crate::text::decimal(n as nat),
            IntentView::VirtualDesktopRel { delta } => if delta > 0 {
                "next"@
            } else {
                "previous"@
            },
            IntentView::StartClaude { model } => match model {
                Some(m) => m,
                None => "default model"@,
            },
            IntentView::ClaudeModel { model } => model,
            IntentView::ClaudeTell { text } => crate::text::debug_text(text),
            IntentView::Notify { text } => crate::text::debug_text(text),
            IntentView::KRunner { query } => crate::text::debug_text(query),
            IntentView::Key { chord } => crate::text::debug_text(chord),
            IntentView::EditText { instruction } => crate::text::debug_text(instruction),
            _ => ""@,
        },
    }
}

/// Whether the target wanted, in normal form, is the one an intent names by
/// query or id; each text is compared in its normal form.
pub open spec fn target_fits(
    query: Option<Seq<char>>,
    window_id: Option<Seq<char>>,
    entry_id: Option<Seq<char>>,
    want: Seq<char>,
) -> bool {
    match query {
        None => want == FOCUSED@,
        Some(q) => want != FOCUSED@ && (crate::text::occurs(normed(q), want) || (window_id is Some
            && normed(window_id->0) == want) || (entry_id is Some && crate::text::occurs(
            normed(entry_id->0),
            want,
        ))),
    }
}

/// Whether the target of the case is the one an intent names; None when the
/// case names none.
pub open spec fn target_verdict(
    target: Option<Seq<char>>,
    intent: IntentView,
    window_id: Option<Seq<char>>,
    entry_id: Option<Seq<char>>,
) -> Option<bool> {
    match target {
        None => None,
        Some(want) => Some(
            match target_query(intent) {
                None => false,
                Some(query) => target_fits(
                    query,
                    window_id,
                    entry_id,
                    normed(want),
                ),
            },
        ),
    }
}

fn detail_of(intent: &Intent) -> (r: String)
    ensures
        r@ == intent_detail(intent@),
{
    match intent {
        Intent::LaunchApp { query } => quoted(query.as_str()),
        Intent::FocusWindow { query } => quoted(query.as_str()),
        Intent::CloseWindow { query }
        | Intent::MinimizeWindow { query }
        | Intent::MaximizeWindow { query } => match query {
            Some(q) => quoted(q.as_str()),
            None => "focused window".to_string(),
        },
        Intent::VirtualDesktop { n } => {
            let d = decimal_text(*n as u64);
            concat2("desktop ", d.as_str())
        },
        Intent::VirtualDesktopRel { delta } => {
            if *delta > 0 {
                "next".to_string()
            } else {
                "previous".to_string()
            }
        },
        Intent::StartClaude { model } => match model {
            Some(m) => m.clone(),
            None => "default model".to_string(),
        },
        Intent::ClaudeModel { model } => model.clone(),
        Intent::ClaudeTell { text } => quoted(text.as_str()),
        Intent::Notify { text } => quoted(text.as_str()),
        Intent::KRunner { query } => quoted(query.as_str()),
        Intent::Key { chord } => quoted(chord.as_str()),
        Intent::EditText { instruction } => quoted(instruction.as_str()),
        _ => "".to_string(),
    }
}

fn query_of(intent: &Intent) -> (r: Option<Option<&str>>)
    ensures
        match r {
            Some(q) => target_query(intent@) == Some(crate::config::opt_str(q)),
            None => target_query(intent@) is None,
        },
{
    match intent {
        Intent::LaunchApp { query } => Some(Some(query.as_str())),
        Intent::FocusWindow { query } => Some(Some(query.as_str())),
        Intent::CloseWindow { query }
        | Intent::MinimizeWindow { query }
        | Intent::MaximizeWindow { query } => match query {
            Some(q) => Some(Some(q.as_str())),
            None => Some(None),
        },
        _ => None,
    }
}

/// The built intent's target, described, and whether it is the one the case
/// names.
pub fn check_target(
    case: &Case,
    intent: &Intent,
    window_id: Option<&str>,
    entry_id: Option<&str>,
) -> (r: (String, Option<bool>))
    ensures
        r.0@ == intent_detail(intent@),
        r.1 == target_verdict(
            crate::intent::opt_text(case.target),
            intent@,
            crate::config::opt_str(window_id),
            crate::config::opt_str(entry_id),
        ),
{
    let detail = detail_of(intent);
    let want = match &case.target {
        None => {
            return (detail, None);
        },
        Some(want) => norm(want.as_str()),
    };
    let ok = match query_of(intent) {
        None => false,
        Some(None) => same(want.as_str(), FOCUSED),
        Some(Some(q)) => {
            if same(want.as_str(), FOCUSED) {
                false
            } else {
                let nq = norm(q);
                let by_query = contains(nq.as_str(), want.as_str());
                let by_window = match window_id {
                    Some(id) => {
                        let n = norm(id);
                        same(n.as_str(), want.as_str())
                    },
                    None => false,
                };
                let by_entry = match entry_id {
                    Some(id) => {
                        let n = norm(id);
                        contains(n.as_str(), want.as_str())
                    },
                    None => false,
                };
                by_query || by_window || by_entry
            }
        },
    };
    (detail, Some(ok))
}

/// Whether an intent carries the arguments the case names for it.
pub open spec fn arguments_fit(case: Case, intent: IntentView) -> bool {
    match intent {
        IntentView::VirtualDesktop { n } => case.desktop is None || case.desktop == Some(n),
        IntentView::VirtualDesktopRel { delta } => case.direction is None || delta == (
        if case.direction->0@ == "next"@ {
            1int
        } else {
            -1
        }),
        IntentView::ClaudeTell { text } => case.payload is None || same_message(
            normed(text),
            normed(case.payload->0@),
        ),
        IntentView::Notify { text } => case.payload is None || same_message(
            normed(text),
            normed(case.payload->0@),
        ),
        IntentView::KRunner { query } => case.payload is None || same_message(
            normed(query),
            normed(case.payload->0@),
        ),
        IntentView::Key { chord } => case.payload is None || same_message(
            normed(chord),
            normed(case.payload->0@),
        ),
        IntentView::StartClaude { model } => case.model is None || (model is Some && normed(
            model->0,
        ) == normed(case.model->0@)),
        IntentView::ClaudeModel { model } => case.model is None || normed(model) == normed(
            case.model->0@,
        ),
        _ => true,
    }
}

fn payload_fits(case: &Case, text: &str) -> (r: bool)
    ensures
        r == (case.payload is None || same_message(normed(text@), normed(case.payload->0@))),
{
    match &case.payload {
        Some(p) => payload_matches(text, p.as_str()),
        None => true,
    }
}

fn model_fits(case: &Case, model: &str) -> (r: bool)
    ensures
        r == (case.model is None || normed(model@) == normed(case.model->0@)),
{
    match &case.model {
        Some(m) => {
            let a = norm(model);
            let b = norm(m.as_str());
            same(a.as_str(), b.as_str())
        },
        None => true,
    }
}

/// The arguments the case names, against the built intent. Each is checked on
/// the intent it belongs to.
pub fn check_args(case: &Case, intent: &Intent) -> (r: bool)
    ensures
        r == arguments_fit(*case, intent@),
{
    match intent {
        Intent::VirtualDesktop { n } => match case.desktop {
            Some(want) => *n == want,
            None => true,
        },
        Intent::VirtualDesktopRel { delta } => match &case.direction {
            Some(d) => if same(d.as_str(), "next") {
                *delta == 1
            } else {
                *delta == -1
            },
            None => true,
        },
        Intent::ClaudeTell { text } => payload_fits(case, text.as_str()),
        Intent::Notify { text } => payload_fits(case, text.as_str()),
        Intent::KRunner { query } => payload_fits(case, query.as_str()),
        Intent::Key { chord } => payload_fits(case, chord.as_str()),
        Intent::StartClaude { model } => match model {
            Some(m) => model_fits(case, m.as_str()),
            None => case.model.is_none(),
        },
        Intent::ClaudeModel { model } => model_fits(case, model.as_str()),
        _ => true,
    }
}

/// What one judged case came to.
#[derive(Debug)]
pub struct Outcome<'a> {
    pub case: &'a Case,
    /// The judge's name for the intent built, or `unclear`.
    pub got: String,
    /// The built intent's argument, for the report.
    pub detail: String,
    /// Intent, or refusal, as expected.
    pub intent_ok: bool,
    /// Every argument the case names as expected.
    pub args_ok: bool,
    /// Whether a target was named and resolved as expected.
    pub target_ok: Option<bool>,
    pub confidence: Option<Double>,
    pub dictation: Option<Double>,
    pub destructive: Option<Double>,
    /// The resolved intent and its signals, when a verdict was built.
    pub act: Option<(Intent, Signals)>,
}

/// What the measures read of an [`Outcome`].
pub ghost struct OutcomeView {
    pub expect: Seq<char>,
    pub names_target: bool,
    pub marked: Option<bool>,
    pub intent_ok: bool,
    pub args_ok: bool,
    pub target_ok: Option<bool>,
    pub confidence: Option<Double>,
    pub dictation: Option<Double>,
    pub destructive: Option<Double>,
    pub act: Option<(IntentView, Signals)>,
}

impl<'a> View for Outcome<'a> {
    type V = OutcomeView;

    open spec fn view(&self) -> OutcomeView {
        OutcomeView {
            expect: self.case.expect@,
            names_target: self.case.target is Some,
            marked: self.case.destructive,
            intent_ok: self.intent_ok,
            args_ok: self.args_ok,
            target_ok: self.target_ok,
            confidence: self.confidence,
            dictation: self.dictation,
            destructive: self.destructive,
            act: match self.act {
                Some((intent, signals)) => Some((intent@, signals)),
                None => None,
            },
        }
    }
}

/// What kind of thing is decided.
#[derive(Clone, Copy, Debug, PartialEq, Eq, Structural)]
pub enum Course {
    Act,
    Ask,
    Refuse,
}

/// The kind of a decision.
pub open spec fn course_of(d: DecisionView) -> Course {
    match d {
        DecisionView::Act => Course::Act,
        DecisionView::Confirm { .. } => Course::Ask,
        DecisionView::Refuse { .. } => Course::Refuse,
    }
}

/// The kind of a decision.
pub fn course(d: &Decision) -> (r: Course)
    ensures
        r == course_of(d@),
{
    match d {
        Decision::Act => Course::Act,
        Decision::Confirm { .. } => Course::Ask,
        Decision::Refuse { .. } => Course::Refuse,
    }
}

impl OutcomeView {
    /// Right in every respect the case specifies.
    pub open spec fn right(self) -> bool {
        self.intent_ok && self.args_ok && self.target_ok != Some(false)
    }

    /// What the daemon would do with the case under `policy`.
    pub open spec fn decision(self, policy: Policy) -> DecisionView {
        if policy.prose(self.dictation) {
            DecisionView::Refuse { reason: "dictation"@ }
        } else {
            match self.act {
                Some((intent, signals)) => policy.decision(intent, signals),
                None => DecisionView::Refuse { reason: "unclear"@ },
            }
        }
    }
}

impl<'a> Outcome<'a> {
    /// Right in every respect the case specifies.
    pub fn right(&self) -> (r: bool)
        ensures
            r == self@.right(),
    {
        self.intent_ok && self.args_ok && match self.target_ok {
            Some(ok) => ok,
            None => true,
        }
    }

    /// Whether the case expects something to be done.
    pub fn expects_action(&self) -> (r: bool)
        ensures
            r == wants_action(self@.expect),
    {
        expects_action(self.case)
    }

    /// What the daemon would do with this case under `policy`.
    pub fn decide(&self, policy: &Policy) -> (r: Decision)
        ensures
            r@ == self@.decision(*policy),
    {
        if policy.is_prose(self.dictation) {
            return Decision::Refuse { reason: "dictation".to_string() };
        }
        match &self.act {
            Some((intent, signals)) => policy.decide(intent, signals),
            None => Decision::Refuse { reason: "unclear".to_string() },
        }
    }
}

/// One word for a decision: a refusal with the first word of its reason.
pub open spec fn word_for(d: DecisionView) -> Seq<char> {
    match d {
        DecisionView::Act => "act"@,
        DecisionView::Confirm { .. } => "ask"@,
        DecisionView::Refuse { reason } => "refuse("@ + crate::text::pieces(reason, ' ')[0]
            + ")"@,
    }
}

/// One word for a decision.
pub fn decision_word(d: &Decision) -> (r: String)
    ensures
        r@ == word_for(d@),
{
    match d {
        Decision::Act => "act".to_string(),
        Decision::Confirm { .. } => "ask".to_string(),
        Decision::Refuse { reason } => {
            let parts = crate::text::split_on(reason.as_str(), ' ');
            proof {
                crate::text::lemma_pieces_some(reason@, ' ');
                assert(crate::text::texts(parts@)[0] == parts@[0]@);
            }
            concat3("refuse(", parts[0].as_str(), ")")
        },
    }
}

/// Whether the case takes the intent `name`.
pub open spec fn takes(case: Case, name: Seq<char>) -> bool {
    case.expect@ == name || crate::text::texts(case.accept@).contains(name)
}

fn accepts(case: &Case, name: &str) -> (r: bool)
    ensures
        r == takes(*case, name@),
{
    if same(case.expect.as_str(), name) {
        return true;
    }
    let ghost all = crate::text::texts(case.accept@);
    let mut i: usize = 0;
    while i < case.accept.len()
        invariant
            i <= case.accept@.len(),
            all == crate::text::texts(case.accept@),
            case.expect@ != name@,
            forall|k: int| 0 <= k < i ==> #[trigger] all[k] != name@,
        decreases case.accept@.len() - i,
    {
        assert(all[i as int] == case.accept@[i as int]@);
        if same(case.accept[i].as_str(), name) {
            return true;
        }
        i = i + 1;
    }
    false
}

/// Judge the verdict against the case. A case that expects a refusal is right
/// when the daemon would refuse it: the dictation weight clears the current
/// threshold, or no intent could be built.
pub fn assess<'a>(case: &'a Case, d: Detailed, policy: &Policy) -> (r: Outcome<'a>)
    requires
        !(d.verdict is Dictation),
    ensures
        r.case == case,
        r.dictation == d.dictation,
        r.destructive == d.destructive,
        match d.verdict@ {
            VerdictView::Act(v) => {
                let ok = if wants_action(case.expect@) {
                    takes(*case, judged(v.built.intent))
                } else {
                    policy.prose(d.dictation)
                };
                &&& r.got@ == judged(v.built.intent)
                &&& r.detail@ == intent_detail(v.built.intent)
                &&& r.intent_ok == ok
                &&& r.args_ok == (ok && arguments_fit(*case, v.built.intent))
                &&& r.target_ok == if ok {
                    target_verdict(
                        crate::intent::opt_text(case.target),
                        v.built.intent,
                        v.built.window_id,
                        v.built.entry_id,
                    )
                } else if case.target is Some {
                    Some(false)
                } else {
                    None
                }
                &&& r.confidence == Some(v.built.confidence)
                &&& r@.act == Some((v.built.intent, v.signals))
            },
            VerdictView::Unclear(reason) => {
                &&& r.got@ == UNCLEAR@
                &&& r.detail@ == (match d.intent {
                    Some((key, p)) => key@ + " "@ + p.two_decimals(),
                    None => "no intent"@,
                }) + ": "@ + reason
                &&& r.intent_ok == !wants_action(case.expect@)
                &&& r.args_ok
                &&& r.target_ok is None
                &&& r.confidence is None
                &&& r.act is None
            },
            VerdictView::Dictation => true,
        },
{
    let prose = policy.is_prose(d.dictation);
    match d.verdict {
        Verdict::Act(v) => {
            let name = judged_name(&v.intent);
            let intent_ok = if expects_action(case) {
                accepts(case, name)
            } else {
                prose
            };
            let window_id = match &v.window_id {
                Some(id) => Some(id.as_str()),
                None => None,
            };
            let entry_id = match &v.entry_id {
                Some(id) => Some(id.as_str()),
                None => None,
            };
            let (detail, resolved) = check_target(case, &v.intent, window_id, entry_id);
            let args_ok = intent_ok && check_args(case, &v.intent);
            let target_ok = if intent_ok {
                resolved
            } else if case.target.is_some() {
                Some(false)
            } else {
                None
            };
            Outcome {
                case,
                got: name.to_string(),
                detail,
                intent_ok,
                args_ok,
                target_ok,
                confidence: Some(v.confidence),
                dictation: d.dictation,
                destructive: d.destructive,
                act: Some((v.intent, v.signals)),
            }
        },
        Verdict::Dictation => vstd::pervasive::unreached(),
        Verdict::Unclear(reason) => {
            let ranked = match &d.intent {
                Some((key, p)) => {
                    let shown = p.shown();
                    concat3(key.as_str(), " ", shown.as_str())
                },
                None => "no intent".to_string(),
            };
            Outcome {
                case,
                got: UNCLEAR.to_string(),
                detail: concat3(ranked.as_str(), ": ", reason.as_str()),
                intent_ok: !expects_action(case),
                args_ok: true,
                target_ok: None,
                confidence: None,
                dictation: d.dictation,
                destructive: d.destructive,
                act: None,
            }
        },
    }
}

/// A window of the synthetic desktop.
#[derive(Clone, Debug)]
pub struct Win {
    pub id: String,
    pub title: String,
    pub class: String,
    pub desktop: i32,
}

/// The synthetic desktop every case is judged against.
#[derive(Debug)]
pub struct Desktop {
    pub desktop_count: u32,
    pub current_desktop: u32,
    pub claude_running: bool,
    pub windows: Vec<Win>,
}

/// What is wrong with a corpus.
#[derive(Clone, Debug, PartialEq, Eq)]
pub enum CorpusError {
    NoCases,
    BadDesktop,
    /// The first case with something wrong with it, by its number.
    BadCase { number: usize, error: CaseError },
}

/// A [`CorpusError`] as sequences.
pub ghost enum CorpusErrorView {
    NoCases,
    BadDesktop,
    BadCase { number: int, error: CaseErrorView },
}

impl View for CorpusError {
    type V = CorpusErrorView;

    open spec fn view(&self) -> CorpusErrorView {
        match self {
            CorpusError::NoCases => CorpusErrorView::NoCases,
            CorpusError::BadDesktop => CorpusErrorView::BadDesktop,
            CorpusError::BadCase { number, error } => CorpusErrorView::BadCase {
                number: *number as int,
                error: error@,
            },
        }
    }
}

impl CorpusError {
    /// Whether the case it names, if any, is one of `cases`.
    pub open spec fn is_about(self, cases: Seq<Case>) -> bool {
        self matches CorpusError::BadCase { number, .. } ==> number < cases.len()
    }

    /// What is said of the corpus whose cases are `cases`.
    pub open spec fn says(self, cases: Seq<Case>) -> Seq<char> {
        match self {
            CorpusError::NoCases => "the corpus has no cases"@,
            CorpusError::BadDesktop => {
                "state.current_desktop must be within 1..=state.desktop_count"@
            },
            CorpusError::BadCase { number, error } => error@.says(cases[number as int].say@),
        }
    }

    /// What is said of the corpus whose cases are `cases`.
    pub fn text(&self, cases: &Vec<Case>) -> (r: String)
        requires
            self.is_about(cases@),
        ensures
            r@ == self.says(cases@),
    {
        match self {
            CorpusError::NoCases => "the corpus has no cases".to_string(),
            CorpusError::BadDesktop => {
                "state.current_desktop must be within 1..=state.desktop_count".to_string()
            },
            CorpusError::BadCase { number, error } => error.text(cases[*number].say.as_str()),
        }
    }
}

/// The first of the cases from number `from` on with something wrong with it.
pub open spec fn first_bad(cases: Seq<Case>, from: int) -> Option<CorpusErrorView>
    decreases cases.len() - from,
{
    if from < 0 || from >= cases.len() {
        None
    } else {
        match case_problem(cases[from]) {
            Some(error) => Some(CorpusErrorView::BadCase { number: from, error }),
            None => first_bad(cases, from + 1),
        }
    }
}

/// What is wrong with a corpus: it holds no cases, its desktop is impossible,
/// or a case of it is wrong.
pub open spec fn corpus_problem(desktop: Desktop, cases: Seq<Case>) -> Option<CorpusErrorView> {
    if cases.len() == 0 {
        Some(CorpusErrorView::NoCases)
    } else if !(1 <= desktop.current_desktop <= desktop.desktop_count) {
        Some(CorpusErrorView::BadDesktop)
    } else {
        first_bad(cases, 0)
    }
}

/// Whether a corpus can be run.
pub fn check_corpus(desktop: &Desktop, cases: &Vec<Case>) -> (r: Result<(), CorpusError>)
    ensures
        match r {
            Ok(_) => corpus_problem(*desktop, cases@) is None,
            Err(e) => corpus_problem(*desktop, cases@) == Some(e@) && e.is_about(cases@),
        },
{
    if cases.len() == 0 {
        return Err(CorpusError::NoCases);
    }
    if desktop.current_desktop < 1 || desktop.current_desktop > desktop.desktop_count {
        return Err(CorpusError::BadDesktop);
    }
    let mut i: usize = 0;
    while i < cases.len()
        invariant
            i <= cases@.len(),
            corpus_problem(*desktop, cases@) == first_bad(cases@, i as int),
        decreases cases@.len() - i,
    {
        match check_case(&cases[i]) {
            Ok(()) => {},
            Err(error) => {
                return Err(CorpusError::BadCase { number: i, error });
            },
        }
        i = i + 1;
    }
    Ok(())
}

/// The windows of the synthetic desktop as the compositor would report them,
/// each above the one before it.
pub fn windows_of(wins: &Vec<Win>) -> (r: Vec<Window>)
    requires
        wins@.len() <= i32::MAX,
    ensures
        r@.len() == wins@.len(),
        forall|i: int|
            0 <= i < wins@.len() ==> ({
                let w = #[trigger] r@[i];
                &&& w.id@ == wins@[i].id@
                &&& w.title@ == wins@[i].title@
                &&& w.class@ == wins@[i].class@
                &&& w.resource_name@ == wins@[i].class@
                &&& w.desktop == wins@[i].desktop
                &&& !w.active
                &&& !w.minimized
                &&& w.stacking == i
                &&& w.pid == 0
                &&& w.normal
            }),
{
    let mut out: Vec<Window> = Vec::new();
    let mut i: usize = 0;
    while i < wins.len()
        invariant
            i <= wins@.len() <= i32::MAX,
            out@.len() == i,
            forall|k: int|
                0 <= k < i ==> ({
                    let w = #[trigger] out@[k];
                    &&& w.id@ == wins@[k].id@
                    &&& w.title@ == wins@[k].title@
                    &&& w.class@ == wins@[k].class@
                    &&& w.resource_name@ == wins@[k].class@
                    &&& w.desktop == wins@[k].desktop
                    &&& !w.active
                    &&& !w.minimized
                    &&& w.stacking == k
                    &&& w.pid == 0
                    &&& w.normal
                }),
        decreases wins@.len() - i,
    {
        let w = &wins[i];
        out.push(
            Window {
                id: w.id.clone(),
                title: w.title.clone(),
                class: w.class.clone(),
                resource_name: w.class.clone(),
                desktop: w.desktop,
                active: false,
                minimized: false,
                stacking: i as i32,
                pid: 0,
                normal: true,
            },
        );
        i = i + 1;
    }
    out
}

/// `n` spaces.
pub open spec fn spaces(n: nat) -> Seq<char> {
    Seq::new(n, |i: int| ' ')
}

/// A text filled up with spaces to a width.
pub open spec fn padded(s: Seq<char>, width: nat) -> Seq<char> {
    if s.len() < width {
        s + spaces((width - s.len()) as nat)
    } else {
        s
    }
}

pub(crate) fn pad(s: &str, width: usize) -> (r: String)
    ensures
        r@ == padded(s@, width as nat),
{
    let mut out = s.to_string();
    let n: usize = crate::text::to_chars(s).len();
    let mut k: usize = n;
    while k < width
        invariant
            n == s@.len(),
            n <= k,
            n < width ==> k <= width,
            n >= width ==> k == n,
            out@ =~= s@ + spaces((k - n) as nat),
        decreases width - k,
    {
        out.push(' ');
        k = k + 1;
    }
    assert(out@ =~= padded(s@, width as nat));
    out
}

/// A probability with two decimals, `NaN` for none.
pub open spec fn weight_text(w: Option<Double>) -> Seq<char> {
    match w {
        Some(d) => d.two_decimals(),
        None => "NaN"@,
    }
}

fn weight(w: Option<Double>) -> (r: String)
    ensures
        r@ == weight_text(w),
{
    match w {
        Some(d) => d.shown(),
        None => "NaN".to_string(),
    }
}

/// The report line of one case.
pub open spec fn line_of(o: Outcome<'_>, policy: Policy) -> Seq<char> {
    (if o@.right() {
        "ok   "@
    } else {
        "WRONG"@
    }) + " "@ + padded(o.case.expect@, 19) + " "@ + padded(o.got@, 19) + " "@ + (
    match o.target_ok {
        Some(true) => "target ok "@,
        Some(false) => "target BAD"@,
        None => "          "@,
    }) + " conf "@ + (match o.confidence {
        Some(c) => c.two_decimals(),
        None => "  - "@,
    }) + " dict "@ + weight_text(o.dictation) + " destr "@ + weight_text(o.destructive) + " "@
        + padded(word_for(o@.decision(policy)), 20) + " "@ + crate::text::debug_text(o.case.say@)
        + "  ["@ + o.detail@ + "]"@
}

/// The report line of one case.
pub fn line<'a>(o: &Outcome<'a>, policy: &Policy) -> (r: String)
    ensures
        r@ == line_of(*o, *policy),
{
    let mut out = if o.right() {
        "ok   ".to_string()
    } else {
        "WRONG".to_string()
    };
    out.append(" ");
    let expect = pad(o.case.expect.as_str(), 19);
    out.append(expect.as_str());
    out.append(" ");
    let got = pad(o.got.as_str(), 19);
    out.append(got.as_str());
    out.append(" ");
    match o.target_ok {
        Some(true) => out.append("target ok "),
        Some(false) => out.append("target BAD"),
        None => out.append("          "),
    }
    out.append(" conf ");
    match o.confidence {
        Some(c) => {
            let shown = c.shown();
            out.append(shown.as_str());
        },
        None => out.append("  - "),
    }
    out.append(" dict ");
    let dictation = weight(o.dictation);
    out.append(dictation.as_str());
    out.append(" destr ");
    let destructive = weight(o.destructive);
    out.append(destructive.as_str());
    out.append(" ");
    let word = decision_word(&o.decide(policy));
    let column = pad(word.as_str(), 20);
    out.append(column.as_str());
    out.append(" ");
    let say = quoted(o.case.say.as_str());
    out.append(say.as_str());
    out.append("  [");
    out.append(o.detail.as_str());
    out.append("]");
    out
}

proof fn lemma_first_unknown(names: Seq<Seq<char>>)
    ensures
        match first_unknown(names) {
            Some(name) => !known(name) && exists|i: int|
                0 <= i < names.len() && #[trigger] names[i] == name && forall|j: int|
                    0 <= j < i ==> known(#[trigger] names[j]),
            None => forall|i: int| 0 <= i < names.len() ==> known(#[trigger] names[i]),
        },
    decreases names.len(),
{
    if names.len() > 0 && known(names[0]) {
        let rest = names.drop_first();
        lemma_first_unknown(rest);
        match first_unknown(rest) {
            Some(name) => {
                let i = choose|i: int|
                    0 <= i < rest.len() && #[trigger] rest[i] == name && forall|j: int|
                        0 <= j < i ==> known(#[trigger] rest[j]);
                assert(names[i + 1] == name);
                assert forall|j: int| 0 <= j < i + 1 implies known(#[trigger] names[j]) by {
                    if j > 0 {
                        assert(rest[j - 1] == names[j]);
                    }
                }
            },
            None => {
                assert forall|i: int| 0 <= i < names.len() implies known(#[trigger] names[i]) by {
                    if i > 0 {
                        assert(rest[i - 1] == names[i]);
                    }
                }
            },
        }
    }
}

/// A case is well-formed exactly when something is said in it, every name it
/// expects or accepts is known, its direction is one of the two, and an edit
/// comes after a dictation.
pub proof fn law_well_formed_cases(c: Case)
    ensures
        case_problem(c) is None <==> {
            &&& exists|i: int| 0 <= i < c.say@.len() && !crate::text::white_space(#[trigger] c.say@[i])
            &&& known(c.expect@)
            &&& forall|i: int| 0 <= i < c.accept@.len() ==> known((#[trigger] c.accept@[i])@)
            &&& c.direction is Some ==> c.direction->0@ == "next"@ || c.direction->0@
                == "previous"@
            &&& c.expect@ == "edit_text"@ ==> c.last_dictation
        },
        case_problem(c) matches Some(CaseErrorView::UnknownExpectation { name }) ==> !known(name)
            && (name == c.expect@ || exists|i: int|
            0 <= i < c.accept@.len() && (#[trigger] c.accept@[i])@ == name),
        case_problem(c) == Some(CaseErrorView::EmptySay) <==> forall|i: int|
            0 <= i < c.say@.len() ==> crate::text::white_space(#[trigger] c.say@[i]),
        case_problem(c) == Some(CaseErrorView::BadDirection) ==> c.direction is Some
            && c.direction->0@ != "next"@ && c.direction->0@ != "previous"@,
        case_problem(c) == Some(CaseErrorView::NothingToEdit) ==> c.expect@ == "edit_text"@
            && !c.last_dictation,
{
    let accept = crate::text::texts(c.accept@);
    let names = seq![c.expect@] + accept;
    lemma_first_unknown(names);
    let (a, b) = crate::text::law_trimming_takes_only_whitespace(c.say@);
    let said = crate::text::trimmed(c.say@);
    if said.len() > 0 {
        assert(c.say@[a] == said[0]);
    }
    assert forall|i: int| 0 <= i < c.accept@.len() implies names[i + 1] == (
    #[trigger] c.accept@[i])@ by {
        assert(accept[i] == c.accept@[i]@);
    }
    assert(names[0] == c.expect@);
    if first_unknown(names) is None {
        assert forall|i: int| 0 <= i < c.accept@.len() implies known((#[trigger] c.accept@[i])@) by {
            assert(known(names[i + 1]));
        }
    } else {
        let name = first_unknown(names)->0;
        let i = choose|i: int|
            0 <= i < names.len() && #[trigger] names[i] == name && forall|j: int|
                0 <= j < i ==> known(#[trigger] names[j]);
        if i > 0 {
            assert(c.accept@[i - 1]@ == name);
        }
    }
}

/// The judge's names are expectations: whatever intent the judge can build,
/// a case can expect it by the judge's name, and expects something to be done
/// then. Launching and focusing have one name.
pub proof fn law_judged_names_are_expectations(intent: IntentView)
    ensures
        !(intent is RunShortcut || intent is ScratchThat || intent is Confirm || intent is Deny)
            ==> known(judged(intent)) && wants_action(judged(intent)),
        intent is LaunchApp || intent is FocusWindow ==> judged(intent) == "show_app"@,
        !(intent is LaunchApp || intent is FocusWindow) ==> judged(intent) == intent.name(),
        known("dictation"@) && known("unclear"@),
        !wants_action("dictation"@) && !wants_action("unclear"@),
{
    let list = judged_intents();
    assert(list[0] == "show_app"@ && list[1] == "close_window"@ && list[2] == "minimize_window"@
        && list[3] == "maximize_window"@ && list[4] == "virtual_desktop"@ && list[5]
        == "virtual_desktop_rel"@ && list[6] == "open_terminal"@ && list[7] == "start_claude"@
        && list[8] == "claude_model"@ && list[9] == "claude_tell"@ && list[10] == "claude_read"@
        && list[11] == "krunner"@ && list[12] == "notify"@ && list[13] == "key"@ && list[14]
        == "edit_text"@);
    reveal_strlit("dictation");
    reveal_strlit("unclear");
    reveal_strlit("show_app");
    reveal_strlit("close_window");
    reveal_strlit("minimize_window");
    reveal_strlit("maximize_window");
    reveal_strlit("virtual_desktop");
    reveal_strlit("virtual_desktop_rel");
    reveal_strlit("open_terminal");
    reveal_strlit("start_claude");
    reveal_strlit("claude_model");
    reveal_strlit("claude_tell");
    reveal_strlit("claude_read");
    reveal_strlit("krunner");
    reveal_strlit("notify");
    reveal_strlit("key");
    reveal_strlit("edit_text");
    assert("dictation"@.len() == 9 && "dictation"@[0] == 'd');
    assert("unclear"@.len() == 7 && "unclear"@[0] == 'u');
    assert("show_app"@[0] == 's' && "close_window"@[0] == 'c' && "minimize_window"@[0] == 'm'
        && "maximize_window"@[0] == 'm' && "virtual_desktop"@[0] == 'v'
        && "virtual_desktop_rel"@[0] == 'v' && "open_terminal"@[0] == 'o' && "start_claude"@[0]
        == 's' && "claude_model"@[0] == 'c' && "claude_tell"@[0] == 'c' && "claude_read"@[0]
        == 'c' && "krunner"@[0] == 'k' && "notify"@[0] == 'n' && "key"@[0] == 'k'
        && "edit_text"@[0] == 'e');
}

/// A message is the one wanted by itself or behind one of three words, and
/// behind nothing else: what is wanted stands at its end.
pub proof fn law_a_leading_word_is_no_difference(got: Seq<char>, want: Seq<char>)
    ensures
        same_message(want, want),
        same_message("to "@ + want, want),
        same_message("that "@ + want, want),
        same_message("the "@ + want, want),
        same_message(got, want) ==> got.len() >= want.len() && got.skip(got.len() - want.len())
            == want && got.len() - want.len() <= 5,
        same_message(got, want) && got.len() > want.len() ==> got[0] == 't',
{
    crate::text::law_prefix_and_rest_make_the_text("to "@ + want, "to "@, want);
    crate::text::law_prefix_and_rest_make_the_text("that "@ + want, "that "@, want);
    crate::text::law_prefix_and_rest_make_the_text("the "@ + want, "the "@, want);
    crate::text::law_prefix_and_rest_make_the_text(got, "to "@, want);
    crate::text::law_prefix_and_rest_make_the_text(got, "that "@, want);
    crate::text::law_prefix_and_rest_make_the_text(got, "the "@, want);
    reveal_strlit("to ");
    reveal_strlit("that ");
    reveal_strlit("the ");
    if same_message(got, want) {
        assert(got.skip(got.len() - want.len()) =~= want);
        if got.len() > want.len() {
            assert(got == "to "@ + want || got == "that "@ + want || got == "the "@ + want);
            assert(("to "@ + want)[0] == 't' && ("that "@ + want)[0] == 't' && ("the "@ + want)[0]
                == 't');
        }
    }
}

/// The focused window is right exactly where it is asked for, and a named
/// target is right where the name asked for stands in it or in its
/// application, or is its window.
pub proof fn law_targets_are_found_by_name(
    query: Seq<char>,
    window_id: Option<Seq<char>>,
    entry_id: Option<Seq<char>>,
    want: Seq<char>,
)
    ensures
        target_fits(None, window_id, entry_id, want) <==> want == "focused"@,
        !target_fits(Some(query), window_id, entry_id, "focused"@),
        want != "focused"@ && window_id is Some && normed(window_id->0) == want ==> target_fits(
            Some(query),
            window_id,
            entry_id,
            want,
        ),
        want != "focused"@ && normed(query) == want ==> target_fits(
            Some(query),
            window_id,
            entry_id,
            want,
        ),
        want != "focused"@ && entry_id is Some && normed(entry_id->0) == want ==> target_fits(
            Some(query),
            window_id,
            entry_id,
            want,
        ),
        window_id is None && entry_id is None && want.len() > normed(query).len()
            ==> !target_fits(Some(query), window_id, entry_id, want),
        window_id is Some && entry_id is None && normed(window_id->0) != want && want.len() > normed(
            query,
        ).len() ==> !target_fits(Some(query), window_id, entry_id, want),
{
    let z: int = 0;
    if normed(query) == want {
        assert(normed(query).subrange(z, z + want.len()) =~= want);
    }
    if entry_id is Some && normed(entry_id->0) == want {
        assert(normed(entry_id->0).subrange(z, z + want.len()) =~= want);
    }
}

/// A case that names no target asks nothing of it; one that does is wrong
/// about an intent without a target, and the five intents that have one are
/// held to it.
pub proof fn law_only_windows_and_applications_are_targets(
    want: Seq<char>,
    intent: IntentView,
    window_id: Option<Seq<char>>,
    entry_id: Option<Seq<char>>,
)
    ensures
        target_verdict(None, intent, window_id, entry_id) is None,
        !(intent is LaunchApp || intent is FocusWindow || intent is CloseWindow || intent is
            MinimizeWindow || intent is MaximizeWindow) ==> target_verdict(
            Some(want),
            intent,
            window_id,
            entry_id,
        ) == Some(false),
        intent matches IntentView::LaunchApp { query } ==> target_verdict(
            Some(query),
            intent,
            window_id,
            entry_id,
        ) == Some(normed(query) != "focused"@),
        intent matches IntentView::FocusWindow { query } ==> target_verdict(
            Some(query),
            intent,
            window_id,
            entry_id,
        ) == Some(normed(query) != "focused"@),
        intent matches IntentView::CloseWindow { query: Some(query) } ==> target_verdict(
            Some(query),
            intent,
            window_id,
            entry_id,
        ) == Some(normed(query) != "focused"@),
        intent matches IntentView::MinimizeWindow { query: Some(query) } ==> target_verdict(
            Some(query),
            intent,
            window_id,
            entry_id,
        ) == Some(normed(query) != "focused"@),
        intent matches IntentView::MaximizeWindow { query: Some(query) } ==> target_verdict(
            Some(query),
            intent,
            window_id,
            entry_id,
        ) == Some(normed(query) != "focused"@),
        intent matches IntentView::CloseWindow { query: None } ==> target_verdict(
            Some(want),
            intent,
            window_id,
            entry_id,
        ) == Some(normed(want) == "focused"@),
        intent matches IntentView::MinimizeWindow { query: None } ==> target_verdict(
            Some(want),
            intent,
            window_id,
            entry_id,
        ) == Some(normed(want) == "focused"@),
        intent matches IntentView::MaximizeWindow { query: None } ==> target_verdict(
            Some(want),
            intent,
            window_id,
            entry_id,
        ) == Some(normed(want) == "focused"@),
{
    match target_query(intent) {
        Some(Some(query)) => {
            law_targets_are_found_by_name(query, window_id, entry_id, normed(query));
        },
        _ => {},
    }
}

/// A case that names no argument takes any; the desktop, the direction, the
/// message and the model it names must be the ones built.
pub proof fn law_named_arguments_must_be_built(case: Case, intent: IntentView)
    ensures
        case.desktop is None && case.direction is None && case.payload is None && case.model is None
            ==> arguments_fit(case, intent),
        (intent matches IntentView::VirtualDesktop { n } && case.desktop is Some) ==> (
        arguments_fit(case, intent) <==> intent->VirtualDesktop_n == case.desktop->0),
        (intent is VirtualDesktopRel && case.direction is Some && case.direction->0@ == "next"@)
            ==> (arguments_fit(case, intent) <==> intent->VirtualDesktopRel_delta == 1),
        (intent is VirtualDesktopRel && case.direction is Some && case.direction->0@
            == "previous"@) ==> (arguments_fit(case, intent)
            <==> intent->VirtualDesktopRel_delta == -1),
        (case.payload is Some && intent is ClaudeTell) ==> (arguments_fit(case, intent)
            <==> same_message(normed(intent->ClaudeTell_text), normed(case.payload->0@))),
        (case.payload is Some && intent is Notify) ==> (arguments_fit(case, intent)
            <==> same_message(normed(intent->Notify_text), normed(case.payload->0@))),
        (case.payload is Some && intent is KRunner) ==> (arguments_fit(case, intent)
            <==> same_message(normed(intent->KRunner_query), normed(case.payload->0@))),
        (case.payload is Some && intent is Key) ==> (arguments_fit(case, intent)
            <==> same_message(normed(intent->Key_chord), normed(case.payload->0@))),
        (case.model is Some && intent is ClaudeModel) ==> (arguments_fit(case, intent) <==> normed(
            intent->ClaudeModel_model,
        ) == normed(case.model->0@)),
        (case.model is Some && intent is StartClaude && intent->StartClaude_model is None)
            ==> !arguments_fit(case, intent),
        (case.model is Some && intent is StartClaude && intent->StartClaude_model is Some) ==> (
        arguments_fit(case, intent) <==> normed(intent->StartClaude_model->0) == normed(
            case.model->0@,
        )),
        intent is LaunchApp || intent is FocusWindow || intent is CloseWindow || intent is
            MinimizeWindow || intent is MaximizeWindow || intent is EditText ==> arguments_fit(
            case,
            intent,
        ),
{
    reveal_strlit("next");
    reveal_strlit("previous");
    assert("next"@.len() == 4 && "previous"@.len() == 8);
}

/// Prose is refused whatever was built of it, what could not be built is
/// refused, and everything else is what the policy decides.
pub proof fn law_outcomes_are_decided_like_commands(o: OutcomeView, policy: Policy)
    ensures
        policy.prose(o.dictation) || o.act is None ==> o.decision(policy) is Refuse,
        !policy.prose(o.dictation) && o.act is Some ==> o.decision(policy) == policy.decision(
            (o.act->0).0,
            (o.act->0).1,
        ),
        o.right() <==> o.intent_ok && o.args_ok && (o.target_ok is Some ==> o.target_ok->0),
{
    if o.target_ok is Some && !o.target_ok->0 {
        assert(o.target_ok == Some(false));
    }
}

/// An act, a question and a refusal are told apart by their word.
pub proof fn law_words_tell_decisions_apart(d: DecisionView, e: DecisionView)
    ensures
        word_for(d) == word_for(e) ==> course_of(d) == course_of(e),
        d is Act ==> word_for(d) == "act"@ && course_of(d) == Course::Act,
        d is Confirm ==> word_for(d) == "ask"@ && course_of(d) == Course::Ask,
        d is Refuse ==> word_for(d).len() >= 8 && word_for(d).take(7) == "refuse("@
            && word_for(d).last() == ')' && course_of(d) == Course::Refuse,
{
    reveal_strlit("act");
    reveal_strlit("ask");
    reveal_strlit("refuse(");
    reveal_strlit(")");
    assert("act"@[1] == 'c' && "ask"@[1] == 's');
    assert("act"@.len() == 3 && "ask"@.len() == 3);
    if d is Refuse {
        assert(word_for(d).take(7) =~= "refuse("@);
    }
    if e is Refuse {
        assert(e is Refuse && word_for(e).len() >= 8);
    }
}

/// A case takes what it expects and each name it accepts, and nothing else.
pub proof fn law_cases_take_what_they_name(case: Case, name: Seq<char>)
    ensures
        takes(case, case.expect@),
        forall|i: int| 0 <= i < case.accept@.len() ==> takes(case, (#[trigger] case.accept@[i])@),
        takes(case, name) && name != case.expect@ ==> exists|i: int|
            0 <= i < case.accept@.len() && (#[trigger] case.accept@[i])@ == name,
{
    let all = crate::text::texts(case.accept@);
    assert forall|i: int| 0 <= i < case.accept@.len() implies takes(
        case,
        (#[trigger] case.accept@[i])@,
    ) by {
        assert(all[i] == case.accept@[i]@);
    }
    if takes(case, name) && name != case.expect@ {
        let i = choose|i: int| 0 <= i < all.len() && all[i] == name;
        assert(case.accept@[i]@ == name);
    }
}

proof fn lemma_first_bad(cases: Seq<Case>, from: int)
    requires
        0 <= from <= cases.len(),
    ensures
        match first_bad(cases, from) {
            Some(CorpusErrorView::BadCase { number, error }) => from <= number < cases.len()
                && case_problem(cases[number]) == Some(error) && forall|i: int|
                from <= i < number ==> case_problem(#[trigger] cases[i]) is None,
            Some(_) => false,
            None => forall|i: int|
                from <= i < cases.len() ==> case_problem(#[trigger] cases[i]) is None,
        },
    decreases cases.len() - from,
{
    if from < cases.len() && case_problem(cases[from]) is None {
        lemma_first_bad(cases, from + 1);
    }
}

/// A corpus can be run exactly when it has cases, all of them well-formed,
/// and its desktop is possible; otherwise the first bad case is named.
pub proof fn law_corpora_that_can_be_run(desktop: Desktop, cases: Seq<Case>)
    ensures
        corpus_problem(desktop, cases) is None <==> cases.len() > 0 && 1 <= desktop.current_desktop
            && desktop.current_desktop <= desktop.desktop_count && forall|i: int|
            0 <= i < cases.len() ==> case_problem(#[trigger] cases[i]) is None,
        corpus_problem(desktop, cases) matches Some(CorpusErrorView::BadCase { number, error })
            ==> 0 <= number < cases.len() && case_problem(cases[number]) == Some(error)
            && forall|i: int| 0 <= i < number ==> case_problem(#[trigger] cases[i]) is None,
        corpus_problem(desktop, cases) == Some(CorpusErrorView::NoCases) <==> cases.len() == 0,
{
    lemma_first_bad(cases, 0);
}

/// Filling up keeps the text, adds spaces only, and reaches the width.
pub proof fn law_filling_up_adds_spaces(s: Seq<char>, width: nat)
    ensures
        padded(s, width).len() >= width,
        padded(s, width).len() == s.len() || padded(s, width).len() == width,
        padded(s, width).take(s.len() as int) == s,
        forall|i: int| s.len() <= i < padded(s, width).len() ==> #[trigger] padded(s, width)[i] == ' ',
{
    assert(padded(s, width).take(s.len() as int) =~= s);
}

/// A report line begins with whether the case came out right.
pub proof fn law_lines_begin_with_the_verdict(o: Outcome<'_>, policy: Policy)
    ensures
        o@.right() ==> line_of(o, policy).take(5) == "ok   "@,
        !o@.right() ==> line_of(o, policy).take(5) == "WRONG"@,
{
    reveal_strlit("ok   ");
    reveal_strlit("WRONG");
    assert(o@.right() ==> line_of(o, policy).take(5) =~= "ok   "@);
    assert(!o@.right() ==> line_of(o, policy).take(5) =~= "WRONG"@);
}

} // verus!
