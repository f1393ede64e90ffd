//! The router: what becomes of a finished transcript.
//!
//! Dictation goes through the flow and is typed into the focused window.
//! Commands go through the grammar first and fall through to the judged path.
//! Both command paths end in the same policy decision, and what the policy
//! wants confirmed waits for the next command-mode utterance.
//!
//! The router also remembers the last dictation for a while, so "scratch that"
//! can take it back and a spoken edit can rewrite it, and so the field can be
//! read again a little later to see whether a word was corrected by hand.
//! Instants are milliseconds on a clock that only moves forward.
use vstd::prelude::*;

use crate::confirm::{check_target, Confirmations, Pending, StaleTarget, Taken};
use crate::desktop::{command_for, from_resolved, Command, Window, WindowTarget};
use crate::flow::{Processed, ProcessedView};
use crate::intent::{intent_text, Intent, IntentView};
use crate::judge::{AppCandidate, Context};
use crate::policy::{Decision, DecisionView, Policy, Signals};
use crate::text::{
    capitalize, concat2, concat3, decimal_text, first_chars, join_from, quoted, same, slice_text,
    to_chars, trim,
};
use crate::verdict::{Resolved, Verdict};

verus! {

/// What the held key asked for.
#[derive(Clone, Copy, Debug, PartialEq, Eq, Structural)]
pub enum Mode {
    /// Transcript becomes keystrokes into whatever is focused.
    Dictate,
    /// Transcript is parsed as a command.
    Command,
}

/// Observed desktop state at one moment, gathered before judging.
#[derive(Debug)]
pub struct Snapshot {
    pub windows: Vec<Window>,
    pub current_desktop: u32,
    pub desktop_count: u32,
    pub claude_running: bool,
    pub last_dictation: bool,
}

/// What is wrong with a desktop that reports no virtual desktops.
pub const NO_DESKTOPS: &'static str = "KWin reports no virtual desktops";

impl Snapshot {
    /// The state the judge is given, with the installed applications that
    /// come closest to the utterance and the coding assistant's name.
    pub fn context(self, shortlist: Vec<AppCandidate>, assistant: String) -> (r: Context)
        ensures
            r.windows == self.windows,
            r.shortlist == shortlist,
            r.current_desktop == self.current_desktop,
            r.desktop_count == self.desktop_count,
            r.claude_running == self.claude_running,
            r.last_dictation == self.last_dictation,
            r.assistant == assistant,
    {
        Context {
            windows: self.windows,
            shortlist,
            current_desktop: self.current_desktop,
            desktop_count: self.desktop_count,
            claude_running: self.claude_running,
            last_dictation: self.last_dictation,
            assistant,
        }
    }
}

/// What handling an utterance came to.
#[derive(Clone, Debug, PartialEq, Eq)]
pub enum Handled {
    /// A result to report.
    Done(String),
    /// A question to be answered by voice, so it should be made heard.
    Confirm(String),
    /// Dictation that landed, with what became of the transcript.
    Typed(Processed),
}

/// A [`Handled`] as character sequences.
pub ghost enum HandledView {
    Done(Seq<char>),
    Confirm(Seq<char>),
    Typed(ProcessedView),
}

impl View for Handled {
    type V = HandledView;

    open spec fn view(&self) -> HandledView {
        match self {
            Handled::Done(s) => HandledView::Done(s@),
            Handled::Confirm(s) => HandledView::Confirm(s@),
            Handled::Typed(p) => HandledView::Typed(p@),
        }
    }
}

/// What a correction pass needs: the field, and the region the dictation
/// occupies in it, as it was right after typing.
#[derive(Debug, PartialEq, Eq)]
pub struct Learn {
    /// Which field, by the number it was given when it was read.
    pub field: u64,
    pub app: String,
    /// Context, the dictation, context.
    pub expected: String,
    /// Character offsets of `expected` in the field.
    pub from: i32,
    pub to: i32,
}

/// The dictation most recently typed, while it can still be taken back.
#[derive(Debug, PartialEq, Eq)]
pub struct LastDictation {
    pub text: String,
    pub window_id: String,
    pub class: String,
    pub at: u64,
    /// Distinguishes this dictation from the ones before and after it, so a
    /// timer set for it cannot act on another.
    pub seq: u64,
    /// A correction pass still to run, when the field could be read.
    pub learn: Option<Learn>,
}

impl Learn {
    fn copy(&self) -> (r: Learn)
        ensures
            r == *self,
    {
        Learn {
            field: self.field,
            app: self.app.clone(),
            expected: self.expected.clone(),
            from: self.from,
            to: self.to,
        }
    }
}

impl LastDictation {
    fn copy(&self) -> (r: LastDictation)
        ensures
            r == *self,
    {
        LastDictation {
            text: self.text.clone(),
            window_id: self.window_id.clone(),
            class: self.class.clone(),
            at: self.at,
            seq: self.seq,
            learn: match &self.learn {
                Some(l) => Some(l.copy()),
                None => None,
            },
        }
    }
}

/// What is done next about an utterance.
#[derive(Debug)]
pub enum Route {
    /// Report the result.
    Done(String),
    /// Report the failure.
    Fail(String),
    /// Carry the command out.
    Execute(Command),
    /// Look the command's window up, then ask through [`Router::ask`].
    Ask { command: Command, reason: String },
    /// A confirmed command that names a window: look the window up again, and
    /// carry out what [`confirmed`] allows.
    Recheck(Pending),
    /// Delete the dictation, then tell [`Router::scratched`].
    TakeBack(LastDictation),
    /// Observe the desktop and judge the utterance, then [`Router::judged`].
    Judge,
    /// Have the dictation rewritten as told.
    Rewrite { last: LastDictation, instruction: String },
}

/// A [`Route`] with its texts as character sequences.
#[allow(inconsistent_fields)]
pub ghost enum RouteView {
    Done(Seq<char>),
    Fail(Seq<char>),
    Execute(Command),
    Ask { command: Command, reason: Seq<char> },
    Recheck(Pending),
    TakeBack(LastDictation),
    Judge,
    Rewrite { last: LastDictation, instruction: Seq<char> },
}

impl View for Route {
    type V = RouteView;

    open spec fn view(&self) -> RouteView {
        match *self {
            Route::Done(s) => RouteView::Done(s@),
            Route::Fail(s) => RouteView::Fail(s@),
            Route::Execute(c) => RouteView::Execute(c),
            Route::Ask { command, reason } => RouteView::Ask { command, reason: reason@ },
            Route::Recheck(p) => RouteView::Recheck(p),
            Route::TakeBack(l) => RouteView::TakeBack(l),
            Route::Judge => RouteView::Judge,
            Route::Rewrite { last, instruction } => RouteView::Rewrite {
                last,
                instruction: instruction@,
            },
        }
    }
}

/// What the router keeps between utterances.
#[derive(Debug)]
pub struct Router {
    /// The thresholds both command paths are gated by.
    pub policy: Policy,
    /// Whether there is a judged path to fall through to.
    pub judge: bool,
    pub pending: Confirmations,
    pub last: Option<LastDictation>,
    pub seq: u64,
    /// How long a confirmation prompt stays answerable.
    pub confirm_window_ms: u64,
    /// How long a dictation can be taken back or edited.
    pub edit_window_ms: u64,
}

/// The last dictation, if it is recent and the focus has not moved.
pub open spec fn recent(
    last: Option<LastDictation>,
    focused: Option<Window>,
    now: u64,
    edit_window_ms: u64,
) -> Option<LastDictation> {
    match last {
        None => None,
        Some(l) => if now - l.at > edit_window_ms {
            None
        } else if focused matches Some(w) && w.id@ != l.window_id@ {
            None
        } else {
            Some(l)
        },
    }
}

/// What the policy makes of an intent and the command it asks for. This is the
/// single gate: voice is an unauthenticated channel, so nothing the policy
/// wants confirmed runs before a yes to a prompt naming what will happen.
pub open spec fn gate_of(
    policy: Policy,
    source: Seq<char>,
    intent: IntentView,
    signals: Signals,
    command: Command,
) -> RouteView {
    match policy.decision(intent, signals) {
        DecisionView::Act => RouteView::Execute(command),
        DecisionView::Confirm { reason } => RouteView::Ask { command, reason },
        DecisionView::Refuse { reason } => RouteView::Fail(
            source + " "@ + intent.shown() + " refused: "@ + reason,
        ),
    }
}

/// What a spoken yes comes to, where `waiting` waits for one.
pub open spec fn yes_of(waiting: Option<Pending>, now: u64) -> RouteView {
    match crate::confirm::taken_at(waiting, now) {
        Taken::Nothing => RouteView::Fail("nothing to confirm"@),
        Taken::Expired(p) => RouteView::Fail(
            "too late to confirm "@ + p.describe@ + " (say the command again)"@,
        ),
        Taken::Live(p) => if p.command is Window {
            RouteView::Recheck(p)
        } else {
            RouteView::Execute(p.command)
        },
    }
}

/// What a spoken no comes to.
pub open spec fn no_of(waiting: Option<Pending>) -> RouteView {
    match waiting {
        Some(p) => RouteView::Done("cancelled: "@ + p.describe@),
        None => RouteView::Done("nothing to cancel"@),
    }
}

/// What a command-mode utterance comes to, where `intent` is what the grammar
/// read in it.
pub open spec fn route_of(
    r: Router,
    transcript: Seq<char>,
    intent: Option<Intent>,
    focused: Option<Window>,
    now: u64,
) -> RouteView {
    match intent {
        Some(Intent::Confirm) => yes_of(r.pending@, now),
        Some(Intent::Deny) => no_of(r.pending@),
        Some(Intent::ScratchThat) => match recent(r.last, focused, now, r.edit_window_ms) {
            Some(l) => RouteView::TakeBack(l),
            None => RouteView::Fail("nothing recent to take back"@),
        },
        Some(i) => match crate::desktop::command_of(i) {
            Some(command) => gate_of(r.policy, "fast path"@, i@, Signals::Grammar, command),
            None => RouteView::Fail("grammar produced a reply where a command was expected"@),
        },
        None => if r.judge {
            RouteView::Judge
        } else {
            RouteView::Fail(
                "no fast-path match for "@ + crate::text::debug_text(transcript)
                    + " (judged path disabled)"@,
            )
        },
    }
}

/// What an edit of the last dictation comes to: a confident judgment acts
/// without a prompt, an unconfident one is refused rather than asked.
pub open spec fn edit_of(
    r: Router,
    intent: IntentView,
    signals: Signals,
    focused: Option<Window>,
    now: u64,
) -> RouteView {
    match recent(r.last, focused, now, r.edit_window_ms) {
        None => RouteView::Fail("nothing recent to edit"@),
        Some(l) => match r.policy.decision(intent, signals) {
            DecisionView::Refuse { reason } => RouteView::Fail("edit refused: "@ + reason),
            _ => RouteView::Rewrite { last: l, instruction: intent->instruction },
        },
    }
}

/// What a verdict on a command-mode utterance comes to.
pub open spec fn judged_of(
    r: Router,
    verdict: Verdict,
    transcript: Seq<char>,
    focused: Option<Window>,
    now: u64,
) -> RouteView {
    match verdict {
        Verdict::Act(v) => if v.intent is EditText {
            edit_of(r, v.intent@, v.signals, focused, now)
        } else {
            match crate::desktop::resolved_command(v.intent, v.window_id, v.entry_id) {
                Some(command) => gate_of(
                    r.policy,
                    "judged (confidence "@ + v.confidence.two_decimals() + ")"@,
                    v.intent@,
                    v.signals,
                    command,
                ),
                None => RouteView::Fail("judge produced a reply, not a command"@),
            }
        },
        Verdict::Dictation => RouteView::Fail(
            "that sounded like dictation, not a command \u{2014} hold the dictate hotkey instead"@,
        ),
        Verdict::Unclear(reason) => RouteView::Fail(
            "could not act on "@ + crate::text::debug_text(transcript) + ": "@ + reason@,
        ),
    }
}

impl Router {
    /// A router with nothing waiting and nothing dictated. The policy is the
    /// judge's where there is one, so both paths share thresholds.
    pub fn new(judge: Option<Policy>, confirm_window_ms: u64, edit_window_ms: u64) -> (r: Router)
        ensures
            r.policy == (match judge {
                Some(p) => p,
                None => crate::policy::policy_of(crate::config::local_thresholds()),
            }),
            r.judge == (judge is Some),
            r.pending@ is None,
            r.last is None,
            r.seq == 0,
            r.confirm_window_ms == confirm_window_ms,
            r.edit_window_ms == edit_window_ms,
    {
        Router {
            policy: match judge {
                Some(p) => p,
                None => Policy::default(),
            },
            judge: judge.is_some(),
            pending: Confirmations::default(),
            last: None,
            seq: 0,
            confirm_window_ms,
            edit_window_ms,
        }
    }

    /// The last dictation, if it is recent and the focus has not moved.
    pub fn recent_dictation(&self, focused: Option<&Window>, now: u64) -> (r: Option<LastDictation>)
        ensures
            r == recent(self.last, crate::confirm::opt_window(focused), now, self.edit_window_ms),
    {
        match &self.last {
            None => None,
            Some(l) => {
                if now > l.at && now - l.at > self.edit_window_ms {
                    return None;
                }
                if let Some(w) = focused {
                    if !same(w.id.as_str(), l.window_id.as_str()) {
                        return None;
                    }
                }
                Some(l.copy())
            },
        }
    }

    /// What a command-mode utterance comes to. A reply is checked before
    /// anything else, so "yes" can never be read as a command; any other
    /// utterance drops the prompt, since the person has moved on.
    pub fn route(
        &mut self,
        transcript: &str,
        intent: Option<Intent>,
        focused: Option<&Window>,
        now: u64,
    ) -> (r: Route)
        ensures
            r@ == route_of(
                *old(self),
                transcript@,
                intent,
                crate::confirm::opt_window(focused),
                now,
            ),
            final(self).pending@ is None,
            *final(self) == (Router { pending: final(self).pending, ..*old(self) }),
    {
        match intent {
            Some(Intent::Confirm) => match self.pending.take(now) {
                Taken::Nothing => Route::Fail("nothing to confirm".to_string()),
                Taken::Expired(p) => Route::Fail(
                    concat3(
                        "too late to confirm ",
                        p.describe.as_str(),
                        " (say the command again)",
                    ),
                ),
                Taken::Live(p) => {
                    if window_target(&p.command).is_some() {
                        Route::Recheck(p)
                    } else {
                        Route::Execute(p.command)
                    }
                },
            },
            Some(Intent::Deny) => match self.pending.cancel() {
                Some(p) => Route::Done(concat2("cancelled: ", p.describe.as_str())),
                None => Route::Done("nothing to cancel".to_string()),
            },
            Some(Intent::ScratchThat) => {
                let _ = self.pending.cancel();
                match self.recent_dictation(focused, now) {
                    Some(l) => Route::TakeBack(l),
                    None => Route::Fail("nothing recent to take back".to_string()),
                }
            },
            Some(i) => {
                let _ = self.pending.cancel();
                let decision = self.policy.decide(&i, &Signals::Grammar);
                let shown = intent_text(&i);
                match command_for(i) {
                    None => Route::Fail(
                        "grammar produced a reply where a command was expected".to_string(),
                    ),
                    Some(command) => match decision {
                        Decision::Act => Route::Execute(command),
                        Decision::Confirm { reason } => Route::Ask { command, reason },
                        Decision::Refuse { reason } => {
                            let mut out = concat3("fast path", " ", shown.as_str());
                            out.append(" refused: ");
                            out.append(reason.as_str());
                            Route::Fail(out)
                        },
                    },
                }
            },
            None => {
                let _ = self.pending.cancel();
                if self.judge {
                    Route::Judge
                } else {
                    let said = quoted(transcript);
                    Route::Fail(
                        concat3(
                            "no fast-path match for ",
                            said.as_str(),
                            " (judged path disabled)",
                        ),
                    )
                }
            },
        }
    }

    /// What a verdict on a command-mode utterance comes to.
    pub fn judged(
        &self,
        verdict: Verdict,
        transcript: &str,
        focused: Option<&Window>,
        now: u64,
    ) -> (r: Route)
        ensures
            r@ == judged_of(
                *self,
                verdict,
                transcript@,
                crate::confirm::opt_window(focused),
                now,
            ),
    {
        match verdict {
            Verdict::Act(v) => self.resolved(v, focused, now),
            Verdict::Dictation => Route::Fail(
                "that sounded like dictation, not a command \u{2014} hold the dictate hotkey instead".to_string(),
            ),
            Verdict::Unclear(reason) => {
                let said = quoted(transcript);
                let mut out = concat3("could not act on ", said.as_str(), ": ");
                out.append(reason.as_str());
                Route::Fail(out)
            },
        }
    }

    fn resolved(&self, v: Resolved, focused: Option<&Window>, now: u64) -> (r: Route)
        ensures
            r@ == judged_of(
                *self,
                Verdict::Act(v),
                Seq::empty(),
                crate::confirm::opt_window(focused),
                now,
            ),
    {
        let decision = self.policy.decide(&v.intent, &v.signals);
        if let Intent::EditText { instruction } = &v.intent {
            return match self.recent_dictation(focused, now) {
                None => Route::Fail("nothing recent to edit".to_string()),
                Some(last) => match decision {
                    Decision::Refuse { reason } => Route::Fail(
                        concat2("edit refused: ", reason.as_str()),
                    ),
                    _ => Route::Rewrite { last, instruction: instruction.clone() },
                },
            };
        }
        let shown = intent_text(&v.intent);
        let confidence = v.confidence.shown();
        let source = concat3("judged (confidence ", confidence.as_str(), ")");
        match from_resolved(v.intent, v.window_id, v.entry_id) {
            None => Route::Fail("judge produced a reply, not a command".to_string()),
            Some(command) => match decision {
                Decision::Act => Route::Execute(command),
                Decision::Confirm { reason } => Route::Ask { command, reason },
                Decision::Refuse { reason } => {
                    let mut out = concat3(source.as_str(), " ", shown.as_str());
                    out.append(" refused: ");
                    out.append(reason.as_str());
                    Route::Fail(out)
                },
            },
        }
    }

    /// Park `command` and word the question, where `window` is what its
    /// target means now and `describe` says what will happen.
    pub fn ask(
        &mut self,
        command: Command,
        reason: String,
        window: Option<&Window>,
        describe: String,
        now: u64,
    ) -> (r: Handled)
        requires
            now + old(self).confirm_window_ms <= u64::MAX,
        ensures
            r@ == HandledView::Confirm(crate::text::capitalized(describe@) + "? say yes"@),
            final(self).pending@ == Some(
                Pending {
                    command,
                    window_id: match window {
                        Some(w) => Some(w.id),
                        None => None,
                    },
                    reason,
                    describe,
                    deadline: (now + old(self).confirm_window_ms) as u64,
                },
            ),
            *final(self) == (Router { pending: final(self).pending, ..*old(self) }),
    {
        let title = capitalize(describe.as_str());
        let question = concat2(title.as_str(), "? say yes");
        let deadline = now + self.confirm_window_ms;
        let window_id = match window {
            Some(w) => Some(w.id.clone()),
            None => None,
        };
        let _ = self.pending.arm(Pending { command, window_id, reason, describe, deadline });
        Handled::Confirm(question)
    }

    /// The correction pass still waiting for the previous dictation: it runs
    /// before the next one changes the field.
    pub fn take_learn(&mut self) -> (r: Option<Learn>)
        ensures
            r == (match old(self).last {
                Some(l) => l.learn,
                None => None,
            }),
            *final(self) == (Router { last: without_learn(old(self).last), ..*old(self) }),
    {
        match self.last.take() {
            None => None,
            Some(l) => {
                let learn = l.learn;
                self.last = Some(
                    LastDictation {
                        text: l.text,
                        window_id: l.window_id,
                        class: l.class,
                        at: l.at,
                        seq: l.seq,
                        learn: None,
                    },
                );
                learn
            },
        }
    }

    /// The correction pass of dictation number `seq`, when its timer goes off:
    /// gone if the dictation was scratched, edited or followed by another one.
    pub fn learn_due(&mut self, seq: u64) -> (r: Option<Learn>)
        ensures
            r == (match old(self).last {
                Some(l) => if l.seq == seq {
                    l.learn
                } else {
                    None
                },
                None => None,
            }),
            *final(self) == if old(self).last matches Some(l) && l.seq == seq {
                Router { last: without_learn(old(self).last), ..*old(self) }
            } else {
                *old(self)
            },
    {
        let due = match &self.last {
            Some(l) => l.seq == seq,
            None => false,
        };
        if due {
            self.take_learn()
        } else {
            None
        }
    }

    /// Remember a dictation that was typed, and number it.
    pub fn dictated(
        &mut self,
        text: &str,
        focused: Option<&Window>,
        learn: Option<Learn>,
        now: u64,
    ) -> (seq: u64)
        ensures
            seq == (if old(self).seq == u64::MAX {
                0
            } else {
                old(self).seq + 1
            }),
            final(self).seq == seq,
            final(self).last matches Some(l) && ({
                &&& l.text@ == text@
                &&& l.window_id@ == (match focused {
                    Some(w) => w.id@,
                    None => Seq::empty(),
                })
                &&& l.class@ == (match focused {
                    Some(w) => w.class@,
                    None => Seq::empty(),
                })
                &&& l.at == now
                &&& l.seq == seq
                &&& l.learn == learn
            }),
            *final(self) == (Router {
                last: final(self).last,
                seq: final(self).seq,
                ..*old(self)
            }),
    {
        let seq: u64 = if self.seq == u64::MAX {
            0
        } else {
            self.seq + 1
        };
        self.seq = seq;
        let (window_id, class) = match focused {
            Some(w) => (w.id.clone(), w.class.clone()),
            None => (String::new(), String::new()),
        };
        proof {
            if focused is None {
                assert(window_id@ =~= Seq::<char>::empty());
                assert(class@ =~= Seq::<char>::empty());
            }
        }
        self.last = Some(
            LastDictation { text: text.to_string(), window_id, class, at: now, seq, learn },
        );
        seq
    }

    /// The dictation was taken back: there is nothing more to take back.
    pub fn scratched(&mut self, verified: Verified, typed: usize) -> (r: Handled)
        ensures
            r@ == HandledView::Done(taken_back(verified, typed)),
            *final(self) == (Router { last: None, ..*old(self) }),
    {
        self.last = None;
        Handled::Done(took_back(verified, typed))
    }

    /// The dictation `last` was replaced by `text`. It was rewritten by
    /// request, not corrected by hand, so there is nothing to learn from it.
    pub fn edited(&mut self, last: LastDictation, text: String, now: u64) -> (r: Handled)
        ensures
            r@ == HandledView::Typed(
                ProcessedView { text: text@, outcome: "edited"@, profile: Seq::empty() },
            ),
            final(self).last matches Some(l) && l.text@ == text@ && l == (LastDictation {
                text: l.text,
                at: now,
                learn: None,
                ..last
            }),
            *final(self) == (Router { last: final(self).last, ..*old(self) }),
    {
        let kept = text.clone();
        self.last = Some(
            LastDictation {
                text,
                window_id: last.window_id,
                class: last.class,
                at: now,
                seq: last.seq,
                learn: None,
            },
        );
        let profile = String::new();
        assert(profile@ =~= Seq::<char>::empty());
        Handled::Typed(Processed { text: kept, outcome: "edited", profile })
    }
}

/// A dictation with its correction pass gone.
pub open spec fn without_learn(last: Option<LastDictation>) -> Option<LastDictation> {
    match last {
        Some(l) => Some(LastDictation { learn: None, ..l }),
        None => None,
    }
}

/// The target of a command that acts on a window.
pub fn window_target(command: &Command) -> (r: Option<&WindowTarget>)
    ensures
        match *command {
            Command::Window { target, .. } => r == Some(&target),
            _ => r is None,
        },
{
    match command {
        Command::Window { target, .. } => Some(target),
        _ => None,
    }
}

/// The command a yes carries out, where `current` is the window that the
/// parked command's target means now: the same command on that very window,
/// which is the one the prompt named.
pub fn confirmed(pending: Pending, current: Option<&Window>) -> (r: Result<Command, StaleTarget>)
    ensures
        match r {
            Err(e) => crate::confirm::stale(pending, crate::confirm::opt_window(current)) == Some(
                e@,
            ),
            Ok(c) => crate::confirm::stale(pending, crate::confirm::opt_window(current)) is None
                && match pending.command {
                Command::Window { op, .. } => c matches Command::Window {
                    op: done,
                    target: WindowTarget::Id(id),
                } && done == op && id@ == (match current {
                    Some(w) => w.id@,
                    None => Seq::empty(),
                }) && (pending.window_id matches Some(named) ==> id@ == named@),
                other => c == other,
            },
        },
{
    match check_target(&pending, current) {
        Err(e) => Err(e),
        Ok(()) => match pending.command {
            Command::Window { op, target: _ } => {
                let id = match current {
                    Some(w) => w.id.clone(),
                    None => String::new(),
                };
                proof {
                    if current is None {
                        assert(id@ =~= Seq::<char>::empty());
                    }
                }
                Ok(Command::Window { op, target: WindowTarget::Id(id) })
            },
            other => Ok(other),
        },
    }
}

/// Nothing runs unconfirmed that should be asked about: a command the grammar
/// path carries out either never asks, or was parked, named in a prompt and
/// answered with a yes in time.
pub proof fn law_no_unconfirmed_action(
    r: Router,
    transcript: Seq<char>,
    intent: Option<Intent>,
    focused: Option<Window>,
    now: u64,
)
    ensures
        route_of(r, transcript, intent, focused, now) matches RouteView::Execute(c) ==> {
            ||| intent == Some(Intent::Confirm) && (r.pending@ matches Some(p) && now <= p.deadline
                && p.command == c)
            ||| intent matches Some(i) && crate::desktop::command_of(i) == Some(c)
                && !i@.always_asks()
        },
        route_of(r, transcript, intent, focused, now) matches RouteView::Recheck(p)
            ==> r.pending@ == Some(p) && now <= p.deadline,
{
}

/// What the judged path carries out without a prompt is what the policy lets
/// act.
pub proof fn law_judged_action_was_allowed(
    r: Router,
    verdict: Verdict,
    transcript: Seq<char>,
    focused: Option<Window>,
    now: u64,
)
    ensures
        judged_of(r, verdict, transcript, focused, now) matches RouteView::Execute(c) ==> (
        verdict matches Verdict::Act(v) && r.policy.decision(v.intent@, v.signals)
            == DecisionView::Act && crate::desktop::resolved_command(
            v.intent,
            v.window_id,
            v.entry_id,
        ) == Some(c)),
{
}

/// A yes with nothing waiting, or too late, does nothing.
pub proof fn law_yes_is_never_a_command(
    r: Router,
    transcript: Seq<char>,
    focused: Option<Window>,
    now: u64,
)
    requires
        r.pending@ matches Some(p) ==> now > p.deadline,
    ensures
        route_of(r, transcript, Some(Intent::Confirm), focused, now) is Fail,
{
}

/// Only a recent dictation into the window that still has the focus is taken
/// back or edited.
pub proof fn law_stale_dictation_is_left_alone(
    r: Router,
    transcript: Seq<char>,
    focused: Option<Window>,
    now: u64,
)
    requires
        r.last is None || now - r.last->0.at > r.edit_window_ms || (focused matches Some(w)
            && w.id@ != r.last->0.window_id@),
    ensures
        route_of(r, transcript, Some(Intent::ScratchThat), focused, now) is Fail,
        forall|v: Resolved|
            v.intent is EditText ==> #[trigger] judged_of(
                r,
                Verdict::Act(v),
                transcript,
                focused,
                now,
            ) is Fail,
{
}

/// An edit never asks and touches nothing but the dictated text: it is the
/// person's own words of a moment ago.
pub proof fn law_edits_never_ask(
    r: Router,
    v: Resolved,
    transcript: Seq<char>,
    focused: Option<Window>,
    now: u64,
)
    requires
        v.intent is EditText,
    ensures
        match judged_of(r, Verdict::Act(v), transcript, focused, now) {
            RouteView::Rewrite { last, .. } => r.last == Some(last),
            RouteView::Fail(_) => true,
            _ => false,
        },
{
}

/// A dictation in between leaves a prompt as it was, and so do taking it back
/// and editing it: only a command-mode utterance answers or drops one.
pub proof fn law_dictation_leaves_the_prompt(before: Router, after: Router, now: u64)
    requires
        after == (Router { last: after.last, seq: after.seq, ..before }),
    ensures
        yes_of(after.pending@, now) == yes_of(before.pending@, now),
        no_of(after.pending@) == no_of(before.pending@),
{
}

/// A transcript without the whitespace around it; None when nothing is left.
pub fn utterance(transcript: &str) -> (r: Option<String>)
    ensures
        match r {
            Some(t) => t@ == crate::text::trimmed(transcript@) && t@.len() > 0,
            None => crate::text::trimmed(transcript@).len() == 0,
        },
{
    let bare = trim(transcript);
    if bare.as_str().is_empty() {
        None
    } else {
        Some(bare)
    }
}

/// What is wrong with an utterance of nothing.
pub const EMPTY_TRANSCRIPT: &'static str = "empty transcript";

/// What is said of an edit that changes nothing.
pub const NOTHING_TO_CHANGE: &'static str = "nothing to change";

/// Whether an edit changed anything.
pub fn changed(last: &LastDictation, text: &str) -> (r: bool)
    ensures
        r == (text@ != last.text@),
{
    !same(text, last.text.as_str())
}

/// What became of a deletion.
#[derive(Clone, Copy, Debug, PartialEq, Eq, Structural)]
pub enum Verified {
    /// The field ended with exactly what was typed.
    Exact,
    /// The field ended with something close to it.
    Fuzzy { deleted: usize },
    /// The field could not be read.
    Blind,
}

/// What a deletion did, for the result line.
pub open spec fn taken_back(verified: Verified, typed: usize) -> Seq<char> {
    match verified {
        Verified::Exact => "took back "@ + crate::text::decimal(typed as nat)
            + " characters (verified)"@,
        Verified::Fuzzy { deleted } => "took back "@ + crate::text::decimal(deleted as nat)
            + " characters (verified; "@ + crate::text::decimal(typed as nat) + " were typed)"@,
        Verified::Blind => "took back "@ + crate::text::decimal(typed as nat)
            + " characters (unverified)"@,
    }
}

/// What a deletion did, for the result line.
pub fn took_back(verified: Verified, typed: usize) -> (r: String)
    ensures
        r@ == taken_back(verified, typed),
{
    let n = decimal_text(typed as u64);
    match verified {
        Verified::Exact => concat3("took back ", n.as_str(), " characters (verified)"),
        Verified::Fuzzy { deleted } => {
            let d = decimal_text(deleted as u64);
            let mut out = concat3("took back ", d.as_str(), " characters (verified; ");
            out.append(n.as_str());
            out.append(" were typed)");
            out
        },
        Verified::Blind => concat3("took back ", n.as_str(), " characters (unverified)"),
    }
}

/// Characters of context kept on either side of a dictation, so the comparison
/// has anchors that were not dictated.
pub const LEARN_CONTEXT: usize = 20;

/// Extra characters read past the region, so a word added at the end does not
/// shift the context out of the read.
pub const LEARN_SLACK: i32 = 40;

/// The last `n` characters of a text, or all of a shorter one.
pub open spec fn ending(s: Seq<char>, n: int) -> Seq<char> {
    if s.len() <= n {
        s
    } else {
        s.skip(s.len() - n)
    }
}

/// The caret after typing: what was read back once the keystrokes had been
/// processed, else what follows from the text.
pub open spec fn caret_after(caret: int, typed: int, read: Option<i32>) -> int {
    match read {
        Some(c) => if c >= caret + typed {
            c as int
        } else {
            caret + typed
        },
        None => caret + typed,
    }
}

/// Where a dictation sits in its field once typed, with some of what was there
/// already on either side. `read` is the caret read back after typing.
pub fn learn_region(
    field: u64,
    app: &str,
    before: &str,
    after: &str,
    caret: i32,
    typed: &str,
    read: Option<i32>,
) -> (r: Learn)
    requires
        caret >= i32::MIN + LEARN_CONTEXT,
        typed@.len() <= i32::MAX,
        caret + typed@.len() + LEARN_CONTEXT <= i32::MAX,
        read matches Some(c) ==> c + LEARN_CONTEXT <= i32::MAX,
    ensures
        r.field == field,
        r.app@ == app@,
        r.expected@ == ending(before@, LEARN_CONTEXT as int) + typed@ + crate::text::clipped(
            after@,
            LEARN_CONTEXT as int,
        ),
        r.from == caret - ending(before@, LEARN_CONTEXT as int).len(),
        r.to == caret_after(caret as int, typed@.len() as int, read) + crate::text::clipped(
            after@,
            LEARN_CONTEXT as int,
        ).len(),
{
    let b = to_chars(before);
    let k: usize = if b.len() < LEARN_CONTEXT {
        b.len()
    } else {
        LEARN_CONTEXT
    };
    let tail = slice_text(&b, b.len() - k, b.len());
    let head = first_chars(after, LEARN_CONTEXT);
    let m: usize = to_chars(head.as_str()).len();
    let n: usize = to_chars(typed).len();
    let computed: i32 = caret + n as i32;
    let after_typing: i32 = match read {
        Some(c) => {
            if c >= computed {
                c
            } else {
                computed
            }
        },
        None => computed,
    };
    proof {
        assert(tail@ =~= ending(before@, LEARN_CONTEXT as int));
        assert(k == tail@.len());
        assert(m == head@.len());
    }
    Learn {
        field,
        app: app.to_string(),
        expected: concat3(tail.as_str(), typed, head.as_str()),
        from: caret - k as i32,
        to: after_typing + m as i32,
    }
}

/// The region is exactly as long as what is expected in it, unless the caret
/// was read back further on.
pub proof fn law_region_holds_the_dictation(
    before: Seq<char>,
    after: Seq<char>,
    caret: int,
    typed: Seq<char>,
)
    ensures
        ({
            let tail = ending(before, LEARN_CONTEXT as int);
            let head = crate::text::clipped(after, LEARN_CONTEXT as int);
            let from = caret - tail.len();
            let to = caret_after(caret, typed.len() as int, None) + head.len();
            to - from == (tail + typed + head).len()
        }),
{
}

/// Where the second read of a region ends.
pub fn read_until(learn: &Learn) -> (r: i32)
    requires
        learn.to + LEARN_SLACK <= i32::MAX,
    ensures
        r == learn.to + LEARN_SLACK,
{
    learn.to + LEARN_SLACK
}

/// A word corrected by hand, as the flow counted it.
#[derive(Clone, Debug)]
pub struct Learned {
    pub heard: String,
    pub written: String,
    pub count: u32,
    /// Whether it is in the dictionary now.
    pub promoted: bool,
}

/// The corrections that went into the dictionary.
pub open spec fn promoted_texts(learned: Seq<Learned>) -> Seq<Seq<char>>
    decreases learned.len(),
{
    if learned.len() == 0 {
        Seq::empty()
    } else {
        let rest = promoted_texts(learned.drop_last());
        if learned.last().promoted {
            rest.push(learned.last().heard@ + " -> "@ + learned.last().written@)
        } else {
            rest
        }
    }
}

/// What is said of the corrections that went into the dictionary; None when
/// there are none.
pub fn promotion_notice(learned: &Vec<Learned>) -> (r: Option<String>)
    ensures
        crate::intent::opt_text(r) == if promoted_texts(learned@).len() == 0 {
            None
        } else {
            Some("Learned: "@ + crate::text::join(promoted_texts(learned@), ", "@))
        },
{
    let mut out: Vec<String> = Vec::new();
    let mut i: usize = 0;
    assert(crate::text::texts(out@) =~= promoted_texts(learned@.take(0)));
    while i < learned.len()
        invariant
            i <= learned@.len(),
            crate::text::texts(out@) == promoted_texts(learned@.take(i as int)),
        decreases learned@.len() - i,
    {
        let ghost before = out@;
        let l = &learned[i];
        assert(learned@.take(i + 1).drop_last() =~= learned@.take(i as int));
        if l.promoted {
            out.push(concat3(l.heard.as_str(), " -> ", l.written.as_str()));
            assert(crate::text::texts(out@) =~= crate::text::texts(before).push(
                l.heard@ + " -> "@ + l.written@,
            ));
        }
        i = i + 1;
    }
    assert(learned@.take(i as int) =~= learned@);
    assert(crate::text::texts(out@).len() == out@.len());
    if out.len() == 0 {
        return None;
    }
    assert(crate::text::texts(out@).skip(0) =~= crate::text::texts(out@));
    let list = join_from(&out, 0, ", ");
    Some(concat2("Learned: ", list.as_str()))
}

/// An edit of a recent dictation into the window that still has the focus is
/// made as told, whatever was or was not answered about its risk: only prose and
/// a judgment below the floor are refused.
pub proof fn law_recent_edits_are_made(
    r: Router,
    v: Resolved,
    last: LastDictation,
    transcript: Seq<char>,
    focused: Option<Window>,
    now: u64,
)
    requires
        v.intent is EditText,
        r.last == Some(last),
        now - last.at <= r.edit_window_ms,
        focused matches Some(w) ==> w.id@ == last.window_id@,
    ensures
        ({
            let refused = v.signals matches Signals::Judged { confidence, dictation, .. } && ((
            dictation matches Some(p) && r.policy.dictation_threshold.le(p)) || confidence.lt(
                r.policy.min_confidence,
            ));
            let route = judged_of(r, Verdict::Act(v), transcript, focused, now);
            if refused {
                route is Fail
            } else {
                route == (RouteView::Rewrite { last, instruction: v.intent->instruction@ })
            }
        }),
{
}

/// "Scratch that" takes back the last dictation as long as it is recent and in
/// the window that still has the focus.
pub proof fn law_recent_dictation_is_taken_back(
    r: Router,
    last: LastDictation,
    transcript: Seq<char>,
    focused: Option<Window>,
    now: u64,
)
    requires
        r.last == Some(last),
        now - last.at <= r.edit_window_ms,
        focused matches Some(w) ==> w.id@ == last.window_id@,
    ensures
        route_of(r, transcript, Some(Intent::ScratchThat), focused, now) == RouteView::TakeBack(
            last,
        ),
{
}

/// A yes in time carries out what was asked about: a command on a window once
/// the window is looked up again, any other at once. A no drops it and says so.
pub proof fn law_answers_settle_the_prompt(
    r: Router,
    p: Pending,
    transcript: Seq<char>,
    focused: Option<Window>,
    now: u64,
)
    requires
        r.pending@ == Some(p),
        now <= p.deadline,
    ensures
        p.command is Window ==> route_of(r, transcript, Some(Intent::Confirm), focused, now)
            == RouteView::Recheck(p),
        !(p.command is Window) ==> route_of(r, transcript, Some(Intent::Confirm), focused, now)
            == RouteView::Execute(p.command),
        route_of(r, transcript, Some(Intent::Deny), focused, now) == RouteView::Done(
            "cancelled: "@ + p.describe@,
        ),
{
}

/// A command that the grammar matched is carried out, or asked about where it is
/// of the kinds that always ask; either way it is the command that was said.
pub proof fn law_grammar_commands_run_or_ask(
    r: Router,
    intent: Intent,
    command: Command,
    transcript: Seq<char>,
    focused: Option<Window>,
    now: u64,
)
    requires
        crate::desktop::command_of(intent) == Some(command),
    ensures
        ({
            let route = route_of(r, transcript, Some(intent), focused, now);
            if intent is CloseWindow || intent is RunShortcut || intent is ClaudeTell
                || intent is Key {
                route is Ask && route->Ask_command == command
            } else {
                route == RouteView::Execute(command)
            }
        }),
{
}

/// What the grammar does not know goes to the judge where there is one, and
/// fails where there is none.
pub proof fn law_unknown_words_go_to_the_judge(
    r: Router,
    transcript: Seq<char>,
    focused: Option<Window>,
    now: u64,
)
    ensures
        r.judge ==> route_of(r, transcript, None, focused, now) == RouteView::Judge,
        !r.judge ==> route_of(r, transcript, None, focused, now) is Fail,
{
}

/// A judged command is the one that was resolved: it is carried out where the
/// policy lets it act, asked about where the policy wants that, and fails where
/// it is refused.
pub proof fn law_judged_commands_follow_the_policy(
    r: Router,
    v: Resolved,
    command: Command,
    transcript: Seq<char>,
    focused: Option<Window>,
    now: u64,
)
    requires
        !(v.intent is EditText),
        crate::desktop::resolved_command(v.intent, v.window_id, v.entry_id) == Some(command),
    ensures
        ({
            let route = judged_of(r, Verdict::Act(v), transcript, focused, now);
            match r.policy.decision(v.intent@, v.signals) {
                DecisionView::Act => route == RouteView::Execute(command),
                DecisionView::Confirm { reason } => route == (RouteView::Ask { command, reason }),
                DecisionView::Refuse { .. } => route is Fail,
            }
        }),
{
}

/// Nothing is done about an utterance that was no command, or not clearly one.
pub proof fn law_no_verdict_no_action(
    r: Router,
    verdict: Verdict,
    transcript: Seq<char>,
    focused: Option<Window>,
    now: u64,
)
    requires
        !(verdict is Act),
    ensures
        judged_of(r, verdict, transcript, focused, now) is Fail,
{
}

/// The ending of a text is its last characters: as many as asked for, or all
/// of a shorter text.
pub proof fn law_ending_is_the_last_characters(s: Seq<char>, n: int, i: int)
    requires
        0 <= n,
    ensures
        ending(s, n).len() == if s.len() < n {
            s.len() as int
        } else {
            n
        },
        0 <= i < ending(s, n).len() ==> ending(s, n)[i] == s[s.len() - ending(s, n).len() + i],
{
}

/// The caret is never before the end of what was typed, and a caret read back
/// further on is believed.
pub proof fn law_caret_is_behind_what_was_typed(caret: int, typed: int, read: Option<i32>)
    ensures
        caret_after(caret, typed, read) >= caret + typed,
        read matches Some(c) ==> caret_after(caret, typed, read) >= c,
        caret_after(caret, typed, read) == caret + typed || read == Some(
            caret_after(caret, typed, read) as i32,
        ),
{
}

/// The corrections told of are those that went into the dictionary, in their
/// order, each as it was heard and as it is written.
pub proof fn law_promotions_are_told(learned: Seq<Learned>, l: Learned)
    ensures
        l.promoted ==> promoted_texts(learned.push(l)) == promoted_texts(learned).push(
            l.heard@ + " -> "@ + l.written@,
        ),
        !l.promoted ==> promoted_texts(learned.push(l)) == promoted_texts(learned),
        promoted_texts(Seq::empty()).len() == 0,
{
    assert(learned.push(l).drop_last() =~= learned);
}

/// The line on a deletion begins with how many characters were deleted, and
/// only a field that was read is called verified.
pub proof fn law_deletions_are_told_as_made(verified: Verified, typed: usize)
    ensures
        ({
            let n = match verified {
                Verified::Fuzzy { deleted } => deleted,
                _ => typed,
            };
            let lead = "took back "@ + crate::text::decimal(n as nat) + " characters ("@;
            let line = taken_back(verified, typed);
            &&& line.len() > lead.len()
            &&& line.take(lead.len() as int) == lead
            &&& line[lead.len() as int] == 'u' <==> verified is Blind
            &&& line[lead.len() as int] == 'v' <==> !(verified is Blind)
        }),
{
    let n = match verified {
        Verified::Fuzzy { deleted } => deleted,
        _ => typed,
    };
    let lead = "took back "@ + crate::text::decimal(n as nat) + " characters ("@;
    reveal_strlit(" characters (");
    reveal_strlit(" characters (verified)");
    reveal_strlit(" characters (verified; ");
    reveal_strlit(" characters (unverified)");
    assert(" characters (verified)"@.take(13) =~= " characters ("@);
    assert(" characters (verified; "@.take(13) =~= " characters ("@);
    assert(" characters (unverified)"@.take(13) =~= " characters ("@);
    let line = taken_back(verified, typed);
    let start = "took back "@ + crate::text::decimal(n as nat);
    assert forall|i: int| 0 <= i < lead.len() implies line[i] == lead[i] by {
        if i >= start.len() {
            let k = i - start.len();
            assert(" characters (verified)"@.take(13)[k] == " characters ("@[k]);
            assert(" characters (verified; "@.take(13)[k] == " characters ("@[k]);
            assert(" characters (unverified)"@.take(13)[k] == " characters ("@[k]);
        }
    }
    assert(line.take(lead.len() as int) =~= lead);
}

} // verus!
