//! Confirmation policy: the one place that decides whether an intent runs,
//! asks first, or is refused.
//!
//! A literal grammar match brings an intent and nothing else; the judged path
//! brings an intent and the model's signals. One type holds the thresholds
//! and the rule, so a matched key chord and a judged one are gated alike.
use vstd::prelude::*;

use crate::config::{JudgeConfig, Thresholds};
use crate::double::Double;
use crate::intent::{intent_name, Intent, IntentView};
use crate::text::{concat2, concat3, same};

verus! {

/// The thresholds the rule compares against.
#[derive(Clone, Copy, Debug, PartialEq, Eq, Structural)]
pub struct Policy {
    /// Below this intent confidence, act on nothing.
    pub min_confidence: Double,
    /// At or above this, act without a confirmation prompt, unless the
    /// intent always confirms or is judged destructive.
    pub act_unconfirmed_above: Double,
    /// `is_dictation` at or above this means the wrong hotkey was held.
    pub dictation_threshold: Double,
    /// `is_destructive` at or above this forces spoken confirmation.
    pub destructive_threshold: Double,
}

/// The policy with these thresholds.
pub open spec fn policy_of(t: Thresholds) -> Policy {
    Policy {
        min_confidence: t.min_confidence,
        act_unconfirmed_above: t.act_unconfirmed_above,
        dictation_threshold: t.dictation_threshold,
        destructive_threshold: t.destructive_threshold,
    }
}

impl vstd::std_specs::convert::FromSpecImpl<Thresholds> for Policy {
    open spec fn obeys_from_spec() -> bool {
        true
    }

    open spec fn from_spec(t: Thresholds) -> Policy {
        policy_of(t)
    }
}

impl From<Thresholds> for Policy {
    fn from(t: Thresholds) -> (r: Policy) {
        Policy {
            min_confidence: t.min_confidence,
            act_unconfirmed_above: t.act_unconfirmed_above,
            dictation_threshold: t.dictation_threshold,
            destructive_threshold: t.destructive_threshold,
        }
    }
}

impl vstd::std_specs::convert::FromSpecImpl<&JudgeConfig> for Policy {
    open spec fn obeys_from_spec() -> bool {
        true
    }

    open spec fn from_spec(cfg: &JudgeConfig) -> Policy {
        policy_of(cfg.resolved())
    }
}

impl From<&JudgeConfig> for Policy {
    fn from(cfg: &JudgeConfig) -> (r: Policy) {
        Policy::from(cfg.thresholds())
    }
}

impl Default for Policy {
    /// The policy of a config that sets nothing.
    fn default() -> (r: Policy)
        ensures
            r == policy_of(crate::config::local_thresholds()),
    {
        Policy::from(&JudgeConfig::default())
    }
}

/// Where an intent's risk comes from. Most intents decide it themselves:
/// focusing a window destroys nothing, and closing one asks first whatever a
/// model would say. Only a run command and an edit of dictated text are for
/// the model to judge.
#[derive(Clone, Copy, Debug, PartialEq, Eq, Structural)]
pub enum Risk {
    /// Cannot destroy work: the judged path reports probability 0 unasked.
    Never,
    /// The intent always asks first, so a judgment is not sought.
    AlwaysConfirmed,
    /// The model is asked `is_destructive`.
    Judged,
}

/// The names of the intents that cannot destroy work.
pub open spec fn never_risky(name: Seq<char>) -> bool {
    ||| name == "show_app"@
    ||| name == "launch_app"@
    ||| name == "focus_window"@
    ||| name == "open_terminal"@
    ||| name == "start_claude"@
    ||| name == "claude_model"@
    ||| name == "claude_read"@
    ||| name == "virtual_desktop"@
    ||| name == "virtual_desktop_rel"@
    ||| name == "notify"@
    ||| name == "minimize_window"@
    ||| name == "maximize_window"@
    ||| name == "scratch_that"@
    ||| name == "confirm"@
    ||| name == "deny"@
}

/// The names of the intents that always ask first.
pub open spec fn always_confirmed(name: Seq<char>) -> bool {
    ||| name == "close_window"@
    ||| name == "key"@
    ||| name == "claude_tell"@
    ||| name == "run_shortcut"@
}

/// The risk of the intent with the judge's name `name`.
pub open spec fn risk_of(name: Seq<char>) -> Risk {
    if never_risky(name) {
        Risk::Never
    } else if always_confirmed(name) {
        Risk::AlwaysConfirmed
    } else {
        Risk::Judged
    }
}

/// The risk rule for an intent by the judge's name for it (`show_app` covers
/// launching and focusing). Names the judge cannot build are treated as
/// judged, so a new intent asks until it is placed here.
pub fn risk_rule(name: &str) -> (r: Risk)
    ensures
        r == risk_of(name@),
{
    if same(name, "show_app") || same(name, "launch_app") || same(name, "focus_window") || same(
        name,
        "open_terminal",
    ) || same(name, "start_claude") || same(name, "claude_model") || same(name, "claude_read")
        || same(name, "virtual_desktop") || same(name, "virtual_desktop_rel") || same(name, "notify")
        || same(name, "minimize_window") || same(name, "maximize_window") || same(
        name,
        "scratch_that",
    ) || same(name, "confirm") || same(name, "deny") {
        Risk::Never
    } else if same(name, "close_window") || same(name, "key") || same(name, "claude_tell") || same(
        name,
        "run_shortcut",
    ) {
        Risk::AlwaysConfirmed
    } else {
        Risk::Judged
    }
}

/// The two lists agree: an intent always asks exactly when the rule by its
/// name says that it is always confirmed.
pub proof fn law_risk_agrees_with_always_asks(intent: IntentView)
    ensures
        intent.always_asks() <==> risk_of(intent.name()) == Risk::AlwaysConfirmed,
{
    reveal_strlit("show_app");
    reveal_strlit("launch_app");
    reveal_strlit("focus_window");
    reveal_strlit("open_terminal");
    reveal_strlit("start_claude");
    reveal_strlit("claude_model");
    reveal_strlit("claude_read");
    reveal_strlit("virtual_desktop");
    reveal_strlit("virtual_desktop_rel");
    reveal_strlit("notify");
    reveal_strlit("minimize_window");
    reveal_strlit("maximize_window");
    reveal_strlit("scratch_that");
    reveal_strlit("confirm");
    reveal_strlit("deny");
    reveal_strlit("close_window");
    reveal_strlit("key");
    reveal_strlit("claude_tell");
    reveal_strlit("run_shortcut");
    reveal_strlit("krunner");
    reveal_strlit("edit_text");
    let name = intent.name();
    if intent.always_asks() {
        if name.len() == 3 {
        } else if name.len() == 11 {
            assert(name[1] == 'l' && name[7] == 't');
        } else {
            assert(name.len() == 12);
            assert(name[0] == 'c' && name[1] == 'l' && name[2] == 'o' || name[0] == 'r');
        }
    } else {
        if name.len() == 12 {
            assert(name[0] != 'r');
            assert(name[1] != 'l' || name[2] != 'o');
        }
        if name.len() == 11 {
            assert(name[7] != 't');
        }
    }
}

/// What is known about how an intent was obtained.
#[derive(Clone, Copy, Debug, PartialEq, Eq, Structural)]
pub enum Signals {
    /// A literal grammar match: exact by construction, and nobody asked the
    /// model anything, so only the intent's own rule applies.
    Grammar,
    /// The judged path. Each `None` is a question the model did not answer.
    Judged {
        /// Weakest-link confidence across the intent and its arguments.
        confidence: Double,
        /// Probability that carrying this out destroys work.
        destructive: Option<Double>,
        /// Probability that the utterance was prose, not a command.
        dictation: Option<Double>,
    },
}

/// What happens to an intent.
#[derive(Clone, Debug, PartialEq, Eq)]
pub enum Decision {
    Act,
    /// Ask before executing.
    Confirm { reason: String },
    /// Do not execute, even if confirmed.
    Refuse { reason: String },
}

/// A [`Decision`] with its reason as a character sequence.
pub ghost enum DecisionView {
    Act,
    Confirm { reason: Seq<char> },
    Refuse { reason: Seq<char> },
}

impl View for Decision {
    type V = DecisionView;

    open spec fn view(&self) -> DecisionView {
        match *self {
            Decision::Act => DecisionView::Act,
            Decision::Confirm { reason } => DecisionView::Confirm { reason: reason@ },
            Decision::Refuse { reason } => DecisionView::Refuse { reason: reason@ },
        }
    }
}

impl Policy {
    /// Whether the utterance was judged to be dictation.
    pub open spec fn prose(self, dictation: Option<Double>) -> bool {
        dictation matches Some(p) && self.dictation_threshold.le(p)
    }

    /// Was the utterance judged to be dictation rather than a command?
    pub fn is_prose(&self, dictation: Option<Double>) -> (r: bool)
        ensures
            r == self.prose(dictation),
    {
        match dictation {
            Some(p) => p.at_least(self.dictation_threshold),
            None => false,
        }
    }

    /// What happens to `intent`.
    pub open spec fn decision(self, intent: IntentView, signals: Signals) -> DecisionView {
        let always = DecisionView::Confirm { reason: intent.name() + " always confirms"@ };
        match signals {
            Signals::Grammar => if intent.always_asks() {
                always
            } else {
                DecisionView::Act
            },
            Signals::Judged { confidence, destructive, dictation } => {
                if self.prose(dictation) {
                    DecisionView::Refuse { reason: "that sounded like dictation, not a command"@ }
                } else if confidence.lt(self.min_confidence) {
                    DecisionView::Refuse {
                        reason: "confidence "@ + confidence.two_decimals() + " is below the "@
                            + self.min_confidence.two_decimals() + " floor"@,
                    }
                } else if intent.always_asks() {
                    always
                } else if destructive is None {
                    DecisionView::Confirm { reason: "the model gave no safety judgment"@ }
                } else if self.destructive_threshold.le(destructive->0) {
                    DecisionView::Confirm {
                        reason: "judged destructive ("@ + destructive->0.two_decimals() + ")"@,
                    }
                } else if dictation is None {
                    DecisionView::Confirm {
                        reason: "the model did not say whether this was dictation"@,
                    }
                } else if confidence.lt(self.act_unconfirmed_above) {
                    DecisionView::Confirm {
                        reason: "confidence "@ + confidence.two_decimals() + " is below the "@
                            + self.act_unconfirmed_above.two_decimals()
                            + " needed to act unasked"@,
                    }
                } else {
                    DecisionView::Act
                }
            },
        }
    }

    /// Whether `intent` runs, asks first, or is refused.
    pub fn decide(&self, intent: &Intent, signals: &Signals) -> (r: Decision)
        ensures
            r@ == self.decision(intent@, *signals),
    {
        match signals {
            Signals::Grammar => {
                if intent.needs_confirmation() {
                    Decision::Confirm { reason: concat2(intent_name(intent), " always confirms") }
                } else {
                    Decision::Act
                }
            },
            Signals::Judged { confidence, destructive, dictation } => {
                if self.is_prose(*dictation) {
                    return Decision::Refuse {
                        reason: "that sounded like dictation, not a command".to_string(),
                    };
                }
                if confidence.less(self.min_confidence) {
                    return Decision::Refuse {
                        reason: below(*confidence, self.min_confidence, " floor"),
                    };
                }
                // Being confident about a destructive request is not
                // permission to carry it out, so risk alone forces the
                // prompt; so does not knowing the risk.
                if intent.needs_confirmation() {
                    return Decision::Confirm {
                        reason: concat2(intent_name(intent), " always confirms"),
                    };
                }
                match destructive {
                    None => {
                        return Decision::Confirm {
                            reason: "the model gave no safety judgment".to_string(),
                        };
                    },
                    Some(p) => {
                        if p.at_least(self.destructive_threshold) {
                            let shown = p.shown();
                            return Decision::Confirm {
                                reason: concat3("judged destructive (", shown.as_str(), ")"),
                            };
                        }
                    },
                }
                if dictation.is_none() {
                    return Decision::Confirm {
                        reason: "the model did not say whether this was dictation".to_string(),
                    };
                }
                if confidence.less(self.act_unconfirmed_above) {
                    return Decision::Confirm {
                        reason: below(
                            *confidence,
                            self.act_unconfirmed_above,
                            " needed to act unasked",
                        ),
                    };
                }
                Decision::Act
            },
        }
    }
}

/// "confidence 0.20 is below the 0.35" and a tail.
fn below(confidence: Double, floor: Double, tail: &str) -> (r: String)
    ensures
        r@ == "confidence "@ + confidence.two_decimals() + " is below the "@ + floor.two_decimals()
            + tail@,
{
    let a = confidence.shown();
    let b = floor.shown();
    let mut out = concat3("confidence ", a.as_str(), " is below the ");
    out.append(b.as_str());
    out.append(tail);
    out
}

/// An intent that always asks never runs unasked, however it was obtained
/// and whatever was judged of it.
pub proof fn law_always_asking_never_acts(policy: Policy, intent: IntentView, signals: Signals)
    requires
        intent.always_asks(),
    ensures
        policy.decision(intent, signals) != DecisionView::Act,
{
}

/// A judged intent runs unasked only when both safety questions were
/// answered: an answer that is missing is never read as safe.
pub proof fn law_missing_safety_answers_never_act(
    policy: Policy,
    intent: IntentView,
    confidence: Double,
    destructive: Option<Double>,
    dictation: Option<Double>,
)
    requires
        destructive is None || dictation is None,
    ensures
        policy.decision(intent, Signals::Judged { confidence, destructive, dictation })
            != DecisionView::Act,
{
}

/// What was judged destructive never runs unasked, however confident the
/// judgment of the intent was.
pub proof fn law_destructive_never_acts(
    policy: Policy,
    intent: IntentView,
    confidence: Double,
    p: Double,
    dictation: Option<Double>,
)
    requires
        policy.destructive_threshold.le(p),
    ensures
        policy.decision(
            intent,
            Signals::Judged { confidence, destructive: Some(p), dictation },
        ) != DecisionView::Act,
{
}

/// Prose is refused, and so is an intent below the confidence floor: no yes
/// can carry them out.
pub proof fn law_prose_and_low_confidence_are_refused(
    policy: Policy,
    intent: IntentView,
    confidence: Double,
    destructive: Option<Double>,
    dictation: Option<Double>,
)
    requires
        policy.prose(dictation) || confidence.lt(policy.min_confidence),
    ensures
        policy.decision(intent, Signals::Judged { confidence, destructive, dictation }) is Refuse,
{
}

/// A judged intent runs unasked exactly when both safety questions were
/// answered and neither answer reaches its threshold, the confidence reaches
/// both of its own, and the intent is not one that always asks.
pub proof fn law_runs_unasked_exactly_when_safe(
    policy: Policy,
    intent: Intent,
    confidence: Double,
    destructive: Option<Double>,
    dictation: Option<Double>,
)
    ensures
        policy.decision(intent@, Signals::Judged { confidence, destructive, dictation })
            == DecisionView::Act <==> {
            &&& !(intent is CloseWindow || intent is RunShortcut || intent is ClaudeTell
                || intent is Key)
            &&& destructive matches Some(p) && !policy.destructive_threshold.le(p)
            &&& dictation matches Some(p) && !policy.dictation_threshold.le(p)
            &&& !confidence.lt(policy.min_confidence)
            &&& !confidence.lt(policy.act_unconfirmed_above)
        },
{
}

/// A judged intent is refused exactly when it is prose or below the floor; what
/// is neither refused nor run is asked about.
pub proof fn law_refused_exactly_when_prose_or_unsure(
    policy: Policy,
    intent: IntentView,
    confidence: Double,
    destructive: Option<Double>,
    dictation: Option<Double>,
)
    ensures
        policy.decision(intent, Signals::Judged { confidence, destructive, dictation }) is Refuse
            <==> (dictation matches Some(p) && policy.dictation_threshold.le(p))
            || confidence.lt(policy.min_confidence),
{
}

/// What the grammar matched is never refused: it runs, unless it is of the
/// kinds that always ask.
pub proof fn law_grammar_matches_run_or_ask(policy: Policy, intent: Intent)
    ensures
        policy.decision(intent@, Signals::Grammar) == DecisionView::Act <==> !(
        intent is CloseWindow || intent is RunShortcut || intent is ClaudeTell || intent is Key),
        !(policy.decision(intent@, Signals::Grammar) is Refuse),
{
}

/// More certainty never makes the policy stricter: what runs unasked still does
/// with more confidence and less risk, and what is not refused is not refused
/// with more confidence.
pub proof fn law_policy_is_monotone(
    policy: Policy,
    intent: IntentView,
    confidence: Double,
    more: Double,
    risk: Double,
    less: Double,
    dictation: Option<Double>,
)
    requires
        confidence.le(more),
        less.le(risk),
    ensures
        policy.decision(
            intent,
            Signals::Judged { confidence, destructive: Some(risk), dictation },
        ) == DecisionView::Act ==> policy.decision(
            intent,
            Signals::Judged { confidence: more, destructive: Some(less), dictation },
        ) == DecisionView::Act,
        policy.decision(
            intent,
            Signals::Judged { confidence: more, destructive: Some(risk), dictation },
        ) is Refuse ==> policy.decision(
            intent,
            Signals::Judged { confidence, destructive: Some(risk), dictation },
        ) is Refuse,
{
}

/// Each threshold of the config is the policy's threshold for the same thing.
pub proof fn law_thresholds_keep_their_places(t: Thresholds)
    ensures
        policy_of(t).min_confidence == t.min_confidence,
        policy_of(t).act_unconfirmed_above == t.act_unconfirmed_above,
        policy_of(t).dictation_threshold == t.dictation_threshold,
        policy_of(t).destructive_threshold == t.destructive_threshold,
{
}

} // verus!
