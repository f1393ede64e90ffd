//! The one action waiting for a spoken "yes".
//!
//! Voice is an unauthenticated channel, so anything the policy wants confirmed
//! is parked here with a deadline and the id of the window it was described
//! against. Saying yes carries it out only if the deadline has not passed and
//! the target is still the window the prompt named; anything else said in
//! command mode drops it. Instants are passed in as milliseconds on a clock
//! that only moves forward.
use vstd::prelude::*;

use crate::desktop::{Command, Window};
use crate::text::{concat3, same};

verus! {

/// An action parked behind a confirmation prompt.
#[derive(Clone, Debug, PartialEq, Eq)]
pub struct Pending {
    pub command: Command,
    /// The window the prompt described, when the command acts on one. The
    /// confirmation is only good for this window.
    pub window_id: Option<String>,
    /// Why the policy asked, for the log.
    pub reason: String,
    /// What the prompt said would happen.
    pub describe: String,
    /// The last millisecond at which a yes counts.
    pub deadline: u64,
}

/// What a "yes" found waiting.
#[derive(Debug, PartialEq, Eq)]
pub enum Taken {
    Nothing,
    Expired(Pending),
    Live(Pending),
}

/// At most one action waits at a time; a new prompt replaces the old one.
#[derive(Debug)]
pub struct Confirmations {
    slot: Option<Pending>,
}

impl View for Confirmations {
    type V = Option<Pending>;

    closed spec fn view(&self) -> Option<Pending> {
        self.slot
    }
}

/// What a "yes" at `now` finds where `waiting` waits.
pub open spec fn taken_at(waiting: Option<Pending>, now: u64) -> Taken {
    match waiting {
        None => Taken::Nothing,
        Some(p) => if now > p.deadline {
            Taken::Expired(p)
        } else {
            Taken::Live(p)
        },
    }
}

impl Default for Confirmations {
    fn default() -> (r: Confirmations)
        ensures
            r@ is None,
    {
        Confirmations { slot: None }
    }
}

impl Confirmations {
    /// Park `pending`, returning whatever it replaced.
    pub fn arm(&mut self, pending: Pending) -> (r: Option<Pending>)
        ensures
            final(self)@ == Some(pending),
            r == old(self)@,
    {
        let replaced = self.slot.take();
        self.slot = Some(pending);
        replaced
    }

    /// Remove the parked action, sorted by whether `now` is still inside its
    /// window. Expired actions are handed back so the caller can say what was
    /// too late, but they are never live again.
    pub fn take(&mut self, now: u64) -> (r: Taken)
        ensures
            final(self)@ is None,
            r == taken_at(old(self)@, now),
    {
        match self.slot.take() {
            None => Taken::Nothing,
            Some(p) => {
                if now > p.deadline {
                    Taken::Expired(p)
                } else {
                    Taken::Live(p)
                }
            },
        }
    }

    /// Drop the parked action, returning it for the log.
    pub fn cancel(&mut self) -> (r: Option<Pending>)
        ensures
            final(self)@ is None,
            r == old(self)@,
    {
        self.slot.take()
    }
}

/// An action is carried out at most once, and never after its deadline: what
/// a yes takes is gone, and once the deadline has passed no later yes finds it
/// live.
pub proof fn law_expired_is_never_live(p: Pending, now: u64, later: u64)
    requires
        taken_at(Some(p), now) is Expired,
        now <= later,
    ensures
        taken_at(Some(p), later) is Expired,
        taken_at(None, later) == Taken::Nothing,
{
}

/// Why a confirmed action is not carried out.
#[derive(Clone, Debug, PartialEq, Eq)]
pub enum StaleTarget {
    /// The prompt's words now mean another window.
    Moved { describe: String, title: String },
    /// The window is gone.
    Gone { describe: String },
}

/// A [`StaleTarget`] as character sequences.
#[allow(inconsistent_fields)]
pub ghost enum StaleTargetView {
    Moved { describe: Seq<char>, title: Seq<char> },
    Gone { describe: Seq<char> },
}

impl View for StaleTarget {
    type V = StaleTargetView;

    open spec fn view(&self) -> StaleTargetView {
        match *self {
            StaleTarget::Moved { describe, title } => StaleTargetView::Moved {
                describe: describe@,
                title: title@,
            },
            StaleTarget::Gone { describe } => StaleTargetView::Gone { describe: describe@ },
        }
    }
}

impl StaleTarget {
    /// What is said of it.
    pub fn text(&self) -> (r: String)
        ensures
            r@ == match self@ {
                StaleTargetView::Moved { describe, title } => "not done: the prompt was about "@
                    + describe + ", but that now means '"@ + title + "'"@,
                StaleTargetView::Gone { describe } => "not done: the window from '"@ + describe
                    + "' is gone"@,
            },
    {
        match self {
            StaleTarget::Moved { describe, title } => {
                let mut out = concat3(
                    "not done: the prompt was about ",
                    describe.as_str(),
                    ", but that now means '",
                );
                out.append(title.as_str());
                out.append("'");
                out
            },
            StaleTarget::Gone { describe } => concat3(
                "not done: the window from '",
                describe.as_str(),
                "' is gone",
            ),
        }
    }
}

/// What stands in the way of `pending` when its target resolves to `current`
/// now: nothing when it names no window, or when that window is still the one.
pub open spec fn stale(pending: Pending, current: Option<Window>) -> Option<StaleTargetView> {
    match pending.window_id {
        None => None,
        Some(expected) => match current {
            Some(w) => if w.id@ == expected@ {
                None
            } else {
                Some(StaleTargetView::Moved { describe: pending.describe@, title: w.title@ })
            },
            None => Some(StaleTargetView::Gone { describe: pending.describe@ }),
        },
    }
}

/// The window behind an optional reference.
pub open spec fn opt_window(w: Option<&Window>) -> Option<Window> {
    match w {
        Some(w) => Some(*w),
        None => None,
    }
}

/// The window a confirmed command may touch: the one the prompt named, and
/// only if it is still what the target resolves to now. `current` is that
/// fresh resolution, None when it failed.
pub fn check_target(pending: &Pending, current: Option<&Window>) -> (r: Result<(), StaleTarget>)
    ensures
        match r {
            Ok(_) => stale(*pending, opt_window(current)) is None,
            Err(e) => stale(*pending, opt_window(current)) == Some(e@),
        },
{
    match &pending.window_id {
        None => Ok(()),
        Some(expected) => match current {
            Some(w) => {
                if same(w.id.as_str(), expected.as_str()) {
                    Ok(())
                } else {
                    Err(
                        StaleTarget::Moved {
                            describe: pending.describe.clone(),
                            title: w.title.clone(),
                        },
                    )
                }
            },
            None => Err(StaleTarget::Gone { describe: pending.describe.clone() }),
        },
    }
}

/// A yes up to the deadline finds the very action that was parked, and one
/// after it finds it too late.
pub proof fn law_yes_in_time_finds_what_was_parked(p: Pending, now: u64)
    ensures
        now <= p.deadline ==> taken_at(Some(p), now) == Taken::Live(p),
        now > p.deadline ==> taken_at(Some(p), now) == Taken::Expired(p),
{
}

/// A confirmed action that named a window goes ahead exactly on that window,
/// and one that named none has nothing to check.
pub proof fn law_only_the_named_window_is_touched(pending: Pending, current: Option<Window>)
    ensures
        stale(pending, current) is None <==> (pending.window_id matches Some(named) ==> (
        current matches Some(w) && w.id@ == named@)),
        pending.window_id is Some && current is None ==> stale(pending, current) is Some
            && stale(pending, current)->0 is Gone,
        pending.window_id is Some && stale(pending, current) is Some && current is Some ==> (
        stale(pending, current)->0 matches StaleTargetView::Moved { describe, title } && describe
            == pending.describe@ && title == current->0.title@),
{
}

} // verus!
