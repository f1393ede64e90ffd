//! Measuring the judge: how often a corpus of cases comes out right, and
//! which thresholds would score best on it.
use vstd::prelude::*;

use crate::corpus::{Course, Outcome, OutcomeView, DICTATION};
use crate::double::Double;
use crate::policy::{DecisionView, Policy};
use crate::text::same;

verus! {

/// The thresholds tried: the multiples of 0.05 from 0.05 to 0.95, as doubles
/// by their bit patterns.
pub const GRID: [u64; 19] = [
    0x3fa9_9999_9999_999a,
    0x3fb9_9999_9999_999a,
    0x3fc3_3333_3333_3334,
    0x3fc9_9999_9999_999a,
    0x3fd0_0000_0000_0000,
    0x3fd3_3333_3333_3334,
    0x3fd6_6666_6666_6667,
    0x3fd9_9999_9999_999a,
    0x3fdc_cccc_cccc_cccd,
    0x3fe0_0000_0000_0000,
    0x3fe1_9999_9999_999a,
    0x3fe3_3333_3333_3334,
    0x3fe4_cccc_cccc_cccd,
    0x3fe6_6666_6666_6667,
    0x3fe8_0000_0000_0000,
    0x3fe9_9999_9999_999a,
    0x3feb_3333_3333_3334,
    0x3fec_cccc_cccc_cccd,
    0x3fee_6666_6666_6667,
];

/// The same thresholds, each the double nearest to its two decimals.
pub const SHOWN: [u64; 19] = [
    0x3fa9_9999_9999_999a,
    0x3fb9_9999_9999_999a,
    0x3fc3_3333_3333_3333,
    0x3fc9_9999_9999_999a,
    0x3fd0_0000_0000_0000,
    0x3fd3_3333_3333_3333,
    0x3fd6_6666_6666_6666,
    0x3fd9_9999_9999_999a,
    0x3fdc_cccc_cccc_cccd,
    0x3fe0_0000_0000_0000,
    0x3fe1_9999_9999_999a,
    0x3fe3_3333_3333_3333,
    0x3fe4_cccc_cccc_cccd,
    0x3fe6_6666_6666_6666,
    0x3fe8_0000_0000_0000,
    0x3fe9_9999_9999_999a,
    0x3feb_3333_3333_3333,
    0x3fec_cccc_cccc_cccd,
    0x3fee_6666_6666_6666,
];

/// The lower edges of the histogram's buckets from the second on: the least
/// double whose tenfold, rounded, reaches the bucket's number.
pub const EDGES: [u64; 9] = [
    0x3fb9_9999_9999_999a,
    0x3fc9_9999_9999_999a,
    0x3fd3_3333_3333_3333,
    0x3fd9_9999_9999_999a,
    0x3fe0_0000_0000_0000,
    0x3fe3_3333_3333_3333,
    0x3fe6_6666_6666_6666,
    0x3fe9_9999_9999_999a,
    0x3fec_cccc_cccc_cccc,
];

/// The threshold `i` of the grid.
pub open spec fn grid_at(i: int) -> Double {
    Double { bits: GRID@[i] }
}

/// The threshold `i` of the grid as its two decimals give it.
pub open spec fn shown_at(i: int) -> Double {
    Double { bits: SHOWN@[i] }
}

/// The views of outcomes.
pub open spec fn outcome_views<'a>(v: Seq<Outcome<'a>>) -> Seq<OutcomeView> {
    v.map_values(|o: Outcome<'a>| o@)
}

/// A thing that is counted over the outcomes.
pub ghost enum Measure {
    /// Right in every respect.
    Right,
    /// Expects something to be done.
    Action,
    /// Expects something to be done, and the intent is right.
    IntentRight,
    /// And the arguments too.
    ArgsRight,
    /// Names a target.
    Targeted,
    /// Names a target, and it is the right one.
    TargetRight,
    /// Expects a refusal.
    Refusal,
    /// Expects a refusal and got it.
    RefusalRight,
    /// Is prose.
    Prose,
    /// Is prose and was recognised as such.
    ProseAsProse,
    /// Is prose and was refused.
    ProseRefused,
    /// Comes to this course, and is right or not.
    Comes(Course, bool),
    /// Would be refused though an action was expected and is right.
    RefusedRight,
}

impl Measure {
    /// Whether an outcome counts.
    pub open spec fn holds(self, o: OutcomeView, policy: Policy) -> bool {
        match self {
            Measure::Right => o.right(),
            Measure::Action => crate::corpus::wants_action(o.expect),
            Measure::IntentRight => crate::corpus::wants_action(o.expect) && o.intent_ok,
            Measure::ArgsRight => crate::corpus::wants_action(o.expect) && o.intent_ok
                && o.args_ok,
            Measure::Targeted => o.names_target,
            Measure::TargetRight => o.names_target && o.target_ok == Some(true),
            Measure::Refusal => !crate::corpus::wants_action(o.expect),
            Measure::RefusalRight => !crate::corpus::wants_action(o.expect) && o.right(),
            Measure::Prose => o.expect == DICTATION@,
            Measure::ProseAsProse => o.expect == DICTATION@ && policy.prose(o.dictation),
            Measure::ProseRefused => o.expect == DICTATION@ && o.right(),
            Measure::Comes(course, right) => crate::corpus::course_of(o.decision(policy))
                == course && o.right() == right,
            Measure::RefusedRight => crate::corpus::course_of(o.decision(policy))
                == Course::Refuse && o.right() && crate::corpus::wants_action(o.expect),
        }
    }
}

/// How many outcomes count.
pub open spec fn tally(s: Seq<OutcomeView>, m: Measure, policy: Policy) -> nat
    decreases s.len(),
{
    if s.len() == 0 {
        0
    } else {
        tally(s.drop_last(), m, policy) + if m.holds(s.last(), policy) {
            1nat
        } else {
            0
        }
    }
}

/// How the outcomes came out.
#[derive(Clone, Copy, Debug, PartialEq, Eq, Structural)]
pub struct Totals {
    pub judged: usize,
    pub right: usize,
    pub actions: usize,
    pub intent_right: usize,
    pub args_right: usize,
    pub targeted: usize,
    pub target_right: usize,
    pub refusals: usize,
    pub refusal_right: usize,
    pub prose: usize,
    pub prose_as_prose: usize,
    pub prose_refused: usize,
}

impl Totals {
    /// The counts of these outcomes.
    pub open spec fn counts(self, s: Seq<OutcomeView>, policy: Policy) -> bool {
        &&& self.judged == s.len()
        &&& self.right == tally(s, Measure::Right, policy)
        &&& self.actions == tally(s, Measure::Action, policy)
        &&& self.intent_right == tally(s, Measure::IntentRight, policy)
        &&& self.args_right == tally(s, Measure::ArgsRight, policy)
        &&& self.targeted == tally(s, Measure::Targeted, policy)
        &&& self.target_right == tally(s, Measure::TargetRight, policy)
        &&& self.refusals == tally(s, Measure::Refusal, policy)
        &&& self.refusal_right == tally(s, Measure::RefusalRight, policy)
        &&& self.prose == tally(s, Measure::Prose, policy)
        &&& self.prose_as_prose == tally(s, Measure::ProseAsProse, policy)
        &&& self.prose_refused == tally(s, Measure::ProseRefused, policy)
    }

    /// No count is above the number of outcomes.
    pub open spec fn bounded(self) -> bool {
        &&& self.right <= self.judged
        &&& self.actions <= self.judged
        &&& self.intent_right <= self.judged
        &&& self.args_right <= self.judged
        &&& self.targeted <= self.judged
        &&& self.target_right <= self.judged
        &&& self.refusals <= self.judged
        &&& self.refusal_right <= self.judged
        &&& self.prose <= self.judged
        &&& self.prose_as_prose <= self.judged
        &&& self.prose_refused <= self.judged
    }
}

fn one_if(b: bool) -> (r: usize)
    ensures
        r == if b {
            1int
        } else {
            0
        },
{
    if b {
        1
    } else {
        0
    }
}

/// Counts how the outcomes came out.
pub fn totals<'a>(outcomes: &Vec<Outcome<'a>>, policy: &Policy) -> (r: Totals)
    ensures
        r.counts(outcome_views(outcomes@), *policy),
        r.bounded(),
{
    let ghost all = outcome_views(outcomes@);
    let mut t = Totals {
        judged: 0,
        right: 0,
        actions: 0,
        intent_right: 0,
        args_right: 0,
        targeted: 0,
        target_right: 0,
        refusals: 0,
        refusal_right: 0,
        prose: 0,
        prose_as_prose: 0,
        prose_refused: 0,
    };
    while t.judged < outcomes.len()
        invariant
            t.judged <= outcomes@.len(),
            all == outcome_views(outcomes@),
            t.counts(all.take(t.judged as int), *policy),
            t.bounded(),
        decreases outcomes@.len() - t.judged,
    {
        let o = &outcomes[t.judged];
        proof {
            assert(all.take(t.judged + 1).drop_last() =~= all.take(t.judged as int));
            assert(all.take(t.judged + 1).last() == o@);
        }
        let right = o.right();
        let action = o.expects_action();
        let target = o.case.target.is_some();
        let prose = same(o.case.expect.as_str(), DICTATION);
        let hit = match o.target_ok {
            Some(ok) => ok,
            None => false,
        };
        let called = policy.is_prose(o.dictation);
        t =
        Totals {
            judged: t.judged + 1,
            right: t.right + one_if(right),
            actions: t.actions + one_if(action),
            intent_right: t.intent_right + one_if(action && o.intent_ok),
            args_right: t.args_right + one_if(action && o.intent_ok && o.args_ok),
            targeted: t.targeted + one_if(target),
            target_right: t.target_right + one_if(target && hit),
            refusals: t.refusals + one_if(!action),
            refusal_right: t.refusal_right + one_if(!action && right),
            prose: t.prose + one_if(prose),
            prose_as_prose: t.prose_as_prose + one_if(prose && called),
            prose_refused: t.prose_refused + one_if(prose && right),
        };
    }
    assert(all.take(t.judged as int) =~= all);
    t
}

/// Every case expects an action or a refusal, and what is right among the
/// cases is right among the actions or among the refusals.
pub proof fn law_actions_and_refusals_make_up_the_corpus(s: Seq<OutcomeView>, policy: Policy)
    ensures
        tally(s, Measure::Action, policy) + tally(s, Measure::Refusal, policy) == s.len(),
        tally(s, Measure::ArgsRight, policy) <= tally(s, Measure::IntentRight, policy),
        tally(s, Measure::IntentRight, policy) <= tally(s, Measure::Action, policy),
        tally(s, Measure::TargetRight, policy) <= tally(s, Measure::Targeted, policy),
        tally(s, Measure::RefusalRight, policy) <= tally(s, Measure::Refusal, policy),
    decreases s.len(),
{
    if s.len() > 0 {
        law_actions_and_refusals_make_up_the_corpus(s.drop_last(), policy);
    }
}

/// What one outcome adds to the score of a policy: a right act counts one, a
/// wrong one takes five, a right one that asks takes one, and a right one
/// that is refused though an action was expected takes two.
pub open spec fn points(o: OutcomeView, policy: Policy) -> int {
    match (crate::corpus::course_of(o.decision(policy)), o.right()) {
        (Course::Act, true) => 1,
        (Course::Act, false) => -5,
        (Course::Ask, true) => -1,
        (Course::Refuse, true) => if crate::corpus::wants_action(o.expect) {
            -2
        } else {
            0
        },
        _ => 0,
    }
}

/// The score of a policy over the corpus.
pub open spec fn score_of(s: Seq<OutcomeView>, policy: Policy) -> int
    decreases s.len(),
{
    if s.len() == 0 {
        0
    } else {
        score_of(s.drop_last(), policy) + points(s.last(), policy)
    }
}

/// The score of a policy over the corpus.
pub fn score<'a>(outcomes: &Vec<Outcome<'a>>, policy: &Policy) -> (r: i64)
    requires
        5 * outcomes@.len() <= i64::MAX,
    ensures
        r == score_of(outcome_views(outcomes@), *policy),
        -5 * outcomes@.len() <= r <= outcomes@.len(),
{
    let ghost all = outcome_views(outcomes@);
    let mut s: i64 = 0;
    let mut i: usize = 0;
    while i < outcomes.len()
        invariant
            i <= outcomes@.len(),
            5 * outcomes@.len() <= i64::MAX,
            all == outcome_views(outcomes@),
            s == score_of(all.take(i as int), *policy),
            -5 * i <= s <= i,
        decreases outcomes@.len() - i,
    {
        let o = &outcomes[i];
        proof {
            assert(all.take(i + 1).drop_last() =~= all.take(i as int));
            assert(all.take(i + 1).last() == o@);
        }
        let course = crate::corpus::course(&o.decide(policy));
        let right = o.right();
        match course {
            Course::Act => {
                if right {
                    s = s + 1;
                } else {
                    s = s - 5;
                }
            },
            Course::Ask => {
                if right {
                    s = s - 1;
                }
            },
            Course::Refuse => {
                if right && o.expects_action() {
                    s = s - 2;
                }
            },
        }
        i = i + 1;
    }
    assert(all.take(i as int) =~= all);
    s
}

/// What a policy does with the corpus.
#[derive(Clone, Copy, Debug, PartialEq, Eq, Structural)]
pub struct Breakdown {
    pub act_right: usize,
    pub act_wrong: usize,
    pub ask_right: usize,
    pub ask_wrong: usize,
    pub refuse_right: usize,
}

impl Breakdown {
    /// The counts of these outcomes.
    pub open spec fn counts(self, s: Seq<OutcomeView>, policy: Policy) -> bool {
        &&& self.act_right == tally(s, Measure::Comes(Course::Act, true), policy)
        &&& self.act_wrong == tally(s, Measure::Comes(Course::Act, false), policy)
        &&& self.ask_right == tally(s, Measure::Comes(Course::Ask, true), policy)
        &&& self.ask_wrong == tally(s, Measure::Comes(Course::Ask, false), policy)
        &&& self.refuse_right == tally(s, Measure::RefusedRight, policy)
    }
}

/// What a policy does with the corpus.
pub fn breakdown<'a>(outcomes: &Vec<Outcome<'a>>, policy: &Policy) -> (r: Breakdown)
    ensures
        r.counts(outcome_views(outcomes@), *policy),
{
    let ghost all = outcome_views(outcomes@);
    let mut b = Breakdown {
        act_right: 0,
        act_wrong: 0,
        ask_right: 0,
        ask_wrong: 0,
        refuse_right: 0,
    };
    let mut i: usize = 0;
    while i < outcomes.len()
        invariant
            i <= outcomes@.len(),
            all == outcome_views(outcomes@),
            b.counts(all.take(i as int), *policy),
            b.act_right <= i,
            b.act_wrong <= i,
            b.ask_right <= i,
            b.ask_wrong <= i,
            b.refuse_right <= i,
        decreases outcomes@.len() - i,
    {
        let o = &outcomes[i];
        proof {
            assert(all.take(i + 1).drop_last() =~= all.take(i as int));
            assert(all.take(i + 1).last() == o@);
        }
        let course = crate::corpus::course(&o.decide(policy));
        let right = o.right();
        b =
        Breakdown {
            act_right: b.act_right + one_if(course == Course::Act && right),
            act_wrong: b.act_wrong + one_if(course == Course::Act && !right),
            ask_right: b.ask_right + one_if(course == Course::Ask && right),
            ask_wrong: b.ask_wrong + one_if(course == Course::Ask && !right),
            refuse_right: b.refuse_right + one_if(
                course == Course::Refuse && right && o.expects_action(),
            ),
        };
        i = i + 1;
    }
    assert(all.take(i as int) =~= all);
    b
}

/// The score is what the breakdown says: right acts, minus five times the
/// wrong ones, minus the right ones that ask, minus twice those refused.
pub proof fn law_score_is_the_breakdown(s: Seq<OutcomeView>, policy: Policy)
    ensures
        score_of(s, policy) == tally(s, Measure::Comes(Course::Act, true), policy) - 5 * tally(
            s,
            Measure::Comes(Course::Act, false),
            policy,
        ) - tally(s, Measure::Comes(Course::Ask, true), policy) - 2 * tally(
            s,
            Measure::RefusedRight,
            policy,
        ),
    decreases s.len(),
{
    if s.len() > 0 {
        law_score_is_the_breakdown(s.drop_last(), policy);
    }
}

/// The score of one pair of thresholds, by their places in the grid.
#[derive(Clone, Copy, Debug, PartialEq, Eq, Structural)]
pub struct Cell {
    pub min: usize,
    pub act: usize,
    pub score: i64,
}

/// The policy with the floor and the level to act at of these places.
pub open spec fn swept(policy: Policy, min: int, act: int) -> Policy {
    Policy { min_confidence: grid_at(min), act_unconfirmed_above: grid_at(act), ..policy }
}

/// The cell of these places.
pub open spec fn cell_at(s: Seq<OutcomeView>, policy: Policy, min: int, act: int) -> Cell {
    Cell {
        min: min as usize,
        act: act as usize,
        score: score_of(s, swept(policy, min, act)) as i64,
    }
}

/// The cells of one floor: the floor never exceeds the level to act at.
pub open spec fn row_of(s: Seq<OutcomeView>, policy: Policy, min: int) -> Seq<Cell> {
    Seq::new((19 - min) as nat, |d: int| cell_at(s, policy, min, min + d))
}

/// The cells of the first `n` floors, floor by floor.
pub open spec fn table_of(s: Seq<OutcomeView>, policy: Policy, n: int) -> Seq<Cell>
    decreases n,
{
    if n <= 0 {
        Seq::empty()
    } else {
        table_of(s, policy, n - 1) + row_of(s, policy, n - 1)
    }
}

/// The highest score of a table.
pub open spec fn top_score(t: Seq<Cell>) -> int
    decreases t.len(),
{
    if t.len() == 0 {
        i64::MIN as int
    } else {
        let rest = top_score(t.drop_last());
        if t.last().score > rest {
            t.last().score as int
        } else {
            rest
        }
    }
}

/// The cells with the highest score, in the order of the table.
pub open spec fn tied_of(t: Seq<Cell>) -> Seq<Cell> {
    t.filter(|c: Cell| c.score == top_score(t))
}

/// The floors of cells, each once where equal ones stand together.
pub open spec fn floors_of(t: Seq<Cell>) -> Seq<usize>
    decreases t.len(),
{
    if t.len() == 0 {
        Seq::empty()
    } else {
        let rest = floors_of(t.drop_last());
        if rest.len() > 0 && rest.last() == t.last().min {
            rest
        } else {
            rest.push(t.last().min)
        }
    }
}

/// The levels to act at of the cells with the floor `min`.
pub open spec fn acts_of(t: Seq<Cell>, min: usize) -> Seq<usize> {
    t.filter(|c: Cell| c.min == min).map_values(|c: Cell| c.act)
}

/// What a sweep over the grid found.
#[derive(Clone, Debug)]
pub struct Sweep {
    /// Every pair with its score, floor by floor.
    pub table: Vec<Cell>,
    /// The highest score.
    pub best: i64,
    /// How many pairs have it.
    pub tied: usize,
    /// The floors among those pairs.
    pub floors: Vec<usize>,
    /// The middle one of them.
    pub floor: usize,
    /// The levels to act at among those pairs at that floor.
    pub acts: Vec<usize>,
    /// The middle one of them.
    pub act: usize,
}

impl Sweep {
    /// What the sweep of these outcomes finds.
    pub open spec fn describes(self, s: Seq<OutcomeView>, policy: Policy) -> bool {
        let t = table_of(s, policy, 19);
        &&& self.table@ == t
        &&& self.best == top_score(t)
        &&& self.tied == tied_of(t).len()
        &&& self.floors@ == floors_of(tied_of(t))
        &&& self.floors@.len() > 0
        &&& self.floor == self.floors@[self.floors@.len() as int / 2]
        &&& self.acts@ == acts_of(tied_of(t), self.floor)
        &&& self.acts@.len() > 0
        &&& self.act == self.acts@[self.acts@.len() as int / 2]
    }
}

proof fn lemma_score_bounds(s: Seq<OutcomeView>, policy: Policy)
    ensures
        -5 * s.len() <= score_of(s, policy) <= s.len(),
    decreases s.len(),
{
    if s.len() > 0 {
        lemma_score_bounds(s.drop_last(), policy);
    }
}

fn sweep_table<'a>(outcomes: &Vec<Outcome<'a>>, policy: &Policy) -> (r: Vec<Cell>)
    requires
        5 * outcomes@.len() <= i64::MAX,
    ensures
        r@ == table_of(outcome_views(outcomes@), *policy, 19),
{
    let ghost all = outcome_views(outcomes@);
    let mut out: Vec<Cell> = Vec::new();
    let mut i: usize = 0;
    while i < 19
        invariant
            i <= 19,
            5 * outcomes@.len() <= i64::MAX,
            all == outcome_views(outcomes@),
            out@ == table_of(all, *policy, i as int),
        decreases 19 - i,
    {
        let ghost before = out@;
        let ghost row = row_of(all, *policy, i as int);
        let mut j: usize = i;
        assert(out@ =~= before + row.take(0));
        while j < 19
            invariant
                i <= j <= 19,
                i < 19,
                5 * outcomes@.len() <= i64::MAX,
                all == outcome_views(outcomes@),
                row == row_of(all, *policy, i as int),
                out@ == before + row.take(j - i),
            decreases 19 - j,
        {
            let p = Policy {
                min_confidence: Double { bits: GRID[i] },
                act_unconfirmed_above: Double { bits: GRID[j] },
                dictation_threshold: policy.dictation_threshold,
                destructive_threshold: policy.destructive_threshold,
            };
            assert(p == swept(*policy, i as int, j as int));
            let n = score(outcomes, &p);
            let cell = Cell { min: i, act: j, score: n };
            proof {
                assert(row[j - i] == cell);
            }
            out.push(cell);
            assert(out@ =~= before + row.take(j - i + 1));
            j = j + 1;
        }
        assert(row.take(j - i) =~= row);
        i = i + 1;
    }
    out
}

proof fn lemma_top_score(t: Seq<Cell>)
    ensures
        forall|i: int| 0 <= i < t.len() ==> (#[trigger] t[i]).score <= top_score(t),
        t.len() > 0 ==> exists|i: int| 0 <= i < t.len() && (#[trigger] t[i]).score == top_score(t),
        i64::MIN <= top_score(t) <= i64::MAX,
    decreases t.len(),
{
    if t.len() > 0 {
        let front = t.drop_last();
        lemma_top_score(front);
        assert forall|i: int| 0 <= i < t.len() implies (#[trigger] t[i]).score <= top_score(t) by {
            if i < front.len() {
                assert(t[i] == front[i]);
            }
        }
        if t.last().score > top_score(front) {
            assert(t[t.len() - 1].score == top_score(t));
        } else if front.len() > 0 {
            let i = choose|i: int|
                0 <= i < front.len() && (#[trigger] front[i]).score == top_score(front);
            assert(t[i] == front[i]);
        } else {
            assert(t[0].score == top_score(t));
        }
    }
}

proof fn lemma_floors(t: Seq<Cell>)
    ensures
        t.len() > 0 ==> floors_of(t).len() > 0,
        forall|k: int|
            0 <= k < floors_of(t).len() ==> exists|i: int|
                0 <= i < t.len() && (#[trigger] t[i]).min == #[trigger] floors_of(t)[k],
    decreases t.len(),
{
    if t.len() > 0 {
        let front = t.drop_last();
        lemma_floors(front);
        assert forall|k: int| 0 <= k < floors_of(t).len() implies exists|i: int|
            0 <= i < t.len() && (#[trigger] t[i]).min == #[trigger] floors_of(t)[k] by {
            if k < floors_of(front).len() {
                assert(floors_of(t)[k] == floors_of(front)[k]);
                let i = choose|i: int|
                    0 <= i < front.len() && (#[trigger] front[i]).min == floors_of(front)[k];
                assert(t[i] == front[i]);
            } else {
                assert(t[t.len() - 1].min == floors_of(t)[k]);
            }
        }
    }
}

fn best_score(t: &Vec<Cell>) -> (r: i64)
    ensures
        r == top_score(t@),
{
    let mut best: i64 = i64::MIN;
    let mut i: usize = 0;
    while i < t.len()
        invariant
            i <= t@.len(),
            best == top_score(t@.take(i as int)),
        decreases t@.len() - i,
    {
        assert(t@.take(i + 1).drop_last() =~= t@.take(i as int));
        if t[i].score > best {
            best = t[i].score;
        }
        i = i + 1;
    }
    assert(t@.take(i as int) =~= t@);
    best
}

fn with_score(t: &Vec<Cell>, best: i64) -> (r: Vec<Cell>)
    ensures
        r@ == t@.filter(|c: Cell| c.score == best),
{
    let ghost p = |c: Cell| c.score == best;
    let mut out: Vec<Cell> = Vec::new();
    let mut i: usize = 0;
    reveal(Seq::filter);
    while i < t.len()
        invariant
            i <= t@.len(),
            p == (|c: Cell| c.score == best),
            out@ == t@.take(i as int).filter(p),
        decreases t@.len() - i,
    {
        reveal(Seq::filter);
        assert(t@.take(i + 1).drop_last() =~= t@.take(i as int));
        if t[i].score == best {
            out.push(t[i]);
        }
        i = i + 1;
    }
    assert(t@.take(i as int) =~= t@);
    out
}

fn floors(t: &Vec<Cell>) -> (r: Vec<usize>)
    ensures
        r@ == floors_of(t@),
{
    let mut out: Vec<usize> = Vec::new();
    let mut i: usize = 0;
    while i < t.len()
        invariant
            i <= t@.len(),
            out@ == floors_of(t@.take(i as int)),
        decreases t@.len() - i,
    {
        assert(t@.take(i + 1).drop_last() =~= t@.take(i as int));
        if out.len() == 0 || out[out.len() - 1] != t[i].min {
            out.push(t[i].min);
        }
        i = i + 1;
    }
    assert(t@.take(i as int) =~= t@);
    out
}

fn acts(t: &Vec<Cell>, min: usize) -> (r: Vec<usize>)
    ensures
        r@ == acts_of(t@, min),
{
    let ghost p = |c: Cell| c.min == min;
    let ghost f = |c: Cell| c.act;
    let mut out: Vec<usize> = Vec::new();
    let mut i: usize = 0;
    reveal(Seq::filter);
    assert(t@.take(0).filter(p).map_values(f) =~= Seq::<usize>::empty());
    while i < t.len()
        invariant
            i <= t@.len(),
            p == (|c: Cell| c.min == min),
            f == (|c: Cell| c.act),
            out@ == t@.take(i as int).filter(p).map_values(f),
        decreases t@.len() - i,
    {
        reveal(Seq::filter);
        assert(t@.take(i + 1).drop_last() =~= t@.take(i as int));
        if t[i].min == min {
            out.push(t[i].act);
        }
        assert(out@ =~= t@.take(i + 1).filter(p).map_values(f));
        i = i + 1;
    }
    assert(t@.take(i as int) =~= t@);
    out
}

/// Scores every pair of the grid and picks the middle of the best, so the
/// choice is not on the edge of the tied region.
pub fn sweep<'a>(outcomes: &Vec<Outcome<'a>>, policy: &Policy) -> (r: Sweep)
    requires
        5 * outcomes@.len() <= i64::MAX,
    ensures
        r.describes(outcome_views(outcomes@), *policy),
{
    let table = sweep_table(outcomes, policy);
    let best = best_score(&table);
    let tied = with_score(&table, best);
    proof {
        let t = table@;
        let p = |c: Cell| c.score == top_score(t);
        assert(t.filter(p) == t.filter(|c: Cell| c.score == best)) by {
            assert(p =~= (|c: Cell| c.score == best));
        }
        assert(t == table_of(outcome_views(outcomes@), *policy, 18) + row_of(
            outcome_views(outcomes@),
            *policy,
            18,
        ));
        lemma_top_score(t);
        let i = choose|i: int| 0 <= i < t.len() && (#[trigger] t[i]).score == top_score(t);
        t.filter_lemma(p);
        assert(tied_of(t).contains(t[i]));
        lemma_floors(tied@);
    }
    let mins = floors(&tied);
    let floor = mins[mins.len() / 2];
    let levels = acts(&tied, floor);
    proof {
        let k = mins@.len() as int / 2;
        assert(floors_of(tied@)[k] == floor);
        let i = choose|i: int| 0 <= i < tied@.len() && (#[trigger] tied@[i]).min == floor;
        let q = |c: Cell| c.min == floor;
        tied@.filter_lemma(q);
        assert(tied@.filter(q).contains(tied@[i]));
        assert(levels@.len() == tied@.filter(q).len());
    }
    let act = levels[levels.len() / 2];
    Sweep { table, best, tied: tied.len(), floors: mins, floor, acts: levels, act }
}

proof fn lemma_table_has(s: Seq<OutcomeView>, policy: Policy, n: int, min: int, act: int)
    requires
        0 <= min < n <= 19,
        min <= act < 19,
    ensures
        table_of(s, policy, n).contains(cell_at(s, policy, min, act)),
    decreases n,
{
    let front = table_of(s, policy, n - 1);
    let row = row_of(s, policy, n - 1);
    let cell = cell_at(s, policy, min, act);
    if min == n - 1 {
        assert(row[act - min] == cell);
        assert((front + row)[front.len() + (act - min)] == cell);
    } else {
        lemma_table_has(s, policy, n - 1, min, act);
        let i = choose|i: int| 0 <= i < front.len() && front[i] == cell;
        assert((front + row)[i] == cell);
    }
}

proof fn lemma_table_only(s: Seq<OutcomeView>, policy: Policy, n: int, i: int)
    requires
        0 <= n <= 19,
        0 <= i < table_of(s, policy, n).len(),
    ensures
        ({
            let c = table_of(s, policy, n)[i];
            c.min <= c.act < 19 && c == cell_at(s, policy, c.min as int, c.act as int)
        }),
    decreases n,
{
    if n > 0 {
        let front = table_of(s, policy, n - 1);
        let row = row_of(s, policy, n - 1);
        if i < front.len() {
            lemma_table_only(s, policy, n - 1, i);
            assert((front + row)[i] == front[i]);
        } else {
            assert((front + row)[i] == row[i - front.len()]);
        }
    }
}

/// No pair of the grid scores better than the one the sweep picks, and the
/// one it picks has the score it names.
pub proof fn law_sweep_picks_the_best(
    w: Sweep,
    s: Seq<OutcomeView>,
    policy: Policy,
    min: int,
    act: int,
)
    requires
        w.describes(s, policy),
        5 * s.len() <= i64::MAX,
        0 <= min <= act < 19,
    ensures
        w.floor <= w.act < 19,
        score_of(s, swept(policy, min, act)) <= w.best,
        score_of(s, swept(policy, w.floor as int, w.act as int)) == w.best,
{
    let t = table_of(s, policy, 19);
    lemma_table_has(s, policy, 19, min, act);
    lemma_top_score(t);
    let i = choose|i: int| 0 <= i < t.len() && t[i] == cell_at(s, policy, min, act);
    assert(t[i].score <= top_score(t));
    lemma_score_bounds(s, swept(policy, min, act));
    let tied = tied_of(t);
    let q = |c: Cell| c.min == w.floor;
    let p = |c: Cell| c.score == top_score(t);
    let chosen = tied.filter(q);
    let k = w.acts@.len() as int / 2;
    tied.filter_lemma(q);
    assert(chosen.map_values(|c: Cell| c.act)[k] == chosen[k].act);
    assert(q(chosen[k]));
    lemma_filter_from(tied, q, k);
    let m = choose|m: int| 0 <= m < tied.len() && tied[m] == chosen[k];
    t.filter_lemma(p);
    assert(p(tied[m]));
    lemma_filter_from(t, p, m);
    let n = choose|n: int| 0 <= n < t.len() && t[n] == tied[m];
    lemma_table_only(s, policy, 19, n);
    lemma_score_bounds(s, swept(policy, w.floor as int, w.act as int));
}

/// What a filter keeps was there.
proof fn lemma_filter_from<T>(s: Seq<T>, p: spec_fn(T) -> bool, k: int)
    requires
        0 <= k < s.filter(p).len(),
    ensures
        s.contains(s.filter(p)[k]),
    decreases s.len(),
{
    reveal(Seq::filter);
    if s.len() > 0 {
        let front = s.drop_last();
        if k < front.filter(p).len() {
            lemma_filter_from(front, p, k);
            let i = choose|i: int| 0 <= i < front.len() && front[i] == front.filter(p)[k];
            assert(s[i] == s.filter(p)[k]);
        } else {
            assert(s[s.len() - 1] == s.filter(p)[k]);
        }
    }
}

/// How a threshold sorts labelled probabilities.
#[derive(Clone, Copy, Debug, PartialEq, Eq, Structural)]
pub struct Counts {
    /// Positives at or above it.
    pub hits: usize,
    /// Negatives at or above it.
    pub false_alarms: usize,
    /// Positives below it.
    pub misses: usize,
}

/// How a threshold sorts labelled probabilities.
pub ghost struct CountsView {
    pub hits: nat,
    pub false_alarms: nat,
    pub misses: nat,
}

/// How `t` sorts labelled probabilities.
pub open spec fn counts_at(pairs: Seq<(Double, bool)>, t: Double) -> CountsView
    decreases pairs.len(),
{
    if pairs.len() == 0 {
        CountsView { hits: 0, false_alarms: 0, misses: 0 }
    } else {
        let c = counts_at(pairs.drop_last(), t);
        let (p, positive) = pairs.last();
        if positive && t.le(p) {
            CountsView { hits: c.hits + 1, ..c }
        } else if !positive && t.le(p) {
            CountsView { false_alarms: c.false_alarms + 1, ..c }
        } else if positive && p.lt(t) {
            CountsView { misses: c.misses + 1, ..c }
        } else {
            c
        }
    }
}

impl View for Counts {
    type V = CountsView;

    open spec fn view(&self) -> CountsView {
        CountsView {
            hits: self.hits as nat,
            false_alarms: self.false_alarms as nat,
            misses: self.misses as nat,
        }
    }
}

/// How `t` sorts labelled probabilities.
pub fn pr(pairs: &Vec<(Double, bool)>, t: Double) -> (r: Counts)
    ensures
        r@ == counts_at(pairs@, t),
        r.hits + r.false_alarms + r.misses <= pairs@.len(),
{
    let mut c = Counts { hits: 0, false_alarms: 0, misses: 0 };
    let mut i: usize = 0;
    while i < pairs.len()
        invariant
            i <= pairs@.len(),
            c@ == counts_at(pairs@.take(i as int), t),
            c.hits + c.false_alarms + c.misses <= i,
        decreases pairs@.len() - i,
    {
        assert(pairs@.take(i + 1).drop_last() =~= pairs@.take(i as int));
        let (p, positive) = pairs[i];
        if p.at_least(t) {
            if positive {
                c.hits = c.hits + 1;
            } else {
                c.false_alarms = c.false_alarms + 1;
            }
        } else if positive && p.less(t) {
            c.misses = c.misses + 1;
        }
        i = i + 1;
    }
    assert(pairs@.take(i as int) =~= pairs@);
    c
}

/// A fraction.
pub ghost struct Fraction {
    pub over: nat,
    pub under: nat,
}

impl Fraction {
    /// Whether the fraction is larger.
    pub open spec fn above(self, other: Fraction) -> bool {
        self.over * other.under > other.over * self.under
    }

    /// Whether two fractions differ by less than a billionth.
    pub open spec fn close(self, other: Fraction) -> bool {
        let (a, b) = (self.over * other.under, other.over * self.under);
        (if a >= b {
            a - b
        } else {
            b - a
        }) * 1_000_000_000 < self.under * other.under
    }
}

/// The harmonic mean of precision and recall: twice the hits over twice the
/// hits, the false alarms and the misses; 1 where there is nothing to find
/// and nothing was found.
pub open spec fn f1_of(c: CountsView) -> Fraction {
    if c.hits + c.false_alarms + c.misses == 0 {
        Fraction { over: 1, under: 1 }
    } else {
        Fraction { over: 2 * c.hits, under: 2 * c.hits + c.false_alarms + c.misses }
    }
}

/// The means over the first `n` thresholds of the grid.
pub open spec fn means_of(pairs: Seq<(Double, bool)>, n: nat) -> Seq<Fraction> {
    Seq::new(n, |i: int| f1_of(counts_at(pairs, grid_at(i))))
}

/// The largest of fractions.
pub open spec fn largest(f: Seq<Fraction>) -> Fraction
    decreases f.len(),
{
    if f.len() <= 1 {
        f[0]
    } else {
        let rest = largest(f.drop_last());
        if f.last().above(rest) {
            f.last()
        } else {
            rest
        }
    }
}

/// The places of the fractions close to `best`, in order.
pub open spec fn close_to(f: Seq<Fraction>, best: Fraction) -> Seq<int>
    decreases f.len(),
{
    if f.len() == 0 {
        Seq::empty()
    } else {
        let rest = close_to(f.drop_last(), best);
        if f.last().close(best) {
            rest.push(f.len() - 1)
        } else {
            rest
        }
    }
}

/// Which threshold to pick when several have the same mean.
#[derive(Clone, Copy, Debug, PartialEq, Eq, Structural)]
pub enum Tie {
    /// The middle of the tied range, so the choice is not on the edge of a
    /// gap.
    Middle,
    /// The lowest, for a signal where a miss costs more than a false alarm.
    Low,
}

/// The place in the grid of the threshold with the best mean.
pub open spec fn best_place(pairs: Seq<(Double, bool)>, tie: Tie) -> int {
    let f = means_of(pairs, 19);
    let tied = close_to(f, largest(f));
    match tie {
        Tie::Middle => tied[tied.len() as int / 2],
        Tie::Low => tied[0],
    }
}

/// A fraction of counts.
#[derive(Clone, Copy)]
struct Ratio {
    over: u64,
    under: u64,
}

spec fn ratio_view(r: Ratio) -> Fraction {
    Fraction { over: r.over as nat, under: r.under as nat }
}

spec fn small(r: Ratio) -> bool {
    r.over <= 0x2_0000_0000 && 0 < r.under <= 0x2_0000_0000
}

spec fn ratio_views(v: Seq<Ratio>) -> Seq<Fraction> {
    v.map_values(|r: Ratio| ratio_view(r))
}

proof fn lemma_product(a: u64, b: u64)
    requires
        a <= 0x2_0000_0000,
        b <= 0x2_0000_0000,
    ensures
        0 <= a * b <= 0x4_0000_0000_0000_0000,
{
    assert(0 <= a * b <= 0x4_0000_0000_0000_0000) by (nonlinear_arith)
        requires
            a <= 0x2_0000_0000,
            b <= 0x2_0000_0000,
    ;
}

fn ratio_above(x: Ratio, y: Ratio) -> (r: bool)
    requires
        small(x),
        small(y),
    ensures
        r == ratio_view(x).above(ratio_view(y)),
{
    proof {
        lemma_product(x.over, y.under);
        lemma_product(y.over, x.under);
    }
    let a: u128 = x.over as u128 * y.under as u128;
    let b: u128 = y.over as u128 * x.under as u128;
    a > b
}

fn ratio_close(x: Ratio, y: Ratio) -> (r: bool)
    requires
        small(x),
        small(y),
    ensures
        r == ratio_view(x).close(ratio_view(y)),
{
    proof {
        lemma_product(x.over, y.under);
        lemma_product(y.over, x.under);
        lemma_product(x.under, y.under);
    }
    let a: u128 = x.over as u128 * y.under as u128;
    let b: u128 = y.over as u128 * x.under as u128;
    let d: u128 = if a >= b {
        a - b
    } else {
        b - a
    };
    d * 1_000_000_000 < x.under as u128 * y.under as u128
}

fn ratio_of(c: Counts) -> (r: Ratio)
    requires
        c.hits + c.false_alarms + c.misses <= u32::MAX,
    ensures
        ratio_view(r) == f1_of(c@),
        small(r),
{
    if c.hits == 0 && c.false_alarms == 0 && c.misses == 0 {
        Ratio { over: 1, under: 1 }
    } else {
        let over: u64 = 2 * c.hits as u64;
        Ratio { over, under: over + c.false_alarms as u64 + c.misses as u64 }
    }
}

/// The largest of the fractions is close to itself, so some place is.
proof fn lemma_close_to_largest(f: Seq<Fraction>, best: Fraction)
    requires
        exists|i: int| 0 <= i < f.len() && #[trigger] f[i] == best,
        best.under > 0,
    ensures
        close_to(f, best).len() > 0,
        forall|k: int|
            0 <= k < close_to(f, best).len() ==> 0 <= #[trigger] close_to(f, best)[k] < f.len(),
    decreases f.len(),
{
    lemma_close_to_bounds(f, best);
    let i = choose|i: int| 0 <= i < f.len() && #[trigger] f[i] == best;
    let front = f.drop_last();
    if i < front.len() {
        assert(front[i] == best);
        lemma_close_to_largest(front, best);
    } else {
        let (a, u) = (best.over, best.under);
        assert(a * u == u * a) by (nonlinear_arith);
        assert(u * u > 0) by (nonlinear_arith)
            requires
                u > 0,
        ;
        assert(best.close(best));
    }
}

proof fn lemma_close_to_bounds(f: Seq<Fraction>, best: Fraction)
    ensures
        forall|k: int|
            0 <= k < close_to(f, best).len() ==> 0 <= #[trigger] close_to(f, best)[k] < f.len(),
    decreases f.len(),
{
    if f.len() > 0 {
        let front = f.drop_last();
        lemma_close_to_bounds(front, best);
        assert forall|k: int| 0 <= k < close_to(f, best).len() implies 0 <= #[trigger] close_to(
            f,
            best,
        )[k] < f.len() by {
            if k < close_to(front, best).len() {
                assert(close_to(f, best)[k] == close_to(front, best)[k]);
            }
        }
    }
}

proof fn lemma_largest_is_one(f: Seq<Fraction>)
    requires
        f.len() > 0,
    ensures
        exists|i: int| 0 <= i < f.len() && #[trigger] f[i] == largest(f),
    decreases f.len(),
{
    if f.len() <= 1 {
        assert(f[0] == largest(f));
    } else {
        let front = f.drop_last();
        lemma_largest_is_one(front);
        let i = choose|i: int| 0 <= i < front.len() && #[trigger] front[i] == largest(front);
        assert(f[i] == front[i]);
        assert(f[f.len() - 1] == f.last());
    }
}

/// The means over the grid.
fn means(pairs: &Vec<(Double, bool)>) -> (r: Vec<Ratio>)
    requires
        pairs@.len() <= u32::MAX,
    ensures
        ratio_views(r@) == means_of(pairs@, 19),
        forall|i: int| 0 <= i < r@.len() ==> small(#[trigger] r@[i]),
{
    let mut out: Vec<Ratio> = Vec::new();
    while out.len() < 19
        invariant
            out@.len() <= 19,
            pairs@.len() <= u32::MAX,
            forall|i: int| 0 <= i < out@.len() ==> small(#[trigger] out@[i]),
            forall|i: int|
                0 <= i < out@.len() ==> ratio_view(#[trigger] out@[i]) == f1_of(
                    counts_at(pairs@, grid_at(i)),
                ),
        decreases 19 - out@.len(),
    {
        let c = pr(pairs, Double { bits: GRID[out.len()] });
        out.push(ratio_of(c));
    }
    assert(ratio_views(out@) =~= means_of(pairs@, 19));
    out
}

/// The place in the grid of the threshold with the best mean.
pub fn best_index(pairs: &Vec<(Double, bool)>, tie: Tie) -> (r: usize)
    requires
        pairs@.len() <= u32::MAX,
    ensures
        r < 19,
        r == best_place(pairs@, tie),
{
    let f = means(pairs);
    let ghost fv = ratio_views(f@);
    assert(fv.len() == f@.len());
    assert(means_of(pairs@, 19).len() == 19);
    let mut best = f[0];
    let mut i: usize = 1;
    assert(fv.take(1)[0] == ratio_view(best));
    while i < 19
        invariant
            1 <= i <= 19,
            f@.len() == 19,
            fv == ratio_views(f@),
            small(best),
            forall|i: int| 0 <= i < f@.len() ==> small(#[trigger] f@[i]),
            ratio_view(best) == largest(fv.take(i as int)),
        decreases 19 - i,
    {
        proof {
            assert(fv.take(i + 1).drop_last() =~= fv.take(i as int));
            assert(fv.take(i + 1).last() == ratio_view(f@[i as int]));
        }
        if ratio_above(f[i], best) {
            best = f[i];
        }
        i = i + 1;
    }
    assert(fv.take(19) =~= fv);
    let mut tied: Vec<usize> = Vec::new();
    let mut j: usize = 0;
    while j < 19
        invariant
            j <= 19,
            f@.len() == 19,
            fv == ratio_views(f@),
            small(best),
            forall|i: int| 0 <= i < f@.len() ==> small(#[trigger] f@[i]),
            tied@.map_values(|n: usize| n as int) == close_to(fv.take(j as int), ratio_view(best)),
        decreases 19 - j,
    {
        proof {
            assert(fv.take(j + 1).drop_last() =~= fv.take(j as int));
            assert(fv.take(j + 1).last() == ratio_view(f@[j as int]));
        }
        if ratio_close(f[j], best) {
            let ghost before = tied@;
            tied.push(j);
            assert(tied@.map_values(|n: usize| n as int) =~= before.map_values(
                |n: usize| n as int,
            ).push(j as int));
        }
        j = j + 1;
    }
    proof {
        let b = ratio_view(best);
        lemma_largest_is_one(fv);
        lemma_close_to_largest(fv, b);
        let places = close_to(fv, b);
        assert(tied@.len() == places.len());
        assert(places[0] == tied@[0] as int);
        let m = tied@.len() as int / 2;
        assert(places[m] == tied@[m] as int);
        assert(0 <= places[0] < 19);
        assert(0 <= places[m] < 19);
    }
    match tie {
        Tie::Middle => tied[tied.len() / 2],
        Tie::Low => tied[0],
    }
}

/// The threshold of the grid with the best mean.
pub fn best_threshold(pairs: &Vec<(Double, bool)>, tie: Tie) -> (r: Double)
    requires
        pairs@.len() <= u32::MAX,
    ensures
        r == grid_at(best_place(pairs@, tie)),
{
    let i = best_index(pairs, tie);
    Double { bits: GRID[i] }
}

/// The bucket of a value: how many of the edges it has reached. A NaN falls
/// into the first.
pub open spec fn bucket_of(v: Double, n: int) -> nat
    decreases n,
{
    if n <= 0 {
        0
    } else {
        bucket_of(v, n - 1) + if (Double { bits: EDGES@[n - 1] }).le(v) {
            1nat
        } else {
            0
        }
    }
}

/// How many of the values fall into bucket `b`.
pub open spec fn in_bucket(values: Seq<Double>, b: int) -> nat
    decreases values.len(),
{
    if values.len() == 0 {
        0
    } else {
        in_bucket(values.drop_last(), b) + if bucket_of(values.last(), 9) == b {
            1nat
        } else {
            0
        }
    }
}

/// The bucket of a value.
pub fn bucket(v: Double) -> (r: usize)
    ensures
        r == bucket_of(v, 9),
        r < 10,
{
    let mut n: usize = 0;
    let mut i: usize = 0;
    while i < 9
        invariant
            i <= 9,
            n <= i,
            n == bucket_of(v, i as int),
        decreases 9 - i,
    {
        if v.at_least(Double { bits: EDGES[i] }) {
            n = n + 1;
        }
        i = i + 1;
    }
    n
}

/// How many values fall into each of the ten buckets.
pub fn histogram(values: &Vec<Double>) -> (r: Vec<usize>)
    ensures
        r@.len() == 10,
        forall|b: int| 0 <= b < 10 ==> #[trigger] r@[b] == in_bucket(values@, b),
{
    let mut out: Vec<usize> = vec![0, 0, 0, 0, 0, 0, 0, 0, 0, 0];
    let mut i: usize = 0;
    while i < values.len()
        invariant
            i <= values@.len(),
            out@.len() == 10,
            forall|b: int|
                0 <= b < 10 ==> #[trigger] out@[b] == in_bucket(values@.take(i as int), b)
                    && out@[b] <= i,
        decreases values@.len() - i,
    {
        assert(values@.take(i + 1).drop_last() =~= values@.take(i as int));
        let b = bucket(values[i]);
        let n = out[b];
        out.set(b, n + 1);
        i = i + 1;
    }
    assert(values@.take(i as int) =~= values@);
    out
}

/// The dictation weights with whether the case is prose.
pub open spec fn dictation_pairs(s: Seq<OutcomeView>) -> Seq<(Double, bool)>
    decreases s.len(),
{
    if s.len() == 0 {
        Seq::empty()
    } else {
        let rest = dictation_pairs(s.drop_last());
        match s.last().dictation {
            Some(p) => rest.push((p, s.last().expect == DICTATION@)),
            None => rest,
        }
    }
}

/// The risk answers with how the case marks them, where both are given.
pub open spec fn risk_pairs(s: Seq<OutcomeView>) -> Seq<(Double, bool)>
    decreases s.len(),
{
    if s.len() == 0 {
        Seq::empty()
    } else {
        let rest = risk_pairs(s.drop_last());
        match (s.last().destructive, s.last().marked) {
            (Some(p), Some(m)) => rest.push((p, m)),
            _ => rest,
        }
    }
}

/// The confidences of the verdicts built for outcomes that are right, or
/// wrong.
pub open spec fn confidences(s: Seq<OutcomeView>, right: bool) -> Seq<Double>
    decreases s.len(),
{
    if s.len() == 0 {
        Seq::empty()
    } else {
        let rest = confidences(s.drop_last(), right);
        match s.last().confidence {
            Some(c) => if s.last().right() == right {
                rest.push(c)
            } else {
                rest
            },
            None => rest,
        }
    }
}

/// The probabilities with the label `positive`.
pub open spec fn labelled(pairs: Seq<(Double, bool)>, positive: bool) -> Seq<Double>
    decreases pairs.len(),
{
    if pairs.len() == 0 {
        Seq::empty()
    } else {
        let rest = labelled(pairs.drop_last(), positive);
        if pairs.last().1 == positive {
            rest.push(pairs.last().0)
        } else {
            rest
        }
    }
}

fn select(pairs: &Vec<(Double, bool)>, positive: bool) -> (r: Vec<Double>)
    ensures
        r@ == labelled(pairs@, positive),
{
    let mut out: Vec<Double> = Vec::new();
    let mut i: usize = 0;
    while i < pairs.len()
        invariant
            i <= pairs@.len(),
            out@ == labelled(pairs@.take(i as int), positive),
        decreases pairs@.len() - i,
    {
        assert(pairs@.take(i + 1).drop_last() =~= pairs@.take(i as int));
        if pairs[i].1 == positive {
            out.push(pairs[i].0);
        }
        i = i + 1;
    }
    assert(pairs@.take(i as int) =~= pairs@);
    out
}

/// Everything the report says of a corpus.
#[derive(Clone, Debug)]
pub struct Summary {
    pub totals: Totals,
    /// The dictation question at the current threshold.
    pub dictation_now: Counts,
    pub right_confidence: Vec<Double>,
    pub wrong_confidence: Vec<Double>,
    pub sweep: Sweep,
    /// The score of the current thresholds.
    pub current: i64,
    pub at_best: Breakdown,
    pub at_current: Breakdown,
    /// Dictation weights of prose, and of everything else.
    pub prose_weights: Vec<Double>,
    pub other_weights: Vec<Double>,
    /// The dictation question at each threshold of the grid.
    pub dictation_grid: Vec<Counts>,
    /// The place in the grid of the suggested dictation threshold.
    pub dictation_best: usize,
    /// The risk answers of cases marked destructive, and harmless.
    pub risky: Vec<Double>,
    pub harmless: Vec<Double>,
    /// The risk question at the current threshold.
    pub risk_now: Counts,
    /// The place in the grid of the suggested risk threshold.
    pub risk_best: usize,
}

impl Summary {
    /// What is said of these outcomes under `policy`.
    pub open spec fn describes(self, s: Seq<OutcomeView>, policy: Policy) -> bool {
        let d = dictation_pairs(s);
        let k = risk_pairs(s);
        let best = Policy {
            min_confidence: shown_at(self.sweep.floor as int),
            act_unconfirmed_above: shown_at(self.sweep.act as int),
            ..policy
        };
        &&& self.totals.counts(s, policy)
        &&& self.dictation_now@ == counts_at(d, policy.dictation_threshold)
        &&& self.right_confidence@ == confidences(s, true)
        &&& self.wrong_confidence@ == confidences(s, false)
        &&& self.sweep.describes(s, policy)
        &&& self.current == score_of(s, policy)
        &&& self.at_best.counts(s, best)
        &&& self.at_current.counts(s, policy)
        &&& self.prose_weights@ == labelled(d, true)
        &&& self.other_weights@ == labelled(d, false)
        &&& self.dictation_grid@.len() == 19
        &&& forall|i: int|
            0 <= i < 19 ==> (#[trigger] self.dictation_grid@[i])@ == counts_at(d, grid_at(i))
        &&& self.dictation_best == best_place(d, Tie::Middle)
        &&& self.risky@ == labelled(k, true)
        &&& self.harmless@ == labelled(k, false)
        &&& self.risk_now@ == counts_at(k, policy.destructive_threshold)
        &&& self.risk_best == best_place(k, Tie::Low)
    }
}

proof fn lemma_pairs_len(s: Seq<OutcomeView>)
    ensures
        dictation_pairs(s).len() <= s.len(),
        risk_pairs(s).len() <= s.len(),
    decreases s.len(),
{
    if s.len() > 0 {
        lemma_pairs_len(s.drop_last());
    }
}

proof fn lemma_picked_in_grid(w: Sweep, s: Seq<OutcomeView>, policy: Policy)
    requires
        w.describes(s, policy),
        5 * s.len() <= i64::MAX,
    ensures
        w.floor < 19,
        w.act < 19,
{
    law_sweep_picks_the_best(w, s, policy, 0, 0);
}

fn collect<'a>(outcomes: &Vec<Outcome<'a>>) -> (r: (
    Vec<(Double, bool)>,
    Vec<(Double, bool)>,
    Vec<Double>,
    Vec<Double>,
))
    ensures
        r.0@ == dictation_pairs(outcome_views(outcomes@)),
        r.1@ == risk_pairs(outcome_views(outcomes@)),
        r.2@ == confidences(outcome_views(outcomes@), true),
        r.3@ == confidences(outcome_views(outcomes@), false),
{
    let ghost all = outcome_views(outcomes@);
    let mut dictation: Vec<(Double, bool)> = Vec::new();
    let mut risk: Vec<(Double, bool)> = Vec::new();
    let mut right: Vec<Double> = Vec::new();
    let mut wrong: Vec<Double> = Vec::new();
    let mut i: usize = 0;
    while i < outcomes.len()
        invariant
            i <= outcomes@.len(),
            all == outcome_views(outcomes@),
            dictation@ == dictation_pairs(all.take(i as int)),
            risk@ == risk_pairs(all.take(i as int)),
            right@ == confidences(all.take(i as int), true),
            wrong@ == confidences(all.take(i as int), false),
        decreases outcomes@.len() - i,
    {
        let o = &outcomes[i];
        proof {
            assert(all.take(i + 1).drop_last() =~= all.take(i as int));
            assert(all.take(i + 1).last() == o@);
        }
        if let Some(p) = o.dictation {
            dictation.push((p, same(o.case.expect.as_str(), DICTATION)));
        }
        if let Some(p) = o.destructive {
            if let Some(m) = o.case.destructive {
                risk.push((p, m));
            }
        }
        if let Some(c) = o.confidence {
            if o.right() {
                right.push(c);
            } else {
                wrong.push(c);
            }
        }
        i = i + 1;
    }
    assert(all.take(i as int) =~= all);
    (dictation, risk, right, wrong)
}

/// Everything the report says of the outcomes under `policy`.
pub fn summarize<'a>(outcomes: &Vec<Outcome<'a>>, policy: &Policy) -> (r: Summary)
    requires
        outcomes@.len() <= u32::MAX,
    ensures
        r.describes(outcome_views(outcomes@), *policy),
{
    let ghost s = outcome_views(outcomes@);
    proof {
        lemma_pairs_len(s);
    }
    let (dictation, risk, right_confidence, wrong_confidence) = collect(outcomes);
    let sweep = sweep(outcomes, policy);
    proof {
        lemma_picked_in_grid(sweep, s, *policy);
    }
    let best = Policy {
        min_confidence: Double { bits: SHOWN[sweep.floor] },
        act_unconfirmed_above: Double { bits: SHOWN[sweep.act] },
        dictation_threshold: policy.dictation_threshold,
        destructive_threshold: policy.destructive_threshold,
    };
    let mut grid: Vec<Counts> = Vec::new();
    while grid.len() < 19
        invariant
            grid@.len() <= 19,
            forall|i: int|
                0 <= i < grid@.len() ==> (#[trigger] grid@[i])@ == counts_at(
                    dictation@,
                    grid_at(i),
                ),
        decreases 19 - grid@.len(),
    {
        let c = pr(&dictation, Double { bits: GRID[grid.len()] });
        grid.push(c);
    }
    Summary {
        totals: totals(outcomes, policy),
        dictation_now: pr(&dictation, policy.dictation_threshold),
        right_confidence,
        wrong_confidence,
        current: score(outcomes, policy),
        at_best: breakdown(outcomes, &best),
        at_current: breakdown(outcomes, policy),
        prose_weights: select(&dictation, true),
        other_weights: select(&dictation, false),
        dictation_grid: grid,
        dictation_best: best_index(&dictation, Tie::Middle),
        risky: select(&risk, true),
        harmless: select(&risk, false),
        risk_now: pr(&risk, policy.destructive_threshold),
        risk_best: best_index(&risk, Tie::Low),
        sweep,
    }
}

/// The suggested threshold has the best mean: none of the grid is above it by
/// as much as a billionth.
pub proof fn law_suggested_threshold_is_best(pairs: Seq<(Double, bool)>, tie: Tie)
    ensures
        ({
            let f = means_of(pairs, 19);
            let place = best_place(pairs, tie);
            0 <= place < 19 && f[place].close(largest(f))
        }),
{
    let f = means_of(pairs, 19);
    let best = largest(f);
    lemma_largest_is_one(f);
    let i = choose|i: int| 0 <= i < f.len() && #[trigger] f[i] == best;
    assert(best.under > 0);
    lemma_close_to_largest(f, best);
    lemma_close_to_holds(f, best);
    let tied = close_to(f, best);
    let m = tied.len() as int / 2;
    assert(0 <= tied[0] < f.len() && 0 <= tied[m] < f.len());
}

proof fn lemma_close_to_holds(f: Seq<Fraction>, best: Fraction)
    ensures
        forall|k: int|
            0 <= k < close_to(f, best).len() ==> 0 <= #[trigger] close_to(f, best)[k] < f.len()
                && f[close_to(f, best)[k]].close(best),
    decreases f.len(),
{
    if f.len() > 0 {
        let front = f.drop_last();
        lemma_close_to_holds(front, best);
        assert forall|k: int| 0 <= k < close_to(f, best).len() implies 0 <= #[trigger] close_to(
            f,
            best,
        )[k] < f.len() && f[close_to(f, best)[k]].close(best) by {
            if k < close_to(front, best).len() {
                assert(close_to(f, best)[k] == close_to(front, best)[k]);
                assert(f[close_to(f, best)[k]] == front[close_to(f, best)[k]]);
            }
        }
    }
}

/// The keys shown around the pick: up to three steps of the grid to each side.
pub open spec fn near(center: int, k: int) -> bool {
    0 <= k < 19 && center - 3 <= k <= center + 3
}

/// The places of the grid up to three steps from `center`, in order.
pub fn around(center: usize) -> (r: Vec<usize>)
    requires
        center < 19,
    ensures
        forall|k: usize| r@.contains(k) <==> near(center as int, k as int),
        forall|i: int, j: int| 0 <= i < j < r@.len() ==> r@[i] < r@[j],
{
    let from: usize = if center < 3 {
        0
    } else {
        center - 3
    };
    let to: usize = if center + 4 > 19 {
        19
    } else {
        center + 4
    };
    let mut out: Vec<usize> = Vec::new();
    let mut k: usize = from;
    while k < to
        invariant
            from <= k <= to,
            out@.len() == k - from,
            forall|i: int| 0 <= i < out@.len() ==> #[trigger] out@[i] == from + i,
        decreases to - k,
    {
        out.push(k);
        k = k + 1;
    }
    proof {
        assert forall|k: usize| out@.contains(k) <==> near(center as int, k as int) by {
            if near(center as int, k as int) {
                assert(out@[k - from] == k);
            }
        }
    }
    out
}

/// One case more changes the score by what is done with it: one for a right
/// act, minus five for a wrong one, minus one for a right one that asks,
/// minus two for a right one refused though an action was expected, and
/// nothing in every other case.
pub proof fn law_a_case_adds_its_points(s: Seq<OutcomeView>, o: OutcomeView, policy: Policy)
    ensures
        ({
            let gain = score_of(s.push(o), policy) - score_of(s, policy);
            let right = o.intent_ok && o.args_ok && o.target_ok != Some(false);
            match o.decision(policy) {
                DecisionView::Act => gain == if right {
                    1int
                } else {
                    -5
                },
                DecisionView::Confirm { .. } => gain == if right {
                    -1int
                } else {
                    0
                },
                DecisionView::Refuse { .. } => gain == if right && o.expect != "dictation"@
                    && o.expect != "unclear"@ {
                    -2int
                } else {
                    0
                },
            }
        }),
{
    assert(s.push(o).drop_last() =~= s);
}

/// A policy that acts where another asks scores no worse on what is right and
/// no better on what is wrong.
pub proof fn law_acting_is_for_the_right(o: OutcomeView, bold: Policy, shy: Policy)
    requires
        o.decision(bold) is Act,
        o.decision(shy) is Confirm,
    ensures
        o.right() ==> points(o, bold) > points(o, shy),
        !o.right() ==> points(o, bold) < points(o, shy),
{
}

/// Every labelled probability is on one side of the threshold: the positives
/// are hits or misses, and no more negatives are false alarms than there are.
pub proof fn law_positives_are_hit_or_missed(pairs: Seq<(Double, bool)>, t: Double)
    requires
        !t.nan(),
        forall|i: int| 0 <= i < pairs.len() ==> !(#[trigger] pairs[i]).0.nan(),
    ensures
        counts_at(pairs, t).hits + counts_at(pairs, t).misses == labelled(pairs, true).len(),
        counts_at(pairs, t).false_alarms <= labelled(pairs, false).len(),
    decreases pairs.len(),
{
    if pairs.len() > 0 {
        let front = pairs.drop_last();
        assert forall|i: int| 0 <= i < front.len() implies !(#[trigger] front[i]).0.nan() by {
            assert(front[i] == pairs[i]);
        }
        law_positives_are_hit_or_missed(front, t);
    }
}

/// A higher threshold hits less, raises fewer false alarms and misses more.
pub proof fn law_higher_threshold_finds_less(
    pairs: Seq<(Double, bool)>,
    low: Double,
    high: Double,
)
    requires
        low.le(high),
    ensures
        counts_at(pairs, high).hits <= counts_at(pairs, low).hits,
        counts_at(pairs, high).false_alarms <= counts_at(pairs, low).false_alarms,
        counts_at(pairs, low).misses <= counts_at(pairs, high).misses,
    decreases pairs.len(),
{
    if pairs.len() > 0 {
        law_higher_threshold_finds_less(pairs.drop_last(), low, high);
    }
}

/// A probability that reaches the threshold counts as found: as a hit where
/// it is a positive, as a false alarm where it is not. A positive below it is
/// a miss, and a negative below it counts nowhere.
pub proof fn law_one_probability_more(
    pairs: Seq<(Double, bool)>,
    t: Double,
    p: Double,
    positive: bool,
)
    requires
        !t.nan(),
        !p.nan(),
    ensures
        ({
            let a = counts_at(pairs, t);
            let b = counts_at(pairs.push((p, positive)), t);
            &&& b.hits - a.hits == if positive && t.rank() <= p.rank() {
                1int
            } else {
                0
            }
            &&& b.false_alarms - a.false_alarms == if !positive && t.rank() <= p.rank() {
                1int
            } else {
                0
            }
            &&& b.misses - a.misses == if positive && p.rank() < t.rank() {
                1int
            } else {
                0
            }
        }),
{
    assert(pairs.push((p, positive)).drop_last() =~= pairs);
}

/// The mean is at most 1, it is 1 exactly where nothing is missed and no
/// alarm is false, and it is 0 exactly where nothing is hit though there was
/// something to say.
pub proof fn law_mean_is_a_share(c: CountsView)
    ensures
        f1_of(c).over <= f1_of(c).under,
        f1_of(c).under > 0,
        f1_of(c).over == f1_of(c).under <==> c.false_alarms == 0 && c.misses == 0,
        f1_of(c).over == 0 <==> c.hits == 0 && c.false_alarms + c.misses > 0,
{
}

/// The mean counts a miss like a false alarm, and neither ever raises it.
pub proof fn law_mean_falls_with_errors(c: CountsView)
    ensures
        f1_of((CountsView { misses: c.misses + 1, ..c })) == f1_of(
            (CountsView { false_alarms: c.false_alarms + 1, ..c }),
        ),
        !f1_of((CountsView { misses: c.misses + 1, ..c })).above(f1_of(c)),
        c.hits > 0 ==> f1_of(c).above(f1_of((CountsView { misses: c.misses + 1, ..c }))),
{
    let h = 2 * c.hits;
    let n = h + c.false_alarms + c.misses;
    assert(h * (n + 1) == h * n + h) by (nonlinear_arith);
    if n == 0 {
        assert(0nat * 1nat == 0nat) by (nonlinear_arith);
    }
}

/// The buckets keep the order of the values, a NaN falls into the first, and
/// there are ten.
pub proof fn law_buckets_keep_the_order(u: Double, v: Double, n: int)
    ensures
        u.le(v) ==> bucket_of(u, n) <= bucket_of(v, n),
        v.nan() ==> bucket_of(v, n) == 0,
        n >= 0 ==> bucket_of(v, n) <= n,
    decreases n,
{
    if n > 0 {
        law_buckets_keep_the_order(u, v, n - 1);
    }
}

/// How many of the values fall into one of the first `n` buckets.
pub open spec fn in_first_buckets(values: Seq<Double>, n: int) -> nat
    decreases n,
{
    if n <= 0 {
        0
    } else {
        in_first_buckets(values, n - 1) + in_bucket(values, n - 1)
    }
}

/// Every value falls into exactly one of the ten buckets.
pub proof fn law_buckets_hold_every_value(values: Seq<Double>)
    ensures
        in_first_buckets(values, 10) == values.len(),
    decreases values.len(),
{
    if values.len() == 0 {
        assert(values =~= Seq::<Double>::empty());
        lemma_no_values(10);
    } else {
        let front = values.drop_last();
        law_buckets_hold_every_value(front);
        law_buckets_keep_the_order(values.last(), values.last(), 9);
        lemma_one_value_more(values, 10);
    }
}

proof fn lemma_no_values(n: int)
    ensures
        in_first_buckets(Seq::<Double>::empty(), n) == 0,
    decreases n,
{
    if n > 0 {
        lemma_no_values(n - 1);
    }
}

proof fn lemma_one_value_more(values: Seq<Double>, n: int)
    requires
        values.len() > 0,
        n >= 0,
    ensures
        in_first_buckets(values, n) == in_first_buckets(values.drop_last(), n) + if bucket_of(
            values.last(),
            9,
        ) < n {
            1nat
        } else {
            0
        },
    decreases n,
{
    if n > 0 {
        lemma_one_value_more(values, n - 1);
    }
}

/// What the report collects of two lists of outcomes together is what it
/// collects of each, and of one outcome it collects the dictation weight with
/// whether the case is prose, the risk answer with how the case is marked,
/// and the confidence among the right or the wrong ones.
pub proof fn law_weights_are_collected_in_order(a: Seq<OutcomeView>, b: Seq<OutcomeView>)
    ensures
        dictation_pairs(a + b) == dictation_pairs(a) + dictation_pairs(b),
        risk_pairs(a + b) == risk_pairs(a) + risk_pairs(b),
        confidences(a + b, true) == confidences(a, true) + confidences(b, true),
        confidences(a + b, false) == confidences(a, false) + confidences(b, false),
    decreases b.len(),
{
    if b.len() == 0 {
        assert(a + b =~= a);
    } else {
        law_weights_are_collected_in_order(a, b.drop_last());
        assert((a + b).drop_last() =~= a + b.drop_last());
        assert((a + b).last() == b.last());
    }
}

/// What is collected of one outcome.
pub proof fn law_weights_of_one_outcome(o: OutcomeView)
    ensures
        dictation_pairs(seq![o]) == match o.dictation {
            Some(p) => seq![(p, o.expect == "dictation"@)],
            None => Seq::empty(),
        },
        risk_pairs(seq![o]) == if o.destructive is Some && o.marked is Some {
            seq![(o.destructive->0, o.marked->0)]
        } else {
            Seq::empty()
        },
        o.confidence is Some ==> confidences(seq![o], o.right()) == seq![o.confidence->0],
        confidences(seq![o], !o.right()).len() == 0,
        o.confidence is None ==> confidences(seq![o], o.right()).len() == 0,
{
    let s = seq![o];
    assert(s.drop_last() =~= Seq::<OutcomeView>::empty());
    assert(s.last() == o);
    reveal_with_fuel(dictation_pairs, 2);
    reveal_with_fuel(risk_pairs, 2);
    reveal_with_fuel(confidences, 2);
}

/// The labels part the probabilities: each stands on its own side, in order,
/// and none is lost.
pub proof fn law_labels_part_the_probabilities(
    pairs: Seq<(Double, bool)>,
    p: Double,
    positive: bool,
)
    ensures
        labelled(pairs, true).len() + labelled(pairs, false).len() == pairs.len(),
        labelled(pairs.push((p, positive)), positive) == labelled(pairs, positive).push(p),
        labelled(pairs.push((p, positive)), !positive) == labelled(pairs, !positive),
    decreases pairs.len(),
{
    assert(pairs.push((p, positive)).drop_last() =~= pairs);
    if pairs.len() > 0 {
        law_labels_part_the_probabilities(pairs.drop_last(), p, positive);
    }
}

proof fn lemma_above_is_transitive(a: Fraction, b: Fraction, c: Fraction)
    requires
        !a.above(b),
        !b.above(c),
        a.under > 0,
        b.under > 0,
        c.under > 0,
    ensures
        !a.above(c),
{
    let (ao, au, bo, bu, co, cu) = (
        a.over as int,
        a.under as int,
        b.over as int,
        b.under as int,
        c.over as int,
        c.under as int,
    );
    assert(ao * cu <= co * au) by (nonlinear_arith)
        requires
            ao * bu <= bo * au,
            bo * cu <= co * bu,
            ao >= 0,
            au > 0,
            bo >= 0,
            bu > 0,
            co >= 0,
            cu > 0,
    {
        assert((ao * bu) * cu <= (bo * au) * cu);
        assert((bo * cu) * au <= (co * bu) * au);
        assert((ao * cu) * bu <= (co * au) * bu);
    }
}

proof fn lemma_largest(f: Seq<Fraction>)
    requires
        f.len() > 0,
        forall|i: int| 0 <= i < f.len() ==> (#[trigger] f[i]).under > 0,
    ensures
        largest(f).under > 0,
        forall|i: int| 0 <= i < f.len() ==> !(#[trigger] f[i]).above(largest(f)),
    decreases f.len(),
{
    if f.len() == 1 {
        assert(!f[0].above(f[0]));
    } else {
        let front = f.drop_last();
        assert forall|i: int| 0 <= i < front.len() implies (#[trigger] front[i]).under > 0 by {
            assert(front[i] == f[i]);
        }
        lemma_largest(front);
        let rest = largest(front);
        assert(f[f.len() - 1].under > 0);
        assert forall|i: int| 0 <= i < f.len() implies !(#[trigger] f[i]).above(largest(f)) by {
            if i < front.len() {
                assert(front[i] == f[i]);
                if f.last().above(rest) {
                    lemma_above_is_transitive(f[i], rest, f.last());
                }
            }
        }
    }
}

proof fn lemma_close_to_order(f: Seq<Fraction>, best: Fraction)
    ensures
        forall|i: int, j: int|
            0 <= i < j < close_to(f, best).len() ==> (#[trigger] close_to(f, best)[i]) < (
            #[trigger] close_to(f, best)[j]),
        forall|k: int|
            0 <= k < f.len() && (#[trigger] f[k]).close(best) ==> close_to(f, best).contains(k),
    decreases f.len(),
{
    lemma_close_to_bounds(f, best);
    if f.len() > 0 {
        let front = f.drop_last();
        let t = close_to(f, best);
        let r = close_to(front, best);
        lemma_close_to_order(front, best);
        lemma_close_to_bounds(front, best);
        assert forall|i: int, j: int| 0 <= i < j < t.len() implies (#[trigger] t[i]) < (
        #[trigger] t[j]) by {
            assert(t[i] == r[i]);
            if j < r.len() {
                assert(t[j] == r[j]);
            }
        }
        assert forall|k: int| 0 <= k < f.len() && (#[trigger] f[k]).close(best) implies t.contains(
            k,
        ) by {
            if k < front.len() {
                assert(front[k] == f[k]);
                assert(r.contains(k));
                let m = choose|m: int| 0 <= m < r.len() && r[m] == k;
                assert(t[m] == k);
            } else {
                assert(t[t.len() - 1] == k);
            }
        }
    }
}

/// No threshold of the grid has a larger mean than the one the suggestion is
/// held against; the suggestion for the risk question is the lowest that is
/// as good, and that for dictation is not below it.
pub proof fn law_suggestion_is_the_lowest_of_the_best(pairs: Seq<(Double, bool)>, k: int)
    requires
        0 <= k < 19,
    ensures
        ({
            let f = means_of(pairs, 19);
            &&& !f[k].above(largest(f))
            &&& f.contains(largest(f))
            &&& f[k].close(largest(f)) ==> best_place(pairs, Tie::Low) <= k
            &&& best_place(pairs, Tie::Low) <= best_place(pairs, Tie::Middle)
        }),
{
    let f = means_of(pairs, 19);
    let best = largest(f);
    assert forall|i: int| 0 <= i < f.len() implies (#[trigger] f[i]).under > 0 by {
        law_mean_is_a_share(counts_at(pairs, grid_at(i)));
    }
    lemma_largest(f);
    lemma_largest_is_one(f);
    lemma_close_to_largest(f, best);
    lemma_close_to_order(f, best);
    let tied = close_to(f, best);
    if f[k].close(best) {
        assert(tied.contains(k));
        let m = choose|m: int| 0 <= m < tied.len() && tied[m] == k;
        if m > 0 {
            assert(tied[0] < tied[m]);
        }
    }
    if tied.len() as int / 2 > 0 {
        assert(tied[0] < tied[tied.len() as int / 2]);
    }
}

/// A sweep sets the floor and the level to act at, and nothing else.
pub proof fn law_sweep_leaves_the_other_thresholds(policy: Policy, min: int, act: int)
    ensures
        swept(policy, min, act).min_confidence == grid_at(min),
        swept(policy, min, act).act_unconfirmed_above == grid_at(act),
        swept(policy, min, act).dictation_threshold == policy.dictation_threshold,
        swept(policy, min, act).destructive_threshold == policy.destructive_threshold,
{
}

} // verus!
