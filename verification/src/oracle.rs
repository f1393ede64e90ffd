//! What the judged path asks and what it gets back, independent of who
//! answers.
//!
//! One evaluation carries a JSON state and a set of questions about it. A
//! yes/no question yields the probability of yes, a choice question one
//! option key with its probability.
use vstd::prelude::*;

use crate::double::Double;
use crate::text::same;

verus! {

/// The largest option set a choice question may carry.
pub const MAX_CHOICE_OPTIONS: usize = 255;

/// A question's instructions, or the description of an option: JSON, most
/// often a bare text. The fields of an object stand in the order of their
/// names.
#[derive(Debug)]
pub enum Prose {
    Null,
    Bool(bool),
    Number(u64),
    Text(String),
    List(Vec<Prose>),
    Object(Vec<(String, Prose)>),
}

/// A [`Prose`] with its texts as character sequences.
#[verifier::ext_equal]
pub ghost enum ProseView {
    Null,
    Bool(bool),
    Number(u64),
    Text(Seq<char>),
    List(Seq<ProseView>),
    Object(Seq<(Seq<char>, ProseView)>),
}

/// The view of `p`.
pub open spec fn prose_view(p: Prose) -> ProseView
    decreases p,
{
    match p {
        Prose::Null => ProseView::Null,
        Prose::Bool(b) => ProseView::Bool(b),
        Prose::Number(n) => ProseView::Number(n),
        Prose::Text(s) => ProseView::Text(s@),
        Prose::List(items) => ProseView::List(
            Seq::new(
                items@.len(),
                |i: int|
                    if 0 <= i < items@.len() {
                        prose_view(items@[i])
                    } else {
                        ProseView::Null
                    },
            ),
        ),
        Prose::Object(fields) => ProseView::Object(
            Seq::new(
                fields@.len(),
                |i: int|
                    if 0 <= i < fields@.len() {
                        (fields@[i].0@, prose_view(fields@[i].1))
                    } else {
                        (Seq::empty(), ProseView::Null)
                    },
            ),
        ),
    }
}

impl View for Prose {
    type V = ProseView;

    open spec fn view(&self) -> ProseView {
        prose_view(*self)
    }
}

impl Prose {
    /// The same value again.
    pub fn copy(&self) -> (r: Prose)
        ensures
            r@ == self@,
        decreases self,
    {
        match self {
            Prose::Null => Prose::Null,
            Prose::Bool(b) => Prose::Bool(*b),
            Prose::Number(n) => Prose::Number(*n),
            Prose::Text(s) => Prose::Text(s.clone()),
            Prose::List(items) => {
                let mut out: Vec<Prose> = Vec::new();
                let mut i: usize = 0;
                while i < items.len()
                    invariant
                        i <= items@.len(),
                        *self == Prose::List(*items),
                        out@.len() == i,
                        forall|k: int| 0 <= k < i ==> (#[trigger] out@[k])@ == items@[k]@,
                    decreases items@.len() - i,
                {
                    assert(decreases_to!(*self => self->List_0));
                    assert(decreases_to!(*items => items@));
                    assert(decreases_to!(items@ => items@[i as int]));
                    out.push(items[i].copy());
                    i = i + 1;
                }
                let r = Prose::List(out);
                assert(r@->List_0 =~= self@->List_0);
                r
            },
            Prose::Object(fields) => {
                let mut out: Vec<(String, Prose)> = Vec::new();
                let mut i: usize = 0;
                while i < fields.len()
                    invariant
                        i <= fields@.len(),
                        *self == Prose::Object(*fields),
                        out@.len() == i,
                        forall|k: int|
                            0 <= k < i ==> (#[trigger] out@[k]).0@ == fields@[k].0@ && out@[k].1@
                                == fields@[k].1@,
                    decreases fields@.len() - i,
                {
                    assert(decreases_to!(*self => self->Object_0));
                    assert(decreases_to!(*fields => fields@));
                    assert(decreases_to!(fields@ => fields@[i as int]));
                    assert(decreases_to!(fields@[i as int] => fields@[i as int].1));
                    out.push((fields[i].0.clone(), fields[i].1.copy()));
                    i = i + 1;
                }
                let r = Prose::Object(out);
                assert(r@->Object_0 =~= self@->Object_0);
                r
            },
        }
    }
}

/// The first value under `key` in a list of named values.
pub open spec fn find<T>(s: Seq<(Seq<char>, T)>, key: Seq<char>) -> Option<T>
    decreases s.len(),
{
    if s.len() == 0 {
        None
    } else if s[0].0 == key {
        Some(s[0].1)
    } else {
        find(s.drop_first(), key)
    }
}

/// In a list made of two, the first list is looked through first.
pub proof fn lemma_find_concat<T>(a: Seq<(Seq<char>, T)>, b: Seq<(Seq<char>, T)>, key: Seq<char>)
    ensures
        find(a + b, key) == match find(a, key) {
            Some(v) => Some(v),
            None => find(b, key),
        },
    decreases a.len(),
{
    if a.len() == 0 {
        assert(a + b =~= b);
    } else {
        assert((a + b).drop_first() =~= a.drop_first() + b);
        lemma_find_concat(a.drop_first(), b, key);
    }
}

/// The options of a choice question in the order the model reads them, each a
/// key with what it means.
#[derive(Debug)]
pub struct Criteria {
    pub entries: Vec<(String, Prose)>,
}

/// The options of a choice question as sequences.
pub type CriteriaView = Seq<(Seq<char>, ProseView)>;

impl View for Criteria {
    type V = CriteriaView;

    open spec fn view(&self) -> CriteriaView {
        self.entries@.map_values(|e: (String, Prose)| (e.0@, e.1@))
    }
}

/// Whether a key is among the options.
pub open spec fn offers(c: CriteriaView, key: Seq<char>) -> bool {
    exists|i: int| 0 <= i < c.len() && (#[trigger] c[i]).0 == key
}

/// The keys of the options, in order.
pub open spec fn keys_of(c: CriteriaView) -> Seq<Seq<char>> {
    c.map_values(|e: (Seq<char>, ProseView)| e.0)
}

impl Criteria {
    /// No options.
    pub fn new() -> (r: Criteria)
        ensures
            r@ == CriteriaView::empty(),
    {
        let r = Criteria { entries: Vec::new() };
        assert(r@ =~= CriteriaView::empty());
        r
    }

    /// One more option at the end.
    pub fn push(&mut self, key: String, meaning: Prose)
        ensures
            final(self)@ == old(self)@.push((key@, meaning@)),
    {
        let ghost before = self@;
        self.entries.push((key, meaning));
        assert(self@ =~= before.push((key@, meaning@)));
    }

    /// One more option, described by a text.
    pub fn add(&mut self, key: &str, meaning: &str)
        ensures
            final(self)@ == old(self)@.push((key@, ProseView::Text(meaning@))),
    {
        self.push(key.to_string(), Prose::Text(meaning.to_string()));
    }

    /// How many options there are.
    pub fn len(&self) -> (n: usize)
        ensures
            n == self@.len(),
    {
        self.entries.len()
    }

    /// Whether `key` is among the options.
    pub fn contains_key(&self, key: &str) -> (r: bool)
        ensures
            r == offers(self@, key@),
    {
        let mut i: usize = 0;
        while i < self.entries.len()
            invariant
                i <= self.entries@.len(),
                forall|k: int| 0 <= k < i ==> (#[trigger] self@[k]).0 != key@,
            decreases self.entries@.len() - i,
        {
            assert(self@[i as int].0 == self.entries@[i as int].0@);
            if same(self.entries[i].0.as_str(), key) {
                return true;
            }
            i = i + 1;
        }
        false
    }

    /// The keys, in order.
    pub fn keys(&self) -> (r: Vec<String>)
        ensures
            crate::text::texts(r@) == keys_of(self@),
    {
        let mut out: Vec<String> = Vec::new();
        let mut i: usize = 0;
        while i < self.entries.len()
            invariant
                i <= self.entries@.len(),
                out@.len() == i,
                forall|k: int| 0 <= k < i ==> (#[trigger] out@[k])@ == self.entries@[k].0@,
            decreases self.entries@.len() - i,
        {
            out.push(self.entries[i].0.clone());
            i = i + 1;
        }
        assert(crate::text::texts(out@) =~= keys_of(self@));
        out
    }

    /// The same options again.
    pub fn copy(&self) -> (r: Criteria)
        ensures
            r@ == self@,
    {
        let mut out: Vec<(String, Prose)> = Vec::new();
        let mut i: usize = 0;
        while i < self.entries.len()
            invariant
                i <= self.entries@.len(),
                out@.len() == i,
                forall|k: int|
                    0 <= k < i ==> (#[trigger] out@[k]).0@ == self.entries@[k].0@ && out@[k].1@
                        == self.entries@[k].1@,
            decreases self.entries@.len() - i,
        {
            out.push((self.entries[i].0.clone(), self.entries[i].1.copy()));
            i = i + 1;
        }
        let r = Criteria { entries: out };
        assert(r@ =~= self@);
        r
    }
}

/// What the ends of a yes/no question mean.
#[derive(Clone, Debug)]
pub struct NoulCriteria {
    /// What a value near 1 means.
    pub yes: String,
    /// What a value near 0 means.
    pub no: String,
}

/// [`NoulCriteria`] as character sequences.
pub ghost struct NoulCriteriaView {
    pub yes: Seq<char>,
    pub no: Seq<char>,
}

impl View for NoulCriteria {
    type V = NoulCriteriaView;

    open spec fn view(&self) -> NoulCriteriaView {
        NoulCriteriaView { yes: self.yes@, no: self.no@ }
    }
}

/// One question about the state.
#[allow(inconsistent_fields)]
#[derive(Debug)]
pub enum Question {
    /// Yes/no. The answer is the probability of yes.
    Noul { instructions: Prose, criteria: Option<NoulCriteria> },
    /// One option from a defined set.
    Choice { instructions: Prose, criteria: Criteria },
    /// A position along ordered levels.
    Score { instructions: Prose, criteria: Vec<Prose> },
}

/// A [`Question`] as sequences.
#[allow(inconsistent_fields)]
pub ghost enum QuestionView {
    Noul { instructions: ProseView, criteria: Option<NoulCriteriaView> },
    Choice { instructions: ProseView, criteria: CriteriaView },
    Score { instructions: ProseView, criteria: Seq<ProseView> },
}

/// The view of optional yes/no criteria.
pub open spec fn noul_view(c: Option<NoulCriteria>) -> Option<NoulCriteriaView> {
    match c {
        Some(c) => Some(c@),
        None => None,
    }
}

impl View for Question {
    type V = QuestionView;

    open spec fn view(&self) -> QuestionView {
        match self {
            Question::Noul { instructions, criteria } => QuestionView::Noul {
                instructions: instructions@,
                criteria: noul_view(*criteria),
            },
            Question::Choice { instructions, criteria } => QuestionView::Choice {
                instructions: instructions@,
                criteria: criteria@,
            },
            Question::Score { instructions, criteria } => QuestionView::Score {
                instructions: instructions@,
                criteria: criteria@.map_values(|p: Prose| p@),
            },
        }
    }
}

impl Question {
    /// The options a choice question offers; None for other kinds.
    pub fn options(&self) -> (r: Option<&Criteria>)
        ensures
            match self@ {
                QuestionView::Choice { criteria, .. } => r is Some && r->0@ == criteria,
                _ => r is None,
            },
    {
        match self {
            Question::Choice { criteria, .. } => Some(criteria),
            _ => None,
        }
    }

    /// The same question again.
    pub fn copy(&self) -> (r: Question)
        ensures
            r@ == self@,
    {
        match self {
            Question::Noul { instructions, criteria } => Question::Noul {
                instructions: instructions.copy(),
                criteria: match criteria {
                    Some(c) => Some(NoulCriteria { yes: c.yes.clone(), no: c.no.clone() }),
                    None => None,
                },
            },
            Question::Choice { instructions, criteria } => Question::Choice {
                instructions: instructions.copy(),
                criteria: criteria.copy(),
            },
            Question::Score { instructions, criteria } => {
                let mut out: Vec<Prose> = Vec::new();
                let mut i: usize = 0;
                while i < criteria.len()
                    invariant
                        i <= criteria@.len(),
                        out@.len() == i,
                        forall|k: int| 0 <= k < i ==> (#[trigger] out@[k])@ == criteria@[k]@,
                    decreases criteria@.len() - i,
                {
                    out.push(criteria[i].copy());
                    i = i + 1;
                }
                assert(out@.map_values(|p: Prose| p@) =~= criteria@.map_values(|p: Prose| p@));
                Question::Score { instructions: instructions.copy(), criteria: out }
            },
        }
    }
}

/// Questions by id, in the order of their ids.
pub type QuestionsView = Seq<(Seq<char>, QuestionView)>;

/// The view of a list of questions.
pub open spec fn questions_view(v: Seq<(String, Question)>) -> QuestionsView {
    v.map_values(|q: (String, Question)| (q.0@, q.1@))
}

/// Token accounting.
#[derive(Clone, Copy, Debug, PartialEq, Eq, Structural)]
pub struct Usage {
    pub input_tokens: u32,
    pub output_tokens: u32,
}

/// One answer.
#[allow(inconsistent_fields)]
#[derive(Clone, Debug)]
pub enum Answer {
    Noul { noul: Double },
    Choice { choice: String, confidence: Double, probabilities: Vec<(String, Double)> },
    Score { score: Double, confidence: Double },
    /// An answer type this client does not know; it reads as "not answered".
    Unknown,
}

/// An [`Answer`] as sequences.
#[allow(inconsistent_fields)]
pub ghost enum AnswerView {
    Noul { noul: Double },
    Choice { choice: Seq<char>, confidence: Double, probabilities: Seq<(Seq<char>, Double)> },
    Score { score: Double, confidence: Double },
    Unknown,
}

/// The view of a list of probabilities.
pub open spec fn weights(v: Seq<(String, Double)>) -> Seq<(Seq<char>, Double)> {
    v.map_values(|p: (String, Double)| (p.0@, p.1))
}

impl View for Answer {
    type V = AnswerView;

    open spec fn view(&self) -> AnswerView {
        match self {
            Answer::Noul { noul } => AnswerView::Noul { noul: *noul },
            Answer::Choice { choice, confidence, probabilities } => AnswerView::Choice {
                choice: choice@,
                confidence: *confidence,
                probabilities: weights(probabilities@),
            },
            Answer::Score { score, confidence } => AnswerView::Score {
                score: *score,
                confidence: *confidence,
            },
            Answer::Unknown => AnswerView::Unknown,
        }
    }
}

/// The answers by question id, and what they cost.
#[derive(Clone, Debug)]
pub struct Response {
    pub answers: Vec<(String, Answer)>,
    /// Informational: its absence does not throw away the answers.
    pub usage: Option<Usage>,
}

/// The answers by question id as sequences.
pub type AnswersView = Seq<(Seq<char>, AnswerView)>;

/// The view of a list of answers.
pub open spec fn answers_view(v: Seq<(String, Answer)>) -> AnswersView {
    v.map_values(|a: (String, Answer)| (a.0@, a.1@))
}

impl View for Response {
    type V = AnswersView;

    open spec fn view(&self) -> AnswersView {
        answers_view(self.answers@)
    }
}

/// The probability of yes answered for `id`; None when the question was not
/// answered, or not as a yes/no question.
pub open spec fn noul_of(answers: AnswersView, id: Seq<char>) -> Option<Double> {
    match find(answers, id) {
        Some(AnswerView::Noul { noul }) => Some(noul),
        _ => None,
    }
}

/// The option answered for `id` and its confidence; None when the question
/// was not answered, or not as a choice.
pub open spec fn choice_of(answers: AnswersView, id: Seq<char>) -> Option<(Seq<char>, Double)> {
    match find(answers, id) {
        Some(AnswerView::Choice { choice, confidence, .. }) => Some((choice, confidence)),
        _ => None,
    }
}

impl Response {
    /// The answer to the question `id`.
    pub fn answer(&self, id: &str) -> (r: Option<&Answer>)
        ensures
            match r {
                Some(a) => find(self@, id@) == Some(a@),
                None => find(self@, id@) is None,
            },
    {
        let mut i: usize = 0;
        assert(self@.skip(0) =~= self@);
        while i < self.answers.len()
            invariant
                i <= self.answers@.len(),
                find(self@, id@) == find(self@.skip(i as int), id@),
            decreases self.answers@.len() - i,
        {
            assert(self@.skip(i as int)[0] == (
                self.answers@[i as int].0@,
                self.answers@[i as int].1@,
            ));
            assert(self@.skip(i as int).drop_first() =~= self@.skip(i + 1));
            if same(self.answers[i].0.as_str(), id) {
                return Some(&self.answers[i].1);
            }
            i = i + 1;
        }
        None
    }

    /// Probability of yes for a yes/no question, or None if absent or of
    /// another type.
    pub fn noul(&self, id: &str) -> (r: Option<Double>)
        ensures
            r == noul_of(self@, id@),
    {
        match self.answer(id) {
            Some(Answer::Noul { noul }) => Some(*noul),
            _ => None,
        }
    }

    /// Chosen option and its confidence, or None if absent or of another
    /// type.
    pub fn choice(&self, id: &str) -> (r: Option<(&str, Double)>)
        ensures
            match r {
                Some((key, confidence)) => choice_of(self@, id@) == Some((key@, confidence)),
                None => choice_of(self@, id@) is None,
            },
    {
        match self.answer(id) {
            Some(Answer::Choice { choice, confidence, .. }) => Some((choice.as_str(), *confidence)),
            _ => None,
        }
    }

    /// The answers of two rounds, those of the second in front: where both
    /// answer a question the second round's answer stands. What they cost is
    /// added up.
    pub fn merge(self, more: Response) -> (r: Response)
        requires
            self.usage matches Some(u) ==> more.usage matches Some(m) ==> u.input_tokens
                + m.input_tokens <= u32::MAX && u.output_tokens + m.output_tokens <= u32::MAX,
        ensures
            r@ == more@ + self@,
            forall|id: Seq<char>|
                #[trigger]
                find(r@, id) == match find(more@, id) {
                    Some(a) => Some(a),
                    None => find(self@, id),
                },
            r.usage == (match (self.usage, more.usage) {
                (Some(u), Some(m)) => Some(
                    Usage {
                        input_tokens: (u.input_tokens + m.input_tokens) as u32,
                        output_tokens: (u.output_tokens + m.output_tokens) as u32,
                    },
                ),
                (u, _) => u,
            }),
    {
        let mut answers = more.answers;
        let mut first = self.answers;
        let ghost a = answers_view(answers@);
        let ghost b = answers_view(first@);
        answers.append(&mut first);
        let usage = match (self.usage, more.usage) {
            (Some(u), Some(m)) => Some(
                Usage {
                    input_tokens: u.input_tokens + m.input_tokens,
                    output_tokens: u.output_tokens + m.output_tokens,
                },
            ),
            (u, _) => u,
        };
        let r = Response { answers, usage };
        proof {
            assert(r@ =~= a + b);
            assert forall|id: Seq<char>|
                #[trigger]
                find(r@, id) == match find(more@, id) {
                    Some(a) => Some(a),
                    None => find(self@, id),
                } by {
                lemma_find_concat(a, b, id);
            }
        }
        r
    }
}

/// What is found under a key stands under that key, and nothing under it comes
/// before; nothing is found only where nothing stands under it.
pub proof fn law_first_under_the_key_is_found<T>(s: Seq<(Seq<char>, T)>, key: Seq<char>)
    ensures
        match find(s, key) {
            Some(v) => exists|i: int| #![trigger s[i]]
                0 <= i < s.len() && s[i] == (key, v) && forall|j: int|
                    0 <= j < i ==> (#[trigger] s[j]).0 != key,
            None => forall|j: int| 0 <= j < s.len() ==> (#[trigger] s[j]).0 != key,
        },
    decreases s.len(),
{
    if s.len() > 0 && s[0].0 != key {
        let t = s.drop_first();
        law_first_under_the_key_is_found(t, key);
        match find(t, key) {
            Some(v) => {
                let i = choose|i: int| #![trigger t[i]]
                    0 <= i < t.len() && t[i] == (key, v) && forall|j: int|
                        0 <= j < i ==> (#[trigger] t[j]).0 != key;
                assert(s[i + 1] == (key, v));
                assert forall|j: int| 0 <= j < i + 1 implies (#[trigger] s[j]).0 != key by {
                    if j > 0 {
                        assert(t[j - 1] == s[j]);
                    }
                }
            },
            None => {
                assert forall|j: int| 0 <= j < s.len() implies (#[trigger] s[j]).0 != key by {
                    if j > 0 {
                        assert(t[j - 1] == s[j]);
                    }
                }
            },
        }
    } else if s.len() > 0 {
        assert(s[0] == (key, s[0].1));
    }
}

/// An answer is read by its kind: a weight only where a yes or no was asked,
/// an option with its own confidence only where a choice was, and nothing
/// where nothing was answered.
pub proof fn law_answers_are_read_by_their_kind(answers: AnswersView, id: Seq<char>)
    ensures
        noul_of(answers, id) is None || choice_of(answers, id) is None,
        find(answers, id) is None ==> noul_of(answers, id) is None && choice_of(answers, id) is None,
        find(answers, id) matches Some(a) ==> {
            &&& a is Noul ==> noul_of(answers, id) == Some(a->noul)
            &&& a is Choice ==> choice_of(answers, id) == Some((a->choice, a->Choice_confidence))
            &&& a is Score || a is Unknown ==> noul_of(answers, id) is None && choice_of(
                answers,
                id,
            ) is None
        },
{
}

} // verus!
