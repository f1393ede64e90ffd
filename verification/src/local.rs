//! The model on this machine: how a question is laid out for it, and which
//! tokens are decoded where.
//!
//! Every question has a closed set of answers, so the model never writes one:
//! each option is scored as the probability of replying with exactly that
//! option. The prompt is decoded once and what it shares with the one before
//! is kept; the options of a question are scored side by side, each on a
//! sequence of its own forked from the prompt.
use vstd::prelude::*;

use crate::oracle::{Prose, ProseView, Question, QuestionView, Usage};
use crate::text::{concat3, decimal_text, join_from, slice_text, to_chars};

verus! {

/// Sequences a context may hold at once: the prompt and the options that are
/// scored side by side.
pub const SEQUENCES: usize = 64;

/// Tokens per decode call.
pub const BATCH: usize = 1024;

pub const JUDGE_SYSTEM_PROMPT: &'static str = "You judge what a user said to a voice assistant that controls a KDE Plasma desktop. You are shown the desktop's observed state as JSON and one question about the utterance. Reply with exactly one of the allowed answers and nothing else.";

/// What a generation produced.
#[derive(Clone, Debug)]
pub struct Generated {
    pub text: String,
    pub usage: Usage,
}

/// Plain text for prose: texts as they are, objects as `key: value` lines,
/// lists with commas between their items.
pub open spec fn flat(p: ProseView) -> Seq<char>
    decreases p,
{
    match p {
        ProseView::Null => Seq::empty(),
        ProseView::Bool(b) => if b {
            "true"@
        } else {
            "false"@
        },
        ProseView::Number(n) => crate::text::decimal(n as nat),
        ProseView::Text(s) => s,
        ProseView::List(items) => crate::text::join(flat_items(items), ", "@),
        ProseView::Object(fields) => crate::text::join(flat_fields(fields), "\n"@),
    }
}

/// Each item of a list as plain text.
pub open spec fn flat_items(items: Seq<ProseView>) -> Seq<Seq<char>>
    decreases items,
{
    if items.len() == 0 {
        Seq::empty()
    } else {
        flat_items(items.drop_last()).push(flat(items.last()))
    }
}

/// Each field of an object as a `key: value` text.
pub open spec fn flat_fields(fields: Seq<(Seq<char>, ProseView)>) -> Seq<Seq<char>>
    decreases fields,
{
    if fields.len() == 0 {
        Seq::empty()
    } else {
        flat_fields(fields.drop_last()).push(
            fields.last().0 + ": "@ + flat(fields.last().1),
        )
    }
}

/// Plain text for a question's prose.
pub fn prose(v: &Prose) -> (r: String)
    ensures
        r@ == flat(v@),
    decreases v,
{
    match v {
        Prose::Null => {
            let none = String::new();
            assert(none@ =~= flat(ProseView::Null));
            none
        },
        Prose::Bool(b) => {
            if *b {
                "true".to_string()
            } else {
                "false".to_string()
            }
        },
        Prose::Number(n) => decimal_text(*n),
        Prose::Text(s) => s.clone(),
        Prose::List(items) => {
            let ghost views = v@->List_0;
            let mut out: Vec<String> = Vec::new();
            assert(crate::text::texts(out@) =~= flat_items(views.take(0)));
            let mut i: usize = 0;
            while i < items.len()
                invariant
                    i <= items@.len(),
                    *v == Prose::List(*items),
                    out@.len() == i,
                    views == v@->List_0,
                    crate::text::texts(out@) == flat_items(views.take(i as int)),
                decreases items@.len() - i,
            {
                assert(decreases_to!(*v => v->List_0));
                assert(decreases_to!(*items => items@));
                assert(decreases_to!(items@ => items@[i as int]));
                let ghost before = out@;
                out.push(prose(&items[i]));
                proof {
                    assert(crate::text::texts(out@) =~= crate::text::texts(before).push(
                        flat(views[i as int]),
                    ));
                    assert(views.take(i + 1).drop_last() =~= views.take(i as int));
                }
                i = i + 1;
            }
            proof {
                assert(views.take(i as int) =~= views);
                assert(crate::text::texts(out@).skip(0) =~= crate::text::texts(out@));
            }
            join_from(&out, 0, ", ")
        },
        Prose::Object(fields) => {
            let ghost views = v@->Object_0;
            let mut out: Vec<String> = Vec::new();
            assert(crate::text::texts(out@) =~= flat_fields(views.take(0)));
            let mut i: usize = 0;
            while i < fields.len()
                invariant
                    i <= fields@.len(),
                    *v == Prose::Object(*fields),
                    out@.len() == i,
                    views == v@->Object_0,
                    crate::text::texts(out@) == flat_fields(views.take(i as int)),
                decreases fields@.len() - i,
            {
                assert(decreases_to!(*v => v->Object_0));
                assert(decreases_to!(*fields => fields@));
                assert(decreases_to!(fields@ => fields@[i as int]));
                assert(decreases_to!(fields@[i as int] => fields@[i as int].1));
                let value = prose(&fields[i].1);
                let ghost before = out@;
                out.push(concat3(fields[i].0.as_str(), ": ", value.as_str()));
                proof {
                    assert(crate::text::texts(out@) =~= crate::text::texts(before).push(
                        views[i as int].0 + ": "@ + flat(views[i as int].1),
                    ));
                    assert(views.take(i + 1).drop_last() =~= views.take(i as int));
                }
                i = i + 1;
            }
            proof {
                assert(views.take(i as int) =~= views);
                assert(crate::text::texts(out@).skip(0) =~= crate::text::texts(out@));
            }
            join_from(&out, 0, "\n")
        },
    }
}

/// A text with every line break made a space.
pub open spec fn on_one_line(s: Seq<char>) -> Seq<char> {
    s.map_values(
        |c: char|
            if c == '\n' {
                ' '
            } else {
                c
            },
    )
}

fn one_line(s: &str) -> (r: String)
    ensures
        r@ == on_one_line(s@),
{
    let v = to_chars(s);
    let mut out: Vec<char> = Vec::new();
    let mut i: usize = 0;
    while i < v.len()
        invariant
            i <= v@.len(),
            out@ =~= on_one_line(v@).take(i as int),
        decreases v@.len() - i,
    {
        out.push(
            if v[i] == '\n' {
                ' '
            } else {
                v[i]
            },
        );
        i = i + 1;
    }
    let r = slice_text(&out, 0, out.len());
    assert(r@ =~= on_one_line(s@));
    r
}

/// A question laid out for the model, with the options to score.
#[derive(Clone, Debug)]
pub struct Rendered {
    pub prompt: String,
    pub options: Vec<String>,
}

/// The lines of allowed answers, each a key with what it means.
pub open spec fn answer_lines(entries: Seq<(Seq<char>, ProseView)>) -> Seq<char>
    decreases entries.len(),
{
    if entries.len() == 0 {
        Seq::empty()
    } else {
        answer_lines(entries.drop_last()) + (entries.last().0 + ": "@ + on_one_line(
            flat(entries.last().1),
        ) + "\n"@)
    }
}

/// The levels of a score question under the numbers from 1.
pub open spec fn numbered(levels: Seq<ProseView>) -> Seq<(Seq<char>, ProseView)> {
    levels.map(|i: int, p: ProseView| (crate::text::decimal((i + 1) as nat), p))
}

/// What the model reads of a question.
pub open spec fn prompt_of(state: Seq<char>, q: QuestionView) -> Seq<char> {
    let lead = "Desktop state (JSON):\n"@ + state + "\n\n"@ + "Question: "@;
    match q {
        QuestionView::Noul { instructions, criteria } => lead + flat(instructions) + "\n"@ + (
        match criteria {
            Some(c) => "Answer yes if: "@ + c.yes + "\nAnswer no if: "@ + c.no + "\n"@,
            None => Seq::empty(),
        }) + "\nAllowed answers: yes, no\nReply with one word."@,
        QuestionView::Choice { instructions, criteria } => lead + flat(instructions)
            + "\n\nAllowed answers, one per line as `key: meaning`:\n"@ + answer_lines(criteria)
            + "\nReply with the key only."@,
        QuestionView::Score { instructions, criteria } => lead + flat(instructions)
            + "\n\nAllowed answers, one per line as `level: meaning`:\n"@ + answer_lines(
            numbered(criteria),
        ) + "\nReply with the level only."@,
    }
}

/// The options that are scored for a question, in order.
pub open spec fn options_of(q: QuestionView) -> Seq<Seq<char>> {
    match q {
        QuestionView::Noul { .. } => seq!["yes"@, "no"@],
        QuestionView::Choice { criteria, .. } => crate::oracle::keys_of(criteria),
        QuestionView::Score { criteria, .. } => numbered(criteria).map_values(
            |e: (Seq<char>, ProseView)| e.0,
        ),
    }
}

fn choice_lines(entries: &Vec<(String, Prose)>) -> (r: String)
    ensures
        r@ == answer_lines(entries@.map_values(|e: (String, Prose)| (e.0@, e.1@))),
{
    let ghost all = entries@.map_values(|e: (String, Prose)| (e.0@, e.1@));
    let mut out = String::new();
    let mut i: usize = 0;
    while i < entries.len()
        invariant
            i <= entries@.len(),
            all == entries@.map_values(|e: (String, Prose)| (e.0@, e.1@)),
            out@ == answer_lines(all.take(i as int)),
        decreases entries@.len() - i,
    {
        let meaning = prose(&entries[i].1);
        let line = one_line(meaning.as_str());
        let mut entry = concat3(entries[i].0.as_str(), ": ", line.as_str());
        entry.append("\n");
        out.append(entry.as_str());
        proof {
            assert(all.take(i + 1).drop_last() =~= all.take(i as int));
            assert(all.take(i + 1).last() == all[i as int]);
        }
        i = i + 1;
    }
    assert(all.take(i as int) =~= all);
    out
}

fn score_lines(levels: &Vec<Prose>) -> (r: (String, Vec<String>))
    ensures
        r.0@ == answer_lines(numbered(levels@.map_values(|p: Prose| p@))),
        crate::text::texts(r.1@) == numbered(levels@.map_values(|p: Prose| p@)).map_values(
            |e: (Seq<char>, ProseView)| e.0,
        ),
{
    let ghost all = numbered(levels@.map_values(|p: Prose| p@));
    let mut out = String::new();
    let mut keys: Vec<String> = Vec::new();
    let len: usize = levels.len();
    let mut i: usize = 0;
    while i < len
        invariant
            i <= len,
            len == levels@.len(),
            all == numbered(levels@.map_values(|p: Prose| p@)),
            out@ == answer_lines(all.take(i as int)),
            keys@.len() == i,
            forall|k: int| 0 <= k < i ==> (#[trigger] keys@[k])@ == all[k].0,
        decreases len - i,
    {
        let key = decimal_text(i as u64 + 1);
        let meaning = prose(&levels[i]);
        let line = one_line(meaning.as_str());
        let mut entry = concat3(key.as_str(), ": ", line.as_str());
        entry.append("\n");
        out.append(entry.as_str());
        keys.push(key);
        proof {
            assert(all.take(i + 1).drop_last() =~= all.take(i as int));
            assert(all.take(i + 1).last() == all[i as int]);
        }
        i = i + 1;
    }
    proof {
        assert(all.take(i as int) =~= all);
        assert(crate::text::texts(keys@) =~= all.map_values(|e: (Seq<char>, ProseView)| e.0));
    }
    (out, keys)
}

/// Lay one question out for the model: the state, the instructions, the
/// allowed answers. A yes/no question has the two options `yes` and `no`, in
/// that order.
pub fn render(state: &str, q: &Question) -> (r: Rendered)
    ensures
        r.prompt@ == prompt_of(state@, q@),
        crate::text::texts(r.options@) == options_of(q@),
{
    let mut text = concat3("Desktop state (JSON):\n", state, "\n\n");
    text.append("Question: ");
    match q {
        Question::Noul { instructions, criteria } => {
            let asked = prose(instructions);
            text.append(asked.as_str());
            text.append("\n");
            match criteria {
                Some(c) => {
                    let mut ends = concat3("Answer yes if: ", c.yes.as_str(), "\nAnswer no if: ");
                    ends.append(c.no.as_str());
                    ends.append("\n");
                    text.append(ends.as_str());
                },
                None => {
                    assert(text@ + Seq::<char>::empty() =~= text@);
                },
            }
            text.append("\nAllowed answers: yes, no\nReply with one word.");
            let options = vec!["yes".to_string(), "no".to_string()];
            assert(crate::text::texts(options@) =~= seq!["yes"@, "no"@]);
            Rendered { prompt: text, options }
        },
        Question::Choice { instructions, criteria } => {
            let asked = prose(instructions);
            text.append(asked.as_str());
            text.append("\n\nAllowed answers, one per line as `key: meaning`:\n");
            let lines = choice_lines(&criteria.entries);
            text.append(lines.as_str());
            text.append("\nReply with the key only.");
            Rendered { prompt: text, options: criteria.keys() }
        },
        Question::Score { instructions, criteria } => {
            let asked = prose(instructions);
            text.append(asked.as_str());
            text.append("\n\nAllowed answers, one per line as `level: meaning`:\n");
            let (lines, options) = score_lines(criteria);
            text.append(lines.as_str());
            text.append("\nReply with the level only.");
            Rendered { prompt: text, options }
        },
    }
}

/// The layout around one turn for a model that brings none of its own.
pub fn plain_layout(system: &str, user: &str) -> (r: String)
    ensures
        r@ == system@ + "\n\n"@ + user@ + "\n\nAnswer:"@,
{
    let mut out = concat3(system, "\n\n", user);
    out.append("\n\nAnswer:");
    out
}

/// Lists are laid out with commas, objects line by line: what is added comes
/// behind the rest.
pub proof fn law_prose_grows_at_the_end(
    items: Seq<ProseView>,
    item: ProseView,
    fields: Seq<(Seq<char>, ProseView)>,
    key: Seq<char>,
)
    ensures
        flat(ProseView::List(seq![item])) == flat(item),
        items.len() > 0 ==> flat(ProseView::List(items.push(item))) == flat(
            ProseView::List(items),
        ) + ", "@ + flat(item),
        flat(ProseView::Object(seq![(key, item)])) == key + ": "@ + flat(item),
        fields.len() > 0 ==> flat(ProseView::Object(fields.push((key, item)))) == flat(
            ProseView::Object(fields),
        ) + "\n"@ + (key + ": "@ + flat(item)),
{
    let one = seq![item];
    assert(one.drop_last() =~= Seq::<ProseView>::empty());
    reveal_with_fuel(flat_items, 2);
    assert(flat_items(one) =~= seq![flat(item)]);
    let field = seq![(key, item)];
    assert(field.drop_last() =~= Seq::<(Seq<char>, ProseView)>::empty());
    reveal_with_fuel(flat_fields, 2);
    assert(flat_fields(field) =~= seq![key + ": "@ + flat(item)]);
    lemma_flat_lens(items, fields);
    if items.len() > 0 {
        let more = items.push(item);
        assert(more.drop_last() =~= items);
        assert(flat_items(more) == flat_items(items).push(flat(item)));
        assert(flat_items(more).drop_last() =~= flat_items(items));
    }
    if fields.len() > 0 {
        let more = fields.push((key, item));
        assert(more.drop_last() =~= fields);
        assert(flat_fields(more) == flat_fields(fields).push(key + ": "@ + flat(item)));
        assert(flat_fields(more).drop_last() =~= flat_fields(fields));
    }
}

proof fn lemma_flat_lens(items: Seq<ProseView>, fields: Seq<(Seq<char>, ProseView)>)
    ensures
        flat_items(items).len() == items.len(),
        flat_fields(fields).len() == fields.len(),
    decreases items.len() + fields.len(),
{
    if items.len() > 0 {
        lemma_flat_lens(items.drop_last(), Seq::empty());
    }
    if fields.len() > 0 {
        lemma_flat_lens(Seq::empty(), fields.drop_last());
    }
}

/// Putting a text on one line changes its line breaks and nothing else.
pub proof fn law_one_line_keeps_the_rest(s: Seq<char>, i: int)
    requires
        0 <= i < s.len(),
    ensures
        on_one_line(s).len() == s.len(),
        on_one_line(s)[i] != '\n',
        s[i] != '\n' ==> on_one_line(s)[i] == s[i],
        s[i] == '\n' ==> on_one_line(s)[i] == ' ',
{
}

/// The allowed answers stand one to a line, in order, each under its key.
pub proof fn law_answers_stand_line_by_line(
    entries: Seq<(Seq<char>, ProseView)>,
    key: Seq<char>,
    meaning: ProseView,
)
    ensures
        answer_lines(entries.push((key, meaning))) == answer_lines(entries) + (key + ": "@
            + on_one_line(flat(meaning)) + "\n"@),
        answer_lines(Seq::empty()).len() == 0,
{
    assert(entries.push((key, meaning)).drop_last() =~= entries);
}

/// Every question shows the desktop first and then what is asked.
pub proof fn law_prompts_show_the_desktop_first(state: Seq<char>, q: QuestionView)
    ensures
        ({
            let asked = match q {
                QuestionView::Noul { instructions, .. } => flat(instructions),
                QuestionView::Choice { instructions, .. } => flat(instructions),
                QuestionView::Score { instructions, .. } => flat(instructions),
            };
            let lead = "Desktop state (JSON):\n"@ + state + "\n\nQuestion: "@ + asked;
            let p = prompt_of(state, q);
            p.len() >= lead.len() && p.take(lead.len() as int) == lead
        }),
{
    let asked = match q {
        QuestionView::Noul { instructions, .. } => flat(instructions),
        QuestionView::Choice { instructions, .. } => flat(instructions),
        QuestionView::Score { instructions, .. } => flat(instructions),
    };
    reveal_strlit("\n\n");
    reveal_strlit("Question: ");
    reveal_strlit("\n\nQuestion: ");
    assert("\n\n"@ + "Question: "@ =~= "\n\nQuestion: "@);
    let lead = "Desktop state (JSON):\n"@ + state + "\n\nQuestion: "@ + asked;
    assert(lead =~= "Desktop state (JSON):\n"@ + state + "\n\n"@ + "Question: "@ + asked);
    assert(prompt_of(state, q).take(lead.len() as int) =~= lead);
}

/// What is scored is what may be answered: yes before no, each key of a choice
/// in its order, and the levels of a score counted from 1.
pub proof fn law_every_allowed_answer_is_scored(q: QuestionView, i: int)
    ensures
        q is Noul ==> options_of(q) == seq!["yes"@, "no"@],
        q matches QuestionView::Choice { criteria, .. } ==> options_of(q).len() == criteria.len()
            && (0 <= i < criteria.len() ==> options_of(q)[i] == criteria[i].0),
        q matches QuestionView::Score { criteria, .. } ==> options_of(q).len() == criteria.len()
            && (0 <= i < criteria.len() ==> options_of(q)[i] == crate::text::decimal(
            (i + 1) as nat,
        )),
{
}

/// A yes/no question that says when the answer is yes says it before it says
/// when it is no.
pub proof fn law_yes_is_explained_before_no(
    state: Seq<char>,
    instructions: ProseView,
    c: crate::oracle::NoulCriteriaView,
)
    ensures
        ({
            let p = prompt_of(state, QuestionView::Noul { instructions, criteria: Some(c) });
            let tail = "Answer yes if: "@ + c.yes + "\nAnswer no if: "@ + c.no + "\n"@
                + "\nAllowed answers: yes, no\nReply with one word."@;
            p.len() >= tail.len() && p.skip(p.len() - tail.len()) == tail
        }),
{
    let p = prompt_of(state, QuestionView::Noul { instructions, criteria: Some(c) });
    let tail = "Answer yes if: "@ + c.yes + "\nAnswer no if: "@ + c.no + "\n"@
        + "\nAllowed answers: yes, no\nReply with one word."@;
    assert(p.skip(p.len() - tail.len()) =~= tail);
}

} // verus!
