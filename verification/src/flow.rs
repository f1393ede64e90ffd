//! Dictation: from what was heard to what gets typed.
//!
//! A transcript goes through, in order: the snippets, the dictionary's
//! replacements, and, for applications whose profile asks for it, the cleanup
//! model. When cleanup fails, or its output cannot be a cleanup of what was
//! said, the transcript is typed instead: a slow model costs latency, never
//! words.
use vstd::prelude::*;

use crate::breaks::spoken_breaks;
use crate::config::FlowBackend;
use crate::text::{concat2, concat3, join_from, slice_text, split_on, to_chars, trim};

verus! {

pub const CLEANUP_PROMPT: &'static str = "You clean up text that a person dictated by voice, so it can be typed where they were writing. Output the cleaned text and nothing else: no preamble, no quotes around it, no explanation.\n\nRules:\n- Remove filler words and false starts: um, uh, er, hmm, like, you know, I mean, sort of, basically, actually, so at the start of a sentence.\n- When the speaker corrects themselves (\"send it Monday, no, Tuesday\"; \"make that three, I mean four\"; \"scratch that\"), keep only the final version.\n- Fix punctuation and capitalisation. Spoken punctuation becomes the symbol: \"period\", \"comma\", \"question mark\", \"exclamation mark\", \"colon\", \"open quote\"; \"new line\" becomes a line break and \"new paragraph\" a blank line.\n- When the speaker clearly enumerates items, lay them out as a list.\n- Keep the meaning, the language and the speaker's own wording. Never answer, summarise, translate, or add anything that was not said.\n- Plain text only: no markdown headings, bold or code fences. A list is lines starting with \"- \" or the numbers the speaker used.\n- If the text is already clean, return it unchanged.";

pub const EDIT_PROMPT: &'static str = "You edit text for a person who dictates by voice. You are given the current text and an instruction they spoke. Apply the instruction to the text and output only the resulting text: no preamble, no quotes around it, no explanation. Keep everything the instruction does not ask you to change. If the instruction asks a question or is not about the text, output the text unchanged.";

pub const EDIT_CODE: &'static str = "\n\nThe text is code or a command line: keep it literal.";

pub const EDIT_WORDS: &'static str = "\n\nSpell these names and terms exactly so: ";

pub const CLEANUP_WORDS: &'static str = "\n\nSpell these names and terms exactly so, even if they were transcribed differently: ";

/// How an application likes its text.
#[derive(Clone, Debug)]
pub struct Profile {
    pub name: String,
    /// What the model is told about the register.
    pub guidance: String,
    /// Whether the register is that of code.
    pub code: bool,
    /// Whether dictation goes through the model at all.
    pub cleanup: bool,
    /// What the person adds to the guidance.
    pub instructions: String,
}

/// A sentence that lists words to be spelled as they stand; nothing where
/// there are none.
pub open spec fn spelling(lead: Seq<char>, words: Seq<Seq<char>>) -> Seq<char> {
    if words.len() == 0 {
        Seq::empty()
    } else {
        lead + crate::text::join(words, ", "@) + "."@
    }
}

fn spelled(lead: &str, words: &Vec<String>) -> (r: String)
    ensures
        r@ == spelling(lead@, crate::text::texts(words@)),
{
    if words.len() == 0 {
        return String::new();
    }
    assert(crate::text::texts(words@).skip(0) =~= crate::text::texts(words@));
    let list = join_from(words, 0, ", ");
    concat3(lead, list.as_str(), ".")
}

/// What the cleanup model is told.
pub open spec fn cleanup_system(p: Profile, words: Seq<Seq<char>>) -> Seq<char> {
    let extra = crate::text::trimmed(p.instructions@);
    CLEANUP_PROMPT@ + "\n\n"@ + p.guidance@ + (if extra.len() == 0 {
        Seq::empty()
    } else {
        " "@ + extra
    }) + spelling(CLEANUP_WORDS@, words)
}

/// What the cleanup model is told: the rules, the register, what the person
/// adds, and the words to be spelled as they stand.
pub fn cleanup_prompt(profile: &Profile, words: &Vec<String>) -> (r: String)
    ensures
        r@ == cleanup_system(*profile, crate::text::texts(words@)),
{
    let mut system = concat3(CLEANUP_PROMPT, "\n\n", profile.guidance.as_str());
    let extra = trim(profile.instructions.as_str());
    if !extra.as_str().is_empty() {
        let more = concat2(" ", extra.as_str());
        system.append(more.as_str());
    } else {
        assert(system@ + Seq::<char>::empty() =~= system@);
    }
    let tail = spelled(CLEANUP_WORDS, words);
    system.append(tail.as_str());
    system
}

/// What the edit model is told.
pub open spec fn edit_system(code: bool, words: Seq<Seq<char>>) -> Seq<char> {
    EDIT_PROMPT@ + (if code {
        EDIT_CODE@
    } else {
        Seq::empty()
    }) + spelling(EDIT_WORDS@, words)
}

/// What the edit model is told.
pub fn edit_prompt(profile: &Profile, words: &Vec<String>) -> (r: String)
    ensures
        r@ == edit_system(profile.code, crate::text::texts(words@)),
{
    let mut system = EDIT_PROMPT.to_string();
    if profile.code {
        system.append(EDIT_CODE);
    } else {
        assert(system@ + Seq::<char>::empty() =~= system@);
    }
    let tail = spelled(EDIT_WORDS, words);
    system.append(tail.as_str());
    system
}

/// What the edit model is asked.
pub fn edit_request(text: &str, instruction: &str) -> (r: String)
    ensures
        r@ == "Text:\n"@ + text@ + "\n\nInstruction: "@ + instruction@,
{
    let mut out = concat3("Text:\n", text, "\n\nInstruction: ");
    out.append(instruction);
    out
}

/// The lines of a text, a line break at its end not counted as one more.
pub open spec fn lines_of(s: Seq<char>) -> Seq<Seq<char>> {
    let all = crate::text::pieces(s, '\n');
    if all.last().len() == 0 {
        all.drop_last()
    } else {
        all
    }
}

/// A line without the whitespace at its end.
pub open spec fn line_end_trimmed(s: Seq<char>) -> Seq<char> {
    crate::text::drop_back(s, |c: char| crate::text::white_space(c))
}

/// A text without trailing spaces on any line.
pub open spec fn tidied(s: Seq<char>) -> Seq<char> {
    crate::text::join(lines_of(s).map_values(|l: Seq<char>| line_end_trimmed(l)), "\n"@)
}

fn trim_end(s: &str) -> (r: String)
    ensures
        r@ == line_end_trimmed(s@),
{
    let v = to_chars(s);
    let mut n: usize = v.len();
    while n > 0 && v[n - 1].is_whitespace()
        invariant
            n <= v@.len(),
            forall|i: int| n <= i < v@.len() ==> crate::text::white_space(#[trigger] v@[i]),
        decreases n,
    {
        n = n - 1;
    }
    proof {
        crate::text::lemma_drop_back_is(v@, |c: char| crate::text::white_space(c), n as int);
    }
    let r = slice_text(&v, 0, n);
    assert(v@.subrange(0, n as int) =~= v@.take(n as int));
    r
}

/// Trailing spaces off every line: markdown's two-space line breaks would be
/// typed literally.
pub fn tidy_lines(text: &str) -> (r: String)
    ensures
        r@ == tidied(text@),
{
    let all = split_on(text, '\n');
    let ghost lines = lines_of(text@);
    proof {
        crate::text::lemma_pieces_some(text@, '\n');
        assert(crate::text::texts(all@).len() == all@.len());
        assert(crate::text::texts(all@).last() == all@[all@.len() - 1]@);
    }
    let count: usize = if all[all.len() - 1].as_str().is_empty() {
        all.len() - 1
    } else {
        all.len()
    };
    let mut out: Vec<String> = Vec::new();
    let mut i: usize = 0;
    while i < count
        invariant
            i <= count <= all@.len(),
            out@.len() == i,
            forall|k: int| 0 <= k < i ==> (#[trigger] out@[k])@ == line_end_trimmed(all@[k]@),
        decreases count - i,
    {
        out.push(trim_end(all[i].as_str()));
        i = i + 1;
    }
    proof {
        assert(lines.len() == count);
        assert forall|k: int| 0 <= k < count implies #[trigger] lines[k] == all@[k]@ by {
            assert(crate::text::texts(all@)[k] == all@[k]@);
        }
        assert(crate::text::texts(out@) =~= lines.map_values(
            |l: Seq<char>| line_end_trimmed(l),
        ));
        assert(crate::text::texts(out@).skip(0) =~= crate::text::texts(out@));
    }
    join_from(&out, 0, "\n")
}

/// Whether `s` starts with `open` and ends with `close`, as two characters.
pub open spec fn wrapped(s: Seq<char>, open: char, close: char) -> bool {
    s.len() >= 2 && s[0] == open && s.last() == close
}

/// Whether the speaker's own text starts with a quote.
pub open spec fn starts_quoted(raw: Seq<char>) -> bool {
    raw.len() > 0 && (raw[0] == '"' || raw[0] == '\u{201c}' || raw[0] == '\u{ab}')
}

/// A text without one pair of quotes around it that the speaker did not say.
pub open spec fn unquoted(out: Seq<char>, raw: Seq<char>) -> Seq<char> {
    if !starts_quoted(raw) && (wrapped(out, '"', '"') || wrapped(out, '\u{201c}', '\u{201d}')
        || wrapped(out, '\u{ab}', '\u{bb}')) {
        crate::text::trimmed(out.subrange(1, out.len() - 1))
    } else {
        out
    }
}

/// Strip one pair of surrounding quotes the model added when `raw` had none.
pub fn unquote(out: &str, raw: &str) -> (r: String)
    ensures
        r@ == unquoted(out@, raw@),
{
    let r = to_chars(raw);
    let v = to_chars(out);
    let spoken = r.len() > 0 && (r[0] == '"' || r[0] == '\u{201c}' || r[0] == '\u{ab}');
    if !spoken && v.len() >= 2 {
        let (a, b) = (v[0], v[v.len() - 1]);
        if (a == '"' && b == '"') || (a == '\u{201c}' && b == '\u{201d}') || (a == '\u{ab}' && b
            == '\u{bb}') {
            let inner = slice_text(&v, 1, v.len() - 1);
            return trim(inner.as_str());
        }
    }
    out.to_string()
}

/// The model's output as it would be typed.
pub open spec fn settled(out: Seq<char>, raw: Seq<char>) -> Seq<char> {
    tidied(unquoted(crate::text::trimmed(out), raw))
}

fn settle(out: &str, raw: &str) -> (r: String)
    ensures
        r@ == settled(out@, raw@),
{
    let bare = trim(out);
    let open = unquote(bare.as_str(), raw);
    tidy_lines(open.as_str())
}

/// The cleaned text; None when the output cannot be a cleanup of `raw`: empty,
/// or so long that something must have been added.
pub open spec fn accepted(raw: Seq<char>, out: Seq<char>) -> Option<Seq<char>> {
    let text = settled(out, raw);
    if text.len() == 0 || text.len() > raw.len() * 2 + 40 {
        None
    } else {
        Some(text)
    }
}

/// The cleaned text, or None when the model's output cannot be trusted to be a
/// cleanup of `raw`.
pub fn accept(raw: &str, out: &str) -> (r: Option<String>)
    ensures
        crate::intent::opt_text(r) == accepted(raw@, out@),
{
    let text = settle(out, raw);
    let n: usize = to_chars(text.as_str()).len();
    if n == 0 {
        return None;
    }
    let limit: u128 = to_chars(raw).len() as u128 * 2 + 40;
    if n as u128 > limit {
        return None;
    }
    Some(text)
}

/// The edited text, or None when the model returned nothing.
pub fn edited(out: &str, text: &str) -> (r: Option<String>)
    ensures
        crate::intent::opt_text(r) == if settled(out@, text@).len() == 0 {
            None
        } else {
            Some(settled(out@, text@))
        },
{
    let t = settle(out, text);
    if t.as_str().is_empty() {
        None
    } else {
        Some(t)
    }
}

/// What is accepted is never longer than twice what was said and a little.
pub proof fn law_accepted_text_is_bounded(raw: Seq<char>, out: Seq<char>)
    ensures
        accepted(raw, out) matches Some(t) ==> 0 < t.len() <= raw.len() * 2 + 40,
{
}

/// What a transcript became.
#[derive(Clone, Debug, PartialEq, Eq)]
pub struct Processed {
    pub text: String,
    /// "snippet", "typed" (cleaned), "raw" (cleanup off or failed) or
    /// "edited".
    pub outcome: &'static str,
    /// Name of the profile that applied, empty for a snippet.
    pub profile: String,
}

/// A [`Processed`] as character sequences.
pub ghost struct ProcessedView {
    pub text: Seq<char>,
    pub outcome: Seq<char>,
    pub profile: Seq<char>,
}

impl View for Processed {
    type V = ProcessedView;

    open spec fn view(&self) -> ProcessedView {
        ProcessedView { text: self.text@, outcome: self.outcome@, profile: self.profile@ }
    }
}

/// What is typed of a transcript that skips the model.
pub open spec fn raw_of(replaced: Seq<char>, profile: Profile) -> ProcessedView {
    ProcessedView {
        text: crate::breaks::broken(replaced),
        outcome: "raw"@,
        profile: profile.name@,
    }
}

/// The transcript as heard, with its spoken breaks made.
pub fn raw(replaced: &str, profile: &Profile) -> (r: Processed)
    ensures
        r@ == raw_of(replaced@, *profile),
{
    Processed {
        text: spoken_breaks(replaced),
        outcome: "raw",
        profile: profile.name.clone(),
    }
}

/// What is done with a transcript.
#[derive(Clone, Debug, PartialEq, Eq)]
pub enum Plan {
    /// It can be typed already.
    Ready(Processed),
    /// The model is told `system` and handed `user`.
    Generate { system: String, user: String },
}

/// A [`Plan`] as character sequences.
pub ghost enum PlanView {
    Ready(ProcessedView),
    Generate { system: Seq<char>, user: Seq<char> },
}

impl View for Plan {
    type V = PlanView;

    open spec fn view(&self) -> PlanView {
        match self {
            Plan::Ready(p) => PlanView::Ready(p@),
            Plan::Generate { system, user } => PlanView::Generate {
                system: system@,
                user: user@,
            },
        }
    }
}

/// What is done with a transcript: a snippet's name types the snippet and
/// nothing else; without a model, or where the profile wants none, the
/// transcript is typed as heard; else the model cleans it up.
pub open spec fn planned(
    snippet: Option<Seq<char>>,
    replaced: Seq<char>,
    profile: Profile,
    words: Seq<Seq<char>>,
    model: bool,
) -> PlanView {
    match snippet {
        Some(text) => PlanView::Ready(
            ProcessedView { text, outcome: "snippet"@, profile: Seq::empty() },
        ),
        None => if model && profile.cleanup {
            PlanView::Generate { system: cleanup_system(profile, words), user: replaced }
        } else {
            PlanView::Ready(raw_of(replaced, profile))
        },
    }
}

/// What is done with a transcript. `snippet` is the text of the snippet it
/// names, `replaced` the transcript with the dictionary's replacements made,
/// `words` the dictionary's words, `model` whether there is one.
pub fn plan(
    snippet: Option<String>,
    replaced: &str,
    profile: &Profile,
    words: &Vec<String>,
    model: bool,
) -> (r: Plan)
    ensures
        r@ == planned(
            crate::intent::opt_text(snippet),
            replaced@,
            *profile,
            crate::text::texts(words@),
            model,
        ),
{
    match snippet {
        Some(text) => Plan::Ready(
            Processed { text, outcome: "snippet", profile: String::new() },
        ),
        None => {
            if model && profile.cleanup {
                Plan::Generate {
                    system: cleanup_prompt(profile, words),
                    user: replaced.to_string(),
                }
            } else {
                Plan::Ready(raw(replaced, profile))
            }
        },
    }
}

/// What the model's reply came to.
#[derive(Clone, Debug, PartialEq, Eq)]
pub enum Finish {
    /// A cleanup: it is typed once the dictionary's replacements are made.
    Cleaned(String),
    /// No reply, or one that is no cleanup: the transcript is typed instead.
    Raw(Processed),
}

/// A [`Finish`] as character sequences.
pub ghost enum FinishView {
    Cleaned(Seq<char>),
    Raw(ProcessedView),
}

impl View for Finish {
    type V = FinishView;

    open spec fn view(&self) -> FinishView {
        match self {
            Finish::Cleaned(t) => FinishView::Cleaned(t@),
            Finish::Raw(p) => FinishView::Raw(p@),
        }
    }
}

/// What the model's reply to `replaced` came to; None stands for no reply.
pub open spec fn finished(
    replaced: Seq<char>,
    profile: Profile,
    reply: Option<Seq<char>>,
) -> FinishView {
    match reply {
        Some(out) => match accepted(replaced, out) {
            Some(t) => FinishView::Cleaned(t),
            None => FinishView::Raw(raw_of(replaced, profile)),
        },
        None => FinishView::Raw(raw_of(replaced, profile)),
    }
}

/// What the model's reply to `replaced` came to.
pub fn finish(replaced: &str, profile: &Profile, reply: Option<&str>) -> (r: Finish)
    ensures
        r@ == finished(replaced@, *profile, crate::config::opt_str(reply)),
{
    match reply {
        Some(out) => match accept(replaced, out) {
            Some(t) => Finish::Cleaned(t),
            None => Finish::Raw(raw(replaced, profile)),
        },
        None => Finish::Raw(raw(replaced, profile)),
    }
}

/// A cleaned text, with the dictionary's replacements made, as it is typed.
pub fn typed(text: String, profile: &Profile) -> (r: Processed)
    ensures
        r@ == (ProcessedView { text: text@, outcome: "typed"@, profile: profile.name@ }),
{
    Processed { text, outcome: "typed", profile: profile.name.clone() }
}

/// Whatever the model does, words are not lost: without a usable reply the
/// transcript itself is typed.
pub proof fn law_failed_cleanup_types_the_transcript(replaced: Seq<char>, profile: Profile)
    ensures
        finished(replaced, profile, None) == FinishView::Raw(raw_of(replaced, profile)),
        finished(replaced, profile, Some(Seq::empty())) == FinishView::Raw(
            raw_of(replaced, profile),
        ),
{
    let none = Seq::<char>::empty();
    assert(crate::text::trimmed(none) =~= none) by {
        crate::text::lemma_drop_front(none, |c: char| crate::text::white_space(c));
        crate::text::lemma_drop_back(none, |c: char| crate::text::white_space(c));
    }
    assert(unquoted(none, replaced) == none);
    assert(lines_of(none).len() == 0);
    assert(settled(none, replaced).len() == 0);
}

/// A snippet is typed as it stands, whatever the profile and the model.
pub proof fn law_snippets_skip_everything(
    text: Seq<char>,
    replaced: Seq<char>,
    profile: Profile,
    words: Seq<Seq<char>>,
    model: bool,
)
    ensures
        planned(Some(text), replaced, profile, words, model) == PlanView::Ready(
            ProcessedView { text, outcome: "snippet"@, profile: Seq::empty() },
        ),
{
}

/// The system text and the request for a spoken edit; None without a model.
pub fn plan_edit(
    text: &str,
    instruction: &str,
    profile: &Profile,
    words: &Vec<String>,
    model: bool,
) -> (r: Option<(String, String)>)
    ensures
        match r {
            None => !model,
            Some((system, user)) => model && system@ == edit_system(
                profile.code,
                crate::text::texts(words@),
            ) && user@ == "Text:\n"@ + text@ + "\n\nInstruction: "@ + instruction@,
        },
{
    if model {
        Some((edit_prompt(profile, words), edit_request(text, instruction)))
    } else {
        None
    }
}

/// What the recogniser is primed with: the configured prompt, then the
/// dictionary's words.
pub open spec fn primed(base: Option<Seq<char>>, words: Option<Seq<char>>) -> Option<Seq<char>> {
    match (base, words) {
        (Some(b), Some(w)) => Some(b + " "@ + w),
        (Some(b), None) => Some(b),
        (None, w) => w,
    }
}

/// What the recogniser is primed with: the configured prompt, then the
/// dictionary's words, so names are transcribed as they are spelled.
pub fn asr_prompt(base: Option<&str>, words: Option<&str>) -> (r: Option<String>)
    ensures
        crate::intent::opt_text(r) == primed(
            crate::config::opt_str(base),
            crate::config::opt_str(words),
        ),
{
    match (base, words) {
        (Some(b), Some(w)) => Some(concat3(b, " ", w)),
        (Some(b), None) => Some(b.to_string()),
        (None, Some(w)) => Some(w.to_string()),
        (None, None) => None,
    }
}

/// Who rewrites dictation, once it is known what there is.
#[derive(Clone, Copy, Debug, PartialEq, Eq, Structural)]
pub enum Rewriter {
    Off,
    Local,
    OpenAi,
}

/// What is wrong with a local rewriter that has no model.
pub const NO_LOCAL_MODEL: &'static str = "flow.backend = \"local\" but no local model";

/// What is wrong with an edit without a rewriter.
pub const EDITS_NEED_CLEANUP: &'static str = "voice edits need flow.cleanup = true";

/// What is wrong with an edit that came to nothing.
pub const NOTHING_RETURNED: &'static str = "the model returned nothing";

/// Who rewrites dictation; None where the local model is wanted and missing.
pub fn rewriter(cleanup: bool, backend: FlowBackend, local: bool) -> (r: Option<Rewriter>)
    ensures
        r == if !cleanup {
            Some(Rewriter::Off)
        } else {
            match backend {
                FlowBackend::Local => if local {
                    Some(Rewriter::Local)
                } else {
                    None
                },
                FlowBackend::OpenAi => Some(Rewriter::OpenAi),
            }
        },
{
    if !cleanup {
        return Some(Rewriter::Off);
    }
    match backend {
        FlowBackend::Local => {
            if local {
                Some(Rewriter::Local)
            } else {
                None
            }
        },
        FlowBackend::OpenAi => Some(Rewriter::OpenAi),
    }
}

impl Rewriter {
    /// The cleanup backend for a log line, where `model` is its model.
    pub fn describe(self, model: &str) -> (r: String)
        ensures
            r@ == match self {
                Rewriter::Off => "off"@,
                Rewriter::Local => "local "@ + model@,
                Rewriter::OpenAi => "openai "@ + model@,
            },
    {
        match self {
            Rewriter::Off => "off".to_string(),
            Rewriter::Local => concat2("local ", model),
            Rewriter::OpenAi => concat2("openai ", model),
        }
    }
}

/// The model is asked exactly where there is one, the profile wants cleanup and
/// no snippet was named, and what it is handed is the transcript itself; else the
/// transcript is typed with its spoken breaks made.
pub proof fn law_the_model_is_asked_only_where_wanted(
    replaced: Seq<char>,
    profile: Profile,
    words: Seq<Seq<char>>,
    model: bool,
)
    ensures
        match planned(None, replaced, profile, words, model) {
            PlanView::Generate { user, .. } => model && profile.cleanup && user == replaced,
            PlanView::Ready(p) => !(model && profile.cleanup) && p.text == crate::breaks::broken(
                replaced,
            ) && p.outcome == "raw"@ && p.profile == profile.name@,
        },
{
}

/// A reply is typed exactly where it is accepted as a cleanup; else the
/// transcript is typed.
pub proof fn law_accepted_replies_are_typed(
    replaced: Seq<char>,
    profile: Profile,
    out: Seq<char>,
)
    ensures
        match finished(replaced, profile, Some(out)) {
            FinishView::Cleaned(t) => accepted(replaced, out) == Some(t),
            FinishView::Raw(p) => accepted(replaced, out) is None && p.text
                == crate::breaks::broken(replaced) && p.outcome == "raw"@,
        },
{
}

/// A reply of one line, without whitespace around it or quotes, is accepted as it
/// stands, unless it is empty or more than twice as long as the transcript and a
/// little.
pub proof fn law_plain_replies_are_kept(raw: Seq<char>, out: Seq<char>)
    requires
        !out.contains('\n'),
        out.len() > 0,
        !crate::text::white_space(out[0]),
        !crate::text::white_space(out.last()),
        out[0] != '"' && out[0] != '\u{201c}' && out[0] != '\u{ab}',
    ensures
        out.len() <= raw.len() * 2 + 40 ==> accepted(raw, out) == Some(out),
        out.len() > raw.len() * 2 + 40 ==> accepted(raw, out) is None,
{
    lemma_trimmed_already(out);
    lemma_one_line(out);
}

proof fn lemma_trimmed_already(out: Seq<char>)
    requires
        out.len() > 0 ==> !crate::text::white_space(out[0]) && !crate::text::white_space(
            out.last(),
        ),
    ensures
        crate::text::trimmed(out) == out,
        line_end_trimmed(out) == out,
{
    let ws = |c: char| crate::text::white_space(c);
    crate::text::lemma_drop_front_is(out, ws, 0);
    assert(out.skip(0) =~= out);
    crate::text::lemma_drop_back_is(out, ws, out.len() as int);
    assert(out.take(out.len() as int) =~= out);
}

proof fn lemma_one_line(out: Seq<char>)
    requires
        !out.contains('\n'),
        out.len() > 0,
    ensures
        tidied(out) == line_end_trimmed(out),
{
    crate::text::lemma_pieces_without(out, '\n');
    let lines = lines_of(out);
    assert(lines =~= seq![out]);
    let ends = lines.map_values(|l: Seq<char>| line_end_trimmed(l));
    assert(ends =~= seq![line_end_trimmed(out)]);
    crate::text::lemma_join_one(line_end_trimmed(out), "\n"@);
}

/// Quotes that the model put around its reply are taken off, and those that the
/// speaker said are left: of a reply of one line what stands between them is
/// typed.
pub proof fn law_added_quotes_are_taken_off(raw: Seq<char>, inner: Seq<char>, open: char, close: char)
    requires
        !inner.contains('\n'),
        inner.len() > 0,
        !crate::text::white_space(inner[0]),
        !crate::text::white_space(inner.last()),
        (open == '"' && close == '"') || (open == '\u{201c}' && close == '\u{201d}') || (open
            == '\u{ab}' && close == '\u{bb}'),
    ensures
        ({
            let out = seq![open] + inner + seq![close];
            let spoken = raw.len() > 0 && (raw[0] == '"' || raw[0] == '\u{201c}' || raw[0]
                == '\u{ab}');
            settled(out, raw) == if spoken {
                out
            } else {
                inner
            }
        }),
{
    let out = seq![open] + inner + seq![close];
    assert(out[0] == open && out.last() == close);
    assert(!out.contains('\n')) by {
        assert forall|i: int| 0 <= i < out.len() implies out[i] != '\n' by {
            if 0 < i < out.len() - 1 {
                assert(out[i] == inner[i - 1]);
                assert(inner.contains(inner[i - 1]));
            }
        }
    }
    lemma_trimmed_already(out);
    lemma_trimmed_already(inner);
    lemma_one_line(out);
    lemma_one_line(inner);
    assert(out.subrange(1, out.len() - 1) =~= inner);
}

/// The words to be spelled follow the configured prompt, and neither is lost.
pub proof fn law_prompts_come_first(base: Seq<char>, words: Seq<char>)
    ensures
        primed(Some(base), Some(words)) == Some(base + " "@ + words),
        primed(Some(base), None) == Some(base),
        primed(None, Some(words)) == Some(words),
        primed(None, None) is None,
{
}

/// The edit model is told its task first, then to keep code literal where the
/// text is code and only there, then how words are spelled.
pub proof fn law_code_is_told_to_stay_literal(words: Seq<Seq<char>>)
    ensures
        edit_system(false, words) == EDIT_PROMPT@ + spelling(EDIT_WORDS@, words),
        edit_system(true, words) == EDIT_PROMPT@ + EDIT_CODE@ + spelling(EDIT_WORDS@, words),
        edit_system(true, words).len() > edit_system(false, words).len(),
{
    reveal_strlit("\n\nThe text is code or a command line: keep it literal.");
    assert(EDIT_PROMPT@ + Seq::<char>::empty() =~= EDIT_PROMPT@);
}

/// Quotes around nothing leave nothing, unless the speaker said a quote.
pub proof fn law_quotes_around_nothing_leave_nothing(raw: Seq<char>, open: char, close: char)
    requires
        (open == '"' && close == '"') || (open == '\u{201c}' && close == '\u{201d}') || (open
            == '\u{ab}' && close == '\u{bb}'),
    ensures
        ({
            let out = seq![open, close];
            let spoken = raw.len() > 0 && (raw[0] == '"' || raw[0] == '\u{201c}' || raw[0]
                == '\u{ab}');
            unquoted(out, raw) == if spoken {
                out
            } else {
                Seq::empty()
            }
        }),
{
    let out = seq![open, close];
    assert(out.subrange(1, out.len() - 1) =~= Seq::<char>::empty());
    assert(crate::text::trimmed(Seq::<char>::empty()) =~= Seq::<char>::empty()) by {
        let (a, b) = crate::text::law_trimming_takes_only_whitespace(Seq::<char>::empty());
    }
}

} // verus!
