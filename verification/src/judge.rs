//! The judged path: what to do with an utterance the grammar rejected.
//!
//! The model is asked which intent was meant, then only the questions that
//! intent still needs. Code owns which applications are installed, which
//! windows are open, how many desktops exist, what a cue phrase carries, and
//! what counts as confident enough to act. Every candidate is offered under an
//! opaque key (`a:3`, `w:0`, `p:2`) with the readable value in its
//! description, so a window titled `__none__` can never be mistaken for the
//! no-match option, and every returned choice is checked against what was
//! offered.
use vstd::prelude::*;

use crate::desktop::{Window, WindowView};
use crate::judge_text as wording;
use crate::oracle::{Criteria, CriteriaView, NoulCriteria, NoulCriteriaView, Prose, ProseView};
use crate::oracle::{Question, QuestionView, QuestionsView};
use crate::text::{concat2, concat3, decimal_text, join_from, quoted, same, split_words};

verus! {

/// Sentinel option names. Real candidates use `a:`/`w:`/`p:` keys, so these
/// cannot collide with anything observed.
pub const NO_TARGET: &'static str = "__none__";

pub const FOCUSED: &'static str = "__focused_window__";

/// The whole utterance as a payload, offered last.
pub const WHOLE: &'static str = "__whole__";

/// The three readings of an utterance the dictation question offers.
pub const DICTATION_COMMAND: &'static str = "command";

pub const DICTATION_TEXT: &'static str = "text";

pub const DICTATION_NEITHER: &'static str = "neither";

/// Opaque key prefixes for observed candidates.
pub const APP_KEY: &'static str = "a:";

pub const WINDOW_KEY: &'static str = "w:";

pub const SPAN_KEY: &'static str = "p:";

/// How many installed applications to offer.
pub const APP_CANDIDATES: usize = 24;

/// How many open windows to offer.
pub const WINDOW_CANDIDATES: usize = 96;

/// How many words of the utterance may start a payload.
pub const PAYLOAD_SPANS: usize = 64;

/// How many numbered desktops to offer.
pub const DESKTOP_CANDIDATES: u32 = 254;

/// One installed application offered to the model.
#[derive(Clone, Debug)]
pub struct AppCandidate {
    /// `.desktop` id, so a chosen application launches by id.
    pub id: String,
    pub name: String,
    pub generic_name: Option<String>,
}

/// An [`AppCandidate`] as character sequences.
pub ghost struct AppView {
    pub id: Seq<char>,
    pub name: Seq<char>,
    pub generic_name: Option<Seq<char>>,
}

impl View for AppCandidate {
    type V = AppView;

    open spec fn view(&self) -> AppView {
        AppView {
            id: self.id@,
            name: self.name@,
            generic_name: crate::intent::opt_text(self.generic_name),
        }
    }
}

/// The views of a list of applications.
pub open spec fn app_views(v: Seq<AppCandidate>) -> Seq<AppView> {
    v.map_values(|a: AppCandidate| a@)
}

/// The key of the candidate `i` of a kind.
pub open spec fn key_at(prefix: Seq<char>, i: int) -> Seq<char> {
    prefix + crate::text::decimal(i as nat)
}

fn numbered(prefix: &str, i: usize) -> (r: String)
    ensures
        r@ == key_at(prefix@, i as int),
{
    let n = decimal_text(i as u64);
    concat2(prefix, n.as_str())
}

/// What the model reads of an application.
pub open spec fn app_meaning(a: AppView) -> Seq<char> {
    match a.generic_name {
        Some(g) => "installed application "@ + a.name + " ("@ + g + ")"@,
        None => "installed application "@ + a.name,
    }
}

/// How many of the first `n` texts are `c`.
pub open spec fn count_of(texts: Seq<Seq<char>>, c: Seq<char>, n: int) -> nat
    decreases n,
{
    if n <= 0 {
        0
    } else {
        count_of(texts, c, n - 1) + if texts[n - 1] == c {
            1nat
        } else {
            0
        }
    }
}

/// For each text its number among the equal ones, from 1.
pub open spec fn numbers_of(texts: Seq<Seq<char>>) -> Seq<nat> {
    Seq::new(texts.len(), |i: int| count_of(texts, texts[i], i + 1))
}

/// The views of a list of counts.
pub open spec fn nats(v: Seq<usize>) -> Seq<nat> {
    v.map_values(|n: usize| n as nat)
}

/// For each text its number among the equal ones, from 1.
pub fn numbers(texts: &Vec<String>) -> (r: Vec<usize>)
    ensures
        nats(r@) == numbers_of(crate::text::texts(texts@)),
{
    let ghost all = crate::text::texts(texts@);
    let mut out: Vec<usize> = Vec::new();
    let total: usize = texts.len();
    let mut i: usize = 0;
    while i < total
        invariant
            i <= total,
            total == texts@.len(),
            all == crate::text::texts(texts@),
            out@.len() == i,
            forall|k: int| 0 <= k < i ==> #[trigger] out@[k] == count_of(all, all[k], k + 1),
        decreases total - i,
    {
        let mut n: usize = 0;
        let mut j: usize = 0;
        while j <= i
            invariant
                j <= i + 1,
                i < total,
                total == texts@.len(),
                all == crate::text::texts(texts@),
                n <= j,
                n == count_of(all, all[i as int], j as int),
            decreases i + 1 - j,
        {
            assert(all[j as int] == texts@[j as int]@);
            assert(all[i as int] == texts@[i as int]@);
            if same(texts[j].as_str(), texts[i].as_str()) {
                n = n + 1;
            }
            j = j + 1;
        }
        out.push(n);
        i = i + 1;
    }
    assert(nats(out@) =~= numbers_of(all));
    out
}

/// The lowercased classes of windows.
pub open spec fn classes_of(windows: Seq<WindowView>) -> Seq<Seq<char>> {
    windows.map_values(|w: WindowView| crate::text::lowered(w.class))
}

/// What the model reads of a window: its title only where titles are sent.
pub open spec fn window_meaning(w: WindowView, nth: nat, titles: bool) -> Seq<char> {
    if titles {
        "open window of "@ + w.class + ", titled "@ + crate::text::debug_text(w.title)
    } else {
        "open window #"@ + crate::text::decimal(nth) + " of "@ + w.class
    }
}

/// The options that name applications.
pub open spec fn app_options(apps: Seq<AppView>) -> CriteriaView {
    Seq::new(
        apps.len(),
        |i: int| (key_at(APP_KEY@, i), ProseView::Text(app_meaning(apps[i]))),
    )
}

/// The options that name windows, where `nth` numbers the windows of a class.
pub open spec fn window_options(windows: Seq<WindowView>, nth: Seq<nat>, titles: bool) -> CriteriaView {
    Seq::new(
        windows.len(),
        |i: int|
            (key_at(WINDOW_KEY@, i), ProseView::Text(window_meaning(windows[i], nth[i], titles))),
    )
}

/// The options of the target question: the candidates, then the two ways of
/// naming none of them.
pub open spec fn target_options(
    apps: Seq<AppView>,
    windows: Seq<WindowView>,
    nth: Seq<nat>,
    titles: bool,
) -> CriteriaView {
    app_options(apps) + window_options(windows, nth, titles) + seq![
        (FOCUSED@, ProseView::Text(wording::TARGET_FOCUSED@)),
        (NO_TARGET@, ProseView::Text(wording::TARGET_NONE@)),
    ]
}

/// How many desktops are offered.
pub open spec fn desktops_offered(count: u32) -> nat {
    if count < DESKTOP_CANDIDATES {
        count as nat
    } else {
        DESKTOP_CANDIDATES as nat
    }
}

/// The options of the desktop question: the numbers from 1, then none.
pub open spec fn desktop_options(count: u32) -> CriteriaView {
    Seq::new(
        desktops_offered(count),
        |i: int|
            (
                crate::text::decimal((i + 1) as nat),
                ProseView::Text(
                    "virtual desktop number "@ + crate::text::decimal((i + 1) as nat),
                ),
            ),
    ).push((NO_TARGET@, ProseView::Text(wording::DESKTOP_NONE@)))
}

/// The first span, or nothing.
pub open spec fn first_span(spans: Seq<Seq<char>>) -> Seq<char> {
    if spans.len() > 0 {
        spans[0]
    } else {
        ""@
    }
}

/// The options of the payload question: the spans from the second word on,
/// then none, and the whole utterance as the last resort.
pub open spec fn payload_options(spans: Seq<Seq<char>>) -> CriteriaView {
    Seq::new(
        if spans.len() > 0 {
            (spans.len() - 1) as nat
        } else {
            0
        },
        |i: int| (key_at(SPAN_KEY@, i + 1), ProseView::Text(spans[i + 1])),
    ) + seq![
        (NO_TARGET@, ProseView::Text(wording::PAYLOAD_NONE@)),
        (
            WHOLE@,
            ProseView::Text(
                wording::PAYLOAD_WHOLE_BEFORE@ + crate::text::debug_text(first_span(spans))
                    + wording::PAYLOAD_WHOLE_AFTER@,
            ),
        ),
    ]
}

/// A wish with examples of how it is said.
pub open spec fn wish(examples: Seq<ProseView>, what: Seq<char>) -> ProseView {
    ProseView::Object(
        seq![("examples"@, ProseView::List(examples)), ("what"@, ProseView::Text(what))],
    )
}

/// The description of the edit intent.
pub open spec fn edit_wish() -> ProseView {
    wish(
        seq![
            ProseView::Text("make that more formal"@),
            ProseView::Text("shorter"@),
            ProseView::Text("turn that into bullet points"@),
            ProseView::Text("translate that to Italian"@),
            ProseView::Text("capitalise the first word"@),
        ],
        wording::INTENT_EDIT_TEXT@,
    )
}

/// The description of the intent to show an application.
pub open spec fn show_wish() -> ProseView {
    wish(
        seq![
            ProseView::Text("open firefox"@),
            ProseView::Text("bring up my editor"@),
            ProseView::Text("run the calculator"@),
            ProseView::Text("switch to the browser"@),
            ProseView::Text("I need a terminal window"@),
        ],
        wording::INTENT_SHOW_APP@,
    )
}

/// The intents on offer, in the order the model reads them: the refusal
/// first, then the actions by name, `edit_text` among them only while a
/// dictation is fresh.
pub open spec fn intent_options(last_dictation: bool, assistant: Seq<char>) -> CriteriaView {
    seq![
        (NO_TARGET@, ProseView::Text(wording::INTENT_NONE@)),
        ("claude_model"@, ProseView::Text(wording::intent_claude_model(assistant))),
        ("claude_read"@, ProseView::Text(wording::intent_claude_read(assistant))),
        ("claude_tell"@, ProseView::Text(wording::intent_claude_tell(assistant))),
        ("close_window"@, ProseView::Text(wording::INTENT_CLOSE_WINDOW@)),
    ] + (if last_dictation {
        seq![("edit_text"@, edit_wish())]
    } else {
        Seq::empty()
    }) + seq![
        ("key"@, ProseView::Text(wording::INTENT_KEY@)),
        ("krunner"@, ProseView::Text(wording::INTENT_KRUNNER@)),
        ("maximize_window"@, ProseView::Text(wording::INTENT_MAXIMIZE@)),
        ("minimize_window"@, ProseView::Text(wording::INTENT_MINIMIZE@)),
        ("notify"@, ProseView::Text(wording::INTENT_NOTIFY@)),
        ("open_terminal"@, ProseView::Text(wording::INTENT_TERMINAL@)),
        ("show_app"@, show_wish()),
        ("start_claude"@, ProseView::Text(wording::intent_start_claude(assistant))),
        ("virtual_desktop"@, ProseView::Text(wording::INTENT_DESKTOP@)),
        ("virtual_desktop_rel"@, ProseView::Text(wording::INTENT_DESKTOP_REL@)),
    ]
}

/// The options of the dictation question.
pub open spec fn dictation_options(assistant: Seq<char>) -> CriteriaView {
    seq![
        (DICTATION_COMMAND@, ProseView::Text(wording::dictation_is_command(assistant))),
        (DICTATION_TEXT@, ProseView::Text(wording::DICTATION_IS_TEXT@)),
        (DICTATION_NEITHER@, ProseView::Text(wording::DICTATION_IS_NEITHER@)),
    ]
}

/// The options of the direction question.
pub open spec fn direction_options() -> CriteriaView {
    seq![
        ("next"@, ProseView::Text(wording::DIRECTION_NEXT@)),
        ("previous"@, ProseView::Text(wording::DIRECTION_PREVIOUS@)),
        (NO_TARGET@, ProseView::Text(wording::DIRECTION_NONE@)),
    ]
}

/// The options of the model question.
pub open spec fn model_options() -> CriteriaView {
    seq![
        ("opus"@, ProseView::Text(wording::MODEL_OPUS@)),
        ("sonnet"@, ProseView::Text(wording::MODEL_SONNET@)),
        ("haiku"@, ProseView::Text(wording::MODEL_HAIKU@)),
        (NO_TARGET@, ProseView::Text(wording::MODEL_NONE@)),
    ]
}

/// What is observed of the desktop and offered to the model.
pub ghost struct Observed {
    pub apps: Seq<AppView>,
    pub windows: Seq<WindowView>,
    /// The number of each window among those of its class.
    pub nth: Seq<nat>,
    pub spans: Seq<Seq<char>>,
    pub current_desktop: u32,
    pub desktop_count: u32,
    pub titles: bool,
    pub last_dictation: bool,
    /// The name the coding assistant goes by.
    pub assistant: Seq<char>,
}

/// A choice question.
pub open spec fn choice_question(instructions: ProseView, criteria: CriteriaView) -> QuestionView {
    QuestionView::Choice { instructions, criteria }
}

/// Every question that may be asked, by id, in the order of the ids.
pub open spec fn questions_of(o: Observed) -> QuestionsView {
    seq![
        ("claude_model"@, choice_question(ProseView::Text(wording::model_ask(o.assistant)), model_options())),
        (
            "desktop_direction"@,
            choice_question(ProseView::Text(wording::DIRECTION_ASK@), direction_options()),
        ),
        (
            "desktop_number"@,
            choice_question(
                ProseView::Text(
                    wording::DESKTOP_ASK_BEFORE@ + crate::text::decimal(o.current_desktop as nat)
                        + wording::DESKTOP_ASK_AFTER@,
                ),
                desktop_options(o.desktop_count),
            ),
        ),
        (
            "intent"@,
            choice_question(
                ProseView::Object(
                    seq![
                        ("note"@, ProseView::Text(wording::INTENT_NOTE@)),
                        ("task"@, ProseView::Text(wording::INTENT_TASK@)),
                    ],
                ),
                intent_options(o.last_dictation, o.assistant),
            ),
        ),
        (
            "is_destructive"@,
            QuestionView::Noul {
                instructions: ProseView::Object(
                    seq![
                        ("focus"@, ProseView::Text(wording::DESTRUCTIVE_FOCUS@)),
                        ("question"@, ProseView::Text(wording::DESTRUCTIVE_ASK@)),
                    ],
                ),
                criteria: Some(
                    NoulCriteriaView {
                        yes: wording::DESTRUCTIVE_YES@,
                        no: wording::DESTRUCTIVE_NO@,
                    },
                ),
            },
        ),
        (
            "is_dictation"@,
            choice_question(
                ProseView::Text(wording::DICTATION_ASK@),
                dictation_options(o.assistant),
            ),
        ),
        (
            "payload"@,
            choice_question(
                ProseView::Object(
                    seq![
                        ("example"@, ProseView::Text(wording::payload_example(o.assistant))),
                        ("focus"@, ProseView::Text(wording::PAYLOAD_FOCUS@)),
                        ("task"@, ProseView::Text(wording::payload_task(o.assistant))),
                    ],
                ),
                payload_options(o.spans),
            ),
        ),
        (
            "target"@,
            choice_question(
                ProseView::Object(
                    seq![
                        ("note"@, ProseView::Text(wording::TARGET_NOTE@)),
                        ("task"@, ProseView::Text(wording::TARGET_TASK@)),
                    ],
                ),
                target_options(o.apps, o.windows, o.nth, o.titles),
            ),
        ),
    ]
}

fn text(s: &str) -> (r: Prose)
    ensures
        r@ == ProseView::Text(s@),
{
    Prose::Text(s.to_string())
}

fn flag(b: bool) -> (r: Prose)
    ensures
        r@ == ProseView::Bool(b),
{
    Prose::Bool(b)
}

fn number(n: u64) -> (r: Prose)
    ensures
        r@ == ProseView::Number(n),
{
    Prose::Number(n)
}

/// An object of two texts.
fn object2(a: &str, x: &str, b: &str, y: &str) -> (r: Prose)
    ensures
        r@ == ProseView::Object(seq![(a@, ProseView::Text(x@)), (b@, ProseView::Text(y@))]),
{
    let fields = vec![(a.to_string(), text(x)), (b.to_string(), text(y))];
    let r = Prose::Object(fields);
    assert(r@->Object_0 =~= seq![(a@, ProseView::Text(x@)), (b@, ProseView::Text(y@))]);
    r
}

/// An object of three texts.
pub(crate) fn object3(a: &str, x: &str, b: &str, y: &str, c: &str, z: &str) -> (r: Prose)
    ensures
        r@ == ProseView::Object(
            seq![
                (a@, ProseView::Text(x@)),
                (b@, ProseView::Text(y@)),
                (c@, ProseView::Text(z@)),
            ],
        ),
{
    let fields = vec![
        (a.to_string(), text(x)),
        (b.to_string(), text(y)),
        (c.to_string(), text(z)),
    ];
    let r = Prose::Object(fields);
    assert(r@->Object_0 =~= seq![
        (a@, ProseView::Text(x@)),
        (b@, ProseView::Text(y@)),
        (c@, ProseView::Text(z@)),
    ]);
    r
}

fn targets(
    apps: &Vec<AppCandidate>,
    windows: &Vec<Window>,
    nth: &Vec<usize>,
    titles: bool,
) -> (r: Criteria)
    requires
        nth@.len() == windows@.len(),
    ensures
        r@ == target_options(
            app_views(apps@),
            crate::desktop::window_views(windows@),
            nats(nth@),
            titles,
        ),
{
    let ghost av = app_views(apps@);
    let ghost wv = crate::desktop::window_views(windows@);
    let ghost nv = nats(nth@);
    let mut out = Criteria::new();
    let mut i: usize = 0;
    while i < apps.len()
        invariant
            i <= apps@.len(),
            av == app_views(apps@),
            out@ == app_options(av).take(i as int),
        decreases apps@.len() - i,
    {
        let app = &apps[i];
        assert(av[i as int] == app@);
        let meaning = match &app.generic_name {
            Some(g) => {
                let mut m = concat3("installed application ", app.name.as_str(), " (");
                m.append(g.as_str());
                m.append(")");
                m
            },
            None => concat2("installed application ", app.name.as_str()),
        };
        let ghost before = out@;
        out.push(numbered(APP_KEY, i), Prose::Text(meaning));
        assert(out@ =~= app_options(av).take(i + 1));
        i = i + 1;
    }
    assert(out@ =~= app_options(av));
    let mut j: usize = 0;
    while j < windows.len()
        invariant
            j <= windows@.len() == nth@.len(),
            wv == crate::desktop::window_views(windows@),
            nv == nats(nth@),
            out@ == app_options(av) + window_options(wv, nv, titles).take(j as int),
        decreases windows@.len() - j,
    {
        let w = &windows[j];
        assert(wv[j as int] == w@);
        assert(nv[j as int] == nth@[j as int] as nat);
        let meaning = if titles {
            let t = quoted(w.title.as_str());
            let mut m = concat3("open window of ", w.class.as_str(), ", titled ");
            m.append(t.as_str());
            m
        } else {
            let n = decimal_text(nth[j] as u64);
            let mut m = concat3("open window #", n.as_str(), " of ");
            m.append(w.class.as_str());
            m
        };
        out.push(numbered(WINDOW_KEY, j), Prose::Text(meaning));
        assert(out@ =~= app_options(av) + window_options(wv, nv, titles).take(j + 1));
        j = j + 1;
    }
    assert(window_options(wv, nv, titles).take(j as int) =~= window_options(wv, nv, titles));
    out.add(FOCUSED, wording::TARGET_FOCUSED);
    out.add(NO_TARGET, wording::TARGET_NONE);
    assert(out@ =~= target_options(av, wv, nv, titles));
    out
}

fn desktops(count: u32) -> (r: Criteria)
    ensures
        r@ == desktop_options(count),
{
    let mut out = Criteria::new();
    let offered: u32 = if count < DESKTOP_CANDIDATES {
        count
    } else {
        DESKTOP_CANDIDATES
    };
    let ghost all = desktop_options(count);
    let mut i: u32 = 0;
    while i < offered
        invariant
            i <= offered <= 254,
            offered == desktops_offered(count),
            all == desktop_options(count),
            out@ == all.take(i as int),
        decreases offered - i,
    {
        let n = decimal_text((i + 1) as u64);
        let meaning = concat2("virtual desktop number ", n.as_str());
        out.push(n, Prose::Text(meaning));
        assert(out@ =~= all.take(i + 1));
        i = i + 1;
    }
    out.add(NO_TARGET, wording::DESKTOP_NONE);
    assert(out@ =~= all);
    out
}

fn payloads(spans: &Vec<String>) -> (r: Criteria)
    ensures
        r@ == payload_options(crate::text::texts(spans@)),
{
    let ghost sv = crate::text::texts(spans@);
    let ghost all = payload_options(sv);
    let mut out = Criteria::new();
    let mut i: usize = 1;
    while i < spans.len()
        invariant
            1 <= i,
            i <= spans@.len() || (i == 1 && spans@.len() == 0),
            sv == crate::text::texts(spans@),
            all == payload_options(sv),
            out@ == all.take(i - 1),
        decreases spans@.len() - i,
    {
        assert(sv[i as int] == spans@[i as int]@);
        out.push(numbered(SPAN_KEY, i), Prose::Text(spans[i].clone()));
        assert(out@ =~= all.take(i as int));
        i = i + 1;
    }
    out.add(NO_TARGET, wording::PAYLOAD_NONE);
    let first = if spans.len() > 0 {
        quoted(spans[0].as_str())
    } else {
        quoted("")
    };
    let whole = concat3(
        wording::PAYLOAD_WHOLE_BEFORE,
        first.as_str(),
        wording::PAYLOAD_WHOLE_AFTER,
    );
    out.push(WHOLE.to_string(), Prose::Text(whole));
    assert(out@ =~= all);
    out
}

fn wish_of(
    a: &str,
    b: &str,
    c: &str,
    d: &str,
    e: &str,
    what: &str,
) -> (r: Prose)
    ensures
        r@ == wish(
            seq![
                ProseView::Text(a@),
                ProseView::Text(b@),
                ProseView::Text(c@),
                ProseView::Text(d@),
                ProseView::Text(e@),
            ],
            what@,
        ),
{
    let list = Prose::List(vec![text(a), text(b), text(c), text(d), text(e)]);
    assert(list@->List_0 =~= seq![
        ProseView::Text(a@),
        ProseView::Text(b@),
        ProseView::Text(c@),
        ProseView::Text(d@),
        ProseView::Text(e@),
    ]);
    let ghost lv = list@;
    let r = Prose::Object(vec![("examples".to_string(), list), ("what".to_string(), text(what))]);
    assert(r@->Object_0 =~= seq![("examples"@, lv), ("what"@, ProseView::Text(what@))]);
    r
}

/// The intents on offer, in the order the model reads them.
pub fn intent_criteria(last_dictation: bool, assistant: &str) -> (r: Criteria)
    ensures
        r@ == intent_options(last_dictation, assistant@),
{
    let mut out = Criteria::new();
    out.add(NO_TARGET, wording::INTENT_NONE);
    let model = wording::intent_claude_model_text(assistant);
    out.add("claude_model", model.as_str());
    let read = wording::intent_claude_read_text(assistant);
    out.add("claude_read", read.as_str());
    let tell = wording::intent_claude_tell_text(assistant);
    out.add("claude_tell", tell.as_str());
    out.add("close_window", wording::INTENT_CLOSE_WINDOW);
    if last_dictation {
        let edit = wish_of(
            "make that more formal",
            "shorter",
            "turn that into bullet points",
            "translate that to Italian",
            "capitalise the first word",
            wording::INTENT_EDIT_TEXT,
        );
        out.push("edit_text".to_string(), edit);
    }
    out.add("key", wording::INTENT_KEY);
    out.add("krunner", wording::INTENT_KRUNNER);
    out.add("maximize_window", wording::INTENT_MAXIMIZE);
    out.add("minimize_window", wording::INTENT_MINIMIZE);
    out.add("notify", wording::INTENT_NOTIFY);
    out.add("open_terminal", wording::INTENT_TERMINAL);
    // Launch or focus is deliberately absent: whether the target already
    // runs is an observed fact, so code decides it.
    let show = wish_of(
        "open firefox",
        "bring up my editor",
        "run the calculator",
        "switch to the browser",
        "I need a terminal window",
        wording::INTENT_SHOW_APP,
    );
    out.push("show_app".to_string(), show);
    let start = wording::intent_start_claude_text(assistant);
    out.add("start_claude", start.as_str());
    out.add("virtual_desktop", wording::INTENT_DESKTOP);
    out.add("virtual_desktop_rel", wording::INTENT_DESKTOP_REL);
    assert(out@ =~= intent_options(last_dictation, assistant@));
    out
}

/// Candidate values assembled by code, for the model to select among, and the
/// questions built from them, so answers can be checked against exactly what
/// was sent.
#[derive(Debug)]
pub struct Candidates {
    /// As spoken, for the intents that take the whole utterance.
    pub utterance: String,
    /// Installed applications, keyed `a:<index>`.
    pub apps: Vec<AppCandidate>,
    /// Open windows, keyed `w:<index>`.
    pub windows: Vec<Window>,
    /// Trailing spans of the utterance, keyed `p:<index>` by the word they
    /// start at. Index 0, the whole utterance, is offered as [`WHOLE`].
    pub spans: Vec<String>,
    pub desktop_count: u32,
    pub send_window_titles: bool,
    /// The name the coding assistant goes by.
    pub assistant: String,
    /// Every question that may be asked, by id, in the order of the ids.
    pub questions: Vec<(String, Question)>,
}

/// [`Candidates`] as sequences.
pub ghost struct CandidatesView {
    pub utterance: Seq<char>,
    pub apps: Seq<AppView>,
    pub windows: Seq<WindowView>,
    pub spans: Seq<Seq<char>>,
    pub desktop_count: u32,
    pub titles: bool,
    pub assistant: Seq<char>,
    pub questions: QuestionsView,
}

impl View for Candidates {
    type V = CandidatesView;

    open spec fn view(&self) -> CandidatesView {
        CandidatesView {
            utterance: self.utterance@,
            apps: app_views(self.apps@),
            windows: crate::desktop::window_views(self.windows@),
            spans: crate::text::texts(self.spans@),
            desktop_count: self.desktop_count,
            titles: self.send_window_titles,
            assistant: self.assistant@,
            questions: crate::oracle::questions_view(self.questions@),
        }
    }
}

/// The candidates for an utterance on an observed desktop.
pub open spec fn assembled(utterance: Seq<char>, o: Observed) -> CandidatesView {
    CandidatesView {
        utterance,
        apps: o.apps,
        windows: o.windows,
        spans: o.spans,
        desktop_count: o.desktop_count,
        titles: o.titles,
        assistant: o.assistant,
        questions: questions_of(o),
    }
}

fn fixed_choice(instructions: &str, criteria: Criteria) -> (r: Question)
    ensures
        r@ == choice_question(ProseView::Text(instructions@), criteria@),
{
    Question::Choice { instructions: text(instructions), criteria }
}

impl Candidates {
    /// The candidates and every question about them, where `nth` numbers each
    /// window among those of its class.
    pub fn assemble_numbered(
        utterance: &str,
        apps: Vec<AppCandidate>,
        windows: Vec<Window>,
        nth: &Vec<usize>,
        spans: Vec<String>,
        current_desktop: u32,
        desktop_count: u32,
        send_window_titles: bool,
        last_dictation: bool,
        assistant: &str,
    ) -> (r: Candidates)
        requires
            nth@.len() == windows@.len(),
        ensures
            r@ == assembled(
                utterance@,
                (Observed {
                    apps: app_views(apps@),
                    windows: crate::desktop::window_views(windows@),
                    nth: nats(nth@),
                    spans: crate::text::texts(spans@),
                    current_desktop,
                    desktop_count,
                    titles: send_window_titles,
                    last_dictation,
                    assistant: assistant@,
                }),
            ),
            r.windows == windows,
            r.apps == apps,
    {
        let ghost o = Observed {
            apps: app_views(apps@),
            windows: crate::desktop::window_views(windows@),
            nth: nats(nth@),
            spans: crate::text::texts(spans@),
            current_desktop,
            desktop_count,
            titles: send_window_titles,
            last_dictation,
            assistant: assistant@,
        };
        let mut models = Criteria::new();
        models.add("opus", wording::MODEL_OPUS);
        models.add("sonnet", wording::MODEL_SONNET);
        models.add("haiku", wording::MODEL_HAIKU);
        models.add(NO_TARGET, wording::MODEL_NONE);
        assert(models@ =~= model_options());
        let ask_model = wording::model_ask_text(assistant);
        let model = fixed_choice(ask_model.as_str(), models);

        let mut directions = Criteria::new();
        directions.add("next", wording::DIRECTION_NEXT);
        directions.add("previous", wording::DIRECTION_PREVIOUS);
        directions.add(NO_TARGET, wording::DIRECTION_NONE);
        assert(directions@ =~= direction_options());
        let direction = fixed_choice(wording::DIRECTION_ASK, directions);

        let current = decimal_text(current_desktop as u64);
        let ask_number = concat3(
            wording::DESKTOP_ASK_BEFORE,
            current.as_str(),
            wording::DESKTOP_ASK_AFTER,
        );
        let number = fixed_choice(ask_number.as_str(), desktops(desktop_count));

        let intent = Question::Choice {
            instructions: object2("note", wording::INTENT_NOTE, "task", wording::INTENT_TASK),
            criteria: intent_criteria(last_dictation, assistant),
        };

        let destructive = Question::Noul {
            instructions: object2(
                "focus",
                wording::DESTRUCTIVE_FOCUS,
                "question",
                wording::DESTRUCTIVE_ASK,
            ),
            criteria: Some(
                NoulCriteria {
                    yes: wording::DESTRUCTIVE_YES.to_string(),
                    no: wording::DESTRUCTIVE_NO.to_string(),
                },
            ),
        };

        // Three ways, not two: prose against "a command" alone reads every
        // command that carries text as text.
        let mut readings = Criteria::new();
        let is_command = wording::dictation_is_command_text(assistant);
        readings.add(DICTATION_COMMAND, is_command.as_str());
        readings.add(DICTATION_TEXT, wording::DICTATION_IS_TEXT);
        readings.add(DICTATION_NEITHER, wording::DICTATION_IS_NEITHER);
        assert(readings@ =~= dictation_options(assistant@));
        let dictation = fixed_choice(wording::DICTATION_ASK, readings);

        let example = wording::payload_example_text(assistant);
        let task = wording::payload_task_text(assistant);
        let payload = Question::Choice {
            instructions: object3(
                "example",
                example.as_str(),
                "focus",
                wording::PAYLOAD_FOCUS,
                "task",
                task.as_str(),
            ),
            criteria: payloads(&spans),
        };

        let target = Question::Choice {
            instructions: object2("note", wording::TARGET_NOTE, "task", wording::TARGET_TASK),
            criteria: targets(&apps, &windows, nth, send_window_titles),
        };

        let questions = vec![
            ("claude_model".to_string(), model),
            ("desktop_direction".to_string(), direction),
            ("desktop_number".to_string(), number),
            ("intent".to_string(), intent),
            ("is_destructive".to_string(), destructive),
            ("is_dictation".to_string(), dictation),
            ("payload".to_string(), payload),
            ("target".to_string(), target),
        ];
        assert(crate::oracle::questions_view(questions@) =~= questions_of(o));
        Candidates {
            utterance: utterance.to_string(),
            apps,
            windows,
            spans,
            desktop_count,
            send_window_titles,
            assistant: assistant.to_string(),
            questions,
        }
    }

    /// The candidates and every question about them.
    pub fn assemble(
        utterance: &str,
        apps: Vec<AppCandidate>,
        windows: Vec<Window>,
        spans: Vec<String>,
        current_desktop: u32,
        desktop_count: u32,
        send_window_titles: bool,
        last_dictation: bool,
        assistant: &str,
    ) -> (r: Candidates)
        ensures
            r@ == assembled(
                utterance@,
                (Observed {
                    apps: app_views(apps@),
                    windows: crate::desktop::window_views(windows@),
                    nth: numbers_of(classes_of(crate::desktop::window_views(windows@))),
                    spans: crate::text::texts(spans@),
                    current_desktop,
                    desktop_count,
                    titles: send_window_titles,
                    last_dictation,
                    assistant: assistant@,
                }),
            ),
            r.windows == windows,
            r.apps == apps,
    {
        let mut classes: Vec<String> = Vec::new();
        let mut i: usize = 0;
        while i < windows.len()
            invariant
                i <= windows@.len(),
                classes@.len() == i,
                forall|k: int|
                    0 <= k < i ==> (#[trigger] classes@[k])@ == crate::text::lowered(
                        windows@[k].class@,
                    ),
            decreases windows@.len() - i,
        {
            classes.push(crate::text::lower(windows[i].class.as_str()));
            i = i + 1;
        }
        assert(crate::text::texts(classes@) =~= classes_of(
            crate::desktop::window_views(windows@),
        ));
        let nth = numbers(&classes);
        assert(nth@.len() == nats(nth@).len());
        Candidates::assemble_numbered(
            utterance,
            apps,
            windows,
            &nth,
            spans,
            current_desktop,
            desktop_count,
            send_window_titles,
            last_dictation,
            assistant,
        )
    }
}

/// The items whose key no earlier item has, in order.
pub open spec fn first_by<T>(s: Seq<T>, key: spec_fn(T) -> Seq<char>) -> Seq<T>
    decreases s.len(),
{
    if s.len() == 0 {
        s
    } else {
        let rest = first_by(s.drop_last(), key);
        if s.drop_last().map_values(key).contains(key(s.last())) {
            rest
        } else {
            rest.push(s.last())
        }
    }
}

/// For each text whether no earlier one is equal.
pub fn distinct(texts: &Vec<String>) -> (r: Vec<bool>)
    ensures
        r@.len() == texts@.len(),
        forall|i: int|
            0 <= i < texts@.len() ==> #[trigger] r@[i] == !crate::text::texts(texts@).take(
                i,
            ).contains(texts@[i]@),
{
    let ghost all = crate::text::texts(texts@);
    let mut out: Vec<bool> = Vec::new();
    let mut i: usize = 0;
    while i < texts.len()
        invariant
            i <= texts@.len(),
            all == crate::text::texts(texts@),
            out@.len() == i,
            forall|k: int|
                0 <= k < i ==> #[trigger] out@[k] == !all.take(k).contains(texts@[k]@),
        decreases texts@.len() - i,
    {
        let seen = occurs_before(texts, i);
        out.push(!seen);
        i = i + 1;
    }
    out
}

/// Whether a text equal to `texts[n]` stands before it.
fn occurs_before(texts: &Vec<String>, n: usize) -> (r: bool)
    requires
        n < texts@.len(),
    ensures
        r == crate::text::texts(texts@).take(n as int).contains(texts@[n as int]@),
{
    let ghost before = crate::text::texts(texts@).take(n as int);
    let mut j: usize = 0;
    while j < n
        invariant
            j <= n < texts@.len(),
            before == crate::text::texts(texts@).take(n as int),
            forall|k: int| 0 <= k < j ==> #[trigger] before[k] != texts@[n as int]@,
        decreases n - j,
    {
        assert(before[j as int] == texts@[j as int]@);
        if same(texts[j].as_str(), texts[n].as_str()) {
            return true;
        }
        j = j + 1;
    }
    false
}

/// The applications offered: of those with the same name, in any case, the
/// first.
pub open spec fn offered_apps(shortlist: Seq<AppView>) -> Seq<AppView> {
    first_by(shortlist, |a: AppView| crate::text::lowered(a.name))
}

/// The windows offered: each id once, and no more than the limit.
pub open spec fn offered_windows(windows: Seq<WindowView>) -> Seq<WindowView> {
    let distinct = first_by(windows, |w: WindowView| w.id);
    if distinct.len() <= WINDOW_CANDIDATES {
        distinct
    } else {
        distinct.take(WINDOW_CANDIDATES as int)
    }
}

/// The trailing spans offered: from each of the first words to the end.
pub open spec fn offered_spans(utterance: Seq<char>) -> Seq<Seq<char>> {
    let words = crate::text::words(utterance);
    Seq::new(
        if words.len() < PAYLOAD_SPANS {
            words.len()
        } else {
            PAYLOAD_SPANS as nat
        },
        |i: int| crate::text::join(words.skip(i), " "@),
    )
}

/// What code gathers before asking: observed fact, kept apart from anything
/// the model infers.
#[derive(Debug)]
pub struct Context {
    pub windows: Vec<Window>,
    /// The installed applications that come closest to the utterance.
    pub shortlist: Vec<AppCandidate>,
    pub current_desktop: u32,
    pub desktop_count: u32,
    pub claude_running: bool,
    /// Something was dictated a moment ago, so `edit_text` is on offer.
    pub last_dictation: bool,
    /// The name the coding assistant goes by.
    pub assistant: String,
}

impl Context {
    /// What is offered of this context for an utterance.
    pub open spec fn observed(&self, utterance: Seq<char>, titles: bool) -> Observed {
        let windows = offered_windows(crate::desktop::window_views(self.windows@));
        Observed {
            apps: offered_apps(app_views(self.shortlist@)),
            windows,
            nth: numbers_of(classes_of(windows)),
            spans: offered_spans(utterance),
            current_desktop: self.current_desktop,
            desktop_count: self.desktop_count,
            titles,
            last_dictation: self.last_dictation,
            assistant: self.assistant@,
        }
    }
}

impl AppCandidate {
    fn copy(&self) -> (r: AppCandidate)
        ensures
            r == *self,
    {
        AppCandidate {
            id: self.id.clone(),
            name: self.name.clone(),
            generic_name: self.generic_name.clone(),
        }
    }
}

/// Which items [`first_by`] keeps of a list one longer.
proof fn lemma_first_by_step<T>(s: Seq<T>, key: spec_fn(T) -> Seq<char>, i: int)
    requires
        0 <= i < s.len(),
    ensures
        first_by(s.take(i + 1), key) == if s.map_values(key).take(i).contains(key(s[i])) {
            first_by(s.take(i), key)
        } else {
            first_by(s.take(i), key).push(s[i])
        },
{
    assert(s.take(i + 1).drop_last() =~= s.take(i));
    assert(s.take(i + 1).last() == s[i]);
    assert(s.take(i).map_values(key) =~= s.map_values(key).take(i));
}

fn unique_apps(shortlist: &Vec<AppCandidate>) -> (r: Vec<AppCandidate>)
    ensures
        app_views(r@) == offered_apps(app_views(shortlist@)),
{
    let ghost av = app_views(shortlist@);
    let ghost key = |a: AppView| crate::text::lowered(a.name);
    let mut names: Vec<String> = Vec::new();
    let mut i: usize = 0;
    while i < shortlist.len()
        invariant
            i <= shortlist@.len(),
            names@.len() == i,
            forall|k: int|
                0 <= k < i ==> (#[trigger] names@[k])@ == crate::text::lowered(
                    shortlist@[k].name@,
                ),
        decreases shortlist@.len() - i,
    {
        names.push(crate::text::lower(shortlist[i].name.as_str()));
        i = i + 1;
    }
    assert(crate::text::texts(names@) =~= av.map_values(key));
    let keep = distinct(&names);
    let mut out: Vec<AppCandidate> = Vec::new();
    let mut j: usize = 0;
    while j < shortlist.len()
        invariant
            j <= shortlist@.len(),
            keep@.len() == shortlist@.len() == names@.len(),
            av == app_views(shortlist@),
            key == (|a: AppView| crate::text::lowered(a.name)),
            crate::text::texts(names@) == av.map_values(key),
            forall|i: int|
                0 <= i < names@.len() ==> #[trigger] keep@[i] == !crate::text::texts(
                    names@,
                ).take(i).contains(names@[i]@),
            app_views(out@) == first_by(av.take(j as int), key),
        decreases shortlist@.len() - j,
    {
        proof {
            lemma_first_by_step(av, key, j as int);
            assert(av[j as int] == shortlist@[j as int]@);
            assert(crate::text::texts(names@)[j as int] == names@[j as int]@);
        }
        if keep[j] {
            let ghost before = out@;
            out.push(shortlist[j].copy());
            assert(app_views(out@) =~= app_views(before).push(av[j as int]));
        }
        j = j + 1;
    }
    assert(av.take(j as int) =~= av);
    out
}

fn unique_windows(windows: &Vec<Window>) -> (r: Vec<Window>)
    ensures
        crate::desktop::window_views(r@) == offered_windows(crate::desktop::window_views(windows@)),
{
    let ghost wv = crate::desktop::window_views(windows@);
    let ghost key = |w: WindowView| w.id;
    let mut ids: Vec<String> = Vec::new();
    let mut i: usize = 0;
    while i < windows.len()
        invariant
            i <= windows@.len(),
            ids@.len() == i,
            forall|k: int| 0 <= k < i ==> (#[trigger] ids@[k])@ == windows@[k].id@,
        decreases windows@.len() - i,
    {
        ids.push(windows[i].id.clone());
        i = i + 1;
    }
    assert(crate::text::texts(ids@) =~= wv.map_values(key));
    let keep = distinct(&ids);
    let mut out: Vec<Window> = Vec::new();
    let mut j: usize = 0;
    while j < windows.len() && out.len() < WINDOW_CANDIDATES
        invariant
            j <= windows@.len(),
            keep@.len() == windows@.len() == ids@.len(),
            wv == crate::desktop::window_views(windows@),
            key == (|w: WindowView| w.id),
            crate::text::texts(ids@) == wv.map_values(key),
            forall|i: int|
                0 <= i < ids@.len() ==> #[trigger] keep@[i] == !crate::text::texts(ids@).take(
                    i,
                ).contains(ids@[i]@),
            crate::desktop::window_views(out@) == first_by(wv.take(j as int), key),
            out@.len() <= WINDOW_CANDIDATES,
        decreases windows@.len() - j,
    {
        proof {
            lemma_first_by_step(wv, key, j as int);
            assert(wv[j as int] == windows@[j as int]@);
            assert(crate::text::texts(ids@)[j as int] == ids@[j as int]@);
        }
        if keep[j] {
            let ghost before = out@;
            out.push(windows[j].copy());
            assert(crate::desktop::window_views(out@) =~= crate::desktop::window_views(
                before,
            ).push(wv[j as int]));
        }
        j = j + 1;
    }
    proof {
        lemma_first_by_prefix(wv, key, j as int);
        if j == windows@.len() {
            assert(wv.take(j as int) =~= wv);
        }
        assert(crate::desktop::window_views(out@).len() == out@.len());
    }
    out
}

/// What is kept of a prefix is a prefix of what is kept.
proof fn lemma_first_by_prefix<T>(s: Seq<T>, key: spec_fn(T) -> Seq<char>, n: int)
    requires
        0 <= n <= s.len(),
    ensures
        ({
            let part = first_by(s.take(n), key);
            let all = first_by(s, key);
            part.len() <= all.len() && part == all.take(part.len() as int)
        }),
    decreases s.len(),
{
    if n == s.len() {
        assert(s.take(n) =~= s);
        let all = first_by(s, key);
        assert(all =~= all.take(all.len() as int));
    } else {
        assert(s.drop_last().take(n) =~= s.take(n));
        lemma_first_by_prefix(s.drop_last(), key, n);
        let part = first_by(s.take(n), key);
        let all = first_by(s, key);
        assert(part =~= all.take(part.len() as int));
    }
}

fn trailing_spans(utterance: &str) -> (r: Vec<String>)
    ensures
        crate::text::texts(r@) == offered_spans(utterance@),
{
    let words = split_words(utterance);
    let starts: usize = if words.len() < PAYLOAD_SPANS {
        words.len()
    } else {
        PAYLOAD_SPANS
    };
    let mut out: Vec<String> = Vec::new();
    let mut i: usize = 0;
    while i < starts
        invariant
            i <= starts <= words@.len(),
            crate::text::texts(words@) == crate::text::words(utterance@),
            out@.len() == i,
            forall|k: int|
                0 <= k < i ==> (#[trigger] out@[k])@ == crate::text::join(
                    crate::text::words(utterance@).skip(k),
                    " "@,
                ),
        decreases starts - i,
    {
        out.push(join_from(&words, i, " "));
        i = i + 1;
    }
    assert(crate::text::texts(words@).len() == words@.len());
    assert(crate::text::texts(out@) =~= offered_spans(utterance@));
    out
}

impl Candidates {
    /// The candidates for `utterance` on the desktop that `ctx` describes.
    pub fn build(utterance: &str, ctx: &Context, send_window_titles: bool) -> (r: Candidates)
        ensures
            r@ == assembled(utterance@, ctx.observed(utterance@, send_window_titles)),
    {
        Candidates::assemble(
            utterance,
            unique_apps(&ctx.shortlist),
            unique_windows(&ctx.windows),
            trailing_spans(utterance),
            ctx.current_desktop,
            ctx.desktop_count,
            send_window_titles,
            ctx.last_dictation,
            ctx.assistant.as_str(),
        )
    }
}

/// What the model reads of an open window: its title only where titles are
/// sent.
pub open spec fn window_fact(w: WindowView, i: int, titles: bool) -> ProseView {
    let fields = seq![
        ("application"@, ProseView::Text(w.class)),
        ("key"@, ProseView::Text(key_at(WINDOW_KEY@, i))),
    ];
    ProseView::Object(
        if titles {
            fields.push(("title"@, ProseView::Text(w.title)))
        } else {
            fields
        },
    )
}

/// The observed state the questions refer to.
pub open spec fn state_of(
    utterance: Seq<char>,
    windows: Seq<WindowView>,
    titles: bool,
    current_desktop: u32,
    desktop_count: u32,
    claude_running: bool,
    last_dictation: bool,
) -> ProseView {
    ProseView::Object(
        seq![
            ("claude_code_session_running"@, ProseView::Bool(claude_running)),
            ("current_desktop"@, ProseView::Number(current_desktop as u64)),
            ("desktop_count"@, ProseView::Number(desktop_count as u64)),
            (
                "open_windows"@,
                ProseView::List(
                    Seq::new(windows.len(), |i: int| window_fact(windows[i], i, titles)),
                ),
            ),
            ("text_dictated_moments_ago"@, ProseView::Bool(last_dictation)),
            ("utterance"@, ProseView::Text(utterance)),
        ],
    )
}

impl Candidates {
    /// The observed state the questions refer to. Window titles are included
    /// only where they may leave the machine.
    pub fn state(&self, utterance: &str, ctx: &Context) -> (r: Prose)
        ensures
            r@ == state_of(
                utterance@,
                self@.windows,
                self.send_window_titles,
                ctx.current_desktop,
                ctx.desktop_count,
                ctx.claude_running,
                ctx.last_dictation,
            ),
    {
        let ghost wv = self@.windows;
        let titles = self.send_window_titles;
        let mut list: Vec<Prose> = Vec::new();
        let mut i: usize = 0;
        while i < self.windows.len()
            invariant
                i <= self.windows@.len(),
                wv == crate::desktop::window_views(self.windows@),
                list@.len() == i,
                forall|k: int|
                    0 <= k < i ==> (#[trigger] list@[k])@ == window_fact(wv[k], k, titles),
            decreases self.windows@.len() - i,
        {
            let w = &self.windows[i];
            let key = numbered(WINDOW_KEY, i);
            let mut fields = vec![
                ("application".to_string(), text(w.class.as_str())),
                ("key".to_string(), text(key.as_str())),
            ];
            if titles {
                fields.push(("title".to_string(), text(w.title.as_str())));
            }
            let fact = Prose::Object(fields);
            assert(wv[i as int] == w@);
            assert(fact@->Object_0 =~= window_fact(wv[i as int], i as int, titles)->Object_0);
            list.push(fact);
            i = i + 1;
        }
        let windows = Prose::List(list);
        assert(windows@->List_0 =~= Seq::new(wv.len(), |i: int| window_fact(wv[i], i, titles)));
        let ghost windows_seen = windows@;
        let r = Prose::Object(
            vec![
                ("claude_code_session_running".to_string(), flag(ctx.claude_running)),
                ("current_desktop".to_string(), number(ctx.current_desktop as u64)),
                ("desktop_count".to_string(), number(ctx.desktop_count as u64)),
                ("open_windows".to_string(), windows),
                ("text_dictated_moments_ago".to_string(), flag(ctx.last_dictation)),
                ("utterance".to_string(), text(utterance)),
            ],
        );
        assert(r@->Object_0 =~= seq![
            ("claude_code_session_running"@, ProseView::Bool(ctx.claude_running)),
            ("current_desktop"@, ProseView::Number(ctx.current_desktop as u64)),
            ("desktop_count"@, ProseView::Number(ctx.desktop_count as u64)),
            ("open_windows"@, windows_seen),
            ("text_dictated_moments_ago"@, ProseView::Bool(ctx.last_dictation)),
            ("utterance"@, ProseView::Text(utterance@)),
        ]);
        r
    }
}

/// The same windows under other titles.
pub open spec fn same_but_titles(a: Seq<WindowView>, b: Seq<WindowView>) -> bool {
    a.len() == b.len() && forall|i: int|
        0 <= i < a.len() ==> (#[trigger] a[i]).id == b[i].id && a[i].class == b[i].class
}

/// Window titles stay home unless they are opted in: on two desktops that
/// differ in nothing but the titles of their windows, the questions and the
/// state are the same where titles are not sent.
pub proof fn law_titles_stay_home(
    utterance: Seq<char>,
    a: Observed,
    b: Observed,
    claude_running: bool,
)
    requires
        !a.titles,
        b == (Observed { windows: b.windows, ..a }),
        same_but_titles(a.windows, b.windows),
    ensures
        questions_of(a) == questions_of(b),
        state_of(
            utterance,
            a.windows,
            false,
            a.current_desktop,
            a.desktop_count,
            claude_running,
            a.last_dictation,
        ) == state_of(
            utterance,
            b.windows,
            false,
            b.current_desktop,
            b.desktop_count,
            claude_running,
            b.last_dictation,
        ),
{
    assert(window_options(a.windows, a.nth, false) =~= window_options(b.windows, b.nth, false));
    assert(Seq::new(a.windows.len(), |i: int| window_fact(a.windows[i], i, false)) =~= Seq::new(
        b.windows.len(),
        |i: int| window_fact(b.windows[i], i, false),
    ));
}

/// The observed desktop itself depends on titles in the titles alone: the
/// same windows are offered, under the same numbers.
pub proof fn law_titles_do_not_choose_windows(a: Seq<WindowView>, b: Seq<WindowView>)
    requires
        same_but_titles(a, b),
    ensures
        same_but_titles(offered_windows(a), offered_windows(b)),
        numbers_of(classes_of(offered_windows(a))) == numbers_of(classes_of(offered_windows(b))),
{
    lemma_first_by_titles(a, b);
    assert(classes_of(offered_windows(a)) =~= classes_of(offered_windows(b)));
}

proof fn lemma_first_by_titles(a: Seq<WindowView>, b: Seq<WindowView>)
    requires
        same_but_titles(a, b),
    ensures
        same_but_titles(
            first_by(a, |w: WindowView| w.id),
            first_by(b, |w: WindowView| w.id),
        ),
    decreases a.len(),
{
    let key = |w: WindowView| w.id;
    if a.len() > 0 {
        let (p, q) = (a.drop_last(), b.drop_last());
        assert(same_but_titles(p, q));
        lemma_first_by_titles(p, q);
        assert(p.map_values(key) =~= q.map_values(key));
        assert(a.last().id == b.last().id) by {
            assert(a[a.len() - 1].id == b[a.len() - 1].id);
        }
    }
}

/// No question carries more options than a backend takes, whatever the
/// desktop holds.
pub proof fn law_questions_stay_within_the_limit(o: Observed)
    requires
        o.apps.len() <= APP_CANDIDATES,
        o.windows.len() <= WINDOW_CANDIDATES,
        o.spans.len() <= PAYLOAD_SPANS,
    ensures
        forall|i: int|
            0 <= i < questions_of(o).len() ==> match (#[trigger] questions_of(o)[i]).1 {
                QuestionView::Choice { criteria, .. } => criteria.len()
                    <= crate::oracle::MAX_CHOICE_OPTIONS,
                _ => true,
            },
{
}

/// What is offered of a context stays within those limits, when the
/// shortlist does.
pub proof fn law_offers_are_bounded(ctx: Context, utterance: Seq<char>, titles: bool)
    requires
        ctx.shortlist@.len() <= APP_CANDIDATES,
    ensures
        ({
            let o = ctx.observed(utterance, titles);
            &&& o.apps.len() <= APP_CANDIDATES
            &&& o.windows.len() <= WINDOW_CANDIDATES
            &&& o.spans.len() <= PAYLOAD_SPANS
        }),
{
    lemma_first_by_len(app_views(ctx.shortlist@), |a: AppView| crate::text::lowered(a.name));
}

proof fn lemma_first_by_len<T>(s: Seq<T>, key: spec_fn(T) -> Seq<char>)
    ensures
        first_by(s, key).len() <= s.len(),
    decreases s.len(),
{
    if s.len() > 0 {
        lemma_first_by_len(s.drop_last(), key);
    }
}

/// The options of the question with one id.
pub open spec fn options_under(o: Observed, id: Seq<char>) -> CriteriaView {
    match crate::oracle::find(questions_of(o), id) {
        Some(QuestionView::Choice { criteria, .. }) => criteria,
        _ => Seq::empty(),
    }
}

proof fn lemma_questions_by_id(o: Observed)
    ensures
        options_under(o, "claude_model"@) == model_options(),
        options_under(o, "desktop_direction"@) == direction_options(),
        options_under(o, "desktop_number"@) == desktop_options(o.desktop_count),
        options_under(o, "intent"@) == intent_options(o.last_dictation, o.assistant),
        options_under(o, "is_dictation"@) == dictation_options(o.assistant),
        options_under(o, "payload"@) == payload_options(o.spans),
        options_under(o, "target"@) == target_options(o.apps, o.windows, o.nth, o.titles),
{
    reveal_strlit("claude_model");
    reveal_strlit("desktop_direction");
    reveal_strlit("desktop_number");
    reveal_strlit("intent");
    reveal_strlit("is_destructive");
    reveal_strlit("is_dictation");
    reveal_strlit("payload");
    reveal_strlit("target");
    assert("claude_model"@.len() == 12 && "desktop_direction"@.len() == 17);
    assert("desktop_number"@.len() == 14 && "intent"@.len() == 6 && "is_destructive"@.len() == 14);
    assert("is_dictation"@.len() == 12 && "payload"@.len() == 7 && "target"@.len() == 6);
    assert("claude_model"@[0] == 'c' && "is_dictation"@[0] == 'i');
    assert("desktop_number"@[0] == 'd' && "is_destructive"@[0] == 'i');
    assert("intent"@[0] == 'i' && "target"@[0] == 't');
    let q = questions_of(o);
    assert(q[0].0 == "claude_model"@ && q[1].0 == "desktop_direction"@ && q[2].0
        == "desktop_number"@ && q[3].0 == "intent"@ && q[4].0 == "is_destructive"@ && q[5].0
        == "is_dictation"@ && q[6].0 == "payload"@ && q[7].0 == "target"@);
    lemma_found_at(q, 0);
    lemma_found_at(q, 1);
    lemma_found_at(q, 2);
    lemma_found_at(q, 3);
    lemma_found_at(q, 5);
    lemma_found_at(q, 6);
    lemma_found_at(q, 7);
}

proof fn lemma_found_at<T>(s: Seq<(Seq<char>, T)>, n: int)
    requires
        0 <= n < s.len(),
        forall|i: int| 0 <= i < n ==> (#[trigger] s[i]).0 != s[n].0,
    ensures
        crate::oracle::find(s, s[n].0) == Some(s[n].1),
    decreases s.len(),
{
    if n > 0 {
        let t = s.drop_first();
        assert forall|i: int| 0 <= i < n - 1 implies (#[trigger] t[i]).0 != t[n - 1].0 by {
            assert(t[i] == s[i + 1]);
        }
        assert(t[n - 1] == s[n]);
        lemma_found_at(t, n - 1);
        assert(s[0].0 != s[n].0);
    }
}

/// Every application and window that is a candidate can be chosen as the target,
/// and so can the focused window and none at all.
pub proof fn law_every_candidate_can_be_chosen(o: Observed, i: int)
    ensures
        0 <= i < o.apps.len() ==> crate::oracle::offers(
            options_under(o, "target"@),
            "a:"@ + crate::text::decimal(i as nat),
        ),
        0 <= i < o.windows.len() ==> crate::oracle::offers(
            options_under(o, "target"@),
            "w:"@ + crate::text::decimal(i as nat),
        ),
        crate::oracle::offers(options_under(o, "target"@), "__focused_window__"@),
        crate::oracle::offers(options_under(o, "target"@), "__none__"@),
{
    lemma_questions_by_id(o);
    let t = target_options(o.apps, o.windows, o.nth, o.titles);
    let (a, w) = (o.apps.len() as int, o.windows.len() as int);
    if 0 <= i < a {
        assert(t[i] == app_options(o.apps)[i]);
        assert(t[i].0 == key_at(APP_KEY@, i));
    }
    if 0 <= i < w {
        assert(t[a + i] == window_options(o.windows, o.nth, o.titles)[i]);
        assert(t[a + i].0 == key_at(WINDOW_KEY@, i));
    }
    assert(t[a + w].0 == FOCUSED@);
    assert(t[a + w + 1].0 == NO_TARGET@);
}

/// Every desktop there is can be chosen by its number, up to as many as a
/// question holds, and no other; both directions can, and each of the models.
pub proof fn law_every_desktop_and_direction_can_be_chosen(o: Observed, n: nat)
    ensures
        1 <= n <= o.desktop_count && n <= 254 ==> crate::oracle::offers(
            options_under(o, "desktop_number"@),
            crate::text::decimal(n),
        ),
        crate::oracle::offers(options_under(o, "desktop_direction"@), "next"@),
        crate::oracle::offers(options_under(o, "desktop_direction"@), "previous"@),
        crate::oracle::offers(options_under(o, "claude_model"@), "opus"@),
        crate::oracle::offers(options_under(o, "claude_model"@), "sonnet"@),
        crate::oracle::offers(options_under(o, "claude_model"@), "haiku"@),
        crate::oracle::offers(options_under(o, "is_dictation"@), "text"@),
        crate::oracle::offers(options_under(o, "is_dictation"@), "command"@),
{
    lemma_questions_by_id(o);
    if 1 <= n <= o.desktop_count && n <= 254 {
        assert(desktop_options(o.desktop_count)[n - 1].0 == crate::text::decimal(n));
    }
    assert(direction_options()[0].0 == "next"@);
    assert(direction_options()[1].0 == "previous"@);
    assert(model_options()[0].0 == "opus"@);
    assert(model_options()[1].0 == "sonnet"@);
    assert(model_options()[2].0 == "haiku"@);
    assert(dictation_options(o.assistant)[0].0 == "command"@);
    assert(dictation_options(o.assistant)[1].0 == "text"@);
}

/// Every intent that can be built can be chosen, an edit only while a dictation
/// is fresh; so can the answer that it was no command.
pub proof fn law_every_intent_can_be_chosen(o: Observed)
    ensures
        ({
            let options = options_under(o, "intent"@);
            &&& crate::oracle::offers(options, "__none__"@)
            &&& crate::oracle::offers(options, "claude_model"@)
            &&& crate::oracle::offers(options, "claude_read"@)
            &&& crate::oracle::offers(options, "claude_tell"@)
            &&& crate::oracle::offers(options, "close_window"@)
            &&& crate::oracle::offers(options, "key"@)
            &&& crate::oracle::offers(options, "krunner"@)
            &&& crate::oracle::offers(options, "maximize_window"@)
            &&& crate::oracle::offers(options, "minimize_window"@)
            &&& crate::oracle::offers(options, "notify"@)
            &&& crate::oracle::offers(options, "open_terminal"@)
            &&& crate::oracle::offers(options, "show_app"@)
            &&& crate::oracle::offers(options, "start_claude"@)
            &&& crate::oracle::offers(options, "virtual_desktop"@)
            &&& crate::oracle::offers(options, "virtual_desktop_rel"@)
            &&& crate::oracle::offers(options, "edit_text"@) == o.last_dictation
        }),
{
    lemma_questions_by_id(o);
    let t = intent_options(o.last_dictation, o.assistant);
    let n: int = if o.last_dictation {
        6
    } else {
        5
    };
    assert(t[0].0 == "__none__"@ && t[1].0 == "claude_model"@ && t[2].0 == "claude_read"@);
    assert(t[3].0 == "claude_tell"@ && t[4].0 == "close_window"@);
    assert(o.last_dictation ==> t[5].0 == "edit_text"@);
    assert(t[n].0 == "key"@ && t[n + 1].0 == "krunner"@ && t[n + 2].0 == "maximize_window"@);
    assert(t[n + 3].0 == "minimize_window"@ && t[n + 4].0 == "notify"@);
    assert(t[n + 5].0 == "open_terminal"@ && t[n + 6].0 == "show_app"@);
    assert(t[n + 7].0 == "start_claude"@ && t[n + 8].0 == "virtual_desktop"@);
    assert(t[n + 9].0 == "virtual_desktop_rel"@);
    assert(t.len() == n + 10);
    if !o.last_dictation {
        reveal_strlit("edit_text");
        reveal_strlit("__none__");
        reveal_strlit("claude_model");
        reveal_strlit("claude_read");
        reveal_strlit("claude_tell");
        reveal_strlit("close_window");
        reveal_strlit("key");
        reveal_strlit("krunner");
        reveal_strlit("maximize_window");
        reveal_strlit("minimize_window");
        reveal_strlit("notify");
        reveal_strlit("open_terminal");
        reveal_strlit("show_app");
        reveal_strlit("start_claude");
        reveal_strlit("virtual_desktop");
        reveal_strlit("virtual_desktop_rel");
        assert("edit_text"@.len() == 9);
        assert forall|i: int| 0 <= i < t.len() implies (#[trigger] t[i]).0 != "edit_text"@ by {
            assert(t[i].0.len() != 9);
        }
    }
}

/// Every span from the second word on can be chosen as the message, and the
/// whole utterance as the last resort.
pub proof fn law_every_span_can_be_chosen(o: Observed, i: int)
    ensures
        1 <= i < o.spans.len() ==> crate::oracle::offers(
            options_under(o, "payload"@),
            "p:"@ + crate::text::decimal(i as nat),
        ),
        crate::oracle::offers(options_under(o, "payload"@), "__whole__"@),
{
    lemma_questions_by_id(o);
    let t = payload_options(o.spans);
    if 1 <= i < o.spans.len() {
        assert(t[i - 1].0 == key_at(SPAN_KEY@, i));
    }
    assert(t[t.len() - 1].0 == WHOLE@);
}

/// The spans run from a word of the utterance to its end: each is its first word
/// and the next span.
pub proof fn law_spans_run_to_the_end(utterance: Seq<char>, i: int)
    requires
        0 <= i < offered_spans(utterance).len(),
    ensures
        ({
            let words = crate::text::words(utterance);
            &&& i == words.len() - 1 ==> offered_spans(utterance)[i] == words[i]
            &&& i + 1 < offered_spans(utterance).len() ==> offered_spans(utterance)[i] == words[i]
                + " "@ + offered_spans(utterance)[i + 1]
            &&& words.len() <= 64 ==> offered_spans(utterance).len() == words.len()
        }),
{
    let words = crate::text::words(utterance);
    let rest = words.skip(i);
    if i == words.len() - 1 {
        assert(rest =~= seq![words[i]]);
    }
    if i + 1 < offered_spans(utterance).len() {
        assert(rest =~= seq![words[i]] + words.skip(i + 1));
        crate::text::law_joining_in_two_goes(seq![words[i]], words.skip(i + 1), " "@);
        crate::text::lemma_join_one(words[i], " "@);
    }
}

/// Of the items with one key the first is kept: none is kept twice, none is made
/// up, and every key is there.
pub proof fn law_first_of_each_is_kept<T>(s: Seq<T>, key: spec_fn(T) -> Seq<char>)
    ensures
        forall|i: int, j: int|
            0 <= i < j < first_by(s, key).len() ==> key(#[trigger] first_by(s, key)[i]) != key(
                #[trigger] first_by(s, key)[j],
            ),
        forall|i: int| 0 <= i < first_by(s, key).len() ==> s.contains(#[trigger] first_by(s, key)[i]),
        forall|i: int|
            0 <= i < s.len() ==> first_by(s, key).map_values(key).contains(key(#[trigger] s[i])),
    decreases s.len(),
{
    if s.len() > 0 {
        let t = s.drop_last();
        let kept = first_by(t, key);
        let all = first_by(s, key);
        law_first_of_each_is_kept(t, key);
        let seen = t.map_values(key).contains(key(s.last()));
        assert forall|i: int| 0 <= i < t.len() implies s.contains(#[trigger] t[i]) by {
            assert(s[i] == t[i]);
        }
        assert forall|i: int| 0 <= i < all.len() implies s.contains(#[trigger] all[i]) by {
            if i < kept.len() {
                assert(all[i] == kept[i]);
                let x = choose|x: int| 0 <= x < t.len() && t[x] == kept[i];
                assert(s[x] == all[i]);
            } else {
                assert(s[s.len() - 1] == all[i]);
            }
        }
        assert forall|i: int| 0 <= i < s.len() implies all.map_values(key).contains(
            key(#[trigger] s[i]),
        ) by {
            if i < t.len() {
                assert(t[i] == s[i]);
                let x = choose|x: int|
                    0 <= x < kept.len() && kept.map_values(key)[x] == key(t[i]);
                assert(all.map_values(key)[x] == key(s[i]));
            } else if seen {
                let y = choose|y: int| 0 <= y < t.len() && t.map_values(key)[y] == key(s.last());
                assert(kept.map_values(key).contains(key(t[y])));
                let x = choose|x: int|
                    0 <= x < kept.len() && kept.map_values(key)[x] == key(t[y]);
                assert(all.map_values(key)[x] == key(s[i]));
            } else {
                assert(all.map_values(key)[all.len() - 1] == key(s[i]));
            }
        }
        if !seen {
            assert forall|i: int, j: int| 0 <= i < j < all.len() implies key(#[trigger] all[i])
                != key(#[trigger] all[j]) by {
                assert(all[i] == kept[i]);
                if j < kept.len() {
                    assert(all[j] == kept[j]);
                } else {
                    let x = choose|x: int| 0 <= x < t.len() && t[x] == kept[i];
                    assert(t.contains(kept[i]));
                    assert(t.map_values(key)[x] == key(kept[i]));
                }
            }
        }
    }
}

/// Texts are numbered among their equals: the first of each has the number 1,
/// equal ones further on higher numbers, so that no text and number come
/// twice.
pub proof fn law_equal_texts_are_numbered(texts: Seq<Seq<char>>, i: int, j: int)
    requires
        0 <= i < j < texts.len(),
    ensures
        numbers_of(texts).len() == texts.len(),
        1 <= numbers_of(texts)[i] <= i + 1,
        (forall|k: int| 0 <= k < i ==> #[trigger] texts[k] != texts[i]) ==> numbers_of(texts)[i]
            == 1,
        texts[i] == texts[j] ==> numbers_of(texts)[i] < numbers_of(texts)[j],
        texts[i] == texts[j] && (forall|k: int| i < k < j ==> #[trigger] texts[k] != texts[i])
            ==> numbers_of(texts)[j] == numbers_of(texts)[i] + 1,
{
    lemma_count_bounds(texts, texts[i], 0, i);
    lemma_count_bounds(texts, texts[i], i + 1, j);
    assert(numbers_of(texts)[i] == count_of(texts, texts[i], i + 1));
    assert(numbers_of(texts)[j] == count_of(texts, texts[j], j + 1));
}

proof fn lemma_count_bounds(texts: Seq<Seq<char>>, c: Seq<char>, from: int, n: int)
    requires
        0 <= from <= n <= texts.len(),
    ensures
        count_of(texts, c, from) <= count_of(texts, c, n) <= count_of(texts, c, from) + (n - from),
        (forall|k: int| from <= k < n ==> #[trigger] texts[k] != c) ==> count_of(texts, c, n)
            == count_of(texts, c, from),
    decreases n - from,
{
    if from < n {
        lemma_count_bounds(texts, c, from, n - 1);
    }
}

} // verus!
