//! The message inside an utterance, found by rule rather than by asking the
//! model.
//!
//! Once an utterance is known to be a `notify`, `krunner`, `key` or
//! `claude_tell`, the message it carries usually follows a cue phrase:
//! "remind me to buy milk", "search for the invoice", "hit control s".
//! Stripping the cue is word matching; the model is asked only when no rule
//! applies.
use vstd::prelude::*;

use crate::text::{
    concat2, concat3, is_letter, join_from, lower, same, slice_text, split_words, to_chars, trim,
};

verus! {

/// A spoken word and the form it is matched by.
#[derive(Clone, Debug)]
pub struct Word {
    /// As spoken.
    pub text: String,
    /// Lowercased, without punctuation but a trailing comma or colon.
    pub key: String,
}

/// A [`Word`] as character sequences.
pub ghost struct WordView {
    pub text: Seq<char>,
    pub key: Seq<char>,
}

impl View for Word {
    type V = WordView;

    open spec fn view(&self) -> WordView {
        WordView { text: self.text@, key: self.key@ }
    }
}

/// The views of a list of words.
pub open spec fn word_views(v: Seq<Word>) -> Seq<WordView> {
    v.map_values(|w: Word| w@)
}

/// The texts of a list of words.
pub open spec fn word_texts(v: Seq<WordView>) -> Seq<Seq<char>> {
    v.map_values(|w: WordView| w.text)
}

/// A comma or a colon, the punctuation a cue may ask for.
pub open spec fn pause(c: char) -> bool {
    c == ',' || c == ':'
}

/// The form a lowercased word is matched by: its letters, digits and
/// apostrophes, and a comma or colon at its end.
pub open spec fn key_of(lower: Seq<char>) -> Seq<char> {
    let kept = lower.filter(|c: char| crate::text::letter(c) || c == '\'');
    if lower.len() > 0 && pause(lower.last()) {
        kept.push(lower.last())
    } else {
        kept
    }
}

/// The form a word is matched by.
pub open spec fn word_form(raw: Seq<char>) -> Seq<char> {
    key_of(crate::text::lowered(raw))
}

/// A word as it is matched: lowercased, punctuation stripped, except a
/// trailing comma or colon which a cue may require.
pub fn word_key(raw: &str) -> (r: String)
    ensures
        r@ == word_form(raw@),
{
    let low = lower(raw);
    let v = to_chars(low.as_str());
    let ghost p = |c: char| crate::text::letter(c) || c == '\'';
    let mut out = String::new();
    let mut i: usize = 0;
    reveal(Seq::filter);
    while i < v.len()
        invariant
            i <= v@.len(),
            p == (|c: char| crate::text::letter(c) || c == '\''),
            out@ == v@.take(i as int).filter(p),
        decreases v@.len() - i,
    {
        reveal(Seq::filter);
        assert(v@.take(i + 1).drop_last() =~= v@.take(i as int));
        assert(v@.take(i + 1).last() == v@[i as int]);
        if is_letter(v[i]) || v[i] == '\'' {
            out.push(v[i]);
        }
        i = i + 1;
    }
    assert(v@.take(i as int) =~= v@);
    if v.len() > 0 {
        let last = v[v.len() - 1];
        if last == ',' || last == ':' {
            out.push(last);
        }
    }
    out
}

/// A word with its matched form.
pub open spec fn token(w: Seq<char>) -> WordView {
    WordView { text: w, key: word_form(w) }
}

/// The words of a text with their matched forms.
pub open spec fn tokens(s: Seq<char>) -> Seq<WordView> {
    crate::text::words(s).map_values(|w: Seq<char>| token(w))
}

/// The words of `s` with their matched forms.
pub fn tokenize(s: &str) -> (r: Vec<Word>)
    ensures
        word_views(r@) == tokens(s@),
{
    let raw = split_words(s);
    let ghost all = crate::text::words(s@);
    let mut out: Vec<Word> = Vec::new();
    let mut i: usize = 0;
    while i < raw.len()
        invariant
            i <= raw@.len(),
            crate::text::texts(raw@) == all,
            out@.len() == i,
            forall|k: int| 0 <= k < i ==> (#[trigger] out@[k])@ == token(all[k]),
        decreases raw@.len() - i,
    {
        assert(all[i as int] == raw@[i as int]@);
        let key = word_key(raw[i].as_str());
        out.push(Word { text: raw[i].clone(), key });
        i = i + 1;
    }
    assert(word_views(out@) =~= tokens(s@));
    out
}

/// Words spoken before a cue that carry no meaning of their own.
pub open spec fn polite_prefixes() -> Seq<Seq<char>> {
    seq!["please"@, "can you"@, "could you"@, "would you"@, "will you"@, "hey"@]
}

/// Phrases that introduce quoted text in the middle of an utterance: "pop up
/// a note saying lunch is ready". What follows is the message.
pub open spec fn introducers() -> Seq<Seq<char>> {
    seq![
        "saying"@,
        "that says"@,
        "which says"@,
        "that reads"@,
        "the message"@,
        "notification that says"@,
        "notification which says"@,
        "notification that"@,
        "notification saying"@,
    ]
}

/// A verb of saying left at the front of a message once an introducer is
/// stripped.
pub open spec fn sayings() -> Seq<Seq<char>> {
    seq!["says"@, "saying"@, "reads"@]
}

/// "the file called budget": what a thing is called is its name.
pub open spec fn name_introducers() -> Seq<Seq<char>> {
    seq!["called"@, "named"@]
}

/// The nouns after which "called" gives a name: "who called me" is a search
/// for exactly that.
pub open spec fn named_things() -> Seq<Seq<char>> {
    seq![
        "file"@,
        "document"@,
        "folder"@,
        "app"@,
        "application"@,
        "program"@,
        "thing"@,
        "one"@,
        "something"@,
    ]
}

/// Cue phrases per intent, matched at the start of the utterance, where
/// `assistant` is how the coding assistant is called.
pub open spec fn cues_of(intent: Seq<char>, assistant: Seq<char>) -> Seq<Seq<char>> {
    if intent == "key"@ {
        seq![
            "hit"@,
            "press"@,
            "push"@,
            "send"@,
            "type"@,
            "do"@,
            "the key"@,
            "keys"@,
            "key"@,
        ]
    } else if intent == "notify"@ {
        seq![
            "remind me on screen that"@,
            "remind me on screen to"@,
            "remind me on screen"@,
            "remind me that"@,
            "remind me to"@,
            "remind me"@,
            "notify me that"@,
            "notify me to"@,
            "notify me"@,
            "notify"@,
            "make a note that"@,
            "make a note to"@,
            "make a note"@,
            "note that"@,
            "note"@,
            "set a reminder that"@,
            "set a reminder to"@,
            "set a reminder"@,
        ]
    } else if intent == "krunner"@ {
        seq![
            "search for"@,
            "search"@,
            "look up"@,
            "look for"@,
            "track down"@,
            "locate"@,
            "where is"@,
            "where's"@,
            "run"@,
            "find"@,
            "krunner"@,
        ]
    } else if intent == "claude_tell"@ {
        seq![
            "tell "@ + assistant + " code to"@,
            "tell "@ + assistant + " code"@,
            "tell "@ + assistant + " to"@,
            "tell "@ + assistant,
            "ask "@ + assistant + " code to"@,
            "ask "@ + assistant + " code"@,
            "ask "@ + assistant + " to"@,
            "ask "@ + assistant,
            "say to "@ + assistant,
            "have "@ + assistant,
            "get "@ + assistant + " to"@,
            "message "@ + assistant + " that"@,
            "message "@ + assistant,
            assistant + ","@,
            assistant + ":"@,
        ]
    } else {
        Seq::empty()
    }
}

fn owned(v: Vec<&'static str>) -> (r: Vec<String>)
    ensures
        crate::text::texts(r@) == crate::text::strs(v@),
{
    let mut out: Vec<String> = Vec::new();
    let mut i: usize = 0;
    while i < v.len()
        invariant
            i <= v@.len(),
            out@.len() == i,
            forall|k: int| 0 <= k < i ==> (#[trigger] out@[k])@ == v@[k]@,
        decreases v@.len() - i,
    {
        out.push(v[i].to_string());
        i = i + 1;
    }
    assert(crate::text::texts(out@) =~= crate::text::strs(v@));
    out
}

fn borrowed<'a>(v: &'a Vec<String>) -> (r: Vec<&'a str>)
    ensures
        crate::text::strs(r@) == crate::text::texts(v@),
{
    let mut out: Vec<&'a str> = Vec::new();
    let mut i: usize = 0;
    while i < v.len()
        invariant
            i <= v@.len(),
            out@.len() == i,
            forall|k: int| 0 <= k < i ==> (#[trigger] out@[k])@ == v@[k]@,
        decreases v@.len() - i,
    {
        out.push(v[i].as_str());
        i = i + 1;
    }
    assert(crate::text::strs(out@) =~= crate::text::texts(v@));
    out
}

fn cues(intent: &str, assistant: &str) -> (r: Vec<String>)
    ensures
        crate::text::texts(r@) == cues_of(intent@, assistant@),
{
    if same(intent, "key") {
        let r = vec!["hit", "press", "push", "send", "type", "do", "the key", "keys", "key"];
        assert(crate::text::strs(r@) =~= cues_of(intent@, assistant@));
        owned(r)
    } else if same(intent, "notify") {
        let r = vec![
            "remind me on screen that",
            "remind me on screen to",
            "remind me on screen",
            "remind me that",
            "remind me to",
            "remind me",
            "notify me that",
            "notify me to",
            "notify me",
            "notify",
            "make a note that",
            "make a note to",
            "make a note",
            "note that",
            "note",
            "set a reminder that",
            "set a reminder to",
            "set a reminder",
        ];
        assert(crate::text::strs(r@) =~= cues_of(intent@, assistant@));
        owned(r)
    } else if same(intent, "krunner") {
        let r = vec![
            "search for",
            "search",
            "look up",
            "look for",
            "track down",
            "locate",
            "where is",
            "where's",
            "run",
            "find",
            "krunner",
        ];
        assert(crate::text::strs(r@) =~= cues_of(intent@, assistant@));
        owned(r)
    } else if same(intent, "claude_tell") {
        let r = vec![
            concat3("tell ", assistant, " code to"),
            concat3("tell ", assistant, " code"),
            concat3("tell ", assistant, " to"),
            concat2("tell ", assistant),
            concat3("ask ", assistant, " code to"),
            concat3("ask ", assistant, " code"),
            concat3("ask ", assistant, " to"),
            concat2("ask ", assistant),
            concat2("say to ", assistant),
            concat2("have ", assistant),
            concat3("get ", assistant, " to"),
            concat3("message ", assistant, " that"),
            concat2("message ", assistant),
            concat2(assistant, ","),
            concat2(assistant, ":"),
        ];
        assert(crate::text::texts(r@) =~= cues_of(intent@, assistant@));
        r
    } else {
        let r: Vec<String> = Vec::new();
        assert(crate::text::texts(r@) =~= cues_of(intent@, assistant@));
        r
    }
}

fn introducer_list() -> (r: Vec<&'static str>)
    ensures
        crate::text::strs(r@) == introducers(),
{
    let r = vec![
        "saying",
        "that says",
        "which says",
        "that reads",
        "the message",
        "notification that says",
        "notification which says",
        "notification that",
        "notification saying",
    ];
    assert(crate::text::strs(r@) =~= introducers());
    r
}

fn saying_list() -> (r: Vec<&'static str>)
    ensures
        crate::text::strs(r@) == sayings(),
{
    let r = vec!["says", "saying", "reads"];
    assert(crate::text::strs(r@) =~= sayings());
    r
}

/// Whether a cue word matches the form of a spoken word. A cue word that ends
/// in a comma or colon must match it; others match without it.
pub open spec fn cue_matches(cue: Seq<char>, key: Seq<char>) -> bool {
    if cue.len() > 0 && pause(cue.last()) {
        key == cue
    } else {
        crate::text::drop_back(key, |c: char| pause(c)) == cue
    }
}

/// Whether `phrase` starts `words`.
pub open spec fn phrase_starts(words: Seq<WordView>, phrase: Seq<char>) -> bool {
    let cue = crate::text::words(phrase);
    cue.len() <= words.len() && forall|i: int|
        0 <= i < cue.len() ==> cue_matches(#[trigger] cue[i], words[i].key)
}

/// The number of words of the longest of `phrases` that starts `words`; 0
/// when none does.
pub open spec fn longest_start(words: Seq<WordView>, phrases: Seq<Seq<char>>) -> nat
    decreases phrases.len(),
{
    if phrases.len() == 0 {
        0
    } else {
        let n = longest_start(words, phrases.drop_last());
        let p = phrases.last();
        if phrase_starts(words, p) && crate::text::words(p).len() > n {
            crate::text::words(p).len()
        } else {
            n
        }
    }
}

proof fn lemma_longest_start_bound(words: Seq<WordView>, phrases: Seq<Seq<char>>)
    ensures
        longest_start(words, phrases) <= words.len(),
    decreases phrases.len(),
{
    if phrases.len() > 0 {
        lemma_longest_start_bound(words, phrases.drop_last());
    }
}

/// `words` without the longest of `phrases` at its front; None when none is
/// there.
pub open spec fn strip_leading(words: Seq<WordView>, phrases: Seq<Seq<char>>) -> Option<
    Seq<WordView>,
> {
    let n = longest_start(words, phrases);
    if n > 0 {
        Some(words.skip(n as int))
    } else {
        None
    }
}

/// `words` without `phrases` at its front, as often as they occur: "please
/// can you" is two prefixes.
pub open spec fn strip_leading_all(words: Seq<WordView>, phrases: Seq<Seq<char>>) -> Seq<WordView>
    decreases words.len(),
    via strip_leading_all_decreases
{
    let n = longest_start(words, phrases);
    if n > 0 {
        strip_leading_all(words.skip(n as int), phrases)
    } else {
        words
    }
}

#[via_fn]
proof fn strip_leading_all_decreases(words: Seq<WordView>, phrases: Seq<Seq<char>>) {
    lemma_longest_start_bound(words, phrases);
}

/// Whether one of `phrases` ends `words`.
pub open spec fn phrase_ends(words: Seq<WordView>, phrases: Seq<Seq<char>>) -> bool {
    exists|i: int| 0 <= i < phrases.len() && phrase_ends_with(words, #[trigger] phrases[i])
}

/// Whether `phrase` ends `words`.
pub open spec fn phrase_ends_with(words: Seq<WordView>, phrase: Seq<char>) -> bool {
    let n = crate::text::words(phrase).len();
    n <= words.len() && phrase_starts(words.skip(words.len() - n), phrase)
}

/// The number of words of the longest of `phrases` that starts `words` and
/// leaves a message behind, a verb of saying in front of it not counted; 0
/// when there is none.
pub open spec fn longest_introducer(words: Seq<WordView>, phrases: Seq<Seq<char>>) -> nat
    decreases phrases.len(),
{
    if phrases.len() == 0 {
        0
    } else {
        let n = longest_introducer(words, phrases.drop_last());
        let p = phrases.last();
        let m = crate::text::words(p).len();
        if phrase_starts(words, p) && m > n && strip_leading_all(
            words.skip(m as int),
            sayings(),
        ).len() > 0 {
            m
        } else {
            n
        }
    }
}

/// The words after the first of `phrases` inside `words`, without a verb of
/// saying in front. At one position the longest phrase wins.
pub open spec fn after_introducer(words: Seq<WordView>, phrases: Seq<Seq<char>>) -> Option<
    Seq<WordView>,
>
    decreases words.len(),
{
    if words.len() == 0 {
        None
    } else {
        let n = longest_introducer(words, phrases);
        if n > 0 {
            Some(strip_leading_all(words.skip(n as int), sayings()))
        } else {
            after_introducer(words.drop_first(), phrases)
        }
    }
}

/// The words after "called" or "named" when a noun for the thing comes right
/// before it.
pub open spec fn after_name(words: Seq<WordView>) -> Option<Seq<WordView>>
    decreases words.len(),
{
    if words.len() < 2 {
        None
    } else {
        let n = longest_start(words.drop_first(), name_introducers());
        if named_things().contains(words[0].key) && n > 0 && n < words.len() - 1 {
            Some(words.drop_first().skip(n as int))
        } else {
            after_name(words.drop_first())
        }
    }
}

/// `words` without every "please" at the end.
pub open spec fn drop_please(words: Seq<WordView>) -> Seq<WordView>
    decreases words.len(),
{
    if words.len() > 0 && words.last().key == "please"@ {
        drop_please(words.drop_last())
    } else {
        words
    }
}

/// The words as one text, without the comma a dropped "please" leaves behind.
pub open spec fn joined(words: Seq<WordView>) -> Seq<char> {
    crate::text::trimmed(
        crate::text::drop_back(
            crate::text::join(word_texts(words), " "@),
            |c: char| c == ',' || c == ';',
        ),
    )
}

/// What a colon in the utterance separates: the words before it and after it.
pub ghost struct ColonView {
    pub head: Seq<WordView>,
    pub after: Seq<WordView>,
}

/// Whether the words before a colon are the wrapper: once polite words at the
/// front are out of the way, they end in a cue or an introducer.
pub open spec fn wraps(head: Seq<WordView>, cues: Seq<Seq<char>>) -> bool {
    let spoken = strip_leading_all(head, polite_prefixes());
    phrase_ends(spoken, cues) || phrase_ends(spoken, introducers())
}

/// The words of the message that `words` carry for `intent`, where `colon` is
/// what the first colon in them separates.
///
/// A colon introduces the message when the words before it are the wrapper,
/// or when no cue at the start claims the utterance. In "tell Robin to email
/// Bob: the report is late" the colon is Bob's.
pub open spec fn message(
    intent: Seq<char>,
    assistant: Seq<char>,
    words: Seq<WordView>,
    colon: Option<ColonView>,
) -> Option<Seq<WordView>> {
    let cues = cues_of(intent, assistant);
    let after = match colon {
        Some(c) => drop_please(c.after),
        None => Seq::empty(),
    };
    let by_colon = intent != "key"@ && after.len() > 0;
    if cues.len() == 0 {
        None
    } else if by_colon && wraps(colon->0.head, cues) {
        Some(after)
    } else {
        let spoken = strip_leading_all(drop_please(words), polite_prefixes());
        let rest = match strip_leading(spoken, cues) {
            Some(rest) => Some(rest),
            None => if intent == "notify"@ || intent == "claude_tell"@ {
                after_introducer(spoken, introducers())
            } else {
                None
            },
        };
        let found = match rest {
            Some(rest) => Some(rest),
            None => if by_colon {
                Some(after)
            } else {
                None
            },
        };
        match found {
            None => None,
            Some(rest) => {
                let named = if intent == "krunner"@ {
                    match after_name(rest) {
                        Some(name) => name,
                        None => rest,
                    }
                } else {
                    rest
                };
                if named.len() == 0 {
                    None
                } else {
                    Some(named)
                }
            },
        }
    }
}

/// The message as text.
pub open spec fn message_text(
    intent: Seq<char>,
    assistant: Seq<char>,
    words: Seq<WordView>,
    colon: Option<ColonView>,
) -> Option<Seq<char>> {
    match message(intent, assistant, words, colon) {
        Some(m) => Some(joined(m)),
        None => None,
    }
}

/// Where the first colon followed by a space stands in `s`; the length of `s`
/// when there is none.
pub open spec fn colon_at(s: Seq<char>) -> nat
    decreases s.len(),
{
    if s.len() < 2 {
        s.len()
    } else if s[0] == ':' && s[1] == ' ' {
        0
    } else {
        1 + colon_at(s.drop_first())
    }
}

/// What the first colon followed by a space separates.
pub open spec fn colon_of(s: Seq<char>) -> Option<ColonView> {
    let n = colon_at(s) as int;
    if n < s.len() {
        Some(ColonView { head: tokens(s.take(n)), after: tokens(s.skip(n + 2)) })
    } else {
        None
    }
}

/// The views of `words[from..to]`.
pub open spec fn part(words: Seq<Word>, from: int, to: int) -> Seq<WordView> {
    word_views(words).subrange(from, to)
}

fn cue_fits(cue: &str, key: &str) -> (r: bool)
    ensures
        r == cue_matches(cue@, key@),
{
    let c = to_chars(cue);
    if c.len() > 0 && (c[c.len() - 1] == ',' || c[c.len() - 1] == ':') {
        return same(key, cue);
    }
    let k = to_chars(key);
    let mut n: usize = k.len();
    while n > 0 && (k[n - 1] == ',' || k[n - 1] == ':')
        invariant
            n <= k@.len(),
            forall|i: int| n <= i < k@.len() ==> pause(#[trigger] k@[i]),
        decreases n,
    {
        n = n - 1;
    }
    proof {
        crate::text::lemma_drop_back_is(k@, |c: char| pause(c), n as int);
    }
    let stripped = slice_text(&k, 0, n);
    assert(k@.subrange(0, n as int) =~= k@.take(n as int));
    same(stripped.as_str(), cue)
}

/// The number of words of `phrase` when it starts `words[from..to]`.
fn phrase_at(words: &Vec<Word>, from: usize, to: usize, phrase: &str) -> (r: Option<usize>)
    requires
        from <= to <= words@.len(),
    ensures
        r is Some <==> phrase_starts(part(words@, from as int, to as int), phrase@),
        r matches Some(n) ==> n == crate::text::words(phrase@).len(),
{
    let cue = split_words(phrase);
    let ghost cw = crate::text::words(phrase@);
    let ghost pw = part(words@, from as int, to as int);
    if to - from < cue.len() {
        return None;
    }
    let mut i: usize = 0;
    while i < cue.len()
        invariant
            i <= cue@.len() <= to - from,
            from <= to <= words@.len(),
            crate::text::texts(cue@) == cw,
            cw == crate::text::words(phrase@),
            pw == part(words@, from as int, to as int),
            forall|k: int| 0 <= k < i ==> cue_matches(#[trigger] cw[k], pw[k].key),
        decreases cue@.len() - i,
    {
        assert(cw[i as int] == cue@[i as int]@);
        assert(pw[i as int] == words@[from + i]@);
        if !cue_fits(cue[i].as_str(), words[from + i].key.as_str()) {
            return None;
        }
        i = i + 1;
    }
    Some(cue.len())
}

/// [`longest_start`] on `words[from..to]`.
fn longest_at(words: &Vec<Word>, from: usize, to: usize, phrases: &Vec<&str>) -> (r: usize)
    requires
        from <= to <= words@.len(),
    ensures
        r == longest_start(part(words@, from as int, to as int), crate::text::strs(phrases@)),
        r <= to - from,
{
    let ghost all = crate::text::strs(phrases@);
    let ghost pw = part(words@, from as int, to as int);
    let mut best: usize = 0;
    let mut i: usize = 0;
    while i < phrases.len()
        invariant
            i <= phrases@.len(),
            from <= to <= words@.len(),
            all == crate::text::strs(phrases@),
            pw == part(words@, from as int, to as int),
            best == longest_start(pw, all.take(i as int)),
        decreases phrases@.len() - i,
    {
        proof {
            assert(all.take(i + 1).drop_last() =~= all.take(i as int));
            assert(all.take(i + 1).last() == phrases@[i as int]@);
        }
        if let Some(n) = phrase_at(words, from, to, phrases[i]) {
            if n > best {
                best = n;
            }
        }
        i = i + 1;
    }
    proof {
        assert(all.take(i as int) =~= all);
        lemma_longest_start_bound(pw, all);
    }
    best
}

/// Where `words[from..to]` starts once `phrases` are stripped from its front
/// as often as they occur.
fn skip_all(words: &Vec<Word>, from: usize, to: usize, phrases: &Vec<&str>) -> (r: usize)
    requires
        from <= to <= words@.len(),
    ensures
        from <= r <= to,
        part(words@, r as int, to as int) == strip_leading_all(
            part(words@, from as int, to as int),
            crate::text::strs(phrases@),
        ),
{
    let mut at: usize = from;
    loop
        invariant
            from <= at <= to <= words@.len(),
            strip_leading_all(part(words@, at as int, to as int), crate::text::strs(phrases@))
                == strip_leading_all(
                part(words@, from as int, to as int),
                crate::text::strs(phrases@),
            ),
        decreases to - at,
    {
        let n = longest_at(words, at, to, phrases);
        if n == 0 {
            return at;
        }
        assert(part(words@, at as int, to as int).skip(n as int) =~= part(
            words@,
            at + n,
            to as int,
        ));
        at = at + n;
    }
}

/// Whether one of `phrases` ends `words[from..]`.
fn ends_with_phrase(words: &Vec<Word>, from: usize, phrases: &Vec<&str>) -> (r: bool)
    requires
        from <= words@.len(),
    ensures
        r == phrase_ends(
            part(words@, from as int, words@.len() as int),
            crate::text::strs(phrases@),
        ),
{
    let ghost all = crate::text::strs(phrases@);
    let len: usize = words.len();
    let ghost wv = part(words@, from as int, len as int);
    let mut i: usize = 0;
    while i < phrases.len()
        invariant
            i <= phrases@.len(),
            from <= len == words@.len(),
            all == crate::text::strs(phrases@),
            wv == part(words@, from as int, len as int),
            forall|k: int| 0 <= k < i ==> !phrase_ends_with(wv, #[trigger] all[k]),
        decreases phrases@.len() - i,
    {
        assert(all[i as int] == phrases@[i as int]@);
        let n = split_words(phrases[i]).len();
        if n <= len - from {
            assert(part(words@, len - n, len as int) =~= wv.skip(wv.len() - n));
            if phrase_at(words, len - n, len, phrases[i]).is_some() {
                assert(phrase_ends_with(wv, all[i as int]));
                return true;
            }
        }
        i = i + 1;
    }
    false
}

/// [`longest_introducer`] on `words[from..to]`.
fn introducer_at(
    words: &Vec<Word>,
    from: usize,
    to: usize,
    phrases: &Vec<&str>,
    sayings: &Vec<&str>,
) -> (r: usize)
    requires
        from <= to <= words@.len(),
        crate::text::strs(sayings@) == self::sayings(),
    ensures
        r == longest_introducer(part(words@, from as int, to as int), crate::text::strs(phrases@)),
        r <= to - from,
{
    let ghost all = crate::text::strs(phrases@);
    let ghost pw = part(words@, from as int, to as int);
    let mut best: usize = 0;
    let mut i: usize = 0;
    while i < phrases.len()
        invariant
            i <= phrases@.len(),
            from <= to <= words@.len(),
            all == crate::text::strs(phrases@),
            crate::text::strs(sayings@) == self::sayings(),
            pw == part(words@, from as int, to as int),
            best == longest_introducer(pw, all.take(i as int)),
            best <= to - from,
        decreases phrases@.len() - i,
    {
        proof {
            assert(all.take(i + 1).drop_last() =~= all.take(i as int));
            assert(all.take(i + 1).last() == phrases@[i as int]@);
        }
        if let Some(n) = phrase_at(words, from, to, phrases[i]) {
            if n > best {
                assert(pw.skip(n as int) =~= part(words@, from + n, to as int));
                if skip_all(words, from + n, to, sayings) < to {
                    best = n;
                }
            }
        }
        i = i + 1;
    }
    assert(all.take(i as int) =~= all);
    best
}

/// Where the words after an introducer in `words[from..to]` start.
fn introduced(words: &Vec<Word>, from: usize, to: usize) -> (r: Option<usize>)
    requires
        from <= to <= words@.len(),
    ensures
        match r {
            Some(at) => from <= at <= to && after_introducer(
                part(words@, from as int, to as int),
                introducers(),
            ) == Some(part(words@, at as int, to as int)),
            None => after_introducer(part(words@, from as int, to as int), introducers()) is None,
        },
{
    let phrases = introducer_list();
    let sayings = saying_list();
    let mut at: usize = from;
    while at < to
        invariant
            from <= at <= to <= words@.len(),
            crate::text::strs(phrases@) == introducers(),
            crate::text::strs(sayings@) == self::sayings(),
            after_introducer(part(words@, from as int, to as int), introducers())
                == after_introducer(part(words@, at as int, to as int), introducers()),
        decreases to - at,
    {
        let n = introducer_at(words, at, to, &phrases, &sayings);
        if n > 0 {
            assert(part(words@, at as int, to as int).skip(n as int) =~= part(
                words@,
                at + n,
                to as int,
            ));
            let start = skip_all(words, at + n, to, &sayings);
            return Some(start);
        }
        assert(part(words@, at as int, to as int).drop_first() =~= part(
            words@,
            at + 1,
            to as int,
        ));
        at = at + 1;
    }
    None
}

fn is_named_thing(key: &str) -> (r: bool)
    ensures
        r == named_things().contains(key@),
{
    let list = vec![
        "file",
        "document",
        "folder",
        "app",
        "application",
        "program",
        "thing",
        "one",
        "something",
    ];
    assert(crate::text::strs(list@) =~= named_things());
    let mut i: usize = 0;
    while i < list.len()
        invariant
            i <= list@.len(),
            crate::text::strs(list@) == named_things(),
            forall|k: int| 0 <= k < i ==> #[trigger] named_things()[k] != key@,
        decreases list@.len() - i,
    {
        assert(named_things()[i as int] == list@[i as int]@);
        if same(key, list[i]) {
            return true;
        }
        i = i + 1;
    }
    false
}

/// Where the name in `words[from..to]` starts.
fn named_at(words: &Vec<Word>, from: usize, to: usize) -> (r: Option<usize>)
    requires
        from <= to <= words@.len(),
    ensures
        match r {
            Some(at) => from <= at <= to && after_name(part(words@, from as int, to as int))
                == Some(part(words@, at as int, to as int)),
            None => after_name(part(words@, from as int, to as int)) is None,
        },
{
    let phrases = vec!["called", "named"];
    assert(crate::text::strs(phrases@) =~= name_introducers());
    let mut at: usize = from;
    while to - at >= 2
        invariant
            from <= at <= to <= words@.len(),
            crate::text::strs(phrases@) == name_introducers(),
            after_name(part(words@, from as int, to as int)) == after_name(
                part(words@, at as int, to as int),
            ),
        decreases to - at,
    {
        let ghost here = part(words@, at as int, to as int);
        assert(here.drop_first() =~= part(words@, at + 1, to as int));
        assert(here[0] == words@[at as int]@);
        let n = longest_at(words, at + 1, to, &phrases);
        if is_named_thing(words[at].key.as_str()) && n > 0 && n < to - at - 1 {
            assert(here.drop_first().skip(n as int) =~= part(words@, at + 1 + n, to as int));
            return Some(at + 1 + n);
        }
        at = at + 1;
    }
    None
}

/// Where `words` ends once every "please" at the end is dropped.
fn without_please(words: &Vec<Word>) -> (r: usize)
    ensures
        r <= words@.len(),
        part(words@, 0, r as int) == drop_please(word_views(words@)),
{
    let mut n: usize = words.len();
    assert(part(words@, 0, n as int) =~= word_views(words@));
    while n > 0 && same(words[n - 1].key.as_str(), "please")
        invariant
            n <= words@.len(),
            drop_please(part(words@, 0, n as int)) == drop_please(word_views(words@)),
        decreases n,
    {
        assert(part(words@, 0, n as int).drop_last() =~= part(words@, 0, n - 1));
        assert(part(words@, 0, n as int).last() == words@[n - 1]@);
        n = n - 1;
    }
    proof {
        if n > 0 {
            assert(part(words@, 0, n as int).last() == words@[n - 1]@);
        }
    }
    n
}

/// The text of `words[from..to]`.
fn join_words(words: &Vec<Word>, from: usize, to: usize) -> (r: String)
    requires
        from <= to <= words@.len(),
    ensures
        r@ == joined(part(words@, from as int, to as int)),
{
    let mut list: Vec<String> = Vec::new();
    let mut i: usize = from;
    while i < to
        invariant
            from <= i <= to <= words@.len(),
            list@.len() == i - from,
            forall|k: int| 0 <= k < i - from ==> #[trigger] list@[k]@ == words@[from + k].text@,
        decreases to - i,
    {
        list.push(words[i].text.clone());
        i = i + 1;
    }
    assert(crate::text::texts(list@) =~= word_texts(part(words@, from as int, to as int)));
    assert(crate::text::texts(list@).skip(0) =~= crate::text::texts(list@));
    let all = join_from(&list, 0, " ");
    let v = to_chars(all.as_str());
    let mut n: usize = v.len();
    while n > 0 && (v[n - 1] == ',' || v[n - 1] == ';')
        invariant
            n <= v@.len(),
            forall|i: int| n <= i < v@.len() ==> #[trigger] v@[i] == ',' || v@[i] == ';',
        decreases n,
    {
        n = n - 1;
    }
    proof {
        crate::text::lemma_drop_back_is(v@, |c: char| c == ',' || c == ';', n as int);
    }
    let cut = slice_text(&v, 0, n);
    assert(v@.subrange(0, n as int) =~= v@.take(n as int));
    trim(cut.as_str())
}

/// What a colon in an utterance separates.
#[derive(Clone, Debug)]
pub struct Colon {
    pub head: Vec<Word>,
    pub after: Vec<Word>,
}

impl View for Colon {
    type V = ColonView;

    open spec fn view(&self) -> ColonView {
        ColonView { head: word_views(self.head@), after: word_views(self.after@) }
    }
}

/// The view of an optional colon.
pub open spec fn colon_view(c: Option<Colon>) -> Option<ColonView> {
    match c {
        Some(c) => Some(c@),
        None => None,
    }
}

/// The message `words` carry for `intent`, where `colon` is what the first
/// colon in them separates.
pub fn strip_words(
    intent: &str,
    assistant: &str,
    words: &Vec<Word>,
    colon: &Option<Colon>,
) -> (r: Option<String>)
    ensures
        crate::intent::opt_text(r) == message_text(
            intent@,
            assistant@,
            word_views(words@),
            colon_view(*colon),
        ),
{
    let list = cues(intent, assistant);
    assert(cues_of(intent@, assistant@).len() == list@.len());
    if list.len() == 0 {
        return None;
    }
    let cues = borrowed(&list);
    let polite = vec!["please", "can you", "could you", "would you", "will you", "hey"];
    assert(crate::text::strs(polite@) =~= polite_prefixes());
    let mut by_colon: Option<(&Vec<Word>, usize)> = None;
    if !same(intent, "key") {
        if let Some(c) = colon {
            let n = without_please(&c.after);
            if n > 0 {
                let introducers = introducer_list();
                let len: usize = c.head.len();
                assert(part(c.head@, 0, len as int) =~= word_views(c.head@));
                let at = skip_all(&c.head, 0, len, &polite);
                if ends_with_phrase(&c.head, at, &cues) || ends_with_phrase(
                    &c.head,
                    at,
                    &introducers,
                ) {
                    return Some(join_words(&c.after, 0, n));
                }
                by_colon = Some((&c.after, n));
            }
        }
    }
    let end = without_please(words);
    let start = skip_all(words, 0, end, &polite);
    let ghost spoken = part(words@, start as int, end as int);
    let n = longest_at(words, start, end, &cues);
    let mut rest: Option<usize> = None;
    if n > 0 {
        assert(spoken.skip(n as int) =~= part(words@, start + n, end as int));
        rest = Some(start + n);
    } else if same(intent, "notify") || same(intent, "claude_tell") {
        rest = introduced(words, start, end);
    }
    match rest {
        Some(at) => message_from(intent, words, at, end),
        None => match by_colon {
            Some((after, n)) => message_from(intent, after, 0, n),
            None => None,
        },
    }
}

/// The message that `words[from..to]` make once a name is looked for.
fn message_from(intent: &str, words: &Vec<Word>, from: usize, to: usize) -> (r: Option<String>)
    requires
        from <= to <= words@.len(),
    ensures
        crate::intent::opt_text(r) == ({
            let rest = part(words@, from as int, to as int);
            let named = if intent@ == "krunner"@ {
                match after_name(rest) {
                    Some(name) => name,
                    None => rest,
                }
            } else {
                rest
            };
            if named.len() == 0 {
                None
            } else {
                Some(joined(named))
            }
        }),
{
    let mut at: usize = from;
    if same(intent, "krunner") {
        if let Some(name) = named_at(words, from, to) {
            at = name;
        }
    }
    if at == to {
        return None;
    }
    Some(join_words(words, at, to))
}

/// The message that an utterance carries for `intent`, where `assistant` is the
/// name that the coding assistant goes by.
pub open spec fn cue_message(
    intent: Seq<char>,
    assistant: Seq<char>,
    utterance: Seq<char>,
) -> Option<Seq<char>> {
    message_text(
        intent,
        crate::text::lowered(assistant),
        tokens(utterance),
        colon_of(utterance),
    )
}

/// The message `utterance` carries for `intent`, when a rule finds one. None
/// means no cue applied and the model has to be asked. The text is returned
/// as spoken, with only the wrapper removed. `assistant` is the name that the
/// coding assistant goes by.
pub fn strip_cue(intent: &str, assistant: &str, utterance: &str) -> (r: Option<String>)
    ensures
        crate::intent::opt_text(r) == cue_message(intent@, assistant@, utterance@),
{
    let words = tokenize(utterance);
    let v = to_chars(utterance);
    let mut i: usize = 0;
    assert(v@.skip(0) =~= v@);
    let len: usize = v.len();
    while len - i >= 2 && !(v[i] == ':' && v[i + 1] == ' ')
        invariant
            i <= len,
            len == v@.len(),
            colon_at(v@) == i + colon_at(v@.skip(i as int)),
        decreases len - i,
    {
        assert(v@.skip(i as int).drop_first() =~= v@.skip(i + 1));
        i = i + 1;
    }
    let colon = if len - i >= 2 {
        let head = slice_text(&v, 0, i);
        let after = slice_text(&v, i + 2, len);
        proof {
            assert(v@.subrange(0, i as int) =~= utterance@.take(i as int));
            assert(v@.subrange(i + 2, v@.len() as int) =~= utterance@.skip(i + 2));
        }
        Some(Colon { head: tokenize(head.as_str()), after: tokenize(after.as_str()) })
    } else {
        None
    };
    let name = lower(assistant);
    strip_words(intent, name.as_str(), &words, &colon)
}

/// The message is kept as spoken: it is a run of neighbouring words of the
/// utterance, or of the part of it after a colon.
pub proof fn law_message_is_a_span(
    intent: Seq<char>,
    assistant: Seq<char>,
    words: Seq<WordView>,
    colon: Option<ColonView>,
)
    ensures
        message(intent, assistant, words, colon) matches Some(m) ==> m.len() > 0 && (is_run_of(
            m,
            words,
        ) || (colon is Some && is_run_of(m, colon->0.after))),
{
    let w = drop_please(words);
    lemma_drop_please(words);
    let spoken = strip_leading_all(w, polite_prefixes());
    lemma_strip_all(w, polite_prefixes());
    lemma_run_trans(spoken, w, words);
    if let Some(c) = colon {
        lemma_drop_please(c.after);
        lemma_after_name(drop_please(c.after));
        if let Some(name) = after_name(drop_please(c.after)) {
            lemma_run_trans(name, drop_please(c.after), c.after);
        }
    }
    lemma_longest_start_bound(spoken, cues_of(intent, assistant));
    if let Some(rest) = strip_leading(spoken, cues_of(intent, assistant)) {
        lemma_skip_is_run(spoken, longest_start(spoken, cues_of(intent, assistant)) as int);
        lemma_run_trans(rest, spoken, words);
        lemma_after_name(rest);
        if let Some(name) = after_name(rest) {
            lemma_run_trans(name, rest, words);
        }
    }
    lemma_after_introducer(spoken, introducers());
    if let Some(rest) = after_introducer(spoken, introducers()) {
        lemma_run_trans(rest, spoken, words);
        lemma_after_name(rest);
        if let Some(name) = after_name(rest) {
            lemma_run_trans(name, rest, words);
        }
    }
}

/// Whether `m` stands as neighbours in `words`.
pub open spec fn is_run_of(m: Seq<WordView>, words: Seq<WordView>) -> bool {
    exists|i: int, j: int|
        0 <= i <= j <= words.len() && m == #[trigger] words.subrange(i, j)
}

proof fn lemma_skip_is_run(words: Seq<WordView>, n: int)
    requires
        0 <= n <= words.len(),
    ensures
        is_run_of(words.skip(n), words),
{
    assert(words.skip(n) =~= words.subrange(n, words.len() as int));
}

proof fn lemma_run_trans(a: Seq<WordView>, b: Seq<WordView>, c: Seq<WordView>)
    requires
        is_run_of(a, b),
        is_run_of(b, c),
    ensures
        is_run_of(a, c),
{
    let (i, j) = choose|i: int, j: int|
        0 <= i <= j <= b.len() && a == #[trigger] b.subrange(i, j);
    let (k, l) = choose|k: int, l: int|
        0 <= k <= l <= c.len() && b == #[trigger] c.subrange(k, l);
    assert(a =~= c.subrange(k + i, k + j));
}

proof fn lemma_drop_please(words: Seq<WordView>)
    ensures
        is_run_of(drop_please(words), words),
    decreases words.len(),
{
    if words.len() > 0 && words.last().key == "please"@ {
        lemma_drop_please(words.drop_last());
        assert(words.drop_last() =~= words.subrange(0, words.len() - 1));
        lemma_run_trans(drop_please(words), words.drop_last(), words);
    } else {
        assert(words =~= words.subrange(0, words.len() as int));
    }
}

proof fn lemma_strip_all(words: Seq<WordView>, phrases: Seq<Seq<char>>)
    ensures
        is_run_of(strip_leading_all(words, phrases), words),
    decreases words.len(),
{
    let n = longest_start(words, phrases) as int;
    lemma_longest_start_bound(words, phrases);
    if n > 0 {
        lemma_strip_all(words.skip(n), phrases);
        lemma_skip_is_run(words, n);
        lemma_run_trans(strip_leading_all(words, phrases), words.skip(n), words);
    } else {
        assert(words =~= words.subrange(0, words.len() as int));
    }
}

proof fn lemma_longest_introducer(words: Seq<WordView>, phrases: Seq<Seq<char>>)
    ensures
        ({
            let n = longest_introducer(words, phrases);
            n <= words.len() && (n > 0 ==> strip_leading_all(
                words.skip(n as int),
                sayings(),
            ).len() > 0)
        }),
    decreases phrases.len(),
{
    if phrases.len() > 0 {
        lemma_longest_introducer(words, phrases.drop_last());
    }
}

proof fn lemma_after_introducer(words: Seq<WordView>, phrases: Seq<Seq<char>>)
    ensures
        after_introducer(words, phrases) matches Some(m) ==> is_run_of(m, words) && m.len() > 0,
    decreases words.len(),
{
    if words.len() > 0 {
        let n = longest_introducer(words, phrases) as int;
        lemma_longest_introducer(words, phrases);
        if n > 0 {
            lemma_skip_is_run(words, n);
            lemma_strip_all(words.skip(n), sayings());
            lemma_run_trans(strip_leading_all(words.skip(n), sayings()), words.skip(n), words);
        } else {
            lemma_after_introducer(words.drop_first(), phrases);
            assert(words.drop_first() =~= words.subrange(1, words.len() as int));
            if let Some(m) = after_introducer(words, phrases) {
                lemma_run_trans(m, words.drop_first(), words);
            }
        }
    }
}

proof fn lemma_after_name(words: Seq<WordView>)
    ensures
        after_name(words) matches Some(m) ==> is_run_of(m, words) && m.len() > 0,
    decreases words.len(),
{
    if words.len() >= 2 {
        let n = longest_start(words.drop_first(), name_introducers()) as int;
        assert(words.drop_first() =~= words.subrange(1, words.len() as int));
        if named_things().contains(words[0].key) && n > 0 && n < words.len() - 1 {
            lemma_skip_is_run(words.drop_first(), n);
            lemma_run_trans(words.drop_first().skip(n), words.drop_first(), words);
        } else {
            lemma_after_name(words.drop_first());
            if let Some(m) = after_name(words) {
                lemma_run_trans(m, words.drop_first(), words);
            }
        }
    }
}

/// A word of lower case letters alone.
spec fn plain(w: Seq<char>) -> bool {
    w.len() > 0 && forall|i: int| 0 <= i < w.len() ==> 97 <= (#[trigger] w[i]) as u32 <= 122
}

proof fn lemma_filter_keeps(s: Seq<char>, p: spec_fn(char) -> bool)
    requires
        forall|i: int| 0 <= i < s.len() ==> p(#[trigger] s[i]),
    ensures
        s.filter(p) == s,
    decreases s.len(),
{
    reveal(Seq::filter);
    if s.len() > 0 {
        let t = s.drop_last();
        assert forall|i: int| 0 <= i < t.len() implies p(#[trigger] t[i]) by {
            assert(t[i] == s[i]);
        }
        lemma_filter_keeps(t, p);
        assert(p(s[s.len() - 1]));
        assert(t.push(s.last()) =~= s);
    }
}

/// A plain word is one word, is matched as it stands, and by nothing but
/// itself.
proof fn lemma_plain(w: Seq<char>)
    requires
        plain(w),
    ensures
        crate::text::words(w) == seq![w],
        word_form(w) == w,
        forall|c: Seq<char>| plain(c) ==> #[trigger] cue_matches(c, w) == (c == w),
{
    assert(crate::text::solid(w)) by {
        assert forall|j: int| 0 <= j < w.len() implies !crate::text::white_space(
            #[trigger] w[j],
        ) by {
            assert(97 <= w[j] as u32 <= 122);
        }
    }
    crate::text::lemma_one_word(w);
    assert(crate::text::lowered(w) =~= w) by {
        assert(crate::text::all_ascii(w));
        assert forall|j: int| 0 <= j < w.len() implies crate::text::ascii_lower(#[trigger] w[j])
            == w[j] by {}
    }
    let p = |c: char| crate::text::letter(c) || c == '\'';
    assert forall|i: int| 0 <= i < w.len() implies p(#[trigger] w[i]) by {
        assert(97 <= w[i] as u32 <= 122);
    }
    lemma_filter_keeps(w, p);
    assert(97 <= w[w.len() - 1] as u32 <= 122);
    assert(!pause(w.last()));
    assert forall|c: Seq<char>| plain(c) implies #[trigger] cue_matches(c, w) == (c == w) by {
        assert(97 <= c[c.len() - 1] as u32 <= 122);
        assert(!pause(c.last()));
        assert(crate::text::drop_back(w, |c: char| pause(c)) == w);
    }
}

/// The words of the polite prefixes.
spec fn polite_words() -> Seq<Seq<Seq<char>>> {
    seq![
        seq!["please"@],
        seq!["can"@, "you"@],
        seq!["could"@, "you"@],
        seq!["would"@, "you"@],
        seq!["will"@, "you"@],
        seq!["hey"@],
    ]
}

proof fn lemma_two_words(a: Seq<char>, b: Seq<char>, s: Seq<char>)
    requires
        plain(a),
        plain(b),
        s == a + seq![' '] + b,
    ensures
        crate::text::words(s) == seq![a, b],
{
    lemma_plain(a);
    lemma_plain(b);
    crate::text::lemma_words_apart(a, ' ', b);
    assert(crate::text::words(s) =~= seq![a, b]);
}

/// The polite prefixes are made of plain words, start with different ones, and
/// hold no colon.
proof fn lemma_polite()
    ensures
        forall|i: int|
            0 <= i < 6 ==> crate::text::words(#[trigger] polite_prefixes()[i])
                == polite_words()[i],
        forall|i: int, j: int|
            0 <= i < 6 && 0 <= j < polite_words()[i].len() ==> plain(
                #[trigger] polite_words()[i][j],
            ),
        forall|i: int, j: int|
            0 <= i < 6 && 0 <= j < 6 && i != j ==> (#[trigger] polite_words()[i])[0] != (
            #[trigger] polite_words()[j])[0],
        forall|i: int, k: int|
            0 <= i < 6 && 0 <= k < polite_prefixes()[i].len() ==> #[trigger] polite_prefixes()[i][k]
                != ':',
        "you"@ != "please"@,
        "hey"@ != "please"@,
        plain("please"@),
{
    reveal_strlit("please");
    reveal_strlit("can");
    reveal_strlit("could");
    reveal_strlit("would");
    reveal_strlit("will");
    reveal_strlit("you");
    reveal_strlit("hey");
    reveal_strlit("can you");
    reveal_strlit("could you");
    reveal_strlit("would you");
    reveal_strlit("will you");
    assert(plain("please"@));
    assert(plain("can"@));
    assert(plain("could"@));
    assert(plain("would"@));
    assert(plain("will"@));
    assert(plain("you"@));
    assert(plain("hey"@));
    lemma_plain("please"@);
    lemma_plain("hey"@);
    assert("can you"@ =~= "can"@ + seq![' '] + "you"@);
    assert("could you"@ =~= "could"@ + seq![' '] + "you"@);
    assert("would you"@ =~= "would"@ + seq![' '] + "you"@);
    assert("will you"@ =~= "will"@ + seq![' '] + "you"@);
    lemma_two_words("can"@, "you"@, "can you"@);
    lemma_two_words("could"@, "you"@, "could you"@);
    lemma_two_words("would"@, "you"@, "would you"@);
    lemma_two_words("will"@, "you"@, "will you"@);
    assert("can"@[0] != "hey"@[0]);
    assert("could"@[0] != "would"@[0]);
    assert("you"@ != "please"@);
    assert("hey"@ != "please"@);
}

/// The longest of `phrases` that starts `words` has `n` words.
proof fn lemma_longest_start_is(words: Seq<WordView>, phrases: Seq<Seq<char>>, n: nat)
    requires
        forall|i: int|
            0 <= i < phrases.len() && phrase_starts(words, #[trigger] phrases[i])
                ==> crate::text::words(phrases[i]).len() <= n,
        n > 0 ==> exists|i: int|
            0 <= i < phrases.len() && phrase_starts(words, #[trigger] phrases[i])
                && crate::text::words(phrases[i]).len() == n,
    ensures
        longest_start(words, phrases) == n,
    decreases phrases.len(),
{
    if phrases.len() > 0 {
        let front = phrases.drop_last();
        let last = phrases.last();
        assert(last == phrases[phrases.len() - 1]);
        assert forall|i: int| 0 <= i < front.len() && phrase_starts(words, #[trigger] front[i])
            implies crate::text::words(front[i]).len() <= n by {
            assert(front[i] == phrases[i]);
        }
        if n > 0 {
            let k = choose|i: int|
                0 <= i < phrases.len() && phrase_starts(words, #[trigger] phrases[i])
                    && crate::text::words(phrases[i]).len() == n;
            if k < front.len() {
                assert(front[k] == phrases[k]);
                lemma_longest_start_is(words, front, n);
            } else {
                lemma_longest_start_most(words, front, n);
            }
        } else {
            lemma_longest_start_is(words, front, n);
        }
    }
}

proof fn lemma_longest_start_most(words: Seq<WordView>, phrases: Seq<Seq<char>>, n: nat)
    requires
        forall|i: int|
            0 <= i < phrases.len() && phrase_starts(words, #[trigger] phrases[i])
                ==> crate::text::words(phrases[i]).len() <= n,
    ensures
        longest_start(words, phrases) <= n,
    decreases phrases.len(),
{
    if phrases.len() > 0 {
        let front = phrases.drop_last();
        assert(phrases.last() == phrases[phrases.len() - 1]);
        assert forall|i: int| 0 <= i < front.len() && phrase_starts(words, #[trigger] front[i])
            implies crate::text::words(front[i]).len() <= n by {
            assert(front[i] == phrases[i]);
        }
        lemma_longest_start_most(words, front, n);
    }
}

/// A polite prefix in front is stripped.
proof fn lemma_polite_is_stripped(i: int, rest: Seq<WordView>)
    requires
        0 <= i < 6,
    ensures
        strip_leading_all(tokens(polite_prefixes()[i]) + rest, polite_prefixes())
            == strip_leading_all(rest, polite_prefixes()),
{
    lemma_polite();
    let p = polite_prefixes()[i];
    let w = polite_words()[i];
    let front = tokens(p);
    let all = front + rest;
    assert(front.len() == w.len());
    assert forall|j: int| 0 <= j < w.len() implies (#[trigger] all[j]).key == w[j] by {
        assert(plain(w[j]));
        lemma_plain(w[j]);
        assert(front[j] == token(w[j]));
    }
    assert(phrase_starts(all, p)) by {
        assert forall|j: int| 0 <= j < w.len() implies cue_matches(
            #[trigger] crate::text::words(p)[j],
            all[j].key,
        ) by {
            assert(plain(w[j]));
            lemma_plain(w[j]);
            assert(all[j].key == w[j]);
        }
    }
    assert forall|k: int| 0 <= k < 6 && phrase_starts(all, #[trigger] polite_prefixes()[k])
        implies crate::text::words(polite_prefixes()[k]).len() <= w.len() by {
        if k != i {
            let other = polite_words()[k];
            assert(crate::text::words(polite_prefixes()[k]) == other);
            assert(cue_matches(crate::text::words(polite_prefixes()[k])[0], all[0].key));
            assert(plain(other[0]) && plain(w[0]));
            lemma_plain(w[0]);
            assert(all[0].key == w[0]);
            assert(polite_words()[k][0] != polite_words()[i][0]);
        }
    }
    lemma_longest_start_is(all, polite_prefixes(), w.len());
    assert(all.skip(w.len() as int) =~= rest);
}

proof fn lemma_drop_please_behind(front: Seq<WordView>, words: Seq<WordView>)
    ensures
        drop_please(front + words) == if drop_please(words).len() > 0 {
            front + drop_please(words)
        } else {
            drop_please(front)
        },
    decreases words.len(),
{
    let all = front + words;
    if words.len() == 0 {
        assert(all =~= front);
    } else {
        assert(all.last() == words.last());
        if words.last().key == "please"@ {
            assert(all.drop_last() =~= front + words.drop_last());
            lemma_drop_please_behind(front, words.drop_last());
        }
    }
}

/// Where the first colon followed by a space stands.
proof fn lemma_colon_at(s: Seq<char>)
    ensures
        colon_at(s) <= s.len(),
        colon_at(s) < s.len() ==> colon_at(s) + 1 < s.len() && s[colon_at(s) as int] == ':' && s[(
        colon_at(s) + 1) as int] == ' ',
        forall|k: int|
            0 <= k < colon_at(s) && k + 1 < s.len() ==> !(#[trigger] s[k] == ':' && s[k + 1]
                == ' '),
    decreases s.len(),
{
    if s.len() >= 2 && !(s[0] == ':' && s[1] == ' ') {
        let t = s.drop_first();
        lemma_colon_at(t);
        assert forall|k: int| 0 <= k < colon_at(s) && k + 1 < s.len() implies !(#[trigger] s[k]
            == ':' && s[k + 1] == ' ') by {
            if k > 0 {
                assert(t[k - 1] == s[k]);
                assert(t[k] == s[k + 1]);
            }
        }
    }
}

proof fn lemma_colon_at_is(s: Seq<char>, n: int)
    requires
        0 <= n <= s.len(),
        n < s.len() ==> n + 1 < s.len() && s[n] == ':' && s[n + 1] == ' ',
        forall|k: int|
            0 <= k < n && k + 1 < s.len() ==> !(#[trigger] s[k] == ':' && s[k + 1] == ' '),
    ensures
        colon_at(s) == n,
{
    lemma_colon_at(s);
    let m = colon_at(s) as int;
    if m < n {
        assert(s[m] == ':' && s[m + 1] == ' ');
    }
    if n < m {
        assert(!(s[n] == ':' && s[n + 1] == ' '));
    }
}

/// Polite words before a cue carry no meaning of their own: a polite prefix in
/// front of an utterance changes nothing about its message.
pub proof fn law_polite_prefix_changes_nothing(
    intent: Seq<char>,
    assistant: Seq<char>,
    prefix: Seq<char>,
    utterance: Seq<char>,
)
    requires
        polite_prefixes().contains(prefix),
    ensures
        cue_message(intent, assistant, prefix + " "@ + utterance) == cue_message(
            intent,
            assistant,
            utterance,
        ),
{
    lemma_polite();
    reveal_strlit(" ");
    let i = choose|i: int| 0 <= i < 6 && polite_prefixes()[i] == prefix;
    assert(0 <= i < 6 && polite_prefixes()[i] == prefix);
    let s = prefix + " "@ + utterance;
    let front = tokens(prefix);
    let words = tokens(utterance);
    assert(" "@ =~= seq![' ']);
    crate::text::lemma_words_apart(prefix, ' ', utterance);
    assert(tokens(s) =~= front + words);
    lemma_drop_please_behind(front, words);
    lemma_polite_is_stripped(i, drop_please(words));
    lemma_polite_is_stripped(i, Seq::empty());
    assert(front + Seq::<WordView>::empty() =~= front);
    assert(strip_leading_all(drop_please(tokens(s)), polite_prefixes()) == strip_leading_all(
        drop_please(words),
        polite_prefixes(),
    )) by {
        if drop_please(words).len() == 0 {
            assert(drop_please(words) =~= Seq::<WordView>::empty());
            let w = polite_words()[i];
            assert(plain(w[w.len() - 1]));
            lemma_plain(w[w.len() - 1]);
            assert(front.last() == token(w[w.len() - 1]));
            if i == 0 {
                assert(front.drop_last() =~= Seq::<WordView>::empty());
                assert(drop_please(front) == drop_please(front.drop_last()));
            } else {
                assert(drop_please(front) == front);
            }
        }
    }
    lemma_colon_at(utterance);
    let m = colon_at(utterance) as int;
    let n = prefix.len() + 1 + m;
    assert forall|k: int| 0 <= k < n && k + 1 < s.len() implies !(#[trigger] s[k] == ':' && s[k
        + 1] == ' ') by {
        if k < prefix.len() {
            assert(s[k] == polite_prefixes()[i][k]);
        } else if k > prefix.len() {
            let j = k - prefix.len() - 1;
            assert(s[k] == utterance[j]);
            assert(s[k + 1] == utterance[j + 1]);
        }
    }
    lemma_colon_at_is(s, n);
    if m < utterance.len() {
        let head = utterance.take(m);
        assert(s.take(n) =~= prefix + seq![' '] + head);
        crate::text::lemma_words_apart(prefix, ' ', head);
        assert(tokens(s.take(n)) =~= front + tokens(head));
        lemma_polite_is_stripped(i, tokens(head));
        assert(s.skip(n + 2) =~= utterance.skip(m + 2));
    }
}

/// A trailing "please" is never part of the message.
pub proof fn law_trailing_please_changes_nothing(
    intent: Seq<char>,
    assistant: Seq<char>,
    utterance: Seq<char>,
)
    ensures
        cue_message(intent, assistant, utterance + " please"@) == cue_message(
            intent,
            assistant,
            utterance,
        ),
{
    lemma_polite();
    reveal_strlit("please");
    reveal_strlit(" please");
    let please = "please"@;
    let s = utterance + " please"@;
    assert(" please"@ =~= seq![' '] + please);
    lemma_please_behind(utterance);
    lemma_colon_at(utterance);
    let m = colon_at(utterance) as int;
    let len = utterance.len() as int;
    if m < len {
        assert forall|k: int| 0 <= k < m && k + 1 < s.len() implies !(#[trigger] s[k] == ':' && s[k
            + 1] == ' ') by {
            assert(s[k] == utterance[k]);
            assert(s[k + 1] == utterance[k + 1]);
        }
        lemma_colon_at_is(s, m);
        assert(s.take(m) =~= utterance.take(m));
        assert(s.skip(m + 2) =~= utterance.skip(m + 2) + " please"@);
        lemma_please_behind(utterance.skip(m + 2));
    } else if len > 0 && utterance.last() == ':' {
        assert forall|k: int| 0 <= k < len - 1 && k + 1 < s.len() implies !(#[trigger] s[k] == ':'
            && s[k + 1] == ' ') by {
            assert(s[k] == utterance[k]);
            assert(s[k + 1] == utterance[k + 1]);
        }
        lemma_colon_at_is(s, len - 1);
        assert(s.skip(len + 1) =~= please);
        lemma_plain(please);
        assert(tokens(please) =~= seq![token(please)]);
        assert(tokens(please).drop_last() =~= Seq::<WordView>::empty());
        assert(tokens(please).last().key == please);
        assert(drop_please(tokens(please)) == drop_please(tokens(please).drop_last()));
    } else {
        assert forall|k: int| 0 <= k < s.len() && k + 1 < s.len() implies !(#[trigger] s[k] == ':'
            && s[k + 1] == ' ') by {
            if k + 1 < len {
                assert(s[k] == utterance[k]);
                assert(s[k + 1] == utterance[k + 1]);
            } else if k + 1 == len {
                assert(s[k] == utterance.last());
            } else if k > len {
                assert(s[k] == please[k - len - 1]);
                assert(97 <= please[k - len - 1] as u32 <= 122);
            } else {
                assert(s[k] == ' ');
            }
        }
        lemma_colon_at_is(s, s.len() as int);
    }
}

proof fn lemma_please_behind(utterance: Seq<char>)
    ensures
        drop_please(tokens(utterance + " please"@)) == drop_please(tokens(utterance)),
{
    lemma_polite();
    reveal_strlit("please");
    reveal_strlit(" please");
    let please = "please"@;
    assert(utterance + " please"@ =~= utterance + seq![' '] + please);
    crate::text::lemma_words_apart(utterance, ' ', please);
    lemma_plain(please);
    let all = tokens(utterance + " please"@);
    assert(all =~= tokens(utterance).push(token(please)));
    assert(all.drop_last() =~= tokens(utterance));
    assert(all.last().key == please);
}

/// After a cue at the start of the utterance everything else is the message, to
/// the last word: for a notification, a message for the coding assistant and a
/// key chord nothing further is taken off. Of several cues the longest counts.
pub proof fn law_message_is_all_after_the_cue(
    intent: Seq<char>,
    assistant: Seq<char>,
    words: Seq<WordView>,
    colon: Option<ColonView>,
    cue: int,
)
    requires
        intent == "notify"@ || intent == "claude_tell"@ || intent == "key"@,
        0 <= cue < cues_of(intent, assistant).len(),
        phrase_starts(words, cues_of(intent, assistant)[cue]),
        forall|i: int|
            0 <= i < cues_of(intent, assistant).len() && phrase_starts(
                words,
                #[trigger] cues_of(intent, assistant)[i],
            ) ==> crate::text::words(cues_of(intent, assistant)[i]).len() <= crate::text::words(
                cues_of(intent, assistant)[cue],
            ).len(),
        0 < crate::text::words(cues_of(intent, assistant)[cue]).len() < words.len(),
        forall|i: int|
            0 <= i < polite_prefixes().len() ==> !phrase_starts(
                words,
                #[trigger] polite_prefixes()[i],
            ),
        words.last().key != "please"@,
        intent == "key"@ || colon is None || !wraps(colon->0.head, cues_of(intent, assistant)),
    ensures
        message(intent, assistant, words, colon) matches Some(m) && {
            let n = crate::text::words(cues_of(intent, assistant)[cue]).len();
            &&& m.len() == words.len() - n
            &&& forall|i: int| 0 <= i < m.len() ==> #[trigger] m[i] == words[n + i]
        },
{
    reveal_strlit("notify");
    reveal_strlit("claude_tell");
    reveal_strlit("key");
    reveal_strlit("krunner");
    let cues = cues_of(intent, assistant);
    lemma_longest_start_is(words, polite_prefixes(), 0);
    lemma_longest_start_is(words, cues, crate::text::words(cues[cue]).len());
}

/// A search is for everything after the cue too, but for the words in front of a
/// name: what is left out ends in "called" or "named" right after a noun for the
/// thing.
pub proof fn law_search_is_all_after_the_cue_or_a_name(
    assistant: Seq<char>,
    words: Seq<WordView>,
    colon: Option<ColonView>,
    cue: int,
)
    requires
        0 <= cue < cues_of("krunner"@, assistant).len(),
        phrase_starts(words, cues_of("krunner"@, assistant)[cue]),
        forall|i: int|
            0 <= i < cues_of("krunner"@, assistant).len() && phrase_starts(
                words,
                #[trigger] cues_of("krunner"@, assistant)[i],
            ) ==> crate::text::words(cues_of("krunner"@, assistant)[i]).len()
                <= crate::text::words(cues_of("krunner"@, assistant)[cue]).len(),
        0 < crate::text::words(cues_of("krunner"@, assistant)[cue]).len() < words.len(),
        forall|i: int|
            0 <= i < polite_prefixes().len() ==> !phrase_starts(
                words,
                #[trigger] polite_prefixes()[i],
            ),
        words.last().key != "please"@,
        colon is None || !wraps(colon->0.head, cues_of("krunner"@, assistant)),
    ensures
        message("krunner"@, assistant, words, colon) matches Some(m) && {
            let n = crate::text::words(cues_of("krunner"@, assistant)[cue]).len();
            let left_out = words.len() - n - m.len();
            &&& m.len() > 0
            &&& left_out >= 0
            &&& forall|i: int| 0 <= i < m.len() ==> #[trigger] m[i] == words[n + left_out + i]
            &&& left_out == 0 || (left_out >= 2 && (cue_matches(
                "called"@,
                words[n + left_out - 1].key,
            ) || cue_matches("named"@, words[n + left_out - 1].key)) && named_things().contains(
                words[n + left_out - 2].key,
            ))
            &&& left_out == 0 ==> forall|i: int|
                n <= i && i + 2 < words.len() && named_things().contains(
                    (#[trigger] words[i]).key,
                ) ==> !cue_matches("called"@, words[i + 1].key) && !cue_matches(
                    "named"@,
                    words[i + 1].key,
                )
        },
{
    let cues = cues_of("krunner"@, assistant);
    let n = crate::text::words(cues[cue]).len() as int;
    lemma_longest_start_is(words, polite_prefixes(), 0);
    lemma_longest_start_is(words, cues, n as nat);
    reveal_strlit("notify");
    reveal_strlit("claude_tell");
    reveal_strlit("key");
    reveal_strlit("krunner");
    let rest = words.skip(n);
    lemma_name_is_after_its_noun(rest);
    match after_name(rest) {
        Some(name) => {
            let j = rest.len() - name.len();
            assert(name =~= rest.skip(j));
            assert(rest[j - 1] == words[n + j - 1]);
            assert(rest[j - 2] == words[n + j - 2]);
        },
        None => {
            assert forall|i: int|
                n <= i && i + 2 < words.len() && named_things().contains(
                    (#[trigger] words[i]).key,
                ) implies !cue_matches("called"@, words[i + 1].key) && !cue_matches(
                "named"@,
                words[i + 1].key,
            ) by {
                assert(rest[i - n] == words[i]);
                assert(rest[i - n + 1] == words[i + 1]);
            }
        },
    }
}

/// One plain word starts a list of words when it matches the first of them.
proof fn lemma_one_word_starts(words: Seq<WordView>, w: Seq<char>)
    requires
        plain(w),
    ensures
        phrase_starts(words, w) == (words.len() > 0 && cue_matches(w, words[0].key)),
{
    lemma_plain(w);
    let cue = crate::text::words(w);
    assert(cue[0] == w);
    if words.len() > 0 && cue_matches(w, words[0].key) {
        assert forall|i: int| 0 <= i < cue.len() implies cue_matches(
            #[trigger] cue[i],
            words[i].key,
        ) by {}
    }
}

proof fn lemma_named_start(words: Seq<WordView>)
    ensures
        longest_start(words, name_introducers()) <= 1,
        longest_start(words, name_introducers()) == 1 <==> words.len() > 0 && (cue_matches(
            "called"@,
            words[0].key,
        ) || cue_matches("named"@, words[0].key)),
{
    reveal_strlit("called");
    reveal_strlit("named");
    assert(plain("called"@));
    assert(plain("named"@));
    lemma_plain("called"@);
    lemma_plain("named"@);
    lemma_one_word_starts(words, "called"@);
    lemma_one_word_starts(words, "named"@);
    let list = name_introducers();
    assert(list[0] == "called"@ && list[1] == "named"@);
    let starts = words.len() > 0 && (cue_matches("called"@, words[0].key) || cue_matches(
        "named"@,
        words[0].key,
    ));
    assert forall|i: int| 0 <= i < list.len() && phrase_starts(words, #[trigger] list[i]) implies
        crate::text::words(list[i]).len() <= (if starts {
        1nat
    } else {
        0
    }) by {
        assert(i == 0 || i == 1);
    }
    lemma_longest_start_is(
        words,
        list,
        if starts {
            1
        } else {
            0
        },
    );
}

proof fn lemma_name_is_after_its_noun(words: Seq<WordView>)
    ensures
        match after_name(words) {
            Some(name) => {
                let j = words.len() - name.len();
                &&& 2 <= j < words.len()
                &&& name == words.skip(j)
                &&& cue_matches("called"@, words[j - 1].key) || cue_matches(
                    "named"@,
                    words[j - 1].key,
                )
                &&& named_things().contains(words[j - 2].key)
            },
            None => forall|i: int|
                0 <= i && i + 2 < words.len() && named_things().contains(
                    (#[trigger] words[i]).key,
                ) ==> !cue_matches("called"@, words[i + 1].key) && !cue_matches(
                    "named"@,
                    words[i + 1].key,
                ),
        },
    decreases words.len(),
{
    if words.len() >= 2 {
        let t = words.drop_first();
        lemma_named_start(t);
        lemma_name_is_after_its_noun(t);
        let n = longest_start(t, name_introducers());
        assert(t[0] == words[1]);
        if named_things().contains(words[0].key) && n > 0 && n < words.len() - 1 {
            assert(t.skip(1) =~= words.skip(2));
        } else {
            match after_name(t) {
                Some(name) => {
                    let j = t.len() - name.len();
                    assert(t.skip(j) =~= words.skip(j + 1));
                    assert(t[j - 1] == words[j]);
                    assert(t[j - 2] == words[j - 1]);
                },
                None => {
                    assert forall|i: int|
                        0 <= i && i + 2 < words.len() && named_things().contains(
                            (#[trigger] words[i]).key,
                        ) implies !cue_matches("called"@, words[i + 1].key) && !cue_matches(
                        "named"@,
                        words[i + 1].key,
                    ) by {
                        if i > 0 {
                            assert(t[i - 1] == words[i]);
                            assert(t[i] == words[i + 1]);
                        }
                    }
                },
            }
        }
    }
}

/// What follows a colon is the message, to the last word, when the words before
/// it end in a cue or an introducer; a colon never makes a key chord.
pub proof fn law_message_is_all_after_the_wrapper_colon(
    intent: Seq<char>,
    assistant: Seq<char>,
    words: Seq<WordView>,
    head: Seq<WordView>,
    after: Seq<WordView>,
)
    requires
        cues_of(intent, assistant).len() > 0,
        after.len() > 0,
        after.last().key != "please"@,
        wraps(head, cues_of(intent, assistant)),
    ensures
        intent != "key"@ ==> message(intent, assistant, words, Some(ColonView { head, after }))
            == Some(after),
        intent == "key"@ ==> message(intent, assistant, words, Some(ColonView { head, after }))
            == message(intent, assistant, words, None),
{
}

/// Where no cue starts the utterance and nothing introduces a message, a search
/// and a key chord are found by a colon alone, and without one nothing is: the
/// model has to be asked.
pub proof fn law_no_cue_no_message(
    intent: Seq<char>,
    assistant: Seq<char>,
    words: Seq<WordView>,
)
    requires
        forall|i: int|
            0 <= i < cues_of(intent, assistant).len() ==> !phrase_starts(
                words,
                #[trigger] cues_of(intent, assistant)[i],
            ),
        forall|i: int|
            0 <= i < polite_prefixes().len() ==> !phrase_starts(
                words,
                #[trigger] polite_prefixes()[i],
            ),
        words.len() == 0 || words.last().key != "please"@,
        intent == "notify"@ || intent == "claude_tell"@ ==> forall|p: int, i: int|
            0 <= p < words.len() && 0 <= i < introducers().len() ==> !#[trigger] phrase_starts(
                words.skip(p),
                introducers()[i],
            ),
    ensures
        message(intent, assistant, words, None) is None,
{
    lemma_longest_start_is(words, polite_prefixes(), 0);
    lemma_longest_start_is(words, cues_of(intent, assistant), 0);
    if intent == "notify"@ || intent == "claude_tell"@ {
        lemma_no_introducer(words, 0);
        assert(words.skip(0) =~= words);
    }
}

proof fn lemma_no_introducer(words: Seq<WordView>, from: int)
    requires
        0 <= from <= words.len(),
        forall|p: int, i: int|
            0 <= p < words.len() && 0 <= i < introducers().len() ==> !#[trigger] phrase_starts(
                words.skip(p),
                introducers()[i],
            ),
    ensures
        after_introducer(words.skip(from), introducers()) is None,
    decreases words.len() - from,
{
    if from < words.len() {
        let rest = words.skip(from);
        assert forall|i: int| 0 <= i < introducers().len() implies !phrase_starts(
            rest,
            #[trigger] introducers()[i],
        ) by {
            assert(!phrase_starts(words.skip(from), introducers()[i]));
        }
        lemma_longest_introducer_none(rest, introducers());
        assert(rest.drop_first() =~= words.skip(from + 1));
        lemma_no_introducer(words, from + 1);
    }
}

proof fn lemma_longest_introducer_none(words: Seq<WordView>, phrases: Seq<Seq<char>>)
    requires
        forall|i: int| 0 <= i < phrases.len() ==> !phrase_starts(words, #[trigger] phrases[i]),
    ensures
        longest_introducer(words, phrases) == 0,
    decreases phrases.len(),
{
    if phrases.len() > 0 {
        let front = phrases.drop_last();
        assert forall|i: int| 0 <= i < front.len() implies !phrase_starts(
            words,
            #[trigger] front[i],
        ) by {
            assert(front[i] == phrases[i]);
        }
        assert(phrases.last() == phrases[phrases.len() - 1]);
        lemma_longest_introducer_none(words, front);
    }
}

/// The phrases after which a message is looked for, by intent: those that ask for
/// keys, for a reminder, for a search, and those that address the coding
/// assistant by its name. No other intent carries a message.
pub proof fn law_cues_by_intent(intent: Seq<char>, assistant: Seq<char>, phrase: Seq<char>)
    ensures
        cues_of("key"@, assistant).contains(phrase) <==> phrase == "hit"@
            || phrase == "press"@
            || phrase == "push"@
            || phrase == "send"@
            || phrase == "type"@
            || phrase == "do"@
            || phrase == "the key"@
            || phrase == "keys"@
            || phrase == "key"@,
        cues_of("notify"@, assistant).contains(phrase) <==> phrase == "remind me on screen that"@
            || phrase == "remind me on screen to"@
            || phrase == "remind me on screen"@
            || phrase == "remind me that"@
            || phrase == "remind me to"@
            || phrase == "remind me"@
            || phrase == "notify me that"@
            || phrase == "notify me to"@
            || phrase == "notify me"@
            || phrase == "notify"@
            || phrase == "make a note that"@
            || phrase == "make a note to"@
            || phrase == "make a note"@
            || phrase == "note that"@
            || phrase == "note"@
            || phrase == "set a reminder that"@
            || phrase == "set a reminder to"@
            || phrase == "set a reminder"@,
        cues_of("krunner"@, assistant).contains(phrase) <==> phrase == "search for"@
            || phrase == "search"@
            || phrase == "look up"@
            || phrase == "look for"@
            || phrase == "track down"@
            || phrase == "locate"@
            || phrase == "where is"@
            || phrase == "where's"@
            || phrase == "run"@
            || phrase == "find"@
            || phrase == "krunner"@,
        cues_of("claude_tell"@, assistant).contains(phrase) <==> phrase == "tell "@ + assistant + " code to"@
            || phrase == "tell "@ + assistant + " code"@
            || phrase == "tell "@ + assistant + " to"@
            || phrase == "tell "@ + assistant
            || phrase == "ask "@ + assistant + " code to"@
            || phrase == "ask "@ + assistant + " code"@
            || phrase == "ask "@ + assistant + " to"@
            || phrase == "ask "@ + assistant
            || phrase == "say to "@ + assistant
            || phrase == "have "@ + assistant
            || phrase == "get "@ + assistant + " to"@
            || phrase == "message "@ + assistant + " that"@
            || phrase == "message "@ + assistant
            || phrase == assistant + ","@
            || phrase == assistant + ":"@,
        intent != "key"@ && intent != "notify"@ && intent != "krunner"@ && intent != "claude_tell"@
            ==> cues_of(intent, assistant).len() == 0,
{
    reveal_strlit("key");
    reveal_strlit("notify");
    reveal_strlit("krunner");
    reveal_strlit("claude_tell");
    assert("key"@.len() == 3 && "notify"@.len() == 6 && "krunner"@.len() == 7);
    assert("claude_tell"@.len() == 11);
    assert(cues_of("key"@, assistant)[0] == "hit"@);
    assert(cues_of("key"@, assistant)[1] == "press"@);
    assert(cues_of("key"@, assistant)[2] == "push"@);
    assert(cues_of("key"@, assistant)[3] == "send"@);
    assert(cues_of("key"@, assistant)[4] == "type"@);
    assert(cues_of("key"@, assistant)[5] == "do"@);
    assert(cues_of("key"@, assistant)[6] == "the key"@);
    assert(cues_of("key"@, assistant)[7] == "keys"@);
    assert(cues_of("key"@, assistant)[8] == "key"@);
    assert(cues_of("notify"@, assistant)[0] == "remind me on screen that"@);
    assert(cues_of("notify"@, assistant)[1] == "remind me on screen to"@);
    assert(cues_of("notify"@, assistant)[2] == "remind me on screen"@);
    assert(cues_of("notify"@, assistant)[3] == "remind me that"@);
    assert(cues_of("notify"@, assistant)[4] == "remind me to"@);
    assert(cues_of("notify"@, assistant)[5] == "remind me"@);
    assert(cues_of("notify"@, assistant)[6] == "notify me that"@);
    assert(cues_of("notify"@, assistant)[7] == "notify me to"@);
    assert(cues_of("notify"@, assistant)[8] == "notify me"@);
    assert(cues_of("notify"@, assistant)[9] == "notify"@);
    assert(cues_of("notify"@, assistant)[10] == "make a note that"@);
    assert(cues_of("notify"@, assistant)[11] == "make a note to"@);
    assert(cues_of("notify"@, assistant)[12] == "make a note"@);
    assert(cues_of("notify"@, assistant)[13] == "note that"@);
    assert(cues_of("notify"@, assistant)[14] == "note"@);
    assert(cues_of("notify"@, assistant)[15] == "set a reminder that"@);
    assert(cues_of("notify"@, assistant)[16] == "set a reminder to"@);
    assert(cues_of("notify"@, assistant)[17] == "set a reminder"@);
    assert(cues_of("krunner"@, assistant)[0] == "search for"@);
    assert(cues_of("krunner"@, assistant)[1] == "search"@);
    assert(cues_of("krunner"@, assistant)[2] == "look up"@);
    assert(cues_of("krunner"@, assistant)[3] == "look for"@);
    assert(cues_of("krunner"@, assistant)[4] == "track down"@);
    assert(cues_of("krunner"@, assistant)[5] == "locate"@);
    assert(cues_of("krunner"@, assistant)[6] == "where is"@);
    assert(cues_of("krunner"@, assistant)[7] == "where's"@);
    assert(cues_of("krunner"@, assistant)[8] == "run"@);
    assert(cues_of("krunner"@, assistant)[9] == "find"@);
    assert(cues_of("krunner"@, assistant)[10] == "krunner"@);
    assert(cues_of("claude_tell"@, assistant)[0] == "tell "@ + assistant + " code to"@);
    assert(cues_of("claude_tell"@, assistant)[1] == "tell "@ + assistant + " code"@);
    assert(cues_of("claude_tell"@, assistant)[2] == "tell "@ + assistant + " to"@);
    assert(cues_of("claude_tell"@, assistant)[3] == "tell "@ + assistant);
    assert(cues_of("claude_tell"@, assistant)[4] == "ask "@ + assistant + " code to"@);
    assert(cues_of("claude_tell"@, assistant)[5] == "ask "@ + assistant + " code"@);
    assert(cues_of("claude_tell"@, assistant)[6] == "ask "@ + assistant + " to"@);
    assert(cues_of("claude_tell"@, assistant)[7] == "ask "@ + assistant);
    assert(cues_of("claude_tell"@, assistant)[8] == "say to "@ + assistant);
    assert(cues_of("claude_tell"@, assistant)[9] == "have "@ + assistant);
    assert(cues_of("claude_tell"@, assistant)[10] == "get "@ + assistant + " to"@);
    assert(cues_of("claude_tell"@, assistant)[11] == "message "@ + assistant + " that"@);
    assert(cues_of("claude_tell"@, assistant)[12] == "message "@ + assistant);
    assert(cues_of("claude_tell"@, assistant)[13] == assistant + ","@);
    assert(cues_of("claude_tell"@, assistant)[14] == assistant + ":"@);
}

/// The words that mean nothing in front of a cue, those that introduce a message
/// or follow the introducer, and those that give a thing its name.
pub proof fn law_words_around_a_message(phrase: Seq<char>)
    ensures
        polite_prefixes().contains(phrase) <==> phrase == "please"@
            || phrase == "can you"@
            || phrase == "could you"@
            || phrase == "would you"@
            || phrase == "will you"@
            || phrase == "hey"@,
        introducers().contains(phrase) <==> phrase == "saying"@
            || phrase == "that says"@
            || phrase == "which says"@
            || phrase == "that reads"@
            || phrase == "the message"@
            || phrase == "notification that says"@
            || phrase == "notification which says"@
            || phrase == "notification that"@
            || phrase == "notification saying"@,
        sayings().contains(phrase) <==> phrase == "says"@
            || phrase == "saying"@
            || phrase == "reads"@,
        name_introducers().contains(phrase) <==> phrase == "called"@
            || phrase == "named"@,
        named_things().contains(phrase) <==> phrase == "file"@
            || phrase == "document"@
            || phrase == "folder"@
            || phrase == "app"@
            || phrase == "application"@
            || phrase == "program"@
            || phrase == "thing"@
            || phrase == "one"@
            || phrase == "something"@,
{
    assert(polite_prefixes()[0] == "please"@);
    assert(polite_prefixes()[1] == "can you"@);
    assert(polite_prefixes()[2] == "could you"@);
    assert(polite_prefixes()[3] == "would you"@);
    assert(polite_prefixes()[4] == "will you"@);
    assert(polite_prefixes()[5] == "hey"@);
    assert(introducers()[0] == "saying"@);
    assert(introducers()[1] == "that says"@);
    assert(introducers()[2] == "which says"@);
    assert(introducers()[3] == "that reads"@);
    assert(introducers()[4] == "the message"@);
    assert(introducers()[5] == "notification that says"@);
    assert(introducers()[6] == "notification which says"@);
    assert(introducers()[7] == "notification that"@);
    assert(introducers()[8] == "notification saying"@);
    assert(sayings()[0] == "says"@);
    assert(sayings()[1] == "saying"@);
    assert(sayings()[2] == "reads"@);
    assert(name_introducers()[0] == "called"@);
    assert(name_introducers()[1] == "named"@);
    assert(named_things()[0] == "file"@);
    assert(named_things()[1] == "document"@);
    assert(named_things()[2] == "folder"@);
    assert(named_things()[3] == "app"@);
    assert(named_things()[4] == "application"@);
    assert(named_things()[5] == "program"@);
    assert(named_things()[6] == "thing"@);
    assert(named_things()[7] == "one"@);
    assert(named_things()[8] == "something"@);
}

/// A message that ends in no comma or semicolon is handed on word for word, with
/// single spaces.
pub proof fn law_words_are_handed_on_as_spoken(words: Seq<WordView>)
    requires
        words.len() > 0,
        forall|i: int| 0 <= i < words.len() ==> crate::text::solid((#[trigger] words[i]).text),
        words.last().text.last() != ',' && words.last().text.last() != ';',
    ensures
        joined(words) == crate::text::join(word_texts(words), " "@),
{
    let parts = word_texts(words);
    let s = crate::text::join(parts, " "@);
    assert(parts.last() == words.last().text);
    assert(parts[0] == words[0].text);
    assert(crate::text::solid(words[words.len() - 1].text));
    assert(crate::text::solid(words[0].text));
    lemma_join_ends(parts);
    let out = |c: char| c == ',' || c == ';';
    let ws = |c: char| crate::text::white_space(c);
    crate::text::lemma_drop_back_is(s, out, s.len() as int);
    assert(s.take(s.len() as int) =~= s);
    crate::text::lemma_drop_front_is(s, ws, 0);
    assert(s.skip(0) =~= s);
    crate::text::lemma_drop_back_is(s, ws, s.len() as int);
}

proof fn lemma_join_ends(parts: Seq<Seq<char>>)
    requires
        parts.len() > 0,
        parts[0].len() > 0,
        parts.last().len() > 0,
    ensures
        crate::text::join(parts, " "@).len() > 0,
        crate::text::join(parts, " "@)[0] == parts[0][0],
        crate::text::join(parts, " "@).last() == parts.last().last(),
    decreases parts.len(),
{
    if parts.len() > 1 {
        let first = seq![parts[0]];
        let rest = parts.drop_first();
        assert(parts =~= first + rest);
        crate::text::law_joining_in_two_goes(first, rest, " "@);
        crate::text::lemma_join_one(parts[0], " "@);
        let front = parts.drop_last();
        let last = seq![parts.last()];
        assert(parts =~= front + last);
        crate::text::law_joining_in_two_goes(front, last, " "@);
        crate::text::lemma_join_one(parts.last(), " "@);
    }
}

/// Where no cue starts the utterance, a notification and a message for the coding
/// assistant are everything after the first words that introduce one, a verb of
/// saying left out.
pub proof fn law_message_is_all_after_the_introducer(
    intent: Seq<char>,
    assistant: Seq<char>,
    words: Seq<WordView>,
    p: int,
    k: int,
)
    requires
        intent == "notify"@ || intent == "claude_tell"@,
        forall|i: int|
            0 <= i < cues_of(intent, assistant).len() ==> !phrase_starts(
                words,
                #[trigger] cues_of(intent, assistant)[i],
            ),
        forall|i: int|
            0 <= i < polite_prefixes().len() ==> !phrase_starts(
                words,
                #[trigger] polite_prefixes()[i],
            ),
        0 <= p < words.len(),
        words.last().key != "please"@,
        0 <= k < introducers().len(),
        phrase_starts(words.skip(p), introducers()[k]),
        forall|i: int|
            0 <= i < introducers().len() && phrase_starts(words.skip(p), #[trigger] introducers()[i])
                ==> crate::text::words(introducers()[i]).len() <= crate::text::words(
                introducers()[k],
            ).len(),
        forall|q: int, i: int|
            0 <= q < p && 0 <= i < introducers().len() ==> !#[trigger] phrase_starts(
                words.skip(q),
                introducers()[i],
            ),
        0 < crate::text::words(introducers()[k]).len() < words.len() - p,
        forall|i: int|
            0 <= i < sayings().len() ==> !phrase_starts(
                words.skip(p + crate::text::words(introducers()[k]).len()),
                #[trigger] sayings()[i],
            ),
    ensures
        message(intent, assistant, words, None) == Some(
            words.skip(p + crate::text::words(introducers()[k]).len()),
        ),
{
    reveal_strlit("notify");
    reveal_strlit("claude_tell");
    reveal_strlit("krunner");
    lemma_longest_start_is(words, polite_prefixes(), 0);
    lemma_longest_start_is(words, cues_of(intent, assistant), 0);
    lemma_introduced_at(words, 0, p, k);
    assert(words.skip(0) =~= words);
}

proof fn lemma_introduced_at(words: Seq<WordView>, from: int, p: int, k: int)
    requires
        0 <= from <= p < words.len(),
        0 <= k < introducers().len(),
        phrase_starts(words.skip(p), introducers()[k]),
        forall|i: int|
            0 <= i < introducers().len() && phrase_starts(words.skip(p), #[trigger] introducers()[i])
                ==> crate::text::words(introducers()[i]).len() <= crate::text::words(
                introducers()[k],
            ).len(),
        forall|q: int, i: int|
            0 <= q < p && 0 <= i < introducers().len() ==> !#[trigger] phrase_starts(
                words.skip(q),
                introducers()[i],
            ),
        0 < crate::text::words(introducers()[k]).len() < words.len() - p,
        forall|i: int|
            0 <= i < sayings().len() ==> !phrase_starts(
                words.skip(p + crate::text::words(introducers()[k]).len()),
                #[trigger] sayings()[i],
            ),
    ensures
        after_introducer(words.skip(from), introducers()) == Some(
            words.skip(p + crate::text::words(introducers()[k]).len()),
        ),
    decreases p - from,
{
    let rest = words.skip(from);
    let n = crate::text::words(introducers()[k]).len();
    if from < p {
        assert forall|i: int| 0 <= i < introducers().len() implies !phrase_starts(
            rest,
            #[trigger] introducers()[i],
        ) by {
            assert(!phrase_starts(words.skip(from), introducers()[i]));
        }
        lemma_longest_introducer_none(rest, introducers());
        assert(rest.drop_first() =~= words.skip(from + 1));
        lemma_introduced_at(words, from + 1, p, k);
    } else {
        let tail = words.skip(p + n);
        assert(rest.skip(n as int) =~= tail);
        lemma_longest_start_is(tail, sayings(), 0);
        assert(strip_leading_all(tail, sayings()) == tail);
        lemma_longest_introducer_is(rest, introducers(), k);
    }
}

proof fn lemma_longest_introducer_is(words: Seq<WordView>, phrases: Seq<Seq<char>>, k: int)
    requires
        0 <= k < phrases.len(),
        phrase_starts(words, phrases[k]),
        crate::text::words(phrases[k]).len() > 0,
        strip_leading_all(
            words.skip(crate::text::words(phrases[k]).len() as int),
            sayings(),
        ).len() > 0,
        forall|i: int|
            0 <= i < phrases.len() && phrase_starts(words, #[trigger] phrases[i])
                ==> crate::text::words(phrases[i]).len() <= crate::text::words(phrases[k]).len(),
    ensures
        longest_introducer(words, phrases) == crate::text::words(phrases[k]).len(),
    decreases phrases.len(),
{
    let front = phrases.drop_last();
    let n = crate::text::words(phrases[k]).len();
    assert forall|i: int| 0 <= i < front.len() && phrase_starts(words, #[trigger] front[i]) implies
        crate::text::words(front[i]).len() <= n by {
        assert(front[i] == phrases[i]);
    }
    if k < front.len() {
        assert(front[k] == phrases[k]);
        lemma_longest_introducer_is(words, front, k);
        assert(phrases.last() == phrases[phrases.len() - 1]);
    } else {
        lemma_longest_introducer_most(words, front, n);
    }
}

proof fn lemma_longest_introducer_most(words: Seq<WordView>, phrases: Seq<Seq<char>>, n: nat)
    requires
        forall|i: int|
            0 <= i < phrases.len() && phrase_starts(words, #[trigger] phrases[i])
                ==> crate::text::words(phrases[i]).len() <= n,
    ensures
        longest_introducer(words, phrases) <= n,
    decreases phrases.len(),
{
    if phrases.len() > 0 {
        let front = phrases.drop_last();
        assert(phrases.last() == phrases[phrases.len() - 1]);
        assert forall|i: int| 0 <= i < front.len() && phrase_starts(words, #[trigger] front[i])
            implies crate::text::words(front[i]).len() <= n by {
            assert(front[i] == phrases[i]);
        }
        lemma_longest_introducer_most(words, front, n);
    }
}

/// A word is matched by its letters, digits and apostrophes in lower case, and
/// by a comma or colon at its end: a plain word is matched as it stands, in any
/// case.
pub proof fn law_words_are_matched_in_any_case(w: Seq<char>)
    requires
        w.len() > 0,
        forall|i: int|
            0 <= i < w.len() ==> 65 <= (#[trigger] w[i]) as u32 <= 90 || 97 <= w[i] as u32 <= 122,
    ensures
        word_form(w) == crate::text::ascii_lowered(w),
        word_form(w.push(',')) == crate::text::ascii_lowered(w).push(','),
        word_form(w.push('.')) == crate::text::ascii_lowered(w),
{
    let l = crate::text::ascii_lowered(w);
    let p = |c: char| crate::text::letter(c) || c == '\'';
    assert(crate::text::lowered(w) == l) by {
        assert(crate::text::all_ascii(w));
    }
    assert forall|i: int| 0 <= i < l.len() implies p(#[trigger] l[i]) by {
        assert(l[i] == crate::text::ascii_lower(w[i]));
    }
    lemma_filter_keeps(l, p);
    assert(l[l.len() - 1] == crate::text::ascii_lower(w[w.len() - 1]));
    assert forall|c: char| c == ',' || c == '.' implies crate::text::lowered(#[trigger] w.push(c))
        == l.push(c) && l.push(c).filter(p) == l by {
        let v = w.push(c);
        assert(crate::text::all_ascii(v));
        assert(crate::text::ascii_lowered(v) =~= l.push(c));
        reveal(Seq::filter);
        assert(l.push(c).drop_last() =~= l);
    }
    assert(crate::text::lowered(w.push(',')) == l.push(','));
    assert(crate::text::lowered(w.push('.')) == l.push('.'));
}

/// Of the phrases that start some words the longest counts: none of them has
/// more words, and the count is that of one of them, or 0 where there is none.
pub proof fn law_longest_phrase_counts(words: Seq<WordView>, phrases: Seq<Seq<char>>)
    ensures
        forall|i: int|
            0 <= i < phrases.len() && phrase_starts(words, #[trigger] phrases[i])
                ==> crate::text::words(phrases[i]).len() <= longest_start(words, phrases),
        longest_start(words, phrases) > 0 ==> exists|i: int|
            0 <= i < phrases.len() && phrase_starts(words, #[trigger] phrases[i])
                && crate::text::words(phrases[i]).len() == longest_start(words, phrases),
    decreases phrases.len(),
{
    if phrases.len() > 0 {
        let front = phrases.drop_last();
        law_longest_phrase_counts(words, front);
        assert forall|i: int|
            0 <= i < phrases.len() && phrase_starts(
                words,
                #[trigger] phrases[i],
            ) implies crate::text::words(phrases[i]).len() <= longest_start(words, phrases) by {
            if i < front.len() {
                assert(front[i] == phrases[i]);
            }
        }
        if longest_start(words, phrases) > 0 {
            if longest_start(words, phrases) == longest_start(words, front) {
                let i = choose|i: int|
                    0 <= i < front.len() && phrase_starts(words, #[trigger] front[i])
                        && crate::text::words(front[i]).len() == longest_start(words, front);
                assert(phrases[i] == front[i]);
            } else {
                assert(phrase_starts(words, phrases[phrases.len() - 1]));
            }
        }
    }
}

/// A phrase at the front is stripped exactly where one of them stands there,
/// and what follows it stays whole.
pub proof fn law_a_phrase_in_front_is_stripped(words: Seq<WordView>, phrases: Seq<Seq<char>>)
    ensures
        strip_leading(words, phrases) is Some <==> exists|i: int|
            0 <= i < phrases.len() && crate::text::words(#[trigger] phrases[i]).len() > 0
                && phrase_starts(words, phrases[i]),
        strip_leading(words, phrases) matches Some(rest) ==> rest.len() < words.len() && rest
            == words.skip(words.len() - rest.len()),
{
    law_longest_phrase_counts(words, phrases);
    lemma_longest_start_bound(words, phrases);
}

/// Words end in a phrase exactly when they are some words and then words that
/// it starts, none over.
pub proof fn law_words_end_in_a_phrase(front: Seq<WordView>, tail: Seq<WordView>, phrase: Seq<char>)
    requires
        tail.len() == crate::text::words(phrase).len(),
    ensures
        phrase_ends_with(front + tail, phrase) <==> phrase_starts(tail, phrase),
        forall|words: Seq<WordView>|
            words.len() < tail.len() ==> !#[trigger] phrase_ends_with(words, phrase),
{
    assert((front + tail).skip((front + tail).len() - tail.len()) =~= tail);
}

/// The words before a colon are the wrapper as soon as they end in one of the
/// cues, or in one of the introducers whatever the cues; and only then.
pub proof fn law_wrappers_end_in_a_cue_or_an_introducer(
    head: Seq<WordView>,
    cues: Seq<Seq<char>>,
    i: int,
)
    ensures
        ({
            let spoken = strip_leading_all(head, polite_prefixes());
            &&& 0 <= i < cues.len() && phrase_ends_with(spoken, cues[i]) ==> wraps(head, cues)
            &&& 0 <= i < introducers().len() && phrase_ends_with(spoken, introducers()[i])
                ==> wraps(head, cues)
            &&& wraps(head, cues) ==> (exists|k: int|
                0 <= k < cues.len() && phrase_ends_with(spoken, #[trigger] cues[k])) || (exists|
                k: int,
            |
                0 <= k < introducers().len() && phrase_ends_with(
                    spoken,
                    #[trigger] introducers()[k],
                ))
        }),
{
}

} // verus!
