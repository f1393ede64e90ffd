//! What a transcript is worth: whitespace made regular, and the phrases a
//! recogniser invents on silence taken out.
use vstd::prelude::*;

use crate::text::{is_letter, join_from, lower, same, slice_text, split_words, to_chars, trim};

verus! {

/// A text without what is no letter or digit at both its ends.
pub open spec fn core_of(s: Seq<char>) -> Seq<char> {
    let out = |c: char| !crate::text::letter(c);
    crate::text::drop_back(crate::text::drop_front(s, out), out)
}

/// The blocklist as it is compared: trimmed, lowercased, empty entries left
/// out.
pub open spec fn entries_of(blocklist: Seq<Seq<char>>) -> Seq<Seq<char>>
    decreases blocklist.len(),
{
    if blocklist.len() == 0 {
        Seq::empty()
    } else {
        let rest = entries_of(blocklist.drop_last());
        let b = crate::text::lowered(crate::text::trimmed(blocklist.last()));
        if b.len() == 0 {
            rest
        } else {
            rest.push(b)
        }
    }
}

/// `text` minus a trailing `suffix` when it is its own word or words:
/// preceded by whitespace and not the whole text. Lengths are counted in the
/// characters of the text itself, not of a lowercased copy.
pub open spec fn without_suffix(text: Seq<char>, suffix: Seq<char>) -> Option<Seq<char>> {
    let n = suffix.len() as int;
    let at = text.len() - n;
    if n == 0 || at < 0 || crate::text::lowered(text.skip(at)) != suffix {
        None
    } else {
        let head = text.take(at);
        let kept = crate::text::drop_back(head, |c: char| crate::text::white_space(c));
        if kept.len() == head.len() || kept.len() == 0 {
            None
        } else {
            Some(kept)
        }
    }
}

/// Whether an entry is a phrase of more than one word. The end of real speech
/// can well be a single word that the recogniser invents on silence.
pub open spec fn is_phrase(entry: Seq<char>) -> bool {
    crate::text::words(entry).len() > 1
}

/// `text` without the first phrase of `entries` that ends it.
pub open spec fn without_tail(text: Seq<char>, entries: Seq<Seq<char>>) -> Seq<char>
    decreases entries.len(),
{
    if entries.len() == 0 {
        text
    } else {
        match without_suffix(text, entries[0]) {
            Some(head) if is_phrase(entries[0]) => head,
            _ => without_tail(text, entries.drop_first()),
        }
    }
}

/// The speech in a transcript: its words with single spaces, without what is no
/// letter or digit at both ends.
pub open spec fn speech(text: Seq<char>) -> Seq<char> {
    core_of(crate::text::join(crate::text::words(text), " "@))
}

/// What is kept of a transcript.
pub open spec fn filtered(blocklist: Seq<Seq<char>>, text: Seq<char>) -> Seq<char> {
    let core = speech(text);
    let entries = entries_of(blocklist);
    if core.len() == 0 || entries.contains(crate::text::lowered(core)) {
        Seq::empty()
    } else {
        without_tail(core, entries)
    }
}

/// `text` minus a trailing `suffix`, which is in lower case.
pub fn strip_suffix_word(text: &str, suffix: &str) -> (r: Option<String>)
    requires
        suffix@.len() > 0,
    ensures
        crate::intent::opt_text(r) == without_suffix(text@, suffix@),
{
    let v = to_chars(text);
    let n = to_chars(suffix).len();
    if v.len() < n {
        return None;
    }
    let at: usize = v.len() - n;
    let tail = slice_text(&v, at, v.len());
    assert(tail@ =~= text@.skip(at as int));
    let lowered = lower(tail.as_str());
    if !same(lowered.as_str(), suffix) {
        return None;
    }
    let mut end: usize = at;
    while end > 0 && v[end - 1].is_whitespace()
        invariant
            end <= at <= v@.len(),
            forall|k: int| end <= k < at ==> crate::text::white_space(#[trigger] v@[k]),
        decreases end,
    {
        end = end - 1;
    }
    proof {
        let head = text@.take(at as int);
        assert forall|k: int| end <= k < head.len() implies crate::text::white_space(
            #[trigger] head[k],
        ) by {
            assert(head[k] == v@[k]);
        }
        crate::text::lemma_drop_back_is(head, |c: char| crate::text::white_space(c), end as int);
        assert(head.take(end as int) =~= v@.subrange(0, end as int));
    }
    if end == at || end == 0 {
        return None;
    }
    Some(slice_text(&v, 0, end))
}

/// The core of a text.
fn core_text(s: &str) -> (r: String)
    ensures
        r@ == core_of(s@),
{
    let v = to_chars(s);
    let ghost out = |c: char| !crate::text::letter(c);
    let mut i: usize = 0;
    while i < v.len() && !is_letter(v[i])
        invariant
            i <= v@.len(),
            forall|k: int| 0 <= k < i ==> !crate::text::letter(#[trigger] v@[k]),
        decreases v@.len() - i,
    {
        i = i + 1;
    }
    let mut j: usize = v.len();
    while j > i && !is_letter(v[j - 1])
        invariant
            i <= j <= v@.len(),
            forall|k: int| j <= k < v@.len() ==> !crate::text::letter(#[trigger] v@[k]),
        decreases j,
    {
        j = j - 1;
    }
    proof {
        crate::text::lemma_drop_front_is(v@, out, i as int);
        let rest = v@.skip(i as int);
        assert forall|m: int| j - i <= m < rest.len() implies out(#[trigger] rest[m]) by {
            assert(rest[m] == v@[i + m]);
        }
        if j > i {
            assert(rest[j - i - 1] == v@[j - 1]);
        }
        crate::text::lemma_drop_back_is(rest, out, j - i);
        assert(rest.take(j - i) =~= v@.subrange(i as int, j as int));
    }
    slice_text(&v, i, j)
}

/// The blocklist as it is compared.
fn entries(blocklist: &Vec<String>) -> (r: Vec<String>)
    ensures
        crate::text::texts(r@) == entries_of(crate::text::texts(blocklist@)),
        forall|i: int| 0 <= i < r@.len() ==> (#[trigger] r@[i])@.len() > 0,
{
    let ghost all = crate::text::texts(blocklist@);
    let mut out: Vec<String> = Vec::new();
    let mut i: usize = 0;
    while i < blocklist.len()
        invariant
            i <= blocklist@.len(),
            all == crate::text::texts(blocklist@),
            crate::text::texts(out@) == entries_of(all.take(i as int)),
            forall|k: int| 0 <= k < out@.len() ==> (#[trigger] out@[k])@.len() > 0,
        decreases blocklist@.len() - i,
    {
        proof {
            assert(all.take(i + 1).drop_last() =~= all.take(i as int));
            assert(all.take(i + 1).last() == blocklist@[i as int]@);
        }
        let b = lower(trim(blocklist[i].as_str()).as_str());
        if !b.as_str().is_empty() {
            let ghost before = out@;
            out.push(b);
            assert(crate::text::texts(out@) =~= crate::text::texts(before).push(b@));
        }
        i = i + 1;
    }
    assert(all.take(i as int) =~= all);
    out
}

/// Normalise whitespace and drop known silence-hallucinations: a transcript
/// that is nothing but a blocklist entry is dropped, and a blocklisted phrase
/// tacked onto the end of real speech is stripped. Matching ignores case and
/// keeps to word boundaries, and an entry of one word only drops a transcript
/// that is nothing else, so "I love you" survives a "you" entry and "hello
/// thank you" becomes "hello".
pub fn filter(blocklist: &Vec<String>, text: &str) -> (r: String)
    ensures
        r@ == filtered(crate::text::texts(blocklist@), text@),
{
    let spoken = split_words(text);
    assert(crate::text::texts(spoken@).skip(0) =~= crate::text::texts(spoken@));
    let cleaned = join_from(&spoken, 0, " ");
    let core = core_text(cleaned.as_str());
    if core.as_str().is_empty() {
        assert(core@ =~= Seq::<char>::empty());
        return String::new();
    }
    let core_lower = lower(core.as_str());
    let list = entries(blocklist);
    if listed(&list, core_lower.as_str()) {
        return String::new();
    }
    cut_tail(core.as_str(), &list)
}

/// Whether `x` is one of `list`.
fn listed(list: &Vec<String>, x: &str) -> (r: bool)
    ensures
        r == crate::text::texts(list@).contains(x@),
{
    let ghost all = crate::text::texts(list@);
    let mut i: usize = 0;
    while i < list.len()
        invariant
            i <= list@.len(),
            crate::text::texts(list@) == all,
            forall|k: int| 0 <= k < i ==> #[trigger] all[k] != x@,
        decreases list@.len() - i,
    {
        assert(all[i as int] == list@[i as int]@);
        if same(list[i].as_str(), x) {
            return true;
        }
        i = i + 1;
    }
    false
}

/// `core` without the first phrase of `list` that ends it.
fn cut_tail(core: &str, list: &Vec<String>) -> (r: String)
    requires
        forall|k: int| 0 <= k < list@.len() ==> (#[trigger] list@[k])@.len() > 0,
    ensures
        r@ == without_tail(core@, crate::text::texts(list@)),
{
    let ghost all = crate::text::texts(list@);
    let mut j: usize = 0;
    assert(all.skip(0) =~= all);
    while j < list.len()
        invariant
            j <= list@.len(),
            crate::text::texts(list@) == all,
            forall|k: int| 0 <= k < list@.len() ==> (#[trigger] list@[k])@.len() > 0,
            without_tail(core@, all.skip(j as int)) == without_tail(core@, all),
        decreases list@.len() - j,
    {
        proof {
            assert(all.skip(j as int)[0] == list@[j as int]@);
            assert(all.skip(j as int).drop_first() =~= all.skip(j + 1));
            assert(list@[j as int]@.len() > 0);
        }
        if split_words(list[j].as_str()).len() > 1 {
            if let Some(head) = strip_suffix_word(core, list[j].as_str()) {
                return head;
            }
        }
        j = j + 1;
    }
    assert(all.skip(j as int) =~= Seq::<Seq<char>>::empty());
    core.to_string()
}

/// The language handed to the recogniser: none when it is to detect it.
pub fn language_hint(language: &str) -> (r: Option<&str>)
    ensures
        crate::config::opt_str(r) == if language@ == "auto"@ {
            None
        } else {
            Some(language@)
        },
{
    if same(language, "auto") {
        None
    } else {
        Some(language)
    }
}

/// A transcript that is nothing but a blocklisted phrase, in any case, is
/// dropped.
pub proof fn law_lone_phrase_is_dropped(blocklist: Seq<Seq<char>>, text: Seq<char>)
    requires
        entries_of(blocklist).contains(crate::text::lowered(speech(text))),
    ensures
        filtered(blocklist, text) == Seq::<char>::empty(),
{
}

/// What is kept is the front of the speech: nothing is put in, and nothing is
/// taken from the middle.
pub proof fn law_speech_is_only_cut_at_the_end(blocklist: Seq<Seq<char>>, text: Seq<char>)
    ensures
        ({
            let core = speech(text);
            let kept = filtered(blocklist, text);
            kept.len() <= core.len() && kept == core.take(kept.len() as int)
        }),
{
    let core = speech(text);
    assert(Seq::<char>::empty() =~= core.take(0));
    lemma_without_tail(core, entries_of(blocklist));
}

proof fn lemma_without_tail(text: Seq<char>, entries: Seq<Seq<char>>)
    ensures
        ({
            let kept = without_tail(text, entries);
            kept.len() <= text.len() && kept == text.take(kept.len() as int)
        }),
    decreases entries.len(),
{
    if entries.len() == 0 {
        assert(text =~= text.take(text.len() as int));
    } else {
        let n = entries[0].len() as int;
        let at = text.len() - n;
        if without_suffix(text, entries[0]) is Some && is_phrase(entries[0]) {
            let head = text.take(at);
            crate::text::lemma_drop_back(head, |c: char| crate::text::white_space(c));
            let kept = crate::text::drop_back(head, |c: char| crate::text::white_space(c));
            assert(kept =~= text.take(kept.len() as int));
        } else {
            lemma_without_tail(text, entries.drop_first());
        }
    }
}

/// Speech that no blocklisted phrase ends is kept whole, whatever single words
/// are listed.
pub proof fn law_real_speech_survives(blocklist: Seq<Seq<char>>, text: Seq<char>)
    requires
        ({
            let core = speech(text);
            let entries = entries_of(blocklist);
            !entries.contains(crate::text::lowered(core)) && forall|i: int|
                0 <= i < entries.len() && is_phrase(entries[i]) ==> without_suffix(
                    core,
                    #[trigger] entries[i],
                ) is None
        }),
    ensures
        filtered(blocklist, text) == speech(text),
{
    let core = speech(text);
    lemma_nothing_stripped(core, entries_of(blocklist));
    assert(core.len() == 0 ==> core =~= Seq::<char>::empty());
}

proof fn lemma_nothing_stripped(text: Seq<char>, entries: Seq<Seq<char>>)
    requires
        forall|i: int|
            0 <= i < entries.len() && is_phrase(entries[i]) ==> without_suffix(
                text,
                #[trigger] entries[i],
            ) is None,
    ensures
        without_tail(text, entries) == text,
    decreases entries.len(),
{
    if entries.len() > 0 {
        let rest = entries.drop_first();
        assert forall|i: int| 0 <= i < rest.len() && is_phrase(rest[i]) implies without_suffix(
            text,
            #[trigger] rest[i],
        ) is None by {
            assert(rest[i] == entries[i + 1]);
        }
        lemma_nothing_stripped(text, rest);
    }
}

/// A blocklisted phrase tacked onto the end of real speech is cut: of several
/// that end it, the one listed first.
pub proof fn law_trailing_phrase_is_cut(
    blocklist: Seq<Seq<char>>,
    text: Seq<char>,
    i: int,
    head: Seq<char>,
)
    requires
        0 <= i < entries_of(blocklist).len(),
        is_phrase(entries_of(blocklist)[i]),
        without_suffix(speech(text), entries_of(blocklist)[i]) == Some(head),
        forall|j: int|
            0 <= j < i && is_phrase(entries_of(blocklist)[j]) ==> without_suffix(
                speech(text),
                #[trigger] entries_of(blocklist)[j],
            ) is None,
        !entries_of(blocklist).contains(crate::text::lowered(speech(text))),
    ensures
        filtered(blocklist, text) == head,
{
    lemma_first_phrase_is_cut(speech(text), entries_of(blocklist), i, head);
}

proof fn lemma_first_phrase_is_cut(
    text: Seq<char>,
    entries: Seq<Seq<char>>,
    i: int,
    head: Seq<char>,
)
    requires
        0 <= i < entries.len(),
        is_phrase(entries[i]),
        without_suffix(text, entries[i]) == Some(head),
        forall|j: int|
            0 <= j < i && is_phrase(entries[j]) ==> without_suffix(
                text,
                #[trigger] entries[j],
            ) is None,
    ensures
        without_tail(text, entries) == head,
    decreases entries.len(),
{
    if i > 0 {
        let rest = entries.drop_first();
        assert forall|j: int| 0 <= j < i - 1 && is_phrase(rest[j]) implies without_suffix(
            text,
            #[trigger] rest[j],
        ) is None by {
            assert(rest[j] == entries[j + 1]);
        }
        assert(without_suffix(text, entries[0]) is None || !is_phrase(entries[0]));
        lemma_first_phrase_is_cut(text, rest, i - 1, head);
    }
}

/// A suffix is taken off exactly where it stands at the end as words of its
/// own, in any case: something is said before it, with whitespace between,
/// and that whitespace goes too.
pub proof fn law_suffix_is_its_own_words(text: Seq<char>, suffix: Seq<char>, kept: Seq<char>)
    ensures
        without_suffix(text, suffix) == Some(kept) <==> {
            let at = text.len() - suffix.len();
            &&& 0 < suffix.len() <= text.len()
            &&& crate::text::lowered(text.skip(at)) == suffix
            &&& 0 < kept.len() < at
            &&& kept == text.take(kept.len() as int)
            &&& !crate::text::white_space(kept.last())
            &&& forall|i: int| kept.len() <= i < at ==> crate::text::white_space(#[trigger] text[i])
        },
{
    let ws = |c: char| crate::text::white_space(c);
    let n = suffix.len() as int;
    let at = text.len() - n;
    if 0 < n <= text.len() {
        let head = text.take(at);
        let rest = crate::text::drop_back(head, ws);
        crate::text::lemma_drop_back(head, ws);
        if without_suffix(text, suffix) == Some(kept) {
            assert(rest =~= text.take(rest.len() as int));
            assert forall|i: int| kept.len() <= i < at implies crate::text::white_space(
                #[trigger] text[i],
            ) by {
                assert(ws(head[i]));
            }
            assert(!ws(rest.last()));
        }
        if 0 < kept.len() < at && kept == text.take(kept.len() as int) && !crate::text::white_space(
            kept.last(),
        ) && (forall|i: int|
            kept.len() <= i < at ==> crate::text::white_space(#[trigger] text[i])) {
            assert forall|i: int| kept.len() <= i < head.len() implies ws(#[trigger] head[i]) by {
                assert(head[i] == text[i]);
            }
            assert(head[kept.len() - 1] == kept.last());
            crate::text::lemma_drop_back_is(head, ws, kept.len() as int);
            assert(head.take(kept.len() as int) =~= kept);
        }
    }
}

/// The core of a text is a piece of it that begins and ends with a letter or a
/// digit, and nothing around it is one.
pub proof fn law_core_is_from_letter_to_letter(s: Seq<char>) -> (r: (int, int))
    ensures
        0 <= r.0 <= r.1 <= s.len(),
        core_of(s) == s.subrange(r.0, r.1),
        core_of(s).len() > 0 ==> crate::text::letter(core_of(s)[0]) && crate::text::letter(
            core_of(s).last(),
        ),
        forall|i: int|
            0 <= i < r.0 || r.1 <= i < s.len() ==> !crate::text::letter(#[trigger] s[i]),
{
    let out = |c: char| !crate::text::letter(c);
    let t = crate::text::drop_front(s, out);
    crate::text::lemma_drop_front(s, out);
    crate::text::lemma_drop_back(t, out);
    let core = crate::text::drop_back(t, out);
    let a = s.len() - t.len();
    let b = a + core.len();
    assert(core =~= s.subrange(a, b));
    assert forall|i: int| 0 <= i < a || b <= i < s.len() implies !crate::text::letter(
        #[trigger] s[i],
    ) by {
        if i < a {
            assert(out(s[i]));
        } else {
            assert(out(t[i - a]));
            assert(t[i - a] == s[i]);
        }
    }
    if core.len() > 0 {
        assert(core[0] == t[0]);
        assert(!out(t[0]));
        assert(!out(core.last()));
    }
    (a, b)
}

/// The blocklist is compared trimmed and in lower case, without its blank
/// entries, in its own order.
pub proof fn law_blocklist_is_compared_in_lower_case(a: Seq<Seq<char>>, b: Seq<Seq<char>>)
    ensures
        entries_of(a + b) == entries_of(a) + entries_of(b),
        b.len() == 1 ==> {
            let e = crate::text::lowered(crate::text::trimmed(b[0]));
            entries_of(b) == if e.len() == 0 {
                Seq::empty()
            } else {
                seq![e]
            }
        },
    decreases b.len(),
{
    if b.len() == 0 {
        assert(a + b =~= a);
    } else {
        law_blocklist_is_compared_in_lower_case(a, b.drop_last());
        assert((a + b).drop_last() =~= a + b.drop_last());
        assert((a + b).last() == b.last());
        if b.len() == 1 {
            assert(entries_of(b.drop_last()) =~= Seq::empty());
        }
    }
}

/// Real speech never vanishes: what is not itself on the list leaves
/// something.
pub proof fn law_speech_is_never_cut_away(blocklist: Seq<Seq<char>>, text: Seq<char>)
    ensures
        filtered(blocklist, text).len() == 0 <==> speech(text).len() == 0 || entries_of(
            blocklist,
        ).contains(crate::text::lowered(speech(text))),
{
    if speech(text).len() > 0 {
        lemma_something_is_left(speech(text), entries_of(blocklist));
    }
}

proof fn lemma_something_is_left(text: Seq<char>, entries: Seq<Seq<char>>)
    requires
        text.len() > 0,
    ensures
        without_tail(text, entries).len() > 0,
    decreases entries.len(),
{
    if entries.len() > 0 {
        lemma_something_is_left(text, entries.drop_first());
    }
}

} // verus!
