//! "new line" and "new paragraph" as breaks, for text that skips the model.
//!
//! A phrase is looked for among the characters of the text itself, in any
//! case. Its letters are ASCII, so a character is compared by its ASCII lower
//! case, and what else the text holds makes no difference to where it stands.
use vstd::prelude::*;

use crate::text::{find_in, is_letter, slice_text, to_chars};

verus! {

/// The punctuation dropped in front of a break.
pub open spec fn stop(c: char) -> bool {
    c == ',' || c == '.' || c == ';' || c == ':' || c == '!' || c == '?'
}

/// The text before a break, without the whitespace and punctuation at its
/// end.
pub open spec fn before_break(s: Seq<char>) -> Seq<char> {
    crate::text::drop_back(
        crate::text::drop_back(s, |c: char| crate::text::white_space(c)),
        |c: char| stop(c),
    )
}

/// The text after a break, without the punctuation and spaces at its front.
pub open spec fn after_break(s: Seq<char>) -> Seq<char> {
    crate::text::drop_front(s, |c: char| stop(c) || c == ' ')
}

/// Where `phrase`, which is in lower case, is first spoken in a text.
pub open spec fn spoken_at(s: Seq<char>, phrase: Seq<char>) -> Option<int> {
    crate::text::first_at(crate::text::ascii_lowered(s), phrase)
}

/// Whether what stands from `from` to `to` in a text is no part of a longer
/// word.
pub open spec fn alone(s: Seq<char>, from: int, to: int) -> bool {
    (from == 0 || !crate::text::letter(s[from - 1])) && (to == s.len() || !crate::text::letter(
        s[to],
    ))
}

/// What the first `phrase` in a text comes to: what is typed up to and with
/// it, and the text after it. It is a break when it stands alone, else it
/// stays.
pub open spec fn cut_at(rest: Seq<char>, k: int, e: int, mark: Seq<char>) -> (Seq<char>, Seq<char>) {
    if alone(rest, k, e) {
        (before_break(rest.take(k)) + mark, after_break(rest.skip(e)))
    } else {
        (rest.take(e), rest.skip(e))
    }
}

/// `rest` with every spoken `phrase` that stands alone made a break.
pub open spec fn with_breaks(rest: Seq<char>, phrase: Seq<char>, mark: Seq<char>) -> Seq<char>
    decreases rest.len(),
    when phrase.len() > 0
    via with_breaks_decreases
{
    match spoken_at(rest, phrase) {
        None => rest,
        Some(k) => {
            let (piece, next) = cut_at(rest, k, k + phrase.len(), mark);
            piece + with_breaks(next, phrase, mark)
        },
    }
}

#[via_fn]
proof fn with_breaks_decreases(rest: Seq<char>, phrase: Seq<char>, mark: Seq<char>) {
    lemma_cut_shortens(rest, phrase, mark);
}

/// What comes after a cut is shorter.
proof fn lemma_cut_shortens(rest: Seq<char>, phrase: Seq<char>, mark: Seq<char>)
    requires
        phrase.len() > 0,
    ensures
        spoken_at(rest, phrase) matches Some(k) ==> 0 <= k && k + phrase.len() <= rest.len()
            && cut_at(rest, k, k + phrase.len(), mark).1.len() < rest.len(),
{
    crate::text::lemma_first_at(crate::text::ascii_lowered(rest), phrase);
    if let Some(k) = spoken_at(rest, phrase) {
        crate::text::lemma_drop_front(
            rest.skip(k + phrase.len()),
            |c: char| stop(c) || c == ' ',
        );
    }
}

/// The characters in ASCII lower case.
fn low(v: &Vec<char>) -> (r: Vec<char>)
    ensures
        r@ == crate::text::ascii_lowered(v@),
{
    let mut out: Vec<char> = Vec::new();
    while out.len() < v.len()
        invariant
            out@.len() <= v@.len(),
            forall|k: int|
                0 <= k < out@.len() ==> #[trigger] out@[k] == crate::text::ascii_lower(v@[k]),
        decreases v@.len() - out@.len(),
    {
        let c: char = v[out.len()];
        let n: u32 = c as u32;
        out.push(
            if 65 <= n && n <= 90 {
                (n as u8 + 32) as char
            } else {
                c
            },
        );
    }
    assert(out@ =~= crate::text::ascii_lowered(v@));
    out
}

/// The end of a text without the whitespace, and then the punctuation.
fn trim_before(v: &Vec<char>, n: usize) -> (r: String)
    requires
        n <= v@.len(),
    ensures
        r@ == before_break(v@.take(n as int)),
{
    let ghost s = v@.take(n as int);
    let mut i: usize = n;
    while i > 0 && v[i - 1].is_whitespace()
        invariant
            i <= n <= v@.len(),
            s == v@.take(n as int),
            forall|k: int| i <= k < n ==> crate::text::white_space(#[trigger] s[k]),
        decreases i,
    {
        assert(s[i - 1] == v@[i - 1]);
        i = i - 1;
    }
    proof {
        if i > 0 {
            assert(s[i - 1] == v@[i - 1]);
        }
        crate::text::lemma_drop_back_is(s, |c: char| crate::text::white_space(c), i as int);
    }
    let ghost t = s.take(i as int);
    let mut j: usize = i;
    while j > 0 && is_stop(v[j - 1])
        invariant
            j <= i <= n <= v@.len(),
            s == v@.take(n as int),
            t == s.take(i as int),
            forall|k: int| j <= k < i ==> stop(#[trigger] t[k]),
        decreases j,
    {
        assert(t[j - 1] == v@[j - 1]);
        j = j - 1;
    }
    proof {
        if j > 0 {
            assert(t[j - 1] == v@[j - 1]);
        }
        crate::text::lemma_drop_back_is(t, |c: char| stop(c), j as int);
        assert(t.take(j as int) =~= v@.subrange(0, j as int));
    }
    slice_text(v, 0, j)
}

fn is_stop(c: char) -> (r: bool)
    ensures
        r == stop(c),
{
    c == ',' || c == '.' || c == ';' || c == ':' || c == '!' || c == '?'
}

/// The text from `from` on without the punctuation and spaces at its front.
fn trim_after(v: &Vec<char>, from: usize) -> (r: String)
    requires
        from <= v@.len(),
    ensures
        r@ == after_break(v@.skip(from as int)),
{
    let ghost s = v@.skip(from as int);
    let mut i: usize = from;
    while i < v.len() && (is_stop(v[i]) || v[i] == ' ')
        invariant
            from <= i <= v@.len(),
            s == v@.skip(from as int),
            forall|k: int| 0 <= k < i - from ==> stop(#[trigger] s[k]) || s[k] == ' ',
        decreases v@.len() - i,
    {
        assert(s[i - from] == v@[i as int]);
        i = i + 1;
    }
    proof {
        if i < v@.len() {
            assert(s[i - from] == v@[i as int]);
        }
        crate::text::lemma_drop_front_is(s, |c: char| stop(c) || c == ' ', i - from);
        assert(s.skip(i - from) =~= v@.subrange(i as int, v@.len() as int));
    }
    slice_text(v, i, v.len())
}

/// `text` with every spoken `phrase` that stands alone made a break.
fn break_at(text: &str, phrase: &str, mark: &str) -> (r: String)
    requires
        phrase@.len() > 0,
    ensures
        r@ == with_breaks(text@, phrase@, mark@),
{
    let p = to_chars(phrase);
    let mut out = crate::text::nothing();
    let mut rest = text.to_string();
    let ghost whole = with_breaks(text@, phrase@, mark@);
    assert(out@ + whole =~= whole);
    loop
        invariant
            phrase@.len() > 0,
            p@ == phrase@,
            whole == with_breaks(text@, phrase@, mark@),
            whole == out@ + with_breaks(rest@, phrase@, mark@),
        decreases rest@.len(),
    {
        let v = to_chars(rest.as_str());
        let l = low(&v);
        let total: usize = v.len();
        proof {
            lemma_cut_shortens(rest@, phrase@, mark@);
        }
        let ghost before = out@;
        match find_in(&l, &p) {
            None => {
                out.append(rest.as_str());
                return out;
            },
            Some(k) => {
                assert(k + p@.len() <= total);
                let e: usize = k + p.len();
                let free = (k == 0 || !is_letter(v[k - 1])) && (e == total || !is_letter(v[e]));
                let ghost cut = cut_at(rest@, k as int, e as int, mark@);
                if free {
                    let piece = trim_before(&v, k);
                    out.append(piece.as_str());
                    out.append(mark);
                    rest = trim_after(&v, e);
                } else {
                    let piece = slice_text(&v, 0, e);
                    assert(piece@ =~= v@.take(e as int));
                    out.append(piece.as_str());
                    rest = slice_text(&v, e, total);
                    assert(rest@ =~= v@.skip(e as int));
                }
                assert(out@ =~= before + cut.0);
                assert(rest@ == cut.1);
                assert(before + (cut.0 + with_breaks(cut.1, phrase@, mark@)) =~= out@
                    + with_breaks(rest@, phrase@, mark@));
            },
        }
    }
}

/// What is typed of a text that skips the model.
pub open spec fn broken(text: Seq<char>) -> Seq<char> {
    with_breaks(with_breaks(text, "new paragraph"@, "\n\n"@), "new line"@, "\n"@)
}

proof fn lemma_phrases()
    ensures
        "new paragraph"@.len() > 0,
        "new line"@.len() > 0,
{
    reveal_strlit("new paragraph");
    reveal_strlit("new line");
}

/// "new line" and "new paragraph" as breaks. Surrounding punctuation that the
/// recogniser added is dropped with them.
pub fn spoken_breaks(text: &str) -> (r: String)
    ensures
        r@ == broken(text@),
{
    proof {
        lemma_phrases();
    }
    let paragraphs = break_at(text, "new paragraph", "\n\n");
    break_at(paragraphs.as_str(), "new line", "\n")
}

/// A text in which neither phrase is spoken is typed as it is.
pub proof fn law_plain_text_is_kept(text: Seq<char>)
    requires
        spoken_at(text, "new paragraph"@) is None,
        spoken_at(text, "new line"@) is None,
    ensures
        broken(text) == text,
{
    lemma_phrases();
}

/// Whether `phrase` is said at `i` in a text, in any case.
pub open spec fn said_at(s: Seq<char>, phrase: Seq<char>, i: int) -> bool {
    &&& 0 <= i
    &&& i + phrase.len() <= s.len()
    &&& forall|j: int|
        0 <= j < phrase.len() ==> crate::text::ascii_lower(s[i + j]) == #[trigger] phrase[j]
}

/// Whether `phrase` is said at `i` in a text as words of their own: with no
/// letter or digit on either side.
pub open spec fn stands_at(s: Seq<char>, phrase: Seq<char>, i: int) -> bool {
    &&& said_at(s, phrase, i)
    &&& free_left(s, i)
    &&& free_right(s, i + phrase.len())
}

/// No letter or digit right before `i`.
pub open spec fn free_left(s: Seq<char>, i: int) -> bool {
    i == 0 || !crate::text::letter(s[i - 1])
}

/// No letter or digit at `i`.
pub open spec fn free_right(s: Seq<char>, i: int) -> bool {
    i == s.len() || !crate::text::letter(s[i])
}

/// Whether `phrase` is nowhere said twice without so much as a space between.
pub open spec fn never_run_together(s: Seq<char>, phrase: Seq<char>) -> bool {
    forall|i: int| #[trigger] said_at(s, phrase, i) ==> !said_at(s, phrase, i + phrase.len())
}

/// Whether no whitespace of a text counts as a letter or digit.
pub open spec fn spaces_part_words(s: Seq<char>) -> bool {
    forall|i: int|
        0 <= i < s.len() && crate::text::white_space(#[trigger] s[i]) ==> !crate::text::letter(s[i])
}

/// From place `from` on, how often `phrase` stands in a text.
pub open spec fn standing_from(s: Seq<char>, phrase: Seq<char>, from: int) -> nat
    decreases s.len() - from,
{
    if from >= s.len() {
        0
    } else {
        (if stands_at(s, phrase, from) {
            1nat
        } else {
            0
        }) + standing_from(s, phrase, from + 1)
    }
}

/// How many line breaks a text holds.
pub open spec fn line_breaks(s: Seq<char>) -> nat {
    s.to_multiset().count('\n')
}

/// A small letter.
spec fn small(c: char) -> bool {
    97 <= c as u32 <= 122
}

/// What the proofs need of a phrase and the break it becomes: words of small
/// letters that overlap themselves only inside a word, and line breaks.
spec fn fit(phrase: Seq<char>, mark: Seq<char>) -> bool {
    &&& phrase.len() > 0
    &&& small(phrase[0])
    &&& small(phrase.last())
    &&& forall|i: int| 0 <= i < phrase.len() ==> small(#[trigger] phrase[i]) || phrase[i] == ' '
    &&& forall|d: int|
        0 < d < phrase.len() && #[trigger] overlaps(phrase, d) ==> small(phrase[d - 1])
    &&& mark.len() > 0
    &&& forall|i: int| 0 <= i < mark.len() ==> #[trigger] mark[i] == '\n'
}

/// Whether a phrase that starts `d` later has the same characters where both
/// stand.
spec fn overlaps(phrase: Seq<char>, d: int) -> bool {
    forall|j: int| 0 <= j && d + j < phrase.len() ==> #[trigger] phrase[d + j] == phrase[j]
}

proof fn lemma_fit()
    ensures
        fit("new line"@, "\n"@),
        fit("new paragraph"@, "\n\n"@),
{
    reveal_strlit("new line");
    reveal_strlit("new paragraph");
    reveal_strlit("\n");
    reveal_strlit("\n\n");
    let a = "new line"@;
    let b = "new paragraph"@;
    assert forall|d: int| 0 < d < a.len() && #[trigger] overlaps(a, d) implies small(a[d - 1]) by {
        assert(a[d + 0] == a[0]);
        assert(a[1] == 'e' && a[2] == 'w' && a[3] == ' ' && a[4] == 'l' && a[5] == 'i' && a[7]
            == 'e');
        assert(d == 6);
    }
    assert forall|d: int| 0 < d < b.len() && #[trigger] overlaps(b, d) implies small(b[d - 1]) by {
        assert(b[d + 0] == b[0]);
        assert(b[1] == 'e' && b[2] == 'w' && b[3] == ' ' && b[4] == 'p' && b[5] == 'a' && b[6]
            == 'r' && b[7] == 'a' && b[8] == 'g' && b[9] == 'r' && b[10] == 'a' && b[11] == 'p'
            && b[12] == 'h');
    }
}

/// A phrase is found where it is said first.
proof fn lemma_spoken_at(s: Seq<char>, phrase: Seq<char>)
    ensures
        match spoken_at(s, phrase) {
            Some(k) => said_at(s, phrase, k) && forall|i: int|
                i < k ==> !#[trigger] said_at(s, phrase, i),
            None => forall|i: int| !#[trigger] said_at(s, phrase, i),
        },
{
    let l = crate::text::ascii_lowered(s);
    let n = phrase.len() as int;
    crate::text::law_first_occurrence_is_found(l, phrase);
    assert forall|i: int| 0 <= i && i + n <= s.len() implies #[trigger] said_at(s, phrase, i) == (
    l.subrange(i, i + n) == phrase) by {
        let part = l.subrange(i, i + n);
        if said_at(s, phrase, i) {
            assert forall|j: int| 0 <= j < n implies part[j] == phrase[j] by {
                assert(crate::text::ascii_lower(s[i + j]) == phrase[j]);
            }
            assert(part =~= phrase);
        }
        if part == phrase {
            assert forall|j: int| 0 <= j < n implies crate::text::ascii_lower(s[i + j])
                == #[trigger] phrase[j] by {
                assert(part[j] == l[i + j]);
            }
        }
    }
}

/// What the first phrase of a text parts: what is kept in front of it, and from
/// where the rest goes on.
proof fn lemma_cut(rest: Seq<char>, phrase: Seq<char>, mark: Seq<char>, k: int) -> (r: (int, int))
    requires
        phrase.len() > 0,
        spoken_at(rest, phrase) == Some(k),
    ensures
        ({
            let e = k + phrase.len();
            let (b, n) = r;
            &&& said_at(rest, phrase, k)
            &&& forall|i: int| i < k ==> !#[trigger] said_at(rest, phrase, i)
            &&& alone(rest, k, e) == (free_left(rest, k) && free_right(rest, e))
            &&& alone(rest, k, e) ==> {
                &&& 0 <= b <= k
                &&& e <= n <= rest.len()
                &&& forall|i: int|
                    b <= i < k ==> crate::text::white_space(#[trigger] rest[i]) || stop(rest[i])
                &&& forall|i: int| e <= i < n ==> stop(#[trigger] rest[i]) || rest[i] == ' '
                &&& with_breaks(rest, phrase, mark) == rest.take(b) + mark + with_breaks(
                    rest.skip(n),
                    phrase,
                    mark,
                )
            }
            &&& !alone(rest, k, e) ==> n == e && with_breaks(rest, phrase, mark) == rest.take(e)
                + with_breaks(rest.skip(e), phrase, mark)
        }),
{
    lemma_spoken_at(rest, phrase);
    let e = k + phrase.len();
    if alone(rest, k, e) {
        let head = rest.take(k);
        let ws = |c: char| crate::text::white_space(c);
        let st = |c: char| stop(c);
        crate::text::lemma_drop_back(head, ws);
        let inner = crate::text::drop_back(head, ws);
        crate::text::lemma_drop_back(inner, st);
        let kept = before_break(head);
        let b = kept.len() as int;
        assert(kept =~= rest.take(b));
        assert forall|i: int| b <= i < k implies crate::text::white_space(#[trigger] rest[i])
            || stop(rest[i]) by {
            assert(rest[i] == head[i]);
            if i < inner.len() {
                assert(st(inner[i]));
                assert(inner[i] == head[i]);
            } else {
                assert(ws(head[i]));
            }
        }
        let tail = rest.skip(e);
        let sp = |c: char| stop(c) || c == ' ';
        crate::text::lemma_drop_front(tail, sp);
        let m = tail.len() - after_break(tail).len();
        let n = e + m;
        assert(after_break(tail) =~= rest.skip(n));
        assert forall|i: int| e <= i < n implies stop(#[trigger] rest[i]) || rest[i] == ' ' by {
            assert(rest[i] == tail[i - e]);
            assert(sp(tail[i - e]));
        }
        (b, n)
    } else {
        (e, e)
    }
}

proof fn lemma_said_in_rest(s: Seq<char>, phrase: Seq<char>, n: int, i: int)
    requires
        0 <= n <= s.len(),
        i >= 0,
    ensures
        said_at(s.skip(n), phrase, i) == said_at(s, phrase, n + i),
{
    let t = s.skip(n);
    if said_at(s, phrase, n + i) {
        assert forall|j: int| 0 <= j < phrase.len() implies crate::text::ascii_lower(t[i + j])
            == #[trigger] phrase[j] by {
            assert(t[i + j] == s[n + i + j]);
        }
    }
    if said_at(t, phrase, i) {
        assert forall|j: int| 0 <= j < phrase.len() implies crate::text::ascii_lower(s[n + i + j])
            == #[trigger] phrase[j] by {
            assert(t[i + j] == s[n + i + j]);
        }
    }
}

proof fn lemma_run_in_rest(s: Seq<char>, phrase: Seq<char>, n: int)
    requires
        0 <= n <= s.len(),
        never_run_together(s, phrase),
    ensures
        never_run_together(s.skip(n), phrase),
{
    let t = s.skip(n);
    assert forall|i: int| #[trigger] said_at(t, phrase, i) implies !said_at(
        t,
        phrase,
        i + phrase.len(),
    ) by {
        lemma_said_in_rest(s, phrase, n, i);
        lemma_said_in_rest(s, phrase, n, i + phrase.len());
    }
}

/// A text that does not start with the phrase starts with the letter it started
/// with.
proof fn lemma_first_letter_stays(rest: Seq<char>, phrase: Seq<char>, mark: Seq<char>)
    requires
        fit(phrase, mark),
        spaces_part_words(rest),
        rest.len() > 0,
        crate::text::letter(rest[0]),
        !said_at(rest, phrase, 0),
    ensures
        with_breaks(rest, phrase, mark).len() > 0,
        with_breaks(rest, phrase, mark)[0] == rest[0],
{
    if let Some(k) = spoken_at(rest, phrase) {
        let (b, n) = lemma_cut(rest, phrase, mark, k);
        if alone(rest, k, k + phrase.len()) {
            if b == 0 {
                assert(crate::text::white_space(rest[0]) || stop(rest[0]));
            }
        }
    }
}

/// No phrase is left standing where breaks were made of them.
proof fn lemma_none_left(rest: Seq<char>, phrase: Seq<char>, mark: Seq<char>, i: int)
    requires
        fit(phrase, mark),
        spaces_part_words(rest),
        never_run_together(rest, phrase),
    ensures
        !stands_at(with_breaks(rest, phrase, mark), phrase, i),
    decreases rest.len(),
{
    let out = with_breaks(rest, phrase, mark);
    let len = phrase.len() as int;
    lemma_spoken_at(rest, phrase);
    if stands_at(out, phrase, i) {
        if let Some(k) = spoken_at(rest, phrase) {
            let e = k + len;
            let (b, n) = lemma_cut(rest, phrase, mark, k);
            let next = rest.skip(n);
            let tail = with_breaks(next, phrase, mark);
            lemma_run_in_rest(rest, phrase, n);
            assert(spaces_part_words(next)) by {
                assert forall|j: int|
                    0 <= j < next.len() && crate::text::white_space(#[trigger] next[j]) implies
                    !crate::text::letter(next[j]) by {
                    assert(next[j] == rest[n + j]);
                }
            }
            if alone(rest, k, e) {
                let m = mark.len() as int;
                if i + len <= b {
                    assert forall|j: int| 0 <= j < len implies crate::text::ascii_lower(rest[i + j])
                        == #[trigger] phrase[j] by {
                        assert(out[i + j] == rest[i + j]);
                    }
                    assert(said_at(rest, phrase, i));
                } else if i < b + m {
                    let at = if i > b {
                        i
                    } else {
                        b
                    };
                    assert(out[at] == mark[at - b]);
                    let j = at - i;
                    assert(crate::text::ascii_lower(out[i + j]) == phrase[j]);
                    assert(phrase[j] == '\n');
                } else {
                    let d = i - b - m;
                    lemma_stands_in_tail(rest.take(b) + mark, tail, phrase, d);
                    lemma_none_left(next, phrase, mark, d);
                }
            } else {
                let head = rest.take(e);
                if i < k {
                    assert forall|j: int| 0 <= j < len implies crate::text::ascii_lower(rest[i + j])
                        == #[trigger] phrase[j] by {
                        assert(out[i + j] == rest[i + j]);
                    }
                    assert(said_at(rest, phrase, i));
                } else if i == k {
                    if k > 0 {
                        assert(out[k - 1] == rest[k - 1]);
                    }
                    assert(e < rest.len() && crate::text::letter(rest[e]));
                    assert(next[0] == rest[e]);
                    lemma_said_in_rest(rest, phrase, e, 0);
                    assert(!said_at(rest, phrase, k + len));
                    lemma_first_letter_stays(next, phrase, mark);
                    assert(out[e] == tail[0]);
                } else if i < e {
                    let d = i - k;
                    assert forall|j: int| 0 <= j && d + j < len implies #[trigger] phrase[d + j]
                        == phrase[j] by {
                        assert(out[i + j] == rest[k + (d + j)]);
                        assert(crate::text::ascii_lower(out[i + j]) == phrase[j]);
                        assert(crate::text::ascii_lower(rest[k + (d + j)]) == phrase[d + j]);
                    }
                    assert(overlaps(phrase, d));
                    assert(small(phrase[d - 1]));
                    assert(crate::text::ascii_lower(rest[k + (d - 1)]) == phrase[d - 1]);
                    assert(out[i - 1] == rest[i - 1]);
                } else {
                    lemma_stands_in_tail(head, tail, phrase, i - e);
                    lemma_none_left(next, phrase, mark, i - e);
                }
            }
        }
    }
}

proof fn lemma_stands_in_tail(head: Seq<char>, tail: Seq<char>, phrase: Seq<char>, i: int)
    requires
        i >= 0,
        stands_at(head + tail, phrase, head.len() + i),
    ensures
        stands_at(tail, phrase, i),
{
    let s = head + tail;
    let n = head.len();
    assert forall|j: int| 0 <= j < phrase.len() implies crate::text::ascii_lower(tail[i + j])
        == #[trigger] phrase[j] by {
        assert(s[n + i + j] == tail[i + j]);
    }
    if i > 0 {
        assert(s[n + i - 1] == tail[i - 1]);
    }
    if i + phrase.len() < tail.len() {
        assert(s[n + i + phrase.len()] == tail[i + phrase.len()]);
    }
}

/// What stands between two breaks of what is typed stood in the text, with as
/// much room on either side.
proof fn lemma_traced(
    rest: Seq<char>,
    phrase: Seq<char>,
    mark: Seq<char>,
    i: int,
    m: int,
) -> (j: int)
    requires
        fit(phrase, mark),
        spaces_part_words(rest),
        never_run_together(rest, phrase),
        0 <= i,
        m > 0,
        i + m <= with_breaks(rest, phrase, mark).len(),
        forall|x: int| i <= x < i + m ==> #[trigger] with_breaks(rest, phrase, mark)[x] != '\n',
        crate::text::letter(with_breaks(rest, phrase, mark)[i + m - 1]),
    ensures
        ({
            let out = with_breaks(rest, phrase, mark);
            &&& 0 <= j
            &&& j + m <= rest.len()
            &&& i == 0 ==> j == 0
            &&& i > 0 ==> j > 0
            &&& forall|x: int| 0 <= x < m ==> out[i + x] == #[trigger] rest[j + x]
            &&& crate::text::letter(out[i]) && free_left(out, i) ==> free_left(rest, j)
            &&& free_right(out, i + m) ==> free_right(rest, j + m)
        }),
    decreases rest.len(),
{
    let out = with_breaks(rest, phrase, mark);
    let len = phrase.len() as int;
    lemma_spoken_at(rest, phrase);
    if let Some(k) = spoken_at(rest, phrase) {
        let e = k + len;
        let (b, n) = lemma_cut(rest, phrase, mark, k);
        let next = rest.skip(n);
        let tail = with_breaks(next, phrase, mark);
        lemma_run_in_rest(rest, phrase, n);
        assert(spaces_part_words(next)) by {
            assert forall|j: int|
                0 <= j < next.len() && crate::text::white_space(#[trigger] next[j]) implies
                !crate::text::letter(next[j]) by {
                assert(next[j] == rest[n + j]);
            }
        }
        assert(crate::text::ascii_lower(rest[k + 0]) == phrase[0]);
        assert(crate::text::ascii_lower(rest[k + (len - 1)]) == phrase[len - 1]);
        assert(crate::text::letter(rest[k]) && crate::text::letter(rest[e - 1]));
        if alone(rest, k, e) {
            let w = mark.len() as int;
            if i + m > b && i < b + w {
                let at = if i > b {
                    i
                } else {
                    b
                };
                assert(out[at] == mark[at - b]);
                assert(false);
            }
            if i + m <= b {
                assert forall|x: int| 0 <= x < m implies out[i + x] == #[trigger] rest[i + x] by {}
                if i > 0 {
                    assert(out[i - 1] == rest[i - 1]);
                }
                assert(out[i + m - 1] == rest[i + m - 1]);
                if i + m < b {
                    assert(out[i + m] == rest[i + m]);
                } else if b < k {
                    assert(crate::text::white_space(rest[b]) || stop(rest[b]));
                }
                i
            } else {
                let d = i - b - w;
                let head = rest.take(b) + mark;
                assert(out == head + tail);
                assert forall|x: int| d <= x < d + m implies #[trigger] tail[x] != '\n' by {
                    assert(out[b + w + x] == tail[x]);
                }
                assert(out[i + m - 1] == tail[d + m - 1]);
                let j = lemma_traced(next, phrase, mark, d, m);
                assert forall|x: int| 0 <= x < m implies out[i + x] == #[trigger] rest[n + j + x] by {
                    assert(out[i + x] == tail[d + x]);
                    assert(next[j + x] == rest[n + (j + x)]);
                }
                assert(out[i] == tail[d]);
                if d == 0 {
                    assert(next[j + 0] == rest[n]);
                    assert(tail[d + 0] == next[j + 0]);
                    if n > e {
                        assert(stop(rest[n - 1]) || rest[n - 1] == ' ');
                    }
                } else {
                    assert(out[i - 1] == tail[d - 1]);
                    assert(next[j - 1] == rest[n + j - 1]);
                }
                if d + m < tail.len() {
                    assert(out[i + m] == tail[d + m]);
                }
                if j + m < next.len() {
                    assert(next[j + m] == rest[n + j + m]);
                }
                n + j
            }
        } else {
            let head = rest.take(e);
            assert(out == head + tail);
            if i + m <= e {
                assert forall|x: int| 0 <= x < m implies out[i + x] == #[trigger] rest[i + x] by {}
                if i > 0 {
                    assert(out[i - 1] == rest[i - 1]);
                }
                if i + m < e {
                    assert(out[i + m] == rest[i + m]);
                } else if e < rest.len() && crate::text::letter(rest[e]) {
                    assert(next[0] == rest[e]);
                    lemma_said_in_rest(rest, phrase, e, 0);
                    assert(!said_at(rest, phrase, k + len));
                    lemma_first_letter_stays(next, phrase, mark);
                    assert(out[e] == tail[0]);
                }
                i
            } else {
                let d = if i < e {
                    0
                } else {
                    i - e
                };
                let t = i + m - e - d;
                assert forall|x: int| d <= x < d + t implies #[trigger] tail[x] != '\n' by {
                    assert(out[e + x] == tail[x]);
                }
                assert(out[i + m - 1] == tail[d + t - 1]);
                let j = lemma_traced(next, phrase, mark, d, t);
                if d + t < tail.len() {
                    assert(out[i + m] == tail[d + t]);
                }
                if j + t < next.len() {
                    assert(next[j + t] == rest[e + j + t]);
                }
                if i < e {
                    assert forall|x: int| 0 <= x < m implies out[i + x] == #[trigger] rest[i
                        + x] by {
                        if i + x >= e {
                            assert(out[i + x] == tail[i + x - e]);
                            assert(tail[0 + (i + x - e)] == next[0 + (i + x - e)]);
                            assert(next[i + x - e] == rest[i + x]);
                        }
                    }
                    if i > 0 {
                        assert(out[i - 1] == rest[i - 1]);
                    }
                    i
                } else {
                    assert forall|x: int| 0 <= x < m implies out[i + x] == #[trigger] rest[e + j
                        + x] by {
                        assert(out[i + x] == tail[d + x]);
                        assert(next[j + x] == rest[e + (j + x)]);
                    }
                    assert(out[i] == tail[d]);
                    if d == 0 {
                        assert(out[i - 1] == rest[e - 1]);
                    } else {
                        assert(out[i - 1] == tail[d - 1]);
                        assert(next[j - 1] == rest[e + j - 1]);
                    }
                    e + j
                }
            }
        }
    } else {
        i
    }
}

/// What stands in the text where breaks were made stood there before.
proof fn lemma_nothing_new_stands(
    rest: Seq<char>,
    phrase: Seq<char>,
    mark: Seq<char>,
    other: Seq<char>,
    i: int,
) -> (j: int)
    requires
        fit(phrase, mark),
        fit(other, mark),
        spaces_part_words(rest),
        never_run_together(rest, phrase),
        said_at(with_breaks(rest, phrase, mark), other, i),
    ensures
        said_at(rest, other, j),
        stands_at(with_breaks(rest, phrase, mark), other, i) ==> stands_at(rest, other, j),
{
    let out = with_breaks(rest, phrase, mark);
    let m = other.len() as int;
    assert forall|x: int| i <= x < i + m implies #[trigger] out[x] != '\n' by {
        assert(crate::text::ascii_lower(out[i + (x - i)]) == other[x - i]);
    }
    assert(crate::text::ascii_lower(out[i + (m - 1)]) == other[m - 1]);
    assert(crate::text::ascii_lower(out[i + 0]) == other[0]);
    let j = lemma_traced(rest, phrase, mark, i, m);
    assert forall|x: int| 0 <= x < m implies crate::text::ascii_lower(rest[j + x])
        == #[trigger] other[x] by {
        assert(out[i + x] == rest[j + x]);
    }
    j
}

/// A phrase run together with itself stays so: none comes about by breaking.
proof fn lemma_still_never_run_together(
    rest: Seq<char>,
    phrase: Seq<char>,
    mark: Seq<char>,
    other: Seq<char>,
)
    requires
        fit(phrase, mark),
        fit(other, mark),
        spaces_part_words(rest),
        never_run_together(rest, phrase),
        never_run_together(rest, other),
    ensures
        never_run_together(with_breaks(rest, phrase, mark), other),
        spaces_part_words(with_breaks(rest, phrase, mark)),
{
    let out = with_breaks(rest, phrase, mark);
    let len = other.len() as int;
    assert forall|i: int| #[trigger] said_at(out, other, i) implies !said_at(
        out,
        other,
        i + len,
    ) by {
        if said_at(out, other, i + len) {
            assert forall|x: int| i <= x < i + 2 * len implies #[trigger] out[x] != '\n' by {
                if x < i + len {
                    assert(crate::text::ascii_lower(out[i + (x - i)]) == other[x - i]);
                } else {
                    assert(crate::text::ascii_lower(out[i + len + (x - i - len)]) == other[x - i
                        - len]);
                }
            }
            assert(crate::text::ascii_lower(out[i + len + (len - 1)]) == other[len - 1]);
            let j = lemma_traced(rest, phrase, mark, i, 2 * len);
            assert forall|x: int| 0 <= x < len implies crate::text::ascii_lower(rest[j + x])
                == #[trigger] other[x] by {
                assert(out[i + x] == rest[j + x]);
            }
            assert(said_at(rest, other, j));
            assert forall|x: int| 0 <= x < len implies crate::text::ascii_lower(rest[j + len + x])
                == #[trigger] other[x] by {
                assert(out[i + (len + x)] == rest[j + (len + x)]);
                assert(crate::text::ascii_lower(out[i + len + x]) == other[x]);
            }
            assert(said_at(rest, other, j + len));
        }
    }
    lemma_typed_is_of_the_text(rest, phrase, mark);
}

/// Every character typed is one of the text or of a break.
proof fn lemma_typed_is_of_the_text(rest: Seq<char>, phrase: Seq<char>, mark: Seq<char>)
    requires
        fit(phrase, mark),
    ensures
        forall|i: int|
            0 <= i < with_breaks(rest, phrase, mark).len() ==> (#[trigger] with_breaks(
                rest,
                phrase,
                mark,
            )[i]) == '\n' || rest.contains(with_breaks(rest, phrase, mark)[i]),
        spaces_part_words(rest) ==> spaces_part_words(with_breaks(rest, phrase, mark)),
    decreases rest.len(),
{
    let out = with_breaks(rest, phrase, mark);
    if let Some(k) = spoken_at(rest, phrase) {
        let (b, n) = lemma_cut(rest, phrase, mark, k);
        let next = rest.skip(n);
        let tail = with_breaks(next, phrase, mark);
        lemma_typed_is_of_the_text(next, phrase, mark);
        let at = if alone(rest, k, k + phrase.len()) {
            b + mark.len()
        } else {
            n
        };
        assert forall|i: int| 0 <= i < out.len() implies (#[trigger] out[i]) == '\n'
            || rest.contains(out[i]) by {
            if i >= at {
                assert(out[i] == tail[i - at]);
                if tail[i - at] != '\n' {
                    let x = choose|x: int| 0 <= x < next.len() && next[x] == tail[i - at];
                    assert(rest[n + x] == out[i]);
                }
            } else if alone(rest, k, k + phrase.len()) && i >= b {
                assert(out[i] == mark[i - b]);
            } else {
                assert(out[i] == rest[i]);
            }
        }
    }
    if spaces_part_words(rest) {
        assert forall|i: int|
            0 <= i < out.len() && crate::text::white_space(#[trigger] out[i]) implies
            !crate::text::letter(out[i]) by {
            if out[i] != '\n' {
                let x = choose|x: int| 0 <= x < rest.len() && rest[x] == out[i];
                assert(crate::text::white_space(rest[x]));
            }
        }
    }
}

/// In what is typed without the model no spoken break is left standing: wherever
/// the words stood by themselves they became a break.
pub proof fn law_no_spoken_break_is_left(text: Seq<char>, i: int)
    ensures
        spaces_part_words(text) && never_run_together(text, "new line"@) && never_run_together(
            text,
            "new paragraph"@,
        ) ==> !stands_at(broken(text), "new line"@, i) && !stands_at(
            broken(text),
            "new paragraph"@,
            i,
        ),
{
    lemma_fit();
    let (line, para) = ("new line"@, "new paragraph"@);
    if spaces_part_words(text) && never_run_together(text, line) && never_run_together(text, para) {
        let first = with_breaks(text, para, "\n\n"@);
        assert(fit(line, "\n\n"@)) by {
            reveal_strlit("\n\n");
        }
        assert(fit(para, "\n"@)) by {
            reveal_strlit("\n");
        }
        lemma_still_never_run_together(text, para, "\n\n"@, line);
        lemma_none_left(first, line, "\n"@, i);
        if stands_at(broken(text), para, i) {
            let j = lemma_nothing_new_stands(first, line, "\n"@, para, i);
            lemma_none_left(text, para, "\n\n"@, j);
        }
    }
}

proof fn lemma_standing_in_rest(s: Seq<char>, phrase: Seq<char>, n: int, i: int)
    requires
        0 <= n <= s.len(),
        0 <= i,
        said_at(s, phrase, n) ==> (free_left(s, n) || i > 0),
    ensures
        standing_from(s.skip(n), phrase, i) == standing_from(s, phrase, n + i),
    decreases s.len() - n - i,
{
    if n + i < s.len() {
        let t = s.skip(n);
        lemma_said_in_rest(s, phrase, n, i);
        if i > 0 {
            assert(t[i - 1] == s[n + i - 1]);
        }
        if i + phrase.len() < t.len() {
            assert(t[i + phrase.len()] == s[n + i + phrase.len()]);
        }
        assert(stands_at(t, phrase, i) == stands_at(s, phrase, n + i));
        lemma_standing_in_rest(s, phrase, n, i + 1);
    }
}

proof fn lemma_none_standing_between(s: Seq<char>, phrase: Seq<char>, from: int, to: int)
    requires
        0 <= from <= to <= s.len(),
        forall|i: int| from <= i < to ==> !#[trigger] stands_at(s, phrase, i),
    ensures
        standing_from(s, phrase, from) == standing_from(s, phrase, to),
    decreases to - from,
{
    if from < to {
        assert(!stands_at(s, phrase, from));
        lemma_none_standing_between(s, phrase, from + 1, to);
    }
}

proof fn lemma_line_breaks_add(a: Seq<char>, b: Seq<char>)
    ensures
        line_breaks(a + b) == line_breaks(a) + line_breaks(b),
{
    vstd::seq_lib::lemma_multiset_commutative(a, b);
}

proof fn lemma_no_line_breaks(s: Seq<char>)
    requires
        !s.contains('\n'),
    ensures
        line_breaks(s) == 0,
{
    s.to_multiset_ensures();
}

proof fn lemma_only_line_breaks(s: Seq<char>)
    requires
        forall|i: int| 0 <= i < s.len() ==> #[trigger] s[i] == '\n',
    ensures
        line_breaks(s) == s.len(),
    decreases s.len(),
{
    if s.len() == 0 {
        lemma_no_line_breaks(s);
    } else {
        let t = s.drop_last();
        lemma_only_line_breaks(t);
        assert(t.push('\n') =~= s);
        t.to_multiset_ensures();
    }
}

/// As many breaks are made as phrases stand in the text.
proof fn lemma_breaks_made(rest: Seq<char>, phrase: Seq<char>, mark: Seq<char>)
    requires
        fit(phrase, mark),
        never_run_together(rest, phrase),
        !rest.contains('\n'),
    ensures
        line_breaks(with_breaks(rest, phrase, mark)) == mark.len() * standing_from(rest, phrase, 0),
    decreases rest.len(),
{
    let out = with_breaks(rest, phrase, mark);
    let len = phrase.len() as int;
    lemma_spoken_at(rest, phrase);
    match spoken_at(rest, phrase) {
        None => {
            lemma_none_standing_between(rest, phrase, 0, rest.len() as int);
            lemma_no_line_breaks(rest);
            assert(mark.len() * 0 == 0);
        },
        Some(k) => {
            let e = k + len;
            let (b, n) = lemma_cut(rest, phrase, mark, k);
            let next = rest.skip(n);
            let tail = with_breaks(next, phrase, mark);
            lemma_run_in_rest(rest, phrase, n);
            assert(!next.contains('\n')) by {
                assert forall|x: int| 0 <= x < next.len() implies next[x] != '\n' by {
                    assert(next[x] == rest[n + x]);
                }
            }
            lemma_breaks_made(next, phrase, mark);
            assert(crate::text::ascii_lower(rest[k + (len - 1)]) == phrase[len - 1]);
            assert forall|i: int| 0 <= i < n && i != k implies !#[trigger] stands_at(
                rest,
                phrase,
                i,
            ) by {
                if said_at(rest, phrase, i) {
                    assert(crate::text::ascii_lower(rest[i + 0]) == phrase[0]);
                    if k < i < e {
                        let d = i - k;
                        assert forall|j: int| 0 <= j && d + j < len implies #[trigger] phrase[d + j]
                            == phrase[j] by {
                            assert(crate::text::ascii_lower(rest[i + j]) == phrase[j]);
                            assert(crate::text::ascii_lower(rest[k + (d + j)]) == phrase[d + j]);
                        }
                        assert(overlaps(phrase, d));
                        assert(crate::text::ascii_lower(rest[k + (d - 1)]) == phrase[d - 1]);
                    } else if i >= e {
                        assert(stop(rest[i]) || rest[i] == ' ');
                    }
                }
            }
            assert(said_at(rest, phrase, n) ==> free_left(rest, n)) by {
                if said_at(rest, phrase, n) {
                    assert(crate::text::ascii_lower(rest[n + 0]) == phrase[0]);
                    if n > e {
                        assert(stop(rest[n - 1]) || rest[n - 1] == ' ');
                    } else {
                        assert(said_at(rest, phrase, k + len));
                    }
                }
            }
            lemma_standing_in_rest(rest, phrase, n, 0);
            lemma_none_standing_between(rest, phrase, 0, k);
            lemma_none_standing_between(rest, phrase, k + 1, n);
            let t = standing_from(next, phrase, 0);
            if alone(rest, k, e) {
                let kept = rest.take(b);
                assert(!kept.contains('\n')) by {
                    assert forall|x: int| 0 <= x < kept.len() implies kept[x] != '\n' by {
                        assert(kept[x] == rest[x]);
                    }
                }
                lemma_no_line_breaks(kept);
                lemma_only_line_breaks(mark);
                lemma_line_breaks_add(kept, mark);
                lemma_line_breaks_add(kept + mark, tail);
                assert(standing_from(rest, phrase, 0) == 1 + t);
                assert(mark.len() * (1 + t) == mark.len() + mark.len() * t) by (nonlinear_arith);
            } else {
                let kept = rest.take(e);
                assert(!kept.contains('\n')) by {
                    assert forall|x: int| 0 <= x < kept.len() implies kept[x] != '\n' by {
                        assert(kept[x] == rest[x]);
                    }
                }
                lemma_no_line_breaks(kept);
                lemma_line_breaks_add(kept, tail);
                assert(standing_from(rest, phrase, 0) == t);
            }
        },
    }
}

/// In a transcript of one line, where only one of the phrases is said, each time
/// it stands by itself makes its break and nothing else does: one line break for
/// "new line", two for "new paragraph".
pub proof fn law_each_spoken_break_is_made_once(text: Seq<char>)
    ensures
        !text.contains('\n') && never_run_together(text, "new line"@) && (forall|i: int|
            !#[trigger] said_at(text, "new paragraph"@, i)) ==> line_breaks(broken(text))
            == standing_from(text, "new line"@, 0),
        !text.contains('\n') && spaces_part_words(text) && never_run_together(
            text,
            "new paragraph"@,
        ) && (forall|i: int| !#[trigger] said_at(text, "new line"@, i)) ==> line_breaks(
            broken(text),
        ) == 2 * standing_from(text, "new paragraph"@, 0),
{
    lemma_fit();
    reveal_strlit("\n");
    reveal_strlit("\n\n");
    let (line, para) = ("new line"@, "new paragraph"@);
    lemma_spoken_at(text, para);
    if !text.contains('\n') && never_run_together(text, line) && (forall|i: int|
        !#[trigger] said_at(text, para, i)) {
        lemma_breaks_made(text, line, "\n"@);
    }
    if !text.contains('\n') && spaces_part_words(text) && never_run_together(text, para) && (forall|
        i: int,
    | !#[trigger] said_at(text, line, i)) {
        lemma_breaks_made(text, para, "\n\n"@);
        let first = with_breaks(text, para, "\n\n"@);
        assert forall|i: int| !#[trigger] said_at(first, line, i) by {
            if said_at(first, line, i) {
                let j = lemma_nothing_new_stands(text, para, "\n\n"@, line, i);
            }
        }
        lemma_spoken_at(first, line);
    }
}

/// A break parts the text: what comes before it is typed up to its whitespace
/// and punctuation, what comes after goes on past its own and is broken in turn.
pub proof fn law_a_break_parts_the_text(
    before: Seq<char>,
    spoken: Seq<char>,
    after: Seq<char>,
    phrase: Seq<char>,
    mark: Seq<char>,
)
    ensures
        ({
            let text = before + spoken + after;
            let rest = with_breaks(text, phrase, mark);
            phrase.len() > 0 && spoken.len() == phrase.len() && stands_at(
                text,
                phrase,
                before.len() as int,
            ) && (forall|i: int| i < before.len() ==> !#[trigger] said_at(text, phrase, i))
                ==> rest == before_break(before) + mark + with_breaks(
                after_break(after),
                phrase,
                mark,
            )
        }),
{
    let text = before + spoken + after;
    let k = before.len() as int;
    let e = k + phrase.len();
    if phrase.len() > 0 && spoken.len() == phrase.len() && stands_at(text, phrase, k) && (forall|
        i: int,
    | i < before.len() ==> !#[trigger] said_at(text, phrase, i)) {
        lemma_spoken_at(text, phrase);
        assert(spoken_at(text, phrase) == Some(k));
        assert(text.take(k) =~= before);
        assert(text.skip(e) =~= after);
    }
}

/// What is typed in front of a break is the front of what was said there: only
/// whitespace and punctuation at its end is left out, and no punctuation stays
/// there.
pub proof fn law_only_the_end_is_trimmed(s: Seq<char>)
    ensures
        before_break(s).len() <= s.len(),
        before_break(s) == s.take(before_break(s).len() as int),
        forall|i: int|
            before_break(s).len() <= i < s.len() ==> crate::text::white_space(#[trigger] s[i])
                || s[i] == ',' || s[i] == '.' || s[i] == ';' || s[i] == ':' || s[i] == '!' || s[i]
                == '?',
        before_break(s).len() > 0 ==> ({
            let c = before_break(s).last();
            c != ',' && c != '.' && c != ';' && c != ':' && c != '!' && c != '?'
        }),
        s.len() > 0 && !crate::text::white_space(s.last()) && !stop(s.last()) ==> before_break(s)
            == s,
{
    let ws = |c: char| crate::text::white_space(c);
    let st = |c: char| stop(c);
    crate::text::lemma_drop_back(s, ws);
    let inner = crate::text::drop_back(s, ws);
    crate::text::lemma_drop_back(inner, st);
    let b = before_break(s).len() as int;
    assert(before_break(s) =~= s.take(b));
    assert forall|i: int| b <= i < s.len() implies crate::text::white_space(#[trigger] s[i])
        || stop(s[i]) by {
        if i < inner.len() {
            assert(st(inner[i]));
            assert(inner[i] == s[i]);
        } else {
            assert(ws(s[i]));
        }
    }
}

/// What is typed after a break is the end of what was said there: only spaces
/// and punctuation at its front are left out, and neither stays there.
pub proof fn law_only_the_front_is_trimmed(s: Seq<char>)
    ensures
        after_break(s).len() <= s.len(),
        after_break(s) == s.skip(s.len() - after_break(s).len()),
        forall|i: int|
            0 <= i < s.len() - after_break(s).len() ==> (#[trigger] s[i]) == ' ' || s[i] == ','
                || s[i] == '.' || s[i] == ';' || s[i] == ':' || s[i] == '!' || s[i] == '?',
        after_break(s).len() > 0 ==> ({
            let c = after_break(s)[0];
            c != ' ' && c != ',' && c != '.' && c != ';' && c != ':' && c != '!' && c != '?'
        }),
{
    let sp = |c: char| stop(c) || c == ' ';
    crate::text::lemma_drop_front(s, sp);
    assert forall|i: int| 0 <= i < s.len() - after_break(s).len() implies stop(#[trigger] s[i])
        || s[i] == ' ' by {
        assert(sp(s[i]));
    }
}

} // verus!
