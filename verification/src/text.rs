//! Text as sequences of characters: the few string operations the daemon's
//! rules are written in, each with the sequence it computes.
use vstd::prelude::*;

verus! {

/// The characters with the Unicode property `White_Space`.
pub open spec fn white_space(c: char) -> bool {
    ||| 0x9 <= c as u32 <= 0xd
    ||| c as u32 == 0x20
    ||| c as u32 == 0x85
    ||| c as u32 == 0xa0
    ||| c as u32 == 0x1680
    ||| 0x2000 <= c as u32 <= 0x200a
    ||| c as u32 == 0x2028
    ||| c as u32 == 0x2029
    ||| c as u32 == 0x202f
    ||| c as u32 == 0x205f
    ||| c as u32 == 0x3000
}

/// `char::is_whitespace`: true exactly for the characters with the Unicode
/// property `White_Space`.
pub assume_specification[ char::is_whitespace ](c: char) -> (b: bool)
    ensures
        b == white_space(c),
;

/// Whether `char::is_alphanumeric` holds of a character, by the Unicode
/// tables of the standard library.
pub uninterp spec fn alphanumeric(c: char) -> bool;

/// An ASCII letter or digit.
pub open spec fn ascii_alphanumeric(c: char) -> bool {
    48 <= c as u32 <= 57 || 65 <= c as u32 <= 90 || 97 <= c as u32 <= 122
}

/// `char::is_alphanumeric`: the name [`alphanumeric`], and among the ASCII
/// characters the letters and digits.
pub assume_specification[ char::is_alphanumeric ](c: char) -> (b: bool)
    ensures
        b == alphanumeric(c),
        (c as u32) < 128 ==> b == ascii_alphanumeric(c),
;

/// What `str::to_lowercase` makes of a text.
pub uninterp spec fn lowercase(s: Seq<char>) -> Seq<char>;

/// An ASCII character in lower case; any other character is left alone.
pub open spec fn ascii_lower(c: char) -> char {
    if 65 <= c as u32 <= 90 {
        ((c as u32) + 32) as char
    } else {
        c
    }
}

/// A text with each character in ASCII lower case.
pub open spec fn ascii_lowered(s: Seq<char>) -> Seq<char> {
    s.map_values(|c: char| ascii_lower(c))
}

/// All characters below 128.
pub open spec fn all_ascii(s: Seq<char>) -> bool {
    forall|i: int| 0 <= i < s.len() ==> (#[trigger] s[i] as u32) < 128
}

/// `str::to_lowercase`: the name [`lowercase`]; a text of ASCII characters
/// alone is lowered letter by letter.
pub assume_specification[ str::to_lowercase ](s: &str) -> (r: String)
    ensures
        r@ == lowercase(s@),
        all_ascii(s@) ==> r@ == ascii_lowered(s@),
;

/// `str` equality: the same characters in the same order.
pub assume_specification[ <str as PartialEq>::eq ](a: &str, b: &str) -> (r: bool)
    ensures
        r == (a@ == b@),
;

/// `String::push`: one more character at the end.
pub assume_specification[ String::push ](s: &mut String, c: char)
    ensures
        final(s)@ == old(s)@.push(c),
;

/// A text in lower case.
pub open spec fn lowered(s: Seq<char>) -> Seq<char> {
    if all_ascii(s) {
        ascii_lowered(s)
    } else {
        lowercase(s)
    }
}

/// `s` in lower case.
pub fn lower(s: &str) -> (r: String)
    ensures
        r@ == lowered(s@),
{
    s.to_lowercase()
}

/// A letter or a digit.
pub open spec fn letter(c: char) -> bool {
    if (c as u32) < 128 {
        ascii_alphanumeric(c)
    } else {
        alphanumeric(c)
    }
}

/// Whether `c` is a letter or a digit.
pub fn is_letter(c: char) -> (r: bool)
    ensures
        r == letter(c),
{
    c.is_alphanumeric()
}

/// The text of no characters.
pub fn nothing() -> (r: String)
    ensures
        r@ == Seq::<char>::empty(),
{
    let r = String::new();
    assert(r@ =~= Seq::<char>::empty());
    r
}

/// What `{:?}` prints of a text: in double quotes, with escapes.
pub uninterp spec fn debug_text(s: Seq<char>) -> Seq<char>;

/// The `Debug` output of a `str`, through `format!`: the name
/// [`debug_text`].
#[verifier::external_body]
pub(crate) fn quoted(s: &str) -> (r: String)
    ensures
        r@ == debug_text(s@),
{
    format!("{s:?}")
}

/// The texts of a list of strings.
pub open spec fn texts(v: Seq<String>) -> Seq<Seq<char>> {
    v.map_values(|s: String| s@)
}

/// The texts of a list of string slices.
pub open spec fn strs(v: Seq<&str>) -> Seq<Seq<char>> {
    v.map_values(|s: &str| s@)
}

/// Whether two texts are the same.
pub fn same(a: &str, b: &str) -> (r: bool)
    ensures
        r == (a@ == b@),
{
    *a == *b
}

/// The characters of `s`.
pub fn to_chars(s: &str) -> (v: Vec<char>)
    ensures
        v@ == s@,
{
    let mut v: Vec<char> = Vec::new();
    for c in it: s.chars()
        invariant
            v@ == s@.take(it.index()),
            it.seq() == s@,
    {
        v.push(c);
        assert(s@.take(it.index() + 1) == s@.take(it.index()).push(s@[it.index()]));
    }
    assert(s@.take(s@.len() as int) == s@);
    v
}

/// The text of `v[from..to]`.
pub fn slice_text(v: &Vec<char>, from: usize, to: usize) -> (r: String)
    requires
        from <= to <= v@.len(),
    ensures
        r@ == v@.subrange(from as int, to as int),
{
    let mut out = String::new();
    let mut i: usize = from;
    while i < to
        invariant
            from <= i <= to <= v@.len(),
            out@ == v@.subrange(from as int, i as int),
        decreases to - i,
    {
        out.push(v[i]);
        assert(v@.subrange(from as int, i + 1) == v@.subrange(from as int, i as int).push(
            v@[i as int],
        ));
        i = i + 1;
    }
    out
}

/// Two texts, one after the other.
pub fn concat2(a: &str, b: &str) -> (r: String)
    ensures
        r@ == a@ + b@,
{
    let mut out = a.to_string();
    out.append(b);
    out
}

/// Three texts, one after the other.
pub fn concat3(a: &str, b: &str, c: &str) -> (r: String)
    ensures
        r@ == a@ + b@ + c@,
{
    let mut out = a.to_string();
    out.append(b);
    out.append(c);
    out
}

/// How many characters at the front of `s` are no whitespace.
pub open spec fn word_len(s: Seq<char>) -> nat
    decreases s.len(),
{
    if s.len() == 0 || white_space(s[0]) {
        0
    } else {
        1 + word_len(s.drop_first())
    }
}

/// The words of a text: its maximal runs without whitespace, in order.
pub open spec fn words(s: Seq<char>) -> Seq<Seq<char>>
    decreases s.len(),
    via words_decreases
{
    if s.len() == 0 {
        Seq::empty()
    } else if white_space(s[0]) {
        words(s.drop_first())
    } else {
        seq![s.take(word_len(s) as int)] + words(s.skip(word_len(s) as int))
    }
}

#[via_fn]
proof fn words_decreases(s: Seq<char>) {
    lemma_word_len(s);
}

/// The run that [`word_len`] measures holds no whitespace and ends at a
/// whitespace character or at the end of the text.
pub proof fn lemma_word_len(s: Seq<char>)
    ensures
        word_len(s) <= s.len(),
        s.len() > 0 && !white_space(s[0]) ==> word_len(s) > 0,
        forall|i: int| 0 <= i < word_len(s) ==> !white_space(#[trigger] s[i]),
        word_len(s) < s.len() ==> white_space(s[word_len(s) as int]),
    decreases s.len(),
{
    if s.len() > 0 && !white_space(s[0]) {
        let t = s.drop_first();
        lemma_word_len(t);
        assert forall|i: int| 0 <= i < word_len(s) implies !white_space(#[trigger] s[i]) by {
            if i > 0 {
                assert(s[i] == t[i - 1]);
            }
        }
        if word_len(s) < s.len() {
            assert(s[word_len(s) as int] == t[word_len(t) as int]);
        }
    }
}

/// Where the first run of non-whitespace of a known extent ends, its length
/// is that extent.
proof fn lemma_word_len_is(s: Seq<char>, n: int)
    requires
        0 <= n <= s.len(),
        forall|i: int| 0 <= i < n ==> !white_space(#[trigger] s[i]),
        n < s.len() ==> white_space(s[n]),
    ensures
        word_len(s) == n,
    decreases s.len(),
{
    lemma_word_len(s);
    if word_len(s) < n {
        assert(white_space(s[word_len(s) as int]));
    }
    if word_len(s) > n {
        assert(!white_space(s[n]));
    }
}

/// The words of `s`, split at whitespace.
pub fn split_words(s: &str) -> (out: Vec<String>)
    ensures
        texts(out@) == words(s@),
{
    let v = to_chars(s);
    let mut out: Vec<String> = Vec::new();
    let mut i: usize = 0;
    assert(v@.skip(0) == v@);
    assert(texts(out@) + words(v@) == words(v@));
    while i < v.len()
        invariant
            i <= v@.len(),
            texts(out@) + words(v@.skip(i as int)) == words(v@),
        decreases v@.len() - i,
    {
        let ghost rest = v@.skip(i as int);
        if v[i].is_whitespace() {
            assert(rest.drop_first() == v@.skip(i + 1));
            i = i + 1;
        } else {
            let mut j: usize = i + 1;
            while j < v.len() && !v[j].is_whitespace()
                invariant
                    i < j <= v@.len(),
                    forall|k: int| i <= k < j ==> !white_space(#[trigger] v@[k]),
                decreases v@.len() - j,
            {
                j = j + 1;
            }
            proof {
                assert forall|k: int| 0 <= k < j - i implies !white_space(#[trigger] rest[k]) by {
                    assert(rest[k] == v@[i + k]);
                }
                lemma_word_len_is(rest, j - i);
                assert(rest.take(j - i) == v@.subrange(i as int, j as int));
                assert(rest.skip(j - i) == v@.skip(j as int));
            }
            let ghost before = out@;
            let w = slice_text(&v, i, j);
            out.push(w);
            proof {
                assert(texts(out@) == texts(before).push(w@));
                assert(texts(out@) + words(v@.skip(j as int)) =~= texts(before) + (seq![w@]
                    + words(v@.skip(j as int))));
            }
            i = j;
        }
    }
    assert(v@.skip(i as int) == Seq::<char>::empty());
    assert(texts(out@) + words(v@.skip(i as int)) =~= texts(out@));
    out
}

/// At least one character, none of them whitespace.
pub open spec fn solid(w: Seq<char>) -> bool {
    w.len() > 0 && (forall|j: int| 0 <= j < w.len() ==> !white_space(#[trigger] w[j]))
}

/// What stands on the two sides of a whitespace character shares no word.
pub proof fn lemma_words_apart(a: Seq<char>, c: char, b: Seq<char>)
    requires
        white_space(c),
    ensures
        words(a + seq![c] + b) == words(a) + words(b),
    decreases a.len(),
{
    let s = a + seq![c] + b;
    if a.len() == 0 {
        assert(s.drop_first() =~= b);
        assert(words(a) + words(b) =~= words(b));
    } else if white_space(a[0]) {
        assert(s.drop_first() =~= a.drop_first() + seq![c] + b);
        lemma_words_apart(a.drop_first(), c, b);
    } else {
        lemma_word_len(a);
        let n = word_len(a) as int;
        assert forall|i: int| 0 <= i < n implies !white_space(#[trigger] s[i]) by {
            assert(s[i] == a[i]);
        }
        lemma_word_len_is(s, n);
        assert(s.take(n) =~= a.take(n));
        assert(s.skip(n) =~= a.skip(n) + seq![c] + b);
        lemma_words_apart(a.skip(n), c, b);
        assert(seq![a.take(n)] + (words(a.skip(n)) + words(b)) =~= (seq![a.take(n)] + words(
            a.skip(n),
        )) + words(b));
    }
}

/// A text without whitespace is one word.
pub proof fn lemma_one_word(w: Seq<char>)
    requires
        solid(w),
    ensures
        words(w) == seq![w],
{
    lemma_word_len_is(w, w.len() as int);
    assert(w.take(w.len() as int) =~= w);
    assert(w.skip(w.len() as int) =~= Seq::<char>::empty());
    assert(words(Seq::<char>::empty()) == Seq::<Seq<char>>::empty());
    assert(!white_space(w[0]));
    assert(words(w) =~= seq![w]);
}

/// `parts` with `sep` between neighbours.
pub open spec fn join(parts: Seq<Seq<char>>, sep: Seq<char>) -> Seq<char>
    decreases parts.len(),
{
    if parts.len() == 0 {
        Seq::empty()
    } else if parts.len() == 1 {
        parts[0]
    } else {
        join(parts.drop_last(), sep) + sep + parts.last()
    }
}

/// `parts[from..]` with `sep` between neighbours.
pub fn join_from(parts: &Vec<String>, from: usize, sep: &str) -> (r: String)
    requires
        from <= parts@.len(),
    ensures
        r@ == join(texts(parts@).skip(from as int), sep@),
{
    let ghost all = texts(parts@).skip(from as int);
    let mut out = String::new();
    let mut i: usize = from;
    while i < parts.len()
        invariant
            from <= i <= parts@.len(),
            all == texts(parts@).skip(from as int),
            out@ == join(all.take(i - from), sep@),
        decreases parts@.len() - i,
    {
        let ghost k = i - from;
        proof {
            assert(all.take(k + 1).drop_last() == all.take(k));
            assert(all.take(k + 1).last() == parts@[i as int]@);
        }
        if i > from {
            out.append(sep);
        } else {
            assert(out@ =~= Seq::<char>::empty());
            assert(out@ + parts@[i as int]@ =~= parts@[i as int]@);
        }
        out.append(parts[i].as_str());
        i = i + 1;
    }
    assert(all.take(i - from) == all);
    out
}

/// `s` without the characters at its front that satisfy `p`.
pub open spec fn drop_front(s: Seq<char>, p: spec_fn(char) -> bool) -> Seq<char>
    decreases s.len(),
{
    if s.len() > 0 && p(s[0]) {
        drop_front(s.drop_first(), p)
    } else {
        s
    }
}

/// `s` without the characters at its end that satisfy `p`.
pub open spec fn drop_back(s: Seq<char>, p: spec_fn(char) -> bool) -> Seq<char>
    decreases s.len(),
{
    if s.len() > 0 && p(s.last()) {
        drop_back(s.drop_last(), p)
    } else {
        s
    }
}

/// A text without the whitespace at both its ends.
pub open spec fn trimmed(s: Seq<char>) -> Seq<char> {
    drop_back(drop_front(s, |c: char| white_space(c)), |c: char| white_space(c))
}

/// Dropping from the front leaves a suffix.
pub proof fn lemma_drop_front(s: Seq<char>, p: spec_fn(char) -> bool)
    ensures
        drop_front(s, p).len() <= s.len(),
        drop_front(s, p) == s.skip(s.len() - drop_front(s, p).len()),
        drop_front(s, p).len() > 0 ==> !p(drop_front(s, p)[0]),
        forall|i: int| 0 <= i < s.len() - drop_front(s, p).len() ==> p(#[trigger] s[i]),
    decreases s.len(),
{
    if s.len() > 0 && p(s[0]) {
        let t = s.drop_first();
        lemma_drop_front(t, p);
        let k = t.len() - drop_front(t, p).len();
        assert(t.skip(k) =~= s.skip(k + 1));
        assert forall|i: int| 0 <= i < s.len() - drop_front(s, p).len() implies p(
            #[trigger] s[i],
        ) by {
            if i > 0 {
                assert(s[i] == t[i - 1]);
            }
        }
    } else {
        assert(s.skip(0) =~= s);
    }
}

/// Dropping from the back leaves a prefix.
pub proof fn lemma_drop_back(s: Seq<char>, p: spec_fn(char) -> bool)
    ensures
        drop_back(s, p).len() <= s.len(),
        drop_back(s, p) == s.take(drop_back(s, p).len() as int),
        drop_back(s, p).len() > 0 ==> !p(drop_back(s, p).last()),
        forall|i: int| drop_back(s, p).len() <= i < s.len() ==> p(#[trigger] s[i]),
    decreases s.len(),
{
    if s.len() > 0 && p(s.last()) {
        let t = s.drop_last();
        lemma_drop_back(t, p);
        assert(t.take(drop_back(t, p).len() as int) =~= s.take(drop_back(t, p).len() as int));
        assert forall|i: int| drop_back(s, p).len() <= i < s.len() implies p(#[trigger] s[i]) by {
            if i < t.len() {
                assert(s[i] == t[i]);
            }
        }
    } else {
        assert(s.take(s.len() as int) =~= s);
    }
}

/// A known suffix is what dropping from the front leaves.
pub proof fn lemma_drop_front_is(s: Seq<char>, p: spec_fn(char) -> bool, n: int)
    requires
        0 <= n <= s.len(),
        forall|i: int| 0 <= i < n ==> p(#[trigger] s[i]),
        n < s.len() ==> !p(s[n]),
    ensures
        drop_front(s, p) == s.skip(n),
    decreases s.len(),
{
    if n > 0 {
        let t = s.drop_first();
        assert forall|i: int| 0 <= i < n - 1 implies p(#[trigger] t[i]) by {
            assert(t[i] == s[i + 1]);
        }
        lemma_drop_front_is(t, p, n - 1);
        assert(t.skip(n - 1) =~= s.skip(n));
    } else {
        assert(s.skip(0) =~= s);
    }
}

/// A known prefix is what dropping from the back leaves.
pub proof fn lemma_drop_back_is(s: Seq<char>, p: spec_fn(char) -> bool, n: int)
    requires
        0 <= n <= s.len(),
        forall|i: int| n <= i < s.len() ==> p(#[trigger] s[i]),
        n > 0 ==> !p(s[n - 1]),
    ensures
        drop_back(s, p) == s.take(n),
    decreases s.len(),
{
    if n < s.len() {
        let t = s.drop_last();
        assert forall|i: int| n <= i < t.len() implies p(#[trigger] t[i]) by {
            assert(t[i] == s[i]);
        }
        lemma_drop_back_is(t, p, n);
        assert(t.take(n) =~= s.take(n));
    } else {
        assert(s.take(n) =~= s);
    }
}

/// `s` without the whitespace at both its ends.
pub fn trim(s: &str) -> (r: String)
    ensures
        r@ == trimmed(s@),
{
    let v = to_chars(s);
    let mut i: usize = 0;
    while i < v.len() && v[i].is_whitespace()
        invariant
            i <= v@.len(),
            forall|k: int| 0 <= k < i ==> white_space(#[trigger] v@[k]),
        decreases v@.len() - i,
    {
        i = i + 1;
    }
    let mut j: usize = v.len();
    while j > i && v[j - 1].is_whitespace()
        invariant
            i <= j <= v@.len(),
            forall|k: int| j <= k < v@.len() ==> white_space(#[trigger] v@[k]),
        decreases j,
    {
        j = j - 1;
    }
    proof {
        let p = |c: char| white_space(c);
        lemma_drop_front_is(v@, p, i as int);
        let rest = v@.skip(i as int);
        assert forall|k: int| j - i <= k < rest.len() implies p(#[trigger] rest[k]) by {
            assert(rest[k] == v@[i + k]);
        }
        if j > i {
            assert(rest[j - i - 1] == v@[j - 1]);
        }
        lemma_drop_back_is(rest, p, j - i);
        assert(rest.take(j - i) =~= v@.subrange(i as int, j as int));
    }
    slice_text(&v, i, j)
}

/// The decimal digit of `d`.
pub open spec fn digit(d: nat) -> char {
    ('0' as u32 + d) as char
}

/// `n` in decimal, without leading zeros.
pub open spec fn decimal(n: nat) -> Seq<char>
    decreases n,
{
    if n < 10 {
        seq![digit(n)]
    } else {
        decimal(n / 10).push(digit(n % 10))
    }
}

fn digit_char(d: u8) -> (c: char)
    requires
        d < 10,
    ensures
        c == digit(d as nat),
{
    (48u8 + d) as char
}

/// `n` in decimal.
pub fn decimal_text(n: u64) -> (r: String)
    ensures
        r@ == decimal(n as nat),
    decreases n,
{
    if n < 10 {
        let mut out = String::new();
        out.push(digit_char(n as u8));
        assert(out@ =~= seq![digit(n as nat)]);
        out
    } else {
        let mut out = decimal_text(n / 10);
        out.push(digit_char((n % 10) as u8));
        out
    }
}

/// A whole number in decimal, with its sign when it is negative.
pub open spec fn signed(n: int) -> Seq<char> {
    if n < 0 {
        "-"@ + decimal((-n) as nat)
    } else {
        decimal(n as nat)
    }
}

/// `n` in decimal, with its sign when it is negative.
pub fn signed_text(n: i32) -> (r: String)
    ensures
        r@ == signed(n as int),
{
    if n < 0 {
        let size = decimal_text((-(n as i64)) as u64);
        concat2("-", size.as_str())
    } else {
        decimal_text(n as u64)
    }
}

/// The hexadecimal digit `d`, in lower case.
pub open spec fn hex_digit(d: nat) -> char {
    if d < 10 {
        digit(d)
    } else {
        ((d + 87) as u32) as char
    }
}

/// A number in hexadecimal.
pub open spec fn hex(n: nat) -> Seq<char>
    decreases n,
{
    if n < 16 {
        seq![hex_digit(n)]
    } else {
        hex(n / 16).push(hex_digit(n % 16))
    }
}

/// `n` in hexadecimal.
pub fn hex_text(n: u64) -> (r: String)
    ensures
        r@ == hex(n as nat),
    decreases n,
{
    let d: u8 = (n % 16) as u8;
    let c: char = if d < 10 {
        (48 + d) as char
    } else {
        (87 + d) as char
    };
    let mut out = if n < 16 {
        String::new()
    } else {
        hex_text(n / 16)
    };
    let ghost before = out@;
    out.push(c);
    proof {
        if n < 16 {
            assert(before =~= Seq::<char>::empty());
            assert(out@ =~= seq![hex_digit(n as nat)]);
        }
    }
    out
}

/// A text without its full stops and commas.
pub open spec fn stops_removed(s: Seq<char>) -> Seq<char> {
    s.filter(|c: char| c != '.' && c != ',')
}

/// `s` without its full stops and commas.
pub fn without_stops(s: &str) -> (r: String)
    ensures
        r@ == stops_removed(s@),
{
    let v = to_chars(s);
    let ghost p = |c: char| c != '.' && c != ',';
    let mut out = String::new();
    let mut i: usize = 0;
    proof {
        reveal(Seq::filter);
        assert(out@ =~= v@.take(0).filter(p));
    }
    while i < v.len()
        invariant
            i <= v@.len(),
            p == (|c: char| c != '.' && c != ','),
            out@ == v@.take(i as int).filter(p),
        decreases v@.len() - i,
    {
        proof {
            reveal(Seq::filter);
            assert(v@.take(i + 1).drop_last() =~= v@.take(i as int));
            assert(v@.take(i + 1).last() == v@[i as int]);
        }
        if v[i] != '.' && v[i] != ',' {
            out.push(v[i]);
        }
        i = i + 1;
    }
    assert(v@.take(i as int) =~= v@);
    out
}

/// The upper case of an ASCII character.
pub open spec fn ascii_upper(c: char) -> char {
    if 97 <= c as u32 <= 122 {
        ((c as u32 - 32) as u32) as char
    } else {
        c
    }
}

/// What `char::to_uppercase` yields.
pub uninterp spec fn uppercase(c: char) -> Seq<char>;

/// `char::to_uppercase`, as a text: the name [`uppercase`]; an ASCII letter
/// becomes its capital, and every other ASCII character stays.
#[verifier::external_body]
fn upper(c: char) -> (r: String)
    ensures
        r@ == uppercase(c),
        (c as u32) < 128 ==> r@ == seq![ascii_upper(c)],
{
    c.to_uppercase().to_string()
}

/// A text with its first character in upper case.
pub open spec fn capitalized(s: Seq<char>) -> Seq<char> {
    if s.len() == 0 {
        s
    } else if (s[0] as u32) < 128 {
        seq![ascii_upper(s[0])] + s.skip(1)
    } else {
        uppercase(s[0]) + s.skip(1)
    }
}

/// `s` with its first character in upper case.
pub fn capitalize(s: &str) -> (r: String)
    ensures
        r@ == capitalized(s@),
{
    let v = to_chars(s);
    if v.len() == 0 {
        return s.to_string();
    }
    let mut out = upper(v[0]);
    let rest = slice_text(&v, 1, v.len());
    assert(rest@ =~= s@.skip(1));
    out.append(rest.as_str());
    out
}

/// The first `n` characters of a text, or all of a shorter one.
pub open spec fn clipped(s: Seq<char>, n: int) -> Seq<char> {
    if s.len() <= n {
        s
    } else {
        s.take(n)
    }
}

/// The first `n` characters of `s`, or all of a shorter text.
pub fn first_chars(s: &str, n: usize) -> (r: String)
    ensures
        r@ == clipped(s@, n as int),
{
    let v = to_chars(s);
    if v.len() <= n {
        s.to_string()
    } else {
        let r = slice_text(&v, 0, n);
        assert(v@.subrange(0, n as int) =~= s@.take(n as int));
        r
    }
}

/// Whether `needle` occurs in `hay`.
pub open spec fn occurs(hay: Seq<char>, needle: Seq<char>) -> bool {
    exists|i: int|
        0 <= i <= hay.len() - needle.len() && #[trigger] hay.subrange(i, i + needle.len())
            == needle
}

/// Whether `v[at..]` starts with `w`.
pub fn starts_at(v: &Vec<char>, at: usize, w: &Vec<char>) -> (r: bool)
    requires
        at <= v@.len(),
    ensures
        r == (at + w@.len() <= v@.len() && v@.subrange(at as int, at + w@.len()) == w@),
{
    if v.len() - at < w.len() {
        return false;
    }
    let mut i: usize = 0;
    while i < w.len()
        invariant
            i <= w@.len(),
            at + w@.len() <= v@.len() <= usize::MAX,
            forall|k: int| 0 <= k < i ==> v@[at + k] == #[trigger] w@[k],
        decreases w@.len() - i,
    {
        if v[at + i] != w[i] {
            assert(v@.subrange(at as int, at + w@.len())[i as int] != w@[i as int]);
            return false;
        }
        i = i + 1;
    }
    assert(v@.subrange(at as int, at + w@.len()) =~= w@);
    true
}

/// Whether `needle` occurs in `hay`.
pub fn contains(hay: &str, needle: &str) -> (r: bool)
    ensures
        r == occurs(hay@, needle@),
{
    let v = to_chars(hay);
    let w = to_chars(needle);
    if v.len() < w.len() {
        return false;
    }
    let last: usize = v.len() - w.len();
    let mut i: usize = 0;
    while i <= last
        invariant
            v@ == hay@,
            w@ == needle@,
            last == v@.len() - w@.len(),
            i <= last + 1,
            forall|k: int| 0 <= k < i ==> #[trigger] hay@.subrange(k, k + needle@.len()) != needle@,
        decreases last + 1 - i,
    {
        if starts_at(&v, i, &w) {
            assert(hay@.subrange(i as int, i + needle@.len()) == needle@);
            return true;
        }
        if i == last {
            return false;
        }
        i = i + 1;
    }
    false
}

/// Where `phrase` first occurs in `s`.
pub open spec fn first_at(s: Seq<char>, phrase: Seq<char>) -> Option<int>
    decreases s.len(),
{
    if s.len() < phrase.len() {
        None
    } else if s.take(phrase.len() as int) == phrase {
        Some(0)
    } else if s.len() == 0 {
        None
    } else {
        match first_at(s.drop_first(), phrase) {
            Some(i) => Some(i + 1),
            None => None,
        }
    }
}

/// A phrase that is found lies in the text.
pub proof fn lemma_first_at(s: Seq<char>, phrase: Seq<char>)
    ensures
        first_at(s, phrase) matches Some(i) ==> 0 <= i && i + phrase.len() <= s.len(),
    decreases s.len(),
{
    if s.len() >= phrase.len() && s.take(phrase.len() as int) != phrase && s.len() > 0 {
        lemma_first_at(s.drop_first(), phrase);
    }
}

/// Where `w` first occurs in `v`.
pub fn find_in(v: &Vec<char>, w: &Vec<char>) -> (r: Option<usize>)
    requires
        w@.len() > 0,
    ensures
        match r {
            Some(i) => i + w@.len() <= v@.len() && first_at(v@, w@) == Some(i as int),
            None => first_at(v@, w@) is None,
        },
{
    let mut i: usize = 0;
    assert(v@.skip(0) =~= v@);
    while i < v.len()
        invariant
            i <= v@.len(),
            w@.len() > 0,
            first_at(v@, w@) == (match first_at(v@.skip(i as int), w@) {
                Some(k) => Some(k + i),
                None => None,
            }),
        decreases v@.len() - i,
    {
        let ghost rest = v@.skip(i as int);
        proof {
            if i + w@.len() <= v@.len() {
                assert(v@.subrange(i as int, i + w@.len()) =~= rest.take(w@.len() as int));
            }
            assert(rest.drop_first() =~= v@.skip(i + 1));
        }
        if starts_at(v, i, w) {
            return Some(i);
        }
        proof {
            if rest.len() < w@.len() {
                lemma_short(rest.drop_first(), w@);
            }
        }
        i = i + 1;
    }
    None
}

proof fn lemma_short(s: Seq<char>, phrase: Seq<char>)
    requires
        s.len() < phrase.len(),
    ensures
        first_at(s, phrase) is None,
{
}

/// How many characters of `s` come before the first `c`.
pub open spec fn before_first(s: Seq<char>, c: char) -> nat
    decreases s.len(),
{
    if s.len() == 0 || s[0] == c {
        0
    } else {
        1 + before_first(s.drop_first(), c)
    }
}

proof fn lemma_before_first(s: Seq<char>, c: char, n: int)
    requires
        0 <= n <= s.len(),
        forall|i: int| 0 <= i < n ==> #[trigger] s[i] != c,
        n < s.len() ==> s[n] == c,
    ensures
        before_first(s, c) == n,
    decreases s.len(),
{
    if n > 0 {
        let t = s.drop_first();
        assert forall|i: int| 0 <= i < n - 1 implies #[trigger] t[i] != c by {
            assert(t[i] == s[i + 1]);
        }
        lemma_before_first(t, c, n - 1);
    }
}

proof fn lemma_before_first_bound(s: Seq<char>, c: char)
    ensures
        before_first(s, c) <= s.len(),
    decreases s.len(),
{
    if s.len() > 0 && s[0] != c {
        lemma_before_first_bound(s.drop_first(), c);
    }
}

/// The pieces of `s` between the occurrences of `c`.
pub open spec fn pieces(s: Seq<char>, c: char) -> Seq<Seq<char>>
    decreases s.len(),
    via pieces_decreases
{
    let n = before_first(s, c) as int;
    if n >= s.len() {
        seq![s]
    } else {
        seq![s.take(n)] + pieces(s.skip(n + 1), c)
    }
}

#[via_fn]
proof fn pieces_decreases(s: Seq<char>, c: char) {
    lemma_before_first_bound(s, c);
}

/// The pieces of `s` between the occurrences of `c`.
pub fn split_on(s: &str, c: char) -> (out: Vec<String>)
    ensures
        texts(out@) == pieces(s@, c),
{
    let v = to_chars(s);
    let mut out: Vec<String> = Vec::new();
    let mut i: usize = 0;
    assert(v@.skip(0) == v@);
    assert(texts(out@) + pieces(v@, c) == pieces(v@, c));
    loop
        invariant
            i <= v@.len(),
            v@ == s@,
            texts(out@) + pieces(v@.skip(i as int), c) == pieces(v@, c),
        decreases v@.len() - i,
    {
        let ghost rest = v@.skip(i as int);
        let mut j: usize = i;
        while j < v.len() && v[j] != c
            invariant
                i <= j <= v@.len(),
                forall|k: int| i <= k < j ==> #[trigger] v@[k] != c,
            decreases v@.len() - j,
        {
            j = j + 1;
        }
        proof {
            assert forall|k: int| 0 <= k < j - i implies #[trigger] rest[k] != c by {
                assert(rest[k] == v@[i + k]);
            }
            lemma_before_first(rest, c, j - i);
            assert(rest.take(j - i) == v@.subrange(i as int, j as int));
        }
        let ghost before = out@;
        let w = slice_text(&v, i, j);
        out.push(w);
        proof {
            assert(texts(out@) == texts(before).push(w@));
        }
        if j == v.len() {
            proof {
                assert(rest.take(j - i) =~= rest);
                assert(texts(out@) =~= texts(before) + seq![w@]);
            }
            return out;
        }
        proof {
            assert(rest.skip(j - i + 1) == v@.skip(j + 1));
            assert(texts(out@) + pieces(v@.skip(j + 1), c) =~= texts(before) + (seq![w@]
                + pieces(v@.skip(j + 1), c)));
        }
        i = j + 1;
    }
}

/// There is at least one piece.
pub proof fn lemma_pieces_some(s: Seq<char>, c: char)
    ensures
        pieces(s, c).len() > 0,
{
}

/// A text of decimal digits alone.
pub open spec fn all_digits(s: Seq<char>) -> bool {
    forall|i: int| 0 <= i < s.len() ==> 48 <= (#[trigger] s[i]) as u32 <= 57
}

/// The number a text of decimal digits writes.
pub open spec fn digits_number(s: Seq<char>) -> nat
    decreases s.len(),
{
    if s.len() == 0 {
        0
    } else {
        10 * digits_number(s.drop_last()) + (s.last() as u32 - 48) as nat
    }
}

/// The number a text writes in decimal, a plus sign in front allowed, where
/// it is at most `max`.
pub open spec fn number_of(s: Seq<char>, max: nat) -> Option<nat> {
    let d = if s.len() > 0 && s[0] == '+' {
        s.drop_first()
    } else {
        s
    };
    if d.len() > 0 && all_digits(d) && digits_number(d) <= max {
        Some(digits_number(d))
    } else {
        None
    }
}

proof fn lemma_digits_grow(s: Seq<char>, n: int)
    requires
        0 <= n <= s.len(),
    ensures
        digits_number(s.take(n)) <= digits_number(s),
    decreases s.len(),
{
    if n == s.len() {
        assert(s.take(n) =~= s);
    } else {
        assert(s.drop_last().take(n) =~= s.take(n));
        lemma_digits_grow(s.drop_last(), n);
    }
}

/// The number `s` writes in decimal, where it is at most `max`.
pub fn parse_number(s: &str, max: u64) -> (r: Option<u64>)
    ensures
        match r {
            Some(n) => number_of(s@, max as nat) == Some(n as nat),
            None => number_of(s@, max as nat) is None,
        },
{
    let v = to_chars(s);
    let from: usize = if v.len() > 0 && v[0] == '+' {
        1
    } else {
        0
    };
    let ghost d = if s@.len() > 0 && s@[0] == '+' {
        s@.drop_first()
    } else {
        s@
    };
    assert(d =~= v@.skip(from as int));
    if from == v.len() {
        return None;
    }
    let mut n: u64 = 0;
    let mut i: usize = from;
    while i < v.len()
        invariant
            from <= i <= v@.len(),
            from < v@.len(),
            d == v@.skip(from as int),
            number_of(s@, max as nat) == (if d.len() > 0 && all_digits(d) && digits_number(d)
                <= max {
                Some(digits_number(d))
            } else {
                None
            }),
            n <= max,
            n == digits_number(d.take(i - from)),
            all_digits(d.take(i - from)),
        decreases v@.len() - i,
    {
        let c: u32 = v[i] as u32;
        assert(d[i - from] == v@[i as int]);
        if c < 48 || c > 57 {
            assert(!all_digits(d)) by {
                assert(d[i - from] as u32 == c);
            }
            return None;
        }
        let ghost t = d.take(i - from + 1);
        proof {
            assert(t.drop_last() =~= d.take(i - from));
            assert(t.last() == d[i - from]);
            lemma_digits_grow(d, i - from + 1);
            assert forall|k: int| 0 <= k < t.len() implies 48 <= (#[trigger] t[k]) as u32
                <= 57 by {
                if k < i - from {
                    assert(t[k] == d.take(i - from)[k]);
                }
            }
        }
        let digit: u64 = (c - 48) as u64;
        if digit > max || n > (max - digit) / 10 {
            assert(10 * n + digit > max);
            return None;
        }
        n = n * 10 + digit;
        i = i + 1;
    }
    assert(d.take(i - from) =~= d);
    Some(n)
}

/// A number is read back from what is written of it.
pub proof fn lemma_decimal_reads_back(n: nat)
    ensures
        decimal(n).len() > 0,
        all_digits(decimal(n)),
        digits_number(decimal(n)) == n,
    decreases n,
{
    if n < 10 {
        let s = decimal(n);
        assert(s.drop_last() =~= Seq::<char>::empty());
        assert(digits_number(s.drop_last()) == 0);
    } else {
        lemma_decimal_reads_back(n / 10);
        let s = decimal(n);
        let front = decimal(n / 10);
        assert(s.drop_last() =~= front);
        assert forall|i: int| 0 <= i < s.len() implies 48 <= (#[trigger] s[i]) as u32 <= 57 by {
            if i < front.len() {
                assert(s[i] == front[i]);
            }
        }
    }
}

/// What follows `prefix` in `s`.
pub open spec fn after_prefix(s: Seq<char>, prefix: Seq<char>) -> Option<Seq<char>> {
    if prefix.len() <= s.len() && s.take(prefix.len() as int) == prefix {
        Some(s.skip(prefix.len() as int))
    } else {
        None
    }
}

/// What follows `prefix` in `s`.
pub fn strip_prefix(s: &str, prefix: &str) -> (r: Option<String>)
    ensures
        match r {
            Some(t) => after_prefix(s@, prefix@) == Some(t@),
            None => after_prefix(s@, prefix@) is None,
        },
{
    let v = to_chars(s);
    let p = to_chars(prefix);
    proof {
        if p@.len() <= v@.len() {
            assert(v@.subrange(0, p@.len() as int) =~= s@.take(p@.len() as int));
            assert(v@.subrange(p@.len() as int, v@.len() as int) =~= s@.skip(p@.len() as int));
        }
    }
    if starts_at(&v, 0, &p) {
        Some(slice_text(&v, p.len(), v.len()))
    } else {
        None
    }
}

/// The pieces of an ASCII text are ASCII.
pub proof fn lemma_pieces_ascii(s: Seq<char>, c: char)
    ensures
        all_ascii(s) ==> forall|i: int|
            0 <= i < pieces(s, c).len() ==> all_ascii(#[trigger] pieces(s, c)[i]),
    decreases s.len(),
{
    if all_ascii(s) {
        let n = before_first(s, c) as int;
        lemma_before_first_bound(s, c);
        if n >= s.len() {
            assert(pieces(s, c) == seq![s]);
        } else {
            let rest = s.skip(n + 1);
            assert(all_ascii(rest)) by {
                assert forall|i: int| 0 <= i < rest.len() implies (#[trigger] rest[i] as u32)
                    < 128 by {
                    assert(rest[i] == s[n + 1 + i]);
                }
            }
            lemma_pieces_ascii(rest, c);
            assert(pieces(s, c) == seq![s.take(n)] + pieces(rest, c));
            assert forall|i: int| 0 <= i < pieces(s, c).len() implies all_ascii(
                #[trigger] pieces(s, c)[i],
            ) by {
                if i == 0 {
                    assert(pieces(s, c)[0] == s.take(n));
                } else {
                    assert(pieces(s, c)[i] == pieces(rest, c)[i - 1]);
                }
            }
        }
    }
}

/// ASCII lower case makes no whitespace and takes none away.
proof fn lemma_white_space_lowered(c: char)
    ensures
        white_space(ascii_lower(c)) == white_space(c),
{
}

proof fn lemma_drop_front_lowered(s: Seq<char>)
    ensures
        drop_front(ascii_lowered(s), |c: char| white_space(c)) == ascii_lowered(
            drop_front(s, |c: char| white_space(c)),
        ),
    decreases s.len(),
{
    if s.len() > 0 {
        lemma_white_space_lowered(s[0]);
        assert(ascii_lowered(s).drop_first() =~= ascii_lowered(s.drop_first()));
        lemma_drop_front_lowered(s.drop_first());
    }
}

proof fn lemma_drop_back_lowered(s: Seq<char>)
    ensures
        drop_back(ascii_lowered(s), |c: char| white_space(c)) == ascii_lowered(
            drop_back(s, |c: char| white_space(c)),
        ),
    decreases s.len(),
{
    if s.len() > 0 {
        lemma_white_space_lowered(s.last());
        assert(ascii_lowered(s).drop_last() =~= ascii_lowered(s.drop_last()));
        lemma_drop_back_lowered(s.drop_last());
    }
}

/// A text may be trimmed before or after it is put in ASCII lower case.
pub proof fn lemma_trimmed_lowered(s: Seq<char>)
    ensures
        trimmed(ascii_lowered(s)) == ascii_lowered(trimmed(s)),
{
    lemma_drop_front_lowered(s);
    lemma_drop_back_lowered(drop_front(s, |c: char| white_space(c)));
}

proof fn lemma_before_first_lowered(s: Seq<char>, c: char)
    requires
        !(65 <= c as u32 <= 90) && !(97 <= c as u32 <= 122),
    ensures
        before_first(ascii_lowered(s), c) == before_first(s, c),
    decreases s.len(),
{
    if s.len() > 0 {
        assert(ascii_lowered(s)[0] == ascii_lower(s[0]));
        assert(ascii_lowered(s).drop_first() =~= ascii_lowered(s.drop_first()));
        lemma_before_first_lowered(s.drop_first(), c);
    }
}

/// A text may be split at a character that is no letter before or after it is
/// put in ASCII lower case.
pub proof fn lemma_pieces_lowered(s: Seq<char>, c: char)
    requires
        !(65 <= c as u32 <= 90) && !(97 <= c as u32 <= 122),
    ensures
        pieces(ascii_lowered(s), c) == pieces(s, c).map_values(
            |p: Seq<char>| ascii_lowered(p),
        ),
    decreases s.len(),
{
    let n = before_first(s, c) as int;
    lemma_before_first_lowered(s, c);
    lemma_before_first_bound(s, c);
    let lower = |p: Seq<char>| ascii_lowered(p);
    if n >= s.len() {
        assert(seq![s].map_values(lower) =~= seq![ascii_lowered(s)]);
    } else {
        let rest = s.skip(n + 1);
        lemma_pieces_lowered(rest, c);
        assert(ascii_lowered(s).take(n) =~= ascii_lowered(s.take(n)));
        assert(ascii_lowered(s).skip(n + 1) =~= ascii_lowered(rest));
        assert((seq![s.take(n)] + pieces(rest, c)).map_values(lower) =~= seq![
            ascii_lowered(s.take(n)),
        ] + pieces(rest, c).map_values(lower));
    }
}

/// An ASCII text is ASCII when trimmed.
pub proof fn lemma_trimmed_ascii(s: Seq<char>)
    ensures
        all_ascii(s) ==> all_ascii(trimmed(s)),
{
    let p = |c: char| white_space(c);
    lemma_drop_front(s, p);
    lemma_drop_back(drop_front(s, p), p);
}

/// What is found first stands there, and nowhere before; nothing is found only
/// where it stands nowhere.
pub proof fn law_first_occurrence_is_found(s: Seq<char>, phrase: Seq<char>)
    ensures
        match first_at(s, phrase) {
            Some(k) => 0 <= k && k + phrase.len() <= s.len() && s.subrange(
                k,
                k + phrase.len(),
            ) == phrase && forall|i: int|
                0 <= i < k ==> #[trigger] s.subrange(i, i + phrase.len()) != phrase,
            None => forall|i: int|
                0 <= i && i + phrase.len() <= s.len() ==> #[trigger] s.subrange(
                    i,
                    i + phrase.len(),
                ) != phrase,
        },
    decreases s.len(),
{
    let n = phrase.len() as int;
    if s.len() >= n {
        assert(s.take(n) =~= s.subrange(0, n));
        if s.take(n) != phrase && s.len() > 0 {
            let t = s.drop_first();
            law_first_occurrence_is_found(t, phrase);
            assert forall|i: int| 1 <= i && i + n <= s.len() implies #[trigger] s.subrange(i, i + n)
                == t.subrange(i - 1, i - 1 + n) by {
                assert(s.subrange(i, i + n) =~= t.subrange(i - 1, i - 1 + n));
            }
            if let Some(k) = first_at(t, phrase) {
                assert(s.subrange(k + 1, k + 1 + n) == phrase);
                assert forall|i: int| 0 <= i < k + 1 implies #[trigger] s.subrange(i, i + n)
                    != phrase by {
                    if i > 0 {
                        assert(t.subrange(i - 1, i - 1 + n) != phrase);
                    }
                }
            }
        }
    }
}

/// A text without `c` is one piece.
pub proof fn lemma_pieces_without(s: Seq<char>, c: char)
    requires
        !s.contains(c),
    ensures
        pieces(s, c) == seq![s],
{
    assert forall|i: int| 0 <= i < s.len() implies #[trigger] s[i] != c by {
        assert(s.contains(s[i]));
    }
    lemma_before_first(s, c, s.len() as int);
}

/// One part alone is joined to itself.
pub proof fn lemma_join_one(part: Seq<char>, sep: Seq<char>)
    ensures
        join(seq![part], sep) == part,
{
}

/// A list of parts is joined as its front and its back are, with `sep` between.
pub proof fn law_joining_in_two_goes(a: Seq<Seq<char>>, b: Seq<Seq<char>>, sep: Seq<char>)
    requires
        a.len() > 0,
        b.len() > 0,
    ensures
        join(a + b, sep) == join(a, sep) + sep + join(b, sep),
    decreases b.len(),
{
    let all = a + b;
    assert(all.last() == b.last());
    if b.len() == 1 {
        assert(all.drop_last() =~= a);
    } else {
        let front = b.drop_last();
        assert(all.drop_last() =~= a + front);
        law_joining_in_two_goes(a, front, sep);
        assert(join(all, sep) =~= join(a, sep) + sep + join(b, sep));
    }
}

/// The pieces of a text hold no `c`, and with `c` put back between them they are
/// the text.
pub proof fn law_pieces_make_up_the_text(s: Seq<char>, c: char)
    ensures
        join(pieces(s, c), seq![c]) == s,
        forall|i: int| 0 <= i < pieces(s, c).len() ==> !(#[trigger] pieces(s, c)[i]).contains(c),
    decreases s.len(),
{
    lemma_before_first_bound(s, c);
    lemma_before_first_meets(s, c);
    let n = before_first(s, c) as int;
    if n >= s.len() {
        lemma_join_one(s, seq![c]);
        assert forall|i: int| 0 <= i < pieces(s, c).len() implies !(#[trigger] pieces(
            s,
            c,
        )[i]).contains(c) by {
            assert(pieces(s, c)[i] == s);
        }
    } else {
        let rest = s.skip(n + 1);
        let head = s.take(n);
        law_pieces_make_up_the_text(rest, c);
        lemma_pieces_some(rest, c);
        law_joining_in_two_goes(seq![head], pieces(rest, c), seq![c]);
        lemma_join_one(head, seq![c]);
        assert(head + seq![c] + rest =~= s);
        assert forall|i: int| 0 <= i < pieces(s, c).len() implies !(#[trigger] pieces(
            s,
            c,
        )[i]).contains(c) by {
            if i == 0 {
                assert(pieces(s, c)[0] == head);
                assert forall|j: int| 0 <= j < head.len() implies head[j] != c by {
                    assert(head[j] == s[j]);
                }
            } else {
                assert(pieces(s, c)[i] == pieces(rest, c)[i - 1]);
            }
        }
    }
}

proof fn lemma_before_first_meets(s: Seq<char>, c: char)
    ensures
        forall|i: int| 0 <= i < before_first(s, c) ==> #[trigger] s[i] != c,
        before_first(s, c) < s.len() ==> s[before_first(s, c) as int] == c,
    decreases s.len(),
{
    if s.len() > 0 && s[0] != c {
        let t = s.drop_first();
        lemma_before_first_bound(t, c);
        lemma_before_first_meets(t, c);
        assert forall|i: int| 0 <= i < before_first(s, c) implies #[trigger] s[i] != c by {
            if i > 0 {
                assert(t[i - 1] == s[i]);
            }
        }
    }
}

/// Trimming takes whitespace off both ends, all of it, and nothing else.
pub proof fn law_trimming_takes_only_whitespace(s: Seq<char>) -> (r: (int, int))
    ensures
        0 <= r.0 <= r.1 <= s.len(),
        trimmed(s) == s.subrange(r.0, r.1),
        forall|i: int| 0 <= i < r.0 || r.1 <= i < s.len() ==> white_space(#[trigger] s[i]),
        trimmed(s).len() > 0 ==> !white_space(trimmed(s)[0]) && !white_space(trimmed(s).last()),
{
    let ws = |c: char| white_space(c);
    lemma_drop_front(s, ws);
    let t = drop_front(s, ws);
    lemma_drop_back(t, ws);
    let a = s.len() - t.len();
    let b = a + drop_back(t, ws).len();
    assert(trimmed(s) =~= s.subrange(a, b));
    assert forall|i: int| 0 <= i < a || b <= i < s.len() implies white_space(#[trigger] s[i]) by {
        if i < a {
            assert(ws(s[i]));
        } else {
            assert(ws(t[i - a]));
            assert(t[i - a] == s[i]);
        }
    }
    if trimmed(s).len() > 0 {
        assert(trimmed(s)[0] == t[0]);
        assert(!ws(t[0]));
        assert(!ws(drop_back(t, ws).last()));
    }
    (a, b)
}

/// A number that fits is read back from what is written of it.
pub proof fn law_numbers_read_back(n: nat, max: nat)
    ensures
        number_of(decimal(n), max) == if n <= max {
            Some(n)
        } else {
            None
        },
{
    lemma_decimal_reads_back(n);
    let d = decimal(n);
    assert(48 <= d[0] as u32 <= 57);
}

/// What follows a prefix is what is left when the prefix is taken off, and it is
/// there exactly when the text starts with it.
pub proof fn law_prefix_and_rest_make_the_text(s: Seq<char>, prefix: Seq<char>, rest: Seq<char>)
    ensures
        after_prefix(s, prefix) == Some(rest) <==> s == prefix + rest,
{
    if s == prefix + rest {
        assert(s.take(prefix.len() as int) =~= prefix);
        assert(s.skip(prefix.len() as int) =~= rest);
    }
    if after_prefix(s, prefix) == Some(rest) {
        assert(s =~= prefix + rest);
    }
}

/// Among the ASCII characters the letters and digits are those from `0` to
/// `9`, from `A` to `Z` and from `a` to `z`; beyond them the name decides.
pub proof fn law_letters_and_digits(c: char)
    ensures
        '0' <= c <= '9' || 'A' <= c <= 'Z' || 'a' <= c <= 'z' ==> letter(c),
        letter(c) && (c as u32) < 128 ==> '0' <= c <= '9' || 'A' <= c <= 'Z' || 'a' <= c <= 'z',
        c as u32 >= 128 ==> letter(c) == alphanumeric(c),
{
}

/// The two cases of an ASCII letter are each other's, and every other
/// character has but one.
pub proof fn law_cases_are_each_others(c: char)
    ensures
        'a' <= c <= 'z' ==> ascii_lower(ascii_upper(c)) == c && ascii_lower(c) == c && 'A'
            <= ascii_upper(c) <= 'Z' && c as u32 - 'a' as u32 == ascii_upper(c) as u32 - 'A' as u32,
        'A' <= c <= 'Z' ==> ascii_upper(ascii_lower(c)) == c && ascii_upper(c) == c && 'a'
            <= ascii_lower(c) <= 'z' && c as u32 - 'A' as u32 == ascii_lower(c) as u32 - 'a' as u32,
        !('a' <= c <= 'z') && !('A' <= c <= 'Z') ==> ascii_upper(c) == c && ascii_lower(c) == c,
{
}

/// Lower case goes character by character in a text of ASCII characters, and
/// any other text is what the name makes of it.
pub proof fn law_lower_case_keeps_ascii_places(s: Seq<char>, i: int)
    ensures
        (forall|k: int| 0 <= k < s.len() ==> (#[trigger] s[k] as u32) < 128) ==> lowered(s).len()
            == s.len() && (0 <= i < s.len() ==> lowered(s)[i] == ascii_lower(s[i])),
        (exists|k: int| 0 <= k < s.len() && (#[trigger] s[k]) as u32 >= 128) ==> lowered(s)
            == lowercase(s),
{
}

/// Putting the first character in upper case leaves the rest of the text.
pub proof fn law_only_the_first_is_capitalized(s: Seq<char>)
    requires
        s.len() > 0,
    ensures
        (s[0] as u32) < 128 ==> capitalized(s).len() == s.len() && capitalized(s)[0] == ascii_upper(
            s[0],
        ) && capitalized(s).skip(1) == s.skip(1),
        s[0] as u32 >= 128 ==> capitalized(s) == uppercase(s[0]) + s.skip(1),
{
    if (s[0] as u32) < 128 {
        assert(capitalized(s).skip(1) =~= s.skip(1));
    }
}

/// A clipped text is the front of the text, as long as asked for or the whole
/// of a shorter one.
pub proof fn law_clipping_keeps_the_front(s: Seq<char>, n: int)
    requires
        0 <= n,
    ensures
        clipped(s, n).len() <= n,
        s.len() <= n ==> clipped(s, n) == s,
        s.len() > n ==> clipped(s, n).len() == n,
        clipped(s, n) == s.take(clipped(s, n).len() as int),
{
    assert(s.take(s.len() as int) =~= s);
}

/// A number grows by one hexadecimal digit at its end, the digits are `0` to
/// `9` and `a` to `f`, and there is no leading zero.
pub proof fn law_hexadecimal_digits(n: nat, d: nat)
    requires
        d < 16,
    ensures
        hex(d) == seq![hex_digit(d)],
        n > 0 ==> hex(16 * n + d) == hex(n).push(hex_digit(d)),
        d < 10 ==> hex_digit(d) as u32 == '0' as u32 + d,
        d >= 10 ==> hex_digit(d) as u32 == 'a' as u32 + d - 10,
{
    assert((16 * n + d) / 16 == n && (16 * n + d) % 16 == d) by (nonlinear_arith)
        requires
            d < 16,
    ;
    assert((48 + d) as char as u32 == 48 + d);
}

/// A sign stands before a negative number and before no other.
pub proof fn law_negative_numbers_have_a_sign(n: nat)
    ensures
        n > 0 ==> signed(-(n as int)) == seq!['-'] + decimal(n),
        signed(n as int) == decimal(n),
{
    reveal_strlit("-");
    assert("-"@ =~= seq!['-']);
}

/// Full stops and commas are taken out, and every other character stays in
/// its order.
pub proof fn law_only_stops_are_removed(s: Seq<char>, c: char)
    ensures
        c == '.' || c == ',' ==> stops_removed(s.push(c)) == stops_removed(s),
        c != '.' && c != ',' ==> stops_removed(s.push(c)) == stops_removed(s).push(c),
        stops_removed(Seq::empty()).len() == 0,
{
    reveal(Seq::filter);
    assert(s.push(c).drop_last() =~= s);
}

/// A text stands in every text made by putting others around it, and none
/// stands in a shorter one.
pub proof fn law_a_text_stands_in_its_surroundings(a: Seq<char>, s: Seq<char>, b: Seq<char>)
    ensures
        occurs(a + s + b, s),
        s.len() > b.len() ==> !occurs(b, s),
{
    let k = a.len() as int;
    assert((a + s + b).subrange(k, k + s.len()) =~= s);
}

/// The words of a text are what stands between its whitespace: none is empty
/// or holds whitespace, and a text without any is one word.
pub proof fn law_words_hold_no_whitespace(s: Seq<char>)
    ensures
        forall|i: int|
            0 <= i < words(s).len() ==> (#[trigger] words(s)[i]).len() > 0 && forall|j: int|
                0 <= j < words(s)[i].len() ==> !white_space(#[trigger] words(s)[i][j]),
        s.len() > 0 && (forall|j: int| 0 <= j < s.len() ==> !white_space(#[trigger] s[j])) ==> words(
            s,
        ) == seq![s],
    decreases s.len(),
{
    if s.len() > 0 {
        if white_space(s[0]) {
            law_words_hold_no_whitespace(s.drop_first());
            assert(words(s) == words(s.drop_first()));
        } else {
            let n = word_len(s) as int;
            lemma_word_len(s);
            let rest = s.skip(n);
            law_words_hold_no_whitespace(rest);
            let first = s.take(n);
            let w = words(s);
            assert(w == seq![first] + words(rest));
            assert forall|i: int| 0 <= i < w.len() implies (#[trigger] w[i]).len() > 0 && forall|
                j: int,
            |
                0 <= j < w[i].len() ==> !white_space(#[trigger] w[i][j]) by {
                if i == 0 {
                    assert(w[0] == first);
                    assert forall|j: int| 0 <= j < first.len() implies !white_space(
                        #[trigger] first[j],
                    ) by {
                        assert(first[j] == s[j]);
                    }
                } else {
                    assert(w[i] == words(rest)[i - 1]);
                }
            }
            if forall|j: int| 0 <= j < s.len() ==> !white_space(#[trigger] s[j]) {
                assert(n == s.len());
                assert(rest =~= Seq::<char>::empty());
                assert(first =~= s);
                assert(w =~= seq![s]);
            }
        }
    }
}

/// Whitespace parts the words on its two sides.
pub proof fn law_whitespace_parts_words(a: Seq<char>, c: char, b: Seq<char>)
    requires
        white_space(c),
    ensures
        words(a + seq![c] + b) == words(a) + words(b),
{
    lemma_words_apart(a, c, b);
}

} // verus!
