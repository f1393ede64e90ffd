//! Push-to-talk hotkeys: what a chord is on the wire, and what a shortcut
//! signal means.
use vstd::prelude::*;

use crate::text::{quoted, same, split_on, to_chars, trim};

verus! {

/// The component the shortcuts are registered under.
pub const COMPONENT: &'static str = "parla";

/// What the desktop's settings call the component.
pub const COMPONENT_FRIENDLY: &'static str = "Parla Voice";

pub const ACTION_DICTATE: &'static str = "dictate";

pub const ACTION_COMMAND: &'static str = "command";

#[derive(Clone, Copy, Debug, PartialEq, Eq, Structural)]
pub enum HotkeyEvent {
    DictatePressed,
    DictateReleased,
    CommandPressed,
    CommandReleased,
}

/// Qt modifier bits, as they stand in a key combination on the wire.
pub const QT_SHIFT: u32 = 0x0200_0000;

pub const QT_CTRL: u32 = 0x0400_0000;

pub const QT_ALT: u32 = 0x0800_0000;

pub const QT_META: u32 = 0x1000_0000;

/// The four keys that are held with another.
#[derive(Clone, Copy, Debug, PartialEq, Eq, Structural)]
pub enum Modifier {
    Ctrl,
    Shift,
    Alt,
    Meta,
}

/// The modifier a lowercased part of a chord names.
pub open spec fn modifier_of(part: Seq<char>) -> Option<Modifier> {
    if part == "ctrl"@ || part == "control"@ {
        Some(Modifier::Ctrl)
    } else if part == "shift"@ {
        Some(Modifier::Shift)
    } else if part == "alt"@ {
        Some(Modifier::Alt)
    } else if part == "meta"@ || part == "super"@ || part == "win"@ {
        Some(Modifier::Meta)
    } else {
        None
    }
}

fn modifier(part: &str) -> (r: Option<Modifier>)
    ensures
        r == modifier_of(part@),
{
    if same(part, "ctrl") || same(part, "control") {
        Some(Modifier::Ctrl)
    } else if same(part, "shift") {
        Some(Modifier::Shift)
    } else if same(part, "alt") {
        Some(Modifier::Alt)
    } else if same(part, "meta") || same(part, "super") || same(part, "win") {
        Some(Modifier::Meta)
    } else {
        None
    }
}

/// An ASCII punctuation character.
pub open spec fn ascii_punctuation(c: char) -> bool {
    ||| 33 <= c as u32 <= 47
    ||| 58 <= c as u32 <= 64
    ||| 91 <= c as u32 <= 96
    ||| 123 <= c as u32 <= 126
}

/// Qt's value for the key of a single character: letters by their upper
/// case, digits and punctuation by themselves.
pub open spec fn char_key(c: char) -> Option<u32> {
    if 97 <= c as u32 <= 122 {
        Some((c as u32 - 32) as u32)
    } else if 65 <= c as u32 <= 90 || 48 <= c as u32 <= 57 || ascii_punctuation(c) {
        Some(c as u32)
    } else {
        None
    }
}

/// Qt's value for the main key a lowercased part of a chord names.
pub open spec fn main_key_of(part: Seq<char>) -> Option<u32> {
    if part == "space"@ {
        Some(0x20)
    } else if part == "enter"@ || part == "return"@ {
        Some(0x0100_0004)
    } else if part == "tab"@ {
        Some(0x0100_0001)
    } else if part == "escape"@ || part == "esc"@ {
        Some(0x0100_0000)
    } else if part == "backspace"@ {
        Some(0x0100_0003)
    } else if part == "delete"@ || part == "del"@ {
        Some(0x0100_0005)
    } else if part == "up"@ {
        Some(0x0100_0013)
    } else if part == "down"@ {
        Some(0x0100_0015)
    } else if part == "left"@ {
        Some(0x0100_0012)
    } else if part == "right"@ {
        Some(0x0100_0014)
    } else if part == "f1"@ {
        Some(0x0100_0030)
    } else if part == "f2"@ {
        Some(0x0100_0031)
    } else if part == "f3"@ {
        Some(0x0100_0032)
    } else if part == "f4"@ {
        Some(0x0100_0033)
    } else if part == "f5"@ {
        Some(0x0100_0034)
    } else if part == "f6"@ {
        Some(0x0100_0035)
    } else if part == "f7"@ {
        Some(0x0100_0036)
    } else if part == "f8"@ {
        Some(0x0100_0037)
    } else if part == "f9"@ {
        Some(0x0100_0038)
    } else if part == "f10"@ {
        Some(0x0100_0039)
    } else if part == "f11"@ {
        Some(0x0100_003a)
    } else if part == "f12"@ {
        Some(0x0100_003b)
    } else if part.len() == 1 {
        char_key(part[0])
    } else {
        None
    }
}

fn main_key(part: &str) -> (r: Option<u32>)
    ensures
        r == main_key_of(part@),
{
    if same(part, "space") {
        return Some(0x20);
    }
    if same(part, "enter") || same(part, "return") {
        return Some(0x0100_0004);
    }
    if same(part, "tab") {
        return Some(0x0100_0001);
    }
    if same(part, "escape") || same(part, "esc") {
        return Some(0x0100_0000);
    }
    if same(part, "backspace") {
        return Some(0x0100_0003);
    }
    if same(part, "delete") || same(part, "del") {
        return Some(0x0100_0005);
    }
    if same(part, "up") {
        return Some(0x0100_0013);
    }
    if same(part, "down") {
        return Some(0x0100_0015);
    }
    if same(part, "left") {
        return Some(0x0100_0012);
    }
    if same(part, "right") {
        return Some(0x0100_0014);
    }
    if same(part, "f1") {
        return Some(0x0100_0030);
    }
    if same(part, "f2") {
        return Some(0x0100_0031);
    }
    if same(part, "f3") {
        return Some(0x0100_0032);
    }
    if same(part, "f4") {
        return Some(0x0100_0033);
    }
    if same(part, "f5") {
        return Some(0x0100_0034);
    }
    if same(part, "f6") {
        return Some(0x0100_0035);
    }
    if same(part, "f7") {
        return Some(0x0100_0036);
    }
    if same(part, "f8") {
        return Some(0x0100_0037);
    }
    if same(part, "f9") {
        return Some(0x0100_0038);
    }
    if same(part, "f10") {
        return Some(0x0100_0039);
    }
    if same(part, "f11") {
        return Some(0x0100_003a);
    }
    if same(part, "f12") {
        return Some(0x0100_003b);
    }
    let v = to_chars(part);
    if v.len() != 1 {
        return None;
    }
    let n: u32 = v[0] as u32;
    if 97 <= n && n <= 122 {
        Some(n - 32)
    } else if (65 <= n && n <= 90) || (48 <= n && n <= 57) || (33 <= n && n <= 47) || (58 <= n && n
        <= 64) || (91 <= n && n <= 96) || (123 <= n && n <= 126) {
        Some(n)
    } else {
        None
    }
}

/// What the parts of a chord read so far amount to.
#[derive(Clone, Copy, Debug, PartialEq, Eq, Structural)]
pub struct Chord {
    pub ctrl: bool,
    pub shift: bool,
    pub alt: bool,
    pub meta: bool,
    pub key: Option<u32>,
}

impl Chord {
    /// No part read yet.
    pub open spec fn none() -> Chord {
        Chord { ctrl: false, shift: false, alt: false, meta: false, key: None }
    }

    /// The chord with one more modifier held.
    pub open spec fn holding(self, m: Modifier) -> Chord {
        match m {
            Modifier::Ctrl => Chord { ctrl: true, ..self },
            Modifier::Shift => Chord { shift: true, ..self },
            Modifier::Alt => Chord { alt: true, ..self },
            Modifier::Meta => Chord { meta: true, ..self },
        }
    }

    /// The modifier bits held.
    pub open spec fn modifiers(self) -> int {
        (if self.ctrl {
            QT_CTRL as int
        } else {
            0
        }) + (if self.shift {
            QT_SHIFT as int
        } else {
            0
        }) + (if self.alt {
            QT_ALT as int
        } else {
            0
        }) + (if self.meta {
            QT_META as int
        } else {
            0
        })
    }
}

/// Why a chord cannot be read.
#[derive(Clone, Debug, PartialEq, Eq)]
pub enum ChordError {
    /// A part that is neither a modifier nor a key.
    BadPart { part: String },
    /// More than one main key.
    ManyKeys,
    /// Modifiers alone, or nothing.
    NoKey,
}

/// A [`ChordError`] with its part as a character sequence.
pub ghost enum ChordErrorView {
    BadPart { part: Seq<char> },
    ManyKeys,
    NoKey,
}

impl View for ChordError {
    type V = ChordErrorView;

    open spec fn view(&self) -> ChordErrorView {
        match *self {
            ChordError::BadPart { part } => ChordErrorView::BadPart { part: part@ },
            ChordError::ManyKeys => ChordErrorView::ManyKeys,
            ChordError::NoKey => ChordErrorView::NoKey,
        }
    }
}

impl ChordError {
    /// What is said of the error in `chord`.
    pub fn text(&self, chord: &str) -> (r: String)
        ensures
            r@ == match self@ {
                ChordErrorView::BadPart { part } => "cannot parse hotkey part "@
                    + crate::text::debug_text(part),
                ChordErrorView::ManyKeys => "multiple main keys in chord "@
                    + crate::text::debug_text(chord@),
                ChordErrorView::NoKey => "chord has no main key"@,
            },
    {
        match self {
            ChordError::BadPart { part } => {
                let q = quoted(part.as_str());
                crate::text::concat2("cannot parse hotkey part ", q.as_str())
            },
            ChordError::ManyKeys => {
                let q = quoted(chord);
                crate::text::concat2("multiple main keys in chord ", q.as_str())
            },
            ChordError::NoKey => "chord has no main key".to_string(),
        }
    }
}

/// A part of a chord as it is written, and in lower case.
#[derive(Clone, Debug)]
pub struct ChordPart {
    pub written: String,
    pub lower: String,
}

/// A [`ChordPart`] as character sequences.
pub ghost struct ChordPartView {
    pub written: Seq<char>,
    pub lower: Seq<char>,
}

impl View for ChordPart {
    type V = ChordPartView;

    open spec fn view(&self) -> ChordPartView {
        ChordPartView { written: self.written@, lower: self.lower@ }
    }
}

/// The chord after one more part.
pub open spec fn with_part(c: Chord, p: ChordPartView) -> Result<Chord, ChordErrorView> {
    match modifier_of(p.lower) {
        Some(m) => Ok(c.holding(m)),
        None => match main_key_of(p.lower) {
            None => Err(ChordErrorView::BadPart { part: p.written }),
            Some(k) => if c.key is Some {
                Err(ChordErrorView::ManyKeys)
            } else {
                Ok(Chord { key: Some(k), ..c })
            },
        },
    }
}

/// The chord that `parts` spell, read from the left up to the first part that
/// does not fit.
pub open spec fn chord_of(parts: Seq<ChordPartView>) -> Result<Chord, ChordErrorView>
    decreases parts.len(),
{
    if parts.len() == 0 {
        Ok(Chord::none())
    } else {
        match chord_of(parts.drop_last()) {
            Err(e) => Err(e),
            Ok(c) => with_part(c, parts.last()),
        }
    }
}

/// The key combination `parts` spell: the main key's value plus the bits of
/// the modifiers held.
pub open spec fn combination(parts: Seq<ChordPartView>) -> Result<u32, ChordErrorView> {
    match chord_of(parts) {
        Err(e) => Err(e),
        Ok(c) => match c.key {
            None => Err(ChordErrorView::NoKey),
            Some(k) => Ok((k + c.modifiers()) as u32),
        },
    }
}

/// The views of the parts of a chord.
pub open spec fn part_views(parts: Seq<ChordPart>) -> Seq<ChordPartView> {
    parts.map_values(|p: ChordPart| p@)
}

/// A result with its error as a view.
pub open spec fn chord_result(r: Result<u32, ChordError>) -> Result<u32, ChordErrorView> {
    match r {
        Ok(v) => Ok(v),
        Err(e) => Err(e@),
    }
}

/// Main keys stay below the modifier bits.
proof fn lemma_main_key_small(part: Seq<char>)
    ensures
        main_key_of(part) matches Some(k) ==> k < QT_SHIFT,
{
}

proof fn lemma_chord_key_small(parts: Seq<ChordPartView>)
    ensures
        chord_of(parts) matches Ok(c) ==> (c.key matches Some(k) ==> k < QT_SHIFT),
    decreases parts.len(),
{
    if parts.len() > 0 {
        lemma_chord_key_small(parts.drop_last());
        lemma_main_key_small(parts.last().lower);
    }
}

/// The key combination of a chord already split into its parts.
pub fn combine(parts: &Vec<ChordPart>) -> (r: Result<u32, ChordError>)
    ensures
        chord_result(r) == combination(part_views(parts@)),
{
    let mut c = Chord { ctrl: false, shift: false, alt: false, meta: false, key: None };
    let mut i: usize = 0;
    let ghost all = part_views(parts@);
    while i < parts.len()
        invariant
            i <= parts@.len(),
            all == part_views(parts@),
            chord_of(all.take(i as int)) == Ok::<Chord, ChordErrorView>(c),
        decreases parts@.len() - i,
    {
        proof {
            assert(all.take(i + 1).drop_last() =~= all.take(i as int));
            assert(all.take(i + 1).last() == parts@[i as int]@);
        }
        let lower = parts[i].lower.as_str();
        match modifier(lower) {
            Some(m) => {
                match m {
                    Modifier::Ctrl => {
                        c.ctrl = true;
                    },
                    Modifier::Shift => {
                        c.shift = true;
                    },
                    Modifier::Alt => {
                        c.alt = true;
                    },
                    Modifier::Meta => {
                        c.meta = true;
                    },
                }
            },
            None => {
                match main_key(lower) {
                    None => {
                        proof {
                            lemma_error_stays(all, i + 1);
                        }
                        return Err(ChordError::BadPart { part: parts[i].written.clone() });
                    },
                    Some(k) => {
                        if c.key.is_some() {
                            proof {
                                lemma_error_stays(all, i + 1);
                            }
                            return Err(ChordError::ManyKeys);
                        }
                        c.key = Some(k);
                    },
                }
            },
        }
        i = i + 1;
    }
    proof {
        assert(all.take(i as int) =~= all);
        lemma_chord_key_small(all);
    }
    match c.key {
        None => Err(ChordError::NoKey),
        Some(k) => {
            let mut v: u32 = k;
            if c.ctrl {
                v = v + QT_CTRL;
            }
            if c.shift {
                v = v + QT_SHIFT;
            }
            if c.alt {
                v = v + QT_ALT;
            }
            if c.meta {
                v = v + QT_META;
            }
            Ok(v)
        },
    }
}

/// Parts after the first that does not fit change nothing.
proof fn lemma_error_stays(parts: Seq<ChordPartView>, n: int)
    requires
        0 <= n <= parts.len(),
        chord_of(parts.take(n)) is Err,
    ensures
        chord_of(parts) == chord_of(parts.take(n)),
    decreases parts.len(),
{
    if n == parts.len() {
        assert(parts.take(n) =~= parts);
    } else {
        assert(parts.drop_last().take(n) =~= parts.take(n));
        lemma_error_stays(parts.drop_last(), n);
    }
}

/// The parts of a chord: what stands between the plus signs, trimmed, empty
/// ones left out.
pub open spec fn written_parts(pieces: Seq<Seq<char>>) -> Seq<ChordPartView>
    decreases pieces.len(),
{
    if pieces.len() == 0 {
        Seq::empty()
    } else {
        let rest = written_parts(pieces.drop_last());
        let t = crate::text::trimmed(pieces.last());
        if t.len() == 0 {
            rest
        } else {
            rest.push(ChordPartView { written: t, lower: crate::text::lowered(t) })
        }
    }
}

/// The parts of a chord.
pub open spec fn chord_parts(chord: Seq<char>) -> Seq<ChordPartView> {
    written_parts(crate::text::pieces(chord, '+'))
}

/// Parse "ctrl+shift+space" into a Qt key combination.
pub fn parse_chord(chord: &str) -> (r: Result<u32, ChordError>)
    ensures
        chord_result(r) == combination(chord_parts(chord@)),
{
    let raw = split_on(chord, '+');
    let ghost all = crate::text::texts(raw@);
    let mut parts: Vec<ChordPart> = Vec::new();
    let mut i: usize = 0;
    while i < raw.len()
        invariant
            i <= raw@.len(),
            all == crate::text::texts(raw@),
            part_views(parts@) == written_parts(all.take(i as int)),
        decreases raw@.len() - i,
    {
        proof {
            assert(all.take(i + 1).drop_last() =~= all.take(i as int));
            assert(all.take(i + 1).last() == raw@[i as int]@);
        }
        let written = trim(raw[i].as_str());
        if !written.as_str().is_empty() {
            let lower = crate::text::lower(written.as_str());
            let ghost before = parts@;
            let part = ChordPart { written, lower };
            parts.push(part);
            assert(part_views(parts@) =~= part_views(before).push(part@));
        }
        i = i + 1;
    }
    assert(all.take(i as int) =~= all);
    combine(&parts)
}

/// Whether a part names a main key.
pub open spec fn names_key(p: ChordPartView) -> bool {
    modifier_of(p.lower) is None && main_key_of(p.lower) is Some
}

/// Whether some part names the modifier `m`.
pub open spec fn held(parts: Seq<ChordPartView>, m: Modifier) -> bool {
    exists|i: int| 0 <= i < parts.len() && modifier_of((#[trigger] parts[i]).lower) == Some(m)
}

/// A chord is read exactly when every part is known and one part names a
/// main key; its value is that key plus the bits of the modifiers that occur,
/// in whatever order and however often they are written.
pub proof fn law_chord_is_key_and_modifiers(parts: Seq<ChordPartView>, k: int)
    requires
        0 <= k < parts.len(),
        names_key(parts[k]),
        forall|i: int|
            0 <= i < parts.len() && i != k ==> modifier_of((#[trigger] parts[i]).lower) is Some,
    ensures
        combination(parts) == Ok::<u32, ChordErrorView>(
            (main_key_of(parts[k].lower)->0 + Chord {
                ctrl: held(parts, Modifier::Ctrl),
                shift: held(parts, Modifier::Shift),
                alt: held(parts, Modifier::Alt),
                meta: held(parts, Modifier::Meta),
                key: None,
            }.modifiers()) as u32,
        ),
{
    lemma_chord_so_far(parts, k, parts.len() as int);
    assert(parts.take(parts.len() as int) =~= parts);
}

/// The modifiers and the key read from the first `n` parts.
proof fn lemma_chord_so_far(parts: Seq<ChordPartView>, k: int, n: int)
    requires
        0 <= k < parts.len(),
        0 <= n <= parts.len(),
        names_key(parts[k]),
        forall|i: int|
            0 <= i < parts.len() && i != k ==> modifier_of((#[trigger] parts[i]).lower) is Some,
    ensures
        chord_of(parts.take(n)) == Ok::<Chord, ChordErrorView>(
            Chord {
                ctrl: held(parts.take(n), Modifier::Ctrl),
                shift: held(parts.take(n), Modifier::Shift),
                alt: held(parts.take(n), Modifier::Alt),
                meta: held(parts.take(n), Modifier::Meta),
                key: if k < n {
                    main_key_of(parts[k].lower)
                } else {
                    None
                },
            },
        ),
    decreases n,
{
    if n > 0 {
        lemma_chord_so_far(parts, k, n - 1);
        let now = parts.take(n);
        let before = parts.take(n - 1);
        assert(now.drop_last() =~= before);
        assert(now.last() == parts[n - 1]);
        assert forall|m: Modifier| held(now, m) == (held(before, m) || modifier_of(
            parts[n - 1].lower,
        ) == Some(m)) by {
            if held(before, m) {
                let i = choose|i: int|
                    0 <= i < before.len() && modifier_of((#[trigger] before[i]).lower) == Some(m);
                assert(now[i] == before[i]);
            }
            if modifier_of(parts[n - 1].lower) == Some(m) {
                assert(now[n - 1] == parts[n - 1]);
            }
            if held(now, m) {
                let i = choose|i: int|
                    0 <= i < now.len() && modifier_of((#[trigger] now[i]).lower) == Some(m);
                if i < n - 1 {
                    assert(before[i] == now[i]);
                }
            }
        }
    }
}

/// The parts of a chord as they are compared: trimmed and in lower case.
pub open spec fn forms(parts: Seq<ChordPartView>) -> Seq<Seq<char>> {
    parts.map_values(|p: ChordPartView| p.lower)
}

/// The forms that name no modifier.
spec fn others(forms: Seq<Seq<char>>) -> Seq<Seq<char>>
    decreases forms.len(),
{
    if forms.len() == 0 {
        Seq::empty()
    } else if modifier_of(forms.last()) is Some {
        others(forms.drop_last())
    } else {
        others(forms.drop_last()).push(forms.last())
    }
}

/// Whether two chords come to the same: the same value, or both are refused.
pub open spec fn same_reading(
    a: Result<u32, ChordErrorView>,
    b: Result<u32, ChordErrorView>,
) -> bool {
    match (a, b) {
        (Ok(x), Ok(y)) => x == y,
        (Err(_), Err(_)) => true,
        _ => false,
    }
}

/// Whether two lists of forms name the same modifiers, and the same other
/// keys equally often.
pub open spec fn same_keys(a: Seq<Seq<char>>, b: Seq<Seq<char>>) -> bool {
    &&& forall|m: Modifier| #[trigger] names(a, m) == names(b, m)
    &&& forall|x: Seq<char>|
        modifier_of(x) is None ==> #[trigger] a.to_multiset().count(x) == b.to_multiset().count(x)
}

/// Whether one of the forms names the modifier `m`.
pub open spec fn names(forms: Seq<Seq<char>>, m: Modifier) -> bool {
    exists|i: int| 0 <= i < forms.len() && modifier_of(#[trigger] forms[i]) == Some(m)
}

/// The order of the parts of a chord makes no difference, nor does writing a
/// modifier more than once or by another of its names: chords that name the
/// same modifiers and the same other keys have the same value, or are both
/// refused.
pub proof fn law_order_and_repeats_change_nothing(a: Seq<char>, b: Seq<char>)
    requires
        same_keys(forms(chord_parts(a)), forms(chord_parts(b))),
    ensures
        same_reading(combination(chord_parts(a)), combination(chord_parts(b))),
{
    let (p, q) = (chord_parts(a), chord_parts(b));
    let (x, y) = (others(forms(p)), others(forms(q)));
    lemma_reading(p);
    lemma_reading(q);
    assert(x.to_multiset() =~= y.to_multiset()) by {
        assert forall|k: Seq<char>| #[trigger] x.to_multiset().count(k) == y.to_multiset().count(
            k,
        ) by {
            lemma_others_count(forms(p), k);
            lemma_others_count(forms(q), k);
        }
    }
    x.to_multiset_ensures();
    y.to_multiset_ensures();
    if x.len() == 1 {
        assert(x.contains(x[0]));
        assert(x.to_multiset().count(x[0]) > 0);
        assert(y.to_multiset().count(x[0]) > 0);
        assert(y.contains(x[0]));
    }
    assert(names(forms(p), Modifier::Ctrl) == names(forms(q), Modifier::Ctrl));
    assert(names(forms(p), Modifier::Shift) == names(forms(q), Modifier::Shift));
    assert(names(forms(p), Modifier::Alt) == names(forms(q), Modifier::Alt));
    assert(names(forms(p), Modifier::Meta) == names(forms(q), Modifier::Meta));
}

/// In particular the parts may be written in any order.
pub proof fn law_permuted_parts_read_alike(a: Seq<char>, b: Seq<char>)
    requires
        forms(chord_parts(a)).to_multiset() == forms(chord_parts(b)).to_multiset(),
    ensures
        same_reading(combination(chord_parts(a)), combination(chord_parts(b))),
{
    let (x, y) = (forms(chord_parts(a)), forms(chord_parts(b)));
    x.to_multiset_ensures();
    y.to_multiset_ensures();
    assert forall|m: Modifier| #[trigger] names(x, m) == names(y, m) by {
        if names(x, m) {
            let i = choose|i: int| 0 <= i < x.len() && modifier_of(#[trigger] x[i]) == Some(m);
            assert(x.contains(x[i]));
            assert(x.to_multiset().count(x[i]) > 0);
            assert(y.to_multiset().count(x[i]) > 0);
            assert(y.contains(x[i]));
            let j = choose|j: int| 0 <= j < y.len() && y[j] == x[i];
            assert(modifier_of(y[j]) == Some(m));
        }
        if names(y, m) {
            let i = choose|i: int| 0 <= i < y.len() && modifier_of(#[trigger] y[i]) == Some(m);
            assert(y.contains(y[i]));
            assert(y.to_multiset().count(y[i]) > 0);
            assert(x.to_multiset().count(y[i]) > 0);
            assert(x.contains(y[i]));
            let j = choose|j: int| 0 <= j < x.len() && x[j] == y[i];
            assert(modifier_of(x[j]) == Some(m));
        }
    }
    law_order_and_repeats_change_nothing(a, b);
}

/// The case in which the ASCII letters of a chord are written makes no
/// difference.
pub proof fn law_case_changes_nothing(a: Seq<char>, b: Seq<char>)
    requires
        crate::text::all_ascii(a),
        crate::text::all_ascii(b),
        crate::text::ascii_lowered(a) == crate::text::ascii_lowered(b),
    ensures
        forms(chord_parts(a)) == forms(chord_parts(b)),
        same_reading(combination(chord_parts(a)), combination(chord_parts(b))),
{
    crate::text::lemma_pieces_ascii(a, '+');
    crate::text::lemma_pieces_ascii(b, '+');
    crate::text::lemma_pieces_lowered(a, '+');
    crate::text::lemma_pieces_lowered(b, '+');
    let (x, y) = (crate::text::pieces(a, '+'), crate::text::pieces(b, '+'));
    let lower = |s: Seq<char>| crate::text::ascii_lowered(s);
    assert(x.map_values(lower) == y.map_values(lower));
    assert(x.len() == x.map_values(lower).len());
    assert(y.len() == y.map_values(lower).len());
    assert forall|i: int| 0 <= i < x.len() implies crate::text::ascii_lowered(#[trigger] x[i])
        == crate::text::ascii_lowered(y[i]) by {
        assert(x.map_values(lower)[i] == y.map_values(lower)[i]);
    }
    lemma_forms_case(x, y);
    law_permuted_parts_read_alike(a, b);
}

proof fn lemma_forms_case(x: Seq<Seq<char>>, y: Seq<Seq<char>>)
    requires
        x.len() == y.len(),
        forall|i: int| 0 <= i < x.len() ==> crate::text::all_ascii(#[trigger] x[i]),
        forall|i: int| 0 <= i < y.len() ==> crate::text::all_ascii(#[trigger] y[i]),
        forall|i: int|
            0 <= i < x.len() ==> crate::text::ascii_lowered(#[trigger] x[i])
                == crate::text::ascii_lowered(y[i]),
    ensures
        forms(written_parts(x)) == forms(written_parts(y)),
    decreases x.len(),
{
    if x.len() > 0 {
        let (u, v) = (x.drop_last(), y.drop_last());
        assert forall|i: int| 0 <= i < u.len() implies crate::text::all_ascii(#[trigger] u[i]) by {
            assert(u[i] == x[i]);
        }
        assert forall|i: int| 0 <= i < v.len() implies crate::text::all_ascii(#[trigger] v[i]) by {
            assert(v[i] == y[i]);
        }
        assert forall|i: int| 0 <= i < u.len() implies crate::text::ascii_lowered(#[trigger] u[i])
            == crate::text::ascii_lowered(v[i]) by {
            assert(u[i] == x[i] && v[i] == y[i]);
        }
        lemma_forms_case(u, v);
        let (p, q) = (x[x.len() - 1], y[y.len() - 1]);
        crate::text::lemma_trimmed_lowered(p);
        crate::text::lemma_trimmed_lowered(q);
        crate::text::lemma_trimmed_ascii(p);
        crate::text::lemma_trimmed_ascii(q);
        let (s, t) = (crate::text::trimmed(p), crate::text::trimmed(q));
        assert(crate::text::lowered(s) == crate::text::lowered(t));
        assert(crate::text::ascii_lowered(s).len() == s.len());
        assert(crate::text::ascii_lowered(t).len() == t.len());
        if s.len() > 0 {
            assert(forms(written_parts(x)) =~= forms(written_parts(u)).push(
                crate::text::lowered(s),
            ));
            assert(forms(written_parts(y)) =~= forms(written_parts(v)).push(
                crate::text::lowered(t),
            ));
        }
    } else {
        assert(x =~= y);
    }
}

proof fn lemma_others_count(forms: Seq<Seq<char>>, x: Seq<char>)
    ensures
        others(forms).to_multiset().count(x) == (if modifier_of(x) is None {
            forms.to_multiset().count(x)
        } else {
            0
        }),
    decreases forms.len(),
{
    forms.to_multiset_ensures();
    if forms.len() == 0 {
        others(forms).to_multiset_ensures();
        assert(!forms.contains(x) && !others(forms).contains(x));
    } else {
        let front = forms.drop_last();
        lemma_others_count(front, x);
        front.to_multiset_ensures();
        others(front).to_multiset_ensures();
        assert(forms =~= front.push(forms.last()));
    }
}

/// What a chord comes to depends on the modifiers named and on the other
/// forms alone.
proof fn lemma_reading(parts: Seq<ChordPartView>)
    ensures
        ({
            let f = forms(parts);
            let o = others(f);
            let known = o.len() == 0 || (o.len() == 1 && main_key_of(o[0]) is Some);
            match chord_of(parts) {
                Ok(c) => known && c == (Chord {
                    ctrl: names(f, Modifier::Ctrl),
                    shift: names(f, Modifier::Shift),
                    alt: names(f, Modifier::Alt),
                    meta: names(f, Modifier::Meta),
                    key: if o.len() == 0 {
                        None
                    } else {
                        main_key_of(o[0])
                    },
                }),
                Err(_) => !known,
            }
        }),
    decreases parts.len(),
{
    let f = forms(parts);
    if parts.len() > 0 {
        let front = parts.drop_last();
        lemma_reading(front);
        let g = forms(front);
        assert(f.drop_last() =~= g);
        assert(f.last() == parts.last().lower);
        assert forall|m: Modifier| #[trigger] names(f, m) == (names(g, m) || modifier_of(f.last())
            == Some(m)) by {
            if names(g, m) {
                let i = choose|i: int| 0 <= i < g.len() && modifier_of(#[trigger] g[i]) == Some(m);
                assert(f[i] == g[i]);
            }
            if modifier_of(f.last()) == Some(m) {
                assert(f[f.len() - 1] == f.last());
            }
            if names(f, m) {
                let i = choose|i: int| 0 <= i < f.len() && modifier_of(#[trigger] f[i]) == Some(m);
                if i < g.len() {
                    assert(g[i] == f[i]);
                }
            }
        }
    }
}

/// The four strings that identify an action to the shortcut service.
pub fn action_id(action: &str) -> (r: Vec<String>)
    ensures
        crate::text::texts(r@) == seq![COMPONENT@, action@, COMPONENT_FRIENDLY@, action@],
{
    let r = vec![
        COMPONENT.to_string(),
        action.to_string(),
        COMPONENT_FRIENDLY.to_string(),
        action.to_string(),
    ];
    assert(crate::text::texts(r@) =~= seq![COMPONENT@, action@, COMPONENT_FRIENDLY@, action@]);
    r
}

/// Whether the keys the service bound are the one key asked for. They differ
/// when another component already owns the chord.
pub fn bound_as_asked(bound: &Vec<i32>, key: i32) -> (r: bool)
    ensures
        r == (bound@ == seq![key]),
{
    let r = bound.len() == 1 && bound[0] == key;
    proof {
        if r {
            assert(bound@ =~= seq![key]);
        }
    }
    r
}

/// Whether a signal member reports a press, a release, or neither.
pub fn pressed(member: Option<&str>) -> (r: Option<bool>)
    ensures
        r == (match member {
            Some(m) => if m@ == "globalShortcutPressed"@ {
                Some(true)
            } else if m@ == "globalShortcutReleased"@ {
                Some(false)
            } else {
                None
            },
            None => None,
        }),
{
    match member {
        Some(m) => {
            if same(m, "globalShortcutPressed") {
                Some(true)
            } else if same(m, "globalShortcutReleased") {
                Some(false)
            } else {
                None
            }
        },
        None => None,
    }
}

/// The event of a press or release of `action` of `component`.
pub open spec fn event_of(
    pressed: bool,
    component: Seq<char>,
    action: Seq<char>,
) -> Option<HotkeyEvent> {
    if component != COMPONENT@ {
        None
    } else if action == ACTION_DICTATE@ {
        Some(
            if pressed {
                HotkeyEvent::DictatePressed
            } else {
                HotkeyEvent::DictateReleased
            },
        )
    } else if action == ACTION_COMMAND@ {
        Some(
            if pressed {
                HotkeyEvent::CommandPressed
            } else {
                HotkeyEvent::CommandReleased
            },
        )
    } else {
        None
    }
}

/// The event of a press or release; None for other components and for
/// actions that are not ours.
pub fn decode(pressed: bool, component: &str, action: &str) -> (r: Option<HotkeyEvent>)
    ensures
        r == event_of(pressed, component@, action@),
{
    if !same(component, COMPONENT) {
        None
    } else if same(action, ACTION_DICTATE) {
        Some(
            if pressed {
                HotkeyEvent::DictatePressed
            } else {
                HotkeyEvent::DictateReleased
            },
        )
    } else if same(action, ACTION_COMMAND) {
        Some(
            if pressed {
                HotkeyEvent::CommandPressed
            } else {
                HotkeyEvent::CommandReleased
            },
        )
    } else {
        None
    }
}

/// The modifiers go by these names and no others, each by its own bit.
pub proof fn law_modifiers_by_name(part: Seq<char>, c: Chord)
    ensures
        modifier_of(part) == Some(Modifier::Ctrl) <==> part == "ctrl"@ || part == "control"@,
        modifier_of(part) == Some(Modifier::Shift) <==> part == "shift"@,
        modifier_of(part) == Some(Modifier::Alt) <==> part == "alt"@,
        modifier_of(part) == Some(Modifier::Meta) <==> part == "meta"@ || part == "super"@ || part
            == "win"@,
        (Chord { ctrl: true, ..c }).modifiers() - (Chord { ctrl: false, ..c }).modifiers()
            == 0x0400_0000,
        (Chord { shift: true, ..c }).modifiers() - (Chord { shift: false, ..c }).modifiers()
            == 0x0200_0000,
        (Chord { alt: true, ..c }).modifiers() - (Chord { alt: false, ..c }).modifiers()
            == 0x0800_0000,
        (Chord { meta: true, ..c }).modifiers() - (Chord { meta: false, ..c }).modifiers()
            == 0x1000_0000,
        (Chord { ctrl: false, shift: false, alt: false, meta: false, ..c }).modifiers() == 0,
{
    reveal_strlit("ctrl");
    reveal_strlit("control");
    reveal_strlit("shift");
    reveal_strlit("alt");
    reveal_strlit("meta");
    reveal_strlit("super");
    reveal_strlit("win");
    assert("ctrl"@.len() == 4 && "control"@.len() == 7 && "shift"@.len() == 5);
    assert("alt"@.len() == 3 && "meta"@.len() == 4 && "super"@.len() == 5 && "win"@.len() == 3);
    assert("ctrl"@[0] == 'c' && "meta"@[0] == 'm' && "alt"@[0] == 'a' && "win"@[0] == 'w');
    assert("shift"@[1] == 'h' && "super"@[1] == 'u');
}

/// A single letter or digit is the key it is written on.
pub proof fn law_characters_are_their_keys(c: char)
    ensures
        97 <= c as u32 <= 122 ==> main_key_of(seq![c]) == Some((c as u32 - 32) as u32),
        48 <= c as u32 <= 57 ==> main_key_of(seq![c]) == Some(c as u32),
{
    let part = seq![c];
    assert(part.len() == 1 && part[0] == c);
    reveal_strlit("space");
    reveal_strlit("enter");
    reveal_strlit("return");
    reveal_strlit("tab");
    reveal_strlit("escape");
    reveal_strlit("esc");
    reveal_strlit("backspace");
    reveal_strlit("delete");
    reveal_strlit("del");
    reveal_strlit("up");
    reveal_strlit("down");
    reveal_strlit("left");
    reveal_strlit("right");
    reveal_strlit("f1");
    reveal_strlit("f2");
    reveal_strlit("f3");
    reveal_strlit("f4");
    reveal_strlit("f5");
    reveal_strlit("f6");
    reveal_strlit("f7");
    reveal_strlit("f8");
    reveal_strlit("f9");
    reveal_strlit("f10");
    reveal_strlit("f11");
    reveal_strlit("f12");
}

/// A press or release is the one of the action that was named, and only of this
/// program's own.
pub proof fn law_events_are_of_their_action(pressed: bool, component: Seq<char>, action: Seq<char>)
    ensures
        event_of(pressed, component, action) == Some(HotkeyEvent::DictatePressed) <==> component
            == "parla"@ && action == "dictate"@ && pressed,
        event_of(pressed, component, action) == Some(HotkeyEvent::DictateReleased) <==> component
            == "parla"@ && action == "dictate"@ && !pressed,
        event_of(pressed, component, action) == Some(HotkeyEvent::CommandPressed) <==> component
            == "parla"@ && action == "command"@ && pressed,
        event_of(pressed, component, action) == Some(HotkeyEvent::CommandReleased) <==> component
            == "parla"@ && action == "command"@ && !pressed,
{
    reveal_strlit("dictate");
    reveal_strlit("command");
    assert("dictate"@[0] != "command"@[0]);
}

/// A part that is no key is refused by how it is written, a second main key is
/// refused, and what was refused before stays refused.
pub proof fn law_refused_parts_are_named(parts: Seq<ChordPartView>, p: ChordPartView)
    ensures
        chord_of(parts) is Ok && modifier_of(p.lower) is None && main_key_of(p.lower) is None
            ==> combination(parts.push(p)) == Err::<u32, ChordErrorView>(
            (ChordErrorView::BadPart { part: p.written }),
        ),
        combination(parts) is Ok && names_key(p) ==> combination(parts.push(p)) == Err::<
            u32,
            ChordErrorView,
        >(ChordErrorView::ManyKeys),
        chord_of(parts) matches Err(e) ==> combination(parts.push(p)) == Err::<
            u32,
            ChordErrorView,
        >(e),
        combination(parts) is Ok && modifier_of(p.lower) is Some ==> combination(
            parts.push(p),
        ) is Ok,
{
    assert(parts.push(p).drop_last() =~= parts);
}

/// Modifiers alone are no chord.
pub proof fn law_modifiers_alone_are_refused(parts: Seq<ChordPartView>)
    requires
        forall|i: int| 0 <= i < parts.len() ==> modifier_of((#[trigger] parts[i]).lower) is Some,
    ensures
        chord_of(parts) is Ok,
        combination(parts) == Err::<u32, ChordErrorView>(ChordErrorView::NoKey),
    decreases parts.len(),
{
    if parts.len() > 0 {
        let front = parts.drop_last();
        assert forall|i: int| 0 <= i < front.len() implies modifier_of(
            (#[trigger] front[i]).lower,
        ) is Some by {
            assert(front[i] == parts[i]);
        }
        law_modifiers_alone_are_refused(front);
        assert(modifier_of(parts[parts.len() - 1].lower) is Some);
    }
}

/// The parts of a chord are read one by one, without the whitespace around
/// them and in lower case, and a blank one is passed over.
pub proof fn law_parts_are_read_one_by_one(pieces: Seq<Seq<char>>, piece: Seq<char>)
    ensures
        ({
            let t = crate::text::trimmed(piece);
            let (before, after) = (written_parts(pieces), written_parts(pieces.push(piece)));
            &&& t.len() == 0 ==> after == before
            &&& t.len() > 0 ==> after.len() == before.len() + 1 && after.drop_last() == before
                && after.last().written == t && after.last().lower == crate::text::lowered(t)
        }),
{
    assert(pieces.push(piece).drop_last() =~= pieces);
    let after = written_parts(pieces.push(piece));
    if crate::text::trimmed(piece).len() > 0 {
        assert(after.drop_last() =~= written_parts(pieces));
    }
}

} // verus!
