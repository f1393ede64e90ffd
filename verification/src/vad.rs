//! Which part of a capture is worth transcribing.
//!
//! The recogniser hears words in silence and noise, so a capture is cut to
//! where speech is, held to a shortest duration, and dropped when there is no
//! speech in it. One gate takes the speech segments a model finds; the other,
//! used without the model or when it fails, goes by the loudness of frames of
//! 30 ms.
use vstd::prelude::*;

use crate::text::{concat3, decimal_text};

verus! {

/// Which gate is in use.
#[derive(Clone, Debug, PartialEq, Eq)]
pub enum Gate {
    /// The model at this path.
    Silero { path: String },
    /// Loudness alone, and why.
    Energy { reason: String },
}

impl Gate {
    /// What a model file comes to. A missing or unreadable one means loudness
    /// alone and does not stop the daemon; `error` is why loading it failed.
    pub fn for_model(path: &str, exists: bool, error: Option<&str>) -> (r: Gate)
        ensures
            match r {
                Gate::Silero { path: p } => exists && error is None && p@ == path@,
                Gate::Energy { reason } => if !exists {
                    reason@ == "no model at "@ + path@ + ", run scripts/fetch-model.sh"@
                } else {
                    error matches Some(e) && reason@ == "failed to load "@ + path@ + ": "@ + e@
                },
            },
    {
        if !exists {
            return Gate::Energy {
                reason: concat3("no model at ", path, ", run scripts/fetch-model.sh"),
            };
        }
        match error {
            None => Gate::Silero { path: path.to_string() },
            Some(e) => {
                let mut reason = concat3("failed to load ", path, ": ");
                reason.append(e);
                Gate::Energy { reason }
            },
        }
    }

    /// One line that says which gate is in use.
    pub fn describe(&self) -> (r: String)
        ensures
            r@ == match *self {
                Gate::Silero { path } => "silero ("@ + path@ + ")"@,
                Gate::Energy { reason } => "energy gate ("@ + reason@ + ")"@,
            },
    {
        match self {
            Gate::Silero { path } => concat3("silero (", path.as_str(), ")"),
            Gate::Energy { reason } => concat3("energy gate (", reason.as_str(), ")"),
        }
    }
}

/// Samples in a frame of 30 ms, at least one.
pub open spec fn frame_of(rate: u32) -> int {
    let n = rate * 30 / 1000;
    if n == 0 {
        1
    } else {
        n
    }
}

/// Samples in a frame of 30 ms, at least one.
pub fn frame_len(rate: u32) -> (n: usize)
    ensures
        n == frame_of(rate),
{
    let n: u64 = rate as u64 * 30 / 1000;
    if n == 0 {
        1
    } else {
        n as usize
    }
}

/// The first frame that is loud.
pub open spec fn first_loud(loud: Seq<bool>) -> Option<int>
    decreases loud.len(),
{
    if loud.len() == 0 {
        None
    } else if loud[0] {
        Some(0int)
    } else {
        match first_loud(loud.drop_first()) {
            Some(i) => Some(i + 1),
            None => None,
        }
    }
}

/// The last frame that is loud.
pub open spec fn last_loud(loud: Seq<bool>) -> Option<int>
    decreases loud.len(),
{
    if loud.len() == 0 {
        None
    } else if loud.last() {
        Some(loud.len() - 1)
    } else {
        last_loud(loud.drop_last())
    }
}

/// The smaller of two numbers.
pub open spec fn least(a: int, b: int) -> int {
    if a < b {
        a
    } else {
        b
    }
}

/// The samples from the first loud frame to the last, of `len` in frames of
/// `frame`; None when no frame is loud. A dip between two loud frames stays,
/// so it cuts no words.
pub open spec fn loud_span(loud: Seq<bool>, frame: int, len: int) -> Option<(int, int)> {
    match (first_loud(loud), last_loud(loud)) {
        (Some(f), Some(l)) => Some((least(f * frame, len), least((l + 1) * frame, len))),
        _ => None,
    }
}

proof fn lemma_first_loud(loud: Seq<bool>, n: int)
    requires
        0 <= n <= loud.len(),
        forall|i: int| 0 <= i < n ==> !(#[trigger] loud[i]),
        n < loud.len() ==> loud[n],
    ensures
        first_loud(loud) == if n < loud.len() {
            Some(n)
        } else {
            None
        },
    decreases loud.len(),
{
    if loud.len() > 0 && n > 0 {
        assert(!loud[0]);
        assert forall|i: int| 0 <= i < n - 1 implies !(#[trigger] loud.drop_first()[i]) by {
            assert(!loud[i + 1]);
        }
        lemma_first_loud(loud.drop_first(), n - 1);
    }
}

proof fn lemma_last_loud(loud: Seq<bool>, n: int)
    requires
        0 <= n <= loud.len(),
        forall|i: int| n <= i < loud.len() ==> !(#[trigger] loud[i]),
        n > 0 ==> loud[n - 1],
    ensures
        last_loud(loud) == if n > 0 {
            Some(n - 1)
        } else {
            None
        },
    decreases loud.len(),
{
    if loud.len() > 0 && n < loud.len() {
        assert(!loud[loud.len() - 1]);
        lemma_last_loud(loud.drop_last(), n);
    }
}

/// The samples from the first loud frame to the last. `loud` says for each
/// frame of `frame` samples whether it is loud.
pub fn trim_span(loud: &Vec<bool>, frame: usize, len: usize) -> (r: Option<(usize, usize)>)
    ensures
        match r {
            Some((start, end)) => loud_span(loud@, frame as int, len as int) == Some(
                (start as int, end as int),
            ) && start <= end <= len,
            None => loud_span(loud@, frame as int, len as int) is None,
        },
{
    let mut f: usize = 0;
    while f < loud.len() && !loud[f]
        invariant
            f <= loud@.len(),
            forall|i: int| 0 <= i < f ==> !(#[trigger] loud@[i]),
        decreases loud@.len() - f,
    {
        f = f + 1;
    }
    proof {
        lemma_first_loud(loud@, f as int);
    }
    if f == loud.len() {
        return None;
    }
    let mut n: usize = loud.len();
    while n > f + 1 && !loud[n - 1]
        invariant
            f < n <= loud@.len(),
            loud@[f as int],
            forall|i: int| n <= i < loud@.len() ==> !(#[trigger] loud@[i]),
        decreases n,
    {
        n = n - 1;
    }
    proof {
        lemma_last_loud(loud@, n as int);
        assert(f * frame <= n * frame) by (nonlinear_arith)
            requires
                f < n,
        ;
        assert(0 <= f * frame <= 0xffff_ffff_ffff_ffff_0000_0000_0000_0000) by (nonlinear_arith)
            requires
                0 <= f <= 0xffff_ffff_ffff_ffff,
                0 <= frame <= 0xffff_ffff_ffff_ffff,
        ;
        assert(0 <= n * frame <= 0xffff_ffff_ffff_ffff_0000_0000_0000_0000) by (nonlinear_arith)
            requires
                0 <= n <= 0xffff_ffff_ffff_ffff,
                0 <= frame <= 0xffff_ffff_ffff_ffff,
        ;
    }
    let a: u128 = f as u128 * frame as u128;
    let b: u128 = n as u128 * frame as u128;
    let start: usize = if a < len as u128 {
        a as usize
    } else {
        len
    };
    let end: usize = if b < len as u128 {
        b as usize
    } else {
        len
    };
    Some((start, end))
}

/// Every loud frame lies in the span that is kept.
pub proof fn law_no_loud_frame_is_cut(loud: Seq<bool>, frame: int, len: int, k: int)
    requires
        frame > 0,
        0 <= k < loud.len(),
        loud[k],
        k * frame < len,
    ensures
        loud_span(loud, frame, len) matches Some((start, end)) && start <= k * frame && least(
            (k + 1) * frame,
            len,
        ) <= end,
{
    lemma_loud_bounds(loud, k);
    let f = first_loud(loud)->0;
    let l = last_loud(loud)->0;
    assert(f * frame <= k * frame) by (nonlinear_arith)
        requires
            f <= k,
            frame > 0,
    ;
    assert((k + 1) * frame <= (l + 1) * frame) by (nonlinear_arith)
        requires
            k <= l,
            frame > 0,
    ;
}

proof fn lemma_loud_bounds(loud: Seq<bool>, k: int)
    requires
        0 <= k < loud.len(),
        loud[k],
    ensures
        first_loud(loud) matches Some(f) && f <= k,
        last_loud(loud) matches Some(l) && k <= l,
    decreases loud.len(),
{
    if k > 0 {
        assert(loud.drop_first()[k - 1]);
        lemma_first_bound(loud, k);
    }
    if k < loud.len() - 1 {
        lemma_last_bound(loud, k);
    }
}

proof fn lemma_first_bound(loud: Seq<bool>, k: int)
    requires
        0 <= k < loud.len(),
        loud[k],
    ensures
        first_loud(loud) matches Some(f) && f <= k,
    decreases loud.len(),
{
    if k > 0 && !loud[0] {
        lemma_first_bound(loud.drop_first(), k - 1);
    }
}

proof fn lemma_last_bound(loud: Seq<bool>, k: int)
    requires
        0 <= k < loud.len(),
        loud[k],
    ensures
        last_loud(loud) matches Some(l) && k <= l,
    decreases loud.len(),
{
    if k < loud.len() - 1 && !loud.last() {
        lemma_last_bound(loud.drop_last(), k);
    }
}

/// The samples of the speech a model found from sample `first` to sample
/// `last`, held to the capture; None when nothing is left.
pub fn speech_span(first: usize, last: usize, len: usize) -> (r: Option<(usize, usize)>)
    ensures
        r == ({
            let start = if first < len {
                first
            } else {
                len
            };
            let end = if last < start {
                start
            } else if last > len {
                len
            } else {
                last
            };
            if start == end {
                None
            } else {
                Some((start, end))
            }
        }),
{
    let start: usize = if first < len {
        first
    } else {
        len
    };
    let end: usize = if last < start {
        start
    } else if last > len {
        len
    } else {
        last
    };
    if start == end {
        None
    } else {
        Some((start, end))
    }
}

/// The shortest run of speech the model is asked for: it drops shorter runs
/// than 250 ms on its own, which would put a smaller setting out of reach.
pub fn min_speech_ms(min_utterance_ms: u64) -> (r: i32)
    ensures
        r == if min_utterance_ms < 250 {
            min_utterance_ms as int
        } else {
            250
        },
{
    if min_utterance_ms < 250 {
        min_utterance_ms as i32
    } else {
        250
    }
}

/// Why a capture is not transcribed.
#[derive(Clone, Copy, Debug, PartialEq, Eq, Structural)]
pub enum Rejected {
    /// No frame is loud enough.
    NoEnergy,
    /// The model found no speech.
    NoSpeech,
    /// Too little of it is left.
    TooShort { ms: u64, min: u64 },
}

impl Rejected {
    /// What is said of it, where `peak` is the loudness of the loudest frame.
    pub fn text(self, peak: &str) -> (r: String)
        ensures
            r@ == match self {
                Rejected::NoEnergy => "no speech above threshold (peak rms "@ + peak@ + ")"@,
                Rejected::NoSpeech => "no speech detected (peak rms "@ + peak@ + ")"@,
                Rejected::TooShort { ms, min } => "utterance too short ("@ + crate::text::decimal(
                    ms as nat,
                ) + " ms < "@ + crate::text::decimal(min as nat) + " ms)"@,
            },
    {
        match self {
            Rejected::NoEnergy => concat3("no speech above threshold (peak rms ", peak, ")"),
            Rejected::NoSpeech => concat3("no speech detected (peak rms ", peak, ")"),
            Rejected::TooShort { ms, min } => {
                let a = decimal_text(ms);
                let b = decimal_text(min);
                let mut out = concat3("utterance too short (", a.as_str(), " ms < ");
                out.append(b.as_str());
                out.append(" ms)");
                out
            },
        }
    }
}

/// The duration policy: how many of `len` samples are kept, or that they are
/// too short.
pub open spec fn kept_of(len: int, rate: u32, min_ms: u64, max_ms: u64) -> Result<int, Rejected> {
    let ms = len * 1000 / rate as int;
    if ms < min_ms {
        Err(Rejected::TooShort { ms: ms as u64, min: min_ms })
    } else {
        Ok(least(len, (rate / 1000) * max_ms))
    }
}

/// The duration policy both gates share: drop a trimmed capture shorter than
/// `min_ms`, keep at most the first `max_ms`.
pub fn finish(len: usize, rate: u32, min_ms: u64, max_ms: u64) -> (r: Result<usize, Rejected>)
    requires
        rate > 0,
        len * 1000 / rate as int <= u64::MAX,
    ensures
        match r {
            Ok(n) => kept_of(len as int, rate, min_ms, max_ms) == Ok::<int, Rejected>(n as int)
                && n <= len,
            Err(e) => kept_of(len as int, rate, min_ms, max_ms) == Err::<int, Rejected>(e),
        },
{
    let ms: u64 = (len as u128 * 1000 / rate as u128) as u64;
    if ms < min_ms {
        return Err(Rejected::TooShort { ms, min: min_ms });
    }
    assert(0 <= (rate / 1000) * max_ms <= 0xffff_ffff_ffff_ffff_0000_0000_0000) by (nonlinear_arith)
        requires
            0 <= rate / 1000 <= 0xffff_ffff,
            0 <= max_ms <= 0xffff_ffff_ffff_ffff,
    ;
    let max: u128 = (rate / 1000) as u128 * max_ms as u128;
    if (len as u128) < max {
        Ok(len)
    } else {
        Ok(max as usize)
    }
}

/// The part of a capture that the energy gate lets through: where it starts
/// and ends.
pub open spec fn energy_of(
    loud: Seq<bool>,
    len: int,
    rate: u32,
    min_ms: u64,
    max_ms: u64,
) -> Result<(int, int), Rejected> {
    match loud_span(loud, frame_of(rate), len) {
        None => Err(Rejected::NoEnergy),
        Some((start, end)) => if start == end {
            Err(Rejected::NoEnergy)
        } else {
            match kept_of(end - start, rate, min_ms, max_ms) {
                Ok(n) => Ok((start, start + n)),
                Err(e) => Err(e),
            }
        },
    }
}

/// The energy gate: trim by loudness, then the duration policy. `loud` says
/// for each frame of [`frame_len`] samples whether it is loud.
pub fn validate(loud: &Vec<bool>, len: usize, rate: u32, min_ms: u64, max_ms: u64) -> (r: Result<
    (usize, usize),
    Rejected,
>)
    requires
        rate > 0,
        len * 1000 <= u64::MAX,
    ensures
        match r {
            Ok((start, end)) => energy_of(loud@, len as int, rate, min_ms, max_ms) == Ok::<
                (int, int),
                Rejected,
            >((start as int, end as int)) && start <= end <= len,
            Err(e) => energy_of(loud@, len as int, rate, min_ms, max_ms) == Err::<
                (int, int),
                Rejected,
            >(e),
        },
{
    match trim_span(loud, frame_len(rate), len) {
        None => Err(Rejected::NoEnergy),
        Some((start, end)) => {
            if start == end {
                return Err(Rejected::NoEnergy);
            }
            proof {
                let n = (end - start) * 1000;
                assert(n / rate as int <= n) by (nonlinear_arith)
                    requires
                        n >= 0,
                        rate > 0,
                ;
            }
            match finish(end - start, rate, min_ms, max_ms) {
                Ok(n) => Ok((start, start + n)),
                Err(e) => Err(e),
            }
        },
    }
}

/// What is let through is never longer than allowed, and never shorter than
/// asked for before it is cut to that.
pub proof fn law_durations_are_held(len: int, rate: u32, min_ms: u64, max_ms: u64)
    requires
        len >= 0,
        rate > 0,
    ensures
        kept_of(len, rate, min_ms, max_ms) matches Ok(n) ==> n <= len && n <= (rate / 1000) * max_ms
            && len * 1000 / rate as int >= min_ms,
{
}

/// What is kept starts with the first loud frame and ends with the last: every
/// frame before and after is quiet. Nothing is kept only where every frame is.
pub proof fn law_span_is_from_loud_to_loud(loud: Seq<bool>, frame: int, len: int)
    ensures
        match loud_span(loud, frame, len) {
            None => forall|i: int| 0 <= i < loud.len() ==> !(#[trigger] loud[i]),
            Some((start, end)) => exists|f: int, l: int|
                #![trigger loud[f], loud[l]]
                0 <= f <= l < loud.len() && loud[f] && loud[l] && (forall|i: int|
                    0 <= i < f || l < i < loud.len() ==> !(#[trigger] loud[i])) && start == least(
                    f * frame,
                    len,
                ) && end == least((l + 1) * frame, len),
        },
{
    lemma_first_is_loud(loud);
    lemma_last_is_loud(loud);
    if let (Some(f), Some(l)) = (first_loud(loud), last_loud(loud)) {
        assert(loud[f] && loud[l]);
    }
}

proof fn lemma_first_is_loud(loud: Seq<bool>)
    ensures
        match first_loud(loud) {
            Some(f) => 0 <= f < loud.len() && loud[f] && forall|i: int|
                0 <= i < f ==> !(#[trigger] loud[i]),
            None => forall|i: int| 0 <= i < loud.len() ==> !(#[trigger] loud[i]),
        },
    decreases loud.len(),
{
    if loud.len() > 0 && !loud[0] {
        let t = loud.drop_first();
        lemma_first_is_loud(t);
        assert forall|i: int| 0 < i < loud.len() implies #[trigger] loud[i] == t[i - 1] by {}
    }
}

proof fn lemma_last_is_loud(loud: Seq<bool>)
    ensures
        match last_loud(loud) {
            Some(l) => 0 <= l < loud.len() && loud[l] && forall|i: int|
                l < i < loud.len() ==> !(#[trigger] loud[i]),
            None => forall|i: int| 0 <= i < loud.len() ==> !(#[trigger] loud[i]),
        },
    decreases loud.len(),
{
    if loud.len() > 0 && !loud.last() {
        let t = loud.drop_last();
        lemma_last_is_loud(t);
        assert forall|i: int| 0 <= i < loud.len() - 1 implies #[trigger] loud[i] == t[i] by {}
    }
}

/// A quiet capture is refused as such, one that is too short as such, and any
/// other is let through from where its speech starts.
pub proof fn law_speech_that_lasts_is_let_through(
    loud: Seq<bool>,
    len: int,
    rate: u32,
    min_ms: u64,
    max_ms: u64,
)
    ensures
        match loud_span(loud, frame_of(rate), len) {
            None => energy_of(loud, len, rate, min_ms, max_ms) == Err::<(int, int), Rejected>(
                Rejected::NoEnergy,
            ),
            Some((start, end)) => {
                &&& start == end ==> energy_of(loud, len, rate, min_ms, max_ms) is Err
                &&& start != end && (end - start) * 1000 / rate as int >= min_ms ==> energy_of(
                    loud,
                    len,
                    rate,
                    min_ms,
                    max_ms,
                ) == Ok::<(int, int), Rejected>(
                    (start, start + least(end - start, (rate / 1000) * max_ms)),
                )
                &&& start != end && (end - start) * 1000 / (rate as int) < min_ms ==> energy_of(
                    loud,
                    len,
                    rate,
                    min_ms,
                    max_ms,
                ) is Err && energy_of(loud, len, rate, min_ms, max_ms)->Err_0 is TooShort
            },
        },
        frame_of(rate) >= 1,
        rate >= 34 ==> frame_of(rate) * 1000 <= rate * 30 < (frame_of(rate) + 1) * 1000,
{
}

} // verus!
