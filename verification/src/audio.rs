//! Captured audio on its way to the recogniser: from the device's rate to
//! 16 kHz, in whatever pieces the device hands it over.
//!
//! Output sample `i` is the mean of the input samples from
//! `floor(i * ratio)` up to `floor((i + 1) * ratio)`, counted from the start of
//! the stream, where the ratio is that of the two rates. The phase is carried
//! from one piece to the next, so the pieces make no difference. The mean
//! itself is taken of the samples handed back here.
use vstd::prelude::*;

use crate::text::{concat3, contains, quoted};

verus! {

/// Where the window of output sample `i` starts.
pub open spec fn start_of(i: nat, src: u32, dst: u32) -> nat
    recommends
        dst > 0,
{
    (i * src as nat) / dst as nat
}

/// Where the window of output sample `i` ends: where the next one starts, but
/// never before it holds a sample.
pub open spec fn end_of(i: nat, src: u32, dst: u32) -> nat
    recommends
        dst > 0,
{
    let start = start_of(i, src, dst);
    let next = start_of(i + 1, src, dst);
    if next > start {
        next
    } else {
        start + 1
    }
}

/// The input samples of each output sample from number `i` on that a stream of
/// the input `all` has brought.
pub open spec fn windows_from<T>(all: Seq<T>, i: nat, src: u32, dst: u32) -> Seq<Seq<T>>
    decreases all.len() * dst - i * src + src,
    when src > 0 && dst > 0
    via windows_from_decreases::<T>
{
    if end_of(i, src, dst) > all.len() {
        Seq::empty()
    } else {
        seq![all.subrange(start_of(i, src, dst) as int, end_of(i, src, dst) as int)]
            + windows_from(all, i + 1, src, dst)
    }
}

#[via_fn]
proof fn windows_from_decreases<T>(all: Seq<T>, i: nat, src: u32, dst: u32) {
    if end_of(i, src, dst) <= all.len() {
        lemma_room(i, all.len(), src, dst);
    }
}

/// A window that is complete starts before the end of the input.
proof fn lemma_room(i: nat, len: nat, src: u32, dst: u32)
    requires
        src > 0,
        dst > 0,
        end_of(i, src, dst) <= len,
    ensures
        i * src < len * dst,
        (i + 1) * src == i * src + src,
{
    let s = start_of(i, src, dst);
    assert(s < len);
    let n = i * src as nat;
    assert(n < (s + 1) * dst as nat) by (nonlinear_arith)
        requires
            s == n / dst as nat,
            dst > 0,
    ;
    assert((s + 1) * dst as nat <= len * dst as nat) by (nonlinear_arith)
        requires
            s + 1 <= len,
    ;
    assert((i + 1) * src == i * src + src) by (nonlinear_arith);
}

/// The input samples of each output sample that a stream of the input `all`
/// has brought.
pub open spec fn windows<T>(all: Seq<T>, src: u32, dst: u32) -> Seq<Seq<T>> {
    windows_from(all, 0, src, dst)
}

/// The views of a list of windows.
pub open spec fn window_samples<T>(v: Seq<Vec<T>>) -> Seq<Seq<T>> {
    v.map_values(|w: Vec<T>| w@)
}

/// A window starts no earlier than the one before, and no later than where
/// that one ends.
proof fn lemma_starts(i: nat, src: u32, dst: u32)
    requires
        src > 0,
        dst > 0,
    ensures
        start_of(i, src, dst) <= start_of(i + 1, src, dst) <= end_of(i, src, dst),
        start_of(i, src, dst) < end_of(i, src, dst),
{
    let a = i * src as nat;
    let b = (i + 1) * src as nat;
    assert(a <= b) by (nonlinear_arith)
        requires
            a == i * src as nat,
            b == (i + 1) * src as nat,
    ;
    assert(a / dst as nat <= b / dst as nat) by (nonlinear_arith)
        requires
            a <= b,
            dst > 0,
    ;
}

/// How far behind the exact start of the window of output sample `i` its first
/// sample lies, in parts of which `dst` make one sample.
pub open spec fn phase_of(i: nat, src: u32, dst: u32) -> nat
    recommends
        dst > 0,
{
    (i * src as nat) % dst as nat
}

/// The stream starts with the first window.
proof fn lemma_first_start(src: u32, dst: u32)
    requires
        dst > 0,
    ensures
        start_of(0, src, dst) == 0,
        phase_of(0, src, dst) == 0,
{
    assert(0nat * src as nat == 0) by (nonlinear_arith);
    vstd::arithmetic::div_mod::lemma_fundamental_div_mod_converse(0, dst as int, 0, 0);
}

/// From one window to the next only the phase counts.
proof fn lemma_step(i: nat, src: u32, dst: u32)
    requires
        dst > 0,
    ensures
        phase_of(i, src, dst) < dst,
        start_of(i + 1, src, dst) == start_of(i, src, dst) + (phase_of(i, src, dst) + src) / (
        dst as int),
        phase_of(i + 1, src, dst) == (phase_of(i, src, dst) + src) % (dst as int),
        phase_of(i, src, dst) + src == ((phase_of(i, src, dst) + src) / (dst as int)) * dst + (
        phase_of(i, src, dst) + src) % (dst as int),
{
    let d = dst as int;
    let n = (i * src as nat) as int;
    let m = n % d + src;
    let (q, step) = (n / d, m / d);
    assert((i + 1) * src as nat == n + src) by (nonlinear_arith)
        requires
            n == i * src as nat,
    ;
    vstd::arithmetic::div_mod::lemma_fundamental_div_mod(n, d);
    vstd::arithmetic::div_mod::lemma_fundamental_div_mod(m, d);
    assert(n + src == (q + step) * d + m % d) by (nonlinear_arith)
        requires
            n == d * q + (m - src),
            m == d * step + m % d,
    ;
    assert(d * step == step * d) by (nonlinear_arith);
    vstd::arithmetic::div_mod::lemma_fundamental_div_mod_converse(n + src, d, q + step, m % d);
}

/// What was complete stays as it was when more input comes.
proof fn lemma_more_input<T>(all: Seq<T>, more: Seq<T>, i: nat, src: u32, dst: u32)
    requires
        src > 0,
        dst > 0,
    ensures
        ({
            let n = windows_from(all, i, src, dst).len();
            windows_from(all + more, i, src, dst) == windows_from(all, i, src, dst) + windows_from(
                all + more,
                i + n,
                src,
                dst,
            )
        }),
        end_of(i + windows_from(all, i, src, dst).len(), src, dst) > all.len(),
    decreases all.len() * dst - i * src + src,
{
    if end_of(i, src, dst) > all.len() {
        assert(windows_from(all, i, src, dst).len() == 0);
        assert(windows_from(all, i, src, dst) + windows_from(all + more, i, src, dst)
            =~= windows_from(all + more, i, src, dst));
    } else {
        lemma_room(i, all.len(), src, dst);
        lemma_starts(i, src, dst);
        lemma_more_input(all, more, i + 1, src, dst);
        let (s, e) = (start_of(i, src, dst) as int, end_of(i, src, dst) as int);
        assert((all + more).subrange(s, e) =~= all.subrange(s, e));
        let n = windows_from(all, i + 1, src, dst).len();
        assert(windows_from(all, i, src, dst).len() == n + 1);
        assert(windows_from(all + more, i, src, dst) =~= windows_from(all, i, src, dst)
            + windows_from(all + more, i + 1 + n, src, dst));
    }
}

/// Feeding a stream piece by piece brings exactly what one pass over all of it
/// would: the windows of the first piece, and then those that the second
/// completes.
pub proof fn law_pieces_make_no_difference<T>(all: Seq<T>, more: Seq<T>, src: u32, dst: u32)
    requires
        src > 0,
        dst > 0,
    ensures
        windows(all + more, src, dst) == windows(all, src, dst) + windows_from(
            all + more,
            windows(all, src, dst).len(),
            src,
            dst,
        ),
{
    lemma_more_input(all, more, 0, src, dst);
}

/// What two calls hand back for two pieces of a stream, one after the other, is
/// what one call hands back for both at once.
pub proof fn law_two_pieces_are_one<T>(
    x: Seq<T>,
    y: Seq<T>,
    src: u32,
    dst: u32,
    first: Seq<Seq<T>>,
    second: Seq<Seq<T>>,
    both: Seq<Seq<T>>,
)
    requires
        src > 0,
        dst > 0,
        windows(x, src, dst) == windows(Seq::<T>::empty(), src, dst) + first,
        windows(x + y, src, dst) == windows(x, src, dst) + second,
        windows(x + y, src, dst) == windows(Seq::<T>::empty(), src, dst) + both,
    ensures
        first + second == both,
{
    lemma_starts(0, src, dst);
    assert(windows(Seq::<T>::empty(), src, dst) =~= Seq::empty());
    assert(Seq::<Seq<T>>::empty() + first =~= first);
    assert(Seq::<Seq<T>>::empty() + both =~= both);
}

/// Output sample `i` is made of the input samples of its own window, wherever
/// the stream was cut, and the stream brings every window that it completes.
pub proof fn law_each_sample_has_its_window<T>(all: Seq<T>, src: u32, dst: u32)
    requires
        src > 0,
        dst > 0,
    ensures
        forall|i: int|
            0 <= i < windows(all, src, dst).len() ==> (#[trigger] windows(all, src, dst)[i])
                == all.subrange(
                start_of(i as nat, src, dst) as int,
                end_of(i as nat, src, dst) as int,
            ),
        end_of(windows(all, src, dst).len(), src, dst) > all.len(),
        dst <= src ==> forall|i: nat| #[trigger]
            end_of(i, src, dst) == start_of(i + 1, src, dst),
{
    lemma_windows_at(all, 0, src, dst);
    lemma_more_input(all, Seq::empty(), 0, src, dst);
    if dst <= src {
        assert forall|i: nat| #[trigger] end_of(i, src, dst) == start_of(i + 1, src, dst) by {
            lemma_step(i, src, dst);
            let m = phase_of(i, src, dst) + src;
            assert(m / (dst as int) >= 1) by (nonlinear_arith)
                requires
                    m >= dst,
                    dst > 0,
            ;
        }
    }
}

proof fn lemma_windows_at<T>(all: Seq<T>, from: nat, src: u32, dst: u32)
    requires
        src > 0,
        dst > 0,
    ensures
        forall|i: int|
            0 <= i < windows_from(all, from, src, dst).len() ==> (#[trigger] windows_from(
                all,
                from,
                src,
                dst,
            )[i]) == all.subrange(
                start_of((from + i) as nat, src, dst) as int,
                end_of((from + i) as nat, src, dst) as int,
            ),
    decreases all.len() * dst - from * src + src,
{
    if end_of(from, src, dst) <= all.len() {
        lemma_room(from, all.len(), src, dst);
        lemma_windows_at(all, from + 1, src, dst);
        let rest = windows_from(all, from + 1, src, dst);
        assert forall|i: int|
            0 <= i < windows_from(all, from, src, dst).len() implies (#[trigger] windows_from(
            all,
            from,
            src,
            dst,
        )[i]) == all.subrange(
            start_of((from + i) as nat, src, dst) as int,
            end_of((from + i) as nat, src, dst) as int,
        ) by {
            if i > 0 {
                assert(windows_from(all, from, src, dst)[i] == rest[i - 1]);
            }
        }
    }
}

/// With equal rates every sample stands alone and unchanged.
pub proof fn law_equal_rates_pass_through<T>(all: Seq<T>, i: nat, rate: u32)
    requires
        rate > 0,
        i <= all.len(),
    ensures
        windows_from(all, i, rate, rate) == Seq::new(
            (all.len() - i) as nat,
            |k: int| seq![all[i + k]],
        ),
    decreases all.len() - i,
{
    assert(start_of(i, rate, rate) == i) by (nonlinear_arith)
        requires
            rate > 0,
            start_of(i, rate, rate) == (i * rate as nat) / rate as nat,
    ;
    assert(start_of(i + 1, rate, rate) == i + 1) by (nonlinear_arith)
        requires
            rate > 0,
            start_of(i + 1, rate, rate) == ((i + 1) * rate as nat) / rate as nat,
    ;
    let wanted = Seq::new((all.len() - i) as nat, |k: int| seq![all[i + k]]);
    if i == all.len() {
        assert(windows_from(all, i, rate, rate) =~= wanted);
    } else {
        law_equal_rates_pass_through(all, i + 1, rate);
        assert(all.subrange(i as int, i as int + 1) =~= seq![all[i as int]]);
        assert(windows_from(all, i, rate, rate) =~= wanted);
    }
}

/// A resampler that carries its phase across calls. Its view is the whole
/// input so far.
pub struct Resampler<T> {
    src: u32,
    dst: u32,
    /// Input samples not yet consumed by a complete window.
    carry: Vec<T>,
    /// How far behind the next window's exact start its first sample lies, in
    /// parts of a sample: `dst` of them make one.
    phase: u32,
    seen: Ghost<Seq<T>>,
}

impl<T> View for Resampler<T> {
    type V = Seq<T>;

    closed spec fn view(&self) -> Seq<T> {
        self.seen@
    }
}

impl<T> Resampler<T> {
    /// The rate of the device.
    pub closed spec fn source(&self) -> u32 {
        self.src
    }

    /// The rate wanted.
    pub closed spec fn target(&self) -> u32 {
        self.dst
    }

    /// The samples carried over to the next call.
    pub closed spec fn carried(&self) -> Seq<T> {
        self.carry@
    }

    /// How many windows the input so far has completed.
    pub closed spec fn done(&self) -> nat {
        windows(self.seen@, self.src, self.dst).len()
    }

    /// The carry is what is left of the input after the windows that are
    /// complete.
    pub closed spec fn wf(&self) -> bool {
        let start = start_of(self.done(), self.src, self.dst);
        &&& self.src > 0
        &&& self.dst > 0
        &&& self.phase == phase_of(self.done(), self.src, self.dst)
        &&& start <= self.seen@.len()
        &&& self.carry@ == self.seen@.skip(start as int)
        &&& end_of(self.done(), self.src, self.dst) > self.seen@.len()
    }
}

impl<T: Copy> Resampler<T> {
    /// A resampler at the start of a stream.
    pub fn new(src_rate: u32, dst_rate: u32) -> (r: Resampler<T>)
        requires
            src_rate > 0,
            dst_rate > 0,
        ensures
            r.wf(),
            r@ == Seq::<T>::empty(),
            r.source() == src_rate,
            r.target() == dst_rate,
    {
        proof {
            lemma_first_start(src_rate, dst_rate);
            lemma_starts(0, src_rate, dst_rate);
            assert(windows(Seq::<T>::empty(), src_rate, dst_rate).len() == 0);
            assert(Seq::<T>::empty().skip(0) =~= Seq::<T>::empty());
        }
        Resampler {
            src: src_rate,
            dst: dst_rate,
            carry: Vec::new(),
            phase: 0,
            seen: Ghost(Seq::empty()),
        }
    }

    /// Take in the next piece of the stream; hand back the input samples of
    /// each output sample that it completes, in order.
    pub fn push(&mut self, input: &Vec<T>) -> (r: Vec<Vec<T>>)
        requires
            old(self).wf(),
        ensures
            final(self).wf(),
            final(self)@ == old(self)@ + input@,
            final(self).source() == old(self).source(),
            final(self).target() == old(self).target(),
            windows(final(self)@, old(self).source(), old(self).target()) == windows(
                old(self)@,
                old(self).source(),
                old(self).target(),
            ) + window_samples(r@),
    {
        let ghost before = self.seen@;
        let ghost all = self.seen@ + input@;
        let ghost first = self.done();
        let ghost (src, dst) = (self.src, self.dst);
        let ghost base = start_of(first, src, dst);
        let mut i: usize = 0;
        while i < input.len()
            invariant
                i <= input@.len(),
                self.carry@ =~= before.skip(base as int) + input@.take(i as int),
                *self == (Resampler { carry: self.carry, ..*old(self) }),
                before == old(self).seen@,
            decreases input@.len() - i,
        {
            self.carry.push(input[i]);
            i = i + 1;
        }
        self.seen = Ghost(all);
        assert(self.carry@ =~= all.skip(base as int));
        let mut out: Vec<Vec<T>> = Vec::new();
        let ghost mut idx: nat = first;
        let mut at: usize = 0;
        let mut phase: u32 = self.phase;
        proof {
            lemma_more_input(before, input@, 0, src, dst);
            assert(window_samples(out@) + windows_from(all, first, src, dst) =~= windows_from(
                all,
                first,
                src,
                dst,
            ));
        }
        let len: usize = self.carry.len();
        loop
            invariant
                *self == (Resampler { carry: self.carry, seen: self.seen, ..*old(self) }),
                self.src == src,
                self.dst == dst,
                src > 0,
                dst > 0,
                base + len == all.len(),
                self.carry@ == all.skip(base as int),
                len == self.carry@.len(),
                at <= len,
                phase < dst,
                phase == phase_of(idx, src, dst),
                start_of(idx, src, dst) == base + at,
                idx == first + out@.len(),
                window_samples(out@) + windows_from(all, idx, src, dst) == windows_from(
                    all,
                    first,
                    src,
                    dst,
                ),
            ensures
                at <= len,
                phase == phase_of(idx, src, dst),
                start_of(idx, src, dst) == base + at,
                idx == first + out@.len(),
                end_of(idx, src, dst) > all.len(),
                windows_from(all, idx, src, dst).len() == 0,
                window_samples(out@) + windows_from(all, idx, src, dst) == windows_from(
                    all,
                    first,
                    src,
                    dst,
                ),
            decreases (len - at) * dst + dst - phase,
        {
            proof {
                lemma_step(idx, src, dst);
                lemma_starts(idx, src, dst);
            }
            let parts: u64 = phase as u64 + self.src as u64;
            let step: u64 = parts / self.dst as u64;
            let rest: u64 = parts % self.dst as u64;
            let width: u64 = if step > 0 {
                step
            } else {
                1
            };
            if width > (len - at) as u64 {
                break;
            }
            let window = slice_of(&self.carry, at, at + width as usize);
            let ghost done = out@;
            out.push(window);
            proof {
                assert(window@ =~= all.subrange(base + at, base + at + width));
                assert(window_samples(out@) =~= window_samples(done) + seq![window@]);
                assert(window_samples(out@) + windows_from(all, idx + 1, src, dst)
                    =~= window_samples(done) + windows_from(all, idx, src, dst));
                assert((len - at - step) * dst + dst - rest < (len - at) * dst + dst - phase)
                    by (nonlinear_arith)
                    requires
                        parts == step * dst + rest,
                        parts == phase + src,
                        src > 0,
                ;
                idx = idx + 1;
            }
            at = at + step as usize;
            phase = rest as u32;
        }
        let rest = slice_of(&self.carry, at, len);
        proof {
            assert(rest@ =~= all.skip(base + at));
            assert(window_samples(out@) + windows_from(all, idx, src, dst)
                =~= window_samples(out@));
            assert(windows(all, src, dst) == windows(before, src, dst) + window_samples(out@));
            assert(windows(all, src, dst).len() == idx);
        }
        self.carry = rest;
        self.phase = phase;
        out
    }

    /// How many samples are carried over to the next call.
    pub fn carried_over(&self) -> (n: usize)
        ensures
            n == self.carried().len(),
    {
        self.carry.len()
    }
}

fn slice_of<T: Copy>(v: &Vec<T>, from: usize, to: usize) -> (r: Vec<T>)
    requires
        from <= to <= v@.len(),
    ensures
        r@ == v@.subrange(from as int, to as int),
{
    let mut out: Vec<T> = Vec::new();
    let mut i: usize = from;
    while i < to
        invariant
            from <= i <= to <= v@.len(),
            out@ =~= v@.subrange(from as int, i as int),
        decreases to - i,
    {
        out.push(v[i]);
        i = i + 1;
    }
    out
}

/// Less is ever carried over than one window holds, so a long capture costs no
/// memory beyond its output.
pub proof fn law_carry_stays_bounded<T>(r: Resampler<T>)
    requires
        r.wf(),
    ensures
        r.carried().len() * r.target() < r.source() + r.target(),
{
    let (src, dst) = (r.src, r.dst);
    let i = r.done();
    lemma_starts(i, src, dst);
    let n = r.carry@.len();
    assert(n < end_of(i, src, dst) - start_of(i, src, dst));
    let a = i * src as nat;
    let b = (i + 1) * src as nat;
    assert(b == a + src) by (nonlinear_arith)
        requires
            a == i * src as nat,
            b == (i + 1) * src as nat,
    ;
    let (x, y) = (a / dst as nat, b / dst as nat);
    assert(a < (x + 1) * dst && y * dst <= b) by (nonlinear_arith)
        requires
            x == a / dst as nat,
            y == b / dst as nat,
            dst > 0,
    ;
    if y > x {
        assert(n + 1 <= y - x);
        assert(n * dst < src + dst) by (nonlinear_arith)
            requires
                n + 1 <= y - x,
                a < (x + 1) * dst,
                y * dst <= b,
                b == a + src,
                dst > 0,
        ;
    } else {
        assert(n == 0);
        assert(n * dst == 0) by (nonlinear_arith)
            requires
                n == 0,
        ;
    }
}

/// How many of `n` new samples a buffer of at most `max` that holds `have`
/// takes in.
pub fn room(max: usize, have: usize, n: usize) -> (r: usize)
    ensures
        r == if have >= max {
            0
        } else if max - have < n {
            max - have
        } else {
            n as int
        },
{
    if have >= max {
        0
    } else if max - have < n {
        max - have
    } else {
        n
    }
}

/// Whether a device's name holds the wanted one; a device that does not tell
/// its name never does.
pub open spec fn is_named(name: Option<String>, wanted: Seq<char>) -> bool {
    match name {
        Some(n) => crate::text::occurs(n@, wanted),
        None => false,
    }
}

/// The device that a capture opens: `Ok(None)` is the default one, and a
/// wanted name picks the first of `names` that holds it.
pub fn pick_device(names: &Vec<Option<String>>, wanted: Option<&str>) -> (r: Result<
    Option<usize>,
    String,
>)
    ensures
        match (wanted, r) {
            (None, Ok(i)) => i is None,
            (None, Err(_)) => false,
            (Some(w), Ok(None)) => false,
            (Some(w), Ok(Some(i))) => i < names@.len() && is_named(names@[i as int], w@) && forall|
                k: int,
            |
                0 <= k < i ==> !is_named(#[trigger] names@[k], w@),
            (Some(w), Err(e)) => e@ == "input device "@ + crate::text::debug_text(w@)
                + " not found"@ && forall|k: int|
                0 <= k < names@.len() ==> !is_named(#[trigger] names@[k], w@),
        },
{
    let w = match wanted {
        Some(w) => w,
        None => {
            return Ok(None);
        },
    };
    let mut i: usize = 0;
    while i < names.len()
        invariant
            i <= names@.len(),
            wanted == Some(w),
            forall|k: int| 0 <= k < i ==> !is_named(#[trigger] names@[k], w@),
        decreases names@.len() - i,
    {
        let found = match &names[i] {
            Some(n) => contains(n.as_str(), w),
            None => false,
        };
        assert(found == is_named(names@[i as int], w@));
        if found {
            return Ok(Some(i));
        }
        i = i + 1;
    }
    let shown = quoted(w);
    Err(concat3("input device ", shown.as_str(), " not found"))
}

/// How many channels a frame of interleaved samples is read as.
pub open spec fn frame_size(channels: usize) -> nat {
    if channels == 0 {
        1
    } else {
        channels as nat
    }
}

/// Interleaved samples as frames of one sample for each channel; samples at
/// the end that fill no frame are left out.
pub open spec fn frames_of<T>(data: Seq<T>, size: nat) -> Seq<Seq<T>> {
    Seq::new(data.len() / size, |i: int| data.subrange(i * size, i * size + size))
}

/// Interleaved samples as frames, whose means are the mono signal.
pub fn frames<T: Copy>(data: &[T], channels: usize) -> (r: Vec<Vec<T>>)
    ensures
        window_samples(r@) == frames_of(data@, frame_size(channels)),
{
    let size: usize = if channels == 0 {
        1
    } else {
        channels
    };
    let ghost want = frames_of(data@, size as nat);
    let mut out: Vec<Vec<T>> = Vec::new();
    let len: usize = data.len();
    let total: usize = len / size;
    let mut at: usize = 0;
    let mut n: usize = 0;
    proof {
        vstd::arithmetic::div_mod::lemma_fundamental_div_mod(data@.len() as int, size as int);
        assert(0 * size == 0);
    }
    assert(window_samples(out@) =~= want.take(0));
    while n < total
        invariant
            size > 0,
            n <= total,
            len == data@.len(),
            total == len as nat / size as nat,
            want == frames_of(data@, size as nat),
            at == n * size,
            size * total <= len,
            window_samples(out@) == want.take(n as int),
        decreases total - n,
    {
        assert((n + 1) * size == n * size + size && (n + 1) * size <= size * total) by (nonlinear_arith)
            requires
                n < total,
        ;
        let mut frame: Vec<T> = Vec::new();
        let mut k: usize = 0;
        while k < size
            invariant
                k <= size,
                at + size <= len,
                len == data@.len(),
                frame@ == data@.subrange(at as int, at + k),
            decreases size - k,
        {
            frame.push(data[at + k]);
            k = k + 1;
            assert(frame@ =~= data@.subrange(at as int, at + k));
        }
        assert(frame@ == want[n as int]);
        let ghost had = window_samples(out@);
        out.push(frame);
        assert(window_samples(out@) =~= had.push(want[n as int]));
        assert(window_samples(out@) =~= want.take(n + 1));
        n = n + 1;
        at = at + size;
    }
    assert(want.take(n as int) =~= want);
    out
}

/// The sample of a channel in a frame is where the interleaving put it, and
/// less than a frame is left out at the end.
pub proof fn law_frames_hold_every_channel<T>(data: Seq<T>, channels: usize, i: int, c: int)
    requires
        0 <= i < frames_of(data, frame_size(channels)).len(),
        0 <= c < frame_size(channels),
    ensures
        ({
            let size = frame_size(channels) as int;
            let f = frames_of(data, frame_size(channels));
            &&& channels > 0 ==> size == channels
            &&& f[i].len() == size
            &&& 0 <= i * size + c < data.len()
            &&& f[i][c] == data[i * size + c]
            &&& 0 <= data.len() - f.len() * size < size
        }),
{
    let size = frame_size(channels) as int;
    let n = data.len() as int / size;
    vstd::arithmetic::div_mod::lemma_fundamental_div_mod(data.len() as int, size);
    vstd::arithmetic::div_mod::lemma_mod_bound(data.len() as int, size);
    assert(n * size == size * n) by (nonlinear_arith);
    assert(i * size + size <= n * size) by (nonlinear_arith)
        requires
            i + 1 <= n,
            size > 0,
    ;
    assert(0 <= i * size) by (nonlinear_arith)
        requires
            0 <= i,
            size > 0,
    ;
}

/// A device that tells exactly the wanted name is that device, and one whose
/// name is shorter never is.
pub proof fn law_devices_are_known_by_their_name(name: String, wanted: Seq<char>)
    ensures
        name@ == wanted ==> is_named(Some(name), wanted),
        name@.len() < wanted.len() ==> !is_named(Some(name), wanted),
        !is_named(None, wanted),
{
    let z: int = 0;
    if name@ == wanted {
        assert(name@.subrange(z, z + wanted.len()) =~= wanted);
    }
}

} // verus!
