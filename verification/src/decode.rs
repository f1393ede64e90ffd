//! Which tokens the model decodes, in which batches and on which sequences,
//! and what the probabilities that come back answer.
//!
//! Sequence 0 holds the prompt. What a prompt shares with the one before it is
//! kept, and only the rest is decoded. The options of a question are scored on
//! sequences of their own, forked from the prompt, as many at once as the
//! context has sequences for.
use vstd::prelude::*;

use crate::double::Double;
use crate::local::{BATCH, SEQUENCES};
use crate::oracle::{Answer, AnswerView, Question, QuestionView};
use crate::text::{concat3, decimal_text};

verus! {

/// How many tokens two sequences share at their start.
pub open spec fn shared(a: Seq<i32>, b: Seq<i32>) -> nat
    decreases a.len(),
{
    if a.len() > 0 && b.len() > 0 && a[0] == b[0] {
        1 + shared(a.drop_first(), b.drop_first())
    } else {
        0
    }
}

proof fn lemma_shared(a: Seq<i32>, b: Seq<i32>, n: int)
    requires
        0 <= n <= a.len(),
        n <= b.len(),
        forall|i: int| 0 <= i < n ==> (#[trigger] a[i]) == b[i],
        n < a.len() && n < b.len() ==> a[n] != b[n],
    ensures
        shared(a, b) == n,
    decreases n,
{
    if n > 0 {
        assert(a[0] == b[0]);
        assert forall|i: int| 0 <= i < n - 1 implies (#[trigger] a.drop_first()[i])
            == b.drop_first()[i] by {
            assert(a[i + 1] == b[i + 1]);
        }
        lemma_shared(a.drop_first(), b.drop_first(), n - 1);
    }
}

/// What the two share is the same in both, and goes as far as it can.
pub proof fn law_shared_prefix_is_the_longest(a: Seq<i32>, b: Seq<i32>)
    ensures
        shared(a, b) <= a.len(),
        shared(a, b) <= b.len(),
        a.take(shared(a, b) as int) == b.take(shared(a, b) as int),
        shared(a, b) < a.len() && shared(a, b) < b.len() ==> a[shared(a, b) as int] != b[shared(
            a,
            b,
        ) as int],
    decreases a.len(),
{
    if a.len() > 0 && b.len() > 0 && a[0] == b[0] {
        let (x, y) = (a.drop_first(), b.drop_first());
        law_shared_prefix_is_the_longest(x, y);
        let n = shared(x, y) as int;
        assert forall|i: int| 0 <= i < n + 1 implies (#[trigger] a.take(n + 1)[i]) == b.take(
            n + 1,
        )[i] by {
            if i > 0 {
                assert(x.take(n)[i - 1] == y.take(n)[i - 1]);
            }
        }
        assert(a.take(n + 1) =~= b.take(n + 1));
    }
}

/// How many tokens `a` and `b` share at their start.
pub fn common_prefix(a: &Vec<i32>, b: &Vec<i32>) -> (n: usize)
    ensures
        n == shared(a@, b@),
        n <= a@.len(),
        n <= b@.len(),
{
    let mut n: usize = 0;
    while n < a.len() && n < b.len() && a[n] == b[n]
        invariant
            n <= a@.len(),
            n <= b@.len(),
            forall|i: int| 0 <= i < n ==> (#[trigger] a@[i]) == b@[i],
        decreases a@.len() - n,
    {
        n = n + 1;
    }
    proof {
        lemma_shared(a@, b@, n as int);
    }
    n
}

/// One token of a prompt to decode on sequence 0.
#[derive(Clone, Copy, Debug, PartialEq, Eq, Structural)]
pub struct Slot {
    pub token: i32,
    pub pos: i32,
    /// Whether the scores after it are kept.
    pub logits: bool,
}

/// How many tokens of the cache stay: what the prompt shares with them, but
/// never its last token, since the scores after it are wanted.
pub open spec fn kept(cached: Seq<i32>, tokens: Seq<i32>) -> int {
    if shared(cached, tokens) < tokens.len() {
        shared(cached, tokens) as int
    } else {
        tokens.len() - 1
    }
}

/// How many batches of at most [`BATCH`] hold `n` tokens.
pub open spec fn batches_for(n: int) -> int {
    (n + BATCH - 1) / BATCH as int
}

/// The tokens of a prompt from `keep` on, batch by batch.
pub open spec fn is_prefill(batches: Seq<Vec<Slot>>, tokens: Seq<i32>, keep: int) -> bool {
    &&& batches.len() == batches_for(tokens.len() - keep)
    &&& forall|b: int|
        0 <= b < batches.len() ==> is_prefill_batch(#[trigger] batches[b]@, tokens, keep + b * BATCH)
}

/// One batch: the tokens from `from` on, with the scores kept after its last.
pub open spec fn is_prefill_batch(batch: Seq<Slot>, tokens: Seq<i32>, from: int) -> bool {
    &&& batch.len() == if tokens.len() - from < BATCH {
        tokens.len() - from
    } else {
        BATCH as int
    }
    &&& forall|i: int|
        0 <= i < batch.len() ==> #[trigger] batch[i] == (Slot {
            token: tokens[from + i],
            pos: (from + i) as i32,
            logits: i == batch.len() - 1,
        })
}

fn prefill_batch(tokens: &Vec<i32>, from: usize) -> (r: Vec<Slot>)
    requires
        from < tokens@.len() <= i32::MAX,
    ensures
        is_prefill_batch(r@, tokens@, from as int),
{
    let len: usize = if tokens.len() - from < BATCH {
        tokens.len() - from
    } else {
        BATCH
    };
    let mut out: Vec<Slot> = Vec::new();
    let mut i: usize = 0;
    while i < len
        invariant
            i <= len,
            from + len <= tokens@.len() <= i32::MAX,
            out@.len() == i,
            forall|k: int|
                0 <= k < i ==> #[trigger] out@[k] == (Slot {
                    token: tokens@[from + k],
                    pos: (from + k) as i32,
                    logits: k == len - 1,
                }),
        decreases len - i,
    {
        out.push(
            Slot { token: tokens[from + i], pos: (from + i) as i32, logits: i == len - 1 },
        );
        i = i + 1;
    }
    out
}

/// What is decoded so that sequence 0 holds exactly `tokens`: how many of the
/// cached tokens stay, and the batches of the rest.
pub fn prefill(cached: &Vec<i32>, tokens: &Vec<i32>) -> (r: (usize, Vec<Vec<Slot>>))
    requires
        0 < tokens@.len() <= i32::MAX,
    ensures
        r.0 == kept(cached@, tokens@),
        is_prefill(r.1@, tokens@, r.0 as int),
{
    let same = common_prefix(cached, tokens);
    let keep: usize = if same < tokens.len() {
        same
    } else {
        tokens.len() - 1
    };
    let mut out: Vec<Vec<Slot>> = Vec::new();
    let mut from: usize = keep;
    while from < tokens.len()
        invariant
            keep < tokens@.len() <= i32::MAX,
            from == if keep + out@.len() * BATCH < tokens@.len() {
                keep + out@.len() * BATCH
            } else {
                tokens@.len() as int
            },
            out@.len() > 0 ==> keep + (out@.len() - 1) * BATCH < tokens@.len(),
            forall|b: int|
                0 <= b < out@.len() ==> is_prefill_batch(
                    #[trigger] out@[b]@,
                    tokens@,
                    keep + b * BATCH,
                ),
        decreases tokens@.len() - from,
    {
        let batch = prefill_batch(tokens, from);
        let n: usize = batch.len();
        out.push(batch);
        from = from + n;
    }
    (keep, out)
}

/// After the batches of a prompt are decoded, sequence 0 holds the prompt: the
/// tokens that stayed are its start, and every later token is decoded once, at
/// its own place. Its last token is always among them.
pub proof fn law_prefill_leaves_the_prompt(
    cached: Seq<i32>,
    tokens: Seq<i32>,
    batches: Seq<Vec<Slot>>,
    p: int,
)
    requires
        0 < tokens.len() <= i32::MAX,
        is_prefill(batches, tokens, kept(cached, tokens)),
        0 <= p < tokens.len(),
    ensures
        kept(cached, tokens) < tokens.len(),
        cached.take(kept(cached, tokens)) == tokens.take(kept(cached, tokens)),
        p >= kept(cached, tokens) ==> ({
            let b = (p - kept(cached, tokens)) / BATCH as int;
            let i = (p - kept(cached, tokens)) % BATCH as int;
            0 <= b < batches.len() && 0 <= i < batches[b]@.len() && batches[b]@[i].token
                == tokens[p] && batches[b]@[i].pos == p
        }),
{
    law_shared_prefix_is_the_longest(cached, tokens);
    let k = kept(cached, tokens);
    let n = shared(cached, tokens) as int;
    assert(cached.take(n) == tokens.take(n));
    assert(cached.take(k) =~= cached.take(n).take(k));
    assert(tokens.take(k) =~= tokens.take(n).take(k));
    if p >= k {
        let b = (p - k) / BATCH as int;
        let i = (p - k) % BATCH as int;
        assert(b < batches.len());
        assert(is_prefill_batch(batches[b]@, tokens, k + b * BATCH));
        assert(batches[b]@[i] == (Slot {
            token: tokens[p],
            pos: p as i32,
            logits: i == batches[b]@.len() - 1,
        }));
    }
}

/// One token of an option to decode on the option's sequence.
#[derive(Clone, Copy, Debug, PartialEq, Eq, Structural)]
pub struct Scored {
    pub token: i32,
    pub pos: i32,
    pub seq: i32,
    /// Which option it belongs to.
    pub option: usize,
    /// The token whose probability is wanted next: the option's next one, or
    /// the end of the turn.
    pub next: i32,
}

/// The tokens of the option number `option` on sequence `seq`, after a prompt
/// of `start` tokens.
pub open spec fn option_entries(
    tokens: Seq<i32>,
    seq: int,
    option: int,
    start: int,
    eos: i32,
) -> Seq<Scored> {
    Seq::new(
        tokens.len(),
        |j: int|
            Scored {
                token: tokens[j],
                pos: (start + j) as i32,
                seq: seq as i32,
                option: option as usize,
                next: if j + 1 < tokens.len() {
                    tokens[j + 1]
                } else {
                    eos
                },
            },
    )
}

/// The tokens of the options of one round, the first of them option number
/// `first`, on the sequences from 1.
pub open spec fn round_entries(options: Seq<Vec<i32>>, first: int, start: int, eos: i32) -> Seq<
    Scored,
>
    decreases options.len(),
{
    if options.len() == 0 {
        Seq::empty()
    } else {
        round_entries(options.drop_last(), first, start, eos) + option_entries(
            options.last()@,
            options.len() as int,
            first + options.len() - 1,
            start,
            eos,
        )
    }
}

/// A sequence in pieces of `n`, the last one as long as what is left.
pub open spec fn chunks<T>(s: Seq<T>, n: int) -> Seq<Seq<T>>
    decreases s.len(),
{
    if s.len() == 0 || n <= 0 {
        Seq::empty()
    } else if s.len() <= n {
        seq![s]
    } else {
        seq![s.take(n)] + chunks(s.skip(n), n)
    }
}

/// Cutting a sequence into pieces loses nothing, and no piece is empty or too
/// long.
pub proof fn law_chunks_lose_nothing<T>(s: Seq<T>, n: int)
    requires
        n > 0,
    ensures
        chunks(s, n).flatten() == s,
        forall|i: int| 0 <= i < chunks(s, n).len() ==> 0 < (#[trigger] chunks(s, n)[i]).len() <= n,
    decreases s.len(),
{
    if s.len() == 0 {
        assert(chunks(s, n).flatten() =~= s);
    } else if s.len() <= n {
        assert(chunks(s, n).drop_first() =~= Seq::empty());
        assert(chunks(s, n).first() == s);
        assert(Seq::<Seq<T>>::empty().flatten() =~= Seq::empty());
        assert(chunks(s, n).flatten() =~= s);
    } else {
        law_chunks_lose_nothing(s.skip(n), n);
        let rest = chunks(s.skip(n), n);
        assert(chunks(s, n).drop_first() =~= rest);
        assert(chunks(s, n).first() == s.take(n));
        assert(s.take(n) + s.skip(n) =~= s);
        assert forall|i: int| 0 <= i < chunks(s, n).len() implies 0 < (#[trigger] chunks(
            s,
            n,
        )[i]).len() <= n by {
            if i > 0 {
                assert(chunks(s, n)[i] == rest[i - 1]);
            }
        }
    }
}

/// The views of a list of batches.
pub open spec fn batch_views(v: Seq<Vec<Scored>>) -> Seq<Seq<Scored>> {
    v.map_values(|b: Vec<Scored>| b@)
}

fn slice_scored(v: &Vec<Scored>, from: usize, to: usize) -> (r: Vec<Scored>)
    requires
        from <= to <= v@.len(),
    ensures
        r@ == v@.subrange(from as int, to as int),
{
    let mut out: Vec<Scored> = Vec::new();
    let mut i: usize = from;
    while i < to
        invariant
            from <= i <= to <= v@.len(),
            out@ =~= v@.subrange(from as int, i as int),
        decreases to - i,
    {
        out.push(v[i]);
        i = i + 1;
    }
    out
}

fn in_batches(v: &Vec<Scored>) -> (r: Vec<Vec<Scored>>)
    ensures
        batch_views(r@) == chunks(v@, BATCH as int),
{
    let mut out: Vec<Vec<Scored>> = Vec::new();
    let mut from: usize = 0;
    let len: usize = v.len();
    proof {
        assert(v@.skip(0) =~= v@);
        assert(batch_views(out@) + chunks(v@, BATCH as int) =~= chunks(v@, BATCH as int));
    }
    while from < len
        invariant
            from <= len,
            len == v@.len(),
            batch_views(out@) + chunks(v@.skip(from as int), BATCH as int) == chunks(
                v@,
                BATCH as int,
            ),
        decreases len - from,
    {
        let to: usize = if len - from <= BATCH {
            len
        } else {
            from + BATCH
        };
        let ghost rest = v@.skip(from as int);
        let ghost before = out@;
        let batch = slice_scored(v, from, to);
        out.push(batch);
        proof {
            assert(batch_views(out@) =~= batch_views(before) + seq![batch@]);
            if rest.len() <= BATCH {
                assert(batch@ =~= rest);
                assert(v@.skip(to as int).len() == 0);
                assert(batch_views(out@) + chunks(v@.skip(to as int), BATCH as int)
                    =~= batch_views(before) + chunks(rest, BATCH as int));
            } else {
                assert(batch@ =~= rest.take(BATCH as int));
                assert(rest.skip(BATCH as int) =~= v@.skip(to as int));
                assert(batch_views(out@) + chunks(v@.skip(to as int), BATCH as int)
                    =~= batch_views(before) + chunks(rest, BATCH as int));
            }
        }
        from = to;
    }
    assert(v@.skip(from as int).len() == 0);
    assert(batch_views(out@) + chunks(v@.skip(from as int), BATCH as int) =~= batch_views(out@));
    out
}

/// One round of scoring: options number `first` to `first + count`, each on a
/// sequence forked from the prompt, and the batches to decode.
#[derive(Debug)]
pub struct Round {
    pub first: usize,
    pub count: usize,
    pub batches: Vec<Vec<Scored>>,
}

/// Options that are scored side by side.
pub const PER_ROUND: usize = 63;

/// How many options the round that starts with option `first` of `n` scores.
pub open spec fn round_count(first: int, n: int) -> int {
    if n - first < PER_ROUND {
        n - first
    } else {
        PER_ROUND as int
    }
}

/// Whether `round` is the round that starts with option `first`.
pub open spec fn is_round(
    round: Round,
    options: Seq<Vec<i32>>,
    first: int,
    start: int,
    eos: i32,
) -> bool {
    &&& round.first == first
    &&& round.count == round_count(first, options.len() as int)
    &&& batch_views(round.batches@) == chunks(
        round_entries(
            options.subrange(first, first + round_count(first, options.len() as int)),
            first,
            start,
            eos,
        ),
        BATCH as int,
    )
}

fn one_round(options: &Vec<Vec<i32>>, first: usize, start: usize, eos: i32) -> (r: Round)
    requires
        first < options@.len(),
        forall|i: int|
            0 <= i < options@.len() ==> start + (#[trigger] options@[i])@.len() <= i32::MAX,
    ensures
        is_round(r, options@, first as int, start as int, eos),
{
    let count: usize = if options.len() - first < PER_ROUND {
        options.len() - first
    } else {
        PER_ROUND
    };
    let ghost part = options@.subrange(first as int, first + count);
    let len_all: usize = options.len();
    let mut flat: Vec<Scored> = Vec::new();
    let mut k: usize = 0;
    while k < count
        invariant
            k <= count <= PER_ROUND,
            first + count <= len_all,
            len_all == options@.len(),
            part == options@.subrange(first as int, first + count),
            flat@ == round_entries(part.take(k as int), first as int, start as int, eos),
            forall|i: int|
                0 <= i < options@.len() ==> start + (#[trigger] options@[i])@.len() <= i32::MAX,
        decreases count - k,
    {
        let tokens = &options[first + k];
        let ghost before = flat@;
        let ghost wanted = option_entries(tokens@, k + 1, first + k, start as int, eos);
        let len: usize = tokens.len();
        let mut j: usize = 0;
        while j < len
            invariant
                j <= len,
                len == tokens@.len(),
                k < count <= PER_ROUND,
                first + count <= len_all,
                start + len <= i32::MAX,
                wanted == option_entries(tokens@, k + 1, first + k, start as int, eos),
                flat@ =~= before + wanted.take(j as int),
            decreases len - j,
        {
            let next: i32 = if j + 1 < len {
                tokens[j + 1]
            } else {
                eos
            };
            flat.push(
                Scored {
                    token: tokens[j],
                    pos: (start + j) as i32,
                    seq: k as i32 + 1,
                    option: first + k,
                    next,
                },
            );
            j = j + 1;
        }
        proof {
            assert(wanted.take(len as int) =~= wanted);
            assert(part.take(k + 1).drop_last() =~= part.take(k as int));
            assert(part.take(k + 1).last() == options@[first + k]);
        }
        k = k + 1;
    }
    assert(part.take(count as int) =~= part);
    Round { first, count, batches: in_batches(&flat) }
}

/// How the options of a question are scored after a prompt of `start` tokens:
/// round by round, each option on its own sequence, every token once.
pub fn score_rounds(options: &Vec<Vec<i32>>, start: usize, eos: i32) -> (r: Vec<Round>)
    requires
        forall|i: int|
            0 <= i < options@.len() ==> start + (#[trigger] options@[i])@.len() <= i32::MAX,
    ensures
        r@.len() == (options@.len() + PER_ROUND - 1) / PER_ROUND as int,
        forall|i: int|
            0 <= i < r@.len() ==> is_round(
                #[trigger] r@[i],
                options@,
                i * PER_ROUND,
                start as int,
                eos,
            ),
{
    let mut out: Vec<Round> = Vec::new();
    let mut first: usize = 0;
    let len: usize = options.len();
    while first < len
        invariant
            len == options@.len(),
            first == if out@.len() * PER_ROUND < len {
                out@.len() * PER_ROUND
            } else {
                len as int
            },
            out@.len() > 0 ==> (out@.len() - 1) * PER_ROUND < len,
            forall|i: int|
                0 <= i < options@.len() ==> start + (#[trigger] options@[i])@.len() <= i32::MAX,
            forall|i: int|
                0 <= i < out@.len() ==> is_round(
                    #[trigger] out@[i],
                    options@,
                    i * PER_ROUND,
                    start as int,
                    eos,
                ),
        decreases len - first,
    {
        let round = one_round(options, first, start, eos);
        let n: usize = round.count;
        out.push(round);
        first = first + n;
    }
    out
}

/// In one round two tokens stand on the same sequence exactly when they belong
/// to the same option, and no option stands on the prompt's sequence.
pub proof fn law_options_do_not_share_sequences(
    options: Seq<Vec<i32>>,
    first: int,
    start: int,
    eos: i32,
    i: int,
    j: int,
)
    requires
        options.len() <= PER_ROUND,
        0 <= first,
        first + options.len() <= usize::MAX,
        0 <= i < round_entries(options, first, start, eos).len(),
        0 <= j < round_entries(options, first, start, eos).len(),
    ensures
        ({
            let e = round_entries(options, first, start, eos);
            &&& e[i].seq == e[j].seq <==> e[i].option == e[j].option
            &&& 1 <= e[i].seq < SEQUENCES
        }),
{
    lemma_entry_sequence(options, first, start, eos, i);
    lemma_entry_sequence(options, first, start, eos, j);
}

proof fn lemma_entry_sequence(options: Seq<Vec<i32>>, first: int, start: int, eos: i32, i: int)
    requires
        options.len() <= PER_ROUND,
        0 <= first,
        first + options.len() <= usize::MAX,
        0 <= i < round_entries(options, first, start, eos).len(),
    ensures
        round_entries(options, first, start, eos)[i].option - first + 1 == round_entries(
            options,
            first,
            start,
            eos,
        )[i].seq,
        1 <= round_entries(options, first, start, eos)[i].seq <= options.len(),
    decreases options.len(),
{
    let head = round_entries(options.drop_last(), first, start, eos);
    if i < head.len() {
        lemma_entry_sequence(options.drop_last(), first, start, eos, i);
    }
}

/// Why a prompt is not scored.
#[derive(Clone, Copy, Debug, PartialEq, Eq, Structural)]
pub enum PromptError {
    Empty,
    TooLong { tokens: usize, context: usize },
}

impl PromptError {
    /// What is said of it.
    pub fn text(self) -> (r: String)
        ensures
            r@ == match self {
                PromptError::Empty => "empty prompt or option"@,
                PromptError::TooLong { tokens, context } => "prompt of "@ + crate::text::decimal(
                    tokens as nat,
                ) + " tokens does not fit judge.local.context_tokens ("@ + crate::text::decimal(
                    context as nat,
                ) + ")"@,
            },
    {
        match self {
            PromptError::Empty => "empty prompt or option".to_string(),
            PromptError::TooLong { tokens, context } => {
                let n = decimal_text(tokens as u64);
                let c = decimal_text(context as u64);
                let mut out = concat3(
                    "prompt of ",
                    n.as_str(),
                    " tokens does not fit judge.local.context_tokens (",
                );
                out.append(c.as_str());
                out.append(")");
                out
            },
        }
    }
}

/// Whether the prompt with any of the options fits a context.
pub open spec fn fits(prompt: int, options: Seq<Vec<i32>>, context: int) -> bool {
    prompt < context && forall|i: int|
        0 <= i < options.len() ==> prompt + (#[trigger] options[i])@.len() < context
}

/// Whether a prompt of `prompt` tokens and its options can be scored in a
/// context of `context` tokens.
pub fn check_prompt(prompt: usize, options: &Vec<Vec<i32>>, context: usize) -> (r: Result<
    (),
    PromptError,
>)
    ensures
        r == if prompt == 0 || exists|i: int|
            0 <= i < options@.len() && (#[trigger] options@[i])@.len() == 0 {
            Err(PromptError::Empty)
        } else if !fits(prompt as int, options@, context as int) {
            Err(PromptError::TooLong { tokens: prompt, context })
        } else {
            Ok(())
        },
{
    let mut empty = false;
    let mut long = prompt >= context;
    let mut i: usize = 0;
    while i < options.len()
        invariant
            i <= options@.len(),
            empty <==> exists|k: int| 0 <= k < i && (#[trigger] options@[k])@.len() == 0,
            long <==> prompt >= context || exists|k: int|
                0 <= k < i && prompt + (#[trigger] options@[k])@.len() >= context,
        decreases options@.len() - i,
    {
        let n: usize = options[i].len();
        if n == 0 {
            assert(options@[i as int]@.len() == 0);
            empty = true;
        }
        if prompt as u128 + n as u128 >= context as u128 {
            assert(prompt + options@[i as int]@.len() >= context);
            long = true;
        }
        i = i + 1;
    }
    if prompt == 0 || empty {
        Err(PromptError::Empty)
    } else if long {
        Err(PromptError::TooLong { tokens: prompt, context })
    } else {
        Ok(())
    }
}

/// Whether a prompt leaves room in the context for what is to be written.
pub fn room_to_generate(prompt: usize, max_tokens: u32, context: usize) -> (r: bool)
    ensures
        r == (prompt + max_tokens < context),
{
    (prompt as u128 + max_tokens as u128) < context as u128
}

/// What the token the model picked next comes to.
#[derive(Clone, Copy, Debug, PartialEq, Eq, Structural)]
pub enum Generation {
    /// Nothing more is written.
    Stop,
    /// The token is written and the model goes on from it.
    Decode,
}

/// What the token `next` comes to after `written` tokens: writing stops at the
/// token `end`, at any other that ends the model's turn, and when the budget is
/// spent.
pub open spec fn generation_of(
    written: u32,
    budget: u32,
    next: i32,
    end: i32,
    ends_turn: bool,
) -> Generation {
    if written >= budget || next == end || ends_turn {
        Generation::Stop
    } else {
        Generation::Decode
    }
}

/// What the token `next` comes to after `written` tokens.
pub fn generation_step(
    written: u32,
    budget: u32,
    next: i32,
    end: i32,
    ends_turn: bool,
) -> (r: Generation)
    ensures
        r == generation_of(written, budget, next, end, ends_turn),
{
    if written >= budget || next == end || ends_turn {
        Generation::Stop
    } else {
        Generation::Decode
    }
}

/// A prompt that leaves room is never overrun: each token that is written has
/// its place in the context, and no more are written than the budget allows.
pub proof fn law_generation_stays_in_the_context(
    prompt: usize,
    context: usize,
    written: u32,
    budget: u32,
    next: i32,
    end: i32,
    ends_turn: bool,
)
    requires
        prompt + budget < context,
    ensures
        generation_of(written, budget, next, end, ends_turn) == Generation::Decode ==> written + 1
            <= budget && prompt + written + 1 < context,
{
}

/// What is said of a prompt that leaves no room.
pub fn no_room(prompt: usize, max_tokens: u32, context: usize) -> (r: String)
    ensures
        r@ == "prompt of "@ + crate::text::decimal(prompt as nat) + " tokens plus "@
            + crate::text::decimal(max_tokens as nat)
            + " to generate does not fit local.context_tokens ("@ + crate::text::decimal(
            context as nat,
        ) + ")"@,
{
    let p = decimal_text(prompt as u64);
    let m = decimal_text(max_tokens as u64);
    let c = decimal_text(context as u64);
    let mut out = concat3("prompt of ", p.as_str(), " tokens plus ");
    out.append(m.as_str());
    out.append(" to generate does not fit local.context_tokens (");
    out.append(c.as_str());
    out.append(")");
    out
}

/// The threads the model runs on: at least one.
pub fn thread_count(threads: usize) -> (r: i32)
    ensures
        r == if threads == 0 {
            1
        } else if threads > i32::MAX {
            i32::MAX as int
        } else {
            threads as int
        },
{
    if threads == 0 {
        1
    } else if threads > i32::MAX as usize {
        i32::MAX
    } else {
        threads as i32
    }
}

/// Negative infinity.
pub open spec fn lowest() -> Double {
    Double { bits: 0xfff0_0000_0000_0000 }
}

/// Whether `best` is the index of the first of the largest probabilities. What
/// is no number counts for nothing, and with nothing to compare the first
/// option stands.
pub open spec fn is_best(probs: Seq<Double>, best: int) -> bool {
    if exists|i: int| 0 <= i < probs.len() && lowest().lt(#[trigger] probs[i]) {
        &&& 0 <= best < probs.len()
        &&& lowest().lt(probs[best])
        &&& forall|i: int| 0 <= i < probs.len() ==> !probs[best].lt(#[trigger] probs[i])
        &&& forall|i: int| 0 <= i < best ==> probs[i].nan() || (#[trigger] probs[i]).lt(probs[best])
    } else {
        best == 0
    }
}

/// Two indices cannot both be the best.
pub proof fn law_best_is_unique(probs: Seq<Double>, a: int, b: int)
    requires
        is_best(probs, a),
        is_best(probs, b),
    ensures
        a == b,
{
    if a < b {
        assert(!probs[a].lt(probs[b]));
    }
    if b < a {
        assert(!probs[b].lt(probs[a]));
    }
}

/// The index of the first of the largest probabilities.
pub fn best_option(probs: &Vec<Double>) -> (best: usize)
    requires
        probs@.len() > 0,
    ensures
        is_best(probs@, best as int),
        best < probs@.len(),
{
    let none = Double { bits: 0xfff0_0000_0000_0000 };
    let mut best: usize = 0;
    let mut top = none;
    let mut i: usize = 0;
    while i < probs.len()
        invariant
            i <= probs@.len(),
            probs@.len() > 0,
            none == lowest(),
            best < probs@.len(),
            best <= i,
            top == lowest() ==> best == 0 && forall|k: int|
                0 <= k < i ==> !lowest().lt(#[trigger] probs@[k]),
            top != lowest() ==> best < i && top == probs@[best as int] && lowest().lt(top),
            forall|k: int| 0 <= k < i ==> !top.lt(#[trigger] probs@[k]),
            top != lowest() ==> forall|k: int|
                0 <= k < best ==> probs@[k].nan() || (#[trigger] probs@[k]).lt(top),
        decreases probs@.len() - i,
    {
        let p = probs[i];
        if top.less(p) {
            proof {
                assert forall|k: int| 0 <= k < i implies probs@[k].nan() || (#[trigger] probs@[k]).lt(
                    p,
                ) by {
                    assert(!top.lt(probs@[k]));
                }
            }
            best = i;
            top = p;
        }
        i = i + 1;
    }
    proof {
        if top == lowest() {
            assert(forall|k: int| 0 <= k < probs@.len() ==> !lowest().lt(#[trigger] probs@[k]));
        } else {
            assert(lowest().lt(probs@[best as int]));
        }
    }
    best
}

/// Options with their probabilities.
pub open spec fn weighed(options: Seq<Seq<char>>, probs: Seq<Double>) -> Seq<(Seq<char>, Double)> {
    Seq::new(options.len(), |i: int| (options[i], probs[i]))
}

/// What the probabilities of a question's options answer, where `best` is the
/// best of them.
pub open spec fn answered(
    q: QuestionView,
    options: Seq<Seq<char>>,
    probs: Seq<Double>,
    best: int,
) -> AnswerView {
    match q {
        QuestionView::Noul { .. } => AnswerView::Noul { noul: probs[0] },
        QuestionView::Choice { .. } => AnswerView::Choice {
            choice: options[best],
            confidence: probs[best],
            probabilities: weighed(options, probs),
        },
        QuestionView::Score { .. } => AnswerView::Unknown,
    }
}

/// What the probabilities of a question's options answer: of yes for a yes/no
/// question, the best option for a choice.
pub fn answer_of(q: &Question, options: &Vec<String>, probs: &Vec<Double>) -> (r: Answer)
    requires
        options@.len() == probs@.len(),
        probs@.len() > 0,
    ensures
        exists|best: int|
            #![trigger is_best(probs@, best)]
            is_best(probs@, best) && r@ == answered(
                q@,
                crate::text::texts(options@),
                probs@,
                best,
            ),
{
    let best = best_option(probs);
    match q {
        Question::Noul { .. } => Answer::Noul { noul: probs[0] },
        Question::Choice { .. } => {
            let mut all: Vec<(String, Double)> = Vec::new();
            let mut i: usize = 0;
            while i < options.len()
                invariant
                    i <= options@.len(),
                    options@.len() == probs@.len(),
                    all@.len() == i,
                    forall|k: int|
                        0 <= k < i ==> (#[trigger] all@[k]).0@ == options@[k]@ && all@[k].1
                            == probs@[k],
                decreases options@.len() - i,
            {
                all.push((options[i].clone(), probs[i]));
                i = i + 1;
            }
            let r = Answer::Choice {
                choice: options[best].clone(),
                confidence: probs[best],
                probabilities: all,
            };
            assert(r@->probabilities =~= weighed(crate::text::texts(options@), probs@));
            r
        },
        Question::Score { .. } => Answer::Unknown,
    }
}

/// The cache is used as far as it goes: what stays is shared with the prompt,
/// and short of the last token nothing shared is decoded again.
pub proof fn law_cache_is_used_as_far_as_it_goes(cached: Seq<i32>, tokens: Seq<i32>)
    requires
        tokens.len() > 0,
    ensures
        0 <= kept(cached, tokens) < tokens.len(),
        kept(cached, tokens) <= cached.len(),
        cached.take(kept(cached, tokens)) == tokens.take(kept(cached, tokens)),
        kept(cached, tokens) == tokens.len() - 1 || kept(cached, tokens) == cached.len()
            || cached[kept(cached, tokens)] != tokens[kept(cached, tokens)],
{
    law_shared_prefix_is_the_longest(cached, tokens);
    let n = shared(cached, tokens) as int;
    let k = kept(cached, tokens);
    assert(cached.take(k) =~= cached.take(n).take(k));
    assert(tokens.take(k) =~= tokens.take(n).take(k));
}

/// The tokens of an option stand one behind the other after the prompt, on one
/// sequence, and what is wanted after each is the next of them, at the end the
/// end of the turn.
pub proof fn law_option_is_scored_token_by_token(
    tokens: Seq<i32>,
    seq: int,
    option: int,
    start: int,
    eos: i32,
    j: int,
)
    requires
        0 <= j < tokens.len(),
        0 <= start,
        start + tokens.len() <= i32::MAX,
        0 <= seq <= i32::MAX,
        0 <= option <= usize::MAX,
    ensures
        ({
            let e = option_entries(tokens, seq, option, start, eos);
            &&& e.len() == tokens.len()
            &&& e[j].token == tokens[j]
            &&& e[j].pos == start + j
            &&& e[j].seq == seq
            &&& e[j].option == option
            &&& j + 1 < tokens.len() ==> e[j].next == e[j + 1].token
            &&& j + 1 == tokens.len() ==> e[j].next == eos
        }),
{
}

/// Writing goes on exactly while the budget lasts and the turn has not ended.
pub proof fn law_writing_goes_on_until_the_end(
    written: u32,
    budget: u32,
    next: i32,
    end: i32,
    ends_turn: bool,
)
    ensures
        generation_of(written, budget, next, end, ends_turn) is Decode <==> written < budget && next
            != end && !ends_turn,
{
}

/// The weights stand with their options, and the answer to a choice is one of
/// them with its own weight, which no other exceeds.
pub proof fn law_answer_is_a_heaviest_option(
    q: QuestionView,
    options: Seq<Seq<char>>,
    probs: Seq<Double>,
    best: int,
    i: int,
)
    requires
        options.len() == probs.len(),
        0 <= i < probs.len(),
        0 <= best < probs.len(),
        is_best(probs, best),
    ensures
        q is Choice ==> {
            let a = answered(q, options, probs, best);
            &&& a is Choice
            &&& a->probabilities.len() == options.len()
            &&& a->probabilities[i] == (options[i], probs[i])
            &&& a->probabilities.contains((a->choice, a->Choice_confidence))
            &&& lowest().lt(probs[i]) ==> !a->Choice_confidence.lt(probs[i])
        },
        q is Noul && options == crate::local::options_of(q) && options[i] == "yes"@ ==> answered(
            q,
            options,
            probs,
            best,
        ) == (AnswerView::Noul { noul: probs[i] }),
        q is Score ==> answered(q, options, probs, best) is Unknown,
{
    reveal_strlit("yes");
    reveal_strlit("no");
    assert("yes"@.len() == 3 && "no"@.len() == 2);
    if q is Choice {
        let a = answered(q, options, probs, best);
        assert(a->probabilities[best] == (a->choice, a->Choice_confidence));
    }
}

} // verus!
