//! The cloud backend for dictation cleanup: any server that speaks the OpenAI
//! chat completions API.
use vstd::prelude::*;

use crate::local::Generated;
use crate::oracle::Usage;
use crate::text::{concat2, concat3, first_chars, slice_text, to_chars};

verus! {

/// A base address without the slashes at its end.
pub open spec fn bare_base(base: Seq<char>) -> Seq<char> {
    crate::text::drop_back(base, |c: char| c == '/')
}

/// Where requests go.
pub open spec fn url_of(base: Seq<char>) -> Seq<char> {
    bare_base(base) + "/chat/completions"@
}

/// Where requests go, whether or not the base address ends with a slash.
pub fn chat_url(base_url: &str) -> (r: String)
    ensures
        r@ == url_of(base_url@),
{
    let v = to_chars(base_url);
    let mut n: usize = v.len();
    while n > 0 && v[n - 1] == '/'
        invariant
            n <= v@.len(),
            forall|i: int| n <= i < v@.len() ==> (#[trigger] v@[i]) == '/',
        decreases n,
    {
        n = n - 1;
    }
    proof {
        crate::text::lemma_drop_back_is(v@, |c: char| c == '/', n as int);
    }
    let bare = slice_text(&v, 0, n);
    assert(v@.subrange(0, n as int) =~= v@.take(n as int));
    concat2(bare.as_str(), "/chat/completions")
}

/// A slash at the end of the base address makes no difference.
pub proof fn law_trailing_slash_is_ignored(base: Seq<char>)
    ensures
        url_of(base + "/"@) == url_of(base),
{
    reveal_strlit("/");
    let longer = base + "/"@;
    assert(longer.last() == '/');
    assert(longer.drop_last() =~= base);
}

/// What a reply came to: the text of its first choice, and what it cost. Each
/// choice is given by its message's text.
pub open spec fn reply_of(choices: Seq<Option<String>>, usage: Option<(u32, u32)>) -> Option<
    (Seq<char>, Usage),
> {
    if choices.len() > 0 && choices[0] is Some {
        Some(
            (
                choices[0]->0@,
                match usage {
                    Some((input_tokens, output_tokens)) => Usage { input_tokens, output_tokens },
                    None => Usage { input_tokens: 0, output_tokens: 0 },
                },
            ),
        )
    } else {
        None
    }
}

/// What is wrong with a reply without a text.
pub const NO_MESSAGE: &'static str = "reply carried no message";

/// What a reply came to; None when it carries no message. A reply that does
/// not say what it cost still yields its text.
pub fn generated(choices: Vec<Option<String>>, usage: Option<(u32, u32)>) -> (r: Option<Generated>)
    ensures
        match r {
            Some(g) => reply_of(choices@, usage) == Some((g.text@, g.usage)),
            None => reply_of(choices@, usage) is None,
        },
{
    if choices.len() == 0 {
        return None;
    }
    match &choices[0] {
        None => None,
        Some(text) => Some(
            Generated {
                text: text.clone(),
                usage: match usage {
                    Some((input_tokens, output_tokens)) => Usage { input_tokens, output_tokens },
                    None => Usage { input_tokens: 0, output_tokens: 0 },
                },
            },
        ),
    }
}

/// What is reported of a refusal.
pub fn refusal(status: &str, text: &str) -> (r: String)
    ensures
        r@ == "chat completions returned "@ + status@ + ": "@ + crate::text::clipped(text@, 300),
{
    let mut out = concat3("chat completions returned ", status, ": ");
    let start = first_chars(text, 300);
    out.append(start.as_str());
    out
}

/// Whether a request carries the key at all: a local server may need none.
pub fn sends_key(api_key: &str) -> (r: bool)
    ensures
        r == (api_key@.len() > 0),
{
    !api_key.is_empty()
}

/// Requests go below the base address: one that ends with no slash is kept as
/// it is.
pub proof fn law_requests_go_below_the_base(base: Seq<char>)
    requires
        base.len() > 0 ==> base.last() != '/',
    ensures
        url_of(base) == base + "/chat/completions"@,
{
}

/// The first choice alone decides: its text is the reply's, further ones make
/// no difference, and without one there is no reply. The cost is what was
/// told, read before written, and nothing where nothing was told.
pub proof fn law_first_choice_is_the_reply(
    first: Option<String>,
    more: Seq<Option<String>>,
    usage: Option<(u32, u32)>,
)
    ensures
        reply_of(Seq::empty(), usage) is None,
        first is None ==> reply_of(seq![first] + more, usage) is None,
        first is Some ==> {
            let r = reply_of(seq![first] + more, usage);
            &&& r is Some
            &&& (r->0).0 == first->0@
            &&& usage is Some ==> (r->0).1.input_tokens == (usage->0).0 && (r->0).1.output_tokens
                == (usage->0).1
            &&& usage is None ==> (r->0).1.input_tokens == 0 && (r->0).1.output_tokens == 0
        },
{
    assert((seq![first] + more)[0] == first);
}

} // verus!
