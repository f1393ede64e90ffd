//! The cloud backend of the judged path: which replies are worth another try,
//! how long to wait before it, and what is said when there is none.
//!
//! One request carries the state and every question. A transient failure is
//! tried again with a growing wait, all of it under one deadline, so the
//! person never waits longer for the same failure.
use vstd::prelude::*;

use reqwest::header::{HeaderMap, HeaderValue, ToStrError};

use crate::text::{concat2, concat3, decimal_text, first_chars, parse_number, trim};

verus! {

pub const ENDPOINT: &'static str = "https://api.typesafe.ai/v1/systemone";

/// Tries in all.
pub const MAX_ATTEMPTS: u32 = 3;

/// Milliseconds before the second try.
pub const INITIAL_BACKOFF_MS: u64 = 200;

/// Characters of a refusal that are kept.
pub const DETAIL: usize = 300;

/// The headers of a reply.
#[verifier::external_type_specification]
#[verifier::external_body]
#[verifier::reject_recursive_types(T)]
pub struct ExHeaderMap<T>(HeaderMap<T>);

/// The value of one header.
#[verifier::external_type_specification]
#[verifier::external_body]
pub struct ExHeaderValue(HeaderValue);

/// The error of a header value that is no text.
#[verifier::external_type_specification]
#[verifier::external_body]
pub struct ExToStrError(ToStrError);

/// What a header map holds: under each name, in lower case, the bytes of the
/// first value that the name has.
pub uninterp spec fn header_values(headers: HeaderMap) -> Map<Seq<char>, Seq<u8>>;

/// The bytes that a header value holds.
pub uninterp spec fn value_bytes(value: HeaderValue) -> Seq<u8>;

/// `HeaderMap::get` with the name `retry-after`: the first value under that
/// name, and None exactly when there is none.
#[verifier::external_body]
fn retry_after_value(headers: &HeaderMap) -> (r: Option<&HeaderValue>)
    ensures
        match r {
            Some(v) => header_values(*headers).dom().contains("retry-after"@) && value_bytes(*v)
                == header_values(*headers)["retry-after"@],
            None => !header_values(*headers).dom().contains("retry-after"@),
        },
{
    headers.get(reqwest::header::RETRY_AFTER)
}

/// Whether a byte is a visible ASCII character, a space or a tab.
pub open spec fn visible(b: u8) -> bool {
    32 <= b < 127 || b == 9
}

/// Bytes as the characters of the same numbers.
pub open spec fn byte_text(bytes: Seq<u8>) -> Seq<char> {
    bytes.map_values(|b: u8| b as char)
}

/// `HeaderValue::to_str`: the bytes as a text when every one of them is
/// visible ASCII, a space or a tab, and an error otherwise.
pub assume_specification[ HeaderValue::to_str ](value: &HeaderValue) -> (r: Result<
    &str,
    ToStrError,
>)
    ensures
        r is Ok <==> (forall|i: int|
            0 <= i < value_bytes(*value).len() ==> visible(#[trigger] value_bytes(*value)[i])),
        r matches Ok(s) ==> s@ == byte_text(value_bytes(*value)),
;

/// The whole seconds that the bytes of a header ask to wait; None where they
/// are no text or write no number.
pub open spec fn seconds_asked(bytes: Seq<u8>) -> Option<nat> {
    if forall|i: int| 0 <= i < bytes.len() ==> visible(#[trigger] bytes[i]) {
        crate::text::number_of(crate::text::trimmed(byte_text(bytes)), u64::MAX as nat)
    } else {
        None
    }
}

/// The whole seconds that a reply's headers ask to wait.
pub open spec fn retry_after_of(headers: Map<Seq<char>, Seq<u8>>) -> Option<nat> {
    if headers.dom().contains("retry-after"@) {
        seconds_asked(headers["retry-after"@])
    } else {
        None
    }
}

/// `Retry-After` in seconds. Only the delay-seconds form is understood; with
/// the date form the own backoff stands.
pub fn retry_after(headers: &HeaderMap) -> (r: Option<u64>)
    ensures
        match r {
            Some(n) => retry_after_of(header_values(*headers)) == Some(n as nat),
            None => retry_after_of(header_values(*headers)) is None,
        },
{
    match retry_after_value(headers) {
        None => None,
        Some(v) => match v.to_str() {
            Err(_) => None,
            Ok(s) => delay_seconds(s),
        },
    }
}

/// The whole seconds that a header's text asks to wait.
pub fn delay_seconds(s: &str) -> (r: Option<u64>)
    ensures
        match r {
            Some(n) => crate::text::number_of(crate::text::trimmed(s@), u64::MAX as nat) == Some(
                n as nat,
            ),
            None => crate::text::number_of(crate::text::trimmed(s@), u64::MAX as nat) is None,
        },
{
    let bare = trim(s);
    parse_number(bare.as_str(), u64::MAX)
}

/// Whether a status is transient: the same request may succeed a moment
/// later. The server was asked too often, or the failure is its own.
pub open spec fn transient(status: u16) -> bool {
    status == 429 || 500 <= status < 600
}

/// Whether the same request may succeed a moment later.
pub fn retryable(status: u16) -> (r: bool)
    ensures
        r == transient(status),
{
    status == 429 || (500 <= status && status < 600)
}

/// Whether a status says that the request was carried out.
pub fn success(status: u16) -> (r: bool)
    ensures
        r == (200 <= status < 300),
{
    200 <= status && status < 300
}

/// What one try came to.
#[derive(Clone, Copy, Debug, PartialEq, Eq, Structural)]
pub enum Attempt {
    /// A reply, with the seconds its headers ask to wait.
    Status { code: u16, retry_after: Option<u64> },
    /// No reply at all.
    Failed,
}

/// What is done next.
#[derive(Clone, Copy, Debug, PartialEq, Eq, Structural)]
pub enum Next {
    /// The reply is the answer.
    Read,
    /// Another try would fail alike: report this one.
    Refuse,
    /// Wait, then try again with this backoff.
    Retry { wait_ms: u64, backoff_ms: u64 },
    /// No tries left, or no time for one: report this one.
    GiveUp,
}

/// The wait before another try, in milliseconds: what the server asked for,
/// else the own backoff.
pub open spec fn wait_of(attempt: Attempt, backoff_ms: u64) -> int {
    match attempt {
        Attempt::Status { code: _, retry_after: Some(s) } => s * 1000,
        _ => backoff_ms as int,
    }
}

/// What is done after try number `number`, at `now` with the deadline
/// `deadline`, both in milliseconds.
pub open spec fn next_of(
    attempt: Attempt,
    number: u32,
    backoff_ms: u64,
    now: u64,
    deadline: u64,
) -> Next {
    let again = match attempt {
        Attempt::Status { code, .. } => transient(code),
        Attempt::Failed => true,
    };
    let wait = wait_of(attempt, backoff_ms);
    if attempt matches Attempt::Status { code, .. } && 200 <= code < 300 {
        Next::Read
    } else if !again {
        Next::Refuse
    } else if number >= MAX_ATTEMPTS || now + wait >= deadline {
        Next::GiveUp
    } else {
        Next::Retry { wait_ms: wait as u64, backoff_ms: (backoff_ms * 3) as u64 }
    }
}

/// What is done after try number `number`: read the answer, report the
/// failure, or wait and try again. A retry that cannot finish before the
/// deadline only makes the person wait for the same failure.
pub fn next_step(attempt: Attempt, number: u32, backoff_ms: u64, now: u64, deadline: u64) -> (r:
    Next)
    requires
        backoff_ms * 3 <= u64::MAX,
    ensures
        r == next_of(attempt, number, backoff_ms, now, deadline),
{
    if let Attempt::Status { code, .. } = attempt {
        if success(code) {
            return Next::Read;
        }
        if !retryable(code) {
            return Next::Refuse;
        }
    }
    let wait: u128 = match attempt {
        Attempt::Status { code: _, retry_after: Some(s) } => s as u128 * 1000,
        _ => backoff_ms as u128,
    };
    if number >= MAX_ATTEMPTS || now as u128 + wait >= deadline as u128 {
        return Next::GiveUp;
    }
    Next::Retry { wait_ms: wait as u64, backoff_ms: backoff_ms * 3 }
}

/// Retrying ends: a retry is only ever asked for before the last try, and the
/// wait before it ends before the deadline.
pub proof fn law_retries_are_bounded(
    attempt: Attempt,
    number: u32,
    backoff_ms: u64,
    now: u64,
    deadline: u64,
)
    requires
        next_of(attempt, number, backoff_ms, now, deadline) is Retry,
    ensures
        number < MAX_ATTEMPTS,
        now + wait_of(attempt, backoff_ms) < deadline,
        next_of(attempt, number, backoff_ms, now, deadline)->wait_ms == wait_of(
            attempt,
            backoff_ms,
        ),
{
}

/// A bad key or a malformed request is never sent twice.
pub proof fn law_client_errors_are_not_retried(
    code: u16,
    retry_after: Option<u64>,
    number: u32,
    backoff_ms: u64,
    now: u64,
    deadline: u64,
)
    requires
        code == 401 || code == 422,
    ensures
        next_of(Attempt::Status { code, retry_after }, number, backoff_ms, now, deadline)
            == Next::Refuse,
{
}

/// What is reported of a refusal: the status as the server words it, and the
/// start of what came with it.
pub fn refusal(status: &str, detail: &str) -> (r: String)
    ensures
        r@ == "typesafe "@ + status@ + ": "@ + crate::text::clipped(detail@, DETAIL as int),
{
    let mut out = concat3("typesafe ", status, ": ");
    let start = first_chars(detail, DETAIL);
    out.append(start.as_str());
    out
}

/// What is reported when the deadline passed.
pub fn too_late(timeout_ms: u64) -> (r: String)
    ensures
        r@ == "typesafe: no answer within "@ + crate::text::decimal(timeout_ms as nat) + " ms"@,
{
    let n = decimal_text(timeout_ms);
    concat3("typesafe: no answer within ", n.as_str(), " ms")
}

/// Whether a key can be sent at all.
pub fn usable_key(api_key: &str) -> (r: bool)
    ensures
        r == (crate::text::trimmed(api_key@).len() > 0),
{
    let bare = trim(api_key);
    !bare.as_str().is_empty()
}

/// The backend as a log line names it.
pub fn describe(model: &str) -> (r: String)
    ensures
        r@ == "typesafe "@ + model@,
{
    concat2("typesafe ", model)
}

/// What is tried again is a reply that says to wait or that the server failed, or
/// no reply at all; it is tried as long as tries and time are left, after the
/// wait that the server asked for, else the own one, which triples.
pub proof fn law_transient_failures_are_tried_again(
    attempt: Attempt,
    number: u32,
    backoff_ms: u64,
    now: u64,
    deadline: u64,
)
    requires
        backoff_ms * 3 <= u64::MAX,
    ensures
        ({
            let again = match attempt {
                Attempt::Status { code, .. } => code == 429 || 500 <= code <= 599,
                Attempt::Failed => true,
            };
            let wait = match attempt {
                Attempt::Status { code: _, retry_after: Some(s) } => s * 1000,
                _ => backoff_ms as int,
            };
            let next = next_of(attempt, number, backoff_ms, now, deadline);
            &&& next == Next::Read <==> (attempt matches Attempt::Status { code, .. } && 200 <= code
                <= 299)
            &&& again && number < 3 && now + wait < deadline ==> (next matches Next::Retry {
                wait_ms,
                backoff_ms: later,
            } && wait_ms == wait && later == backoff_ms * 3)
            &&& again && !(number < 3 && now + wait < deadline) ==> next == Next::GiveUp
            &&& next == Next::Refuse <==> (attempt is Status && !again && next != Next::Read)
        }),
{
}

/// Only the header of its name asks to wait: other headers make no difference,
/// and without it nothing is asked.
pub proof fn law_only_its_header_asks_to_wait(
    headers: Map<Seq<char>, Seq<u8>>,
    name: Seq<char>,
    value: Seq<u8>,
)
    ensures
        name != "retry-after"@ ==> retry_after_of(headers.insert(name, value)) == retry_after_of(
            headers,
        ),
        retry_after_of(headers.insert("retry-after"@, value)) == seconds_asked(value),
        retry_after_of(headers.remove("retry-after"@)) is None,
{
}

/// A header of printable characters asks for the seconds it writes, whitespace
/// around them left out, and one with any other byte asks for nothing.
pub proof fn law_waits_are_written_in_seconds(bytes: Seq<u8>)
    ensures
        (forall|i: int|
            0 <= i < bytes.len() ==> 32 <= #[trigger] bytes[i] <= 126 || bytes[i] == 9)
            ==> seconds_asked(bytes) == crate::text::number_of(
            crate::text::trimmed(bytes.map_values(|b: u8| b as char)),
            u64::MAX as nat,
        ),
        (exists|i: int|
            0 <= i < bytes.len() && (#[trigger] bytes[i] > 126 || (bytes[i] < 32 && bytes[i] != 9)))
            ==> seconds_asked(bytes) is None,
{
    assert(bytes.map_values(|b: u8| b as char) =~= byte_text(bytes));
    if exists|i: int|
        0 <= i < bytes.len() && (#[trigger] bytes[i] > 126 || (bytes[i] < 32 && bytes[i] != 9)) {
        let i = choose|i: int|
            0 <= i < bytes.len() && (#[trigger] bytes[i] > 126 || (bytes[i] < 32 && bytes[i] != 9));
        assert(!visible(bytes[i]));
    }
}

} // verus!
