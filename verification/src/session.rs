//! One daemon per session, and none while the session is locked.
//!
//! Two daemons would register the same hotkeys and both type every utterance,
//! so the second one says who holds the lock and leaves. While the screen is
//! locked all input goes to the lock surface, and voice has to be inert; the
//! lock state is watched for as long as anyone listens.
use vstd::prelude::*;

use crate::text::{concat3, trim};

verus! {

/// Seconds before the first reconnect of the lock watcher.
pub const BACKOFF_MIN: u64 = 1;

/// The longest wait between two reconnects.
pub const BACKOFF_MAX: u64 = 30;

/// The wait after a wait of `backoff` seconds: twice as long, up to the
/// longest.
pub fn next_backoff(backoff: u64) -> (r: u64)
    ensures
        r == if backoff * 2 < BACKOFF_MAX {
            backoff * 2
        } else {
            BACKOFF_MAX as int
        },
{
    if backoff < BACKOFF_MAX / 2 {
        backoff * 2
    } else {
        BACKOFF_MAX
    }
}

/// The wait never leaves its bounds, so a reconnect is never given up.
pub proof fn law_backoff_stays_bounded(backoff: int)
    requires
        BACKOFF_MIN <= backoff <= BACKOFF_MAX,
    ensures
        BACKOFF_MIN <= (if backoff * 2 < BACKOFF_MAX {
            backoff * 2
        } else {
            BACKOFF_MAX as int
        }) <= BACKOFF_MAX,
{
}

/// What a second daemon says: who holds the lock, when the lock file tells,
/// and where the lock is.
pub open spec fn taken_message(holder: Seq<char>, path: Seq<char>) -> Seq<char> {
    let pid = crate::text::trimmed(holder);
    "another parlad is already running"@ + (if pid.len() == 0 {
        Seq::empty()
    } else {
        " (pid "@ + pid + ")"@
    }) + " (lock "@ + path + ")"@
}

/// What a second daemon says, where `holder` is what the lock file holds.
pub fn already_running(holder: &str, path: &str) -> (r: String)
    ensures
        r@ == taken_message(holder@, path@),
{
    let mut out = "another parlad is already running".to_string();
    let pid = trim(holder);
    if !pid.as_str().is_empty() {
        let who = concat3(" (pid ", pid.as_str(), ")");
        out.append(who.as_str());
    } else {
        assert(out@ + Seq::<char>::empty() =~= out@);
    }
    out.append(" (lock ");
    out.append(path);
    out.append(")");
    out
}

} // verus!
