//! The history of utterances: one record each, oldest first.
use vstd::prelude::*;

use crate::text::same;

verus! {

/// One utterance: what was heard, what became of it, and how long it took.
#[derive(Clone, Debug, PartialEq, Eq)]
pub struct Record {
    pub id: String,
    /// Milliseconds since the epoch.
    pub at_ms: u64,
    pub mode: String,
    pub app: String,
    pub title: String,
    pub raw: String,
    pub text: String,
    pub profile: String,
    pub words: u32,
    pub audio_ms: u64,
    pub latency_ms: u64,
    pub outcome: String,
    pub detail: String,
}

/// A [`Record`] as character sequences.
pub ghost struct RecordView {
    pub id: Seq<char>,
    pub at_ms: u64,
    pub mode: Seq<char>,
    pub app: Seq<char>,
    pub title: Seq<char>,
    pub raw: Seq<char>,
    pub text: Seq<char>,
    pub profile: Seq<char>,
    pub words: u32,
    pub audio_ms: u64,
    pub latency_ms: u64,
    pub outcome: Seq<char>,
    pub detail: Seq<char>,
}

impl View for Record {
    type V = RecordView;

    open spec fn view(&self) -> RecordView {
        RecordView {
            id: self.id@,
            at_ms: self.at_ms,
            mode: self.mode@,
            app: self.app@,
            title: self.title@,
            raw: self.raw@,
            text: self.text@,
            profile: self.profile@,
            words: self.words,
            audio_ms: self.audio_ms,
            latency_ms: self.latency_ms,
            outcome: self.outcome@,
            detail: self.detail@,
        }
    }
}

/// The views of a list of records.
pub open spec fn record_views(v: Seq<Record>) -> Seq<RecordView> {
    v.map_values(|r: Record| r@)
}

impl Record {
    /// The same record again.
    pub fn copy(&self) -> (r: Record)
        ensures
            r@ == self@,
    {
        Record {
            id: self.id.clone(),
            at_ms: self.at_ms,
            mode: self.mode.clone(),
            app: self.app.clone(),
            title: self.title.clone(),
            raw: self.raw.clone(),
            text: self.text.clone(),
            profile: self.profile.clone(),
            words: self.words,
            audio_ms: self.audio_ms,
            latency_ms: self.latency_ms,
            outcome: self.outcome.clone(),
            detail: self.detail.clone(),
        }
    }
}

/// One page of a history, newest first: at most `limit` records after the
/// newest `offset`.
pub open spec fn page_of(history: Seq<RecordView>, limit: nat, offset: nat) -> Seq<RecordView> {
    let left = if offset < history.len() {
        history.len() - offset
    } else {
        0
    };
    Seq::new(
        if left < limit {
            left as nat
        } else {
            limit
        },
        |i: int| history[history.len() - 1 - offset - i],
    )
}

/// One page of a history, newest first.
pub fn page(history: &Vec<Record>, limit: u32, offset: u32) -> (r: Vec<Record>)
    ensures
        record_views(r@) == page_of(record_views(history@), limit as nat, offset as nat),
{
    let len: usize = history.len();
    let left: usize = if (offset as u64) < len as u64 {
        len - offset as usize
    } else {
        0
    };
    let n: usize = if (left as u64) < limit as u64 {
        left
    } else {
        limit as usize
    };
    let mut out: Vec<Record> = Vec::new();
    let ghost wanted = page_of(record_views(history@), limit as nat, offset as nat);
    let mut i: usize = 0;
    while i < n
        invariant
            i <= n <= left,
            len == history@.len(),
            left > 0 ==> left + offset == len,
            n == wanted.len(),
            wanted == page_of(record_views(history@), limit as nat, offset as nat),
            record_views(out@) =~= wanted.take(i as int),
        decreases n - i,
    {
        let ghost before = out@;
        out.push(history[left - 1 - i].copy());
        assert(record_views(out@) =~= record_views(before).push(wanted[i as int]));
        i = i + 1;
    }
    assert(wanted.take(n as int) =~= wanted);
    out
}

/// A history without the records of one id.
pub open spec fn without(history: Seq<RecordView>, id: Seq<char>) -> Seq<RecordView> {
    history.filter(|r: RecordView| r.id != id)
}

/// Delete the records with this id; says whether there was one.
pub fn delete(history: Vec<Record>, id: &str) -> (r: (Vec<Record>, bool))
    ensures
        record_views(r.0@) == without(record_views(history@), id@),
        r.1 == (without(record_views(history@), id@).len() != history@.len()),
{
    let ghost all = record_views(history@);
    let ghost p = |r: RecordView| r.id != id@;
    let mut out: Vec<Record> = Vec::new();
    let mut i: usize = 0;
    proof {
        reveal(Seq::filter);
        assert(record_views(out@) =~= all.take(0).filter(p));
    }
    while i < history.len()
        invariant
            i <= history@.len(),
            all == record_views(history@),
            p == (|r: RecordView| r.id != id@),
            record_views(out@) == all.take(i as int).filter(p),
        decreases history@.len() - i,
    {
        let ghost before = out@;
        proof {
            reveal(Seq::filter);
            assert(all.take(i + 1).drop_last() =~= all.take(i as int));
            assert(all.take(i + 1).last() == history@[i as int]@);
        }
        if !same(history[i].id.as_str(), id) {
            out.push(history[i].copy());
            assert(record_views(out@) =~= record_views(before).push(history@[i as int]@));
        }
        i = i + 1;
    }
    proof {
        assert(all.take(i as int) =~= all);
        assert(record_views(out@).len() == out@.len());
    }
    let found = out.len() != history.len();
    (out, found)
}

/// A deleted record is gone, and every other one stays.
pub proof fn law_deleted_is_gone(history: Seq<RecordView>, id: Seq<char>, r: RecordView)
    ensures
        without(history, id).contains(r) <==> history.contains(r) && r.id != id,
{
    let p = |r: RecordView| r.id != id;
    broadcast use vstd::seq_lib::group_filter_ensures;

    let kept = history.filter(p);
    if kept.contains(r) {
        let i = choose|i: int| 0 <= i < kept.len() && kept[i] == r;
        assert(p(kept[i]));
        history.lemma_filter_contains_rev(p, r);
    }
    if history.contains(r) && r.id != id {
        let i = choose|i: int| 0 <= i < history.len() && history[i] == r;
        assert(p(history[i]));
        assert(kept.contains(history[i]));
    }
}

/// Whether a history stands in the order of time.
pub open spec fn in_order(history: Seq<RecordView>) -> bool {
    forall|i: int, j: int|
        0 <= i <= j < history.len() ==> (#[trigger] history[i]).at_ms <= (
        #[trigger] history[j]).at_ms
}

/// Where a record of the time `at_ms` belongs: behind all that are not newer,
/// counted from the end.
pub open spec fn place_for(history: Seq<RecordView>, at_ms: u64) -> int
    decreases history.len(),
{
    if history.len() == 0 || history.last().at_ms <= at_ms {
        history.len() as int
    } else {
        place_for(history.drop_last(), at_ms)
    }
}

/// A history with one more record, at its place in time.
pub open spec fn with_record(history: Seq<RecordView>, r: RecordView) -> Seq<RecordView> {
    history.insert(place_for(history, r.at_ms), r)
}

proof fn lemma_place(history: Seq<RecordView>, at_ms: u64)
    ensures
        0 <= place_for(history, at_ms) <= history.len(),
        forall|i: int|
            place_for(history, at_ms) <= i < history.len() ==> (#[trigger] history[i]).at_ms
                > at_ms,
        place_for(history, at_ms) > 0 ==> history[place_for(history, at_ms) - 1].at_ms <= at_ms,
    decreases history.len(),
{
    if history.len() > 0 && history.last().at_ms > at_ms {
        lemma_place(history.drop_last(), at_ms);
        assert forall|i: int|
            place_for(history, at_ms) <= i < history.len() implies (#[trigger] history[i]).at_ms
            > at_ms by {
            if i < history.len() - 1 {
                assert(history.drop_last()[i] == history[i]);
            }
        }
    }
}

/// A record put at its place leaves the history in order.
pub proof fn law_order_is_kept(history: Seq<RecordView>, r: RecordView)
    requires
        in_order(history),
    ensures
        in_order(with_record(history, r)),
{
    lemma_place(history, r.at_ms);
    let p = place_for(history, r.at_ms);
    let new = with_record(history, r);
    assert forall|i: int, j: int| 0 <= i <= j < new.len() implies (#[trigger] new[i]).at_ms <= (
    #[trigger] new[j]).at_ms by {
        if i < p && j == p {
            assert(history[i].at_ms <= history[p - 1].at_ms);
        } else if i < p && j > p {
            assert(history[i].at_ms <= history[j - 1].at_ms);
        } else if i < p {
            assert(history[i].at_ms <= history[j].at_ms);
        } else if i > p {
            assert(history[i - 1].at_ms <= history[j - 1].at_ms);
        } else if j > p {
            assert(history[j - 1].at_ms > r.at_ms);
        }
    }
}

/// Put a record at its place in time.
pub fn insert(history: &mut Vec<Record>, r: Record)
    ensures
        record_views(final(history)@) == with_record(record_views(old(history)@), r@),
{
    let ghost all = record_views(history@);
    let mut n: usize = history.len();
    assert(all.take(n as int) =~= all);
    while n > 0 && history[n - 1].at_ms > r.at_ms
        invariant
            n <= history@.len(),
            all == record_views(history@),
            place_for(all, r.at_ms) == place_for(all.take(n as int), r.at_ms),
        decreases n,
    {
        assert(all.take(n as int).drop_last() =~= all.take(n - 1));
        assert(all.take(n as int).last() == history@[n - 1]@);
        n = n - 1;
    }
    proof {
        if n > 0 {
            assert(all.take(n as int).last() == history@[n - 1]@);
        }
        assert(place_for(all, r.at_ms) == n);
    }
    history.insert(n, r);
    assert(record_views(history@) =~= all.insert(n as int, r@));
}

/// Pages show the newest first, and pages one after the other show what one long
/// page would: none is shown twice and none left out.
pub proof fn law_pages_follow_one_another(
    history: Seq<RecordView>,
    first: nat,
    second: nat,
    offset: nat,
)
    ensures
        page_of(history, first, offset) + page_of(history, second, offset + first) == page_of(
            history,
            first + second,
            offset,
        ),
        page_of(history, history.len(), 0) == history.reverse(),
        forall|i: int|
            0 <= i < page_of(history, first, offset).len() ==> (#[trigger] page_of(
                history,
                first,
                offset,
            )[i]) == history[history.len() - 1 - offset - i],
{
    assert(page_of(history, first, offset) + page_of(history, second, offset + first) =~= page_of(
        history,
        first + second,
        offset,
    ));
    assert(page_of(history, history.len(), 0) =~= history.reverse());
}

/// A record that is put in stands between those that are no newer, right before
/// it, and those that are newer; the others stay as they were.
pub proof fn law_a_record_goes_in_at_its_time(history: Seq<RecordView>, r: RecordView) -> (p: int)
    ensures
        0 <= p <= history.len(),
        with_record(history, r) == history.take(p) + seq![r] + history.skip(p),
        p > 0 ==> history[p - 1].at_ms <= r.at_ms,
        forall|i: int| p <= i < history.len() ==> (#[trigger] history[i]).at_ms > r.at_ms,
{
    lemma_place(history, r.at_ms);
    let p = place_for(history, r.at_ms);
    assert(with_record(history, r) =~= history.take(p) + seq![r] + history.skip(p));
    p
}

} // verus!
