//! Aggregation of a batch of reports: ordering by the start of their date
//! range, dropping repeated reports, and collecting their records.
use vstd::prelude::*;
use crate::model::{Feedback, Record};

verus! {

pub open spec fn begin_of(f: Feedback) -> int {
    f.report_metadata.date_range.begin as int
}

pub open spec fn end_of(f: Feedback) -> int {
    f.report_metadata.date_range.end as int
}

pub open spec fn id_of(f: Feedback) -> Seq<char> {
    f.report_metadata.report_id@
}

/// Where `b` goes in `s`: after every element whose begin is at most `b`
/// that no element with a later begin follows.
pub open spec fn insert_pos(s: Seq<Feedback>, b: int) -> int
    decreases s.len(),
{
    if s.len() == 0 {
        0
    } else if begin_of(s.last()) > b {
        insert_pos(s.drop_last(), b)
    } else {
        s.len() as int
    }
}

/// `s` ordered by begin; feedbacks with equal begins keep their order.
pub open spec fn sorted_by_begin(s: Seq<Feedback>) -> Seq<Feedback>
    decreases s.len(),
{
    if s.len() == 0 {
        s
    } else {
        let p = sorted_by_begin(s.drop_last());
        p.insert(insert_pos(p, begin_of(s.last())), s.last())
    }
}

/// Whether `s` is in ascending order of begin.
pub open spec fn ordered_by_begin(s: Seq<Feedback>) -> bool {
    forall|i: int, j: int| 0 <= i < j < s.len() ==> begin_of(s[i]) <= begin_of(s[j])
}

proof fn lemma_insert_pos(s: Seq<Feedback>, b: int)
    ensures
        0 <= insert_pos(s, b) <= s.len(),
        forall|j: int| insert_pos(s, b) <= j < s.len() ==> begin_of(#[trigger] s[j]) > b,
        ordered_by_begin(s) ==> forall|j: int|
            0 <= j < insert_pos(s, b) ==> begin_of(#[trigger] s[j]) <= b,
    decreases s.len(),
{
    if s.len() > 0 && begin_of(s.last()) > b {
        lemma_insert_pos(s.drop_last(), b);
        let k = insert_pos(s, b);
        assert forall|j: int| k <= j < s.len() implies begin_of(#[trigger] s[j]) > b by {
            if j < s.len() - 1 {
                assert(s[j] == s.drop_last()[j]);
            }
        }
        if ordered_by_begin(s) {
            assert(ordered_by_begin(s.drop_last()));
            assert forall|j: int| 0 <= j < k implies begin_of(#[trigger] s[j]) <= b by {
                assert(s[j] == s.drop_last()[j]);
            }
        }
    } else if s.len() > 0 && ordered_by_begin(s) {
        assert forall|j: int| 0 <= j < s.len() implies begin_of(#[trigger] s[j]) <= b by {
            if j < s.len() - 1 {
                assert(begin_of(s[j]) <= begin_of(s[s.len() - 1]));
            }
        }
    }
}

/// Sorting by begin orders the batch and keeps every feedback.
pub proof fn lemma_sorted_by_begin(s: Seq<Feedback>)
    ensures
        ordered_by_begin(sorted_by_begin(s)),
        sorted_by_begin(s).to_multiset() == s.to_multiset(),
    decreases s.len(),
{
    broadcast use vstd::seq_lib::group_to_multiset_ensures;

    if s.len() > 0 {
        let p = sorted_by_begin(s.drop_last());
        let x = s.last();
        lemma_sorted_by_begin(s.drop_last());
        lemma_insert_pos(p, begin_of(x));
        let k = insert_pos(p, begin_of(x));
        let r = p.insert(k, x);
        assert forall|i: int, j: int| 0 <= i < j < r.len() implies begin_of(r[i]) <= begin_of(
            r[j],
        ) by {
            if j < k {
            } else if j == k {
                assert(begin_of(p[i]) <= begin_of(x));
            } else if i < k {
                assert(r[j] == p[j - 1]);
                assert(begin_of(p[i]) <= begin_of(p[j - 1]));
            } else if i == k {
                assert(r[j] == p[j - 1]);
            } else {
                assert(r[i] == p[i - 1] && r[j] == p[j - 1]);
            }
        }
        p.insert_ensures(k, x);
        assert(r.remove(k) =~= p);
        assert(r.contains(x)) by {
            assert(r[k] == x);
        }
        assert(r.to_multiset() =~= p.to_multiset().insert(x)) by {
            assert(r.remove(k).to_multiset() =~= r.to_multiset().remove(r[k]));
        }
        assert(s =~= s.drop_last().push(x));
    }
}

/// `s` with each run of adjacent feedbacks of equal report id cut down to
/// its first feedback.
pub open spec fn dedup_by_id(s: Seq<Feedback>) -> Seq<Feedback>
    decreases s.len(),
{
    if s.len() <= 1 {
        s
    } else {
        let p = dedup_by_id(s.drop_last());
        if id_of(s.last()) == id_of(s[s.len() - 2]) {
            p
        } else {
            p.push(s.last())
        }
    }
}

/// The batch as it is presented: ordered by begin, repeated reports dropped.
pub open spec fn aggregated(s: Seq<Feedback>) -> Seq<Feedback> {
    dedup_by_id(sorted_by_begin(s))
}

/// The records of all feedbacks of `s`, feedback after feedback.
pub open spec fn records_of(s: Seq<Feedback>) -> Seq<Record>
    decreases s.len(),
{
    if s.len() == 0 {
        Seq::empty()
    } else {
        records_of(s.drop_last()) + s.last().records@
    }
}

fn position_for(v: &Vec<Feedback>, b: i64) -> (r: usize)
    ensures
        r as int == insert_pos(v@, b as int),
        r <= v@.len(),
{
    let mut j = v.len();
    assert(v@.subrange(0, j as int) =~= v@);
    while j > 0 && v[j - 1].report_metadata.date_range.begin > b
        invariant
            j <= v@.len(),
            insert_pos(v@, b as int) == insert_pos(v@.subrange(0, j as int), b as int),
        decreases j,
    {
        assert(v@.subrange(0, j as int).drop_last() =~= v@.subrange(0, j - 1));
        j = j - 1;
    }
    proof {
        if j > 0 {
            assert(v@.subrange(0, j as int).last() == v@[j - 1]);
        }
    }
    j
}

/// Orders a batch by the begin of its date range, keeping the order of
/// feedbacks with equal begins.
pub fn sort_by_begin(feedbacks: Vec<Feedback>) -> (r: Vec<Feedback>)
    ensures
        r@ == sorted_by_begin(feedbacks@),
        ordered_by_begin(r@),
        r@.to_multiset() == feedbacks@.to_multiset(),
{
    let ghost all = feedbacks@;
    let mut rest = feedbacks;
    let mut out: Vec<Feedback> = Vec::new();
    let ghost mut i: int = 0;
    proof {
        assert(all.subrange(0, 0) =~= Seq::<Feedback>::empty());
        assert(all.subrange(0, all.len() as int) =~= all);
    }
    while rest.len() > 0
        invariant
            0 <= i <= all.len(),
            rest@ == all.subrange(i, all.len() as int),
            out@ == sorted_by_begin(all.subrange(0, i)),
        decreases rest.len(),
    {
        let f = rest.remove(0);
        let k = position_for(&out, f.report_metadata.date_range.begin);
        proof {
            assert(all.subrange(0, i + 1).drop_last() =~= all.subrange(0, i));
            assert(all.subrange(0, i + 1).last() == f);
            assert(rest@ =~= all.subrange(i + 1, all.len() as int));
        }
        out.insert(k, f);
        proof {
            i = i + 1;
        }
    }
    proof {
        assert(all.subrange(0, i) =~= all);
        lemma_sorted_by_begin(all);
    }
    out
}

/// Drops every feedback whose report id equals that of the feedback just
/// before it.
pub fn dedup_by_report_id(feedbacks: Vec<Feedback>) -> (r: Vec<Feedback>)
    ensures
        r@ == dedup_by_id(feedbacks@),
{
    let ghost all = feedbacks@;
    let mut rest = feedbacks;
    let mut out: Vec<Feedback> = Vec::new();
    let mut last_id: Option<String> = None;
    let ghost mut i: int = 0;
    proof {
        assert(all.subrange(0, 0) =~= Seq::<Feedback>::empty());
        assert(all.subrange(0, all.len() as int) =~= all);
    }
    while rest.len() > 0
        invariant
            0 <= i <= all.len(),
            rest@ == all.subrange(i, all.len() as int),
            out@ == dedup_by_id(all.subrange(0, i)),
            match last_id {
                Some(id) => i > 0 && id@ == id_of(all[i - 1]),
                None => i == 0,
            },
        decreases rest.len(),
    {
        let f = rest.remove(0);
        proof {
            assert(all.subrange(0, i + 1).drop_last() =~= all.subrange(0, i));
            assert(all.subrange(0, i + 1).last() == f);
            assert(rest@ =~= all.subrange(i + 1, all.len() as int));
            if i > 0 {
                assert(all.subrange(0, i + 1)[i - 1] == all[i - 1]);
            } else {
                assert(all.subrange(0, 1) =~= seq![f]);
            }
        }
        let id = f.report_metadata.report_id.clone();
        let repeated = match &last_id {
            Some(prev) => prev.eq(&id),
            None => false,
        };
        if !repeated {
            out.push(f);
        }
        last_id = Some(id);
        proof {
            i = i + 1;
        }
    }
    proof {
        assert(all.subrange(0, i) =~= all);
    }
    out
}

/// Orders a batch by begin and drops repeated reports, keeping the first of
/// each run of adjacent feedbacks with equal report ids.
pub fn aggregate(feedbacks: Vec<Feedback>) -> (r: Vec<Feedback>)
    ensures
        r@ == aggregated(feedbacks@),
{
    dedup_by_report_id(sort_by_begin(feedbacks))
}

/// The earliest begin and the latest end over a batch, if it is not empty.
pub fn timeframe(feedbacks: &Vec<Feedback>) -> (r: Option<(i64, i64)>)
    ensures
        feedbacks@.len() == 0 <==> r is None,
        r matches Some((b, e)) ==> {
            &&& exists|k: int| 0 <= k < feedbacks@.len() && begin_of(#[trigger] feedbacks@[k]) == b
            &&& forall|k: int| 0 <= k < feedbacks@.len() ==> b <= begin_of(#[trigger] feedbacks@[k])
            &&& exists|k: int| 0 <= k < feedbacks@.len() && end_of(#[trigger] feedbacks@[k]) == e
            &&& forall|k: int| 0 <= k < feedbacks@.len() ==> end_of(#[trigger] feedbacks@[k]) <= e
        },
{
    if feedbacks.len() == 0 {
        return None;
    }
    let mut b = feedbacks[0].report_metadata.date_range.begin;
    let mut e = feedbacks[0].report_metadata.date_range.end;
    let mut i: usize = 1;
    while i < feedbacks.len()
        invariant
            1 <= i <= feedbacks@.len(),
            exists|k: int| 0 <= k < i && begin_of(#[trigger] feedbacks@[k]) == b,
            forall|k: int| 0 <= k < i ==> b <= begin_of(#[trigger] feedbacks@[k]),
            exists|k: int| 0 <= k < i && end_of(#[trigger] feedbacks@[k]) == e,
            forall|k: int| 0 <= k < i ==> end_of(#[trigger] feedbacks@[k]) <= e,
        decreases feedbacks.len() - i,
    {
        let range = feedbacks[i].report_metadata.date_range;
        if range.begin < b {
            b = range.begin;
        }
        if range.end > e {
            e = range.end;
        }
        i = i + 1;
    }
    Some((b, e))
}

/// All records of a batch in one list, feedback after feedback, each
/// feedback's records in their own order.
pub fn flatten_records(feedbacks: Vec<Feedback>) -> (r: Vec<Record>)
    ensures
        r@ == records_of(feedbacks@),
{
    let ghost all = feedbacks@;
    let mut rest = feedbacks;
    let mut out: Vec<Record> = Vec::new();
    let ghost mut i: int = 0;
    proof {
        assert(all.subrange(0, 0) =~= Seq::<Feedback>::empty());
        assert(all.subrange(0, all.len() as int) =~= all);
    }
    while rest.len() > 0
        invariant
            0 <= i <= all.len(),
            rest@ == all.subrange(i, all.len() as int),
            out@ == records_of(all.subrange(0, i)),
        decreases rest.len(),
    {
        let f = rest.remove(0);
        proof {
            assert(all.subrange(0, i + 1).drop_last() =~= all.subrange(0, i));
            assert(all.subrange(0, i + 1).last() == f);
            assert(rest@ =~= all.subrange(i + 1, all.len() as int));
        }
        let mut records = f.records;
        out.append(&mut records);
        proof {
            i = i + 1;
        }
    }
    proof {
        assert(all.subrange(0, i) =~= all);
    }
    out
}

/// Whether the feedback at `i` starts a run of adjacent feedbacks with equal
/// report ids.
pub open spec fn starts_run(s: Seq<Feedback>, i: int) -> bool {
    i == 0 || id_of(s[i]) != id_of(s[i - 1])
}

/// The indices of `s` at which runs start, in order.
pub open spec fn run_starts(s: Seq<Feedback>) -> Seq<int>
    decreases s.len(),
{
    if s.len() == 0 {
        Seq::empty()
    } else {
        let p = run_starts(s.drop_last());
        if starts_run(s, s.len() - 1) {
            p.push(s.len() - 1)
        } else {
            p
        }
    }
}

proof fn lemma_dedup_run_starts(s: Seq<Feedback>)
    ensures
        dedup_by_id(s).len() == run_starts(s).len(),
        forall|k: int|
            0 <= k < run_starts(s).len() ==> 0 <= #[trigger] run_starts(s)[k] < s.len()
                && dedup_by_id(s)[k] == s[run_starts(s)[k]],
        forall|k: int, l: int|
            0 <= k < l < run_starts(s).len() ==> run_starts(s)[k] < run_starts(s)[l],
        forall|i: int|
            0 <= i < s.len() ==> (starts_run(s, i) <==> exists|k: int|
                0 <= k < run_starts(s).len() && #[trigger] run_starts(s)[k] == i),
    decreases s.len(),
{
    if s.len() == 0 {
    } else {
        let d = s.drop_last();
        lemma_dedup_run_starts(d);
        let p = run_starts(d);
        let n = s.len() - 1;
        assert forall|i: int| 0 <= i < n implies starts_run(s, i) == starts_run(d, i) by {
            if i > 0 {
                assert(s[i] == d[i] && s[i - 1] == d[i - 1]);
            }
        }
        if s.len() == 1 {
            assert(run_starts(d) =~= Seq::<int>::empty());
            assert(run_starts(s) =~= seq![0int]);
            assert(starts_run(s, 0));
        } else {
            assert(d[n - 1] == s[n - 1]);
        }
        assert forall|i: int|
            0 <= i < s.len() implies (starts_run(s, i) <==> exists|k: int|
                0 <= k < run_starts(s).len() && #[trigger] run_starts(s)[k] == i) by {
            if i < n {
                if starts_run(s, i) {
                    let k = choose|k: int| 0 <= k < p.len() && #[trigger] p[k] == i;
                    assert(run_starts(s)[k] == i);
                }
                if exists|k: int| 0 <= k < run_starts(s).len() && #[trigger] run_starts(s)[k] == i {
                    let k = choose|k: int|
                        0 <= k < run_starts(s).len() && #[trigger] run_starts(s)[k] == i;
                    if k < p.len() {
                        assert(p[k] == i);
                    }
                }
            } else {
                if starts_run(s, i) {
                    assert(run_starts(s)[p.len() as int] == i);
                }
                if exists|k: int| 0 <= k < run_starts(s).len() && #[trigger] run_starts(s)[k] == i {
                    let k = choose|k: int|
                        0 <= k < run_starts(s).len() && #[trigger] run_starts(s)[k] == i;
                    if k < p.len() {
                        assert(p[k] < d.len());
                    }
                }
            }
        }
    }
}

/// After the batch is ordered by begin, the aggregate keeps exactly the
/// first feedback of each run of adjacent feedbacks with equal report ids,
/// in order: its `k`-th feedback is the one at the `k`-th run start.
pub proof fn lemma_aggregate_keeps_first_of_runs(batch: Seq<Feedback>)
    ensures
        ({
            let s = sorted_by_begin(batch);
            let r = aggregated(batch);
            let idx = run_starts(s);
            &&& r.len() == idx.len()
            &&& forall|k: int| 0 <= k < idx.len() ==> 0 <= #[trigger] idx[k] < s.len() && r[k] == s[idx[k]]
            &&& forall|k: int, l: int| 0 <= k < l < idx.len() ==> idx[k] < idx[l]
            &&& forall|i: int|
                0 <= i < s.len() ==> (starts_run(s, i) <==> exists|k: int|
                    0 <= k < idx.len() && #[trigger] idx[k] == i)
        }),
{
    lemma_dedup_run_starts(sorted_by_begin(batch));
}

} // verus!
