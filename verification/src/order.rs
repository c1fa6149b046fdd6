//! Newest-first ordering of tasks: a stable sort by entry time, latest first,
//! tasks without an entry time last (`b.entry.cmp(&a.entry)` with a stable sort).
use vstd::prelude::*;

use crate::models::{RecordView, TaskRecord, views};

verus! {

broadcast use vstd::seq_lib::group_seq_properties;

/// The rank by which tasks are ordered: the entry time, and below every
/// entry time when there is none.
pub open spec fn entry_rank(e: Option<i64>) -> int {
    match e {
        Some(t) => t as int,
        None => i64::MIN as int - 1,
    }
}

pub open spec fn rank(t: RecordView) -> int {
    entry_rank(t.entry)
}

/// The tasks of a given rank.
pub open spec fn with_rank(k: int) -> spec_fn(RecordView) -> bool {
    |t: RecordView| rank(t) == k
}

/// No task comes before a task of higher rank.
pub open spec fn is_newest_first(s: Seq<RecordView>) -> bool {
    forall|i: int, j: int| 0 <= i < j < s.len() ==> rank(#[trigger] s[i]) >= rank(#[trigger] s[j])
}

/// `x` put into `s` after the leading tasks of equal or higher rank.
pub open spec fn place_newest(s: Seq<RecordView>, x: RecordView) -> Seq<RecordView>
    decreases s.len(),
{
    if s.len() == 0 {
        seq![x]
    } else if rank(s[0]) >= rank(x) {
        seq![s[0]] + place_newest(s.drop_first(), x)
    } else {
        seq![x] + s
    }
}

/// The tasks of `s` newest first; tasks of equal rank keep their order in `s`.
pub open spec fn newest_first(s: Seq<RecordView>) -> Seq<RecordView>
    decreases s.len(),
{
    if s.len() == 0 {
        s
    } else {
        place_newest(newest_first(s.drop_last()), s.last())
    }
}

/// Whether a task with entry time `a` goes before one with entry time `b`
/// or stays before it (`a >= b` on optional times, none lowest).
pub fn not_older(a: Option<i64>, b: Option<i64>) -> (r: bool)
    ensures
        r == (entry_rank(a) >= entry_rank(b)),
{
    match (a, b) {
        (Some(x), Some(y)) => x >= y,
        (Some(_), None) => true,
        (None, Some(_)) => false,
        (None, None) => true,
    }
}

proof fn lemma_place_at(s: Seq<RecordView>, x: RecordView, p: int)
    requires
        0 <= p <= s.len(),
        forall|j: int| 0 <= j < p ==> rank(#[trigger] s[j]) >= rank(x),
        p == s.len() || rank(s[p]) < rank(x),
    ensures
        place_newest(s, x) == s.insert(p, x),
    decreases s.len(),
{
    if s.len() == 0 {
        assert(s.insert(p, x) =~= seq![x]);
    } else if p == 0 {
        assert(s.insert(p, x) =~= seq![x] + s);
    } else {
        let t = s.drop_first();
        assert forall|j: int| 0 <= j < p - 1 implies rank(#[trigger] t[j]) >= rank(x) by {
            assert(t[j] == s[j + 1]);
        }
        lemma_place_at(t, x, p - 1);
        assert(s.insert(p, x) =~= seq![s[0]] + t.insert(p - 1, x));
    }
}

/// The tasks of `v`, newest first, ties in their order in `v`.
pub fn sort_newest_first(v: &Vec<TaskRecord>) -> (r: Vec<TaskRecord>)
    ensures
        views(r@) == newest_first(views(v@)),
{
    let n = v.len();
    let mut out: Vec<TaskRecord> = Vec::new();
    let mut i: usize = 0;
    assert(views(v@).take(0) =~= Seq::<RecordView>::empty());
    assert(views(out@) =~= Seq::<RecordView>::empty());
    while i < n
        invariant
            n == v.len(),
            i <= n,
            views(out@) == newest_first(views(v@).take(i as int)),
        decreases n - i,
    {
        let x = v[i].duplicate();
        let m = out.len();
        let mut p: usize = 0;
        while p < m
            invariant
                m == out.len(),
                p <= m,
                forall|j: int| 0 <= j < p ==> rank(#[trigger] views(out@)[j]) >= rank(x@),
            ensures
                p <= m,
                forall|j: int| 0 <= j < p ==> rank(#[trigger] views(out@)[j]) >= rank(x@),
                p == m || rank(views(out@)[p as int]) < rank(x@),
            decreases m - p,
        {
            if !not_older(out[p].entry, x.entry) {
                break;
            }
            p = p + 1;
        }
        let ghost before = views(out@);
        proof {
            lemma_place_at(before, x@, p as int);
            let s = views(v@).take(i + 1);
            assert(s.drop_last() =~= views(v@).take(i as int));
            assert(s.last() == v@[i as int]@);
        }
        out.insert(p, x);
        assert(views(out@) =~= before.insert(p as int, x@));
        i = i + 1;
    }
    assert(views(v@).take(n as int) =~= views(v@));
    out
}

proof fn lemma_place_bound(s: Seq<RecordView>, x: RecordView, m: int)
    requires
        forall|j: int| 0 <= j < s.len() ==> rank(#[trigger] s[j]) <= m,
        rank(x) <= m,
    ensures
        forall|j: int|
            0 <= j < place_newest(s, x).len() ==> rank(#[trigger] place_newest(s, x)[j]) <= m,
        place_newest(s, x).len() == s.len() + 1,
    decreases s.len(),
{
    if s.len() > 0 && rank(s[0]) >= rank(x) {
        let t = s.drop_first();
        assert forall|j: int| 0 <= j < t.len() implies rank(#[trigger] t[j]) <= m by {
            assert(t[j] == s[j + 1]);
        }
        lemma_place_bound(t, x, m);
        let r = place_newest(s, x);
        assert forall|j: int| 0 <= j < r.len() implies rank(#[trigger] r[j]) <= m by {
            if j > 0 {
                assert(r[j] == place_newest(t, x)[j - 1]);
            }
        }
    } else if s.len() > 0 {
        let r = place_newest(s, x);
        assert forall|j: int| 0 <= j < r.len() implies rank(#[trigger] r[j]) <= m by {
            if j > 0 {
                assert(r[j] == s[j - 1]);
            }
        }
    }
}

proof fn lemma_place_sorted(s: Seq<RecordView>, x: RecordView)
    requires
        is_newest_first(s),
    ensures
        is_newest_first(place_newest(s, x)),
    decreases s.len(),
{
    if s.len() > 0 {
        let r = place_newest(s, x);
        if rank(s[0]) >= rank(x) {
            let t = s.drop_first();
            assert forall|i: int, j: int| 0 <= i < j < t.len() implies rank(#[trigger] t[i]) >= rank(
                #[trigger] t[j],
            ) by {
                assert(t[i] == s[i + 1] && t[j] == s[j + 1]);
            }
            lemma_place_sorted(t, x);
            assert forall|j: int| 0 <= j < t.len() implies rank(#[trigger] t[j]) <= rank(s[0]) by {
                assert(t[j] == s[j + 1]);
            }
            lemma_place_bound(t, x, rank(s[0]));
            let pt = place_newest(t, x);
            assert forall|i: int, j: int| 0 <= i < j < r.len() implies rank(#[trigger] r[i]) >= rank(
                #[trigger] r[j],
            ) by {
                assert(r[j] == pt[j - 1]);
                if i > 0 {
                    assert(r[i] == pt[i - 1]);
                }
            }
        } else {
            assert forall|i: int, j: int| 0 <= i < j < r.len() implies rank(#[trigger] r[i]) >= rank(
                #[trigger] r[j],
            ) by {
                assert(r[j] == s[j - 1]);
                if i > 0 {
                    assert(r[i] == s[i - 1]);
                } else {
                    assert(rank(s[0]) >= rank(s[j - 1]) || j - 1 == 0);
                }
            }
        }
    }
}

/// Law: the newest-first arrangement puts no task before a newer one.
pub proof fn lemma_newest_first_is_sorted(s: Seq<RecordView>)
    ensures
        is_newest_first(newest_first(s)),
    decreases s.len(),
{
    if s.len() > 0 {
        lemma_newest_first_is_sorted(s.drop_last());
        lemma_place_sorted(newest_first(s.drop_last()), s.last());
    }
}

/// Filtering a sequence extended by one element.
pub proof fn lemma_filter_push<A>(s: Seq<A>, f: spec_fn(A) -> bool, x: A)
    ensures
        s.push(x).filter(f) == (if f(x) {
            s.filter(f).push(x)
        } else {
            s.filter(f)
        }),
{
    reveal(Seq::filter);
    assert(s.push(x).drop_last() =~= s);
}

/// Filtering a sequence none of whose elements passes gives the empty sequence.
pub proof fn lemma_filter_none<A>(s: Seq<A>, f: spec_fn(A) -> bool)
    requires
        forall|i: int| 0 <= i < s.len() ==> !f(#[trigger] s[i]),
    ensures
        s.filter(f) == Seq::<A>::empty(),
    decreases s.len(),
{
    reveal(Seq::filter);
    if s.len() > 0 {
        let t = s.drop_last();
        assert forall|i: int| 0 <= i < t.len() implies !f(#[trigger] t[i]) by {
            assert(t[i] == s[i]);
        }
        lemma_filter_none(t, f);
    }
}

/// Filtering a one-element sequence.
pub proof fn lemma_filter_single<A>(x: A, f: spec_fn(A) -> bool)
    ensures
        seq![x].filter(f) == (if f(x) {
            seq![x]
        } else {
            Seq::<A>::empty()
        }),
{
    lemma_filter_push(Seq::<A>::empty(), f, x);
    lemma_filter_none(Seq::<A>::empty(), f);
    assert(Seq::<A>::empty().push(x) =~= seq![x]);
}

proof fn lemma_place_filter(s: Seq<RecordView>, x: RecordView, k: int)
    requires
        is_newest_first(s),
    ensures
        place_newest(s, x).filter(with_rank(k)) == (if rank(x) == k {
            s.filter(with_rank(k)).push(x)
        } else {
            s.filter(with_rank(k))
        }),
    decreases s.len(),
{
    let f = with_rank(k);
    broadcast use Seq::filter_distributes_over_add;

    if s.len() == 0 {
        lemma_filter_single(x, f);
        lemma_filter_none(s, f);
    } else if rank(s[0]) >= rank(x) {
        let t = s.drop_first();
        assert forall|i: int, j: int| 0 <= i < j < t.len() implies rank(#[trigger] t[i]) >= rank(
            #[trigger] t[j],
        ) by {
            assert(t[i] == s[i + 1] && t[j] == s[j + 1]);
        }
        lemma_place_filter(t, x, k);
        assert(s =~= seq![s[0]] + t);
        lemma_filter_single(s[0], f);
        assert((seq![s[0]] + place_newest(t, x)).filter(f) == seq![s[0]].filter(f)
            + place_newest(t, x).filter(f));
        assert((seq![s[0]] + t).filter(f) == seq![s[0]].filter(f) + t.filter(f));
        if rank(x) == k {
            assert(seq![s[0]].filter(f) + t.filter(f).push(x) =~= (seq![s[0]].filter(f)
                + t.filter(f)).push(x));
        }
    } else {
        lemma_filter_single(x, f);
        assert((seq![x] + s).filter(f) == seq![x].filter(f) + s.filter(f));
        if rank(x) == k {
            assert forall|i: int| 0 <= i < s.len() implies !f(#[trigger] s[i]) by {
                if i > 0 {
                    assert(rank(s[0]) >= rank(s[i]));
                }
            }
            lemma_filter_none(s, f);
            assert(seq![x] + Seq::<RecordView>::empty() =~= Seq::<RecordView>::empty().push(x));
        } else {
            assert(Seq::<RecordView>::empty() + s.filter(f) =~= s.filter(f));
        }
    }
}

/// Law: the newest-first arrangement is stable: for every entry time, the
/// tasks with that time come in the order in which they were given.
pub proof fn lemma_newest_first_is_stable(s: Seq<RecordView>, k: int)
    ensures
        newest_first(s).filter(with_rank(k)) == s.filter(with_rank(k)),
    decreases s.len(),
{
    if s.len() > 0 {
        let t = s.drop_last();
        lemma_newest_first_is_stable(t, k);
        lemma_newest_first_is_sorted(t);
        lemma_place_filter(newest_first(t), s.last(), k);
        lemma_filter_push(t, with_rank(k), s.last());
        assert(t.push(s.last()) =~= s);
    }
}

proof fn lemma_place_last(s: Seq<RecordView>, x: RecordView)
    requires
        forall|j: int| 0 <= j < s.len() ==> rank(#[trigger] s[j]) >= rank(x),
    ensures
        place_newest(s, x) == s.push(x),
    decreases s.len(),
{
    lemma_place_at(s, x, s.len() as int);
    assert(s.insert(s.len() as int, x) =~= s.push(x));
}

/// Law: tasks already newest first stay as they are.
pub proof fn lemma_newest_first_of_sorted(s: Seq<RecordView>)
    requires
        is_newest_first(s),
    ensures
        newest_first(s) == s,
    decreases s.len(),
{
    if s.len() > 0 {
        let t = s.drop_last();
        assert forall|i: int, j: int| 0 <= i < j < t.len() implies rank(#[trigger] t[i]) >= rank(
            #[trigger] t[j],
        ) by {
            assert(t[i] == s[i] && t[j] == s[j]);
        }
        lemma_newest_first_of_sorted(t);
        assert forall|j: int| 0 <= j < t.len() implies rank(#[trigger] t[j]) >= rank(s.last()) by {
            assert(t[j] == s[j]);
        }
        lemma_place_last(t, s.last());
        assert(t.push(s.last()) =~= s);
    }
}

/// Law: arranging newest first a second time changes nothing.
pub proof fn lemma_newest_first_idempotent(s: Seq<RecordView>)
    ensures
        newest_first(newest_first(s)) == newest_first(s),
{
    lemma_newest_first_is_sorted(s);
    lemma_newest_first_of_sorted(newest_first(s));
}

/// Keeping some tasks of a newest-first sequence keeps it newest first.
pub proof fn lemma_filter_keeps_sorted(s: Seq<RecordView>, f: spec_fn(RecordView) -> bool)
    requires
        is_newest_first(s),
    ensures
        is_newest_first(s.filter(f)),
        forall|j: int| 0 <= j < s.filter(f).len() ==> s.contains(#[trigger] s.filter(f)[j]),
    decreases s.len(),
{
    reveal(Seq::filter);
    if s.len() > 0 {
        let t = s.drop_last();
        assert forall|i: int, j: int| 0 <= i < j < t.len() implies rank(#[trigger] t[i]) >= rank(
            #[trigger] t[j],
        ) by {
            assert(t[i] == s[i] && t[j] == s[j]);
        }
        lemma_filter_keeps_sorted(t, f);
        let ft = t.filter(f);
        assert forall|j: int| 0 <= j < ft.len() implies s.contains(#[trigger] ft[j]) by {
            let i = choose|i: int| 0 <= i < t.len() && t[i] == ft[j];
            assert(s[i] == ft[j]);
        }
        if f(s.last()) {
            let r = ft.push(s.last());
            assert(s.filter(f) == r);
            assert forall|i: int, j: int| 0 <= i < j < r.len() implies rank(#[trigger] r[i]) >= rank(
                #[trigger] r[j],
            ) by {
                if j == r.len() - 1 {
                    assert(t.contains(ft[i]));
                    let m = choose|m: int| 0 <= m < t.len() && t[m] == ft[i];
                    assert(s[m] == ft[i]);
                    assert(rank(s[m]) >= rank(s[s.len() - 1]));
                }
            }
            assert forall|j: int| 0 <= j < r.len() implies s.contains(#[trigger] r[j]) by {
                if j == r.len() - 1 {
                    assert(s[s.len() - 1] == r[j]);
                } else {
                    assert(r[j] == ft[j]);
                }
            }
        }
    }
}

/// Taking a prefix of a newest-first sequence keeps it newest first.
pub proof fn lemma_take_keeps_sorted(s: Seq<RecordView>, n: int)
    requires
        is_newest_first(s),
        0 <= n <= s.len(),
    ensures
        is_newest_first(s.take(n)),
{
    let t = s.take(n);
    assert forall|i: int, j: int| 0 <= i < j < t.len() implies rank(#[trigger] t[i]) >= rank(
        #[trigger] t[j],
    ) by {
        assert(t[i] == s[i] && t[j] == s[j]);
    }
}

proof fn lemma_place_multiset(s: Seq<RecordView>, x: RecordView)
    ensures
        place_newest(s, x).to_multiset() =~= s.to_multiset().insert(x),
    decreases s.len(),
{
    broadcast use vstd::multiset::group_multiset_axioms;
    broadcast use vstd::seq_lib::lemma_multiset_commutative;
    broadcast use vstd::seq_lib::to_multiset_build;

    if s.len() == 0 {
        assert(seq![x] =~= s.push(x));
    } else if rank(s[0]) >= rank(x) {
        let t = s.drop_first();
        lemma_place_multiset(t, x);
        assert(s =~= seq![s[0]] + t);
        assert((seq![s[0]] + place_newest(t, x)).to_multiset() =~= seq![s[0]].to_multiset().add(
            place_newest(t, x).to_multiset(),
        ));
        assert((seq![s[0]] + t).to_multiset() =~= seq![s[0]].to_multiset().add(t.to_multiset()));
    } else {
        assert((seq![x] + s).to_multiset() =~= seq![x].to_multiset().add(s.to_multiset()));
        assert(seq![x] =~= Seq::<RecordView>::empty().push(x));
    }
}

/// Law: the newest-first arrangement holds exactly the given tasks, each as
/// often as it was given.
pub proof fn lemma_newest_first_is_permutation(s: Seq<RecordView>)
    ensures
        newest_first(s).to_multiset() =~= s.to_multiset(),
    decreases s.len(),
{
    broadcast use vstd::seq_lib::to_multiset_build;

    if s.len() > 0 {
        let t = s.drop_last();
        lemma_newest_first_is_permutation(t);
        lemma_place_multiset(newest_first(t), s.last());
        assert(t.push(s.last()) =~= s);
    }
}

/// No task of `s` has the uuid `u`.
pub open spec fn lacks_uuid(s: Seq<RecordView>, u: u128) -> bool {
    forall|k: int| 0 <= k < s.len() ==> (#[trigger] s[k]).uuid != u
}

/// No two tasks of `s` share a uuid.
pub open spec fn distinct_uuids(s: Seq<RecordView>) -> bool {
    forall|i: int, j: int|
        0 <= i < j < s.len() ==> (#[trigger] s[i]).uuid != (#[trigger] s[j]).uuid
}

proof fn lemma_filter_lacks(s: Seq<RecordView>, f: spec_fn(RecordView) -> bool, u: u128)
    requires
        lacks_uuid(s, u),
    ensures
        lacks_uuid(s.filter(f), u),
    decreases s.len(),
{
    if s.len() == 0 {
        lemma_filter_none(s, f);
    } else {
        let t = s.drop_last();
        assert(t.push(s.last()) =~= s);
        lemma_filter_lacks(t, f, u);
        lemma_filter_push(t, f, s.last());
    }
}

/// Law: filtering tasks with distinct uuids leaves tasks with distinct uuids.
pub proof fn lemma_filter_keeps_distinct(s: Seq<RecordView>, f: spec_fn(RecordView) -> bool)
    requires
        distinct_uuids(s),
    ensures
        distinct_uuids(s.filter(f)),
    decreases s.len(),
{
    if s.len() == 0 {
        lemma_filter_none(s, f);
    } else {
        let t = s.drop_last();
        let x = s.last();
        assert(t.push(x) =~= s);
        lemma_filter_keeps_distinct(t, f);
        lemma_filter_push(t, f, x);
        if f(x) {
            assert forall|k: int| 0 <= k < t.len() implies (#[trigger] t[k]).uuid != x.uuid by {
                assert(t[k] == s[k]);
            }
            lemma_filter_lacks(t, f, x.uuid);
            let r = t.filter(f).push(x);
            assert forall|i: int, j: int| 0 <= i < j < r.len() implies (#[trigger] r[i]).uuid
                != (#[trigger] r[j]).uuid by {
                assert(r[i] == t.filter(f)[i]);
                if j < r.len() - 1 {
                    assert(r[j] == t.filter(f)[j]);
                }
            }
        }
    }
}

proof fn lemma_place_lacks(s: Seq<RecordView>, x: RecordView, u: u128)
    requires
        lacks_uuid(s, u),
        x.uuid != u,
    ensures
        lacks_uuid(place_newest(s, x), u),
    decreases s.len(),
{
    let p = place_newest(s, x);
    if s.len() > 0 {
        if rank(s[0]) >= rank(x) {
            let t = s.drop_first();
            lemma_place_lacks(t, x, u);
            assert forall|k: int| 0 <= k < p.len() implies (#[trigger] p[k]).uuid != u by {
                if k > 0 {
                    assert(p[k] == place_newest(t, x)[k - 1]);
                }
            }
        } else {
            assert forall|k: int| 0 <= k < p.len() implies (#[trigger] p[k]).uuid != u by {
                if k > 0 {
                    assert(p[k] == s[k - 1]);
                }
            }
        }
    }
}

proof fn lemma_place_keeps_distinct(s: Seq<RecordView>, x: RecordView)
    requires
        distinct_uuids(s),
        lacks_uuid(s, x.uuid),
    ensures
        distinct_uuids(place_newest(s, x)),
    decreases s.len(),
{
    let p = place_newest(s, x);
    if s.len() > 0 {
        if rank(s[0]) >= rank(x) {
            let t = s.drop_first();
            assert forall|k: int| 0 <= k < t.len() implies (#[trigger] t[k]).uuid != s[0].uuid by {
                assert(t[k] == s[k + 1]);
            }
            lemma_place_keeps_distinct(t, x);
            lemma_place_lacks(t, x, s[0].uuid);
            let q = place_newest(t, x);
            assert forall|i: int, j: int| 0 <= i < j < p.len() implies (#[trigger] p[i]).uuid
                != (#[trigger] p[j]).uuid by {
                assert(p[j] == q[j - 1]);
                if i > 0 {
                    assert(p[i] == q[i - 1]);
                }
            }
        } else {
            assert forall|i: int, j: int| 0 <= i < j < p.len() implies (#[trigger] p[i]).uuid
                != (#[trigger] p[j]).uuid by {
                assert(p[j] == s[j - 1]);
                if i > 0 {
                    assert(p[i] == s[i - 1]);
                }
            }
        }
    }
}

proof fn lemma_newest_first_lacks(s: Seq<RecordView>, u: u128)
    requires
        lacks_uuid(s, u),
    ensures
        lacks_uuid(newest_first(s), u),
    decreases s.len(),
{
    if s.len() > 0 {
        let t = s.drop_last();
        lemma_newest_first_lacks(t, u);
        lemma_place_lacks(newest_first(t), s.last(), u);
    }
}

/// Law: arranging tasks with distinct uuids newest first leaves their uuids distinct.
pub proof fn lemma_newest_first_keeps_distinct(s: Seq<RecordView>)
    requires
        distinct_uuids(s),
    ensures
        distinct_uuids(newest_first(s)),
    decreases s.len(),
{
    if s.len() > 0 {
        let t = s.drop_last();
        assert forall|k: int| 0 <= k < t.len() implies (#[trigger] t[k]).uuid != s.last().uuid by {
            assert(t[k] == s[k]);
        }
        lemma_newest_first_keeps_distinct(t);
        lemma_newest_first_lacks(t, s.last().uuid);
        lemma_place_keeps_distinct(newest_first(t), s.last());
    }
}

} // verus!
