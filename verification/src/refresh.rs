//! How a fresh listing of processes replaces the rows on screen without reshuffling them:
//! processes that are still running keep their place, and new ones are appended in order of
//! their identity.

use vstd::prelude::*;
use crate::process::{ProcessSnapshot, SnapshotView, id_of};

verus! {

broadcast use vstd::seq_lib::group_to_multiset_ensures;

/// The views of a list of snapshots.
pub open spec fn rows_view(v: Seq<ProcessSnapshot>) -> Seq<SnapshotView> {
    v.map_values(|p: ProcessSnapshot| p@)
}

/// Whether some row of `s` has identity `id`.
pub open spec fn has_id(s: Seq<SnapshotView>, id: (u32, u64)) -> bool {
    exists|i: int| 0 <= i < s.len() && id_of(#[trigger] s[i]) == id
}

/// The last row of `s` with identity `id`: the one that a map keyed by identity keeps when it
/// is filled from `s` in order.
pub open spec fn last_with(s: Seq<SnapshotView>, id: (u32, u64)) -> SnapshotView
    decreases s.len(),
{
    if s.len() == 0 {
        vstd::pervasive::arbitrary()
    } else if id_of(s.last()) == id {
        s.last()
    } else {
        last_with(s.drop_last(), id)
    }
}

/// The rows that stay: for each old row, in order, whose identity is still listed and did not
/// occur in an earlier old row, the current row with that identity.
pub open spec fn kept(old: Seq<SnapshotView>, cur: Seq<SnapshotView>) -> Seq<SnapshotView>
    decreases old.len(),
{
    if old.len() == 0 {
        Seq::empty()
    } else {
        let before = kept(old.drop_last(), cur);
        let id = id_of(old.last());
        if has_id(cur, id) && !has_id(old.drop_last(), id) {
            before.push(last_with(cur, id))
        } else {
            before
        }
    }
}

/// Identities in the order of process id, then start time.
pub open spec fn id_less(a: (u32, u64), b: (u32, u64)) -> bool {
    a.0 < b.0 || (a.0 == b.0 && a.1 < b.1)
}

pub open spec fn id_le(a: (u32, u64), b: (u32, u64)) -> bool {
    id_less(a, b) || a == b
}

/// An identity that is listed now and was not on screen before.
pub open spec fn is_fresh(id: (u32, u64), old: Seq<SnapshotView>, cur: Seq<SnapshotView>) -> bool {
    has_id(cur, id) && !has_id(old, id)
}

/// `tail` holds each fresh identity once, in increasing order, each as the current row with
/// that identity.
pub open spec fn fresh_rows(
    tail: Seq<SnapshotView>,
    old: Seq<SnapshotView>,
    cur: Seq<SnapshotView>,
) -> bool {
    &&& forall|i: int, j: int|
        0 <= i < j < tail.len() ==> id_less(id_of(#[trigger] tail[i]), id_of(#[trigger] tail[j]))
    &&& forall|i: int|
        0 <= i < tail.len() ==> is_fresh(id_of(#[trigger] tail[i]), old, cur) && tail[i]
            == last_with(cur, id_of(tail[i]))
    &&& forall|id: (u32, u64)| #[trigger] is_fresh(id, old, cur) ==> has_id(tail, id)
}

/// The rows after a refresh: the kept rows in their old order, then the fresh ones.
pub open spec fn merged(
    res: Seq<SnapshotView>,
    old: Seq<SnapshotView>,
    cur: Seq<SnapshotView>,
) -> bool {
    let k = kept(old, cur).len();
    &&& k <= res.len()
    &&& res.take(k as int) == kept(old, cur)
    &&& fresh_rows(res.skip(k as int), old, cur)
}

/// Whether two identities are the same.
pub fn same_id(a: (u32, u64), b: (u32, u64)) -> (res: bool)
    ensures
        res == (a == b),
{
    a.0 == b.0 && a.1 == b.1
}

/// Whether identity `a` comes before `b`.
pub fn id_before(a: (u32, u64), b: (u32, u64)) -> (res: bool)
    ensures
        res == id_less(a, b),
{
    a.0 < b.0 || (a.0 == b.0 && a.1 < b.1)
}

proof fn lemma_last_with(s: Seq<SnapshotView>, j: int)
    requires
        0 <= j < s.len(),
        forall|k: int| j < k < s.len() ==> id_of(#[trigger] s[k]) != id_of(s[j]),
    ensures
        last_with(s, id_of(s[j])) == s[j],
    decreases s.len(),
{
    if j < s.len() - 1 {
        assert(id_of(s.last()) != id_of(s[j]));
        assert forall|k: int| j < k < s.drop_last().len() implies id_of(#[trigger] s.drop_last()[k])
            != id_of(s.drop_last()[j]) by {
            assert(s.drop_last()[k] == s[k]);
        }
        lemma_last_with(s.drop_last(), j);
    }
}

/// The index of the last row with identity `id`, if any.
fn find_last(rows: &Vec<ProcessSnapshot>, id: (u32, u64)) -> (res: Option<usize>)
    ensures
        match res {
            Some(j) => j < rows.len() && id_of(rows@[j as int]@) == id && last_with(
                rows_view(rows@),
                id,
            ) == rows@[j as int]@,
            None => !has_id(rows_view(rows@), id),
        },
{
    let mut j: usize = rows.len();
    while j > 0
        invariant
            j <= rows.len(),
            forall|k: int| j <= k < rows.len() ==> id_of(#[trigger] rows@[k]@) != id,
        decreases j,
    {
        if same_id(rows[j - 1].identity(), id) {
            proof {
                let s = rows_view(rows@);
                assert forall|k: int| j - 1 < k < s.len() implies id_of(#[trigger] s[k]) != id_of(
                    s[j - 1],
                ) by {
                    assert(s[k] == rows@[k]@);
                }
                lemma_last_with(s, j - 1);
            }
            return Some(j - 1);
        }
        j = j - 1;
    }
    assert(!has_id(rows_view(rows@), id)) by {
        if has_id(rows_view(rows@), id) {
            let i = choose|i: int|
                0 <= i < rows_view(rows@).len() && id_of(#[trigger] rows_view(rows@)[i]) == id;
            assert(rows_view(rows@)[i] == rows@[i]@);
        }
    }
    None
}

/// Whether one of the first `n` rows has identity `id`.
fn has_id_in(rows: &Vec<ProcessSnapshot>, n: usize, id: (u32, u64)) -> (res: bool)
    requires
        n <= rows.len(),
    ensures
        res == has_id(rows_view(rows@).take(n as int), id),
{
    let mut i: usize = 0;
    while i < n
        invariant
            i <= n <= rows.len(),
            forall|k: int| 0 <= k < i ==> id_of(#[trigger] rows@[k]@) != id,
        decreases n - i,
    {
        if same_id(rows[i].identity(), id) {
            assert(rows_view(rows@).take(n as int)[i as int] == rows@[i as int]@);
            return true;
        }
        i = i + 1;
    }
    assert(!has_id(rows_view(rows@).take(n as int), id)) by {
        if has_id(rows_view(rows@).take(n as int), id) {
            let k = choose|k: int|
                0 <= k < rows_view(rows@).take(n as int).len() && id_of(
                    #[trigger] rows_view(rows@).take(n as int)[k],
                ) == id;
            assert(rows_view(rows@).take(n as int)[k] == rows@[k]@);
        }
    }
    false
}


/// The rows that stay, in their old order.
fn kept_rows(old: &Vec<ProcessSnapshot>, cur: &Vec<ProcessSnapshot>) -> (res: Vec<ProcessSnapshot>)
    ensures
        rows_view(res@) == kept(rows_view(old@), rows_view(cur@)),
{
    let mut out: Vec<ProcessSnapshot> = Vec::new();
    let mut i: usize = 0;
    while i < old.len()
        invariant
            i <= old.len(),
            rows_view(out@) == kept(rows_view(old@).take(i as int), rows_view(cur@)),
        decreases old.len() - i,
    {
        let id = old[i].identity();
        let seen = has_id_in(old, i, id);
        let ghost pre = rows_view(old@).take(i as int);
        let ghost now = rows_view(old@).take(i + 1);
        assert(now.drop_last() =~= pre);
        assert(now.last() == old@[i as int]@);
        if !seen {
            match find_last(cur, id) {
                Some(j) => {
                    assert(rows_view(cur@)[j as int] == cur@[j as int]@);
                    let ghost before = rows_view(out@);
                    out.push(cur[j].duplicate());
                    assert(rows_view(out@) =~= before.push(cur@[j as int]@));
                },
                None => {},
            }
        }
        i = i + 1;
    }
    assert(rows_view(old@).take(old.len() as int) =~= rows_view(old@));
    out
}

/// The identities that are listed now and were not on screen before, each once.
fn fresh_ids(old: &Vec<ProcessSnapshot>, cur: &Vec<ProcessSnapshot>) -> (res: Vec<(u32, u64)>)
    ensures
        res@.no_duplicates(),
        forall|id: (u32, u64)|
            res@.contains(id) <==> is_fresh(id, rows_view(old@), rows_view(cur@)),
{
    let mut ids: Vec<(u32, u64)> = Vec::new();
    let mut j: usize = 0;
    while j < cur.len()
        invariant
            j <= cur.len(),
            ids@.no_duplicates(),
            forall|id: (u32, u64)|
                ids@.contains(id) <==> (has_id(rows_view(cur@).take(j as int), id) && !has_id(
                    rows_view(old@),
                    id,
                )),
        decreases cur.len() - j,
    {
        let id = cur[j].identity();
        let in_old = has_id_in(old, old.len(), id);
        assert(rows_view(old@).take(old.len() as int) =~= rows_view(old@));
        let mut listed = false;
        let mut k: usize = 0;
        while k < ids.len()
            invariant
                k <= ids.len(),
                listed == (exists|t: int| 0 <= t < k && ids@[t] == id),
            decreases ids.len() - k,
        {
            if same_id(ids[k], id) {
                listed = true;
            }
            k = k + 1;
        }
        let ghost before = ids@;
        if !in_old && !listed {
            ids.push(id);
            assert(ids@ =~= before.push(id));
        }
        proof {
            let pre = rows_view(cur@).take(j as int);
            let now = rows_view(cur@).take(j + 1);
            assert(now =~= pre.push(cur@[j as int]@));
            let oldv = rows_view(old@);
            assert(listed == before.contains(id));
            assert forall|x: (u32, u64)| ids@.contains(x) implies (has_id(now, x) && !has_id(
                oldv,
                x,
            )) by {
                if x == id && !before.contains(x) {
                    assert(now[j as int] == cur@[j as int]@);
                    assert(!in_old);
                } else {
                    assert(before.contains(x));
                    let t = choose|t: int| 0 <= t < pre.len() && id_of(#[trigger] pre[t]) == x;
                    assert(pre[t] == now[t]);
                }
            }
            assert forall|x: (u32, u64)| (has_id(now, x) && !has_id(oldv, x)) implies ids@.contains(
                x,
            ) by {
                let t = choose|t: int| 0 <= t < now.len() && id_of(#[trigger] now[t]) == x;
                if t < j {
                    assert(pre[t] == now[t]);
                    assert(before.contains(x));
                    if ids@ != before {
                        let u = choose|u: int| 0 <= u < before.len() && before[u] == x;
                        assert(ids@[u] == x);
                    }
                } else {
                    assert(now[t] == cur@[j as int]@);
                    assert(x == id);
                    if !listed {
                        assert(ids@[before.len() as int] == id);
                    }
                }
            }
        }
        j = j + 1;
    }
    assert(rows_view(cur@).take(cur.len() as int) =~= rows_view(cur@));
    ids
}

/// The identities in increasing order.
fn sort_ids(ids: Vec<(u32, u64)>) -> (res: Vec<(u32, u64)>)
    ensures
        res@.to_multiset() == ids@.to_multiset(),
        forall|i: int, j: int| 0 <= i < j < res.len() ==> id_le(res@[i], res@[j]),
{
    let mut rest = ids;
    let mut out: Vec<(u32, u64)> = Vec::new();
    while rest.len() > 0
        invariant
            out@.to_multiset().add(rest@.to_multiset()) == ids@.to_multiset(),
            forall|i: int, j: int| 0 <= i < j < out.len() ==> id_le(out@[i], out@[j]),
        decreases rest.len(),
    {
        let ghost rest0 = rest@;
        let x = rest.pop().unwrap();
        assert(rest0 =~= rest@.push(x));
        let mut p: usize = 0;
        while p < out.len() && !id_before(x, out[p])
            invariant
                p <= out.len(),
                forall|i: int| 0 <= i < p ==> id_le(#[trigger] out@[i], x),
            decreases out.len() - p,
        {
            p = p + 1;
        }
        let ghost out0 = out@;
        out.insert(p, x);
        proof {
            assert(out@ == out0.insert(p as int, x));
            vstd::seq_lib::to_multiset_insert(out0, p as int, x);
            vstd::seq_lib::to_multiset_build(rest@, x);
            assert(out@.to_multiset().add(rest@.to_multiset()) =~= ids@.to_multiset());
            assert forall|i: int, j: int| 0 <= i < j < out.len() implies id_le(out@[i], out@[j]) by {
                if j < p {
                    assert(out@[i] == out0[i] && out@[j] == out0[j]);
                } else if j == p {
                    assert(out@[i] == out0[i]);
                } else if i == p {
                    assert(out@[j] == out0[j - 1]);
                    assert(id_less(x, out0[p as int]));
                    assert(id_le(out0[p as int], out0[j - 1]));
                } else if i < p {
                    assert(out@[i] == out0[i] && out@[j] == out0[j - 1]);
                } else {
                    assert(out@[i] == out0[i - 1] && out@[j] == out0[j - 1]);
                }
            }
        }
    }
    assert(out@.to_multiset().add(rest@.to_multiset()) =~= out@.to_multiset());
    out
}


/// The rows after a refresh: the processes of `old` that are still listed in `cur` keep their
/// order (each taking its current values), and processes that are new are appended in order
/// of process id and start time. When `cur` lists an identity twice, its last row counts.
pub fn merge_rows(old: &Vec<ProcessSnapshot>, cur: &Vec<ProcessSnapshot>) -> (res: Vec<
    ProcessSnapshot,
>)
    ensures
        merged(rows_view(res@), rows_view(old@), rows_view(cur@)),
{
    let ghost oldv = rows_view(old@);
    let ghost curv = rows_view(cur@);
    let mut out = kept_rows(old, cur);
    let ghost k = out.len() as int;
    let ids0 = fresh_ids(old, cur);
    let ids = sort_ids(ids0);
    proof {
        ids0@.lemma_multiset_has_no_duplicates();
        ids@.lemma_multiset_has_no_duplicates_conv();
        assert forall|id: (u32, u64)| ids@.contains(id) <==> is_fresh(id, oldv, curv) by {
            assert(ids@.to_multiset().contains(id) <==> ids0@.to_multiset().contains(id));
        }
    }
    let mut t: usize = 0;
    while t < ids.len()
        invariant
            t <= ids.len(),
            k == kept(oldv, curv).len(),
            oldv == rows_view(old@),
            curv == rows_view(cur@),
            out.len() == k + t,
            rows_view(out@).take(k) == kept(oldv, curv),
            forall|i: int|
                0 <= i < t ==> id_of(#[trigger] rows_view(out@)[k + i]) == ids@[i]
                    && rows_view(out@)[k + i] == last_with(curv, ids@[i]),
            forall|id: (u32, u64)| ids@.contains(id) <==> is_fresh(id, oldv, curv),
        decreases ids.len() - t,
    {
        let id = ids[t];
        assert(ids@.contains(id));
        match find_last(cur, id) {
            Some(j) => {
                let ghost before = rows_view(out@);
                out.push(cur[j].duplicate());
                assert(rows_view(out@) =~= before.push(cur@[j as int]@));
                assert(rows_view(out@).take(k) =~= before.take(k));
            },
            None => {
                assert(false);
            },
        }
        t = t + 1;
    }
    proof {
        let res = rows_view(out@);
        let tail = res.skip(k);
        assert forall|i: int, j: int| 0 <= i < j < tail.len() implies id_less(
            id_of(#[trigger] tail[i]),
            id_of(#[trigger] tail[j]),
        ) by {
            assert(tail[i] == res[k + i] && tail[j] == res[k + j]);
            assert(ids@[i] != ids@[j]);
            assert(id_le(ids@[i], ids@[j]));
            assert(id_of(res[k + i]) == ids@[i]);
            assert(id_of(res[k + j]) == ids@[j]);
        }
        assert forall|i: int| 0 <= i < tail.len() implies is_fresh(id_of(#[trigger] tail[i]), oldv, curv)
            && tail[i] == last_with(curv, id_of(tail[i])) by {
            assert(tail[i] == res[k + i]);
            assert(ids@.contains(ids@[i]));
        }
        assert forall|id: (u32, u64)| #[trigger] is_fresh(id, oldv, curv) implies has_id(tail, id) by {
            assert(ids@.contains(id));
            let u = choose|u: int| 0 <= u < ids.len() && ids@[u] == id;
            assert(tail[u] == res[k + u]);
        }
    }
    out
}


// ---------------------------------------------------------------------------------------------
// Laws of a refresh.

/// The identities of rows, in order.
pub open spec fn ids_of(s: Seq<SnapshotView>) -> Seq<(u32, u64)> {
    s.map_values(|v: SnapshotView| id_of(v))
}

/// No identity occurs twice.
pub open spec fn distinct_ids(s: Seq<SnapshotView>) -> bool {
    forall|i: int, j: int| 0 <= i < j < s.len() ==> id_of(#[trigger] s[i]) != id_of(#[trigger] s[j])
}

/// The identities of `old` that are still listed in `cur`, in their old order.
pub open spec fn still_listed(old: Seq<SnapshotView>, cur: Seq<SnapshotView>) -> Seq<(u32, u64)>
    decreases old.len(),
{
    if old.len() == 0 {
        Seq::empty()
    } else {
        let before = still_listed(old.drop_last(), cur);
        if has_id(cur, id_of(old.last())) {
            before.push(id_of(old.last()))
        } else {
            before
        }
    }
}

proof fn lemma_has_id_drop_last(s: Seq<SnapshotView>, id: (u32, u64))
    requires
        s.len() > 0,
    ensures
        has_id(s, id) <==> (has_id(s.drop_last(), id) || id_of(s.last()) == id),
{
    if has_id(s, id) {
        let i = choose|i: int| 0 <= i < s.len() && id_of(#[trigger] s[i]) == id;
        if i < s.len() - 1 {
            assert(s.drop_last()[i] == s[i]);
        }
    }
    if has_id(s.drop_last(), id) {
        let i = choose|i: int| 0 <= i < s.drop_last().len() && id_of(#[trigger] s.drop_last()[i]) == id;
        assert(s[i] == s.drop_last()[i]);
    }
    if id_of(s.last()) == id {
        assert(s[s.len() - 1] == s.last());
    }
}

proof fn lemma_has_id_push(s: Seq<SnapshotView>, x: SnapshotView, id: (u32, u64))
    ensures
        has_id(s.push(x), id) <==> (has_id(s, id) || id_of(x) == id),
{
    assert(s.push(x).drop_last() =~= s);
    lemma_has_id_drop_last(s.push(x), id);
}

proof fn lemma_last_with_has(s: Seq<SnapshotView>, id: (u32, u64))
    requires
        has_id(s, id),
    ensures
        id_of(last_with(s, id)) == id,
    decreases s.len(),
{
    lemma_has_id_drop_last(s, id);
    if id_of(s.last()) != id {
        lemma_last_with_has(s.drop_last(), id);
    }
}

/// The kept rows hold exactly the identities that were on screen and are still listed, each
/// once, each as its current row.
pub proof fn lemma_kept(old: Seq<SnapshotView>, cur: Seq<SnapshotView>)
    ensures
        distinct_ids(kept(old, cur)),
        forall|id: (u32, u64)|
            has_id(kept(old, cur), id) <==> (has_id(old, id) && has_id(cur, id)),
        forall|i: int|
            0 <= i < kept(old, cur).len() ==> #[trigger] kept(old, cur)[i] == last_with(
                cur,
                id_of(kept(old, cur)[i]),
            ),
    decreases old.len(),
{
    if old.len() > 0 {
        lemma_kept(old.drop_last(), cur);
        let before = kept(old.drop_last(), cur);
        let id = id_of(old.last());
        assert forall|x: (u32, u64)| has_id(kept(old, cur), x) <==> (has_id(old, x) && has_id(cur, x)) by {
            lemma_has_id_drop_last(old, x);
            if has_id(cur, id) && !has_id(old.drop_last(), id) {
                lemma_last_with_has(cur, id);
                lemma_has_id_push(before, last_with(cur, id), x);
            }
        }
        if has_id(cur, id) && !has_id(old.drop_last(), id) {
            lemma_last_with_has(cur, id);
            let k = kept(old, cur);
            assert forall|i: int, j: int| 0 <= i < j < k.len() implies id_of(#[trigger] k[i]) != id_of(
                #[trigger] k[j],
            ) by {
                if j == k.len() - 1 {
                    assert(k[i] == before[i]);
                    if id_of(before[i]) == id {
                        assert(has_id(before, id));
                    }
                } else {
                    assert(k[i] == before[i] && k[j] == before[j]);
                }
            }
            assert forall|i: int| 0 <= i < k.len() implies #[trigger] k[i] == last_with(cur, id_of(k[i])) by {
                if i < k.len() - 1 {
                    assert(k[i] == before[i]);
                }
            }
        }
    }
}

/// After a refresh, each process that is listed now appears exactly once, and nothing else
/// appears; each row holds the current values of its process.
pub proof fn lemma_refresh_shows_each_listed_process_once(
    res: Seq<SnapshotView>,
    old: Seq<SnapshotView>,
    cur: Seq<SnapshotView>,
)
    requires
        merged(res, old, cur),
    ensures
        distinct_ids(res),
        forall|id: (u32, u64)| has_id(res, id) <==> has_id(cur, id),
        forall|i: int| 0 <= i < res.len() ==> #[trigger] res[i] == last_with(cur, id_of(res[i])),
{
    lemma_kept(old, cur);
    let k = kept(old, cur).len() as int;
    let head = res.take(k);
    let tail = res.skip(k);
    assert forall|i: int| 0 <= i < res.len() implies #[trigger] res[i] == last_with(cur, id_of(res[i])) by {
        if i < k {
            assert(res[i] == head[i]);
        } else {
            assert(res[i] == tail[i - k]);
        }
    }
    assert forall|i: int, j: int| 0 <= i < j < res.len() implies id_of(#[trigger] res[i]) != id_of(
        #[trigger] res[j],
    ) by {
        if j < k {
            assert(res[i] == head[i] && res[j] == head[j]);
        } else if i >= k {
            assert(res[i] == tail[i - k] && res[j] == tail[j - k]);
        } else {
            assert(res[i] == head[i] && res[j] == tail[j - k]);
            assert(is_fresh(id_of(tail[j - k]), old, cur));
            assert(has_id(head, id_of(head[i])));
        }
    }
    assert forall|id: (u32, u64)| has_id(res, id) <==> has_id(cur, id) by {
        if has_id(res, id) {
            let i = choose|i: int| 0 <= i < res.len() && id_of(#[trigger] res[i]) == id;
            if i < k {
                assert(res[i] == head[i]);
                assert(has_id(head, id));
            } else {
                assert(res[i] == tail[i - k]);
            }
        }
        if has_id(cur, id) {
            if has_id(old, id) {
                assert(has_id(head, id));
                let i = choose|i: int| 0 <= i < head.len() && id_of(#[trigger] head[i]) == id;
                assert(res[i] == head[i]);
            } else {
                assert(is_fresh(id, old, cur));
                assert(has_id(tail, id));
                let i = choose|i: int| 0 <= i < tail.len() && id_of(#[trigger] tail[i]) == id;
                assert(res[k + i] == tail[i]);
            }
        }
    }
}

proof fn lemma_kept_ids(old: Seq<SnapshotView>, cur: Seq<SnapshotView>)
    requires
        distinct_ids(old),
    ensures
        ids_of(kept(old, cur)) == still_listed(old, cur),
    decreases old.len(),
{
    if old.len() > 0 {
        let pre = old.drop_last();
        assert(distinct_ids(pre)) by {
            assert forall|i: int, j: int| 0 <= i < j < pre.len() implies id_of(#[trigger] pre[i]) != id_of(
                #[trigger] pre[j],
            ) by {
                assert(pre[i] == old[i] && pre[j] == old[j]);
            }
        }
        lemma_kept_ids(pre, cur);
        let id = id_of(old.last());
        assert(!has_id(pre, id)) by {
            if has_id(pre, id) {
                let i = choose|i: int| 0 <= i < pre.len() && id_of(#[trigger] pre[i]) == id;
                assert(pre[i] == old[i]);
                assert(old[old.len() - 1] == old.last());
            }
        }
        if has_id(cur, id) {
            lemma_last_with_has(cur, id);
            assert(ids_of(kept(old, cur)) =~= ids_of(kept(pre, cur)).push(id));
        }
    }
}

/// Processes that were on screen and are still running keep their order: the refreshed rows
/// begin with them, in their old order (when no identity was shown twice).
pub proof fn lemma_refresh_keeps_running_processes_in_place(
    res: Seq<SnapshotView>,
    old: Seq<SnapshotView>,
    cur: Seq<SnapshotView>,
)
    requires
        merged(res, old, cur),
        distinct_ids(old),
    ensures
        still_listed(old, cur).len() <= res.len(),
        ids_of(res).take(still_listed(old, cur).len() as int) == still_listed(old, cur),
{
    lemma_kept_ids(old, cur);
    let k = kept(old, cur).len() as int;
    assert(ids_of(res).take(k) =~= ids_of(res.take(k)));
}

proof fn lemma_still_listed_all(old: Seq<SnapshotView>, cur: Seq<SnapshotView>)
    requires
        forall|id: (u32, u64)| has_id(old, id) ==> has_id(cur, id),
    ensures
        still_listed(old, cur) == ids_of(old),
    decreases old.len(),
{
    if old.len() > 0 {
        let pre = old.drop_last();
        assert forall|id: (u32, u64)| has_id(pre, id) implies has_id(cur, id) by {
            lemma_has_id_drop_last(old, id);
        }
        lemma_still_listed_all(pre, cur);
        lemma_has_id_drop_last(old, id_of(old.last()));
        assert(ids_of(old) =~= ids_of(pre).push(id_of(old.last())));
    }
}

/// While the same processes run, a refresh does not reorder the table: the rows keep their
/// identities in the same order and only their values change.
pub proof fn lemma_refresh_is_stable(res: Seq<SnapshotView>, old: Seq<SnapshotView>, cur: Seq<SnapshotView>)
    requires
        merged(res, old, cur),
        distinct_ids(old),
        forall|id: (u32, u64)| has_id(old, id) <==> has_id(cur, id),
    ensures
        ids_of(res) == ids_of(old),
{
    lemma_refresh_keeps_running_processes_in_place(res, old, cur);
    lemma_still_listed_all(old, cur);
    lemma_kept(old, cur);
    lemma_kept_ids(old, cur);
    let k = kept(old, cur).len() as int;
    assert(ids_of(kept(old, cur)).len() == k);
    let tail = res.skip(k);
    if tail.len() > 0 {
        assert(is_fresh(id_of(tail[0]), old, cur));
    }
    assert(res.len() == k);
    assert(ids_of(res).take(k) =~= ids_of(res));
}

} // verus!
