//! The order of rows in each sort mode, and sorting the table by it.

use vstd::prelude::*;
use crate::process::{ProcessSnapshot, SnapshotView};
use crate::refresh::rows_view;
use crate::sort_mode::{SortMode, spec_descending};
use crate::text::{
    Order, flip, then, compare_int, compare_chars, ascii_lower, compare_char_seqs, lower_chars,
    chars_of, lemma_compare_chars_basic, lemma_compare_chars_trans,
};

verus! {

broadcast use vstd::seq_lib::group_to_multiset_ensures;

/// Whether the bits are those of a `f32` NaN.
pub open spec fn cpu_is_nan(bits: u32) -> bool {
    bits % 0x8000_0000 > 0x7f80_0000
}

/// A number that orders non-NaN `f32` values as their values are ordered (both zeros alike).
pub open spec fn cpu_key(bits: u32) -> int {
    let magnitude = (bits % 0x8000_0000) as int;
    if bits >= 0x8000_0000 {
        -magnitude
    } else {
        magnitude
    }
}

/// The order of two CPU shares as the partial comparison of `f32` values gives it, a NaN comparing equal to
/// everything.
pub open spec fn cpu_order(a: u32, b: u32) -> Order {
    if cpu_is_nan(a) || cpu_is_nan(b) {
        Order::Equal
    } else {
        compare_int(cpu_key(a), cpu_key(b))
    }
}

/// Rows in order of process id, then start time.
pub open spec fn id_order(a: SnapshotView, b: SnapshotView) -> Order {
    then(compare_int(a.pid as int, b.pid as int), compare_int(a.start_time as int, b.start_time as int))
}

/// Rows by name without regard to ASCII case, then by exact name.
pub open spec fn name_order(a: SnapshotView, b: SnapshotView) -> Order {
    then(compare_chars(ascii_lower(a.name), ascii_lower(b.name)), compare_chars(a.name, b.name))
}

/// The order that the mode sorts by, smallest first.
pub open spec fn primary_order(mode: SortMode, a: SnapshotView, b: SnapshotView) -> Order {
    match mode {
        SortMode::Normal => id_order(a, b),
        SortMode::NameAsc | SortMode::NameDesc => name_order(a, b),
        SortMode::CpuDesc | SortMode::CpuAsc => cpu_order(a.cpu_percent_bits, b.cpu_percent_bits),
        SortMode::MemoryDesc | SortMode::MemoryAsc => compare_int(
            a.memory_bytes as int,
            b.memory_bytes as int,
        ),
    }
}

/// The order of two rows in `mode`: the mode's order (reversed for the largest-first and Z-to-A
/// modes), ties broken by process id and start time.
pub open spec fn row_order(mode: SortMode, a: SnapshotView, b: SnapshotView) -> Order {
    let p = primary_order(mode, a, b);
    then(if spec_descending(mode) { flip(p) } else { p }, id_order(a, b))
}

/// Whether a row can be placed in `mode`: in the CPU modes its CPU share must not be NaN.
pub open spec fn orderable(mode: SortMode, a: SnapshotView) -> bool {
    (mode == SortMode::CpuDesc || mode == SortMode::CpuAsc) ==> !cpu_is_nan(a.cpu_percent_bits)
}

/// Rows in the order of `mode`.
pub open spec fn sorted_rows(mode: SortMode, rows: Seq<SnapshotView>) -> bool {
    forall|i: int, j: int|
        0 <= i < j < rows.len() ==> row_order(mode, #[trigger] rows[i], #[trigger] rows[j])
            != Order::Greater
}

/// The order of rows, for orderable rows, is a total order: swapping two rows flips it,
/// and it is transitive.
pub proof fn lemma_row_order_total(mode: SortMode, a: SnapshotView, b: SnapshotView, c: SnapshotView)
    requires
        orderable(mode, a),
        orderable(mode, b),
        orderable(mode, c),
    ensures
        row_order(mode, b, a) == flip(row_order(mode, a, b)),
        row_order(mode, a, b) != Order::Greater && row_order(mode, b, c) != Order::Greater
            ==> row_order(mode, a, c) != Order::Greater,
{
    lemma_compare_chars_basic(ascii_lower(a.name), ascii_lower(b.name));
    lemma_compare_chars_basic(ascii_lower(b.name), ascii_lower(c.name));
    lemma_compare_chars_basic(ascii_lower(a.name), ascii_lower(c.name));
    lemma_compare_chars_basic(a.name, b.name);
    lemma_compare_chars_basic(b.name, c.name);
    lemma_compare_chars_basic(a.name, c.name);
    lemma_compare_chars_trans(ascii_lower(a.name), ascii_lower(b.name), ascii_lower(c.name));
    lemma_compare_chars_trans(ascii_lower(c.name), ascii_lower(b.name), ascii_lower(a.name));
    lemma_compare_chars_trans(a.name, b.name, c.name);
    lemma_compare_chars_trans(c.name, b.name, a.name);
}

/// Compares two CPU shares as `f32` values, a NaN comparing equal to everything.
pub fn compare_cpu(a: u32, b: u32) -> (res: Order)
    ensures
        res == cpu_order(a, b),
{
    if a % 0x8000_0000 > 0x7f80_0000 || b % 0x8000_0000 > 0x7f80_0000 {
        return Order::Equal;
    }
    let ka: i64 = if a >= 0x8000_0000 { -((a % 0x8000_0000) as i64) } else { a as i64 };
    let kb: i64 = if b >= 0x8000_0000 { -((b % 0x8000_0000) as i64) } else { b as i64 };
    if ka < kb {
        Order::Less
    } else if ka == kb {
        Order::Equal
    } else {
        Order::Greater
    }
}

fn compare_u64(a: u64, b: u64) -> (res: Order)
    ensures
        res == compare_int(a as int, b as int),
{
    if a < b {
        Order::Less
    } else if a == b {
        Order::Equal
    } else {
        Order::Greater
    }
}

fn then_exec(first: Order, second: Order) -> (res: Order)
    ensures
        res == then(first, second),
{
    match first {
        Order::Equal => second,
        _ => first,
    }
}

fn flip_exec(o: Order) -> (res: Order)
    ensures
        res == flip(o),
{
    match o {
        Order::Less => Order::Greater,
        Order::Equal => Order::Equal,
        Order::Greater => Order::Less,
    }
}

/// Compares two rows in the order of `mode`.
pub fn compare_rows(mode: SortMode, a: &ProcessSnapshot, b: &ProcessSnapshot) -> (res: Order)
    ensures
        res == row_order(mode, a@, b@),
{
    let by_id = then_exec(
        compare_u64(a.pid as u64, b.pid as u64),
        compare_u64(a.start_time, b.start_time),
    );
    let primary = match mode {
        SortMode::Normal => by_id,
        SortMode::NameAsc | SortMode::NameDesc => {
            let na = chars_of(a.name.as_str());
            let nb = chars_of(b.name.as_str());
            let la = lower_chars(&na);
            let lb = lower_chars(&nb);
            then_exec(compare_char_seqs(&la, &lb), compare_char_seqs(&na, &nb))
        },
        SortMode::CpuDesc | SortMode::CpuAsc => compare_cpu(a.cpu_percent_bits, b.cpu_percent_bits),
        SortMode::MemoryDesc | SortMode::MemoryAsc => compare_u64(a.memory_bytes, b.memory_bytes),
    };
    let directed = if mode.is_descending() {
        flip_exec(primary)
    } else {
        primary
    };
    then_exec(directed, by_id)
}

/// Sorts rows in the order of `mode`. The result holds the same rows; it is in order when
/// every row is orderable in `mode`.
pub fn sort_rows(rows: Vec<ProcessSnapshot>, mode: SortMode) -> (res: Vec<ProcessSnapshot>)
    ensures
        res@.to_multiset() == rows@.to_multiset(),
        (forall|i: int| 0 <= i < rows.len() ==> orderable(mode, #[trigger] rows@[i]@))
            ==> sorted_rows(mode, rows_view(res@)),
{
    let ghost all_ok = forall|i: int| 0 <= i < rows.len() ==> orderable(mode, #[trigger] rows@[i]@);
    let ghost input_rows = rows@;
    let mut rest = rows;
    let mut out: Vec<ProcessSnapshot> = Vec::new();
    while rest.len() > 0
        invariant
            out@.to_multiset().add(rest@.to_multiset()) == input_rows.to_multiset(),
            all_ok == (forall|i: int| 0 <= i < input_rows.len() ==> orderable(mode, #[trigger] input_rows[i]@)),
            all_ok ==> forall|i: int| 0 <= i < rest.len() ==> orderable(mode, #[trigger] rest@[i]@),
            all_ok ==> forall|i: int| 0 <= i < out.len() ==> orderable(mode, #[trigger] out@[i]@),
            all_ok ==> forall|i: int, j: int|
                0 <= i < j < out.len() ==> row_order(mode, #[trigger] out@[i]@, #[trigger] out@[j]@)
                    != Order::Greater,
        decreases rest.len(),
    {
        let ghost rest0 = rest@;
        let x = rest.pop().unwrap();
        assert(rest0 =~= rest@.push(x));
        assert(all_ok ==> orderable(mode, rest0[rest0.len() - 1]@));
        let mut p: usize = 0;
        while p < out.len() && compare_rows(mode, &out[p], &x) != Order::Greater
            invariant
                p <= out.len(),
                forall|i: int| 0 <= i < p ==> row_order(mode, #[trigger] out@[i]@, x@) != Order::Greater,
            decreases out.len() - p,
        {
            p = p + 1;
        }
        let ghost out0 = out@;
        out.insert(p, x);
        proof {
            vstd::seq_lib::to_multiset_insert(out0, p as int, x);
            vstd::seq_lib::to_multiset_build(rest@, x);
            assert(out@.to_multiset().add(rest@.to_multiset()) =~= input_rows.to_multiset());
            if all_ok {
                assert forall|i: int| 0 <= i < rest.len() implies orderable(mode, #[trigger] rest@[i]@) by {
                    assert(rest@[i] == rest0[i]);
                }
                assert forall|i: int| 0 <= i < out.len() implies orderable(mode, #[trigger] out@[i]@) by {
                    if i < p {
                        assert(out@[i] == out0[i]);
                    } else if i > p {
                        assert(out@[i] == out0[i - 1]);
                    }
                }
                assert forall|i: int, j: int| 0 <= i < j < out.len() implies row_order(
                    mode,
                    #[trigger] out@[i]@,
                    #[trigger] out@[j]@,
                ) != Order::Greater by {
                    if j < p {
                        assert(out@[i] == out0[i] && out@[j] == out0[j]);
                    } else if j == p {
                        assert(out@[i] == out0[i]);
                    } else if i == p {
                        assert(out@[j] == out0[j - 1]);
                        assert(row_order(mode, out0[p as int]@, x@) == Order::Greater);
                        lemma_row_order_total(mode, x@, out0[p as int]@, out0[j - 1]@);
                        lemma_row_order_total(mode, out0[p as int]@, x@, out0[j - 1]@);
                    } else if i < p {
                        assert(out@[i] == out0[i] && out@[j] == out0[j - 1]);
                        lemma_row_order_total(mode, out0[i]@, x@, out0[j - 1]@);
                        if p < out0.len() {
                            lemma_row_order_total(mode, out0[i]@, out0[p as int]@, out0[j - 1]@);
                        }
                    } else {
                        assert(out@[i] == out0[i - 1] && out@[j] == out0[j - 1]);
                    }
                }
            }
        }
    }
    proof {
        assert(out@.to_multiset().add(rest@.to_multiset()) =~= out@.to_multiset());
        let v = rows_view(out@);
        if all_ok {
            assert forall|i: int, j: int| 0 <= i < j < v.len() implies row_order(
                mode,
                #[trigger] v[i],
                #[trigger] v[j],
            ) != Order::Greater by {
                assert(v[i] == out@[i]@ && v[j] == out@[j]@);
            }
        }
    }
    out
}


/// Rows only tie when they are the same process: ties in every mode are broken by process id
/// and start time.
pub proof fn lemma_ties_only_for_same_process(mode: SortMode, a: SnapshotView, b: SnapshotView)
    ensures
        row_order(mode, a, b) == Order::Equal ==> a.pid == b.pid && a.start_time == b.start_time,
{
}


/// No two rows share an identity.
pub open spec fn distinct_processes(rows: Seq<ProcessSnapshot>) -> bool {
    forall|i: int, j: int|
        0 <= i < j < rows.len() ==> !(#[trigger] rows[i].pid == #[trigger] rows[j].pid && rows[i].start_time
            == rows[j].start_time)
}

/// The order of a table in a mode is determined by its rows: two orderings of the same rows,
/// both sorted in `mode`, are the same when the rows are orderable and no process appears
/// twice.
pub proof fn lemma_sorted_order_is_unique(mode: SortMode, x: Seq<ProcessSnapshot>, y: Seq<ProcessSnapshot>)
    requires
        x.to_multiset() == y.to_multiset(),
        sorted_rows(mode, rows_view(x)),
        sorted_rows(mode, rows_view(y)),
        forall|i: int| 0 <= i < x.len() ==> orderable(mode, #[trigger] x[i]@),
        distinct_processes(x),
    ensures
        x == y,
    decreases x.len(),
{
    broadcast use vstd::multiset::group_multiset_axioms;
    vstd::seq_lib::to_multiset_len(x);
    vstd::seq_lib::to_multiset_len(y);
    if x.len() == 0 {
        assert(x =~= y);
    } else {
        let xv = rows_view(x);
        let yv = rows_view(y);
        vstd::seq_lib::to_multiset_contains(x, y[0]);
        vstd::seq_lib::to_multiset_contains(y, x[0]);
        vstd::seq_lib::to_multiset_contains(y, y[0]);
        vstd::seq_lib::to_multiset_contains(x, x[0]);
        assert(y.contains(y[0]));
        assert(x.contains(x[0]));
        let i = choose|i: int| 0 <= i < y.len() && y[i] == x[0];
        let j = choose|j: int| 0 <= j < x.len() && x[j] == y[0];
        if x[0] != y[0] {
            assert(i > 0 && j > 0);
            assert(xv[0] == x[0]@ && xv[j] == x[j]@ && yv[0] == y[0]@ && yv[i] == y[i]@);
            assert(row_order(mode, x[0]@, y[0]@) != Order::Greater);
            assert(row_order(mode, y[0]@, x[0]@) != Order::Greater);
            assert(orderable(mode, x[j]@));
            lemma_row_order_total(mode, x[0]@, y[0]@, y[0]@);
            lemma_ties_only_for_same_process(mode, x[0]@, y[0]@);
            assert(false);
        }
        let xs = x.drop_first();
        let ys = y.drop_first();
        assert(x =~= seq![x[0]] + xs);
        assert(y =~= seq![y[0]] + ys);
        assert(xs =~= x.remove(0));
        assert(ys =~= y.remove(0));
        vstd::seq_lib::to_multiset_remove(x, 0);
        vstd::seq_lib::to_multiset_remove(y, 0);
        assert forall|a: int, b: int| 0 <= a < b < xs.len() implies row_order(
            mode,
            #[trigger] rows_view(xs)[a],
            #[trigger] rows_view(xs)[b],
        ) != Order::Greater by {
            assert(rows_view(xs)[a] == xv[a + 1]);
            assert(rows_view(xs)[b] == xv[b + 1]);
        }
        assert forall|a: int, b: int| 0 <= a < b < ys.len() implies row_order(
            mode,
            #[trigger] rows_view(ys)[a],
            #[trigger] rows_view(ys)[b],
        ) != Order::Greater by {
            assert(rows_view(ys)[a] == yv[a + 1]);
            assert(rows_view(ys)[b] == yv[b + 1]);
        }
        assert forall|a: int| 0 <= a < xs.len() implies orderable(mode, #[trigger] xs[a]@) by {
            assert(xs[a] == x[a + 1]);
        }
        assert forall|a: int, b: int| 0 <= a < b < xs.len() implies !(#[trigger] xs[a].pid
            == #[trigger] xs[b].pid && xs[a].start_time == xs[b].start_time) by {
            assert(xs[a] == x[a + 1] && xs[b] == x[b + 1]);
        }
        lemma_sorted_order_is_unique(mode, xs, ys);
    }
}

} // verus!
