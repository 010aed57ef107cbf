//! What holds of every structure difference: it is complete, and it is clean
//! where the two bodies have the same skeleton.

use crate::lcs::{lemma_script, lemma_script_of_same, script, Step};
use crate::rich_structure_diff::{base_entry, base_run, base_run_end, both_sides, key_of, keys,
    lemma_run_ends, merged, run_rows, stmts, stmts_upto, structure_diff, target_alone,
    target_entries, target_run, target_run_end, RowModel, StructModel};
use vstd::prelude::*;

verus! {

/// The rows of the base among aligned rows, in order.
pub open spec fn base_side(rows: Seq<StructModel>) -> Seq<RowModel>
    decreases rows.len(),
{
    if rows.len() == 0 {
        Seq::empty()
    } else {
        let rest = base_side(rows.drop_last());
        match rows.last() {
            StructModel::Equal { base, .. } => rest.push(base),
            StructModel::Changed { base, .. } => rest.push(base),
            StructModel::OnlyBase { stmt } => rest.push(stmt),
            StructModel::EmptyEqual => rest.push(RowModel::Empty),
            StructModel::EmptyOnlyBase => rest.push(RowModel::Empty),
            _ => rest,
        }
    }
}

/// The statements of the target among aligned rows, in order.
pub open spec fn target_stmts(rows: Seq<StructModel>) -> Seq<RowModel>
    decreases rows.len(),
{
    if rows.len() == 0 {
        Seq::empty()
    } else {
        let rest = target_stmts(rows.drop_last());
        match rows.last() {
            StructModel::Equal { target, .. } => rest.push(target),
            StructModel::Changed { target, .. } => rest.push(target),
            StructModel::OnlyTarget { stmt } => rest.push(stmt),
            _ => rest,
        }
    }
}

proof fn lemma_sides_concat(x: Seq<StructModel>, y: Seq<StructModel>)
    ensures
        base_side(x + y) == base_side(x) + base_side(y),
        target_stmts(x + y) == target_stmts(x) + target_stmts(y),
    decreases y.len(),
{
    if y.len() == 0 {
        assert(x + y =~= x);
        assert(base_side(x) + base_side(y) =~= base_side(x));
        assert(target_stmts(x) + target_stmts(y) =~= target_stmts(x));
    } else {
        assert((x + y).drop_last() =~= x + y.drop_last());
        assert((x + y).last() == y.last());
        lemma_sides_concat(x, y.drop_last());
        assert(base_side(x + y) =~= base_side(x) + base_side(y));
        assert(target_stmts(x + y) =~= target_stmts(x) + target_stmts(y));
    }
}

proof fn lemma_stmts_upto_concat(x: Seq<RowModel>, y: Seq<RowModel>, n: int)
    requires
        0 <= n <= y.len(),
    ensures
        stmts_upto(x + y, x.len() + n) == stmts(x) + stmts_upto(y, n),
    decreases n,
{
    if n == 0 {
        lemma_stmts_upto_of_prefix(x, x + y, x.len() as int);
        assert(stmts(x) + stmts_upto(y, 0) =~= stmts(x));
    } else {
        lemma_stmts_upto_concat(x, y, n - 1);
        assert((x + y)[x.len() + n - 1] == y[n - 1]);
        assert(stmts_upto(x + y, x.len() + n) =~= stmts(x) + stmts_upto(y, n));
    }
}

proof fn lemma_stmts_upto_of_prefix(x: Seq<RowModel>, z: Seq<RowModel>, n: int)
    requires
        0 <= n <= x.len() <= z.len(),
        forall|k: int| 0 <= k < x.len() ==> #[trigger] x[k] == z[k],
    ensures
        stmts_upto(z, n) == stmts_upto(x, n),
    decreases n,
{
    if n > 0 {
        lemma_stmts_upto_of_prefix(x, z, n - 1);
        assert(x[n - 1] == z[n - 1]);
    }
}

proof fn lemma_base_entries(b: Seq<RowModel>, t: Seq<RowModel>, n: int)
    requires
        0 <= n <= b.len(),
    ensures
        ({
            let s = Seq::new(n as nat, |x: int| base_entry(b, t, x));
            let c = stmts_upto(b, n).len() as int;
            let m = stmts(t).len() as int;
            base_side(s) == b.take(n) && target_stmts(s) == stmts(t).take(
                if c < m {
                    c
                } else {
                    m
                },
            )
        }),
    decreases n,
{
    let s = Seq::new(n as nat, |x: int| base_entry(b, t, x));
    if n == 0 {
        assert(base_side(s) =~= b.take(n));
        assert(target_stmts(s) =~= stmts(t).take(0));
    } else {
        lemma_base_entries(b, t, n - 1);
        assert(s.drop_last() =~= Seq::new((n - 1) as nat, |x: int| base_entry(b, t, x)));
        assert(s.last() == base_entry(b, t, n - 1));
        assert(base_side(s) =~= b.take(n));
        let c = stmts_upto(b, n).len() as int;
        let m = stmts(t).len() as int;
        assert(target_stmts(s) =~= stmts(t).take(
            if c < m {
                c
            } else {
                m
            },
        ));
    }
}

proof fn lemma_target_entries(b: Seq<RowModel>, t: Seq<RowModel>, n: int)
    requires
        0 <= n <= t.len(),
    ensures
        base_side(target_entries(b, t, n)) == Seq::<RowModel>::empty(),
        ({
            let m = stmts(b).len() as int;
            let c = stmts_upto(t, n).len() as int;
            target_stmts(target_entries(b, t, n)) == stmts_upto(t, n).skip(
                if m < c {
                    m
                } else {
                    c
                },
            )
        }),
    decreases n,
{
    let m = stmts(b).len() as int;
    let c = stmts_upto(t, n).len() as int;
    if n == 0 {
        assert(target_stmts(target_entries(b, t, 0)) =~= stmts_upto(t, 0).skip(0));
    } else {
        lemma_target_entries(b, t, n - 1);
        let before = target_entries(b, t, n - 1);
        let row = target_alone(t[n - 1]);
        assert(before.push(row).drop_last() =~= before);
        assert(target_stmts(target_entries(b, t, n)) =~= stmts_upto(t, n).skip(
            if m < c {
                m
            } else {
                c
            },
        ));
    }
}

proof fn lemma_run_sides(b: Seq<RowModel>, t: Seq<RowModel>)
    ensures
        base_side(run_rows(b, t)) == b,
        target_stmts(run_rows(b, t)) == stmts(t),
{
    let s = Seq::new(b.len(), |x: int| base_entry(b, t, x));
    lemma_base_entries(b, t, b.len() as int);
    lemma_target_entries(b, t, t.len() as int);
    lemma_sides_concat(s, target_entries(b, t, t.len() as int));
    assert(b.take(b.len() as int) =~= b);
    assert(base_side(run_rows(b, t)) =~= b);
    let c = stmts(b).len() as int;
    let m = stmts(t).len() as int;
    let k = if c < m {
        c
    } else {
        m
    };
    assert(stmts(t).take(k) + stmts(t).skip(k) =~= stmts(t));
}

/// How many steps before `k` take up the base.
spec fn taken_base(ops: Seq<Step>, k: int) -> int
    decreases k,
{
    if k <= 0 {
        0
    } else {
        taken_base(ops, k - 1) + if ops[k - 1] is Target {
            0int
        } else {
            1int
        }
    }
}

/// How many steps before `k` take up the target.
spec fn taken_target(ops: Seq<Step>, k: int) -> int
    decreases k,
{
    if k <= 0 {
        0
    } else {
        taken_target(ops, k - 1) + if ops[k - 1] is Base {
            0int
        } else {
            1int
        }
    }
}

/// Each step takes up the next row of its side.
#[verifier::opaque]
spec fn in_order(ops: Seq<Step>) -> bool {
    forall|k: int|
        0 <= k < ops.len() ==> match #[trigger] ops[k] {
            Step::Both(i, j) => i == taken_base(ops, k) && j == taken_target(ops, k),
            Step::Base(i) => i == taken_base(ops, k),
            Step::Target(j) => j == taken_target(ops, k),
        }
}

proof fn lemma_in_order_at(ops: Seq<Step>, k: int)
    requires
        in_order(ops),
        0 <= k < ops.len(),
    ensures
        match ops[k] {
            Step::Both(i, j) => i == taken_base(ops, k) && j == taken_target(ops, k),
            Step::Base(i) => i == taken_base(ops, k),
            Step::Target(j) => j == taken_target(ops, k),
        },
{
    reveal(in_order);
}

proof fn lemma_taken_shift(ops: Seq<Step>, k: int)
    requires
        1 <= k <= ops.len(),
    ensures
        taken_base(ops, k) == taken_base(ops.skip(1), k - 1) + if ops[0] is Target {
            0int
        } else {
            1int
        },
        taken_target(ops, k) == taken_target(ops.skip(1), k - 1) + if ops[0] is Base {
            0int
        } else {
            1int
        },
    decreases k,
{
    if k > 1 {
        lemma_taken_shift(ops, k - 1);
        assert(ops.skip(1)[k - 2] == ops[k - 1]);
    } else {
        assert(taken_base(ops, 0) == 0 && taken_target(ops, 0) == 0);
        assert(taken_base(ops.skip(1), 0) == 0 && taken_target(ops.skip(1), 0) == 0);
    }
}

proof fn lemma_script_in_order<K>(a: Seq<K>, b: Seq<K>, i: int, j: int)
    requires
        0 <= i <= a.len(),
        0 <= j <= b.len(),
    ensures
        ({
            let s = script(a, b, i, j);
            &&& taken_base(s, s.len() as int) == a.len() - i
            &&& taken_target(s, s.len() as int) == b.len() - j
            &&& forall|k: int|
                0 <= k < s.len() ==> match #[trigger] s[k] {
                    Step::Both(x, y) => x == i + taken_base(s, k) && y == j + taken_target(s, k),
                    Step::Base(x) => x == i + taken_base(s, k),
                    Step::Target(y) => y == j + taken_target(s, k),
                }
        }),
    decreases (a.len() - i) + (b.len() - j),
{
    let s = script(a, b, i, j);
    if i < a.len() || j < b.len() {
        let (i1, j1) = match s[0] {
            Step::Both(_, _) => (i + 1, j + 1),
            Step::Base(_) => (i + 1, j),
            Step::Target(_) => (i, j + 1),
        };
        lemma_script_in_order(a, b, i1, j1);
        let rest = script(a, b, i1, j1);
        assert(s.skip(1) =~= rest);
        lemma_taken_shift(s, s.len() as int);
        assert forall|k: int| 0 <= k < s.len() implies match #[trigger] s[k] {
            Step::Both(x, y) => x == i + taken_base(s, k) && y == j + taken_target(s, k),
            Step::Base(x) => x == i + taken_base(s, k),
            Step::Target(y) => y == j + taken_target(s, k),
        } by {
            if k > 0 {
                lemma_taken_shift(s, k);
                assert(s[k] == rest[k - 1]);
            }
        }
    }
}

proof fn lemma_taken_in_base_run(ops: Seq<Step>, lo: int, hi: int)
    requires
        0 <= lo <= hi <= ops.len(),
        forall|x: int| lo <= x < hi ==> (#[trigger] ops[x]) is Base,
    ensures
        taken_base(ops, hi) == taken_base(ops, lo) + (hi - lo),
        taken_target(ops, hi) == taken_target(ops, lo),
    decreases hi - lo,
{
    if lo < hi {
        lemma_taken_in_base_run(ops, lo, hi - 1);
        assert(ops[hi - 1] is Base);
    }
}

proof fn lemma_taken_in_target_run(ops: Seq<Step>, lo: int, hi: int)
    requires
        0 <= lo <= hi <= ops.len(),
        forall|x: int| lo <= x < hi ==> (#[trigger] ops[x]) is Target,
    ensures
        taken_target(ops, hi) == taken_target(ops, lo) + (hi - lo),
        taken_base(ops, hi) == taken_base(ops, lo),
    decreases hi - lo,
{
    if lo < hi {
        lemma_taken_in_target_run(ops, lo, hi - 1);
        assert(ops[hi - 1] is Target);
    }
}

proof fn lemma_taken_bound(ops: Seq<Step>, k: int, n: int)
    requires
        0 <= k <= n <= ops.len(),
    ensures
        0 <= taken_base(ops, k) <= taken_base(ops, n),
        0 <= taken_target(ops, k) <= taken_target(ops, n),
    decreases n, k,
{
    if k < n {
        lemma_taken_bound(ops, k, n - 1);
    } else if k > 0 {
        lemma_taken_bound(ops, k - 1, n - 1);
    }
}

proof fn lemma_merged_run_sides(
    b: Seq<RowModel>,
    t: Seq<RowModel>,
    ops: Seq<Step>,
    k: int,
    e: int,
    g: int,
)
    requires
        0 <= k < e <= g <= ops.len(),
        in_order(ops),
        taken_base(ops, ops.len() as int) == b.len(),
        taken_target(ops, ops.len() as int) == t.len(),
        e == base_run_end(ops, k),
        g == target_run_end(ops, e),
        ops[k] is Base,
        base_side(merged(b, t, ops, g)) == b.skip(taken_base(ops, g)),
        target_stmts(merged(b, t, ops, g)) == stmts(t.skip(taken_target(ops, g))),
    ensures
        base_side(merged(b, t, ops, k)) == b.skip(taken_base(ops, k)),
        target_stmts(merged(b, t, ops, k)) == stmts(t.skip(taken_target(ops, k))),
{
    let ib = taken_base(ops, k);
    let it = taken_target(ops, k);
    lemma_run_ends(ops, k);
    lemma_run_ends(ops, e);
    lemma_taken_in_base_run(ops, k, e);
    lemma_taken_in_target_run(ops, e, g);
    lemma_taken_bound(ops, k, ops.len() as int);
    lemma_taken_bound(ops, g, ops.len() as int);
    let x = base_run(b, ops, k, e);
    let y = target_run(t, ops, e, g);
    assert forall|z: int| 0 <= z < x.len() implies #[trigger] x[z] == b[ib + z] by {
        lemma_taken_in_base_run(ops, k, k + z);
        lemma_in_order_at(ops, k + z);
        assert(ops[k + z] is Base);
    }
    assert forall|z: int| 0 <= z < y.len() implies #[trigger] y[z] == t[it + z] by {
        lemma_taken_in_target_run(ops, e, e + z);
        lemma_in_order_at(ops, e + z);
        assert(ops[e + z] is Target);
    }
    let rest = t.skip(taken_target(ops, g));
    assert(b.skip(ib) =~= x + b.skip(taken_base(ops, g)));
    assert(t.skip(it) =~= y + rest);
    lemma_run_sides(x, y);
    lemma_sides_concat(run_rows(x, y), merged(b, t, ops, g));
    lemma_stmts_upto_concat(y, rest, rest.len() as int);
    assert(merged(b, t, ops, k) == run_rows(x, y) + merged(b, t, ops, g));
}

proof fn lemma_merged_sides(b: Seq<RowModel>, t: Seq<RowModel>, ops: Seq<Step>, k: int)
    requires
        0 <= k <= ops.len(),
        in_order(ops),
        taken_base(ops, ops.len() as int) == b.len(),
        taken_target(ops, ops.len() as int) == t.len(),
        forall|x: int|
            0 <= x < ops.len() ==> match #[trigger] ops[x] {
                Step::Both(i, j) => key_of(b[i]) == key_of(t[j]),
                _ => true,
            },
    ensures
        base_side(merged(b, t, ops, k)) == b.skip(taken_base(ops, k)),
        target_stmts(merged(b, t, ops, k)) == stmts(t.skip(taken_target(ops, k))),
    decreases ops.len() - k,
{
    let out = merged(b, t, ops, k);
    let ib = taken_base(ops, k);
    let it = taken_target(ops, k);
    lemma_taken_bound(ops, k, ops.len() as int);
    if k == ops.len() {
        assert(base_side(out) =~= b.skip(ib));
        assert(target_stmts(out) =~= stmts(t.skip(it)));
    } else {
        lemma_taken_bound(ops, k + 1, ops.len() as int);
        lemma_in_order_at(ops, k);
        match ops[k] {
            Step::Base(_) => {
                let e = base_run_end(ops, k);
                let g = target_run_end(ops, e);
                lemma_run_ends(ops, k);
                lemma_run_ends(ops, k + 1);
                lemma_run_ends(ops, e);
                lemma_merged_sides(b, t, ops, g);
                lemma_merged_run_sides(b, t, ops, k, e, g);
            },
            Step::Both(i, j) => {
                let row = both_sides(b[i], t[j]);
                lemma_merged_sides(b, t, ops, k + 1);
                lemma_sides_concat(seq![row], merged(b, t, ops, k + 1));
                lemma_single(row);
                assert(b.skip(ib) =~= seq![b[i]] + b.skip(ib + 1));
                let rest = t.skip(it + 1);
                assert(t.skip(it) =~= seq![t[j]] + rest);
                lemma_stmts_upto_concat(seq![t[j]], rest, rest.len() as int);
                lemma_single_stmts(t[j]);
            },
            Step::Target(j) => {
                let row = target_alone(t[j]);
                lemma_merged_sides(b, t, ops, k + 1);
                lemma_sides_concat(seq![row], merged(b, t, ops, k + 1));
                lemma_single(row);
                assert(Seq::<RowModel>::empty() + b.skip(ib) =~= b.skip(ib));
                let rest = t.skip(it + 1);
                assert(t.skip(it) =~= seq![t[j]] + rest);
                lemma_stmts_upto_concat(seq![t[j]], rest, rest.len() as int);
                lemma_single_stmts(t[j]);
            },
        }
    }
}

proof fn lemma_single_stmts(r: RowModel)
    ensures
        stmts(seq![r]) == if r is Stmt {
            seq![r]
        } else {
            Seq::<RowModel>::empty()
        },
{
    let s = seq![r];
    assert(stmts_upto(s, 0) =~= Seq::<RowModel>::empty());
    assert(stmts_upto(s, 1) == if s[0] is Stmt {
        stmts_upto(s, 0).push(s[0])
    } else {
        stmts_upto(s, 0)
    });
    assert(Seq::<RowModel>::empty().push(r) =~= seq![r]);
}

proof fn lemma_single(row: StructModel)
    ensures
        base_side(seq![row]) == match row {
            StructModel::Equal { base, .. } => seq![base],
            StructModel::Changed { base, .. } => seq![base],
            StructModel::OnlyBase { stmt } => seq![stmt],
            StructModel::EmptyEqual => seq![RowModel::Empty],
            StructModel::EmptyOnlyBase => seq![RowModel::Empty],
            _ => Seq::<RowModel>::empty(),
        },
        target_stmts(seq![row]) == match row {
            StructModel::Equal { target, .. } => seq![target],
            StructModel::Changed { target, .. } => seq![target],
            StructModel::OnlyTarget { stmt } => seq![stmt],
            _ => Seq::<RowModel>::empty(),
        },
{
    let s = seq![row];
    assert(s.drop_last() =~= Seq::<StructModel>::empty());
    assert(base_side(s.drop_last()) =~= Seq::<RowModel>::empty());
    assert(target_stmts(s.drop_last()) =~= Seq::<RowModel>::empty());
    assert(base_side(s) =~= match row {
        StructModel::Equal { base, .. } => seq![base],
        StructModel::Changed { base, .. } => seq![base],
        StructModel::OnlyBase { stmt } => seq![stmt],
        StructModel::EmptyEqual => seq![RowModel::Empty],
        StructModel::EmptyOnlyBase => seq![RowModel::Empty],
        _ => Seq::<RowModel>::empty(),
    });
    assert(target_stmts(s) =~= match row {
        StructModel::Equal { target, .. } => seq![target],
        StructModel::Changed { target, .. } => seq![target],
        StructModel::OnlyTarget { stmt } => seq![stmt],
        _ => Seq::<RowModel>::empty(),
    });
}

/// Nothing is lost and nothing is told twice: the aligned rows hold every row of
/// the base, and every statement of the target, once and in order.
pub proof fn lemma_structure_diff_is_complete(b: Seq<RowModel>, t: Seq<RowModel>)
    ensures
        base_side(structure_diff(b, t)) == b,
        target_stmts(structure_diff(b, t)) == stmts(t),
{
    let ops = script(keys(b), keys(t), 0, 0);
    lemma_script(keys(b), keys(t), 0, 0);
    lemma_script_in_order(keys(b), keys(t), 0, 0);
    assert forall|x: int| 0 <= x < ops.len() implies match #[trigger] ops[x] {
        Step::Both(i, j) => key_of(b[i]) == key_of(t[j]),
        _ => true,
    } by {
        if let Step::Both(i, j) = ops[x] {
            assert(keys(b)[i] == keys(t)[j]);
        }
    }
    assert(in_order(ops)) by {
        reveal(in_order);
    }
    lemma_merged_sides(b, t, ops, 0);
    assert(b.skip(0) =~= b);
    assert(t.skip(0) =~= t);
}

/// Bodies with the same statement sizes and the same gaps differ nowhere.
pub proof fn lemma_same_skeleton_is_equal(b: Seq<RowModel>, t: Seq<RowModel>)
    requires
        keys(b) == keys(t),
    ensures
        structure_diff(b, t) == Seq::new(b.len(), |k: int| both_sides(b[k], t[k])),
{
    lemma_script_of_same(keys(b), keys(t), 0);
    assert(b.len() == keys(b).len() && t.len() == keys(t).len());
    let ops = script(keys(b), keys(t), 0, 0);
    lemma_merged_of_same(b, t, ops, 0);
    assert(structure_diff(b, t) =~= Seq::new(b.len(), |k: int| both_sides(b[k], t[k])));
}

proof fn lemma_merged_of_same(b: Seq<RowModel>, t: Seq<RowModel>, ops: Seq<Step>, k: int)
    requires
        0 <= k <= ops.len(),
        ops == Seq::new(b.len(), |k: int| Step::Both(0 + k, 0 + k)),
        b.len() == t.len(),
    ensures
        merged(b, t, ops, k) == Seq::new(
            (b.len() - k) as nat,
            |x: int| both_sides(b[k + x], t[k + x]),
        ),
    decreases b.len() - k,
{
    if k < b.len() {
        lemma_merged_of_same(b, t, ops, k + 1);
        assert(ops[k] == Step::Both(k, k));
    }
    assert(merged(b, t, ops, k) =~= Seq::new(
        (b.len() - k) as nat,
        |x: int| both_sides(b[k + x], t[k + x]),
    ));
}

} // verus!
