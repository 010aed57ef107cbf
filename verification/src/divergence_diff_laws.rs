//! What holds of the keys that stand elsewhere in two lists.

use crate::divergence_diff::{aligned, common, filtered, lcs_keys, lemma_filtered, lemma_one_sided,
    moved_keys, one_sided, seq_difference};
use crate::lcs::{lcs_len, lemma_lcs_is_longest, lemma_script, matched, script, Step};
use crate::order::first_seen;
use vstd::prelude::*;

verus! {

// ---------------------------------------------------------------------------
// Where the keys that are taken out stand
// ---------------------------------------------------------------------------

/// Whether numbers rise.
pub open spec fn rises(p: Seq<int>) -> bool {
    forall|k: int, l: int| 0 <= k < l < p.len() ==> (#[trigger] p[k]) < (#[trigger] p[l])
}

/// The positions of those of the first `n` keys that are in another list, or of those that
/// are not.
pub open spec fn places(s: Seq<Seq<char>>, other: Seq<Seq<char>>, inside: bool, n: int) -> Seq<int>
    decreases n,
{
    if n <= 0 {
        Seq::empty()
    } else if other.contains(s[n - 1]) == inside {
        places(s, other, inside, n - 1).push(n - 1)
    } else {
        places(s, other, inside, n - 1)
    }
}

proof fn lemma_places(s: Seq<Seq<char>>, other: Seq<Seq<char>>, inside: bool, n: int)
    requires
        0 <= n <= s.len(),
    ensures
        ({
            let p = places(s, other, inside, n);
            let f = filtered(s, other, inside, n);
            &&& p.len() == f.len()
            &&& rises(p)
            &&& forall|k: int| 0 <= k < p.len() ==> 0 <= #[trigger] p[k] < n && f[k] == s[p[k]]
        }),
    decreases n,
{
    if n > 0 {
        lemma_places(s, other, inside, n - 1);
    }
}

proof fn lemma_filtered_unique(s: Seq<Seq<char>>, other: Seq<Seq<char>>, inside: bool, n: int)
    requires
        0 <= n <= s.len(),
        s.no_duplicates(),
    ensures
        filtered(s, other, inside, n).no_duplicates(),
{
    let p = places(s, other, inside, n);
    let f = filtered(s, other, inside, n);
    lemma_places(s, other, inside, n);
    assert forall|i: int, j: int| 0 <= i < f.len() && 0 <= j < f.len() && i != j implies f[i]
        != f[j] by {
        assert(f[i] == s[p[i]] && f[j] == s[p[j]]);
        if i < j {
            assert(p[i] < p[j]);
        } else {
            assert(p[j] < p[i]);
        }
    }
}

proof fn lemma_filtered_counts(s: Seq<Seq<char>>, other: Seq<Seq<char>>, n: int)
    requires
        0 <= n <= s.len(),
    ensures
        filtered(s, other, true, n).len() + filtered(s, other, false, n).len() == n,
    decreases n,
{
    if n > 0 {
        lemma_filtered_counts(s, other, n - 1);
    }
}

proof fn lemma_first_seen_of_unique(s: Seq<Seq<char>>)
    requires
        s.no_duplicates(),
    ensures
        first_seen(s) == s,
    decreases s.len(),
{
    if s.len() > 0 {
        let init = s.drop_last();
        assert(init.no_duplicates()) by {
            assert forall|i: int, j: int| 0 <= i < init.len() && 0 <= j < init.len() && i
                != j implies init[i] != init[j] by {
                assert(s[i] != s[j]);
            }
        }
        lemma_first_seen_of_unique(init);
        if init.contains(s.last()) {
            let k = init.index_of(s.last());
            assert(s[k] == s[s.len() - 1]);
        }
        assert(init.push(s.last()) =~= s);
    }
}

/// A list without repetitions has no more keys than one that has them all.
proof fn lemma_no_longer(a: Seq<Seq<char>>, b: Seq<Seq<char>>)
    requires
        a.no_duplicates(),
        forall|x: Seq<char>| #[trigger] a.contains(x) ==> b.contains(x),
    ensures
        a.len() <= b.len(),
{
    broadcast use vstd::seq_lib::seq_to_set_is_finite;

    a.unique_seq_to_set();
    b.lemma_cardinality_of_set();
    assert(a.to_set().subset_of(b.to_set())) by {
        assert forall|x: Seq<char>| a.to_set().contains(x) implies b.to_set().contains(x) by {
            assert(a.contains(x));
        }
    }
    vstd::set_lib::lemma_len_subset(a.to_set(), b.to_set());
}

// ---------------------------------------------------------------------------
// Where the keys of the longest common subsequence stand
// ---------------------------------------------------------------------------

/// Which of the first `n` steps take both sides.
spec fn both_at(ops: Seq<Step>, n: int) -> Seq<int>
    decreases n,
{
    if n <= 0 {
        Seq::empty()
    } else if ops[n - 1] is Both {
        both_at(ops, n - 1).push(n - 1)
    } else {
        both_at(ops, n - 1)
    }
}

proof fn lemma_both_at(s: Seq<Seq<char>>, ops: Seq<Step>, n: int)
    requires
        0 <= n <= ops.len(),
    ensures
        both_at(ops, n).len() == aligned(s, ops, n).len(),
        rises(both_at(ops, n)),
        forall|k: int|
            0 <= k < both_at(ops, n).len() ==> 0 <= #[trigger] both_at(ops, n)[k] < n
                && ops[both_at(ops, n)[k]] is Both && aligned(s, ops, n)[k]
                == s[ops[both_at(ops, n)[k]]->Both_0],
    decreases n,
{
    if n > 0 {
        lemma_both_at(s, ops, n - 1);
    }
}

proof fn lemma_matched_push(s: Seq<Step>, x: Step)
    ensures
        matched(s.push(x)) == matched(s) + if x is Both {
            1nat
        } else {
            0
        },
    decreases s.len(),
{
    let t = s.push(x);
    if s.len() == 0 {
        assert(t[0] == x);
        assert(t.skip(1) =~= Seq::<Step>::empty());
        assert(matched(t.skip(1)) == 0 && matched(s) == 0);
    } else {
        lemma_matched_push(s.skip(1), x);
        assert(t[0] == s[0]);
        assert(t.skip(1) =~= s.skip(1).push(x));
    }
}

proof fn lemma_matched_is_both(ops: Seq<Step>, n: int)
    requires
        0 <= n <= ops.len(),
    ensures
        matched(ops.take(n)) == both_at(ops, n).len(),
    decreases n,
{
    if n > 0 {
        lemma_matched_is_both(ops, n - 1);
        lemma_matched_push(ops.take(n - 1), ops[n - 1]);
        assert(ops.take(n) =~= ops.take(n - 1).push(ops[n - 1]));
    } else {
        assert(ops.take(n) =~= Seq::<Step>::empty());
    }
}

/// The steps of an alignment that take both sides go forward on both.
proof fn lemma_script_goes_forward(a: Seq<Seq<char>>, b: Seq<Seq<char>>, i: int, j: int)
    requires
        0 <= i <= a.len(),
        0 <= j <= b.len(),
    ensures
        forall|k: int, l: int|
            0 <= k < l < script(a, b, i, j).len() ==> match (
                #[trigger] script(a, b, i, j)[k],
                #[trigger] script(a, b, i, j)[l],
            ) {
                (Step::Both(x, y), Step::Both(v, w)) => x < v && y < w,
                _ => true,
            },
    decreases (a.len() - i) + (b.len() - j),
{
    let s = script(a, b, i, j);
    if !(i >= a.len() && j >= b.len()) {
        let (i1, j1) = match s[0] {
            Step::Both(_, _) => (i + 1, j + 1),
            Step::Base(_) => (i + 1, j),
            Step::Target(_) => (i, j + 1),
        };
        lemma_script_goes_forward(a, b, i1, j1);
        lemma_script(a, b, i1, j1);
        let rest = script(a, b, i1, j1);
        assert(s.skip(1) =~= rest);
        assert forall|k: int, l: int| 0 <= k < l < s.len() implies match (
            #[trigger] s[k],
            #[trigger] s[l],
        ) {
            (Step::Both(x, y), Step::Both(v, w)) => x < v && y < w,
            _ => true,
        } by {
            assert(s[l] == rest[l - 1]);
            if k > 0 {
                assert(s[k] == rest[k - 1]);
            }
        }
    }
}

/// The positions in either list of the keys of a longest common subsequence.
spec fn lcs_places(a: Seq<Seq<char>>, b: Seq<Seq<char>>) -> (Seq<int>, Seq<int>) {
    let ops = script(a, b, 0, 0);
    let at = both_at(ops, ops.len() as int);
    (
        Seq::new(at.len(), |k: int| ops[at[k]]->Both_0),
        Seq::new(at.len(), |k: int| ops[at[k]]->Both_1),
    )
}

proof fn lemma_lcs_places(a: Seq<Seq<char>>, b: Seq<Seq<char>>)
    ensures
        ({
            let (p, q) = lcs_places(a, b);
            let keys = lcs_keys(a, b);
            &&& p.len() == keys.len()
            &&& q.len() == keys.len()
            &&& keys.len() == lcs_len(a, b, 0, 0)
            &&& rises(p)
            &&& rises(q)
            &&& forall|k: int|
                0 <= k < p.len() ==> 0 <= #[trigger] p[k] < a.len() && keys[k] == a[p[k]]
            &&& forall|k: int|
                0 <= k < q.len() ==> 0 <= #[trigger] q[k] < b.len() && keys[k] == b[q[k]]
        }),
{
    let ops = script(a, b, 0, 0);
    let n = ops.len() as int;
    let at = both_at(ops, n);
    let (p, q) = lcs_places(a, b);
    lemma_script(a, b, 0, 0);
    lemma_script_goes_forward(a, b, 0, 0);
    lemma_both_at(a, ops, n);
    lemma_matched_is_both(ops, n);
    assert(ops.take(n) =~= ops);
    assert forall|k: int| 0 <= k < at.len() implies 0 <= #[trigger] p[k] < a.len() && lcs_keys(
        a,
        b,
    )[k] == a[p[k]] && 0 <= q[k] < b.len() && a[p[k]] == b[q[k]] by {
        let x = at[k];
        assert(ops[x] is Both);
        match ops[x] {
            Step::Both(u, v) => {
                assert(a[u] == b[v]);
            },
            _ => {},
        }
    }
    assert forall|k: int| 0 <= k < q.len() implies 0 <= #[trigger] q[k] < b.len() && lcs_keys(
        a,
        b,
    )[k] == b[q[k]] by {
        assert(0 <= p[k] < a.len());
    }
    assert forall|k: int, l: int| 0 <= k < l < p.len() implies (#[trigger] p[k])
        < (#[trigger] p[l]) by {
        assert(at[k] < at[l]);
        assert(ops[at[k]] is Both && ops[at[l]] is Both);
    }
    assert forall|k: int, l: int| 0 <= k < l < q.len() implies (#[trigger] q[k])
        < (#[trigger] q[l]) by {
        assert(at[k] < at[l]);
        assert(ops[at[k]] is Both && ops[at[l]] is Both);
    }
}

// ---------------------------------------------------------------------------
// The laws
// ---------------------------------------------------------------------------

/// Whether the keys that both lists have, but for those in `out`, stand in one order in
/// both.
pub open spec fn keeps_order(
    base: Seq<Seq<char>>,
    target: Seq<Seq<char>>,
    out: Seq<Seq<char>>,
) -> bool {
    forall|i: int, j: int, k: int, l: int|
        0 <= i < j < base.len() && 0 <= k < target.len() && 0 <= l < target.len()
            && #[trigger] base[i] == #[trigger] target[k] && #[trigger] base[j]
            == #[trigger] target[l] && !out.contains(base[i]) && !out.contains(base[j]) ==> k < l
}

/// Whether keys stand in a list in their order.
pub open spec fn stands_in_order(keys: Seq<Seq<char>>, s: Seq<Seq<char>>) -> bool {
    exists|p: Seq<int>|
        #[trigger] rises(p) && p.len() == keys.len() && forall|k: int|
            0 <= k < p.len() ==> 0 <= #[trigger] p[k] < s.len() && keys[k] == s[p[k]]
}

proof fn lemma_common_is_unique(s: Seq<Seq<char>>, other: Seq<Seq<char>>)
    requires
        s.no_duplicates(),
    ensures
        common(s, other).no_duplicates(),
        forall|x: Seq<char>| #[trigger]
            common(s, other).contains(x) == (s.contains(x) && other.contains(x)),
{
    let n = s.len() as int;
    lemma_filtered_unique(s, other, true, n);
    lemma_filtered(s, other, true, n);
    assert(s.take(n) =~= s);
}

/// What only one list has is told in its order, and so is what stands elsewhere in the order
/// of the base, where no key occurs twice.
pub proof fn lemma_told_in_order(base: Seq<Seq<char>>, target: Seq<Seq<char>>)
    requires
        base.no_duplicates(),
        target.no_duplicates(),
    ensures
        seq_difference(base, target).only_base == filtered(base, target, false, base.len() as int),
        seq_difference(base, target).only_target == filtered(
            target,
            base,
            false,
            target.len() as int,
        ),
        stands_in_order(seq_difference(base, target).only_base, base),
        stands_in_order(seq_difference(base, target).only_target, target),
        stands_in_order(seq_difference(base, target).moved, base),
{
    let n = base.len() as int;
    let m = target.len() as int;
    lemma_filtered_unique(base, target, false, n);
    lemma_filtered_unique(target, base, false, m);
    lemma_first_seen_of_unique(filtered(base, target, false, n));
    lemma_first_seen_of_unique(filtered(target, base, false, m));
    lemma_places(base, target, false, n);
    lemma_places(target, base, false, m);
    assert(rises(places(base, target, false, n)));
    assert(rises(places(target, base, false, m)));
    let cb = common(base, target);
    let keys = lcs_keys(cb, common(target, base));
    lemma_common_is_unique(base, target);
    lemma_filtered_unique(cb, keys, false, cb.len() as int);
    lemma_first_seen_of_unique(filtered(cb, keys, false, cb.len() as int));
    lemma_places(cb, keys, false, cb.len() as int);
    lemma_places(base, target, true, n);
    let inner = places(cb, keys, false, cb.len() as int);
    let outer = places(base, target, true, n);
    let p = Seq::new(inner.len(), |k: int| outer[inner[k]]);
    let moved = moved_keys(base, target);
    assert forall|k: int| 0 <= k < p.len() implies 0 <= #[trigger] p[k] < base.len() && moved[k]
        == base[p[k]] by {
        assert(0 <= inner[k] < cb.len());
        assert(0 <= outer[inner[k]] < n);
    }
    assert(rises(p)) by {
        assert forall|k: int, l: int| 0 <= k < l < p.len() implies (#[trigger] p[k])
            < (#[trigger] p[l]) by {
            assert(inner[k] < inner[l]);
            assert(0 <= inner[k] && inner[l] < outer.len());
            assert(outer[inner[k]] < outer[inner[l]]);
        }
    }
}

/// What both lists have and does not stand elsewhere stands in one order in both, where no
/// key occurs twice.
pub proof fn lemma_unmoved_keep_order(base: Seq<Seq<char>>, target: Seq<Seq<char>>)
    requires
        base.no_duplicates(),
        target.no_duplicates(),
    ensures
        keeps_order(base, target, seq_difference(base, target).moved),
{
    let n = base.len() as int;
    let m = target.len() as int;
    let cb = common(base, target);
    let ct = common(target, base);
    let keys = lcs_keys(cb, ct);
    let moved = moved_keys(base, target);
    let pb = places(base, target, true, n);
    let pt = places(target, base, true, m);
    let (p, q) = lcs_places(cb, ct);
    lemma_places(base, target, true, n);
    lemma_places(target, base, true, m);
    lemma_lcs_places(cb, ct);
    lemma_common_is_unique(base, target);
    lemma_one_sided(cb, keys);
    assert forall|i: int, j: int, k: int, l: int|
        0 <= i < j < base.len() && 0 <= k < target.len() && 0 <= l < target.len()
            && #[trigger] base[i] == #[trigger] target[k] && #[trigger] base[j]
            == #[trigger] target[l] && !moved.contains(base[i]) && !moved.contains(
            base[j],
        ) implies k < l by {
        let x = base[i];
        let y = base[j];
        assert(base.contains(x) && base.contains(y));
        assert(target.contains(target[k]) && target.contains(target[l]));
        assert(cb.contains(x) && cb.contains(y));
        assert(keys.contains(x) && keys.contains(y));
        let u = keys.index_of(x);
        let v = keys.index_of(y);
        assert(0 <= p[u] < cb.len() && 0 <= p[v] < cb.len());
        assert(0 <= q[u] < ct.len() && 0 <= q[v] < ct.len());
        assert(0 <= pb[p[u]] < n && base[pb[p[u]]] == x);
        assert(0 <= pb[p[v]] < n && base[pb[p[v]]] == y);
        assert(pb[p[u]] == i && pb[p[v]] == j);
        assert(0 <= pt[q[u]] < m && target[pt[q[u]]] == x);
        assert(0 <= pt[q[v]] < m && target[pt[q[v]]] == y);
        assert(pt[q[u]] == k && pt[q[v]] == l);
        if v < u {
            assert(p[v] < p[u]);
            assert(pb[p[v]] < pb[p[u]]);
        }
        assert(u < v);
        assert(q[u] < q[v]);
        assert(pt[q[u]] < pt[q[v]]);
    }
}

/// No fewer keys could be told to stand elsewhere: whatever keys are left out so that the
/// others stand in one order in both lists, they are at least as many. No key may occur
/// twice in a list.
pub proof fn lemma_moved_are_fewest(
    base: Seq<Seq<char>>,
    target: Seq<Seq<char>>,
    out: Seq<Seq<char>>,
)
    requires
        base.no_duplicates(),
        target.no_duplicates(),
        keeps_order(base, target, out),
    ensures
        seq_difference(base, target).moved.len() <= out.len(),
{
    let n = base.len() as int;
    let m = target.len() as int;
    let cb = common(base, target);
    let ct = common(target, base);
    let c = cb.len() as int;
    let keys = lcs_keys(cb, ct);
    let pb = places(base, target, true, n);
    let pt = places(target, base, true, m);
    lemma_places(base, target, true, n);
    lemma_places(target, base, true, m);
    lemma_lcs_places(cb, ct);
    lemma_common_is_unique(base, target);
    lemma_common_is_unique(target, base);
    // As many keys are left as a longest common subsequence lacks.
    lemma_filtered_unique(cb, keys, false, c);
    lemma_first_seen_of_unique(filtered(cb, keys, false, c));
    lemma_filtered_counts(cb, keys, c);
    lemma_filtered(cb, keys, true, c);
    assert(cb.take(c) =~= cb);
    let (p, q) = lcs_places(cb, ct);
    assert(keys.no_duplicates()) by {
        assert forall|i: int, j: int| 0 <= i < keys.len() && 0 <= j < keys.len() && i
            != j implies keys[i] != keys[j] by {
            assert(0 <= p[i] < c && 0 <= p[j] < c);
            if i < j {
                assert(p[i] < p[j]);
            } else {
                assert(p[j] < p[i]);
            }
        }
    }
    assert forall|x: Seq<char>| #[trigger] keys.contains(x) implies filtered(
        cb,
        keys,
        true,
        c,
    ).contains(x) by {
        let k = keys.index_of(x);
        assert(0 <= p[k] < c);
        assert(cb.contains(cb[p[k]]));
    }
    lemma_no_longer(keys, filtered(cb, keys, true, c));
    // Those that are not left out are a common subsequence.
    let rest = filtered(cb, out, false, c);
    let u = places(cb, out, false, c);
    lemma_places(cb, out, false, c);
    lemma_filtered(cb, out, false, c);
    let w = Seq::new(u.len(), |k: int| ct.index_of(rest[k]));
    assert forall|k: int| 0 <= k < w.len() implies 0 <= #[trigger] w[k] < ct.len() && ct[w[k]]
        == cb[u[k]] by {
        assert(rest.contains(rest[k]));
        assert(cb.contains(rest[k]));
        assert(ct.contains(rest[k]));
        assert(0 <= u[k] < c);
    }
    assert(rises(w)) by {
        assert forall|k: int, l: int| 0 <= k < l < w.len() implies (#[trigger] w[k])
            < (#[trigger] w[l]) by {
            assert(u[k] < u[l]);
            assert(0 <= u[k] && u[l] < c);
            assert(pb[u[k]] < pb[u[l]]);
            assert(0 <= pb[u[k]] && pb[u[l]] < n);
            assert(0 <= w[k] < ct.len() && 0 <= w[l] < ct.len());
            assert(0 <= pt[w[k]] < m && 0 <= pt[w[l]] < m);
            assert(rest.contains(rest[k]) && rest.contains(rest[l]));
            assert(base[pb[u[k]]] == target[pt[w[k]]]);
            assert(base[pb[u[l]]] == target[pt[w[l]]]);
            assert(!out.contains(base[pb[u[k]]]) && !out.contains(base[pb[u[l]]]));
            assert(pt[w[k]] < pt[w[l]]);
            if w[l] < w[k] {
                assert(pt[w[l]] < pt[w[k]]);
            }
        }
    }
    lemma_lcs_is_longest(cb, ct, 0, 0, u, w);
    // Those that are left out are no more than `out` has.
    lemma_filtered_counts(cb, out, c);
    lemma_filtered_unique(cb, out, true, c);
    lemma_filtered(cb, out, true, c);
    assert forall|x: Seq<char>| #[trigger] filtered(cb, out, true, c).contains(x) implies
        out.contains(x) by {}
    lemma_no_longer(filtered(cb, out, true, c), out);
    assert(one_sided(cb, keys).len() == c - filtered(cb, keys, true, c).len());
}

} // verus!
