//! What holds of the functions that stand elsewhere in two files.

use crate::divergence_model::FnShape;
use crate::divergence_order::{common_keys, cross_key, is_inverted, is_moved,
    lemma_common_keys_known, lemma_seen_has_key, line_of, moved_rows, order_moved, place_of, row_le,
    shared_keys};
use crate::order::{is_sorted, lemma_push_has, lemma_sorted_by, lemma_sorted_once,
    lemma_text_le_antisymmetric, lemma_text_le_total, sorted_by, text_le};
use vstd::prelude::*;

verus! {

/// Whether a key has a line in both files.
pub open spec fn has_lines(base: Seq<FnShape>, target: Seq<FnShape>, key: Seq<char>) -> bool {
    line_of(base, target, key) is Some && line_of(target, base, key) is Some
}

/// Whether two keys stand in the one order in the base and in the other in the target.
pub open spec fn are_exchanged(
    base: Seq<FnShape>,
    target: Seq<FnShape>,
    x: Seq<char>,
    y: Seq<char>,
) -> bool {
    &&& has_lines(base, target, x)
    &&& has_lines(base, target, y)
    &&& x != y
    &&& if text_le(y, x) {
        is_inverted(base, target, y, x)
    } else {
        is_inverted(base, target, x, y)
    }
}

proof fn lemma_shared_has(base: Seq<FnShape>, target: Seq<FnShape>, n: int, i: int)
    requires
        0 <= i < n <= base.len(),
        base[i].definition_line != 0,
        has_lines(base, target, cross_key(base[i], target)),
    ensures
        shared_keys(base, target, n).contains(cross_key(base[i], target)),
    decreases n,
{
    let key = cross_key(base[i], target);
    let p = shared_keys(base, target, n - 1);
    if i < n - 1 {
        lemma_shared_has(base, target, n - 1, i);
    }
    lemma_push_has(p, cross_key(base[n - 1], target), key);
}

/// The common keys are those with lines in both files.
proof fn lemma_common_keys(base: Seq<FnShape>, target: Seq<FnShape>, key: Seq<char>)
    ensures
        common_keys(base, target).contains(key) == has_lines(base, target, key),
{
    let all = shared_keys(base, target, base.len() as int);
    lemma_sorted_once(all);
    if common_keys(base, target).contains(key) {
        let k = common_keys(base, target).index_of(key);
        lemma_common_keys_known(base, target, k);
    }
    if has_lines(base, target, key) {
        lemma_seen_has_key(base, target, key, base.len() as int);
        let i = choose|i: int|
            0 <= i < base.len() && (#[trigger] base[i]).definition_line != 0 && cross_key(
                base[i],
                target,
            ) == key;
        lemma_shared_has(base, target, base.len() as int, i);
    }
}

proof fn lemma_is_moved(base: Seq<FnShape>, target: Seq<FnShape>, k: int)
    requires
        0 <= k < common_keys(base, target).len(),
    ensures
        is_moved(base, target, common_keys(base, target), k) == (exists|y: Seq<char>| #[trigger]
            are_exchanged(base, target, common_keys(base, target)[k], y)),
{
    let keys = common_keys(base, target);
    let x = keys[k];
    let le = |a: Seq<char>, b: Seq<char>| text_le(a, b);
    lemma_sorted_once(shared_keys(base, target, base.len() as int));
    assert(is_sorted(keys, le));
    assert(keys.contains(x));
    lemma_common_keys(base, target, x);
    if is_moved(base, target, keys, k) {
        let j = choose|j: int|
            0 <= j < keys.len() && ((j < k && is_inverted(
                base,
                target,
                #[trigger] keys[j],
                keys[k],
            )) || (k < j && is_inverted(base, target, keys[k], keys[j])));
        let y = keys[j];
        assert(keys.contains(y));
        lemma_common_keys(base, target, y);
        assert(x != y);
        if j < k {
            assert(le(keys[j], keys[k]));
        } else {
            assert(le(keys[k], keys[j]));
            if text_le(y, x) {
                lemma_text_le_antisymmetric(x, y);
            }
        }
        assert(are_exchanged(base, target, x, y));
    }
    if exists|y: Seq<char>| #[trigger] are_exchanged(base, target, x, y) {
        let y = choose|y: Seq<char>| #[trigger] are_exchanged(base, target, x, y);
        lemma_common_keys(base, target, y);
        let j = keys.index_of(y);
        assert(keys[j] == y);
        if text_le(y, x) {
            if k < j {
                assert(le(keys[k], keys[j]));
                lemma_text_le_antisymmetric(x, y);
            }
            assert(j < k && is_inverted(base, target, keys[j], keys[k]));
        } else {
            lemma_text_le_total(x, y);
            if j < k {
                assert(le(keys[j], keys[k]));
            }
            assert(k < j && is_inverted(base, target, keys[k], keys[j]));
        }
    }
}

/// Whether a row is that of a key among the first `n` common keys that stands elsewhere.
spec fn is_row_among(
    base: Seq<FnShape>,
    target: Seq<FnShape>,
    n: int,
    row: (Seq<char>, u32),
) -> bool {
    let keys = common_keys(base, target);
    exists|k: int|
        0 <= k < n && #[trigger] is_moved(base, target, keys, k) && row == (
            keys[k],
            line_of(base, target, keys[k])->0,
        )
}

proof fn lemma_moved_rows_are(base: Seq<FnShape>, target: Seq<FnShape>, n: int)
    requires
        0 <= n <= common_keys(base, target).len(),
    ensures
        ({
            let keys = common_keys(base, target);
            let rows = moved_rows(base, target, keys, n);
            &&& forall|r: int|
                0 <= r < rows.len() ==> is_row_among(base, target, n, #[trigger] rows[r])
            &&& forall|k: int|
                0 <= k < n && #[trigger] is_moved(base, target, keys, k) ==> rows.contains(
                    (keys[k], line_of(base, target, keys[k])->0),
                )
            &&& rows.no_duplicates()
        }),
    decreases n,
{
    let keys = common_keys(base, target);
    let rows = moved_rows(base, target, keys, n);
    if n > 0 {
        lemma_moved_rows_are(base, target, n - 1);
        lemma_sorted_once(shared_keys(base, target, base.len() as int));
        let p = moved_rows(base, target, keys, n - 1);
        let last = (keys[n - 1], line_of(base, target, keys[n - 1])->0);
        assert forall|r: int| 0 <= r < rows.len() implies is_row_among(
            base,
            target,
            n,
            #[trigger] rows[r],
        ) by {
            if r < p.len() {
                assert(rows[r] == p[r]);
                assert(is_row_among(base, target, n - 1, p[r]));
                let k = choose|k: int|
                    0 <= k < n - 1 && #[trigger] is_moved(base, target, keys, k) && p[r] == (
                        keys[k],
                        line_of(base, target, keys[k])->0,
                    );
                assert(is_moved(base, target, keys, k));
            } else {
                assert(is_moved(base, target, keys, n - 1));
            }
        }
        assert forall|k: int|
            0 <= k < n && #[trigger] is_moved(base, target, keys, k) implies rows.contains(
            (keys[k], line_of(base, target, keys[k])->0),
        ) by {
            let row = (keys[k], line_of(base, target, keys[k])->0);
            lemma_push_has(p, last, row);
        }
        assert forall|i: int, j: int| 0 <= i < rows.len() && 0 <= j < rows.len() && i
            != j implies rows[i] != rows[j] by {
            if i < p.len() && j < p.len() {
                assert(p[i] != p[j]);
            } else {
                let r = if i < p.len() {
                    i
                } else {
                    j
                };
                assert(rows[r] == p[r]);
                assert(is_row_among(base, target, n - 1, p[r]));
                let k = choose|k: int|
                    0 <= k < n - 1 && #[trigger] is_moved(base, target, keys, k) && p[r] == (
                        keys[k],
                        line_of(base, target, keys[k])->0,
                    );
                assert(keys[k] != keys[n - 1]);
            }
        }
    }
}

/// A function is told to stand elsewhere exactly where there is another with which it is
/// exchanged, and it is told once.
pub proof fn lemma_moved_are_exchanged(base: Seq<FnShape>, target: Seq<FnShape>)
    ensures
        order_moved(base, target).no_duplicates(),
        forall|x: Seq<char>| #[trigger]
            order_moved(base, target).contains(x) == (exists|y: Seq<char>| #[trigger]
                are_exchanged(base, target, x, y)),
{
    broadcast use vstd::seq_lib::group_to_multiset_ensures;

    let keys = common_keys(base, target);
    let n = keys.len() as int;
    let rows = moved_rows(base, target, keys, n);
    let le = |a: (Seq<char>, u32), b: (Seq<char>, u32)| row_le(a, b);
    let sorted = sorted_by(rows, le);
    let out = order_moved(base, target);
    lemma_sorted_by(rows, le);
    lemma_moved_rows_are(base, target, n);
    rows.lemma_multiset_has_no_duplicates();
    sorted.lemma_multiset_has_no_duplicates_conv();
    assert forall|x: (Seq<char>, u32)| #[trigger] sorted.contains(x) == rows.contains(x) by {
        assert(sorted.contains(x) == (sorted.to_multiset().count(x) > 0));
        assert(rows.contains(x) == (rows.to_multiset().count(x) > 0));
    }
    assert forall|i: int| 0 <= i < sorted.len() implies (#[trigger] sorted[i]).1 == line_of(
        base,
        target,
        sorted[i].0,
    )->0 by {
        assert(sorted.contains(sorted[i]));
        let r = rows.index_of(sorted[i]);
        assert(is_row_among(base, target, n, rows[r]));
    }
    assert forall|i: int, j: int| 0 <= i < out.len() && 0 <= j < out.len() && i != j implies out[i]
        != out[j] by {
        assert(sorted[i] != sorted[j]);
        assert(out[i] == sorted[i].0 && out[j] == sorted[j].0);
    }
    assert forall|x: Seq<char>| #[trigger] out.contains(x) == (exists|y: Seq<char>| #[trigger]
        are_exchanged(base, target, x, y)) by {
        if out.contains(x) {
            let i = out.index_of(x);
            assert(out[i] == sorted[i].0);
            assert(sorted.contains(sorted[i]));
            let r = rows.index_of(sorted[i]);
            assert(is_row_among(base, target, n, rows[r]));
            let k = choose|k: int|
                0 <= k < n && #[trigger] is_moved(base, target, keys, k) && rows[r] == (
                    keys[k],
                    line_of(base, target, keys[k])->0,
                );
            lemma_is_moved(base, target, k);
        }
        if exists|y: Seq<char>| #[trigger] are_exchanged(base, target, x, y) {
            let y = choose|y: Seq<char>| #[trigger] are_exchanged(base, target, x, y);
            lemma_common_keys(base, target, x);
            let k = keys.index_of(x);
            lemma_is_moved(base, target, k);
            let row = (keys[k], line_of(base, target, keys[k])->0);
            assert(rows.contains(row));
            assert(sorted.contains(row));
            let i = sorted.index_of(row);
            assert(out[i] == x);
        }
    }
}

/// With the sides exchanged the same functions stand elsewhere.
pub proof fn lemma_same_are_moved(base: Seq<FnShape>, target: Seq<FnShape>, x: Seq<char>)
    ensures
        order_moved(base, target).contains(x) == order_moved(target, base).contains(x),
{
    lemma_moved_are_exchanged(base, target);
    lemma_moved_are_exchanged(target, base);
    assert forall|y: Seq<char>| #[trigger]
        are_exchanged(base, target, x, y) == are_exchanged(target, base, x, y) by {}
    if order_moved(base, target).contains(x) {
        let y = choose|y: Seq<char>| #[trigger] are_exchanged(base, target, x, y);
        assert(are_exchanged(target, base, x, y));
    }
    if order_moved(target, base).contains(x) {
        let y = choose|y: Seq<char>| #[trigger] are_exchanged(target, base, x, y);
        assert(are_exchanged(base, target, x, y));
    }
}

/// Whether the functions of two files keep their order in their modules, whatever their
/// lines.
pub open spec fn places_keep_order(base: Seq<FnShape>, target: Seq<FnShape>) -> bool {
    forall|x: Seq<char>, y: Seq<char>|
        match (
            #[trigger] place_of(base, target, x),
            #[trigger] place_of(base, target, y),
            place_of(target, base, x),
            place_of(target, base, y),
        ) {
            (Some(bx), Some(by), Some(tx), Some(ty)) => bx.0 == by.0 && tx.0 == ty.0 ==> (bx.1
                < by.1) == (tx.1 < ty.1),
            _ => true,
        }
}

/// Where the functions keep their order in their modules, none stands elsewhere, however
/// their lines differ.
pub proof fn lemma_kept_places_are_not_moved(base: Seq<FnShape>, target: Seq<FnShape>)
    requires
        places_keep_order(base, target),
    ensures
        order_moved(base, target).len() == 0,
{
    lemma_moved_are_exchanged(base, target);
    let out = order_moved(base, target);
    if out.len() > 0 {
        let x = out[0];
        assert(out.contains(x));
        let y = choose|y: Seq<char>| #[trigger] are_exchanged(base, target, x, y);
        assert(place_of(base, target, x) is Some && place_of(base, target, y) is Some);
    }
}

} // verus!
