//! What holds of the named values of two builds: enumerations and constants.

use crate::divergence::{bits_of, enum_difference, enum_lines, enum_values, underlying_lines,
    with_enum_misnames, with_enum_sided};
use crate::divergence_diff::{all_keys, keys_in, lemma_all_keys, misnames, names_for, paired,
    unpaired, value_difference, with_keys, KeyModel, ValueDifference};
use crate::divergence_model::{ConstShape, EnumShape, FnShape};
use crate::divergence_report::{const_difference, const_values, counterpart, function_notes,
    last_keyed, last_named, with_const_lines, with_misnames, with_sided};
use crate::number::{dec, dec_int, hex_capital};
use vstd::prelude::*;

verus! {

// ---------------------------------------------------------------------------
// Values
// ---------------------------------------------------------------------------

/// Whether no two values have one key.
pub open spec fn keys_once(v: Seq<(KeyModel, Seq<char>)>) -> bool {
    forall|i: int, j: int| 0 <= i < j < v.len() ==> (#[trigger] v[i]).0 != (#[trigger] v[j]).0
}

proof fn lemma_name_for(v: Seq<(KeyModel, Seq<char>)>, i: int, n: int)
    requires
        keys_once(v),
        0 <= i < v.len(),
        0 <= n <= v.len(),
    ensures
        names_for(v, v[i].0, n) == if i < n {
            seq![v[i].1]
        } else {
            Seq::empty()
        },
    decreases n,
{
    if n > 0 {
        lemma_name_for(v, i, n - 1);
        if n - 1 < i {
            assert(v[n - 1].0 != v[i].0);
        } else if n - 1 > i {
            assert(v[i].0 != v[n - 1].0);
        } else {
            assert(Seq::<Seq<char>>::empty().push(v[i].1) =~= seq![v[i].1]);
        }
    }
}

proof fn lemma_no_name_for(v: Seq<(KeyModel, Seq<char>)>, key: KeyModel, n: int)
    requires
        0 <= n <= v.len(),
        forall|i: int| 0 <= i < v.len() ==> (#[trigger] v[i]).0 != key,
    ensures
        names_for(v, key, n) == Seq::<Seq<char>>::empty(),
    decreases n,
{
    if n > 0 {
        lemma_no_name_for(v, key, n - 1);
    }
}

/// What one key adds to a difference.
spec fn added(
    base: Seq<(KeyModel, Seq<char>)>,
    target: Seq<(KeyModel, Seq<char>)>,
    key: KeyModel,
) -> ValueDifference {
    let a = names_for(base, key, base.len() as int);
    let b = names_for(target, key, target.len() as int);
    let n = paired(a, b);
    ValueDifference {
        misnamed: misnames(key, a, b, n),
        only_base: unpaired(key, a, n),
        only_target: unpaired(key, b, n),
    }
}

proof fn lemma_concat_holds<A>(a: Seq<A>, b: Seq<A>, x: A)
    ensures
        (a + b).contains(x) <==> a.contains(x) || b.contains(x),
{
    let c = a + b;
    if c.contains(x) {
        let k = c.index_of(x);
        if k < a.len() {
            assert(a[k] == x);
        } else {
            assert(b[k - a.len()] == x);
        }
    }
    if a.contains(x) {
        let k = a.index_of(x);
        assert(c[k] == x);
    }
    if b.contains(x) {
        let k = b.index_of(x);
        assert(c[a.len() + k] == x);
    }
}

proof fn lemma_with_keys_holds(
    base: Seq<(KeyModel, Seq<char>)>,
    target: Seq<(KeyModel, Seq<char>)>,
    keys: Seq<KeyModel>,
    n: int,
)
    requires
        0 <= n <= keys.len(),
    ensures
        ({
            let d = with_keys(base, target, keys, n);
            &&& forall|x: (KeyModel, Seq<char>, Seq<char>)| #[trigger]
                d.misnamed.contains(x) <==> exists|k: int|
                    0 <= k < n && added(base, target, #[trigger] keys[k]).misnamed.contains(x)
            &&& forall|x: (KeyModel, Seq<char>)| #[trigger]
                d.only_base.contains(x) <==> exists|k: int|
                    0 <= k < n && added(base, target, #[trigger] keys[k]).only_base.contains(x)
            &&& forall|x: (KeyModel, Seq<char>)| #[trigger]
                d.only_target.contains(x) <==> exists|k: int|
                    0 <= k < n && added(base, target, #[trigger] keys[k]).only_target.contains(x)
        }),
    decreases n,
{
    let d = with_keys(base, target, keys, n);
    if n > 0 {
        lemma_with_keys_holds(base, target, keys, n - 1);
        let before = with_keys(base, target, keys, n - 1);
        let last = added(base, target, keys[n - 1]);
        assert(d.misnamed == before.misnamed + last.misnamed);
        assert(d.only_base == before.only_base + last.only_base);
        assert(d.only_target == before.only_target + last.only_target);
        assert forall|x: (KeyModel, Seq<char>, Seq<char>)| #[trigger]
            d.misnamed.contains(x) <==> exists|k: int|
                0 <= k < n && added(base, target, #[trigger] keys[k]).misnamed.contains(x) by {
            lemma_concat_holds(before.misnamed, last.misnamed, x);
            if before.misnamed.contains(x) {
                let k = choose|k: int|
                    0 <= k < n - 1 && added(base, target, #[trigger] keys[k]).misnamed.contains(x);
                assert(added(base, target, keys[k]).misnamed.contains(x));
            }
            if last.misnamed.contains(x) {
                assert(added(base, target, keys[n - 1]).misnamed.contains(x));
            }
        }
        assert forall|x: (KeyModel, Seq<char>)| #[trigger]
            d.only_base.contains(x) <==> exists|k: int|
                0 <= k < n && added(base, target, #[trigger] keys[k]).only_base.contains(x) by {
            lemma_concat_holds(before.only_base, last.only_base, x);
            if before.only_base.contains(x) {
                let k = choose|k: int|
                    0 <= k < n - 1 && added(base, target, #[trigger] keys[k]).only_base.contains(x);
                assert(added(base, target, keys[k]).only_base.contains(x));
            }
            if last.only_base.contains(x) {
                assert(added(base, target, keys[n - 1]).only_base.contains(x));
            }
        }
        assert forall|x: (KeyModel, Seq<char>)| #[trigger]
            d.only_target.contains(x) <==> exists|k: int|
                0 <= k < n && added(base, target, #[trigger] keys[k]).only_target.contains(x) by {
            lemma_concat_holds(before.only_target, last.only_target, x);
            if before.only_target.contains(x) {
                let k = choose|k: int|
                    0 <= k < n - 1 && added(
                        base,
                        target,
                        #[trigger] keys[k],
                    ).only_target.contains(x);
                assert(added(base, target, keys[k]).only_target.contains(x));
            }
            if last.only_target.contains(x) {
                assert(added(base, target, keys[n - 1]).only_target.contains(x));
            }
        }
    }
}

/// What is added for a key that each list has at most once.
proof fn lemma_added_once(
    base: Seq<(KeyModel, Seq<char>)>,
    target: Seq<(KeyModel, Seq<char>)>,
    key: KeyModel,
    a: Option<Seq<char>>,
    b: Option<Seq<char>>,
)
    requires
        names_for(base, key, base.len() as int) == (match a {
            Some(x) => seq![x],
            None => Seq::empty(),
        }),
        names_for(target, key, target.len() as int) == (match b {
            Some(x) => seq![x],
            None => Seq::empty(),
        }),
    ensures
        ({
            let d = added(base, target, key);
            &&& forall|x: (KeyModel, Seq<char>, Seq<char>)| #[trigger]
                d.misnamed.contains(x) <==> a is Some && b is Some && a != b && x == (
                    key,
                    a->0,
                    b->0,
                )
            &&& forall|x: (KeyModel, Seq<char>)| #[trigger]
                d.only_base.contains(x) <==> a is Some && b is None && x == (key, a->0)
            &&& forall|x: (KeyModel, Seq<char>)| #[trigger]
                d.only_target.contains(x) <==> a is None && b is Some && x == (key, b->0)
        }),
{
    let p = names_for(base, key, base.len() as int);
    let q = names_for(target, key, target.len() as int);
    let n = paired(p, q);
    let d = added(base, target, key);
    reveal_with_fuel(misnames, 2);
    if a is Some && b is Some {
        assert(n == 1);
        if a != b {
            assert(d.misnamed =~= seq![(key, a->0, b->0)]);
            assert(d.misnamed[0] == (key, a->0, b->0));
        } else {
            assert(d.misnamed =~= Seq::empty());
        }
        assert(d.only_base =~= Seq::empty());
        assert(d.only_target =~= Seq::empty());
    } else {
        assert(n == 0);
        assert(d.misnamed =~= Seq::empty());
        if a is Some {
            assert(d.only_base =~= seq![(key, a->0)]);
            assert(d.only_base[0] == (key, a->0));
        } else {
            assert(d.only_base =~= Seq::empty());
        }
        if b is Some {
            assert(d.only_target =~= seq![(key, b->0)]);
            assert(d.only_target[0] == (key, b->0));
        } else {
            assert(d.only_target =~= Seq::empty());
        }
    }
}

/// The name of a key in a list.
spec fn name_in(v: Seq<(KeyModel, Seq<char>)>, key: KeyModel) -> Option<Seq<char>> {
    if exists|i: int| 0 <= i < v.len() && (#[trigger] v[i]).0 == key {
        Some(v[choose|i: int| 0 <= i < v.len() && (#[trigger] v[i]).0 == key].1)
    } else {
        None
    }
}

proof fn lemma_name_in(v: Seq<(KeyModel, Seq<char>)>, key: KeyModel)
    requires
        keys_once(v),
    ensures
        names_for(v, key, v.len() as int) == (match name_in(v, key) {
            Some(x) => seq![x],
            None => Seq::empty(),
        }),
        forall|i: int|
            0 <= i < v.len() && (#[trigger] v[i]).0 == key ==> name_in(v, key) == Some(v[i].1),
        name_in(v, key) is None <==> forall|i: int| 0 <= i < v.len() ==> (#[trigger] v[i]).0 != key,
{
    if exists|i: int| 0 <= i < v.len() && (#[trigger] v[i]).0 == key {
        let i = choose|i: int| 0 <= i < v.len() && (#[trigger] v[i]).0 == key;
        lemma_name_for(v, i, v.len() as int);
        assert forall|k: int| 0 <= k < v.len() && (#[trigger] v[k]).0 == key implies name_in(v, key)
            == Some(v[k].1) by {
            if k < i {
                assert(v[k].0 != v[i].0);
            } else if i < k {
                assert(v[i].0 != v[k].0);
            }
        }
    } else {
        lemma_no_name_for(v, key, v.len() as int);
    }
}

/// Where no value occurs twice in a list: a value that both have under two names is told to be
/// misnamed, with both names, and one that a list alone has is told to be that list's; and
/// nothing else is told.
pub proof fn lemma_values_are_told(
    base: Seq<(KeyModel, Seq<char>)>,
    target: Seq<(KeyModel, Seq<char>)>,
)
    requires
        keys_once(base),
        keys_once(target),
    ensures
        ({
            let d = value_difference(base, target);
            &&& forall|i: int, j: int|
                0 <= i < base.len() && 0 <= j < target.len() && (#[trigger] base[i]).0 == (
                #[trigger] target[j]).0 && base[i].1 != target[j].1 ==> d.misnamed.contains(
                    (base[i].0, base[i].1, target[j].1),
                )
            &&& forall|i: int|
                0 <= i < base.len() && (forall|j: int|
                    0 <= j < target.len() ==> (#[trigger] target[j]).0 != base[i].0)
                    ==> d.only_base.contains(#[trigger] base[i])
            &&& forall|j: int|
                0 <= j < target.len() && (forall|i: int|
                    0 <= i < base.len() ==> (#[trigger] base[i]).0 != target[j].0)
                    ==> d.only_target.contains(#[trigger] target[j])
            &&& forall|x: (KeyModel, Seq<char>, Seq<char>)| #[trigger]
                d.misnamed.contains(x) ==> x.1 != x.2 && base.contains((x.0, x.1))
                    && target.contains((x.0, x.2))
            &&& forall|x: (KeyModel, Seq<char>)| #[trigger]
                d.only_base.contains(x) ==> base.contains(x) && forall|j: int|
                    0 <= j < target.len() ==> (#[trigger] target[j]).0 != x.0
            &&& forall|x: (KeyModel, Seq<char>)| #[trigger]
                d.only_target.contains(x) ==> target.contains(x) && forall|i: int|
                    0 <= i < base.len() ==> (#[trigger] base[i]).0 != x.0
        }),
{
    let keys = all_keys(base, target);
    let n = keys.len() as int;
    let d = value_difference(base, target);
    let both = keys_in(base) + keys_in(target);
    lemma_all_keys(base, target);
    lemma_with_keys_holds(base, target, keys, n);
    assert forall|key: KeyModel| #![trigger added(base, target, key)] true implies {
        let e = added(base, target, key);
        let a = name_in(base, key);
        let b = name_in(target, key);
        &&& forall|x: (KeyModel, Seq<char>, Seq<char>)| #[trigger]
            e.misnamed.contains(x) <==> a is Some && b is Some && a != b && x == (key, a->0, b->0)
        &&& forall|x: (KeyModel, Seq<char>)| #[trigger]
            e.only_base.contains(x) <==> a is Some && b is None && x == (key, a->0)
        &&& forall|x: (KeyModel, Seq<char>)| #[trigger]
            e.only_target.contains(x) <==> a is None && b is Some && x == (key, b->0)
    } by {
        lemma_name_in(base, key);
        lemma_name_in(target, key);
        lemma_added_once(base, target, key, name_in(base, key), name_in(target, key));
    }
    assert forall|i: int, j: int|
        0 <= i < base.len() && 0 <= j < target.len() && (#[trigger] base[i]).0 == (
        #[trigger] target[j]).0 && base[i].1 != target[j].1 implies d.misnamed.contains(
        (base[i].0, base[i].1, target[j].1),
    ) by {
        let key = base[i].0;
        lemma_name_in(base, key);
        lemma_name_in(target, key);
        assert(both[i] == key);
        assert(both.contains(key));
        assert(keys.contains(key));
        let k = keys.index_of(key);
        assert(added(base, target, keys[k]).misnamed.contains((key, base[i].1, target[j].1)));
    }
    assert forall|i: int|
        0 <= i < base.len() && (forall|j: int|
            0 <= j < target.len() ==> (#[trigger] target[j]).0 != base[i].0) implies
        d.only_base.contains(#[trigger] base[i]) by {
        let key = base[i].0;
        lemma_name_in(base, key);
        lemma_name_in(target, key);
        assert(both[i] == key);
        assert(both.contains(key));
        assert(keys.contains(key));
        let k = keys.index_of(key);
        assert(added(base, target, keys[k]).only_base.contains(base[i]));
    }
    assert forall|j: int|
        0 <= j < target.len() && (forall|i: int|
            0 <= i < base.len() ==> (#[trigger] base[i]).0 != target[j].0) implies
        d.only_target.contains(#[trigger] target[j]) by {
        let key = target[j].0;
        lemma_name_in(base, key);
        lemma_name_in(target, key);
        assert(both[base.len() + j] == key);
        assert(both.contains(key));
        assert(keys.contains(key));
        let k = keys.index_of(key);
        assert(added(base, target, keys[k]).only_target.contains(target[j]));
    }
    assert forall|x: (KeyModel, Seq<char>, Seq<char>)| #[trigger] d.misnamed.contains(x) implies x.1
        != x.2 && base.contains((x.0, x.1)) && target.contains((x.0, x.2)) by {
        let k = choose|k: int|
            0 <= k < n && added(base, target, #[trigger] keys[k]).misnamed.contains(x);
        lemma_name_in(base, keys[k]);
        lemma_name_in(target, keys[k]);
        let i = choose|i: int| 0 <= i < base.len() && (#[trigger] base[i]).0 == keys[k];
        let j = choose|j: int| 0 <= j < target.len() && (#[trigger] target[j]).0 == keys[k];
        assert(base[i] == (x.0, x.1));
        assert(target[j] == (x.0, x.2));
    }
    assert forall|x: (KeyModel, Seq<char>)| #[trigger] d.only_base.contains(x) implies
        base.contains(x) && forall|j: int|
        0 <= j < target.len() ==> (#[trigger] target[j]).0 != x.0 by {
        let k = choose|k: int|
            0 <= k < n && added(base, target, #[trigger] keys[k]).only_base.contains(x);
        lemma_name_in(base, keys[k]);
        lemma_name_in(target, keys[k]);
        let i = choose|i: int| 0 <= i < base.len() && (#[trigger] base[i]).0 == keys[k];
        assert(base[i] == x);
    }
    assert forall|x: (KeyModel, Seq<char>)| #[trigger] d.only_target.contains(x) implies
        target.contains(x) && forall|i: int| 0 <= i < base.len() ==> (#[trigger] base[i]).0
        != x.0 by {
        let k = choose|k: int|
            0 <= k < n && added(base, target, #[trigger] keys[k]).only_target.contains(x);
        lemma_name_in(base, keys[k]);
        lemma_name_in(target, keys[k]);
        let j = choose|j: int| 0 <= j < target.len() && (#[trigger] target[j]).0 == keys[k];
        assert(target[j] == x);
    }
}

proof fn lemma_no_misnames(key: KeyModel, a: Seq<Seq<char>>, b: Seq<Seq<char>>, n: int)
    requires
        0 <= n <= a.len(),
        n <= b.len(),
        misnames(key, a, b, n).len() == 0,
    ensures
        forall|i: int| 0 <= i < n ==> #[trigger] a[i] == b[i],
    decreases n,
{
    if n > 0 {
        lemma_no_misnames(key, a, b, n - 1);
    }
}

proof fn lemma_nothing_added(
    base: Seq<(KeyModel, Seq<char>)>,
    target: Seq<(KeyModel, Seq<char>)>,
    keys: Seq<KeyModel>,
    n: int,
)
    requires
        0 <= n <= keys.len(),
        !with_keys(base, target, keys, n).is_diverged(),
    ensures
        forall|k: int|
            0 <= k < n ==> names_for(base, #[trigger] keys[k], base.len() as int) == names_for(
                target,
                keys[k],
                target.len() as int,
            ),
    decreases n,
{
    if n > 0 {
        let before = with_keys(base, target, keys, n - 1);
        let last = added(base, target, keys[n - 1]);
        let d = with_keys(base, target, keys, n);
        assert(d.misnamed == before.misnamed + last.misnamed);
        assert(d.only_base == before.only_base + last.only_base);
        assert(d.only_target == before.only_target + last.only_target);
        assert(last.misnamed.len() == 0 && last.only_base.len() == 0 && last.only_target.len()
            == 0);
        lemma_nothing_added(base, target, keys, n - 1);
        let a = names_for(base, keys[n - 1], base.len() as int);
        let b = names_for(target, keys[n - 1], target.len() as int);
        let m = paired(a, b);
        lemma_no_misnames(keys[n - 1], a, b, m);
        assert(a.skip(m).len() == 0 && b.skip(m).len() == 0);
        assert(a =~= b);
    }
}

/// Lists of values of which nothing is told give every value the same names, in order.
pub proof fn lemma_no_difference_means_same_values(
    base: Seq<(KeyModel, Seq<char>)>,
    target: Seq<(KeyModel, Seq<char>)>,
    key: KeyModel,
)
    requires
        !value_difference(base, target).is_diverged(),
    ensures
        names_for(base, key, base.len() as int) == names_for(target, key, target.len() as int),
{
    let keys = all_keys(base, target);
    let both = keys_in(base) + keys_in(target);
    lemma_all_keys(base, target);
    lemma_nothing_added(base, target, keys, keys.len() as int);
    if keys.contains(key) {
        let k = keys.index_of(key);
        assert(keys[k] == key);
    } else {
        assert forall|i: int| 0 <= i < base.len() implies (#[trigger] base[i]).0 != key by {
            assert(both[i] == base[i].0);
            assert(both.contains(both[i]));
        }
        assert forall|j: int| 0 <= j < target.len() implies (#[trigger] target[j]).0 != key by {
            assert(both[base.len() + j] == target[j].0);
            assert(both.contains(both[base.len() + j]));
        }
        lemma_no_name_for(base, key, base.len() as int);
        lemma_no_name_for(target, key, target.len() as int);
    }
}

// ---------------------------------------------------------------------------
// Enumerations
// ---------------------------------------------------------------------------

proof fn lemma_push_keeps(v: Seq<Seq<char>>, x: Seq<char>)
    ensures
        v.push(x).contains(x),
        forall|y: Seq<char>| #[trigger] v.contains(y) ==> v.push(x).contains(y),
{
    let w = v.push(x);
    assert(w[v.len() as int] == x);
    assert forall|y: Seq<char>| #[trigger] v.contains(y) implies w.contains(y) by {
        let k = v.index_of(y);
        assert(w[k] == y);
    }
}

proof fn lemma_misname_lines(
    v: Seq<Seq<char>>,
    c: Seq<(KeyModel, Seq<char>, Seq<char>)>,
    n: int,
)
    requires
        0 <= n <= c.len(),
    ensures
        with_enum_misnames(v, c, n).len() == v.len() + n,
        forall|y: Seq<char>| #[trigger] v.contains(y) ==> with_enum_misnames(v, c, n).contains(y),
        forall|k: int|
            0 <= k < n ==> with_enum_misnames(v, c, n).contains(
                "    misname  0x"@ + hex_capital(bits_of((#[trigger] c[k]).0.value)) + "  base="@
                    + c[k].1 + "  target="@ + c[k].2,
            ),
    decreases n,
{
    if n > 0 {
        lemma_misname_lines(v, c, n - 1);
        lemma_push_keeps(
            with_enum_misnames(v, c, n - 1),
            "    misname  0x"@ + hex_capital(bits_of(c[n - 1].0.value)) + "  base="@ + c[n - 1].1
                + "  target="@ + c[n - 1].2,
        );
    }
}

proof fn lemma_sided_lines(
    v: Seq<Seq<char>>,
    prefix: Seq<char>,
    c: Seq<(KeyModel, Seq<char>)>,
    n: int,
)
    requires
        0 <= n <= c.len(),
    ensures
        with_enum_sided(v, prefix, c, n).len() == v.len() + n,
        forall|y: Seq<char>| #[trigger]
            v.contains(y) ==> with_enum_sided(v, prefix, c, n).contains(y),
        forall|k: int|
            0 <= k < n ==> with_enum_sided(v, prefix, c, n).contains(
                prefix + (#[trigger] c[k]).1 + " = 0x"@ + hex_capital(bits_of(c[k].0.value)),
            ),
    decreases n,
{
    if n > 0 {
        lemma_sided_lines(v, prefix, c, n - 1);
        lemma_push_keeps(
            with_enum_sided(v, prefix, c, n - 1),
            prefix + c[n - 1].1 + " = 0x"@ + hex_capital(bits_of(c[n - 1].0.value)),
        );
    }
}

proof fn lemma_enum_line_parts(b: EnumShape, t: EnumShape)
    ensures
        ({
            let d = enum_difference(b, t);
            let all = enum_lines(b, t);
            &&& all.len() >= underlying_lines(b, t).len()
            &&& d.is_diverged() ==> all.len() > underlying_lines(b, t).len()
            &&& forall|y: Seq<char>| #[trigger] underlying_lines(b, t).contains(y) ==> all.contains(y)
            &&& forall|k: int|
                0 <= k < d.misnamed.len() ==> all.contains(
                    "    misname  0x"@ + hex_capital(bits_of((#[trigger] d.misnamed[k]).0.value))
                        + "  base="@ + d.misnamed[k].1 + "  target="@ + d.misnamed[k].2,
                )
            &&& forall|k: int|
                0 <= k < d.only_base.len() ==> all.contains(
                    "    only-base  "@ + (#[trigger] d.only_base[k]).1 + " = 0x"@ + hex_capital(
                        bits_of(d.only_base[k].0.value),
                    ),
                )
            &&& forall|k: int|
                0 <= k < d.only_target.len() ==> all.contains(
                    "    only-tgt   "@ + (#[trigger] d.only_target[k]).1 + " = 0x"@ + hex_capital(
                        bits_of(d.only_target[k].0.value),
                    ),
                )
        }),
{
    let u = underlying_lines(b, t);
    let d = enum_difference(b, t);
    if d.is_diverged() {
        let a = u.push("  [values]"@);
        lemma_push_keeps(u, "  [values]"@);
        let x = with_enum_misnames(a, d.misnamed, d.misnamed.len() as int);
        lemma_misname_lines(a, d.misnamed, d.misnamed.len() as int);
        let y = with_enum_sided(x, "    only-base  "@, d.only_base, d.only_base.len() as int);
        lemma_sided_lines(x, "    only-base  "@, d.only_base, d.only_base.len() as int);
        lemma_sided_lines(y, "    only-tgt   "@, d.only_target, d.only_target.len() as int);
    }
}

/// Whether no two values of an enumeration are one number.
pub open spec fn values_once(e: EnumShape) -> bool {
    forall|i: int, j: int|
        0 <= i < j < e.values.len() ==> (#[trigger] e.values[i]).1 != (#[trigger] e.values[j]).1
}

/// What two enumerations differ in stands in the lines about them: another underlying type, a
/// value under two names, a value that one alone has. No two values may be one number.
pub proof fn lemma_enum_lines_tell(b: EnumShape, t: EnumShape)
    requires
        values_once(b),
        values_once(t),
    ensures
        b.underlying != t.underlying ==> enum_lines(b, t).contains(
            "  [underlying]  base="@ + b.underlying + "  target="@ + t.underlying,
        ),
        forall|i: int, j: int|
            0 <= i < b.values.len() && 0 <= j < t.values.len() && (#[trigger] b.values[i]).1 == (
            #[trigger] t.values[j]).1 && b.values[i].0 != t.values[j].0 ==> enum_lines(
                b,
                t,
            ).contains(
                "    misname  0x"@ + hex_capital(bits_of(b.values[i].1)) + "  base="@
                    + b.values[i].0 + "  target="@ + t.values[j].0,
            ),
        forall|i: int|
            0 <= i < b.values.len() && (forall|j: int|
                0 <= j < t.values.len() ==> (#[trigger] t.values[j]).1 != b.values[i].1)
                ==> enum_lines(b, t).contains(
                "    only-base  "@ + (#[trigger] b.values[i]).0 + " = 0x"@ + hex_capital(
                    bits_of(b.values[i].1),
                ),
            ),
        forall|j: int|
            0 <= j < t.values.len() && (forall|i: int|
                0 <= i < b.values.len() ==> (#[trigger] b.values[i]).1 != t.values[j].1)
                ==> enum_lines(b, t).contains(
                "    only-tgt   "@ + (#[trigger] t.values[j]).0 + " = 0x"@ + hex_capital(
                    bits_of(t.values[j].1),
                ),
            ),
{
    let all = enum_lines(b, t);
    let d = enum_difference(b, t);
    let bv = enum_values(b.values);
    let tv = enum_values(t.values);
    lemma_enum_line_parts(b, t);
    assert(keys_once(bv)) by {
        assert forall|i: int, j: int| 0 <= i < j < bv.len() implies (#[trigger] bv[i]).0 != (
        #[trigger] bv[j]).0 by {
            assert(b.values[i].1 != b.values[j].1);
        }
    }
    assert(keys_once(tv)) by {
        assert forall|i: int, j: int| 0 <= i < j < tv.len() implies (#[trigger] tv[i]).0 != (
        #[trigger] tv[j]).0 by {
            assert(t.values[i].1 != t.values[j].1);
        }
    }
    lemma_values_are_told(bv, tv);
    if b.underlying != t.underlying {
        let line = "  [underlying]  base="@ + b.underlying + "  target="@ + t.underlying;
        assert(underlying_lines(b, t)[0] == line);
        assert(underlying_lines(b, t).contains(line));
    }
    assert forall|i: int, j: int|
        0 <= i < b.values.len() && 0 <= j < t.values.len() && (#[trigger] b.values[i]).1 == (
        #[trigger] t.values[j]).1 && b.values[i].0 != t.values[j].0 implies all.contains(
        "    misname  0x"@ + hex_capital(bits_of(b.values[i].1)) + "  base="@ + b.values[i].0
            + "  target="@ + t.values[j].0,
    ) by {
        assert(bv[i].0 == tv[j].0);
        let x = (bv[i].0, bv[i].1, tv[j].1);
        assert(d.misnamed.contains(x));
        let k = d.misnamed.index_of(x);
        assert(d.misnamed[k] == x);
    }
    assert forall|i: int|
        0 <= i < b.values.len() && (forall|j: int|
            0 <= j < t.values.len() ==> (#[trigger] t.values[j]).1 != b.values[i].1) implies
        all.contains(
        "    only-base  "@ + (#[trigger] b.values[i]).0 + " = 0x"@ + hex_capital(
            bits_of(b.values[i].1),
        ),
    ) by {
        assert forall|j: int| 0 <= j < tv.len() implies (#[trigger] tv[j]).0 != bv[i].0 by {
            assert(t.values[j].1 != b.values[i].1);
        }
        assert(d.only_base.contains(bv[i]));
        let k = d.only_base.index_of(bv[i]);
        assert(d.only_base[k] == bv[i]);
    }
    assert forall|j: int|
        0 <= j < t.values.len() && (forall|i: int|
            0 <= i < b.values.len() ==> (#[trigger] b.values[i]).1 != t.values[j].1) implies
        all.contains(
        "    only-tgt   "@ + (#[trigger] t.values[j]).0 + " = 0x"@ + hex_capital(
            bits_of(t.values[j].1),
        ),
    ) by {
        assert forall|i: int| 0 <= i < bv.len() implies (#[trigger] bv[i]).0 != tv[j].0 by {
            assert(b.values[i].1 != t.values[j].1);
        }
        assert(d.only_target.contains(tv[j]));
        let k = d.only_target.index_of(tv[j]);
        assert(d.only_target[k] == tv[j]);
    }
}

/// Enumerations of which nothing is told have one underlying type, and the same names for each
/// value.
pub proof fn lemma_no_lines_means_same_enum(b: EnumShape, t: EnumShape, key: KeyModel)
    requires
        enum_lines(b, t).len() == 0,
    ensures
        b.underlying == t.underlying,
        names_for(enum_values(b.values), key, b.values.len() as int) == names_for(
            enum_values(t.values),
            key,
            t.values.len() as int,
        ),
{
    lemma_enum_line_parts(b, t);
    lemma_no_difference_means_same_values(enum_values(b.values), enum_values(t.values), key);
}

// ---------------------------------------------------------------------------
// Functions
// ---------------------------------------------------------------------------

proof fn lemma_last_named(f: Seq<FnShape>, name: Seq<char>, n: int)
    requires
        0 <= n <= f.len(),
    ensures
        match last_named(f, name, n) {
            Some(x) => f.contains(x) && x.name_orig == name,
            None => forall|i: int| 0 <= i < n ==> (#[trigger] f[i]).name_orig != name,
        },
    decreases n,
{
    if n > 0 {
        lemma_last_named(f, name, n - 1);
        if f[n - 1].name_orig == name {
            assert(f.contains(f[n - 1]));
        }
    }
}

proof fn lemma_last_keyed(f: Seq<FnShape>, key: Seq<char>, n: int)
    requires
        0 <= n <= f.len(),
    ensures
        match last_keyed(f, key, n) {
            Some(x) => f.contains(x) && x.key == key,
            None => forall|i: int| 0 <= i < n ==> (#[trigger] f[i]).key != key,
        },
    decreases n,
{
    if n > 0 {
        lemma_last_keyed(f, key, n - 1);
        if f[n - 1].key == key {
            assert(f.contains(f[n - 1]));
        }
    }
}

/// A function is compared with one of the same signature, where there is one, else with one of
/// the same key; it is compared with none only where there is neither.
pub proof fn lemma_functions_are_joined(f: FnShape, target: Seq<FnShape>)
    ensures
        match counterpart(f, target) {
            Some(t) => target.contains(t) && (t.name_orig == f.name_orig || (t.key == f.key
                && forall|i: int|
                0 <= i < target.len() ==> (#[trigger] target[i]).name_orig != f.name_orig)),
            None => forall|i: int|
                0 <= i < target.len() ==> (#[trigger] target[i]).name_orig != f.name_orig
                    && target[i].key != f.key,
        },
{
    lemma_last_named(target, f.name_orig, target.len() as int);
    lemma_last_keyed(target, f.key, target.len() as int);
}

proof fn lemma_const_lines_keep(lines: Seq<Seq<char>>, name: Seq<char>, d: ValueDifference)
    ensures
        with_const_lines(lines, name, d).len() >= lines.len(),
        forall|y: Seq<char>| #[trigger]
            lines.contains(y) ==> with_const_lines(lines, name, d).contains(y),
        d.is_diverged() ==> with_const_lines(lines, name, d).contains("  [const]  "@ + name),
        forall|k: int|
            0 <= k < d.misnamed.len() ==> with_const_lines(lines, name, d).contains(
                "    misname  "@ + (#[trigger] d.misnamed[k]).0.ty + " = "@ + dec_int(
                    d.misnamed[k].0.value as int,
                ) + "  base="@ + d.misnamed[k].1 + "  target="@ + d.misnamed[k].2,
            ),
        forall|k: int|
            0 <= k < d.only_base.len() ==> with_const_lines(lines, name, d).contains(
                "    only-base  "@ + (#[trigger] d.only_base[k]).0.ty + " "@ + d.only_base[k].1
                    + " = "@ + dec_int(d.only_base[k].0.value as int),
            ),
        forall|k: int|
            0 <= k < d.only_target.len() ==> with_const_lines(lines, name, d).contains(
                "    only-tgt   "@ + (#[trigger] d.only_target[k]).0.ty + " "@ + d.only_target[k].1
                    + " = "@ + dec_int(d.only_target[k].0.value as int),
            ),
{
    if d.is_diverged() {
        let l = lines.push("  [const]  "@ + name);
        lemma_push_keeps(lines, "  [const]  "@ + name);
        let a = with_misnames(l, d.misnamed, d.misnamed.len() as int);
        lemma_const_misnames(l, d.misnamed, d.misnamed.len() as int);
        let b = with_sided(a, "    only-base  "@, d.only_base, d.only_base.len() as int);
        lemma_const_sided(a, "    only-base  "@, d.only_base, d.only_base.len() as int);
        lemma_const_sided(b, "    only-tgt   "@, d.only_target, d.only_target.len() as int);
    }
}

proof fn lemma_const_misnames(
    v: Seq<Seq<char>>,
    c: Seq<(KeyModel, Seq<char>, Seq<char>)>,
    n: int,
)
    requires
        0 <= n <= c.len(),
    ensures
        with_misnames(v, c, n).len() == v.len() + n,
        forall|y: Seq<char>| #[trigger] v.contains(y) ==> with_misnames(v, c, n).contains(y),
        forall|k: int|
            0 <= k < n ==> with_misnames(v, c, n).contains(
                "    misname  "@ + (#[trigger] c[k]).0.ty + " = "@ + dec_int(c[k].0.value as int)
                    + "  base="@ + c[k].1 + "  target="@ + c[k].2,
            ),
    decreases n,
{
    if n > 0 {
        lemma_const_misnames(v, c, n - 1);
        lemma_push_keeps(
            with_misnames(v, c, n - 1),
            "    misname  "@ + c[n - 1].0.ty + " = "@ + dec_int(c[n - 1].0.value as int)
                + "  base="@ + c[n - 1].1 + "  target="@ + c[n - 1].2,
        );
    }
}

proof fn lemma_const_sided(
    v: Seq<Seq<char>>,
    prefix: Seq<char>,
    c: Seq<(KeyModel, Seq<char>)>,
    n: int,
)
    requires
        0 <= n <= c.len(),
    ensures
        with_sided(v, prefix, c, n).len() == v.len() + n,
        forall|y: Seq<char>| #[trigger] v.contains(y) ==> with_sided(v, prefix, c, n).contains(y),
        forall|k: int|
            0 <= k < n ==> with_sided(v, prefix, c, n).contains(
                prefix + (#[trigger] c[k]).0.ty + " "@ + c[k].1 + " = "@ + dec_int(
                    c[k].0.value as int,
                ),
            ),
    decreases n,
{
    if n > 0 {
        lemma_const_sided(v, prefix, c, n - 1);
        lemma_push_keeps(
            with_sided(v, prefix, c, n - 1),
            prefix + c[n - 1].0.ty + " "@ + c[n - 1].1 + " = "@ + dec_int(c[n - 1].0.value as int),
        );
    }
}

proof fn lemma_notes_keep(
    start: Seq<Seq<char>>,
    base: Seq<FnShape>,
    target: Seq<FnShape>,
    compare_tables: bool,
    n: int,
)
    requires
        0 <= n <= base.len(),
    ensures
        ({
            let all = function_notes(start, base, target, compare_tables, n);
            &&& all.lines.len() >= start.len()
            &&& forall|y: Seq<char>| #[trigger] start.contains(y) ==> all.lines.contains(y)
            &&& forall|k: int|
                0 <= k < n ==> (counterpart(#[trigger] base[k], target) matches Some(t) ==> {
                    let d = const_difference(base[k], t);
                    &&& d.is_diverged() ==> all.lines.contains("  [const]  "@ + base[k].name_orig)
                    &&& forall|j: int|
                        0 <= j < d.misnamed.len() ==> all.lines.contains(
                            "    misname  "@ + (#[trigger] d.misnamed[j]).0.ty + " = "@ + dec_int(
                                d.misnamed[j].0.value as int,
                            ) + "  base="@ + d.misnamed[j].1 + "  target="@ + d.misnamed[j].2,
                        )
                    &&& forall|j: int|
                        0 <= j < d.only_base.len() ==> all.lines.contains(
                            "    only-base  "@ + (#[trigger] d.only_base[j]).0.ty + " "@
                                + d.only_base[j].1 + " = "@ + dec_int(
                                d.only_base[j].0.value as int,
                            ),
                        )
                    &&& forall|j: int|
                        0 <= j < d.only_target.len() ==> all.lines.contains(
                            "    only-tgt   "@ + (#[trigger] d.only_target[j]).0.ty + " "@
                                + d.only_target[j].1 + " = "@ + dec_int(
                                d.only_target[j].0.value as int,
                            ),
                        )
                    &&& compare_tables && base[k].raw_line_table_count != t.raw_line_table_count
                        ==> all.lines.contains(
                        "  [line-table]  "@ + base[k].name_orig + ": base="@ + dec(
                            base[k].raw_line_table_count as nat,
                        ) + " target="@ + dec(t.raw_line_table_count as nat),
                    )
                })
        }),
    decreases n,
{
    if n > 0 {
        lemma_notes_keep(start, base, target, compare_tables, n - 1);
        let before = function_notes(start, base, target, compare_tables, n - 1);
        let b = base[n - 1];
        if let Some(t) = counterpart(b, target) {
            let differs = compare_tables && b.raw_line_table_count != t.raw_line_table_count;
            let line = "  [line-table]  "@ + b.name_orig + ": base="@ + dec(
                b.raw_line_table_count as nat,
            ) + " target="@ + dec(t.raw_line_table_count as nat);
            lemma_push_keeps(before.lines, line);
            let lines = if differs {
                before.lines.push(line)
            } else {
                before.lines
            };
            lemma_const_lines_keep(lines, b.name_orig, const_difference(b, t));
        }
    }
}

/// What the functions of a file differ in stands in the lines about it: under the signature of
/// a function whose constants differ each of these, and, where it is asked for, the numbers of
/// entries in its line tables where they differ.
pub proof fn lemma_function_notes_tell(
    start: Seq<Seq<char>>,
    base: Seq<FnShape>,
    target: Seq<FnShape>,
    compare_tables: bool,
    k: int,
)
    requires
        0 <= k < base.len(),
        counterpart(base[k], target) is Some,
    ensures
        ({
            let t = counterpart(base[k], target)->0;
            let d = value_difference(const_values(base[k].constants), const_values(t.constants));
            let lines = function_notes(
                start,
                base,
                target,
                compare_tables,
                base.len() as int,
            ).lines;
            &&& d.is_diverged() ==> lines.contains("  [const]  "@ + base[k].name_orig)
            &&& forall|j: int|
                0 <= j < d.misnamed.len() ==> lines.contains(
                    "    misname  "@ + (#[trigger] d.misnamed[j]).0.ty + " = "@ + dec_int(
                        d.misnamed[j].0.value as int,
                    ) + "  base="@ + d.misnamed[j].1 + "  target="@ + d.misnamed[j].2,
                )
            &&& forall|j: int|
                0 <= j < d.only_base.len() ==> lines.contains(
                    "    only-base  "@ + (#[trigger] d.only_base[j]).0.ty + " "@ + d.only_base[j].1
                        + " = "@ + dec_int(d.only_base[j].0.value as int),
                )
            &&& forall|j: int|
                0 <= j < d.only_target.len() ==> lines.contains(
                    "    only-tgt   "@ + (#[trigger] d.only_target[j]).0.ty + " "@
                        + d.only_target[j].1 + " = "@ + dec_int(d.only_target[j].0.value as int),
                )
            &&& compare_tables && base[k].raw_line_table_count != t.raw_line_table_count
                ==> lines.contains(
                "  [line-table]  "@ + base[k].name_orig + ": base="@ + dec(
                    base[k].raw_line_table_count as nat,
                ) + " target="@ + dec(t.raw_line_table_count as nat),
            )
        }),
{
    lemma_notes_keep(start, base, target, compare_tables, base.len() as int);
}

/// Constants are joined by type and value.
pub proof fn lemma_constants_are_joined(c: Seq<ConstShape>, i: int)
    requires
        0 <= i < c.len(),
    ensures
        const_values(c).len() == c.len(),
        const_values(c)[i].0.ty == c[i].typename,
        const_values(c)[i].0.value == c[i].value,
        const_values(c)[i].1 == c[i].name,
{
}

} // verus!
