//! What holds of the differences that are told of the classes of two builds.

use crate::divergence::{access_difference, access_from, access_word, changed_fields, class_lines,
    field_accesses, field_difference, field_names, last_field, member_names, method_accesses,
    method_difference, repeats, signatures, size_lines, with_access_lines, with_changed,
    with_changes, with_field_lines, with_list, with_method_lines, with_visibility_lines,
    ChangedModel};
use crate::divergence_diff::{lemma_told_once, seq_difference};
use crate::divergence_diff_laws::{keeps_order, lemma_unmoved_keep_order};
use crate::divergence_model::{ClassShape, FieldShape, MethodShape};
use crate::number::hex_capital;
use crate::search::joined;
use vstd::prelude::*;

verus! {

/// Whether no two members have one name.
pub open spec fn names_once(f: Seq<FieldShape>) -> bool {
    forall|i: int, j: int|
        0 <= i < j < f.len() ==> (#[trigger] f[i]).name != (#[trigger] f[j]).name
}

/// Whether no two methods have one signature.
pub open spec fn signatures_once(m: Seq<MethodShape>) -> bool {
    forall|i: int, j: int|
        0 <= i < j < m.len() ==> (#[trigger] m[i]).sig != (#[trigger] m[j]).sig
}

/// Whether member `i` of the base and member `j` of the target have one name, and another
/// type or another offset.
pub open spec fn is_other(base: Seq<FieldShape>, target: Seq<FieldShape>, i: int, j: int) -> bool {
    &&& 0 <= i < base.len()
    &&& 0 <= j < target.len()
    &&& base[i].name == target[j].name
    &&& base[i].typename != target[j].typename || base[i].offset != target[j].offset
}

proof fn lemma_last_field(f: Seq<FieldShape>, j: int, n: int)
    requires
        names_once(f),
        0 <= j < n <= f.len(),
    ensures
        last_field(f, f[j].name, n) == Some(f[j]),
    decreases n,
{
    if j < n - 1 {
        assert(f[j].name != f[n - 1].name);
        lemma_last_field(f, j, n - 1);
    }
}

proof fn lemma_last_is_some_field(f: Seq<FieldShape>, name: Seq<char>, n: int)
    requires
        0 <= n <= f.len(),
    ensures
        last_field(f, name, n) matches Some(x) ==> exists|j: int|
            0 <= j < n && #[trigger] f[j] == x && f[j].name == name,
    decreases n,
{
    if n > 0 {
        lemma_last_is_some_field(f, name, n - 1);
        if f[n - 1].name == name {
            assert(f[n - 1] == f[n - 1]);
        } else if let Some(x) = last_field(f, name, n - 1) {
            let j = choose|j: int| 0 <= j < n - 1 && #[trigger] f[j] == x && f[j].name == name;
            assert(f[j] == x);
        }
    }
}

/// The model of a member that differs.
pub open spec fn as_changed(b: FieldShape, t: FieldShape) -> ChangedModel {
    ChangedModel { name: b.name, base: (b.typename, b.offset), target: (t.typename, t.offset) }
}

proof fn lemma_changed_upto(base: Seq<FieldShape>, target: Seq<FieldShape>, n: int)
    requires
        names_once(base),
        names_once(target),
        0 <= n <= base.len(),
    ensures
        forall|i: int, j: int|
            #[trigger] is_other(base, target, i, j) && i < n ==> changed_fields(
                base,
                target,
                n,
            ).contains(as_changed(base[i], target[j])),
        forall|x: ChangedModel| #[trigger]
            changed_fields(base, target, n).contains(x) ==> exists|i: int, j: int|
                i < n && #[trigger] is_other(base, target, i, j) && x == as_changed(
                    base[i],
                    target[j],
                ),
    decreases n,
{
    if n > 0 {
        lemma_changed_upto(base, target, n - 1);
        let before = changed_fields(base, target, n - 1);
        let all = changed_fields(base, target, n);
        let b = base[n - 1];
        assert(!repeats(field_names(base), n - 1)) by {
            if repeats(field_names(base), n - 1) {
                let k = choose|k: int|
                    0 <= k < n - 1 && #[trigger] field_names(base)[k] == field_names(base)[n - 1];
                assert(base[k].name != base[n - 1].name);
            }
        }
        let last = last_field(target, b.name, target.len() as int);
        lemma_last_is_some_field(target, b.name, target.len() as int);
        assert forall|i: int, j: int| #[trigger] is_other(base, target, i, j) && i
            < n implies all.contains(as_changed(base[i], target[j])) by {
            let x = as_changed(base[i], target[j]);
            if i < n - 1 {
                assert(before.contains(x));
                let k = before.index_of(x);
                assert(all[k] == x);
            } else {
                lemma_last_field(target, j, target.len() as int);
                assert(all[before.len() as int] == x);
            }
        }
        assert forall|x: ChangedModel| #[trigger] all.contains(x) implies exists|i: int, j: int|
            i < n && #[trigger] is_other(base, target, i, j) && x == as_changed(
                base[i],
                target[j],
            ) by {
            let k = all.index_of(x);
            if k < before.len() {
                assert(before[k] == x);
                assert(before.contains(x));
                let (i, j) = choose|i: int, j: int|
                    i < n - 1 && #[trigger] is_other(base, target, i, j) && x == as_changed(
                        base[i],
                        target[j],
                    );
                assert(is_other(base, target, i, j));
            } else {
                let t = last->0;
                let j = choose|j: int|
                    0 <= j < target.len() && #[trigger] target[j] == t && target[j].name == b.name;
                assert(is_other(base, target, n - 1, j));
            }
        }
    }
}

/// A member is told to differ exactly where both builds have a member of its name and the
/// two differ in type or in offset. It is told with both types and offsets. No two members of
/// a class may have one name.
pub proof fn lemma_changed_members_are_told(base: Seq<FieldShape>, target: Seq<FieldShape>)
    requires
        names_once(base),
        names_once(target),
    ensures
        forall|i: int, j: int|
            0 <= i < base.len() && 0 <= j < target.len() && (#[trigger] base[i]).name == (
            #[trigger] target[j]).name && (base[i].typename != target[j].typename || base[i].offset
                != target[j].offset) ==> field_difference(base, target).changed.contains(
                ChangedModel {
                    name: base[i].name,
                    base: (base[i].typename, base[i].offset),
                    target: (target[j].typename, target[j].offset),
                },
            ),
        forall|x: ChangedModel| #[trigger]
            field_difference(base, target).changed.contains(x) ==> exists|i: int, j: int|
                0 <= i < base.len() && 0 <= j < target.len() && (#[trigger] base[i]).name == x.name
                    && (#[trigger] target[j]).name == x.name && x.base == (
                    base[i].typename,
                    base[i].offset,
                ) && x.target == (target[j].typename, target[j].offset) && x.base != x.target,
{
    let n = base.len() as int;
    let changed = field_difference(base, target).changed;
    lemma_changed_upto(base, target, n);
    assert forall|i: int, j: int|
        0 <= i < base.len() && 0 <= j < target.len() && (#[trigger] base[i]).name == (
        #[trigger] target[j]).name && (base[i].typename != target[j].typename || base[i].offset
            != target[j].offset) implies changed.contains(
        ChangedModel {
            name: base[i].name,
            base: (base[i].typename, base[i].offset),
            target: (target[j].typename, target[j].offset),
        },
    ) by {
        assert(is_other(base, target, i, j));
    }
    assert forall|x: ChangedModel| #[trigger] changed.contains(x) implies exists|i: int, j: int|
        0 <= i < base.len() && 0 <= j < target.len() && (#[trigger] base[i]).name == x.name && (
        #[trigger] target[j]).name == x.name && x.base == (base[i].typename, base[i].offset)
            && x.target == (target[j].typename, target[j].offset) && x.base != x.target by {
        let (i, j) = choose|i: int, j: int|
            i < n && #[trigger] is_other(base, target, i, j) && x == as_changed(base[i], target[j]);
        assert(base[i].name == x.name && target[j].name == x.name);
    }
}

// ---------------------------------------------------------------------------
// Access
// ---------------------------------------------------------------------------

/// Whether two numbers stand for an access each, and not for the same.
pub open spec fn other_access(a: u8, b: u8) -> bool {
    (a == 1 || a == 2 || a == 3) && (b == 1 || b == 2 || b == 3) && a != b
}

proof fn lemma_access_at(v: Seq<(Seq<char>, u8)>, j: int, from: int)
    requires
        0 <= from <= j < v.len(),
        forall|i: int, k: int| 0 <= i < k < v.len() ==> (#[trigger] v[i]).0 != (#[trigger] v[k]).0,
    ensures
        access_from(v, v[j].0, from) == Some(v[j].1),
    decreases j - from,
{
    if from < j {
        assert(v[from].0 != v[j].0);
        lemma_access_at(v, j, from + 1);
    }
}

proof fn lemma_access_found(v: Seq<(Seq<char>, u8)>, member: Seq<char>, from: int)
    requires
        0 <= from,
    ensures
        access_from(v, member, from) matches Some(a) ==> exists|j: int|
            0 <= j < v.len() && #[trigger] v[j] == (member, a),
    decreases v.len() - from,
{
    if from < v.len() {
        if v[from].0 == member {
            assert(v[from] == (member, v[from].1));
        } else {
            lemma_access_found(v, member, from + 1);
        }
    }
}

/// What stands in a list of members with their access.
proof fn lemma_changes_of(
    start: Seq<(Seq<char>, u8, u8)>,
    base: Seq<(Seq<char>, u8)>,
    target: Seq<(Seq<char>, u8)>,
    n: int,
)
    requires
        0 <= n <= base.len(),
        forall|i: int, k: int|
            0 <= i < k < base.len() ==> (#[trigger] base[i]).0 != (#[trigger] base[k]).0,
        forall|i: int, k: int|
            0 <= i < k < target.len() ==> (#[trigger] target[i]).0 != (#[trigger] target[k]).0,
    ensures
        ({
            let d = seq_difference(member_names(base), member_names(target));
            let w = with_changes(start, base, target, d, n);
            &&& w.len() >= start.len()
            &&& forall|x: (Seq<char>, u8, u8)| #[trigger] start.contains(x) ==> w.contains(x)
            &&& forall|i: int, j: int|
                0 <= i < n && 0 <= j < target.len() && (#[trigger] base[i]).0 == (
                #[trigger] target[j]).0 && other_access(base[i].1, target[j].1) ==> w.contains(
                    (base[i].0, base[i].1, target[j].1),
                )
            &&& forall|x: (Seq<char>, u8, u8)| #[trigger]
                w.contains(x) ==> start.contains(x) || exists|i: int, j: int|
                    0 <= i < n && 0 <= j < target.len() && #[trigger] base[i] == (x.0, x.1)
                        && #[trigger] target[j] == (x.0, x.2) && other_access(x.1, x.2)
        }),
    decreases n,
{
    let bn = member_names(base);
    let tn = member_names(target);
    let d = seq_difference(bn, tn);
    if n > 0 {
        lemma_changes_of(start, base, target, n - 1);
        let before = with_changes(start, base, target, d, n - 1);
        let w = with_changes(start, base, target, d, n);
        let (member, access) = base[n - 1];
        lemma_told_once(bn, tn, member);
        assert(bn[n - 1] == member);
        assert(bn.contains(member));
        assert(!repeats(bn, n - 1)) by {
            if repeats(bn, n - 1) {
                let k = choose|k: int| 0 <= k < n - 1 && #[trigger] bn[k] == bn[n - 1];
                assert(base[k].0 != base[n - 1].0);
            }
        }
        lemma_access_found(target, member, 0);
        assert forall|x: (Seq<char>, u8, u8)| #[trigger] before.contains(x) implies w.contains(
            x,
        ) by {
            let k = before.index_of(x);
            assert(w[k] == x);
        }
        assert forall|i: int, j: int|
            0 <= i < n && 0 <= j < target.len() && (#[trigger] base[i]).0 == (
            #[trigger] target[j]).0 && other_access(base[i].1, target[j].1) implies w.contains(
            (base[i].0, base[i].1, target[j].1),
        ) by {
            if i < n - 1 {
                assert(before.contains((base[i].0, base[i].1, target[j].1)));
            } else {
                lemma_access_at(target, j, 0);
                assert(tn[j] == member);
                assert(tn.contains(member));
                assert(w == before.push((member, access, target[j].1)));
                assert(w[before.len() as int] == (member, access, target[j].1));
            }
        }
        assert forall|x: (Seq<char>, u8, u8)| #[trigger] w.contains(x) implies start.contains(x)
            || exists|i: int, j: int|
            0 <= i < n && 0 <= j < target.len() && #[trigger] base[i] == (x.0, x.1)
                && #[trigger] target[j] == (x.0, x.2) && other_access(x.1, x.2) by {
            let k = w.index_of(x);
            if k < before.len() {
                assert(before[k] == x);
                assert(before.contains(x));
                if !start.contains(x) {
                    let (i, j) = choose|i: int, j: int|
                        0 <= i < n - 1 && 0 <= j < target.len() && #[trigger] base[i] == (x.0, x.1)
                            && #[trigger] target[j] == (x.0, x.2) && other_access(x.1, x.2);
                    assert(base[i] == (x.0, x.1) && target[j] == (x.0, x.2));
                }
            } else {
                let other = access_from(target, member, 0)->0;
                let j = choose|j: int|
                    0 <= j < target.len() && #[trigger] target[j] == (member, other);
                assert(base[n - 1] == (x.0, x.1) && target[j] == (x.0, x.2));
            }
        }
    } else {
        assert(with_changes(start, base, target, d, n) == start);
    }
}

/// Whether member `i` of the base and `j` of the target are one and have another access.
pub open spec fn field_access_differs(b: ClassShape, t: ClassShape, i: int, j: int) -> bool {
    &&& 0 <= i < b.fields.len()
    &&& 0 <= j < t.fields.len()
    &&& b.fields[i].name == t.fields[j].name
    &&& other_access(b.fields[i].access, t.fields[j].access)
}

/// Whether method `i` of the base and `j` of the target are one and have another access.
pub open spec fn method_access_differs(b: ClassShape, t: ClassShape, i: int, j: int) -> bool {
    &&& 0 <= i < b.methods.len()
    &&& 0 <= j < t.methods.len()
    &&& b.methods[i].sig == t.methods[j].sig
    &&& other_access(b.methods[i].access, t.methods[j].access)
}

/// A member or a method is told to differ in access exactly where both builds have it and
/// both say private, protected or public, and not the same. No two members of a class may
/// have one name, nor two methods one signature.
pub proof fn lemma_other_access_is_told(b: ClassShape, t: ClassShape)
    requires
        names_once(b.fields),
        names_once(t.fields),
        signatures_once(b.methods),
        signatures_once(t.methods),
    ensures
        forall|i: int, j: int| #[trigger]
            field_access_differs(b, t, i, j) ==> access_difference(b, t).contains(
                (b.fields[i].name, b.fields[i].access, t.fields[j].access),
            ),
        forall|i: int, j: int| #[trigger]
            method_access_differs(b, t, i, j) ==> access_difference(b, t).contains(
                (b.methods[i].sig, b.methods[i].access, t.methods[j].access),
            ),
        forall|x: (Seq<char>, u8, u8)| #[trigger]
            access_difference(b, t).contains(x) ==> (exists|i: int, j: int|
                #[trigger] field_access_differs(b, t, i, j) && x == (
                    b.fields[i].name,
                    b.fields[i].access,
                    t.fields[j].access,
                )) || (exists|i: int, j: int|
                #[trigger] method_access_differs(b, t, i, j) && x == (
                    b.methods[i].sig,
                    b.methods[i].access,
                    t.methods[j].access,
                )),
{
    let bf = field_accesses(b.fields);
    let tf = field_accesses(t.fields);
    let bm = method_accesses(b.methods);
    let tm = method_accesses(t.methods);
    assert(member_names(bf) =~= field_names(b.fields));
    assert(member_names(tf) =~= field_names(t.fields));
    assert(member_names(bm) =~= signatures(b.methods));
    assert(member_names(tm) =~= signatures(t.methods));
    let fd = seq_difference(field_names(b.fields), field_names(t.fields));
    let md = method_difference(b, t);
    assert(field_difference(b.fields, t.fields).order == fd);
    let first = with_changes(Seq::empty(), bf, tf, fd, b.fields.len() as int);
    lemma_changes_of(Seq::empty(), bf, tf, bf.len() as int);
    lemma_changes_of(first, bm, tm, bm.len() as int);
    let all = access_difference(b, t);
    assert(all == with_changes(first, bm, tm, md, b.methods.len() as int));
    assert forall|i: int, j: int| #[trigger] field_access_differs(b, t, i, j) implies all.contains(
        (b.fields[i].name, b.fields[i].access, t.fields[j].access),
    ) by {
        assert(bf[i].0 == tf[j].0);
        assert(first.contains((bf[i].0, bf[i].1, tf[j].1)));
    }
    assert forall|i: int, j: int| #[trigger] method_access_differs(b, t, i, j) implies all.contains(
        (b.methods[i].sig, b.methods[i].access, t.methods[j].access),
    ) by {
        assert(bm[i].0 == tm[j].0);
    }
    assert forall|x: (Seq<char>, u8, u8)| #[trigger] all.contains(x) implies (exists|
        i: int,
        j: int,
    | #[trigger]
        field_access_differs(b, t, i, j) && x == (
            b.fields[i].name,
            b.fields[i].access,
            t.fields[j].access,
        )) || (exists|i: int, j: int| #[trigger]
        method_access_differs(b, t, i, j) && x == (
            b.methods[i].sig,
            b.methods[i].access,
            t.methods[j].access,
        )) by {
        if first.contains(x) {
            let (i, j) = choose|i: int, j: int|
                0 <= i < bf.len() && 0 <= j < tf.len() && #[trigger] bf[i] == (x.0, x.1)
                    && #[trigger] tf[j] == (x.0, x.2) && other_access(x.1, x.2);
            assert(field_access_differs(b, t, i, j));
        } else {
            let (i, j) = choose|i: int, j: int|
                0 <= i < bm.len() && 0 <= j < tm.len() && #[trigger] bm[i] == (x.0, x.1)
                    && #[trigger] tm[j] == (x.0, x.2) && other_access(x.1, x.2);
            assert(method_access_differs(b, t, i, j));
        }
    }
}

// ---------------------------------------------------------------------------
// Lines
// ---------------------------------------------------------------------------

proof fn lemma_push_line(v: Seq<Seq<char>>, x: Seq<char>)
    ensures
        v.push(x).contains(x),
        forall|y: Seq<char>| #[trigger] v.contains(y) ==> v.push(x).contains(y),
{
    let w = v.push(x);
    assert(w[v.len() as int] == x);
    assert forall|y: Seq<char>| #[trigger] v.contains(y) implies w.contains(y) by {
        let k = v.index_of(y);
        assert(w[k] == y);
    }
}

proof fn lemma_list_line(v: Seq<Seq<char>>, prefix: Seq<char>, items: Seq<Seq<char>>)
    ensures
        with_list(v, prefix, items).len() >= v.len(),
        items.len() > 0 ==> with_list(v, prefix, items).contains(prefix + joined(items, ", "@)),
        forall|y: Seq<char>| #[trigger] v.contains(y) ==> with_list(v, prefix, items).contains(y),
{
    lemma_push_line(v, prefix + joined(items, ", "@));
}

/// How a member that differs is told.
pub open spec fn changed_line(
    name: Seq<char>,
    b: (Seq<char>, u64),
    t: (Seq<char>, u64),
) -> Seq<char> {
    "    changed  "@ + name + ": base("@ + b.0 + " @0x"@ + hex_capital(b.1 as nat) + ")  target("@
        + t.0 + " @0x"@ + hex_capital(t.1 as nat) + ")"@
}

proof fn lemma_changed_lines(v: Seq<Seq<char>>, c: Seq<ChangedModel>, n: int)
    requires
        0 <= n <= c.len(),
    ensures
        with_changed(v, c, n).len() == v.len() + n,
        forall|y: Seq<char>| #[trigger] v.contains(y) ==> with_changed(v, c, n).contains(y),
        forall|k: int|
            0 <= k < n ==> with_changed(v, c, n).contains(
                changed_line((#[trigger] c[k]).name, c[k].base, c[k].target),
            ),
    decreases n,
{
    if n > 0 {
        lemma_changed_lines(v, c, n - 1);
        lemma_push_line(
            with_changed(v, c, n - 1),
            changed_line(c[n - 1].name, c[n - 1].base, c[n - 1].target),
        );
    }
}

proof fn lemma_access_lines(v: Seq<Seq<char>>, c: Seq<(Seq<char>, u8, u8)>, n: int)
    requires
        0 <= n <= c.len(),
    ensures
        with_access_lines(v, c, n).len() == v.len() + n,
        forall|y: Seq<char>| #[trigger] v.contains(y) ==> with_access_lines(v, c, n).contains(y),
        forall|k: int|
            0 <= k < n ==> with_access_lines(v, c, n).contains(
                "    "@ + (#[trigger] c[k]).0 + ": base="@ + access_word(c[k].1) + " tgt="@
                    + access_word(c[k].2),
            ),
    decreases n,
{
    if n > 0 {
        lemma_access_lines(v, c, n - 1);
        lemma_push_line(
            with_access_lines(v, c, n - 1),
            "    "@ + c[n - 1].0 + ": base="@ + access_word(c[n - 1].1) + " tgt="@ + access_word(
                c[n - 1].2,
            ),
        );
    }
}

proof fn lemma_class_line_parts(b: ClassShape, t: ClassShape)
    ensures
        ({
            let s = size_lines(b, t);
            let fd = field_difference(b.fields, t.fields);
            let md = method_difference(b, t);
            let ad = access_difference(b, t);
            let f = with_field_lines(s, fd);
            let m = with_method_lines(f, md);
            let all = class_lines(b, t);
            &&& all.len() >= m.len() >= f.len() >= s.len()
            &&& fd.is_diverged() ==> f.len() > s.len()
            &&& md.is_diverged() ==> m.len() > f.len()
            &&& ad.len() > 0 ==> all.len() > m.len()
            &&& forall|y: Seq<char>| #[trigger] s.contains(y) ==> all.contains(y)
            &&& forall|k: int|
                0 <= k < fd.changed.len() ==> all.contains(
                    changed_line(
                        (#[trigger] fd.changed[k]).name,
                        fd.changed[k].base,
                        fd.changed[k].target,
                    ),
                )
            &&& fd.order.only_base.len() > 0 ==> all.contains(
                "    only-base  "@ + joined(fd.order.only_base, ", "@),
            )
            &&& fd.order.only_target.len() > 0 ==> all.contains(
                "    only-tgt   "@ + joined(fd.order.only_target, ", "@),
            )
            &&& fd.order.moved.len() > 0 ==> all.contains(
                "    reordered  "@ + joined(fd.order.moved, ", "@),
            )
            &&& md.only_base.len() > 0 ==> all.contains(
                "    only-base  "@ + joined(md.only_base, ", "@),
            )
            &&& md.only_target.len() > 0 ==> all.contains(
                "    only-tgt   "@ + joined(md.only_target, ", "@),
            )
            &&& md.moved.len() > 0 ==> all.contains("    moved      "@ + joined(md.moved, ", "@))
            &&& forall|k: int|
                0 <= k < ad.len() ==> all.contains(
                    "    "@ + (#[trigger] ad[k]).0 + ": base="@ + access_word(ad[k].1) + " tgt="@
                        + access_word(ad[k].2),
                )
        }),
{
    let s = size_lines(b, t);
    let fd = field_difference(b.fields, t.fields);
    let md = method_difference(b, t);
    let ad = access_difference(b, t);
    let f = with_field_lines(s, fd);
    let m = with_method_lines(f, md);
    let all = with_visibility_lines(m, ad);
    if fd.is_diverged() {
        let s1 = s.push("  [member]"@);
        lemma_push_line(s, "  [member]"@);
        let s2 = with_changed(s1, fd.changed, fd.changed.len() as int);
        lemma_changed_lines(s1, fd.changed, fd.changed.len() as int);
        let s3 = with_list(s2, "    only-base  "@, fd.order.only_base);
        lemma_list_line(s2, "    only-base  "@, fd.order.only_base);
        let s4 = with_list(s3, "    only-tgt   "@, fd.order.only_target);
        lemma_list_line(s3, "    only-tgt   "@, fd.order.only_target);
        lemma_list_line(s4, "    reordered  "@, fd.order.moved);
    }
    if md.is_diverged() {
        let f1 = f.push("  [fn-order]"@);
        lemma_push_line(f, "  [fn-order]"@);
        let f2 = with_list(f1, "    only-base  "@, md.only_base);
        lemma_list_line(f1, "    only-base  "@, md.only_base);
        let f3 = with_list(f2, "    only-tgt   "@, md.only_target);
        lemma_list_line(f2, "    only-tgt   "@, md.only_target);
        lemma_list_line(f3, "    moved      "@, md.moved);
    }
    if ad.len() > 0 {
        lemma_push_line(m, "  [visibility]"@);
        lemma_access_lines(m.push("  [visibility]"@), ad, ad.len() as int);
    }
}

/// What two classes differ in stands in the lines about them: their sizes; each member of
/// another type or offset, with both; each member and method that one build lacks; each that
/// has another access. No two members of a class may have one name, nor two methods one
/// signature.
pub proof fn lemma_class_lines_tell(b: ClassShape, t: ClassShape)
    requires
        names_once(b.fields),
        names_once(t.fields),
        signatures_once(b.methods),
        signatures_once(t.methods),
    ensures
        b.size != t.size ==> class_lines(b, t).contains(
            "  [size]   base=0x"@ + hex_capital(b.size as nat) + "  target=0x"@ + hex_capital(
                t.size as nat,
            ),
        ),
        forall|i: int, j: int| #[trigger]
            is_other(b.fields, t.fields, i, j) ==> class_lines(b, t).contains(
                "    changed  "@ + b.fields[i].name + ": base("@ + b.fields[i].typename + " @0x"@
                    + hex_capital(b.fields[i].offset as nat) + ")  target("@ + t.fields[j].typename
                    + " @0x"@ + hex_capital(t.fields[j].offset as nat) + ")"@,
            ),
        forall|i: int|
            0 <= i < b.fields.len() && !field_names(t.fields).contains(
                (#[trigger] b.fields[i]).name,
            ) ==> exists|v: Seq<Seq<char>>|
                v.contains(b.fields[i].name) && class_lines(b, t).contains(
                    "    only-base  "@ + #[trigger] joined(v, ", "@),
                ),
        forall|j: int|
            0 <= j < t.fields.len() && !field_names(b.fields).contains(
                (#[trigger] t.fields[j]).name,
            ) ==> exists|v: Seq<Seq<char>>|
                v.contains(t.fields[j].name) && class_lines(b, t).contains(
                    "    only-tgt   "@ + #[trigger] joined(v, ", "@),
                ),
        forall|i: int|
            0 <= i < b.methods.len() && !signatures(t.methods).contains(
                (#[trigger] b.methods[i]).sig,
            ) ==> exists|v: Seq<Seq<char>>|
                v.contains(b.methods[i].sig) && class_lines(b, t).contains(
                    "    only-base  "@ + #[trigger] joined(v, ", "@),
                ),
        forall|j: int|
            0 <= j < t.methods.len() && !signatures(b.methods).contains(
                (#[trigger] t.methods[j]).sig,
            ) ==> exists|v: Seq<Seq<char>>|
                v.contains(t.methods[j].sig) && class_lines(b, t).contains(
                    "    only-tgt   "@ + #[trigger] joined(v, ", "@),
                ),
        forall|i: int, j: int| #[trigger]
            field_access_differs(b, t, i, j) ==> class_lines(b, t).contains(
                "    "@ + b.fields[i].name + ": base="@ + access_word(b.fields[i].access)
                    + " tgt="@ + access_word(t.fields[j].access),
            ),
        forall|i: int, j: int| #[trigger]
            method_access_differs(b, t, i, j) ==> class_lines(b, t).contains(
                "    "@ + b.methods[i].sig + ": base="@ + access_word(b.methods[i].access)
                    + " tgt="@ + access_word(t.methods[j].access),
            ),
{
    let all = class_lines(b, t);
    let fd = field_difference(b.fields, t.fields);
    let md = method_difference(b, t);
    let ad = access_difference(b, t);
    lemma_class_line_parts(b, t);
    lemma_changed_members_are_told(b.fields, t.fields);
    lemma_other_access_is_told(b, t);
    if b.size != t.size {
        let line = "  [size]   base=0x"@ + hex_capital(b.size as nat) + "  target=0x"@
            + hex_capital(t.size as nat);
        assert(size_lines(b, t)[0] == line);
        assert(size_lines(b, t).contains(line));
    }
    assert forall|i: int, j: int| #[trigger] is_other(
        b.fields,
        t.fields,
        i,
        j,
    ) implies all.contains(
        "    changed  "@ + b.fields[i].name + ": base("@ + b.fields[i].typename + " @0x"@
            + hex_capital(b.fields[i].offset as nat) + ")  target("@ + t.fields[j].typename
            + " @0x"@ + hex_capital(t.fields[j].offset as nat) + ")"@,
    ) by {
        let x = as_changed(b.fields[i], t.fields[j]);
        assert(b.fields[i].name == t.fields[j].name);
        assert(fd.changed.contains(x));
        let k = fd.changed.index_of(x);
        assert(all.contains(changed_line(fd.changed[k].name, fd.changed[k].base, fd.changed[k].target)));
    }
    let bn = field_names(b.fields);
    let tn = field_names(t.fields);
    assert forall|i: int|
        0 <= i < b.fields.len() && !tn.contains(
            (#[trigger] b.fields[i]).name,
        ) implies exists|v: Seq<Seq<char>>|
        v.contains(b.fields[i].name) && all.contains(
            "    only-base  "@ + #[trigger] joined(v, ", "@),
        ) by {
        lemma_told_once(bn, tn, b.fields[i].name);
        assert(bn[i] == b.fields[i].name);
        let v = fd.order.only_base;
        assert(v.contains(b.fields[i].name));
        assert(all.contains("    only-base  "@ + joined(v, ", "@)));
    }
    assert forall|j: int|
        0 <= j < t.fields.len() && !bn.contains(
            (#[trigger] t.fields[j]).name,
        ) implies exists|v: Seq<Seq<char>>|
        v.contains(t.fields[j].name) && all.contains(
            "    only-tgt   "@ + #[trigger] joined(v, ", "@),
        ) by {
        lemma_told_once(bn, tn, t.fields[j].name);
        assert(tn[j] == t.fields[j].name);
        let v = fd.order.only_target;
        assert(v.contains(t.fields[j].name));
        assert(all.contains("    only-tgt   "@ + joined(v, ", "@)));
    }
    let bm = signatures(b.methods);
    let tm = signatures(t.methods);
    assert forall|i: int|
        0 <= i < b.methods.len() && !tm.contains(
            (#[trigger] b.methods[i]).sig,
        ) implies exists|v: Seq<Seq<char>>|
        v.contains(b.methods[i].sig) && all.contains(
            "    only-base  "@ + #[trigger] joined(v, ", "@),
        ) by {
        lemma_told_once(bm, tm, b.methods[i].sig);
        assert(bm[i] == b.methods[i].sig);
        let v = md.only_base;
        assert(v.contains(b.methods[i].sig));
        assert(all.contains("    only-base  "@ + joined(v, ", "@)));
    }
    assert forall|j: int|
        0 <= j < t.methods.len() && !bm.contains(
            (#[trigger] t.methods[j]).sig,
        ) implies exists|v: Seq<Seq<char>>|
        v.contains(t.methods[j].sig) && all.contains(
            "    only-tgt   "@ + #[trigger] joined(v, ", "@),
        ) by {
        lemma_told_once(bm, tm, t.methods[j].sig);
        assert(tm[j] == t.methods[j].sig);
        let v = md.only_target;
        assert(v.contains(t.methods[j].sig));
        assert(all.contains("    only-tgt   "@ + joined(v, ", "@)));
    }
    assert forall|i: int, j: int| #[trigger] field_access_differs(b, t, i, j) implies all.contains(
        "    "@ + b.fields[i].name + ": base="@ + access_word(b.fields[i].access) + " tgt="@
            + access_word(t.fields[j].access),
    ) by {
        let x = (b.fields[i].name, b.fields[i].access, t.fields[j].access);
        assert(ad.contains(x));
        let k = ad.index_of(x);
        assert(ad[k] == x);
    }
    assert forall|i: int, j: int| #[trigger] method_access_differs(b, t, i, j) implies all.contains(
        "    "@ + b.methods[i].sig + ": base="@ + access_word(b.methods[i].access) + " tgt="@
            + access_word(t.methods[j].access),
    ) by {
        let x = (b.methods[i].sig, b.methods[i].access, t.methods[j].access);
        assert(ad.contains(x));
        let k = ad.index_of(x);
        assert(ad[k] == x);
    }
}

// ---------------------------------------------------------------------------
// Classes without lines
// ---------------------------------------------------------------------------

proof fn lemma_rising_map(q: Seq<int>, k: int)
    requires
        0 <= k < q.len(),
        forall|i: int| 0 <= i < q.len() ==> 0 <= #[trigger] q[i] < q.len(),
        forall|i: int, j: int| 0 <= i < j < q.len() ==> (#[trigger] q[i]) < (#[trigger] q[j]),
    ensures
        q[k] >= k,
    decreases k,
{
    if k > 0 {
        lemma_rising_map(q, k - 1);
        assert(q[k - 1] < q[k]);
    }
}

proof fn lemma_rising_map_high(q: Seq<int>, k: int)
    requires
        0 <= k < q.len(),
        forall|i: int| 0 <= i < q.len() ==> 0 <= #[trigger] q[i] < q.len(),
        forall|i: int, j: int| 0 <= i < j < q.len() ==> (#[trigger] q[i]) < (#[trigger] q[j]),
    ensures
        q[k] <= k,
    decreases q.len() - k,
{
    if k < q.len() - 1 {
        lemma_rising_map_high(q, k + 1);
        assert(q[k] < q[k + 1]);
    }
}

/// Lists of which no difference is told are the same, where no key occurs twice in a list.
pub proof fn lemma_no_difference_means_same_keys(base: Seq<Seq<char>>, target: Seq<Seq<char>>)
    requires
        base.no_duplicates(),
        target.no_duplicates(),
        !seq_difference(base, target).is_diverged(),
    ensures
        base == target,
{
    let d = seq_difference(base, target);
    let n = base.len() as int;
    assert forall|x: Seq<char>| base.contains(x) == target.contains(x) by {
        lemma_told_once(base, target, x);
        if base.contains(x) && !target.contains(x) {
            assert(d.only_base.contains(x));
        }
        if target.contains(x) && !base.contains(x) {
            assert(d.only_target.contains(x));
        }
    }
    base.unique_seq_to_set();
    target.unique_seq_to_set();
    assert(base.to_set() =~= target.to_set()) by {
        assert forall|x: Seq<char>| base.to_set().contains(x) == target.to_set().contains(x) by {
            assert(base.contains(x) == target.contains(x));
        }
    }
    assert(target.len() == n);
    lemma_unmoved_keep_order(base, target);
    let q = Seq::new(base.len(), |i: int| target.index_of(base[i]));
    assert forall|i: int| 0 <= i < q.len() implies 0 <= #[trigger] q[i] < q.len() && target[q[i]]
        == base[i] by {
        assert(base.contains(base[i]));
        assert(target.contains(base[i]));
    }
    assert forall|i: int, j: int| 0 <= i < j < q.len() implies (#[trigger] q[i]) < (
    #[trigger] q[j]) by {
        assert(base[i] == target[q[i]]);
        assert(base[j] == target[q[j]]);
        assert(!d.moved.contains(base[i]) && !d.moved.contains(base[j]));
        assert(keeps_order(base, target, d.moved));
    }
    assert forall|k: int| 0 <= k < n implies #[trigger] base[k] == target[k] by {
        lemma_rising_map(q, k);
        lemma_rising_map_high(q, k);
        assert(q[k] == k);
    }
    assert(base =~= target);
}

/// Classes of which nothing is told are the same: of one size, with the same members in the
/// same order, of the same types and offsets, with the same methods in the same order, and
/// nowhere with another access. No two members of a class may have one name, nor two methods
/// one signature.
pub proof fn lemma_no_lines_means_same_class(b: ClassShape, t: ClassShape)
    requires
        names_once(b.fields),
        names_once(t.fields),
        signatures_once(b.methods),
        signatures_once(t.methods),
        class_lines(b, t).len() == 0,
    ensures
        b.size == t.size,
        b.fields.len() == t.fields.len(),
        b.methods.len() == t.methods.len(),
        forall|i: int|
            0 <= i < b.fields.len() ==> (#[trigger] b.fields[i]).name == t.fields[i].name
                && b.fields[i].typename == t.fields[i].typename && b.fields[i].offset
                == t.fields[i].offset && !other_access(b.fields[i].access, t.fields[i].access),
        forall|i: int|
            0 <= i < b.methods.len() ==> (#[trigger] b.methods[i]).sig == t.methods[i].sig
                && !other_access(b.methods[i].access, t.methods[i].access),
{
    let bn = field_names(b.fields);
    let tn = field_names(t.fields);
    let bm = signatures(b.methods);
    let tm = signatures(t.methods);
    lemma_class_line_parts(b, t);
    lemma_class_lines_tell(b, t);
    assert(bn.no_duplicates() && tn.no_duplicates() && bm.no_duplicates() && tm.no_duplicates())
        by {
        assert forall|i: int, j: int| 0 <= i < bn.len() && 0 <= j < bn.len() && i != j implies bn[i]
            != bn[j] by {
            if i < j {
                assert(b.fields[i].name != b.fields[j].name);
            } else {
                assert(b.fields[j].name != b.fields[i].name);
            }
        }
        assert forall|i: int, j: int| 0 <= i < tn.len() && 0 <= j < tn.len() && i != j implies tn[i]
            != tn[j] by {
            if i < j {
                assert(t.fields[i].name != t.fields[j].name);
            } else {
                assert(t.fields[j].name != t.fields[i].name);
            }
        }
        assert forall|i: int, j: int| 0 <= i < bm.len() && 0 <= j < bm.len() && i != j implies bm[i]
            != bm[j] by {
            if i < j {
                assert(b.methods[i].sig != b.methods[j].sig);
            } else {
                assert(b.methods[j].sig != b.methods[i].sig);
            }
        }
        assert forall|i: int, j: int| 0 <= i < tm.len() && 0 <= j < tm.len() && i != j implies tm[i]
            != tm[j] by {
            if i < j {
                assert(t.methods[i].sig != t.methods[j].sig);
            } else {
                assert(t.methods[j].sig != t.methods[i].sig);
            }
        }
    }
    lemma_no_difference_means_same_keys(bn, tn);
    lemma_no_difference_means_same_keys(bm, tm);
    assert forall|i: int| 0 <= i < b.fields.len() implies (#[trigger] b.fields[i]).name
        == t.fields[i].name && b.fields[i].typename == t.fields[i].typename && b.fields[i].offset
        == t.fields[i].offset && !other_access(b.fields[i].access, t.fields[i].access) by {
        assert(bn[i] == tn[i]);
        assert(!is_other(b.fields, t.fields, i, i));
        assert(!field_access_differs(b, t, i, i));
    }
    assert forall|i: int| 0 <= i < b.methods.len() implies (#[trigger] b.methods[i]).sig
        == t.methods[i].sig && !other_access(b.methods[i].access, t.methods[i].access) by {
        assert(bm[i] == tm[i]);
        assert(!method_access_differs(b, t, i, i));
    }
}

} // verus!
