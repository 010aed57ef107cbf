//! What holds of the builds that are compared, and of the report on them.

use crate::divergence::{block, class_lines, enum_lines, no_headers};
use crate::divergence_extract::{is_included, is_skipped, item_type, with_item, with_items,
    with_signatures, Config, OverloadList, OverloadSig, TypeItem};
use crate::divergence_model::{entry, family, lemma_place, place, run_end, runs_sorted, same_layout,
    settled, settled_enum, sig_from, with_method, with_methods, ClassShape, EnumShape, FieldShape,
    MethodShape, SideShape};
use crate::divergence_report::{file_notes, no_sources};
use crate::divergence_summary::{function_presence_text, functions_alone, header_progress,
    header_report, header_summary, names, presence_text, source_progress, source_report,
    source_summary, union_names, with_class, with_classes, with_enum, with_enums, with_file,
    with_files, HeaderProgress, SourceProgress};
use crate::order::{lemma_sorted_by, lemma_sorted_once, sorted_by, text_le};
use crate::parts::{holds, lemma_holds_piece, lemma_holds_within};
use crate::search::starts_with;
use crate::text::texts;
use crate::topology_text::indexes_cleaned;
use crate::type_builder::NamespaceModel;
use vstd::prelude::*;

verus! {

// ---------------------------------------------------------------------------
// Two records of one class
// ---------------------------------------------------------------------------

/// Whether a method of the given signature is there.
pub open spec fn declares(m: Seq<MethodShape>, sig: Seq<char>) -> bool {
    exists|i: int| 0 <= i < m.len() && (#[trigger] m[i]).sig == sig
}

proof fn lemma_sig_from(m: Seq<MethodShape>, sig: Seq<char>, i: int)
    requires
        0 <= i,
    ensures
        match sig_from(m, sig, i) {
            Some(k) => i <= k < m.len() && m[k].sig == sig,
            None => forall|k: int| i <= k < m.len() ==> (#[trigger] m[k]).sig != sig,
        },
    decreases m.len() - i,
{
    if i < m.len() && m[i].sig != sig {
        lemma_sig_from(m, sig, i + 1);
    }
}

proof fn lemma_with_method(m: Seq<MethodShape>, x: MethodShape)
    ensures
        declares(with_method(m, x), x.sig),
        forall|s: Seq<char>| #[trigger] declares(m, s) ==> declares(with_method(m, x), s),
        forall|s: Seq<char>| #[trigger]
            declares(with_method(m, x), s) ==> declares(m, s) || s == x.sig,
{
    let w = with_method(m, x);
    lemma_sig_from(m, x.sig, 0);
    match sig_from(m, x.sig, 0) {
        Some(k) => {
            assert(w[k].sig == x.sig);
        },
        None => {
            assert(w[m.len() as int].sig == x.sig);
        },
    }
    assert forall|s: Seq<char>| #[trigger] declares(m, s) implies declares(w, s) by {
        let i = choose|i: int| 0 <= i < m.len() && (#[trigger] m[i]).sig == s;
        assert(w[i].sig == s);
    }
    assert forall|s: Seq<char>| #[trigger] declares(w, s) implies declares(m, s) || s == x.sig by {
        let i = choose|i: int| 0 <= i < w.len() && (#[trigger] w[i]).sig == s;
        if i < m.len() {
            assert(m[i].sig == s);
        }
    }
}

proof fn lemma_with_methods(m: Seq<MethodShape>, x: Seq<MethodShape>, n: int)
    requires
        0 <= n <= x.len(),
    ensures
        forall|s: Seq<char>| #[trigger]
            declares(with_methods(m, x, n), s) <==> declares(m, s) || declares(x.take(n), s),
    decreases n,
{
    if n > 0 {
        lemma_with_methods(m, x, n - 1);
        let before = with_methods(m, x, n - 1);
        lemma_with_method(before, x[n - 1]);
        assert forall|s: Seq<char>| #[trigger] declares(with_methods(m, x, n), s) <==> declares(m, s)
            || declares(x.take(n), s) by {
            assert(declares(before, s) <==> declares(m, s) || declares(x.take(n - 1), s));
            if declares(x.take(n - 1), s) {
                let i = choose|i: int|
                    0 <= i < x.take(n - 1).len() && (#[trigger] x.take(n - 1)[i]).sig == s;
                assert(x.take(n)[i].sig == s);
            }
            if s == x[n - 1].sig {
                assert(x.take(n)[n - 1].sig == s);
            }
            if declares(x.take(n), s) {
                let i = choose|i: int|
                    0 <= i < x.take(n).len() && (#[trigger] x.take(n)[i]).sig == s;
                if i < n - 1 {
                    assert(x.take(n - 1)[i].sig == s);
                }
            }
        }
    } else {
        assert(x.take(0).len() == 0);
    }
}

proof fn lemma_run_end(m: Seq<MethodShape>, name: Seq<char>, i: int)
    requires
        0 <= i <= m.len(),
    ensures
        i <= run_end(m, name, i) <= m.len(),
    decreases m.len() - i,
{
    if i < m.len() && family(m[i].sig) == name {
        lemma_run_end(m, name, i + 1);
    }
}

proof fn lemma_runs_sorted(m: Seq<MethodShape>, i: int)
    requires
        0 <= i <= m.len(),
    ensures
        runs_sorted(m, i).to_multiset() == m.skip(i).to_multiset(),
        runs_sorted(m, i).len() == m.len() - i,
    decreases m.len() - i,
{
    broadcast use vstd::seq_lib::group_to_multiset_ensures;

    if i < m.len() {
        let end = run_end(m, family(m[i].sig), i + 1);
        lemma_run_end(m, family(m[i].sig), i + 1);
        lemma_runs_sorted(m, end);
        let part = m.subrange(i, end);
        let le = |a: MethodShape, b: MethodShape| text_le(a.sig, b.sig);
        lemma_sorted_by(part, le);
        assert(m.skip(i) =~= part + m.skip(end));
        vstd::seq_lib::lemma_multiset_commutative(part, m.skip(end));
        vstd::seq_lib::lemma_multiset_commutative(sorted_by(part, le), runs_sorted(m, end));
    } else {
        assert(m.skip(i) =~= Seq::<MethodShape>::empty());
    }
}

proof fn lemma_runs_declare(m: Seq<MethodShape>)
    ensures
        forall|s: Seq<char>| #[trigger] declares(runs_sorted(m, 0), s) <==> declares(m, s),
{
    broadcast use vstd::seq_lib::group_to_multiset_ensures;

    let r = runs_sorted(m, 0);
    lemma_runs_sorted(m, 0);
    assert(m.skip(0) =~= m);
    assert forall|s: Seq<char>| #[trigger] declares(r, s) <==> declares(m, s) by {
        if declares(r, s) {
            let i = choose|i: int| 0 <= i < r.len() && (#[trigger] r[i]).sig == s;
            assert(r.contains(r[i]));
            assert(m.to_multiset().count(r[i]) > 0);
            assert(m.contains(r[i]));
            let k = m.index_of(r[i]);
            assert(m[k].sig == s);
        }
        if declares(m, s) {
            let i = choose|i: int| 0 <= i < m.len() && (#[trigger] m[i]).sig == s;
            assert(m.contains(m[i]));
            assert(r.to_multiset().count(m[i]) > 0);
            assert(r.contains(m[i]));
            let k = r.index_of(m[i]);
            assert(r[k].sig == s);
        }
    }
}

/// Of two records of one class that lay it out alike the methods of both are kept, and its
/// size and members; a member without an access takes that of the other record. Of records
/// that do not, the one that says more is kept, the first where they say as much.
pub proof fn lemma_records_of_one_class(a: ClassShape, b: ClassShape)
    ensures
        ({
            let c = settled(Some(a), b);
            if same_layout(a, b) {
                &&& c.kind == a.kind && c.size == a.size
                &&& c.fields.len() == a.fields.len()
                &&& forall|i: int|
                    0 <= i < a.fields.len() ==> (#[trigger] c.fields[i]).name == a.fields[i].name
                        && c.fields[i].typename == a.fields[i].typename && c.fields[i].offset
                        == a.fields[i].offset && c.fields[i].access == (if a.fields[i].access != 0 {
                        a.fields[i].access
                    } else {
                        b.fields[i].access
                    })
                &&& forall|s: Seq<char>| #[trigger]
                    declares(c.methods, s) <==> declares(a.methods, s) || declares(b.methods, s)
            } else {
                c == if a.fields.len() + a.methods.len() >= b.fields.len() + b.methods.len() {
                    a
                } else {
                    b
                }
            }
        }),
        settled(None, b) == b,
        a.kind == b.kind && a.size == b.size && a.fields == b.fields ==> same_layout(a, b),
        a.size != b.size || a.fields.len() != b.fields.len() || a.kind != b.kind ==> !same_layout(
            a,
            b,
        ),
        forall|i: int|
            0 <= i < a.fields.len() && i < b.fields.len() && ((#[trigger] a.fields[i]).offset
                != b.fields[i].offset || a.fields[i].typename != b.fields[i].typename
                || a.fields[i].name != b.fields[i].name) ==> !same_layout(a, b),
{
    if same_layout(a, b) {
        let m = with_methods(a.methods, b.methods, b.methods.len() as int);
        lemma_with_methods(a.methods, b.methods, b.methods.len() as int);
        lemma_runs_declare(m);
        assert(b.methods.take(b.methods.len() as int) =~= b.methods);
        let c = settled(Some(a), b);
        assert forall|s: Seq<char>| #[trigger] declares(c.methods, s) <==> declares(a.methods, s)
            || declares(b.methods, s) by {
            assert(declares(m, s) <==> declares(a.methods, s) || declares(b.methods, s));
        }
    }
}

/// Of two records of one enumeration the one with more values is kept, the first where they
/// have as many.
pub proof fn lemma_records_of_one_enumeration(a: EnumShape, b: EnumShape)
    ensures
        settled_enum(None, b) == b,
        a.values.len() >= b.values.len() ==> settled_enum(Some(a), b) == a,
        a.values.len() < b.values.len() ==> settled_enum(Some(a), b) == b,
{
}

// ---------------------------------------------------------------------------
// What a record tells
// ---------------------------------------------------------------------------

proof fn lemma_push_has<A>(v: Seq<A>, x: A)
    ensures
        v.push(x).contains(x),
        forall|y: A| #[trigger] v.contains(y) ==> v.push(x).contains(y),
{
    let w = v.push(x);
    assert(w[v.len() as int] == x);
    assert forall|y: A| #[trigger] v.contains(y) implies w.contains(y) by {
        let k = v.index_of(y);
        assert(w[k] == y);
    }
}

proof fn lemma_signatures(
    m: Seq<MethodShape>,
    name: Seq<char>,
    list: Seq<OverloadSig>,
    n: int,
)
    requires
        0 <= n <= list.len(),
        !starts_with(name, "__"@),
    ensures
        with_signatures(m, name, list, n) matches Ok(v) ==> (forall|y: MethodShape| #[trigger]
            m.contains(y) ==> v.contains(y)) && forall|k: int|
            0 <= k < n ==> (#[trigger] list[k]).signature is Some && v.contains(
                MethodShape {
                    sig: indexes_cleaned(list[k].signature->0@),
                    access: list[k].access,
                },
            ),
    decreases n,
{
    if n > 0 {
        lemma_signatures(m, name, list, n - 1);
        if let Ok(v) = with_signatures(m, name, list, n - 1) {
            if let Some(s) = list[n - 1].signature {
                lemma_push_has(
                    v,
                    MethodShape { sig: indexes_cleaned(s@), access: list[n - 1].access },
                );
            }
        }
    }
}

/// Whether a class has what one of its fields tells: a member or a base with its offset and
/// access, a method with its signature and access, or each of the methods of one name. What
/// the compiler made has a name that begins with two underscores and is not told.
pub open spec fn has_item(c: ClassShape, item: TypeItem, ns: NamespaceModel) -> bool {
    match item {
        TypeItem::Member { ty, name, offset, access } => item_type(ty, ns) matches Ok(t)
            && c.fields.contains(FieldShape { offset, typename: t, name: name@, access }),
        TypeItem::BaseClass { ty, offset, access } => item_type(ty, ns) matches Ok(t)
            && c.fields.contains(
            FieldShape { offset, typename: t, name: "<base> "@ + t, access },
        ),
        TypeItem::VirtualBaseClass { ty, offset, access } => item_type(ty, ns) matches Ok(t)
            && c.fields.contains(
            FieldShape { offset, typename: t, name: "<vbase> "@ + t, access },
        ),
        TypeItem::Method { name, signature, access } => starts_with(name@, "__"@) || (signature
            is Some && c.methods.contains(
            MethodShape { sig: indexes_cleaned(signature->0@), access },
        )),
        TypeItem::Overloaded { name, list: OverloadList::Methods(v) } => starts_with(
            name@,
            "__"@,
        ) || forall|k: int|
            0 <= k < v@.len() ==> (#[trigger] v@[k]).signature is Some && c.methods.contains(
                MethodShape { sig: indexes_cleaned(v@[k].signature->0@), access: v@[k].access },
            ),
        _ => true,
    }
}

proof fn lemma_concat_has<A>(a: Seq<A>, b: Seq<A>)
    ensures
        forall|x: A| #[trigger] a.contains(x) ==> (a + b).contains(x),
        forall|x: A| #[trigger] b.contains(x) ==> (a + b).contains(x),
{
    let c = a + b;
    assert forall|x: A| #[trigger] a.contains(x) implies c.contains(x) by {
        let k = a.index_of(x);
        assert(c[k] == x);
    }
    assert forall|x: A| #[trigger] b.contains(x) implies c.contains(x) by {
        let k = b.index_of(x);
        assert(c[a.len() + k] == x);
    }
}

proof fn lemma_with_item(c: ClassShape, item: TypeItem, ns: NamespaceModel)
    ensures
        with_item(c, item, ns) matches Ok(d) ==> {
            &&& has_item(d, item, ns)
            &&& d.kind == c.kind && d.size == c.size
            &&& forall|y: FieldShape| #[trigger] c.fields.contains(y) ==> d.fields.contains(y)
            &&& forall|y: MethodShape| #[trigger] c.methods.contains(y) ==> d.methods.contains(y)
        },
{
    broadcast use vstd::seq_lib::group_to_multiset_ensures;

    reveal(with_item);
    if let Ok(d) = with_item(c, item, ns) {
        match item {
            TypeItem::Member { ty, name, offset, access } => {
                let t = item_type(ty, ns)->Ok_0;
                lemma_push_has(c.fields, FieldShape { offset, typename: t, name: name@, access });
            },
            TypeItem::BaseClass { ty, offset, access } => {
                let t = item_type(ty, ns)->Ok_0;
                lemma_push_has(
                    c.fields,
                    FieldShape { offset, typename: t, name: "<base> "@ + t, access },
                );
            },
            TypeItem::VirtualBaseClass { ty, offset, access } => {
                let t = item_type(ty, ns)->Ok_0;
                lemma_push_has(
                    c.fields,
                    FieldShape { offset, typename: t, name: "<vbase> "@ + t, access },
                );
            },
            TypeItem::Method { name, signature, access } => {
                if let Some(s) = signature {
                    lemma_push_has(c.methods, MethodShape { sig: indexes_cleaned(s@), access });
                }
            },
            TypeItem::Overloaded { name, list: OverloadList::Methods(v) } => {
                let m = with_signatures(Seq::empty(), name@, v@, v@.len() as int)->Ok_0;
                let le = |a: MethodShape, b: MethodShape| text_le(a.sig, b.sig);
                let sorted = sorted_by(m, le);
                lemma_sorted_by(m, le);
                lemma_concat_has(c.methods, sorted);
                if !starts_with(name@, "__"@) {
                    lemma_signatures(Seq::empty(), name@, v@, v@.len() as int);
                    assert forall|k: int| 0 <= k < v@.len() implies (#[trigger] v@[k]).signature
                        is Some && d.methods.contains(
                        MethodShape {
                            sig: indexes_cleaned(v@[k].signature->0@),
                            access: v@[k].access,
                        },
                    ) by {
                        let x = MethodShape {
                            sig: indexes_cleaned(v@[k].signature->0@),
                            access: v@[k].access,
                        };
                        assert(m.contains(x));
                        assert(m.to_multiset().count(x) > 0);
                        assert(sorted.to_multiset().count(x) > 0);
                        assert(sorted.contains(x));
                    }
                }
            },
            _ => {},
        }
    }
}

/// A class that can be told has everything that its fields tell.
pub proof fn lemma_class_has_all_items(
    c: ClassShape,
    items: Seq<TypeItem>,
    ns: NamespaceModel,
    n: int,
)
    requires
        0 <= n <= items.len(),
    ensures
        with_items(c, items, ns, n) matches Ok(d) ==> {
            &&& forall|k: int| 0 <= k < n ==> has_item(d, #[trigger] items[k], ns)
            &&& d.kind == c.kind && d.size == c.size
            &&& forall|y: FieldShape| #[trigger] c.fields.contains(y) ==> d.fields.contains(y)
            &&& forall|y: MethodShape| #[trigger] c.methods.contains(y) ==> d.methods.contains(y)
        },
    decreases n,
{
    if n > 0 {
        lemma_class_has_all_items(c, items, ns, n - 1);
        if let Ok(e) = with_items(c, items, ns, n - 1) {
            lemma_with_item(e, items[n - 1], ns);
            if let Ok(d) = with_item(e, items[n - 1], ns) {
                assert forall|k: int| 0 <= k < n implies has_item(d, #[trigger] items[k], ns) by {
                    if k < n - 1 {
                        assert(has_item(e, items[k], ns));
                    }
                }
            }
        }
    }
}

/// The types of libraries are left out unless they are asked for; the engine's never are,
/// unless a pattern leaves them out.
pub proof fn lemma_engine_types_are_compared(name: Seq<char>, cfg: Config)
    ensures
        starts_with(name, "vostok::"@) || starts_with(name, "survarium::"@) ==> (is_included(
            name,
            cfg,
        ) <==> !is_skipped(name, texts(cfg.skip@))),
        (starts_with(name, "std::"@) || starts_with(name, "boost::"@) || starts_with(
            name,
            "stlp_std::"@,
        ) || starts_with(name, "eastl::"@) || starts_with(name, "stdext::"@) || starts_with(
            name,
            "__"@,
        )) && !cfg.include_external ==> !is_included(name, cfg),
        cfg.include_external ==> (is_included(name, cfg) <==> !is_skipped(
            name,
            texts(cfg.skip@),
        )),
{
    reveal_strlit("vostok::");
    reveal_strlit("survarium::");
    reveal_strlit("std::");
    reveal_strlit("stlp_std::");
    reveal_strlit("boost::");
    reveal_strlit("eastl::");
    reveal_strlit("stdext::");
    reveal_strlit("__");
    if starts_with(name, "vostok::"@) {
        assert(name.take(8)[0] == name[0]);
    }
    if starts_with(name, "survarium::"@) {
        assert(name.take(11)[0] == name[0]);
        assert(name.take(11)[1] == name[1]);
    }
    if starts_with(name, "std::"@) {
        assert(name.take(5)[0] == name[0]);
        assert(name.take(5)[1] == name[1]);
    }
    if starts_with(name, "stlp_std::"@) {
        assert(name.take(10)[0] == name[0]);
        assert(name.take(10)[1] == name[1]);
    }
    if starts_with(name, "boost::"@) {
        assert(name.take(7)[0] == name[0]);
    }
    if starts_with(name, "eastl::"@) {
        assert(name.take(7)[0] == name[0]);
    }
    if starts_with(name, "stdext::"@) {
        assert(name.take(8)[0] == name[0]);
        assert(name.take(8)[1] == name[1]);
    }
    if starts_with(name, "__"@) {
        assert(name.take(2)[0] == name[0]);
    }
}

// ---------------------------------------------------------------------------
// The report on the types
// ---------------------------------------------------------------------------

proof fn lemma_classes_upto(
    p: HeaderProgress,
    b: SideShape,
    t: SideShape,
    keys: Seq<Seq<char>>,
    n: int,
)
    requires
        0 <= n <= keys.len(),
    ensures
        ({
            let q = with_classes(p, b, t, keys, n);
            &&& forall|part: Seq<char>| #[trigger] holds(p.text, part) ==> holds(q.text, part)
            &&& forall|k: int|
                0 <= k < n && entry(b.classes, #[trigger] keys[k]) is Some && entry(
                    t.classes,
                    keys[k],
                ) is Some ==> {
                    let x = entry(b.classes, keys[k])->0;
                    let y = entry(t.classes, keys[k])->0;
                    holds(q.text, block(x.kind + " "@ + keys[k], class_lines(x, y)))
                }
            &&& forall|k: int|
                0 <= k < n && entry(b.classes, #[trigger] keys[k]) is Some && entry(
                    t.classes,
                    keys[k],
                ) is None ==> q.counts.only_base.contains(keys[k])
            &&& forall|k: int|
                0 <= k < n && entry(b.classes, #[trigger] keys[k]) is None && entry(
                    t.classes,
                    keys[k],
                ) is Some ==> q.counts.only_target.contains(keys[k])
            &&& forall|x: Seq<char>| #[trigger]
                p.counts.only_base.contains(x) ==> q.counts.only_base.contains(x)
            &&& forall|x: Seq<char>| #[trigger]
                p.counts.only_target.contains(x) ==> q.counts.only_target.contains(x)
        }),
    decreases n,
{
    if n > 0 {
        lemma_classes_upto(p, b, t, keys, n - 1);
        reveal(with_class);
        let r = with_classes(p, b, t, keys, n - 1);
        let q = with_classes(p, b, t, keys, n);
        let key = keys[n - 1];
        lemma_push_has(r.counts.only_base, key);
        lemma_push_has(r.counts.only_target, key);
        if entry(b.classes, key) is Some && entry(t.classes, key) is Some {
            let x = entry(b.classes, key)->0;
            let y = entry(t.classes, key)->0;
            let more = block(x.kind + " "@ + key, class_lines(x, y));
            lemma_holds_piece(r.text, more, Seq::empty());
            assert forall|part: Seq<char>| #[trigger] holds(r.text, part) implies holds(
                q.text,
                part,
            ) by {
                lemma_holds_within(Seq::empty(), r.text, more, part);
            }
        }
    }
}

proof fn lemma_enums_upto(
    p: HeaderProgress,
    b: SideShape,
    t: SideShape,
    keys: Seq<Seq<char>>,
    n: int,
)
    requires
        0 <= n <= keys.len(),
    ensures
        ({
            let q = with_enums(p, b, t, keys, n);
            &&& forall|part: Seq<char>| #[trigger] holds(p.text, part) ==> holds(q.text, part)
            &&& forall|k: int|
                0 <= k < n && entry(b.enums, #[trigger] keys[k]) is Some && entry(
                    t.enums,
                    keys[k],
                ) is Some ==> {
                    let x = entry(b.enums, keys[k])->0;
                    let y = entry(t.enums, keys[k])->0;
                    holds(q.text, block("enum "@ + keys[k], enum_lines(x, y)))
                }
            &&& forall|k: int|
                0 <= k < n && entry(b.enums, #[trigger] keys[k]) is Some && entry(
                    t.enums,
                    keys[k],
                ) is None ==> q.counts.enum_only_base.contains(keys[k])
            &&& forall|k: int|
                0 <= k < n && entry(b.enums, #[trigger] keys[k]) is None && entry(
                    t.enums,
                    keys[k],
                ) is Some ==> q.counts.enum_only_target.contains(keys[k])
            &&& q.counts.only_base == p.counts.only_base
            &&& q.counts.only_target == p.counts.only_target
        }),
    decreases n,
{
    if n > 0 {
        lemma_enums_upto(p, b, t, keys, n - 1);
        reveal(with_enum);
        let r = with_enums(p, b, t, keys, n - 1);
        let q = with_enums(p, b, t, keys, n);
        let key = keys[n - 1];
        lemma_push_has(r.counts.enum_only_base, key);
        lemma_push_has(r.counts.enum_only_target, key);
        if entry(b.enums, key) is Some && entry(t.enums, key) is Some {
            let x = entry(b.enums, key)->0;
            let y = entry(t.enums, key)->0;
            let more = block("enum "@ + key, enum_lines(x, y));
            lemma_holds_piece(r.text, more, Seq::empty());
            assert forall|part: Seq<char>| #[trigger] holds(r.text, part) implies holds(
                q.text,
                part,
            ) by {
                lemma_holds_within(Seq::empty(), r.text, more, part);
            }
        }
    }
}

proof fn lemma_union_has<V>(a: Seq<(Seq<char>, V)>, b: Seq<(Seq<char>, V)>, name: Seq<char>)
    requires
        entry(a, name) is Some || entry(b, name) is Some,
    ensures
        union_names(a, b).contains(name),
{
    let all = names(a) + names(b);
    lemma_sorted_once(all);
    lemma_place(a, name, 0);
    lemma_place(b, name, 0);
    if entry(a, name) is Some {
        let i = place(a, name)->0;
        assert(all[i] == name);
    } else {
        let i = place(b, name)->0;
        assert(all[a.len() + i] == name);
    }
    assert(all.contains(name));
}

/// The report has, for every class that both builds have, the lines that tell how it differs,
/// under its kind and name; and a class that one build lacks is counted as the other's.
pub proof fn lemma_every_class_is_reported(b: SideShape, t: SideShape, listed: bool, name: Seq<char>)
    ensures
        match (entry(b.classes, name), entry(t.classes, name)) {
            (Some(x), Some(y)) => holds(
                header_report(b, t, listed),
                block(x.kind + " "@ + name, class_lines(x, y)),
            ),
            (Some(_), None) => header_progress(b, t).counts.only_base.contains(name),
            (None, Some(_)) => header_progress(b, t).counts.only_target.contains(name),
            (None, None) => true,
        },
{
    let classes = union_names(b.classes, t.classes);
    let enums = union_names(b.enums, t.enums);
    let start = HeaderProgress {
        counts: no_headers(),
        text: "================ HEADERS ================\n\n"@,
    };
    let c = with_classes(start, b, t, classes, classes.len() as int);
    let p = header_progress(b, t);
    lemma_classes_upto(start, b, t, classes, classes.len() as int);
    lemma_enums_upto(c, b, t, enums, enums.len() as int);
    if entry(b.classes, name) is Some || entry(t.classes, name) is Some {
        lemma_union_has(b.classes, t.classes, name);
        let k = classes.index_of(name);
        assert(classes[k] == name);
        if entry(b.classes, name) is Some && entry(t.classes, name) is Some {
            let x = entry(b.classes, name)->0;
            let y = entry(t.classes, name)->0;
            let part = block(x.kind + " "@ + name, class_lines(x, y));
            assert(holds(c.text, part));
            assert(holds(p.text, part));
            lemma_text_in_report(b, t, listed, part);
        }
    }
}

/// The report has, for every enumeration that both builds have, the lines that tell how it
/// differs, under its name; and one that a build lacks is counted as the other's.
pub proof fn lemma_every_enumeration_is_reported(
    b: SideShape,
    t: SideShape,
    listed: bool,
    name: Seq<char>,
)
    ensures
        match (entry(b.enums, name), entry(t.enums, name)) {
            (Some(x), Some(y)) => holds(
                header_report(b, t, listed),
                block("enum "@ + name, enum_lines(x, y)),
            ),
            (Some(_), None) => header_progress(b, t).counts.enum_only_base.contains(name),
            (None, Some(_)) => header_progress(b, t).counts.enum_only_target.contains(name),
            (None, None) => true,
        },
{
    let classes = union_names(b.classes, t.classes);
    let enums = union_names(b.enums, t.enums);
    let start = HeaderProgress {
        counts: no_headers(),
        text: "================ HEADERS ================\n\n"@,
    };
    let c = with_classes(start, b, t, classes, classes.len() as int);
    let p = header_progress(b, t);
    lemma_enums_upto(c, b, t, enums, enums.len() as int);
    if entry(b.enums, name) is Some || entry(t.enums, name) is Some {
        lemma_union_has(b.enums, t.enums, name);
        let k = enums.index_of(name);
        assert(enums[k] == name);
        if entry(b.enums, name) is Some && entry(t.enums, name) is Some {
            let x = entry(b.enums, name)->0;
            let y = entry(t.enums, name)->0;
            let part = block("enum "@ + name, enum_lines(x, y));
            assert(holds(p.text, part));
            lemma_text_in_report(b, t, listed, part);
        }
    }
}

proof fn lemma_text_in_report(b: SideShape, t: SideShape, listed: bool, part: Seq<char>)
    requires
        holds(header_progress(b, t).text, part),
    ensures
        holds(header_report(b, t, listed), part),
{
    let p = header_progress(b, t);
    let none = Seq::<char>::empty();
    let x = presence_text(
        "classes/structs/unions"@,
        p.counts.only_base,
        p.counts.only_target,
        listed,
    );
    let y = presence_text(
        "enums"@,
        p.counts.enum_only_base,
        p.counts.enum_only_target,
        listed,
    );
    let z = header_summary(p.counts);
    lemma_holds_within(none, p.text, x, part);
    lemma_holds_within(none, p.text + x, y, part);
    lemma_holds_within(none, p.text + x + y, z, part);
    assert(header_report(b, t, listed) == p.text + x + y + z);
}

// ---------------------------------------------------------------------------
// The report on the files
// ---------------------------------------------------------------------------

proof fn lemma_files_upto(
    p: SourceProgress,
    b: SideShape,
    t: SideShape,
    keys: Seq<Seq<char>>,
    tables: bool,
    n: int,
)
    requires
        0 <= n <= keys.len(),
    ensures
        ({
            let q = with_files(p, b, t, keys, tables, n);
            &&& forall|k: int|
                0 <= k < n && entry(b.files, #[trigger] keys[k]) is Some && entry(
                    t.files,
                    keys[k],
                ) is Some ==> {
                    let x = entry(b.files, keys[k])->0;
                    let y = entry(t.files, keys[k])->0;
                    holds(q.text, block(keys[k], file_notes(x, y, tables).lines))
                }
            &&& forall|k: int|
                0 <= k < n && entry(b.files, #[trigger] keys[k]) is Some && entry(
                    t.files,
                    keys[k],
                ) is None ==> q.counts.only_base.contains(keys[k])
            &&& forall|k: int|
                0 <= k < n && entry(b.files, #[trigger] keys[k]) is None && entry(
                    t.files,
                    keys[k],
                ) is Some ==> q.counts.only_target.contains(keys[k])
        }),
    decreases n,
{
    if n > 0 {
        lemma_files_upto(p, b, t, keys, tables, n - 1);
        reveal(with_file);
        let r = with_files(p, b, t, keys, tables, n - 1);
        let q = with_files(p, b, t, keys, tables, n);
        let key = keys[n - 1];
        lemma_push_has(r.counts.only_base, key);
        lemma_push_has(r.counts.only_target, key);
        if entry(b.files, key) is Some && entry(t.files, key) is Some {
            let x = entry(b.files, key)->0;
            let y = entry(t.files, key)->0;
            let more = block(key, file_notes(x, y, tables).lines);
            lemma_holds_piece(r.text, more, Seq::empty());
            assert forall|part: Seq<char>| #[trigger] holds(r.text, part) implies holds(
                q.text,
                part,
            ) by {
                lemma_holds_within(Seq::empty(), r.text, more, part);
            }
        }
    }
}

/// The report has, for every file that both builds have, the lines that tell how it differs,
/// under its path; and a file that one build lacks is counted as the other's.
pub proof fn lemma_every_file_is_reported(
    b: SideShape,
    t: SideShape,
    cfg: Config,
    path: Seq<char>,
)
    ensures
        ({
            let tables = cfg.compare_raw_line_table_counts;
            match (entry(b.files, path), entry(t.files, path)) {
                (Some(x), Some(y)) => holds(
                    source_report(b, t, cfg),
                    block(path, file_notes(x, y, tables).lines),
                ),
                (Some(_), None) => source_progress(b, t, tables).counts.only_base.contains(path),
                (None, Some(_)) => source_progress(b, t, tables).counts.only_target.contains(path),
                (None, None) => true,
            }
        }),
{
    let tables = cfg.compare_raw_line_table_counts;
    let keys = union_names(b.files, t.files);
    let start = SourceProgress {
        counts: no_sources(),
        text: "================ SOURCES ================\n\n"@,
    };
    let p = source_progress(b, t, tables);
    lemma_files_upto(start, b, t, keys, tables, keys.len() as int);
    if entry(b.files, path) is Some || entry(t.files, path) is Some {
        lemma_union_has(b.files, t.files, path);
        let k = keys.index_of(path);
        assert(keys[k] == path);
        if entry(b.files, path) is Some && entry(t.files, path) is Some {
            let x = entry(b.files, path)->0;
            let y = entry(t.files, path)->0;
            let part = block(path, file_notes(x, y, tables).lines);
            let none = Seq::<char>::empty();
            let u = functions_alone(b, t);
            let v = functions_alone(t, b);
            let w = presence_text(
                "files"@,
                p.counts.only_base,
                p.counts.only_target,
                cfg.list_presence,
            );
            let f = function_presence_text(
                u,
                v,
                cfg.list_presence_fns,
            );
            let z = source_summary(p.counts, tables, u.len(), v.len());
            lemma_holds_within(none, p.text, w, part);
            lemma_holds_within(none, p.text + w, f, part);
            lemma_holds_within(none, p.text + w + f, z, part);
            assert(source_report(b, t, cfg) == p.text + w + f + z);
        }
    }
}

} // verus!
