//! What holds of the classes, enumerations and references that records are made into.

use crate::field_attributes::MyFieldAttributes;
use crate::function_cache::SignatureModel;
use crate::header_build::{class_field, enumerators_of, method_of, ref_at, reference_of, resolved_at,
    type_behind, type_behind_all, with_class, with_enum, with_field, with_fields, with_index,
    with_method, with_overloads, with_ref, with_ref_if_new, Gathered, Progress};
use crate::header_model::{BaseModel, ClassFieldModel, EnumModel, Found, HeaderClass, HeaderError,
    HeaderField, HeaderRecord, HeaderTable, OverloadItem, RefModel, ResolvedMethod, Variant};
use crate::order::text_le;
use crate::search::{contains, ends_with, index_of, lemma_index_of, matches_at};
use crate::type_builder::NamespaceModel;
use vstd::prelude::*;

verus! {

// ---------------------------------------------------------------------------
// Fields and base classes
// ---------------------------------------------------------------------------

/// The type of a field and the dimensions behind its name are what its type was, and the
/// first bracket stands in the dimensions.
pub proof fn lemma_dimensions_stand_behind_the_name(ty: Seq<char>, name: Seq<char>, offset: u64)
    ensures
        ({
            let f = class_field(ty, name, offset);
            &&& f.ty + f.array == ty
            &&& f.name == name
            &&& f.offset == offset
            &&& forall|i: int| 0 <= i < f.ty.len() ==> #[trigger] f.ty[i] != '['
            &&& f.array.len() > 0 ==> f.array[0] == '['
        }),
{
    reveal_strlit("[");
    reveal_strlit("");
    let f = class_field(ty, name, offset);
    lemma_index_of(ty, "["@, 0);
    assert(f.ty + f.array =~= ty);
    assert forall|i: int| 0 <= i < f.ty.len() implies #[trigger] f.ty[i] != '[' by {
        if f.ty[i] == '[' {
            assert(ty[i] == '[');
            assert(ty.subrange(i, i + 1) =~= "["@);
            assert(matches_at(ty, "["@, i));
        }
    }
    if let Some(p) = index_of(ty, "["@, 0) {
        assert(matches_at(ty, "["@, p));
        assert(ty.subrange(p, p + 1)[0] == "["@[0]);
        assert(f.array[0] == ty[p]);
    }
}

/// The members among the first `n` fields, by name and offset.
pub open spec fn members(fields: Seq<HeaderField>, n: int) -> Seq<(Seq<char>, u64)>
    decreases n,
{
    if n <= 0 {
        Seq::empty()
    } else {
        match fields[n - 1] {
            HeaderField::Member { name, offset, .. } => members(fields, n - 1).push(
                (name@, offset),
            ),
            _ => members(fields, n - 1),
        }
    }
}

/// The fields of a class by name and offset.
pub open spec fn named_fields(v: Seq<ClassFieldModel>) -> Seq<(Seq<char>, u64)> {
    v.map_values(|f: ClassFieldModel| (f.name, f.offset))
}

/// The offsets of the base classes among the first `n` fields.
pub open spec fn bases(fields: Seq<HeaderField>, n: int) -> Seq<u32>
    decreases n,
{
    if n <= 0 {
        Seq::empty()
    } else {
        match fields[n - 1] {
            HeaderField::BaseClass { base_offset, .. } => bases(fields, n - 1).push(base_offset),
            _ => bases(fields, n - 1),
        }
    }
}

/// The offsets of the base classes of a class.
pub open spec fn base_offsets(v: Seq<BaseModel>) -> Seq<u32> {
    v.map_values(|b: BaseModel| b.offset)
}

proof fn lemma_method_keeps_fields(
    t: HeaderTable,
    cache: Map<Seq<char>, SignatureModel>,
    methods: Seq<ResolvedMethod>,
    g: Gathered,
    name: Seq<char>,
    a: MyFieldAttributes,
    ty: u32,
)
    ensures
        with_method(t, cache, methods, g, name, a, ty) matches Ok(h) ==> h.class.fields
            == g.class.fields && h.class.base_classes == g.class.base_classes && h.needed
            == g.needed,
{
    reveal(with_method);
}

proof fn lemma_overloads_keep_fields(
    t: HeaderTable,
    cache: Map<Seq<char>, SignatureModel>,
    methods: Seq<ResolvedMethod>,
    g: Gathered,
    name: Seq<char>,
    items: Seq<OverloadItem>,
    n: int,
)
    ensures
        with_overloads(t, cache, methods, g, name, items, n) matches Ok(h) ==> h.class.fields
            == g.class.fields && h.class.base_classes == g.class.base_classes && h.needed
            == g.needed,
    decreases n,
{
    if n > 0 {
        lemma_overloads_keep_fields(t, cache, methods, g, name, items, n - 1);
        if let Ok(before) = with_overloads(t, cache, methods, g, name, items, n - 1) {
            let item = items[items.len() - n];
            lemma_method_keeps_fields(
                t,
                cache,
                methods,
                before,
                name,
                item.attributes,
                item.method_type,
            );
        }
    }
}

/// A class has a field for every member and a base for every base class of its records, in
/// their order, each at its own offset, and no others.
pub proof fn lemma_class_has_all_members(
    t: HeaderTable,
    cache: Map<Seq<char>, SignatureModel>,
    methods: Seq<ResolvedMethod>,
    g: Gathered,
    fields: Seq<HeaderField>,
    n: int,
)
    requires
        0 <= n <= fields.len(),
    ensures
        with_fields(t, cache, methods, g, fields, n) matches Ok(h) ==> named_fields(h.class.fields)
            == named_fields(g.class.fields) + members(fields, n) && base_offsets(
            h.class.base_classes,
        ) == base_offsets(g.class.base_classes) + bases(fields, n),
    decreases n,
{
    if n <= 0 {
        assert(named_fields(g.class.fields) + members(fields, n) =~= named_fields(g.class.fields));
        assert(base_offsets(g.class.base_classes) + bases(fields, n) =~= base_offsets(
            g.class.base_classes,
        ));
    } else {
        lemma_class_has_all_members(t, cache, methods, g, fields, n - 1);
        if let Ok(before) = with_fields(t, cache, methods, g, fields, n - 1) {
            reveal(with_field);
            match fields[n - 1] {
                HeaderField::Member { ty, name, offset } => {
                    if let Ok(h) = with_field(t, cache, methods, before, fields[n - 1]) {
                        assert(named_fields(h.class.fields) =~= named_fields(
                            before.class.fields,
                        ).push((name@, offset)));
                        assert(named_fields(h.class.fields) =~= named_fields(g.class.fields)
                            + members(fields, n));
                    }
                },
                HeaderField::Method { name, attributes, method_type } => {
                    lemma_method_keeps_fields(
                        t,
                        cache,
                        methods,
                        before,
                        name@,
                        attributes,
                        method_type,
                    );
                },
                HeaderField::OverloadedMethod { name, method_list } => {
                    if let Found::Record(HeaderRecord::MethodList { methods: items }) = t.at(
                        method_list,
                    ) {
                        lemma_overloads_keep_fields(
                            t,
                            cache,
                            methods,
                            before,
                            name@,
                            items@,
                            items@.len() as int,
                        );
                    }
                },
                HeaderField::BaseClass { ty, base_offset } => {
                    if let Ok(h) = with_field(t, cache, methods, before, fields[n - 1]) {
                        assert(base_offsets(h.class.base_classes) =~= base_offsets(
                            before.class.base_classes,
                        ).push(base_offset));
                        assert(base_offsets(h.class.base_classes) =~= base_offsets(
                            g.class.base_classes,
                        ) + bases(fields, n));
                    }
                },
                _ => {},
            }
        }
    }
}

// ---------------------------------------------------------------------------
// Methods
// ---------------------------------------------------------------------------

/// A method is put behind the static methods of its class, where it is one, and behind the
/// others where it is not. It is left out where the compiler made it: by its name, or where
/// it has no body and copies or assigns its class.
pub proof fn lemma_method_is_put_in_its_class(
    t: HeaderTable,
    cache: Map<Seq<char>, SignatureModel>,
    methods: Seq<ResolvedMethod>,
    g: Gathered,
    name: Seq<char>,
    a: MyFieldAttributes,
    ty: u32,
)
    requires
        with_method(t, cache, methods, g, name, a, ty) is Ok,
    ensures
        method_of(t, cache, methods, g.class.orig_name, name, a, ty) matches Ok(m) && {
            let h = with_method(t, cache, methods, g, name, a, ty)->Ok_0.class;
            let static_method = ((a.0 & 0x001c) >> 2) as u8 == 2;
            let made = m.fn_t.name == "__vecDelDtor"@ || m.fn_t.name
                == "__local_vftable_ctor_closure"@ || m.fn_t.name == "__dflt_ctor_closure"@;
            &&& made ==> h == g.class
            &&& !made && m.margs is Some ==> h.static_methods == (if static_method {
                g.class.static_methods.push(m)
            } else {
                g.class.static_methods
            }) && h.instance_methods == (if static_method {
                g.class.instance_methods
            } else {
                g.class.instance_methods.push(m)
            })
            &&& !made && m.fn_t.arg_types.len() != 1 ==> h.static_methods.len()
                + h.instance_methods.len() == g.class.static_methods.len()
                + g.class.instance_methods.len() + 1
            &&& !made && m.fn_t.name != "operator="@ && !(m.fn_t.return_type is Constructor)
                ==> h.static_methods.len() + h.instance_methods.len()
                == g.class.static_methods.len() + g.class.instance_methods.len() + 1
            &&& h.name == g.class.name && h.size == g.class.size
        },
{
    reveal(with_method);
}

/// The arguments of a method are known exactly where a source file defines it. Otherwise it
/// is as its class declares it.
pub proof fn lemma_method_is_as_it_is_defined(
    t: HeaderTable,
    cache: Map<Seq<char>, SignatureModel>,
    methods: Seq<ResolvedMethod>,
    class_name: Seq<char>,
    name: Seq<char>,
    a: MyFieldAttributes,
    ty: u32,
)
    requires
        method_of(t, cache, methods, class_name, name, a, ty) is Ok,
    ensures
        resolved_at(methods, name, ty, 0) matches Some(r) && r.full_name matches Some(full) && {
            let m = method_of(t, cache, methods, class_name, name, a, ty)->Ok_0;
            &&& r.name@ == name && r.method_type == ty
            &&& m.margs is Some <==> cache.contains_key(full@)
            &&& cache.contains_key(full@) ==> m.fn_t.arg_types == cache[full@].fn_t.arg_types
                && m.fn_t.attrs.is_static == cache[full@].fn_t.attrs.is_static
            &&& !cache.contains_key(full@) ==> r.parsed is Some && m.fn_t.name == r.parsed->0@.name
                && m.fn_t.arg_types == r.parsed->0@.arg_types && m.fn_t.return_type
                == r.parsed->0@.return_type
        },
{
    reveal(method_of);
    lemma_resolved_at(methods, name, ty, 0);
}

proof fn lemma_resolved_at(v: Seq<ResolvedMethod>, name: Seq<char>, ty: u32, from: int)
    requires
        0 <= from,
    ensures
        match resolved_at(v, name, ty, from) {
            Some(r) => r.name@ == name && r.method_type == ty && v.contains(r),
            None => forall|i: int|
                from <= i < v.len() ==> (#[trigger] v[i]).name@ != name || v[i].method_type != ty,
        },
    decreases v.len() - from,
{
    if from < v.len() {
        if v[from].name@ == name && v[from].method_type == ty {
            assert(v.contains(v[from]));
        } else {
            lemma_resolved_at(v, name, ty, from + 1);
        }
    }
}

// ---------------------------------------------------------------------------
// References
// ---------------------------------------------------------------------------

/// A type that names neither of the engine's namespaces is not referred to. What is referred
/// to is an enumeration exactly where its name says so, and is referred to by reference only
/// where the type is a pointer or a reference.
pub proof fn lemma_references_are_told(ty: Seq<char>, this: Seq<char>, ns: NamespaceModel)
    ensures
        !contains(ty, "vostok"@) && !contains(ty, "survarium"@) ==> reference_of(ty, this, ns)
            == Ok::<Option<RefModel>, HeaderError>(None),
        reference_of(ty, this, ns) matches Ok(Some(r)) ==> {
            &&& contains(ty, "vostok"@) || contains(ty, "survarium"@)
            &&& r.kind is Enum <==> ends_with(r.name, "_enum"@)
            &&& r.kind is Enum || r.kind is Unknown
            &&& r.usage is ByReference ==> ends_with(ty, "*"@) || ends_with(ty, "&"@)
            &&& !ends_with(ty, "*"@) && !ends_with(ty, "&"@) ==> r.usage is ByValue
        },
{
    reveal(reference_of);
}

proof fn lemma_ref_at(refs: Seq<RefModel>, name: Seq<char>, from: int)
    requires
        0 <= from,
    ensures
        match ref_at(refs, name, from) {
            Some(i) => from <= i < refs.len() && refs[i].name == name,
            None => forall|i: int| from <= i < refs.len() ==> (#[trigger] refs[i]).name != name,
        },
    decreases refs.len() - from,
{
    if from < refs.len() && refs[from].name != name {
        lemma_ref_at(refs, name, from + 1);
    }
}

/// Whether no two references are of one name.
pub open spec fn one_of_each_name(refs: Seq<RefModel>) -> bool {
    forall|i: int, j: int|
        0 <= i < j < refs.len() ==> (#[trigger] refs[i]).name != (#[trigger] refs[j]).name
}

/// A reference that is put to others is among them, takes the place of one of its name, and
/// leaves those of other names where they are. One that is only added where it is new leaves
/// all where they are.
pub proof fn lemma_references_are_kept(refs: Seq<RefModel>, r: RefModel)
    requires
        one_of_each_name(refs),
    ensures
        one_of_each_name(with_ref(refs, r)),
        with_ref(refs, r).contains(r),
        refs.len() <= with_ref(refs, r).len() <= refs.len() + 1,
        forall|i: int|
            0 <= i < refs.len() && (#[trigger] refs[i]).name != r.name ==> with_ref(refs, r)[i]
                == refs[i],
        one_of_each_name(with_ref_if_new(refs, Some(r))),
        exists|i: int|
            0 <= i < with_ref_if_new(refs, Some(r)).len() && (#[trigger] with_ref_if_new(
                refs,
                Some(r),
            )[i]).name == r.name,
        forall|i: int|
            0 <= i < refs.len() ==> with_ref_if_new(refs, Some(r))[i] == #[trigger] refs[i],
        with_ref_if_new(refs, None) == refs,
{
    lemma_ref_at(refs, r.name, 0);
    let w = with_ref(refs, r);
    let v = with_ref_if_new(refs, Some(r));
    match ref_at(refs, r.name, 0) {
        Some(i) => {
            assert(w[i] == r);
            assert(v[i].name == r.name);
        },
        None => {
            assert(w[refs.len() as int] == r);
            assert(v[refs.len() as int].name == r.name);
        },
    }
}

// ---------------------------------------------------------------------------
// What is needed
// ---------------------------------------------------------------------------

/// Whether indices rise.
pub open spec fn rising(s: Seq<u32>) -> bool {
    forall|i: int, j: int| 0 <= i < j < s.len() ==> #[trigger] s[i] < #[trigger] s[j]
}

/// The indices of what is needed rise. One that is put to them is among them, and so are all
/// that were there.
pub proof fn lemma_needed_indices_rise(s: Seq<u32>, x: u32)
    requires
        rising(s),
    ensures
        rising(with_index(s, x)),
        forall|y: u32| #[trigger] with_index(s, x).contains(y) <==> y == x || s.contains(y),
    decreases s.len(),
{
    let w = with_index(s, x);
    if s.len() == 0 || s.last() < x {
        assert(w[s.len() as int] == x);
        assert forall|y: u32| #[trigger] w.contains(y) <==> y == x || s.contains(y) by {
            if s.contains(y) {
                let i = s.index_of(y);
                assert(w[i] == y);
            }
        }
    } else if s.last() == x {
        assert(s[s.len() - 1] == x);
    } else {
        let init = s.drop_last();
        assert(rising(init)) by {
            assert forall|i: int, j: int| 0 <= i < j < init.len() implies #[trigger] init[i]
                < #[trigger] init[j] by {
                assert(s[i] < s[j]);
            }
        }
        lemma_needed_indices_rise(init, x);
        let inner = with_index(init, x);
        assert(w == inner.push(s.last()));
        assert forall|y: u32| #[trigger] w.contains(y) <==> y == x || s.contains(y) by {
            if inner.contains(y) {
                let i = inner.index_of(y);
                assert(w[i] == y);
            }
            if s.contains(y) {
                let i = s.index_of(y);
                if i < init.len() {
                    assert(init[i] == y);
                    assert(init.contains(y));
                } else {
                    assert(w[inner.len() as int] == y);
                }
            }
            if w.contains(y) {
                let i = w.index_of(y);
                if i < inner.len() {
                    assert(inner[i] == y);
                    assert(inner.contains(y));
                    if init.contains(y) {
                        let k = init.index_of(y);
                        assert(s[k] == y);
                    }
                } else {
                    assert(s[s.len() - 1] == y);
                }
            }
        }
        assert forall|i: int, j: int| 0 <= i < j < w.len() implies #[trigger] w[i]
            < #[trigger] w[j] by {
            if j == inner.len() {
                assert(inner.contains(inner[i]));
                if inner[i] != x {
                    let k = init.index_of(inner[i]);
                    assert(s[k] < s[s.len() - 1]);
                }
            }
        }
    }
}

proof fn lemma_type_behind_all(t: HeaderTable, index: u32, left: nat)
    ensures
        type_behind_all(t, index, left) matches Ok(Some(i)) ==> (t.at(i) matches Found::Record(
            r,
        ) && (r is Class || r is Enumeration || r is Union)),
    decreases left,
{
    if let Found::Record(r) = t.at(index) {
        if let HeaderRecord::Indirect { to } = r {
            if left > 0 {
                lemma_type_behind_all(t, to, (left - 1) as nat);
            }
        }
    }
}

/// What a type leads to is a class, an enumeration or a union. A type that is one leads to
/// itself, and one that points to another, or changes or repeats it, leads to what that one
/// leads to.
pub proof fn lemma_type_leads_to_what_has_a_name(t: HeaderTable, index: u32)
    ensures
        type_behind(t, index) matches Ok(Some(i)) ==> (t.at(i) matches Found::Record(r) && (
        r is Class || r is Enumeration || r is Union)),
        t.at(index) matches Found::Record(r) ==> (r is Class || r is Enumeration || r is Union)
            ==> type_behind(t, index) == Ok::<Option<u32>, HeaderError>(Some(index)),
        t.at(index) is Primitive ==> type_behind(t, index) == Ok::<Option<u32>, HeaderError>(None),
{
    lemma_type_behind_all(t, index, t.records@.len());
}

// ---------------------------------------------------------------------------
// Enumerations
// ---------------------------------------------------------------------------

/// Whether an enumeration of a name is there.
pub open spec fn has_enum(s: Seq<EnumModel>, name: Seq<char>) -> bool {
    exists|i: int| 0 <= i < s.len() && (#[trigger] s[i]).name == name
}

/// An enumeration that is put to others is there by its name. Those of other names stay.
pub proof fn lemma_enumerations_are_put(s: Seq<EnumModel>, e: EnumModel)
    ensures
        has_enum(with_enum(s, e), e.name),
        forall|i: int|
            0 <= i < s.len() && (#[trigger] s[i]).name != e.name ==> with_enum(s, e).contains(s[i]),
        s.len() <= with_enum(s, e).len() <= s.len() + 1,
    decreases s.len(),
{
    let w = with_enum(s, e);
    if s.len() == 0 {
        assert(w[0].name == e.name);
    } else if s.last().name == e.name {
        assert(w[s.len() - 1].name == e.name);
        assert forall|i: int| 0 <= i < s.len() && (#[trigger] s[i]).name != e.name implies
            w.contains(s[i]) by {
            assert(w[i] == s[i]);
        }
    } else if text_le(s.last().name, e.name) {
        assert(w[s.len() as int].name == e.name);
        assert forall|i: int| 0 <= i < s.len() && (#[trigger] s[i]).name != e.name implies
            w.contains(s[i]) by {
            assert(w[i] == s[i]);
        }
    } else {
        let init = s.drop_last();
        lemma_enumerations_are_put(init, e);
        let inner = with_enum(init, e);
        assert(w == inner.push(s.last()));
        let k = choose|i: int| 0 <= i < inner.len() && (#[trigger] inner[i]).name == e.name;
        assert(w[k].name == e.name);
        assert forall|i: int| 0 <= i < s.len() && (#[trigger] s[i]).name != e.name implies
            w.contains(s[i]) by {
            if i < init.len() {
                assert(init[i] == s[i]);
                assert(inner.contains(init[i]));
                let j = inner.index_of(init[i]);
                assert(w[j] == s[i]);
            } else {
                assert(w[inner.len() as int] == s[i]);
            }
        }
    }
}

/// How many of the first `n` fields are enumerators.
pub open spec fn enumerator_count(fields: Seq<HeaderField>, n: int) -> nat
    decreases n,
{
    if n <= 0 {
        0
    } else {
        enumerator_count(fields, n - 1) + if fields[n - 1] is Enumerate {
            1nat
        } else {
            0nat
        }
    }
}

/// An enumeration has every enumerator of its fields, each with its value, behind as many as
/// stand before it.
pub proof fn lemma_enumerators_are_all_there(
    v: Seq<(Seq<char>, Variant)>,
    fields: Seq<HeaderField>,
    n: int,
)
    requires
        0 <= n <= fields.len(),
    ensures
        enumerators_of(v, fields, n).len() == v.len() + enumerator_count(fields, n),
        forall|i: int|
            0 <= i < n ==> (#[trigger] fields[i] matches HeaderField::Enumerate { name, value }
                ==> enumerators_of(v, fields, n)[(v.len() + enumerator_count(fields, i)) as int]
                == (name@, value)),
        forall|i: int| 0 <= i < v.len() ==> enumerators_of(v, fields, n)[i] == #[trigger] v[i],
    decreases n,
{
    if n > 0 {
        lemma_enumerators_are_all_there(v, fields, n - 1);
        lemma_enumerator_counts_rise(fields, n - 1);
    }
}

proof fn lemma_enumerator_counts_rise(fields: Seq<HeaderField>, n: int)
    ensures
        forall|i: int|
            0 <= i < n && #[trigger] fields[i] is Enumerate ==> enumerator_count(fields, i)
                < enumerator_count(fields, n),
    decreases n,
{
    if n > 0 {
        lemma_enumerator_counts_rise(fields, n - 1);
    }
}

// ---------------------------------------------------------------------------
// Classes
// ---------------------------------------------------------------------------

/// A class goes before those that are there, under its name and with its size; a class that
/// is only announced adds none. Classes that are there stay.
pub proof fn lemma_class_is_put_first(
    t: HeaderTable,
    cache: Map<Seq<char>, SignatureModel>,
    p: Progress,
    c: HeaderClass,
)
    requires
        with_class(t, cache, p, c) is Ok,
    ensures
        ({
            let q = with_class(t, cache, p, c)->Ok_0;
            &&& c.forward_reference ==> q.data.classes == p.data.classes && q.needed == p.needed
            &&& !c.forward_reference ==> q.data.classes.len() == p.data.classes.len() + 1
                && forall|i: int|
                0 <= i < p.data.classes.len() ==> q.data.classes[i + 1]
                    == #[trigger] p.data.classes[i]
            &&& !c.forward_reference && c.fields is None ==> q.data.classes[0].orig_name == c.name@
                && q.data.classes[0].size == c.size && q.data.classes[0].kind == c.kind
                && q.data.classes[0].fields.len() == 0 && q.data.forward_references
                == p.data.forward_references
            &&& q.data.enums == p.data.enums
            &&& q.data.namespace == p.data.namespace
        }),
{
    reveal(with_class);
}

} // verus!
