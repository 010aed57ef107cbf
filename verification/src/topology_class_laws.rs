//! What holds of the entries of classes, and of the classes that are loaded.

use crate::field_attributes::MyFieldAttributes;
use crate::number::{dec, hex};
use crate::order::text_le;
use crate::topology_classes::{class_key, class_of, classes_upto, comparable_type, entries_in,
    entries_of, entries_upto, enumerators, function_details, is_wanted, overloads, put_class,
    ClassView, EntryModel, GroupModel};
use crate::topology_text::{bool_text, type_normalized};
use crate::type_table::{ClassRecord, Field, FieldData, MethodItem, TypeError, TypeRecord,
    TypeTable};
use vstd::prelude::*;

verus! {

// ---------------------------------------------------------------------------
// What a field stands for
// ---------------------------------------------------------------------------

/// The attributes of an entry are those of the field: the access in the two lowest bits.
pub open spec fn has_access(e: EntryModel, a: MyFieldAttributes) -> bool {
    &&& e.access is Private <==> (a.0 & 0x0003) as u8 == 1
    &&& e.access is Protected <==> (a.0 & 0x0003) as u8 == 2
    &&& e.access is Public <==> (a.0 & 0x0003) as u8 == 3
    &&& e.raw_attributes == "0x"@ + hex((a.0 & 0xfffc) as nat)
}

/// A member is one entry: a field of its name at its offset.
pub proof fn lemma_member_is_a_field(
    t: TypeTable,
    name: String,
    ty: Option<String>,
    attributes: MyFieldAttributes,
    offset: u64,
)
    ensures
        entries_of(t, FieldData::Member { name, ty, attributes, offset }) matches Ok(v) && {
            &&& v.len() == 1
            &&& v[0].kind is Field && v[0].name == name@ && v[0].offset == Some(offset)
            &&& v[0].argument_count is None && v[0].vtable_offset is None && v[0].details.len() == 0
            &&& has_access(v[0], attributes)
            &&& ty is None ==> v[0].typename == "<unresolved-type>"@
            &&& ty is Some ==> v[0].typename == type_normalized(ty->0@)
        },
{
}

/// A static member is one entry of its name, at no offset.
pub proof fn lemma_static_member_has_no_offset(
    t: TypeTable,
    name: String,
    ty: Option<String>,
    attributes: MyFieldAttributes,
)
    ensures
        entries_of(t, FieldData::StaticMember { name, ty, attributes }) matches Ok(v) && {
            &&& v.len() == 1
            &&& v[0].kind is StaticField && v[0].name == name@ && v[0].offset is None
            &&& v[0].argument_count is None && v[0].vtable_offset is None && v[0].details.len() == 0
            &&& has_access(v[0], attributes)
            &&& ty is None ==> v[0].typename == "<unresolved-type>"@
            &&& ty is Some ==> v[0].typename == type_normalized(ty->0@)
        },
{
}

/// A base class is one entry, by its type, at its offset, and says what kind of class it is.
pub proof fn lemma_base_class_is_an_entry(
    t: TypeTable,
    ty: Option<String>,
    attributes: MyFieldAttributes,
    base_offset: u32,
    kind: String,
)
    ensures
        entries_of(t, FieldData::BaseClass { ty, attributes, base_offset, kind }) matches Ok(v) && {
            &&& v.len() == 1
            &&& v[0].kind is Base && v[0].offset == Some(base_offset as u64)
            &&& v[0].name == v[0].typename
            &&& v[0].details.contains("kind="@ + kind@)
            &&& has_access(v[0], attributes)
            &&& ty is Some ==> v[0].name == type_normalized(ty->0@)
        },
{
    let v = entries_of(t, FieldData::BaseClass { ty, attributes, base_offset, kind })->Ok_0;
    assert(v[0].details[0] == "kind="@ + kind@);
}

/// A virtual base class is one entry, by its type, at the offset of the pointer to it. It
/// says whether it is direct, what points to it, and where it stands.
pub proof fn lemma_virtual_base_class_is_an_entry(
    t: TypeTable,
    ty: Option<String>,
    attributes: MyFieldAttributes,
    base_pointer_offset: u32,
    direct: bool,
    pointer: Option<String>,
    virtual_base_offset: u32,
)
    ensures
        entries_of(
            t,
            FieldData::VirtualBaseClass {
                ty,
                attributes,
                base_pointer_offset,
                direct,
                pointer,
                virtual_base_offset,
            },
        ) matches Ok(v) && {
            &&& v.len() == 1
            &&& v[0].kind is VirtualBase && v[0].offset == Some(base_pointer_offset as u64)
            &&& v[0].name == v[0].typename
            &&& direct ==> v[0].details.contains("direct="@ + "true"@)
            &&& !direct ==> v[0].details.contains("direct="@ + "false"@)
            &&& pointer is Some ==> v[0].details.contains(
                "base_pointer="@ + type_normalized(pointer->0@),
            )
            &&& v[0].details.contains("virtual_base_offset=0x"@ + hex(virtual_base_offset as nat))
            &&& has_access(v[0], attributes)
        },
{
    let v = entries_of(
        t,
        FieldData::VirtualBaseClass {
            ty,
            attributes,
            base_pointer_offset,
            direct,
            pointer,
            virtual_base_offset,
        },
    )->Ok_0;
    let d = v[0].details;
    assert(d[0] == "direct="@ + bool_text(direct));
    assert(d[1] == "base_pointer="@ + comparable_type(pointer));
    assert(d[2] == "virtual_base_offset=0x"@ + hex(virtual_base_offset as nat));
}

/// The pointer to the virtual functions is one entry of its own name.
pub proof fn lemma_table_pointer_is_an_entry(t: TypeTable, ty: Option<String>)
    ensures
        entries_of(t, FieldData::VirtualFunctionTablePointer { ty }) matches Ok(v) && v.len() == 1
            && v[0].kind is VftablePointer && v[0].name == "<vftable>"@ && v[0].access
            is Unspecified && v[0].offset is None && (ty is Some ==> v[0].typename
            == type_normalized(ty->0@)),
{
}

/// A method is one entry of its name. It says how many arguments its type takes, and where
/// it stands among the virtual functions.
pub proof fn lemma_method_is_an_entry(t: TypeTable, name: String, item: MethodItem)
    ensures
        t.record_at(item.method_type) matches Some(TypeRecord::Function(f)) ==> (entries_of(
            t,
            FieldData::Method { name, item },
        ) matches Ok(v) && {
            &&& v.len() == 1
            &&& v[0].kind is Method && v[0].name == name@
            &&& v[0].argument_count == Some(f.parameter_count)
            &&& v[0].vtable_offset == item.vtable_offset
            &&& has_access(v[0], item.attributes)
            &&& v[0].details.contains("calling_convention="@ + dec(f.calling_convention as nat))
            &&& v[0].details.contains(
                "constructor="@ + bool_text(f.constructor),
            )
            &&& v[0].details.contains(
                "cxx_return_udt="@ + bool_text(f.cxx_return_udt),
            )
            &&& v[0].details.contains(
                "constructor_virtual_bases="@ + bool_text(
                    f.constructor_virtual_bases,
                ),
            )
            &&& f.this_adjustment matches Some(n) ==> v[0].details.contains(
                "this_adjustment="@ + dec(n as nat),
            )
            &&& f.this_adjustment is Some <==> v[0].details.len() == 5
            &&& item.signature is None ==> v[0].typename == "<unresolved-method-signature>"@
            &&& item.signature is Some ==> v[0].typename == type_normalized(
                item.signature->0@,
            )
        }),
        t.record_at(item.method_type) is None ==> entries_of(t, FieldData::Method { name, item })
            is Err,
{
    if let Some(TypeRecord::Function(f)) = t.record_at(item.method_type) {
        let v = entries_of(t, FieldData::Method { name, item })->Ok_0;
        let d = v[0].details;
        assert(d == function_details(f));
        assert(d[0] == "calling_convention="@ + dec(f.calling_convention as nat));
        assert(d[1] == "cxx_return_udt="@ + bool_text(f.cxx_return_udt));
        assert(d[2] == "constructor="@ + bool_text(f.constructor));
        assert(d[3] == "constructor_virtual_bases="@ + bool_text(
            f.constructor_virtual_bases,
        ));
        if let Some(n) = f.this_adjustment {
            assert(d[4] == "this_adjustment="@ + dec(n as nat));
        }
    }
}

proof fn lemma_overloads(t: TypeTable, name: Seq<char>, methods: Seq<MethodItem>, n: int)
    requires
        0 <= n <= methods.len(),
    ensures
        overloads(t, name, methods, n) matches Ok(v) ==> v.len() == n && forall|i: int|
            0 <= i < n ==> (#[trigger] v[i]).kind is Method && v[i].name == name
                && v[i].vtable_offset == methods[i].vtable_offset && has_access(
                v[i],
                methods[i].attributes,
            ),
    decreases n,
{
    if n > 0 {
        lemma_overloads(t, name, methods, n - 1);
    }
}

/// Every overload of a method is an entry of the method's name, in the order of the list.
pub proof fn lemma_every_overload_is_an_entry(
    t: TypeTable,
    name: String,
    method_list: u32,
    i: int,
)
    ensures
        t.record_at(method_list) matches Some(TypeRecord::MethodList { methods }) ==> (entries_of(
            t,
            FieldData::OverloadedMethod { name, method_list },
        ) matches Ok(v) ==> v.len() == methods@.len() && (0 <= i < methods@.len() ==> v[i].kind
            is Method && v[i].name == name@ && v[i].vtable_offset == methods@[i].vtable_offset
            && has_access(v[i], methods@[i].attributes))),
{
    if let Some(TypeRecord::MethodList { methods }) = t.record_at(method_list) {
        lemma_overloads(t, name@, methods@, methods@.len() as int);
    }
}

/// Every enumerator among some fields is told with its value.
pub proof fn lemma_enumerators_are_told(fields: Seq<Field>, n: int)
    requires
        0 <= n <= fields.len(),
    ensures
        forall|i: int|
            0 <= i < n ==> ((#[trigger] fields[i]).data matches FieldData::Enumerate {
                name,
                value,
            } ==> enumerators(fields, n).contains(name@ + "="@ + value@)),
    decreases n,
{
    if n > 0 {
        lemma_enumerators_are_told(fields, n - 1);
        let before = enumerators(fields, n - 1);
        let all = enumerators(fields, n);
        assert forall|i: int| 0 <= i < n implies ((#[trigger] fields[i]).data matches
        FieldData::Enumerate { name, value } ==> all.contains(name@ + "="@ + value@)) by {
            if let FieldData::Enumerate { name, value } = fields[i].data {
                let x = name@ + "="@ + value@;
                if i < n - 1 {
                    assert(before.contains(x));
                    let k = before.index_of(x);
                    assert(all[k] == x);
                } else {
                    assert(all[before.len() as int] == x);
                }
            }
        }
    }
}

/// An enumerator by itself, and a field of no known sort, is no entry.
pub proof fn lemma_enumerator_is_no_entry(t: TypeTable, name: String, value: String)
    ensures
        entries_of(t, FieldData::Enumerate { name, value }) == Ok::<Seq<EntryModel>, TypeError>(
            Seq::empty(),
        ),
        entries_of(t, FieldData::Other) == Ok::<Seq<EntryModel>, TypeError>(Seq::empty()),
{
}

// ---------------------------------------------------------------------------
// The entries of a class
// ---------------------------------------------------------------------------

proof fn lemma_entries_upto(t: TypeTable, fields: Seq<Field>, n: int, i: int)
    requires
        0 <= i < n <= fields.len(),
        entries_upto(t, fields, n) is Ok,
    ensures
        entries_of(t, fields[i].data) matches Ok(more) && forall|k: int|
            0 <= k < more.len() ==> entries_upto(t, fields, n)->Ok_0.contains(#[trigger] more[k]),
    decreases n,
{
    let before = entries_upto(t, fields, n - 1)->Ok_0;
    let last = entries_of(t, fields[n - 1].data)->Ok_0;
    let all = entries_upto(t, fields, n)->Ok_0;
    if i == n - 1 {
        assert forall|k: int| 0 <= k < last.len() implies all.contains(#[trigger] last[k]) by {
            assert(all[before.len() + k] == last[k]);
        }
    } else {
        lemma_entries_upto(t, fields, n - 1, i);
        let more = entries_of(t, fields[i].data)->Ok_0;
        assert forall|k: int| 0 <= k < more.len() implies all.contains(#[trigger] more[k]) by {
            let j = before.index_of(more[k]);
            assert(all[j] == more[k]);
        }
    }
}

proof fn lemma_entries_in(t: TypeTable, lists: Seq<u32>, n: int, l: int, i: int)
    requires
        0 <= l < n <= lists.len(),
        0 <= i < t.fields_at(lists[l]).len(),
        entries_in(t, lists, n) is Ok,
    ensures
        entries_of(t, t.fields_at(lists[l])[i].data) matches Ok(more) && forall|k: int|
            0 <= k < more.len() ==> entries_in(t, lists, n)->Ok_0.contains(#[trigger] more[k]),
    decreases n,
{
    let before = entries_in(t, lists, n - 1)->Ok_0;
    let f = t.fields_at(lists[n - 1]);
    let last = entries_upto(t, f, f.len() as int)->Ok_0;
    let all = entries_in(t, lists, n)->Ok_0;
    if l == n - 1 {
        lemma_entries_upto(t, f, f.len() as int, i);
        let more = entries_of(t, f[i].data)->Ok_0;
        assert forall|k: int| 0 <= k < more.len() implies all.contains(#[trigger] more[k]) by {
            let j = last.index_of(more[k]);
            assert(all[before.len() + j] == more[k]);
        }
    } else {
        lemma_entries_in(t, lists, n - 1, l, i);
        let more = entries_of(t, t.fields_at(lists[l])[i].data)->Ok_0;
        assert forall|k: int| 0 <= k < more.len() implies all.contains(#[trigger] more[k]) by {
            let j = before.index_of(more[k]);
            assert(all[j] == more[k]);
        }
    }
}

/// A class has the entries of every field in every list of its fields. It keeps its own name,
/// kind, size and properties.
pub proof fn lemma_class_has_the_entries_of_all_fields(t: TypeTable, c: ClassRecord, l: int, i: int)
    requires
        class_of(t, c) is Ok,
        c.fields is Some,
        0 <= l < t.chain_of(c.fields->0).0.len(),
        0 <= i < t.fields_at(t.chain_of(c.fields->0).0[l]).len(),
    ensures
        ({
            let v = class_of(t, c)->Ok_0;
            &&& v.name == c.name@ && v.kind == c.kind && v.size == c.size
            &&& v.properties == c.properties@
            &&& entries_of(
                t,
                t.fields_at(t.chain_of(c.fields->0).0[l])[i].data,
            ) matches Ok(more) && forall|k: int|
                0 <= k < more.len() ==> v.entries.contains(#[trigger] more[k])
        }),
{
    let lists = t.chain_of(c.fields->0).0;
    lemma_entries_in(t, lists, lists.len() as int, l, i);
}

// ---------------------------------------------------------------------------
// The classes that are loaded
// ---------------------------------------------------------------------------

/// Whether a class stands in the group of a key.
pub open spec fn has_class(s: Seq<GroupModel>, key: Seq<char>, c: ClassView) -> bool {
    exists|i: int| 0 <= i < s.len() && (#[trigger] s[i]).key == key && s[i].variants.contains(c)
}

proof fn lemma_put_class(s: Seq<GroupModel>, key: Seq<char>, c: ClassView)
    ensures
        has_class(put_class(s, key, c), key, c),
        forall|k: Seq<char>, d: ClassView| #[trigger]
            has_class(s, k, d) ==> has_class(put_class(s, key, c), k, d),
        forall|k: Seq<char>, d: ClassView| #[trigger]
            has_class(put_class(s, key, c), k, d) ==> has_class(s, k, d) || (k == key && d == c),
    decreases s.len(),
{
    let w = put_class(s, key, c);
    if s.len() == 0 {
        assert(w[0].variants[0] == c);
        assert(w[0].variants.contains(c));
    } else if s.last().key == key {
        let n = s.len() - 1;
        if s.last().variants.contains(c) {
            assert(s[n].variants.contains(c));
        } else {
            let old_variants = s.last().variants;
            assert(w[n].variants[old_variants.len() as int] == c);
            assert(w[n].variants.contains(c));
            assert forall|k: Seq<char>, d: ClassView| #[trigger] has_class(s, k, d) implies
                has_class(w, k, d) by {
                let i = choose|i: int|
                    0 <= i < s.len() && (#[trigger] s[i]).key == k && s[i].variants.contains(d);
                if i < n {
                    assert(w[i] == s[i]);
                } else {
                    let j = old_variants.index_of(d);
                    assert(w[n].variants[j] == d);
                    assert(w[n].variants.contains(d));
                }
            }
            assert forall|k: Seq<char>, d: ClassView| #[trigger] has_class(w, k, d) implies
                has_class(s, k, d) || (k == key && d == c) by {
                let i = choose|i: int|
                    0 <= i < w.len() && (#[trigger] w[i]).key == k && w[i].variants.contains(d);
                if i < n {
                    assert(w[i] == s[i]);
                } else {
                    let j = w[n].variants.index_of(d);
                    if j < old_variants.len() {
                        assert(old_variants[j] == d);
                        assert(s[n].variants.contains(d));
                    }
                }
            }
        }
    } else if text_le(s.last().key, key) {
        let n = s.len() as int;
        assert(w[n].variants[0] == c);
        assert(w[n].variants.contains(c));
        assert forall|k: Seq<char>, d: ClassView| #[trigger] has_class(s, k, d) implies has_class(
            w,
            k,
            d,
        ) by {
            let i = choose|i: int|
                0 <= i < s.len() && (#[trigger] s[i]).key == k && s[i].variants.contains(d);
            assert(w[i] == s[i]);
        }
        assert forall|k: Seq<char>, d: ClassView| #[trigger] has_class(w, k, d) implies has_class(
            s,
            k,
            d,
        ) || (k == key && d == c) by {
            let i = choose|i: int|
                0 <= i < w.len() && (#[trigger] w[i]).key == k && w[i].variants.contains(d);
            if i < n {
                assert(s[i] == w[i]);
            }
        }
    } else {
        let init = s.drop_last();
        lemma_put_class(init, key, c);
        let inner = put_class(init, key, c);
        assert(w == inner.push(s.last()));
        assert forall|k: Seq<char>, d: ClassView| #[trigger] has_class(inner, k, d) implies
            has_class(w, k, d) by {
            let i = choose|i: int|
                0 <= i < inner.len() && (#[trigger] inner[i]).key == k && inner[i].variants.contains(
                    d,
                );
            assert(w[i] == inner[i]);
        }
        assert(has_class(inner, key, c));
        assert forall|k: Seq<char>, d: ClassView| #[trigger] has_class(s, k, d) implies has_class(
            w,
            k,
            d,
        ) by {
            let i = choose|i: int|
                0 <= i < s.len() && (#[trigger] s[i]).key == k && s[i].variants.contains(d);
            if i < init.len() {
                assert(init[i] == s[i]);
                assert(has_class(init, k, d));
                assert(has_class(inner, k, d));
            } else {
                assert(w[inner.len() as int] == s[i]);
            }
        }
        assert forall|k: Seq<char>, d: ClassView| #[trigger] has_class(w, k, d) implies has_class(
            s,
            k,
            d,
        ) || (k == key && d == c) by {
            let i = choose|i: int|
                0 <= i < w.len() && (#[trigger] w[i]).key == k && w[i].variants.contains(d);
            if i < inner.len() {
                assert(inner[i] == w[i]);
                assert(has_class(inner, k, d));
                if has_class(init, k, d) {
                    let j = choose|j: int|
                        0 <= j < init.len() && (#[trigger] init[j]).key == k
                            && init[j].variants.contains(d);
                    assert(s[j] == init[j]);
                }
            } else {
                assert(s[s.len() - 1] == w[i]);
            }
        }
    }
}

proof fn lemma_classes_upto(t: TypeTable, filter: Option<Seq<char>>, n: int)
    requires
        0 <= n <= t.records@.len(),
    ensures
        classes_upto(t, filter, n) matches Ok(s) ==> {
            &&& forall|i: int|
                0 <= i < n ==> (#[trigger] t.records@[i] matches TypeRecord::Class(c)
                    ==> !c.forward_reference && (filter is None || class_key(c.name@) == filter->0)
                    ==> (class_of(t, c) matches Ok(v) && has_class(s, class_key(c.name@), v)))
            &&& forall|k: Seq<char>, d: ClassView| #[trigger]
                has_class(s, k, d) ==> (filter is None || k == filter->0) && class_key(d.name) == k
        },
    decreases n,
{
    if n > 0 {
        lemma_classes_upto(t, filter, n - 1);
        if let Ok(before) = classes_upto(t, filter, n - 1) {
            if let TypeRecord::Class(c) = t.records@[n - 1] {
                if is_wanted(t.records@[n - 1], filter) {
                    if let Ok(m) = class_of(t, c) {
                        lemma_put_class(before, class_key(c.name@), m);
                    }
                }
            }
        }
    }
}

/// Every class that is declared in full and asked for is loaded, under its name in small
/// letters. What is loaded was asked for, and announcements of classes are passed over.
pub proof fn lemma_classes_asked_for_are_loaded(t: TypeTable, filter: Option<Seq<char>>, i: int)
    requires
        classes_upto(t, filter, t.records@.len() as int) is Ok,
        0 <= i < t.records@.len(),
        t.records@[i] is Class,
    ensures
        ({
            let s = classes_upto(t, filter, t.records@.len() as int)->Ok_0;
            let c = t.records@[i]->Class_0;
            &&& !c.forward_reference && (filter is None || class_key(c.name@) == filter->0) ==> (
            class_of(t, c) matches Ok(v) && has_class(s, class_key(c.name@), v))
            &&& forall|k: Seq<char>, d: ClassView| #[trigger]
                has_class(s, k, d) ==> (filter is None || k == filter->0) && class_key(d.name) == k
        }),
{
    lemma_classes_upto(t, filter, t.records@.len() as int);
}

/// An announcement of a class is never loaded.
pub proof fn lemma_announced_classes_are_passed_over(t: TypeTable, filter: Option<Seq<char>>, n: int)
    requires
        0 < n <= t.records@.len(),
        t.records@[n - 1] matches TypeRecord::Class(c) ==> c.forward_reference,
        classes_upto(t, filter, n) is Ok,
    ensures
        classes_upto(t, filter, n) == classes_upto(t, filter, n - 1),
{
}

} // verus!
