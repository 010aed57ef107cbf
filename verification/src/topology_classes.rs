//! Classes as a database declares them, entry by entry.

use crate::field_attributes::{Access, MyFieldAttributes};
use crate::lcs::views;
use crate::number::{dec, decimal, hex, hexadecimal};
use crate::order::{is_le, text_le};
use crate::pieces::{cat2, cat3, lemma_texts_push};
use crate::text::{lowercase, owned, same, texts, to_lowercase};
use crate::topology_text::{bool_text, normalize_cross_pdb_type, show_bool, type_normalized};
use crate::type_table::{ChainEnd, ClassKind, ClassRecord, Field, FieldData, FunctionRecord,
    MethodItem, TypeError, TypeRecord, TypeTable};
use vstd::prelude::*;
use vstd::string::StringExecFns;

verus! {

/// What an entry of a class is.
#[derive(Clone, Copy, PartialEq, Eq, Debug, Structural)]
pub enum EntryKind {
    Field,
    StaticField,
    NestedType,
    Base,
    VirtualBase,
    VftablePointer,
    Method,
}

impl EntryKind {
    /// The kind in words.
    pub open spec fn name(self) -> Seq<char> {
        match self {
            EntryKind::Field => "field"@,
            EntryKind::StaticField => "static-field"@,
            EntryKind::NestedType => "nested-type"@,
            EntryKind::Base => "base"@,
            EntryKind::VirtualBase => "virtual-base"@,
            EntryKind::VftablePointer => "vftable-pointer"@,
            EntryKind::Method => "method"@,
        }
    }

    /// The kind in words.
    pub fn label(self) -> (r: &'static str)
        ensures
            r@ == self.name(),
    {
        match self {
            EntryKind::Field => "field",
            EntryKind::StaticField => "static-field",
            EntryKind::NestedType => "nested-type",
            EntryKind::Base => "base",
            EntryKind::VirtualBase => "virtual-base",
            EntryKind::VftablePointer => "vftable-pointer",
            EntryKind::Method => "method",
        }
    }
}

/// One entry of a class.
#[derive(Debug)]
pub struct ClassEntry {
    pub kind: EntryKind,
    pub name: String,
    pub typename: String,
    pub access: Access,
    pub offset: Option<u64>,
    pub argument_count: Option<u16>,
    pub attributes: Vec<String>,
    pub raw_attributes: String,
    pub vtable_offset: Option<u32>,
    pub details: Vec<String>,
}

/// One entry of a class, as a model.
pub struct EntryModel {
    pub kind: EntryKind,
    pub name: Seq<char>,
    pub typename: Seq<char>,
    pub access: Access,
    pub offset: Option<u64>,
    pub argument_count: Option<u16>,
    pub attributes: Seq<Seq<char>>,
    pub raw_attributes: Seq<char>,
    pub vtable_offset: Option<u32>,
    pub details: Seq<Seq<char>>,
}

impl View for ClassEntry {
    type V = EntryModel;

    open spec fn view(&self) -> EntryModel {
        EntryModel {
            kind: self.kind,
            name: self.name@,
            typename: self.typename@,
            access: self.access,
            offset: self.offset,
            argument_count: self.argument_count,
            attributes: texts(self.attributes@),
            raw_attributes: self.raw_attributes@,
            vtable_offset: self.vtable_offset,
            details: texts(self.details@),
        }
    }
}

/// A class with its entries in the order of their declaration.
#[derive(Debug)]
pub struct ClassModel {
    pub name: String,
    pub kind: ClassKind,
    pub size: u64,
    pub properties: String,
    pub entries: Vec<ClassEntry>,
}

/// A class, as a model.
pub struct ClassView {
    pub name: Seq<char>,
    pub kind: ClassKind,
    pub size: u64,
    pub properties: Seq<char>,
    pub entries: Seq<EntryModel>,
}

impl View for ClassModel {
    type V = ClassView;

    open spec fn view(&self) -> ClassView {
        ClassView {
            name: self.name@,
            kind: self.kind,
            size: self.size,
            properties: self.properties@,
            entries: views(self.entries@),
        }
    }
}

/// The different declarations of the classes that compare under one name.
#[derive(Debug)]
pub struct ClassGroup {
    pub key: String,
    pub variants: Vec<ClassModel>,
}

/// The different declarations of a class, as a model.
pub struct GroupModel {
    pub key: Seq<char>,
    pub variants: Seq<ClassView>,
}

impl View for ClassGroup {
    type V = GroupModel;

    open spec fn view(&self) -> GroupModel {
        GroupModel { key: self.key@, variants: views(self.variants@) }
    }
}

// ---------------------------------------------------------------------------
// Entries
// ---------------------------------------------------------------------------

/// A type's name as it is compared.
pub open spec fn comparable_type(ty: Option<String>) -> Seq<char> {
    match ty {
        Some(t) => type_normalized(t@),
        None => "<unresolved-type>"@,
    }
}

/// A method's signature as it is compared.
pub open spec fn comparable_signature(s: Option<String>) -> Seq<char> {
    match s {
        Some(t) => type_normalized(t@),
        None => "<unresolved-method-signature>"@,
    }
}

/// An entry with what its attributes say, and nothing else.
pub open spec fn entry_of(
    kind: EntryKind,
    name: Seq<char>,
    typename: Seq<char>,
    a: MyFieldAttributes,
) -> EntryModel {
    EntryModel {
        kind,
        name,
        typename,
        access: a.access_of(),
        offset: None,
        argument_count: None,
        attributes: a.label_texts(),
        raw_attributes: a.comparable_text(),
        vtable_offset: None,
        details: Seq::empty(),
    }
}

/// The enumerators among the first `n` fields.
pub open spec fn enumerators(fields: Seq<Field>, n: int) -> Seq<Seq<char>>
    decreases n,
{
    if n <= 0 {
        Seq::empty()
    } else {
        match fields[n - 1].data {
            FieldData::Enumerate { name, value } => enumerators(fields, n - 1).push(
                name@ + "="@ + value@,
            ),
            _ => enumerators(fields, n - 1),
        }
    }
}

/// The enumerators in the first `n` of some field lists.
pub open spec fn enumerators_in(t: TypeTable, lists: Seq<u32>, n: int) -> Seq<Seq<char>>
    decreases n,
{
    if n <= 0 {
        Seq::empty()
    } else {
        let f = t.fields_at(lists[n - 1]);
        enumerators_in(t, lists, n - 1) + enumerators(f, f.len() as int)
    }
}

/// The enumerators of a nested type, if it is an enumeration.
pub open spec fn nested_details(t: TypeTable, index: u32) -> Seq<Seq<char>> {
    match t.record_at(index) {
        Some(TypeRecord::Enumeration { list }) => {
            let lists = t.chain_of(list).0;
            enumerators_in(t, lists, lists.len() as int)
        },
        _ => Seq::empty(),
    }
}

/// What a function's type says, in words.
pub open spec fn function_details(f: FunctionRecord) -> Seq<Seq<char>> {
    let base = seq![
        "calling_convention="@ + dec(f.calling_convention as nat),
        "cxx_return_udt="@ + bool_text(f.cxx_return_udt),
        "constructor="@ + bool_text(f.constructor),
        "constructor_virtual_bases="@ + bool_text(f.constructor_virtual_bases),
    ];
    match f.this_adjustment {
        Some(n) => base.push("this_adjustment="@ + dec(n as nat)),
        None => base,
    }
}

/// The entry of a method.
pub open spec fn method_entry_of(t: TypeTable, name: Seq<char>, m: MethodItem) -> Result<
    EntryModel,
    TypeError,
> {
    let e = EntryModel {
        vtable_offset: m.vtable_offset,
        ..entry_of(EntryKind::Method, name, comparable_signature(m.signature), m.attributes)
    };
    match t.record_at(m.method_type) {
        None => Err(TypeError::Missing { index: m.method_type }),
        Some(TypeRecord::Unparsed) => Err(TypeError::Unparsed { index: m.method_type }),
        Some(TypeRecord::Function(f)) => Ok(
            EntryModel {
                argument_count: Some(f.parameter_count),
                details: function_details(f),
                ..e
            },
        ),
        Some(_) => Ok(e),
    }
}

/// The entries of the first `n` overloads of a method.
pub open spec fn overloads(t: TypeTable, name: Seq<char>, methods: Seq<MethodItem>, n: int) -> Result<
    Seq<EntryModel>,
    TypeError,
>
    decreases n,
{
    if n <= 0 {
        Ok(Seq::empty())
    } else {
        match overloads(t, name, methods, n - 1) {
            Err(e) => Err(e),
            Ok(before) => match method_entry_of(t, name, methods[n - 1]) {
                Err(e) => Err(e),
                Ok(m) => Ok(before.push(m)),
            },
        }
    }
}

/// The entries that a field stands for.
pub open spec fn entries_of(t: TypeTable, field: FieldData) -> Result<Seq<EntryModel>, TypeError> {
    match field {
        FieldData::Member { name, ty, attributes, offset } => Ok(
            seq![
                EntryModel {
                    offset: Some(offset),
                    ..entry_of(EntryKind::Field, name@, comparable_type(ty), attributes)
                },
            ],
        ),
        FieldData::StaticMember { name, ty, attributes } => Ok(
            seq![entry_of(EntryKind::StaticField, name@, comparable_type(ty), attributes)],
        ),
        FieldData::Nested { name, ty, attributes, index } => Ok(
            seq![
                EntryModel {
                    details: nested_details(t, index),
                    ..entry_of(EntryKind::NestedType, name@, comparable_type(ty), attributes)
                },
            ],
        ),
        FieldData::BaseClass { ty, attributes, base_offset, kind } => Ok(
            seq![
                EntryModel {
                    offset: Some(base_offset as u64),
                    details: seq!["kind="@ + kind@],
                    ..entry_of(
                        EntryKind::Base,
                        comparable_type(ty),
                        comparable_type(ty),
                        attributes,
                    )
                },
            ],
        ),
        FieldData::VirtualBaseClass {
            ty,
            attributes,
            base_pointer_offset,
            direct,
            pointer,
            virtual_base_offset,
        } => Ok(
            seq![
                EntryModel {
                    offset: Some(base_pointer_offset as u64),
                    details: seq![
                        "direct="@ + bool_text(direct),
                        "base_pointer="@ + comparable_type(pointer),
                        "virtual_base_offset=0x"@ + hex(virtual_base_offset as nat),
                    ],
                    ..entry_of(
                        EntryKind::VirtualBase,
                        comparable_type(ty),
                        comparable_type(ty),
                        attributes,
                    )
                },
            ],
        ),
        FieldData::VirtualFunctionTablePointer { ty } => Ok(
            seq![
                EntryModel {
                    kind: EntryKind::VftablePointer,
                    name: "<vftable>"@,
                    typename: comparable_type(ty),
                    access: Access::Unspecified,
                    offset: None,
                    argument_count: None,
                    attributes: Seq::empty(),
                    raw_attributes: ""@,
                    vtable_offset: None,
                    details: Seq::empty(),
                },
            ],
        ),
        FieldData::Method { name, item } => match method_entry_of(t, name@, item) {
            Err(e) => Err(e),
            Ok(m) => Ok(seq![m]),
        },
        FieldData::OverloadedMethod { name, method_list } => match t.record_at(method_list) {
            None => Err(TypeError::Missing { index: method_list }),
            Some(TypeRecord::Unparsed) => Err(TypeError::Unparsed { index: method_list }),
            Some(TypeRecord::MethodList { methods }) => overloads(
                t,
                name@,
                methods@,
                methods@.len() as int,
            ),
            Some(_) => Ok(Seq::empty()),
        },
        FieldData::Enumerate { .. } => Ok(Seq::empty()),
        FieldData::Other => Ok(Seq::empty()),
    }
}

/// The entries that the first `n` fields stand for.
pub open spec fn entries_upto(t: TypeTable, fields: Seq<Field>, n: int) -> Result<
    Seq<EntryModel>,
    TypeError,
>
    decreases n,
{
    if n <= 0 {
        Ok(Seq::empty())
    } else {
        match entries_upto(t, fields, n - 1) {
            Err(e) => Err(e),
            Ok(before) => match entries_of(t, fields[n - 1].data) {
                Err(e) => Err(e),
                Ok(more) => Ok(before + more),
            },
        }
    }
}

/// The entries in the first `n` of some field lists.
pub open spec fn entries_in(t: TypeTable, lists: Seq<u32>, n: int) -> Result<
    Seq<EntryModel>,
    TypeError,
>
    decreases n,
{
    if n <= 0 {
        Ok(Seq::empty())
    } else {
        match entries_in(t, lists, n - 1) {
            Err(e) => Err(e),
            Ok(before) => {
                let f = t.fields_at(lists[n - 1]);
                match entries_upto(t, f, f.len() as int) {
                    Err(e) => Err(e),
                    Ok(more) => Ok(before + more),
                }
            },
        }
    }
}

/// The entries of a class whose fields begin with the list `first`. A list that is
/// missing or unreadable is an error, something else in its place the end.
pub open spec fn class_entries(t: TypeTable, first: u32) -> Result<Seq<EntryModel>, TypeError> {
    let (lists, end) = t.chain_of(first);
    match entries_in(t, lists, lists.len() as int) {
        Err(e) => Err(e),
        Ok(entries) => match end {
            ChainEnd::Missing { index } => Err(TypeError::Missing { index }),
            ChainEnd::Unparsed { index } => Err(TypeError::Unparsed { index }),
            _ => Ok(entries),
        },
    }
}

/// A class that is declared in full.
pub open spec fn class_of(t: TypeTable, c: ClassRecord) -> Result<ClassView, TypeError> {
    let entries = match c.fields {
        Some(first) => class_entries(t, first),
        None => Ok(Seq::empty()),
    };
    match entries {
        Err(e) => Err(e),
        Ok(entries) => Ok(
            ClassView {
                name: c.name@,
                kind: c.kind,
                size: c.size,
                properties: c.properties@,
                entries,
            },
        ),
    }
}

/// The name that a class is compared under.
pub open spec fn class_key(name: Seq<char>) -> Seq<char> {
    type_normalized(lowercase(name))
}

/// A class put among others, unless the same declaration is there.
pub open spec fn put_class(s: Seq<GroupModel>, key: Seq<char>, c: ClassView) -> Seq<GroupModel>
    decreases s.len(),
{
    if s.len() == 0 {
        seq![GroupModel { key, variants: seq![c] }]
    } else if s.last().key == key {
        if s.last().variants.contains(c) {
            s
        } else {
            s.drop_last().push(GroupModel { key, variants: s.last().variants.push(c) })
        }
    } else if text_le(s.last().key, key) {
        s.push(GroupModel { key, variants: seq![c] })
    } else {
        put_class(s.drop_last(), key, c).push(s.last())
    }
}

/// Whether a record is a class that is to be loaded.
pub open spec fn is_wanted(r: TypeRecord, filter: Option<Seq<char>>) -> bool {
    match r {
        TypeRecord::Class(c) => !c.forward_reference && match filter {
            Some(wanted) => class_key(c.name@) == wanted,
            None => true,
        },
        _ => false,
    }
}

/// The classes among the first `n` records, by the names that they compare under.
pub open spec fn classes_upto(t: TypeTable, filter: Option<Seq<char>>, n: int) -> Result<
    Seq<GroupModel>,
    TypeError,
>
    decreases n,
{
    if n <= 0 {
        Ok(Seq::empty())
    } else {
        match classes_upto(t, filter, n - 1) {
            Err(e) => Err(e),
            Ok(before) => match t.records@[n - 1] {
                TypeRecord::Class(c) => if is_wanted(t.records@[n - 1], filter) {
                    match class_of(t, c) {
                        Err(e) => Err(e),
                        Ok(m) => Ok(put_class(before, class_key(c.name@), m)),
                    }
                } else {
                    Ok(before)
                },
                _ => Ok(before),
            },
        }
    }
}

// ---------------------------------------------------------------------------

fn typename(ty: &Option<String>) -> (r: String)
    ensures
        r@ == comparable_type(*ty),
{
    match ty {
        Some(t) => normalize_cross_pdb_type(t.as_str()),
        None => owned("<unresolved-type>"),
    }
}

fn make_entry(kind: EntryKind, name: String, typename: String, a: MyFieldAttributes) -> (r:
    ClassEntry)
    ensures
        r@ == entry_of(kind, name@, typename@, a),
{
    let details: Vec<String> = Vec::new();
    assert(texts(details@) =~= Seq::<Seq<char>>::empty());
    ClassEntry {
        kind,
        name,
        typename,
        access: a.access(),
        offset: None,
        argument_count: None,
        attributes: a.labels(),
        raw_attributes: a.comparable(),
        vtable_offset: None,
        details,
    }
}

fn push_text(v: &mut Vec<String>, s: String)
    ensures
        texts(final(v)@) == texts(old(v)@).push(s@),
{
    proof {
        lemma_texts_push(v@, s);
    }
    v.push(s);
}

fn collect_enumerators(t: &TypeTable, list: u32, out: &mut Vec<String>)
    ensures
        texts(final(out)@) == texts(old(out)@) + enumerators(
            t.fields_at(list),
            t.fields_at(list).len() as int,
        ),
{
    let ghost start = texts(out@);
    assert(start + Seq::<Seq<char>>::empty() =~= start);
    if let Some(TypeRecord::FieldList { fields, .. }) = t.find(list) {
        let ghost f = fields@;
        let mut i: usize = 0;
        while i < fields.len()
            invariant
                f == fields@,
                i <= f.len(),
                texts(out@) == start + enumerators(f, i as int),
            decreases fields.len() - i,
        {
            if let FieldData::Enumerate { name, value } = &fields[i].data {
                let s: String = cat3(name.as_str(), "=", value.as_str());
                let ghost before = texts(out@);
                push_text(out, s);
                assert(texts(out@) =~= start + enumerators(f, i as int).push(s@));
            }
            i = i + 1;
        }
    }
}

fn nested_type_details(t: &TypeTable, index: u32) -> (r: Vec<String>)
    ensures
        texts(r@) == nested_details(*t, index),
{
    let mut out: Vec<String> = Vec::new();
    assert(texts(out@) =~= Seq::<Seq<char>>::empty());
    if let Some(TypeRecord::Enumeration { list }) = t.find(index) {
        let (lists, _): (Vec<u32>, ChainEnd) = t.chain(*list);
        let mut i: usize = 0;
        while i < lists.len()
            invariant
                i <= lists@.len(),
                texts(out@) == enumerators_in(*t, lists@, i as int),
            decreases lists.len() - i,
        {
            collect_enumerators(t, lists[i], &mut out);
            i = i + 1;
        }
    }
    out
}

fn describe_function(f: &FunctionRecord) -> (r: Vec<String>)
    ensures
        texts(r@) == function_details(*f),
{
    let mut v: Vec<String> = Vec::new();
    push_text(&mut v, cat2("calling_convention=", decimal(f.calling_convention as u64).as_str()));
    push_text(&mut v, cat2("cxx_return_udt=", show_bool(f.cxx_return_udt)));
    push_text(&mut v, cat2("constructor=", show_bool(f.constructor)));
    push_text(&mut v, cat2("constructor_virtual_bases=", show_bool(f.constructor_virtual_bases)));
    if let Some(n) = f.this_adjustment {
        push_text(&mut v, cat2("this_adjustment=", decimal(n as u64).as_str()));
    }
    assert(texts(v@) =~= function_details(*f));
    v
}

fn method_entry(t: &TypeTable, name: &String, m: &MethodItem) -> (r: Result<ClassEntry, TypeError>)
    ensures
        match r {
            Ok(e) => method_entry_of(*t, name@, *m) == Ok::<EntryModel, TypeError>(e@),
            Err(e) => method_entry_of(*t, name@, *m) == Err::<EntryModel, TypeError>(e),
        },
{
    let signature: String = match &m.signature {
        Some(s) => normalize_cross_pdb_type(s.as_str()),
        None => owned("<unresolved-method-signature>"),
    };
    let mut e: ClassEntry = make_entry(EntryKind::Method, name.clone(), signature, m.attributes);
    e.vtable_offset = m.vtable_offset;
    match t.find(m.method_type) {
        None => Err(TypeError::Missing { index: m.method_type }),
        Some(TypeRecord::Unparsed) => Err(TypeError::Unparsed { index: m.method_type }),
        Some(TypeRecord::Function(f)) => {
            e.argument_count = Some(f.parameter_count);
            e.details = describe_function(f);
            Ok(e)
        },
        Some(_) => Ok(e),
    }
}

fn push_entry(v: &mut Vec<ClassEntry>, e: ClassEntry)
    ensures
        views(final(v)@) == views(old(v)@).push(e@),
        views(final(v)@) == views(old(v)@) + seq![e@],
{
    let ghost before = v@;
    let ghost m = e@;
    v.push(e);
    assert(views(v@) =~= views(before).push(m));
    assert(views(v@) =~= views(before) + seq![m]);
}

fn overload_entries(t: &TypeTable, name: &String, methods: &Vec<MethodItem>) -> (r: Result<
    Vec<ClassEntry>,
    TypeError,
>)
    ensures
        match r {
            Ok(v) => overloads(*t, name@, methods@, methods@.len() as int) == Ok::<
                Seq<EntryModel>,
                TypeError,
            >(views(v@)),
            Err(e) => overloads(*t, name@, methods@, methods@.len() as int) == Err::<
                Seq<EntryModel>,
                TypeError,
            >(e),
        },
{
    let mut out: Vec<ClassEntry> = Vec::new();
    let mut i: usize = 0;
    assert(views(out@) =~= Seq::<EntryModel>::empty());
    while i < methods.len()
        invariant
            i <= methods@.len(),
            overloads(*t, name@, methods@, i as int) == Ok::<Seq<EntryModel>, TypeError>(
                views(out@),
            ),
        decreases methods.len() - i,
    {
        match method_entry(t, name, &methods[i]) {
            Ok(e) => {
                push_entry(&mut out, e);
            },
            Err(e) => {
                proof {
                    lemma_overloads_err(*t, name@, methods@, i + 1, methods@.len() as int, e);
                }
                return Err(e);
            },
        }
        i = i + 1;
    }
    Ok(out)
}

proof fn lemma_overloads_err(
    t: TypeTable,
    name: Seq<char>,
    methods: Seq<MethodItem>,
    i: int,
    n: int,
    e: TypeError,
)
    requires
        0 < i <= n,
        overloads(t, name, methods, i) == Err::<Seq<EntryModel>, TypeError>(e),
    ensures
        overloads(t, name, methods, n) == Err::<Seq<EntryModel>, TypeError>(e),
    decreases n - i,
{
    if i < n {
        assert(overloads(t, name, methods, i + 1) == Err::<Seq<EntryModel>, TypeError>(e));
        lemma_overloads_err(t, name, methods, i + 1, n, e);
    }
}

fn base_entry(
    kind: EntryKind,
    ty: &Option<String>,
    attributes: MyFieldAttributes,
    offset: u32,
    details: Vec<String>,
) -> (r: ClassEntry)
    ensures
        r@ == (EntryModel {
            offset: Some(offset as u64),
            details: texts(details@),
            ..entry_of(kind, comparable_type(*ty), comparable_type(*ty), attributes)
        }),
{
    let mut e: ClassEntry = make_entry(kind, typename(ty), typename(ty), attributes);
    e.offset = Some(offset as u64);
    e.details = details;
    e
}

/// Appends the entries that a field stands for; on an error, nothing.
pub fn append_class_entry(t: &TypeTable, field: &FieldData, out: &mut Vec<ClassEntry>) -> (r: Result<
    (),
    TypeError,
>)
    ensures
        match r {
            Ok(_) => entries_of(*t, *field) matches Ok(more) && views(final(out)@) == views(
                old(out)@,
            ) + more,
            Err(e) => entries_of(*t, *field) == Err::<Seq<EntryModel>, TypeError>(e)
                && final(out)@ == old(out)@,
        },
{
    assert(views(out@) + Seq::<EntryModel>::empty() =~= views(out@));
    match field {
        FieldData::Member { name, ty, attributes, offset } => {
            let mut e: ClassEntry = make_entry(
                EntryKind::Field,
                name.clone(),
                typename(ty),
                *attributes,
            );
            e.offset = Some(*offset);
            push_entry(out, e);
            Ok(())
        },
        FieldData::StaticMember { name, ty, attributes } => {
            let e: ClassEntry = make_entry(
                EntryKind::StaticField,
                name.clone(),
                typename(ty),
                *attributes,
            );
            push_entry(out, e);
            Ok(())
        },
        FieldData::Nested { name, ty, attributes, index } => {
            let mut e: ClassEntry = make_entry(
                EntryKind::NestedType,
                name.clone(),
                typename(ty),
                *attributes,
            );
            e.details = nested_type_details(t, *index);
            push_entry(out, e);
            Ok(())
        },
        FieldData::BaseClass { ty, attributes, base_offset, kind } => {
            let mut details: Vec<String> = Vec::new();
            push_text(&mut details, cat2("kind=", kind.as_str()));
            assert(texts(details@) =~= seq!["kind="@ + kind@]);
            push_entry(out, base_entry(EntryKind::Base, ty, *attributes, *base_offset, details));
            Ok(())
        },
        FieldData::VirtualBaseClass {
            ty,
            attributes,
            base_pointer_offset,
            direct,
            pointer,
            virtual_base_offset,
        } => {
            let mut details: Vec<String> = Vec::new();
            push_text(&mut details, cat2("direct=", show_bool(*direct)));
            push_text(&mut details, cat2("base_pointer=", typename(pointer).as_str()));
            push_text(
                &mut details,
                cat2(
                    "virtual_base_offset=0x",
                    hexadecimal(*virtual_base_offset as u64).as_str(),
                ),
            );
            assert(texts(details@) =~= seq![
                "direct="@ + bool_text(*direct),
                "base_pointer="@ + comparable_type(*pointer),
                "virtual_base_offset=0x"@ + hex(*virtual_base_offset as nat),
            ]);
            push_entry(
                out,
                base_entry(EntryKind::VirtualBase, ty, *attributes, *base_pointer_offset, details),
            );
            Ok(())
        },
        FieldData::VirtualFunctionTablePointer { ty } => {
            let none: Vec<String> = Vec::new();
            let also_none: Vec<String> = Vec::new();
            assert(texts(none@) =~= Seq::<Seq<char>>::empty());
            assert(texts(also_none@) =~= Seq::<Seq<char>>::empty());
            let e: ClassEntry = ClassEntry {
                kind: EntryKind::VftablePointer,
                name: owned("<vftable>"),
                typename: typename(ty),
                access: Access::Unspecified,
                offset: None,
                argument_count: None,
                attributes: none,
                raw_attributes: owned(""),
                vtable_offset: None,
                details: also_none,
            };
            push_entry(out, e);
            Ok(())
        },
        FieldData::Method { name, item } => match method_entry(t, name, item) {
            Ok(e) => {
                push_entry(out, e);
                Ok(())
            },
            Err(e) => Err(e),
        },
        FieldData::OverloadedMethod { name, method_list } => match t.find(*method_list) {
            None => Err(TypeError::Missing { index: *method_list }),
            Some(TypeRecord::Unparsed) => Err(TypeError::Unparsed { index: *method_list }),
            Some(TypeRecord::MethodList { methods }) => match overload_entries(t, name, methods) {
                Ok(v) => {
                    let mut more: Vec<ClassEntry> = v;
                    let ghost before = out@;
                    let ghost added = more@;
                    out.append(&mut more);
                    assert(views(out@) =~= views(before) + views(added));
                    Ok(())
                },
                Err(e) => Err(e),
            },
            Some(_) => Ok(()),
        },
        FieldData::Enumerate { .. } => Ok(()),
        FieldData::Other => Ok(()),
    }
}

proof fn lemma_entries_upto_err(t: TypeTable, fields: Seq<Field>, i: int, n: int, e: TypeError)
    requires
        0 < i <= n,
        entries_upto(t, fields, i) == Err::<Seq<EntryModel>, TypeError>(e),
    ensures
        entries_upto(t, fields, n) == Err::<Seq<EntryModel>, TypeError>(e),
    decreases n - i,
{
    if i < n {
        assert(entries_upto(t, fields, i + 1) == Err::<Seq<EntryModel>, TypeError>(e));
        lemma_entries_upto_err(t, fields, i + 1, n, e);
    }
}

proof fn lemma_entries_in_err(t: TypeTable, lists: Seq<u32>, i: int, n: int, e: TypeError)
    requires
        0 < i <= n,
        entries_in(t, lists, i) == Err::<Seq<EntryModel>, TypeError>(e),
    ensures
        entries_in(t, lists, n) == Err::<Seq<EntryModel>, TypeError>(e),
    decreases n - i,
{
    if i < n {
        assert(entries_in(t, lists, i + 1) == Err::<Seq<EntryModel>, TypeError>(e));
        lemma_entries_in_err(t, lists, i + 1, n, e);
    }
}

fn append_list(t: &TypeTable, list: u32, out: &mut Vec<ClassEntry>) -> (r: Result<(), TypeError>)
    ensures
        ({
            let f = t.fields_at(list);
            match r {
                Ok(_) => entries_upto(*t, f, f.len() as int) matches Ok(more) && views(final(out)@)
                    == views(old(out)@) + more,
                Err(e) => entries_upto(*t, f, f.len() as int) == Err::<Seq<EntryModel>, TypeError>(
                    e,
                ),
            }
        }),
{
    let ghost start = views(out@);
    assert(start + Seq::<EntryModel>::empty() =~= start);
    if let Some(TypeRecord::FieldList { fields, .. }) = t.find(list) {
        let ghost f = fields@;
        let mut i: usize = 0;
        while i < fields.len()
            invariant
                f == fields@,
                f == t.fields_at(list),
                i <= f.len(),
                entries_upto(*t, f, i as int) matches Ok(more) && views(out@) == start + more,
            decreases fields.len() - i,
        {
            let ghost before = views(out@);
            let ghost more = entries_upto(*t, f, i as int)->Ok_0;
            match append_class_entry(t, &fields[i].data, out) {
                Ok(_) => {
                    let ghost next = entries_of(*t, f[i as int].data)->Ok_0;
                    assert(views(out@) =~= start + (more + next));
                },
                Err(e) => {
                    proof {
                        lemma_entries_upto_err(*t, f, i + 1, f.len() as int, e);
                    }
                    return Err(e);
                },
            }
            i = i + 1;
        }
    }
    Ok(())
}

/// The entries of a class whose fields begin with the list `first`, list by list;
/// no list is read twice.
pub fn walk_class_fields(t: &TypeTable, first: u32) -> (r: Result<Vec<ClassEntry>, TypeError>)
    ensures
        match r {
            Ok(v) => class_entries(*t, first) == Ok::<Seq<EntryModel>, TypeError>(views(v@)),
            Err(e) => class_entries(*t, first) == Err::<Seq<EntryModel>, TypeError>(e),
        },
{
    let (lists, end): (Vec<u32>, ChainEnd) = t.chain(first);
    let mut out: Vec<ClassEntry> = Vec::new();
    let mut i: usize = 0;
    assert(views(out@) =~= Seq::<EntryModel>::empty());
    while i < lists.len()
        invariant
            (lists@, end) == t.chain_of(first),
            i <= lists@.len(),
            entries_in(*t, lists@, i as int) == Ok::<Seq<EntryModel>, TypeError>(views(out@)),
        decreases lists.len() - i,
    {
        match append_list(t, lists[i], &mut out) {
            Ok(_) => {},
            Err(e) => {
                proof {
                    lemma_entries_in_err(*t, lists@, i + 1, lists@.len() as int, e);
                }
                return Err(e);
            },
        }
        i = i + 1;
    }
    match end {
        ChainEnd::Missing { index } => Err(TypeError::Missing { index }),
        ChainEnd::Unparsed { index } => Err(TypeError::Unparsed { index }),
        _ => Ok(out),
    }
}

fn load_class(t: &TypeTable, c: &ClassRecord) -> (r: Result<ClassModel, TypeError>)
    ensures
        match r {
            Ok(m) => class_of(*t, *c) == Ok::<ClassView, TypeError>(m@),
            Err(e) => class_of(*t, *c) == Err::<ClassView, TypeError>(e),
        },
{
    let entries: Vec<ClassEntry> = match c.fields {
        Some(first) => match walk_class_fields(t, first) {
            Ok(v) => v,
            Err(e) => {
                return Err(e);
            },
        },
        None => Vec::new(),
    };
    assert(c.fields is None ==> views(entries@) =~= Seq::<EntryModel>::empty());
    Ok(
        ClassModel {
            name: c.name.clone(),
            kind: c.kind,
            size: c.size,
            properties: c.properties.clone(),
            entries,
        },
    )
}

// ---------------------------------------------------------------------------
// Groups
// ---------------------------------------------------------------------------

/// Whether two lists hold the same texts.
pub fn same_texts(a: &Vec<String>, b: &Vec<String>) -> (r: bool)
    ensures
        r == (texts(a@) == texts(b@)),
{
    if a.len() != b.len() {
        assert(texts(a@).len() != texts(b@).len());
        return false;
    }
    let mut i: usize = 0;
    while i < a.len()
        invariant
            a@.len() == b@.len(),
            i <= a@.len(),
            forall|k: int| 0 <= k < i ==> (#[trigger] a@[k])@ == b@[k]@,
        decreases a.len() - i,
    {
        if !(a[i] == b[i]) {
            assert(texts(a@)[i as int] != texts(b@)[i as int]);
            return false;
        }
        i = i + 1;
    }
    assert(texts(a@) =~= texts(b@));
    true
}

fn same_entry(a: &ClassEntry, b: &ClassEntry) -> (r: bool)
    ensures
        r == (a@ == b@),
{
    a.kind == b.kind && a.name == b.name && a.typename == b.typename && a.access == b.access
        && a.offset == b.offset && a.argument_count == b.argument_count && same_texts(
        &a.attributes,
        &b.attributes,
    ) && a.raw_attributes == b.raw_attributes && a.vtable_offset == b.vtable_offset && same_texts(
        &a.details,
        &b.details,
    )
}

fn same_class(a: &ClassModel, b: &ClassModel) -> (r: bool)
    ensures
        r == (a@ == b@),
{
    if !(a.name == b.name) || a.kind != b.kind || a.size != b.size || !(a.properties
        == b.properties) || a.entries.len() != b.entries.len() {
        assert(a.entries@.len() != b.entries@.len() ==> a@.entries.len() != b@.entries.len());
        return false;
    }
    let mut i: usize = 0;
    while i < a.entries.len()
        invariant
            a.entries@.len() == b.entries@.len(),
            i <= a.entries@.len(),
            forall|k: int| 0 <= k < i ==> (#[trigger] a.entries@[k])@ == b.entries@[k]@,
        decreases a.entries.len() - i,
    {
        if !same_entry(&a.entries[i], &b.entries[i]) {
            assert(a@.entries[i as int] != b@.entries[i as int]);
            return false;
        }
        i = i + 1;
    }
    assert(a@.entries =~= b@.entries);
    true
}

fn has_variant(v: &Vec<ClassModel>, c: &ClassModel) -> (r: bool)
    ensures
        r == views(v@).contains(c@),
{
    let mut i: usize = 0;
    while i < v.len()
        invariant
            i <= v@.len(),
            forall|k: int| 0 <= k < i ==> (#[trigger] v@[k])@ != c@,
        decreases v.len() - i,
    {
        if same_class(&v[i], c) {
            assert(views(v@)[i as int] == c@);
            return true;
        }
        i = i + 1;
    }
    assert(forall|k: int| 0 <= k < v@.len() ==> views(v@)[k] == v@[k]@);
    false
}

proof fn lemma_put_class_at(s: Seq<GroupModel>, key: Seq<char>, c: ClassView, p: int)
    requires
        0 <= p <= s.len(),
        forall|k: int| p <= k < s.len() ==> (#[trigger] s[k]).key != key && !text_le(s[k].key, key),
        p == 0 || s[p - 1].key == key || text_le(s[p - 1].key, key),
    ensures
        put_class(s, key, c) == if p > 0 && s[p - 1].key == key {
            if s[p - 1].variants.contains(c) {
                s
            } else {
                s.update(p - 1, GroupModel { key, variants: s[p - 1].variants.push(c) })
            }
        } else {
            s.insert(p, GroupModel { key, variants: seq![c] })
        },
    decreases s.len(),
{
    let fresh = GroupModel { key, variants: seq![c] };
    if p == s.len() {
        if p > 0 && s[p - 1].key == key {
            let g = GroupModel { key, variants: s[p - 1].variants.push(c) };
            assert(s.drop_last().push(g) =~= s.update(p - 1, g));
        } else if p > 0 {
            assert(s.push(fresh) =~= s.insert(p, fresh));
        } else {
            assert(seq![fresh] =~= s.insert(0, fresh));
        }
    } else {
        assert(s[s.len() - 1].key != key && !text_le(s[s.len() - 1].key, key));
        lemma_put_class_at(s.drop_last(), key, c, p);
        if p > 0 && s[p - 1].key == key {
            let g = GroupModel { key, variants: s[p - 1].variants.push(c) };
            assert(s.drop_last().update(p - 1, g).push(s.last()) =~= s.update(p - 1, g));
            assert(s.drop_last().push(s.last()) =~= s);
        } else {
            assert(s.drop_last().insert(p, fresh).push(s.last()) =~= s.insert(p, fresh));
        }
    }
}

fn insert_class(v: &mut Vec<ClassGroup>, key: String, c: ClassModel)
    ensures
        views(final(v)@) == put_class(views(old(v)@), key@, c@),
{
    let ghost s = views(v@);
    let ghost m = c@;
    let ghost n = key@;
    let mut p: usize = v.len();
    while p > 0 && !(v[p - 1].key == key) && !is_le(v[p - 1].key.as_str(), key.as_str())
        invariant
            p <= v@.len(),
            s == views(v@),
            n == key@,
            forall|k: int| p <= k < s.len() ==> (#[trigger] s[k]).key != n && !text_le(s[k].key, n),
        decreases p,
    {
        assert(s[p - 1] == v@[p - 1]@);
        p = p - 1;
    }
    proof {
        if p > 0 {
            assert(s[p - 1] == v@[p - 1]@);
        }
        lemma_put_class_at(s, n, m, p as int);
    }
    if p > 0 && v[p - 1].key == key {
        if !has_variant(&v[p - 1].variants, &c) {
            let mut g: ClassGroup = v.remove(p - 1);
            let ghost before = g.variants@;
            g.variants.push(c);
            assert(views(g.variants@) =~= views(before).push(m));
            let ghost model = g@;
            v.insert(p - 1, g);
            assert(views(v@) =~= s.update(p - 1, model));
        }
    } else {
        let mut variants: Vec<ClassModel> = Vec::new();
        variants.push(c);
        assert(views(variants@) =~= seq![m]);
        let g: ClassGroup = ClassGroup { key, variants };
        let ghost model = g@;
        v.insert(p, g);
        assert(views(v@) =~= s.insert(p as int, model));
    }
}

proof fn lemma_classes_err(t: TypeTable, filter: Option<Seq<char>>, i: int, n: int, e: TypeError)
    requires
        0 < i <= n,
        classes_upto(t, filter, i) == Err::<Seq<GroupModel>, TypeError>(e),
    ensures
        classes_upto(t, filter, n) == Err::<Seq<GroupModel>, TypeError>(e),
    decreases n - i,
{
    if i < n {
        assert(classes_upto(t, filter, i + 1) == Err::<Seq<GroupModel>, TypeError>(e));
        lemma_classes_err(t, filter, i + 1, n, e);
    }
}

/// The classes that a database declares in full, by the names that they compare
/// under, in the order of these; with a filter, only those under that name.
/// Declarations that are the same are kept once.
pub fn load_classes(t: &TypeTable, filter: Option<&str>) -> (r: Result<Vec<ClassGroup>, TypeError>)
    ensures
        ({
            let wanted = match filter {
                Some(f) => Some(f@),
                None => None,
            };
            match r {
                Ok(v) => classes_upto(*t, wanted, t.records@.len() as int) == Ok::<
                    Seq<GroupModel>,
                    TypeError,
                >(views(v@)),
                Err(e) => classes_upto(*t, wanted, t.records@.len() as int) == Err::<
                    Seq<GroupModel>,
                    TypeError,
                >(e),
            }
        }),
{
    let ghost wanted = match filter {
        Some(f) => Some(f@),
        None => None,
    };
    let mut out: Vec<ClassGroup> = Vec::new();
    let mut i: usize = 0;
    assert(views(out@) =~= Seq::<GroupModel>::empty());
    while i < t.records.len()
        invariant
            wanted == (match filter {
                Some(f) => Some(f@),
                None => None,
            }),
            i <= t.records@.len(),
            classes_upto(*t, wanted, i as int) == Ok::<Seq<GroupModel>, TypeError>(views(out@)),
        decreases t.records.len() - i,
    {
        if let TypeRecord::Class(c) = &t.records[i] {
            if !c.forward_reference {
                let key: String = normalize_cross_pdb_type(to_lowercase(c.name.as_str()).as_str());
                let take: bool = match filter {
                    Some(f) => same(key.as_str(), f),
                    None => true,
                };
                if take {
                    match load_class(t, c) {
                        Ok(m) => {
                            insert_class(&mut out, key, m);
                        },
                        Err(e) => {
                            proof {
                                lemma_classes_err(*t, wanted, i + 1, t.records@.len() as int, e);
                            }
                            return Err(e);
                        },
                    }
                }
            }
        }
        i = i + 1;
    }
    Ok(out)
}

} // verus!
