//! How what is compared is taken from a build.

use crate::divergence_model::{entry, enum_name, insert_class, insert_enum, settled, settled_enum,
    with_entry, ClassModel, ClassShape, EnumModel, EnumShape, FieldModel, FieldShape, MethodModel,
    MethodShape, SideModel, SideShape};
use crate::header_build::{name_of_use, use_name};
use crate::header_model::{HeaderError, TypeUse, Variant};
use crate::lcs::views;
use crate::order::{rank_of, sort_stable, sorted_by, text_le};
use crate::pieces::cat2;
use crate::primitive::{is_primitive, names_primitive};
use crate::search::{begins, contains, find, has_part, starts_with};
use crate::text::{lowercase, owned, texts, to_lowercase};
use crate::topology_compare::{class_kind, class_kind_name};
use crate::topology_text::{clean_type_indexes, indexes_cleaned};
use crate::type_builder::{namespace_of, Namespace, NamespaceModel};
use crate::type_table::ClassKind;
use vstd::prelude::*;

verus! {

// ---------------------------------------------------------------------------
// What is asked for
// ---------------------------------------------------------------------------

/// What is compared and what is told.
pub struct Config {
    /// Names and paths that hold one of these, in small letters, are left out.
    pub skip: Vec<String>,
    /// Whether types of libraries are compared too.
    pub include_external: bool,
    pub do_headers: bool,
    pub do_sources: bool,
    /// Whether the types and files of one side are listed by name.
    pub list_presence: bool,
    /// Whether the functions of one side are listed by name.
    pub list_presence_fns: bool,
    /// Whether the numbers of entries in the line tables are compared. They vary with how
    /// lines are packed and code is optimized.
    pub compare_raw_line_table_counts: bool,
}

/// Whether a name in small letters holds one of the first `n` patterns.
pub open spec fn holds_any(lowered: Seq<char>, skip: Seq<Seq<char>>, n: int) -> bool
    decreases n,
{
    n > 0 && (holds_any(lowered, skip, n - 1) || contains(lowered, skip[n - 1]))
}

/// Whether a name is left out.
pub open spec fn is_skipped(name: Seq<char>, skip: Seq<Seq<char>>) -> bool {
    skip.len() > 0 && holds_any(lowercase(name), skip, skip.len() as int)
}

/// Whether a name begins like that of a library's type.
pub open spec fn is_external(name: Seq<char>) -> bool {
    starts_with(name, "std::"@) || starts_with(name, "stlp_std::"@) || starts_with(
        name,
        "boost::"@,
    ) || starts_with(name, "eastl::"@) || starts_with(name, "stdext::"@) || starts_with(name, "__"@)
}

/// Whether a type is compared.
pub open spec fn is_included(name: Seq<char>, cfg: Config) -> bool {
    (cfg.include_external || !is_external(name)) && !is_skipped(name, texts(cfg.skip@))
}

/// Whether a name in small letters holds one of the patterns.
pub fn skipped_lowered(lowered: &str, cfg: &Config) -> (r: bool)
    ensures
        r == holds_any(lowered@, texts(cfg.skip@), cfg.skip@.len() as int),
{
    let mut i: usize = 0;
    let mut held: bool = false;
    while i < cfg.skip.len()
        invariant
            i <= cfg.skip@.len(),
            held == holds_any(lowered@, texts(cfg.skip@), i as int),
        decreases cfg.skip.len() - i,
    {
        assert(texts(cfg.skip@)[i as int] == cfg.skip@[i as int]@);
        if has_part(lowered, cfg.skip[i].as_str()) {
            held = true;
        }
        i = i + 1;
    }
    held
}

/// Whether a name is left out.
pub fn skipped(name: &str, cfg: &Config) -> (r: bool)
    ensures
        r == is_skipped(name@, texts(cfg.skip@)),
{
    if cfg.skip.len() == 0 {
        return false;
    }
    skipped_lowered(to_lowercase(name).as_str(), cfg)
}

/// Whether a name begins like that of a library's type.
pub fn is_external_name(name: &str) -> (r: bool)
    ensures
        r == is_external(name@),
{
    begins(name, "std::") || begins(name, "stlp_std::") || begins(name, "boost::") || begins(
        name,
        "eastl::",
    ) || begins(name, "stdext::") || begins(name, "__")
}

/// Whether a type is compared.
pub fn include_type(qualified_name: &str, cfg: &Config) -> (r: bool)
    ensures
        r == is_included(qualified_name@, *cfg),
{
    if !cfg.include_external && is_external_name(qualified_name) {
        return false;
    }
    !skipped(qualified_name, cfg)
}

/// A type's name without the numbers of types, which differ between databases.
pub fn clean_type(s: &str) -> (r: String)
    ensures
        r@ == indexes_cleaned(s@),
{
    clean_type_indexes(s)
}

// ---------------------------------------------------------------------------
// Records
// ---------------------------------------------------------------------------

/// One of several methods of a name.
pub struct OverloadSig {
    /// The signature, as the type formatter makes it.
    pub signature: Option<String>,
    pub access: u8,
}

/// The list of the methods of a name.
pub enum OverloadList {
    Methods(Vec<OverloadSig>),
    NotAList,
    Unreadable,
}

/// A field of a type.
pub enum TypeItem {
    Member { ty: TypeUse, name: String, offset: u64, access: u8 },
    BaseClass { ty: TypeUse, offset: u64, access: u8 },
    VirtualBaseClass { ty: TypeUse, offset: u64, access: u8 },
    Method { name: String, signature: Option<String>, access: u8 },
    Overloaded { name: String, list: OverloadList },
    Enumerate { name: String, value: Variant },
    Other,
}

/// A type record.
pub enum SideRecord {
    Class { name: String, kind: ClassKind, size: u64, forward: bool, class_fields: Option<u32> },
    Union { name: String, size: u64, forward: bool, nested: bool, count: u16, union_fields: u32 },
    Enumeration { name: String, forward: bool, nested: bool, underlying: TypeUse, values: u32 },
    FieldList { items: Vec<TypeItem>, continuation: Option<u32> },
    Other,
    Unparsed,
}

/// The type records of a database. The record at `i` has the index `first + i`; lower
/// indices are primitive types, as far as they stand for any.
pub struct SideTable {
    pub first: u32,
    pub records: Vec<SideRecord>,
}

impl SideTable {
    /// The record at an index.
    pub open spec fn at(self, index: u32) -> Option<SideRecord> {
        if self.first <= index < self.first + self.records@.len() {
            Some(self.records@[index - self.first])
        } else {
            None
        }
    }

    fn find(&self, index: u32) -> (r: Option<&SideRecord>)
        ensures
            match r {
                Some(x) => self.at(index) == Some(*x),
                None => self.at(index) is None,
            },
    {
        if index >= self.first && ((index - self.first) as u64) < self.records.len() as u64 {
            Some(&self.records[(index - self.first) as usize])
        } else {
            None
        }
    }
}

/// The name of a type inside a namespace, without the numbers of types.
pub open spec fn item_type(u: TypeUse, ns: NamespaceModel) -> Result<Seq<char>, HeaderError> {
    match use_name(u, ns) {
        Ok(s) => Ok(indexes_cleaned(s)),
        Err(e) => Err(e),
    }
}

/// A class with one more member.
pub open spec fn with_member(c: ClassShape, f: FieldShape) -> ClassShape {
    ClassShape { fields: c.fields.push(f), ..c }
}

/// Methods with one more; those that the compiler made are left out.
pub open spec fn with_signature(
    m: Seq<MethodShape>,
    name: Seq<char>,
    signature: Option<String>,
    access: u8,
) -> Result<Seq<MethodShape>, HeaderError> {
    if starts_with(name, "__"@) {
        Ok(m)
    } else {
        match signature {
            Some(s) => Ok(m.push(MethodShape { sig: indexes_cleaned(s@), access })),
            None => Err(HeaderError::Skip),
        }
    }
}

/// Methods with the first `n` of a list.
pub open spec fn with_signatures(
    m: Seq<MethodShape>,
    name: Seq<char>,
    list: Seq<OverloadSig>,
    n: int,
) -> Result<Seq<MethodShape>, HeaderError>
    decreases n,
{
    if n <= 0 {
        Ok(m)
    } else {
        match with_signatures(m, name, list, n - 1) {
            Err(e) => Err(e),
            Ok(v) => with_signature(v, name, list[n - 1].signature, list[n - 1].access),
        }
    }
}

/// A class with what one of its fields tells. The methods of one name are put in the order
/// of their signatures, for the order in their list is not that of their declarations.
#[verifier::opaque]
pub open spec fn with_item(c: ClassShape, item: TypeItem, ns: NamespaceModel) -> Result<
    ClassShape,
    HeaderError,
> {
    match item {
        TypeItem::Member { ty, name, offset, access } => match item_type(ty, ns) {
            Err(e) => Err(e),
            Ok(t) => Ok(
                with_member(c, FieldShape { offset, typename: t, name: name@, access }),
            ),
        },
        TypeItem::BaseClass { ty, offset, access } => match item_type(ty, ns) {
            Err(e) => Err(e),
            Ok(t) => Ok(
                with_member(c, FieldShape { offset, typename: t, name: "<base> "@ + t, access }),
            ),
        },
        TypeItem::VirtualBaseClass { ty, offset, access } => match item_type(ty, ns) {
            Err(e) => Err(e),
            Ok(t) => Ok(
                with_member(c, FieldShape { offset, typename: t, name: "<vbase> "@ + t, access }),
            ),
        },
        TypeItem::Method { name, signature, access } => match with_signature(
            c.methods,
            name@,
            signature,
            access,
        ) {
            Err(e) => Err(e),
            Ok(m) => Ok(ClassShape { methods: m, ..c }),
        },
        TypeItem::Overloaded { name, list } => match list {
            OverloadList::Unreadable => Err(HeaderError::Skip),
            OverloadList::NotAList => Ok(c),
            OverloadList::Methods(v) => match with_signatures(
                Seq::empty(),
                name@,
                v@,
                v@.len() as int,
            ) {
                Err(e) => Err(e),
                Ok(m) => Ok(
                    ClassShape {
                        methods: c.methods + sorted_by(
                            m,
                            |a: MethodShape, b: MethodShape| text_le(a.sig, b.sig),
                        ),
                        ..c
                    },
                ),
            },
        },
        _ => Ok(c),
    }
}

/// A class with what the first `n` of its fields tell.
pub open spec fn with_items(c: ClassShape, items: Seq<TypeItem>, ns: NamespaceModel, n: int) -> Result<
    ClassShape,
    HeaderError,
>
    decreases n,
{
    if n <= 0 {
        Ok(c)
    } else {
        match with_items(c, items, ns, n - 1) {
            Err(e) => Err(e),
            Ok(d) => with_item(d, items[n - 1], ns),
        }
    }
}

/// A class with what a list of fields and up to `left` lists that continue it tell. `Skip`
/// where they cannot be read, `Malformed` where there are more.
pub open spec fn with_item_lists(
    t: SideTable,
    c: ClassShape,
    list: u32,
    ns: NamespaceModel,
    left: nat,
) -> Result<ClassShape, HeaderError>
    decreases left,
{
    match t.at(list) {
        Some(SideRecord::FieldList { items, continuation }) => match with_items(
            c,
            items@,
            ns,
            items@.len() as int,
        ) {
            Err(e) => Err(e),
            Ok(d) => match continuation {
                None => Ok(d),
                Some(next) => if left == 0 {
                    Err(HeaderError::Malformed)
                } else {
                    with_item_lists(t, d, next, ns, (left - 1) as nat)
                },
            },
        },
        Some(SideRecord::Unparsed) => Err(HeaderError::Skip),
        Some(_) => Ok(c),
        None => if list < t.first && is_primitive(list) {
            Ok(c)
        } else {
            Err(HeaderError::Skip)
        },
    }
}

/// A class with what a list of fields and the lists that continue it tell. `Skip` where
/// they cannot be read, `Malformed` where they go round: where more follow than there are
/// records.
pub open spec fn with_item_list(
    t: SideTable,
    c: ClassShape,
    list: u32,
    ns: NamespaceModel,
) -> Result<ClassShape, HeaderError> {
    with_item_lists(t, c, list, ns, t.records@.len())
}

proof fn lemma_signatures_err(
    m: Seq<MethodShape>,
    name: Seq<char>,
    list: Seq<OverloadSig>,
    i: int,
    n: int,
)
    requires
        0 <= i <= n,
        with_signatures(m, name, list, i) is Err,
    ensures
        with_signatures(m, name, list, n) == with_signatures(m, name, list, i),
    decreases n,
{
    if i < n {
        lemma_signatures_err(m, name, list, i, n - 1);
    }
}

proof fn lemma_items_err(c: ClassShape, items: Seq<TypeItem>, ns: NamespaceModel, i: int, n: int)
    requires
        0 <= i <= n,
        with_items(c, items, ns, i) is Err,
    ensures
        with_items(c, items, ns, n) == with_items(c, items, ns, i),
    decreases n,
{
    if i < n {
        lemma_items_err(c, items, ns, i, n - 1);
    }
}

fn type_of_item(u: &TypeUse, ns: &Namespace) -> (r: Result<String, HeaderError>)
    ensures
        match r {
            Ok(s) => item_type(*u, ns@) == Ok::<Seq<char>, HeaderError>(s@),
            Err(e) => item_type(*u, ns@) == Err::<Seq<char>, HeaderError>(e),
        },
{
    match name_of_use(u, ns) {
        Ok(t) => Ok(clean_type(t.0.as_str())),
        Err(e) => Err(e),
    }
}

fn add_signature(
    methods: &mut Vec<MethodModel>,
    name: &str,
    signature: &Option<String>,
    access: u8,
) -> (r: Result<(), HeaderError>)
    ensures
        match r {
            Ok(_) => with_signature(views(old(methods)@), name@, *signature, access) == Ok::<
                Seq<MethodShape>,
                HeaderError,
            >(views(final(methods)@)),
            Err(e) => with_signature(views(old(methods)@), name@, *signature, access) == Err::<
                Seq<MethodShape>,
                HeaderError,
            >(e),
        },
{
    if begins(name, "__") {
        return Ok(());
    }
    match signature {
        Some(s) => {
            let one: MethodModel = MethodModel { sig: clean_type(s.as_str()), access };
            let ghost before = methods@;
            let ghost m = one@;
            methods.push(one);
            assert(views(methods@) =~= views(before).push(m));
            Ok(())
        },
        None => Err(HeaderError::Skip),
    }
}

fn overloads(name: &str, list: &Vec<OverloadSig>) -> (r: Result<Vec<MethodModel>, HeaderError>)
    ensures
        match r {
            Ok(v) => with_signatures(Seq::empty(), name@, list@, list@.len() as int) == Ok::<
                Seq<MethodShape>,
                HeaderError,
            >(views(v@)),
            Err(e) => with_signatures(Seq::empty(), name@, list@, list@.len() as int) == Err::<
                Seq<MethodShape>,
                HeaderError,
            >(e),
        },
{
    let mut v: Vec<MethodModel> = Vec::new();
    assert(views(v@) =~= Seq::<MethodShape>::empty());
    let mut i: usize = 0;
    while i < list.len()
        invariant
            i <= list@.len(),
            with_signatures(Seq::empty(), name@, list@, i as int) == Ok::<
                Seq<MethodShape>,
                HeaderError,
            >(views(v@)),
        decreases list.len() - i,
    {
        match add_signature(&mut v, name, &list[i].signature, list[i].access) {
            Ok(_) => {},
            Err(e) => {
                proof {
                    lemma_signatures_err(
                        Seq::empty(),
                        name@,
                        list@,
                        i + 1,
                        list@.len() as int,
                    );
                }
                return Err(e);
            },
        }
        i = i + 1;
    }
    Ok(v)
}

fn append_methods(out: &mut Vec<MethodModel>, run: Vec<MethodModel>)
    ensures
        views(final(out)@) == views(old(out)@) + views(run@),
{
    let ghost before = out@;
    let ghost more = run@;
    let mut rest: Vec<MethodModel> = run;
    out.append(&mut rest);
    assert(out@ =~= before + more);
    assert(views(out@) =~= views(before) + views(more));
}

fn push_member(
    class: &mut ClassModel,
    offset: u64,
    typename: String,
    name: String,
    access: u8,
)
    ensures
        final(class)@ == with_member(
            old(class)@,
            (FieldShape { offset, typename: typename@, name: name@, access }),
        ),
{
    let one: FieldModel = FieldModel { offset, typename, name, access };
    let ghost before = class.fields@;
    let ghost m = one@;
    class.fields.push(one);
    assert(views(class.fields@) =~= views(before).push(m));
}

fn handle_field(class: &mut ClassModel, item: &TypeItem, ns: &Namespace) -> (r: Result<
    (),
    HeaderError,
>)
    ensures
        match r {
            Ok(_) => with_item(old(class)@, *item, ns@) == Ok::<ClassShape, HeaderError>(
                final(class)@,
            ),
            Err(e) => with_item(old(class)@, *item, ns@) == Err::<ClassShape, HeaderError>(e),
        },
{
    reveal(with_item);
    match item {
        TypeItem::Member { ty, name, offset, access } => match type_of_item(ty, ns) {
            Err(e) => Err(e),
            Ok(t) => {
                push_member(class, *offset, t, owned(name.as_str()), *access);
                Ok(())
            },
        },
        TypeItem::BaseClass { ty, offset, access } => match type_of_item(ty, ns) {
            Err(e) => Err(e),
            Ok(t) => {
                let name: String = cat2("<base> ", t.as_str());
                push_member(class, *offset, t, name, *access);
                Ok(())
            },
        },
        TypeItem::VirtualBaseClass { ty, offset, access } => match type_of_item(ty, ns) {
            Err(e) => Err(e),
            Ok(t) => {
                let name: String = cat2("<vbase> ", t.as_str());
                push_member(class, *offset, t, name, *access);
                Ok(())
            },
        },
        TypeItem::Method { name, signature, access } => add_signature(
            &mut class.methods,
            name.as_str(),
            signature,
            *access,
        ),
        TypeItem::Overloaded { name, list } => match list {
            OverloadList::Unreadable => Err(HeaderError::Skip),
            OverloadList::NotAList => Ok(()),
            OverloadList::Methods(v) => match overloads(name.as_str(), v) {
                Err(e) => Err(e),
                Ok(m) => {
                    let sorted: Vec<MethodModel> = sort_stable(m);
                    assert(rank_of::<MethodModel>() =~= (|a: MethodShape, b: MethodShape|
                        text_le(a.sig, b.sig)));
                    append_methods(&mut class.methods, sorted);
                    Ok(())
                },
            },
        },
        _ => Ok(()),
    }
}

fn walk_items(class: &mut ClassModel, items: &Vec<TypeItem>, ns: &Namespace) -> (r: Result<
    (),
    HeaderError,
>)
    ensures
        match r {
            Ok(_) => with_items(old(class)@, items@, ns@, items@.len() as int) == Ok::<
                ClassShape,
                HeaderError,
            >(final(class)@),
            Err(e) => with_items(old(class)@, items@, ns@, items@.len() as int) == Err::<
                ClassShape,
                HeaderError,
            >(e),
        },
{
    let ghost start = class@;
    let mut i: usize = 0;
    while i < items.len()
        invariant
            start == old(class)@,
            i <= items@.len(),
            with_items(start, items@, ns@, i as int) == Ok::<ClassShape, HeaderError>(class@),
        decreases items.len() - i,
    {
        match handle_field(class, &items[i], ns) {
            Ok(_) => {},
            Err(e) => {
                proof {
                    lemma_items_err(start, items@, ns@, i + 1, items@.len() as int);
                }
                return Err(e);
            },
        }
        i = i + 1;
    }
    Ok(())
}

fn walk_fields(
    t: &SideTable,
    class: &mut ClassModel,
    list: u32,
    ns: &Namespace,
    left: usize,
) -> (r: Result<(), HeaderError>)
    ensures
        match r {
            Ok(_) => with_item_lists(*t, old(class)@, list, ns@, left as nat) == Ok::<
                ClassShape,
                HeaderError,
            >(final(class)@),
            Err(e) => with_item_lists(*t, old(class)@, list, ns@, left as nat) == Err::<
                ClassShape,
                HeaderError,
            >(e),
        },
    decreases left,
{
    match t.find(list) {
        Some(SideRecord::FieldList { items, continuation }) => {
            match walk_items(class, items, ns) {
                Ok(_) => {},
                Err(e) => {
                    return Err(e);
                },
            }
            match continuation {
                None => Ok(()),
                Some(next) => if left == 0 {
                    Err(HeaderError::Malformed)
                } else {
                    walk_fields(t, class, *next, ns, left - 1)
                },
            }
        },
        Some(SideRecord::Unparsed) => Err(HeaderError::Skip),
        Some(_) => Ok(()),
        None => if list < t.first && names_primitive(list) {
            Ok(())
        } else {
            Err(HeaderError::Skip)
        },
    }
}

// ---------------------------------------------------------------------------
// Enumerations
// ---------------------------------------------------------------------------

/// Values with those among the first `n` fields.
pub open spec fn with_values(v: Seq<(Seq<char>, i64)>, items: Seq<TypeItem>, n: int) -> Seq<
    (Seq<char>, i64),
>
    decreases n,
{
    if n <= 0 {
        v
    } else {
        match items[n - 1] {
            TypeItem::Enumerate { name, value } => with_values(v, items, n - 1).push(
                (name@, value.number() as i64),
            ),
            _ => with_values(v, items, n - 1),
        }
    }
}

/// Values with those of a list and of up to `left` lists that continue it.
pub open spec fn with_value_lists(
    t: SideTable,
    v: Seq<(Seq<char>, i64)>,
    list: u32,
    left: nat,
) -> Result<Seq<(Seq<char>, i64)>, HeaderError>
    decreases left,
{
    match t.at(list) {
        Some(SideRecord::FieldList { items, continuation }) => {
            let w = with_values(v, items@, items@.len() as int);
            match continuation {
                None => Ok(w),
                Some(next) => if left == 0 {
                    Err(HeaderError::Malformed)
                } else {
                    with_value_lists(t, w, next, (left - 1) as nat)
                },
            }
        },
        Some(SideRecord::Unparsed) => Err(HeaderError::Skip),
        Some(_) => Ok(v),
        None => if list < t.first && is_primitive(list) {
            Ok(v)
        } else {
            Err(HeaderError::Skip)
        },
    }
}

/// Values with those of a list and of the lists that continue it. `Malformed` where they go
/// round: where more follow than there are records.
pub open spec fn with_value_list(t: SideTable, v: Seq<(Seq<char>, i64)>, list: u32) -> Result<
    Seq<(Seq<char>, i64)>,
    HeaderError,
> {
    with_value_lists(t, v, list, t.records@.len())
}

/// The value as a number with a sign.
pub fn variant_to_i64(value: Variant) -> (r: i64)
    ensures
        r == value.number(),
{
    let (negative, size): (bool, u64) = value.parts();
    if negative {
        (-(size as i128)) as i64
    } else {
        size as i64
    }
}

fn walk_enum(t: &SideTable, values: &mut Vec<(String, i64)>, list: u32, left: usize) -> (r: Result<
    (),
    HeaderError,
>)
    ensures
        match r {
            Ok(_) => with_value_lists(*t, views(old(values)@), list, left as nat) == Ok::<
                Seq<(Seq<char>, i64)>,
                HeaderError,
            >(views(final(values)@)),
            Err(e) => with_value_lists(*t, views(old(values)@), list, left as nat) == Err::<
                Seq<(Seq<char>, i64)>,
                HeaderError,
            >(e),
        },
    decreases left,
{
    match t.find(list) {
        Some(SideRecord::FieldList { items, continuation }) => {
            let ghost start = views(values@);
            let mut i: usize = 0;
            while i < items.len()
                invariant
                    start == views(old(values)@),
                    i <= items@.len(),
                    views(values@) == with_values(start, items@, i as int),
                decreases items.len() - i,
            {
                if let TypeItem::Enumerate { name, value } = &items[i] {
                    let one: (String, i64) = (owned(name.as_str()), variant_to_i64(*value));
                    let ghost before = values@;
                    let ghost m = (one.0@, one.1);
                    values.push(one);
                    assert(views(values@) =~= views(before).push(m));
                }
                i = i + 1;
            }
            match continuation {
                None => Ok(()),
                Some(next) => if left == 0 {
                    Err(HeaderError::Malformed)
                } else {
                    walk_enum(t, values, *next, left - 1)
                },
            }
        },
        Some(SideRecord::Unparsed) => Err(HeaderError::Skip),
        Some(_) => Ok(()),
        None => if list < t.first && names_primitive(list) {
            Ok(())
        } else {
            Err(HeaderError::Skip)
        },
    }
}

// ---------------------------------------------------------------------------
// The types of a build
// ---------------------------------------------------------------------------

/// A type that is still without fields.
pub open spec fn bare_class(kind: Seq<char>, size: u64) -> ClassShape {
    ClassShape { kind, size, fields: Seq::empty(), methods: Seq::empty() }
}

/// What a record tells.
pub enum Told {
    Class(Seq<char>, ClassShape),
    Enumeration(Seq<char>, EnumShape),
    Nothing,
}

/// A class that was gathered, as what a record tells; one that cannot be read tells
/// nothing.
pub open spec fn told_class(name: Seq<char>, c: Result<ClassShape, HeaderError>) -> Result<
    Told,
    HeaderError,
> {
    match c {
        Ok(c) => Ok(Told::Class(name, c)),
        Err(HeaderError::Skip) => Ok(Told::Nothing),
        Err(HeaderError::Malformed) => Err(HeaderError::Malformed),
    }
}

/// What a record tells. Types that are only announced, unions and enumerations inside
/// other types, and types that are left out tell nothing.
#[verifier::opaque]
pub open spec fn told(t: SideTable, r: SideRecord, cfg: Config) -> Result<Told, HeaderError> {
    match r {
        SideRecord::Class { name, kind, size, forward, class_fields } => if forward || !is_included(
            name@,
            cfg,
        ) {
            Ok(Told::Nothing)
        } else {
            let c = bare_class(class_kind_name(kind), size);
            match class_fields {
                None => Ok(Told::Class(name@, c)),
                Some(list) => told_class(name@, with_item_list(t, c, list, namespace_of(name@))),
            }
        },
        SideRecord::Union { name, size, forward, nested, count, union_fields } => if forward
            || nested || !is_included(name@, cfg) {
            Ok(Told::Nothing)
        } else {
            let c = bare_class("union"@, size);
            if count == 0 {
                Ok(Told::Class(name@, c))
            } else {
                told_class(name@, with_item_list(t, c, union_fields, namespace_of(name@)))
            }
        },
        SideRecord::Enumeration { name, forward, nested, underlying, values } => if forward
            || nested || !is_included(name@, cfg) {
            Ok(Told::Nothing)
        } else {
            match item_type(underlying, namespace_of(name@)) {
                Err(HeaderError::Skip) => Ok(Told::Nothing),
                Err(HeaderError::Malformed) => Err(HeaderError::Malformed),
                Ok(ty) => match with_value_list(t, Seq::empty(), values) {
                    Err(HeaderError::Skip) => Ok(Told::Nothing),
                    Err(HeaderError::Malformed) => Err(HeaderError::Malformed),
                    Ok(v) => Ok(
                        Told::Enumeration(name@, EnumShape { underlying: ty, values: v }),
                    ),
                },
            }
        },
        _ => Ok(Told::Nothing),
    }
}

/// A build with what a record tells.
pub open spec fn with_told(s: SideShape, x: Told) -> SideShape {
    match x {
        Told::Nothing => s,
        Told::Class(name, c) => SideShape {
            classes: with_entry(s.classes, name, settled(entry(s.classes, name), c)),
            ..s
        },
        Told::Enumeration(name, e) => SideShape {
            enums: with_entry(
                s.enums,
                enum_name(name, e),
                settled_enum(entry(s.enums, enum_name(name, e)), e),
            ),
            ..s
        },
    }
}

/// A build with what the first `n` records tell.
pub open spec fn with_types(t: SideTable, s: SideShape, cfg: Config, n: int) -> Result<
    SideShape,
    HeaderError,
>
    decreases n,
{
    if n <= 0 {
        Ok(s)
    } else {
        match with_types(t, s, cfg, n - 1) {
            Err(e) => Err(e),
            Ok(before) => match told(t, t.records@[n - 1], cfg) {
                Err(e) => Err(e),
                Ok(x) => Ok(with_told(before, x)),
            },
        }
    }
}

proof fn lemma_types_err(t: SideTable, s: SideShape, cfg: Config, i: int, n: int)
    requires
        0 <= i <= n,
        with_types(t, s, cfg, i) is Err,
    ensures
        with_types(t, s, cfg, n) == with_types(t, s, cfg, i),
    decreases n,
{
    if i < n {
        lemma_types_err(t, s, cfg, i, n - 1);
    }
}

fn add_class(
    t: &SideTable,
    out: &mut SideModel,
    name: &String,
    kind: &'static str,
    size: u64,
    list: Option<u32>,
) -> (r: Result<(), HeaderError>)
    requires
        old(out)@.wf(),
    ensures
        final(out)@.wf(),
        ({
            let c = bare_class(kind@, size);
            let x = match list {
                None => Ok(Told::Class(name@, c)),
                Some(l) => told_class(name@, with_item_list(*t, c, l, namespace_of(name@))),
            };
            match r {
                Ok(_) => x is Ok && final(out)@ == with_told(old(out)@, x->Ok_0),
                Err(e) => x == Err::<Told, HeaderError>(e),
            }
        }),
{
    let ns: Namespace = Namespace::get_from_class_name_impl(name.as_str());
    let mut class: ClassModel = ClassModel { kind, size, fields: Vec::new(), methods: Vec::new() };
    assert(class@.fields =~= Seq::<FieldShape>::empty());
    assert(class@.methods =~= Seq::<MethodShape>::empty());
    if let Some(l) = list {
        match walk_fields(t, &mut class, l, &ns, t.records.len()) {
            Ok(_) => {},
            Err(HeaderError::Skip) => {
                return Ok(());
            },
            Err(HeaderError::Malformed) => {
                return Err(HeaderError::Malformed);
            },
        }
    }
    insert_class(out, owned(name.as_str()), class);
    Ok(())
}

fn add_record(t: &SideTable, out: &mut SideModel, record: &SideRecord, cfg: &Config) -> (r: Result<
    (),
    HeaderError,
>)
    requires
        old(out)@.wf(),
    ensures
        final(out)@.wf(),
        match r {
            Ok(_) => told(*t, *record, *cfg) is Ok && final(out)@ == with_told(
                old(out)@,
                told(*t, *record, *cfg)->Ok_0,
            ),
            Err(e) => told(*t, *record, *cfg) == Err::<Told, HeaderError>(e),
        },
{
    reveal(told);
    match record {
        SideRecord::Class { name, kind, size, forward, class_fields } => {
            if *forward || !include_type(name.as_str(), cfg) {
                return Ok(());
            }
            add_class(t, out, name, class_kind(*kind), *size, *class_fields)
        },
        SideRecord::Union { name, size, forward, nested, count, union_fields } => {
            if *forward || *nested || !include_type(name.as_str(), cfg) {
                return Ok(());
            }
            let list: Option<u32> = if *count > 0 {
                Some(*union_fields)
            } else {
                None
            };
            add_class(t, out, name, "union", *size, list)
        },
        SideRecord::Enumeration { name, forward, nested, underlying, values } => {
            if *forward || *nested || !include_type(name.as_str(), cfg) {
                return Ok(());
            }
            let ns: Namespace = Namespace::get_from_class_name_impl(name.as_str());
            let ty: String = match type_of_item(underlying, &ns) {
                Ok(s) => s,
                Err(HeaderError::Skip) => {
                    return Ok(());
                },
                Err(HeaderError::Malformed) => {
                    return Err(HeaderError::Malformed);
                },
            };
            let mut v: Vec<(String, i64)> = Vec::new();
            assert(views(v@) =~= Seq::<(Seq<char>, i64)>::empty());
            match walk_enum(t, &mut v, *values, t.records.len()) {
                Ok(_) => {},
                Err(HeaderError::Skip) => {
                    return Ok(());
                },
                Err(HeaderError::Malformed) => {
                    return Err(HeaderError::Malformed);
                },
            }
            insert_enum(out, owned(name.as_str()), EnumModel { underlying: ty, values: v });
            Ok(())
        },
        _ => Ok(()),
    }
}

/// Takes in the types of a build. `Malformed` where the records contradict themselves; a
/// type that cannot be read is left out.
pub fn extract_headers(t: &SideTable, cfg: &Config, out: &mut SideModel) -> (r: Result<
    (),
    HeaderError,
>)
    requires
        old(out)@.wf(),
    ensures
        final(out)@.wf(),
        match r {
            Ok(_) => with_types(*t, old(out)@, *cfg, t.records@.len() as int) == Ok::<
                SideShape,
                HeaderError,
            >(final(out)@),
            Err(e) => with_types(*t, old(out)@, *cfg, t.records@.len() as int) == Err::<
                SideShape,
                HeaderError,
            >(e),
        },
{
    let ghost start = out@;
    let mut i: usize = 0;
    while i < t.records.len()
        invariant
            start == old(out)@,
            out@.wf(),
            i <= t.records@.len(),
            with_types(*t, start, *cfg, i as int) == Ok::<SideShape, HeaderError>(out@),
        decreases t.records.len() - i,
    {
        match add_record(t, out, &t.records[i], cfg) {
            Ok(_) => {},
            Err(e) => {
                proof {
                    lemma_types_err(*t, start, *cfg, i + 1, t.records@.len() as int);
                }
                return Err(e);
            },
        }
        i = i + 1;
    }
    Ok(())
}

} // verus!
