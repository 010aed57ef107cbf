//! The contents of the header of a class, gathered from the type records.

use crate::field_attributes::{set_method_attributes, with_declared, MyFieldAttributes};
use crate::function_cache::{is_member, within_class, FunctionCache, SignatureModel};
use crate::function_type::{FunctionType, FunctionTypeModel, ReturnModel, ReturnType};
use crate::header_model::{BaseClass, BaseModel, Class, ClassField, ClassFieldModel, ClassModel,
    Data, DataModel, Enum, EnumModel, ForwardReference, ForwardReferenceKind, ForwardReferenceUsage,
    Found, HeaderClass, HeaderError, HeaderField, HeaderRecord, HeaderTable, Method, MethodModel,
    OverloadItem, RefModel, ResolvedMethod, TypeUse, Variant};
use crate::header_needs::{are_needed, deeper, lemma_load_falls, lemma_type_grows, load};
use crate::lcs::views;
use crate::order::{is_le, text_le};
use crate::pieces::cat3;
use crate::search::{begins, contains, ends, ends_with, find, has_part, head_of, index_of,
    starts_with, strip_back, tail_of, trim_end, trimmed_end, without_suffix};
use crate::text::{chars_of, owned, same};
use crate::type_builder::{can_extract_forward_reference, can_name_templates, can_refer,
    can_typedef_template, extract_forward_reference_from_template, name_within, opt, referred,
    refers, templates_named, typedef_template, Namespace, NamespaceModel, Type};
use crate::type_table::ClassKind;
use vstd::prelude::*;

verus! {

// ---------------------------------------------------------------------------
// Types that are needed
// ---------------------------------------------------------------------------

/// An index put into a rising list, unless it is there.
pub open spec fn with_index(s: Seq<u32>, x: u32) -> Seq<u32>
    decreases s.len(),
{
    if s.len() == 0 || s.last() < x {
        s.push(x)
    } else if s.last() == x {
        s
    } else {
        with_index(s.drop_last(), x).push(s.last())
    }
}

/// The class, enumeration or union that a type leads to through up to `left` pointers,
/// modifiers and arrays. `Malformed` where there are more.
pub open spec fn type_behind_all(t: HeaderTable, index: u32, left: nat) -> Result<
    Option<u32>,
    HeaderError,
>
    decreases left,
{
    match t.at(index) {
        Found::Missing => Err(HeaderError::Skip),
        Found::Primitive { .. } => Ok(None),
        Found::Record(r) => match r {
            HeaderRecord::Unparsed => Err(HeaderError::Skip),
            HeaderRecord::Class(_) => Ok(Some(index)),
            HeaderRecord::Enumeration { .. } => Ok(Some(index)),
            HeaderRecord::Union => Ok(Some(index)),
            HeaderRecord::Indirect { to } => if left == 0 {
                Err(HeaderError::Malformed)
            } else {
                type_behind_all(t, to, (left - 1) as nat)
            },
            _ => Ok(None),
        },
    }
}

/// The class, enumeration or union that a type leads to through pointers, modifiers and
/// arrays. `Malformed` where they go round: where more follow than there are records.
pub open spec fn type_behind(t: HeaderTable, index: u32) -> Result<Option<u32>, HeaderError> {
    type_behind_all(t, index, t.records@.len())
}

/// The types that are needed once a type is used.
pub open spec fn needed_with(t: HeaderTable, index: u32, needed: Seq<u32>) -> Result<
    Seq<u32>,
    HeaderError,
> {
    match type_behind(t, index) {
        Err(e) => Err(e),
        Ok(Some(i)) => Ok(with_index(needed, i)),
        Ok(None) => Ok(needed),
    }
}

/// The name of a type that is used.
pub open spec fn use_name(u: TypeUse, ns: NamespaceModel) -> Result<Seq<char>, HeaderError> {
    match u.text {
        None => Err(HeaderError::Skip),
        Some(s) => if can_name_templates(s@) {
            Ok(name_within(s@, ns))
        } else {
            Err(HeaderError::Malformed)
        },
    }
}

proof fn lemma_with_index_at(s: Seq<u32>, x: u32, p: int)
    requires
        0 <= p <= s.len(),
        forall|k: int| p <= k < s.len() ==> #[trigger] s[k] > x,
        p == 0 || s[p - 1] <= x,
    ensures
        with_index(s, x) == if p > 0 && s[p - 1] == x {
            s
        } else {
            s.insert(p, x)
        },
    decreases s.len(),
{
    if p == s.len() {
        if p == 0 || s[p - 1] < x {
            assert(s.push(x) =~= s.insert(p, x));
        }
    } else {
        assert(s[s.len() - 1] > x);
        lemma_with_index_at(s.drop_last(), x, p);
        if p > 0 && s[p - 1] == x {
            assert(s.drop_last().push(s.last()) =~= s);
        } else {
            assert(s.drop_last().insert(p, x).push(s.last()) =~= s.insert(p, x));
        }
    }
}

fn insert_index(v: &mut Vec<u32>, x: u32)
    ensures
        final(v)@ == with_index(old(v)@, x),
{
    let mut p: usize = v.len();
    while p > 0 && v[p - 1] > x
        invariant
            p <= v@.len(),
            forall|k: int| p <= k < v@.len() ==> #[trigger] v@[k] > x,
        decreases p,
    {
        p = p - 1;
    }
    proof {
        lemma_with_index_at(v@, x, p as int);
    }
    if !(p > 0 && v[p - 1] == x) {
        v.insert(p, x);
    }
}

fn find_type_behind(t: &HeaderTable, index: u32, left: usize) -> (r: Result<
    Option<u32>,
    HeaderError,
>)
    ensures
        r == type_behind_all(*t, index, left as nat),
    decreases left,
{
    match t.find(index) {
        None => if t.holds_primitive(index) {
            Ok(None)
        } else {
            Err(HeaderError::Skip)
        },
        Some(HeaderRecord::Unparsed) => Err(HeaderError::Skip),
        Some(HeaderRecord::Class(_)) => Ok(Some(index)),
        Some(HeaderRecord::Enumeration { .. }) => Ok(Some(index)),
        Some(HeaderRecord::Union) => Ok(Some(index)),
        Some(HeaderRecord::Indirect { to }) => if left == 0 {
            Err(HeaderError::Malformed)
        } else {
            find_type_behind(t, *to, left - 1)
        },
        Some(_) => Ok(None),
    }
}

/// Adds what the use of a type needs.
pub fn update_referenced_types(t: &HeaderTable, index: u32, needed: &mut Vec<u32>) -> (r: Result<
    (),
    HeaderError,
>)
    ensures
        match r {
            Ok(_) => needed_with(*t, index, old(needed)@) == Ok::<Seq<u32>, HeaderError>(
                final(needed)@,
            ),
            Err(e) => needed_with(*t, index, old(needed)@) == Err::<Seq<u32>, HeaderError>(e)
                && final(needed)@ == old(needed)@,
        },
{
    match find_type_behind(t, index, t.records.len()) {
        Err(e) => Err(e),
        Ok(Some(i)) => {
            insert_index(needed, i);
            Ok(())
        },
        Ok(None) => Ok(()),
    }
}

/// The name of a type that is used.
pub fn name_of_use(u: &TypeUse, ns: &Namespace) -> (r: Result<Type, HeaderError>)
    ensures
        match r {
            Ok(t) => use_name(*u, ns@) == Ok::<Seq<char>, HeaderError>(t@),
            Err(e) => use_name(*u, ns@) == Err::<Seq<char>, HeaderError>(e),
        },
{
    match &u.text {
        None => Err(HeaderError::Skip),
        Some(s) => if can_typedef_template(s.as_str()) {
            Ok(Type::new(s.as_str(), ns))
        } else {
            Err(HeaderError::Malformed)
        },
    }
}

/// The name of a type that is used, which is needed from then on.
#[verifier::opaque]
pub open spec fn named_use(
    t: HeaderTable,
    u: TypeUse,
    needed: Seq<u32>,
    ns: NamespaceModel,
) -> Result<(Seq<char>, Seq<u32>), HeaderError> {
    match needed_with(t, u.index, needed) {
        Err(e) => Err(e),
        Ok(n) => match use_name(u, ns) {
            Err(e) => Err(e),
            Ok(name) => Ok((name, n)),
        },
    }
}

/// The name of a type that is used, which is needed from then on.
pub fn named_type(t: &HeaderTable, u: &TypeUse, needed: &mut Vec<u32>, ns: &Namespace) -> (r: Result<
    Type,
    HeaderError,
>)
    ensures
        match r {
            Ok(name) => named_use(*t, *u, old(needed)@, ns@) == Ok::<
                (Seq<char>, Seq<u32>),
                HeaderError,
            >((name@, final(needed)@)),
            Err(e) => named_use(*t, *u, old(needed)@, ns@) == Err::<
                (Seq<char>, Seq<u32>),
                HeaderError,
            >(e),
        },
{
    reveal(named_use);
    match update_referenced_types(t, u.index, needed) {
        Err(e) => Err(e),
        Ok(_) => name_of_use(u, ns),
    }
}

// ---------------------------------------------------------------------------
// Types that are referred to
// ---------------------------------------------------------------------------

/// The first reference of a name.
pub open spec fn ref_at(refs: Seq<RefModel>, name: Seq<char>, from: int) -> Option<int>
    decreases refs.len() - from,
{
    if from < 0 || from >= refs.len() {
        None
    } else if refs[from].name == name {
        Some(from)
    } else {
        ref_at(refs, name, from + 1)
    }
}

/// References with one more, which takes the place of one of its name.
pub open spec fn with_ref(refs: Seq<RefModel>, r: RefModel) -> Seq<RefModel> {
    match ref_at(refs, r.name, 0) {
        Some(i) => refs.update(i, r),
        None => refs.push(r),
    }
}

/// References with one more, unless there is one of its name.
pub open spec fn with_ref_if_new(refs: Seq<RefModel>, r: Option<RefModel>) -> Seq<RefModel> {
    match r {
        Some(x) => if ref_at(refs, x.name, 0) is Some {
            refs
        } else {
            refs.push(x)
        },
        None => refs,
    }
}

/// The types that every header knows.
pub open spec fn is_ambient(ty: Seq<char>) -> bool {
    ||| starts_with(ty, "boost::noncopyable"@)
    ||| starts_with(ty, "vostok::mutable_buffer"@)
    ||| starts_with(ty, "vostok::resources::managed_resource"@)
    ||| starts_with(ty, "vostok::math::float2"@)
    ||| starts_with(ty, "vostok::math::float3"@)
    ||| starts_with(ty, "vostok::math::float4"@)
    ||| starts_with(ty, "vostok::math::float4x4"@)
}

/// `s` without `p` at its end, if it is there.
pub open spec fn unsuffixed(s: Seq<char>, p: Seq<char>) -> Seq<char> {
    match without_suffix(s, p) {
        Some(t) => t,
        None => s,
    }
}

/// A pointer's or reference's type without the marks at its end: up to two of each,
/// twice over, and `const`.
pub open spec fn pointee(ty: Seq<char>) -> Seq<char> {
    let a = unsuffixed(unsuffixed(ty, "*"@), "*"@);
    let b = unsuffixed(unsuffixed(a, "&"@), "&"@);
    let c = unsuffixed(unsuffixed(b, "*"@), "*"@);
    let d = unsuffixed(unsuffixed(c, "&"@), "&"@);
    trimmed_end(unsuffixed(d, "const"@))
}

/// Whether a type is a pointer or a reference.
pub open spec fn is_indirect(ty: Seq<char>) -> bool {
    ends_with(ty, "*"@) || ends_with(ty, "&"@)
}

/// What an argument's or result's type refers to, in a class of the name `this`.
#[verifier::opaque]
pub open spec fn reference_of(ty: Seq<char>, this: Seq<char>, ns: NamespaceModel) -> Result<
    Option<RefModel>,
    HeaderError,
> {
    if is_ambient(ty) || (!contains(ty, "vostok"@) && !contains(ty, "survarium"@)) {
        Ok(None)
    } else {
        let bare = if is_indirect(ty) {
            pointee(ty)
        } else {
            ty
        };
        if !can_name_templates(bare) {
            Err(HeaderError::Malformed)
        } else if name_within(bare, ns) == this {
            Ok(None)
        } else if !can_refer(bare) {
            Err(HeaderError::Malformed)
        } else {
            let name = if refers(bare) {
                referred(bare, 4)
            } else {
                bare
            };
            Ok(
                Some(
                    RefModel {
                        kind: if ends_with(name, "_enum"@) {
                            ForwardReferenceKind::Enum
                        } else {
                            ForwardReferenceKind::Unknown
                        },
                        usage: if is_indirect(ty) && !refers(bare) {
                            ForwardReferenceUsage::ByReference
                        } else {
                            ForwardReferenceUsage::ByValue
                        },
                        name,
                    },
                ),
            )
        }
    }
}

fn find_ref(v: &Vec<ForwardReference>, name: &str) -> (r: Option<usize>)
    ensures
        match r {
            Some(i) => ref_at(views(v@), name@, 0) == Some(i as int) && i < v@.len(),
            None => ref_at(views(v@), name@, 0) is None,
        },
{
    let ghost m = views(v@);
    let mut i: usize = 0;
    while i < v.len()
        invariant
            m == views(v@),
            i <= v@.len(),
            ref_at(m, name@, 0) == ref_at(m, name@, i as int),
        decreases v.len() - i,
    {
        assert(m[i as int] == v@[i as int]@);
        if same(v[i].name.as_str(), name) {
            return Some(i);
        }
        i = i + 1;
    }
    None
}

fn put_ref(v: &mut Vec<ForwardReference>, r: ForwardReference)
    ensures
        views(final(v)@) == with_ref(views(old(v)@), r@),
{
    let ghost m = views(v@);
    let ghost x = r@;
    match find_ref(v, r.name.as_str()) {
        Some(i) => {
            v[i] = r;
            assert(views(v@) =~= m.update(i as int, x));
        },
        None => {
            v.push(r);
            assert(views(v@) =~= m.push(x));
        },
    }
}

fn put_ref_if_new(v: &mut Vec<ForwardReference>, r: Option<ForwardReference>)
    ensures
        views(final(v)@) == with_ref_if_new(
            views(old(v)@),
            match r {
                Some(x) => Some(x@),
                None => None,
            },
        ),
{
    if let Some(x) = r {
        if find_ref(v, x.name.as_str()).is_none() {
            let ghost m = views(v@);
            let ghost y = x@;
            v.push(x);
            assert(views(v@) =~= m.push(y));
        }
    }
}

fn skip_default_environment(ty: &str) -> (r: bool)
    ensures
        r == is_ambient(ty@),
{
    begins(ty, "boost::noncopyable") || begins(ty, "vostok::mutable_buffer") || begins(
        ty,
        "vostok::resources::managed_resource",
    ) || begins(ty, "vostok::math::float2") || begins(ty, "vostok::math::float3") || begins(
        ty,
        "vostok::math::float4",
    ) || begins(ty, "vostok::math::float4x4")
}

fn unsuffix(s: String, p: &str) -> (r: String)
    ensures
        r@ == unsuffixed(s@, p@),
{
    match strip_back(s.as_str(), p) {
        Some(t) => t,
        None => s,
    }
}

fn pointee_of(ty: &str) -> (r: String)
    ensures
        r@ == pointee(ty@),
{
    let a: String = unsuffix(unsuffix(owned(ty), "*"), "*");
    let b: String = unsuffix(unsuffix(a, "&"), "&");
    let c: String = unsuffix(unsuffix(b, "*"), "*");
    let d: String = unsuffix(unsuffix(c, "&"), "&");
    trim_end(unsuffix(d, "const").as_str())
}

fn find_forward_reference(ty: &str, this: &Type, ns: &Namespace) -> (r: Result<
    Option<ForwardReference>,
    HeaderError,
>)
    ensures
        match r {
            Ok(Some(x)) => reference_of(ty@, this@, ns@) == Ok::<Option<RefModel>, HeaderError>(
                Some(x@),
            ),
            Ok(None) => reference_of(ty@, this@, ns@) == Ok::<Option<RefModel>, HeaderError>(None),
            Err(e) => reference_of(ty@, this@, ns@) == Err::<Option<RefModel>, HeaderError>(e),
        },
{
    reveal(reference_of);
    if skip_default_environment(ty) || (!has_part(ty, "vostok") && !has_part(ty, "survarium")) {
        return Ok(None);
    }
    let indirect: bool = ends(ty, "*") || ends(ty, "&");
    let bare: String = if indirect {
        pointee_of(ty)
    } else {
        owned(ty)
    };
    if !can_typedef_template(bare.as_str()) {
        return Err(HeaderError::Malformed);
    }
    let written: Type = Type::new(bare.as_str(), ns);
    if written.0 == this.0 {
        return Ok(None);
    }
    if !can_extract_forward_reference(bare.as_str()) {
        return Err(HeaderError::Malformed);
    }
    let mut usage: ForwardReferenceUsage = if indirect {
        ForwardReferenceUsage::ByReference
    } else {
        ForwardReferenceUsage::ByValue
    };
    let name: String = match extract_forward_reference_from_template(bare.as_str()) {
        Some(a) => {
            usage = ForwardReferenceUsage::ByValue;
            owned(a)
        },
        None => owned(bare.as_str()),
    };
    let kind: ForwardReferenceKind = if ends(name.as_str(), "_enum") {
        ForwardReferenceKind::Enum
    } else {
        ForwardReferenceKind::Unknown
    };
    Ok(Some(ForwardReference { kind, usage, name }))
}

// ---------------------------------------------------------------------------
// Methods
// ---------------------------------------------------------------------------

/// The first method of a name and type that was resolved.
pub open spec fn resolved_at(v: Seq<ResolvedMethod>, name: Seq<char>, ty: u32, from: int) -> Option<
    ResolvedMethod,
>
    decreases v.len() - from,
{
    if from < 0 || from >= v.len() {
        None
    } else if v[from].name@ == name && v[from].method_type == ty {
        Some(v[from])
    } else {
        resolved_at(v, name, ty, from + 1)
    }
}

/// A method with the attributes that its class declares.
pub open spec fn declared(m: MethodModel, a: MyFieldAttributes) -> MethodModel {
    MethodModel {
        fn_t: FunctionTypeModel {
            attrs: with_declared(m.fn_t.attrs, a, m.margs is Some),
            ..m.fn_t
        },
        ..m
    }
}

/// A method of a class: as a source file defines it, or else as the class declares it.
#[verifier::opaque]
pub open spec fn method_of(
    t: HeaderTable,
    cache: Map<Seq<char>, SignatureModel>,
    methods: Seq<ResolvedMethod>,
    class_name: Seq<char>,
    name: Seq<char>,
    a: MyFieldAttributes,
    ty: u32,
) -> Result<MethodModel, HeaderError> {
    match t.at(ty) {
        Found::Record(HeaderRecord::MemberFunction) => match resolved_at(methods, name, ty, 0) {
            None => Err(HeaderError::Skip),
            Some(r) => match r.full_name {
                None => Err(HeaderError::Skip),
                Some(full) => if cache.contains_key(full@) {
                    if is_member(cache[full@].fn_t.name, class_name) {
                        let s = within_class(cache[full@], class_name);
                        Ok(declared(MethodModel { fn_t: s.fn_t, margs: Some(s.margs) }, a))
                    } else {
                        Err(HeaderError::Malformed)
                    }
                } else {
                    match r.parsed {
                        None => Err(HeaderError::Skip),
                        Some(f) => Ok(declared(MethodModel { fn_t: f@, margs: None }, a)),
                    }
                },
            },
        },
        _ => Err(HeaderError::Skip),
    }
}

/// Whether a method's one argument is a reference to its own class.
pub open spec fn takes_itself(f: FunctionTypeModel, class_name: Seq<char>) -> bool {
    &&& f.arg_types.len() == 1
    &&& or_none(without_suffix(f.arg_types[0], " const&"@)) == class_name || or_none(
        without_suffix(f.arg_types[0], "&"@),
    ) == class_name
}

/// A text, empty where there is none.
pub open spec fn or_none(s: Option<Seq<char>>) -> Seq<char> {
    match s {
        Some(t) => t,
        None => ""@,
    }
}

/// Whether a method was made by the compiler and is left out.
pub open spec fn is_compiler_made(m: MethodModel, class_name: Seq<char>) -> bool {
    ||| m.fn_t.name == "__vecDelDtor"@
    ||| m.margs is None && takes_itself(m.fn_t, class_name) && (m.fn_t.name == "operator="@
        || m.fn_t.return_type is Constructor)
    ||| m.fn_t.name == "__local_vftable_ctor_closure"@
    ||| m.fn_t.name == "__dflt_ctor_closure"@
}

/// References with those of the first `n` arguments of a method.
pub open spec fn refs_of_args(
    refs: Seq<RefModel>,
    f: FunctionTypeModel,
    this: Seq<char>,
    ns: NamespaceModel,
    n: int,
) -> Result<Seq<RefModel>, HeaderError>
    decreases n,
{
    if n <= 0 {
        Ok(refs)
    } else {
        match refs_of_args(refs, f, this, ns, n - 1) {
            Err(e) => Err(e),
            Ok(before) => match reference_of(f.arg_types[n - 1], this, ns) {
                Err(e) => Err(e),
                Ok(r) => Ok(with_ref_if_new(before, r)),
            },
        }
    }
}

/// References with those of a method's arguments and of its result.
#[verifier::opaque]
pub open spec fn refs_of_method(
    refs: Seq<RefModel>,
    f: FunctionTypeModel,
    this: Seq<char>,
    ns: NamespaceModel,
) -> Result<Seq<RefModel>, HeaderError> {
    match refs_of_args(refs, f, this, ns, f.arg_types.len() as int) {
        Err(e) => Err(e),
        Ok(before) => match f.return_type {
            ReturnModel::Type(t) => match reference_of(t, this, ns) {
                Err(e) => Err(e),
                Ok(r) => Ok(with_ref_if_new(before, r)),
            },
            _ => Ok(before),
        },
    }
}

/// What is gathered with a class: itself, the types that it needs, and those that it
/// refers to.
pub struct Gathered {
    pub class: ClassModel,
    pub needed: Seq<u32>,
    pub refs: Seq<RefModel>,
}

/// A class with one more method.
#[verifier::opaque]
pub open spec fn with_method(
    t: HeaderTable,
    cache: Map<Seq<char>, SignatureModel>,
    methods: Seq<ResolvedMethod>,
    g: Gathered,
    name: Seq<char>,
    a: MyFieldAttributes,
    ty: u32,
) -> Result<Gathered, HeaderError> {
    let c = g.class;
    match method_of(t, cache, methods, c.orig_name, name, a, ty) {
        Err(e) => Err(e),
        Ok(m) => if is_compiler_made(m, c.orig_name) {
            Ok(g)
        } else {
            match refs_of_method(g.refs, m.fn_t, c.name, c.namespace) {
                Err(e) => Err(e),
                Ok(refs) => Ok(
                    Gathered {
                        class: if a.method_kind() == 2 {
                            ClassModel { static_methods: c.static_methods.push(m), ..c }
                        } else {
                            ClassModel { instance_methods: c.instance_methods.push(m), ..c }
                        },
                        refs,
                        ..g
                    },
                ),
            }
        },
    }
}

/// A class with the last `n` of some methods of one name, from the last on.
pub open spec fn with_overloads(
    t: HeaderTable,
    cache: Map<Seq<char>, SignatureModel>,
    methods: Seq<ResolvedMethod>,
    g: Gathered,
    name: Seq<char>,
    items: Seq<OverloadItem>,
    n: int,
) -> Result<Gathered, HeaderError>
    decreases n,
{
    if n <= 0 {
        Ok(g)
    } else {
        match with_overloads(t, cache, methods, g, name, items, n - 1) {
            Err(e) => Err(e),
            Ok(before) => {
                let item = items[items.len() - n];
                with_method(t, cache, methods, before, name, item.attributes, item.method_type)
            },
        }
    }
}

/// A field of a class; the dimensions of an array stand behind its name.
pub open spec fn class_field(ty: Seq<char>, name: Seq<char>, offset: u64) -> ClassFieldModel {
    match index_of(ty, "["@, 0) {
        Some(p) => ClassFieldModel { ty: ty.take(p), name, array: ty.skip(p), offset },
        None => ClassFieldModel { ty, name, array: ""@, offset },
    }
}

/// A class with one more field.
#[verifier::opaque]
pub open spec fn with_field(
    t: HeaderTable,
    cache: Map<Seq<char>, SignatureModel>,
    methods: Seq<ResolvedMethod>,
    g: Gathered,
    field: HeaderField,
) -> Result<Gathered, HeaderError> {
    let c = g.class;
    match field {
        HeaderField::Member { ty, name, offset } => match named_use(t, ty, g.needed, c.namespace) {
            Err(e) => Err(e),
            Ok((n, needed)) => Ok(
                Gathered {
                    class: ClassModel {
                        fields: c.fields.push(class_field(n, name@, offset)),
                        ..c
                    },
                    needed,
                    ..g
                },
            ),
        },
        HeaderField::Method { name, attributes, method_type } => with_method(
            t,
            cache,
            methods,
            g,
            name@,
            attributes,
            method_type,
        ),
        HeaderField::OverloadedMethod { name, method_list } => match t.at(method_list) {
            Found::Record(HeaderRecord::MethodList { methods: items }) => with_overloads(
                t,
                cache,
                methods,
                g,
                name@,
                items@,
                items@.len() as int,
            ),
            Found::Record(HeaderRecord::Unparsed) => Err(HeaderError::Skip),
            Found::Missing => Err(HeaderError::Skip),
            _ => Err(HeaderError::Malformed),
        },
        HeaderField::BaseClass { ty, base_offset } => match named_use(
            t,
            ty,
            g.needed,
            c.namespace,
        ) {
            Err(e) => Err(e),
            Ok((n, needed)) => Ok(
                Gathered {
                    class: ClassModel {
                        base_classes: c.base_classes.push(
                            BaseModel { ty: n, offset: base_offset },
                        ),
                        ..c
                    },
                    needed,
                    ..g
                },
            ),
        },
        HeaderField::Enumerate { .. } => Ok(g),
        HeaderField::Other => Ok(g),
    }
}

/// A class with the first `n` of some fields.
pub open spec fn with_fields(
    t: HeaderTable,
    cache: Map<Seq<char>, SignatureModel>,
    methods: Seq<ResolvedMethod>,
    g: Gathered,
    fields: Seq<HeaderField>,
    n: int,
) -> Result<Gathered, HeaderError>
    decreases n,
{
    if n <= 0 {
        Ok(g)
    } else {
        match with_fields(t, cache, methods, g, fields, n - 1) {
            Err(e) => Err(e),
            Ok(before) => with_field(t, cache, methods, before, fields[n - 1]),
        }
    }
}

/// A class with the fields of a list and of up to `left` that continue it. `Malformed` where
/// there are more.
pub open spec fn with_lists(
    t: HeaderTable,
    cache: Map<Seq<char>, SignatureModel>,
    methods: Seq<ResolvedMethod>,
    g: Gathered,
    list: u32,
    left: nat,
) -> Result<Gathered, HeaderError>
    decreases left,
{
    match t.at(list) {
        Found::Record(HeaderRecord::FieldList { fields, continuation }) => match with_fields(
            t,
            cache,
            methods,
            g,
            fields@,
            fields@.len() as int,
        ) {
            Err(e) => Err(e),
            Ok(h) => match continuation {
                None => Ok(h),
                Some(next) => if left == 0 {
                    Err(HeaderError::Malformed)
                } else {
                    with_lists(t, cache, methods, h, next, (left - 1) as nat)
                },
            },
        },
        Found::Record(HeaderRecord::Unparsed) => Err(HeaderError::Skip),
        Found::Missing => Err(HeaderError::Skip),
        _ => Err(HeaderError::Malformed),
    }
}

/// A class with the fields of a list and of those that continue it. `Malformed` where they
/// go round: where more follow than there are records.
pub open spec fn with_list(
    t: HeaderTable,
    cache: Map<Seq<char>, SignatureModel>,
    methods: Seq<ResolvedMethod>,
    g: Gathered,
    list: u32,
) -> Result<Gathered, HeaderError> {
    with_lists(t, cache, methods, g, list, t.records@.len())
}

// ---------------------------------------------------------------------------

/// A class that is being gathered.
struct Gathering {
    class: Class,
    needed: Vec<u32>,
    refs: Vec<ForwardReference>,
}

impl View for Gathering {
    type V = Gathered;

    closed spec fn view(&self) -> Gathered {
        Gathered { class: self.class@, needed: self.needed@, refs: views(self.refs@) }
    }
}

/// The first method of a name and type that was resolved.
pub fn find_resolved<'a>(v: &'a Vec<ResolvedMethod>, name: &str, ty: u32) -> (r: Option<
    &'a ResolvedMethod,
>)
    ensures
        match r {
            Some(x) => resolved_at(v@, name@, ty, 0) == Some(*x),
            None => resolved_at(v@, name@, ty, 0) is None,
        },
{
    let mut i: usize = 0;
    while i < v.len()
        invariant
            i <= v@.len(),
            resolved_at(v@, name@, ty, 0) == resolved_at(v@, name@, ty, i as int),
        decreases v.len() - i,
    {
        if v[i].method_type == ty && same(v[i].name.as_str(), name) {
            return Some(&v[i]);
        }
        i = i + 1;
    }
    None
}

fn find_method(
    t: &HeaderTable,
    cache: &FunctionCache,
    methods: &Vec<ResolvedMethod>,
    class_name: &str,
    name: &str,
    a: MyFieldAttributes,
    ty: u32,
) -> (r: Result<Method, HeaderError>)
    ensures
        match r {
            Ok(m) => method_of(*t, cache@, methods@, class_name@, name@, a, ty) == Ok::<
                MethodModel,
                HeaderError,
            >(m@),
            Err(e) => method_of(*t, cache@, methods@, class_name@, name@, a, ty) == Err::<
                MethodModel,
                HeaderError,
            >(e),
        },
{
    reveal(method_of);
    match t.find(ty) {
        Some(HeaderRecord::MemberFunction) => {},
        _ => {
            return Err(HeaderError::Skip);
        },
    }
    let resolved: &ResolvedMethod = match find_resolved(methods, name, ty) {
        Some(x) => x,
        None => {
            return Err(HeaderError::Skip);
        },
    };
    let full: &String = match &resolved.full_name {
        Some(x) => x,
        None => {
            return Err(HeaderError::Skip);
        },
    };
    if !cache.can_get_from_header(class_name, full.as_str()) {
        return Err(HeaderError::Malformed);
    }
    match cache.get_from_header(class_name, full.as_str()) {
        Some(s) => {
            let mut fn_t: FunctionType = s.fn_t;
            set_method_attributes(&mut fn_t, a, true);
            Ok(Method::FromSourceFile { fn_t, margs: s.margs })
        },
        None => match &resolved.parsed {
            Some(f) => {
                let mut fn_t: FunctionType = f.copy();
                set_method_attributes(&mut fn_t, a, false);
                Ok(Method::FromHeaderFile { fn_t })
            },
            None => Err(HeaderError::Skip),
        },
    }
}

fn or_nothing(s: Option<String>) -> (r: String)
    ensures
        r@ == or_none(opt(s)),
{
    match s {
        Some(t) => t,
        None => owned(""),
    }
}

fn does_take_itself(f: &FunctionType, class_name: &str) -> (r: bool)
    ensures
        r == takes_itself(f@, class_name@),
{
    if f.arg_types.len() != 1 {
        return false;
    }
    assert(f@.arg_types[0] == f.arg_types@[0]@);
    let a: String = or_nothing(strip_back(f.arg_types[0].as_str(), " const&"));
    let b: String = or_nothing(strip_back(f.arg_types[0].as_str(), "&"));
    same(a.as_str(), class_name) || same(b.as_str(), class_name)
}

fn did_compiler_make(m: &Method, class_name: &str) -> (r: bool)
    ensures
        r == is_compiler_made(m@, class_name@),
{
    let f: &FunctionType = m.fn_t();
    let in_header: bool = matches!(m, Method::FromHeaderFile { .. });
    let constructs: bool = matches!(f.return_type, ReturnType::Constructor);
    same(f.name.as_str(), "__vecDelDtor") || (in_header && does_take_itself(f, class_name) && (same(
        f.name.as_str(),
        "operator=",
    ) || constructs)) || same(f.name.as_str(), "__local_vftable_ctor_closure") || same(
        f.name.as_str(),
        "__dflt_ctor_closure",
    )
}

proof fn lemma_refs_of_args_err(
    refs: Seq<RefModel>,
    f: FunctionTypeModel,
    this: Seq<char>,
    ns: NamespaceModel,
    i: int,
    n: int,
    e: HeaderError,
)
    requires
        0 < i <= n,
        refs_of_args(refs, f, this, ns, i) == Err::<Seq<RefModel>, HeaderError>(e),
    ensures
        refs_of_args(refs, f, this, ns, n) == Err::<Seq<RefModel>, HeaderError>(e),
    decreases n - i,
{
    if i < n {
        assert(refs_of_args(refs, f, this, ns, i + 1) == Err::<Seq<RefModel>, HeaderError>(e));
        lemma_refs_of_args_err(refs, f, this, ns, i + 1, n, e);
    }
}

fn add_refs(v: &mut Vec<ForwardReference>, f: &FunctionType, this: &Type, ns: &Namespace) -> (r: Result<
    (),
    HeaderError,
>)
    ensures
        match r {
            Ok(_) => refs_of_method(views(old(v)@), f@, this@, ns@) == Ok::<
                Seq<RefModel>,
                HeaderError,
            >(views(final(v)@)),
            Err(e) => refs_of_method(views(old(v)@), f@, this@, ns@) == Err::<
                Seq<RefModel>,
                HeaderError,
            >(e),
        },
{
    reveal(refs_of_method);
    let ghost start = views(v@);
    let mut i: usize = 0;
    while i < f.arg_types.len()
        invariant
            start == views(old(v)@),
            i <= f.arg_types@.len(),
            refs_of_args(start, f@, this@, ns@, i as int) == Ok::<Seq<RefModel>, HeaderError>(
                views(v@),
            ),
        decreases f.arg_types.len() - i,
    {
        assert(f@.arg_types[i as int] == f.arg_types@[i as int]@);
        match find_forward_reference(f.arg_types[i].as_str(), this, ns) {
            Ok(x) => {
                put_ref_if_new(v, x);
            },
            Err(e) => {
                proof {
                    reveal(refs_of_method);
                    lemma_refs_of_args_err(
                        start,
                        f@,
                        this@,
                        ns@,
                        i + 1,
                        f.arg_types@.len() as int,
                        e,
                    );
                }
                return Err(e);
            },
        }
        i = i + 1;
    }
    if let ReturnType::Type(ty) = &f.return_type {
        match find_forward_reference(ty.as_str(), this, ns) {
            Ok(x) => {
                put_ref_if_new(v, x);
            },
            Err(e) => {
                return Err(e);
            },
        }
    }
    Ok(())
}

fn add_method(
    t: &HeaderTable,
    cache: &FunctionCache,
    methods: &Vec<ResolvedMethod>,
    g: &mut Gathering,
    name: &str,
    a: MyFieldAttributes,
    ty: u32,
) -> (r: Result<(), HeaderError>)
    ensures
        match r {
            Ok(_) => with_method(*t, cache@, methods@, old(g)@, name@, a, ty) == Ok::<
                Gathered,
                HeaderError,
            >(final(g)@),
            Err(e) => with_method(*t, cache@, methods@, old(g)@, name@, a, ty) == Err::<
                Gathered,
                HeaderError,
            >(e),
        },
{
    reveal(with_method);
    let m: Method = match find_method(
        t,
        cache,
        methods,
        g.class.orig_name.as_str(),
        name,
        a,
        ty,
    ) {
        Ok(m) => m,
        Err(e) => {
            return Err(e);
        },
    };
    if did_compiler_make(&m, g.class.orig_name.as_str()) {
        return Ok(());
    }
    match add_refs(&mut g.refs, m.fn_t(), &g.class.name, &g.class.namespace) {
        Ok(_) => {},
        Err(e) => {
            return Err(e);
        },
    }
    let ghost x = m@;
    let is_static: bool = ((a.0 & 0x001c) >> 2) as u8 == 2;
    if is_static {
        let ghost before = g.class.static_methods@;
        g.class.static_methods.push(m);
        assert(views(g.class.static_methods@) =~= views(before).push(x));
    } else {
        let ghost before = g.class.instance_methods@;
        g.class.instance_methods.push(m);
        assert(views(g.class.instance_methods@) =~= views(before).push(x));
    }
    Ok(())
}

proof fn lemma_overloads_err(
    t: HeaderTable,
    cache: Map<Seq<char>, SignatureModel>,
    methods: Seq<ResolvedMethod>,
    g: Gathered,
    name: Seq<char>,
    items: Seq<OverloadItem>,
    i: int,
    n: int,
    e: HeaderError,
)
    requires
        0 < i <= n,
        with_overloads(t, cache, methods, g, name, items, i) == Err::<Gathered, HeaderError>(e),
    ensures
        with_overloads(t, cache, methods, g, name, items, n) == Err::<Gathered, HeaderError>(e),
    decreases n - i,
{
    if i < n {
        assert(with_overloads(t, cache, methods, g, name, items, i + 1) == Err::<
            Gathered,
            HeaderError,
        >(e));
        lemma_overloads_err(t, cache, methods, g, name, items, i + 1, n, e);
    }
}

fn add_overloads(
    t: &HeaderTable,
    cache: &FunctionCache,
    methods: &Vec<ResolvedMethod>,
    g: &mut Gathering,
    name: &str,
    items: &Vec<OverloadItem>,
) -> (r: Result<(), HeaderError>)
    ensures
        match r {
            Ok(_) => with_overloads(
                *t,
                cache@,
                methods@,
                old(g)@,
                name@,
                items@,
                items@.len() as int,
            ) == Ok::<Gathered, HeaderError>(final(g)@),
            Err(e) => with_overloads(
                *t,
                cache@,
                methods@,
                old(g)@,
                name@,
                items@,
                items@.len() as int,
            ) == Err::<Gathered, HeaderError>(e),
        },
{
    let ghost start = g@;
    let len: usize = items.len();
    let mut i: usize = 0;
    while i < len
        invariant
            start == old(g)@,
            len == items@.len(),
            i <= len,
            with_overloads(*t, cache@, methods@, start, name@, items@, i as int) == Ok::<
                Gathered,
                HeaderError,
            >(g@),
        decreases len - i,
    {
        let item: &OverloadItem = &items[len - 1 - i];
        assert(*item == items@[len - (i + 1)]);
        match add_method(t, cache, methods, g, name, item.attributes, item.method_type) {
            Ok(_) => {},
            Err(e) => {
                proof {
                    lemma_overloads_err(
                        *t,
                        cache@,
                        methods@,
                        start,
                        name@,
                        items@,
                        i + 1,
                        len as int,
                        e,
                    );
                }
                return Err(e);
            },
        }
        i = i + 1;
    }
    Ok(())
}

fn make_field(ty: Type, name: &String, offset: u64) -> (r: ClassField)
    ensures
        r@ == class_field(ty@, name@, offset),
{
    match find(ty.0.as_str(), "[") {
        Some(p) => {
            let v: Vec<char> = chars_of(ty.0.as_str());
            ClassField {
                ty: Type(head_of(&v, p)),
                name: name.clone(),
                array: tail_of(&v, p),
                offset,
            }
        },
        None => ClassField { ty, name: name.clone(), array: owned(""), offset },
    }
}

fn add_field(
    t: &HeaderTable,
    cache: &FunctionCache,
    methods: &Vec<ResolvedMethod>,
    g: &mut Gathering,
    field: &HeaderField,
) -> (r: Result<(), HeaderError>)
    ensures
        match r {
            Ok(_) => with_field(*t, cache@, methods@, old(g)@, *field) == Ok::<
                Gathered,
                HeaderError,
            >(final(g)@),
            Err(e) => with_field(*t, cache@, methods@, old(g)@, *field) == Err::<
                Gathered,
                HeaderError,
            >(e),
        },
{
    reveal(with_field);
    match field {
        HeaderField::Member { ty, name, offset } => {
            match named_type(t, ty, &mut g.needed, &g.class.namespace) {
                Err(e) => Err(e),
                Ok(n) => {
                    let f: ClassField = make_field(n, name, *offset);
                    let ghost x = f@;
                    let ghost before = g.class.fields@;
                    g.class.fields.push(f);
                    assert(views(g.class.fields@) =~= views(before).push(x));
                    Ok(())
                },
            }
        },
        HeaderField::Method { name, attributes, method_type } => add_method(
            t,
            cache,
            methods,
            g,
            name.as_str(),
            *attributes,
            *method_type,
        ),
        HeaderField::OverloadedMethod { name, method_list } => match t.find(*method_list) {
            Some(HeaderRecord::MethodList { methods: items }) => add_overloads(
                t,
                cache,
                methods,
                g,
                name.as_str(),
                items,
            ),
            Some(HeaderRecord::Unparsed) => Err(HeaderError::Skip),
            Some(_) => Err(HeaderError::Malformed),
            None => if t.holds_primitive(*method_list) {
                Err(HeaderError::Malformed)
            } else {
                Err(HeaderError::Skip)
            },
        },
        HeaderField::BaseClass { ty, base_offset } => {
            match named_type(t, ty, &mut g.needed, &g.class.namespace) {
                Err(e) => Err(e),
                Ok(n) => {
                    let b: BaseClass = BaseClass { ty: n, offset: *base_offset };
                    let ghost x = b@;
                    let ghost before = g.class.base_classes@;
                    g.class.base_classes.push(b);
                    assert(views(g.class.base_classes@) =~= views(before).push(x));
                    Ok(())
                },
            }
        },
        HeaderField::Enumerate { .. } => Ok(()),
        HeaderField::Other => Ok(()),
    }
}

proof fn lemma_fields_err(
    t: HeaderTable,
    cache: Map<Seq<char>, SignatureModel>,
    methods: Seq<ResolvedMethod>,
    g: Gathered,
    fields: Seq<HeaderField>,
    i: int,
    n: int,
    e: HeaderError,
)
    requires
        0 < i <= n,
        with_fields(t, cache, methods, g, fields, i) == Err::<Gathered, HeaderError>(e),
    ensures
        with_fields(t, cache, methods, g, fields, n) == Err::<Gathered, HeaderError>(e),
    decreases n - i,
{
    if i < n {
        assert(with_fields(t, cache, methods, g, fields, i + 1) == Err::<Gathered, HeaderError>(e));
        lemma_fields_err(t, cache, methods, g, fields, i + 1, n, e);
    }
}

fn add_list(
    t: &HeaderTable,
    cache: &FunctionCache,
    methods: &Vec<ResolvedMethod>,
    g: &mut Gathering,
    list: u32,
    left: usize,
) -> (r: Result<(), HeaderError>)
    ensures
        match r {
            Ok(_) => with_lists(*t, cache@, methods@, old(g)@, list, left as nat) == Ok::<
                Gathered,
                HeaderError,
            >(final(g)@),
            Err(e) => with_lists(*t, cache@, methods@, old(g)@, list, left as nat) == Err::<
                Gathered,
                HeaderError,
            >(e),
        },
    decreases left,
{
    let ghost start = g@;
    match t.find(list) {
        Some(HeaderRecord::FieldList { fields, continuation }) => {
            let ghost fs = fields@;
            let mut i: usize = 0;
            while i < fields.len()
                invariant
                    start == old(g)@,
                    fs == fields@,
                    t.at(list) == Found::Record(
                        HeaderRecord::FieldList { fields: *fields, continuation: *continuation },
                    ),
                    i <= fs.len(),
                    with_fields(*t, cache@, methods@, start, fs, i as int) == Ok::<
                        Gathered,
                        HeaderError,
                    >(g@),
                decreases fields.len() - i,
            {
                match add_field(t, cache, methods, g, &fields[i]) {
                    Ok(_) => {},
                    Err(e) => {
                        proof {
                            lemma_fields_err(
                                *t,
                                cache@,
                                methods@,
                                start,
                                fs,
                                i + 1,
                                fs.len() as int,
                                e,
                            );
                        }
                        return Err(e);
                    },
                }
                i = i + 1;
            }
            match continuation {
                None => Ok(()),
                Some(next) => if left == 0 {
                    Err(HeaderError::Malformed)
                } else {
                    add_list(t, cache, methods, g, *next, left - 1)
                },
            }
        },
        Some(HeaderRecord::Unparsed) => Err(HeaderError::Skip),
        Some(_) => Err(HeaderError::Malformed),
        None => if t.holds_primitive(list) {
            Err(HeaderError::Malformed)
        } else {
            Err(HeaderError::Skip)
        },
    }
}

// ---------------------------------------------------------------------------
// Enumerations
// ---------------------------------------------------------------------------

/// Values with the enumerators among the first `n` fields.
pub open spec fn enumerators_of(
    v: Seq<(Seq<char>, Variant)>,
    fields: Seq<HeaderField>,
    n: int,
) -> Seq<(Seq<char>, Variant)>
    decreases n,
{
    if n <= 0 {
        v
    } else {
        match fields[n - 1] {
            HeaderField::Enumerate { name, value } => enumerators_of(v, fields, n - 1).push(
                (name@, value),
            ),
            _ => enumerators_of(v, fields, n - 1),
        }
    }
}

/// Values with the enumerators of a list and of up to `left` that continue it. An
/// enumeration may have no list.
pub open spec fn enumerators_from_all(
    t: HeaderTable,
    v: Seq<(Seq<char>, Variant)>,
    list: u32,
    left: nat,
) -> Result<Seq<(Seq<char>, Variant)>, HeaderError>
    decreases left,
{
    match t.at(list) {
        Found::Record(HeaderRecord::FieldList { fields, continuation }) => {
            let w = enumerators_of(v, fields@, fields@.len() as int);
            match continuation {
                None => Ok(w),
                Some(next) => if left == 0 {
                    Err(HeaderError::Malformed)
                } else {
                    enumerators_from_all(t, w, next, (left - 1) as nat)
                },
            }
        },
        Found::Record(HeaderRecord::Unparsed) => Err(HeaderError::Skip),
        Found::Missing => Err(HeaderError::Skip),
        Found::Primitive { none } => if none {
            Ok(v)
        } else {
            Err(HeaderError::Malformed)
        },
        _ => Err(HeaderError::Malformed),
    }
}

/// Values with the enumerators of a list and of those that continue it. `Malformed` where
/// they go round: where more follow than there are records.
pub open spec fn enumerators_from(t: HeaderTable, v: Seq<(Seq<char>, Variant)>, list: u32) -> Result<
    Seq<(Seq<char>, Variant)>,
    HeaderError,
> {
    enumerators_from_all(t, v, list, t.records@.len())
}

/// Enumerations in the order of their names with one more. One with values takes the
/// place of one of its name without.
pub open spec fn with_enum(s: Seq<EnumModel>, e: EnumModel) -> Seq<EnumModel>
    decreases s.len(),
{
    if s.len() == 0 {
        seq![e]
    } else if s.last().name == e.name {
        if s.last().values.len() == 0 && e.values.len() > 0 {
            s.drop_last().push(e)
        } else {
            s
        }
    } else if text_le(s.last().name, e.name) {
        s.push(e)
    } else {
        with_enum(s.drop_last(), e).push(s.last())
    }
}

fn add_enumerators(
    t: &HeaderTable,
    v: &mut Vec<(String, Variant)>,
    list: u32,
    left: usize,
) -> (r: Result<(), HeaderError>)
    ensures
        match r {
            Ok(_) => enumerators_from_all(*t, views(old(v)@), list, left as nat) == Ok::<
                Seq<(Seq<char>, Variant)>,
                HeaderError,
            >(views(final(v)@)),
            Err(e) => enumerators_from_all(*t, views(old(v)@), list, left as nat) == Err::<
                Seq<(Seq<char>, Variant)>,
                HeaderError,
            >(e),
        },
    decreases left,
{
    let ghost start = views(v@);
    match t.find(list) {
        Some(HeaderRecord::FieldList { fields, continuation }) => {
            let ghost fs = fields@;
            let mut i: usize = 0;
            while i < fields.len()
                invariant
                    fs == fields@,
                    i <= fs.len(),
                    views(v@) == enumerators_of(start, fs, i as int),
                decreases fields.len() - i,
            {
                if let HeaderField::Enumerate { name, value } = &fields[i] {
                    let ghost before = v@;
                    v.push((name.clone(), *value));
                    assert(views(v@) =~= views(before).push((name@, *value)));
                }
                i = i + 1;
            }
            match continuation {
                None => Ok(()),
                Some(next) => if left == 0 {
                    Err(HeaderError::Malformed)
                } else {
                    add_enumerators(t, v, *next, left - 1)
                },
            }
        },
        Some(HeaderRecord::Unparsed) => Err(HeaderError::Skip),
        Some(_) => Err(HeaderError::Malformed),
        None => if t.holds_primitive(list) {
            if list % 256 == 0 {
                Ok(())
            } else {
                Err(HeaderError::Malformed)
            }
        } else {
            Err(HeaderError::Skip)
        },
    }
}

proof fn lemma_with_enum_at(s: Seq<EnumModel>, e: EnumModel, p: int)
    requires
        0 <= p <= s.len(),
        forall|k: int|
            p <= k < s.len() ==> (#[trigger] s[k]).name != e.name && !text_le(s[k].name, e.name),
        p == 0 || s[p - 1].name == e.name || text_le(s[p - 1].name, e.name),
    ensures
        with_enum(s, e) == if p > 0 && s[p - 1].name == e.name {
            if s[p - 1].values.len() == 0 && e.values.len() > 0 {
                s.update(p - 1, e)
            } else {
                s
            }
        } else {
            s.insert(p, e)
        },
    decreases s.len(),
{
    if p == s.len() {
        if p > 0 && s[p - 1].name == e.name {
            assert(s.drop_last().push(e) =~= s.update(p - 1, e));
        } else if p > 0 {
            assert(s.push(e) =~= s.insert(p, e));
        } else {
            assert(seq![e] =~= s.insert(0, e));
        }
    } else {
        assert(s[s.len() - 1].name != e.name && !text_le(s[s.len() - 1].name, e.name));
        lemma_with_enum_at(s.drop_last(), e, p);
        if p > 0 && s[p - 1].name == e.name {
            assert(s.drop_last().update(p - 1, e).push(s.last()) =~= s.update(p - 1, e));
            assert(s.drop_last().push(s.last()) =~= s);
        } else {
            assert(s.drop_last().insert(p, e).push(s.last()) =~= s.insert(p, e));
        }
    }
}

fn put_enum(v: &mut Vec<Enum>, e: Enum)
    ensures
        views(final(v)@) == with_enum(views(old(v)@), e@),
{
    let ghost s = views(v@);
    let ghost m = e@;
    let mut p: usize = v.len();
    while p > 0 && !(v[p - 1].name == e.name) && !is_le(v[p - 1].name.as_str(), e.name.as_str())
        invariant
            p <= v@.len(),
            s == views(v@),
            m == e@,
            forall|k: int|
                p <= k < s.len() ==> (#[trigger] s[k]).name != m.name && !text_le(
                    s[k].name,
                    m.name,
                ),
        decreases p,
    {
        assert(s[p - 1] == v@[p - 1]@);
        p = p - 1;
    }
    proof {
        if p > 0 {
            assert(s[p - 1] == v@[p - 1]@);
        }
        lemma_with_enum_at(s, m, p as int);
    }
    if p > 0 && v[p - 1].name == e.name {
        if v[p - 1].values.len() == 0 && e.values.len() > 0 {
            v[p - 1] = e;
            assert(views(v@) =~= s.update(p - 1, m));
        }
    } else {
        v.insert(p, e);
        assert(views(v@) =~= s.insert(p as int, m));
    }
}

// ---------------------------------------------------------------------------
// One type
// ---------------------------------------------------------------------------

/// What a header is made of: its contents, the types that are still needed, and the
/// enumerations of all headers.
pub struct Progress {
    pub data: DataModel,
    pub needed: Seq<u32>,
    pub enums: Seq<EnumModel>,
}

/// References with that to a class that is only announced.
#[verifier::opaque]
pub open spec fn with_announced(refs: Seq<RefModel>, name: Seq<char>, kind: ClassKind) -> Result<
    Seq<RefModel>,
    HeaderError,
> {
    let by_value = ForwardReferenceUsage::ByValue;
    if is_ambient(name) {
        Ok(refs)
    } else if !can_refer(name) {
        Err(HeaderError::Malformed)
    } else if !refers(name) {
        match kind {
            ClassKind::Class => Ok(
                with_ref(
                    refs,
                    RefModel { kind: ForwardReferenceKind::Class, usage: by_value, name },
                ),
            ),
            ClassKind::Struct => Ok(
                with_ref(
                    refs,
                    RefModel { kind: ForwardReferenceKind::Struct, usage: by_value, name },
                ),
            ),
            ClassKind::Interface => Err(HeaderError::Malformed),
        }
    } else if !can_name_templates(name) {
        Err(HeaderError::Malformed)
    } else {
        let inner = with_ref(
            refs,
            RefModel {
                kind: ForwardReferenceKind::TypedefInner,
                usage: by_value,
                name: referred(name, 4),
            },
        );
        Ok(
            with_ref(
                inner,
                match templates_named(name) {
                    Some(td) => RefModel {
                        kind: ForwardReferenceKind::Typedef,
                        usage: by_value,
                        name: name + "\n\t"@ + td,
                    },
                    None => RefModel {
                        kind: ForwardReferenceKind::TypedefInner,
                        usage: by_value,
                        name,
                    },
                },
            ),
        )
    }
}

/// A class without its fields.
pub open spec fn bare_class(c: HeaderClass, ns: NamespaceModel) -> ClassModel {
    ClassModel {
        namespace: ns,
        kind: c.kind,
        orig_name: c.name@,
        name: name_within(c.name@, ns),
        size: c.size,
        base_classes: Seq::empty(),
        fields: Seq::empty(),
        instance_methods: Seq::empty(),
        static_methods: Seq::empty(),
    }
}

/// Progress with a class.
#[verifier::opaque]
pub open spec fn with_class(
    t: HeaderTable,
    cache: Map<Seq<char>, SignatureModel>,
    p: Progress,
    c: HeaderClass,
) -> Result<Progress, HeaderError> {
    if c.forward_reference {
        match with_announced(p.data.forward_references, c.name@, c.kind) {
            Err(e) => Err(e),
            Ok(refs) => Ok(
                Progress { data: DataModel { forward_references: refs, ..p.data }, ..p },
            ),
        }
    } else if !can_name_templates(c.name@) {
        Err(HeaderError::Malformed)
    } else {
        let g = Gathered {
            class: bare_class(c, p.data.namespace),
            needed: p.needed,
            refs: p.data.forward_references,
        };
        let h = match c.fields {
            Some(list) => with_list(t, cache, c.methods@, g, list),
            None => Ok(g),
        };
        match h {
            Err(e) => Err(e),
            Ok(h) => Ok(
                Progress {
                    data: DataModel {
                        forward_references: h.refs,
                        classes: p.data.classes.insert(0, h.class),
                        ..p.data
                    },
                    needed: h.needed,
                    ..p
                },
            ),
        }
    }
}

/// Progress with an enumeration.
#[verifier::opaque]
pub open spec fn with_enumeration(
    t: HeaderTable,
    p: Progress,
    name: Seq<char>,
    underlying: TypeUse,
    list: u32,
) -> Result<Progress, HeaderError> {
    match named_use(t, underlying, p.needed, p.data.namespace) {
        Err(e) => Err(e),
        Ok((u, needed)) => match enumerators_from(t, Seq::empty(), list) {
            Err(e) => Err(e),
            Ok(values) => {
                let e = EnumModel { name, underlying: u, values };
                Ok(
                    Progress {
                        data: DataModel { enums: p.data.enums.insert(0, e), ..p.data },
                        needed,
                        enums: with_enum(p.enums, e),
                    },
                )
            },
        },
    }
}

/// Progress with a type.
#[verifier::opaque]
pub open spec fn with_type(
    t: HeaderTable,
    cache: Map<Seq<char>, SignatureModel>,
    p: Progress,
    index: u32,
) -> Result<Progress, HeaderError> {
    match t.at(index) {
        Found::Missing => Err(HeaderError::Skip),
        Found::Record(HeaderRecord::Unparsed) => Err(HeaderError::Skip),
        Found::Record(HeaderRecord::Class(c)) => with_class(t, cache, p, c),
        Found::Record(HeaderRecord::Enumeration { name, underlying, list }) => with_enumeration(
            t,
            p,
            name@,
            underlying,
            list,
        ),
        _ => Ok(p),
    }
}

/// The contents of a header once all types that it needs are in it, those with higher
/// indices first; and the enumerations of all headers. `depth` says through how many types
/// each is needed. Types that need each other in a circle would never all be in it: where
/// one is needed through as many as there are records, there is such a circle.
pub open spec fn completed(
    t: HeaderTable,
    cache: Map<Seq<char>, SignatureModel>,
    p: Progress,
    depth: spec_fn(u32) -> nat,
) -> (Result<DataModel, HeaderError>, Seq<EnumModel>)
    decreases load(p.needed, depth, t.records@.len()),
    when are_needed(t, p.needed)
{
    if p.needed.len() == 0 {
        (Ok(p.data), p.enums)
    } else {
        let i = p.needed.last();
        let rest = p.needed.drop_last();
        if depth(i) >= t.records@.len() {
            (Err(HeaderError::Malformed), p.enums)
        } else {
            match with_type(t, cache, Progress { needed: rest, ..p }, i) {
                Err(e) => (Err(e), p.enums),
                Ok(q) => {
                    proof {
                        lemma_type_grows(t, cache, Progress { needed: rest, ..p }, i);
                        lemma_load_falls(t, p.needed, depth, q.needed);
                    }
                    completed(t, cache, q, deeper(rest, depth, depth(i) + 1))
                },
            }
        }
    }
}

/// A header without contents.
pub open spec fn empty_data(ns: NamespaceModel) -> DataModel {
    DataModel {
        namespace: ns,
        forward_references: Seq::empty(),
        classes: Seq::empty(),
        enums: Seq::empty(),
    }
}

/// The header of a class, and the enumerations of all headers.
pub open spec fn header_of(
    t: HeaderTable,
    cache: Map<Seq<char>, SignatureModel>,
    class: u32,
    ns: NamespaceModel,
    enums: Seq<EnumModel>,
) -> (Result<DataModel, HeaderError>, Seq<EnumModel>) {
    let p = Progress { data: empty_data(ns), needed: Seq::empty(), enums };
    match with_type(t, cache, p, class) {
        Err(e) => (Err(e), enums),
        Ok(q) => completed(t, cache, q, |x: u32| 1),
    }
}

fn announce(v: &mut Vec<ForwardReference>, name: &str, kind: ClassKind) -> (r: Result<
    (),
    HeaderError,
>)
    ensures
        match r {
            Ok(_) => with_announced(views(old(v)@), name@, kind) == Ok::<
                Seq<RefModel>,
                HeaderError,
            >(views(final(v)@)),
            Err(e) => with_announced(views(old(v)@), name@, kind) == Err::<
                Seq<RefModel>,
                HeaderError,
            >(e),
        },
{
    reveal(with_announced);
    if skip_default_environment(name) {
        return Ok(());
    }
    if !can_extract_forward_reference(name) {
        return Err(HeaderError::Malformed);
    }
    match extract_forward_reference_from_template(name) {
        None => {
            let k: ForwardReferenceKind = match kind {
                ClassKind::Class => ForwardReferenceKind::Class,
                ClassKind::Struct => ForwardReferenceKind::Struct,
                ClassKind::Interface => {
                    return Err(HeaderError::Malformed);
                },
            };
            put_ref(
                v,
                ForwardReference {
                    kind: k,
                    usage: ForwardReferenceUsage::ByValue,
                    name: owned(name),
                },
            );
            Ok(())
        },
        Some(targ) => {
            if !can_typedef_template(name) {
                return Err(HeaderError::Malformed);
            }
            put_ref(
                v,
                ForwardReference {
                    kind: ForwardReferenceKind::TypedefInner,
                    usage: ForwardReferenceUsage::ByValue,
                    name: owned(targ),
                },
            );
            let r: ForwardReference = match typedef_template(name) {
                Some(td) => ForwardReference {
                    kind: ForwardReferenceKind::Typedef,
                    usage: ForwardReferenceUsage::ByValue,
                    name: cat3(name, "\n\t", td.as_str()),
                },
                None => ForwardReference {
                    kind: ForwardReferenceKind::TypedefInner,
                    usage: ForwardReferenceUsage::ByValue,
                    name: owned(name),
                },
            };
            put_ref(v, r);
            Ok(())
        },
    }
}

fn new_class(c: &HeaderClass, ns: &Namespace) -> (r: Class)
    requires
        can_name_templates(c.name@),
    ensures
        r@ == bare_class(*c, ns@),
{
    let k: Class = Class {
        namespace: ns.copy(),
        kind: c.kind,
        orig_name: c.name.clone(),
        name: Type::new(c.name.as_str(), ns),
        size: c.size,
        base_classes: Vec::new(),
        fields: Vec::new(),
        instance_methods: Vec::new(),
        static_methods: Vec::new(),
    };
    assert(k@.base_classes =~= Seq::<BaseModel>::empty());
    assert(k@.fields =~= Seq::<ClassFieldModel>::empty());
    assert(k@.instance_methods =~= Seq::<MethodModel>::empty());
    assert(k@.static_methods =~= Seq::<MethodModel>::empty());
    k
}

/// A header that is being made.
struct Making {
    data: Data,
    needed: Vec<u32>,
}

/// The model of a header that is being made.
spec fn making(m: Making, enums: Seq<Enum>) -> Progress {
    Progress { data: m.data@, needed: m.needed@, enums: views(enums) }
}

fn add_class(
    t: &HeaderTable,
    cache: &FunctionCache,
    m: Making,
    c: &HeaderClass,
    Ghost(enums): Ghost<Seq<Enum>>,
) -> (r: Result<Making, HeaderError>)
    ensures
        match r {
            Ok(n) => with_class(*t, cache@, making(m, enums), *c) == Ok::<Progress, HeaderError>(
                making(n, enums),
            ),
            Err(e) => with_class(*t, cache@, making(m, enums), *c) == Err::<Progress, HeaderError>(
                e,
            ),
        },
{
    reveal(with_class);
    let mut out: Making = m;
    if c.forward_reference {
        match announce(&mut out.data.forward_references, c.name.as_str(), c.kind) {
            Ok(_) => {
                return Ok(out);
            },
            Err(e) => {
                return Err(e);
            },
        }
    }
    if !can_typedef_template(c.name.as_str()) {
        return Err(HeaderError::Malformed);
    }
    let class: Class = new_class(c, &out.data.namespace);
    let mut g: Gathering = Gathering {
        class,
        needed: out.needed,
        refs: out.data.forward_references,
    };
    if let Some(list) = c.fields {
        match add_list(t, cache, &c.methods, &mut g, list, t.records.len()) {
            Ok(_) => {},
            Err(e) => {
                return Err(e);
            },
        }
    }
    let ghost x = g.class@;
    let mut classes: Vec<Class> = out.data.classes;
    let ghost before = classes@;
    classes.insert(0, g.class);
    assert(views(classes@) =~= views(before).insert(0, x));
    let data: Data = Data {
        namespace: out.data.namespace,
        forward_references: g.refs,
        classes,
        enums: out.data.enums,
    };
    Ok(Making { data, needed: g.needed })
}

fn add_enumeration(
    t: &HeaderTable,
    m: Making,
    name: &String,
    underlying: &TypeUse,
    list: u32,
    enums: &mut Vec<Enum>,
) -> (r: Result<Making, HeaderError>)
    ensures
        match r {
            Ok(n) => with_enumeration(*t, making(m, old(enums)@), name@, *underlying, list) == Ok::<
                Progress,
                HeaderError,
            >(making(n, final(enums)@)),
            Err(e) => with_enumeration(*t, making(m, old(enums)@), name@, *underlying, list)
                == Err::<Progress, HeaderError>(e) && final(enums)@ == old(enums)@,
        },
{
    reveal(with_enumeration);
    let mut out: Making = m;
    let u: Type = match named_type(t, underlying, &mut out.needed, &out.data.namespace) {
        Ok(u) => u,
        Err(e) => {
            return Err(e);
        },
    };
    let mut values: Vec<(String, Variant)> = Vec::new();
    assert(views(values@) =~= Seq::<(Seq<char>, Variant)>::empty());
    match add_enumerators(t, &mut values, list, t.records.len()) {
        Ok(_) => {},
        Err(e) => {
            return Err(e);
        },
    }
    let e: Enum = Enum { name: name.clone(), underlying: u, values };
    let ghost x = e@;
    let ghost before = out.data.enums@;
    let again: Enum = e.copy();
    out.data.enums.insert(0, e);
    assert(views(out.data.enums@) =~= views(before).insert(0, x));
    put_enum(enums, again);
    Ok(out)
}

/// Adds a type to a header. A class that is only announced becomes a reference; a class
/// or an enumeration comes before those that are there. What does not stand in headers
/// is passed over.
fn add_type(
    t: &HeaderTable,
    cache: &FunctionCache,
    m: Making,
    index: u32,
    enums: &mut Vec<Enum>,
) -> (r: Result<Making, HeaderError>)
    ensures
        match r {
            Ok(n) => with_type(*t, cache@, making(m, old(enums)@), index) == Ok::<
                Progress,
                HeaderError,
            >(making(n, final(enums)@)),
            Err(e) => with_type(*t, cache@, making(m, old(enums)@), index) == Err::<
                Progress,
                HeaderError,
            >(e) && final(enums)@ == old(enums)@,
        },
{
    reveal(with_type);
    match t.find(index) {
        None => if t.holds_primitive(index) {
            Ok(m)
        } else {
            Err(HeaderError::Skip)
        },
        Some(HeaderRecord::Unparsed) => Err(HeaderError::Skip),
        Some(HeaderRecord::Class(c)) => add_class(t, cache, m, c, Ghost(enums@)),
        Some(HeaderRecord::Enumeration { name, underlying, list }) => add_enumeration(
            t,
            m,
            name,
            underlying,
            *list,
            enums,
        ),
        Some(_) => Ok(m),
    }
}

impl Data {
    /// A header without contents.
    pub fn new(namespace: Namespace) -> (r: Data)
        ensures
            r@ == empty_data(namespace@),
    {
        let d: Data = Data {
            namespace,
            forward_references: Vec::new(),
            classes: Vec::new(),
            enums: Vec::new(),
        };
        assert(d@.forward_references =~= Seq::<RefModel>::empty());
        assert(d@.classes =~= Seq::<ClassModel>::empty());
        assert(d@.enums =~= Seq::<EnumModel>::empty());
        d
    }
}

fn copy_indices(v: &Vec<u32>) -> (r: Vec<u32>)
    ensures
        r@ == v@,
{
    let mut r: Vec<u32> = Vec::new();
    let mut i: usize = 0;
    while i < v.len()
        invariant
            i <= v@.len(),
            r@ == v@.take(i as int),
        decreases v.len() - i,
    {
        r.push(v[i]);
        i = i + 1;
        assert(r@ =~= v@.take(i as int));
    }
    assert(v@.take(i as int) =~= v@);
    r
}

fn first_depths(n: usize) -> (r: Vec<usize>)
    ensures
        r@.len() == n,
        forall|k: int| 0 <= k < n ==> #[trigger] r@[k] == 1,
{
    let mut r: Vec<usize> = Vec::new();
    let mut i: usize = 0;
    while i < n
        invariant
            i <= n,
            r@.len() == i,
            forall|k: int| 0 <= k < i ==> #[trigger] r@[k] == 1,
        decreases n - i,
    {
        r.push(1);
        i = i + 1;
    }
    r
}

fn deepened(
    old: &Vec<u32>,
    depths: &Vec<usize>,
    new: &Vec<u32>,
    d: usize,
    Ghost(depth): Ghost<spec_fn(u32) -> nat>,
) -> (r: Vec<usize>)
    requires
        depths@.len() == old@.len(),
        forall|k: int| 0 <= k < depths@.len() ==> #[trigger] depths@[k] == depth(old@[k]),
    ensures
        r@.len() == new@.len(),
        forall|k: int|
            0 <= k < r@.len() ==> #[trigger] r@[k] == deeper(old@, depth, d as nat)(new@[k]),
{
    let mut r: Vec<usize> = Vec::new();
    let mut i: usize = 0;
    while i < new.len()
        invariant
            i <= new@.len(),
            r@.len() == i,
            depths@.len() == old@.len(),
            forall|k: int| 0 <= k < depths@.len() ==> #[trigger] depths@[k] == depth(old@[k]),
            forall|k: int|
                0 <= k < i ==> #[trigger] r@[k] == deeper(old@, depth, d as nat)(new@[k]),
        decreases new.len() - i,
    {
        let x: u32 = new[i];
        let mut e: usize = d;
        let mut known: bool = false;
        let mut j: usize = 0;
        while j < old.len()
            invariant
                j <= old@.len(),
                depths@.len() == old@.len(),
                forall|k: int| 0 <= k < depths@.len() ==> #[trigger] depths@[k] == depth(old@[k]),
                known == old@.take(j as int).contains(x),
                known ==> e == depth(x),
                !known ==> e == d,
            decreases old.len() - j,
        {
            let ghost so_far = old@.take(j as int);
            let ghost more = old@.take(j + 1);
            if old[j] == x {
                known = true;
                e = depths[j];
                assert(more[j as int] == x);
            } else {
                proof {
                    if so_far.contains(x) {
                        let k = so_far.index_of(x);
                        assert(more[k] == x);
                    }
                    if more.contains(x) {
                        let k = more.index_of(x);
                        assert(so_far[k] == x);
                    }
                }
            }
            j = j + 1;
        }
        assert(old@.take(j as int) =~= old@);
        r.push(e);
        i = i + 1;
    }
    r
}

/// Gathers the header of a class: the class, and then, as long as any are needed, the
/// types that it needs. Every enumeration on the way is kept for a header of its own,
/// also where the header of the class fails.
pub fn build_header(
    t: &HeaderTable,
    cache: &FunctionCache,
    class: u32,
    namespace: &Namespace,
    enums: &mut Vec<Enum>,
) -> (r: Result<Data, HeaderError>)
    ensures
        ({
            let (h, all) = header_of(*t, cache@, class, namespace@, views(old(enums)@));
            &&& views(final(enums)@) == all
            &&& match r {
                Ok(d) => h == Ok::<DataModel, HeaderError>(d@),
                Err(e) => h == Err::<DataModel, HeaderError>(e),
            }
        }),
{
    let ghost first = views(enums@);
    let data: Data = Data::new(namespace.copy());
    let needed: Vec<u32> = Vec::new();
    assert(needed@ =~= Seq::<u32>::empty());
    let mut m: Making = Making { data, needed };
    let ghost empty = m;
    let ghost before_all = enums@;
    match add_type(t, cache, m, class, enums) {
        Ok(next) => {
            m = next;
        },
        Err(e) => {
            return Err(e);
        },
    }
    let ghost goal = header_of(*t, cache@, class, namespace@, first);
    let ghost mut depth: spec_fn(u32) -> nat = |x: u32| 1;
    let mut depths: Vec<usize> = first_depths(m.needed.len());
    proof {
        lemma_type_grows(*t, cache@, making(empty, before_all), class);
    }
    let n: usize = t.records.len();
    while m.needed.len() > 0
        invariant
            n == t.records@.len(),
            are_needed(*t, m.needed@),
            depths@.len() == m.needed@.len(),
            forall|k: int|
                0 <= k < depths@.len() ==> #[trigger] depths@[k] == depth(m.needed@[k]),
            goal == completed(*t, cache@, making(m, enums@), depth),
            goal == header_of(*t, cache@, class, namespace@, views(old(enums)@)),
        decreases load(m.needed@, depth, n as nat),
    {
        let ghost before = making(m, enums@);
        let ghost was = depth;
        let data: Data = m.data;
        let mut needed: Vec<u32> = m.needed;
        let (i, d): (u32, usize) = match (needed.pop(), depths.pop()) {
            (Some(i), Some(d)) => (i, d),
            _ => {
                assert(false);
                return Err(HeaderError::Malformed);
            },
        };
        assert(d == depth(i));
        if d >= n {
            return Err(HeaderError::Malformed);
        }
        let rest: Vec<u32> = copy_indices(&needed);
        m = Making { data, needed };
        let ghost popped = making(m, enums@);
        assert(popped == (Progress { needed: before.needed.drop_last(), ..before }));
        match add_type(t, cache, m, i, enums) {
            Ok(next) => {
                m = next;
            },
            Err(e) => {
                return Err(e);
            },
        }
        proof {
            lemma_type_grows(*t, cache@, popped, i);
            lemma_load_falls(*t, before.needed, depth, m.needed@);
            depth = deeper(rest@, depth, (d + 1) as nat);
        }
        depths = deepened(&rest, &depths, &m.needed, d + 1, Ghost(was));
    }
    Ok(m.data)
}

} // verus!
