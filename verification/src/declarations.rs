//! The functions that the sources declare.
//!
//! Methods come from the field lists of the classes, also those that were inlined at
//! every call and left no symbol. Free functions are known only where a body was made,
//! and come from the symbols of the modules.

use crate::field_attributes::{Access, MyFieldAttributes};
use crate::function_type::{FunctionType, FunctionTypeModel, ReturnModel, ReturnType};
use crate::header_build::{find_resolved, resolved_at};
use crate::header_model::{Found, HeaderClass, HeaderError, HeaderField, HeaderRecord, HeaderTable,
    OverloadItem, ResolvedMethod};
use crate::lcs::views;
use crate::order::{insert_ranked, inserted, is_le, lemma_push_has, lemma_text_le_antisymmetric,
    lemma_text_le_total, lemma_text_le_transitive, rank_of, text_le, Ranked};
use crate::pieces::{cat3, cat4};
use crate::search::{contains, has_part, join, joined};
use crate::text::{owned, same};
use crate::type_builder::opt;
use vstd::prelude::*;

verus! {

/// What is declared.
#[derive(Clone, Copy, PartialEq, Eq, Debug, Structural)]
pub enum DeclarationKind {
    Free,
    Method,
}

impl DeclarationKind {
    /// The kind in words.
    pub fn label(self) -> (r: &'static str)
        ensures
            r@ == match self {
                DeclarationKind::Free => "free"@,
                DeclarationKind::Method => "method"@,
            },
    {
        match self {
            DeclarationKind::Free => "free",
            DeclarationKind::Method => "method",
        }
    }
}

/// A function that is declared.
#[derive(Debug)]
pub struct Declaration {
    /// The full name of the class; nothing for a free function.
    pub class: Option<String>,
    pub name: String,
    /// The return type, where there is one, and the types of the arguments.
    pub signature: String,
    /// Who may use the function; unspecified for a free function.
    pub access: Access,
    pub is_virtual: bool,
    pub is_static: bool,
    pub is_const: bool,
    pub kind: DeclarationKind,
}

/// A function that is declared, as a model.
pub struct DeclarationModel {
    pub class: Option<Seq<char>>,
    pub name: Seq<char>,
    pub signature: Seq<char>,
    pub access: Access,
    pub is_virtual: bool,
    pub is_static: bool,
    pub is_const: bool,
    pub kind: DeclarationKind,
}

impl View for Declaration {
    type V = DeclarationModel;

    open spec fn view(&self) -> DeclarationModel {
        DeclarationModel {
            class: opt(self.class),
            name: self.name@,
            signature: self.signature@,
            access: self.access,
            is_virtual: self.is_virtual,
            is_static: self.is_static,
            is_const: self.is_const,
            kind: self.kind,
        }
    }
}

// ---------------------------------------------------------------------------
// The order of declarations
// ---------------------------------------------------------------------------

/// What is missing stands before what is there.
pub open spec fn opt_le(a: Option<Seq<char>>, b: Option<Seq<char>>) -> bool {
    match (a, b) {
        (None, _) => true,
        (Some(_), None) => false,
        (Some(x), Some(y)) => text_le(x, y),
    }
}

/// The place of an access: none, then by name.
pub open spec fn access_rank(a: Access) -> int {
    match a {
        Access::Unspecified => 0,
        Access::Private => 1,
        Access::Protected => 2,
        Access::Public => 3,
    }
}

/// What is false stands before what is true.
pub open spec fn bool_lt(a: bool, b: bool) -> bool {
    !a && b
}

/// Whether `a` may stand before `b` by what their names do not tell.
pub open spec fn details_le(a: DeclarationModel, b: DeclarationModel) -> bool {
    if a.access != b.access {
        access_rank(a.access) < access_rank(b.access)
    } else if a.is_virtual != b.is_virtual {
        bool_lt(a.is_virtual, b.is_virtual)
    } else if a.is_static != b.is_static {
        bool_lt(a.is_static, b.is_static)
    } else if a.is_const != b.is_const {
        bool_lt(a.is_const, b.is_const)
    } else {
        a.kind == b.kind || a.kind is Free
    }
}

/// Whether `a` may stand before `b`: by class, free functions first, by name, by
/// signature, and then by the rest.
pub open spec fn declaration_le(a: DeclarationModel, b: DeclarationModel) -> bool {
    if a.class != b.class {
        opt_le(a.class, b.class)
    } else if a.name != b.name {
        text_le(a.name, b.name)
    } else if a.signature != b.signature {
        text_le(a.signature, b.signature)
    } else {
        details_le(a, b)
    }
}

/// Declarations with one more, at its place.
pub open spec fn placed(rows: Seq<DeclarationModel>, d: DeclarationModel) -> Seq<
    DeclarationModel,
> {
    inserted(rows, d, |a: DeclarationModel, b: DeclarationModel| declaration_le(a, b))
}

/// Declarations with one more, each once and in order.
pub open spec fn with_row(rows: Seq<DeclarationModel>, d: DeclarationModel) -> Seq<
    DeclarationModel,
> {
    if rows.contains(d) {
        rows
    } else {
        placed(rows, d)
    }
}

fn rank_of_access(a: Access) -> (r: u8)
    ensures
        r == access_rank(a),
{
    match a {
        Access::Unspecified => 0,
        Access::Private => 1,
        Access::Protected => 2,
        Access::Public => 3,
    }
}

fn same_class(a: &Option<String>, b: &Option<String>) -> (r: bool)
    ensures
        r == (opt(*a) == opt(*b)),
{
    match (a, b) {
        (None, None) => true,
        (Some(x), Some(y)) => same(x.as_str(), y.as_str()),
        _ => false,
    }
}

fn is_class_le(a: &Option<String>, b: &Option<String>) -> (r: bool)
    ensures
        r == opt_le(opt(*a), opt(*b)),
{
    match (a, b) {
        (None, _) => true,
        (Some(_), None) => false,
        (Some(x), Some(y)) => is_le(x.as_str(), y.as_str()),
    }
}

fn are_details_le(a: &Declaration, b: &Declaration) -> (r: bool)
    ensures
        r == details_le(a@, b@),
{
    if a.access != b.access {
        rank_of_access(a.access) < rank_of_access(b.access)
    } else if a.is_virtual != b.is_virtual {
        b.is_virtual
    } else if a.is_static != b.is_static {
        b.is_static
    } else if a.is_const != b.is_const {
        b.is_const
    } else {
        a.kind == b.kind || a.kind == DeclarationKind::Free
    }
}

impl Ranked for Declaration {
    open spec fn before(a: DeclarationModel, b: DeclarationModel) -> bool {
        declaration_le(a, b)
    }

    fn is_before(&self, other: &Self) -> (r: bool) {
        if !same_class(&self.class, &other.class) {
            is_class_le(&self.class, &other.class)
        } else if !same(self.name.as_str(), other.name.as_str()) {
            is_le(self.name.as_str(), other.name.as_str())
        } else if !same(self.signature.as_str(), other.signature.as_str()) {
            is_le(self.signature.as_str(), other.signature.as_str())
        } else {
            are_details_le(self, other)
        }
    }
}

impl Declaration {
    /// Whether both declare the same.
    pub fn is_same(&self, other: &Declaration) -> (r: bool)
        ensures
            r == (self@ == other@),
    {
        same_class(&self.class, &other.class) && same(self.name.as_str(), other.name.as_str())
            && same(self.signature.as_str(), other.signature.as_str()) && self.access
            == other.access && self.is_virtual == other.is_virtual && self.is_static
            == other.is_static && self.is_const == other.is_const && self.kind == other.kind
    }
}

fn add_row(rows: &mut Vec<Declaration>, d: Declaration)
    ensures
        views(final(rows)@) == with_row(views(old(rows)@), d@),
{
    let ghost m = views(rows@);
    let mut i: usize = 0;
    while i < rows.len()
        invariant
            m == views(rows@),
            m == views(old(rows)@),
            i <= rows@.len(),
            forall|k: int| 0 <= k < i ==> #[trigger] m[k] != d@,
        decreases rows.len() - i,
    {
        assert(m[i as int] == rows@[i as int]@);
        if rows[i].is_same(&d) {
            assert(m.contains(d@));
            return ;
        }
        i = i + 1;
    }
    assert(!m.contains(d@));
    assert(rank_of::<Declaration>() =~= (|a: DeclarationModel, b: DeclarationModel|
        declaration_le(a, b)));
    insert_ranked(rows, d);
}

// ---------------------------------------------------------------------------
// Signatures
// ---------------------------------------------------------------------------

/// The signature of a function.
pub open spec fn signature_of(f: FunctionTypeModel) -> Seq<char> {
    let args = joined(f.arg_types, ", "@);
    match f.return_type {
        ReturnModel::Type(ty) => ty + " ("@ + args + ")"@,
        _ => "("@ + args + ")"@,
    }
}

/// The signature of a function.
pub fn render_signature(fn_t: &FunctionType) -> (r: String)
    ensures
        r@ == signature_of(fn_t@),
{
    let args: String = join(&fn_t.arg_types, ", ");
    match &fn_t.return_type {
        ReturnType::Type(ty) => cat4(ty.as_str(), " (", args.as_str(), ")"),
        _ => cat3("(", args.as_str(), ")"),
    }
}

// ---------------------------------------------------------------------------
// Methods
// ---------------------------------------------------------------------------

/// Whether the compiler made a method.
pub open spec fn is_helper(name: Seq<char>) -> bool {
    name == "__vecDelDtor"@ || name == "__local_vftable_ctor_closure"@ || name
        == "__dflt_ctor_closure"@
}

/// The declaration of a method.
pub open spec fn method_row(
    class_name: Seq<char>,
    f: FunctionTypeModel,
    a: MyFieldAttributes,
) -> DeclarationModel {
    DeclarationModel {
        class: Some(class_name),
        name: f.name,
        signature: signature_of(f),
        access: a.access_of(),
        is_virtual: a.method_kind() == 1 || a.method_kind() == 4 || a.method_kind() == 5
            || a.method_kind() == 6,
        is_static: a.method_kind() == 2 || f.attrs.is_static,
        is_const: f.attrs.is_const,
        kind: DeclarationKind::Method,
    }
}

/// Declarations with a method of a class. One that the compiler made, or whose type cannot
/// be told, adds nothing.
pub open spec fn with_method(
    rows: Seq<DeclarationModel>,
    class: HeaderClass,
    name: Seq<char>,
    a: MyFieldAttributes,
    ty: u32,
) -> Seq<DeclarationModel> {
    if is_helper(name) {
        rows
    } else {
        match resolved_at(class.methods@, name, ty, 0) {
            Some(r) => match r.parsed {
                Some(f) => with_row(rows, method_row(class.name@, f@, a)),
                None => rows,
            },
            None => rows,
        }
    }
}

/// Declarations with the first `n` methods of a name.
pub open spec fn with_overloads(
    rows: Seq<DeclarationModel>,
    class: HeaderClass,
    name: Seq<char>,
    v: Seq<OverloadItem>,
    n: int,
) -> Seq<DeclarationModel>
    decreases n,
{
    if n <= 0 {
        rows
    } else {
        with_method(
            with_overloads(rows, class, name, v, n - 1),
            class,
            name,
            v[n - 1].attributes,
            v[n - 1].method_type,
        )
    }
}

/// Declarations with what a field of a class declares.
pub open spec fn with_field(
    t: HeaderTable,
    rows: Seq<DeclarationModel>,
    class: HeaderClass,
    field: HeaderField,
) -> Result<Seq<DeclarationModel>, HeaderError> {
    match field {
        HeaderField::Method { name, attributes, method_type } => Ok(
            with_method(rows, class, name@, attributes, method_type),
        ),
        HeaderField::OverloadedMethod { name, method_list } => match t.at(method_list) {
            Found::Record(HeaderRecord::MethodList { methods }) => Ok(
                with_overloads(rows, class, name@, methods@, methods@.len() as int),
            ),
            Found::Record(HeaderRecord::Unparsed) => Err(HeaderError::Skip),
            Found::Missing => Err(HeaderError::Skip),
            _ => Ok(rows),
        },
        _ => Ok(rows),
    }
}

/// Declarations with what the first `n` fields of a class declare.
pub open spec fn with_fields(
    t: HeaderTable,
    rows: Seq<DeclarationModel>,
    class: HeaderClass,
    fields: Seq<HeaderField>,
    n: int,
) -> Result<Seq<DeclarationModel>, HeaderError>
    decreases n,
{
    if n <= 0 {
        Ok(rows)
    } else {
        match with_fields(t, rows, class, fields, n - 1) {
            Err(e) => Err(e),
            Ok(v) => with_field(t, v, class, fields[n - 1]),
        }
    }
}

/// Declarations with what a list of fields and up to `left` lists that continue it declare.
/// `Skip` where a list cannot be read, `Malformed` where there are more.
pub open spec fn with_lists(
    t: HeaderTable,
    rows: Seq<DeclarationModel>,
    class: HeaderClass,
    list: u32,
    left: nat,
) -> Result<Seq<DeclarationModel>, HeaderError>
    decreases left,
{
    match t.at(list) {
        Found::Record(HeaderRecord::FieldList { fields, continuation }) => match with_fields(
            t,
            rows,
            class,
            fields@,
            fields@.len() as int,
        ) {
            Err(e) => Err(e),
            Ok(v) => match continuation {
                None => Ok(v),
                Some(next) => if left == 0 {
                    Err(HeaderError::Malformed)
                } else {
                    with_lists(t, v, class, next, (left - 1) as nat)
                },
            },
        },
        Found::Record(HeaderRecord::Unparsed) => Err(HeaderError::Skip),
        Found::Missing => Err(HeaderError::Skip),
        _ => Ok(rows),
    }
}

/// Declarations with what a list of fields and the lists that continue it declare. `Skip`
/// where a list cannot be read, `Malformed` where they go round: where more follow than
/// there are records.
pub open spec fn with_list(
    t: HeaderTable,
    rows: Seq<DeclarationModel>,
    class: HeaderClass,
    list: u32,
) -> Result<Seq<DeclarationModel>, HeaderError> {
    with_lists(t, rows, class, list, t.records@.len())
}

/// Declarations with those of the classes among the first `n` records.
pub open spec fn with_classes(t: HeaderTable, rows: Seq<DeclarationModel>, n: int) -> Result<
    Seq<DeclarationModel>,
    HeaderError,
>
    decreases n,
{
    if n <= 0 {
        Ok(rows)
    } else {
        match with_classes(t, rows, n - 1) {
            Err(e) => Err(e),
            Ok(v) => match t.records@[n - 1] {
                HeaderRecord::Class(c) => if c.forward_reference {
                    Ok(v)
                } else {
                    match c.fields {
                        Some(list) => with_list(t, v, c, list),
                        None => Ok(v),
                    }
                },
                _ => Ok(v),
            },
        }
    }
}

proof fn lemma_fields_err(
    t: HeaderTable,
    rows: Seq<DeclarationModel>,
    class: HeaderClass,
    fields: Seq<HeaderField>,
    i: int,
    n: int,
)
    requires
        0 <= i <= n,
        with_fields(t, rows, class, fields, i) is Err,
    ensures
        with_fields(t, rows, class, fields, n) == with_fields(t, rows, class, fields, i),
    decreases n,
{
    if i < n {
        lemma_fields_err(t, rows, class, fields, i, n - 1);
    }
}

proof fn lemma_classes_err(t: HeaderTable, rows: Seq<DeclarationModel>, i: int, n: int)
    requires
        0 <= i <= n,
        with_classes(t, rows, i) is Err,
    ensures
        with_classes(t, rows, n) == with_classes(t, rows, i),
    decreases n,
{
    if i < n {
        lemma_classes_err(t, rows, i, n - 1);
    }
}

fn add_method(
    rows: &mut Vec<Declaration>,
    class: &HeaderClass,
    name: &str,
    a: MyFieldAttributes,
    ty: u32,
)
    ensures
        views(final(rows)@) == with_method(views(old(rows)@), *class, name@, a, ty),
{
    if same(name, "__vecDelDtor") || same(name, "__local_vftable_ctor_closure") || same(
        name,
        "__dflt_ctor_closure",
    ) {
        return ;
    }
    let found: Option<&ResolvedMethod> = find_resolved(&class.methods, name, ty);
    if let Some(r) = found {
        if let Some(f) = &r.parsed {
            let row: Declaration = Declaration {
                class: Some(owned(class.name.as_str())),
                name: owned(f.name.as_str()),
                signature: render_signature(f),
                access: a.access(),
                is_virtual: a.is_virtual(),
                is_static: a.is_static() || f.attrs.is_static,
                is_const: f.attrs.is_const,
                kind: DeclarationKind::Method,
            };
            assert(row@ == method_row(class.name@, f@, a));
            add_row(rows, row);
        }
    }
}

fn add_field(
    t: &HeaderTable,
    rows: &mut Vec<Declaration>,
    class: &HeaderClass,
    field: &HeaderField,
) -> (r: Result<(), HeaderError>)
    ensures
        match r {
            Ok(_) => with_field(*t, views(old(rows)@), *class, *field) == Ok::<
                Seq<DeclarationModel>,
                HeaderError,
            >(views(final(rows)@)),
            Err(e) => with_field(*t, views(old(rows)@), *class, *field) == Err::<
                Seq<DeclarationModel>,
                HeaderError,
            >(e),
        },
{
    match field {
        HeaderField::Method { name, attributes, method_type } => {
            add_method(rows, class, name.as_str(), *attributes, *method_type);
            Ok(())
        },
        HeaderField::OverloadedMethod { name, method_list } => {
            match t.find(*method_list) {
                Some(HeaderRecord::MethodList { methods }) => {
                    let ghost start = views(rows@);
                    let mut i: usize = 0;
                    while i < methods.len()
                        invariant
                            start == views(old(rows)@),
                            i <= methods@.len(),
                            views(rows@) == with_overloads(
                                start,
                                *class,
                                name@,
                                methods@,
                                i as int,
                            ),
                        decreases methods.len() - i,
                    {
                        add_method(
                            rows,
                            class,
                            name.as_str(),
                            methods[i].attributes,
                            methods[i].method_type,
                        );
                        i = i + 1;
                    }
                    Ok(())
                },
                Some(HeaderRecord::Unparsed) => Err(HeaderError::Skip),
                Some(_) => Ok(()),
                None => if t.holds_primitive(*method_list) {
                    Ok(())
                } else {
                    Err(HeaderError::Skip)
                },
            }
        },
        _ => Ok(()),
    }
}

fn add_fields(
    t: &HeaderTable,
    rows: &mut Vec<Declaration>,
    class: &HeaderClass,
    fields: &Vec<HeaderField>,
) -> (r: Result<(), HeaderError>)
    ensures
        match r {
            Ok(_) => with_fields(
                *t,
                views(old(rows)@),
                *class,
                fields@,
                fields@.len() as int,
            ) == Ok::<Seq<DeclarationModel>, HeaderError>(views(final(rows)@)),
            Err(e) => with_fields(
                *t,
                views(old(rows)@),
                *class,
                fields@,
                fields@.len() as int,
            ) == Err::<Seq<DeclarationModel>, HeaderError>(e),
        },
{
    let ghost start = views(rows@);
    let mut i: usize = 0;
    while i < fields.len()
        invariant
            start == views(old(rows)@),
            i <= fields@.len(),
            with_fields(*t, start, *class, fields@, i as int) == Ok::<
                Seq<DeclarationModel>,
                HeaderError,
            >(views(rows@)),
        decreases fields.len() - i,
    {
        match add_field(t, rows, class, &fields[i]) {
            Ok(_) => {},
            Err(e) => {
                proof {
                    lemma_fields_err(*t, start, *class, fields@, i + 1, fields@.len() as int);
                }
                return Err(e);
            },
        }
        i = i + 1;
    }
    Ok(())
}

fn add_field_list_methods(
    t: &HeaderTable,
    rows: &mut Vec<Declaration>,
    class: &HeaderClass,
    list: u32,
    left: usize,
) -> (r: Result<(), HeaderError>)
    ensures
        match r {
            Ok(_) => with_lists(*t, views(old(rows)@), *class, list, left as nat) == Ok::<
                Seq<DeclarationModel>,
                HeaderError,
            >(views(final(rows)@)),
            Err(e) => with_lists(*t, views(old(rows)@), *class, list, left as nat) == Err::<
                Seq<DeclarationModel>,
                HeaderError,
            >(e),
        },
    decreases left,
{
    match t.find(list) {
        Some(HeaderRecord::FieldList { fields, continuation }) => {
            match add_fields(t, rows, class, fields) {
                Ok(_) => {},
                Err(e) => {
                    return Err(e);
                },
            }
            match continuation {
                None => Ok(()),
                Some(next) => if left == 0 {
                    Err(HeaderError::Malformed)
                } else {
                    add_field_list_methods(t, rows, class, *next, left - 1)
                },
            }
        },
        Some(HeaderRecord::Unparsed) => Err(HeaderError::Skip),
        Some(_) => Ok(()),
        None => if t.holds_primitive(list) {
            Ok(())
        } else {
            Err(HeaderError::Skip)
        },
    }
}

/// Adds the methods of the classes. Fails where a list of fields or of methods cannot be
/// read.
pub fn collect_methods(t: &HeaderTable, rows: &mut Vec<Declaration>) -> (r: Result<(), HeaderError>)
    ensures
        match r {
            Ok(_) => with_classes(*t, views(old(rows)@), t.records@.len() as int) == Ok::<
                Seq<DeclarationModel>,
                HeaderError,
            >(views(final(rows)@)),
            Err(e) => with_classes(*t, views(old(rows)@), t.records@.len() as int) == Err::<
                Seq<DeclarationModel>,
                HeaderError,
            >(e),
        },
{
    let ghost start = views(rows@);
    let mut i: usize = 0;
    while i < t.records.len()
        invariant
            start == views(old(rows)@),
            i <= t.records@.len(),
            with_classes(*t, start, i as int) == Ok::<Seq<DeclarationModel>, HeaderError>(
                views(rows@),
            ),
        decreases t.records.len() - i,
    {
        if let HeaderRecord::Class(c) = &t.records[i] {
            if !c.forward_reference {
                if let Some(list) = c.fields {
                    match add_field_list_methods(t, rows, c, list, t.records.len()) {
                        Ok(_) => {},
                        Err(e) => {
                            proof {
                                lemma_classes_err(*t, start, i + 1, t.records@.len() as int);
                            }
                            return Err(e);
                        },
                    }
                }
            }
        }
        i = i + 1;
    }
    Ok(())
}

// ---------------------------------------------------------------------------
// Free functions
// ---------------------------------------------------------------------------

/// A procedure among the symbols of a module.
pub struct FreeProcedure {
    pub name: String,
    /// Whether it has a type of its own module that is that of a free function.
    pub is_free: bool,
    /// Whether other modules see it.
    pub global: bool,
    /// Its type, as the type formatter makes it.
    pub parsed: Option<FunctionType>,
}

/// The declaration of a free function. What the compiler made holds a backquote in its
/// name and declares nothing.
pub open spec fn free_row(p: FreeProcedure) -> Option<DeclarationModel> {
    if !p.is_free || contains(p.name@, "`"@) {
        None
    } else {
        match p.parsed {
            None => None,
            Some(f) => Some(
                DeclarationModel {
                    class: None,
                    name: p.name@,
                    signature: signature_of(f@),
                    access: Access::Unspecified,
                    is_virtual: false,
                    is_static: !p.global,
                    is_const: false,
                    kind: DeclarationKind::Free,
                },
            ),
        }
    }
}

/// Declarations with those of the first `n` procedures.
pub open spec fn with_procedures(
    rows: Seq<DeclarationModel>,
    v: Seq<FreeProcedure>,
    n: int,
) -> Seq<DeclarationModel>
    decreases n,
{
    if n <= 0 {
        rows
    } else {
        let before = with_procedures(rows, v, n - 1);
        match free_row(v[n - 1]) {
            Some(d) => with_row(before, d),
            None => before,
        }
    }
}

/// Adds the free functions among some procedures.
pub fn collect_free_functions(procedures: &Vec<FreeProcedure>, rows: &mut Vec<Declaration>)
    ensures
        views(final(rows)@) == with_procedures(
            views(old(rows)@),
            procedures@,
            procedures@.len() as int,
        ),
{
    let ghost start = views(rows@);
    let mut i: usize = 0;
    while i < procedures.len()
        invariant
            start == views(old(rows)@),
            i <= procedures@.len(),
            views(rows@) == with_procedures(start, procedures@, i as int),
        decreases procedures.len() - i,
    {
        let p: &FreeProcedure = &procedures[i];
        if p.is_free && !has_part(p.name.as_str(), "`") {
            if let Some(f) = &p.parsed {
                let row: Declaration = Declaration {
                    class: None,
                    name: owned(p.name.as_str()),
                    signature: render_signature(f),
                    access: Access::Unspecified,
                    is_virtual: false,
                    is_static: !p.global,
                    is_const: false,
                    kind: DeclarationKind::Free,
                };
                assert(free_row(*p) == Some(row@));
                add_row(rows, row);
            }
        }
        i = i + 1;
    }
}

/// All declarations of a database.
pub open spec fn all_declarations(t: HeaderTable, procedures: Seq<FreeProcedure>) -> Result<
    Seq<DeclarationModel>,
    HeaderError,
> {
    match with_classes(t, Seq::empty(), t.records@.len() as int) {
        Err(e) => Err(e),
        Ok(rows) => Ok(with_procedures(rows, procedures, procedures.len() as int)),
    }
}

/// The declarations of a database, each once and in order.
pub fn dump_declarations(t: &HeaderTable, procedures: &Vec<FreeProcedure>) -> (r: Result<
    Vec<Declaration>,
    HeaderError,
>)
    ensures
        match r {
            Ok(v) => all_declarations(*t, procedures@) == Ok::<Seq<DeclarationModel>, HeaderError>(
                views(v@),
            ),
            Err(e) => all_declarations(*t, procedures@) == Err::<
                Seq<DeclarationModel>,
                HeaderError,
            >(e),
        },
{
    let mut rows: Vec<Declaration> = Vec::new();
    assert(views(rows@) =~= Seq::<DeclarationModel>::empty());
    match collect_methods(t, &mut rows) {
        Ok(_) => {},
        Err(e) => {
            return Err(e);
        },
    }
    collect_free_functions(procedures, &mut rows);
    Ok(rows)
}

// ---------------------------------------------------------------------------
// Each declaration once and in order
// ---------------------------------------------------------------------------

/// Whether declarations are in order, each once.
pub open spec fn in_order(rows: Seq<DeclarationModel>) -> bool {
    forall|i: int, j: int|
        0 <= i < j < rows.len() ==> declaration_le(#[trigger] rows[i], #[trigger] rows[j])
            && rows[i] != rows[j]
}

proof fn lemma_le_total(a: DeclarationModel, b: DeclarationModel)
    ensures
        declaration_le(a, b) || declaration_le(b, a),
{
    lemma_text_le_total(a.name, b.name);
    lemma_text_le_total(a.signature, b.signature);
    if a.class is Some && b.class is Some {
        lemma_text_le_total(a.class->0, b.class->0);
    }
}

proof fn lemma_le_transitive(a: DeclarationModel, b: DeclarationModel, c: DeclarationModel)
    requires
        declaration_le(a, b),
        declaration_le(b, c),
    ensures
        declaration_le(a, c),
{
    if a.class != b.class || b.class != c.class {
        if a.class is Some && b.class is Some && c.class is Some {
            lemma_text_le_total(b.class->0, b.class->0);
            lemma_text_le_transitive(a.class->0, b.class->0, c.class->0);
            if a.class == c.class {
                lemma_text_le_antisymmetric(a.class->0, b.class->0);
            }
        }
    } else if a.name != b.name || b.name != c.name {
        lemma_text_le_total(b.name, b.name);
        lemma_text_le_transitive(a.name, b.name, c.name);
        if a.name == c.name {
            lemma_text_le_antisymmetric(a.name, b.name);
        }
    } else if a.signature != b.signature || b.signature != c.signature {
        lemma_text_le_total(b.signature, b.signature);
        lemma_text_le_transitive(a.signature, b.signature, c.signature);
        if a.signature == c.signature {
            lemma_text_le_antisymmetric(a.signature, b.signature);
        }
    }
}

proof fn lemma_with_row(rows: Seq<DeclarationModel>, d: DeclarationModel)
    requires
        in_order(rows),
    ensures
        in_order(with_row(rows, d)),
        forall|x: DeclarationModel| #[trigger]
            with_row(rows, d).contains(x) == (rows.contains(x) || x == d),
{
    if !rows.contains(d) {
        lemma_inserted_in_order(rows, d);
    }
}

proof fn lemma_inserted_in_order(rows: Seq<DeclarationModel>, d: DeclarationModel)
    requires
        in_order(rows),
        !rows.contains(d),
    ensures
        in_order(placed(rows, d)),
        forall|x: DeclarationModel| #[trigger]
            placed(rows, d).contains(x) == (rows.contains(x) || x == d),
    decreases rows.len(),
{
    let le = |a: DeclarationModel, b: DeclarationModel| declaration_le(a, b);
    let out = placed(rows, d);
    if rows.len() == 0 || le(rows.last(), d) {
        assert(out == rows.push(d));
        assert forall|i: int, j: int| 0 <= i < j < out.len() implies declaration_le(
            #[trigger] out[i],
            #[trigger] out[j],
        ) && out[i] != out[j] by {
            assert(out[i] == rows[i]);
            if j < rows.len() {
                assert(out[j] == rows[j]);
            } else {
                assert(rows.contains(rows[i]));
                if i < rows.len() - 1 {
                    assert(declaration_le(rows[i], rows[rows.len() - 1]));
                    lemma_le_transitive(rows[i], rows[rows.len() - 1], d);
                }
            }
        }
        assert forall|x: DeclarationModel| #[trigger] out.contains(x) == (rows.contains(x) || x
            == d) by {
            lemma_push_has(rows, d, x);
        }
    } else {
        let init = rows.drop_last();
        let last = rows.last();
        assert(rows =~= init.push(last));
        assert forall|i: int, j: int| 0 <= i < j < init.len() implies declaration_le(
            #[trigger] init[i],
            #[trigger] init[j],
        ) && init[i] != init[j] by {
            assert(init[i] == rows[i] && init[j] == rows[j]);
        }
        if init.contains(d) {
            let k = init.index_of(d);
            assert(rows[k] == d);
        }
        lemma_inserted_in_order(init, d);
        let inner = placed(init, d);
        assert(out == inner.push(last));
        lemma_le_total(d, last);
        assert(rows.contains(last)) by {
            assert(rows[rows.len() - 1] == last);
        }
        assert forall|i: int, j: int| 0 <= i < j < out.len() implies declaration_le(
            #[trigger] out[i],
            #[trigger] out[j],
        ) && out[i] != out[j] by {
            assert(out[i] == inner[i]);
            if j < inner.len() {
                assert(out[j] == inner[j]);
            } else {
                assert(inner.contains(inner[i]));
                if inner[i] != d {
                    assert(init.contains(inner[i]));
                    let k = init.index_of(inner[i]);
                    assert(rows[k] == inner[i]);
                    assert(declaration_le(rows[k], rows[rows.len() - 1]));
                }
            }
        }
        assert forall|x: DeclarationModel| #[trigger] out.contains(x) == (rows.contains(x) || x
            == d) by {
            lemma_push_has(inner, last, x);
            lemma_push_has(init, last, x);
            assert(inner.contains(x) == (init.contains(x) || x == d));
        }
    }
}

proof fn lemma_overloads_in_order(
    rows: Seq<DeclarationModel>,
    class: HeaderClass,
    name: Seq<char>,
    v: Seq<OverloadItem>,
    n: int,
)
    requires
        in_order(rows),
    ensures
        in_order(with_overloads(rows, class, name, v, n)),
    decreases n,
{
    if n > 0 {
        lemma_overloads_in_order(rows, class, name, v, n - 1);
        let before = with_overloads(rows, class, name, v, n - 1);
        lemma_method_in_order(before, class, name, v[n - 1].attributes, v[n - 1].method_type);
    }
}

proof fn lemma_method_in_order(
    rows: Seq<DeclarationModel>,
    class: HeaderClass,
    name: Seq<char>,
    a: MyFieldAttributes,
    ty: u32,
)
    requires
        in_order(rows),
    ensures
        in_order(with_method(rows, class, name, a, ty)),
{
    if let Some(r) = resolved_at(class.methods@, name, ty, 0) {
        if let Some(f) = r.parsed {
            lemma_with_row(rows, method_row(class.name@, f@, a));
        }
    }
}

proof fn lemma_fields_in_order(
    t: HeaderTable,
    rows: Seq<DeclarationModel>,
    class: HeaderClass,
    fields: Seq<HeaderField>,
    n: int,
)
    requires
        in_order(rows),
        with_fields(t, rows, class, fields, n) is Ok,
    ensures
        in_order(with_fields(t, rows, class, fields, n)->Ok_0),
    decreases n,
{
    if n > 0 {
        lemma_fields_in_order(t, rows, class, fields, n - 1);
        let before = with_fields(t, rows, class, fields, n - 1)->Ok_0;
        match fields[n - 1] {
            HeaderField::Method { name, attributes, method_type } => {
                lemma_method_in_order(before, class, name@, attributes, method_type);
            },
            HeaderField::OverloadedMethod { name, method_list } => {
                if let Found::Record(HeaderRecord::MethodList { methods }) = t.at(method_list) {
                    lemma_overloads_in_order(
                        before,
                        class,
                        name@,
                        methods@,
                        methods@.len() as int,
                    );
                }
            },
            _ => {},
        }
    }
}

proof fn lemma_list_in_order(
    t: HeaderTable,
    rows: Seq<DeclarationModel>,
    class: HeaderClass,
    list: u32,
    left: nat,
)
    requires
        in_order(rows),
        with_lists(t, rows, class, list, left) is Ok,
    ensures
        in_order(with_lists(t, rows, class, list, left)->Ok_0),
    decreases left,
{
    if let Found::Record(HeaderRecord::FieldList { fields, continuation }) = t.at(list) {
        lemma_fields_in_order(t, rows, class, fields@, fields@.len() as int);
        let v = with_fields(t, rows, class, fields@, fields@.len() as int)->Ok_0;
        if let Some(next) = continuation {
            lemma_list_in_order(t, v, class, next, (left - 1) as nat);
        }
    }
}

proof fn lemma_classes_in_order(t: HeaderTable, n: int)
    requires
        with_classes(t, Seq::empty(), n) is Ok,
    ensures
        in_order(with_classes(t, Seq::empty(), n)->Ok_0),
    decreases n,
{
    if n > 0 {
        lemma_classes_in_order(t, n - 1);
        let v = with_classes(t, Seq::empty(), n - 1)->Ok_0;
        if let HeaderRecord::Class(c) = t.records@[n - 1] {
            if !c.forward_reference {
                if let Some(list) = c.fields {
                    lemma_list_in_order(t, v, c, list, t.records@.len());
                }
            }
        }
    }
}

proof fn lemma_procedures_in_order(rows: Seq<DeclarationModel>, v: Seq<FreeProcedure>, n: int)
    requires
        in_order(rows),
    ensures
        in_order(with_procedures(rows, v, n)),
    decreases n,
{
    if n > 0 {
        lemma_procedures_in_order(rows, v, n - 1);
        if let Some(d) = free_row(v[n - 1]) {
            lemma_with_row(with_procedures(rows, v, n - 1), d);
        }
    }
}

/// The declarations of a database are in order, and each is there once.
pub proof fn lemma_declarations_are_in_order(t: HeaderTable, procedures: Seq<FreeProcedure>)
    requires
        all_declarations(t, procedures) is Ok,
    ensures
        in_order(all_declarations(t, procedures)->Ok_0),
{
    lemma_classes_in_order(t, t.records@.len() as int);
    let rows = with_classes(t, Seq::empty(), t.records@.len() as int)->Ok_0;
    lemma_procedures_in_order(rows, procedures, procedures.len() as int);
}

// ---------------------------------------------------------------------------
// What is declared is there, and nothing else
// ---------------------------------------------------------------------------

/// Whether a method declares `x`.
pub open spec fn method_declares(
    class: HeaderClass,
    name: Seq<char>,
    a: MyFieldAttributes,
    ty: u32,
    x: DeclarationModel,
) -> bool {
    !is_helper(name) && match resolved_at(class.methods@, name, ty, 0) {
        Some(r) => match r.parsed {
            Some(f) => x == method_row(class.name@, f@, a),
            None => false,
        },
        None => false,
    }
}

/// Whether one of some methods of a name declares `x`.
pub open spec fn overload_declares(
    class: HeaderClass,
    name: Seq<char>,
    v: Seq<OverloadItem>,
    n: int,
    x: DeclarationModel,
) -> bool {
    exists|i: int|
        0 <= i < n && method_declares(
            class,
            name,
            (#[trigger] v[i]).attributes,
            v[i].method_type,
            x,
        )
}

/// Whether a field of a class declares `x`.
pub open spec fn field_declares(
    t: HeaderTable,
    class: HeaderClass,
    field: HeaderField,
    x: DeclarationModel,
) -> bool {
    match field {
        HeaderField::Method { name, attributes, method_type } => method_declares(
            class,
            name@,
            attributes,
            method_type,
            x,
        ),
        HeaderField::OverloadedMethod { name, method_list } => match t.at(method_list) {
            Found::Record(HeaderRecord::MethodList { methods }) => overload_declares(
                class,
                name@,
                methods@,
                methods@.len() as int,
                x,
            ),
            _ => false,
        },
        _ => false,
    }
}

/// Whether one of the first `n` fields of a class declares `x`.
pub open spec fn fields_declare(
    t: HeaderTable,
    class: HeaderClass,
    fields: Seq<HeaderField>,
    n: int,
    x: DeclarationModel,
) -> bool {
    exists|i: int| 0 <= i < n && field_declares(t, class, #[trigger] fields[i], x)
}

/// Whether a list of fields, or one of up to `left` that continue it, declares `x`.
pub open spec fn lists_declare(
    t: HeaderTable,
    class: HeaderClass,
    list: u32,
    x: DeclarationModel,
    left: nat,
) -> bool
    decreases left,
{
    match t.at(list) {
        Found::Record(HeaderRecord::FieldList { fields, continuation }) => {
            ||| fields_declare(t, class, fields@, fields@.len() as int, x)
            ||| match continuation {
                Some(next) => left > 0 && lists_declare(t, class, next, x, (left - 1) as nat),
                None => false,
            }
        },
        _ => false,
    }
}

/// Whether a list of fields, or one that continues it, declares `x`.
pub open spec fn list_declares(
    t: HeaderTable,
    class: HeaderClass,
    list: u32,
    x: DeclarationModel,
) -> bool {
    lists_declare(t, class, list, x, t.records@.len())
}

/// Whether a record is a class that declares `x`.
pub open spec fn record_declares(t: HeaderTable, r: HeaderRecord, x: DeclarationModel) -> bool {
    match r {
        HeaderRecord::Class(c) => !c.forward_reference && match c.fields {
            Some(list) => list_declares(t, c, list, x),
            None => false,
        },
        _ => false,
    }
}

/// Whether one of the first `n` records is a class that declares `x`.
pub open spec fn records_declare(t: HeaderTable, n: int, x: DeclarationModel) -> bool {
    exists|i: int| 0 <= i < n && record_declares(t, #[trigger] t.records@[i], x)
}

/// Whether one of the first `n` procedures declares `x`.
pub open spec fn procedures_declare(v: Seq<FreeProcedure>, n: int, x: DeclarationModel) -> bool {
    exists|i: int| 0 <= i < n && free_row(#[trigger] v[i]) == Some(x)
}

proof fn lemma_method_declares(
    rows: Seq<DeclarationModel>,
    class: HeaderClass,
    name: Seq<char>,
    a: MyFieldAttributes,
    ty: u32,
    x: DeclarationModel,
)
    requires
        in_order(rows),
    ensures
        with_method(rows, class, name, a, ty).contains(x) == (rows.contains(x) || method_declares(
            class,
            name,
            a,
            ty,
            x,
        )),
{
    if let Some(r) = resolved_at(class.methods@, name, ty, 0) {
        if let Some(f) = r.parsed {
            lemma_with_row(rows, method_row(class.name@, f@, a));
        }
    }
}

proof fn lemma_overloads_declare(
    rows: Seq<DeclarationModel>,
    class: HeaderClass,
    name: Seq<char>,
    v: Seq<OverloadItem>,
    n: int,
    x: DeclarationModel,
)
    requires
        in_order(rows),
        0 <= n <= v.len(),
    ensures
        with_overloads(rows, class, name, v, n).contains(x) == (rows.contains(x)
            || overload_declares(class, name, v, n, x)),
    decreases n,
{
    if n > 0 {
        lemma_overloads_declare(rows, class, name, v, n - 1, x);
        lemma_overloads_in_order(rows, class, name, v, n - 1);
        let before = with_overloads(rows, class, name, v, n - 1);
        let last = v[n - 1];
        lemma_method_declares(before, class, name, last.attributes, last.method_type, x);
        if overload_declares(class, name, v, n - 1, x) {
            let i = choose|i: int|
                0 <= i < n - 1 && method_declares(
                    class,
                    name,
                    (#[trigger] v[i]).attributes,
                    v[i].method_type,
                    x,
                );
            assert(method_declares(class, name, v[i].attributes, v[i].method_type, x));
        }
        if overload_declares(class, name, v, n, x) {
            let i = choose|i: int|
                0 <= i < n && method_declares(
                    class,
                    name,
                    (#[trigger] v[i]).attributes,
                    v[i].method_type,
                    x,
                );
            if i < n - 1 {
                assert(overload_declares(class, name, v, n - 1, x));
            }
        }
    }
}

proof fn lemma_field_declares(
    t: HeaderTable,
    rows: Seq<DeclarationModel>,
    class: HeaderClass,
    field: HeaderField,
    x: DeclarationModel,
)
    requires
        in_order(rows),
        with_field(t, rows, class, field) is Ok,
    ensures
        with_field(t, rows, class, field)->Ok_0.contains(x) == (rows.contains(x) || field_declares(
            t,
            class,
            field,
            x,
        )),
{
    match field {
        HeaderField::Method { name, attributes, method_type } => {
            lemma_method_declares(rows, class, name@, attributes, method_type, x);
        },
        HeaderField::OverloadedMethod { name, method_list } => {
            if let Found::Record(HeaderRecord::MethodList { methods }) = t.at(method_list) {
                lemma_overloads_declare(
                    rows,
                    class,
                    name@,
                    methods@,
                    methods@.len() as int,
                    x,
                );
            }
        },
        _ => {},
    }
}

proof fn lemma_fields_declare(
    t: HeaderTable,
    rows: Seq<DeclarationModel>,
    class: HeaderClass,
    fields: Seq<HeaderField>,
    n: int,
    x: DeclarationModel,
)
    requires
        in_order(rows),
        0 <= n <= fields.len(),
        with_fields(t, rows, class, fields, n) is Ok,
    ensures
        with_fields(t, rows, class, fields, n)->Ok_0.contains(x) == (rows.contains(x)
            || fields_declare(t, class, fields, n, x)),
    decreases n,
{
    if n > 0 {
        lemma_fields_declare(t, rows, class, fields, n - 1, x);
        lemma_fields_in_order(t, rows, class, fields, n - 1);
        let before = with_fields(t, rows, class, fields, n - 1)->Ok_0;
        lemma_field_declares(t, before, class, fields[n - 1], x);
        if fields_declare(t, class, fields, n - 1, x) {
            let i = choose|i: int|
                0 <= i < n - 1 && field_declares(t, class, #[trigger] fields[i], x);
            assert(field_declares(t, class, fields[i], x));
        }
        if fields_declare(t, class, fields, n, x) {
            let i = choose|i: int| 0 <= i < n && field_declares(t, class, #[trigger] fields[i], x);
            if i < n - 1 {
                assert(fields_declare(t, class, fields, n - 1, x));
            }
        }
    }
}

proof fn lemma_list_declares(
    t: HeaderTable,
    rows: Seq<DeclarationModel>,
    class: HeaderClass,
    list: u32,
    x: DeclarationModel,
    left: nat,
)
    requires
        in_order(rows),
        with_lists(t, rows, class, list, left) is Ok,
    ensures
        with_lists(t, rows, class, list, left)->Ok_0.contains(x) == (rows.contains(x)
            || lists_declare(t, class, list, x, left)),
    decreases left,
{
    if let Found::Record(HeaderRecord::FieldList { fields, continuation }) = t.at(list) {
        let n = fields@.len() as int;
        lemma_fields_declare(t, rows, class, fields@, n, x);
        lemma_fields_in_order(t, rows, class, fields@, n);
        let v = with_fields(t, rows, class, fields@, n)->Ok_0;
        if let Some(next) = continuation {
            lemma_list_declares(t, v, class, next, x, (left - 1) as nat);
        }
    }
}

proof fn lemma_classes_declare(t: HeaderTable, n: int, x: DeclarationModel)
    requires
        0 <= n <= t.records@.len(),
        with_classes(t, Seq::empty(), n) is Ok,
    ensures
        with_classes(t, Seq::empty(), n)->Ok_0.contains(x) == records_declare(t, n, x),
    decreases n,
{
    if n > 0 {
        lemma_classes_declare(t, n - 1, x);
        lemma_classes_in_order(t, n - 1);
        let v = with_classes(t, Seq::empty(), n - 1)->Ok_0;
        let last = t.records@[n - 1];
        if let HeaderRecord::Class(c) = last {
            if !c.forward_reference {
                if let Some(list) = c.fields {
                    lemma_list_declares(t, v, c, list, x, t.records@.len());
                }
            }
        }
        if records_declare(t, n - 1, x) {
            let i = choose|i: int| 0 <= i < n - 1 && record_declares(t, #[trigger] t.records@[i], x);
            assert(record_declares(t, t.records@[i], x));
        }
        if records_declare(t, n, x) {
            let i = choose|i: int| 0 <= i < n && record_declares(t, #[trigger] t.records@[i], x);
            if i < n - 1 {
                assert(records_declare(t, n - 1, x));
            }
        }
    }
}

proof fn lemma_procedures_declare(
    rows: Seq<DeclarationModel>,
    v: Seq<FreeProcedure>,
    n: int,
    x: DeclarationModel,
)
    requires
        in_order(rows),
        0 <= n <= v.len(),
    ensures
        with_procedures(rows, v, n).contains(x) == (rows.contains(x) || procedures_declare(
            v,
            n,
            x,
        )),
    decreases n,
{
    if n > 0 {
        lemma_procedures_declare(rows, v, n - 1, x);
        lemma_procedures_in_order(rows, v, n - 1);
        if let Some(d) = free_row(v[n - 1]) {
            lemma_with_row(with_procedures(rows, v, n - 1), d);
        }
        if procedures_declare(v, n - 1, x) {
            let i = choose|i: int| 0 <= i < n - 1 && free_row(#[trigger] v[i]) == Some(x);
            assert(free_row(v[i]) == Some(x));
        }
        if procedures_declare(v, n, x) {
            let i = choose|i: int| 0 <= i < n && free_row(#[trigger] v[i]) == Some(x);
            if i < n - 1 {
                assert(procedures_declare(v, n - 1, x));
            }
        }
    }
}

/// The declarations of a database are exactly those of the methods of its classes, also
/// of methods that left no symbol, and of its free functions.
pub proof fn lemma_declarations_are_complete(
    t: HeaderTable,
    procedures: Seq<FreeProcedure>,
    x: DeclarationModel,
)
    requires
        all_declarations(t, procedures) is Ok,
    ensures
        all_declarations(t, procedures)->Ok_0.contains(x) == (records_declare(
            t,
            t.records@.len() as int,
            x,
        ) || procedures_declare(procedures, procedures.len() as int, x)),
{
    let n = t.records@.len() as int;
    lemma_classes_in_order(t, n);
    lemma_classes_declare(t, n, x);
    let rows = with_classes(t, Seq::empty(), n)->Ok_0;
    lemma_procedures_declare(rows, procedures, procedures.len() as int, x);
}

} // verus!
