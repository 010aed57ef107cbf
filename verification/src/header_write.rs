//! The text of headers.

use crate::formatter::{as_ints, get_return_type, longest_short, max_short, pad_spaces_t, pad_times,
    padding, return_text, signature, tabs_between, unnamed, Formatter, HeaderFormatter};
use crate::function_type::{FunctionType, FunctionTypeModel, ReturnType};
use crate::header_model::{BaseModel, Class, ClassField, ClassFieldModel, ClassModel, Data,
    DataModel, Enum, EnumModel, ForwardReference, ForwardReferenceKind, ForwardReferenceUsage,
    Method, MethodModel, RefModel, Variant};
use crate::lcs::views;
use crate::number::{hex, hex_capital, hexadecimal, hexadecimal_capital, pad_front, padded_front};
use crate::order::{is_le, rank_of, sort_stable, sorted_by, text_le, Ranked};
use crate::paths::{file_name, file_name_of};
use crate::pieces::{cat2, cat3, cat4, cat5, cat6, cat7, cat9};
use crate::search::{begins, head_of, replace, replaced, starts_with, tail_of};
use crate::source_files::{ending, made_on, opening, upper_name, upper_name_of, write_footer_named,
    write_header_dated};
use crate::source_function::GenFlags;
use crate::text::{byte_len, char_index, char_width, chars_before, chars_of, lemma_char_index,
    len_bytes, owned, same, width};
use crate::topology_compare::{class_kind, class_kind_name};
use crate::type_builder::{Namespace, NamespaceModel};
use crate::type_table::ClassKind;
use vstd::prelude::*;
use vstd::string::StringExecFns;

verus! {

// ---------------------------------------------------------------------------
// References
// ---------------------------------------------------------------------------

/// The place of a kind among the kinds.
pub open spec fn kind_rank(k: ForwardReferenceKind) -> int {
    match k {
        ForwardReferenceKind::Class => 0,
        ForwardReferenceKind::Struct => 1,
        ForwardReferenceKind::Enum => 2,
        ForwardReferenceKind::Unknown => 3,
        ForwardReferenceKind::Typedef => 4,
        ForwardReferenceKind::TypedefInner => 5,
    }
}

/// Whether a name is one of the engine's.
pub open spec fn is_engine_name(name: Seq<char>) -> bool {
    starts_with(name, "vostok"@) || starts_with(name, "survarium"@)
}

/// Whether reference `a` may stand before `b`: those that are not the engine's first,
/// then by kind, the engine's before the game's, then by name.
pub open spec fn ref_le(a: RefModel, b: RefModel) -> bool {
    if is_engine_name(a.name) != is_engine_name(b.name) {
        is_engine_name(b.name)
    } else if a.kind != b.kind {
        kind_rank(a.kind) < kind_rank(b.kind)
    } else if starts_with(a.name, "vostok"@) && starts_with(b.name, "survarium"@) {
        true
    } else if starts_with(a.name, "survarium"@) && starts_with(b.name, "vostok"@) {
        false
    } else {
        text_le(a.name, b.name)
    }
}

/// The line of a reference.
pub open spec fn ref_line(r: RefModel) -> Seq<char> {
    (match r.kind {
        ForwardReferenceKind::Struct => "struct"@,
        ForwardReferenceKind::Enum => "enum"@,
        ForwardReferenceKind::Typedef => "typedef"@,
        _ => "class"@,
    }) + " "@ + r.name + ";\n"@
}

/// Those of the first `n` references that have a usage.
pub open spec fn refs_with(
    refs: Seq<RefModel>,
    usage: ForwardReferenceUsage,
    n: int,
) -> Seq<RefModel>
    decreases n,
{
    if n <= 0 {
        Seq::empty()
    } else if refs[n - 1].usage == usage {
        refs_with(refs, usage, n - 1).push(refs[n - 1])
    } else {
        refs_with(refs, usage, n - 1)
    }
}

/// The references that have a usage, in order.
pub open spec fn sorted_refs(refs: Seq<RefModel>, usage: ForwardReferenceUsage) -> Seq<RefModel> {
    sorted_by(refs_with(refs, usage, refs.len() as int), |a: RefModel, b: RefModel| ref_le(a, b))
}

/// The lines of the first `n` references.
pub open spec fn ref_lines(refs: Seq<RefModel>, n: int) -> Seq<char>
    decreases n,
{
    if n <= 0 {
        ""@
    } else {
        ref_lines(refs, n - 1) + ref_line(refs[n - 1])
    }
}

/// The block of references: nothing where there are none.
pub open spec fn refs_block(refs: Seq<RefModel>) -> Seq<char> {
    let v = sorted_refs(refs, ForwardReferenceUsage::ByValue);
    let r = sorted_refs(refs, ForwardReferenceUsage::ByReference);
    if refs.len() == 0 {
        ""@
    } else {
        (if v.len() == 0 {
            ""@
        } else {
            "/* INCLUDES */\n"@ + ref_lines(v, v.len() as int) + (if r.len() == 0 {
                ""@
            } else {
                "\n"@
            })
        }) + (if r.len() == 0 {
            ""@
        } else {
            "/* FORWARD REFS */\n"@ + ref_lines(r, r.len() as int)
        }) + "\n"@
    }
}

/// A reference that is being sorted.
struct Sorted {
    kind: ForwardReferenceKind,
    usage: ForwardReferenceUsage,
    name: String,
}

impl View for Sorted {
    type V = RefModel;

    closed spec fn view(&self) -> RefModel {
        RefModel { kind: self.kind, usage: self.usage, name: self.name@ }
    }
}

fn rank_of_kind(k: ForwardReferenceKind) -> (r: u8)
    ensures
        r == kind_rank(k),
{
    match k {
        ForwardReferenceKind::Class => 0,
        ForwardReferenceKind::Struct => 1,
        ForwardReferenceKind::Enum => 2,
        ForwardReferenceKind::Unknown => 3,
        ForwardReferenceKind::Typedef => 4,
        ForwardReferenceKind::TypedefInner => 5,
    }
}

impl Ranked for Sorted {
    open spec fn before(a: RefModel, b: RefModel) -> bool {
        ref_le(a, b)
    }

    fn is_before(&self, other: &Self) -> (r: bool) {
        let av: bool = begins(self.name.as_str(), "vostok");
        let az: bool = begins(self.name.as_str(), "survarium");
        let bv: bool = begins(other.name.as_str(), "vostok");
        let bz: bool = begins(other.name.as_str(), "survarium");
        if (av || az) != (bv || bz) {
            bv || bz
        } else if self.kind != other.kind {
            rank_of_kind(self.kind) < rank_of_kind(other.kind)
        } else if av && bz {
            true
        } else if az && bv {
            false
        } else {
            is_le(self.name.as_str(), other.name.as_str())
        }
    }
}

fn sorted_with(refs: &Vec<ForwardReference>, usage: ForwardReferenceUsage) -> (r: Vec<Sorted>)
    ensures
        views(r@) == sorted_refs(views(refs@), usage),
{
    let ghost m = views(refs@);
    let mut v: Vec<Sorted> = Vec::new();
    let mut i: usize = 0;
    assert(views(v@) =~= Seq::<RefModel>::empty());
    while i < refs.len()
        invariant
            m == views(refs@),
            i <= refs@.len(),
            views(v@) == refs_with(m, usage, i as int),
        decreases refs.len() - i,
    {
        assert(m[i as int] == refs@[i as int]@);
        if refs[i].usage == usage {
            let one: Sorted = Sorted {
                kind: refs[i].kind,
                usage: refs[i].usage,
                name: refs[i].name.clone(),
            };
            let ghost before = v@;
            let ghost x = one@;
            v.push(one);
            assert(views(v@) =~= views(before).push(x));
        }
        i = i + 1;
    }
    let out: Vec<Sorted> = sort_stable(v);
    assert(rank_of::<Sorted>() =~= (|a: RefModel, b: RefModel| ref_le(a, b)));
    out
}

fn lines_of(refs: &Vec<Sorted>) -> (r: String)
    ensures
        r@ == ref_lines(views(refs@), refs@.len() as int),
{
    let ghost m = views(refs@);
    let mut out: String = owned("");
    let mut i: usize = 0;
    while i < refs.len()
        invariant
            m == views(refs@),
            i <= refs@.len(),
            out@ == ref_lines(m, i as int),
        decreases refs.len() - i,
    {
        assert(m[i as int] == refs@[i as int]@);
        let keyword: &str = match refs[i].kind {
            ForwardReferenceKind::Struct => "struct",
            ForwardReferenceKind::Enum => "enum",
            ForwardReferenceKind::Typedef => "typedef",
            _ => "class",
        };
        out.append(cat4(keyword, " ", refs[i].name.as_str(), ";\n").as_str());
        i = i + 1;
    }
    out
}

fn refs_text(refs: &Vec<ForwardReference>) -> (r: String)
    ensures
        r@ == refs_block(views(refs@)),
{
    if refs.len() == 0 {
        return owned("");
    }
    let v: Vec<Sorted> = sorted_with(refs, ForwardReferenceUsage::ByValue);
    let r: Vec<Sorted> = sorted_with(refs, ForwardReferenceUsage::ByReference);
    let a: String = if v.len() == 0 {
        owned("")
    } else {
        cat3(
            "/* INCLUDES */\n",
            lines_of(&v).as_str(),
            if r.len() == 0 {
                ""
            } else {
                "\n"
            },
        )
    };
    let b: String = if r.len() == 0 {
        owned("")
    } else {
        cat2("/* FORWARD REFS */\n", lines_of(&r).as_str())
    };
    cat3(a.as_str(), b.as_str(), "\n")
}

// ---------------------------------------------------------------------------
// Methods
// ---------------------------------------------------------------------------

/// What stands before a method.
pub open spec fn method_prefix(f: FunctionTypeModel, has_inline: bool) -> Seq<char> {
    let a = f.attrs;
    (if a.is_virtual {
        "virtual\t"@
    } else {
        ""@
    }) + (if a.is_static {
        "static\t"@
    } else {
        ""@
    }) + (if a.is_inline && !a.is_virtual {
        "inline\t"@
    } else {
        ""@
    }) + (if !a.is_virtual && !a.is_static && !a.is_inline && has_inline {
        "\t\t"@
    } else {
        ""@
    })
}

/// What stands behind a method.
pub open spec fn method_suffix(f: FunctionTypeModel) -> Seq<char> {
    let a = f.attrs;
    (if a.is_override && !(f.return_type is Destructor) {
        " override"@
    } else {
        ""@
    }) + (if a.is_pure {
        " = 0"@
    } else {
        ""@
    }) + (if a.is_final {
        " final"@
    } else {
        ""@
    }) + (if a.is_inline {
        " { /* no source */ }"@
    } else {
        ";"@
    })
}

/// How far the arguments of a method are indented.
pub open spec fn args_margin(f: FunctionTypeModel, has_inline: bool, return_width: int) -> int {
    let a = f.attrs;
    4 + (if a.is_virtual || a.is_static || a.is_inline || has_inline {
        8int
    } else {
        0
    }) + tabs_between(0, return_width) * 4 + 4
}

/// A method in the columns of its class.
#[verifier::opaque]
pub open spec fn method_line(
    m: MethodModel,
    ns: NamespaceModel,
    has_inline: bool,
    return_width: usize,
    name_width: usize,
) -> Seq<char> {
    let fmt = Formatter::Header(
        HeaderFormatter {
            max_return_type_len: return_width,
            max_method_name_len: name_width,
            pad_args_len: args_margin(m.fn_t, has_inline, return_width as int) as usize,
        },
    );
    let margs = match m.margs {
        Some(a) => a,
        None => unnamed(m.fn_t, ns),
    };
    "\t"@ + method_prefix(m.fn_t, has_inline) + signature(fmt, m.fn_t, ns, margs) + method_suffix(
        m.fn_t,
    ) + "\n"@
}

impl Method {
    /// Writes the method in the columns of its class.
    pub fn fmt(
        &self,
        w: &mut String,
        namespace: &Namespace,
        has_inline_methods: bool,
        max_return_type_len: usize,
        max_method_name_len: usize,
    )
        requires
            self@.fn_t.can_be_written(),
            max_return_type_len <= 0x1000_0000,
        ensures
            final(w)@ == old(w)@ + method_line(
                self@,
                namespace@,
                has_inline_methods,
                max_return_type_len,
                max_method_name_len,
            ),
    {
        reveal(method_line);
        let f: &FunctionType = self.fn_t();
        let v: bool = f.attrs.is_virtual;
        let s: bool = f.attrs.is_static;
        let i: bool = f.attrs.is_inline;
        let prefix: String = cat4(
            if v {
                "virtual\t"
            } else {
                ""
            },
            if s {
                "static\t"
            } else {
                ""
            },
            if i && !v {
                "inline\t"
            } else {
                ""
            },
            if !v && !s && !i && has_inline_methods {
                "\t\t"
            } else {
                ""
            },
        );
        let extra: usize = if v || s || i || has_inline_methods {
            8
        } else {
            0
        };
        let pad_args_len: usize = 4 + extra + pad_times(0, max_return_type_len) * 4 + 4;
        let h: HeaderFormatter = HeaderFormatter {
            max_return_type_len,
            max_method_name_len,
            pad_args_len,
        };
        let mut sig: String = String::new();
        match self {
            Method::FromHeaderFile { fn_t } => {
                h.write_fn_signature_unnamed_args(fn_t, namespace, &mut sig);
                assert(sig@ =~= signature(
                    Formatter::Header(h),
                    fn_t@,
                    namespace@,
                    unnamed(fn_t@, namespace@),
                ));
            },
            Method::FromSourceFile { fn_t, margs } => {
                Formatter::Header(h).write_fn_signature_with_args(fn_t, namespace, margs, &mut sig);
                assert(sig@ =~= signature(Formatter::Header(h), fn_t@, namespace@, views(margs@)));
            },
        }
        let destroys: bool = matches!(f.return_type, ReturnType::Destructor);
        let suffix: String = cat4(
            if f.attrs.is_override && !destroys {
                " override"
            } else {
                ""
            },
            if f.attrs.is_pure {
                " = 0"
            } else {
                ""
            },
            if f.attrs.is_final {
                " final"
            } else {
                ""
            },
            if i {
                " { /* no source */ }"
            } else {
                ";"
            },
        );
        let line: String = cat5("\t", prefix.as_str(), sig.as_str(), suffix.as_str(), "\n");
        w.append(line.as_str());
    }
}

/// Whether two names begin with the same word up to an underscore.
pub open spec fn same_beginning(a: Seq<char>, b: Seq<char>) -> bool {
    exists|i: int|
        2 <= i < a.len() && i < b.len() && #[trigger] a[i] == '_' && b[i] == '_' && a.take(i)
            == b.take(i)
}

/// Whether two names end with the same word from an underscore on.
pub open spec fn same_ending(a: Seq<char>, b: Seq<char>) -> bool {
    same_beginning(a.reverse(), b.reverse())
}

/// Whether two names belong together by custom.
pub open spec fn known_pair(a: Seq<char>, b: Seq<char>) -> bool {
    ||| a == "serialize"@ && b == "deserialize"@
    ||| a == "initialize"@ && b == "finalize"@
    ||| a == "initialize"@ && b == "destroy"@
    ||| a == "insert"@ && b == "remove"@
    ||| a == "subscribe"@ && b == "unsubscribe"@
    ||| a == "from"@ && b == "to"@
}

/// Whether a method goes on with the group of the one before it: the first does, and so
/// do an overload, a destructor behind its constructor, and names that belong together.
#[verifier::opaque]
pub open spec fn same_group(previous: Seq<char>, name: Seq<char>) -> bool {
    ||| previous.len() == 0
    ||| previous == name
    ||| previous == name.skip(1)
    ||| same_beginning(previous, name)
    ||| same_ending(previous, name)
    ||| known_pair(previous, name)
}

fn starts_with_equal_group(a: &Vec<char>, b: &Vec<char>) -> (r: bool)
    ensures
        r == same_beginning(a@, b@),
{
    let mut i: usize = 0;
    while i < a.len() && i < b.len() && a[i] == b[i]
        invariant
            i <= a@.len(),
            i <= b@.len(),
            a@.take(i as int) == b@.take(i as int),
            forall|k: int| 2 <= k < i ==> a@[k] != '_',
        decreases a.len() - i,
    {
        if a[i] == '_' && i > 1 {
            assert(a@[i as int] == '_');
            return true;
        }
        assert(a@.take(i + 1) =~= a@.take(i as int).push(a@[i as int]));
        assert(b@.take(i + 1) =~= b@.take(i as int).push(b@[i as int]));
        i = i + 1;
    }
    proof {
        if same_beginning(a@, b@) {
            let k = choose|k: int|
                2 <= k < a@.len() && k < b@.len() && #[trigger] a@[k] == '_' && b@[k] == '_'
                    && a@.take(k) == b@.take(k);
            if k < i {
                assert(a@[k] != '_');
            } else if k > i {
                assert(a@.take(k)[i as int] == a@[i as int]);
                assert(b@.take(k)[i as int] == b@[i as int]);
            }
        }
    }
    false
}

fn reversed(v: &Vec<char>) -> (r: Vec<char>)
    ensures
        r@ == v@.reverse(),
{
    let mut r: Vec<char> = Vec::new();
    let n: usize = v.len();
    let mut i: usize = 0;
    while i < n
        invariant
            n == v@.len(),
            i <= n,
            r@.len() == i,
            forall|k: int| 0 <= k < i ==> r@[k] == v@[n - 1 - k],
        decreases n - i,
    {
        r.push(v[n - 1 - i]);
        i = i + 1;
    }
    assert(r@ =~= v@.reverse());
    r
}

fn is_known_pair(a: &str, b: &str) -> (r: bool)
    ensures
        r == known_pair(a@, b@),
{
    (same(a, "serialize") && same(b, "deserialize")) || (same(a, "initialize") && same(
        b,
        "finalize",
    )) || (same(a, "initialize") && same(b, "destroy")) || (same(a, "insert") && same(b, "remove"))
        || (same(a, "subscribe") && same(b, "unsubscribe")) || (same(a, "from") && same(b, "to"))
}

fn is_same_group(previous: &str, name: &str) -> (r: bool)
    requires
        can_follow(previous@, name@),
    ensures
        r == same_group(previous@, name@),
{
    reveal(same_group);
    let a: Vec<char> = chars_of(previous);
    let b: Vec<char> = chars_of(name);
    if a.len() == 0 || same(previous, name) {
        return true;
    }
    let rest: String = tail_of(&b, 1);
    same(previous, rest.as_str()) || starts_with_equal_group(&a, &b) || starts_with_equal_group(
        &reversed(&a),
        &reversed(&b),
    ) || is_known_pair(previous, name)
}

// ---------------------------------------------------------------------------
// Classes
// ---------------------------------------------------------------------------

/// The bases of a class, the first `n`.
pub open spec fn bases_text(b: Seq<BaseModel>, n: int) -> Seq<char>
    decreases n,
{
    if n <= 0 {
        ""@
    } else {
        bases_text(b, n - 1) + (" "@ + (if n == 1 {
            ":"@
        } else {
            ","@
        }) + " public "@ + b[n - 1].ty)
    }
}

/// The lengths of the return types of some methods.
pub open spec fn return_lens(m: Seq<MethodModel>, ns: NamespaceModel) -> Seq<int> {
    m.map_values(
        |x: MethodModel|
            byte_len(
                return_text(x.fn_t.return_type, x.fn_t.arg_types.len() as int, ns),
            ) as int,
    )
}

/// The lengths of the names of some methods.
pub open spec fn name_lens(m: Seq<MethodModel>) -> Seq<int> {
    m.map_values(|x: MethodModel| byte_len(x.fn_t.name) as int)
}

/// Whether one of some methods is inline or virtual.
pub open spec fn has_inline(m: Seq<MethodModel>) -> bool {
    exists|i: int|
        0 <= i < m.len() && ((#[trigger] m[i]).fn_t.attrs.is_inline || m[i].fn_t.attrs.is_virtual)
}

/// The width of a class's return types.
pub open spec fn return_width(c: ClassModel) -> usize {
    longest_short(return_lens(c.instance_methods, c.namespace)) as usize
}

/// The width of a class's method names.
pub open spec fn name_width(c: ClassModel) -> usize {
    longest_short(name_lens(c.instance_methods)) as usize
}

/// The name of the method before method `n`.
pub open spec fn previous_name(m: Seq<MethodModel>, n: int) -> Seq<char> {
    if n <= 0 {
        ""@
    } else {
        m[n - 1].fn_t.name
    }
}

/// The first `n` methods of a class, an empty line between groups.
pub open spec fn instance_lines(c: ClassModel, n: int) -> Seq<char>
    decreases n,
{
    if n <= 0 {
        ""@
    } else {
        let m = c.instance_methods;
        instance_lines(c, n - 1) + (if same_group(previous_name(m, n - 1), m[n - 1].fn_t.name) {
            ""@
        } else {
            "\n"@
        }) + method_line(
            m[n - 1],
            c.namespace,
            has_inline(m),
            return_width(c),
            name_width(c),
        )
    }
}

/// The first `n` static methods of a class.
pub open spec fn static_lines(c: ClassModel, n: int) -> Seq<char>
    decreases n,
{
    if n <= 0 {
        ""@
    } else {
        static_lines(c, n - 1) + method_line(
            c.static_methods[n - 1],
            c.namespace,
            false,
            return_width(c),
            name_width(c),
        )
    }
}

/// The methods of a class.
pub open spec fn methods_block(c: ClassModel) -> Seq<char> {
    if c.instance_methods.len() == 0 && c.static_methods.len() == 0 {
        ""@
    } else {
        (if c.kind is Struct {
            ""@
        } else {
            "public:\n"@
        }) + instance_lines(c, c.instance_methods.len() as int) + (if c.static_methods.len() == 0 {
            ""@
        } else {
            "\n"@
        }) + static_lines(c, c.static_methods.len() as int)
    }
}

/// The first `n` bases of a class as remarks.
pub open spec fn base_remarks(b: Seq<BaseModel>, n: int) -> Seq<char>
    decreases n,
{
    if n <= 0 {
        ""@
    } else {
        base_remarks(b, n - 1) + ("\t/* 0x"@ + pad_front(hex(b[n - 1].offset as nat), '0', 4)
            + " */\t/* "@ + b[n - 1].ty + " */\n"@)
    }
}

/// The lengths of the types of some fields.
pub open spec fn field_lens(f: Seq<ClassFieldModel>) -> Seq<int> {
    f.map_values(|x: ClassFieldModel| byte_len(x.ty) as int)
}

/// The first `n` fields of a class.
pub open spec fn field_lines(f: Seq<ClassFieldModel>, n: int) -> Seq<char>
    decreases n,
{
    if n <= 0 {
        ""@
    } else {
        let x = f[n - 1];
        field_lines(f, n - 1) + ("\t/* 0x"@ + pad_front(hex(x.offset as nat), '0', 4) + " */\t"@
            + x.ty + padding(byte_len(x.ty) as int, longest_short(field_lens(f))) + "\t"@ + x.name
            + x.array + ";\n"@)
    }
}

/// The fields of a class.
pub open spec fn fields_block(c: ClassModel) -> Seq<char> {
    if c.fields.len() == 0 {
        ""@
    } else {
        (if c.kind is Struct {
            "\npublic:\n"@
        } else {
            "\nprivate:\n"@
        }) + base_remarks(c.base_classes, c.base_classes.len() as int) + field_lines(
            c.fields,
            c.fields.len() as int,
        )
    }
}

/// A class.
#[verifier::opaque]
pub open spec fn class_block(c: ClassModel) -> Seq<char> {
    let kind = class_kind_name(c.kind);
    (kind + " "@ + c.name + bases_text(c.base_classes, c.base_classes.len() as int) + " {\n"@
        + methods_block(c) + fields_block(c)) + ("}; // "@ + kind + " "@ + c.name
        + "\n\nSTATIC_SIZE_ASSERT("@ + c.name + ", 0x"@ + hex_capital(c.size as nat) + ");\n\n"@)
}

/// Whether a name can be held against the one before it without its first byte.
pub open spec fn can_follow(previous: Seq<char>, name: Seq<char>) -> bool {
    ||| previous.len() == 0
    ||| previous == name
    ||| name.len() > 0 && char_width(name[0]) == 1
}

/// Whether instance method `i` can be written behind the ones before it.
#[verifier::opaque]
pub open spec fn method_fits(m: Seq<MethodModel>, i: int) -> bool {
    m[i].fn_t.can_be_written() && can_follow(previous_name(m, i), m[i].fn_t.name)
}

/// Whether a class can be written: its methods can, and the names of the instance methods
/// can follow each other.
pub open spec fn class_writable(c: ClassModel) -> bool {
    &&& forall|i: int|
        0 <= i < c.instance_methods.len() ==> #[trigger] method_fits(c.instance_methods, i)
    &&& forall|i: int|
        0 <= i < c.static_methods.len() ==> (#[trigger] c.static_methods[i]).fn_t.can_be_written()
}

fn lens_of_returns(m: &Vec<Method>, ns: &Namespace) -> (r: Vec<usize>)
    requires
        forall|i: int| 0 <= i < m@.len() ==> (#[trigger] m@[i])@.fn_t.can_be_written(),
    ensures
        as_ints(r@) == return_lens(views(m@), ns@),
{
    let mut r: Vec<usize> = Vec::new();
    let mut i: usize = 0;
    while i < m.len()
        invariant
            forall|i: int| 0 <= i < m@.len() ==> (#[trigger] m@[i])@.fn_t.can_be_written(),
            i <= m@.len(),
            r@.len() == i,
            forall|k: int| 0 <= k < i ==> #[trigger] r@[k] == return_lens(views(m@), ns@)[k],
        decreases m.len() - i,
    {
        assert(m@[i as int]@.fn_t.can_be_written());
        let f: &FunctionType = m[i].fn_t();
        let t: String = get_return_type(&f.return_type, f.arg_types.len(), ns);
        assert(views(m@)[i as int] == m@[i as int]@);
        r.push(len_bytes(t.as_str()));
        i = i + 1;
    }
    assert(as_ints(r@) =~= return_lens(views(m@), ns@));
    r
}

fn lens_of_names(m: &Vec<Method>) -> (r: Vec<usize>)
    ensures
        as_ints(r@) == name_lens(views(m@)),
{
    let mut r: Vec<usize> = Vec::new();
    let mut i: usize = 0;
    while i < m.len()
        invariant
            i <= m@.len(),
            r@.len() == i,
            forall|k: int| 0 <= k < i ==> #[trigger] r@[k] == name_lens(views(m@))[k],
        decreases m.len() - i,
    {
        assert(views(m@)[i as int] == m@[i as int]@);
        r.push(len_bytes(m[i].fn_t().name.as_str()));
        i = i + 1;
    }
    assert(as_ints(r@) =~= name_lens(views(m@)));
    r
}

fn any_inline(m: &Vec<Method>) -> (r: bool)
    ensures
        r == has_inline(views(m@)),
{
    let ghost v = views(m@);
    let mut i: usize = 0;
    while i < m.len()
        invariant
            v == views(m@),
            i <= m@.len(),
            forall|k: int|
                0 <= k < i ==> !((#[trigger] v[k]).fn_t.attrs.is_inline
                    || v[k].fn_t.attrs.is_virtual),
        decreases m.len() - i,
    {
        assert(v[i as int] == m@[i as int]@);
        let f: &FunctionType = m[i].fn_t();
        if f.attrs.is_inline || f.attrs.is_virtual {
            assert(v[i as int].fn_t.attrs.is_inline || v[i as int].fn_t.attrs.is_virtual);
            return true;
        }
        i = i + 1;
    }
    false
}

fn instance_text(c: &Class, rw: usize, nw: usize, inline: bool) -> (r: String)
    requires
        class_writable(c@),
        rw == return_width(c@),
        nw == name_width(c@),
        rw < 36,
        inline == has_inline(c@.instance_methods),
    ensures
        r@ == instance_lines(c@, c@.instance_methods.len() as int),
{
    let ghost m = c@;
    let ghost im = m.instance_methods;
    let mut body: String = owned("");
    let mut previous: &str = "";
    let mut i: usize = 0;
    while i < c.instance_methods.len()
        invariant
            m == c@,
            im == views(c.instance_methods@),
            im == m.instance_methods,
            class_writable(m),
            rw == return_width(m),
            nw == name_width(m),
            rw < 36,
            inline == has_inline(im),
            i <= c.instance_methods@.len(),
            previous@ == previous_name(im, i as int),
            body@ == instance_lines(m, i as int),
        decreases c.instance_methods.len() - i,
    {
        assert(im[i as int] == c.instance_methods@[i as int]@);
        assert(method_fits(im, i as int));
        proof {
            reveal(method_fits);
        }
        let name: &str = c.instance_methods[i].fn_t().name.as_str();
        let gap: &str = if is_same_group(previous, name) {
            ""
        } else {
            "\n"
        };
        body.append(gap);
        c.instance_methods[i].fmt(&mut body, &c.namespace, inline, rw, nw);
        previous = name;
        i = i + 1;
    }
    body
}

fn static_text(c: &Class, rw: usize, nw: usize) -> (r: String)
    requires
        class_writable(c@),
        rw == return_width(c@),
        nw == name_width(c@),
        rw < 36,
    ensures
        r@ == static_lines(c@, c@.static_methods.len() as int),
{
    let ghost m = c@;
    let ghost sm = m.static_methods;
    let mut statics: String = owned("");
    let mut k: usize = 0;
    while k < c.static_methods.len()
        invariant
            m == c@,
            sm == views(c.static_methods@),
            sm == m.static_methods,
            class_writable(m),
            rw == return_width(m),
            nw == name_width(m),
            rw < 36,
            k <= c.static_methods@.len(),
            statics@ == static_lines(m, k as int),
        decreases c.static_methods.len() - k,
    {
        assert(sm[k as int] == c.static_methods@[k as int]@);
        assert(sm[k as int].fn_t.can_be_written());
        c.static_methods[k].fmt(&mut statics, &c.namespace, false, rw, nw);
        k = k + 1;
    }
    statics
}

fn methods_text(c: &Class) -> (r: String)
    requires
        class_writable(c@),
    ensures
        r@ == methods_block(c@),
{
    if c.instance_methods.len() == 0 && c.static_methods.len() == 0 {
        return owned("");
    }
    let ghost im = c@.instance_methods;
    assert forall|i: int| 0 <= i < c.instance_methods@.len() implies (
    #[trigger] c.instance_methods@[i])@.fn_t.can_be_written() by {
        assert(im[i] == c.instance_methods@[i]@);
        assert(method_fits(im, i));
        reveal(method_fits);
    }
    let rw: usize = max_short(&lens_of_returns(&c.instance_methods, &c.namespace));
    let nw: usize = max_short(&lens_of_names(&c.instance_methods));
    let inline: bool = any_inline(&c.instance_methods);
    let body: String = instance_text(c, rw, nw, inline);
    let statics: String = static_text(c, rw, nw);
    cat4(
        if matches!(c.kind, ClassKind::Struct) {
            ""
        } else {
            "public:\n"
        },
        body.as_str(),
        if c.static_methods.len() == 0 {
            ""
        } else {
            "\n"
        },
        statics.as_str(),
    )
}

fn fields_text(c: &Class) -> (r: String)
    ensures
        r@ == fields_block(c@),
{
    if c.fields.len() == 0 {
        return owned("");
    }
    let ghost b = views(c.base_classes@);
    let ghost f = views(c.fields@);
    let mut remarks: String = owned("");
    let mut i: usize = 0;
    while i < c.base_classes.len()
        invariant
            b == views(c.base_classes@),
            i <= c.base_classes@.len(),
            remarks@ == base_remarks(b, i as int),
        decreases c.base_classes.len() - i,
    {
        assert(b[i as int] == c.base_classes@[i as int]@);
        let line: String = cat5(
            "\t/* 0x",
            padded_front(hexadecimal(c.base_classes[i].offset as u64).as_str(), '0', 4).as_str(),
            " */\t/* ",
            c.base_classes[i].ty.0.as_str(),
            " */\n",
        );
        remarks.append(line.as_str());
        i = i + 1;
    }
    let mut lens: Vec<usize> = Vec::new();
    let mut j: usize = 0;
    while j < c.fields.len()
        invariant
            f == views(c.fields@),
            j <= c.fields@.len(),
            lens@.len() == j,
            forall|k: int| 0 <= k < j ==> #[trigger] lens@[k] == field_lens(f)[k],
        decreases c.fields.len() - j,
    {
        assert(f[j as int] == c.fields@[j as int]@);
        lens.push(c.fields[j].ty.len());
        j = j + 1;
    }
    assert(as_ints(lens@) =~= field_lens(f));
    let width: usize = max_short(&lens);
    let mut lines: String = owned("");
    let mut k: usize = 0;
    while k < c.fields.len()
        invariant
            f == views(c.fields@),
            width == longest_short(field_lens(f)),
            k <= c.fields@.len(),
            lines@ == field_lines(f, k as int),
        decreases c.fields.len() - k,
    {
        let x: &ClassField = &c.fields[k];
        assert(f[k as int] == x@);
        let mut pad: String = String::new();
        pad_spaces_t(&mut pad, x.ty.len(), width);
        assert(pad@ =~= padding(byte_len(x.ty@) as int, width as int));
        let line: String = cat9(
            "\t/* 0x",
            padded_front(hexadecimal(x.offset).as_str(), '0', 4).as_str(),
            " */\t",
            x.ty.0.as_str(),
            pad.as_str(),
            "\t",
            x.name.as_str(),
            x.array.as_str(),
            ";\n",
        );
        lines.append(line.as_str());
        k = k + 1;
    }
    cat3(
        if matches!(c.kind, ClassKind::Struct) {
            "\npublic:\n"
        } else {
            "\nprivate:\n"
        },
        remarks.as_str(),
        lines.as_str(),
    )
}

impl Class {
    /// Writes the class.
    pub fn fmt(&self, w: &mut String)
        requires
            class_writable(self@),
        ensures
            final(w)@ == old(w)@ + class_block(self@),
    {
        reveal(class_block);
        let ghost b = views(self.base_classes@);
        let mut bases: String = owned("");
        let mut i: usize = 0;
        while i < self.base_classes.len()
            invariant
                b == views(self.base_classes@),
                i <= self.base_classes@.len(),
                bases@ == bases_text(b, i as int),
            decreases self.base_classes.len() - i,
        {
            assert(b[i as int] == self.base_classes@[i as int]@);
            let one: String = cat4(
                " ",
                if i == 0 {
                    ":"
                } else {
                    ","
                },
                " public ",
                self.base_classes[i].ty.0.as_str(),
            );
            bases.append(one.as_str());
            i = i + 1;
        }
        let kind: &str = class_kind(self.kind);
        let name: &str = self.name.0.as_str();
        let methods: String = methods_text(self);
        let fields: String = fields_text(self);
        let a: String = cat7(
            kind,
            " ",
            name,
            bases.as_str(),
            " {\n",
            methods.as_str(),
            fields.as_str(),
        );
        let z: String = cat9(
            "}; // ",
            kind,
            " ",
            name,
            "\n\nSTATIC_SIZE_ASSERT(",
            name,
            ", 0x",
            hexadecimal_capital(self.size).as_str(),
            ");\n\n",
        );
        w.append(cat2(a.as_str(), z.as_str()).as_str());
    }

    /// Whether the class can be written.
    pub fn can_fmt(&self) -> (r: bool)
        ensures
            r == class_writable(self@),
    {
        let ghost im = self@.instance_methods;
        let ghost sm = self@.static_methods;
        let mut previous: &str = "";
        let mut i: usize = 0;
        while i < self.instance_methods.len()
            invariant
                im == views(self.instance_methods@),
                im == self@.instance_methods,
                i <= self.instance_methods@.len(),
                previous@ == previous_name(im, i as int),
                forall|k: int| 0 <= k < i ==> #[trigger] method_fits(im, k),
            decreases self.instance_methods.len() - i,
        {
            assert(im[i as int] == self.instance_methods@[i as int]@);
            let f: &FunctionType = self.instance_methods[i].fn_t();
            let name: &str = f.name.as_str();
            let v: Vec<char> = chars_of(name);
            let free: bool = chars_of(previous).len() == 0 || same(previous, name);
            if !f.is_writable() || !(free || (v.len() > 0 && width(v[0]) == 1)) {
                assert(!method_fits(im, i as int)) by {
                    reveal(method_fits);
                }
                return false;
            }
            assert(method_fits(im, i as int)) by {
                reveal(method_fits);
            }
            previous = name;
            i = i + 1;
        }
        let mut k: usize = 0;
        while k < self.static_methods.len()
            invariant
                sm == views(self.static_methods@),
                sm == self@.static_methods,
                k <= self.static_methods@.len(),
                forall|j: int| 0 <= j < k ==> (#[trigger] sm[j]).fn_t.can_be_written(),
            decreases self.static_methods.len() - k,
        {
            assert(sm[k as int] == self.static_methods@[k as int]@);
            if !self.static_methods[k].fn_t().is_writable() {
                assert(!sm[k as int].fn_t.can_be_written());
                return false;
            }
            k = k + 1;
        }
        true
    }
}

// ---------------------------------------------------------------------------
// Enumerations
// ---------------------------------------------------------------------------

/// The largest of the first `n` values, by size.
pub open spec fn largest(v: Seq<(Seq<char>, Variant)>, n: int) -> int
    decreases n,
{
    if n <= 0 {
        0
    } else {
        let before = largest(v, n - 1);
        let here = v[n - 1].1.magnitude();
        if here > before {
            here
        } else {
            before
        }
    }
}

/// How many digits the values are shown with: those of the largest, and no more than
/// four.
pub open spec fn value_digits(v: Seq<(Seq<char>, Variant)>) -> int {
    let n = hex(largest(v, v.len() as int) as nat).len() as int;
    if n > 4 {
        4
    } else {
        n
    }
}

/// A value with its sign.
pub open spec fn value_text(v: Variant, digits: int) -> Seq<char> {
    let n = v.number();
    if n >= 0 {
        "0x"@ + pad_front(hex(n as nat), '0', digits)
    } else {
        "-0x"@ + pad_front(hex((-n) as nat), '0', digits)
    }
}

/// The lengths of the names of some values.
pub open spec fn value_name_lens(v: Seq<(Seq<char>, Variant)>) -> Seq<int> {
    v.map_values(|x: (Seq<char>, Variant)| byte_len(x.0) as int)
}

/// The first `n` values of an enumeration.
pub open spec fn value_lines(v: Seq<(Seq<char>, Variant)>, n: int) -> Seq<char>
    decreases n,
{
    if n <= 0 {
        ""@
    } else {
        value_lines(v, n - 1) + ("\t"@ + v[n - 1].0 + padding(
            byte_len(v[n - 1].0) as int,
            longest_short(value_name_lens(v)),
        ) + "\t= "@ + value_text(v[n - 1].1, value_digits(v)) + ",\n"@)
    }
}

/// An enumeration under a name.
pub open spec fn enum_block(e: EnumModel, name: Seq<char>) -> Seq<char> {
    "enum "@ + name + "\n{\n"@ + value_lines(e.values, e.values.len() as int) + "};\n"@
}

fn digits_of(e: &Enum) -> (r: usize)
    ensures
        r == value_digits(e@.values),
{
    let ghost v = views(e.values@);
    let mut max: u64 = 0;
    let mut i: usize = 0;
    while i < e.values.len()
        invariant
            v == views(e.values@),
            i <= e.values@.len(),
            max == largest(v, i as int),
        decreases e.values.len() - i,
    {
        assert(v[i as int] == (e.values@[i as int].0@, e.values@[i as int].1));
        let here: u64 = e.values[i].1.size();
        if here > max {
            max = here;
        }
        i = i + 1;
    }
    let digits: Vec<char> = chars_of(hexadecimal(max).as_str());
    if digits.len() > 4 {
        4
    } else {
        digits.len()
    }
}

impl Enum {
    /// Writes the enumeration under a name.
    pub fn fmt(&self, name: &str, w: &mut String)
        ensures
            final(w)@ == old(w)@ + enum_block(self@, name@),
    {
        let ghost v = views(self.values@);
        let digits: usize = digits_of(self);
        let mut lens: Vec<usize> = Vec::new();
        let mut j: usize = 0;
        while j < self.values.len()
            invariant
                v == views(self.values@),
                j <= self.values@.len(),
                lens@.len() == j,
                forall|k: int| 0 <= k < j ==> #[trigger] lens@[k] == value_name_lens(v)[k],
            decreases self.values.len() - j,
        {
            assert(v[j as int] == (self.values@[j as int].0@, self.values@[j as int].1));
            lens.push(len_bytes(self.values[j].0.as_str()));
            j = j + 1;
        }
        assert(as_ints(lens@) =~= value_name_lens(v));
        let width: usize = max_short(&lens);
        let mut lines: String = owned("");
        let mut k: usize = 0;
        while k < self.values.len()
            invariant
                v == views(self.values@),
                digits == value_digits(v),
                width == longest_short(value_name_lens(v)),
                k <= self.values@.len(),
                lines@ == value_lines(v, k as int),
            decreases self.values.len() - k,
        {
            let x: &(String, Variant) = &self.values[k];
            assert(v[k as int] == (x.0@, x.1));
            let mut pad: String = String::new();
            pad_spaces_t(&mut pad, len_bytes(x.0.as_str()), width);
            assert(pad@ =~= padding(byte_len(x.0@) as int, width as int));
            let (negative, size): (bool, u64) = x.1.parts();
            let value: String = cat2(
                if negative {
                    "-0x"
                } else {
                    "0x"
                },
                padded_front(hexadecimal(size).as_str(), '0', digits).as_str(),
            );
            let line: String = cat6(
                "\t",
                x.0.as_str(),
                pad.as_str(),
                "\t= ",
                value.as_str(),
                ",\n",
            );
            lines.append(line.as_str());
            k = k + 1;
        }
        let text: String = cat5("enum ", name, "\n{\n", lines.as_str(), "};\n");
        w.append(text.as_str());
    }
}

// ---------------------------------------------------------------------------
// Files
// ---------------------------------------------------------------------------

/// What of the first `n` characters of a name stands outside angle brackets, and how
/// many of these are open behind them.
pub open spec fn outside_brackets(name: Seq<char>, n: int) -> (Seq<char>, int)
    decreases n,
{
    if n <= 0 {
        (Seq::empty(), 0)
    } else {
        let (kept, depth) = outside_brackets(name, n - 1);
        if name[n - 1] == '<' {
            (kept, depth + 1)
        } else if name[n - 1] == '>' {
            (kept, depth - 1)
        } else if depth == 0 {
            (kept.push(name[n - 1]), depth)
        } else {
            (kept, depth)
        }
    }
}

/// The path that a header's guard is named after.
pub open spec fn guard_path(name: Seq<char>) -> Seq<char> {
    let s = "ignore/"@ + outside_brackets(name, name.len() as int).0 + ".h"@;
    replaced(replaced(replaced(s, "survarium::"@, ""@), "vostok::"@, ""@), "::"@, "_"@)
}

/// The path that a header's guard is named after.
pub fn get_ifdef_name(name: &str) -> (r: String)
    ensures
        r@ == guard_path(name@),
{
    let v: Vec<char> = chars_of(name);
    let n: usize = v.len();
    let mut kept: String = String::new();
    let mut depth: i128 = 0;
    let mut i: usize = 0;
    while i < n
        invariant
            n == v@.len(),
            v@ == name@,
            i <= n,
            -(i as int) <= depth <= i,
            outside_brackets(name@, i as int) == (kept@, depth as int),
        decreases n - i,
    {
        let c: char = v[i];
        if c == '<' {
            depth = depth + 1;
        } else if c == '>' {
            depth = depth - 1;
        } else if depth == 0 {
            kept.push(c);
        }
        i = i + 1;
    }
    let s: String = cat3("ignore/", kept.as_str(), ".h");
    let a: String = replace(s.as_str(), "survarium::", "");
    let b: String = replace(a.as_str(), "vostok::", "");
    replace(b.as_str(), "::", "_")
}

/// The first `n` enumerations of a header.
pub open spec fn enums_text(e: Seq<EnumModel>, n: int) -> Seq<char>
    decreases n,
{
    if n <= 0 {
        ""@
    } else {
        enums_text(e, n - 1) + enum_block(e[n - 1], e[n - 1].name)
    }
}

/// The first `n` classes of a header.
pub open spec fn classes_text(c: Seq<ClassModel>, n: int) -> Seq<char>
    decreases n,
{
    if n <= 0 {
        ""@
    } else {
        classes_text(c, n - 1) + class_block(c[n - 1])
    }
}

/// The classes and enumerations of a header.
pub open spec fn data_text(d: DataModel) -> Seq<char> {
    enums_text(d.enums, d.enums.len() as int) + (if d.enums.len() == 0 {
        ""@
    } else {
        "\n"@
    }) + classes_text(d.classes, d.classes.len() as int)
}

/// The whole of a header.
pub open spec fn header_text(d: DataModel, class_name: Seq<char>, day: Seq<char>) -> Seq<char> {
    let name = file_name(guard_path(class_name))->0;
    (made_on(day) + opening(name, upper_name(name))) + refs_block(d.forward_references)
        + d.namespace.opening() + data_text(d) + d.namespace.closing() + ending(
        name,
        upper_name(name),
    )
}

/// The whole of an enumeration's header.
pub open spec fn enum_header_text(
    e: EnumModel,
    enum_name: Seq<char>,
    ns: NamespaceModel,
    day: Seq<char>,
) -> Seq<char> {
    let name = file_name(guard_path(enum_name))->0;
    (made_on(day) + opening(name, upper_name(name))) + ns.opening() + enum_block(
        e,
        ns.stripped(e.name),
    ) + "\n"@ + ns.closing() + ending(name, upper_name(name))
}

/// Whether a header can be written.
pub open spec fn header_writable(d: DataModel, class_name: Seq<char>) -> bool {
    &&& file_name(guard_path(class_name)) is Some
    &&& forall|i: int| 0 <= i < d.classes.len() ==> class_writable(#[trigger] d.classes[i])
}

fn guard_name(class_name: &str) -> (r: String)
    requires
        file_name(guard_path(class_name@)) is Some,
    ensures
        r@ == file_name(guard_path(class_name@))->0,
{
    match file_name_of(get_ifdef_name(class_name).as_str()) {
        Some(n) => n,
        None => owned(""),
    }
}

fn heading_of(name: &str, day: &str) -> (r: String)
    ensures
        r@ == made_on(day@) + opening(name@, upper_name(name@)),
{
    let upper: String = upper_name_of(name);
    let mut s: String = String::new();
    write_header_dated(&mut s, name, day, upper.as_str());
    assert(s@ =~= made_on(day@) + opening(name@, upper@));
    s
}

fn footer_of(name: &str) -> (r: String)
    ensures
        r@ == ending(name@, upper_name(name@)),
{
    let upper: String = upper_name_of(name);
    let mut s: String = String::new();
    write_footer_named(&mut s, name, upper.as_str());
    assert(s@ =~= ending(name@, upper@));
    s
}

fn opening_of(ns: &Namespace) -> (r: String)
    ensures
        r@ == ns@.opening(),
{
    let mut s: String = String::new();
    ns.start_namespace(&mut s);
    assert(s@ =~= ns@.opening());
    s
}

fn closing_of(ns: &Namespace) -> (r: String)
    ensures
        r@ == ns@.closing(),
{
    let mut s: String = String::new();
    ns.end_namespace(&mut s);
    assert(s@ =~= ns@.closing());
    s
}

impl Data {
    fn contents(&self) -> (r: String)
        requires
            forall|i: int|
                0 <= i < self@.classes.len() ==> class_writable(#[trigger] self@.classes[i]),
        ensures
            r@ == data_text(self@),
    {
        let ghost e = self@.enums;
        let ghost c = self@.classes;
        let mut enums: String = owned("");
        let mut i: usize = 0;
        while i < self.enums.len()
            invariant
                e == views(self.enums@),
                i <= self.enums@.len(),
                enums@ == enums_text(e, i as int),
            decreases self.enums.len() - i,
        {
            assert(e[i as int] == self.enums@[i as int]@);
            self.enums[i].fmt(self.enums[i].name.as_str(), &mut enums);
            i = i + 1;
        }
        let mut classes: String = owned("");
        let mut k: usize = 0;
        while k < self.classes.len()
            invariant
                c == views(self.classes@),
                forall|i: int| 0 <= i < c.len() ==> class_writable(#[trigger] c[i]),
                k <= self.classes@.len(),
                classes@ == classes_text(c, k as int),
            decreases self.classes.len() - k,
        {
            assert(c[k as int] == self.classes@[k as int]@);
            self.classes[k].fmt(&mut classes);
            k = k + 1;
        }
        cat3(
            enums.as_str(),
            if self.enums.len() == 0 {
                ""
            } else {
                "\n"
            },
            classes.as_str(),
        )
    }

    /// The whole header of a class, made on the given day.
    pub fn to_header_file(&self, class_name: &str, day: &str) -> (r: String)
        requires
            header_writable(self@, class_name@),
        ensures
            r@ == header_text(self@, class_name@, day@),
    {
        let name: String = guard_name(class_name);
        cat6(
            heading_of(name.as_str(), day).as_str(),
            refs_text(&self.forward_references).as_str(),
            opening_of(&self.namespace).as_str(),
            self.contents().as_str(),
            closing_of(&self.namespace).as_str(),
            footer_of(name.as_str()).as_str(),
        )
    }

    /// Whether the header of a class can be written.
    pub fn can_write(&self, class_name: &str) -> (r: bool)
        ensures
            r == header_writable(self@, class_name@),
    {
        if file_name_of(get_ifdef_name(class_name).as_str()).is_none() {
            return false;
        }
        let ghost c = self@.classes;
        let mut k: usize = 0;
        while k < self.classes.len()
            invariant
                c == views(self.classes@),
                c == self@.classes,
                k <= self.classes@.len(),
                forall|j: int| 0 <= j < k ==> class_writable(#[trigger] c[j]),
            decreases self.classes.len() - k,
        {
            assert(c[k as int] == self.classes@[k as int]@);
            if !self.classes[k].can_fmt() {
                assert(!class_writable(c[k as int]));
                return false;
            }
            k = k + 1;
        }
        true
    }
}

impl Enum {
    /// The whole header of an enumeration, made on the given day.
    pub fn to_header_file(&self, enum_name: &str, namespace: &Namespace, day: &str) -> (r: String)
        requires
            file_name(guard_path(enum_name@)) is Some,
        ensures
            r@ == enum_header_text(self@, enum_name@, namespace@, day@),
    {
        let name: String = guard_name(enum_name);
        let mut body: String = String::new();
        let stripped: String = namespace.strip(self.name.as_str());
        self.fmt(stripped.as_str(), &mut body);
        assert(body@ =~= enum_block(self@, stripped@));
        cat6(
            heading_of(name.as_str(), day).as_str(),
            opening_of(namespace).as_str(),
            body.as_str(),
            "\n",
            closing_of(namespace).as_str(),
            footer_of(name.as_str()).as_str(),
        )
    }
}

// ---------------------------------------------------------------------------
// Names of files
// ---------------------------------------------------------------------------

/// What a header is for.
#[derive(Clone, Copy, PartialEq, Eq, Debug, Structural)]
pub enum HeaderType {
    Enum,
    Class,
}

/// How many bytes of a name the name of its file has at most.
pub const MAX_CLASS_LEN: usize = 140;

/// How many bytes of a name the name of its file has.
pub open spec fn kept_bytes(name: Seq<char>) -> int {
    if byte_len(name) < MAX_CLASS_LEN {
        byte_len(name) as int
    } else {
        MAX_CLASS_LEN as int
    }
}

/// A name with the characters exchanged that a file's name cannot hold.
pub open spec fn file_safe(s: Seq<char>) -> Seq<char> {
    let a = replaced(s, ":"@, "_"@);
    let b = replaced(a, "*"@, "+"@);
    let c = replaced(b, "&"@, "+"@);
    let d = replaced(c, "<"@, "_"@);
    let e = replaced(d, ">"@, "_"@);
    replaced(e, "|"@, "_"@)
}

/// Where a header stands: the directories from the outside in, and its name.
pub struct HeaderPath {
    pub directories: Vec<String>,
    pub name: String,
}

/// The directories of a header, from the outside in; nothing where it is left out.
pub open spec fn header_directories(
    ns: NamespaceModel,
    header_type: HeaderType,
    flags: GenFlags,
) -> Option<Seq<Seq<char>>> {
    let root = match ns.root {
        Some(r) => Some(r),
        None => if flags.skip_non_engine_headers {
            None
        } else {
            Some("others"@)
        },
    };
    match root {
        None => None,
        Some(r) => {
            let a = seq![r];
            let b = match (ns.root, ns.class) {
                (Some(_), Some(c)) => a.push(c),
                _ => a,
            };
            let c = match (ns.class, ns.subclass) {
                (Some(_), Some(s)) => b.push(s),
                _ => b,
            };
            Some(
                if header_type is Enum {
                    c.push("enums"@)
                } else {
                    c
                },
            )
        },
    }
}

/// The name of a header's file, without its extension.
pub open spec fn header_name(name: Seq<char>, ns: NamespaceModel) -> Seq<char> {
    let s = ns.stripped(name);
    file_safe(s.take(char_index(s, kept_bytes(s))->0))
}

fn push_name(v: &mut Vec<String>, s: &str)
    ensures
        crate::text::texts(final(v)@) == crate::text::texts(old(v)@).push(s@),
{
    let t: String = owned(s);
    proof {
        crate::pieces::lemma_texts_push(v@, t);
    }
    v.push(t);
}

/// Where the header of a type stands; nothing where it is left out.
pub fn build_header_name(
    type_: &str,
    namespace: &Namespace,
    header_type: HeaderType,
    flags: GenFlags,
) -> (r: Option<HeaderPath>)
    requires
        char_index(
            namespace@.stripped(type_@),
            kept_bytes(namespace@.stripped(type_@)),
        ) is Some,
    ensures
        match r {
            Some(p) => header_directories(namespace@, header_type, flags) == Some(
                crate::text::texts(p.directories@),
            ) && p.name@ == header_name(type_@, namespace@),
            None => header_directories(namespace@, header_type, flags) is None,
        },
{
    let mut dirs: Vec<String> = Vec::new();
    match namespace.get_root() {
        Some(root) => {
            push_name(&mut dirs, root);
            assert(crate::text::texts(dirs@) =~= seq![root@]);
        },
        None => {
            if flags.skip_non_engine_headers {
                return None;
            }
            push_name(&mut dirs, "others");
            assert(crate::text::texts(dirs@) =~= seq!["others"@]);
        },
    }
    if let Some(c) = namespace.get_class() {
        push_name(&mut dirs, c);
    }
    if let Some(s) = namespace.get_subclass() {
        push_name(&mut dirs, s);
    }
    if let HeaderType::Enum = header_type {
        push_name(&mut dirs, "enums");
    }
    let stripped: String = namespace.strip(type_);
    let v: Vec<char> = chars_of(stripped.as_str());
    let total: usize = len_bytes(stripped.as_str());
    let n: usize = if total < MAX_CLASS_LEN {
        total
    } else {
        MAX_CLASS_LEN
    };
    let k: usize = match chars_before(&v, n) {
        Some(k) => k,
        None => 0,
    };
    proof {
        lemma_char_index(stripped@, n as int);
    }
    let s: String = head_of(&v, k);
    let a: String = replace(s.as_str(), ":", "_");
    let b: String = replace(a.as_str(), "*", "+");
    let c: String = replace(b.as_str(), "&", "+");
    let d: String = replace(c.as_str(), "<", "_");
    let e: String = replace(d.as_str(), ">", "_");
    Some(HeaderPath { directories: dirs, name: replace(e.as_str(), "|", "_") })
}

/// Whether the name of a header's file can be cut.
pub fn can_build_header_name(type_: &str, namespace: &Namespace) -> (r: bool)
    ensures
        r == (char_index(
            namespace@.stripped(type_@),
            kept_bytes(namespace@.stripped(type_@)),
        ) is Some),
{
    let stripped: String = namespace.strip(type_);
    let v: Vec<char> = chars_of(stripped.as_str());
    let total: usize = len_bytes(stripped.as_str());
    let n: usize = if total < MAX_CLASS_LEN {
        total
    } else {
        MAX_CLASS_LEN
    };
    chars_before(&v, n).is_some()
}

} // verus!
