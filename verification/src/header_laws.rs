//! What the text of a header says.

use crate::formatter::{args_of, longest_short, padding, signature, unnamed, Formatter,
    HeaderFormatter};
use crate::function_type::{Attributes, FunctionTypeModel};
use crate::header_model::{BaseModel, ClassFieldModel, ClassModel, DataModel, EnumModel, MethodModel,
    Variant};
use crate::header_write::{args_margin, base_remarks, bases_text, class_block, classes_text,
    data_text, enum_block, enums_text, field_lens, field_lines, fields_block, guard_path,
    has_inline, header_text, instance_lines, method_line, method_prefix, methods_block, name_width,
    refs_block, return_width, static_lines, value_digits, value_lines, value_name_lens, value_text};
use crate::number::{dec, hex, hex_capital, pad_front};
use crate::number_laws::{hex_read, lemma_padded_hex_is_read};
use crate::parts::{holds, lemma_holds_piece, lemma_holds_within, only};
use crate::paths::file_name;
use crate::search::{ends_with, matches_at, starts_with};
use crate::source_files::{ending, made_on, opening, upper_name};
use crate::source_laws::holds_apart;
use crate::text::byte_len;
use crate::type_builder::{name_within, NamespaceModel};
use crate::type_table::ClassKind;
use vstd::prelude::*;

verus! {

// ---------------------------------------------------------------------------
// Methods
// ---------------------------------------------------------------------------

/// A method with other attributes.
pub open spec fn with_attributes(m: MethodModel, attrs: Attributes) -> MethodModel {
    MethodModel { fn_t: FunctionTypeModel { attrs, ..m.fn_t }, ..m }
}

/// What a method's line ends with, behind what says that it is pure.
pub open spec fn end_of_method(a: Attributes) -> Seq<char> {
    (if a.is_final {
        " final"@
    } else {
        ""@
    }) + (if a.is_inline {
        " { /* no source */ }\n"@
    } else {
        ";\n"@
    })
}

/// The signature of a method in its class.
spec fn method_signature(
    m: MethodModel,
    ns: NamespaceModel,
    inline: bool,
    rw: usize,
    nw: usize,
) -> Seq<char> {
    signature(
        Formatter::Header(
            HeaderFormatter {
                max_return_type_len: rw,
                max_method_name_len: nw,
                pad_args_len: args_margin(m.fn_t, inline, rw as int) as usize,
            },
        ),
        m.fn_t,
        ns,
        match m.margs {
            Some(a) => a,
            None => unnamed(m.fn_t, ns),
        },
    )
}

/// A signature does not depend on what a function is besides constant.
proof fn lemma_same_signature(
    fmt: Formatter,
    f: FunctionTypeModel,
    g: FunctionTypeModel,
    ns: NamespaceModel,
    margs: Seq<(Seq<char>, Seq<char>)>,
)
    requires
        f.name == g.name,
        f.return_type == g.return_type,
        f.arg_types == g.arg_types,
        f.attrs.is_const == g.attrs.is_const,
    ensures
        signature(fmt, f, ns, margs) == signature(fmt, g, ns, margs),
        unnamed(f, ns) == unnamed(g, ns),
{
    assert(args_of(f, ns, margs, fmt is Header) =~= args_of(g, ns, margs, fmt is Header));
    assert(unnamed(f, ns) =~= unnamed(g, ns));
}

proof fn lemma_same_method_signature(
    m: MethodModel,
    attrs: Attributes,
    ns: NamespaceModel,
    inline: bool,
    rw: usize,
    nw: usize,
)
    requires
        attrs.is_const == m.fn_t.attrs.is_const,
        attrs.is_virtual == m.fn_t.attrs.is_virtual,
        attrs.is_static == m.fn_t.attrs.is_static,
        attrs.is_inline == m.fn_t.attrs.is_inline,
    ensures
        method_signature(m, ns, inline, rw, nw) == method_signature(
            with_attributes(m, attrs),
            ns,
            inline,
            rw,
            nw,
        ),
        method_prefix(m.fn_t, inline) == method_prefix(with_attributes(m, attrs).fn_t, inline),
{
    let g = with_attributes(m, attrs);
    let fmt = Formatter::Header(
        HeaderFormatter {
            max_return_type_len: rw,
            max_method_name_len: nw,
            pad_args_len: args_margin(m.fn_t, inline, rw as int) as usize,
        },
    );
    assert(args_margin(m.fn_t, inline, rw as int) == args_margin(g.fn_t, inline, rw as int));
    lemma_same_signature(fmt, m.fn_t, g.fn_t, ns, Seq::empty());
    lemma_same_signature(fmt, m.fn_t, g.fn_t, ns, named_args(m, ns));
}

/// What stands before the mark of a pure method.
spec fn before_pure(
    m: MethodModel,
    ns: NamespaceModel,
    inline: bool,
    rw: usize,
    nw: usize,
) -> Seq<char> {
    "\t"@ + method_prefix(m.fn_t, inline) + method_signature(m, ns, inline, rw, nw) + (if
    m.fn_t.attrs.is_override && !(m.fn_t.return_type is Destructor) {
        " override"@
    } else {
        ""@
    })
}

proof fn lemma_line_parts(m: MethodModel, ns: NamespaceModel, inline: bool, rw: usize, nw: usize)
    ensures
        method_line(m, ns, inline, rw, nw) == before_pure(m, ns, inline, rw, nw) + (if
        m.fn_t.attrs.is_pure {
            " = 0"@
        } else {
            ""@
        }) + end_of_method(m.fn_t.attrs),
{
    reveal(method_line);
    reveal_strlit(" { /* no source */ }");
    reveal_strlit(" { /* no source */ }\n");
    reveal_strlit(";");
    reveal_strlit(";\n");
    reveal_strlit("\n");
    assert(" { /* no source */ }"@ + "\n"@ =~= " { /* no source */ }\n"@);
    assert(";"@ + "\n"@ =~= ";\n"@);
    let a = m.fn_t.attrs;
    let body = if a.is_inline {
        " { /* no source */ }"@
    } else {
        ";"@
    };
    let over = if a.is_override && !(m.fn_t.return_type is Destructor) {
        " override"@
    } else {
        ""@
    };
    let pure = if a.is_pure {
        " = 0"@
    } else {
        ""@
    };
    let last = if a.is_final {
        " final"@
    } else {
        ""@
    };
    let front = "\t"@ + method_prefix(m.fn_t, inline) + method_signature(m, ns, inline, rw, nw);
    assert(method_line(m, ns, inline, rw, nw) == front + (over + pure + last + body) + "\n"@);
    lemma_regroup(front, over, pure, last, body, "\n"@);
}

proof fn lemma_regroup(
    a: Seq<char>,
    b: Seq<char>,
    c: Seq<char>,
    d: Seq<char>,
    e: Seq<char>,
    f: Seq<char>,
)
    ensures
        a + (b + c + d + e) + f == (a + b) + c + (d + (e + f)),
{
    assert(a + (b + c + d + e) + f =~= (a + b) + c + (d + (e + f)));
}

proof fn lemma_three(a: Seq<char>, b: Seq<char>, c: Seq<char>)
    ensures
        ends_with(a + b + c, b + c),
        a + ""@ + c == a + c,
        a + b + c == a + (b + c),
        b.len() > 0 ==> a + b + c != a + c,
{
    reveal_strlit("");
    let all = a + b + c;
    assert(all.skip(all.len() - (b + c).len()) =~= b + c);
    assert(a + ""@ + c =~= a + c);
    assert(a + b + c =~= a + (b + c));
    if b.len() > 0 {
        assert((a + b + c).len() > (a + c).len());
    }
}

/// A pure method is declared so: its line is that of the method as if it were not pure, with
/// ` = 0` put before what says that it is final, and its end.
pub proof fn lemma_pure_method_is_declared(
    m: MethodModel,
    ns: NamespaceModel,
    inline: bool,
    rw: usize,
    nw: usize,
)
    requires
        m.fn_t.attrs.is_pure,
    ensures
        ends_with(
            method_line(m, ns, inline, rw, nw),
            " = 0"@ + ((if m.fn_t.attrs.is_final {
                " final"@
            } else {
                ""@
            }) + (if m.fn_t.attrs.is_inline {
                " { /* no source */ }\n"@
            } else {
                ";\n"@
            })),
        ),
        exists|head: Seq<char>|
            {
                let other = with_attributes(m, Attributes { is_pure: false, ..m.fn_t.attrs });
                &&& method_line(other, ns, inline, rw, nw) == head + end_of_method(m.fn_t.attrs)
                &&& method_line(m, ns, inline, rw, nw) == #[trigger] (head + " = 0"@)
                    + end_of_method(m.fn_t.attrs)
            },
        method_line(
            with_attributes(m, Attributes { is_pure: false, ..m.fn_t.attrs }),
            ns,
            inline,
            rw,
            nw,
        ) != method_line(m, ns, inline, rw, nw),
{
    let other = with_attributes(m, Attributes { is_pure: false, ..m.fn_t.attrs });
    lemma_same_method_signature(m, other.fn_t.attrs, ns, inline, rw, nw);
    lemma_line_parts(m, ns, inline, rw, nw);
    lemma_line_parts(other, ns, inline, rw, nw);
    let head = before_pure(m, ns, inline, rw, nw);
    let end = end_of_method(m.fn_t.attrs);
    reveal_strlit(" = 0");
    assert(before_pure(other, ns, inline, rw, nw) == head);
    lemma_three(head, " = 0"@, end);
    assert(method_line(other, ns, inline, rw, nw) == head + end);
    assert(method_line(m, ns, inline, rw, nw) == (head + " = 0"@) + end);
}

/// A method that overrides another is declared so, unless it is a destructor: its line is that
/// of the method as if it did not, with ` override` put behind the signature.
pub proof fn lemma_overriding_method_is_declared(
    m: MethodModel,
    ns: NamespaceModel,
    inline: bool,
    rw: usize,
    nw: usize,
)
    requires
        m.fn_t.attrs.is_override,
    ensures
        ({
            let other = with_attributes(m, Attributes { is_override: false, ..m.fn_t.attrs });
            let end = (if m.fn_t.attrs.is_pure {
                " = 0"@
            } else {
                ""@
            }) + end_of_method(m.fn_t.attrs);
            if m.fn_t.return_type is Destructor {
                method_line(other, ns, inline, rw, nw) == method_line(m, ns, inline, rw, nw)
            } else {
                exists|head: Seq<char>|
                    {
                        &&& method_line(other, ns, inline, rw, nw) == head + end
                        &&& method_line(m, ns, inline, rw, nw) == #[trigger] (head + " override"@)
                            + end
                    }
            }
        }),
{
    let other = with_attributes(m, Attributes { is_override: false, ..m.fn_t.attrs });
    lemma_same_method_signature(m, other.fn_t.attrs, ns, inline, rw, nw);
    lemma_line_parts(m, ns, inline, rw, nw);
    lemma_line_parts(other, ns, inline, rw, nw);
    let head = before_pure(other, ns, inline, rw, nw);
    let pure = if m.fn_t.attrs.is_pure {
        " = 0"@
    } else {
        ""@
    };
    let end = pure + end_of_method(m.fn_t.attrs);
    let front = "\t"@ + method_prefix(m.fn_t, inline) + method_signature(m, ns, inline, rw, nw);
    assert(head == front + ""@);
    lemma_three(front, ""@, end_of_method(m.fn_t.attrs));
    lemma_three(head, pure, end_of_method(m.fn_t.attrs));
    if !(m.fn_t.return_type is Destructor) {
        assert(before_pure(m, ns, inline, rw, nw) == front + " override"@);
        lemma_empty(front);
        lemma_three(head + " override"@, pure, end_of_method(m.fn_t.attrs));
        assert(method_line(other, ns, inline, rw, nw) == head + end);
        assert(method_line(m, ns, inline, rw, nw) == (head + " override"@) + end);
    }
}

proof fn lemma_empty(a: Seq<char>)
    ensures
        a + ""@ == a,
{
    reveal_strlit("");
    assert(a + ""@ =~= a);
}

/// The arguments of a method as its body names them, or by number.
pub open spec fn named_args(m: MethodModel, ns: NamespaceModel) -> Seq<(Seq<char>, Seq<char>)> {
    match m.margs {
        Some(a) => a,
        None => unnamed(m.fn_t, ns),
    }
}

/// The column of a method's signature: behind a tab, eight characters for a virtual method,
/// seven for a static one, seven for one that is only inline, or two tabs.
pub open spec fn signature_column(a: Attributes, inline: bool) -> int {
    1 + (if a.is_virtual {
        8int
    } else {
        0
    }) + (if a.is_static {
        7int
    } else {
        0
    }) + (if a.is_inline && !a.is_virtual {
        7int
    } else {
        0
    }) + (if !a.is_virtual && !a.is_static && !a.is_inline && inline {
        2int
    } else {
        0
    })
}

/// Whether the signature of a method stands in a line, from column `at` on.
pub open spec fn has_signature(
    line: Seq<char>,
    at: int,
    fmt: Formatter,
    m: MethodModel,
    ns: NamespaceModel,
) -> bool {
    matches_at(line, signature(fmt, m.fn_t, ns, named_args(m, ns)), at)
}

/// A method's line begins with what it is: virtual, static, inline where it is not virtual,
/// in this order, or, where it is none of these and others of the class are, with the tabs
/// that put it below them. Then its signature follows.
pub proof fn lemma_method_begins_with_its_sort(
    m: MethodModel,
    ns: NamespaceModel,
    inline: bool,
    rw: usize,
    nw: usize,
)
    ensures
        ({
            let a = m.fn_t.attrs;
            let line = method_line(m, ns, inline, rw, nw);
            &&& a.is_virtual && !a.is_static ==> starts_with(line, "\tvirtual\t"@)
            &&& a.is_virtual && a.is_static ==> starts_with(line, "\tvirtual\tstatic\t"@)
            &&& !a.is_virtual && a.is_static && !a.is_inline ==> starts_with(line, "\tstatic\t"@)
            &&& !a.is_virtual && a.is_static && a.is_inline ==> starts_with(
                line,
                "\tstatic\tinline\t"@,
            )
            &&& !a.is_virtual && !a.is_static && a.is_inline ==> starts_with(line, "\tinline\t"@)
            &&& !a.is_virtual && !a.is_static && !a.is_inline && inline ==> starts_with(
                line,
                "\t\t\t"@,
            )
            &&& exists|fmt: Formatter|
                fmt is Header && #[trigger] has_signature(
                    line,
                    signature_column(a, inline),
                    fmt,
                    m,
                    ns,
                )
        }),
{
    let a = m.fn_t.attrs;
    let line = method_line(m, ns, inline, rw, nw);
    lemma_line_parts(m, ns, inline, rw, nw);
    lemma_words(m.fn_t, inline);
    let words = method_prefix(m.fn_t, inline);
    let sig = method_signature(m, ns, inline, rw, nw);
    let first = "\t"@ + words;
    let over = if a.is_override && !(m.fn_t.return_type is Destructor) {
        " override"@
    } else {
        ""@
    };
    let pure = if a.is_pure {
        " = 0"@
    } else {
        ""@
    };
    assert(line == (first + sig + over) + pure + end_of_method(a));
    lemma_at(first, sig, over, pure, end_of_method(a));
    let fmt = Formatter::Header(
        HeaderFormatter {
            max_return_type_len: rw,
            max_method_name_len: nw,
            pad_args_len: args_margin(m.fn_t, inline, rw as int) as usize,
        },
    );
    assert(sig == signature(fmt, m.fn_t, ns, named_args(m, ns)));
    assert(has_signature(line, signature_column(a, inline), fmt, m, ns));
}

proof fn lemma_at(a: Seq<char>, b: Seq<char>, c: Seq<char>, d: Seq<char>, e: Seq<char>)
    ensures
        starts_with((a + b + c) + d + e, a),
        matches_at((a + b + c) + d + e, b, a.len() as int),
{
    let all = (a + b + c) + d + e;
    assert(all.take(a.len() as int) =~= a);
    assert(all.subrange(a.len() as int, (a.len() + b.len()) as int) =~= b);
}

proof fn lemma_words(f: FunctionTypeModel, inline: bool)
    ensures
        ({
            let a = f.attrs;
            let first = "\t"@ + method_prefix(f, inline);
            &&& a.is_virtual && !a.is_static ==> first == "\tvirtual\t"@
            &&& a.is_virtual && a.is_static ==> first == "\tvirtual\tstatic\t"@
            &&& !a.is_virtual && a.is_static && !a.is_inline ==> first == "\tstatic\t"@
            &&& !a.is_virtual && a.is_static && a.is_inline ==> first == "\tstatic\tinline\t"@
            &&& !a.is_virtual && !a.is_static && a.is_inline ==> first == "\tinline\t"@
            &&& !a.is_virtual && !a.is_static && !a.is_inline && inline ==> first == "\t\t\t"@
            &&& first.len() == signature_column(a, inline)
        }),
{
    let a = f.attrs;
    let first = "\t"@ + method_prefix(f, inline);
    reveal_strlit("");
    reveal_strlit("\t");
    reveal_strlit("\t\t");
    reveal_strlit("\t\t\t");
    reveal_strlit("virtual\t");
    reveal_strlit("static\t");
    reveal_strlit("inline\t");
    reveal_strlit("\tvirtual\t");
    reveal_strlit("\tstatic\t");
    reveal_strlit("\tinline\t");
    reveal_strlit("\tvirtual\tstatic\t");
    reveal_strlit("\tstatic\tinline\t");
    if a.is_virtual && !a.is_static {
        assert(first =~= "\tvirtual\t"@);
    }
    if a.is_virtual && a.is_static {
        assert(first =~= "\tvirtual\tstatic\t"@);
    }
    if !a.is_virtual && a.is_static && !a.is_inline {
        assert(first =~= "\tstatic\t"@);
    }
    if !a.is_virtual && a.is_static && a.is_inline {
        assert(first =~= "\tstatic\tinline\t"@);
    }
    if !a.is_virtual && !a.is_static && a.is_inline {
        assert(first =~= "\tinline\t"@);
    }
    if !a.is_virtual && !a.is_static && !a.is_inline && inline {
        assert(first =~= "\t\t\t"@);
    }
}

// ---------------------------------------------------------------------------
// Signatures
// ---------------------------------------------------------------------------

/// A signature says that its function is constant exactly where it is: it is that of the same
/// function without the attribute, with ` const` behind it.
pub proof fn lemma_constant_function_is_declared(
    fmt: Formatter,
    f: FunctionTypeModel,
    ns: NamespaceModel,
    margs: Seq<(Seq<char>, Seq<char>)>,
)
    requires
        f.attrs.is_const,
    ensures
        signature(fmt, f, ns, margs) == signature(
            fmt,
            FunctionTypeModel { attrs: Attributes { is_const: false, ..f.attrs }, ..f },
            ns,
            margs,
        ) + " const"@,
{
    let other = FunctionTypeModel { attrs: Attributes { is_const: false, ..f.attrs }, ..f };
    reveal_strlit("");
    assert(args_of(f, ns, margs, fmt is Header) =~= args_of(other, ns, margs, fmt is Header));
    assert(signature(fmt, f, ns, margs) =~= signature(fmt, other, ns, margs) + " const"@);
}

/// An argument that the body did not record is numbered. One that it recorded with the type
/// that the function has, or with that type made constant, has the recorded name; with another
/// type it is numbered, and what was recorded is put beside it.
pub proof fn lemma_arguments_are_named(
    f: FunctionTypeModel,
    ns: NamespaceModel,
    margs: Seq<(Seq<char>, Seq<char>)>,
    in_header: bool,
    i: int,
)
    requires
        0 <= i < f.arg_types.len(),
    ensures
        ({
            let a = args_of(f, ns, margs, in_header)[i];
            let ty = name_within(f.arg_types[i], ns);
            let number = "arg_"@ + dec(i as nat);
            &&& args_of(f, ns, margs, in_header).len() == f.arg_types.len()
            &&& i >= margs.len() ==> a.name == number && a.ty == ty && !a.guessed
            &&& i < margs.len() && margs[i].1 == ty ==> a.name == margs[i].0 && !a.guessed
            &&& i < margs.len() && margs[i].1 == "const "@ + ty && !ends_with(ty, " const"@)
                ==> a.name == margs[i].0 && !a.guessed
            &&& i < margs.len() && margs[i].1 == ty ==> a.ty == ty
            &&& in_header ==> a.ty == ty
            &&& a.guessed ==> i < margs.len() && a.ty == ty && a.name == number + " /* "@
                + margs[i].1 + " "@ + margs[i].0 + " */"@
        }),
{
    let ty = name_within(f.arg_types[i], ns);
    if i < margs.len() && margs[i].1 == "const "@ + ty {
        let r = margs[i].1;
        let n = "const "@.len() as int;
        assert(r.take(n) =~= "const "@);
        assert(r.skip(n) =~= ty);
    }
}

// ---------------------------------------------------------------------------
// Classes
// ---------------------------------------------------------------------------

/// Whether a text has the line of a member: its offset with at least four digits, its type,
/// and behind nothing but tabs its name and what makes it an array.
pub open spec fn has_member(s: Seq<char>, x: ClassFieldModel) -> bool {
    exists|digits: Seq<char>|
        digits.len() >= 4 && #[trigger] hex_read(digits) == Some(x.offset as nat) && holds_apart(
            s,
            "\t/* 0x"@ + digits + " */\t"@ + x.ty,
            "\t"@ + x.name + x.array + ";\n"@,
        )
}

proof fn lemma_member_within(x: Seq<char>, s: Seq<char>, y: Seq<char>, m: ClassFieldModel)
    requires
        has_member(s, m),
    ensures
        has_member(x + s + y, m),
        has_member(x + s, m),
        has_member(s + y, m),
{
    let digits = choose|digits: Seq<char>|
        digits.len() >= 4 && #[trigger] hex_read(digits) == Some(m.offset as nat) && holds_apart(
            s,
            "\t/* 0x"@ + digits + " */\t"@ + m.ty,
            "\t"@ + m.name + m.array + ";\n"@,
        );
    let a = "\t/* 0x"@ + digits + " */\t"@ + m.ty;
    let b = "\t"@ + m.name + m.array + ";\n"@;
    let tabs = choose|tabs: Seq<char>| only(tabs, '\t') && holds(s, #[trigger] (a + tabs) + b);
    lemma_holds_within(x, s, y, (a + tabs) + b);
    assert(holds_apart(x + s + y, a, b) && holds_apart(x + s, a, b) && holds_apart(s + y, a, b));
}

proof fn lemma_field_line(f: Seq<ClassFieldModel>, i: int, n: int)
    requires
        0 <= i < n <= f.len(),
    ensures
        has_member(field_lines(f, n), f[i]),
    decreases n,
{
    let before = field_lines(f, n - 1);
    let x = f[n - 1];
    let digits = pad_front(hex(x.offset as nat), '0', 4);
    let a = "\t/* 0x"@ + digits + " */\t"@ + x.ty;
    let tabs = padding(byte_len(x.ty) as int, longest_short(field_lens(f)));
    let b = "\t"@ + x.name + x.array + ";\n"@;
    let last = (a + tabs) + b;
    assert(field_lines(f, n) =~= before + last);
    if i < n - 1 {
        lemma_field_line(f, i, n - 1);
        lemma_member_within(Seq::empty(), before, last, f[i]);
    } else {
        lemma_padded_hex_is_read(x.offset as nat, 4);
        assert(digits.len() >= 4);
        assert(only(tabs, '\t'));
        lemma_holds_piece(before, last, Seq::empty());
        assert(holds(field_lines(f, n), (a + tabs) + b));
        assert(holds_apart(field_lines(f, n), a, b));
    }
}

proof fn lemma_instance_line(c: ClassModel, i: int, n: int)
    requires
        0 <= i < n <= c.instance_methods.len(),
    ensures
        holds(
            instance_lines(c, n),
            method_line(
                c.instance_methods[i],
                c.namespace,
                has_inline(c.instance_methods),
                return_width(c),
                name_width(c),
            ),
        ),
    decreases n,
{
    let before = instance_lines(c, n - 1);
    let all = instance_lines(c, n);
    let line = method_line(
        c.instance_methods[i],
        c.namespace,
        has_inline(c.instance_methods),
        return_width(c),
        name_width(c),
    );
    if i < n - 1 {
        lemma_instance_line(c, i, n - 1);
        let more = all.skip(before.len() as int);
        assert(all =~= before + more);
        lemma_holds_within(Seq::empty(), before, more, line);
    } else {
        let start = all.take(all.len() - line.len());
        assert(all =~= start + line);
        lemma_holds_piece(start, line, Seq::empty());
    }
}

proof fn lemma_static_method_line(c: ClassModel, i: int, n: int)
    requires
        0 <= i < n <= c.static_methods.len(),
    ensures
        holds(
            static_lines(c, n),
            method_line(
                c.static_methods[i],
                c.namespace,
                false,
                return_width(c),
                name_width(c),
            ),
        ),
    decreases n,
{
    let before = static_lines(c, n - 1);
    let last = method_line(
        c.static_methods[n - 1],
        c.namespace,
        false,
        return_width(c),
        name_width(c),
    );
    if i < n - 1 {
        lemma_static_method_line(c, i, n - 1);
        lemma_holds_within(
            Seq::empty(),
            before,
            last,
            method_line(c.static_methods[i], c.namespace, false, return_width(c), name_width(c)),
        );
    } else {
        lemma_holds_piece(before, last, Seq::empty());
    }
}

proof fn lemma_base_text(b: Seq<BaseModel>, i: int, n: int)
    requires
        0 <= i < n <= b.len(),
    ensures
        holds(
            bases_text(b, n),
            (if i == 0 {
                " : public "@
            } else {
                " , public "@
            }) + b[i].ty,
        ),
    decreases n,
{
    reveal_strlit(" ");
    reveal_strlit(":");
    reveal_strlit(",");
    reveal_strlit(" public ");
    reveal_strlit(" : public ");
    reveal_strlit(" , public ");
    assert(" "@ + ":"@ + " public "@ =~= " : public "@);
    assert(" "@ + ","@ + " public "@ =~= " , public "@);
    let before = bases_text(b, n - 1);
    let last = (if n == 1 {
        " : public "@
    } else {
        " , public "@
    }) + b[n - 1].ty;
    assert(bases_text(b, n) == before + last);
    if i < n - 1 {
        lemma_base_text(b, i, n - 1);
        lemma_holds_within(
            Seq::empty(),
            before,
            last,
            (if i == 0 {
                " : public "@
            } else {
                " , public "@
            }) + b[i].ty,
        );
    } else {
        lemma_holds_piece(before, last, Seq::empty());
    }
}

proof fn lemma_base_remark(b: Seq<BaseModel>, i: int, n: int)
    requires
        0 <= i < n <= b.len(),
    ensures
        holds(
            base_remarks(b, n),
            "\t/* 0x"@ + pad_front(hex(b[i].offset as nat), '0', 4) + " */\t/* "@ + b[i].ty
                + " */\n"@,
        ),
    decreases n,
{
    let before = base_remarks(b, n - 1);
    let last = "\t/* 0x"@ + pad_front(hex(b[n - 1].offset as nat), '0', 4) + " */\t/* "@ + b[n
        - 1].ty + " */\n"@;
    if i < n - 1 {
        lemma_base_remark(b, i, n - 1);
        lemma_holds_within(
            Seq::empty(),
            before,
            last,
            "\t/* 0x"@ + pad_front(hex(b[i].offset as nat), '0', 4) + " */\t/* "@ + b[i].ty
                + " */\n"@,
        );
    } else {
        lemma_holds_piece(before, last, Seq::empty());
    }
}

/// The word that a class is declared with.
pub open spec fn keyword(k: ClassKind) -> Seq<char> {
    match k {
        ClassKind::Class => "class"@,
        ClassKind::Struct => "struct"@,
        ClassKind::Interface => "interface"@,
    }
}

spec fn class_front(c: ClassModel) -> Seq<char> {
    keyword(c.kind) + " "@ + c.name + bases_text(c.base_classes, c.base_classes.len() as int)
        + " {\n"@
}

spec fn class_end(c: ClassModel) -> Seq<char> {
    "}; // "@ + keyword(c.kind) + " "@ + c.name + "\n\nSTATIC_SIZE_ASSERT("@ + c.name + ", 0x"@
        + hex_capital(c.size as nat) + ");\n\n"@
}

proof fn lemma_class_parts(c: ClassModel, part: Seq<char>)
    ensures
        class_block(c) == class_front(c) + methods_block(c) + fields_block(c) + class_end(c),
        holds(methods_block(c), part) ==> holds(class_block(c), part),
        holds(fields_block(c), part) ==> holds(class_block(c), part),
        holds(class_front(c), part) ==> holds(class_block(c), part),
{
    reveal(class_block);
    let none = Seq::<char>::empty();
    let a = class_front(c);
    let b = methods_block(c);
    let d = fields_block(c);
    let e = class_end(c);
    assert(class_block(c) == a + b + d + e);
    if holds(b, part) {
        lemma_holds_within(a, b, d, part);
        lemma_holds_within(none, a + b + d, e, part);
    }
    if holds(d, part) {
        lemma_holds_within(a + b, d, e, part);
    }
    if holds(a, part) {
        lemma_holds_within(none, a, b, part);
        lemma_holds_within(none, a + b, d, part);
        lemma_holds_within(none, a + b + d, e, part);
    }
}

/// A class is declared under its keyword and name, and the size that the records give it is
/// asserted behind it.
pub proof fn lemma_class_is_declared(c: ClassModel)
    ensures
        starts_with(class_block(c), keyword(c.kind) + " "@ + c.name),
        ends_with(
            class_block(c),
            "STATIC_SIZE_ASSERT("@ + c.name + ", 0x"@ + hex_capital(c.size as nat) + ");\n\n"@,
        ),
        c.kind is Struct && c.fields.len() > 0 ==> holds(class_block(c), "\npublic:\n"@),
        !(c.kind is Struct) && c.fields.len() > 0 ==> holds(class_block(c), "\nprivate:\n"@),
        !(c.kind is Struct) && c.instance_methods.len() + c.static_methods.len() > 0
            ==> starts_with(methods_block(c), "public:\n"@),
{
    lemma_class_parts(c, ""@);
    let all = class_block(c);
    let k = keyword(c.kind) + " "@ + c.name;
    let bases = bases_text(c.base_classes, c.base_classes.len() as int);
    lemma_starts(k, bases, " {\n"@, methods_block(c), fields_block(c), class_end(c));
    let assertion = "STATIC_SIZE_ASSERT("@ + c.name + ", 0x"@ + hex_capital(c.size as nat)
        + ");\n\n"@;
    reveal_strlit("\n\nSTATIC_SIZE_ASSERT(");
    reveal_strlit("STATIC_SIZE_ASSERT(");
    reveal_strlit("\n\n");
    assert("\n\nSTATIC_SIZE_ASSERT("@ =~= "\n\n"@ + "STATIC_SIZE_ASSERT("@);
    let title = "}; // "@ + keyword(c.kind) + " "@ + c.name;
    lemma_end_of_class(title, "\n\n"@, "STATIC_SIZE_ASSERT("@, c.name, ", 0x"@, hex_capital(
        c.size as nat,
    ), ");\n\n"@);
    lemma_ends(class_front(c) + methods_block(c) + fields_block(c), class_end(c), assertion);
    let none = Seq::<char>::empty();
    if c.fields.len() > 0 {
        let title = if c.kind is Struct {
            "\npublic:\n"@
        } else {
            "\nprivate:\n"@
        };
        let r = base_remarks(c.base_classes, c.base_classes.len() as int);
        let f = field_lines(c.fields, c.fields.len() as int);
        lemma_holds_piece(none, title, r);
        lemma_holds_within(none, title + r, f, title);
        lemma_class_parts(c, title);
    }
    if !(c.kind is Struct) && c.instance_methods.len() + c.static_methods.len() > 0 {
        let m = methods_block(c);
        assert(m.take("public:\n"@.len() as int) =~= "public:\n"@);
    }
}

proof fn lemma_starts(
    a: Seq<char>,
    b: Seq<char>,
    c: Seq<char>,
    d: Seq<char>,
    e: Seq<char>,
    f: Seq<char>,
)
    ensures
        starts_with(a + b + c + d + e + f, a),
{
    assert((a + b + c + d + e + f).take(a.len() as int) =~= a);
}

proof fn lemma_ends(a: Seq<char>, b: Seq<char>, end: Seq<char>)
    requires
        ends_with(b, end),
    ensures
        ends_with(a + b, end),
{
    let all = a + b;
    assert(all.skip(all.len() - end.len()) =~= b.skip(b.len() - end.len()));
}

proof fn lemma_end_of_class(
    a: Seq<char>,
    b: Seq<char>,
    c: Seq<char>,
    d: Seq<char>,
    e: Seq<char>,
    f: Seq<char>,
    g: Seq<char>,
)
    ensures
        ends_with(a + (b + c) + d + e + f + g, c + d + e + f + g),
{
    let all = a + (b + c) + d + e + f + g;
    let end = c + d + e + f + g;
    assert(all =~= (a + b) + end);
    assert(all.skip(all.len() - end.len()) =~= end);
}

/// A class declares everything that the records give it: each base, each method, and each
/// member with its offset and type.
pub proof fn lemma_class_holds_all(c: ClassModel)
    ensures
        forall|i: int|
            0 <= i < c.base_classes.len() ==> holds(
                class_block(c),
                (if i == 0 {
                    " : public "@
                } else {
                    " , public "@
                }) + (#[trigger] c.base_classes[i]).ty,
            ),
        forall|i: int|
            0 <= i < c.instance_methods.len() ==> holds(
                class_block(c),
                method_line(
                    #[trigger] c.instance_methods[i],
                    c.namespace,
                    has_inline(c.instance_methods),
                    return_width(c),
                    name_width(c),
                ),
            ),
        forall|i: int|
            0 <= i < c.static_methods.len() ==> holds(
                class_block(c),
                method_line(
                    #[trigger] c.static_methods[i],
                    c.namespace,
                    false,
                    return_width(c),
                    name_width(c),
                ),
            ),
        forall|i: int|
            0 <= i < c.fields.len() ==> has_member(class_block(c), #[trigger] c.fields[i]),
        c.fields.len() > 0 ==> forall|i: int|
            0 <= i < c.base_classes.len() ==> holds(
                class_block(c),
                "\t/* 0x"@ + pad_front(hex((#[trigger] c.base_classes[i]).offset as nat), '0', 4)
                    + " */\t/* "@ + c.base_classes[i].ty + " */\n"@,
            ),
{
    let none = Seq::<char>::empty();
    let front = keyword(c.kind) + " "@ + c.name;
    let bases = bases_text(c.base_classes, c.base_classes.len() as int);
    assert forall|i: int| 0 <= i < c.base_classes.len() implies holds(
        class_block(c),
        (if i == 0 {
            " : public "@
        } else {
            " , public "@
        }) + (#[trigger] c.base_classes[i]).ty,
    ) by {
        let part = (if i == 0 {
            " : public "@
        } else {
            " , public "@
        }) + c.base_classes[i].ty;
        lemma_base_text(c.base_classes, i, c.base_classes.len() as int);
        lemma_holds_within(front, bases, " {\n"@, part);
        lemma_class_parts(c, part);
    }
    let access = if c.kind is Struct {
        ""@
    } else {
        "public:\n"@
    };
    let i_lines = instance_lines(c, c.instance_methods.len() as int);
    let gap = if c.static_methods.len() == 0 {
        ""@
    } else {
        "\n"@
    };
    let s_lines = static_lines(c, c.static_methods.len() as int);
    assert forall|i: int| 0 <= i < c.instance_methods.len() implies holds(
        class_block(c),
        method_line(
            #[trigger] c.instance_methods[i],
            c.namespace,
            has_inline(c.instance_methods),
            return_width(c),
            name_width(c),
        ),
    ) by {
        let part = method_line(
            c.instance_methods[i],
            c.namespace,
            has_inline(c.instance_methods),
            return_width(c),
            name_width(c),
        );
        lemma_instance_line(c, i, c.instance_methods.len() as int);
        assert(methods_block(c) == access + i_lines + gap + s_lines);
        lemma_holds_within(access, i_lines, gap, part);
        lemma_holds_within(none, access + i_lines + gap, s_lines, part);
        lemma_class_parts(c, part);
    }
    assert forall|i: int| 0 <= i < c.static_methods.len() implies holds(
        class_block(c),
        method_line(
            #[trigger] c.static_methods[i],
            c.namespace,
            false,
            return_width(c),
            name_width(c),
        ),
    ) by {
        let part = method_line(
            c.static_methods[i],
            c.namespace,
            false,
            return_width(c),
            name_width(c),
        );
        lemma_static_method_line(c, i, c.static_methods.len() as int);
        assert(methods_block(c) == access + i_lines + gap + s_lines);
        lemma_holds_within(access + i_lines + gap, s_lines, none, part);
        lemma_class_parts(c, part);
    }
    let title = if c.kind is Struct {
        "\npublic:\n"@
    } else {
        "\nprivate:\n"@
    };
    let remarks = base_remarks(c.base_classes, c.base_classes.len() as int);
    let f_lines = field_lines(c.fields, c.fields.len() as int);
    lemma_class_parts(c, none);
    assert forall|i: int| 0 <= i < c.fields.len() implies has_member(
        class_block(c),
        #[trigger] c.fields[i],
    ) by {
        lemma_field_line(c.fields, i, c.fields.len() as int);
        assert(fields_block(c) == title + remarks + f_lines);
        lemma_member_within(title + remarks, f_lines, none, c.fields[i]);
        lemma_member_within(
            class_front(c) + methods_block(c),
            fields_block(c),
            class_end(c),
            c.fields[i],
        );
    }
    if c.fields.len() > 0 {
        assert forall|i: int| 0 <= i < c.base_classes.len() implies holds(
            class_block(c),
            "\t/* 0x"@ + pad_front(hex((#[trigger] c.base_classes[i]).offset as nat), '0', 4)
                + " */\t/* "@ + c.base_classes[i].ty + " */\n"@,
        ) by {
            let part = "\t/* 0x"@ + pad_front(hex(c.base_classes[i].offset as nat), '0', 4)
                + " */\t/* "@ + c.base_classes[i].ty + " */\n"@;
            lemma_base_remark(c.base_classes, i, c.base_classes.len() as int);
            assert(fields_block(c) == title + remarks + f_lines);
            lemma_holds_within(title, remarks, f_lines, part);
            lemma_class_parts(c, part);
        }
    }
}

// ---------------------------------------------------------------------------
// Enumerations
// ---------------------------------------------------------------------------

/// Whether a text has the line of a value: its name, and behind nothing but tabs its number
/// with its sign.
pub open spec fn has_value(s: Seq<char>, name: Seq<char>, n: int) -> bool {
    exists|digits: Seq<char>|
        #[trigger] hex_read(digits) == Some(
            (if n >= 0 {
                n
            } else {
                -n
            }) as nat,
        ) && holds_apart(
            s,
            "\t"@ + name,
            "\t= "@ + (if n >= 0 {
                "0x"@
            } else {
                "-0x"@
            }) + digits + ",\n"@,
        )
}

proof fn lemma_value_within(x: Seq<char>, s: Seq<char>, y: Seq<char>, name: Seq<char>, n: int)
    requires
        has_value(s, name, n),
    ensures
        has_value(x + s + y, name, n),
        has_value(x + s, name, n),
        has_value(s + y, name, n),
{
    let value = if n >= 0 {
        n
    } else {
        -n
    };
    let sign = if n >= 0 {
        "0x"@
    } else {
        "-0x"@
    };
    let digits = choose|digits: Seq<char>|
        #[trigger] hex_read(digits) == Some(value as nat) && holds_apart(
            s,
            "\t"@ + name,
            "\t= "@ + sign + digits + ",\n"@,
        );
    let a = "\t"@ + name;
    let b = "\t= "@ + sign + digits + ",\n"@;
    let tabs = choose|tabs: Seq<char>| only(tabs, '\t') && holds(s, #[trigger] (a + tabs) + b);
    lemma_holds_within(x, s, y, (a + tabs) + b);
    assert(holds_apart(x + s + y, a, b) && holds_apart(x + s, a, b) && holds_apart(s + y, a, b));
}

proof fn lemma_value_line(v: Seq<(Seq<char>, Variant)>, i: int, n: int)
    requires
        0 <= i < n <= v.len(),
    ensures
        has_value(value_lines(v, n), v[i].0, v[i].1.number()),
    decreases n,
{
    let before = value_lines(v, n - 1);
    let all = value_lines(v, n);
    if i < n - 1 {
        lemma_value_line(v, i, n - 1);
        let more = all.skip(before.len() as int);
        assert(all =~= before + more);
        lemma_value_within(Seq::empty(), before, more, v[i].0, v[i].1.number());
    } else {
        let k = v[i].1.number();
        let w = value_digits(v);
        let value = if k >= 0 {
            k
        } else {
            -k
        };
        let digits = pad_front(hex(value as nat), '0', w);
        let sign = if k >= 0 {
            "0x"@
        } else {
            "-0x"@
        };
        lemma_padded_hex_is_read(value as nat, w);
        let a = "\t"@ + v[i].0;
        let tabs = padding(
            byte_len(v[i].0) as int,
            longest_short(value_name_lens(v)),
        );
        let b = "\t= "@ + sign + digits + ",\n"@;
        assert(only(tabs, '\t'));
        assert(value_text(v[i].1, w) == sign + digits);
        assert(all =~= before + ((a + tabs) + b));
        lemma_holds_piece(before, (a + tabs) + b, Seq::empty());
        assert(holds(all, (a + tabs) + b));
        assert(holds_apart(all, a, b));
    }
}

/// An enumeration declares each of its values under its name, with its number.
pub proof fn lemma_enumeration_holds_all(e: EnumModel, name: Seq<char>)
    ensures
        starts_with(enum_block(e, name), "enum "@ + name + "\n{\n"@),
        forall|i: int|
            0 <= i < e.values.len() ==> has_value(
                enum_block(e, name),
                (#[trigger] e.values[i]).0,
                e.values[i].1.number(),
            ),
{
    let head = "enum "@ + name + "\n{\n"@;
    let lines = value_lines(e.values, e.values.len() as int);
    assert(enum_block(e, name) == head + lines + "};\n"@);
    assert(enum_block(e, name).take(head.len() as int) =~= head);
    assert forall|i: int| 0 <= i < e.values.len() implies has_value(
        enum_block(e, name),
        (#[trigger] e.values[i]).0,
        e.values[i].1.number(),
    ) by {
        lemma_value_line(e.values, i, e.values.len() as int);
        lemma_value_within(head, lines, "};\n"@, e.values[i].0, e.values[i].1.number());
    }
}

// ---------------------------------------------------------------------------
// Headers
// ---------------------------------------------------------------------------

proof fn lemma_enum_text(e: Seq<EnumModel>, i: int, n: int)
    requires
        0 <= i < n <= e.len(),
    ensures
        holds(enums_text(e, n), enum_block(e[i], e[i].name)),
    decreases n,
{
    let before = enums_text(e, n - 1);
    let last = enum_block(e[n - 1], e[n - 1].name);
    if i < n - 1 {
        lemma_enum_text(e, i, n - 1);
        lemma_holds_within(Seq::empty(), before, last, enum_block(e[i], e[i].name));
    } else {
        lemma_holds_piece(before, last, Seq::empty());
    }
}

proof fn lemma_class_text(c: Seq<ClassModel>, i: int, n: int)
    requires
        0 <= i < n <= c.len(),
    ensures
        holds(classes_text(c, n), class_block(c[i])),
    decreases n,
{
    let before = classes_text(c, n - 1);
    let last = class_block(c[n - 1]);
    if i < n - 1 {
        lemma_class_text(c, i, n - 1);
        lemma_holds_within(Seq::empty(), before, last, class_block(c[i]));
    } else {
        lemma_holds_piece(before, last, Seq::empty());
    }
}

/// A header holds every class and every enumeration that was gathered for it.
pub proof fn lemma_header_holds_all(d: DataModel, class_name: Seq<char>, day: Seq<char>)
    ensures
        forall|i: int|
            0 <= i < d.classes.len() ==> holds(
                header_text(d, class_name, day),
                class_block(#[trigger] d.classes[i]),
            ),
        forall|i: int|
            0 <= i < d.enums.len() ==> holds(
                header_text(d, class_name, day),
                enum_block(#[trigger] d.enums[i], d.enums[i].name),
            ),
{
    let none = Seq::<char>::empty();
    let text = header_text(d, class_name, day);
    let name = file_name(guard_path(class_name))->0;
    let upper = upper_name(name);
    let head = (made_on(day) + opening(name, upper))
        + refs_block(d.forward_references) + d.namespace.opening();
    let body = data_text(d);
    let close = d.namespace.closing();
    let end = ending(name, upper);
    assert(text == head + body + close + end);
    let e = enums_text(d.enums, d.enums.len() as int);
    let gap = if d.enums.len() == 0 {
        ""@
    } else {
        "\n"@
    };
    let c = classes_text(d.classes, d.classes.len() as int);
    assert forall|i: int| 0 <= i < d.classes.len() implies holds(
        text,
        class_block(#[trigger] d.classes[i]),
    ) by {
        let part = class_block(d.classes[i]);
        lemma_class_text(d.classes, i, d.classes.len() as int);
        lemma_holds_within(e + gap, c, none, part);
        lemma_holds_within(head, body, close, part);
        lemma_holds_within(none, head + body + close, end, part);
    }
    assert forall|i: int| 0 <= i < d.enums.len() implies holds(
        text,
        enum_block(#[trigger] d.enums[i], d.enums[i].name),
    ) by {
        let part = enum_block(d.enums[i], d.enums[i].name);
        lemma_enum_text(d.enums, i, d.enums.len() as int);
        lemma_holds_within(none, e, gap, part);
        lemma_holds_within(none, e + gap, c, part);
        lemma_holds_within(head, body, close, part);
        lemma_holds_within(none, head + body + close, end, part);
    }
}

} // verus!
