//! The writing of function signatures in columns.

use crate::function_type::{FunctionType, FunctionTypeModel, ReturnModel, ReturnType};
use crate::lcs::views;
use crate::number::{dec, decimal, push_repeated, repeated};
use crate::pieces::{cat2, cat3, cat5, cat7};
use crate::search::{strip_back, strip_front, without_prefix, without_suffix};
use crate::text::{byte_len, len_bytes, owned};
use crate::type_builder::{can_name_templates, name_within, Namespace, NamespaceModel, Type};
use vstd::prelude::*;
use vstd::string::StringExecFns;

verus! {

/// How many tabs the columns behind a type are padded to at most.
pub const MAX_PAD_TABS: usize = 9;

/// How many columns these are.
pub const MAX_PAD_SPACE: usize = 36;

/// How a signature is laid out.
#[derive(Clone, Copy, PartialEq, Eq, Debug, Structural)]
pub enum Formatter {
    /// As in a source file: on one line, or each argument on a line of its own.
    Source,
    /// As in a class, in columns.
    Header(HeaderFormatter),
}

/// The columns of the methods of a class.
#[derive(Clone, Copy, PartialEq, Eq, Debug, Structural)]
pub struct HeaderFormatter {
    /// The width of the return types.
    pub max_return_type_len: usize,
    /// The width of the names.
    pub max_method_name_len: usize,
    /// How far the arguments are indented.
    pub pad_args_len: usize,
}

// ---------------------------------------------------------------------------
// Padding
// ---------------------------------------------------------------------------

/// How many tabs reach from column `prefix_len` to column `pad_space`.
pub open spec fn tabs_between(prefix_len: int, pad_space: int) -> int {
    let all = (pad_space + 3) / 4;
    let done = prefix_len / 4;
    if all > done {
        all - done
    } else {
        0
    }
}

/// The column that padding reaches at most.
pub open spec fn capped(pad_space: int) -> int {
    if pad_space < MAX_PAD_SPACE {
        pad_space
    } else {
        MAX_PAD_SPACE as int
    }
}

/// The tabs from column `prefix_len` to column `pad_space`, up to the limit.
pub open spec fn padding(prefix_len: int, pad_space: int) -> Seq<char> {
    repeated('\t', tabs_between(prefix_len, capped(pad_space)))
}

/// How many tabs reach from column `prefix_len` to column `pad_space`.
pub fn pad_times(prefix_len: usize, pad_space: usize) -> (n: usize)
    ensures
        n == tabs_between(prefix_len as int, pad_space as int),
{
    let rest: usize = if pad_space % 4 != 0 {
        1
    } else {
        0
    };
    let all: usize = rest + pad_space / 4;
    let done: usize = prefix_len / 4;
    if all > done {
        all - done
    } else {
        0
    }
}

/// Pads from column `prefix_len` to the widest column.
pub fn pad_spaces(w: &mut String, prefix_len: usize)
    ensures
        final(w)@ == old(w)@ + padding(prefix_len as int, MAX_PAD_SPACE as int),
{
    pad_spaces_t(w, prefix_len, MAX_PAD_SPACE)
}

/// Pads from column `prefix_len` to column `pad_space`, up to the limit.
pub fn pad_spaces_t(w: &mut String, prefix_len: usize, pad_space: usize)
    ensures
        final(w)@ == old(w)@ + padding(prefix_len as int, pad_space as int),
{
    let to: usize = if pad_space < MAX_PAD_SPACE {
        pad_space
    } else {
        MAX_PAD_SPACE
    };
    push_repeated(w, '\t', pad_times(prefix_len, to));
}

/// Pads from the first column to column `pad_space`, up to the limit.
pub fn pad_spaces_uncap(w: &mut String, pad_space: usize)
    ensures
        final(w)@ == old(w)@ + padding(0, pad_space as int),
{
    pad_spaces_t(w, 0, pad_space)
}

/// Padding brings a text at least to the column that it is padded to, and not a
/// tab further than it must.
pub proof fn lemma_padding_reaches(prefix_len: int, pad_space: int)
    requires
        0 <= prefix_len,
        0 <= pad_space,
    ensures
        4 * (prefix_len / 4 + tabs_between(prefix_len, pad_space)) >= pad_space,
        tabs_between(prefix_len, pad_space) > 0 ==> 4 * (prefix_len / 4 + tabs_between(
            prefix_len,
            pad_space,
        )) < pad_space + 4,
{
}

/// A length, 0 where it is beyond the widest column.
pub open spec fn short_len(length: int) -> int {
    if length >= MAX_PAD_SPACE {
        0
    } else {
        length
    }
}

/// The largest of some lengths that are within the widest column.
pub open spec fn longest_short(lens: Seq<int>) -> int
    decreases lens.len(),
{
    if lens.len() == 0 {
        0
    } else {
        let rest = longest_short(lens.drop_last());
        let here = short_len(lens.last());
        if here > rest {
            here
        } else {
            rest
        }
    }
}

/// Lengths as integers.
pub open spec fn as_ints(v: Seq<usize>) -> Seq<int> {
    v.map_values(|n: usize| n as int)
}

fn ignore_long_length(length: usize) -> (r: usize)
    ensures
        r == short_len(length as int),
{
    if length >= MAX_PAD_SPACE {
        0
    } else {
        length
    }
}

/// The largest of some lengths that are within the widest column.
pub fn max_short(lens: &Vec<usize>) -> (r: usize)
    ensures
        r == longest_short(as_ints(lens@)),
        r < MAX_PAD_SPACE,
{
    let mut r: usize = 0;
    let mut i: usize = 0;
    assert(as_ints(lens@).take(0) =~= Seq::empty());
    while i < lens.len()
        invariant
            i <= lens@.len(),
            r == longest_short(as_ints(lens@).take(i as int)),
            r < MAX_PAD_SPACE,
        decreases lens.len() - i,
    {
        assert(as_ints(lens@).take(i + 1).drop_last() =~= as_ints(lens@).take(i as int));
        let here: usize = ignore_long_length(lens[i]);
        if here > r {
            r = here;
        }
        i = i + 1;
    }
    assert(as_ints(lens@).take(lens@.len() as int) =~= as_ints(lens@));
    r
}

/// The largest of the lengths that `f` gives for some items, of those that are
/// within the widest column.
pub fn get_max_length<T, F: Fn(&T) -> usize>(items: &[T], f: F) -> (r: usize)
    requires
        forall|i: int| 0 <= i < items@.len() ==> f.requires((&#[trigger] items@[i],)),
    ensures
        exists|lens: Seq<usize>|
            lens.len() == items@.len() && (forall|i: int|
                0 <= i < lens.len() ==> f.ensures((&items@[i],), #[trigger] lens[i])) && r
                == longest_short(#[trigger] as_ints(lens)),
{
    let mut lens: Vec<usize> = Vec::new();
    let mut i: usize = 0;
    while i < items.len()
        invariant
            i <= items@.len(),
            lens@.len() == i,
            forall|i: int| 0 <= i < items@.len() ==> f.requires((&#[trigger] items@[i],)),
            forall|k: int| 0 <= k < i ==> f.ensures((&items@[k],), #[trigger] lens@[k]),
        decreases items.len() - i,
    {
        let n: usize = f(&items[i]);
        lens.push(n);
        i = i + 1;
    }
    let r: usize = max_short(&lens);
    assert(as_ints(lens@) == as_ints(lens@));
    r
}

// ---------------------------------------------------------------------------
// Signatures
// ---------------------------------------------------------------------------

/// A type without `const` before it and behind it.
pub open spec fn without_const(s: Seq<char>) -> Seq<char> {
    let a = match without_prefix(s, "const "@) {
        Some(t) => t,
        None => s,
    };
    match without_suffix(a, " const"@) {
        Some(t) => t,
        None => a,
    }
}

/// An argument as it is written; `guessed` where the name that was recorded
/// belongs to another type.
pub struct Arg {
    pub name: Seq<char>,
    pub ty: Seq<char>,
    pub guessed: bool,
}

/// Argument `i` of a function, named by what the body recorded.
pub open spec fn arg_of(
    f: FunctionTypeModel,
    ns: NamespaceModel,
    margs: Seq<(Seq<char>, Seq<char>)>,
    in_header: bool,
    i: int,
) -> Arg {
    let ty = name_within(f.arg_types[i], ns);
    if i >= margs.len() {
        Arg { name: "arg_"@ + dec(i as nat), ty, guessed: false }
    } else {
        let (name, recorded) = margs[i];
        if recorded == ty || without_const(recorded) == ty {
            Arg {
                name,
                ty: if in_header {
                    ty
                } else {
                    recorded
                },
                guessed: false,
            }
        } else {
            Arg {
                name: "arg_"@ + dec(i as nat) + " /* "@ + recorded + " "@ + name + " */"@,
                ty,
                guessed: true,
            }
        }
    }
}

/// The arguments of a function.
pub open spec fn args_of(
    f: FunctionTypeModel,
    ns: NamespaceModel,
    margs: Seq<(Seq<char>, Seq<char>)>,
    in_header: bool,
) -> Seq<Arg> {
    Seq::new(f.arg_types.len(), |i: int| arg_of(f, ns, margs, in_header, i))
}

/// How many bytes the first `n` arguments take up on one line.
pub open spec fn args_len(args: Seq<Arg>, n: int) -> int
    decreases n,
{
    if n <= 0 {
        0
    } else {
        args_len(args, n - 1) + byte_len(args[n - 1].name) + byte_len(args[n - 1].ty) + 2
    }
}

/// Whether each argument is written on a line of its own.
pub open spec fn is_split(args: Seq<Arg>) -> bool {
    ||| exists|i: int| 0 <= i < args.len() && (#[trigger] args[i]).guessed
    ||| args_len(args, args.len() as int) > 80
    ||| args.len() >= 4
}

/// The first `n` arguments on one line.
pub open spec fn joined_args(args: Seq<Arg>, n: int) -> Seq<char>
    decreases n,
{
    if n <= 0 {
        ""@
    } else {
        joined_args(args, n - 1) + ((if n == 1 {
            ""@
        } else {
            ","@
        }) + " "@ + args[n - 1].ty + " "@ + args[n - 1].name)
    }
}

/// The lengths of the arguments' types.
pub open spec fn type_lens(args: Seq<Arg>) -> Seq<int> {
    args.map_values(|a: Arg| byte_len(a.ty) as int)
}

/// The first `n` arguments on a line each.
pub open spec fn split_args(args: Seq<Arg>, margin: Seq<char>, n: int) -> Seq<char>
    decreases n,
{
    if n <= 0 {
        ""@
    } else {
        let a = args[n - 1];
        split_args(args, margin, n - 1) + (margin + "\t"@ + a.ty + "\t"@ + padding(
            byte_len(a.ty) as int,
            longest_short(type_lens(args)),
        ) + a.name + (if n == args.len() {
            "\n"@ + margin + ")"@
        } else {
            ",\n"@
        }))
    }
}

/// The argument list from the opening bracket on.
pub open spec fn arg_list(args: Seq<Arg>, margin: Seq<char>) -> Seq<char> {
    if is_split(args) {
        "(\n"@ + split_args(args, margin, args.len() as int)
    } else {
        "("@ + joined_args(args, args.len() as int) + " )"@
    }
}

/// What stands where a return type stands.
pub open spec fn return_text(r: ReturnModel, args_len: int, ns: NamespaceModel) -> Seq<char> {
    match r {
        ReturnModel::Constructor => if args_len == 1 {
            "explicit"@
        } else {
            ""@
        },
        ReturnModel::Destructor => ""@,
        ReturnModel::Type(t) => name_within(t, ns),
    }
}

/// The column of the return type.
pub open spec fn return_column(
    r: ReturnModel,
    args_len: int,
    ns: NamespaceModel,
    width: Option<usize>,
) -> Seq<char> {
    let t = return_text(r, args_len, ns);
    match width {
        Some(w) => t + "\t"@ + padding(byte_len(t) as int, w as int),
        None => t + " "@,
    }
}

/// A function's signature.
pub open spec fn signature(
    fmt: Formatter,
    f: FunctionTypeModel,
    ns: NamespaceModel,
    margs: Seq<(Seq<char>, Seq<char>)>,
) -> Seq<char> {
    let args = args_of(f, ns, margs, fmt is Header);
    let name = ns.stripped(f.name);
    let (width, name_pad, margin) = match fmt {
        Formatter::Source => (None, ""@, ""@),
        Formatter::Header(h) => (
            Some(h.max_return_type_len),
            padding(byte_len(name) as int, h.max_method_name_len as int),
            padding(0, h.pad_args_len as int),
        ),
    };
    return_column(f.return_type, args.len() as int, ns, width) + name + name_pad + arg_list(
        args,
        margin,
    ) + (if f.attrs.is_const {
        " const"@
    } else {
        ""@
    })
}

/// The arguments of a function of which no names were recorded.
pub open spec fn unnamed(f: FunctionTypeModel, ns: NamespaceModel) -> Seq<(Seq<char>, Seq<char>)> {
    Seq::new(
        f.arg_types.len(),
        |i: int| ("arg_"@ + dec(i as nat), name_within(f.arg_types[i], ns)),
    )
}

/// An argument as it is written.
struct ArgText {
    name: String,
    ty: Type,
    guessed: bool,
}

impl View for ArgText {
    type V = Arg;

    closed spec fn view(&self) -> Arg {
        Arg { name: self.name@, ty: self.ty@, guessed: self.guessed }
    }
}

fn drop_const(s: &str) -> (r: String)
    ensures
        r@ == without_const(s@),
{
    let a: String = match strip_front(s, "const ") {
        Some(t) => t,
        None => owned(s),
    };
    match strip_back(a.as_str(), " const") {
        Some(t) => t,
        None => a,
    }
}

fn make_arg(
    f: &FunctionType,
    namespace: &Namespace,
    margs: &Vec<(String, Type)>,
    in_header: bool,
    i: usize,
) -> (r: ArgText)
    requires
        i < f.arg_types@.len(),
        f@.can_be_written(),
    ensures
        r@ == arg_of(f@, namespace@, views(margs@), in_header, i as int),
{
    assert(f@.arg_types[i as int] == f.arg_types@[i as int]@);
    let ty: Type = Type::new(f.arg_types[i].as_str(), namespace);
    let number: String = decimal(i as u64);
    if i >= margs.len() {
        return ArgText { name: cat2("arg_", number.as_str()), ty, guessed: false };
    }
    assert(views(margs@)[i as int] == (margs@[i as int].0@, margs@[i as int].1@));
    let name: &String = &margs[i].0;
    let recorded: &Type = &margs[i].1;
    if recorded.0 == ty.0 || drop_const(recorded.0.as_str()) == ty.0 {
        ArgText {
            name: name.clone(),
            ty: if in_header {
                ty
            } else {
                recorded.copy()
            },
            guessed: false,
        }
    } else {
        ArgText {
            name: cat7(
                "arg_",
                number.as_str(),
                " /* ",
                recorded.0.as_str(),
                " ",
                name.as_str(),
                " */",
            ),
            ty,
            guessed: true,
        }
    }
}

fn make_args(
    f: &FunctionType,
    namespace: &Namespace,
    margs: &Vec<(String, Type)>,
    in_header: bool,
) -> (r: Vec<ArgText>)
    requires
        f@.can_be_written(),
    ensures
        views(r@) == args_of(f@, namespace@, views(margs@), in_header),
{
    let mut r: Vec<ArgText> = Vec::new();
    let mut i: usize = 0;
    while i < f.arg_types.len()
        invariant
            f@.can_be_written(),
            i <= f.arg_types@.len(),
            r@.len() == i,
            forall|k: int|
                0 <= k < i ==> (#[trigger] r@[k])@ == arg_of(
                    f@,
                    namespace@,
                    views(margs@),
                    in_header,
                    k,
                ),
        decreases f.arg_types.len() - i,
    {
        r.push(make_arg(f, namespace, margs, in_header, i));
        i = i + 1;
    }
    assert(views(r@) =~= args_of(f@, namespace@, views(margs@), in_header));
    r
}

fn should_split(args: &Vec<ArgText>) -> (r: bool)
    ensures
        r == is_split(views(args@)),
{
    let ghost m = views(args@);
    if args.len() >= 4 {
        return true;
    }
    let mut total: u128 = 0;
    let mut i: usize = 0;
    while i < args.len()
        invariant
            m == views(args@),
            args@.len() < 4,
            i <= args@.len(),
            total == args_len(m, i as int),
            total <= i * 0x3_0000_0000_0000_0000,
            forall|k: int| 0 <= k < i ==> !(#[trigger] m[k]).guessed,
        decreases args.len() - i,
    {
        assert(m[i as int] == args@[i as int]@);
        if args[i].guessed {
            return true;
        }
        total = total + len_bytes(args[i].name.as_str()) as u128 + args[i].ty.len() as u128 + 2;
        i = i + 1;
    }
    total > 80
}

fn args_text(args: &Vec<ArgText>, margin: &str) -> (r: String)
    ensures
        r@ == arg_list(views(args@), margin@),
{
    let ghost m = views(args@);
    if !should_split(args) {
        let mut body: String = owned("");
        let mut i: usize = 0;
        while i < args.len()
            invariant
                m == views(args@),
                i <= args@.len(),
                body@ == joined_args(m, i as int),
            decreases args.len() - i,
        {
            assert(m[i as int] == args@[i as int]@);
            let one: String = cat5(
                if i == 0 {
                    ""
                } else {
                    ","
                },
                " ",
                args[i].ty.0.as_str(),
                " ",
                args[i].name.as_str(),
            );
            body.append(one.as_str());
            i = i + 1;
        }
        return cat3("(", body.as_str(), " )");
    }
    let mut lens: Vec<usize> = Vec::new();
    let mut k: usize = 0;
    while k < args.len()
        invariant
            m == views(args@),
            k <= args@.len(),
            lens@.len() == k,
            forall|j: int| 0 <= j < k ==> #[trigger] lens@[j] == byte_len(m[j].ty),
        decreases args.len() - k,
    {
        assert(m[k as int] == args@[k as int]@);
        lens.push(args[k].ty.len());
        k = k + 1;
    }
    assert(as_ints(lens@) =~= type_lens(m));
    let width: usize = max_short(&lens);
    let mut body: String = owned("");
    let mut i: usize = 0;
    let n: usize = args.len();
    while i < n
        invariant
            m == views(args@),
            n == args@.len(),
            n == m.len(),
            i <= n,
            width == longest_short(type_lens(m)),
            body@ == split_args(m, margin@, i as int),
        decreases n - i,
    {
        assert(m[i as int] == args@[i as int]@);
        let mut pad: String = owned("");
        pad_spaces_t(&mut pad, args[i].ty.len(), width);
        assert(pad@ =~= padding(byte_len(m[i as int].ty) as int, width as int)) by {
            reveal_strlit("");
        }
        let end: String = if i + 1 == n {
            cat3("\n", margin, ")")
        } else {
            owned(",\n")
        };
        let line: String = cat7(
            margin,
            "\t",
            args[i].ty.0.as_str(),
            "\t",
            pad.as_str(),
            args[i].name.as_str(),
            end.as_str(),
        );
        body.append(line.as_str());
        i = i + 1;
    }
    cat2("(\n", body.as_str())
}

impl Formatter {
    /// Writes a function's signature with the names of its arguments that its
    /// body recorded.
    pub fn write_fn_signature_with_args(
        self,
        fn_t: &FunctionType,
        namespace: &Namespace,
        margs: &Vec<(String, Type)>,
        w: &mut String,
    )
        requires
            fn_t@.can_be_written(),
        ensures
            final(w)@ == old(w)@ + signature(self, fn_t@, namespace@, views(margs@)),
    {
        let in_header: bool = matches!(self, Formatter::Header(_));
        let args: Vec<ArgText> = make_args(fn_t, namespace, margs, in_header);
        let name: String = namespace.strip(fn_t.name.as_str());
        let mut name_pad: String = String::new();
        let mut margin: String = String::new();
        let mut width: Option<usize> = None;
        proof {
            reveal_strlit("");
        }
        match self {
            Formatter::Source => {},
            Formatter::Header(h) => {
                width = Some(h.max_return_type_len);
                pad_spaces_t(&mut name_pad, len_bytes(name.as_str()), h.max_method_name_len);
                pad_spaces_uncap(&mut margin, h.pad_args_len);
            },
        }
        assert(name_pad@ =~= match self {
            Formatter::Source => ""@,
            Formatter::Header(h) => padding(byte_len(name@) as int, h.max_method_name_len as int),
        });
        assert(margin@ =~= match self {
            Formatter::Source => ""@,
            Formatter::Header(h) => padding(0, h.pad_args_len as int),
        });
        let mut column: String = String::new();
        write_return_type(&fn_t.return_type, args.len(), namespace, width, &mut column);
        assert(column@ =~= return_column(fn_t.return_type@, args@.len() as int, namespace@, width));
        let text: String = cat5(
            column.as_str(),
            name.as_str(),
            name_pad.as_str(),
            args_text(&args, margin.as_str()).as_str(),
            if fn_t.attrs.is_const {
                " const"
            } else {
                ""
            },
        );
        w.append(text.as_str());
    }
}

impl HeaderFormatter {
    /// Writes a function's signature with numbered arguments.
    pub fn write_fn_signature_unnamed_args(
        self,
        fn_t: &FunctionType,
        namespace: &Namespace,
        w: &mut String,
    )
        requires
            fn_t@.can_be_written(),
        ensures
            final(w)@ == old(w)@ + signature(
                Formatter::Header(self),
                fn_t@,
                namespace@,
                unnamed(fn_t@, namespace@),
            ),
    {
        let mut args: Vec<(String, Type)> = Vec::new();
        let mut i: usize = 0;
        while i < fn_t.arg_types.len()
            invariant
                fn_t@.can_be_written(),
                i <= fn_t.arg_types@.len(),
                args@.len() == i,
                forall|k: int|
                    0 <= k < i ==> (#[trigger] args@[k])@ == unnamed(fn_t@, namespace@)[k],
            decreases fn_t.arg_types.len() - i,
        {
            assert(fn_t@.arg_types[i as int] == fn_t.arg_types@[i as int]@);
            let ty: Type = Type::new(fn_t.arg_types[i].as_str(), namespace);
            args.push((cat2("arg_", decimal(i as u64).as_str()), ty));
            i = i + 1;
        }
        assert(views(args@) =~= unnamed(fn_t@, namespace@));
        Formatter::Header(self).write_fn_signature_with_args(fn_t, namespace, &args, w);
    }
}

/// Writes the column of the return type.
pub fn write_return_type(
    return_type: &ReturnType,
    args_len: usize,
    namespace: &Namespace,
    max_return_type_len: Option<usize>,
    w: &mut String,
)
    requires
        return_type@ matches ReturnModel::Type(t) ==> can_name_templates(t),
    ensures
        final(w)@ == old(w)@ + return_column(
            return_type@,
            args_len as int,
            namespace@,
            max_return_type_len,
        ),
{
    let t: String = get_return_type(return_type, args_len, namespace);
    let text: String = match max_return_type_len {
        Some(width) => {
            let mut s: String = cat2(t.as_str(), "\t");
            pad_spaces_t(&mut s, len_bytes(t.as_str()), width);
            s
        },
        None => cat2(t.as_str(), " "),
    };
    w.append(text.as_str());
}

/// What stands where a return type stands: a constructor with one argument is
/// explicit.
pub fn get_return_type(return_type: &ReturnType, args_len: usize, namespace: &Namespace) -> (r:
    String)
    requires
        return_type@ matches ReturnModel::Type(t) ==> can_name_templates(t),
    ensures
        r@ == return_text(return_type@, args_len as int, namespace@),
{
    match return_type {
        ReturnType::Constructor => if args_len == 1 {
            owned("explicit")
        } else {
            owned("")
        },
        ReturnType::Destructor => owned(""),
        ReturnType::Type(t) => Type::new(t.as_str(), namespace).0,
    }
}

/// Arguments are numbered where no names were recorded: every one is taken as it
/// was recorded, and none is guessed.
pub proof fn lemma_unnamed_args_are_not_guessed(
    f: FunctionTypeModel,
    ns: NamespaceModel,
    in_header: bool,
    i: int,
)
    requires
        0 <= i < f.arg_types.len(),
    ensures
        arg_of(f, ns, unnamed(f, ns), in_header, i) == (Arg {
            name: "arg_"@ + dec(i as nat),
            ty: name_within(f.arg_types[i], ns),
            guessed: false,
        }),
{
}

} // verus!
