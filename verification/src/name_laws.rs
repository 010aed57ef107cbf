//! What holds of namespaces, and of how functions and headers are named in them.

use crate::formatter::{arg_list, arg_of, args_len, is_split, longest_short, return_text, short_len,
    without_const, Arg, MAX_PAD_SPACE};
use crate::function_cache::SignatureModel;
use crate::function_type::{FunctionTypeModel, ReturnModel};
use crate::gen_headers::{class_headers, lemma_headers_are_kept, with_class_header, with_enum_header,
    HeaderOutputModel, Headers};
use crate::header_build::header_of;
use crate::header_model::{DataModel, EnumModel, HeaderError, HeaderTable};
use crate::header_write::{header_directories, header_name, header_text, HeaderType};
use crate::number::dec;
use crate::parts::{cat_upto, holds, lemma_holds_both, lemma_holds_pair};
use crate::search::{contains, ends_with, pieces, starts_with};
use crate::source_function::GenFlags;
use crate::type_builder::{name_within, namespace_of, separator_from, NamespaceModel};
use vstd::prelude::*;

verus! {

// ---------------------------------------------------------------------------
// Namespaces
// ---------------------------------------------------------------------------

/// A name inside a namespace is what stands behind the deepest part of the namespace that the
/// name begins with: nothing is lost of a name but that.
pub proof fn lemma_stripped_name_stands_behind_its_namespace(
    r: Seq<char>,
    c: Seq<char>,
    s: Seq<char>,
    name: Seq<char>,
)
    ensures
        ({
            let ns = NamespaceModel { root: Some(r), class: Some(c), subclass: Some(s) };
            &&& ns.stripped(r + "::"@ + c + "::"@ + s + "::"@ + name) == name
            &&& !starts_with(r + "::"@ + c + "::"@ + name, r + "::"@ + c + "::"@ + s + "::"@)
                ==> ns.stripped(r + "::"@ + c + "::"@ + name) == name
            &&& !starts_with(name, r + "::"@) && !starts_with(name, r + "::"@ + c + "::"@)
                && !starts_with(name, r + "::"@ + c + "::"@ + s + "::"@) ==> ns.stripped(name)
                == name
        }),
        ({
            let ns = NamespaceModel { root: Some(r), class: None, subclass: None };
            &&& ns.stripped(r + "::"@ + name) == name
        }),
        NamespaceModel::none().stripped(name) == name,
{
    let ns = NamespaceModel { root: Some(r), class: Some(c), subclass: Some(s) };
    let p = r + "::"@ + c + "::"@ + s + "::"@;
    let q = r + "::"@ + c + "::"@;
    let o = r + "::"@;
    assert((p + name).take(p.len() as int) =~= p);
    assert((p + name).skip(p.len() as int) =~= name);
    assert((q + name).take(q.len() as int) =~= q);
    assert((q + name).skip(q.len() as int) =~= name);
    assert((o + name).take(o.len() as int) =~= o);
    assert((o + name).skip(o.len() as int) =~= name);
}

/// Each namespace is opened and closed on a line of its own, and no line is written where
/// there is none.
pub proof fn lemma_namespaces_are_opened_and_closed(ns: NamespaceModel)
    requires
        ns.nested(),
    ensures
        ns.root matches Some(r) ==> holds(ns.opening(), "namespace "@ + r + " {\n"@) && holds(
            ns.closing(),
            "} // namespace "@ + r + "\n"@,
        ),
        ns.class matches Some(c) ==> holds(ns.opening(), "namespace "@ + c + " {\n"@) && holds(
            ns.closing(),
            "} // namespace "@ + c + "\n"@,
        ),
        ns.subclass matches Some(s) ==> holds(ns.opening(), "namespace "@ + s + " {\n"@) && holds(
            ns.closing(),
            "} // namespace "@ + s + "\n"@,
        ),
        ns.root is None ==> ns.opening().len() == 0 && ns.closing().len() == 0,
{
    reveal_strlit("");
    let a = match ns.root {
        Some(r) => "namespace "@ + r + " {\n"@,
        None => ""@,
    };
    let b = match (ns.root, ns.class) {
        (Some(_), Some(c)) => "namespace "@ + c + " {\n"@,
        _ => ""@,
    };
    let c = match (ns.class, ns.subclass) {
        (Some(_), Some(s)) => "namespace "@ + s + " {\n"@,
        _ => ""@,
    };
    let d = if ns.root is Some || (ns.class is Some && ns.subclass is Some) {
        "\n"@
    } else {
        ""@
    };
    let o = seq![a, b, c, d];
    reveal_with_fuel(cat_upto, 5);
    assert(ns.opening() == cat_upto(o, 4));
    lemma_holds_pair(o, 4, 0);
    lemma_holds_pair(o, 4, 2);
    lemma_holds_both(ns.opening(), a, b);
    lemma_holds_both(ns.opening(), c, d);
    let x = match (ns.class, ns.subclass) {
        (Some(_), Some(s)) => "} // namespace "@ + s + "\n"@,
        _ => ""@,
    };
    let y = match (ns.root, ns.class) {
        (Some(_), Some(c)) => "} // namespace "@ + c + "\n"@,
        _ => ""@,
    };
    let z = match ns.root {
        Some(r) => "} // namespace "@ + r + "\n"@,
        None => ""@,
    };
    let e = seq![x, y, z];
    assert(ns.closing() == cat_upto(e, 3));
    lemma_holds_pair(e, 3, 0);
    lemma_holds_pair(e, 3, 1);
    lemma_holds_both(ns.closing(), x, y);
    lemma_holds_both(ns.closing(), y, z);
}

/// The namespace of a name begins with one of the two that the engine has. The second is a
/// part of the name of the first of these, neither its last part nor a template. The third
/// follows it, and is not the last part either.
pub proof fn lemma_namespace_of_a_name(name: Seq<char>)
    ensures
        ({
            let ns = namespace_of(name);
            let p = pieces(name, "::"@);
            &&& ns.root is Some <==> p[0] == "survarium"@ || p[0] == "vostok"@
            &&& ns.root matches Some(r) ==> r == p[0]
            &&& ns.class matches Some(c) ==> p[0] == "vostok"@ && p.len() >= 3 && c == p[1]
                && !contains(c, "<"@)
            &&& p[0] == "vostok"@ && p[0] != "survarium"@ && p.len() >= 3 && !contains(p[1], "<"@)
                ==> ns.class == Some(p[1])
            &&& ns.subclass matches Some(s) ==> p.len() >= 4 && s == p[2] && ns.class is Some
            &&& p[0] == "vostok"@ && p[0] != "survarium"@ && p.len() >= 4 && p[1] == "render"@ && (
            p[2] == "culling"@ || p[2] == "debug"@) && !contains(p[1], "<"@) ==> ns.subclass
                == Some(p[2])
            &&& p[0] == "vostok"@ && p[0] != "survarium"@ && p.len() >= 4 && p[1] == "ai"@ && (
            p[2] == "planning"@ || p[2] == "perceptors"@ || p[2] == "path_constructor"@ || p[2]
                == "graph_wrapper"@ || p[2] == "sensors"@) && !contains(p[1], "<"@) ==> ns.subclass
                == Some(p[2])
            &&& p[0] == "vostok"@ && p[0] != "survarium"@ && p.len() >= 4 && ((p[1] == "animation"@
                && p[2] == "mixing"@) || (p[1] == "core"@ && p[2] == "configs"@) || (p[1]
                == "memory"@ && p[2] == "detail"@)) && !contains(p[1], "<"@) ==> ns.subclass
                == Some(p[2])
            &&& ns.subclass is Some ==> p[1] == "ai"@ || p[1] == "animation"@ || p[1] == "core"@
                || p[1] == "memory"@ || p[1] == "render"@
        }),
{
}

/// How many brackets more are opened than closed up to a place.
pub open spec fn open_brackets(s: Seq<char>, n: int) -> int
    decreases n,
{
    if n <= 0 {
        0
    } else {
        open_brackets(s, n - 1) + (if s[n - 1] == '<' {
            1int
        } else if s[n - 1] == '>' {
            -1int
        } else {
            0int
        })
    }
}

/// What separates is a separator outside all brackets, and none stands so before it. Where
/// there is none the place is the first, as it is where the text begins with one.
pub proof fn lemma_separator_stands_outside_brackets(s: Seq<char>, sep: char, i: int)
    requires
        0 <= i <= s.len(),
        sep != '<' && sep != '>',
    ensures
        ({
            let k = separator_from(s, sep, i, open_brackets(s, i));
            &&& k != 0 ==> i <= k < s.len() && s[k] == sep && open_brackets(s, k) == 0
            &&& k != 0 ==> forall|j: int|
                i <= j < k ==> !(#[trigger] s[j] == sep && open_brackets(s, j) == 0)
            &&& k == 0 && !(i == 0 && s.len() > 0 && s[0] == sep) ==> forall|j: int|
                i <= j < s.len() ==> !(#[trigger] s[j] == sep && open_brackets(s, j) == 0)
        }),
    decreases s.len() - i,
{
    if i < s.len() && !(open_brackets(s, i) == 0 && s[i] == sep) {
        assert(open_brackets(s, i + 1) == open_brackets(s, i) + (if s[i] == '<' {
            1int
        } else if s[i] == '>' {
            -1int
        } else {
            0int
        }));
        lemma_separator_stands_outside_brackets(s, sep, i + 1);
        let k = separator_from(s, sep, i + 1, open_brackets(s, i + 1));
        assert(separator_from(s, sep, i, open_brackets(s, i)) == k);
        let end = if k == 0 {
            s.len() as int
        } else {
            k
        };
        assert forall|j: int| i <= j < end implies !(#[trigger] s[j] == sep && open_brackets(s, j)
            == 0) by {
            if j > i {
                assert(i + 1 <= j);
            }
        }
    }
}

// ---------------------------------------------------------------------------
// Signatures
// ---------------------------------------------------------------------------

/// An argument has the name that was recorded where the recorded type is that of the
/// signature, with or without `const`. In a header it then has the type of the signature, in
/// a source the recorded one. Where the types differ it is numbered, and what was recorded
/// stands beside it; where nothing was recorded it is numbered alone.
pub proof fn lemma_arguments_take_recorded_names(
    f: FunctionTypeModel,
    ns: NamespaceModel,
    margs: Seq<(Seq<char>, Seq<char>)>,
    in_header: bool,
    i: int,
)
    requires
        0 <= i < f.arg_types.len(),
    ensures
        ({
            let a = arg_of(f, ns, margs, in_header, i);
            let ty = name_within(f.arg_types[i], ns);
            &&& i >= margs.len() ==> a.name == "arg_"@ + dec(i as nat) && a.ty == ty && !a.guessed
            &&& i < margs.len() && (margs[i].1 == ty || without_const(margs[i].1) == ty)
                ==> a.name == margs[i].0 && !a.guessed && (in_header ==> a.ty == ty) && (!in_header
                ==> a.ty == margs[i].1)
            &&& i < margs.len() && margs[i].1 != ty && without_const(margs[i].1) != ty ==> a.guessed
                && a.ty == ty && starts_with(a.name, "arg_"@ + dec(i as nat)) && holds(
                a.name,
                margs[i].1 + " "@,
            ) && holds(a.name, " "@ + margs[i].0)
        }),
{
    if i < margs.len() && margs[i].1 != name_within(f.arg_types[i], ns) && without_const(
        margs[i].1,
    ) != name_within(f.arg_types[i], ns) {
        let a = arg_of(f, ns, margs, in_header, i);
        let p = seq![
            "arg_"@,
            dec(i as nat),
            " /* "@,
            margs[i].1,
            " "@,
            margs[i].0,
            " */"@,
        ];
        reveal_with_fuel(cat_upto, 8);
        assert(a.name == cat_upto(p, 7));
        lemma_holds_pair(p, 7, 3);
        lemma_holds_pair(p, 7, 4);
        let head = "arg_"@ + dec(i as nat);
        assert(a.name.take(head.len() as int) =~= head);
    }
}

/// `const` is taken off a type at its beginning and at its end.
pub proof fn lemma_const_is_taken_off(s: Seq<char>)
    ensures
        !starts_with(s, "const "@) && !ends_with(s, " const"@) ==> without_const(s)
            == s,
        !ends_with(s, " const"@) ==> without_const("const "@ + s) == s,
        !starts_with(s + " const"@, "const "@) ==> without_const(s + " const"@) == s,
{
    let a = "const "@ + s;
    assert(a.take("const "@.len() as int) =~= "const "@);
    assert(a.skip("const "@.len() as int) =~= s);
    let b = s + " const"@;
    assert(b.skip(b.len() - " const"@.len()) =~= " const"@);
    assert(b.take(b.len() - " const"@.len()) =~= s);
}

/// Four arguments or more, arguments beyond eighty bytes, and one that is guessed make each
/// stand on a line of its own; all others stand on one line.
pub proof fn lemma_arguments_are_split(args: Seq<Arg>, margin: Seq<char>)
    ensures
        args.len() >= 4 ==> starts_with(arg_list(args, margin), "(\n"@),
        (exists|i: int| 0 <= i < args.len() && (#[trigger] args[i]).guessed) ==> starts_with(
            arg_list(args, margin),
            "(\n"@,
        ),
        args_len(args, args.len() as int) > 80 ==> starts_with(arg_list(args, margin), "(\n"@),
        args.len() < 4 && args_len(args, args.len() as int) <= 80 && (forall|i: int|
            0 <= i < args.len() ==> !(#[trigger] args[i]).guessed) ==> !is_split(args)
            && ends_with(arg_list(args, margin), " )"@),
{
    let s = arg_list(args, margin);
    if is_split(args) {
        assert(s.take("(\n"@.len() as int) =~= "(\n"@);
    } else {
        assert(s.skip(s.len() - " )"@.len()) =~= " )"@);
    }
}

/// A constructor is explicit exactly where it takes one argument, a destructor has nothing
/// before it, and another function has the type that it returns.
pub proof fn lemma_what_stands_before_a_name(r: ReturnModel, n: int, ns: NamespaceModel)
    ensures
        r is Constructor && n == 1 ==> return_text(r, n, ns) == "explicit"@,
        r is Constructor && n != 1 ==> return_text(r, n, ns) == ""@,
        r is Destructor ==> return_text(r, n, ns) == ""@,
        r matches ReturnModel::Type(t) ==> return_text(r, n, ns) == name_within(t, ns),
{
}

/// The widest column reaches every length below the limit, and is one of them.
pub proof fn lemma_column_reaches_all_short_lengths(lens: Seq<int>)
    requires
        forall|i: int| 0 <= i < lens.len() ==> #[trigger] lens[i] >= 0,
    ensures
        forall|i: int|
            0 <= i < lens.len() && #[trigger] lens[i] < MAX_PAD_SPACE ==> lens[i]
                <= longest_short(lens),
        longest_short(lens) == 0 || lens.contains(longest_short(lens)),
        0 <= longest_short(lens),
    decreases lens.len(),
{
    if lens.len() > 0 {
        let init = lens.drop_last();
        lemma_column_reaches_all_short_lengths(init);
        assert forall|i: int|
            0 <= i < lens.len() && #[trigger] lens[i] < MAX_PAD_SPACE implies
            lens[i] <= longest_short(lens) by {
            if i < init.len() {
                assert(init[i] == lens[i]);
            }
        }
        if init.contains(longest_short(init)) {
            let k = init.index_of(longest_short(init));
            assert(lens[k] == longest_short(init));
        }
        assert(lens[lens.len() - 1] == lens.last());
        assert(short_len(lens.last()) == 0 || short_len(lens.last()) == lens.last());
    }
}

// ---------------------------------------------------------------------------
// Headers
// ---------------------------------------------------------------------------

/// A header lies in a directory for each part of its namespace, one for enumerations behind
/// them where it holds one. Outside the engine it lies among the others, or nowhere where
/// these are left out.
pub proof fn lemma_headers_lie_in_their_namespace(
    ns: NamespaceModel,
    ty: HeaderType,
    flags: GenFlags,
)
    requires
        ns.nested(),
    ensures
        header_directories(ns, ty, flags) is None <==> ns.root is None
            && flags.skip_non_engine_headers,
        header_directories(ns, ty, flags) matches Some(d) ==> {
            &&& d.len() > 0
            &&& ns.root matches Some(r) ==> d[0] == r
            &&& ns.root is None ==> d[0] == "others"@
            &&& ns.class matches Some(c) ==> d.len() > 1 && d[1] == c
            &&& ns.subclass matches Some(s) ==> d.len() > 2 && d[2] == s
            &&& ty is Enum ==> d.last() == "enums"@
            &&& d.len() == (if ns.root is Some {
                ns.depth()
            } else {
                1int
            }) + (if ty is Enum {
                1int
            } else {
                0int
            })
        },
{
}

proof fn lemma_class_header(
    t: HeaderTable,
    cache: Map<Seq<char>, SignatureModel>,
    flags: GenFlags,
    day: Seq<char>,
    so_far: Headers,
    index: u32,
    name: Seq<char>,
)
    requires
        with_class_header(t, cache, flags, day, so_far, index, name) is Ok,
    ensures
        ({
            let ns = namespace_of(name);
            let h = header_of(t, cache, index, ns, so_far.enums).0;
            let next = with_class_header(t, cache, flags, day, so_far, index, name)->Ok_0.outputs;
            &&& h != Err::<DataModel, HeaderError>(HeaderError::Malformed)
            &&& h matches Ok(d) ==> (header_directories(
                ns,
                HeaderType::Class,
                flags,
            ) matches Some(directories) ==> next.len() == so_far.outputs.len() + 1 && next.last()
                == (HeaderOutputModel {
                directories,
                name: header_name(name, ns),
                text: header_text(d, name, day),
            }))
        }),
{
    reveal(with_class_header);
}

/// A class that is declared in full has a header: under the name that it has inside its
/// namespace, in the directories of that, with the text that its contents give. It is left
/// out only where its types cannot be told or the flags leave it out.
pub proof fn lemma_every_class_has_its_header(
    t: HeaderTable,
    cache: Map<Seq<char>, SignatureModel>,
    flags: GenFlags,
    day: Seq<char>,
    n: int,
    i: int,
)
    requires
        0 <= i < n <= t.records@.len(),
        class_headers(t, cache, flags, day, n) is Ok,
        t.records@[i] is Class,
        !t.records@[i]->Class_0.forward_reference,
    ensures
        class_headers(t, cache, flags, day, i) matches Ok(so_far) && {
            let name = t.records@[i]->Class_0.name@;
            let ns = namespace_of(name);
            let h = header_of(t, cache, (t.first + i) as u32, ns, so_far.enums).0;
            &&& h != Err::<DataModel, HeaderError>(HeaderError::Malformed)
            &&& h matches Ok(d) ==> (header_directories(
                ns,
                HeaderType::Class,
                flags,
            ) matches Some(directories) ==> class_headers(
                t,
                cache,
                flags,
                day,
                n,
            )->Ok_0.outputs.contains(
                HeaderOutputModel {
                    directories,
                    name: header_name(name, ns),
                    text: header_text(d, name, day),
                },
            ))
        },
{
    lemma_headers_are_kept(t, cache, flags, day, i, n);
    lemma_headers_are_kept(t, cache, flags, day, i + 1, n);
    let so_far = class_headers(t, cache, flags, day, i)->Ok_0;
    let name = t.records@[i]->Class_0.name@;
    let index = (t.first + i) as u32;
    lemma_class_header(t, cache, flags, day, so_far, index, name);
    let ns = namespace_of(name);
    let next = with_class_header(t, cache, flags, day, so_far, index, name);
    assert(class_headers(t, cache, flags, day, i + 1) == next);
    let h = header_of(t, cache, index, ns, so_far.enums).0;
    if let Ok(d) = h {
        if let Some(directories) = header_directories(ns, HeaderType::Class, flags) {
            let b = class_headers(t, cache, flags, day, n)->Ok_0.outputs;
            assert(b[so_far.outputs.len() as int] == next->Ok_0.outputs.last());
        }
    }
}

/// An enumeration has a header behind those that are there, unless the flags leave it out.
pub proof fn lemma_enumeration_has_its_header(
    flags: GenFlags,
    day: Seq<char>,
    so_far: Seq<HeaderOutputModel>,
    e: EnumModel,
)
    requires
        with_enum_header(flags, day, so_far, e) is Ok,
    ensures
        ({
            let ns = namespace_of(e.name);
            let v = with_enum_header(flags, day, so_far, e)->Ok_0;
            &&& ns.root is None && flags.skip_non_engine_headers ==> v == so_far
            &&& ns.root is Some || !flags.skip_non_engine_headers ==> v.len() == so_far.len() + 1
                && v.last().name == header_name(e.name, ns) && v.last().directories.last()
                == "enums"@
            &&& forall|i: int| 0 <= i < so_far.len() ==> v[i] == #[trigger] so_far[i]
        }),
{
}

} // verus!
