//! What holds of source files, of the signatures they define, and of the functions that they
//! are compared by.

use crate::divergence_extract::is_skipped;
use crate::divergence_model::{lemma_with_entry, names_differ, SideShape};
use crate::divergence_sources::{function_of, functions_at, join_key, public_from, relative_path,
    with_function, written_name, PublicSymbol, SourceFn};
use crate::dump_pdb::{engine_path_of, file_entries, filters, folder_entries, project_footer,
    project_header, project_text, solution_name};
use crate::files::Files;
use crate::function_cache::{is_member, within_class, SignatureModel};
use crate::gen_sources::FileModel;
use crate::guid::guid_text;
use crate::number::repeated;
use crate::orphan_classify::{classified, found_from, ClassEntryModel};
use crate::parts::{cat_upto, holds, lemma_holds_both, lemma_holds_pair, lemma_holds_piece,
    lemma_holds_through, lemma_holds_within};
use crate::paths::{extension, file_name, FunctionLocation};
use crate::search::{ends_with, replaced, starts_with};
use crate::source_files::{assumed_namespace, ending, engine_files, file_body, in_engine, is_output,
    kept_extension, leading_slashes, made_on, opening, path_in_engine, recorded, relative, stubs,
    upper_name, SourceOutput};
use crate::source_function::{section, stub, typedef_lines, FunctionModel, GenFlags};
use crate::text::{lowercase, texts, uppercase};
use crate::topology_text::indexes_cleaned;
use crate::type_builder::NamespaceModel;
use vstd::prelude::*;

verus! {

// ---------------------------------------------------------------------------
// Files
// ---------------------------------------------------------------------------

/// A source begins with the header of its own name, and a header with the guard of its own,
/// which its end closes. Other files begin and end with nothing.
pub proof fn lemma_file_begins_with_what_it_needs(m: Seq<char>, upper: Seq<char>)
    ensures
        holds(opening(m + ".cpp"@, upper), m + ".h\"\n\n"@),
        holds(opening(m + ".h"@, upper), "#ifndef "@ + (upper + "_H_INCLUDED"@)),
        holds(opening(m + ".h"@, upper), "\n#define "@ + (upper + "_H_INCLUDED"@)),
        holds(ending(m + ".h"@, upper), "\n#endif // #ifndef "@ + (upper + "_H_INCLUDED"@)),
        ending(m + ".cpp"@, upper).len() == 0,
        upper_name(m + ".h"@) == uppercase(m),
        upper_name(m + ".cpp"@) == m + ".cpp"@,
        !ends_with(m, ".cpp"@) && !ends_with(m, ".h"@) ==> opening(m, upper).len() == 0 && ending(
            m,
            upper,
        ).len() == 0 && upper_name(m) == m,
{
    reveal_strlit(".cpp");
    reveal_strlit(".h");
    reveal_strlit("");
    let c = m + ".cpp"@;
    let h = m + ".h"@;
    assert(c.skip(c.len() - 4) =~= ".cpp"@);
    assert(c.take(c.len() - 4) =~= m);
    assert(h.skip(h.len() - 2) =~= ".h"@);
    assert(h.take(h.len() - 2) =~= m);
    assert(c.last() == 'p' && h.last() == 'h');
    assert(!ends_with(c, ".h"@)) by {
        if ends_with(c, ".h"@) {
            assert(c.skip(c.len() - 2)[1] == ".h"@[1]);
        }
    }
    assert(!ends_with(h, ".cpp"@)) by {
        if ends_with(h, ".cpp"@) {
            assert(h.skip(h.len() - 4)[3] == ".cpp"@[3]);
        }
    }
    reveal_with_fuel(cat_upto, 6);
    let a = seq!["#include \"pch.h\"\n#include \""@, m, ".h\"\n\n"@];
    assert(opening(c, upper) == cat_upto(a, 3));
    lemma_holds_pair(a, 3, 1);
    let g = upper + "_H_INCLUDED"@;
    let b = seq!["#ifndef "@, g, "\n#define "@, g, "\n\n"@];
    assert(opening(h, upper) == cat_upto(b, 5));
    lemma_holds_pair(b, 5, 0);
    lemma_holds_pair(b, 5, 2);
    let e = seq!["\n#endif // #ifndef "@, g, "\n"@];
    assert(ending(h, upper) == cat_upto(e, 3));
    lemma_holds_pair(e, 3, 0);
}

proof fn lemma_stubs_hold(fs: Seq<FunctionModel>, ns: NamespaceModel, n: int, i: int)
    requires
        0 <= i < n <= fs.len(),
    ensures
        holds(stubs(fs, ns, n), stub(fs[i], ns)),
    decreases n,
{
    let before = stubs(fs, ns, n - 1);
    if i == n - 1 {
        lemma_holds_piece(before, stub(fs[i], ns), Seq::empty());
    } else {
        lemma_stubs_hold(fs, ns, n - 1, i);
        lemma_holds_within(Seq::empty(), before, stub(fs[n - 1], ns), stub(fs[i], ns));
    }
}

proof fn lemma_typedef_lines_hold(v: Seq<(Seq<char>, Seq<char>)>, n: int, i: int)
    requires
        0 <= i < n <= v.len(),
    ensures
        holds(typedef_lines(v, n), "\t// typedef\n\t// \t"@ + v[i].0),
        holds(typedef_lines(v, n), "\n\t// \t"@ + v[i].1),
    decreases n,
{
    let before = typedef_lines(v, n - 1);
    let last = "\t// typedef\n\t// \t"@ + v[n - 1].0 + "\n\t// \t"@ + v[n - 1].1 + ";\n\n"@;
    if i == n - 1 {
        let a = seq!["\t// typedef\n\t// \t"@, v[i].0, "\n\t// \t"@, v[i].1, ";\n\n"@];
        reveal_with_fuel(cat_upto, 6);
        assert(last == cat_upto(a, 5));
        lemma_holds_pair(a, 5, 0);
        lemma_holds_pair(a, 5, 2);
        lemma_holds_within(before, last, Seq::empty(), a[0] + a[1]);
        lemma_holds_within(before, last, Seq::empty(), a[2] + a[3]);
    } else {
        lemma_typedef_lines_hold(v, n - 1, i);
        lemma_holds_within(Seq::empty(), before, last, "\t// typedef\n\t// \t"@ + v[i].0);
        lemma_holds_within(Seq::empty(), before, last, "\n\t// \t"@ + v[i].1);
    }
}

/// The text of a file holds the stub of every one of its functions and every type that its
/// module names, between the lines that open and close its namespace.
pub proof fn lemma_file_holds_all_functions(
    fs: Seq<FunctionModel>,
    typedefs: Seq<(Seq<char>, Seq<char>)>,
)
    ensures
        ({
            let ns = assumed_namespace(fs, fs.len() as int);
            let s = file_body(fs, typedefs);
            &&& starts_with(s, ns.opening())
            &&& ends_with(s, ns.closing())
            &&& forall|i: int| 0 <= i < fs.len() ==> holds(s, stub(#[trigger] fs[i], ns))
            &&& forall|i: int|
                0 <= i < typedefs.len() ==> holds(s, "\n\t// \t"@ + (#[trigger] typedefs[i]).1)
                    && holds(s, "\t// typedef\n\t// \t"@ + typedefs[i].0)
        }),
{
    reveal(file_body);
    let n = fs.len() as int;
    let k = typedefs.len() as int;
    let ns = assumed_namespace(fs, n);
    let s = file_body(fs, typedefs);
    let t = section("TYPEDEFS"@, typedefs.len(), typedef_lines(typedefs, k));
    let a = seq![ns.opening(), stubs(fs, ns, n), t, ns.closing()];
    reveal_with_fuel(cat_upto, 6);
    assert(s == cat_upto(a, 4));
    lemma_holds_pair(a, 4, 1);
    lemma_holds_both(s, a[1], t);
    assert(s.take(ns.opening().len() as int) =~= ns.opening());
    assert(s.skip(s.len() - ns.closing().len()) =~= ns.closing());
    assert forall|i: int| 0 <= i < fs.len() implies holds(s, stub(#[trigger] fs[i], ns)) by {
        lemma_stubs_hold(fs, ns, n, i);
        lemma_holds_through(s, a[1], stub(fs[i], ns));
    }
    assert forall|i: int| 0 <= i < typedefs.len() implies holds(
        s,
        "\n\t// \t"@ + (#[trigger] typedefs[i]).1,
    ) && holds(s, "\t// typedef\n\t// \t"@ + typedefs[i].0) by {
        lemma_typedef_lines_hold(typedefs, k, i);
        let l = typedef_lines(typedefs, k);
        let b = seq!["\t// "@, "TYPEDEFS"@, "\n"@, l, "\t// ******\n\n"@];
        assert(t == cat_upto(b, 5));
        lemma_holds_pair(b, 5, 3);
        lemma_holds_both(t, l, b[4]);
        lemma_holds_through(s, t, l);
        lemma_holds_through(s, l, "\n\t// \t"@ + typedefs[i].1);
        lemma_holds_through(s, l, "\t// typedef\n\t// \t"@ + typedefs[i].0);
    }
}

/// A file that is written tells the day it was made on first, and holds all that its
/// functions give.
pub proof fn lemma_output_tells_its_day(
    o: SourceOutput,
    file: FileModel,
    typedefs: Seq<(Seq<char>, Seq<char>)>,
    engine_path: Seq<char>,
    day: Seq<char>,
)
    requires
        is_output(o, file, typedefs, engine_path, day),
    ensures
        holds(o.text@, day),
        starts_with(o.text@, made_on(day)),
        holds(o.text@, file_body(file.functions, typedefs)),
{
    reveal(is_output);
    let path = path_in_engine(file.name, engine_path);
    let name = file_name(path)->0;
    let a = made_on(day) + opening(name, upper_name(name));
    let b = file_body(file.functions, typedefs);
    let c = ending(name, upper_name(name));
    assert(o.text@ == a + b + c);
    lemma_holds_piece(a, b, c);
    assert(o.text@.take(made_on(day).len() as int) =~= made_on(day));
    let d = seq![
        "////////////////////////////////////////////////////////////////////////////\n//\tCreated \t: "@,
        day,
        "\n////////////////////////////////////////////////////////////////////////////\n\n"@,
    ];
    reveal_with_fuel(cat_upto, 4);
    assert(made_on(day) == cat_upto(d, 3));
    lemma_holds_pair(d, 3, 0);
    lemma_holds_both(made_on(day), d[0], day);
    let rest = opening(name, upper_name(name)) + b + c;
    assert(o.text@ =~= made_on(day) + rest);
    lemma_holds_within(Seq::empty(), made_on(day), rest, day);
}

/// The files that are written are exactly those in the engine's directory.
pub proof fn lemma_engine_files_are_written(
    files: Seq<FileModel>,
    engine_path: Seq<char>,
    n: int,
    i: int,
)
    requires
        0 <= i < n <= files.len(),
    ensures
        in_engine(files[i].name, engine_path) ==> engine_files(files, engine_path, n).contains(
            files[i],
        ),
        forall|f: FileModel| #[trigger]
            engine_files(files, engine_path, n).contains(f) ==> in_engine(f.name, engine_path)
                && files.contains(f),
    decreases n,
{
    let all = engine_files(files, engine_path, n);
    let before = engine_files(files, engine_path, n - 1);
    if n > 1 {
        lemma_engine_files_are_written(files, engine_path, n - 1, if i < n - 1 {
            i
        } else {
            0
        });
    }
    if in_engine(files[i].name, engine_path) {
        if i < n - 1 {
            let k = before.index_of(files[i]);
            assert(all[k] == files[i]);
        } else {
            assert(all[before.len() as int] == files[i]);
        }
    }
    assert forall|f: FileModel| #[trigger] all.contains(f) implies in_engine(f.name, engine_path)
        && files.contains(f) by {
        let k = all.index_of(f);
        if k < before.len() {
            assert(before[k] == f);
            assert(before.contains(f));
        } else {
            assert(files[n - 1] == f);
        }
    }
}

proof fn lemma_leading_slashes(s: Seq<char>)
    ensures
        leading_slashes(s) <= s.len(),
        leading_slashes(s) < s.len() ==> s[leading_slashes(s) as int] != '/',
        forall|i: int| 0 <= i < leading_slashes(s) ==> #[trigger] s[i] == '/',
    decreases s.len(),
{
    if s.len() > 0 && s[0] == '/' {
        lemma_leading_slashes(s.skip(1));
        assert forall|i: int| 0 <= i < leading_slashes(s) implies #[trigger] s[i] == '/' by {
            if i > 0 {
                assert(s.skip(1)[i - 1] == s[i]);
            }
        }
    }
}

/// A path below a directory does not begin at the root, and a number is put before the
/// extension that the path has.
pub proof fn lemma_relative_paths_are_relative(path: Seq<char>)
    ensures
        ({
            let r = relative(path);
            r.len() > 0 ==> r[0] != '/'
        }),
        ends_with(path, ".h"@) ==> kept_extension(path) == ".h"@,
        ends_with(path, ".cpp"@) && !ends_with(path, ".h"@) ==> kept_extension(path) == ".cpp"@,
        ends_with(path, kept_extension(path)),
        !ends_with(path, ".cpp"@) && !ends_with(path, ".h"@) ==> kept_extension(path).len() == 0,
{
    reveal_strlit("");
    let s = replaced(path, "\\"@, "/"@);
    lemma_leading_slashes(s);
    assert(path.skip(path.len() - 0) =~= ""@);
}

// ---------------------------------------------------------------------------
// Signatures
// ---------------------------------------------------------------------------

/// Every function is recorded under its own name, with its type and its arguments, unless one
/// of its name follows it.
pub proof fn lemma_functions_are_recorded(
    cache: Map<Seq<char>, SignatureModel>,
    fs: Seq<FunctionModel>,
    n: int,
    i: int,
)
    requires
        0 <= i < n <= fs.len(),
        forall|j: int| i < j < n ==> (#[trigger] fs[j]).name_orig != fs[i].name_orig,
    ensures
        recorded(cache, fs, n).contains_key(fs[i].name_orig),
        recorded(cache, fs, n)[fs[i].name_orig].fn_t == fs[i].fn_t,
        recorded(cache, fs, n)[fs[i].name_orig].margs == fs[i].margs,
    decreases n,
{
    if i < n - 1 {
        assert(fs[n - 1].name_orig != fs[i].name_orig);
        lemma_functions_are_recorded(cache, fs, n - 1, i);
    }
}

/// What is recorded under a name that no function has stays as it is.
pub proof fn lemma_other_names_stay_recorded(
    cache: Map<Seq<char>, SignatureModel>,
    fs: Seq<FunctionModel>,
    n: int,
    k: Seq<char>,
)
    requires
        0 <= n <= fs.len(),
        forall|i: int| 0 <= i < n ==> (#[trigger] fs[i]).name_orig != k,
    ensures
        recorded(cache, fs, n).contains_key(k) == cache.contains_key(k),
        cache.contains_key(k) ==> recorded(cache, fs, n)[k] == cache[k],
    decreases n,
{
    if n > 0 {
        assert(fs[n - 1].name_orig != k);
        lemma_other_names_stay_recorded(cache, fs, n - 1, k);
    }
}

/// A method's name is that of its class, two colons, and the name that it has within the
/// class; nothing else of its signature changes.
pub proof fn lemma_class_is_taken_off(s: SignatureModel, class_name: Seq<char>)
    requires
        is_member(s.fn_t.name, class_name),
    ensures
        ({
            let w = within_class(s, class_name);
            &&& s.fn_t.name == class_name + "::"@ + w.fn_t.name
            &&& w.margs == s.margs
            &&& w.fn_t.arg_types == s.fn_t.arg_types
            &&& w.fn_t.return_type == s.fn_t.return_type
            &&& w.fn_t.attrs == s.fn_t.attrs
        }),
{
    let name = s.fn_t.name;
    let w = within_class(s, class_name);
    let rest = name.skip(class_name.len() as int);
    assert(name =~= class_name + rest);
    assert(rest =~= "::"@ + w.fn_t.name);
    assert(name =~= class_name + "::"@ + w.fn_t.name);
}

// ---------------------------------------------------------------------------
// Functions that are compared
// ---------------------------------------------------------------------------

/// A function of a file has its own key, name, module, order and number of statements, and
/// the line that it begins on, or none where the line cannot be relied on.
pub proof fn lemma_function_keeps_what_it_is(f: SourceFn, key: Seq<char>)
    ensures
        ({
            let g = function_of(f, key);
            &&& g.key == key
            &&& g.name_orig == f.name_orig@
            &&& f.reliable ==> g.definition_line == f.proc_start
            &&& !f.reliable ==> g.definition_line == 0
            &&& g.module_id == f.module_id
            &&& g.symbol_order == f.symbol_order
            &&& g.raw_line_table_count == f.statements
            &&& g.constants.len() == f.constants@.len()
            &&& forall|i: int|
                0 <= i < f.constants@.len() ==> (#[trigger] g.constants[i]).name
                    == f.constants@[i].0@ && g.constants[i].typename
                    == indexes_cleaned(f.constants@[i].1@)
                    && g.constants[i].value == f.constants@[i].2.number() as i64
        }),
{
}

/// The symbol at an address is the first that has the address.
pub proof fn lemma_first_symbol_names_an_address(v: Seq<PublicSymbol>, rva: u32, from: int)
    requires
        0 <= from,
    ensures
        match public_from(v, rva, from) {
            Some(s) => exists|i: int|
                from <= i < v.len() && (#[trigger] v[i]).rva == rva && v[i].name@ == s && forall|
                    j: int,
                |
                    from <= j < i ==> (#[trigger] v[j]).rva != rva,
            None => forall|i: int| from <= i < v.len() ==> (#[trigger] v[i]).rva != rva,
        },
    decreases v.len() - from,
{
    if from < v.len() {
        if v[from].rva == rva {
            assert(v[from].rva == rva && v[from].name@ == public_from(v, rva, from)->0);
        } else {
            lemma_first_symbol_names_an_address(v, rva, from + 1);
            if public_from(v, rva, from) is Some {
                let s = public_from(v, rva, from)->0;
                let i = choose|i: int|
                    from + 1 <= i < v.len() && (#[trigger] v[i]).rva == rva && v[i].name@ == s
                        && forall|j: int| from + 1 <= j < i ==> (#[trigger] v[j]).rva != rva;
                assert(v[i].rva == rva && v[i].name@ == s);
            }
        }
    }
}

/// A function is joined by its decorated name, where it has one.
pub proof fn lemma_decorated_name_joins(
    mangled: Seq<char>,
    name_orig: Seq<char>,
    written: Option<Seq<char>>,
)
    ensures
        join_key(Some(mangled), name_orig, written) == mangled,
        !starts_with(name_orig, "void "@) ==> join_key(None, name_orig, written) == name_orig,
{
}

/// Whether a file is a source, by its extension.
pub open spec fn is_source(file: Seq<char>) -> bool {
    extension(file) == Some("cpp"@) || extension(file) == Some("c"@) || extension(file) == Some(
        "cxx"@,
    )
}

/// A function in the engine's directory, in a file that is not left out, is present there.
/// Where a source defines it, it is the last of the functions of its file; where a header
/// does, no file gains a function. Another function changes nothing.
pub proof fn lemma_function_is_placed(
    s: SideShape,
    publics: Seq<PublicSymbol>,
    engine: Seq<char>,
    skip: Seq<Seq<char>>,
    f: SourceFn,
)
    requires
        names_differ(s.files),
    ensures
        ({
            let t = with_function(s, publics, engine, skip, f);
            &&& t.classes == s.classes && t.enums == s.enums
            &&& relative_path(lowercase(f.filename@), engine) is None ==> t == s
            &&& relative_path(lowercase(f.filename@), engine) matches Some(path) ==> {
                let key = join_key(
                    public_from(publics, f.rva, 0),
                    f.name_orig@,
                    written_name(f.name_orig@),
                );
                &&& is_skipped(path, skip) ==> t == s
                &&& !is_skipped(path, skip) ==> t.presence.len() == s.presence.len() + 1
                    && t.presence.last().path == path && t.presence.last().key == key
                    && t.presence.last().name_orig == f.name_orig@
                &&& !is_skipped(path, skip) && is_source(f.filename@) ==> functions_at(
                    t.files,
                    path,
                ) == functions_at(s.files, path).push(function_of(f, key))
                &&& !is_skipped(path, skip) && !is_source(f.filename@) ==> t.files == s.files
            }
        }),
{
    reveal_strlit("cpp");
    if let Some(path) = relative_path(lowercase(f.filename@), engine) {
        if !is_skipped(path, skip) {
            let key = join_key(
                public_from(publics, f.rva, 0),
                f.name_orig@,
                written_name(f.name_orig@),
            );
            lemma_with_entry(
                s.files,
                path,
                functions_at(s.files, path).push(function_of(f, key)),
            );
        }
    }
}

/// A file's function is a source's exactly where the extension of the file says so.
pub proof fn lemma_extension_tells_sources(file: Seq<char>)
    ensures
        FunctionLocation::of(file) is Source <==> is_source(file),
        FunctionLocation::of(file) is Header <==> !is_source(file),
{
}

// ---------------------------------------------------------------------------
// Classifications and projects
// ---------------------------------------------------------------------------

/// A classification keeps what it was given.
pub proof fn lemma_classification_keeps_all(
    mangled: Seq<char>,
    status: Seq<char>,
    reason: Option<Seq<char>>,
    now: Seq<char>,
    reviewer: Seq<char>,
)
    ensures
        ({
            let c = classified(mangled, status, reason, now, reviewer);
            &&& c.mangled == mangled && c.status == status && c.reason == reason
            &&& c.reviewed_at == Some(now) && c.reviewed_by == Some(reviewer)
        }),
{
}

/// What is found of a name is the first classification of it, and nothing is found only
/// where there is none.
pub proof fn lemma_classification_is_found(s: Seq<ClassEntryModel>, mangled: Seq<char>, i: int)
    requires
        0 <= i,
    ensures
        match found_from(s, mangled, i) {
            Some(c) => c.mangled == mangled && s.contains(c),
            None => forall|k: int| i <= k < s.len() ==> (#[trigger] s[k]).mangled != mangled,
        },
    decreases s.len() - i,
{
    if i < s.len() {
        if s[i].mangled == mangled {
            assert(s.contains(s[i]));
        } else {
            lemma_classification_is_found(s, mangled, i + 1);
        }
    }
}

/// Every file of a folder has its entry in a project.
pub proof fn lemma_files_are_in_the_project(
    files: Seq<Seq<char>>,
    tabs: Seq<char>,
    n: int,
    i: int,
)
    requires
        0 <= i < n <= files.len(),
    ensures
        holds(file_entries(files, tabs, n), "\tRelativePath=\".\\"@ + files[i]),
    decreases n,
{
    let before = file_entries(files, tabs, n - 1);
    let f = files[n - 1];
    let last = tabs + "<File\n"@ + tabs + "\tRelativePath=\".\\"@ + f + "\"\n"@ + tabs + "\t>\n"@
        + tabs + "</File>\n"@;
    if i == n - 1 {
        let a = seq![
            tabs,
            "<File\n"@,
            tabs,
            "\tRelativePath=\".\\"@,
            f,
            "\"\n"@,
            tabs,
            "\t>\n"@,
            tabs,
            "</File>\n"@,
        ];
        reveal_with_fuel(cat_upto, 11);
        assert(last == cat_upto(a, 10));
        lemma_holds_pair(a, 10, 3);
        lemma_holds_within(before, last, Seq::empty(), a[3] + a[4]);
    } else {
        lemma_files_are_in_the_project(files, tabs, n - 1, i);
        lemma_holds_within(Seq::empty(), before, last, "\tRelativePath=\".\\"@ + files[i]);
    }
}

proof fn lemma_folders_hold(f: Files, tabs: Seq<char>, n: int, i: int)
    requires
        0 <= i < n <= f.folders@.len(),
        !(tabs == "\t\t\t"@ && f.folders@[i].name@ == "others"@),
    ensures
        holds(folder_entries(f, tabs, n), "\tName=\""@ + f.folders@[i].name@),
        holds(folder_entries(f, tabs, n), filters(f.folders@[i].content, tabs + "\t"@)),
    decreases n,
{
    let before = folder_entries(f, tabs, n - 1);
    let folder = f.folders@[n - 1];
    let inner = filters(folder.content, tabs + "\t"@);
    let head = tabs + "<Filter\n"@ + tabs + "\tName=\""@ + folder.name@ + "\"\n"@ + tabs + "\t>\n"@;
    let tail = tabs + "</Filter>\n"@;
    let name = "\tName=\""@ + f.folders@[i].name@;
    let content = filters(f.folders@[i].content, tabs + "\t"@);
    if i == n - 1 {
        assert(folder_entries(f, tabs, n) == before + head + inner + tail);
        let a = seq![
            tabs,
            "<Filter\n"@,
            tabs,
            "\tName=\""@,
            folder.name@,
            "\"\n"@,
            tabs,
            "\t>\n"@,
        ];
        reveal_with_fuel(cat_upto, 9);
        assert(head == cat_upto(a, 8));
        lemma_holds_pair(a, 8, 3);
        lemma_holds_within(before, head, Seq::empty(), name);
        assert(before + head + inner + tail =~= (before + head) + (inner + tail));
        lemma_holds_within(Seq::empty(), before + head, inner + tail, name);
        lemma_holds_piece(before + head, inner, tail);
    } else {
        lemma_folders_hold(f, tabs, n - 1, i);
        if tabs == "\t\t\t"@ && folder.name@ == "others"@ {
        } else {
            let rest = head + inner + tail;
            assert(folder_entries(f, tabs, n) =~= before + rest);
            lemma_holds_within(Seq::empty(), before, rest, name);
            lemma_holds_within(Seq::empty(), before, rest, content);
        }
    }
}

/// A project has a filter for every folder, with all that is in the folder inside it, and an
/// entry for every file. Only the headers of other projects, one level down, are left out.
pub proof fn lemma_folders_are_in_the_project(f: Files, tabs: Seq<char>)
    ensures
        forall|i: int|
            0 <= i < f.folders@.len() && !(tabs == "\t\t\t"@ && (#[trigger] f.folders@[i]).name@
                == "others"@) ==> holds(filters(f, tabs), "\tName=\""@ + f.folders@[i].name@)
                && holds(filters(f, tabs), filters(f.folders@[i].content, tabs + "\t"@)),
        forall|i: int|
            0 <= i < f.files@.len() ==> holds(
                filters(f, tabs),
                "\tRelativePath=\".\\"@ + (#[trigger] f.files@[i])@,
            ),
{
    let n = f.folders@.len() as int;
    let m = f.files@.len() as int;
    let a = folder_entries(f, tabs, n);
    let b = file_entries(texts(f.files@), tabs, m);
    assert(filters(f, tabs) == a + b);
    assert forall|i: int|
        0 <= i < f.folders@.len() && !(tabs == "\t\t\t"@ && (#[trigger] f.folders@[i]).name@
            == "others"@) implies holds(filters(f, tabs), "\tName=\""@ + f.folders@[i].name@)
        && holds(filters(f, tabs), filters(f.folders@[i].content, tabs + "\t"@)) by {
        lemma_folders_hold(f, tabs, n, i);
        lemma_holds_within(Seq::empty(), a, b, "\tName=\""@ + f.folders@[i].name@);
        lemma_holds_within(Seq::empty(), a, b, filters(f.folders@[i].content, tabs + "\t"@));
    }
    assert forall|i: int| 0 <= i < f.files@.len() implies holds(
        filters(f, tabs),
        "\tRelativePath=\".\\"@ + (#[trigger] f.files@[i])@,
    ) by {
        lemma_files_are_in_the_project(texts(f.files@), tabs, m, i);
        lemma_holds_within(a, b, Seq::empty(), "\tRelativePath=\".\\"@ + texts(f.files@)[i]);
    }
}

/// A project has its name, its identifier and all its folders and files.
pub proof fn lemma_project_holds_all(guid: u128, name: Seq<char>, files: Files)
    ensures
        holds(project_text(guid, name, files), name + "\"\n\tProjectGUID=\"{"@),
        holds(project_text(guid, name, files), "\"\n\tProjectGUID=\"{"@ + guid_text(guid)),
        holds(project_text(guid, name, files), "}\"\n\tRootNamespace=\""@ + name),
        holds(
            project_text(guid, name, files),
            filters(files, repeated('\t', 2)),
        ),
{
    let h = project_header(guid, name);
    let f = filters(files, repeated('\t', 2));
    let e = project_footer();
    lemma_holds_piece(h, f, e);
    lemma_project_header(guid, name);
    assert(project_text(guid, name, files) =~= h + (f + e));
    lemma_holds_within(Seq::empty(), h, f + e, name + "\"\n\tProjectGUID=\"{"@);
    lemma_holds_within(Seq::empty(), h, f + e, "\"\n\tProjectGUID=\"{"@ + guid_text(guid));
    lemma_holds_within(Seq::empty(), h, f + e, "}\"\n\tRootNamespace=\""@ + name);
}

proof fn lemma_header_parts(
    h: Seq<char>,
    a: Seq<char>,
    name: Seq<char>,
    b: Seq<char>,
    g: Seq<char>,
    c: Seq<char>,
    d: Seq<char>,
)
    requires
        h == a + name + b + g + c + name + d,
    ensures
        holds(h, name + b),
        holds(h, b + g),
        holds(h, c + name),
{
    let p = seq![a, name, b, g, c, name, d];
    reveal_with_fuel(cat_upto, 8);
    assert(h == cat_upto(p, 7));
    lemma_holds_pair(p, 7, 1);
    lemma_holds_pair(p, 7, 2);
    lemma_holds_pair(p, 7, 4);
}

proof fn lemma_project_header(guid: u128, name: Seq<char>)
    ensures
        holds(project_header(guid, name), name + "\"\n\tProjectGUID=\"{"@),
        holds(project_header(guid, name), "\"\n\tProjectGUID=\"{"@ + guid_text(guid)),
        holds(project_header(guid, name), "}\"\n\tRootNamespace=\""@ + name),
{
    lemma_header_parts(
        project_header(guid, name),
        "<?xml version=\"1.0\" encoding=\"Windows-1252\"?>\n<VisualStudioProject\n\tProjectType=\"Visual C++\"\n\tVersion=\"9.00\"\n\tName=\""@,
        name,
        "\"\n\tProjectGUID=\"{"@,
        guid_text(guid),
        "}\"\n\tRootNamespace=\""@,
        "\"\n\tTargetFrameworkVersion=\"196613\"\n\t>\n\t<Platforms>\n\t\t<Platform\n\t\t\tName=\"Win32\"\n\t\t/>\n\t</Platforms>\n\t<ToolFiles>\n\t</ToolFiles>\n\t<Configurations>\n\t\t<Configuration\n\t\t\tName=\"Debug|Win32\"\n\t\t\tOutputDirectory=\"$(SolutionDir)$(ConfigurationName)\"\n\t\t\tIntermediateDirectory=\"$(ConfigurationName)\"\n\t\t\tConfigurationType=\"1\"\n\t\t\tCharacterSet=\"2\"\n\t\t\t>\n\t\t</Configuration>\n\t</Configurations>\n\t<References>\n\t</References>\n\t<Files>\n"@,
    );
}

/// The solution is named by whether it is of the base, and the engine's directory ends with
/// a separator.
pub proof fn lemma_solution_is_named(flags: GenFlags, path: Seq<char>)
    ensures
        flags.as_base ==> solution_name(flags) == "xray_structure"@,
        !flags.as_base ==> solution_name(flags) == "vostok_structure"@,
        ends_with(engine_path_of(path), "\\"@),
{
    let p = replaced(lowercase(path), "/"@, "\\"@);
    let q = p + "\\"@;
    assert(q.skip(q.len() - "\\"@.len()) =~= "\\"@);
}

} // verus!
