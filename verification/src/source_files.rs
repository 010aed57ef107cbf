//! The source files that are written for the functions of a module.

use crate::function_cache::{signature_of, FunctionCache, SignatureModel};
use crate::gen_sources::{after, after_all, put_function, put_in_file, BuilderModel, FileModel,
    Module, SourceFile, Symbol};
use crate::lcs::views;
use crate::order::{lemma_text_le_antisymmetric, lemma_text_le_total, lemma_text_le_transitive,
    text_le};
use crate::paths::{file_name, file_name_of};
use crate::pieces::{cat2, cat3, cat5};
use crate::search::{contains, ends, ends_with, equal_ignoring_ascii_case, has_part, head_of,
    replace, replaced, strip_back, tail_of, without_suffix};
use crate::source_function::{section, stub, typedef_lines, typedefs_text, Function, FunctionModel,
    GenFlags};
use crate::text::{byte_len, char_index, chars_before, chars_of, lemma_char_index, len_bytes, owned,
    same_ignoring_ascii_case, to_uppercase, uppercase};
use crate::type_builder::{Namespace, NamespaceModel};
use vstd::prelude::*;
use vstd::string::StringExecFns;

verus! {

/// Whether a module is left out: those of the user-interface library are.
pub open spec fn left_out(module_name: Seq<char>) -> bool {
    contains(module_name, "\\scaleform\\"@)
}

/// Whether a module is left out.
pub fn is_left_out(module_name: &str) -> (r: bool)
    ensures
        r == left_out(module_name@),
{
    has_part(module_name, "\\scaleform\\")
}

// ---------------------------------------------------------------------------
// Header and footer
// ---------------------------------------------------------------------------

/// The name that guards a header.
pub open spec fn guard(upper: Seq<char>) -> Seq<char> {
    upper + "_H_INCLUDED"@
}

/// What a source file begins with, behind the day it was made.
pub open spec fn opening(name: Seq<char>, upper: Seq<char>) -> Seq<char> {
    match without_suffix(name, ".cpp"@) {
        Some(m) => "#include \"pch.h\"\n#include \""@ + m + ".h\"\n\n"@,
        None => match without_suffix(name, ".h"@) {
            Some(_) => "#ifndef "@ + guard(upper) + "\n#define "@ + guard(upper) + "\n\n"@,
            None => ""@,
        },
    }
}

/// The lines on the day a file was made.
pub open spec fn made_on(day: Seq<char>) -> Seq<char> {
    "////////////////////////////////////////////////////////////////////////////\n//\tCreated \t: "@
        + day
        + "\n////////////////////////////////////////////////////////////////////////////\n\n"@
}

/// What a source file ends with.
pub open spec fn ending(name: Seq<char>, upper: Seq<char>) -> Seq<char> {
    match without_suffix(name, ".h"@) {
        Some(_) => "\n#endif // #ifndef "@ + guard(upper) + "\n"@,
        None => ""@,
    }
}

/// A header's name in capitals, without its extension; the name of any other file
/// as it is.
pub open spec fn upper_name(name: Seq<char>) -> Seq<char> {
    match without_suffix(name, ".h"@) {
        Some(m) => uppercase(m),
        None => name,
    }
}

/// A header's name in capitals, without its extension; the name of any other file
/// as it is.
pub fn upper_name_of(name: &str) -> (r: String)
    ensures
        r@ == upper_name(name@),
{
    match strip_back(name, ".h") {
        Some(m) => to_uppercase(m.as_str()),
        None => owned(name),
    }
}

/// `chrono::Local::now`, formatted as `%d.%m.%Y`: the day by the machine's clock and
/// time zone. Nothing is claimed of it.
#[verifier::external_body]
pub(crate) fn today() -> (r: String) {
    chrono::Local::now().format("%d.%m.%Y").to_string()
}

/// Writes what the file `name` begins with, for the given day; `upper` is a
/// header's name in capitals.
pub fn write_header_dated(w: &mut String, name: &str, day: &str, upper: &str)
    ensures
        final(w)@ == old(w)@ + (made_on(day@) + opening(name@, upper@)),
{
    let dated: String = cat3(
        "////////////////////////////////////////////////////////////////////////////\n//\tCreated \t: ",
        day,
        "\n////////////////////////////////////////////////////////////////////////////\n\n",
    );
    let g: String = cat2(upper, "_H_INCLUDED");
    let rest: String = match strip_back(name, ".cpp") {
        Some(m) => cat3("#include \"pch.h\"\n#include \"", m.as_str(), ".h\"\n\n"),
        None => if ends(name, ".h") {
            cat5("#ifndef ", g.as_str(), "\n#define ", g.as_str(), "\n\n")
        } else {
            owned("")
        },
    };
    w.append(cat2(dated.as_str(), rest.as_str()).as_str());
}

/// Writes what the file at `path` begins with: the day, and what it includes or
/// the guard of a header.
pub fn write_header(w: &mut String, path: &str)
    requires
        file_name(path@) is Some,
    ensures
        exists|day: Seq<char>|
            final(w)@ == old(w)@ + (#[trigger] made_on(day) + opening(
                file_name(path@)->0,
                upper_name(file_name(path@)->0),
            )),
{
    let day: String = today();
    if let Some(name) = file_name_of(path) {
        let upper: String = upper_name_of(name.as_str());
        write_header_dated(w, name.as_str(), day.as_str(), upper.as_str());
        assert(w@ == old(w)@ + (made_on(day@) + opening(name@, upper@)));
    }
}

/// Writes what the file `name` ends with; `upper` is a header's name in capitals.
pub fn write_footer_named(w: &mut String, name: &str, upper: &str)
    ensures
        final(w)@ == old(w)@ + ending(name@, upper@),
{
    let text: String = if ends(name, ".h") {
        let g: String = cat2(upper, "_H_INCLUDED");
        cat3("\n#endif // #ifndef ", g.as_str(), "\n")
    } else {
        owned("")
    };
    w.append(text.as_str());
}

/// Writes what the file at `path` ends with.
pub fn write_footer(w: &mut String, path: &str)
    requires
        file_name(path@) is Some,
    ensures
        final(w)@ == old(w)@ + ending(file_name(path@)->0, upper_name(file_name(path@)->0)),
{
    if let Some(name) = file_name_of(path) {
        let upper: String = upper_name_of(name.as_str());
        write_footer_named(w, name.as_str(), upper.as_str());
    }
}

// ---------------------------------------------------------------------------
// One file
// ---------------------------------------------------------------------------

/// The namespace of a file: the deepest of its functions, the first of these.
pub open spec fn assumed_namespace(fs: Seq<FunctionModel>, n: int) -> NamespaceModel
    decreases n,
{
    if n <= 0 {
        NamespaceModel::none()
    } else {
        let before = assumed_namespace(fs, n - 1);
        if fs[n - 1].namespace.depth() > before.depth() {
            fs[n - 1].namespace
        } else {
            before
        }
    }
}

/// No function of a file stands in a deeper namespace than the file.
pub proof fn lemma_assumed_namespace_is_deepest(fs: Seq<FunctionModel>, n: int)
    requires
        0 <= n <= fs.len(),
    ensures
        forall|i: int|
            0 <= i < n ==> (#[trigger] fs[i]).namespace.depth() <= assumed_namespace(
                fs,
                n,
            ).depth(),
        assumed_namespace(fs, n) == NamespaceModel::none() || exists|i: int|
            0 <= i < n && assumed_namespace(fs, n) == (#[trigger] fs[i]).namespace,
    decreases n,
{
    if n > 0 {
        lemma_assumed_namespace_is_deepest(fs, n - 1);
    }
}

fn assume_namespace(fs: &Vec<Function>) -> (r: Namespace)
    ensures
        r@ == assumed_namespace(views(fs@), fs@.len() as int),
{
    let mut ns: Namespace = Namespace::none();
    let mut i: usize = 0;
    while i < fs.len()
        invariant
            i <= fs@.len(),
            ns@ == assumed_namespace(views(fs@), i as int),
        decreases fs.len() - i,
    {
        assert(views(fs@)[i as int] == fs@[i as int]@);
        if fs[i].namespace.depth() > ns.depth() {
            ns = fs[i].namespace.copy();
        }
        i = i + 1;
    }
    ns
}

/// The stubs of the first `n` functions.
pub open spec fn stubs(fs: Seq<FunctionModel>, ns: NamespaceModel, n: int) -> Seq<char>
    decreases n,
{
    if n <= 0 {
        ""@
    } else {
        stubs(fs, ns, n - 1) + stub(fs[n - 1], ns)
    }
}

/// The text of a source file between its header and its footer.
#[verifier::opaque]
pub open spec fn file_body(fs: Seq<FunctionModel>, typedefs: Seq<(Seq<char>, Seq<char>)>) -> Seq<
    char,
> {
    let ns = assumed_namespace(fs, fs.len() as int);
    ns.opening() + stubs(fs, ns, fs.len() as int) + section(
        "TYPEDEFS"@,
        typedefs.len(),
        typedef_lines(typedefs, typedefs.len() as int),
    ) + ns.closing()
}

/// Whether all functions of a file can be written.
pub open spec fn all_writable(fs: Seq<FunctionModel>) -> bool {
    forall|i: int| 0 <= i < fs.len() ==> (#[trigger] fs[i]).fn_t.can_be_written()
}

fn body_of(file: &SourceFile, module: &Module) -> (r: String)
    requires
        all_writable(file@.functions),
    ensures
        r@ == file_body(file@.functions, module@.typedefs),
{
    reveal(file_body);
    let ns: Namespace = assume_namespace(&file.functions);
    let ghost fs = file@.functions;
    let mut text: String = String::new();
    ns.start_namespace(&mut text);
    assert(text@ =~= ns@.opening());
    let mut all: String = owned("");
    let mut i: usize = 0;
    while i < file.functions.len()
        invariant
            fs == views(file.functions@),
            all_writable(fs),
            i <= file.functions@.len(),
            all@ == stubs(fs, ns@, i as int),
        decreases file.functions.len() - i,
    {
        assert(fs[i as int] == file.functions@[i as int]@);
        file.functions[i].write(&ns, &mut all);
        i = i + 1;
    }
    text.append(all.as_str());
    text.append(typedefs_text(&module.typedefs).as_str());
    ns.end_namespace(&mut text);
    text
}

/// Where the part of a path behind the engine's directory begins.
pub open spec fn engine_end(file: Seq<char>, engine_path: Seq<char>) -> Option<int> {
    char_index(file, byte_len(engine_path) as int)
}

/// Whether a file lies in the engine's directory, in any letter case.
pub open spec fn in_engine(file: Seq<char>, engine_path: Seq<char>) -> bool {
    byte_len(file) >= byte_len(engine_path) && same_ignoring_ascii_case(
        file.take(engine_end(file, engine_path)->0),
        engine_path,
    )
}

/// The path of a file behind the engine's directory.
pub open spec fn path_in_engine(file: Seq<char>, engine_path: Seq<char>) -> Seq<char> {
    file.skip(engine_end(file, engine_path)->0)
}

/// How many `/` stand at the beginning.
pub open spec fn leading_slashes(s: Seq<char>) -> nat
    decreases s.len(),
{
    if s.len() > 0 && s[0] == '/' {
        1 + leading_slashes(s.skip(1))
    } else {
        0
    }
}

/// A recorded path as a path below a directory: with `/` between its parts and
/// none before them.
pub open spec fn relative(path: Seq<char>) -> Seq<char> {
    let s = replaced(path, "\\"@, "/"@);
    s.skip(leading_slashes(s) as int)
}

/// The extension before which a number is put where the file is there already.
pub open spec fn kept_extension(path: Seq<char>) -> Seq<char> {
    if ends_with(path, ".h"@) {
        ".h"@
    } else if ends_with(path, ".cpp"@) {
        ".cpp"@
    } else {
        ""@
    }
}

/// A source file that is to be written.
pub struct SourceOutput {
    pub path: String,
    pub extension: String,
    pub relative: String,
    pub text: String,
}

/// Whether `o` is what is to be written for a file.
#[verifier::opaque]
pub open spec fn is_output(
    o: SourceOutput,
    file: FileModel,
    typedefs: Seq<(Seq<char>, Seq<char>)>,
    engine_path: Seq<char>,
    day: Seq<char>,
) -> bool {
    let path = path_in_engine(file.name, engine_path);
    let name = file_name(path)->0;
    &&& o.path@ == path
    &&& o.extension@ == kept_extension(path)
    &&& o.relative@ == relative(path)
    &&& o.text@ == (made_on(day) + opening(name, upper_name(name))) + file_body(
        file.functions,
        typedefs,
    ) + ending(name, upper_name(name))
}

/// The files of a module that lie in the engine's directory, among the first `n`.
pub open spec fn engine_files(files: Seq<FileModel>, engine_path: Seq<char>, n: int) -> Seq<
    FileModel,
>
    decreases n,
{
    if n <= 0 {
        Seq::empty()
    } else if in_engine(files[n - 1].name, engine_path) {
        engine_files(files, engine_path, n - 1).push(files[n - 1])
    } else {
        engine_files(files, engine_path, n - 1)
    }
}

/// Whether a file can be written: its path can be cut, leads to a file where it is
/// the engine's, and its functions can be written.
pub open spec fn is_writable_file(file: FileModel, engine_path: Seq<char>) -> bool {
    &&& byte_len(file.name) >= byte_len(engine_path) ==> engine_end(
        file.name,
        engine_path,
    ) is Some
    &&& in_engine(file.name, engine_path) ==> file_name(
        path_in_engine(file.name, engine_path),
    ) is Some && all_writable(file.functions)
}

fn relative_of(path: &str) -> (r: String)
    ensures
        r@ == relative(path@),
{
    let s: String = replace(path, "\\", "/");
    let v: Vec<char> = chars_of(s.as_str());
    let mut n: usize = 0;
    assert(s@.skip(0) =~= s@);
    while n < v.len() && v[n] == '/'
        invariant
            v@ == s@,
            n <= v@.len(),
            leading_slashes(s@) == n + leading_slashes(s@.skip(n as int)),
        decreases v.len() - n,
    {
        assert(s@.skip(n as int).skip(1) =~= s@.skip(n + 1));
        n = n + 1;
    }
    tail_of(&v, n)
}

/// The path of a file behind the engine's directory, if it lies there.
fn engine_path_of(file: &str, engine_path: &str) -> (r: Option<String>)
    requires
        byte_len(file@) >= byte_len(engine_path@) ==> engine_end(file@, engine_path@) is Some,
    ensures
        match r {
            Some(p) => in_engine(file@, engine_path@) && p@ == path_in_engine(file@, engine_path@),
            None => !in_engine(file@, engine_path@),
        },
{
    let n: usize = len_bytes(engine_path);
    if len_bytes(file) < n {
        return None;
    }
    let v: Vec<char> = chars_of(file);
    match chars_before(&v, n) {
        Some(k) => {
            proof {
                lemma_char_index(file@, n as int);
            }
            if equal_ignoring_ascii_case(head_of(&v, k).as_str(), engine_path) {
                Some(tail_of(&v, k))
            } else {
                None
            }
        },
        None => None,
    }
}

fn make_output(file: &SourceFile, module: &Module, path: String, engine_path: &str, day: &str) -> (r:
    SourceOutput)
    requires
        path@ == path_in_engine(file@.name, engine_path@),
        file_name(path@) is Some,
        all_writable(file@.functions),
    ensures
        is_output(r, file@, module@.typedefs, engine_path@, day@),
{
    reveal(is_output);
    let name: String = match file_name_of(path.as_str()) {
        Some(n) => n,
        None => owned(""),
    };
    let upper: String = upper_name_of(name.as_str());
    let mut heading: String = String::new();
    write_header_dated(&mut heading, name.as_str(), day, upper.as_str());
    assert(heading@ =~= made_on(day@) + opening(name@, upper@));
    let mut footer: String = String::new();
    write_footer_named(&mut footer, name.as_str(), upper.as_str());
    assert(footer@ =~= ending(name@, upper@));
    let body: String = body_of(file, module);
    let text: String = cat3(heading.as_str(), body.as_str(), footer.as_str());
    let extension: String = if ends(path.as_str(), ".h") {
        owned(".h")
    } else if ends(path.as_str(), ".cpp") {
        owned(".cpp")
    } else {
        owned("")
    };
    let rel: String = relative_of(path.as_str());
    SourceOutput { path, extension, relative: rel, text }
}

impl Module {
    /// The source files that are to be written for the module on the given day:
    /// those in the engine's directory, in the order of their names.
    pub fn outputs(&self, engine_path: &str, day: &str) -> (r: Vec<SourceOutput>)
        requires
            forall|i: int|
                0 <= i < self@.files.len() ==> is_writable_file(
                    #[trigger] self@.files[i],
                    engine_path@,
                ),
        ensures
            ({
                let files = engine_files(self@.files, engine_path@, self@.files.len() as int);
                &&& r@.len() == files.len()
                &&& forall|i: int|
                    0 <= i < r@.len() ==> is_output(
                        #[trigger] r@[i],
                        files[i],
                        self@.typedefs,
                        engine_path@,
                        day@,
                    )
            }),
    {
        let mut out: Vec<SourceOutput> = Vec::new();
        let mut i: usize = 0;
        let ghost files = self@.files;
        while i < self.files.len()
            invariant
                files == views(self.files@),
                files == self@.files,
                i <= self.files@.len(),
                forall|k: int|
                    0 <= k < files.len() ==> is_writable_file(#[trigger] files[k], engine_path@),
                out@.len() == engine_files(files, engine_path@, i as int).len(),
                forall|k: int|
                    0 <= k < out@.len() ==> is_output(
                        #[trigger] out@[k],
                        engine_files(files, engine_path@, i as int)[k],
                        self@.typedefs,
                        engine_path@,
                        day@,
                    ),
            decreases self.files.len() - i,
        {
            let file: &SourceFile = &self.files[i];
            assert(files[i as int] == file@);
            match engine_path_of(file.name.as_str(), engine_path) {
                Some(path) => {
                    out.push(make_output(file, self, path, engine_path, day));
                },
                None => {},
            }
            i = i + 1;
        }
        out
    }

    /// Whether `outputs` can be asked for the engine's directory.
    pub fn can_output(&self, engine_path: &str) -> (r: bool)
        ensures
            r == forall|i: int|
                0 <= i < self@.files.len() ==> is_writable_file(
                    #[trigger] self@.files[i],
                    engine_path@,
                ),
    {
        let mut i: usize = 0;
        let ghost files = self@.files;
        while i < self.files.len()
            invariant
                files == views(self.files@),
                files == self@.files,
                i <= self.files@.len(),
                forall|k: int| 0 <= k < i ==> is_writable_file(#[trigger] files[k], engine_path@),
            decreases self.files.len() - i,
        {
            assert(files[i as int] == self.files@[i as int]@);
            if !can_write_file(&self.files[i], engine_path) {
                assert(!is_writable_file(files[i as int], engine_path@));
                return false;
            }
            i = i + 1;
        }
        true
    }
}

fn can_write_functions(file: &SourceFile) -> (r: bool)
    ensures
        r == all_writable(file@.functions),
{
    let ghost fs = file@.functions;
    let mut k: usize = 0;
    while k < file.functions.len()
        invariant
            fs == views(file.functions@),
            k <= file.functions@.len(),
            forall|j: int| 0 <= j < k ==> (#[trigger] fs[j]).fn_t.can_be_written(),
        decreases file.functions.len() - k,
    {
        assert(fs[k as int] == file.functions@[k as int]@);
        if !file.functions[k].fn_t.is_writable() {
            assert(!fs[k as int].fn_t.can_be_written());
            return false;
        }
        k = k + 1;
    }
    true
}

fn can_write_file(file: &SourceFile, engine_path: &str) -> (r: bool)
    ensures
        r == is_writable_file(file@, engine_path@),
{
    let n: usize = len_bytes(engine_path);
    if len_bytes(file.name.as_str()) >= n {
        let v: Vec<char> = chars_of(file.name.as_str());
        if chars_before(&v, n).is_none() {
            return false;
        }
    }
    match engine_path_of(file.name.as_str(), engine_path) {
        Some(path) => {
            if file_name_of(path.as_str()).is_none() {
                return false;
            }
            can_write_functions(file)
        },
        None => true,
    }
}

// ---------------------------------------------------------------------------
// The cache of signatures
// ---------------------------------------------------------------------------

/// Signatures with those of the first `n` functions recorded over them.
pub open spec fn recorded(
    cache: Map<Seq<char>, SignatureModel>,
    fs: Seq<FunctionModel>,
    n: int,
) -> Map<Seq<char>, SignatureModel>
    decreases n,
{
    if n <= 0 {
        cache
    } else {
        recorded(cache, fs, n - 1).insert(fs[n - 1].name_orig, signature_of(fs[n - 1]))
    }
}

/// Signatures with those of the functions in the first `n` files recorded over them.
pub open spec fn recorded_files(
    cache: Map<Seq<char>, SignatureModel>,
    files: Seq<FileModel>,
    n: int,
) -> Map<Seq<char>, SignatureModel>
    decreases n,
{
    if n <= 0 {
        cache
    } else {
        recorded(
            recorded_files(cache, files, n - 1),
            files[n - 1].functions,
            files[n - 1].functions.len() as int,
        )
    }
}

impl Module {
    /// Records the signatures of the module's functions, unless no cache is kept.
    pub fn update_cache(&self, cache: &mut FunctionCache, flags: GenFlags)
        ensures
            final(cache)@ == if flags.no_cache {
                old(cache)@
            } else {
                recorded_files(old(cache)@, self@.files, self@.files.len() as int)
            },
    {
        if flags.no_cache {
            return ;
        }
        let ghost first = cache@;
        let ghost files = self@.files;
        let mut i: usize = 0;
        while i < self.files.len()
            invariant
                files == views(self.files@),
                i <= self.files@.len(),
                cache@ == recorded_files(first, files, i as int),
            decreases self.files.len() - i,
        {
            let file: &SourceFile = &self.files[i];
            assert(files[i as int] == file@);
            let ghost before = cache@;
            let ghost fs = file@.functions;
            let mut k: usize = 0;
            while k < file.functions.len()
                invariant
                    fs == views(file.functions@),
                    k <= file.functions@.len(),
                    cache@ == recorded(before, fs, k as int),
                decreases file.functions.len() - k,
            {
                assert(fs[k as int] == file.functions@[k as int]@);
                cache.insert_from_source(&file.functions[k]);
                k = k + 1;
            }
            i = i + 1;
        }
    }
}

// ---------------------------------------------------------------------------
// What holds of every module
// ---------------------------------------------------------------------------

/// Functions in the order of their first lines, no two on one line.
pub open spec fn functions_in_order(fs: Seq<FunctionModel>) -> bool {
    forall|i: int, j: int|
        0 <= i < j < fs.len() ==> (#[trigger] fs[i]).proc_start < (#[trigger] fs[j]).proc_start
}

/// Files in the order of their names, no two of one name, each with functions in
/// order.
pub open spec fn files_in_order(files: Seq<FileModel>) -> bool {
    &&& forall|i: int, j: int|
        0 <= i < j < files.len() ==> text_le((#[trigger] files[i]).name, (#[trigger] files[j]).name)
            && files[i].name != files[j].name
    &&& forall|i: int|
        0 <= i < files.len() ==> functions_in_order((#[trigger] files[i]).functions)
}

proof fn lemma_put_function_in_order(s: Seq<FunctionModel>, f: FunctionModel)
    requires
        functions_in_order(s),
    ensures
        functions_in_order(put_function(s, f)),
        put_function(s, f).len() > 0,
        put_function(s, f).last().proc_start == if s.len() > 0 && s.last().proc_start
            > f.proc_start {
            s.last().proc_start
        } else {
            f.proc_start
        },
    decreases s.len(),
{
    if s.len() > 0 {
        let init = s.drop_last();
        assert forall|i: int, j: int| 0 <= i < j < init.len() implies (
        #[trigger] init[i]).proc_start < (#[trigger] init[j]).proc_start by {
            assert(s[i].proc_start < s[j].proc_start);
        }
        if s.last().proc_start > f.proc_start {
            lemma_put_function_in_order(init, f);
            let q = put_function(init, f);
            let r = q.push(s.last());
            assert(init.len() > 0 ==> s[init.len() - 1].proc_start < s[s.len() - 1].proc_start);
            assert forall|i: int, j: int| 0 <= i < j < r.len() implies (#[trigger] r[i]).proc_start
                < (#[trigger] r[j]).proc_start by {
                if j == q.len() {
                    if i < q.len() - 1 {
                        assert(q[i].proc_start < q[q.len() - 1].proc_start);
                    }
                } else {
                    assert(q[i].proc_start < q[j].proc_start);
                }
            }
        } else {
            let r = put_function(s, f);
            assert forall|i: int, j: int| 0 <= i < j < r.len() implies (#[trigger] r[i]).proc_start
                < (#[trigger] r[j]).proc_start by {
                if j < s.len() - 1 || (j == s.len() - 1 && s.last().proc_start != f.proc_start) {
                    assert(s[i].proc_start < s[j].proc_start);
                } else if i < s.len() - 1 {
                    assert(s[i].proc_start < s[s.len() - 1].proc_start);
                }
            }
        }
    }
}

proof fn lemma_put_in_file_in_order(s: Seq<FileModel>, name: Seq<char>, f: FunctionModel)
    requires
        files_in_order(s),
    ensures
        files_in_order(put_in_file(s, name, f)),
        put_in_file(s, name, f).len() > 0,
        put_in_file(s, name, f).last().name == if s.len() > 0 && s.last().name != name && !text_le(
            s.last().name,
            name,
        ) {
            s.last().name
        } else {
            name
        },
    decreases s.len(),
{
    let empty = Seq::<FunctionModel>::empty();
    lemma_put_function_in_order(empty, f);
    let r = put_in_file(s, name, f);
    if s.len() == 0 {
        assert(r[0].functions == put_function(empty, f));
    } else {
        let init = s.drop_last();
        assert(files_in_order(init)) by {
            assert forall|i: int, j: int| 0 <= i < j < init.len() implies text_le(
                (#[trigger] init[i]).name,
                (#[trigger] init[j]).name,
            ) && init[i].name != init[j].name by {
                assert(text_le(s[i].name, s[j].name) && s[i].name != s[j].name);
            }
            assert forall|i: int| 0 <= i < init.len() implies functions_in_order(
                (#[trigger] init[i]).functions,
            ) by {
                assert(init[i] == s[i]);
            }
        }
        let last = s.last();
        assert(functions_in_order(s[s.len() - 1].functions));
        lemma_put_function_in_order(last.functions, f);
        if last.name == name {
            assert forall|i: int, j: int| 0 <= i < j < r.len() implies text_le(
                (#[trigger] r[i]).name,
                (#[trigger] r[j]).name,
            ) && r[i].name != r[j].name by {
                assert(text_le(s[i].name, s[j].name) && s[i].name != s[j].name);
            }
            assert forall|i: int| 0 <= i < r.len() implies functions_in_order(
                (#[trigger] r[i]).functions,
            ) by {
                if i < init.len() {
                    assert(r[i] == s[i]);
                }
            }
        } else if text_le(last.name, name) {
            assert forall|i: int, j: int| 0 <= i < j < r.len() implies text_le(
                (#[trigger] r[i]).name,
                (#[trigger] r[j]).name,
            ) && r[i].name != r[j].name by {
                if j < s.len() {
                    assert(text_le(s[i].name, s[j].name) && s[i].name != s[j].name);
                } else if i < s.len() - 1 {
                    assert(text_le(s[i].name, s[s.len() - 1].name) && s[i].name != s[s.len()
                        - 1].name);
                    lemma_text_le_transitive(s[i].name, last.name, name);
                    if s[i].name == name {
                        lemma_text_le_antisymmetric(last.name, name);
                    }
                }
            }
            assert forall|i: int| 0 <= i < r.len() implies functions_in_order(
                (#[trigger] r[i]).functions,
            ) by {
                if i < s.len() {
                    assert(r[i] == s[i]);
                }
            }
        } else {
            lemma_put_in_file_in_order(init, name, f);
            let q = put_in_file(init, name, f);
            lemma_text_le_total(last.name, name);
            assert(init.len() > 0 ==> text_le(s[init.len() - 1].name, s[s.len() - 1].name)
                && s[init.len() - 1].name != s[s.len() - 1].name);
            assert forall|i: int, j: int| 0 <= i < j < r.len() implies text_le(
                (#[trigger] r[i]).name,
                (#[trigger] r[j]).name,
            ) && r[i].name != r[j].name by {
                if j < q.len() {
                    assert(text_le(q[i].name, q[j].name) && q[i].name != q[j].name);
                } else {
                    let m = q[q.len() - 1].name;
                    assert(text_le(m, last.name) && m != last.name);
                    if i < q.len() - 1 {
                        assert(text_le(q[i].name, q[q.len() - 1].name));
                        lemma_text_le_transitive(q[i].name, m, last.name);
                        if q[i].name == last.name {
                            lemma_text_le_antisymmetric(m, last.name);
                        }
                    }
                }
            }
            assert forall|i: int| 0 <= i < r.len() implies functions_in_order(
                (#[trigger] r[i]).functions,
            ) by {
                if i < q.len() {
                    assert(r[i] == q[i]);
                } else {
                    assert(r[i] == s[s.len() - 1]);
                }
            }
        }
    }
}

/// Whatever the symbols of a module are, its files come in the order of their
/// names and the functions of each in the order of their first lines, none twice.
pub proof fn lemma_modules_are_in_order(
    module_id: usize,
    flags: GenFlags,
    symbols: Seq<Symbol>,
    n: int,
)
    ensures
        after_all(module_id, flags, symbols, n) matches Ok(s) ==> files_in_order(s.module.files),
    decreases n,
{
    if n > 0 {
        lemma_modules_are_in_order(module_id, flags, symbols, n - 1);
        if let Ok(s) = after_all(module_id, flags, symbols, n - 1) {
            lemma_step_keeps_order(s, symbols[n - 1]);
        }
    }
}

proof fn lemma_step_keeps_order(s: BuilderModel, symbol: Symbol)
    requires
        files_in_order(s.module.files),
    ensures
        after(s, symbol) matches Ok(r) ==> files_in_order(r.module.files),
{
    reveal(after);
    lemma_put_in_file_in_order(
        s.module.files,
        s.filename,
        crate::gen_sources::ended_function(s.function),
    );
}

} // verus!
