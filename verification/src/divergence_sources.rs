//! How the functions of the source files are taken from a build, and by which keys those
//! of two builds are joined.

use crate::divergence_extract::{clean_type, is_skipped, skipped, variant_to_i64, Config};
use crate::divergence_model::{entry, find_name, lemma_place, lemma_with_entry, names_differ,
    put_entry, with_entry, ConstModel, ConstShape, FileModel, FnModel, FnShape, PresenceFn,
    PresenceShape, SideModel, SideShape};
use crate::dyninit::{can_canonicalize, canonicalize_static_init_thunk, demanglable, demangled_name,
    thunk_kind, thunk_name, thunk_query};
use crate::gen_sources::Symbol;
use crate::header_model::Variant;
use crate::lcs::views;
use crate::order::{rank_of, sort_stable, sorted_by};
use crate::paths::FunctionLocation;
use crate::pieces::{cat3, cat4};
use crate::search::{find, head_of, index_of, lemma_index_of, matches_at, opt_text, replace,
    replaced, starts_with, strip_back, strip_front, tail_of, without_prefix, without_suffix};
use crate::text::{chars_of, lowercase, owned, texts, to_lowercase};
use crate::topology_text::indexes_cleaned;
use vstd::prelude::*;

verus! {

// ---------------------------------------------------------------------------
// Keys
// ---------------------------------------------------------------------------

/// What a function without arguments and result is called, out of its signature.
pub open spec fn inner_name(name_orig: Seq<char>) -> Option<Seq<char>> {
    match without_prefix(name_orig, "void "@) {
        Some(s) => without_suffix(s, "()"@),
        None => None,
    }
}

/// The object that a written-out name of an initializer or destructor is for.
pub open spec fn object_of(s: Seq<char>, kind: Seq<char>) -> Option<Seq<char>> {
    match without_prefix(s, "`"@ + kind + " '"@) {
        Some(rest) => without_suffix(rest, "''"@),
        None => None,
    }
}

/// The kind of a function that initializes or destroys a static object, and the object,
/// out of the function's written-out name.
pub open spec fn kind_and_object(s: Seq<char>) -> Option<(Seq<char>, Seq<char>)> {
    let i = "dynamic initializer for"@;
    let d = "dynamic atexit destructor for"@;
    if without_prefix(s, "`"@ + i + " '"@) is Some {
        match object_of(s, i) {
            Some(v) => Some((i, v)),
            None => None,
        }
    } else {
        match object_of(s, d) {
            Some(v) => Some((d, v)),
            None => None,
        }
    }
}

/// What stands before the first backquote.
pub open spec fn before_quote(s: Seq<char>) -> Seq<char> {
    match index_of(s, "`"@, 0) {
        Some(p) => s.take(p),
        None => ""@,
    }
}

/// What stands from the first backquote on.
pub open spec fn from_quote(s: Seq<char>) -> Seq<char> {
    match index_of(s, "`"@, 0) {
        Some(p) => s.skip(p),
        None => s,
    }
}

/// The key of a function that initializes or destroys a static object: its kind and the
/// full name of the object. `written` is the function's written-out name, where it was
/// decorated.
pub open spec fn thunk_key(name_orig: Seq<char>, written: Option<Seq<char>>) -> Option<Seq<char>> {
    match inner_name(name_orig) {
        None => None,
        Some(inner) => match written {
            Some(w) => match kind_and_object(w) {
                Some((kind, object)) => Some(kind + "|"@ + object),
                None => None,
            },
            None => match kind_and_object(from_quote(inner)) {
                Some((kind, object)) => Some(kind + "|"@ + before_quote(inner) + object),
                None => None,
            },
        },
    }
}

/// The written-out name of the function that a signature holds, where it was decorated.
pub open spec fn written_name(name_orig: Seq<char>) -> Option<Seq<char>> {
    match inner_name(name_orig) {
        Some(inner) => thunk_name(inner, demangled_name(thunk_query(inner))),
        None => None,
    }
}

/// The key by which a function is joined, given its decorated name and the written-out
/// name of the function that its signature holds.
pub open spec fn join_key(
    mangled: Option<Seq<char>>,
    name_orig: Seq<char>,
    written: Option<Seq<char>>,
) -> Seq<char> {
    match mangled {
        Some(m) => m,
        None => match thunk_key(name_orig, written) {
            Some(k) => k,
            None => name_orig,
        },
    }
}

/// Whether the key of a function can be made.
pub open spec fn can_be_joined(mangled: Option<Seq<char>>, name_orig: Seq<char>) -> bool {
    mangled is Some || match inner_name(name_orig) {
        Some(inner) => thunk_kind(inner) is Some ==> demanglable(thunk_query(inner)),
        None => true,
    }
}

/// Some text, as a model.
pub open spec fn opt_str(s: Option<&str>) -> Option<Seq<char>> {
    match s {
        Some(s) => Some(s@),
        None => None,
    }
}

fn inner_of(name_orig: &str) -> (r: Option<String>)
    ensures
        opt_text(r) == inner_name(name_orig@),
{
    match strip_front(name_orig, "void ") {
        Some(s) => strip_back(s.as_str(), "()"),
        None => None,
    }
}

/// The kind and the object, out of a written-out name.
pub fn split_thunk_kind_var(s: &str) -> (r: Option<(&'static str, String)>)
    ensures
        match r {
            Some((k, v)) => kind_and_object(s@) == Some((k@, v@)),
            None => kind_and_object(s@) is None,
        },
{
    let i: &'static str = "dynamic initializer for";
    let d: &'static str = "dynamic atexit destructor for";
    match strip_front(s, cat3("`", i, " '").as_str()) {
        Some(rest) => match strip_back(rest.as_str(), "''") {
            Some(v) => Some((i, v)),
            None => None,
        },
        None => match strip_front(s, cat3("`", d, " '").as_str()) {
            Some(rest) => match strip_back(rest.as_str(), "''") {
                Some(v) => Some((d, v)),
                None => None,
            },
            None => None,
        },
    }
}

/// The key of a function that initializes or destroys a static object, given its
/// written-out name, where it was decorated.
pub fn thunk_key_of(name_orig: &str, written: Option<&str>) -> (r: Option<String>)
    ensures
        opt_text(r) == thunk_key(name_orig@, opt_str(written)),
{
    let inner: String = match inner_of(name_orig) {
        Some(s) => s,
        None => {
            return None;
        },
    };
    match written {
        Some(w) => match split_thunk_kind_var(w) {
            Some((kind, object)) => Some(cat3(kind, "|", object.as_str())),
            None => None,
        },
        None => {
            let v: Vec<char> = chars_of(inner.as_str());
            proof {
                lemma_index_of(inner@, "`"@, 0);
            }
            let (prefix, tail): (String, String) = match find(inner.as_str(), "`") {
                Some(p) => (head_of(&v, p), tail_of(&v, p)),
                None => (owned(""), owned(inner.as_str())),
            };
            match split_thunk_kind_var(tail.as_str()) {
                Some((kind, object)) => Some(cat4(kind, "|", prefix.as_str(), object.as_str())),
                None => None,
            }
        },
    }
}

/// The key by which a function is joined, given the written-out name of the function that
/// its signature holds.
pub fn join_key_written(mangled: Option<&str>, name_orig: &str, written: Option<&str>) -> (r: String)
    ensures
        r@ == join_key(opt_str(mangled), name_orig@, opt_str(written)),
{
    match mangled {
        Some(m) => owned(m),
        None => match thunk_key_of(name_orig, written) {
            Some(k) => k,
            None => owned(name_orig),
        },
    }
}

/// The key by which a function of one build is joined with one of another: its decorated
/// name, which is the same in both, or for a function that initializes or destroys a
/// static object, however it is written, its kind and the object's full name; else its
/// signature.
pub fn function_join_key(mangled: Option<&str>, name_orig: &str) -> (r: String)
    requires
        can_be_joined(opt_str(mangled), name_orig@),
    ensures
        r@ == join_key(opt_str(mangled), name_orig@, written_name(name_orig@)),
{
    match mangled {
        Some(m) => owned(m),
        None => {
            let inner: String = match inner_of(name_orig) {
                Some(s) => s,
                None => {
                    return join_key_written(None, name_orig, None);
                },
            };
            match canonicalize_static_init_thunk(inner.as_str()) {
                Some(w) => join_key_written(None, name_orig, Some(w.as_str())),
                None => join_key_written(None, name_orig, None),
            }
        },
    }
}

/// Whether the key of a function can be made.
pub fn can_join(mangled: Option<&str>, name_orig: &str) -> (r: bool)
    ensures
        r == can_be_joined(opt_str(mangled), name_orig@),
{
    match mangled {
        Some(_) => true,
        None => match inner_of(name_orig) {
            Some(inner) => can_canonicalize(inner.as_str()),
            None => true,
        },
    }
}

/// The words for an initializer or a destructor of a static object.
pub open spec fn kind_words(initializes: bool) -> Seq<char> {
    if initializes {
        "dynamic initializer for"@
    } else {
        "dynamic atexit destructor for"@
    }
}

/// The written-out name of an initializer or a destructor.
pub open spec fn in_words(initializes: bool, object: Seq<char>) -> Seq<char> {
    "`"@ + kind_words(initializes) + " '"@ + object + "''"@
}

/// The signature of a function without arguments and result.
pub open spec fn plain_signature(name: Seq<char>) -> Seq<char> {
    "void "@ + name + "()"@
}

/// An initializer or destructor of a static object has one key, whether its name is
/// decorated, or written out with the scope before the quotes or within them.
pub proof fn lemma_thunk_has_one_key(
    scope: Seq<char>,
    leaf: Seq<char>,
    initializes: bool,
    decorated: Seq<char>,
)
    requires
        forall|i: int| 0 <= i < scope.len() ==> scope[i] != '`',
        !starts_with(scope, "??__"@),
        thunk_name(decorated, demangled_name(thunk_query(decorated))) == Some(
            in_words(initializes, scope + leaf),
        ),
    ensures
        ({
            let key = kind_words(initializes) + "|"@ + (scope + leaf);
            let a = plain_signature(decorated);
            let b = plain_signature(scope + in_words(initializes, leaf));
            let c = plain_signature(in_words(initializes, scope + leaf));
            &&& join_key(None, a, written_name(a)) == key
            &&& join_key(None, b, written_name(b)) == key
            &&& join_key(None, c, written_name(c)) == key
        }),
{
    let key = kind_words(initializes) + "|"@ + (scope + leaf);
    lemma_wrapped(decorated);
    lemma_written(scope + leaf, initializes);
    lemma_outside(scope, leaf, initializes);
    let none = ""@;
    reveal_strlit("");
    reveal_strlit("??__");
    lemma_outside(none, scope + leaf, initializes);
    assert(none + in_words(initializes, scope + leaf) =~= in_words(initializes, scope + leaf));
    assert(none + (scope + leaf) =~= scope + leaf);
}

proof fn lemma_outside(scope: Seq<char>, leaf: Seq<char>, initializes: bool)
    requires
        forall|i: int| 0 <= i < scope.len() ==> scope[i] != '`',
        !starts_with(scope, "??__"@),
    ensures
        ({
            let b = plain_signature(scope + in_words(initializes, leaf));
            &&& written_name(b) is None
            &&& thunk_key(b, None) == Some(kind_words(initializes) + "|"@ + (scope + leaf))
        }),
{
    let quoted = in_words(initializes, leaf);
    let kind = kind_words(initializes);
    let s = scope + quoted;
    lemma_wrapped(s);
    lemma_written(leaf, initializes);
    lemma_quote_first(initializes, leaf);
    lemma_not_decorated(scope, quoted);
    lemma_first_quote(scope, quoted);
    assert(written_name(plain_signature(s)) is None);
    assert(thunk_key(plain_signature(s), None) == Some(kind + "|"@ + scope + leaf));
    assert(kind + "|"@ + scope + leaf =~= kind + "|"@ + (scope + leaf));
}

proof fn lemma_quote_first(initializes: bool, object: Seq<char>)
    ensures
        in_words(initializes, object).len() > 0,
        in_words(initializes, object)[0] == '`',
{
    reveal_strlit("`");
}

/// The first backquote stands behind a scope without one.
proof fn lemma_first_quote(scope: Seq<char>, quoted: Seq<char>)
    requires
        forall|i: int| 0 <= i < scope.len() ==> scope[i] != '`',
        quoted.len() > 0,
        quoted[0] == '`',
    ensures
        before_quote(scope + quoted) == scope,
        from_quote(scope + quoted) == quoted,
{
    let s = scope + quoted;
    let n = scope.len() as int;
    reveal_strlit("`");
    assert(s[n] == '`');
    lemma_index_of(s, "`"@, 0);
    assert(s.subrange(n, n + 1) =~= "`"@);
    assert(matches_at(s, "`"@, n));
    assert forall|i: int| 0 <= i < n implies !matches_at(s, "`"@, i) by {
        assert(s.subrange(i, i + 1)[0] == scope[i]);
    }
    assert(index_of(s, "`"@, 0) == Some(n));
    assert(s.take(n) =~= scope);
    assert(s.skip(n) =~= quoted);
}

/// What begins with a scope and a backquote is not decorated.
proof fn lemma_not_decorated(scope: Seq<char>, quoted: Seq<char>)
    requires
        !starts_with(scope, "??__"@),
        quoted.len() > 0,
        quoted[0] == '`',
    ensures
        thunk_kind(scope + quoted) is None,
{
    let s = scope + quoted;
    let n = scope.len() as int;
    reveal_strlit("??__");
    reveal_strlit("??__E");
    reveal_strlit("??__F");
    if starts_with(s, "??__E"@) || starts_with(s, "??__F"@) {
        assert(s.take(5)[0] == '?' && s.take(5)[1] == '?' && s.take(5)[2] == '_' && s.take(5)[3]
            == '_');
        if n >= 4 {
            assert(scope.take(4) =~= "??__"@);
        } else {
            assert(s.take(5)[n] == '`');
        }
    }
}

/// The kind and the object are read back from a written-out name.
proof fn lemma_written(object: Seq<char>, initializes: bool)
    ensures
        kind_and_object(in_words(initializes, object)) == Some((kind_words(initializes), object)),
{
    let kind = kind_words(initializes);
    let i = "dynamic initializer for"@;
    let s = in_words(initializes, object);
    let head = "`"@ + kind + " '"@;
    assert(s.take(head.len() as int) =~= head);
    let rest = s.skip(head.len() as int);
    assert(rest =~= object + "''"@);
    assert(rest.skip(rest.len() - "''"@.len()) =~= "''"@);
    assert(rest.take(rest.len() - "''"@.len()) =~= object);
    if !initializes {
        reveal_strlit("`");
        reveal_strlit("dynamic initializer for");
        reveal_strlit("dynamic atexit destructor for");
        let other = "`"@ + i + " '"@;
        if starts_with(s, other) {
            assert(s.take(other.len() as int)[9] == other[9]);
            assert(other[9] == i[8]);
            assert(s[9] == kind[8]);
        }
    }
}

/// The name is read back from a signature without arguments and result.
proof fn lemma_wrapped(s: Seq<char>)
    ensures
        inner_name(plain_signature(s)) == Some(s),
{
    let w = plain_signature(s);
    assert(w.take("void "@.len() as int) =~= "void "@);
    let rest = w.skip("void "@.len() as int);
    assert(rest =~= s + "()"@);
    assert(rest.skip(rest.len() - "()"@.len()) =~= "()"@);
    assert(rest.take(rest.len() - "()"@.len()) =~= s);
}

// ---------------------------------------------------------------------------
// Functions
// ---------------------------------------------------------------------------

/// A public symbol of a function.
pub struct PublicSymbol {
    pub rva: u32,
    pub name: String,
}

/// The first symbol at an address, from `i` on.
pub open spec fn public_from(v: Seq<PublicSymbol>, rva: u32, i: int) -> Option<Seq<char>>
    decreases v.len() - i,
{
    if i < 0 || i >= v.len() {
        None
    } else if v[i].rva == rva {
        Some(v[i].name@)
    } else {
        public_from(v, rva, i + 1)
    }
}

/// The first symbol at an address.
pub fn find_public(v: &Vec<PublicSymbol>, rva: u32) -> (r: Option<&str>)
    ensures
        opt_str(r) == public_from(v@, rva, 0),
{
    let mut i: usize = 0;
    while i < v.len()
        invariant
            i <= v@.len(),
            public_from(v@, rva, 0) == public_from(v@, rva, i as int),
        decreases v.len() - i,
    {
        if v[i].rva == rva {
            return Some(v[i].name.as_str());
        }
        i = i + 1;
    }
    None
}

/// A function with a body of its own.
pub struct SourceFn {
    pub filename: String,
    pub name_orig: String,
    pub rva: u32,
    pub reliable: bool,
    pub proc_start: u32,
    pub module_id: usize,
    pub symbol_order: usize,
    pub statements: usize,
    pub constants: Vec<(String, String, Variant)>,
}

/// The place, among the symbols of a module, of the first procedure at an address, from place
/// `i` on; 0 where there is none.
pub open spec fn procedure_place(symbols: Seq<Symbol>, rva: u32, i: int) -> int
    decreases symbols.len() - i,
{
    if i < 0 || i >= symbols.len() {
        0
    } else if symbols[i] matches Symbol::Procedure(p) && p.rva == Some(rva) {
        i
    } else {
        procedure_place(symbols, rva, i + 1)
    }
}

/// The place of the first procedure at an address among the symbols of its module.
pub fn symbol_order(symbols: &Vec<Symbol>, rva: u32) -> (r: usize)
    ensures
        r == procedure_place(symbols@, rva, 0),
{
    let mut i: usize = 0;
    while i < symbols.len()
        invariant
            i <= symbols@.len(),
            procedure_place(symbols@, rva, 0) == procedure_place(symbols@, rva, i as int),
        decreases symbols.len() - i,
    {
        if let Symbol::Procedure(p) = &symbols[i] {
            if let Some(at) = p.rva {
                if at == rva {
                    return i;
                }
            }
        }
        i = i + 1;
    }
    0
}

/// A text without the characters `c` at its beginning.
pub open spec fn without_leading(s: Seq<char>, c: char) -> Seq<char>
    decreases s.len(),
{
    if s.len() > 0 && s[0] == c {
        without_leading(s.skip(1), c)
    } else {
        s
    }
}

/// A path in small letters, relative to the engine's directory.
pub open spec fn relative_path(lowered: Seq<char>, engine: Seq<char>) -> Option<Seq<char>> {
    match without_prefix(replaced(lowered, "/"@, "\\"@), engine) {
        Some(s) => Some(replaced(without_leading(s, '\\'), "\\"@, "/"@)),
        None => None,
    }
}

/// A path in small letters, relative to the engine's directory.
pub fn relative_to_engine(lowered: &str, engine: &str) -> (r: Option<String>)
    ensures
        opt_text(r) == relative_path(lowered@, engine@),
{
    let p: String = replace(lowered, "/", "\\");
    match strip_front(p.as_str(), engine) {
        None => None,
        Some(s) => {
            let v: Vec<char> = chars_of(s.as_str());
            let mut i: usize = 0;
            assert(s@.skip(0) =~= s@);
            while i < v.len() && v[i] == '\\'
                invariant
                    v@ == s@,
                    i <= v@.len(),
                    without_leading(s@, '\\') == without_leading(s@.skip(i as int), '\\'),
                decreases v.len() - i,
            {
                assert(s@.skip(i as int)[0] == v@[i as int]);
                assert(s@.skip(i as int).skip(1) =~= s@.skip(i + 1));
                i = i + 1;
            }
            proof {
                if i < v@.len() {
                    assert(s@.skip(i as int)[0] == v@[i as int]);
                }
            }
            let rest: String = tail_of(&v, i);
            assert(rest@ == without_leading(s@, '\\'));
            Some(replace(rest.as_str(), "\\", "/"))
        },
    }
}

/// A constant, its type without the numbers of types.
pub open spec fn constant_of(c: (String, String, Variant)) -> ConstShape {
    ConstShape { name: c.0@, typename: indexes_cleaned(c.1@), value: c.2.number() as i64 }
}

/// A function of a source file under its key.
pub open spec fn function_of(f: SourceFn, key: Seq<char>) -> FnShape {
    FnShape {
        key,
        name_orig: f.name_orig@,
        definition_line: if f.reliable {
            f.proc_start
        } else {
            0
        },
        module_id: f.module_id,
        symbol_order: f.symbol_order,
        raw_line_table_count: f.statements,
        constants: f.constants@.map_values(|c: (String, String, Variant)| constant_of(c)),
    }
}

/// The functions of a file.
pub open spec fn functions_at(s: Seq<(Seq<char>, Seq<FnShape>)>, path: Seq<char>) -> Seq<FnShape> {
    match entry(s, path) {
        Some(f) => f,
        None => Seq::empty(),
    }
}

/// A build with a function at its place: with a body of its own, and, where a source file
/// defines it, as one of the file's functions.
pub open spec fn with_placed(
    s: SideShape,
    f: SourceFn,
    path: Seq<char>,
    key: Seq<char>,
) -> SideShape {
    let presence = s.presence.push(PresenceShape { path, key, name_orig: f.name_orig@ });
    if FunctionLocation::of(f.filename@) is Source {
        SideShape {
            presence,
            files: with_entry(
                s.files,
                path,
                functions_at(s.files, path).push(function_of(f, key)),
            ),
            ..s
        }
    } else {
        SideShape { presence, ..s }
    }
}

/// A build with a function. One outside the engine's directory, or in a file that is left
/// out, adds nothing.
pub open spec fn with_function(
    s: SideShape,
    publics: Seq<PublicSymbol>,
    engine: Seq<char>,
    skip: Seq<Seq<char>>,
    f: SourceFn,
) -> SideShape {
    match relative_path(lowercase(f.filename@), engine) {
        None => s,
        Some(path) => if is_skipped(path, skip) {
            s
        } else {
            with_placed(
                s,
                f,
                path,
                join_key(
                    public_from(publics, f.rva, 0),
                    f.name_orig@,
                    written_name(f.name_orig@),
                ),
            )
        },
    }
}

/// A build with the first `n` functions.
pub open spec fn with_functions(
    s: SideShape,
    publics: Seq<PublicSymbol>,
    engine: Seq<char>,
    skip: Seq<Seq<char>>,
    v: Seq<SourceFn>,
    n: int,
) -> SideShape
    decreases n,
{
    if n <= 0 {
        s
    } else {
        with_function(
            with_functions(s, publics, engine, skip, v, n - 1),
            publics,
            engine,
            skip,
            v[n - 1],
        )
    }
}

/// The functions of each file in the order of their lines.
pub open spec fn files_in_order(s: Seq<(Seq<char>, Seq<FnShape>)>) -> Seq<
    (Seq<char>, Seq<FnShape>),
> {
    s.map_values(
        |x: (Seq<char>, Seq<FnShape>)|
            (
                x.0,
                sorted_by(
                    x.1,
                    |a: FnShape, b: FnShape| a.definition_line <= b.definition_line,
                ),
            ),
    )
}

fn constants_of(f: &SourceFn) -> (r: Vec<ConstModel>)
    ensures
        views(r@) == f.constants@.map_values(|c: (String, String, Variant)| constant_of(c)),
{
    let mut r: Vec<ConstModel> = Vec::new();
    let mut i: usize = 0;
    while i < f.constants.len()
        invariant
            i <= f.constants@.len(),
            r@.len() == i,
            forall|k: int| 0 <= k < i ==> (#[trigger] r@[k])@ == constant_of(f.constants@[k]),
        decreases f.constants.len() - i,
    {
        let c: &(String, String, Variant) = &f.constants[i];
        let one: ConstModel = ConstModel {
            name: owned(c.0.as_str()),
            typename: clean_type(c.1.as_str()),
            value: variant_to_i64(c.2),
        };
        r.push(one);
        i = i + 1;
    }
    assert(views(r@) =~= f.constants@.map_values(|c: (String, String, Variant)| constant_of(c)));
    r
}

fn push_function(files: &mut Vec<(String, FileModel)>, path: &str, f: FnModel)
    requires
        names_differ(views(old(files)@)),
    ensures
        names_differ(views(final(files)@)),
        views(final(files)@) == with_entry(
            views(old(files)@),
            path@,
            functions_at(views(old(files)@), path@).push(f@),
        ),
{
    let ghost before = views(files@);
    let ghost x = f@;
    proof {
        lemma_with_entry(before, path@, functions_at(before, path@).push(x));
        lemma_place(before, path@, 0);
    }
    match find_name(files, path) {
        Some(i) => {
            let ghost old_list = files@[i as int].1.functions@;
            assert(before[i as int] == (files@[i as int].0@, views(old_list)));
            files[i].1.functions.push(f);
            proof {
                let after = views(files@);
                assert(files@[i as int].1.functions@ == old_list.push(f));
                assert(views(old_list.push(f)) =~= views(old_list).push(x));
                assert(files@[i as int].0@ == path@);
                assert forall|k: int| 0 <= k < after.len() implies after[k] == before.update(
                    i as int,
                    (path@, views(old_list).push(x)),
                )[k] by {
                    if k != i {
                        assert(after[k] == before[k]);
                    }
                }
                assert(after =~= before.update(i as int, (path@, views(old_list).push(x))));
            }
        },
        None => {
            let mut functions: Vec<FnModel> = Vec::new();
            functions.push(f);
            assert(views(functions@) =~= Seq::<FnShape>::empty().push(x));
            put_entry(files, owned(path), FileModel { functions });
        },
    }
}

/// Takes in a function at its place.
pub fn add_placed_function(out: &mut SideModel, f: &SourceFn, path: &str, key: &str)
    requires
        old(out)@.wf(),
    ensures
        final(out)@.wf(),
        final(out)@ == with_placed(old(out)@, *f, path@, key@),
{
    let one: PresenceFn = PresenceFn {
        path: owned(path),
        key: owned(key),
        name_orig: owned(f.name_orig.as_str()),
    };
    let ghost before = out.presence_functions@;
    let ghost p = one@;
    out.presence_functions.push(one);
    assert(views(out.presence_functions@) =~= views(before).push(p));
    if let FunctionLocation::Source = FunctionLocation::get(f.filename.as_str()) {
        let line: u32 = if f.reliable {
            f.proc_start
        } else {
            0
        };
        let fun: FnModel = FnModel {
            key: owned(key),
            name_orig: owned(f.name_orig.as_str()),
            definition_line: line,
            module_id: f.module_id,
            symbol_order: f.symbol_order,
            raw_line_table_count: f.statements,
            constants: constants_of(f),
        };
        assert(fun@ == function_of(*f, key@));
        push_function(&mut out.files, path, fun);
    }
}

fn add_function(
    out: &mut SideModel,
    publics: &Vec<PublicSymbol>,
    engine: &str,
    cfg: &Config,
    f: &SourceFn,
)
    requires
        old(out)@.wf(),
        can_be_joined(public_from(publics@, f.rva, 0), f.name_orig@),
    ensures
        final(out)@.wf(),
        final(out)@ == with_function(old(out)@, publics@, engine@, texts(cfg.skip@), *f),
{
    let lowered: String = to_lowercase(f.filename.as_str());
    match relative_to_engine(lowered.as_str(), engine) {
        None => {},
        Some(path) => {
            if !skipped(path.as_str(), cfg) {
                let public: Option<&str> = find_public(publics, f.rva);
                let key: String = function_join_key(public, f.name_orig.as_str());
                add_placed_function(out, f, path.as_str(), key.as_str());
            }
        },
    }
}

fn sort_files(out: &mut SideModel)
    requires
        old(out)@.wf(),
    ensures
        final(out)@.wf(),
        final(out)@ == (SideShape { files: files_in_order(old(out)@.files), ..old(out)@ }),
{
    let ghost start = out@;
    let ghost goal = files_in_order(start.files);
    let mut rest: Vec<(String, FileModel)> = Vec::new();
    std::mem::swap(&mut rest, &mut out.files);
    let mut done: Vec<(String, FileModel)> = Vec::new();
    // The files are taken from the end, and so put back in reverse.
    while rest.len() > 0
        invariant
            goal == files_in_order(start.files),
            rest@.len() + done@.len() == start.files.len(),
            forall|k: int|
                0 <= k < rest@.len() ==> ((#[trigger] rest@[k]).0@, rest@[k].1@) == start.files[k],
            forall|k: int|
                0 <= k < done@.len() ==> ((#[trigger] done@[k]).0@, done@[k].1@)
                    == goal[start.files.len() - 1 - k],
        decreases rest@.len(),
    {
        let ghost before = rest@;
        match rest.pop() {
            Some((path, file)) => {
                let ghost k = before.len() - 1;
                assert((before[k].0@, before[k].1@) == start.files[k]);
                let functions: Vec<FnModel> = sort_stable(file.functions);
                assert(rank_of::<FnModel>() =~= (|a: FnShape, b: FnShape|
                    a.definition_line <= b.definition_line));
                done.push((path, FileModel { functions }));
                assert forall|j: int| 0 <= j < rest@.len() implies (
                    (#[trigger] rest@[j]).0@,
                    rest@[j].1@,
                ) == start.files[j] by {
                    assert(rest@[j] == before[j]);
                }
            },
            None => {},
        }
    }
    let n: usize = done.len();
    let mut files: Vec<(String, FileModel)> = Vec::new();
    while done.len() > 0
        invariant
            goal == files_in_order(start.files),
            n == start.files.len(),
            goal.len() == n,
            files@.len() + done@.len() == n,
            forall|k: int|
                0 <= k < done@.len() ==> ((#[trigger] done@[k]).0@, done@[k].1@) == goal[n - 1 - k],
            forall|k: int|
                0 <= k < files@.len() ==> ((#[trigger] files@[k]).0@, files@[k].1@) == goal[k],
        decreases done@.len(),
    {
        let ghost before = done@;
        match done.pop() {
            Some(x) => {
                let ghost k = before.len() - 1;
                assert((before[k].0@, before[k].1@) == goal[n - 1 - k]);
                files.push(x);
                assert forall|j: int| 0 <= j < done@.len() implies (
                    (#[trigger] done@[j]).0@,
                    done@[j].1@,
                ) == goal[n - 1 - j] by {
                    assert(done@[j] == before[j]);
                }
            },
            None => {},
        }
    }
    assert(views(files@) =~= goal);
    out.files = files;
    proof {
        assert forall|i: int, j: int| 0 <= i < j < goal.len() implies (#[trigger] goal[i]).0 != (
        #[trigger] goal[j]).0 by {
            assert(start.files[i].0 != start.files[j].0);
        }
    }
}

/// Takes in the functions of a build, and puts those of each file in the order of their
/// lines.
pub fn extract_sources(
    functions: &Vec<SourceFn>,
    publics: &Vec<PublicSymbol>,
    engine: &str,
    cfg: &Config,
    out: &mut SideModel,
)
    requires
        old(out)@.wf(),
        forall|i: int|
            0 <= i < functions@.len() ==> can_be_joined(
                public_from(publics@, (#[trigger] functions@[i]).rva, 0),
                functions@[i].name_orig@,
            ),
    ensures
        final(out)@.wf(),
        ({
            let s = with_functions(
                old(out)@,
                publics@,
                engine@,
                texts(cfg.skip@),
                functions@,
                functions@.len() as int,
            );
            final(out)@ == (SideShape { files: files_in_order(s.files), ..s })
        }),
{
    let ghost start = out@;
    let mut i: usize = 0;
    while i < functions.len()
        invariant
            start == old(out)@,
            out@.wf(),
            forall|i: int|
                0 <= i < functions@.len() ==> can_be_joined(
                    public_from(publics@, (#[trigger] functions@[i]).rva, 0),
                    functions@[i].name_orig@,
                ),
            i <= functions@.len(),
            out@ == with_functions(
                start,
                publics@,
                engine@,
                texts(cfg.skip@),
                functions@,
                i as int,
            ),
        decreases functions.len() - i,
    {
        add_function(out, publics, engine, cfg, &functions[i]);
        i = i + 1;
    }
    sort_files(out);
}

/// Whether the key of a function can be made.
pub fn can_extract(f: &SourceFn, publics: &Vec<PublicSymbol>) -> (r: bool)
    ensures
        r == can_be_joined(public_from(publics@, f.rva, 0), f.name_orig@),
{
    can_join(find_public(publics, f.rva), f.name_orig.as_str())
}

} // verus!
