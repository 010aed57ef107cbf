//! The source files of a database, module by module.

use crate::function_cache::{FunctionCache, SignatureModel};
use crate::gen_sources::{accepts_all, after_all, FileModel, Module, ModuleModel, Symbol};
use crate::source_files::{engine_files, is_left_out, is_output, is_writable_file, left_out,
    recorded, recorded_files, SourceOutput, today};
use crate::source_function::{FunctionModel, GenFlags};
use vstd::prelude::*;

verus! {

/// A module: its name, and its symbols where it has any of its own.
pub struct ModuleRecord {
    pub name: String,
    pub symbols: Option<Vec<Symbol>>,
}

/// Why the source files of a module are not made.
#[derive(Debug)]
pub enum SourceError {
    /// What the type formatter could not make.
    Formatter(String),
    /// The symbols contradict themselves, or a function cannot be written.
    Malformed,
}

/// Why the source files of a module are not made, as a model.
pub enum SourceFailure {
    Formatter(Seq<char>),
    Malformed,
}

impl View for SourceError {
    type V = SourceFailure;

    open spec fn view(&self) -> SourceFailure {
        match self {
            SourceError::Formatter(e) => SourceFailure::Formatter(e@),
            SourceError::Malformed => SourceFailure::Malformed,
        }
    }
}

// ---------------------------------------------------------------------------
// One module
// ---------------------------------------------------------------------------

/// Whether all files that lie in the engine's directory can be written.
pub open spec fn all_writable(files: Seq<FileModel>, engine: Seq<char>) -> bool {
    forall|i: int| 0 <= i < files.len() ==> is_writable_file(#[trigger] files[i], engine)
}

/// The functions of a module; nothing for one that is left out or has no symbols.
pub open spec fn module_of(
    m: ModuleRecord,
    id: usize,
    flags: GenFlags,
    engine: Seq<char>,
) -> Result<Option<ModuleModel>, SourceFailure> {
    match m.symbols {
        None => Ok(None),
        Some(symbols) => {
            let n = symbols@.len() as int;
            if left_out(m.name@) {
                Ok(None)
            } else if !accepts_all(id, flags, symbols@, n) {
                Err(SourceFailure::Malformed)
            } else {
                match after_all(id, flags, symbols@, n) {
                    Err(e) => Err(SourceFailure::Formatter(e)),
                    Ok(s) => if all_writable(s.module.files, engine) {
                        Ok(Some(s.module))
                    } else {
                        Err(SourceFailure::Malformed)
                    },
                }
            }
        },
    }
}

/// The signatures with those of a module's functions recorded over them, unless no cache
/// is kept.
pub open spec fn cache_with(
    cache: Map<Seq<char>, SignatureModel>,
    m: ModuleModel,
    flags: GenFlags,
) -> Map<Seq<char>, SignatureModel> {
    if flags.no_cache {
        cache
    } else {
        recorded_files(cache, m.files, m.files.len() as int)
    }
}

/// Whether these are the source files of a module, made on the given day.
pub open spec fn are_outputs(
    v: Seq<SourceOutput>,
    m: ModuleModel,
    engine: Seq<char>,
    day: Seq<char>,
) -> bool {
    let files = engine_files(m.files, engine, m.files.len() as int);
    &&& v.len() == files.len()
    &&& forall|i: int|
        0 <= i < v.len() ==> is_output(#[trigger] v[i], files[i], m.typedefs, engine, day)
}

/// Whether `r` holds the source files of a module, made on the given day, or why there are
/// none, and `after` the signatures of `before` and those of its functions.
pub open spec fn is_dump(
    m: ModuleRecord,
    id: usize,
    flags: GenFlags,
    engine: Seq<char>,
    day: Seq<char>,
    before: Map<Seq<char>, SignatureModel>,
    after: Map<Seq<char>, SignatureModel>,
    r: Result<Option<Vec<SourceOutput>>, SourceError>,
) -> bool {
    match r {
        Ok(Some(v)) => {
            &&& module_of(m, id, flags, engine) matches Ok(Some(model))
            &&& are_outputs(v@, model, engine, day)
            &&& after == cache_with(before, model, flags)
        },
        Ok(None) => module_of(m, id, flags, engine) == Ok::<Option<ModuleModel>, SourceFailure>(
            None,
        ) && after == before,
        Err(e) => module_of(m, id, flags, engine) == Err::<Option<ModuleModel>, SourceFailure>(e@)
            && after == before,
    }
}

/// The source files of a module, made today; nothing for a module that is left out. Records
/// the signatures of its functions.
pub fn dump_module_today(
    m: &ModuleRecord,
    id: usize,
    flags: GenFlags,
    engine_path: &str,
    cache: &mut FunctionCache,
) -> (r: Result<Option<Vec<SourceOutput>>, SourceError>)
    requires
        m.symbols matches Some(symbols) ==> symbols@.len() <= i32::MAX,
    ensures
        exists|day: Seq<char>|
            #[trigger] is_dump(*m, id, flags, engine_path@, day, old(cache)@, final(cache)@, r),
{
    let day: String = today();
    let r = dump_module(m, id, flags, engine_path, day.as_str(), cache);
    assert(is_dump(*m, id, flags, engine_path@, day@, old(cache)@, cache@, r));
    r
}

/// The source files of a module, made on the given day; nothing for a module that is left
/// out. Records the signatures of its functions.
pub fn dump_module(
    m: &ModuleRecord,
    id: usize,
    flags: GenFlags,
    engine_path: &str,
    day: &str,
    cache: &mut FunctionCache,
) -> (r: Result<Option<Vec<SourceOutput>>, SourceError>)
    requires
        m.symbols matches Some(symbols) ==> symbols@.len() <= i32::MAX,
    ensures
        is_dump(*m, id, flags, engine_path@, day@, old(cache)@, final(cache)@, r),
{
    let symbols: &Vec<Symbol> = match &m.symbols {
        None => {
            return Ok(None);
        },
        Some(symbols) => symbols,
    };
    if is_left_out(m.name.as_str()) {
        return Ok(None);
    }
    if !Module::can_build(id, flags, symbols) {
        return Err(SourceError::Malformed);
    }
    match Module::build(id, flags, symbols) {
        Err(e) => Err(SourceError::Formatter(e)),
        Ok(module) => {
            if !module.can_output(engine_path) {
                return Err(SourceError::Malformed);
            }
            module.update_cache(cache, flags);
            Ok(Some(module.outputs(engine_path, day)))
        },
    }
}

// ---------------------------------------------------------------------------
// All modules
// ---------------------------------------------------------------------------

/// The modules that are written, and the signatures of their functions.
pub struct Written {
    pub modules: Seq<ModuleModel>,
    pub cache: Map<Seq<char>, SignatureModel>,
}

/// What is written of the first `n` modules. A module that cannot be made ends it.
pub open spec fn written(
    ms: Seq<ModuleRecord>,
    flags: GenFlags,
    engine: Seq<char>,
    n: int,
) -> Result<Written, SourceFailure>
    decreases n,
{
    if n <= 0 {
        Ok(Written { modules: Seq::empty(), cache: Map::empty() })
    } else {
        match written(ms, flags, engine, n - 1) {
            Err(e) => Err(e),
            Ok(w) => match module_of(ms[n - 1], (n - 1) as usize, flags, engine) {
                Err(e) => Err(e),
                Ok(None) => Ok(w),
                Ok(Some(m)) => Ok(
                    Written { modules: w.modules.push(m), cache: cache_with(w.cache, m, flags) },
                ),
            },
        }
    }
}

proof fn lemma_written_err(
    ms: Seq<ModuleRecord>,
    flags: GenFlags,
    engine: Seq<char>,
    i: int,
    n: int,
)
    requires
        0 <= i <= n,
        written(ms, flags, engine, i) is Err,
    ensures
        written(ms, flags, engine, n) == written(ms, flags, engine, i),
    decreases n,
{
    if i < n {
        lemma_written_err(ms, flags, engine, i, n - 1);
    }
}

/// The source files of a database, by module, and the signatures of its functions.
pub struct SourceDump {
    pub modules: Vec<Vec<SourceOutput>>,
    pub cache: FunctionCache,
}

/// The source files of all modules, made on the given day, and the signatures of their
/// functions.
pub fn dump_sources(ms: &Vec<ModuleRecord>, engine_path: &str, flags: GenFlags, day: &str) -> (r:
    Result<SourceDump, SourceError>)
    requires
        forall|i: int|
            0 <= i < ms@.len() ==> ((#[trigger] ms@[i]).symbols matches Some(symbols)
                ==> symbols@.len() <= i32::MAX),
    ensures
        match r {
            Ok(d) => {
                &&& written(ms@, flags, engine_path@, ms@.len() as int) matches Ok(w)
                &&& d.cache@ == w.cache
                &&& d.modules@.len() == w.modules.len()
                &&& forall|i: int|
                    0 <= i < d.modules@.len() ==> are_outputs(
                        (#[trigger] d.modules@[i])@,
                        w.modules[i],
                        engine_path@,
                        day@,
                    )
            },
            Err(e) => written(ms@, flags, engine_path@, ms@.len() as int) == Err::<
                Written,
                SourceFailure,
            >(e@),
        },
{
    let mut cache: FunctionCache = FunctionCache::new();
    let mut modules: Vec<Vec<SourceOutput>> = Vec::new();
    let ghost engine = engine_path@;
    let mut i: usize = 0;
    while i < ms.len()
        invariant
            i <= ms@.len(),
            engine == engine_path@,
            forall|k: int|
                0 <= k < ms@.len() ==> ((#[trigger] ms@[k]).symbols matches Some(symbols)
                    ==> symbols@.len() <= i32::MAX),
            written(ms@, flags, engine, i as int) is Ok,
            cache@ == written(ms@, flags, engine, i as int)->Ok_0.cache,
            modules@.len() == written(ms@, flags, engine, i as int)->Ok_0.modules.len(),
            forall|k: int|
                0 <= k < modules@.len() ==> are_outputs(
                    (#[trigger] modules@[k])@,
                    written(ms@, flags, engine, i as int)->Ok_0.modules[k],
                    engine,
                    day@,
                ),
        decreases ms.len() - i,
    {
        match dump_module(&ms[i], i, flags, engine_path, day, &mut cache) {
            Err(e) => {
                proof {
                    assert(written(ms@, flags, engine, i + 1) == Err::<Written, SourceFailure>(e@));
                    lemma_written_err(ms@, flags, engine, i + 1, ms@.len() as int);
                }
                return Err(e);
            },
            Ok(None) => {},
            Ok(Some(v)) => {
                modules.push(v);
            },
        }
        i = i + 1;
    }
    Ok(SourceDump { modules, cache })
}

// ---------------------------------------------------------------------------
// The signatures that are recorded
// ---------------------------------------------------------------------------

/// Whether one of the first `n` functions has a name.
pub open spec fn named_among(fs: Seq<FunctionModel>, n: int, name: Seq<char>) -> bool {
    exists|k: int| 0 <= k < n && (#[trigger] fs[k]).name_orig == name
}

/// Whether a function in one of the first `n` files has a name.
pub open spec fn named_in_files(files: Seq<FileModel>, n: int, name: Seq<char>) -> bool {
    exists|f: int|
        0 <= f < n && named_among(
            (#[trigger] files[f]).functions,
            files[f].functions.len() as int,
            name,
        )
}

/// Whether a function of some modules has a name.
pub open spec fn named_in_modules(ms: Seq<ModuleModel>, name: Seq<char>) -> bool {
    exists|m: int|
        0 <= m < ms.len() && named_in_files(
            (#[trigger] ms[m]).files,
            ms[m].files.len() as int,
            name,
        )
}

proof fn lemma_recorded_names(
    cache: Map<Seq<char>, SignatureModel>,
    fs: Seq<FunctionModel>,
    n: int,
    name: Seq<char>,
)
    requires
        0 <= n <= fs.len(),
    ensures
        recorded(cache, fs, n).contains_key(name) == (cache.contains_key(name) || named_among(
            fs,
            n,
            name,
        )),
    decreases n,
{
    if n > 0 {
        lemma_recorded_names(cache, fs, n - 1, name);
        if named_among(fs, n, name) && !named_among(fs, n - 1, name) {
            assert(fs[n - 1].name_orig == name);
        }
        if fs[n - 1].name_orig == name {
            assert(named_among(fs, n, name));
        }
        if named_among(fs, n - 1, name) {
            let k = choose|k: int| 0 <= k < n - 1 && (#[trigger] fs[k]).name_orig == name;
            assert(fs[k].name_orig == name);
        }
    }
}

proof fn lemma_recorded_file_names(
    cache: Map<Seq<char>, SignatureModel>,
    files: Seq<FileModel>,
    n: int,
    name: Seq<char>,
)
    requires
        0 <= n <= files.len(),
    ensures
        recorded_files(cache, files, n).contains_key(name) == (cache.contains_key(name)
            || named_in_files(files, n, name)),
    decreases n,
{
    if n > 0 {
        lemma_recorded_file_names(cache, files, n - 1, name);
        let fs = files[n - 1].functions;
        lemma_recorded_names(
            recorded_files(cache, files, n - 1),
            fs,
            fs.len() as int,
            name,
        );
        if named_in_files(files, n - 1, name) {
            let f = choose|f: int|
                0 <= f < n - 1 && named_among(
                    (#[trigger] files[f]).functions,
                    files[f].functions.len() as int,
                    name,
                );
            assert(named_among(files[f].functions, files[f].functions.len() as int, name));
        }
        if named_in_files(files, n, name) && !named_in_files(files, n - 1, name) {
            let f = choose|f: int|
                0 <= f < n && named_among(
                    (#[trigger] files[f]).functions,
                    files[f].functions.len() as int,
                    name,
                );
            assert(f == n - 1);
        }
    }
}

/// The signatures that headers are made with are those of the functions that were written:
/// all of them, and of no other; none where no cache is kept.
pub proof fn lemma_signatures_are_of_what_was_written(
    ms: Seq<ModuleRecord>,
    flags: GenFlags,
    engine: Seq<char>,
    n: int,
    name: Seq<char>,
)
    requires
        0 <= n <= ms.len(),
        written(ms, flags, engine, n) is Ok,
    ensures
        written(ms, flags, engine, n)->Ok_0.cache.contains_key(name) == (!flags.no_cache
            && named_in_modules(written(ms, flags, engine, n)->Ok_0.modules, name)),
    decreases n,
{
    if n > 0 {
        lemma_signatures_are_of_what_was_written(ms, flags, engine, n - 1, name);
        let w = written(ms, flags, engine, n - 1)->Ok_0;
        match module_of(ms[n - 1], (n - 1) as usize, flags, engine) {
            Ok(Some(m)) => {
                let all = w.modules.push(m);
                if !flags.no_cache {
                    lemma_recorded_file_names(w.cache, m.files, m.files.len() as int, name);
                    if named_in_modules(w.modules, name) {
                        let k = choose|k: int|
                            0 <= k < w.modules.len() && named_in_files(
                                (#[trigger] w.modules[k]).files,
                                w.modules[k].files.len() as int,
                                name,
                            );
                        assert(all[k] == w.modules[k]);
                        assert(named_in_modules(all, name));
                    }
                    if named_in_files(m.files, m.files.len() as int, name) {
                        assert(all[w.modules.len() as int] == m);
                        assert(named_in_modules(all, name));
                    }
                    if named_in_modules(all, name) && !named_in_modules(w.modules, name) {
                        let k = choose|k: int|
                            0 <= k < all.len() && named_in_files(
                                (#[trigger] all[k]).files,
                                all[k].files.len() as int,
                                name,
                            );
                        if k < w.modules.len() {
                            assert(all[k] == w.modules[k]);
                        }
                        assert(k == w.modules.len());
                    }
                }
            },
            _ => {},
        }
    }
}

} // verus!
