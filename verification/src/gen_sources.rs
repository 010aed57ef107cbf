//! The functions of a module, gathered from its symbols by source file, and the
//! source files that are written for them.

use crate::function_type::{Attributes, FunctionType, FunctionTypeModel};
use crate::lcs::views;
use crate::order::{insert_ranked, inserted, is_le, rank_of, text_le, Ranked};
use crate::paths::FunctionLocation;
use crate::search::{ends, ends_with};
use crate::source_function::{ConstantValue, Function, FunctionModel, GenFlags, Statement};
use crate::text::{chars_of, owned, same, texts};
use crate::type_builder::{can_name_templates, can_typedef_template, name_within, namespace_of,
    Namespace, Type};
use vstd::prelude::*;

verus! {

// ---------------------------------------------------------------------------
// Symbols
// ---------------------------------------------------------------------------

/// One entry of a procedure's line table.
pub struct LineRecord {
    pub line_start: u32,
    pub file: String,
    /// Nothing where the offset lies outside every section.
    pub rva: Option<u32>,
}

/// A procedure. What the type formatter makes of its name and type is an error
/// where the formatter failed.
pub struct ProcedureRecord {
    pub type_index: u32,
    pub rva: Option<u32>,
    pub lines: Vec<LineRecord>,
    pub signature: Result<(String, FunctionType), String>,
}

/// A symbol of a module. `ty` is what the type formatter makes of the symbol's type.
pub enum Symbol {
    Procedure(ProcedureRecord),
    ScopeEnd,
    BasePointerRelative { offset: i32, name: String, ty: Result<String, String> },
    Register { name: String, ty: Result<String, String> },
    Constant { name: String, ty: Result<String, String>, value: ConstantValue },
    Data { name: String, ty: Result<String, String>, rva: Option<u32> },
    FrameProcedure,
    Block { rva: Option<u32> },
    UserDefinedType { name: String, ty: Result<String, String> },
    CallSiteInfo { rva: Option<u32>, ty: Result<String, String> },
    Other { text: String },
}

/// The view of what a formatter gave.
pub open spec fn formatted(ty: Result<String, String>) -> Result<Seq<char>, Seq<char>> {
    match ty {
        Ok(s) => Ok(s@),
        Err(e) => Err(e@),
    }
}

/// Whether the name of a type can be written, where there is one.
pub open spec fn writable(ty: Result<String, String>) -> bool {
    ty matches Ok(s) ==> can_name_templates(s@)
}

// ---------------------------------------------------------------------------
// State
// ---------------------------------------------------------------------------

/// The functions of one source file, by their first lines.
pub struct SourceFile {
    pub name: String,
    pub functions: Vec<Function>,
}

/// The functions of one source file, as a model.
pub struct FileModel {
    pub name: Seq<char>,
    pub functions: Seq<FunctionModel>,
}

impl View for SourceFile {
    type V = FileModel;

    open spec fn view(&self) -> FileModel {
        FileModel { name: self.name@, functions: views(self.functions@) }
    }
}

/// The functions of a module, by source file, and the types that it names.
pub struct Module {
    pub files: Vec<SourceFile>,
    pub typedefs: Vec<(Type, Type)>,
}

/// The functions of a module, as a model.
pub struct ModuleModel {
    pub files: Seq<FileModel>,
    pub typedefs: Seq<(Seq<char>, Seq<char>)>,
}

impl View for Module {
    type V = ModuleModel;

    open spec fn view(&self) -> ModuleModel {
        ModuleModel { files: views(self.files@), typedefs: views(self.typedefs@) }
    }
}

/// What has been gathered so far: the module, the function that is being read with
/// its file, and how many scopes are open.
pub struct Builder {
    pub module_id: usize,
    pub module: Module,
    pub function: Function,
    pub filename: String,
    pub depth: i32,
}

/// What has been gathered so far, as a model.
pub struct BuilderModel {
    pub module_id: usize,
    pub module: ModuleModel,
    pub function: FunctionModel,
    pub filename: Seq<char>,
    pub depth: i32,
}

impl View for Builder {
    type V = BuilderModel;

    open spec fn view(&self) -> BuilderModel {
        BuilderModel {
            module_id: self.module_id,
            module: self.module@,
            function: self.function@,
            filename: self.filename@,
            depth: self.depth,
        }
    }
}

/// A function put among those of its file. It takes the place of one that begins
/// on the same line.
pub open spec fn put_function(s: Seq<FunctionModel>, f: FunctionModel) -> Seq<FunctionModel>
    decreases s.len(),
{
    if s.len() == 0 || s.last().proc_start < f.proc_start {
        s.push(f)
    } else if s.last().proc_start == f.proc_start {
        s.drop_last().push(f)
    } else {
        put_function(s.drop_last(), f).push(s.last())
    }
}

/// A function put into its file, the files in the order of their names.
pub open spec fn put_in_file(s: Seq<FileModel>, name: Seq<char>, f: FunctionModel) -> Seq<FileModel>
    decreases s.len(),
{
    if s.len() == 0 {
        seq![FileModel { name, functions: put_function(Seq::empty(), f) }]
    } else if s.last().name == name {
        s.drop_last().push(FileModel { name, functions: put_function(s.last().functions, f) })
    } else if text_le(s.last().name, name) {
        s.push(FileModel { name, functions: put_function(Seq::empty(), f) })
    } else {
        put_in_file(s.drop_last(), name, f).push(s.last())
    }
}

/// Whether one typedef may stand before another.
pub open spec fn typedef_le(a: (Seq<char>, Seq<char>), b: (Seq<char>, Seq<char>)) -> bool {
    if a.0 == b.0 {
        text_le(a.1, b.1)
    } else {
        text_le(a.0, b.0)
    }
}

impl Ranked for (Type, Type) {
    open spec fn before(a: (Seq<char>, Seq<char>), b: (Seq<char>, Seq<char>)) -> bool {
        typedef_le(a, b)
    }

    fn is_before(&self, other: &Self) -> (r: bool) {
        if self.0.0 == other.0.0 {
            is_le(self.1.0.as_str(), other.1.0.as_str())
        } else {
            is_le(self.0.0.as_str(), other.0.0.as_str())
        }
    }
}

/// A typedef put among others, unless it is there.
pub open spec fn put_typedef(
    s: Seq<(Seq<char>, Seq<char>)>,
    t: (Seq<char>, Seq<char>),
) -> Seq<(Seq<char>, Seq<char>)> {
    if s.contains(t) {
        s
    } else {
        inserted(
            s,
            t,
            |a: (Seq<char>, Seq<char>), b: (Seq<char>, Seq<char>)| typedef_le(a, b),
        )
    }
}

// ---------------------------------------------------------------------------
// One symbol
// ---------------------------------------------------------------------------

/// The statements that a line table lists.
pub open spec fn statements_of(lines: Seq<LineRecord>) -> Seq<Statement> {
    lines.map_values(
        |l: LineRecord| Statement { rva: l.rva->0, line_start: l.line_start, depth: 0 },
    )
}

/// The function that a procedure begins.
pub open spec fn begun_function(
    s: BuilderModel,
    p: ProcedureRecord,
    name_orig: Seq<char>,
    fn_t: FunctionTypeModel,
) -> FunctionModel {
    let lines = p.lines@;
    let in_header = FunctionLocation::of(lines[0].file@) is Header;
    FunctionModel {
        module_id: s.module_id,
        type_index: p.type_index,
        fn_t: FunctionTypeModel {
            attrs: Attributes { is_inline: fn_t.attrs.is_inline || in_header, ..fn_t.attrs },
            ..fn_t
        },
        offset: p.rva->0,
        name_orig,
        namespace: namespace_of(fn_t.name),
        proc_start: lines[0].line_start,
        proc_end: lines.last().line_start,
        statements: statements_of(lines),
        ..FunctionModel::empty(s.function.flags)
    }
}

/// A procedure begins a function, if it has lines and a type.
pub open spec fn after_procedure(s: BuilderModel, p: ProcedureRecord) -> Result<
    BuilderModel,
    Seq<char>,
> {
    if p.lines@.len() == 0 || p.type_index == 0 {
        Ok(BuilderModel { depth: (s.depth + 1) as i32, ..s })
    } else {
        match p.signature {
            Err(e) => Err(e@),
            Ok((name_orig, fn_t)) => Ok(
                BuilderModel {
                    depth: (s.depth + 1) as i32,
                    function: begun_function(s, p, name_orig@, fn_t@),
                    filename: p.lines@[0].file@,
                    ..s
                },
            ),
        }
    }
}

/// The function that a scope ends: what was recorded beyond its arguments are
/// locals.
pub open spec fn ended_function(f: FunctionModel) -> FunctionModel {
    let n = if f.fn_t.arg_types.len() < f.margs.len() {
        f.fn_t.arg_types.len() as int
    } else {
        f.margs.len() as int
    };
    FunctionModel {
        margs: f.margs.take(n),
        locals: f.locals + f.margs.skip(n).map_values(
            |m: (Seq<char>, Seq<char>)| (m.0, m.1, 0usize),
        ),
        ..f
    }
}

/// The end of a scope ends the function, if no other scope is open in it.
pub open spec fn after_scope_end(s: BuilderModel) -> BuilderModel {
    if s.depth == 1 {
        BuilderModel {
            depth: 0,
            module: ModuleModel {
                files: put_in_file(s.module.files, s.filename, ended_function(s.function)),
                ..s.module
            },
            function: FunctionModel::empty(s.function.flags),
            filename: ""@,
            ..s
        }
    } else {
        BuilderModel {
            depth: if s.depth > 0 {
                (s.depth - 1) as i32
            } else {
                0
            },
            ..s
        }
    }
}

/// A variable of the function that is being read: its implicit `this` is left out,
/// where nothing was recorded before it; else an argument or a local.
pub open spec fn with_variable(
    s: BuilderModel,
    name: Seq<char>,
    ty: Seq<char>,
    is_arg: bool,
) -> BuilderModel {
    let t = name_within(ty, s.function.namespace);
    if s.function.locals.len() == 0 && name == "this"@ {
        s
    } else if is_arg {
        BuilderModel {
            function: FunctionModel { margs: s.function.margs.push((name, t)), ..s.function },
            ..s
        }
    } else {
        BuilderModel {
            function: FunctionModel {
                locals: s.function.locals.push((name, t, (s.depth - 1) as usize)),
                ..s.function
            },
            ..s
        }
    }
}

/// The first statement at an address.
pub open spec fn statement_at(st: Seq<Statement>, rva: u32, from: int) -> Option<int>
    decreases st.len() - from,
{
    if from < 0 || from >= st.len() {
        None
    } else if st[from].rva == rva {
        Some(from)
    } else {
        statement_at(st, rva, from + 1)
    }
}

/// A block opens at a statement, or is listed where there is none.
pub open spec fn after_block(s: BuilderModel, rva: u32) -> BuilderModel {
    let f = s.function;
    let g = match statement_at(f.statements, rva, 0) {
        Some(i) => FunctionModel {
            statements: f.statements.update(i, Statement { depth: s.depth, ..f.statements[i] }),
            ..f
        },
        None => FunctionModel { blocks: f.blocks.push((rva, s.depth)), ..f },
    };
    BuilderModel { function: g, depth: (s.depth + 1) as i32, ..s }
}

/// Names that so many templates define that they say nothing.
pub open spec fn common_typedef(name: Seq<char>) -> bool {
    ||| name == "this_type"@
    ||| name == "self_type"@
    ||| name == "unspecified_bool_type"@
    ||| name == "unqualified_type"@
    ||| name == "allocator_type"@
    ||| name == "vtable_type"@
    ||| name == "functor_type"@
    ||| name == "policy_type"@
    ||| name == "base_type"@
    ||| name == "callback_type"@
    ||| name == "create_resource_if_no_file_delegate_type"@
    ||| name == "first_type"@
    ||| name == "graph_wrapper_type"@
    ||| name == "implementation_type"@
    ||| name == "invoker_type"@
    ||| name == "is_POD_type"@
    ||| name == "key_type"@
    ||| name == "mapped_type"@
    ||| name == "pod_type"@
    ||| name == "point_ptr_type"@
    ||| name == "point_type"@
    ||| name == "pointer_type"@
    ||| name == "result_type"@
    ||| name == "reverse_iterator"@
    ||| name == "service_impl_type"@
    ||| name == "size_type"@
    ||| name == "storage_type"@
    ||| name == "subscribers_type"@
    ||| name == "void_type"@
    ||| name == "void_cv_type"@
    ||| name == "value_type"@
    ||| name == "object_type"@
}

/// Whether a typedef outside all functions is kept.
pub open spec fn kept_typedef(name: Seq<char>) -> bool {
    &&& !common_typedef(name)
    &&& 'a' <= name[0] && name[0] <= 'z'
    &&& ends_with(name, "_type"@)
}

/// A constant of the function that is being read.
pub open spec fn with_constant(
    s: BuilderModel,
    name: Seq<char>,
    ty: Seq<char>,
    value: ConstantValue,
) -> BuilderModel {
    let f = s.function;
    BuilderModel {
        function: FunctionModel {
            constants: f.constants.push((name, name_within(ty, f.namespace), value)),
            ..f
        },
        ..s
    }
}

/// A static of the function that is being read, at no address where it has none.
pub open spec fn with_static(
    s: BuilderModel,
    name: Seq<char>,
    ty: Seq<char>,
    rva: Option<u32>,
) -> BuilderModel {
    let f = s.function;
    let at = match rva {
        Some(r) => r,
        None => 0,
    };
    BuilderModel {
        function: FunctionModel {
            statics: f.statics.push((name, name_within(ty, f.namespace), at)),
            ..f
        },
        ..s
    }
}

/// A typedef of the function that is being read, or of the module outside all
/// functions.
pub open spec fn with_typedef(s: BuilderModel, name: Seq<char>, ty: Seq<char>) -> BuilderModel {
    let f = s.function;
    let pair = (name_within(ty, f.namespace), name_within(name, f.namespace));
    if s.depth != 0 {
        BuilderModel { function: FunctionModel { typedefs: f.typedefs.push(pair), ..f }, ..s }
    } else {
        BuilderModel {
            module: ModuleModel {
                typedefs: put_typedef(s.module.typedefs, pair),
                ..s.module
            },
            ..s
        }
    }
}

/// A call of the function that is being read.
pub open spec fn with_callsite(s: BuilderModel, rva: u32, ty: Seq<char>) -> BuilderModel {
    let f = s.function;
    BuilderModel {
        function: FunctionModel {
            callsites: f.callsites.push((rva, name_within(ty, f.namespace))),
            ..f
        },
        ..s
    }
}

/// A symbol of another kind in the function that is being read.
pub open spec fn with_symbol(s: BuilderModel, text: Seq<char>) -> BuilderModel {
    let f = s.function;
    BuilderModel { function: FunctionModel { symbols: f.symbols.push(text), ..f }, ..s }
}

/// What becomes of the state with one more symbol.
#[verifier::opaque]
pub open spec fn after(s: BuilderModel, symbol: Symbol) -> Result<BuilderModel, Seq<char>> {
    match symbol {
        Symbol::Procedure(p) => after_procedure(s, p),
        Symbol::ScopeEnd => Ok(after_scope_end(s)),
        Symbol::BasePointerRelative { offset, name, ty } => if s.depth < 1 {
            Ok(s)
        } else {
            match ty {
                Err(e) => Err(e@),
                Ok(t) => Ok(with_variable(s, name@, t@, offset >= 0)),
            }
        },
        Symbol::Register { name, ty } => if s.depth < 1 {
            Ok(s)
        } else {
            match ty {
                Err(e) => Err(e@),
                Ok(t) => Ok(with_variable(s, name@, t@, true)),
            }
        },
        Symbol::Constant { name, ty, value } => if s.depth < 1 {
            Ok(s)
        } else {
            match ty {
                Err(e) => Err(e@),
                Ok(t) => Ok(with_constant(s, name@, t@, value)),
            }
        },
        Symbol::Data { name, ty, rva } => if s.depth < 1 {
            Ok(s)
        } else {
            match ty {
                Err(e) => Err(e@),
                Ok(t) => Ok(with_static(s, name@, t@, rva)),
            }
        },
        Symbol::FrameProcedure => Ok(s),
        Symbol::Block { rva } => if s.depth < 1 {
            Ok(s)
        } else {
            Ok(after_block(s, rva->0))
        },
        Symbol::UserDefinedType { name, ty } => if s.depth == 0 && !kept_typedef(name@) {
            Ok(s)
        } else {
            match ty {
                Err(e) => Err(e@),
                Ok(t) => Ok(with_typedef(s, name@, t@)),
            }
        },
        Symbol::CallSiteInfo { rva, ty } => match ty {
            Err(e) => Err(e@),
            Ok(t) => Ok(with_callsite(s, rva->0, t@)),
        },
        Symbol::Other { text } => if s.depth == 0 {
            Ok(s)
        } else {
            Ok(with_symbol(s, text@))
        },
    }
}

/// Whether the lines of a procedure are of one file and of known addresses.
pub open spec fn lines_agree(lines: Seq<LineRecord>) -> bool {
    forall|i: int|
        0 <= i < lines.len() ==> (#[trigger] lines[i]).file@ == lines[0].file@
            && lines[i].rva is Some
}

/// Whether a symbol can stand where it stands: no procedure inside another, lines
/// of one file, known addresses, and names of types that can be written.
#[verifier::opaque]
pub open spec fn accepts(s: BuilderModel, symbol: Symbol) -> bool {
    match symbol {
        Symbol::Procedure(p) => {
            &&& s.depth == 0
            &&& lines_agree(p.lines@)
            &&& p.lines@.len() > 0 && p.type_index != 0 ==> p.rva is Some
        },
        Symbol::BasePointerRelative { ty, .. } => s.depth >= 1 ==> writable(ty),
        Symbol::Register { ty, .. } => s.depth >= 1 ==> writable(ty),
        Symbol::Constant { ty, .. } => s.depth >= 1 ==> writable(ty),
        Symbol::Data { ty, .. } => s.depth >= 1 ==> writable(ty),
        Symbol::Block { rva } => s.depth >= 1 ==> rva is Some,
        Symbol::UserDefinedType { name, ty } => {
            &&& name@.len() > 0
            &&& (s.depth != 0 || kept_typedef(name@)) ==> can_name_templates(name@) && writable(ty)
        },
        Symbol::CallSiteInfo { rva, ty } => rva is Some && writable(ty),
        _ => true,
    }
}

// ---------------------------------------------------------------------------
// All symbols
// ---------------------------------------------------------------------------

/// The state before the first symbol.
pub open spec fn start(module_id: usize, flags: GenFlags) -> BuilderModel {
    BuilderModel {
        module_id,
        module: ModuleModel { files: Seq::empty(), typedefs: Seq::empty() },
        function: FunctionModel::empty(flags),
        filename: ""@,
        depth: 0,
    }
}

/// The state after the first `n` symbols.
pub open spec fn after_all(
    module_id: usize,
    flags: GenFlags,
    symbols: Seq<Symbol>,
    n: int,
) -> Result<BuilderModel, Seq<char>>
    decreases n,
{
    if n <= 0 {
        Ok(start(module_id, flags))
    } else {
        match after_all(module_id, flags, symbols, n - 1) {
            Err(e) => Err(e),
            Ok(s) => after(s, symbols[n - 1]),
        }
    }
}

/// Whether each of the first `n` symbols can stand where it stands. Nothing is
/// asked of what follows an error.
pub open spec fn accepts_all(
    module_id: usize,
    flags: GenFlags,
    symbols: Seq<Symbol>,
    n: int,
) -> bool
    decreases n,
{
    n <= 0 || (accepts_all(module_id, flags, symbols, n - 1) && (after_all(
        module_id,
        flags,
        symbols,
        n - 1,
    ) matches Ok(s) ==> accepts(s, symbols[n - 1])))
}

proof fn lemma_put_function_at(s: Seq<FunctionModel>, f: FunctionModel, p: int)
    requires
        0 <= p <= s.len(),
        forall|k: int| p <= k < s.len() ==> (#[trigger] s[k]).proc_start > f.proc_start,
        p == 0 || s[p - 1].proc_start <= f.proc_start,
    ensures
        put_function(s, f) == if p > 0 && s[p - 1].proc_start == f.proc_start {
            s.update(p - 1, f)
        } else {
            s.insert(p, f)
        },
    decreases s.len(),
{
    if p == s.len() {
        if p > 0 && s[p - 1].proc_start == f.proc_start {
            assert(s.drop_last().push(f) =~= s.update(p - 1, f));
        } else {
            assert(s.push(f) =~= s.insert(p, f));
        }
    } else {
        assert(s[s.len() - 1].proc_start > f.proc_start);
        lemma_put_function_at(s.drop_last(), f, p);
        if p > 0 && s[p - 1].proc_start == f.proc_start {
            assert(s.drop_last().update(p - 1, f).push(s.last()) =~= s.update(p - 1, f));
        } else {
            assert(s.drop_last().insert(p, f).push(s.last()) =~= s.insert(p, f));
        }
    }
}

fn insert_function(v: &mut Vec<Function>, f: Function)
    ensures
        views(final(v)@) == put_function(views(old(v)@), f@),
{
    let ghost s = views(v@);
    let ghost m = f@;
    let mut p: usize = v.len();
    while p > 0 && v[p - 1].proc_start > f.proc_start
        invariant
            p <= v@.len(),
            s == views(v@),
            m == f@,
            forall|k: int| p <= k < s.len() ==> (#[trigger] s[k]).proc_start > m.proc_start,
        decreases p,
    {
        assert(s[p - 1] == v@[p - 1]@);
        p = p - 1;
    }
    proof {
        if p > 0 {
            assert(s[p - 1] == v@[p - 1]@);
        }
        lemma_put_function_at(s, m, p as int);
    }
    if p > 0 && v[p - 1].proc_start == f.proc_start {
        v[p - 1] = f;
        assert(views(v@) =~= s.update(p - 1, m));
    } else {
        v.insert(p, f);
        assert(views(v@) =~= s.insert(p as int, m));
    }
}

proof fn lemma_put_in_file_at(s: Seq<FileModel>, name: Seq<char>, f: FunctionModel, p: int)
    requires
        0 <= p <= s.len(),
        forall|k: int|
            p <= k < s.len() ==> (#[trigger] s[k]).name != name && !text_le(s[k].name, name),
        p == 0 || s[p - 1].name == name || text_le(s[p - 1].name, name),
    ensures
        put_in_file(s, name, f) == if p > 0 && s[p - 1].name == name {
            s.update(
                p - 1,
                FileModel { name, functions: put_function(s[p - 1].functions, f) },
            )
        } else {
            s.insert(p, FileModel { name, functions: put_function(Seq::empty(), f) })
        },
    decreases s.len(),
{
    let fresh = FileModel { name, functions: put_function(Seq::empty(), f) };
    if p == s.len() {
        if p > 0 && s[p - 1].name == name {
            let g = FileModel { name, functions: put_function(s[p - 1].functions, f) };
            assert(s.drop_last().push(g) =~= s.update(p - 1, g));
        } else if p > 0 {
            assert(s.push(fresh) =~= s.insert(p, fresh));
        } else {
            assert(seq![fresh] =~= s.insert(0, fresh));
        }
    } else {
        assert(s[s.len() - 1].name != name && !text_le(s[s.len() - 1].name, name));
        lemma_put_in_file_at(s.drop_last(), name, f, p);
        if p > 0 && s[p - 1].name == name {
            let g = FileModel { name, functions: put_function(s[p - 1].functions, f) };
            assert(s.drop_last().update(p - 1, g).push(s.last()) =~= s.update(p - 1, g));
        } else {
            assert(s.drop_last().insert(p, fresh).push(s.last()) =~= s.insert(p, fresh));
        }
    }
}

fn insert_in_file(v: &mut Vec<SourceFile>, name: String, f: Function)
    ensures
        views(final(v)@) == put_in_file(views(old(v)@), name@, f@),
{
    let ghost s = views(v@);
    let ghost m = f@;
    let ghost n = name@;
    let mut p: usize = v.len();
    while p > 0 && !(v[p - 1].name == name) && !is_le(v[p - 1].name.as_str(), name.as_str())
        invariant
            p <= v@.len(),
            s == views(v@),
            n == name@,
            forall|k: int|
                p <= k < s.len() ==> (#[trigger] s[k]).name != n && !text_le(s[k].name, n),
        decreases p,
    {
        assert(s[p - 1] == v@[p - 1]@);
        p = p - 1;
    }
    proof {
        if p > 0 {
            assert(s[p - 1] == v@[p - 1]@);
        }
        lemma_put_in_file_at(s, n, m, p as int);
    }
    if p > 0 && v[p - 1].name == name {
        let mut file: SourceFile = v.remove(p - 1);
        insert_function(&mut file.functions, f);
        let ghost g = file@;
        v.insert(p - 1, file);
        assert(views(v@) =~= s.update(p - 1, g));
    } else {
        let mut functions: Vec<Function> = Vec::new();
        assert(views(functions@) =~= Seq::empty());
        insert_function(&mut functions, f);
        let file: SourceFile = SourceFile { name, functions };
        let ghost g = file@;
        v.insert(p, file);
        assert(views(v@) =~= s.insert(p as int, g));
    }
}

fn has_typedef(v: &Vec<(Type, Type)>, t: &(Type, Type)) -> (r: bool)
    ensures
        r == views(v@).contains(t@),
{
    let mut i: usize = 0;
    while i < v.len()
        invariant
            i <= v@.len(),
            forall|k: int| 0 <= k < i ==> (#[trigger] v@[k])@ != t@,
        decreases v.len() - i,
    {
        if v[i].0.0 == t.0.0 && v[i].1.0 == t.1.0 {
            assert(views(v@)[i as int] == t@);
            return true;
        }
        i = i + 1;
    }
    assert(forall|k: int| 0 <= k < v@.len() ==> views(v@)[k] == v@[k]@);
    false
}

fn insert_typedef(v: &mut Vec<(Type, Type)>, t: (Type, Type))
    ensures
        views(final(v)@) == put_typedef(views(old(v)@), t@),
{
    if !has_typedef(v, &t) {
        insert_ranked(v, t);
        assert(rank_of::<(Type, Type)>() =~= (|a: (Seq<char>, Seq<char>), b: (Seq<char>, Seq<char>)|
            typedef_le(a, b)));
    }
}

fn is_common_typedef(n: &str) -> (r: bool)
    ensures
        r == common_typedef(n@),
{
    same(n, "this_type") || same(n, "self_type") || same(n, "unspecified_bool_type") || same(
        n,
        "unqualified_type",
    ) || same(n, "allocator_type") || same(n, "vtable_type") || same(n, "functor_type") || same(
        n,
        "policy_type",
    ) || same(n, "base_type") || same(n, "callback_type") || same(
        n,
        "create_resource_if_no_file_delegate_type",
    ) || same(n, "first_type") || same(n, "graph_wrapper_type") || same(n, "implementation_type")
        || same(n, "invoker_type") || same(n, "is_POD_type") || same(n, "key_type") || same(
        n,
        "mapped_type",
    ) || same(n, "pod_type") || same(n, "point_ptr_type") || same(n, "point_type") || same(
        n,
        "pointer_type",
    ) || same(n, "result_type") || same(n, "reverse_iterator") || same(n, "service_impl_type")
        || same(n, "size_type") || same(n, "storage_type") || same(n, "subscribers_type") || same(
        n,
        "void_type",
    ) || same(n, "void_cv_type") || same(n, "value_type") || same(n, "object_type")
}

fn is_kept_typedef(name: &str) -> (r: bool)
    requires
        name@.len() > 0,
    ensures
        r == kept_typedef(name@),
{
    let v: Vec<char> = chars_of(name);
    !is_common_typedef(name) && 'a' <= v[0] && v[0] <= 'z' && ends(name, "_type")
}

fn statements_from(lines: &Vec<LineRecord>) -> (r: Vec<Statement>)
    requires
        lines_agree(lines@),
    ensures
        r@ == statements_of(lines@),
{
    let mut r: Vec<Statement> = Vec::new();
    let mut i: usize = 0;
    while i < lines.len()
        invariant
            lines_agree(lines@),
            i <= lines@.len(),
            r@.len() == i,
            forall|k: int| 0 <= k < i ==> #[trigger] r@[k] == statements_of(lines@)[k],
        decreases lines.len() - i,
    {
        let l: &LineRecord = &lines[i];
        assert(lines@[i as int] == *l);
        let rva: u32 = match l.rva {
            Some(x) => x,
            None => 0,
        };
        r.push(Statement { rva, line_start: l.line_start, depth: 0 });
        i = i + 1;
    }
    assert(r@ =~= statements_of(lines@));
    r
}

fn find_statement(st: &Vec<Statement>, rva: u32) -> (r: Option<usize>)
    ensures
        match r {
            Some(i) => statement_at(st@, rva, 0) == Some(i as int) && i < st@.len(),
            None => statement_at(st@, rva, 0) is None,
        },
{
    let mut i: usize = 0;
    while i < st.len()
        invariant
            i <= st@.len(),
            statement_at(st@, rva, 0) == statement_at(st@, rva, i as int),
        decreases st.len() - i,
    {
        if st[i].rva == rva {
            return Some(i);
        }
        i = i + 1;
    }
    None
}

/// Moves what was recorded beyond a function's arguments to its locals.
fn end_function(f: &mut Function)
    ensures
        final(f)@ == ended_function(old(f)@),
{
    let ghost m = f@;
    let args: usize = f.fn_t.arg_types.len();
    let n: usize = if args < f.margs.len() {
        args
    } else {
        f.margs.len()
    };
    let ghost margs = f.margs@;
    let ghost locals = f.locals@;
    let mut extra: Vec<(String, Type)> = f.margs.split_off(n);
    assert(views(f.margs@) =~= m.margs.take(n as int));
    let mut moved: Vec<(String, Type, usize)> = Vec::new();
    let ghost all = views(extra@);
    assert(all =~= m.margs.skip(n as int));
    while extra.len() > 0
        invariant
            extra@.len() <= all.len(),
            views(extra@) == all.take(extra@.len() as int),
            moved@.len() == all.len() - extra@.len(),
            forall|k: int|
                0 <= k < moved@.len() ==> (#[trigger] moved@[k])@ == (
                    all[all.len() - 1 - k].0,
                    all[all.len() - 1 - k].1,
                    0usize,
                ),
        decreases extra@.len(),
    {
        let ghost before = extra@;
        let last: Option<(String, Type)> = extra.pop();
        if let Some((name, ty)) = last {
            assert(views(before)[before.len() - 1] == (name@, ty@));
            moved.push((name, ty, 0));
        }
        assert(views(extra@) =~= all.take(extra@.len() as int));
    }
    let ghost target = all.map_values(|x: (Seq<char>, Seq<char>)| (x.0, x.1, 0usize));
    assert(views(f.locals@) + target.take(0) =~= m.locals);
    while moved.len() > 0
        invariant
            moved@.len() <= all.len(),
            target == all.map_values(|x: (Seq<char>, Seq<char>)| (x.0, x.1, 0usize)),
            forall|k: int|
                0 <= k < moved@.len() ==> (#[trigger] moved@[k])@ == target[all.len() - 1 - k],
            views(f.locals@) == m.locals + target.take(all.len() - moved@.len()),
            f.margs@.len() == n,
            views(f.margs@) == m.margs.take(n as int),
            f@ == (FunctionModel { margs: views(f.margs@), locals: views(f.locals@), ..m }),
        decreases moved@.len(),
    {
        let ghost before = f.locals@;
        let ghost k = moved@.len() as int;
        let last: Option<(String, Type, usize)> = moved.pop();
        if let Some(x) = last {
            let ghost v = x@;
            assert(v == target[all.len() - k]);
            f.locals.push(x);
            assert(views(f.locals@) =~= views(before).push(v));
        }
        assert(target.take(all.len() - k + 1) =~= target.take(all.len() - k).push(
            target[all.len() - k],
        ));
        assert(views(f.locals@) =~= m.locals + target.take(all.len() - moved@.len()));
    }
    assert(target.take(all.len() as int) =~= target);
    assert(f@ == ended_function(m));
}

fn do_lines_agree(lines: &Vec<LineRecord>) -> (r: bool)
    ensures
        r == lines_agree(lines@),
{
    let mut i: usize = 0;
    while i < lines.len()
        invariant
            i <= lines@.len(),
            forall|k: int|
                0 <= k < i ==> (#[trigger] lines@[k]).file@ == lines@[0].file@
                    && lines@[k].rva is Some,
        decreases lines.len() - i,
    {
        if !(lines[i].file == lines[0].file) || lines[i].rva.is_none() {
            let ghost bad = lines@[i as int];
            assert(!(bad.file@ == lines@[0].file@ && bad.rva is Some));
            return false;
        }
        i = i + 1;
    }
    true
}

impl Builder {
    /// The state before the first symbol.
    pub fn new(module_id: usize, flags: GenFlags) -> (r: Builder)
        ensures
            r@ == start(module_id, flags),
    {
        let b: Builder = Builder {
            module_id,
            module: Module { files: Vec::new(), typedefs: Vec::new() },
            function: Function::new(flags),
            filename: owned(""),
            depth: 0,
        };
        assert(b@.module.files =~= Seq::empty());
        assert(b@.module.typedefs =~= Seq::empty());
        b
    }

    /// Whether `symbol` can stand here.
    pub fn is_acceptable(&self, symbol: &Symbol) -> (r: bool)
        ensures
            r == accepts(self@, *symbol),
    {
        reveal(accepts);
        match symbol {
            Symbol::Procedure(p) => {
                if self.depth != 0 {
                    return false;
                }
                if !do_lines_agree(&p.lines) {
                    return false;
                }
                p.lines.len() == 0 || p.type_index == 0 || p.rva.is_some()
            },
            Symbol::BasePointerRelative { ty, .. } => self.depth < 1 || can_write(ty),
            Symbol::Register { ty, .. } => self.depth < 1 || can_write(ty),
            Symbol::Constant { ty, .. } => self.depth < 1 || can_write(ty),
            Symbol::Data { ty, .. } => self.depth < 1 || can_write(ty),
            Symbol::Block { rva } => self.depth < 1 || rva.is_some(),
            Symbol::UserDefinedType { name, ty } => {
                let v: Vec<char> = chars_of(name.as_str());
                if v.len() == 0 {
                    return false;
                }
                (self.depth == 0 && !is_kept_typedef(name.as_str())) || (can_typedef_template(
                    name.as_str(),
                ) && can_write(ty))
            },
            Symbol::CallSiteInfo { rva, ty } => rva.is_some() && can_write(ty),
            _ => true,
        }
    }

    fn begin_function(&mut self, p: &ProcedureRecord) -> (r: Result<(), String>)
        requires
            old(self).depth == 0,
            lines_agree(p.lines@),
            p.lines@.len() > 0 && p.type_index != 0 ==> p.rva is Some,
        ensures
            match r {
                Ok(_) => after_procedure(old(self)@, *p) == Ok::<BuilderModel, Seq<char>>(
                    final(self)@,
                ),
                Err(e) => after_procedure(old(self)@, *p) == Err::<BuilderModel, Seq<char>>(e@)
                    && final(self)@ == old(self)@,
            },
    {
        if p.lines.len() == 0 || p.type_index == 0 {
            self.depth = self.depth + 1;
            return Ok(());
        }
        match &p.signature {
            Err(e) => Err(e.clone()),
            Ok((name_orig, fn_t)) => {
                let mut f: Function = Function::new(self.function.flags);
                f.module_id = self.module_id;
                f.type_index = p.type_index;
                f.name_orig = name_orig.clone();
                f.namespace = Namespace::get_from_class_name_impl(fn_t.name.as_str());
                f.fn_t = fn_t.copy();
                if let FunctionLocation::Header = FunctionLocation::get(p.lines[0].file.as_str()) {
                    f.fn_t.attrs.is_inline = true;
                }
                f.offset = match p.rva {
                    Some(x) => x,
                    None => 0,
                };
                f.proc_start = p.lines[0].line_start;
                f.proc_end = p.lines[p.lines.len() - 1].line_start;
                f.statements = statements_from(&p.lines);
                assert(f@ == begun_function(old(self)@, *p, name_orig@, fn_t@));
                self.function = f;
                self.filename = p.lines[0].file.clone();
                self.depth = self.depth + 1;
                Ok(())
            },
        }
    }

    fn end_scope(&mut self)
        ensures
            final(self)@ == after_scope_end(old(self)@),
    {
        if self.depth == 1 {
            let flags: GenFlags = self.function.flags;
            let mut fun: Function = Function::new(flags);
            std::mem::swap(&mut fun, &mut self.function);
            let mut name: String = owned("");
            std::mem::swap(&mut name, &mut self.filename);
            end_function(&mut fun);
            insert_in_file(&mut self.module.files, name, fun);
            self.depth = 0;
        } else if self.depth > 0 {
            self.depth = self.depth - 1;
        } else {
            self.depth = 0;
        }
    }

    fn add_variable(&mut self, name: &String, ty: &String, is_arg: bool)
        requires
            old(self).depth >= 1,
            can_name_templates(ty@),
        ensures
            final(self)@ == with_variable(old(self)@, name@, ty@, is_arg),
    {
        let t: Type = Type::new(ty.as_str(), &self.function.namespace);
        if self.function.locals.len() == 0 && same(name.as_str(), "this") {
        } else if is_arg {
            self.function.margs.push((name.clone(), t));
            assert(views(self.function.margs@) =~= old(self)@.function.margs.push((name@, t@)));
        } else {
            let scope: usize = (self.depth - 1) as usize;
            self.function.locals.push((name.clone(), t, scope));
            assert(views(self.function.locals@) =~= old(self)@.function.locals.push(
                (name@, t@, scope),
            ));
        }
    }

    fn open_block(&mut self, rva: u32)
        requires
            1 <= old(self).depth < i32::MAX,
        ensures
            final(self)@ == after_block(old(self)@, rva),
    {
        match find_statement(&self.function.statements, rva) {
            Some(i) => {
                let mut s: Statement = self.function.statements[i];
                s.depth = self.depth;
                self.function.statements[i] = s;
            },
            None => {
                self.function.blocks.push((rva, self.depth));
            },
        }
        self.depth = self.depth + 1;
    }

    /// Takes in one more symbol. What a formatter could not make is an error, and
    /// nothing changes.
    pub fn step(&mut self, symbol: &Symbol) -> (r: Result<(), String>)
        requires
            accepts(old(self)@, *symbol),
            old(self).depth < i32::MAX,
        ensures
            match r {
                Ok(_) => after(old(self)@, *symbol) == Ok::<BuilderModel, Seq<char>>(final(self)@),
                Err(e) => after(old(self)@, *symbol) == Err::<BuilderModel, Seq<char>>(e@)
                    && final(self)@ == old(self)@,
            },
    {
        reveal(accepts);
        reveal(after);
        match symbol {
            Symbol::Procedure(p) => self.begin_function(p),
            Symbol::ScopeEnd => {
                self.end_scope();
                Ok(())
            },
            Symbol::BasePointerRelative { offset, name, ty } => {
                if self.depth < 1 {
                    return Ok(());
                }
                match ty {
                    Err(e) => Err(e.clone()),
                    Ok(t) => {
                        self.add_variable(name, t, *offset >= 0);
                        Ok(())
                    },
                }
            },
            Symbol::Register { name, ty } => {
                if self.depth < 1 {
                    return Ok(());
                }
                match ty {
                    Err(e) => Err(e.clone()),
                    Ok(t) => {
                        self.add_variable(name, t, true);
                        Ok(())
                    },
                }
            },
            Symbol::Constant { name, ty, value } => {
                if self.depth < 1 {
                    return Ok(());
                }
                match ty {
                    Err(e) => Err(e.clone()),
                    Ok(t) => {
                        self.add_constant(name, t, *value);
                        Ok(())
                    },
                }
            },
            Symbol::Data { name, ty, rva } => {
                if self.depth < 1 {
                    return Ok(());
                }
                match ty {
                    Err(e) => Err(e.clone()),
                    Ok(t) => {
                        self.add_static(name, t, *rva);
                        Ok(())
                    },
                }
            },
            Symbol::FrameProcedure => Ok(()),
            Symbol::Block { rva } => {
                if self.depth < 1 {
                    return Ok(());
                }
                if let Some(x) = rva {
                    self.open_block(*x);
                }
                Ok(())
            },
            Symbol::UserDefinedType { name, ty } => {
                if self.depth == 0 && !is_kept_typedef(name.as_str()) {
                    return Ok(());
                }
                match ty {
                    Err(e) => Err(e.clone()),
                    Ok(t) => {
                        self.add_typedef(name, t);
                        Ok(())
                    },
                }
            },
            Symbol::CallSiteInfo { rva, ty } => match ty {
                Err(e) => Err(e.clone()),
                Ok(t) => {
                    if let Some(x) = rva {
                        self.add_callsite(*x, t);
                    }
                    Ok(())
                },
            },
            Symbol::Other { text } => {
                if self.depth != 0 {
                    self.add_symbol(text);
                }
                Ok(())
            },
        }
    }

    fn add_constant(&mut self, name: &String, ty: &String, value: ConstantValue)
        requires
            can_name_templates(ty@),
        ensures
            final(self)@ == with_constant(old(self)@, name@, ty@, value),
    {
        let t: Type = Type::new(ty.as_str(), &self.function.namespace);
        let ghost before = self@.function.constants;
        self.function.constants.push((name.clone(), t, value));
        assert(views(self.function.constants@) =~= before.push((name@, t@, value)));
    }

    fn add_static(&mut self, name: &String, ty: &String, rva: Option<u32>)
        requires
            can_name_templates(ty@),
        ensures
            final(self)@ == with_static(old(self)@, name@, ty@, rva),
    {
        let t: Type = Type::new(ty.as_str(), &self.function.namespace);
        let at: u32 = match rva {
            Some(x) => x,
            None => 0,
        };
        let ghost before = self@.function.statics;
        self.function.statics.push((name.clone(), t, at));
        assert(views(self.function.statics@) =~= before.push((name@, t@, at)));
    }

    fn add_typedef(&mut self, name: &String, ty: &String)
        requires
            can_name_templates(name@),
            can_name_templates(ty@),
        ensures
            final(self)@ == with_typedef(old(self)@, name@, ty@),
    {
        let n: Type = Type::new(name.as_str(), &self.function.namespace);
        let t: Type = Type::new(ty.as_str(), &self.function.namespace);
        if self.depth != 0 {
            let ghost before = self@.function.typedefs;
            self.function.typedefs.push((t, n));
            assert(views(self.function.typedefs@) =~= before.push((t@, n@)));
        } else {
            insert_typedef(&mut self.module.typedefs, (t, n));
        }
    }

    fn add_callsite(&mut self, rva: u32, ty: &String)
        requires
            can_name_templates(ty@),
        ensures
            final(self)@ == with_callsite(old(self)@, rva, ty@),
    {
        let t: Type = Type::new(ty.as_str(), &self.function.namespace);
        let ghost before = self@.function.callsites;
        self.function.callsites.push((rva, t));
        assert(views(self.function.callsites@) =~= before.push((rva, t@)));
    }

    fn add_symbol(&mut self, text: &String)
        ensures
            final(self)@ == with_symbol(old(self)@, text@),
    {
        let ghost before = self@.function.symbols;
        self.function.symbols.push(text.clone());
        assert(texts(self.function.symbols@) =~= before.push(text@));
    }
}

fn can_write(ty: &Result<String, String>) -> (r: bool)
    ensures
        r == writable(*ty),
{
    match ty {
        Ok(s) => can_typedef_template(s.as_str()),
        Err(_) => true,
    }
}

proof fn lemma_depth_bound(module_id: usize, flags: GenFlags, symbols: Seq<Symbol>, n: int)
    requires
        0 <= n <= symbols.len(),
        n <= i32::MAX,
        accepts_all(module_id, flags, symbols, n),
    ensures
        after_all(module_id, flags, symbols, n) matches Ok(s) ==> 0 <= s.depth <= n,
    decreases n,
{
    if n > 0 {
        lemma_depth_bound(module_id, flags, symbols, n - 1);
        if let Ok(s) = after_all(module_id, flags, symbols, n - 1) {
            lemma_depth_after(s, symbols[n - 1]);
        }
    }
}

proof fn lemma_depth_after(s: BuilderModel, symbol: Symbol)
    requires
        0 <= s.depth < i32::MAX,
    ensures
        after(s, symbol) matches Ok(r) ==> 0 <= r.depth <= s.depth + 1,
{
    reveal(after);
}

proof fn lemma_error_stays(
    module_id: usize,
    flags: GenFlags,
    symbols: Seq<Symbol>,
    i: int,
    n: int,
    e: Seq<char>,
)
    requires
        0 <= i <= n,
        after_all(module_id, flags, symbols, i) == Err::<BuilderModel, Seq<char>>(e),
    ensures
        after_all(module_id, flags, symbols, n) == Err::<BuilderModel, Seq<char>>(e),
    decreases n - i,
{
    if i < n {
        assert(after_all(module_id, flags, symbols, i + 1) == Err::<BuilderModel, Seq<char>>(e));
        lemma_error_stays(module_id, flags, symbols, i + 1, n, e);
    }
}

proof fn lemma_accepts_prefix(
    module_id: usize,
    flags: GenFlags,
    symbols: Seq<Symbol>,
    i: int,
    n: int,
)
    requires
        0 <= i <= n,
        accepts_all(module_id, flags, symbols, n),
    ensures
        accepts_all(module_id, flags, symbols, i),
    decreases n - i,
{
    if i < n {
        lemma_accepts_prefix(module_id, flags, symbols, i, n - 1);
    }
}

impl Module {
    /// Gathers the functions of a module from its symbols, by source file and
    /// first line, and the types that it names. The first thing that the formatter
    /// could not make is the error.
    pub fn build(module_id: usize, flags: GenFlags, symbols: &Vec<Symbol>) -> (r: Result<
        Module,
        String,
    >)
        requires
            symbols@.len() <= i32::MAX,
            accepts_all(module_id, flags, symbols@, symbols@.len() as int),
        ensures
            match r {
                Ok(m) => after_all(module_id, flags, symbols@, symbols@.len() as int) matches Ok(s)
                    && m@ == s.module,
                Err(e) => after_all(module_id, flags, symbols@, symbols@.len() as int) == Err::<
                    BuilderModel,
                    Seq<char>,
                >(e@),
            },
    {
        let mut b: Builder = Builder::new(module_id, flags);
        let mut i: usize = 0;
        while i < symbols.len()
            invariant
                i <= symbols@.len() <= i32::MAX,
                accepts_all(module_id, flags, symbols@, symbols@.len() as int),
                after_all(module_id, flags, symbols@, i as int) == Ok::<BuilderModel, Seq<char>>(
                    b@,
                ),
            decreases symbols.len() - i,
        {
            proof {
                lemma_accepts_prefix(module_id, flags, symbols@, i + 1, symbols@.len() as int);
                lemma_accepts_prefix(module_id, flags, symbols@, i as int, symbols@.len() as int);
                lemma_depth_bound(module_id, flags, symbols@, i as int);
            }
            let ghost before = b@;
            let outcome: Result<(), String> = b.step(&symbols[i]);
            if let Err(e) = outcome {
                proof {
                    lemma_error_stays(
                        module_id,
                        flags,
                        symbols@,
                        i + 1,
                        symbols@.len() as int,
                        e@,
                    );
                }
                return Err(e);
            }
            i = i + 1;
        }
        Ok(b.module)
    }

    /// Whether the symbols of a module can stand as they stand.
    pub fn can_build(module_id: usize, flags: GenFlags, symbols: &Vec<Symbol>) -> (r: bool)
        requires
            symbols@.len() <= i32::MAX,
        ensures
            r == accepts_all(module_id, flags, symbols@, symbols@.len() as int),
    {
        let mut b: Builder = Builder::new(module_id, flags);
        let mut i: usize = 0;
        while i < symbols.len()
            invariant
                i <= symbols@.len() <= i32::MAX,
                accepts_all(module_id, flags, symbols@, i as int),
                after_all(module_id, flags, symbols@, i as int) == Ok::<BuilderModel, Seq<char>>(
                    b@,
                ),
            decreases symbols.len() - i,
        {
            proof {
                lemma_depth_bound(module_id, flags, symbols@, i as int);
            }
            if !b.is_acceptable(&symbols[i]) {
                proof {
                    if accepts_all(module_id, flags, symbols@, symbols@.len() as int) {
                        lemma_accepts_prefix(
                            module_id,
                            flags,
                            symbols@,
                            i + 1,
                            symbols@.len() as int,
                        );
                    }
                }
                return false;
            }
            let outcome: Result<(), String> = b.step(&symbols[i]);
            if let Err(e) = outcome {
                proof {
                    lemma_accepts_after_error(
                        module_id,
                        flags,
                        symbols@,
                        i + 1,
                        symbols@.len() as int,
                        e@,
                    );
                }
                return true;
            }
            i = i + 1;
        }
        true
    }
}

proof fn lemma_accepts_after_error(
    module_id: usize,
    flags: GenFlags,
    symbols: Seq<Symbol>,
    i: int,
    n: int,
    e: Seq<char>,
)
    requires
        0 <= i <= n,
        accepts_all(module_id, flags, symbols, i),
        after_all(module_id, flags, symbols, i) == Err::<BuilderModel, Seq<char>>(e),
    ensures
        accepts_all(module_id, flags, symbols, n),
    decreases n - i,
{
    if i < n {
        assert(after_all(module_id, flags, symbols, i + 1) == Err::<BuilderModel, Seq<char>>(e));
        assert(accepts_all(module_id, flags, symbols, i + 1));
        lemma_accepts_after_error(module_id, flags, symbols, i + 1, n, e);
    }
}

} // verus!
