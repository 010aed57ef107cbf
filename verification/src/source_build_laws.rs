//! What holds of the functions that the symbols of a module tell of.

use crate::gen_sources::{after, after_all, ended_function, kept_typedef, put_function, put_in_file,
    put_typedef, statement_at, typedef_le, BuilderModel, FileModel, ProcedureRecord, Symbol};
use crate::order::{inserted, text_le};
use crate::paths::FunctionLocation;
use crate::source_function::{ConstantValue, FunctionModel, GenFlags, Statement};
use crate::type_builder::name_within;
use vstd::prelude::*;

verus! {

// ---------------------------------------------------------------------------
// Procedures
// ---------------------------------------------------------------------------

/// A procedure with lines and a type begins a function: it has the address and the type of
/// the record, begins on the first and ends on the last of the lines, and has a statement for
/// each line, at its address, in order. It is inline where its file is a header. Nothing else
/// is known of it yet.
pub proof fn lemma_procedure_begins_a_function(s: BuilderModel, p: ProcedureRecord)
    requires
        p.lines@.len() > 0,
        p.type_index != 0,
        p.signature is Ok,
        p.rva is Some,
    ensures
        after(s, Symbol::Procedure(p)) matches Ok(t) && {
            let f = t.function;
            &&& t.filename == p.lines@[0].file@
            &&& t.module == s.module
            &&& f.offset == p.rva->0
            &&& f.type_index == p.type_index
            &&& f.module_id == s.module_id
            &&& f.name_orig == p.signature->Ok_0.0@
            &&& f.fn_t.name == p.signature->Ok_0.1@.name
            &&& f.fn_t.arg_types == p.signature->Ok_0.1@.arg_types
            &&& f.fn_t.return_type == p.signature->Ok_0.1@.return_type
            &&& f.fn_t.attrs.is_inline <==> p.signature->Ok_0.1@.attrs.is_inline
                || FunctionLocation::of(p.lines@[0].file@) is Header
            &&& f.fn_t.attrs.is_const == p.signature->Ok_0.1@.attrs.is_const
            &&& f.proc_start == p.lines@[0].line_start
            &&& f.proc_end == p.lines@[p.lines@.len() - 1].line_start
            &&& f.statements.len() == p.lines@.len()
            &&& forall|i: int|
                0 <= i < p.lines@.len() ==> (#[trigger] f.statements[i]).rva == p.lines@[i].rva->0
                    && f.statements[i].line_start == p.lines@[i].line_start
                    && f.statements[i].depth == 0
            &&& f.margs.len() == 0 && f.locals.len() == 0 && f.constants.len() == 0
            &&& f.statics.len() == 0 && f.blocks.len() == 0 && f.typedefs.len() == 0
            &&& f.callsites.len() == 0 && f.symbols.len() == 0
        },
{
    reveal(after);
}

/// A procedure without lines or without a type begins no function.
pub proof fn lemma_procedure_without_lines(s: BuilderModel, p: ProcedureRecord)
    requires
        p.lines@.len() == 0 || p.type_index == 0,
    ensures
        after(s, Symbol::Procedure(p)) matches Ok(t) && t.function == s.function && t.module
            == s.module && t.filename == s.filename,
{
    reveal(after);
}

// ---------------------------------------------------------------------------
// What a function records
// ---------------------------------------------------------------------------

/// Inside a function a variable beside the frame pointer is an argument where it stands at or
/// behind it, and a local with the number of its scope where it stands before it. The `this`
/// of a method is neither, where no local came before it.
pub proof fn lemma_variable_is_argument_or_local(
    s: BuilderModel,
    offset: i32,
    name: String,
    ty: String,
)
    requires
        s.depth >= 1,
    ensures
        after(
            s,
            Symbol::BasePointerRelative { offset, name, ty: Ok(ty) },
        ) matches Ok(t) && {
            let n = name_within(ty@, s.function.namespace);
            &&& t.module == s.module && t.depth == s.depth
            &&& name@ == "this"@ && s.function.locals.len() == 0 ==> t == s
            &&& (name@ != "this"@ || s.function.locals.len() > 0) && offset >= 0 ==> t.function == (
            FunctionModel { margs: s.function.margs.push((name@, n)), ..s.function })
            &&& (name@ != "this"@ || s.function.locals.len() > 0) && offset < 0 ==> t.function == (
            FunctionModel {
                locals: s.function.locals.push((name@, n, (s.depth - 1) as usize)),
                ..s.function
            })
        },
{
    reveal(after);
}

/// Inside a function a variable in a register is taken for an argument, a constant for a
/// constant, data for a static, and what is of no known kind is kept as it is. Nothing else
/// of the function changes.
pub proof fn lemma_symbols_are_recorded(
    s: BuilderModel,
    name: String,
    ty: String,
    value: ConstantValue,
    rva: u32,
    text: String,
)
    requires
        s.depth >= 1,
    ensures
        ({
            let f = s.function;
            let n = name_within(ty@, f.namespace);
            &&& after(s, Symbol::Constant { name, ty: Ok(ty), value }) matches Ok(t) && t == (
            BuilderModel {
                function: FunctionModel { constants: f.constants.push((name@, n, value)), ..f },
                ..s
            })
            &&& after(s, Symbol::Data { name, ty: Ok(ty), rva: Some(rva) }) matches Ok(t) && t == (
            BuilderModel {
                function: FunctionModel { statics: f.statics.push((name@, n, rva)), ..f },
                ..s
            })
            &&& name@ != "this"@ ==> (after(s, Symbol::Register { name, ty: Ok(ty) }) matches Ok(t)
                && t == (BuilderModel {
                function: FunctionModel { margs: f.margs.push((name@, n)), ..f },
                ..s
            }))
            &&& after(s, Symbol::CallSiteInfo { rva: Some(rva), ty: Ok(ty) }) matches Ok(t) && t
                == (BuilderModel {
                function: FunctionModel { callsites: f.callsites.push((rva, n)), ..f },
                ..s
            })
            &&& after(s, Symbol::UserDefinedType { name, ty: Ok(ty) }) matches Ok(t) && t == (
            BuilderModel {
                function: FunctionModel {
                    typedefs: f.typedefs.push((n, name_within(name@, f.namespace))),
                    ..f
                },
                ..s
            })
            &&& after(s, Symbol::Other { text }) matches Ok(t) && t == (BuilderModel {
                function: FunctionModel { symbols: f.symbols.push(text@), ..f },
                ..s
            })
            &&& after(s, Symbol::FrameProcedure) == Ok::<BuilderModel, Seq<char>>(s)
        }),
{
    reveal(after);
}

proof fn lemma_statement_at(st: Seq<Statement>, rva: u32, from: int)
    requires
        0 <= from,
    ensures
        match statement_at(st, rva, from) {
            Some(i) => from <= i < st.len() && st[i].rva == rva && forall|k: int|
                from <= k < i ==> (#[trigger] st[k]).rva != rva,
            None => forall|k: int| from <= k < st.len() ==> (#[trigger] st[k]).rva != rva,
        },
    decreases st.len() - from,
{
    if from < st.len() && st[from].rva != rva {
        lemma_statement_at(st, rva, from + 1);
    }
}

/// A block inside a function opens at the first statement at its address, which takes the
/// number of open blocks; where there is none the block is kept with its address. No other
/// statement changes, and one more block is open.
pub proof fn lemma_block_opens_at_a_statement(s: BuilderModel, rva: u32)
    requires
        1 <= s.depth < i32::MAX,
    ensures
        after(s, Symbol::Block { rva: Some(rva) }) matches Ok(t) && {
            let f = s.function;
            let g = t.function;
            &&& t.depth == s.depth + 1
            &&& g.statements.len() == f.statements.len()
            &&& forall|i: int|
                0 <= i < f.statements.len() ==> (#[trigger] g.statements[i]).rva
                    == f.statements[i].rva && g.statements[i].line_start
                    == f.statements[i].line_start
            &&& forall|i: int|
                0 <= i < f.statements.len() && (#[trigger] f.statements[i]).rva == rva && (forall|
                    k: int,
                |
                    0 <= k < i ==> (#[trigger] f.statements[k]).rva != rva) ==> g.statements[i].depth
                    == s.depth && g.blocks == f.blocks
            &&& (forall|i: int| 0 <= i < f.statements.len() ==> (#[trigger] f.statements[i]).rva
                != rva) ==> g.statements == f.statements && g.blocks == f.blocks.push(
                (rva, s.depth),
            )
            &&& g.locals == f.locals && g.margs == f.margs
        },
{
    reveal(after);
    let f = s.function;
    lemma_statement_at(f.statements, rva, 0);
    assert forall|i: int|
        0 <= i < f.statements.len() && (#[trigger] f.statements[i]).rva == rva && (forall|k: int|
            0 <= k < i ==> (#[trigger] f.statements[k]).rva != rva) implies statement_at(
        f.statements,
        rva,
        0,
    ) == Some(i) by {
        let x = statement_at(f.statements, rva, 0)->0;
        if x < i {
            assert(f.statements[x].rva != rva);
        } else if i < x {
            assert(f.statements[i].rva != rva);
        }
    }
}

/// Outside all functions variables, constants, data, blocks and symbols of no known kind are
/// passed over.
pub proof fn lemma_nothing_is_recorded_outside(
    s: BuilderModel,
    offset: i32,
    name: String,
    ty: Result<String, String>,
    value: ConstantValue,
    rva: Option<u32>,
    text: String,
)
    requires
        s.depth == 0,
    ensures
        after(s, Symbol::BasePointerRelative { offset, name, ty }) == Ok::<
            BuilderModel,
            Seq<char>,
        >(s),
        after(s, Symbol::Register { name, ty }) == Ok::<BuilderModel, Seq<char>>(s),
        after(s, Symbol::Constant { name, ty, value }) == Ok::<BuilderModel, Seq<char>>(s),
        after(s, Symbol::Data { name, ty, rva }) == Ok::<BuilderModel, Seq<char>>(s),
        after(s, Symbol::Block { rva }) == Ok::<BuilderModel, Seq<char>>(s),
        after(s, Symbol::Other { text }) == Ok::<BuilderModel, Seq<char>>(s),
{
    reveal(after);
}

// ---------------------------------------------------------------------------
// The end of a function
// ---------------------------------------------------------------------------

/// What was recorded beyond the arguments that a function has are locals of its outermost
/// scope; no variable is lost.
pub proof fn lemma_no_variable_is_lost(f: FunctionModel)
    ensures
        ({
            let g = ended_function(f);
            &&& g.margs.len() + g.locals.len() == f.margs.len() + f.locals.len()
            &&& g.margs.len() <= f.fn_t.arg_types.len()
            &&& f.margs.len() <= f.fn_t.arg_types.len() ==> g.margs == f.margs && g.locals
                == f.locals
            &&& forall|i: int| 0 <= i < g.margs.len() ==> #[trigger] g.margs[i] == f.margs[i]
            &&& forall|i: int| 0 <= i < f.locals.len() ==> #[trigger] g.locals[i] == f.locals[i]
            &&& forall|i: int|
                f.fn_t.arg_types.len() <= i < f.margs.len() ==> g.locals[f.locals.len() + i
                    - f.fn_t.arg_types.len()] == ((#[trigger] f.margs[i]).0, f.margs[i].1, 0usize)
            &&& g.statements == f.statements && g.constants == f.constants && g.statics
                == f.statics && g.blocks == f.blocks
        }),
{
    let g = ended_function(f);
    if f.margs.len() <= f.fn_t.arg_types.len() {
        assert(g.margs =~= f.margs);
        assert(g.locals =~= f.locals);
    }
}

/// Whether functions stand by the lines that they begin on, none on the line of another.
pub open spec fn by_first_line(s: Seq<FunctionModel>) -> bool {
    forall|i: int, j: int|
        0 <= i < j < s.len() ==> (#[trigger] s[i]).proc_start < (#[trigger] s[j]).proc_start
}

proof fn lemma_put_function(s: Seq<FunctionModel>, f: FunctionModel)
    requires
        by_first_line(s),
    ensures
        by_first_line(put_function(s, f)),
        put_function(s, f).contains(f),
        forall|i: int|
            0 <= i < s.len() && (#[trigger] s[i]).proc_start != f.proc_start ==> put_function(
                s,
                f,
            ).contains(s[i]),
        forall|x: FunctionModel| #[trigger]
            put_function(s, f).contains(x) ==> x == f || s.contains(x),
        s.len() > 0 ==> put_function(s, f).last().proc_start >= s.last().proc_start,
        s.len() > 0 && s.last().proc_start > f.proc_start ==> put_function(s, f).last() == s.last(),
        s.len() == 0 || s.last().proc_start <= f.proc_start ==> put_function(s, f).last() == f,
        put_function(s, f).len() > 0,
    decreases s.len(),
{
    let all = put_function(s, f);
    if s.len() == 0 || s.last().proc_start < f.proc_start {
        assert(all[s.len() as int] == f);
        assert forall|i: int| 0 <= i < s.len() && (#[trigger] s[i]).proc_start != f.proc_start
            implies all.contains(s[i]) by {
            assert(all[i] == s[i]);
        }
        assert forall|i: int, j: int| 0 <= i < j < all.len() implies (#[trigger] all[i]).proc_start
            < (#[trigger] all[j]).proc_start by {
            if j == s.len() && i < s.len() - 1 {
                assert(s[i].proc_start < s[s.len() - 1].proc_start);
            }
        }
        assert forall|x: FunctionModel| #[trigger] all.contains(x) implies x == f || s.contains(
            x,
        ) by {
            let k = all.index_of(x);
            if k < s.len() {
                assert(s[k] == x);
            }
        }
    } else if s.last().proc_start == f.proc_start {
        let init = s.drop_last();
        assert(all == init.push(f));
        assert(all[init.len() as int] == f);
        assert forall|i: int| 0 <= i < s.len() && (#[trigger] s[i]).proc_start != f.proc_start
            implies all.contains(s[i]) by {
            assert(i < init.len());
            assert(all[i] == s[i]);
        }
        assert forall|i: int, j: int| 0 <= i < j < all.len() implies (#[trigger] all[i]).proc_start
            < (#[trigger] all[j]).proc_start by {
            assert(s[i].proc_start < s[j].proc_start);
        }
        assert forall|x: FunctionModel| #[trigger] all.contains(x) implies x == f || s.contains(
            x,
        ) by {
            let k = all.index_of(x);
            if k < init.len() {
                assert(s[k] == x);
            }
        }
    } else {
        let init = s.drop_last();
        assert forall|i: int, j: int| 0 <= i < j < init.len() implies (
        #[trigger] init[i]).proc_start < (#[trigger] init[j]).proc_start by {
            assert(s[i].proc_start < s[j].proc_start);
        }
        lemma_put_function(init, f);
        let inner = put_function(init, f);
        assert(all == inner.push(s.last()));
        let k = inner.index_of(f);
        assert(all[k] == f);
        assert forall|i: int| 0 <= i < s.len() && (#[trigger] s[i]).proc_start != f.proc_start
            implies all.contains(s[i]) by {
            if i < init.len() {
                assert(init[i] == s[i]);
                assert(inner.contains(init[i]));
                let j = inner.index_of(init[i]);
                assert(all[j] == s[i]);
            } else {
                assert(all[inner.len() as int] == s[i]);
            }
        }
        assert forall|i: int, j: int| 0 <= i < j < all.len() implies (#[trigger] all[i]).proc_start
            < (#[trigger] all[j]).proc_start by {
            if j == inner.len() {
                assert(inner.contains(inner[i]));
                if inner[i] != f {
                    assert(init.contains(inner[i]));
                    let m = init.index_of(inner[i]);
                    assert(s[m].proc_start < s[s.len() - 1].proc_start);
                }
            }
        }
        assert forall|x: FunctionModel| #[trigger] all.contains(x) implies x == f || s.contains(
            x,
        ) by {
            let j = all.index_of(x);
            if j < inner.len() {
                assert(inner[j] == x);
                assert(inner.contains(x));
                if x != f {
                    let m = init.index_of(x);
                    assert(s[m] == x);
                }
            } else {
                assert(s[s.len() - 1] == x);
            }
        }
    }
}

/// A function is put among those of its file, which stand by the lines they begin on. It takes
/// the place of one that begins on the same line, and all others stay.
pub proof fn lemma_functions_stand_by_line(s: Seq<FunctionModel>, f: FunctionModel)
    requires
        by_first_line(s),
    ensures
        by_first_line(put_function(s, f)),
        put_function(s, f).contains(f),
        forall|i: int|
            0 <= i < s.len() && (#[trigger] s[i]).proc_start != f.proc_start ==> put_function(
                s,
                f,
            ).contains(s[i]),
        forall|x: FunctionModel| #[trigger]
            put_function(s, f).contains(x) ==> x == f || s.contains(x),
{
    lemma_put_function(s, f);
}

proof fn lemma_put_in_file(s: Seq<FileModel>, name: Seq<char>, f: FunctionModel)
    ensures
        exists|i: int|
            0 <= i < put_in_file(s, name, f).len() && (#[trigger] put_in_file(s, name, f)[i]).name
                == name && exists|old_functions: Seq<FunctionModel>|
                put_in_file(s, name, f)[i].functions == #[trigger] put_function(old_functions, f),
        forall|k: int|
            0 <= k < s.len() && (#[trigger] s[k]).name != name ==> put_in_file(
                s,
                name,
                f,
            ).contains(s[k]),
        put_in_file(s, name, f).len() <= s.len() + 1,
    decreases s.len(),
{
    let all = put_in_file(s, name, f);
    if s.len() == 0 {
        assert(all[0].functions == put_function(Seq::empty(), f));
    } else if s.last().name == name {
        let init = s.drop_last();
        assert(all[init.len() as int].functions == put_function(s.last().functions, f));
        assert forall|k: int| 0 <= k < s.len() && (#[trigger] s[k]).name != name implies
            all.contains(s[k]) by {
            assert(all[k] == s[k]);
        }
    } else if text_le(s.last().name, name) {
        assert(all[s.len() as int].functions == put_function(Seq::empty(), f));
        assert forall|k: int| 0 <= k < s.len() && (#[trigger] s[k]).name != name implies
            all.contains(s[k]) by {
            assert(all[k] == s[k]);
        }
    } else {
        let init = s.drop_last();
        lemma_put_in_file(init, name, f);
        let inner = put_in_file(init, name, f);
        assert(all == inner.push(s.last()));
        let i = choose|i: int|
            0 <= i < inner.len() && (#[trigger] inner[i]).name == name && exists|
                old_functions: Seq<FunctionModel>,
            | inner[i].functions == #[trigger] put_function(old_functions, f);
        assert(all[i] == inner[i]);
        assert forall|k: int| 0 <= k < s.len() && (#[trigger] s[k]).name != name implies
            all.contains(s[k]) by {
            if k < init.len() {
                assert(init[k] == s[k]);
                assert(inner.contains(init[k]));
                let j = inner.index_of(init[k]);
                assert(all[j] == s[k]);
            } else {
                assert(all[inner.len() as int] == s[k]);
            }
        }
    }
}

/// Whether a file of the given name has a function.
pub open spec fn file_has(s: Seq<FileModel>, name: Seq<char>, f: FunctionModel) -> bool {
    exists|i: int| 0 <= i < s.len() && (#[trigger] s[i]).name == name && s[i].functions.contains(f)
}

/// The end of the outermost scope puts the function into the file that it begins in, and
/// leaves the other files as they are. Inside, the end of a scope only closes it.
pub proof fn lemma_scope_end_records_the_function(s: BuilderModel)
    ensures
        s.depth == 1 ==> (after(s, Symbol::ScopeEnd) matches Ok(t) && {
            &&& t.depth == 0
            &&& t.module.typedefs == s.module.typedefs
            &&& (forall|i: int|
                0 <= i < s.module.files.len() ==> by_first_line(
                    (#[trigger] s.module.files[i]).functions,
                )) ==> file_has(t.module.files, s.filename, ended_function(s.function))
            &&& forall|k: int|
                0 <= k < s.module.files.len() && (#[trigger] s.module.files[k]).name != s.filename
                    ==> t.module.files.contains(s.module.files[k])
        }),
        s.depth > 1 ==> (after(s, Symbol::ScopeEnd) matches Ok(t) && t.depth == s.depth - 1
            && t.module == s.module && t.function == s.function),
{
    reveal(after);
    if s.depth == 1 {
        let f = ended_function(s.function);
        lemma_put_in_file(s.module.files, s.filename, f);
        if forall|i: int|
            0 <= i < s.module.files.len() ==> by_first_line(
                (#[trigger] s.module.files[i]).functions,
            ) {
            lemma_file_has(s.module.files, s.filename, f);
        }
    }
}

proof fn lemma_file_has(s: Seq<FileModel>, name: Seq<char>, f: FunctionModel)
    requires
        forall|i: int| 0 <= i < s.len() ==> by_first_line((#[trigger] s[i]).functions),
    ensures
        file_has(put_in_file(s, name, f), name, f),
        forall|i: int|
            0 <= i < put_in_file(s, name, f).len() ==> by_first_line(
                (#[trigger] put_in_file(s, name, f)[i]).functions,
            ),
    decreases s.len(),
{
    let all = put_in_file(s, name, f);
    lemma_put_function(Seq::empty(), f);
    if s.len() == 0 {
        assert(all[0].functions.contains(f));
    } else if s.last().name == name {
        assert(by_first_line(s[s.len() - 1].functions));
        lemma_put_function(s.last().functions, f);
        let init = s.drop_last();
        assert(all[init.len() as int].functions.contains(f));
        assert forall|i: int| 0 <= i < all.len() implies by_first_line(
            (#[trigger] all[i]).functions,
        ) by {
            if i < init.len() {
                assert(all[i] == s[i]);
            }
        }
    } else if text_le(s.last().name, name) {
        assert(all[s.len() as int].functions.contains(f));
        assert forall|i: int| 0 <= i < all.len() implies by_first_line(
            (#[trigger] all[i]).functions,
        ) by {
            if i < s.len() {
                assert(all[i] == s[i]);
            }
        }
    } else {
        let init = s.drop_last();
        assert forall|i: int| 0 <= i < init.len() implies by_first_line(
            (#[trigger] init[i]).functions,
        ) by {
            assert(init[i] == s[i]);
        }
        lemma_file_has(init, name, f);
        let inner = put_in_file(init, name, f);
        assert(all == inner.push(s.last()));
        let i = choose|i: int|
            0 <= i < inner.len() && (#[trigger] inner[i]).name == name
                && inner[i].functions.contains(f);
        assert(all[i] == inner[i]);
        assert forall|i: int| 0 <= i < all.len() implies by_first_line(
            (#[trigger] all[i]).functions,
        ) by {
            if i < inner.len() {
                assert(all[i] == inner[i]);
            } else {
                assert(all[i] == s[s.len() - 1]);
            }
        }
    }
}

/// In every state the functions of a file stand by the lines that they begin on.
pub proof fn lemma_files_stay_in_order(
    module_id: usize,
    flags: GenFlags,
    symbols: Seq<Symbol>,
    n: int,
)
    requires
        0 <= n <= symbols.len(),
    ensures
        after_all(module_id, flags, symbols, n) matches Ok(s) ==> forall|i: int|
            0 <= i < s.module.files.len() ==> by_first_line(
                (#[trigger] s.module.files[i]).functions,
            ),
    decreases n,
{
    if n > 0 {
        lemma_files_stay_in_order(module_id, flags, symbols, n - 1);
        if let Ok(s) = after_all(module_id, flags, symbols, n - 1) {
            reveal(after);
            if symbols[n - 1] is ScopeEnd && s.depth == 1 {
                lemma_file_has(s.module.files, s.filename, ended_function(s.function));
            }
        }
    }
}

/// Outside all functions a typedef that is kept is among those of the module, once, and one
/// that is not kept changes nothing.
pub proof fn lemma_typedefs_of_the_module(s: BuilderModel, name: String, ty: String)
    requires
        s.depth == 0,
    ensures
        after(s, Symbol::UserDefinedType { name, ty: Ok(ty) }) matches Ok(t) && {
            let pair = (
                name_within(ty@, s.function.namespace),
                name_within(name@, s.function.namespace),
            );
            &&& !kept_typedef(name@) ==> t == s
            &&& kept_typedef(name@) ==> t.module.typedefs.contains(pair) && t.module.files
                == s.module.files && t.function == s.function
            &&& kept_typedef(name@) && s.module.typedefs.contains(pair) ==> t == s
            &&& forall|i: int|
                0 <= i < s.module.typedefs.len() ==> t.module.typedefs.contains(
                    #[trigger] s.module.typedefs[i],
                )
        },
{
    reveal(after);
    let v = s.module.typedefs;
    let pair = (name_within(ty@, s.function.namespace), name_within(name@, s.function.namespace));
    let le = |a: (Seq<char>, Seq<char>), b: (Seq<char>, Seq<char>)| typedef_le(a, b);
    lemma_inserted_has_all(v, pair, le);
    assert forall|i: int| 0 <= i < v.len() implies v.contains(#[trigger] v[i]) by {}
    if v.contains(pair) {
        assert(put_typedef(v, pair) == v);
    } else {
        assert(put_typedef(v, pair) == inserted(
            v,
            pair,
            |a: (Seq<char>, Seq<char>), b: (Seq<char>, Seq<char>)| typedef_le(a, b),
        ));
    }
}

proof fn lemma_inserted_has_all<K>(s: Seq<K>, x: K, le: spec_fn(K, K) -> bool)
    ensures
        inserted(s, x, le).contains(x),
        forall|i: int| 0 <= i < s.len() ==> inserted(s, x, le).contains(#[trigger] s[i]),
    decreases s.len(),
{
    let w = inserted(s, x, le);
    if s.len() == 0 || le(s.last(), x) {
        assert(w[s.len() as int] == x);
        assert forall|i: int| 0 <= i < s.len() implies w.contains(#[trigger] s[i]) by {
            assert(w[i] == s[i]);
        }
    } else {
        let init = s.drop_last();
        lemma_inserted_has_all(init, x, le);
        let inner = inserted(init, x, le);
        let k = inner.index_of(x);
        assert(w[k] == x);
        assert forall|i: int| 0 <= i < s.len() implies w.contains(#[trigger] s[i]) by {
            if i < init.len() {
                assert(inner.contains(init[i]));
                let j = inner.index_of(init[i]);
                assert(w[j] == s[i]);
            } else {
                assert(w[inner.len() as int] == s[i]);
            }
        }
    }
}

} // verus!
