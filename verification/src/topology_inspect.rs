//! The procedures of a database that a query names, each with the records around
//! it, its line table, the types near its own, and the classes that declare it.

use crate::lcs::views;
use crate::number::{dec, decimal, hex, hexadecimal, pad_front, padded_front};
use crate::pieces::{cat2, cat3, cat4, cat9, lemma_texts_push};
use crate::search::{contains, has_part};
use crate::text::{lowercase, owned, texts, to_lowercase};
use crate::topology_classes::same_texts;
use crate::topology_records::{function_name, line_info, line_info_text, name_text, record_of,
    summarize_record, summarize_type, type_info_text, LineInfo, ProcedureInfo, Record, RecordModel,
    SymbolInfo, TypeInfo};
use crate::type_table::{ChainEnd, Field, FieldData, MethodItem, TypeError, TypeRecord, TypeTable};
use vstd::prelude::*;
use vstd::string::StringExecFns;

verus! {

/// A symbol with where it stands. One that could not be read is an error.
pub struct RawSymbol {
    pub index: u32,
    pub raw_kind: u16,
    pub raw_len: usize,
    pub starts_scope: bool,
    pub ends_scope: bool,
    pub data: Result<SymbolInfo, String>,
}

/// The symbols of a module. A module may have none of its own.
pub struct ModuleSymbols {
    pub module_name: String,
    pub object_file_name: String,
    pub symbols: Option<Vec<RawSymbol>>,
}

/// A procedure that was found.
#[derive(Debug)]
pub struct Match {
    pub module_id: usize,
    pub module_name: String,
    pub object_file_name: String,
    pub procedure_pos: usize,
    pub procedure_end: u32,
    pub procedure_type: u32,
    pub procedure_name: String,
    pub records: Vec<Record>,
    pub lines: Vec<String>,
    pub type_rows: Vec<String>,
    pub declaration_rows: Vec<String>,
}

/// A procedure that was found, as a model.
pub struct MatchModel {
    pub module_id: usize,
    pub module_name: Seq<char>,
    pub object_file_name: Seq<char>,
    pub procedure_pos: usize,
    pub procedure_end: u32,
    pub procedure_type: u32,
    pub procedure_name: Seq<char>,
    pub records: Seq<RecordModel>,
    pub lines: Seq<Seq<char>>,
    pub type_rows: Seq<Seq<char>>,
    pub declaration_rows: Seq<Seq<char>>,
}

impl View for Match {
    type V = MatchModel;

    open spec fn view(&self) -> MatchModel {
        MatchModel {
            module_id: self.module_id,
            module_name: self.module_name@,
            object_file_name: self.object_file_name@,
            procedure_pos: self.procedure_pos,
            procedure_end: self.procedure_end,
            procedure_type: self.procedure_type,
            procedure_name: self.procedure_name@,
            records: views(self.records@),
            lines: texts(self.lines@),
            type_rows: texts(self.type_rows@),
            declaration_rows: texts(self.declaration_rows@),
        }
    }
}

// ---------------------------------------------------------------------------
// One module
// ---------------------------------------------------------------------------

/// How many scopes are open before symbol `n`.
pub open spec fn open_scopes(s: Seq<RawSymbol>, n: int) -> int
    decreases n,
{
    if n <= 0 {
        0
    } else {
        let before = open_scopes(s, n - 1);
        let opened = if s[n - 1].starts_scope {
            before + 1
        } else {
            before
        };
        if s[n - 1].ends_scope && opened > 0 {
            opened - 1
        } else {
            opened
        }
    }
}

/// How deep symbol `i` stands: the end of a scope as deep as its beginning.
pub open spec fn symbol_depth(s: Seq<RawSymbol>, i: int) -> int {
    let d = open_scopes(s, i);
    if s[i].ends_scope && d > 0 {
        d - 1
    } else {
        d
    }
}

/// The record of symbol `i`.
pub open spec fn symbol_record(s: Seq<RawSymbol>, i: int) -> RecordModel {
    let x = s[i];
    let depth = symbol_depth(s, i) as usize;
    match x.data {
        Ok(info) => record_of(x.index, x.raw_kind, x.raw_len, depth, info),
        Err(e) => RecordModel {
            index: x.index,
            raw_kind: x.raw_kind,
            raw_len: x.raw_len,
            depth,
            kind: "Unparsed"@,
            detail: e@,
        },
    }
}

/// The records of all symbols of a module.
pub open spec fn symbol_records(s: Seq<RawSymbol>) -> Seq<RecordModel> {
    Seq::new(s.len(), |i: int| symbol_record(s, i))
}

/// The procedure that a symbol is, if its name holds `needle` in any letter case.
pub open spec fn found_procedure(x: RawSymbol, needle: Seq<char>) -> Option<ProcedureInfo> {
    match x.data {
        Ok(SymbolInfo::Procedure(p)) => if contains(
            lowercase(name_text(p.formatted, p.raw_name@)),
            needle,
        ) {
            Some(p)
        } else {
            None
        },
        _ => None,
    }
}

/// The lines of a line table in words.
pub open spec fn lines_text(lines: Seq<LineInfo>) -> Seq<Seq<char>> {
    lines.map_values(|l: LineInfo| line_info_text(l))
}

/// The match of a procedure at position `pos` of a module.
pub open spec fn match_of(
    module_id: usize,
    m: ModuleSymbols,
    s: Seq<RawSymbol>,
    pos: int,
    p: ProcedureInfo,
    lines: Seq<LineInfo>,
) -> MatchModel {
    MatchModel {
        module_id,
        module_name: m.module_name@,
        object_file_name: m.object_file_name@,
        procedure_pos: pos as usize,
        procedure_end: p.end,
        procedure_type: p.type_index,
        procedure_name: name_text(p.formatted, p.raw_name@),
        records: symbol_records(s),
        lines: lines_text(lines),
        type_rows: Seq::empty(),
        declaration_rows: Seq::empty(),
    }
}

/// The matches among the first `n` symbols of a module. A line table that cannot be
/// read is an error.
pub open spec fn matches_in(
    module_id: usize,
    m: ModuleSymbols,
    s: Seq<RawSymbol>,
    needle: Seq<char>,
    n: int,
) -> Result<Seq<MatchModel>, Seq<char>>
    decreases n,
{
    if n <= 0 {
        Ok(Seq::empty())
    } else {
        match matches_in(module_id, m, s, needle, n - 1) {
            Err(e) => Err(e),
            Ok(before) => match found_procedure(s[n - 1], needle) {
                None => Ok(before),
                Some(p) => match p.lines {
                    Err(e) => Err(e@),
                    Ok(lines) => Ok(before.push(match_of(module_id, m, s, n - 1, p, lines@))),
                },
            },
        }
    }
}

/// Whether a module is to be searched: its name or its object's holds `wanted`, in
/// any letter case.
pub open spec fn is_searched(m: ModuleSymbols, wanted: Option<Seq<char>>) -> bool {
    match wanted {
        Some(w) => contains(lowercase(m.module_name@ + "\n"@ + m.object_file_name@), w),
        None => true,
    }
}

/// The matches in the first `n` modules.
pub open spec fn matches_upto(
    modules: Seq<ModuleSymbols>,
    needle: Seq<char>,
    wanted: Option<Seq<char>>,
    n: int,
) -> Result<Seq<MatchModel>, Seq<char>>
    decreases n,
{
    if n <= 0 {
        Ok(Seq::empty())
    } else {
        match matches_upto(modules, needle, wanted, n - 1) {
            Err(e) => Err(e),
            Ok(before) => {
                let m = modules[n - 1];
                match m.symbols {
                    Some(s) => if is_searched(m, wanted) {
                        match matches_in((n - 1) as usize, m, s@, needle, s@.len() as int) {
                            Err(e) => Err(e),
                            Ok(more) => Ok(before + more),
                        }
                    } else {
                        Ok(before)
                    },
                    None => Ok(before),
                }
            },
        }
    }
}

// ---------------------------------------------------------------------------
// Types near a procedure's own
// ---------------------------------------------------------------------------

/// A type record with where it stands.
pub struct TypeRow {
    pub index: u32,
    pub raw_kind: u16,
    pub len: usize,
    pub info: TypeInfo,
}

/// A context as a number of type indices: the lower half of its bits.
pub open spec fn index_context(context: usize) -> int {
    context as int % 0x1_0000_0000
}

/// Whether a type stands within the context of another.
pub open spec fn is_near(index: u32, center: u32, context: usize) -> bool {
    let c = index_context(context);
    center - c <= index <= center + c
}

/// The line of a type, marked where it is the procedure's own.
pub open spec fn type_row_text(t: TypeRow, center: u32) -> Seq<char> {
    (if t.index == center {
        ">"@
    } else {
        " "@
    }) + " type=0x"@ + hex(t.index as nat) + " raw=0x"@ + pad_front(
        hex(t.raw_kind as nat),
        '0',
        4,
    ) + "/0x"@ + hex(t.len as nat) + " "@ + type_info_text(t.info)
}

/// The lines of those of the first `n` types that are near.
pub open spec fn near_rows(types: Seq<TypeRow>, center: u32, context: usize, n: int) -> Seq<
    Seq<char>,
>
    decreases n,
{
    if n <= 0 {
        Seq::empty()
    } else if is_near(types[n - 1].index, center, context) {
        near_rows(types, center, context, n - 1).push(type_row_text(types[n - 1], center))
    } else {
        near_rows(types, center, context, n - 1)
    }
}

// ---------------------------------------------------------------------------
// Declarations
// ---------------------------------------------------------------------------

/// An entry of a class's field lists; a method's type where it is one.
pub struct DeclarationModel {
    pub method_type: Option<u32>,
    pub text: Seq<char>,
}

/// An optional number as it is shown for debugging.
pub open spec fn option_text(n: Option<u32>) -> Seq<char> {
    match n {
        Some(v) => "Some("@ + dec(v as nat) + ")"@,
        None => "None"@,
    }
}

/// A method in a list of declarations.
pub open spec fn method_declaration(
    name: Seq<char>,
    m: MethodItem,
    suffix: Seq<char>,
) -> DeclarationModel {
    DeclarationModel {
        method_type: Some(m.method_type),
        text: "method "@ + name + " type=0x"@ + hex(m.method_type as nat) + " "@
            + m.attributes.method_text() + " vslot="@ + option_text(m.vtable_offset) + suffix,
    }
}

/// The declarations of the first `n` overloads.
pub open spec fn overload_declarations(
    name: Seq<char>,
    methods: Seq<MethodItem>,
    n: int,
) -> Seq<DeclarationModel>
    decreases n,
{
    if n <= 0 {
        Seq::empty()
    } else {
        overload_declarations(name, methods, n - 1).push(
            method_declaration(name, methods[n - 1], " [overload]"@),
        )
    }
}

/// The declarations that a field stands for. Only a missing list of overloads is an
/// error.
pub open spec fn field_declarations(t: TypeTable, f: Field) -> Result<
    Seq<DeclarationModel>,
    TypeError,
> {
    match f.data {
        FieldData::Method { name, item } => Ok(seq![method_declaration(name@, item, ""@)]),
        FieldData::OverloadedMethod { name, method_list } => match t.record_at(method_list) {
            None => Err(TypeError::Missing { index: method_list }),
            Some(TypeRecord::MethodList { methods }) => Ok(
                overload_declarations(name@, methods@, methods@.len() as int),
            ),
            Some(_) => Ok(
                seq![
                    DeclarationModel {
                        method_type: None,
                        text: "unresolved overload "@ + name@ + ": "@ + f.debug@,
                    },
                ],
            ),
        },
        _ => Ok(seq![DeclarationModel { method_type: None, text: f.debug@ }]),
    }
}

/// The declarations that the first `n` fields stand for.
pub open spec fn declarations_upto(t: TypeTable, fields: Seq<Field>, n: int) -> Result<
    Seq<DeclarationModel>,
    TypeError,
>
    decreases n,
{
    if n <= 0 {
        Ok(Seq::empty())
    } else {
        match declarations_upto(t, fields, n - 1) {
            Err(e) => Err(e),
            Ok(before) => match field_declarations(t, fields[n - 1]) {
                Err(e) => Err(e),
                Ok(more) => Ok(before + more),
            },
        }
    }
}

/// The declarations in the first `n` of some field lists.
pub open spec fn declarations_in(t: TypeTable, lists: Seq<u32>, n: int) -> Result<
    Seq<DeclarationModel>,
    TypeError,
>
    decreases n,
{
    if n <= 0 {
        Ok(Seq::empty())
    } else {
        match declarations_in(t, lists, n - 1) {
            Err(e) => Err(e),
            Ok(before) => {
                let f = t.fields_at(lists[n - 1]);
                match declarations_upto(t, f, f.len() as int) {
                    Err(e) => Err(e),
                    Ok(more) => Ok(before + more),
                }
            },
        }
    }
}

/// The declarations of a class whose fields begin with the list `first`. A missing
/// list is an error, one that cannot be read the end.
pub open spec fn class_declarations(t: TypeTable, first: u32) -> Result<
    Seq<DeclarationModel>,
    TypeError,
> {
    let (lists, end) = t.chain_of(first);
    match declarations_in(t, lists, lists.len() as int) {
        Err(e) => Err(e),
        Ok(d) => match end {
            ChainEnd::Missing { index } => Err(TypeError::Missing { index }),
            _ => Ok(d),
        },
    }
}

/// A class with its declarations.
pub struct OwnerModel {
    pub name: Seq<char>,
    pub declarations: Seq<DeclarationModel>,
}

/// The classes with fields among the first `n` records, with their declarations.
pub open spec fn owners_upto(t: TypeTable, n: int) -> Result<Seq<OwnerModel>, TypeError>
    decreases n,
{
    if n <= 0 {
        Ok(Seq::empty())
    } else {
        match owners_upto(t, n - 1) {
            Err(e) => Err(e),
            Ok(before) => match t.records@[n - 1] {
                TypeRecord::Class(c) => match (c.forward_reference, c.fields) {
                    (false, Some(first)) => match class_declarations(t, first) {
                        Err(e) => Err(e),
                        Ok(declarations) => Ok(
                            before.push(OwnerModel { name: c.name@, declarations }),
                        ),
                    },
                    _ => Ok(before),
                },
                _ => Ok(before),
            },
        }
    }
}

/// Where the context of position `p` begins.
pub open spec fn window_start(p: int, context: int) -> int {
    if p > context {
        p - context
    } else {
        0
    }
}

/// Where the context of position `p` ends.
pub open spec fn window_end(p: int, context: int, len: int) -> int {
    if p + context + 1 < len {
        p + context + 1
    } else {
        len
    }
}

/// The rows of the declarations from `lo` up to `hi` around position `p`.
pub open spec fn window_rows(o: OwnerModel, p: int, lo: int, hi: int) -> Seq<Seq<char>>
    decreases hi - lo,
{
    if hi <= lo {
        seq!["candidate owner: "@ + o.name]
    } else {
        window_rows(o, p, lo, hi - 1).push(
            (if hi - 1 == p {
                ">"@
            } else {
                " "@
            }) + " field#"@ + dec((hi - 1) as nat) + " "@ + o.declarations[hi - 1].text,
        )
    }
}

/// The rows on the declaration at position `p` of a class.
pub open spec fn candidate(o: OwnerModel, p: int, context: usize) -> Seq<Seq<char>> {
    window_rows(
        o,
        p,
        window_start(p, context as int),
        window_end(p, context as int, o.declarations.len() as int),
    )
}

/// A list with one more, unless it is there.
pub open spec fn with_new<T>(s: Seq<T>, x: T) -> Seq<T> {
    if s.contains(x) {
        s
    } else {
        s.push(x)
    }
}

/// Candidates, and those among the first `n` declarations of a class that have a
/// method's type.
pub open spec fn candidates_in(
    v: Seq<Seq<Seq<char>>>,
    o: OwnerModel,
    ty: u32,
    context: usize,
    n: int,
) -> Seq<Seq<Seq<char>>>
    decreases n,
{
    if n <= 0 {
        v
    } else {
        let before = candidates_in(v, o, ty, context, n - 1);
        if o.declarations[n - 1].method_type == Some(ty) {
            with_new(before, candidate(o, n - 1, context))
        } else {
            before
        }
    }
}

/// The candidates in the first `n` classes for a method's type.
pub open spec fn candidates(owners: Seq<OwnerModel>, ty: u32, context: usize, n: int) -> Seq<
    Seq<Seq<char>>,
>
    decreases n,
{
    if n <= 0 {
        Seq::empty()
    } else {
        candidates_in(
            candidates(owners, ty, context, n - 1),
            owners[n - 1],
            ty,
            context,
            owners[n - 1].declarations.len() as int,
        )
    }
}

/// The first `n` candidates one behind the other, an empty row between each two.
pub open spec fn candidate_rows(c: Seq<Seq<Seq<char>>>, n: int) -> Seq<Seq<char>>
    decreases n,
{
    if n <= 0 {
        Seq::empty()
    } else if n == 1 {
        c[0]
    } else {
        candidate_rows(c, n - 1).push(""@) + c[n - 1]
    }
}

/// Whether an earlier match is of the same type; the rows go to the first.
pub open spec fn is_taken(m: Seq<MatchModel>, i: int) -> bool {
    exists|k: int| 0 <= k < i && (#[trigger] m[k]).procedure_type == m[i].procedure_type
}

/// The rows on the declarations of match `i`.
pub open spec fn bound_rows(
    m: Seq<MatchModel>,
    owners: Seq<OwnerModel>,
    context: usize,
    i: int,
) -> Seq<Seq<char>> {
    if is_taken(m, i) {
        Seq::empty()
    } else {
        let c = candidates(owners, m[i].procedure_type, context, owners.len() as int);
        candidate_rows(c, c.len() as int)
    }
}

/// Match `i` with the types near its own and the classes that declare it.
pub open spec fn completed(
    m: Seq<MatchModel>,
    types: Seq<TypeRow>,
    owners: Seq<OwnerModel>,
    context: usize,
    i: int,
) -> MatchModel {
    MatchModel {
        type_rows: near_rows(types, m[i].procedure_type, context, types.len() as int),
        declaration_rows: bound_rows(m, owners, context, i),
        ..m[i]
    }
}

// ---------------------------------------------------------------------------

fn push_text(v: &mut Vec<String>, s: String)
    ensures
        texts(final(v)@) == texts(old(v)@).push(s@),
{
    proof {
        lemma_texts_push(v@, s);
    }
    v.push(s);
}

fn copy_records(v: &Vec<Record>) -> (r: Vec<Record>)
    ensures
        views(r@) == views(v@),
{
    let mut r: Vec<Record> = Vec::new();
    let mut i: usize = 0;
    while i < v.len()
        invariant
            i <= v@.len(),
            r@.len() == i,
            forall|k: int| 0 <= k < i ==> (#[trigger] r@[k])@ == v@[k]@,
        decreases v.len() - i,
    {
        r.push(v[i].copy());
        i = i + 1;
    }
    assert(views(r@) =~= views(v@));
    r
}

fn make_records(s: &Vec<RawSymbol>) -> (r: Vec<Record>)
    ensures
        views(r@) == symbol_records(s@),
{
    let mut r: Vec<Record> = Vec::new();
    let mut depth: usize = 0;
    let mut i: usize = 0;
    while i < s.len()
        invariant
            i <= s@.len(),
            depth <= i,
            depth == open_scopes(s@, i as int),
            r@.len() == i,
            forall|k: int| 0 <= k < i ==> (#[trigger] r@[k])@ == symbol_record(s@, k),
        decreases s.len() - i,
    {
        let x: &RawSymbol = &s[i];
        let at: usize = if x.ends_scope && depth > 0 {
            depth - 1
        } else {
            depth
        };
        let record: Record = match &x.data {
            Ok(info) => summarize_record(x.index, x.raw_kind, x.raw_len, at, info),
            Err(e) => Record {
                index: x.index,
                raw_kind: x.raw_kind,
                raw_len: x.raw_len,
                depth: at,
                kind: "Unparsed",
                detail: e.clone(),
            },
        };
        r.push(record);
        if x.starts_scope {
            depth = depth + 1;
        }
        if x.ends_scope && depth > 0 {
            depth = depth - 1;
        }
        i = i + 1;
    }
    assert(views(r@) =~= symbol_records(s@));
    r
}

/// Whether a procedure's name holds `needle`, which is in lower case.
pub fn is_selected(p: &ProcedureInfo, needle: &str) -> (r: bool)
    ensures
        r == contains(lowercase(name_text(p.formatted, p.raw_name@)), needle@),
{
    let name: String = function_name(&p.formatted, p.raw_name.as_str());
    has_part(to_lowercase(name.as_str()).as_str(), needle)
}

fn make_lines(lines: &Vec<LineInfo>) -> (r: Vec<String>)
    ensures
        texts(r@) == lines_text(lines@),
{
    let mut r: Vec<String> = Vec::new();
    let mut i: usize = 0;
    while i < lines.len()
        invariant
            i <= lines@.len(),
            r@.len() == i,
            forall|k: int| 0 <= k < i ==> (#[trigger] r@[k])@ == line_info_text(lines@[k]),
        decreases lines.len() - i,
    {
        r.push(line_info(&lines[i]));
        i = i + 1;
    }
    assert(texts(r@) =~= lines_text(lines@));
    r
}

proof fn lemma_matches_in_err(
    module_id: usize,
    m: ModuleSymbols,
    s: Seq<RawSymbol>,
    needle: Seq<char>,
    i: int,
    n: int,
    e: Seq<char>,
)
    requires
        0 < i <= n,
        matches_in(module_id, m, s, needle, i) == Err::<Seq<MatchModel>, Seq<char>>(e),
    ensures
        matches_in(module_id, m, s, needle, n) == Err::<Seq<MatchModel>, Seq<char>>(e),
    decreases n - i,
{
    if i < n {
        assert(matches_in(module_id, m, s, needle, i + 1) == Err::<Seq<MatchModel>, Seq<char>>(e));
        lemma_matches_in_err(module_id, m, s, needle, i + 1, n, e);
    }
}

fn inspect_module(module_id: usize, m: &ModuleSymbols, s: &Vec<RawSymbol>, needle: &str) -> (r: Result<
    Vec<Match>,
    String,
>)
    ensures
        match r {
            Ok(v) => matches_in(module_id, *m, s@, needle@, s@.len() as int) == Ok::<
                Seq<MatchModel>,
                Seq<char>,
            >(views(v@)),
            Err(e) => matches_in(module_id, *m, s@, needle@, s@.len() as int) == Err::<
                Seq<MatchModel>,
                Seq<char>,
            >(e@),
        },
{
    let records: Vec<Record> = make_records(s);
    let mut out: Vec<Match> = Vec::new();
    let mut i: usize = 0;
    assert(views(out@) =~= Seq::<MatchModel>::empty());
    while i < s.len()
        invariant
            i <= s@.len(),
            views(records@) == symbol_records(s@),
            matches_in(module_id, *m, s@, needle@, i as int) == Ok::<Seq<MatchModel>, Seq<char>>(
                views(out@),
            ),
        decreases s.len() - i,
    {
        if let Ok(SymbolInfo::Procedure(p)) = &s[i].data {
            if is_selected(p, needle) {
                match &p.lines {
                    Err(e) => {
                        proof {
                            lemma_matches_in_err(
                                module_id,
                                *m,
                                s@,
                                needle@,
                                i + 1,
                                s@.len() as int,
                                e@,
                            );
                        }
                        return Err(e.clone());
                    },
                    Ok(lines) => {
                        let type_rows: Vec<String> = Vec::new();
                        let declaration_rows: Vec<String> = Vec::new();
                        assert(texts(type_rows@) =~= Seq::<Seq<char>>::empty());
                        assert(texts(declaration_rows@) =~= Seq::<Seq<char>>::empty());
                        let one: Match = Match {
                            module_id,
                            module_name: m.module_name.clone(),
                            object_file_name: m.object_file_name.clone(),
                            procedure_pos: i,
                            procedure_end: p.end,
                            procedure_type: p.type_index,
                            procedure_name: function_name(&p.formatted, p.raw_name.as_str()),
                            records: copy_records(&records),
                            lines: make_lines(lines),
                            type_rows,
                            declaration_rows,
                        };
                        let ghost before = out@;
                        let ghost model = one@;
                        assert(model == match_of(module_id, *m, s@, i as int, *p, lines@));
                        out.push(one);
                        assert(views(out@) =~= views(before).push(model));
                    },
                }
            }
        }
        i = i + 1;
    }
    Ok(out)
}

/// Whether a module is to be searched. `wanted` is in lower case.
pub fn is_module_searched(m: &ModuleSymbols, wanted: Option<&str>) -> (r: bool)
    ensures
        r == is_searched(
            *m,
            match wanted {
                Some(w) => Some(w@),
                None => None,
            },
        ),
{
    match wanted {
        Some(w) => {
            let names: String = cat3(m.module_name.as_str(), "\n", m.object_file_name.as_str());
            has_part(to_lowercase(names.as_str()).as_str(), w)
        },
        None => true,
    }
}

proof fn lemma_matches_upto_err(
    modules: Seq<ModuleSymbols>,
    needle: Seq<char>,
    wanted: Option<Seq<char>>,
    i: int,
    n: int,
    e: Seq<char>,
)
    requires
        0 < i <= n,
        matches_upto(modules, needle, wanted, i) == Err::<Seq<MatchModel>, Seq<char>>(e),
    ensures
        matches_upto(modules, needle, wanted, n) == Err::<Seq<MatchModel>, Seq<char>>(e),
    decreases n - i,
{
    if i < n {
        assert(matches_upto(modules, needle, wanted, i + 1) == Err::<Seq<MatchModel>, Seq<char>>(
            e,
        ));
        lemma_matches_upto_err(modules, needle, wanted, i + 1, n, e);
    }
}

/// The procedures whose names hold `needle`, in the modules whose names hold
/// `wanted`; both are in lower case.
pub fn find_matches(modules: &Vec<ModuleSymbols>, needle: &str, wanted: Option<&str>) -> (r: Result<
    Vec<Match>,
    String,
>)
    ensures
        ({
            let w = match wanted {
                Some(w) => Some(w@),
                None => None,
            };
            match r {
                Ok(v) => matches_upto(modules@, needle@, w, modules@.len() as int) == Ok::<
                    Seq<MatchModel>,
                    Seq<char>,
                >(views(v@)),
                Err(e) => matches_upto(modules@, needle@, w, modules@.len() as int) == Err::<
                    Seq<MatchModel>,
                    Seq<char>,
                >(e@),
            }
        }),
{
    let ghost w = match wanted {
        Some(w) => Some(w@),
        None => None,
    };
    let mut out: Vec<Match> = Vec::new();
    let mut i: usize = 0;
    assert(views(out@) =~= Seq::<MatchModel>::empty());
    while i < modules.len()
        invariant
            w == (match wanted {
                Some(w) => Some(w@),
                None => None,
            }),
            i <= modules@.len(),
            matches_upto(modules@, needle@, w, i as int) == Ok::<Seq<MatchModel>, Seq<char>>(
                views(out@),
            ),
        decreases modules.len() - i,
    {
        let m: &ModuleSymbols = &modules[i];
        if is_module_searched(m, wanted) {
            if let Some(s) = &m.symbols {
                match inspect_module(i, m, s, needle) {
                    Ok(v) => {
                        let mut more: Vec<Match> = v;
                        let ghost before = out@;
                        let ghost added = more@;
                        out.append(&mut more);
                        assert(views(out@) =~= views(before) + views(added));
                    },
                    Err(e) => {
                        proof {
                            lemma_matches_upto_err(
                                modules@,
                                needle@,
                                w,
                                i + 1,
                                modules@.len() as int,
                                e@,
                            );
                        }
                        return Err(e);
                    },
                }
            }
        }
        i = i + 1;
    }
    Ok(out)
}

fn is_type_near(index: u32, center: u32, context: usize) -> (r: bool)
    ensures
        r == is_near(index, center, context),
{
    let c: u32 = (context as u64 % 0x1_0000_0000) as u32;
    let lo: u32 = center.saturating_sub(c);
    let hi: u32 = center.saturating_add(c);
    index >= lo && index <= hi
}

fn type_row_shown(t: &TypeRow, center: u32) -> (r: String)
    ensures
        r@ == type_row_text(*t, center),
{
    cat9(
        if t.index == center {
            ">"
        } else {
            " "
        },
        " type=0x",
        hexadecimal(t.index as u64).as_str(),
        " raw=0x",
        padded_front(hexadecimal(t.raw_kind as u64).as_str(), '0', 4).as_str(),
        "/0x",
        hexadecimal(t.len as u64).as_str(),
        " ",
        summarize_type(&t.info).as_str(),
    )
}

fn rows_near(types: &Vec<TypeRow>, center: u32, context: usize) -> (r: Vec<String>)
    ensures
        texts(r@) == near_rows(types@, center, context, types@.len() as int),
{
    let mut out: Vec<String> = Vec::new();
    let mut i: usize = 0;
    assert(texts(out@) =~= Seq::<Seq<char>>::empty());
    while i < types.len()
        invariant
            i <= types@.len(),
            texts(out@) == near_rows(types@, center, context, i as int),
        decreases types.len() - i,
    {
        if is_type_near(types[i].index, center, context) {
            push_text(&mut out, type_row_shown(&types[i], center));
        }
        i = i + 1;
    }
    out
}

/// An entry of a class's field lists.
struct Declaration {
    method_type: Option<u32>,
    text: String,
}

impl View for Declaration {
    type V = DeclarationModel;

    closed spec fn view(&self) -> DeclarationModel {
        DeclarationModel { method_type: self.method_type, text: self.text@ }
    }
}

/// A class with its declarations.
struct Owner {
    name: String,
    declarations: Vec<Declaration>,
}

impl View for Owner {
    type V = OwnerModel;

    closed spec fn view(&self) -> OwnerModel {
        OwnerModel { name: self.name@, declarations: views(self.declarations@) }
    }
}

fn option_shown(n: Option<u32>) -> (r: String)
    ensures
        r@ == option_text(n),
{
    match n {
        Some(v) => cat3("Some(", decimal(v as u64).as_str(), ")"),
        None => owned("None"),
    }
}

fn declare_method(name: &str, m: &MethodItem, suffix: &str) -> (r: Declaration)
    ensures
        r@ == method_declaration(name@, *m, suffix@),
{
    Declaration {
        method_type: Some(m.method_type),
        text: cat9(
            "method ",
            name,
            " type=0x",
            hexadecimal(m.method_type as u64).as_str(),
            " ",
            m.attributes.describe_method().as_str(),
            " vslot=",
            option_shown(m.vtable_offset).as_str(),
            suffix,
        ),
    }
}

fn push_declaration(v: &mut Vec<Declaration>, d: Declaration)
    ensures
        views(final(v)@) == views(old(v)@).push(d@),
        views(final(v)@) == views(old(v)@) + seq![d@],
{
    let ghost before = v@;
    let ghost m = d@;
    v.push(d);
    assert(views(v@) =~= views(before).push(m));
    assert(views(v@) =~= views(before) + seq![m]);
}

fn append_declarations(t: &TypeTable, f: &Field, out: &mut Vec<Declaration>) -> (r: Result<
    (),
    TypeError,
>)
    ensures
        match r {
            Ok(_) => field_declarations(*t, *f) matches Ok(more) && views(final(out)@) == views(
                old(out)@,
            ) + more,
            Err(e) => field_declarations(*t, *f) == Err::<Seq<DeclarationModel>, TypeError>(e),
        },
{
    match &f.data {
        FieldData::Method { name, item } => {
            push_declaration(out, declare_method(name.as_str(), item, ""));
            Ok(())
        },
        FieldData::OverloadedMethod { name, method_list } => match t.find(*method_list) {
            None => Err(TypeError::Missing { index: *method_list }),
            Some(TypeRecord::MethodList { methods }) => {
                let ghost start = views(out@);
                let mut i: usize = 0;
                assert(start + Seq::<DeclarationModel>::empty() =~= start);
                while i < methods.len()
                    invariant
                        i <= methods@.len(),
                        views(out@) == start + overload_declarations(name@, methods@, i as int),
                    decreases methods.len() - i,
                {
                    let d: Declaration = declare_method(name.as_str(), &methods[i], " [overload]");
                    let ghost m = d@;
                    push_declaration(out, d);
                    assert(views(out@) =~= start + overload_declarations(
                        name@,
                        methods@,
                        i as int,
                    ).push(m));
                    i = i + 1;
                }
                Ok(())
            },
            Some(_) => {
                push_declaration(
                    out,
                    Declaration {
                        method_type: None,
                        text: cat4("unresolved overload ", name.as_str(), ": ", f.debug.as_str()),
                    },
                );
                Ok(())
            },
        },
        _ => {
            push_declaration(out, Declaration { method_type: None, text: f.debug.clone() });
            Ok(())
        },
    }
}

proof fn lemma_declarations_upto_err(
    t: TypeTable,
    fields: Seq<Field>,
    i: int,
    n: int,
    e: TypeError,
)
    requires
        0 < i <= n,
        declarations_upto(t, fields, i) == Err::<Seq<DeclarationModel>, TypeError>(e),
    ensures
        declarations_upto(t, fields, n) == Err::<Seq<DeclarationModel>, TypeError>(e),
    decreases n - i,
{
    if i < n {
        assert(declarations_upto(t, fields, i + 1) == Err::<Seq<DeclarationModel>, TypeError>(e));
        lemma_declarations_upto_err(t, fields, i + 1, n, e);
    }
}

proof fn lemma_declarations_in_err(t: TypeTable, lists: Seq<u32>, i: int, n: int, e: TypeError)
    requires
        0 < i <= n,
        declarations_in(t, lists, i) == Err::<Seq<DeclarationModel>, TypeError>(e),
    ensures
        declarations_in(t, lists, n) == Err::<Seq<DeclarationModel>, TypeError>(e),
    decreases n - i,
{
    if i < n {
        assert(declarations_in(t, lists, i + 1) == Err::<Seq<DeclarationModel>, TypeError>(e));
        lemma_declarations_in_err(t, lists, i + 1, n, e);
    }
}

fn append_list(t: &TypeTable, list: u32, out: &mut Vec<Declaration>) -> (r: Result<(), TypeError>)
    ensures
        ({
            let f = t.fields_at(list);
            match r {
                Ok(_) => declarations_upto(*t, f, f.len() as int) matches Ok(more) && views(
                    final(out)@,
                ) == views(old(out)@) + more,
                Err(e) => declarations_upto(*t, f, f.len() as int) == Err::<
                    Seq<DeclarationModel>,
                    TypeError,
                >(e),
            }
        }),
{
    let ghost start = views(out@);
    assert(start + Seq::<DeclarationModel>::empty() =~= start);
    if let Some(TypeRecord::FieldList { fields, .. }) = t.find(list) {
        let ghost f = fields@;
        let mut i: usize = 0;
        while i < fields.len()
            invariant
                f == fields@,
                f == t.fields_at(list),
                i <= f.len(),
                declarations_upto(*t, f, i as int) matches Ok(more) && views(out@) == start + more,
            decreases fields.len() - i,
        {
            let ghost more = declarations_upto(*t, f, i as int)->Ok_0;
            match append_declarations(t, &fields[i], out) {
                Ok(_) => {
                    let ghost next = field_declarations(*t, f[i as int])->Ok_0;
                    assert(views(out@) =~= start + (more + next));
                },
                Err(e) => {
                    proof {
                        lemma_declarations_upto_err(*t, f, i + 1, f.len() as int, e);
                    }
                    return Err(e);
                },
            }
            i = i + 1;
        }
    }
    Ok(())
}

fn declarations_of(t: &TypeTable, first: u32) -> (r: Result<Vec<Declaration>, TypeError>)
    ensures
        match r {
            Ok(v) => class_declarations(*t, first) == Ok::<Seq<DeclarationModel>, TypeError>(
                views(v@),
            ),
            Err(e) => class_declarations(*t, first) == Err::<Seq<DeclarationModel>, TypeError>(e),
        },
{
    let (lists, end): (Vec<u32>, ChainEnd) = t.chain(first);
    let mut out: Vec<Declaration> = Vec::new();
    let mut i: usize = 0;
    assert(views(out@) =~= Seq::<DeclarationModel>::empty());
    while i < lists.len()
        invariant
            (lists@, end) == t.chain_of(first),
            i <= lists@.len(),
            declarations_in(*t, lists@, i as int) == Ok::<Seq<DeclarationModel>, TypeError>(
                views(out@),
            ),
        decreases lists.len() - i,
    {
        match append_list(t, lists[i], &mut out) {
            Ok(_) => {},
            Err(e) => {
                proof {
                    lemma_declarations_in_err(*t, lists@, i + 1, lists@.len() as int, e);
                }
                return Err(e);
            },
        }
        i = i + 1;
    }
    match end {
        ChainEnd::Missing { index } => Err(TypeError::Missing { index }),
        _ => Ok(out),
    }
}

proof fn lemma_owners_err(t: TypeTable, i: int, n: int, e: TypeError)
    requires
        0 < i <= n,
        owners_upto(t, i) == Err::<Seq<OwnerModel>, TypeError>(e),
    ensures
        owners_upto(t, n) == Err::<Seq<OwnerModel>, TypeError>(e),
    decreases n - i,
{
    if i < n {
        assert(owners_upto(t, i + 1) == Err::<Seq<OwnerModel>, TypeError>(e));
        lemma_owners_err(t, i + 1, n, e);
    }
}

fn find_owners(t: &TypeTable) -> (r: Result<Vec<Owner>, TypeError>)
    ensures
        match r {
            Ok(v) => owners_upto(*t, t.records@.len() as int) == Ok::<Seq<OwnerModel>, TypeError>(
                views(v@),
            ),
            Err(e) => owners_upto(*t, t.records@.len() as int) == Err::<Seq<OwnerModel>, TypeError>(
                e,
            ),
        },
{
    let mut out: Vec<Owner> = Vec::new();
    let mut i: usize = 0;
    assert(views(out@) =~= Seq::<OwnerModel>::empty());
    while i < t.records.len()
        invariant
            i <= t.records@.len(),
            owners_upto(*t, i as int) == Ok::<Seq<OwnerModel>, TypeError>(views(out@)),
        decreases t.records.len() - i,
    {
        if let TypeRecord::Class(c) = &t.records[i] {
            match (c.forward_reference, c.fields) {
                (false, Some(first)) => match declarations_of(t, first) {
                    Ok(declarations) => {
                        let o: Owner = Owner { name: c.name.clone(), declarations };
                        let ghost before = out@;
                        let ghost m = o@;
                        out.push(o);
                        assert(views(out@) =~= views(before).push(m));
                    },
                    Err(e) => {
                        proof {
                            lemma_owners_err(*t, i + 1, t.records@.len() as int, e);
                        }
                        return Err(e);
                    },
                },
                _ => {},
            }
        }
        i = i + 1;
    }
    Ok(out)
}

fn make_candidate(o: &Owner, p: usize, context: usize) -> (r: Vec<String>)
    requires
        p < o@.declarations.len(),
    ensures
        texts(r@) == candidate(o@, p as int, context),
{
    let len: usize = o.declarations.len();
    let lo: usize = p.saturating_sub(context);
    let hi: usize = if context >= len - p {
        len
    } else if p + context + 1 < len {
        p + context + 1
    } else {
        len
    };
    assert(lo == window_start(p as int, context as int));
    assert(hi == window_end(p as int, context as int, len as int));
    let ghost d = views(o.declarations@);
    let mut out: Vec<String> = Vec::new();
    push_text(&mut out, cat2("candidate owner: ", o.name.as_str()));
    assert(texts(out@) =~= seq!["candidate owner: "@ + o@.name]);
    let mut k: usize = lo;
    while k < hi
        invariant
            d == views(o.declarations@),
            d == o@.declarations,
            len == o.declarations@.len(),
            lo <= k <= hi <= len,
            texts(out@) == window_rows(o@, p as int, lo as int, k as int),
        decreases hi - k,
    {
        assert(d[k as int] == o.declarations@[k as int]@);
        let row: String = field_row(
            if k == p {
                ">"
            } else {
                " "
            },
            decimal(k as u64).as_str(),
            o.declarations[k].text.as_str(),
        );
        push_text(&mut out, row);
        k = k + 1;
    }
    out
}

fn field_row(mark: &str, number: &str, text: &str) -> (r: String)
    ensures
        r@ == mark@ + " field#"@ + number@ + " "@ + text@,
{
    crate::pieces::cat5(mark, " field#", number, " ", text)
}

/// The texts of lists of rows.
spec fn all_texts(v: Seq<Vec<String>>) -> Seq<Seq<Seq<char>>> {
    v.map_values(|r: Vec<String>| texts(r@))
}

fn has_rows(v: &Vec<Vec<String>>, x: &Vec<String>) -> (r: bool)
    ensures
        r == all_texts(v@).contains(texts(x@)),
{
    let mut i: usize = 0;
    while i < v.len()
        invariant
            i <= v@.len(),
            forall|k: int| 0 <= k < i ==> texts((#[trigger] v@[k])@) != texts(x@),
        decreases v.len() - i,
    {
        if same_texts(&v[i], x) {
            assert(all_texts(v@)[i as int] == texts(x@));
            return true;
        }
        i = i + 1;
    }
    assert(forall|k: int| 0 <= k < v@.len() ==> all_texts(v@)[k] == texts(v@[k]@));
    false
}

fn find_candidates(owners: &Vec<Owner>, ty: u32, context: usize) -> (r: Vec<Vec<String>>)
    ensures
        all_texts(r@) == candidates(views(owners@), ty, context, owners@.len() as int),
{
    let ghost om = views(owners@);
    let mut out: Vec<Vec<String>> = Vec::new();
    let mut i: usize = 0;
    assert(all_texts(out@) =~= Seq::<Seq<Seq<char>>>::empty());
    while i < owners.len()
        invariant
            om == views(owners@),
            i <= owners@.len(),
            all_texts(out@) == candidates(om, ty, context, i as int),
        decreases owners.len() - i,
    {
        let o: &Owner = &owners[i];
        assert(om[i as int] == o@);
        let ghost before = all_texts(out@);
        let ghost d = views(o.declarations@);
        let mut p: usize = 0;
        while p < o.declarations.len()
            invariant
                d == views(o.declarations@),
                d == o@.declarations,
                p <= o.declarations@.len(),
                all_texts(out@) == candidates_in(before, o@, ty, context, p as int),
            decreases o.declarations.len() - p,
        {
            assert(d[p as int] == o.declarations@[p as int]@);
            let wanted: bool = match o.declarations[p].method_type {
                Some(x) => x == ty,
                None => false,
            };
            if wanted {
                let rows: Vec<String> = make_candidate(o, p, context);
                if !has_rows(&out, &rows) {
                    let ghost was = out@;
                    let ghost m = texts(rows@);
                    out.push(rows);
                    assert(all_texts(out@) =~= all_texts(was).push(m));
                }
            }
            p = p + 1;
        }
        i = i + 1;
    }
    out
}

fn join_candidates(c: &Vec<Vec<String>>) -> (r: Vec<String>)
    ensures
        texts(r@) == candidate_rows(all_texts(c@), c@.len() as int),
{
    let ghost all = all_texts(c@);
    let mut out: Vec<String> = Vec::new();
    let mut i: usize = 0;
    assert(texts(out@) =~= Seq::<Seq<char>>::empty());
    while i < c.len()
        invariant
            all == all_texts(c@),
            i <= c@.len(),
            texts(out@) == candidate_rows(all, i as int),
        decreases c.len() - i,
    {
        assert(all[i as int] == texts(c@[i as int]@));
        if i > 0 {
            push_text(&mut out, owned(""));
        }
        let ghost start = texts(out@);
        let ghost rows = all[i as int];
        let mut k: usize = 0;
        assert(start + rows.take(0) =~= start);
        while k < c[i].len()
            invariant
                i < c@.len(),
                rows == texts(c@[i as int]@),
                k <= c@[i as int]@.len(),
                texts(out@) == start + rows.take(k as int),
            decreases c[i as int].len() - k,
        {
            let s: String = c[i][k].clone();
            assert(rows[k as int] == s@);
            push_text(&mut out, s);
            assert(rows.take(k + 1) =~= rows.take(k as int).push(s@));
            assert(texts(out@) =~= start + rows.take(k + 1));
            k = k + 1;
        }
        assert(rows.take(rows.len() as int) =~= rows);
        assert(Seq::<Seq<char>>::empty() + rows =~= rows);
        i = i + 1;
    }
    out
}

fn is_match_taken(m: &Vec<Match>, i: usize) -> (r: bool)
    requires
        i < m@.len(),
    ensures
        r == is_taken(views(m@), i as int),
{
    let ghost v = views(m@);
    let mut k: usize = 0;
    while k < i
        invariant
            v == views(m@),
            i < m@.len(),
            k <= i,
            forall|x: int| 0 <= x < k ==> (#[trigger] v[x]).procedure_type != v[i as int].procedure_type,
        decreases i - k,
    {
        assert(v[k as int] == m@[k as int]@ && v[i as int] == m@[i as int]@);
        if m[k].procedure_type == m[i].procedure_type {
            assert(v[k as int].procedure_type == v[i as int].procedure_type);
            return true;
        }
        k = k + 1;
    }
    false
}

/// Adds to each match the rows on the types near its own and on the classes that
/// declare it. Of several matches of one type, the first has the classes.
pub fn bind_declarations(
    matches: Vec<Match>,
    types: &Vec<TypeRow>,
    table: &TypeTable,
    context: usize,
) -> (r: Result<Vec<Match>, TypeError>)
    ensures
        match r {
            Ok(v) => owners_upto(*table, table.records@.len() as int) matches Ok(owners)
                && v@.len() == matches@.len() && forall|i: int|
                0 <= i < v@.len() ==> (#[trigger] v@[i])@ == completed(
                    views(matches@),
                    types@,
                    owners,
                    context,
                    i,
                ),
            Err(e) => owners_upto(*table, table.records@.len() as int) == Err::<
                Seq<OwnerModel>,
                TypeError,
            >(e),
        },
{
    let owners: Vec<Owner> = match find_owners(table) {
        Ok(o) => o,
        Err(e) => {
            return Err(e);
        },
    };
    let ghost m = views(matches@);
    let ghost om = views(owners@);
    let mut type_rows: Vec<Vec<String>> = Vec::new();
    let mut declaration_rows: Vec<Vec<String>> = Vec::new();
    let mut i: usize = 0;
    while i < matches.len()
        invariant
            m == views(matches@),
            om == views(owners@),
            i <= matches@.len(),
            type_rows@.len() == i,
            declaration_rows@.len() == i,
            forall|k: int|
                0 <= k < i ==> texts((#[trigger] type_rows@[k])@) == near_rows(
                    types@,
                    m[k].procedure_type,
                    context,
                    types@.len() as int,
                ),
            forall|k: int|
                0 <= k < i ==> texts((#[trigger] declaration_rows@[k])@) == bound_rows(
                    m,
                    om,
                    context,
                    k,
                ),
        decreases matches.len() - i,
    {
        assert(m[i as int] == matches@[i as int]@);
        let ty: u32 = matches[i].procedure_type;
        type_rows.push(rows_near(types, ty, context));
        let rows: Vec<String> = if is_match_taken(&matches, i) {
            Vec::new()
        } else {
            let c: Vec<Vec<String>> = find_candidates(&owners, ty, context);
            assert(all_texts(c@).len() == c@.len());
            join_candidates(&c)
        };
        assert(is_taken(m, i as int) ==> texts(rows@) =~= Seq::<Seq<char>>::empty());
        declaration_rows.push(rows);
        i = i + 1;
    }
    let mut out: Vec<Match> = matches;
    let mut n: usize = out.len();
    while n > 0
        invariant
            n <= out@.len(),
            out@.len() == m.len(),
            type_rows@.len() == n,
            declaration_rows@.len() == n,
            forall|k: int|
                0 <= k < n ==> texts((#[trigger] type_rows@[k])@) == near_rows(
                    types@,
                    m[k].procedure_type,
                    context,
                    types@.len() as int,
                ),
            forall|k: int|
                0 <= k < n ==> texts((#[trigger] declaration_rows@[k])@) == bound_rows(
                    m,
                    om,
                    context,
                    k,
                ),
            forall|k: int| 0 <= k < n ==> (#[trigger] out@[k])@ == m[k],
            forall|k: int|
                n <= k < out@.len() ==> (#[trigger] out@[k])@ == completed(
                    m,
                    types@,
                    om,
                    context,
                    k,
                ),
        decreases n,
    {
        n = n - 1;
        let tr: Option<Vec<String>> = type_rows.pop();
        let dr: Option<Vec<String>> = declaration_rows.pop();
        if let (Some(a), Some(b)) = (tr, dr) {
            let ghost before = out@;
            let mut one: Match = out.remove(n);
            one.type_rows = a;
            one.declaration_rows = b;
            assert(one@ == completed(m, types@, om, context, n as int));
            out.insert(n, one);
            assert forall|k: int| 0 <= k < out@.len() && k != n implies out@[k] == before[k] by {}
        }
    }
    Ok(out)
}

/// A line table that cannot be read, or a type that cannot be found.
#[derive(Debug)]
pub enum InspectError {
    Lines(String),
    Types(TypeError),
}

/// Whether `r` is what a query finds.
pub open spec fn is_inspection(
    r: Result<Vec<Match>, InspectError>,
    modules: Seq<ModuleSymbols>,
    needle: Seq<char>,
    wanted: Option<Seq<char>>,
    types: Seq<TypeRow>,
    table: TypeTable,
    context: usize,
) -> bool {
    match matches_upto(modules, needle, wanted, modules.len() as int) {
        Err(e) => r matches Err(InspectError::Lines(s)) && s@ == e,
        Ok(m) => if m.len() == 0 {
            r matches Ok(v) && v@.len() == 0
        } else {
            match owners_upto(table, table.records@.len() as int) {
                Err(e) => r == Err::<Vec<Match>, InspectError>(InspectError::Types(e)),
                Ok(owners) => r matches Ok(v) && v@.len() == m.len() && forall|i: int|
                    0 <= i < v@.len() ==> (#[trigger] v@[i])@ == completed(
                        m,
                        types,
                        owners,
                        context,
                        i,
                    ),
            }
        },
    }
}

/// The procedures that a query names, with what stands around them. Letter case does
/// not matter. Types are looked at only where something was found.
pub fn inspect(
    modules: &Vec<ModuleSymbols>,
    function: &str,
    module: Option<&str>,
    types: &Vec<TypeRow>,
    table: &TypeTable,
    context: usize,
) -> (r: Result<Vec<Match>, InspectError>)
    ensures
        is_inspection(
            r,
            modules@,
            lowercase(function@),
            match module {
                Some(m) => Some(lowercase(m@)),
                None => None,
            },
            types@,
            *table,
            context,
        ),
{
    let needle: String = to_lowercase(function);
    let found: Result<Vec<Match>, String> = match module {
        Some(m) => {
            let w: String = to_lowercase(m);
            find_matches(modules, needle.as_str(), Some(w.as_str()))
        },
        None => find_matches(modules, needle.as_str(), None),
    };
    match found {
        Err(e) => Err(InspectError::Lines(e)),
        Ok(matches) => {
            if matches.len() == 0 {
                assert(views(matches@).len() == 0);
                return Ok(matches);
            }
            assert(views(matches@).len() > 0);
            match bind_declarations(matches, types, table, context) {
                Ok(v) => Ok(v),
                Err(e) => Err(InspectError::Types(e)),
            }
        },
    }
}

} // verus!
