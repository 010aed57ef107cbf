//! A function as its module records it, and the stub that is written for it.

use crate::formatter::{pad_spaces, padding, signature, Formatter, MAX_PAD_SPACE};
use crate::function_type::{FunctionType, FunctionTypeModel, ReturnModel, ReturnType};
use crate::lcs::views;
use crate::number::{dec, dec_int, decimal, decimal_signed, hex, hexadecimal, pad_front,
    padded_front};
use crate::order::{rank_of, sort_stable, sorted_by, Ranked};
use crate::pieces::{cat2, cat3, cat4, cat5, cat7, cat8};
use crate::search::{ends, ends_with};
use crate::text::{byte_len, owned, same, texts};
use crate::type_builder::{Namespace, NamespaceModel, Type};
use vstd::prelude::*;
use vstd::string::StringExecFns;

verus! {

/// The address that the game's image is loaded at.
pub const GAME_IB: u32 = 0x10000;

/// What is to be made.
#[derive(Clone, Copy, PartialEq, Eq, Debug, Structural)]
pub struct GenFlags {
    /// Stubs for the base code.
    pub as_base: bool,
    /// No names of arguments in headers.
    pub no_cache: bool,
    /// No headers for classes that are not the engine's.
    pub skip_non_engine_headers: bool,
}

/// The value of a constant.
#[derive(Clone, Copy, PartialEq, Eq, Debug, Structural)]
pub enum ConstantValue {
    Unsigned(u64),
    Signed(i64),
}

impl View for ConstantValue {
    type V = ConstantValue;

    open spec fn view(&self) -> ConstantValue {
        *self
    }
}

impl ConstantValue {
    /// The value in decimal.
    pub open spec fn text(self) -> Seq<char> {
        match self {
            ConstantValue::Unsigned(n) => dec(n as nat),
            ConstantValue::Signed(n) => dec_int(n as int),
        }
    }

    /// The value in decimal.
    pub fn to_text(&self) -> (r: String)
        ensures
            r@ == self.text(),
    {
        match self {
            ConstantValue::Unsigned(n) => decimal(*n),
            ConstantValue::Signed(n) => decimal_signed(*n),
        }
    }
}

/// A statement: its address, its source line, and how many blocks are open where
/// one opens at it.
#[derive(Clone, Copy, PartialEq, Eq, Debug, Structural)]
pub struct Statement {
    pub rva: u32,
    pub line_start: u32,
    pub depth: i32,
}

impl View for Statement {
    type V = Statement;

    open spec fn view(&self) -> Statement {
        *self
    }
}

/// Whether `a` may stand before `b` in the order of source lines.
pub open spec fn line_le(a: Statement, b: Statement) -> bool {
    a.line_start <= b.line_start
}

impl Ranked for Statement {
    open spec fn before(a: Statement, b: Statement) -> bool {
        line_le(a, b)
    }

    fn is_before(&self, other: &Self) -> (r: bool) {
        self.line_start <= other.line_start
    }
}

/// A function as its module records it.
pub struct Function {
    pub module_id: usize,
    pub type_index: u32,
    pub flags: GenFlags,
    pub fn_t: FunctionType,
    pub offset: u32,
    pub name_orig: String,
    pub namespace: Namespace,
    pub margs: Vec<(String, Type)>,
    pub locals: Vec<(String, Type, usize)>,
    pub proc_start: u32,
    pub proc_end: u32,
    pub statements: Vec<Statement>,
    pub constants: Vec<(String, Type, ConstantValue)>,
    pub statics: Vec<(String, Type, u32)>,
    pub blocks: Vec<(u32, i32)>,
    pub typedefs: Vec<(Type, Type)>,
    pub callsites: Vec<(u32, Type)>,
    pub symbols: Vec<String>,
}

/// What is recorded of a function.
pub struct FunctionModel {
    pub module_id: usize,
    pub type_index: u32,
    pub flags: GenFlags,
    pub fn_t: FunctionTypeModel,
    pub offset: u32,
    pub name_orig: Seq<char>,
    pub namespace: NamespaceModel,
    pub margs: Seq<(Seq<char>, Seq<char>)>,
    pub locals: Seq<(Seq<char>, Seq<char>, usize)>,
    pub proc_start: u32,
    pub proc_end: u32,
    pub statements: Seq<Statement>,
    pub constants: Seq<(Seq<char>, Seq<char>, ConstantValue)>,
    pub statics: Seq<(Seq<char>, Seq<char>, u32)>,
    pub blocks: Seq<(u32, i32)>,
    pub typedefs: Seq<(Seq<char>, Seq<char>)>,
    pub callsites: Seq<(u32, Seq<char>)>,
    pub symbols: Seq<Seq<char>>,
}

impl View for Function {
    type V = FunctionModel;

    open spec fn view(&self) -> FunctionModel {
        FunctionModel {
            module_id: self.module_id,
            type_index: self.type_index,
            flags: self.flags,
            fn_t: self.fn_t@,
            offset: self.offset,
            name_orig: self.name_orig@,
            namespace: self.namespace@,
            margs: views(self.margs@),
            locals: views(self.locals@),
            proc_start: self.proc_start,
            proc_end: self.proc_end,
            statements: self.statements@,
            constants: views(self.constants@),
            statics: views(self.statics@),
            blocks: self.blocks@,
            typedefs: views(self.typedefs@),
            callsites: views(self.callsites@),
            symbols: texts(self.symbols@),
        }
    }
}

impl FunctionModel {
    /// No function in particular.
    pub open spec fn empty(flags: GenFlags) -> FunctionModel {
        FunctionModel {
            module_id: 0,
            type_index: 0,
            flags,
            fn_t: FunctionTypeModel::empty(),
            offset: 0,
            name_orig: ""@,
            namespace: NamespaceModel::none(),
            margs: Seq::empty(),
            locals: Seq::empty(),
            proc_start: 0,
            proc_end: 0,
            statements: Seq::empty(),
            constants: Seq::empty(),
            statics: Seq::empty(),
            blocks: Seq::empty(),
            typedefs: Seq::empty(),
            callsites: Seq::empty(),
            symbols: Seq::empty(),
        }
    }
}

// ---------------------------------------------------------------------------
// The text of a stub
// ---------------------------------------------------------------------------

/// The address of `rva` in the loaded image, as far as addresses go.
pub open spec fn loaded(rva: u32) -> u32 {
    if rva + GAME_IB > u32::MAX {
        u32::MAX
    } else {
        (rva + GAME_IB) as u32
    }
}

/// An address as it is shown.
pub open spec fn address(rva: u32) -> Seq<char> {
    "0x"@ + hex(loaded(rva) as nat)
}

/// A section of remarks: nothing where there are none.
pub open spec fn section(title: Seq<char>, n: nat, lines: Seq<char>) -> Seq<char> {
    if n == 0 {
        ""@
    } else {
        "\t// "@ + title + "\n"@ + lines + "\t// ******\n\n"@
    }
}

/// The first `n` locals.
pub open spec fn local_lines(f: FunctionModel, n: int) -> Seq<char>
    decreases n,
{
    if n <= 0 {
        ""@
    } else {
        let (name, ty, scope) = f.locals[n - 1];
        local_lines(f, n - 1) + ("\t// "@ + ty + " "@ + padding(
            (3 + byte_len(ty) + 1) as int,
            MAX_PAD_SPACE as int,
        ) + name + (if scope != 0 {
            "<"@ + dec(scope as nat) + ">"@
        } else {
            ""@
        }) + "\n"@)
    }
}

/// The first `n` constants.
pub open spec fn constant_lines(f: FunctionModel, n: int) -> Seq<char>
    decreases n,
{
    if n <= 0 {
        ""@
    } else {
        let (name, ty, value) = f.constants[n - 1];
        constant_lines(f, n - 1) + ("\t// const "@ + ty + " "@ + padding(
            (9 + byte_len(ty) + 1) as int,
            MAX_PAD_SPACE as int,
        ) + name + " = "@ + value.text() + ";\n"@)
    }
}

/// The first `n` statics.
pub open spec fn static_lines(f: FunctionModel, n: int) -> Seq<char>
    decreases n,
{
    if n <= 0 {
        ""@
    } else {
        let (name, ty, rva) = f.statics[n - 1];
        static_lines(f, n - 1) + ("\t// static "@ + ty + " "@ + padding(
            (10 + byte_len(ty) + 1) as int,
            MAX_PAD_SPACE as int,
        ) + name + " = <"@ + address(rva) + ">;\n"@)
    }
}

/// The first `n` blocks at which no statement begins.
pub open spec fn block_lines(f: FunctionModel, n: int) -> Seq<char>
    decreases n,
{
    if n <= 0 {
        ""@
    } else {
        let (rva, depth) = f.blocks[n - 1];
        block_lines(f, n - 1) + ("\t// <"@ + address(rva) + "><"@ + dec_int(depth as int) + ">\n"@)
    }
}

/// The first `n` of some typedefs.
pub open spec fn typedef_lines(typedefs: Seq<(Seq<char>, Seq<char>)>, n: int) -> Seq<char>
    decreases n,
{
    if n <= 0 {
        ""@
    } else {
        let (ty, name) = typedefs[n - 1];
        typedef_lines(typedefs, n - 1) + ("\t// typedef\n\t// \t"@ + ty + "\n\t// \t"@ + name
            + ";\n\n"@)
    }
}

/// The first `n` calls.
pub open spec fn callsite_lines(f: FunctionModel, n: int) -> Seq<char>
    decreases n,
{
    if n <= 0 {
        ""@
    } else {
        let (rva, ty) = f.callsites[n - 1];
        callsite_lines(f, n - 1) + ("\t// <"@ + address(rva) + "> -> "@ + ty + "\n"@)
    }
}

/// The first `n` symbols of other kinds.
pub open spec fn symbol_lines(f: FunctionModel, n: int) -> Seq<char>
    decreases n,
{
    if n <= 0 {
        ""@
    } else {
        symbol_lines(f, n - 1) + ("\t// "@ + f.symbols[n - 1] + "\n"@)
    }
}

/// A value that a stub of the given return type can return.
pub open spec fn stub_value(t: Seq<char>) -> Option<Seq<char>> {
    if ends_with(t, "*"@) || t == "pcstr"@ {
        Some("NULL"@)
    } else if t == "vostok::math::aabb"@ {
        Some("vostok::math::aabb()"@)
    } else if t == "vostok::math::color"@ {
        Some("vostok::math::color()"@)
    } else if t == "vostok::math::frustum"@ {
        Some("vostok::math::frustum()"@)
    } else if t == "vostok::math::intersection"@ {
        Some("vostok::math::intersection()"@)
    } else if t == "vostok::math::plane"@ {
        Some("vostok::math::plane()"@)
    } else if t == "vostok::math::quaternion"@ {
        Some("vostok::math::quaternion()"@)
    } else if t == "vostok::math::uint2"@ {
        Some("vostok::math::uint2(1, 1)"@)
    } else if t == "vostok::math::float2"@ {
        Some("vostok::math::float2(1., 1.)"@)
    } else if t == "vostok::math::float3"@ {
        Some("vostok::math::float3(1., 1., 1.)"@)
    } else if t == "vostok::math::float4"@ {
        Some("vostok::math::float4(1., 1., 1., 1.)"@)
    } else if t == "vostok::math::float3_pod"@ {
        Some("vostok::math::float3_pod()"@)
    } else if t == "vostok::math::float4_pod"@ {
        Some("vostok::math::float4_pod()"@)
    } else if t == "vostok::math::float4x4"@ {
        Some("vostok::math::float4x4()"@)
    } else {
        short_stub_value(t)
    }
}

/// A value that a stub of the given return type can return, for types without
/// the engine's namespace.
pub open spec fn short_stub_value(t: Seq<char>) -> Option<Seq<char>> {
    if t == "math::aabb"@ {
        Some("math::aabb()"@)
    } else if t == "math::color"@ {
        Some("math::color()"@)
    } else if t == "math::frustum"@ {
        Some("math::frustum()"@)
    } else if t == "math::intersection"@ {
        Some("math::intersection()"@)
    } else if t == "math::plane"@ {
        Some("math::plane()"@)
    } else if t == "math::quaternion"@ {
        Some("math::quaternion()"@)
    } else if t == "uint2"@ {
        Some("uint2(1, 1)"@)
    } else if t == "float2"@ {
        Some("float2(1., 1.)"@)
    } else if t == "float3"@ {
        Some("float3(1., 1., 1.)"@)
    } else if t == "float4"@ {
        Some("float4(1., 1., 1., 1.)"@)
    } else if t == "float3_pod"@ {
        Some("float3_pod()"@)
    } else if t == "float4_pod"@ {
        Some("float4_pod()"@)
    } else if t == "float4x4"@ {
        Some("float4x4()"@)
    } else if t == "u8"@ || t == "u16"@ || t == "u32"@ || t == "s8"@ || t == "s16"@ || t
        == "s32"@ {
        Some("0"@)
    } else if t == "float"@ || t == "double"@ {
        Some("0.0f"@)
    } else if t == "bool"@ {
        Some("false"@)
    } else if t == "char"@ {
        Some("'a'"@)
    } else {
        None
    }
}

/// The line that returns a value, where there is one to return.
pub open spec fn return_line(r: ReturnModel) -> Seq<char> {
    match r {
        ReturnModel::Type(t) => match stub_value(t) {
            Some(v) => "\treturn "@ + v + ";\n\n"@,
            None => ""@,
        },
        _ => ""@,
    }
}

/// The statements of a function in the order of their lines.
pub open spec fn by_line(f: FunctionModel) -> Seq<Statement> {
    sorted_by(f.statements, |a: Statement, b: Statement| line_le(a, b))
}

/// A 32-bit number taken as one with a sign.
pub open spec fn with_sign(n: u32) -> int {
    if n < 0x8000_0000 {
        n as int
    } else {
        n - 0x1_0000_0000
    }
}

/// How far one address is from another.
pub open spec fn distance(to: u32, from: u32) -> int {
    with_sign(to) - with_sign(from)
}

/// A distance in hexadecimal, behind `plus` where it is not negative.
pub open spec fn distance_text(d: int, plus: Seq<char>) -> Seq<char> {
    if d >= 0 {
        plus + "0x"@ + pad_front(hex(d as nat), '0', 3)
    } else {
        "-"@ + "0x"@ + pad_front(hex((-d) as nat), '0', 3)
    }
}

/// The line of statement `i`: its address, its distance from the first statement
/// and from the next one, the block that opens at it, and its source line.
pub open spec fn statement_line(st: Seq<Statement>, i: int) -> Seq<char> {
    let s = st[i];
    let next = if i + 1 < st.len() {
        distance_text(distance(st[i + 1].rva, s.rva), "+"@)
    } else {
        "      "@
    };
    "\t// <"@ + address(s.rva) + ">|"@ + distance_text(distance(s.rva, st[0].rva), ""@) + "|"@
        + next + (if s.depth == 0 {
        ""@
    } else {
        "|["@ + dec_int(s.depth as int) + "]"@
    }) + (":'"@ + dec(s.line_start as nat) + "'\n"@)
}

/// The lines for `n` source lines without a statement.
pub open spec fn gap_lines(n: int) -> Seq<char>
    decreases n,
{
    if n <= 0 {
        ""@
    } else {
        gap_lines(n - 1) + ("\t// <"@ + dec((n - 1) as nat) + ">\n"@)
    }
}

/// The source line behind the first `i` statements.
pub open spec fn line_behind(proc_start: u32, st: Seq<Statement>, i: int) -> int {
    if i <= 0 {
        proc_start as int
    } else {
        st[i - 1].line_start + 1
    }
}

/// The lines of the first `n` statements. The first and the last are the braces
/// of the function and are not shown.
pub open spec fn statement_lines(proc_start: u32, st: Seq<Statement>, n: int) -> Seq<char>
    decreases n,
{
    if n <= 0 {
        ""@
    } else {
        let i = n - 1;
        statement_lines(proc_start, st, i) + gap_lines(
            st[i].line_start - line_behind(proc_start, st, i),
        ) + (if i == 0 || i == st.len() - 1 {
            ""@
        } else {
            statement_line(st, i)
        })
    }
}

/// The line above the statements, with the number of lines of the body.
pub open spec fn body_heading(f: FunctionModel, st: Seq<Statement>) -> Seq<char> {
    "\t// FUNCTION BODY["@ + address(f.offset) + "]"@ + (if st.len() < 2 {
        ""@
    } else {
        ": "@ + dec_int(distance(st.last().line_start, st[0].line_start) - 1)
    }) + "\n"@
}

/// The body of a stub: its statements, with the lines between them.
pub open spec fn body_text(f: FunctionModel) -> Seq<char> {
    let st = by_line(f);
    let n = st.len() as int;
    body_heading(f, st) + statement_lines(f.proc_start, st, n) + gap_lines(
        f.proc_end - line_behind(f.proc_start, st, n),
    ) + "\t// ******\n"@
}

/// The first lines of a stub.
pub open spec fn stub_heading(f: FunctionModel, ns: NamespaceModel) -> Seq<char> {
    (if f.flags.as_base {
        "// STUB GENERATED FOR BASE CODE\n"@
    } else {
        "// STATE[STUB]\n"@
    }) + (if f.fn_t.attrs.is_inline {
        "inline "@
    } else {
        ""@
    }) + signature(Formatter::Source, f.fn_t, ns, f.margs) + "\n{\n"@
}

/// What a stub says of the variables and scopes of its function.
pub open spec fn stub_sections(f: FunctionModel) -> Seq<char> {
    section("LOCALS"@, f.locals.len(), local_lines(f, f.locals.len() as int)) + section(
        "CONSTANTS"@,
        f.constants.len(),
        constant_lines(f, f.constants.len() as int),
    ) + section("STATICS"@, f.statics.len(), static_lines(f, f.statics.len() as int)) + section(
        "SKIPPED BLOCKS"@,
        f.blocks.len(),
        block_lines(f, f.blocks.len() as int),
    ) + section(
        "TYPEDEFS"@,
        f.typedefs.len(),
        typedef_lines(f.typedefs, f.typedefs.len() as int),
    ) + section(
        "CALL SITE INFO"@,
        f.callsites.len(),
        callsite_lines(f, f.callsites.len() as int),
    ) + section("OTHER SYMBOLS"@, f.symbols.len(), symbol_lines(f, f.symbols.len() as int))
}

/// The stub of a function.
#[verifier::opaque]
pub open spec fn stub(f: FunctionModel, ns: NamespaceModel) -> Seq<char> {
    stub_heading(f, ns) + stub_sections(f) + return_line(f.fn_t.return_type) + body_text(f)
        + "}\n\n"@
}

// ---------------------------------------------------------------------------

fn address_text(rva: u32) -> (r: String)
    ensures
        r@ == address(rva),
{
    cat2("0x", hexadecimal(rva.saturating_add(GAME_IB) as u64).as_str())
}

fn section_text(title: &str, n: usize, lines: &str) -> (r: String)
    ensures
        r@ == section(title@, n as nat, lines@),
{
    if n == 0 {
        owned("")
    } else {
        cat5("\t// ", title, "\n", lines, "\t// ******\n\n")
    }
}

/// The padding behind a type that stands behind `fixed` characters.
fn pad_behind(fixed: usize, ty: &Type) -> (r: String)
    requires
        fixed <= 16,
    ensures
        r@ == padding((fixed + byte_len(ty@) + 1) as int, MAX_PAD_SPACE as int),
{
    let mut s: String = String::new();
    let n: usize = ty.len();
    if n < MAX_PAD_SPACE {
        pad_spaces(&mut s, fixed + n + 1);
    }
    assert(s@ =~= padding((fixed + byte_len(ty@) + 1) as int, MAX_PAD_SPACE as int));
    s
}

fn locals_text(f: &Function) -> (r: String)
    ensures
        r@ == section("LOCALS"@, f@.locals.len(), local_lines(f@, f@.locals.len() as int)),
{
    let mut lines: String = owned("");
    let mut i: usize = 0;
    let ghost m = f@;
    while i < f.locals.len()
        invariant
            m == f@,
            i <= f.locals@.len(),
            lines@ == local_lines(m, i as int),
        decreases f.locals.len() - i,
    {
        assert(m.locals[i as int] == (
            f.locals@[i as int].0@,
            f.locals@[i as int].1@,
            f.locals@[i as int].2,
        ));
        let l: &(String, Type, usize) = &f.locals[i];
        let scope: String = if l.2 != 0 {
            cat3("<", decimal(l.2 as u64).as_str(), ">")
        } else {
            owned("")
        };
        let line: String = cat7(
            "\t// ",
            l.1.0.as_str(),
            " ",
            pad_behind(3, &l.1).as_str(),
            l.0.as_str(),
            scope.as_str(),
            "\n",
        );
        lines.append(line.as_str());
        i = i + 1;
    }
    section_text("LOCALS", f.locals.len(), lines.as_str())
}

fn constants_text(f: &Function) -> (r: String)
    ensures
        r@ == section(
            "CONSTANTS"@,
            f@.constants.len(),
            constant_lines(f@, f@.constants.len() as int),
        ),
{
    let mut lines: String = owned("");
    let mut i: usize = 0;
    let ghost m = f@;
    while i < f.constants.len()
        invariant
            m == f@,
            i <= f.constants@.len(),
            lines@ == constant_lines(m, i as int),
        decreases f.constants.len() - i,
    {
        assert(m.constants[i as int] == (
            f.constants@[i as int].0@,
            f.constants@[i as int].1@,
            f.constants@[i as int].2,
        ));
        let l: &(String, Type, ConstantValue) = &f.constants[i];
        let line: String = cat8(
            "\t// const ",
            l.1.0.as_str(),
            " ",
            pad_behind(9, &l.1).as_str(),
            l.0.as_str(),
            " = ",
            l.2.to_text().as_str(),
            ";\n",
        );
        lines.append(line.as_str());
        i = i + 1;
    }
    section_text("CONSTANTS", f.constants.len(), lines.as_str())
}

fn statics_text(f: &Function) -> (r: String)
    ensures
        r@ == section("STATICS"@, f@.statics.len(), static_lines(f@, f@.statics.len() as int)),
{
    let mut lines: String = owned("");
    let mut i: usize = 0;
    let ghost m = f@;
    while i < f.statics.len()
        invariant
            m == f@,
            i <= f.statics@.len(),
            lines@ == static_lines(m, i as int),
        decreases f.statics.len() - i,
    {
        assert(m.statics[i as int] == (
            f.statics@[i as int].0@,
            f.statics@[i as int].1@,
            f.statics@[i as int].2,
        ));
        let l: &(String, Type, u32) = &f.statics[i];
        let line: String = cat8(
            "\t// static ",
            l.1.0.as_str(),
            " ",
            pad_behind(10, &l.1).as_str(),
            l.0.as_str(),
            " = <",
            address_text(l.2).as_str(),
            ">;\n",
        );
        lines.append(line.as_str());
        i = i + 1;
    }
    section_text("STATICS", f.statics.len(), lines.as_str())
}

fn blocks_text(f: &Function) -> (r: String)
    ensures
        r@ == section("SKIPPED BLOCKS"@, f@.blocks.len(), block_lines(f@, f@.blocks.len() as int)),
{
    let mut lines: String = owned("");
    let mut i: usize = 0;
    let ghost m = f@;
    while i < f.blocks.len()
        invariant
            m == f@,
            i <= f.blocks@.len(),
            lines@ == block_lines(m, i as int),
        decreases f.blocks.len() - i,
    {
        let b: (u32, i32) = f.blocks[i];
        let line: String = cat5(
            "\t// <",
            address_text(b.0).as_str(),
            "><",
            decimal_signed(b.1 as i64).as_str(),
            ">\n",
        );
        lines.append(line.as_str());
        i = i + 1;
    }
    section_text("SKIPPED BLOCKS", f.blocks.len(), lines.as_str())
}

/// The section on some typedefs.
pub fn typedefs_text(typedefs: &Vec<(Type, Type)>) -> (r: String)
    ensures
        r@ == section(
            "TYPEDEFS"@,
            typedefs@.len(),
            typedef_lines(views(typedefs@), typedefs@.len() as int),
        ),
{
    let mut lines: String = owned("");
    let mut i: usize = 0;
    let ghost m = views(typedefs@);
    while i < typedefs.len()
        invariant
            m == views(typedefs@),
            i <= typedefs@.len(),
            lines@ == typedef_lines(m, i as int),
        decreases typedefs.len() - i,
    {
        assert(m[i as int] == (typedefs@[i as int].0@, typedefs@[i as int].1@));
        let line: String = cat5(
            "\t// typedef\n\t// \t",
            typedefs[i].0.0.as_str(),
            "\n\t// \t",
            typedefs[i].1.0.as_str(),
            ";\n\n",
        );
        lines.append(line.as_str());
        i = i + 1;
    }
    section_text("TYPEDEFS", typedefs.len(), lines.as_str())
}

fn callsites_text(f: &Function) -> (r: String)
    ensures
        r@ == section(
            "CALL SITE INFO"@,
            f@.callsites.len(),
            callsite_lines(f@, f@.callsites.len() as int),
        ),
{
    let mut lines: String = owned("");
    let mut i: usize = 0;
    let ghost m = f@;
    while i < f.callsites.len()
        invariant
            m == f@,
            i <= f.callsites@.len(),
            lines@ == callsite_lines(m, i as int),
        decreases f.callsites.len() - i,
    {
        assert(m.callsites[i as int] == (f.callsites@[i as int].0, f.callsites@[i as int].1@));
        let line: String = cat5(
            "\t// <",
            address_text(f.callsites[i].0).as_str(),
            "> -> ",
            f.callsites[i].1.0.as_str(),
            "\n",
        );
        lines.append(line.as_str());
        i = i + 1;
    }
    section_text("CALL SITE INFO", f.callsites.len(), lines.as_str())
}

fn symbols_text(f: &Function) -> (r: String)
    ensures
        r@ == section("OTHER SYMBOLS"@, f@.symbols.len(), symbol_lines(f@, f@.symbols.len() as int)),
{
    let mut lines: String = owned("");
    let mut i: usize = 0;
    let ghost m = f@;
    while i < f.symbols.len()
        invariant
            m == f@,
            i <= f.symbols@.len(),
            lines@ == symbol_lines(m, i as int),
        decreases f.symbols.len() - i,
    {
        let line: String = cat3("\t// ", f.symbols[i].as_str(), "\n");
        lines.append(line.as_str());
        i = i + 1;
    }
    section_text("OTHER SYMBOLS", f.symbols.len(), lines.as_str())
}

fn short_value(t: &str) -> (r: Option<&'static str>)
    ensures
        match r {
            Some(v) => short_stub_value(t@) == Some(v@),
            None => short_stub_value(t@) is None,
        },
{
    if same(t, "math::aabb") {
        Some("math::aabb()")
    } else if same(t, "math::color") {
        Some("math::color()")
    } else if same(t, "math::frustum") {
        Some("math::frustum()")
    } else if same(t, "math::intersection") {
        Some("math::intersection()")
    } else if same(t, "math::plane") {
        Some("math::plane()")
    } else if same(t, "math::quaternion") {
        Some("math::quaternion()")
    } else if same(t, "uint2") {
        Some("uint2(1, 1)")
    } else if same(t, "float2") {
        Some("float2(1., 1.)")
    } else if same(t, "float3") {
        Some("float3(1., 1., 1.)")
    } else if same(t, "float4") {
        Some("float4(1., 1., 1., 1.)")
    } else if same(t, "float3_pod") {
        Some("float3_pod()")
    } else if same(t, "float4_pod") {
        Some("float4_pod()")
    } else if same(t, "float4x4") {
        Some("float4x4()")
    } else if same(t, "u8") || same(t, "u16") || same(t, "u32") || same(t, "s8") || same(
        t,
        "s16",
    ) || same(t, "s32") {
        Some("0")
    } else if same(t, "float") || same(t, "double") {
        Some("0.0f")
    } else if same(t, "bool") {
        Some("false")
    } else if same(t, "char") {
        Some("'a'")
    } else {
        None
    }
}

fn value_for(t: &str) -> (r: Option<&'static str>)
    ensures
        match r {
            Some(v) => stub_value(t@) == Some(v@),
            None => stub_value(t@) is None,
        },
{
    if ends(t, "*") || same(t, "pcstr") {
        Some("NULL")
    } else if same(t, "vostok::math::aabb") {
        Some("vostok::math::aabb()")
    } else if same(t, "vostok::math::color") {
        Some("vostok::math::color()")
    } else if same(t, "vostok::math::frustum") {
        Some("vostok::math::frustum()")
    } else if same(t, "vostok::math::intersection") {
        Some("vostok::math::intersection()")
    } else if same(t, "vostok::math::plane") {
        Some("vostok::math::plane()")
    } else if same(t, "vostok::math::quaternion") {
        Some("vostok::math::quaternion()")
    } else if same(t, "vostok::math::uint2") {
        Some("vostok::math::uint2(1, 1)")
    } else if same(t, "vostok::math::float2") {
        Some("vostok::math::float2(1., 1.)")
    } else if same(t, "vostok::math::float3") {
        Some("vostok::math::float3(1., 1., 1.)")
    } else if same(t, "vostok::math::float4") {
        Some("vostok::math::float4(1., 1., 1., 1.)")
    } else if same(t, "vostok::math::float3_pod") {
        Some("vostok::math::float3_pod()")
    } else if same(t, "vostok::math::float4_pod") {
        Some("vostok::math::float4_pod()")
    } else if same(t, "vostok::math::float4x4") {
        Some("vostok::math::float4x4()")
    } else {
        short_value(t)
    }
}

fn return_text(r: &ReturnType) -> (t: String)
    ensures
        t@ == return_line(r@),
{
    match r {
        ReturnType::Type(t) => match value_for(t.as_str()) {
            Some(v) => cat3("\treturn ", v, ";\n\n"),
            None => owned(""),
        },
        _ => owned(""),
    }
}

fn signed(n: u32) -> (r: i64)
    ensures
        r == with_sign(n),
        -0x8000_0000 <= r < 0x8000_0000,
{
    if n < 0x8000_0000 {
        n as i64
    } else {
        n as i64 - 0x1_0000_0000
    }
}

fn distance_shown(to: u32, from: u32, plus: &str) -> (r: String)
    ensures
        r@ == distance_text(distance(to, from), plus@),
{
    let d: i64 = signed(to) - signed(from);
    if d >= 0 {
        cat3(plus, "0x", padded_front(hexadecimal(d as u64).as_str(), '0', 3).as_str())
    } else {
        cat3("-", "0x", padded_front(hexadecimal((-d) as u64).as_str(), '0', 3).as_str())
    }
}

fn statement_text(st: &Vec<Statement>, i: usize) -> (r: String)
    requires
        i < st@.len(),
    ensures
        r@ == statement_line(st@, i as int),
{
    let s: Statement = st[i];
    let n: usize = st.len();
    let next: String = if i < n - 1 {
        distance_shown(st[i + 1].rva, s.rva, "+")
    } else {
        owned("      ")
    };
    let depth: String = if s.depth == 0 {
        owned("")
    } else {
        cat3("|[", decimal_signed(s.depth as i64).as_str(), "]")
    };
    let line: String = cat3(":'", decimal(s.line_start as u64).as_str(), "'\n");
    cat8(
        "\t// <",
        address_text(s.rva).as_str(),
        ">|",
        distance_shown(s.rva, st[0].rva, "").as_str(),
        "|",
        next.as_str(),
        depth.as_str(),
        line.as_str(),
    )
}

fn gap_text(n: u64) -> (r: String)
    ensures
        r@ == gap_lines(n as int),
{
    let mut out: String = owned("");
    let mut k: u64 = 0;
    while k < n
        invariant
            k <= n,
            out@ == gap_lines(k as int),
        decreases n - k,
    {
        let line: String = cat3("\t// <", decimal(k).as_str(), ">\n");
        out.append(line.as_str());
        k = k + 1;
    }
    out
}

fn gap_between(line: u32, next_line: u64) -> (r: String)
    ensures
        r@ == gap_lines(line - next_line),
{
    if line as u64 > next_line {
        gap_text(line as u64 - next_line)
    } else {
        owned("")
    }
}

fn copy_statements(v: &Vec<Statement>) -> (r: Vec<Statement>)
    ensures
        r@ == v@,
{
    let mut r: Vec<Statement> = Vec::new();
    let mut i: usize = 0;
    while i < v.len()
        invariant
            i <= v@.len(),
            r@ == v@.take(i as int),
        decreases v.len() - i,
    {
        r.push(v[i]);
        assert(v@.take(i + 1) =~= v@.take(i as int).push(v@[i as int]));
        i = i + 1;
    }
    assert(v@.take(v@.len() as int) =~= v@);
    r
}

fn body(f: &Function) -> (r: String)
    ensures
        r@ == body_text(f@),
{
    let copy: Vec<Statement> = copy_statements(&f.statements);
    assert(views(copy@) =~= f@.statements);
    let st: Vec<Statement> = sort_stable(copy);
    assert(views(st@) =~= st@);
    assert(rank_of::<Statement>() =~= (|a: Statement, b: Statement| line_le(a, b)));
    assert(st@ == by_line(f@));
    let n: usize = st.len();
    let loc: String = if n < 2 {
        owned("")
    } else {
        let d: i64 = signed(st[n - 1].line_start) - signed(st[0].line_start) - 1;
        cat2(": ", decimal_signed(d).as_str())
    };
    let heading: String = cat5(
        "\t// FUNCTION BODY[",
        address_text(f.offset).as_str(),
        "]",
        loc.as_str(),
        "\n",
    );
    let mut lines: String = owned("");
    let mut next_line: u64 = f.proc_start as u64;
    let mut i: usize = 0;
    while i < n
        invariant
            n == st@.len(),
            i <= n,
            next_line == line_behind(f.proc_start, st@, i as int),
            lines@ == statement_lines(f.proc_start, st@, i as int),
        decreases n - i,
    {
        let s: Statement = st[i];
        lines.append(gap_between(s.line_start, next_line).as_str());
        next_line = s.line_start as u64 + 1;
        let line: String = if i == 0 || i == n - 1 {
            owned("")
        } else {
            statement_text(&st, i)
        };
        lines.append(line.as_str());
        i = i + 1;
    }
    let rest: String = gap_between(f.proc_end, next_line);
    cat4(heading.as_str(), lines.as_str(), rest.as_str(), "\t// ******\n")
}

impl Function {
    /// No function in particular.
    pub fn new(flags: GenFlags) -> (r: Function)
        ensures
            r@ == FunctionModel::empty(flags),
    {
        let f: Function = Function {
            module_id: 0,
            type_index: 0,
            flags,
            fn_t: FunctionType {
                name: owned(""),
                return_type: ReturnType::Constructor,
                arg_types: Vec::new(),
                attrs: crate::function_type::Attributes::none(),
            },
            offset: 0,
            name_orig: owned(""),
            namespace: Namespace::none(),
            margs: Vec::new(),
            locals: Vec::new(),
            proc_start: 0,
            proc_end: 0,
            statements: Vec::new(),
            constants: Vec::new(),
            statics: Vec::new(),
            blocks: Vec::new(),
            typedefs: Vec::new(),
            callsites: Vec::new(),
            symbols: Vec::new(),
        };
        let ghost e = FunctionModel::empty(flags);
        assert(f@.fn_t.arg_types =~= e.fn_t.arg_types);
        assert(f@.margs =~= e.margs);
        assert(f@.locals =~= e.locals);
        assert(f@.statements =~= e.statements);
        assert(f@.constants =~= e.constants);
        assert(f@.statics =~= e.statics);
        assert(f@.blocks =~= e.blocks);
        assert(f@.typedefs =~= e.typedefs);
        assert(f@.callsites =~= e.callsites);
        assert(f@.symbols =~= e.symbols);
        f
    }

    /// Writes the stub of the function, as it stands inside `namespace`.
    pub fn write(&self, namespace: &Namespace, w: &mut String)
        requires
            self@.fn_t.can_be_written(),
        ensures
            final(w)@ == old(w)@ + stub(self@, namespace@),
    {
        reveal(stub);
        let mut sig: String = String::new();
        Formatter::Source.write_fn_signature_with_args(
            &self.fn_t,
            namespace,
            &self.margs,
            &mut sig,
        );
        assert(sig@ =~= signature(Formatter::Source, self@.fn_t, namespace@, self@.margs));
        let heading: String = cat4(
            if self.flags.as_base {
                "// STUB GENERATED FOR BASE CODE\n"
            } else {
                "// STATE[STUB]\n"
            },
            if self.fn_t.attrs.is_inline {
                "inline "
            } else {
                ""
            },
            sig.as_str(),
            "\n{\n",
        );
        let sections: String = cat7(
            locals_text(self).as_str(),
            constants_text(self).as_str(),
            statics_text(self).as_str(),
            blocks_text(self).as_str(),
            typedefs_text(&self.typedefs).as_str(),
            callsites_text(self).as_str(),
            symbols_text(self).as_str(),
        );
        assert(sections@ == stub_sections(self@));
        let text: String = cat5(
            heading.as_str(),
            sections.as_str(),
            return_text(&self.fn_t.return_type).as_str(),
            body(self).as_str(),
            "}\n\n",
        );
        w.append(text.as_str());
    }
}

} // verus!
