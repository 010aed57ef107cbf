//! Text views of one function: its listing, its locals and its structure.

use crate::number::{centered, dec, dec_int, decimal, decimal_signed, hex, hexadecimal,
    lemma_hex_len_u64, pad_back, pad_front, padded_back, padded_centered, padded_front, repeat,
    repeated};
use crate::pieces::{cat2, cat3, cat4, cat5, cat7, cat8, lemma_widest, widest, widest_of};
use crate::rich_context::{FunctionEntry, Instruction, Local, Statement};
use crate::search::{trim_end, trimmed_end};
use crate::text::{byte_len, len_bytes, owned, texts};
use vstd::prelude::*;
use vstd::string::StringExecFns;

verus! {

// ---------------------------------------------------------------------------
// Listing
// ---------------------------------------------------------------------------

/// The last of the first `n` statements that starts at `off`.
pub open spec fn statement_at(st: Seq<Statement>, off: u32, n: int) -> Option<Statement>
    decreases n,
{
    if n <= 0 {
        None
    } else if st[n - 1].off == off {
        Some(st[n - 1])
    } else {
        statement_at(st, off, n - 1)
    }
}

/// The remark on a statement behind its first instruction.
pub open spec fn remark(s: Option<Statement>) -> Seq<char> {
    match s {
        Some(s) => match s.source {
            Some(src) => "\t; <0x"@ + hex(s.size as nat) + "> ; "@ + src@,
            None => "\t; <0x"@ + hex(s.size as nat) + ">"@,
        },
        None => ""@,
    }
}

/// The statement that an instruction begins. A function without a body has none.
pub open spec fn begun(f: FunctionEntry, off: u32) -> Option<Statement> {
    if f.body_less() {
        None
    } else {
        statement_at(f.statements@, off, f.statements@.len() as int)
    }
}

/// The lines of one instruction: its label, if it has one, and itself.
pub open spec fn listing_line(f: FunctionEntry, i: Instruction) -> Seq<char> {
    let label = match i.label {
        Some(l) => l@ + ":\n"@,
        None => ""@,
    };
    label + "0x"@ + pad_front(hex(i.off as nat), '0', 2) + ":    "@ + i.text@ + remark(
        begun(f, i.off),
    ) + "\n"@
}

/// The listing of the first `n` instructions.
pub open spec fn listing_upto(f: FunctionEntry, n: int) -> Seq<char>
    decreases n,
{
    if n <= 0 {
        f.name@ + ":\n"@
    } else {
        listing_upto(f, n - 1) + listing_line(f, f.instructions@[n - 1])
    }
}

fn remark_text(f: &FunctionEntry, off: u32) -> (r: String)
    ensures
        r@ == remark(begun(*f, off)),
{
    if f.is_body_less() {
        return owned("");
    }
    let mut n: usize = f.statements.len();
    while n > 0
        invariant
            n <= f.statements@.len(),
            statement_at(f.statements@, off, n as int) == begun(*f, off),
        decreases n,
    {
        let s: &Statement = &f.statements[n - 1];
        if s.off == off {
            return match &s.source {
                Some(src) => cat4(
                    "\t; <0x",
                    hexadecimal(s.size as u64).as_str(),
                    "> ; ",
                    src.as_str(),
                ),
                None => cat3("\t; <0x", hexadecimal(s.size as u64).as_str(), ">"),
            };
        }
        n = n - 1;
    }
    owned("")
}

fn instruction_text(f: &FunctionEntry, i: &Instruction) -> (r: String)
    ensures
        r@ == listing_line(*f, *i),
{
    let label: String = match &i.label {
        Some(l) => cat2(l.as_str(), ":\n"),
        None => owned(""),
    };
    cat7(
        label.as_str(),
        "0x",
        padded_front(hexadecimal(i.off as u64).as_str(), '0', 2).as_str(),
        ":    ",
        i.text.as_str(),
        remark_text(f, i.off).as_str(),
        "\n",
    )
}

/// The listing of a function: its name, then each instruction behind its offset,
/// with a label on a line of its own, and on the first instruction of each
/// statement the statement's size and source.
pub fn render_listing(f: &FunctionEntry) -> (r: String)
    ensures
        r@ == listing_upto(*f, f.instructions@.len() as int),
{
    let mut out: String = cat2(f.name.as_str(), ":\n");
    let mut k: usize = 0;
    while k < f.instructions.len()
        invariant
            k <= f.instructions@.len(),
            out@ == listing_upto(*f, k as int),
        decreases f.instructions.len() - k,
    {
        let i: &Instruction = &f.instructions[k];
        let line: String = instruction_text(f, i);
        out.append(line.as_str());
        k = k + 1;
    }
    out
}

/// Whether a statement of a function's body, not one of its braces, has the number `n`.
pub open spec fn is_body_statement(f: FunctionEntry, n: int) -> bool {
    1 <= n < f.statements@.len() - 1
}

/// Whether an instruction starts in the code of a statement.
pub open spec fn starts_in(i: Instruction, s: Statement) -> bool {
    s.off <= i.off < s.off + s.size
}

/// The listing of those of the first `n` instructions that start in the code of a statement.
pub open spec fn statement_listing(f: FunctionEntry, s: Statement, n: int) -> Seq<char>
    decreases n,
{
    if n <= 0 {
        f.name@ + ":\n"@
    } else if starts_in(f.instructions@[n - 1], s) {
        statement_listing(f, s, n - 1) + listing_line(f, f.instructions@[n - 1])
    } else {
        statement_listing(f, s, n - 1)
    }
}

/// The part of a function's listing that belongs to the statement of the given number;
/// nothing where its body has no such statement.
pub fn render_listing_statement(f: &FunctionEntry, n: usize) -> (r: Option<String>)
    ensures
        match r {
            Some(text) => is_body_statement(*f, n as int) && text@ == statement_listing(
                *f,
                f.statements@[n as int],
                f.instructions@.len() as int,
            ),
            None => !is_body_statement(*f, n as int),
        },
{
    if n == 0 || n >= f.statements.len() || n == f.statements.len() - 1 {
        return None;
    }
    let s: &Statement = &f.statements[n];
    let end: u64 = s.off as u64 + s.size as u64;
    let mut out: String = cat2(f.name.as_str(), ":\n");
    let mut k: usize = 0;
    while k < f.instructions.len()
        invariant
            k <= f.instructions@.len(),
            end == s.off + s.size,
            out@ == statement_listing(*f, *s, k as int),
        decreases f.instructions.len() - k,
    {
        let i: &Instruction = &f.instructions[k];
        if s.off <= i.off && (i.off as u64) < end {
            let line: String = instruction_text(f, i);
            out.append(line.as_str());
        }
        k = k + 1;
    }
    Some(out)
}

// ---------------------------------------------------------------------------
// Locals
// ---------------------------------------------------------------------------

/// The first `n` locals, a line each.
pub open spec fn info_upto(f: FunctionEntry, n: int) -> Seq<char>
    decreases n,
{
    if n <= 0 {
        f.name@ + ":\n; locals ("@ + dec(f.locals@.len())
            + ") — PDB-recorded, approximate under LTO\n"@
    } else {
        info_upto(f, n - 1) + ("  "@ + f.locals@[n - 1].ty@ + "\t"@ + f.locals@[n - 1].name@
            + "\n"@)
    }
}

/// The locals of a function, with their types.
pub fn render_info(f: &FunctionEntry) -> (r: String)
    ensures
        r@ == info_upto(*f, f.locals@.len() as int),
{
    let mut out: String = cat4(
        f.name.as_str(),
        ":\n; locals (",
        decimal(f.locals.len() as u64).as_str(),
        ") — PDB-recorded, approximate under LTO\n",
    );
    let mut k: usize = 0;
    while k < f.locals.len()
        invariant
            k <= f.locals@.len(),
            out@ == info_upto(*f, k as int),
        decreases f.locals.len() - k,
    {
        let l: &Local = &f.locals[k];
        let line: String = cat5("  ", l.ty.as_str(), "\t", l.name.as_str(), "\n");
        out.append(line.as_str());
        k = k + 1;
    }
    out
}

/// The types of the locals.
pub open spec fn local_types(f: FunctionEntry) -> Seq<Seq<char>> {
    f.locals@.map_values(|l: Local| l.ty@)
}

/// The names of the locals.
pub open spec fn local_names(f: FunctionEntry) -> Seq<Seq<char>> {
    f.locals@.map_values(|l: Local| l.name@)
}

/// One local, its type and name in columns of the given widths.
pub open spec fn local_line(l: Local, wt: int, wn: int) -> Seq<char> {
    let columns = ";   "@ + pad_back(l.ty@, ' ', wt) + "  "@ + pad_back(l.name@, ' ', wn);
    let whole = if l.scope > 0 {
        columns + " | scope: "@ + dec_int(l.scope as int)
    } else {
        columns
    };
    trimmed_end(whole) + "\n"@
}

/// The first `n` locals in columns.
pub open spec fn local_lines(f: FunctionEntry, n: int) -> Seq<char>
    decreases n,
{
    if n <= 0 {
        ""@
    } else {
        local_lines(f, n - 1) + local_line(
            f.locals@[n - 1],
            widest(local_types(f), 0),
            widest(local_names(f), 0),
        )
    }
}

/// The block of locals in the structure view: nothing where there are none.
pub open spec fn locals_block(f: FunctionEntry) -> Seq<char> {
    if f.locals@.len() == 0 {
        ""@
    } else {
        "\n; locals ("@ + dec(f.locals@.len()) + "):\n"@ + local_lines(f, f.locals@.len() as int)
            + "\n"@
    }
}

fn local_columns(f: &FunctionEntry) -> (r: (Vec<String>, Vec<String>))
    ensures
        texts(r.0@) == local_types(*f),
        texts(r.1@) == local_names(*f),
{
    let mut types: Vec<String> = Vec::new();
    let mut names: Vec<String> = Vec::new();
    let mut i: usize = 0;
    while i < f.locals.len()
        invariant
            i <= f.locals@.len(),
            types@.len() == i,
            names@.len() == i,
            forall|k: int| 0 <= k < i ==> (#[trigger] types@[k])@ == f.locals@[k].ty@,
            forall|k: int| 0 <= k < i ==> (#[trigger] names@[k])@ == f.locals@[k].name@,
        decreases f.locals.len() - i,
    {
        types.push(f.locals[i].ty.clone());
        names.push(f.locals[i].name.clone());
        i = i + 1;
    }
    assert(texts(types@) =~= local_types(*f));
    assert(texts(names@) =~= local_names(*f));
    (types, names)
}

fn render_locals(f: &FunctionEntry) -> (r: String)
    ensures
        r@ == locals_block(*f),
{
    if f.locals.len() == 0 {
        return owned("");
    }
    let (types, names): (Vec<String>, Vec<String>) = local_columns(f);
    let wt: usize = widest_of(&types, 0);
    let wn: usize = widest_of(&names, 0);
    let mut lines: String = owned("");
    let mut i: usize = 0;
    while i < f.locals.len()
        invariant
            i <= f.locals@.len(),
            wt == widest(local_types(*f), 0),
            wn == widest(local_names(*f), 0),
            lines@ == local_lines(*f, i as int),
        decreases f.locals.len() - i,
    {
        let l: &Local = &f.locals[i];
        let columns: String = cat4(
            ";   ",
            padded_back(l.ty.as_str(), ' ', wt).as_str(),
            "  ",
            padded_back(l.name.as_str(), ' ', wn).as_str(),
        );
        let whole: String = if l.scope > 0 {
            cat3(columns.as_str(), " | scope: ", decimal_signed(l.scope as i64).as_str())
        } else {
            columns
        };
        let line: String = cat2(trim_end(whole.as_str()).as_str(), "\n");
        lines.append(line.as_str());
        i = i + 1;
    }
    cat5(
        "\n; locals (",
        decimal(f.locals.len() as u64).as_str(),
        "):\n",
        lines.as_str(),
        "\n",
    )
}

// ---------------------------------------------------------------------------
// Structure
// ---------------------------------------------------------------------------

/// How many rows the structure view has: the statements between the braces.
pub open spec fn row_count(f: FunctionEntry) -> int {
    f.statements@.len() - 2
}

/// The statement of row `i`.
pub open spec fn row_stmt(f: FunctionEntry, i: int) -> Statement {
    f.statements@[i + 1]
}

/// How far the next statement is from that of row `i`; it may lie before it.
pub open spec fn row_delta(f: FunctionEntry, i: int) -> int {
    f.statements@[i + 2].off - f.statements@[i + 1].off
}

/// The size of a difference without its sign.
pub open spec fn magnitude(d: int) -> nat {
    if d < 0 {
        (-d) as nat
    } else {
        d as nat
    }
}

/// The digits of the addresses.
pub open spec fn address_column(f: FunctionEntry) -> Seq<Seq<char>> {
    Seq::new(row_count(f) as nat, |i: int| hex(f.address(row_stmt(f, i).off) as nat))
}

/// The digits of the offsets.
pub open spec fn offset_column(f: FunctionEntry) -> Seq<Seq<char>> {
    Seq::new(row_count(f) as nat, |i: int| hex(row_stmt(f, i).off as nat))
}

/// The digits of the sizes.
pub open spec fn size_column(f: FunctionEntry) -> Seq<Seq<char>> {
    Seq::new(row_count(f) as nat, |i: int| hex(magnitude(row_delta(f, i))))
}

/// The source lines.
pub open spec fn line_column(f: FunctionEntry) -> Seq<Seq<char>> {
    Seq::new(row_count(f) as nat, |i: int| dec(row_stmt(f, i).line as nat))
}

/// The mark of a block that opens at a statement.
pub open spec fn scope_cell(depth: i32) -> Seq<char> {
    if depth > 0 {
        "["@ + dec_int(depth as int) + "]"@
    } else {
        ""@
    }
}

/// The marks of blocks.
pub open spec fn scope_column(f: FunctionEntry) -> Seq<Seq<char>> {
    Seq::new(row_count(f) as nat, |i: int| scope_cell(row_stmt(f, i).depth))
}

/// Whether some row opens a block.
pub open spec fn has_scope(f: FunctionEntry) -> bool {
    exists|i: int| 0 <= i < row_count(f) && (#[trigger] row_stmt(f, i)).depth > 0
}

/// Whether some row has source text.
pub open spec fn has_code(f: FunctionEntry) -> bool {
    exists|i: int| 0 <= i < row_count(f) && (#[trigger] row_stmt(f, i)).source is Some
}

/// How the columns are laid out: the digits of addresses, offsets and sizes, the
/// widths of lines and scopes, and which columns there are.
pub struct Layout {
    pub da: usize,
    pub dofs: usize,
    pub dd: usize,
    pub wl: usize,
    pub wsc: usize,
    pub scopes: bool,
    pub code: bool,
}

impl Layout {
    /// The layout of a function's structure view. A column is as wide as its
    /// widest cell and its title need.
    pub open spec fn lays_out(self, f: FunctionEntry) -> bool {
        &&& self.da == widest(address_column(f), 5)
        &&& self.dofs == widest(offset_column(f), 3)
        &&& self.dd == widest(size_column(f), 1)
        &&& self.wl == widest(line_column(f), byte_len("line"@) as int)
        &&& self.wsc == widest(scope_column(f), byte_len("scope"@) as int)
        &&& self.scopes == has_scope(f)
        &&& self.code == has_code(f)
    }

    /// The titles of the columns.
    pub open spec fn titles(self) -> Seq<char> {
        let fixed = pad_back("address"@, ' ', 2 + self.da) + "|"@ + pad_back(
            "offst"@,
            ' ',
            2 + self.dofs,
        ) + "|"@ + centered("size"@, 3 + self.dd);
        let scoped = if self.scopes {
            fixed + "|"@ + centered("scope"@, self.wsc as int)
        } else {
            fixed
        };
        let lined = scoped + "|"@ + pad_back("line"@, ' ', self.wl as int);
        if self.code {
            lined + "|code"@
        } else {
            lined
        }
    }

    /// The rule below the titles.
    pub open spec fn rule(self) -> Seq<char> {
        let fixed = repeated('-', 2 + self.da) + "+"@ + repeated('-', 2 + self.dofs) + "+"@
            + repeated('-', 3 + self.dd);
        let scoped = if self.scopes {
            fixed + "+"@ + repeated('-', self.wsc as int)
        } else {
            fixed
        };
        let lined = scoped + "+"@ + repeated('-', self.wl as int);
        if self.code {
            lined + "+----"@
        } else {
            lined
        }
    }

    /// Row `i`.
    pub open spec fn row(self, f: FunctionEntry, i: int) -> Seq<char> {
        let s = row_stmt(f, i);
        let d = row_delta(f, i);
        let sign = if d < 0 {
            "-"@
        } else {
            "+"@
        };
        let fixed = "0x"@ + pad_front(hex(f.address(s.off) as nat), '0', self.da as int) + "|0x"@
            + pad_front(hex(s.off as nat), '0', self.dofs as int) + "|"@ + sign + "0x"@ + pad_front(
            hex(magnitude(d)),
            '0',
            self.dd as int,
        ) + "|"@;
        let scoped = if self.scopes {
            fixed + pad_back(scope_cell(s.depth), ' ', self.wsc as int) + "|"@
        } else {
            fixed
        };
        let line = dec(s.line as nat);
        match s.source {
            Some(src) => scoped + pad_back(line, ' ', self.wl as int) + "|"@ + src@ + "\n"@,
            None => if self.code {
                scoped + pad_back(line, ' ', self.wl as int) + "|\n"@
            } else {
                scoped + line + "\n"@
            },
        }
    }

    /// The first `n` rows.
    pub open spec fn rows(self, f: FunctionEntry, n: int) -> Seq<char>
        decreases n,
    {
        if n <= 0 {
            ""@
        } else {
            self.rows(f, n - 1) + self.row(f, n - 1)
        }
    }

    /// The blocks that open where no statement does, a line each.
    pub open spec fn skipped_lines(self, f: FunctionEntry, n: int) -> Seq<char>
        decreases n,
    {
        if n <= 0 {
            ""@
        } else {
            let (off, depth) = f.skipped_blocks@[n - 1];
            self.skipped_lines(f, n - 1) + (";   0x"@ + pad_front(
                hex(f.address(off) as nat),
                '0',
                self.da as int,
            ) + "|0x"@ + pad_front(hex(off as nat), '0', self.dofs as int) + "  scope: "@ + dec_int(
                depth as int,
            ) + "\n"@)
        }
    }

    /// The section on the blocks that open where no statement does.
    pub open spec fn skipped(self, f: FunctionEntry) -> Seq<char> {
        let n = f.skipped_blocks@.len();
        if n == 0 {
            ""@
        } else {
            "; skipped blocks ("@ + dec(n) + "):\n"@ + self.skipped_lines(f, n as int)
        }
    }
}

/// The first lines of the structure view.
pub open spec fn structure_heading(f: FunctionEntry) -> Seq<char> {
    let n = if f.body_less() {
        0nat
    } else {
        row_count(f) as nat
    };
    "; 0x"@ + hex(f.address(0) as nat) + ", "@ + dec(n) + " statements, 0x"@ + hex(f.size as nat)
        + " bytes\n"@ + f.name@ + "\n{\n"@ + locals_block(f)
}

/// Whether `text` is the structure view of `f`.
pub open spec fn is_structure_text(f: FunctionEntry, text: Seq<char>) -> bool {
    if f.body_less() {
        text == structure_heading(f) + "}\n"@
    } else {
        exists|l: Layout| #[trigger]
            l.lays_out(f) && text == structure_heading(f) + l.skipped(f) + l.titles() + "\n"@
                + l.rule() + "\n"@ + l.rows(f, row_count(f)) + "}\n"@
    }
}

fn heading_text(f: &FunctionEntry, n: u64) -> (r: String)
    requires
        n == if f.body_less() {
            0
        } else {
            row_count(*f)
        },
    ensures
        r@ == structure_heading(*f),
{
    heading_from(
        hexadecimal(f.va(0) as u64).as_str(),
        decimal(n).as_str(),
        hexadecimal(f.size as u64).as_str(),
        f.name.as_str(),
        render_locals(f).as_str(),
    )
}

fn heading_from(va: &str, n: &str, size: &str, name: &str, locals: &str) -> (r: String)
    ensures
        r@ == "; 0x"@ + va@ + ", "@ + n@ + " statements, 0x"@ + size@ + " bytes\n"@ + name@
            + "\n{\n"@ + locals@,
{
    let mut r: String = cat8("; 0x", va, ", ", n, " statements, 0x", size, " bytes\n", name);
    r.append("\n{\n");
    r.append(locals);
    r
}

fn signed_delta(f: &FunctionEntry, i: usize) -> (r: (bool, u64))
    requires
        0 <= i < row_count(*f),
    ensures
        r.0 == (row_delta(*f, i as int) < 0),
        r.1 == magnitude(row_delta(*f, i as int)),
{
    let len: usize = f.statements.len();
    assert(i + 2 < len);
    let here: u32 = f.statements[i + 1].off;
    let next: u32 = f.statements[i + 2].off;
    if next < here {
        (true, (here - next) as u64)
    } else {
        (false, (next - here) as u64)
    }
}

fn scope_text(depth: i32) -> (r: String)
    ensures
        r@ == scope_cell(depth),
{
    if depth > 0 {
        cat3("[", decimal_signed(depth as i64).as_str(), "]")
    } else {
        owned("")
    }
}

/// Lays out the columns. The widths are small enough for the prefixes to be added.
fn lay_out(f: &FunctionEntry) -> (l: Layout)
    requires
        !f.body_less(),
    ensures
        l.lays_out(*f),
        l.da <= 16,
        l.dofs <= 16,
        l.dd <= 16,
{
    let n: usize = f.statements.len() - 2;
    let mut addresses: Vec<String> = Vec::new();
    let mut offsets: Vec<String> = Vec::new();
    let mut sizes: Vec<String> = Vec::new();
    let mut lines: Vec<String> = Vec::new();
    let mut scopes: Vec<String> = Vec::new();
    let mut scoped: bool = false;
    let mut coded: bool = false;
    let mut i: usize = 0;
    while i < n
        invariant
            n == row_count(*f),
            i <= n,
            addresses@.len() == i,
            offsets@.len() == i,
            sizes@.len() == i,
            lines@.len() == i,
            scopes@.len() == i,
            forall|k: int|
                0 <= k < i ==> (#[trigger] addresses@[k])@ == address_column(*f)[k] && byte_len(
                    addresses@[k]@,
                ) <= 16,
            forall|k: int|
                0 <= k < i ==> (#[trigger] offsets@[k])@ == offset_column(*f)[k] && byte_len(
                    offsets@[k]@,
                ) <= 16,
            forall|k: int|
                0 <= k < i ==> (#[trigger] sizes@[k])@ == size_column(*f)[k] && byte_len(
                    sizes@[k]@,
                ) <= 16,
            forall|k: int| 0 <= k < i ==> (#[trigger] lines@[k])@ == line_column(*f)[k],
            forall|k: int| 0 <= k < i ==> (#[trigger] scopes@[k])@ == scope_column(*f)[k],
            scoped == exists|k: int| 0 <= k < i && (#[trigger] row_stmt(*f, k)).depth > 0,
            coded == exists|k: int| 0 <= k < i && (#[trigger] row_stmt(*f, k)).source is Some,
        decreases n - i,
    {
        let s: &Statement = &f.statements[i + 1];
        assert(row_stmt(*f, i as int) == *s);
        let va: u32 = f.va(s.off);
        let (_, size): (bool, u64) = signed_delta(f, i);
        proof {
            lemma_hex_len_u64(va as u64);
            lemma_hex_len_u64(s.off as u64);
            lemma_hex_len_u64(size);
        }
        addresses.push(hexadecimal(va as u64));
        offsets.push(hexadecimal(s.off as u64));
        sizes.push(hexadecimal(size));
        lines.push(decimal(s.line as u64));
        scopes.push(scope_text(s.depth));
        if s.depth > 0 {
            scoped = true;
        }
        if s.source.is_some() {
            coded = true;
        }
        i = i + 1;
    }
    assert(texts(addresses@) =~= address_column(*f));
    assert(texts(offsets@) =~= offset_column(*f));
    assert(texts(sizes@) =~= size_column(*f));
    assert(texts(lines@) =~= line_column(*f));
    assert(texts(scopes@) =~= scope_column(*f));
    proof {
        lemma_widest(texts(addresses@), 5);
        lemma_widest(texts(offsets@), 3);
        lemma_widest(texts(sizes@), 1);
    }
    Layout {
        da: widest_of(&addresses, 5),
        dofs: widest_of(&offsets, 3),
        dd: widest_of(&sizes, 1),
        wl: widest_of(&lines, len_bytes("line")),
        wsc: widest_of(&scopes, len_bytes("scope")),
        scopes: scoped,
        code: coded,
    }
}

fn titles_text(l: &Layout) -> (r: (String, String))
    requires
        l.da <= 16,
        l.dofs <= 16,
        l.dd <= 16,
    ensures
        r.0@ == l.titles(),
        r.1@ == l.rule(),
{
    let mut titles: String = cat5(
        padded_back("address", ' ', 2 + l.da).as_str(),
        "|",
        padded_back("offst", ' ', 2 + l.dofs).as_str(),
        "|",
        padded_centered("size", 3 + l.dd).as_str(),
    );
    let mut rule: String = cat5(
        repeat('-', 2 + l.da).as_str(),
        "+",
        repeat('-', 2 + l.dofs).as_str(),
        "+",
        repeat('-', 3 + l.dd).as_str(),
    );
    if l.scopes {
        titles.append("|");
        titles.append(padded_centered("scope", l.wsc).as_str());
        rule.append("+");
        rule.append(repeat('-', l.wsc).as_str());
    }
    titles.append("|");
    titles.append(padded_back("line", ' ', l.wl).as_str());
    rule.append("+");
    rule.append(repeat('-', l.wl).as_str());
    if l.code {
        titles.append("|code");
        rule.append("+----");
    }
    (titles, rule)
}

fn row_text(f: &FunctionEntry, l: &Layout, i: usize) -> (r: String)
    requires
        0 <= i < row_count(*f),
    ensures
        r@ == l.row(*f, i as int),
{
    let len: usize = f.statements.len();
    assert(i + 2 < len);
    let s: &Statement = &f.statements[i + 1];
    let (negative, size): (bool, u64) = signed_delta(f, i);
    let sign: &str = if negative {
        "-"
    } else {
        "+"
    };
    let mut out: String = cat8(
        "0x",
        padded_front(hexadecimal(f.va(s.off) as u64).as_str(), '0', l.da).as_str(),
        "|0x",
        padded_front(hexadecimal(s.off as u64).as_str(), '0', l.dofs).as_str(),
        "|",
        sign,
        "0x",
        padded_front(hexadecimal(size).as_str(), '0', l.dd).as_str(),
    );
    out.append("|");
    if l.scopes {
        out.append(padded_back(scope_text(s.depth).as_str(), ' ', l.wsc).as_str());
        out.append("|");
    }
    let line: String = decimal(s.line as u64);
    match &s.source {
        Some(src) => {
            out.append(padded_back(line.as_str(), ' ', l.wl).as_str());
            out.append("|");
            out.append(src.as_str());
            out.append("\n");
        },
        None => {
            if l.code {
                out.append(padded_back(line.as_str(), ' ', l.wl).as_str());
                out.append("|\n");
            } else {
                out.append(line.as_str());
                out.append("\n");
            }
        },
    }
    out
}

fn skipped_text(f: &FunctionEntry, l: &Layout) -> (r: String)
    ensures
        r@ == l.skipped(*f),
{
    let n: usize = f.skipped_blocks.len();
    if n == 0 {
        return owned("");
    }
    let mut lines: String = owned("");
    let mut i: usize = 0;
    while i < n
        invariant
            n == f.skipped_blocks@.len(),
            i <= n,
            lines@ == l.skipped_lines(*f, i as int),
        decreases n - i,
    {
        let (off, depth): (u32, i32) = f.skipped_blocks[i];
        let line: String = cat7(
            ";   0x",
            padded_front(hexadecimal(f.va(off) as u64).as_str(), '0', l.da).as_str(),
            "|0x",
            padded_front(hexadecimal(off as u64).as_str(), '0', l.dofs).as_str(),
            "  scope: ",
            decimal_signed(depth as i64).as_str(),
            "\n",
        );
        lines.append(line.as_str());
        i = i + 1;
    }
    cat4("; skipped blocks (", decimal(n as u64).as_str(), "):\n", lines.as_str())
}

/// The structure of a function: its locals, and one row per statement of its
/// body with address, offset, distance to the next statement and source line.
pub fn render_structure(f: &FunctionEntry) -> (r: String)
    ensures
        is_structure_text(*f, r@),
{
    if f.is_body_less() {
        let heading: String = heading_text(f, 0);
        return cat2(heading.as_str(), "}\n");
    }
    let n: usize = f.statements.len() - 2;
    let heading: String = heading_text(f, n as u64);
    let l: Layout = lay_out(f);
    let (titles, rule): (String, String) = titles_text(&l);
    let mut rows: String = owned("");
    let mut i: usize = 0;
    while i < n
        invariant
            n == row_count(*f),
            i <= n,
            rows@ == l.rows(*f, i as int),
        decreases n - i,
    {
        rows.append(row_text(f, &l, i).as_str());
        i = i + 1;
    }
    let out: String = cat8(
        heading.as_str(),
        skipped_text(f, &l).as_str(),
        titles.as_str(),
        "\n",
        rule.as_str(),
        "\n",
        rows.as_str(),
        "}\n",
    );
    assert(l.lays_out(*f));
    out
}

/// A function has one structure view.
pub proof fn lemma_structure_text_is_unique(f: FunctionEntry, a: Seq<char>, b: Seq<char>)
    requires
        is_structure_text(f, a),
        is_structure_text(f, b),
    ensures
        a == b,
{
    if !f.body_less() {
        let l = choose|l: Layout| #[trigger]
            l.lays_out(f) && a == structure_heading(f) + l.skipped(f) + l.titles() + "\n"@
                + l.rule() + "\n"@ + l.rows(f, row_count(f)) + "}\n"@;
        let m = choose|m: Layout| #[trigger]
            m.lays_out(f) && b == structure_heading(f) + m.skipped(f) + m.titles() + "\n"@
                + m.rule() + "\n"@ + m.rows(f, row_count(f)) + "}\n"@;
        assert(l == m);
    }
}

} // verus!
