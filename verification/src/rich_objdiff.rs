//! The aligned rows of an object-level difference: which symbol they are taken
//! from, what each row counts, and how they are shown.

use crate::number::{hex, hexadecimal, pad_back, pad_front, padded_back, padded_front};
use crate::pieces::{cat2, cat3, cat4, cat5, cat6};
use crate::rich_context::{FunctionEntry, Statement};
use crate::rich_render::statement_at;
use crate::search::opt_text;
use crate::text::{owned, same};
use vstd::prelude::*;
use vstd::string::StringExecFns;

verus! {

/// What an aligned row holds.
#[derive(Clone, Copy, PartialEq, Eq, Debug, Structural)]
pub enum RowKind {
    /// The same on both sides.
    Equal,
    /// The same slot with different instructions.
    Replace,
    /// An instruction of the base only.
    Delete,
    /// An instruction of the target only.
    Insert,
}

/// How an instruction of one side differs from its counterpart.
#[derive(Clone, Copy, PartialEq, Eq, Debug, Structural)]
pub enum InsKind {
    /// Not at all.
    Same,
    /// The mnemonic differs.
    OpMismatch,
    /// Operands differ.
    ArgMismatch,
    /// The instruction is another one.
    Replace,
    /// There is no counterpart.
    Delete,
    /// Only the counterpart is there.
    Insert,
}

/// One slot of one side of an object-level difference.
#[derive(Debug)]
pub struct InsDiff {
    pub kind: InsKind,
    /// Where the instruction stands, if there is one.
    pub address: Option<u64>,
    /// How many bytes it has, 0 if there is none.
    pub size: u8,
    /// Its text, empty if there is none.
    pub text: String,
    /// For each operand, whether it is the same on the other side.
    pub same_args: Vec<bool>,
}

/// One symbol of one side of an object-level difference.
#[derive(Debug)]
pub struct SymbolDiff {
    pub name: String,
    /// Which symbol of the other side it was compared with.
    pub counterpart: Option<usize>,
    pub instructions: Vec<InsDiff>,
}

/// One aligned row. `base_off` is the distance from the first instruction.
#[derive(Debug)]
pub struct ObjdiffRow {
    pub kind: RowKind,
    pub base: Option<String>,
    pub target: Option<String>,
    pub base_off: Option<u32>,
}

/// What a row counts: `matched` parts of `parts`, weighed by `weight` bytes.
#[derive(Clone, Copy, PartialEq, Eq, Debug, Structural)]
pub struct Credit {
    pub matched: u128,
    pub parts: u128,
    pub weight: u8,
}

/// The rows of a symbol, and what each counts where both sides are there.
#[derive(Debug)]
pub struct ObjdiffResult {
    pub rows: Vec<ObjdiffRow>,
    /// Where absent, the symbol's own measure of agreement is to be taken.
    pub credits: Option<Vec<Credit>>,
}

/// The first symbol of the given name.
pub open spec fn symbol_named(symbols: Seq<SymbolDiff>, name: Seq<char>, from: int) -> Option<int>
    decreases symbols.len() - from,
{
    if from < 0 || from >= symbols.len() {
        None
    } else if symbols[from].name@ == name {
        Some(from)
    } else {
        symbol_named(symbols, name, from + 1)
    }
}

/// The symbol of the base that has the given name, where the target has it too: as its
/// counterpart or by its name.
pub open spec fn symbol_of_both(
    base: Seq<SymbolDiff>,
    target: Seq<SymbolDiff>,
    name: Seq<char>,
) -> Option<int> {
    match symbol_named(base, name, 0) {
        Some(i) => if base[i].counterpart is Some || symbol_named(target, name, 0) is Some {
            Some(i)
        } else {
            None
        },
        None => None,
    }
}

/// The address of the first instruction from slot `from` on, or 0.
pub open spec fn origin_from(ins: Seq<InsDiff>, from: int) -> u64
    decreases ins.len() - from,
{
    if from < 0 || from >= ins.len() {
        0
    } else {
        match ins[from].address {
            Some(a) => a,
            None => origin_from(ins, from + 1),
        }
    }
}

/// The address that offsets are counted from.
pub open spec fn origin(ins: Seq<InsDiff>) -> u64 {
    origin_from(ins, 0)
}

/// Whether no instruction stands before the first.
pub open spec fn addresses_rise(ins: Seq<InsDiff>) -> bool {
    forall|i: int|
        0 <= i < ins.len() ==> ((#[trigger] ins[i]).address matches Some(a) ==> a >= origin(ins))
}

/// How many operands among the first `n` are the same.
pub open spec fn same_count(args: Seq<bool>, n: int) -> nat
    decreases n,
{
    if n <= 0 {
        0
    } else {
        same_count(args, n - 1) + if args[n - 1] {
            1nat
        } else {
            0nat
        }
    }
}

/// What a pair of slots counts: all of it where they are the same; one part for
/// the mnemonic and one for each operand where they differ in these; else
/// nothing. It weighs as much as the target's instruction has bytes.
pub open spec fn credit_of(l: InsDiff, r: InsDiff) -> Credit {
    let args = l.same_args@;
    let same_args = same_count(args, args.len() as int);
    match l.kind {
        InsKind::Same => Credit { matched: 1, parts: 1, weight: r.size },
        InsKind::ArgMismatch => Credit {
            matched: (1 + same_args) as u128,
            parts: (1 + args.len()) as u128,
            weight: r.size,
        },
        InsKind::OpMismatch => Credit {
            matched: same_args as u128,
            parts: (1 + args.len()) as u128,
            weight: r.size,
        },
        _ => Credit { matched: 0, parts: 1, weight: r.size },
    }
}

/// What a row says.
pub struct RowText {
    pub kind: RowKind,
    pub base: Option<Seq<char>>,
    pub target: Option<Seq<char>>,
    pub base_off: Option<u32>,
}

impl View for ObjdiffRow {
    type V = RowText;

    open spec fn view(&self) -> RowText {
        RowText {
            kind: self.kind,
            base: opt_text(self.base),
            target: opt_text(self.target),
            base_off: self.base_off,
        }
    }
}

/// The row of a pair of slots.
pub open spec fn row_of(l: InsDiff, r: InsDiff, origin: u64) -> RowText {
    let base_off = match l.address {
        Some(a) => Some(((a - origin) % 0x1_0000_0000) as u32),
        None => None,
    };
    match l.kind {
        InsKind::Same => RowText {
            kind: RowKind::Equal,
            base: Some(l.text@),
            target: Some(r.text@),
            base_off,
        },
        InsKind::Delete => RowText {
            kind: RowKind::Delete,
            base: Some(l.text@),
            target: None,
            base_off,
        },
        InsKind::Insert => RowText {
            kind: RowKind::Insert,
            base: None,
            target: Some(r.text@),
            base_off,
        },
        _ => RowText {
            kind: RowKind::Replace,
            base: Some(l.text@),
            target: Some(r.text@),
            base_off,
        },
    }
}

/// The symbol that `s` was compared with, where the two can be read slot by slot.
pub open spec fn paired(s: SymbolDiff, target: Seq<SymbolDiff>) -> Option<SymbolDiff> {
    match s.counterpart {
        Some(t) => if t < target.len() && target[t as int].instructions@.len()
            == s.instructions@.len() {
            Some(target[t as int])
        } else {
            None
        },
        None => None,
    }
}

/// Whether `res` holds the rows of symbol `s`: those of the pairs of slots, or of
/// the slots of `s` alone.
pub open spec fn result_of(res: ObjdiffResult, s: SymbolDiff, target: Seq<SymbolDiff>) -> bool {
    let ins = s.instructions@;
    let other = match paired(s, target) {
        Some(t) => t.instructions@,
        None => ins,
    };
    &&& res.rows@.len() == ins.len()
    &&& forall|i: int|
        0 <= i < ins.len() ==> (#[trigger] res.rows@[i])@ == row_of(ins[i], other[i], origin(ins))
    &&& match res.credits {
        Some(c) => paired(s, target) is Some && c@.len() == ins.len() && forall|i: int|
            0 <= i < ins.len() ==> #[trigger] c@[i] == credit_of(ins[i], other[i]),
        None => paired(s, target) is None,
    }
}

/// Whether the slots of a symbol can be read: its counterpart is there, and no instruction
/// stands before its first.
pub open spec fn is_readable(s: SymbolDiff, target: Seq<SymbolDiff>) -> bool {
    &&& addresses_rise(s.instructions@)
    &&& s.counterpart matches Some(t) ==> t < target.len()
}

fn find_symbol(symbols: &Vec<SymbolDiff>, name: &str) -> (r: Option<usize>)
    ensures
        match r {
            Some(i) => symbol_named(symbols@, name@, 0) == Some(i as int) && i < symbols@.len(),
            None => symbol_named(symbols@, name@, 0) is None,
        },
{
    let mut i: usize = 0;
    while i < symbols.len()
        invariant
            i <= symbols@.len(),
            symbol_named(symbols@, name@, 0) == symbol_named(symbols@, name@, i as int),
        decreases symbols.len() - i,
    {
        if same(symbols[i].name.as_str(), name) {
            return Some(i);
        }
        i = i + 1;
    }
    None
}

fn find_in_both(base: &Vec<SymbolDiff>, target: &Vec<SymbolDiff>, name: &str) -> (r: Option<usize>)
    ensures
        match r {
            Some(i) => symbol_of_both(base@, target@, name@) == Some(i as int) && i < base@.len(),
            None => symbol_of_both(base@, target@, name@) is None,
        },
{
    match find_symbol(base, name) {
        Some(i) => {
            if base[i].counterpart.is_some() || find_symbol(target, name).is_some() {
                Some(i)
            } else {
                None
            }
        },
        None => None,
    }
}

fn first_address(ins: &Vec<InsDiff>) -> (r: u64)
    ensures
        r == origin(ins@),
{
    let mut i: usize = 0;
    while i < ins.len()
        invariant
            i <= ins@.len(),
            origin(ins@) == origin_from(ins@, i as int),
        decreases ins.len() - i,
    {
        if let Some(a) = ins[i].address {
            return a;
        }
        i = i + 1;
    }
    0
}

/// Whether the slots of the symbol `mangled` can be read, or not both sides have it.
pub fn can_diff(base: &Vec<SymbolDiff>, target: &Vec<SymbolDiff>, mangled: &str) -> (r: bool)
    ensures
        r == (symbol_of_both(base@, target@, mangled@) matches Some(i) ==> is_readable(
            base@[i],
            target@,
        )),
{
    let at: usize = match find_in_both(base, target, mangled) {
        Some(i) => i,
        None => {
            return true;
        },
    };
    let s: &SymbolDiff = &base[at];
    assert(*s == base@[at as int]);
    if let Some(t) = s.counterpart {
        if t >= target.len() {
            return false;
        }
    }
    let first: u64 = first_address(&s.instructions);
    let mut i: usize = 0;
    while i < s.instructions.len()
        invariant
            i <= s.instructions@.len(),
            at < base@.len(),
            *s == base@[at as int],
            symbol_of_both(base@, target@, mangled@) == Some(at as int),
            first == origin(s.instructions@),
            forall|k: int|
                0 <= k < i ==> ((#[trigger] s.instructions@[k]).address matches Some(a) ==> a
                    >= first),
        decreases s.instructions.len() - i,
    {
        if let Some(a) = s.instructions[i].address {
            if a < first {
                assert(s.instructions@[i as int].address == Some(a));
                assert(!addresses_rise(s.instructions@));
                return false;
            }
        }
        i = i + 1;
    }
    true
}

/// What a pair of slots counts.
pub fn fuzzy_credit(l: &InsDiff, r: &InsDiff) -> (c: Credit)
    ensures
        c == credit_of(*l, *r),
{
    let n: usize = l.same_args.len();
    let mut same_args: usize = 0;
    let mut i: usize = 0;
    while i < n
        invariant
            n == l.same_args@.len(),
            i <= n,
            same_args <= i,
            same_args == same_count(l.same_args@, i as int),
        decreases n - i,
    {
        if l.same_args[i] {
            same_args = same_args + 1;
        }
        i = i + 1;
    }
    match l.kind {
        InsKind::Same => Credit { matched: 1, parts: 1, weight: r.size },
        InsKind::ArgMismatch => Credit {
            matched: same_args as u128 + 1,
            parts: n as u128 + 1,
            weight: r.size,
        },
        InsKind::OpMismatch => Credit {
            matched: same_args as u128,
            parts: n as u128 + 1,
            weight: r.size,
        },
        _ => Credit { matched: 0, parts: 1, weight: r.size },
    }
}

fn make_row(l: &InsDiff, r: &InsDiff, origin: u64) -> (row: ObjdiffRow)
    requires
        l.address matches Some(a) ==> a >= origin,
    ensures
        row@ == row_of(*l, *r, origin),
{
    let base_off: Option<u32> = match l.address {
        Some(a) => Some(((a - origin) % 0x1_0000_0000) as u32),
        None => None,
    };
    match l.kind {
        InsKind::Same => ObjdiffRow {
            kind: RowKind::Equal,
            base: Some(l.text.clone()),
            target: Some(r.text.clone()),
            base_off,
        },
        InsKind::Delete => ObjdiffRow {
            kind: RowKind::Delete,
            base: Some(l.text.clone()),
            target: None,
            base_off,
        },
        InsKind::Insert => ObjdiffRow {
            kind: RowKind::Insert,
            base: None,
            target: Some(r.text.clone()),
            base_off,
        },
        _ => ObjdiffRow {
            kind: RowKind::Replace,
            base: Some(l.text.clone()),
            target: Some(r.text.clone()),
            base_off,
        },
    }
}

/// The rows of the symbol `mangled`, taken from the two sides of an object-level
/// difference; nothing where either side lacks it.
pub fn diff(base: &Vec<SymbolDiff>, target: &Vec<SymbolDiff>, mangled: &str) -> (r: Option<
    ObjdiffResult,
>)
    requires
        symbol_of_both(base@, target@, mangled@) matches Some(i) ==> is_readable(base@[i], target@),
    ensures
        match r {
            Some(res) => symbol_of_both(base@, target@, mangled@) is Some && result_of(
                res,
                base@[symbol_of_both(base@, target@, mangled@)->0],
                target@,
            ),
            None => symbol_of_both(base@, target@, mangled@) is None,
        },
{
    let at: usize = match find_in_both(base, target, mangled) {
        Some(i) => i,
        None => {
            return None;
        },
    };
    let s: &SymbolDiff = &base[at];
    assert(*s == base@[at as int]);
    let first: u64 = first_address(&s.instructions);
    let mut other: &SymbolDiff = s;
    let mut both: bool = false;
    if let Some(t) = s.counterpart {
        if target[t].instructions.len() == s.instructions.len() {
            other = &target[t];
            both = true;
        }
    }
    let mut rows: Vec<ObjdiffRow> = Vec::new();
    let mut credits: Vec<Credit> = Vec::new();
    let mut i: usize = 0;
    while i < s.instructions.len()
        invariant
            i <= s.instructions@.len(),
            s.instructions@.len() == other.instructions@.len(),
            addresses_rise(s.instructions@),
            first == origin(s.instructions@),
            rows@.len() == i,
            credits@.len() == i,
            forall|k: int|
                0 <= k < i ==> (#[trigger] rows@[k])@ == row_of(
                    s.instructions@[k],
                    other.instructions@[k],
                    first,
                ),
            forall|k: int|
                0 <= k < i ==> #[trigger] credits@[k] == credit_of(
                    s.instructions@[k],
                    other.instructions@[k],
                ),
        decreases s.instructions.len() - i,
    {
        let l: &InsDiff = &s.instructions[i];
        let r: &InsDiff = &other.instructions[i];
        assert(s.instructions@[i as int] == *l);
        credits.push(fuzzy_credit(l, r));
        rows.push(make_row(l, r, first));
        i = i + 1;
    }
    Some(
        ObjdiffResult {
            rows,
            credits: if both {
                Some(credits)
            } else {
                None
            },
        },
    )
}

// ---------------------------------------------------------------------------

/// The line that announces the statement at an offset.
pub open spec fn statement_line(off: u32, s: Option<Statement>) -> Seq<char> {
    match s {
        Some(s) => match s.source {
            Some(src) => src@ + "\t; <0x"@ + hex(s.size as nat) + ">\n"@,
            None => "[0x"@ + hex(off as nat) + "]\t; <0x"@ + hex(s.size as nat) + ">\n"@,
        },
        None => ""@,
    }
}

/// A text, empty where there is none.
pub open spec fn or_empty(s: Option<Seq<char>>) -> Seq<char> {
    match s {
        Some(t) => t,
        None => ""@,
    }
}

/// The line of one row.
pub open spec fn row_line(row: RowText) -> Seq<char> {
    let at = match row.base_off {
        Some(o) => "0x"@ + pad_front(hex(o as nat), '0', 2) + ": "@,
        None => ""@,
    };
    match row.kind {
        RowKind::Equal => "  "@ + at + or_empty(row.base) + "\n"@,
        RowKind::Replace => "~ "@ + at + pad_back(or_empty(row.base), ' ', 28) + " -> "@ + or_empty(
            row.target,
        ) + "\n"@,
        RowKind::Delete => "- "@ + at + or_empty(row.base) + "\n"@,
        RowKind::Insert => "+ "@ + or_empty(row.target) + "\n"@,
    }
}

/// The first `n` rows, with the statements of the base between them.
pub open spec fn rows_text(
    base: FunctionEntry,
    percent: Seq<char>,
    rows: Seq<ObjdiffRow>,
    n: int,
) -> Seq<char>
    decreases n,
{
    if n <= 0 {
        base.name@ + ":\n; objdiff fuzzy match "@ + percent + "%\n"@
    } else {
        let row = rows[n - 1]@;
        let statement = match row.base_off {
            Some(off) => statement_line(
                off,
                statement_at(base.statements@, off, base.statements@.len() as int),
            ),
            None => ""@,
        };
        rows_text(base, percent, rows, n - 1) + (statement + row_line(row))
    }
}

fn statement_text(base: &FunctionEntry, off: u32) -> (r: String)
    ensures
        r@ == statement_line(
            off,
            statement_at(base.statements@, off, base.statements@.len() as int),
        ),
{
    let mut n: usize = base.statements.len();
    while n > 0
        invariant
            n <= base.statements@.len(),
            statement_at(base.statements@, off, n as int) == statement_at(
                base.statements@,
                off,
                base.statements@.len() as int,
            ),
        decreases n,
    {
        let s: &Statement = &base.statements[n - 1];
        if s.off == off {
            let size: String = hexadecimal(s.size as u64);
            return match &s.source {
                Some(src) => cat4(src.as_str(), "\t; <0x", size.as_str(), ">\n"),
                None => cat5(
                    "[0x",
                    hexadecimal(off as u64).as_str(),
                    "]\t; <0x",
                    size.as_str(),
                    ">\n",
                ),
            };
        }
        n = n - 1;
    }
    owned("")
}

fn text_or_empty(s: &Option<String>) -> (r: String)
    ensures
        r@ == or_empty(opt_text(*s)),
{
    match s {
        Some(t) => owned(t.as_str()),
        None => owned(""),
    }
}

fn render_row(row: &ObjdiffRow) -> (r: String)
    ensures
        r@ == row_line(row@),
{
    let at: String = match row.base_off {
        Some(o) => cat3("0x", padded_front(hexadecimal(o as u64).as_str(), '0', 2).as_str(), ": "),
        None => owned(""),
    };
    let base: String = text_or_empty(&row.base);
    let target: String = text_or_empty(&row.target);
    match row.kind {
        RowKind::Equal => cat4("  ", at.as_str(), base.as_str(), "\n"),
        RowKind::Replace => cat6(
            "~ ",
            at.as_str(),
            padded_back(base.as_str(), ' ', 28).as_str(),
            " -> ",
            target.as_str(),
            "\n",
        ),
        RowKind::Delete => cat4("- ", at.as_str(), base.as_str(), "\n"),
        RowKind::Insert => cat3("+ ", target.as_str(), "\n"),
    }
}

/// Shows aligned rows, with the statement of the base before each row that
/// begins one. `percent` is the measure of agreement, as it is to be shown.
pub fn render(result: &ObjdiffResult, percent: &str, base: &FunctionEntry) -> (r: String)
    ensures
        r@ == rows_text(*base, percent@, result.rows@, result.rows@.len() as int),
{
    let mut out: String = cat4(base.name.as_str(), ":\n; objdiff fuzzy match ", percent, "%\n");
    let mut i: usize = 0;
    while i < result.rows.len()
        invariant
            i <= result.rows@.len(),
            out@ == rows_text(*base, percent@, result.rows@, i as int),
        decreases result.rows.len() - i,
    {
        let row: &ObjdiffRow = &result.rows[i];
        let statement: String = match row.base_off {
            Some(off) => statement_text(base, off),
            None => owned(""),
        };
        let line: String = cat2(statement.as_str(), render_row(row).as_str());
        out.append(line.as_str());
        i = i + 1;
    }
    out
}

/// A row counts no more than its weight: no more parts match than there are.
pub proof fn lemma_credit_is_a_share(l: InsDiff, r: InsDiff)
    requires
        l.same_args@.len() < u128::MAX,
    ensures
        credit_of(l, r).matched <= credit_of(l, r).parts,
        credit_of(l, r).parts > 0,
        l.kind is Same ==> credit_of(l, r).matched == credit_of(l, r).parts,
{
    lemma_same_count(l.same_args@, l.same_args@.len() as int);
}

proof fn lemma_same_count(args: Seq<bool>, n: int)
    requires
        0 <= n,
    ensures
        same_count(args, n) <= n,
    decreases n,
{
    if n > 0 {
        lemma_same_count(args, n - 1);
    }
}

} // verus!
