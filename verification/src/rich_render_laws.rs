//! What the views of one function say.

use crate::number::{dec, dec_int, hex, pad_back, pad_front, repeated};
use crate::number_laws::{hex_read, lemma_padded_hex_is_read};
use crate::parts::{holds, lemma_holds_piece, lemma_holds_within, only};
use crate::rich_context::{FunctionEntry, Instruction, Statement};
use crate::rich_render::{begun, info_upto, is_structure_text, listing_line, listing_upto,
    locals_block, magnitude, remark, row_count, row_delta, row_stmt, scope_cell, starts_in,
    statement_at, statement_listing, structure_heading, Layout};
use crate::search::starts_with;
use vstd::prelude::*;

verus! {

// ---------------------------------------------------------------------------
// The listing
// ---------------------------------------------------------------------------

/// What stands behind an instruction that begins the given statement.
pub open spec fn remark_on(s: Statement) -> Seq<char> {
    "\t; <0x"@ + hex(s.size as nat) + ">"@ + (match s.source {
        Some(src) => " ; "@ + src@,
        None => ""@,
    })
}

proof fn lemma_remark(s: Statement)
    ensures
        remark(Some(s)) == remark_on(s),
{
    reveal_strlit("> ; ");
    reveal_strlit(">");
    reveal_strlit(" ; ");
    reveal_strlit("");
    assert("> ; "@ =~= ">"@ + " ; "@);
    assert(remark(Some(s)) =~= remark_on(s));
}

/// Whether a text has the line of an instruction, with something behind it: its offset with
/// at least two digits, and its text.
pub open spec fn has_instruction(s: Seq<char>, i: Instruction, behind: Seq<char>) -> bool {
    exists|digits: Seq<char>|
        digits.len() >= 2 && #[trigger] hex_read(digits) == Some(i.off as nat) && holds(
            s,
            "0x"@ + digits + ":    "@ + i.text@ + behind + "\n"@,
        )
}

proof fn lemma_line_holds(f: FunctionEntry, i: Instruction)
    ensures
        has_instruction(listing_line(f, i), i, remark(begun(f, i.off))),
        i.label matches Some(l) ==> starts_with(listing_line(f, i), l@ + ":\n"@),
{
    let digits = pad_front(hex(i.off as nat), '0', 2);
    lemma_padded_hex_is_read(i.off as nat, 2);
    let label = match i.label {
        Some(l) => l@ + ":\n"@,
        None => ""@,
    };
    let rest = "0x"@ + digits + ":    "@ + i.text@ + remark(begun(f, i.off)) + "\n"@;
    let all = listing_line(f, i);
    assert(all =~= label + rest);
    lemma_holds_piece(label, rest, Seq::empty());
    assert(digits.len() >= 2);
    assert(all.take(label.len() as int) =~= label);
}

proof fn lemma_instruction_within(
    x: Seq<char>,
    s: Seq<char>,
    y: Seq<char>,
    i: Instruction,
    behind: Seq<char>,
)
    requires
        has_instruction(s, i, behind),
    ensures
        has_instruction(x + s, i, behind),
        has_instruction(s + y, i, behind),
{
    let digits = choose|digits: Seq<char>|
        digits.len() >= 2 && #[trigger] hex_read(digits) == Some(i.off as nat) && holds(
            s,
            "0x"@ + digits + ":    "@ + i.text@ + behind + "\n"@,
        );
    lemma_holds_within(x, s, y, "0x"@ + digits + ":    "@ + i.text@ + behind + "\n"@);
    assert(hex_read(digits) == Some(i.off as nat));
}

proof fn lemma_listing(f: FunctionEntry, k: int, n: int)
    requires
        0 <= k < n <= f.instructions@.len(),
    ensures
        has_instruction(
            listing_upto(f, n),
            f.instructions@[k],
            remark(begun(f, f.instructions@[k].off)),
        ),
    decreases n,
{
    let before = listing_upto(f, n - 1);
    let last = listing_line(f, f.instructions@[n - 1]);
    let i = f.instructions@[k];
    if k < n - 1 {
        lemma_listing(f, k, n - 1);
        lemma_instruction_within(Seq::empty(), before, last, i, remark(begun(f, i.off)));
    } else {
        lemma_line_holds(f, i);
        lemma_instruction_within(before, last, Seq::empty(), i, remark(begun(f, i.off)));
    }
}

proof fn lemma_statement_at(st: Seq<Statement>, off: u32, n: int)
    requires
        0 <= n <= st.len(),
    ensures
        match statement_at(st, off, n) {
            Some(s) => s.off == off && st.contains(s),
            None => forall|i: int| 0 <= i < n ==> (#[trigger] st[i]).off != off,
        },
    decreases n,
{
    if n > 0 {
        lemma_statement_at(st, off, n - 1);
        if st[n - 1].off == off {
            assert(st.contains(st[n - 1]));
        }
    }
}

/// The listing of a function has each of its instructions. Behind one at which a statement
/// begins stand the size of a statement that begins there and its source; behind the others,
/// and in a function without a body, stands nothing.
pub proof fn lemma_listing_shows_all(f: FunctionEntry, k: int)
    requires
        0 <= k < f.instructions@.len(),
    ensures
        ({
            let text = listing_upto(f, f.instructions@.len() as int);
            let i = f.instructions@[k];
            &&& f.statements@.len() <= 2 || (forall|x: int|
                0 <= x < f.statements@.len() ==> (#[trigger] f.statements@[x]).off != i.off)
                ==> has_instruction(text, i, ""@)
            &&& f.statements@.len() > 2 && (exists|x: int|
                0 <= x < f.statements@.len() && (#[trigger] f.statements@[x]).off == i.off)
                ==> exists|s: Statement|
                f.statements@.contains(s) && s.off == i.off && has_instruction(
                    text,
                    i,
                    #[trigger] remark_on(s),
                )
        }),
{
    let i = f.instructions@[k];
    lemma_listing(f, k, f.instructions@.len() as int);
    lemma_statement_at(f.statements@, i.off, f.statements@.len() as int);
    if let Some(s) = begun(f, i.off) {
        lemma_remark(s);
    }
}

proof fn lemma_statement_listing(f: FunctionEntry, s: Statement, k: int, n: int)
    requires
        0 <= k < n <= f.instructions@.len(),
        s.off <= f.instructions@[k].off < s.off + s.size,
    ensures
        has_instruction(
            statement_listing(f, s, n),
            f.instructions@[k],
            remark(begun(f, f.instructions@[k].off)),
        ),
    decreases n,
{
    let before = statement_listing(f, s, n - 1);
    let last = listing_line(f, f.instructions@[n - 1]);
    let i = f.instructions@[k];
    if k < n - 1 {
        lemma_statement_listing(f, s, k, n - 1);
        lemma_instruction_within(Seq::empty(), before, last, i, remark(begun(f, i.off)));
    } else {
        lemma_line_holds(f, i);
        lemma_instruction_within(before, last, Seq::empty(), i, remark(begun(f, i.off)));
    }
}

/// The listing of a statement has the instructions that start in its code, and it is the
/// heading alone where none does.
pub proof fn lemma_statement_listing_shows_its_code(f: FunctionEntry, s: Statement)
    ensures
        forall|k: int|
            0 <= k < f.instructions@.len() && s.off <= (#[trigger] f.instructions@[k]).off < s.off
                + s.size ==> has_instruction(
                statement_listing(f, s, f.instructions@.len() as int),
                f.instructions@[k],
                remark(begun(f, f.instructions@[k].off)),
            ),
        (forall|k: int|
            0 <= k < f.instructions@.len() ==> !(s.off <= (#[trigger] f.instructions@[k]).off
                < s.off + s.size)) ==> statement_listing(f, s, f.instructions@.len() as int)
            == f.name@ + ":\n"@,
{
    let n = f.instructions@.len() as int;
    assert forall|k: int|
        0 <= k < f.instructions@.len() && s.off <= (#[trigger] f.instructions@[k]).off < s.off
            + s.size implies has_instruction(
        statement_listing(f, s, n),
        f.instructions@[k],
        remark(begun(f, f.instructions@[k].off)),
    ) by {
        lemma_statement_listing(f, s, k, n);
    }
    if forall|k: int|
        0 <= k < f.instructions@.len() ==> !(s.off <= (#[trigger] f.instructions@[k]).off < s.off
            + s.size) {
        lemma_nothing_listed(f, s, n);
    }
}

proof fn lemma_nothing_listed(f: FunctionEntry, s: Statement, n: int)
    requires
        0 <= n <= f.instructions@.len(),
        forall|k: int|
            0 <= k < f.instructions@.len() ==> !(s.off <= (#[trigger] f.instructions@[k]).off
                < s.off + s.size),
    ensures
        statement_listing(f, s, n) == f.name@ + ":\n"@,
    decreases n,
{
    if n > 0 {
        lemma_nothing_listed(f, s, n - 1);
        assert(!starts_in(f.instructions@[n - 1], s));
    }
}

// ---------------------------------------------------------------------------
// The locals
// ---------------------------------------------------------------------------

proof fn lemma_info(f: FunctionEntry, k: int, n: int)
    requires
        0 <= k < n <= f.locals@.len(),
    ensures
        holds(
            info_upto(f, n),
            "  "@ + f.locals@[k].ty@ + "\t"@ + f.locals@[k].name@ + "\n"@,
        ),
    decreases n,
{
    let before = info_upto(f, n - 1);
    let last = "  "@ + f.locals@[n - 1].ty@ + "\t"@ + f.locals@[n - 1].name@ + "\n"@;
    if k < n - 1 {
        lemma_info(f, k, n - 1);
        lemma_holds_within(
            Seq::empty(),
            before,
            last,
            "  "@ + f.locals@[k].ty@ + "\t"@ + f.locals@[k].name@ + "\n"@,
        );
    } else {
        lemma_holds_piece(before, last, Seq::empty());
    }
}

/// The view of the locals has each of them, its type first.
pub proof fn lemma_info_shows_all(f: FunctionEntry)
    ensures
        forall|k: int|
            0 <= k < f.locals@.len() ==> holds(
                info_upto(f, f.locals@.len() as int),
                "  "@ + (#[trigger] f.locals@[k]).ty@ + "\t"@ + f.locals@[k].name@ + "\n"@,
            ),
{
    assert forall|k: int| 0 <= k < f.locals@.len() implies holds(
        info_upto(f, f.locals@.len() as int),
        "  "@ + (#[trigger] f.locals@[k]).ty@ + "\t"@ + f.locals@[k].name@ + "\n"@,
    ) by {
        lemma_info(f, k, f.locals@.len() as int);
    }
}

// ---------------------------------------------------------------------------
// The structure
// ---------------------------------------------------------------------------

/// What a row says of the block that opens at its statement: nothing, or in a column of its
/// own how many blocks are open, where one opens.
pub open spec fn is_block_cell(block: Seq<char>, depth: i32) -> bool {
    ||| block == ""@ && depth <= 0
    ||| exists|spaces: Seq<char>|
        #[trigger] only(spaces, ' ') && block == (if depth > 0 {
            "["@ + dec_int(depth as int) + "]"@
        } else {
            ""@
        }) + spaces + "|"@
}

/// The numbers of a row: an address, an offset, and a size with the sign of how far the next
/// statement is.
pub open spec fn row_numbers(
    address: Seq<char>,
    off: Seq<char>,
    next: int,
    size: Seq<char>,
) -> Seq<char> {
    "0x"@ + address + "|0x"@ + off + "|"@ + (if next < 0 {
        "-"@
    } else {
        "+"@
    }) + "0x"@ + size + "|"@
}

/// The end of a row: a source line, and the source behind a bar where it is known.
pub open spec fn is_row_end(end: Seq<char>, s: Statement) -> bool {
    exists|spaces: Seq<char>|
        #[trigger] only(spaces, ' ') && match s.source {
            Some(src) => end == (dec(s.line as nat) + spaces) + "|"@ + src@ + "\n"@,
            None => end == (dec(s.line as nat) + spaces) + "\n"@ || end == (dec(s.line as nat)
                + spaces) + "|\n"@,
        }
}

/// Whether a row tells of a statement: its address, its offset, how far the next statement is
/// from it, with the sign of that, the block that opens at it, its source line and, where it
/// is known, its source.
pub open spec fn tells_statement(
    row: Seq<char>,
    address: u32,
    s: Statement,
    next: int,
) -> bool {
    exists|a: Seq<char>, o: Seq<char>, d: Seq<char>, block: Seq<char>, end: Seq<char>|
        {
            &&& hex_read(a) == Some(address as nat)
            &&& hex_read(o) == Some(s.off as nat)
            &&& hex_read(d) == Some(
                (if next < 0 {
                    -next
                } else {
                    next
                }) as nat,
            )
            &&& is_block_cell(block, s.depth)
            &&& is_row_end(end, s)
            &&& row == #[trigger] row_numbers(a, o, next, d) + #[trigger] (block + end)
        }
}

proof fn lemma_spaces(s: Seq<char>, w: int) -> (spaces: Seq<char>)
    ensures
        only(spaces, ' '),
        pad_back(s, ' ', w) == s + spaces,
{
    repeated(' ', w - s.len())
}

proof fn lemma_assoc(a: Seq<char>, b: Seq<char>, c: Seq<char>)
    ensures
        a + b + c == a + (b + c),
{
    assert(a + b + c =~= a + (b + c));
}

proof fn lemma_row_end(l: Layout, s: Statement, scoped: Seq<char>, row: Seq<char>) -> (end: Seq<
    char,
>)
    requires
        s.source is Some ==> row == scoped + pad_back(dec(s.line as nat), ' ', l.wl as int) + "|"@
            + s.source->0@ + "\n"@,
        s.source is None && l.code ==> row == scoped + pad_back(
            dec(s.line as nat),
            ' ',
            l.wl as int,
        ) + "|\n"@,
        s.source is None && !l.code ==> row == scoped + dec(s.line as nat) + "\n"@,
    ensures
        is_row_end(end, s),
        row == scoped + end,
{
    let line = dec(s.line as nat);
    let spaces = lemma_spaces(line, l.wl as int);
    let none = Seq::<char>::empty();
    assert(only(none, ' '));
    match s.source {
        Some(src) => {
            let end = (line + spaces) + "|"@ + src@ + "\n"@;
            assert(row =~= scoped + end);
            end
        },
        None => if l.code {
            let end = (line + spaces) + "|\n"@;
            assert(row =~= scoped + end);
            end
        } else {
            let end = (line + none) + "\n"@;
            assert(row =~= scoped + end);
            end
        },
    }
}

proof fn lemma_row(l: Layout, f: FunctionEntry, i: int)
    requires
        l.lays_out(f),
        0 <= i < row_count(f),
    ensures
        tells_statement(
            l.row(f, i),
            f.address(f.statements@[i + 1].off),
            f.statements@[i + 1],
            f.statements@[i + 2].off - f.statements@[i + 1].off,
        ),
{
    let s = row_stmt(f, i);
    let next = row_delta(f, i);
    let a = pad_front(hex(f.address(s.off) as nat), '0', l.da as int);
    let o = pad_front(hex(s.off as nat), '0', l.dofs as int);
    let d = pad_front(hex(magnitude(next)), '0', l.dd as int);
    lemma_padded_hex_is_read(f.address(s.off) as nat, l.da as int);
    lemma_padded_hex_is_read(s.off as nat, l.dofs as int);
    lemma_padded_hex_is_read(magnitude(next), l.dd as int);
    let fixed = row_numbers(a, o, next, d);
    let spaces = lemma_spaces(scope_cell(s.depth), l.wsc as int);
    reveal_strlit("");
    let block = if l.scopes {
        (scope_cell(s.depth) + spaces) + "|"@
    } else {
        ""@
    };
    assert(is_block_cell(block, s.depth)) by {
        if l.scopes {
            assert(block == ((if s.depth > 0 {
                "["@ + dec_int(s.depth as int) + "]"@
            } else {
                ""@
            }) + spaces) + "|"@);
        } else {
            assert(row_stmt(f, i).depth <= 0);
        }
    }
    let scoped = fixed + block;
    assert(l.scopes ==> fixed + pad_back(scope_cell(s.depth), ' ', l.wsc as int) + "|"@ =~= scoped);
    assert(!l.scopes ==> fixed =~= scoped);
    let row = l.row(f, i);
    let end = lemma_row_end(l, s, scoped, row);
    lemma_assoc(fixed, block, end);
    assert(row == row_numbers(a, o, next, d) + (block + end));
}

proof fn lemma_rows_hold(l: Layout, f: FunctionEntry, i: int, n: int)
    requires
        0 <= i < n,
    ensures
        holds(l.rows(f, n), l.row(f, i)),
    decreases n,
{
    let before = l.rows(f, n - 1);
    let last = l.row(f, n - 1);
    if i < n - 1 {
        lemma_rows_hold(l, f, i, n - 1);
        lemma_holds_within(Seq::empty(), before, last, l.row(f, i));
    } else {
        lemma_holds_piece(before, last, Seq::empty());
    }
}

proof fn lemma_skipped_holds(l: Layout, f: FunctionEntry, i: int, n: int)
    requires
        0 <= i < n <= f.skipped_blocks@.len(),
    ensures
        holds(
            l.skipped_lines(f, n),
            "  scope: "@ + dec_int(f.skipped_blocks@[i].1 as int) + "\n"@,
        ),
    decreases n,
{
    let before = l.skipped_lines(f, n - 1);
    let all = l.skipped_lines(f, n);
    let part = "  scope: "@ + dec_int(f.skipped_blocks@[i].1 as int) + "\n"@;
    if i < n - 1 {
        lemma_skipped_holds(l, f, i, n - 1);
        let more = all.skip(before.len() as int);
        assert(all =~= before + more);
        lemma_holds_within(Seq::empty(), before, more, part);
    } else {
        let start = all.take(all.len() - part.len());
        assert(all =~= start + part);
        lemma_holds_piece(start, part, Seq::empty());
    }
}

spec fn structure_front(f: FunctionEntry, l: Layout) -> Seq<char> {
    structure_heading(f) + l.skipped(f) + l.titles() + "\n"@ + l.rule() + "\n"@
}

proof fn lemma_layout(f: FunctionEntry, text: Seq<char>) -> (l: Layout)
    requires
        is_structure_text(f, text),
        f.statements@.len() > 2,
    ensures
        l.lays_out(f),
        text == structure_front(f, l) + l.rows(f, row_count(f)) + "}\n"@,
{
    choose|l: Layout| #[trigger]
        l.lays_out(f) && text == structure_heading(f) + l.skipped(f) + l.titles() + "\n"@
            + l.rule() + "\n"@ + l.rows(f, row_count(f)) + "}\n"@
}

/// The structure view of a function begins with its address, the number of the statements
/// between its braces, its size and its name.
pub proof fn lemma_structure_begins_with_counts(f: FunctionEntry, text: Seq<char>)
    requires
        is_structure_text(f, text),
    ensures
        starts_with(
            text,
            "; 0x"@ + hex(f.address(0) as nat) + ", "@ + dec(
                (if f.statements@.len() <= 2 {
                    0
                } else {
                    f.statements@.len() - 2
                }) as nat,
            ) + " statements, 0x"@ + hex(f.size as nat) + " bytes\n"@ + f.name@ + "\n{\n"@,
        ),
{
    let first = "; 0x"@ + hex(f.address(0) as nat) + ", "@ + dec(
        (if f.statements@.len() <= 2 {
            0
        } else {
            f.statements@.len() - 2
        }) as nat,
    ) + " statements, 0x"@ + hex(f.size as nat) + " bytes\n"@ + f.name@ + "\n{\n"@;
    assert(structure_heading(f) == first + locals_block(f));
    if f.body_less() {
        lemma_first_of_three(first, locals_block(f), "}\n"@);
    } else {
        let l = lemma_layout(f, text);
        let rows = l.rows(f, row_count(f));
        lemma_first_of(first, locals_block(f), l.skipped(f), l.titles(), "\n"@, l.rule(), rows);
    }
}

/// The structure view of a function has a row for each statement between its braces.
pub proof fn lemma_structure_shows_all(f: FunctionEntry, text: Seq<char>, i: int)
    requires
        is_structure_text(f, text),
        1 <= i < f.statements@.len() - 1,
    ensures
        exists|row: Seq<char>|
            holds(text, row) && #[trigger] tells_statement(
                row,
                f.address(f.statements@[i].off),
                f.statements@[i],
                f.statements@[i + 1].off - f.statements@[i].off,
            ),
{
    let l = lemma_layout(f, text);
    lemma_row(l, f, i - 1);
    lemma_rows_hold(l, f, i - 1, row_count(f));
    lemma_holds_within(
        structure_front(f, l),
        l.rows(f, row_count(f)),
        "}\n"@,
        l.row(f, i - 1),
    );
}

/// The structure view of a function tells of each block that opens where no statement begins.
pub proof fn lemma_structure_shows_skipped_blocks(f: FunctionEntry, text: Seq<char>, i: int)
    requires
        is_structure_text(f, text),
        f.statements@.len() > 2,
        0 <= i < f.skipped_blocks@.len(),
    ensures
        holds(text, "  scope: "@ + dec_int(f.skipped_blocks@[i].1 as int) + "\n"@),
{
    let l = lemma_layout(f, text);
    let part = "  scope: "@ + dec_int(f.skipped_blocks@[i].1 as int) + "\n"@;
    let n = f.skipped_blocks@.len();
    let title = "; skipped blocks ("@ + dec(n) + "):\n"@;
    let none = Seq::<char>::empty();
    lemma_skipped_holds(l, f, i, n as int);
    lemma_holds_within(title, l.skipped_lines(f, n as int), none, part);
    let s = l.skipped(f);
    assert(s == title + l.skipped_lines(f, n as int));
    let head = structure_heading(f);
    lemma_holds_within(head, s, l.titles(), part);
    let h2 = head + s + l.titles();
    lemma_holds_within(none, h2, "\n"@, part);
    lemma_holds_within(none, h2 + "\n"@, l.rule(), part);
    lemma_holds_within(none, h2 + "\n"@ + l.rule(), "\n"@, part);
    let front = structure_front(f, l);
    let rows = l.rows(f, row_count(f));
    lemma_holds_within(none, front, rows, part);
    lemma_holds_within(none, front + rows, "}\n"@, part);
}

proof fn lemma_first_of_three(a: Seq<char>, b: Seq<char>, c: Seq<char>)
    ensures
        starts_with((a + b) + c, a),
{
    assert(((a + b) + c).take(a.len() as int) =~= a);
}

proof fn lemma_first_of(
    a: Seq<char>,
    b: Seq<char>,
    c: Seq<char>,
    d: Seq<char>,
    e: Seq<char>,
    f: Seq<char>,
    g: Seq<char>,
)
    ensures
        starts_with((a + b) + c + d + e + f + e + g + "}\n"@, a),
{
    let all = (a + b) + c + d + e + f + e + g + "}\n"@;
    assert(all.take(a.len() as int) =~= a);
}

} // verus!
