//! What the text of a structure difference says.

use crate::lcs::{lemma_script, script, Step};
use crate::number::{dec, hex, pad_back, repeated};
use crate::parts::{holds, lemma_holds_piece, lemma_holds_within, only};
use crate::rich_context::FunctionEntry;
use crate::rich_structure_diff::{address_cell, address_in, anchor, base_entry, base_row, base_run,
    base_run_end, body_rows, code_of, diff_heading, digit_count, key_of, keys,
    lemma_structure_diff_shape, merged, quantity_diffs, run_rows, shown, shown_upto, size_cell,
    size_diffs, size_in, stats_line, stmts, stmts_upto, structure_diff, structure_diff_text,
    summary_line, summary_upto, table_of, tag, target_entries, target_row, target_run,
    target_run_end, well_shaped, RowModel, StructModel};
use crate::rich_structure_laws::{base_side, lemma_structure_diff_is_complete, target_stmts};
use crate::search::starts_with;
use vstd::prelude::*;

verus! {

// ---------------------------------------------------------------------------
// The heading
// ---------------------------------------------------------------------------

/// Whether a row tells of a statement that both builds have in one size.
pub open spec fn is_same(d: StructModel) -> bool {
    match d {
        StructModel::Equal { .. } => true,
        _ => false,
    }
}

/// Whether a row tells of a statement that both builds have in another size.
pub open spec fn is_resized(d: StructModel) -> bool {
    match d {
        StructModel::Changed { .. } => true,
        _ => false,
    }
}

/// Whether a row tells of a statement that one build lacks.
pub open spec fn is_alone(d: StructModel) -> bool {
    match d {
        StructModel::OnlyBase { .. } => true,
        StructModel::OnlyTarget { .. } => true,
        _ => false,
    }
}

/// How many of the first `n` rows are of a sort.
pub open spec fn count(ds: Seq<StructModel>, sort: spec_fn(StructModel) -> bool, n: int) -> nat
    decreases n,
{
    if n <= 0 {
        0
    } else {
        count(ds, sort, n - 1) + if sort(ds[n - 1]) {
            1nat
        } else {
            0
        }
    }
}

proof fn lemma_counts(ds: Seq<StructModel>, n: int)
    requires
        0 <= n <= ds.len(),
        forall|i: int|
            0 <= i < ds.len() ==> is_same(#[trigger] ds[i]) || is_resized(ds[i]) || is_alone(ds[i]),
    ensures
        size_diffs(ds, n) == count(ds, |d: StructModel| is_resized(d), n),
        quantity_diffs(ds, n) == count(ds, |d: StructModel| is_alone(d), n),
        size_diffs(ds, n) + quantity_diffs(ds, n) == count(ds, |d: StructModel| !is_same(d), n),
        size_diffs(ds, n) + quantity_diffs(ds, n) == 0 <==> forall|i: int|
            0 <= i < n ==> is_same(#[trigger] ds[i]),
    decreases n,
{
    if n > 0 {
        lemma_counts(ds, n - 1);
        assert(is_same(ds[n - 1]) || is_resized(ds[n - 1]) || is_alone(ds[n - 1]));
    }
}

proof fn lemma_shown(rows: Seq<StructModel>, n: int)
    requires
        0 <= n <= rows.len(),
        forall|i: int| 0 <= i < rows.len() ==> well_shaped(#[trigger] rows[i]),
    ensures
        forall|i: int|
            0 <= i < shown_upto(rows, n).len() ==> {
                let d = #[trigger] shown_upto(rows, n)[i];
                &&& is_same(d) || is_resized(d) || is_alone(d)
                &&& well_shaped(d)
                &&& rows.contains(d)
            },
        forall|i: int|
            0 <= i < n && (is_same(#[trigger] rows[i]) || is_resized(rows[i]) || is_alone(rows[i]))
                ==> shown_upto(rows, n).contains(rows[i]),
    decreases n,
{
    if n > 0 {
        lemma_shown(rows, n - 1);
        let before = shown_upto(rows, n - 1);
        let all = shown_upto(rows, n);
        assert forall|i: int| 0 <= i < all.len() implies {
            let d = #[trigger] all[i];
            &&& is_same(d) || is_resized(d) || is_alone(d)
            &&& well_shaped(d)
            &&& rows.contains(d)
        } by {
            if i < before.len() {
                assert(all[i] == before[i]);
            } else {
                assert(rows[n - 1] == all[i]);
            }
        }
        assert forall|i: int|
            0 <= i < n && (is_same(#[trigger] rows[i]) || is_resized(rows[i]) || is_alone(rows[i]))
                implies all.contains(rows[i]) by {
            if i < n - 1 {
                assert(before.contains(rows[i]));
                let k = before.index_of(rows[i]);
                assert(all[k] == rows[i]);
            } else {
                assert(all[before.len() as int] == rows[i]);
            }
        }
    }
}

/// The rows that a structure difference shows.
pub open spec fn shown_rows(base: FunctionEntry, target: FunctionEntry) -> Seq<StructModel> {
    shown(structure_diff(body_rows(base), body_rows(target)))
}

proof fn lemma_shown_rows(base: FunctionEntry, target: FunctionEntry)
    ensures
        forall|i: int|
            0 <= i < shown_rows(base, target).len() ==> {
                let d = #[trigger] shown_rows(base, target)[i];
                &&& is_same(d) || is_resized(d) || is_alone(d)
                &&& well_shaped(d)
            },
{
    let rows = structure_diff(body_rows(base), body_rows(target));
    lemma_structure_diff_shape(body_rows(base), body_rows(target));
    lemma_shown(rows, rows.len() as int);
}

proof fn lemma_text_begins_with_heading(
    base: FunctionEntry,
    target: FunctionEntry,
    condensed: bool,
) -> (rest: Seq<char>)
    ensures
        structure_diff_text(base, target, condensed) == diff_heading(shown_rows(base, target))
            + rest,
{
    let ds = shown_rows(base, target);
    let h = diff_heading(ds);
    let t = structure_diff_text(base, target, condensed);
    let rest = t.skip(h.len() as int);
    assert(t =~= h + rest);
    rest
}

/// The first line says that the structures match exactly where every row that is shown tells
/// of a statement that both builds have in one size. Otherwise it counts the rows that tell
/// of another size, and those that tell of a statement of one build alone, whichever it is;
/// the two counts add up to the rows that are not the same.
pub proof fn lemma_heading_counts_all_differences(
    base: FunctionEntry,
    target: FunctionEntry,
    condensed: bool,
)
    ensures
        ({
            let ds = shown_rows(base, target);
            let n = ds.len() as int;
            let text = structure_diff_text(base, target, condensed);
            let resized = count(ds, |d: StructModel| is_resized(d), n);
            let alone = count(ds, |d: StructModel| is_alone(d), n);
            let same = forall|i: int| 0 <= i < n ==> is_same(#[trigger] ds[i]);
            &&& same <==> starts_with(text, "; STRUCTURE MATCH\n"@)
            &&& !same ==> starts_with(
                text,
                "; DIFF: size-diffs "@ + dec(resized) + ", quantity-diffs "@ + dec(alone) + "\n"@,
            )
            &&& resized + alone == count(ds, |d: StructModel| !is_same(d), n)
        }),
{
    let ds = shown_rows(base, target);
    let n = ds.len() as int;
    let text = structure_diff_text(base, target, condensed);
    lemma_shown_rows(base, target);
    lemma_counts(ds, n);
    let rest = lemma_text_begins_with_heading(base, target, condensed);
    let resized = count(ds, |d: StructModel| is_resized(d), n);
    let alone = count(ds, |d: StructModel| is_alone(d), n);
    reveal_strlit("; STRUCTURE MATCH\n");
    reveal_strlit("; DIFF: size-diffs ");
    if forall|i: int| 0 <= i < n ==> is_same(#[trigger] ds[i]) {
        assert(text.take("; STRUCTURE MATCH\n"@.len() as int) =~= "; STRUCTURE MATCH\n"@);
    } else {
        let first = "; DIFF: size-diffs "@ + dec(resized) + ", quantity-diffs "@ + dec(alone)
            + "\n"@;
        assert(diff_heading(ds) == first + summary_upto(ds, n));
        assert(text.take(first.len() as int) =~= first);
        assert(text[2] == 'D') by {
            assert(first[2] == 'D');
        }
        assert("; STRUCTURE MATCH\n"@[2] == 'S');
        if starts_with(text, "; STRUCTURE MATCH\n"@) {
            assert(text.take("; STRUCTURE MATCH\n"@.len() as int)[2] == text[2]);
        }
    }
}

proof fn lemma_summary_holds(ds: Seq<StructModel>, i: int, n: int)
    requires
        0 <= i < n <= ds.len(),
    ensures
        holds(summary_upto(ds, n), summary_line(i + 1, ds[i])),
    decreases n,
{
    let before = summary_upto(ds, n - 1);
    let line = summary_line(n, ds[n - 1]);
    if i < n - 1 {
        lemma_summary_holds(ds, i, n - 1);
        lemma_holds_within(Seq::empty(), before, line, summary_line(i + 1, ds[i]));
    } else {
        lemma_holds_piece(before, line, Seq::empty());
    }
}

/// Every row that is not the same has a line of its own at the head of the text, with its
/// number, the source line of the statement, and what is the matter: for another size how
/// much larger the base is and both sizes, else the build that alone has the statement.
pub proof fn lemma_every_difference_has_a_line(
    base: FunctionEntry,
    target: FunctionEntry,
    condensed: bool,
    i: int,
)
    requires
        0 <= i < shown_rows(base, target).len(),
    ensures
        match shown_rows(base, target)[i] {
            StructModel::Changed {
                base: RowModel::Stmt { size: bs, line, .. },
                target: RowModel::Stmt { size: ts, .. },
            } => holds(
                structure_diff_text(base, target, condensed),
                ";   #"@ + dec((i + 1) as nat) + " b.L"@ + dec(line as nat) + " SIZE "@ + (if bs
                    >= ts {
                    "+0x"@ + hex((bs - ts) as nat)
                } else {
                    "-0x"@ + hex((ts - bs) as nat)
                }) + " (t 0x"@ + hex(ts as nat) + "/b 0x"@ + hex(bs as nat) + ")\n"@,
            ),
            StructModel::OnlyBase { stmt: RowModel::Stmt { line, .. } } => holds(
                structure_diff_text(base, target, condensed),
                ";   #"@ + dec((i + 1) as nat) + " b.L"@ + dec(line as nat) + " B_ONLY\n"@,
            ),
            StructModel::OnlyTarget { stmt: RowModel::Stmt { line, .. } } => holds(
                structure_diff_text(base, target, condensed),
                ";   #"@ + dec((i + 1) as nat) + " t.L"@ + dec(line as nat) + " T_ONLY\n"@,
            ),
            _ => is_same(shown_rows(base, target)[i]),
        },
{
    let ds = shown_rows(base, target);
    let n = ds.len() as int;
    let d = ds[i];
    let text = structure_diff_text(base, target, condensed);
    lemma_shown_rows(base, target);
    lemma_counts(ds, n);
    assert(is_same(d) || is_resized(d) || is_alone(d));
    assert(well_shaped(d));
    if !is_same(d) {
        let rest = lemma_text_begins_with_heading(base, target, condensed);
        lemma_summary_holds(ds, i, n);
        let first = "; DIFF: size-diffs "@ + dec(size_diffs(ds, n)) + ", quantity-diffs "@ + dec(
            quantity_diffs(ds, n),
        ) + "\n"@;
        let s = summary_upto(ds, n);
        lemma_holds_within(first, s, rest, summary_line(i + 1, d));
        assert(text =~= first + s + rest);
    }
}

// ---------------------------------------------------------------------------
// Rows that are the same
// ---------------------------------------------------------------------------

/// Whether a row that tells of one size on both sides is right.
pub open spec fn sizes_agree(d: StructModel) -> bool {
    match d {
        StructModel::Equal {
            base: RowModel::Stmt { size: b, .. },
            target: RowModel::Stmt { size: t, .. },
        } => b == t,
        StructModel::Equal { .. } => false,
        _ => true,
    }
}

proof fn lemma_run_is_not_same(b: Seq<RowModel>, t: Seq<RowModel>, n: int)
    requires
        0 <= n <= t.len(),
    ensures
        forall|i: int|
            0 <= i < target_entries(b, t, n).len() ==> !is_same(#[trigger] target_entries(b, t, n)[i]),
    decreases n,
{
    if n > 0 {
        lemma_run_is_not_same(b, t, n - 1);
        let before = target_entries(b, t, n - 1);
        let all = target_entries(b, t, n);
        assert forall|i: int| 0 <= i < all.len() implies !is_same(#[trigger] all[i]) by {
            if i < before.len() {
                assert(all[i] == before[i]);
            }
        }
    }
}

proof fn lemma_merged_sizes(b: Seq<RowModel>, t: Seq<RowModel>, ops: Seq<Step>, k: int)
    requires
        0 <= k <= ops.len(),
        forall|x: int|
            0 <= x < ops.len() ==> match #[trigger] ops[x] {
                Step::Both(i, j) => key_of(b[i]) == key_of(t[j]),
                _ => true,
            },
    ensures
        forall|i: int|
            0 <= i < merged(b, t, ops, k).len() ==> sizes_agree(#[trigger] merged(b, t, ops, k)[i]),
    decreases ops.len() - k,
{
    if k < ops.len() {
        let all = merged(b, t, ops, k);
        match ops[k] {
            Step::Both(i, j) => {
                lemma_merged_sizes(b, t, ops, k + 1);
                assert(key_of(b[i]) == key_of(t[j]));
                let rest = merged(b, t, ops, k + 1);
                assert forall|x: int| 0 <= x < all.len() implies sizes_agree(#[trigger] all[x]) by {
                    if x > 0 {
                        assert(all[x] == rest[x - 1]);
                    }
                }
            },
            Step::Target(j) => {
                lemma_merged_sizes(b, t, ops, k + 1);
                let rest = merged(b, t, ops, k + 1);
                assert forall|x: int| 0 <= x < all.len() implies sizes_agree(#[trigger] all[x]) by {
                    if x > 0 {
                        assert(all[x] == rest[x - 1]);
                    }
                }
            },
            Step::Base(_) => {
                let e = base_run_end(ops, k);
                let g = target_run_end(ops, e);
                if k < e <= g <= ops.len() {
                    lemma_merged_sizes(b, t, ops, g);
                    let rb = base_run(b, ops, k, e);
                    let rt = target_run(t, ops, e, g);
                    let run = run_rows(rb, rt);
                    let rest = merged(b, t, ops, g);
                    lemma_run_is_not_same(rb, rt, rt.len() as int);
                    assert forall|x: int| 0 <= x < all.len() implies sizes_agree(
                        #[trigger] all[x],
                    ) by {
                        if x < rb.len() {
                            assert(all[x] == run[x]);
                            assert(run[x] == base_entry(rb, rt, x));
                        } else if x < run.len() {
                            assert(all[x] == run[x]);
                            assert(run[x] == target_entries(rb, rt, rt.len() as int)[x - rb.len()]);
                        } else {
                            assert(all[x] == rest[x - run.len()]);
                        }
                    }
                }
            },
        }
    }
}

/// A row that is the same on both sides tells of two statements of one size.
pub proof fn lemma_same_rows_have_one_size(b: Seq<RowModel>, t: Seq<RowModel>)
    ensures
        forall|i: int|
            0 <= i < structure_diff(b, t).len() ==> sizes_agree(#[trigger] structure_diff(b, t)[i]),
{
    let ops = script(keys(b), keys(t), 0, 0);
    lemma_script(keys(b), keys(t), 0, 0);
    assert forall|x: int| 0 <= x < ops.len() implies match #[trigger] ops[x] {
        Step::Both(i, j) => key_of(b[i]) == key_of(t[j]),
        _ => true,
    } by {
        if let Step::Both(i, j) = ops[x] {
            assert(keys(b)[i] == keys(t)[j]);
        }
    }
    lemma_merged_sizes(b, t, ops, 0);
}

proof fn lemma_stmts_push(rows: Seq<RowModel>, x: RowModel)
    ensures
        stmts(rows.push(x)) == if x is Stmt {
            stmts(rows).push(x)
        } else {
            stmts(rows)
        },
{
    lemma_stmts_prefix(rows, x, rows.len() as int);
}

proof fn lemma_stmts_prefix(rows: Seq<RowModel>, x: RowModel, n: int)
    requires
        0 <= n <= rows.len(),
    ensures
        stmts_upto(rows.push(x), n) == stmts_upto(rows, n),
    decreases n,
{
    if n > 0 {
        lemma_stmts_prefix(rows, x, n - 1);
    }
}

proof fn lemma_sides_agree(rows: Seq<StructModel>)
    requires
        forall|i: int| 0 <= i < rows.len() ==> sizes_agree(#[trigger] rows[i]) && !is_resized(rows[i])
            && !is_alone(rows[i]),
    ensures
        stmts(base_side(rows)).len() == target_stmts(rows).len(),
        forall|i: int|
            0 <= i < target_stmts(rows).len() ==> (#[trigger] target_stmts(rows)[i])->size
                == stmts(base_side(rows))[i]->size,
    decreases rows.len(),
{
    if rows.len() > 0 {
        let before = rows.drop_last();
        assert forall|i: int| 0 <= i < before.len() implies sizes_agree(#[trigger] before[i])
            && !is_resized(before[i]) && !is_alone(before[i]) by {
            assert(before[i] == rows[i]);
        }
        lemma_sides_agree(before);
        let last = rows[rows.len() - 1];
        assert(sizes_agree(last) && !is_resized(last) && !is_alone(last));
        let side = base_side(before);
        match last {
            StructModel::Equal { base, target } => {
                lemma_stmts_push(side, base);
            },
            StructModel::EmptyEqual => {
                lemma_stmts_push(side, RowModel::Empty);
            },
            StructModel::EmptyOnlyBase => {
                lemma_stmts_push(side, RowModel::Empty);
            },
            _ => {},
        }
    }
}

/// Where the first line says that the structures match, both bodies have as many statements,
/// and these have the same sizes one by one.
pub proof fn lemma_match_means_same_sizes(
    base: FunctionEntry,
    target: FunctionEntry,
    condensed: bool,
)
    requires
        starts_with(structure_diff_text(base, target, condensed), "; STRUCTURE MATCH\n"@),
    ensures
        stmts(body_rows(base)).len() == stmts(body_rows(target)).len(),
        forall|i: int|
            0 <= i < stmts(body_rows(target)).len() ==> (#[trigger] stmts(
                body_rows(target),
            )[i])->size == stmts(body_rows(base))[i]->size,
{
    let b = body_rows(base);
    let t = body_rows(target);
    let rows = structure_diff(b, t);
    let ds = shown_rows(base, target);
    lemma_heading_counts_all_differences(base, target, condensed);
    lemma_structure_diff_shape(b, t);
    lemma_same_rows_have_one_size(b, t);
    lemma_shown(rows, rows.len() as int);
    assert forall|i: int| 0 <= i < rows.len() implies sizes_agree(#[trigger] rows[i]) && !is_resized(
        rows[i],
    ) && !is_alone(rows[i]) by {
        if is_resized(rows[i]) || is_alone(rows[i]) {
            assert(ds.contains(rows[i]));
            let k = ds.index_of(rows[i]);
            assert(is_same(ds[k]));
        }
    }
    lemma_sides_agree(rows);
    lemma_structure_diff_is_complete(b, t);
}

// ---------------------------------------------------------------------------
// The table
// ---------------------------------------------------------------------------

/// Cells with spaces behind them, and what stands behind the last bar.
pub open spec fn row_of_cells(
    cells: Seq<Seq<char>>,
    spaces: Seq<Seq<char>>,
    code: Seq<char>,
) -> Seq<char> {
    (cells[0] + spaces[0]) + "|"@ + (cells[1] + spaces[1]) + "|"@ + (cells[2] + spaces[2]) + "|"@
        + (cells[3] + spaces[3]) + "|"@ + (cells[4] + spaces[4]) + "|"@ + (cells[5] + spaces[5])
        + "|"@ + code + "\n"@
}

/// Whether a text has a row of the given cells, with nothing but spaces between a cell and
/// the bar behind it.
#[verifier::opaque]
pub open spec fn has_row(text: Seq<char>, cells: Seq<Seq<char>>, code: Seq<char>) -> bool {
    exists|spaces: Seq<Seq<char>>|
        spaces.len() == 6 && (forall|k: int| 0 <= k < 6 ==> only(#[trigger] spaces[k], ' '))
            && holds(text, #[trigger] row_of_cells(cells, spaces, code))
}

/// Whether a cell is an address in hexadecimal, with zeros before it.
pub open spec fn is_address(cell: Seq<char>, a: u32) -> bool {
    exists|zeros: Seq<char>|
        only(zeros, '0') && cell == "0x"@ + #[trigger] (zeros + hex(a as nat))
}

proof fn lemma_body_holds(
    base: FunctionEntry,
    target: FunctionEntry,
    ds: Seq<StructModel>,
    digits: int,
    condensed: bool,
    i: int,
    n: int,
)
    requires
        0 <= i < n <= ds.len(),
        !condensed || !is_same(ds[i]),
    ensures
        holds(
            table_of(base, target, ds, digits).body(ds, condensed, n),
            table_of(base, target, ds, digits).line(ds, i),
        ),
    decreases n,
{
    let table = table_of(base, target, ds, digits);
    let before = table.body(ds, condensed, n - 1);
    let all = table.body(ds, condensed, n);
    let line = table.line(ds, i);
    if i < n - 1 {
        lemma_body_holds(base, target, ds, digits, condensed, i, n - 1);
        if all != before {
            let more = all.skip(before.len() as int);
            lemma_holds_within(Seq::empty(), before, more, line);
            assert(all =~= before + more);
        }
    } else {
        lemma_holds_piece(before, line, Seq::empty());
    }
}

proof fn lemma_pad_back(s: Seq<char>, w: int) -> (spaces: Seq<char>)
    ensures
        only(spaces, ' '),
        pad_back(s, ' ', w) == s + spaces,
{
    repeated(' ', w - s.len())
}

proof fn lemma_address_cell(a: u32, digits: int)
    ensures
        is_address(address_cell(Some(a), digits), a),
{
    let zeros = repeated('0', digits - hex(a as nat).len());
    assert(only(zeros, '0'));
    assert(address_cell(Some(a), digits) == "0x"@ + (zeros + hex(a as nat)));
}

/// The cells of a row, and its code.
spec fn cells_of(
    base: FunctionEntry,
    target: FunctionEntry,
    digits: int,
    d: StructModel,
) -> (Seq<Seq<char>>, Seq<char>) {
    let (bline, bcode) = if base_row(d) is Some {
        (dec(anchor(d)->line as nat), code_of(anchor(d)))
    } else {
        ("--"@, "--"@)
    };
    (
        seq![
            tag(d),
            address_cell(address_in(target, target_row(d)), digits),
            address_cell(address_in(base, base_row(d)), digits),
            size_cell(size_in(target_row(d))),
            size_cell(size_in(base_row(d))),
            bline,
        ],
        bcode,
    )
}

proof fn lemma_line_is_row(
    base: FunctionEntry,
    target: FunctionEntry,
    ds: Seq<StructModel>,
    digits: int,
    i: int,
) -> (spaces: Seq<Seq<char>>)
    requires
        0 <= i < ds.len(),
    ensures
        spaces.len() == 6,
        forall|k: int| 0 <= k < 6 ==> only(#[trigger] spaces[k], ' '),
        table_of(base, target, ds, digits).line(ds, i) == row_of_cells(
            cells_of(base, target, digits, ds[i]).0,
            spaces,
            cells_of(base, target, digits, ds[i]).1,
        ),
{
    let table = table_of(base, target, ds, digits);
    let (cells, code) = cells_of(base, target, digits, ds[i]);
    let s0 = lemma_pad_back(cells[0], table.wd());
    let s1 = lemma_pad_back(cells[1], table.wta());
    let s2 = lemma_pad_back(cells[2], table.wba());
    let s3 = lemma_pad_back(cells[3], table.wt());
    let s4 = lemma_pad_back(cells[4], table.wb());
    let s5 = lemma_pad_back(cells[5], table.wl());
    seq![s0, s1, s2, s3, s4, s5]
}

proof fn lemma_text_holds_body(
    base: FunctionEntry,
    target: FunctionEntry,
    condensed: bool,
    line: Seq<char>,
)
    requires
        ({
            let ds = shown_rows(base, target);
            let table = table_of(base, target, ds, digit_count(base, target, ds));
            holds(table.body(ds, condensed, ds.len() as int), line)
        }),
    ensures
        holds(structure_diff_text(base, target, condensed), line),
{
    let ds = shown_rows(base, target);
    let n = ds.len() as int;
    let table = table_of(base, target, ds, digit_count(base, target, ds));
    let body = table.body(ds, condensed, n);
    let title = if !condensed || size_diffs(ds, n) + quantity_diffs(ds, n) > 0 {
        table.title()
    } else {
        ""@
    };
    let head = diff_heading(ds) + stats_line("; target 0x"@, target) + stats_line(
        "; base   0x"@,
        base,
    ) + base.name@ + "\n{\n"@ + title;
    assert(structure_diff_text(base, target, condensed) == head + body + "}\n"@);
    lemma_holds_within(head, body, "}\n"@, line);
}

proof fn lemma_row_is_held(base: FunctionEntry, target: FunctionEntry, condensed: bool, i: int)
    requires
        0 <= i < shown_rows(base, target).len(),
        !condensed || !is_same(shown_rows(base, target)[i]),
    ensures
        ({
            let ds = shown_rows(base, target);
            let (cells, code) = cells_of(base, target, digit_count(base, target, ds), ds[i]);
            has_row(structure_diff_text(base, target, condensed), cells, code)
        }),
{
    let ds = shown_rows(base, target);
    let n = ds.len() as int;
    let digits = digit_count(base, target, ds);
    let line = table_of(base, target, ds, digits).line(ds, i);
    reveal(has_row);
    lemma_body_holds(base, target, ds, digits, condensed, i, n);
    lemma_text_holds_body(base, target, condensed, line);
    let spaces = lemma_line_is_row(base, target, ds, digits, i);
    let (cells, code) = cells_of(base, target, digits, ds[i]);
    assert(holds(structure_diff_text(base, target, condensed), row_of_cells(cells, spaces, code)));
}

/// Whether a cell shows an address, or that there is none.
pub open spec fn shows_address(cell: Seq<char>, a: Option<u32>) -> bool {
    match a {
        Some(a) => is_address(cell, a),
        None => cell == "--"@,
    }
}

/// A size as it is shown, or that there is none.
pub open spec fn size_shown(size: Option<u32>) -> Seq<char> {
    match size {
        Some(n) => "0x"@ + hex(n as nat),
        None => "--"@,
    }
}

/// Whether a text has a row with the given mark, with the addresses and sizes of the two
/// builds, the target's first, with a source line and the code of it.
pub open spec fn tells(
    text: Seq<char>,
    mark: Seq<char>,
    addresses: (Option<u32>, Option<u32>),
    sizes: (Option<u32>, Option<u32>),
    line: Seq<char>,
    code: Seq<char>,
) -> bool {
    exists|t: Seq<char>, b: Seq<char>|
        #[trigger] shows_address(t, addresses.0) && #[trigger] shows_address(b, addresses.1)
            && has_row(
            text,
            seq![mark, t, b, size_shown(sizes.0), size_shown(sizes.1), line],
            code,
        )
}

/// The code of a statement, or its line where it has none.
pub open spec fn code_shown(source: Option<Seq<char>>, line: u32) -> Seq<char> {
    match source {
        Some(s) => s,
        None => "L"@ + dec(line as nat),
    }
}

/// Whether a text tells of a row.
spec fn tells_of(
    text: Seq<char>,
    base: FunctionEntry,
    target: FunctionEntry,
    d: StructModel,
) -> bool {
    tells(
        text,
        tag(d),
        (address_in(target, target_row(d)), address_in(base, base_row(d))),
        (size_in(target_row(d)), size_in(base_row(d))),
        if base_row(d) is Some {
            dec(anchor(d)->line as nat)
        } else {
            "--"@
        },
        if base_row(d) is Some {
            code_of(anchor(d))
        } else {
            "--"@
        },
    )
}

proof fn lemma_cells_tell(
    text: Seq<char>,
    base: FunctionEntry,
    target: FunctionEntry,
    digits: int,
    d: StructModel,
)
    requires
        has_row(
            text,
            cells_of(base, target, digits, d).0,
            cells_of(base, target, digits, d).1,
        ),
    ensures
        tells_of(text, base, target, d),
{
    let (cells, code) = cells_of(base, target, digits, d);
    let t = address_in(target, target_row(d));
    let b = address_in(base, base_row(d));
    if let Some(a) = t {
        lemma_address_cell(a, digits);
    }
    if let Some(a) = b {
        lemma_address_cell(a, digits);
    }
    let tc = address_cell(t, digits);
    let bc = address_cell(b, digits);
    assert(shows_address(tc, t));
    assert(shows_address(bc, b));
    assert(size_shown(size_in(target_row(d))) == size_cell(size_in(target_row(d))));
    assert(size_shown(size_in(base_row(d))) == size_cell(size_in(base_row(d))));
    let line = if base_row(d) is Some {
        dec(anchor(d)->line as nat)
    } else {
        "--"@
    };
    let again = seq![
        tag(d),
        tc,
        bc,
        size_shown(size_in(target_row(d))),
        size_shown(size_in(base_row(d))),
        line,
    ];
    assert(cells =~= again);
    assert(has_row(text, again, code));
    let addresses = (t, b);
    let sizes = (size_in(target_row(d)), size_in(base_row(d)));
    assert(shows_address(tc, addresses.0) && shows_address(bc, addresses.1));
    assert(again == seq![tag(d), tc, bc, size_shown(sizes.0), size_shown(sizes.1), line]);
    assert(tells(text, tag(d), addresses, sizes, line, code));
}

/// Every row that is shown has a line in the table, with the mark, the address in the target
/// and that in the base, the size in the target and that in the base, the source line and the
/// code of the base. Where a build lacks the statement its cells are open. A condensed table
/// leaves out only the rows that are the same.
pub proof fn lemma_every_row_is_in_the_table(
    base: FunctionEntry,
    target: FunctionEntry,
    condensed: bool,
    i: int,
)
    requires
        0 <= i < shown_rows(base, target).len(),
        !condensed || !is_same(shown_rows(base, target)[i]),
    ensures
        ({
            let text = structure_diff_text(base, target, condensed);
            match shown_rows(base, target)[i] {
                StructModel::Equal {
                    base: RowModel::Stmt { off: bo, size: bs, line, source },
                    target: RowModel::Stmt { off: to, size: ts, .. },
                } => tells(
                    text,
                    ""@,
                    (Some(target.address(to)), Some(base.address(bo))),
                    (Some(ts), Some(bs)),
                    dec(line as nat),
                    code_shown(source, line),
                ),
                StructModel::Changed {
                    base: RowModel::Stmt { off: bo, size: bs, line, source },
                    target: RowModel::Stmt { off: to, size: ts, .. },
                } => tells(
                    text,
                    "SIZE "@ + (if bs >= ts {
                        "+0x"@ + hex((bs - ts) as nat)
                    } else {
                        "-0x"@ + hex((ts - bs) as nat)
                    }),
                    (Some(target.address(to)), Some(base.address(bo))),
                    (Some(ts), Some(bs)),
                    dec(line as nat),
                    code_shown(source, line),
                ),
                StructModel::OnlyBase { stmt: RowModel::Stmt { off, size, line, source } } => tells(
                    text,
                    "B_ONLY"@,
                    (None, Some(base.address(off))),
                    (None, Some(size)),
                    dec(line as nat),
                    code_shown(source, line),
                ),
                StructModel::OnlyTarget { stmt: RowModel::Stmt { off, size, .. } } => tells(
                    text,
                    "T_ONLY"@,
                    (Some(target.address(off)), None),
                    (Some(size), None),
                    "--"@,
                    "--"@,
                ),
                _ => false,
            }
        }),
{
    let d = shown_rows(base, target)[i];
    lemma_shown_rows(base, target);
    assert(is_same(d) || is_resized(d) || is_alone(d));
    assert(well_shaped(d));
    let digits = digit_count(base, target, shown_rows(base, target));
    lemma_row_is_held(base, target, condensed, i);
    lemma_cells_tell(structure_diff_text(base, target, condensed), base, target, digits, d);
}

} // verus!
