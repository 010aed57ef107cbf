//! What holds of the report on the procedures of two databases.

use crate::lcs::{script, views, Step};
use crate::number::{dec, hex};
use crate::parts::{cat_upto, holds, lemma_holds_both, lemma_holds_itself, lemma_holds_pair,
    lemma_holds_piece, lemma_holds_through, lemma_holds_within};
use crate::text::same_ignoring_ascii_case;
use crate::topology_diff::{all_pairs, base_diff, counterpart, declaration_rows_of,
    declarations_shown_text, diff_lines_text, diff_report_text, first_counterpart, is_counterpart,
    line_rows_of, lines_upto, marked_records, match_text, matches_text, own_rows, owned_end,
    pair_text, paired_count, paired_sections, pairs_text, physical_rows_of, row_differences,
    row_keys, rows_text, sections_text, shown_end, target_pairs, top_level, top_level_rows_of,
    top_level_text, type_rows_of, used_upto, with_base_only, DiffReport, LineModel, MatchDiffModel,
    RowModel, SectionModel};
use crate::topology_inspect::{window_end, window_start, MatchModel};
use crate::topology_records::{record_line, RecordModel};
use crate::topology_text::leaf;
use vstd::prelude::*;

verus! {

// ---------------------------------------------------------------------------
// Pairing
// ---------------------------------------------------------------------------

proof fn lemma_first_counterpart(
    base: Seq<MatchModel>,
    used: Seq<int>,
    t: MatchModel,
    in_module: bool,
    from: int,
)
    requires
        0 <= from,
    ensures
        match first_counterpart(base, used, t, in_module, from) {
            Some(i) => from <= i < base.len() && !used.contains(i) && is_counterpart(
                base[i],
                t,
                in_module,
            ),
            None => forall|i: int|
                from <= i < base.len() ==> used.contains(i) || !is_counterpart(
                    #[trigger] base[i],
                    t,
                    in_module,
                ),
        },
    decreases base.len() - from,
{
    if from < base.len() && !(!used.contains(from) && is_counterpart(base[from], t, in_module)) {
        lemma_first_counterpart(base, used, t, in_module, from + 1);
    }
}

/// The counterpart of a procedure has its name and is not taken. It is in a module of the
/// same name where such a one is left. A procedure has none only where all of its name are
/// taken.
pub proof fn lemma_counterpart_has_the_same_name(
    base: Seq<MatchModel>,
    used: Seq<int>,
    t: MatchModel,
)
    ensures
        match counterpart(base, used, t) {
            Some(i) => {
                &&& 0 <= i < base.len()
                &&& !used.contains(i)
                &&& base[i].procedure_name == t.procedure_name
                &&& same_ignoring_ascii_case(leaf(base[i].module_name), leaf(t.module_name)) || (
                forall|k: int|
                    0 <= k < base.len() && (#[trigger] base[k]).procedure_name == t.procedure_name
                        && same_ignoring_ascii_case(leaf(base[k].module_name), leaf(t.module_name))
                        ==> used.contains(k))
            },
            None => forall|k: int|
                0 <= k < base.len() && (#[trigger] base[k]).procedure_name == t.procedure_name
                    ==> used.contains(k),
        },
{
    lemma_first_counterpart(base, used, t, true, 0);
    lemma_first_counterpart(base, used, t, false, 0);
    assert forall|k: int|
        0 <= k < base.len() && (#[trigger] base[k]).procedure_name == t.procedure_name
            && same_ignoring_ascii_case(leaf(base[k].module_name), leaf(t.module_name))
            && !used.contains(k) implies is_counterpart(base[k], t, true) by {}
    assert forall|k: int|
        0 <= k < base.len() && (#[trigger] base[k]).procedure_name == t.procedure_name
            && !used.contains(k) implies is_counterpart(base[k], t, false) by {}
}

proof fn lemma_target_pairs(
    base: Seq<MatchModel>,
    target: Seq<MatchModel>,
    context: usize,
    n: int,
)
    requires
        0 <= n <= target.len(),
    ensures
        target_pairs(base, target, context, n).len() == n,
        forall|i: int|
            0 <= i < n ==> (#[trigger] target_pairs(base, target, context, n)[i]).procedure
                == target[i].procedure_name && target_pairs(
                base,
                target,
                context,
                n,
            )[i].target_module == Some(target[i].module_name),
        forall|i: int|
            0 <= i < n ==> {
                let p = #[trigger] target_pairs(base, target, context, n)[i];
                match counterpart(base, used_upto(base, target, i), target[i]) {
                    Some(k) => p.status == "paired"@ && p.base_module == Some(base[k].module_name)
                        && p.sections == paired_sections(base[k], target[i], context),
                    None => p.status == "target-only"@ && p.base_module is None,
                }
            },
    decreases n,
{
    if n > 0 {
        lemma_target_pairs(base, target, context, n - 1);
        let before = target_pairs(base, target, context, n - 1);
        let all = target_pairs(base, target, context, n);
        assert forall|i: int| 0 <= i < n - 1 implies #[trigger] all[i] == before[i] by {}
    }
}

proof fn lemma_with_base_only(
    v: Seq<MatchDiffModel>,
    base: Seq<MatchModel>,
    used: Seq<int>,
    n: int,
)
    requires
        0 <= n <= base.len(),
    ensures
        with_base_only(v, base, used, n).len() >= v.len(),
        forall|i: int| 0 <= i < v.len() ==> with_base_only(v, base, used, n)[i] == #[trigger] v[i],
        forall|k: int|
            0 <= k < n && !used.contains(k) ==> with_base_only(v, base, used, n).contains(
                base_diff(#[trigger] base[k]),
            ),
    decreases n,
{
    if n > 0 {
        lemma_with_base_only(v, base, used, n - 1);
        let before = with_base_only(v, base, used, n - 1);
        let all = with_base_only(v, base, used, n);
        assert forall|k: int| 0 <= k < n && !used.contains(k) implies all.contains(
            base_diff(#[trigger] base[k]),
        ) by {
            let x = base_diff(base[k]);
            if k < n - 1 {
                let i = before.index_of(x);
                assert(all[i] == x);
            } else {
                assert(all[before.len() as int] == x);
            }
        }
    }
}

/// Whether a procedure of the base is told of by itself.
pub open spec fn stands_alone(all: Seq<MatchDiffModel>, b: MatchModel) -> bool {
    exists|i: int|
        0 <= i < all.len() && (#[trigger] all[i]).procedure == b.procedure_name
            && all[i].base_module == Some(b.module_name) && all[i].target_module is None
            && all[i].status == "base-only"@
}

/// The procedures of the target come first, in order and by name; each is paired exactly
/// where it has a counterpart. Each procedure of the base that no one is paired with follows
/// by itself.
pub proof fn lemma_every_procedure_is_told_of(
    base: Seq<MatchModel>,
    target: Seq<MatchModel>,
    context: usize,
)
    ensures
        ({
            let all = all_pairs(base, target, context);
            let used = used_upto(base, target, target.len() as int);
            &&& all.len() >= target.len()
            &&& forall|i: int|
                0 <= i < target.len() ==> (#[trigger] all[i]).procedure
                    == target[i].procedure_name && all[i].target_module == Some(
                    target[i].module_name,
                ) && (all[i].status == "paired"@ <==> counterpart(
                    base,
                    used_upto(base, target, i),
                    target[i],
                ) is Some) && (all[i].base_module is Some <==> all[i].status == "paired"@)
            &&& forall|k: int|
                0 <= k < base.len() && !used.contains(k) ==> stands_alone(all, #[trigger] base[k])
        }),
{
    let n = target.len() as int;
    let v = target_pairs(base, target, context, n);
    let used = used_upto(base, target, n);
    let all = all_pairs(base, target, context);
    lemma_target_pairs(base, target, context, n);
    lemma_with_base_only(v, base, used, base.len() as int);
    reveal_strlit("paired");
    reveal_strlit("target-only");
    assert("paired"@.len() != "target-only"@.len());
    assert forall|i: int| 0 <= i < n implies #[trigger] all[i] == v[i] by {}
    assert forall|k: int| 0 <= k < base.len() && !used.contains(k) implies stands_alone(
        all,
        #[trigger] base[k],
    ) by {
        let x = base_diff(base[k]);
        assert(all.contains(x));
        let i = all.index_of(x);
        assert(all[i] == x);
    }
}

/// The pairs are counted.
pub proof fn lemma_pairs_are_counted(p: Seq<MatchDiffModel>, n: int)
    requires
        0 <= n <= p.len(),
    ensures
        paired_count(p, n) <= n,
        paired_count(p, n) == n <==> forall|i: int|
            0 <= i < n ==> (#[trigger] p[i]).status == "paired"@,
        paired_count(p, n) == 0 <==> forall|i: int|
            0 <= i < n ==> (#[trigger] p[i]).status != "paired"@,
    decreases n,
{
    if n > 0 {
        lemma_pairs_are_counted(p, n - 1);
        if paired_count(p, n) != n && p[n - 1].status == "paired"@ {
            let i = choose|i: int| 0 <= i < n - 1 && (#[trigger] p[i]).status != "paired"@;
            assert(p[i].status != "paired"@);
        }
        if paired_count(p, n) != 0 && p[n - 1].status != "paired"@ {
            let i = choose|i: int| 0 <= i < n - 1 && (#[trigger] p[i]).status == "paired"@;
            assert(p[i].status == "paired"@);
        }
    }
}

// ---------------------------------------------------------------------------
// Differences
// ---------------------------------------------------------------------------

proof fn lemma_no_line_means_same(b: Seq<RowModel>, t: Seq<RowModel>, ops: Seq<Step>, n: int)
    requires
        0 <= n <= ops.len(),
        lines_upto(b, t, ops, n).len() == 0,
    ensures
        forall|k: int|
            0 <= k < n ==> (#[trigger] ops[k] matches Step::Both(i, j) && b[i].value == t[j].value),
    decreases n,
{
    if n > 0 {
        lemma_no_line_means_same(b, t, ops, n - 1);
    }
}

proof fn lemma_all_both<K>(a: Seq<K>, b: Seq<K>, i: int, j: int)
    requires
        0 <= i <= a.len(),
        0 <= j <= b.len(),
        forall|k: int|
            0 <= k < script(a, b, i, j).len() ==> #[trigger] script(a, b, i, j)[k] is Both,
    ensures
        a.len() - i == b.len() - j,
        script(a, b, i, j).len() == a.len() - i,
        forall|k: int|
            0 <= k < a.len() - i ==> #[trigger] script(a, b, i, j)[k] == Step::Both(i + k, j + k)
                && a[i + k] == b[j + k],
    decreases (a.len() - i) + (b.len() - j),
{
    let s = script(a, b, i, j);
    if i == a.len() && j == b.len() {
    } else {
        assert(s[0] is Both);
        let rest = script(a, b, i + 1, j + 1);
        assert(s =~= seq![Step::Both(i, j)] + rest);
        assert forall|k: int| 0 <= k < rest.len() implies #[trigger] rest[k] is Both by {
            assert(s[k + 1] == rest[k]);
        }
        lemma_all_both(a, b, i + 1, j + 1);
        assert forall|k: int| 0 <= k < a.len() - i implies #[trigger] s[k] == Step::Both(
            i + k,
            j + k,
        ) && a[i + k] == b[j + k] by {
            if k > 0 {
                assert(s[k] == rest[k - 1]);
            }
        }
    }
}

/// Rows that show no difference are the same, one by one.
pub proof fn lemma_no_difference_means_same_rows(b: Seq<RowModel>, t: Seq<RowModel>)
    requires
        row_differences(b, t).len() == 0,
    ensures
        b == t,
{
    reveal(row_differences);
    let x = row_keys(b);
    let y = row_keys(t);
    let ops = script(x, y, 0, 0);
    lemma_no_line_means_same(b, t, ops, ops.len() as int);
    lemma_all_both(x, y, 0, 0);
    assert forall|k: int| 0 <= k < b.len() implies b[k] == t[k] by {
        assert(ops[k] == Step::Both(0 + k, 0 + k));
        assert(x[k] == b[k].key);
        assert(y[k] == t[k].key);
    }
    assert(b =~= t);
}

/// Procedures between which no aspect shows a difference have the same records of their own,
/// the same lines, the same types and declarations around them, and the same neighbours.
pub proof fn lemma_no_difference_means_same_procedures(
    b: MatchModel,
    t: MatchModel,
    context: usize,
)
    requires
        forall|i: int|
            0 <= i < paired_sections(b, t, context).len() ==> (#[trigger] paired_sections(
                b,
                t,
                context,
            )[i]).differences.len() == 0,
    ensures
        own_rows(b) == own_rows(t),
        line_rows_of(b.lines) == line_rows_of(t.lines),
        b.lines.len() == t.lines.len(),
        b.type_rows.len() == t.type_rows.len(),
        b.declaration_rows.len() == t.declaration_rows.len(),
        type_rows_of(b.type_rows) == type_rows_of(
            t.type_rows,
        ),
        declaration_rows_of(b.declaration_rows)
            == declaration_rows_of(t.declaration_rows),
        physical_rows_of(b, context)
            == physical_rows_of(t, context),
        top_level_rows_of(b, context)
            == top_level_rows_of(t, context),
{
    reveal(paired_sections);
    let s = paired_sections(b, t, context);
    assert(s.len() == 6);
    assert(s[0].differences.len() == 0);
    assert(s[1].differences.len() == 0);
    assert(s[2].differences.len() == 0);
    assert(s[3].differences.len() == 0);
    assert(s[4].differences.len() == 0);
    assert(s[5].differences.len() == 0);
    lemma_no_difference_means_same_rows(own_rows(b), own_rows(t));
    lemma_no_difference_means_same_rows(line_rows_of(b.lines), line_rows_of(t.lines));
    let tb = type_rows_of(b.type_rows);
    let tt = type_rows_of(t.type_rows);
    lemma_no_difference_means_same_rows(tb, tt);
    let db = declaration_rows_of(b.declaration_rows);
    let dt = declaration_rows_of(t.declaration_rows);
    lemma_no_difference_means_same_rows(db, dt);
    lemma_no_difference_means_same_rows(
        physical_rows_of(b, context),
        physical_rows_of(t, context),
    );
    lemma_no_difference_means_same_rows(
        top_level_rows_of(b, context),
        top_level_rows_of(t, context),
    );
    assert(line_rows_of(b.lines).len() == b.lines.len());
    assert(line_rows_of(t.lines).len() == t.lines.len());
    assert(tb.len() == b.type_rows.len() && tt.len() == t.type_rows.len());
    assert(db.len() == b.declaration_rows.len() && dt.len() == t.declaration_rows.len());
}

/// The records of a procedure are those from its own on whose indices do not go beyond its
/// end, up to the first that does.
pub proof fn lemma_own_records_end_with_the_procedure(r: Seq<RecordModel>, end: u32, from: int)
    requires
        0 <= from <= r.len(),
    ensures
        from <= owned_end(r, end, from) <= r.len(),
        forall|i: int| from <= i < owned_end(r, end, from) ==> (#[trigger] r[i]).index <= end,
        owned_end(r, end, from) < r.len() ==> r[owned_end(r, end, from)].index > end,
    decreases r.len() - from,
{
    if from < r.len() && r[from].index <= end {
        lemma_own_records_end_with_the_procedure(r, end, from + 1);
    }
}

/// A record stands at the top level exactly where it stands in no scope.
pub proof fn lemma_top_level_is_in_no_scope(r: Seq<RecordModel>, n: int, i: int)
    requires
        0 <= i < n <= r.len(),
    ensures
        top_level(r, n).contains(i) <==> r[i].depth == 0,
    decreases n,
{
    let before = top_level(r, n - 1);
    let all = top_level(r, n);
    if i < n - 1 {
        lemma_top_level_is_in_no_scope(r, n - 1, i);
        if before.contains(i) {
            let k = before.index_of(i);
            assert(all[k] == i);
        }
        if all.contains(i) {
            let k = all.index_of(i);
            if k < before.len() {
                assert(before[k] == i);
            }
        }
    } else {
        lemma_top_level_rises(r, n - 1);
        if r[i].depth == 0 {
            assert(all[before.len() as int] == i);
        } else if all.contains(i) {
            let k = all.index_of(i);
            assert(before[k] < n - 1);
        }
    }
}

proof fn lemma_top_level_rises(r: Seq<RecordModel>, n: int)
    ensures
        forall|k: int| 0 <= k < top_level(r, n).len() ==> 0 <= #[trigger] top_level(r, n)[k] < n,
    decreases n,
{
    if n > 0 {
        lemma_top_level_rises(r, n - 1);
        let before = top_level(r, n - 1);
        let all = top_level(r, n);
        assert forall|k: int| 0 <= k < all.len() implies 0 <= #[trigger] all[k] < n by {
            if k < before.len() {
                assert(all[k] == before[k]);
            }
        }
    }
}

// ---------------------------------------------------------------------------
// The text
// ---------------------------------------------------------------------------

/// Each side of each difference has a line of its own: what was behind a minus, what is
/// behind a plus.
pub proof fn lemma_all_difference_lines_are_shown(d: Seq<LineModel>, n: int, i: int)
    requires
        0 <= i < n <= d.len(),
    ensures
        d[i].base matches Some(b) ==> holds(diff_lines_text(d, n), "- "@ + b + "\n"@),
        d[i].target matches Some(t) ==> holds(diff_lines_text(d, n), "+ "@ + t + "\n"@),
    decreases n,
{
    let before = diff_lines_text(d, n - 1);
    let x = match d[n - 1].base {
        Some(b) => "- "@ + b + "\n"@,
        None => ""@,
    };
    let y = match d[n - 1].target {
        Some(t) => "+ "@ + t + "\n"@,
        None => ""@,
    };
    assert(diff_lines_text(d, n) == before + x + y);
    if i == n - 1 {
        lemma_holds_piece(before, x, y);
        lemma_holds_piece(before + x, y, Seq::empty());
    } else {
        lemma_all_difference_lines_are_shown(d, n - 1, i);
        assert(before + x + y =~= before + (x + y));
        if let Some(b) = d[i].base {
            lemma_holds_within(Seq::empty(), before, x + y, "- "@ + b + "\n"@);
        }
        if let Some(t) = d[i].target {
            lemma_holds_within(Seq::empty(), before, x + y, "+ "@ + t + "\n"@);
        }
    }
}

spec fn section_text(x: SectionModel) -> Seq<char> {
    "\n["@ + x.name + " — "@ + x.confidence + " confidence]\n"@ + (if x.differences.len() == 0 {
        "  no semantic differences\n"@
    } else {
        diff_lines_text(x.differences, x.differences.len() as int)
    })
}

/// Every aspect is shown with its name and how sure it is, above all its differences, or
/// says that there is none.
pub proof fn lemma_all_sections_are_shown(s: Seq<SectionModel>, n: int, i: int)
    requires
        0 <= i < n <= s.len(),
    ensures
        holds(sections_text(s, n), "\n["@ + s[i].name),
        holds(sections_text(s, n), " — "@ + s[i].confidence),
        s[i].differences.len() == 0 ==> holds(sections_text(s, n), "  no semantic differences\n"@),
        s[i].differences.len() > 0 ==> holds(
            sections_text(s, n),
            diff_lines_text(s[i].differences, s[i].differences.len() as int),
        ),
    decreases n,
{
    let before = sections_text(s, n - 1);
    let x = s[i];
    let body = if x.differences.len() == 0 {
        "  no semantic differences\n"@
    } else {
        diff_lines_text(x.differences, x.differences.len() as int)
    };
    assert(sections_text(s, n) == before + section_text(s[n - 1]));
    if i == n - 1 {
        let a = seq!["\n["@, x.name, " — "@, x.confidence, " confidence]\n"@, body];
        reveal_with_fuel(cat_upto, 7);
        let text = section_text(x);
        assert(text == cat_upto(a, 6));
        lemma_holds_pair(a, 6, 0);
        lemma_holds_pair(a, 6, 2);
        lemma_holds_pair(a, 6, 4);
        lemma_holds_both(text, a[4], body);
        lemma_holds_within(before, text, Seq::empty(), a[0] + a[1]);
        lemma_holds_within(before, text, Seq::empty(), a[2] + a[3]);
        lemma_holds_within(before, text, Seq::empty(), body);
    } else {
        lemma_all_sections_are_shown(s, n - 1, i);
        let last = section_text(s[n - 1]);
        lemma_holds_within(Seq::empty(), before, last, "\n["@ + x.name);
        lemma_holds_within(Seq::empty(), before, last, " — "@ + x.confidence);
        lemma_holds_within(Seq::empty(), before, last, body);
    }
}

/// A pair is shown with its name, its status, each module that it has, and its aspects.
pub proof fn lemma_pair_is_shown(p: MatchDiffModel)
    ensures
        holds(pair_text(p), "\n=== "@ + p.procedure),
        holds(pair_text(p), " ["@ + p.status),
        p.target_module matches Some(m) ==> holds(
            pair_text(p),
            "+ target module: "@ + m + "\n"@,
        ),
        p.base_module matches Some(m) ==> holds(pair_text(p), "- base module:   "@ + m + "\n"@),
        holds(pair_text(p), sections_text(p.sections, p.sections.len() as int)),
{
    let t = match p.target_module {
        Some(m) => "+ target module: "@ + m + "\n"@,
        None => ""@,
    };
    let b = match p.base_module {
        Some(m) => "- base module:   "@ + m + "\n"@,
        None => ""@,
    };
    let s = sections_text(p.sections, p.sections.len() as int);
    let a = seq!["\n=== "@, p.procedure, " ["@, p.status, "] ===\n"@, t, b, s];
    reveal_with_fuel(cat_upto, 9);
    assert(pair_text(p) == cat_upto(a, 8));
    lemma_holds_pair(a, 8, 0);
    lemma_holds_pair(a, 8, 2);
    lemma_holds_pair(a, 8, 4);
    lemma_holds_pair(a, 8, 6);
    lemma_holds_both(pair_text(p), a[4], t);
    lemma_holds_both(pair_text(p), b, s);
}

/// Every pair is shown.
pub proof fn lemma_all_pairs_are_shown(p: Seq<MatchDiffModel>, n: int, i: int)
    requires
        0 <= i < n <= p.len(),
    ensures
        holds(pairs_text(p, n), pair_text(p[i])),
    decreases n,
{
    let before = pairs_text(p, n - 1);
    if i == n - 1 {
        lemma_holds_piece(before, pair_text(p[i]), Seq::empty());
    } else {
        lemma_all_pairs_are_shown(p, n - 1, i);
        lemma_holds_within(Seq::empty(), before, pair_text(p[n - 1]), pair_text(p[i]));
    }
}

/// The report names both databases, counts the procedures of each and the pairs, and shows
/// every pair.
pub proof fn lemma_report_shows_all_pairs(r: DiffReport)
    ensures
        ({
            let p = views(r.pairs@);
            let s = diff_report_text(r);
            &&& holds(s, "target PDB: "@ + r.target_pdb@)
            &&& holds(s, "\nbase PDB:   "@ + r.base_pdb@)
            &&& holds(s, "\nmatched target="@ + dec(r.target_matches as nat))
            &&& holds(s, " base="@ + dec(r.base_matches as nat))
            &&& holds(s, " paired="@ + dec(paired_count(p, p.len() as int)))
            &&& forall|i: int| 0 <= i < p.len() ==> holds(s, pair_text(#[trigger] p[i]))
        }),
{
    let p = views(r.pairs@);
    let n = p.len() as int;
    let s = diff_report_text(r);
    let a = seq![
        "target PDB: "@,
        r.target_pdb@,
        "\nbase PDB:   "@,
        r.base_pdb@,
        "\nmatched target="@,
        dec(r.target_matches as nat),
        " base="@,
        dec(r.base_matches as nat),
        " paired="@,
        dec(paired_count(p, n)),
        "\n"@,
        pairs_text(p, n),
    ];
    reveal_with_fuel(cat_upto, 13);
    assert(s == cat_upto(a, 12));
    lemma_holds_pair(a, 12, 0);
    lemma_holds_pair(a, 12, 2);
    lemma_holds_pair(a, 12, 4);
    lemma_holds_pair(a, 12, 6);
    lemma_holds_pair(a, 12, 8);
    lemma_holds_pair(a, 12, 10);
    lemma_holds_both(s, a[10], a[11]);
    assert forall|i: int| 0 <= i < p.len() implies holds(s, pair_text(#[trigger] p[i])) by {
        lemma_all_pairs_are_shown(p, n, i);
        lemma_holds_through(s, a[11], pair_text(p[i]));
    }
}

/// Every record from `lo` up to `hi` has its line, and only that at `at` is marked.
pub proof fn lemma_records_are_shown(r: Seq<RecordModel>, at: int, lo: int, hi: int, i: int)
    requires
        0 <= lo <= i < hi <= r.len(),
    ensures
        i == at ==> holds(marked_records(r, at, lo, hi), record_line(r[i], ">"@)),
        i != at ==> holds(marked_records(r, at, lo, hi), record_line(r[i], " "@)),
    decreases hi - lo,
{
    let before = marked_records(r, at, lo, hi - 1);
    let last = record_line(
        r[hi - 1],
        if hi - 1 == at {
            ">"@
        } else {
            " "@
        },
    );
    if i == hi - 1 {
        lemma_holds_piece(before, last, Seq::empty());
    } else {
        lemma_records_are_shown(r, at, lo, hi - 1, i);
        if i == at {
            lemma_holds_within(Seq::empty(), before, last, record_line(r[i], ">"@));
        } else {
            lemma_holds_within(Seq::empty(), before, last, record_line(r[i], " "@));
        }
    }
}

/// Every row has its line behind the margin.
pub proof fn lemma_rows_are_shown(margin: Seq<char>, rows: Seq<Seq<char>>, n: int, i: int)
    requires
        0 <= i < n <= rows.len(),
    ensures
        holds(rows_text(margin, rows, n), margin + rows[i] + "\n"@),
    decreases n,
{
    let before = rows_text(margin, rows, n - 1);
    let line = margin + rows[i] + "\n"@;
    if i == n - 1 {
        lemma_holds_piece(before, line, Seq::empty());
    } else {
        lemma_rows_are_shown(margin, rows, n - 1, i);
        lemma_holds_within(Seq::empty(), before, margin + rows[n - 1] + "\n"@, line);
    }
}

/// A procedure is shown with its module and object, its own record marked among its records,
/// all its lines, all types around it, and all that declare it or the type that none does.
pub proof fn lemma_match_is_shown(m: MatchModel, context: usize)
    requires
        m.procedure_pos < m.records.len(),
    ensures
        ({
            let s = match_text(m, context);
            &&& holds(s, "\n=== module #"@ + dec(m.module_id as nat))
            &&& holds(s, " ===\nmodule: "@ + m.module_name)
            &&& holds(s, "\nobject/library: "@ + m.object_file_name)
            &&& holds(s, record_line(m.records[m.procedure_pos as int], ">"@))
            &&& forall|i: int|
                0 <= i < m.lines.len() ==> holds(s, "  "@ + #[trigger] m.lines[i] + "\n"@)
            &&& forall|i: int|
                0 <= i < m.type_rows.len() ==> holds(s, ""@ + #[trigger] m.type_rows[i] + "\n"@)
            &&& forall|i: int|
                0 <= i < m.declaration_rows.len() ==> holds(
                    s,
                    ""@ + #[trigger] m.declaration_rows[i] + "\n"@,
                )
            &&& m.declaration_rows.len() == 0 ==> holds(
                s,
                "  no class field-list entry references type 0x"@ + hex(m.procedure_type as nat)
                    + "\n"@,
            )
        }),
{
    let s = match_text(m, context);
    let p = m.procedure_pos as int;
    let h = seq![
        "\n=== module #"@,
        dec(m.module_id as nat),
        " ===\nmodule: "@,
        m.module_name,
        "\nobject/library: "@,
        m.object_file_name,
        "\n\n[explicit procedure evidence — high confidence]\n"@,
    ];
    let own = marked_records(m.records, p, p, shown_end(m));
    let lines = rows_text("  "@, m.lines, m.lines.len() as int);
    let types = rows_text(""@, m.type_rows, m.type_rows.len() as int);
    let near = marked_records(
        m.records,
        p,
        window_start(p, context as int),
        window_end(p, context as int, m.records.len() as int),
    );
    let b = seq![
        "\n[class field-list binding — high confidence; duplicate signatures may have several candidates]\n"@,
        declarations_shown_text(m),
        "\n[physical record adjacency — heuristic only]\n"@,
        near,
        top_level_text(m, context),
    ];
    reveal_with_fuel(cat_upto, 8);
    let head = cat_upto(h, 7);
    let tail = cat_upto(b, 5);
    let a = seq![
        head,
        own,
        "\n[line-program geometry — high confidence]\n"@,
        lines,
        "\n[TPI record neighborhood — heuristic only; linker-deduplicated]\n"@,
        types,
        tail,
    ];
    assert(s == cat_upto(a, 7));
    lemma_holds_pair(a, 7, 0);
    lemma_holds_pair(a, 7, 2);
    lemma_holds_pair(a, 7, 5);
    lemma_holds_both(s, head, own);
    lemma_holds_both(s, a[2], lines);
    lemma_holds_both(s, types, tail);
    lemma_holds_pair(h, 7, 0);
    lemma_holds_pair(h, 7, 2);
    lemma_holds_pair(h, 7, 4);
    lemma_holds_through(s, head, h[0] + h[1]);
    lemma_holds_through(s, head, h[2] + h[3]);
    lemma_holds_through(s, head, h[4] + h[5]);
    lemma_own_records_end_with_the_procedure(m.records, m.procedure_end, p + 1);
    lemma_records_are_shown(m.records, p, p, shown_end(m), p);
    lemma_holds_through(s, own, record_line(m.records[p], ">"@));
    assert forall|i: int| 0 <= i < m.lines.len() implies holds(
        s,
        "  "@ + #[trigger] m.lines[i] + "\n"@,
    ) by {
        lemma_rows_are_shown("  "@, m.lines, m.lines.len() as int, i);
        lemma_holds_through(s, lines, "  "@ + m.lines[i] + "\n"@);
    }
    assert forall|i: int| 0 <= i < m.type_rows.len() implies holds(
        s,
        ""@ + #[trigger] m.type_rows[i] + "\n"@,
    ) by {
        lemma_rows_are_shown(""@, m.type_rows, m.type_rows.len() as int, i);
        lemma_holds_through(s, types, ""@ + m.type_rows[i] + "\n"@);
    }
    lemma_holds_pair(b, 5, 0);
    lemma_holds_both(tail, b[0], b[1]);
    lemma_holds_through(s, tail, b[1]);
    assert forall|i: int| 0 <= i < m.declaration_rows.len() implies holds(
        s,
        ""@ + #[trigger] m.declaration_rows[i] + "\n"@,
    ) by {
        lemma_rows_are_shown(""@, m.declaration_rows, m.declaration_rows.len() as int, i);
        lemma_holds_through(s, b[1], ""@ + m.declaration_rows[i] + "\n"@);
    }
}

/// All procedures that were found are counted and shown.
pub proof fn lemma_all_matches_are_shown(m: Seq<MatchModel>, context: usize, n: int, i: int)
    requires
        0 <= i < n <= m.len(),
    ensures
        holds(matches_text(m, context, n), match_text(m[i], context)),
        holds(matches_text(m, context, n), "matched "@ + dec(m.len()) + " procedure(s)\n"@),
    decreases n,
{
    let before = matches_text(m, context, n - 1);
    let last = match_text(m[n - 1], context);
    let count = "matched "@ + dec(m.len()) + " procedure(s)\n"@;
    if n == 1 {
        assert(before == count);
        lemma_holds_itself(count);
    } else {
        lemma_all_matches_are_shown(m, context, n - 1, if i < n - 1 {
            i
        } else {
            0
        });
    }
    lemma_holds_within(Seq::empty(), before, last, count);
    if i == n - 1 {
        lemma_holds_piece(before, last, Seq::empty());
    } else {
        lemma_holds_within(Seq::empty(), before, last, match_text(m[i], context));
    }
}

} // verus!
