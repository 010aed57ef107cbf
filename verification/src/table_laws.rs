//! What holds of tables, of their cells, and of the texts that are cut for them.

use crate::divergence_extract::{holds_any, is_included, Config};
use crate::dyninit::{thunk_name, thunk_query};
use crate::number::{dec, hex, pad_back, pad_front, repeated};
use crate::number_laws::{lemma_hex_is_read, signed_read};
use crate::parts::{cat_upto, holds, lemma_holds_both, lemma_holds_pair, lemma_holds_piece,
    lemma_holds_through, lemma_holds_within};
use crate::paths::{extension_of, last_index, last_name};
use crate::report_stats::{FuncModel, IndexModel};
use crate::search::{contains, ends_with, index_of, lemma_contains, lemma_index_of, matches_at,
    starts_with};
use crate::stats_summary::{bucket_name, BucketStats, TopMeasures, UnitModel};
use crate::stats_tables::{bucket_rows, cell, ellipsed, hex_cell, index_row, index_rows, line_if,
    list_row, name_cells, or_zero, orphan_rows, shown_bytes, shown_name, top_lines, unit_rows,
    COL_WIDTH_ADDR, COL_WIDTH_DEMANGLED, COL_WIDTH_FILE, COL_WIDTH_NAME, COL_WIDTH_PCT,
    COL_WIDTH_RVA, COL_WIDTH_SIZE, COL_WIDTH_UNIT, PercentTexts};
use crate::text::{byte_len, char_index, lemma_byte_len_concat, lemma_char_index, lowercase, texts};
use crate::topology_text::{has_prefix_of, leaf, leaf_start, marker_len, signed_number, tokens_kept,
    unmarked, up_to};
use crate::type_builder::opt;
use vstd::prelude::*;

verus! {

// ---------------------------------------------------------------------------
// Cells
// ---------------------------------------------------------------------------

/// A text that is no longer than its column is shown as it is. A longer one begins as the
/// text does, ends in dots, and is no longer than the column.
pub proof fn lemma_long_texts_are_cut(s: Seq<char>, w: int)
    requires
        w >= 3,
        byte_len(s) <= w || char_index(s, shown_bytes(w)) is Some,
    ensures
        byte_len(s) <= w ==> ellipsed(s, w) == s,
        byte_len(s) > w ==> ends_with(ellipsed(s, w), "..."@) && exists|k: int|
            0 <= k <= s.len() && ellipsed(s, w) == #[trigger] s.take(k) + "..."@,
        byte_len(ellipsed(s, w)) <= w,
{
    if byte_len(s) > w {
        let n = shown_bytes(w);
        lemma_char_index(s, n);
        let k = char_index(s, n)->0;
        let r = ellipsed(s, w);
        reveal_strlit("...");
        lemma_byte_len_concat(s.take(k), "..."@);
        assert(r.skip(r.len() - 3) =~= "..."@);
        reveal_with_fuel(byte_len, 5);
        assert(byte_len("..."@) == 3);
        assert(r == s.take(k) + "..."@);
    }
}

proof fn lemma_cells_hold(s: Seq<char>, c: char, w: int)
    ensures
        holds(pad_front(s, c, w), s),
        holds(pad_back(s, c, w), s),
{
    let fill = repeated(c, w - s.len());
    lemma_holds_piece(fill, s, Seq::empty());
    lemma_holds_piece(Seq::empty(), s, fill);
    assert(Seq::<char>::empty() + s + fill =~= s + fill);
}

proof fn lemma_first_cells(f: FuncModel, demangled: bool)
    ensures
        ({
            let s = name_cells(f, demangled);
            &&& holds(s, ellipsed(f.name, COL_WIDTH_NAME as int))
            &&& holds(s, ellipsed(f.unit, COL_WIDTH_UNIT as int))
            &&& holds(s, "0x"@ + hex(f.size as nat))
            &&& demangled ==> holds(
                s,
                ellipsed(shown_name(f), COL_WIDTH_DEMANGLED as int),
            )
        }),
{
    let wd = COL_WIDTH_DEMANGLED as int;
    let wn = COL_WIDTH_NAME as int;
    let wu = COL_WIDTH_UNIT as int;
    let ws = COL_WIDTH_SIZE as int;
    let d = if demangled {
        cell(shown_name(f), wd) + "  "@
    } else {
        ""@
    };
    let a = seq![
        d,
        cell(f.name, wn),
        "  "@,
        cell(f.unit, wu),
        "  "@,
        hex_cell(f.size as nat, ws),
        "  "@,
    ];
    let s = name_cells(f, demangled);
    reveal_with_fuel(cat_upto, 8);
    assert(s == cat_upto(a, 7));
    lemma_holds_pair(a, 7, 0);
    lemma_holds_pair(a, 7, 3);
    lemma_holds_pair(a, 7, 5);
    lemma_holds_both(s, a[0], a[1]);
    lemma_holds_both(s, a[3], a[4]);
    lemma_holds_both(s, a[5], a[6]);
    lemma_cells_hold(ellipsed(f.name, wn), ' ', wn);
    lemma_cells_hold(ellipsed(f.unit, wu), ' ', wu);
    lemma_cells_hold("0x"@ + hex(f.size as nat), ' ', ws);
    lemma_holds_through(s, a[1], ellipsed(f.name, wn));
    lemma_holds_through(s, a[3], ellipsed(f.unit, wu));
    lemma_holds_through(s, a[5], "0x"@ + hex(f.size as nat));
    if demangled {
        let t = ellipsed(shown_name(f), wd);
        lemma_cells_hold(t, ' ', wd);
        lemma_holds_within(Seq::empty(), cell(shown_name(f), wd), "  "@, t);
        lemma_holds_through(s, d, t);
    }
}

/// The row of a function has its names, its unit, its size and its percentage; where the
/// index knows it its address there and its file, and else its address in the report.
pub proof fn lemma_function_row_tells_all(f: FuncModel, percent: Seq<char>, demangled: bool)
    ensures
        ({
            let s = list_row(f, percent, demangled);
            &&& holds(s, ellipsed(f.name, COL_WIDTH_NAME as int))
            &&& holds(s, ellipsed(f.unit, COL_WIDTH_UNIT as int))
            &&& holds(s, "0x"@ + hex(f.size as nat))
            &&& holds(s, percent)
            &&& demangled ==> holds(
                s,
                ellipsed(shown_name(f), COL_WIDTH_DEMANGLED as int),
            )
            &&& f.enriched matches Some(e) ==> holds(s, "0x"@ + hex(e.0 as nat)) && holds(
                s,
                ellipsed(e.1, COL_WIDTH_FILE as int),
            )
            &&& f.enriched is None ==> holds(s, "0x"@ + hex(f.address as nat))
        }),
        f.demangled matches Some(d) ==> shown_name(f) == d,
        f.demangled is None ==> shown_name(f) == "-"@,
{
    let wp = COL_WIDTH_PCT as int;
    let wr = COL_WIDTH_RVA as int;
    let wf = COL_WIDTH_FILE as int;
    let wa = COL_WIDTH_ADDR as int;
    let place = match f.enriched {
        Some(e) => hex_cell(e.0 as nat, wr) + "  "@ + cell(e.1, wf) + "  "@,
        None => hex_cell(f.address as nat, wa) + "  "@,
    };
    let a = seq![name_cells(f, demangled), pad_front(percent, ' ', wp), "  "@, place, "\n"@];
    let s = list_row(f, percent, demangled);
    reveal_with_fuel(cat_upto, 6);
    assert(s == cat_upto(a, 5));
    lemma_holds_pair(a, 5, 0);
    lemma_holds_pair(a, 5, 3);
    lemma_holds_both(s, a[0], a[1]);
    lemma_holds_both(s, a[3], a[4]);
    lemma_first_cells(f, demangled);
    lemma_holds_through(
        s,
        a[0],
        ellipsed(f.name, COL_WIDTH_NAME as int),
    );
    lemma_holds_through(
        s,
        a[0],
        ellipsed(f.unit, COL_WIDTH_UNIT as int),
    );
    lemma_holds_through(s, a[0], "0x"@ + hex(f.size as nat));
    if demangled {
        lemma_holds_through(
            s,
            a[0],
            ellipsed(shown_name(f), COL_WIDTH_DEMANGLED as int),
        );
    }
    lemma_cells_hold(percent, ' ', wp);
    lemma_holds_through(s, a[1], percent);
    match f.enriched {
        Some(e) => {
            let b = seq![hex_cell(e.0 as nat, wr), "  "@, cell(e.1, wf), "  "@];
            assert(place == cat_upto(b, 4));
            lemma_holds_pair(b, 4, 0);
            lemma_holds_pair(b, 4, 2);
            lemma_holds_both(place, b[0], b[1]);
            lemma_holds_both(place, b[2], b[3]);
            lemma_cells_hold("0x"@ + hex(e.0 as nat), ' ', wr);
            lemma_cells_hold(ellipsed(e.1, wf), ' ', wf);
            lemma_holds_through(place, b[0], "0x"@ + hex(e.0 as nat));
            lemma_holds_through(place, b[2], ellipsed(e.1, wf));
            lemma_holds_through(s, place, "0x"@ + hex(e.0 as nat));
            lemma_holds_through(s, place, ellipsed(e.1, wf));
        },
        None => {
            lemma_cells_hold("0x"@ + hex(f.address as nat), ' ', wa);
            lemma_holds_within(
                Seq::empty(),
                hex_cell(f.address as nat, wa),
                "  "@,
                "0x"@ + hex(f.address as nat),
            );
            lemma_holds_through(s, place, "0x"@ + hex(f.address as nat));
        },
    }
}

/// The row of an entry of the index has its names, its size, its address and its file.
pub proof fn lemma_index_row_tells_all(e: IndexModel)
    ensures
        holds(index_row(e), ellipsed(e.mangled, COL_WIDTH_NAME as int)),
        holds(index_row(e), ellipsed(e.name, COL_WIDTH_DEMANGLED as int)),
        holds(index_row(e), "0x"@ + hex(e.size as nat)),
        holds(index_row(e), "0x"@ + hex(e.rva as nat)),
        holds(index_row(e), ellipsed(e.file, COL_WIDTH_FILE as int)),
{
    let wn = COL_WIDTH_NAME as int;
    let wd = COL_WIDTH_DEMANGLED as int;
    let ws = COL_WIDTH_SIZE as int;
    let wr = COL_WIDTH_RVA as int;
    let wf = COL_WIDTH_FILE as int;
    let a = seq![
        cell(e.mangled, wn),
        "  "@,
        cell(e.name, wd),
        "  "@,
        hex_cell(e.size as nat, ws),
        "  "@,
        hex_cell(e.rva as nat, wr),
        "  "@,
        cell(e.file, wf),
        "\n"@,
    ];
    let s = index_row(e);
    reveal_with_fuel(cat_upto, 11);
    assert(s == cat_upto(a, 10));
    lemma_holds_pair(a, 10, 0);
    lemma_holds_pair(a, 10, 2);
    lemma_holds_pair(a, 10, 4);
    lemma_holds_pair(a, 10, 6);
    lemma_holds_pair(a, 10, 8);
    lemma_holds_both(s, a[0], a[1]);
    lemma_holds_both(s, a[2], a[3]);
    lemma_holds_both(s, a[4], a[5]);
    lemma_holds_both(s, a[6], a[7]);
    lemma_holds_both(s, a[8], a[9]);
    lemma_cells_hold(ellipsed(e.mangled, wn), ' ', wn);
    lemma_cells_hold(ellipsed(e.name, wd), ' ', wd);
    lemma_cells_hold("0x"@ + hex(e.size as nat), ' ', ws);
    lemma_cells_hold("0x"@ + hex(e.rva as nat), ' ', wr);
    lemma_cells_hold(ellipsed(e.file, wf), ' ', wf);
    lemma_holds_through(s, a[0], ellipsed(e.mangled, wn));
    lemma_holds_through(s, a[2], ellipsed(e.name, wd));
    lemma_holds_through(s, a[4], "0x"@ + hex(e.size as nat));
    lemma_holds_through(s, a[6], "0x"@ + hex(e.rva as nat));
    lemma_holds_through(s, a[8], ellipsed(e.file, wf));
}

/// Every entry of the index has its row.
pub proof fn lemma_index_has_all_rows(es: Seq<IndexModel>, n: int, i: int)
    requires
        0 <= i < n <= es.len(),
    ensures
        holds(index_rows(es, n), index_row(es[i])),
    decreases n,
{
    let before = index_rows(es, n - 1);
    if i == n - 1 {
        lemma_holds_piece(before, index_row(es[i]), Seq::empty());
    } else {
        lemma_index_has_all_rows(es, n - 1, i);
        lemma_holds_within(Seq::empty(), before, index_row(es[n - 1]), index_row(es[i]));
    }
}

/// Every function that is in one build only has its row, with its size and its address.
pub proof fn lemma_orphans_have_their_rows(fs: Seq<FuncModel>, demangled: bool, n: int, i: int)
    requires
        0 <= i < n <= fs.len(),
    ensures
        holds(orphan_rows(fs, demangled, n), name_cells(fs[i], demangled)),
        holds(orphan_rows(fs, demangled, n), "0x"@ + hex(fs[i].address as nat)),
    decreases n,
{
    let wa = COL_WIDTH_ADDR as int;
    let before = orphan_rows(fs, demangled, n - 1);
    let f = fs[n - 1];
    let last = name_cells(f, demangled) + hex_cell(f.address as nat, wa) + "\n"@;
    if i == n - 1 {
        let a = seq![name_cells(f, demangled), hex_cell(f.address as nat, wa), "\n"@];
        reveal_with_fuel(cat_upto, 4);
        assert(last == cat_upto(a, 3));
        lemma_holds_pair(a, 3, 0);
        lemma_holds_both(last, a[0], a[1]);
        lemma_cells_hold("0x"@ + hex(f.address as nat), ' ', wa);
        lemma_holds_through(last, a[1], "0x"@ + hex(f.address as nat));
        lemma_holds_within(before, last, Seq::empty(), a[0]);
        lemma_holds_within(before, last, Seq::empty(), "0x"@ + hex(f.address as nat));
    } else {
        lemma_orphans_have_their_rows(fs, demangled, n - 1, i);
        lemma_holds_within(Seq::empty(), before, last, name_cells(fs[i], demangled));
        lemma_holds_within(Seq::empty(), before, last, "0x"@ + hex(fs[i].address as nat));
    }
}

/// Every range has its row, with how many functions are in it and how many bytes.
pub proof fn lemma_ranges_have_their_rows(b: Seq<BucketStats>, n: int, i: int)
    requires
        0 <= i < n <= b.len(),
    ensures
        holds(bucket_rows(b, n), "  0x"@ + hex(b[i].code_bytes as nat)),
        holds(bucket_rows(b, n), pad_front(dec(b[i].count as nat), ' ', 7)),
        holds(bucket_rows(b, n), pad_back(bucket_name(i), ' ', 8)),
    decreases n,
{
    let before = bucket_rows(b, n - 1);
    let x = b[n - 1];
    let last = "  "@ + pad_back(bucket_name(n - 1), ' ', 8) + " "@ + pad_front(
        dec(x.count as nat),
        ' ',
        7,
    ) + "  0x"@ + hex(x.code_bytes as nat) + "\n"@;
    let p = "  0x"@ + hex(b[i].code_bytes as nat);
    let q = pad_front(dec(b[i].count as nat), ' ', 7);
    let r = pad_back(bucket_name(i), ' ', 8);
    if i == n - 1 {
        let a = seq!["  "@, r, " "@, q, "  0x"@, hex(x.code_bytes as nat), "\n"@];
        reveal_with_fuel(cat_upto, 8);
        assert(last == cat_upto(a, 7));
        lemma_holds_pair(a, 7, 0);
        lemma_holds_pair(a, 7, 2);
        lemma_holds_pair(a, 7, 4);
        lemma_holds_both(last, a[0], r);
        lemma_holds_both(last, a[2], q);
        lemma_holds_within(before, last, Seq::empty(), p);
        lemma_holds_within(before, last, Seq::empty(), q);
        lemma_holds_within(before, last, Seq::empty(), r);
    } else {
        lemma_ranges_have_their_rows(b, n - 1, i);
        lemma_holds_within(Seq::empty(), before, last, p);
        lemma_holds_within(Seq::empty(), before, last, q);
        lemma_holds_within(Seq::empty(), before, last, r);
    }
}

/// Every unit has its row, with how many functions it has and how many of them match.
pub proof fn lemma_units_have_their_rows(u: Seq<UnitModel>, n: int, i: int)
    requires
        0 <= i < n <= u.len(),
    ensures
        holds(unit_rows(u, n), cell(u[i].name, COL_WIDTH_UNIT as int)),
        u[i].total_functions matches Some(t) ==> holds(
            unit_rows(u, n),
            " "@ + pad_front(dec(t as nat), ' ', 6),
        ),
        u[i].matched_functions matches Some(t) ==> holds(
            unit_rows(u, n),
            " "@ + pad_front(dec(t as nat), ' ', 6),
        ),
        u[i].total_code matches Some(c) ==> holds(unit_rows(u, n), " "@ + pad_front(c, ' ', 7)),
    decreases n,
{
    let w = COL_WIDTH_UNIT as int;
    let before = unit_rows(u, n - 1);
    let a = unit_cells(u[n - 1]);
    reveal_with_fuel(cat_upto, 10);
    let last = cat_upto(a, 9);
    assert(unit_rows(u, n) == before + last);
    if i == n - 1 {
        lemma_holds_pair(a, 9, 0);
        lemma_holds_both(last, a[0], a[1]);
        lemma_holds_pair(a, 9, 2);
        lemma_holds_pair(a, 9, 4);
        lemma_holds_pair(a, 9, 6);
        lemma_holds_within(before, last, Seq::empty(), a[1]);
        lemma_holds_within(before, last, Seq::empty(), a[2] + a[3]);
        lemma_holds_within(before, last, Seq::empty(), a[4] + a[5]);
        lemma_holds_within(before, last, Seq::empty(), a[6] + a[7]);
    } else {
        lemma_units_have_their_rows(u, n - 1, i);
        lemma_holds_within(Seq::empty(), before, last, cell(u[i].name, w));
        if let Some(t) = u[i].total_functions {
            lemma_holds_within(Seq::empty(), before, last, " "@ + pad_front(dec(t as nat), ' ', 6));
        }
        if let Some(t) = u[i].matched_functions {
            lemma_holds_within(Seq::empty(), before, last, " "@ + pad_front(dec(t as nat), ' ', 6));
        }
        if let Some(c) = u[i].total_code {
            lemma_holds_within(Seq::empty(), before, last, " "@ + pad_front(c, ' ', 7));
        }
    }
}

spec fn unit_cells(x: UnitModel) -> Seq<Seq<char>> {
    seq![
        "  "@,
        cell(x.name, COL_WIDTH_UNIT as int),
        " "@,
        pad_front(dec(or_zero(x.total_functions)), ' ', 6),
        " "@,
        pad_front(dec(or_zero(x.matched_functions)), ' ', 6),
        " "@,
        pad_front(
            match x.total_code {
                Some(s) => s,
                None => "-"@,
            },
            ' ',
            7,
        ),
        "\n"@,
    ]
}

/// The measures of the whole report are told one by one: the counts always, the others where
/// they are known.
pub proof fn lemma_measures_are_told(t: TopMeasures, p: PercentTexts)
    ensures
        ({
            let s = top_lines(t, p);
            &&& t.total_functions matches Some(n) ==> holds(
                s,
                "  total_functions:        "@ + dec(n as nat) + "\n"@,
            )
            &&& t.matched_functions matches Some(n) ==> holds(
                s,
                "  matched_functions:      "@ + dec(n as nat) + "\n"@,
            )
            &&& t.total_code matches Some(c) ==> holds(
                s,
                "  total_code:             "@ + c@ + "\n"@,
            )
            &&& t.matched_code matches Some(c) ==> holds(
                s,
                "  matched_code:           "@ + c@ + "\n"@,
            )
            &&& p.fuzzy_match_percent matches Some(x) ==> holds(
                s,
                "  fuzzy_match_percent:    "@ + x@ + "%\n"@,
            )
            &&& p.matched_functions_percent matches Some(x) ==> holds(
                s,
                "  matched_functions_percent: "@ + x@ + "%\n"@,
            )
            &&& p.matched_code_percent matches Some(x) ==> holds(
                s,
                "  matched_code_percent:   "@ + x@ + "%\n"@,
            )
        }),
{
    let a = seq![
        "=== Top-level ===\n"@,
        line_if("  fuzzy_match_percent:    "@, opt(p.fuzzy_match_percent), "%\n"@),
        "  total_functions:        "@ + dec(or_zero(t.total_functions)) + "\n"@,
        "  matched_functions:      "@ + dec(or_zero(t.matched_functions)) + "\n"@,
        line_if("  matched_functions_percent: "@, opt(p.matched_functions_percent), "%\n"@),
        line_if("  total_code:             "@, opt(t.total_code), "\n"@),
        line_if("  matched_code:           "@, opt(t.matched_code), "\n"@),
        line_if("  matched_code_percent:   "@, opt(p.matched_code_percent), "%\n"@),
    ];
    let s = top_lines(t, p);
    reveal_with_fuel(cat_upto, 9);
    assert(s == cat_upto(a, 8));
    lemma_holds_pair(a, 8, 0);
    lemma_holds_both(s, a[0], a[1]);
    lemma_holds_pair(a, 8, 2);
    lemma_holds_both(s, a[2], a[3]);
    lemma_holds_pair(a, 8, 4);
    lemma_holds_both(s, a[4], a[5]);
    lemma_holds_pair(a, 8, 6);
    lemma_holds_both(s, a[6], a[7]);
}

// ---------------------------------------------------------------------------
// Texts
// ---------------------------------------------------------------------------

/// A number with its sign can be read back.
pub proof fn lemma_signed_number_is_read(value: i32)
    ensures
        signed_read(signed_number(value)) == Some(value as int),
{
    reveal_strlit("-0x");
    reveal_strlit("+0x");
    let n: nat = if value < 0 {
        (-(value as int)) as nat
    } else {
        value as nat
    };
    lemma_hex_is_read(n);
    assert(signed_number(value).skip(3) =~= hex(n));
}

/// The tokens that are kept are those that begin with none of the prefixes.
pub proof fn lemma_tokens_with_a_prefix_are_left_out(
    tokens: Seq<Seq<char>>,
    prefixes: Seq<Seq<char>>,
    n: int,
)
    requires
        0 <= n <= tokens.len(),
    ensures
        forall|i: int|
            0 <= i < n && (forall|k: int|
                0 <= k < prefixes.len() ==> !starts_with(tokens[i], #[trigger] prefixes[k]))
                ==> tokens_kept(tokens, prefixes, n).contains(#[trigger] tokens[i]),
        forall|t: Seq<char>| #[trigger]
            tokens_kept(tokens, prefixes, n).contains(t) ==> !has_prefix_of(t, prefixes),
    decreases n,
{
    if n > 0 {
        lemma_tokens_with_a_prefix_are_left_out(tokens, prefixes, n - 1);
        let before = tokens_kept(tokens, prefixes, n - 1);
        let all = tokens_kept(tokens, prefixes, n);
        assert forall|i: int|
            0 <= i < n && (forall|k: int|
                0 <= k < prefixes.len() ==> !starts_with(tokens[i], #[trigger] prefixes[k])) implies
            all.contains(#[trigger] tokens[i]) by {
            assert(!has_prefix_of(tokens[i], prefixes));
            if i < n - 1 {
                let k = before.index_of(tokens[i]);
                assert(all[k] == tokens[i]);
            } else {
                assert(all[before.len() as int] == tokens[i]);
            }
        }
        assert forall|t: Seq<char>| #[trigger] all.contains(t) implies !has_prefix_of(
            t,
            prefixes,
        ) by {
            let k = all.index_of(t);
            if k < before.len() {
                assert(before[k] == t);
                assert(before.contains(t));
            }
        }
    }
}

/// What stands up to a separator is all that stands before its first occurrence, or all where
/// there is none.
pub proof fn lemma_up_to_the_first(s: Seq<char>, sep: Seq<char>)
    ensures
        contains(s, sep) ==> up_to(s, sep).len() + sep.len() <= s.len() && s.subrange(
            up_to(s, sep).len() as int,
            (up_to(s, sep).len() + sep.len()) as int,
        ) == sep,
        starts_with(s, up_to(s, sep)),
        !contains(s, sep) ==> up_to(s, sep) == s,
{
    lemma_index_of(s, sep, 0);
    lemma_contains(s, sep);
    match index_of(s, sep, 0) {
        Some(k) => {
            assert(matches_at(s, sep, k));
        },
        None => {
            assert(s.take(s.len() as int) =~= s);
        },
    }
}

proof fn lemma_marker(s: Seq<char>)
    ensures
        marker_len(s) <= s.len(),
        forall|i: int| 0 <= i < marker_len(s) ==> #[trigger] s[i] == ' ' || s[i] == '>',
        marker_len(s) < s.len() ==> s[marker_len(s) as int] != ' ' && s[marker_len(s) as int]
            != '>',
    decreases s.len(),
{
    if s.len() > 0 && (s[0] == ' ' || s[0] == '>') {
        let t = s.skip(1);
        lemma_marker(t);
        assert forall|i: int| 0 <= i < marker_len(s) implies #[trigger] s[i] == ' ' || s[i]
            == '>' by {
            if i > 0 {
                assert(t[i - 1] == s[i]);
            }
        }
    }
}

/// A row without its mark begins with neither a space nor a mark, and nothing else is lost.
pub proof fn lemma_mark_is_taken_off(s: Seq<char>)
    ensures
        unmarked(s).len() > 0 ==> unmarked(s)[0] != ' ' && unmarked(s)[0] != '>',
        ends_with(s, unmarked(s)),
        s.len() > 0 && s[0] != ' ' && s[0] != '>' ==> unmarked(s) == s,
{
    lemma_marker(s);
    assert(s.skip(s.len() - unmarked(s).len()) =~= unmarked(s));
    if s.len() > 0 && s[0] != ' ' && s[0] != '>' {
        assert(s.skip(0) =~= s);
    }
}

proof fn lemma_leaf_start(name: Seq<char>, n: int)
    requires
        0 <= n <= name.len(),
    ensures
        0 <= leaf_start(name, n) <= n,
        forall|i: int|
            leaf_start(name, n) <= i < n ==> #[trigger] name[i] != '\\' && name[i] != '/',
        leaf_start(name, n) > 0 ==> name[leaf_start(name, n) - 1] == '\\' || name[leaf_start(
            name,
            n,
        ) - 1] == '/',
    decreases n,
{
    if n > 0 {
        lemma_leaf_start(name, n - 1);
    }
}

/// The last part of a path holds no separator, and stands at the end of the path behind one,
/// or is the whole path.
pub proof fn lemma_leaf_is_the_last_part(name: Seq<char>)
    ensures
        ends_with(name, leaf(name)),
        forall|i: int|
            0 <= i < leaf(name).len() ==> #[trigger] leaf(name)[i] != '\\' && leaf(name)[i] != '/',
        leaf(name).len() < name.len() ==> name[name.len() - leaf(name).len() - 1] == '\\' || name[
        name.len() - leaf(name).len() - 1] == '/',
{
    let k = leaf_start(name, name.len() as int);
    lemma_leaf_start(name, name.len() as int);
    assert(leaf(name) =~= name.skip(k));
    assert(name.skip(name.len() - leaf(name).len()) =~= leaf(name));
}

proof fn lemma_last_index(s: Seq<char>, c: char, n: int)
    requires
        0 <= n <= s.len(),
    ensures
        match last_index(s, c, n) {
            Some(i) => 0 <= i < n && s[i] == c && forall|k: int| i < k < n ==> #[trigger] s[k] != c,
            None => forall|k: int| 0 <= k < n ==> #[trigger] s[k] != c,
        },
    decreases n,
{
    if n > 0 && s[n - 1] != c {
        lemma_last_index(s, c, n - 1);
    }
}

/// A file name is what stands before its extension, a dot, and the extension, which holds no
/// dot. A name without a dot behind its first character has none.
pub proof fn lemma_extension_stands_behind_the_last_dot(name: Seq<char>)
    ensures
        extension_of(name) matches Some(e) ==> name.len() > e.len() + 1 && name[name.len() - e.len()
            - 1] == '.' && ends_with(name, e) && forall|i: int|
            0 <= i < e.len() ==> #[trigger] e[i] != '.',
        extension_of(name) is None ==> forall|i: int|
            1 <= i < name.len() ==> #[trigger] name[i] != '.',
{
    lemma_last_index(name, '.', name.len() as int);
    if let Some(e) = extension_of(name) {
        let i = last_index(name, '.', name.len() as int)->0;
        assert(name.skip(name.len() - e.len()) =~= e);
        assert(e.len() == name.len() - i - 1);
    }
}

/// The name of a file is the last part of its path that is neither empty nor a dot, and none
/// where that leads to the parent.
pub proof fn lemma_last_name_is_a_name(parts: Seq<Seq<char>>, n: int)
    requires
        0 <= n <= parts.len(),
    ensures
        last_name(parts, n) matches Some(s) ==> s.len() > 0 && s != "."@ && s != ".."@
            && parts.contains(s),
        n > 0 && parts[n - 1].len() > 0 && parts[n - 1] != "."@ && parts[n - 1] != ".."@
            ==> last_name(parts, n) == Some(parts[n - 1]),
    decreases n,
{
    if n > 0 {
        lemma_last_name_is_a_name(parts, n - 1);
        assert(parts.contains(parts[n - 1]));
    }
}

/// A type is compared where it is no library's, or these are asked for, and none of the
/// patterns that are left out stands in its name, in small letters.
pub proof fn lemma_types_that_are_compared(name: Seq<char>, cfg: Config)
    ensures
        is_included(name, cfg) <==> (cfg.include_external || !(starts_with(name, "std::"@)
            || starts_with(name, "stlp_std::"@) || starts_with(name, "boost::"@) || starts_with(
            name,
            "eastl::"@,
        ) || starts_with(name, "stdext::"@) || starts_with(name, "__"@))) && !exists|i: int|
            0 <= i < cfg.skip@.len() && contains(lowercase(name), (#[trigger] cfg.skip@[i])@),
{
    let skip = texts(cfg.skip@);
    lemma_holds_any(lowercase(name), skip, skip.len() as int);
    if exists|i: int|
        0 <= i < cfg.skip@.len() && contains(lowercase(name), (#[trigger] cfg.skip@[i])@) {
        let i = choose|i: int|
            0 <= i < cfg.skip@.len() && contains(lowercase(name), (#[trigger] cfg.skip@[i])@);
        assert(skip[i] == cfg.skip@[i]@);
    }
    if holds_any(lowercase(name), skip, skip.len() as int) {
        let i = choose|i: int| 0 <= i < skip.len() && contains(lowercase(name), #[trigger] skip[i]);
        assert(skip[i] == cfg.skip@[i]@);
    }
}

proof fn lemma_holds_any(lowered: Seq<char>, skip: Seq<Seq<char>>, n: int)
    requires
        0 <= n <= skip.len(),
    ensures
        holds_any(lowered, skip, n) <==> exists|i: int|
            0 <= i < n && contains(lowered, #[trigger] skip[i]),
    decreases n,
{
    if n > 0 {
        lemma_holds_any(lowered, skip, n - 1);
        if contains(lowered, skip[n - 1]) {
            assert(contains(lowered, skip[n - 1]));
        }
        if holds_any(lowered, skip, n - 1) {
            let i = choose|i: int| 0 <= i < n - 1 && contains(lowered, #[trigger] skip[i]);
            assert(contains(lowered, skip[i]));
        }
    }
}

/// The written-out name of a function for a static object says whether it makes or destroys
/// the object, and names it. Other functions have no such name.
pub proof fn lemma_thunk_names_its_object(rest: Seq<char>, written: Seq<char>)
    ensures
        starts_with(rest, "?"@) ==> thunk_name("??__E"@ + rest, Some(written)) == Some(
            "`"@ + "dynamic initializer for"@ + " '"@ + written + "''"@,
        ),
        starts_with(rest, "?"@) ==> thunk_name("??__F"@ + rest, Some(written)) == Some(
            "`"@ + "dynamic atexit destructor for"@ + " '"@ + written + "''"@,
        ),
        starts_with(rest, "?"@) ==> thunk_query("??__E"@ + (rest + "@@YAXXZ"@)) == rest,
        !starts_with(rest, "??__E"@) && !starts_with(rest, "??__F"@) ==> thunk_name(
            rest,
            Some(written),
        ) is None,
        thunk_name("??__E"@ + rest, None) is None,
{
    reveal_strlit("??__E");
    reveal_strlit("??__F");
    reveal_strlit("?");
    let e = "??__E"@ + rest;
    let f = "??__F"@ + rest;
    assert(e.take(5) =~= "??__E"@);
    assert(e.skip(5) =~= rest);
    assert(f.take(5) =~= "??__F"@);
    assert(f.skip(5) =~= rest);
    assert(!starts_with(f, "??__E"@)) by {
        assert(f.take(5)[4] == 'F' && "??__E"@[4] == 'E');
    }
    let tail = rest + "@@YAXXZ"@;
    let g = "??__E"@ + tail;
    assert(g.take(5) =~= "??__E"@);
    assert(g.skip(5) =~= tail);
    assert(tail.skip(tail.len() - "@@YAXXZ"@.len()) =~= "@@YAXXZ"@);
    assert(tail.take(tail.len() - "@@YAXXZ"@.len()) =~= rest);
    if starts_with(rest, "?"@) {
        assert(rest.take(1) =~= "?"@);
        assert(tail.take(1) =~= rest.take(1));
    }
}

} // verus!
