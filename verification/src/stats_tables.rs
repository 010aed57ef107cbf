//! Statistics as tables.

use crate::lcs::views;
use crate::number::{dec, decimal, hex, hexadecimal, pad_back, pad_front, padded_back, padded_front};
use crate::pieces::{cat10, cat2, cat3, cat4, cat5, cat6, cat7, cat8, cat9};
use crate::report_stats::{refs, FuncEntry, FuncModel, IndexEntry, IndexModel};
use crate::search::head_of;
use crate::stats_summary::{bucket_label, bucket_name, BUCKETS, BucketStats, Summary, TopMeasures,
    UnitModel, UnitSummary};
use crate::text::{byte_len, char_index, chars_before, chars_of, lemma_char_index, len_bytes, owned,
    texts};
use crate::type_builder::opt;
use vstd::prelude::*;
use vstd::string::StringExecFns;

verus! {

pub const COL_WIDTH_NAME: usize = 62;

pub const COL_WIDTH_DEMANGLED: usize = 54;

pub const COL_WIDTH_UNIT: usize = 42;

pub const COL_WIDTH_SIZE: usize = 6;

pub const COL_WIDTH_PCT: usize = 7;

pub const COL_WIDTH_ADDR: usize = 6;

pub const COL_WIDTH_RVA: usize = 8;

pub const COL_WIDTH_FILE: usize = 40;

// ---------------------------------------------------------------------------
// Cells
// ---------------------------------------------------------------------------

/// How many bytes of a long text are shown.
pub open spec fn shown_bytes(w: int) -> int {
    if w > 3 {
        w - 3
    } else {
        0
    }
}

/// Whether a text has no more than `w` bytes or can be cut.
pub open spec fn fits(s: Seq<char>, w: int) -> bool {
    byte_len(s) <= w || char_index(s, shown_bytes(w)) is Some
}

/// A text of at most `w` bytes: a long one is cut and ends in dots.
pub open spec fn ellipsed(s: Seq<char>, w: int) -> Seq<char> {
    if byte_len(s) <= w {
        s
    } else {
        s.take(char_index(s, shown_bytes(w))->0) + "..."@
    }
}

/// A text of at most `w` bytes: a long one is cut and ends in dots.
pub fn ellipsis(s: &str, w: usize) -> (r: String)
    requires
        fits(s@, w as int),
    ensures
        r@ == ellipsed(s@, w as int),
{
    if len_bytes(s) <= w {
        return owned(s);
    }
    let v: Vec<char> = chars_of(s);
    let n: usize = if w > 3 {
        w - 3
    } else {
        0
    };
    let k: usize = match chars_before(&v, n) {
        Some(k) => k,
        None => 0,
    };
    proof {
        lemma_char_index(s@, n as int);
    }
    cat2(head_of(&v, k).as_str(), "...")
}

/// Whether a text has no more than `w` bytes or can be cut.
pub fn can_ellipsis(s: &str, w: usize) -> (r: bool)
    ensures
        r == fits(s@, w as int),
{
    if len_bytes(s) <= w {
        return true;
    }
    let n: usize = if w > 3 {
        w - 3
    } else {
        0
    };
    chars_before(&chars_of(s), n).is_some()
}

/// A cut text in a column, at its left.
pub open spec fn cell(s: Seq<char>, w: int) -> Seq<char> {
    pad_back(ellipsed(s, w), ' ', w)
}

/// A number in a column, at its right.
pub open spec fn hex_cell(n: nat, w: int) -> Seq<char> {
    pad_front("0x"@ + hex(n), ' ', w)
}

fn cell_of(s: &str, w: usize) -> (r: String)
    requires
        fits(s@, w as int),
    ensures
        r@ == cell(s@, w as int),
{
    padded_back(ellipsis(s, w).as_str(), ' ', w)
}

fn hex_cell_of(n: u64, w: usize) -> (r: String)
    ensures
        r@ == hex_cell(n as nat, w as int),
{
    padded_front(cat2("0x", hexadecimal(n).as_str()).as_str(), ' ', w)
}

// ---------------------------------------------------------------------------
// Lists of functions
// ---------------------------------------------------------------------------

/// Whether a function's names fit into a table.
pub open spec fn names_fit(f: FuncModel) -> bool {
    &&& fits(f.name, COL_WIDTH_NAME as int)
    &&& fits(f.unit, COL_WIDTH_UNIT as int)
    &&& fits(shown_name(f), COL_WIDTH_DEMANGLED as int)
}

/// Whether a function's names and its file fit into the table.
pub open spec fn row_fits(f: FuncModel) -> bool {
    &&& names_fit(f)
    &&& match f.enriched {
        Some(e) => fits(e.1, COL_WIDTH_FILE as int),
        None => true,
    }
}

/// The signature that is shown.
pub open spec fn shown_name(f: FuncModel) -> Seq<char> {
    match f.demangled {
        Some(s) => s,
        None => "-"@,
    }
}

/// Whether a function has a signature in words.
pub open spec fn any_demangled(fs: Seq<FuncModel>) -> bool {
    exists|i: int| 0 <= i < fs.len() && (#[trigger] fs[i]).demangled is Some
}

/// Whether the index says something of a function.
pub open spec fn any_enriched(fs: Seq<FuncModel>) -> bool {
    exists|i: int| 0 <= i < fs.len() && (#[trigger] fs[i]).enriched is Some
}

/// The first columns of a header.
pub open spec fn name_heads(demangled: bool) -> Seq<char> {
    (if demangled {
        pad_back("DEMANGLED"@, ' ', COL_WIDTH_DEMANGLED as int) + "  "@
    } else {
        ""@
    }) + pad_back("MANGLED"@, ' ', COL_WIDTH_NAME as int) + "  "@ + pad_back(
        "UNIT"@,
        ' ',
        COL_WIDTH_UNIT as int,
    ) + "  "@ + pad_front("SIZE"@, ' ', COL_WIDTH_SIZE as int) + "  "@
}

/// The first columns of a function.
pub open spec fn name_cells(f: FuncModel, demangled: bool) -> Seq<char> {
    (if demangled {
        cell(shown_name(f), COL_WIDTH_DEMANGLED as int) + "  "@
    } else {
        ""@
    }) + cell(f.name, COL_WIDTH_NAME as int) + "  "@ + cell(f.unit, COL_WIDTH_UNIT as int) + "  "@
        + hex_cell(f.size as nat, COL_WIDTH_SIZE as int) + "  "@
}

/// The header of a list.
pub open spec fn list_head(demangled: bool, enriched: bool) -> Seq<char> {
    name_heads(demangled) + pad_front("MATCH%"@, ' ', COL_WIDTH_PCT as int) + "  "@ + (if enriched {
        pad_front("RVA"@, ' ', COL_WIDTH_RVA as int) + "  "@ + pad_back(
            "FILE"@,
            ' ',
            COL_WIDTH_FILE as int,
        ) + "  "@
    } else {
        pad_front("ADDR"@, ' ', COL_WIDTH_ADDR as int) + "  "@
    }) + "\n"@
}

/// The line of a function, its percentage given in words.
pub open spec fn list_row(f: FuncModel, percent: Seq<char>, demangled: bool) -> Seq<char> {
    name_cells(f, demangled) + pad_front(percent, ' ', COL_WIDTH_PCT as int) + "  "@ + (
    match f.enriched {
        Some(e) => hex_cell(e.0 as nat, COL_WIDTH_RVA as int) + "  "@ + cell(
            e.1,
            COL_WIDTH_FILE as int,
        ) + "  "@,
        None => hex_cell(f.address as nat, COL_WIDTH_ADDR as int) + "  "@,
    }) + "\n"@
}

/// The lines of the first `n` functions.
pub open spec fn list_rows(
    fs: Seq<FuncModel>,
    percents: Seq<Seq<char>>,
    demangled: bool,
    n: int,
) -> Seq<char>
    decreases n,
{
    if n <= 0 {
        ""@
    } else {
        list_rows(fs, percents, demangled, n - 1) + list_row(
            fs[n - 1],
            percents[n - 1],
            demangled,
        )
    }
}

/// How many functions there are and how many are shown.
pub open spec fn list_foot(total: nat, shown: nat) -> Seq<char> {
    "-- "@ + dec(total) + " total, "@ + dec(shown) + " shown --\n"@
}

/// A list of functions.
pub open spec fn list_table(
    fs: Seq<FuncModel>,
    percents: Seq<Seq<char>>,
    total: nat,
) -> Seq<char> {
    list_head(any_demangled(fs), any_enriched(fs)) + list_rows(
        fs,
        percents,
        any_demangled(fs),
        fs.len() as int,
    ) + list_foot(total, fs.len())
}

fn name_heads_of(demangled: bool) -> (r: String)
    ensures
        r@ == name_heads(demangled),
{
    let first: String = if demangled {
        cat2(padded_back("DEMANGLED", ' ', COL_WIDTH_DEMANGLED).as_str(), "  ")
    } else {
        owned("")
    };
    cat7(
        first.as_str(),
        padded_back("MANGLED", ' ', COL_WIDTH_NAME).as_str(),
        "  ",
        padded_back("UNIT", ' ', COL_WIDTH_UNIT).as_str(),
        "  ",
        padded_front("SIZE", ' ', COL_WIDTH_SIZE).as_str(),
        "  ",
    )
}

fn shown_name_of(f: &FuncEntry) -> (r: &str)
    ensures
        r@ == shown_name(f@),
{
    match &f.demangled {
        Some(s) => s.as_str(),
        None => "-",
    }
}

fn name_cells_of(f: &FuncEntry, demangled: bool) -> (r: String)
    requires
        names_fit(f@),
    ensures
        r@ == name_cells(f@, demangled),
{
    let first: String = if demangled {
        cat2(cell_of(shown_name_of(f), COL_WIDTH_DEMANGLED).as_str(), "  ")
    } else {
        owned("")
    };
    cat7(
        first.as_str(),
        cell_of(f.name.as_str(), COL_WIDTH_NAME).as_str(),
        "  ",
        cell_of(f.unit.as_str(), COL_WIDTH_UNIT).as_str(),
        "  ",
        hex_cell_of(f.size, COL_WIDTH_SIZE).as_str(),
        "  ",
    )
}

fn list_row_of(f: &FuncEntry, percent: &str, demangled: bool) -> (r: String)
    requires
        row_fits(f@),
    ensures
        r@ == list_row(f@, percent@, demangled),
{
    let last: String = match &f.enriched {
        Some(e) => cat4(
            hex_cell_of(e.rva as u64, COL_WIDTH_RVA).as_str(),
            "  ",
            cell_of(e.file.as_str(), COL_WIDTH_FILE).as_str(),
            "  ",
        ),
        None => cat2(hex_cell_of(f.address, COL_WIDTH_ADDR).as_str(), "  "),
    };
    cat5(
        name_cells_of(f, demangled).as_str(),
        padded_front(percent, ' ', COL_WIDTH_PCT).as_str(),
        "  ",
        last.as_str(),
        "\n",
    )
}

fn has_demangled(fs: &Vec<&FuncEntry>) -> (r: bool)
    ensures
        r == any_demangled(refs(fs@)),
{
    let mut i: usize = 0;
    while i < fs.len()
        invariant
            i <= fs@.len(),
            forall|k: int| 0 <= k < i ==> (#[trigger] refs(fs@)[k]).demangled is None,
        decreases fs.len() - i,
    {
        assert(refs(fs@)[i as int] == fs@[i as int]@);
        if fs[i].demangled.is_some() {
            assert(refs(fs@)[i as int].demangled is Some);
            return true;
        }
        i = i + 1;
    }
    false
}

fn has_enriched(fs: &Vec<&FuncEntry>) -> (r: bool)
    ensures
        r == any_enriched(refs(fs@)),
{
    let mut i: usize = 0;
    while i < fs.len()
        invariant
            i <= fs@.len(),
            forall|k: int| 0 <= k < i ==> (#[trigger] refs(fs@)[k]).enriched is None,
        decreases fs.len() - i,
    {
        assert(refs(fs@)[i as int] == fs@[i as int]@);
        if fs[i].enriched.is_some() {
            assert(refs(fs@)[i as int].enriched is Some);
            return true;
        }
        i = i + 1;
    }
    false
}

fn list_foot_of(total: usize, shown: usize) -> (r: String)
    ensures
        r@ == list_foot(total as nat, shown as nat),
{
    cat5(
        "-- ",
        decimal(total as u64).as_str(),
        " total, ",
        decimal(shown as u64).as_str(),
        " shown --\n",
    )
}

/// A list of functions, out of `total`, the percentages given in words.
pub fn print_list_table(functions: &Vec<&FuncEntry>, percents: &Vec<String>, total: usize) -> (r:
    String)
    requires
        percents@.len() == functions@.len(),
        forall|i: int| 0 <= i < functions@.len() ==> row_fits(#[trigger] refs(functions@)[i]),
    ensures
        r@ == list_table(refs(functions@), texts(percents@), total as nat),
{
    let ghost fs = refs(functions@);
    let demangled: bool = has_demangled(functions);
    let enriched: bool = has_enriched(functions);
    let last: String = if enriched {
        cat4(
            padded_front("RVA", ' ', COL_WIDTH_RVA).as_str(),
            "  ",
            padded_back("FILE", ' ', COL_WIDTH_FILE).as_str(),
            "  ",
        )
    } else {
        cat2(padded_front("ADDR", ' ', COL_WIDTH_ADDR).as_str(), "  ")
    };
    let head: String = cat5(
        name_heads_of(demangled).as_str(),
        padded_front("MATCH%", ' ', COL_WIDTH_PCT).as_str(),
        "  ",
        last.as_str(),
        "\n",
    );
    assert(head@ == list_head(demangled, enriched));
    let mut rows: String = owned("");
    let mut i: usize = 0;
    while i < functions.len()
        invariant
            fs == refs(functions@),
            percents@.len() == functions@.len(),
            forall|i: int| 0 <= i < functions@.len() ==> row_fits(#[trigger] fs[i]),
            i <= functions@.len(),
            rows@ == list_rows(fs, texts(percents@), demangled, i as int),
        decreases functions.len() - i,
    {
        assert(fs[i as int] == functions@[i as int]@);
        let row: String = list_row_of(functions[i], percents[i].as_str(), demangled);
        rows.append(row.as_str());
        i = i + 1;
    }
    cat3(head.as_str(), rows.as_str(), list_foot_of(total, functions.len()).as_str())
}

fn can_print_row(f: &FuncEntry) -> (r: bool)
    ensures
        r == row_fits(f@),
{
    if let Some(e) = &f.enriched {
        if !can_ellipsis(e.file.as_str(), COL_WIDTH_FILE) {
            return false;
        }
    }
    can_print_names(f)
}

fn can_print_names(f: &FuncEntry) -> (r: bool)
    ensures
        r == names_fit(f@),
{
    can_ellipsis(f.name.as_str(), COL_WIDTH_NAME) && can_ellipsis(f.unit.as_str(), COL_WIDTH_UNIT)
        && can_ellipsis(shown_name_of(f), COL_WIDTH_DEMANGLED)
}

/// Whether the names of some functions fit into a table.
pub fn can_print(functions: &Vec<&FuncEntry>) -> (r: bool)
    ensures
        r == (forall|i: int| 0 <= i < functions@.len() ==> row_fits(#[trigger] refs(functions@)[i])),
{
    let mut i: usize = 0;
    while i < functions.len()
        invariant
            i <= functions@.len(),
            forall|k: int| 0 <= k < i ==> row_fits(#[trigger] refs(functions@)[k]),
        decreases functions.len() - i,
    {
        assert(refs(functions@)[i as int] == functions@[i as int]@);
        if !can_print_row(functions[i]) {
            assert(!row_fits(refs(functions@)[i as int]));
            return false;
        }
        i = i + 1;
    }
    true
}

// ---------------------------------------------------------------------------
// Functions in one build only
// ---------------------------------------------------------------------------

/// The lines of the first `n` functions, without percentages.
pub open spec fn orphan_rows(fs: Seq<FuncModel>, demangled: bool, n: int) -> Seq<char>
    decreases n,
{
    if n <= 0 {
        ""@
    } else {
        orphan_rows(fs, demangled, n - 1) + (name_cells(fs[n - 1], demangled) + hex_cell(
            fs[n - 1].address as nat,
            COL_WIDTH_ADDR as int,
        ) + "\n"@)
    }
}

/// The functions of the report that are in one build only.
pub open spec fn orphan_block(fs: Seq<FuncModel>) -> Seq<char> {
    if fs.len() == 0 {
        ""@
    } else {
        "=== report.json (no fuzzy_match_percent) ===\n"@ + name_heads(any_demangled(fs))
            + pad_front("ADDR"@, ' ', COL_WIDTH_ADDR as int) + "\n"@ + orphan_rows(
            fs,
            any_demangled(fs),
            fs.len() as int,
        ) + list_foot(fs.len(), fs.len())
    }
}

/// Whether an entry of the index fits into the table.
pub open spec fn entry_fits(e: IndexModel) -> bool {
    &&& fits(e.mangled, COL_WIDTH_NAME as int)
    &&& fits(e.name, COL_WIDTH_DEMANGLED as int)
    &&& fits(e.file, COL_WIDTH_FILE as int)
}

/// The header of a list of the index.
pub open spec fn index_head() -> Seq<char> {
    pad_back("MANGLED"@, ' ', COL_WIDTH_NAME as int) + "  "@ + pad_back(
        "DEMANGLED"@,
        ' ',
        COL_WIDTH_DEMANGLED as int,
    ) + "  "@ + pad_front("SIZE"@, ' ', COL_WIDTH_SIZE as int) + "  "@ + pad_front(
        "RVA"@,
        ' ',
        COL_WIDTH_RVA as int,
    ) + "  "@ + pad_back("FILE"@, ' ', COL_WIDTH_FILE as int) + "\n"@
}

/// The line of an entry of the index.
pub open spec fn index_row(e: IndexModel) -> Seq<char> {
    cell(e.mangled, COL_WIDTH_NAME as int) + "  "@ + cell(e.name, COL_WIDTH_DEMANGLED as int)
        + "  "@ + hex_cell(e.size as nat, COL_WIDTH_SIZE as int) + "  "@ + hex_cell(
        e.rva as nat,
        COL_WIDTH_RVA as int,
    ) + "  "@ + cell(e.file, COL_WIDTH_FILE as int) + "\n"@
}

/// The lines of the first `n` entries.
pub open spec fn index_rows(es: Seq<IndexModel>, n: int) -> Seq<char>
    decreases n,
{
    if n <= 0 {
        ""@
    } else {
        index_rows(es, n - 1) + index_row(es[n - 1])
    }
}

/// The entries that only an index has, under a title.
pub open spec fn index_block(title: Seq<char>, es: Option<Seq<IndexModel>>) -> Seq<char> {
    match es {
        Some(es) => if es.len() == 0 {
            ""@
        } else {
            title + index_head() + index_rows(es, es.len() as int)
        },
        None => ""@,
    }
}

/// The entries of an index, as a model.
pub open spec fn entries_of(es: Option<&Vec<IndexEntry>>) -> Option<Seq<IndexModel>> {
    match es {
        Some(v) => Some(views(v@)),
        None => None,
    }
}

/// Whether the entries of an index fit into the table.
pub open spec fn entries_fit(es: Option<Seq<IndexModel>>) -> bool {
    es is Some ==> forall|i: int| 0 <= i < es->0.len() ==> entry_fits(#[trigger] es->0[i])
}

fn index_block_of(title: &str, es: Option<&Vec<IndexEntry>>) -> (r: String)
    requires
        entries_fit(entries_of(es)),
    ensures
        r@ == index_block(title@, entries_of(es)),
{
    match es {
        None => owned(""),
        Some(v) => {
            if v.len() == 0 {
                return owned("");
            }
            let ghost m = views(v@);
            assert(entries_of(es)->0 == m);
            let mut rows: String = owned("");
            let mut i: usize = 0;
            while i < v.len()
                invariant
                    m == views(v@),
                    forall|k: int| 0 <= k < m.len() ==> entry_fits(#[trigger] m[k]),
                    i <= v@.len(),
                    rows@ == index_rows(m, i as int),
                decreases v.len() - i,
            {
                let e: &IndexEntry = &v[i];
                assert(m[i as int] == e@);
                let row: String = cat10(
                    cell_of(e.mangled.as_str(), COL_WIDTH_NAME).as_str(),
                    "  ",
                    cell_of(e.name.as_str(), COL_WIDTH_DEMANGLED).as_str(),
                    "  ",
                    hex_cell_of(e.size as u64, COL_WIDTH_SIZE).as_str(),
                    "  ",
                    hex_cell_of(e.rva as u64, COL_WIDTH_RVA).as_str(),
                    "  ",
                    cell_of(e.file.as_str(), COL_WIDTH_FILE).as_str(),
                    "\n",
                );
                rows.append(row.as_str());
                i = i + 1;
            }
            let head: String = cat10(
                padded_back("MANGLED", ' ', COL_WIDTH_NAME).as_str(),
                "  ",
                padded_back("DEMANGLED", ' ', COL_WIDTH_DEMANGLED).as_str(),
                "  ",
                padded_front("SIZE", ' ', COL_WIDTH_SIZE).as_str(),
                "  ",
                padded_front("RVA", ' ', COL_WIDTH_RVA).as_str(),
                "  ",
                padded_back("FILE", ' ', COL_WIDTH_FILE).as_str(),
                "\n",
            );
            cat3(title, head.as_str(), rows.as_str())
        },
    }
}

/// Whether the entries of an index fit into a table.
pub fn can_print_index(es: Option<&Vec<IndexEntry>>) -> (r: bool)
    ensures
        r == entries_fit(entries_of(es)),
{
    match es {
        None => true,
        Some(v) => {
            let ghost m = views(v@);
            let mut i: usize = 0;
            while i < v.len()
                invariant
                    m == views(v@),
                    entries_of(es) == Some(m),
                    i <= v@.len(),
                    forall|k: int| 0 <= k < i ==> entry_fits(#[trigger] m[k]),
                decreases v.len() - i,
            {
                assert(m[i as int] == v@[i as int]@);
                if !(can_ellipsis(v[i].mangled.as_str(), COL_WIDTH_NAME) && can_ellipsis(
                    v[i].name.as_str(),
                    COL_WIDTH_DEMANGLED,
                ) && can_ellipsis(v[i].file.as_str(), COL_WIDTH_FILE)) {
                    assert(!entry_fits(entries_of(es)->0[i as int]));
                    return false;
                }
                i = i + 1;
            }
            true
        },
    }
}

/// Whether the names of some functions fit into the table of functions in one build only.
pub fn can_print_orphans(functions: &Vec<&FuncEntry>) -> (r: bool)
    ensures
        r == (forall|i: int|
            0 <= i < functions@.len() ==> names_fit(#[trigger] refs(functions@)[i])),
{
    let mut i: usize = 0;
    while i < functions.len()
        invariant
            i <= functions@.len(),
            forall|k: int| 0 <= k < i ==> names_fit(#[trigger] refs(functions@)[k]),
        decreases functions.len() - i,
    {
        assert(refs(functions@)[i as int] == functions@[i as int]@);
        if !can_print_names(functions[i]) {
            assert(!names_fit(refs(functions@)[i as int]));
            return false;
        }
        i = i + 1;
    }
    true
}

/// The functions that are in one build only, and the entries that only an index has.
pub fn print_orphan_table(
    functions: &Vec<&FuncEntry>,
    base_only: Option<&Vec<IndexEntry>>,
    target_only: Option<&Vec<IndexEntry>>,
) -> (r: String)
    requires
        forall|i: int| 0 <= i < functions@.len() ==> names_fit(#[trigger] refs(functions@)[i]),
        entries_fit(entries_of(base_only)),
        entries_fit(entries_of(target_only)),
    ensures
        r@ == orphan_block(refs(functions@)) + index_block(
            "\n=== index-only: base ===\n"@,
            entries_of(base_only),
        ) + index_block("\n=== index-only: target ===\n"@, entries_of(target_only)),
{
    let ghost fs = refs(functions@);
    let first: String = if functions.len() == 0 {
        owned("")
    } else {
        let demangled: bool = has_demangled(functions);
        let mut rows: String = owned("");
        let mut i: usize = 0;
        while i < functions.len()
            invariant
                fs == refs(functions@),
                forall|i: int| 0 <= i < functions@.len() ==> names_fit(#[trigger] fs[i]),
                i <= functions@.len(),
                rows@ == orphan_rows(fs, demangled, i as int),
            decreases functions.len() - i,
        {
            assert(fs[i as int] == functions@[i as int]@);
            let row: String = cat3(
                name_cells_of(functions[i], demangled).as_str(),
                hex_cell_of(functions[i].address, COL_WIDTH_ADDR).as_str(),
                "\n",
            );
            rows.append(row.as_str());
            i = i + 1;
        }
        cat6(
            "=== report.json (no fuzzy_match_percent) ===\n",
            name_heads_of(demangled).as_str(),
            padded_front("ADDR", ' ', COL_WIDTH_ADDR).as_str(),
            "\n",
            rows.as_str(),
            list_foot_of(functions.len(), functions.len()).as_str(),
        )
    };
    assert(first@ == orphan_block(fs));
    cat3(
        first.as_str(),
        index_block_of("\n=== index-only: base ===\n", base_only).as_str(),
        index_block_of("\n=== index-only: target ===\n", target_only).as_str(),
    )
}

// ---------------------------------------------------------------------------
// Summaries
// ---------------------------------------------------------------------------

/// The percentages of a report in words, with two digits behind the point.
pub struct PercentTexts {
    pub fuzzy_match_percent: Option<String>,
    pub matched_functions_percent: Option<String>,
    pub matched_code_percent: Option<String>,
}

/// A line where there is something to tell.
pub open spec fn line_if(label: Seq<char>, s: Option<Seq<char>>, end: Seq<char>) -> Seq<char> {
    match s {
        Some(s) => label + s + end,
        None => ""@,
    }
}

/// A number, or zero where there is none.
pub open spec fn or_zero(n: Option<u64>) -> nat {
    match n {
        Some(n) => n as nat,
        None => 0,
    }
}

/// The measures of the whole report.
pub open spec fn top_lines(t: TopMeasures, p: PercentTexts) -> Seq<char> {
    "=== Top-level ===\n"@ + line_if(
        "  fuzzy_match_percent:    "@,
        opt(p.fuzzy_match_percent),
        "%\n"@,
    ) + ("  total_functions:        "@ + dec(or_zero(t.total_functions)) + "\n"@) + (
    "  matched_functions:      "@ + dec(or_zero(t.matched_functions)) + "\n"@) + line_if(
        "  matched_functions_percent: "@,
        opt(p.matched_functions_percent),
        "%\n"@,
    ) + line_if("  total_code:             "@, opt(t.total_code), "\n"@) + line_if(
        "  matched_code:           "@,
        opt(t.matched_code),
        "\n"@,
    ) + line_if("  matched_code_percent:   "@, opt(p.matched_code_percent), "%\n"@)
}

/// The lines of the first `n` ranges.
pub open spec fn bucket_rows(b: Seq<BucketStats>, n: int) -> Seq<char>
    decreases n,
{
    if n <= 0 {
        ""@
    } else {
        bucket_rows(b, n - 1) + ("  "@ + pad_back(bucket_name(n - 1), ' ', 8) + " "@ + pad_front(
            dec(b[n - 1].count as nat),
            ' ',
            7,
        ) + "  0x"@ + hex(b[n - 1].code_bytes as nat) + "\n"@)
    }
}

/// The lines of the first `n` units.
pub open spec fn unit_rows(u: Seq<UnitModel>, n: int) -> Seq<char>
    decreases n,
{
    if n <= 0 {
        ""@
    } else {
        unit_rows(u, n - 1) + ("  "@ + cell(u[n - 1].name, COL_WIDTH_UNIT as int) + " "@ + pad_front(
            dec(or_zero(u[n - 1].total_functions)),
            ' ',
            6,
        ) + " "@ + pad_front(dec(or_zero(u[n - 1].matched_functions)), ' ', 6) + " "@ + pad_front(
            match u[n - 1].total_code {
                Some(s) => s,
                None => "-"@,
            },
            ' ',
            7,
        ) + "\n"@)
    }
}

/// The units.
pub open spec fn unit_block(u: Option<Seq<UnitModel>>) -> Seq<char> {
    match u {
        Some(u) => "\n=== By unit ===\n"@ + "  "@ + pad_back("UNIT"@, ' ', COL_WIDTH_UNIT as int)
            + " "@ + pad_front("FUNCS"@, ' ', 6) + " "@ + pad_front("MATCH"@, ' ', 6) + " "@
            + pad_front("CODE"@, ' ', 7) + "\n"@ + unit_rows(u, u.len() as int),
        None => ""@,
    }
}

/// The units of a summary, as a model.
pub open spec fn units_in(s: Summary) -> Option<Seq<UnitModel>> {
    match s.by_unit {
        Some(u) => Some(views(u@)),
        None => None,
    }
}

/// Whether the units fit into the table.
pub open spec fn units_fit(u: Option<Seq<UnitModel>>) -> bool {
    u is Some ==> forall|i: int|
        0 <= i < u->0.len() ==> fits((#[trigger] u->0[i]).name, COL_WIDTH_UNIT as int)
}

/// A summary.
pub open spec fn summary_table(s: Summary, p: PercentTexts) -> Seq<char> {
    top_lines(s.top_level, p) + "\n=== Buckets ===\n  RANGE      COUNT      BYTES\n"@ + bucket_rows(
        s.buckets@,
        BUCKETS as int,
    ) + unit_block(units_in(s))
}

fn line_if_of(label: &str, s: &Option<String>, end: &str) -> (r: String)
    ensures
        r@ == line_if(label@, opt(*s), end@),
{
    match s {
        Some(s) => cat3(label, s.as_str(), end),
        None => owned(""),
    }
}

fn or_zero_of(n: Option<u64>) -> (r: u64)
    ensures
        r == or_zero(n),
{
    match n {
        Some(n) => n,
        None => 0,
    }
}

fn top_lines_of(t: &TopMeasures, p: &PercentTexts) -> (r: String)
    ensures
        r@ == top_lines(*t, *p),
{
    cat8(
        "=== Top-level ===\n",
        line_if_of("  fuzzy_match_percent:    ", &p.fuzzy_match_percent, "%\n").as_str(),
        cat3(
            "  total_functions:        ",
            decimal(or_zero_of(t.total_functions)).as_str(),
            "\n",
        ).as_str(),
        cat3(
            "  matched_functions:      ",
            decimal(or_zero_of(t.matched_functions)).as_str(),
            "\n",
        ).as_str(),
        line_if_of("  matched_functions_percent: ", &p.matched_functions_percent, "%\n").as_str(),
        line_if_of("  total_code:             ", &t.total_code, "\n").as_str(),
        line_if_of("  matched_code:           ", &t.matched_code, "\n").as_str(),
        line_if_of("  matched_code_percent:   ", &p.matched_code_percent, "%\n").as_str(),
    )
}

fn bucket_rows_of(b: &Vec<BucketStats>) -> (r: String)
    requires
        b@.len() == BUCKETS,
    ensures
        r@ == bucket_rows(b@, BUCKETS as int),
{
    let mut rows: String = owned("");
    let mut i: usize = 0;
    while i < BUCKETS
        invariant
            b@.len() == BUCKETS,
            i <= BUCKETS,
            rows@ == bucket_rows(b@, i as int),
        decreases BUCKETS - i,
    {
        let row: String = cat7(
            "  ",
            padded_back(bucket_label(i), ' ', 8).as_str(),
            " ",
            padded_front(decimal(b[i].count as u64).as_str(), ' ', 7).as_str(),
            "  0x",
            hexadecimal(b[i].code_bytes).as_str(),
            "\n",
        );
        rows.append(row.as_str());
        i = i + 1;
    }
    rows
}

fn unit_block_of(u: &Option<Vec<UnitSummary>>) -> (r: String)
    requires
        units_fit(
            match *u {
                Some(u) => Some(views(u@)),
                None => None,
            },
        ),
    ensures
        r@ == unit_block(
            match *u {
                Some(u) => Some(views(u@)),
                None => None,
            },
        ),
{
    match u {
        None => owned(""),
        Some(v) => {
            let ghost m = views(v@);
            let mut rows: String = owned("");
            let mut i: usize = 0;
            while i < v.len()
                invariant
                    m == views(v@),
                    forall|k: int|
                        0 <= k < m.len() ==> fits((#[trigger] m[k]).name, COL_WIDTH_UNIT as int),
                    i <= v@.len(),
                    rows@ == unit_rows(m, i as int),
                decreases v.len() - i,
            {
                let x: &UnitSummary = &v[i];
                assert(m[i as int] == x@);
                let code: &str = match &x.total_code {
                    Some(s) => s.as_str(),
                    None => "-",
                };
                let row: String = cat9(
                    "  ",
                    cell_of(x.name.as_str(), COL_WIDTH_UNIT).as_str(),
                    " ",
                    padded_front(decimal(or_zero_of(x.total_functions)).as_str(), ' ', 6).as_str(),
                    " ",
                    padded_front(decimal(or_zero_of(x.matched_functions)).as_str(), ' ', 6).as_str(),
                    " ",
                    padded_front(code, ' ', 7).as_str(),
                    "\n",
                );
                rows.append(row.as_str());
                i = i + 1;
            }
            let head: String = cat10(
                "\n=== By unit ===\n",
                "  ",
                padded_back("UNIT", ' ', COL_WIDTH_UNIT).as_str(),
                " ",
                padded_front("FUNCS", ' ', 6).as_str(),
                " ",
                padded_front("MATCH", ' ', 6).as_str(),
                " ",
                padded_front("CODE", ' ', 7).as_str(),
                "\n",
            );
            cat2(head.as_str(), rows.as_str())
        },
    }
}

/// A summary, the percentages given in words.
pub fn print_summary_table(summary: &Summary, percents: &PercentTexts) -> (r: String)
    requires
        summary.buckets@.len() == BUCKETS,
        units_fit(units_in(*summary)),
    ensures
        r@ == summary_table(*summary, *percents),
{
    cat4(
        top_lines_of(&summary.top_level, percents).as_str(),
        "\n=== Buckets ===\n  RANGE      COUNT      BYTES\n",
        bucket_rows_of(&summary.buckets).as_str(),
        unit_block_of(&summary.by_unit).as_str(),
    )
}

/// Whether the units of a summary fit into a table.
pub fn can_print_summary(summary: &Summary) -> (r: bool)
    ensures
        r == (summary.buckets@.len() == BUCKETS && units_fit(units_in(*summary))),
{
    if summary.buckets.len() != BUCKETS {
        return false;
    }
    match &summary.by_unit {
        None => true,
        Some(v) => {
            let ghost m = views(v@);
            let mut i: usize = 0;
            while i < v.len()
                invariant
                    m == views(v@),
                    units_in(*summary) == Some(m),
                    i <= v@.len(),
                    forall|k: int|
                        0 <= k < i ==> fits((#[trigger] m[k]).name, COL_WIDTH_UNIT as int),
                decreases v.len() - i,
            {
                assert(m[i as int] == v@[i as int]@);
                if !can_ellipsis(v[i].name.as_str(), COL_WIDTH_UNIT) {
                    assert(!fits(units_in(*summary)->0[i as int].name, COL_WIDTH_UNIT as int));
                    return false;
                }
                i = i + 1;
            }
            true
        },
    }
}

} // verus!
