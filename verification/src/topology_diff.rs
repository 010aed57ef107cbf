//! The comparison of the procedures that a query finds in two databases, and the
//! views of what was found.

use crate::lcs::{align, lemma_script, lemma_script_of_same, script, steps, views, Edit, Step};
use crate::number::{dec, decimal, hex, hexadecimal};
use crate::pieces::{cat10, cat2, cat3, cat5, cat6, cat7, cat8};
use crate::search::{equal_ignoring_ascii_case, join, joined, pieces, split, split_words, trim_end,
    trimmed_end, words};
use crate::text::{debug_text, owned, quoted, same, same_ignoring_ascii_case, texts};
use crate::topology_inspect::{window_end, window_start, Match, MatchModel};
use crate::topology_records::{record_line, render_record, Record, RecordModel};
use crate::topology_text::{before_first, hex_hidden, leaf, module_leaf, replace_hex_ids,
    strip_tokens, strs, tokens_stripped, unmarked, up_to, without_mark};
use crate::type_builder::opt;
use vstd::prelude::*;
use vstd::string::StringExecFns;

verus! {

// ---------------------------------------------------------------------------
// Rows
// ---------------------------------------------------------------------------

/// A row that is compared: what it is aligned by, and what it says.
#[derive(Debug)]
pub struct ComparableRow {
    pub key: String,
    pub value: String,
}

/// A row that is compared, as a model.
pub struct RowModel {
    pub key: Seq<char>,
    pub value: Seq<char>,
}

impl View for ComparableRow {
    type V = RowModel;

    open spec fn view(&self) -> RowModel {
        RowModel { key: self.key@, value: self.value@ }
    }
}

/// What of a record depends on where it lies in the file.
pub open spec fn placement_prefixes() -> Seq<Seq<char>> {
    seq!["rva="@, "type="@, "parent="@, "end="@, "next="@, "handler="@]
}

/// A record without what depends on where it lies in the file.
pub open spec fn record_cleaned(r: RecordModel) -> Seq<char> {
    trimmed_end(
        "depth="@ + dec(r.depth as nat) + " "@ + r.kind + " "@ + tokens_stripped(
            r.detail,
            placement_prefixes(),
        ),
    )
}

/// Whether a record is known by the name before its type.
pub open spec fn is_named_kind(kind: Seq<char>) -> bool {
    ||| kind == "BasePointerRelative"@
    ||| kind == "RegisterRelative"@
    ||| kind == "RegisterVariable"@
    ||| kind == "Data"@
    ||| kind == "Constant"@
    ||| kind == "UserDefinedType"@
}

/// What a record is known by.
pub open spec fn record_identity(r: RecordModel) -> Seq<char> {
    if r.kind == "Procedure"@ {
        up_to(r.detail, " rva="@)
    } else if is_named_kind(r.kind) {
        up_to(r.detail, " : "@)
    } else if r.kind == "CallSiteInfo"@ {
        let parts = pieces(r.detail, " signature="@);
        if parts.len() > 1 {
            up_to(parts[1], " type="@)
        } else {
            "indirect"@
        }
    } else {
        ""@
    }
}

/// The row of a record.
pub open spec fn record_row(r: RecordModel) -> RowModel {
    RowModel { key: r.kind + ":"@ + record_identity(r), value: record_cleaned(r) }
}

/// The rows of the records from `lo` on, up to `hi`.
pub open spec fn record_rows(r: Seq<RecordModel>, lo: int, hi: int) -> Seq<RowModel> {
    Seq::new(
        if hi > lo {
            (hi - lo) as nat
        } else {
            0
        },
        |i: int| record_row(r[lo + i]),
    )
}

/// Where the records of a procedure that stands at `from` end.
pub open spec fn owned_end(r: Seq<RecordModel>, end: u32, from: int) -> int
    decreases r.len() - from,
{
    if 0 <= from < r.len() && r[from].index <= end {
        owned_end(r, end, from + 1)
    } else {
        from
    }
}

/// The rows of a procedure's own records.
pub open spec fn own_rows(m: MatchModel) -> Seq<RowModel> {
    let lo = m.procedure_pos as int;
    record_rows(m.records, lo, owned_end(m.records, m.procedure_end, lo))
}

/// The rows of a procedure's line table, by their number.
pub open spec fn line_rows_of(lines: Seq<Seq<char>>) -> Seq<RowModel> {
    Seq::new(
        lines.len(),
        |i: int|
            RowModel {
                key: "line#"@ + dec(i as nat),
                value: tokens_stripped(lines[i], seq!["rva="@, "source="@]),
            },
    )
}

/// Each of some words but the first with the digits of its numbers left out.
pub open spec fn later_words_hidden(w: Seq<Seq<char>>) -> Seq<Seq<char>> {
    Seq::new(
        w.len(),
        |i: int|
            if i == 0 {
                w[0]
            } else {
                hex_hidden(w[i])
            },
    )
}

/// A type's row without its mark, its index and the numbers that it refers to.
pub open spec fn type_row_normalized(row: Seq<char>) -> Seq<char> {
    joined(later_words_hidden(words(tokens_stripped(unmarked(row), seq!["type="@]))), " "@)
}

/// The rows of some types, by their number.
pub open spec fn type_rows_of(rows: Seq<Seq<char>>) -> Seq<RowModel> {
    Seq::new(
        rows.len(),
        |i: int|
            RowModel { key: "row#"@ + dec(i as nat), value: type_row_normalized(rows[i]) },
    )
}

/// What a declaration's row says, without numbers.
pub open spec fn declaration_text(row: Seq<char>) -> Seq<char> {
    hex_hidden(tokens_stripped(row, seq!["type="@]))
}

/// The rows of some declarations.
pub open spec fn declaration_rows_of(rows: Seq<Seq<char>>) -> Seq<RowModel> {
    Seq::new(
        rows.len(),
        |i: int|
            RowModel {
                key: tokens_stripped(unmarked(declaration_text(rows[i])), seq!["field#"@]),
                value: declaration_text(rows[i]),
            },
    )
}

/// The rows of the records around a procedure.
pub open spec fn physical_rows_of(m: MatchModel, context: usize) -> Seq<RowModel> {
    let p = m.procedure_pos as int;
    record_rows(
        m.records,
        window_start(p, context as int),
        window_end(p, context as int, m.records.len() as int),
    )
}

/// The positions of those of the first `n` records that stand in no scope.
pub open spec fn top_level(r: Seq<RecordModel>, n: int) -> Seq<int>
    decreases n,
{
    if n <= 0 {
        Seq::empty()
    } else if r[n - 1].depth == 0 {
        top_level(r, n - 1).push(n - 1)
    } else {
        top_level(r, n - 1)
    }
}

/// Which of some positions is `p`.
pub open spec fn rank_among(s: Seq<int>, p: int, from: int) -> Option<int>
    decreases s.len() - from,
{
    if from < 0 || from >= s.len() {
        None
    } else if s[from] == p {
        Some(from)
    } else {
        rank_among(s, p, from + 1)
    }
}

/// The positions of the records in no scope around a procedure that is in none.
pub open spec fn top_level_around(m: MatchModel, context: usize) -> Option<Seq<int>> {
    let top = top_level(m.records, m.records.len() as int);
    match rank_among(top, m.procedure_pos as int, 0) {
        Some(c) => Some(
            top.subrange(
                window_start(c, context as int),
                window_end(c, context as int, top.len() as int),
            ),
        ),
        None => None,
    }
}

/// The rows of the records in no scope around a procedure.
pub open spec fn top_level_rows_of(m: MatchModel, context: usize) -> Seq<RowModel> {
    match top_level_around(m, context) {
        Some(p) => Seq::new(p.len(), |i: int| record_row(m.records[p[i]])),
        None => Seq::empty(),
    }
}

// ---------------------------------------------------------------------------

fn clean_record(r: &Record) -> (s: String)
    ensures
        s@ == record_cleaned(r@),
{
    let p: Vec<&str> = vec!["rva=", "type=", "parent=", "end=", "next=", "handler="];
    assert(strs(p@) =~= placement_prefixes());
    let detail: String = strip_tokens(r.detail.as_str(), &p);
    let whole: String = cat6(
        "depth=",
        decimal(r.depth as u64).as_str(),
        " ",
        r.kind,
        " ",
        detail.as_str(),
    );
    trim_end(whole.as_str())
}

fn is_named(kind: &str) -> (r: bool)
    ensures
        r == is_named_kind(kind@),
{
    same(kind, "BasePointerRelative") || same(kind, "RegisterRelative") || same(
        kind,
        "RegisterVariable",
    ) || same(kind, "Data") || same(kind, "Constant") || same(kind, "UserDefinedType")
}

fn record_key(r: &Record) -> (s: String)
    ensures
        s@ == r@.kind + ":"@ + record_identity(r@),
{
    let identity: String = if same(r.kind, "Procedure") {
        before_first(r.detail.as_str(), " rva=")
    } else if is_named(r.kind) {
        before_first(r.detail.as_str(), " : ")
    } else if same(r.kind, "CallSiteInfo") {
        let parts: Vec<String> = split(r.detail.as_str(), " signature=");
        if parts.len() > 1 {
            assert(pieces(r.detail@, " signature="@)[1] == parts@[1]@);
            before_first(parts[1].as_str(), " type=")
        } else {
            owned("indirect")
        }
    } else {
        owned("")
    };
    cat3(r.kind, ":", identity.as_str())
}

fn make_record_row(r: &Record) -> (row: ComparableRow)
    ensures
        row@ == record_row(r@),
{
    ComparableRow { key: record_key(r), value: clean_record(r) }
}

fn make_record_rows(r: &Vec<Record>, lo: usize, hi: usize) -> (v: Vec<ComparableRow>)
    requires
        hi <= r@.len(),
    ensures
        views(v@) == record_rows(views(r@), lo as int, hi as int),
{
    let ghost m = views(r@);
    let mut v: Vec<ComparableRow> = Vec::new();
    let mut i: usize = lo;
    while i < hi
        invariant
            m == views(r@),
            hi <= r@.len(),
            lo <= i,
            lo <= hi ==> i <= hi,
            lo > hi ==> i == lo,
            v@.len() == i - lo,
            forall|k: int| 0 <= k < v@.len() ==> (#[trigger] v@[k])@ == record_row(m[lo + k]),
        decreases hi - i,
    {
        assert(m[i as int] == r@[i as int]@);
        v.push(make_record_row(&r[i]));
        i = i + 1;
    }
    assert(views(v@) =~= record_rows(m, lo as int, hi as int));
    v
}

fn find_owned_end(found: &Match) -> (r: usize)
    requires
        found.procedure_pos < found.records@.len(),
    ensures
        r == owned_end(views(found.records@), found.procedure_end, found.procedure_pos as int),
        found.procedure_pos <= r <= found.records@.len(),
{
    let ghost m = views(found.records@);
    let mut i: usize = found.procedure_pos;
    while i < found.records.len() && found.records[i].index <= found.procedure_end
        invariant
            m == views(found.records@),
            found.procedure_pos <= i <= found.records@.len(),
            owned_end(m, found.procedure_end, found.procedure_pos as int) == owned_end(
                m,
                found.procedure_end,
                i as int,
            ),
        decreases found.records.len() - i,
    {
        assert(m[i as int] == found.records@[i as int]@);
        i = i + 1;
    }
    assert(i < found.records@.len() ==> m[i as int] == found.records@[i as int]@);
    i
}

fn owned_record_rows(found: &Match) -> (v: Vec<ComparableRow>)
    requires
        found.procedure_pos < found.records@.len(),
    ensures
        views(v@) == own_rows(found@),
{
    let hi: usize = find_owned_end(found);
    make_record_rows(&found.records, found.procedure_pos, hi)
}

fn line_rows(found: &Match) -> (v: Vec<ComparableRow>)
    ensures
        views(v@) == line_rows_of(found@.lines),
{
    let p: Vec<&str> = vec!["rva=", "source="];
    assert(strs(p@) =~= seq!["rva="@, "source="@]);
    let ghost lines = found@.lines;
    let mut v: Vec<ComparableRow> = Vec::new();
    let mut i: usize = 0;
    while i < found.lines.len()
        invariant
            lines == texts(found.lines@),
            strs(p@) == seq!["rva="@, "source="@],
            i <= found.lines@.len(),
            v@.len() == i,
            forall|k: int| 0 <= k < i ==> (#[trigger] v@[k])@ == line_rows_of(lines)[k],
        decreases found.lines.len() - i,
    {
        assert(lines[i as int] == found.lines@[i as int]@);
        v.push(
            ComparableRow {
                key: cat2("line#", decimal(i as u64).as_str()),
                value: strip_tokens(found.lines[i].as_str(), &p),
            },
        );
        i = i + 1;
    }
    assert(views(v@) =~= line_rows_of(lines));
    v
}

fn normalize_type_row(row: &str) -> (r: String)
    ensures
        r@ == type_row_normalized(row@),
{
    let p: Vec<&str> = vec!["type="];
    assert(strs(p@) =~= seq!["type="@]);
    let stripped: String = strip_tokens(without_mark(row).as_str(), &p);
    let tokens: Vec<String> = split_words(stripped.as_str());
    let ghost w = words(stripped@);
    let mut out: Vec<String> = Vec::new();
    let mut i: usize = 0;
    while i < tokens.len()
        invariant
            w == texts(tokens@),
            i <= tokens@.len(),
            out@.len() == i,
            forall|k: int| 0 <= k < i ==> (#[trigger] out@[k])@ == later_words_hidden(w)[k],
        decreases tokens.len() - i,
    {
        assert(w[i as int] == tokens@[i as int]@);
        let t: String = if i == 0 {
            tokens[i].clone()
        } else {
            replace_hex_ids(tokens[i].as_str())
        };
        out.push(t);
        i = i + 1;
    }
    assert(texts(out@) =~= later_words_hidden(w));
    join(&out, " ")
}

fn indexed_rows(rows: &Vec<String>) -> (v: Vec<ComparableRow>)
    ensures
        views(v@) == type_rows_of(texts(rows@)),
{
    let ghost t = texts(rows@);
    let mut v: Vec<ComparableRow> = Vec::new();
    let mut i: usize = 0;
    while i < rows.len()
        invariant
            t == texts(rows@),
            i <= rows@.len(),
            v@.len() == i,
            forall|k: int| 0 <= k < i ==> (#[trigger] v@[k])@ == type_rows_of(t)[k],
        decreases rows.len() - i,
    {
        assert(t[i as int] == rows@[i as int]@);
        v.push(
            ComparableRow {
                key: cat2("row#", decimal(i as u64).as_str()),
                value: normalize_type_row(rows[i].as_str()),
            },
        );
        i = i + 1;
    }
    assert(views(v@) =~= type_rows_of(t));
    v
}

fn declaration_value(row: &str) -> (r: String)
    ensures
        r@ == declaration_text(row@),
{
    let p: Vec<&str> = vec!["type="];
    assert(strs(p@) =~= seq!["type="@]);
    replace_hex_ids(strip_tokens(row, &p).as_str())
}

fn declaration_rows(rows: &Vec<String>) -> (v: Vec<ComparableRow>)
    ensures
        views(v@) == declaration_rows_of(texts(rows@)),
{
    let p: Vec<&str> = vec!["field#"];
    assert(strs(p@) =~= seq!["field#"@]);
    let ghost t = texts(rows@);
    let mut v: Vec<ComparableRow> = Vec::new();
    let mut i: usize = 0;
    while i < rows.len()
        invariant
            t == texts(rows@),
            strs(p@) == seq!["field#"@],
            i <= rows@.len(),
            v@.len() == i,
            forall|k: int| 0 <= k < i ==> (#[trigger] v@[k])@ == declaration_rows_of(t)[k],
        decreases rows.len() - i,
    {
        assert(t[i as int] == rows@[i as int]@);
        let value: String = declaration_value(rows[i].as_str());
        let key: String = strip_tokens(without_mark(value.as_str()).as_str(), &p);
        v.push(ComparableRow { key, value });
        i = i + 1;
    }
    assert(views(v@) =~= declaration_rows_of(t));
    v
}

/// Where the context of a position begins and ends.
fn window(p: usize, context: usize, len: usize) -> (r: (usize, usize))
    requires
        p < len,
    ensures
        r.0 == window_start(p as int, context as int),
        r.1 == window_end(p as int, context as int, len as int),
        r.0 <= p < r.1 <= len,
{
    let lo: usize = p.saturating_sub(context);
    let hi: usize = if context >= len - p {
        len
    } else if p + context + 1 < len {
        p + context + 1
    } else {
        len
    };
    (lo, hi)
}

fn physical_rows(found: &Match, context: usize) -> (v: Vec<ComparableRow>)
    requires
        found.procedure_pos < found.records@.len(),
    ensures
        views(v@) == physical_rows_of(found@, context),
{
    let (lo, hi): (usize, usize) = window(found.procedure_pos, context, found.records.len());
    make_record_rows(&found.records, lo, hi)
}

/// Positions as integers.
spec fn as_positions(v: Seq<usize>) -> Seq<int> {
    v.map_values(|i: usize| i as int)
}

fn top_level_positions(found: &Match, context: usize) -> (r: Option<Vec<usize>>)
    requires
        found.procedure_pos < found.records@.len(),
    ensures
        match r {
            Some(v) => top_level_around(found@, context) == Some(as_positions(v@)) && forall|k: int|
                0 <= k < v@.len() ==> (#[trigger] v@[k]) < found.records@.len(),
            None => top_level_around(found@, context) is None,
        },
{
    let ghost m = views(found.records@);
    let mut top: Vec<usize> = Vec::new();
    let mut i: usize = 0;
    assert(as_positions(top@) =~= Seq::<int>::empty());
    while i < found.records.len()
        invariant
            m == views(found.records@),
            i <= found.records@.len(),
            as_positions(top@) == top_level(m, i as int),
            forall|k: int| 0 <= k < top@.len() ==> (#[trigger] top@[k]) < found.records@.len(),
        decreases found.records.len() - i,
    {
        assert(m[i as int] == found.records@[i as int]@);
        if found.records[i].depth == 0 {
            let ghost before = top@;
            top.push(i);
            assert(as_positions(top@) =~= as_positions(before).push(i as int));
        }
        i = i + 1;
    }
    let ghost all = as_positions(top@);
    let p: usize = found.procedure_pos;
    let mut c: usize = 0;
    while c < top.len()
        invariant
            all == as_positions(top@),
            c <= top@.len(),
            rank_among(all, p as int, 0) == rank_among(all, p as int, c as int),
            forall|k: int| 0 <= k < top@.len() ==> (#[trigger] top@[k]) < found.records@.len(),
            found@.records == m,
            all == top_level(m, m.len() as int),
            p == found.procedure_pos,
        decreases top.len() - c,
    {
        assert(all[c as int] == top@[c as int]);
        if top[c] == p {
            let (lo, hi): (usize, usize) = window(c, context, top.len());
            let mut out: Vec<usize> = Vec::new();
            let mut k: usize = lo;
            while k < hi
                invariant
                    lo <= k <= hi <= top@.len(),
                    forall|k: int|
                        0 <= k < top@.len() ==> (#[trigger] top@[k]) < found.records@.len(),
                    out@.len() == k - lo,
                    forall|x: int| 0 <= x < out@.len() ==> #[trigger] out@[x] == top@[lo + x],
                decreases hi - k,
            {
                out.push(top[k]);
                k = k + 1;
            }
            assert(as_positions(out@) =~= all.subrange(lo as int, hi as int));
            return Some(out);
        }
        c = c + 1;
    }
    None
}

fn top_level_rows(found: &Match, context: usize) -> (v: Vec<ComparableRow>)
    requires
        found.procedure_pos < found.records@.len(),
    ensures
        views(v@) == top_level_rows_of(found@, context),
{
    let mut v: Vec<ComparableRow> = Vec::new();
    match top_level_positions(found, context) {
        Some(p) => {
            let ghost at = as_positions(p@);
            let ghost m = views(found.records@);
            let mut i: usize = 0;
            while i < p.len()
                invariant
                    at == as_positions(p@),
                    m == views(found.records@),
                    i <= p@.len(),
                    forall|k: int| 0 <= k < p@.len() ==> (#[trigger] p@[k]) < found.records@.len(),
                    v@.len() == i,
                    forall|k: int| 0 <= k < i ==> (#[trigger] v@[k])@ == record_row(m[at[k]]),
                decreases p.len() - i,
            {
                assert(at[i as int] == p@[i as int]);
                assert(m[at[i as int]] == found.records@[p@[i as int] as int]@);
                v.push(make_record_row(&found.records[p[i]]));
                i = i + 1;
            }
        },
        None => {},
    }
    assert(views(v@) =~= top_level_rows_of(found@, context));
    v
}

// ---------------------------------------------------------------------------
// Differences
// ---------------------------------------------------------------------------

/// A difference between two lists of rows.
#[derive(Debug)]
pub struct DiffLine {
    pub kind: &'static str,
    pub base: Option<String>,
    pub target: Option<String>,
}

/// A difference between two lists of rows, as a model.
pub struct LineModel {
    pub kind: Seq<char>,
    pub base: Option<Seq<char>>,
    pub target: Option<Seq<char>>,
}

impl View for DiffLine {
    type V = LineModel;

    open spec fn view(&self) -> LineModel {
        LineModel { kind: self.kind@, base: opt(self.base), target: opt(self.target) }
    }
}

/// What rows are aligned by.
pub open spec fn row_keys(rows: Seq<RowModel>) -> Seq<Seq<char>> {
    rows.map_values(|r: RowModel| r.key)
}

/// The differences that the first `n` steps of an alignment show.
pub open spec fn lines_upto(b: Seq<RowModel>, t: Seq<RowModel>, ops: Seq<Step>, n: int) -> Seq<
    LineModel,
>
    decreases n,
{
    if n <= 0 {
        Seq::empty()
    } else {
        let before = lines_upto(b, t, ops, n - 1);
        match ops[n - 1] {
            Step::Both(i, j) => if b[i].value == t[j].value {
                before
            } else {
                before.push(
                    LineModel {
                        kind: "changed"@,
                        base: Some(b[i].value),
                        target: Some(t[j].value),
                    },
                )
            },
            Step::Base(i) => before.push(
                LineModel { kind: "removed"@, base: Some(b[i].value), target: None },
            ),
            Step::Target(j) => before.push(
                LineModel { kind: "added"@, base: None, target: Some(t[j].value) },
            ),
        }
    }
}

/// The differences between two lists of rows, aligned by their keys.
#[verifier::opaque]
pub open spec fn row_differences(b: Seq<RowModel>, t: Seq<RowModel>) -> Seq<LineModel> {
    let ops = script(row_keys(b), row_keys(t), 0, 0);
    lines_upto(b, t, ops, ops.len() as int)
}

/// The same rows do not differ.
pub proof fn lemma_same_rows_do_not_differ(rows: Seq<RowModel>)
    ensures
        row_differences(rows, rows) == Seq::<LineModel>::empty(),
{
    reveal(row_differences);
    let k = row_keys(rows);
    lemma_script_of_same(k, k, 0);
    let ops = script(k, k, 0, 0);
    lemma_no_lines(rows, ops, ops.len() as int);
}

proof fn lemma_no_lines(rows: Seq<RowModel>, ops: Seq<Step>, n: int)
    requires
        ops == Seq::new(rows.len(), |k: int| Step::Both(0 + k, 0 + k)),
        0 <= n <= ops.len(),
    ensures
        lines_upto(rows, rows, ops, n) == Seq::<LineModel>::empty(),
    decreases n,
{
    if n > 0 {
        lemma_no_lines(rows, ops, n - 1);
        assert(ops[n - 1] == Step::Both(n - 1, n - 1));
    }
}

fn keys_of(rows: &Vec<ComparableRow>) -> (r: Vec<String>)
    ensures
        views(r@) == row_keys(views(rows@)),
{
    let mut r: Vec<String> = Vec::new();
    let mut i: usize = 0;
    while i < rows.len()
        invariant
            i <= rows@.len(),
            r@.len() == i,
            forall|k: int| 0 <= k < i ==> (#[trigger] r@[k])@ == rows@[k].key@,
        decreases rows.len() - i,
    {
        r.push(rows[i].key.clone());
        i = i + 1;
    }
    assert(views(r@) =~= row_keys(views(rows@)));
    r
}

fn push_line(v: &mut Vec<DiffLine>, d: DiffLine)
    ensures
        views(final(v)@) == views(old(v)@).push(d@),
{
    let ghost before = v@;
    let ghost m = d@;
    v.push(d);
    assert(views(v@) =~= views(before).push(m));
}

/// The differences between two lists of rows, aligned by their keys.
pub fn diff_rows(base: &Vec<ComparableRow>, target: &Vec<ComparableRow>) -> (r: Vec<DiffLine>)
    ensures
        views(r@) == row_differences(views(base@), views(target@)),
{
    reveal(row_differences);
    let ghost b = views(base@);
    let ghost t = views(target@);
    let bk: Vec<String> = keys_of(base);
    let tk: Vec<String> = keys_of(target);
    let edits: Vec<Edit> = align(&bk, &tk);
    let ghost ops = script(row_keys(b), row_keys(t), 0, 0);
    proof {
        lemma_script(row_keys(b), row_keys(t), 0, 0);
    }
    let mut out: Vec<DiffLine> = Vec::new();
    let mut k: usize = 0;
    assert(views(out@) =~= Seq::<LineModel>::empty());
    while k < edits.len()
        invariant
            b == views(base@),
            t == views(target@),
            ops == steps(edits@),
            forall|x: int|
                0 <= x < ops.len() ==> match #[trigger] ops[x] {
                    Step::Both(i, j) => 0 <= i < b.len() && 0 <= j < t.len(),
                    Step::Base(i) => 0 <= i < b.len(),
                    Step::Target(j) => 0 <= j < t.len(),
                },
            k <= edits@.len(),
            views(out@) == lines_upto(b, t, ops, k as int),
        decreases edits.len() - k,
    {
        assert(ops[k as int] == edits@[k as int].step());
        match edits[k] {
            Edit::Equal { base: i, target: j } => {
                assert(b[i as int] == base@[i as int]@ && t[j as int] == target@[j as int]@);
                if !(base[i].value == target[j].value) {
                    push_line(
                        &mut out,
                        DiffLine {
                            kind: "changed",
                            base: Some(base[i].value.clone()),
                            target: Some(target[j].value.clone()),
                        },
                    );
                }
            },
            Edit::Delete { base: i } => {
                assert(b[i as int] == base@[i as int]@);
                push_line(
                    &mut out,
                    DiffLine { kind: "removed", base: Some(base[i].value.clone()), target: None },
                );
            },
            Edit::Insert { target: j } => {
                assert(t[j as int] == target@[j as int]@);
                push_line(
                    &mut out,
                    DiffLine { kind: "added", base: None, target: Some(target[j].value.clone()) },
                );
            },
        }
        k = k + 1;
    }
    out
}

/// One aspect under which two procedures are compared.
#[derive(Debug)]
pub struct DiffSection {
    pub name: &'static str,
    pub confidence: &'static str,
    pub differences: Vec<DiffLine>,
}

/// One aspect, as a model.
pub struct SectionModel {
    pub name: Seq<char>,
    pub confidence: Seq<char>,
    pub differences: Seq<LineModel>,
}

impl View for DiffSection {
    type V = SectionModel;

    open spec fn view(&self) -> SectionModel {
        SectionModel {
            name: self.name@,
            confidence: self.confidence@,
            differences: views(self.differences@),
        }
    }
}

/// Two procedures compared, or one that has no counterpart.
#[derive(Debug)]
pub struct MatchDiff {
    pub procedure: String,
    pub target_module: Option<String>,
    pub base_module: Option<String>,
    pub status: &'static str,
    pub sections: Vec<DiffSection>,
}

/// Two procedures compared, as a model.
pub struct MatchDiffModel {
    pub procedure: Seq<char>,
    pub target_module: Option<Seq<char>>,
    pub base_module: Option<Seq<char>>,
    pub status: Seq<char>,
    pub sections: Seq<SectionModel>,
}

impl View for MatchDiff {
    type V = MatchDiffModel;

    open spec fn view(&self) -> MatchDiffModel {
        MatchDiffModel {
            procedure: self.procedure@,
            target_module: opt(self.target_module),
            base_module: opt(self.base_module),
            status: self.status@,
            sections: views(self.sections@),
        }
    }
}

/// The aspects under which two procedures are compared.
#[verifier::opaque]
pub open spec fn paired_sections(b: MatchModel, t: MatchModel, context: usize) -> Seq<SectionModel> {
    seq![
        SectionModel {
            name: "explicit procedure evidence"@,
            confidence: "high"@,
            differences: row_differences(own_rows(b), own_rows(t)),
        },
        SectionModel {
            name: "line-program geometry"@,
            confidence: "high"@,
            differences: row_differences(line_rows_of(b.lines), line_rows_of(t.lines)),
        },
        SectionModel {
            name: "TPI record neighborhood"@,
            confidence: "heuristic/linker-deduplicated"@,
            differences: row_differences(type_rows_of(b.type_rows), type_rows_of(t.type_rows)),
        },
        SectionModel {
            name: "class field-list binding"@,
            confidence: "high"@,
            differences: row_differences(
                declaration_rows_of(b.declaration_rows),
                declaration_rows_of(t.declaration_rows),
            ),
        },
        SectionModel {
            name: "physical record adjacency"@,
            confidence: "heuristic"@,
            differences: row_differences(
                physical_rows_of(b, context),
                physical_rows_of(t, context),
            ),
        },
        SectionModel {
            name: "top-level record neighborhood"@,
            confidence: "medium/heuristic"@,
            differences: row_differences(
                top_level_rows_of(b, context),
                top_level_rows_of(t, context),
            ),
        },
    ]
}

/// What is said of a procedure that has no counterpart.
pub open spec fn unpaired_sections(
    status: Seq<char>,
    base: Option<Seq<char>>,
    target: Option<Seq<char>>,
) -> Seq<SectionModel> {
    seq![
        SectionModel {
            name: "procedure pairing"@,
            confidence: "high"@,
            differences: seq![LineModel { kind: status, base, target }],
        },
    ]
}

/// A procedure of the target compared with one of the base, or with none.
pub open spec fn target_diff(t: MatchModel, b: Option<MatchModel>, context: usize) -> MatchDiffModel {
    MatchDiffModel {
        procedure: t.procedure_name,
        target_module: Some(t.module_name),
        base_module: match b {
            Some(x) => Some(x.module_name),
            None => None,
        },
        status: if b is Some {
            "paired"@
        } else {
            "target-only"@
        },
        sections: match b {
            Some(x) => paired_sections(x, t, context),
            None => unpaired_sections("target-only"@, None, Some(t.procedure_name)),
        },
    }
}

/// A procedure of the base that no procedure of the target is compared with.
pub open spec fn base_diff(b: MatchModel) -> MatchDiffModel {
    MatchDiffModel {
        procedure: b.procedure_name,
        target_module: None,
        base_module: Some(b.module_name),
        status: "base-only"@,
        sections: unpaired_sections("base-only"@, Some(b.procedure_name), None),
    }
}

/// Whether procedures of two databases may be the same, by name; with `in_module`,
/// also by the last part of their modules' paths in any letter case.
pub open spec fn is_counterpart(b: MatchModel, t: MatchModel, in_module: bool) -> bool {
    b.procedure_name == t.procedure_name && (in_module ==> same_ignoring_ascii_case(
        leaf(b.module_name),
        leaf(t.module_name),
    ))
}

/// The first counterpart from `from` on that is not `used`.
pub open spec fn first_counterpart(
    base: Seq<MatchModel>,
    used: Seq<int>,
    t: MatchModel,
    in_module: bool,
    from: int,
) -> Option<int>
    decreases base.len() - from,
{
    if from < 0 || from >= base.len() {
        None
    } else if !used.contains(from) && is_counterpart(base[from], t, in_module) {
        Some(from)
    } else {
        first_counterpart(base, used, t, in_module, from + 1)
    }
}

/// The counterpart of a procedure: one in a module of the same name, or else any.
pub open spec fn counterpart(base: Seq<MatchModel>, used: Seq<int>, t: MatchModel) -> Option<int> {
    match first_counterpart(base, used, t, true, 0) {
        Some(i) => Some(i),
        None => first_counterpart(base, used, t, false, 0),
    }
}

/// The counterparts of the first `n` procedures of the target; none is used twice.
pub open spec fn used_upto(base: Seq<MatchModel>, target: Seq<MatchModel>, n: int) -> Seq<int>
    decreases n,
{
    if n <= 0 {
        Seq::empty()
    } else {
        let before = used_upto(base, target, n - 1);
        match counterpart(base, before, target[n - 1]) {
            Some(i) => before.push(i),
            None => before,
        }
    }
}

/// The first `n` procedures of the target, each with its counterpart.
pub open spec fn target_pairs(
    base: Seq<MatchModel>,
    target: Seq<MatchModel>,
    context: usize,
    n: int,
) -> Seq<MatchDiffModel>
    decreases n,
{
    if n <= 0 {
        Seq::empty()
    } else {
        let b = match counterpart(base, used_upto(base, target, n - 1), target[n - 1]) {
            Some(i) => Some(base[i]),
            None => None,
        };
        target_pairs(base, target, context, n - 1).push(target_diff(target[n - 1], b, context))
    }
}

/// Pairs, and behind them the first `n` procedures of the base that are not used.
pub open spec fn with_base_only(
    v: Seq<MatchDiffModel>,
    base: Seq<MatchModel>,
    used: Seq<int>,
    n: int,
) -> Seq<MatchDiffModel>
    decreases n,
{
    if n <= 0 {
        v
    } else if used.contains(n - 1) {
        with_base_only(v, base, used, n - 1)
    } else {
        with_base_only(v, base, used, n - 1).push(base_diff(base[n - 1]))
    }
}

/// The procedures of two databases, paired.
pub open spec fn all_pairs(
    base: Seq<MatchModel>,
    target: Seq<MatchModel>,
    context: usize,
) -> Seq<MatchDiffModel> {
    with_base_only(
        target_pairs(base, target, context, target.len() as int),
        base,
        used_upto(base, target, target.len() as int),
        base.len() as int,
    )
}

/// The procedures of two databases, paired and compared.
#[derive(Debug)]
pub struct DiffReport {
    pub target_pdb: String,
    pub base_pdb: String,
    pub target_matches: usize,
    pub base_matches: usize,
    pub pairs: Vec<MatchDiff>,
}

/// Whether every match stands among the records of its module.
pub open spec fn positions_valid(v: Seq<Match>) -> bool {
    forall|i: int|
        0 <= i < v.len() ==> (#[trigger] v[i]).procedure_pos < v[i].records@.len()
}

fn diff_section(
    name: &'static str,
    confidence: &'static str,
    base: Vec<ComparableRow>,
    target: Vec<ComparableRow>,
) -> (r: DiffSection)
    ensures
        r@ == (SectionModel {
            name: name@,
            confidence: confidence@,
            differences: row_differences(views(base@), views(target@)),
        }),
{
    DiffSection { name, confidence, differences: diff_rows(&base, &target) }
}

fn make_sections(base: &Match, target: &Match, context: usize) -> (r: Vec<DiffSection>)
    requires
        base.procedure_pos < base.records@.len(),
        target.procedure_pos < target.records@.len(),
    ensures
        views(r@) == paired_sections(base@, target@, context),
{
    reveal(paired_sections);
    let mut v: Vec<DiffSection> = Vec::new();
    v.push(
        diff_section(
            "explicit procedure evidence",
            "high",
            owned_record_rows(base),
            owned_record_rows(target),
        ),
    );
    v.push(diff_section("line-program geometry", "high", line_rows(base), line_rows(target)));
    v.push(
        diff_section(
            "TPI record neighborhood",
            "heuristic/linker-deduplicated",
            indexed_rows(&base.type_rows),
            indexed_rows(&target.type_rows),
        ),
    );
    v.push(
        diff_section(
            "class field-list binding",
            "high",
            declaration_rows(&base.declaration_rows),
            declaration_rows(&target.declaration_rows),
        ),
    );
    v.push(
        diff_section(
            "physical record adjacency",
            "heuristic",
            physical_rows(base, context),
            physical_rows(target, context),
        ),
    );
    v.push(
        diff_section(
            "top-level record neighborhood",
            "medium/heuristic",
            top_level_rows(base, context),
            top_level_rows(target, context),
        ),
    );
    assert(views(v@) =~= paired_sections(base@, target@, context));
    v
}

fn unpaired(status: &'static str, base: Option<String>, target: Option<String>) -> (r: Vec<
    DiffSection,
>)
    ensures
        views(r@) == unpaired_sections(status@, opt(base), opt(target)),
{
    let mut lines: Vec<DiffLine> = Vec::new();
    let d: DiffLine = DiffLine { kind: status, base, target };
    let ghost m = d@;
    lines.push(d);
    assert(views(lines@) =~= seq![m]);
    let mut v: Vec<DiffSection> = Vec::new();
    v.push(DiffSection { name: "procedure pairing", confidence: "high", differences: lines });
    assert(views(v@) =~= unpaired_sections(status@, opt(base), opt(target)));
    v
}

fn build_match_diff(target: &Match, base: Option<&Match>, context: usize) -> (r: MatchDiff)
    requires
        target.procedure_pos < target.records@.len(),
        base matches Some(b) ==> b.procedure_pos < b.records@.len(),
    ensures
        r@ == target_diff(
            target@,
            match base {
                Some(b) => Some(b@),
                None => None,
            },
            context,
        ),
{
    match base {
        Some(b) => MatchDiff {
            procedure: target.procedure_name.clone(),
            target_module: Some(target.module_name.clone()),
            base_module: Some(b.module_name.clone()),
            status: "paired",
            sections: make_sections(b, target, context),
        },
        None => MatchDiff {
            procedure: target.procedure_name.clone(),
            target_module: Some(target.module_name.clone()),
            base_module: None,
            status: "target-only",
            sections: unpaired("target-only", None, Some(target.procedure_name.clone())),
        },
    }
}

fn is_used(v: &Vec<usize>, i: usize) -> (r: bool)
    ensures
        r == as_positions(v@).contains(i as int),
{
    let mut k: usize = 0;
    while k < v.len()
        invariant
            k <= v@.len(),
            forall|x: int| 0 <= x < k ==> v@[x] != i,
        decreases v.len() - k,
    {
        if v[k] == i {
            assert(as_positions(v@)[k as int] == i);
            return true;
        }
        k = k + 1;
    }
    assert(forall|x: int| 0 <= x < v@.len() ==> as_positions(v@)[x] == v@[x]);
    false
}

fn find_counterpart(base: &Vec<Match>, used: &Vec<usize>, t: &Match, in_module: bool) -> (r: Option<
    usize,
>)
    ensures
        match r {
            Some(i) => first_counterpart(views(base@), as_positions(used@), t@, in_module, 0)
                == Some(i as int) && i < base@.len(),
            None => first_counterpart(
                views(base@),
                as_positions(used@),
                t@,
                in_module,
                0,
            ) is None,
        },
{
    let ghost b = views(base@);
    let ghost u = as_positions(used@);
    let leaf_name: String = module_leaf(t.module_name.as_str());
    let mut i: usize = 0;
    while i < base.len()
        invariant
            b == views(base@),
            u == as_positions(used@),
            leaf_name@ == leaf(t.module_name@),
            i <= base@.len(),
            first_counterpart(b, u, t@, in_module, 0) == first_counterpart(
                b,
                u,
                t@,
                in_module,
                i as int,
            ),
        decreases base.len() - i,
    {
        assert(b[i as int] == base@[i as int]@);
        if !is_used(used, i) && base[i].procedure_name == t.procedure_name {
            if !in_module || equal_ignoring_ascii_case(
                module_leaf(base[i].module_name.as_str()).as_str(),
                leaf_name.as_str(),
            ) {
                return Some(i);
            }
        }
        i = i + 1;
    }
    None
}

/// Pairs the procedures of two databases, by name and where possible by module, and
/// compares each pair.
pub fn build_diff_report(
    target_pdb: &str,
    base_pdb: &str,
    target: &Vec<Match>,
    base: &Vec<Match>,
    context: usize,
) -> (r: DiffReport)
    requires
        positions_valid(target@),
        positions_valid(base@),
    ensures
        r.target_pdb@ == target_pdb@,
        r.base_pdb@ == base_pdb@,
        r.target_matches == target@.len(),
        r.base_matches == base@.len(),
        views(r.pairs@) == all_pairs(views(base@), views(target@), context),
{
    let ghost b = views(base@);
    let ghost t = views(target@);
    let mut used: Vec<usize> = Vec::new();
    let mut pairs: Vec<MatchDiff> = Vec::new();
    let mut i: usize = 0;
    assert(as_positions(used@) =~= Seq::<int>::empty());
    assert(views(pairs@) =~= Seq::<MatchDiffModel>::empty());
    while i < target.len()
        invariant
            b == views(base@),
            t == views(target@),
            positions_valid(target@),
            positions_valid(base@),
            i <= target@.len(),
            as_positions(used@) == used_upto(b, t, i as int),
            views(pairs@) == target_pairs(b, t, context, i as int),
        decreases target.len() - i,
    {
        assert(t[i as int] == target@[i as int]@);
        let found: Option<usize> = match find_counterpart(base, &used, &target[i], true) {
            Some(k) => Some(k),
            None => find_counterpart(base, &used, &target[i], false),
        };
        let one: MatchDiff = match found {
            Some(k) => {
                assert(b[k as int] == base@[k as int]@);
                let ghost before = used@;
                used.push(k);
                assert(as_positions(used@) =~= as_positions(before).push(k as int));
                build_match_diff(&target[i], Some(&base[k]), context)
            },
            None => build_match_diff(&target[i], None, context),
        };
        let ghost before = pairs@;
        let ghost m = one@;
        pairs.push(one);
        assert(views(pairs@) =~= views(before).push(m));
        i = i + 1;
    }
    let ghost first = views(pairs@);
    let ghost u = as_positions(used@);
    let mut k: usize = 0;
    while k < base.len()
        invariant
            b == views(base@),
            u == as_positions(used@),
            k <= base@.len(),
            views(pairs@) == with_base_only(first, b, u, k as int),
        decreases base.len() - k,
    {
        assert(b[k as int] == base@[k as int]@);
        if !is_used(&used, k) {
            let one: MatchDiff = MatchDiff {
                procedure: base[k].procedure_name.clone(),
                target_module: None,
                base_module: Some(base[k].module_name.clone()),
                status: "base-only",
                sections: unpaired("base-only", Some(base[k].procedure_name.clone()), None),
            };
            let ghost before = pairs@;
            let ghost m = one@;
            assert(m == base_diff(b[k as int]));
            pairs.push(one);
            assert(views(pairs@) =~= views(before).push(m));
        }
        k = k + 1;
    }
    DiffReport {
        target_pdb: owned(target_pdb),
        base_pdb: owned(base_pdb),
        target_matches: target.len(),
        base_matches: base.len(),
        pairs,
    }
}

/// A procedure compared with itself differs nowhere.
pub proof fn lemma_procedure_is_like_itself(m: MatchModel, context: usize)
    ensures
        forall|i: int|
            0 <= i < paired_sections(m, m, context).len() ==> (#[trigger] paired_sections(
                m,
                m,
                context,
            )[i]).differences == Seq::<LineModel>::empty(),
{
    reveal(paired_sections);
    lemma_same_rows_do_not_differ(own_rows(m));
    lemma_same_rows_do_not_differ(line_rows_of(m.lines));
    lemma_same_rows_do_not_differ(type_rows_of(m.type_rows));
    lemma_same_rows_do_not_differ(declaration_rows_of(m.declaration_rows));
    lemma_same_rows_do_not_differ(physical_rows_of(m, context));
    lemma_same_rows_do_not_differ(top_level_rows_of(m, context));
    let s = paired_sections(m, m, context);
    assert forall|i: int| 0 <= i < s.len() implies (#[trigger] s[i]).differences == Seq::<
        LineModel,
    >::empty() by {
        assert(i == 0 || i == 1 || i == 2 || i == 3 || i == 4 || i == 5);
    }
}

/// Every procedure of either database is told of, once: those of the target in
/// order, and behind them those of the base that have no counterpart. No procedure
/// of the base is the counterpart of two.
pub proof fn lemma_pairs_are_complete(base: Seq<MatchModel>, target: Seq<MatchModel>, n: int)
    requires
        0 <= n <= target.len(),
    ensures
        used_upto(base, target, n).no_duplicates(),
        forall|k: int|
            0 <= k < used_upto(base, target, n).len() ==> 0 <= #[trigger] used_upto(
                base,
                target,
                n,
            )[k] < base.len(),
    decreases n,
{
    if n > 0 {
        lemma_pairs_are_complete(base, target, n - 1);
        let before = used_upto(base, target, n - 1);
        lemma_first_counterpart(base, before, target[n - 1], true, 0);
        lemma_first_counterpart(base, before, target[n - 1], false, 0);
    }
}

proof fn lemma_first_counterpart(
    base: Seq<MatchModel>,
    used: Seq<int>,
    t: MatchModel,
    in_module: bool,
    from: int,
)
    requires
        0 <= from,
    ensures
        first_counterpart(base, used, t, in_module, from) matches Some(i) ==> from <= i < base.len()
            && !used.contains(i),
    decreases base.len() - from,
{
    if from < base.len() && !(!used.contains(from) && is_counterpart(base[from], t, in_module)) {
        lemma_first_counterpart(base, used, t, in_module, from + 1);
    }
}

// ---------------------------------------------------------------------------
// Views
// ---------------------------------------------------------------------------

/// The lines of the first `n` differences.
pub open spec fn diff_lines_text(d: Seq<LineModel>, n: int) -> Seq<char>
    decreases n,
{
    if n <= 0 {
        ""@
    } else {
        diff_lines_text(d, n - 1) + (match d[n - 1].base {
            Some(b) => "- "@ + b + "\n"@,
            None => ""@,
        }) + (match d[n - 1].target {
            Some(t) => "+ "@ + t + "\n"@,
            None => ""@,
        })
    }
}

/// The lines of the first `n` aspects.
pub open spec fn sections_text(s: Seq<SectionModel>, n: int) -> Seq<char>
    decreases n,
{
    if n <= 0 {
        ""@
    } else {
        let x = s[n - 1];
        sections_text(s, n - 1) + ("\n["@ + x.name + " — "@ + x.confidence + " confidence]\n"@ + (
        if x.differences.len() == 0 {
            "  no semantic differences\n"@
        } else {
            diff_lines_text(x.differences, x.differences.len() as int)
        }))
    }
}

/// The lines of one pair.
pub open spec fn pair_text(p: MatchDiffModel) -> Seq<char> {
    "\n=== "@ + p.procedure + " ["@ + p.status + "] ===\n"@ + (match p.target_module {
        Some(m) => "+ target module: "@ + m + "\n"@,
        None => ""@,
    }) + (match p.base_module {
        Some(m) => "- base module:   "@ + m + "\n"@,
        None => ""@,
    }) + sections_text(p.sections, p.sections.len() as int)
}

/// The lines of the first `n` pairs.
pub open spec fn pairs_text(p: Seq<MatchDiffModel>, n: int) -> Seq<char>
    decreases n,
{
    if n <= 0 {
        ""@
    } else {
        pairs_text(p, n - 1) + pair_text(p[n - 1])
    }
}

/// How many of the first `n` pairs have two sides.
pub open spec fn paired_count(p: Seq<MatchDiffModel>, n: int) -> nat
    decreases n,
{
    if n <= 0 {
        0
    } else {
        paired_count(p, n - 1) + if p[n - 1].status == "paired"@ {
            1nat
        } else {
            0nat
        }
    }
}

/// The report as text.
pub open spec fn diff_report_text(r: DiffReport) -> Seq<char> {
    let p = views(r.pairs@);
    "target PDB: "@ + r.target_pdb@ + "\nbase PDB:   "@ + r.base_pdb@ + "\nmatched target="@ + dec(
        r.target_matches as nat,
    ) + " base="@ + dec(r.base_matches as nat) + " paired="@ + dec(
        paired_count(p, p.len() as int),
    ) + "\n"@ + pairs_text(p, p.len() as int)
}

fn optional_line(label: &str, s: &Option<String>) -> (r: String)
    ensures
        r@ == match opt(*s) {
            Some(t) => label@ + t + "\n"@,
            None => ""@,
        },
{
    match s {
        Some(t) => cat3(label, t.as_str(), "\n"),
        None => owned(""),
    }
}

fn sections_shown(s: &Vec<DiffSection>) -> (r: String)
    ensures
        r@ == sections_text(views(s@), s@.len() as int),
{
    let ghost m = views(s@);
    let mut out: String = owned("");
    let mut i: usize = 0;
    while i < s.len()
        invariant
            m == views(s@),
            i <= s@.len(),
            out@ == sections_text(m, i as int),
        decreases s.len() - i,
    {
        let x: &DiffSection = &s[i];
        assert(m[i as int] == x@);
        let mut body: String = owned("");
        if x.differences.len() == 0 {
            body = owned("  no semantic differences\n");
        } else {
            let ghost d = views(x.differences@);
            let mut k: usize = 0;
            while k < x.differences.len()
                invariant
                    d == views(x.differences@),
                    k <= x.differences@.len(),
                    body@ == diff_lines_text(d, k as int),
                decreases x.differences.len() - k,
            {
                assert(d[k as int] == x.differences@[k as int]@);
                body.append(optional_line("- ", &x.differences[k].base).as_str());
                body.append(optional_line("+ ", &x.differences[k].target).as_str());
                k = k + 1;
            }
        }
        let section: String = cat6(
            "\n[",
            x.name,
            " — ",
            x.confidence,
            " confidence]\n",
            body.as_str(),
        );
        out.append(section.as_str());
        i = i + 1;
    }
    out
}

fn pair_shown(p: &MatchDiff) -> (r: String)
    ensures
        r@ == pair_text(p@),
{
    cat8(
        "\n=== ",
        p.procedure.as_str(),
        " [",
        p.status,
        "] ===\n",
        optional_line("+ target module: ", &p.target_module).as_str(),
        optional_line("- base module:   ", &p.base_module).as_str(),
        sections_shown(&p.sections).as_str(),
    )
}

/// Shows the report.
pub fn render_diff_report(report: &DiffReport) -> (r: String)
    ensures
        r@ == diff_report_text(*report),
{
    let ghost p = views(report.pairs@);
    let mut body: String = owned("");
    let mut paired: u64 = 0;
    let mut i: usize = 0;
    while i < report.pairs.len()
        invariant
            p == views(report.pairs@),
            i <= report.pairs@.len(),
            paired <= i,
            paired == paired_count(p, i as int),
            body@ == pairs_text(p, i as int),
        decreases report.pairs.len() - i,
    {
        assert(p[i as int] == report.pairs@[i as int]@);
        if same(report.pairs[i].status, "paired") {
            paired = paired + 1;
        }
        body.append(pair_shown(&report.pairs[i]).as_str());
        i = i + 1;
    }
    let mut out: String = cat10(
        "target PDB: ",
        report.target_pdb.as_str(),
        "\nbase PDB:   ",
        report.base_pdb.as_str(),
        "\nmatched target=",
        decimal(report.target_matches as u64).as_str(),
        " base=",
        decimal(report.base_matches as u64).as_str(),
        " paired=",
        decimal(paired).as_str(),
    );
    out.append("\n");
    out.append(body.as_str());
    out
}

/// The lines of the records from `lo` up to `hi`, that at `at` marked.
pub open spec fn marked_records(r: Seq<RecordModel>, at: int, lo: int, hi: int) -> Seq<char>
    decreases hi - lo,
{
    if hi <= lo {
        ""@
    } else {
        marked_records(r, at, lo, hi - 1) + record_line(
            r[hi - 1],
            if hi - 1 == at {
                ">"@
            } else {
                " "@
            },
        )
    }
}

/// The lines of the records at the first `n` of some positions, that at `at` marked.
pub open spec fn marked_at(r: Seq<RecordModel>, at: int, p: Seq<int>, n: int) -> Seq<char>
    decreases n,
{
    if n <= 0 {
        ""@
    } else {
        marked_at(r, at, p, n - 1) + record_line(
            r[p[n - 1]],
            if p[n - 1] == at {
                ">"@
            } else {
                " "@
            },
        )
    }
}

/// The first `n` of some rows, each behind `margin` on a line.
pub open spec fn rows_text(margin: Seq<char>, rows: Seq<Seq<char>>, n: int) -> Seq<char>
    decreases n,
{
    if n <= 0 {
        ""@
    } else {
        rows_text(margin, rows, n - 1) + (margin + rows[n - 1] + "\n"@)
    }
}

/// Where the records that are shown with a procedure end: it is shown itself whatever
/// its index is.
pub open spec fn shown_end(m: MatchModel) -> int {
    owned_end(m.records, m.procedure_end, m.procedure_pos + 1)
}

/// What is shown of the records in no scope around a procedure.
pub open spec fn top_level_text(m: MatchModel, context: usize) -> Seq<char> {
    match top_level_around(m, context) {
        Some(p) => "\n[top-level record neighborhood — medium/heuristic]\n"@ + marked_at(
            m.records,
            m.procedure_pos as int,
            p,
            p.len() as int,
        ),
        None => ""@,
    }
}

/// What is shown of the classes that declare a procedure.
pub open spec fn declarations_shown_text(m: MatchModel) -> Seq<char> {
    if m.declaration_rows.len() == 0 {
        "  no class field-list entry references type 0x"@ + hex(m.procedure_type as nat) + "\n"@
    } else {
        rows_text(""@, m.declaration_rows, m.declaration_rows.len() as int)
    }
}

/// A match as text.
pub open spec fn match_text(m: MatchModel, context: usize) -> Seq<char> {
    let p = m.procedure_pos as int;
    ("\n=== module #"@ + dec(m.module_id as nat) + " ===\nmodule: "@ + m.module_name
        + "\nobject/library: "@ + m.object_file_name
        + "\n\n[explicit procedure evidence — high confidence]\n"@) + marked_records(
        m.records,
        p,
        p,
        shown_end(m),
    ) + "\n[line-program geometry — high confidence]\n"@ + rows_text(
        "  "@,
        m.lines,
        m.lines.len() as int,
    ) + "\n[TPI record neighborhood — heuristic only; linker-deduplicated]\n"@ + rows_text(
        ""@,
        m.type_rows,
        m.type_rows.len() as int,
    ) + ("\n[class field-list binding — high confidence; duplicate signatures may have several candidates]\n"@
        + declarations_shown_text(m) + "\n[physical record adjacency — heuristic only]\n"@
        + marked_records(
        m.records,
        p,
        window_start(p, context as int),
        window_end(p, context as int, m.records.len() as int),
    ) + top_level_text(m, context))
}

fn records_shown(r: &Vec<Record>, at: usize, lo: usize, hi: usize) -> (s: String)
    requires
        lo <= hi <= r@.len(),
    ensures
        s@ == marked_records(views(r@), at as int, lo as int, hi as int),
{
    let ghost m = views(r@);
    let mut out: String = owned("");
    let mut i: usize = lo;
    while i < hi
        invariant
            m == views(r@),
            lo <= i <= hi <= r@.len(),
            out@ == marked_records(m, at as int, lo as int, i as int),
        decreases hi - i,
    {
        assert(m[i as int] == r@[i as int]@);
        out.append(
            render_record(
                &r[i],
                if i == at {
                    ">"
                } else {
                    " "
                },
            ).as_str(),
        );
        i = i + 1;
    }
    out
}

fn rows_shown(margin: &str, rows: &Vec<String>) -> (s: String)
    ensures
        s@ == rows_text(margin@, texts(rows@), rows@.len() as int),
{
    let ghost t = texts(rows@);
    let mut out: String = owned("");
    let mut i: usize = 0;
    while i < rows.len()
        invariant
            t == texts(rows@),
            i <= rows@.len(),
            out@ == rows_text(margin@, t, i as int),
        decreases rows.len() - i,
    {
        assert(t[i as int] == rows@[i as int]@);
        out.append(cat3(margin, rows[i].as_str(), "\n").as_str());
        i = i + 1;
    }
    out
}

fn find_shown_end(found: &Match) -> (r: usize)
    requires
        found.procedure_pos < found.records@.len(),
    ensures
        r == shown_end(found@),
        found.procedure_pos < r <= found.records@.len(),
{
    let ghost m = views(found.records@);
    let n: usize = found.records.len();
    let start: usize = found.procedure_pos + 1;
    let mut i: usize = start;
    while i < n && found.records[i].index <= found.procedure_end
        invariant
            m == views(found.records@),
            n == found.records@.len(),
            start <= i <= n,
            owned_end(m, found.procedure_end, start as int) == owned_end(
                m,
                found.procedure_end,
                i as int,
            ),
        decreases n - i,
    {
        assert(m[i as int] == found.records@[i as int]@);
        i = i + 1;
    }
    assert(i < n ==> m[i as int] == found.records@[i as int]@);
    i
}

fn top_level_shown(found: &Match, context: usize) -> (r: String)
    requires
        found.procedure_pos < found.records@.len(),
    ensures
        r@ == top_level_text(found@, context),
{
    match top_level_positions(found, context) {
        Some(p) => {
            let ghost at = as_positions(p@);
            let ghost m = views(found.records@);
            let mut body: String = owned("");
            let mut i: usize = 0;
            while i < p.len()
                invariant
                    at == as_positions(p@),
                    m == views(found.records@),
                    i <= p@.len(),
                    forall|k: int| 0 <= k < p@.len() ==> (#[trigger] p@[k]) < found.records@.len(),
                    body@ == marked_at(m, found.procedure_pos as int, at, i as int),
                decreases p.len() - i,
            {
                assert(at[i as int] == p@[i as int]);
                assert(m[at[i as int]] == found.records@[p@[i as int] as int]@);
                body.append(
                    render_record(
                        &found.records[p[i]],
                        if p[i] == found.procedure_pos {
                            ">"
                        } else {
                            " "
                        },
                    ).as_str(),
                );
                i = i + 1;
            }
            cat2("\n[top-level record neighborhood — medium/heuristic]\n", body.as_str())
        },
        None => owned(""),
    }
}

fn declarations_shown(found: &Match) -> (r: String)
    ensures
        r@ == declarations_shown_text(found@),
{
    if found.declaration_rows.len() == 0 {
        cat3(
            "  no class field-list entry references type 0x",
            hexadecimal(found.procedure_type as u64).as_str(),
            "\n",
        )
    } else {
        rows_shown("", &found.declaration_rows)
    }
}

/// Shows a match.
pub fn render_match(found: &Match, context: usize) -> (r: String)
    requires
        found.procedure_pos < found.records@.len(),
    ensures
        r@ == match_text(found@, context),
{
    let p: usize = found.procedure_pos;
    let end: usize = find_shown_end(found);
    let (lo, hi): (usize, usize) = window(p, context, found.records.len());
    let heading: String = cat7(
        "\n=== module #",
        decimal(found.module_id as u64).as_str(),
        " ===\nmodule: ",
        found.module_name.as_str(),
        "\nobject/library: ",
        found.object_file_name.as_str(),
        "\n\n[explicit procedure evidence — high confidence]\n",
    );
    let rest: String = cat5(
        "\n[class field-list binding — high confidence; duplicate signatures may have several candidates]\n",
        declarations_shown(found).as_str(),
        "\n[physical record adjacency — heuristic only]\n",
        records_shown(&found.records, p, lo, hi).as_str(),
        top_level_shown(found, context).as_str(),
    );
    cat7(
        heading.as_str(),
        records_shown(&found.records, p, p, end).as_str(),
        "\n[line-program geometry — high confidence]\n",
        rows_shown("  ", &found.lines).as_str(),
        "\n[TPI record neighborhood — heuristic only; linker-deduplicated]\n",
        rows_shown("", &found.type_rows).as_str(),
        rest.as_str(),
    )
}

/// The first `n` matches as text.
pub open spec fn matches_text(m: Seq<MatchModel>, context: usize, n: int) -> Seq<char>
    decreases n,
{
    if n <= 0 {
        "matched "@ + dec(m.len()) + " procedure(s)\n"@
    } else {
        matches_text(m, context, n - 1) + match_text(m[n - 1], context)
    }
}

/// What a query found as text. `function` is what was asked for, in quotes.
pub open spec fn single_text(m: Seq<MatchModel>, function: Seq<char>, context: usize) -> Seq<char> {
    if m.len() == 0 {
        "no procedure matched "@ + function + "\n"@
    } else {
        matches_text(m, context, m.len() as int)
    }
}

/// Shows what a query found. `function` is what was asked for, in quotes.
pub fn render_single_quoted(matches: &Vec<Match>, function: &str, context: usize) -> (r: String)
    requires
        positions_valid(matches@),
    ensures
        r@ == single_text(views(matches@), function@, context),
{
    if matches.len() == 0 {
        return cat3("no procedure matched ", function, "\n");
    }
    let ghost m = views(matches@);
    let mut out: String = cat3(
        "matched ",
        decimal(matches.len() as u64).as_str(),
        " procedure(s)\n",
    );
    let mut i: usize = 0;
    while i < matches.len()
        invariant
            m == views(matches@),
            positions_valid(matches@),
            i <= matches@.len(),
            out@ == matches_text(m, context, i as int),
        decreases matches.len() - i,
    {
        assert(m[i as int] == matches@[i as int]@);
        out.append(render_match(&matches[i], context).as_str());
        i = i + 1;
    }
    out
}

/// Shows what a query for `function` found.
pub fn render_single(matches: &Vec<Match>, function: &str, context: usize) -> (r: String)
    requires
        positions_valid(matches@),
    ensures
        r@ == single_text(views(matches@), quoted(function@), context),
{
    let q: String = debug_text(function);
    render_single_quoted(matches, q.as_str(), context)
}

} // verus!
