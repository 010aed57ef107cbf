//! The difference between the statement skeletons of two functions.
//!
//! A function's body becomes a list of rows, one per statement, with a mark for
//! each gap in the source lines between them. Two such lists are aligned by
//! statement size. A run of rows of the base that is followed by a run of rows of
//! the target is paired, statement by statement, into changed rows.

use crate::lcs::{align, lemma_script, script, steps, views, Edit, Step, Token};
use crate::number::{dec, decimal, hex, hexadecimal, pad_back, pad_front, padded_back, padded_front,
    repeat, repeated};
use crate::pieces::{cat11, cat12, cat14, cat2, cat5, cat6, cat7, cat8, widest, widest_of};
use crate::rich_context::{FunctionEntry, Statement};
use crate::text::{byte_len, len_bytes, owned, texts};
use vstd::prelude::*;
use vstd::string::StringExecFns;

verus! {

/// One row of a function's skeleton. `Empty` is a gap in the source lines.
pub enum Row<'a> {
    Stmt { off: u32, size: u32, line: u32, source: Option<&'a str> },
    Empty,
}

/// What a row says.
pub enum RowModel {
    Stmt { off: u32, size: u32, line: u32, source: Option<Seq<char>> },
    Empty,
}

/// The view of an optional borrowed text.
pub open spec fn opt_str(s: Option<&str>) -> Option<Seq<char>> {
    match s {
        Some(t) => Some(t@),
        None => None,
    }
}

impl<'a> View for Row<'a> {
    type V = RowModel;

    open spec fn view(&self) -> RowModel {
        match *self {
            Row::Stmt { off, size, line, source } => RowModel::Stmt {
                off,
                size,
                line,
                source: opt_str(source),
            },
            Row::Empty => RowModel::Empty,
        }
    }
}

/// The row of one statement.
pub open spec fn row_of(s: Statement) -> RowModel {
    RowModel::Stmt {
        off: s.off,
        size: s.size,
        line: s.line,
        source: match s.source {
            Some(t) => Some(t@),
            None => None,
        },
    }
}

/// The source line on which statement `i` stands if there is no gap before it:
/// the line behind its predecessor, or that of the opening brace.
pub open spec fn expected_line(st: Seq<Statement>, i: int) -> int {
    if i <= 1 {
        st[0].line as int
    } else {
        st[i - 1].line + 1
    }
}

/// `rows`, and a gap where statement `i` stands beyond its expected line.
pub open spec fn with_gap(rows: Seq<RowModel>, st: Seq<Statement>, i: int) -> Seq<RowModel> {
    if st[i].line > expected_line(st, i) {
        rows.push(RowModel::Empty)
    } else {
        rows
    }
}

/// The rows of the statements before `n`, the opening brace left out.
pub open spec fn rows_before(st: Seq<Statement>, n: int) -> Seq<RowModel>
    decreases n,
{
    if n <= 1 {
        Seq::empty()
    } else {
        with_gap(rows_before(st, n - 1), st, n - 1).push(row_of(st[n - 1]))
    }
}

/// `rows` without the gaps at the beginning.
pub open spec fn drop_leading(rows: Seq<RowModel>) -> Seq<RowModel>
    decreases rows.len(),
{
    if rows.len() > 0 && rows[0] is Empty {
        drop_leading(rows.skip(1))
    } else {
        rows
    }
}

/// `rows` without the gaps at the end.
pub open spec fn drop_trailing(rows: Seq<RowModel>) -> Seq<RowModel>
    decreases rows.len(),
{
    if rows.len() > 0 && rows.last() is Empty {
        drop_trailing(rows.drop_last())
    } else {
        rows
    }
}

/// The rows of a function's body: those between the braces of its frame, with
/// the gaps between them, none at either end.
pub open spec fn body_rows(f: FunctionEntry) -> Seq<RowModel> {
    let st = f.statements@;
    if f.body_less() {
        Seq::empty()
    } else {
        drop_trailing(drop_leading(with_gap(rows_before(st, st.len() - 1), st, st.len() - 1)))
    }
}

/// The rows of a function's body never begin or end with a gap.
pub proof fn lemma_body_rows_ends(f: FunctionEntry)
    ensures
        body_rows(f).len() > 0 ==> body_rows(f)[0] is Stmt && body_rows(f).last() is Stmt,
{
    let st = f.statements@;
    if !f.body_less() {
        let all = with_gap(rows_before(st, st.len() - 1), st, st.len() - 1);
        lemma_drop_leading(all);
        lemma_drop_trailing(drop_leading(all));
    }
}

proof fn lemma_drop_leading(rows: Seq<RowModel>)
    ensures
        drop_leading(rows).len() > 0 ==> drop_leading(rows)[0] is Stmt,
    decreases rows.len(),
{
    if rows.len() > 0 && rows[0] is Empty {
        lemma_drop_leading(rows.skip(1));
    }
}

proof fn lemma_drop_trailing(rows: Seq<RowModel>)
    ensures
        drop_trailing(rows).len() > 0 ==> drop_trailing(rows)[0] == rows[0] && drop_trailing(
            rows,
        ).last() is Stmt,
    decreases rows.len(),
{
    if rows.len() > 0 && rows.last() is Empty {
        lemma_drop_trailing(rows.drop_last());
    }
}

fn row_from<'a>(s: &'a Statement) -> (r: Row<'a>)
    ensures
        r@ == row_of(*s),
{
    let source: Option<&'a str> = match &s.source {
        Some(t) => Some(t.as_str()),
        None => None,
    };
    Row::Stmt { off: s.off, size: s.size, line: s.line, source }
}

proof fn lemma_views_push<'a>(rows: Seq<Row<'a>>, r: Row<'a>)
    ensures
        views(rows.push(r)) == views(rows).push(r@),
{
    assert(views(rows.push(r)) =~= views(rows).push(r@));
}

/// The rows of a function's body.
pub fn structure_rows<'a>(f: &'a FunctionEntry) -> (r: Vec<Row<'a>>)
    ensures
        views(r@) == body_rows(*f),
{
    let mut rows: Vec<Row<'a>> = Vec::new();
    assert(views(rows@) =~= Seq::empty());
    if f.is_body_less() {
        return rows;
    }
    let len: usize = f.statements.len();
    let ghost st = f.statements@;
    let mut next_line: u64 = f.statements[0].line as u64;
    let mut i: usize = 1;
    while i < len - 1
        invariant
            len == f.statements@.len(),
            st == f.statements@,
            len > 2,
            1 <= i <= len - 1,
            next_line == expected_line(st, i as int),
            views(rows@) == rows_before(st, i as int),
        decreases len - i,
    {
        let s: &'a Statement = &f.statements[i];
        if s.line as u64 > next_line {
            proof {
                lemma_views_push(rows@, Row::Empty);
            }
            rows.push(Row::Empty);
        }
        next_line = s.line as u64 + 1;
        let row: Row<'a> = row_from(s);
        proof {
            lemma_views_push(rows@, row);
        }
        rows.push(row);
        i = i + 1;
    }
    if f.statements[len - 1].line as u64 > next_line {
        proof {
            lemma_views_push(rows@, Row::Empty);
        }
        rows.push(Row::Empty);
    }
    let ghost all = views(rows@);
    while rows.len() > 0 && matches!(rows[0], Row::Empty)
        invariant
            drop_leading(views(rows@)) == drop_leading(all),
        decreases rows@.len(),
    {
        let ghost was = rows@;
        rows.remove(0);
        assert(views(rows@) =~= views(was).skip(1));
        assert(views(was)[0] is Empty);
    }
    assert(views(rows@) == drop_leading(all));
    let ghost kept = views(rows@);
    while rows.len() > 0 && matches!(rows[rows.len() - 1], Row::Empty)
        invariant
            drop_trailing(views(rows@)) == drop_trailing(kept),
        decreases rows@.len(),
    {
        let ghost was = rows@;
        rows.pop();
        assert(views(rows@) =~= views(was).drop_last());
        assert(views(was).last() is Empty);
    }
    rows
}

// ---------------------------------------------------------------------------

/// One aligned row.
pub enum StructRow<'a> {
    /// A statement on both sides, of the same size.
    Equal { base: &'a Row<'a>, target: &'a Row<'a> },
    /// A statement on both sides, of different sizes.
    Changed { base: &'a Row<'a>, target: &'a Row<'a> },
    /// A statement of the target only.
    OnlyTarget { stmt: &'a Row<'a> },
    /// A statement of the base only.
    OnlyBase { stmt: &'a Row<'a> },
    /// A gap on both sides.
    EmptyEqual,
    /// A gap on the target only.
    EmptyOnlyTarget,
    /// A gap on the base only.
    EmptyOnlyBase,
}

/// What an aligned row says.
pub enum StructModel {
    Equal { base: RowModel, target: RowModel },
    Changed { base: RowModel, target: RowModel },
    OnlyTarget { stmt: RowModel },
    OnlyBase { stmt: RowModel },
    EmptyEqual,
    EmptyOnlyTarget,
    EmptyOnlyBase,
}

impl<'a> View for StructRow<'a> {
    type V = StructModel;

    open spec fn view(&self) -> StructModel {
        match *self {
            StructRow::Equal { base, target } => StructModel::Equal {
                base: base@,
                target: target@,
            },
            StructRow::Changed { base, target } => StructModel::Changed {
                base: base@,
                target: target@,
            },
            StructRow::OnlyTarget { stmt } => StructModel::OnlyTarget { stmt: stmt@ },
            StructRow::OnlyBase { stmt } => StructModel::OnlyBase { stmt: stmt@ },
            StructRow::EmptyEqual => StructModel::EmptyEqual,
            StructRow::EmptyOnlyTarget => StructModel::EmptyOnlyTarget,
            StructRow::EmptyOnlyBase => StructModel::EmptyOnlyBase,
        }
    }
}

/// By what a row is aligned: a statement by its size, a gap as a gap.
#[derive(Clone, Copy, PartialEq, Eq, Debug, Structural)]
pub enum RowKey {
    Empty,
    Stmt(u32),
}

impl View for RowKey {
    type V = RowKey;

    open spec fn view(&self) -> RowKey {
        *self
    }
}

impl Token for RowKey {
    fn is_same(&self, other: &Self) -> (r: bool) {
        *self == *other
    }
}

/// By what a row is aligned.
pub open spec fn key_of(r: RowModel) -> RowKey {
    match r {
        RowModel::Empty => RowKey::Empty,
        RowModel::Stmt { size, .. } => RowKey::Stmt(size),
    }
}

/// By what each row is aligned.
pub open spec fn keys(rows: Seq<RowModel>) -> Seq<RowKey> {
    rows.map_values(|r: RowModel| key_of(r))
}

/// A row that two sides have together.
pub open spec fn both_sides(b: RowModel, t: RowModel) -> StructModel {
    if b is Empty && t is Empty {
        StructModel::EmptyEqual
    } else {
        StructModel::Equal { base: b, target: t }
    }
}

/// A row of the base alone.
pub open spec fn base_alone(b: RowModel) -> StructModel {
    if b is Empty {
        StructModel::EmptyOnlyBase
    } else {
        StructModel::OnlyBase { stmt: b }
    }
}

/// A row of the target alone.
pub open spec fn target_alone(t: RowModel) -> StructModel {
    if t is Empty {
        StructModel::EmptyOnlyTarget
    } else {
        StructModel::OnlyTarget { stmt: t }
    }
}

/// The statements among the first `n` rows.
pub open spec fn stmts_upto(rows: Seq<RowModel>, n: int) -> Seq<RowModel>
    decreases n,
{
    if n <= 0 {
        Seq::empty()
    } else if rows[n - 1] is Stmt {
        stmts_upto(rows, n - 1).push(rows[n - 1])
    } else {
        stmts_upto(rows, n - 1)
    }
}

/// The statements among `rows`.
pub open spec fn stmts(rows: Seq<RowModel>) -> Seq<RowModel> {
    stmts_upto(rows, rows.len() as int)
}

/// What becomes of row `x` of a run of the base that the run `t` of the target
/// follows: the statements are paired with those of `t` as long as there are any.
pub open spec fn base_entry(b: Seq<RowModel>, t: Seq<RowModel>, x: int) -> StructModel {
    let c = stmts_upto(b, x).len() as int;
    if b[x] is Stmt && c < stmts(t).len() {
        StructModel::Changed { base: b[x], target: stmts(t)[c] }
    } else {
        base_alone(b[x])
    }
}

/// What is left of the first `n` rows of a run of the target once its
/// statements are paired with those of the run `b` of the base before it.
pub open spec fn target_entries(b: Seq<RowModel>, t: Seq<RowModel>, n: int) -> Seq<StructModel>
    decreases n,
{
    if n <= 0 {
        Seq::empty()
    } else if t[n - 1] is Stmt && stmts_upto(t, n - 1).len() < stmts(b).len() {
        target_entries(b, t, n - 1)
    } else {
        target_entries(b, t, n - 1).push(target_alone(t[n - 1]))
    }
}

/// The rows of a run of the base and the run of the target behind it.
pub open spec fn run_rows(b: Seq<RowModel>, t: Seq<RowModel>) -> Seq<StructModel> {
    Seq::new(b.len(), |x: int| base_entry(b, t, x)) + target_entries(b, t, t.len() as int)
}

/// Where the run of steps of the base that goes on at `k` ends.
pub open spec fn base_run_end(ops: Seq<Step>, k: int) -> int
    decreases ops.len() - k,
{
    if 0 <= k < ops.len() && ops[k] is Base {
        base_run_end(ops, k + 1)
    } else {
        k
    }
}

/// Where the run of steps of the target that goes on at `k` ends.
pub open spec fn target_run_end(ops: Seq<Step>, k: int) -> int
    decreases ops.len() - k,
{
    if 0 <= k < ops.len() && ops[k] is Target {
        target_run_end(ops, k + 1)
    } else {
        k
    }
}

/// The rows that the steps `lo..hi` of the base take up.
pub open spec fn base_run(b: Seq<RowModel>, ops: Seq<Step>, lo: int, hi: int) -> Seq<RowModel> {
    Seq::new((hi - lo) as nat, |x: int| b[ops[lo + x]->Base_0])
}

/// The rows that the steps `lo..hi` of the target take up.
pub open spec fn target_run(t: Seq<RowModel>, ops: Seq<Step>, lo: int, hi: int) -> Seq<RowModel> {
    Seq::new((hi - lo) as nat, |x: int| t[ops[lo + x]->Target_0])
}

/// The aligned rows of the steps from `k` on.
pub open spec fn merged(
    b: Seq<RowModel>,
    t: Seq<RowModel>,
    ops: Seq<Step>,
    k: int,
) -> Seq<StructModel>
    decreases ops.len() - k,
{
    if k < 0 || k >= ops.len() {
        Seq::empty()
    } else {
        match ops[k] {
            Step::Both(i, j) => seq![both_sides(b[i], t[j])] + merged(b, t, ops, k + 1),
            Step::Target(j) => seq![target_alone(t[j])] + merged(b, t, ops, k + 1),
            Step::Base(_) => {
                let e = base_run_end(ops, k);
                let g = target_run_end(ops, e);
                if k < e <= g <= ops.len() {
                    run_rows(base_run(b, ops, k, e), target_run(t, ops, e, g)) + merged(
                        b,
                        t,
                        ops,
                        g,
                    )
                } else {
                    Seq::empty()
                }
            },
        }
    }
}

/// The aligned rows of two bodies.
pub open spec fn structure_diff(b: Seq<RowModel>, t: Seq<RowModel>) -> Seq<StructModel> {
    merged(b, t, script(keys(b), keys(t), 0, 0), 0)
}

/// A run ends behind its beginning and holds steps of its side only.
pub proof fn lemma_run_ends(ops: Seq<Step>, k: int)
    requires
        0 <= k <= ops.len(),
    ensures
        k <= base_run_end(ops, k) <= ops.len(),
        forall|x: int| k <= x < base_run_end(ops, k) ==> (#[trigger] ops[x]) is Base,
        k <= target_run_end(ops, k) <= ops.len(),
        forall|x: int| k <= x < target_run_end(ops, k) ==> (#[trigger] ops[x]) is Target,
    decreases ops.len() - k,
{
    if k < ops.len() {
        lemma_run_ends(ops, k + 1);
    }
}

fn row_key(r: &Row) -> (k: RowKey)
    ensures
        k == key_of(r@),
{
    match r {
        Row::Empty => RowKey::Empty,
        Row::Stmt { size, .. } => RowKey::Stmt(*size),
    }
}

fn is_stmt(r: &Row) -> (b: bool)
    ensures
        b == (r@ is Stmt),
{
    matches!(r, Row::Stmt { .. })
}

fn row_keys(rows: &[Row]) -> (r: Vec<RowKey>)
    ensures
        views(r@) == keys(views(rows@)),
{
    let mut r: Vec<RowKey> = Vec::new();
    let mut i: usize = 0;
    while i < rows.len()
        invariant
            i <= rows@.len(),
            r@.len() == i,
            forall|k: int| 0 <= k < i ==> #[trigger] r@[k] == key_of(rows@[k]@),
        decreases rows.len() - i,
    {
        r.push(row_key(&rows[i]));
        i = i + 1;
    }
    assert(views(r@) =~= keys(views(rows@)));
    r
}

/// Which side a row stands on.
enum Side {
    Base,
    Target,
}

fn one_side<'a>(r: &'a Row<'a>, side: Side) -> (s: StructRow<'a>)
    ensures
        s@ == match side {
            Side::Base => base_alone(r@),
            Side::Target => target_alone(r@),
        },
{
    match (r, side) {
        (Row::Empty, Side::Base) => StructRow::EmptyOnlyBase,
        (Row::Empty, Side::Target) => StructRow::EmptyOnlyTarget,
        (Row::Stmt { .. }, Side::Base) => StructRow::OnlyBase { stmt: r },
        (Row::Stmt { .. }, Side::Target) => StructRow::OnlyTarget { stmt: r },
    }
}

/// The rows at the given positions.
spec fn rows_at<'a>(rows: Seq<Row<'a>>, at: Seq<usize>) -> Seq<RowModel> {
    Seq::new(at.len(), |x: int| rows[at[x] as int]@)
}

/// The positions, among `at`, of statements.
fn stmt_positions(rows: &[Row], at: &Vec<usize>) -> (r: Vec<usize>)
    requires
        forall|x: int| 0 <= x < at@.len() ==> (#[trigger] at@[x]) < rows@.len(),
    ensures
        forall|x: int| 0 <= x < r@.len() ==> (#[trigger] r@[x]) < rows@.len(),
        rows_at(rows@, r@) == stmts(rows_at(rows@, at@)),
{
    let mut r: Vec<usize> = Vec::new();
    let mut i: usize = 0;
    assert(rows_at(rows@, r@) =~= Seq::empty());
    while i < at.len()
        invariant
            i <= at@.len(),
            forall|x: int| 0 <= x < at@.len() ==> (#[trigger] at@[x]) < rows@.len(),
            forall|x: int| 0 <= x < r@.len() ==> (#[trigger] r@[x]) < rows@.len(),
            rows_at(rows@, r@) == stmts_upto(rows_at(rows@, at@), i as int),
        decreases at.len() - i,
    {
        let p: usize = at[i];
        if is_stmt(&rows[p]) {
            let ghost was = r@;
            r.push(p);
            assert(rows_at(rows@, r@) =~= rows_at(rows@, was).push(rows@[p as int]@));
        }
        i = i + 1;
    }
    r
}

/// Appends the rows of a run of the base and of the run of the target behind it.
fn push_run<'a>(
    out: &mut Vec<StructRow<'a>>,
    base_rows: &'a [Row<'a>],
    target_rows: &'a [Row<'a>],
    dels: &Vec<usize>,
    inss: &Vec<usize>,
)
    requires
        forall|x: int| 0 <= x < dels@.len() ==> (#[trigger] dels@[x]) < base_rows@.len(),
        forall|x: int| 0 <= x < inss@.len() ==> (#[trigger] inss@[x]) < target_rows@.len(),
    ensures
        views(final(out)@) == views(old(out)@) + run_rows(
            rows_at(base_rows@, dels@),
            rows_at(target_rows@, inss@),
        ),
{
    let ghost b = rows_at(base_rows@, dels@);
    let ghost t = rows_at(target_rows@, inss@);
    let ghost start = views(out@);
    let del_count: usize = stmt_positions(base_rows, dels).len();
    let ins_stmts: Vec<usize> = stmt_positions(target_rows, inss);
    assert(del_count == stmts(b).len());
    assert(ins_stmts@.len() == stmts(t).len());
    let mut x: usize = 0;
    let mut paired: usize = 0;
    assert(start + Seq::new(0, |x: int| base_entry(b, t, x)) =~= start);
    while x < dels.len()
        invariant
            forall|x: int| 0 <= x < dels@.len() ==> (#[trigger] dels@[x]) < base_rows@.len(),
            forall|x: int| 0 <= x < ins_stmts@.len() ==> (#[trigger] ins_stmts@[x])
                < target_rows@.len(),
            b == rows_at(base_rows@, dels@),
            rows_at(target_rows@, ins_stmts@) == stmts(t),
            ins_stmts@.len() == stmts(t).len(),
            x <= dels@.len(),
            paired == if stmts_upto(b, x as int).len() < stmts(t).len() {
                stmts_upto(b, x as int).len()
            } else {
                stmts(t).len()
            },
            views(out@) == start + Seq::new(x as nat, |x: int| base_entry(b, t, x)),
        decreases dels.len() - x,
    {
        let br: &'a Row<'a> = &base_rows[dels[x]];
        let ghost was = out@;
        assert(b[x as int] == br@);
        if is_stmt(br) && paired < ins_stmts.len() {
            let tr: &'a Row<'a> = &target_rows[ins_stmts[paired]];
            assert(stmts(t)[paired as int] == tr@);
            out.push(StructRow::Changed { base: br, target: tr });
            paired = paired + 1;
        } else {
            out.push(one_side(br, Side::Base));
        }
        assert(views(out@) =~= views(was).push(base_entry(b, t, x as int)));
        assert(views(out@) =~= start + Seq::new((x + 1) as nat, |x: int| base_entry(b, t, x)));
        x = x + 1;
    }
    let ghost half = views(out@);
    let mut y: usize = 0;
    let mut consumed: usize = 0;
    assert(half + target_entries(b, t, 0) =~= half);
    while y < inss.len()
        invariant
            forall|x: int| 0 <= x < inss@.len() ==> (#[trigger] inss@[x]) < target_rows@.len(),
            t == rows_at(target_rows@, inss@),
            y <= inss@.len(),
            del_count == stmts(b).len(),
            consumed == if stmts_upto(t, y as int).len() < stmts(b).len() {
                stmts_upto(t, y as int).len()
            } else {
                stmts(b).len()
            },
            views(out@) == half + target_entries(b, t, y as int),
        decreases inss.len() - y,
    {
        let tr: &'a Row<'a> = &target_rows[inss[y]];
        assert(t[y as int] == tr@);
        if is_stmt(tr) && consumed < del_count {
            consumed = consumed + 1;
        } else {
            let ghost was = out@;
            out.push(one_side(tr, Side::Target));
            assert(views(out@) =~= views(was).push(target_alone(t[y as int])));
            assert(views(out@) =~= half + target_entries(b, t, y as int).push(
                target_alone(t[y as int]),
            ));
        }
        y = y + 1;
    }
    assert(views(out@) =~= start + run_rows(b, t));
}

/// Aligns two bodies by statement size, and pairs what was taken out with what
/// was put in.
pub fn diff_structure<'a>(base_rows: &'a [Row<'a>], target_rows: &'a [Row<'a>]) -> (r: Vec<
    StructRow<'a>,
>)
    ensures
        views(r@) == structure_diff(views(base_rows@), views(target_rows@)),
{
    let ghost b = views(base_rows@);
    let ghost t = views(target_rows@);
    let bk: Vec<RowKey> = row_keys(base_rows);
    let tk: Vec<RowKey> = row_keys(target_rows);
    let edits: Vec<Edit> = align(&bk, &tk);
    let ghost ops = script(keys(b), keys(t), 0, 0);
    proof {
        lemma_script(keys(b), keys(t), 0, 0);
    }
    let mut out: Vec<StructRow<'a>> = Vec::new();
    let mut k: usize = 0;
    assert(views(out@) + merged(b, t, ops, 0) =~= merged(b, t, ops, 0));
    while k < edits.len()
        invariant
            b == views(base_rows@),
            t == views(target_rows@),
            ops == steps(edits@),
            forall|x: int|
                0 <= x < ops.len() ==> match #[trigger] ops[x] {
                    Step::Both(i, j) => 0 <= i < b.len() && 0 <= j < t.len(),
                    Step::Base(i) => 0 <= i < b.len(),
                    Step::Target(j) => 0 <= j < t.len(),
                },
            k <= edits@.len(),
            views(out@) + merged(b, t, ops, k as int) == merged(b, t, ops, 0),
        decreases edits.len() - k,
    {
        let ghost was = views(out@);
        let ghost rest = merged(b, t, ops, k as int);
        assert(ops[k as int] == edits@[k as int].step());
        match edits[k] {
            Edit::Equal { base: i, target: j } => {
                let br: &'a Row<'a> = &base_rows[i];
                let tr: &'a Row<'a> = &target_rows[j];
                let row: StructRow<'a> = match (br, tr) {
                    (Row::Empty, Row::Empty) => StructRow::EmptyEqual,
                    _ => StructRow::Equal { base: br, target: tr },
                };
                assert(row@ == both_sides(b[i as int], t[j as int]));
                let ghost v = row@;
                out.push(row);
                assert(views(out@) =~= was.push(v));
                k = k + 1;
                assert(views(out@) + merged(b, t, ops, k as int) =~= was + rest);
            },
            Edit::Insert { target: j } => {
                let row: StructRow<'a> = one_side(&target_rows[j], Side::Target);
                let ghost v = row@;
                assert(v == target_alone(t[j as int]));
                out.push(row);
                assert(views(out@) =~= was.push(v));
                k = k + 1;
                assert(views(out@) + merged(b, t, ops, k as int) =~= was + rest);
            },
            Edit::Delete { .. } => {
                let start: usize = k;
                let ghost e = base_run_end(ops, start as int);
                let ghost g = target_run_end(ops, e);
                let mut dels: Vec<usize> = Vec::new();
                let mut inss: Vec<usize> = Vec::new();
                proof {
                    lemma_run_ends(ops, start as int);
                    lemma_run_ends(ops, e);
                    assert(base_run_end(ops, start as int) == base_run_end(ops, start + 1));
                    lemma_run_ends(ops, start + 1);
                }
                while k < edits.len() && matches!(edits[k], Edit::Delete { .. })
                    invariant
                        ops == steps(edits@),
                        b == views(base_rows@),
                        start <= k <= e <= edits@.len(),
                        base_run_end(ops, k as int) == e,
                        forall|x: int| start <= x < e ==> (#[trigger] ops[x]) is Base,
                        forall|x: int|
                            0 <= x < ops.len() ==> match #[trigger] ops[x] {
                                Step::Both(i, j) => 0 <= i < b.len() && 0 <= j < t.len(),
                                Step::Base(i) => 0 <= i < b.len(),
                                Step::Target(j) => 0 <= j < t.len(),
                            },
                        dels@.len() == k - start,
                        forall|x: int|
                            0 <= x < dels@.len() ==> (#[trigger] dels@[x]) < base_rows@.len()
                                && dels@[x] == ops[start + x]->Base_0,
                    decreases edits.len() - k,
                {
                    assert(ops[k as int] == edits@[k as int].step());
                    proof {
                        lemma_run_ends(ops, k + 1);
                    }
                    if let Edit::Delete { base: i } = edits[k] {
                        dels.push(i);
                    }
                    k = k + 1;
                }
                assert(k < ops.len() ==> ops[k as int] == edits@[k as int].step());
                assert(k == e);
                while k < edits.len() && matches!(edits[k], Edit::Insert { .. })
                    invariant
                        ops == steps(edits@),
                        t == views(target_rows@),
                        e <= k <= g <= edits@.len(),
                        target_run_end(ops, k as int) == g,
                        forall|x: int| e <= x < g ==> (#[trigger] ops[x]) is Target,
                        forall|x: int|
                            0 <= x < ops.len() ==> match #[trigger] ops[x] {
                                Step::Both(i, j) => 0 <= i < b.len() && 0 <= j < t.len(),
                                Step::Base(i) => 0 <= i < b.len(),
                                Step::Target(j) => 0 <= j < t.len(),
                            },
                        inss@.len() == k - e,
                        forall|x: int|
                            0 <= x < inss@.len() ==> (#[trigger] inss@[x]) < target_rows@.len()
                                && inss@[x] == ops[e + x]->Target_0,
                    decreases edits.len() - k,
                {
                    assert(ops[k as int] == edits@[k as int].step());
                    proof {
                        lemma_run_ends(ops, k + 1);
                    }
                    if let Edit::Insert { target: j } = edits[k] {
                        inss.push(j);
                    }
                    k = k + 1;
                }
                assert(k < ops.len() ==> ops[k as int] == edits@[k as int].step());
                assert(k == g);
                push_run(&mut out, base_rows, target_rows, &dels, &inss);
                assert(rows_at(base_rows@, dels@) =~= base_run(b, ops, start as int, e));
                assert(rows_at(target_rows@, inss@) =~= target_run(t, ops, e, g));
                assert(views(out@) + merged(b, t, ops, k as int) =~= was + rest);
            },
        }
    }
    assert(merged(b, t, ops, ops.len() as int) =~= Seq::empty());
    assert(views(out@) + Seq::<StructModel>::empty() =~= views(out@));
    out
}

// ---------------------------------------------------------------------------
// Showing a structure difference
// ---------------------------------------------------------------------------

/// A row that names statements where it should: only gaps are without.
pub open spec fn well_shaped(d: StructModel) -> bool {
    match d {
        StructModel::Equal { base, target } => base is Stmt && target is Stmt,
        StructModel::Changed { base, target } => base is Stmt && target is Stmt,
        StructModel::OnlyTarget { stmt } => stmt is Stmt,
        StructModel::OnlyBase { stmt } => stmt is Stmt,
        _ => true,
    }
}

/// Whether a row shows statements rather than a gap.
pub open spec fn is_shown(d: StructModel) -> bool {
    d is Equal || d is Changed || d is OnlyTarget || d is OnlyBase
}

/// The first `n` aligned rows without the gaps.
pub open spec fn shown_upto(rows: Seq<StructModel>, n: int) -> Seq<StructModel>
    decreases n,
{
    if n <= 0 {
        Seq::empty()
    } else if is_shown(rows[n - 1]) {
        shown_upto(rows, n - 1).push(rows[n - 1])
    } else {
        shown_upto(rows, n - 1)
    }
}

/// The aligned rows without the gaps.
pub open spec fn shown(rows: Seq<StructModel>) -> Seq<StructModel> {
    shown_upto(rows, rows.len() as int)
}

/// The statement of the target in a row.
pub open spec fn target_row(d: StructModel) -> Option<RowModel> {
    match d {
        StructModel::Equal { target, .. } => Some(target),
        StructModel::Changed { target, .. } => Some(target),
        StructModel::OnlyTarget { stmt } => Some(stmt),
        _ => None,
    }
}

/// The statement of the base in a row.
pub open spec fn base_row(d: StructModel) -> Option<RowModel> {
    match d {
        StructModel::Equal { base, .. } => Some(base),
        StructModel::Changed { base, .. } => Some(base),
        StructModel::OnlyBase { stmt } => Some(stmt),
        _ => None,
    }
}

/// The address of a side's statement.
pub open spec fn address_in(f: FunctionEntry, r: Option<RowModel>) -> Option<u32> {
    match r {
        Some(s) => Some(f.address(s->off)),
        None => None,
    }
}

/// The size of a side's statement.
pub open spec fn size_in(r: Option<RowModel>) -> Option<u32> {
    match r {
        Some(s) => Some(s->size),
        None => None,
    }
}

/// The statement that a row is anchored on: that of the base, where there is one.
pub open spec fn anchor(d: StructModel) -> RowModel {
    match base_row(d) {
        Some(r) => r,
        None => target_row(d)->0,
    }
}

/// The source text of a statement, or its line where it has none.
pub open spec fn code_of(r: RowModel) -> Seq<char> {
    match r->source {
        Some(s) => s,
        None => "L"@ + dec(r->line as nat),
    }
}

/// A number in hexadecimal with its sign.
pub open spec fn signed_hex(d: int) -> Seq<char> {
    if d >= 0 {
        "+0x"@ + hex(d as nat)
    } else {
        "-0x"@ + hex((-d) as nat)
    }
}

/// By how much the statement of the base is larger than that of the target.
pub open spec fn size_delta(d: StructModel) -> Seq<char> {
    signed_hex(base_row(d)->0->size - target_row(d)->0->size)
}

/// The mark of a row: nothing where the two sides agree.
pub open spec fn tag(d: StructModel) -> Seq<char> {
    match d {
        StructModel::Changed { .. } => "SIZE "@ + size_delta(d),
        StructModel::OnlyTarget { .. } => "T_ONLY"@,
        StructModel::OnlyBase { .. } => "B_ONLY"@,
        _ => ""@,
    }
}

/// The line of the summary for row `n`.
pub open spec fn summary_line(n: int, d: StructModel) -> Seq<char> {
    match d {
        StructModel::Changed { .. } => ";   #"@ + dec(n as nat) + " b.L"@ + dec(
            anchor(d)->line as nat,
        ) + " SIZE "@ + size_delta(d) + " (t 0x"@ + hex(target_row(d)->0->size as nat) + "/b 0x"@
            + hex(base_row(d)->0->size as nat) + ")\n"@,
        StructModel::OnlyTarget { .. } => ";   #"@ + dec(n as nat) + " t.L"@ + dec(
            anchor(d)->line as nat,
        ) + " T_ONLY\n"@,
        StructModel::OnlyBase { .. } => ";   #"@ + dec(n as nat) + " b.L"@ + dec(
            anchor(d)->line as nat,
        ) + " B_ONLY\n"@,
        _ => ""@,
    }
}

/// The summary of the first `n` shown rows.
pub open spec fn summary_upto(ds: Seq<StructModel>, n: int) -> Seq<char>
    decreases n,
{
    if n <= 0 {
        ""@
    } else {
        summary_upto(ds, n - 1) + summary_line(n, ds[n - 1])
    }
}

/// How many of the first `n` rows differ in size.
pub open spec fn size_diffs(ds: Seq<StructModel>, n: int) -> nat
    decreases n,
{
    if n <= 0 {
        0
    } else {
        size_diffs(ds, n - 1) + if ds[n - 1] is Changed {
            1nat
        } else {
            0nat
        }
    }
}

/// How many of the first `n` rows one side alone has.
pub open spec fn quantity_diffs(ds: Seq<StructModel>, n: int) -> nat
    decreases n,
{
    if n <= 0 {
        0
    } else {
        quantity_diffs(ds, n - 1) + if ds[n - 1] is OnlyTarget || ds[n - 1] is OnlyBase {
            1nat
        } else {
            0nat
        }
    }
}

/// What is said first: that the structures match, or how they differ.
pub open spec fn diff_heading(ds: Seq<StructModel>) -> Seq<char> {
    let n = ds.len() as int;
    if size_diffs(ds, n) == 0 && quantity_diffs(ds, n) == 0 {
        "; STRUCTURE MATCH\n"@
    } else {
        "; DIFF: size-diffs "@ + dec(size_diffs(ds, n)) + ", quantity-diffs "@ + dec(
            quantity_diffs(ds, n),
        ) + "\n"@ + summary_upto(ds, n)
    }
}

/// A size as a cell.
pub open spec fn size_cell(size: Option<u32>) -> Seq<char> {
    match size {
        Some(v) => "0x"@ + hex(v as nat),
        None => "--"@,
    }
}

/// An address as a cell, with at least `digits` digits.
pub open spec fn address_cell(a: Option<u32>, digits: int) -> Seq<char> {
    match a {
        Some(v) => "0x"@ + pad_front(hex(v as nat), '0', digits),
        None => "--"@,
    }
}

/// The digits of an address, as a list of none or one.
pub open spec fn address_digits(a: Option<u32>) -> Seq<Seq<char>> {
    match a {
        Some(v) => seq![hex(v as nat)],
        None => Seq::empty(),
    }
}

/// The digits of all addresses in the first `n` rows.
pub open spec fn all_digits(
    base: FunctionEntry,
    target: FunctionEntry,
    ds: Seq<StructModel>,
    n: int,
) -> Seq<Seq<char>>
    decreases n,
{
    if n <= 0 {
        Seq::empty()
    } else {
        all_digits(base, target, ds, n - 1) + address_digits(
            address_in(target, target_row(ds[n - 1])),
        ) + address_digits(address_in(base, base_row(ds[n - 1])))
    }
}

/// How many digits the addresses are shown with.
pub open spec fn digit_count(
    base: FunctionEntry,
    target: FunctionEntry,
    ds: Seq<StructModel>,
) -> int {
    widest(all_digits(base, target, ds, ds.len() as int), 1)
}

/// The columns of the table.
pub struct TableModel {
    pub tags: Seq<Seq<char>>,
    pub target_addresses: Seq<Seq<char>>,
    pub base_addresses: Seq<Seq<char>>,
    pub target_sizes: Seq<Seq<char>>,
    pub base_sizes: Seq<Seq<char>>,
    pub lines: Seq<Seq<char>>,
}

/// The columns of the table of some rows.
pub open spec fn table_of(
    base: FunctionEntry,
    target: FunctionEntry,
    ds: Seq<StructModel>,
    digits: int,
) -> TableModel {
    TableModel {
        tags: Seq::new(ds.len(), |i: int| tag(ds[i])),
        target_addresses: Seq::new(
            ds.len(),
            |i: int| address_cell(address_in(target, target_row(ds[i])), digits),
        ),
        base_addresses: Seq::new(
            ds.len(),
            |i: int| address_cell(address_in(base, base_row(ds[i])), digits),
        ),
        target_sizes: Seq::new(ds.len(), |i: int| size_cell(size_in(target_row(ds[i])))),
        base_sizes: Seq::new(ds.len(), |i: int| size_cell(size_in(base_row(ds[i])))),
        lines: Seq::new(ds.len(), |i: int| dec(anchor(ds[i])->line as nat)),
    }
}

impl TableModel {
    /// The title of the table and the rule below it.
    pub open spec fn title(self) -> Seq<char> {
        let (wd, wta, wba) = (self.wd(), self.wta(), self.wba());
        let (wt, wb, wl) = (self.wt(), self.wb(), self.wl());
        (pad_back("b.diff"@, ' ', wd) + "|"@ + pad_back("t.addr"@, ' ', wta) + "|"@ + pad_back(
            "b.addr"@,
            ' ',
            wba,
        ) + "|"@ + pad_back("t.sz"@, ' ', wt) + "|"@ + pad_back("b.sz"@, ' ', wb) + "|"@
            + pad_back("b.line"@, ' ', wl) + "|b.code\n"@) + (repeated('-', wd) + "+"@ + repeated(
            '-',
            wta,
        ) + "+"@ + repeated('-', wba) + "+"@ + repeated('-', wt) + "+"@ + repeated('-', wb) + "+"@
            + repeated('-', wl) + "+------\n"@)
    }

    pub open spec fn wd(self) -> int {
        widest(self.tags, byte_len("b.diff"@) as int)
    }

    pub open spec fn wta(self) -> int {
        widest(self.target_addresses, byte_len("t.addr"@) as int)
    }

    pub open spec fn wba(self) -> int {
        widest(self.base_addresses, byte_len("b.addr"@) as int)
    }

    pub open spec fn wt(self) -> int {
        widest(self.target_sizes, byte_len("t.sz"@) as int)
    }

    pub open spec fn wb(self) -> int {
        widest(self.base_sizes, byte_len("b.sz"@) as int)
    }

    pub open spec fn wl(self) -> int {
        widest(self.lines, byte_len("b.line"@) as int)
    }

    /// Line `i` of the table. Line and code are the base's; where the base has
    /// no statement they are left open.
    pub open spec fn line(self, ds: Seq<StructModel>, i: int) -> Seq<char> {
        let (bline, bcode) = if base_row(ds[i]) is Some {
            (self.lines[i], code_of(anchor(ds[i])))
        } else {
            ("--"@, "--"@)
        };
        pad_back(self.tags[i], ' ', self.wd()) + "|"@ + pad_back(
            self.target_addresses[i],
            ' ',
            self.wta(),
        ) + "|"@ + pad_back(self.base_addresses[i], ' ', self.wba()) + "|"@ + pad_back(
            self.target_sizes[i],
            ' ',
            self.wt(),
        ) + "|"@ + pad_back(self.base_sizes[i], ' ', self.wb()) + "|"@ + pad_back(
            bline,
            ' ',
            self.wl(),
        ) + "|"@ + bcode + "\n"@
    }

    /// The first `n` lines of the table; with `condensed`, those on which the two
    /// sides agree are told by one line for each run of them.
    pub open spec fn body(self, ds: Seq<StructModel>, condensed: bool, n: int) -> Seq<char>
        decreases n,
    {
        if n <= 0 {
            ""@
        } else if condensed && ds[n - 1] is Equal {
            if n >= 2 && ds[n - 2] is Equal {
                self.body(ds, condensed, n - 1)
            } else {
                self.body(ds, condensed, n - 1) + ".. same ..\n"@
            }
        } else {
            self.body(ds, condensed, n - 1) + self.line(ds, n - 1)
        }
    }
}

/// The line on one side's size.
pub open spec fn stats_line(label: Seq<char>, f: FunctionEntry) -> Seq<char> {
    label + hex(f.address(0) as nat) + "  "@ + dec(stmts(body_rows(f)).len()) + " stmts  0x"@ + hex(
        f.size as nat,
    ) + " bytes\n"@
}

/// The whole structure difference of two functions as text.
pub open spec fn structure_diff_text(
    base: FunctionEntry,
    target: FunctionEntry,
    condensed: bool,
) -> Seq<char> {
    let ds = shown(structure_diff(body_rows(base), body_rows(target)));
    let table = table_of(base, target, ds, digit_count(base, target, ds));
    let n = ds.len() as int;
    let title = if !condensed || size_diffs(ds, n) + quantity_diffs(ds, n) > 0 {
        table.title()
    } else {
        ""@
    };
    diff_heading(ds) + stats_line("; target 0x"@, target) + stats_line("; base   0x"@, base)
        + base.name@ + "\n{\n"@ + title + table.body(ds, condensed, n) + "}\n"@
}

proof fn lemma_target_entries_shape(b: Seq<RowModel>, t: Seq<RowModel>, n: int)
    ensures
        forall|i: int|
            0 <= i < target_entries(b, t, n).len() ==> well_shaped(
                #[trigger] target_entries(b, t, n)[i],
            ),
    decreases n,
{
    if n > 0 {
        lemma_target_entries_shape(b, t, n - 1);
        let before = target_entries(b, t, n - 1);
        let now = target_entries(b, t, n);
        assert forall|i: int| 0 <= i < now.len() implies well_shaped(#[trigger] now[i]) by {
            if i < before.len() {
                assert(now[i] == before[i]);
            }
        }
    }
}

proof fn lemma_stmts_are_stmts(rows: Seq<RowModel>, n: int)
    ensures
        forall|i: int|
            0 <= i < stmts_upto(rows, n).len() ==> (#[trigger] stmts_upto(rows, n)[i]) is Stmt,
    decreases n,
{
    if n > 0 {
        lemma_stmts_are_stmts(rows, n - 1);
    }
}

proof fn lemma_merged_shape(b: Seq<RowModel>, t: Seq<RowModel>, ops: Seq<Step>, k: int)
    requires
        forall|x: int|
            0 <= x < ops.len() ==> match #[trigger] ops[x] {
                Step::Both(i, j) => key_of(b[i]) == key_of(t[j]),
                _ => true,
            },
    ensures
        forall|i: int|
            0 <= i < merged(b, t, ops, k).len() ==> well_shaped(#[trigger] merged(b, t, ops, k)[i]),
    decreases ops.len() - k,
{
    if 0 <= k < ops.len() {
        let out = merged(b, t, ops, k);
        if ops[k] is Base {
            let e = base_run_end(ops, k);
            let g = target_run_end(ops, e);
            if k < e <= g <= ops.len() {
                let x = base_run(b, ops, k, e);
                let y = target_run(t, ops, e, g);
                lemma_merged_shape(b, t, ops, g);
                lemma_target_entries_shape(x, y, y.len() as int);
                lemma_stmts_are_stmts(y, y.len() as int);
                let r = run_rows(x, y);
                let rest = merged(b, t, ops, g);
                assert forall|i: int| 0 <= i < out.len() implies well_shaped(#[trigger] out[i]) by {
                    if i < x.len() {
                        assert(out[i] == base_entry(x, y, i));
                    } else if i < r.len() {
                        assert(out[i] == target_entries(x, y, y.len() as int)[i - x.len()]);
                    } else {
                        assert(out[i] == rest[i - r.len()]);
                    }
                }
            }
        } else {
            lemma_merged_shape(b, t, ops, k + 1);
            let rest = merged(b, t, ops, k + 1);
            assert forall|i: int| 0 <= i < out.len() implies well_shaped(#[trigger] out[i]) by {
                if i > 0 {
                    assert(out[i] == rest[i - 1]);
                }
            }
        }
    }
}

/// Every aligned row of two bodies names statements where it should.
pub proof fn lemma_structure_diff_shape(b: Seq<RowModel>, t: Seq<RowModel>)
    ensures
        forall|i: int|
            0 <= i < structure_diff(b, t).len() ==> well_shaped(#[trigger] structure_diff(b, t)[i]),
{
    let ops = script(keys(b), keys(t), 0, 0);
    lemma_script(keys(b), keys(t), 0, 0);
    assert forall|x: int| 0 <= x < ops.len() implies match #[trigger] ops[x] {
        Step::Both(i, j) => key_of(b[i]) == key_of(t[j]),
        _ => true,
    } by {
        if let Step::Both(i, j) = ops[x] {
            assert(keys(b)[i] == keys(t)[j]);
        }
    }
    lemma_merged_shape(b, t, ops, 0);
}

/// One shown row, its texts made.
struct Shown {
    changed: bool,
    one_sided: bool,
    taddr: Option<u32>,
    baddr: Option<u32>,
    tsize: Option<u32>,
    bsize: Option<u32>,
    line: u32,
    code: String,
    tag: String,
    summary: String,
}

impl Shown {
    spec fn shows(
        self,
        base: FunctionEntry,
        target: FunctionEntry,
        n: int,
        d: StructModel,
    ) -> bool {
        &&& self.changed == (d is Changed)
        &&& self.one_sided == (d is OnlyTarget || d is OnlyBase)
        &&& is_shown(d)
        &&& self.taddr == address_in(target, target_row(d))
        &&& self.baddr == address_in(base, base_row(d))
        &&& self.tsize == size_in(target_row(d))
        &&& self.bsize == size_in(base_row(d))
        &&& self.line == anchor(d)->line
        &&& self.code@ == code_of(anchor(d))
        &&& self.tag@ == tag(d)
        &&& self.summary@ == summary_line(n, d)
    }
}

fn signed_hex_text(d: i64) -> (r: String)
    requires
        -0x1_0000_0000 < d < 0x1_0000_0000,
    ensures
        r@ == signed_hex(d as int),
{
    if d >= 0 {
        cat2("+0x", hexadecimal(d as u64).as_str())
    } else {
        cat2("-0x", hexadecimal((-d) as u64).as_str())
    }
}

fn code_text(source: Option<&str>, line: u32) -> (r: String)
    ensures
        r@ == match source {
            Some(s) => s@,
            None => "L"@ + dec(line as nat),
        },
{
    match source {
        Some(s) => owned(s),
        None => cat2("L", decimal(line as u64).as_str()),
    }
}

fn show_row(base: &FunctionEntry, target: &FunctionEntry, n: u64, row: &StructRow) -> (r: Option<
    Shown,
>)
    requires
        well_shaped(row@),
    ensures
        match r {
            Some(s) => s.shows(*base, *target, n as int, row@),
            None => !is_shown(row@),
        },
{
    let num: String = decimal(n);
    match row {
        StructRow::Equal { base: b, target: t } => match (b, t) {
            (
                Row::Stmt { off: boff, size: bs, line, source },
                Row::Stmt { off: toff, size: ts, .. },
            ) => Some(
                Shown {
                    changed: false,
                    one_sided: false,
                    taddr: Some(target.va(*toff)),
                    baddr: Some(base.va(*boff)),
                    tsize: Some(*ts),
                    bsize: Some(*bs),
                    line: *line,
                    code: code_text(*source, *line),
                    tag: owned(""),
                    summary: owned(""),
                },
            ),
            _ => None,
        },
        StructRow::Changed { base: b, target: t } => match (b, t) {
            (
                Row::Stmt { off: boff, size: bs, line, source },
                Row::Stmt { off: toff, size: ts, .. },
            ) => {
                let delta: String = signed_hex_text(*bs as i64 - *ts as i64);
                Some(
                    Shown {
                        changed: true,
                        one_sided: false,
                        taddr: Some(target.va(*toff)),
                        baddr: Some(base.va(*boff)),
                        tsize: Some(*ts),
                        bsize: Some(*bs),
                        line: *line,
                        code: code_text(*source, *line),
                        tag: cat2("SIZE ", delta.as_str()),
                        summary: cat11(
                            ";   #",
                            num.as_str(),
                            " b.L",
                            decimal(*line as u64).as_str(),
                            " SIZE ",
                            delta.as_str(),
                            " (t 0x",
                            hexadecimal(*ts as u64).as_str(),
                            "/b 0x",
                            hexadecimal(*bs as u64).as_str(),
                            ")\n",
                        ),
                    },
                )
            },
            _ => None,
        },
        StructRow::OnlyTarget { stmt } => match stmt {
            Row::Stmt { off, size, line, source } => Some(
                Shown {
                    changed: false,
                    one_sided: true,
                    taddr: Some(target.va(*off)),
                    baddr: None,
                    tsize: Some(*size),
                    bsize: None,
                    line: *line,
                    code: code_text(*source, *line),
                    tag: owned("T_ONLY"),
                    summary: cat5(
                        ";   #",
                        num.as_str(),
                        " t.L",
                        decimal(*line as u64).as_str(),
                        " T_ONLY\n",
                    ),
                },
            ),
            _ => None,
        },
        StructRow::OnlyBase { stmt } => match stmt {
            Row::Stmt { off, size, line, source } => Some(
                Shown {
                    changed: false,
                    one_sided: true,
                    taddr: None,
                    baddr: Some(base.va(*off)),
                    tsize: None,
                    bsize: Some(*size),
                    line: *line,
                    code: code_text(*source, *line),
                    tag: owned("B_ONLY"),
                    summary: cat5(
                        ";   #",
                        num.as_str(),
                        " b.L",
                        decimal(*line as u64).as_str(),
                        " B_ONLY\n",
                    ),
                },
            ),
            _ => None,
        },
        _ => None,
    }
}

spec fn all_shown(
    v: Seq<Shown>,
    base: FunctionEntry,
    target: FunctionEntry,
    ds: Seq<StructModel>,
) -> bool {
    &&& v.len() == ds.len()
    &&& forall|i: int| 0 <= i < v.len() ==> (#[trigger] v[i]).shows(base, target, i + 1, ds[i])
}

fn show_rows(base: &FunctionEntry, target: &FunctionEntry, rows: &Vec<StructRow>) -> (v: Vec<Shown>)
    requires
        forall|i: int| 0 <= i < rows@.len() ==> well_shaped((#[trigger] rows@[i])@),
    ensures
        all_shown(v@, *base, *target, shown(views(rows@))),
{
    let mut v: Vec<Shown> = Vec::new();
    let mut i: usize = 0;
    while i < rows.len()
        invariant
            i <= rows@.len(),
            v@.len() <= i,
            forall|i: int| 0 <= i < rows@.len() ==> well_shaped((#[trigger] rows@[i])@),
            all_shown(v@, *base, *target, shown_upto(views(rows@), i as int)),
        decreases rows.len() - i,
    {
        let n: u64 = v.len() as u64 + 1;
        let row: Option<Shown> = show_row(base, target, n, &rows[i]);
        assert(views(rows@)[i as int] == rows@[i as int]@);
        match row {
            Some(s) => {
                v.push(s);
            },
            None => {},
        }
        i = i + 1;
    }
    v
}

fn diff_heading_text(
    v: &Vec<Shown>,
    Ghost(base): Ghost<FunctionEntry>,
    Ghost(target): Ghost<FunctionEntry>,
    Ghost(ds): Ghost<Seq<StructModel>>,
) -> (r: (String, bool))
    requires
        all_shown(v@, base, target, ds),
    ensures
        r.0@ == diff_heading(ds),
        r.1 == (size_diffs(ds, ds.len() as int) + quantity_diffs(ds, ds.len() as int) > 0),
{
    let mut sizes: u64 = 0;
    let mut quantities: u64 = 0;
    let mut summary: String = owned("");
    let mut i: usize = 0;
    while i < v.len()
        invariant
            all_shown(v@, base, target, ds),
            i <= v@.len(),
            sizes <= i,
            quantities <= i,
            sizes == size_diffs(ds, i as int),
            quantities == quantity_diffs(ds, i as int),
            summary@ == summary_upto(ds, i as int),
        decreases v.len() - i,
    {
        let s: &Shown = &v[i];
        assert(v@[i as int].shows(base, target, i + 1, ds[i as int]));
        summary.append(s.summary.as_str());
        if s.changed {
            sizes = sizes + 1;
        }
        if s.one_sided {
            quantities = quantities + 1;
        }
        i = i + 1;
    }
    if sizes == 0 && quantities == 0 {
        (owned("; STRUCTURE MATCH\n"), false)
    } else {
        (
            cat6(
                "; DIFF: size-diffs ",
                decimal(sizes).as_str(),
                ", quantity-diffs ",
                decimal(quantities).as_str(),
                "\n",
                summary.as_str(),
            ),
            true,
        )
    }
}

fn address_text(a: Option<u32>, digits: usize) -> (r: String)
    ensures
        r@ == address_cell(a, digits as int),
{
    match a {
        Some(v) => cat2("0x", padded_front(hexadecimal(v as u64).as_str(), '0', digits).as_str()),
        None => owned("--"),
    }
}

fn size_text(a: Option<u32>) -> (r: String)
    ensures
        r@ == size_cell(a),
{
    match a {
        Some(v) => cat2("0x", hexadecimal(v as u64).as_str()),
        None => owned("--"),
    }
}

fn push_digits(out: &mut Vec<String>, a: Option<u32>)
    ensures
        texts(final(out)@) == texts(old(out)@) + address_digits(a),
{
    let ghost was = out@;
    match a {
        Some(v) => {
            out.push(hexadecimal(v as u64));
        },
        None => {},
    }
    assert(texts(out@) =~= texts(was) + address_digits(a));
}

fn count_digits(
    v: &Vec<Shown>,
    Ghost(base): Ghost<FunctionEntry>,
    Ghost(target): Ghost<FunctionEntry>,
    Ghost(ds): Ghost<Seq<StructModel>>,
) -> (n: usize)
    requires
        all_shown(v@, base, target, ds),
    ensures
        n == digit_count(base, target, ds),
{
    let mut all: Vec<String> = Vec::new();
    let mut i: usize = 0;
    assert(texts(all@) =~= Seq::empty());
    while i < v.len()
        invariant
            all_shown(v@, base, target, ds),
            i <= v@.len(),
            texts(all@) == all_digits(base, target, ds, i as int),
        decreases v.len() - i,
    {
        assert(v@[i as int].shows(base, target, i + 1, ds[i as int]));
        push_digits(&mut all, v[i].taddr);
        push_digits(&mut all, v[i].baddr);
        i = i + 1;
    }
    widest_of(&all, 1)
}

/// The columns of the table and their widths.
struct Table {
    tags: Vec<String>,
    target_addresses: Vec<String>,
    base_addresses: Vec<String>,
    target_sizes: Vec<String>,
    base_sizes: Vec<String>,
    lines: Vec<String>,
}

impl Table {
    spec fn model(self) -> TableModel {
        TableModel {
            tags: texts(self.tags@),
            target_addresses: texts(self.target_addresses@),
            base_addresses: texts(self.base_addresses@),
            target_sizes: texts(self.target_sizes@),
            base_sizes: texts(self.base_sizes@),
            lines: texts(self.lines@),
        }
    }
}

fn make_table(
    v: &Vec<Shown>,
    digits: usize,
    Ghost(base): Ghost<FunctionEntry>,
    Ghost(target): Ghost<FunctionEntry>,
    Ghost(ds): Ghost<Seq<StructModel>>,
) -> (t: Table)
    requires
        all_shown(v@, base, target, ds),
    ensures
        t.model() == table_of(base, target, ds, digits as int),
{
    let mut tags: Vec<String> = Vec::new();
    let mut target_addresses: Vec<String> = Vec::new();
    let mut base_addresses: Vec<String> = Vec::new();
    let mut target_sizes: Vec<String> = Vec::new();
    let mut base_sizes: Vec<String> = Vec::new();
    let mut lines: Vec<String> = Vec::new();
    let ghost m = table_of(base, target, ds, digits as int);
    let mut i: usize = 0;
    while i < v.len()
        invariant
            all_shown(v@, base, target, ds),
            m == table_of(base, target, ds, digits as int),
            i <= v@.len(),
            tags@.len() == i,
            target_addresses@.len() == i,
            base_addresses@.len() == i,
            target_sizes@.len() == i,
            base_sizes@.len() == i,
            lines@.len() == i,
            forall|k: int| 0 <= k < i ==> (#[trigger] tags@[k])@ == m.tags[k],
            forall|k: int|
                0 <= k < i ==> (#[trigger] target_addresses@[k])@ == m.target_addresses[k],
            forall|k: int| 0 <= k < i ==> (#[trigger] base_addresses@[k])@ == m.base_addresses[k],
            forall|k: int| 0 <= k < i ==> (#[trigger] target_sizes@[k])@ == m.target_sizes[k],
            forall|k: int| 0 <= k < i ==> (#[trigger] base_sizes@[k])@ == m.base_sizes[k],
            forall|k: int| 0 <= k < i ==> (#[trigger] lines@[k])@ == m.lines[k],
        decreases v.len() - i,
    {
        let s: &Shown = &v[i];
        assert(v@[i as int].shows(base, target, i + 1, ds[i as int]));
        tags.push(s.tag.clone());
        target_addresses.push(address_text(s.taddr, digits));
        base_addresses.push(address_text(s.baddr, digits));
        target_sizes.push(size_text(s.tsize));
        base_sizes.push(size_text(s.bsize));
        lines.push(decimal(s.line as u64));
        i = i + 1;
    }
    assert(texts(tags@) =~= m.tags);
    assert(texts(target_addresses@) =~= m.target_addresses);
    assert(texts(base_addresses@) =~= m.base_addresses);
    assert(texts(target_sizes@) =~= m.target_sizes);
    assert(texts(base_sizes@) =~= m.base_sizes);
    assert(texts(lines@) =~= m.lines);
    Table { tags, target_addresses, base_addresses, target_sizes, base_sizes, lines }
}

fn table_text(
    v: &Vec<Shown>,
    t: &Table,
    titled: bool,
    condensed: bool,
    Ghost(base): Ghost<FunctionEntry>,
    Ghost(target): Ghost<FunctionEntry>,
    Ghost(ds): Ghost<Seq<StructModel>>,
    Ghost(digits): Ghost<int>,
) -> (r: (String, String))
    requires
        all_shown(v@, base, target, ds),
        t.model() == table_of(base, target, ds, digits),
    ensures
        r.0@ == if titled {
            t.model().title()
        } else {
            ""@
        },
        r.1@ == t.model().body(ds, condensed, ds.len() as int),
{
    let wd: usize = widest_of(&t.tags, len_bytes("b.diff"));
    let wta: usize = widest_of(&t.target_addresses, len_bytes("t.addr"));
    let wba: usize = widest_of(&t.base_addresses, len_bytes("b.addr"));
    let wt: usize = widest_of(&t.target_sizes, len_bytes("t.sz"));
    let wb: usize = widest_of(&t.base_sizes, len_bytes("b.sz"));
    let wl: usize = widest_of(&t.lines, len_bytes("b.line"));
    let title: String = if titled {
        let names: String = cat12(
            padded_back("b.diff", ' ', wd).as_str(),
            "|",
            padded_back("t.addr", ' ', wta).as_str(),
            "|",
            padded_back("b.addr", ' ', wba).as_str(),
            "|",
            padded_back("t.sz", ' ', wt).as_str(),
            "|",
            padded_back("b.sz", ' ', wb).as_str(),
            "|",
            padded_back("b.line", ' ', wl).as_str(),
            "|b.code\n",
        );
        let rule: String = cat12(
            repeat('-', wd).as_str(),
            "+",
            repeat('-', wta).as_str(),
            "+",
            repeat('-', wba).as_str(),
            "+",
            repeat('-', wt).as_str(),
            "+",
            repeat('-', wb).as_str(),
            "+",
            repeat('-', wl).as_str(),
            "+------\n",
        );
        cat2(names.as_str(), rule.as_str())
    } else {
        owned("")
    };
    let mut body: String = owned("");
    let mut i: usize = 0;
    let ghost m = t.model();
    while i < v.len()
        invariant
            all_shown(v@, base, target, ds),
            m == t.model(),
            m == table_of(base, target, ds, digits),
            i <= v@.len(),
            wd == m.wd(),
            wta == m.wta(),
            wba == m.wba(),
            wt == m.wt(),
            wb == m.wb(),
            wl == m.wl(),
            body@ == m.body(ds, condensed, i as int),
        decreases v.len() - i,
    {
        let s: &Shown = &v[i];
        assert(v@[i as int].shows(base, target, i + 1, ds[i as int]));
        assert(m.tags.len() == ds.len() && m.target_addresses.len() == ds.len()
            && m.base_addresses.len() == ds.len() && m.target_sizes.len() == ds.len()
            && m.base_sizes.len() == ds.len() && m.lines.len() == ds.len());
        if !condensed || s.changed || s.one_sided {
            let has_base: bool = s.baddr.is_some();
            let bline: &str = if has_base {
                t.lines[i].as_str()
            } else {
                "--"
            };
            let bcode: &str = if has_base {
                s.code.as_str()
            } else {
                "--"
            };
            let line: String = cat14(
                padded_back(t.tags[i].as_str(), ' ', wd).as_str(),
                "|",
                padded_back(t.target_addresses[i].as_str(), ' ', wta).as_str(),
                "|",
                padded_back(t.base_addresses[i].as_str(), ' ', wba).as_str(),
                "|",
                padded_back(t.target_sizes[i].as_str(), ' ', wt).as_str(),
                "|",
                padded_back(t.base_sizes[i].as_str(), ' ', wb).as_str(),
                "|",
                padded_back(bline, ' ', wl).as_str(),
                "|",
                bcode,
                "\n",
            );
            assert(line@ == m.line(ds, i as int));
            body.append(line.as_str());
        } else {
            proof {
                if i > 0 {
                    assert(v@[i - 1].shows(base, target, i as int, ds[i - 1]));
                }
            }
            if i == 0 || v[i - 1].changed || v[i - 1].one_sided {
                body.append(".. same ..\n");
            }
        }
        i = i + 1;
    }
    (title, body)
}

fn count_stmts(rows: &Vec<Row>) -> (n: u64)
    ensures
        n == stmts(views(rows@)).len(),
{
    let mut n: u64 = 0;
    let mut i: usize = 0;
    while i < rows.len()
        invariant
            i <= rows@.len(),
            n <= i,
            n == stmts_upto(views(rows@), i as int).len(),
        decreases rows.len() - i,
    {
        assert(views(rows@)[i as int] == rows@[i as int]@);
        if is_stmt(&rows[i]) {
            n = n + 1;
        }
        i = i + 1;
    }
    n
}

fn stats_text(label: &str, f: &FunctionEntry, rows: &Vec<Row>) -> (r: String)
    requires
        views(rows@) == body_rows(*f),
    ensures
        r@ == stats_line(label@, *f),
{
    cat7(
        label,
        hexadecimal(f.va(0) as u64).as_str(),
        "  ",
        decimal(count_stmts(rows)).as_str(),
        " stmts  0x",
        hexadecimal(f.size as u64).as_str(),
        " bytes\n",
    )
}

/// Shows the structure difference of two functions: what differs, the size of
/// either side, and a table with one line per statement. With `condensed`, each run
/// of statements on which the two sides agree is one line.
pub fn render_structure_diff(
    base: &FunctionEntry,
    target: &FunctionEntry,
    condensed: bool,
) -> (r: String)
    ensures
        r@ == structure_diff_text(*base, *target, condensed),
{
    let base_rows: Vec<Row> = structure_rows(base);
    let target_rows: Vec<Row> = structure_rows(target);
    let rows: Vec<StructRow> = diff_structure(base_rows.as_slice(), target_rows.as_slice());
    let ghost model = structure_diff(body_rows(*base), body_rows(*target));
    proof {
        lemma_structure_diff_shape(body_rows(*base), body_rows(*target));
        assert forall|i: int| 0 <= i < rows@.len() implies well_shaped((#[trigger] rows@[i])@) by {
            assert(views(rows@)[i] == rows@[i]@);
            assert(well_shaped(model[i]));
        }
    }
    let ghost ds = shown(model);
    let v: Vec<Shown> = show_rows(base, target, &rows);
    let (heading, differs): (String, bool) = diff_heading_text(
        &v,
        Ghost(*base),
        Ghost(*target),
        Ghost(ds),
    );
    let digits: usize = count_digits(&v, Ghost(*base), Ghost(*target), Ghost(ds));
    let t: Table = make_table(&v, digits, Ghost(*base), Ghost(*target), Ghost(ds));
    let titled: bool = !condensed || differs;
    let (title, body): (String, String) = table_text(
        &v,
        &t,
        titled,
        condensed,
        Ghost(*base),
        Ghost(*target),
        Ghost(ds),
        Ghost(digits as int),
    );
    cat8(
        heading.as_str(),
        stats_text("; target 0x", target, &target_rows).as_str(),
        stats_text("; base   0x", base, &base_rows).as_str(),
        base.name.as_str(),
        "\n{\n",
        title.as_str(),
        body.as_str(),
        "}\n",
    )
}

} // verus!
