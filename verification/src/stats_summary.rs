//! How the functions of a report are spread over the percentages and the units.

use crate::lcs::views;
use crate::number::{dec, decimal};
use crate::order::{insert_once, sorted_once};
use crate::report_stats::{in_scope, FuncEntry, FuncModel, HUNDRED, Percent};
use crate::search::has_part;
use crate::text::{owned, same, texts};
use crate::type_builder::opt;
use vstd::prelude::*;

verus! {

/// The measures of the whole report.
pub struct TopMeasures {
    pub fuzzy_match_percent: Option<Percent>,
    pub total_functions: Option<u64>,
    pub matched_functions: Option<u64>,
    pub matched_functions_percent: Option<Percent>,
    pub total_code: Option<String>,
    pub matched_code: Option<String>,
    pub matched_code_percent: Option<Percent>,
    pub total_units: Option<u64>,
}

impl TopMeasures {
    /// Whether nothing is measured.
    pub open spec fn is_empty(self) -> bool {
        &&& self.fuzzy_match_percent is None
        &&& self.total_functions is None
        &&& self.matched_functions is None
        &&& self.matched_functions_percent is None
        &&& self.total_code is None
        &&& self.matched_code is None
        &&& self.matched_code_percent is None
        &&& self.total_units is None
    }
}

impl Default for TopMeasures {
    fn default() -> (r: Self)
        ensures
            r.is_empty(),
    {
        TopMeasures {
            fuzzy_match_percent: None,
            total_functions: None,
            matched_functions: None,
            matched_functions_percent: None,
            total_code: None,
            matched_code: None,
            matched_code_percent: None,
            total_units: None,
        }
    }
}

/// The functions of one range of percentages.
#[derive(Clone, Copy, PartialEq, Eq, Debug, Structural)]
pub struct BucketStats {
    pub count: usize,
    pub code_bytes: u64,
}

/// The functions of one unit.
pub struct UnitSummary {
    pub name: String,
    pub total_functions: Option<u64>,
    pub matched_functions: Option<u64>,
    pub total_code: Option<String>,
    pub matched_code: Option<String>,
    pub fuzzy_match_percent: Option<Percent>,
}

/// The functions of one unit, as a model.
pub struct UnitModel {
    pub name: Seq<char>,
    pub total_functions: Option<u64>,
    pub matched_functions: Option<u64>,
    pub total_code: Option<Seq<char>>,
    pub matched_code: Option<Seq<char>>,
    pub percent: Option<Percent>,
}

impl View for UnitSummary {
    type V = UnitModel;

    open spec fn view(&self) -> UnitModel {
        UnitModel {
            name: self.name@,
            total_functions: self.total_functions,
            matched_functions: self.matched_functions,
            total_code: opt(self.total_code),
            matched_code: opt(self.matched_code),
            percent: self.fuzzy_match_percent,
        }
    }
}

/// How the functions are spread: over the ranges of percentages, from the lowest to the
/// highest, and, where that is asked for, over the units.
pub struct Summary {
    pub top_level: TopMeasures,
    pub buckets: Vec<BucketStats>,
    pub by_unit: Option<Vec<UnitSummary>>,
}

/// How many ranges of percentages there are.
pub const BUCKETS: usize = 8;

/// The lower bounds of the ranges, which are in them, and behind these the upper bound of
/// the last range, which is not: 0, 1, 50, 80, 90, 95, 99, 100 and a little more than 100.
pub open spec fn bound(i: int) -> u64 {
    if i <= 0 {
        0
    } else if i == 1 {
        0x3ff0_0000_0000_0000
    } else if i == 2 {
        0x4049_0000_0000_0000
    } else if i == 3 {
        0x4054_0000_0000_0000
    } else if i == 4 {
        0x4056_8000_0000_0000
    } else if i == 5 {
        0x4057_c000_0000_0000
    } else if i == 6 {
        0x4058_c000_0000_0000
    } else if i == 7 {
        0x4059_0000_0000_0000
    } else {
        0x4059_0666_6666_6666
    }
}

/// The name of a range.
pub open spec fn bucket_name(i: int) -> Seq<char> {
    if i <= 0 {
        "0"@
    } else if i == 1 {
        "1-49"@
    } else if i == 2 {
        "50-79"@
    } else if i == 3 {
        "80-89"@
    } else if i == 4 {
        "90-94"@
    } else if i == 5 {
        "95-98"@
    } else if i == 6 {
        "99-99"@
    } else {
        "100"@
    }
}

/// The name of a range.
pub fn bucket_label(i: usize) -> (r: &'static str)
    ensures
        r@ == bucket_name(i as int),
{
    match i {
        0 => "0",
        1 => "1-49",
        2 => "50-79",
        3 => "80-89",
        4 => "90-94",
        5 => "95-98",
        6 => "99-99",
        _ => "100",
    }
}

fn bound_of(i: usize) -> (r: u64)
    ensures
        r == bound(i as int),
{
    match i {
        0 => 0,
        1 => 0x3ff0_0000_0000_0000,
        2 => 0x4049_0000_0000_0000,
        3 => 0x4054_0000_0000_0000,
        4 => 0x4056_8000_0000_0000,
        5 => 0x4057_c000_0000_0000,
        6 => 0x4058_c000_0000_0000,
        7 => 0x4059_0000_0000_0000,
        _ => 0x4059_0666_6666_6666,
    }
}

/// Whether a function is in a range; without a percentage it counts as zero.
pub open spec fn in_bucket(f: FuncModel, i: int) -> bool {
    let p = match f.percent {
        Some(p) => p,
        None => Percent { bits: 0 },
    };
    0 <= i < BUCKETS && p.at_least(Percent { bits: bound(i) }) && Percent {
        bits: bound(i + 1),
    }.above(p)
}

/// Whether a function belongs to a unit that is asked for.
pub open spec fn counts(f: FuncModel, pattern: Option<Seq<char>>) -> bool {
    in_scope(f.unit, pattern)
}

/// How many of the first `n` functions are in a range.
pub open spec fn bucket_count(
    fs: Seq<FuncModel>,
    pattern: Option<Seq<char>>,
    i: int,
    n: int,
) -> nat
    decreases n,
{
    if n <= 0 {
        0
    } else {
        bucket_count(fs, pattern, i, n - 1) + if counts(fs[n - 1], pattern) && in_bucket(
            fs[n - 1],
            i,
        ) {
            1nat
        } else {
            0
        }
    }
}

/// How many bytes those of the first `n` functions have that are in a range.
pub open spec fn bucket_bytes(
    fs: Seq<FuncModel>,
    pattern: Option<Seq<char>>,
    i: int,
    n: int,
) -> nat
    decreases n,
{
    if n <= 0 {
        0
    } else {
        bucket_bytes(fs, pattern, i, n - 1) + if counts(fs[n - 1], pattern) && in_bucket(
            fs[n - 1],
            i,
        ) {
            fs[n - 1].size as nat
        } else {
            0
        }
    }
}

/// How many bytes those of the first `n` functions have that count.
pub open spec fn all_bytes(fs: Seq<FuncModel>, pattern: Option<Seq<char>>, n: int) -> nat
    decreases n,
{
    if n <= 0 {
        0
    } else {
        all_bytes(fs, pattern, n - 1) + if counts(fs[n - 1], pattern) {
            fs[n - 1].size as nat
        } else {
            0
        }
    }
}

proof fn lemma_bucket_bytes(fs: Seq<FuncModel>, pattern: Option<Seq<char>>, i: int, n: int)
    requires
        0 <= n <= fs.len(),
    ensures
        bucket_bytes(fs, pattern, i, n) <= all_bytes(fs, pattern, n),
        bucket_count(fs, pattern, i, n) <= n,
    decreases n,
{
    if n > 0 {
        lemma_bucket_bytes(fs, pattern, i, n - 1);
    }
}

proof fn lemma_all_bytes(fs: Seq<FuncModel>, pattern: Option<Seq<char>>, i: int, n: int)
    requires
        0 <= i <= n <= fs.len(),
    ensures
        all_bytes(fs, pattern, i) <= all_bytes(fs, pattern, n),
    decreases n,
{
    if i < n {
        lemma_all_bytes(fs, pattern, i, n - 1);
    }
}

/// No function is in two ranges.
pub proof fn lemma_ranges_are_apart(f: FuncModel, i: int, j: int)
    requires
        in_bucket(f, i),
        in_bucket(f, j),
    ensures
        i == j,
{
}

/// Every function with a percentage from nothing to a hundred, or with none, is in a range.
pub proof fn lemma_ranges_cover(f: FuncModel)
    requires
        f.percent is Some ==> f.percent->0.bits <= HUNDRED,
    ensures
        exists|i: int| 0 <= i < BUCKETS && #[trigger] in_bucket(f, i),
{
    let b = match f.percent {
        Some(p) => p.bits,
        None => 0,
    };
    let i: int = if b < bound(1) {
        0
    } else if b < bound(2) {
        1
    } else if b < bound(3) {
        2
    } else if b < bound(4) {
        3
    } else if b < bound(5) {
        4
    } else if b < bound(6) {
        5
    } else if b < bound(7) {
        6
    } else {
        7
    };
    assert(in_bucket(f, i));
}

/// How many of the first `n` functions count.
pub open spec fn scope_count(fs: Seq<FuncModel>, pattern: Option<Seq<char>>, n: int) -> nat
    decreases n,
{
    if n <= 0 {
        0
    } else {
        scope_count(fs, pattern, n - 1) + if counts(fs[n - 1], pattern) {
            1nat
        } else {
            0
        }
    }
}

/// How many of the first `n` functions are in the first `k` ranges.
pub open spec fn ranges_count(
    fs: Seq<FuncModel>,
    pattern: Option<Seq<char>>,
    k: int,
    n: int,
) -> nat
    decreases k,
{
    if k <= 0 {
        0
    } else {
        ranges_count(fs, pattern, k - 1, n) + bucket_count(fs, pattern, k - 1, n)
    }
}

/// A function adds to the first `k` ranges where it is in one of them.
proof fn lemma_range_adds(
    fs: Seq<FuncModel>,
    pattern: Option<Seq<char>>,
    k: int,
    n: int,
    at: int,
)
    requires
        0 < n <= fs.len(),
        0 <= k <= BUCKETS,
        in_bucket(fs[n - 1], at),
    ensures
        ranges_count(fs, pattern, k, n) == ranges_count(fs, pattern, k, n - 1) + if at < k
            && counts(fs[n - 1], pattern) {
            1nat
        } else {
            0
        },
    decreases k,
{
    if k > 0 {
        lemma_range_adds(fs, pattern, k - 1, n, at);
        if in_bucket(fs[n - 1], k - 1) {
            lemma_ranges_are_apart(fs[n - 1], k - 1, at);
        }
    }
}

proof fn lemma_ranges_empty(fs: Seq<FuncModel>, pattern: Option<Seq<char>>, k: int)
    ensures
        ranges_count(fs, pattern, k, 0) == 0,
    decreases k,
{
    if k > 0 {
        lemma_ranges_empty(fs, pattern, k - 1);
    }
}

/// No function is lost: the ranges together hold as many functions as count, where no
/// percentage is below nothing or above a hundred.
pub proof fn lemma_ranges_hold_all(fs: Seq<FuncModel>, pattern: Option<Seq<char>>, n: int)
    requires
        0 <= n <= fs.len(),
        forall|i: int|
            0 <= i < fs.len() && (#[trigger] fs[i]).percent is Some ==> fs[i].percent->0.bits
                <= HUNDRED,
    ensures
        ranges_count(fs, pattern, BUCKETS as int, n) == scope_count(fs, pattern, n),
    decreases n,
{
    if n > 0 {
        lemma_ranges_hold_all(fs, pattern, n - 1);
        lemma_ranges_cover(fs[n - 1]);
        let at = choose|i: int| 0 <= i < BUCKETS && #[trigger] in_bucket(fs[n - 1], i);
        lemma_range_adds(fs, pattern, BUCKETS as int, n, at);
    } else {
        lemma_ranges_empty(fs, pattern, BUCKETS as int);
    }
}

/// How many of the first `n` functions belong to a unit, how many of them match, and how
/// many bytes they have.
pub open spec fn unit_totals(
    fs: Seq<FuncModel>,
    pattern: Option<Seq<char>>,
    unit: Seq<char>,
    n: int,
) -> (nat, nat, nat)
    decreases n,
{
    if n <= 0 {
        (0, 0, 0)
    } else {
        let (total, matched, bytes) = unit_totals(fs, pattern, unit, n - 1);
        let f = fs[n - 1];
        if counts(f, pattern) && f.unit == unit {
            (
                total + 1,
                matched + if f.percent == Some(Percent { bits: HUNDRED }) {
                    1nat
                } else {
                    0
                },
                bytes + f.size as nat,
            )
        } else {
            (total, matched, bytes)
        }
    }
}

proof fn lemma_unit_totals(
    fs: Seq<FuncModel>,
    pattern: Option<Seq<char>>,
    unit: Seq<char>,
    n: int,
)
    requires
        0 <= n <= fs.len(),
    ensures
        ({
            let (total, matched, bytes) = unit_totals(fs, pattern, unit, n);
            matched <= total <= n && bytes <= all_bytes(fs, pattern, n)
        }),
    decreases n,
{
    if n > 0 {
        lemma_unit_totals(fs, pattern, unit, n - 1);
    }
}

/// The units of those of the first `n` functions that count.
pub open spec fn units_of(fs: Seq<FuncModel>, pattern: Option<Seq<char>>, n: int) -> Seq<Seq<char>>
    decreases n,
{
    if n <= 0 {
        Seq::empty()
    } else if counts(fs[n - 1], pattern) {
        units_of(fs, pattern, n - 1).push(fs[n - 1].unit)
    } else {
        units_of(fs, pattern, n - 1)
    }
}

/// What is told of a unit.
pub open spec fn unit_summary(
    fs: Seq<FuncModel>,
    pattern: Option<Seq<char>>,
    unit: Seq<char>,
) -> UnitModel {
    let (total, matched, bytes) = unit_totals(fs, pattern, unit, fs.len() as int);
    UnitModel {
        name: unit,
        total_functions: Some(total as u64),
        matched_functions: Some(matched as u64),
        total_code: Some(dec(bytes)),
        matched_code: None,
        percent: None,
    }
}

/// What is told of the units, in the order of their names.
pub open spec fn unit_summaries(fs: Seq<FuncModel>, pattern: Option<Seq<char>>) -> Seq<UnitModel> {
    sorted_once(units_of(fs, pattern, fs.len() as int)).map_values(
        |unit: Seq<char>| unit_summary(fs, pattern, unit),
    )
}

/// Some text, as a model.
pub open spec fn pattern_of(p: Option<&str>) -> Option<Seq<char>> {
    match p {
        Some(s) => Some(s@),
        None => None,
    }
}

fn does_count(f: &FuncEntry, pattern: Option<&str>) -> (r: bool)
    ensures
        r == counts(f@, pattern_of(pattern)),
{
    match pattern {
        Some(p) => has_part(f.unit.as_str(), p),
        None => true,
    }
}

fn is_in_bucket(f: &FuncEntry, i: usize) -> (r: bool)
    requires
        i < BUCKETS,
    ensures
        r == in_bucket(f@, i as int),
{
    let p: Percent = match f.fuzzy_match_percent {
        Some(p) => p,
        None => Percent { bits: 0 },
    };
    let lo: Percent = Percent { bits: bound_of(i) };
    let hi: Percent = Percent { bits: bound_of(i + 1) };
    p.is_at_least(lo) && hi.is_above(p)
}

fn bucket(functions: &Vec<FuncEntry>, pattern: Option<&str>, i: usize) -> (r: BucketStats)
    requires
        i < BUCKETS,
        all_bytes(views(functions@), pattern_of(pattern), functions@.len() as int) <= u64::MAX,
    ensures
        r.count == bucket_count(
            views(functions@),
            pattern_of(pattern),
            i as int,
            functions@.len() as int,
        ),
        r.code_bytes == bucket_bytes(
            views(functions@),
            pattern_of(pattern),
            i as int,
            functions@.len() as int,
        ),
{
    let ghost fs = views(functions@);
    let ghost p = pattern_of(pattern);
    let n: usize = functions.len();
    let mut count: usize = 0;
    let mut bytes: u64 = 0;
    let mut k: usize = 0;
    while k < n
        invariant
            fs == views(functions@),
            p == pattern_of(pattern),
            i < BUCKETS,
            n == functions@.len(),
            k <= n,
            all_bytes(fs, p, n as int) <= u64::MAX,
            count == bucket_count(fs, p, i as int, k as int),
            bytes == bucket_bytes(fs, p, i as int, k as int),
        decreases n - k,
    {
        assert(fs[k as int] == functions@[k as int]@);
        proof {
            lemma_bucket_bytes(fs, p, i as int, k as int);
            lemma_all_bytes(fs, p, k + 1, n as int);
        }
        if does_count(&functions[k], pattern) && is_in_bucket(&functions[k], i) {
            count = count + 1;
            bytes = bytes + functions[k].size;
        }
        k = k + 1;
    }
    BucketStats { count, code_bytes: bytes }
}

fn summarize_unit(functions: &Vec<FuncEntry>, pattern: Option<&str>, unit: &str) -> (r: UnitSummary)
    requires
        all_bytes(views(functions@), pattern_of(pattern), functions@.len() as int) <= u64::MAX,
    ensures
        r@ == unit_summary(views(functions@), pattern_of(pattern), unit@),
{
    let ghost fs = views(functions@);
    let ghost p = pattern_of(pattern);
    let n: usize = functions.len();
    let mut total: u64 = 0;
    let mut matched: u64 = 0;
    let mut bytes: u64 = 0;
    let mut k: usize = 0;
    while k < n
        invariant
            fs == views(functions@),
            p == pattern_of(pattern),
            n == functions@.len(),
            k <= n,
            all_bytes(fs, p, n as int) <= u64::MAX,
            unit_totals(fs, p, unit@, k as int) == (total as nat, matched as nat, bytes as nat),
        decreases n - k,
    {
        assert(fs[k as int] == functions@[k as int]@);
        proof {
            lemma_unit_totals(fs, p, unit@, k as int);
            lemma_all_bytes(fs, p, k + 1, n as int);
        }
        if does_count(&functions[k], pattern) && same(functions[k].unit.as_str(), unit) {
            total = total + 1;
            if let Some(q) = functions[k].fuzzy_match_percent {
                if q.bits == HUNDRED {
                    matched = matched + 1;
                }
            }
            bytes = bytes + functions[k].size;
        }
        k = k + 1;
    }
    UnitSummary {
        name: owned(unit),
        total_functions: Some(total),
        matched_functions: Some(matched),
        total_code: Some(decimal(bytes)),
        matched_code: None,
        fuzzy_match_percent: None,
    }
}

fn unit_names(functions: &Vec<FuncEntry>, pattern: Option<&str>) -> (r: Vec<String>)
    ensures
        texts(r@) == sorted_once(
            units_of(views(functions@), pattern_of(pattern), functions@.len() as int),
        ),
{
    let ghost fs = views(functions@);
    let ghost p = pattern_of(pattern);
    let mut r: Vec<String> = Vec::new();
    let mut k: usize = 0;
    assert(texts(r@) =~= sorted_once(units_of(fs, p, 0)));
    while k < functions.len()
        invariant
            fs == views(functions@),
            p == pattern_of(pattern),
            k <= functions@.len(),
            texts(r@) == sorted_once(units_of(fs, p, k as int)),
        decreases functions.len() - k,
    {
        assert(fs[k as int] == functions@[k as int]@);
        if does_count(&functions[k], pattern) {
            assert(units_of(fs, p, k + 1).drop_last() =~= units_of(fs, p, k as int));
            insert_once(&mut r, owned(functions[k].unit.as_str()));
        }
        k = k + 1;
    }
    r
}

fn summarize_units(functions: &Vec<FuncEntry>, pattern: Option<&str>) -> (r: Vec<UnitSummary>)
    requires
        all_bytes(views(functions@), pattern_of(pattern), functions@.len() as int) <= u64::MAX,
    ensures
        views(r@) == unit_summaries(views(functions@), pattern_of(pattern)),
{
    let names: Vec<String> = unit_names(functions, pattern);
    let ghost goal = unit_summaries(views(functions@), pattern_of(pattern));
    let mut r: Vec<UnitSummary> = Vec::new();
    let mut k: usize = 0;
    while k < names.len()
        invariant
            all_bytes(views(functions@), pattern_of(pattern), functions@.len() as int) <= u64::MAX,
            goal == texts(names@).map_values(
                |unit: Seq<char>| unit_summary(views(functions@), pattern_of(pattern), unit),
            ),
            k <= names@.len(),
            r@.len() == k,
            forall|j: int| 0 <= j < k ==> (#[trigger] r@[j])@ == goal[j],
        decreases names.len() - k,
    {
        let one: UnitSummary = summarize_unit(functions, pattern, names[k].as_str());
        r.push(one);
        k = k + 1;
    }
    assert(views(r@) =~= goal);
    r
}

/// How the functions of a report are spread.
pub fn compute_summary(functions: &Vec<FuncEntry>, unit_pattern: Option<&str>, by_unit: bool) -> (r:
    Summary)
    requires
        all_bytes(views(functions@), pattern_of(unit_pattern), functions@.len() as int) <= u64::MAX,
    ensures
        r.top_level.is_empty(),
        r.buckets@.len() == BUCKETS,
        forall|i: int|
            0 <= i < BUCKETS ==> (#[trigger] r.buckets@[i]).count == bucket_count(
                views(functions@),
                pattern_of(unit_pattern),
                i,
                functions@.len() as int,
            ) && r.buckets@[i].code_bytes == bucket_bytes(
                views(functions@),
                pattern_of(unit_pattern),
                i,
                functions@.len() as int,
            ),
        match r.by_unit {
            Some(u) => by_unit && views(u@) == unit_summaries(
                views(functions@),
                pattern_of(unit_pattern),
            ),
            None => !by_unit,
        },
{
    let mut buckets: Vec<BucketStats> = Vec::new();
    let mut i: usize = 0;
    while i < BUCKETS
        invariant
            all_bytes(views(functions@), pattern_of(unit_pattern), functions@.len() as int) <= u64::MAX,
            i <= BUCKETS,
            buckets@.len() == i,
            forall|k: int|
                0 <= k < i ==> (#[trigger] buckets@[k]).count == bucket_count(
                    views(functions@),
                    pattern_of(unit_pattern),
                    k,
                    functions@.len() as int,
                ) && buckets@[k].code_bytes == bucket_bytes(
                    views(functions@),
                    pattern_of(unit_pattern),
                    k,
                    functions@.len() as int,
                ),
        decreases BUCKETS - i,
    {
        buckets.push(bucket(functions, unit_pattern, i));
        i = i + 1;
    }
    let units: Option<Vec<UnitSummary>> = if by_unit {
        Some(summarize_units(functions, unit_pattern))
    } else {
        None
    };
    Summary { top_level: TopMeasures::default(), buckets, by_unit: units }
}

/// Whether the bytes of all functions that count can be counted.
pub fn can_summarize(functions: &Vec<FuncEntry>, unit_pattern: Option<&str>) -> (r: bool)
    ensures
        r == (all_bytes(views(functions@), pattern_of(unit_pattern), functions@.len() as int)
            <= u64::MAX),
{
    let ghost fs = views(functions@);
    let ghost p = pattern_of(unit_pattern);
    let n: usize = functions.len();
    let mut bytes: u64 = 0;
    let mut k: usize = 0;
    while k < n
        invariant
            fs == views(functions@),
            n == functions@.len(),
            k <= n,
            p == pattern_of(unit_pattern),
            bytes == all_bytes(fs, p, k as int),
        decreases n - k,
    {
        assert(fs[k as int] == functions@[k as int]@);
        if does_count(&functions[k], unit_pattern) {
            if functions[k].size > 0xffff_ffff_ffff_ffff - bytes {
                proof {
                    lemma_all_bytes(fs, p, k + 1, n as int);
                }
                return false;
            }
            bytes = bytes + functions[k].size;
        }
        k = k + 1;
    }
    true
}

/// Gives a summary the measures of the whole report.
pub fn attach_top_measures(summary: &mut Summary, measures: TopMeasures)
    ensures
        final(summary).top_level == measures,
        final(summary).buckets == old(summary).buckets,
        final(summary).by_unit == old(summary).by_unit,
{
    summary.top_level = measures;
}

/// A range is told of by its name.
pub fn bucket_named<'a>(summary: &'a Summary, label: &str) -> (r: Option<&'a BucketStats>)
    requires
        summary.buckets@.len() == BUCKETS,
    ensures
        match r {
            Some(b) => exists|i: int|
                0 <= i < BUCKETS && #[trigger] bucket_name(i) == label@ && summary.buckets@[i]
                    == *b,
            None => forall|i: int| 0 <= i < BUCKETS ==> #[trigger] bucket_name(i) != label@,
        },
{
    let mut i: usize = 0;
    while i < BUCKETS
        invariant
            summary.buckets@.len() == BUCKETS,
            i <= BUCKETS,
            forall|k: int| 0 <= k < i ==> #[trigger] bucket_name(k) != label@,
        decreases BUCKETS - i,
    {
        if same(bucket_label(i), label) {
            assert(bucket_name(i as int) == label@);
            return Some(&summary.buckets[i]);
        }
        i = i + 1;
    }
    None
}

} // verus!
