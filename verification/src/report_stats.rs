//! Statistics of how far functions match.
//!
//! A report lists functions by units. Functions are joined with the index of a build by
//! their mangled names; one that is in one build only has no match percentage.

use crate::field_attributes::{lemma_number_of_prefix, number_of};
use crate::lcs::views;
use crate::order::{has_text, insert_once, is_le, lemma_push_has, rank_of, sort_stable, sorted_by,
    sorted_once, text_le, Ranked};
use crate::pieces::cat3;
use crate::search::{contains, has_part};
use crate::text::{chars_of, owned, same, texts};
use crate::type_builder::opt;
use vstd::prelude::*;

verus! {

// ---------------------------------------------------------------------------
// Numbers
// ---------------------------------------------------------------------------

/// Whether a text is a whole number: digits, also behind a plus sign.
pub open spec fn digits_in(s: Seq<char>) -> Seq<char> {
    if s.len() > 0 && s[0] == '+' {
        s.skip(1)
    } else {
        s
    }
}

/// The number below two to the power of 64 that a text spells.
pub open spec fn number_in(s: Seq<char>) -> Option<int> {
    let d = digits_in(s);
    if d.len() > 0 && (forall|i: int| 0 <= i < d.len() ==> '0' <= #[trigger] d[i] && d[i] <= '9')
        && number_of(d) <= u64::MAX {
        Some(number_of(d))
    } else {
        None
    }
}

/// The number that a text spells.
pub fn parse_u64(s: &str) -> (r: Option<u64>)
    ensures
        match r {
            Some(n) => number_in(s@) == Some(n as int),
            None => number_in(s@) is None,
        },
{
    let v: Vec<char> = chars_of(s);
    let start: usize = if v.len() > 0 && v[0] == '+' {
        1
    } else {
        0
    };
    let ghost d = digits_in(s@);
    assert(d =~= s@.skip(start as int));
    if v.len() == start {
        return None;
    }
    let mut n: u64 = 0;
    let mut i: usize = start;
    assert(d.take(0) =~= Seq::<char>::empty());
    while i < v.len()
        invariant
            v@ == s@,
            start <= i <= v@.len(),
            start <= 1,
            d == digits_in(s@),
            d == s@.skip(start as int),
            d.len() > 0,
            forall|k: int| 0 <= k < i - start ==> '0' <= #[trigger] d[k] && d[k] <= '9',
            n == number_of(d.take(i - start)),
        decreases v.len() - i,
    {
        let c: char = v[i];
        assert(d[i - start] == c);
        if !('0' <= c && c <= '9') {
            return None;
        }
        let x: u64 = (c as u64) - 48;
        proof {
            assert(d.take(i - start + 1).drop_last() =~= d.take(i - start));
            assert(d.take(i - start + 1).last() == c);
        }
        if n > 0xffff_ffff_ffff_ffff / 10 || n * 10 > 0xffff_ffff_ffff_ffff - x {
            proof {
                if number_in(s@) is Some {
                    lemma_number_of_prefix(d, i - start + 1);
                }
            }
            return None;
        }
        n = n * 10 + x;
        i = i + 1;
    }
    assert(d.take(i - start) =~= d);
    Some(n)
}

/// A percentage, as the bits of a double-precision number.
#[derive(Clone, Copy, PartialEq, Eq, Debug, Structural)]
pub struct Percent {
    pub bits: u64,
}

impl Percent {
    /// The bits without the sign.
    pub open spec fn magnitude(self) -> int {
        if self.bits < 0x8000_0000_0000_0000 {
            self.bits as int
        } else {
            self.bits - 0x8000_0000_0000_0000
        }
    }

    /// Whether the bits stand for a number.
    pub open spec fn is_number(self) -> bool {
        self.magnitude() <= 0x7ff0_0000_0000_0000
    }

    /// Where the number stands among the numbers.
    pub open spec fn rank(self) -> int {
        if self.bits < 0x8000_0000_0000_0000 {
            self.magnitude()
        } else {
            -self.magnitude()
        }
    }

    /// Whether both are numbers and the first is no less.
    pub open spec fn at_least(self, other: Percent) -> bool {
        self.is_number() && other.is_number() && self.rank() >= other.rank()
    }

    /// Whether both are numbers and the first is greater.
    pub open spec fn above(self, other: Percent) -> bool {
        self.is_number() && other.is_number() && self.rank() > other.rank()
    }

    fn key(self) -> (r: i128)
        ensures
            r == self.rank(),
    {
        if self.bits < 0x8000_0000_0000_0000 {
            self.bits as i128
        } else {
            -((self.bits - 0x8000_0000_0000_0000) as i128)
        }
    }

    fn is_num(self) -> (r: bool)
        ensures
            r == self.is_number(),
    {
        if self.bits < 0x8000_0000_0000_0000 {
            self.bits <= 0x7ff0_0000_0000_0000
        } else {
            self.bits - 0x8000_0000_0000_0000 <= 0x7ff0_0000_0000_0000
        }
    }

    /// Whether both are numbers and the first is no less.
    pub fn is_at_least(self, other: Percent) -> (r: bool)
        ensures
            r == self.at_least(other),
    {
        self.is_num() && other.is_num() && self.key() >= other.key()
    }

    /// Whether both are numbers and the first is greater.
    pub fn is_above(self, other: Percent) -> (r: bool)
        ensures
            r == self.above(other),
    {
        self.is_num() && other.is_num() && self.key() > other.key()
    }
}

/// The bits of a hundred.
pub const HUNDRED: u64 = 0x4059_0000_0000_0000;

/// The bits of what is below every number.
pub const NEGATIVE_INFINITY: u64 = 0xfff0_0000_0000_0000;

// ---------------------------------------------------------------------------
// The report
// ---------------------------------------------------------------------------

/// A function as the report gives it, its numbers as text.
pub struct RawFunction {
    pub name: String,
    pub size: String,
    pub fuzzy_match_percent: Option<Percent>,
    pub address: String,
    pub demangled_name: Option<String>,
}

/// A unit as the report gives it.
pub struct RawUnit {
    pub name: String,
    pub functions: Vec<RawFunction>,
}

/// What the index says of a function.
#[derive(Debug)]
pub struct IndexEnrichment {
    pub rva: u32,
    pub file: String,
}

/// A function, taken out of its unit.
#[derive(Debug)]
pub struct FuncEntry {
    /// The mangled name, by which functions are joined.
    pub name: String,
    /// The signature in words.
    pub demangled: Option<String>,
    /// The name of the unit.
    pub unit: String,
    /// The length in bytes.
    pub size: u64,
    /// How far the function matches; nothing where it is in one build only.
    pub fuzzy_match_percent: Option<Percent>,
    /// The offset within the unit.
    pub address: u64,
    /// What the index says of the function.
    pub enriched: Option<IndexEnrichment>,
}

/// A function, as a model.
pub struct FuncModel {
    pub name: Seq<char>,
    pub demangled: Option<Seq<char>>,
    pub unit: Seq<char>,
    pub size: u64,
    pub percent: Option<Percent>,
    pub address: u64,
    pub enriched: Option<(u32, Seq<char>)>,
}

impl View for FuncEntry {
    type V = FuncModel;

    open spec fn view(&self) -> FuncModel {
        FuncModel {
            name: self.name@,
            demangled: opt(self.demangled),
            unit: self.unit@,
            size: self.size,
            percent: self.fuzzy_match_percent,
            address: self.address,
            enriched: match self.enriched {
                Some(e) => Some((e.rva, e.file@)),
                None => None,
            },
        }
    }
}

/// A number that cannot be read.
pub struct ReportError {
    pub text: String,
}

impl ReportError {
    /// The error in words.
    pub fn message(&self) -> (r: String)
        ensures
            r@ == "failed to parse '"@ + self.text@ + "' as u64"@,
    {
        cat3("failed to parse '", self.text.as_str(), "' as u64")
    }
}

/// A function of a unit with its numbers read, or the text that is none.
pub open spec fn entry_of(unit: Seq<char>, f: RawFunction) -> Result<FuncModel, Seq<char>> {
    match (number_in(f.size@), number_in(f.address@)) {
        (None, _) => Err(f.size@),
        (Some(_), None) => Err(f.address@),
        (Some(size), Some(address)) => Ok(
            FuncModel {
                name: f.name@,
                demangled: opt(f.demangled_name),
                unit,
                size: size as u64,
                percent: f.fuzzy_match_percent,
                address: address as u64,
                enriched: None,
            },
        ),
    }
}

/// The functions so far and the first `n` functions of a unit.
pub open spec fn with_functions(
    so_far: Seq<FuncModel>,
    unit: RawUnit,
    n: int,
) -> Result<Seq<FuncModel>, Seq<char>>
    decreases n,
{
    if n <= 0 {
        Ok(so_far)
    } else {
        match with_functions(so_far, unit, n - 1) {
            Err(e) => Err(e),
            Ok(v) => match entry_of(unit.name@, unit.functions@[n - 1]) {
                Err(e) => Err(e),
                Ok(x) => Ok(v.push(x)),
            },
        }
    }
}

/// The functions of the first `n` units, in order.
pub open spec fn flattened(units: Seq<RawUnit>, n: int) -> Result<Seq<FuncModel>, Seq<char>>
    decreases n,
{
    if n <= 0 {
        Ok(Seq::empty())
    } else {
        match flattened(units, n - 1) {
            Err(e) => Err(e),
            Ok(v) => with_functions(v, units[n - 1], units[n - 1].functions@.len() as int),
        }
    }
}

proof fn lemma_with_functions_err(so_far: Seq<FuncModel>, unit: RawUnit, i: int, n: int)
    requires
        0 <= i <= n,
        with_functions(so_far, unit, i) is Err,
    ensures
        with_functions(so_far, unit, n) == with_functions(so_far, unit, i),
    decreases n,
{
    if i < n {
        lemma_with_functions_err(so_far, unit, i, n - 1);
    }
}

proof fn lemma_flattened_err(units: Seq<RawUnit>, i: int, n: int)
    requires
        0 <= i <= n,
        flattened(units, i) is Err,
    ensures
        flattened(units, n) == flattened(units, i),
    decreases n,
{
    if i < n {
        lemma_flattened_err(units, i, n - 1);
    }
}

/// A copy of a text that may be missing.
fn copy_opt(s: &Option<String>) -> (r: Option<String>)
    ensures
        opt(r) == opt(*s),
{
    match s {
        Some(x) => Some(owned(x.as_str())),
        None => None,
    }
}

fn read_entry(unit: &str, f: &RawFunction) -> (r: Result<FuncEntry, ReportError>)
    ensures
        match r {
            Ok(x) => entry_of(unit@, *f) == Ok::<FuncModel, Seq<char>>(x@),
            Err(e) => entry_of(unit@, *f) == Err::<FuncModel, Seq<char>>(e.text@),
        },
{
    let size: u64 = match parse_u64(f.size.as_str()) {
        Some(n) => n,
        None => {
            return Err(ReportError { text: owned(f.size.as_str()) });
        },
    };
    let address: u64 = match parse_u64(f.address.as_str()) {
        Some(n) => n,
        None => {
            return Err(ReportError { text: owned(f.address.as_str()) });
        },
    };
    Ok(
        FuncEntry {
            name: owned(f.name.as_str()),
            demangled: copy_opt(&f.demangled_name),
            unit: owned(unit),
            size,
            fuzzy_match_percent: f.fuzzy_match_percent,
            address,
            enriched: None,
        },
    )
}

fn read_unit(out: &mut Vec<FuncEntry>, unit: &RawUnit) -> (r: Result<(), ReportError>)
    ensures
        match r {
            Ok(_) => with_functions(views(old(out)@), *unit, unit.functions@.len() as int) == Ok::<
                Seq<FuncModel>,
                Seq<char>,
            >(views(final(out)@)),
            Err(e) => with_functions(views(old(out)@), *unit, unit.functions@.len() as int) == Err::<
                Seq<FuncModel>,
                Seq<char>,
            >(e.text@),
        },
{
    let ghost start = views(out@);
    let mut i: usize = 0;
    while i < unit.functions.len()
        invariant
            start == views(old(out)@),
            i <= unit.functions@.len(),
            with_functions(start, *unit, i as int) == Ok::<Seq<FuncModel>, Seq<char>>(views(out@)),
        decreases unit.functions.len() - i,
    {
        match read_entry(unit.name.as_str(), &unit.functions[i]) {
            Ok(x) => {
                let ghost before = out@;
                let ghost m = x@;
                out.push(x);
                assert(views(out@) =~= views(before).push(m));
            },
            Err(e) => {
                proof {
                    lemma_with_functions_err(start, *unit, i + 1, unit.functions@.len() as int);
                }
                return Err(e);
            },
        }
        i = i + 1;
    }
    Ok(())
}

/// The functions of a report, in order. Fails at the first number that cannot be read.
pub fn flatten_report(units: &Vec<RawUnit>) -> (r: Result<Vec<FuncEntry>, ReportError>)
    ensures
        match r {
            Ok(v) => flattened(units@, units@.len() as int) == Ok::<Seq<FuncModel>, Seq<char>>(
                views(v@),
            ),
            Err(e) => flattened(units@, units@.len() as int) == Err::<Seq<FuncModel>, Seq<char>>(
                e.text@,
            ),
        },
{
    let mut out: Vec<FuncEntry> = Vec::new();
    assert(views(out@) =~= Seq::<FuncModel>::empty());
    let mut i: usize = 0;
    while i < units.len()
        invariant
            i <= units@.len(),
            flattened(units@, i as int) == Ok::<Seq<FuncModel>, Seq<char>>(views(out@)),
        decreases units.len() - i,
    {
        match read_unit(&mut out, &units[i]) {
            Ok(_) => {},
            Err(e) => {
                proof {
                    lemma_flattened_err(units@, i + 1, units@.len() as int);
                }
                return Err(e);
            },
        }
        i = i + 1;
    }
    Ok(out)
}

// ---------------------------------------------------------------------------
// Filtering and sorting
// ---------------------------------------------------------------------------

/// What functions are sorted by.
#[derive(Clone, Copy, PartialEq, Eq, Debug, Default, Structural)]
pub enum SortField {
    #[default]
    Percent,
    Size,
    Name,
}

/// Which end comes first.
#[derive(Clone, Copy, PartialEq, Eq, Debug, Default, Structural)]
pub enum SortOrder {
    #[default]
    Asc,
    Desc,
}

/// Which functions are listed, and how.
pub struct FuncFilter<'a> {
    pub unit_pattern: Option<&'a str>,
    pub min_percent: Option<Percent>,
    pub max_percent: Option<Percent>,
    pub matched_only: bool,
    pub min_size: Option<u64>,
    pub limit: Option<usize>,
    pub sort: SortField,
    pub order: SortOrder,
}

/// Which functions are listed, as a model.
pub struct FilterModel {
    pub unit_pattern: Option<Seq<char>>,
    pub min_percent: Option<Percent>,
    pub max_percent: Option<Percent>,
    pub matched_only: bool,
    pub min_size: Option<u64>,
    pub limit: Option<usize>,
    pub sort: SortField,
    pub order: SortOrder,
}

impl<'a> View for FuncFilter<'a> {
    type V = FilterModel;

    open spec fn view(&self) -> FilterModel {
        FilterModel {
            unit_pattern: match self.unit_pattern {
                Some(s) => Some(s@),
                None => None,
            },
            min_percent: self.min_percent,
            max_percent: self.max_percent,
            matched_only: self.matched_only,
            min_size: self.min_size,
            limit: self.limit,
            sort: self.sort,
            order: self.order,
        }
    }
}

/// No filter: all functions, by percentage, the lowest first.
pub open spec fn all_functions() -> FilterModel {
    FilterModel {
        unit_pattern: None,
        min_percent: None,
        max_percent: None,
        matched_only: false,
        min_size: None,
        limit: None,
        sort: SortField::Percent,
        order: SortOrder::Asc,
    }
}

impl<'a> Default for FuncFilter<'a> {
    fn default() -> (r: Self)
        ensures
            r@ == all_functions(),
    {
        FuncFilter {
            unit_pattern: None,
            min_percent: None,
            max_percent: None,
            matched_only: false,
            min_size: None,
            limit: None,
            sort: SortField::Percent,
            order: SortOrder::Asc,
        }
    }
}

/// Whether a unit's name holds the pattern that is asked for.
pub open spec fn in_scope(unit: Seq<char>, pattern: Option<Seq<char>>) -> bool {
    match pattern {
        Some(p) => contains(unit, p),
        None => true,
    }
}

/// Whether a function passes a filter.
pub open spec fn passes(f: FuncModel, filter: FilterModel) -> bool {
    &&& filter.matched_only ==> f.percent is Some
    &&& filter.min_percent is Some ==> f.percent is Some && f.percent->0.at_least(
        filter.min_percent->0,
    )
    &&& filter.max_percent is Some ==> f.percent is Some && filter.max_percent->0.at_least(
        f.percent->0,
    )
    &&& filter.min_size is Some ==> f.size >= filter.min_size->0
    &&& in_scope(f.unit, filter.unit_pattern)
}

/// A function's percentage for sorting: nothing is below every number.
pub open spec fn sort_percent(f: FuncModel) -> Percent {
    match f.percent {
        Some(p) => p,
        None => Percent { bits: NEGATIVE_INFINITY },
    }
}

/// Whether `a` may stand before `b`.
pub open spec fn func_le(field: SortField, a: FuncModel, b: FuncModel) -> bool {
    match field {
        SortField::Percent => !sort_percent(a).above(sort_percent(b)),
        SortField::Size => a.size <= b.size,
        SortField::Name => text_le(a.name, b.name),
    }
}

/// Those of the first `n` functions that pass a filter.
pub open spec fn passing(fs: Seq<FuncModel>, filter: FilterModel, n: int) -> Seq<FuncModel>
    decreases n,
{
    if n <= 0 {
        Seq::empty()
    } else if passes(fs[n - 1], filter) {
        passing(fs, filter, n - 1).push(fs[n - 1])
    } else {
        passing(fs, filter, n - 1)
    }
}

/// The functions that a filter lists.
pub open spec fn listed(fs: Seq<FuncModel>, filter: FilterModel) -> Seq<FuncModel> {
    let sorted = sorted_by(
        passing(fs, filter, fs.len() as int),
        |a: FuncModel, b: FuncModel| func_le(filter.sort, a, b),
    );
    let directed = if filter.order is Desc {
        sorted.reverse()
    } else {
        sorted
    };
    match filter.limit {
        Some(n) => if n < directed.len() {
            directed.take(n as int)
        } else {
            directed
        },
        None => directed,
    }
}

struct ByPercent<'a>(&'a FuncEntry);

struct BySize<'a>(&'a FuncEntry);

struct ByName<'a>(&'a FuncEntry);

impl<'a> View for ByPercent<'a> {
    type V = FuncModel;

    closed spec fn view(&self) -> FuncModel {
        self.0@
    }
}

impl<'a> View for BySize<'a> {
    type V = FuncModel;

    closed spec fn view(&self) -> FuncModel {
        self.0@
    }
}

impl<'a> View for ByName<'a> {
    type V = FuncModel;

    closed spec fn view(&self) -> FuncModel {
        self.0@
    }
}

fn percent_for_sorting(f: &FuncEntry) -> (r: Percent)
    ensures
        r == sort_percent(f@),
{
    match f.fuzzy_match_percent {
        Some(p) => p,
        None => Percent { bits: NEGATIVE_INFINITY },
    }
}

impl<'a> Ranked for ByPercent<'a> {
    open spec fn before(a: FuncModel, b: FuncModel) -> bool {
        func_le(SortField::Percent, a, b)
    }

    fn is_before(&self, other: &Self) -> (r: bool) {
        !percent_for_sorting(self.0).is_above(percent_for_sorting(other.0))
    }
}

impl<'a> Ranked for BySize<'a> {
    open spec fn before(a: FuncModel, b: FuncModel) -> bool {
        func_le(SortField::Size, a, b)
    }

    fn is_before(&self, other: &Self) -> (r: bool) {
        self.0.size <= other.0.size
    }
}

impl<'a> Ranked for ByName<'a> {
    open spec fn before(a: FuncModel, b: FuncModel) -> bool {
        func_le(SortField::Name, a, b)
    }

    fn is_before(&self, other: &Self) -> (r: bool) {
        is_le(self.0.name.as_str(), other.0.name.as_str())
    }
}

/// Whether a unit's name holds the pattern that is asked for.
fn is_in_scope(unit: &str, pattern: Option<&str>) -> (r: bool)
    ensures
        r == in_scope(
            unit@,
            match pattern {
                Some(s) => Some(s@),
                None => None,
            },
        ),
{
    match pattern {
        Some(p) => has_part(unit, p),
        None => true,
    }
}

/// Whether a function passes a filter.
pub fn is_passing(f: &FuncEntry, filter: &FuncFilter) -> (r: bool)
    ensures
        r == passes(f@, filter@),
{
    if filter.matched_only && f.fuzzy_match_percent.is_none() {
        return false;
    }
    if let Some(p) = filter.min_percent {
        match f.fuzzy_match_percent {
            Some(fp) => {
                if !fp.is_at_least(p) {
                    return false;
                }
            },
            None => {
                return false;
            },
        }
    }
    if let Some(p) = filter.max_percent {
        match f.fuzzy_match_percent {
            Some(fp) => {
                if !p.is_at_least(fp) {
                    return false;
                }
            },
            None => {
                return false;
            },
        }
    }
    if let Some(s) = filter.min_size {
        if f.size < s {
            return false;
        }
    }
    is_in_scope(f.unit.as_str(), filter.unit_pattern)
}

/// References to some functions, as models.
pub open spec fn refs(v: Seq<&FuncEntry>) -> Seq<FuncModel> {
    v.map_values(|f: &FuncEntry| f@)
}

fn select<'a>(functions: &'a Vec<FuncEntry>, filter: &FuncFilter) -> (r: Vec<&'a FuncEntry>)
    ensures
        refs(r@) == passing(views(functions@), filter@, functions@.len() as int),
{
    let ghost m = views(functions@);
    let mut r: Vec<&'a FuncEntry> = Vec::new();
    assert(refs(r@) =~= Seq::<FuncModel>::empty());
    let mut i: usize = 0;
    while i < functions.len()
        invariant
            m == views(functions@),
            i <= functions@.len(),
            refs(r@) == passing(m, filter@, i as int),
        decreases functions.len() - i,
    {
        assert(m[i as int] == functions@[i as int]@);
        if is_passing(&functions[i], filter) {
            let ghost before = r@;
            r.push(&functions[i]);
            assert(refs(r@) =~= refs(before).push(m[i as int]));
        }
        i = i + 1;
    }
    r
}

fn sort_percents<'a>(v: Vec<&'a FuncEntry>) -> (r: Vec<&'a FuncEntry>)
    ensures
        refs(r@) == sorted_by(
            refs(v@),
            |a: FuncModel, b: FuncModel| func_le(SortField::Percent, a, b),
        ),
{
    let mut w: Vec<ByPercent<'a>> = Vec::new();
    let mut i: usize = 0;
    while i < v.len()
        invariant
            i <= v@.len(),
            w@.len() == i,
            forall|k: int| 0 <= k < i ==> (#[trigger] w@[k]).0 == v@[k],
        decreases v.len() - i,
    {
        w.push(ByPercent(v[i]));
        i = i + 1;
    }
    assert(views(w@) =~= refs(v@));
    let s: Vec<ByPercent<'a>> = sort_stable(w);
    assert(rank_of::<ByPercent<'a>>() =~= (|a: FuncModel, b: FuncModel|
        func_le(SortField::Percent, a, b)));
    let mut r: Vec<&'a FuncEntry> = Vec::new();
    let mut k: usize = 0;
    while k < s.len()
        invariant
            k <= s@.len(),
            r@.len() == k,
            forall|j: int| 0 <= j < k ==> (#[trigger] r@[j]) == s@[j].0,
        decreases s.len() - k,
    {
        r.push(s[k].0);
        k = k + 1;
    }
    assert(refs(r@) =~= views(s@));
    r
}

fn sort_sizes<'a>(v: Vec<&'a FuncEntry>) -> (r: Vec<&'a FuncEntry>)
    ensures
        refs(r@) == sorted_by(
            refs(v@),
            |a: FuncModel, b: FuncModel| func_le(SortField::Size, a, b),
        ),
{
    let mut w: Vec<BySize<'a>> = Vec::new();
    let mut i: usize = 0;
    while i < v.len()
        invariant
            i <= v@.len(),
            w@.len() == i,
            forall|k: int| 0 <= k < i ==> (#[trigger] w@[k]).0 == v@[k],
        decreases v.len() - i,
    {
        w.push(BySize(v[i]));
        i = i + 1;
    }
    assert(views(w@) =~= refs(v@));
    let s: Vec<BySize<'a>> = sort_stable(w);
    assert(rank_of::<BySize<'a>>() =~= (|a: FuncModel, b: FuncModel|
        func_le(SortField::Size, a, b)));
    let mut r: Vec<&'a FuncEntry> = Vec::new();
    let mut k: usize = 0;
    while k < s.len()
        invariant
            k <= s@.len(),
            r@.len() == k,
            forall|j: int| 0 <= j < k ==> (#[trigger] r@[j]) == s@[j].0,
        decreases s.len() - k,
    {
        r.push(s[k].0);
        k = k + 1;
    }
    assert(refs(r@) =~= views(s@));
    r
}

fn sort_names<'a>(v: Vec<&'a FuncEntry>) -> (r: Vec<&'a FuncEntry>)
    ensures
        refs(r@) == sorted_by(
            refs(v@),
            |a: FuncModel, b: FuncModel| func_le(SortField::Name, a, b),
        ),
{
    let mut w: Vec<ByName<'a>> = Vec::new();
    let mut i: usize = 0;
    while i < v.len()
        invariant
            i <= v@.len(),
            w@.len() == i,
            forall|k: int| 0 <= k < i ==> (#[trigger] w@[k]).0 == v@[k],
        decreases v.len() - i,
    {
        w.push(ByName(v[i]));
        i = i + 1;
    }
    assert(views(w@) =~= refs(v@));
    let s: Vec<ByName<'a>> = sort_stable(w);
    assert(rank_of::<ByName<'a>>() =~= (|a: FuncModel, b: FuncModel|
        func_le(SortField::Name, a, b)));
    let mut r: Vec<&'a FuncEntry> = Vec::new();
    let mut k: usize = 0;
    while k < s.len()
        invariant
            k <= s@.len(),
            r@.len() == k,
            forall|j: int| 0 <= j < k ==> (#[trigger] r@[j]) == s@[j].0,
        decreases s.len() - k,
    {
        r.push(s[k].0);
        k = k + 1;
    }
    assert(refs(r@) =~= views(s@));
    r
}

fn reversed<'a>(v: Vec<&'a FuncEntry>) -> (r: Vec<&'a FuncEntry>)
    ensures
        refs(r@) == refs(v@).reverse(),
{
    let n: usize = v.len();
    let mut r: Vec<&'a FuncEntry> = Vec::new();
    let mut i: usize = 0;
    while i < n
        invariant
            n == v@.len(),
            i <= n,
            r@.len() == i,
            forall|k: int| 0 <= k < i ==> (#[trigger] r@[k]) == v@[n - 1 - k],
        decreases n - i,
    {
        r.push(v[n - 1 - i]);
        i = i + 1;
    }
    assert(refs(r@) =~= refs(v@).reverse());
    r
}

/// The functions that a filter lists: those that pass it, sorted, and no more than the
/// limit.
pub fn filter_functions<'a>(functions: &'a Vec<FuncEntry>, filter: &FuncFilter) -> (r: Vec<
    &'a FuncEntry,
>)
    ensures
        refs(r@) == listed(views(functions@), filter@),
{
    let kept: Vec<&'a FuncEntry> = select(functions, filter);
    let sorted: Vec<&'a FuncEntry> = match filter.sort {
        SortField::Percent => sort_percents(kept),
        SortField::Size => sort_sizes(kept),
        SortField::Name => sort_names(kept),
    };
    let mut out: Vec<&'a FuncEntry> = match filter.order {
        SortOrder::Desc => reversed(sorted),
        SortOrder::Asc => sorted,
    };
    if let Some(n) = filter.limit {
        if n < out.len() {
            let ghost before = out@;
            out.truncate(n);
            assert(refs(out@) =~= refs(before).take(n as int));
        }
    }
    out
}

/// What is listed passes the filter, is no more than the limit, and stands in the order
/// that is asked for.
pub proof fn lemma_listed(fs: Seq<FuncModel>, filter: FilterModel)
    ensures
        filter.limit is Some ==> listed(fs, filter).len() <= filter.limit->0,
        filter.limit is None ==> listed(fs, filter).to_multiset() == passing(
            fs,
            filter,
            fs.len() as int,
        ).to_multiset(),
        forall|i: int|
            0 <= i < listed(fs, filter).len() ==> fs.contains(#[trigger] listed(fs, filter)[i])
                && passes(listed(fs, filter)[i], filter),
        filter.sort is Percent && (forall|i: int|
            0 <= i < fs.len() ==> sort_percent(#[trigger] fs[i]).is_number()) || !(filter.sort
            is Percent) ==> forall|i: int, j: int|
            0 <= i < j < listed(fs, filter).len() ==> if filter.order is Asc {
                func_le(
                    filter.sort,
                    #[trigger] listed(fs, filter)[i],
                    #[trigger] listed(fs, filter)[j],
                )
            } else {
                func_le(filter.sort, listed(fs, filter)[j], listed(fs, filter)[i])
            },
{
    broadcast use vstd::seq_lib::group_to_multiset_ensures;

    let kept = passing(fs, filter, fs.len() as int);
    let le = |a: FuncModel, b: FuncModel| func_le(filter.sort, a, b);
    let sorted = sorted_by(kept, le);
    let out = listed(fs, filter);
    crate::order::lemma_sorted_by(kept, le);
    lemma_passing(fs, filter, fs.len() as int);
    let directed = if filter.order is Desc {
        sorted.reverse()
    } else {
        sorted
    };
    assert forall|i: int| 0 <= i < sorted.len() implies kept.contains(#[trigger] sorted[i]) by {
        assert(sorted.contains(sorted[i]));
        assert(sorted.to_multiset().count(sorted[i]) > 0);
        assert(kept.to_multiset().count(sorted[i]) > 0);
    }
    assert(sorted.reverse().to_multiset() =~= sorted.to_multiset()) by {
        lemma_reverse_multiset(sorted);
    }
    assert forall|i: int| 0 <= i < out.len() implies fs.contains(#[trigger] out[i]) && passes(
        out[i],
        filter,
    ) by {
        if filter.order is Desc {
            assert(out[i] == sorted[sorted.len() - 1 - i]);
        } else {
            assert(out[i] == sorted[i]);
        }
    }
    if filter.sort is Percent && (forall|i: int|
        0 <= i < fs.len() ==> sort_percent(#[trigger] fs[i]).is_number()) || !(filter.sort
        is Percent) {
        // Only numbers occur, so the order among those that occur is that of a total order.
        let full = |a: FuncModel, b: FuncModel|
            match filter.sort {
                SortField::Percent => sort_percent(a).rank() <= sort_percent(b).rank(),
                SortField::Size => a.size <= b.size,
                SortField::Name => text_le(a.name, b.name),
            };
        assert(crate::order::is_rank(full)) by {
            crate::order::lemma_text_rank();
            let t = |a: Seq<char>, b: Seq<char>| text_le(a, b);
            assert forall|a: FuncModel, b: FuncModel| #[trigger] full(a, b) || full(b, a) by {
                assert(t(a.name, b.name) || t(b.name, a.name));
            }
            assert forall|a: FuncModel, b: FuncModel, c: FuncModel| #[trigger]
                full(a, b) && #[trigger] full(b, c) implies full(a, c) by {
                assert(t(a.name, b.name) && t(b.name, c.name) ==> t(a.name, c.name));
            }
        }
        assert forall|i: int| 0 <= i < kept.len() && filter.sort is Percent implies sort_percent(
            #[trigger] kept[i],
        ).is_number() by {
            assert(kept.contains(kept[i]));
            let k = fs.index_of(kept[i]);
            assert(fs[k] == kept[i]);
        }
        lemma_sorted_same(kept, le, full);
        crate::order::lemma_sorted_by(kept, full);
        assert forall|i: int, j: int| 0 <= i < j < out.len() implies if filter.order is Asc {
            func_le(filter.sort, #[trigger] out[i], #[trigger] out[j])
        } else {
            func_le(filter.sort, out[j], out[i])
        } by {
            let n = sorted.len() as int;
            if filter.order is Desc {
                assert(out[i] == sorted[n - 1 - i]);
                assert(out[j] == sorted[n - 1 - j]);
                assert(full(sorted[n - 1 - j], sorted[n - 1 - i]));
            } else {
                assert(out[i] == sorted[i]);
                assert(out[j] == sorted[j]);
                assert(full(sorted[i], sorted[j]));
            }
        }
    }
}

proof fn lemma_reverse_multiset(s: Seq<FuncModel>)
    ensures
        s.reverse().to_multiset() == s.to_multiset(),
    decreases s.len(),
{
    broadcast use vstd::seq_lib::group_to_multiset_ensures;

    if s.len() == 0 {
        assert(s.reverse() =~= s);
    } else {
        let init = s.drop_last();
        lemma_reverse_multiset(init);
        assert(s.reverse() =~= seq![s.last()] + init.reverse());
        assert(s =~= init.push(s.last()));
        vstd::seq_lib::lemma_multiset_commutative(seq![s.last()], init.reverse());
        assert(seq![s.last()] =~= Seq::<FuncModel>::empty().push(s.last()));
        assert(s.reverse().to_multiset() =~= s.to_multiset());
    }
}

proof fn lemma_passing(fs: Seq<FuncModel>, filter: FilterModel, n: int)
    requires
        0 <= n <= fs.len(),
    ensures
        forall|x: FuncModel| #[trigger]
            passing(fs, filter, n).contains(x) ==> fs.contains(x) && passes(x, filter),
    decreases n,
{
    if n > 0 {
        lemma_passing(fs, filter, n - 1);
        let p = passing(fs, filter, n - 1);
        let q = passing(fs, filter, n);
        assert forall|x: FuncModel| #[trigger] q.contains(x) implies fs.contains(x) && passes(
            x,
            filter,
        ) by {
            let k = q.index_of(x);
            if k < p.len() {
                assert(p[k] == x);
                assert(p.contains(x));
            } else {
                assert(x == fs[n - 1]);
            }
        }
    }
}

/// Two ranks that agree on what is sorted sort it in the same way.
proof fn lemma_sorted_same(
    s: Seq<FuncModel>,
    f: spec_fn(FuncModel, FuncModel) -> bool,
    g: spec_fn(FuncModel, FuncModel) -> bool,
)
    requires
        forall|i: int, j: int|
            0 <= i < s.len() && 0 <= j < s.len() ==> f(#[trigger] s[i], #[trigger] s[j]) == g(
                s[i],
                s[j],
            ),
    ensures
        sorted_by(s, f) == sorted_by(s, g),
    decreases s.len(),
{
    broadcast use vstd::seq_lib::group_to_multiset_ensures;

    if s.len() > 0 {
        let init = s.drop_last();
        lemma_sorted_same(init, f, g);
        let a = sorted_by(init, f);
        crate::order::lemma_sorted_by(init, f);
        assert forall|i: int| 0 <= i < a.len() implies f(#[trigger] a[i], s.last()) == g(
            a[i],
            s.last(),
        ) by {
            assert(a.contains(a[i]));
            assert(a.to_multiset().count(a[i]) > 0);
            assert(init.contains(a[i]));
            let k = init.index_of(a[i]);
            assert(s[k] == a[i]);
            assert(s[s.len() - 1] == s.last());
        }
        lemma_inserted_same(a, s.last(), f, g);
    }
}

proof fn lemma_inserted_same(
    a: Seq<FuncModel>,
    x: FuncModel,
    f: spec_fn(FuncModel, FuncModel) -> bool,
    g: spec_fn(FuncModel, FuncModel) -> bool,
)
    requires
        forall|i: int| 0 <= i < a.len() ==> f(#[trigger] a[i], x) == g(a[i], x),
    ensures
        crate::order::inserted(a, x, f) == crate::order::inserted(a, x, g),
    decreases a.len(),
{
    if a.len() > 0 {
        assert(a.last() == a[a.len() - 1]);
        assert forall|i: int| 0 <= i < a.drop_last().len() implies f(
            #[trigger] a.drop_last()[i],
            x,
        ) == g(a.drop_last()[i], x) by {
            assert(a.drop_last()[i] == a[i]);
        }
        lemma_inserted_same(a.drop_last(), x, f, g);
    }
}

// ---------------------------------------------------------------------------
// Functions in one build only
// ---------------------------------------------------------------------------

/// A filter without its percentages and without its limit.
pub open spec fn without_percents(filter: FilterModel) -> FilterModel {
    FilterModel { matched_only: false, min_percent: None, max_percent: None, limit: None, ..filter }
}

/// Those of the first `n` functions that have no percentage.
pub open spec fn unmatched(fs: Seq<FuncModel>, n: int) -> Seq<FuncModel>
    decreases n,
{
    if n <= 0 {
        Seq::empty()
    } else if fs[n - 1].percent is None {
        unmatched(fs, n - 1).push(fs[n - 1])
    } else {
        unmatched(fs, n - 1)
    }
}

/// The functions without a percentage among those that a filter lists, whatever their
/// number.
pub open spec fn all_orphans(fs: Seq<FuncModel>, filter: FilterModel) -> Seq<FuncModel> {
    let all = listed(fs, without_percents(filter));
    unmatched(all, all.len() as int)
}

/// The functions without a percentage that a filter lets pass, no more than the limit.
pub open spec fn orphans(fs: Seq<FuncModel>, filter: FilterModel) -> Seq<FuncModel> {
    let all = all_orphans(fs, filter);
    match filter.limit {
        Some(n) => if n < all.len() {
            all.take(n as int)
        } else {
            all
        },
        None => all,
    }
}

/// The functions that are in one build only, among those that a filter lets pass, sorted,
/// and no more than the limit; what the filter says of percentages does not count.
pub fn find_orphans<'a>(functions: &'a Vec<FuncEntry>, filter: &FuncFilter) -> (r: Vec<
    &'a FuncEntry,
>)
    ensures
        refs(r@) == orphans(views(functions@), filter@),
{
    let wide: FuncFilter = FuncFilter {
        unit_pattern: filter.unit_pattern,
        min_percent: None,
        max_percent: None,
        matched_only: false,
        min_size: filter.min_size,
        limit: None,
        sort: filter.sort,
        order: filter.order,
    };
    assert(wide@ == without_percents(filter@));
    let all: Vec<&'a FuncEntry> = filter_functions(functions, &wide);
    let ghost m = refs(all@);
    let mut r: Vec<&'a FuncEntry> = Vec::new();
    assert(refs(r@) =~= Seq::<FuncModel>::empty());
    let mut i: usize = 0;
    while i < all.len()
        invariant
            m == refs(all@),
            i <= all@.len(),
            refs(r@) == unmatched(m, i as int),
        decreases all.len() - i,
    {
        assert(m[i as int] == all@[i as int]@);
        if all[i].fuzzy_match_percent.is_none() {
            let ghost before = r@;
            r.push(all[i]);
            assert(refs(r@) =~= refs(before).push(m[i as int]));
        }
        i = i + 1;
    }
    if let Some(n) = filter.limit {
        if n < r.len() {
            let ghost before = r@;
            r.truncate(n);
            assert(refs(r@) =~= refs(before).take(n as int));
        }
    }
    r
}

proof fn lemma_unmatched(fs: Seq<FuncModel>, n: int)
    requires
        0 <= n <= fs.len(),
    ensures
        forall|x: FuncModel| #[trigger]
            unmatched(fs, n).contains(x) ==> fs.contains(x) && x.percent is None,
    decreases n,
{
    if n > 0 {
        lemma_unmatched(fs, n - 1);
        let p = unmatched(fs, n - 1);
        assert forall|x: FuncModel| #[trigger] unmatched(fs, n).contains(x) implies fs.contains(x)
            && x.percent is None by {
            lemma_push_has(p, fs[n - 1], x);
            assert(fs[n - 1] == fs[n - 1]);
        }
    }
}

/// What is told to be in one build only is a function of the report without a percentage
/// that the rest of the filter lets pass, and there are no more than the limit.
pub proof fn lemma_orphans(fs: Seq<FuncModel>, filter: FilterModel, x: FuncModel)
    requires
        orphans(fs, filter).contains(x),
    ensures
        fs.contains(x),
        x.percent is None,
        passes(x, without_percents(filter)),
        filter.limit is Some ==> orphans(fs, filter).len() <= filter.limit->0,
{
    let all = listed(fs, without_percents(filter));
    let o = orphans(fs, filter);
    let k = o.index_of(x);
    assert(all_orphans(fs, filter)[k] == x);
    assert(unmatched(all, all.len() as int).contains(x));
    lemma_unmatched(all, all.len() as int);
    lemma_listed(fs, without_percents(filter));
    let i = all.index_of(x);
    assert(all[i] == x);
}

proof fn lemma_unmatched_has(fs: Seq<FuncModel>, n: int, i: int)
    requires
        0 <= i < n <= fs.len(),
        fs[i].percent is None,
    ensures
        unmatched(fs, n).contains(fs[i]),
    decreases n,
{
    let p = unmatched(fs, n - 1);
    if i < n - 1 {
        lemma_unmatched_has(fs, n - 1, i);
    }
    if fs[n - 1].percent is None {
        lemma_push_has(p, fs[n - 1], fs[i]);
    }
}

proof fn lemma_passing_has(fs: Seq<FuncModel>, filter: FilterModel, n: int, i: int)
    requires
        0 <= i < n <= fs.len(),
        passes(fs[i], filter),
    ensures
        passing(fs, filter, n).contains(fs[i]),
    decreases n,
{
    let p = passing(fs, filter, n - 1);
    if i < n - 1 {
        lemma_passing_has(fs, filter, n - 1, i);
    }
    if passes(fs[n - 1], filter) {
        lemma_push_has(p, fs[n - 1], fs[i]);
    }
}

/// Where the limit is not reached, every function without a percentage that the rest of the
/// filter lets pass is told, whatever functions with a percentage stand before it.
pub proof fn lemma_orphans_are_complete(fs: Seq<FuncModel>, filter: FilterModel, x: FuncModel)
    requires
        filter.limit is Some ==> orphans(fs, filter).len() < filter.limit->0,
        fs.contains(x),
        x.percent is None,
        passes(x, without_percents(filter)),
    ensures
        orphans(fs, filter).contains(x),
{
    broadcast use vstd::seq_lib::group_to_multiset_ensures;

    let wide = without_percents(filter);
    let all = listed(fs, wide);
    let kept = passing(fs, wide, fs.len() as int);
    let i = fs.index_of(x);
    lemma_passing_has(fs, wide, fs.len() as int, i);
    lemma_listed(fs, wide);
    assert(kept.to_multiset().count(x) > 0);
    assert(all.to_multiset().count(x) > 0);
    assert(all.contains(x));
    let k = all.index_of(x);
    lemma_unmatched_has(all, all.len() as int, k);
}

/// How many functions have a percentage.
pub open spec fn matched_count(fs: Seq<FuncModel>, n: int) -> nat
    decreases n,
{
    if n <= 0 {
        0
    } else {
        matched_count(fs, n - 1) + if fs[n - 1].percent is Some {
            1nat
        } else {
            0
        }
    }
}

/// How many functions have a percentage.
pub fn count_matched(functions: &Vec<FuncEntry>) -> (r: usize)
    ensures
        r == matched_count(views(functions@), functions@.len() as int),
        r <= functions@.len(),
{
    let ghost m = views(functions@);
    let mut n: usize = 0;
    let mut i: usize = 0;
    while i < functions.len()
        invariant
            m == views(functions@),
            i <= functions@.len(),
            n <= i,
            n == matched_count(m, i as int),
        decreases functions.len() - i,
    {
        assert(m[i as int] == functions@[i as int]@);
        if functions[i].fuzzy_match_percent.is_some() {
            n = n + 1;
        }
        i = i + 1;
    }
    n
}

// ---------------------------------------------------------------------------
// The index of a build
// ---------------------------------------------------------------------------

/// A function of the index, as far as it is needed here.
#[derive(Debug)]
pub struct IndexEntry {
    pub mangled: String,
    pub name: String,
    pub rva: u32,
    pub size: u32,
    pub file: String,
}

/// A function of the index, as a model.
pub struct IndexModel {
    pub mangled: Seq<char>,
    pub name: Seq<char>,
    pub rva: u32,
    pub size: u32,
    pub file: Seq<char>,
}

impl View for IndexEntry {
    type V = IndexModel;

    open spec fn view(&self) -> IndexModel {
        IndexModel {
            mangled: self.mangled@,
            name: self.name@,
            rva: self.rva,
            size: self.size,
            file: self.file@,
        }
    }
}

impl IndexEntry {
    /// A copy of the entry.
    pub fn copy(&self) -> (r: IndexEntry)
        ensures
            r@ == self@,
    {
        IndexEntry {
            mangled: owned(self.mangled.as_str()),
            name: owned(self.name.as_str()),
            rva: self.rva,
            size: self.size,
            file: owned(self.file.as_str()),
        }
    }
}

/// The functions of an index by their mangled names.
pub struct MangledIndex {
    pub entries: Vec<IndexEntry>,
}

/// Where a mangled name stands among some entries, from `i` on.
pub open spec fn entry_from(s: Seq<IndexModel>, mangled: Seq<char>, i: int) -> Option<int>
    decreases s.len() - i,
{
    if i < 0 || i >= s.len() {
        None
    } else if s[i].mangled == mangled {
        Some(i)
    } else {
        entry_from(s, mangled, i + 1)
    }
}

proof fn lemma_entry_from(s: Seq<IndexModel>, mangled: Seq<char>, i: int)
    requires
        0 <= i,
    ensures
        match entry_from(s, mangled, i) {
            Some(k) => i <= k < s.len() && s[k].mangled == mangled && forall|j: int|
                i <= j < k ==> (#[trigger] s[j]).mangled != mangled,
            None => forall|j: int| i <= j < s.len() ==> (#[trigger] s[j]).mangled != mangled,
        },
    decreases s.len() - i,
{
    if i < s.len() && s[i].mangled != mangled {
        lemma_entry_from(s, mangled, i + 1);
    }
}

/// What an index holds of a mangled name.
pub open spec fn entry_for(s: Seq<IndexModel>, mangled: Seq<char>) -> Option<IndexModel> {
    match entry_from(s, mangled, 0) {
        Some(i) => Some(s[i]),
        None => None,
    }
}

impl View for MangledIndex {
    type V = Seq<IndexModel>;

    open spec fn view(&self) -> Seq<IndexModel> {
        views(self.entries@)
    }
}

impl MangledIndex {
    /// No mangled name occurs twice.
    pub open spec fn wf(self) -> bool {
        forall|i: int, j: int|
            0 <= i < j < self@.len() ==> (#[trigger] self@[i]).mangled != (
            #[trigger] self@[j]).mangled
    }

    /// An index without functions.
    pub fn new() -> (r: MangledIndex)
        ensures
            r.wf(),
            r@ == Seq::<IndexModel>::empty(),
    {
        let r: MangledIndex = MangledIndex { entries: Vec::new() };
        assert(r@ =~= Seq::<IndexModel>::empty());
        r
    }

    fn position(&self, mangled: &str) -> (r: Option<usize>)
        ensures
            match r {
                Some(i) => entry_from(self@, mangled@, 0) == Some(i as int) && i
                    < self.entries@.len(),
                None => entry_from(self@, mangled@, 0) is None,
            },
    {
        let mut i: usize = 0;
        while i < self.entries.len()
            invariant
                i <= self.entries@.len(),
                entry_from(self@, mangled@, 0) == entry_from(self@, mangled@, i as int),
            decreases self.entries.len() - i,
        {
            assert(self@[i as int] == self.entries@[i as int]@);
            if same(self.entries[i].mangled.as_str(), mangled) {
                return Some(i);
            }
            i = i + 1;
        }
        None
    }

    /// What the index holds of a mangled name.
    pub fn get(&self, mangled: &str) -> (r: Option<&IndexEntry>)
        ensures
            match r {
                Some(e) => entry_for(self@, mangled@) == Some(e@),
                None => entry_for(self@, mangled@) is None,
            },
    {
        match self.position(mangled) {
            Some(i) => Some(&self.entries[i]),
            None => None,
        }
    }

    /// Takes a function in, in place of one that has its mangled name.
    pub fn insert(&mut self, entry: IndexEntry)
        requires
            old(self).wf(),
        ensures
            final(self).wf(),
            entry_for(final(self)@, entry@.mangled) == Some(entry@),
            forall|m: Seq<char>|
                m != entry@.mangled ==> #[trigger] entry_for(final(self)@, m) == entry_for(
                    old(self)@,
                    m,
                ),
    {
        let ghost before = self@;
        let ghost x = entry@;
        proof {
            lemma_entry_from(before, x.mangled, 0);
        }
        match self.position(entry.mangled.as_str()) {
            Some(i) => {
                self.entries.set(i, entry);
                proof {
                    let after = self@;
                    assert(after =~= before.update(i as int, x));
                    lemma_entry_from(after, x.mangled, 0);
                    assert forall|m: Seq<char>| m != x.mangled implies #[trigger] entry_for(
                        after,
                        m,
                    ) == entry_for(before, m) by {
                        lemma_entry_from(after, m, 0);
                        lemma_entry_from(before, m, 0);
                        match entry_from(before, m, 0) {
                            Some(k) => {
                                assert(after[k] == before[k]);
                            },
                            None => {},
                        }
                        match entry_from(after, m, 0) {
                            Some(k) => {
                                assert(after[k] == before[k]);
                            },
                            None => {},
                        }
                    }
                    assert(after[i as int] == x);
                }
            },
            None => {
                self.entries.push(entry);
                proof {
                    let after = self@;
                    assert(after =~= before.push(x));
                    lemma_entry_from(after, x.mangled, 0);
                    assert(after[before.len() as int] == x);
                    assert(forall|k: int|
                        0 <= k < before.len() ==> #[trigger] after[k] == before[k]);
                    assert forall|m: Seq<char>| m != x.mangled implies #[trigger] entry_for(
                        after,
                        m,
                    ) == entry_for(before, m) by {
                        lemma_entry_from(after, m, 0);
                        lemma_entry_from(before, m, 0);
                        match entry_from(before, m, 0) {
                            Some(k) => {
                                assert(after[k] == before[k]);
                            },
                            None => {},
                        }
                        match entry_from(after, m, 0) {
                            Some(k) => {
                                assert(after[k] == before[k]);
                            },
                            None => {},
                        }
                    }
                }
            },
        }
    }
}

/// A function with what an index says of it.
pub open spec fn enriched(f: FuncModel, index: Seq<IndexModel>) -> FuncModel {
    match entry_for(index, f.name) {
        Some(e) => FuncModel { demangled: Some(e.name), enriched: Some((e.rva, e.file)), ..f },
        None => f,
    }
}

/// Gives each function what the index says of it, by mangled name.
pub fn enrich(functions: &mut Vec<FuncEntry>, index: &MangledIndex)
    ensures
        views(final(functions)@) == views(old(functions)@).map_values(
            |f: FuncModel| enriched(f, index@),
        ),
{
    let ghost before = views(functions@);
    let n: usize = functions.len();
    let mut i: usize = 0;
    while i < n
        invariant
            n == functions@.len(),
            before == views(old(functions)@),
            before.len() == n,
            i <= n,
            forall|k: int|
                0 <= k < i ==> (#[trigger] functions@[k])@ == enriched(before[k], index@),
            forall|k: int| i <= k < n ==> (#[trigger] functions@[k])@ == before[k],
        decreases n - i,
    {
        let found: Option<&IndexEntry> = index.get(functions[i].name.as_str());
        if let Some(e) = found {
            let f: FuncEntry = FuncEntry {
                name: owned(functions[i].name.as_str()),
                demangled: Some(owned(e.name.as_str())),
                unit: owned(functions[i].unit.as_str()),
                size: functions[i].size,
                fuzzy_match_percent: functions[i].fuzzy_match_percent,
                address: functions[i].address,
                enriched: Some(IndexEnrichment { rva: e.rva, file: owned(e.file.as_str()) }),
            };
            assert(functions@[i as int]@ == before[i as int]);
            assert(f@ == enriched(before[i as int], index@));
            functions.set(i, f);
        } else {
            assert(functions@[i as int]@ == before[i as int]);
        }
        i = i + 1;
    }
    assert(views(functions@) =~= before.map_values(|f: FuncModel| enriched(f, index@)));
}

/// Whether a function has a mangled name.
pub open spec fn names_function(fs: Seq<FuncModel>, mangled: Seq<char>) -> bool {
    exists|i: int| 0 <= i < fs.len() && (#[trigger] fs[i]).name == mangled
}

/// The mangled names of some functions, in order and each once.
pub open spec fn mangled_names(fs: Seq<FuncModel>) -> Seq<Seq<char>> {
    sorted_once(fs.map_values(|f: FuncModel| f.name))
}

/// The mangled names of some functions, in order and each once.
pub fn mangled_set(functions: &Vec<FuncEntry>) -> (r: Vec<String>)
    ensures
        texts(r@) == mangled_names(views(functions@)),
        texts(r@).no_duplicates(),
        forall|m: Seq<char>| #[trigger]
            texts(r@).contains(m) == names_function(views(functions@), m),
{
    let ghost fs = views(functions@);
    let ghost names = fs.map_values(|f: FuncModel| f.name);
    let mut r: Vec<String> = Vec::new();
    assert(texts(r@) =~= sorted_once(names.take(0)));
    let mut i: usize = 0;
    while i < functions.len()
        invariant
            fs == views(functions@),
            names == fs.map_values(|f: FuncModel| f.name),
            i <= functions@.len(),
            texts(r@) == sorted_once(names.take(i as int)),
        decreases functions.len() - i,
    {
        assert(fs[i as int] == functions@[i as int]@);
        assert(names.take(i + 1).drop_last() =~= names.take(i as int));
        assert(names.take(i + 1).last() == functions@[i as int].name@);
        insert_once(&mut r, owned(functions[i].name.as_str()));
        i = i + 1;
    }
    assert(names.take(i as int) =~= names);
    proof {
        crate::order::lemma_sorted_once(names);
        assert forall|m: Seq<char>| #[trigger]
            sorted_once(names).contains(m) == names_function(fs, m) by {
            if names.contains(m) {
                let k = names.index_of(m);
                assert(fs[k].name == m);
            }
            if names_function(fs, m) {
                let k = choose|k: int| 0 <= k < fs.len() && (#[trigger] fs[k]).name == m;
                assert(names[k] == m);
            }
        }
    }
    r
}

/// Those of the first `n` entries whose mangled names are not among some names.
pub open spec fn entries_absent(s: Seq<IndexModel>, names: Seq<Seq<char>>, n: int) -> Seq<
    IndexModel,
>
    decreases n,
{
    if n <= 0 {
        Seq::empty()
    } else if names.contains(s[n - 1].mangled) {
        entries_absent(s, names, n - 1)
    } else {
        entries_absent(s, names, n - 1).push(s[n - 1])
    }
}

/// The entries of an index whose mangled names are not among some names, in their order.
pub open spec fn absent(s: Seq<IndexModel>, names: Seq<Seq<char>>) -> Seq<IndexModel> {
    sorted_by(
        entries_absent(s, names, s.len() as int),
        |a: IndexModel, b: IndexModel| text_le(a.mangled, b.mangled),
    )
}

impl Ranked for IndexEntry {
    open spec fn before(a: IndexModel, b: IndexModel) -> bool {
        text_le(a.mangled, b.mangled)
    }

    fn is_before(&self, other: &Self) -> (r: bool) {
        is_le(self.mangled.as_str(), other.mangled.as_str())
    }
}

/// The entries of an index whose mangled names the report does not have, by mangled name.
pub fn cross_ref_orphans(report_mangled: &Vec<String>, index: &MangledIndex) -> (r: Vec<IndexEntry>)
    ensures
        views(r@) == absent(index@, texts(report_mangled@)),
{
    let ghost s = index@;
    let ghost names = texts(report_mangled@);
    let mut v: Vec<IndexEntry> = Vec::new();
    assert(views(v@) =~= Seq::<IndexModel>::empty());
    let mut i: usize = 0;
    while i < index.entries.len()
        invariant
            s == index@,
            names == texts(report_mangled@),
            i <= index.entries@.len(),
            views(v@) == entries_absent(s, names, i as int),
        decreases index.entries.len() - i,
    {
        assert(s[i as int] == index.entries@[i as int]@);
        if !has_text(report_mangled, &index.entries[i].mangled) {
            let e: IndexEntry = index.entries[i].copy();
            let ghost before = v@;
            let ghost m = e@;
            v.push(e);
            assert(views(v@) =~= views(before).push(m));
        }
        i = i + 1;
    }
    assert(rank_of::<IndexEntry>() =~= (|a: IndexModel, b: IndexModel|
        text_le(a.mangled, b.mangled)));
    sort_stable(v)
}

/// The entries of the indexes that the report does not have, where there are indexes.
pub struct IndexOnlyOrphans {
    pub base: Option<Vec<IndexEntry>>,
    pub target: Option<Vec<IndexEntry>>,
}

/// Whether some entries are those of an index whose mangled names no function has, in their
/// order.
pub open spec fn are_absent(
    found: Option<Vec<IndexEntry>>,
    index: Option<&MangledIndex>,
    fs: Seq<FuncModel>,
) -> bool {
    match (found, index) {
        (Some(v), Some(i)) => views(v@) == absent(i@, mangled_names(fs)),
        (None, None) => true,
        _ => false,
    }
}

fn absent_from(names: &Vec<String>, index: Option<&MangledIndex>) -> (r: Option<Vec<IndexEntry>>)
    ensures
        match (r, index) {
            (Some(v), Some(i)) => views(v@) == absent(i@, texts(names@)),
            (None, None) => true,
            _ => false,
        },
{
    match index {
        None => None,
        Some(i) => Some(cross_ref_orphans(names, i)),
    }
}

/// The entries of the indexes that the report does not have.
pub fn index_only_orphans(
    functions: &Vec<FuncEntry>,
    base: Option<&MangledIndex>,
    target: Option<&MangledIndex>,
) -> (r: IndexOnlyOrphans)
    ensures
        are_absent(r.base, base, views(functions@)),
        are_absent(r.target, target, views(functions@)),
{
    let names: Vec<String> = mangled_set(functions);
    IndexOnlyOrphans { base: absent_from(&names, base), target: absent_from(&names, target) }
}

/// An entry of the index is told to be absent exactly where no function of the report has
/// its mangled name.
pub proof fn lemma_absent(s: Seq<IndexModel>, names: Seq<Seq<char>>)
    ensures
        forall|e: IndexModel| #[trigger]
            absent(s, names).contains(e) == (s.contains(e) && !names.contains(e.mangled)),
{
    broadcast use vstd::seq_lib::group_to_multiset_ensures;

    let le = |a: IndexModel, b: IndexModel| text_le(a.mangled, b.mangled);
    let kept = entries_absent(s, names, s.len() as int);
    crate::order::lemma_sorted_by(kept, le);
    lemma_entries_absent(s, names, s.len() as int);
    assert(s.take(s.len() as int) =~= s);
    let all = absent(s, names);
    assert forall|e: IndexModel| #[trigger]
        all.contains(e) == (s.contains(e) && !names.contains(e.mangled)) by {
        assert(all.contains(e) == (all.to_multiset().count(e) > 0));
        assert(kept.contains(e) == (kept.to_multiset().count(e) > 0));
    }
}

proof fn lemma_entries_absent(s: Seq<IndexModel>, names: Seq<Seq<char>>, n: int)
    requires
        0 <= n <= s.len(),
    ensures
        forall|e: IndexModel| #[trigger]
            entries_absent(s, names, n).contains(e) == (s.take(n).contains(e) && !names.contains(
                e.mangled,
            )),
    decreases n,
{
    if n > 0 {
        lemma_entries_absent(s, names, n - 1);
        let p = entries_absent(s, names, n - 1);
        let q = entries_absent(s, names, n);
        let x = s[n - 1];
        assert(s.take(n) =~= s.take(n - 1).push(x));
        assert forall|e: IndexModel| #[trigger]
            q.contains(e) == (s.take(n).contains(e) && !names.contains(e.mangled)) by {
            assert(p.contains(e) == (s.take(n - 1).contains(e) && !names.contains(e.mangled)));
            lemma_push_has(s.take(n - 1), x, e);
            lemma_push_has(p, x, e);
        }
    }
}

} // verus!
