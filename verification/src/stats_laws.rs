//! What holds of the statistics of a report.

use crate::field_attributes::lemma_number_of_prefix;
use crate::number::dec;
use crate::order::{lemma_sorted_once, sorted_once, text_le};
use crate::parts::{holds, lemma_holds_piece, lemma_holds_within};
use crate::report_stats::{digits_in, enriched, entry_from, entry_of, flattened, func_le,
    lemma_listed, lemma_orphans, listed, number_in, orphans, passes, passing, sort_percent,
    with_functions, FilterModel, FuncModel, IndexModel, Percent, RawFunction, RawUnit};
use crate::search::contains;
use crate::stats_summary::{all_bytes, bucket_bytes, bucket_name, counts, in_bucket,
    lemma_ranges_are_apart, lemma_ranges_cover, unit_summaries, unit_summary, unit_totals, units_of,
    BUCKETS};
use crate::stats_tables::{any_demangled, any_enriched, list_head, list_row, list_rows, list_table};
use crate::type_builder::opt;
use vstd::prelude::*;

verus! {

// ---------------------------------------------------------------------------
// Percentages
// ---------------------------------------------------------------------------

/// Percentages that are not negative are ordered as their bits are, up to infinity, and what
/// is beyond it is no number and is ordered with none. Those with a sign stand below and in
/// reverse.
pub proof fn lemma_percentages_are_ordered(a: Percent, b: Percent)
    ensures
        a.bits <= 0x7ff0_0000_0000_0000 && b.bits <= 0x7ff0_0000_0000_0000 ==> (a.at_least(b)
            <==> a.bits >= b.bits) && (a.above(b) <==> a.bits > b.bits),
        0x7ff0_0000_0000_0000 < a.bits < 0x8000_0000_0000_0000 || a.bits > 0xfff0_0000_0000_0000
            ==> !a.at_least(b) && !b.at_least(a) && !a.above(b) && !b.above(a),
        0x8000_0000_0000_0000 < a.bits <= 0xfff0_0000_0000_0000 && b.bits <= 0x7ff0_0000_0000_0000
            ==> b.above(a) && !a.at_least(b),
        0x8000_0000_0000_0000 <= a.bits <= 0xfff0_0000_0000_0000 && 0x8000_0000_0000_0000 <= b.bits
            <= 0xfff0_0000_0000_0000 ==> (a.at_least(b) <==> a.bits <= b.bits),
{
}

// ---------------------------------------------------------------------------
// Lists
// ---------------------------------------------------------------------------

/// Whether a function is one that is asked for: with a percentage where one is asked for, not
/// below the least nor above the greatest, not smaller than the least size, and of a unit whose
/// name holds the pattern.
pub open spec fn is_asked_for(f: FuncModel, filter: FilterModel) -> bool {
    &&& filter.matched_only ==> f.percent is Some
    &&& filter.min_percent matches Some(least) ==> (f.percent matches Some(p) && p.at_least(least))
    &&& filter.max_percent matches Some(most) ==> (f.percent matches Some(p) && most.at_least(p))
    &&& filter.min_size matches Some(n) ==> f.size >= n
    &&& filter.unit_pattern matches Some(p) ==> contains(f.unit, p)
}

proof fn lemma_passing_has(fs: Seq<FuncModel>, filter: FilterModel, n: int)
    requires
        0 <= n <= fs.len(),
    ensures
        forall|k: int|
            0 <= k < n && is_asked_for(#[trigger] fs[k], filter) ==> passing(
                fs,
                filter,
                n,
            ).contains(fs[k]),
    decreases n,
{
    if n > 0 {
        lemma_passing_has(fs, filter, n - 1);
        let before = passing(fs, filter, n - 1);
        let all = passing(fs, filter, n);
        assert forall|k: int| 0 <= k < n && is_asked_for(#[trigger] fs[k], filter) implies
            all.contains(fs[k]) by {
            if k < n - 1 {
                assert(before.contains(fs[k]));
                let j = before.index_of(fs[k]);
                assert(all[j] == fs[k]);
            } else {
                assert(all[before.len() as int] == fs[k]);
            }
        }
    }
}

/// What is listed are functions that are asked for, and where there is no limit all of them
/// are. They stand by size, by name or by percentage, rising or falling.
pub proof fn lemma_list_is_what_is_asked_for(fs: Seq<FuncModel>, filter: FilterModel)
    ensures
        forall|i: int|
            0 <= i < listed(fs, filter).len() ==> fs.contains(#[trigger] listed(fs, filter)[i])
                && is_asked_for(listed(fs, filter)[i], filter),
        filter.limit matches Some(n) ==> listed(fs, filter).len() <= n,
        filter.limit is None ==> forall|k: int|
            0 <= k < fs.len() && is_asked_for(#[trigger] fs[k], filter) ==> listed(
                fs,
                filter,
            ).contains(fs[k]),
        forall|i: int, j: int|
            0 <= i < j < listed(fs, filter).len() ==> {
                let a = #[trigger] listed(fs, filter)[i];
                let b = #[trigger] listed(fs, filter)[j];
                &&& filter.sort is Size && filter.order is Asc ==> a.size <= b.size
                &&& filter.sort is Size && filter.order is Desc ==> a.size >= b.size
                &&& filter.sort is Name && filter.order is Asc ==> text_le(a.name, b.name)
                &&& filter.sort is Name && filter.order is Desc ==> text_le(b.name, a.name)
            },
        (forall|k: int|
            0 <= k < fs.len() ==> ((#[trigger] fs[k]).percent matches Some(p) ==> p.bits
                <= 0x7ff0_0000_0000_0000)) && filter.sort is Percent ==> forall|i: int, j: int|
            0 <= i < j < listed(fs, filter).len() ==> {
                let a = #[trigger] listed(fs, filter)[i];
                let b = #[trigger] listed(fs, filter)[j];
                &&& filter.order is Asc && b.percent is None ==> a.percent is None
                &&& filter.order is Desc && a.percent is None ==> b.percent is None
                &&& filter.order is Asc && a.percent is Some ==> b.percent is Some
                    && a.percent->0.bits <= b.percent->0.bits
                &&& filter.order is Desc && b.percent is Some ==> a.percent is Some
                    && a.percent->0.bits >= b.percent->0.bits
            },
{
    broadcast use vstd::seq_lib::group_to_multiset_ensures;

    let out = listed(fs, filter);
    lemma_listed(fs, filter);
    assert forall|i: int| 0 <= i < out.len() implies fs.contains(#[trigger] out[i]) && is_asked_for(
        out[i],
        filter,
    ) by {
        assert(passes(out[i], filter));
    }
    if filter.limit is None {
        lemma_passing_has(fs, filter, fs.len() as int);
        assert forall|k: int| 0 <= k < fs.len() && is_asked_for(#[trigger] fs[k], filter) implies
            out.contains(fs[k]) by {
            let kept = passing(fs, filter, fs.len() as int);
            assert(kept.contains(fs[k]));
            assert(kept.to_multiset().count(fs[k]) > 0);
            assert(out.to_multiset().count(fs[k]) > 0);
        }
    }
    if (forall|k: int|
        0 <= k < fs.len() ==> ((#[trigger] fs[k]).percent matches Some(p) ==> p.bits
            <= 0x7ff0_0000_0000_0000)) && filter.sort is Percent {
        assert forall|k: int| 0 <= k < fs.len() implies sort_percent(
            #[trigger] fs[k],
        ).is_number() by {}
        assert forall|i: int, j: int| 0 <= i < j < out.len() implies {
            let a = #[trigger] out[i];
            let b = #[trigger] out[j];
            &&& filter.order is Asc && b.percent is None ==> a.percent is None
            &&& filter.order is Desc && a.percent is None ==> b.percent is None
            &&& filter.order is Asc && a.percent is Some ==> b.percent is Some
                && a.percent->0.bits <= b.percent->0.bits
            &&& filter.order is Desc && b.percent is Some ==> a.percent is Some
                && a.percent->0.bits >= b.percent->0.bits
        } by {
            let a = out[i];
            let b = out[j];
            let ka = fs.index_of(a);
            let kb = fs.index_of(b);
            assert(fs[ka] == a && fs[kb] == b);
            if filter.order is Asc {
                assert(func_le(filter.sort, a, b));
            } else {
                assert(func_le(filter.sort, b, a));
            }
        }
    }
    assert forall|i: int, j: int| 0 <= i < j < out.len() implies {
        let a = #[trigger] out[i];
        let b = #[trigger] out[j];
        &&& filter.sort is Size && filter.order is Asc ==> a.size <= b.size
        &&& filter.sort is Size && filter.order is Desc ==> a.size >= b.size
        &&& filter.sort is Name && filter.order is Asc ==> text_le(a.name, b.name)
        &&& filter.sort is Name && filter.order is Desc ==> text_le(b.name, a.name)
    } by {
        if !(filter.sort is Percent) {
            if filter.order is Asc {
                assert(func_le(filter.sort, out[i], out[j]));
            } else {
                assert(func_le(filter.sort, out[j], out[i]));
            }
        }
    }
}

/// A function that is told to be in one build only has no percentage, is not smaller than the
/// least size, and is of a unit whose name holds the pattern.
pub proof fn lemma_orphan_is_asked_for(fs: Seq<FuncModel>, filter: FilterModel, x: FuncModel)
    requires
        orphans(fs, filter).contains(x),
    ensures
        fs.contains(x),
        x.percent is None,
        filter.min_size matches Some(n) ==> x.size >= n,
        filter.unit_pattern matches Some(p) ==> contains(x.unit, p),
{
    lemma_orphans(fs, filter, x);
}

// ---------------------------------------------------------------------------
// Units and functions as they are read
// ---------------------------------------------------------------------------

/// Whether a function is what a report says of it.
pub open spec fn is_read(m: FuncModel, unit: Seq<char>, f: RawFunction) -> bool {
    &&& m.name == f.name@
    &&& m.unit == unit
    &&& m.percent == f.fuzzy_match_percent
    &&& m.demangled == opt(f.demangled_name)
    &&& m.enriched is None
    &&& number_in(f.size@) == Some(m.size as int)
    &&& number_in(f.address@) == Some(m.address as int)
}

proof fn lemma_number_is_read(s: Seq<char>)
    ensures
        number_in(s) matches Some(n) ==> 0 <= n <= u64::MAX,
{
    let d = digits_in(s);
    if number_in(s) is Some {
        lemma_number_of_prefix(d, d.len() as int);
        assert(d.take(d.len() as int) =~= d);
    }
}

proof fn lemma_with_functions(so_far: Seq<FuncModel>, unit: RawUnit, n: int)
    requires
        0 <= n <= unit.functions@.len(),
    ensures
        match with_functions(so_far, unit, n) {
            Ok(v) => {
                &&& v.len() == so_far.len() + n
                &&& forall|k: int| 0 <= k < so_far.len() ==> #[trigger] v[k] == so_far[k]
                &&& forall|k: int|
                    0 <= k < n ==> is_read(
                        v[so_far.len() + k],
                        unit.name@,
                        #[trigger] unit.functions@[k],
                    )
            },
            Err(_) => exists|k: int|
                0 <= k < n && (number_in((#[trigger] unit.functions@[k]).size@) is None
                    || number_in(unit.functions@[k].address@) is None),
        },
    decreases n,
{
    if n > 0 {
        lemma_with_functions(so_far, unit, n - 1);
        let f = unit.functions@[n - 1];
        match with_functions(so_far, unit, n - 1) {
            Ok(v) => {
                match entry_of(unit.name@, f) {
                    Ok(x) => {
                        let w = v.push(x);
                        lemma_number_is_read(f.size@);
                        lemma_number_is_read(f.address@);
                        assert forall|k: int| 0 <= k < n implies is_read(
                            w[so_far.len() + k],
                            unit.name@,
                            #[trigger] unit.functions@[k],
                        ) by {
                            if k < n - 1 {
                                assert(w[so_far.len() + k] == v[so_far.len() + k]);
                            }
                        }
                    },
                    Err(_) => {
                        assert(number_in(unit.functions@[n - 1].size@) is None || number_in(
                            unit.functions@[n - 1].address@,
                        ) is None);
                    },
                }
            },
            Err(_) => {},
        }
    }
}

/// How many functions the first `n` units have.
pub open spec fn function_count(units: Seq<RawUnit>, n: int) -> nat
    decreases n,
{
    if n <= 0 {
        0
    } else {
        function_count(units, n - 1) + units[n - 1].functions@.len()
    }
}

/// A report that can be read gives all its functions, in order, each with its unit, its name,
/// its percentage, and its size and address as the numbers that their texts spell.
pub proof fn lemma_report_is_read_whole(units: Seq<RawUnit>, n: int)
    requires
        0 <= n <= units.len(),
    ensures
        flattened(units, n) matches Ok(v) ==> v.len() == function_count(units, n) && forall|
            u: int,
            k: int,
        |
            0 <= u < n && 0 <= k < units[u].functions@.len() ==> is_read(
                v[function_count(units, u) + k],
                units[u].name@,
                #[trigger] units[u].functions@[k],
            ),
    decreases n,
{
    if n > 0 {
        lemma_report_is_read_whole(units, n - 1);
        if let Ok(v) = flattened(units, n - 1) {
            let unit = units[n - 1];
            lemma_with_functions(v, unit, unit.functions@.len() as int);
            if let Ok(w) = flattened(units, n) {
                assert forall|u: int, k: int|
                    0 <= u < n && 0 <= k < units[u].functions@.len() implies is_read(
                    w[function_count(units, u) + k],
                    units[u].name@,
                    #[trigger] units[u].functions@[k],
                ) by {
                    if u < n - 1 {
                        lemma_counts_rise(units, u + 1, n - 1);
                        assert(w[function_count(units, u) + k] == v[function_count(units, u) + k]);
                    }
                }
            }
        }
    }
}

proof fn lemma_counts_rise(units: Seq<RawUnit>, m: int, n: int)
    requires
        0 <= m <= n,
    ensures
        function_count(units, m) <= function_count(units, n),
    decreases n - m,
{
    if m < n {
        lemma_counts_rise(units, m, n - 1);
    }
}

// ---------------------------------------------------------------------------
// The index
// ---------------------------------------------------------------------------

proof fn lemma_entry_at(s: Seq<IndexModel>, i: int, from: int)
    requires
        0 <= from <= i < s.len(),
        forall|j: int, k: int|
            0 <= j < k < s.len() ==> (#[trigger] s[j]).mangled != (#[trigger] s[k]).mangled,
    ensures
        entry_from(s, s[i].mangled, from) == Some(i),
    decreases i - from,
{
    if from < i {
        assert(s[from].mangled != s[i].mangled);
        lemma_entry_at(s, i, from + 1);
    }
}

proof fn lemma_entry_none(s: Seq<IndexModel>, mangled: Seq<char>, from: int)
    requires
        0 <= from,
        forall|j: int| 0 <= j < s.len() ==> (#[trigger] s[j]).mangled != mangled,
    ensures
        entry_from(s, mangled, from) is None,
    decreases s.len() - from,
{
    if from < s.len() {
        lemma_entry_none(s, mangled, from + 1);
    }
}

/// A function that the index has takes the index's name for its signature, and its address
/// and file; one that it lacks stays as it is. No mangled name may occur twice in the index.
pub proof fn lemma_index_enriches(f: FuncModel, index: Seq<IndexModel>)
    requires
        forall|j: int, k: int|
            0 <= j < k < index.len() ==> (#[trigger] index[j]).mangled != (
            #[trigger] index[k]).mangled,
    ensures
        forall|i: int|
            0 <= i < index.len() && (#[trigger] index[i]).mangled == f.name ==> enriched(f, index)
                == (FuncModel {
                demangled: Some(index[i].name),
                enriched: Some((index[i].rva, index[i].file)),
                ..f
            }),
        (forall|i: int| 0 <= i < index.len() ==> (#[trigger] index[i]).mangled != f.name)
            ==> enriched(f, index) == f,
{
    assert forall|i: int| 0 <= i < index.len() && (#[trigger] index[i]).mangled == f.name implies
        enriched(f, index) == (FuncModel {
        demangled: Some(index[i].name),
        enriched: Some((index[i].rva, index[i].file)),
        ..f
    }) by {
        lemma_entry_at(index, i, 0);
    }
    if forall|i: int| 0 <= i < index.len() ==> (#[trigger] index[i]).mangled != f.name {
        lemma_entry_none(index, f.name, 0);
    }
}

// ---------------------------------------------------------------------------
// Summaries
// ---------------------------------------------------------------------------

/// How many bytes those of the first `n` functions have that are in the first `k` ranges.
pub open spec fn ranges_bytes(
    fs: Seq<FuncModel>,
    pattern: Option<Seq<char>>,
    k: int,
    n: int,
) -> nat
    decreases k,
{
    if k <= 0 {
        0
    } else {
        ranges_bytes(fs, pattern, k - 1, n) + bucket_bytes(fs, pattern, k - 1, n)
    }
}

proof fn lemma_bytes_step(fs: Seq<FuncModel>, pattern: Option<Seq<char>>, k: int, n: int, b: int)
    requires
        0 < n <= fs.len(),
        0 <= k <= BUCKETS,
        in_bucket(fs[n - 1], b),
    ensures
        ranges_bytes(fs, pattern, k, n) == ranges_bytes(fs, pattern, k, n - 1) + if counts(
            fs[n - 1],
            pattern,
        ) && b < k {
            fs[n - 1].size as nat
        } else {
            0
        },
    decreases k,
{
    if k > 0 {
        lemma_bytes_step(fs, pattern, k - 1, n, b);
        if in_bucket(fs[n - 1], k - 1) {
            lemma_ranges_are_apart(fs[n - 1], k - 1, b);
        }
    }
}

proof fn lemma_no_bytes(fs: Seq<FuncModel>, pattern: Option<Seq<char>>, k: int)
    requires
        0 <= k,
    ensures
        ranges_bytes(fs, pattern, k, 0) == 0,
    decreases k,
{
    if k > 0 {
        lemma_no_bytes(fs, pattern, k - 1);
    }
}

/// No byte is lost: the ranges together have as many bytes as the functions of the units that
/// are asked for, where no percentage is below nothing or above a hundred.
pub proof fn lemma_ranges_hold_all_bytes(fs: Seq<FuncModel>, pattern: Option<Seq<char>>, n: int)
    requires
        0 <= n <= fs.len(),
        forall|i: int|
            0 <= i < fs.len() && (#[trigger] fs[i]).percent is Some ==> fs[i].percent->0.bits
                <= 0x4059_0000_0000_0000,
    ensures
        ranges_bytes(fs, pattern, 8, n) == all_bytes(fs, pattern, n),
    decreases n,
{
    if n > 0 {
        lemma_ranges_hold_all_bytes(fs, pattern, n - 1);
        lemma_ranges_cover(fs[n - 1]);
        let b = choose|b: int| 0 <= b < BUCKETS && #[trigger] in_bucket(fs[n - 1], b);
        lemma_bytes_step(fs, pattern, 8, n, b);
    } else {
        lemma_no_bytes(fs, pattern, 8);
    }
}

/// The ranges by name: without a percentage, and below one percent, a function is in the
/// first; at fifty, eighty, ninety, ninety-five and ninety-nine percent in the range that
/// begins there; at a hundred in the last, and only there.
pub proof fn lemma_ranges_begin_where_they_say(f: FuncModel)
    ensures
        f.percent is None ==> in_bucket(f, 0) && bucket_name(0) == "0"@,
        f.percent matches Some(p) ==> {
            &&& p.bits < 0x3ff0_0000_0000_0000 ==> in_bucket(f, 0)
            &&& 0x3ff0_0000_0000_0000 <= p.bits < 0x4049_0000_0000_0000 ==> in_bucket(f, 1)
            &&& 0x4049_0000_0000_0000 <= p.bits < 0x4054_0000_0000_0000 ==> in_bucket(f, 2)
            &&& 0x4054_0000_0000_0000 <= p.bits < 0x4056_8000_0000_0000 ==> in_bucket(f, 3)
            &&& 0x4056_8000_0000_0000 <= p.bits < 0x4057_c000_0000_0000 ==> in_bucket(f, 4)
            &&& 0x4057_c000_0000_0000 <= p.bits < 0x4058_c000_0000_0000 ==> in_bucket(f, 5)
            &&& 0x4058_c000_0000_0000 <= p.bits < 0x4059_0000_0000_0000 ==> in_bucket(f, 6)
            &&& p.bits == 0x4059_0000_0000_0000 ==> in_bucket(f, 7)
            &&& in_bucket(f, 7) ==> p.bits >= 0x4059_0000_0000_0000
        },
        bucket_name(1) == "1-49"@ && bucket_name(2) == "50-79"@ && bucket_name(3) == "80-89"@,
        bucket_name(4) == "90-94"@ && bucket_name(5) == "95-98"@ && bucket_name(6) == "99-99"@,
        bucket_name(7) == "100"@,
{
}

/// Whether a function of a unit that is asked for matches whole.
pub open spec fn is_matched(f: FuncModel) -> bool {
    f.percent matches Some(p) && p.bits == 0x4059_0000_0000_0000
}

proof fn lemma_unit_totals(
    fs: Seq<FuncModel>,
    pattern: Option<Seq<char>>,
    unit: Seq<char>,
    n: int,
)
    requires
        0 <= n <= fs.len(),
        pattern matches Some(p) ==> contains(unit, p),
    ensures
        unit_totals(fs, pattern, unit, n).0 == fs.take(n).filter(
            |f: FuncModel| f.unit == unit,
        ).len(),
        unit_totals(fs, pattern, unit, n).1 == fs.take(n).filter(
            |f: FuncModel| f.unit == unit && is_matched(f),
        ).len(),
        unit_totals(fs, pattern, unit, n).1 <= unit_totals(fs, pattern, unit, n).0 <= n,
    decreases n,
{
    reveal(Seq::filter);
    let a = |f: FuncModel| f.unit == unit;
    let b = |f: FuncModel| f.unit == unit && is_matched(f);
    if n > 0 {
        lemma_unit_totals(fs, pattern, unit, n - 1);
        assert(fs.take(n).drop_last() =~= fs.take(n - 1));
        assert(fs.take(n).last() == fs[n - 1]);
    } else {
        assert(fs.take(n) =~= Seq::<FuncModel>::empty());
    }
}

/// What is told of a unit are the number of its functions and how many of them match whole.
pub proof fn lemma_unit_is_counted(
    fs: Seq<FuncModel>,
    pattern: Option<Seq<char>>,
    unit: Seq<char>,
)
    requires
        pattern matches Some(p) ==> contains(unit, p),
        fs.len() <= u64::MAX,
    ensures
        unit_summary(fs, pattern, unit).name == unit,
        unit_summary(fs, pattern, unit).total_functions == Some(
            fs.filter(|f: FuncModel| f.unit == unit).len() as u64,
        ),
        unit_summary(fs, pattern, unit).matched_functions == Some(
            fs.filter(|f: FuncModel| f.unit == unit && is_matched(f)).len() as u64,
        ),
{
    lemma_unit_totals(fs, pattern, unit, fs.len() as int);
    assert(fs.take(fs.len() as int) =~= fs);
}

proof fn lemma_units_of(fs: Seq<FuncModel>, pattern: Option<Seq<char>>, n: int)
    requires
        0 <= n <= fs.len(),
    ensures
        forall|k: int|
            0 <= k < n && (pattern matches Some(p) ==> contains((#[trigger] fs[k]).unit, p))
                ==> units_of(fs, pattern, n).contains(fs[k].unit),
        forall|u: Seq<char>| #[trigger]
            units_of(fs, pattern, n).contains(u) ==> (pattern matches Some(p) ==> contains(u, p))
                && exists|k: int| 0 <= k < n && (#[trigger] fs[k]).unit == u,
    decreases n,
{
    if n > 0 {
        lemma_units_of(fs, pattern, n - 1);
        let before = units_of(fs, pattern, n - 1);
        let all = units_of(fs, pattern, n);
        assert forall|k: int|
            0 <= k < n && (pattern matches Some(p) ==> contains((#[trigger] fs[k]).unit, p))
                implies all.contains(fs[k].unit) by {
            if k < n - 1 {
                assert(before.contains(fs[k].unit));
                let j = before.index_of(fs[k].unit);
                assert(all[j] == fs[k].unit);
            } else {
                assert(all[before.len() as int] == fs[k].unit);
            }
        }
        assert forall|u: Seq<char>| #[trigger] all.contains(u) implies (pattern matches Some(p)
            ==> contains(u, p)) && exists|k: int| 0 <= k < n && (#[trigger] fs[k]).unit == u by {
            let j = all.index_of(u);
            if j < before.len() {
                assert(before[j] == u);
                assert(before.contains(u));
                let k = choose|k: int| 0 <= k < n - 1 && (#[trigger] fs[k]).unit == u;
                assert(fs[k].unit == u);
            } else {
                assert(fs[n - 1].unit == u);
            }
        }
    }
}

/// The units that are told of are those of the functions whose unit's name holds the pattern,
/// each once, in the order of their names.
pub proof fn lemma_units_are_those_asked_for(fs: Seq<FuncModel>, pattern: Option<Seq<char>>)
    ensures
        forall|k: int|
            0 <= k < fs.len() && (pattern matches Some(p) ==> contains((#[trigger] fs[k]).unit, p))
                ==> exists|i: int|
                0 <= i < unit_summaries(fs, pattern).len() && (#[trigger] unit_summaries(
                    fs,
                    pattern,
                )[i]).name == fs[k].unit,
        forall|i: int|
            0 <= i < unit_summaries(fs, pattern).len() ==> (pattern matches Some(p) ==> contains(
                (#[trigger] unit_summaries(fs, pattern)[i]).name,
                p,
            )),
{
    let units = units_of(fs, pattern, fs.len() as int);
    let once = sorted_once(units);
    let all = unit_summaries(fs, pattern);
    lemma_units_of(fs, pattern, fs.len() as int);
    lemma_sorted_once(units);
    assert forall|k: int|
        0 <= k < fs.len() && (pattern matches Some(p) ==> contains((#[trigger] fs[k]).unit, p))
            implies exists|i: int| 0 <= i < all.len() && (#[trigger] all[i]).name == fs[k].unit by {
        assert(units.contains(fs[k].unit));
        assert(once.contains(fs[k].unit));
        let i = once.index_of(fs[k].unit);
        assert(all[i].name == fs[k].unit);
    }
    assert forall|i: int| 0 <= i < all.len() implies (pattern matches Some(p) ==> contains(
        (#[trigger] all[i]).name,
        p,
    )) by {
        assert(all[i].name == once[i]);
        assert(once.contains(once[i]));
        assert(units.contains(once[i]));
    }
}

// ---------------------------------------------------------------------------
// Tables
// ---------------------------------------------------------------------------

proof fn lemma_row_in_list(
    fs: Seq<FuncModel>,
    percents: Seq<Seq<char>>,
    demangled: bool,
    i: int,
    n: int,
)
    requires
        0 <= i < n <= fs.len(),
    ensures
        holds(list_rows(fs, percents, demangled, n), list_row(fs[i], percents[i], demangled)),
    decreases n,
{
    let before = list_rows(fs, percents, demangled, n - 1);
    let last = list_row(fs[n - 1], percents[n - 1], demangled);
    if i < n - 1 {
        lemma_row_in_list(fs, percents, demangled, i, n - 1);
        lemma_holds_within(
            Seq::empty(),
            before,
            last,
            list_row(fs[i], percents[i], demangled),
        );
    } else {
        lemma_holds_piece(before, last, Seq::empty());
    }
}

/// A table has a row for every function, and counts all there are and those it shows.
pub proof fn lemma_table_has_all_rows(
    fs: Seq<FuncModel>,
    percents: Seq<Seq<char>>,
    total: nat,
    i: int,
)
    requires
        0 <= i < fs.len(),
    ensures
        exists|demangled: bool|
            holds(
                list_table(fs, percents, total),
                #[trigger] list_row(fs[i], percents[i], demangled),
            ) && ((exists|k: int| 0 <= k < fs.len() && (#[trigger] fs[k]).demangled is Some)
                == demangled),
        holds(
            list_table(fs, percents, total),
            "-- "@ + dec(total) + " total, "@ + dec(fs.len()) + " shown --\n"@,
        ),
{
    let demangled = any_demangled(fs);
    let head = list_head(
        demangled,
        any_enriched(fs),
    );
    let rows = list_rows(fs, percents, demangled, fs.len() as int);
    let foot = "-- "@ + dec(total) + " total, "@ + dec(fs.len()) + " shown --\n"@;
    lemma_row_in_list(fs, percents, demangled, i, fs.len() as int);
    lemma_holds_within(head, rows, foot, list_row(fs[i], percents[i], demangled));
    lemma_holds_piece(head + rows, foot, Seq::empty());
    assert(list_table(fs, percents, total) == head + rows + foot);
}

} // verus!
