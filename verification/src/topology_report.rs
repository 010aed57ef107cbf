//! The report on the classes of two databases.

use crate::lcs::{lemma_script_of_same, script, views, Step};
use crate::number::{dec, decimal, hex, hexadecimal};
use crate::order::{insert_once, inserted, sorted_by, sorted_once};
use crate::pieces::{cat13, cat2, cat3, cat5, cat7, cat8, lemma_texts_push};
use crate::rich_callees::{count_text, occurrences};
use crate::search::{begins, starts_with};
use crate::text::{debug_text, owned, quoted, texts};
use crate::topology_classes::{ClassEntry, ClassGroup, ClassModel, ClassView, EntryModel,
    GroupModel};
use crate::topology_compare::{base_is_paired, base_presence, best_partner, class_differences,
    class_kind, class_kind_name, compare_class, in_order, matched_values, order_differences,
    order_in_base, order_in_target, pair_differences, pair_score, pairs_of, pairs_upto,
    position_pairs, stable_values, target_is_paired, target_presence, whole_differences,
    ClassDifference, DifferenceModel};
use crate::type_builder::opt;
use vstd::prelude::*;
use vstd::string::StringExecFns;

verus! {

/// How a class of the target fares in the base.
#[derive(Clone, Copy, PartialEq, Eq, Debug, Structural)]
pub enum ClassStatus {
    Identical,
    Different,
    MissingBase,
}

impl ClassStatus {
    /// The status in words.
    pub open spec fn name(self) -> Seq<char> {
        match self {
            ClassStatus::Identical => "identical"@,
            ClassStatus::Different => "different"@,
            ClassStatus::MissingBase => "missing-base"@,
        }
    }

    /// The status in words.
    pub fn label(self) -> (r: &'static str)
        ensures
            r@ == self.name(),
    {
        match self {
            ClassStatus::Identical => "identical",
            ClassStatus::Different => "different",
            ClassStatus::MissingBase => "missing-base",
        }
    }
}

/// One class of the target with its differences.
#[derive(Debug)]
pub struct ClassComparison {
    pub name: String,
    pub status: ClassStatus,
    pub target_variants: usize,
    pub base_variants: usize,
    pub differences: Vec<ClassDifference>,
}

/// One class of the target with its differences, as a model.
pub struct ComparisonModel {
    pub name: Seq<char>,
    pub status: ClassStatus,
    pub target_variants: usize,
    pub base_variants: usize,
    pub differences: Seq<DifferenceModel>,
}

impl View for ClassComparison {
    type V = ComparisonModel;

    open spec fn view(&self) -> ComparisonModel {
        ComparisonModel {
            name: self.name@,
            status: self.status,
            target_variants: self.target_variants,
            base_variants: self.base_variants,
            differences: views(self.differences@),
        }
    }
}

/// The classes of the target, each compared with its counterpart in the base.
#[derive(Debug)]
pub struct ClassReport {
    pub target_pdb: String,
    pub base_pdb: String,
    pub class_filter: Option<String>,
    pub target_classes: usize,
    pub compared_classes: usize,
    pub identical_classes: usize,
    pub different_classes: usize,
    pub missing_base_classes: usize,
    pub base_only_classes: usize,
    pub target_duplicate_variants: usize,
    pub base_duplicate_variants: usize,
    pub target_unresolved_types: usize,
    pub base_unresolved_types: usize,
    pub difference_counts: Vec<(String, usize)>,
    pub classes: Vec<ClassComparison>,
}

// ---------------------------------------------------------------------------
// Which declarations are compared
// ---------------------------------------------------------------------------

/// Whether `a` says at least as much as `b`: more entries, or as many and a size
/// that is no smaller.
pub open spec fn as_rich(a: ClassView, b: ClassView) -> bool {
    a.entries.len() > b.entries.len() || (a.entries.len() == b.entries.len() && a.size >= b.size)
}

/// The richest of the first `n` declarations, the last of these.
pub open spec fn richest(v: Seq<ClassView>, n: int) -> int
    decreases n,
{
    if n <= 1 {
        0
    } else if as_rich(v[n - 1], v[richest(v, n - 1)]) {
        n - 1
    } else {
        richest(v, n - 1)
    }
}

/// Whether declaration `a` is closer to `t` than `b`: fewer differences, then more
/// entries, then a larger size.
pub open spec fn is_closer(a: ClassView, b: ClassView, t: ClassView) -> bool {
    let x = class_differences(a, t).len();
    let y = class_differences(b, t).len();
    x < y || (x == y && (a.entries.len() > b.entries.len() || (a.entries.len() == b.entries.len()
        && a.size > b.size)))
}

/// The closest of the first `n` declarations to `t`, the first of these.
pub open spec fn closest(v: Seq<ClassView>, t: ClassView, n: int) -> int
    decreases n,
{
    if n <= 1 {
        0
    } else if is_closer(v[n - 1], v[closest(v, t, n - 1)], t) {
        n - 1
    } else {
        closest(v, t, n - 1)
    }
}

/// The group with a key.
pub open spec fn group_at(groups: Seq<GroupModel>, key: Seq<char>, from: int) -> Option<int>
    decreases groups.len() - from,
{
    if from < 0 || from >= groups.len() {
        None
    } else if groups[from].key == key {
        Some(from)
    } else {
        group_at(groups, key, from + 1)
    }
}

/// A class in words.
pub open spec fn class_text(c: ClassView) -> Seq<char> {
    class_kind_name(c.kind) + " "@ + c.name + " size=0x"@ + hex(c.size as nat) + " declarations="@
        + dec(c.entries.len())
}

/// A group of the target compared with its counterpart in the base: its richest
/// declaration with the closest one there.
pub open spec fn comparison(g: GroupModel, base: Seq<GroupModel>) -> ComparisonModel {
    let t = g.variants[richest(g.variants, g.variants.len() as int)];
    match group_at(base, g.key, 0) {
        None => ComparisonModel {
            name: t.name,
            status: ClassStatus::MissingBase,
            target_variants: g.variants.len() as usize,
            base_variants: 0,
            differences: seq![
                DifferenceModel {
                    category: "class-presence"@,
                    member: None,
                    base: None,
                    target: Some(class_text(t)),
                },
            ],
        },
        Some(i) => {
            let v = base[i].variants;
            let b = v[closest(v, t, v.len() as int)];
            let d = class_differences(b, t);
            ComparisonModel {
                name: t.name,
                status: if d.len() == 0 {
                    ClassStatus::Identical
                } else {
                    ClassStatus::Different
                },
                target_variants: g.variants.len() as usize,
                base_variants: v.len() as usize,
                differences: d,
            }
        },
    }
}

/// How many of the first `n` comparisons have a status.
pub open spec fn with_status(c: Seq<ComparisonModel>, s: ClassStatus, n: int) -> nat
    decreases n,
{
    if n <= 0 {
        0
    } else {
        with_status(c, s, n - 1) + if c[n - 1].status == s {
            1nat
        } else {
            0nat
        }
    }
}

/// The categories of some differences, in order.
pub open spec fn categories(d: Seq<DifferenceModel>) -> Seq<Seq<char>> {
    d.map_values(|x: DifferenceModel| x.category)
}

/// The categories of all differences in the first `n` comparisons.
pub open spec fn all_categories(c: Seq<ComparisonModel>, n: int) -> Seq<Seq<char>>
    decreases n,
{
    if n <= 0 {
        Seq::empty()
    } else {
        all_categories(c, n - 1) + categories(c[n - 1].differences)
    }
}

/// How many of the first `n` groups have no counterpart among `others`.
pub open spec fn without_counterpart(
    groups: Seq<GroupModel>,
    others: Seq<GroupModel>,
    n: int,
) -> nat
    decreases n,
{
    if n <= 0 {
        0
    } else {
        without_counterpart(groups, others, n - 1) + if group_at(
            others,
            groups[n - 1].key,
            0,
        ) is None {
            1nat
        } else {
            0nat
        }
    }
}

/// The sum of two counts, as far as counts go.
pub open spec fn capped_sum(a: int, b: int) -> int {
    if a + b > usize::MAX {
        usize::MAX as int
    } else {
        a + b
    }
}

/// How many declarations the first `n` groups have beyond one each.
pub open spec fn duplicates(groups: Seq<GroupModel>, n: int) -> int
    decreases n,
{
    if n <= 0 {
        0
    } else {
        let here = groups[n - 1].variants.len() as int;
        capped_sum(
            duplicates(groups, n - 1),
            if here > 0 {
                here - 1
            } else {
                0
            },
        )
    }
}

/// How many of the first `n` entries have a type that could not be named.
pub open spec fn unresolved(e: Seq<EntryModel>, n: int) -> int
    decreases n,
{
    if n <= 0 {
        0
    } else {
        unresolved(e, n - 1) + if starts_with(e[n - 1].typename, "<unresolved-"@) {
            1int
        } else {
            0int
        }
    }
}

/// How many entries of the richest declarations of the first `n` groups have a type
/// that could not be named.
pub open spec fn unresolved_in(groups: Seq<GroupModel>, n: int) -> int
    decreases n,
{
    if n <= 0 {
        0
    } else {
        let v = groups[n - 1].variants;
        let e = v[richest(v, v.len() as int)].entries;
        capped_sum(unresolved_in(groups, n - 1), unresolved(e, e.len() as int))
    }
}

/// Every group has a declaration.
pub open spec fn none_empty(groups: Seq<GroupModel>) -> bool {
    forall|i: int| 0 <= i < groups.len() ==> (#[trigger] groups[i]).variants.len() > 0
}

/// The comparisons of all groups of the target.
pub open spec fn comparisons(target: Seq<GroupModel>, base: Seq<GroupModel>) -> Seq<
    ComparisonModel,
> {
    target.map_values(|g: GroupModel| comparison(g, base))
}

/// Whether `r` is the report on two databases.
pub open spec fn is_report(r: ClassReport, target: Seq<GroupModel>, base: Seq<GroupModel>) -> bool {
    let c = comparisons(target, base);
    let n = c.len() as int;
    let cats = all_categories(c, n);
    &&& views(r.classes@) == c
    &&& r.target_classes == n
    &&& r.identical_classes == with_status(c, ClassStatus::Identical, n)
    &&& r.different_classes == with_status(c, ClassStatus::Different, n)
    &&& r.missing_base_classes == with_status(c, ClassStatus::MissingBase, n)
    &&& r.compared_classes == r.identical_classes + r.different_classes
    &&& r.base_only_classes == without_counterpart(base, target, base.len() as int)
    &&& r.target_duplicate_variants == duplicates(target, target.len() as int)
    &&& r.base_duplicate_variants == duplicates(base, base.len() as int)
    &&& r.target_unresolved_types == unresolved_in(target, target.len() as int)
    &&& r.base_unresolved_types == unresolved_in(base, base.len() as int)
    &&& r.difference_counts@.len() == sorted_once(cats).len()
    &&& forall|i: int|
        0 <= i < r.difference_counts@.len() ==> (#[trigger] r.difference_counts@[i]).0@
            == sorted_once(cats)[i] && r.difference_counts@[i].1 == occurrences(
            cats,
            sorted_once(cats)[i],
        )
}

fn canonical_class(v: &Vec<ClassModel>) -> (r: usize)
    requires
        v@.len() > 0,
    ensures
        r == richest(views(v@), v@.len() as int),
        r < v@.len(),
{
    let ghost m = views(v@);
    let mut best: usize = 0;
    let mut i: usize = 1;
    while i < v.len()
        invariant
            m == views(v@),
            v@.len() > 0,
            1 <= i <= v@.len(),
            best < i,
            best == richest(m, i as int),
        decreases v.len() - i,
    {
        assert(m[i as int] == v@[i as int]@ && m[best as int] == v@[best as int]@);
        let a: usize = v[i].entries.len();
        let b: usize = v[best].entries.len();
        if a > b || (a == b && v[i].size >= v[best].size) {
            best = i;
        }
        i = i + 1;
    }
    best
}

fn closest_base_class(v: &Vec<ClassModel>, t: &ClassModel) -> (r: usize)
    requires
        v@.len() > 0,
    ensures
        r == closest(views(v@), t@, v@.len() as int),
        r < v@.len(),
{
    let ghost m = views(v@);
    let mut best: usize = 0;
    let mut best_len: usize = compare_class(&v[0], t).len();
    let mut i: usize = 1;
    assert(m[0] == v@[0]@);
    while i < v.len()
        invariant
            m == views(v@),
            v@.len() > 0,
            1 <= i <= v@.len(),
            best < i,
            best == closest(m, t@, i as int),
            best_len == class_differences(m[best as int], t@).len(),
        decreases v.len() - i,
    {
        assert(m[i as int] == v@[i as int]@ && m[best as int] == v@[best as int]@);
        let x: usize = compare_class(&v[i], t).len();
        let a: usize = v[i].entries.len();
        let b: usize = v[best].entries.len();
        if x < best_len || (x == best_len && (a > b || (a == b && v[i].size > v[best].size))) {
            best = i;
            best_len = x;
        }
        i = i + 1;
    }
    best
}

fn find_group(groups: &Vec<ClassGroup>, key: &String) -> (r: Option<usize>)
    ensures
        match r {
            Some(i) => group_at(views(groups@), key@, 0) == Some(i as int) && i < groups@.len(),
            None => group_at(views(groups@), key@, 0) is None,
        },
{
    let ghost m = views(groups@);
    let mut i: usize = 0;
    while i < groups.len()
        invariant
            m == views(groups@),
            i <= groups@.len(),
            group_at(m, key@, 0) == group_at(m, key@, i as int),
        decreases groups.len() - i,
    {
        assert(m[i as int] == groups@[i as int]@);
        if groups[i].key == *key {
            return Some(i);
        }
        i = i + 1;
    }
    None
}

fn class_summary(c: &ClassModel) -> (r: String)
    ensures
        r@ == class_text(c@),
{
    cat7(
        class_kind(c.kind),
        " ",
        c.name.as_str(),
        " size=0x",
        hexadecimal(c.size).as_str(),
        " declarations=",
        decimal(c.entries.len() as u64).as_str(),
    )
}

fn compare_group(g: &ClassGroup, base: &Vec<ClassGroup>) -> (r: ClassComparison)
    requires
        g@.variants.len() > 0,
        none_empty(views(base@)),
    ensures
        r@ == comparison(g@, views(base@)),
{
    let t: &ClassModel = &g.variants[canonical_class(&g.variants)];
    let ghost gv = g@.variants;
    assert(t@ == gv[richest(gv, gv.len() as int)]);
    match find_group(base, &g.key) {
        None => {
            let mut differences: Vec<ClassDifference> = Vec::new();
            let d: ClassDifference = ClassDifference {
                category: "class-presence",
                member: None,
                base: None,
                target: Some(class_summary(t)),
            };
            let ghost m = d@;
            differences.push(d);
            assert(views(differences@) =~= seq![m]);
            ClassComparison {
                name: t.name.clone(),
                status: ClassStatus::MissingBase,
                target_variants: g.variants.len(),
                base_variants: 0,
                differences,
            }
        },
        Some(i) => {
            let v: &Vec<ClassModel> = &base[i].variants;
            assert(views(base@)[i as int] == base@[i as int]@);
            let b: &ClassModel = &v[closest_base_class(v, t)];
            assert(b@ == views(v@)[closest(views(v@), t@, v@.len() as int)]);
            let differences: Vec<ClassDifference> = compare_class(b, t);
            ClassComparison {
                name: t.name.clone(),
                status: if differences.len() == 0 {
                    ClassStatus::Identical
                } else {
                    ClassStatus::Different
                },
                target_variants: g.variants.len(),
                base_variants: v.len(),
                differences,
            }
        },
    }
}

fn count_duplicates(groups: &Vec<ClassGroup>) -> (n: usize)
    ensures
        n == duplicates(views(groups@), groups@.len() as int),
{
    let ghost m = views(groups@);
    let mut n: usize = 0;
    let mut i: usize = 0;
    while i < groups.len()
        invariant
            m == views(groups@),
            i <= groups@.len(),
            n == duplicates(m, i as int),
        decreases groups.len() - i,
    {
        assert(m[i as int] == groups@[i as int]@);
        let here: usize = groups[i].variants.len();
        n = n.saturating_add(
            if here > 0 {
                here - 1
            } else {
                0
            },
        );
        i = i + 1;
    }
    n
}

fn unresolved_entries(v: &Vec<ClassEntry>) -> (n: usize)
    ensures
        n == unresolved(views(v@), v@.len() as int),
{
    let ghost m = views(v@);
    let mut n: usize = 0;
    let mut i: usize = 0;
    while i < v.len()
        invariant
            m == views(v@),
            i <= v@.len(),
            n <= i,
            n == unresolved(m, i as int),
        decreases v.len() - i,
    {
        assert(m[i as int] == v@[i as int]@);
        if begins(v[i].typename.as_str(), "<unresolved-") {
            n = n + 1;
        }
        i = i + 1;
    }
    n
}

fn unresolved_type_count(groups: &Vec<ClassGroup>) -> (n: usize)
    requires
        none_empty(views(groups@)),
    ensures
        n == unresolved_in(views(groups@), groups@.len() as int),
{
    let ghost m = views(groups@);
    let mut n: usize = 0;
    let mut i: usize = 0;
    while i < groups.len()
        invariant
            m == views(groups@),
            none_empty(m),
            i <= groups@.len(),
            n == unresolved_in(m, i as int),
        decreases groups.len() - i,
    {
        assert(m[i as int] == groups@[i as int]@);
        let v: &Vec<ClassModel> = &groups[i].variants;
        let k: usize = canonical_class(v);
        assert(views(v@)[k as int] == v@[k as int]@);
        n = n.saturating_add(unresolved_entries(&v[k].entries));
        i = i + 1;
    }
    n
}

fn count_without_counterpart(groups: &Vec<ClassGroup>, others: &Vec<ClassGroup>) -> (n: usize)
    ensures
        n == without_counterpart(views(groups@), views(others@), groups@.len() as int),
{
    let ghost m = views(groups@);
    let mut n: usize = 0;
    let mut i: usize = 0;
    while i < groups.len()
        invariant
            m == views(groups@),
            i <= groups@.len(),
            n <= i,
            n == without_counterpart(m, views(others@), i as int),
        decreases groups.len() - i,
    {
        assert(m[i as int] == groups@[i as int]@);
        if find_group(others, &groups[i].key).is_none() {
            n = n + 1;
        }
        i = i + 1;
    }
    n
}

fn push_categories(cats: &mut Vec<String>, d: &Vec<ClassDifference>)
    ensures
        texts(final(cats)@) == texts(old(cats)@) + categories(views(d@)),
{
    let ghost start = texts(cats@);
    let ghost all = categories(views(d@));
    let mut i: usize = 0;
    assert(start + all.take(0) =~= start);
    while i < d.len()
        invariant
            all == categories(views(d@)),
            i <= d@.len(),
            texts(cats@) == start + all.take(i as int),
        decreases d.len() - i,
    {
        let c: String = owned(d[i].category);
        proof {
            lemma_texts_push(cats@, c);
            assert(all[i as int] == c@);
            assert(all.take(i + 1) =~= all.take(i as int).push(c@));
            assert((start + all.take(i as int)).push(c@) =~= start + all.take(i + 1));
        }
        cats.push(c);
        i = i + 1;
    }
    assert(all.take(all.len() as int) =~= all);
}

/// Counts the texts of a list, in their order.
pub fn count_texts(v: &Vec<String>) -> (r: Vec<(String, usize)>)
    ensures
        r@.len() == sorted_once(texts(v@)).len(),
        forall|i: int|
            0 <= i < r@.len() ==> (#[trigger] r@[i]).0@ == sorted_once(texts(v@))[i] && r@[i].1
                == occurrences(texts(v@), sorted_once(texts(v@))[i]),
{
    let mut keys: Vec<String> = Vec::new();
    let mut i: usize = 0;
    assert(texts(keys@) =~= Seq::empty());
    assert(texts(v@).take(0) =~= Seq::empty());
    while i < v.len()
        invariant
            i <= v@.len(),
            texts(keys@) == sorted_once(texts(v@).take(i as int)),
        decreases v.len() - i,
    {
        assert(texts(v@).take(i + 1).drop_last() =~= texts(v@).take(i as int));
        insert_once(&mut keys, v[i].clone());
        i = i + 1;
    }
    assert(texts(v@).take(v@.len() as int) =~= texts(v@));
    let mut out: Vec<(String, usize)> = Vec::new();
    let mut k: usize = 0;
    while k < keys.len()
        invariant
            k <= keys@.len(),
            texts(keys@) == sorted_once(texts(v@)),
            out@.len() == k,
            forall|j: int|
                0 <= j < k ==> (#[trigger] out@[j]).0@ == texts(keys@)[j] && out@[j].1
                    == occurrences(texts(v@), texts(keys@)[j]),
        decreases keys.len() - k,
    {
        let n: usize = count_text(v, &keys[k]);
        out.push((keys[k].clone(), n));
        k = k + 1;
    }
    out
}

/// Compares the classes of the target with those of the base.
pub fn build_class_report(
    target_pdb: &str,
    base_pdb: &str,
    class_filter: Option<&str>,
    target: &Vec<ClassGroup>,
    base: &Vec<ClassGroup>,
) -> (r: ClassReport)
    requires
        none_empty(views(target@)),
        none_empty(views(base@)),
    ensures
        is_report(r, views(target@), views(base@)),
        r.target_pdb@ == target_pdb@,
        r.base_pdb@ == base_pdb@,
        opt(r.class_filter) == (match class_filter {
            Some(f) => Some(f@),
            None => None,
        }),
{
    let ghost tm = views(target@);
    let ghost bm = views(base@);
    let ghost c = comparisons(tm, bm);
    let mut classes: Vec<ClassComparison> = Vec::new();
    let mut cats: Vec<String> = Vec::new();
    let mut identical: usize = 0;
    let mut different: usize = 0;
    let mut missing: usize = 0;
    let mut i: usize = 0;
    assert(texts(cats@) =~= Seq::empty());
    while i < target.len()
        invariant
            tm == views(target@),
            bm == views(base@),
            c == comparisons(tm, bm),
            none_empty(tm),
            none_empty(bm),
            i <= target@.len(),
            classes@.len() == i,
            forall|k: int| 0 <= k < i ==> (#[trigger] classes@[k])@ == c[k],
            identical == with_status(c, ClassStatus::Identical, i as int),
            different == with_status(c, ClassStatus::Different, i as int),
            missing == with_status(c, ClassStatus::MissingBase, i as int),
            identical + different + missing == i,
            texts(cats@) == all_categories(c, i as int),
        decreases target.len() - i,
    {
        assert(tm[i as int] == target@[i as int]@);
        let one: ClassComparison = compare_group(&target[i], base);
        assert(one@ == c[i as int]);
        match one.status {
            ClassStatus::Identical => {
                identical = identical + 1;
            },
            ClassStatus::Different => {
                different = different + 1;
            },
            ClassStatus::MissingBase => {
                missing = missing + 1;
            },
        }
        push_categories(&mut cats, &one.differences);
        classes.push(one);
        i = i + 1;
    }
    assert(views(classes@) =~= c);
    let counts: Vec<(String, usize)> = count_texts(&cats);
    ClassReport {
        target_pdb: owned(target_pdb),
        base_pdb: owned(base_pdb),
        class_filter: match class_filter {
            Some(f) => Some(owned(f)),
            None => None,
        },
        target_classes: target.len(),
        compared_classes: identical + different,
        identical_classes: identical,
        different_classes: different,
        missing_base_classes: missing,
        base_only_classes: count_without_counterpart(base, target),
        target_duplicate_variants: count_duplicates(target),
        base_duplicate_variants: count_duplicates(base),
        target_unresolved_types: unresolved_type_count(target),
        base_unresolved_types: unresolved_type_count(base),
        difference_counts: counts,
        classes,
    }
}

// ---------------------------------------------------------------------------
// The report as text
// ---------------------------------------------------------------------------

/// The lines of one difference.
pub open spec fn difference_lines(d: DifferenceModel) -> Seq<char> {
    let member = match d.member {
        Some(m) => " "@ + m,
        None => ""@,
    };
    let base = match d.base {
        Some(b) => "    - base:   "@ + b + "\n"@,
        None => ""@,
    };
    let target = match d.target {
        Some(t) => "    + target: "@ + t + "\n"@,
        None => ""@,
    };
    "  ["@ + d.category + "]"@ + member + "\n"@ + base + target
}

/// The lines of the first `n` differences.
pub open spec fn differences_text(d: Seq<DifferenceModel>, n: int) -> Seq<char>
    decreases n,
{
    if n <= 0 {
        ""@
    } else {
        differences_text(d, n - 1) + difference_lines(d[n - 1])
    }
}

/// The lines of one class: none where it is identical, unless these are shown too.
pub open spec fn comparison_text(c: ComparisonModel, show_identical: bool) -> Seq<char> {
    if c.status is Identical && !show_identical {
        ""@
    } else {
        let variants = if c.target_variants > 1 || c.base_variants > 1 {
            "  PDB variants: target="@ + dec(c.target_variants as nat) + " base="@ + dec(
                c.base_variants as nat,
            ) + " (richest target / closest base compared)\n"@
        } else {
            ""@
        };
        let body = if c.differences.len() == 0 {
            "  no semantic differences\n"@
        } else {
            differences_text(c.differences, c.differences.len() as int)
        };
        "\n=== "@ + c.name + " ["@ + c.status.name() + "] ===\n"@ + variants + body
    }
}

/// The lines of the first `n` classes.
pub open spec fn comparisons_text(c: Seq<ComparisonModel>, show_identical: bool, n: int) -> Seq<char>
    decreases n,
{
    if n <= 0 {
        ""@
    } else {
        comparisons_text(c, show_identical, n - 1) + comparison_text(c[n - 1], show_identical)
    }
}

/// The lines of the first `n` counts.
pub open spec fn counts_text(v: Seq<(String, usize)>, n: int) -> Seq<char>
    decreases n,
{
    if n <= 0 {
        "difference counts:\n"@
    } else {
        counts_text(v, n - 1) + ("  "@ + v[n - 1].0@ + ": "@ + dec(v[n - 1].1 as nat) + "\n"@)
    }
}

/// The lines on the classes as a whole.
pub open spec fn totals_text(r: ClassReport) -> Seq<char> {
    ("target classes="@ + dec(r.target_classes as nat) + " compared="@ + dec(
        r.compared_classes as nat,
    ) + " identical="@ + dec(r.identical_classes as nat) + " different="@ + dec(
        r.different_classes as nat,
    ) + " missing-base="@ + dec(r.missing_base_classes as nat) + " base-only="@ + dec(
        r.base_only_classes as nat,
    ) + "\n"@) + ("deduplicated variants beyond canonical: target="@ + dec(
        r.target_duplicate_variants as nat,
    ) + " base="@ + dec(r.base_duplicate_variants as nat)
        + "\nunresolved declaration types: target="@ + dec(r.target_unresolved_types as nat)
        + " base="@ + dec(r.base_unresolved_types as nat) + "\n"@)
}

/// The report as text. `filter` is the filter in quotes.
pub open spec fn report_text(
    r: ClassReport,
    filter: Option<Seq<char>>,
    show_identical: bool,
) -> Seq<char> {
    let wanted = match filter {
        Some(f) => "class filter: "@ + f + "\n"@,
        None => ""@,
    };
    let counts = if r.difference_counts@.len() == 0 {
        ""@
    } else {
        counts_text(r.difference_counts@, r.difference_counts@.len() as int)
    };
    "target PDB: "@ + r.target_pdb@ + "\nbase PDB:   "@ + r.base_pdb@ + "\n"@ + wanted
        + totals_text(r) + counts + comparisons_text(
        views(r.classes@),
        show_identical,
        r.classes@.len() as int,
    )
}

fn side_line(label: &str, s: &Option<String>) -> (r: String)
    ensures
        r@ == match opt(*s) {
            Some(t) => label@ + t + "\n"@,
            None => ""@,
        },
{
    match s {
        Some(t) => cat3(label, t.as_str(), "\n"),
        None => owned(""),
    }
}

fn difference_shown(d: &ClassDifference) -> (r: String)
    ensures
        r@ == difference_lines(d@),
{
    let member: String = match &d.member {
        Some(m) => cat2(" ", m.as_str()),
        None => owned(""),
    };
    cat7(
        "  [",
        d.category,
        "]",
        member.as_str(),
        "\n",
        side_line("    - base:   ", &d.base).as_str(),
        side_line("    + target: ", &d.target).as_str(),
    )
}

fn comparison_shown(c: &ClassComparison, show_identical: bool) -> (r: String)
    ensures
        r@ == comparison_text(c@, show_identical),
{
    if matches!(c.status, ClassStatus::Identical) && !show_identical {
        return owned("");
    }
    let variants: String = if c.target_variants > 1 || c.base_variants > 1 {
        cat5(
            "  PDB variants: target=",
            decimal(c.target_variants as u64).as_str(),
            " base=",
            decimal(c.base_variants as u64).as_str(),
            " (richest target / closest base compared)\n",
        )
    } else {
        owned("")
    };
    let body: String = if c.differences.len() == 0 {
        owned("  no semantic differences\n")
    } else {
        let mut s: String = owned("");
        let mut i: usize = 0;
        let ghost d = views(c.differences@);
        while i < c.differences.len()
            invariant
                d == views(c.differences@),
                i <= c.differences@.len(),
                s@ == differences_text(d, i as int),
            decreases c.differences.len() - i,
        {
            assert(d[i as int] == c.differences@[i as int]@);
            s.append(difference_shown(&c.differences[i]).as_str());
            i = i + 1;
        }
        s
    };
    cat7(
        "\n=== ",
        c.name.as_str(),
        " [",
        c.status.label(),
        "] ===\n",
        variants.as_str(),
        body.as_str(),
    )
}

fn totals_shown(r: &ClassReport) -> (s: String)
    ensures
        s@ == totals_text(*r),
{
    let a: String = cat13(
        "target classes=",
        decimal(r.target_classes as u64).as_str(),
        " compared=",
        decimal(r.compared_classes as u64).as_str(),
        " identical=",
        decimal(r.identical_classes as u64).as_str(),
        " different=",
        decimal(r.different_classes as u64).as_str(),
        " missing-base=",
        decimal(r.missing_base_classes as u64).as_str(),
        " base-only=",
        decimal(r.base_only_classes as u64).as_str(),
        "\n",
    );
    let mut b: String = cat8(
        "deduplicated variants beyond canonical: target=",
        decimal(r.target_duplicate_variants as u64).as_str(),
        " base=",
        decimal(r.base_duplicate_variants as u64).as_str(),
        "\nunresolved declaration types: target=",
        decimal(r.target_unresolved_types as u64).as_str(),
        " base=",
        decimal(r.base_unresolved_types as u64).as_str(),
    );
    b.append("\n");
    cat2(a.as_str(), b.as_str())
}

/// Shows the report. `filter` is the filter in quotes.
pub fn render_class_report_filtered(
    report: &ClassReport,
    filter: Option<&str>,
    show_identical: bool,
) -> (r: String)
    ensures
        r@ == report_text(
            *report,
            match filter {
                Some(f) => Some(f@),
                None => None,
            },
            show_identical,
        ),
{
    let wanted: String = match filter {
        Some(f) => cat3("class filter: ", f, "\n"),
        None => owned(""),
    };
    let counts: String = if report.difference_counts.len() == 0 {
        owned("")
    } else {
        let mut s: String = owned("difference counts:\n");
        let mut i: usize = 0;
        while i < report.difference_counts.len()
            invariant
                i <= report.difference_counts@.len(),
                s@ == counts_text(report.difference_counts@, i as int),
            decreases report.difference_counts.len() - i,
        {
            let line: String = cat5(
                "  ",
                report.difference_counts[i].0.as_str(),
                ": ",
                decimal(report.difference_counts[i].1 as u64).as_str(),
                "\n",
            );
            s.append(line.as_str());
            i = i + 1;
        }
        s
    };
    let mut classes: String = owned("");
    let mut k: usize = 0;
    let ghost c = views(report.classes@);
    while k < report.classes.len()
        invariant
            c == views(report.classes@),
            k <= report.classes@.len(),
            classes@ == comparisons_text(c, show_identical, k as int),
        decreases report.classes.len() - k,
    {
        assert(c[k as int] == report.classes@[k as int]@);
        classes.append(comparison_shown(&report.classes[k], show_identical).as_str());
        k = k + 1;
    }
    let mut out: String = cat8(
        "target PDB: ",
        report.target_pdb.as_str(),
        "\nbase PDB:   ",
        report.base_pdb.as_str(),
        "\n",
        wanted.as_str(),
        totals_shown(report).as_str(),
        counts.as_str(),
    );
    out.append(classes.as_str());
    out
}

/// Shows the report.
pub fn render_class_report(report: &ClassReport, show_identical: bool) -> (r: String)
    ensures
        r@ == report_text(
            *report,
            match report.class_filter {
                Some(f) => Some(quoted(f@)),
                None => None,
            },
            show_identical,
        ),
{
    match &report.class_filter {
        Some(f) => {
            let q: String = debug_text(f.as_str());
            render_class_report_filtered(report, Some(q.as_str()), show_identical)
        },
        None => render_class_report_filtered(report, None, show_identical),
    }
}

// ---------------------------------------------------------------------------
// What holds of every comparison
// ---------------------------------------------------------------------------

proof fn lemma_self_best(e: Seq<EntryModel>, pairs: Seq<(int, int)>, ti: int, n: int)
    requires
        0 <= ti < e.len(),
        0 <= n <= e.len(),
        !base_is_paired(pairs, ti),
    ensures
        n > ti ==> best_partner(e, pairs, e[ti], ti, n) == Some((0int, 0int, ti)),
        n <= ti ==> (best_partner(e, pairs, e[ti], ti, n) matches Some((s, d, i)) ==> s >= 0 && d > 0),
    decreases n,
{
    if n > 0 {
        lemma_self_best(e, pairs, ti, n - 1);
        assert(pair_score(e[ti], e[ti]) == Some(0int));
        assert(pair_score(e[n - 1], e[ti]) matches Some(s) ==> s >= 0);
    }
}

proof fn lemma_self_pairs(e: Seq<EntryModel>, n: int)
    requires
        0 <= n <= e.len(),
    ensures
        pairs_upto(e, e, n) == Seq::new(n as nat, |k: int| (k, k)),
    decreases n,
{
    if n > 0 {
        lemma_self_pairs(e, n - 1);
        let before = pairs_upto(e, e, n - 1);
        assert(!base_is_paired(before, n - 1)) by {
            if base_is_paired(before, n - 1) {
                let k = choose|k: int| 0 <= k < before.len() && (#[trigger] before[k]).1 == n - 1;
                assert(before[k] == (k, k));
            }
        }
        lemma_self_best(e, before, n - 1, e.len() as int);
    }
    assert(pairs_upto(e, e, n) =~= Seq::new(n as nat, |k: int| (k, k)));
}

proof fn lemma_self_pair_differences(
    v: Seq<DifferenceModel>,
    e: Seq<EntryModel>,
    pairs: Seq<(int, int)>,
    n: int,
)
    requires
        pairs == Seq::new(e.len(), |k: int| (k, k)),
        0 <= n <= pairs.len(),
    ensures
        pair_differences(v, e, e, pairs, n) == v,
    decreases n,
{
    if n > 0 {
        lemma_self_pair_differences(v, e, pairs, n - 1);
        assert(pairs[n - 1] == (n - 1, n - 1));
    }
}

proof fn lemma_self_presence(
    v: Seq<DifferenceModel>,
    e: Seq<EntryModel>,
    pairs: Seq<(int, int)>,
    n: int,
)
    requires
        pairs == Seq::new(e.len(), |k: int| (k, k)),
        0 <= n <= e.len(),
    ensures
        target_presence(v, e, pairs, n) == v,
        base_presence(v, e, pairs, n) == v,
    decreases n,
{
    if n > 0 {
        lemma_self_presence(v, e, pairs, n - 1);
        assert(pairs[n - 1] == (n - 1, n - 1));
        assert(target_is_paired(pairs, n - 1));
        assert(base_is_paired(pairs, n - 1));
    }
}

proof fn lemma_sorted_identity(p: Seq<(usize, usize)>, n: int)
    requires
        0 <= n <= p.len(),
        forall|k: int, l: int| 0 <= k < l < p.len() ==> (#[trigger] p[k]).1 <= (#[trigger] p[l]).1,
    ensures
        sorted_by(p.take(n), |a: (usize, usize), b: (usize, usize)| a.1 <= b.1) == p.take(n),
    decreases n,
{
    let le = |a: (usize, usize), b: (usize, usize)| a.1 <= b.1;
    if n > 0 {
        lemma_sorted_identity(p, n - 1);
        let s = p.take(n);
        assert(s.drop_last() =~= p.take(n - 1));
        assert(s.last() == p[n - 1]);
        let q = p.take(n - 1);
        if n > 1 {
            assert(p[n - 2].1 <= p[n - 1].1);
            assert(q.last() == p[n - 2]);
        }
        assert(inserted(q, p[n - 1], le) == q.push(p[n - 1]));
        assert(q.push(p[n - 1]) =~= s);
    } else {
        assert(p.take(0) =~= Seq::empty());
    }
}

proof fn lemma_matched_all(v: Seq<usize>, ops: Seq<Step>, n: int)
    requires
        ops == Seq::new(v.len(), |k: int| Step::Both(0 + k, 0 + k)),
        0 <= n <= v.len(),
    ensures
        forall|k: int| 0 <= k < n ==> matched_values(v, ops, n).contains(#[trigger] v[k]),
    decreases n,
{
    if n > 0 {
        lemma_matched_all(v, ops, n - 1);
        assert(ops[n - 1] == Step::Both(n - 1, n - 1));
    }
}

proof fn lemma_self_order(
    v: Seq<DifferenceModel>,
    e: Seq<EntryModel>,
    p: Seq<(usize, usize)>,
    n: int,
)
    requires
        0 <= n <= p.len(),
        forall|k: int| 0 <= k < p.len() ==> in_order(p).contains((#[trigger] p[k]).0),
    ensures
        order_differences(v, e, e, p, n) == v,
    decreases n,
{
    if n > 0 {
        lemma_self_order(v, e, p, n - 1);
        assert(in_order(p).contains(p[n - 1].0));
    }
}

/// A class does not differ from itself.
pub proof fn lemma_class_is_like_itself(c: ClassView)
    requires
        c.entries.len() <= usize::MAX,
    ensures
        class_differences(c, c) == Seq::<DifferenceModel>::empty(),
{
    let e = c.entries;
    let pairs = pairs_of(e, e);
    lemma_self_pairs(e, e.len() as int);
    let whole = whole_differences(c, c);
    assert(whole == Seq::<DifferenceModel>::empty());
    lemma_self_pair_differences(whole, e, pairs, pairs.len() as int);
    lemma_self_presence(whole, e, pairs, e.len() as int);
    let p = position_pairs(pairs);
    assert forall|k: int| 0 <= k < p.len() implies #[trigger] p[k] == (k as usize, k as usize) by {
        assert(pairs[k] == (k, k));
    }
    assert forall|k: int, l: int| 0 <= k < l < p.len() implies (#[trigger] p[k]).1 <= (
    #[trigger] p[l]).1 by {}
    lemma_sorted_identity(p, p.len() as int);
    assert(p.take(p.len() as int) =~= p);
    let a = order_in_base(p);
    let b = order_in_target(p);
    assert(a == b);
    lemma_script_of_same(a, b, 0);
    let ops = script(a, b, 0, 0);
    lemma_matched_all(a, ops, a.len() as int);
    assert forall|k: int| 0 <= k < p.len() implies in_order(p).contains((#[trigger] p[k]).0) by {
        assert(a[k] == p[k].0);
        assert(stable_values(a, b).contains(a[k]));
    }
    lemma_self_order(whole, e, p, p.len() as int);
}

} // verus!
