//! What holds of the report on the classes of two databases.

use crate::lcs::views;
use crate::number::dec;
use crate::parts::{cat_upto, holds, lemma_holds_both, lemma_holds_pair, lemma_holds_piece,
    lemma_holds_through, lemma_holds_within};
use crate::search::starts_with;
use crate::topology_classes::{ClassView, EntryModel, GroupModel};
use crate::topology_compare::{class_differences, DifferenceModel};
use crate::topology_report::{closest, comparison, comparison_text, comparisons_text, counts_text,
    difference_lines, differences_text, duplicates, group_at, report_text, richest, totals_text,
    unresolved, with_status, without_counterpart, ClassReport, ClassStatus, ComparisonModel};
use vstd::prelude::*;

verus! {

// ---------------------------------------------------------------------------
// What is compared
// ---------------------------------------------------------------------------

/// The declaration that is taken for the target has the most entries, and the largest size
/// of those with as many.
pub proof fn lemma_richest_has_most_entries(v: Seq<ClassView>, n: int)
    requires
        0 < n <= v.len(),
    ensures
        0 <= richest(v, n) < n,
        forall|i: int|
            0 <= i < n ==> (#[trigger] v[i]).entries.len() < v[richest(v, n)].entries.len() || (
            v[i].entries.len() == v[richest(v, n)].entries.len() && v[i].size <= v[richest(
                v,
                n,
            )].size),
    decreases n,
{
    if n > 1 {
        lemma_richest_has_most_entries(v, n - 1);
    }
}

/// The declaration of the base that is compared with has the fewest differences; of those
/// with as few, the most entries, and then the largest size.
pub proof fn lemma_closest_has_fewest_differences(v: Seq<ClassView>, t: ClassView, n: int)
    requires
        0 < n <= v.len(),
    ensures
        0 <= closest(v, t, n) < n,
        forall|i: int|
            0 <= i < n ==> {
                let c = v[closest(v, t, n)];
                let x = class_differences(c, t).len();
                let y = class_differences(#[trigger] v[i], t).len();
                x < y || (x == y && (c.entries.len() > v[i].entries.len() || (c.entries.len()
                    == v[i].entries.len() && c.size >= v[i].size)))
            },
    decreases n,
{
    if n > 1 {
        lemma_closest_has_fewest_differences(v, t, n - 1);
    }
}

proof fn lemma_group_at(groups: Seq<GroupModel>, key: Seq<char>, from: int)
    requires
        0 <= from,
    ensures
        match group_at(groups, key, from) {
            Some(i) => from <= i < groups.len() && groups[i].key == key,
            None => forall|i: int| from <= i < groups.len() ==> (#[trigger] groups[i]).key != key,
        },
    decreases groups.len() - from,
{
    if from < groups.len() && groups[from].key != key {
        lemma_group_at(groups, key, from + 1);
    }
}

/// A class is missing in the base exactly where no class there has its key. Otherwise it is
/// identical exactly where some declaration of the base shows no difference from the one
/// that is taken for the target.
pub proof fn lemma_status_of_a_class(g: GroupModel, base: Seq<GroupModel>)
    requires
        g.variants.len() > 0,
        forall|i: int| 0 <= i < base.len() ==> (#[trigger] base[i]).variants.len() > 0,
        forall|i: int, j: int|
            0 <= i < j < base.len() ==> (#[trigger] base[i]).key != (#[trigger] base[j]).key,
    ensures
        ({
            let c = comparison(g, base);
            let t = g.variants[richest(g.variants, g.variants.len() as int)];
            &&& c.name == t.name
            &&& c.status is MissingBase <==> forall|i: int|
                0 <= i < base.len() ==> (#[trigger] base[i]).key != g.key
            &&& forall|i: int|
                0 <= i < base.len() && (#[trigger] base[i]).key == g.key ==> (c.status is Identical
                    <==> exists|k: int|
                    0 <= k < base[i].variants.len() && class_differences(
                        #[trigger] base[i].variants[k],
                        t,
                    ).len() == 0)
            &&& c.status is Identical <==> c.differences.len() == 0
        }),
{
    let c = comparison(g, base);
    let t = g.variants[richest(g.variants, g.variants.len() as int)];
    lemma_group_at(base, g.key, 0);
    if let Some(j) = group_at(base, g.key, 0) {
        let v = base[j].variants;
        lemma_closest_has_fewest_differences(v, t, v.len() as int);
        let b = v[closest(v, t, v.len() as int)];
        assert(class_differences(b, t).len() == 0 ==> exists|k: int|
            0 <= k < v.len() && class_differences(#[trigger] v[k], t).len() == 0);
    }
}

// ---------------------------------------------------------------------------
// Counts
// ---------------------------------------------------------------------------

/// Every class of the target is identical, different or missing in the base, and counted so.
pub proof fn lemma_every_class_is_counted(c: Seq<ComparisonModel>, n: int)
    requires
        0 <= n <= c.len(),
    ensures
        with_status(c, ClassStatus::Identical, n) + with_status(c, ClassStatus::Different, n)
            + with_status(c, ClassStatus::MissingBase, n) == n,
        forall|s: ClassStatus|
            #![trigger with_status(c, s, n)]
            with_status(c, s, n) == 0 <==> forall|i: int|
                0 <= i < n ==> (#[trigger] c[i]).status != s,
    decreases n,
{
    if n > 0 {
        lemma_every_class_is_counted(c, n - 1);
        assert forall|s: ClassStatus|
            #![trigger with_status(c, s, n)]
            with_status(c, s, n) == 0 <==> forall|i: int|
                0 <= i < n ==> (#[trigger] c[i]).status != s by {
            assert(with_status(c, s, n - 1) == 0 <==> forall|i: int|
                0 <= i < n - 1 ==> (#[trigger] c[i]).status != s);
            if with_status(c, s, n) == 0 {
                assert forall|i: int| 0 <= i < n implies (#[trigger] c[i]).status != s by {
                    if i == n - 1 {
                    }
                }
            } else if c[n - 1].status != s {
                let i = choose|i: int| 0 <= i < n - 1 && (#[trigger] c[i]).status == s;
                assert(c[i].status == s);
            }
        }
    }
}

/// No class is only in the one database exactly where each of its keys is in the other.
pub proof fn lemma_classes_without_counterpart_are_counted(
    groups: Seq<GroupModel>,
    others: Seq<GroupModel>,
    n: int,
)
    requires
        0 <= n <= groups.len(),
    ensures
        without_counterpart(groups, others, n) <= n,
        without_counterpart(groups, others, n) == 0 <==> forall|i: int|
            0 <= i < n ==> exists|j: int|
                0 <= j < others.len() && (#[trigger] others[j]).key == (#[trigger] groups[i]).key,
    decreases n,
{
    if n > 0 {
        lemma_classes_without_counterpart_are_counted(groups, others, n - 1);
        lemma_group_at(others, groups[n - 1].key, 0);
        if without_counterpart(groups, others, n) == 0 {
            assert forall|i: int| 0 <= i < n implies exists|j: int|
                0 <= j < others.len() && (#[trigger] others[j]).key == (#[trigger] groups[i]).key by {
                if i == n - 1 {
                    let j = group_at(others, groups[n - 1].key, 0)->0;
                    assert(others[j].key == groups[i].key);
                }
            }
        } else if group_at(others, groups[n - 1].key, 0) is Some {
            let i = choose|i: int|
                0 <= i < n - 1 && !exists|j: int|
                    0 <= j < others.len() && (#[trigger] others[j]).key == (
                    #[trigger] groups[i]).key;
            assert(groups[i] == groups[i]);
        } else {
            assert(!exists|j: int|
                0 <= j < others.len() && (#[trigger] others[j]).key == groups[n - 1].key);
        }
    }
}

/// How many declarations the first `n` groups have.
pub open spec fn all_variants(groups: Seq<GroupModel>, n: int) -> int
    decreases n,
{
    if n <= 0 {
        0
    } else {
        all_variants(groups, n - 1) + groups[n - 1].variants.len()
    }
}

/// The declarations beyond one of each class are all declarations but as many as there are
/// classes.
pub proof fn lemma_duplicates_are_beyond_one_each(groups: Seq<GroupModel>, n: int)
    requires
        0 <= n <= groups.len(),
        forall|i: int| 0 <= i < groups.len() ==> (#[trigger] groups[i]).variants.len() > 0,
        all_variants(groups, n) <= usize::MAX,
    ensures
        duplicates(groups, n) == all_variants(groups, n) - n,
        n <= all_variants(groups, n),
    decreases n,
{
    if n > 0 {
        assert(groups[n - 1].variants.len() > 0);
        lemma_duplicates_are_beyond_one_each(groups, n - 1);
    }
}

/// No type is left unresolved exactly where no entry says so.
pub proof fn lemma_unresolved_types_are_counted(e: Seq<EntryModel>, n: int)
    requires
        0 <= n <= e.len(),
    ensures
        0 <= unresolved(e, n) <= n,
        unresolved(e, n) == 0 <==> forall|i: int|
            0 <= i < n ==> !starts_with((#[trigger] e[i]).typename, "<unresolved-"@),
    decreases n,
{
    if n > 0 {
        lemma_unresolved_types_are_counted(e, n - 1);
        if unresolved(e, n) != 0 && !starts_with(e[n - 1].typename, "<unresolved-"@) {
            let i = choose|i: int|
                0 <= i < n - 1 && starts_with((#[trigger] e[i]).typename, "<unresolved-"@);
            assert(starts_with(e[i].typename, "<unresolved-"@));
        }
    }
}

// ---------------------------------------------------------------------------
// The text
// ---------------------------------------------------------------------------

/// The lines of a difference give its category in brackets, its member, and each side that
/// is there on a line of its own.
pub proof fn lemma_difference_is_shown(d: DifferenceModel)
    ensures
        holds(difference_lines(d), "  ["@ + d.category),
        d.member matches Some(m) ==> holds(difference_lines(d), " "@ + m),
        d.base matches Some(b) ==> holds(difference_lines(d), "    - base:   "@ + b + "\n"@),
        d.target matches Some(t) ==> holds(difference_lines(d), "    + target: "@ + t + "\n"@),
{
    let member = match d.member {
        Some(m) => " "@ + m,
        None => ""@,
    };
    let base = match d.base {
        Some(b) => "    - base:   "@ + b + "\n"@,
        None => ""@,
    };
    let target = match d.target {
        Some(t) => "    + target: "@ + t + "\n"@,
        None => ""@,
    };
    let parts = seq!["  ["@, d.category, "]"@, member, "\n"@, base, target];
    reveal_with_fuel(cat_upto, 8);
    assert(difference_lines(d) == cat_upto(parts, 7));
    lemma_holds_pair(parts, 7, 0);
    lemma_holds_pair(parts, 7, 3);
    lemma_holds_pair(parts, 7, 5);
    lemma_holds_both(difference_lines(d), member, "\n"@);
    lemma_holds_both(difference_lines(d), base, target);
}

proof fn lemma_all_differences_are_shown(d: Seq<DifferenceModel>, n: int, i: int)
    requires
        0 <= i < n <= d.len(),
    ensures
        holds(differences_text(d, n), difference_lines(d[i])),
    decreases n,
{
    let before = differences_text(d, n - 1);
    if i == n - 1 {
        lemma_holds_piece(before, difference_lines(d[i]), Seq::empty());
    } else {
        lemma_all_differences_are_shown(d, n - 1, i);
        lemma_holds_within(
            Seq::empty(),
            before,
            difference_lines(d[n - 1]),
            difference_lines(d[i]),
        );
    }
}

/// A class is left out exactly where it is identical and such classes are not shown. One that
/// is shown has its name and status above the lines of all its differences, or says that
/// there is none, and tells of more declarations than one.
pub proof fn lemma_class_is_shown(c: ComparisonModel, show_identical: bool)
    ensures
        c.status is Identical && !show_identical <==> comparison_text(c, show_identical).len() == 0,
        !(c.status is Identical) || show_identical ==> {
            let s = comparison_text(c, show_identical);
            &&& holds(s, "\n=== "@ + c.name)
            &&& c.status is Identical ==> holds(s, " ["@ + "identical"@)
            &&& c.status is Different ==> holds(s, " ["@ + "different"@)
            &&& c.status is MissingBase ==> holds(s, " ["@ + "missing-base"@)
            &&& c.differences.len() == 0 ==> holds(s, "  no semantic differences\n"@)
            &&& forall|i: int|
                0 <= i < c.differences.len() ==> holds(
                    s,
                    difference_lines(#[trigger] c.differences[i]),
                )
            &&& c.target_variants > 1 || c.base_variants > 1 ==> holds(
                s,
                "  PDB variants: target="@ + dec(c.target_variants as nat),
            ) && holds(s, " base="@ + dec(c.base_variants as nat))
        },
{
    reveal_strlit("");
    if c.status is Identical && !show_identical {
    } else {
        let v = seq![
            "  PDB variants: target="@,
            dec(c.target_variants as nat),
            " base="@,
            dec(c.base_variants as nat),
            " (richest target / closest base compared)\n"@,
        ];
        let variants = if c.target_variants > 1 || c.base_variants > 1 {
            "  PDB variants: target="@ + dec(c.target_variants as nat) + " base="@ + dec(
                c.base_variants as nat,
            ) + " (richest target / closest base compared)\n"@
        } else {
            ""@
        };
        let n = c.differences.len() as int;
        let body = if c.differences.len() == 0 {
            "  no semantic differences\n"@
        } else {
            differences_text(c.differences, n)
        };
        let parts = seq!["\n=== "@, c.name, " ["@, c.status.name(), "] ===\n"@, variants, body];
        let s = comparison_text(c, show_identical);
        reveal_with_fuel(cat_upto, 8);
        assert(s == cat_upto(parts, 7));
        lemma_holds_pair(parts, 7, 0);
        lemma_holds_pair(parts, 7, 2);
        lemma_holds_pair(parts, 7, 5);
        lemma_holds_both(s, variants, body);
        reveal_strlit("\n=== ");
        assert(s.len() > 0);
        assert forall|i: int| 0 <= i < n implies holds(
            s,
            difference_lines(#[trigger] c.differences[i]),
        ) by {
            lemma_all_differences_are_shown(c.differences, n, i);
            lemma_holds_through(s, body, difference_lines(c.differences[i]));
        }
        if c.target_variants > 1 || c.base_variants > 1 {
            assert(variants == cat_upto(v, 5));
            lemma_holds_pair(v, 5, 0);
            lemma_holds_pair(v, 5, 2);
            lemma_holds_through(s, variants, v[0] + v[1]);
            lemma_holds_through(s, variants, v[2] + v[3]);
        }
    }
}

/// Every class that is shown stands in the text of all.
pub proof fn lemma_all_classes_are_shown(
    c: Seq<ComparisonModel>,
    show_identical: bool,
    n: int,
    i: int,
)
    requires
        0 <= i < n <= c.len(),
    ensures
        holds(comparisons_text(c, show_identical, n), comparison_text(c[i], show_identical)),
    decreases n,
{
    let before = comparisons_text(c, show_identical, n - 1);
    if i == n - 1 {
        lemma_holds_piece(before, comparison_text(c[i], show_identical), Seq::empty());
    } else {
        lemma_all_classes_are_shown(c, show_identical, n - 1, i);
        lemma_holds_within(
            Seq::empty(),
            before,
            comparison_text(c[n - 1], show_identical),
            comparison_text(c[i], show_identical),
        );
    }
}

/// Every category that occurs is shown with how often it does.
pub proof fn lemma_all_counts_are_shown(v: Seq<(String, usize)>, n: int, i: int)
    requires
        0 <= i < n <= v.len(),
    ensures
        holds(counts_text(v, n), "  "@ + v[i].0@ + ": "@ + dec(v[i].1 as nat) + "\n"@),
    decreases n,
{
    let line = "  "@ + v[i].0@ + ": "@ + dec(v[i].1 as nat) + "\n"@;
    let before = counts_text(v, n - 1);
    if i == n - 1 {
        lemma_holds_piece(before, line, Seq::empty());
    } else {
        lemma_all_counts_are_shown(v, n - 1, i);
        let last = "  "@ + v[n - 1].0@ + ": "@ + dec(v[n - 1].1 as nat) + "\n"@;
        lemma_holds_within(Seq::empty(), before, last, line);
    }
}

/// The totals give each count behind its label.
pub proof fn lemma_totals_are_shown(r: ClassReport)
    ensures
        holds(totals_text(r), "target classes="@ + dec(r.target_classes as nat)),
        holds(totals_text(r), " compared="@ + dec(r.compared_classes as nat)),
        holds(totals_text(r), " identical="@ + dec(r.identical_classes as nat)),
        holds(totals_text(r), " different="@ + dec(r.different_classes as nat)),
        holds(totals_text(r), " missing-base="@ + dec(r.missing_base_classes as nat)),
        holds(totals_text(r), " base-only="@ + dec(r.base_only_classes as nat)),
        holds(
            totals_text(r),
            "deduplicated variants beyond canonical: target="@ + dec(
                r.target_duplicate_variants as nat,
            ),
        ),
        holds(
            totals_text(r),
            dec(r.base_duplicate_variants as nat) + "\nunresolved declaration types: target="@,
        ),
        holds(
            totals_text(r),
            "\nunresolved declaration types: target="@ + dec(r.target_unresolved_types as nat),
        ),
        holds(totals_text(r), dec(r.base_unresolved_types as nat) + "\n"@),
{
    let a = seq![
        "target classes="@,
        dec(r.target_classes as nat),
        " compared="@,
        dec(r.compared_classes as nat),
        " identical="@,
        dec(r.identical_classes as nat),
        " different="@,
        dec(r.different_classes as nat),
        " missing-base="@,
        dec(r.missing_base_classes as nat),
        " base-only="@,
        dec(r.base_only_classes as nat),
        "\n"@,
    ];
    let b = seq![
        "deduplicated variants beyond canonical: target="@,
        dec(r.target_duplicate_variants as nat),
        " base="@,
        dec(r.base_duplicate_variants as nat),
        "\nunresolved declaration types: target="@,
        dec(r.target_unresolved_types as nat),
        " base="@,
        dec(r.base_unresolved_types as nat),
        "\n"@,
    ];
    reveal_with_fuel(cat_upto, 14);
    let x = cat_upto(a, 13);
    let y = cat_upto(b, 9);
    assert(totals_text(r) == x + y);
    lemma_holds_pair(a, 13, 0);
    lemma_holds_within(Seq::empty(), x, y, a[0] + a[1]);
    lemma_holds_pair(a, 13, 2);
    lemma_holds_within(Seq::empty(), x, y, a[2] + a[3]);
    lemma_holds_pair(a, 13, 4);
    lemma_holds_within(Seq::empty(), x, y, a[4] + a[5]);
    lemma_holds_pair(a, 13, 6);
    lemma_holds_within(Seq::empty(), x, y, a[6] + a[7]);
    lemma_holds_pair(a, 13, 8);
    lemma_holds_within(Seq::empty(), x, y, a[8] + a[9]);
    lemma_holds_pair(a, 13, 10);
    lemma_holds_within(Seq::empty(), x, y, a[10] + a[11]);
    lemma_holds_pair(b, 9, 0);
    lemma_holds_within(x, y, Seq::empty(), b[0] + b[1]);
    lemma_holds_pair(b, 9, 3);
    lemma_holds_within(x, y, Seq::empty(), b[3] + b[4]);
    lemma_holds_pair(b, 9, 4);
    lemma_holds_within(x, y, Seq::empty(), b[4] + b[5]);
    lemma_holds_pair(b, 9, 7);
    lemma_holds_within(x, y, Seq::empty(), b[7] + b[8]);
}

/// The report names both databases and what was asked for, and holds the totals, the counts
/// where there are differences, and all classes that are shown.
pub proof fn lemma_class_report_holds_all(
    r: ClassReport,
    filter: Option<Seq<char>>,
    show_identical: bool,
)
    ensures
        ({
            let s = report_text(r, filter, show_identical);
            &&& holds(s, "target PDB: "@ + r.target_pdb@)
            &&& holds(s, "\nbase PDB:   "@ + r.base_pdb@)
            &&& filter matches Some(f) ==> holds(s, "class filter: "@ + f + "\n"@)
            &&& holds(s, totals_text(r))
            &&& r.difference_counts@.len() > 0 ==> holds(
                s,
                counts_text(r.difference_counts@, r.difference_counts@.len() as int),
            )
            &&& holds(
                s,
                comparisons_text(views(r.classes@), show_identical, r.classes@.len() as int),
            )
        }),
{
    let wanted = match filter {
        Some(f) => "class filter: "@ + f + "\n"@,
        None => ""@,
    };
    let counts = if r.difference_counts@.len() == 0 {
        ""@
    } else {
        counts_text(r.difference_counts@, r.difference_counts@.len() as int)
    };
    let a = seq![
        "target PDB: "@,
        r.target_pdb@,
        "\nbase PDB:   "@,
        r.base_pdb@,
        "\n"@,
        wanted,
        totals_text(r),
        counts,
        comparisons_text(views(r.classes@), show_identical, r.classes@.len() as int),
    ];
    let s = report_text(r, filter, show_identical);
    reveal_with_fuel(cat_upto, 10);
    assert(s == cat_upto(a, 9));
    lemma_holds_pair(a, 9, 0);
    lemma_holds_pair(a, 9, 2);
    lemma_holds_pair(a, 9, 5);
    lemma_holds_pair(a, 9, 7);
    lemma_holds_both(s, a[5], a[6]);
    lemma_holds_both(s, a[7], a[8]);
}

} // verus!
