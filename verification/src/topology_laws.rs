//! What holds of the differences between the classes of two databases.

use crate::lcs::{lcs_len, lemma_script, matched, script, Step};
use crate::number::{dec, hex};
use crate::order::{is_rank, is_sorted, lemma_sorted_by, sorted_by};
use crate::search::{ends_with, joined, starts_with};
use crate::topology_classes::{ClassView, EntryKind, EntryModel};
use crate::topology_compare::{access_category, add_if, attribute_category, attributes_text,
    base_is_paired, base_presence, best_partner, class_differences, class_kind_name,
    details_category, entry_differences, entry_text, in_order, layout_category, lemma_pairs,
    matched_values, name_category, number_or_none, order_differences, order_in_base,
    order_in_target, pair_differences, pair_score, pairs_of, pairs_upto, position_pairs,
    presence_category, stable_values, target_is_paired, target_presence, type_category,
    whole_differences, widened, DifferenceModel};
use vstd::prelude::*;

verus! {

// ---------------------------------------------------------------------------
// The two entries of a pair
// ---------------------------------------------------------------------------

/// Whether two entries say the same.
pub open spec fn agree(b: EntryModel, t: EntryModel) -> bool {
    &&& b.name == t.name
    &&& b.typename == t.typename
    &&& b.access == t.access
    &&& b.offset == t.offset
    &&& b.raw_attributes == t.raw_attributes
    &&& b.vtable_offset == t.vtable_offset
    &&& b.details == t.details
}

/// Whether a difference of a member is told, with the words for both sides.
pub open spec fn is_told(
    v: Seq<DifferenceModel>,
    category: Seq<char>,
    member: Option<Seq<char>>,
    base: Option<Seq<char>>,
    target: Option<Seq<char>>,
) -> bool {
    v.contains(DifferenceModel { category, member, base, target })
}

proof fn lemma_push_keeps<A>(v: Seq<A>, x: A)
    ensures
        v.push(x).contains(x),
        forall|y: A| #[trigger] v.contains(y) ==> v.push(x).contains(y),
{
    let w = v.push(x);
    assert(w[v.len() as int] == x);
    assert forall|y: A| #[trigger] v.contains(y) implies w.contains(y) by {
        let k = v.index_of(y);
        assert(w[k] == y);
    }
}

proof fn lemma_add_if(v: Seq<DifferenceModel>, applies: bool, d: DifferenceModel)
    ensures
        applies ==> add_if(v, applies, d).contains(d) && add_if(v, applies, d).len() == v.len() + 1,
        !applies ==> add_if(v, applies, d) == v,
        forall|y: DifferenceModel| #[trigger] v.contains(y) ==> add_if(v, applies, d).contains(y),
{
    lemma_push_keeps(v, d);
}

/// Whatever the two entries of a pair differ in is told, with what both sides say: the name,
/// the type, the access, the offset, the attributes, the place in the table of virtual
/// functions, the details. There are as many differences as things that differ, and what was
/// told before stays.
pub proof fn lemma_pair_differences_are_told(
    v: Seq<DifferenceModel>,
    b: EntryModel,
    t: EntryModel,
)
    ensures
        ({
            let d = entry_differences(v, b, t);
            let m = Some(t.name);
            &&& b.name != t.name ==> is_told(
                d,
                name_category(t.kind),
                m,
                Some(b.name),
                Some(t.name),
            )
            &&& b.typename != t.typename ==> is_told(
                d,
                type_category(t.kind),
                m,
                Some(b.typename),
                Some(t.typename),
            )
            &&& b.access != t.access ==> is_told(
                d,
                access_category(t.kind),
                m,
                Some(b.access.name()),
                Some(t.access.name()),
            )
            &&& b.offset != t.offset ==> is_told(
                d,
                layout_category(t.kind),
                m,
                Some(number_or_none(b.offset)),
                Some(number_or_none(t.offset)),
            )
            &&& b.raw_attributes != t.raw_attributes ==> is_told(
                d,
                attribute_category(t.kind),
                m,
                Some(attributes_text(b)),
                Some(attributes_text(t)),
            )
            &&& b.vtable_offset != t.vtable_offset ==> is_told(
                d,
                "method-vtable-slot"@,
                m,
                Some(number_or_none(widened(b.vtable_offset))),
                Some(number_or_none(widened(t.vtable_offset))),
            )
            &&& b.details != t.details ==> is_told(
                d,
                details_category(t.kind),
                m,
                Some(joined(b.details, " "@)),
                Some(joined(t.details, " "@)),
            )
            &&& d.len() >= v.len()
            &&& d.len() == v.len() <==> agree(b, t)
            &&& agree(b, t) ==> d == v
            &&& forall|y: DifferenceModel| #[trigger] v.contains(y) ==> d.contains(y)
        }),
{
    let m = Some(t.name);
    let d1 = DifferenceModel {
        category: name_category(t.kind),
        member: m,
        base: Some(b.name),
        target: Some(t.name),
    };
    let v1 = add_if(v, b.name != t.name, d1);
    lemma_add_if(v, b.name != t.name, d1);
    let d2 = DifferenceModel {
        category: type_category(t.kind),
        member: m,
        base: Some(b.typename),
        target: Some(t.typename),
    };
    let v2 = add_if(v1, b.typename != t.typename, d2);
    lemma_add_if(v1, b.typename != t.typename, d2);
    let d3 = DifferenceModel {
        category: access_category(t.kind),
        member: m,
        base: Some(b.access.name()),
        target: Some(t.access.name()),
    };
    let v3 = add_if(v2, b.access != t.access, d3);
    lemma_add_if(v2, b.access != t.access, d3);
    let d4 = DifferenceModel {
        category: layout_category(t.kind),
        member: m,
        base: Some(number_or_none(b.offset)),
        target: Some(number_or_none(t.offset)),
    };
    let v4 = add_if(v3, b.offset != t.offset, d4);
    lemma_add_if(v3, b.offset != t.offset, d4);
    let d5 = DifferenceModel {
        category: attribute_category(t.kind),
        member: m,
        base: Some(attributes_text(b)),
        target: Some(attributes_text(t)),
    };
    let v5 = add_if(v4, b.raw_attributes != t.raw_attributes, d5);
    lemma_add_if(v4, b.raw_attributes != t.raw_attributes, d5);
    let d6 = DifferenceModel {
        category: "method-vtable-slot"@,
        member: m,
        base: Some(number_or_none(widened(b.vtable_offset))),
        target: Some(number_or_none(widened(t.vtable_offset))),
    };
    let v6 = add_if(v5, b.vtable_offset != t.vtable_offset, d6);
    lemma_add_if(v5, b.vtable_offset != t.vtable_offset, d6);
    let d7 = DifferenceModel {
        category: details_category(t.kind),
        member: m,
        base: Some(joined(b.details, " "@)),
        target: Some(joined(t.details, " "@)),
    };
    lemma_add_if(v6, b.details != t.details, d7);
    assert(entry_differences(v, b, t) == add_if(v6, b.details != t.details, d7));
}

// ---------------------------------------------------------------------------
// Two classes
// ---------------------------------------------------------------------------

proof fn lemma_pairs_told(
    v: Seq<DifferenceModel>,
    base: Seq<EntryModel>,
    target: Seq<EntryModel>,
    pairs: Seq<(int, int)>,
    n: int,
)
    requires
        0 <= n <= pairs.len(),
    ensures
        ({
            let d = pair_differences(v, base, target, pairs, n);
            &&& d.len() >= v.len()
            &&& d.len() == v.len() ==> d == v && forall|k: int|
                0 <= k < n ==> agree(base[(#[trigger] pairs[k]).1], target[pairs[k].0])
            &&& forall|y: DifferenceModel| #[trigger] v.contains(y) ==> d.contains(y)
            &&& forall|k: int, y: DifferenceModel|
                0 <= k < n && #[trigger] entry_differences(
                    Seq::empty(),
                    base[pairs[k].1],
                    target[pairs[k].0],
                ).contains(y) ==> d.contains(y)
        }),
    decreases n,
{
    if n > 0 {
        lemma_pairs_told(v, base, target, pairs, n - 1);
        let before = pair_differences(v, base, target, pairs, n - 1);
        let b = base[pairs[n - 1].1];
        let t = target[pairs[n - 1].0];
        lemma_pair_differences_are_told(before, b, t);
        lemma_own_differences(before, b, t);
    }
}

/// What is told of two entries does not depend on what was told before.
proof fn lemma_own_differences(v: Seq<DifferenceModel>, b: EntryModel, t: EntryModel)
    ensures
        entry_differences(v, b, t) == v + entry_differences(Seq::empty(), b, t),
{
    assert(entry_differences(v, b, t) =~= v + entry_differences(Seq::empty(), b, t));
    assert forall|y: DifferenceModel| #[trigger]
        entry_differences(Seq::empty(), b, t).contains(y) implies entry_differences(
        v,
        b,
        t,
    ).contains(y) by {
        let e = entry_differences(Seq::empty(), b, t);
        let k = e.index_of(y);
        assert((v + e)[v.len() + k] == y);
    }
}

proof fn lemma_target_presence(
    v: Seq<DifferenceModel>,
    target: Seq<EntryModel>,
    pairs: Seq<(int, int)>,
    n: int,
)
    requires
        0 <= n <= target.len(),
    ensures
        ({
            let d = target_presence(v, target, pairs, n);
            &&& d.len() >= v.len()
            &&& d.len() == v.len() ==> d == v && forall|i: int|
                0 <= i < n ==> #[trigger] target_is_paired(pairs, i)
            &&& forall|y: DifferenceModel| #[trigger] v.contains(y) ==> d.contains(y)
            &&& forall|i: int|
                0 <= i < n && !#[trigger] target_is_paired(pairs, i) ==> is_told(
                    d,
                    presence_category(target[i].kind),
                    Some(target[i].name),
                    None,
                    Some(entry_text(target[i])),
                )
        }),
    decreases n,
{
    if n > 0 {
        lemma_target_presence(v, target, pairs, n - 1);
        let before = target_presence(v, target, pairs, n - 1);
        lemma_add_if(
            before,
            !target_is_paired(pairs, n - 1),
            DifferenceModel {
                category: presence_category(target[n - 1].kind),
                member: Some(target[n - 1].name),
                base: None,
                target: Some(entry_text(target[n - 1])),
            },
        );
    }
}

proof fn lemma_base_presence(
    v: Seq<DifferenceModel>,
    base: Seq<EntryModel>,
    pairs: Seq<(int, int)>,
    n: int,
)
    requires
        0 <= n <= base.len(),
    ensures
        ({
            let d = base_presence(v, base, pairs, n);
            &&& d.len() >= v.len()
            &&& d.len() == v.len() ==> d == v && forall|i: int|
                0 <= i < n ==> #[trigger] base_is_paired(pairs, i)
            &&& forall|y: DifferenceModel| #[trigger] v.contains(y) ==> d.contains(y)
            &&& forall|i: int|
                0 <= i < n && !#[trigger] base_is_paired(pairs, i) ==> is_told(
                    d,
                    presence_category(base[i].kind),
                    Some(base[i].name),
                    Some(entry_text(base[i])),
                    None,
                )
        }),
    decreases n,
{
    if n > 0 {
        lemma_base_presence(v, base, pairs, n - 1);
        let before = base_presence(v, base, pairs, n - 1);
        lemma_add_if(
            before,
            !base_is_paired(pairs, n - 1),
            DifferenceModel {
                category: presence_category(base[n - 1].kind),
                member: Some(base[n - 1].name),
                base: Some(entry_text(base[n - 1])),
                target: None,
            },
        );
    }
}

proof fn lemma_order_told(
    v: Seq<DifferenceModel>,
    base: Seq<EntryModel>,
    target: Seq<EntryModel>,
    pairs: Seq<(usize, usize)>,
    n: int,
)
    requires
        0 <= n <= pairs.len(),
    ensures
        ({
            let d = order_differences(v, base, target, pairs, n);
            &&& d.len() >= v.len()
            &&& d.len() == v.len() ==> d == v && forall|k: int|
                0 <= k < n ==> in_order(pairs).contains((#[trigger] pairs[k]).0)
            &&& forall|y: DifferenceModel| #[trigger] v.contains(y) ==> d.contains(y)
            &&& forall|k: int|
                0 <= k < n && !in_order(pairs).contains((#[trigger] pairs[k]).0) ==> {
                    let t = target[pairs[k].0 as int];
                    let b = base[pairs[k].1 as int];
                    is_told(
                        d,
                        "declaration-order"@,
                        Some(t.name),
                        Some("#"@ + dec(pairs[k].1 as nat) + " "@ + entry_text(b)),
                        Some("#"@ + dec(pairs[k].0 as nat) + " "@ + entry_text(t)),
                    )
                }
        }),
    decreases n,
{
    if n > 0 {
        lemma_order_told(v, base, target, pairs, n - 1);
        let before = order_differences(v, base, target, pairs, n - 1);
        let (ti, bi) = pairs[n - 1];
        lemma_add_if(
            before,
            !in_order(pairs).contains(ti),
            DifferenceModel {
                category: "declaration-order"@,
                member: Some(target[ti as int].name),
                base: Some("#"@ + dec(bi as nat) + " "@ + entry_text(base[bi as int])),
                target: Some("#"@ + dec(ti as nat) + " "@ + entry_text(target[ti as int])),
            },
        );
    }
}

/// Whatever two classes differ in is told: their kind, size and properties; all that the
/// entries of each pair differ in; every entry that is in no pair.
pub proof fn lemma_class_differences_are_told(b: ClassView, t: ClassView)
    ensures
        ({
            let d = class_differences(b, t);
            let pairs = pairs_of(b.entries, t.entries);
            &&& b.kind != t.kind ==> exists|x: Seq<char>, y: Seq<char>|
                #[trigger] is_told(d, "class-kind"@, None, Some(x), Some(y))
            &&& b.size != t.size ==> is_told(
                d,
                "class-size"@,
                None,
                Some("0x"@ + hex(b.size as nat)),
                Some("0x"@ + hex(t.size as nat)),
            )
            &&& b.properties != t.properties ==> is_told(
                d,
                "class-properties"@,
                None,
                Some(b.properties),
                Some(t.properties),
            )
            &&& forall|k: int, y: DifferenceModel|
                0 <= k < pairs.len() && #[trigger] entry_differences(
                    Seq::empty(),
                    b.entries[pairs[k].1],
                    t.entries[pairs[k].0],
                ).contains(y) ==> d.contains(y)
            &&& forall|i: int|
                0 <= i < t.entries.len() && !#[trigger] target_is_paired(pairs, i) ==> is_told(
                    d,
                    presence_category(t.entries[i].kind),
                    Some(t.entries[i].name),
                    None,
                    Some(entry_text(t.entries[i])),
                )
            &&& forall|i: int|
                0 <= i < b.entries.len() && !#[trigger] base_is_paired(pairs, i) ==> is_told(
                    d,
                    presence_category(b.entries[i].kind),
                    Some(b.entries[i].name),
                    Some(entry_text(b.entries[i])),
                    None,
                )
        }),
{
    let pairs = pairs_of(b.entries, t.entries);
    let n = pairs.len() as int;
    let w = whole_differences(b, t);
    lemma_whole(b, t);
    let v1 = pair_differences(w, b.entries, t.entries, pairs, n);
    lemma_pairs_told(w, b.entries, t.entries, pairs, n);
    let v2 = target_presence(v1, t.entries, pairs, t.entries.len() as int);
    lemma_target_presence(v1, t.entries, pairs, t.entries.len() as int);
    let v3 = base_presence(v2, b.entries, pairs, b.entries.len() as int);
    lemma_base_presence(v2, b.entries, pairs, b.entries.len() as int);
    lemma_order_told(v3, b.entries, t.entries, position_pairs(pairs), n);
    let d = class_differences(b, t);
    if b.kind != t.kind {
        let (x, y) = choose|x: Seq<char>, y: Seq<char>|
            #[trigger] is_told(w, "class-kind"@, None, Some(x), Some(y));
        assert(is_told(d, "class-kind"@, None, Some(x), Some(y)));
    }
}

proof fn lemma_whole(b: ClassView, t: ClassView)
    ensures
        ({
            let w = whole_differences(b, t);
            &&& b.kind != t.kind ==> exists|x: Seq<char>, y: Seq<char>|
                #[trigger] is_told(w, "class-kind"@, None, Some(x), Some(y))
            &&& b.size != t.size ==> is_told(
                w,
                "class-size"@,
                None,
                Some("0x"@ + hex(b.size as nat)),
                Some("0x"@ + hex(t.size as nat)),
            )
            &&& b.properties != t.properties ==> is_told(
                w,
                "class-properties"@,
                None,
                Some(b.properties),
                Some(t.properties),
            )
            &&& w.len() == 0 ==> b.kind == t.kind && b.size == t.size && b.properties
                == t.properties
        }),
{
    let d1 = whole_kind(b, t);
    let v1 = add_if(Seq::empty(), b.kind != t.kind, d1);
    lemma_add_if(Seq::empty(), b.kind != t.kind, d1);
    let d2 = DifferenceModel {
        category: "class-size"@,
        member: None,
        base: Some("0x"@ + hex(b.size as nat)),
        target: Some("0x"@ + hex(t.size as nat)),
    };
    let v2 = add_if(v1, b.size != t.size, d2);
    lemma_add_if(v1, b.size != t.size, d2);
    let d3 = DifferenceModel {
        category: "class-properties"@,
        member: None,
        base: Some(b.properties),
        target: Some(t.properties),
    };
    lemma_add_if(v2, b.properties != t.properties, d3);
    let w = whole_differences(b, t);
    assert(w == add_if(v2, b.properties != t.properties, d3));
    if b.kind != t.kind {
        assert(w.contains(d1));
        assert(is_told(w, "class-kind"@, None, Some(d1.base->0), Some(d1.target->0)));
    }
}

spec fn whole_kind(b: ClassView, t: ClassView) -> DifferenceModel {
    DifferenceModel {
        category: "class-kind"@,
        member: None,
        base: Some(class_kind_name(b.kind)),
        target: Some(class_kind_name(t.kind)),
    }
}

// ---------------------------------------------------------------------------
// Classes without differences
// ---------------------------------------------------------------------------

proof fn lemma_lcs_len_at_most<K>(a: Seq<K>, b: Seq<K>, i: int, j: int)
    requires
        0 <= i <= a.len(),
        0 <= j <= b.len(),
    ensures
        lcs_len(a, b, i, j) <= a.len() - i,
        lcs_len(a, b, i, j) <= b.len() - j,
    decreases (a.len() - i) + (b.len() - j),
{
    if i < a.len() && j < b.len() {
        lemma_lcs_len_at_most(a, b, i + 1, j + 1);
        lemma_lcs_len_at_most(a, b, i + 1, j);
        lemma_lcs_len_at_most(a, b, i, j + 1);
    }
}

/// Lists that have all of themselves in common are the same.
proof fn lemma_full_lcs<K>(a: Seq<K>, b: Seq<K>, i: int)
    requires
        a.len() == b.len(),
        0 <= i <= a.len(),
        lcs_len(a, b, i, i) == a.len() - i,
    ensures
        forall|k: int| i <= k < a.len() ==> #[trigger] a[k] == b[k],
    decreases a.len() - i,
{
    if i < a.len() {
        lemma_lcs_len_at_most(a, b, i + 1, i);
        lemma_lcs_len_at_most(a, b, i, i + 1);
        assert(a[i] == b[i]);
        lemma_full_lcs(a, b, i + 1);
    }
}

proof fn lemma_matched_values(left: Seq<usize>, ops: Seq<Step>, n: int)
    requires
        0 <= n <= ops.len(),
    ensures
        matched_values(left, ops, n).finite(),
        matched_values(left, ops, n).len() <= matched(ops.take(n)),
    decreases n,
{
    if n > 0 {
        lemma_matched_values(left, ops, n - 1);
        lemma_matched_push(ops.take(n - 1), ops[n - 1]);
        assert(ops.take(n) =~= ops.take(n - 1).push(ops[n - 1]));
    }
}

proof fn lemma_matched_push(s: Seq<Step>, x: Step)
    ensures
        matched(s.push(x)) == matched(s) + if x is Both {
            1nat
        } else {
            0
        },
    decreases s.len(),
{
    let t = s.push(x);
    if s.len() == 0 {
        assert(t[0] == x);
        assert(t.skip(1) =~= Seq::<Step>::empty());
        assert(matched(t.skip(1)) == 0 && matched(s) == 0);
    } else {
        lemma_matched_push(s.skip(1), x);
        assert(t[0] == s[0]);
        assert(t.skip(1) =~= s.skip(1).push(x));
    }
}

/// Pairs that all keep their order stand in the order of both sides.
proof fn lemma_all_in_order(p: Seq<(usize, usize)>)
    requires
        forall|k: int| 0 <= k < p.len() ==> (#[trigger] p[k]).0 == k,
        forall|k: int| 0 <= k < p.len() ==> in_order(p).contains((#[trigger] p[k]).0),
    ensures
        forall|k: int, l: int| 0 <= k < l < p.len() ==> (#[trigger] p[k]).1 <= (#[trigger] p[l]).1,
{
    broadcast use vstd::seq_lib::group_to_multiset_ensures;

    let a = order_in_base(p);
    let b = order_in_target(p);
    let le = |x: (usize, usize), y: (usize, usize)| x.1 <= y.1;
    let s = sorted_by(p, le);
    lemma_sorted_by(p, le);
    assert(is_rank(le));
    assert(is_sorted(s, le));
    let ops = script(a, b, 0, 0);
    lemma_script(a, b, 0, 0);
    lemma_matched_values(a, ops, ops.len() as int);
    assert(ops.take(ops.len() as int) =~= ops);
    // As many values are matched as there are pairs.
    let all = b.to_set();
    assert(b.no_duplicates()) by {
        assert forall|i: int, j: int| 0 <= i < b.len() && 0 <= j < b.len() && i != j implies b[i]
            != b[j] by {
            assert(p[i].0 == i && p[j].0 == j);
        }
    }
    b.unique_seq_to_set();
    assert(all.subset_of(stable_values(a, b))) by {
        assert forall|x: usize| all.contains(x) implies stable_values(a, b).contains(x) by {
            let k = b.index_of(x);
            assert(in_order(p).contains(p[k].0));
        }
    }
    vstd::set_lib::lemma_len_subset(all, stable_values(a, b));
    lemma_lcs_len_at_most(a, b, 0, 0);
    lemma_full_lcs(a, b, 0);
    // So the sorted pairs are the pairs.
    assert forall|k: int| 0 <= k < p.len() implies #[trigger] s[k] == p[k] by {
        assert(a[k] == s[k].0);
        assert(b[k] == p[k].0);
        assert(s.to_multiset().count(s[k]) > 0) by {
            assert(s.contains(s[k]));
        }
        assert(p.to_multiset().count(s[k]) > 0);
        assert(p.contains(s[k]));
        let m = p.index_of(s[k]);
        assert(p[m].0 == m);
    }
    assert forall|k: int, l: int| 0 <= k < l < p.len() implies (#[trigger] p[k]).1 <= (
    #[trigger] p[l]).1 by {
        assert(le(s[k], s[l]));
    }
}

/// Numbers that rise and are as many as the range they lie in are the numbers of the range.
proof fn lemma_rising_fill(q: Seq<int>, n: int)
    requires
        q.len() == n,
        forall|k: int| 0 <= k < q.len() ==> 0 <= #[trigger] q[k] < n,
        forall|k: int, l: int| 0 <= k < l < q.len() ==> (#[trigger] q[k]) < (#[trigger] q[l]),
    ensures
        forall|k: int| 0 <= k < q.len() ==> #[trigger] q[k] == k,
{
    assert forall|k: int| 0 <= k < q.len() implies #[trigger] q[k] == k by {
        lemma_rising_low(q, k);
        lemma_rising_high(q, n, k);
    }
}

proof fn lemma_rising_low(q: Seq<int>, k: int)
    requires
        0 <= k < q.len(),
        forall|k: int| 0 <= k < q.len() ==> 0 <= #[trigger] q[k],
        forall|k: int, l: int| 0 <= k < l < q.len() ==> (#[trigger] q[k]) < (#[trigger] q[l]),
    ensures
        q[k] >= k,
    decreases k,
{
    if k > 0 {
        lemma_rising_low(q, k - 1);
        assert(q[k - 1] < q[k]);
    }
}

proof fn lemma_rising_high(q: Seq<int>, n: int, k: int)
    requires
        0 <= k < q.len(),
        q.len() == n,
        forall|k: int| 0 <= k < q.len() ==> #[trigger] q[k] < n,
        forall|k: int, l: int| 0 <= k < l < q.len() ==> (#[trigger] q[k]) < (#[trigger] q[l]),
    ensures
        q[k] <= k,
    decreases n - k,
{
    if k < n - 1 {
        lemma_rising_high(q, n, k + 1);
        assert(q[k] < q[k + 1]);
    }
}

/// Numbers without repetitions that take up all of a range are as many as the range.
proof fn lemma_covers(q: Seq<int>, n: int)
    requires
        0 <= n,
        forall|i: int| 0 <= i < n ==> #[trigger] q.contains(i),
    ensures
        q.len() >= n,
{
    broadcast use vstd::seq_lib::seq_to_set_is_finite;

    let r = vstd::set_lib::set_int_range(0, n);
    vstd::set_lib::lemma_int_range(0, n);
    q.lemma_cardinality_of_set();
    assert(r.subset_of(q.to_set())) by {
        assert forall|i: int| r.contains(i) implies q.to_set().contains(i) by {
            assert(q.contains(i));
        }
    }
    vstd::set_lib::lemma_len_subset(r, q.to_set());
}

/// Two classes of which no difference is told are the same: in kind, size and properties,
/// and entry by entry, in order, in all that an entry says.
pub proof fn lemma_no_difference_means_same(b: ClassView, t: ClassView)
    requires
        class_differences(b, t).len() == 0,
        b.entries.len() <= usize::MAX,
        t.entries.len() <= usize::MAX,
    ensures
        b.kind == t.kind,
        b.size == t.size,
        b.properties == t.properties,
        b.entries.len() == t.entries.len(),
        forall|i: int|
            0 <= i < t.entries.len() ==> agree(b.entries[i], #[trigger] t.entries[i])
                && b.entries[i].kind == t.entries[i].kind,
{
    let pairs = pairs_of(b.entries, t.entries);
    let n = pairs.len() as int;
    let w = whole_differences(b, t);
    lemma_whole(b, t);
    let v1 = pair_differences(w, b.entries, t.entries, pairs, n);
    lemma_pairs_told(w, b.entries, t.entries, pairs, n);
    let v2 = target_presence(v1, t.entries, pairs, t.entries.len() as int);
    lemma_target_presence(v1, t.entries, pairs, t.entries.len() as int);
    let v3 = base_presence(v2, b.entries, pairs, b.entries.len() as int);
    lemma_base_presence(v2, b.entries, pairs, b.entries.len() as int);
    let p = position_pairs(pairs);
    lemma_order_told(v3, b.entries, t.entries, p, n);
    lemma_pairs(b.entries, t.entries, t.entries.len() as int);
    // Every entry of the target is in a pair, in order.
    let ts = pairs.map_values(|x: (int, int)| x.0);
    let bs = pairs.map_values(|x: (int, int)| x.1);
    assert forall|i: int| 0 <= i < t.entries.len() implies #[trigger] ts.contains(i) by {
        assert(target_is_paired(pairs, i));
        let k = choose|k: int| 0 <= k < pairs.len() && (#[trigger] pairs[k]).0 == i;
        assert(ts[k] == i);
    }
    assert forall|i: int| 0 <= i < b.entries.len() implies #[trigger] bs.contains(i) by {
        assert(base_is_paired(pairs, i));
        let k = choose|k: int| 0 <= k < pairs.len() && (#[trigger] pairs[k]).1 == i;
        assert(bs[k] == i);
    }
    lemma_covers(ts, t.entries.len() as int);
    lemma_covers(bs, b.entries.len() as int);
    assert forall|k: int, l: int| 0 <= k < l < ts.len() implies (#[trigger] ts[k]) < (
    #[trigger] ts[l]) by {
        assert(pairs[k].0 < pairs[l].0);
    }
    assert forall|k: int| 0 <= k < ts.len() implies 0 <= #[trigger] ts[k] < t.entries.len() by {
        assert(0 <= pairs[k].0);
    }
    if n > 0 {
        lemma_rising_low(ts, n - 1);
    }
    assert(n == t.entries.len());
    lemma_rising_fill(ts, n);
    assert(bs.no_duplicates()) by {
        assert forall|i: int, j: int| 0 <= i < bs.len() && 0 <= j < bs.len() && i != j implies bs[i]
            != bs[j] by {
            if i < j {
                assert(pairs[i].1 != pairs[j].1);
            } else {
                assert(pairs[j].1 != pairs[i].1);
            }
        }
    }
    lemma_distinct_fit(bs, b.entries.len() as int);
    assert(n == b.entries.len());
    // The pairs stand in the order of the base too.
    if n >= 2 {
        assert forall|k: int| 0 <= k < p.len() implies (#[trigger] p[k]).0 == k && p[k].1
            == bs[k] by {
            assert(ts[k] == k);
            assert(0 <= pairs[k].1 < b.entries.len());
        }
        lemma_all_in_order(p);
        assert forall|k: int, l: int| 0 <= k < l < bs.len() implies (#[trigger] bs[k]) < (
        #[trigger] bs[l]) by {
            assert(p[k].1 <= p[l].1);
        }
    }
    assert forall|k: int| 0 <= k < bs.len() implies 0 <= #[trigger] bs[k] < n by {
        assert(0 <= pairs[k].1);
    }
    lemma_rising_fill(bs, n);
    assert forall|i: int| 0 <= i < t.entries.len() implies agree(
        b.entries[i],
        #[trigger] t.entries[i],
    ) && b.entries[i].kind == t.entries[i].kind by {
        assert(ts[i] == i && bs[i] == i);
        assert(pairs[i] == (i, i));
        assert(agree(b.entries[pairs[i].1], t.entries[pairs[i].0]));
        assert(pair_score(b.entries[pairs[i].1], t.entries[pairs[i].0]) is Some);
    }
}

/// Numbers without repetitions are no more than the range they lie in.
proof fn lemma_distinct_fit(q: Seq<int>, n: int)
    requires
        0 <= n,
        q.no_duplicates(),
        forall|k: int| 0 <= k < q.len() ==> 0 <= #[trigger] q[k] < n,
    ensures
        q.len() <= n,
{
    broadcast use vstd::seq_lib::seq_to_set_is_finite;

    let r = vstd::set_lib::set_int_range(0, n);
    vstd::set_lib::lemma_int_range(0, n);
    q.unique_seq_to_set();
    assert(q.to_set().subset_of(r)) by {
        assert forall|x: int| q.to_set().contains(x) implies r.contains(x) by {
            let k = q.index_of(x);
            assert(0 <= q[k] < n);
        }
    }
    vstd::set_lib::lemma_len_subset(q.to_set(), r);
}

// ---------------------------------------------------------------------------
// Pairs
// ---------------------------------------------------------------------------

proof fn lemma_partner_is_best(
    base: Seq<EntryModel>,
    pairs: Seq<(int, int)>,
    t: EntryModel,
    ti: int,
    n: int,
    i: int,
)
    requires
        0 <= i < n <= base.len(),
        pair_score(base[i], t) is Some,
        !base_is_paired(pairs, i),
    ensures
        best_partner(base, pairs, t, ti, n) matches Some((s, _, _)) && s <= pair_score(
            base[i],
            t,
        )->0,
    decreases n,
{
    if i < n - 1 {
        lemma_partner_is_best(base, pairs, t, ti, n - 1, i);
    }
}

proof fn lemma_pairs_grow(base: Seq<EntryModel>, target: Seq<EntryModel>, m: int, n: int)
    requires
        0 <= m <= n <= target.len(),
    ensures
        pairs_upto(base, target, m).len() <= pairs_upto(base, target, n).len(),
        forall|k: int|
            0 <= k < pairs_upto(base, target, m).len() ==> #[trigger] pairs_upto(base, target, n)[k]
                == pairs_upto(base, target, m)[k],
    decreases n - m,
{
    if m < n {
        lemma_pairs_grow(base, target, m, n - 1);
    }
}

/// No two entries that could be a pair are both left alone.
pub proof fn lemma_pairs_leave_no_pair(
    base: Seq<EntryModel>,
    target: Seq<EntryModel>,
    i: int,
    j: int,
)
    requires
        0 <= i < base.len(),
        0 <= j < target.len(),
        pair_score(base[i], target[j]) is Some,
    ensures
        base_is_paired(pairs_of(base, target), i) || target_is_paired(pairs_of(base, target), j),
{
    let n = target.len() as int;
    let all = pairs_of(base, target);
    let before = pairs_upto(base, target, j);
    lemma_pairs_grow(base, target, j, n);
    lemma_pairs_grow(base, target, j + 1, n);
    if base_is_paired(before, i) {
        let k = choose|k: int| 0 <= k < before.len() && (#[trigger] before[k]).1 == i;
        assert(all[k].1 == i);
    } else {
        lemma_partner_is_best(base, before, target[j], j, base.len() as int, i);
        let behind = pairs_upto(base, target, j + 1);
        assert(behind.len() == before.len() + 1);
        assert(behind[before.len() as int].0 == j);
        assert(all[before.len() as int].0 == j);
    }
}

/// What can be a pair: entries of one kind only. Members, static members, nested types and
/// methods of one name always can, bases of one type always and of another never.
pub proof fn lemma_what_can_be_a_pair(b: EntryModel, t: EntryModel)
    ensures
        b.kind != t.kind ==> pair_score(b, t) is None,
        b.kind == t.kind && b.name == t.name && (b.kind == EntryKind::Field || b.kind
            == EntryKind::StaticField || b.kind == EntryKind::NestedType) ==> pair_score(b, t)
            == Some(0int),
        b.kind == t.kind && b.kind == EntryKind::Method && b.name == t.name && b.typename
            == t.typename ==> pair_score(b, t) == Some(0int),
        b.kind == t.kind && b.kind == EntryKind::Method && b.name == t.name ==> pair_score(
            b,
            t,
        ) is Some,
        b.kind == t.kind && b.kind == EntryKind::Method && b.name != t.name ==> (pair_score(
            b,
            t,
        ) matches Some(s) ==> s > 2),
        b.kind == t.kind && (b.kind == EntryKind::Base || b.kind == EntryKind::VirtualBase) ==> (
        pair_score(b, t) is Some <==> b.typename == t.typename),
        b.kind == t.kind && b.kind == EntryKind::Field && b.name != t.name ==> (pair_score(
            b,
            t,
        ) is Some <==> b.offset == t.offset && b.typename == t.typename),
        b.kind == t.kind && b.kind == EntryKind::VftablePointer ==> pair_score(b, t) is Some,
{
}

/// The words for a kind of difference begin with the kind of entry and end with what
/// differs.
pub proof fn lemma_categories_name_kind_and_aspect(k: EntryKind)
    requires
        k == EntryKind::Field || k == EntryKind::StaticField || k == EntryKind::Method || k
            == EntryKind::NestedType,
    ensures
        starts_with(presence_category(k), k.name()) && ends_with(
            presence_category(k),
            "-presence"@,
        ),
        starts_with(name_category(k), k.name()) && ends_with(name_category(k), "-name"@),
        starts_with(type_category(k), k.name()),
        starts_with(access_category(k), k.name()) && ends_with(
            access_category(k),
            "-visibility"@,
        ),
        starts_with(attribute_category(k), k.name()),
        type_category(k) != name_category(k),
        type_category(k) != access_category(k),
        type_category(k) != presence_category(k),
        layout_category(k) != type_category(k),
        layout_category(k) != name_category(k),
        k == EntryKind::Field ==> type_category(k) == "field-type"@ && layout_category(k)
            == "field-offset"@,
{
    reveal_strlit("-presence");
    reveal_strlit("-name");
    reveal_strlit("-visibility");
    reveal_strlit("field");
    reveal_strlit("static-field");
    reveal_strlit("nested-type");
    reveal_strlit("method");
    reveal_strlit("field-presence");
    reveal_strlit("static-field-presence");
    reveal_strlit("method-presence");
    reveal_strlit("nested-type-presence");
    reveal_strlit("field-name");
    reveal_strlit("static-field-name");
    reveal_strlit("method-name");
    reveal_strlit("nested-type-name");
    reveal_strlit("field-type");
    reveal_strlit("static-field-type");
    reveal_strlit("method-signature");
    reveal_strlit("field-visibility");
    reveal_strlit("static-field-visibility");
    reveal_strlit("method-visibility");
    reveal_strlit("nested-type-visibility");
    reveal_strlit("field-attributes");
    reveal_strlit("static-field-attributes");
    reveal_strlit("method-qualifiers");
    reveal_strlit("nested-type-attributes");
    reveal_strlit("field-offset");
    reveal_strlit("declaration-offset");
    let n = k.name().len() as int;
    assert(presence_category(k).take(n) =~= k.name());
    assert(name_category(k).take(n) =~= k.name());
    assert(type_category(k).take(n) =~= k.name());
    assert(access_category(k).take(n) =~= k.name());
    assert(attribute_category(k).take(n) =~= k.name());
    assert(presence_category(k).skip(n) =~= "-presence"@);
    assert(name_category(k).skip(n) =~= "-name"@);
    assert(access_category(k).skip(n) =~= "-visibility"@);
    assert(layout_category(k)[0] == 'f' || layout_category(k)[0] == 'd');
    if k == EntryKind::NestedType {
        assert(type_category(k).len() == 11);
    }
    assert(type_category(k).len() != name_category(k).len() || type_category(k)[n + 1]
        != name_category(k)[n + 1]);
    assert(type_category(k).len() != access_category(k).len() || type_category(k)[n + 1]
        != access_category(k)[n + 1]);
    assert(type_category(k).len() != presence_category(k).len() || type_category(k)[n + 1]
        != presence_category(k)[n + 1]);
    assert(layout_category(k).len() != type_category(k).len());
    assert(layout_category(k).len() != name_category(k).len());
}

} // verus!
