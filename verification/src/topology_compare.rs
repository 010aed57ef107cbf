//! The comparison of the classes that two databases declare.

use crate::lcs::{align, script, steps, views, Edit, Step};
use crate::number::{dec, decimal, hex, hexadecimal};
use crate::order::{rank_of, sort_stable, sorted_by, Ranked};
use crate::pieces::{cat2, cat4, cat7};
use crate::search::{join, joined};
use crate::text::owned;
use crate::topology_classes::{same_texts, ClassEntry, ClassModel, ClassView, EntryKind, EntryModel};
use crate::type_builder::opt;
use crate::type_table::ClassKind;
use vstd::prelude::*;
use vstd::string::StringExecFns;

verus! {

/// One difference between two classes.
#[derive(Debug)]
pub struct ClassDifference {
    pub category: &'static str,
    pub member: Option<String>,
    pub base: Option<String>,
    pub target: Option<String>,
}

/// One difference between two classes, as a model.
pub struct DifferenceModel {
    pub category: Seq<char>,
    pub member: Option<Seq<char>>,
    pub base: Option<Seq<char>>,
    pub target: Option<Seq<char>>,
}

impl View for ClassDifference {
    type V = DifferenceModel;

    open spec fn view(&self) -> DifferenceModel {
        DifferenceModel {
            category: self.category@,
            member: opt(self.member),
            base: opt(self.base),
            target: opt(self.target),
        }
    }
}

// ---------------------------------------------------------------------------
// Categories
// ---------------------------------------------------------------------------

/// The category of an entry that one side lacks.
pub open spec fn presence_category(k: EntryKind) -> Seq<char> {
    match k {
        EntryKind::Base => "inheritance-presence"@,
        EntryKind::VirtualBase => "inheritance-presence"@,
        EntryKind::Field => "field-presence"@,
        EntryKind::StaticField => "static-field-presence"@,
        EntryKind::Method => "method-presence"@,
        EntryKind::NestedType => "nested-type-presence"@,
        EntryKind::VftablePointer => "vftable-presence"@,
    }
}

/// The category of a difference in name.
pub open spec fn name_category(k: EntryKind) -> Seq<char> {
    match k {
        EntryKind::Field => "field-name"@,
        EntryKind::StaticField => "static-field-name"@,
        EntryKind::Method => "method-name"@,
        EntryKind::NestedType => "nested-type-name"@,
        _ => "declaration-name"@,
    }
}

/// The category of a difference in type.
pub open spec fn type_category(k: EntryKind) -> Seq<char> {
    match k {
        EntryKind::Base => "inheritance-type"@,
        EntryKind::VirtualBase => "inheritance-type"@,
        EntryKind::Field => "field-type"@,
        EntryKind::StaticField => "static-field-type"@,
        EntryKind::Method => "method-signature"@,
        EntryKind::NestedType => "nested-type"@,
        EntryKind::VftablePointer => "vftable-type"@,
    }
}

/// The category of a difference in access.
pub open spec fn access_category(k: EntryKind) -> Seq<char> {
    match k {
        EntryKind::Base => "inheritance-access"@,
        EntryKind::VirtualBase => "inheritance-access"@,
        EntryKind::Field => "field-visibility"@,
        EntryKind::StaticField => "static-field-visibility"@,
        EntryKind::Method => "method-visibility"@,
        EntryKind::NestedType => "nested-type-visibility"@,
        _ => "declaration-visibility"@,
    }
}

/// The category of a difference in offset.
pub open spec fn layout_category(k: EntryKind) -> Seq<char> {
    match k {
        EntryKind::Base => "inheritance-layout"@,
        EntryKind::VirtualBase => "inheritance-layout"@,
        EntryKind::Field => "field-offset"@,
        _ => "declaration-offset"@,
    }
}

/// The category of a difference in attributes.
pub open spec fn attribute_category(k: EntryKind) -> Seq<char> {
    match k {
        EntryKind::Base => "inheritance-attributes"@,
        EntryKind::VirtualBase => "inheritance-attributes"@,
        EntryKind::Field => "field-attributes"@,
        EntryKind::StaticField => "static-field-attributes"@,
        EntryKind::Method => "method-qualifiers"@,
        EntryKind::NestedType => "nested-type-attributes"@,
        _ => "declaration-attributes"@,
    }
}

/// The category of a difference in details.
pub open spec fn details_category(k: EntryKind) -> Seq<char> {
    match k {
        EntryKind::Base => "inheritance-layout"@,
        EntryKind::VirtualBase => "inheritance-layout"@,
        EntryKind::Method => "method-qualifiers"@,
        _ => "declaration-details"@,
    }
}

fn entry_presence_category(k: EntryKind) -> (r: &'static str)
    ensures
        r@ == presence_category(k),
{
    match k {
        EntryKind::Base => "inheritance-presence",
        EntryKind::VirtualBase => "inheritance-presence",
        EntryKind::Field => "field-presence",
        EntryKind::StaticField => "static-field-presence",
        EntryKind::Method => "method-presence",
        EntryKind::NestedType => "nested-type-presence",
        EntryKind::VftablePointer => "vftable-presence",
    }
}

fn entry_name_category(k: EntryKind) -> (r: &'static str)
    ensures
        r@ == name_category(k),
{
    match k {
        EntryKind::Field => "field-name",
        EntryKind::StaticField => "static-field-name",
        EntryKind::Method => "method-name",
        EntryKind::NestedType => "nested-type-name",
        _ => "declaration-name",
    }
}

fn entry_type_category(k: EntryKind) -> (r: &'static str)
    ensures
        r@ == type_category(k),
{
    match k {
        EntryKind::Base => "inheritance-type",
        EntryKind::VirtualBase => "inheritance-type",
        EntryKind::Field => "field-type",
        EntryKind::StaticField => "static-field-type",
        EntryKind::Method => "method-signature",
        EntryKind::NestedType => "nested-type",
        EntryKind::VftablePointer => "vftable-type",
    }
}

fn entry_access_category(k: EntryKind) -> (r: &'static str)
    ensures
        r@ == access_category(k),
{
    match k {
        EntryKind::Base => "inheritance-access",
        EntryKind::VirtualBase => "inheritance-access",
        EntryKind::Field => "field-visibility",
        EntryKind::StaticField => "static-field-visibility",
        EntryKind::Method => "method-visibility",
        EntryKind::NestedType => "nested-type-visibility",
        _ => "declaration-visibility",
    }
}

fn entry_layout_category(k: EntryKind) -> (r: &'static str)
    ensures
        r@ == layout_category(k),
{
    match k {
        EntryKind::Base => "inheritance-layout",
        EntryKind::VirtualBase => "inheritance-layout",
        EntryKind::Field => "field-offset",
        _ => "declaration-offset",
    }
}

fn entry_attribute_category(k: EntryKind) -> (r: &'static str)
    ensures
        r@ == attribute_category(k),
{
    match k {
        EntryKind::Base => "inheritance-attributes",
        EntryKind::VirtualBase => "inheritance-attributes",
        EntryKind::Field => "field-attributes",
        EntryKind::StaticField => "static-field-attributes",
        EntryKind::Method => "method-qualifiers",
        EntryKind::NestedType => "nested-type-attributes",
        _ => "declaration-attributes",
    }
}

fn entry_details_category(k: EntryKind) -> (r: &'static str)
    ensures
        r@ == details_category(k),
{
    match k {
        EntryKind::Base => "inheritance-layout",
        EntryKind::VirtualBase => "inheritance-layout",
        EntryKind::Method => "method-qualifiers",
        _ => "declaration-details",
    }
}

// ---------------------------------------------------------------------------
// Entries in words
// ---------------------------------------------------------------------------

/// A number in hexadecimal, or that there is none.
pub open spec fn number_or_none(n: Option<u64>) -> Seq<char> {
    match n {
        Some(v) => "0x"@ + hex(v as nat),
        None => "none"@,
    }
}

/// The attributes of an entry in words.
pub open spec fn attributes_text(e: EntryModel) -> Seq<char> {
    if e.attributes.len() == 0 {
        e.raw_attributes
    } else {
        joined(e.attributes, ","@) + " ("@ + e.raw_attributes + ")"@
    }
}

/// An entry in words.
pub open spec fn entry_text(e: EntryModel) -> Seq<char> {
    let a = e.kind.name() + " "@ + e.name + " : "@ + e.typename + " access="@ + e.access.name();
    let b = match e.offset {
        Some(n) => a + " offset=0x"@ + hex(n as nat),
        None => a,
    };
    let c = match e.vtable_offset {
        Some(n) => b + " vtable_offset=0x"@ + hex(n as nat),
        None => b,
    };
    let d = if e.attributes.len() > 0 {
        c + " attributes="@ + joined(e.attributes, ","@)
    } else {
        c
    };
    if e.details.len() > 0 {
        d + " details="@ + joined(e.details, ","@)
    } else {
        d
    }
}

fn optional_hex(n: Option<u64>) -> (r: String)
    ensures
        r@ == number_or_none(n),
{
    match n {
        Some(v) => cat2("0x", hexadecimal(v).as_str()),
        None => owned("none"),
    }
}

fn attribute_summary(e: &ClassEntry) -> (r: String)
    ensures
        r@ == attributes_text(e@),
{
    if e.attributes.len() == 0 {
        e.raw_attributes.clone()
    } else {
        cat4(join(&e.attributes, ",").as_str(), " (", e.raw_attributes.as_str(), ")")
    }
}

fn entry_summary(e: &ClassEntry) -> (r: String)
    ensures
        r@ == entry_text(e@),
{
    let mut s: String = cat7(
        e.kind.label(),
        " ",
        e.name.as_str(),
        " : ",
        e.typename.as_str(),
        " access=",
        e.access.label(),
    );
    if let Some(n) = e.offset {
        s.append(" offset=0x");
        s.append(hexadecimal(n).as_str());
    }
    if let Some(n) = e.vtable_offset {
        s.append(" vtable_offset=0x");
        s.append(hexadecimal(n as u64).as_str());
    }
    if e.attributes.len() > 0 {
        s.append(" attributes=");
        s.append(join(&e.attributes, ",").as_str());
    }
    if e.details.len() > 0 {
        s.append(" details=");
        s.append(join(&e.details, ",").as_str());
    }
    s
}

// ---------------------------------------------------------------------------
// Pairs of entries
// ---------------------------------------------------------------------------

/// How well two entries fit, 0 being best; nothing where they are different things.
pub open spec fn pair_score(b: EntryModel, t: EntryModel) -> Option<int> {
    if b.kind != t.kind {
        None
    } else {
        match t.kind {
            EntryKind::Method => if b.name == t.name && b.typename == t.typename {
                Some(0)
            } else if b.name == t.name && b.argument_count == t.argument_count {
                Some(1)
            } else if b.name == t.name {
                Some(2)
            } else if b.typename == t.typename && b.attributes == t.attributes && b.vtable_offset
                == t.vtable_offset {
                Some(3)
            } else if b.vtable_offset is Some && b.vtable_offset == t.vtable_offset
                && b.argument_count == t.argument_count {
                Some(4)
            } else {
                None
            },
            EntryKind::Field => if b.name == t.name {
                Some(0)
            } else if b.offset == t.offset && b.typename == t.typename {
                Some(1)
            } else {
                None
            },
            EntryKind::StaticField => if b.name == t.name {
                Some(0)
            } else if b.typename == t.typename {
                Some(1)
            } else {
                None
            },
            EntryKind::NestedType => if b.name == t.name {
                Some(0)
            } else if b.typename == t.typename {
                Some(1)
            } else {
                None
            },
            EntryKind::Base => if b.typename == t.typename {
                Some(0)
            } else {
                None
            },
            EntryKind::VirtualBase => if b.typename == t.typename {
                Some(0)
            } else {
                None
            },
            EntryKind::VftablePointer => Some(0),
        }
    }
}

fn entry_pair_score(b: &ClassEntry, t: &ClassEntry) -> (r: Option<u8>)
    ensures
        match r {
            Some(n) => pair_score(b@, t@) == Some(n as int),
            None => pair_score(b@, t@) is None,
        },
{
    if b.kind != t.kind {
        return None;
    }
    let named: bool = b.name == t.name;
    let typed: bool = b.typename == t.typename;
    match t.kind {
        EntryKind::Method => if named && typed {
            Some(0)
        } else if named && b.argument_count == t.argument_count {
            Some(1)
        } else if named {
            Some(2)
        } else if typed && same_texts(&b.attributes, &t.attributes) && b.vtable_offset
            == t.vtable_offset {
            Some(3)
        } else if b.vtable_offset.is_some() && b.vtable_offset == t.vtable_offset
            && b.argument_count == t.argument_count {
            Some(4)
        } else {
            None
        },
        EntryKind::Field => if named {
            Some(0)
        } else if b.offset == t.offset && typed {
            Some(1)
        } else {
            None
        },
        EntryKind::StaticField => if named {
            Some(0)
        } else if typed {
            Some(1)
        } else {
            None
        },
        EntryKind::NestedType => if named {
            Some(0)
        } else if typed {
            Some(1)
        } else {
            None
        },
        EntryKind::Base => if typed {
            Some(0)
        } else {
            None
        },
        EntryKind::VirtualBase => if typed {
            Some(0)
        } else {
            None
        },
        EntryKind::VftablePointer => Some(0),
    }
}

/// How far two positions are apart.
pub open spec fn apart(a: int, b: int) -> int {
    if a > b {
        a - b
    } else {
        b - a
    }
}

/// Whether entry `i` of the base is in a pair.
pub open spec fn base_is_paired(pairs: Seq<(int, int)>, i: int) -> bool {
    exists|k: int| 0 <= k < pairs.len() && (#[trigger] pairs[k]).1 == i
}

/// Whether entry `i` of the target is in a pair.
pub open spec fn target_is_paired(pairs: Seq<(int, int)>, i: int) -> bool {
    exists|k: int| 0 <= k < pairs.len() && (#[trigger] pairs[k]).0 == i
}

/// The best partner, among the first `n` entries of the base that are in no pair,
/// for entry `ti` of the target: by how well they fit, then by how near they are,
/// then the first. With its score and distance.
pub open spec fn best_partner(
    base: Seq<EntryModel>,
    pairs: Seq<(int, int)>,
    t: EntryModel,
    ti: int,
    n: int,
) -> Option<(int, int, int)>
    decreases n,
{
    if n <= 0 {
        None
    } else {
        let before = best_partner(base, pairs, t, ti, n - 1);
        let i = n - 1;
        match pair_score(base[i], t) {
            None => before,
            Some(s) => if base_is_paired(pairs, i) {
                before
            } else {
                match before {
                    None => Some((s, apart(i, ti), i)),
                    Some((s0, d0, _)) => if s < s0 || (s == s0 && apart(i, ti) < d0) {
                        Some((s, apart(i, ti), i))
                    } else {
                        before
                    },
                }
            },
        }
    }
}

/// The pairs, target first, of the first `n` entries of the target with entries of
/// the base: each takes the best partner that is left.
pub open spec fn pairs_upto(
    base: Seq<EntryModel>,
    target: Seq<EntryModel>,
    n: int,
) -> Seq<(int, int)>
    decreases n,
{
    if n <= 0 {
        Seq::empty()
    } else {
        let before = pairs_upto(base, target, n - 1);
        match best_partner(base, before, target[n - 1], n - 1, base.len() as int) {
            Some((_, _, i)) => before.push((n - 1, i)),
            None => before,
        }
    }
}

/// The pairs of the entries of two classes.
pub open spec fn pairs_of(base: Seq<EntryModel>, target: Seq<EntryModel>) -> Seq<(int, int)> {
    pairs_upto(base, target, target.len() as int)
}

/// Pairs of positions as pairs of integers.
pub open spec fn int_pairs(v: Seq<(usize, usize)>) -> Seq<(int, int)> {
    v.map_values(|p: (usize, usize)| (p.0 as int, p.1 as int))
}

proof fn lemma_best_partner(
    base: Seq<EntryModel>,
    pairs: Seq<(int, int)>,
    t: EntryModel,
    ti: int,
    n: int,
)
    requires
        0 <= n <= base.len(),
    ensures
        best_partner(base, pairs, t, ti, n) matches Some((s, d, i)) ==> 0 <= i < n && pair_score(
            base[i],
            t,
        ) == Some(s) && d == apart(i, ti) && !base_is_paired(pairs, i),
    decreases n,
{
    if n > 0 {
        lemma_best_partner(base, pairs, t, ti, n - 1);
    }
}

/// In the pairs of two classes the entries of the target come in order, no entry is
/// in two pairs, and the two of a pair are the same kind of thing.
pub proof fn lemma_pairs(base: Seq<EntryModel>, target: Seq<EntryModel>, n: int)
    requires
        0 <= n <= target.len(),
    ensures
        ({
            let p = pairs_upto(base, target, n);
            &&& forall|k: int|
                0 <= k < p.len() ==> 0 <= (#[trigger] p[k]).0 < n && 0 <= p[k].1 < base.len()
                    && pair_score(base[p[k].1], target[p[k].0]) is Some
            &&& forall|k: int, l: int|
                0 <= k < l < p.len() ==> (#[trigger] p[k]).0 < (#[trigger] p[l]).0 && p[k].1
                    != p[l].1
        }),
    decreases n,
{
    if n > 0 {
        lemma_pairs(base, target, n - 1);
        let before = pairs_upto(base, target, n - 1);
        lemma_best_partner(base, before, target[n - 1], n - 1, base.len() as int);
        if let Some((_, _, i)) = best_partner(
            base,
            before,
            target[n - 1],
            n - 1,
            base.len() as int,
        ) {
            assert forall|k: int| 0 <= k < before.len() implies (#[trigger] before[k]).1 != i by {
                if before[k].1 == i {
                    assert(base_is_paired(before, i));
                }
            }
        }
    }
}

fn find_partner(
    base: &Vec<ClassEntry>,
    pairs: &Vec<(usize, usize)>,
    used: &Vec<bool>,
    t: &ClassEntry,
    ti: usize,
) -> (r: Option<usize>)
    requires
        used@.len() == base@.len(),
        forall|i: int|
            0 <= i < used@.len() ==> #[trigger] used@[i] == base_is_paired(int_pairs(pairs@), i),
    ensures
        match r {
            Some(i) => best_partner(
                views(base@),
                int_pairs(pairs@),
                t@,
                ti as int,
                base@.len() as int,
            ) matches Some((_, _, k)) && k == i && i < base@.len(),
            None => best_partner(
                views(base@),
                int_pairs(pairs@),
                t@,
                ti as int,
                base@.len() as int,
            ) is None,
        },
{
    let ghost b = views(base@);
    let ghost p = int_pairs(pairs@);
    let mut best: Option<(u8, usize, usize)> = None;
    let mut i: usize = 0;
    while i < base.len()
        invariant
            b == views(base@),
            p == int_pairs(pairs@),
            used@.len() == base@.len(),
            forall|i: int| 0 <= i < used@.len() ==> #[trigger] used@[i] == base_is_paired(p, i),
            i <= base@.len(),
            match best {
                Some((s, d, k)) => best_partner(b, p, t@, ti as int, i as int) == Some(
                    (s as int, d as int, k as int),
                ) && k < i,
                None => best_partner(b, p, t@, ti as int, i as int) is None,
            },
        decreases base.len() - i,
    {
        assert(b[i as int] == base@[i as int]@);
        assert(used@[i as int] == base_is_paired(p, i as int));
        if !used[i] {
            if let Some(s) = entry_pair_score(&base[i], t) {
                let d: usize = if i > ti {
                    i - ti
                } else {
                    ti - i
                };
                match best {
                    None => {
                        best = Some((s, d, i));
                    },
                    Some((s0, d0, _)) => {
                        if s < s0 || (s == s0 && d < d0) {
                            best = Some((s, d, i));
                        }
                    },
                }
            }
        }
        i = i + 1;
    }
    match best {
        Some((_, _, k)) => Some(k),
        None => None,
    }
}

/// Pairs the entries of two classes, target first.
pub fn pair_class_entries(base: &Vec<ClassEntry>, target: &Vec<ClassEntry>) -> (r: Vec<
    (usize, usize),
>)
    ensures
        int_pairs(r@) == pairs_of(views(base@), views(target@)),
{
    let ghost b = views(base@);
    let ghost t = views(target@);
    let mut used: Vec<bool> = Vec::new();
    let mut z: usize = 0;
    while z < base.len()
        invariant
            z <= base@.len(),
            used@.len() == z,
            forall|i: int| 0 <= i < z ==> #[trigger] used@[i] == false,
        decreases base.len() - z,
    {
        used.push(false);
        z = z + 1;
    }
    let mut pairs: Vec<(usize, usize)> = Vec::new();
    let mut i: usize = 0;
    assert(int_pairs(pairs@) =~= Seq::<(int, int)>::empty());
    while i < target.len()
        invariant
            b == views(base@),
            t == views(target@),
            used@.len() == base@.len(),
            i <= target@.len(),
            int_pairs(pairs@) == pairs_upto(b, t, i as int),
            forall|k: int|
                0 <= k < used@.len() ==> #[trigger] used@[k] == base_is_paired(
                    int_pairs(pairs@),
                    k,
                ),
        decreases target.len() - i,
    {
        assert(t[i as int] == target@[i as int]@);
        match find_partner(base, &pairs, &used, &target[i], i) {
            Some(k) => {
                let ghost before = int_pairs(pairs@);
                let ghost was = used@;
                used.set(k, true);
                pairs.push((i, k));
                assert(int_pairs(pairs@) =~= before.push((i as int, k as int)));
                assert forall|j: int| 0 <= j < used@.len() implies #[trigger] used@[j]
                    == base_is_paired(int_pairs(pairs@), j) by {
                    let after = before.push((i as int, k as int));
                    if j == k {
                        assert(after[before.len() as int].1 == j);
                    } else {
                        assert(used@[j] == was[j]);
                        if base_is_paired(before, j) {
                            let x = choose|x: int|
                                0 <= x < before.len() && (#[trigger] before[x]).1 == j;
                            assert(after[x].1 == j);
                        }
                        if base_is_paired(after, j) {
                            let x = choose|x: int|
                                0 <= x < after.len() && (#[trigger] after[x]).1 == j;
                            assert(before[x].1 == j);
                        }
                    }
                }
            },
            None => {},
        }
        i = i + 1;
    }
    pairs
}

// ---------------------------------------------------------------------------
// Differences
// ---------------------------------------------------------------------------

/// A difference between two values.
pub open spec fn difference(
    category: Seq<char>,
    member: Option<Seq<char>>,
    base: Seq<char>,
    target: Seq<char>,
) -> DifferenceModel {
    DifferenceModel { category, member, base: Some(base), target: Some(target) }
}

/// Differences with one more where it applies.
pub open spec fn add_if(
    v: Seq<DifferenceModel>,
    applies: bool,
    d: DifferenceModel,
) -> Seq<DifferenceModel> {
    if applies {
        v.push(d)
    } else {
        v
    }
}

/// An optional small number as a larger one.
pub open spec fn widened(n: Option<u32>) -> Option<u64> {
    match n {
        Some(v) => Some(v as u64),
        None => None,
    }
}

/// Differences, and behind them those between the two entries of a pair.
pub open spec fn entry_differences(
    v: Seq<DifferenceModel>,
    b: EntryModel,
    t: EntryModel,
) -> Seq<DifferenceModel> {
    let m = Some(t.name);
    let v1 = add_if(v, b.name != t.name, difference(name_category(t.kind), m, b.name, t.name));
    let v2 = add_if(
        v1,
        b.typename != t.typename,
        difference(type_category(t.kind), m, b.typename, t.typename),
    );
    let v3 = add_if(
        v2,
        b.access != t.access,
        difference(access_category(t.kind), m, b.access.name(), t.access.name()),
    );
    let v4 = add_if(
        v3,
        b.offset != t.offset,
        difference(
            layout_category(t.kind),
            m,
            number_or_none(b.offset),
            number_or_none(t.offset),
        ),
    );
    let v5 = add_if(
        v4,
        b.raw_attributes != t.raw_attributes,
        difference(attribute_category(t.kind), m, attributes_text(b), attributes_text(t)),
    );
    let v6 = add_if(
        v5,
        b.vtable_offset != t.vtable_offset,
        difference(
            "method-vtable-slot"@,
            m,
            number_or_none(widened(b.vtable_offset)),
            number_or_none(widened(t.vtable_offset)),
        ),
    );
    add_if(
        v6,
        b.details != t.details,
        difference(
            details_category(t.kind),
            m,
            joined(b.details, " "@),
            joined(t.details, " "@),
        ),
    )
}

fn push_if(
    v: &mut Vec<ClassDifference>,
    applies: bool,
    category: &'static str,
    member: Option<&String>,
    base: &str,
    target: &str,
)
    ensures
        views(final(v)@) == add_if(
            views(old(v)@),
            applies,
            difference(
                category@,
                match member {
                    Some(m) => Some(m@),
                    None => None,
                },
                base@,
                target@,
            ),
        ),
{
    if applies {
        let d: ClassDifference = ClassDifference {
            category,
            member: match member {
                Some(m) => Some(m.clone()),
                None => None,
            },
            base: Some(owned(base)),
            target: Some(owned(target)),
        };
        let ghost before = v@;
        let ghost model = d@;
        v.push(d);
        assert(views(v@) =~= views(before).push(model));
    }
}

fn widen(n: Option<u32>) -> (r: Option<u64>)
    ensures
        r == widened(n),
{
    match n {
        Some(v) => Some(v as u64),
        None => None,
    }
}

fn compare_class_entry(b: &ClassEntry, t: &ClassEntry, v: &mut Vec<ClassDifference>)
    ensures
        views(final(v)@) == entry_differences(views(old(v)@), b@, t@),
{
    let m: Option<&String> = Some(&t.name);
    push_if(
        v,
        !(b.name == t.name),
        entry_name_category(t.kind),
        m,
        b.name.as_str(),
        t.name.as_str(),
    );
    push_if(
        v,
        !(b.typename == t.typename),
        entry_type_category(t.kind),
        m,
        b.typename.as_str(),
        t.typename.as_str(),
    );
    push_if(
        v,
        b.access != t.access,
        entry_access_category(t.kind),
        m,
        b.access.label(),
        t.access.label(),
    );
    push_if(
        v,
        b.offset != t.offset,
        entry_layout_category(t.kind),
        m,
        optional_hex(b.offset).as_str(),
        optional_hex(t.offset).as_str(),
    );
    push_if(
        v,
        !(b.raw_attributes == t.raw_attributes),
        entry_attribute_category(t.kind),
        m,
        attribute_summary(b).as_str(),
        attribute_summary(t).as_str(),
    );
    push_if(
        v,
        b.vtable_offset != t.vtable_offset,
        "method-vtable-slot",
        m,
        optional_hex(widen(b.vtable_offset)).as_str(),
        optional_hex(widen(t.vtable_offset)).as_str(),
    );
    push_if(
        v,
        !same_texts(&b.details, &t.details),
        entry_details_category(t.kind),
        m,
        join(&b.details, " ").as_str(),
        join(&t.details, " ").as_str(),
    );
}

/// Differences, and behind them those of the first `n` pairs.
pub open spec fn pair_differences(
    v: Seq<DifferenceModel>,
    base: Seq<EntryModel>,
    target: Seq<EntryModel>,
    pairs: Seq<(int, int)>,
    n: int,
) -> Seq<DifferenceModel>
    decreases n,
{
    if n <= 0 {
        v
    } else {
        entry_differences(
            pair_differences(v, base, target, pairs, n - 1),
            base[pairs[n - 1].1],
            target[pairs[n - 1].0],
        )
    }
}

/// An entry that the base lacks.
pub open spec fn missing_in_base(e: EntryModel) -> DifferenceModel {
    DifferenceModel {
        category: presence_category(e.kind),
        member: Some(e.name),
        base: None,
        target: Some(entry_text(e)),
    }
}

/// An entry that the target lacks.
pub open spec fn missing_in_target(e: EntryModel) -> DifferenceModel {
    DifferenceModel {
        category: presence_category(e.kind),
        member: Some(e.name),
        base: Some(entry_text(e)),
        target: None,
    }
}

/// Differences, and behind them the first `n` entries of the target that are in no
/// pair.
pub open spec fn target_presence(
    v: Seq<DifferenceModel>,
    target: Seq<EntryModel>,
    pairs: Seq<(int, int)>,
    n: int,
) -> Seq<DifferenceModel>
    decreases n,
{
    if n <= 0 {
        v
    } else {
        add_if(
            target_presence(v, target, pairs, n - 1),
            !target_is_paired(pairs, n - 1),
            missing_in_base(target[n - 1]),
        )
    }
}

/// Differences, and behind them the first `n` entries of the base that are in no pair.
pub open spec fn base_presence(
    v: Seq<DifferenceModel>,
    base: Seq<EntryModel>,
    pairs: Seq<(int, int)>,
    n: int,
) -> Seq<DifferenceModel>
    decreases n,
{
    if n <= 0 {
        v
    } else {
        add_if(
            base_presence(v, base, pairs, n - 1),
            !base_is_paired(pairs, n - 1),
            missing_in_target(base[n - 1]),
        )
    }
}

/// The values that the first `n` steps of an alignment take together.
pub open spec fn matched_values(left: Seq<usize>, ops: Seq<Step>, n: int) -> Set<usize>
    decreases n,
{
    if n <= 0 {
        Set::empty()
    } else {
        match ops[n - 1] {
            Step::Both(i, _) => matched_values(left, ops, n - 1).insert(left[i]),
            _ => matched_values(left, ops, n - 1),
        }
    }
}

/// The values of a longest common subsequence of two lists.
pub open spec fn stable_values(left: Seq<usize>, right: Seq<usize>) -> Set<usize> {
    let ops = script(left, right, 0, 0);
    matched_values(left, ops, ops.len() as int)
}

/// The values of a longest common subsequence of two lists.
pub fn lcs_values(left: &Vec<usize>, right: &Vec<usize>) -> (r: std::collections::HashSet<usize>)
    ensures
        r@ == stable_values(left@, right@),
{
    broadcast use vstd::std_specs::hash::group_hash_axioms;

    let edits: Vec<Edit> = align(left, right);
    assert(views(left@) =~= left@);
    assert(views(right@) =~= right@);
    let ghost ops = script(left@, right@, 0, 0);
    proof {
        crate::lcs::lemma_script(left@, right@, 0, 0);
    }
    let mut stable: std::collections::HashSet<usize> = std::collections::HashSet::new();
    let mut k: usize = 0;
    while k < edits.len()
        invariant
            ops == steps(edits@),
            forall|x: int|
                0 <= x < ops.len() ==> match #[trigger] ops[x] {
                    Step::Both(i, _) => 0 <= i < left@.len(),
                    _ => true,
                },
            k <= edits@.len(),
            stable@ == matched_values(left@, ops, k as int),
        decreases edits.len() - k,
    {
        broadcast use vstd::std_specs::hash::group_hash_axioms;

        assert(ops[k as int] == edits@[k as int].step());
        if let Edit::Equal { base: i, .. } = edits[k] {
            stable.insert(left[i]);
        }
        k = k + 1;
    }
    stable
}

/// A pair, ranked by the position of its entry of the base.
#[derive(Clone, Copy, PartialEq, Eq, Debug, Structural)]
pub struct PairAt(pub usize, pub usize);

impl View for PairAt {
    type V = (usize, usize);

    open spec fn view(&self) -> (usize, usize) {
        (self.0, self.1)
    }
}

impl Ranked for PairAt {
    open spec fn before(a: (usize, usize), b: (usize, usize)) -> bool {
        a.1 <= b.1
    }

    fn is_before(&self, other: &Self) -> (r: bool) {
        self.1 <= other.1
    }
}

/// The entries of the target in the order that their partners have in the base.
pub open spec fn order_in_base(pairs: Seq<(usize, usize)>) -> Seq<usize> {
    sorted_by(pairs, |a: (usize, usize), b: (usize, usize)| a.1 <= b.1).map_values(
        |p: (usize, usize)| p.0,
    )
}

/// The entries of the target in their own order.
pub open spec fn order_in_target(pairs: Seq<(usize, usize)>) -> Seq<usize> {
    pairs.map_values(|p: (usize, usize)| p.0)
}

/// The entries of the target that keep their order.
pub open spec fn in_order(pairs: Seq<(usize, usize)>) -> Set<usize> {
    stable_values(order_in_base(pairs), order_in_target(pairs))
}

/// An entry that stands in another place.
pub open spec fn moved(b: EntryModel, bi: int, t: EntryModel, ti: int) -> DifferenceModel {
    difference(
        "declaration-order"@,
        Some(t.name),
        "#"@ + dec(bi as nat) + " "@ + entry_text(b),
        "#"@ + dec(ti as nat) + " "@ + entry_text(t),
    )
}

/// Differences, and behind them the first `n` pairs that are out of order.
pub open spec fn order_differences(
    v: Seq<DifferenceModel>,
    base: Seq<EntryModel>,
    target: Seq<EntryModel>,
    pairs: Seq<(usize, usize)>,
    n: int,
) -> Seq<DifferenceModel>
    decreases n,
{
    if n <= 0 {
        v
    } else {
        let (ti, bi) = pairs[n - 1];
        add_if(
            order_differences(v, base, target, pairs, n - 1),
            !in_order(pairs).contains(ti),
            moved(base[bi as int], bi as int, target[ti as int], ti as int),
        )
    }
}

fn append_order_differences(
    pairs: &Vec<(usize, usize)>,
    base: &Vec<ClassEntry>,
    target: &Vec<ClassEntry>,
    v: &mut Vec<ClassDifference>,
)
    requires
        forall|k: int|
            0 <= k < pairs@.len() ==> (#[trigger] pairs@[k]).0 < target@.len() && pairs@[k].1
                < base@.len(),
    ensures
        views(final(v)@) == if pairs@.len() < 2 {
            views(old(v)@)
        } else {
            order_differences(
                views(old(v)@),
                views(base@),
                views(target@),
                pairs@,
                pairs@.len() as int,
            )
        },
{
    broadcast use vstd::std_specs::hash::group_hash_axioms;

    if pairs.len() < 2 {
        return ;
    }
    let mut target_order: Vec<usize> = Vec::new();
    let mut ranked: Vec<PairAt> = Vec::new();
    let mut i: usize = 0;
    while i < pairs.len()
        invariant
            i <= pairs@.len(),
            target_order@.len() == i,
            ranked@.len() == i,
            forall|k: int| 0 <= k < i ==> #[trigger] target_order@[k] == pairs@[k].0,
            forall|k: int| 0 <= k < i ==> (#[trigger] ranked@[k])@ == pairs@[k],
        decreases pairs.len() - i,
    {
        target_order.push(pairs[i].0);
        ranked.push(PairAt(pairs[i].0, pairs[i].1));
        i = i + 1;
    }
    assert(views(ranked@) =~= pairs@);
    assert(target_order@ =~= order_in_target(pairs@));
    let sorted: Vec<PairAt> = sort_stable(ranked);
    assert(rank_of::<PairAt>() =~= (|a: (usize, usize), b: (usize, usize)| a.1 <= b.1));
    let mut base_order: Vec<usize> = Vec::new();
    let mut j: usize = 0;
    while j < sorted.len()
        invariant
            j <= sorted@.len(),
            base_order@.len() == j,
            forall|k: int| 0 <= k < j ==> #[trigger] base_order@[k] == sorted@[k].0,
        decreases sorted.len() - j,
    {
        base_order.push(sorted[j].0);
        j = j + 1;
    }
    assert(base_order@ =~= order_in_base(pairs@)) by {
        let s = views(sorted@);
        assert(forall|k: int| 0 <= k < s.len() ==> s[k] == sorted@[k]@);
    }
    let stable: std::collections::HashSet<usize> = lcs_values(&base_order, &target_order);
    let ghost start = views(v@);
    let mut k: usize = 0;
    while k < pairs.len()
        invariant
            forall|k: int|
                0 <= k < pairs@.len() ==> (#[trigger] pairs@[k]).0 < target@.len() && pairs@[k].1
                    < base@.len(),
            k <= pairs@.len(),
            stable@ == in_order(pairs@),
            views(v@) == order_differences(start, views(base@), views(target@), pairs@, k as int),
        decreases pairs.len() - k,
    {
        broadcast use vstd::std_specs::hash::group_hash_axioms;

        let (ti, bi): (usize, usize) = pairs[k];
        assert(pairs@[k as int].0 < target@.len());
        assert(views(base@)[bi as int] == base@[bi as int]@);
        assert(views(target@)[ti as int] == target@[ti as int]@);
        let b_text: String = cat4(
            "#",
            decimal(bi as u64).as_str(),
            " ",
            entry_summary(&base[bi]).as_str(),
        );
        let t_text: String = cat4(
            "#",
            decimal(ti as u64).as_str(),
            " ",
            entry_summary(&target[ti]).as_str(),
        );
        push_if(
            v,
            !stable.contains(&ti),
            "declaration-order",
            Some(&target[ti].name),
            b_text.as_str(),
            t_text.as_str(),
        );
        k = k + 1;
    }
}

/// How a class was declared, in words.
pub open spec fn class_kind_name(k: ClassKind) -> Seq<char> {
    match k {
        ClassKind::Class => "class"@,
        ClassKind::Struct => "struct"@,
        ClassKind::Interface => "interface"@,
    }
}

/// How a class was declared, in words.
pub fn class_kind(k: ClassKind) -> (r: &'static str)
    ensures
        r@ == class_kind_name(k),
{
    match k {
        ClassKind::Class => "class",
        ClassKind::Struct => "struct",
        ClassKind::Interface => "interface",
    }
}

/// The differences between two classes as wholes.
pub open spec fn whole_differences(b: ClassView, t: ClassView) -> Seq<DifferenceModel> {
    let v1 = add_if(
        Seq::empty(),
        b.kind != t.kind,
        difference("class-kind"@, None, class_kind_name(b.kind), class_kind_name(t.kind)),
    );
    let v2 = add_if(
        v1,
        b.size != t.size,
        difference(
            "class-size"@,
            None,
            "0x"@ + hex(b.size as nat),
            "0x"@ + hex(t.size as nat),
        ),
    );
    add_if(
        v2,
        b.properties != t.properties,
        difference("class-properties"@, None, b.properties, t.properties),
    )
}

/// The pairs of two classes as pairs of positions.
pub open spec fn position_pairs(p: Seq<(int, int)>) -> Seq<(usize, usize)> {
    p.map_values(|x: (int, int)| (x.0 as usize, x.1 as usize))
}

/// The differences between two classes: as wholes, between the entries of each
/// pair, the entries that one side lacks, and the entries that stand in another
/// place.
pub open spec fn class_differences(b: ClassView, t: ClassView) -> Seq<DifferenceModel> {
    let pairs = pairs_of(b.entries, t.entries);
    let n = pairs.len() as int;
    let v1 = pair_differences(whole_differences(b, t), b.entries, t.entries, pairs, n);
    let v2 = target_presence(v1, t.entries, pairs, t.entries.len() as int);
    let v3 = base_presence(v2, b.entries, pairs, b.entries.len() as int);
    if n < 2 {
        v3
    } else {
        order_differences(v3, b.entries, t.entries, position_pairs(pairs), n)
    }
}

fn is_target_paired(pairs: &Vec<(usize, usize)>, i: usize) -> (r: bool)
    ensures
        r == target_is_paired(int_pairs(pairs@), i as int),
{
    let mut k: usize = 0;
    while k < pairs.len()
        invariant
            k <= pairs@.len(),
            forall|x: int| 0 <= x < k ==> (#[trigger] pairs@[x]).0 != i,
        decreases pairs.len() - k,
    {
        if pairs[k].0 == i {
            assert(int_pairs(pairs@)[k as int].0 == i);
            return true;
        }
        k = k + 1;
    }
    assert(forall|x: int|
        0 <= x < pairs@.len() ==> int_pairs(pairs@)[x].0 == (#[trigger] pairs@[x]).0);
    false
}

fn is_base_paired(pairs: &Vec<(usize, usize)>, i: usize) -> (r: bool)
    ensures
        r == base_is_paired(int_pairs(pairs@), i as int),
{
    let mut k: usize = 0;
    while k < pairs.len()
        invariant
            k <= pairs@.len(),
            forall|x: int| 0 <= x < k ==> (#[trigger] pairs@[x]).1 != i,
        decreases pairs.len() - k,
    {
        if pairs[k].1 == i {
            assert(int_pairs(pairs@)[k as int].1 == i);
            return true;
        }
        k = k + 1;
    }
    assert(forall|x: int|
        0 <= x < pairs@.len() ==> int_pairs(pairs@)[x].1 == (#[trigger] pairs@[x]).1);
    false
}

fn push_difference(v: &mut Vec<ClassDifference>, d: ClassDifference)
    ensures
        views(final(v)@) == views(old(v)@).push(d@),
{
    let ghost before = v@;
    let ghost m = d@;
    v.push(d);
    assert(views(v@) =~= views(before).push(m));
}

/// The differences between two classes.
pub fn compare_class(base: &ClassModel, target: &ClassModel) -> (r: Vec<ClassDifference>)
    ensures
        views(r@) == class_differences(base@, target@),
{
    let ghost b = base@.entries;
    let ghost t = target@.entries;
    let mut v: Vec<ClassDifference> = Vec::new();
    assert(views(v@) =~= Seq::<DifferenceModel>::empty());
    push_if(
        &mut v,
        base.kind != target.kind,
        "class-kind",
        None,
        class_kind(base.kind),
        class_kind(target.kind),
    );
    push_if(
        &mut v,
        base.size != target.size,
        "class-size",
        None,
        cat2("0x", hexadecimal(base.size).as_str()).as_str(),
        cat2("0x", hexadecimal(target.size).as_str()).as_str(),
    );
    push_if(
        &mut v,
        !(base.properties == target.properties),
        "class-properties",
        None,
        base.properties.as_str(),
        target.properties.as_str(),
    );
    let pairs: Vec<(usize, usize)> = pair_class_entries(&base.entries, &target.entries);
    let ghost p = pairs_of(b, t);
    let ghost whole = whole_differences(base@, target@);
    assert(views(v@) == whole);
    proof {
        lemma_pairs(b, t, t.len() as int);
        assert forall|k: int| 0 <= k < pairs@.len() implies (#[trigger] pairs@[k]).0
            < target.entries@.len() && pairs@[k].1 < base.entries@.len() by {
            assert(p[k] == (pairs@[k].0 as int, pairs@[k].1 as int));
        }
    }
    let mut k: usize = 0;
    while k < pairs.len()
        invariant
            b == views(base.entries@),
            t == views(target.entries@),
            p == int_pairs(pairs@),
            forall|k: int|
                0 <= k < pairs@.len() ==> (#[trigger] pairs@[k]).0 < target.entries@.len()
                    && pairs@[k].1 < base.entries@.len(),
            k <= pairs@.len(),
            views(v@) == pair_differences(whole, b, t, p, k as int),
        decreases pairs.len() - k,
    {
        let (ti, bi): (usize, usize) = pairs[k];
        assert(p[k as int] == (ti as int, bi as int));
        assert(pairs@[k as int].0 < target.entries@.len());
        assert(b[bi as int] == base.entries@[bi as int]@);
        assert(t[ti as int] == target.entries@[ti as int]@);
        compare_class_entry(&base.entries[bi], &target.entries[ti], &mut v);
        k = k + 1;
    }
    let ghost v1 = views(v@);
    let mut i: usize = 0;
    while i < target.entries.len()
        invariant
            t == views(target.entries@),
            p == int_pairs(pairs@),
            i <= target.entries@.len(),
            views(v@) == target_presence(v1, t, p, i as int),
        decreases target.entries.len() - i,
    {
        assert(t[i as int] == target.entries@[i as int]@);
        if !is_target_paired(&pairs, i) {
            let e: &ClassEntry = &target.entries[i];
            let d: ClassDifference = ClassDifference {
                category: entry_presence_category(e.kind),
                member: Some(e.name.clone()),
                base: None,
                target: Some(entry_summary(e)),
            };
            push_difference(&mut v, d);
        }
        i = i + 1;
    }
    let ghost v2 = views(v@);
    let mut j: usize = 0;
    while j < base.entries.len()
        invariant
            b == views(base.entries@),
            p == int_pairs(pairs@),
            j <= base.entries@.len(),
            views(v@) == base_presence(v2, b, p, j as int),
        decreases base.entries.len() - j,
    {
        assert(b[j as int] == base.entries@[j as int]@);
        if !is_base_paired(&pairs, j) {
            let e: &ClassEntry = &base.entries[j];
            let d: ClassDifference = ClassDifference {
                category: entry_presence_category(e.kind),
                member: Some(e.name.clone()),
                base: Some(entry_summary(e)),
                target: None,
            };
            push_difference(&mut v, d);
        }
        j = j + 1;
    }
    append_order_differences(&pairs, &base.entries, &target.entries, &mut v);
    assert(position_pairs(p) =~= pairs@);
    v
}

} // verus!
