//! The types that a header still needs: that their number is bounded by that of the
//! records, and that gathering them comes to an end.

use crate::function_cache::SignatureModel;
use crate::header_build::{named_use, type_behind, type_behind_all, with_class, with_enumeration,
    with_field, with_fields, with_index, with_lists, with_method, with_overloads, with_type,
    Gathered, Progress};
use crate::header_model::{Found, HeaderError, HeaderField, HeaderRecord, HeaderTable, OverloadItem,
    ResolvedMethod, TypeUse};
use crate::type_builder::NamespaceModel;
use crate::type_table::lemma_bounded_indices;
use vstd::prelude::*;

verus! {

/// Whether indices rise.
pub open spec fn rising(s: Seq<u32>) -> bool {
    forall|i: int, j: int| 0 <= i < j < s.len() ==> #[trigger] s[i] < #[trigger] s[j]
}

/// Whether these are the indices of records, each once and in order.
pub open spec fn are_needed(t: HeaderTable, s: Seq<u32>) -> bool {
    &&& rising(s)
    &&& forall|k: int|
        0 <= k < s.len() ==> t.first <= #[trigger] s[k] < t.first + t.records@.len()
}

/// Whether `b` has all that `a` has.
pub open spec fn has_all(a: Seq<u32>, b: Seq<u32>) -> bool {
    forall|x: u32| #[trigger] a.contains(x) ==> b.contains(x)
}

/// Whether `b` comes from `a` by records that are needed besides.
pub open spec fn grows(t: HeaderTable, a: Seq<u32>, b: Seq<u32>) -> bool {
    are_needed(t, a) ==> are_needed(t, b) && has_all(a, b)
}

// ---------------------------------------------------------------------------
// What is needed only grows
// ---------------------------------------------------------------------------

proof fn lemma_with_index(s: Seq<u32>, x: u32)
    requires
        rising(s),
    ensures
        rising(with_index(s, x)),
        forall|y: u32| #[trigger] with_index(s, x).contains(y) == (s.contains(y) || y == x),
    decreases s.len(),
{
    let r = with_index(s, x);
    if s.len() == 0 || s.last() < x {
        assert forall|y: u32| #[trigger] r.contains(y) == (s.contains(y) || y == x) by {
            if s.contains(y) {
                let k = s.index_of(y);
                assert(r[k] == y);
            }
            assert(r[s.len() as int] == x);
        }
        assert forall|i: int, j: int| 0 <= i < j < r.len() implies #[trigger] r[i]
            < #[trigger] r[j] by {
            if j == s.len() && i < s.len() - 1 {
                assert(s[i] < s[s.len() - 1]);
            }
        }
    } else if s.last() == x {
        assert(s[s.len() - 1] == x);
    } else {
        let init = s.drop_last();
        let last = s.last();
        assert(rising(init));
        lemma_with_index(init, x);
        let q = with_index(init, x);
        assert(r == q.push(last));
        assert forall|y: u32| #[trigger] r.contains(y) == (s.contains(y) || y == x) by {
            assert(q.contains(y) == (init.contains(y) || y == x));
            if q.contains(y) {
                let k = q.index_of(y);
                assert(r[k] == y);
            }
            if init.contains(y) {
                let k = init.index_of(y);
                assert(s[k] == y);
            }
            if s.contains(y) && y != last {
                let k = s.index_of(y);
                assert(init[k] == y);
            }
            assert(r[q.len() as int] == last);
            assert(s[s.len() - 1] == last);
            if r.contains(y) && y != last {
                let k = r.index_of(y);
                assert(q[k] == y);
            }
        }
        assert forall|i: int, j: int| 0 <= i < j < r.len() implies #[trigger] r[i]
            < #[trigger] r[j] by {
            if j == q.len() {
                assert(q.contains(q[i]));
                if q[i] != x {
                    let k = init.index_of(q[i]);
                    assert(s[k] < s[s.len() - 1]);
                }
            }
        }
    }
}

proof fn lemma_behind_is_record(t: HeaderTable, index: u32, left: nat)
    ensures
        type_behind_all(t, index, left) matches Ok(Some(i)) ==> t.first <= i < t.first
            + t.records@.len(),
    decreases left,
{
    if let Found::Record(HeaderRecord::Indirect { to }) = t.at(index) {
        if left > 0 {
            lemma_behind_is_record(t, to, (left - 1) as nat);
        }
    }
}

proof fn lemma_use_grows(t: HeaderTable, u: TypeUse, needed: Seq<u32>, ns: NamespaceModel)
    requires
        named_use(t, u, needed, ns) is Ok,
    ensures
        grows(t, needed, named_use(t, u, needed, ns)->Ok_0.1),
{
    reveal(named_use);
    let after = named_use(t, u, needed, ns)->Ok_0.1;
    lemma_behind_is_record(t, u.index, t.records@.len());
    if are_needed(t, needed) {
        if let Ok(Some(i)) = type_behind_all(t, u.index, t.records@.len()) {
            lemma_with_index(needed, i);
            assert forall|k: int| 0 <= k < after.len() implies t.first <= #[trigger] after[k]
                < t.first + t.records@.len() by {
                assert(after.contains(after[k]));
                if after[k] != i {
                    let j = needed.index_of(after[k]);
                    assert(needed[j] == after[k]);
                }
            }
        }
    }
}

proof fn lemma_overloads_need_nothing(
    t: HeaderTable,
    cache: Map<Seq<char>, SignatureModel>,
    methods: Seq<ResolvedMethod>,
    g: Gathered,
    name: Seq<char>,
    items: Seq<OverloadItem>,
    n: int,
)
    requires
        with_overloads(t, cache, methods, g, name, items, n) is Ok,
    ensures
        with_overloads(t, cache, methods, g, name, items, n)->Ok_0.needed == g.needed,
    decreases n,
{
    if n > 0 {
        lemma_overloads_need_nothing(t, cache, methods, g, name, items, n - 1);
        reveal(with_method);
    }
}

proof fn lemma_field_grows(
    t: HeaderTable,
    cache: Map<Seq<char>, SignatureModel>,
    methods: Seq<ResolvedMethod>,
    g: Gathered,
    field: HeaderField,
)
    requires
        with_field(t, cache, methods, g, field) is Ok,
    ensures
        grows(t, g.needed, with_field(t, cache, methods, g, field)->Ok_0.needed),
{
    reveal(with_field);
    match field {
        HeaderField::Member { ty, .. } => {
            lemma_use_grows(t, ty, g.needed, g.class.namespace);
        },
        HeaderField::BaseClass { ty, .. } => {
            lemma_use_grows(t, ty, g.needed, g.class.namespace);
        },
        HeaderField::Method { .. } => {
            reveal(with_method);
        },
        HeaderField::OverloadedMethod { name, method_list } => {
            if let Found::Record(HeaderRecord::MethodList { methods: items }) = t.at(method_list) {
                lemma_overloads_need_nothing(
                    t,
                    cache,
                    methods,
                    g,
                    name@,
                    items@,
                    items@.len() as int,
                );
            }
        },
        _ => {},
    }
}

proof fn lemma_fields_grow(
    t: HeaderTable,
    cache: Map<Seq<char>, SignatureModel>,
    methods: Seq<ResolvedMethod>,
    g: Gathered,
    fields: Seq<HeaderField>,
    n: int,
)
    requires
        with_fields(t, cache, methods, g, fields, n) is Ok,
    ensures
        grows(t, g.needed, with_fields(t, cache, methods, g, fields, n)->Ok_0.needed),
    decreases n,
{
    if n > 0 {
        lemma_fields_grow(t, cache, methods, g, fields, n - 1);
        let before = with_fields(t, cache, methods, g, fields, n - 1)->Ok_0;
        lemma_field_grows(t, cache, methods, before, fields[n - 1]);
    }
}

proof fn lemma_lists_grow(
    t: HeaderTable,
    cache: Map<Seq<char>, SignatureModel>,
    methods: Seq<ResolvedMethod>,
    g: Gathered,
    list: u32,
    left: nat,
)
    requires
        with_lists(t, cache, methods, g, list, left) is Ok,
    ensures
        grows(t, g.needed, with_lists(t, cache, methods, g, list, left)->Ok_0.needed),
    decreases left,
{
    if let Found::Record(HeaderRecord::FieldList { fields, continuation }) = t.at(list) {
        let n = fields@.len() as int;
        lemma_fields_grow(t, cache, methods, g, fields@, n);
        let h = with_fields(t, cache, methods, g, fields@, n)->Ok_0;
        if let Some(next) = continuation {
            lemma_lists_grow(t, cache, methods, h, next, (left - 1) as nat);
        }
    }
}

/// To take a type into a header takes away nothing of what is needed, and adds records only.
pub proof fn lemma_type_grows(
    t: HeaderTable,
    cache: Map<Seq<char>, SignatureModel>,
    p: Progress,
    index: u32,
)
    requires
        with_type(t, cache, p, index) is Ok,
    ensures
        grows(t, p.needed, with_type(t, cache, p, index)->Ok_0.needed),
{
    reveal(with_type);
    reveal(with_class);
    reveal(with_enumeration);
    match t.at(index) {
        Found::Record(HeaderRecord::Class(c)) => {
            if !c.forward_reference {
                let g = Gathered {
                    class: crate::header_build::bare_class(c, p.data.namespace),
                    needed: p.needed,
                    refs: p.data.forward_references,
                };
                if let Some(list) = c.fields {
                    lemma_lists_grow(t, cache, c.methods@, g, list, t.records@.len());
                }
            }
        },
        Found::Record(HeaderRecord::Enumeration { underlying, .. }) => {
            lemma_use_grows(t, underlying, p.needed, p.data.namespace);
        },
        _ => {},
    }
}

// ---------------------------------------------------------------------------
// Gathering comes to an end
// ---------------------------------------------------------------------------

/// How much a type weighs that stands `k` steps before the last that there can be.
pub open spec fn weight(n: nat, k: nat) -> nat
    decreases k,
{
    if k == 0 {
        1
    } else {
        (n + 1) * weight(n, (k - 1) as nat)
    }
}

/// How many steps are left behind a type that is needed through `d` others, among `n`
/// records.
pub open spec fn steps_left(n: nat, d: nat) -> nat {
    if d < n {
        (n - d) as nat
    } else {
        0
    }
}

/// How much all types weigh that are needed, each through as many others as `depth` says.
pub open spec fn load(needed: Seq<u32>, depth: spec_fn(u32) -> nat, n: nat) -> nat
    decreases needed.len(),
{
    if needed.len() == 0 {
        0
    } else {
        load(needed.drop_last(), depth, n) + weight(n, steps_left(n, depth(needed.last())))
    }
}

/// The depths with that of the types that are not among `old`.
pub open spec fn deeper(old: Seq<u32>, depth: spec_fn(u32) -> nat, d: nat) -> spec_fn(
    u32,
) -> nat {
    |x: u32|
        if old.contains(x) {
            depth(x)
        } else {
            d
        }
}

proof fn lemma_load_same(
    s: Seq<u32>,
    f: spec_fn(u32) -> nat,
    g: spec_fn(u32) -> nat,
    n: nat,
)
    requires
        forall|k: int| 0 <= k < s.len() ==> f(#[trigger] s[k]) == g(s[k]),
    ensures
        load(s, f, n) == load(s, g, n),
    decreases s.len(),
{
    if s.len() > 0 {
        assert forall|k: int| 0 <= k < s.drop_last().len() implies f(
            #[trigger] s.drop_last()[k],
        ) == g(s.drop_last()[k]) by {
            assert(s.drop_last()[k] == s[k]);
        }
        lemma_load_same(s.drop_last(), f, g, n);
        assert(s.last() == s[s.len() - 1]);
    }
}

proof fn lemma_load_bound(
    old: Seq<u32>,
    new: Seq<u32>,
    f: spec_fn(u32) -> nat,
    n: nat,
    c: nat,
)
    requires
        rising(old),
        rising(new),
        has_all(old, new),
        forall|x: u32|
            #[trigger] new.contains(x) && !old.contains(x) ==> weight(n, steps_left(n, f(x))) <= c,
    ensures
        old.len() <= new.len(),
        load(new, f, n) <= load(old, f, n) + (new.len() - old.len()) * c,
    decreases new.len(),
{
    if new.len() == 0 {
        if old.len() > 0 {
            assert(old.contains(old[0]));
            assert(new.contains(old[0]));
        }
    } else {
        let m = new.drop_last();
        let x = new.last();
        assert(new[new.len() - 1] == x);
        assert(new.contains(x));
        assert forall|y: u32| #[trigger] new.contains(y) implies m.contains(y) || y == x by {
            let k = new.index_of(y);
            if k < m.len() {
                assert(m[k] == y);
            }
        }
        assert forall|y: u32| #[trigger] m.contains(y) implies new.contains(y) && y < x by {
            let k = m.index_of(y);
            assert(new[k] == y);
        }
        if old.contains(x) {
            let k = old.index_of(x);
            if k < old.len() - 1 {
                let z = old[old.len() - 1];
                assert(old.contains(z));
                assert(new.contains(z));
                assert(old[k] < z);
                assert(m.contains(z) || z == x);
            }
            assert(old.last() == x);
            let o = old.drop_last();
            assert forall|y: u32| #[trigger] o.contains(y) implies m.contains(y) by {
                let j = o.index_of(y);
                assert(old[j] == y);
                assert(old.contains(y));
                assert(old[j] < old[old.len() - 1]);
            }
            assert forall|y: u32| #[trigger]
                m.contains(y) && !o.contains(y) implies weight(n, steps_left(n, f(y))) <= c by {
                assert(new.contains(y) && y < x);
                if old.contains(y) {
                    let j = old.index_of(y);
                    assert(o[j] == y);
                }
            }
            lemma_load_bound(o, m, f, n, c);
        } else {
            assert forall|y: u32| #[trigger] old.contains(y) implies m.contains(y) by {
                assert(new.contains(y));
            }
            assert forall|y: u32| #[trigger]
                m.contains(y) && !old.contains(y) implies weight(n, steps_left(n, f(y))) <= c by {
                assert(new.contains(y));
            }
            lemma_load_bound(old, m, f, n, c);
            assert(weight(n, steps_left(n, f(x))) <= c);
            assert((new.len() - old.len()) * c == (m.len() - old.len()) * c + c)
                by (nonlinear_arith)
                requires
                    new.len() == m.len() + 1,
            ;
        }
    }
}

proof fn lemma_weight_positive(n: nat, k: nat)
    ensures
        weight(n, k) >= 1,
    decreases k,
{
    if k > 0 {
        lemma_weight_positive(n, (k - 1) as nat);
        assert((n + 1) * weight(n, (k - 1) as nat) >= 1) by (nonlinear_arith)
            requires
                weight(n, (k - 1) as nat) >= 1,
        ;
    }
}

/// Once a type was taken into a header, what is still needed weighs less, although the type
/// may need others: they are one step deeper.
pub proof fn lemma_load_falls(
    t: HeaderTable,
    needed: Seq<u32>,
    depth: spec_fn(u32) -> nat,
    new: Seq<u32>,
)
    requires
        are_needed(t, needed),
        needed.len() > 0,
        depth(needed.last()) < t.records@.len(),
        grows(t, needed.drop_last(), new),
    ensures
        load(
            new,
            deeper(needed.drop_last(), depth, depth(needed.last()) + 1),
            t.records@.len(),
        ) < load(needed, depth, t.records@.len()),
        are_needed(t, new),
{
    let n = t.records@.len();
    let old = needed.drop_last();
    let d = depth(needed.last());
    let f = deeper(old, depth, d + 1);
    let c = weight(n, (n - d - 1) as nat);
    assert(are_needed(t, old)) by {
        assert forall|k: int| 0 <= k < old.len() implies t.first <= #[trigger] old[k] < t.first
            + t.records@.len() by {
            assert(old[k] == needed[k]);
        }
        assert forall|i: int, j: int| 0 <= i < j < old.len() implies #[trigger] old[i]
            < #[trigger] old[j] by {
            assert(old[i] == needed[i] && old[j] == needed[j]);
        }
    }
    assert(steps_left(n, d + 1) == n - d - 1);
    lemma_load_bound(old, new, f, n, c);
    assert forall|k: int| 0 <= k < old.len() implies f(#[trigger] old[k]) == depth(old[k]) by {
        assert(old.contains(old[k]));
    }
    lemma_load_same(old, f, depth, n);
    assert(new.no_duplicates());
    lemma_bounded_indices(new, t.first as int, t.first + n);
    lemma_weight_positive(n, (n - d - 1) as nat);
    assert(weight(n, (n - d) as nat) == (n + 1) * c);
    let k = (new.len() - old.len()) as nat;
    assert(k * c < (n + 1) * c) by (nonlinear_arith)
        requires
            k <= n,
            c >= 1,
    ;
}

// ---------------------------------------------------------------------------
// What is refused goes round
// ---------------------------------------------------------------------------

/// The index that a type leads to through `k` pointers, modifiers and arrays.
pub open spec fn reached(t: HeaderTable, index: u32, k: nat) -> u32
    decreases k,
{
    if k == 0 {
        index
    } else {
        match t.at(reached(t, index, (k - 1) as nat)) {
            Found::Record(HeaderRecord::Indirect { to }) => to,
            _ => reached(t, index, (k - 1) as nat),
        }
    }
}

proof fn lemma_reached_from(t: HeaderTable, index: u32, k: nat)
    requires
        t.at(index) is Record,
        t.at(index)->Record_0 is Indirect,
    ensures
        reached(t, index, k + 1) == reached(t, t.at(index)->Record_0->to, k),
    decreases k,
{
    if k > 0 {
        lemma_reached_from(t, index, (k - 1) as nat);
    } else {
        assert(reached(t, index, 0) == index);
    }
}

proof fn lemma_all_are_indirect(t: HeaderTable, index: u32, left: nat, k: nat)
    requires
        type_behind_all(t, index, left) == Err::<Option<u32>, HeaderError>(HeaderError::Malformed),
        k <= left,
    ensures
        t.first <= reached(t, index, k) < t.first + t.records@.len(),
    decreases left,
{
    if k > 0 {
        let to = t.at(index)->Record_0->to;
        lemma_all_are_indirect(t, to, (left - 1) as nat, (k - 1) as nat);
        lemma_reached_from(t, index, (k - 1) as nat);
    }
}

/// A type is refused as malformed only where its pointers, modifiers and arrays go round:
/// where they lead to one type twice.
pub proof fn lemma_refused_types_go_round(t: HeaderTable, index: u32)
    requires
        type_behind(t, index) == Err::<Option<u32>, HeaderError>(HeaderError::Malformed),
    ensures
        exists|i: nat, j: nat| i < j && #[trigger] reached(t, index, i) == #[trigger] reached(
            t,
            index,
            j,
        ),
{
    let n = t.records@.len();
    let s = Seq::new(n + 1, |k: int| reached(t, index, k as nat));
    assert forall|k: int| 0 <= k < s.len() implies t.first <= #[trigger] s[k] < t.first + n by {
        lemma_all_are_indirect(t, index, n, k as nat);
    }
    if s.no_duplicates() {
        lemma_bounded_indices(s, t.first as int, t.first + n);
    }
    let (i, j) = choose|i: int, j: int|
        0 <= i < s.len() && 0 <= j < s.len() && i != j && s[i] == s[j];
    if i < j {
        assert(reached(t, index, i as nat) == reached(t, index, j as nat));
    } else {
        assert(reached(t, index, j as nat) == reached(t, index, i as nat));
    }
}

} // verus!
