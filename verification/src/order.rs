//! The order of texts, and stable sorting.

use crate::lcs::views;
use crate::text::{chars_of, texts};
use vstd::prelude::*;

verus! {

/// Whether `a` stands before `b` in a dictionary, or is `b`: by the first
/// character on which they differ, a leading part before the whole.
pub open spec fn text_le(a: Seq<char>, b: Seq<char>) -> bool
    decreases a.len(),
{
    if a.len() == 0 {
        true
    } else if b.len() == 0 {
        false
    } else if a[0] != b[0] {
        a[0] < b[0]
    } else {
        text_le(a.skip(1), b.skip(1))
    }
}

/// Of two texts one stands before the other.
pub proof fn lemma_text_le_total(a: Seq<char>, b: Seq<char>)
    ensures
        text_le(a, b) || text_le(b, a),
    decreases a.len(),
{
    if a.len() > 0 && b.len() > 0 && a[0] == b[0] {
        lemma_text_le_total(a.skip(1), b.skip(1));
    }
}

/// Only the same text stands both before and behind a text.
pub proof fn lemma_text_le_antisymmetric(a: Seq<char>, b: Seq<char>)
    requires
        text_le(a, b),
        text_le(b, a),
    ensures
        a == b,
    decreases a.len(),
{
    if a.len() == 0 || b.len() == 0 {
        assert(a =~= b);
    } else {
        lemma_text_le_antisymmetric(a.skip(1), b.skip(1));
        assert(a =~= seq![a[0]] + a.skip(1));
        assert(b =~= seq![b[0]] + b.skip(1));
    }
}

/// What stands before a text stands before all that stands behind it.
pub proof fn lemma_text_le_transitive(a: Seq<char>, b: Seq<char>, c: Seq<char>)
    requires
        text_le(a, b),
        text_le(b, c),
    ensures
        text_le(a, c),
    decreases a.len(),
{
    if a.len() > 0 && a[0] == b[0] && b[0] == c[0] {
        lemma_text_le_transitive(a.skip(1), b.skip(1), c.skip(1));
    }
}

/// Whether `a` stands before `b`, or is `b`.
pub fn is_le(a: &str, b: &str) -> (r: bool)
    ensures
        r == text_le(a@, b@),
{
    let x: Vec<char> = chars_of(a);
    let y: Vec<char> = chars_of(b);
    let mut i: usize = 0;
    assert(a@.skip(0) =~= a@ && b@.skip(0) =~= b@);
    while i < x.len()
        invariant
            x@ == a@,
            y@ == b@,
            i <= x@.len(),
            i <= y@.len(),
            text_le(a@, b@) == text_le(a@.skip(i as int), b@.skip(i as int)),
        decreases x.len() - i,
    {
        if i == y.len() {
            return false;
        }
        assert(a@.skip(i as int)[0] == a@[i as int]);
        assert(b@.skip(i as int)[0] == b@[i as int]);
        assert(a@.skip(i as int).skip(1) =~= a@.skip(i + 1));
        assert(b@.skip(i as int).skip(1) =~= b@.skip(i + 1));
        if x[i] != y[i] {
            return x[i] < y[i];
        }
        i = i + 1;
    }
    true
}

// ---------------------------------------------------------------------------

/// A value that lists can be sorted by.
pub trait Ranked: View + Sized {
    /// Whether `a` may stand before `b`.
    spec fn before(a: Self::V, b: Self::V) -> bool;

    /// Whether `self` may stand before `other`.
    fn is_before(&self, other: &Self) -> (r: bool)
        ensures
            r == Self::before(self@, other@),
    ;
}

impl Ranked for String {
    open spec fn before(a: Seq<char>, b: Seq<char>) -> bool {
        text_le(a, b)
    }

    fn is_before(&self, other: &Self) -> (r: bool) {
        is_le(self.as_str(), other.as_str())
    }
}

/// `x` put into a sorted list, behind all that may stand before it.
pub open spec fn inserted<K>(s: Seq<K>, x: K, le: spec_fn(K, K) -> bool) -> Seq<K>
    decreases s.len(),
{
    if s.len() == 0 || le(s.last(), x) {
        s.push(x)
    } else {
        inserted(s.drop_last(), x, le).push(s.last())
    }
}

/// `s` sorted; what ranks the same keeps its order.
pub open spec fn sorted_by<K>(s: Seq<K>, le: spec_fn(K, K) -> bool) -> Seq<K>
    decreases s.len(),
{
    if s.len() == 0 {
        s
    } else {
        inserted(sorted_by(s.drop_last(), le), s.last(), le)
    }
}

/// Whether each element may stand before all that are behind it.
pub open spec fn is_sorted<K>(s: Seq<K>, le: spec_fn(K, K) -> bool) -> bool {
    forall|i: int, j: int| 0 <= i < j < s.len() ==> le(#[trigger] s[i], #[trigger] s[j])
}

/// A rank by which any two elements can be put in order.
pub open spec fn is_rank<K>(le: spec_fn(K, K) -> bool) -> bool {
    &&& forall|a: K, b: K| #[trigger] le(a, b) || le(b, a)
    &&& forall|a: K, b: K, c: K| #[trigger] le(a, b) && #[trigger] le(b, c) ==> le(a, c)
}

proof fn lemma_inserted<K>(s: Seq<K>, x: K, le: spec_fn(K, K) -> bool)
    ensures
        inserted(s, x, le).len() == s.len() + 1,
        inserted(s, x, le).to_multiset() == s.to_multiset().insert(x),
        is_rank(le) && is_sorted(s, le) ==> is_sorted(inserted(s, x, le), le),
        forall|i: int|
            0 <= i < inserted(s, x, le).len() ==> (#[trigger] inserted(s, x, le)[i]) == x
                || s.contains(inserted(s, x, le)[i]),
    decreases s.len(),
{
    broadcast use vstd::seq_lib::group_to_multiset_ensures;

    let r = inserted(s, x, le);
    if s.len() == 0 || le(s.last(), x) {
        assert forall|i: int| 0 <= i < r.len() implies (#[trigger] r[i]) == x || s.contains(
            r[i],
        ) by {
            if i < s.len() {
                assert(r[i] == s[i]);
            }
        }
        if is_rank(le) && is_sorted(s, le) {
            assert forall|i: int, j: int| 0 <= i < j < r.len() implies le(
                #[trigger] r[i],
                #[trigger] r[j],
            ) by {
                if j == s.len() && i < s.len() - 1 {
                    assert(le(s[i], s[s.len() - 1]));
                    assert(le(s.last(), x));
                }
            }
        }
    } else {
        let init = s.drop_last();
        let q = inserted(init, x, le);
        lemma_inserted(init, x, le);
        assert(s =~= init.push(s.last()));
        assert(r == q.push(s.last()));
        assert(r.to_multiset() =~= s.to_multiset().insert(x));
        assert forall|i: int| 0 <= i < r.len() implies (#[trigger] r[i]) == x || s.contains(
            r[i],
        ) by {
            if i < q.len() {
                assert(r[i] == q[i]);
                if q[i] != x {
                    assert(init.contains(q[i]));
                    let k = choose|k: int| 0 <= k < init.len() && init[k] == q[i];
                    assert(s[k] == q[i]);
                }
            } else {
                assert(r[i] == s[s.len() - 1]);
            }
        }
        if is_rank(le) && is_sorted(s, le) {
            assert(is_sorted(init, le)) by {
                assert forall|i: int, j: int| 0 <= i < j < init.len() implies le(
                    #[trigger] init[i],
                    #[trigger] init[j],
                ) by {
                    assert(le(s[i], s[j]));
                }
            }
            assert forall|i: int, j: int| 0 <= i < j < r.len() implies le(
                #[trigger] r[i],
                #[trigger] r[j],
            ) by {
                if j == q.len() {
                    assert(r[i] == q[i]);
                    if q[i] == x {
                        assert(le(s.last(), x) || le(x, s.last()));
                    } else {
                        assert(init.contains(q[i]));
                        let k = choose|k: int| 0 <= k < init.len() && init[k] == q[i];
                        assert(le(s[k], s[s.len() - 1]));
                    }
                } else {
                    assert(le(q[i], q[j]));
                }
            }
        }
    }
}

/// Sorting keeps what a list holds; by a rank it puts the list in order.
pub proof fn lemma_sorted_by<K>(s: Seq<K>, le: spec_fn(K, K) -> bool)
    ensures
        sorted_by(s, le).len() == s.len(),
        sorted_by(s, le).to_multiset() == s.to_multiset(),
        is_rank(le) ==> is_sorted(sorted_by(s, le), le),
    decreases s.len(),
{
    broadcast use vstd::seq_lib::group_to_multiset_ensures;

    if s.len() > 0 {
        lemma_sorted_by(s.drop_last(), le);
        lemma_inserted(sorted_by(s.drop_last(), le), s.last(), le);
        assert(s =~= s.drop_last().push(s.last()));
    }
}

proof fn lemma_inserted_at<K>(s: Seq<K>, x: K, le: spec_fn(K, K) -> bool, p: int)
    requires
        0 <= p <= s.len(),
        p == 0 || le(s[p - 1], x),
        forall|k: int| p <= k < s.len() ==> !le(#[trigger] s[k], x),
    ensures
        inserted(s, x, le) == s.insert(p, x),
    decreases s.len(),
{
    if p == s.len() {
        assert(s.insert(p, x) =~= s.push(x));
    } else {
        assert(!le(s[s.len() - 1], x));
        lemma_inserted_at(s.drop_last(), x, le, p);
        assert(s.insert(p, x) =~= s.drop_last().insert(p, x).push(s.last()));
    }
}

/// The rank of a type as a function.
pub open spec fn rank_of<T: Ranked>() -> spec_fn(T::V, T::V) -> bool {
    |a: T::V, b: T::V| T::before(a, b)
}

/// Puts `x` into a sorted list, behind all that may stand before it.
pub fn insert_ranked<T: Ranked>(v: &mut Vec<T>, x: T)
    ensures
        views(final(v)@) == inserted(views(old(v)@), x@, rank_of::<T>()),
{
    let ghost s = views(v@);
    let ghost le = rank_of::<T>();
    let ghost y = x@;
    let mut p: usize = v.len();
    while p > 0 && !v[p - 1].is_before(&x)
        invariant
            p <= v@.len(),
            s == views(v@),
            y == x@,
            le == rank_of::<T>(),
            forall|k: int| p <= k < s.len() ==> !le(#[trigger] s[k], y),
        decreases p,
    {
        assert(s[p - 1] == v@[p - 1]@);
        p = p - 1;
    }
    proof {
        if p > 0 {
            assert(s[p - 1] == v@[p - 1]@);
        }
        lemma_inserted_at(s, y, le, p as int);
    }
    let ghost was = v@;
    v.insert(p, x);
    assert(views(v@) =~= s.insert(p as int, y));
}

/// Sorts a list; what ranks the same keeps its order.
pub fn sort_stable<T: Ranked>(v: Vec<T>) -> (r: Vec<T>)
    ensures
        views(r@) == sorted_by(views(v@), rank_of::<T>()),
{
    let ghost s = views(v@);
    let mut rest: Vec<T> = v;
    let mut taken: Vec<T> = Vec::new();
    // The elements are taken from the end, and so put back in their order.
    while rest.len() > 0
        invariant
            views(rest@) + views(taken@).reverse() == s,
        decreases rest@.len(),
    {
        let ghost before_rest = rest@;
        let ghost before_taken = taken@;
        let x: Option<T> = rest.pop();
        if let Some(y) = x {
            taken.push(y);
        }
        assert(views(rest@) =~= views(before_rest).drop_last());
        assert(views(taken@) =~= views(before_taken).push(views(before_rest).last()));
        assert(views(rest@) + views(taken@).reverse() =~= views(before_rest) + views(
            before_taken,
        ).reverse());
    }
    assert(views(rest@) =~= Seq::empty());
    assert(views(taken@).reverse() =~= s);
    let mut out: Vec<T> = Vec::new();
    assert(views(out@) =~= Seq::empty());
    assert(s.take(0) =~= Seq::empty());
    while taken.len() > 0
        invariant
            taken@.len() <= s.len(),
            views(taken@) == s.skip(s.len() - taken@.len()).reverse(),
            views(out@) == sorted_by(s.take(s.len() - taken@.len()), rank_of::<T>()),
        decreases taken@.len(),
    {
        let ghost n = taken@.len() as int;
        let ghost t = views(taken@);
        assert(t.last() == s[s.len() - n]);
        let x: Option<T> = taken.pop();
        assert(views(taken@) =~= t.drop_last());
        assert(views(taken@) =~= s.skip(s.len() - (n - 1)).reverse());
        let ghost part = s.take(s.len() - n + 1);
        assert(part.drop_last() =~= s.take(s.len() - n));
        assert(part.last() == s[s.len() - n]);
        if let Some(y) = x {
            assert(y@ == t.last());
            insert_ranked(&mut out, y);
        }
    }
    assert(s.take(s.len() as int) =~= s);
    out
}

// ---------------------------------------------------------------------------
// Lists without repetition
// ---------------------------------------------------------------------------

/// `s` without what occurred before in it.
pub open spec fn first_seen<K>(s: Seq<K>) -> Seq<K>
    decreases s.len(),
{
    if s.len() == 0 {
        s
    } else if s.drop_last().contains(s.last()) {
        first_seen(s.drop_last())
    } else {
        first_seen(s.drop_last()).push(s.last())
    }
}

/// A list without repetitions holds what the list holds, each once.
pub proof fn lemma_first_seen<K>(s: Seq<K>)
    ensures
        first_seen(s).no_duplicates(),
        forall|x: K| (#[trigger] first_seen(s).contains(x)) == s.contains(x),
        first_seen(s).len() <= s.len(),
    decreases s.len(),
{
    if s.len() > 0 {
        let init = s.drop_last();
        lemma_first_seen(init);
        let r = first_seen(s);
        let q = first_seen(init);
        assert(s =~= init.push(s.last()));
        assert forall|x: K| (#[trigger] r.contains(x)) == s.contains(x) by {
            if s.contains(x) {
                let k = choose|k: int| 0 <= k < s.len() && s[k] == x;
                if k < init.len() {
                    assert(init[k] == x);
                    assert(init.contains(x));
                    assert(q.contains(x));
                    let m = choose|m: int| 0 <= m < q.len() && q[m] == x;
                    assert(r[m] == x);
                } else if !init.contains(x) {
                    assert(r[q.len() as int] == x);
                }
            }
            if r.contains(x) {
                let m = choose|m: int| 0 <= m < r.len() && r[m] == x;
                if m < q.len() {
                    assert(q[m] == x);
                    assert(q.contains(x));
                    assert(init.contains(x));
                    let k = choose|k: int| 0 <= k < init.len() && init[k] == x;
                    assert(s[k] == x);
                } else {
                    assert(s[s.len() - 1] == x);
                }
            }
        }
        if !init.contains(s.last()) {
            assert(!q.contains(s.last()));
        }
    }
}

/// Whether a list of strings holds `x`.
pub fn has_text(v: &Vec<String>, x: &String) -> (r: bool)
    ensures
        r == texts(v@).contains(x@),
{
    let mut i: usize = 0;
    while i < v.len()
        invariant
            i <= v@.len(),
            forall|k: int| 0 <= k < i ==> (#[trigger] v@[k])@ != x@,
        decreases v.len() - i,
    {
        if v[i] == *x {
            assert(texts(v@)[i as int] == x@);
            return true;
        }
        i = i + 1;
    }
    assert(forall|k: int| 0 <= k < v@.len() ==> texts(v@)[k] == v@[k]@);
    false
}

/// `s` with `x` put in its place, unless it is there.
pub open spec fn inserted_once(s: Seq<Seq<char>>, x: Seq<char>) -> Seq<Seq<char>> {
    if s.contains(x) {
        s
    } else {
        inserted(s, x, |a: Seq<char>, b: Seq<char>| text_le(a, b))
    }
}

/// The texts of `s` in order, each once.
pub open spec fn sorted_once(s: Seq<Seq<char>>) -> Seq<Seq<char>>
    decreases s.len(),
{
    if s.len() == 0 {
        s
    } else {
        inserted_once(sorted_once(s.drop_last()), s.last())
    }
}

/// What a list with one more element holds.
pub proof fn lemma_push_has<K>(s: Seq<K>, x: K, e: K)
    ensures
        s.push(x).contains(e) == (s.contains(e) || e == x),
{
    let t = s.push(x);
    if s.contains(e) {
        let k = s.index_of(e);
        assert(t[k] == e);
    }
    if e == x {
        assert(t[s.len() as int] == e);
    }
    if t.contains(e) {
        let k = t.index_of(e);
        if k < s.len() {
            assert(s[k] == e);
        }
    }
}

/// The order of texts puts any two texts in order.
pub proof fn lemma_text_rank()
    ensures
        is_rank(|a: Seq<char>, b: Seq<char>| text_le(a, b)),
{
    let le = |a: Seq<char>, b: Seq<char>| text_le(a, b);
    assert forall|a: Seq<char>, b: Seq<char>| #[trigger] le(a, b) || le(b, a) by {
        lemma_text_le_total(a, b);
    }
    assert forall|a: Seq<char>, b: Seq<char>, c: Seq<char>| #[trigger]
        le(a, b) && #[trigger] le(b, c) implies le(a, c) by {
        lemma_text_le_transitive(a, b, c);
    }
}

/// A list in order with each text once holds what the list holds.
pub proof fn lemma_sorted_once(s: Seq<Seq<char>>)
    ensures
        forall|x: Seq<char>| (#[trigger] sorted_once(s).contains(x)) == s.contains(x),
        is_sorted(sorted_once(s), |a: Seq<char>, b: Seq<char>| text_le(a, b)),
        sorted_once(s).no_duplicates(),
    decreases s.len(),
{
    let le = |a: Seq<char>, b: Seq<char>| text_le(a, b);
    if s.len() > 0 {
        let init = s.drop_last();
        let q = sorted_once(init);
        let r = sorted_once(s);
        lemma_sorted_once(init);
        assert(s =~= init.push(s.last()));
        lemma_text_rank();
        lemma_inserted(q, s.last(), le);
        lemma_inserted_once_holds(q, s.last());
        assert forall|x: Seq<char>| (#[trigger] r.contains(x)) == s.contains(x) by {
            if s.contains(x) {
                let k = choose|k: int| 0 <= k < s.len() && s[k] == x;
                if k < init.len() {
                    assert(init[k] == x);
                    assert(init.contains(x));
                    assert(q.contains(x));
                }
            }
            if r.contains(x) && x != s.last() {
                assert(q.contains(x));
                assert(init.contains(x));
                let k = choose|k: int| 0 <= k < init.len() && init[k] == x;
                assert(s[k] == x);
            }
            if x == s.last() {
                assert(s[s.len() - 1] == x);
            }
        }
        if !q.contains(s.last()) {
            broadcast use vstd::seq_lib::group_to_multiset_ensures;

            q.lemma_multiset_has_no_duplicates();
            assert(q.to_multiset().count(s.last()) == 0);
            assert forall|x: Seq<char>| r.to_multiset().count(x) <= 1 by {}
            r.lemma_multiset_has_no_duplicates_conv();
        }
    }
}

proof fn lemma_inserted_once_holds(q: Seq<Seq<char>>, y: Seq<char>)
    ensures
        forall|x: Seq<char>|
            (#[trigger] inserted_once(q, y).contains(x)) == (q.contains(x) || x == y),
{
    broadcast use vstd::seq_lib::group_to_multiset_ensures;

    let le = |a: Seq<char>, b: Seq<char>| text_le(a, b);
    let r = inserted_once(q, y);
    if !q.contains(y) {
        lemma_inserted(q, y, le);
        assert forall|x: Seq<char>| (#[trigger] r.contains(x)) == (q.contains(x) || x == y) by {
            assert(r.contains(x) <==> r.to_multiset().count(x) > 0);
            assert(q.contains(x) <==> q.to_multiset().count(x) > 0);
        }
    }
}

/// Puts `x` in its place in a sorted list, unless it is there.
pub fn insert_once(v: &mut Vec<String>, x: String)
    ensures
        texts(final(v)@) == inserted_once(texts(old(v)@), x@),
{
    assert(views(v@) =~= texts(v@));
    if !has_text(v, &x) {
        let ghost y = x@;
        insert_ranked(v, x);
        assert(views(v@) =~= texts(v@));
        assert(rank_of::<String>() =~= (|a: Seq<char>, b: Seq<char>| text_le(a, b)));
    }
}

} // verus!
