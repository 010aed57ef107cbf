//! How two lists differ: in what they hold, in its order, and in its names.

use crate::lcs::{align, lemma_script, lemma_script_of_same, script, steps, views, Edit, Step};
use crate::order::{first_seen, has_text, is_le, lemma_first_seen, lemma_push_has, lemma_sorted_by,
    rank_of, sort_stable, sorted_by, text_le, Ranked};
use crate::pieces::lemma_texts_push;
use crate::text::{owned, same, texts};
use vstd::prelude::*;

verus! {

// ---------------------------------------------------------------------------
// Ordered keys
// ---------------------------------------------------------------------------

/// How two lists of keys differ.
pub struct SeqDiff {
    pub only_base: Vec<String>,
    pub only_target: Vec<String>,
    pub moved: Vec<String>,
}

/// How two lists of keys differ, as a model.
pub struct SeqDifference {
    pub only_base: Seq<Seq<char>>,
    pub only_target: Seq<Seq<char>>,
    pub moved: Seq<Seq<char>>,
}

impl View for SeqDiff {
    type V = SeqDifference;

    open spec fn view(&self) -> SeqDifference {
        SeqDifference {
            only_base: texts(self.only_base@),
            only_target: texts(self.only_target@),
            moved: texts(self.moved@),
        }
    }
}

impl SeqDifference {
    /// Whether the lists differ.
    pub open spec fn is_diverged(self) -> bool {
        self.only_base.len() > 0 || self.only_target.len() > 0 || self.moved.len() > 0
    }
}

impl SeqDiff {
    /// Whether the lists differ.
    pub fn diverged(&self) -> (r: bool)
        ensures
            r == self@.is_diverged(),
    {
        self.only_base.len() > 0 || self.only_target.len() > 0 || self.moved.len() > 0
    }
}

/// Those of the first `n` keys that are in another list, or those that are not.
pub open spec fn filtered(s: Seq<Seq<char>>, other: Seq<Seq<char>>, inside: bool, n: int) -> Seq<
    Seq<char>,
>
    decreases n,
{
    if n <= 0 {
        Seq::empty()
    } else if other.contains(s[n - 1]) == inside {
        filtered(s, other, inside, n - 1).push(s[n - 1])
    } else {
        filtered(s, other, inside, n - 1)
    }
}

/// The keys that are in both lists, in the order of the first.
pub open spec fn common(s: Seq<Seq<char>>, other: Seq<Seq<char>>) -> Seq<Seq<char>> {
    filtered(s, other, true, s.len() as int)
}

/// The keys that are not in the other list, each once.
pub open spec fn one_sided(s: Seq<Seq<char>>, other: Seq<Seq<char>>) -> Seq<Seq<char>> {
    first_seen(filtered(s, other, false, s.len() as int))
}

/// The keys that the first `n` steps of an alignment take together.
pub open spec fn aligned(s: Seq<Seq<char>>, ops: Seq<Step>, n: int) -> Seq<Seq<char>>
    decreases n,
{
    if n <= 0 {
        Seq::empty()
    } else {
        match ops[n - 1] {
            Step::Both(i, _) => aligned(s, ops, n - 1).push(s[i]),
            _ => aligned(s, ops, n - 1),
        }
    }
}

/// The keys of a longest common subsequence.
pub open spec fn lcs_keys(a: Seq<Seq<char>>, b: Seq<Seq<char>>) -> Seq<Seq<char>> {
    let ops = script(a, b, 0, 0);
    aligned(a, ops, ops.len() as int)
}

/// The keys of both lists that are not on a longest common subsequence, each once.
pub open spec fn moved_keys(base: Seq<Seq<char>>, target: Seq<Seq<char>>) -> Seq<Seq<char>> {
    let cb = common(base, target);
    let ct = common(target, base);
    one_sided(cb, lcs_keys(cb, ct))
}

/// How two lists of keys differ: what only one of them has, and what stands elsewhere.
pub open spec fn seq_difference(base: Seq<Seq<char>>, target: Seq<Seq<char>>) -> SeqDifference {
    SeqDifference {
        only_base: one_sided(base, target),
        only_target: one_sided(target, base),
        moved: moved_keys(base, target),
    }
}

fn common_of(s: &Vec<String>, other: &Vec<String>) -> (r: Vec<String>)
    ensures
        texts(r@) == common(texts(s@), texts(other@)),
{
    let ghost m = texts(s@);
    let mut r: Vec<String> = Vec::new();
    assert(texts(r@) =~= Seq::<Seq<char>>::empty());
    let mut i: usize = 0;
    while i < s.len()
        invariant
            m == texts(s@),
            i <= s@.len(),
            texts(r@) == filtered(m, texts(other@), true, i as int),
        decreases s.len() - i,
    {
        assert(m[i as int] == s@[i as int]@);
        if has_text(other, &s[i]) {
            let x: String = owned(s[i].as_str());
            proof {
                lemma_texts_push(r@, x);
            }
            r.push(x);
        }
        i = i + 1;
    }
    r
}

fn one_sided_of(s: &Vec<String>, other: &Vec<String>) -> (r: Vec<String>)
    ensures
        texts(r@) == one_sided(texts(s@), texts(other@)),
{
    let ghost m = texts(s@);
    let mut r: Vec<String> = Vec::new();
    assert(texts(r@) =~= Seq::<Seq<char>>::empty());
    let mut i: usize = 0;
    while i < s.len()
        invariant
            m == texts(s@),
            i <= s@.len(),
            texts(r@) == first_seen(filtered(m, texts(other@), false, i as int)),
        decreases s.len() - i,
    {
        assert(m[i as int] == s@[i as int]@);
        let ghost before = filtered(m, texts(other@), false, i as int);
        if !has_text(other, &s[i]) {
            proof {
                lemma_first_seen(before);
                assert(before.push(m[i as int]).drop_last() =~= before);
            }
            if !has_text(&r, &s[i]) {
                let x: String = owned(s[i].as_str());
                proof {
                    lemma_texts_push(r@, x);
                }
                r.push(x);
            }
        }
        i = i + 1;
    }
    r
}

fn lcs_of(a: &Vec<String>, b: &Vec<String>) -> (r: Vec<String>)
    ensures
        texts(r@) == lcs_keys(texts(a@), texts(b@)),
{
    let edits: Vec<Edit> = align(a, b);
    assert(views(a@) =~= texts(a@));
    assert(views(b@) =~= texts(b@));
    let ghost m = texts(a@);
    let ghost ops = script(m, texts(b@), 0, 0);
    proof {
        lemma_script(m, texts(b@), 0, 0);
    }
    let mut r: Vec<String> = Vec::new();
    assert(texts(r@) =~= Seq::<Seq<char>>::empty());
    let mut k: usize = 0;
    while k < edits.len()
        invariant
            m == texts(a@),
            ops == steps(edits@),
            forall|x: int|
                0 <= x < ops.len() ==> match #[trigger] ops[x] {
                    Step::Both(i, _) => 0 <= i < m.len(),
                    _ => true,
                },
            k <= edits@.len(),
            texts(r@) == aligned(m, ops, k as int),
        decreases edits.len() - k,
    {
        assert(ops[k as int] == edits@[k as int].step());
        if let Edit::Equal { base: i, .. } = edits[k] {
            let x: String = owned(a[i].as_str());
            proof {
                lemma_texts_push(r@, x);
            }
            r.push(x);
        }
        k = k + 1;
    }
    r
}

/// How two lists of keys differ: what only one of them has, and, among what both have,
/// what is not on a longest common subsequence.
pub fn seq_diff(base: &Vec<String>, target: &Vec<String>) -> (r: SeqDiff)
    ensures
        r@ == seq_difference(texts(base@), texts(target@)),
{
    let cb: Vec<String> = common_of(base, target);
    let ct: Vec<String> = common_of(target, base);
    let on: Vec<String> = lcs_of(&cb, &ct);
    SeqDiff {
        only_base: one_sided_of(base, target),
        only_target: one_sided_of(target, base),
        moved: one_sided_of(&cb, &on),
    }
}

proof fn lemma_filtered_none(s: Seq<Seq<char>>, other: Seq<Seq<char>>, inside: bool, n: int)
    requires
        0 <= n <= s.len(),
        forall|i: int| 0 <= i < n ==> other.contains(#[trigger] s[i]) != inside,
    ensures
        filtered(s, other, inside, n) == Seq::<Seq<char>>::empty(),
    decreases n,
{
    if n > 0 {
        lemma_filtered_none(s, other, inside, n - 1);
        assert(other.contains(s[n - 1]) != inside);
    }
}

proof fn lemma_filtered_all(s: Seq<Seq<char>>, other: Seq<Seq<char>>, inside: bool, n: int)
    requires
        0 <= n <= s.len(),
        forall|i: int| 0 <= i < n ==> other.contains(#[trigger] s[i]) == inside,
    ensures
        filtered(s, other, inside, n) == s.take(n),
    decreases n,
{
    if n > 0 {
        lemma_filtered_all(s, other, inside, n - 1);
        assert(other.contains(s[n - 1]) == inside);
        assert(s.take(n) =~= s.take(n - 1).push(s[n - 1]));
    } else {
        assert(s.take(n) =~= Seq::<Seq<char>>::empty());
    }
}

proof fn lemma_aligned_of_same(s: Seq<Seq<char>>, ops: Seq<Step>, n: int)
    requires
        0 <= n <= s.len(),
        ops.len() == s.len(),
        forall|k: int| 0 <= k < ops.len() ==> #[trigger] ops[k] == Step::Both(k, k),
    ensures
        aligned(s, ops, n) == s.take(n),
    decreases n,
{
    if n > 0 {
        lemma_aligned_of_same(s, ops, n - 1);
        assert(ops[n - 1] == Step::Both(n - 1, n - 1));
        assert(s.take(n) =~= s.take(n - 1).push(s[n - 1]));
    } else {
        assert(s.take(n) =~= Seq::<Seq<char>>::empty());
    }
}

/// A list does not differ from itself.
pub proof fn lemma_seq_is_like_itself(s: Seq<Seq<char>>)
    ensures
        seq_difference(s, s) == (SeqDifference {
            only_base: Seq::empty(),
            only_target: Seq::empty(),
            moved: Seq::empty(),
        }),
        !seq_difference(s, s).is_diverged(),
{
    let n = s.len() as int;
    lemma_filtered_none(s, s, false, n);
    lemma_filtered_all(s, s, true, n);
    assert(s.take(n) =~= s);
    lemma_script_of_same(s, s, 0);
    let ops = script(s, s, 0, 0);
    lemma_aligned_of_same(s, ops, n);
    lemma_filtered_none(s, s, false, n);
    assert(first_seen(Seq::<Seq<char>>::empty()) =~= Seq::<Seq<char>>::empty());
}

/// What one list lacks is told, each key once, and nothing else.
pub proof fn lemma_one_sided(s: Seq<Seq<char>>, other: Seq<Seq<char>>)
    ensures
        one_sided(s, other).no_duplicates(),
        forall|k: Seq<char>| #[trigger]
            one_sided(s, other).contains(k) == (s.contains(k) && !other.contains(k)),
{
    lemma_first_seen(filtered(s, other, false, s.len() as int));
    lemma_filtered(s, other, false, s.len() as int);
    assert(s.take(s.len() as int) =~= s);
}

/// What was taken out of a list is what the list holds and the other list does, or does not.
pub proof fn lemma_filtered(s: Seq<Seq<char>>, other: Seq<Seq<char>>, inside: bool, n: int)
    requires
        0 <= n <= s.len(),
    ensures
        forall|k: Seq<char>| #[trigger]
            filtered(s, other, inside, n).contains(k) == (s.take(n).contains(k) && other.contains(k)
                == inside),
    decreases n,
{
    if n > 0 {
        lemma_filtered(s, other, inside, n - 1);
        let p = filtered(s, other, inside, n - 1);
        assert(s.take(n) =~= s.take(n - 1).push(s[n - 1]));
        assert forall|k: Seq<char>| #[trigger]
            filtered(s, other, inside, n).contains(k) == (s.take(n).contains(k) && other.contains(k)
                == inside) by {
            assert(p.contains(k) == (s.take(n - 1).contains(k) && other.contains(k) == inside));
            lemma_push_has(s.take(n - 1), s[n - 1], k);
            lemma_push_has(p, s[n - 1], k);
        }
    }
}

/// What only the base has is what only the target has when the two are exchanged.
pub proof fn lemma_sides_can_be_exchanged(base: Seq<Seq<char>>, target: Seq<Seq<char>>)
    ensures
        seq_difference(base, target).only_base == seq_difference(target, base).only_target,
        seq_difference(base, target).only_target == seq_difference(target, base).only_base,
{
}

/// A key is told of in at most one way: as one side's, as the other's, or as moved.
pub proof fn lemma_told_once(base: Seq<Seq<char>>, target: Seq<Seq<char>>, k: Seq<char>)
    ensures
        ({
            let d = seq_difference(base, target);
            &&& d.only_base.contains(k) == (base.contains(k) && !target.contains(k))
            &&& d.only_target.contains(k) == (target.contains(k) && !base.contains(k))
            &&& d.moved.contains(k) ==> base.contains(k) && target.contains(k)
        }),
{
    lemma_one_sided(base, target);
    lemma_one_sided(target, base);
    let cb = common(base, target);
    let ct = common(target, base);
    lemma_one_sided(cb, lcs_keys(cb, ct));
    lemma_filtered(base, target, true, base.len() as int);
    assert(base.take(base.len() as int) =~= base);
}

// ---------------------------------------------------------------------------
// Values and their names
// ---------------------------------------------------------------------------

/// A type and a value of it.
#[derive(Debug)]
pub struct ValueKey {
    pub ty: String,
    pub value: i64,
}

/// A type and a value of it, as a model.
pub struct KeyModel {
    pub ty: Seq<char>,
    pub value: i64,
}

impl View for ValueKey {
    type V = KeyModel;

    open spec fn view(&self) -> KeyModel {
        KeyModel { ty: self.ty@, value: self.value }
    }
}

impl ValueKey {
    /// A copy of the key.
    pub fn copy(&self) -> (r: ValueKey)
        ensures
            r@ == self@,
    {
        ValueKey { ty: owned(self.ty.as_str()), value: self.value }
    }

    /// Whether both are the same.
    pub fn is_same(&self, other: &ValueKey) -> (r: bool)
        ensures
            r == (self@ == other@),
    {
        self.value == other.value && same(self.ty.as_str(), other.ty.as_str())
    }
}

/// Whether key `a` stands before `b`: by type, then by value.
pub open spec fn key_le(a: KeyModel, b: KeyModel) -> bool {
    if a.ty != b.ty {
        text_le(a.ty, b.ty)
    } else {
        a.value <= b.value
    }
}

impl Ranked for ValueKey {
    open spec fn before(a: KeyModel, b: KeyModel) -> bool {
        key_le(a, b)
    }

    fn is_before(&self, other: &Self) -> (r: bool) {
        if !same(self.ty.as_str(), other.ty.as_str()) {
            is_le(self.ty.as_str(), other.ty.as_str())
        } else {
            self.value <= other.value
        }
    }
}

/// A named value.
#[derive(Debug)]
pub struct NamedValue {
    pub key: ValueKey,
    pub name: String,
}

impl View for NamedValue {
    type V = (KeyModel, Seq<char>);

    open spec fn view(&self) -> (KeyModel, Seq<char>) {
        (self.key@, self.name@)
    }
}

/// A value that has two names.
#[derive(Debug)]
pub struct Misnamed {
    pub key: ValueKey,
    pub base: String,
    pub target: String,
}

impl View for Misnamed {
    type V = (KeyModel, Seq<char>, Seq<char>);

    open spec fn view(&self) -> (KeyModel, Seq<char>, Seq<char>) {
        (self.key@, self.base@, self.target@)
    }
}

/// How two lists of named values differ.
pub struct ValueDiff {
    pub misnamed: Vec<Misnamed>,
    pub only_base: Vec<NamedValue>,
    pub only_target: Vec<NamedValue>,
}

/// How two lists of named values differ, as a model.
pub struct ValueDifference {
    pub misnamed: Seq<(KeyModel, Seq<char>, Seq<char>)>,
    pub only_base: Seq<(KeyModel, Seq<char>)>,
    pub only_target: Seq<(KeyModel, Seq<char>)>,
}

impl View for ValueDiff {
    type V = ValueDifference;

    open spec fn view(&self) -> ValueDifference {
        ValueDifference {
            misnamed: views(self.misnamed@),
            only_base: views(self.only_base@),
            only_target: views(self.only_target@),
        }
    }
}

impl ValueDifference {
    /// Whether the lists differ.
    pub open spec fn is_diverged(self) -> bool {
        self.misnamed.len() > 0 || self.only_base.len() > 0 || self.only_target.len() > 0
    }
}

impl ValueDiff {
    /// Whether the lists differ.
    pub fn diverged(&self) -> (r: bool)
        ensures
            r == self@.is_diverged(),
    {
        self.misnamed.len() > 0 || self.only_base.len() > 0 || self.only_target.len() > 0
    }
}

/// The keys of some named values.
pub open spec fn keys_in(v: Seq<(KeyModel, Seq<char>)>) -> Seq<KeyModel> {
    v.map_values(|x: (KeyModel, Seq<char>)| x.0)
}

/// The names that a key has among the first `n` values, in order.
pub open spec fn names_for(v: Seq<(KeyModel, Seq<char>)>, key: KeyModel, n: int) -> Seq<Seq<char>>
    decreases n,
{
    if n <= 0 {
        Seq::empty()
    } else if v[n - 1].0 == key {
        names_for(v, key, n - 1).push(v[n - 1].1)
    } else {
        names_for(v, key, n - 1)
    }
}

/// How many names are paired.
pub open spec fn paired(a: Seq<Seq<char>>, b: Seq<Seq<char>>) -> int {
    if a.len() < b.len() {
        a.len() as int
    } else {
        b.len() as int
    }
}

/// The pairs of different names among the first `n` pairs.
pub open spec fn misnames(
    key: KeyModel,
    a: Seq<Seq<char>>,
    b: Seq<Seq<char>>,
    n: int,
) -> Seq<(KeyModel, Seq<char>, Seq<char>)>
    decreases n,
{
    if n <= 0 {
        Seq::empty()
    } else if a[n - 1] != b[n - 1] {
        misnames(key, a, b, n - 1).push((key, a[n - 1], b[n - 1]))
    } else {
        misnames(key, a, b, n - 1)
    }
}

/// The names behind the paired ones, under their key.
pub open spec fn unpaired(key: KeyModel, a: Seq<Seq<char>>, from: int) -> Seq<(KeyModel, Seq<char>)> {
    a.skip(from).map_values(|s: Seq<char>| (key, s))
}

/// The difference with what a key adds: its names are paired in order, and those that are
/// left over belong to one side.
pub open spec fn with_key(
    d: ValueDifference,
    base: Seq<(KeyModel, Seq<char>)>,
    target: Seq<(KeyModel, Seq<char>)>,
    key: KeyModel,
) -> ValueDifference {
    let a = names_for(base, key, base.len() as int);
    let b = names_for(target, key, target.len() as int);
    let n = paired(a, b);
    ValueDifference {
        misnamed: d.misnamed + misnames(key, a, b, n),
        only_base: d.only_base + unpaired(key, a, n),
        only_target: d.only_target + unpaired(key, b, n),
    }
}

/// The difference as far as the first `n` keys tell it.
pub open spec fn with_keys(
    base: Seq<(KeyModel, Seq<char>)>,
    target: Seq<(KeyModel, Seq<char>)>,
    keys: Seq<KeyModel>,
    n: int,
) -> ValueDifference
    decreases n,
{
    if n <= 0 {
        ValueDifference {
            misnamed: Seq::empty(),
            only_base: Seq::empty(),
            only_target: Seq::empty(),
        }
    } else {
        with_key(with_keys(base, target, keys, n - 1), base, target, keys[n - 1])
    }
}

/// All keys of two lists, each once and in order.
pub open spec fn all_keys(
    base: Seq<(KeyModel, Seq<char>)>,
    target: Seq<(KeyModel, Seq<char>)>,
) -> Seq<KeyModel> {
    sorted_by(
        first_seen(keys_in(base) + keys_in(target)),
        |a: KeyModel, b: KeyModel| key_le(a, b),
    )
}

/// How two lists of named values differ. Values are joined by type and value, so that one
/// that only has another name is misnamed, and neither added nor removed.
pub open spec fn value_difference(
    base: Seq<(KeyModel, Seq<char>)>,
    target: Seq<(KeyModel, Seq<char>)>,
) -> ValueDifference {
    let keys = all_keys(base, target);
    with_keys(base, target, keys, keys.len() as int)
}

fn has_key(v: &Vec<ValueKey>, key: &ValueKey) -> (r: bool)
    ensures
        r == views(v@).contains(key@),
{
    let mut i: usize = 0;
    while i < v.len()
        invariant
            i <= v@.len(),
            forall|k: int| 0 <= k < i ==> #[trigger] views(v@)[k] != key@,
        decreases v.len() - i,
    {
        assert(views(v@)[i as int] == v@[i as int]@);
        if v[i].is_same(key) {
            assert(views(v@)[i as int] == key@);
            return true;
        }
        i = i + 1;
    }
    false
}

fn add_keys(v: &mut Vec<ValueKey>, values: &Vec<NamedValue>, all: Ghost<Seq<KeyModel>>)
    requires
        views(old(v)@) == first_seen(all@),
    ensures
        views(final(v)@) == first_seen(all@ + keys_in(views(values@))),
{
    let ghost keys = keys_in(views(values@));
    let mut i: usize = 0;
    assert(all@ + keys.take(0) =~= all@);
    while i < values.len()
        invariant
            keys == keys_in(views(values@)),
            i <= values@.len(),
            views(v@) == first_seen(all@ + keys.take(i as int)),
        decreases values.len() - i,
    {
        let ghost so_far = all@ + keys.take(i as int);
        let ghost x = values@[i as int].key@;
        proof {
            assert(keys[i as int] == x);
            assert(all@ + keys.take(i + 1) =~= so_far.push(x));
            assert(so_far.push(x).drop_last() =~= so_far);
            lemma_first_seen(so_far);
        }
        if !has_key(v, &values[i].key) {
            let k: ValueKey = values[i].key.copy();
            let ghost before = v@;
            v.push(k);
            assert(views(v@) =~= views(before).push(x));
        }
        i = i + 1;
    }
    assert(keys.take(i as int) =~= keys);
}

fn names_of(values: &Vec<NamedValue>, key: &ValueKey) -> (r: Vec<String>)
    ensures
        texts(r@) == names_for(views(values@), key@, values@.len() as int),
{
    let ghost m = views(values@);
    let mut r: Vec<String> = Vec::new();
    assert(texts(r@) =~= Seq::<Seq<char>>::empty());
    let mut i: usize = 0;
    while i < values.len()
        invariant
            m == views(values@),
            i <= values@.len(),
            texts(r@) == names_for(m, key@, i as int),
        decreases values.len() - i,
    {
        assert(m[i as int] == values@[i as int]@);
        if values[i].key.is_same(key) {
            let x: String = owned(values[i].name.as_str());
            proof {
                lemma_texts_push(r@, x);
            }
            r.push(x);
        }
        i = i + 1;
    }
    r
}

fn add_misnames(
    out: &mut Vec<Misnamed>,
    key: &ValueKey,
    a: &Vec<String>,
    b: &Vec<String>,
    n: usize,
)
    requires
        n <= a@.len(),
        n <= b@.len(),
    ensures
        views(final(out)@) == views(old(out)@) + misnames(key@, texts(a@), texts(b@), n as int),
{
    let ghost start = views(out@);
    let mut i: usize = 0;
    assert(start + misnames(key@, texts(a@), texts(b@), 0) =~= start);
    while i < n
        invariant
            start == views(old(out)@),
            n <= a@.len(),
            n <= b@.len(),
            i <= n,
            views(out@) == start + misnames(key@, texts(a@), texts(b@), i as int),
        decreases n - i,
    {
        if !same(a[i].as_str(), b[i].as_str()) {
            let one: Misnamed = Misnamed {
                key: key.copy(),
                base: owned(a[i].as_str()),
                target: owned(b[i].as_str()),
            };
            let ghost before = out@;
            let ghost m = one@;
            out.push(one);
            assert(views(out@) =~= views(before).push(m));
            assert(start + misnames(key@, texts(a@), texts(b@), i + 1) =~= (start + misnames(
                key@,
                texts(a@),
                texts(b@),
                i as int,
            )).push(m));
        }
        i = i + 1;
    }
}

fn add_unpaired(out: &mut Vec<NamedValue>, key: &ValueKey, a: &Vec<String>, from: usize)
    requires
        from <= a@.len(),
    ensures
        views(final(out)@) == views(old(out)@) + unpaired(key@, texts(a@), from as int),
{
    let ghost start = views(out@);
    let ghost rest = unpaired(key@, texts(a@), from as int);
    let mut i: usize = from;
    assert(start + rest.take(0) =~= start);
    while i < a.len()
        invariant
            start == views(old(out)@),
            rest == unpaired(key@, texts(a@), from as int),
            from <= i <= a@.len(),
            views(out@) == start + rest.take(i - from),
        decreases a.len() - i,
    {
        let one: NamedValue = NamedValue { key: key.copy(), name: owned(a[i].as_str()) };
        let ghost before = out@;
        let ghost m = one@;
        out.push(one);
        assert(rest[i - from] == m);
        assert(views(out@) =~= views(before).push(m));
        assert(start + rest.take(i - from + 1) =~= (start + rest.take(i - from)).push(m));
        i = i + 1;
    }
    assert(rest.take(i - from) =~= rest);
}

/// How two lists of named values differ.
pub fn value_match(base: &Vec<NamedValue>, target: &Vec<NamedValue>) -> (r: ValueDiff)
    ensures
        r@ == value_difference(views(base@), views(target@)),
{
    let ghost b = views(base@);
    let ghost t = views(target@);
    let mut unsorted: Vec<ValueKey> = Vec::new();
    let ghost none = Seq::<KeyModel>::empty();
    assert(views(unsorted@) =~= first_seen(none));
    add_keys(&mut unsorted, base, Ghost(none));
    assert(none + keys_in(b) =~= keys_in(b));
    add_keys(&mut unsorted, target, Ghost(keys_in(b)));
    let keys: Vec<ValueKey> = sort_stable(unsorted);
    assert(rank_of::<ValueKey>() =~= (|a: KeyModel, b: KeyModel| key_le(a, b)));
    let ghost all = all_keys(b, t);
    assert(views(keys@) == all);
    let mut misnamed: Vec<Misnamed> = Vec::new();
    let mut only_base: Vec<NamedValue> = Vec::new();
    let mut only_target: Vec<NamedValue> = Vec::new();
    assert(views(misnamed@) =~= Seq::<(KeyModel, Seq<char>, Seq<char>)>::empty());
    assert(views(only_base@) =~= Seq::<(KeyModel, Seq<char>)>::empty());
    assert(views(only_target@) =~= Seq::<(KeyModel, Seq<char>)>::empty());
    let mut i: usize = 0;
    while i < keys.len()
        invariant
            b == views(base@),
            t == views(target@),
            all == views(keys@),
            i <= keys@.len(),
            with_keys(b, t, all, i as int) == (ValueDifference {
                misnamed: views(misnamed@),
                only_base: views(only_base@),
                only_target: views(only_target@),
            }),
        decreases keys.len() - i,
    {
        assert(all[i as int] == keys@[i as int]@);
        let bn: Vec<String> = names_of(base, &keys[i]);
        let tn: Vec<String> = names_of(target, &keys[i]);
        let n: usize = if bn.len() < tn.len() {
            bn.len()
        } else {
            tn.len()
        };
        add_misnames(&mut misnamed, &keys[i], &bn, &tn, n);
        add_unpaired(&mut only_base, &keys[i], &bn, n);
        add_unpaired(&mut only_target, &keys[i], &tn, n);
        i = i + 1;
    }
    ValueDiff { misnamed, only_base, only_target }
}

proof fn lemma_misnames_of_same(key: KeyModel, a: Seq<Seq<char>>, n: int)
    requires
        0 <= n <= a.len(),
    ensures
        misnames(key, a, a, n) == Seq::<(KeyModel, Seq<char>, Seq<char>)>::empty(),
    decreases n,
{
    if n > 0 {
        lemma_misnames_of_same(key, a, n - 1);
    }
}

proof fn lemma_keys_of_same(v: Seq<(KeyModel, Seq<char>)>, keys: Seq<KeyModel>, n: int)
    requires
        0 <= n <= keys.len(),
    ensures
        !with_keys(v, v, keys, n).is_diverged(),
    decreases n,
{
    if n > 0 {
        lemma_keys_of_same(v, keys, n - 1);
        let a = names_for(v, keys[n - 1], v.len() as int);
        lemma_misnames_of_same(keys[n - 1], a, a.len() as int);
        assert(unpaired(keys[n - 1], a, a.len() as int).len() == 0);
    }
}

/// Named values do not differ from themselves.
pub proof fn lemma_values_are_like_themselves(v: Seq<(KeyModel, Seq<char>)>)
    ensures
        !value_difference(v, v).is_diverged(),
{
    let keys = all_keys(v, v);
    lemma_keys_of_same(v, keys, keys.len() as int);
}

/// How many names the first `n` keys have among the first `m` values.
spec fn names_total(v: Seq<(KeyModel, Seq<char>)>, keys: Seq<KeyModel>, n: int, m: int) -> nat
    decreases n,
{
    if n <= 0 {
        0
    } else {
        names_total(v, keys, n - 1, m) + names_for(v, keys[n - 1], m).len()
    }
}

proof fn lemma_value_adds(
    v: Seq<(KeyModel, Seq<char>)>,
    keys: Seq<KeyModel>,
    n: int,
    m: int,
    at: int,
)
    requires
        keys.no_duplicates(),
        0 <= n <= keys.len(),
        0 < m <= v.len(),
        0 <= at < keys.len(),
        keys[at] == v[m - 1].0,
    ensures
        names_total(v, keys, n, m) == names_total(v, keys, n, m - 1) + if at < n {
            1nat
        } else {
            0
        },
    decreases n,
{
    if n > 0 {
        lemma_value_adds(v, keys, n - 1, m, at);
        if n - 1 != at {
            assert(keys[n - 1] != keys[at]);
        }
    }
}

proof fn lemma_no_names(v: Seq<(KeyModel, Seq<char>)>, keys: Seq<KeyModel>, n: int)
    ensures
        names_total(v, keys, n, 0) == 0,
    decreases n,
{
    if n > 0 {
        lemma_no_names(v, keys, n - 1);
    }
}

proof fn lemma_names_total(v: Seq<(KeyModel, Seq<char>)>, keys: Seq<KeyModel>, m: int)
    requires
        keys.no_duplicates(),
        0 <= m <= v.len(),
        forall|i: int| 0 <= i < v.len() ==> keys.contains((#[trigger] v[i]).0),
    ensures
        names_total(v, keys, keys.len() as int, m) == m,
    decreases m,
{
    if m > 0 {
        lemma_names_total(v, keys, m - 1);
        assert(keys.contains(v[m - 1].0));
        let at = keys.index_of(v[m - 1].0);
        lemma_value_adds(v, keys, keys.len() as int, m, at);
    } else {
        lemma_no_names(v, keys, keys.len() as int);
    }
}

proof fn lemma_misnames_len(key: KeyModel, a: Seq<Seq<char>>, b: Seq<Seq<char>>, n: int)
    requires
        0 <= n,
    ensures
        misnames(key, a, b, n).len() <= n,
    decreases n,
{
    if n > 0 {
        lemma_misnames_len(key, a, b, n - 1);
    }
}

proof fn lemma_keys_accounted(
    base: Seq<(KeyModel, Seq<char>)>,
    target: Seq<(KeyModel, Seq<char>)>,
    keys: Seq<KeyModel>,
    n: int,
)
    requires
        0 <= n <= keys.len(),
    ensures
        ({
            let d = with_keys(base, target, keys, n);
            let x = names_total(base, keys, n, base.len() as int);
            let y = names_total(target, keys, n, target.len() as int);
            &&& d.only_base.len() + d.misnamed.len() <= x
            &&& x - d.only_base.len() == y - d.only_target.len()
        }),
    decreases n,
{
    if n > 0 {
        lemma_keys_accounted(base, target, keys, n - 1);
        let k = keys[n - 1];
        let a = names_for(base, k, base.len() as int);
        let b = names_for(target, k, target.len() as int);
        lemma_misnames_len(k, a, b, paired(a, b));
    }
}

/// The keys of two lists are each there once.
pub proof fn lemma_all_keys(base: Seq<(KeyModel, Seq<char>)>, target: Seq<(KeyModel, Seq<char>)>)
    ensures
        all_keys(base, target).no_duplicates(),
        forall|k: KeyModel| #[trigger]
            all_keys(base, target).contains(k) == (keys_in(base) + keys_in(target)).contains(k),
{
    broadcast use vstd::seq_lib::group_to_multiset_ensures;

    let all = keys_in(base) + keys_in(target);
    let once = first_seen(all);
    let le = |a: KeyModel, b: KeyModel| key_le(a, b);
    let sorted = sorted_by(once, le);
    lemma_first_seen(all);
    lemma_sorted_by(once, le);
    once.lemma_multiset_has_no_duplicates();
    assert forall|k: KeyModel| sorted.to_multiset().contains(k) implies #[trigger]
        sorted.to_multiset().count(k) == 1 by {
        assert(once.to_multiset().contains(k));
    }
    sorted.lemma_multiset_has_no_duplicates_conv();
    assert forall|k: KeyModel| #[trigger] sorted.contains(k) == all.contains(k) by {
        assert(sorted.contains(k) == (sorted.to_multiset().count(k) > 0));
        assert(once.contains(k) == (once.to_multiset().count(k) > 0));
    }
}

/// Every value is accounted for: as many of the base as of the target are paired, the
/// misnamed ones are among them, and the others are told to belong to one side.
pub proof fn lemma_values_are_accounted_for(
    base: Seq<(KeyModel, Seq<char>)>,
    target: Seq<(KeyModel, Seq<char>)>,
)
    ensures
        ({
            let d = value_difference(base, target);
            &&& d.only_base.len() + d.misnamed.len() <= base.len()
            &&& d.only_target.len() + d.misnamed.len() <= target.len()
            &&& base.len() - d.only_base.len() == target.len() - d.only_target.len()
        }),
{
    let keys = all_keys(base, target);
    let both = keys_in(base) + keys_in(target);
    lemma_all_keys(base, target);
    assert forall|i: int| 0 <= i < base.len() implies keys.contains((#[trigger] base[i]).0) by {
        assert(both[i] == base[i].0);
        assert(both.contains(base[i].0));
    }
    assert forall|i: int| 0 <= i < target.len() implies keys.contains((#[trigger] target[i]).0) by {
        assert(both[base.len() + i] == target[i].0);
        assert(both.contains(target[i].0));
    }
    lemma_names_total(base, keys, base.len() as int);
    lemma_names_total(target, keys, target.len() as int);
    lemma_keys_accounted(base, target, keys, keys.len() as int);
}

} // verus!
