//! Alignment of two sequences along a longest common subsequence.

use vstd::prelude::*;

verus! {

/// A value that an alignment can compare.
pub trait Token: View + Sized {
    /// Whether two values stand for the same.
    fn is_same(&self, other: &Self) -> (r: bool)
        ensures
            r == (self@ == other@),
    ;
}

impl Token for String {
    fn is_same(&self, other: &Self) -> (r: bool) {
        *self == *other
    }
}

impl Token for usize {
    fn is_same(&self, other: &Self) -> (r: bool) {
        *self == *other
    }
}

/// What the values of a sequence stand for.
pub open spec fn views<T: View>(v: Seq<T>) -> Seq<T::V> {
    v.map_values(|x: T| x@)
}

/// The length of a longest common subsequence of `a[i..]` and `b[j..]`.
pub open spec fn lcs_len<K>(a: Seq<K>, b: Seq<K>, i: int, j: int) -> nat
    decreases (a.len() - i) + (b.len() - j),
{
    if i < 0 || j < 0 || i >= a.len() || j >= b.len() {
        0
    } else if a[i] == b[j] {
        1 + lcs_len(a, b, i + 1, j + 1)
    } else {
        let x = lcs_len(a, b, i + 1, j);
        let y = lcs_len(a, b, i, j + 1);
        if x >= y {
            x
        } else {
            y
        }
    }
}

/// One step of an alignment, by the positions that it takes up.
pub enum Step {
    Both(int, int),
    Base(int),
    Target(int),
}

/// The alignment of `a[i..]` with `b[j..]`: equal heads are taken together,
/// else the side is advanced on which the longer common rest lies, `a` first.
pub open spec fn script<K>(a: Seq<K>, b: Seq<K>, i: int, j: int) -> Seq<Step>
    decreases (a.len() - i) + (b.len() - j),
{
    if i < 0 || j < 0 || i > a.len() || j > b.len() || (i == a.len() && j == b.len()) {
        Seq::empty()
    } else if i >= a.len() {
        seq![Step::Target(j)] + script(a, b, i, j + 1)
    } else if j >= b.len() {
        seq![Step::Base(i)] + script(a, b, i + 1, j)
    } else if a[i] == b[j] {
        seq![Step::Both(i, j)] + script(a, b, i + 1, j + 1)
    } else if lcs_len(a, b, i + 1, j) >= lcs_len(a, b, i, j + 1) {
        seq![Step::Base(i)] + script(a, b, i + 1, j)
    } else {
        seq![Step::Target(j)] + script(a, b, i, j + 1)
    }
}

/// The positions of the first sequence that an alignment takes up, in order.
pub open spec fn bases(s: Seq<Step>) -> Seq<int>
    decreases s.len(),
{
    if s.len() == 0 {
        Seq::empty()
    } else {
        match s[0] {
            Step::Both(i, _) => seq![i] + bases(s.skip(1)),
            Step::Base(i) => seq![i] + bases(s.skip(1)),
            Step::Target(_) => bases(s.skip(1)),
        }
    }
}

/// The positions of the second sequence that an alignment takes up, in order.
pub open spec fn targets(s: Seq<Step>) -> Seq<int>
    decreases s.len(),
{
    if s.len() == 0 {
        Seq::empty()
    } else {
        match s[0] {
            Step::Both(_, j) => seq![j] + targets(s.skip(1)),
            Step::Base(_) => targets(s.skip(1)),
            Step::Target(j) => seq![j] + targets(s.skip(1)),
        }
    }
}

/// How many steps of an alignment take both sides.
pub open spec fn matched(s: Seq<Step>) -> nat
    decreases s.len(),
{
    if s.len() == 0 {
        0
    } else if s[0] is Both {
        1 + matched(s.skip(1))
    } else {
        matched(s.skip(1))
    }
}

/// The integers from `lo` up to, not including, `hi`.
pub open spec fn range(lo: int, hi: int) -> Seq<int> {
    Seq::new(
        if hi > lo {
            (hi - lo) as nat
        } else {
            0
        },
        |k: int| lo + k,
    )
}

/// No common subsequence is longer than `lcs_len` says: if the positions `p` of
/// `a` and `q` of `b` both rise, and what stands there is the same pairwise,
/// then there are at most that many.
pub proof fn lemma_lcs_is_longest<K>(
    a: Seq<K>,
    b: Seq<K>,
    i: int,
    j: int,
    p: Seq<int>,
    q: Seq<int>,
)
    requires
        0 <= i,
        0 <= j,
        p.len() == q.len(),
        forall|k: int| 0 <= k < p.len() ==> i <= #[trigger] p[k] < a.len(),
        forall|k: int| 0 <= k < q.len() ==> j <= #[trigger] q[k] < b.len(),
        forall|k: int, l: int| 0 <= k < l < p.len() ==> (#[trigger] p[k]) < (#[trigger] p[l]),
        forall|k: int, l: int| 0 <= k < l < q.len() ==> (#[trigger] q[k]) < (#[trigger] q[l]),
        forall|k: int| 0 <= k < p.len() ==> a[#[trigger] p[k]] == b[q[k]],
    ensures
        p.len() <= lcs_len(a, b, i, j),
    decreases (a.len() - i) + (b.len() - j),
{
    if p.len() > 0 {
        assert(i <= p[0] < a.len() && j <= q[0] < b.len());
        if a[i] == b[j] {
            let p1 = p.skip(1);
            let q1 = q.skip(1);
            assert forall|k: int| 0 <= k < p1.len() implies i + 1 <= #[trigger] p1[k] < a.len()
                && a[p1[k]] == b[q1[k]] by {
                assert(p1[k] == p[k + 1] && p[0] < p[k + 1] && q1[k] == q[k + 1]);
            }
            assert forall|k: int| 0 <= k < q1.len() implies j + 1 <= #[trigger] q1[k] < b.len() by {
                assert(q1[k] == q[k + 1] && q[0] < q[k + 1]);
            }
            lemma_lcs_is_longest(a, b, i + 1, j + 1, p1, q1);
        } else if p[0] > i {
            assert forall|k: int| 0 <= k < p.len() implies i + 1 <= #[trigger] p[k] < a.len() by {
                if k > 0 {
                    assert(p[0] < p[k]);
                }
            }
            lemma_lcs_is_longest(a, b, i + 1, j, p, q);
        } else {
            assert(a[p[0]] == b[q[0]]);
            assert forall|k: int| 0 <= k < q.len() implies j + 1 <= #[trigger] q[k] < b.len() by {
                if k > 0 {
                    assert(q[0] < q[k]);
                }
            }
            lemma_lcs_is_longest(a, b, i, j + 1, p, q);
        }
    }
}

/// An alignment takes up every position of either side once, in order; what it
/// takes together is the same; and it takes together as many as any common
/// subsequence can have.
pub proof fn lemma_script<K>(a: Seq<K>, b: Seq<K>, i: int, j: int)
    requires
        0 <= i <= a.len(),
        0 <= j <= b.len(),
    ensures
        bases(script(a, b, i, j)) == range(i, a.len() as int),
        targets(script(a, b, i, j)) == range(j, b.len() as int),
        matched(script(a, b, i, j)) == lcs_len(a, b, i, j),
        script(a, b, i, j).len() + matched(script(a, b, i, j)) == (a.len() - i) + (b.len() - j),
        forall|k: int|
            0 <= k < script(a, b, i, j).len() ==> match #[trigger] script(a, b, i, j)[k] {
                Step::Both(x, y) => i <= x < a.len() && j <= y < b.len() && a[x] == b[y],
                Step::Base(x) => i <= x < a.len(),
                Step::Target(y) => j <= y < b.len(),
            },
    decreases (a.len() - i) + (b.len() - j),
{
    let s = script(a, b, i, j);
    if i >= a.len() && j >= b.len() {
        assert(range(i, a.len() as int) =~= Seq::empty());
        assert(range(j, b.len() as int) =~= Seq::empty());
    } else {
        let (i1, j1) = match s[0] {
            Step::Both(_, _) => (i + 1, j + 1),
            Step::Base(_) => (i + 1, j),
            Step::Target(_) => (i, j + 1),
        };
        lemma_script(a, b, i1, j1);
        let rest = script(a, b, i1, j1);
        assert(s.skip(1) =~= rest);
        assert(i < a.len() ==> range(i, a.len() as int) =~= seq![i] + range(
            i + 1,
            a.len() as int,
        ));
        assert(j < b.len() ==> range(j, b.len() as int) =~= seq![j] + range(
            j + 1,
            b.len() as int,
        ));
        assert forall|k: int| 0 <= k < s.len() implies match #[trigger] s[k] {
            Step::Both(x, y) => i <= x < a.len() && j <= y < b.len() && a[x] == b[y],
            Step::Base(x) => i <= x < a.len(),
            Step::Target(y) => j <= y < b.len(),
        } by {
            if k > 0 {
                assert(s[k] == rest[k - 1]);
            }
        }
    }
}

/// A sequence aligned with one that is the same throughout is matched whole.
pub proof fn lemma_script_of_same<K>(a: Seq<K>, b: Seq<K>, i: int)
    requires
        0 <= i <= a.len(),
        a.len() == b.len(),
        forall|k: int| 0 <= k < a.len() ==> #[trigger] a[k] == b[k],
    ensures
        script(a, b, i, i) == Seq::new((a.len() - i) as nat, |k: int| Step::Both(i + k, i + k)),
    decreases a.len() - i,
{
    if i < a.len() {
        lemma_script_of_same(a, b, i + 1);
        assert(a[i] == b[i]);
    }
    assert(script(a, b, i, i) =~= Seq::new(
        (a.len() - i) as nat,
        |k: int| Step::Both(i + k, i + k),
    ));
}

// ---------------------------------------------------------------------------

/// One step of an alignment.
#[derive(Clone, Copy, PartialEq, Eq, Debug, Structural)]
pub enum Edit {
    Equal { base: usize, target: usize },
    Delete { base: usize },
    Insert { target: usize },
}

impl Edit {
    /// The step as positions.
    pub open spec fn step(self) -> Step {
        match self {
            Edit::Equal { base, target } => Step::Both(base as int, target as int),
            Edit::Delete { base } => Step::Base(base as int),
            Edit::Insert { target } => Step::Target(target as int),
        }
    }
}

/// The steps of a list of edits.
pub open spec fn steps(v: Seq<Edit>) -> Seq<Step> {
    v.map_values(|e: Edit| e.step())
}

/// Row `i` of the table of `lcs_len`, from the last column to the first.
spec fn is_row<K>(a: Seq<K>, b: Seq<K>, i: int, row: Seq<usize>) -> bool {
    &&& row.len() == b.len() + 1
    &&& forall|k: int| 0 <= k <= b.len() ==> #[trigger] row[k] == lcs_len(a, b, i, b.len() - k)
}

proof fn lemma_lcs_len_bound<K>(a: Seq<K>, b: Seq<K>, i: int, j: int)
    requires
        0 <= i <= a.len(),
        0 <= j <= b.len(),
    ensures
        lcs_len(a, b, i, j) <= b.len() - j,
    decreases (a.len() - i) + (b.len() - j),
{
    if i < a.len() && j < b.len() {
        lemma_lcs_len_bound(a, b, i + 1, j + 1);
        lemma_lcs_len_bound(a, b, i + 1, j);
        lemma_lcs_len_bound(a, b, i, j + 1);
    }
}

fn row_above<T: Token>(a: &Vec<T>, b: &Vec<T>, i: usize, below: &Vec<usize>) -> (row: Vec<usize>)
    requires
        i < a@.len(),
        is_row(views(a@), views(b@), i + 1, below@),
    ensures
        is_row(views(a@), views(b@), i as int, row@),
{
    let m: usize = b.len();
    let mut row: Vec<usize> = Vec::new();
    row.push(0);
    let mut k: usize = 0;
    while k < m
        invariant
            m == b@.len(),
            k <= m,
            i < a@.len(),
            is_row(views(a@), views(b@), i + 1, below@),
            row@.len() == k + 1,
            forall|l: int|
                0 <= l <= k ==> #[trigger] row@[l] == lcs_len(views(a@), views(b@), i as int, views(b@).len() - l),
        decreases m - k,
    {
        let j: usize = m - k - 1;
        proof {
            lemma_lcs_len_bound(views(a@), views(b@), i + 1, j + 1);
            assert(below@[k as int] == lcs_len(views(a@), views(b@), i + 1, j + 1));
            assert(below@[k + 1] == lcs_len(views(a@), views(b@), i + 1, j as int));
            assert(row@[k as int] == lcs_len(views(a@), views(b@), i as int, j + 1));
        }
        let value: usize = if a[i].is_same(&b[j]) {
            below[k] + 1
        } else if below[k + 1] >= row[k] {
            below[k + 1]
        } else {
            row[k]
        };
        row.push(value);
        k = k + 1;
    }
    row
}

/// Aligns `a` with `b` along a longest common subsequence.
pub fn align<T: Token>(a: &Vec<T>, b: &Vec<T>) -> (r: Vec<Edit>)
    ensures
        steps(r@) == script(views(a@), views(b@), 0, 0),
{
    let n: usize = a.len();
    let m: usize = b.len();
    // Row `n - k` of the table stands at `k`.
    let mut table: Vec<Vec<usize>> = Vec::new();
    let mut last: Vec<usize> = Vec::new();
    let mut z: usize = 0;
    while z < m
        invariant
            n == a@.len(),
            m == b@.len(),
            z <= m,
            last@.len() == z,
            forall|k: int| 0 <= k < z ==> #[trigger] last@[k] == 0,
        decreases m - z,
    {
        last.push(0);
        z = z + 1;
    }
    last.push(0);
    assert(is_row(views(a@), views(b@), n as int, last@));
    table.push(last);
    let mut done: usize = 0;
    while done < n
        invariant
            n == a@.len(),
            done <= n,
            table@.len() == done + 1,
            forall|k: int| 0 <= k <= done ==> is_row(views(a@), views(b@), n - k, #[trigger] table@[k]@),
        decreases n - done,
    {
        let i: usize = n - done - 1;
        let row: Vec<usize> = row_above(a, b, i, &table[done]);
        table.push(row);
        done = done + 1;
    }
    let mut out: Vec<Edit> = Vec::new();
    let mut i: usize = 0;
    let mut j: usize = 0;
    assert(steps(out@) + script(views(a@), views(b@), 0, 0) =~= script(views(a@), views(b@), 0, 0));
    while i < n || j < m
        invariant
            n == a@.len(),
            m == b@.len(),
            i <= n,
            j <= m,
            table@.len() == n + 1,
            forall|k: int| 0 <= k <= n ==> is_row(views(a@), views(b@), n - k, #[trigger] table@[k]@),
            steps(out@) + script(views(a@), views(b@), i as int, j as int) == script(views(a@), views(b@), 0, 0),
        decreases (n - i) + (m - j),
    {
        let ghost before = steps(out@);
        let ghost rest = script(views(a@), views(b@), i as int, j as int);
        let edit: Edit = if i == n {
            Edit::Insert { target: j }
        } else if j == m {
            Edit::Delete { base: i }
        } else if a[i].is_same(&b[j]) {
            Edit::Equal { base: i, target: j }
        } else {
            let below: &Vec<usize> = &table[n - i - 1];
            let here: &Vec<usize> = &table[n - i];
            assert(is_row(views(a@), views(b@), i + 1, below@));
            assert(is_row(views(a@), views(b@), i as int, here@));
            assert(below@[m - j] == lcs_len(views(a@), views(b@), i + 1, j as int));
            assert(here@[m - j - 1] == lcs_len(views(a@), views(b@), i as int, j + 1));
            if below[m - j] >= here[m - j - 1] {
                Edit::Delete { base: i }
            } else {
                Edit::Insert { target: j }
            }
        };
        out.push(edit);
        assert(steps(out@) =~= before.push(edit.step()));
        match edit {
            Edit::Equal { .. } => {
                i = i + 1;
                j = j + 1;
            },
            Edit::Delete { .. } => {
                i = i + 1;
            },
            Edit::Insert { .. } => {
                j = j + 1;
            },
        }
        assert(rest == seq![edit.step()] + script(views(a@), views(b@), i as int, j as int));
        assert(steps(out@) + script(views(a@), views(b@), i as int, j as int) =~= before + rest);
    }
    assert(script(views(a@), views(b@), n as int, m as int) =~= Seq::empty());
    assert(steps(out@) + Seq::<Step>::empty() =~= steps(out@));
    out
}

} // verus!
