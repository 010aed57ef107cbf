//! Parts of texts.

use vstd::prelude::*;

verus! {

/// A part with what stands before it and behind it.
pub open spec fn around(before: Seq<char>, part: Seq<char>, behind: Seq<char>) -> Seq<char> {
    before + part + behind
}

/// Whether a text holds a part.
pub open spec fn holds(s: Seq<char>, part: Seq<char>) -> bool {
    exists|before: Seq<char>, behind: Seq<char>| s == #[trigger] around(before, part, behind)
}

/// Whether a text is made of one character.
pub open spec fn only(s: Seq<char>, c: char) -> bool {
    forall|i: int| 0 <= i < s.len() ==> #[trigger] s[i] == c
}

/// Whether a text does not have a character.
pub open spec fn lacks(s: Seq<char>, c: char) -> bool {
    forall|i: int| 0 <= i < s.len() ==> #[trigger] s[i] != c
}

/// The first `n` of some parts, one behind the other.
pub open spec fn cat_upto(parts: Seq<Seq<char>>, n: int) -> Seq<char>
    decreases n,
{
    if n <= 1 {
        parts[0]
    } else {
        cat_upto(parts, n - 1) + parts[n - 1]
    }
}

/// A text holds itself.
pub proof fn lemma_holds_itself(s: Seq<char>)
    ensures
        holds(s, s),
{
    assert(s =~= around(Seq::empty(), s, Seq::empty()));
}

/// What a part of a text holds, the text holds.
pub proof fn lemma_holds_within(x: Seq<char>, s: Seq<char>, y: Seq<char>, part: Seq<char>)
    requires
        holds(s, part),
    ensures
        holds(x + s + y, part),
        holds(x + s, part),
        holds(s + y, part),
{
    let (a, c) = choose|a: Seq<char>, c: Seq<char>| s == #[trigger] around(a, part, c);
    assert(x + s + y =~= around(x + a, part, c + y));
    assert(x + s =~= around(x + a, part, c));
    assert(s + y =~= around(a, part, c + y));
}

/// A text holds each of its three pieces.
pub proof fn lemma_holds_piece(x: Seq<char>, s: Seq<char>, y: Seq<char>)
    ensures
        holds(x + s + y, s),
        holds(x + s, s),
        holds(s + y, s),
{
    lemma_holds_itself(s);
    lemma_holds_within(x, s, y, s);
}

/// What holds two parts together holds each of them.
pub proof fn lemma_holds_both(s: Seq<char>, x: Seq<char>, y: Seq<char>)
    requires
        holds(s, x + y),
    ensures
        holds(s, x),
        holds(s, y),
{
    let (a, c) = choose|a: Seq<char>, c: Seq<char>| s == #[trigger] around(a, x + y, c);
    assert(s =~= around(a, x, y + c));
    assert(s =~= around(a + x, y, c));
}

/// A text holds what a part that it holds does.
pub proof fn lemma_holds_through(s: Seq<char>, x: Seq<char>, part: Seq<char>)
    requires
        holds(s, x),
        holds(x, part),
    ensures
        holds(s, part),
{
    let (a, c) = choose|a: Seq<char>, c: Seq<char>| s == #[trigger] around(a, x, c);
    lemma_holds_within(a, x, c, part);
}

/// Parts one behind the other hold each two that stand together.
pub proof fn lemma_holds_pair(parts: Seq<Seq<char>>, n: int, i: int)
    requires
        0 <= i < n - 1,
        n <= parts.len(),
    ensures
        holds(cat_upto(parts, n), parts[i] + parts[i + 1]),
    decreases n,
{
    let pair = parts[i] + parts[i + 1];
    let before = cat_upto(parts, n - 1);
    if i == n - 2 {
        lemma_holds_itself(pair);
        if n == 2 {
            assert(cat_upto(parts, n) == pair);
        } else {
            assert(cat_upto(parts, n) =~= cat_upto(parts, n - 2) + pair);
            lemma_holds_within(cat_upto(parts, n - 2), pair, Seq::empty(), pair);
        }
    } else {
        lemma_holds_pair(parts, n - 1, i);
        lemma_holds_within(Seq::empty(), before, parts[n - 1], pair);
    }
}

} // verus!
