//! Texts put together from pieces, and the width of columns of text.

use crate::text::{byte_len, len_bytes, owned, texts};
use vstd::prelude::*;
use vstd::string::StringExecFns;

verus! {

/// The given 2 pieces, one behind the other.
pub fn cat2(a: &str, b: &str) -> (r: String)
    ensures
        r@ == a@ + b@,
{
    let mut r: String = owned(a);
    r.append(b);
    r
}

/// The given 3 pieces, one behind the other.
pub fn cat3(a: &str, b: &str, c: &str) -> (r: String)
    ensures
        r@ == a@ + b@ + c@,
{
    let mut r: String = owned(a);
    r.append(b);
    r.append(c);
    r
}

/// The given 4 pieces, one behind the other.
pub fn cat4(a: &str, b: &str, c: &str, d: &str) -> (r: String)
    ensures
        r@ == a@ + b@ + c@ + d@,
{
    let mut r: String = owned(a);
    r.append(b);
    r.append(c);
    r.append(d);
    r
}

/// The given 5 pieces, one behind the other.
pub fn cat5(a: &str, b: &str, c: &str, d: &str, e: &str) -> (r: String)
    ensures
        r@ == a@ + b@ + c@ + d@ + e@,
{
    let mut r: String = owned(a);
    r.append(b);
    r.append(c);
    r.append(d);
    r.append(e);
    r
}

/// The given 6 pieces, one behind the other.
pub fn cat6(a: &str, b: &str, c: &str, d: &str, e: &str, f: &str) -> (r: String)
    ensures
        r@ == a@ + b@ + c@ + d@ + e@ + f@,
{
    let mut r: String = owned(a);
    r.append(b);
    r.append(c);
    r.append(d);
    r.append(e);
    r.append(f);
    r
}

/// The given 7 pieces, one behind the other.
pub fn cat7(a: &str, b: &str, c: &str, d: &str, e: &str, f: &str, g: &str) -> (r: String)
    ensures
        r@ == a@ + b@ + c@ + d@ + e@ + f@ + g@,
{
    let mut r: String = owned(a);
    r.append(b);
    r.append(c);
    r.append(d);
    r.append(e);
    r.append(f);
    r.append(g);
    r
}

/// The given 8 pieces, one behind the other.
pub fn cat8(a: &str, b: &str, c: &str, d: &str, e: &str, f: &str, g: &str, h: &str) -> (r: String)
    ensures
        r@ == a@ + b@ + c@ + d@ + e@ + f@ + g@ + h@,
{
    let mut r: String = owned(a);
    r.append(b);
    r.append(c);
    r.append(d);
    r.append(e);
    r.append(f);
    r.append(g);
    r.append(h);
    r
}

/// The given 9 pieces, one behind the other.
pub fn cat9(a: &str, b: &str, c: &str, d: &str, e: &str, f: &str, g: &str, h: &str, i: &str) -> (r: String)
    ensures
        r@ == a@ + b@ + c@ + d@ + e@ + f@ + g@ + h@ + i@,
{
    let mut r: String = owned(a);
    r.append(b);
    r.append(c);
    r.append(d);
    r.append(e);
    r.append(f);
    r.append(g);
    r.append(h);
    r.append(i);
    r
}

/// The given 10 pieces, one behind the other.
pub fn cat10(a: &str, b: &str, c: &str, d: &str, e: &str, f: &str, g: &str, h: &str, i: &str, j: &str) -> (r: String)
    ensures
        r@ == a@ + b@ + c@ + d@ + e@ + f@ + g@ + h@ + i@ + j@,
{
    let mut r: String = owned(a);
    r.append(b);
    r.append(c);
    r.append(d);
    r.append(e);
    r.append(f);
    r.append(g);
    r.append(h);
    r.append(i);
    r.append(j);
    r
}

/// The given 11 pieces, one behind the other.
pub fn cat11(a: &str, b: &str, c: &str, d: &str, e: &str, f: &str, g: &str, h: &str, i: &str, j: &str, k: &str) -> (r: String)
    ensures
        r@ == a@ + b@ + c@ + d@ + e@ + f@ + g@ + h@ + i@ + j@ + k@,
{
    let mut r: String = owned(a);
    r.append(b);
    r.append(c);
    r.append(d);
    r.append(e);
    r.append(f);
    r.append(g);
    r.append(h);
    r.append(i);
    r.append(j);
    r.append(k);
    r
}

/// The given 12 pieces, one behind the other.
pub fn cat12(a: &str, b: &str, c: &str, d: &str, e: &str, f: &str, g: &str, h: &str, i: &str, j: &str, k: &str, l: &str) -> (r: String)
    ensures
        r@ == a@ + b@ + c@ + d@ + e@ + f@ + g@ + h@ + i@ + j@ + k@ + l@,
{
    let mut r: String = owned(a);
    r.append(b);
    r.append(c);
    r.append(d);
    r.append(e);
    r.append(f);
    r.append(g);
    r.append(h);
    r.append(i);
    r.append(j);
    r.append(k);
    r.append(l);
    r
}

/// The given 13 pieces, one behind the other.
pub fn cat13(a: &str, b: &str, c: &str, d: &str, e: &str, f: &str, g: &str, h: &str, i: &str, j: &str, k: &str, l: &str, m: &str) -> (r: String)
    ensures
        r@ == a@ + b@ + c@ + d@ + e@ + f@ + g@ + h@ + i@ + j@ + k@ + l@ + m@,
{
    let mut r: String = owned(a);
    r.append(b);
    r.append(c);
    r.append(d);
    r.append(e);
    r.append(f);
    r.append(g);
    r.append(h);
    r.append(i);
    r.append(j);
    r.append(k);
    r.append(l);
    r.append(m);
    r
}

/// The given 14 pieces, one behind the other.
pub fn cat14(a: &str, b: &str, c: &str, d: &str, e: &str, f: &str, g: &str, h: &str, i: &str, j: &str, k: &str, l: &str, m: &str, n: &str) -> (r: String)
    ensures
        r@ == a@ + b@ + c@ + d@ + e@ + f@ + g@ + h@ + i@ + j@ + k@ + l@ + m@ + n@,
{
    let mut r: String = owned(a);
    r.append(b);
    r.append(c);
    r.append(d);
    r.append(e);
    r.append(f);
    r.append(g);
    r.append(h);
    r.append(i);
    r.append(j);
    r.append(k);
    r.append(l);
    r.append(m);
    r.append(n);
    r
}

/// The given 16 pieces, one behind the other.
pub fn cat16(a: &str, b: &str, c: &str, d: &str, e: &str, f: &str, g: &str, h: &str, i: &str, j: &str, k: &str, l: &str, m: &str, n: &str, o: &str, p: &str) -> (r: String)
    ensures
        r@ == a@ + b@ + c@ + d@ + e@ + f@ + g@ + h@ + i@ + j@ + k@ + l@ + m@ + n@ + o@ + p@,
{
    let mut r: String = owned(a);
    r.append(b);
    r.append(c);
    r.append(d);
    r.append(e);
    r.append(f);
    r.append(g);
    r.append(h);
    r.append(i);
    r.append(j);
    r.append(k);
    r.append(l);
    r.append(m);
    r.append(n);
    r.append(o);
    r.append(p);
    r
}

/// The largest byte length among `cells`, and at least `least`.
pub open spec fn widest(cells: Seq<Seq<char>>, least: int) -> int
    decreases cells.len(),
{
    if cells.len() == 0 {
        least
    } else {
        let rest = widest(cells.drop_last(), least);
        let here = byte_len(cells.last()) as int;
        if here > rest {
            here
        } else {
            rest
        }
    }
}

/// The widest cell is no narrower than any cell, nor than the given least.
pub proof fn lemma_widest(cells: Seq<Seq<char>>, least: int)
    ensures
        widest(cells, least) >= least,
        forall|i: int|
            0 <= i < cells.len() ==> widest(cells, least) >= byte_len(#[trigger] cells[i]),
        widest(cells, least) == least || exists|i: int|
            0 <= i < cells.len() && widest(cells, least) == byte_len(#[trigger] cells[i]),
    decreases cells.len(),
{
    if cells.len() > 0 {
        let init = cells.drop_last();
        lemma_widest(init, least);
        assert forall|i: int| 0 <= i < cells.len() implies widest(cells, least) >= byte_len(
            #[trigger] cells[i],
        ) by {
            if i < init.len() {
                assert(init[i] == cells[i]);
            }
        }
        if widest(cells, least) == widest(init, least) && widest(init, least) != least {
            let i = choose|i: int|
                0 <= i < init.len() && widest(init, least) == byte_len(#[trigger] init[i]);
            assert(cells[i] == init[i]);
        }
    }
}

/// The largest byte length among `cells`, and at least `least`.
pub fn widest_of(cells: &Vec<String>, least: usize) -> (w: usize)
    ensures
        w == widest(texts(cells@), least as int),
{
    let mut w: usize = least;
    let mut i: usize = 0;
    while i < cells.len()
        invariant
            i <= cells@.len(),
            w == widest(texts(cells@).take(i as int), least as int),
        decreases cells.len() - i,
    {
        let n: usize = len_bytes(cells[i].as_str());
        assert(texts(cells@).take(i + 1).drop_last() =~= texts(cells@).take(i as int));
        if n > w {
            w = n;
        }
        i = i + 1;
    }
    assert(texts(cells@).take(cells@.len() as int) =~= texts(cells@));
    w
}

/// Pushing a string onto a list pushes its text onto the list of texts.
pub proof fn lemma_texts_push(v: Seq<String>, s: String)
    ensures
        texts(v.push(s)) == texts(v).push(s@),
{
    assert(texts(v.push(s)) =~= texts(v).push(s@));
}

} // verus!
