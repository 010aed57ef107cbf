//! Finding, replacing, splitting and trimming in texts.

use crate::text::{ascii_lower, chars_of, is_white_space, lower_ascii, owned, push_range,
    same_ignoring_ascii_case, text_of, texts, white_space};
use vstd::prelude::*;
use vstd::string::StringExecFns;

verus! {

/// Whether `p` stands in `s` at position `i`.
pub open spec fn matches_at(s: Seq<char>, p: Seq<char>, i: int) -> bool {
    0 <= i && i + p.len() <= s.len() && s.subrange(i, i + p.len()) == p
}

/// The first position, from `from` on, at which `p` stands in `s`.
pub open spec fn index_of(s: Seq<char>, p: Seq<char>, from: int) -> Option<int>
    decreases s.len() - from + 1,
{
    if from < 0 || from + p.len() > s.len() {
        None
    } else if matches_at(s, p, from) {
        Some(from)
    } else {
        index_of(s, p, from + 1)
    }
}

/// Whether `p` stands somewhere in `s`.
pub open spec fn contains(s: Seq<char>, p: Seq<char>) -> bool {
    exists|i: int| matches_at(s, p, i)
}

/// Whether `s` begins with `p`.
pub open spec fn starts_with(s: Seq<char>, p: Seq<char>) -> bool {
    p.len() <= s.len() && s.take(p.len() as int) == p
}

/// Whether `s` ends with `p`.
pub open spec fn ends_with(s: Seq<char>, p: Seq<char>) -> bool {
    p.len() <= s.len() && s.skip(s.len() - p.len()) == p
}

/// `s` from position `i` on, with each occurrence of `from`, taken from the
/// left and without overlap, exchanged for `to`.
pub open spec fn replaced_from(s: Seq<char>, from: Seq<char>, to: Seq<char>, i: int) -> Seq<char>
    decreases s.len() - i,
{
    match index_of(s, from, i) {
        Some(k) => if from.len() == 0 || k < i || k + from.len() > s.len() {
            s.skip(i)
        } else {
            s.subrange(i, k) + to + replaced_from(s, from, to, k + from.len())
        },
        None => s.skip(i),
    }
}

/// `s` with every occurrence of `from` exchanged for `to`.
pub open spec fn replaced(s: Seq<char>, from: Seq<char>, to: Seq<char>) -> Seq<char> {
    replaced_from(s, from, to, 0)
}

/// The pieces of `s`, from position `i` on, between occurrences of `sep`.
pub open spec fn pieces_from(s: Seq<char>, sep: Seq<char>, i: int) -> Seq<Seq<char>>
    decreases s.len() - i,
{
    match index_of(s, sep, i) {
        Some(k) => if sep.len() == 0 || k < i || k + sep.len() > s.len() {
            seq![s.skip(i)]
        } else {
            seq![s.subrange(i, k)] + pieces_from(s, sep, k + sep.len())
        },
        None => seq![s.skip(i)],
    }
}

/// The pieces of `s` between occurrences of `sep`.
pub open spec fn pieces(s: Seq<char>, sep: Seq<char>) -> Seq<Seq<char>> {
    pieces_from(s, sep, 0)
}

/// The first occurrence is one, and nothing before it is.
pub proof fn lemma_index_of(s: Seq<char>, p: Seq<char>, from: int)
    requires
        0 <= from,
    ensures
        match index_of(s, p, from) {
            Some(k) => from <= k && matches_at(s, p, k) && forall|i: int|
                from <= i < k ==> !matches_at(s, p, i),
            None => forall|i: int| from <= i ==> !matches_at(s, p, i),
        },
    decreases s.len() - from + 1,
{
    if from + p.len() <= s.len() && !matches_at(s, p, from) {
        lemma_index_of(s, p, from + 1);
    }
}

/// A text is found exactly where it is contained.
pub proof fn lemma_contains(s: Seq<char>, p: Seq<char>)
    ensures
        contains(s, p) == (index_of(s, p, 0) is Some),
{
    lemma_index_of(s, p, 0);
    if contains(s, p) {
        let i = choose|i: int| matches_at(s, p, i);
        assert(matches_at(s, p, i));
    }
}

// ---------------------------------------------------------------------------

/// Whether the characters of `p` stand in `s` at `i`.
pub fn is_at(s: &Vec<char>, p: &Vec<char>, i: usize) -> (b: bool)
    ensures
        b == matches_at(s@, p@, i as int),
{
    if p.len() > s.len() || i > s.len() - p.len() {
        return false;
    }
    let n: usize = s.len();
    let mut k: usize = 0;
    while k < p.len()
        invariant
            k <= p@.len(),
            n == s@.len(),
            i + p@.len() <= n,
            forall|j: int| 0 <= j < k ==> s@[i + j] == p@[j],
        decreases p.len() - k,
    {
        if s[i + k] != p[k] {
            assert(s@.subrange(i as int, i + p@.len())[k as int] == s@[i + k]);
            return false;
        }
        k = k + 1;
    }
    assert(s@.subrange(i as int, i + p@.len()) =~= p@);
    true
}

/// The first position from `from` on at which `p` stands in `s`.
pub fn position_in(s: &Vec<char>, p: &Vec<char>, from: usize) -> (r: Option<usize>)
    ensures
        match r {
            Some(k) => index_of(s@, p@, from as int) == Some(k as int) && from <= k && matches_at(
                s@,
                p@,
                k as int,
            ),
            None => index_of(s@, p@, from as int) is None,
        },
{
    let mut i: usize = from;
    loop
        invariant
            from <= i,
            index_of(s@, p@, from as int) == index_of(s@, p@, i as int),
        decreases s@.len() - i + 1,
    {
        if p.len() > s.len() || i > s.len() - p.len() {
            return None;
        }
        if is_at(s, p, i) {
            return Some(i);
        }
        if i == usize::MAX {
            return None;
        }
        i = i + 1;
    }
}

/// The first position at which `p` stands in `s`, in characters.
pub fn find(s: &str, p: &str) -> (r: Option<usize>)
    ensures
        match r {
            Some(k) => index_of(s@, p@, 0) == Some(k as int) && matches_at(s@, p@, k as int),
            None => index_of(s@, p@, 0) is None,
        },
{
    position_in(&chars_of(s), &chars_of(p), 0)
}

/// Whether `p` stands somewhere in `s`.
pub fn has_part(s: &str, p: &str) -> (b: bool)
    ensures
        b == contains(s@, p@),
{
    proof {
        lemma_contains(s@, p@);
    }
    find(s, p).is_some()
}

/// Whether `s` begins with `p`.
pub fn begins(s: &str, p: &str) -> (b: bool)
    ensures
        b == starts_with(s@, p@),
{
    assert(s@.subrange(0, p@.len() as int) == s@.take(p@.len() as int));
    is_at(&chars_of(s), &chars_of(p), 0)
}

/// Whether `s` ends with `p`.
pub fn ends(s: &str, p: &str) -> (b: bool)
    ensures
        b == ends_with(s@, p@),
{
    let sv: Vec<char> = chars_of(s);
    let pv: Vec<char> = chars_of(p);
    if pv.len() > sv.len() {
        return false;
    }
    assert(s@.subrange(s@.len() - p@.len(), s@.len() as int) =~= s@.skip(s@.len() - p@.len()));
    is_at(&sv, &pv, sv.len() - pv.len())
}

/// What follows `p` at the beginning of `s`.
pub open spec fn without_prefix(s: Seq<char>, p: Seq<char>) -> Option<Seq<char>> {
    if starts_with(s, p) {
        Some(s.skip(p.len() as int))
    } else {
        None
    }
}

/// What stands before `p` at the end of `s`.
pub open spec fn without_suffix(s: Seq<char>, p: Seq<char>) -> Option<Seq<char>> {
    if ends_with(s, p) {
        Some(s.take(s.len() - p.len()))
    } else {
        None
    }
}

/// The view of an optional text.
pub open spec fn opt_text(s: Option<String>) -> Option<Seq<char>> {
    match s {
        Some(t) => Some(t@),
        None => None,
    }
}

/// The characters from `lo` on.
pub fn tail_of(v: &Vec<char>, lo: usize) -> (r: String)
    requires
        lo <= v@.len(),
    ensures
        r@ == v@.skip(lo as int),
{
    assert(v@.subrange(lo as int, v@.len() as int) =~= v@.skip(lo as int));
    text_of(v, lo, v.len())
}

/// The characters before `hi`.
pub fn head_of(v: &Vec<char>, hi: usize) -> (r: String)
    requires
        hi <= v@.len(),
    ensures
        r@ == v@.take(hi as int),
{
    assert(v@.subrange(0, hi as int) =~= v@.take(hi as int));
    text_of(v, 0, hi)
}

/// What follows `p` at the beginning of `s`.
pub fn strip_front(s: &str, p: &str) -> (r: Option<String>)
    ensures
        opt_text(r) == without_prefix(s@, p@),
{
    if begins(s, p) {
        let v: Vec<char> = chars_of(s);
        let n: usize = chars_of(p).len();
        Some(tail_of(&v, n))
    } else {
        None
    }
}

/// What stands before `p` at the end of `s`.
pub fn strip_back(s: &str, p: &str) -> (r: Option<String>)
    ensures
        opt_text(r) == without_suffix(s@, p@),
{
    if ends(s, p) {
        let v: Vec<char> = chars_of(s);
        let n: usize = chars_of(p).len();
        Some(head_of(&v, v.len() - n))
    } else {
        None
    }
}

/// `s` with every occurrence of `from` exchanged for `to`. Nothing is exchanged
/// where `from` is empty.
pub fn replace(s: &str, from: &str, to: &str) -> (r: String)
    ensures
        r@ == replaced(s@, from@, to@),
{
    let sv: Vec<char> = chars_of(s);
    let fv: Vec<char> = chars_of(from);
    if fv.len() == 0 {
        assert(s@.skip(0) =~= s@);
        return owned(s);
    }
    let mut out: String = String::new();
    let mut i: usize = 0;
    let len: usize = sv.len();
    assert(Seq::<char>::empty() + replaced(s@, from@, to@) =~= replaced(s@, from@, to@));
    loop
        invariant
            sv@ == s@,
            fv@ == from@,
            from@.len() > 0,
            i <= s@.len() == len,
            out@ + replaced_from(s@, from@, to@, i as int) == replaced(s@, from@, to@),
        decreases s@.len() - i,
    {
        match position_in(&sv, &fv, i) {
            Some(k) => {
                let ghost before = out@;
                push_range(&mut out, &sv, i, k);
                out.append(to);
                assert(out@ + replaced_from(s@, from@, to@, k + from@.len()) =~= before + (
                s@.subrange(i as int, k as int) + to@ + replaced_from(
                    s@,
                    from@,
                    to@,
                    k + from@.len(),
                )));
                i = k + fv.len();
            },
            None => {
                let n: usize = sv.len();
                assert(s@.subrange(i as int, n as int) =~= s@.skip(i as int));
                push_range(&mut out, &sv, i, n);
                return out;
            },
        }
    }
}

/// The pieces of `s` between occurrences of `sep`: `s` itself where that is empty.
pub fn split(s: &str, sep: &str) -> (r: Vec<String>)
    ensures
        texts(r@) == pieces(s@, sep@),
        r@.len() > 0,
{
    let sv: Vec<char> = chars_of(s);
    let fv: Vec<char> = chars_of(sep);
    let mut out: Vec<String> = Vec::new();
    if fv.len() == 0 {
        out.push(owned(s));
        assert(s@.skip(0) =~= s@);
        assert(texts(out@) =~= seq![s@.skip(0)]);
        return out;
    }
    let mut i: usize = 0;
    let len: usize = sv.len();
    assert(texts(out@) + pieces(s@, sep@) =~= pieces(s@, sep@));
    loop
        invariant
            sv@ == s@,
            fv@ == sep@,
            sep@.len() > 0,
            i <= s@.len() == len,
            texts(out@) + pieces_from(s@, sep@, i as int) == pieces(s@, sep@),
        decreases s@.len() - i,
    {
        let ghost before = texts(out@);
        match position_in(&sv, &fv, i) {
            Some(k) => {
                out.push(text_of(&sv, i, k));
                assert(texts(out@) =~= before.push(s@.subrange(i as int, k as int)));
                assert(texts(out@) + pieces_from(s@, sep@, k + sep@.len()) =~= before + (seq![
                    s@.subrange(i as int, k as int),
                ] + pieces_from(s@, sep@, k + sep@.len())));
                i = k + fv.len();
            },
            None => {
                out.push(tail_of(&sv, i));
                assert(texts(out@) =~= before + seq![s@.skip(i as int)]);
                return out;
            },
        }
    }
}

// ---------------------------------------------------------------------------
// Joining
// ---------------------------------------------------------------------------

/// The first `n` parts with `sep` between each two.
pub open spec fn joined_upto(parts: Seq<Seq<char>>, sep: Seq<char>, n: int) -> Seq<char>
    decreases n,
{
    if n <= 0 {
        Seq::empty()
    } else if n == 1 {
        parts[0]
    } else {
        joined_upto(parts, sep, n - 1) + sep + parts[n - 1]
    }
}

/// The parts with `sep` between each two.
pub open spec fn joined(parts: Seq<Seq<char>>, sep: Seq<char>) -> Seq<char> {
    joined_upto(parts, sep, parts.len() as int)
}

/// The parts with `sep` between each two.
pub fn join(parts: &Vec<String>, sep: &str) -> (r: String)
    ensures
        r@ == joined(texts(parts@), sep@),
{
    let mut out: String = String::new();
    let mut i: usize = 0;
    while i < parts.len()
        invariant
            i <= parts@.len(),
            out@ == joined_upto(texts(parts@), sep@, i as int),
        decreases parts.len() - i,
    {
        if i > 0 {
            out.append(sep);
        }
        out.append(parts[i].as_str());
        assert(Seq::<char>::empty() + parts@[i as int]@ =~= parts@[i as int]@);
        i = i + 1;
    }
    out
}

// ---------------------------------------------------------------------------
// Trimming and words
// ---------------------------------------------------------------------------

/// How many characters are left when white space at the end of `s` is dropped.
pub open spec fn trimmed_len(s: Seq<char>) -> nat
    decreases s.len(),
{
    if s.len() > 0 && white_space(s.last()) {
        trimmed_len(s.drop_last())
    } else {
        s.len()
    }
}

/// How many white-space characters stand at the beginning of `s`.
pub open spec fn leading_space(s: Seq<char>) -> nat
    decreases s.len(),
{
    if s.len() > 0 && white_space(s[0]) {
        1 + leading_space(s.skip(1))
    } else {
        0
    }
}

/// `s` without the white space at its end.
pub open spec fn trimmed_end(s: Seq<char>) -> Seq<char> {
    s.take(trimmed_len(s) as int)
}

/// `s` without the white space at its beginning.
pub open spec fn trimmed_start(s: Seq<char>) -> Seq<char> {
    s.skip(leading_space(s) as int)
}

/// `s` without the white space at either end.
pub open spec fn trimmed(s: Seq<char>) -> Seq<char> {
    trimmed_end(trimmed_start(s))
}

/// `s` without the white space at its end.
pub fn trim_end(s: &str) -> (r: String)
    ensures
        r@ == trimmed_end(s@),
{
    let v: Vec<char> = chars_of(s);
    let mut n: usize = v.len();
    assert(s@.take(n as int) =~= s@);
    while n > 0 && is_white_space(v[n - 1])
        invariant
            n <= v@.len(),
            v@ == s@,
            trimmed_len(s@) == trimmed_len(s@.take(n as int)),
        decreases n,
    {
        assert(s@.take(n as int).drop_last() =~= s@.take(n - 1));
        n = n - 1;
    }
    head_of(&v, n)
}

/// `s` without the white space at its beginning.
pub fn trim_start(s: &str) -> (r: String)
    ensures
        r@ == trimmed_start(s@),
{
    let v: Vec<char> = chars_of(s);
    let mut n: usize = 0;
    assert(s@.skip(0) =~= s@);
    while n < v.len() && is_white_space(v[n])
        invariant
            n <= v@.len(),
            v@ == s@,
            leading_space(s@) == n + leading_space(s@.skip(n as int)),
        decreases v.len() - n,
    {
        assert(s@.skip(n as int).skip(1) =~= s@.skip(n + 1));
        n = n + 1;
    }
    tail_of(&v, n)
}

/// `s` without the white space at either end.
pub fn trim(s: &str) -> (r: String)
    ensures
        r@ == trimmed(s@),
{
    let t: String = trim_start(s);
    trim_end(t.as_str())
}

/// The maximal runs of characters that are not white space, in the first `n`
/// characters of `s`. A run that reaches position `n` is kept apart.
pub open spec fn words_upto(s: Seq<char>, n: int) -> (Seq<Seq<char>>, Seq<char>)
    decreases n,
{
    if n <= 0 {
        (Seq::empty(), Seq::empty())
    } else {
        let (done, run) = words_upto(s, n - 1);
        if white_space(s[n - 1]) {
            (with_run(done, run), Seq::empty())
        } else {
            (done, run.push(s[n - 1]))
        }
    }
}

/// A list of words and one more, unless that one is empty.
pub open spec fn with_run(done: Seq<Seq<char>>, run: Seq<char>) -> Seq<Seq<char>> {
    if run.len() == 0 {
        done
    } else {
        done.push(run)
    }
}

/// The maximal runs of characters of `s` that are not white space.
pub open spec fn words(s: Seq<char>) -> Seq<Seq<char>> {
    let (done, run) = words_upto(s, s.len() as int);
    with_run(done, run)
}

/// The maximal runs of characters of `s` that are not white space.
pub fn split_words(s: &str) -> (r: Vec<String>)
    ensures
        texts(r@) == words(s@),
{
    let v: Vec<char> = chars_of(s);
    let mut out: Vec<String> = Vec::new();
    let mut run: String = String::new();
    let mut i: usize = 0;
    assert(texts(out@) =~= Seq::empty());
    while i < v.len()
        invariant
            i <= v@.len(),
            v@ == s@,
            words_upto(s@, i as int) == (texts(out@), run@),
        decreases v.len() - i,
    {
        if is_white_space(v[i]) {
            let ghost before = texts(out@);
            if !run.as_str().is_empty() {
                let ghost w = run@;
                out.push(run);
                assert(texts(out@) =~= before.push(w));
            }
            run = String::new();
        } else {
            run.push(v[i]);
        }
        i = i + 1;
    }
    let ghost before = texts(out@);
    if !run.as_str().is_empty() {
        let ghost w = run@;
        out.push(run);
        assert(texts(out@) =~= before.push(w));
    }
    out
}

// ---------------------------------------------------------------------------
// Case
// ---------------------------------------------------------------------------

/// Whether two texts differ at most in the case of ASCII letters.
pub fn equal_ignoring_ascii_case(a: &str, b: &str) -> (r: bool)
    ensures
        r == same_ignoring_ascii_case(a@, b@),
{
    let x: Vec<char> = chars_of(a);
    let y: Vec<char> = chars_of(b);
    if x.len() != y.len() {
        return false;
    }
    let mut i: usize = 0;
    while i < x.len()
        invariant
            x@ == a@,
            y@ == b@,
            x@.len() == y@.len(),
            i <= x@.len(),
            forall|k: int| 0 <= k < i ==> ascii_lower(#[trigger] a@[k]) == ascii_lower(b@[k]),
        decreases x.len() - i,
    {
        if lower_ascii(x[i]) != lower_ascii(y[i]) {
            assert(ascii_lower(a@[i as int]) != ascii_lower(b@[i as int]));
            return false;
        }
        i = i + 1;
    }
    true
}

} // verus!
