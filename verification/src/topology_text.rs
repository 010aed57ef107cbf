//! Texts of symbol and type records, made comparable across two databases.

use crate::number::{hex, hexadecimal};
use crate::pieces::{cat2, lemma_texts_push};
use crate::search::{begins, head_of, index_of, join, joined, position_in, replace, replaced,
    split_words, starts_with, tail_of, words};
use crate::text::{chars_of, owned, push_range, texts};
use vstd::prelude::*;
use vstd::string::StringExecFns;
use vstd::utf8::encode_utf8;

verus! {

// ---------------------------------------------------------------------------
// Type names
// ---------------------------------------------------------------------------

/// `s` from position `i` on, with the number of every type index left out.
pub open spec fn indexes_cleaned_from(s: Seq<char>, i: int) -> Seq<char>
    decreases s.len() - i,
{
    match index_of(s, "TypeIndex("@, i) {
        Some(p) => {
            let inside = p + "TypeIndex("@.len();
            let before = s.subrange(i, p) + "TypeIndex(..)"@;
            match index_of(s, ")"@, inside) {
                Some(c) => if i <= c < s.len() {
                    before + indexes_cleaned_from(s, c + 1)
                } else {
                    before
                },
                None => before,
            }
        },
        None => s.skip(i),
    }
}

/// `s` with the number of every type index left out.
pub open spec fn indexes_cleaned(s: Seq<char>) -> Seq<char> {
    indexes_cleaned_from(s, 0)
}

/// A type's name without what differs between formatters alone: numbers of types,
/// keywords before names of types, and spaces.
pub open spec fn type_normalized(s: Seq<char>) -> Seq<char> {
    let a = replaced(indexes_cleaned(s), "class "@, ""@);
    let b = replaced(a, "struct "@, ""@);
    let c = replaced(b, "enum "@, ""@);
    replaced(joined(words(c), " "@), " ,"@, ","@)
}

/// `value` with the number of every type index left out.
pub fn clean_type_indexes(value: &str) -> (r: String)
    ensures
        r@ == indexes_cleaned(value@),
{
    let v: Vec<char> = chars_of(value);
    let mark: Vec<char> = chars_of("TypeIndex(");
    let close: Vec<char> = chars_of(")");
    let n: usize = v.len();
    let ghost s = value@;
    let mut out: String = String::new();
    let mut i: usize = 0;
    proof {
        reveal_strlit(")");
    }
    assert(Seq::<char>::empty() + indexes_cleaned(s) =~= indexes_cleaned(s));
    loop
        invariant
            n == v@.len(),
            v@ == s,
            s == value@,
            mark@ == "TypeIndex("@,
            close@ == ")"@,
            ")"@.len() == 1,
            i <= n,
            out@ + indexes_cleaned_from(s, i as int) == indexes_cleaned(s),
        decreases n - i,
    {
        let ghost before = out@;
        match position_in(&v, &mark, i) {
            Some(p) => {
                push_range(&mut out, &v, i, p);
                out.append("TypeIndex(..)");
                let ghost mid = s.subrange(i as int, p as int) + "TypeIndex(..)"@;
                assert(out@ =~= before + mid);
                match position_in(&v, &close, p + mark.len()) {
                    Some(c) => {
                        assert(out@ + indexes_cleaned_from(s, c + 1) =~= before + (mid
                            + indexes_cleaned_from(s, c + 1)));
                        i = c + 1;
                    },
                    None => {
                        return out;
                    },
                }
            },
            None => {
                assert(s.subrange(i as int, n as int) =~= s.skip(i as int));
                push_range(&mut out, &v, i, n);
                return out;
            },
        }
    }
}

/// A type's name without what differs between formatters alone.
pub fn normalize_cross_pdb_type(value: &str) -> (r: String)
    ensures
        r@ == type_normalized(value@),
{
    let a: String = clean_type_indexes(value);
    let b: String = replace(a.as_str(), "class ", "");
    let c: String = replace(b.as_str(), "struct ", "");
    let d: String = replace(c.as_str(), "enum ", "");
    let e: String = join(&split_words(d.as_str()), " ");
    replace(e.as_str(), " ,", ",")
}

// ---------------------------------------------------------------------------
// Tokens
// ---------------------------------------------------------------------------

/// The texts of some string slices.
pub open spec fn strs(v: Seq<&str>) -> Seq<Seq<char>> {
    v.map_values(|s: &str| s@)
}

/// Whether `token` begins with one of `prefixes`.
pub open spec fn has_prefix_of(token: Seq<char>, prefixes: Seq<Seq<char>>) -> bool {
    exists|i: int| 0 <= i < prefixes.len() && starts_with(token, #[trigger] prefixes[i])
}

/// The first `n` tokens without those that begin with one of `prefixes`.
pub open spec fn tokens_kept(
    tokens: Seq<Seq<char>>,
    prefixes: Seq<Seq<char>>,
    n: int,
) -> Seq<Seq<char>>
    decreases n,
{
    if n <= 0 {
        Seq::empty()
    } else if has_prefix_of(tokens[n - 1], prefixes) {
        tokens_kept(tokens, prefixes, n - 1)
    } else {
        tokens_kept(tokens, prefixes, n - 1).push(tokens[n - 1])
    }
}

/// The words of `text` that begin with none of `prefixes`, a space between each two.
pub open spec fn tokens_stripped(text: Seq<char>, prefixes: Seq<Seq<char>>) -> Seq<char> {
    joined(tokens_kept(words(text), prefixes, words(text).len() as int), " "@)
}

fn begins_with_any(token: &str, prefixes: &Vec<&str>) -> (r: bool)
    ensures
        r == has_prefix_of(token@, strs(prefixes@)),
{
    let mut i: usize = 0;
    while i < prefixes.len()
        invariant
            i <= prefixes@.len(),
            forall|k: int| 0 <= k < i ==> !starts_with(token@, #[trigger] strs(prefixes@)[k]),
        decreases prefixes.len() - i,
    {
        if begins(token, prefixes[i]) {
            assert(starts_with(token@, strs(prefixes@)[i as int]));
            return true;
        }
        i = i + 1;
    }
    false
}

/// The words of `text` that begin with none of `prefixes`, a space between each two.
pub fn strip_tokens(text: &str, prefixes: &Vec<&str>) -> (r: String)
    ensures
        r@ == tokens_stripped(text@, strs(prefixes@)),
{
    let tokens: Vec<String> = split_words(text);
    let ghost w = words(text@);
    let mut kept: Vec<String> = Vec::new();
    let mut i: usize = 0;
    assert(texts(kept@) =~= Seq::empty());
    while i < tokens.len()
        invariant
            w == texts(tokens@),
            i <= tokens@.len(),
            texts(kept@) == tokens_kept(w, strs(prefixes@), i as int),
        decreases tokens.len() - i,
    {
        assert(w[i as int] == tokens@[i as int]@);
        if !begins_with_any(tokens[i].as_str(), prefixes) {
            let t: String = tokens[i].clone();
            proof {
                lemma_texts_push(kept@, t);
            }
            kept.push(t);
        }
        i = i + 1;
    }
    join(&kept, " ")
}

/// Whether `c` is a hexadecimal digit.
pub open spec fn is_hex_byte(c: u8) -> bool {
    (48 <= c <= 57) || (65 <= c <= 70) || (97 <= c <= 102)
}

/// How many hexadecimal digits stand from `i` on.
pub open spec fn hex_run(b: Seq<u8>, i: int) -> nat
    decreases b.len() - i,
{
    if 0 <= i < b.len() && is_hex_byte(b[i]) {
        1 + hex_run(b, i + 1)
    } else {
        0
    }
}

/// Whether a hexadecimal number stands at `i`.
pub open spec fn is_hex_number(b: Seq<u8>, i: int) -> bool {
    0 <= i && i + 2 < b.len() && b[i] == 48 && b[i + 1] == 120 && is_hex_byte(b[i + 2])
}

/// The bytes from `i` on with the digits of every hexadecimal number left out. A
/// byte becomes the character of its value.
pub open spec fn hex_hidden_from(b: Seq<u8>, i: int) -> Seq<char>
    decreases b.len() - i,
{
    if i < 0 || i >= b.len() {
        Seq::empty()
    } else if is_hex_number(b, i) && i + 2 + hex_run(b, i + 2) <= b.len() {
        "0x#"@ + hex_hidden_from(b, i + 2 + hex_run(b, i + 2))
    } else {
        seq![b[i] as char] + hex_hidden_from(b, i + 1)
    }
}

/// A run of digits ends with the bytes at the latest.
pub proof fn lemma_hex_run(b: Seq<u8>, i: int)
    requires
        0 <= i <= b.len(),
    ensures
        i + hex_run(b, i) <= b.len(),
    decreases b.len() - i,
{
    if i < b.len() && is_hex_byte(b[i]) {
        lemma_hex_run(b, i + 1);
    }
}

/// `text` with the digits of every hexadecimal number left out.
pub open spec fn hex_hidden(text: Seq<char>) -> Seq<char> {
    hex_hidden_from(encode_utf8(text), 0)
}

fn hex_byte(c: u8) -> (r: bool)
    ensures
        r == is_hex_byte(c),
{
    (48 <= c && c <= 57) || (65 <= c && c <= 70) || (97 <= c && c <= 102)
}

/// `text` with the digits of every hexadecimal number left out.
pub fn replace_hex_ids(text: &str) -> (r: String)
    ensures
        r@ == hex_hidden(text@),
{
    let b: &[u8] = text.as_bytes();
    let n: usize = b.len();
    let ghost s = b@;
    let mut out: String = String::new();
    let mut i: usize = 0;
    assert(Seq::<char>::empty() + hex_hidden_from(s, 0) =~= hex_hidden_from(s, 0));
    while i < n
        invariant
            s == b@,
            n == s.len(),
            i <= n,
            out@ + hex_hidden_from(s, i as int) == hex_hidden_from(s, 0),
        decreases n - i,
    {
        let ghost before = out@;
        let ghost rest = hex_hidden_from(s, i as int);
        if n - i > 2 && b[i] == 48 && b[i + 1] == 120 && hex_byte(b[i + 2]) {
            out.append("0x#");
            proof {
                lemma_hex_run(s, i + 2);
            }
            let start: usize = i + 2;
            let mut k: usize = start;
            while k < n && hex_byte(b[k])
                invariant
                    s == b@,
                    n == s.len(),
                    start <= k <= n,
                    hex_run(s, start as int) == (k - start) + hex_run(s, k as int),
                decreases n - k,
            {
                k = k + 1;
            }
            assert(out@ + hex_hidden_from(s, k as int) =~= before + ("0x#"@ + hex_hidden_from(
                s,
                k as int,
            )));
            i = k;
        } else {
            out.push(b[i] as char);
            assert(out@ + hex_hidden_from(s, i + 1) =~= before + rest);
            i = i + 1;
        }
    }
    assert(out@ + hex_hidden_from(s, n as int) =~= out@);
    out
}

/// How many spaces and `>` stand at the beginning.
pub open spec fn marker_len(s: Seq<char>) -> nat
    decreases s.len(),
{
    if s.len() > 0 && (s[0] == ' ' || s[0] == '>') {
        1 + marker_len(s.skip(1))
    } else {
        0
    }
}

/// A row without the mark before it.
pub open spec fn unmarked(s: Seq<char>) -> Seq<char> {
    s.skip(marker_len(s) as int)
}

/// A row without the mark before it.
pub fn without_mark(s: &str) -> (r: String)
    ensures
        r@ == unmarked(s@),
{
    let v: Vec<char> = chars_of(s);
    let mut n: usize = 0;
    assert(s@.skip(0) =~= s@);
    while n < v.len() && (v[n] == ' ' || v[n] == '>')
        invariant
            v@ == s@,
            n <= v@.len(),
            marker_len(s@) == n + marker_len(s@.skip(n as int)),
        decreases v.len() - n,
    {
        assert(s@.skip(n as int).skip(1) =~= s@.skip(n + 1));
        n = n + 1;
    }
    tail_of(&v, n)
}

/// `s` up to the first `sep`.
pub open spec fn up_to(s: Seq<char>, sep: Seq<char>) -> Seq<char> {
    match index_of(s, sep, 0) {
        Some(k) => s.take(k),
        None => s,
    }
}

/// `s` up to the first `sep`.
pub fn before_first(s: &str, sep: &str) -> (r: String)
    ensures
        r@ == up_to(s@, sep@),
{
    let v: Vec<char> = chars_of(s);
    match position_in(&v, &chars_of(sep), 0) {
        Some(k) => head_of(&v, k),
        None => owned(s),
    }
}

/// A number in hexadecimal with its sign.
pub open spec fn signed_number(value: i32) -> Seq<char> {
    if value < 0 {
        "-0x"@ + hex((-(value as int)) as nat)
    } else {
        "+0x"@ + hex(value as nat)
    }
}

/// A number in hexadecimal with its sign.
pub fn signed_hex(value: i32) -> (r: String)
    ensures
        r@ == signed_number(value),
{
    if value < 0 {
        cat2("-0x", hexadecimal((-(value as i64)) as u64).as_str())
    } else {
        cat2("+0x", hexadecimal(value as u64).as_str())
    }
}

/// Behind which character the last part of a module's path begins.
pub open spec fn leaf_start(name: Seq<char>, n: int) -> int
    decreases n,
{
    if n <= 0 {
        0
    } else if name[n - 1] == '\\' || name[n - 1] == '/' {
        n
    } else {
        leaf_start(name, n - 1)
    }
}

/// The last part of a module's path.
pub open spec fn leaf(name: Seq<char>) -> Seq<char> {
    name.skip(leaf_start(name, name.len() as int))
}

/// The last part of a module's path.
pub fn module_leaf(name: &str) -> (r: String)
    ensures
        r@ == leaf(name@),
{
    let v: Vec<char> = chars_of(name);
    let mut n: usize = v.len();
    while n > 0
        invariant
            v@ == name@,
            n <= v@.len(),
            leaf_start(name@, name@.len() as int) == leaf_start(name@, n as int),
        decreases n,
    {
        if v[n - 1] == '\\' || v[n - 1] == '/' {
            return tail_of(&v, n);
        }
        n = n - 1;
    }
    tail_of(&v, 0)
}

/// `true` or `false` as text.
pub open spec fn bool_text(b: bool) -> Seq<char> {
    if b {
        "true"@
    } else {
        "false"@
    }
}

/// `true` or `false` as text.
pub fn show_bool(b: bool) -> (r: &'static str)
    ensures
        r@ == bool_text(b),
{
    if b {
        "true"
    } else {
        "false"
    }
}

} // verus!
