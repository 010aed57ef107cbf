//! The command lines of compilers, taken apart and put into a comparable form.

use crate::lcs::views;
use crate::order::{rank_of, sort_stable, sorted_by, text_le};
use crate::pieces::{cat3, lemma_texts_push};
use crate::search::{begins, contains, ends, ends_with, equal_ignoring_ascii_case, find, has_part,
    head_of, index_of, join, joined, lemma_index_of, opt_text, pieces, replace, replaced, split,
    starts_with, tail_of};
use crate::text::{chars_of, is_white_space, lowercase, owned, same_ignoring_ascii_case, texts,
    to_lowercase, white_space};
use vstd::prelude::*;

verus! {

// ---------------------------------------------------------------------------
// Tokens
// ---------------------------------------------------------------------------

/// What was read of a command line: the tokens, the one that is being read, and whether a
/// quote is open.
pub struct Tokens {
    pub done: Seq<Seq<char>>,
    pub current: Seq<char>,
    pub quoted: bool,
}

/// What was read of the first `n` characters.
pub open spec fn tokens_upto(s: Seq<char>, n: int) -> Tokens
    decreases n,
{
    if n <= 0 {
        Tokens { done: Seq::empty(), current: Seq::empty(), quoted: false }
    } else {
        let t = tokens_upto(s, n - 1);
        let c = s[n - 1];
        if c == '"' {
            Tokens { current: t.current.push(c), quoted: !t.quoted, ..t }
        } else if white_space(c) && !t.quoted {
            if t.current.len() > 0 {
                Tokens { done: t.done.push(t.current), current: Seq::empty(), ..t }
            } else {
                t
            }
        } else {
            Tokens { current: t.current.push(c), ..t }
        }
    }
}

/// The tokens of a command line: what stands between spaces that are not in quotes.
pub open spec fn tokens(s: Seq<char>) -> Seq<Seq<char>> {
    let t = tokens_upto(s, s.len() as int);
    if t.current.len() > 0 {
        t.done.push(t.current)
    } else {
        t.done
    }
}

/// The tokens of a command line.
pub fn tokenize(s: &str) -> (r: Vec<String>)
    ensures
        texts(r@) == tokens(s@),
{
    let v: Vec<char> = chars_of(s);
    let n: usize = v.len();
    let mut out: Vec<String> = Vec::new();
    let mut current: String = String::new();
    let mut some: bool = false;
    let mut quoted: bool = false;
    let mut i: usize = 0;
    assert(texts(out@) =~= Seq::<Seq<char>>::empty());
    while i < n
        invariant
            v@ == s@,
            n == v@.len(),
            i <= n,
            some == (current@.len() > 0),
            tokens_upto(s@, i as int) == (Tokens {
                done: texts(out@),
                current: current@,
                quoted,
            }),
        decreases n - i,
    {
        let c: char = v[i];
        if c == '"' {
            quoted = !quoted;
            current.push(c);
            some = true;
        } else if is_white_space(c) && !quoted {
            if some {
                let mut word: String = String::new();
                std::mem::swap(&mut word, &mut current);
                proof {
                    lemma_texts_push(out@, word);
                }
                out.push(word);
                some = false;
            }
        } else {
            current.push(c);
            some = true;
        }
        i = i + 1;
    }
    if some {
        proof {
            lemma_texts_push(out@, current);
        }
        out.push(current);
    }
    out
}

// ---------------------------------------------------------------------------
// Flags
// ---------------------------------------------------------------------------

/// Whether a flag, in small letters, names a file that is written. Such flags differ from
/// file to file.
pub open spec fn is_output(l: Seq<char>) -> bool {
    starts_with(l, "-fo"@) || starts_with(l, "/fo"@) || starts_with(l, "-fd"@) || starts_with(
        l,
        "/fd"@,
    ) || starts_with(l, "-fp"@) || starts_with(l, "/fp"@) || starts_with(l, "-fr"@) || starts_with(
        l,
        "/fr"@,
    )
}

/// Whether a flag, in small letters, names a file that is written.
pub fn is_output_flag(l: &str) -> (r: bool)
    ensures
        r == is_output(l@),
{
    begins(l, "-fo") || begins(l, "/fo") || begins(l, "-fd") || begins(l, "/fd") || begins(l, "-fp")
        || begins(l, "/fp") || begins(l, "-fr") || begins(l, "/fr")
}

/// Those of the first `n` tokens that name no file that is written.
pub open spec fn kept_tokens(t: Seq<Seq<char>>, n: int) -> Seq<Seq<char>>
    decreases n,
{
    if n <= 0 {
        Seq::empty()
    } else if is_output(lowercase(t[n - 1])) {
        kept_tokens(t, n - 1)
    } else {
        kept_tokens(t, n - 1).push(t[n - 1])
    }
}

/// A command line in a comparable form: its flags in order, without files that are written.
pub open spec fn normalized(cmd: Seq<char>) -> Seq<char> {
    let t = tokens(cmd);
    in_order(kept_tokens(t, t.len() as int))
}

/// Some flags in order, as a command line.
pub open spec fn in_order(t: Seq<Seq<char>>) -> Seq<char> {
    joined(sorted_by(t, |a: Seq<char>, b: Seq<char>| text_le(a, b)), " "@)
}

/// Some flags in order, as a command line.
pub fn sort_flags(kept: Vec<String>) -> (r: String)
    ensures
        r@ == in_order(texts(kept@)),
{
    assert(views(kept@) =~= texts(kept@));
    let sorted: Vec<String> = sort_stable(kept);
    assert(rank_of::<String>() =~= (|a: Seq<char>, b: Seq<char>| text_le(a, b)));
    assert(texts(sorted@) =~= views(sorted@));
    join(&sorted, " ")
}

/// A command line in a comparable form.
pub fn normalize_cmd(cmd: &str) -> (r: String)
    ensures
        r@ == normalized(cmd@),
{
    let all: Vec<String> = tokenize(cmd);
    let ghost t = texts(all@);
    let mut kept: Vec<String> = Vec::new();
    assert(texts(kept@) =~= Seq::<Seq<char>>::empty());
    let mut i: usize = 0;
    while i < all.len()
        invariant
            t == texts(all@),
            i <= all@.len(),
            texts(kept@) == kept_tokens(t, i as int),
        decreases all.len() - i,
    {
        assert(t[i as int] == all@[i as int]@);
        let l: String = to_lowercase(all[i].as_str());
        if !is_output_flag(l.as_str()) {
            let x: String = owned(all[i].as_str());
            proof {
                lemma_texts_push(kept@, x);
            }
            kept.push(x);
        }
        i = i + 1;
    }
    sort_flags(kept)
}

/// Whether a flag occurs, in any letter case.
pub open spec fn has_flag(norm: Seq<char>, flag: Seq<char>) -> bool {
    exists|i: int|
        0 <= i < pieces(norm, " "@).len() && same_ignoring_ascii_case(
            #[trigger] pieces(norm, " "@)[i],
            flag,
        )
}

/// The runtime library that a command line asks for.
pub open spec fn runtime(norm: Seq<char>) -> Seq<char> {
    if has_flag(norm, "-MDd"@) || has_flag(norm, "/MDd"@) {
        "/MDd"@
    } else if has_flag(norm, "-MD"@) || has_flag(norm, "/MD"@) {
        "/MD"@
    } else if has_flag(norm, "-MTd"@) || has_flag(norm, "/MTd"@) {
        "/MTd"@
    } else if has_flag(norm, "-MT"@) || has_flag(norm, "/MT"@) {
        "/MT"@
    } else {
        "/MT?"@
    }
}

fn flag_occurs(parts: &Vec<String>, flag: &str, norm: Ghost<Seq<char>>) -> (r: bool)
    requires
        texts(parts@) == pieces(norm@, " "@),
    ensures
        r == has_flag(norm@, flag@),
{
    let ghost p = pieces(norm@, " "@);
    let mut i: usize = 0;
    while i < parts.len()
        invariant
            p == texts(parts@),
            p == pieces(norm@, " "@),
            i <= parts@.len(),
            forall|k: int| 0 <= k < i ==> !same_ignoring_ascii_case(#[trigger] p[k], flag@),
        decreases parts.len() - i,
    {
        assert(p[i as int] == parts@[i as int]@);
        if equal_ignoring_ascii_case(parts[i].as_str(), flag) {
            assert(same_ignoring_ascii_case(p[i as int], flag@));
            assert(same_ignoring_ascii_case(pieces(norm@, " "@)[i as int], flag@));
            return true;
        }
        i = i + 1;
    }
    false
}

/// The runtime library that a command line asks for.
pub fn crt_of(norm: &str) -> (r: &'static str)
    ensures
        r@ == runtime(norm@),
{
    let parts: Vec<String> = split(norm, " ");
    if flag_occurs(&parts, "-MDd", Ghost(norm@)) || flag_occurs(&parts, "/MDd", Ghost(norm@)) {
        "/MDd"
    } else if flag_occurs(&parts, "-MD", Ghost(norm@)) || flag_occurs(&parts, "/MD", Ghost(norm@)) {
        "/MD"
    } else if flag_occurs(&parts, "-MTd", Ghost(norm@)) || flag_occurs(
        &parts,
        "/MTd",
        Ghost(norm@),
    ) {
        "/MTd"
    } else if flag_occurs(&parts, "-MT", Ghost(norm@)) || flag_occurs(&parts, "/MT", Ghost(norm@)) {
        "/MT"
    } else {
        "/MT?"
    }
}

/// Whether a flag, in small letters, is told in a summary.
pub open spec fn is_telling(l: Seq<char>) -> bool {
    starts_with(l, "-o"@) || starts_with(l, "/o"@) || starts_with(l, "-m"@) || starts_with(l, "/m"@)
        || starts_with(l, "-g"@) || starts_with(l, "/g"@) || starts_with(l, "-z"@) || starts_with(
        l,
        "/z"@,
    ) || starts_with(l, "-arch"@) || starts_with(l, "-fp"@) || starts_with(l, "-tc"@)
        || starts_with(l, "-tp"@) || starts_with(l, "-eh"@) || starts_with(l, "/eh"@)
        || starts_with(l, "-rtc"@)
}

/// Whether a flag, in small letters, is told in a summary.
pub fn is_telling_flag(l: &str) -> (r: bool)
    ensures
        r == is_telling(l@),
{
    begins(l, "-o") || begins(l, "/o") || begins(l, "-m") || begins(l, "/m") || begins(l, "-g")
        || begins(l, "/g") || begins(l, "-z") || begins(l, "/z") || begins(l, "-arch") || begins(
        l,
        "-fp",
    ) || begins(l, "-tc") || begins(l, "-tp") || begins(l, "-eh") || begins(l, "/eh") || begins(
        l,
        "-rtc",
    )
}

/// Those of the first `n` flags that are told in a summary.
pub open spec fn telling_flags(t: Seq<Seq<char>>, n: int) -> Seq<Seq<char>>
    decreases n,
{
    if n <= 0 {
        Seq::empty()
    } else if is_telling(lowercase(t[n - 1])) {
        telling_flags(t, n - 1).push(t[n - 1])
    } else {
        telling_flags(t, n - 1)
    }
}

/// The flags for optimization, code and debugging information.
pub open spec fn flag_summary(norm: Seq<char>) -> Seq<char> {
    let t = pieces(norm, " "@);
    joined(telling_flags(t, t.len() as int), " "@)
}

/// The flags for optimization, code and debugging information.
pub fn summary(norm: &str) -> (r: String)
    ensures
        r@ == flag_summary(norm@),
{
    let all: Vec<String> = split(norm, " ");
    let ghost t = texts(all@);
    let mut kept: Vec<String> = Vec::new();
    assert(texts(kept@) =~= Seq::<Seq<char>>::empty());
    let mut i: usize = 0;
    while i < all.len()
        invariant
            t == texts(all@),
            i <= all@.len(),
            texts(kept@) == telling_flags(t, i as int),
        decreases all.len() - i,
    {
        assert(t[i as int] == all@[i as int]@);
        let l: String = to_lowercase(all[i].as_str());
        if is_telling_flag(l.as_str()) {
            let x: String = owned(all[i].as_str());
            proof {
                lemma_texts_push(kept@, x);
            }
            kept.push(x);
        }
        i = i + 1;
    }
    join(&kept, " ")
}

/// What a compiler records of its flags in any case.
#[derive(Clone, Copy, PartialEq, Eq, Debug, Structural)]
pub struct CoarseFlags {
    pub link_time_codegen: bool,
    pub security_checks: bool,
    pub no_debug_info: bool,
}

/// The labels of some coarse flags.
pub open spec fn coarse_labels(f: CoarseFlags) -> Seq<Seq<char>> {
    let a = if f.link_time_codegen {
        seq!["LTCG"@]
    } else {
        Seq::empty()
    };
    let b = if f.security_checks {
        a.push("/GS"@)
    } else {
        a
    };
    let c = if f.no_debug_info {
        b.push("no-debug"@)
    } else {
        b
    };
    if c.len() == 0 {
        seq!["(none)"@]
    } else {
        c
    }
}

/// Some coarse flags in words.
pub fn coarse_summary(f: CoarseFlags) -> (r: String)
    ensures
        r@ == joined(coarse_labels(f), ","@),
{
    let mut v: Vec<String> = Vec::new();
    if f.link_time_codegen {
        v.push(owned("LTCG"));
    }
    if f.security_checks {
        v.push(owned("/GS"));
    }
    if f.no_debug_info {
        v.push(owned("no-debug"));
    }
    if v.len() == 0 {
        v.push(owned("(none)"));
    }
    assert(texts(v@) =~= coarse_labels(f));
    join(&v, ",")
}

// ---------------------------------------------------------------------------
// Paths
// ---------------------------------------------------------------------------

/// What follows the last slash of either kind.
pub open spec fn base_name(p: Seq<char>, n: int) -> Seq<char>
    decreases n,
{
    if n <= 0 {
        p
    } else if p[n - 1] == '\\' || p[n - 1] == '/' {
        p.skip(n)
    } else {
        base_name(p, n - 1)
    }
}

/// What follows the last slash of either kind.
pub fn basename(p: &str) -> (r: String)
    ensures
        r@ == base_name(p@, p@.len() as int),
{
    let v: Vec<char> = chars_of(p);
    let mut n: usize = v.len();
    while n > 0
        invariant
            v@ == p@,
            n <= v@.len(),
            base_name(p@, p@.len() as int) == base_name(p@, n as int),
        decreases n,
    {
        if v[n - 1] == '\\' || v[n - 1] == '/' {
            return tail_of(&v, n);
        }
        n = n - 1;
    }
    owned(p)
}

/// A text without the occurrences of `p` at its end.
pub open spec fn without_endings(s: Seq<char>, p: Seq<char>) -> Seq<char>
    decreases s.len(),
{
    if p.len() > 0 && ends_with(s, p) {
        without_endings(s.take(s.len() - p.len()), p)
    } else {
        s
    }
}

fn trim_endings(s: &str, p: &str) -> (r: String)
    requires
        p@.len() > 0,
    ensures
        r@ == without_endings(s@, p@),
{
    let k: usize = chars_of(p).len();
    let mut out: String = owned(s);
    while ends(out.as_str(), p)
        invariant
            k == p@.len(),
            k > 0,
            without_endings(s@, p@) == without_endings(out@, p@),
        decreases out@.len(),
    {
        let v: Vec<char> = chars_of(out.as_str());
        let n: usize = v.len();
        out = head_of(&v, n - k);
    }
    out
}

/// A source file's path: as it is given where it is whole, else behind the working
/// directory.
pub open spec fn joined_path(cwd: Seq<char>, src: Seq<char>) -> Seq<char> {
    let dir = without_endings(cwd, "\\"@);
    if starts_with(src, ".\\"@) || starts_with(src, "./"@) {
        dir + "\\"@ + src.skip(2)
    } else if contains(src, ":\\"@) || starts_with(src, "\\"@) {
        src
    } else {
        dir + "\\"@ + src
    }
}

/// A source file's path.
pub fn join_win(cwd: &str, src: &str) -> (r: String)
    ensures
        r@ == joined_path(cwd@, src@),
{
    proof {
        reveal_strlit("\\");
        reveal_strlit(".\\");
        reveal_strlit("./");
    }
    let dir: String = trim_endings(cwd, "\\");
    if begins(src, ".\\") || begins(src, "./") {
        let v: Vec<char> = chars_of(src);
        let rest: String = tail_of(&v, 2);
        cat3(dir.as_str(), "\\", rest.as_str())
    } else if has_part(src, ":\\") || begins(src, "\\") {
        owned(src)
    } else {
        cat3(dir.as_str(), "\\", src)
    }
}

/// The project of an object file below the directory of intermediate files, its path given
/// in small letters.
pub open spec fn project_below(lowered: Seq<char>) -> Option<Seq<char>> {
    let p = replaced(lowered, "/"@, "\\"@);
    match index_of(p, "intermediates\\"@, 0) {
        None => None,
        Some(i) => {
            let parts = pieces(p.skip(i + 14), "\\"@);
            if parts.len() < 2 || ends_with(parts[1], ".obj"@) {
                None
            } else {
                Some(parts[1])
            }
        },
    }
}

/// The project of an object file below the directory of intermediate files, its path given
/// in small letters.
pub fn project_in_intermediates(lowered: &str) -> (r: Option<String>)
    ensures
        opt_text(r) == project_below(lowered@),
{
    let p: String = replace(lowered, "/", "\\");
    proof {
        reveal_strlit("intermediates\\");
        lemma_index_of(p@, "intermediates\\"@, 0);
    }
    let v: Vec<char> = chars_of(p.as_str());
    let n: usize = v.len();
    match find(p.as_str(), "intermediates\\") {
        None => None,
        Some(i) => {
            let rest: String = tail_of(&v, i + 14);
            let parts: Vec<String> = split(rest.as_str(), "\\");
            if parts.len() < 2 || ends(parts[1].as_str(), ".obj") {
                return None;
            }
            Some(owned(parts[1].as_str()))
        },
    }
}

/// The project of a compiland, the names given in small letters: that of its library, or
/// else the one whose directory its object file is in.
pub open spec fn project_of(library: Seq<char>, module: Seq<char>, object: Seq<char>) -> Seq<char> {
    if ends_with(library, ".lib"@) {
        without_endings(base_name(library, library.len() as int), ".lib"@)
    } else {
        match project_below(module) {
            Some(s) => s,
            None => match project_below(object) {
                Some(s) => s,
                None => ""@,
            },
        }
    }
}

/// The project of a compiland, the names given in small letters.
pub fn project_named(library: &str, module: &str, object: &str) -> (r: String)
    ensures
        r@ == project_of(library@, module@, object@),
{
    if ends(library, ".lib") {
        proof {
            reveal_strlit(".lib");
        }
        return trim_endings(basename(library).as_str(), ".lib");
    }
    match project_in_intermediates(module) {
        Some(s) => s,
        None => match project_in_intermediates(object) {
            Some(s) => s,
            None => owned(""),
        },
    }
}

} // verus!
