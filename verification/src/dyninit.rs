//! The names of the functions that a compiler makes to initialize static objects
//! and to destroy them at exit.
//!
//! One build records such a function under its decorated name, another under its
//! written-out name. The written-out name serves for both.

use crate::pieces::cat5;
use crate::search::{begins, contains, find, has_part, index_of, is_at, matches_at, starts_with,
    strip_back, strip_front, without_suffix};
use crate::text::{byte_len, chars_of, len_bytes, owned};
use crate::type_builder::opt;
use vstd::prelude::*;

verus! {

/// What `msvc_demangler::demangle` makes of a decorated name, with the flags for
/// the name alone and for no keyword before the names of classes.
pub uninterp spec fn demangled_name(sym: Seq<char>) -> Option<Seq<char>>;

/// Whether a character is a decimal digit.
pub open spec fn is_decimal(c: char) -> bool {
    '0' <= c && c <= '9'
}

/// Whether an escape of an encoded string stands at a place, with a digit that is no
/// letter.
pub open spec fn low_escape_at(sym: Seq<char>, i: int) -> bool {
    matches_at(sym, "?$"@, i) && ((i + 2 < sym.len() && sym[i + 2] < 'A') || (i + 3 < sym.len()
        && sym[i + 3] < 'A'))
}

/// Whether a name holds the mark of an encoded string and an escape whose digits are no
/// letters.
pub open spec fn has_bad_escape(sym: Seq<char>) -> bool {
    (contains(sym, "_0"@) || contains(sym, "_1"@)) && exists|i: int| #[trigger]
        low_escape_at(sym, i)
}

/// Whether the digits from a place on, behind digits that spell `v`, spell more than a
/// 32-bit number with a sign can be.
pub open spec fn overflows_from(sym: Seq<char>, i: int, v: int) -> bool
    decreases sym.len() - i,
{
    if i < 0 || i >= sym.len() || !is_decimal(sym[i]) {
        false
    } else {
        let w = v * 10 + (sym[i] as u32 - 48);
        w > i32::MAX || overflows_from(sym, i + 1, w)
    }
}

/// The first place from `i` on that holds no digit.
pub open spec fn digits_end(sym: Seq<char>, i: int) -> int
    decreases sym.len() - i,
{
    if i < 0 || i >= sym.len() || !is_decimal(sym[i]) {
        i
    } else {
        digits_end(sym, i + 1)
    }
}

/// Whether a name stands at a place that is a reference or an anonymous namespace.
pub open spec fn unwritable_guard_name(sym: Seq<char>, i: int) -> bool {
    i < sym.len() && (is_decimal(sym[i]) || matches_at(sym, "?A"@, i))
}

/// Whether a thread-safe guard stands at a place whose number is too large, or which is
/// that of a reference or an anonymous namespace.
pub open spec fn bad_guard_at(sym: Seq<char>, i: int) -> bool {
    &&& matches_at(sym, "?$TSS"@, i)
    &&& overflows_from(sym, i + 5, 0) || {
        let j = digits_end(sym, i + 5);
        j < sym.len() && sym[j] == '@' && unwritable_guard_name(sym, j + 1)
    }
}

/// Whether a digit stands at a place directly behind what begins a type or a symbol, and so
/// refers to a name.
pub open spec fn refers_at(sym: Seq<char>, i: int) -> bool {
    &&& 0 < i < sym.len()
    &&& is_decimal(sym[i])
    &&& {
        ||| sym[i - 1] == 'T'
        ||| sym[i - 1] == 'U'
        ||| sym[i - 1] == 'V'
        ||| matches_at(sym, "W4"@, i - 2)
        ||| matches_at(sym, "P8"@, i - 2)
        ||| matches_at(sym, "??"@, i - 2)
        ||| matches_at(sym, "$$Y"@, i - 3)
        ||| i >= 3 && sym[i - 3] == '$' && sym[i - 1] == '?'
    }
}

/// Whether an anonymous namespace that can be referred to is named, and behind it a type or
/// a symbol by reference.
pub open spec fn may_refer_to_anonymous(sym: Seq<char>) -> bool {
    match index_of(sym, "?A0x"@, 0) {
        Some(a) => exists|i: int| a < i && #[trigger] refers_at(sym, i),
        None => false,
    }
}

/// The names that the demangler can be asked for: of the length that the compiler
/// keeps to, without numbers that it cannot hold, and without an anonymous namespace where
/// it knows none.
pub open spec fn demanglable(sym: Seq<char>) -> bool {
    &&& byte_len(sym) <= 4096
    &&& !contains(sym, "IAAAAAAA@"@)
    &&& !has_bad_escape(sym)
    &&& !exists|i: int| #[trigger] bad_guard_at(sym, i)
    &&& !may_refer_to_anonymous(sym)
}

/// `msvc_demangler::demangle` with `NAME_ONLY` and `NO_CLASS_TYPE`; an error gives
/// nothing. Claimed is only that the result is a function of the name. Left out are
/// names on which its arithmetic would overflow: a guard with a number beyond 32 bits,
/// the least 32-bit number as the index of a template parameter, an escape in an
/// encoded string with a digit below `A`; names in which a type, a symbol or a guard could
/// be called as an anonymous namespace is, which its debug assertion rules out; and names
/// so long that its recursion could use up the stack.
#[verifier::external_body]
pub(crate) fn demangle_name_only(sym: &str) -> (r: Option<String>)
    requires
        demanglable(sym@),
    ensures
        opt(r) == demangled_name(sym@),
{
    let flags =
        msvc_demangler::DemangleFlags::NAME_ONLY | msvc_demangler::DemangleFlags::NO_CLASS_TYPE;
    msvc_demangler::demangle(sym, flags).ok()
}

/// What the name of such a function begins with, when written out.
pub open spec fn thunk_kind(sym: Seq<char>) -> Option<Seq<char>> {
    if starts_with(sym, "??__E"@) {
        Some("dynamic initializer for"@)
    } else if starts_with(sym, "??__F"@) {
        Some("dynamic atexit destructor for"@)
    } else {
        None
    }
}

/// What stands behind the mark of such a function.
pub open spec fn thunk_rest(sym: Seq<char>) -> Seq<char> {
    if starts_with(sym, "??__E"@) {
        sym.skip("??__E"@.len() as int)
    } else {
        sym.skip("??__F"@.len() as int)
    }
}

/// Whether the function is for an object whose decorated name stands in it whole.
pub open spec fn holds_symbol(sym: Seq<char>) -> bool {
    starts_with(thunk_rest(sym), "?"@)
}

/// The decorated name that is to be written out: that of the object, where it
/// stands in the function's name, else that of the function.
pub open spec fn thunk_query(sym: Seq<char>) -> Seq<char> {
    if holds_symbol(sym) {
        match without_suffix(thunk_rest(sym), "@@YAXXZ"@) {
            Some(s) => s,
            None => thunk_rest(sym),
        }
    } else {
        sym
    }
}

/// The object's name, given the written-out name that was asked for.
pub open spec fn thunk_object(sym: Seq<char>, written: Seq<char>) -> Option<Seq<char>> {
    if holds_symbol(sym) {
        Some(written)
    } else {
        match without_suffix(written, "::`dynamic initializer'"@) {
            Some(s) => Some(s),
            None => without_suffix(written, "::`dynamic atexit destructor'"@),
        }
    }
}

/// The written-out name of such a function, given the written-out name that was
/// asked for; nothing for any other function.
pub open spec fn thunk_name(sym: Seq<char>, written: Option<Seq<char>>) -> Option<Seq<char>> {
    match (thunk_kind(sym), written) {
        (Some(kind), Some(w)) => match thunk_object(sym, w) {
            Some(object) => Some("`"@ + kind + " '"@ + object + "''"@),
            None => None,
        },
        _ => None,
    }
}

/// Which written-out name has to be asked for, if `sym` is such a function.
pub fn query_for(sym: &str) -> (r: Option<String>)
    ensures
        match r {
            Some(q) => thunk_kind(sym@) is Some && q@ == thunk_query(sym@),
            None => thunk_kind(sym@) is None,
        },
{
    let rest: String = match strip_front(sym, "??__E") {
        Some(r) => r,
        None => match strip_front(sym, "??__F") {
            Some(r) => r,
            None => {
                return None;
            },
        },
    };
    assert(rest@ == thunk_rest(sym@));
    if begins(rest.as_str(), "?") {
        match strip_back(rest.as_str(), "@@YAXXZ") {
            Some(s) => Some(s),
            None => Some(rest),
        }
    } else {
        Some(owned(sym))
    }
}

/// The written-out name of such a function, given the written-out name that was
/// asked for.
pub fn name_thunk(sym: &str, written: Option<&str>) -> (r: Option<String>)
    ensures
        opt(r) == thunk_name(
            sym@,
            match written {
                Some(w) => Some(w@),
                None => None,
            },
        ),
{
    let (kind, rest): (&str, String) = match strip_front(sym, "??__E") {
        Some(r) => ("dynamic initializer for", r),
        None => match strip_front(sym, "??__F") {
            Some(r) => ("dynamic atexit destructor for", r),
            None => {
                return None;
            },
        },
    };
    assert(rest@ == thunk_rest(sym@));
    let w: &str = match written {
        Some(w) => w,
        None => {
            return None;
        },
    };
    let object: String = if begins(rest.as_str(), "?") {
        owned(w)
    } else {
        match strip_back(w, "::`dynamic initializer'") {
            Some(s) => s,
            None => match strip_back(w, "::`dynamic atexit destructor'") {
                Some(s) => s,
                None => {
                    return None;
                },
            },
        }
    };
    Some(cat5("`", kind, " '", object.as_str(), "''"))
}

/// The written-out name of a function that initializes or destroys a static
/// object; nothing for any other function.
pub fn canonicalize_static_init_thunk(sym: &str) -> (r: Option<String>)
    requires
        thunk_kind(sym@) is Some ==> demanglable(thunk_query(sym@)),
    ensures
        opt(r) == thunk_name(sym@, demangled_name(thunk_query(sym@))),
{
    match query_for(sym) {
        Some(q) => match demangle_name_only(q.as_str()) {
            Some(w) => name_thunk(sym, Some(w.as_str())),
            None => None,
        },
        None => None,
    }
}

fn has_low_escape(v: &Vec<char>) -> (r: bool)
    ensures
        r == exists|i: int| #[trigger] low_escape_at(v@, i),
{
    let p: Vec<char> = chars_of("?$");
    let n: usize = v.len();
    proof {
        reveal_strlit("?$");
    }
    let mut i: usize = 0;
    while i < n
        invariant
            n == v@.len(),
            p@ == "?$"@,
            "?$"@.len() == 2,
            i <= n,
            forall|k: int| 0 <= k < i ==> !#[trigger] low_escape_at(v@, k),
        decreases n - i,
    {
        if is_at(v, &p, i) {
            if (n - i > 2 && v[i + 2] < 'A') || (n - i > 3 && v[i + 3] < 'A') {
                assert(low_escape_at(v@, i as int));
                return true;
            }
        }
        i = i + 1;
    }
    false
}

fn is_bad_guard(v: &Vec<char>, start: usize) -> (r: bool)
    requires
        matches_at(v@, "?$TSS"@, start as int),
    ensures
        r == bad_guard_at(v@, start as int),
{
    proof {
        reveal_strlit("?$TSS");
    }
    let n: usize = v.len();
    let first: usize = start + 5;
    let mut j: usize = first;
    let mut w: u64 = 0;
    while j < n && '0' <= v[j] && v[j] <= '9'
        invariant
            n == v@.len(),
            first == start + 5,
            first <= j <= n,
            w <= i32::MAX,
            matches_at(v@, "?$TSS"@, start as int),
            overflows_from(v@, first as int, 0) == overflows_from(v@, j as int, w as int),
            digits_end(v@, first as int) == digits_end(v@, j as int),
        decreases n - j,
    {
        w = w * 10 + (v[j] as u32 - 48) as u64;
        if w > i32::MAX as u64 {
            return true;
        }
        j = j + 1;
    }
    if j < n && v[j] == '@' && j + 1 < n {
        let next: char = v[j + 1];
        if '0' <= next && next <= '9' {
            return true;
        }
        let anonymous: Vec<char> = chars_of("?A");
        return is_at(v, &anonymous, j + 1);
    }
    false
}

fn has_bad_guard(v: &Vec<char>) -> (r: bool)
    ensures
        r == exists|i: int| #[trigger] bad_guard_at(v@, i),
{
    let p: Vec<char> = chars_of("?$TSS");
    let n: usize = v.len();
    proof {
        reveal_strlit("?$TSS");
    }
    let mut i: usize = 0;
    while i < n
        invariant
            n == v@.len(),
            p@ == "?$TSS"@,
            "?$TSS"@.len() == 5,
            i <= n,
            forall|k: int| 0 <= k < i ==> !#[trigger] bad_guard_at(v@, k),
        decreases n - i,
    {
        if is_at(v, &p, i) && is_bad_guard(v, i) {
            return true;
        }
        i = i + 1;
    }
    false
}

fn is_behind(v: &Vec<char>, mark: &str, i: usize) -> (r: bool)
    requires
        i <= v@.len(),
    ensures
        r == matches_at(v@, mark@, i - mark@.len()),
{
    let p: Vec<char> = chars_of(mark);
    i >= p.len() && is_at(v, &p, i - p.len())
}

fn does_refer(v: &Vec<char>, i: usize) -> (r: bool)
    requires
        i < v@.len(),
    ensures
        r == refers_at(v@, i as int),
{
    proof {
        reveal_strlit("W4");
        reveal_strlit("P8");
        reveal_strlit("??");
        reveal_strlit("$$Y");
    }
    if i == 0 || v[i] < '0' || v[i] > '9' {
        return false;
    }
    let c: char = v[i - 1];
    c == 'T' || c == 'U' || c == 'V' || is_behind(v, "W4", i) || is_behind(v, "P8", i)
        || is_behind(v, "??", i) || is_behind(v, "$$Y", i) || (i >= 3 && v[i - 3] == '$' && c
        == '?')
}

fn can_refer_to_anonymous(sym: &str) -> (r: bool)
    ensures
        r == may_refer_to_anonymous(sym@),
{
    let a: usize = match find(sym, "?A0x") {
        Some(a) => a,
        None => {
            return false;
        },
    };
    let v: Vec<char> = chars_of(sym);
    let n: usize = v.len();
    let mut i: usize = a;
    while i < n
        invariant
            n == v@.len(),
            v@ == sym@,
            a <= i,
            index_of(sym@, "?A0x"@, 0) == Some(a as int),
            forall|k: int| a < k < i ==> !#[trigger] refers_at(sym@, k),
        decreases n - i,
    {
        if i > a && does_refer(&v, i) {
            return true;
        }
        i = i + 1;
    }
    false
}

/// Whether the demangler can be asked for `sym`.
pub fn can_demangle(sym: &str) -> (r: bool)
    ensures
        r == demanglable(sym@),
{
    let v: Vec<char> = chars_of(sym);
    len_bytes(sym) <= 4096 && !has_part(sym, "IAAAAAAA@") && !((has_part(sym, "_0") || has_part(
        sym,
        "_1",
    )) && has_low_escape(&v)) && !has_bad_guard(&v) && !can_refer_to_anonymous(sym)
}

/// Whether `canonicalize_static_init_thunk` can be asked for `sym`.
pub fn can_canonicalize(sym: &str) -> (r: bool)
    ensures
        r == (thunk_kind(sym@) is Some ==> demanglable(thunk_query(sym@))),
{
    match query_for(sym) {
        Some(q) => can_demangle(q.as_str()),
        None => true,
    }
}

/// The function that initializes an object and the one that destroys it never
/// have the same name.
pub proof fn lemma_initializer_is_not_destructor(
    a: Seq<char>,
    b: Seq<char>,
    wa: Seq<char>,
    wb: Seq<char>,
)
    requires
        starts_with(a, "??__E"@),
        starts_with(b, "??__F"@),
        thunk_name(a, Some(wa)) is Some,
        thunk_name(b, Some(wb)) is Some,
    ensures
        thunk_name(a, Some(wa)) != thunk_name(b, Some(wb)),
{
    reveal_strlit("`");
    reveal_strlit("??__E");
    reveal_strlit("??__F");
    reveal_strlit("dynamic initializer for");
    reveal_strlit("dynamic atexit destructor for");
    assert(b.take(5)[4] == 'F');
    assert(a.take(5)[4] == 'E');
    let x = thunk_name(a, Some(wa))->0;
    let y = thunk_name(b, Some(wb))->0;
    assert(!starts_with(b, "??__E"@));
    assert(x[9] == 'i');
    assert(y[9] == 'a');
}

} // verus!
