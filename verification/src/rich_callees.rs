//! The functions that a function calls, read from its instructions, and their
//! signatures.

use crate::number::{dec, decimal};
use crate::order::{first_seen, has_text, insert_once, lemma_first_seen, sorted_once};
use crate::pieces::{cat2, cat4, cat5, lemma_texts_push};
use crate::rich_context::FunctionEntry;
use crate::search::{contains, has_part, strip_front, trim, trimmed, without_prefix};
use crate::text::{chars_of, owned, same, texts};
use vstd::prelude::*;
use vstd::string::StringExecFns;

verus! {

/// Whether `s` is the name of a register.
pub open spec fn register_name(s: Seq<char>) -> bool {
    ||| s == "eax"@
    ||| s == "ebx"@
    ||| s == "ecx"@
    ||| s == "edx"@
    ||| s == "esi"@
    ||| s == "edi"@
    ||| s == "ebp"@
    ||| s == "esp"@
    ||| s == "ax"@
    ||| s == "bx"@
    ||| s == "cx"@
    ||| s == "dx"@
    ||| s == "al"@
    ||| s == "bl"@
    ||| s == "cl"@
    ||| s == "dl"@
    ||| s == "ah"@
    ||| s == "bh"@
    ||| s == "ch"@
    ||| s == "dh"@
}

/// Whether a name of code may begin with `c`.
pub open spec fn begins_name(c: char) -> bool {
    ('a' <= c && c <= 'z') || ('A' <= c && c <= 'Z') || c == '_' || c == '?'
}

/// Whether a call's operand names a function: not a register, a label, a memory
/// operand or an address. Only a qualified name may hold spaces.
pub open spec fn named_symbol(s: Seq<char>) -> bool {
    &&& s.len() > 0
    &&& begins_name(s[0])
    &&& !register_name(s)
    &&& contains(s, "::"@) || !contains(s, " "@)
}

/// The function that an instruction calls by name.
pub open spec fn callee(text: Seq<char>) -> Option<Seq<char>> {
    match without_prefix(text, "call "@) {
        Some(rest) => if named_symbol(trimmed(rest)) {
            Some(trimmed(rest))
        } else {
            None
        },
        None => None,
    }
}

/// The functions that the first `n` instructions call, in order.
pub open spec fn callees_upto(f: FunctionEntry, n: int) -> Seq<Seq<char>>
    decreases n,
{
    if n <= 0 {
        Seq::empty()
    } else {
        match callee(f.instructions@[n - 1].text@) {
            Some(c) => callees_upto(f, n - 1).push(c),
            None => callees_upto(f, n - 1),
        }
    }
}

fn is_register(s: &str) -> (b: bool)
    ensures
        b == register_name(s@),
{
    same(s, "eax") || same(s, "ebx") || same(s, "ecx") || same(s, "edx") || same(s, "esi") || same(
        s,
        "edi",
    ) || same(s, "ebp") || same(s, "esp") || same(s, "ax") || same(s, "bx") || same(s, "cx")
        || same(s, "dx") || same(s, "al") || same(s, "bl") || same(s, "cl") || same(s, "dl")
        || same(s, "ah") || same(s, "bh") || same(s, "ch") || same(s, "dh")
}

fn is_named_symbol(s: &str) -> (b: bool)
    ensures
        b == named_symbol(s@),
{
    let v: Vec<char> = chars_of(s);
    if v.len() == 0 {
        return false;
    }
    let c: char = v[0];
    let name: bool = ('a' <= c && c <= 'z') || ('A' <= c && c <= 'Z') || c == '_' || c == '?';
    name && !is_register(s) && (has_part(s, "::") || !has_part(s, " "))
}

fn callee_of(text: &str) -> (r: Option<String>)
    ensures
        match r {
            Some(c) => callee(text@) == Some(c@),
            None => callee(text@) is None,
        },
{
    match strip_front(text, "call ") {
        Some(rest) => {
            let target: String = trim(rest.as_str());
            if is_named_symbol(target.as_str()) {
                Some(target)
            } else {
                None
            }
        },
        None => None,
    }
}

/// The functions that `f` calls by name, each once, in the order of the calls.
pub fn extract(f: &FunctionEntry) -> (r: Vec<String>)
    ensures
        texts(r@) == first_seen(callees_upto(*f, f.instructions@.len() as int)),
{
    let mut out: Vec<String> = Vec::new();
    let mut i: usize = 0;
    assert(texts(out@) =~= Seq::empty());
    while i < f.instructions.len()
        invariant
            i <= f.instructions@.len(),
            texts(out@) == first_seen(callees_upto(*f, i as int)),
        decreases f.instructions.len() - i,
    {
        let ghost seen = callees_upto(*f, i as int);
        match callee_of(f.instructions[i].text.as_str()) {
            Some(c) => {
                proof {
                    lemma_first_seen(seen);
                    lemma_texts_push(out@, c);
                    assert(seen.push(c@).drop_last() =~= seen);
                    assert(first_seen(seen).contains(c@) == seen.contains(c@));
                }
                if !has_text(&out, &c) {
                    out.push(c);
                }
            },
            None => {},
        }
        i = i + 1;
    }
    out
}

// ---------------------------------------------------------------------------

/// A callee and the signatures that it may stand for.
#[derive(Debug)]
pub struct Resolved {
    pub callee: String,
    pub signatures: Vec<String>,
}

/// Whether a signature names the callee: as the function called, or, where it
/// has no argument list, anywhere.
pub open spec fn is_hit(name: Seq<char>, callee: Seq<char>) -> bool {
    contains(name, callee + "("@) || (!contains(name, "("@) && contains(name, callee))
}

/// How often `x` occurs in `s`.
pub open spec fn occurrences(s: Seq<Seq<char>>, x: Seq<char>) -> nat
    decreases s.len(),
{
    if s.len() == 0 {
        0
    } else {
        occurrences(s.drop_last(), x) + if s.last() == x {
            1nat
        } else {
            0nat
        }
    }
}

/// The signatures among the first `n` entries that name the callee, each as
/// often as the callee was asked for.
pub open spec fn hits_upto(
    entries: Seq<FunctionEntry>,
    callees: Seq<Seq<char>>,
    c: Seq<char>,
    n: int,
) -> Seq<Seq<char>>
    decreases n,
{
    if n <= 0 {
        Seq::empty()
    } else if is_hit(entries[n - 1].name@, c) {
        hits_upto(entries, callees, c, n - 1) + Seq::new(
            occurrences(callees, c),
            |i: int| entries[n - 1].name@,
        )
    } else {
        hits_upto(entries, callees, c, n - 1)
    }
}

/// Whether `r` resolves one callee.
pub open spec fn resolves(
    r: Resolved,
    entries: Seq<FunctionEntry>,
    callees: Seq<Seq<char>>,
    c: Seq<char>,
) -> bool {
    r.callee@ == c && texts(r.signatures@) == hits_upto(entries, callees, c, entries.len() as int)
}

/// How often `x` occurs in a list.
pub fn count_text(v: &Vec<String>, x: &String) -> (n: usize)
    ensures
        n == occurrences(texts(v@), x@),
{
    let mut n: usize = 0;
    let mut i: usize = 0;
    assert(texts(v@).take(0) =~= Seq::empty());
    while i < v.len()
        invariant
            i <= v@.len(),
            n <= i,
            n == occurrences(texts(v@).take(i as int), x@),
        decreases v.len() - i,
    {
        assert(texts(v@).take(i + 1).drop_last() =~= texts(v@).take(i as int));
        if v[i] == *x {
            n = n + 1;
        }
        i = i + 1;
    }
    assert(texts(v@).take(v@.len() as int) =~= texts(v@));
    n
}

fn names_callee(name: &str, callee: &str) -> (b: bool)
    ensures
        b == is_hit(name@, callee@),
{
    has_part(name, cat2(callee, "(").as_str()) || (!has_part(name, "(") && has_part(name, callee))
}

fn signatures_of(entries: &Vec<FunctionEntry>, callees: &Vec<String>, c: &String) -> (r: Vec<
    String,
>)
    ensures
        texts(r@) == hits_upto(entries@, texts(callees@), c@, entries@.len() as int),
{
    let times: usize = count_text(callees, c);
    let mut out: Vec<String> = Vec::new();
    let mut i: usize = 0;
    assert(texts(out@) =~= Seq::empty());
    while i < entries.len()
        invariant
            i <= entries@.len(),
            times == occurrences(texts(callees@), c@),
            texts(out@) == hits_upto(entries@, texts(callees@), c@, i as int),
        decreases entries.len() - i,
    {
        let ghost before = texts(out@);
        if names_callee(entries[i].name.as_str(), c.as_str()) {
            let mut k: usize = 0;
            assert(before + Seq::new(0, |x: int| entries@[i as int].name@) =~= before);
            while k < times
                invariant
                    i < entries@.len(),
                    k <= times,
                    texts(out@) == before + Seq::new(k as nat, |x: int| entries@[i as int].name@),
                decreases times - k,
            {
                let name: String = entries[i].name.clone();
                proof {
                    lemma_texts_push(out@, name);
                }
                out.push(name);
                assert(texts(out@) =~= before + Seq::new(
                    (k + 1) as nat,
                    |x: int| entries@[i as int].name@,
                ));
                k = k + 1;
            }
        }
        i = i + 1;
    }
    out
}

/// Resolves each callee to the signatures among `entries` that name it. The
/// callees come in order, each once.
pub fn resolve(entries: &Vec<FunctionEntry>, callees: &Vec<String>) -> (r: Vec<Resolved>)
    ensures
        r@.len() == sorted_once(texts(callees@)).len(),
        forall|i: int|
            0 <= i < r@.len() ==> resolves(
                #[trigger] r@[i],
                entries@,
                texts(callees@),
                sorted_once(texts(callees@))[i],
            ),
{
    let mut keys: Vec<String> = Vec::new();
    let mut i: usize = 0;
    assert(texts(keys@) =~= Seq::empty());
    assert(texts(callees@).take(0) =~= Seq::empty());
    while i < callees.len()
        invariant
            i <= callees@.len(),
            texts(keys@) == sorted_once(texts(callees@).take(i as int)),
        decreases callees.len() - i,
    {
        assert(texts(callees@).take(i + 1).drop_last() =~= texts(callees@).take(i as int));
        insert_once(&mut keys, callees[i].clone());
        i = i + 1;
    }
    assert(texts(callees@).take(callees@.len() as int) =~= texts(callees@));
    let mut out: Vec<Resolved> = Vec::new();
    let mut k: usize = 0;
    while k < keys.len()
        invariant
            k <= keys@.len(),
            texts(keys@) == sorted_once(texts(callees@)),
            out@.len() == k,
            forall|j: int|
                0 <= j < k ==> resolves(
                    #[trigger] out@[j],
                    entries@,
                    texts(callees@),
                    texts(keys@)[j],
                ),
        decreases keys.len() - k,
    {
        let signatures: Vec<String> = signatures_of(entries, callees, &keys[k]);
        out.push(Resolved { callee: keys[k].clone(), signatures });
        k = k + 1;
    }
    out
}

/// The signatures found for a callee: those of the first entry on it.
pub open spec fn found(resolved: Seq<Resolved>, c: Seq<char>) -> Seq<Seq<char>>
    decreases resolved.len(),
{
    if resolved.len() == 0 {
        Seq::empty()
    } else if resolved[0].callee@ == c {
        texts(resolved[0].signatures@)
    } else {
        found(resolved.skip(1), c)
    }
}

/// The lines of a callee's first `n` signatures.
pub open spec fn signature_lines(c: Seq<char>, sigs: Seq<Seq<char>>, n: int) -> Seq<char>
    decreases n,
{
    if n <= 0 {
        ""@
    } else {
        signature_lines(c, sigs, n - 1) + ("  "@ + c + "\t-> "@ + sigs[n - 1] + "\n"@)
    }
}

/// The lines of one callee.
pub open spec fn callee_lines(c: Seq<char>, sigs: Seq<Seq<char>>) -> Seq<char> {
    if sigs.len() == 0 {
        "  "@ + c + "\t-> (unresolved)\n"@ + ""@
    } else {
        signature_lines(c, sigs, sigs.len() as int)
    }
}

/// The lines of the first `n` callees.
pub open spec fn callees_text(
    f: FunctionEntry,
    callees: Seq<Seq<char>>,
    resolved: Seq<Resolved>,
    n: int,
) -> Seq<char>
    decreases n,
{
    if n <= 0 {
        f.name@ + ":\n; callees ("@ + dec(callees.len()) + ")\n"@
    } else {
        callees_text(f, callees, resolved, n - 1) + callee_lines(
            callees[n - 1],
            found(resolved, callees[n - 1]),
        )
    }
}

fn lines_of(c: &String, resolved: &Vec<Resolved>) -> (r: String)
    ensures
        r@ == callee_lines(c@, found(resolved@, c@)),
{
    let mut i: usize = 0;
    assert(resolved@.skip(0) =~= resolved@);
    while i < resolved.len()
        invariant
            i <= resolved@.len(),
            found(resolved@, c@) == found(resolved@.skip(i as int), c@),
        decreases resolved.len() - i,
    {
        assert(resolved@.skip(i as int).skip(1) =~= resolved@.skip(i + 1));
        let r: &Resolved = &resolved[i];
        if r.callee == *c && r.signatures.len() > 0 {
            let ghost sigs = texts(r.signatures@);
            let mut out: String = owned("");
            let mut k: usize = 0;
            while k < r.signatures.len()
                invariant
                    k <= r.signatures@.len(),
                    sigs == texts(r.signatures@),
                    out@ == signature_lines(c@, sigs, k as int),
                decreases r.signatures.len() - k,
            {
                let line: String = cat5(
                    "  ",
                    c.as_str(),
                    "\t-> ",
                    r.signatures[k].as_str(),
                    "\n",
                );
                out.append(line.as_str());
                k = k + 1;
            }
            return out;
        }
        if r.callee == *c {
            assert(texts(r.signatures@) =~= Seq::empty());
            return cat4("  ", c.as_str(), "\t-> (unresolved)\n", "");
        }
        i = i + 1;
    }
    cat4("  ", c.as_str(), "\t-> (unresolved)\n", "")
}

/// The callees of a function, each with its signatures.
pub fn render(f: &FunctionEntry, callees: &Vec<String>, resolved: &Vec<Resolved>) -> (r: String)
    ensures
        r@ == callees_text(*f, texts(callees@), resolved@, callees@.len() as int),
{
    let mut out: String = cat4(
        f.name.as_str(),
        ":\n; callees (",
        decimal(callees.len() as u64).as_str(),
        ")\n",
    );
    let mut i: usize = 0;
    while i < callees.len()
        invariant
            i <= callees@.len(),
            out@ == callees_text(*f, texts(callees@), resolved@, i as int),
        decreases callees.len() - i,
    {
        out.append(lines_of(&callees[i], resolved).as_str());
        i = i + 1;
    }
    out
}

/// Every callee that is listed is called by an instruction, and none twice.
pub proof fn lemma_callees_are_called(f: FunctionEntry, out: Seq<Seq<char>>)
    requires
        out == first_seen(callees_upto(f, f.instructions@.len() as int)),
    ensures
        out.no_duplicates(),
        forall|c: Seq<char>| #[trigger]
            out.contains(c) ==> named_symbol(c) && exists|i: int|
                0 <= i < f.instructions@.len() && callee(#[trigger] f.instructions@[i].text@)
                    == Some(c),
{
    let n = f.instructions@.len() as int;
    lemma_first_seen(callees_upto(f, n));
    assert forall|c: Seq<char>| #[trigger] out.contains(c) implies named_symbol(c) && exists|i: int|
        0 <= i < f.instructions@.len() && callee(#[trigger] f.instructions@[i].text@) == Some(
            c,
        ) by {
        assert(callees_upto(f, n).contains(c));
        lemma_callee_source(f, n, c);
    }
}

proof fn lemma_callee_source(f: FunctionEntry, n: int, c: Seq<char>)
    requires
        0 <= n <= f.instructions@.len(),
        callees_upto(f, n).contains(c),
    ensures
        named_symbol(c),
        exists|i: int| 0 <= i < n && callee(#[trigger] f.instructions@[i].text@) == Some(c),
    decreases n,
{
    if n > 0 {
        let all = callees_upto(f, n);
        let k = choose|k: int| 0 <= k < all.len() && all[k] == c;
        if callee(f.instructions@[n - 1].text@) == Some(c) {
        } else {
            assert(callees_upto(f, n - 1)[k] == c);
            lemma_callee_source(f, n - 1, c);
        }
    }
}

} // verus!
