//! What holds of the searches and comparisons of single functions.

use crate::fetch::{action_for, contains_address, covering, decorated, decorated_in_order,
    identity_of, named, Sides};
use crate::lcs::{lemma_script, script, Step};
use crate::number::{dec, hex, pad_back, pad_front, repeated};
use crate::number_laws::{hex_read, lemma_padded_hex_is_read};
use crate::order::{first_seen, lemma_first_seen, lemma_sorted_by, lemma_text_le_total, sorted_by,
    text_le};
use crate::parts::{around, holds, lemma_holds_piece, lemma_holds_within, only};
use crate::rich_callees::{callee, callee_lines, callees_text, callees_upto, found, hits_upto,
    is_hit, named_symbol, occurrences, register_name, signature_lines, Resolved};
use crate::rich_context::{FunctionEntry, Statement};
use crate::rich_diff::{instruction_texts, unified, unified_line, unified_lines, Diff};
use crate::rich_objdiff::{credit_of, origin, origin_from, result_of, row_line, row_of, rows_text,
    same_count, InsDiff, ObjdiffResult, ObjdiffRow, SymbolDiff};
use crate::rich_query::{entry_le, hits, lemma_entry_rank, Query};
use crate::search::{contains, trimmed, without_prefix};
use crate::text::lowercase;
use vstd::prelude::*;

verus! {

// ---------------------------------------------------------------------------
// The difference of two listings
// ---------------------------------------------------------------------------

/// Whether a text has a line with an offset, of at least two digits, and an instruction.
pub open spec fn has_offset_line(s: Seq<char>, mark: Seq<char>, off: u32, text: Seq<char>) -> bool {
    exists|digits: Seq<char>|
        digits.len() >= 2 && #[trigger] hex_read(digits) == Some(off as nat) && holds(
            s,
            mark + "0x"@ + digits + ": "@ + text + "\n"@,
        )
}

proof fn lemma_unified_holds(base: FunctionEntry, target: FunctionEntry, d: Diff, k: int, n: int)
    requires
        0 <= k < n <= d.lines@.len(),
    ensures
        holds(unified_lines(base, target, d, n), unified_line(base, target, d.lines@[k])),
    decreases n,
{
    let before = unified_lines(base, target, d, n - 1);
    let last = unified_line(base, target, d.lines@[n - 1]);
    if k < n - 1 {
        lemma_unified_holds(base, target, d, k, n - 1);
        lemma_holds_within(
            Seq::empty(),
            before,
            last,
            unified_line(base, target, d.lines@[k]),
        );
    } else {
        lemma_holds_piece(before, last, Seq::empty());
    }
}

/// Every slot of an alignment is shown: one with an instruction of both sides, whose texts are
/// the same, by the text; one of the base with a minus, one of the target with a plus, and the
/// offset on its own side. The last line gives the counts.
pub proof fn lemma_unified_shows_all(
    base: FunctionEntry,
    target: FunctionEntry,
    d: Diff,
    percent: Seq<char>,
)
    requires
        d.follows(script(instruction_texts(base), instruction_texts(target), 0, 0)),
    ensures
        forall|k: int|
            0 <= k < d.lines@.len() ==> {
                let l = #[trigger] d.lines@[k];
                let text = unified(base, target, d, percent);
                match (l.base, l.target) {
                    (Some(i), Some(j)) => i < base.instructions@.len() && j
                        < target.instructions@.len() && base.instructions@[i as int].text@
                        == target.instructions@[j as int].text@ && holds(
                        text,
                        "  "@ + base.instructions@[i as int].text@ + "\n"@,
                    ),
                    (Some(i), None) => i < base.instructions@.len() && has_offset_line(
                        text,
                        "- "@,
                        base.instructions@[i as int].off,
                        base.instructions@[i as int].text@,
                    ),
                    (None, Some(j)) => j < target.instructions@.len() && has_offset_line(
                        text,
                        "+ "@,
                        target.instructions@[j as int].off,
                        target.instructions@[j as int].text@,
                    ),
                    (None, None) => false,
                }
            },
        holds(
            unified(base, target, d, percent),
            "; "@ + dec(d.matched as nat) + "/"@ + dec(d.total as nat) + " instructions equal ("@
                + percent + "%)\n"@,
        ),
{
    let a = instruction_texts(base);
    let b = instruction_texts(target);
    let s = script(a, b, 0, 0);
    lemma_script(a, b, 0, 0);
    let text = unified(base, target, d, percent);
    let lines = unified_lines(base, target, d, d.lines@.len() as int);
    let counts = "; "@ + dec(d.matched as nat) + "/"@ + dec(d.total as nat)
        + " instructions equal ("@ + percent + "%)\n"@;
    lemma_holds_piece(lines, counts, Seq::empty());
    reveal_strlit("- 0x");
    reveal_strlit("+ 0x");
    reveal_strlit("- ");
    reveal_strlit("+ ");
    reveal_strlit("0x");
    assert("- 0x"@ =~= "- "@ + "0x"@);
    assert("+ 0x"@ =~= "+ "@ + "0x"@);
    assert forall|k: int| 0 <= k < d.lines@.len() implies {
        let l = #[trigger] d.lines@[k];
        match (l.base, l.target) {
            (Some(i), Some(j)) => i < base.instructions@.len() && j < target.instructions@.len()
                && base.instructions@[i as int].text@ == target.instructions@[j as int].text@
                && holds(text, "  "@ + base.instructions@[i as int].text@ + "\n"@),
            (Some(i), None) => i < base.instructions@.len() && has_offset_line(
                text,
                "- "@,
                base.instructions@[i as int].off,
                base.instructions@[i as int].text@,
            ),
            (None, Some(j)) => j < target.instructions@.len() && has_offset_line(
                text,
                "+ "@,
                target.instructions@[j as int].off,
                target.instructions@[j as int].text@,
            ),
            (None, None) => false,
        }
    } by {
        let l = d.lines@[k];
        assert(l.is_step(s[k]));
        lemma_unified_holds(base, target, d, k, d.lines@.len() as int);
        lemma_holds_within(Seq::empty(), lines, counts, unified_line(base, target, l));
        match s[k] {
            Step::Both(i, j) => {
                assert(a[i] == base.instructions@[i].text@);
                assert(b[j] == target.instructions@[j].text@);
            },
            Step::Base(i) => {
                let off = base.instructions@[i].off;
                lemma_padded_hex_is_read(off as nat, 2);
                let digits = pad_front(hex(off as nat), '0', 2);
                assert(digits.len() >= 2);
            },
            Step::Target(j) => {
                let off = target.instructions@[j].off;
                lemma_padded_hex_is_read(off as nat, 2);
                let digits = pad_front(hex(off as nat), '0', 2);
                assert(digits.len() >= 2);
            },
        }
    }
}

// ---------------------------------------------------------------------------
// Objects
// ---------------------------------------------------------------------------

proof fn lemma_origin(ins: Seq<InsDiff>, from: int, j: int)
    requires
        0 <= from <= j < ins.len(),
        ins[j].address is Some,
        forall|k: int| from <= k < j ==> (#[trigger] ins[k]).address is None,
    ensures
        origin_from(ins, from) == ins[j].address->0,
    decreases j - from,
{
    if from < j {
        lemma_origin(ins, from + 1, j);
    }
}

/// The rows of a symbol say what each pair of slots holds. Where nothing differs it is equal;
/// an instruction that only one side has is shown on that side alone; all else is an exchange,
/// with both texts.
pub proof fn lemma_rows_say_what_differs(
    res: ObjdiffResult,
    s: SymbolDiff,
    target: Seq<SymbolDiff>,
    i: int,
)
    requires
        result_of(res, s, target),
        s.counterpart matches Some(t) && t < target.len()
            && target[t as int].instructions@.len() == s.instructions@.len(),
        0 <= i < s.instructions@.len(),
    ensures
        res.rows@.len() == s.instructions@.len(),
        ({
            let row = res.rows@[i]@;
            let l = s.instructions@[i];
            let r = target[s.counterpart->0 as int].instructions@[i];
            &&& l.kind is Same ==> row.kind is Equal && row.base == Some(l.text@) && row.target
                == Some(r.text@)
            &&& l.kind is Delete ==> row.kind is Delete && row.base == Some(l.text@) && row.target
                is None
            &&& l.kind is Insert ==> row.kind is Insert && row.base is None && row.target == Some(
                r.text@,
            )
            &&& l.kind is Replace || l.kind is OpMismatch || l.kind is ArgMismatch ==> row.kind
                is Replace && row.base == Some(l.text@) && row.target == Some(r.text@)
            &&& l.address is None ==> row.base_off is None
        }),
{
    assert(res.rows@[i]@ == row_of(
        s.instructions@[i],
        target[s.counterpart->0 as int].instructions@[i],
        origin(s.instructions@),
    ));
}

/// The offset of a row is how far its instruction is from the first instruction of the base.
pub proof fn lemma_row_offset_is_from_the_first(
    res: ObjdiffResult,
    s: SymbolDiff,
    target: Seq<SymbolDiff>,
    i: int,
    j: int,
)
    requires
        result_of(res, s, target),
        0 <= i < s.instructions@.len(),
        0 <= j < s.instructions@.len(),
        s.instructions@[i].address is Some,
        s.instructions@[j].address is Some,
        forall|k: int| 0 <= k < j ==> (#[trigger] s.instructions@[k]).address is None,
        0 <= s.instructions@[i].address->0 - s.instructions@[j].address->0 < 0x1_0000_0000,
    ensures
        res.rows@[i]@.base_off == Some(
            (s.instructions@[i].address->0 - s.instructions@[j].address->0) as u32,
        ),
{
    lemma_origin(s.instructions@, 0, j);
}

proof fn lemma_same_count(args: Seq<bool>, n: int)
    requires
        0 <= n <= args.len(),
    ensures
        same_count(args, n) <= n,
        same_count(args, n) == n <==> forall|i: int| 0 <= i < n ==> #[trigger] args[i],
        same_count(args, n) == 0 <==> forall|i: int| 0 <= i < n ==> !#[trigger] args[i],
    decreases n,
{
    if n > 0 {
        lemma_same_count(args, n - 1);
    }
}

/// What a pair of slots counts is weighed by the bytes of the target's instruction. It is all
/// where nothing differs and nothing where an instruction is missing or another one. Where
/// operands differ, each that is the same counts one part, and the mnemonic one more, if it
/// is the same.
pub proof fn lemma_credit_counts_what_is_same(l: InsDiff, m: InsDiff, r: InsDiff)
    requires
        l.same_args@.len() < u64::MAX,
        l.same_args == m.same_args,
    ensures
        credit_of(l, r).weight == r.size,
        l.kind is Delete || l.kind is Insert || l.kind is Replace ==> credit_of(l, r).matched == 0,
        l.kind is ArgMismatch && m.kind is OpMismatch ==> credit_of(l, r).matched == credit_of(
            m,
            r,
        ).matched + 1 && credit_of(l, r).parts == credit_of(m, r).parts,
        l.kind is ArgMismatch || l.kind is OpMismatch ==> credit_of(l, r).parts == 1
            + l.same_args@.len(),
        l.kind is ArgMismatch && (forall|i: int|
            0 <= i < l.same_args@.len() ==> #[trigger] l.same_args@[i]) ==> credit_of(l, r).matched
            == credit_of(l, r).parts,
        l.kind is OpMismatch && (forall|i: int|
            0 <= i < l.same_args@.len() ==> !#[trigger] l.same_args@[i]) ==> credit_of(l, r).matched
            == 0,
{
    lemma_same_count(l.same_args@, l.same_args@.len() as int);
}

proof fn lemma_rows_text(
    base: FunctionEntry,
    percent: Seq<char>,
    rows: Seq<ObjdiffRow>,
    k: int,
    n: int,
)
    requires
        0 <= k < n <= rows.len(),
    ensures
        holds(rows_text(base, percent, rows, n), row_line(rows[k]@)),
    decreases n,
{
    let before = rows_text(base, percent, rows, n - 1);
    let all = rows_text(base, percent, rows, n);
    let line = row_line(rows[k]@);
    if k < n - 1 {
        lemma_rows_text(base, percent, rows, k, n - 1);
        let more = all.skip(before.len() as int);
        assert(all =~= before + more);
        lemma_holds_within(Seq::empty(), before, more, line);
    } else {
        let start = all.take(all.len() - line.len());
        assert(all =~= start + line);
        lemma_holds_piece(start, line, Seq::empty());
    }
}

/// Every row is shown, with a mark for what it is: equal, exchanged, removed or added.
pub proof fn lemma_object_rows_are_shown(
    base: FunctionEntry,
    percent: Seq<char>,
    rows: Seq<ObjdiffRow>,
    k: int,
)
    requires
        0 <= k < rows.len(),
    ensures
        ({
            let text = rows_text(base, percent, rows, rows.len() as int);
            let row = rows[k]@;
            &&& row.kind is Insert ==> (row.target matches Some(t) ==> holds(
                text,
                "+ "@ + t + "\n"@,
            ))
            &&& row.base_off matches Some(off) ==> (row.base matches Some(b) ==> {
                &&& row.kind is Equal ==> has_offset_line(text, "  "@, off, b)
                &&& row.kind is Delete ==> has_offset_line(text, "- "@, off, b)
                &&& row.kind is Replace ==> (row.target matches Some(t) ==> exists|
                    spaces: Seq<char>,
                |
                    only(spaces, ' ') && has_offset_line(
                        text,
                        "~ "@,
                        off,
                        #[trigger] (b + spaces) + " -> "@ + t,
                    ))
            })
        }),
{
    let text = rows_text(base, percent, rows, rows.len() as int);
    let row = rows[k]@;
    lemma_rows_text(base, percent, rows, k, rows.len() as int);
    if let Some(off) = row.base_off {
        let digits = pad_front(hex(off as nat), '0', 2);
        lemma_padded_hex_is_read(off as nat, 2);
        assert(digits.len() >= 2);
        if let Some(b) = row.base {
            let at = "0x"@ + digits + ": "@;
            if row.kind is Equal {
                assert("  "@ + at + b + "\n"@ =~= "  "@ + "0x"@ + digits + ": "@ + b + "\n"@);
            }
            if row.kind is Delete {
                assert("- "@ + at + b + "\n"@ =~= "- "@ + "0x"@ + digits + ": "@ + b + "\n"@);
            }
            if row.kind is Replace && row.target is Some {
                let t = row.target->0;
                let spaces = repeated(' ', 28 - b.len());
                assert(pad_back(b, ' ', 28) == b + spaces);
                assert(only(spaces, ' '));
                let whole = (b + spaces) + " -> "@ + t;
                assert("~ "@ + at + (b + spaces) + " -> "@ + t + "\n"@ =~= "~ "@ + "0x"@ + digits
                    + ": "@ + whole + "\n"@);
                assert(has_offset_line(text, "~ "@, off, whole));
            }
        }
    }
}

// ---------------------------------------------------------------------------
// Callees
// ---------------------------------------------------------------------------

proof fn lemma_callee_is_taken(f: FunctionEntry, i: int, n: int)
    requires
        0 <= i < n <= f.instructions@.len(),
        callee(f.instructions@[i].text@) is Some,
    ensures
        callees_upto(f, n).contains(callee(f.instructions@[i].text@)->0),
    decreases n,
{
    let all = callees_upto(f, n);
    let before = callees_upto(f, n - 1);
    let c = callee(f.instructions@[i].text@)->0;
    if i < n - 1 {
        lemma_callee_is_taken(f, i, n - 1);
        let k = before.index_of(c);
        assert(all[k] == c);
    } else {
        assert(all[before.len() as int] == c);
    }
}

/// Whether an operand names a function plainly: it begins with a letter, an underscore or a
/// question mark, has more than three characters, and no space.
pub open spec fn is_plain_name(s: Seq<char>) -> bool {
    &&& s.len() > 3
    &&& ('a' <= s[0] && s[0] <= 'z') || ('A' <= s[0] && s[0] <= 'Z') || s[0] == '_' || s[0] == '?'
    &&& !contains(s, " "@)
}

/// Every function that an instruction calls by a plain name is listed.
pub proof fn lemma_called_functions_are_listed(f: FunctionEntry, i: int, name: Seq<char>)
    requires
        0 <= i < f.instructions@.len(),
        f.instructions@[i].text@ == "call "@ + name,
        trimmed(name) == name,
        is_plain_name(name),
    ensures
        first_seen(callees_upto(f, f.instructions@.len() as int)).contains(name),
{
    let text = f.instructions@[i].text@;
    let n = f.instructions@.len() as int;
    assert(text.take("call "@.len() as int) =~= "call "@);
    assert(text.skip("call "@.len() as int) =~= name);
    assert(without_prefix(text, "call "@) == Some(name));
    lemma_registers_are_short(name);
    assert(named_symbol(name));
    assert(callee(text) == Some(name));
    lemma_callee_is_taken(f, i, n);
    lemma_first_seen(callees_upto(f, n));
}

proof fn lemma_registers_are_short(s: Seq<char>)
    ensures
        register_name(s) ==> s.len() <= 3,
{
    reveal_strlit("eax");
    reveal_strlit("ebx");
    reveal_strlit("ecx");
    reveal_strlit("edx");
    reveal_strlit("esi");
    reveal_strlit("edi");
    reveal_strlit("ebp");
    reveal_strlit("esp");
    reveal_strlit("ax");
    reveal_strlit("bx");
    reveal_strlit("cx");
    reveal_strlit("dx");
    reveal_strlit("al");
    reveal_strlit("bl");
    reveal_strlit("cl");
    reveal_strlit("dl");
    reveal_strlit("ah");
    reveal_strlit("bh");
    reveal_strlit("ch");
    reveal_strlit("dh");
}

/// A call through a register, a local label, memory or an address names no function.
pub proof fn lemma_other_operands_name_nothing(s: Seq<char>)
    ensures
        s.len() > 0 && (s[0] == '.' || s[0] == '[' || ('0' <= s[0] && s[0] <= '9'))
            ==> !named_symbol(s),
        s == "eax"@ || s == "ebx"@ || s == "ecx"@ || s == "edx"@ || s == "esi"@ || s == "edi"@ || s
            == "ebp"@ || s == "esp"@ ==> !named_symbol(s),
        contains(s, " "@) && !contains(s, "::"@) ==> !named_symbol(s),
        s.len() == 0 ==> !named_symbol(s),
{
}

proof fn lemma_hits_upto(
    entries: Seq<FunctionEntry>,
    callees: Seq<Seq<char>>,
    c: Seq<char>,
    n: int,
)
    requires
        0 <= n <= entries.len(),
        occurrences(callees, c) > 0,
    ensures
        forall|k: int|
            0 <= k < n && is_hit((#[trigger] entries[k]).name@, c) ==> hits_upto(
                entries,
                callees,
                c,
                n,
            ).contains(entries[k].name@),
        forall|s: Seq<char>| #[trigger]
            hits_upto(entries, callees, c, n).contains(s) ==> is_hit(s, c) && exists|k: int|
                0 <= k < n && (#[trigger] entries[k]).name@ == s,
    decreases n,
{
    if n > 0 {
        lemma_hits_upto(entries, callees, c, n - 1);
        let before = hits_upto(entries, callees, c, n - 1);
        let all = hits_upto(entries, callees, c, n);
        assert forall|k: int| 0 <= k < n && is_hit((#[trigger] entries[k]).name@, c) implies
            all.contains(entries[k].name@) by {
            if k < n - 1 {
                assert(before.contains(entries[k].name@));
                let j = before.index_of(entries[k].name@);
                assert(all[j] == entries[k].name@);
            } else {
                assert(all[before.len() as int] == entries[k].name@);
            }
        }
        assert forall|s: Seq<char>| #[trigger] all.contains(s) implies is_hit(s, c) && exists|
            k: int,
        | 0 <= k < n && (#[trigger] entries[k]).name@ == s by {
            let j = all.index_of(s);
            if j < before.len() {
                assert(before[j] == s);
                assert(before.contains(s));
                let k = choose|k: int| 0 <= k < n - 1 && (#[trigger] entries[k]).name@ == s;
                assert(entries[k].name@ == s);
            } else {
                assert(entries[n - 1].name@ == s);
            }
        }
    }
}

proof fn lemma_occurs(s: Seq<Seq<char>>, x: Seq<char>)
    requires
        s.contains(x),
    ensures
        occurrences(s, x) > 0,
    decreases s.len(),
{
    let k = s.index_of(x);
    if k < s.len() - 1 {
        assert(s.drop_last()[k] == x);
        lemma_occurs(s.drop_last(), x);
    }
}

/// A callee is resolved to the signatures that call it with an argument list, and to those
/// without one that hold its name: all of them and no others.
pub proof fn lemma_callees_are_resolved(
    entries: Seq<FunctionEntry>,
    callees: Seq<Seq<char>>,
    c: Seq<char>,
)
    requires
        callees.contains(c),
    ensures
        ({
            let sigs = hits_upto(entries, callees, c, entries.len() as int);
            &&& forall|k: int|
                0 <= k < entries.len() && contains((#[trigger] entries[k]).name@, c + "("@)
                    ==> sigs.contains(entries[k].name@)
            &&& forall|k: int|
                0 <= k < entries.len() && !contains((#[trigger] entries[k]).name@, "("@)
                    && contains(entries[k].name@, c) ==> sigs.contains(entries[k].name@)
            &&& forall|s: Seq<char>| #[trigger]
                sigs.contains(s) ==> (contains(s, c + "("@) || (!contains(s, "("@) && contains(
                    s,
                    c,
                ))) && exists|k: int| 0 <= k < entries.len() && (#[trigger] entries[k]).name@ == s
        }),
{
    lemma_occurs(callees, c);
    lemma_hits_upto(entries, callees, c, entries.len() as int);
}

proof fn lemma_signature_lines(c: Seq<char>, sigs: Seq<Seq<char>>, k: int, n: int)
    requires
        0 <= k < n <= sigs.len(),
    ensures
        holds(signature_lines(c, sigs, n), "  "@ + c + "\t-> "@ + sigs[k] + "\n"@),
    decreases n,
{
    let before = signature_lines(c, sigs, n - 1);
    let last = "  "@ + c + "\t-> "@ + sigs[n - 1] + "\n"@;
    if k < n - 1 {
        lemma_signature_lines(c, sigs, k, n - 1);
        lemma_holds_within(Seq::empty(), before, last, "  "@ + c + "\t-> "@ + sigs[k] + "\n"@);
    } else {
        lemma_holds_piece(before, last, Seq::empty());
    }
}

proof fn lemma_callees_text(
    f: FunctionEntry,
    callees: Seq<Seq<char>>,
    resolved: Seq<Resolved>,
    k: int,
    n: int,
)
    requires
        0 <= k < n <= callees.len(),
    ensures
        holds(
            callees_text(f, callees, resolved, n),
            callee_lines(callees[k], found(resolved, callees[k])),
        ),
    decreases n,
{
    let before = callees_text(f, callees, resolved, n - 1);
    let last = callee_lines(callees[n - 1], found(resolved, callees[n - 1]));
    if k < n - 1 {
        lemma_callees_text(f, callees, resolved, k, n - 1);
        lemma_holds_within(
            Seq::empty(),
            before,
            last,
            callee_lines(callees[k], found(resolved, callees[k])),
        );
    } else {
        lemma_holds_piece(before, last, Seq::empty());
    }
}

/// Every callee is shown with each of its signatures, or as unresolved where it has none.
pub proof fn lemma_callees_are_shown(
    f: FunctionEntry,
    callees: Seq<Seq<char>>,
    resolved: Seq<Resolved>,
    k: int,
)
    requires
        0 <= k < callees.len(),
    ensures
        ({
            let text = callees_text(f, callees, resolved, callees.len() as int);
            let sigs = found(resolved, callees[k]);
            &&& sigs.len() == 0 ==> holds(text, "  "@ + callees[k] + "\t-> (unresolved)\n"@)
            &&& forall|j: int|
                0 <= j < sigs.len() ==> holds(
                    text,
                    "  "@ + callees[k] + "\t-> "@ + #[trigger] sigs[j] + "\n"@,
                )
        }),
{
    let text = callees_text(f, callees, resolved, callees.len() as int);
    let sigs = found(resolved, callees[k]);
    let lines = callee_lines(callees[k], sigs);
    lemma_callees_text(f, callees, resolved, k, callees.len() as int);
    let (a, b) = choose|a: Seq<char>, b: Seq<char>|
        text == #[trigger] around(a, lines, b);
    if sigs.len() == 0 {
        let part = "  "@ + callees[k] + "\t-> (unresolved)\n"@;
        lemma_holds_piece(Seq::empty(), part, ""@);
        lemma_holds_within(a, lines, b, part);
    }
    assert forall|j: int| 0 <= j < sigs.len() implies holds(
        text,
        "  "@ + callees[k] + "\t-> "@ + #[trigger] sigs[j] + "\n"@,
    ) by {
        lemma_signature_lines(callees[k], sigs, j, sigs.len() as int);
        lemma_holds_within(a, lines, b, "  "@ + callees[k] + "\t-> "@ + sigs[j] + "\n"@);
    }
}

// ---------------------------------------------------------------------------
// Searches
// ---------------------------------------------------------------------------

/// Whether an entry is asked for: it has the address and the decorated name that are given,
/// and its signature holds the name that is given, in any letter case.
pub open spec fn is_wanted(query: Query, e: FunctionEntry) -> bool {
    &&& query.rva matches Some(rva) ==> e.rva == rva
    &&& query.mangled matches Some(m) ==> e.mangled@ == m@
    &&& query.name matches Some(n) ==> contains(lowercase(e.name@), lowercase(n@))
}

proof fn lemma_hits(query: Query, entries: Seq<FunctionEntry>, n: int)
    requires
        0 <= n <= entries.len(),
    ensures
        forall|k: int|
            0 <= k < n && is_wanted(query, #[trigger] entries[k]) ==> hits(
                query,
                entries,
                n,
            ).contains(entries[k]),
        forall|e: FunctionEntry| #[trigger]
            hits(query, entries, n).contains(e) ==> is_wanted(query, e) && entries.contains(e),
    decreases n,
{
    if n > 0 {
        lemma_hits(query, entries, n - 1);
        let before = hits(query, entries, n - 1);
        let all = hits(query, entries, n);
        assert forall|k: int| 0 <= k < n && is_wanted(query, #[trigger] entries[k]) implies
            all.contains(entries[k]) by {
            if k < n - 1 {
                assert(before.contains(entries[k]));
                let j = before.index_of(entries[k]);
                assert(all[j] == entries[k]);
            } else {
                assert(all[before.len() as int] == entries[k]);
            }
        }
        assert forall|e: FunctionEntry| #[trigger] all.contains(e) implies is_wanted(query, e)
            && entries.contains(e) by {
            let j = all.index_of(e);
            if j < before.len() {
                assert(before[j] == e);
                assert(before.contains(e));
            } else {
                assert(entries[n - 1] == e);
            }
        }
    }
}

/// A search finds the entries that are asked for, all of them and no others, by file and
/// within a file by address.
pub proof fn lemma_search_finds_what_is_wanted(query: Query, entries: Seq<FunctionEntry>)
    ensures
        ({
            let found = sorted_by(
                hits(query, entries, entries.len() as int),
                |a: FunctionEntry, b: FunctionEntry| entry_le(a, b),
            );
            &&& forall|k: int|
                0 <= k < entries.len() && is_wanted(query, #[trigger] entries[k])
                    ==> found.contains(entries[k])
            &&& forall|e: FunctionEntry| #[trigger]
                found.contains(e) ==> is_wanted(query, e) && entries.contains(e)
            &&& forall|i: int, j: int|
                0 <= i < j < found.len() ==> text_le(
                    (#[trigger] found[i]).file@,
                    (#[trigger] found[j]).file@,
                ) && (found[i].file@ == found[j].file@ ==> found[i].rva <= found[j].rva)
        }),
{
    broadcast use vstd::seq_lib::group_to_multiset_ensures;

    let h = hits(query, entries, entries.len() as int);
    let le = |a: FunctionEntry, b: FunctionEntry| entry_le(a, b);
    let found = sorted_by(h, le);
    lemma_hits(query, entries, entries.len() as int);
    lemma_sorted_by(h, le);
    lemma_entry_rank();
    assert forall|k: int| 0 <= k < entries.len() && is_wanted(query, #[trigger] entries[k]) implies
        found.contains(entries[k]) by {
        assert(h.contains(entries[k]));
        assert(h.to_multiset().count(entries[k]) > 0);
        assert(found.to_multiset().count(entries[k]) > 0);
    }
    assert forall|e: FunctionEntry| #[trigger] found.contains(e) implies is_wanted(query, e)
        && entries.contains(e) by {
        assert(found.to_multiset().count(e) > 0);
        assert(h.to_multiset().count(e) > 0);
        assert(h.contains(e));
    }
    assert forall|i: int, j: int| 0 <= i < j < found.len() implies text_le(
        (#[trigger] found[i]).file@,
        (#[trigger] found[j]).file@,
    ) && (found[i].file@ == found[j].file@ ==> found[i].rva <= found[j].rva) by {
        assert(le(found[i], found[j]));
        lemma_text_le_total(found[i].file@, found[i].file@);
    }
}

/// The statement of a body that covers an offset is the first that begins no later and ends
/// behind it; there is none where none does.
pub proof fn lemma_covering_statement(st: Seq<Statement>, off: u32, i: int)
    requires
        1 <= i,
    ensures
        ({
            let k = covering(st, off, i);
            &&& k != 0 ==> i <= k < st.len() - 1 && st[k].off <= off < st[k].off + st[k].size
                && forall|j: int|
                i <= j < k ==> !((#[trigger] st[j]).off <= off < st[j].off + st[j].size)
            &&& k == 0 ==> forall|j: int|
                i <= j < st.len() - 1 ==> !((#[trigger] st[j]).off <= off < st[j].off + st[j].size)
        }),
    decreases st.len() - i,
{
    if i < st.len() - 1 {
        lemma_covering_statement(st, off, i + 1);
    }
}

/// A function that does not reach beyond the last address contains the addresses from its own
/// on that are closer than its size, and no others.
pub proof fn lemma_function_contains_its_addresses(f: FunctionEntry, va: u32)
    requires
        f.address(0) + f.size <= 0x1_0000_0000,
    ensures
        contains_address(f, va) <==> f.address(0) <= va < f.address(0) + f.size,
{
    let a = f.address(0) as int;
    if va >= a {
        assert((va - a + 0x1_0000_0000) % 0x1_0000_0000 == va - a);
    } else {
        assert((va - a + 0x1_0000_0000) % 0x1_0000_0000 == va - a + 0x1_0000_0000);
    }
}

proof fn lemma_decorated(v: Seq<FunctionEntry>, mangled: Seq<char>, n: int)
    requires
        0 <= n <= v.len(),
    ensures
        forall|k: int|
            0 <= k < n && (#[trigger] v[k]).mangled@ == mangled ==> decorated(
                v,
                mangled,
                n,
            ).contains(v[k]),
        forall|e: FunctionEntry| #[trigger]
            decorated(v, mangled, n).contains(e) ==> e.mangled@ == mangled && v.contains(e),
    decreases n,
{
    if n > 0 {
        lemma_decorated(v, mangled, n - 1);
        let before = decorated(v, mangled, n - 1);
        let all = decorated(v, mangled, n);
        assert forall|k: int| 0 <= k < n && (#[trigger] v[k]).mangled@ == mangled implies
            all.contains(v[k]) by {
            if k < n - 1 {
                assert(before.contains(v[k]));
                let j = before.index_of(v[k]);
                assert(all[j] == v[k]);
            } else {
                assert(all[before.len() as int] == v[k]);
            }
        }
        assert forall|e: FunctionEntry| #[trigger] all.contains(e) implies e.mangled@ == mangled
            && v.contains(e) by {
            let j = all.index_of(e);
            if j < before.len() {
                assert(before[j] == e);
                assert(before.contains(e));
            } else {
                assert(v[n - 1] == e);
            }
        }
    }
}

proof fn lemma_named(v: Seq<FunctionEntry>, name: Seq<char>, n: int)
    requires
        0 <= n <= v.len(),
    ensures
        forall|k: int|
            0 <= k < n && (#[trigger] v[k]).name@ == name ==> named(v, name, n).contains(v[k]),
        forall|e: FunctionEntry| #[trigger]
            named(v, name, n).contains(e) ==> e.name@ == name && v.contains(e),
    decreases n,
{
    if n > 0 {
        lemma_named(v, name, n - 1);
        let before = named(v, name, n - 1);
        let all = named(v, name, n);
        assert forall|k: int| 0 <= k < n && (#[trigger] v[k]).name@ == name implies all.contains(
            v[k],
        ) by {
            if k < n - 1 {
                assert(before.contains(v[k]));
                let j = before.index_of(v[k]);
                assert(all[j] == v[k]);
            } else {
                assert(all[before.len() as int] == v[k]);
            }
        }
        assert forall|e: FunctionEntry| #[trigger] all.contains(e) implies e.name@ == name
            && v.contains(e) by {
            let j = all.index_of(e);
            if j < before.len() {
                assert(before[j] == e);
                assert(before.contains(e));
            } else {
                assert(v[n - 1] == e);
            }
        }
    }
}

/// The function of another build is one with the same decorated name, if there is one; else
/// one with the same signature, if no other has it. Nothing is found only where neither is
/// there, and it is left open only where several have the signature.
pub proof fn lemma_identity_is_by_decorated_name(v: Seq<FunctionEntry>, f: FunctionEntry)
    ensures
        match identity_of(v, f) {
            Ok(Some(e)) => v.contains(e) && (e.mangled@ == f.mangled@ || (e.name@ == f.name@
                && forall|k: int| 0 <= k < v.len() ==> (#[trigger] v[k]).mangled@ != f.mangled@)),
            Ok(None) => forall|k: int|
                0 <= k < v.len() ==> (#[trigger] v[k]).mangled@ != f.mangled@ && v[k].name@
                    != f.name@,
            Err(n) => n >= 2 && forall|k: int|
                0 <= k < v.len() ==> (#[trigger] v[k]).mangled@ != f.mangled@,
        },
{
    broadcast use vstd::seq_lib::group_to_multiset_ensures;

    let d0 = decorated(v, f.mangled@, v.len() as int);
    let le = |a: FunctionEntry, b: FunctionEntry| entry_le(a, b);
    let d = decorated_in_order(v, f.mangled@);
    let n = named(v, f.name@, v.len() as int);
    lemma_decorated(v, f.mangled@, v.len() as int);
    lemma_named(v, f.name@, v.len() as int);
    lemma_sorted_by(d0, le);
    if d.len() > 0 {
        assert(d.contains(d[0]));
        assert(d.to_multiset().count(d[0]) > 0);
        assert(d0.to_multiset().count(d[0]) > 0);
        assert(d0.contains(d[0]));
    } else {
        assert forall|k: int| 0 <= k < v.len() implies (#[trigger] v[k]).mangled@ != f.mangled@ by {
            if v[k].mangled@ == f.mangled@ {
                assert(d0.contains(v[k]));
            }
        }
        if n.len() == 1 {
            assert(n.contains(n[0]));
        }
        if n.len() == 0 {
            assert forall|k: int| 0 <= k < v.len() implies (#[trigger] v[k]).name@ != f.name@ by {
                if v[k].name@ == f.name@ {
                    assert(n.contains(v[k]));
                }
            }
        }
    }
}

/// A view of one side is shown exactly where the function was found on that side, and a
/// comparison exactly where it was found on both.
pub proof fn lemma_views_need_their_sides(s: Sides)
    ensures
        action_for("target"@, s) is Target <==> s.target,
        action_for("base"@, s) is Base <==> s.base,
        action_for("structure"@, s) is Structure <==> s.target || s.base,
        action_for("info"@, s) is Info <==> s.target || s.base,
        action_for("callees"@, s) is Callees <==> s.target || s.base,
        action_for("diff"@, s) is Diff <==> s.target && s.base,
        action_for("structure-diff"@, s) is StructureDiff <==> s.target && s.base,
{
    reveal_strlit("target");
    reveal_strlit("base");
    reveal_strlit("structure");
    reveal_strlit("info");
    reveal_strlit("callees");
    reveal_strlit("diff");
    reveal_strlit("structure-diff");
    assert("target"@.len() == 6 && "base"@.len() == 4 && "structure"@.len() == 9 && "info"@.len()
        == 4 && "callees"@.len() == 7 && "diff"@.len() == 4 && "structure-diff"@.len() == 14);
    assert("base"@[0] == 'b' && "info"@[0] == 'i' && "diff"@[0] == 'd');
}

} // verus!
