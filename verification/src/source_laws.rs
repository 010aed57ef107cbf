//! What the stub of a function says.

use crate::field_attributes::{lemma_number_of_dec, number_of};
use crate::formatter::{padding, signature, Formatter, MAX_PAD_SPACE};
use crate::guid::digit_value;
use crate::number::{dec, dec_int, hex, pad_front};
use crate::number_laws::{lemma_hex_is_read, lemma_padded_hex_is_read, signed_read};
use crate::order::{is_rank, is_sorted, lemma_sorted_by};
use crate::parts::{holds, lacks, lemma_holds_itself, lemma_holds_piece, lemma_holds_within, only};
use crate::search::{ends_with, starts_with};
use crate::source_function::{address, block_lines, body_heading, body_text, by_line, callsite_lines,
    constant_lines, distance, distance_text, gap_lines, line_behind, line_le, loaded, local_lines,
    return_line, section, statement_line, statement_lines, static_lines, stub, stub_heading,
    stub_sections, symbol_lines, typedef_lines, FunctionModel, Statement};
use crate::text::byte_len;
use crate::type_builder::NamespaceModel;
use vstd::prelude::*;

verus! {

// ---------------------------------------------------------------------------
// Statements
// ---------------------------------------------------------------------------

/// Whether a line is made of the given fields: the first in angle brackets, the next behind
/// the first bar, the third behind the second, and behind it what else is said. No field has
/// a bar, so that a line has its fields in one way only.
pub open spec fn has_fields(
    line: Seq<char>,
    at: Seq<char>,
    from: Seq<char>,
    to: Seq<char>,
    rest: Seq<char>,
) -> bool {
    &&& line == "\t// <"@ + at + ">|"@ + from + "|"@ + to + rest
    &&& lacks(at, '|')
    &&& lacks(from, '|')
    &&& lacks(to, '|') && lacks(to, ':')
    &&& rest.len() > 0 && (rest[0] == '|' || rest[0] == ':')
}

/// How far one address is from another, both taken as numbers with a sign where they are
/// large.
pub open spec fn apart(to: u32, from: u32) -> int {
    (if to < 0x8000_0000 {
        to as int
    } else {
        to - 0x1_0000_0000
    }) - (if from < 0x8000_0000 {
        from as int
    } else {
        from - 0x1_0000_0000
    })
}

proof fn lemma_digits_are_no_bars(s: Seq<char>)
    requires
        forall|i: int| 0 <= i < s.len() ==> digit_value(#[trigger] s[i]) is Some,
    ensures
        lacks(s, '|'),
        lacks(s, ':'),
{
    assert forall|i: int| 0 <= i < s.len() implies #[trigger] s[i] != '|' && s[i] != ':' by {
        assert(digit_value(s[i]) is Some);
        assert(digit_value('|') is None);
        assert(digit_value(':') is None);
    }
}

proof fn lemma_distance_text(d: int, plus: Seq<char>)
    requires
        plus == ""@ || plus == "+"@,
    ensures
        signed_read(distance_text(d, plus)) == Some(d),
        lacks(distance_text(d, plus), '|'),
        lacks(distance_text(d, plus), ':'),
        d < 0 ==> distance_text(d, plus)[0] == '-',
{
    reveal_strlit("");
    reveal_strlit("+");
    reveal_strlit("-");
    reveal_strlit("0x");
    let t = distance_text(d, plus);
    let n = if d >= 0 {
        d as nat
    } else {
        (-d) as nat
    };
    let h = pad_front(hex(n), '0', 3);
    lemma_padded_hex_is_read(n, 3);
    lemma_digits_are_no_bars(h);
    if d >= 0 && plus == ""@ {
        assert(t =~= "0x"@ + h);
        assert(t.skip(2) =~= h);
        assert(t[0] == '0' && t[1] == 'x');
    } else {
        assert(t.skip(3) =~= h);
        assert(t[1] == '0' && t[2] == 'x');
    }
    assert forall|i: int| 0 <= i < t.len() implies #[trigger] t[i] != '|' && t[i] != ':' by {
        if i >= t.len() - h.len() {
            assert(t[i] == h[i - (t.len() - h.len())]);
        }
    }
}

proof fn lemma_address(rva: u32)
    ensures
        lacks(address(rva), '|'),
        rva <= 0xffff_ffff - 0x1_0000 ==> signed_read(address(rva)) == Some(rva + 0x1_0000int),
{
    reveal_strlit("0x");
    let t = address(rva);
    let v = loaded(rva) as nat;
    lemma_hex_is_read(v);
    lemma_digits_are_no_bars(hex(v));
    assert(t.skip(2) =~= hex(v));
    assert forall|i: int| 0 <= i < t.len() implies #[trigger] t[i] != '|' by {
        if i >= 2 {
            assert(t[i] == hex(v)[i - 2]);
        }
    }
}

/// What the line of a statement says behind its numbers: the block that opens at it, where
/// one does, and its source line.
pub open spec fn is_rest_of_line(rest: Seq<char>, s: Statement) -> bool {
    exists|line: Seq<char>|
        number_of(line) == s.line_start && rest == (if s.depth == 0 {
            ""@
        } else {
            "|["@ + dec_int(s.depth as int) + "]"@
        }) + #[trigger] (":'"@ + line + "'\n"@)
}

/// The line of a statement with one behind it shows its address in the loaded image, how far
/// it is from the first statement, and how far the next statement is from it.
pub proof fn lemma_statement_line_shows_distances(st: Seq<Statement>, i: int)
    requires
        0 <= i,
        i + 1 < st.len(),
    ensures
        exists|at: Seq<char>, from: Seq<char>, to: Seq<char>, rest: Seq<char>|
            {
                &&& #[trigger] has_fields(statement_line(st, i), at, from, to, rest)
                &&& st[i].rva <= 0xffff_ffff - 0x1_0000 ==> signed_read(at) == Some(
                    st[i].rva + 0x1_0000int,
                )
                &&& signed_read(from) == Some(apart(st[i].rva, st[0].rva))
                &&& signed_read(to) == Some(apart(st[i + 1].rva, st[i].rva))
                &&& is_rest_of_line(rest, st[i])
            },
{
    let s = st[i];
    let at = address(s.rva);
    let from = distance_text(distance(s.rva, st[0].rva), ""@);
    let to = distance_text(distance(st[i + 1].rva, s.rva), "+"@);
    let line = dec(s.line_start as nat);
    let block = if s.depth == 0 {
        ""@
    } else {
        "|["@ + dec_int(s.depth as int) + "]"@
    };
    let rest = block + (":'"@ + line + "'\n"@);
    lemma_address(s.rva);
    lemma_distance_text(distance(s.rva, st[0].rva), ""@);
    lemma_distance_text(distance(st[i + 1].rva, s.rva), "+"@);
    lemma_number_of_dec(s.line_start as nat);
    assert(number_of(line) == s.line_start);
    assert(is_rest_of_line(rest, s));
    reveal_strlit("|[");
    reveal_strlit(":'");
    reveal_strlit("");
    assert(rest[0] == '|' || rest[0] == ':') by {
        if s.depth == 0 {
            assert(rest =~= ":'"@ + line + "'\n"@);
        } else {
            assert(block[0] == '|');
        }
    }
    assert(statement_line(st, i) =~= "\t// <"@ + at + ">|"@ + from + "|"@ + to + rest);
    assert(has_fields(statement_line(st, i), at, from, to, rest));
}

/// How far a statement is from the first and how far the next is from it add up to how far
/// the next is from the first, as the lines of the two show it.
pub proof fn lemma_shown_distances_add_up(st: Seq<Statement>, i: int)
    requires
        0 <= i,
        i + 2 < st.len(),
    ensures
        exists|
            at: Seq<char>,
            from: Seq<char>,
            to: Seq<char>,
            rest: Seq<char>,
            next_at: Seq<char>,
            next_from: Seq<char>,
            next_to: Seq<char>,
            next_rest: Seq<char>,
        |
            {
                &&& #[trigger] has_fields(statement_line(st, i), at, from, to, rest)
                &&& #[trigger] has_fields(
                    statement_line(st, i + 1),
                    next_at,
                    next_from,
                    next_to,
                    next_rest,
                )
                &&& signed_read(from) is Some && signed_read(to) is Some
                &&& signed_read(next_from) == Some(signed_read(from)->0 + signed_read(to)->0)
            },
{
    lemma_statement_line_shows_distances(st, i);
    lemma_statement_line_shows_distances(st, i + 1);
    let (at, from, to, rest) = choose|
        at: Seq<char>,
        from: Seq<char>,
        to: Seq<char>,
        rest: Seq<char>,
    |
        {
            &&& #[trigger] has_fields(statement_line(st, i), at, from, to, rest)
            &&& signed_read(from) == Some(apart(st[i].rva, st[0].rva))
            &&& signed_read(to) == Some(apart(st[i + 1].rva, st[i].rva))
        };
    let (next_at, next_from, next_to, next_rest) = choose|
        at: Seq<char>,
        from: Seq<char>,
        to: Seq<char>,
        rest: Seq<char>,
    |
        {
            &&& #[trigger] has_fields(statement_line(st, i + 1), at, from, to, rest)
            &&& signed_read(from) == Some(apart(st[i + 1].rva, st[0].rva))
        };
    assert(has_fields(statement_line(st, i), at, from, to, rest));
    assert(has_fields(statement_line(st, i + 1), next_at, next_from, next_to, next_rest));
}

// ---------------------------------------------------------------------------
// The body
// ---------------------------------------------------------------------------

/// The lines of numbers from zero up to, not including, `n`.
pub open spec fn has_gap_lines(s: Seq<char>, n: int) -> bool {
    forall|k: int| 0 <= k < n ==> holds(s, "\t// <"@ + #[trigger] dec(k as nat) + ">\n"@)
}

proof fn lemma_gap_lines(n: int)
    ensures
        has_gap_lines(gap_lines(n), n),
        n <= 0 ==> gap_lines(n).len() == 0,
    decreases n,
{
    reveal_strlit("");
    if n > 0 {
        lemma_gap_lines(n - 1);
        let before = gap_lines(n - 1);
        let line = "\t// <"@ + dec((n - 1) as nat) + ">\n"@;
        assert(gap_lines(n) == before + line);
        assert forall|k: int| 0 <= k < n implies holds(
            gap_lines(n),
            "\t// <"@ + #[trigger] dec(k as nat) + ">\n"@,
        ) by {
            if k < n - 1 {
                lemma_holds_within(
                    Seq::empty(),
                    before,
                    line,
                    "\t// <"@ + dec(k as nat) + ">\n"@,
                );
            } else {
                lemma_holds_piece(before, line, Seq::empty());
            }
        }
    }
}

proof fn lemma_statement_lines_hold(proc_start: u32, st: Seq<Statement>, i: int, n: int)
    requires
        0 < i < n <= st.len(),
        i < st.len() - 1,
    ensures
        holds(statement_lines(proc_start, st, n), statement_line(st, i)),
    decreases n,
{
    let before = statement_lines(proc_start, st, n - 1);
    let gap = gap_lines(st[n - 1].line_start - line_behind(proc_start, st, n - 1));
    let all = statement_lines(proc_start, st, n);
    let line = statement_line(st, i);
    if i < n - 1 {
        lemma_statement_lines_hold(proc_start, st, i, n - 1);
        let more = all.skip(before.len() as int);
        lemma_holds_within(Seq::empty(), before, more, line);
        assert(all =~= before + more);
    } else {
        lemma_holds_piece(before + gap, line, Seq::empty());
    }
}

proof fn lemma_body_in_stub(f: FunctionModel, ns: NamespaceModel, part: Seq<char>)
    requires
        holds(body_text(f), part),
    ensures
        holds(stub(f, ns), part),
{
    reveal(stub);
    lemma_holds_within(
        stub_heading(f, ns) + stub_sections(f) + return_line(f.fn_t.return_type),
        body_text(f),
        "}\n\n"@,
        part,
    );
}

/// The statements of a stub stand in the order of their source lines, and each but the first
/// and the last, which are the braces, has a line. The heading counts the lines between the
/// braces.
pub proof fn lemma_stub_shows_statements(f: FunctionModel, ns: NamespaceModel)
    ensures
        by_line(f).len() == f.statements.len(),
        by_line(f).to_multiset() == f.statements.to_multiset(),
        forall|i: int, j: int|
            0 <= i < j < by_line(f).len() ==> (#[trigger] by_line(f)[i]).line_start <= (
            #[trigger] by_line(f)[j]).line_start,
        forall|i: int|
            0 < i < by_line(f).len() - 1 ==> holds(
                stub(f, ns),
                #[trigger] statement_line(by_line(f), i),
            ),
        holds(stub(f, ns), "\t// FUNCTION BODY["@ + address(f.offset) + "]"@),
        by_line(f).len() >= 2 ==> exists|count: Seq<char>|
            holds(
                stub(f, ns),
                "\t// FUNCTION BODY["@ + address(f.offset) + "]: "@ + #[trigger] (count + "\n"@),
            ) && (apart(by_line(f).last().line_start, by_line(f)[0].line_start) >= 1
                ==> number_of(count) == apart(
                by_line(f).last().line_start,
                by_line(f)[0].line_start,
            ) - 1),
{
    let st = by_line(f);
    let n = st.len() as int;
    let le = |a: Statement, b: Statement| line_le(a, b);
    lemma_sorted_by(f.statements, le);
    assert(is_rank(le));
    assert(is_sorted(st, le));
    assert forall|i: int, j: int| 0 <= i < j < st.len() implies (#[trigger] st[i]).line_start <= (
    #[trigger] st[j]).line_start by {
        assert(le(st[i], st[j]));
    }
    let head = body_heading(f, st);
    let lines = statement_lines(f.proc_start, st, n);
    let gap = gap_lines(f.proc_end - line_behind(f.proc_start, st, n));
    let behind = gap + "\t// ******\n"@;
    assert(body_text(f) =~= head + lines + behind);
    assert forall|i: int| 0 < i < n - 1 implies holds(
        stub(f, ns),
        #[trigger] statement_line(st, i),
    ) by {
        lemma_statement_lines_hold(f.proc_start, st, i, n);
        lemma_holds_within(head, lines, behind, statement_line(st, i));
        lemma_body_in_stub(f, ns, statement_line(st, i));
    }
    let first = "\t// FUNCTION BODY["@ + address(f.offset) + "]"@;
    let more = if n < 2 {
        ""@
    } else {
        ": "@ + dec_int(distance(st.last().line_start, st[0].line_start) - 1)
    };
    lemma_holds_piece(Seq::empty(), first, more + "\n"@);
    assert(head =~= Seq::empty() + first + (more + "\n"@));
    lemma_holds_within(Seq::empty(), head, lines + behind, first);
    assert(body_text(f) =~= Seq::<char>::empty() + head + (lines + behind));
    lemma_body_in_stub(f, ns, first);
    if n >= 2 {
        let d = distance(st.last().line_start, st[0].line_start) - 1;
        let count = dec_int(d);
        let whole = "\t// FUNCTION BODY["@ + address(f.offset) + "]: "@ + (count + "\n"@);
        reveal_strlit("]");
        reveal_strlit(": ");
        reveal_strlit("]: ");
        assert("]: "@ =~= "]"@ + ": "@);
        assert(head =~= whole);
        lemma_holds_itself(head);
        lemma_holds_within(Seq::empty(), head, lines + behind, whole);
        lemma_body_in_stub(f, ns, whole);
        if d >= 0 {
            lemma_number_of_dec(d as nat);
        }
    }
}

/// How many lines a text ends.
pub open spec fn line_ends(s: Seq<char>) -> nat
    decreases s.len(),
{
    if s.len() == 0 {
        0
    } else {
        line_ends(s.drop_last()) + if s.last() == '\n' {
            1nat
        } else {
            0
        }
    }
}

proof fn lemma_line_ends_add(a: Seq<char>, b: Seq<char>)
    ensures
        line_ends(a + b) == line_ends(a) + line_ends(b),
    decreases b.len(),
{
    if b.len() == 0 {
        assert(a + b =~= a);
    } else {
        lemma_line_ends_add(a, b.drop_last());
        assert((a + b).drop_last() =~= a + b.drop_last());
        assert((a + b).last() == b.last());
    }
}

proof fn lemma_no_line_ends(s: Seq<char>)
    requires
        lacks(s, '\n'),
    ensures
        line_ends(s) == 0,
    decreases s.len(),
{
    if s.len() > 0 {
        let init = s.drop_last();
        assert forall|i: int| 0 <= i < init.len() implies #[trigger] init[i] != '\n' by {
            assert(init[i] == s[i]);
        }
        lemma_no_line_ends(init);
        assert(s[s.len() - 1] != '\n');
    }
}

proof fn lemma_gap_count(n: int)
    requires
        n >= 0,
    ensures
        line_ends(gap_lines(n)) == n,
    decreases n,
{
    reveal_strlit("");
    if n > 0 {
        lemma_gap_count(n - 1);
        let d = dec((n - 1) as nat);
        lemma_number_of_dec((n - 1) as nat);
        reveal_strlit("\t// <");
        reveal_strlit(">\n");
        let start = "\t// <"@ + d + seq!['>'];
        let line = "\t// <"@ + d + ">\n"@;
        assert forall|i: int| 0 <= i < start.len() implies #[trigger] start[i] != '\n' by {
            if "\t// <"@.len() <= i < start.len() - 1 {
                assert(start[i] == d[i - "\t// <"@.len()]);
            }
        }
        lemma_no_line_ends(start);
        assert(line.drop_last() =~= start);
        assert(line.last() == '\n');
        lemma_line_ends_add(gap_lines(n - 1), line);
    }
}

proof fn lemma_gap_before_statement(proc_start: u32, st: Seq<Statement>, i: int, n: int)
    requires
        0 < i < n <= st.len(),
        i < st.len() - 1,
    ensures
        holds(
            statement_lines(proc_start, st, n),
            gap_lines(st[i].line_start - st[i - 1].line_start - 1) + statement_line(st, i),
        ),
    decreases n,
{
    let before = statement_lines(proc_start, st, n - 1);
    let gap = gap_lines(st[n - 1].line_start - line_behind(proc_start, st, n - 1));
    let all = statement_lines(proc_start, st, n);
    let part = gap_lines(st[i].line_start - st[i - 1].line_start - 1) + statement_line(st, i);
    if i < n - 1 {
        lemma_gap_before_statement(proc_start, st, i, n - 1);
        let more = all.skip(before.len() as int);
        lemma_holds_within(Seq::empty(), before, more, part);
        assert(all =~= before + more);
    } else {
        lemma_holds_piece(before, gap + statement_line(st, i), Seq::empty());
        assert(all =~= before + (gap + statement_line(st, i)));
    }
}

/// Before the line of a statement stands one line for each source line between the statement
/// before it and itself, numbered from zero.
pub proof fn lemma_stub_counts_lines_between(f: FunctionModel, ns: NamespaceModel, i: int)
    requires
        0 < i < by_line(f).len() - 1,
    ensures
        exists|gap: Seq<char>|
            {
                let between = by_line(f)[i].line_start - by_line(f)[i - 1].line_start - 1;
                &&& holds(stub(f, ns), #[trigger] (gap + statement_line(by_line(f), i)))
                &&& has_gap_lines(gap, between)
                &&& line_ends(gap) == if between > 0 {
                    between
                } else {
                    0
                }
            },
{
    let st = by_line(f);
    let n = st.len() as int;
    let between = st[i].line_start - st[i - 1].line_start - 1;
    let gap = gap_lines(between);
    let part = gap + statement_line(st, i);
    lemma_gap_lines(between);
    if between > 0 {
        lemma_gap_count(between);
    }
    lemma_gap_before_statement(f.proc_start, st, i, n);
    let head = body_heading(f, st);
    let lines = statement_lines(f.proc_start, st, n);
    let behind = gap_lines(f.proc_end - line_behind(f.proc_start, st, n)) + "\t// ******\n"@;
    assert(body_text(f) =~= head + lines + behind);
    lemma_holds_within(head, lines, behind, part);
    lemma_body_in_stub(f, ns, part);
}

// ---------------------------------------------------------------------------
// The sections
// ---------------------------------------------------------------------------

/// Whether a text holds two parts with nothing but tabs between them.
pub open spec fn holds_apart(s: Seq<char>, a: Seq<char>, b: Seq<char>) -> bool {
    exists|tabs: Seq<char>| only(tabs, '\t') && holds(s, #[trigger] (a + tabs) + b)
}

proof fn lemma_apart_within(x: Seq<char>, s: Seq<char>, y: Seq<char>, a: Seq<char>, b: Seq<char>)
    requires
        holds_apart(s, a, b),
    ensures
        holds_apart(x + s + y, a, b),
        holds_apart(x + s, a, b),
        holds_apart(s + y, a, b),
{
    let tabs = choose|tabs: Seq<char>| only(tabs, '\t') && holds(s, #[trigger] (a + tabs) + b);
    lemma_holds_within(x, s, y, (a + tabs) + b);
}

proof fn lemma_local_line(f: FunctionModel, i: int, n: int)
    requires
        0 <= i < n <= f.locals.len(),
    ensures
        holds_apart(
            local_lines(f, n),
            "\t// "@ + f.locals[i].1 + " "@,
            f.locals[i].0 + (if f.locals[i].2 != 0 {
                "<"@ + dec(f.locals[i].2 as nat) + ">"@
            } else {
                ""@
            }) + "\n"@,
        ),
    decreases n,
{
    let before = local_lines(f, n - 1);
    let all = local_lines(f, n);
    let (name, ty, scope) = f.locals[i];
    let a = "\t// "@ + ty + " "@;
    let b = name + (if scope != 0 {
        "<"@ + dec(scope as nat) + ">"@
    } else {
        ""@
    }) + "\n"@;
    if i < n - 1 {
        lemma_local_line(f, i, n - 1);
        let more = all.skip(before.len() as int);
        assert(all =~= before + more);
        lemma_apart_within(Seq::empty(), before, more, a, b);
    } else {
        let tabs = padding((3 + byte_len(ty) + 1) as int, MAX_PAD_SPACE as int);
        assert(only(tabs, '\t'));
        lemma_holds_piece(before, (a + tabs) + b, Seq::empty());
        assert(all =~= before + ((a + tabs) + b));
        assert(holds(all, (a + tabs) + b));
    }
}

proof fn lemma_constant_line(f: FunctionModel, i: int, n: int)
    requires
        0 <= i < n <= f.constants.len(),
    ensures
        holds_apart(
            constant_lines(f, n),
            "\t// const "@ + f.constants[i].1 + " "@,
            f.constants[i].0 + " = "@ + f.constants[i].2.text() + ";\n"@,
        ),
    decreases n,
{
    let before = constant_lines(f, n - 1);
    let all = constant_lines(f, n);
    let (name, ty, value) = f.constants[i];
    let a = "\t// const "@ + ty + " "@;
    let b = name + " = "@ + value.text() + ";\n"@;
    if i < n - 1 {
        lemma_constant_line(f, i, n - 1);
        let more = all.skip(before.len() as int);
        assert(all =~= before + more);
        lemma_apart_within(Seq::empty(), before, more, a, b);
    } else {
        let tabs = padding((9 + byte_len(ty) + 1) as int, MAX_PAD_SPACE as int);
        assert(only(tabs, '\t'));
        lemma_holds_piece(before, (a + tabs) + b, Seq::empty());
        assert(all =~= before + ((a + tabs) + b));
        assert(holds(all, (a + tabs) + b));
    }
}

proof fn lemma_static_line(f: FunctionModel, i: int, n: int)
    requires
        0 <= i < n <= f.statics.len(),
    ensures
        holds_apart(
            static_lines(f, n),
            "\t// static "@ + f.statics[i].1 + " "@,
            f.statics[i].0 + " = <"@ + address(f.statics[i].2) + ">;\n"@,
        ),
    decreases n,
{
    let before = static_lines(f, n - 1);
    let all = static_lines(f, n);
    let (name, ty, rva) = f.statics[i];
    let a = "\t// static "@ + ty + " "@;
    let b = name + " = <"@ + address(rva) + ">;\n"@;
    if i < n - 1 {
        lemma_static_line(f, i, n - 1);
        let more = all.skip(before.len() as int);
        assert(all =~= before + more);
        lemma_apart_within(Seq::empty(), before, more, a, b);
    } else {
        let tabs = padding((10 + byte_len(ty) + 1) as int, MAX_PAD_SPACE as int);
        assert(only(tabs, '\t'));
        lemma_holds_piece(before, (a + tabs) + b, Seq::empty());
        assert(all =~= before + ((a + tabs) + b));
        assert(holds(all, (a + tabs) + b));
    }
}

proof fn lemma_block_line(f: FunctionModel, i: int, n: int)
    requires
        0 <= i < n <= f.blocks.len(),
    ensures
        holds(
            block_lines(f, n),
            "\t// <"@ + address(f.blocks[i].0) + "><"@ + dec_int(f.blocks[i].1 as int) + ">\n"@,
        ),
    decreases n,
{
    let before = block_lines(f, n - 1);
    let last = "\t// <"@ + address(f.blocks[n - 1].0) + "><"@ + dec_int(f.blocks[n - 1].1 as int)
        + ">\n"@;
    if i < n - 1 {
        lemma_block_line(f, i, n - 1);
        lemma_holds_within(
            Seq::empty(),
            before,
            last,
            "\t// <"@ + address(f.blocks[i].0) + "><"@ + dec_int(f.blocks[i].1 as int) + ">\n"@,
        );
    } else {
        lemma_holds_piece(before, last, Seq::empty());
    }
}

proof fn lemma_typedef_line(typedefs: Seq<(Seq<char>, Seq<char>)>, i: int, n: int)
    requires
        0 <= i < n <= typedefs.len(),
    ensures
        holds(
            typedef_lines(typedefs, n),
            "\t// typedef\n\t// \t"@ + typedefs[i].0 + "\n\t// \t"@ + typedefs[i].1 + ";\n\n"@,
        ),
    decreases n,
{
    let before = typedef_lines(typedefs, n - 1);
    let last = "\t// typedef\n\t// \t"@ + typedefs[n - 1].0 + "\n\t// \t"@ + typedefs[n - 1].1
        + ";\n\n"@;
    if i < n - 1 {
        lemma_typedef_line(typedefs, i, n - 1);
        lemma_holds_within(
            Seq::empty(),
            before,
            last,
            "\t// typedef\n\t// \t"@ + typedefs[i].0 + "\n\t// \t"@ + typedefs[i].1 + ";\n\n"@,
        );
    } else {
        lemma_holds_piece(before, last, Seq::empty());
    }
}

proof fn lemma_callsite_line(f: FunctionModel, i: int, n: int)
    requires
        0 <= i < n <= f.callsites.len(),
    ensures
        holds(
            callsite_lines(f, n),
            "\t// <"@ + address(f.callsites[i].0) + "> -> "@ + f.callsites[i].1 + "\n"@,
        ),
    decreases n,
{
    let before = callsite_lines(f, n - 1);
    let last = "\t// <"@ + address(f.callsites[n - 1].0) + "> -> "@ + f.callsites[n - 1].1 + "\n"@;
    if i < n - 1 {
        lemma_callsite_line(f, i, n - 1);
        lemma_holds_within(
            Seq::empty(),
            before,
            last,
            "\t// <"@ + address(f.callsites[i].0) + "> -> "@ + f.callsites[i].1 + "\n"@,
        );
    } else {
        lemma_holds_piece(before, last, Seq::empty());
    }
}

proof fn lemma_symbol_line(f: FunctionModel, i: int, n: int)
    requires
        0 <= i < n <= f.symbols.len(),
    ensures
        holds(symbol_lines(f, n), "\t// "@ + f.symbols[i] + "\n"@),
    decreases n,
{
    let before = symbol_lines(f, n - 1);
    let last = "\t// "@ + f.symbols[n - 1] + "\n"@;
    if i < n - 1 {
        lemma_symbol_line(f, i, n - 1);
        lemma_holds_within(Seq::empty(), before, last, "\t// "@ + f.symbols[i] + "\n"@);
    } else {
        lemma_holds_piece(before, last, Seq::empty());
    }
}

proof fn lemma_seven(
    s1: Seq<char>,
    s2: Seq<char>,
    s3: Seq<char>,
    s4: Seq<char>,
    s5: Seq<char>,
    s6: Seq<char>,
    s7: Seq<char>,
)
    ensures
        ({
            let all = s1 + s2 + s3 + s4 + s5 + s6 + s7;
            &&& holds(all, s1)
            &&& holds(all, s2)
            &&& holds(all, s3)
            &&& holds(all, s4)
            &&& holds(all, s5)
            &&& holds(all, s6)
            &&& holds(all, s7)
        }),
{
    let none = Seq::<char>::empty();
    let a2 = s1 + s2;
    let a3 = a2 + s3;
    let a4 = a3 + s4;
    let a5 = a4 + s5;
    let a6 = a5 + s6;
    lemma_holds_piece(none, s1, s2);
    lemma_holds_piece(s1, s2, none);
    lemma_holds_piece(a2, s3, none);
    lemma_holds_piece(a3, s4, none);
    lemma_holds_piece(a4, s5, none);
    lemma_holds_piece(a5, s6, none);
    lemma_holds_piece(a6, s7, none);
    lemma_holds_within(none, a2, s3, s1);
    lemma_holds_within(none, a2, s3, s2);
    lemma_holds_within(none, a3, s4, s1);
    lemma_holds_within(none, a3, s4, s2);
    lemma_holds_within(none, a3, s4, s3);
    lemma_holds_within(none, a4, s5, s1);
    lemma_holds_within(none, a4, s5, s2);
    lemma_holds_within(none, a4, s5, s3);
    lemma_holds_within(none, a4, s5, s4);
    lemma_holds_within(none, a5, s6, s1);
    lemma_holds_within(none, a5, s6, s2);
    lemma_holds_within(none, a5, s6, s3);
    lemma_holds_within(none, a5, s6, s4);
    lemma_holds_within(none, a5, s6, s5);
    lemma_holds_within(none, a6, s7, s1);
    lemma_holds_within(none, a6, s7, s2);
    lemma_holds_within(none, a6, s7, s3);
    lemma_holds_within(none, a6, s7, s4);
    lemma_holds_within(none, a6, s7, s5);
    lemma_holds_within(none, a6, s7, s6);
}

proof fn lemma_in_middle(
    a: Seq<char>,
    b: Seq<char>,
    c: Seq<char>,
    d: Seq<char>,
    e: Seq<char>,
    part: Seq<char>,
)
    requires
        holds(b, part),
    ensures
        holds(a + b + c + d + e, part),
{
    lemma_holds_within(a, b, c, part);
    lemma_holds_within(Seq::empty(), a + b + c, d, part);
    lemma_holds_within(Seq::empty(), a + b + c + d, e, part);
}

proof fn lemma_ends_of_five(
    a: Seq<char>,
    b: Seq<char>,
    c: Seq<char>,
    d: Seq<char>,
    e: Seq<char>,
    end: Seq<char>,
)
    requires
        ends_with(d, end),
    ensures
        starts_with(a + b + c + d + e, a),
        ends_with(a + b + c + d + e, end + e),
{
    let all = a + b + c + d + e;
    assert(all.take(a.len() as int) =~= a);
    let d1 = d.take(d.len() - end.len());
    assert(d =~= d1 + end);
    assert(all.skip(all.len() - (end + e).len()) =~= end + e);
}

proof fn lemma_sections_in_stub(f: FunctionModel, ns: NamespaceModel)
    ensures
        ({
            let s = stub(f, ns);
            &&& f.locals.len() > 0 ==> holds(
                s,
                "\t// LOCALS\n"@ + local_lines(f, f.locals.len() as int) + "\t// ******\n\n"@,
            )
            &&& f.constants.len() > 0 ==> holds(
                s,
                "\t// CONSTANTS\n"@ + constant_lines(f, f.constants.len() as int)
                    + "\t// ******\n\n"@,
            )
            &&& f.statics.len() > 0 ==> holds(
                s,
                "\t// STATICS\n"@ + static_lines(f, f.statics.len() as int) + "\t// ******\n\n"@,
            )
            &&& f.blocks.len() > 0 ==> holds(
                s,
                "\t// SKIPPED BLOCKS\n"@ + block_lines(f, f.blocks.len() as int)
                    + "\t// ******\n\n"@,
            )
            &&& f.typedefs.len() > 0 ==> holds(
                s,
                "\t// TYPEDEFS\n"@ + typedef_lines(f.typedefs, f.typedefs.len() as int)
                    + "\t// ******\n\n"@,
            )
            &&& f.callsites.len() > 0 ==> holds(
                s,
                "\t// CALL SITE INFO\n"@ + callsite_lines(f, f.callsites.len() as int)
                    + "\t// ******\n\n"@,
            )
            &&& f.symbols.len() > 0 ==> holds(
                s,
                "\t// OTHER SYMBOLS\n"@ + symbol_lines(f, f.symbols.len() as int)
                    + "\t// ******\n\n"@,
            )
        }),
{
    reveal(stub);
    let s1 = section("LOCALS"@, f.locals.len(), local_lines(f, f.locals.len() as int));
    let s2 = section("CONSTANTS"@, f.constants.len(), constant_lines(f, f.constants.len() as int));
    let s3 = section("STATICS"@, f.statics.len(), static_lines(f, f.statics.len() as int));
    let s4 = section("SKIPPED BLOCKS"@, f.blocks.len(), block_lines(f, f.blocks.len() as int));
    let s5 = section(
        "TYPEDEFS"@,
        f.typedefs.len(),
        typedef_lines(f.typedefs, f.typedefs.len() as int),
    );
    let s6 = section(
        "CALL SITE INFO"@,
        f.callsites.len(),
        callsite_lines(f, f.callsites.len() as int),
    );
    let s7 = section("OTHER SYMBOLS"@, f.symbols.len(), symbol_lines(f, f.symbols.len() as int));
    let all = s1 + s2 + s3 + s4 + s5 + s6 + s7;
    assert(stub_sections(f) == all);
    let head = stub_heading(f, ns);
    lemma_seven(s1, s2, s3, s4, s5, s6, s7);
    lemma_in_middle(head, all, return_line(f.fn_t.return_type), body_text(f), "}\n\n"@, s1);
    lemma_in_middle(head, all, return_line(f.fn_t.return_type), body_text(f), "}\n\n"@, s2);
    lemma_in_middle(head, all, return_line(f.fn_t.return_type), body_text(f), "}\n\n"@, s3);
    lemma_in_middle(head, all, return_line(f.fn_t.return_type), body_text(f), "}\n\n"@, s4);
    lemma_in_middle(head, all, return_line(f.fn_t.return_type), body_text(f), "}\n\n"@, s5);
    lemma_in_middle(head, all, return_line(f.fn_t.return_type), body_text(f), "}\n\n"@, s6);
    lemma_in_middle(head, all, return_line(f.fn_t.return_type), body_text(f), "}\n\n"@, s7);
    lemma_titles();
}

/// The titles of the sections as they are written.
proof fn lemma_titles()
    ensures
        "\t// "@ + "LOCALS"@ + "\n"@ == "\t// LOCALS\n"@,
        "\t// "@ + "CONSTANTS"@ + "\n"@ == "\t// CONSTANTS\n"@,
        "\t// "@ + "STATICS"@ + "\n"@ == "\t// STATICS\n"@,
        "\t// "@ + "SKIPPED BLOCKS"@ + "\n"@ == "\t// SKIPPED BLOCKS\n"@,
        "\t// "@ + "TYPEDEFS"@ + "\n"@ == "\t// TYPEDEFS\n"@,
        "\t// "@ + "CALL SITE INFO"@ + "\n"@ == "\t// CALL SITE INFO\n"@,
        "\t// "@ + "OTHER SYMBOLS"@ + "\n"@ == "\t// OTHER SYMBOLS\n"@,
{
    reveal_strlit("\t// ");
    reveal_strlit("\n");
    reveal_strlit("LOCALS");
    reveal_strlit("CONSTANTS");
    reveal_strlit("STATICS");
    reveal_strlit("SKIPPED BLOCKS");
    reveal_strlit("TYPEDEFS");
    reveal_strlit("CALL SITE INFO");
    reveal_strlit("OTHER SYMBOLS");
    reveal_strlit("\t// LOCALS\n");
    reveal_strlit("\t// CONSTANTS\n");
    reveal_strlit("\t// STATICS\n");
    reveal_strlit("\t// SKIPPED BLOCKS\n");
    reveal_strlit("\t// TYPEDEFS\n");
    reveal_strlit("\t// CALL SITE INFO\n");
    reveal_strlit("\t// OTHER SYMBOLS\n");
    assert("\t// "@ + "LOCALS"@ + "\n"@ =~= "\t// LOCALS\n"@);
    assert("\t// "@ + "CONSTANTS"@ + "\n"@ =~= "\t// CONSTANTS\n"@);
    assert("\t// "@ + "STATICS"@ + "\n"@ =~= "\t// STATICS\n"@);
    assert("\t// "@ + "SKIPPED BLOCKS"@ + "\n"@ =~= "\t// SKIPPED BLOCKS\n"@);
    assert("\t// "@ + "TYPEDEFS"@ + "\n"@ =~= "\t// TYPEDEFS\n"@);
    assert("\t// "@ + "CALL SITE INFO"@ + "\n"@ =~= "\t// CALL SITE INFO\n"@);
    assert("\t// "@ + "OTHER SYMBOLS"@ + "\n"@ =~= "\t// OTHER SYMBOLS\n"@);
}

/// Whether a text has a section of the given title that holds a part.
pub open spec fn section_holds(s: Seq<char>, title: Seq<char>, part: Seq<char>) -> bool {
    exists|lines: Seq<char>|
        holds(s, "\t// "@ + title + "\n"@ + lines + "\t// ******\n\n"@) && #[trigger] holds(
            lines,
            part,
        )
}

/// Whether a text has a section of the given title that holds two parts with nothing but
/// tabs between them.
pub open spec fn section_holds_apart(
    s: Seq<char>,
    title: Seq<char>,
    a: Seq<char>,
    b: Seq<char>,
) -> bool {
    exists|lines: Seq<char>|
        holds(s, "\t// "@ + title + "\n"@ + lines + "\t// ******\n\n"@) && #[trigger] holds_apart(
            lines,
            a,
            b,
        )
}

/// The sections of a stub hold everything that its function records: each local with its type
/// and the number of its scope, each constant with its type and value, each static with its
/// type and address, the blocks at which no statement begins, the typedefs, the calls and the
/// other symbols.
pub proof fn lemma_stub_holds_all_records(f: FunctionModel, ns: NamespaceModel)
    ensures
        forall|i: int|
            0 <= i < f.locals.len() ==> section_holds_apart(
                stub(f, ns),
                "LOCALS"@,
                "\t// "@ + (#[trigger] f.locals[i]).1 + " "@,
                f.locals[i].0 + (if f.locals[i].2 != 0 {
                    "<"@ + dec(f.locals[i].2 as nat) + ">"@
                } else {
                    ""@
                }) + "\n"@,
            ),
        forall|i: int|
            0 <= i < f.constants.len() ==> section_holds_apart(
                stub(f, ns),
                "CONSTANTS"@,
                "\t// const "@ + (#[trigger] f.constants[i]).1 + " "@,
                f.constants[i].0 + " = "@ + f.constants[i].2.text() + ";\n"@,
            ),
        forall|i: int|
            0 <= i < f.statics.len() ==> section_holds_apart(
                stub(f, ns),
                "STATICS"@,
                "\t// static "@ + (#[trigger] f.statics[i]).1 + " "@,
                f.statics[i].0 + " = <"@ + address(f.statics[i].2) + ">;\n"@,
            ),
        forall|i: int|
            0 <= i < f.blocks.len() ==> section_holds(
                stub(f, ns),
                "SKIPPED BLOCKS"@,
                "\t// <"@ + address((#[trigger] f.blocks[i]).0) + "><"@ + dec_int(
                    f.blocks[i].1 as int,
                ) + ">\n"@,
            ),
        forall|i: int|
            0 <= i < f.typedefs.len() ==> section_holds(
                stub(f, ns),
                "TYPEDEFS"@,
                "\t// typedef\n\t// \t"@ + (#[trigger] f.typedefs[i]).0 + "\n\t// \t"@
                    + f.typedefs[i].1 + ";\n\n"@,
            ),
        forall|i: int|
            0 <= i < f.callsites.len() ==> section_holds(
                stub(f, ns),
                "CALL SITE INFO"@,
                "\t// <"@ + address((#[trigger] f.callsites[i]).0) + "> -> "@ + f.callsites[i].1
                    + "\n"@,
            ),
        forall|i: int|
            0 <= i < f.symbols.len() ==> section_holds(
                stub(f, ns),
                "OTHER SYMBOLS"@,
                "\t// "@ + (#[trigger] f.symbols[i]) + "\n"@,
            ),
{
    lemma_sections_in_stub(f, ns);
    lemma_titles();
    assert forall|i: int| 0 <= i < f.locals.len() implies section_holds_apart(
        stub(f, ns),
        "LOCALS"@,
        "\t// "@ + (#[trigger] f.locals[i]).1 + " "@,
        f.locals[i].0 + (if f.locals[i].2 != 0 {
            "<"@ + dec(f.locals[i].2 as nat) + ">"@
        } else {
            ""@
        }) + "\n"@,
    ) by {
        lemma_local_line(f, i, f.locals.len() as int);
    }
    assert forall|i: int| 0 <= i < f.constants.len() implies section_holds_apart(
        stub(f, ns),
        "CONSTANTS"@,
        "\t// const "@ + (#[trigger] f.constants[i]).1 + " "@,
        f.constants[i].0 + " = "@ + f.constants[i].2.text() + ";\n"@,
    ) by {
        lemma_constant_line(f, i, f.constants.len() as int);
    }
    assert forall|i: int| 0 <= i < f.statics.len() implies section_holds_apart(
        stub(f, ns),
        "STATICS"@,
        "\t// static "@ + (#[trigger] f.statics[i]).1 + " "@,
        f.statics[i].0 + " = <"@ + address(f.statics[i].2) + ">;\n"@,
    ) by {
        lemma_static_line(f, i, f.statics.len() as int);
    }
    assert forall|i: int| 0 <= i < f.blocks.len() implies section_holds(
        stub(f, ns),
        "SKIPPED BLOCKS"@,
        "\t// <"@ + address((#[trigger] f.blocks[i]).0) + "><"@ + dec_int(f.blocks[i].1 as int)
            + ">\n"@,
    ) by {
        lemma_block_line(f, i, f.blocks.len() as int);
    }
    assert forall|i: int| 0 <= i < f.typedefs.len() implies section_holds(
        stub(f, ns),
        "TYPEDEFS"@,
        "\t// typedef\n\t// \t"@ + (#[trigger] f.typedefs[i]).0 + "\n\t// \t"@ + f.typedefs[i].1
            + ";\n\n"@,
    ) by {
        lemma_typedef_line(f.typedefs, i, f.typedefs.len() as int);
    }
    assert forall|i: int| 0 <= i < f.callsites.len() implies section_holds(
        stub(f, ns),
        "CALL SITE INFO"@,
        "\t// <"@ + address((#[trigger] f.callsites[i]).0) + "> -> "@ + f.callsites[i].1 + "\n"@,
    ) by {
        lemma_callsite_line(f, i, f.callsites.len() as int);
    }
    assert forall|i: int| 0 <= i < f.symbols.len() implies section_holds(
        stub(f, ns),
        "OTHER SYMBOLS"@,
        "\t// "@ + (#[trigger] f.symbols[i]) + "\n"@,
    ) by {
        lemma_symbol_line(f, i, f.symbols.len() as int);
    }
}

/// A stub begins with what it is for, then the signature, behind `inline` where the function
/// is; it ends with its brace.
pub proof fn lemma_stub_begins_with_signature(f: FunctionModel, ns: NamespaceModel)
    ensures
        starts_with(
            stub(f, ns),
            (if f.flags.as_base {
                "// STUB GENERATED FOR BASE CODE\n"@
            } else {
                "// STATE[STUB]\n"@
            }) + (if f.fn_t.attrs.is_inline {
                "inline "@
            } else {
                ""@
            }) + signature(Formatter::Source, f.fn_t, ns, f.margs) + "\n{\n"@,
        ),
        ends_with(stub(f, ns), "\t// ******\n}\n\n"@),
{
    reveal(stub);
    let head = (if f.flags.as_base {
        "// STUB GENERATED FOR BASE CODE\n"@
    } else {
        "// STATE[STUB]\n"@
    }) + (if f.fn_t.attrs.is_inline {
        "inline "@
    } else {
        ""@
    }) + signature(Formatter::Source, f.fn_t, ns, f.margs) + "\n{\n"@;
    assert(head == stub_heading(f, ns));
    reveal_strlit("\t// ******\n}\n\n");
    reveal_strlit("\t// ******\n");
    reveal_strlit("}\n\n");
    let mark = "\t// ******\n"@;
    assert("\t// ******\n}\n\n"@ =~= mark + "}\n\n"@);
    let body = body_text(f);
    assert(body.skip(body.len() - mark.len()) =~= mark);
    lemma_ends_of_five(
        head,
        stub_sections(f),
        return_line(f.fn_t.return_type),
        body,
        "}\n\n"@,
        mark,
    );
}

} // verus!
