//! What holds of the procedures that a query finds, and of what stands around them.

use crate::number::{dec, hex, pad_front};
use crate::parts::{cat_upto, holds, lemma_holds_pair};
use crate::search::contains;
use crate::text::lowercase;
use crate::topology_inspect::{candidate, candidate_rows, candidates, candidates_in, completed,
    found_procedure, is_searched, matches_in, matches_upto, method_declaration, near_rows,
    open_scopes, option_text, symbol_depth, symbol_records, type_row_text, window_end, window_rows,
    window_start, with_new, MatchModel, ModuleSymbols, OwnerModel, RawSymbol, TypeRow};
use crate::topology_records::{detail_text, kind_text, type_info_text, SymbolInfo};
use crate::type_table::MethodItem;
use vstd::prelude::*;

verus! {

// ---------------------------------------------------------------------------
// Depth
// ---------------------------------------------------------------------------

/// No number of scopes is below none.
proof fn lemma_open_scopes(s: Seq<RawSymbol>, n: int)
    ensures
        0 <= open_scopes(s, n),
        n >= 0 ==> open_scopes(s, n) <= n,
    decreases n,
{
    if n > 0 {
        lemma_open_scopes(s, n - 1);
    }
}

/// What stands behind the beginning of a scope is one deeper than it, and what stands behind
/// its end is as deep as the end. The end of a scope is as deep as its beginning where as many
/// scopes are open before the end as behind the beginning.
pub proof fn lemma_scopes_end_as_deep_as_they_begin(s: Seq<RawSymbol>, i: int, j: int)
    requires
        0 <= i < j < s.len(),
        s[i].starts_scope && !s[i].ends_scope,
        s[j].ends_scope && !s[j].starts_scope,
        open_scopes(s, j) == open_scopes(s, i + 1),
    ensures
        symbol_depth(s, j) == symbol_depth(s, i),
        open_scopes(s, i + 1) == symbol_depth(s, i) + 1,
        open_scopes(s, j + 1) == symbol_depth(s, j),
        symbol_depth(s, i) >= 0,
{
    lemma_open_scopes(s, i);
    lemma_open_scopes(s, j);
}

/// A symbol that neither begins nor ends a scope leaves the number of open scopes as it is,
/// and is as deep as that number.
pub proof fn lemma_other_symbols_open_no_scope(s: Seq<RawSymbol>, i: int)
    requires
        0 <= i < s.len(),
        !s[i].starts_scope && !s[i].ends_scope,
    ensures
        open_scopes(s, i + 1) == open_scopes(s, i),
        symbol_depth(s, i) == open_scopes(s, i),
{
}

/// The record of a symbol has its numbers and says what the symbol says, or why it cannot be
/// read.
pub proof fn lemma_record_of_a_symbol(s: Seq<RawSymbol>, i: int)
    requires
        0 <= i < s.len(),
    ensures
        ({
            let r = symbol_records(s)[i];
            &&& r.index == s[i].index && r.raw_kind == s[i].raw_kind && r.raw_len == s[i].raw_len
            &&& s[i].data matches Ok(info) ==> r.kind == kind_text(info) && r.detail
                == detail_text(info)
            &&& s[i].data matches Err(e) ==> r.kind == "Unparsed"@ && r.detail == e@
            &&& s.len() <= usize::MAX ==> r.depth == symbol_depth(s, i)
        }),
{
    lemma_open_scopes(s, i);
}

// ---------------------------------------------------------------------------
// What is found
// ---------------------------------------------------------------------------

/// Whether a procedure of a name holds what is looked for, in any letter case.
pub open spec fn is_asked_for(x: RawSymbol, needle: Seq<char>) -> bool {
    x.data matches Ok(SymbolInfo::Procedure(p)) && match p.formatted {
        Some(f) => contains(lowercase(f@), needle),
        None => contains(lowercase(p.raw_name@), needle),
    }
}

/// Whether a match is of the symbol at a place.
pub open spec fn is_match_of(
    m: MatchModel,
    module_id: int,
    module: ModuleSymbols,
    s: Seq<RawSymbol>,
    i: int,
) -> bool {
    s[i].data matches Ok(SymbolInfo::Procedure(p)) && {
        &&& m.module_id == module_id as usize
        &&& m.module_name == module.module_name@
        &&& m.object_file_name == module.object_file_name@
        &&& m.procedure_pos == i as usize
        &&& m.procedure_end == p.end
        &&& m.procedure_type == p.type_index
        &&& m.procedure_name == match p.formatted {
            Some(f) => f@,
            None => p.raw_name@,
        }
        &&& m.records.len() == s.len()
    }
}

/// Whether the symbol at a place is among some matches.
pub open spec fn is_found(
    v: Seq<MatchModel>,
    module_id: int,
    m: ModuleSymbols,
    s: Seq<RawSymbol>,
    i: int,
) -> bool {
    exists|k: int| 0 <= k < v.len() && is_match_of(#[trigger] v[k], module_id, m, s, i)
}

/// Whether a match is of one of the first `n` symbols, which is asked for.
pub open spec fn was_asked_for(
    x: MatchModel,
    module_id: int,
    m: ModuleSymbols,
    s: Seq<RawSymbol>,
    needle: Seq<char>,
    n: int,
) -> bool {
    exists|i: int|
        0 <= i < n && is_asked_for(#[trigger] s[i], needle) && is_match_of(x, module_id, m, s, i)
}

proof fn lemma_matches_in(
    module_id: usize,
    m: ModuleSymbols,
    s: Seq<RawSymbol>,
    needle: Seq<char>,
    n: int,
)
    requires
        0 <= n <= s.len(),
        matches_in(module_id, m, s, needle, n) is Ok,
    ensures
        forall|i: int|
            0 <= i < n && is_asked_for(#[trigger] s[i], needle) ==> is_found(
                matches_in(module_id, m, s, needle, n)->Ok_0,
                module_id as int,
                m,
                s,
                i,
            ),
        forall|k: int|
            0 <= k < matches_in(module_id, m, s, needle, n)->Ok_0.len() ==> was_asked_for(
                #[trigger] matches_in(module_id, m, s, needle, n)->Ok_0[k],
                module_id as int,
                m,
                s,
                needle,
                n,
            ),
    decreases n,
{
    if n > 0 {
        let id = module_id as int;
        let v = matches_in(module_id, m, s, needle, n)->Ok_0;
        lemma_matches_in(module_id, m, s, needle, n - 1);
        let before = matches_in(module_id, m, s, needle, n - 1)->Ok_0;
        assert(is_asked_for(s[n - 1], needle) <==> found_procedure(s[n - 1], needle) is Some);
        if is_asked_for(s[n - 1], needle) {
            assert(is_match_of(v[before.len() as int], id, m, s, n - 1));
        }
        assert forall|i: int| 0 <= i < n && is_asked_for(#[trigger] s[i], needle) implies is_found(
            v,
            id,
            m,
            s,
            i,
        ) by {
            if i < n - 1 {
                assert(is_found(before, id, m, s, i));
                let k = choose|k: int|
                    0 <= k < before.len() && is_match_of(#[trigger] before[k], id, m, s, i);
                assert(v[k] == before[k]);
            }
        }
        assert forall|k: int| 0 <= k < v.len() implies was_asked_for(
            #[trigger] v[k],
            id,
            m,
            s,
            needle,
            n,
        ) by {
            if k < before.len() {
                assert(v[k] == before[k]);
                assert(was_asked_for(before[k], id, m, s, needle, n - 1));
                let i = choose|i: int|
                    0 <= i < n - 1 && is_asked_for(#[trigger] s[i], needle) && is_match_of(
                        before[k],
                        id,
                        m,
                        s,
                        i,
                    );
                assert(is_asked_for(s[i], needle));
            } else {
                assert(is_asked_for(s[n - 1], needle));
            }
        }
    }
}

/// Every procedure of a module whose name holds what is looked for is found, with its place,
/// its end and its type, and nothing else is found there.
pub proof fn lemma_procedures_asked_for_are_found(
    module_id: usize,
    m: ModuleSymbols,
    s: Seq<RawSymbol>,
    needle: Seq<char>,
)
    requires
        matches_in(module_id, m, s, needle, s.len() as int) is Ok,
    ensures
        forall|i: int|
            0 <= i < s.len() && is_asked_for(#[trigger] s[i], needle) ==> is_found(
                matches_in(module_id, m, s, needle, s.len() as int)->Ok_0,
                module_id as int,
                m,
                s,
                i,
            ),
        forall|k: int|
            0 <= k < matches_in(module_id, m, s, needle, s.len() as int)->Ok_0.len()
                ==> was_asked_for(
                #[trigger] matches_in(module_id, m, s, needle, s.len() as int)->Ok_0[k],
                module_id as int,
                m,
                s,
                needle,
                s.len() as int,
            ),
{
    lemma_matches_in(module_id, m, s, needle, s.len() as int);
}

/// What a module that is searched has is among all that is found, and a module that is not
/// searched has no part in it.
pub proof fn lemma_every_searched_module_is_searched(
    modules: Seq<ModuleSymbols>,
    needle: Seq<char>,
    wanted: Option<Seq<char>>,
    n: int,
    i: int,
)
    requires
        0 <= i < n <= modules.len(),
        matches_upto(modules, needle, wanted, n) is Ok,
    ensures
        modules[i].symbols matches Some(s) ==> (wanted is None || contains(
            lowercase(modules[i].module_name@ + "\n"@ + modules[i].object_file_name@),
            wanted->0,
        )) ==> (matches_in(i as usize, modules[i], s@, needle, s@.len() as int) matches Ok(v)
            && forall|k: int|
            0 <= k < v.len() ==> matches_upto(modules, needle, wanted, n)->Ok_0.contains(
                #[trigger] v[k],
            )),
    decreases n,
{
    let all = matches_upto(modules, needle, wanted, n)->Ok_0;
    let before = matches_upto(modules, needle, wanted, n - 1)->Ok_0;
    if i < n - 1 {
        lemma_every_searched_module_is_searched(modules, needle, wanted, n - 1, i);
        if let Some(s) = modules[i].symbols {
            if is_searched(modules[i], wanted) {
                let v = matches_in(i as usize, modules[i], s@, needle, s@.len() as int)->Ok_0;
                assert forall|k: int| 0 <= k < v.len() implies all.contains(#[trigger] v[k]) by {
                    let x = before.index_of(v[k]);
                    assert(all[x] == v[k]);
                }
            }
        }
    } else if let Some(s) = modules[i].symbols {
        if is_searched(modules[i], wanted) {
            let v = matches_in(i as usize, modules[i], s@, needle, s@.len() as int)->Ok_0;
            assert forall|k: int| 0 <= k < v.len() implies all.contains(#[trigger] v[k]) by {
                assert(all[before.len() + k] == v[k]);
            }
        }
    }
}

// ---------------------------------------------------------------------------
// Types nearby
// ---------------------------------------------------------------------------

/// The row of a type gives its index, its kind and its length, says what it is, and is marked
/// exactly where it is the one that the rows are around.
pub proof fn lemma_type_row_tells_all(t: TypeRow, center: u32)
    ensures
        type_row_text(t, center).len() > 0,
        type_row_text(t, center)[0] == '>' <==> t.index == center,
        holds(type_row_text(t, center), " type=0x"@ + hex(t.index as nat)),
        holds(type_row_text(t, center), " raw=0x"@ + pad_front(hex(t.raw_kind as nat), '0', 4)),
        holds(type_row_text(t, center), "/0x"@ + hex(t.len as nat)),
        holds(type_row_text(t, center), " "@ + type_info_text(t.info)),
{
    reveal_strlit(">");
    reveal_strlit(" ");
    let mark = if t.index == center {
        ">"@
    } else {
        " "@
    };
    let a = seq![
        mark,
        " type=0x"@,
        hex(t.index as nat),
        " raw=0x"@,
        pad_front(hex(t.raw_kind as nat), '0', 4),
        "/0x"@,
        hex(t.len as nat),
        " "@,
        type_info_text(t.info),
    ];
    reveal_with_fuel(cat_upto, 10);
    assert(type_row_text(t, center) == cat_upto(a, 9));
    lemma_holds_pair(a, 9, 1);
    lemma_holds_pair(a, 9, 3);
    lemma_holds_pair(a, 9, 5);
    lemma_holds_pair(a, 9, 7);
    assert(type_row_text(t, center)[0] == mark[0]);
}

/// The types that are shown are those whose indices differ by no more than the context, which
/// is counted in the lower half of its bits.
pub proof fn lemma_types_nearby_are_shown(types: Seq<TypeRow>, center: u32, context: usize, n: int)
    requires
        0 <= n <= types.len(),
    ensures
        forall|i: int|
            0 <= i < n && (#[trigger] types[i]).index - center <= context as int % 0x1_0000_0000
                && center - types[i].index <= context as int % 0x1_0000_0000 ==> near_rows(
                types,
                center,
                context,
                n,
            ).contains(type_row_text(types[i], center)),
        (forall|i: int|
            0 <= i < n ==> (#[trigger] types[i]).index - center > context as int % 0x1_0000_0000
                || center - types[i].index > context as int % 0x1_0000_0000) ==> near_rows(
            types,
            center,
            context,
            n,
        ).len() == 0,
    decreases n,
{
    if n > 0 {
        lemma_types_nearby_are_shown(types, center, context, n - 1);
        let before = near_rows(types, center, context, n - 1);
        let all = near_rows(types, center, context, n);
        assert forall|i: int|
            0 <= i < n && (#[trigger] types[i]).index - center <= context as int % 0x1_0000_0000
                && center - types[i].index <= context as int % 0x1_0000_0000 implies all.contains(
            type_row_text(types[i], center),
        ) by {
            let x = type_row_text(types[i], center);
            if i < n - 1 {
                let k = before.index_of(x);
                assert(all[k] == x);
            } else {
                assert(all[before.len() as int] == x);
            }
        }
    }
}

// ---------------------------------------------------------------------------
// Declarations
// ---------------------------------------------------------------------------

/// The declaration of a method gives its name, its type, its attributes and where it stands
/// among the virtual functions.
pub proof fn lemma_method_declaration_tells_all(name: Seq<char>, m: MethodItem, suffix: Seq<char>)
    ensures
        ({
            let d = method_declaration(name, m, suffix);
            &&& d.method_type == Some(m.method_type)
            &&& holds(d.text, "method "@ + name)
            &&& holds(d.text, " type=0x"@ + hex(m.method_type as nat))
            &&& holds(d.text, " "@ + m.attributes.method_text())
            &&& holds(d.text, " vslot="@ + option_text(m.vtable_offset))
            &&& holds(d.text, option_text(m.vtable_offset) + suffix)
        }),
        m.vtable_offset is None ==> option_text(m.vtable_offset) == "None"@,
        m.vtable_offset matches Some(v) ==> holds(option_text(m.vtable_offset), "Some("@ + dec(v as nat)),
{
    let d = method_declaration(name, m, suffix);
    let a = seq![
        "method "@,
        name,
        " type=0x"@,
        hex(m.method_type as nat),
        " "@,
        m.attributes.method_text(),
        " vslot="@,
        option_text(m.vtable_offset),
        suffix,
    ];
    reveal_with_fuel(cat_upto, 10);
    assert(d.text == cat_upto(a, 9));
    lemma_holds_pair(a, 9, 0);
    lemma_holds_pair(a, 9, 2);
    lemma_holds_pair(a, 9, 4);
    lemma_holds_pair(a, 9, 6);
    lemma_holds_pair(a, 9, 7);
    if let Some(v) = m.vtable_offset {
        let b = seq!["Some("@, dec(v as nat), ")"@];
        assert(option_text(m.vtable_offset) == cat_upto(b, 3));
        lemma_holds_pair(b, 3, 0);
    }
}

proof fn lemma_window_rows(o: OwnerModel, p: int, lo: int, hi: int)
    requires
        0 <= lo <= hi <= o.declarations.len(),
    ensures
        window_rows(o, p, lo, hi).len() == 1 + hi - lo,
        window_rows(o, p, lo, hi)[0] == "candidate owner: "@ + o.name,
        forall|k: int|
            lo <= k < hi ==> #[trigger] window_rows(o, p, lo, hi)[1 + k - lo] == (if k == p {
                ">"@
            } else {
                " "@
            }) + " field#"@ + dec(k as nat) + " "@ + o.declarations[k].text,
    decreases hi - lo,
{
    if lo < hi {
        lemma_window_rows(o, p, lo, hi - 1);
        let before = window_rows(o, p, lo, hi - 1);
        let all = window_rows(o, p, lo, hi);
        assert forall|k: int| lo <= k < hi implies #[trigger] all[1 + k - lo] == (if k == p {
            ">"@
        } else {
            " "@
        }) + " field#"@ + dec(k as nat) + " "@ + o.declarations[k].text by {
            if k < hi - 1 {
                assert(all[1 + k - lo] == before[1 + k - lo]);
            }
        }
    }
}

/// What is shown of a class that declares a method: its name, and its declarations up to
/// `context` before and behind the method's, each with its number. Only the method's own is
/// marked.
pub proof fn lemma_candidate_shows_what_is_around(o: OwnerModel, p: int, context: usize, k: int)
    requires
        0 <= p < o.declarations.len(),
        0 <= k < o.declarations.len(),
        p - context <= k <= p + context,
    ensures
        candidate(o, p, context)[0] == "candidate owner: "@ + o.name,
        k == p ==> candidate(o, p, context).contains(
            ">"@ + " field#"@ + dec(k as nat) + " "@ + o.declarations[k].text,
        ),
        k != p ==> candidate(o, p, context).contains(
            " "@ + " field#"@ + dec(k as nat) + " "@ + o.declarations[k].text,
        ),
        candidate(o, p, context).len() <= 2 * context + 2,
{
    let lo = window_start(p, context as int);
    let hi = window_end(p, context as int, o.declarations.len() as int);
    lemma_window_rows(o, p, lo, hi);
    let w = window_rows(o, p, lo, hi);
    assert(w[1 + k - lo] == (if k == p {
        ">"@
    } else {
        " "@
    }) + " field#"@ + dec(k as nat) + " "@ + o.declarations[k].text);
}

proof fn lemma_with_new_has<T>(s: Seq<T>, x: T)
    ensures
        with_new(s, x).contains(x),
        forall|y: T| #[trigger] s.contains(y) ==> with_new(s, x).contains(y),
{
    if !s.contains(x) {
        assert(s.push(x)[s.len() as int] == x);
        assert forall|y: T| #[trigger] s.contains(y) implies with_new(s, x).contains(y) by {
            let i = s.index_of(y);
            assert(s.push(x)[i] == y);
        }
    }
}

proof fn lemma_candidates_in(
    v: Seq<Seq<Seq<char>>>,
    o: OwnerModel,
    ty: u32,
    context: usize,
    n: int,
)
    requires
        0 <= n <= o.declarations.len(),
    ensures
        forall|y: Seq<Seq<char>>| #[trigger]
            v.contains(y) ==> candidates_in(v, o, ty, context, n).contains(y),
        forall|p: int|
            0 <= p < n && (#[trigger] o.declarations[p]).method_type == Some(ty) ==> candidates_in(
                v,
                o,
                ty,
                context,
                n,
            ).contains(candidate(o, p, context)),
    decreases n,
{
    if n > 0 {
        lemma_candidates_in(v, o, ty, context, n - 1);
        lemma_with_new_has(
            candidates_in(v, o, ty, context, n - 1),
            candidate(o, n - 1, context),
        );
    }
}

/// Every declaration of a method's type in any class is among the candidates.
pub proof fn lemma_all_candidates_are_there(
    owners: Seq<OwnerModel>,
    ty: u32,
    context: usize,
    n: int,
    i: int,
    p: int,
)
    requires
        0 <= i < n <= owners.len(),
        0 <= p < owners[i].declarations.len(),
        owners[i].declarations[p].method_type == Some(ty),
    ensures
        candidates(owners, ty, context, n).contains(candidate(owners[i], p, context)),
    decreases n,
{
    let o = owners[n - 1];
    lemma_candidates_in(
        candidates(owners, ty, context, n - 1),
        o,
        ty,
        context,
        o.declarations.len() as int,
    );
    if i < n - 1 {
        lemma_all_candidates_are_there(owners, ty, context, n - 1, i, p);
    }
}

/// Every row of every candidate is shown.
pub proof fn lemma_all_candidate_rows_are_shown(c: Seq<Seq<Seq<char>>>, n: int, i: int, k: int)
    requires
        0 <= i < n <= c.len(),
        0 <= k < c[i].len(),
    ensures
        candidate_rows(c, n).contains(c[i][k]),
    decreases n,
{
    let all = candidate_rows(c, n);
    if n == 1 {
        assert(all[k] == c[i][k]);
    } else if i == n - 1 {
        assert(all[candidate_rows(c, n - 1).len() + 1 + k] == c[i][k]);
    } else {
        lemma_all_candidate_rows_are_shown(c, n - 1, i, k);
        let before = candidate_rows(c, n - 1);
        let j = before.index_of(c[i][k]);
        assert(all[j] == c[i][k]);
    }
}

/// The declarations are shown with the first of the matches of a type, and with no other.
pub proof fn lemma_declarations_go_to_the_first_match(
    m: Seq<MatchModel>,
    types: Seq<TypeRow>,
    owners: Seq<OwnerModel>,
    context: usize,
    i: int,
)
    requires
        0 <= i < m.len(),
    ensures
        ({
            let c = completed(m, types, owners, context, i);
            let all = candidates(owners, m[i].procedure_type, context, owners.len() as int);
            &&& (exists|k: int| 0 <= k < i && (#[trigger] m[k]).procedure_type
                == m[i].procedure_type) ==> c.declaration_rows.len() == 0
            &&& (forall|k: int| 0 <= k < i ==> (#[trigger] m[k]).procedure_type
                != m[i].procedure_type) ==> c.declaration_rows == candidate_rows(
                all,
                all.len() as int,
            )
            &&& c.procedure_name == m[i].procedure_name && c.records == m[i].records && c.lines
                == m[i].lines && c.procedure_pos == m[i].procedure_pos
            &&& c.type_rows == near_rows(
                types,
                m[i].procedure_type,
                context,
                types.len() as int,
            )
        }),
{
}

} // verus!
