//! Which functions of the indexes are shown, and in which views.

use crate::guid::{digit_value, hex_value};
use crate::number::{dec, decimal, hex, hexadecimal, pad_front, padded_front};
use crate::order::sorted_by;
use crate::pieces::{cat2, cat3, cat5, cat7};
use crate::rich_context::{FunctionEntry, Statement};
use crate::rich_query::{entry_le, hits, search, Query};
use crate::search::{strip_front, without_prefix};
use crate::text::{chars_of, owned, same};
use vstd::prelude::*;

verus! {

// ---------------------------------------------------------------------------
// Numbers
// ---------------------------------------------------------------------------

/// The digits of a hexadecimal number, without what may stand before them.
pub open spec fn hex_digits_in(s: Seq<char>) -> Seq<char> {
    let a = match without_prefix(s, "0x"@) {
        Some(r) => r,
        None => match without_prefix(s, "0X"@) {
            Some(r) => r,
            None => s,
        },
    };
    if a.len() > 0 && a[0] == '+' {
        a.skip(1)
    } else {
        a
    }
}

/// The 32-bit number that a text spells in hexadecimal.
pub open spec fn hex_number(s: Seq<char>) -> Option<nat> {
    let d = hex_digits_in(s);
    match hex_value(d, d.len() as int) {
        Some(v) => if d.len() > 0 && v <= u32::MAX {
            Some(v)
        } else {
            None
        },
        None => None,
    }
}

fn value_of_digit(c: char) -> (r: Option<u64>)
    ensures
        match r {
            Some(d) => digit_value(c) == Some(d as nat) && d < 16,
            None => digit_value(c) is None,
        },
{
    if '0' <= c && c <= '9' {
        Some(c as u64 - 48)
    } else if 'a' <= c && c <= 'f' {
        Some(c as u64 - 87)
    } else if 'A' <= c && c <= 'F' {
        Some(c as u64 - 55)
    } else {
        None
    }
}

proof fn lemma_hex_value_prefix(s: Seq<char>, i: int, n: int)
    requires
        0 <= i <= n <= s.len(),
        hex_value(s, n) is Some,
    ensures
        hex_value(s, i) is Some,
        hex_value(s, i)->0 <= hex_value(s, n)->0,
    decreases n,
{
    if i < n {
        lemma_hex_value_prefix(s, i, n - 1);
        assert(hex_value(s, n - 1)->0 * 16 >= hex_value(s, n - 1)->0) by (nonlinear_arith)
            requires
                hex_value(s, n - 1)->0 >= 0,
        ;
    }
}

/// The 32-bit number that a text spells in hexadecimal.
pub fn parse_hex(s: &str) -> (r: Option<u32>)
    ensures
        match r {
            Some(n) => hex_number(s@) == Some(n as nat),
            None => hex_number(s@) is None,
        },
{
    let a: String = match strip_front(s, "0x") {
        Some(r) => r,
        None => match strip_front(s, "0X") {
            Some(r) => r,
            None => owned(s),
        },
    };
    let v: Vec<char> = chars_of(a.as_str());
    let start: usize = if v.len() > 0 && v[0] == '+' {
        1
    } else {
        0
    };
    let ghost d = hex_digits_in(s@);
    assert(d =~= v@.skip(start as int));
    let n: usize = v.len();
    if n == start {
        return None;
    }
    let mut value: u64 = 0;
    let mut i: usize = start;
    while i < n
        invariant
            n == v@.len(),
            start <= i <= n,
            start < n,
            d == hex_digits_in(s@),
            d == v@.skip(start as int),
            hex_value(d, i - start) == Some(value as nat),
            value <= u32::MAX,
        decreases n - i,
    {
        assert(d[i - start] == v@[i as int]);
        match value_of_digit(v[i]) {
            Some(x) => {
                let next: u64 = value * 16 + x;
                assert(hex_value(d, i - start + 1) == Some(next as nat));
                if next > 0xffff_ffff {
                    proof {
                        if hex_value(d, d.len() as int) is Some {
                            lemma_hex_value_prefix(d, i - start + 1, d.len() as int);
                        }
                    }
                    return None;
                }
                value = next;
            },
            None => {
                assert(hex_value(d, i - start + 1) is None);
                proof {
                    if hex_value(d, d.len() as int) is Some {
                        lemma_hex_value_prefix(d, i - start + 1, d.len() as int);
                    }
                }
                return None;
            },
        }
        i = i + 1;
    }
    Some(value as u32)
}

// ---------------------------------------------------------------------------
// Statements
// ---------------------------------------------------------------------------

/// Which statement of a function is asked for.
#[derive(Clone, Copy, PartialEq, Eq, Debug, Structural)]
pub struct StatementChoice {
    /// Its number, counted from one.
    pub index: Option<usize>,
    /// An offset in the function that it covers.
    pub offset: Option<u32>,
    /// An address that it covers.
    pub address: Option<u32>,
}

/// The offset that is asked for: given, or that of an address. Addresses wrap around.
pub open spec fn chosen_offset(f: FunctionEntry, c: StatementChoice) -> Option<u32> {
    match (c.offset, c.address) {
        (Some(o), _) => Some(o),
        (None, Some(a)) => Some(
            ((a - f.address(0) + 0x1_0000_0000) % 0x1_0000_0000) as u32,
        ),
        (None, None) => None,
    }
}

/// Whether a statement covers an offset.
pub open spec fn covers(s: Statement, off: u32) -> bool {
    s.off <= off < s.off + s.size
}

/// The first statement of a body, from `i` on, that covers an offset; zero where none does.
pub open spec fn covering(s: Seq<Statement>, off: u32, i: int) -> int
    decreases s.len() - i,
{
    if i < 1 || i >= s.len() - 1 {
        0
    } else if covers(s[i], off) {
        i
    } else {
        covering(s, off, i + 1)
    }
}

/// Which statement is asked for: none where the whole function is, and zero where there is
/// no such statement.
pub open spec fn chosen_statement(f: FunctionEntry, c: StatementChoice) -> Option<int> {
    match c.index {
        Some(n) => Some(n as int),
        None => match chosen_offset(f, c) {
            Some(off) => Some(covering(f.statements@, off, 1)),
            None => None,
        },
    }
}

/// Which statement of a function is asked for.
pub fn resolve_statement(f: &FunctionEntry, c: StatementChoice) -> (r: Option<usize>)
    ensures
        match r {
            Some(n) => chosen_statement(*f, c) == Some(n as int),
            None => chosen_statement(*f, c) is None,
        },
{
    if let Some(n) = c.index {
        return Some(n);
    }
    let off: u32 = match (c.offset, c.address) {
        (Some(o), _) => o,
        (None, Some(a)) => a.wrapping_sub(f.va(0)),
        (None, None) => {
            return None;
        },
    };
    assert(chosen_offset(*f, c) == Some(off));
    let n: usize = f.statements.len();
    let mut i: usize = 1;
    while i < n && i < n - 1
        invariant
            n == f.statements@.len(),
            1 <= i,
            c.index is None,
            chosen_offset(*f, c) == Some(off),
            covering(f.statements@, off, 1) == covering(f.statements@, off, i as int),
        decreases n - i,
    {
        let s: &Statement = &f.statements[i];
        if s.off <= off && (off as u64) < s.off as u64 + s.size as u64 {
            return Some(i);
        }
        i = i + 1;
    }
    Some(0)
}

// ---------------------------------------------------------------------------
// Functions
// ---------------------------------------------------------------------------

/// What a function is asked for by.
pub struct Selector<'a> {
    pub function: Option<&'a str>,
    pub rva: Option<u32>,
    pub va: Option<u32>,
    pub address: Option<u32>,
}

/// Whether anything is asked for.
pub open spec fn is_selecting(s: Selector) -> bool {
    s.function is Some || s.rva is Some || s.va is Some || s.address is Some
}

/// Whether anything is asked for.
pub fn selects(s: &Selector) -> (r: bool)
    ensures
        r == is_selecting(*s),
{
    s.function.is_some() || s.rva.is_some() || s.va.is_some() || s.address.is_some()
}

/// The address that the function has to contain: the one that is given for it, or, where
/// nothing else is given, that of a statement.
pub open spec fn containing_address(s: Selector) -> Option<u32> {
    if s.va is Some {
        s.va
    } else if s.function is None && s.rva is None {
        s.address
    } else {
        None
    }
}

/// The address that the function has to contain.
pub fn containing(s: &Selector) -> (r: Option<u32>)
    ensures
        r == containing_address(*s),
{
    if s.va.is_some() {
        s.va
    } else if s.function.is_none() && s.rva.is_none() {
        s.address
    } else {
        None
    }
}

/// Whether a function contains an address. Addresses wrap around.
pub open spec fn contains_address(f: FunctionEntry, va: u32) -> bool {
    (va - f.address(0) + 0x1_0000_0000) % 0x1_0000_0000 < f.size
}

/// Whether a function contains an address.
pub fn does_contain(f: &FunctionEntry, va: u32) -> (r: bool)
    ensures
        r == contains_address(*f, va),
{
    va.wrapping_sub(f.va(0)) < f.size
}

/// The functions that a query asks for, by file and address.
pub open spec fn found(entries: Seq<FunctionEntry>, query: Query) -> Seq<FunctionEntry> {
    sorted_by(
        hits(query, entries, entries.len() as int),
        |a: FunctionEntry, b: FunctionEntry| entry_le(a, b),
    )
}

/// Those of the first `n` functions that contain an address, where one is asked for.
pub open spec fn around(v: Seq<FunctionEntry>, va: Option<u32>, n: int) -> Seq<FunctionEntry>
    decreases n,
{
    if n <= 0 {
        Seq::empty()
    } else if va is None || contains_address(v[n - 1], va->0) {
        around(v, va, n - 1).push(v[n - 1])
    } else {
        around(v, va, n - 1)
    }
}

/// The functions that are asked for.
pub open spec fn selected(
    entries: Seq<FunctionEntry>,
    query: Query,
    va: Option<u32>,
) -> Seq<FunctionEntry> {
    let v = found(entries, query);
    around(v, va, v.len() as int)
}

/// References to functions, as functions.
pub open spec fn derefs(v: Seq<&FunctionEntry>) -> Seq<FunctionEntry> {
    v.map_values(|e: &FunctionEntry| *e)
}

/// The functions that are asked for.
pub fn select<'a>(entries: &'a Vec<FunctionEntry>, query: &Query, va: Option<u32>) -> (r: Vec<
    &'a FunctionEntry,
>)
    ensures
        derefs(r@) == selected(entries@, *query, va),
{
    let all: Vec<&'a FunctionEntry> = search(entries, query);
    let ghost m = derefs(all@);
    assert(m == found(entries@, *query));
    let mut r: Vec<&'a FunctionEntry> = Vec::new();
    assert(derefs(r@) =~= Seq::<FunctionEntry>::empty());
    let mut i: usize = 0;
    while i < all.len()
        invariant
            m == derefs(all@),
            i <= all@.len(),
            derefs(r@) == around(m, va, i as int),
        decreases all.len() - i,
    {
        let e: &'a FunctionEntry = all[i];
        assert(m[i as int] == *e);
        let inside: bool = match va {
            Some(x) => does_contain(e, x),
            None => true,
        };
        if inside {
            let ghost before = r@;
            r.push(e);
            assert(derefs(r@) =~= derefs(before).push(*e));
        }
        i = i + 1;
    }
    r
}

/// The query of a selector.
pub open spec fn query_of<'a>(s: Selector<'a>) -> Query<'a> {
    Query { name: s.function, rva: s.rva, mangled: None }
}

/// The first function that is asked for, and how many there are.
pub fn first_match<'a>(entries: &'a Vec<FunctionEntry>, s: &Selector) -> (r: (
    Option<&'a FunctionEntry>,
    usize,
))
    ensures
        ({
            let v = selected(entries@, query_of(*s), containing_address(*s));
            &&& r.1 == v.len()
            &&& match r.0 {
                Some(e) => v.len() > 0 && v[0] == *e,
                None => v.len() == 0,
            }
        }),
{
    let query: Query = Query { name: s.function, rva: s.rva, mangled: None };
    let v: Vec<&'a FunctionEntry> = select(entries, &query, containing(s));
    let ghost m = derefs(v@);
    assert(m.len() == v@.len());
    if v.len() == 0 {
        return (None, 0);
    }
    assert(m[0] == *v@[0]);
    (Some(v[0]), v.len())
}

/// Those of the first `n` functions that have a signature.
pub open spec fn named(v: Seq<FunctionEntry>, name: Seq<char>, n: int) -> Seq<FunctionEntry>
    decreases n,
{
    if n <= 0 {
        Seq::empty()
    } else if v[n - 1].name@ == name {
        named(v, name, n - 1).push(v[n - 1])
    } else {
        named(v, name, n - 1)
    }
}

/// Those of the first `n` functions that have a decorated name.
pub open spec fn decorated(v: Seq<FunctionEntry>, mangled: Seq<char>, n: int) -> Seq<FunctionEntry>
    decreases n,
{
    if n <= 0 {
        Seq::empty()
    } else if v[n - 1].mangled@ == mangled {
        decorated(v, mangled, n - 1).push(v[n - 1])
    } else {
        decorated(v, mangled, n - 1)
    }
}

/// The functions with a decorated name, by file and address.
pub open spec fn decorated_in_order(v: Seq<FunctionEntry>, mangled: Seq<char>) -> Seq<
    FunctionEntry,
> {
    sorted_by(
        decorated(v, mangled, v.len() as int),
        |a: FunctionEntry, b: FunctionEntry| entry_le(a, b),
    )
}

/// The function of another build that is the same as a given one: the first with its
/// decorated name, or else the only one with its signature. An error tells how many have
/// its signature, where there are several.
pub open spec fn identity_of(v: Seq<FunctionEntry>, f: FunctionEntry) -> Result<
    Option<FunctionEntry>,
    nat,
> {
    let d = decorated_in_order(v, f.mangled@);
    let n = named(v, f.name@, v.len() as int);
    if d.len() > 0 {
        Ok(Some(d[0]))
    } else if n.len() == 0 {
        Ok(None)
    } else if n.len() == 1 {
        Ok(Some(n[0]))
    } else {
        Err(n.len())
    }
}

proof fn lemma_decorated(v: Seq<FunctionEntry>, query: Query, mangled: Seq<char>, n: int)
    requires
        query.name is None,
        query.rva is None,
        query.mangled is Some,
        query.mangled->0@ == mangled,
        0 <= n <= v.len(),
    ensures
        hits(query, v, n) == decorated(v, mangled, n),
    decreases n,
{
    if n > 0 {
        lemma_decorated(v, query, mangled, n - 1);
    }
}

/// The function of another build that is the same as a given one. The decorated name is
/// the same in both builds; the signature need not be, nor is the address.
pub fn resolve_by_identity<'a>(entries: &'a Vec<FunctionEntry>, target: &FunctionEntry) -> (r: Result<
    Option<&'a FunctionEntry>,
    usize,
>)
    ensures
        match r {
            Ok(Some(e)) => identity_of(entries@, *target) == Ok::<Option<FunctionEntry>, nat>(
                Some(*e),
            ),
            Ok(None) => identity_of(entries@, *target) == Ok::<Option<FunctionEntry>, nat>(None),
            Err(n) => identity_of(entries@, *target) == Err::<Option<FunctionEntry>, nat>(n as nat),
        },
{
    let query: Query = Query { name: None, rva: None, mangled: Some(target.mangled.as_str()) };
    let by_mangled: Vec<&'a FunctionEntry> = search(entries, &query);
    proof {
        lemma_decorated(entries@, query, target.mangled@, entries@.len() as int);
    }
    let ghost m = derefs(by_mangled@);
    assert(m == decorated_in_order(entries@, target.mangled@));
    assert(m.len() == by_mangled@.len());
    if by_mangled.len() > 0 {
        assert(m[0] == *by_mangled@[0]);
        return Ok(Some(by_mangled[0]));
    }
    let ghost name = target.name@;
    let n: usize = entries.len();
    let mut first: Option<usize> = None;
    let mut count: usize = 0;
    let mut i: usize = 0;
    while i < n
        invariant
            n == entries@.len(),
            name == target.name@,
            i <= n,
            count <= i,
            count == named(entries@, name, i as int).len(),
            match first {
                Some(k) => k < n && count > 0 && named(entries@, name, i as int)[0]
                    == entries@[k as int],
                None => count == 0,
            },
        decreases n - i,
    {
        if same(entries[i].name.as_str(), target.name.as_str()) {
            if first.is_none() {
                first = Some(i);
            }
            count = count + 1;
        }
        i = i + 1;
    }
    match first {
        None => Ok(None),
        Some(k) => if count == 1 {
            Ok(Some(&entries[k]))
        } else {
            Err(count)
        },
    }
}

/// A function that cannot be told from others, in words.
pub fn ambiguity_text(target: &FunctionEntry, n: usize) -> (r: String)
    ensures
        r@ == "structure-diff: function '"@ + target.name@ + "' is ambiguous in the base index ("@
            + dec(n as nat) + " entries, mangled '"@ + target.mangled@
            + "' did not disambiguate); pass --rva for the target side"@,
{
    cat7(
        "structure-diff: function '",
        target.name.as_str(),
        "' is ambiguous in the base index (",
        decimal(n as u64).as_str(),
        " entries, mangled '",
        target.mangled.as_str(),
        "' did not disambiguate); pass --rva for the target side",
    )
}

/// What a function was asked for by, in words.
pub open spec fn selector_text(s: Selector) -> Seq<char> {
    let address = match (s.rva, s.va) {
        (Some(v), _) => Some("rva 0x"@ + hex(v as nat)),
        (None, Some(v)) => Some("va 0x"@ + hex(v as nat)),
        (None, None) => None,
    };
    match (s.function, address) {
        (Some(n), Some(a)) => "'"@ + n@ + "' ("@ + a + ")"@,
        (Some(n), None) => "'"@ + n@ + "'"@,
        (None, Some(a)) => a,
        (None, None) => "<none>"@,
    }
}

/// What a function was asked for by, in words.
pub fn describe_selector(s: &Selector) -> (r: String)
    ensures
        r@ == selector_text(*s),
{
    let address: Option<String> = match (s.rva, s.va) {
        (Some(v), _) => Some(cat2("rva 0x", hexadecimal(v as u64).as_str())),
        (None, Some(v)) => Some(cat2("va 0x", hexadecimal(v as u64).as_str())),
        (None, None) => None,
    };
    match (s.function, address) {
        (Some(n), Some(a)) => cat5("'", n, "' (", a.as_str(), ")"),
        (Some(n), None) => cat3("'", n, "'"),
        (None, Some(a)) => a,
        (None, None) => owned("<none>"),
    }
}

// ---------------------------------------------------------------------------
// Views
// ---------------------------------------------------------------------------

/// Which of the two sides are there: whether a function was found, and whether an index was
/// given.
#[derive(Clone, Copy, PartialEq, Eq, Debug, Structural)]
pub struct Sides {
    pub target: bool,
    pub base: bool,
    pub target_index: bool,
    pub base_index: bool,
}

/// What is done for a view.
#[derive(Clone, Copy, PartialEq, Eq, Debug, Structural)]
pub enum ViewAction {
    /// The listing of the target's function.
    Target,
    /// The listing of the base's function.
    Base,
    /// The structure of the function, the target's where there is one.
    Structure,
    /// What is known of the function, the target's where there is one.
    Info,
    /// What the function calls, the target's where there is one.
    Callees,
    /// Both functions compared.
    Diff,
    /// The structures of both functions compared.
    StructureDiff,
    /// A note that the target has no function for the view.
    NoTarget,
    /// A note that the base has no function for the view.
    NoBase,
    /// A note that the view needs both.
    DiffNeedsBoth,
    /// A note that the view needs both indexes.
    StructureDiffNeedsBoth,
    /// A note that the target's index does not have the function.
    NotInTarget,
    /// A note that the base's index does not have the function.
    NotInBase,
    /// A note that there is no such view.
    Unknown,
    Nothing,
}

/// What is done for a view.
pub open spec fn action_for(view: Seq<char>, s: Sides) -> ViewAction {
    if view == "target"@ {
        if s.target {
            ViewAction::Target
        } else {
            ViewAction::NoTarget
        }
    } else if view == "base"@ {
        if s.base {
            ViewAction::Base
        } else {
            ViewAction::NoBase
        }
    } else if view == "structure"@ {
        if s.target || s.base {
            ViewAction::Structure
        } else {
            ViewAction::Nothing
        }
    } else if view == "info"@ {
        if s.target || s.base {
            ViewAction::Info
        } else {
            ViewAction::Nothing
        }
    } else if view == "callees"@ {
        if s.target || s.base {
            ViewAction::Callees
        } else {
            ViewAction::Nothing
        }
    } else if view == "diff"@ {
        if s.target && s.base {
            ViewAction::Diff
        } else {
            ViewAction::DiffNeedsBoth
        }
    } else if view == "structure-diff"@ {
        if s.target && s.base {
            ViewAction::StructureDiff
        } else if !s.target_index || !s.base_index {
            ViewAction::StructureDiffNeedsBoth
        } else if !s.target {
            ViewAction::NotInTarget
        } else {
            ViewAction::NotInBase
        }
    } else {
        ViewAction::Unknown
    }
}

/// What is done for a view.
pub fn decide_view(view: &str, s: Sides) -> (r: ViewAction)
    ensures
        r == action_for(view@, s),
{
    let any: bool = s.target || s.base;
    if same(view, "target") {
        if s.target {
            ViewAction::Target
        } else {
            ViewAction::NoTarget
        }
    } else if same(view, "base") {
        if s.base {
            ViewAction::Base
        } else {
            ViewAction::NoBase
        }
    } else if same(view, "structure") {
        if any {
            ViewAction::Structure
        } else {
            ViewAction::Nothing
        }
    } else if same(view, "info") {
        if any {
            ViewAction::Info
        } else {
            ViewAction::Nothing
        }
    } else if same(view, "callees") {
        if any {
            ViewAction::Callees
        } else {
            ViewAction::Nothing
        }
    } else if same(view, "diff") {
        if s.target && s.base {
            ViewAction::Diff
        } else {
            ViewAction::DiffNeedsBoth
        }
    } else if same(view, "structure-diff") {
        if s.target && s.base {
            ViewAction::StructureDiff
        } else if !s.target_index || !s.base_index {
            ViewAction::StructureDiffNeedsBoth
        } else if !s.target {
            ViewAction::NotInTarget
        } else {
            ViewAction::NotInBase
        }
    } else {
        ViewAction::Unknown
    }
}

/// The view that is shown where none is asked for.
pub open spec fn view_unasked(s: Sides) -> Seq<char> {
    if s.target && s.base {
        "diff"@
    } else if s.target {
        "target"@
    } else {
        "base"@
    }
}

/// The view that is shown where none is asked for.
pub fn default_view(s: Sides) -> (r: &'static str)
    ensures
        r@ == view_unasked(s),
{
    if s.target && s.base {
        "diff"
    } else if s.target {
        "target"
    } else {
        "base"
    }
}

/// The view that is shown where none is asked for can be shown, where a function was found.
pub proof fn lemma_default_view_is_shown(s: Sides)
    requires
        s.target || s.base,
    ensures
        ({
            let a = action_for(view_unasked(s), s);
            a is Diff || a is Target || a is Base
        }),
{
    reveal_strlit("target");
    reveal_strlit("base");
    reveal_strlit("structure");
    reveal_strlit("info");
    reveal_strlit("callees");
    reveal_strlit("diff");
    assert("diff"@.len() != "target"@.len());
    assert("base"@.len() != "target"@.len());
    assert("diff"@[0] != "base"@[0]);
    assert("diff"@[0] != "info"@[0]);
    assert("diff"@.len() != "structure"@.len());
    assert("diff"@.len() != "callees"@.len());
}

/// A function on one line: its address, its file and its signature.
pub fn hit_line(f: &FunctionEntry) -> (r: String)
    ensures
        r@ == "0x"@ + pad_front(hex(f.rva as nat), '0', 6) + "  "@ + f.file@ + "\t"@ + f.name@
            + "\n"@,
{
    cat7(
        "0x",
        padded_front(hexadecimal(f.rva as u64).as_str(), '0', 6).as_str(),
        "  ",
        f.file.as_str(),
        "\t",
        f.name.as_str(),
        "\n",
    )
}

} // verus!
