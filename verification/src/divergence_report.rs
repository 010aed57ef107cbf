//! Where two builds diverge, in words.

use crate::divergence::{block, count_on, one_if, push_line, push_list, tally, with_list,
    write_block};
use crate::divergence_diff::{lemma_values_are_like_themselves, value_difference, value_match,
    KeyModel, Misnamed, NamedValue, ValueDiff, ValueDifference, ValueKey};
use crate::divergence_extract::Config;
use crate::divergence_model::{entry, put_entry, with_entry, ConstModel, ConstShape, FileModel,
    FnModel, FnShape, PresenceFn, PresenceShape, SideModel};
use crate::divergence_order::{cross_key, cross_pdb_function_key, display_of, function_lines,
    function_order_moved, lemma_moved_is_common, lemma_order_is_like_itself, line_of, order_moved,
    ordered_function_display, shown};
use crate::lcs::views;
use crate::number::{dec, dec_int, decimal, decimal_signed};
use crate::pieces::{cat2, cat6, cat8};
use crate::text::{owned, same, texts};
use vstd::prelude::*;

verus! {

// ---------------------------------------------------------------------------
// Functions with a body of their own
// ---------------------------------------------------------------------------

/// Whether one of some functions has a key.
pub open spec fn key_present(v: Seq<PresenceShape>, key: Seq<char>) -> bool {
    exists|i: int| 0 <= i < v.len() && (#[trigger] v[i]).key == key
}

/// Whether one of some functions has a signature.
pub open spec fn name_present(v: Seq<PresenceShape>, name: Seq<char>) -> bool {
    exists|i: int| 0 <= i < v.len() && (#[trigger] v[i]).name_orig == name
}

/// Whether a function has neither its key nor its signature in the other build.
pub open spec fn is_alone(f: PresenceShape, other: Seq<PresenceShape>) -> bool {
    !key_present(other, f.key) && !name_present(other, f.name_orig)
}

/// The functions among the first `n` that the other build does not have, by path and
/// signature, each signature once.
pub open spec fn alone(v: Seq<PresenceShape>, other: Seq<PresenceShape>, n: int) -> Seq<
    (Seq<char>, Seq<char>),
>
    decreases n,
{
    if n <= 0 {
        Seq::empty()
    } else {
        let before = alone(v, other, n - 1);
        let f = v[n - 1];
        if is_alone(f, other) && !told(before, f.name_orig) {
            before.push((f.path, f.name_orig))
        } else {
            before
        }
    }
}

/// Whether a signature was told of.
pub open spec fn told(v: Seq<(Seq<char>, Seq<char>)>, name: Seq<char>) -> bool {
    exists|i: int| 0 <= i < v.len() && (#[trigger] v[i]).1 == name
}

/// The functions that have a body of their own in one build only.
pub struct PresenceDiff {
    pub base_only: Vec<(String, String)>,
    pub target_only: Vec<(String, String)>,
}

fn is_key_present(v: &Vec<PresenceFn>, key: &str) -> (r: bool)
    ensures
        r == key_present(views(v@), key@),
{
    let ghost m = views(v@);
    let mut i: usize = 0;
    while i < v.len()
        invariant
            m == views(v@),
            i <= v@.len(),
            forall|k: int| 0 <= k < i ==> (#[trigger] m[k]).key != key@,
        decreases v.len() - i,
    {
        assert(m[i as int] == v@[i as int]@);
        if same(v[i].key.as_str(), key) {
            assert(m[i as int].key == key@);
            return true;
        }
        i = i + 1;
    }
    false
}

fn is_name_present(v: &Vec<PresenceFn>, name: &str) -> (r: bool)
    ensures
        r == name_present(views(v@), name@),
{
    let ghost m = views(v@);
    let mut i: usize = 0;
    while i < v.len()
        invariant
            m == views(v@),
            i <= v@.len(),
            forall|k: int| 0 <= k < i ==> (#[trigger] m[k]).name_orig != name@,
        decreases v.len() - i,
    {
        assert(m[i as int] == v@[i as int]@);
        if same(v[i].name_orig.as_str(), name) {
            assert(m[i as int].name_orig == name@);
            return true;
        }
        i = i + 1;
    }
    false
}

fn was_told(v: &Vec<(String, String)>, name: &str) -> (r: bool)
    ensures
        r == told(views(v@), name@),
{
    let ghost m = views(v@);
    let mut i: usize = 0;
    while i < v.len()
        invariant
            m == views(v@),
            i <= v@.len(),
            forall|k: int| 0 <= k < i ==> (#[trigger] m[k]).1 != name@,
        decreases v.len() - i,
    {
        assert(m[i as int] == (v@[i as int].0@, v@[i as int].1@));
        if same(v[i].1.as_str(), name) {
            assert(m[i as int].1 == name@);
            return true;
        }
        i = i + 1;
    }
    false
}

fn alone_of(v: &Vec<PresenceFn>, other: &Vec<PresenceFn>) -> (r: Vec<(String, String)>)
    ensures
        views(r@) == alone(views(v@), views(other@), v@.len() as int),
{
    let ghost m = views(v@);
    let mut r: Vec<(String, String)> = Vec::new();
    assert(views(r@) =~= Seq::<(Seq<char>, Seq<char>)>::empty());
    let mut i: usize = 0;
    while i < v.len()
        invariant
            m == views(v@),
            i <= v@.len(),
            views(r@) == alone(m, views(other@), i as int),
        decreases v.len() - i,
    {
        let f: &PresenceFn = &v[i];
        assert(m[i as int] == f@);
        if !is_key_present(other, f.key.as_str()) && !is_name_present(other, f.name_orig.as_str())
            && !was_told(&r, f.name_orig.as_str()) {
            let ghost before = r@;
            let ghost x = (f.path@, f.name_orig@);
            r.push((owned(f.path.as_str()), owned(f.name_orig.as_str())));
            assert(views(r@) =~= views(before).push(x));
        }
        i = i + 1;
    }
    r
}

/// The functions that have a body of their own in one build only. Functions are joined by
/// key, or else by signature, whatever files they are attributed to.
pub fn presence_functions(base: &SideModel, target: &SideModel) -> (r: PresenceDiff)
    ensures
        views(r.base_only@) == alone(
            base@.presence,
            target@.presence,
            base@.presence.len() as int,
        ),
        views(r.target_only@) == alone(
            target@.presence,
            base@.presence,
            target@.presence.len() as int,
        ),
{
    PresenceDiff {
        base_only: alone_of(&base.presence_functions, &target.presence_functions),
        target_only: alone_of(&target.presence_functions, &base.presence_functions),
    }
}

/// What is told of a build's functions is what the other build has neither by key nor by
/// signature.
pub proof fn lemma_alone(v: Seq<PresenceShape>, other: Seq<PresenceShape>, n: int)
    requires
        0 <= n <= v.len(),
    ensures
        forall|k: int|
            0 <= k < n && is_alone(#[trigger] v[k], other) ==> told(
                alone(v, other, n),
                v[k].name_orig,
            ),
        forall|k: int|
            0 <= k < alone(v, other, n).len() ==> exists|j: int|
                0 <= j < n && is_alone(#[trigger] v[j], other) && (#[trigger] alone(
                    v,
                    other,
                    n,
                )[k]) == (v[j].path, v[j].name_orig),
    decreases n,
{
    if n > 0 {
        lemma_alone(v, other, n - 1);
        let before = alone(v, other, n - 1);
        let after = alone(v, other, n);
        assert forall|k: int| 0 <= k < n && is_alone(#[trigger] v[k], other) implies told(
            after,
            v[k].name_orig,
        ) by {
            if k < n - 1 || told(before, v[k].name_orig) {
                assert(told(before, v[k].name_orig));
                let i = choose|i: int|
                    0 <= i < before.len() && (#[trigger] before[i]).1 == v[k].name_orig;
                assert(after[i].1 == v[k].name_orig);
            } else {
                assert(after[before.len() as int].1 == v[k].name_orig);
            }
        }
        assert forall|k: int| 0 <= k < after.len() implies exists|j: int|
            0 <= j < n && is_alone(#[trigger] v[j], other) && (#[trigger] after[k]) == (
                v[j].path,
                v[j].name_orig,
            ) by {
            if k < before.len() {
                assert(after[k] == before[k]);
                let j = choose|j: int|
                    0 <= j < n - 1 && is_alone(#[trigger] v[j], other) && before[k] == (
                        v[j].path,
                        v[j].name_orig,
                    );
                assert(is_alone(v[j], other));
            } else {
                assert(is_alone(v[n - 1], other));
            }
        }
    }
}

/// A build has no function that it does not have itself.
pub proof fn lemma_presence_is_like_itself(v: Seq<PresenceShape>, n: int)
    requires
        0 <= n <= v.len(),
    ensures
        alone(v, v, n).len() == 0,
    decreases n,
{
    if n > 0 {
        lemma_presence_is_like_itself(v, n - 1);
        assert(v[n - 1].key == v[n - 1].key);
        assert(key_present(v, v[n - 1].key));
    }
}

// ---------------------------------------------------------------------------
// Source files
// ---------------------------------------------------------------------------

/// The last of the first `n` functions that has a signature.
pub open spec fn last_named(f: Seq<FnShape>, name: Seq<char>, n: int) -> Option<FnShape>
    decreases n,
{
    if n <= 0 {
        None
    } else if f[n - 1].name_orig == name {
        Some(f[n - 1])
    } else {
        last_named(f, name, n - 1)
    }
}

/// The last of the first `n` functions that has a key.
pub open spec fn last_keyed(f: Seq<FnShape>, key: Seq<char>, n: int) -> Option<FnShape>
    decreases n,
{
    if n <= 0 {
        None
    } else if f[n - 1].key == key {
        Some(f[n - 1])
    } else {
        last_keyed(f, key, n - 1)
    }
}

/// The function of a file that a function is compared with: by signature, or else by key.
pub open spec fn counterpart(f: FnShape, target: Seq<FnShape>) -> Option<FnShape> {
    match last_named(target, f.name_orig, target.len() as int) {
        Some(t) => Some(t),
        None => last_keyed(target, f.key, target.len() as int),
    }
}

/// The constants of a function as named values.
pub open spec fn const_values(v: Seq<ConstShape>) -> Seq<(KeyModel, Seq<char>)> {
    v.map_values(|c: ConstShape| (KeyModel { ty: c.typename, value: c.value }, c.name))
}

/// How the constants of two functions differ.
pub open spec fn const_difference(b: FnShape, t: FnShape) -> ValueDifference {
    value_difference(const_values(b.constants), const_values(t.constants))
}

/// The lines of the first `n` constants that have two names.
pub open spec fn with_misnames(
    lines: Seq<Seq<char>>,
    v: Seq<(KeyModel, Seq<char>, Seq<char>)>,
    n: int,
) -> Seq<Seq<char>>
    decreases n,
{
    if n <= 0 {
        lines
    } else {
        let x = v[n - 1];
        with_misnames(lines, v, n - 1).push(
            "    misname  "@ + x.0.ty + " = "@ + dec_int(x.0.value as int) + "  base="@ + x.1
                + "  target="@ + x.2,
        )
    }
}

/// The lines of the first `n` constants that one side has.
pub open spec fn with_sided(
    lines: Seq<Seq<char>>,
    prefix: Seq<char>,
    v: Seq<(KeyModel, Seq<char>)>,
    n: int,
) -> Seq<Seq<char>>
    decreases n,
{
    if n <= 0 {
        lines
    } else {
        let x = v[n - 1];
        with_sided(lines, prefix, v, n - 1).push(
            prefix + x.0.ty + " "@ + x.1 + " = "@ + dec_int(x.0.value as int),
        )
    }
}

/// Lines with those about the constants of a function.
pub open spec fn with_const_lines(
    lines: Seq<Seq<char>>,
    name: Seq<char>,
    d: ValueDifference,
) -> Seq<Seq<char>> {
    if !d.is_diverged() {
        lines
    } else {
        let a = with_misnames(
            lines.push("  [const]  "@ + name),
            d.misnamed,
            d.misnamed.len() as int,
        );
        let b = with_sided(a, "    only-base  "@, d.only_base, d.only_base.len() as int);
        with_sided(b, "    only-tgt   "@, d.only_target, d.only_target.len() as int)
    }
}

/// Lines with that about the line tables of two functions.
pub open spec fn with_table_line(lines: Seq<Seq<char>>, b: FnShape, t: FnShape) -> Seq<Seq<char>> {
    lines.push(
        "  [line-table]  "@ + b.name_orig + ": base="@ + dec(b.raw_line_table_count as nat)
            + " target="@ + dec(t.raw_line_table_count as nat),
    )
}

/// How many functions of a file differ, and the lines about them.
pub struct FunctionNotes {
    pub lines: Seq<Seq<char>>,
    pub tables: nat,
    pub constants: nat,
}

/// Notes with those about a function.
pub open spec fn with_function_notes(
    s: FunctionNotes,
    b: FnShape,
    target: Seq<FnShape>,
    compare_tables: bool,
) -> FunctionNotes {
    match counterpart(b, target) {
        None => s,
        Some(t) => {
            let differs = compare_tables && b.raw_line_table_count != t.raw_line_table_count;
            let lines = if differs {
                with_table_line(s.lines, b, t)
            } else {
                s.lines
            };
            let d = const_difference(b, t);
            FunctionNotes {
                lines: with_const_lines(lines, b.name_orig, d),
                tables: s.tables + one_if(differs),
                constants: s.constants + one_if(d.is_diverged()),
            }
        },
    }
}

/// Notes about the first `n` functions.
pub open spec fn function_notes(
    start: Seq<Seq<char>>,
    base: Seq<FnShape>,
    target: Seq<FnShape>,
    compare_tables: bool,
    n: int,
) -> FunctionNotes
    decreases n,
{
    if n <= 0 {
        FunctionNotes { lines: start, tables: 0, constants: 0 }
    } else {
        with_function_notes(
            function_notes(start, base, target, compare_tables, n - 1),
            base[n - 1],
            target,
            compare_tables,
        )
    }
}

/// What is shown for the keys of the first `n` functions.
pub open spec fn displays(base: Seq<FnShape>, target: Seq<FnShape>, n: int) -> Seq<
    (Seq<char>, Seq<char>),
>
    decreases n,
{
    if n <= 0 {
        Seq::empty()
    } else {
        with_entry(
            displays(base, target, n - 1),
            cross_key(base[n - 1], target),
            base[n - 1].name_orig,
        )
    }
}

/// What is shown for the keys of a file.
pub open spec fn display_list(base: Seq<FnShape>, target: Seq<FnShape>) -> Seq<
    (Seq<char>, Seq<char>),
> {
    displays(base, target, base.len() as int)
}

/// Some keys as they are shown.
pub open spec fn shown_all(
    keys: Seq<Seq<char>>,
    display: Seq<(Seq<char>, Seq<char>)>,
) -> Seq<Seq<char>> {
    keys.map_values(|k: Seq<char>| shown(display, k))
}

/// Some keys, put in the order of the lines that they have, in words.
pub open spec fn ordered_texts(
    keys: Seq<Seq<char>>,
    file: Seq<FnShape>,
    other: Seq<FnShape>,
    display: Seq<(Seq<char>, Seq<char>)>,
) -> Seq<Seq<char>> {
    crate::order::sorted_by(
        keys.map_values(|k: Seq<char>| (k, line_of(file, other, k)->0)),
        |a: (Seq<char>, u32), b: (Seq<char>, u32)| crate::divergence_order::row_le(a, b),
    ).map_values(|x: (Seq<char>, u32)| crate::divergence_order::row_text(x, display))
}

/// The lines about functions that stand elsewhere.
pub open spec fn order_lines(base: Seq<FnShape>, target: Seq<FnShape>) -> Seq<Seq<char>> {
    let moved = order_moved(base, target);
    if moved.len() == 0 {
        Seq::empty()
    } else {
        let display = display_list(base, target);
        let a = Seq::empty().push("  [fn-order]"@);
        let b = with_list(a, "    moved      "@, shown_all(moved, display));
        let c = with_list(
            b,
            "    base order "@,
            ordered_texts(moved, base, target, display),
        );
        with_list(c, "    tgt order  "@, ordered_texts(moved, target, base, display))
    }
}

/// What is told of a file.
pub open spec fn file_notes(
    base: Seq<FnShape>,
    target: Seq<FnShape>,
    compare_tables: bool,
) -> FunctionNotes {
    function_notes(
        order_lines(base, target),
        base,
        target,
        compare_tables,
        base.len() as int,
    )
}

/// How many files were compared and how they diverge.
pub struct SourceCounts {
    pub both: usize,
    pub diverged: usize,
    pub order_diff: usize,
    pub raw_line_table_diff: usize,
    pub const_diff: usize,
    pub only_base: Vec<String>,
    pub only_target: Vec<String>,
}

/// How many files were compared, as a model.
pub struct SourceTally {
    pub both: usize,
    pub diverged: usize,
    pub order_diff: usize,
    pub raw_line_table_diff: usize,
    pub const_diff: usize,
    pub only_base: Seq<Seq<char>>,
    pub only_target: Seq<Seq<char>>,
}

impl View for SourceCounts {
    type V = SourceTally;

    open spec fn view(&self) -> SourceTally {
        SourceTally {
            both: self.both,
            diverged: self.diverged,
            order_diff: self.order_diff,
            raw_line_table_diff: self.raw_line_table_diff,
            const_diff: self.const_diff,
            only_base: texts(self.only_base@),
            only_target: texts(self.only_target@),
        }
    }
}

/// Nothing counted.
pub open spec fn no_sources() -> SourceTally {
    SourceTally {
        both: 0,
        diverged: 0,
        order_diff: 0,
        raw_line_table_diff: 0,
        const_diff: 0,
        only_base: Seq::empty(),
        only_target: Seq::empty(),
    }
}

impl SourceCounts {
    /// Nothing counted.
    pub fn new() -> (r: SourceCounts)
        ensures
            r@ == no_sources(),
    {
        let r: SourceCounts = SourceCounts {
            both: 0,
            diverged: 0,
            order_diff: 0,
            raw_line_table_diff: 0,
            const_diff: 0,
            only_base: Vec::new(),
            only_target: Vec::new(),
        };
        assert(r@.only_base =~= Seq::<Seq<char>>::empty());
        assert(r@.only_target =~= Seq::<Seq<char>>::empty());
        r
    }
}

impl Default for SourceCounts {
    fn default() -> (r: Self)
        ensures
            r@ == no_sources(),
    {
        SourceCounts::new()
    }
}

/// What was counted, with how two files differ.
pub open spec fn file_counted(
    c: SourceTally,
    base: Seq<FnShape>,
    target: Seq<FnShape>,
    compare_tables: bool,
) -> SourceTally {
    let notes = file_notes(base, target, compare_tables);
    SourceTally {
        order_diff: tally(c.order_diff, one_if(order_moved(base, target).len() > 0)),
        raw_line_table_diff: tally(c.raw_line_table_diff, notes.tables),
        const_diff: tally(c.const_diff, notes.constants),
        ..c
    }
}

fn find_last_named(f: &FileModel, name: &str) -> (r: Option<usize>)
    ensures
        match r {
            Some(i) => i < f.functions@.len() && last_named(f@, name@, f@.len() as int) == Some(
                f@[i as int],
            ),
            None => last_named(f@, name@, f@.len() as int) is None,
        },
{
    let ghost m = f@;
    let mut n: usize = f.functions.len();
    while n > 0
        invariant
            m == views(f.functions@),
            m == f@,
            n <= f.functions@.len(),
            last_named(m, name@, m.len() as int) == last_named(m, name@, n as int),
        decreases n,
    {
        assert(m[n - 1] == f.functions@[n - 1]@);
        if same(f.functions[n - 1].name_orig.as_str(), name) {
            return Some(n - 1);
        }
        n = n - 1;
    }
    None
}

fn find_last_keyed(f: &FileModel, key: &str) -> (r: Option<usize>)
    ensures
        match r {
            Some(i) => i < f.functions@.len() && last_keyed(f@, key@, f@.len() as int) == Some(
                f@[i as int],
            ),
            None => last_keyed(f@, key@, f@.len() as int) is None,
        },
{
    let ghost m = f@;
    let mut n: usize = f.functions.len();
    while n > 0
        invariant
            m == views(f.functions@),
            m == f@,
            n <= f.functions@.len(),
            last_keyed(m, key@, m.len() as int) == last_keyed(m, key@, n as int),
        decreases n,
    {
        assert(m[n - 1] == f.functions@[n - 1]@);
        if same(f.functions[n - 1].key.as_str(), key) {
            return Some(n - 1);
        }
        n = n - 1;
    }
    None
}

fn find_counterpart<'a>(f: &FnModel, target: &'a FileModel) -> (r: Option<&'a FnModel>)
    ensures
        match r {
            Some(t) => counterpart(f@, target@) == Some(t@),
            None => counterpart(f@, target@) is None,
        },
{
    match find_last_named(target, f.name_orig.as_str()) {
        Some(i) => {
            assert(target@[i as int] == target.functions@[i as int]@);
            Some(&target.functions[i])
        },
        None => match find_last_keyed(target, f.key.as_str()) {
            Some(i) => {
                assert(target@[i as int] == target.functions@[i as int]@);
                Some(&target.functions[i])
            },
            None => None,
        },
    }
}

fn const_values_of(v: &Vec<ConstModel>) -> (r: Vec<NamedValue>)
    ensures
        views(r@) == const_values(views(v@)),
{
    let mut r: Vec<NamedValue> = Vec::new();
    let mut i: usize = 0;
    while i < v.len()
        invariant
            i <= v@.len(),
            r@.len() == i,
            forall|k: int|
                0 <= k < i ==> (#[trigger] r@[k])@ == (
                    (KeyModel { ty: v@[k].typename@, value: v@[k].value }),
                    v@[k].name@,
                ),
        decreases v.len() - i,
    {
        r.push(
            NamedValue {
                key: ValueKey { ty: owned(v[i].typename.as_str()), value: v[i].value },
                name: owned(v[i].name.as_str()),
            },
        );
        i = i + 1;
    }
    assert(views(r@) =~= const_values(views(v@)));
    r
}

fn push_misnames(lines: &mut Vec<String>, v: &Vec<Misnamed>)
    ensures
        texts(final(lines)@) == with_misnames(texts(old(lines)@), views(v@), v@.len() as int),
{
    let ghost start = texts(lines@);
    let ghost m = views(v@);
    let mut i: usize = 0;
    while i < v.len()
        invariant
            m == views(v@),
            i <= v@.len(),
            start == texts(old(lines)@),
            texts(lines@) == with_misnames(start, m, i as int),
        decreases v.len() - i,
    {
        let x: &Misnamed = &v[i];
        assert(m[i as int] == x@);
        let line: String = cat8(
            "    misname  ",
            x.key.ty.as_str(),
            " = ",
            decimal_signed(x.key.value).as_str(),
            "  base=",
            x.base.as_str(),
            "  target=",
            x.target.as_str(),
        );
        push_line(lines, line);
        i = i + 1;
    }
}

fn push_sided(lines: &mut Vec<String>, prefix: &str, v: &Vec<NamedValue>)
    ensures
        texts(final(lines)@) == with_sided(
            texts(old(lines)@),
            prefix@,
            views(v@),
            v@.len() as int,
        ),
{
    let ghost start = texts(lines@);
    let ghost m = views(v@);
    let mut i: usize = 0;
    while i < v.len()
        invariant
            m == views(v@),
            i <= v@.len(),
            start == texts(old(lines)@),
            texts(lines@) == with_sided(start, prefix@, m, i as int),
        decreases v.len() - i,
    {
        let x: &NamedValue = &v[i];
        assert(m[i as int] == x@);
        let line: String = cat6(
            prefix,
            x.key.ty.as_str(),
            " ",
            x.name.as_str(),
            " = ",
            decimal_signed(x.key.value).as_str(),
        );
        push_line(lines, line);
        i = i + 1;
    }
}

fn push_const_lines(lines: &mut Vec<String>, name: &str, consts: &ValueDiff)
    ensures
        texts(final(lines)@) == with_const_lines(texts(old(lines)@), name@, consts@),
{
    if !consts.diverged() {
        return ;
    }
    push_line(lines, cat2("  [const]  ", name));
    push_misnames(lines, &consts.misnamed);
    push_sided(lines, "    only-base  ", &consts.only_base);
    push_sided(lines, "    only-tgt   ", &consts.only_target);
}

/// What was counted of the functions of a file.
struct FunctionCounts {
    tables: usize,
    constants: usize,
}

fn note_function(
    lines: &mut Vec<String>,
    counts: &mut FunctionCounts,
    f: &FnModel,
    target: &FileModel,
    compare_tables: bool,
    s: Ghost<FunctionNotes>,
)
    requires
        s@.lines == texts(old(lines)@),
        s@.tables == old(counts).tables,
        s@.constants == old(counts).constants,
        old(counts).tables < usize::MAX,
        old(counts).constants < usize::MAX,
    ensures
        ({
            let r = with_function_notes(s@, f@, target@, compare_tables);
            &&& r.lines == texts(final(lines)@)
            &&& r.tables == final(counts).tables
            &&& r.constants == final(counts).constants
            &&& final(counts).tables <= old(counts).tables + 1
            &&& final(counts).constants <= old(counts).constants + 1
        }),
{
    let found: Option<&FnModel> = find_counterpart(f, target);
    if let Some(t) = found {
        if compare_tables && f.raw_line_table_count != t.raw_line_table_count {
            counts.tables = counts.tables + 1;
            let line: String = cat6(
                "  [line-table]  ",
                f.name_orig.as_str(),
                ": base=",
                decimal(f.raw_line_table_count as u64).as_str(),
                " target=",
                decimal(t.raw_line_table_count as u64).as_str(),
            );
            push_line(lines, line);
        }
        let consts: ValueDiff = value_match(
            &const_values_of(&f.constants),
            &const_values_of(&t.constants),
        );
        if consts.diverged() {
            counts.constants = counts.constants + 1;
        }
        push_const_lines(lines, f.name_orig.as_str(), &consts);
    }
}

fn displays_of(base: &FileModel, target: &FileModel) -> (r: Vec<(String, String)>)
    ensures
        views(r@) == display_list(base@, target@),
{
    let ghost m = base@;
    let mut r: Vec<(String, String)> = Vec::new();
    assert(views(r@) =~= Seq::<(Seq<char>, Seq<char>)>::empty());
    let mut i: usize = 0;
    while i < base.functions.len()
        invariant
            m == views(base.functions@),
            m == base@,
            i <= base.functions@.len(),
            views(r@) == displays(m, target@, i as int),
        decreases base.functions.len() - i,
    {
        let f: &FnModel = &base.functions[i];
        assert(m[i as int] == f@);
        let key: String = cross_pdb_function_key(f, target);
        put_entry(&mut r, key, owned(f.name_orig.as_str()));
        i = i + 1;
    }
    r
}

fn shown_of(keys: &Vec<String>, display: &Vec<(String, String)>) -> (r: Vec<String>)
    ensures
        texts(r@) == shown_all(texts(keys@), views(display@)),
{
    let mut r: Vec<String> = Vec::new();
    let mut i: usize = 0;
    while i < keys.len()
        invariant
            i <= keys@.len(),
            r@.len() == i,
            forall|k: int|
                0 <= k < i ==> (#[trigger] r@[k])@ == shown(views(display@), keys@[k]@),
        decreases keys.len() - i,
    {
        r.push(owned(display_of(display, keys[i].as_str())));
        i = i + 1;
    }
    assert(texts(r@) =~= shown_all(texts(keys@), views(display@)));
    r
}

fn push_order_lines(lines: &mut Vec<String>, b: &FileModel, t: &FileModel) -> (r: bool)
    requires
        old(lines)@.len() == 0,
    ensures
        texts(final(lines)@) == order_lines(b@, t@),
        r == (order_moved(b@, t@).len() > 0),
{
    let moved: Vec<String> = function_order_moved(b, t);
    let ghost keys = order_moved(b@, t@);
    if moved.len() == 0 {
        assert(texts(lines@) =~= Seq::<Seq<char>>::empty());
        return false;
    }
    let display: Vec<(String, String)> = displays_of(b, t);
    let base_lines: Vec<(String, u32)> = function_lines(b, t);
    let target_lines: Vec<(String, u32)> = function_lines(t, b);
    proof {
        assert forall|i: int| 0 <= i < moved@.len() implies entry(
            views(base_lines@),
            #[trigger] texts(moved@)[i],
        ) is Some by {
            lemma_moved_is_common(b@, t@, i);
        }
        assert forall|i: int| 0 <= i < moved@.len() implies entry(
            views(target_lines@),
            #[trigger] texts(moved@)[i],
        ) is Some by {
            lemma_moved_is_common(b@, t@, i);
        }
        let x = crate::divergence_order::rows_for(keys, views(base_lines@));
        let y = crate::divergence_order::rows_for(keys, views(target_lines@));
        assert(x =~= keys.map_values(|k: Seq<char>| (k, line_of(b@, t@, k)->0)));
        assert(y =~= keys.map_values(|k: Seq<char>| (k, line_of(t@, b@, k)->0)));
    }
    let base_order: Vec<String> = ordered_function_display(&moved, &base_lines, &display);
    let target_order: Vec<String> = ordered_function_display(&moved, &target_lines, &display);
    assert(texts(lines@) =~= Seq::<Seq<char>>::empty());
    push_line(lines, owned("  [fn-order]"));
    push_list(lines, "    moved      ", &shown_of(&moved, &display));
    push_list(lines, "    base order ", &base_order);
    push_list(lines, "    tgt order  ", &target_order);
    true
}

/// Tells how two files differ, and counts it. Returns whether they do.
pub fn diff_file(
    path: &str,
    b: &FileModel,
    t: &FileModel,
    cfg: &Config,
    counts: &mut SourceCounts,
    out: &mut String,
) -> (r: bool)
    ensures
        ({
            let notes = file_notes(b@, t@, cfg.compare_raw_line_table_counts);
            &&& r == (notes.lines.len() > 0)
            &&& final(counts)@ == file_counted(
                old(counts)@,
                b@,
                t@,
                cfg.compare_raw_line_table_counts,
            )
            &&& final(out)@ == old(out)@ + block(path@, notes.lines)
        }),
{
    let mut lines: Vec<String> = Vec::new();
    let has_moved: bool = push_order_lines(&mut lines, b, t);
    if has_moved {
        counts.order_diff = count_on(counts.order_diff, 1);
    }
    assert(counts.order_diff == tally(old(counts).order_diff, one_if(has_moved)));
    let ghost start = texts(lines@);
    let ghost m = b@;
    let tables: bool = cfg.compare_raw_line_table_counts;
    let mut found: FunctionCounts = FunctionCounts { tables: 0, constants: 0 };
    let n: usize = b.functions.len();
    let mut i: usize = 0;
    while i < n
        invariant
            m == views(b.functions@),
            m == b@,
            n == b.functions@.len(),
            i <= n,
            found.tables <= i,
            found.constants <= i,
            ({
                let s = function_notes(start, m, t@, tables, i as int);
                &&& s.lines == texts(lines@)
                &&& s.tables == found.tables
                &&& s.constants == found.constants
            }),
        decreases n - i,
    {
        assert(m[i as int] == b.functions@[i as int]@);
        let ghost s = function_notes(start, m, t@, tables, i as int);
        note_function(&mut lines, &mut found, &b.functions[i], t, tables, Ghost(s));
        i = i + 1;
    }
    counts.raw_line_table_diff = count_on(counts.raw_line_table_diff, found.tables);
    counts.const_diff = count_on(counts.const_diff, found.constants);
    write_block(out, path, &lines)
}

proof fn lemma_last_named(f: Seq<FnShape>, i: int, n: int)
    requires
        0 <= i < n <= f.len(),
        forall|j: int, k: int|
            0 <= j < k < f.len() ==> (#[trigger] f[j]).name_orig != (#[trigger] f[k]).name_orig,
    ensures
        last_named(f, f[i].name_orig, n) == Some(f[i]),
    decreases n,
{
    if n - 1 > i {
        assert(f[i].name_orig != f[n - 1].name_orig);
        lemma_last_named(f, i, n - 1);
    }
}

proof fn lemma_no_notes(f: Seq<FnShape>, compare_tables: bool, n: int)
    requires
        0 <= n <= f.len(),
        forall|j: int, k: int|
            0 <= j < k < f.len() ==> (#[trigger] f[j]).name_orig != (#[trigger] f[k]).name_orig,
    ensures
        function_notes(Seq::empty(), f, f, compare_tables, n) == (FunctionNotes {
            lines: Seq::empty(),
            tables: 0,
            constants: 0,
        }),
    decreases n,
{
    if n > 0 {
        lemma_no_notes(f, compare_tables, n - 1);
        lemma_last_named(f, n - 1, f.len() as int);
        lemma_values_are_like_themselves(const_values(f[n - 1].constants));
    }
}

/// A file does not differ from itself, where no two of its functions have one signature.
pub proof fn lemma_file_is_like_itself(f: Seq<FnShape>, compare_tables: bool)
    requires
        forall|j: int, k: int|
            0 <= j < k < f.len() ==> (#[trigger] f[j]).name_orig != (#[trigger] f[k]).name_orig,
    ensures
        file_notes(f, f, compare_tables).lines.len() == 0,
        file_notes(f, f, compare_tables).tables == 0,
        file_notes(f, f, compare_tables).constants == 0,
{
    lemma_order_is_like_itself(f);
    lemma_no_notes(f, compare_tables, f.len() as int);
}

} // verus!
