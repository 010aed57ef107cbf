//! Where two builds diverge: in their types and in their source files.
//!
//! Types are joined by name and compared in size, members, the order of methods and access.
//! Source files are joined by path and compared in the order of their functions and in the
//! constants of these. Functions are compared in whether they have a body of their own.

use crate::divergence_diff::{lemma_seq_is_like_itself, lemma_values_are_like_themselves, seq_diff,
    seq_difference, value_difference, value_match, KeyModel, Misnamed, NamedValue, SeqDiff,
    SeqDifference, ValueDiff, ValueDifference, ValueKey};
use crate::divergence_model::{ClassModel, ClassShape, EnumModel, EnumShape, FieldModel, FieldShape,
    MethodModel, MethodShape};
use crate::lcs::views;
use crate::number::{hex_capital, hexadecimal_capital};
use crate::order::has_text;
use crate::pieces::{cat10, cat2, cat3, cat4, cat6, lemma_texts_push};
use crate::search::{join, joined};
use crate::text::{owned, same, texts};
use vstd::prelude::*;
use vstd::string::StringExecFns;

verus! {

// ---------------------------------------------------------------------------
// Members
// ---------------------------------------------------------------------------

/// A member that differs: its name, and its type and offset in both builds.
#[derive(Debug)]
pub struct ChangedField {
    pub name: String,
    pub base: (String, u64),
    pub target: (String, u64),
}

/// A member that differs, as a model.
pub struct ChangedModel {
    pub name: Seq<char>,
    pub base: (Seq<char>, u64),
    pub target: (Seq<char>, u64),
}

impl View for ChangedField {
    type V = ChangedModel;

    open spec fn view(&self) -> ChangedModel {
        ChangedModel {
            name: self.name@,
            base: (self.base.0@, self.base.1),
            target: (self.target.0@, self.target.1),
        }
    }
}

/// How the members of two classes differ.
pub struct FieldDiff {
    pub changed: Vec<ChangedField>,
    pub only_base: Vec<String>,
    pub only_target: Vec<String>,
    pub moved: Vec<String>,
}

/// How the members of two classes differ, as a model.
pub struct FieldDifference {
    pub changed: Seq<ChangedModel>,
    pub order: SeqDifference,
}

impl View for FieldDiff {
    type V = FieldDifference;

    open spec fn view(&self) -> FieldDifference {
        FieldDifference {
            changed: views(self.changed@),
            order: SeqDifference {
                only_base: texts(self.only_base@),
                only_target: texts(self.only_target@),
                moved: texts(self.moved@),
            },
        }
    }
}

impl FieldDifference {
    /// Whether the members differ.
    pub open spec fn is_diverged(self) -> bool {
        self.changed.len() > 0 || self.order.is_diverged()
    }
}

impl FieldDiff {
    /// Whether the members differ.
    pub fn diverged(&self) -> (r: bool)
        ensures
            r == self@.is_diverged(),
    {
        self.changed.len() > 0 || self.only_base.len() > 0 || self.only_target.len() > 0
            || self.moved.len() > 0
    }
}

/// The names of some members.
pub open spec fn field_names(f: Seq<FieldShape>) -> Seq<Seq<char>> {
    f.map_values(|x: FieldShape| x.name)
}

/// The last of the first `n` members that has a name.
pub open spec fn last_field(f: Seq<FieldShape>, name: Seq<char>, n: int) -> Option<FieldShape>
    decreases n,
{
    if n <= 0 {
        None
    } else if f[n - 1].name == name {
        Some(f[n - 1])
    } else {
        last_field(f, name, n - 1)
    }
}

/// Whether the name of member `i` occurs before it.
pub open spec fn repeats(f: Seq<Seq<char>>, i: int) -> bool {
    exists|k: int| 0 <= k < i && #[trigger] f[k] == f[i]
}

/// The members among the first `n` that have another type or offset in the target. A name
/// counts once.
pub open spec fn changed_fields(base: Seq<FieldShape>, target: Seq<FieldShape>, n: int) -> Seq<
    ChangedModel,
>
    decreases n,
{
    if n <= 0 {
        Seq::empty()
    } else {
        let before = changed_fields(base, target, n - 1);
        let b = base[n - 1];
        if repeats(field_names(base), n - 1) {
            before
        } else {
            match last_field(target, b.name, target.len() as int) {
                Some(t) => if b.typename != t.typename || b.offset != t.offset {
                    before.push(
                        ChangedModel {
                            name: b.name,
                            base: (b.typename, b.offset),
                            target: (t.typename, t.offset),
                        },
                    )
                } else {
                    before
                },
                None => before,
            }
        }
    }
}

/// How the members of two classes differ.
pub open spec fn field_difference(base: Seq<FieldShape>, target: Seq<FieldShape>) -> FieldDifference {
    FieldDifference {
        changed: changed_fields(base, target, base.len() as int),
        order: seq_difference(field_names(base), field_names(target)),
    }
}

fn names_of_fields(f: &Vec<FieldModel>) -> (r: Vec<String>)
    ensures
        texts(r@) == field_names(views(f@)),
{
    let mut r: Vec<String> = Vec::new();
    let mut i: usize = 0;
    while i < f.len()
        invariant
            i <= f@.len(),
            r@.len() == i,
            forall|k: int| 0 <= k < i ==> (#[trigger] r@[k])@ == f@[k].name@,
        decreases f.len() - i,
    {
        r.push(owned(f[i].name.as_str()));
        i = i + 1;
    }
    assert(texts(r@) =~= field_names(views(f@)));
    r
}

fn find_last_field(f: &Vec<FieldModel>, name: &str) -> (r: Option<usize>)
    ensures
        match r {
            Some(i) => i < f@.len() && last_field(views(f@), name@, f@.len() as int) == Some(
                views(f@)[i as int],
            ),
            None => last_field(views(f@), name@, f@.len() as int) is None,
        },
{
    let ghost m = views(f@);
    let mut n: usize = f.len();
    while n > 0
        invariant
            m == views(f@),
            n <= f@.len(),
            last_field(m, name@, f@.len() as int) == last_field(m, name@, n as int),
        decreases n,
    {
        assert(m[n - 1] == f@[n - 1]@);
        if same(f[n - 1].name.as_str(), name) {
            return Some(n - 1);
        }
        n = n - 1;
    }
    None
}

/// Whether a text occurs before its place.
fn does_repeat(v: &Vec<String>, i: usize) -> (r: bool)
    requires
        i < v@.len(),
    ensures
        r == repeats(texts(v@), i as int),
{
    let ghost m = texts(v@);
    let mut k: usize = 0;
    while k < i
        invariant
            m == texts(v@),
            i < v@.len(),
            k <= i,
            forall|j: int| 0 <= j < k ==> #[trigger] m[j] != m[i as int],
        decreases i - k,
    {
        assert(m[k as int] == v@[k as int]@);
        assert(m[i as int] == v@[i as int]@);
        if same(v[k].as_str(), v[i].as_str()) {
            assert(m[k as int] == m[i as int]);
            return true;
        }
        k = k + 1;
    }
    false
}

/// How the members of two classes differ.
pub fn diff_fields(base: &Vec<FieldModel>, target: &Vec<FieldModel>) -> (r: FieldDiff)
    ensures
        r@ == field_difference(views(base@), views(target@)),
{
    let ghost b = views(base@);
    let ghost t = views(target@);
    let base_names: Vec<String> = names_of_fields(base);
    let target_names: Vec<String> = names_of_fields(target);
    let order: SeqDiff = seq_diff(&base_names, &target_names);
    let mut changed: Vec<ChangedField> = Vec::new();
    assert(views(changed@) =~= Seq::<ChangedModel>::empty());
    let mut i: usize = 0;
    while i < base.len()
        invariant
            b == views(base@),
            t == views(target@),
            texts(base_names@) == field_names(b),
            base_names@.len() == base@.len(),
            i <= base@.len(),
            views(changed@) == changed_fields(b, t, i as int),
        decreases base.len() - i,
    {
        assert(b[i as int] == base@[i as int]@);
        if !does_repeat(&base_names, i) {
            if let Some(k) = find_last_field(target, base[i].name.as_str()) {
                assert(t[k as int] == target@[k as int]@);
                let x: &FieldModel = &base[i];
                let y: &FieldModel = &target[k];
                if !same(x.typename.as_str(), y.typename.as_str()) || x.offset != y.offset {
                    let one: ChangedField = ChangedField {
                        name: owned(x.name.as_str()),
                        base: (owned(x.typename.as_str()), x.offset),
                        target: (owned(y.typename.as_str()), y.offset),
                    };
                    let ghost before = changed@;
                    let ghost m = one@;
                    changed.push(one);
                    assert(views(changed@) =~= views(before).push(m));
                }
            }
        }
        i = i + 1;
    }
    FieldDiff {
        changed,
        only_base: order.only_base,
        only_target: order.only_target,
        moved: order.moved,
    }
}

// ---------------------------------------------------------------------------
// Access
// ---------------------------------------------------------------------------

/// Whether a number specifies an access: private, protected or public.
pub open spec fn is_specified(access: u8) -> bool {
    1 <= access <= 3
}

/// Whether both builds specify an access, and not the same.
pub open spec fn accesses_differ(base: u8, target: u8) -> bool {
    is_specified(base) && is_specified(target) && base != target
}

/// Whether both builds specify an access, and not the same.
pub fn access_differs(base: u8, target: u8) -> (r: bool)
    ensures
        r == accesses_differ(base, target),
{
    1 <= base && base <= 3 && 1 <= target && target <= 3 && base != target
}

/// An access in words.
pub open spec fn access_word(access: u8) -> Seq<char> {
    if access == 1 {
        "private"@
    } else if access == 2 {
        "protected"@
    } else if access == 3 {
        "public"@
    } else {
        "unspecified"@
    }
}

/// An access in words.
pub fn access_name(access: u8) -> (r: &'static str)
    ensures
        r@ == access_word(access),
{
    match access {
        1 => "private",
        2 => "protected",
        3 => "public",
        _ => "unspecified",
    }
}

/// The members of a class with their access.
pub open spec fn field_accesses(f: Seq<FieldShape>) -> Seq<(Seq<char>, u8)> {
    f.map_values(|x: FieldShape| (x.name, x.access))
}

/// The methods of a class with their access.
pub open spec fn method_accesses(m: Seq<MethodShape>) -> Seq<(Seq<char>, u8)> {
    m.map_values(|x: MethodShape| (x.sig, x.access))
}

/// The access of the first member of a name, from `i` on.
pub open spec fn access_from(v: Seq<(Seq<char>, u8)>, member: Seq<char>, i: int) -> Option<u8>
    decreases v.len() - i,
{
    if i < 0 || i >= v.len() {
        None
    } else if v[i].0 == member {
        Some(v[i].1)
    } else {
        access_from(v, member, i + 1)
    }
}

/// The names of some members with their access.
pub open spec fn member_names(v: Seq<(Seq<char>, u8)>) -> Seq<Seq<char>> {
    v.map_values(|x: (Seq<char>, u8)| x.0)
}

/// The members among the first `n` of the base whose access differs, behind others. What
/// only one build has is left out, and a name counts once.
pub open spec fn with_changes(
    start: Seq<(Seq<char>, u8, u8)>,
    base: Seq<(Seq<char>, u8)>,
    target: Seq<(Seq<char>, u8)>,
    one_sided: SeqDifference,
    n: int,
) -> Seq<(Seq<char>, u8, u8)>
    decreases n,
{
    if n <= 0 {
        start
    } else {
        let before = with_changes(start, base, target, one_sided, n - 1);
        let (member, access) = base[n - 1];
        if one_sided.only_base.contains(member) || one_sided.only_target.contains(member)
            || repeats(member_names(base), n - 1) {
            before
        } else {
            match access_from(target, member, 0) {
                Some(other) => if accesses_differ(access, other) {
                    before.push((member, access, other))
                } else {
                    before
                },
                None => before,
            }
        }
    }
}

/// The members whose access differs: first the data, then the methods.
pub open spec fn visibility_difference(
    b: ClassShape,
    t: ClassShape,
    fields: SeqDifference,
    methods: SeqDifference,
) -> Seq<(Seq<char>, u8, u8)> {
    with_changes(
        with_changes(
            Seq::empty(),
            field_accesses(b.fields),
            field_accesses(t.fields),
            fields,
            b.fields.len() as int,
        ),
        method_accesses(b.methods),
        method_accesses(t.methods),
        methods,
        b.methods.len() as int,
    )
}

fn accesses_of_fields(f: &Vec<FieldModel>) -> (r: Vec<(String, u8)>)
    ensures
        views(r@) == field_accesses(views(f@)),
{
    let mut r: Vec<(String, u8)> = Vec::new();
    let mut i: usize = 0;
    while i < f.len()
        invariant
            i <= f@.len(),
            r@.len() == i,
            forall|k: int|
                0 <= k < i ==> (#[trigger] r@[k]).0@ == f@[k].name@ && r@[k].1 == f@[k].access,
        decreases f.len() - i,
    {
        r.push((owned(f[i].name.as_str()), f[i].access));
        i = i + 1;
    }
    assert(views(r@) =~= field_accesses(views(f@)));
    r
}

fn accesses_of_methods(m: &Vec<MethodModel>) -> (r: Vec<(String, u8)>)
    ensures
        views(r@) == method_accesses(views(m@)),
{
    let mut r: Vec<(String, u8)> = Vec::new();
    let mut i: usize = 0;
    while i < m.len()
        invariant
            i <= m@.len(),
            r@.len() == i,
            forall|k: int|
                0 <= k < i ==> (#[trigger] r@[k]).0@ == m@[k].sig@ && r@[k].1 == m@[k].access,
        decreases m.len() - i,
    {
        r.push((owned(m[i].sig.as_str()), m[i].access));
        i = i + 1;
    }
    assert(views(r@) =~= method_accesses(views(m@)));
    r
}

fn find_access(v: &Vec<(String, u8)>, member: &str) -> (r: Option<u8>)
    ensures
        r == access_from(views(v@), member@, 0),
{
    let ghost m = views(v@);
    let mut i: usize = 0;
    while i < v.len()
        invariant
            m == views(v@),
            i <= v@.len(),
            access_from(m, member@, 0) == access_from(m, member@, i as int),
        decreases v.len() - i,
    {
        assert(m[i as int] == (v@[i as int].0@, v@[i as int].1));
        if same(v[i].0.as_str(), member) {
            return Some(v[i].1);
        }
        i = i + 1;
    }
    None
}

fn occurs_before(v: &Vec<(String, u8)>, i: usize) -> (r: bool)
    requires
        i < v@.len(),
    ensures
        r == repeats(member_names(views(v@)), i as int),
{
    let ghost m = member_names(views(v@));
    let mut k: usize = 0;
    while k < i
        invariant
            m == member_names(views(v@)),
            i < v@.len(),
            k <= i,
            forall|j: int| 0 <= j < k ==> #[trigger] m[j] != m[i as int],
        decreases i - k,
    {
        assert(m[k as int] == v@[k as int].0@);
        assert(m[i as int] == v@[i as int].0@);
        if same(v[k].0.as_str(), v[i].0.as_str()) {
            assert(m[k as int] == m[i as int]);
            return true;
        }
        k = k + 1;
    }
    false
}

fn add_changes(
    out: &mut Vec<(String, u8, u8)>,
    base: &Vec<(String, u8)>,
    target: &Vec<(String, u8)>,
    only_base: &Vec<String>,
    only_target: &Vec<String>,
    d: Ghost<SeqDifference>,
)
    requires
        d@.only_base == texts(only_base@),
        d@.only_target == texts(only_target@),
    ensures
        views(final(out)@) == with_changes(
            views(old(out)@),
            views(base@),
            views(target@),
            d@,
            base@.len() as int,
        ),
{
    let ghost start = views(out@);
    let ghost b = views(base@);
    let mut i: usize = 0;
    while i < base.len()
        invariant
            start == views(old(out)@),
            b == views(base@),
            d@.only_base == texts(only_base@),
            d@.only_target == texts(only_target@),
            i <= base@.len(),
            views(out@) == with_changes(start, b, views(target@), d@, i as int),
        decreases base.len() - i,
    {
        assert(b[i as int] == (base@[i as int].0@, base@[i as int].1));
        let member: &String = &base[i].0;
        if !has_text(only_base, member) && !has_text(only_target, member) && !occurs_before(
            base,
            i,
        ) {
            if let Some(other) = find_access(target, member.as_str()) {
                if access_differs(base[i].1, other) {
                    let ghost before = out@;
                    let ghost m = (member@, base@[i as int].1, other);
                    out.push((owned(member.as_str()), base[i].1, other));
                    assert(views(out@) =~= views(before).push(m));
                }
            }
        }
        i = i + 1;
    }
}

/// The members that both builds have and whose access differs: the member, and its access
/// in the base and in the target. An access that is not specified is that of the class, and
/// does not differ.
pub fn diff_visibility(b: &ClassModel, t: &ClassModel, fields: &FieldDiff, methods: &SeqDiff) -> (r:
    Vec<(String, u8, u8)>)
    ensures
        views(r@) == visibility_difference(b@, t@, fields@.order, methods@),
{
    let mut out: Vec<(String, u8, u8)> = Vec::new();
    assert(views(out@) =~= Seq::<(Seq<char>, u8, u8)>::empty());
    add_changes(
        &mut out,
        &accesses_of_fields(&b.fields),
        &accesses_of_fields(&t.fields),
        &fields.only_base,
        &fields.only_target,
        Ghost(fields@.order),
    );
    add_changes(
        &mut out,
        &accesses_of_methods(&b.methods),
        &accesses_of_methods(&t.methods),
        &methods.only_base,
        &methods.only_target,
        Ghost(methods@),
    );
    out
}

// ---------------------------------------------------------------------------
// Lines
// ---------------------------------------------------------------------------

/// Lines with a list of items behind a prefix, where there are items.
pub open spec fn with_list(lines: Seq<Seq<char>>, prefix: Seq<char>, items: Seq<Seq<char>>) -> Seq<
    Seq<char>,
> {
    if items.len() == 0 {
        lines
    } else {
        lines.push(prefix + joined(items, ", "@))
    }
}

/// The first `n` lines, each with its end.
pub open spec fn lines_text(lines: Seq<Seq<char>>, n: int) -> Seq<char>
    decreases n,
{
    if n <= 0 {
        ""@
    } else {
        lines_text(lines, n - 1) + lines[n - 1] + "\n"@
    }
}

/// A title and lines under it, where there are lines.
pub open spec fn block(title: Seq<char>, lines: Seq<Seq<char>>) -> Seq<char> {
    if lines.len() == 0 {
        ""@
    } else {
        title + "\n"@ + lines_text(lines, lines.len() as int) + "\n"@
    }
}

/// Adds a line.
pub fn push_line(lines: &mut Vec<String>, line: String)
    ensures
        texts(final(lines)@) == texts(old(lines)@).push(line@),
{
    proof {
        lemma_texts_push(lines@, line);
    }
    lines.push(line);
}

/// Adds a list of items behind a prefix, where there are items.
pub fn push_list(lines: &mut Vec<String>, prefix: &str, items: &Vec<String>)
    ensures
        texts(final(lines)@) == with_list(texts(old(lines)@), prefix@, texts(items@)),
{
    if items.len() == 0 {
        return ;
    }
    push_line(lines, cat2(prefix, join(items, ", ").as_str()));
}

/// Writes a title and lines under it, where there are lines. Returns whether there are.
pub fn write_block(out: &mut String, title: &str, lines: &Vec<String>) -> (r: bool)
    ensures
        final(out)@ == old(out)@ + block(title@, texts(lines@)),
        r == (lines@.len() > 0),
{
    if lines.len() == 0 {
        proof {
            reveal_strlit("");
            assert(out@ + ""@ =~= out@);
        }
        return false;
    }
    let ghost m = texts(lines@);
    let mut body: String = owned("");
    let mut i: usize = 0;
    while i < lines.len()
        invariant
            m == texts(lines@),
            i <= lines@.len(),
            body@ == lines_text(m, i as int),
        decreases lines.len() - i,
    {
        body.append(lines[i].as_str());
        body.append("\n");
        i = i + 1;
    }
    let text: String = cat4(title, "\n", body.as_str(), "\n");
    out.append(text.as_str());
    true
}

/// A count that one more than it can hold leaves at its limit.
pub open spec fn tally(n: usize, by: nat) -> usize {
    if n + by > usize::MAX {
        usize::MAX
    } else {
        (n + by) as usize
    }
}

/// Counts on.
pub fn count_on(n: usize, by: usize) -> (r: usize)
    ensures
        r == tally(n, by as nat),
{
    if n > usize::MAX - by {
        usize::MAX
    } else {
        n + by
    }
}

// ---------------------------------------------------------------------------
// Classes
// ---------------------------------------------------------------------------

/// The lines of the first `n` members that differ.
pub open spec fn with_changed(lines: Seq<Seq<char>>, v: Seq<ChangedModel>, n: int) -> Seq<Seq<char>>
    decreases n,
{
    if n <= 0 {
        lines
    } else {
        let x = v[n - 1];
        with_changed(lines, v, n - 1).push(
            "    changed  "@ + x.name + ": base("@ + x.base.0 + " @0x"@ + hex_capital(
                x.base.1 as nat,
            ) + ")  target("@ + x.target.0 + " @0x"@ + hex_capital(x.target.1 as nat) + ")"@,
        )
    }
}

/// The lines of the first `n` members whose access differs.
pub open spec fn with_access_lines(lines: Seq<Seq<char>>, v: Seq<(Seq<char>, u8, u8)>, n: int) -> Seq<
    Seq<char>,
>
    decreases n,
{
    if n <= 0 {
        lines
    } else {
        with_access_lines(lines, v, n - 1).push(
            "    "@ + v[n - 1].0 + ": base="@ + access_word(v[n - 1].1) + " tgt="@ + access_word(
                v[n - 1].2,
            ),
        )
    }
}

/// The signatures of some methods.
pub open spec fn signatures(m: Seq<MethodShape>) -> Seq<Seq<char>> {
    m.map_values(|x: MethodShape| x.sig)
}

/// The line about the size.
pub open spec fn size_lines(b: ClassShape, t: ClassShape) -> Seq<Seq<char>> {
    if b.size == t.size {
        Seq::empty()
    } else {
        Seq::empty().push(
            "  [size]   base=0x"@ + hex_capital(b.size as nat) + "  target=0x"@ + hex_capital(
                t.size as nat,
            ),
        )
    }
}

/// Lines with those about the members.
pub open spec fn with_field_lines(lines: Seq<Seq<char>>, d: FieldDifference) -> Seq<Seq<char>> {
    if !d.is_diverged() {
        lines
    } else {
        let a = with_changed(lines.push("  [member]"@), d.changed, d.changed.len() as int);
        let b = with_list(a, "    only-base  "@, d.order.only_base);
        let c = with_list(b, "    only-tgt   "@, d.order.only_target);
        with_list(c, "    reordered  "@, d.order.moved)
    }
}

/// Lines with those about the methods.
pub open spec fn with_method_lines(lines: Seq<Seq<char>>, d: SeqDifference) -> Seq<Seq<char>> {
    if !d.is_diverged() {
        lines
    } else {
        let a = lines.push("  [fn-order]"@);
        let b = with_list(a, "    only-base  "@, d.only_base);
        let c = with_list(b, "    only-tgt   "@, d.only_target);
        with_list(c, "    moved      "@, d.moved)
    }
}

/// Lines with those about access.
pub open spec fn with_visibility_lines(lines: Seq<Seq<char>>, v: Seq<(Seq<char>, u8, u8)>) -> Seq<
    Seq<char>,
> {
    if v.len() == 0 {
        lines
    } else {
        with_access_lines(lines.push("  [visibility]"@), v, v.len() as int)
    }
}

/// How the methods of two classes differ.
pub open spec fn method_difference(b: ClassShape, t: ClassShape) -> SeqDifference {
    seq_difference(signatures(b.methods), signatures(t.methods))
}

/// The members of two classes whose access differs.
pub open spec fn access_difference(b: ClassShape, t: ClassShape) -> Seq<(Seq<char>, u8, u8)> {
    visibility_difference(
        b,
        t,
        field_difference(b.fields, t.fields).order,
        method_difference(b, t),
    )
}

/// How two classes differ, in words.
pub open spec fn class_lines(b: ClassShape, t: ClassShape) -> Seq<Seq<char>> {
    with_visibility_lines(
        with_method_lines(
            with_field_lines(size_lines(b, t), field_difference(b.fields, t.fields)),
            method_difference(b, t),
        ),
        access_difference(b, t),
    )
}

/// How many types were compared and how they diverge.
pub struct HeaderCounts {
    pub both: usize,
    pub diverged: usize,
    pub size_diff: usize,
    pub member_diff: usize,
    pub order_diff: usize,
    pub visibility_diff: usize,
    pub only_base: Vec<String>,
    pub only_target: Vec<String>,
    pub enums_both: usize,
    pub enums_diverged: usize,
    pub enum_only_base: Vec<String>,
    pub enum_only_target: Vec<String>,
}

/// How many types were compared, as a model.
pub struct HeaderTally {
    pub both: usize,
    pub diverged: usize,
    pub size_diff: usize,
    pub member_diff: usize,
    pub order_diff: usize,
    pub visibility_diff: usize,
    pub only_base: Seq<Seq<char>>,
    pub only_target: Seq<Seq<char>>,
    pub enums_both: usize,
    pub enums_diverged: usize,
    pub enum_only_base: Seq<Seq<char>>,
    pub enum_only_target: Seq<Seq<char>>,
}

impl View for HeaderCounts {
    type V = HeaderTally;

    open spec fn view(&self) -> HeaderTally {
        HeaderTally {
            both: self.both,
            diverged: self.diverged,
            size_diff: self.size_diff,
            member_diff: self.member_diff,
            order_diff: self.order_diff,
            visibility_diff: self.visibility_diff,
            only_base: texts(self.only_base@),
            only_target: texts(self.only_target@),
            enums_both: self.enums_both,
            enums_diverged: self.enums_diverged,
            enum_only_base: texts(self.enum_only_base@),
            enum_only_target: texts(self.enum_only_target@),
        }
    }
}

/// Nothing counted.
pub open spec fn no_headers() -> HeaderTally {
    HeaderTally {
        both: 0,
        diverged: 0,
        size_diff: 0,
        member_diff: 0,
        order_diff: 0,
        visibility_diff: 0,
        only_base: Seq::empty(),
        only_target: Seq::empty(),
        enums_both: 0,
        enums_diverged: 0,
        enum_only_base: Seq::empty(),
        enum_only_target: Seq::empty(),
    }
}

impl HeaderCounts {
    /// Nothing counted.
    pub fn new() -> (r: HeaderCounts)
        ensures
            r@ == no_headers(),
    {
        let r: HeaderCounts = HeaderCounts {
            both: 0,
            diverged: 0,
            size_diff: 0,
            member_diff: 0,
            order_diff: 0,
            visibility_diff: 0,
            only_base: Vec::new(),
            only_target: Vec::new(),
            enums_both: 0,
            enums_diverged: 0,
            enum_only_base: Vec::new(),
            enum_only_target: Vec::new(),
        };
        assert(r@.only_base =~= Seq::<Seq<char>>::empty());
        assert(r@.only_target =~= Seq::<Seq<char>>::empty());
        assert(r@.enum_only_base =~= Seq::<Seq<char>>::empty());
        assert(r@.enum_only_target =~= Seq::<Seq<char>>::empty());
        r
    }
}

impl Default for HeaderCounts {
    fn default() -> (r: Self)
        ensures
            r@ == no_headers(),
    {
        HeaderCounts::new()
    }
}

/// One where it holds.
pub open spec fn one_if(b: bool) -> nat {
    if b {
        1
    } else {
        0
    }
}

fn one_when(b: bool) -> (r: usize)
    ensures
        r == one_if(b),
{
    if b {
        1
    } else {
        0
    }
}

/// What was counted, with how two classes differ.
pub open spec fn class_counted(c: HeaderTally, b: ClassShape, t: ClassShape) -> HeaderTally {
    HeaderTally {
        size_diff: tally(c.size_diff, one_if(b.size != t.size)),
        member_diff: tally(
            c.member_diff,
            one_if(field_difference(b.fields, t.fields).is_diverged()),
        ),
        order_diff: tally(c.order_diff, one_if(method_difference(b, t).is_diverged())),
        visibility_diff: tally(c.visibility_diff, access_difference(b, t).len()),
        ..c
    }
}

fn signatures_of(m: &Vec<MethodModel>) -> (r: Vec<String>)
    ensures
        texts(r@) == signatures(views(m@)),
{
    let mut r: Vec<String> = Vec::new();
    let mut i: usize = 0;
    while i < m.len()
        invariant
            i <= m@.len(),
            r@.len() == i,
            forall|k: int| 0 <= k < i ==> (#[trigger] r@[k])@ == m@[k].sig@,
        decreases m.len() - i,
    {
        r.push(owned(m[i].sig.as_str()));
        i = i + 1;
    }
    assert(texts(r@) =~= signatures(views(m@)));
    r
}

fn push_field_lines(lines: &mut Vec<String>, fields: &FieldDiff)
    ensures
        texts(final(lines)@) == with_field_lines(texts(old(lines)@), fields@),
{
    if !fields.diverged() {
        return ;
    }
    push_line(lines, owned("  [member]"));
    let ghost start = texts(lines@);
    let ghost v = views(fields.changed@);
    let mut i: usize = 0;
    while i < fields.changed.len()
        invariant
            v == views(fields.changed@),
            i <= fields.changed@.len(),
            texts(lines@) == with_changed(start, v, i as int),
        decreases fields.changed.len() - i,
    {
        let x: &ChangedField = &fields.changed[i];
        assert(v[i as int] == x@);
        let line: String = cat10(
            "    changed  ",
            x.name.as_str(),
            ": base(",
            x.base.0.as_str(),
            " @0x",
            hexadecimal_capital(x.base.1).as_str(),
            ")  target(",
            x.target.0.as_str(),
            " @0x",
            hexadecimal_capital(x.target.1).as_str(),
        );
        push_line(lines, cat2(line.as_str(), ")"));
        i = i + 1;
    }
    push_list(lines, "    only-base  ", &fields.only_base);
    push_list(lines, "    only-tgt   ", &fields.only_target);
    push_list(lines, "    reordered  ", &fields.moved);
}

fn push_method_lines(lines: &mut Vec<String>, methods: &SeqDiff)
    ensures
        texts(final(lines)@) == with_method_lines(texts(old(lines)@), methods@),
{
    if !methods.diverged() {
        return ;
    }
    push_line(lines, owned("  [fn-order]"));
    push_list(lines, "    only-base  ", &methods.only_base);
    push_list(lines, "    only-tgt   ", &methods.only_target);
    push_list(lines, "    moved      ", &methods.moved);
}

fn push_visibility_lines(lines: &mut Vec<String>, vis: &Vec<(String, u8, u8)>)
    ensures
        texts(final(lines)@) == with_visibility_lines(texts(old(lines)@), views(vis@)),
{
    if vis.len() == 0 {
        return ;
    }
    push_line(lines, owned("  [visibility]"));
    let ghost start = texts(lines@);
    let ghost v = views(vis@);
    let mut i: usize = 0;
    while i < vis.len()
        invariant
            v == views(vis@),
            i <= vis@.len(),
            texts(lines@) == with_access_lines(start, v, i as int),
        decreases vis.len() - i,
    {
        let x: &(String, u8, u8) = &vis[i];
        assert(v[i as int] == (x.0@, x.1, x.2));
        let line: String = cat6(
            "    ",
            x.0.as_str(),
            ": base=",
            access_name(x.1),
            " tgt=",
            access_name(x.2),
        );
        push_line(lines, line);
        i = i + 1;
    }
}

/// Tells how two classes differ, and counts it. Returns whether they do.
pub fn diff_class(
    name: &str,
    b: &ClassModel,
    t: &ClassModel,
    counts: &mut HeaderCounts,
    out: &mut String,
) -> (r: bool)
    ensures
        r == (class_lines(b@, t@).len() > 0),
        final(counts)@ == class_counted(old(counts)@, b@, t@),
        final(out)@ == old(out)@ + block(b@.kind + " "@ + name@, class_lines(b@, t@)),
{
    let mut lines: Vec<String> = Vec::new();
    assert(texts(lines@) =~= Seq::<Seq<char>>::empty());
    if b.size != t.size {
        let line: String = cat4(
            "  [size]   base=0x",
            hexadecimal_capital(b.size).as_str(),
            "  target=0x",
            hexadecimal_capital(t.size).as_str(),
        );
        push_line(&mut lines, line);
    }
    assert(texts(lines@) == size_lines(b@, t@));
    counts.size_diff = count_on(counts.size_diff, one_when(b.size != t.size));
    let fields: FieldDiff = diff_fields(&b.fields, &t.fields);
    counts.member_diff = count_on(counts.member_diff, one_when(fields.diverged()));
    push_field_lines(&mut lines, &fields);
    let methods: SeqDiff = seq_diff(&signatures_of(&b.methods), &signatures_of(&t.methods));
    counts.order_diff = count_on(counts.order_diff, one_when(methods.diverged()));
    push_method_lines(&mut lines, &methods);
    let vis: Vec<(String, u8, u8)> = diff_visibility(b, t, &fields, &methods);
    counts.visibility_diff = count_on(counts.visibility_diff, vis.len());
    push_visibility_lines(&mut lines, &vis);
    let title: String = cat3(b.kind, " ", name);
    write_block(out, title.as_str(), &lines)
}

// ---------------------------------------------------------------------------
// Enumerations
// ---------------------------------------------------------------------------

/// The bits of a number with a sign, as a number without one.
pub open spec fn bits_of(v: i64) -> nat {
    if v < 0 {
        (v + 0x1_0000_0000_0000_0000) as nat
    } else {
        v as nat
    }
}

fn bits(v: i64) -> (r: u64)
    ensures
        r == bits_of(v),
{
    if v < 0 {
        (v as i128 + 0x1_0000_0000_0000_0000) as u64
    } else {
        v as u64
    }
}

/// The values of an enumeration, which all have one type.
pub open spec fn enum_values(v: Seq<(Seq<char>, i64)>) -> Seq<(KeyModel, Seq<char>)> {
    v.map_values(|x: (Seq<char>, i64)| (KeyModel { ty: ""@, value: x.1 }, x.0))
}

/// The lines of the first `n` values that have two names.
pub open spec fn with_enum_misnames(
    lines: Seq<Seq<char>>,
    v: Seq<(KeyModel, Seq<char>, Seq<char>)>,
    n: int,
) -> Seq<Seq<char>>
    decreases n,
{
    if n <= 0 {
        lines
    } else {
        with_enum_misnames(lines, v, n - 1).push(
            "    misname  0x"@ + hex_capital(bits_of(v[n - 1].0.value)) + "  base="@ + v[n - 1].1
                + "  target="@ + v[n - 1].2,
        )
    }
}

/// The lines of the first `n` values that one side has.
pub open spec fn with_enum_sided(
    lines: Seq<Seq<char>>,
    prefix: Seq<char>,
    v: Seq<(KeyModel, Seq<char>)>,
    n: int,
) -> Seq<Seq<char>>
    decreases n,
{
    if n <= 0 {
        lines
    } else {
        with_enum_sided(lines, prefix, v, n - 1).push(
            prefix + v[n - 1].1 + " = 0x"@ + hex_capital(bits_of(v[n - 1].0.value)),
        )
    }
}

/// The line about the underlying type.
pub open spec fn underlying_lines(b: EnumShape, t: EnumShape) -> Seq<Seq<char>> {
    if b.underlying == t.underlying {
        Seq::empty()
    } else {
        Seq::empty().push("  [underlying]  base="@ + b.underlying + "  target="@ + t.underlying)
    }
}

/// How the values of two enumerations differ.
pub open spec fn enum_difference(b: EnumShape, t: EnumShape) -> ValueDifference {
    value_difference(enum_values(b.values), enum_values(t.values))
}

/// How two enumerations differ, in words.
pub open spec fn enum_lines(b: EnumShape, t: EnumShape) -> Seq<Seq<char>> {
    let lines = underlying_lines(b, t);
    let d = enum_difference(b, t);
    if !d.is_diverged() {
        lines
    } else {
        let x = with_enum_misnames(lines.push("  [values]"@), d.misnamed, d.misnamed.len() as int);
        let y = with_enum_sided(x, "    only-base  "@, d.only_base, d.only_base.len() as int);
        with_enum_sided(y, "    only-tgt   "@, d.only_target, d.only_target.len() as int)
    }
}

fn values_of(v: &Vec<(String, i64)>) -> (r: Vec<NamedValue>)
    ensures
        views(r@) == enum_values(views(v@)),
{
    let mut r: Vec<NamedValue> = Vec::new();
    let mut i: usize = 0;
    while i < v.len()
        invariant
            i <= v@.len(),
            r@.len() == i,
            forall|k: int|
                0 <= k < i ==> (#[trigger] r@[k])@ == (
                    (KeyModel { ty: ""@, value: v@[k].1 }),
                    v@[k].0@,
                ),
        decreases v.len() - i,
    {
        r.push(
            NamedValue {
                key: ValueKey { ty: owned(""), value: v[i].1 },
                name: owned(v[i].0.as_str()),
            },
        );
        i = i + 1;
    }
    assert(views(r@) =~= enum_values(views(v@)));
    r
}

fn push_enum_misnames(lines: &mut Vec<String>, v: &Vec<Misnamed>)
    ensures
        texts(final(lines)@) == with_enum_misnames(
            texts(old(lines)@),
            views(v@),
            v@.len() as int,
        ),
{
    let ghost start = texts(lines@);
    let ghost m = views(v@);
    let mut i: usize = 0;
    while i < v.len()
        invariant
            m == views(v@),
            i <= v@.len(),
            start == texts(old(lines)@),
            texts(lines@) == with_enum_misnames(start, m, i as int),
        decreases v.len() - i,
    {
        let x: &Misnamed = &v[i];
        assert(m[i as int] == x@);
        let line: String = cat6(
            "    misname  0x",
            hexadecimal_capital(bits(x.key.value)).as_str(),
            "  base=",
            x.base.as_str(),
            "  target=",
            x.target.as_str(),
        );
        push_line(lines, line);
        i = i + 1;
    }
}

fn push_enum_sided(lines: &mut Vec<String>, prefix: &str, v: &Vec<NamedValue>)
    ensures
        texts(final(lines)@) == with_enum_sided(
            texts(old(lines)@),
            prefix@,
            views(v@),
            v@.len() as int,
        ),
{
    let ghost start = texts(lines@);
    let ghost m = views(v@);
    let mut i: usize = 0;
    while i < v.len()
        invariant
            m == views(v@),
            i <= v@.len(),
            start == texts(old(lines)@),
            texts(lines@) == with_enum_sided(start, prefix@, m, i as int),
        decreases v.len() - i,
    {
        let x: &NamedValue = &v[i];
        assert(m[i as int] == x@);
        let line: String = cat4(
            prefix,
            x.name.as_str(),
            " = 0x",
            hexadecimal_capital(bits(x.key.value)).as_str(),
        );
        push_line(lines, line);
        i = i + 1;
    }
}

/// Tells how two enumerations differ. Returns whether they do.
pub fn diff_enum(name: &str, b: &EnumModel, t: &EnumModel, out: &mut String) -> (r: bool)
    ensures
        r == (enum_lines(b@, t@).len() > 0),
        final(out)@ == old(out)@ + block("enum "@ + name@, enum_lines(b@, t@)),
{
    let mut lines: Vec<String> = Vec::new();
    assert(texts(lines@) =~= Seq::<Seq<char>>::empty());
    if !same(b.underlying.as_str(), t.underlying.as_str()) {
        let line: String = cat4(
            "  [underlying]  base=",
            b.underlying.as_str(),
            "  target=",
            t.underlying.as_str(),
        );
        push_line(&mut lines, line);
    }
    assert(texts(lines@) == underlying_lines(b@, t@));
    let vals: ValueDiff = value_match(&values_of(&b.values), &values_of(&t.values));
    if vals.diverged() {
        push_line(&mut lines, owned("  [values]"));
        push_enum_misnames(&mut lines, &vals.misnamed);
        push_enum_sided(&mut lines, "    only-base  ", &vals.only_base);
        push_enum_sided(&mut lines, "    only-tgt   ", &vals.only_target);
    }
    let title: String = cat2("enum ", name);
    write_block(out, title.as_str(), &lines)
}

// ---------------------------------------------------------------------------
// What is compared with itself
// ---------------------------------------------------------------------------

proof fn lemma_last_field(f: Seq<FieldShape>, i: int, n: int)
    requires
        0 <= i < n <= f.len(),
        forall|j: int, k: int|
            0 <= j < k < f.len() ==> (#[trigger] f[j]).name != (#[trigger] f[k]).name,
    ensures
        last_field(f, f[i].name, n) == Some(f[i]),
    decreases n,
{
    if n - 1 > i {
        assert(f[i].name != f[n - 1].name);
        lemma_last_field(f, i, n - 1);
    }
}

proof fn lemma_unchanged(f: Seq<FieldShape>, n: int)
    requires
        0 <= n <= f.len(),
        forall|j: int, k: int|
            0 <= j < k < f.len() ==> (#[trigger] f[j]).name != (#[trigger] f[k]).name,
    ensures
        changed_fields(f, f, n) == Seq::<ChangedModel>::empty(),
    decreases n,
{
    if n > 0 {
        lemma_unchanged(f, n - 1);
        lemma_last_field(f, n - 1, f.len() as int);
    }
}

/// The first of a name has the access that is found for the name.
proof fn lemma_first_access(v: Seq<(Seq<char>, u8)>, i: int, from: int)
    requires
        0 <= from <= i < v.len(),
        forall|k: int| from <= k < i ==> (#[trigger] v[k]).0 != v[i].0,
    ensures
        access_from(v, v[i].0, from) == Some(v[i].1),
    decreases i - from,
{
    if from < i {
        assert(v[from].0 != v[i].0);
        lemma_first_access(v, i, from + 1);
    }
}

proof fn lemma_no_changes(
    start: Seq<(Seq<char>, u8, u8)>,
    v: Seq<(Seq<char>, u8)>,
    d: SeqDifference,
    n: int,
)
    requires
        0 <= n <= v.len(),
    ensures
        with_changes(start, v, v, d, n) == start,
    decreases n,
{
    if n > 0 {
        lemma_no_changes(start, v, d, n - 1);
        let names = member_names(v);
        if !repeats(names, n - 1) {
            assert forall|k: int| 0 <= k < n - 1 implies (#[trigger] v[k]).0 != v[n - 1].0 by {
                assert(names[k] == v[k].0);
                assert(names[n - 1] == v[n - 1].0);
                if names[k] == names[n - 1] {
                    assert(repeats(names, n - 1));
                }
            }
            lemma_first_access(v, n - 1, 0);
        }
    }
}

/// A class does not differ from itself, where no two of its members have one name.
pub proof fn lemma_class_is_like_itself(c: ClassShape)
    requires
        forall|j: int, k: int|
            0 <= j < k < c.fields.len() ==> (#[trigger] c.fields[j]).name != (
            #[trigger] c.fields[k]).name,
    ensures
        class_lines(c, c).len() == 0,
{
    lemma_unchanged(c.fields, c.fields.len() as int);
    lemma_seq_is_like_itself(field_names(c.fields));
    lemma_seq_is_like_itself(signatures(c.methods));
    let f = field_difference(c.fields, c.fields).order;
    let m = method_difference(c, c);
    lemma_no_changes(Seq::empty(), field_accesses(c.fields), f, c.fields.len() as int);
    lemma_no_changes(Seq::empty(), method_accesses(c.methods), m, c.methods.len() as int);
}

/// An enumeration does not differ from itself.
pub proof fn lemma_enum_is_like_itself(e: EnumShape)
    ensures
        enum_lines(e, e).len() == 0,
{
    lemma_values_are_like_themselves(enum_values(e.values));
}

/// A member that only one build has is never told to differ in access.
pub proof fn lemma_one_sided_is_not_access(
    b: ClassShape,
    t: ClassShape,
    x: (Seq<char>, u8, u8),
)
    requires
        access_difference(b, t).contains(x),
    ensures
        accesses_differ(x.1, x.2),
        field_names(b.fields).contains(x.0) && field_names(t.fields).contains(x.0)
            || signatures(b.methods).contains(x.0) && signatures(t.methods).contains(x.0),
{
    let f = field_difference(b.fields, t.fields).order;
    let m = method_difference(b, t);
    let fa = field_accesses(b.fields);
    let ma = method_accesses(b.methods);
    let first = with_changes(
        Seq::empty(),
        fa,
        field_accesses(t.fields),
        f,
        b.fields.len() as int,
    );
    lemma_changes(first, ma, method_accesses(t.methods), m, ma.len() as int, x);
    if first.contains(x) {
        lemma_changes(Seq::empty(), fa, field_accesses(t.fields), f, fa.len() as int, x);
    }
    assert(member_names(fa) =~= field_names(b.fields));
    assert(member_names(field_accesses(t.fields)) =~= field_names(t.fields));
    assert(member_names(ma) =~= signatures(b.methods));
    assert(member_names(method_accesses(t.methods)) =~= signatures(t.methods));
}

proof fn lemma_changes(
    start: Seq<(Seq<char>, u8, u8)>,
    base: Seq<(Seq<char>, u8)>,
    target: Seq<(Seq<char>, u8)>,
    d: SeqDifference,
    n: int,
    x: (Seq<char>, u8, u8),
)
    requires
        0 <= n <= base.len(),
        with_changes(start, base, target, d, n).contains(x),
    ensures
        start.contains(x) || (accesses_differ(x.1, x.2) && member_names(base).contains(x.0)
            && member_names(target).contains(x.0)),
    decreases n,
{
    if n > 0 {
        let before = with_changes(start, base, target, d, n - 1);
        let after = with_changes(start, base, target, d, n);
        if before.contains(x) {
            lemma_changes(start, base, target, d, n - 1, x);
        } else {
            let k = after.index_of(x);
            if k < before.len() {
                assert(before[k] == x);
            }
            assert(x.0 == base[n - 1].0);
            assert(member_names(base)[n - 1] == x.0);
            lemma_access_is_there(target, x.0, 0);
        }
    }
}

proof fn lemma_access_is_there(v: Seq<(Seq<char>, u8)>, member: Seq<char>, i: int)
    requires
        0 <= i,
        access_from(v, member, i) is Some,
    ensures
        member_names(v).contains(member),
    decreases v.len() - i,
{
    if v[i].0 == member {
        assert(member_names(v)[i] == member);
    } else {
        lemma_access_is_there(v, member, i + 1);
    }
}

} // verus!
