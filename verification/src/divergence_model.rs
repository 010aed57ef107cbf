//! What of a build is compared: its types, its source files and its functions.

use crate::lcs::views;
use crate::order::{is_le, rank_of, sort_stable, sorted_by, text_le, Ranked};
use crate::pieces::cat3;
use crate::search::{ends, ends_with, find, index_of, join, joined, lemma_index_of, pieces, split};
use crate::text::{chars_of, owned, same, text_of, texts};
use vstd::prelude::*;

verus! {

// ---------------------------------------------------------------------------
// Types
// ---------------------------------------------------------------------------

/// A member of a class, or a base of it.
#[derive(Debug)]
pub struct FieldModel {
    pub offset: u64,
    pub typename: String,
    pub name: String,
    /// None, private, protected or public, as a number.
    pub access: u8,
}

/// A member of a class, as a model.
pub struct FieldShape {
    pub offset: u64,
    pub typename: Seq<char>,
    pub name: Seq<char>,
    pub access: u8,
}

impl View for FieldModel {
    type V = FieldShape;

    open spec fn view(&self) -> FieldShape {
        FieldShape {
            offset: self.offset,
            typename: self.typename@,
            name: self.name@,
            access: self.access,
        }
    }
}

/// A method of a class.
#[derive(Debug)]
pub struct MethodModel {
    /// The signature, by which methods are joined.
    pub sig: String,
    pub access: u8,
}

/// A method of a class, as a model.
pub struct MethodShape {
    pub sig: Seq<char>,
    pub access: u8,
}

impl View for MethodModel {
    type V = MethodShape;

    open spec fn view(&self) -> MethodShape {
        MethodShape { sig: self.sig@, access: self.access }
    }
}

impl Ranked for MethodModel {
    open spec fn before(a: MethodShape, b: MethodShape) -> bool {
        text_le(a.sig, b.sig)
    }

    fn is_before(&self, other: &Self) -> (r: bool) {
        is_le(self.sig.as_str(), other.sig.as_str())
    }
}

/// A class, a structure or a union.
#[derive(Debug)]
pub struct ClassModel {
    pub kind: &'static str,
    pub size: u64,
    pub fields: Vec<FieldModel>,
    pub methods: Vec<MethodModel>,
}

/// A class, a structure or a union, as a model.
pub struct ClassShape {
    pub kind: Seq<char>,
    pub size: u64,
    pub fields: Seq<FieldShape>,
    pub methods: Seq<MethodShape>,
}

impl View for ClassModel {
    type V = ClassShape;

    open spec fn view(&self) -> ClassShape {
        ClassShape {
            kind: self.kind@,
            size: self.size,
            fields: views(self.fields@),
            methods: views(self.methods@),
        }
    }
}

/// An enumeration.
#[derive(Debug)]
pub struct EnumModel {
    pub underlying: String,
    pub values: Vec<(String, i64)>,
}

/// An enumeration, as a model.
pub struct EnumShape {
    pub underlying: Seq<char>,
    pub values: Seq<(Seq<char>, i64)>,
}

impl View for EnumModel {
    type V = EnumShape;

    open spec fn view(&self) -> EnumShape {
        EnumShape { underlying: self.underlying@, values: views(self.values@) }
    }
}

// ---------------------------------------------------------------------------
// Functions
// ---------------------------------------------------------------------------

/// A constant in a function.
#[derive(Debug)]
pub struct ConstModel {
    pub name: String,
    pub typename: String,
    pub value: i64,
}

/// A constant in a function, as a model.
pub struct ConstShape {
    pub name: Seq<char>,
    pub typename: Seq<char>,
    pub value: i64,
}

impl View for ConstModel {
    type V = ConstShape;

    open spec fn view(&self) -> ConstShape {
        ConstShape { name: self.name@, typename: self.typename@, value: self.value }
    }
}

/// A function that a source file defines.
#[derive(Debug)]
pub struct FnModel {
    /// The key by which functions of two builds are joined.
    pub key: String,
    /// The signature, which is shown.
    pub name_orig: String,
    /// The line of the definition, zero where it is not known.
    pub definition_line: u32,
    pub module_id: usize,
    pub symbol_order: usize,
    pub raw_line_table_count: usize,
    pub constants: Vec<ConstModel>,
}

/// A function that a source file defines, as a model.
pub struct FnShape {
    pub key: Seq<char>,
    pub name_orig: Seq<char>,
    pub definition_line: u32,
    pub module_id: usize,
    pub symbol_order: usize,
    pub raw_line_table_count: usize,
    pub constants: Seq<ConstShape>,
}

impl View for FnModel {
    type V = FnShape;

    open spec fn view(&self) -> FnShape {
        FnShape {
            key: self.key@,
            name_orig: self.name_orig@,
            definition_line: self.definition_line,
            module_id: self.module_id,
            symbol_order: self.symbol_order,
            raw_line_table_count: self.raw_line_table_count,
            constants: views(self.constants@),
        }
    }
}

impl Ranked for FnModel {
    open spec fn before(a: FnShape, b: FnShape) -> bool {
        a.definition_line <= b.definition_line
    }

    fn is_before(&self, other: &Self) -> (r: bool) {
        self.definition_line <= other.definition_line
    }
}

/// A source file.
#[derive(Debug)]
pub struct FileModel {
    pub functions: Vec<FnModel>,
}

impl View for FileModel {
    type V = Seq<FnShape>;

    open spec fn view(&self) -> Seq<FnShape> {
        views(self.functions@)
    }
}

/// A function that has a body of its own somewhere.
#[derive(Debug)]
pub struct PresenceFn {
    pub path: String,
    pub key: String,
    pub name_orig: String,
}

/// A function that has a body of its own, as a model.
pub struct PresenceShape {
    pub path: Seq<char>,
    pub key: Seq<char>,
    pub name_orig: Seq<char>,
}

impl View for PresenceFn {
    type V = PresenceShape;

    open spec fn view(&self) -> PresenceShape {
        PresenceShape { path: self.path@, key: self.key@, name_orig: self.name_orig@ }
    }
}

// ---------------------------------------------------------------------------
// A build
// ---------------------------------------------------------------------------

/// What of a build is compared: by name, each name once.
pub struct SideModel {
    pub classes: Vec<(String, ClassModel)>,
    pub enums: Vec<(String, EnumModel)>,
    pub files: Vec<(String, FileModel)>,
    pub presence_functions: Vec<PresenceFn>,
}

/// What of a build is compared, as a model.
pub struct SideShape {
    pub classes: Seq<(Seq<char>, ClassShape)>,
    pub enums: Seq<(Seq<char>, EnumShape)>,
    pub files: Seq<(Seq<char>, Seq<FnShape>)>,
    pub presence: Seq<PresenceShape>,
}

impl View for SideModel {
    type V = SideShape;

    open spec fn view(&self) -> SideShape {
        SideShape {
            classes: views(self.classes@),
            enums: views(self.enums@),
            files: views(self.files@),
            presence: views(self.presence_functions@),
        }
    }
}

/// Where a name stands, from `i` on.
pub open spec fn place_from<V>(s: Seq<(Seq<char>, V)>, name: Seq<char>, i: int) -> Option<int>
    decreases s.len() - i,
{
    if i < 0 || i >= s.len() {
        None
    } else if s[i].0 == name {
        Some(i)
    } else {
        place_from(s, name, i + 1)
    }
}

/// Where a name stands.
pub open spec fn place<V>(s: Seq<(Seq<char>, V)>, name: Seq<char>) -> Option<int> {
    place_from(s, name, 0)
}

/// What stands under a name.
pub open spec fn entry<V>(s: Seq<(Seq<char>, V)>, name: Seq<char>) -> Option<V> {
    match place(s, name) {
        Some(i) => Some(s[i].1),
        None => None,
    }
}

/// A list with what stands under a name exchanged, or with the name behind the others.
pub open spec fn with_entry<V>(s: Seq<(Seq<char>, V)>, name: Seq<char>, v: V) -> Seq<
    (Seq<char>, V),
> {
    match place(s, name) {
        Some(i) => s.update(i, (name, v)),
        None => s.push((name, v)),
    }
}

/// No name occurs twice.
pub open spec fn names_differ<V>(s: Seq<(Seq<char>, V)>) -> bool {
    forall|i: int, j: int|
        0 <= i < j < s.len() ==> (#[trigger] s[i]).0 != (#[trigger] s[j]).0
}

impl SideShape {
    /// No name occurs twice.
    pub open spec fn wf(self) -> bool {
        names_differ(self.classes) && names_differ(self.enums) && names_differ(self.files)
    }
}

/// The place is that of the first with the name.
pub proof fn lemma_place<V>(s: Seq<(Seq<char>, V)>, name: Seq<char>, i: int)
    requires
        0 <= i,
    ensures
        match place_from(s, name, i) {
            Some(k) => i <= k < s.len() && s[k].0 == name && forall|j: int|
                i <= j < k ==> (#[trigger] s[j]).0 != name,
            None => forall|j: int| i <= j < s.len() ==> (#[trigger] s[j]).0 != name,
        },
    decreases s.len() - i,
{
    if i < s.len() && s[i].0 != name {
        lemma_place(s, name, i + 1);
    }
}

/// An entry that was put in is found, others stay, and no name occurs twice.
pub proof fn lemma_with_entry<V>(s: Seq<(Seq<char>, V)>, name: Seq<char>, v: V)
    requires
        names_differ(s),
    ensures
        names_differ(with_entry(s, name, v)),
        entry(with_entry(s, name, v), name) == Some(v),
        forall|m: Seq<char>|
            m != name ==> #[trigger] entry(with_entry(s, name, v), m) == entry(s, m),
{
    let t = with_entry(s, name, v);
    lemma_place(s, name, 0);
    lemma_place(t, name, 0);
    match place(s, name) {
        Some(i) => {
            assert(t[i] == (name, v));
            assert forall|a: int, b: int| 0 <= a < b < t.len() implies (#[trigger] t[a]).0 != (
            #[trigger] t[b]).0 by {
                assert(t[a].0 == s[a].0 && t[b].0 == s[b].0);
            }
        },
        None => {
            assert(t[s.len() as int] == (name, v));
            assert forall|a: int, b: int| 0 <= a < b < t.len() implies (#[trigger] t[a]).0 != (
            #[trigger] t[b]).0 by {
                assert(t[a] == s[a]);
                if b < s.len() {
                    assert(t[b] == s[b]);
                }
            }
        },
    }
    assert forall|m: Seq<char>| m != name implies #[trigger] entry(t, m) == entry(s, m) by {
        lemma_place(s, m, 0);
        lemma_place(t, m, 0);
        match place(s, m) {
            Some(k) => {
                assert(t[k] == s[k]);
            },
            None => {},
        }
        match place(t, m) {
            Some(k) => {
                assert(t[k].0 == m);
                assert(k < s.len());
                assert(t[k] == s[k]);
            },
            None => {},
        }
    }
}

impl SideModel {
    /// Nothing known.
    pub fn new() -> (r: SideModel)
        ensures
            r@.wf(),
            r@.classes.len() == 0,
            r@.enums.len() == 0,
            r@.files.len() == 0,
            r@.presence.len() == 0,
    {
        SideModel {
            classes: Vec::new(),
            enums: Vec::new(),
            files: Vec::new(),
            presence_functions: Vec::new(),
        }
    }

    /// The class of a name.
    pub fn class(&self, name: &str) -> (r: Option<&ClassModel>)
        ensures
            match r {
                Some(c) => entry(self@.classes, name@) == Some(c@),
                None => entry(self@.classes, name@) is None,
            },
    {
        match find_name(&self.classes, name) {
            Some(i) => Some(&self.classes[i].1),
            None => None,
        }
    }

    /// The enumeration of a name.
    pub fn enumeration(&self, name: &str) -> (r: Option<&EnumModel>)
        ensures
            match r {
                Some(c) => entry(self@.enums, name@) == Some(c@),
                None => entry(self@.enums, name@) is None,
            },
    {
        match find_name(&self.enums, name) {
            Some(i) => Some(&self.enums[i].1),
            None => None,
        }
    }

    /// The file of a path.
    pub fn file(&self, path: &str) -> (r: Option<&FileModel>)
        ensures
            match r {
                Some(c) => entry(self@.files, path@) == Some(c@),
                None => entry(self@.files, path@) is None,
            },
    {
        match find_name(&self.files, path) {
            Some(i) => Some(&self.files[i].1),
            None => None,
        }
    }
}

impl Default for SideModel {
    fn default() -> (r: Self)
        ensures
            r@.wf(),
            r@.classes.len() == 0,
            r@.enums.len() == 0,
            r@.files.len() == 0,
            r@.presence.len() == 0,
    {
        SideModel::new()
    }
}

/// Where a name stands.
pub fn find_name<T: View>(v: &Vec<(String, T)>, name: &str) -> (r: Option<usize>)
    ensures
        match r {
            Some(i) => place(views(v@), name@) == Some(i as int) && i < v@.len(),
            None => place(views(v@), name@) is None,
        },
{
    let ghost m = views(v@);
    let mut i: usize = 0;
    while i < v.len()
        invariant
            m == views(v@),
            i <= v@.len(),
            place(m, name@) == place_from(m, name@, i as int),
        decreases v.len() - i,
    {
        assert(m[i as int] == (v@[i as int].0@, v@[i as int].1@));
        if same(v[i].0.as_str(), name) {
            return Some(i);
        }
        i = i + 1;
    }
    None
}

/// Puts an entry in, in place of one of the same name.
pub fn put_entry<T: View>(v: &mut Vec<(String, T)>, name: String, x: T)
    ensures
        views(final(v)@) == with_entry(views(old(v)@), name@, x@),
{
    let ghost m = views(v@);
    let ghost n = name@;
    let ghost y = x@;
    match find_name(v, name.as_str()) {
        Some(i) => {
            v.set(i, (name, x));
            assert(views(v@) =~= m.update(i as int, (n, y)));
        },
        None => {
            v.push((name, x));
            assert(views(v@) =~= m.push((n, y)));
        },
    }
}

// ---------------------------------------------------------------------------
// Records of one class
// ---------------------------------------------------------------------------

/// What comes before the arguments of a signature, without what comes before its last
/// space: the name of the method.
pub open spec fn family(sig: Seq<char>) -> Seq<char> {
    let end = match index_of(sig, "operator()("@, 0) {
        Some(p) => p + 10,
        None => match index_of(sig, "("@, 0) {
            Some(p) => p,
            None => sig.len() as int,
        },
    };
    pieces(sig.take(end), " "@).last()
}

/// The name of a method, out of its signature.
pub fn method_family(signature: &str) -> (r: String)
    ensures
        r@ == family(signature@),
{
    let v: Vec<char> = chars_of(signature);
    let n: usize = v.len();
    proof {
        reveal_strlit("operator()(");
        reveal_strlit("(");
        lemma_index_of(signature@, "operator()("@, 0);
        lemma_index_of(signature@, "("@, 0);
    }
    let end: usize = match find(signature, "operator()(") {
        Some(p) => p + 10,
        None => match find(signature, "(") {
            Some(p) => p,
            None => n,
        },
    };
    let head: String = text_of(&v, 0, end);
    assert(head@ =~= signature@.take(end as int));
    let parts: Vec<String> = split(head.as_str(), " ");
    let last: usize = parts.len() - 1;
    assert(texts(parts@).last() == parts@[last as int]@);
    owned(parts[last].as_str())
}

/// The end of the run of methods of a family that has reached `i`.
pub open spec fn run_end(m: Seq<MethodShape>, name: Seq<char>, i: int) -> int
    decreases m.len() - i,
{
    if i < 0 || i >= m.len() || family(m[i].sig) != name {
        i
    } else {
        run_end(m, name, i + 1)
    }
}

proof fn lemma_run_end(m: Seq<MethodShape>, name: Seq<char>, i: int)
    requires
        0 <= i <= m.len(),
    ensures
        i <= run_end(m, name, i) <= m.len(),
    decreases m.len() - i,
{
    if i < m.len() && family(m[i].sig) == name {
        lemma_run_end(m, name, i + 1);
    }
}

/// The methods from `i` on, those of each run of a family by signature.
pub open spec fn runs_sorted(m: Seq<MethodShape>, i: int) -> Seq<MethodShape>
    decreases m.len() - i,
{
    if i < 0 || i >= m.len() {
        Seq::empty()
    } else {
        let end = run_end(m, family(m[i].sig), i + 1);
        if end <= i || end > m.len() {
            m.skip(i)
        } else {
            sorted_by(
                m.subrange(i, end),
                |a: MethodShape, b: MethodShape| text_le(a.sig, b.sig),
            ) + runs_sorted(m, end)
        }
    }
}

fn copy_method(m: &MethodModel) -> (r: MethodModel)
    ensures
        r@ == m@,
{
    MethodModel { sig: owned(m.sig.as_str()), access: m.access }
}

fn sorted_run(methods: &Vec<MethodModel>, lo: usize, hi: usize) -> (r: Vec<MethodModel>)
    requires
        lo <= hi <= methods@.len(),
    ensures
        views(r@) == sorted_by(
            views(methods@).subrange(lo as int, hi as int),
            |a: MethodShape, b: MethodShape| text_le(a.sig, b.sig),
        ),
{
    let ghost m = views(methods@);
    let mut run: Vec<MethodModel> = Vec::new();
    let mut i: usize = lo;
    while i < hi
        invariant
            m == views(methods@),
            lo <= i <= hi <= methods@.len(),
            run@.len() == i - lo,
            forall|k: int| 0 <= k < i - lo ==> (#[trigger] run@[k])@ == m[lo + k],
        decreases hi - i,
    {
        assert(m[i as int] == methods@[i as int]@);
        run.push(copy_method(&methods[i]));
        i = i + 1;
    }
    assert(views(run@) =~= m.subrange(lo as int, hi as int));
    assert(rank_of::<MethodModel>() =~= (|a: MethodShape, b: MethodShape| text_le(a.sig, b.sig)));
    sort_stable(run)
}

/// The methods with those of each run of a family by signature.
pub fn canonicalize_overload_runs(methods: &Vec<MethodModel>) -> (r: Vec<MethodModel>)
    ensures
        views(r@) == runs_sorted(views(methods@), 0),
{
    let ghost m = views(methods@);
    let n: usize = methods.len();
    let mut r: Vec<MethodModel> = Vec::new();
    let mut start: usize = 0;
    assert(views(r@) =~= Seq::<MethodShape>::empty());
    assert(Seq::<MethodShape>::empty() + runs_sorted(m, 0) =~= runs_sorted(m, 0));
    while start < n
        invariant
            m == views(methods@),
            n == methods@.len(),
            start <= n,
            views(r@) + runs_sorted(m, start as int) == runs_sorted(m, 0),
        decreases n - start,
    {
        assert(m[start as int] == methods@[start as int]@);
        let name: String = method_family(methods[start].sig.as_str());
        let mut end: usize = start + 1;
        let mut going: bool = true;
        proof {
            lemma_run_end(m, name@, start + 1);
        }
        while going && end < n
            invariant
                m == views(methods@),
                n == methods@.len(),
                start < end <= n,
                going ==> run_end(m, name@, start + 1) == run_end(m, name@, end as int),
                !going ==> run_end(m, name@, start + 1) == end,
            decreases
                    n - end,
                    if going {
                        1int
                    } else {
                        0
                    },
        {
            assert(m[end as int] == methods@[end as int]@);
            if same(method_family(methods[end].sig.as_str()).as_str(), name.as_str()) {
                end = end + 1;
            } else {
                going = false;
            }
        }
        assert(run_end(m, name@, start + 1) == end);
        let run: Vec<MethodModel> = sorted_run(methods, start, end);
        let ghost before = views(r@);
        let ghost sorted = views(run@);
        let mut k: usize = 0;
        assert(before + sorted.take(0) =~= before);
        while k < run.len()
            invariant
                sorted == views(run@),
                k <= run@.len(),
                views(r@) == before + sorted.take(k as int),
            decreases run.len() - k,
        {
            let one: MethodModel = copy_method(&run[k]);
            let ghost x = one@;
            let ghost prev = r@;
            r.push(one);
            assert(sorted[k as int] == x);
            assert(views(r@) =~= views(prev).push(x));
            assert(before + sorted.take(k + 1) =~= (before + sorted.take(k as int)).push(x));
            k = k + 1;
        }
        assert(sorted.take(k as int) =~= sorted);
        assert(before + (sorted + runs_sorted(m, end as int)) =~= (before + sorted) + runs_sorted(
            m,
            end as int,
        ));
        start = end;
    }
    assert(views(r@) + Seq::<MethodShape>::empty() =~= views(r@));
    r
}

/// Where a signature stands, from `i` on.
pub open spec fn sig_from(m: Seq<MethodShape>, sig: Seq<char>, i: int) -> Option<int>
    decreases m.len() - i,
{
    if i < 0 || i >= m.len() {
        None
    } else if m[i].sig == sig {
        Some(i)
    } else {
        sig_from(m, sig, i + 1)
    }
}

/// Methods with one more: one that is there already gets an access that it lacks.
pub open spec fn with_method(m: Seq<MethodShape>, x: MethodShape) -> Seq<MethodShape> {
    match sig_from(m, x.sig, 0) {
        Some(i) => if 0 <= i < m.len() && m[i].access == 0 {
            m.update(i, MethodShape { sig: m[i].sig, access: x.access })
        } else {
            m
        },
        None => m.push(x),
    }
}

/// Methods with the first `n` of others.
pub open spec fn with_methods(m: Seq<MethodShape>, x: Seq<MethodShape>, n: int) -> Seq<MethodShape>
    decreases n,
{
    if n <= 0 {
        m
    } else {
        with_method(with_methods(m, x, n - 1), x[n - 1])
    }
}

/// Members that get the access that they lack from the members at their places.
pub open spec fn with_access(f: Seq<FieldShape>, x: Seq<FieldShape>) -> Seq<FieldShape> {
    Seq::new(
        f.len(),
        |i: int|
            if i < x.len() && f[i].access == 0 {
                FieldShape { access: x[i].access, ..f[i] }
            } else {
                f[i]
            },
    )
}

/// Whether two records lay a class out in the same way.
pub open spec fn same_layout(a: ClassShape, b: ClassShape) -> bool {
    &&& a.kind == b.kind
    &&& a.size == b.size
    &&& a.fields.len() == b.fields.len()
    &&& forall|i: int|
        0 <= i < a.fields.len() ==> (#[trigger] a.fields[i]).offset == b.fields[i].offset
            && a.fields[i].typename == b.fields[i].typename && a.fields[i].name == b.fields[i].name
}

/// Two records of one class, each with some of its methods, as one.
pub open spec fn merged(a: ClassShape, b: ClassShape) -> ClassShape {
    ClassShape {
        kind: a.kind,
        size: a.size,
        fields: with_access(a.fields, b.fields),
        methods: runs_sorted(with_methods(a.methods, b.methods, b.methods.len() as int), 0),
    }
}

/// How much a record tells.
pub open spec fn record_richness(c: ClassShape) -> nat {
    c.fields.len() + c.methods.len()
}

/// What a second record of a class leaves of it: records of the same layout are merged,
/// and of others the richer stays, the first where they are equally rich.
pub open spec fn settled(old_class: Option<ClassShape>, class: ClassShape) -> ClassShape {
    match old_class {
        None => class,
        Some(c) => if same_layout(c, class) {
            merged(c, class)
        } else if record_richness(c) >= record_richness(class) {
            c
        } else {
            class
        },
    }
}

fn find_sig(m: &Vec<MethodModel>, sig: &str) -> (r: Option<usize>)
    ensures
        match r {
            Some(i) => sig_from(views(m@), sig@, 0) == Some(i as int) && i < m@.len(),
            None => sig_from(views(m@), sig@, 0) is None,
        },
{
    let ghost v = views(m@);
    let mut i: usize = 0;
    while i < m.len()
        invariant
            v == views(m@),
            i <= m@.len(),
            sig_from(v, sig@, 0) == sig_from(v, sig@, i as int),
        decreases m.len() - i,
    {
        assert(v[i as int] == m@[i as int]@);
        if same(m[i].sig.as_str(), sig) {
            return Some(i);
        }
        i = i + 1;
    }
    None
}

fn add_methods(m: Vec<MethodModel>, x: &Vec<MethodModel>) -> (r: Vec<MethodModel>)
    ensures
        views(r@) == with_methods(views(m@), views(x@), x@.len() as int),
{
    let ghost start = views(m@);
    let ghost others = views(x@);
    let mut r: Vec<MethodModel> = m;
    let mut i: usize = 0;
    while i < x.len()
        invariant
            others == views(x@),
            i <= x@.len(),
            views(r@) == with_methods(start, others, i as int),
        decreases x.len() - i,
    {
        assert(others[i as int] == x@[i as int]@);
        match find_sig(&r, x[i].sig.as_str()) {
            Some(k) => {
                assert(views(r@)[k as int] == r@[k as int]@);
                if r[k].access == 0 {
                    let ghost before = views(r@);
                    let one: MethodModel = MethodModel {
                        sig: owned(r[k].sig.as_str()),
                        access: x[i].access,
                    };
                    let ghost y = one@;
                    r.set(k, one);
                    assert(views(r@) =~= before.update(k as int, y));
                }
            },
            None => {
                let ghost before = views(r@);
                let one: MethodModel = copy_method(&x[i]);
                let ghost y = one@;
                r.push(one);
                assert(views(r@) =~= before.push(y));
            },
        }
        i = i + 1;
    }
    r
}

fn add_access(f: Vec<FieldModel>, x: &Vec<FieldModel>) -> (r: Vec<FieldModel>)
    ensures
        views(r@) == with_access(views(f@), views(x@)),
{
    let ghost goal = with_access(views(f@), views(x@));
    let mut r: Vec<FieldModel> = Vec::new();
    let mut i: usize = 0;
    while i < f.len()
        invariant
            goal == with_access(views(f@), views(x@)),
            i <= f@.len(),
            r@.len() == i,
            forall|k: int| 0 <= k < i ==> (#[trigger] r@[k])@ == goal[k],
        decreases f.len() - i,
    {
        assert(views(f@)[i as int] == f@[i as int]@);
        let access: u8 = if i < x.len() && f[i].access == 0 {
            assert(views(x@)[i as int] == x@[i as int]@);
            x[i].access
        } else {
            f[i].access
        };
        let one: FieldModel = FieldModel {
            offset: f[i].offset,
            typename: owned(f[i].typename.as_str()),
            name: owned(f[i].name.as_str()),
            access,
        };
        assert(one@ == goal[i as int]);
        r.push(one);
        i = i + 1;
    }
    assert(views(r@) =~= goal);
    r
}

fn same_class_layout(left: &ClassModel, right: &ClassModel) -> (r: bool)
    ensures
        r == same_layout(left@, right@),
{
    if !same(left.kind, right.kind) || left.size != right.size || left.fields.len()
        != right.fields.len() {
        return false;
    }
    let ghost a = left@.fields;
    let ghost b = right@.fields;
    let n: usize = left.fields.len();
    let mut i: usize = 0;
    while i < n
        invariant
            a == views(left.fields@),
            b == views(right.fields@),
            a == left@.fields,
            b == right@.fields,
            n == left.fields@.len(),
            n == right.fields@.len(),
            i <= n,
            forall|k: int|
                0 <= k < i ==> (#[trigger] a[k]).offset == b[k].offset && a[k].typename
                    == b[k].typename && a[k].name == b[k].name,
        decreases n - i,
    {
        let x: &FieldModel = &left.fields[i];
        let y: &FieldModel = &right.fields[i];
        assert(a[i as int] == x@);
        assert(b[i as int] == y@);
        if x.offset != y.offset || !same(x.typename.as_str(), y.typename.as_str()) || !same(
            x.name.as_str(),
            y.name.as_str(),
        ) {
            assert(!(a[i as int].offset == b[i as int].offset && a[i as int].typename
                == b[i as int].typename && a[i as int].name == b[i as int].name));
            return false;
        }
        i = i + 1;
    }
    true
}

fn richness(class: &ClassModel) -> (r: u128)
    ensures
        r == record_richness(class@),
{
    class.fields.len() as u128 + class.methods.len() as u128
}

/// Takes a record of a class in.
pub fn insert_class(out: &mut SideModel, name: String, class: ClassModel)
    requires
        old(out)@.wf(),
    ensures
        final(out)@.wf(),
        final(out)@.classes == with_entry(
            old(out)@.classes,
            name@,
            settled(entry(old(out)@.classes, name@), class@),
        ),
        final(out)@.enums == old(out)@.enums,
        final(out)@.files == old(out)@.files,
        final(out)@.presence == old(out)@.presence,
{
    let ghost before = out@.classes;
    let ghost n = name@;
    proof {
        lemma_with_entry(before, n, settled(entry(before, n), class@));
    }
    match find_name(&out.classes, name.as_str()) {
        None => {
            put_entry(&mut out.classes, name, class);
        },
        Some(i) => {
            let ghost c = out.classes@[i as int].1@;
            assert(before[i as int] == (out.classes@[i as int].0@, c));
            proof {
                lemma_place(before, n, 0);
            }
            if same_class_layout(&out.classes[i].1, &class) {
                let e: &ClassModel = &out.classes[i].1;
                let mut methods: Vec<MethodModel> = Vec::new();
                let mut k: usize = 0;
                while k < e.methods.len()
                    invariant
                        k <= e.methods@.len(),
                        methods@.len() == k,
                        forall|j: int| 0 <= j < k ==> (#[trigger] methods@[j])@ == e.methods@[j]@,
                    decreases e.methods.len() - k,
                {
                    methods.push(copy_method(&e.methods[k]));
                    k = k + 1;
                }
                assert(views(methods@) =~= c.methods);
                let mut fields: Vec<FieldModel> = Vec::new();
                let mut j: usize = 0;
                while j < e.fields.len()
                    invariant
                        j <= e.fields@.len(),
                        fields@.len() == j,
                        forall|x: int| 0 <= x < j ==> (#[trigger] fields@[x])@ == e.fields@[x]@,
                    decreases e.fields.len() - j,
                {
                    fields.push(
                        FieldModel {
                            offset: e.fields[j].offset,
                            typename: owned(e.fields[j].typename.as_str()),
                            name: owned(e.fields[j].name.as_str()),
                            access: e.fields[j].access,
                        },
                    );
                    j = j + 1;
                }
                assert(views(fields@) =~= c.fields);
                let all: Vec<MethodModel> = add_methods(methods, &class.methods);
                let joined: ClassModel = ClassModel {
                    kind: e.kind,
                    size: e.size,
                    fields: add_access(fields, &class.fields),
                    methods: canonicalize_overload_runs(&all),
                };
                assert(joined@ == merged(c, class@));
                put_entry(&mut out.classes, name, joined);
            } else if richness(&out.classes[i].1) >= richness(&class) {
                assert(with_entry(before, n, c) =~= before);
            } else {
                put_entry(&mut out.classes, name, class);
            }
        },
    }
}

// ---------------------------------------------------------------------------
// Records of one enumeration
// ---------------------------------------------------------------------------

/// The names of some values.
pub open spec fn value_names(v: Seq<(Seq<char>, i64)>) -> Seq<Seq<char>> {
    v.map_values(|x: (Seq<char>, i64)| x.0)
}

/// The name under which an enumeration is compared: one without a name of its own is told
/// from others by the names of its values.
pub open spec fn enum_name(name: Seq<char>, e: EnumShape) -> Seq<char> {
    if ends_with(name, "::<unnamed-tag>"@) {
        name + "#"@ + joined(
            sorted_by(value_names(e.values), |a: Seq<char>, b: Seq<char>| text_le(a, b)),
            "|"@,
        )
    } else {
        name
    }
}

/// What a second record of an enumeration leaves of it: the one with more values, the
/// first where they have as many.
pub open spec fn settled_enum(old_enum: Option<EnumShape>, e: EnumShape) -> EnumShape {
    match old_enum {
        Some(x) => if x.values.len() >= e.values.len() {
            x
        } else {
            e
        },
        None => e,
    }
}

/// Takes a record of an enumeration in.
pub fn insert_enum(out: &mut SideModel, name: String, e: EnumModel)
    requires
        old(out)@.wf(),
    ensures
        final(out)@.wf(),
        final(out)@.enums == with_entry(
            old(out)@.enums,
            enum_name(name@, e@),
            settled_enum(entry(old(out)@.enums, enum_name(name@, e@)), e@),
        ),
        final(out)@.classes == old(out)@.classes,
        final(out)@.files == old(out)@.files,
        final(out)@.presence == old(out)@.presence,
{
    let full: String = if ends(name.as_str(), "::<unnamed-tag>") {
        let mut names: Vec<String> = Vec::new();
        let mut i: usize = 0;
        while i < e.values.len()
            invariant
                i <= e.values@.len(),
                names@.len() == i,
                forall|k: int| 0 <= k < i ==> (#[trigger] names@[k])@ == e.values@[k].0@,
            decreases e.values.len() - i,
        {
            names.push(owned(e.values[i].0.as_str()));
            i = i + 1;
        }
        assert(views(names@) =~= value_names(e@.values));
        let sorted: Vec<String> = sort_stable(names);
        assert(rank_of::<String>() =~= (|a: Seq<char>, b: Seq<char>| text_le(a, b)));
        assert(texts(sorted@) =~= views(sorted@));
        cat3(name.as_str(), "#", join(&sorted, "|").as_str())
    } else {
        name
    };
    let ghost before = out@.enums;
    let ghost n = full@;
    proof {
        lemma_with_entry(before, n, settled_enum(entry(before, n), e@));
    }
    match find_name(&out.enums, full.as_str()) {
        Some(i) => {
            let ghost x = out.enums@[i as int].1@;
            assert(before[i as int] == (out.enums@[i as int].0@, x));
            proof {
                lemma_place(before, n, 0);
            }
            if out.enums[i].1.values.len() >= e.values.len() {
                assert(with_entry(before, n, x) =~= before);
            } else {
                put_entry(&mut out.enums, full, e);
            }
        },
        None => {
            put_entry(&mut out.enums, full, e);
        },
    }
}

} // verus!
