//! In which order the functions of a file are defined, in two builds.

use crate::divergence_model::{entry, find_name, lemma_place, names_differ, place, put_entry,
    with_entry, FileModel, FnModel, FnShape};
use crate::lcs::views;
use crate::number::{dec, decimal};
use crate::order::{insert_once, is_le, lemma_sorted_once, rank_of, sort_stable, sorted_by,
    sorted_once, text_le, Ranked};
use crate::pieces::{cat2, cat4};
use crate::text::{owned, same, texts};
use vstd::prelude::*;

verus! {

// ---------------------------------------------------------------------------
// Keys
// ---------------------------------------------------------------------------

/// Whether one of some functions has a signature.
pub open spec fn has_name(file: Seq<FnShape>, name: Seq<char>) -> bool {
    exists|i: int| 0 <= i < file.len() && (#[trigger] file[i]).name_orig == name
}

/// The key of a function among those of two files: its signature, where the other file has
/// it, else its symbol.
pub open spec fn cross_key(f: FnShape, other: Seq<FnShape>) -> Seq<char> {
    if has_name(other, f.name_orig) {
        "name|"@ + f.name_orig
    } else {
        "symbol|"@ + f.key
    }
}

fn knows_name(file: &FileModel, name: &str) -> (r: bool)
    ensures
        r == has_name(file@, name@),
{
    let ghost m = file@;
    let mut i: usize = 0;
    while i < file.functions.len()
        invariant
            m == views(file.functions@),
            m == file@,
            i <= file.functions@.len(),
            forall|k: int| 0 <= k < i ==> (#[trigger] m[k]).name_orig != name@,
        decreases file.functions.len() - i,
    {
        assert(m[i as int] == file.functions@[i as int]@);
        if same(file.functions[i].name_orig.as_str(), name) {
            assert(m[i as int].name_orig == name@);
            return true;
        }
        i = i + 1;
    }
    false
}

/// The key of a function among those of two files.
pub fn cross_pdb_function_key(fun: &FnModel, other: &FileModel) -> (r: String)
    ensures
        r@ == cross_key(fun@, other@),
{
    if knows_name(other, fun.name_orig.as_str()) {
        cat2("name|", fun.name_orig.as_str())
    } else {
        cat2("symbol|", fun.key.as_str())
    }
}

// ---------------------------------------------------------------------------
// Lines and places
// ---------------------------------------------------------------------------

/// What was seen under a key.
pub enum Seen<T> {
    Never,
    Always(T),
    Conflicting,
}

/// What was seen, with one more observation.
pub open spec fn with_seen<T>(s: Seen<T>, x: T) -> Seen<T> {
    match s {
        Seen::Never => Seen::Always(x),
        Seen::Always(y) => if x == y {
            s
        } else {
            Seen::Conflicting
        },
        Seen::Conflicting => s,
    }
}

/// The lines of the first `n` functions under a key; a function without a line tells
/// nothing.
pub open spec fn lines_seen(
    file: Seq<FnShape>,
    other: Seq<FnShape>,
    key: Seq<char>,
    n: int,
) -> Seen<u32>
    decreases n,
{
    if n <= 0 {
        Seen::Never
    } else {
        let before = lines_seen(file, other, key, n - 1);
        let f = file[n - 1];
        if f.definition_line != 0 && cross_key(f, other) == key {
            with_seen(before, f.definition_line)
        } else {
            before
        }
    }
}

/// The places of the first `n` functions under a key: the module and the position in it.
pub open spec fn places_seen(
    file: Seq<FnShape>,
    other: Seq<FnShape>,
    key: Seq<char>,
    n: int,
) -> Seen<(usize, usize)>
    decreases n,
{
    if n <= 0 {
        Seen::Never
    } else {
        let before = places_seen(file, other, key, n - 1);
        let f = file[n - 1];
        if f.definition_line != 0 && cross_key(f, other) == key {
            with_seen(before, (f.module_id, f.symbol_order))
        } else {
            before
        }
    }
}

/// What was always seen.
pub open spec fn always<T>(s: Seen<T>) -> Option<T> {
    match s {
        Seen::Always(x) => Some(x),
        _ => None,
    }
}

/// The line of the functions under a key, where they agree on one.
pub open spec fn line_of(file: Seq<FnShape>, other: Seq<FnShape>, key: Seq<char>) -> Option<u32> {
    always(lines_seen(file, other, key, file.len() as int))
}

/// The place of the functions under a key, where they agree on one.
pub open spec fn place_of(file: Seq<FnShape>, other: Seq<FnShape>, key: Seq<char>) -> Option<
    (usize, usize),
> {
    always(places_seen(file, other, key, file.len() as int))
}

fn find_line(file: &FileModel, other: &FileModel, key: &str) -> (r: Option<u32>)
    ensures
        r == line_of(file@, other@, key@),
{
    let ghost m = file@;
    let mut found: Option<u32> = None;
    let mut conflict: bool = false;
    let mut i: usize = 0;
    while i < file.functions.len()
        invariant
            m == views(file.functions@),
            m == file@,
            i <= file.functions@.len(),
            lines_seen(m, other@, key@, i as int) == if conflict {
                Seen::Conflicting
            } else {
                match found {
                    None => Seen::Never,
                    Some(l) => Seen::Always(l),
                }
            },
        decreases file.functions.len() - i,
    {
        let f: &FnModel = &file.functions[i];
        assert(m[i as int] == f@);
        if f.definition_line != 0 {
            let k: String = cross_pdb_function_key(f, other);
            if same(k.as_str(), key) {
                match found {
                    None => {
                        found = Some(f.definition_line);
                    },
                    Some(l) => {
                        if l != f.definition_line {
                            conflict = true;
                        }
                    },
                }
            }
        }
        i = i + 1;
    }
    if conflict {
        None
    } else {
        found
    }
}

fn find_place(file: &FileModel, other: &FileModel, key: &str) -> (r: Option<(usize, usize)>)
    ensures
        r == place_of(file@, other@, key@),
{
    let ghost m = file@;
    let mut found: Option<(usize, usize)> = None;
    let mut conflict: bool = false;
    let mut i: usize = 0;
    while i < file.functions.len()
        invariant
            m == views(file.functions@),
            m == file@,
            i <= file.functions@.len(),
            places_seen(m, other@, key@, i as int) == if conflict {
                Seen::Conflicting
            } else {
                match found {
                    None => Seen::Never,
                    Some(p) => Seen::Always(p),
                }
            },
        decreases file.functions.len() - i,
    {
        let f: &FnModel = &file.functions[i];
        assert(m[i as int] == f@);
        if f.definition_line != 0 {
            let k: String = cross_pdb_function_key(f, other);
            if same(k.as_str(), key) {
                match found {
                    None => {
                        found = Some((f.module_id, f.symbol_order));
                    },
                    Some(p) => {
                        if p.0 != f.module_id || p.1 != f.symbol_order {
                            conflict = true;
                        }
                    },
                }
            }
        }
        i = i + 1;
    }
    if conflict {
        None
    } else {
        found
    }
}

/// What was seen under a key comes from a function with a line.
pub proof fn lemma_seen_has_key(file: Seq<FnShape>, other: Seq<FnShape>, key: Seq<char>, n: int)
    requires
        0 <= n <= file.len(),
        !(lines_seen(file, other, key, n) is Never),
    ensures
        exists|i: int|
            0 <= i < n && (#[trigger] file[i]).definition_line != 0 && cross_key(file[i], other)
                == key,
    decreases n,
{
    let f = file[n - 1];
    if n > 0 && !(f.definition_line != 0 && cross_key(f, other) == key) {
        lemma_seen_has_key(file, other, key, n - 1);
    }
}

/// The lines of the functions of a file, by key. Keys under which the lines differ are left
/// out.
pub fn function_lines(file: &FileModel, other: &FileModel) -> (r: Vec<(String, u32)>)
    ensures
        names_differ(views(r@)),
        forall|key: Seq<char>| #[trigger] entry(views(r@), key) == line_of(file@, other@, key),
{
    let ghost m = file@;
    let mut r: Vec<(String, u32)> = Vec::new();
    let mut i: usize = 0;
    while i < file.functions.len()
        invariant
            m == views(file.functions@),
            m == file@,
            i <= file.functions@.len(),
            names_differ(views(r@)),
            forall|k: int|
                0 <= k < i && m[k].definition_line != 0 && line_of(
                    m,
                    other@,
                    cross_key(#[trigger] m[k], other@),
                ) is Some ==> place(views(r@), cross_key(m[k], other@)) is Some,
            forall|k: int|
                0 <= k < r@.len() ==> line_of(m, other@, (#[trigger] views(r@)[k]).0) == Some(
                    views(r@)[k].1,
                ),
        decreases file.functions.len() - i,
    {
        let f: &FnModel = &file.functions[i];
        assert(m[i as int] == f@);
        if f.definition_line != 0 {
            let key: String = cross_pdb_function_key(f, other);
            let line: Option<u32> = find_line(file, other, key.as_str());
            if let Some(l) = line {
                let ghost before = views(r@);
                let ghost kk = key@;
                proof {
                    crate::divergence_model::lemma_with_entry(before, kk, l);
                    lemma_place(before, kk, 0);
                }
                put_entry(&mut r, key, l);
                proof {
                    let after = views(r@);
                    assert(after == with_entry(before, kk, l));
                    assert forall|k: int| 0 <= k < after.len() implies line_of(
                        m,
                        other@,
                        (#[trigger] after[k]).0,
                    ) == Some(after[k].1) by {
                        if k < before.len() {
                            assert(line_of(m, other@, before[k].0) == Some(before[k].1));
                        }
                    }
                    assert forall|k: int|
                        0 <= k < i + 1 && m[k].definition_line != 0 && line_of(
                            m,
                            other@,
                            cross_key(#[trigger] m[k], other@),
                        ) is Some implies place(after, cross_key(m[k], other@)) is Some by {
                        let c = cross_key(m[k], other@);
                        if c == kk {
                            assert(entry(after, kk) == Some(l));
                        } else {
                            assert(k < i);
                            assert(place(before, c) is Some);
                            assert(entry(before, c) is Some);
                            assert(entry(after, c) == entry(before, c));
                        }
                    }
                }
            }
        }
        i = i + 1;
    }
    proof {
        let s = views(r@);
        assert forall|key: Seq<char>| #[trigger] entry(s, key) == line_of(m, other@, key) by {
            lemma_place(s, key, 0);
            match place(s, key) {
                Some(k) => {
                    assert(s[k].0 == key);
                    assert(line_of(m, other@, s[k].0) == Some(s[k].1));
                },
                None => {
                    if line_of(m, other@, key) is Some {
                        lemma_seen_has_key(m, other@, key, m.len() as int);
                        let k = choose|k: int|
                            0 <= k < m.len() && (#[trigger] m[k]).definition_line != 0 && cross_key(
                                m[k],
                                other@,
                            ) == key;
                        assert(place(s, cross_key(m[k], other@)) is Some);
                    }
                },
            }
        }
    }
    r
}

// ---------------------------------------------------------------------------
// Functions that stand elsewhere
// ---------------------------------------------------------------------------

/// The keys of the first `n` functions that have a line in both files.
pub open spec fn shared_keys(base: Seq<FnShape>, target: Seq<FnShape>, n: int) -> Seq<Seq<char>>
    decreases n,
{
    if n <= 0 {
        Seq::empty()
    } else {
        let f = base[n - 1];
        let key = cross_key(f, target);
        if f.definition_line != 0 && line_of(base, target, key) is Some && line_of(
            target,
            base,
            key,
        ) is Some {
            shared_keys(base, target, n - 1).push(key)
        } else {
            shared_keys(base, target, n - 1)
        }
    }
}

/// The keys that have a line in both files, in order and each once.
pub open spec fn common_keys(base: Seq<FnShape>, target: Seq<FnShape>) -> Seq<Seq<char>> {
    sorted_once(shared_keys(base, target, base.len() as int))
}

/// Whether two functions stand in the one order in the base and in the other in the target:
/// by their lines, which differ in both, and by their places, which are in one module in
/// both.
pub open spec fn is_inverted(
    base: Seq<FnShape>,
    target: Seq<FnShape>,
    left: Seq<char>,
    right: Seq<char>,
) -> bool {
    let bl = line_of(base, target, left)->0;
    let br = line_of(base, target, right)->0;
    let tl = line_of(target, base, left)->0;
    let tr = line_of(target, base, right)->0;
    match (
        place_of(base, target, left),
        place_of(base, target, right),
        place_of(target, base, left),
        place_of(target, base, right),
    ) {
        (Some(pbl), Some(pbr), Some(ptl), Some(ptr)) => {
            &&& bl != br
            &&& tl != tr
            &&& pbl.0 == pbr.0
            &&& ptl.0 == ptr.0
            &&& (bl < br) != (tl < tr)
            &&& (pbl.1 < pbr.1) != (ptl.1 < ptr.1)
        },
        _ => false,
    }
}

/// Whether the function at `k` among the common keys stands elsewhere.
pub open spec fn is_moved(
    base: Seq<FnShape>,
    target: Seq<FnShape>,
    keys: Seq<Seq<char>>,
    k: int,
) -> bool {
    exists|j: int|
        0 <= j < keys.len() && ((j < k && is_inverted(base, target, #[trigger] keys[j], keys[k])) || (
        k < j && is_inverted(base, target, keys[k], keys[j])))
}

/// The functions among the first `n` common keys that stand elsewhere, with their lines in
/// the base.
pub open spec fn moved_rows(
    base: Seq<FnShape>,
    target: Seq<FnShape>,
    keys: Seq<Seq<char>>,
    n: int,
) -> Seq<(Seq<char>, u32)>
    decreases n,
{
    if n <= 0 {
        Seq::empty()
    } else if is_moved(base, target, keys, n - 1) {
        moved_rows(base, target, keys, n - 1).push(
            (keys[n - 1], line_of(base, target, keys[n - 1])->0),
        )
    } else {
        moved_rows(base, target, keys, n - 1)
    }
}

/// The functions that stand elsewhere, in the order of their lines in the base, and on one
/// line in the order of their keys.
pub open spec fn order_moved(base: Seq<FnShape>, target: Seq<FnShape>) -> Seq<Seq<char>> {
    let keys = common_keys(base, target);
    sorted_by(
        moved_rows(base, target, keys, keys.len() as int),
        |a: (Seq<char>, u32), b: (Seq<char>, u32)| row_le(a, b),
    ).map_values(|x: (Seq<char>, u32)| x.0)
}

/// Whether row `a` may stand before `b`: by line, then by key.
pub open spec fn row_le(a: (Seq<char>, u32), b: (Seq<char>, u32)) -> bool {
    a.1 < b.1 || (a.1 == b.1 && text_le(a.0, b.0))
}

struct Row {
    key: String,
    line: u32,
}

impl View for Row {
    type V = (Seq<char>, u32);

    closed spec fn view(&self) -> (Seq<char>, u32) {
        (self.key@, self.line)
    }
}

impl Ranked for Row {
    open spec fn before(a: (Seq<char>, u32), b: (Seq<char>, u32)) -> bool {
        row_le(a, b)
    }

    fn is_before(&self, other: &Self) -> (r: bool) {
        self.line < other.line || (self.line == other.line && is_le(
            self.key.as_str(),
            other.key.as_str(),
        ))
    }
}

/// A common key with what is known of its functions.
struct Known {
    key: String,
    base_line: u32,
    target_line: u32,
    base_place: Option<(usize, usize)>,
    target_place: Option<(usize, usize)>,
}

impl Known {
    spec fn holds(self, base: Seq<FnShape>, target: Seq<FnShape>, key: Seq<char>) -> bool {
        &&& self.key@ == key
        &&& line_of(base, target, key) == Some(self.base_line)
        &&& line_of(target, base, key) == Some(self.target_line)
        &&& place_of(base, target, key) == self.base_place
        &&& place_of(target, base, key) == self.target_place
    }
}

fn are_inverted(
    left: &Known,
    right: &Known,
    base: Ghost<Seq<FnShape>>,
    target: Ghost<Seq<FnShape>>,
) -> (r: bool)
    requires
        left.holds(base@, target@, left.key@),
        right.holds(base@, target@, right.key@),
    ensures
        r == is_inverted(base@, target@, left.key@, right.key@),
{
    match (left.base_place, right.base_place, left.target_place, right.target_place) {
        (Some(pbl), Some(pbr), Some(ptl), Some(ptr)) => {
            left.base_line != right.base_line && left.target_line != right.target_line && pbl.0
                == pbr.0 && ptl.0 == ptr.0 && (left.base_line < right.base_line) != (
            left.target_line < right.target_line) && (pbl.1 < pbr.1) != (ptl.1 < ptr.1)
        },
        _ => false,
    }
}

fn keys_in_both(base: &FileModel, target: &FileModel) -> (r: Vec<String>)
    ensures
        texts(r@) == common_keys(base@, target@),
{
    let ghost m = base@;
    let mut r: Vec<String> = Vec::new();
    let mut i: usize = 0;
    assert(texts(r@) =~= sorted_once(shared_keys(m, target@, 0)));
    while i < base.functions.len()
        invariant
            m == views(base.functions@),
            m == base@,
            i <= base.functions@.len(),
            texts(r@) == sorted_once(shared_keys(m, target@, i as int)),
        decreases base.functions.len() - i,
    {
        let f: &FnModel = &base.functions[i];
        assert(m[i as int] == f@);
        if f.definition_line != 0 {
            let key: String = cross_pdb_function_key(f, target);
            if find_line(base, target, key.as_str()).is_some() && find_line(
                target,
                base,
                key.as_str(),
            ).is_some() {
                assert(shared_keys(m, target@, i + 1).drop_last() =~= shared_keys(
                    m,
                    target@,
                    i as int,
                ));
                insert_once(&mut r, key);
            }
        }
        i = i + 1;
    }
    r
}

proof fn lemma_shared_keys_known(base: Seq<FnShape>, target: Seq<FnShape>, n: int)
    requires
        0 <= n <= base.len(),
    ensures
        forall|k: Seq<char>| #[trigger]
            shared_keys(base, target, n).contains(k) ==> line_of(base, target, k) is Some
                && line_of(target, base, k) is Some,
    decreases n,
{
    if n > 0 {
        lemma_shared_keys_known(base, target, n - 1);
        let p = shared_keys(base, target, n - 1);
        let q = shared_keys(base, target, n);
        assert forall|k: Seq<char>| #[trigger] q.contains(k) implies line_of(base, target, k)
            is Some && line_of(target, base, k) is Some by {
            let i = q.index_of(k);
            if i < p.len() {
                assert(p[i] == k);
                assert(p.contains(k));
            }
        }
    }
}

/// A common key has a line in both files.
pub proof fn lemma_common_keys_known(base: Seq<FnShape>, target: Seq<FnShape>, k: int)
    requires
        0 <= k < common_keys(base, target).len(),
    ensures
        line_of(base, target, common_keys(base, target)[k]) is Some,
        line_of(target, base, common_keys(base, target)[k]) is Some,
{
    let all = shared_keys(base, target, base.len() as int);
    lemma_sorted_once(all);
    lemma_shared_keys_known(base, target, base.len() as int);
    let keys = common_keys(base, target);
    assert(keys.contains(keys[k]));
    assert(all.contains(keys[k]));
}

fn known_keys(base: &FileModel, target: &FileModel, keys: &Vec<String>) -> (r: Vec<Known>)
    requires
        texts(keys@) == common_keys(base@, target@),
    ensures
        r@.len() == keys@.len(),
        forall|k: int|
            0 <= k < r@.len() ==> (#[trigger] r@[k]).holds(base@, target@, texts(keys@)[k]),
{
    let mut r: Vec<Known> = Vec::new();
    let mut i: usize = 0;
    while i < keys.len()
        invariant
            texts(keys@) == common_keys(base@, target@),
            i <= keys@.len(),
            r@.len() == i,
            forall|k: int|
                0 <= k < i ==> (#[trigger] r@[k]).holds(base@, target@, texts(keys@)[k]),
        decreases keys.len() - i,
    {
        proof {
            lemma_common_keys_known(base@, target@, i as int);
        }
        let key: &str = keys[i].as_str();
        assert(texts(keys@)[i as int] == key@);
        let base_line: u32 = match find_line(base, target, key) {
            Some(l) => l,
            None => 0,
        };
        let target_line: u32 = match find_line(target, base, key) {
            Some(l) => l,
            None => 0,
        };
        r.push(
            Known {
                key: owned(key),
                base_line,
                target_line,
                base_place: find_place(base, target, key),
                target_place: find_place(target, base, key),
            },
        );
        i = i + 1;
    }
    r
}

fn did_move(
    known: &Vec<Known>,
    k: usize,
    base: Ghost<Seq<FnShape>>,
    target: Ghost<Seq<FnShape>>,
    keys: Ghost<Seq<Seq<char>>>,
) -> (r: bool)
    requires
        k < known@.len(),
        known@.len() == keys@.len(),
        forall|i: int|
            0 <= i < known@.len() ==> (#[trigger] known@[i]).holds(base@, target@, keys@[i]),
    ensures
        r == is_moved(base@, target@, keys@, k as int),
{
    let mut j: usize = 0;
    while j < known.len()
        invariant
            k < known@.len(),
            known@.len() == keys@.len(),
            forall|i: int|
                0 <= i < known@.len() ==> (#[trigger] known@[i]).holds(base@, target@, keys@[i]),
            j <= known@.len(),
            forall|i: int|
                0 <= i < j ==> !((i < k && is_inverted(
                    base@,
                    target@,
                    #[trigger] keys@[i],
                    keys@[k as int],
                )) || (k < i && is_inverted(base@, target@, keys@[k as int], keys@[i]))),
        decreases known.len() - j,
    {
        assert(known@[j as int].holds(base@, target@, keys@[j as int]));
        assert(known@[k as int].holds(base@, target@, keys@[k as int]));
        if j < k && are_inverted(&known[j], &known[k], base, target) {
            assert(is_inverted(base@, target@, keys@[j as int], keys@[k as int]));
            return true;
        }
        if k < j && are_inverted(&known[k], &known[j], base, target) {
            assert(is_inverted(base@, target@, keys@[k as int], keys@[j as int]));
            return true;
        }
        j = j + 1;
    }
    false
}

/// The keys of the functions that stand elsewhere. Two functions count only where both
/// their lines and their places tell so; functions on one line, without a line, in
/// different modules, or recorded in several ways give no evidence.
pub fn function_order_moved(base: &FileModel, target: &FileModel) -> (r: Vec<String>)
    ensures
        texts(r@) == order_moved(base@, target@),
{
    let keys: Vec<String> = keys_in_both(base, target);
    let known: Vec<Known> = known_keys(base, target, &keys);
    let ghost all = texts(keys@);
    let mut rows: Vec<Row> = Vec::new();
    assert(views(rows@) =~= Seq::<(Seq<char>, u32)>::empty());
    let mut k: usize = 0;
    while k < known.len()
        invariant
            all == texts(keys@),
            known@.len() == all.len(),
            forall|i: int|
                0 <= i < known@.len() ==> (#[trigger] known@[i]).holds(base@, target@, all[i]),
            k <= known@.len(),
            views(rows@) == moved_rows(base@, target@, all, k as int),
        decreases known.len() - k,
    {
        if did_move(&known, k, Ghost(base@), Ghost(target@), Ghost(all)) {
            assert(known@[k as int].holds(base@, target@, all[k as int]));
            let row: Row = Row { key: owned(known[k].key.as_str()), line: known[k].base_line };
            let ghost before = rows@;
            let ghost m = row@;
            rows.push(row);
            assert(views(rows@) =~= views(before).push(m));
        }
        k = k + 1;
    }
    let sorted: Vec<Row> = sort_stable(rows);
    assert(rank_of::<Row>() =~= (|a: (Seq<char>, u32), b: (Seq<char>, u32)| row_le(a, b)));
    keys_of_rows(&sorted)
}

fn keys_of_rows(rows: &Vec<Row>) -> (r: Vec<String>)
    ensures
        texts(r@) == views(rows@).map_values(|x: (Seq<char>, u32)| x.0),
{
    let mut r: Vec<String> = Vec::new();
    let mut i: usize = 0;
    while i < rows.len()
        invariant
            i <= rows@.len(),
            r@.len() == i,
            forall|k: int| 0 <= k < i ==> (#[trigger] r@[k])@ == rows@[k].key@,
        decreases rows.len() - i,
    {
        r.push(owned(rows[i].key.as_str()));
        i = i + 1;
    }
    assert(texts(r@) =~= views(rows@).map_values(|x: (Seq<char>, u32)| x.0));
    r
}

/// In a file compared with itself no function stands elsewhere.
pub proof fn lemma_order_is_like_itself(file: Seq<FnShape>)
    ensures
        order_moved(file, file).len() == 0,
{
    let keys = common_keys(file, file);
    lemma_none_moved(file, keys, keys.len() as int);
    assert(sorted_by(
        Seq::<(Seq<char>, u32)>::empty(),
        |a: (Seq<char>, u32), b: (Seq<char>, u32)| row_le(a, b),
    ) =~= Seq::<(Seq<char>, u32)>::empty());
}

proof fn lemma_none_moved(file: Seq<FnShape>, keys: Seq<Seq<char>>, n: int)
    ensures
        moved_rows(file, file, keys, n) == Seq::<(Seq<char>, u32)>::empty(),
    decreases n,
{
    if n > 0 {
        lemma_none_moved(file, keys, n - 1);
    }
}

proof fn lemma_moved_rows(
    base: Seq<FnShape>,
    target: Seq<FnShape>,
    keys: Seq<Seq<char>>,
    n: int,
)
    requires
        0 <= n <= keys.len(),
    ensures
        forall|x: (Seq<char>, u32)| #[trigger]
            moved_rows(base, target, keys, n).contains(x) ==> keys.contains(x.0),
    decreases n,
{
    if n > 0 {
        lemma_moved_rows(base, target, keys, n - 1);
        let p = moved_rows(base, target, keys, n - 1);
        let q = moved_rows(base, target, keys, n);
        assert forall|x: (Seq<char>, u32)| #[trigger] q.contains(x) implies keys.contains(x.0) by {
            let i = q.index_of(x);
            if i < p.len() {
                assert(p[i] == x);
                assert(p.contains(x));
            } else {
                assert(x.0 == keys[n - 1]);
            }
        }
    }
}

/// A function that stands elsewhere has a line in both files.
pub proof fn lemma_moved_is_common(base: Seq<FnShape>, target: Seq<FnShape>, i: int)
    requires
        0 <= i < order_moved(base, target).len(),
    ensures
        line_of(base, target, order_moved(base, target)[i]) is Some,
        line_of(target, base, order_moved(base, target)[i]) is Some,
{
    broadcast use vstd::seq_lib::group_to_multiset_ensures;

    let keys = common_keys(base, target);
    let rows = moved_rows(base, target, keys, keys.len() as int);
    let le = |a: (Seq<char>, u32), b: (Seq<char>, u32)| row_le(a, b);
    let sorted = sorted_by(rows, le);
    crate::order::lemma_sorted_by(rows, le);
    lemma_moved_rows(base, target, keys, keys.len() as int);
    assert(sorted.contains(sorted[i]));
    assert(sorted.to_multiset().count(sorted[i]) > 0);
    assert(rows.contains(sorted[i]));
    let k = keys.index_of(sorted[i].0);
    assert(keys.contains(sorted[i].0));
    lemma_common_keys_known(base, target, k);
}

// ---------------------------------------------------------------------------
// The order in words
// ---------------------------------------------------------------------------

/// What is shown for a key: its name, or the key where it has none.
pub open spec fn shown(display: Seq<(Seq<char>, Seq<char>)>, key: Seq<char>) -> Seq<char> {
    match entry(display, key) {
        Some(s) => s,
        None => key,
    }
}

/// Some keys with their lines.
pub open spec fn rows_for(keys: Seq<Seq<char>>, lines: Seq<(Seq<char>, u32)>) -> Seq<
    (Seq<char>, u32),
> {
    keys.map_values(|k: Seq<char>| (k, entry(lines, k)->0))
}

/// A row in words.
pub open spec fn row_text(
    x: (Seq<char>, u32),
    display: Seq<(Seq<char>, Seq<char>)>,
) -> Seq<char> {
    "line "@ + dec(x.1 as nat) + ": "@ + shown(display, x.0)
}

/// Functions in the order of their lines, in words.
pub open spec fn order_texts(
    keys: Seq<Seq<char>>,
    lines: Seq<(Seq<char>, u32)>,
    display: Seq<(Seq<char>, Seq<char>)>,
) -> Seq<Seq<char>> {
    sorted_by(
        rows_for(keys, lines),
        |a: (Seq<char>, u32), b: (Seq<char>, u32)| row_le(a, b),
    ).map_values(|x: (Seq<char>, u32)| row_text(x, display))
}

/// What is shown for a key.
pub fn display_of<'a>(display: &'a Vec<(String, String)>, key: &'a str) -> (r: &'a str)
    ensures
        r@ == shown(views(display@), key@),
{
    match find_name(display, key) {
        Some(i) => {
            assert(views(display@)[i as int] == (display@[i as int].0@, display@[i as int].1@));
            display[i].1.as_str()
        },
        None => key,
    }
}

/// Functions in the order of their lines, in words.
pub fn ordered_function_display(
    keys: &Vec<String>,
    source_lines: &Vec<(String, u32)>,
    display: &Vec<(String, String)>,
) -> (r: Vec<String>)
    requires
        forall|i: int|
            0 <= i < keys@.len() ==> entry(views(source_lines@), #[trigger] texts(keys@)[i])
                is Some,
    ensures
        texts(r@) == order_texts(texts(keys@), views(source_lines@), views(display@)),
{
    let ghost all = texts(keys@);
    let ghost lines = views(source_lines@);
    let mut rows: Vec<Row> = Vec::new();
    let mut i: usize = 0;
    while i < keys.len()
        invariant
            all == texts(keys@),
            lines == views(source_lines@),
            forall|i: int| 0 <= i < keys@.len() ==> entry(lines, #[trigger] all[i]) is Some,
            i <= keys@.len(),
            rows@.len() == i,
            forall|k: int| 0 <= k < i ==> (#[trigger] rows@[k])@ == rows_for(all, lines)[k],
        decreases keys.len() - i,
    {
        assert(entry(lines, all[i as int]) is Some);
        let line: u32 = match find_name(source_lines, keys[i].as_str()) {
            Some(p) => {
                assert(lines[p as int] == (source_lines@[p as int].0@, source_lines@[p as int].1));
                source_lines[p].1
            },
            None => 0,
        };
        rows.push(Row { key: owned(keys[i].as_str()), line });
        i = i + 1;
    }
    assert(views(rows@) =~= rows_for(all, lines));
    let sorted: Vec<Row> = sort_stable(rows);
    assert(rank_of::<Row>() =~= (|a: (Seq<char>, u32), b: (Seq<char>, u32)| row_le(a, b)));
    let ghost goal = order_texts(all, lines, views(display@));
    let mut r: Vec<String> = Vec::new();
    let mut k: usize = 0;
    while k < sorted.len()
        invariant
            goal == views(sorted@).map_values(
                |x: (Seq<char>, u32)| row_text(x, views(display@)),
            ),
            k <= sorted@.len(),
            r@.len() == k,
            forall|j: int| 0 <= j < k ==> (#[trigger] r@[j])@ == goal[j],
        decreases sorted.len() - k,
    {
        assert(views(sorted@)[k as int] == sorted@[k as int]@);
        let one: String = cat4(
            "line ",
            decimal(sorted[k].line as u64).as_str(),
            ": ",
            display_of(display, sorted[k].key.as_str()),
        );
        r.push(one);
        k = k + 1;
    }
    assert(texts(r@) =~= goal);
    r
}

} // verus!
