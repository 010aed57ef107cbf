//! Which source files of two builds are the same, by their checksums.

use crate::divergence_model::{entry, find_name, lemma_with_entry, names_differ, place, put_entry};
use crate::divergence_summary::{union_keys, union_names};
use crate::lcs::views;
use crate::number::{dec, decimal};
use crate::pieces::{cat10, cat3};
use crate::search::{ends, ends_with, opt_text, replace, replaced, strip_front, tail_of,
    without_prefix};
use crate::text::{chars_of, lowercase, owned, texts, to_lowercase};
use vstd::prelude::*;
use vstd::string::StringExecFns;

verus! {

// ---------------------------------------------------------------------------
// Digests
// ---------------------------------------------------------------------------

/// What `md5::Md5::digest` makes of some bytes.
pub uninterp spec fn md5_digest(data: Seq<u8>) -> Seq<u8>;

/// What `sha1::Sha1::digest` makes of some bytes.
pub uninterp spec fn sha1_digest(data: Seq<u8>) -> Seq<u8>;

/// What `sha2::Sha256::digest` makes of some bytes.
pub uninterp spec fn sha256_digest(data: Seq<u8>) -> Seq<u8>;

/// `md5::Md5::digest`: sixteen bytes that are a function of the data.
#[verifier::external_body]
fn md5_of(data: &Vec<u8>) -> (r: Vec<u8>)
    ensures
        r@ == md5_digest(data@),
        r@.len() == 16,
{
    <md5::Md5 as digest::Digest>::digest(data).to_vec()
}

/// `sha1::Sha1::digest`: twenty bytes that are a function of the data.
#[verifier::external_body]
fn sha1_of(data: &Vec<u8>) -> (r: Vec<u8>)
    ensures
        r@ == sha1_digest(data@),
        r@.len() == 20,
{
    <sha1::Sha1 as digest::Digest>::digest(data).to_vec()
}

/// `sha2::Sha256::digest`: thirty-two bytes that are a function of the data.
#[verifier::external_body]
fn sha256_of(data: &Vec<u8>) -> (r: Vec<u8>)
    ensures
        r@ == sha256_digest(data@),
        r@.len() == 32,
{
    <sha2::Sha256 as digest::Digest>::digest(data).to_vec()
}

/// The checksum of a file, in the way that it was made.
#[derive(Debug)]
pub enum FileChecksum {
    Absent,
    Md5(Vec<u8>),
    Sha1(Vec<u8>),
    Sha256(Vec<u8>),
}

/// The checksum of a file, as a model.
pub enum Checksum {
    Absent,
    Md5(Seq<u8>),
    Sha1(Seq<u8>),
    Sha256(Seq<u8>),
}

impl View for FileChecksum {
    type V = Checksum;

    open spec fn view(&self) -> Checksum {
        match *self {
            FileChecksum::Absent => Checksum::Absent,
            FileChecksum::Md5(b) => Checksum::Md5(b@),
            FileChecksum::Sha1(b) => Checksum::Sha1(b@),
            FileChecksum::Sha256(b) => Checksum::Sha256(b@),
        }
    }
}

impl Checksum {
    /// The checksum of some bytes, made in the same way.
    pub open spec fn of(self, data: Seq<u8>) -> Checksum {
        match self {
            Checksum::Absent => Checksum::Absent,
            Checksum::Md5(_) => Checksum::Md5(md5_digest(data)),
            Checksum::Sha1(_) => Checksum::Sha1(sha1_digest(data)),
            Checksum::Sha256(_) => Checksum::Sha256(sha256_digest(data)),
        }
    }
}

fn same_bytes(a: &Vec<u8>, b: &Vec<u8>) -> (r: bool)
    ensures
        r == (a@ == b@),
{
    if a.len() != b.len() {
        return false;
    }
    let n: usize = a.len();
    let mut i: usize = 0;
    while i < n
        invariant
            n == a@.len(),
            n == b@.len(),
            i <= n,
            forall|k: int| 0 <= k < i ==> a@[k] == b@[k],
        decreases n - i,
    {
        if a[i] != b[i] {
            return false;
        }
        i = i + 1;
    }
    assert(a@ =~= b@);
    true
}

fn copy_bytes(a: &Vec<u8>) -> (r: Vec<u8>)
    ensures
        r@ == a@,
{
    let mut r: Vec<u8> = Vec::new();
    let mut i: usize = 0;
    while i < a.len()
        invariant
            i <= a@.len(),
            r@ == a@.take(i as int),
        decreases a.len() - i,
    {
        r.push(a[i]);
        assert(a@.take(i + 1) =~= a@.take(i as int).push(a@[i as int]));
        i = i + 1;
    }
    assert(a@.take(i as int) =~= a@);
    r
}

impl FileChecksum {
    /// The checksum of some bytes, made in the same way.
    pub fn hash(&self, data: &Vec<u8>) -> (r: FileChecksum)
        ensures
            r@ == self@.of(data@),
    {
        match self {
            FileChecksum::Absent => FileChecksum::Absent,
            FileChecksum::Md5(_) => FileChecksum::Md5(md5_of(data)),
            FileChecksum::Sha1(_) => FileChecksum::Sha1(sha1_of(data)),
            FileChecksum::Sha256(_) => FileChecksum::Sha256(sha256_of(data)),
        }
    }

    /// Whether both are the same.
    pub fn is_same(&self, other: &FileChecksum) -> (r: bool)
        ensures
            r == (self@ == other@),
    {
        match (self, other) {
            (FileChecksum::Absent, FileChecksum::Absent) => true,
            (FileChecksum::Md5(a), FileChecksum::Md5(b)) => same_bytes(a, b),
            (FileChecksum::Sha1(a), FileChecksum::Sha1(b)) => same_bytes(a, b),
            (FileChecksum::Sha256(a), FileChecksum::Sha256(b)) => same_bytes(a, b),
            _ => false,
        }
    }

    /// A copy of the checksum.
    pub fn copy(&self) -> (r: FileChecksum)
        ensures
            r@ == self@,
    {
        match self {
            FileChecksum::Absent => FileChecksum::Absent,
            FileChecksum::Md5(b) => FileChecksum::Md5(copy_bytes(b)),
            FileChecksum::Sha1(b) => FileChecksum::Sha1(copy_bytes(b)),
            FileChecksum::Sha256(b) => FileChecksum::Sha256(copy_bytes(b)),
        }
    }
}

// ---------------------------------------------------------------------------
// Line ends
// ---------------------------------------------------------------------------

/// The first `n` bytes with a carriage return before each line feed that has none.
pub open spec fn with_returns(data: Seq<u8>, n: int) -> Seq<u8>
    decreases n,
{
    if n <= 0 {
        Seq::empty()
    } else {
        let before = with_returns(data, n - 1);
        if data[n - 1] == 10 && (n == 1 || data[n - 2] != 13) {
            before.push(13).push(10)
        } else {
            before.push(data[n - 1])
        }
    }
}

/// Some bytes with a carriage return before each line feed that has none.
pub fn lf_to_crlf(data: &Vec<u8>) -> (r: Vec<u8>)
    ensures
        r@ == with_returns(data@, data@.len() as int),
{
    let mut out: Vec<u8> = Vec::new();
    let n: usize = data.len();
    let mut i: usize = 0;
    while i < n
        invariant
            n == data@.len(),
            i <= n,
            out@ == with_returns(data@, i as int),
        decreases n - i,
    {
        if data[i] == 10 && (i == 0 || data[i - 1] != 13) {
            out.push(13);
        }
        out.push(data[i]);
        i = i + 1;
    }
    out
}

/// Whether each line feed among the first `n` bytes has a carriage return before it.
pub open spec fn has_returns(data: Seq<u8>, n: int) -> bool {
    forall|i: int| 0 <= i < n && #[trigger] data[i] == 10 ==> i > 0 && data[i - 1] == 13
}

proof fn lemma_with_returns(data: Seq<u8>, n: int)
    requires
        0 <= n <= data.len(),
    ensures
        has_returns(with_returns(data, n), with_returns(data, n).len() as int),
        n > 0 ==> with_returns(data, n).len() > 0 && with_returns(data, n).last() == data[n - 1],
        n == 0 ==> with_returns(data, n).len() == 0,
    decreases n,
{
    if n > 0 {
        lemma_with_returns(data, n - 1);
        let before = with_returns(data, n - 1);
        let after = with_returns(data, n);
        assert forall|i: int| 0 <= i < after.len() && #[trigger] after[i] == 10 implies i > 0
            && after[i - 1] == 13 by {
            if i < before.len() {
                assert(before[i] == after[i]);
                assert(after[i - 1] == before[i - 1]);
            }
        }
    }
}

proof fn lemma_returns_stay(data: Seq<u8>, n: int)
    requires
        0 <= n <= data.len(),
        has_returns(data, data.len() as int),
    ensures
        with_returns(data, n) == data.take(n),
    decreases n,
{
    if n > 0 {
        lemma_returns_stay(data, n - 1);
        assert(data.take(n) =~= data.take(n - 1).push(data[n - 1]));
    } else {
        assert(data.take(0) =~= Seq::<u8>::empty());
    }
}

/// Every line feed then has a carriage return before it, and to put them in again changes
/// nothing.
pub proof fn lemma_returns_are_put_once(data: Seq<u8>)
    ensures
        ({
            let out = with_returns(data, data.len() as int);
            &&& has_returns(out, out.len() as int)
            &&& with_returns(out, out.len() as int) == out
        }),
{
    let out = with_returns(data, data.len() as int);
    lemma_with_returns(data, data.len() as int);
    lemma_returns_stay(out, out.len() as int);
    assert(out.take(out.len() as int) =~= out);
}

/// The checksum that a file on disk is compared by: that of its bytes, and where this is
/// not the expected one, that of its bytes with carriage returns.
pub open spec fn file_checksum(expected: Checksum, data: Seq<u8>) -> Checksum {
    if expected.of(data) == expected {
        expected
    } else {
        expected.of(with_returns(data, data.len() as int))
    }
}

/// The checksum that a file on disk is compared by.
pub fn checksum_of_file(expected: &FileChecksum, data: &Vec<u8>) -> (r: FileChecksum)
    ensures
        r@ == file_checksum(expected@, data@),
{
    let lf: FileChecksum = expected.hash(data);
    if lf.is_same(expected) {
        return lf;
    }
    expected.hash(&lf_to_crlf(data))
}

/// The checksum that a file is compared by, given what was read of it. One without an
/// expected checksum needs no reading; of others nothing is told where there is no file.
pub open spec fn checksum_on_disk(expected: Checksum, data: Option<Seq<u8>>) -> Option<Checksum> {
    match (expected, data) {
        (Checksum::Absent, _) => Some(Checksum::Absent),
        (_, Some(d)) => Some(file_checksum(expected, d)),
        (_, None) => None,
    }
}

/// The checksum that a file is compared by, given what was read of it.
pub fn checksum_from_disk(expected: &FileChecksum, data: Option<&Vec<u8>>) -> (r: Option<
    FileChecksum,
>)
    ensures
        match r {
            Some(c) => checksum_on_disk(
                expected@,
                match data {
                    Some(d) => Some(d@),
                    None => None,
                },
            ) == Some(c@),
            None => checksum_on_disk(
                expected@,
                match data {
                    Some(d) => Some(d@),
                    None => None,
                },
            ) is None,
        },
{
    match (expected, data) {
        (FileChecksum::Absent, _) => Some(FileChecksum::Absent),
        (_, Some(d)) => Some(checksum_of_file(expected, d)),
        (_, None) => None,
    }
}

// ---------------------------------------------------------------------------
// Files
// ---------------------------------------------------------------------------

/// Whether a name, in small letters, is that of a source file.
pub open spec fn names_source(name: Seq<char>) -> bool {
    ends_with(name, ".cpp"@) || ends_with(name, ".cxx"@) || ends_with(name, ".c++"@) || ends_with(
        name,
        ".c"@,
    )
}

/// Whether a name, in small letters, is that of a source file.
pub fn is_source_file(name: &str) -> (r: bool)
    ensures
        r == names_source(name@),
{
    ends(name, ".cpp") || ends(name, ".cxx") || ends(name, ".c++") || ends(name, ".c")
}

/// The path of a source file relative to the engine's directory, given in small letters.
pub open spec fn source_key(lowered: Seq<char>, prefix: Seq<char>) -> Option<Seq<char>> {
    if names_source(lowered) {
        without_prefix(lowered, prefix)
    } else {
        None
    }
}

/// The path of a source file relative to the engine's directory, given in small letters.
pub fn key_of_source(lowered: &str, prefix: &str) -> (r: Option<String>)
    ensures
        opt_text(r) == source_key(lowered@, prefix@),
{
    if !is_source_file(lowered) {
        return None;
    }
    strip_front(lowered, prefix)
}

/// The file of a module's first procedure that comes from a source file of the engine, from
/// procedure `i` on; the names are in small letters.
pub open spec fn module_file(
    files: Seq<(Seq<char>, Checksum)>,
    prefix: Seq<char>,
    i: int,
) -> Option<(Seq<char>, Checksum)>
    decreases files.len() - i,
{
    if i < 0 || i >= files.len() {
        None
    } else {
        match source_key(files[i].0, prefix) {
            Some(k) => Some((k, files[i].1)),
            None => module_file(files, prefix, i + 1),
        }
    }
}

/// Checksums with that of a module, where its file is not there yet.
pub open spec fn with_module(
    all: Seq<(Seq<char>, Checksum)>,
    files: Seq<(Seq<char>, Checksum)>,
    prefix: Seq<char>,
) -> Seq<(Seq<char>, Checksum)> {
    match module_file(files, prefix, 0) {
        Some((k, c)) => if place(all, k) is Some {
            all
        } else {
            all.push((k, c))
        },
        None => all,
    }
}

/// The files of a module's procedures with their names in small letters.
pub open spec fn lowered_files(files: Seq<(Seq<char>, Checksum)>) -> Seq<(Seq<char>, Checksum)> {
    files.map_values(|x: (Seq<char>, Checksum)| (lowercase(x.0), x.1))
}

/// The checksums of the first `n` modules.
pub open spec fn collected(
    modules: Seq<Seq<(Seq<char>, Checksum)>>,
    prefix: Seq<char>,
    n: int,
) -> Seq<(Seq<char>, Checksum)>
    decreases n,
{
    if n <= 0 {
        Seq::empty()
    } else {
        with_module(collected(modules, prefix, n - 1), lowered_files(modules[n - 1]), prefix)
    }
}

/// The files of a module's procedures, as a model.
pub open spec fn module_views(v: Seq<Vec<(String, FileChecksum)>>) -> Seq<
    Seq<(Seq<char>, Checksum)>,
> {
    v.map_values(|m: Vec<(String, FileChecksum)>| views(m@))
}

/// Takes in the checksum of a module; the names of its files are in small letters.
pub fn add_module(
    all: &mut Vec<(String, FileChecksum)>,
    files: &Vec<(String, FileChecksum)>,
    prefix: &str,
)
    requires
        names_differ(views(old(all)@)),
    ensures
        names_differ(views(final(all)@)),
        views(final(all)@) == with_module(views(old(all)@), views(files@), prefix@),
{
    let ghost m = views(files@);
    let ghost before = views(all@);
    let mut i: usize = 0;
    while i < files.len()
        invariant
            m == views(files@),
            before == views(old(all)@),
            before == views(all@),
            names_differ(before),
            i <= files@.len(),
            module_file(m, prefix@, 0) == module_file(m, prefix@, i as int),
        decreases files.len() - i,
    {
        assert(m[i as int] == (files@[i as int].0@, files@[i as int].1@));
        if let Some(key) = key_of_source(files[i].0.as_str(), prefix) {
            if find_name(all, key.as_str()).is_none() {
                let c: FileChecksum = files[i].1.copy();
                proof {
                    lemma_with_entry(before, key@, c@);
                }
                put_entry(all, key, c);
            }
            return ;
        }
        i = i + 1;
    }
}

fn lower_files(files: &Vec<(String, FileChecksum)>) -> (r: Vec<(String, FileChecksum)>)
    ensures
        views(r@) == lowered_files(views(files@)),
{
    let mut r: Vec<(String, FileChecksum)> = Vec::new();
    let mut i: usize = 0;
    while i < files.len()
        invariant
            i <= files@.len(),
            r@.len() == i,
            forall|k: int|
                0 <= k < i ==> (#[trigger] r@[k]).0@ == lowercase(files@[k].0@) && r@[k].1@
                    == files@[k].1@,
        decreases files.len() - i,
    {
        r.push((to_lowercase(files[i].0.as_str()), files[i].1.copy()));
        i = i + 1;
    }
    assert(views(r@) =~= lowered_files(views(files@)));
    r
}

/// The checksums of the engine's source files, by path: one file for each module, and each
/// file once.
pub fn collect_checksums(modules: &Vec<Vec<(String, FileChecksum)>>, prefix: &str) -> (r: Vec<
    (String, FileChecksum),
>)
    ensures
        names_differ(views(r@)),
        views(r@) == collected(module_views(modules@), prefix@, modules@.len() as int),
{
    let ghost m = module_views(modules@);
    let mut r: Vec<(String, FileChecksum)> = Vec::new();
    assert(views(r@) =~= Seq::<(Seq<char>, Checksum)>::empty());
    let mut i: usize = 0;
    while i < modules.len()
        invariant
            m == module_views(modules@),
            i <= modules@.len(),
            names_differ(views(r@)),
            views(r@) == collected(m, prefix@, i as int),
        decreases modules.len() - i,
    {
        assert(m[i as int] == views(modules@[i as int]@));
        let lowered: Vec<(String, FileChecksum)> = lower_files(&modules[i]);
        add_module(&mut r, &lowered, prefix);
        i = i + 1;
    }
    r
}

/// A text without the slashes of either kind at its beginning.
pub open spec fn without_slashes(s: Seq<char>) -> Seq<char>
    decreases s.len(),
{
    if s.len() > 0 && (s[0] == '/' || s[0] == '\\') {
        without_slashes(s.skip(1))
    } else {
        s
    }
}

/// What follows the slashes of either kind at the beginning of a text.
pub fn trim_slashes(s: &str) -> (r: String)
    ensures
        r@ == without_slashes(s@),
{
    let v: Vec<char> = chars_of(s);
    let mut i: usize = 0;
    assert(s@.skip(0) =~= s@);
    while i < v.len() && (v[i] == '/' || v[i] == '\\')
        invariant
            v@ == s@,
            i <= v@.len(),
            without_slashes(s@) == without_slashes(s@.skip(i as int)),
        decreases v.len() - i,
    {
        assert(s@.skip(i as int)[0] == v@[i as int]);
        assert(s@.skip(i as int).skip(1) =~= s@.skip(i + 1));
        i = i + 1;
    }
    proof {
        if i < v@.len() {
            assert(s@.skip(i as int)[0] == v@[i as int]);
        }
    }
    tail_of(&v, i)
}

/// The path under which a file on disk is found, given its path behind the root.
pub fn index_path(behind_root: &str) -> (r: String)
    ensures
        r@ == replaced(lowercase(without_slashes(behind_root@)), "\\"@, "/"@),
{
    lookup_path(to_lowercase(trim_slashes(behind_root).as_str()).as_str())
}

/// The path under which a file is looked up on disk.
pub fn lookup_path(key: &str) -> (r: String)
    ensures
        r@ == replaced(key@, "\\"@, "/"@),
{
    replace(key, "\\", "/")
}

// ---------------------------------------------------------------------------
// The comparison
// ---------------------------------------------------------------------------

/// How many files are the same, differ, or are on one side only.
pub struct Verdicts {
    pub matched: nat,
    pub differ: nat,
    pub base_only: nat,
    pub target_only: nat,
    pub text: Seq<char>,
}

/// A line of the comparison.
pub open spec fn verdict_line(word: Seq<char>, key: Seq<char>) -> Seq<char> {
    word + replaced(key, "\\"@, "/"@) + "\n"@
}

/// The comparison with one more file.
pub open spec fn with_verdict(
    v: Verdicts,
    base: Option<Checksum>,
    target: Option<Checksum>,
    key: Seq<char>,
) -> Verdicts {
    match (base, target) {
        (Some(b), Some(t)) => if b == t {
            Verdicts {
                matched: v.matched + 1,
                text: v.text + verdict_line("MATCH   "@, key),
                ..v
            }
        } else {
            Verdicts {
                differ: v.differ + 1,
                text: v.text + verdict_line("DIFF    "@, key),
                ..v
            }
        },
        (Some(_), None) => Verdicts {
            base_only: v.base_only + 1,
            text: v.text + verdict_line("BASE    "@, key),
            ..v
        },
        (None, Some(_)) => Verdicts {
            target_only: v.target_only + 1,
            text: v.text + verdict_line("TARGET  "@, key),
            ..v
        },
        (None, None) => v,
    }
}

/// The comparison of the first `n` files.
pub open spec fn verdicts(
    base: Seq<(Seq<char>, Checksum)>,
    target: Seq<(Seq<char>, Checksum)>,
    keys: Seq<Seq<char>>,
    n: int,
) -> Verdicts
    decreases n,
{
    if n <= 0 {
        Verdicts { matched: 0, differ: 0, base_only: 0, target_only: 0, text: ""@ }
    } else {
        let before = verdicts(base, target, keys, n - 1);
        let k = keys[n - 1];
        with_verdict(before, entry(base, k), entry(target, k), k)
    }
}

/// The comparison of all files, in words.
pub open spec fn diff_text(
    base: Seq<(Seq<char>, Checksum)>,
    target: Seq<(Seq<char>, Checksum)>,
) -> Seq<char> {
    let keys = union_names(base, target);
    let v = verdicts(base, target, keys, keys.len() as int);
    v.text + "\nmatched="@ + dec(v.matched) + "  diff="@ + dec(v.differ) + "  base-only="@ + dec(
        v.base_only,
    ) + "  target-only="@ + dec(v.target_only) + "\n"@
}

fn verdict_line_of(word: &str, key: &str) -> (r: String)
    ensures
        r@ == verdict_line(word@, key@),
{
    cat3(word, lookup_path(key).as_str(), "\n")
}

/// Which files of two builds are the same, in words.
pub fn print_diff(base: &Vec<(String, FileChecksum)>, target: &Vec<(String, FileChecksum)>) -> (r:
    String)
    ensures
        r@ == diff_text(views(base@), views(target@)),
{
    let ghost b = views(base@);
    let ghost t = views(target@);
    let keys: Vec<String> = union_keys(base, target);
    let ghost all = texts(keys@);
    let n: usize = keys.len();
    let mut text: String = owned("");
    let mut matched: usize = 0;
    let mut differ: usize = 0;
    let mut base_only: usize = 0;
    let mut target_only: usize = 0;
    let mut i: usize = 0;
    while i < n
        invariant
            b == views(base@),
            t == views(target@),
            all == texts(keys@),
            n == keys@.len(),
            i <= n,
            matched <= i,
            differ <= i,
            base_only <= i,
            target_only <= i,
            verdicts(b, t, all, i as int) == (Verdicts {
                matched: matched as nat,
                differ: differ as nat,
                base_only: base_only as nat,
                target_only: target_only as nat,
                text: text@,
            }),
        decreases n - i,
    {
        let key: &str = keys[i].as_str();
        assert(all[i as int] == key@);
        match (find_name(base, key), find_name(target, key)) {
            (Some(x), Some(y)) => {
                assert(b[x as int] == (base@[x as int].0@, base@[x as int].1@));
                assert(t[y as int] == (target@[y as int].0@, target@[y as int].1@));
                if base[x].1.is_same(&target[y].1) {
                    matched = matched + 1;
                    text.append(verdict_line_of("MATCH   ", key).as_str());
                } else {
                    differ = differ + 1;
                    text.append(verdict_line_of("DIFF    ", key).as_str());
                }
            },
            (Some(_), None) => {
                base_only = base_only + 1;
                text.append(verdict_line_of("BASE    ", key).as_str());
            },
            (None, Some(_)) => {
                target_only = target_only + 1;
                text.append(verdict_line_of("TARGET  ", key).as_str());
            },
            (None, None) => {},
        }
        i = i + 1;
    }
    cat10(
        text.as_str(),
        "\nmatched=",
        decimal(matched as u64).as_str(),
        "  diff=",
        decimal(differ as u64).as_str(),
        "  base-only=",
        decimal(base_only as u64).as_str(),
        "  target-only=",
        decimal(target_only as u64).as_str(),
        "\n",
    )
}

proof fn lemma_all_match(s: Seq<(Seq<char>, Checksum)>, keys: Seq<Seq<char>>, n: int)
    requires
        0 <= n <= keys.len(),
    ensures
        verdicts(s, s, keys, n).differ == 0,
        verdicts(s, s, keys, n).base_only == 0,
        verdicts(s, s, keys, n).target_only == 0,
    decreases n,
{
    if n > 0 {
        lemma_all_match(s, keys, n - 1);
    }
}

/// The files of a build are the same as those of the build itself.
pub proof fn lemma_files_match_themselves(s: Seq<(Seq<char>, Checksum)>)
    ensures
        ({
            let keys = union_names(s, s);
            let v = verdicts(s, s, keys, keys.len() as int);
            v.differ == 0 && v.base_only == 0 && v.target_only == 0
        }),
{
    let keys = union_names(s, s);
    lemma_all_match(s, keys, keys.len() as int);
}

/// A file whose bytes have the expected checksum, as they are or with carriage returns, is
/// told to match.
pub proof fn lemma_file_matches(expected: Checksum, data: Seq<u8>)
    ensures
        (file_checksum(expected, data) == expected) == (expected.of(data) == expected || expected.of(
            with_returns(data, data.len() as int),
        ) == expected),
{
}

} // verus!
