//! The folders and files that were made.

use crate::search::{pieces, split};
use crate::text::{owned, same, texts};
use vstd::prelude::*;

verus! {

// ---------------------------------------------------------------------------
// Paths
// ---------------------------------------------------------------------------

/// The parts among the first `n` pieces of a path. An empty piece is none, and neither
/// is a dot behind another piece.
pub open spec fn parts_among(p: Seq<Seq<char>>, n: int) -> Seq<Seq<char>>
    decreases n,
{
    if n <= 0 {
        Seq::empty()
    } else if p[n - 1].len() == 0 || (p[n - 1] == "."@ && n > 1) {
        parts_among(p, n - 1)
    } else {
        parts_among(p, n - 1).push(p[n - 1])
    }
}

/// The parts of a path, with the root where the path begins there.
pub open spec fn components(path: Seq<char>) -> Seq<Seq<char>> {
    let p = pieces(path, "/"@);
    (if path.len() > 0 && path[0] == '/' {
        seq!["/"@]
    } else {
        Seq::empty()
    }) + parts_among(p, p.len() as int)
}

fn components_of(path: &str) -> (r: Vec<String>)
    ensures
        texts(r@) == components(path@),
{
    let ghost p = pieces(path@, "/"@);
    let parts: Vec<String> = split(path, "/");
    let mut r: Vec<String> = Vec::new();
    assert(texts(r@) =~= Seq::<Seq<char>>::empty());
    let chars: Vec<char> = crate::text::chars_of(path);
    if chars.len() > 0 && chars[0] == '/' {
        let root: String = owned("/");
        proof {
            crate::pieces::lemma_texts_push(r@, root);
        }
        r.push(root);
        assert(texts(r@) =~= seq!["/"@]);
    }
    let ghost start = texts(r@);
    let mut i: usize = 0;
    assert(start + parts_among(p, 0) =~= start);
    while i < parts.len()
        invariant
            p == texts(parts@),
            i <= parts@.len(),
            texts(r@) == start + parts_among(p, i as int),
        decreases parts.len() - i,
    {
        assert(p[i as int] == parts@[i as int]@);
        let one: &str = parts[i].as_str();
        if !(one.is_empty() || (same(one, ".") && i > 0)) {
            let s: String = owned(one);
            proof {
                crate::pieces::lemma_texts_push(r@, s);
                assert(start + parts_among(p, i + 1) =~= (start + parts_among(p, i as int)).push(
                    s@,
                ));
            }
            r.push(s);
        }
        i = i + 1;
    }
    r
}

// ---------------------------------------------------------------------------
// The tree
// ---------------------------------------------------------------------------

/// A folder.
#[derive(Debug)]
pub struct Folder {
    pub name: String,
    pub content: Files,
}

/// What is known of the folders and files that were made: the folders by their names,
/// and the files by their full paths, each in the form that came first. It serves the project's list of files, and saves
/// making each folder for every file.
#[derive(Debug)]
pub struct Files {
    pub folders: Vec<Folder>,
    pub files: Vec<String>,
}

/// The place of the first of the folders from `i` on that has a name.
pub open spec fn place_from(folders: Seq<Folder>, name: Seq<char>, i: int) -> Option<int>
    decreases folders.len() - i,
{
    if i < 0 || i >= folders.len() {
        None
    } else if folders[i].name@ == name {
        Some(i)
    } else {
        place_from(folders, name, i + 1)
    }
}

/// The place of the folder that has a name.
pub open spec fn place(folders: Seq<Folder>, name: Seq<char>) -> Option<int> {
    place_from(folders, name, 0)
}

impl Files {
    /// Whether a folder is known.
    pub open spec fn has_folder(self, dirs: Seq<Seq<char>>) -> bool
        decreases dirs.len(),
    {
        dirs.len() == 0 || match place(self.folders@, dirs[0]) {
            None => false,
            Some(i) => self.folders@[i].content.has_folder(dirs.skip(1)),
        }
    }

    /// Whether a file is known in a folder.
    pub open spec fn has_file(self, dirs: Seq<Seq<char>>, file: Seq<char>) -> bool
        decreases dirs.len(),
    {
        if dirs.len() == 0 {
            texts(self.files@).contains(file)
        } else {
            match place(self.folders@, dirs[0]) {
                None => false,
                Some(i) => self.folders@[i].content.has_file(dirs.skip(1), file),
            }
        }
    }

    /// Whether a file with the parts `c` is known in a folder, in whatever form.
    pub open spec fn knows_file(self, dirs: Seq<Seq<char>>, c: Seq<Seq<char>>) -> bool {
        exists|y: Seq<char>| #[trigger] self.has_file(dirs, y) && components(y) == c
    }

    /// No name of a folder and no path of a file occurs twice in a folder, in whatever form.
    pub open spec fn wf(self) -> bool
        decreases self,
    {
        &&& forall|i: int, j: int|
            0 <= i < j < self.files@.len() ==> components(#[trigger] texts(self.files@)[i])
                != components(#[trigger] texts(self.files@)[j])
        &&& forall|i: int, j: int|
            0 <= i < j < self.folders@.len() ==> #[trigger] self.folders@[i].name@
                != #[trigger] self.folders@[j].name@
        &&& forall|i: int|
            0 <= i < self.folders@.len() ==> (#[trigger] self.folders@[i]).content.wf()
    }
}

proof fn lemma_place_from(folders: Seq<Folder>, name: Seq<char>, i: int)
    requires
        0 <= i,
    ensures
        match place_from(folders, name, i) {
            Some(k) => i <= k < folders.len() && folders[k].name@ == name && forall|j: int|
                i <= j < k ==> #[trigger] folders[j].name@ != name,
            None => forall|j: int| i <= j < folders.len() ==> #[trigger] folders[j].name@ != name,
        },
    decreases folders.len() - i,
{
    if i < folders.len() && folders[i].name@ != name {
        lemma_place_from(folders, name, i + 1);
    }
}

proof fn lemma_place(folders: Seq<Folder>, name: Seq<char>)
    ensures
        match place(folders, name) {
            Some(k) => 0 <= k < folders.len() && folders[k].name@ == name && forall|j: int|
                0 <= j < k ==> #[trigger] folders[j].name@ != name,
            None => forall|j: int| 0 <= j < folders.len() ==> #[trigger] folders[j].name@ != name,
        },
{
    lemma_place_from(folders, name, 0);
}

/// Folders that have the same names have them at the same places.
proof fn lemma_same_places(a: Seq<Folder>, b: Seq<Folder>, name: Seq<char>)
    requires
        a.len() == b.len(),
        forall|k: int| 0 <= k < a.len() ==> #[trigger] a[k].name@ == b[k].name@,
    ensures
        place(a, name) == place(b, name),
{
    lemma_place(a, name);
    lemma_place(b, name);
    match place(a, name) {
        Some(k) => {
            assert(b[k].name@ == name);
        },
        None => {},
    }
    match place(b, name) {
        Some(k) => {
            assert(a[k].name@ == name);
        },
        None => {},
    }
}

/// A new folder behind others is found where it stands.
proof fn lemma_place_push(folders: Seq<Folder>, new: Folder, name: Seq<char>)
    requires
        place(folders, new.name@) is None,
    ensures
        place(folders.push(new), name) == if name == new.name@ {
            Some(folders.len() as int)
        } else {
            place(folders, name)
        },
{
    lemma_place(folders, name);
    lemma_place(folders.push(new), name);
    lemma_place(folders, new.name@);
    let both = folders.push(new);
    assert(forall|k: int| 0 <= k < folders.len() ==> #[trigger] both[k] == folders[k]);
    assert(both[folders.len() as int] == new);
    match place(folders, name) {
        Some(k) => {
            assert(both[k].name@ == name);
            assert(folders[k].name@ == name);
        },
        None => {},
    }
}

fn find_folder(folders: &Vec<Folder>, name: &str) -> (r: Option<usize>)
    ensures
        match r {
            Some(i) => place(folders@, name@) == Some(i as int) && i < folders@.len(),
            None => place(folders@, name@) is None,
        },
{
    let mut i: usize = 0;
    while i < folders.len()
        invariant
            i <= folders@.len(),
            place(folders@, name@) == place_from(folders@, name@, i as int),
        decreases folders.len() - i,
    {
        if same(folders[i].name.as_str(), name) {
            return Some(i);
        }
        i = i + 1;
    }
    None
}

fn are_same(a: &Vec<String>, b: &Vec<String>) -> (r: bool)
    ensures
        r == (texts(a@) == texts(b@)),
{
    if a.len() != b.len() {
        return false;
    }
    let mut i: usize = 0;
    while i < a.len()
        invariant
            i <= a@.len(),
            a@.len() == b@.len(),
            forall|k: int| 0 <= k < i ==> #[trigger] texts(a@)[k] == texts(b@)[k],
        decreases a.len() - i,
    {
        if !same(a[i].as_str(), b[i].as_str()) {
            assert(texts(a@)[i as int] != texts(b@)[i as int]);
            return false;
        }
        i = i + 1;
    }
    assert(texts(a@) =~= texts(b@));
    true
}

/// Whether a path with the parts `c` is among some paths.
pub open spec fn is_among(paths: Seq<Seq<char>>, c: Seq<Seq<char>>) -> bool {
    exists|k: int| 0 <= k < paths.len() && components(#[trigger] paths[k]) == c
}

fn has_path(v: &Vec<String>, path: &str) -> (r: bool)
    ensures
        r == is_among(texts(v@), components(path@)),
{
    let parts: Vec<String> = components_of(path);
    let mut i: usize = 0;
    while i < v.len()
        invariant
            i <= v@.len(),
            texts(parts@) == components(path@),
            forall|k: int|
                0 <= k < i ==> components(#[trigger] texts(v@)[k]) != components(path@),
        decreases v.len() - i,
    {
        assert(texts(v@)[i as int] == v@[i as int]@);
        if same(v[i].as_str(), path) || are_same(&components_of(v[i].as_str()), &parts) {
            return true;
        }
        i = i + 1;
    }
    false
}

/// Whether `dirs` is one of the folders that lead to the last of `parts`.
pub open spec fn leads_to(dirs: Seq<Seq<char>>, parts: Seq<Seq<char>>) -> bool {
    dirs.len() < parts.len() && dirs == parts.take(dirs.len() as int)
}

/// Whether one of the folders that lead to the last of `parts` is not known.
pub open spec fn lacks_folder(f: Files, parts: Seq<Seq<char>>) -> bool {
    exists|dirs: Seq<Seq<char>>| leads_to(dirs, parts) && !#[trigger] f.has_folder(dirs)
}

/// `b` is `a` with the file `file` at the place that `parts` name, unless it is known there
/// in some form, and all folders that lead there.
pub open spec fn is_with_file(
    a: Files,
    b: Files,
    parts: Seq<Seq<char>>,
    file: Seq<char>,
) -> bool {
    &&& forall|dirs: Seq<Seq<char>>| #[trigger]
        b.has_folder(dirs) == (a.has_folder(dirs) || leads_to(dirs, parts))
    &&& forall|dirs: Seq<Seq<char>>, x: Seq<char>| #[trigger]
        b.has_file(dirs, x) == (a.has_file(dirs, x) || (x == file && parts.len() > 0 && dirs
            == parts.drop_last() && !a.knows_file(dirs, components(file))))
}

proof fn lemma_leads_to(dirs: Seq<Seq<char>>, parts: Seq<Seq<char>>)
    requires
        parts.len() > 1,
        dirs.len() > 0,
    ensures
        leads_to(dirs, parts) == (dirs[0] == parts[0] && leads_to(dirs.skip(1), parts.skip(1))),
        (dirs == parts.drop_last()) == (dirs[0] == parts[0] && dirs.skip(1)
            == parts.skip(1).drop_last()),
{
    let n = dirs.len() as int;
    if n < parts.len() {
        if dirs == parts.take(n) {
            assert(dirs.skip(1) =~= parts.skip(1).take(n - 1));
            assert(dirs[0] == parts.take(n)[0]);
        }
        if dirs[0] == parts[0] && dirs.skip(1) == parts.skip(1).take(n - 1) {
            assert forall|i: int| 0 <= i < n implies dirs[i] == parts.take(n)[i] by {
                if i > 0 {
                    assert(dirs.skip(1)[i - 1] == parts.skip(1).take(n - 1)[i - 1]);
                }
            }
            assert(dirs =~= parts.take(n));
        }
    }
    if dirs == parts.drop_last() {
        assert(dirs.skip(1) =~= parts.skip(1).drop_last());
        assert(dirs[0] == parts.drop_last()[0]);
    }
    if dirs[0] == parts[0] && dirs.skip(1) == parts.skip(1).drop_last() {
        assert(dirs.skip(1).len() == parts.len() - 2);
        assert forall|i: int| 0 <= i < n implies dirs[i] == parts.drop_last()[i] by {
            if i > 0 {
                assert(dirs.skip(1)[i - 1] == parts.skip(1).drop_last()[i - 1]);
            }
        }
        assert(dirs =~= parts.drop_last());
    }
}

/// What holds of the folder on the way holds of the whole.
proof fn lemma_with_file_below(
    a: Files,
    old_child: Files,
    b: Files,
    parts: Seq<Seq<char>>,
    file: Seq<char>,
)
    requires
        parts.len() > 1,
        texts(a.files@) == texts(b.files@),
        place(b.folders@, parts[0]) is Some,
        match place(a.folders@, parts[0]) {
            Some(i) => old_child == a.folders@[i].content,
            None => old_child.folders@.len() == 0 && old_child.files@.len() == 0,
        },
        is_with_file(
            old_child,
            b.folders@[place(b.folders@, parts[0])->0].content,
            parts.skip(1),
            file,
        ),
        forall|name: Seq<char>|
            name != parts[0] ==> #[trigger] place(a.folders@, name) == place(b.folders@, name),
        forall|name: Seq<char>|
            name != parts[0] && #[trigger] place(a.folders@, name) is Some ==> a.folders@[place(
                a.folders@,
                name,
            )->0] == b.folders@[place(b.folders@, name)->0],
    ensures
        is_with_file(a, b, parts, file),
{
    let child = b.folders@[place(b.folders@, parts[0])->0].content;
    assert forall|dirs: Seq<Seq<char>>| #[trigger] b.has_folder(dirs) == (a.has_folder(dirs)
        || leads_to(dirs, parts)) by {
        if dirs.len() > 0 {
            lemma_leads_to(dirs, parts);
            if dirs[0] == parts[0] {
                let rest = dirs.skip(1);
                assert(child.has_folder(rest) == (old_child.has_folder(rest) || leads_to(
                    rest,
                    parts.skip(1),
                )));
                if place(a.folders@, parts[0]) is None {
                    if rest.len() > 0 {
                        lemma_place(old_child.folders@, rest[0]);
                        assert(!old_child.has_folder(rest));
                    } else {
                        assert(rest =~= parts.skip(1).take(0));
                    }
                }
            } else {
                assert(place(a.folders@, dirs[0]) == place(b.folders@, dirs[0]));
            }
        }
    }
    let c = components(file);
    assert forall|dirs: Seq<Seq<char>>, x: Seq<char>| #[trigger]
        b.has_file(dirs, x) == (a.has_file(dirs, x) || (x == file && dirs == parts.drop_last()
            && !a.knows_file(dirs, c))) by {
        if dirs.len() > 0 {
            lemma_leads_to(dirs, parts);
            if dirs[0] == parts[0] {
                let rest = dirs.skip(1);
                assert(child.has_file(rest, x) == (old_child.has_file(rest, x) || (x == file
                    && rest == parts.skip(1).drop_last() && !old_child.knows_file(rest, c))));
                if place(a.folders@, parts[0]) is None {
                    if rest.len() > 0 {
                        lemma_place(old_child.folders@, rest[0]);
                    }
                    assert forall|y: Seq<char>| !#[trigger] old_child.has_file(rest, y) by {}
                    assert(!old_child.knows_file(rest, c));
                    assert forall|y: Seq<char>| !#[trigger] a.has_file(dirs, y) by {}
                    assert(!a.knows_file(dirs, c));
                } else {
                    assert forall|y: Seq<char>| #[trigger]
                        a.has_file(dirs, y) == old_child.has_file(rest, y) by {}
                    if a.knows_file(dirs, c) {
                        let y = choose|y: Seq<char>| #[trigger]
                            a.has_file(dirs, y) && components(y) == c;
                        assert(old_child.has_file(rest, y));
                    }
                    if old_child.knows_file(rest, c) {
                        let y = choose|y: Seq<char>| #[trigger]
                            old_child.has_file(rest, y) && components(y) == c;
                        assert(a.has_file(dirs, y));
                    }
                }
            } else {
                assert(place(a.folders@, dirs[0]) == place(b.folders@, dirs[0]));
            }
        }
    }
}

proof fn lemma_lacks_folder_below(a: Files, parts: Seq<Seq<char>>)
    requires
        parts.len() > 1,
    ensures
        lacks_folder(a, parts) == match place(a.folders@, parts[0]) {
            Some(i) => lacks_folder(a.folders@[i].content, parts.skip(1)),
            None => true,
        },
{
    match place(a.folders@, parts[0]) {
        Some(i) => {
            let c = a.folders@[i].content;
            if lacks_folder(a, parts) {
                let dirs = choose|dirs: Seq<Seq<char>>|
                    leads_to(dirs, parts) && !#[trigger] a.has_folder(dirs);
                lemma_leads_to(dirs, parts);
                assert(!c.has_folder(dirs.skip(1)));
            }
            if lacks_folder(c, parts.skip(1)) {
                let rest = choose|dirs: Seq<Seq<char>>|
                    leads_to(dirs, parts.skip(1)) && !#[trigger] c.has_folder(dirs);
                let dirs = seq![parts[0]] + rest;
                assert(dirs.skip(1) =~= rest);
                lemma_leads_to(dirs, parts);
                assert(!a.has_folder(dirs));
            }
        },
        None => {
            let dirs = seq![parts[0]];
            assert(dirs =~= parts.take(1));
            assert(!a.has_folder(dirs));
        },
    }
}

/// No folder means no name in it.
proof fn lemma_empty_is_wf(f: Files)
    requires
        f.folders@.len() == 0,
        f.files@.len() == 0,
    ensures
        f.wf(),
{
}

fn insert_below(f: &mut Files, parts: &Vec<String>, at: usize, path: &str) -> (r: bool)
    requires
        at < parts@.len(),
        old(f).wf(),
    ensures
        final(f).wf(),
        is_with_file(*old(f), *final(f), texts(parts@).skip(at as int), path@),
        r == lacks_folder(*old(f), texts(parts@).skip(at as int)),
    decreases parts@.len() - at,
{
    let ghost before = *f;
    let ghost all = texts(parts@).skip(at as int);
    let n: usize = parts.len();
    if at + 1 == n {
        let known: bool = has_path(&f.files, path);
        if !known {
            let s: String = owned(path);
            proof {
                crate::pieces::lemma_texts_push(f.files@, s);
            }
            f.files.push(s);
        }
        proof {
            let b = *f;
            assert(all.drop_last() =~= Seq::<Seq<char>>::empty());
            assert(b.folders@ == before.folders@);
            let old_files = texts(before.files@);
            let new_files = texts(b.files@);
            assert forall|x: Seq<char>| #[trigger]
                new_files.contains(x) == (old_files.contains(x) || (x == path@ && !known)) by {
                if new_files.contains(x) {
                    let k = new_files.index_of(x);
                    if k < old_files.len() {
                        assert(old_files[k] == x);
                    }
                }
                if old_files.contains(x) {
                    let k = old_files.index_of(x);
                    assert(new_files[k] == x);
                }
                if x == path@ && !known {
                    assert(new_files[old_files.len() as int] == x);
                }
            }
            assert forall|i: int, j: int| 0 <= i < j < new_files.len() implies components(
                #[trigger] new_files[i],
            ) != components(#[trigger] new_files[j]) by {
                assert(new_files[i] == old_files[i]);
                if j < old_files.len() {
                    assert(new_files[j] == old_files[j]);
                }
            }
            let none = all.drop_last();
            assert(before.knows_file(none, components(path@)) == known) by {
                if known {
                    let k = choose|k: int|
                        0 <= k < old_files.len() && components(#[trigger] old_files[k])
                            == components(path@);
                    assert(old_files.contains(old_files[k]));
                    assert(before.has_file(none, old_files[k]));
                }
                if before.knows_file(none, components(path@)) {
                    let y = choose|y: Seq<char>| #[trigger]
                        before.has_file(none, y) && components(y) == components(path@);
                    let k = old_files.index_of(y);
                    assert(old_files[k] == y);
                }
            }
            assert forall|dirs: Seq<Seq<char>>| #[trigger] b.has_folder(dirs) == (
            before.has_folder(dirs) || leads_to(dirs, all)) by {}
            assert forall|dirs: Seq<Seq<char>>, x: Seq<char>| #[trigger]
                b.has_file(dirs, x) == (before.has_file(dirs, x) || (x == path@ && dirs
                    == all.drop_last() && !before.knows_file(dirs, components(path@)))) by {
                if dirs.len() == 0 {
                    assert(dirs =~= all.drop_last());
                }
            }
            assert(!lacks_folder(before, all));
        }
        return false;
    }
    let name: &str = parts[at].as_str();
    assert(all[0] == name@);
    assert(all.skip(1) =~= texts(parts@).skip(at + 1));
    proof {
        lemma_lacks_folder_below(before, all);
        lemma_place(f.folders@, name@);
    }
    match find_folder(&f.folders, name) {
        Some(i) => {
            let ghost old_folders = f.folders@;
            let ghost old_child = f.folders@[i as int].content;
            let created: bool = insert_below(&mut f.folders[i].content, parts, at + 1, path);
            proof {
                let b = *f;
                assert(b.folders@.len() == old_folders.len());
                assert forall|k: int| 0 <= k < old_folders.len() && k != i implies b.folders@[k]
                    == #[trigger] old_folders[k] by {}
                assert(b.folders@[i as int].name == old_folders[i as int].name);
                assert forall|x: Seq<char>| #[trigger]
                    place(old_folders, x) == place(b.folders@, x) by {
                    lemma_same_places(old_folders, b.folders@, x);
                }
                assert forall|x: Seq<char>| x != all[0] && #[trigger] place(old_folders, x)
                    is Some implies old_folders[place(old_folders, x)->0] == b.folders@[place(
                    b.folders@,
                    x,
                )->0] by {
                    lemma_place(old_folders, x);
                    assert(place(old_folders, x) == place(b.folders@, x));
                }
                assert(place(b.folders@, name@) == place(old_folders, name@));
                lemma_with_file_below(before, old_child, b, all, path@);
                assert(b.wf());
            }
            created
        },
        None => {
            let mut content: Files = Files { folders: Vec::new(), files: Vec::new() };
            let ghost old_child = content;
            proof {
                lemma_empty_is_wf(content);
            }
            let created: bool = insert_below(&mut content, parts, at + 1, path);
            let ghost old_folders = f.folders@;
            let one: Folder = Folder { name: owned(name), content };
            let ghost new = one;
            f.folders.push(one);
            proof {
                let b = *f;
                assert(b.folders@ == old_folders.push(new));
                assert forall|x: Seq<char>| #[trigger]
                    place(b.folders@, x) == (if x == name@ {
                        Some(old_folders.len() as int)
                    } else {
                        place(old_folders, x)
                    }) by {
                    lemma_place_push(old_folders, new, x);
                }
                assert forall|x: Seq<char>| x != all[0] && #[trigger] place(old_folders, x)
                    is Some implies old_folders[place(old_folders, x)->0] == b.folders@[place(
                    b.folders@,
                    x,
                )->0] by {
                    lemma_place(old_folders, x);
                    assert(place(b.folders@, x) == place(old_folders, x));
                }
                assert forall|x: Seq<char>| x != all[0] implies #[trigger] place(old_folders, x)
                    == place(b.folders@, x) by {
                    assert(place(b.folders@, x) == place(old_folders, x));
                }
                assert(place(b.folders@, name@) == Some(old_folders.len() as int));
                lemma_with_file_below(before, old_child, b, all, path@);
                assert(b.wf());
            }
            true
        },
    }
}

impl Files {
    /// Nothing is known.
    pub fn new() -> (r: Files)
        ensures
            r.wf(),
            r.folders@.len() == 0,
            r.files@.len() == 0,
    {
        Files { folders: Vec::new(), files: Vec::new() }
    }

    /// Takes a file in, with the folders that lead to it. Returns whether a folder is
    /// new.
    pub fn insert(&mut self, path: &str) -> (r: bool)
        requires
            old(self).wf(),
        ensures
            final(self).wf(),
            is_with_file(*old(self), *final(self), components(path@), path@),
            r == lacks_folder(*old(self), components(path@)),
    {
        let parts: Vec<String> = components_of(path);
        if parts.len() == 0 {
            return false;
        }
        assert(components(path@).skip(0) =~= components(path@));
        insert_below(self, &parts, 0, path)
    }

    /// Takes a file in, with the folders that lead to it. Returns whether a folder is
    /// new.
    pub fn insert_leak(&mut self, path: &str) -> (r: bool)
        requires
            old(self).wf(),
        ensures
            final(self).wf(),
            is_with_file(*old(self), *final(self), components(path@), path@),
            r == lacks_folder(*old(self), components(path@)),
    {
        self.insert(path)
    }
}

impl Default for Files {
    fn default() -> (r: Files)
        ensures
            r.wf(),
            r.folders@.len() == 0,
            r.files@.len() == 0,
    {
        Files::new()
    }
}

/// Once a file was taken in, its folders are known, and to take it in again, in whatever
/// form, makes no folder and changes nothing that is known.
pub proof fn lemma_insert_again(a: Files, b: Files, c: Files, path: Seq<char>, again: Seq<char>)
    requires
        components(again) == components(path),
        is_with_file(a, b, components(path), path),
        is_with_file(b, c, components(again), again),
    ensures
        !lacks_folder(b, components(path)),
        forall|dirs: Seq<Seq<char>>| #[trigger] c.has_folder(dirs) == b.has_folder(dirs),
        forall|dirs: Seq<Seq<char>>, x: Seq<char>| #[trigger]
            c.has_file(dirs, x) == b.has_file(dirs, x),
{
    assert forall|dirs: Seq<Seq<char>>| leads_to(dirs, components(path)) implies #[trigger]
        b.has_folder(dirs) by {}
    assert forall|dirs: Seq<Seq<char>>| #[trigger] c.has_folder(dirs) == b.has_folder(dirs) by {
        assert(b.has_folder(dirs) == (a.has_folder(dirs) || leads_to(dirs, components(path))));
    }
    assert forall|dirs: Seq<Seq<char>>, x: Seq<char>| #[trigger]
        c.has_file(dirs, x) == b.has_file(dirs, x) by {
        let c = components(path);
        assert(b.has_file(dirs, x) == (a.has_file(dirs, x) || (x == path && c.len() > 0 && dirs
            == c.drop_last() && !a.knows_file(dirs, c))));
        if c.len() > 0 && dirs == c.drop_last() {
            if a.knows_file(dirs, c) {
                let y = choose|y: Seq<char>| #[trigger]
                    a.has_file(dirs, y) && components(y) == c;
                assert(b.has_file(dirs, y));
            } else {
                assert(b.has_file(dirs, path));
            }
            assert(b.knows_file(dirs, c));
        }
    }
}

// ---------------------------------------------------------------------------
// A layer for the files of a folder
// ---------------------------------------------------------------------------

/// Whether `dirs` is the folder `name` in the folder `at`, or in that folder.
pub open spec fn is_under(dirs: Seq<Seq<char>>, at: Seq<Seq<char>>, name: Seq<char>) -> bool {
    dirs.len() > at.len() && dirs.take(at.len() as int + 1) == at.push(name)
}

/// `b` is `a` with the files of the folder `at` in a folder `name` of their own, in place
/// of what stood there.
pub open spec fn is_layered(a: Files, b: Files, at: Seq<Seq<char>>, name: Seq<char>) -> bool {
    &&& forall|dirs: Seq<Seq<char>>| #[trigger]
        b.has_folder(dirs) == (if is_under(dirs, at, name) {
            dirs.len() == at.len() + 1
        } else {
            a.has_folder(dirs)
        })
    &&& forall|dirs: Seq<Seq<char>>, x: Seq<char>| #[trigger]
        b.has_file(dirs, x) == (if dirs == at {
            false
        } else if is_under(dirs, at, name) {
            dirs.len() == at.len() + 1 && a.has_file(at, x)
        } else {
            a.has_file(dirs, x)
        })
}

proof fn lemma_is_under(dirs: Seq<Seq<char>>, at: Seq<Seq<char>>, name: Seq<char>)
    requires
        at.len() > 0,
        dirs.len() > 0,
    ensures
        is_under(dirs, at, name) == (dirs[0] == at[0] && is_under(dirs.skip(1), at.skip(1), name)),
        (dirs == at) == (dirs[0] == at[0] && dirs.skip(1) == at.skip(1)),
{
    let n = at.len() as int;
    let goal = at.push(name);
    let rest = at.skip(1).push(name);
    assert(rest =~= goal.skip(1));
    if dirs.len() > n {
        let d = dirs.take(n + 1);
        assert(dirs.skip(1).take(n) =~= d.skip(1));
        if d == goal {
            assert(d[0] == goal[0]);
        }
        if dirs[0] == at[0] && d.skip(1) == rest {
            assert forall|i: int| 0 <= i < n + 1 implies d[i] == goal[i] by {
                if i > 0 {
                    assert(d.skip(1)[i - 1] == rest[i - 1]);
                }
            }
            assert(d =~= goal);
        }
    }
    if dirs[0] == at[0] && dirs.skip(1) == at.skip(1) {
        assert(dirs.len() == dirs.skip(1).len() + 1);
        assert forall|i: int| 0 <= i < dirs.len() implies dirs[i] == at[i] by {
            if i > 0 {
                assert(dirs.skip(1)[i - 1] == at.skip(1)[i - 1]);
            }
        }
        assert(dirs =~= at);
    }
}

proof fn lemma_layered_below(a: Files, b: Files, at: Seq<Seq<char>>, name: Seq<char>, i: int)
    requires
        at.len() > 0,
        a.files@ == b.files@,
        a.folders@.len() == b.folders@.len(),
        place(a.folders@, at[0]) == Some(i),
        a.folders@[i].name == b.folders@[i].name,
        forall|k: int|
            0 <= k < a.folders@.len() && k != i ==> #[trigger] a.folders@[k] == b.folders@[k],
        is_layered(a.folders@[i].content, b.folders@[i].content, at.skip(1), name),
    ensures
        is_layered(a, b, at, name),
{
    let c = a.folders@[i].content;
    let d = b.folders@[i].content;
    lemma_place(a.folders@, at[0]);
    assert forall|x: Seq<char>| #[trigger] place(b.folders@, x) == place(a.folders@, x) by {
        lemma_same_places(a.folders@, b.folders@, x);
    }
    assert forall|x: Seq<char>| x != at[0] && #[trigger] place(b.folders@, x) is Some implies
        a.folders@[place(b.folders@, x)->0] == b.folders@[place(b.folders@, x)->0] by {
        lemma_place(b.folders@, x);
        lemma_place(a.folders@, x);
    }
    assert forall|dirs: Seq<Seq<char>>| #[trigger]
        b.has_folder(dirs) == (if is_under(dirs, at, name) {
            dirs.len() == at.len() + 1
        } else {
            a.has_folder(dirs)
        }) by {
        if dirs.len() > 0 {
            lemma_is_under(dirs, at, name);
            assert(place(b.folders@, dirs[0]) == place(a.folders@, dirs[0]));
            if dirs[0] == at[0] {
                let rest = dirs.skip(1);
                assert(d.has_folder(rest) == (if is_under(rest, at.skip(1), name) {
                    rest.len() == at.skip(1).len() + 1
                } else {
                    c.has_folder(rest)
                }));
            }
        }
    }
    assert forall|dirs: Seq<Seq<char>>, x: Seq<char>| #[trigger]
        b.has_file(dirs, x) == (if dirs == at {
            false
        } else if is_under(dirs, at, name) {
            dirs.len() == at.len() + 1 && a.has_file(at, x)
        } else {
            a.has_file(dirs, x)
        }) by {
        if dirs.len() > 0 {
            lemma_is_under(dirs, at, name);
            assert(place(b.folders@, dirs[0]) == place(a.folders@, dirs[0]));
            if dirs[0] == at[0] {
                let rest = dirs.skip(1);
                assert(d.has_file(rest, x) == (if rest == at.skip(1) {
                    false
                } else if is_under(rest, at.skip(1), name) {
                    rest.len() == at.skip(1).len() + 1 && c.has_file(at.skip(1), x)
                } else {
                    c.has_file(rest, x)
                }));
            }
        }
    }
}

fn knows_below(f: &Files, at: &Vec<String>, i: usize) -> (r: bool)
    requires
        i <= at@.len(),
    ensures
        r == f.has_folder(texts(at@).skip(i as int)),
    decreases at@.len() - i,
{
    if i == at.len() {
        return true;
    }
    let ghost all = texts(at@).skip(i as int);
    assert(all[0] == at@[i as int]@);
    assert(all.skip(1) =~= texts(at@).skip(i + 1));
    match find_folder(&f.folders, at[i].as_str()) {
        None => false,
        Some(k) => knows_below(&f.folders[k].content, at, i + 1),
    }
}

fn move_up_below(f: &mut Files, at: &Vec<String>, i: usize, name: &str)
    requires
        i <= at@.len(),
        old(f).wf(),
        old(f).has_folder(texts(at@).skip(i as int)),
    ensures
        final(f).wf(),
        is_layered(*old(f), *final(f), texts(at@).skip(i as int), name@),
    decreases at@.len() - i,
{
    let ghost before = *f;
    let ghost all = texts(at@).skip(i as int);
    if i == at.len() {
        f.move_layer_up(name);
        assert(all =~= Seq::<Seq<char>>::empty());
        return ;
    }
    assert(all[0] == at@[i as int]@);
    assert(all.skip(1) =~= texts(at@).skip(i + 1));
    proof {
        lemma_place(f.folders@, all[0]);
    }
    match find_folder(&f.folders, at[i].as_str()) {
        None => {},
        Some(k) => {
            move_up_below(&mut f.folders[k].content, at, i + 1, name);
            proof {
                let b = *f;
                assert(b.folders@[k as int].name == before.folders@[k as int].name);
                assert forall|j: int| 0 <= j < before.folders@.len() && j != k implies b.folders@[j]
                    == #[trigger] before.folders@[j] by {}
                lemma_layered_below(before, b, all, name@, k as int);
                assert(b.wf());
            }
        },
    }
}

/// What is missing.
#[derive(Clone, Copy, PartialEq, Eq, Debug, Structural)]
pub enum MissingFolder {
    Headers,
    EngineHeaders,
    Sources,
}

impl Files {
    /// Puts the files of this folder into a folder of their own, in place of what stood
    /// there.
    pub fn move_layer_up(&mut self, path: &str)
        requires
            old(self).wf(),
        ensures
            final(self).wf(),
            is_layered(*old(self), *final(self), Seq::empty(), path@),
    {
        let ghost before = *self;
        let ghost none = Seq::<Seq<char>>::empty();
        let mut files: Vec<String> = Vec::new();
        std::mem::swap(&mut files, &mut self.files);
        let content: Files = Files { folders: Vec::new(), files };
        let ghost child = content;
        let ghost old_folders = self.folders@;
        proof {
            lemma_place(old_folders, path@);
        }
        match find_folder(&self.folders, path) {
            Some(i) => {
                self.folders[i].content = content;
                proof {
                    let b = *self;
                    assert forall|x: Seq<char>| #[trigger]
                        place(b.folders@, x) == place(old_folders, x) by {
                        lemma_same_places(old_folders, b.folders@, x);
                    }
                }
            },
            None => {
                let one: Folder = Folder { name: owned(path), content };
                let ghost new = one;
                self.folders.push(one);
                proof {
                    let b = *self;
                    assert forall|x: Seq<char>| x != path@ implies #[trigger] place(b.folders@, x)
                        == place(old_folders, x) by {
                        lemma_place_push(old_folders, new, x);
                    }
                    lemma_place_push(old_folders, new, path@);
                }
            },
        }
        proof {
            let b = *self;
            lemma_place(b.folders@, path@);
            assert(b.folders@[place(b.folders@, path@)->0].content == child);
            assert(texts(child.files@) == texts(before.files@));
            assert forall|x: Seq<char>| x != path@ && #[trigger] place(b.folders@, x)
                is Some implies place(b.folders@, x) == place(old_folders, x)
                && b.folders@[place(b.folders@, x)->0] == old_folders[place(b.folders@, x)->0] by {
                lemma_place(b.folders@, x);
                lemma_place(old_folders, x);
            }
            assert(child.wf());
            assert(b.wf());
            assert forall|dirs: Seq<Seq<char>>| #[trigger] is_under(dirs, none, path@) == (
            dirs.len() > 0 && dirs[0] == path@) by {
                if dirs.len() > 0 {
                    assert(dirs.take(1) =~= none.push(dirs[0]));
                    assert(dirs.take(1)[0] == dirs[0]);
                    assert(none.push(path@)[0] == path@);
                }
            }
            assert forall|dirs: Seq<Seq<char>>| #[trigger]
                b.has_folder(dirs) == (if is_under(dirs, none, path@) {
                    dirs.len() == 1
                } else {
                    before.has_folder(dirs)
                }) by {
                if dirs.len() > 0 && dirs[0] == path@ {
                    let rest = dirs.skip(1);
                    if rest.len() > 0 {
                        lemma_place(child.folders@, rest[0]);
                    }
                    assert(child.has_folder(rest) == (rest.len() == 0));
                }
            }
            assert forall|dirs: Seq<Seq<char>>, x: Seq<char>| #[trigger]
                b.has_file(dirs, x) == (if dirs == none {
                    false
                } else if is_under(dirs, none, path@) {
                    dirs.len() == 1 && before.has_file(none, x)
                } else {
                    before.has_file(dirs, x)
                }) by {
                if dirs.len() == 0 {
                    assert(dirs =~= none);
                    assert(texts(b.files@).len() == 0);
                    assert(!b.has_file(dirs, x));
                } else if dirs[0] == path@ {
                    let rest = dirs.skip(1);
                    if rest.len() > 0 {
                        lemma_place(child.folders@, rest[0]);
                        assert(!child.has_file(rest, x));
                    } else {
                        assert(rest =~= none);
                        assert(child.has_file(rest, x) == texts(before.files@).contains(x));
                        assert(before.has_file(none, x) == texts(before.files@).contains(x));
                    }
                    assert(b.has_file(dirs, x) == child.has_file(rest, x));
                } else {
                    assert(b.has_file(dirs, x) == before.has_file(dirs, x));
                }
            }
        }
    }

    /// Puts the files of a folder into a folder `name` of their own, where the first is
    /// known.
    pub fn move_layer_up_in(&mut self, at: &Vec<String>, name: &str) -> (r: bool)
        requires
            old(self).wf(),
        ensures
            final(self).wf(),
            r == old(self).has_folder(texts(at@)),
            r ==> is_layered(*old(self), *final(self), texts(at@), name@),
            !r ==> *final(self) == *old(self),
    {
        assert(texts(at@).skip(0) =~= texts(at@));
        if !knows_below(self, at, 0) {
            return false;
        }
        move_up_below(self, at, 0, name);
        true
    }

    /// Gives the files that stand directly among the engine's headers, and those that
    /// stand directly among the sources, a folder of their own.
    pub fn lift_roots(&mut self) -> (r: Result<(), MissingFolder>)
        requires
            old(self).wf(),
        ensures
            final(self).wf(),
            r == roots_lifted(*old(self)),
            r is Ok ==> exists|between: Files| #[trigger]
                is_layered(*old(self), between, engine_folder(), "__root"@) && is_layered(
                    between,
                    *final(self),
                    seq!["sources"@],
                    "__root"@,
                ),
    {
        let ghost before = *self;
        match find_folder(&self.folders, "headers") {
            None => {
                return Err(MissingFolder::Headers);
            },
            Some(_) => {},
        }
        let mut engine: Vec<String> = Vec::new();
        engine.push(owned("headers"));
        engine.push(owned("vostok"));
        assert(texts(engine@) =~= seq!["headers"@, "vostok"@]);
        proof {
            let dirs = seq!["headers"@];
            assert(dirs[0] == "headers"@);
            let i = place(before.folders@, dirs[0])->0;
            assert(before.folders@[i].content.has_folder(dirs.skip(1)));
            assert(before.has_folder(dirs));
        }
        if !self.move_layer_up_in(&engine, "__root") {
            return Err(MissingFolder::EngineHeaders);
        }
        let ghost between = *self;
        let mut sources: Vec<String> = Vec::new();
        sources.push(owned("sources"));
        assert(texts(sources@) =~= seq!["sources"@]);
        proof {
            reveal_strlit("sources");
            reveal_strlit("headers");
            let dirs = seq!["sources"@];
            let at = seq!["headers"@, "vostok"@];
            assert(between.has_folder(dirs) == before.has_folder(dirs));
        }
        if !self.move_layer_up_in(&sources, "__root") {
            return Err(MissingFolder::Sources);
        }
        assert(is_layered(before, between, engine_folder(), "__root"@));
        Ok(())
    }
}

/// The folder of the engine's headers.
pub open spec fn engine_folder() -> Seq<Seq<char>> {
    seq!["headers"@, "vostok"@]
}

/// Whether the layers can be made, and which folder is missing where they cannot.
pub open spec fn roots_lifted(f: Files) -> Result<(), MissingFolder> {
    if !f.has_folder(seq!["headers"@]) {
        Err(MissingFolder::Headers)
    } else if !f.has_folder(engine_folder()) {
        Err(MissingFolder::EngineHeaders)
    } else if !f.has_folder(seq!["sources"@]) {
        Err(MissingFolder::Sources)
    } else {
        Ok(())
    }
}

} // verus!
