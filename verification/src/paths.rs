//! File paths as text, taken apart at `/`.

use crate::search::{pieces, split};
use crate::search::tail_of;
use crate::text::{chars_of, owned, same, texts};
use crate::type_builder::opt;
use vstd::prelude::*;

verus! {

/// The last of the first `n` parts of a path that is a name. A part that names
/// the parent directory ends the search.
pub open spec fn last_name(parts: Seq<Seq<char>>, n: int) -> Option<Seq<char>>
    decreases n,
{
    if n <= 0 {
        None
    } else if parts[n - 1].len() == 0 || parts[n - 1] == "."@ {
        last_name(parts, n - 1)
    } else if parts[n - 1] == ".."@ {
        None
    } else {
        Some(parts[n - 1])
    }
}

/// The name of the file that a path leads to.
pub open spec fn file_name(path: Seq<char>) -> Option<Seq<char>> {
    let parts = pieces(path, "/"@);
    last_name(parts, parts.len() as int)
}

/// The position of the last `c` among the first `n` characters.
pub open spec fn last_index(s: Seq<char>, c: char, n: int) -> Option<int>
    decreases n,
{
    if n <= 0 {
        None
    } else if s[n - 1] == c {
        Some(n - 1)
    } else {
        last_index(s, c, n - 1)
    }
}

/// What stands behind the last dot of a file name. A dot at the beginning counts
/// for none.
pub open spec fn extension_of(name: Seq<char>) -> Option<Seq<char>> {
    match last_index(name, '.', name.len() as int) {
        Some(i) => if i == 0 {
            None
        } else {
            Some(name.skip(i + 1))
        },
        None => None,
    }
}

/// The extension of the file that a path leads to.
pub open spec fn extension(path: Seq<char>) -> Option<Seq<char>> {
    match file_name(path) {
        Some(name) => extension_of(name),
        None => None,
    }
}

/// The name of the file that a path leads to.
pub fn file_name_of(path: &str) -> (r: Option<String>)
    ensures
        opt(r) == file_name(path@),
{
    let parts: Vec<String> = split(path, "/");
    let mut n: usize = parts.len();
    while n > 0
        invariant
            n <= parts@.len(),
            texts(parts@) == pieces(path@, "/"@),
            file_name(path@) == last_name(pieces(path@, "/"@), n as int),
        decreases n,
    {
        let p: &String = &parts[n - 1];
        assert(pieces(path@, "/"@)[n - 1] == p@);
        if !p.as_str().is_empty() && !same(p.as_str(), ".") {
            if same(p.as_str(), "..") {
                return None;
            }
            return Some(owned(p.as_str()));
        }
        n = n - 1;
    }
    None
}

/// The position of the last `c`.
pub fn last_position(v: &Vec<char>, c: char) -> (r: Option<usize>)
    ensures
        match r {
            Some(i) => last_index(v@, c, v@.len() as int) == Some(i as int) && i < v@.len(),
            None => last_index(v@, c, v@.len() as int) is None,
        },
{
    let mut n: usize = v.len();
    while n > 0
        invariant
            n <= v@.len(),
            last_index(v@, c, v@.len() as int) == last_index(v@, c, n as int),
        decreases n,
    {
        if v[n - 1] == c {
            return Some(n - 1);
        }
        n = n - 1;
    }
    None
}

/// The extension of the file that a path leads to.
pub fn extension_in(path: &str) -> (r: Option<String>)
    ensures
        opt(r) == extension(path@),
{
    match file_name_of(path) {
        Some(name) => {
            let v: Vec<char> = chars_of(name.as_str());
            match last_position(&v, '.') {
                Some(i) => if i == 0 {
                    None
                } else {
                    Some(tail_of(&v, i + 1))
                },
                None => None,
            }
        },
        None => None,
    }
}

/// Whether a function is defined in a header or in a source file.
#[derive(Clone, Copy, PartialEq, Eq, Debug, Structural)]
pub enum FunctionLocation {
    Header,
    Source,
}

impl FunctionLocation {
    /// Where a function is defined whose code comes from `file`.
    pub open spec fn of(file: Seq<char>) -> FunctionLocation {
        match extension(file) {
            Some(e) => if e == "cpp"@ || e == "c"@ || e == "cxx"@ {
                FunctionLocation::Source
            } else {
                FunctionLocation::Header
            },
            None => FunctionLocation::Header,
        }
    }

    /// Where a function is defined whose code comes from `file`.
    pub fn get(file: &str) -> (r: FunctionLocation)
        ensures
            r == FunctionLocation::of(file@),
    {
        match extension_in(file) {
            Some(e) => if same(e.as_str(), "cpp") || same(e.as_str(), "c") || same(
                e.as_str(),
                "cxx",
            ) {
                FunctionLocation::Source
            } else {
                FunctionLocation::Header
            },
            None => FunctionLocation::Header,
        }
    }
}

} // verus!
