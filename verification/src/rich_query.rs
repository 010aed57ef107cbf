//! Queries over a list of functions.

use crate::lcs::views;
use crate::order::{is_le, lemma_sorted_by, rank_of, sort_stable, sorted_by, text_le, Ranked};
use crate::rich_context::FunctionEntry;
use crate::search::{contains, has_part};
use crate::text::{lowercase, same, to_lowercase};
use vstd::prelude::*;

verus! {

/// What to look for. What is not set does not matter.
pub struct Query<'a> {
    /// A part of the signature, in any letter case.
    pub name: Option<&'a str>,
    /// The address of the function in its image.
    pub rva: Option<u32>,
    /// The whole decorated name.
    pub mangled: Option<&'a str>,
}

/// Whether an entry is one that was asked for, given its name and the name
/// looked for in lower case.
pub open spec fn is_match(
    query: Query,
    needle: Option<Seq<char>>,
    entry: FunctionEntry,
    lowered: Seq<char>,
) -> bool {
    &&& query.rva matches Some(rva) ==> entry.rva == rva
    &&& query.mangled matches Some(m) ==> entry.mangled@ == m@
    &&& needle matches Some(n) ==> contains(lowered, n)
}

/// The name that a query looks for, in lower case.
pub open spec fn needle_of(query: Query) -> Option<Seq<char>> {
    match query.name {
        Some(n) => Some(lowercase(n@)),
        None => None,
    }
}

/// The entries among the first `n` that a query asks for.
pub open spec fn hits(query: Query, entries: Seq<FunctionEntry>, n: int) -> Seq<FunctionEntry>
    decreases n,
{
    if n <= 0 {
        Seq::empty()
    } else if is_match(query, needle_of(query), entries[n - 1], lowercase(entries[n - 1].name@)) {
        hits(query, entries, n - 1).push(entries[n - 1])
    } else {
        hits(query, entries, n - 1)
    }
}

/// Whether `a` stands before `b`: by file, and within a file by address.
pub open spec fn entry_le(a: FunctionEntry, b: FunctionEntry) -> bool {
    if a.file@ == b.file@ {
        a.rva <= b.rva
    } else {
        text_le(a.file@, b.file@)
    }
}

/// An entry that was found.
struct Hit<'a> {
    entry: &'a FunctionEntry,
}

impl<'a> View for Hit<'a> {
    type V = FunctionEntry;

    closed spec fn view(&self) -> FunctionEntry {
        *self.entry
    }
}

impl<'a> Ranked for Hit<'a> {
    open spec fn before(a: FunctionEntry, b: FunctionEntry) -> bool {
        entry_le(a, b)
    }

    fn is_before(&self, other: &Self) -> (r: bool) {
        if self.entry.file == other.entry.file {
            self.entry.rva <= other.entry.rva
        } else {
            is_le(self.entry.file.as_str(), other.entry.file.as_str())
        }
    }
}

/// Whether an entry is one that was asked for. `needle` is the name looked for
/// and `lowered` the entry's name, both in lower case.
pub fn matches(query: &Query, needle: Option<&str>, entry: &FunctionEntry, lowered: &str) -> (r:
    bool)
    ensures
        r == is_match(
            *query,
            match needle {
                Some(n) => Some(n@),
                None => None,
            },
            *entry,
            lowered@,
        ),
{
    if let Some(rva) = query.rva {
        if entry.rva != rva {
            return false;
        }
    }
    if let Some(m) = query.mangled {
        if !same(entry.mangled.as_str(), m) {
            return false;
        }
    }
    match needle {
        Some(n) => has_part(lowered, n),
        None => true,
    }
}

/// The entries that a query asks for, by file and address.
pub fn search<'a>(entries: &'a Vec<FunctionEntry>, query: &Query) -> (r: Vec<&'a FunctionEntry>)
    ensures
        r@.map_values(|e: &FunctionEntry| *e) == sorted_by(
            hits(*query, entries@, entries@.len() as int),
            |a: FunctionEntry, b: FunctionEntry| entry_le(a, b),
        ),
{
    let needle: Option<String> = match query.name {
        Some(n) => Some(to_lowercase(n)),
        None => None,
    };
    let mut found: Vec<Hit<'a>> = Vec::new();
    let mut i: usize = 0;
    assert(views(found@) =~= Seq::empty());
    while i < entries.len()
        invariant
            i <= entries@.len(),
            match needle {
                Some(n) => needle_of(*query) == Some(n@),
                None => needle_of(*query) is None,
            },
            views(found@) == hits(*query, entries@, i as int),
        decreases entries.len() - i,
    {
        let lowered: String = to_lowercase(entries[i].name.as_str());
        let n: Option<&str> = match &needle {
            Some(s) => Some(s.as_str()),
            None => None,
        };
        if matches(query, n, &entries[i], lowered.as_str()) {
            let ghost before = found@;
            found.push(Hit { entry: &entries[i] });
            assert(views(found@) =~= views(before).push(entries@[i as int]));
        }
        i = i + 1;
    }
    let sorted: Vec<Hit<'a>> = sort_stable(found);
    let mut out: Vec<&'a FunctionEntry> = Vec::new();
    let mut k: usize = 0;
    while k < sorted.len()
        invariant
            k <= sorted@.len(),
            out@.len() == k,
            forall|j: int| 0 <= j < k ==> *(#[trigger] out@[j]) == sorted@[j]@,
        decreases sorted.len() - k,
    {
        out.push(sorted[k].entry);
        k = k + 1;
    }
    assert(rank_of::<Hit<'a>>() =~= (|a: FunctionEntry, b: FunctionEntry| entry_le(a, b)));
    assert(out@.map_values(|e: &FunctionEntry| *e) =~= views(sorted@));
    out
}

/// The rank of entries puts any two in order.
pub proof fn lemma_entry_rank()
    ensures
        crate::order::is_rank(|a: FunctionEntry, b: FunctionEntry| entry_le(a, b)),
{
    let le = |a: FunctionEntry, b: FunctionEntry| entry_le(a, b);
    assert forall|a: FunctionEntry, b: FunctionEntry| #[trigger] le(a, b) || le(b, a) by {
        crate::order::lemma_text_le_total(a.file@, b.file@);
    }
    assert forall|a: FunctionEntry, b: FunctionEntry, c: FunctionEntry| #[trigger]
        le(a, b) && #[trigger] le(b, c) implies le(a, c) by {
        if a.file@ != b.file@ && b.file@ != c.file@ {
            crate::order::lemma_text_le_transitive(a.file@, b.file@, c.file@);
            if a.file@ == c.file@ {
                crate::order::lemma_text_le_antisymmetric(a.file@, b.file@);
            }
        }
    }
}

/// What a search finds is in order by file and address, and is what was asked
/// for: as many entries as match, the same ones.
pub proof fn lemma_search_is_sorted(query: Query, entries: Seq<FunctionEntry>)
    ensures
        ({
            let le = |a: FunctionEntry, b: FunctionEntry| entry_le(a, b);
            let h = hits(query, entries, entries.len() as int);
            &&& crate::order::is_sorted(sorted_by(h, le), le)
            &&& sorted_by(h, le).to_multiset() == h.to_multiset()
        }),
{
    let le = |a: FunctionEntry, b: FunctionEntry| entry_le(a, b);
    lemma_entry_rank();
    lemma_sorted_by(hits(query, entries, entries.len() as int), le);
}

/// A query that sets nothing asks for every entry.
pub proof fn lemma_open_query_finds_all(query: Query, entries: Seq<FunctionEntry>, n: int)
    requires
        query.name is None,
        query.rva is None,
        query.mangled is None,
        0 <= n <= entries.len(),
    ensures
        hits(query, entries, n) == entries.take(n),
    decreases n,
{
    if n > 0 {
        lemma_open_query_finds_all(query, entries, n - 1);
    }
    assert(hits(query, entries, n) =~= entries.take(n));
}

} // verus!
