//! The classification of functions that are in one build only.
//!
//! Each function has a status by its mangled name, so that those that are yet to be
//! written can be told from those that cannot be matched.

use crate::lcs::views;
use crate::order::{is_le, lemma_text_le_antisymmetric, lemma_text_le_total,
    lemma_text_le_transitive, text_le};
use crate::search::{trim, trimmed};
use crate::text::{owned, same};
use crate::type_builder::opt;
use vstd::prelude::*;

verus! {

/// The classification of a function.
#[derive(Debug)]
pub struct ClassEntry {
    pub mangled: String,
    pub status: String,
    pub reason: Option<String>,
    pub reviewed_at: Option<String>,
    pub reviewed_by: Option<String>,
}

/// The classification of a function, as a model.
pub struct ClassEntryModel {
    pub mangled: Seq<char>,
    pub status: Seq<char>,
    pub reason: Option<Seq<char>>,
    pub reviewed_at: Option<Seq<char>>,
    pub reviewed_by: Option<Seq<char>>,
}

impl View for ClassEntry {
    type V = ClassEntryModel;

    open spec fn view(&self) -> ClassEntryModel {
        ClassEntryModel {
            mangled: self.mangled@,
            status: self.status@,
            reason: opt(self.reason),
            reviewed_at: opt(self.reviewed_at),
            reviewed_by: opt(self.reviewed_by),
        }
    }
}

/// What is shown of a classification.
#[derive(Debug)]
pub struct ClassMark {
    pub status: String,
    pub reason: Option<String>,
}

impl ClassEntry {
    /// What is shown of the classification.
    pub fn mark(&self) -> (r: ClassMark)
        ensures
            r.status@ == self@.status,
            opt(r.reason) == self@.reason,
    {
        ClassMark {
            status: owned(self.status.as_str()),
            reason: match &self.reason {
                Some(s) => Some(owned(s.as_str())),
                None => None,
            },
        }
    }
}

/// Whether a line of the file holds no classification.
pub fn is_blank(line: &str) -> (r: bool)
    ensures
        r == (trimmed(line@).len() == 0),
{
    trim(line).as_str().is_empty()
}

/// Classifications by mangled name. They are in the order of the names, and so are saved
/// in it.
pub struct Classifications {
    pub entries: Vec<ClassEntry>,
}

/// What some classifications, from `i` on, hold of a name.
pub open spec fn found_from(s: Seq<ClassEntryModel>, mangled: Seq<char>, i: int) -> Option<
    ClassEntryModel,
>
    decreases s.len() - i,
{
    if i < 0 || i >= s.len() {
        None
    } else if s[i].mangled == mangled {
        Some(s[i])
    } else {
        found_from(s, mangled, i + 1)
    }
}

/// What some classifications hold of a name.
pub open spec fn found(s: Seq<ClassEntryModel>, mangled: Seq<char>) -> Option<ClassEntryModel> {
    found_from(s, mangled, 0)
}

/// Whether classifications are in the order of their names, each name once.
pub open spec fn in_order(s: Seq<ClassEntryModel>) -> bool {
    forall|i: int, j: int|
        0 <= i < j < s.len() ==> text_le((#[trigger] s[i]).mangled, (#[trigger] s[j]).mangled)
            && s[i].mangled != s[j].mangled
}

impl View for Classifications {
    type V = Seq<ClassEntryModel>;

    open spec fn view(&self) -> Seq<ClassEntryModel> {
        views(self.entries@)
    }
}

proof fn lemma_found(s: Seq<ClassEntryModel>, mangled: Seq<char>, i: int)
    requires
        0 <= i,
    ensures
        match found_from(s, mangled, i) {
            Some(e) => e.mangled == mangled && exists|k: int|
                i <= k < s.len() && #[trigger] s[k] == e,
            None => forall|k: int| i <= k < s.len() ==> (#[trigger] s[k]).mangled != mangled,
        },
    decreases s.len() - i,
{
    if i < s.len() && s[i].mangled != mangled {
        lemma_found(s, mangled, i + 1);
    }
}

/// In order, what stands under a name is found under it.
proof fn lemma_found_at(s: Seq<ClassEntryModel>, k: int)
    requires
        in_order(s),
        0 <= k < s.len(),
    ensures
        found(s, s[k].mangled) == Some(s[k]),
{
    lemma_found(s, s[k].mangled, 0);
    match found(s, s[k].mangled) {
        Some(e) => {
            let j = choose|j: int| 0 <= j < s.len() && #[trigger] s[j] == e;
            if j < k {
                assert(s[j].mangled != s[k].mangled);
            } else if k < j {
                assert(s[k].mangled != s[j].mangled);
            }
        },
        None => {},
    }
}

/// Where a name is or would be: behind all lesser names.
pub open spec fn is_place(s: Seq<ClassEntryModel>, mangled: Seq<char>, p: int) -> bool {
    &&& 0 <= p <= s.len()
    &&& forall|k: int|
        0 <= k < p ==> text_le((#[trigger] s[k]).mangled, mangled) && s[k].mangled != mangled
    &&& forall|k: int| p <= k < s.len() ==> text_le(mangled, (#[trigger] s[k]).mangled)
}

impl Classifications {
    /// No classifications.
    pub fn new() -> (r: Classifications)
        ensures
            r@ == Seq::<ClassEntryModel>::empty(),
            in_order(r@),
    {
        let r: Classifications = Classifications { entries: Vec::new() };
        assert(r@ =~= Seq::<ClassEntryModel>::empty());
        r
    }

    /// What is said of a name.
    pub fn get(&self, mangled: &str) -> (r: Option<&ClassEntry>)
        ensures
            match r {
                Some(e) => found(self@, mangled@) == Some(e@),
                None => found(self@, mangled@) is None,
            },
    {
        let ghost s = self@;
        let mut i: usize = 0;
        while i < self.entries.len()
            invariant
                s == self@,
                i <= self.entries@.len(),
                found(s, mangled@) == found_from(s, mangled@, i as int),
            decreases self.entries.len() - i,
        {
            assert(s[i as int] == self.entries@[i as int]@);
            if same(self.entries[i].mangled.as_str(), mangled) {
                return Some(&self.entries[i]);
            }
            i = i + 1;
        }
        None
    }

    fn place(&self, mangled: &str) -> (r: usize)
        requires
            in_order(self@),
        ensures
            is_place(self@, mangled@, r as int),
            r <= self.entries@.len(),
    {
        let ghost s = self@;
        let n: usize = self.entries.len();
        let mut p: usize = 0;
        while p < n && !is_le(mangled, self.entries[p].mangled.as_str())
            invariant
                s == self@,
                n == self.entries@.len(),
                p <= n,
                forall|k: int|
                    0 <= k < p ==> text_le((#[trigger] s[k]).mangled, mangled@) && s[k].mangled
                        != mangled@,
            decreases n - p,
        {
            assert(s[p as int] == self.entries@[p as int]@);
            proof {
                lemma_text_le_total(s[p as int].mangled, mangled@);
            }
            p = p + 1;
        }
        proof {
            assert forall|k: int| p <= k < s.len() implies text_le(
                mangled@,
                (#[trigger] s[k]).mangled,
            ) by {
                assert(s[p as int] == self.entries@[p as int]@);
                if k > p {
                    lemma_text_le_transitive(mangled@, s[p as int].mangled, s[k].mangled);
                }
            }
        }
        p
    }

    /// Takes a classification in, in place of one of the same name.
    pub fn insert(&mut self, entry: ClassEntry)
        requires
            in_order(old(self)@),
        ensures
            in_order(final(self)@),
            found(final(self)@, entry@.mangled) == Some(entry@),
            forall|m: Seq<char>|
                m != entry@.mangled ==> #[trigger] found(final(self)@, m) == found(old(self)@, m),
    {
        let ghost s = self@;
        let ghost x = entry@;
        let p: usize = self.place(entry.mangled.as_str());
        let taken: bool = p < self.entries.len() && same(
            self.entries[p].mangled.as_str(),
            entry.mangled.as_str(),
        );
        assert(taken ==> s[p as int].mangled == x.mangled);
        assert(p < s.len() ==> s[p as int] == self.entries@[p as int]@);
        if taken {
            self.entries.set(p, entry);
            assert(self@ =~= s.update(p as int, x));
        } else {
            self.entries.insert(p, entry);
            assert(self@ =~= s.insert(p as int, x));
        }
        proof {
            lemma_insertion(s, x, p as int, self@);
        }
    }

    /// Takes out the classification of a name, where there is one.
    pub fn remove(&mut self, mangled: &str)
        requires
            in_order(old(self)@),
        ensures
            in_order(final(self)@),
            found(final(self)@, mangled@) is None,
            forall|m: Seq<char>|
                m != mangled@ ==> #[trigger] found(final(self)@, m) == found(old(self)@, m),
    {
        let ghost s = self@;
        let p: usize = self.place(mangled);
        assert(p < s.len() ==> s[p as int] == self.entries@[p as int]@);
        if p < self.entries.len() && same(self.entries[p].mangled.as_str(), mangled) {
            let ghost before = self.entries@;
            let _ = self.entries.remove(p);
            assert(self@ =~= s.remove(p as int));
            proof {
                lemma_removal(s, p as int, self@);
            }
        } else {
            proof {
                lemma_found(s, mangled@, 0);
                if found(s, mangled@) is Some {
                    let k = choose|k: int|
                        0 <= k < s.len() && #[trigger] s[k] == found(s, mangled@)->0;
                    if k > p {
                        assert(text_le(s[p as int].mangled, s[k].mangled));
                        assert(text_le(mangled@, s[p as int].mangled));
                        lemma_text_le_antisymmetric(s[p as int].mangled, mangled@);
                    }
                }
            }
        }
    }

    /// Classifies a function: the status and the reason, by whom and when.
    pub fn upsert_at(
        &mut self,
        mangled: &str,
        status: &str,
        reason: Option<&str>,
        now: &str,
        reviewer: &str,
    )
        requires
            in_order(old(self)@),
        ensures
            in_order(final(self)@),
            found(final(self)@, mangled@) == Some(
                classified(
                    mangled@,
                    status@,
                    given(reason),
                    now@,
                    reviewer@,
                ),
            ),
            forall|m: Seq<char>|
                m != mangled@ ==> #[trigger] found(final(self)@, m) == found(old(self)@, m),
    {
        let why: Option<String> = match reason {
            Some(s) => Some(owned(s)),
            None => None,
        };
        self.insert(
            ClassEntry {
                mangled: owned(mangled),
                status: owned(status),
                reason: why,
                reviewed_at: Some(owned(now)),
                reviewed_by: Some(owned(reviewer)),
            },
        );
    }

    /// Classifies a function now.
    pub fn upsert(&mut self, mangled: &str, status: &str, reason: Option<&str>, reviewer: &str)
        requires
            in_order(old(self)@),
        ensures
            in_order(final(self)@),
            exists|now: Seq<char>|
                found(final(self)@, mangled@) == Some(
                    #[trigger] classified(
                        mangled@,
                        status@,
                        given(reason),
                        now,
                        reviewer@,
                    ),
                ),
            forall|m: Seq<char>|
                m != mangled@ ==> #[trigger] found(final(self)@, m) == found(old(self)@, m),
    {
        let now: String = now_utc();
        self.upsert_at(mangled, status, reason, now.as_str(), reviewer);
    }
}

/// `chrono::Utc::now` in the form of `to_rfc3339`. Nothing is claimed of it: it is the
/// time of the call.
#[verifier::external_body]
fn now_utc() -> (r: String) {
    chrono::Utc::now().to_rfc3339()
}

/// A text that may be missing, as a model.
pub open spec fn given(s: Option<&str>) -> Option<Seq<char>> {
    match s {
        Some(s) => Some(s@),
        None => None,
    }
}

/// A classification by someone at some time.
pub open spec fn classified(
    mangled: Seq<char>,
    status: Seq<char>,
    reason: Option<Seq<char>>,
    now: Seq<char>,
    reviewer: Seq<char>,
) -> ClassEntryModel {
    ClassEntryModel {
        mangled,
        status,
        reason,
        reviewed_at: Some(now),
        reviewed_by: Some(reviewer),
    }
}

proof fn lemma_insertion(
    s: Seq<ClassEntryModel>,
    x: ClassEntryModel,
    p: int,
    t: Seq<ClassEntryModel>,
)
    requires
        in_order(s),
        is_place(s, x.mangled, p),
        t == if p < s.len() && s[p].mangled == x.mangled {
            s.update(p, x)
        } else {
            s.insert(p, x)
        },
    ensures
        in_order(t),
        found(t, x.mangled) == Some(x),
        forall|m: Seq<char>| m != x.mangled ==> #[trigger] found(t, m) == found(s, m),
{
    let taken = p < s.len() && s[p].mangled == x.mangled;
    if !taken {
        // No later name is the new one either.
        assert forall|k: int| p <= k < s.len() implies (#[trigger] s[k]).mangled != x.mangled by {
            if k > p && s[k].mangled == x.mangled {
                assert(text_le(s[p].mangled, s[k].mangled));
                assert(text_le(x.mangled, s[p].mangled));
                lemma_text_le_antisymmetric(s[p].mangled, x.mangled);
            }
        }
    }
    // Where the elements of the one stand in the other.
    assert forall|i: int| 0 <= i < t.len() && i != p implies #[trigger] t[i] == s[if taken || i < p {
        i
    } else {
        i - 1
    }] by {}
    assert(t[p] == x);
    assert forall|i: int, j: int| 0 <= i < j < t.len() implies text_le(
        (#[trigger] t[i]).mangled,
        (#[trigger] t[j]).mangled,
    ) && t[i].mangled != t[j].mangled by {
        let a = if taken || i < p {
            i
        } else {
            i - 1
        };
        let b = if taken || j < p {
            j
        } else {
            j - 1
        };
        if i != p && j != p {
            assert(t[i] == s[a] && t[j] == s[b]);
            assert(a < b);
        } else if i == p {
            assert(t[j] == s[b]);
            if taken {
                assert(text_le(s[p].mangled, s[j].mangled) && s[p].mangled != s[j].mangled);
            }
        } else {
            assert(t[i] == s[a]);
        }
    }
    lemma_found_at(t, p);
    assert forall|m: Seq<char>| m != x.mangled implies #[trigger] found(t, m) == found(s, m) by {
        lemma_found(t, m, 0);
        lemma_found(s, m, 0);
        match found(t, m) {
            Some(e) => {
                let i = choose|i: int| 0 <= i < t.len() && #[trigger] t[i] == e;
                let a = if taken || i < p {
                    i
                } else {
                    i - 1
                };
                assert(i != p);
                assert(s[a] == e);
                lemma_found_at(s, a);
            },
            None => {
                if found(s, m) is Some {
                    let a = choose|a: int| 0 <= a < s.len() && #[trigger] s[a] == found(s, m)->0;
                    let i = if taken || a < p {
                        a
                    } else {
                        a + 1
                    };
                    assert(t[i] == s[a]);
                }
            },
        }
    }
}

proof fn lemma_removal(s: Seq<ClassEntryModel>, p: int, t: Seq<ClassEntryModel>)
    requires
        in_order(s),
        0 <= p < s.len(),
        t == s.remove(p),
    ensures
        in_order(t),
        found(t, s[p].mangled) is None,
        forall|m: Seq<char>| m != s[p].mangled ==> #[trigger] found(t, m) == found(s, m),
{
    assert forall|i: int| 0 <= i < t.len() implies #[trigger] t[i] == s[if i < p {
        i
    } else {
        i + 1
    }] by {}
    assert forall|i: int, j: int| 0 <= i < j < t.len() implies text_le(
        (#[trigger] t[i]).mangled,
        (#[trigger] t[j]).mangled,
    ) && t[i].mangled != t[j].mangled by {
        let a = if i < p {
            i
        } else {
            i + 1
        };
        let b = if j < p {
            j
        } else {
            j + 1
        };
        assert(t[i] == s[a] && t[j] == s[b]);
    }
    lemma_found(t, s[p].mangled, 0);
    if found(t, s[p].mangled) is Some {
        let i = choose|i: int| 0 <= i < t.len() && #[trigger] t[i] == found(t, s[p].mangled)->0;
        let a = if i < p {
            i
        } else {
            i + 1
        };
        assert(t[i] == s[a]);
        if a < p {
            assert(s[a].mangled != s[p].mangled);
        } else {
            assert(s[p].mangled != s[a].mangled);
        }
    }
    assert forall|m: Seq<char>| m != s[p].mangled implies #[trigger] found(t, m) == found(s, m) by {
        lemma_found(t, m, 0);
        lemma_found(s, m, 0);
        match found(t, m) {
            Some(e) => {
                let i = choose|i: int| 0 <= i < t.len() && #[trigger] t[i] == e;
                let a = if i < p {
                    i
                } else {
                    i + 1
                };
                assert(s[a] == e);
                lemma_found_at(s, a);
            },
            None => {
                if found(s, m) is Some {
                    let a = choose|a: int| 0 <= a < s.len() && #[trigger] s[a] == found(s, m)->0;
                    let i = if a < p {
                        a
                    } else {
                        a - 1
                    };
                    assert(t[i] == s[a]);
                }
            },
        }
    }
}

/// Classifications that say the same of every name are the same: the file does not depend
/// on the order in which they were made.
pub proof fn lemma_same_classifications(s: Seq<ClassEntryModel>, t: Seq<ClassEntryModel>)
    requires
        in_order(s),
        in_order(t),
        forall|m: Seq<char>| #[trigger] found(s, m) == found(t, m),
    ensures
        s == t,
    decreases s.len(),
{
    if s.len() == 0 {
        if t.len() > 0 {
            lemma_found_at(t, 0);
            lemma_found(s, t[0].mangled, 0);
            assert(found(s, t[0].mangled) == found(t, t[0].mangled));
        }
        assert(s =~= t);
    } else {
        lemma_found_at(s, 0);
        assert(found(s, s[0].mangled) == found(t, s[0].mangled));
        lemma_found(t, s[0].mangled, 0);
        let k = choose|k: int| 0 <= k < t.len() && #[trigger] t[k] == s[0];
        // The least name of the one is the least of the other.
        lemma_found_at(t, 0);
        assert(found(s, t[0].mangled) == found(t, t[0].mangled));
        lemma_found(s, t[0].mangled, 0);
        let j = choose|j: int| 0 <= j < s.len() && #[trigger] s[j] == t[0];
        if k > 0 && j > 0 {
            assert(text_le(t[0].mangled, t[k].mangled));
            assert(text_le(s[0].mangled, s[j].mangled));
            lemma_text_le_antisymmetric(s[0].mangled, t[0].mangled);
        }
        assert(s[0] == t[0]);
        let a = s.remove(0);
        let b = t.remove(0);
        lemma_removal(s, 0, a);
        lemma_removal(t, 0, b);
        assert forall|m: Seq<char>| #[trigger] found(a, m) == found(b, m) by {
            if m != s[0].mangled {
                assert(found(a, m) == found(s, m));
                assert(found(b, m) == found(t, m));
            }
        }
        lemma_same_classifications(a, b);
        assert(s =~= seq![s[0]] + a);
        assert(t =~= seq![t[0]] + b);
    }
}

} // verus!
