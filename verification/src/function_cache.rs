//! The signatures of the functions that source files define, found again when
//! headers are written.

use crate::function_type::{FunctionType, FunctionTypeModel};
use crate::lcs::views;
use crate::search::{starts_with, strip_front};
use crate::source_function::{Function, FunctionModel};
use crate::text::owned;
use crate::type_builder::Type;
use vstd::prelude::*;

verus! {

/// A function's type with the names of its arguments.
pub struct FunctionSignature {
    pub fn_t: FunctionType,
    pub margs: Vec<(String, Type)>,
}

/// A function's type with the names of its arguments, as a model.
pub struct SignatureModel {
    pub fn_t: FunctionTypeModel,
    pub margs: Seq<(Seq<char>, Seq<char>)>,
}

impl View for FunctionSignature {
    type V = SignatureModel;

    open spec fn view(&self) -> SignatureModel {
        SignatureModel { fn_t: self.fn_t@, margs: views(self.margs@) }
    }
}

/// The same names and types once more.
pub fn copy_margs(v: &Vec<(String, Type)>) -> (r: Vec<(String, Type)>)
    ensures
        views(r@) == views(v@),
{
    let mut r: Vec<(String, Type)> = Vec::new();
    let mut i: usize = 0;
    while i < v.len()
        invariant
            i <= v@.len(),
            r@.len() == i,
            forall|k: int| 0 <= k < i ==> (#[trigger] r@[k])@ == v@[k]@,
        decreases v.len() - i,
    {
        r.push((v[i].0.clone(), v[i].1.copy()));
        i = i + 1;
    }
    assert(views(r@) =~= views(v@));
    r
}

impl FunctionSignature {
    /// The same once more.
    pub fn copy(&self) -> (r: FunctionSignature)
        ensures
            r@ == self@,
    {
        FunctionSignature { fn_t: self.fn_t.copy(), margs: copy_margs(&self.margs) }
    }
}

/// Signatures by the full names of their functions. Of two entries on one name
/// the later counts.
pub struct FunctionCache {
    pub entries: Vec<(String, FunctionSignature)>,
}

/// The signatures of the first `n` entries, by name.
pub open spec fn signatures_in(entries: Seq<(String, FunctionSignature)>, n: int) -> Map<
    Seq<char>,
    SignatureModel,
>
    decreases n,
{
    if n <= 0 {
        Map::empty()
    } else {
        signatures_in(entries, n - 1).insert(entries[n - 1].0@, entries[n - 1].1@)
    }
}

impl View for FunctionCache {
    type V = Map<Seq<char>, SignatureModel>;

    open spec fn view(&self) -> Map<Seq<char>, SignatureModel> {
        signatures_in(self.entries@, self.entries@.len() as int)
    }
}

/// The signature of a function that was recorded.
pub open spec fn signature_of(f: FunctionModel) -> SignatureModel {
    SignatureModel { fn_t: f.fn_t, margs: f.margs }
}

/// A signature with the class taken off its name.
pub open spec fn within_class(s: SignatureModel, class_name: Seq<char>) -> SignatureModel {
    SignatureModel {
        fn_t: FunctionTypeModel {
            name: s.fn_t.name.skip(class_name.len() as int).skip("::"@.len() as int),
            ..s.fn_t
        },
        ..s
    }
}

/// Whether a name is that of a member of the class.
pub open spec fn is_member(name: Seq<char>, class_name: Seq<char>) -> bool {
    starts_with(name, class_name) && starts_with(name.skip(class_name.len() as int), "::"@)
}

proof fn lemma_signatures_of_prefix(
    a: Seq<(String, FunctionSignature)>,
    b: Seq<(String, FunctionSignature)>,
    n: int,
)
    requires
        0 <= n <= a.len() <= b.len(),
        forall|k: int| 0 <= k < a.len() ==> #[trigger] a[k] == b[k],
    ensures
        signatures_in(b, n) == signatures_in(a, n),
    decreases n,
{
    if n > 0 {
        lemma_signatures_of_prefix(a, b, n - 1);
        assert(a[n - 1] == b[n - 1]);
    }
}

impl FunctionCache {
    /// No signatures.
    pub fn new() -> (r: FunctionCache)
        ensures
            r@ == Map::<Seq<char>, SignatureModel>::empty(),
    {
        FunctionCache { entries: Vec::new() }
    }

    /// Records the signature of a function under its full name.
    pub fn insert_from_source(&mut self, fun: &Function)
        ensures
            final(self)@ == old(self)@.insert(fun@.name_orig, signature_of(fun@)),
    {
        let s: FunctionSignature = FunctionSignature {
            fn_t: fun.fn_t.copy(),
            margs: copy_margs(&fun.margs),
        };
        let ghost before = self.entries@;
        self.entries.push((fun.name_orig.clone(), s));
        proof {
            lemma_signatures_of_prefix(before, self.entries@, before.len() as int);
        }
    }

    /// The signature recorded under a full name.
    pub fn get(&self, name: &str) -> (r: Option<&FunctionSignature>)
        ensures
            match r {
                Some(s) => self@.contains_key(name@) && s@ == self@[name@],
                None => !self@.contains_key(name@),
            },
    {
        let mut n: usize = self.entries.len();
        while n > 0
            invariant
                n <= self.entries@.len(),
                self@.contains_key(name@) == signatures_in(self.entries@, n as int).contains_key(
                    name@,
                ),
                self@.contains_key(name@) ==> self@[name@] == signatures_in(
                    self.entries@,
                    n as int,
                )[name@],
            decreases n,
        {
            if crate::text::same(self.entries[n - 1].0.as_str(), name) {
                return Some(&self.entries[n - 1].1);
            }
            n = n - 1;
        }
        None
    }

    /// The signature of a member of a class, recorded under its full name, with
    /// the class taken off.
    pub fn get_from_header(&self, class_name: &str, full_name: &str) -> (r: Option<
        FunctionSignature,
    >)
        requires
            self@.contains_key(full_name@) ==> is_member(self@[full_name@].fn_t.name, class_name@),
        ensures
            match r {
                Some(s) => self@.contains_key(full_name@) && s@ == within_class(
                    self@[full_name@],
                    class_name@,
                ),
                None => !self@.contains_key(full_name@),
            },
    {
        match self.get(full_name) {
            Some(found) => {
                let mut s: FunctionSignature = found.copy();
                let rest: String = match strip_front(found.fn_t.name.as_str(), class_name) {
                    Some(r) => r,
                    None => owned(""),
                };
                let name: String = match strip_front(rest.as_str(), "::") {
                    Some(r) => r,
                    None => owned(""),
                };
                s.fn_t.name = name;
                Some(s)
            },
            None => None,
        }
    }

    /// Whether the member of a class that is recorded under a full name, if any,
    /// is one of that class.
    pub fn can_get_from_header(&self, class_name: &str, full_name: &str) -> (r: bool)
        ensures
            r == (self@.contains_key(full_name@) ==> is_member(
                self@[full_name@].fn_t.name,
                class_name@,
            )),
    {
        match self.get(full_name) {
            Some(found) => match strip_front(found.fn_t.name.as_str(), class_name) {
                Some(r) => crate::search::begins(r.as_str(), "::"),
                None => false,
            },
            None => true,
        }
    }
}

} // verus!
