//! The type records of a database, by their index.

use crate::field_attributes::MyFieldAttributes;
use crate::primitive::{is_primitive, names_primitive};
use vstd::prelude::*;

verus! {

/// One overload of a method.
pub struct MethodItem {
    pub method_type: u32,
    pub attributes: MyFieldAttributes,
    pub vtable_offset: Option<u32>,
    /// The signature that the type formatter makes of the method.
    pub signature: Option<String>,
}

/// What a list of fields holds. `ty` is what the type formatter makes of a type.
pub enum FieldData {
    Member { name: String, ty: Option<String>, attributes: MyFieldAttributes, offset: u64 },
    StaticMember { name: String, ty: Option<String>, attributes: MyFieldAttributes },
    Nested { name: String, ty: Option<String>, attributes: MyFieldAttributes, index: u32 },
    BaseClass { ty: Option<String>, attributes: MyFieldAttributes, base_offset: u32, kind: String },
    VirtualBaseClass {
        ty: Option<String>,
        attributes: MyFieldAttributes,
        base_pointer_offset: u32,
        direct: bool,
        pointer: Option<String>,
        virtual_base_offset: u32,
    },
    VirtualFunctionTablePointer { ty: Option<String> },
    Method { name: String, item: MethodItem },
    OverloadedMethod { name: String, method_list: u32 },
    Enumerate { name: String, value: String },
    Other,
}

/// A field, and how it is shown for debugging.
pub struct Field {
    pub data: FieldData,
    pub debug: String,
}

/// What a function's type says of the function.
#[derive(Clone, Copy, PartialEq, Eq, Debug, Structural)]
pub struct FunctionRecord {
    pub parameter_count: u16,
    pub calling_convention: u8,
    pub cxx_return_udt: bool,
    pub constructor: bool,
    pub constructor_virtual_bases: bool,
    /// Only of a member function.
    pub this_adjustment: Option<u32>,
}

/// How a class was declared.
#[derive(Clone, Copy, PartialEq, Eq, Debug, Structural)]
pub enum ClassKind {
    Class,
    Struct,
    Interface,
}

/// A class.
pub struct ClassRecord {
    pub name: String,
    pub kind: ClassKind,
    pub size: u64,
    pub properties: String,
    pub forward_reference: bool,
    pub fields: Option<u32>,
}

/// A type record.
pub enum TypeRecord {
    FieldList { fields: Vec<Field>, continuation: Option<u32> },
    MethodList { methods: Vec<MethodItem> },
    Enumeration { list: u32 },
    Function(FunctionRecord),
    Class(ClassRecord),
    Other,
    Unparsed,
}

/// The type records of a database. The record at `i` has the index `first + i`.
pub struct TypeTable {
    pub first: u32,
    pub records: Vec<TypeRecord>,
}

/// What is wrong with a type that is referred to.
#[derive(Clone, Copy, PartialEq, Eq, Debug, Structural)]
pub enum TypeError {
    /// There is no such type.
    Missing { index: u32 },
    /// The record cannot be read.
    Unparsed { index: u32 },
}

/// How a chain of field lists ends.
#[derive(Clone, Copy, PartialEq, Eq, Debug, Structural)]
pub enum ChainEnd {
    /// There is no further list, or one that was there before.
    Done,
    /// The next list does not exist.
    Missing { index: u32 },
    /// The next list cannot be read.
    Unparsed { index: u32 },
    /// What comes next is no list.
    NotAList,
}

impl TypeTable {
    /// The record with an index. An index below the first is that of a primitive type, or
    /// cannot be read.
    pub open spec fn record_at(self, index: u32) -> Option<TypeRecord> {
        if index < self.first {
            if is_primitive(index) {
                Some(TypeRecord::Other)
            } else {
                Some(TypeRecord::Unparsed)
            }
        } else if index < self.first + self.records@.len() {
            Some(self.records@[index - self.first])
        } else {
            None
        }
    }

    /// The record with an index.
    pub fn find(&self, index: u32) -> (r: Option<&TypeRecord>)
        ensures
            match r {
                Some(x) => self.record_at(index) == Some(*x),
                None => self.record_at(index) is None,
            },
    {
        if index < self.first {
            if names_primitive(index) {
                Some(&TypeRecord::Other)
            } else {
                Some(&TypeRecord::Unparsed)
            }
        } else if ((index - self.first) as u64) < self.records.len() as u64 {
            Some(&self.records[(index - self.first) as usize])
        } else {
            None
        }
    }

    /// The fields of a list.
    pub open spec fn fields_at(self, index: u32) -> Seq<Field> {
        match self.record_at(index) {
            Some(TypeRecord::FieldList { fields, .. }) => fields@,
            _ => Seq::empty(),
        }
    }

    /// The field lists from `next` on, behind those that were `seen`, and how they
    /// end. There are never more lists than records.
    pub open spec fn chain_from(self, next: Option<u32>, seen: Seq<u32>) -> (Seq<u32>, ChainEnd)
        decreases self.records@.len() - seen.len(),
    {
        match next {
            None => (seen, ChainEnd::Done),
            Some(i) => if seen.contains(i) {
                (seen, ChainEnd::Done)
            } else {
                match self.record_at(i) {
                    None => (seen, ChainEnd::Missing { index: i }),
                    Some(TypeRecord::Unparsed) => (seen, ChainEnd::Unparsed { index: i }),
                    Some(TypeRecord::FieldList { continuation, .. }) => if seen.len()
                        < self.records@.len() {
                        self.chain_from(continuation, seen.push(i))
                    } else {
                        (seen, ChainEnd::Done)
                    },
                    Some(_) => (seen, ChainEnd::NotAList),
                }
            },
        }
    }

    /// The field lists that begin with `first`, and how they end.
    pub open spec fn chain_of(self, first: u32) -> (Seq<u32>, ChainEnd) {
        self.chain_from(Some(first), Seq::empty())
    }

    /// The field lists that begin with `first`, in order, and how they end.
    pub fn chain(&self, first: u32) -> (r: (Vec<u32>, ChainEnd))
        ensures
            (r.0@, r.1) == self.chain_of(first),
    {
        let mut seen: Vec<u32> = Vec::new();
        let mut next: Option<u32> = Some(first);
        assert(seen@ =~= Seq::<u32>::empty());
        loop
            invariant
                self.chain_of(first) == self.chain_from(next, seen@),
                seen@.no_duplicates(),
                forall|k: int|
                    0 <= k < seen@.len() ==> self.first <= #[trigger] seen@[k] < self.first
                        + self.records@.len(),
            decreases self.records@.len() - seen@.len(),
        {
            let i: u32 = match next {
                Some(i) => i,
                None => {
                    return (seen, ChainEnd::Done);
                },
            };
            if has_index(&seen, i) {
                return (seen, ChainEnd::Done);
            }
            match self.find(i) {
                None => {
                    return (seen, ChainEnd::Missing { index: i });
                },
                Some(TypeRecord::Unparsed) => {
                    return (seen, ChainEnd::Unparsed { index: i });
                },
                Some(TypeRecord::FieldList { continuation, .. }) => {
                    let ghost before = seen@;
                    next = *continuation;
                    seen.push(i);
                    proof {
                        assert(!before.contains(i));
                        assert(seen@.no_duplicates());
                        lemma_bounded_indices(
                            seen@,
                            self.first as int,
                            self.first + self.records@.len(),
                        );
                    }
                },
                Some(_) => {
                    return (seen, ChainEnd::NotAList);
                },
            }
        }
    }
}

fn has_index(v: &Vec<u32>, x: u32) -> (r: bool)
    ensures
        r == v@.contains(x),
{
    let mut i: usize = 0;
    while i < v.len()
        invariant
            i <= v@.len(),
            forall|k: int| 0 <= k < i ==> v@[k] != x,
        decreases v.len() - i,
    {
        if v[i] == x {
            return true;
        }
        i = i + 1;
    }
    false
}

/// There are no more different indices than the range that they lie in has.
pub proof fn lemma_bounded_indices(s: Seq<u32>, lo: int, hi: int)
    requires
        lo <= hi,
        s.no_duplicates(),
        forall|k: int| 0 <= k < s.len() ==> lo <= #[trigger] s[k] < hi,
    ensures
        s.len() <= hi - lo,
    decreases hi - lo,
{
    if lo == hi {
        if s.len() > 0 {
            assert(lo <= s[0] < hi);
        }
    } else {
        let top = hi - 1;
        if exists|k: int| 0 <= k < s.len() && s[k] == top {
            let k = choose|k: int| 0 <= k < s.len() && s[k] == top;
            let r = s.remove(k);
            assert forall|i: int| 0 <= i < r.len() implies lo <= #[trigger] r[i] < top by {
                let j = if i < k {
                    i
                } else {
                    i + 1
                };
                assert(r[i] == s[j]);
                assert(s[j] != s[k]);
            }
            assert forall|i: int, j: int| 0 <= i < r.len() && 0 <= j < r.len() && i != j implies r[i]
                != r[j] by {
                let a = if i < k {
                    i
                } else {
                    i + 1
                };
                let b = if j < k {
                    j
                } else {
                    j + 1
                };
                assert(r[i] == s[a] && r[j] == s[b]);
            }
            lemma_bounded_indices(r, lo, top);
        } else {
            assert forall|i: int| 0 <= i < s.len() implies lo <= #[trigger] s[i] < top by {
                assert(s[i] != top);
            }
            lemma_bounded_indices(s, lo, top);
        }
    }
}

/// No field list is visited twice, and every one that is visited exists.
pub proof fn lemma_chain_visits_once(t: TypeTable, next: Option<u32>, seen: Seq<u32>)
    requires
        seen.no_duplicates(),
        forall|k: int|
            0 <= k < seen.len() ==> (t.record_at(#[trigger] seen[k]) matches Some(
                TypeRecord::FieldList { .. },
            )),
    ensures
        t.chain_from(next, seen).0.no_duplicates(),
        forall|k: int|
            0 <= k < t.chain_from(next, seen).0.len() ==> (t.record_at(
                #[trigger] t.chain_from(next, seen).0[k],
            ) matches Some(TypeRecord::FieldList { .. })),
    decreases t.records@.len() - seen.len(),
{
    if let Some(i) = next {
        if !seen.contains(i) && seen.len() < t.records@.len() {
            if let Some(TypeRecord::FieldList { continuation, .. }) = t.record_at(i) {
                lemma_chain_visits_once(t, continuation, seen.push(i));
            }
        }
    }
}

} // verus!
