//! The type of a function: its name, what it returns and what it takes.

use crate::text::texts;
use crate::type_builder::can_name_templates;
use crate::type_builder::can_typedef_template;
use vstd::prelude::*;

verus! {

/// What is known of a function besides its types.
#[derive(Clone, Copy, PartialEq, Eq, Debug, Structural)]
pub struct Attributes {
    pub is_const: bool,
    pub is_static: bool,
    pub is_inline: bool,
    pub is_virtual: bool,
    pub is_override: bool,
    pub is_pure: bool,
    pub is_final: bool,
}

impl Attributes {
    /// Nothing known.
    pub fn none() -> (r: Attributes)
        ensures
            r == Attributes::nothing(),
    {
        Attributes {
            is_const: false,
            is_static: false,
            is_inline: false,
            is_virtual: false,
            is_override: false,
            is_pure: false,
            is_final: false,
        }
    }

    /// Nothing known.
    pub open spec fn nothing() -> Attributes {
        Attributes {
            is_const: false,
            is_static: false,
            is_inline: false,
            is_virtual: false,
            is_override: false,
            is_pure: false,
            is_final: false,
        }
    }
}

/// What a function returns.
#[derive(Debug)]
pub enum ReturnType {
    Constructor,
    Destructor,
    Type(String),
}

/// What a function returns, as a model.
pub enum ReturnModel {
    Constructor,
    Destructor,
    Type(Seq<char>),
}

impl View for ReturnType {
    type V = ReturnModel;

    open spec fn view(&self) -> ReturnModel {
        match *self {
            ReturnType::Constructor => ReturnModel::Constructor,
            ReturnType::Destructor => ReturnModel::Destructor,
            ReturnType::Type(s) => ReturnModel::Type(s@),
        }
    }
}

impl ReturnType {
    /// The same once more.
    pub fn copy(&self) -> (r: ReturnType)
        ensures
            r@ == self@,
    {
        match self {
            ReturnType::Constructor => ReturnType::Constructor,
            ReturnType::Destructor => ReturnType::Destructor,
            ReturnType::Type(s) => ReturnType::Type(s.clone()),
        }
    }
}

/// The type of a function.
#[derive(Debug)]
pub struct FunctionType {
    pub name: String,
    pub return_type: ReturnType,
    pub arg_types: Vec<String>,
    pub attrs: Attributes,
}

/// The type of a function, as a model.
pub struct FunctionTypeModel {
    pub name: Seq<char>,
    pub return_type: ReturnModel,
    pub arg_types: Seq<Seq<char>>,
    pub attrs: Attributes,
}

impl View for FunctionType {
    type V = FunctionTypeModel;

    open spec fn view(&self) -> FunctionTypeModel {
        FunctionTypeModel {
            name: self.name@,
            return_type: self.return_type@,
            arg_types: texts(self.arg_types@),
            attrs: self.attrs,
        }
    }
}

impl FunctionTypeModel {
    /// The type of no function in particular.
    pub open spec fn empty() -> FunctionTypeModel {
        FunctionTypeModel {
            name: ""@,
            return_type: ReturnModel::Constructor,
            arg_types: Seq::empty(),
            attrs: Attributes::nothing(),
        }
    }

    /// Whether the names of the types that it takes and returns can be written.
    pub open spec fn can_be_written(self) -> bool {
        &&& forall|i: int|
            0 <= i < self.arg_types.len() ==> can_name_templates(#[trigger] self.arg_types[i])
        &&& self.return_type matches ReturnModel::Type(t) ==> can_name_templates(t)
    }
}

/// The same strings once more.
pub fn copy_texts(v: &Vec<String>) -> (r: Vec<String>)
    ensures
        texts(r@) == texts(v@),
{
    let mut r: Vec<String> = Vec::new();
    let mut i: usize = 0;
    while i < v.len()
        invariant
            i <= v@.len(),
            r@.len() == i,
            forall|k: int| 0 <= k < i ==> (#[trigger] r@[k])@ == v@[k]@,
        decreases v.len() - i,
    {
        r.push(v[i].clone());
        i = i + 1;
    }
    assert(texts(r@) =~= texts(v@));
    r
}

impl FunctionType {
    /// The same once more.
    pub fn copy(&self) -> (r: FunctionType)
        ensures
            r@ == self@,
    {
        FunctionType {
            name: self.name.clone(),
            return_type: self.return_type.copy(),
            arg_types: copy_texts(&self.arg_types),
            attrs: self.attrs,
        }
    }

    /// Whether the names of the types that it takes and returns can be written.
    pub fn is_writable(&self) -> (r: bool)
        ensures
            r == self@.can_be_written(),
    {
        let mut i: usize = 0;
        while i < self.arg_types.len()
            invariant
                i <= self.arg_types@.len(),
                forall|k: int| 0 <= k < i ==> can_name_templates(#[trigger] self@.arg_types[k]),
            decreases self.arg_types.len() - i,
        {
            if !can_typedef_template(self.arg_types[i].as_str()) {
                assert(!can_name_templates(self@.arg_types[i as int]));
                return false;
            }
            i = i + 1;
        }
        match &self.return_type {
            ReturnType::Type(t) => can_typedef_template(t.as_str()),
            _ => true,
        }
    }
}

} // verus!
