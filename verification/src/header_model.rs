//! What headers are made from, and what they hold.

use crate::field_attributes::MyFieldAttributes;
use crate::function_type::{FunctionType, FunctionTypeModel};
use crate::lcs::views;
use crate::primitive::{is_primitive, names_primitive};
use crate::type_builder::{Namespace, NamespaceModel, Type};
use crate::type_table::ClassKind;
use vstd::prelude::*;

verus! {

// ---------------------------------------------------------------------------
// Records
// ---------------------------------------------------------------------------

/// A type that is used: its index, and its name as the type formatter makes it.
pub struct TypeUse {
    pub index: u32,
    pub text: Option<String>,
}

/// A method of a class: the full name that its source is recorded under, and its
/// type, as the type formatter makes them.
pub struct ResolvedMethod {
    pub name: String,
    pub method_type: u32,
    pub full_name: Option<String>,
    pub parsed: Option<FunctionType>,
}

/// One of several methods of a name.
pub struct OverloadItem {
    pub attributes: MyFieldAttributes,
    pub method_type: u32,
}

/// The value of an enumerator, in the width that it was recorded with.
#[derive(Clone, Copy, PartialEq, Eq, Debug, Structural)]
pub enum Variant {
    U8(u8),
    U16(u16),
    U32(u32),
    U64(u64),
    I8(i8),
    I16(i16),
    I32(i32),
    I64(i64),
}

impl View for Variant {
    type V = Variant;

    open spec fn view(&self) -> Variant {
        *self
    }
}

impl Variant {
    /// The value as a number with a sign; the upper half of the unsigned 64-bit
    /// numbers is negative.
    pub open spec fn number(self) -> int {
        match self {
            Variant::U8(v) => v as int,
            Variant::U16(v) => v as int,
            Variant::U32(v) => v as int,
            Variant::U64(v) => if v < 0x8000_0000_0000_0000 {
                v as int
            } else {
                v - 0x1_0000_0000_0000_0000
            },
            Variant::I8(v) => v as int,
            Variant::I16(v) => v as int,
            Variant::I32(v) => v as int,
            Variant::I64(v) => v as int,
        }
    }

    /// The size of the value. The least number of each width has no positive
    /// counterpart there and counts as the large number of the same bits.
    pub open spec fn magnitude(self) -> int {
        let n = match self {
            Variant::U64(v) => v as int,
            Variant::I8(v) => if v == i8::MIN {
                0x1_0000_0000_0000_0000 - 0x80
            } else {
                self.number()
            },
            Variant::I16(v) => if v == i16::MIN {
                0x1_0000_0000_0000_0000 - 0x8000
            } else {
                self.number()
            },
            Variant::I32(v) => if v == i32::MIN {
                0x1_0000_0000_0000_0000 - 0x8000_0000
            } else {
                self.number()
            },
            _ => self.number(),
        };
        if n < 0 {
            -n
        } else {
            n
        }
    }

    /// Whether the value is negative, and its size.
    pub fn parts(&self) -> (r: (bool, u64))
        ensures
            r.0 == (self.number() < 0),
            r.1 == if self.number() < 0 {
                -self.number()
            } else {
                self.number()
            },
    {
        match self {
            Variant::U8(v) => (false, *v as u64),
            Variant::U16(v) => (false, *v as u64),
            Variant::U32(v) => (false, *v as u64),
            Variant::U64(v) => if *v < 0x8000_0000_0000_0000 {
                (false, *v)
            } else {
                (true, (0x1_0000_0000_0000_0000 - *v as i128) as u64)
            },
            Variant::I8(v) => signed_parts(*v as i64),
            Variant::I16(v) => signed_parts(*v as i64),
            Variant::I32(v) => signed_parts(*v as i64),
            Variant::I64(v) => signed_parts(*v),
        }
    }

    /// The size of the value.
    pub fn size(&self) -> (r: u64)
        ensures
            r == self.magnitude(),
    {
        match self {
            Variant::U64(v) => *v,
            Variant::I8(v) => if *v == i8::MIN {
                0xffff_ffff_ffff_ff80
            } else {
                self.parts().1
            },
            Variant::I16(v) => if *v == i16::MIN {
                0xffff_ffff_ffff_8000
            } else {
                self.parts().1
            },
            Variant::I32(v) => if *v == i32::MIN {
                0xffff_ffff_8000_0000
            } else {
                self.parts().1
            },
            _ => self.parts().1,
        }
    }
}

fn signed_parts(v: i64) -> (r: (bool, u64))
    ensures
        r.0 == (v < 0),
        r.1 == if v < 0 {
            -(v as int)
        } else {
            v as int
        },
{
    if v < 0 {
        (true, (-(v as i128)) as u64)
    } else {
        (false, v as u64)
    }
}

/// A field of a class or of an enumeration.
pub enum HeaderField {
    Member { ty: TypeUse, name: String, offset: u64 },
    Method { name: String, attributes: MyFieldAttributes, method_type: u32 },
    OverloadedMethod { name: String, method_list: u32 },
    BaseClass { ty: TypeUse, base_offset: u32 },
    Enumerate { name: String, value: Variant },
    Other,
}

/// A class.
pub struct HeaderClass {
    pub name: String,
    pub kind: ClassKind,
    pub size: u64,
    pub forward_reference: bool,
    pub fields: Option<u32>,
    pub methods: Vec<ResolvedMethod>,
}

/// A type record.
pub enum HeaderRecord {
    Class(HeaderClass),
    Enumeration { name: String, underlying: TypeUse, list: u32 },
    Union,
    Indirect { to: u32 },
    FieldList { fields: Vec<HeaderField>, continuation: Option<u32> },
    MethodList { methods: Vec<OverloadItem> },
    MemberFunction,
    Other,
    Unparsed,
}

/// What stands at an index.
pub enum Found {
    /// A primitive type; the index of the type that is none ends in zero.
    Primitive { none: bool },
    Record(HeaderRecord),
    Missing,
}

/// The type records of a database. The record at `i` has the index `first + i`; lower
/// indices are primitive types, as far as they stand for any.
pub struct HeaderTable {
    pub first: u32,
    pub records: Vec<HeaderRecord>,
}

impl HeaderTable {
    /// What stands at an index.
    pub open spec fn at(self, index: u32) -> Found {
        if index < self.first {
            if is_primitive(index) {
                Found::Primitive { none: index % 256 == 0 }
            } else {
                Found::Missing
            }
        } else if index < self.first + self.records@.len() {
            Found::Record(self.records@[index - self.first])
        } else {
            Found::Missing
        }
    }

    /// The record at an index that is no primitive type.
    pub fn find(&self, index: u32) -> (r: Option<&HeaderRecord>)
        ensures
            match r {
                Some(x) => self.at(index) == Found::Record(*x),
                None => !(self.at(index) is Record),
            },
    {
        if index >= self.first && ((index - self.first) as u64) < self.records.len() as u64 {
            Some(&self.records[(index - self.first) as usize])
        } else {
            None
        }
    }

    /// Whether a primitive type stands at an index.
    pub fn holds_primitive(&self, index: u32) -> (r: bool)
        ensures
            r == (self.at(index) is Primitive),
    {
        index < self.first && names_primitive(index)
    }
}

/// Why a header is not made.
#[derive(Clone, Copy, PartialEq, Eq, Debug, Structural)]
pub enum HeaderError {
    /// A type is missing, cannot be read or has no name: the header is left out.
    Skip,
    /// The records contradict themselves: nothing more can be made.
    Malformed,
}

// ---------------------------------------------------------------------------
// Contents
// ---------------------------------------------------------------------------

/// How a type is announced.
#[derive(Clone, Copy, PartialEq, Eq, Debug, Structural)]
pub enum ForwardReferenceKind {
    Class,
    Struct,
    Enum,
    Unknown,
    Typedef,
    TypedefInner,
}

impl ForwardReferenceKind {
    /// How a class of a kind is announced.
    pub fn from_class_kind(kind: ClassKind) -> (r: ForwardReferenceKind)
        requires
            !(kind is Interface),
        ensures
            r == match kind {
                ClassKind::Class => ForwardReferenceKind::Class,
                _ => ForwardReferenceKind::Struct,
            },
    {
        match kind {
            ClassKind::Class => ForwardReferenceKind::Class,
            _ => ForwardReferenceKind::Struct,
        }
    }
}

/// Whether a type has to be known in full.
#[derive(Clone, Copy, PartialEq, Eq, Debug, Structural)]
pub enum ForwardReferenceUsage {
    ByValue,
    ByReference,
}

/// A type that a header refers to.
#[derive(Debug)]
pub struct ForwardReference {
    pub kind: ForwardReferenceKind,
    pub usage: ForwardReferenceUsage,
    pub name: String,
}

/// A type that a header refers to, as a model.
pub struct RefModel {
    pub kind: ForwardReferenceKind,
    pub usage: ForwardReferenceUsage,
    pub name: Seq<char>,
}

impl View for ForwardReference {
    type V = RefModel;

    open spec fn view(&self) -> RefModel {
        RefModel { kind: self.kind, usage: self.usage, name: self.name@ }
    }
}

/// A base class.
#[derive(Debug)]
pub struct BaseClass {
    pub ty: Type,
    pub offset: u32,
}

/// A base class, as a model.
pub struct BaseModel {
    pub ty: Seq<char>,
    pub offset: u32,
}

impl View for BaseClass {
    type V = BaseModel;

    open spec fn view(&self) -> BaseModel {
        BaseModel { ty: self.ty@, offset: self.offset }
    }
}

/// A field of a class; the dimensions of an array stand behind its name.
#[derive(Debug)]
pub struct ClassField {
    pub ty: Type,
    pub name: String,
    pub array: String,
    pub offset: u64,
}

/// A field of a class, as a model.
pub struct ClassFieldModel {
    pub ty: Seq<char>,
    pub name: Seq<char>,
    pub array: Seq<char>,
    pub offset: u64,
}

impl View for ClassField {
    type V = ClassFieldModel;

    open spec fn view(&self) -> ClassFieldModel {
        ClassFieldModel {
            ty: self.ty@,
            name: self.name@,
            array: self.array@,
            offset: self.offset,
        }
    }
}

/// A method: with the names of its arguments, where a source file defines it.
#[derive(Debug)]
pub enum Method {
    FromHeaderFile { fn_t: FunctionType },
    FromSourceFile { fn_t: FunctionType, margs: Vec<(String, Type)> },
}

/// A method, as a model.
pub struct MethodModel {
    pub fn_t: FunctionTypeModel,
    pub margs: Option<Seq<(Seq<char>, Seq<char>)>>,
}

impl View for Method {
    type V = MethodModel;

    open spec fn view(&self) -> MethodModel {
        match *self {
            Method::FromHeaderFile { fn_t } => MethodModel { fn_t: fn_t@, margs: None },
            Method::FromSourceFile { fn_t, margs } => MethodModel {
                fn_t: fn_t@,
                margs: Some(views(margs@)),
            },
        }
    }
}

impl Method {
    /// The method's type.
    pub fn fn_t(&self) -> (r: &FunctionType)
        ensures
            r@ == self@.fn_t,
    {
        match self {
            Method::FromHeaderFile { fn_t } => fn_t,
            Method::FromSourceFile { fn_t, .. } => fn_t,
        }
    }
}

/// A class.
#[derive(Debug)]
pub struct Class {
    pub namespace: Namespace,
    pub kind: ClassKind,
    pub orig_name: String,
    pub name: Type,
    pub size: u64,
    pub base_classes: Vec<BaseClass>,
    pub fields: Vec<ClassField>,
    pub instance_methods: Vec<Method>,
    pub static_methods: Vec<Method>,
}

/// A class, as a model.
pub struct ClassModel {
    pub namespace: NamespaceModel,
    pub kind: ClassKind,
    pub orig_name: Seq<char>,
    pub name: Seq<char>,
    pub size: u64,
    pub base_classes: Seq<BaseModel>,
    pub fields: Seq<ClassFieldModel>,
    pub instance_methods: Seq<MethodModel>,
    pub static_methods: Seq<MethodModel>,
}

impl View for Class {
    type V = ClassModel;

    open spec fn view(&self) -> ClassModel {
        ClassModel {
            namespace: self.namespace@,
            kind: self.kind,
            orig_name: self.orig_name@,
            name: self.name@,
            size: self.size,
            base_classes: views(self.base_classes@),
            fields: views(self.fields@),
            instance_methods: views(self.instance_methods@),
            static_methods: views(self.static_methods@),
        }
    }
}

/// An enumeration.
#[derive(Debug)]
pub struct Enum {
    pub name: String,
    pub underlying: Type,
    pub values: Vec<(String, Variant)>,
}

/// An enumeration, as a model.
pub struct EnumModel {
    pub name: Seq<char>,
    pub underlying: Seq<char>,
    pub values: Seq<(Seq<char>, Variant)>,
}

impl View for Enum {
    type V = EnumModel;

    open spec fn view(&self) -> EnumModel {
        EnumModel {
            name: self.name@,
            underlying: self.underlying@,
            values: views(self.values@),
        }
    }
}

impl Enum {
    /// The same once more.
    pub fn copy(&self) -> (r: Enum)
        ensures
            r@ == self@,
    {
        let mut values: Vec<(String, Variant)> = Vec::new();
        let mut i: usize = 0;
        while i < self.values.len()
            invariant
                i <= self.values@.len(),
                values@.len() == i,
                forall|k: int| 0 <= k < i ==> (#[trigger] values@[k])@ == self.values@[k]@,
            decreases self.values.len() - i,
        {
            values.push((self.values[i].0.clone(), self.values[i].1));
            i = i + 1;
        }
        assert(views(values@) =~= views(self.values@));
        Enum { name: self.name.clone(), underlying: self.underlying.copy(), values }
    }
}

/// What a header holds: the types that it refers to, and its classes and enumerations,
/// those that others need first.
#[derive(Debug)]
pub struct Data {
    pub namespace: Namespace,
    pub forward_references: Vec<ForwardReference>,
    pub classes: Vec<Class>,
    pub enums: Vec<Enum>,
}

/// What a header holds, as a model.
pub struct DataModel {
    pub namespace: NamespaceModel,
    pub forward_references: Seq<RefModel>,
    pub classes: Seq<ClassModel>,
    pub enums: Seq<EnumModel>,
}

impl View for Data {
    type V = DataModel;

    open spec fn view(&self) -> DataModel {
        DataModel {
            namespace: self.namespace@,
            forward_references: views(self.forward_references@),
            classes: views(self.classes@),
            enums: views(self.enums@),
        }
    }
}

} // verus!
