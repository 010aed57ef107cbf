//! How a type is put into words.

use crate::text::owned;
use vstd::prelude::*;

verus! {

/// What a qualifier stands on.
#[derive(Clone, Copy, PartialEq, Eq, Debug, Structural)]
pub enum Underlying {
    Pointer,
    Other,
    Unreadable,
}

/// A type, as far as it decides how it is put into words.
#[derive(Clone, Copy, PartialEq, Eq, Debug, Structural)]
pub enum TypeShape {
    Modifier { constant: bool, volatile: bool, underlying: Underlying },
    Pointer { volatile: bool },
    Other,
}

/// How a type is put into words.
#[derive(Clone, Copy, PartialEq, Eq, Debug, Structural)]
pub enum EmitPlan {
    /// As the pointer under it, with these qualifiers behind the star.
    UnderlyingPointer { constant: bool },
    /// Some words before the type under it.
    Prefixed { constant: bool },
    /// As the pointer itself, volatile.
    VolatilePointer,
    /// As the plain formatter does.
    Plain,
    /// Not at all, for the type under it cannot be read.
    Fails,
}

/// How a type is put into words. The plain formatter leaves `volatile` out, so what is
/// volatile goes its own way.
pub open spec fn plan(shape: TypeShape) -> EmitPlan {
    match shape {
        TypeShape::Modifier { constant, volatile, underlying } => if !volatile {
            EmitPlan::Plain
        } else {
            match underlying {
                Underlying::Pointer => EmitPlan::UnderlyingPointer { constant },
                Underlying::Other => EmitPlan::Prefixed { constant },
                Underlying::Unreadable => EmitPlan::Fails,
            }
        },
        TypeShape::Pointer { volatile } => if volatile {
            EmitPlan::VolatilePointer
        } else {
            EmitPlan::Plain
        },
        TypeShape::Other => EmitPlan::Plain,
    }
}

/// How a type is put into words.
pub fn emit_plan(shape: TypeShape) -> (r: EmitPlan)
    ensures
        r == plan(shape),
{
    match shape {
        TypeShape::Modifier { constant, volatile, underlying } => {
            if !volatile {
                return EmitPlan::Plain;
            }
            match underlying {
                Underlying::Pointer => EmitPlan::UnderlyingPointer { constant },
                Underlying::Other => EmitPlan::Prefixed { constant },
                Underlying::Unreadable => EmitPlan::Fails,
            }
        },
        TypeShape::Pointer { volatile } => if volatile {
            EmitPlan::VolatilePointer
        } else {
            EmitPlan::Plain
        },
        TypeShape::Other => EmitPlan::Plain,
    }
}

/// The qualifiers before a type that is volatile.
pub fn volatile_prefix(constant: bool) -> (r: String)
    ensures
        r@ == if constant {
            "const volatile "@
        } else {
            "volatile "@
        },
{
    if constant {
        owned("const volatile ")
    } else {
        owned("volatile ")
    }
}

} // verus!
