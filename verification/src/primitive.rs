//! The indices of primitive types.

use vstd::prelude::*;

verus! {

/// Whether a byte is the kind of a primitive type: none, void, a result code, a number, a
/// character, a truth value.
pub open spec fn is_primitive_kind(kind: int) -> bool {
    ||| kind == 0x00
    ||| kind == 0x03
    ||| kind == 0x08
    ||| 0x10 <= kind <= 0x14
    ||| 0x20 <= kind <= 0x24
    ||| 0x30 <= kind <= 0x33
    ||| 0x40 <= kind <= 0x46
    ||| 0x50 <= kind <= 0x53
    ||| 0x68 <= kind <= 0x69
    ||| 0x70 <= kind <= 0x7c
}

/// Whether an index stands for a primitive type or for one of the seven kinds of pointers
/// to one.
pub open spec fn is_primitive(index: u32) -> bool {
    index < 0x800 && is_primitive_kind(index as int % 256)
}

/// Whether an index stands for a primitive type or for a pointer to one.
pub fn names_primitive(index: u32) -> (r: bool)
    ensures
        r == is_primitive(index),
{
    let kind: u32 = index % 256;
    index < 0x800 && (kind == 0x00 || kind == 0x03 || kind == 0x08 || (0x10 <= kind && kind <= 0x14)
        || (0x20 <= kind && kind <= 0x24) || (0x30 <= kind && kind <= 0x33) || (0x40 <= kind && kind
        <= 0x46) || (0x50 <= kind && kind <= 0x53) || (0x68 <= kind && kind <= 0x69) || (0x70
        <= kind && kind <= 0x7c))
}

} // verus!
