//! What holds of the smaller choices: what a stub returns, which types and references are
//! named, and what was asked for.

use crate::fetch::{containing_address, hex_number, selector_text, Selector};
use crate::field_attributes::{Access, MyFieldAttributes};
use crate::gen_sources::{common_typedef, kept_typedef};
use crate::guid::digit_value;
use crate::header_model::RefModel;
use crate::header_write::{file_safe, is_engine_name, ref_le, ref_line};
use crate::number::hex;
use crate::number_laws::{hex_read, lemma_hex_is_read};
use crate::parts::{cat_upto, holds, lemma_holds_both, lemma_holds_itself, lemma_holds_pair,
    lemma_holds_piece, lemma_holds_within};
use crate::pdb_parser::{plan, EmitPlan, TypeShape, Underlying};
use crate::search::{ends_with, index_of, lemma_index_of, matches_at, replaced, replaced_from,
    starts_with};
use crate::source_function::stub_value;
use crate::topology_inspect::{field_declarations, overload_declarations};
use crate::topology_text::bool_text;
use crate::type_table::{Field, FieldData, MethodItem, TypeRecord, TypeTable};
use vstd::prelude::*;

verus! {

// ---------------------------------------------------------------------------
// Stubs and typedefs
// ---------------------------------------------------------------------------

/// The types of which a stub can return a value, and the value.
pub open spec fn stub_values() -> Seq<(Seq<char>, Seq<char>)> {
    seq![
        ("vostok::math::aabb"@, "vostok::math::aabb()"@),
        ("vostok::math::color"@, "vostok::math::color()"@),
        ("vostok::math::frustum"@, "vostok::math::frustum()"@),
        ("vostok::math::intersection"@, "vostok::math::intersection()"@),
        ("vostok::math::plane"@, "vostok::math::plane()"@),
        ("vostok::math::quaternion"@, "vostok::math::quaternion()"@),
        ("vostok::math::uint2"@, "vostok::math::uint2(1, 1)"@),
        ("vostok::math::float2"@, "vostok::math::float2(1., 1.)"@),
        ("vostok::math::float3"@, "vostok::math::float3(1., 1., 1.)"@),
        ("vostok::math::float4"@, "vostok::math::float4(1., 1., 1., 1.)"@),
        ("vostok::math::float3_pod"@, "vostok::math::float3_pod()"@),
        ("vostok::math::float4_pod"@, "vostok::math::float4_pod()"@),
        ("vostok::math::float4x4"@, "vostok::math::float4x4()"@),
        ("math::aabb"@, "math::aabb()"@),
        ("math::color"@, "math::color()"@),
        ("math::frustum"@, "math::frustum()"@),
        ("math::intersection"@, "math::intersection()"@),
        ("math::plane"@, "math::plane()"@),
        ("math::quaternion"@, "math::quaternion()"@),
        ("uint2"@, "uint2(1, 1)"@),
        ("float2"@, "float2(1., 1.)"@),
        ("float3"@, "float3(1., 1., 1.)"@),
        ("float4"@, "float4(1., 1., 1., 1.)"@),
        ("float3_pod"@, "float3_pod()"@),
        ("float4_pod"@, "float4_pod()"@),
        ("float4x4"@, "float4x4()"@),
        ("u8"@, "0"@),
        ("u16"@, "0"@),
        ("u32"@, "0"@),
        ("s8"@, "0"@),
        ("s16"@, "0"@),
        ("s32"@, "0"@),
        ("float"@, "0.0f"@),
        ("double"@, "0.0f"@),
        ("bool"@, "false"@),
        ("char"@, "'a'"@),
    ]
}

/// A stub returns nothing for a pointer, and for each other type that has a value that value.
pub proof fn lemma_stub_returns_a_value(t: Seq<char>, i: int)
    requires
        0 <= i < 36,
        t == stub_values()[i].0,
        forall|j: int| 0 <= j < i ==> t != (#[trigger] stub_values()[j]).0,
    ensures
        !ends_with(t, "*"@) && t != "pcstr"@ ==> stub_value(t) == Some(stub_values()[i].1),
        ends_with(t, "*"@) ==> stub_value(t) == Some("NULL"@),
{
    assert(stub_values()[0].0 == "vostok::math::aabb"@);
    assert(stub_values()[1].0 == "vostok::math::color"@);
    assert(stub_values()[2].0 == "vostok::math::frustum"@);
    assert(stub_values()[3].0 == "vostok::math::intersection"@);
    assert(stub_values()[4].0 == "vostok::math::plane"@);
    assert(stub_values()[5].0 == "vostok::math::quaternion"@);
    assert(stub_values()[6].0 == "vostok::math::uint2"@);
    assert(stub_values()[7].0 == "vostok::math::float2"@);
    assert(stub_values()[8].0 == "vostok::math::float3"@);
    assert(stub_values()[9].0 == "vostok::math::float4"@);
    assert(stub_values()[10].0 == "vostok::math::float3_pod"@);
    assert(stub_values()[11].0 == "vostok::math::float4_pod"@);
    assert(stub_values()[12].0 == "vostok::math::float4x4"@);
    assert(stub_values()[13].0 == "math::aabb"@);
    assert(stub_values()[14].0 == "math::color"@);
    assert(stub_values()[15].0 == "math::frustum"@);
    assert(stub_values()[16].0 == "math::intersection"@);
    assert(stub_values()[17].0 == "math::plane"@);
    assert(stub_values()[18].0 == "math::quaternion"@);
    assert(stub_values()[19].0 == "uint2"@);
    assert(stub_values()[20].0 == "float2"@);
    assert(stub_values()[21].0 == "float3"@);
    assert(stub_values()[22].0 == "float4"@);
    assert(stub_values()[23].0 == "float3_pod"@);
    assert(stub_values()[24].0 == "float4_pod"@);
    assert(stub_values()[25].0 == "float4x4"@);
    assert(stub_values()[26].0 == "u8"@);
    assert(stub_values()[27].0 == "u16"@);
    assert(stub_values()[28].0 == "u32"@);
    assert(stub_values()[29].0 == "s8"@);
    assert(stub_values()[30].0 == "s16"@);
    assert(stub_values()[31].0 == "s32"@);
    assert(stub_values()[32].0 == "float"@);
    assert(stub_values()[33].0 == "double"@);
    assert(stub_values()[34].0 == "bool"@);
    assert(stub_values()[35].0 == "char"@);
}

/// A stub returns a value of exactly the pointers and the types that have one.
pub proof fn lemma_types_that_stubs_return(t: Seq<char>)
    ensures
        stub_value(t) is None ==> !ends_with(t, "*"@) && t != "pcstr"@ && forall|j: int|
            0 <= j < 36 ==> t != (#[trigger] stub_values()[j]).0,
        ends_with(t, "*"@) || t == "pcstr"@ ==> stub_value(t) == Some("NULL"@),
        stub_value(t) is Some && !ends_with(t, "*"@) && t != "pcstr"@ ==> exists|j: int|
            0 <= j < 36 && t == (#[trigger] stub_values()[j]).0 && stub_value(t) == Some(
                stub_values()[j].1,
            ),
{
    assert(stub_values()[0] == ("vostok::math::aabb"@, "vostok::math::aabb()"@));
    assert(stub_values()[1] == ("vostok::math::color"@, "vostok::math::color()"@));
    assert(stub_values()[2] == ("vostok::math::frustum"@, "vostok::math::frustum()"@));
    assert(stub_values()[3] == ("vostok::math::intersection"@, "vostok::math::intersection()"@));
    assert(stub_values()[4] == ("vostok::math::plane"@, "vostok::math::plane()"@));
    assert(stub_values()[5] == ("vostok::math::quaternion"@, "vostok::math::quaternion()"@));
    assert(stub_values()[6] == ("vostok::math::uint2"@, "vostok::math::uint2(1, 1)"@));
    assert(stub_values()[7] == ("vostok::math::float2"@, "vostok::math::float2(1., 1.)"@));
    assert(stub_values()[8] == ("vostok::math::float3"@, "vostok::math::float3(1., 1., 1.)"@));
    assert(stub_values()[9] == ("vostok::math::float4"@, "vostok::math::float4(1., 1., 1., 1.)"@));
    assert(stub_values()[10] == ("vostok::math::float3_pod"@, "vostok::math::float3_pod()"@));
    assert(stub_values()[11] == ("vostok::math::float4_pod"@, "vostok::math::float4_pod()"@));
    assert(stub_values()[12] == ("vostok::math::float4x4"@, "vostok::math::float4x4()"@));
    assert(stub_values()[13] == ("math::aabb"@, "math::aabb()"@));
    assert(stub_values()[14] == ("math::color"@, "math::color()"@));
    assert(stub_values()[15] == ("math::frustum"@, "math::frustum()"@));
    assert(stub_values()[16] == ("math::intersection"@, "math::intersection()"@));
    assert(stub_values()[17] == ("math::plane"@, "math::plane()"@));
    assert(stub_values()[18] == ("math::quaternion"@, "math::quaternion()"@));
    assert(stub_values()[19] == ("uint2"@, "uint2(1, 1)"@));
    assert(stub_values()[20] == ("float2"@, "float2(1., 1.)"@));
    assert(stub_values()[21] == ("float3"@, "float3(1., 1., 1.)"@));
    assert(stub_values()[22] == ("float4"@, "float4(1., 1., 1., 1.)"@));
    assert(stub_values()[23] == ("float3_pod"@, "float3_pod()"@));
    assert(stub_values()[24] == ("float4_pod"@, "float4_pod()"@));
    assert(stub_values()[25] == ("float4x4"@, "float4x4()"@));
    assert(stub_values()[26] == ("u8"@, "0"@));
    assert(stub_values()[27] == ("u16"@, "0"@));
    assert(stub_values()[28] == ("u32"@, "0"@));
    assert(stub_values()[29] == ("s8"@, "0"@));
    assert(stub_values()[30] == ("s16"@, "0"@));
    assert(stub_values()[31] == ("s32"@, "0"@));
    assert(stub_values()[32] == ("float"@, "0.0f"@));
    assert(stub_values()[33] == ("double"@, "0.0f"@));
    assert(stub_values()[34] == ("bool"@, "false"@));
    assert(stub_values()[35] == ("char"@, "'a'"@));
}

/// The names of typedefs that say nothing.
pub open spec fn common_names() -> Seq<Seq<char>> {
    seq![
        "this_type"@,
        "self_type"@,
        "unspecified_bool_type"@,
        "unqualified_type"@,
        "allocator_type"@,
        "vtable_type"@,
        "functor_type"@,
        "policy_type"@,
        "base_type"@,
        "callback_type"@,
        "create_resource_if_no_file_delegate_type"@,
        "first_type"@,
        "graph_wrapper_type"@,
        "implementation_type"@,
        "invoker_type"@,
        "is_POD_type"@,
        "key_type"@,
        "mapped_type"@,
        "pod_type"@,
        "point_ptr_type"@,
        "point_type"@,
        "pointer_type"@,
        "result_type"@,
        "reverse_iterator"@,
        "service_impl_type"@,
        "size_type"@,
        "storage_type"@,
        "subscribers_type"@,
        "void_type"@,
        "void_cv_type"@,
        "value_type"@,
        "object_type"@,
    ]
}

/// A typedef of a module is kept where it is named as a type, begins with a small letter, and
/// is none of those that say nothing.
pub proof fn lemma_typedefs_that_are_kept(name: Seq<char>)
    ensures
        kept_typedef(name) <==> 'a' <= name[0] && name[0] <= 'z' && ends_with(name, "_type"@)
            && !common_names().contains(name),
{
    assert(common_names()[0] == "this_type"@);
    assert(common_names()[1] == "self_type"@);
    assert(common_names()[2] == "unspecified_bool_type"@);
    assert(common_names()[3] == "unqualified_type"@);
    assert(common_names()[4] == "allocator_type"@);
    assert(common_names()[5] == "vtable_type"@);
    assert(common_names()[6] == "functor_type"@);
    assert(common_names()[7] == "policy_type"@);
    assert(common_names()[8] == "base_type"@);
    assert(common_names()[9] == "callback_type"@);
    assert(common_names()[10] == "create_resource_if_no_file_delegate_type"@);
    assert(common_names()[11] == "first_type"@);
    assert(common_names()[12] == "graph_wrapper_type"@);
    assert(common_names()[13] == "implementation_type"@);
    assert(common_names()[14] == "invoker_type"@);
    assert(common_names()[15] == "is_POD_type"@);
    assert(common_names()[16] == "key_type"@);
    assert(common_names()[17] == "mapped_type"@);
    assert(common_names()[18] == "pod_type"@);
    assert(common_names()[19] == "point_ptr_type"@);
    assert(common_names()[20] == "point_type"@);
    assert(common_names()[21] == "pointer_type"@);
    assert(common_names()[22] == "result_type"@);
    assert(common_names()[23] == "reverse_iterator"@);
    assert(common_names()[24] == "service_impl_type"@);
    assert(common_names()[25] == "size_type"@);
    assert(common_names()[26] == "storage_type"@);
    assert(common_names()[27] == "subscribers_type"@);
    assert(common_names()[28] == "void_type"@);
    assert(common_names()[29] == "void_cv_type"@);
    assert(common_names()[30] == "value_type"@);
    assert(common_names()[31] == "object_type"@);
    assert(common_names().len() == 32);
    if common_names().contains(name) {
        let i = common_names().index_of(name);
        assert(common_names()[i] == name);
        assert(common_typedef(name));
    }
}

// ---------------------------------------------------------------------------
// Names of files
// ---------------------------------------------------------------------------

proof fn lemma_characters_are_exchanged(s: Seq<char>, p: Seq<char>, q: Seq<char>, i: int)
    requires
        p.len() == 1,
        q.len() == 1,
        0 <= i <= s.len(),
    ensures
        replaced_from(s, p, q, i).len() == s.len() - i,
        forall|k: int|
            0 <= k < s.len() - i ==> #[trigger] replaced_from(s, p, q, i)[k] == (if s[i + k]
                == p[0] {
                q[0]
            } else {
                s[i + k]
            }),
    decreases s.len() - i,
{
    lemma_index_of(s, p, i);
    let r = replaced_from(s, p, q, i);
    match index_of(s, p, i) {
        Some(at) => {
            assert(matches_at(s, p, at));
            assert(s.subrange(at, at + 1)[0] == p[0]);
            lemma_characters_are_exchanged(s, p, q, at + 1);
            let rest = replaced_from(s, p, q, at + 1);
            assert(r == s.subrange(i, at) + q + rest);
            assert forall|k: int| 0 <= k < s.len() - i implies #[trigger] r[k] == (if s[i + k]
                == p[0] {
                q[0]
            } else {
                s[i + k]
            }) by {
                if i + k < at {
                    if s[i + k] == p[0] {
                        assert(s.subrange(i + k, i + k + 1) =~= p);
                        assert(matches_at(s, p, i + k));
                    }
                } else if i + k > at {
                    assert(r[k] == rest[i + k - at - 1]);
                }
            }
        },
        None => {
            assert forall|k: int| 0 <= k < s.len() - i implies #[trigger] r[k] == (if s[i + k]
                == p[0] {
                q[0]
            } else {
                s[i + k]
            }) by {
                if s[i + k] == p[0] {
                    assert(s.subrange(i + k, i + k + 1) =~= p);
                    assert(matches_at(s, p, i + k));
                }
            }
        },
    }
}

/// What stands for a character in the name of a file.
pub open spec fn safe_character(c: char) -> char {
    if c == ':' || c == '<' || c == '>' || c == '|' {
        '_'
    } else if c == '*' || c == '&' {
        '+'
    } else {
        c
    }
}

/// The name of a file has a character for each of a name, none of which a file's name cannot
/// hold.
pub proof fn lemma_file_names_are_safe(s: Seq<char>)
    ensures
        file_safe(s).len() == s.len(),
        forall|i: int| 0 <= i < s.len() ==> #[trigger] file_safe(s)[i] == safe_character(s[i]),
{
    reveal_strlit(":");
    reveal_strlit("_");
    reveal_strlit("*");
    reveal_strlit("+");
    reveal_strlit("&");
    reveal_strlit("<");
    reveal_strlit(">");
    reveal_strlit("|");
    let a = replaced(s, ":"@, "_"@);
    let b = replaced(a, "*"@, "+"@);
    let c = replaced(b, "&"@, "+"@);
    let d = replaced(c, "<"@, "_"@);
    let e = replaced(d, ">"@, "_"@);
    let f = replaced(e, "|"@, "_"@);
    lemma_characters_are_exchanged(s, ":"@, "_"@, 0);
    lemma_characters_are_exchanged(a, "*"@, "+"@, 0);
    lemma_characters_are_exchanged(b, "&"@, "+"@, 0);
    lemma_characters_are_exchanged(c, "<"@, "_"@, 0);
    lemma_characters_are_exchanged(d, ">"@, "_"@, 0);
    lemma_characters_are_exchanged(e, "|"@, "_"@, 0);
    assert forall|i: int| 0 <= i < s.len() implies #[trigger] file_safe(s)[i] == safe_character(
        s[i],
    ) by {
        assert(a[i] == (if s[0 + i] == ':' {
            '_'
        } else {
            s[0 + i]
        }));
        assert(b[i] == (if a[0 + i] == '*' {
            '+'
        } else {
            a[0 + i]
        }));
        assert(c[i] == (if b[0 + i] == '&' {
            '+'
        } else {
            b[0 + i]
        }));
        assert(d[i] == (if c[0 + i] == '<' {
            '_'
        } else {
            c[0 + i]
        }));
        assert(e[i] == (if d[0 + i] == '>' {
            '_'
        } else {
            d[0 + i]
        }));
        assert(f[i] == (if e[0 + i] == '|' {
            '_'
        } else {
            e[0 + i]
        }));
    }
}

// ---------------------------------------------------------------------------
// References
// ---------------------------------------------------------------------------

/// References to what is not the engine's stand first. Among the others those of one kind
/// stand together, and of one kind the engine's before the game's.
pub proof fn lemma_references_stand_in_order(a: RefModel, b: RefModel)
    ensures
        !is_engine_name(a.name) && is_engine_name(b.name) ==> ref_le(a, b) && !ref_le(b, a),
        is_engine_name(a.name) == is_engine_name(b.name) && a.kind != b.kind ==> ref_le(a, b)
            != ref_le(b, a),
        is_engine_name(a.name) == is_engine_name(b.name) && a.kind is Class && !(b.kind is Class)
            ==> ref_le(a, b),
        is_engine_name(a.name) == is_engine_name(b.name) && a.kind is Struct && (b.kind is Enum
            || b.kind is Unknown || b.kind is Typedef || b.kind is TypedefInner) ==> ref_le(a, b),
        is_engine_name(a.name) == is_engine_name(b.name) && a.kind is Enum && (b.kind is Unknown
            || b.kind is Typedef || b.kind is TypedefInner) ==> ref_le(a, b),
        is_engine_name(a.name) == is_engine_name(b.name) && b.kind is TypedefInner && !(a.kind
            is TypedefInner) ==> ref_le(a, b),
        a.kind == b.kind && starts_with(a.name, "vostok"@) && starts_with(b.name, "survarium"@)
            ==> ref_le(a, b),
        is_engine_name(a.name) <==> starts_with(a.name, "vostok"@) || starts_with(
            a.name,
            "survarium"@,
        ),
{
}

/// A reference is announced by its kind and its name.
pub proof fn lemma_reference_is_announced(r: RefModel)
    ensures
        r.kind is Struct ==> ref_line(r) == "struct"@ + " "@ + r.name + ";\n"@,
        r.kind is Enum ==> ref_line(r) == "enum"@ + " "@ + r.name + ";\n"@,
        r.kind is Typedef ==> ref_line(r) == "typedef"@ + " "@ + r.name + ";\n"@,
        r.kind is Class || r.kind is Unknown || r.kind is TypedefInner ==> ref_line(r) == "class"@
            + " "@ + r.name + ";\n"@,
{
}

// ---------------------------------------------------------------------------
// What is volatile, and what is asked for
// ---------------------------------------------------------------------------

/// A type goes its own way exactly where it is volatile, and fails exactly where what is
/// volatile cannot be read.
pub proof fn lemma_volatile_types_go_their_own_way(constant: bool, volatile: bool, u: Underlying)
    ensures
        plan(TypeShape::Modifier { constant, volatile, underlying: u }) is Plain <==> !volatile,
        plan(TypeShape::Modifier { constant, volatile, underlying: u }) is Fails <==> volatile && u
            is Unreadable,
        volatile && u is Pointer ==> plan(
            TypeShape::Modifier { constant, volatile, underlying: u },
        ) == (EmitPlan::UnderlyingPointer { constant }),
        volatile && u is Other ==> plan(TypeShape::Modifier { constant, volatile, underlying: u })
            == (EmitPlan::Prefixed { constant }),
        plan(TypeShape::Pointer { volatile }) is VolatilePointer <==> volatile,
        plan(TypeShape::Pointer { volatile }) is Plain <==> !volatile,
        plan(TypeShape::Other) is Plain,
{
}

/// What was asked for is told by its name, where there is one, and by its address, the one in
/// the file before the one in memory.
pub proof fn lemma_selector_is_told(s: Selector)
    ensures
        s.function matches Some(n) ==> holds(selector_text(s), "'"@ + n@),
        s.rva matches Some(v) ==> holds(selector_text(s), "rva 0x"@ + hex(v as nat)),
        s.va matches Some(v) ==> s.rva is None ==> holds(
            selector_text(s),
            "va 0x"@ + hex(v as nat),
        ),
        s.function is None && s.rva is None && s.va is None ==> selector_text(s) == "<none>"@,
{
    let address = match (s.rva, s.va) {
        (Some(v), _) => Some("rva 0x"@ + hex(v as nat)),
        (None, Some(v)) => Some("va 0x"@ + hex(v as nat)),
        (None, None) => None,
    };
    reveal_with_fuel(cat_upto, 6);
    match (s.function, address) {
        (Some(n), Some(x)) => {
            let a = seq!["'"@, n@, "' ("@, x, ")"@];
            assert(selector_text(s) == cat_upto(a, 5));
            lemma_holds_pair(a, 5, 0);
            lemma_holds_pair(a, 5, 2);
            lemma_holds_both(selector_text(s), a[2], x);
        },
        (Some(n), None) => {
            let a = seq!["'"@, n@, "'"@];
            assert(selector_text(s) == cat_upto(a, 3));
            lemma_holds_pair(a, 3, 0);
        },
        (None, Some(x)) => {
            lemma_holds_itself(x);
        },
        (None, None) => {},
    }
}

/// A number that is written in hexadecimal is read back, where it has 32 bits, and no other
/// number is.
pub proof fn lemma_hexadecimal_numbers_are_read(n: nat)
    ensures
        n <= 4294967295 ==> hex_number("0x"@ + hex(n)) == Some(n),
        n > 4294967295 ==> hex_number("0x"@ + hex(n)) is None,
{
    reveal_strlit("0x");
    reveal_strlit("0X");
    lemma_hex_is_read(n);
    let s = "0x"@ + hex(n);
    assert(s.take(2) =~= "0x"@);
    assert(s.skip(2) =~= hex(n));
    assert(hex(n).len() > 0);
    assert(hex_read(hex(n)) is Some);
    assert(digit_value(hex(n)[0]) is Some);
    if hex(n)[0] == '+' {
        assert(digit_value('+') is None);
    }
}

/// The function has to contain the address that is given for it; where nothing else is given,
/// that of a statement.
pub proof fn lemma_address_that_is_contained(s: Selector)
    ensures
        s.va is Some ==> containing_address(s) == s.va,
        s.va is None && s.function is None && s.rva is None ==> containing_address(s) == s.address,
        s.va is None && (s.function is Some || s.rva is Some) ==> containing_address(s) is None,
{
}

// ---------------------------------------------------------------------------
// Members
// ---------------------------------------------------------------------------

/// The attributes of a method are told one by one.
pub proof fn lemma_attributes_are_told(m: MyFieldAttributes)
    ensures
        ({
            let s = m.method_text();
            let k = ((m.0 & 0x001c) >> 2) as u8;
            &&& k == 2 ==> holds(s, " static="@ + "true"@)
            &&& k != 2 ==> holds(s, " static="@ + "false"@)
            &&& k == 1 ==> holds(s, " virtual="@ + "true"@)
            &&& k != 1 ==> holds(s, " virtual="@ + "false"@)
            &&& k == 5 ==> holds(s, " pure="@ + "true"@)
            &&& k != 5 ==> holds(s, " pure="@ + "false"@)
            &&& k == 4 || k == 6 ==> holds(s, " intro="@ + "true"@)
            &&& k != 4 && k != 6 ==> holds(s, " intro="@ + "false"@)
            &&& m.0 & 0x0100 != 0 ==> holds(s, " compiler_generated="@ + "true"@)
            &&& m.0 & 0x0100 == 0 ==> holds(s, " compiler_generated="@ + "false"@)
            &&& m.0 & 0x0200 != 0 ==> holds(s, " sealed="@ + "true"@)
            &&& m.0 & 0x0200 == 0 ==> holds(s, " sealed="@ + "false"@)
            &&& (m.0 & 0x0003) as u8 == 1 ==> holds(s, "access="@ + "private"@)
            &&& (m.0 & 0x0003) as u8 == 2 ==> holds(s, "access="@ + "protected"@)
            &&& (m.0 & 0x0003) as u8 == 3 ==> holds(s, "access="@ + "public"@)
            &&& (m.0 & 0x0003) as u8 == 0 ==> holds(s, "access="@ + "none"@)
        }),
{
    let k = m.method_kind();
    let access = match m.access_of() {
        Access::Unspecified => "none"@,
        a => a.name(),
    };
    let a = seq![
        "access="@,
        access,
        " static="@,
        bool_text(k == 2),
        " virtual="@,
        bool_text(k == 1),
        " pure="@,
        bool_text(k == 5),
        " intro="@,
        bool_text(k == 4 || k == 6),
        " compiler_generated="@,
        bool_text(m.0 & 0x0100 != 0),
    ];
    let tail = " sealed="@ + bool_text(m.0 & 0x0200 != 0);
    reveal_with_fuel(cat_upto, 13);
    let x = cat_upto(a, 12);
    let s = m.method_text();
    assert(s == x + tail);
    lemma_holds_piece(x, tail, Seq::empty());
    lemma_holds_pair(a, 12, 0);
    lemma_holds_within(Seq::empty(), x, tail, a[0] + a[1]);
    lemma_holds_pair(a, 12, 2);
    lemma_holds_within(Seq::empty(), x, tail, a[2] + a[3]);
    lemma_holds_pair(a, 12, 4);
    lemma_holds_within(Seq::empty(), x, tail, a[4] + a[5]);
    lemma_holds_pair(a, 12, 6);
    lemma_holds_within(Seq::empty(), x, tail, a[6] + a[7]);
    lemma_holds_pair(a, 12, 8);
    lemma_holds_within(Seq::empty(), x, tail, a[8] + a[9]);
    lemma_holds_pair(a, 12, 10);
    lemma_holds_within(Seq::empty(), x, tail, a[10] + a[11]);
    let n = m.0;
    assert((n & 0x0003) as u8 <= 3) by (bit_vector);
}

/// A method of a class is declared once, with its own type; every overload is, in the order
/// of the list; another field is declared as it is, with no type of a method.
pub proof fn lemma_fields_are_declared(t: TypeTable, f: Field)
    ensures
        f.data matches FieldData::Method { name, item } ==> (field_declarations(t, f) matches Ok(v)
            && v.len() == 1 && v[0].method_type == Some(item.method_type)),
        f.data matches FieldData::OverloadedMethod { name, method_list } ==> (t.record_at(
            method_list,
        ) matches Some(TypeRecord::MethodList { methods }) ==> (field_declarations(
            t,
            f,
        ) matches Ok(v) && v.len() == methods@.len() && forall|i: int|
            0 <= i < v.len() ==> (#[trigger] v[i]).method_type == Some(methods@[i].method_type)
                && ends_with(v[i].text, " [overload]"@))),
        !(f.data is Method) && !(f.data is OverloadedMethod) ==> (field_declarations(
            t,
            f,
        ) matches Ok(v) && v.len() == 1 && v[0].method_type is None && v[0].text == f.debug@),
{
    if let FieldData::OverloadedMethod { name, method_list } = f.data {
        if let Some(TypeRecord::MethodList { methods }) = t.record_at(method_list) {
            lemma_overloads_are_declared(name@, methods@, methods@.len() as int);
        }
    }
}

proof fn lemma_overloads_are_declared(name: Seq<char>, methods: Seq<MethodItem>, n: int)
    requires
        0 <= n <= methods.len(),
    ensures
        overload_declarations(name, methods, n).len() == n,
        forall|i: int|
            0 <= i < n ==> (#[trigger] overload_declarations(name, methods, n)[i]).method_type
                == Some(methods[i].method_type) && ends_with(
                overload_declarations(name, methods, n)[i].text,
                " [overload]"@,
            ),
    decreases n,
{
    if n > 0 {
        lemma_overloads_are_declared(name, methods, n - 1);
        let d = overload_declarations(name, methods, n)[n - 1];
        assert(d.text.skip(d.text.len() - " [overload]"@.len()) =~= " [overload]"@);
    }
}

} // verus!
