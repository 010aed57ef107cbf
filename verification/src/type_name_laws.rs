//! What holds of the names of types as they are written in source code.

use crate::search::{contains, index_of, lemma_contains, lemma_index_of, matches_at, replaced,
    replaced_from};
use crate::type_builder::{name_within, named_engine_types, named_libraries, named_primitives,
    source_name, spaced, NamespaceModel};
use vstd::prelude::*;

verus! {

// ---------------------------------------------------------------------------
// Exchanging
// ---------------------------------------------------------------------------

proof fn lemma_nothing_to_exchange(s: Seq<char>, m: Seq<char>, q: Seq<char>)
    requires
        !contains(s, m),
    ensures
        replaced(s, m, q) == s,
{
    lemma_contains(s, m);
    assert(s.skip(0) =~= s);
}

/// Whether a part stands in a text at one place and no other.
pub open spec fn stands_once(s: Seq<char>, m: Seq<char>, at: int) -> bool {
    matches_at(s, m, at) && forall|i: int| #[trigger] matches_at(s, m, i) ==> i == at
}

proof fn lemma_one_is_exchanged(x: Seq<char>, m: Seq<char>, y: Seq<char>, q: Seq<char>)
    requires
        stands_once(x + m + y, m, x.len() as int),
        m.len() > 0,
    ensures
        replaced(x + m + y, m, q) == x + q + y,
{
    let s = x + m + y;
    lemma_index_of(s, m, 0);
    assert(matches_at(s, m, x.len() as int));
    assert(index_of(s, m, 0) == Some(x.len() as int));
    let behind = x.len() + m.len();
    lemma_index_of(s, m, behind as int);
    assert(index_of(s, m, behind as int) is None);
    assert(replaced_from(s, m, q, behind as int) == s.skip(behind as int));
    assert(s.skip(behind as int) =~= y);
    assert(s.subrange(0, x.len() as int) =~= x);
}

/// A text with the first `n` of some parts exchanged, one after the other.
pub open spec fn all_exchanged(s: Seq<char>, t: Seq<(Seq<char>, Seq<char>)>, n: int) -> Seq<char>
    decreases n,
{
    if n <= 0 {
        s
    } else {
        replaced(all_exchanged(s, t, n - 1), t[n - 1].0, t[n - 1].1)
    }
}

proof fn lemma_none_is_exchanged(s: Seq<char>, t: Seq<(Seq<char>, Seq<char>)>, n: int)
    requires
        0 <= n <= t.len(),
        forall|j: int| 0 <= j < n ==> !contains(s, (#[trigger] t[j]).0),
    ensures
        all_exchanged(s, t, n) == s,
    decreases n,
{
    if n > 0 {
        lemma_none_is_exchanged(s, t, n - 1);
        assert(!contains(s, t[n - 1].0));
        lemma_nothing_to_exchange(s, t[n - 1].0, t[n - 1].1);
    }
}

proof fn lemma_only_one_is_exchanged(
    x: Seq<char>,
    y: Seq<char>,
    t: Seq<(Seq<char>, Seq<char>)>,
    k: int,
    n: int,
)
    requires
        0 <= k < n <= t.len(),
        t[k].0.len() > 0,
        stands_once(x + t[k].0 + y, t[k].0, x.len() as int),
        forall|j: int| 0 <= j < k ==> !contains(x + t[k].0 + y, (#[trigger] t[j]).0),
        forall|j: int| k < j < n ==> !contains(x + t[k].1 + y, (#[trigger] t[j]).0),
    ensures
        all_exchanged(x + t[k].0 + y, t, n) == x + t[k].1 + y,
    decreases n,
{
    if n - 1 == k {
        lemma_none_is_exchanged(x + t[k].0 + y, t, k);
        lemma_one_is_exchanged(x, t[k].0, y, t[k].1);
    } else {
        lemma_only_one_is_exchanged(x, y, t, k, n - 1);
        assert(!contains(x + t[k].1 + y, t[n - 1].0));
        lemma_nothing_to_exchange(x + t[k].1 + y, t[n - 1].0, t[n - 1].1);
    }
}

// ---------------------------------------------------------------------------
// The names that are exchanged
// ---------------------------------------------------------------------------

/// Pointer and integer types, and what the engine calls them.
pub open spec fn primitive_names() -> Seq<(Seq<char>, Seq<char>)> {
    seq![
        ("stlp_std"@, "std"@),
        ("char const*"@, "pcstr"@),
        ("char const *"@, "pcstr"@),
        ("void const*"@, "pcvoid"@),
        ("void const *"@, "pcvoid"@),
        ("u8 const *"@, "pcbyte"@),
        ("u8 const*"@, "pcbyte"@),
        ("u8 *"@, "pbyte"@),
        ("u8*"@, "pbyte"@),
        ("unsigned int"@, "u32"@),
        ("unsigned short"@, "u16"@),
        ("unsigned char"@, "u8"@),
    ]
}

proof fn lemma_primitives(s: Seq<char>)
    ensures
        named_primitives(s) == all_exchanged(s, primitive_names(), 12),
{
    reveal_with_fuel(all_exchanged, 13);
}

/// Types of libraries, and their usual names.
pub open spec fn library_names() -> Seq<(Seq<char>, Seq<char>)> {
    seq![
        ("boost::asio::basic_stream_socket<boost::asio::ip::tcp,boost::asio::stream_socket_service<boost::asio::ip::tcp> >"@, "boost::asio::ip::tcp::socket"@),
        ("boost::asio::ip::basic_endpoint<boost::asio::ip::tcp>"@, "boost::asio::ip::tcp::endpoint"@),
        ("boost::asio::ip::basic_resolver<boost::asio::ip::tcp,boost::asio::ip::resolver_service<boost::asio::ip::tcp> >"@, "boost::asio::ip::tcp::resolver"@),
        ("boost::asio::ip::basic_resolver_iterator<boost::asio::ip::tcp>"@, "boost::asio::ip::tcp::resolver::iterator"@),
        ("boost::asio::ip::basic_resolver_query<boost::asio::ip::tcp>"@, "boost::asio::ip::tcp::resolver::query"@),
        ("boost::asio::basic_datagram_socket<boost::asio::ip::udp,boost::asio::datagram_socket_service<boost::asio::ip::udp> >"@, "boost::asio::ip::udp::socket"@),
        ("boost::asio::ip::basic_endpoint<boost::asio::ip::udp>"@, "boost::asio::ip::udp::endpoint"@),
        ("boost::asio::basic_streambuf<std::allocator<char> >"@, "boost::asio::streambuf"@),
        ("boost::noncopyable_::noncopyable"@, "boost::noncopyable"@),
        ("std::basic_string<char,std::char_traits<char>,std::allocator<char> >"@, "std::string"@),
        ("std::basic_ostream<char,std::char_traits<char> >"@, "std::ostream"@),
        ("std::basic_istream<char,std::char_traits<char> >"@, "std::istream"@),
    ]
}

proof fn lemma_libraries(s: Seq<char>)
    ensures
        named_libraries(s) == all_exchanged(s, library_names(), 12),
{
    reveal_with_fuel(all_exchanged, 13);
}

/// Calling conventions and types of the engine, and what is written for them.
pub open spec fn engine_names() -> Seq<(Seq<char>, Seq<char>)> {
    seq![
        (" __cdecl(void)"@, "()"@),
        (" __cdecl"@, ""@),
        ("vostok::math::float2"@, "float2"@),
        ("vostok::math::float3"@, "float3"@),
        ("vostok::math::float4"@, "float4"@),
        ("vostok::math::float4x4"@, "float4x4"@),
    ]
}

proof fn lemma_engine(s: Seq<char>)
    ensures
        named_engine_types(s) == all_exchanged(s, engine_names(), 6),
{
    reveal_with_fuel(all_exchanged, 7);
}

/// What stands around brackets, commas and pointers, and how it is spaced.
pub open spec fn spacings() -> Seq<(Seq<char>, Seq<char>)> {
    seq![
        (", "@, ","@),
        (","@, ", "@),
        ("<"@, "< "@),
        (" >"@, ">"@),
        (">"@, " >"@),
        (" &"@, "&"@),
        (" *"@, "*"@),
        ("("@, "( "@),
        (")"@, " )"@),
        ("(  )"@, "()"@),
    ]
}

proof fn lemma_spacings(s: Seq<char>)
    ensures
        spaced(s) == all_exchanged(s, spacings(), 10),
{
    reveal_with_fuel(all_exchanged, 11);
}

/// Where of the names that are exchanged a type holds none, it is written as it is.
pub proof fn lemma_other_names_stay(s: Seq<char>)
    ensures
        (forall|j: int| 0 <= j < 12 ==> !contains(s, (#[trigger] primitive_names()[j]).0))
            ==> named_primitives(s) == s,
        (forall|j: int| 0 <= j < 12 ==> !contains(s, (#[trigger] library_names()[j]).0))
            ==> named_libraries(s) == s,
        (forall|j: int| 0 <= j < 6 ==> !contains(s, (#[trigger] engine_names()[j]).0))
            ==> named_engine_types(s) == s,
        (forall|j: int| 0 <= j < 10 ==> !contains(s, (#[trigger] spacings()[j]).0)) ==> spaced(s)
            == s,
{
    lemma_primitives(s);
    lemma_libraries(s);
    lemma_engine(s);
    lemma_spacings(s);
    if forall|j: int| 0 <= j < 12 ==> !contains(s, (#[trigger] primitive_names()[j]).0) {
        lemma_none_is_exchanged(s, primitive_names(), 12);
    }
    if forall|j: int| 0 <= j < 12 ==> !contains(s, (#[trigger] library_names()[j]).0) {
        lemma_none_is_exchanged(s, library_names(), 12);
    }
    if forall|j: int| 0 <= j < 6 ==> !contains(s, (#[trigger] engine_names()[j]).0) {
        lemma_none_is_exchanged(s, engine_names(), 6);
    }
    if forall|j: int| 0 <= j < 10 ==> !contains(s, (#[trigger] spacings()[j]).0) {
        lemma_none_is_exchanged(s, spacings(), 10);
    }
}

/// Where of the pointer and integer types that are exchanged
/// only one stands in a text, and once, that one is exchanged and nothing else changes.
pub proof fn lemma_primitives_are_exchanged(x: Seq<char>, y: Seq<char>, k: int)
    requires
        0 <= k < 12,
        stands_once(x + primitive_names()[k].0 + y, primitive_names()[k].0, x.len() as int),
        forall|j: int|
            0 <= j < k ==> !contains(x + primitive_names()[k].0 + y, (#[trigger] primitive_names()[j]).0),
        forall|j: int|
            k < j < 12 ==> !contains(x + primitive_names()[k].1 + y, (#[trigger] primitive_names()[j]).0),
    ensures
        named_primitives(x + primitive_names()[k].0 + y) == x + primitive_names()[k].1 + y,
{
    reveal_strlit("stlp_std");
    reveal_strlit("char const*");
    reveal_strlit("char const *");
    reveal_strlit("void const*");
    reveal_strlit("void const *");
    reveal_strlit("u8 const *");
    reveal_strlit("u8 const*");
    reveal_strlit("u8 *");
    reveal_strlit("u8*");
    reveal_strlit("unsigned int");
    reveal_strlit("unsigned short");
    reveal_strlit("unsigned char");
    assert("stlp_std"@.len() > 0);
    assert("char const*"@.len() > 0);
    assert("char const *"@.len() > 0);
    assert("void const*"@.len() > 0);
    assert("void const *"@.len() > 0);
    assert("u8 const *"@.len() > 0);
    assert("u8 const*"@.len() > 0);
    assert("u8 *"@.len() > 0);
    assert("u8*"@.len() > 0);
    assert("unsigned int"@.len() > 0);
    assert("unsigned short"@.len() > 0);
    assert("unsigned char"@.len() > 0);
    let t = primitive_names();
    assert(t[k].0.len() > 0);
    lemma_primitives(x + t[k].0 + y);
    lemma_only_one_is_exchanged(x, y, t, k, 12);
}

/// Where of the types of libraries that are exchanged
/// only one stands in a text, and once, that one is exchanged and nothing else changes.
pub proof fn lemma_libraries_are_exchanged(x: Seq<char>, y: Seq<char>, k: int)
    requires
        0 <= k < 12,
        stands_once(x + library_names()[k].0 + y, library_names()[k].0, x.len() as int),
        forall|j: int|
            0 <= j < k ==> !contains(x + library_names()[k].0 + y, (#[trigger] library_names()[j]).0),
        forall|j: int|
            k < j < 12 ==> !contains(x + library_names()[k].1 + y, (#[trigger] library_names()[j]).0),
    ensures
        named_libraries(x + library_names()[k].0 + y) == x + library_names()[k].1 + y,
{
    reveal_strlit("boost::asio::basic_stream_socket<boost::asio::ip::tcp,boost::asio::stream_socket_service<boost::asio::ip::tcp> >");
    reveal_strlit("boost::asio::ip::basic_endpoint<boost::asio::ip::tcp>");
    reveal_strlit("boost::asio::ip::basic_resolver<boost::asio::ip::tcp,boost::asio::ip::resolver_service<boost::asio::ip::tcp> >");
    reveal_strlit("boost::asio::ip::basic_resolver_iterator<boost::asio::ip::tcp>");
    reveal_strlit("boost::asio::ip::basic_resolver_query<boost::asio::ip::tcp>");
    reveal_strlit("boost::asio::basic_datagram_socket<boost::asio::ip::udp,boost::asio::datagram_socket_service<boost::asio::ip::udp> >");
    reveal_strlit("boost::asio::ip::basic_endpoint<boost::asio::ip::udp>");
    reveal_strlit("boost::asio::basic_streambuf<std::allocator<char> >");
    reveal_strlit("boost::noncopyable_::noncopyable");
    reveal_strlit("std::basic_string<char,std::char_traits<char>,std::allocator<char> >");
    reveal_strlit("std::basic_ostream<char,std::char_traits<char> >");
    reveal_strlit("std::basic_istream<char,std::char_traits<char> >");
    assert("boost::asio::basic_stream_socket<boost::asio::ip::tcp,boost::asio::stream_socket_service<boost::asio::ip::tcp> >"@.len() > 0);
    assert("boost::asio::ip::basic_endpoint<boost::asio::ip::tcp>"@.len() > 0);
    assert("boost::asio::ip::basic_resolver<boost::asio::ip::tcp,boost::asio::ip::resolver_service<boost::asio::ip::tcp> >"@.len() > 0);
    assert("boost::asio::ip::basic_resolver_iterator<boost::asio::ip::tcp>"@.len() > 0);
    assert("boost::asio::ip::basic_resolver_query<boost::asio::ip::tcp>"@.len() > 0);
    assert("boost::asio::basic_datagram_socket<boost::asio::ip::udp,boost::asio::datagram_socket_service<boost::asio::ip::udp> >"@.len() > 0);
    assert("boost::asio::ip::basic_endpoint<boost::asio::ip::udp>"@.len() > 0);
    assert("boost::asio::basic_streambuf<std::allocator<char> >"@.len() > 0);
    assert("boost::noncopyable_::noncopyable"@.len() > 0);
    assert("std::basic_string<char,std::char_traits<char>,std::allocator<char> >"@.len() > 0);
    assert("std::basic_ostream<char,std::char_traits<char> >"@.len() > 0);
    assert("std::basic_istream<char,std::char_traits<char> >"@.len() > 0);
    let t = library_names();
    assert(t[k].0.len() > 0);
    lemma_libraries(x + t[k].0 + y);
    lemma_only_one_is_exchanged(x, y, t, k, 12);
}

/// Where of the calling conventions and types of the engine that are exchanged
/// only one stands in a text, and once, that one is exchanged and nothing else changes.
pub proof fn lemma_engine_are_exchanged(x: Seq<char>, y: Seq<char>, k: int)
    requires
        0 <= k < 6,
        stands_once(x + engine_names()[k].0 + y, engine_names()[k].0, x.len() as int),
        forall|j: int|
            0 <= j < k ==> !contains(x + engine_names()[k].0 + y, (#[trigger] engine_names()[j]).0),
        forall|j: int|
            k < j < 6 ==> !contains(x + engine_names()[k].1 + y, (#[trigger] engine_names()[j]).0),
    ensures
        named_engine_types(x + engine_names()[k].0 + y) == x + engine_names()[k].1 + y,
{
    reveal_strlit(" __cdecl(void)");
    reveal_strlit(" __cdecl");
    reveal_strlit("vostok::math::float2");
    reveal_strlit("vostok::math::float3");
    reveal_strlit("vostok::math::float4");
    reveal_strlit("vostok::math::float4x4");
    assert(" __cdecl(void)"@.len() > 0);
    assert(" __cdecl"@.len() > 0);
    assert("vostok::math::float2"@.len() > 0);
    assert("vostok::math::float3"@.len() > 0);
    assert("vostok::math::float4"@.len() > 0);
    assert("vostok::math::float4x4"@.len() > 0);
    let t = engine_names();
    assert(t[k].0.len() > 0);
    lemma_engine(x + t[k].0 + y);
    lemma_only_one_is_exchanged(x, y, t, k, 6);
}

/// Where of the spaces around brackets, commas and pointers that are exchanged
/// only one stands in a text, and once, that one is exchanged and nothing else changes.
pub proof fn lemma_spacings_are_exchanged(x: Seq<char>, y: Seq<char>, k: int)
    requires
        0 <= k < 10,
        stands_once(x + spacings()[k].0 + y, spacings()[k].0, x.len() as int),
        forall|j: int|
            0 <= j < k ==> !contains(x + spacings()[k].0 + y, (#[trigger] spacings()[j]).0),
        forall|j: int|
            k < j < 10 ==> !contains(x + spacings()[k].1 + y, (#[trigger] spacings()[j]).0),
    ensures
        spaced(x + spacings()[k].0 + y) == x + spacings()[k].1 + y,
{
    reveal_strlit(", ");
    reveal_strlit(",");
    reveal_strlit("<");
    reveal_strlit(" >");
    reveal_strlit(">");
    reveal_strlit(" &");
    reveal_strlit(" *");
    reveal_strlit("(");
    reveal_strlit(")");
    reveal_strlit("(  )");
    assert(", "@.len() > 0);
    assert(","@.len() > 0);
    assert("<"@.len() > 0);
    assert(" >"@.len() > 0);
    assert(">"@.len() > 0);
    assert(" &"@.len() > 0);
    assert(" *"@.len() > 0);
    assert("("@.len() > 0);
    assert(")"@.len() > 0);
    assert("(  )"@.len() > 0);
    let t = spacings();
    assert(t[k].0.len() > 0);
    lemma_spacings(x + t[k].0 + y);
    lemma_only_one_is_exchanged(x, y, t, k, 10);
}

/// A name inside a namespace is written without the namespace; inside the game's also
/// without that of the engine.
pub proof fn lemma_namespace_is_left_out(
    ty: Seq<char>,
    r: Seq<char>,
    x: Seq<char>,
    y: Seq<char>,
)
    requires
        source_name(ty) == x + (r + "::"@) + y,
        stands_once(x + (r + "::"@) + y, r + "::"@, x.len() as int),
    ensures
        r != "survarium"@ ==> name_within(
            ty,
            NamespaceModel { root: Some(r), class: None, subclass: None },
        ) == x + y,
        r == "survarium"@ && !contains(x + y, "vostok::"@) ==> name_within(
            ty,
            NamespaceModel { root: Some(r), class: None, subclass: None },
        ) == x + y,
{
    reveal_strlit("::");
    reveal_strlit("");
    let p = r + "::"@;
    lemma_one_is_exchanged(x, p, y, ""@);
    assert(x + ""@ + y =~= x + y);
    if r == "survarium"@ && !contains(x + y, "vostok::"@) {
        lemma_nothing_to_exchange(x + y, "vostok::"@, ""@);
    }
}

/// Inside the game's namespace the engine's is left out, wherever it stands once.
pub proof fn lemma_engine_is_left_out_in_the_game(ty: Seq<char>, x: Seq<char>, y: Seq<char>)
    requires
        source_name(ty) == x + "vostok::"@ + y,
        stands_once(x + "vostok::"@ + y, "vostok::"@, x.len() as int),
        !contains(x + "vostok::"@ + y, "survarium"@ + "::"@),
    ensures
        name_within(
            ty,
            NamespaceModel { root: Some("survarium"@), class: None, subclass: None },
        ) == x + y,
{
    reveal_strlit("vostok::");
    reveal_strlit("");
    lemma_nothing_to_exchange(x + "vostok::"@ + y, "survarium"@ + "::"@, ""@);
    lemma_one_is_exchanged(x, "vostok::"@, y, ""@);
    assert(x + ""@ + y =~= x + y);
}

} // verus!
