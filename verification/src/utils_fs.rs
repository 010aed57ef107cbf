//! Names for files whose name is taken.

use crate::field_attributes::lemma_number_of_dec;
use crate::number::{dec, decimal};
use crate::pieces::cat4;
use crate::search::head_of;
use crate::text::{byte_len, char_index, chars_before, chars_of, lemma_char_index, len_bytes};
use vstd::prelude::*;

verus! {

/// Whether the extension's bytes can be cut off a path.
pub open spec fn can_be_numbered(path: Seq<char>, extension: Seq<char>) -> bool {
    byte_len(extension) <= byte_len(path) && char_index(path, byte_len(path) - byte_len(extension))
        is Some
}

/// A path with a number before its extension.
pub open spec fn numbered(path: Seq<char>, n: nat, extension: Seq<char>) -> Seq<char> {
    path.take(char_index(path, byte_len(path) - byte_len(extension))->0) + "_"@ + dec(n)
        + extension
}

/// The path that is tried when `n` others were taken: the path itself, and then the path
/// with a number.
pub open spec fn candidate(path: Seq<char>, n: nat, extension: Seq<char>) -> Seq<char> {
    if n == 0 {
        path
    } else {
        numbered(path, n, extension)
    }
}

/// A path with a number before its extension.
pub fn append_to_name(path: &str, n: u64, extension: &str) -> (r: String)
    requires
        can_be_numbered(path@, extension@),
    ensures
        r@ == numbered(path@, n as nat, extension@),
{
    let v: Vec<char> = chars_of(path);
    let cut: usize = len_bytes(path) - len_bytes(extension);
    let k: usize = match chars_before(&v, cut) {
        Some(k) => k,
        None => 0,
    };
    proof {
        lemma_char_index(path@, cut as int);
    }
    cat4(head_of(&v, k).as_str(), "_", decimal(n).as_str(), extension)
}

/// The path that is tried when `n` others were taken.
pub fn path_to_try(path: &str, n: u64, extension: &str) -> (r: String)
    requires
        can_be_numbered(path@, extension@),
    ensures
        r@ == candidate(path@, n as nat, extension@),
{
    if n == 0 {
        crate::text::owned(path)
    } else {
        append_to_name(path, n, extension)
    }
}

/// Whether the extension's bytes can be cut off a path.
pub fn can_append_to_name(path: &str, extension: &str) -> (r: bool)
    ensures
        r == can_be_numbered(path@, extension@),
{
    let all: usize = len_bytes(path);
    let ext: usize = len_bytes(extension);
    if ext > all {
        return false;
    }
    chars_before(&chars_of(path), all - ext).is_some()
}

/// No two numbers give the same name.
pub proof fn lemma_numbers_give_names(path: Seq<char>, a: nat, b: nat, extension: Seq<char>)
    requires
        can_be_numbered(path, extension),
        numbered(path, a, extension) == numbered(path, b, extension),
    ensures
        a == b,
{
    let k = char_index(path, byte_len(path) - byte_len(extension))->0;
    let head = path.take(k) + "_"@;
    let x = numbered(path, a, extension);
    let y = numbered(path, b, extension);
    assert(x.subrange(head.len() as int, x.len() - extension.len()) =~= dec(a));
    assert(y.subrange(head.len() as int, y.len() - extension.len()) =~= dec(b));
    lemma_number_of_dec(a);
    lemma_number_of_dec(b);
}

} // verus!
