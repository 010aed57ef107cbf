//! Globally unique identifiers as numbers and as text.

use crate::number::digit;
use crate::text::{ascii_upper, is_ascii_text, same_ignoring_ascii_case, to_uppercase};
use vstd::prelude::*;

verus! {

/// The lowest `k` hexadecimal digits of a number, the highest first.
pub open spec fn hex_digits(x: nat, k: nat) -> Seq<char>
    decreases k,
{
    if k == 0 {
        Seq::empty()
    } else {
        hex_digits(x / 16, (k - 1) as nat).push(digit((x % 16) as int))
    }
}

/// 32 digits in groups of eight, four, four, four and twelve.
pub open spec fn grouped(d: Seq<char>) -> Seq<char> {
    d.subrange(0, 8) + seq!['-'] + d.subrange(8, 12) + seq!['-'] + d.subrange(12, 16) + seq!['-']
        + d.subrange(16, 20) + seq!['-'] + d.subrange(20, 32)
}

/// The text of an identifier, with small letters.
pub open spec fn hyphenated(x: u128) -> Seq<char> {
    grouped(hex_digits(x as nat, 32))
}

/// The text of an identifier, with capital letters.
pub open spec fn guid_text(x: u128) -> Seq<char> {
    hyphenated(x).map_values(|c: char| ascii_upper(c))
}

/// The value of a hexadecimal digit of either case.
pub open spec fn digit_value(c: char) -> Option<nat> {
    if '0' <= c && c <= '9' {
        Some((c as u32 - 48) as nat)
    } else if 'a' <= c && c <= 'f' {
        Some((c as u32 - 87) as nat)
    } else if 'A' <= c && c <= 'F' {
        Some((c as u32 - 55) as nat)
    } else {
        None
    }
}

/// The value of the first `n` characters as hexadecimal digits.
pub open spec fn hex_value(s: Seq<char>, n: int) -> Option<nat>
    decreases n,
{
    if n <= 0 {
        Some(0)
    } else {
        match (hex_value(s, n - 1), digit_value(s[n - 1])) {
            (Some(v), Some(d)) => Some(v * 16 + d),
            _ => None,
        }
    }
}

/// The value of digits in groups.
pub open spec fn grouped_value(s: Seq<char>) -> Option<nat> {
    if s.len() == 36 && s[8] == '-' && s[13] == '-' && s[18] == '-' && s[23] == '-' {
        hex_value(
            s.subrange(0, 8) + s.subrange(9, 13) + s.subrange(14, 18) + s.subrange(19, 23)
                + s.subrange(24, 36),
            32,
        )
    } else {
        None
    }
}

/// The identifier that a text stands for: 32 digits, or digits in groups, also in braces
/// or behind `urn:uuid:`.
pub open spec fn guid_value(s: Seq<char>) -> Option<nat> {
    if s.len() == 32 {
        hex_value(s, 32)
    } else if s.len() == 36 {
        grouped_value(s)
    } else if s.len() == 38 && s[0] == '{' && s[37] == '}' {
        grouped_value(s.subrange(1, 37))
    } else if s.len() == 45 && same_ignoring_ascii_case(s.take(9), "urn:uuid:"@) {
        grouped_value(s.skip(9))
    } else {
        None
    }
}

/// `Uuid::from_u128` and its `Display` form: 32 digits with small letters, in groups with
/// hyphens between them.
#[verifier::external_body]
fn hyphenated_text(x: u128) -> (r: String)
    ensures
        r@ == hyphenated(x),
{
    uuid::Uuid::from_u128(x).to_string()
}

/// `Uuid::parse_str`: the identifier in one of its forms, with letters of either case;
/// an error for every other text.
#[verifier::external_body]
pub(crate) fn parse_guid(s: &str) -> (r: Option<u128>)
    ensures
        match r {
            Some(x) => guid_value(s@) == Some(x as nat),
            None => guid_value(s@) is None,
        },
{
    match uuid::Uuid::parse_str(s) {
        Ok(u) => Some(u.as_u128()),
        Err(_) => None,
    }
}

/// Whether an identifier is marked as one that was drawn by chance: by the bits of its
/// version and of its variant.
pub open spec fn is_drawn(x: u128) -> bool {
    &&& (x / 0x1000_0000_0000_0000_0000) % 16 == 4
    &&& (x / 0x4000_0000_0000_0000) % 4 == 2
}

/// `Uuid::new_v4`: a number by chance, but for the bits that mark its version and its
/// variant.
#[verifier::external_body]
pub(crate) fn new_guid() -> (r: u128)
    ensures
        is_drawn(r),
{
    uuid::Uuid::new_v4().as_u128()
}

proof fn lemma_hex_digits(x: nat, k: nat)
    ensures
        hex_digits(x, k).len() == k,
        forall|i: int|
            0 <= i < k ==> exists|d: int|
                0 <= d < 16 && #[trigger] hex_digits(x, k)[i] == #[trigger] digit(d),
    decreases k,
{
    if k > 0 {
        let rest = hex_digits(x / 16, (k - 1) as nat);
        lemma_hex_digits(x / 16, (k - 1) as nat);
        let all = hex_digits(x, k);
        assert forall|i: int| 0 <= i < k implies exists|d: int|
            0 <= d < 16 && #[trigger] all[i] == #[trigger] digit(d) by {
            if i < k - 1 {
                assert(all[i] == rest[i]);
            } else {
                assert(all[i] == digit((x % 16) as int));
            }
        }
    }
}

/// Capitals keep the value of a digit, and are neither breaks nor brackets.
proof fn lemma_capital(d: int)
    requires
        0 <= d < 16,
    ensures
        digit_value(ascii_upper(digit(d))) == Some(d as nat),
        (digit(d) as u32) < 128,
        ascii_upper(digit(d)) != '{',
        ascii_upper(digit(d)) != '}',
        ascii_upper(digit(d)) != '\n',
{
    if d < 10 {
        assert(digit(d) as u32 == 48 + d);
    } else {
        assert(digit(d) as u32 == 87 + d);
        assert(ascii_upper(digit(d)) as u32 == 55 + d);
    }
}

proof fn lemma_hex_value(x: nat, s: Seq<char>, k: nat, limit: nat)
    requires
        s.len() >= k,
        x < limit,
        limit == crate::number::pow16(k),
        forall|i: int| 0 <= i < k ==> s[i] == ascii_upper(#[trigger] hex_digits(x, k)[i]),
    ensures
        hex_value(s, k as int) == Some(x),
    decreases k,
{
    if k > 0 {
        let j = (k - 1) as nat;
        let rest = hex_digits(x / 16, j);
        let all = hex_digits(x, k);
        lemma_hex_digits(x / 16, j);
        lemma_hex_digits(x, k);
        assert forall|i: int| 0 <= i < j implies s[i] == ascii_upper(#[trigger] rest[i]) by {
            assert(all[i] == rest[i]);
        }
        let below = crate::number::pow16(j);
        assert(limit == 16 * below);
        assert(x / 16 < below) by (nonlinear_arith)
            requires
                x < 16 * below,
        ;
        lemma_hex_value(x / 16, s, j, below);
        assert(all[k - 1] == digit((x % 16) as int));
        lemma_capital((x % 16) as int);
    }
}

/// The capital text of an identifier stands for it, and holds neither braces nor line
/// breaks.
pub proof fn lemma_guid_text(x: u128)
    ensures
        guid_value(guid_text(x)) == Some(x as nat),
        guid_text(x).len() == 36,
        is_ascii_text(hyphenated(x)),
        forall|i: int|
            0 <= i < 36 ==> #[trigger] guid_text(x)[i] != '{' && guid_text(x)[i] != '}'
                && guid_text(x)[i] != '\n',
{
    let d = hex_digits(x as nat, 32);
    lemma_hex_digits(x as nat, 32);
    let h = hyphenated(x);
    let g = guid_text(x);
    assert(h.len() == 36);
    assert(g.len() == 36);
    let back = g.subrange(0, 8) + g.subrange(9, 13) + g.subrange(14, 18) + g.subrange(19, 23)
        + g.subrange(24, 36);
    assert forall|i: int| 0 <= i < 32 implies back[i] == ascii_upper(#[trigger] d[i]) by {
        let k = i + if i < 8 {
            0int
        } else if i < 12 {
            1
        } else if i < 16 {
            2
        } else if i < 20 {
            3
        } else {
            4
        };
        assert(back[i] == g[k]);
        assert(h[k] == d[i]);
    }
    assert(h[8] == '-' && h[13] == '-' && h[18] == '-' && h[23] == '-');
    assert forall|i: int| 0 <= i < 36 implies (#[trigger] h[i] as u32) < 128 && g[i] != '{' && g[i]
        != '}' && g[i] != '\n' by {
        if i == 8 || i == 13 || i == 18 || i == 23 {
        } else {
            let j = if i < 8 {
                i
            } else if i < 13 {
                i - 1
            } else if i < 18 {
                i - 2
            } else if i < 23 {
                i - 3
            } else {
                i - 4
            };
            assert(h[i] == d[j]);
            let v = choose|v: int| 0 <= v < 16 && d[j] == #[trigger] digit(v);
            lemma_capital(v);
        }
    }
    assert(crate::number::pow16(32) == 0x1_0000_0000_0000_0000_0000_0000_0000_0000) by {
        reveal_with_fuel(crate::number::pow16, 33);
    }
    lemma_hex_value(x as nat, back, 32, crate::number::pow16(32));
    assert forall|i: int| 0 <= i < 36 implies #[trigger] g[i] != '{' && g[i] != '}' && g[i]
        != '\n' by {
        assert((h[i] as u32) < 128);
    }
}

/// The text of an identifier, with capital letters.
pub fn guid_upper(x: u128) -> (r: String)
    ensures
        r@ == guid_text(x),
{
    proof {
        lemma_guid_text(x);
    }
    to_uppercase(hyphenated_text(x).as_str())
}

} // verus!
