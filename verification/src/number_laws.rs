//! Numbers read back from their texts.

use crate::guid::{digit_value, hex_value};
use crate::number::{digit, hex, pad_front, repeated};
use crate::parts::only;
use vstd::prelude::*;

verus! {

/// The number that hexadecimal digits spell.
pub open spec fn hex_read(s: Seq<char>) -> Option<nat> {
    if s.len() == 0 {
        None
    } else {
        hex_value(s, s.len() as int)
    }
}

/// The number that a text spells: hexadecimal digits behind `0x`, with or without a sign
/// before it.
pub open spec fn signed_read(s: Seq<char>) -> Option<int> {
    if s.len() >= 3 && s[0] == '-' && s[1] == '0' && s[2] == 'x' {
        match hex_read(s.skip(3)) {
            Some(n) => Some(-(n as int)),
            None => None,
        }
    } else if s.len() >= 3 && s[0] == '+' && s[1] == '0' && s[2] == 'x' {
        match hex_read(s.skip(3)) {
            Some(n) => Some(n as int),
            None => None,
        }
    } else if s.len() >= 2 && s[0] == '0' && s[1] == 'x' {
        match hex_read(s.skip(2)) {
            Some(n) => Some(n as int),
            None => None,
        }
    } else {
        None
    }
}

proof fn lemma_hex_value_of_prefix(s: Seq<char>, c: char, n: int)
    requires
        0 <= n <= s.len(),
    ensures
        hex_value(s.push(c), n) == hex_value(s, n),
    decreases n,
{
    if n > 0 {
        lemma_hex_value_of_prefix(s, c, n - 1);
    }
}

/// A number is read back from its hexadecimal digits.
pub proof fn lemma_hex_is_read(n: nat)
    ensures
        hex_read(hex(n)) == Some(n),
        forall|i: int| 0 <= i < hex(n).len() ==> digit_value(#[trigger] hex(n)[i]) is Some,
    decreases n,
{
    reveal_with_fuel(hex_value, 2);
    if n < 16 {
        let s = seq![digit(n as int)];
        assert(hex(n) == s);
        assert(digit_value(s[0]) == Some(n));
        assert(hex_value(s, 1) == Some(n));
    } else {
        lemma_hex_is_read(n / 16);
        let h = hex(n / 16);
        let c = digit((n % 16) as int);
        assert(hex(n) == h.push(c));
        lemma_hex_value_of_prefix(h, c, h.len() as int);
        assert(digit_value(c) == Some(n % 16));
        assert(h.push(c)[h.len() as int] == c);
        assert(hex_value(h.push(c), h.len() as int + 1) == Some((n / 16) * 16 + n % 16));
    }
}

/// Numbers of one text are one number.
pub proof fn lemma_hex_tells_apart(a: nat, b: nat)
    requires
        hex(a) == hex(b),
    ensures
        a == b,
{
    lemma_hex_is_read(a);
    lemma_hex_is_read(b);
}

proof fn lemma_hex_value_behind_zeros(zeros: Seq<char>, s: Seq<char>, n: int)
    requires
        only(zeros, '0'),
        0 <= n <= s.len(),
    ensures
        hex_value(zeros + s, zeros.len() + n) == hex_value(s, n),
    decreases n + zeros.len(),
{
    let t = zeros + s;
    if n > 0 {
        lemma_hex_value_behind_zeros(zeros, s, n - 1);
        assert(t[zeros.len() + n - 1] == s[n - 1]);
    } else if zeros.len() > 0 {
        lemma_zeros_are_nothing(zeros, s, zeros.len() as int);
    }
}

proof fn lemma_zeros_are_nothing(zeros: Seq<char>, s: Seq<char>, n: int)
    requires
        only(zeros, '0'),
        0 <= n <= zeros.len(),
    ensures
        hex_value(zeros + s, n) == Some(0nat),
    decreases n,
{
    if n > 0 {
        lemma_zeros_are_nothing(zeros, s, n - 1);
        assert((zeros + s)[n - 1] == zeros[n - 1]);
        assert(digit_value('0') == Some(0nat));
    }
}

/// A number is read back from its hexadecimal digits with zeros before them.
pub proof fn lemma_padded_hex_is_read(n: nat, w: int)
    ensures
        hex_read(pad_front(hex(n), '0', w)) == Some(n),
        forall|i: int|
            0 <= i < pad_front(hex(n), '0', w).len() ==> digit_value(
                #[trigger] pad_front(hex(n), '0', w)[i],
            ) is Some,
{
    let zeros = repeated('0', w - hex(n).len());
    lemma_hex_is_read(n);
    lemma_hex_value_behind_zeros(zeros, hex(n), hex(n).len() as int);
    let s = pad_front(hex(n), '0', w);
    assert(s == zeros + hex(n));
    assert forall|i: int| 0 <= i < s.len() implies digit_value(#[trigger] s[i]) is Some by {
        if i < zeros.len() {
            assert(s[i] == zeros[i]);
        } else {
            assert(s[i] == hex(n)[i - zeros.len()]);
        }
    }
}

} // verus!
