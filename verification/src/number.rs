//! Numbers as text, and padding to a width in characters.

use vstd::prelude::*;
use vstd::string::StringExecFns;
use crate::text::{byte_len, chars_of, lemma_byte_len_concat, owned};

verus! {

/// The digit with value `d`, below sixteen.
pub open spec fn digit(d: int) -> char {
    if d < 10 {
        (48 + d) as char
    } else {
        (87 + d) as char
    }
}

/// The capital digit with value `d`, below sixteen.
pub open spec fn capital_digit(d: int) -> char {
    if d < 10 {
        (48 + d) as char
    } else {
        (55 + d) as char
    }
}

/// `n` in decimal.
pub open spec fn dec(n: nat) -> Seq<char>
    decreases n,
{
    if n < 10 {
        seq![digit(n as int)]
    } else {
        dec(n / 10).push(digit((n % 10) as int))
    }
}

/// `n` in hexadecimal, with small letters.
pub open spec fn hex(n: nat) -> Seq<char>
    decreases n,
{
    if n < 16 {
        seq![digit(n as int)]
    } else {
        hex(n / 16).push(digit((n % 16) as int))
    }
}

/// `n` in hexadecimal, with capital letters.
pub open spec fn hex_capital(n: nat) -> Seq<char>
    decreases n,
{
    if n < 16 {
        seq![capital_digit(n as int)]
    } else {
        hex_capital(n / 16).push(capital_digit((n % 16) as int))
    }
}

/// `n` in decimal, with a minus sign where it is negative.
pub open spec fn dec_int(n: int) -> Seq<char> {
    if n < 0 {
        "-"@ + dec((-n) as nat)
    } else {
        dec(n as nat)
    }
}

/// `n` times the character `c`.
pub open spec fn repeated(c: char, n: int) -> Seq<char> {
    Seq::new(
        if n > 0 {
            n as nat
        } else {
            0
        },
        |i: int| c,
    )
}

/// `s` with as many `c` before it as bring it to `w` characters.
pub open spec fn pad_front(s: Seq<char>, c: char, w: int) -> Seq<char> {
    repeated(c, w - s.len()) + s
}

/// `s` with as many `c` behind it as bring it to `w` characters.
pub open spec fn pad_back(s: Seq<char>, c: char, w: int) -> Seq<char> {
    s + repeated(c, w - s.len())
}

/// `s` between spaces that bring it to `w` characters, the odd one behind it.
pub open spec fn centered(s: Seq<char>, w: int) -> Seq<char> {
    repeated(' ', (w - s.len()) / 2) + s + repeated(' ', (w - s.len()) - (w - s.len()) / 2)
}

/// Sixteen to the power of `k`.
pub open spec fn pow16(k: nat) -> nat
    decreases k,
{
    if k == 0 {
        1
    } else {
        16 * pow16((k - 1) as nat)
    }
}

/// A number below sixteen to the power of `k` has at most `k` hexadecimal digits,
/// of one byte each.
pub proof fn lemma_hex_len(n: nat, k: nat)
    requires
        k >= 1,
        n < pow16(k),
    ensures
        1 <= hex(n).len() <= k,
        byte_len(hex(n)) == hex(n).len(),
    decreases k,
{
    if n < 16 {
        let s = seq![digit(n as int)];
        assert(hex(n) == s);
        assert(s.skip(1) =~= Seq::<char>::empty());
        assert(byte_len(s.skip(1)) == 0);
    } else {
        assert(pow16(k) == 16 * pow16((k - 1) as nat));
        assert(pow16(0) == 1);
        let m = n / 16;
        lemma_hex_len(m, (k - 1) as nat);
        let d = seq![digit((n % 16) as int)];
        assert(hex(m).push(d[0]) =~= hex(m) + d);
        lemma_byte_len_concat(hex(m), d);
        assert(d.skip(1) =~= Seq::<char>::empty());
        assert(byte_len(d.skip(1)) == 0);
    }
}

/// A 64-bit number has at most sixteen hexadecimal digits.
pub proof fn lemma_hex_len_u64(n: u64)
    ensures
        byte_len(hex(n as nat)) <= 16,
{
    assert(pow16(16) == 0x1_0000_0000_0000_0000) by {
        reveal_with_fuel(pow16, 17);
    }
    lemma_hex_len(n as nat, 16);
}

/// The digit with value `d`.
pub fn digit_char(d: u8) -> (c: char)
    requires
        d < 16,
    ensures
        c == digit(d as int),
{
    if d < 10 {
        (48 + d) as char
    } else {
        (87 + d) as char
    }
}

/// The capital digit with value `d`.
pub fn capital_digit_char(d: u8) -> (c: char)
    requires
        d < 16,
    ensures
        c == capital_digit(d as int),
{
    if d < 10 {
        (48 + d) as char
    } else {
        (55 + d) as char
    }
}

/// `n` in decimal.
pub fn decimal(n: u64) -> (r: String)
    ensures
        r@ == dec(n as nat),
    decreases n,
{
    let mut s: String = if n < 10 {
        String::new()
    } else {
        decimal(n / 10)
    };
    s.push(digit_char((n % 10) as u8));
    assert(n < 10 ==> s@ =~= dec(n as nat));
    s
}

/// `n` in hexadecimal, with small letters.
pub fn hexadecimal(n: u64) -> (r: String)
    ensures
        r@ == hex(n as nat),
    decreases n,
{
    let mut s: String = if n < 16 {
        String::new()
    } else {
        hexadecimal(n / 16)
    };
    s.push(digit_char((n % 16) as u8));
    assert(n < 16 ==> s@ =~= hex(n as nat));
    s
}

/// `n` in hexadecimal, with capital letters.
pub fn hexadecimal_capital(n: u64) -> (r: String)
    ensures
        r@ == hex_capital(n as nat),
    decreases n,
{
    let mut s: String = if n < 16 {
        String::new()
    } else {
        hexadecimal_capital(n / 16)
    };
    s.push(capital_digit_char((n % 16) as u8));
    assert(n < 16 ==> s@ =~= hex_capital(n as nat));
    s
}

/// `n` in decimal, with a minus sign where it is negative.
pub fn decimal_signed(n: i64) -> (r: String)
    ensures
        r@ == dec_int(n as int),
{
    if n < 0 {
        let mut s: String = owned("-");
        let m: u64 = (-(n as i128)) as u64;
        s.append(decimal(m).as_str());
        s
    } else {
        decimal(n as u64)
    }
}

/// Appends `n` times the character `c`.
pub fn push_repeated(out: &mut String, c: char, n: usize)
    ensures
        final(out)@ == old(out)@ + repeated(c, n as int),
{
    let mut i: usize = 0;
    let ghost start = out@;
    assert(start + repeated(c, 0) =~= start);
    while i < n
        invariant
            i <= n,
            out@ == start + repeated(c, i as int),
        decreases n - i,
    {
        out.push(c);
        assert((start + repeated(c, i as int)).push(c) =~= start + repeated(c, i + 1));
        i = i + 1;
    }
}

/// `n` times the character `c`.
pub fn repeat(c: char, n: usize) -> (r: String)
    ensures
        r@ == repeated(c, n as int),
{
    let mut s: String = String::new();
    push_repeated(&mut s, c, n);
    assert(s@ =~= repeated(c, n as int));
    s
}

/// How many characters are missing to `w`.
fn missing(s: &str, w: usize) -> (n: usize)
    ensures
        n == if w > s@.len() {
            w - s@.len()
        } else {
            0
        },
{
    let len: usize = chars_of(s).len();
    if w > len {
        w - len
    } else {
        0
    }
}

/// `s` with as many `c` before it as bring it to `w` characters.
pub fn padded_front(s: &str, c: char, w: usize) -> (r: String)
    ensures
        r@ == pad_front(s@, c, w as int),
{
    let mut out: String = repeat(c, missing(s, w));
    assert(out@ =~= repeated(c, w - s@.len()));
    out.append(s);
    out
}

/// `s` with as many `c` behind it as bring it to `w` characters.
pub fn padded_back(s: &str, c: char, w: usize) -> (r: String)
    ensures
        r@ == pad_back(s@, c, w as int),
{
    let mut out: String = owned(s);
    let n: usize = missing(s, w);
    assert(repeated(c, n as int) =~= repeated(c, w - s@.len()));
    push_repeated(&mut out, c, n);
    out
}

/// `s` between spaces that bring it to `w` characters, the odd one behind it.
pub fn padded_centered(s: &str, w: usize) -> (r: String)
    ensures
        r@ == centered(s@, w as int),
{
    let n: usize = missing(s, w);
    let mut out: String = repeat(' ', n / 2);
    assert(out@ =~= repeated(' ', (w - s@.len()) / 2));
    out.append(s);
    assert(repeated(' ', n - n / 2) =~= repeated(
        ' ',
        (w - s@.len()) - (w - s@.len()) / 2,
    ));
    push_repeated(&mut out, ' ', n - n / 2);
    out
}

} // verus!
