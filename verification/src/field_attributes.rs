//! The attributes of the members of a class, packed into a word.

use crate::function_type::{Attributes, FunctionType, FunctionTypeModel};
use crate::number::{dec, digit, hex, hexadecimal};
use crate::pieces::{cat13, cat2};
use crate::text::{chars_of, owned, texts};
use crate::topology_text::{bool_text, show_bool};
use vstd::prelude::*;

verus! {

/// Who may use a member.
#[derive(Clone, Copy, PartialEq, Eq, Debug, Structural)]
pub enum Access {
    Private,
    Protected,
    Public,
    Unspecified,
}

impl Access {
    /// The access in words.
    pub open spec fn name(self) -> Seq<char> {
        match self {
            Access::Private => "private"@,
            Access::Protected => "protected"@,
            Access::Public => "public"@,
            Access::Unspecified => "unspecified"@,
        }
    }

    /// The access in words.
    pub fn label(self) -> (r: &'static str)
        ensures
            r@ == self.name(),
    {
        match self {
            Access::Private => "private",
            Access::Protected => "protected",
            Access::Public => "public",
            Access::Unspecified => "unspecified",
        }
    }
}

/// The attributes of a member.
#[derive(Clone, Copy, PartialEq, Eq, Debug, Structural)]
pub struct MyFieldAttributes(pub u16);

/// What follows the name of the type when attributes are shown for debugging.
pub open spec fn debug_text(n: u16) -> Seq<char> {
    "FieldAttributes("@ + dec(n as nat) + ")"@
}

/// The number that some digits spell.
pub open spec fn number_of(s: Seq<char>) -> int
    decreases s.len(),
{
    if s.len() == 0 {
        0
    } else {
        10 * number_of(s.drop_last()) + (s.last() as int - 48)
    }
}

/// The digits of a number spell the number.
pub proof fn lemma_number_of_dec(n: nat)
    ensures
        number_of(dec(n)) == n,
        dec(n).len() >= 1,
        forall|i: int| 0 <= i < dec(n).len() ==> '0' <= #[trigger] dec(n)[i] && dec(n)[i] <= '9',
    decreases n,
{
    if n < 10 {
        let s = seq![digit(n as int)];
        assert(dec(n) == s);
        assert(s.drop_last() =~= Seq::<char>::empty());
        assert(number_of(s.drop_last()) == 0);
    } else {
        lemma_number_of_dec(n / 10);
        let s = dec(n / 10).push(digit((n % 10) as int));
        assert(dec(n) == s);
        assert(s.drop_last() =~= dec(n / 10));
    }
}

/// The beginning of some digits spells no more than all of them.
pub proof fn lemma_number_of_prefix(s: Seq<char>, n: int)
    requires
        0 <= n <= s.len(),
        forall|i: int| 0 <= i < s.len() ==> '0' <= #[trigger] s[i] && s[i] <= '9',
    ensures
        0 <= number_of(s.take(n)) <= number_of(s),
    decreases s.len(), n,
{
    if s.len() == 0 {
        assert(s.take(n) =~= s);
    } else if n == s.len() {
        assert(s.take(n) =~= s);
        let init = s.drop_last();
        assert forall|i: int| 0 <= i < init.len() implies '0' <= #[trigger] init[i] && init[i]
            <= '9' by {
            assert(init[i] == s[i]);
        }
        lemma_number_of_prefix(init, init.len() as int);
        assert(init.take(init.len() as int) =~= init);
        assert('0' <= s[s.len() - 1]);
    } else {
        let init = s.drop_last();
        assert forall|i: int| 0 <= i < init.len() implies '0' <= #[trigger] init[i] && init[i]
            <= '9' by {
            assert(init[i] == s[i]);
        }
        lemma_number_of_prefix(init, n);
        assert(init.take(n) =~= s.take(n));
        assert('0' <= s[s.len() - 1]);
    }
}

impl MyFieldAttributes {
    /// The attributes out of their text for debugging, which alone shows them whole.
    pub fn extract(val: &str) -> (r: MyFieldAttributes)
        requires
            exists|n: u16| val@ == debug_text(n),
        ensures
            val@ == debug_text(r.0),
    {
        let v: Vec<char> = chars_of(val);
        let ghost n: u16 = choose|n: u16| val@ == debug_text(n);
        proof {
            reveal_strlit("FieldAttributes(");
            reveal_strlit(")");
            lemma_number_of_dec(n as nat);
        }
        let start: usize = 16;
        let end: usize = v.len() - 1;
        let ghost d = dec(n as nat);
        assert(forall|k: int| 0 <= k < d.len() ==> v@[16 + k] == d[k]);
        let mut i: usize = start;
        let mut value: u32 = 0;
        assert(d.take(0) =~= Seq::<char>::empty());
        while i < end
            invariant
                start == 16,
                end == 16 + d.len(),
                end < v@.len(),
                start <= i <= end,
                d == dec(n as nat),
                forall|k: int| 0 <= k < d.len() ==> v@[16 + k] == d[k],
                forall|k: int| 0 <= k < d.len() ==> '0' <= #[trigger] d[k] && d[k] <= '9',
                number_of(d) == n,
                value == number_of(d.take(i - 16)),
                value <= n,
            decreases end - i,
        {
            let c: char = v[i];
            proof {
                assert(d[i - 16] == c);
                assert(d.take(i - 16 + 1).drop_last() =~= d.take(i - 16));
                assert(d.take(i - 16 + 1).last() == c);
                lemma_number_of_prefix(d, i - 16 + 1);
            }
            value = value * 10 + (c as u32 - 48);
            i = i + 1;
        }
        assert(d.take(d.len() as int) =~= d);
        MyFieldAttributes(value as u16)
    }

    /// Who may use the member, as a number.
    pub open spec fn access_bits(self) -> u8 {
        (self.0 & 0x0003) as u8
    }

    /// What kind of method the member is.
    pub open spec fn method_kind(self) -> u8 {
        ((self.0 & 0x001c) >> 2) as u8
    }

    /// Who may use the member.
    pub open spec fn access_of(self) -> Access {
        if self.access_bits() == 1 {
            Access::Private
        } else if self.access_bits() == 2 {
            Access::Protected
        } else if self.access_bits() == 3 {
            Access::Public
        } else {
            Access::Unspecified
        }
    }

    /// Who may use the member.
    pub fn access(self) -> (r: Access)
        ensures
            r == self.access_of(),
    {
        let bits: u8 = (self.0 & 0x0003) as u8;
        if bits == 1 {
            Access::Private
        } else if bits == 2 {
            Access::Protected
        } else if bits == 3 {
            Access::Public
        } else {
            Access::Unspecified
        }
    }

    fn method_properties(self) -> (r: u8)
        ensures
            r == self.method_kind(),
    {
        ((self.0 & 0x001c) >> 2) as u8
    }

    /// Whether a virtual method has no body.
    pub fn is_pure(self) -> (r: bool)
        ensures
            r == (self.method_kind() == 5 || self.method_kind() == 6),
    {
        let k: u8 = self.method_properties();
        k == 5 || k == 6
    }

    /// Whether a method is virtual, introduced here or not.
    pub fn is_virtual(self) -> (r: bool)
        ensures
            r == (self.method_kind() == 1 || self.method_kind() == 4 || self.method_kind() == 5
                || self.method_kind() == 6),
    {
        let k: u8 = self.method_properties();
        k == 1 || k == 4 || k == 5 || k == 6
    }

    /// Whether a method belongs to no object.
    pub fn is_static(self) -> (r: bool)
        ensures
            r == (self.method_kind() == 2),
    {
        self.method_properties() == 2
    }

    /// Whether a method overrides one of a base class.
    pub fn is_override(self) -> (r: bool)
        ensures
            r == (self.method_kind() == 1 || self.method_kind() == 5),
    {
        let k: u8 = self.method_properties();
        k == 1 || k == 5
    }

    /// Whether a method cannot be overridden.
    pub fn is_final(self) -> (r: bool)
        ensures
            r == (self.0 & 0x0200 != 0),
    {
        self.0 & 0x0200 != 0
    }

    /// What is said of a member, a label for each attribute that it has.
    pub open spec fn label_texts(self) -> Seq<Seq<char>> {
        let none = Seq::<Seq<char>>::empty();
        let a = with_label(none, self.method_kind() == 2, "static"@);
        let b = with_label(a, self.method_kind() == 1, "virtual"@);
        let c = with_label(b, self.method_kind() == 5, "pure-virtual"@);
        let d = with_label(
            c,
            self.method_kind() == 4 || self.method_kind() == 6,
            "introducing-virtual"@,
        );
        let e = with_label(d, self.0 & 0x0020 != 0, "pseudo"@);
        let f = with_label(e, self.0 & 0x0040 != 0, "no-inherit"@);
        let g = with_label(f, self.0 & 0x0080 != 0, "no-construct"@);
        let h = with_label(g, self.0 & 0x0100 != 0, "compiler-generated"@);
        with_label(h, self.0 & 0x0200 != 0, "sealed"@)
    }

    /// A label for each attribute that a member has.
    pub fn labels(self) -> (r: Vec<String>)
        ensures
            texts(r@) == self.label_texts(),
    {
        let k: u8 = self.method_properties();
        let mut v: Vec<String> = Vec::new();
        assert(texts(v@) =~= Seq::<Seq<char>>::empty());
        add_label(&mut v, k == 2, "static");
        add_label(&mut v, k == 1, "virtual");
        add_label(&mut v, k == 5, "pure-virtual");
        add_label(&mut v, k == 4 || k == 6, "introducing-virtual");
        add_label(&mut v, self.0 & 0x0020 != 0, "pseudo");
        add_label(&mut v, self.0 & 0x0040 != 0, "no-inherit");
        add_label(&mut v, self.0 & 0x0080 != 0, "no-construct");
        add_label(&mut v, self.0 & 0x0100 != 0, "compiler-generated");
        add_label(&mut v, self.0 & 0x0200 != 0, "sealed");
        v
    }

    /// The attributes but for the access, as a number.
    pub open spec fn comparable_text(self) -> Seq<char> {
        "0x"@ + hex((self.0 & 0xfffc) as nat)
    }

    /// The attributes but for the access, as a number.
    pub fn comparable(self) -> (r: String)
        ensures
            r@ == self.comparable_text(),
    {
        cat2("0x", hexadecimal((self.0 & 0xfffc) as u64).as_str())
    }

    /// What is said of a method in a list of declarations.
    pub open spec fn method_text(self) -> Seq<char> {
        "access="@ + (match self.access_of() {
            Access::Unspecified => "none"@,
            a => a.name(),
        }) + " static="@ + bool_text(self.method_kind() == 2) + " virtual="@ + bool_text(
            self.method_kind() == 1,
        ) + " pure="@ + bool_text(self.method_kind() == 5) + " intro="@ + bool_text(
            self.method_kind() == 4 || self.method_kind() == 6,
        ) + " compiler_generated="@ + bool_text(self.0 & 0x0100 != 0) + (" sealed="@ + bool_text(
            self.0 & 0x0200 != 0,
        ))
    }

    /// What is said of a method in a list of declarations.
    pub fn describe_method(self) -> (r: String)
        ensures
            r@ == self.method_text(),
    {
        let k: u8 = self.method_properties();
        let access: &str = match self.access() {
            Access::Unspecified => "none",
            a => a.label(),
        };
        let sealed: String = cat2(" sealed=", show_bool(self.0 & 0x0200 != 0));
        cat13(
            "access=",
            access,
            " static=",
            show_bool(k == 2),
            " virtual=",
            show_bool(k == 1),
            " pure=",
            show_bool(k == 5),
            " intro=",
            show_bool(k == 4 || k == 6),
            " compiler_generated=",
            show_bool(self.0 & 0x0100 != 0),
            sealed.as_str(),
        )
    }
}

/// A list of labels with one more where it applies.
pub open spec fn with_label(v: Seq<Seq<char>>, applies: bool, label: Seq<char>) -> Seq<Seq<char>> {
    if applies {
        v.push(label)
    } else {
        v
    }
}

fn add_label(v: &mut Vec<String>, applies: bool, label: &str)
    ensures
        texts(final(v)@) == with_label(texts(old(v)@), applies, label@),
{
    if applies {
        let s: String = owned(label);
        let ghost before = v@;
        v.push(s);
        assert(texts(v@) =~= texts(before).push(label@));
    }
}

/// The attributes that a class declares for a method. A method without a body in a
/// source file is inline, unless it is pure.
pub open spec fn with_declared(a: Attributes, m: MyFieldAttributes, found_body: bool) -> Attributes {
    let kind = m.method_kind();
    let pure = kind == 5 || kind == 6;
    Attributes {
        is_virtual: kind == 1 || kind == 4 || kind == 5 || kind == 6,
        is_override: kind == 1 || kind == 5,
        is_pure: pure,
        is_final: m.0 & 0x0200 != 0,
        is_inline: a.is_inline || (!pure && !found_body),
        ..a
    }
}

/// Sets the attributes that a class declares for a method.
pub fn set_method_attributes(fn_t: &mut FunctionType, attrs: MyFieldAttributes, found_body: bool)
    ensures
        final(fn_t)@ == (FunctionTypeModel {
            attrs: with_declared(old(fn_t).attrs, attrs, found_body),
            ..old(fn_t)@
        }),
{
    fn_t.attrs = Attributes {
        is_const: fn_t.attrs.is_const,
        is_static: fn_t.attrs.is_static,
        is_virtual: attrs.is_virtual(),
        is_override: attrs.is_override(),
        is_pure: attrs.is_pure(),
        is_final: attrs.is_final(),
        is_inline: fn_t.attrs.is_inline || (!attrs.is_pure() && !found_body),
    };
}

/// A pure method is virtual, and so is one that overrides another.
pub proof fn lemma_pure_is_virtual(a: Attributes, m: MyFieldAttributes, found_body: bool)
    ensures
        with_declared(a, m, found_body).is_pure ==> with_declared(a, m, found_body).is_virtual,
        with_declared(a, m, found_body).is_override ==> with_declared(a, m, found_body).is_virtual,
        with_declared(a, m, found_body).is_pure && !a.is_inline ==> !with_declared(
            a,
            m,
            found_body,
        ).is_inline,
{
}

} // verus!
