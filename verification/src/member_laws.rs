//! What holds of the attributes of members, and of the declarations made of them.

use crate::declarations::{all_declarations, field_declares, fields_declare, free_row,
    lemma_declarations_are_complete, lemma_declarations_are_in_order, lists_declare,
    method_declares, method_row, procedures_declare, record_declares, records_declare, signature_of,
    DeclarationModel, FreeProcedure};
use crate::field_attributes::{with_declared, with_label, MyFieldAttributes};
use crate::function_type::{Attributes, FunctionTypeModel, ReturnModel};
use crate::header_build::resolved_at;
use crate::header_model::{Found, HeaderClass, HeaderField, HeaderRecord, HeaderTable};
use crate::number::hex;
use crate::number_laws::lemma_hex_tells_apart;
use crate::order::text_le;
use crate::parts::{around, holds, lemma_holds_itself, lemma_holds_piece, lemma_holds_within};
use crate::search::{contains, joined, joined_upto};
use vstd::prelude::*;

verus! {

// ---------------------------------------------------------------------------
// Attributes
// ---------------------------------------------------------------------------

proof fn lemma_bits(n: u16)
    ensures
        (n & 0x0003) as u8 == n % 4,
        ((n & 0x001c) >> 2) as u8 == (n / 4) % 8,
        (n & 0x0020 != 0) == ((n / 32) % 2 == 1),
        (n & 0x0040 != 0) == ((n / 64) % 2 == 1),
        (n & 0x0080 != 0) == ((n / 128) % 2 == 1),
        (n & 0x0100 != 0) == ((n / 256) % 2 == 1),
        (n & 0x0200 != 0) == ((n / 512) % 2 == 1),
        n & 0xfffc == (n / 4) * 4,
{
    assert((n & 0x0003) as u8 == n % 4 && ((n & 0x001c) >> 2) as u8 == (n / 4) % 8 && (n & 0x0020
        != 0) == ((n / 32) % 2 == 1) && (n & 0x0040 != 0) == ((n / 64) % 2 == 1) && (n & 0x0080
        != 0) == ((n / 128) % 2 == 1) && (n & 0x0100 != 0) == ((n / 256) % 2 == 1) && (n & 0x0200
        != 0) == ((n / 512) % 2 == 1) && n & 0xfffc == (n / 4) * 4) by (bit_vector);
}

/// Who may use a member stands in the two lowest bits of its attributes.
pub proof fn lemma_access_is_in_the_lowest_bits(m: MyFieldAttributes)
    ensures
        m.access_of() is Private <==> m.0 % 4 == 1,
        m.access_of() is Protected <==> m.0 % 4 == 2,
        m.access_of() is Public <==> m.0 % 4 == 3,
        m.access_of() is Unspecified <==> m.0 % 4 == 0,
{
    lemma_bits(m.0);
}

/// Of a method that does not introduce its name, the kind is one, or five where it is pure;
/// where it introduces it, four, or six where it is pure. These are the virtual ones. Whether
/// it is final stands in its own bit. A method is inline where it is said to be, and where it
/// has no body and could have one.
pub proof fn lemma_kinds_of_methods(a: Attributes, m: MyFieldAttributes, found_body: bool)
    ensures
        ({
            let k = (m.0 / 4) % 8;
            let d = with_declared(a, m, found_body);
            &&& d.is_virtual <==> k == 1 || k == 4 || k == 5 || k == 6
            &&& d.is_override <==> k == 1 || k == 5
            &&& d.is_pure <==> k == 5 || k == 6
            &&& d.is_final <==> (m.0 / 512) % 2 == 1
            &&& d.is_inline <==> a.is_inline || (k != 5 && k != 6 && !found_body)
            &&& d.is_static == a.is_static
            &&& d.is_const == a.is_const
        }),
{
    lemma_bits(m.0);
}

proof fn lemma_with_label(v: Seq<Seq<char>>, applies: bool, label: Seq<char>, x: Seq<char>)
    ensures
        with_label(v, applies, label).contains(x) <==> v.contains(x) || (applies && label == x),
{
    let w = with_label(v, applies, label);
    if v.contains(x) {
        let i = v.index_of(x);
        assert(w[i] == x);
    }
    if applies && label == x {
        assert(w[v.len() as int] == x);
    }
    if w.contains(x) {
        let i = w.index_of(x);
        if i < v.len() {
            assert(v[i] == x);
        }
    }
}

proof fn lemma_holds_label(m: MyFieldAttributes, x: Seq<char>)
    ensures
        m.label_texts().contains(x) <==> {
            ||| m.method_kind() == 2 && x == "static"@
            ||| m.method_kind() == 1 && x == "virtual"@
            ||| m.method_kind() == 5 && x == "pure-virtual"@
            ||| (m.method_kind() == 4 || m.method_kind() == 6) && x == "introducing-virtual"@
            ||| m.0 & 0x0020 != 0 && x == "pseudo"@
            ||| m.0 & 0x0040 != 0 && x == "no-inherit"@
            ||| m.0 & 0x0080 != 0 && x == "no-construct"@
            ||| m.0 & 0x0100 != 0 && x == "compiler-generated"@
            ||| m.0 & 0x0200 != 0 && x == "sealed"@
        },
{
    let k = m.method_kind();
    let none = Seq::<Seq<char>>::empty();
    let a = with_label(none, k == 2, "static"@);
    let b = with_label(a, k == 1, "virtual"@);
    let c = with_label(b, k == 5, "pure-virtual"@);
    let d = with_label(c, k == 4 || k == 6, "introducing-virtual"@);
    let e = with_label(d, m.0 & 0x0020 != 0, "pseudo"@);
    let f = with_label(e, m.0 & 0x0040 != 0, "no-inherit"@);
    let g = with_label(f, m.0 & 0x0080 != 0, "no-construct"@);
    let h = with_label(g, m.0 & 0x0100 != 0, "compiler-generated"@);
    lemma_with_label(none, k == 2, "static"@, x);
    lemma_with_label(a, k == 1, "virtual"@, x);
    lemma_with_label(b, k == 5, "pure-virtual"@, x);
    lemma_with_label(c, k == 4 || k == 6, "introducing-virtual"@, x);
    lemma_with_label(d, m.0 & 0x0020 != 0, "pseudo"@, x);
    lemma_with_label(e, m.0 & 0x0040 != 0, "no-inherit"@, x);
    lemma_with_label(f, m.0 & 0x0080 != 0, "no-construct"@, x);
    lemma_with_label(g, m.0 & 0x0100 != 0, "compiler-generated"@, x);
    lemma_with_label(h, m.0 & 0x0200 != 0, "sealed"@, x);
}

proof fn lemma_labels_differ()
    ensures
        "static"@ != "virtual"@,
        "static"@ != "pure-virtual"@,
        "static"@ != "introducing-virtual"@,
        "static"@ != "pseudo"@,
        "static"@ != "no-inherit"@,
        "static"@ != "no-construct"@,
        "static"@ != "compiler-generated"@,
        "static"@ != "sealed"@,
        "virtual"@ != "pure-virtual"@,
        "virtual"@ != "introducing-virtual"@,
        "virtual"@ != "pseudo"@,
        "virtual"@ != "no-inherit"@,
        "virtual"@ != "no-construct"@,
        "virtual"@ != "compiler-generated"@,
        "virtual"@ != "sealed"@,
        "pure-virtual"@ != "introducing-virtual"@,
        "pure-virtual"@ != "pseudo"@,
        "pure-virtual"@ != "no-inherit"@,
        "pure-virtual"@ != "no-construct"@,
        "pure-virtual"@ != "compiler-generated"@,
        "pure-virtual"@ != "sealed"@,
        "introducing-virtual"@ != "pseudo"@,
        "introducing-virtual"@ != "no-inherit"@,
        "introducing-virtual"@ != "no-construct"@,
        "introducing-virtual"@ != "compiler-generated"@,
        "introducing-virtual"@ != "sealed"@,
        "pseudo"@ != "no-inherit"@,
        "pseudo"@ != "no-construct"@,
        "pseudo"@ != "compiler-generated"@,
        "pseudo"@ != "sealed"@,
        "no-inherit"@ != "no-construct"@,
        "no-inherit"@ != "compiler-generated"@,
        "no-inherit"@ != "sealed"@,
        "no-construct"@ != "compiler-generated"@,
        "no-construct"@ != "sealed"@,
        "compiler-generated"@ != "sealed"@,
{
    reveal_strlit("static");
    reveal_strlit("virtual");
    reveal_strlit("pure-virtual");
    reveal_strlit("introducing-virtual");
    reveal_strlit("pseudo");
    reveal_strlit("no-inherit");
    reveal_strlit("no-construct");
    reveal_strlit("compiler-generated");
    reveal_strlit("sealed");
    assert("static"@.len() == 6);
    assert("virtual"@.len() == 7);
    assert("pure-virtual"@.len() == 12);
    assert("introducing-virtual"@.len() == 19);
    assert("pseudo"@.len() == 6);
    assert("no-inherit"@.len() == 10);
    assert("no-construct"@.len() == 12);
    assert("compiler-generated"@.len() == 18);
    assert("sealed"@.len() == 6);
    assert("static"@[1] == 't' && "sealed"@[1] == 'e' && "pseudo"@[1] == 's');
    assert("pure-virtual"@[0] == 'p' && "no-construct"@[0] == 'n');
}

/// Each label is there exactly where its attribute is.
pub proof fn lemma_labels_tell(m: MyFieldAttributes)
    ensures
        ({
            let k = (m.0 / 4) % 8;
            let l = m.label_texts();
            &&& l.contains("static"@) <==> k == 2
            &&& l.contains("virtual"@) <==> k == 1
            &&& l.contains("pure-virtual"@) <==> k == 5
            &&& l.contains("introducing-virtual"@) <==> k == 4 || k == 6
            &&& l.contains("pseudo"@) <==> (m.0 / 32) % 2 == 1
            &&& l.contains("no-inherit"@) <==> (m.0 / 64) % 2 == 1
            &&& l.contains("no-construct"@) <==> (m.0 / 128) % 2 == 1
            &&& l.contains("compiler-generated"@) <==> (m.0 / 256) % 2 == 1
            &&& l.contains("sealed"@) <==> (m.0 / 512) % 2 == 1
        }),
{
    lemma_bits(m.0);
    lemma_labels_differ();
    lemma_holds_label(m, "static"@);
    lemma_holds_label(m, "virtual"@);
    lemma_holds_label(m, "pure-virtual"@);
    lemma_holds_label(m, "introducing-virtual"@);
    lemma_holds_label(m, "pseudo"@);
    lemma_holds_label(m, "no-inherit"@);
    lemma_holds_label(m, "no-construct"@);
    lemma_holds_label(m, "compiler-generated"@);
    lemma_holds_label(m, "sealed"@);
}

/// Two members are told apart by their attributes but for the access exactly where these
/// differ.
pub proof fn lemma_compared_attributes_leave_access_out(m: MyFieldAttributes, o: MyFieldAttributes)
    ensures
        m.comparable_text() == o.comparable_text() <==> m.0 / 4 == o.0 / 4,
{
    lemma_bits(m.0);
    lemma_bits(o.0);
    if m.comparable_text() == o.comparable_text() {
        let a = hex((m.0 & 0xfffc) as nat);
        let b = hex((o.0 & 0xfffc) as nat);
        assert(a =~= m.comparable_text().skip("0x"@.len() as int));
        assert(b =~= o.comparable_text().skip("0x"@.len() as int));
        lemma_hex_tells_apart((m.0 & 0xfffc) as nat, (o.0 & 0xfffc) as nat);
    }
}

// ---------------------------------------------------------------------------
// Declarations
// ---------------------------------------------------------------------------

/// A method is declared under its class and its name, with the access, the kind and the
/// constness that its class and its type give it.
pub proof fn lemma_method_is_declared(
    class_name: Seq<char>,
    f: FunctionTypeModel,
    m: MyFieldAttributes,
)
    ensures
        ({
            let k = (m.0 / 4) % 8;
            let d = method_row(class_name, f, m);
            &&& d.class == Some(class_name) && d.name == f.name
            &&& d.access is Private <==> m.0 % 4 == 1
            &&& d.access is Protected <==> m.0 % 4 == 2
            &&& d.access is Public <==> m.0 % 4 == 3
            &&& d.is_virtual <==> k == 1 || k == 4 || k == 5 || k == 6
            &&& d.is_static <==> k == 2 || f.attrs.is_static
            &&& d.is_const <==> f.attrs.is_const
            &&& d.kind is Method
        }),
{
    lemma_bits(m.0);
}

proof fn lemma_joined_upto_holds(v: Seq<Seq<char>>, sep: Seq<char>, n: int, i: int)
    requires
        0 <= i < n <= v.len(),
    ensures
        holds(joined_upto(v, sep, n), v[i]),
    decreases n,
{
    if n == 1 {
        lemma_holds_itself(v[0]);
    } else if i == n - 1 {
        lemma_holds_piece(joined_upto(v, sep, n - 1) + sep, v[i], Seq::empty());
    } else {
        let before = joined_upto(v, sep, n - 1);
        lemma_joined_upto_holds(v, sep, n - 1, i);
        assert(before + sep + v[n - 1] =~= before + (sep + v[n - 1]));
        lemma_holds_within(Seq::empty(), before, sep + v[n - 1], v[i]);
    }
}

/// A signature begins with the type that is returned, where there is one, and names the type
/// of every argument.
pub proof fn lemma_signature_names_all_types(f: FunctionTypeModel)
    ensures
        f.return_type matches ReturnModel::Type(ty) ==> exists|rest: Seq<char>| #[trigger]
            (ty + rest) == signature_of(f),
        forall|i: int|
            0 <= i < f.arg_types.len() ==> holds(signature_of(f), #[trigger] f.arg_types[i]),
        f.arg_types.len() == 0 ==> holds(signature_of(f), "()"@),
        signature_of(f).len() > 0 && signature_of(f).last() == ')',
{
    reveal_strlit("(");
    reveal_strlit(" (");
    reveal_strlit(")");
    reveal_strlit("()");
    let args = joined(f.arg_types, ", "@);
    match f.return_type {
        ReturnModel::Type(ty) => {
            let rest = " ("@ + args + ")"@;
            assert(ty + rest =~= signature_of(f));
        },
        _ => {},
    }
    assert forall|i: int| 0 <= i < f.arg_types.len() implies holds(
        signature_of(f),
        #[trigger] f.arg_types[i],
    ) by {
        lemma_joined_upto_holds(f.arg_types, ", "@, f.arg_types.len() as int, i);
        match f.return_type {
            ReturnModel::Type(ty) => {
                lemma_holds_within(ty + " ("@, args, ")"@, f.arg_types[i]);
            },
            _ => {
                lemma_holds_within("("@, args, ")"@, f.arg_types[i]);
            },
        }
    }
    if f.arg_types.len() == 0 {
        assert(args =~= Seq::<char>::empty());
        match f.return_type {
            ReturnModel::Type(ty) => {
                assert(signature_of(f) =~= around(ty + seq![' '], "()"@, Seq::empty()));
            },
            _ => {
                assert(signature_of(f) =~= around(Seq::empty(), "()"@, Seq::empty()));
            },
        }
    }
}

/// In the list of declarations the free functions stand first. Behind them the classes
/// follow by name, within a class the methods by name, and those of one name by signature.
pub proof fn lemma_declarations_stand_by_class_and_name(
    t: HeaderTable,
    procedures: Seq<FreeProcedure>,
    i: int,
    j: int,
)
    requires
        all_declarations(t, procedures) is Ok,
        0 <= i < j < all_declarations(t, procedures)->Ok_0.len(),
    ensures
        ({
            let a = all_declarations(t, procedures)->Ok_0[i];
            let b = all_declarations(t, procedures)->Ok_0[j];
            &&& a != b
            &&& a.class is None || b.class is Some
            &&& a.class is Some ==> text_le(a.class->0, b.class->0) || a.class == b.class
            &&& a.class == b.class ==> a.name == b.name || text_le(a.name, b.name)
            &&& a.class == b.class && a.name == b.name ==> a.signature == b.signature || text_le(
                a.signature,
                b.signature,
            )
        }),
{
    lemma_declarations_are_in_order(t, procedures);
}

/// A free function whose type is known is declared under its own name, as `static` where it
/// is local to its file. What the compiler made and what is no free function is not declared.
pub proof fn lemma_free_functions_are_declared(
    t: HeaderTable,
    procedures: Seq<FreeProcedure>,
    i: int,
)
    requires
        all_declarations(t, procedures) is Ok,
        0 <= i < procedures.len(),
    ensures
        ({
            let p = procedures[i];
            let rows = all_declarations(t, procedures)->Ok_0;
            &&& p.is_free && !contains(p.name@, "`"@) && p.parsed is Some ==> exists|
                k: int,
            |
                0 <= k < rows.len() && (#[trigger] rows[k]).class is None && rows[k].name
                    == p.name@ && rows[k].is_static == !p.global && rows[k].signature
                    == signature_of(p.parsed->0@) && rows[k].kind is Free && !rows[k].is_virtual
                    && rows[k].access is Unspecified
            &&& !p.is_free || contains(p.name@, "`"@) || p.parsed is None
                ==> free_row(p) is None
        }),
{
    let p = procedures[i];
    let rows = all_declarations(t, procedures)->Ok_0;
    if p.is_free && !contains(p.name@, "`"@) && p.parsed is Some {
        let x = free_row(p)->0;
        lemma_declarations_are_complete(t, procedures, x);
        assert(procedures_declare(procedures, procedures.len() as int, x));
        let k = rows.index_of(x);
        assert(rows[k] == x);
    }
}

/// No free function whose name holds a backquote is declared, and every free function that
/// is declared is one of the procedures.
pub proof fn lemma_declared_free_functions_exist(
    t: HeaderTable,
    procedures: Seq<FreeProcedure>,
    k: int,
)
    requires
        all_declarations(t, procedures) is Ok,
        0 <= k < all_declarations(t, procedures)->Ok_0.len(),
        all_declarations(t, procedures)->Ok_0[k].class is None,
    ensures
        exists|i: int|
            0 <= i < procedures.len() && (#[trigger] procedures[i]).is_free && procedures[i].name@
                == all_declarations(t, procedures)->Ok_0[k].name,
        !contains(all_declarations(t, procedures)->Ok_0[k].name, "`"@),
{
    let rows = all_declarations(t, procedures)->Ok_0;
    let x = rows[k];
    assert(rows.contains(x));
    lemma_declarations_are_complete(t, procedures, x);
    if records_declare(t, t.records@.len() as int, x) {
        let r = choose|i: int|
            0 <= i < t.records@.len() && record_declares(
                t,
                #[trigger] t.records@[i],
                x,
            );
        lemma_record_declares_methods(t, t.records@[r], x);
    }
}

proof fn lemma_record_declares_methods(
    t: HeaderTable,
    r: HeaderRecord,
    x: DeclarationModel,
)
    requires
        record_declares(t, r, x),
    ensures
        x.class is Some,
{
    if let HeaderRecord::Class(c) = r {
        lemma_lists_declare_methods(t, c, c.fields->0, x, t.records@.len());
    }
}

proof fn lemma_lists_declare_methods(
    t: HeaderTable,
    c: HeaderClass,
    list: u32,
    x: DeclarationModel,
    left: nat,
)
    requires
        lists_declare(t, c, list, x, left),
    ensures
        x.class == Some(c.name@),
    decreases left,
{
    if let Found::Record(HeaderRecord::FieldList { fields, continuation }) = t.at(list) {
        if fields_declare(t, c, fields@, fields@.len() as int, x) {
        } else {
            lemma_lists_declare_methods(t, c, continuation->0, x, (left - 1) as nat);
        }
    }
}

/// Every method of a class that is no forward reference is declared, where its type is known
/// and the compiler did not make it for itself.
pub proof fn lemma_methods_of_classes_are_declared(
    t: HeaderTable,
    procedures: Seq<FreeProcedure>,
    r: int,
    i: int,
)
    requires
        all_declarations(t, procedures) is Ok,
        0 <= r < t.records@.len(),
        t.records@[r] is Class,
        !t.records@[r]->Class_0.forward_reference,
        t.records@[r]->Class_0.fields is Some,
        t.at(t.records@[r]->Class_0.fields->0) matches Found::Record(
            HeaderRecord::FieldList { fields, .. },
        ) && 0 <= i < fields@.len() && (fields@[i] matches HeaderField::Method {
            name,
            method_type,
            ..
        } && name@ != "__vecDelDtor"@ && name@ != "__local_vftable_ctor_closure"@ && name@
            != "__dflt_ctor_closure"@ && method_type_is_known(
            t.records@[r]->Class_0,
            name@,
            method_type,
        )),
    ensures
        t.at(t.records@[r]->Class_0.fields->0) matches Found::Record(
            HeaderRecord::FieldList { fields, .. },
        ) && (fields@[i] matches HeaderField::Method { name, attributes, method_type } && {
            let c = t.records@[r]->Class_0;
            let rows = all_declarations(t, procedures)->Ok_0;
            exists|k: int|
                0 <= k < rows.len() && (#[trigger] rows[k]).class == Some(c.name@) && (
                rows[k].is_static <== (attributes.0 / 4) % 8 == 2) && (rows[k].access is Public
                    <==> attributes.0 % 4 == 3)
        }),
{
    let c = t.records@[r]->Class_0;
    let rows = all_declarations(t, procedures)->Ok_0;
    if let Found::Record(HeaderRecord::FieldList { fields, continuation }) = t.at(c.fields->0) {
        if let HeaderField::Method { name, attributes, method_type } = fields@[i] {
            let f = resolved_at(c.methods@, name@, method_type, 0)->0;
            let x = method_row(c.name@, f.parsed->0@, attributes);
            assert(method_declares(c, name@, attributes, method_type, x));
            assert(field_declares(t, c, fields@[i], x));
            assert(fields_declare(t, c, fields@, fields@.len() as int, x));
            assert(record_declares(t, t.records@[r], x));
            assert(records_declare(t, t.records@.len() as int, x));
            lemma_declarations_are_complete(t, procedures, x);
            lemma_method_is_declared(c.name@, f.parsed->0@, attributes);
            let k = rows.index_of(x);
            assert(rows[k] == x);
        }
    }
}

/// Whether the type of a method of a class is known: the first that was resolved under its
/// name and its type has one.
pub open spec fn method_type_is_known(c: HeaderClass, name: Seq<char>, ty: u32) -> bool {
    resolved_at(c.methods@, name, ty, 0) matches Some(r) && r.parsed is Some
}

} // verus!
