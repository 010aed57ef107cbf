//! What holds of the records of symbols and types in words.

use crate::number::{dec, hex, pad_back, pad_front};
use crate::number_laws::{hex_read, lemma_hex_is_read};
use crate::parts::{cat_upto, holds, lemma_holds_pair, lemma_holds_within};
use crate::topology_records::{detail_text, kind_text, line_info_text, name_text, number_or_unknown,
    record_line, record_of, type_info_text, type_text, LineInfo, ProcedureInfo, RecordModel,
    SymbolInfo, TypeInfo, VariableInfo};
use crate::topology_text::{bool_text, signed_number};
use vstd::prelude::*;

verus! {

/// A number that is known can be read back, and one that is not is a question mark.
pub proof fn lemma_known_numbers_can_be_read(n: Option<u32>)
    ensures
        n matches Some(v) ==> number_or_unknown(n).len() > 2 && number_or_unknown(n)[0] == '0'
            && number_or_unknown(n)[1] == 'x' && hex_read(number_or_unknown(n).skip(2)) == Some(
            v as nat,
        ),
        n is None ==> number_or_unknown(n) == "?"@,
{
    reveal_strlit("0x");
    if let Some(v) = n {
        lemma_hex_is_read(v as nat);
        assert(number_or_unknown(n).skip(2) =~= hex(v as nat));
    }
}

/// A type is named as it is told, and by its number where it is not.
pub proof fn lemma_types_are_named(ty: Option<String>, index: u32)
    ensures
        ty matches Some(t) ==> type_text(ty, index) == t@,
        ty is None ==> type_text(ty, index).len() > 7 && hex_read(type_text(ty, index).skip(7))
            == Some(index as nat),
{
    reveal_strlit("type#0x");
    lemma_hex_is_read(index as nat);
    if ty is None {
        assert(type_text(ty, index).skip(7) =~= hex(index as nat));
    }
}

/// A record keeps its number, its kind, its length and its depth.
pub proof fn lemma_record_keeps_its_place(
    index: u32,
    raw_kind: u16,
    raw_len: usize,
    depth: usize,
    s: SymbolInfo,
)
    ensures
        ({
            let r = record_of(index, raw_kind, raw_len, depth, s);
            &&& r.index == index && r.raw_kind == raw_kind && r.raw_len == raw_len
            &&& r.depth == depth && r.kind == kind_text(s) && r.detail == detail_text(s)
        }),
{
}

/// The record of a procedure names it and gives each of its numbers and marks behind its label.
pub proof fn lemma_record_of_procedure_tells_all(p: ProcedureInfo)
    ensures
        holds(
            detail_text(SymbolInfo::Procedure(p)),
            name_text(p.formatted, p.raw_name@) + " rva="@,
        ),
        holds(detail_text(SymbolInfo::Procedure(p)), " rva="@ + number_or_unknown(p.rva)),
        holds(detail_text(SymbolInfo::Procedure(p)), " len=0x"@ + hex(p.len as nat)),
        holds(detail_text(SymbolInfo::Procedure(p)), " body=0x"@ + hex(p.body_start as nat)),
        holds(detail_text(SymbolInfo::Procedure(p)), "..0x"@ + hex(p.body_end as nat)),
        holds(detail_text(SymbolInfo::Procedure(p)), " type=0x"@ + hex(p.type_index as nat)),
        holds(detail_text(SymbolInfo::Procedure(p)), " global="@ + bool_text(p.global)),
        holds(detail_text(SymbolInfo::Procedure(p)), " flags="@ + p.flags@),
        holds(detail_text(SymbolInfo::Procedure(p)), " parent="@ + p.parent@),
        holds(detail_text(SymbolInfo::Procedure(p)), " end=0x"@ + hex(p.end as nat)),
        holds(detail_text(SymbolInfo::Procedure(p)), " next="@ + p.next@),
{
    let a = seq![
        name_text(p.formatted, p.raw_name@),
        " rva="@,
        number_or_unknown(p.rva),
        " len=0x"@,
        hex(p.len as nat),
        " body=0x"@,
        hex(p.body_start as nat),
        "..0x"@,
        hex(p.body_end as nat),
        " type=0x"@,
        hex(p.type_index as nat),
    ];
    let b = seq![
        " global="@,
        bool_text(p.global),
        " flags="@,
        p.flags@,
        " parent="@,
        p.parent@,
        " end=0x"@,
        hex(p.end as nat),
        " next="@,
        p.next@,
    ];
    reveal_with_fuel(cat_upto, 12);
    let x = cat_upto(a, 11);
    let y = cat_upto(b, 10);
    assert(detail_text(SymbolInfo::Procedure(p)) == x + y);
    lemma_holds_pair(a, 11, 0);
    lemma_holds_within(Seq::empty(), x, y, a[0] + a[1]);
    lemma_holds_pair(a, 11, 1);
    lemma_holds_within(Seq::empty(), x, y, a[1] + a[2]);
    lemma_holds_pair(a, 11, 3);
    lemma_holds_within(Seq::empty(), x, y, a[3] + a[4]);
    lemma_holds_pair(a, 11, 5);
    lemma_holds_within(Seq::empty(), x, y, a[5] + a[6]);
    lemma_holds_pair(a, 11, 7);
    lemma_holds_within(Seq::empty(), x, y, a[7] + a[8]);
    lemma_holds_pair(a, 11, 9);
    lemma_holds_within(Seq::empty(), x, y, a[9] + a[10]);
    lemma_holds_pair(b, 10, 0);
    lemma_holds_within(x, y, Seq::empty(), b[0] + b[1]);
    lemma_holds_pair(b, 10, 2);
    lemma_holds_within(x, y, Seq::empty(), b[2] + b[3]);
    lemma_holds_pair(b, 10, 4);
    lemma_holds_within(x, y, Seq::empty(), b[4] + b[5]);
    lemma_holds_pair(b, 10, 6);
    lemma_holds_within(x, y, Seq::empty(), b[6] + b[7]);
    lemma_holds_pair(b, 10, 8);
    lemma_holds_within(x, y, Seq::empty(), b[8] + b[9]);
}

/// The record of a frame gives each of its sizes and marks behind its label.
pub proof fn lemma_record_of_frame_tells_all(
    frame: u32,
    padding: u32,
    padding_offset: u32,
    saved: u32,
    handler: String,
    frame_flags: String,
)
    ensures
        holds(
            detail_text(SymbolInfo::FrameProcedure { frame, padding, padding_offset, saved, handler, frame_flags }),
            "frame=0x"@ + hex(frame as nat),
        ),
        holds(
            detail_text(SymbolInfo::FrameProcedure { frame, padding, padding_offset, saved, handler, frame_flags }),
            " padding=0x"@ + hex(padding as nat),
        ),
        holds(
            detail_text(SymbolInfo::FrameProcedure { frame, padding, padding_offset, saved, handler, frame_flags }),
            "@0x"@ + hex(padding_offset as nat),
        ),
        holds(
            detail_text(SymbolInfo::FrameProcedure { frame, padding, padding_offset, saved, handler, frame_flags }),
            " saved_regs=0x"@ + hex(saved as nat),
        ),
        holds(
            detail_text(SymbolInfo::FrameProcedure { frame, padding, padding_offset, saved, handler, frame_flags }),
            " handler="@ + handler@,
        ),
        holds(
            detail_text(SymbolInfo::FrameProcedure { frame, padding, padding_offset, saved, handler, frame_flags }),
            " flags="@ + frame_flags@,
        ),
{
    let a = seq![
        "frame=0x"@,
        hex(frame as nat),
        " padding=0x"@,
        hex(padding as nat),
        "@0x"@,
        hex(padding_offset as nat),
        " saved_regs=0x"@,
        hex(saved as nat),
        " handler="@,
        handler@,
        " flags="@,
        frame_flags@,
    ];
    reveal_with_fuel(cat_upto, 13);
    assert(detail_text(SymbolInfo::FrameProcedure { frame, padding, padding_offset, saved, handler, frame_flags })
        == cat_upto(a, 12));
    lemma_holds_pair(a, 12, 0);
    lemma_holds_pair(a, 12, 2);
    lemma_holds_pair(a, 12, 4);
    lemma_holds_pair(a, 12, 6);
    lemma_holds_pair(a, 12, 8);
    lemma_holds_pair(a, 12, 10);
}

/// The record of a variable beside the frame pointer gives its name, its type and where it
/// stands.
pub proof fn lemma_record_of_frame_variable_tells_all(v: VariableInfo, offset: i32, slot: String)
    ensures
        holds(
            detail_text(SymbolInfo::BasePointerRelative { variable: v, offset, slot }),
            v.name@ + " : "@,
        ),
        holds(
            detail_text(SymbolInfo::BasePointerRelative { variable: v, offset, slot }),
            " : "@ + type_text(v.ty, v.type_index),
        ),
        holds(
            detail_text(SymbolInfo::BasePointerRelative { variable: v, offset, slot }),
            " type=0x"@ + hex(v.type_index as nat),
        ),
        holds(
            detail_text(SymbolInfo::BasePointerRelative { variable: v, offset, slot }),
            " fp_off="@ + signed_number(offset),
        ),
        holds(
            detail_text(SymbolInfo::BasePointerRelative { variable: v, offset, slot }),
            " slot="@ + slot@,
        ),
{
    let a = seq![
        v.name@,
        " : "@,
        type_text(v.ty, v.type_index),
        " type=0x"@,
        hex(v.type_index as nat),
        " fp_off="@,
        signed_number(offset),
        " slot="@,
        slot@,
    ];
    reveal_with_fuel(cat_upto, 10);
    assert(detail_text(SymbolInfo::BasePointerRelative { variable: v, offset, slot })
        == cat_upto(a, 9));
    lemma_holds_pair(a, 9, 0);
    lemma_holds_pair(a, 9, 1);
    lemma_holds_pair(a, 9, 3);
    lemma_holds_pair(a, 9, 5);
    lemma_holds_pair(a, 9, 7);
}

/// The record of a variable beside a register gives its name, its type and where it stands.
pub proof fn lemma_record_of_relative_variable_tells_all(
    v: VariableInfo,
    register: String,
    offset: i32,
    slot: String,
)
    ensures
        holds(
            detail_text(SymbolInfo::RegisterRelative { variable: v, register, offset, slot }),
            v.name@ + " : "@,
        ),
        holds(
            detail_text(SymbolInfo::RegisterRelative { variable: v, register, offset, slot }),
            " : "@ + type_text(v.ty, v.type_index),
        ),
        holds(
            detail_text(SymbolInfo::RegisterRelative { variable: v, register, offset, slot }),
            " type=0x"@ + hex(v.type_index as nat),
        ),
        holds(
            detail_text(SymbolInfo::RegisterRelative { variable: v, register, offset, slot }),
            " "@ + register@,
        ),
        holds(
            detail_text(SymbolInfo::RegisterRelative { variable: v, register, offset, slot }),
            register@ + signed_number(offset),
        ),
        holds(
            detail_text(SymbolInfo::RegisterRelative { variable: v, register, offset, slot }),
            " slot="@ + slot@,
        ),
{
    let a = seq![
        v.name@,
        " : "@,
        type_text(v.ty, v.type_index),
        " type=0x"@,
        hex(v.type_index as nat),
        " "@,
        register@,
        signed_number(offset),
        " slot="@,
        slot@,
    ];
    reveal_with_fuel(cat_upto, 11);
    assert(detail_text(SymbolInfo::RegisterRelative { variable: v, register, offset, slot })
        == cat_upto(a, 10));
    lemma_holds_pair(a, 10, 0);
    lemma_holds_pair(a, 10, 1);
    lemma_holds_pair(a, 10, 3);
    lemma_holds_pair(a, 10, 5);
    lemma_holds_pair(a, 10, 6);
    lemma_holds_pair(a, 10, 8);
}

/// The record of a variable in a register gives its name, its type and the register.
pub proof fn lemma_record_of_register_variable_tells_all(
    v: VariableInfo,
    register: String,
    slot: String,
)
    ensures
        holds(
            detail_text(SymbolInfo::RegisterVariable { variable: v, register, slot }),
            v.name@ + " : "@,
        ),
        holds(
            detail_text(SymbolInfo::RegisterVariable { variable: v, register, slot }),
            " : "@ + type_text(v.ty, v.type_index),
        ),
        holds(
            detail_text(SymbolInfo::RegisterVariable { variable: v, register, slot }),
            " type=0x"@ + hex(v.type_index as nat),
        ),
        holds(
            detail_text(SymbolInfo::RegisterVariable { variable: v, register, slot }),
            " register="@ + register@,
        ),
        holds(
            detail_text(SymbolInfo::RegisterVariable { variable: v, register, slot }),
            " slot="@ + slot@,
        ),
{
    let a = seq![
        v.name@,
        " : "@,
        type_text(v.ty, v.type_index),
        " type=0x"@,
        hex(v.type_index as nat),
        " register="@,
        register@,
        " slot="@,
        slot@,
    ];
    reveal_with_fuel(cat_upto, 10);
    assert(detail_text(SymbolInfo::RegisterVariable { variable: v, register, slot })
        == cat_upto(a, 9));
    lemma_holds_pair(a, 9, 0);
    lemma_holds_pair(a, 9, 1);
    lemma_holds_pair(a, 9, 3);
    lemma_holds_pair(a, 9, 5);
    lemma_holds_pair(a, 9, 7);
}

/// The record of a named type gives the name and the type.
pub proof fn lemma_record_of_typedef_tells_all(v: VariableInfo)
    ensures
        holds(detail_text(SymbolInfo::UserDefinedType { variable: v }), v.name@ + " = "@),
        holds(
            detail_text(SymbolInfo::UserDefinedType { variable: v }),
            " = "@ + type_text(v.ty, v.type_index),
        ),
        holds(
            detail_text(SymbolInfo::UserDefinedType { variable: v }),
            " type=0x"@ + hex(v.type_index as nat),
        ),
{
    let a = seq![
        v.name@,
        " = "@,
        type_text(v.ty, v.type_index),
        " type=0x"@,
        hex(v.type_index as nat),
    ];
    reveal_with_fuel(cat_upto, 6);
    assert(detail_text(SymbolInfo::UserDefinedType { variable: v }) == cat_upto(a, 5));
    lemma_holds_pair(a, 5, 0);
    lemma_holds_pair(a, 5, 1);
    lemma_holds_pair(a, 5, 3);
}

/// The record of data gives its name, its type, its address and its marks.
pub proof fn lemma_record_of_data_tells_all(
    v: VariableInfo,
    rva: Option<u32>,
    global: bool,
    managed: bool,
)
    ensures
        holds(
            detail_text(SymbolInfo::Data { variable: v, rva, global, managed }),
            v.name@ + " : "@,
        ),
        holds(
            detail_text(SymbolInfo::Data { variable: v, rva, global, managed }),
            " : "@ + type_text(v.ty, v.type_index),
        ),
        holds(
            detail_text(SymbolInfo::Data { variable: v, rva, global, managed }),
            " type=0x"@ + hex(v.type_index as nat),
        ),
        holds(
            detail_text(SymbolInfo::Data { variable: v, rva, global, managed }),
            " rva="@ + number_or_unknown(rva),
        ),
        holds(
            detail_text(SymbolInfo::Data { variable: v, rva, global, managed }),
            " global="@ + bool_text(global),
        ),
        holds(
            detail_text(SymbolInfo::Data { variable: v, rva, global, managed }),
            " managed="@ + bool_text(managed),
        ),
{
    let a = seq![
        v.name@,
        " : "@,
        type_text(v.ty, v.type_index),
        " type=0x"@,
        hex(v.type_index as nat),
        " rva="@,
        number_or_unknown(rva),
        " global="@,
        bool_text(global),
        " managed="@,
        bool_text(managed),
    ];
    reveal_with_fuel(cat_upto, 12);
    assert(detail_text(SymbolInfo::Data { variable: v, rva, global, managed }) == cat_upto(a, 11));
    lemma_holds_pair(a, 11, 0);
    lemma_holds_pair(a, 11, 1);
    lemma_holds_pair(a, 11, 3);
    lemma_holds_pair(a, 11, 5);
    lemma_holds_pair(a, 11, 7);
    lemma_holds_pair(a, 11, 9);
}

/// The record of a constant gives its name, its type and its value.
pub proof fn lemma_record_of_constant_tells_all(v: VariableInfo, value: String)
    ensures
        holds(detail_text(SymbolInfo::Constant { variable: v, value }), v.name@ + " : "@),
        holds(
            detail_text(SymbolInfo::Constant { variable: v, value }),
            " : "@ + type_text(v.ty, v.type_index),
        ),
        holds(
            detail_text(SymbolInfo::Constant { variable: v, value }),
            " type=0x"@ + hex(v.type_index as nat),
        ),
        holds(detail_text(SymbolInfo::Constant { variable: v, value }), " value="@ + value@),
{
    let a = seq![
        v.name@,
        " : "@,
        type_text(v.ty, v.type_index),
        " type=0x"@,
        hex(v.type_index as nat),
        " value="@,
        value@,
    ];
    reveal_with_fuel(cat_upto, 8);
    assert(detail_text(SymbolInfo::Constant { variable: v, value }) == cat_upto(a, 7));
    lemma_holds_pair(a, 7, 0);
    lemma_holds_pair(a, 7, 1);
    lemma_holds_pair(a, 7, 3);
    lemma_holds_pair(a, 7, 5);
}

/// The record of a call gives its address and the signature that is called.
pub proof fn lemma_record_of_call_site_tells_all(
    rva: Option<u32>,
    signature: Option<String>,
    type_index: u32,
)
    ensures
        holds(
            detail_text(SymbolInfo::CallSiteInfo { rva, signature, type_index }),
            "rva="@ + number_or_unknown(rva),
        ),
        holds(
            detail_text(SymbolInfo::CallSiteInfo { rva, signature, type_index }),
            " signature="@ + name_text(signature, "<indirect>"@),
        ),
        holds(
            detail_text(SymbolInfo::CallSiteInfo { rva, signature, type_index }),
            " type=0x"@ + hex(type_index as nat),
        ),
{
    let a = seq![
        "rva="@,
        number_or_unknown(rva),
        " signature="@,
        name_text(signature, "<indirect>"@),
        " type=0x"@,
        hex(type_index as nat),
    ];
    reveal_with_fuel(cat_upto, 7);
    assert(detail_text(SymbolInfo::CallSiteInfo { rva, signature, type_index }) == cat_upto(a, 6));
    lemma_holds_pair(a, 6, 0);
    lemma_holds_pair(a, 6, 2);
    lemma_holds_pair(a, 6, 4);
}

/// The record of a block gives its address, its length, its place and its name.
pub proof fn lemma_record_of_block_tells_all(
    rva: Option<u32>,
    len: u32,
    block_parent: u32,
    block_end: u32,
    name: String,
)
    ensures
        holds(
            detail_text(SymbolInfo::Block { rva, len, block_parent, block_end, name }),
            "rva="@ + number_or_unknown(rva),
        ),
        holds(
            detail_text(SymbolInfo::Block { rva, len, block_parent, block_end, name }),
            " len=0x"@ + hex(len as nat),
        ),
        holds(
            detail_text(SymbolInfo::Block { rva, len, block_parent, block_end, name }),
            " parent=0x"@ + hex(block_parent as nat),
        ),
        holds(
            detail_text(SymbolInfo::Block { rva, len, block_parent, block_end, name }),
            " end=0x"@ + hex(block_end as nat),
        ),
        holds(
            detail_text(SymbolInfo::Block { rva, len, block_parent, block_end, name }),
            " name="@ + name@,
        ),
{
    let a = seq![
        "rva="@,
        number_or_unknown(rva),
        " len=0x"@,
        hex(len as nat),
        " parent=0x"@,
        hex(block_parent as nat),
        " end=0x"@,
        hex(block_end as nat),
        " name="@,
        name@,
    ];
    reveal_with_fuel(cat_upto, 11);
    assert(detail_text(SymbolInfo::Block { rva, len, block_parent, block_end, name })
        == cat_upto(a, 10));
    lemma_holds_pair(a, 10, 0);
    lemma_holds_pair(a, 10, 2);
    lemma_holds_pair(a, 10, 4);
    lemma_holds_pair(a, 10, 6);
    lemma_holds_pair(a, 10, 8);
}

/// A row of a line table gives its address, its length, its file, its lines and its columns.
pub proof fn lemma_record_of_line_tells_all(l: LineInfo)
    ensures
        holds(line_info_text(l), "rva="@ + number_or_unknown(l.rva)),
        holds(line_info_text(l), " bytes="@ + number_or_unknown(l.length)),
        holds(line_info_text(l), " source="@ + l.file@),
        holds(line_info_text(l), ":"@ + dec(l.line_start as nat)),
        holds(line_info_text(l), "-"@ + dec(l.line_end as nat)),
        holds(line_info_text(l), " cols="@ + l.column_start@),
        holds(line_info_text(l), "-"@ + l.column_end@),
        holds(line_info_text(l), " kind="@ + l.kind@),
{
    let a = seq![
        "rva="@,
        number_or_unknown(l.rva),
        " bytes="@,
        number_or_unknown(l.length),
        " source="@,
        l.file@,
        ":"@,
        dec(l.line_start as nat),
        "-"@,
        dec(l.line_end as nat),
    ];
    let b = seq![
        " cols="@,
        l.column_start@,
        "-"@,
        l.column_end@,
        " kind="@,
        l.kind@,
    ];
    reveal_with_fuel(cat_upto, 11);
    let x = cat_upto(a, 10);
    let y = cat_upto(b, 6);
    assert(line_info_text(l) == x + y);
    lemma_holds_pair(a, 10, 0);
    lemma_holds_within(Seq::empty(), x, y, a[0] + a[1]);
    lemma_holds_pair(a, 10, 2);
    lemma_holds_within(Seq::empty(), x, y, a[2] + a[3]);
    lemma_holds_pair(a, 10, 4);
    lemma_holds_within(Seq::empty(), x, y, a[4] + a[5]);
    lemma_holds_pair(a, 10, 6);
    lemma_holds_within(Seq::empty(), x, y, a[6] + a[7]);
    lemma_holds_pair(a, 10, 8);
    lemma_holds_within(Seq::empty(), x, y, a[8] + a[9]);
    lemma_holds_pair(b, 6, 0);
    lemma_holds_within(x, y, Seq::empty(), b[0] + b[1]);
    lemma_holds_pair(b, 6, 2);
    lemma_holds_within(x, y, Seq::empty(), b[2] + b[3]);
    lemma_holds_pair(b, 6, 4);
    lemma_holds_within(x, y, Seq::empty(), b[4] + b[5]);
}

/// The record of the type of a method gives what it returns, its class and its arguments.
pub proof fn lemma_record_of_member_function_tells_all(
    result: u32,
    class: u32,
    this: String,
    argc: u16,
    args: u32,
    attrs: String,
    this_adjust: u32,
)
    ensures
        holds(
            type_info_text(TypeInfo::MemberFunction { result, class, this, argc, args, attrs, this_adjust }),
            "MemberFunction return=0x"@ + hex(result as nat),
        ),
        holds(
            type_info_text(TypeInfo::MemberFunction { result, class, this, argc, args, attrs, this_adjust }),
            " class=0x"@ + hex(class as nat),
        ),
        holds(
            type_info_text(TypeInfo::MemberFunction { result, class, this, argc, args, attrs, this_adjust }),
            " this="@ + this@,
        ),
        holds(
            type_info_text(TypeInfo::MemberFunction { result, class, this, argc, args, attrs, this_adjust }),
            " argc="@ + dec(argc as nat),
        ),
        holds(
            type_info_text(TypeInfo::MemberFunction { result, class, this, argc, args, attrs, this_adjust }),
            " args=0x"@ + hex(args as nat),
        ),
        holds(
            type_info_text(TypeInfo::MemberFunction { result, class, this, argc, args, attrs, this_adjust }),
            " attrs="@ + attrs@,
        ),
        holds(
            type_info_text(TypeInfo::MemberFunction { result, class, this, argc, args, attrs, this_adjust }),
            " this_adjust="@ + dec(this_adjust as nat),
        ),
{
    let a = seq![
        "MemberFunction return=0x"@,
        hex(result as nat),
        " class=0x"@,
        hex(class as nat),
        " this="@,
        this@,
        " argc="@,
        dec(argc as nat),
    ];
    let b = seq![
        " args=0x"@,
        hex(args as nat),
        " attrs="@,
        attrs@,
        " this_adjust="@,
        dec(this_adjust as nat),
    ];
    reveal_with_fuel(cat_upto, 9);
    let x = cat_upto(a, 8);
    let y = cat_upto(b, 6);
    assert(type_info_text(TypeInfo::MemberFunction { result, class, this, argc, args, attrs, this_adjust })
        == x + y);
    lemma_holds_pair(a, 8, 0);
    lemma_holds_within(Seq::empty(), x, y, a[0] + a[1]);
    lemma_holds_pair(a, 8, 2);
    lemma_holds_within(Seq::empty(), x, y, a[2] + a[3]);
    lemma_holds_pair(a, 8, 4);
    lemma_holds_within(Seq::empty(), x, y, a[4] + a[5]);
    lemma_holds_pair(a, 8, 6);
    lemma_holds_within(Seq::empty(), x, y, a[6] + a[7]);
    lemma_holds_pair(b, 6, 0);
    lemma_holds_within(x, y, Seq::empty(), b[0] + b[1]);
    lemma_holds_pair(b, 6, 2);
    lemma_holds_within(x, y, Seq::empty(), b[2] + b[3]);
    lemma_holds_pair(b, 6, 4);
    lemma_holds_within(x, y, Seq::empty(), b[4] + b[5]);
}

/// The record of the type of a function gives what it returns and its arguments.
pub proof fn lemma_record_of_function_tells_all(
    returned: String,
    argc: u16,
    args: u32,
    attrs: String,
)
    ensures
        holds(
            type_info_text(TypeInfo::Procedure { returned, argc, args, attrs }),
            "Procedure return="@ + returned@,
        ),
        holds(
            type_info_text(TypeInfo::Procedure { returned, argc, args, attrs }),
            " argc="@ + dec(argc as nat),
        ),
        holds(
            type_info_text(TypeInfo::Procedure { returned, argc, args, attrs }),
            " args=0x"@ + hex(args as nat),
        ),
        holds(
            type_info_text(TypeInfo::Procedure { returned, argc, args, attrs }),
            " attrs="@ + attrs@,
        ),
{
    let a = seq![
        "Procedure return="@,
        returned@,
        " argc="@,
        dec(argc as nat),
        " args=0x"@,
        hex(args as nat),
        " attrs="@,
        attrs@,
    ];
    reveal_with_fuel(cat_upto, 9);
    assert(type_info_text(TypeInfo::Procedure { returned, argc, args, attrs }) == cat_upto(a, 8));
    lemma_holds_pair(a, 8, 0);
    lemma_holds_pair(a, 8, 2);
    lemma_holds_pair(a, 8, 4);
    lemma_holds_pair(a, 8, 6);
}

/// The record of a pointer gives the type that it points to.
pub proof fn lemma_record_of_pointer_tells_all(underlying: u32, containing: String, attrs: String)
    ensures
        holds(
            type_info_text(TypeInfo::Pointer { underlying, containing, attrs }),
            "Pointer underlying=0x"@ + hex(underlying as nat),
        ),
        holds(
            type_info_text(TypeInfo::Pointer { underlying, containing, attrs }),
            " containing="@ + containing@,
        ),
        holds(
            type_info_text(TypeInfo::Pointer { underlying, containing, attrs }),
            " attrs="@ + attrs@,
        ),
{
    let a = seq![
        "Pointer underlying=0x"@,
        hex(underlying as nat),
        " containing="@,
        containing@,
        " attrs="@,
        attrs@,
    ];
    reveal_with_fuel(cat_upto, 7);
    assert(type_info_text(TypeInfo::Pointer { underlying, containing, attrs }) == cat_upto(a, 6));
    lemma_holds_pair(a, 6, 0);
    lemma_holds_pair(a, 6, 2);
    lemma_holds_pair(a, 6, 4);
}

/// The record of a modified type gives the type and each of the marks.
pub proof fn lemma_record_of_modifier_tells_all(
    underlying: u32,
    constant: bool,
    volatile: bool,
    unaligned: bool,
)
    ensures
        holds(
            type_info_text(TypeInfo::Modifier { underlying, constant, volatile, unaligned }),
            "Modifier underlying=0x"@ + hex(underlying as nat),
        ),
        holds(
            type_info_text(TypeInfo::Modifier { underlying, constant, volatile, unaligned }),
            " const="@ + bool_text(constant),
        ),
        holds(
            type_info_text(TypeInfo::Modifier { underlying, constant, volatile, unaligned }),
            " volatile="@ + bool_text(volatile),
        ),
        holds(
            type_info_text(TypeInfo::Modifier { underlying, constant, volatile, unaligned }),
            " unaligned="@ + bool_text(unaligned),
        ),
{
    let a = seq![
        "Modifier underlying=0x"@,
        hex(underlying as nat),
        " const="@,
        bool_text(constant),
        " volatile="@,
        bool_text(volatile),
        " unaligned="@,
        bool_text(unaligned),
    ];
    reveal_with_fuel(cat_upto, 9);
    assert(type_info_text(TypeInfo::Modifier { underlying, constant, volatile, unaligned })
        == cat_upto(a, 8));
    lemma_holds_pair(a, 8, 0);
    lemma_holds_pair(a, 8, 2);
    lemma_holds_pair(a, 8, 4);
    lemma_holds_pair(a, 8, 6);
}

/// The record of a class gives its kind, its name, its size and what belongs to it.
pub proof fn lemma_record_of_class_tells_all(
    kind: String,
    name: String,
    size: u64,
    field_list: String,
    derived: String,
    vshape: String,
    props: String,
)
    ensures
        holds(
            type_info_text(TypeInfo::Class { kind, name, size, field_list, derived, vshape, props }),
            kind@ + " "@,
        ),
        holds(
            type_info_text(TypeInfo::Class { kind, name, size, field_list, derived, vshape, props }),
            " "@ + name@,
        ),
        holds(
            type_info_text(TypeInfo::Class { kind, name, size, field_list, derived, vshape, props }),
            " size=0x"@ + hex(size as nat),
        ),
        holds(
            type_info_text(TypeInfo::Class { kind, name, size, field_list, derived, vshape, props }),
            " fields="@ + field_list@,
        ),
        holds(
            type_info_text(TypeInfo::Class { kind, name, size, field_list, derived, vshape, props }),
            " derived="@ + derived@,
        ),
        holds(
            type_info_text(TypeInfo::Class { kind, name, size, field_list, derived, vshape, props }),
            " vshape="@ + vshape@,
        ),
        holds(
            type_info_text(TypeInfo::Class { kind, name, size, field_list, derived, vshape, props }),
            " props="@ + props@,
        ),
{
    let a = seq![
        kind@,
        " "@,
        name@,
        " size=0x"@,
        hex(size as nat),
        " fields="@,
        field_list@,
    ];
    let b = seq![
        " derived="@,
        derived@,
        " vshape="@,
        vshape@,
        " props="@,
        props@,
    ];
    reveal_with_fuel(cat_upto, 8);
    let x = cat_upto(a, 7);
    let y = cat_upto(b, 6);
    assert(type_info_text(TypeInfo::Class { kind, name, size, field_list, derived, vshape, props })
        == x + y);
    lemma_holds_pair(a, 7, 0);
    lemma_holds_within(Seq::empty(), x, y, a[0] + a[1]);
    lemma_holds_pair(a, 7, 1);
    lemma_holds_within(Seq::empty(), x, y, a[1] + a[2]);
    lemma_holds_pair(a, 7, 3);
    lemma_holds_within(Seq::empty(), x, y, a[3] + a[4]);
    lemma_holds_pair(a, 7, 5);
    lemma_holds_within(Seq::empty(), x, y, a[5] + a[6]);
    lemma_holds_pair(b, 6, 0);
    lemma_holds_within(x, y, Seq::empty(), b[0] + b[1]);
    lemma_holds_pair(b, 6, 2);
    lemma_holds_within(x, y, Seq::empty(), b[2] + b[3]);
    lemma_holds_pair(b, 6, 4);
    lemma_holds_within(x, y, Seq::empty(), b[4] + b[5]);
}

/// The record of an enumeration gives its name, its type and its fields.
pub proof fn lemma_record_of_enumeration_tells_all(
    name: String,
    underlying: u32,
    fields: u32,
    props: String,
)
    ensures
        holds(
            type_info_text(TypeInfo::Enumeration { name, underlying, fields, props }),
            "Enum "@ + name@,
        ),
        holds(
            type_info_text(TypeInfo::Enumeration { name, underlying, fields, props }),
            " underlying=0x"@ + hex(underlying as nat),
        ),
        holds(
            type_info_text(TypeInfo::Enumeration { name, underlying, fields, props }),
            " fields=0x"@ + hex(fields as nat),
        ),
        holds(
            type_info_text(TypeInfo::Enumeration { name, underlying, fields, props }),
            " props="@ + props@,
        ),
{
    let a = seq![
        "Enum "@,
        name@,
        " underlying=0x"@,
        hex(underlying as nat),
        " fields=0x"@,
        hex(fields as nat),
        " props="@,
        props@,
    ];
    reveal_with_fuel(cat_upto, 9);
    assert(type_info_text(TypeInfo::Enumeration { name, underlying, fields, props })
        == cat_upto(a, 8));
    lemma_holds_pair(a, 8, 0);
    lemma_holds_pair(a, 8, 2);
    lemma_holds_pair(a, 8, 4);
    lemma_holds_pair(a, 8, 6);
}

/// The record of a union gives its name, its size and its fields.
pub proof fn lemma_record_of_union_tells_all(name: String, size: u64, fields: u32, props: String)
    ensures
        holds(type_info_text(TypeInfo::Union { name, size, fields, props }), "Union "@ + name@),
        holds(
            type_info_text(TypeInfo::Union { name, size, fields, props }),
            " size=0x"@ + hex(size as nat),
        ),
        holds(
            type_info_text(TypeInfo::Union { name, size, fields, props }),
            " fields=0x"@ + hex(fields as nat),
        ),
        holds(type_info_text(TypeInfo::Union { name, size, fields, props }), " props="@ + props@),
{
    let a = seq![
        "Union "@,
        name@,
        " size=0x"@,
        hex(size as nat),
        " fields=0x"@,
        hex(fields as nat),
        " props="@,
        props@,
    ];
    reveal_with_fuel(cat_upto, 9);
    assert(type_info_text(TypeInfo::Union { name, size, fields, props }) == cat_upto(a, 8));
    lemma_holds_pair(a, 8, 0);
    lemma_holds_pair(a, 8, 2);
    lemma_holds_pair(a, 8, 4);
    lemma_holds_pair(a, 8, 6);
}

/// The record of an array gives its elements, its index and its dimensions.
pub proof fn lemma_record_of_array_tells_all(element: u32, index: u32, dims: String)
    ensures
        holds(
            type_info_text(TypeInfo::Array { element, index, dims }),
            "Array element=0x"@ + hex(element as nat),
        ),
        holds(
            type_info_text(TypeInfo::Array { element, index, dims }),
            " index=0x"@ + hex(index as nat),
        ),
        holds(type_info_text(TypeInfo::Array { element, index, dims }), " dims="@ + dims@),
{
    let a = seq![
        "Array element=0x"@,
        hex(element as nat),
        " index=0x"@,
        hex(index as nat),
        " dims="@,
        dims@,
    ];
    reveal_with_fuel(cat_upto, 7);
    assert(type_info_text(TypeInfo::Array { element, index, dims }) == cat_upto(a, 6));
    lemma_holds_pair(a, 6, 0);
    lemma_holds_pair(a, 6, 2);
    lemma_holds_pair(a, 6, 4);
}

/// The line of a record gives its number, its kind, its length, its depth and what it says, and
/// ends the line.
pub proof fn lemma_record_of_symbol_tells_all(r: RecordModel, marker: Seq<char>)
    ensures
        holds(record_line(r, marker), marker + " sym=0x"@),
        holds(record_line(r, marker), " sym=0x"@ + pad_front(hex(r.index as nat), '0', 6)),
        holds(record_line(r, marker), " raw=0x"@ + pad_front(hex(r.raw_kind as nat), '0', 4)),
        holds(record_line(r, marker), "/0x"@ + hex(r.raw_len as nat)),
        holds(record_line(r, marker), " depth="@ + dec(r.depth as nat)),
        holds(record_line(r, marker), " "@ + pad_back(r.kind, ' ', 22)),
        holds(record_line(r, marker), " "@ + r.detail),
{
    let a = seq![
        marker,
        " sym=0x"@,
        pad_front(hex(r.index as nat), '0', 6),
        " raw=0x"@,
        pad_front(hex(r.raw_kind as nat), '0', 4),
        "/0x"@,
        hex(r.raw_len as nat),
        " depth="@,
        dec(r.depth as nat),
    ];
    let b = seq![
        " "@,
        pad_back(r.kind, ' ', 22),
        " "@,
        r.detail,
        "\n"@,
    ];
    reveal_with_fuel(cat_upto, 10);
    let x = cat_upto(a, 9);
    let y = cat_upto(b, 5);
    assert(record_line(r, marker) == x + y);
    lemma_holds_pair(a, 9, 0);
    lemma_holds_within(Seq::empty(), x, y, a[0] + a[1]);
    lemma_holds_pair(a, 9, 1);
    lemma_holds_within(Seq::empty(), x, y, a[1] + a[2]);
    lemma_holds_pair(a, 9, 3);
    lemma_holds_within(Seq::empty(), x, y, a[3] + a[4]);
    lemma_holds_pair(a, 9, 5);
    lemma_holds_within(Seq::empty(), x, y, a[5] + a[6]);
    lemma_holds_pair(a, 9, 7);
    lemma_holds_within(Seq::empty(), x, y, a[7] + a[8]);
    lemma_holds_pair(b, 5, 0);
    lemma_holds_within(x, y, Seq::empty(), b[0] + b[1]);
    lemma_holds_pair(b, 5, 2);
    lemma_holds_within(x, y, Seq::empty(), b[2] + b[3]);
}

} // verus!
