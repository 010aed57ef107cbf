//! Symbol and type records of a database, each on one line.

use crate::number::{dec, decimal, hex, hexadecimal, pad_back, pad_front, padded_back, padded_front};
use crate::pieces::{cat10, cat11, cat12, cat2, cat4, cat5, cat6, cat7, cat8, cat9};
use crate::text::owned;
use crate::topology_text::{bool_text, show_bool, signed_hex, signed_number};
use vstd::prelude::*;
use vstd::string::StringExecFns;

verus! {

/// A row of a procedure's line table. Columns and kind are as they are shown for
/// debugging.
pub struct LineInfo {
    pub rva: Option<u32>,
    pub length: Option<u32>,
    pub file: String,
    pub line_start: u32,
    pub line_end: u32,
    pub column_start: String,
    pub column_end: String,
    pub kind: String,
}

/// A procedure. Flags and links are as they are shown for debugging.
pub struct ProcedureInfo {
    /// The name that the type formatter makes, if it can.
    pub formatted: Option<String>,
    pub raw_name: String,
    pub rva: Option<u32>,
    pub len: u32,
    pub body_start: u32,
    pub body_end: u32,
    pub type_index: u32,
    pub global: bool,
    pub flags: String,
    pub parent: String,
    pub end: u32,
    pub next: String,
    pub lines: Result<Vec<LineInfo>, String>,
}

/// A variable: its name, its type as the formatter names it, and the type's index.
pub struct VariableInfo {
    pub name: String,
    pub ty: Option<String>,
    pub type_index: u32,
}

/// A symbol record. What is a text here is as it is shown for debugging, but for
/// names.
pub enum SymbolInfo {
    Procedure(ProcedureInfo),
    FrameProcedure {
        frame: u32,
        padding: u32,
        padding_offset: u32,
        saved: u32,
        handler: String,
        frame_flags: String,
    },
    BasePointerRelative { variable: VariableInfo, offset: i32, slot: String },
    RegisterRelative { variable: VariableInfo, register: String, offset: i32, slot: String },
    RegisterVariable { variable: VariableInfo, register: String, slot: String },
    UserDefinedType { variable: VariableInfo },
    Data { variable: VariableInfo, rva: Option<u32>, global: bool, managed: bool },
    Constant { variable: VariableInfo, value: String },
    CallSiteInfo { rva: Option<u32>, signature: Option<String>, type_index: u32 },
    Block { rva: Option<u32>, len: u32, block_parent: u32, block_end: u32, name: String },
    FrameCookie { debug: String },
    Label { debug: String },
    Thunk { debug: String },
    CompileFlags { debug: String },
    EnvBlock { debug: String },
    ObjName { debug: String },
    UsingNamespace { debug: String },
    ScopeEnd,
    Other { debug: String },
}

/// A number in hexadecimal, or a question mark.
pub open spec fn number_or_unknown(n: Option<u32>) -> Seq<char> {
    match n {
        Some(v) => "0x"@ + hex(v as nat),
        None => "?"@,
    }
}

/// A number in hexadecimal, or a question mark.
pub fn optional_number(n: Option<u32>) -> (r: String)
    ensures
        r@ == number_or_unknown(n),
{
    match n {
        Some(v) => cat2("0x", hexadecimal(v as u64).as_str()),
        None => owned("?"),
    }
}

/// The name of a type, or its index where the formatter has no name.
pub open spec fn type_text(ty: Option<String>, index: u32) -> Seq<char> {
    match ty {
        Some(t) => t@,
        None => "type#0x"@ + hex(index as nat),
    }
}

fn type_shown(ty: &Option<String>, index: u32) -> (r: String)
    ensures
        r@ == type_text(*ty, index),
{
    match ty {
        Some(t) => owned(t.as_str()),
        None => cat2("type#0x", hexadecimal(index as u64).as_str()),
    }
}

/// The name that the formatter makes, or the name as it is.
pub open spec fn name_text(formatted: Option<String>, raw: Seq<char>) -> Seq<char> {
    match formatted {
        Some(s) => s@,
        None => raw,
    }
}

/// The name that the formatter makes, or the name as it is.
pub fn function_name(formatted: &Option<String>, raw: &str) -> (r: String)
    ensures
        r@ == name_text(*formatted, raw@),
{
    match formatted {
        Some(s) => owned(s.as_str()),
        None => owned(raw),
    }
}

/// What kind of record a symbol is.
pub open spec fn kind_text(s: SymbolInfo) -> Seq<char> {
    match s {
        SymbolInfo::Procedure(_) => "Procedure"@,
        SymbolInfo::FrameProcedure { .. } => "FrameProcedure"@,
        SymbolInfo::BasePointerRelative { .. } => "BasePointerRelative"@,
        SymbolInfo::RegisterRelative { .. } => "RegisterRelative"@,
        SymbolInfo::RegisterVariable { .. } => "RegisterVariable"@,
        SymbolInfo::UserDefinedType { .. } => "UserDefinedType"@,
        SymbolInfo::Data { .. } => "Data"@,
        SymbolInfo::Constant { .. } => "Constant"@,
        SymbolInfo::CallSiteInfo { .. } => "CallSiteInfo"@,
        SymbolInfo::Block { .. } => "Block"@,
        SymbolInfo::FrameCookie { .. } => "FrameCookie"@,
        SymbolInfo::Label { .. } => "Label"@,
        SymbolInfo::Thunk { .. } => "Thunk"@,
        SymbolInfo::CompileFlags { .. } => "CompileFlags"@,
        SymbolInfo::EnvBlock { .. } => "EnvBlock"@,
        SymbolInfo::ObjName { .. } => "ObjName"@,
        SymbolInfo::UsingNamespace { .. } => "UsingNamespace"@,
        SymbolInfo::ScopeEnd => "ScopeEnd"@,
        SymbolInfo::Other { .. } => "Other"@,
    }
}

/// What a procedure's record says.
pub open spec fn procedure_text(p: ProcedureInfo) -> Seq<char> {
    (name_text(p.formatted, p.raw_name@) + " rva="@ + number_or_unknown(p.rva) + " len=0x"@ + hex(
        p.len as nat,
    ) + " body=0x"@ + hex(p.body_start as nat) + "..0x"@ + hex(p.body_end as nat) + " type=0x"@
        + hex(p.type_index as nat)) + (" global="@ + bool_text(p.global) + " flags="@ + p.flags@
        + " parent="@ + p.parent@ + " end=0x"@ + hex(p.end as nat) + " next="@ + p.next@)
}

/// What a symbol's record says.
pub open spec fn detail_text(s: SymbolInfo) -> Seq<char> {
    match s {
        SymbolInfo::Procedure(p) => procedure_text(p),
        SymbolInfo::FrameProcedure {
            frame,
            padding,
            padding_offset,
            saved,
            handler,
            frame_flags,
        } => "frame=0x"@ + hex(frame as nat) + " padding=0x"@ + hex(padding as nat) + "@0x"@ + hex(
            padding_offset as nat,
        ) + " saved_regs=0x"@ + hex(saved as nat) + " handler="@ + handler@ + " flags="@
            + frame_flags@,
        SymbolInfo::BasePointerRelative { variable: v, offset, slot } => v.name@ + " : "@
            + type_text(v.ty, v.type_index) + " type=0x"@ + hex(v.type_index as nat) + " fp_off="@
            + signed_number(offset) + " slot="@ + slot@,
        SymbolInfo::RegisterRelative { variable: v, register, offset, slot } => v.name@ + " : "@
            + type_text(v.ty, v.type_index) + " type=0x"@ + hex(v.type_index as nat) + " "@
            + register@ + signed_number(offset) + " slot="@ + slot@,
        SymbolInfo::RegisterVariable { variable: v, register, slot } => v.name@ + " : "@
            + type_text(v.ty, v.type_index) + " type=0x"@ + hex(v.type_index as nat)
            + " register="@ + register@ + " slot="@ + slot@,
        SymbolInfo::UserDefinedType { variable: v } => v.name@ + " = "@ + type_text(
            v.ty,
            v.type_index,
        ) + " type=0x"@ + hex(v.type_index as nat),
        SymbolInfo::Data { variable: v, rva, global, managed } => v.name@ + " : "@ + type_text(
            v.ty,
            v.type_index,
        ) + " type=0x"@ + hex(v.type_index as nat) + " rva="@ + number_or_unknown(rva)
            + " global="@ + bool_text(global) + " managed="@ + bool_text(managed),
        SymbolInfo::Constant { variable: v, value } => v.name@ + " : "@ + type_text(
            v.ty,
            v.type_index,
        ) + " type=0x"@ + hex(v.type_index as nat) + " value="@ + value@,
        SymbolInfo::CallSiteInfo { rva, signature, type_index } => "rva="@ + number_or_unknown(rva)
            + " signature="@ + name_text(signature, "<indirect>"@) + " type=0x"@ + hex(
            type_index as nat,
        ),
        SymbolInfo::Block { rva, len, block_parent, block_end, name } => "rva="@
            + number_or_unknown(rva) + " len=0x"@ + hex(len as nat) + " parent=0x"@ + hex(
            block_parent as nat,
        ) + " end=0x"@ + hex(block_end as nat) + " name="@ + name@,
        SymbolInfo::FrameCookie { debug } => debug@,
        SymbolInfo::Label { debug } => debug@,
        SymbolInfo::Thunk { debug } => debug@,
        SymbolInfo::CompileFlags { debug } => debug@,
        SymbolInfo::EnvBlock { debug } => debug@,
        SymbolInfo::ObjName { debug } => debug@,
        SymbolInfo::UsingNamespace { debug } => debug@,
        SymbolInfo::ScopeEnd => ""@,
        SymbolInfo::Other { debug } => debug@,
    }
}

/// A symbol record on one line.
#[derive(Debug)]
pub struct Record {
    pub index: u32,
    pub raw_kind: u16,
    pub raw_len: usize,
    pub depth: usize,
    pub kind: &'static str,
    pub detail: String,
}

/// A symbol record on one line, as a model.
pub struct RecordModel {
    pub index: u32,
    pub raw_kind: u16,
    pub raw_len: usize,
    pub depth: usize,
    pub kind: Seq<char>,
    pub detail: Seq<char>,
}

impl View for Record {
    type V = RecordModel;

    open spec fn view(&self) -> RecordModel {
        RecordModel {
            index: self.index,
            raw_kind: self.raw_kind,
            raw_len: self.raw_len,
            depth: self.depth,
            kind: self.kind@,
            detail: self.detail@,
        }
    }
}

impl Record {
    /// The same record once more.
    pub fn copy(&self) -> (r: Record)
        ensures
            r@ == self@,
    {
        Record {
            index: self.index,
            raw_kind: self.raw_kind,
            raw_len: self.raw_len,
            depth: self.depth,
            kind: self.kind,
            detail: self.detail.clone(),
        }
    }
}

/// A symbol as a record, with where it stands.
pub open spec fn record_of(
    index: u32,
    raw_kind: u16,
    raw_len: usize,
    depth: usize,
    s: SymbolInfo,
) -> RecordModel {
    RecordModel { index, raw_kind, raw_len, depth, kind: kind_text(s), detail: detail_text(s) }
}

fn hexa(n: u32) -> (r: String)
    ensures
        r@ == hex(n as nat),
{
    hexadecimal(n as u64)
}

fn procedure_shown(p: &ProcedureInfo) -> (r: String)
    ensures
        r@ == procedure_text(*p),
{
    let mut a: String = cat10(
        function_name(&p.formatted, p.raw_name.as_str()).as_str(),
        " rva=",
        optional_number(p.rva).as_str(),
        " len=0x",
        hexa(p.len).as_str(),
        " body=0x",
        hexa(p.body_start).as_str(),
        "..0x",
        hexa(p.body_end).as_str(),
        " type=0x",
    );
    a.append(hexa(p.type_index).as_str());
    let b: String = cat10(
        " global=",
        show_bool(p.global),
        " flags=",
        p.flags.as_str(),
        " parent=",
        p.parent.as_str(),
        " end=0x",
        hexa(p.end).as_str(),
        " next=",
        p.next.as_str(),
    );
    cat2(a.as_str(), b.as_str())
}

/// A symbol as a record: what kind it is, and what it says.
pub fn summarize_record(
    index: u32,
    raw_kind: u16,
    raw_len: usize,
    depth: usize,
    s: &SymbolInfo,
) -> (r: Record)
    ensures
        r@ == record_of(index, raw_kind, raw_len, depth, *s),
{
    let (kind, detail): (&'static str, String) = match s {
        SymbolInfo::Procedure(p) => ("Procedure", procedure_shown(p)),
        SymbolInfo::FrameProcedure {
            frame,
            padding,
            padding_offset,
            saved,
            handler,
            frame_flags,
        } => (
            "FrameProcedure",
            cat12(
                "frame=0x",
                hexa(*frame).as_str(),
                " padding=0x",
                hexa(*padding).as_str(),
                "@0x",
                hexa(*padding_offset).as_str(),
                " saved_regs=0x",
                hexa(*saved).as_str(),
                " handler=",
                handler.as_str(),
                " flags=",
                frame_flags.as_str(),
            ),
        ),
        SymbolInfo::BasePointerRelative { variable: v, offset, slot } => (
            "BasePointerRelative",
            cat9(
                v.name.as_str(),
                " : ",
                type_shown(&v.ty, v.type_index).as_str(),
                " type=0x",
                hexa(v.type_index).as_str(),
                " fp_off=",
                signed_hex(*offset).as_str(),
                " slot=",
                slot.as_str(),
            ),
        ),
        SymbolInfo::RegisterRelative { variable: v, register, offset, slot } => (
            "RegisterRelative",
            cat10(
                v.name.as_str(),
                " : ",
                type_shown(&v.ty, v.type_index).as_str(),
                " type=0x",
                hexa(v.type_index).as_str(),
                " ",
                register.as_str(),
                signed_hex(*offset).as_str(),
                " slot=",
                slot.as_str(),
            ),
        ),
        SymbolInfo::RegisterVariable { variable: v, register, slot } => (
            "RegisterVariable",
            cat9(
                v.name.as_str(),
                " : ",
                type_shown(&v.ty, v.type_index).as_str(),
                " type=0x",
                hexa(v.type_index).as_str(),
                " register=",
                register.as_str(),
                " slot=",
                slot.as_str(),
            ),
        ),
        SymbolInfo::UserDefinedType { variable: v } => (
            "UserDefinedType",
            cat5(
                v.name.as_str(),
                " = ",
                type_shown(&v.ty, v.type_index).as_str(),
                " type=0x",
                hexa(v.type_index).as_str(),
            ),
        ),
        SymbolInfo::Data { variable: v, rva, global, managed } => (
            "Data",
            cat11(
                v.name.as_str(),
                " : ",
                type_shown(&v.ty, v.type_index).as_str(),
                " type=0x",
                hexa(v.type_index).as_str(),
                " rva=",
                optional_number(*rva).as_str(),
                " global=",
                show_bool(*global),
                " managed=",
                show_bool(*managed),
            ),
        ),
        SymbolInfo::Constant { variable: v, value } => (
            "Constant",
            cat7(
                v.name.as_str(),
                " : ",
                type_shown(&v.ty, v.type_index).as_str(),
                " type=0x",
                hexa(v.type_index).as_str(),
                " value=",
                value.as_str(),
            ),
        ),
        SymbolInfo::CallSiteInfo { rva, signature, type_index } => (
            "CallSiteInfo",
            cat6(
                "rva=",
                optional_number(*rva).as_str(),
                " signature=",
                function_name(signature, "<indirect>").as_str(),
                " type=0x",
                hexa(*type_index).as_str(),
            ),
        ),
        SymbolInfo::Block { rva, len, block_parent, block_end, name } => (
            "Block",
            cat10(
                "rva=",
                optional_number(*rva).as_str(),
                " len=0x",
                hexa(*len).as_str(),
                " parent=0x",
                hexa(*block_parent).as_str(),
                " end=0x",
                hexa(*block_end).as_str(),
                " name=",
                name.as_str(),
            ),
        ),
        SymbolInfo::FrameCookie { debug } => ("FrameCookie", debug.clone()),
        SymbolInfo::Label { debug } => ("Label", debug.clone()),
        SymbolInfo::Thunk { debug } => ("Thunk", debug.clone()),
        SymbolInfo::CompileFlags { debug } => ("CompileFlags", debug.clone()),
        SymbolInfo::EnvBlock { debug } => ("EnvBlock", debug.clone()),
        SymbolInfo::ObjName { debug } => ("ObjName", debug.clone()),
        SymbolInfo::UsingNamespace { debug } => ("UsingNamespace", debug.clone()),
        SymbolInfo::ScopeEnd => ("ScopeEnd", owned("")),
        SymbolInfo::Other { debug } => ("Other", debug.clone()),
    };
    Record { index, raw_kind, raw_len, depth, kind, detail }
}

/// The line of a record behind a marker.
pub open spec fn record_line(r: RecordModel, marker: Seq<char>) -> Seq<char> {
    marker + " sym=0x"@ + pad_front(hex(r.index as nat), '0', 6) + " raw=0x"@ + pad_front(
        hex(r.raw_kind as nat),
        '0',
        4,
    ) + "/0x"@ + hex(r.raw_len as nat) + " depth="@ + dec(r.depth as nat) + (" "@ + pad_back(
        r.kind,
        ' ',
        22,
    ) + " "@ + r.detail + "\n"@)
}

/// The line of a record behind a marker.
pub fn render_record(r: &Record, marker: &str) -> (s: String)
    ensures
        s@ == record_line(r@, marker@),
{
    let rest: String = cat5(
        " ",
        padded_back(r.kind, ' ', 22).as_str(),
        " ",
        r.detail.as_str(),
        "\n",
    );
    cat10(
        marker,
        " sym=0x",
        padded_front(hexadecimal(r.index as u64).as_str(), '0', 6).as_str(),
        " raw=0x",
        padded_front(hexadecimal(r.raw_kind as u64).as_str(), '0', 4).as_str(),
        "/0x",
        hexadecimal(r.raw_len as u64).as_str(),
        " depth=",
        decimal(r.depth as u64).as_str(),
        rest.as_str(),
    )
}

/// A row of a line table in words.
pub open spec fn line_info_text(l: LineInfo) -> Seq<char> {
    ("rva="@ + number_or_unknown(l.rva) + " bytes="@ + number_or_unknown(l.length) + " source="@
        + l.file@ + ":"@ + dec(l.line_start as nat) + "-"@ + dec(l.line_end as nat)) + (" cols="@
        + l.column_start@ + "-"@ + l.column_end@ + " kind="@ + l.kind@)
}

/// A row of a line table in words.
pub fn line_info(l: &LineInfo) -> (r: String)
    ensures
        r@ == line_info_text(*l),
{
    let a: String = cat10(
        "rva=",
        optional_number(l.rva).as_str(),
        " bytes=",
        optional_number(l.length).as_str(),
        " source=",
        l.file.as_str(),
        ":",
        decimal(l.line_start as u64).as_str(),
        "-",
        decimal(l.line_end as u64).as_str(),
    );
    let b: String = cat6(
        " cols=",
        l.column_start.as_str(),
        "-",
        l.column_end.as_str(),
        " kind=",
        l.kind.as_str(),
    );
    cat2(a.as_str(), b.as_str())
}

// ---------------------------------------------------------------------------
// Types
// ---------------------------------------------------------------------------

/// A type record. What is a text here is as it is shown for debugging, but for names.
pub enum TypeInfo {
    MemberFunction {
        result: u32,
        class: u32,
        this: String,
        argc: u16,
        args: u32,
        attrs: String,
        this_adjust: u32,
    },
    Procedure { returned: String, argc: u16, args: u32, attrs: String },
    ArgumentList { arguments: String },
    Pointer { underlying: u32, containing: String, attrs: String },
    Modifier { underlying: u32, constant: bool, volatile: bool, unaligned: bool },
    Class {
        kind: String,
        name: String,
        size: u64,
        field_list: String,
        derived: String,
        vshape: String,
        props: String,
    },
    Enumeration { name: String, underlying: u32, fields: u32, props: String },
    Union { name: String, size: u64, fields: u32, props: String },
    Array { element: u32, index: u32, dims: String },
    FieldList { entries: usize, continuation: String },
    Other { debug: String },
    Unparsed { error: String },
}

/// What a type record says.
pub open spec fn type_info_text(t: TypeInfo) -> Seq<char> {
    match t {
        TypeInfo::MemberFunction { result, class, this, argc, args, attrs, this_adjust } => (
        "MemberFunction return=0x"@ + hex(result as nat) + " class=0x"@ + hex(class as nat)
            + " this="@ + this@ + " argc="@ + dec(argc as nat)) + (" args=0x"@ + hex(args as nat)
            + " attrs="@ + attrs@ + " this_adjust="@ + dec(this_adjust as nat)),
        TypeInfo::Procedure { returned, argc, args, attrs } => "Procedure return="@ + returned@
            + " argc="@ + dec(argc as nat) + " args=0x"@ + hex(args as nat) + " attrs="@ + attrs@,
        TypeInfo::ArgumentList { arguments } => "ArgumentList "@ + arguments@,
        TypeInfo::Pointer { underlying, containing, attrs } => "Pointer underlying=0x"@ + hex(
            underlying as nat,
        ) + " containing="@ + containing@ + " attrs="@ + attrs@,
        TypeInfo::Modifier { underlying, constant, volatile, unaligned } =>
        "Modifier underlying=0x"@ + hex(underlying as nat) + " const="@ + bool_text(constant)
            + " volatile="@ + bool_text(volatile) + " unaligned="@ + bool_text(unaligned),
        TypeInfo::Class { kind, name, size, field_list, derived, vshape, props } => (kind@ + " "@
            + name@ + " size=0x"@ + hex(size as nat) + " fields="@ + field_list@) + (" derived="@
            + derived@ + " vshape="@ + vshape@ + " props="@ + props@),
        TypeInfo::Enumeration { name, underlying, fields, props } => "Enum "@ + name@
            + " underlying=0x"@ + hex(underlying as nat) + " fields=0x"@ + hex(fields as nat)
            + " props="@ + props@,
        TypeInfo::Union { name, size, fields, props } => "Union "@ + name@ + " size=0x"@ + hex(
            size as nat,
        ) + " fields=0x"@ + hex(fields as nat) + " props="@ + props@,
        TypeInfo::Array { element, index, dims } => "Array element=0x"@ + hex(element as nat)
            + " index=0x"@ + hex(index as nat) + " dims="@ + dims@,
        TypeInfo::FieldList { entries, continuation } => "FieldList entries="@ + dec(entries as nat)
            + " continuation="@ + continuation@,
        TypeInfo::Other { debug } => debug@,
        TypeInfo::Unparsed { error } => "unparsed: "@ + error@,
    }
}

/// What a type record says.
pub fn summarize_type(t: &TypeInfo) -> (r: String)
    ensures
        r@ == type_info_text(*t),
{
    match t {
        TypeInfo::MemberFunction { result, class, this, argc, args, attrs, this_adjust } => {
            let a: String = cat8(
                "MemberFunction return=0x",
                hexa(*result).as_str(),
                " class=0x",
                hexa(*class).as_str(),
                " this=",
                this.as_str(),
                " argc=",
                decimal(*argc as u64).as_str(),
            );
            let b: String = cat6(
                " args=0x",
                hexa(*args).as_str(),
                " attrs=",
                attrs.as_str(),
                " this_adjust=",
                decimal(*this_adjust as u64).as_str(),
            );
            cat2(a.as_str(), b.as_str())
        },
        TypeInfo::Procedure { returned, argc, args, attrs } => cat8(
            "Procedure return=",
            returned.as_str(),
            " argc=",
            decimal(*argc as u64).as_str(),
            " args=0x",
            hexa(*args).as_str(),
            " attrs=",
            attrs.as_str(),
        ),
        TypeInfo::ArgumentList { arguments } => cat2("ArgumentList ", arguments.as_str()),
        TypeInfo::Pointer { underlying, containing, attrs } => cat6(
            "Pointer underlying=0x",
            hexa(*underlying).as_str(),
            " containing=",
            containing.as_str(),
            " attrs=",
            attrs.as_str(),
        ),
        TypeInfo::Modifier { underlying, constant, volatile, unaligned } => cat8(
            "Modifier underlying=0x",
            hexa(*underlying).as_str(),
            " const=",
            show_bool(*constant),
            " volatile=",
            show_bool(*volatile),
            " unaligned=",
            show_bool(*unaligned),
        ),
        TypeInfo::Class { kind, name, size, field_list, derived, vshape, props } => {
            let a: String = cat7(
                kind.as_str(),
                " ",
                name.as_str(),
                " size=0x",
                hexadecimal(*size).as_str(),
                " fields=",
                field_list.as_str(),
            );
            let b: String = cat6(
                " derived=",
                derived.as_str(),
                " vshape=",
                vshape.as_str(),
                " props=",
                props.as_str(),
            );
            cat2(a.as_str(), b.as_str())
        },
        TypeInfo::Enumeration { name, underlying, fields, props } => cat8(
            "Enum ",
            name.as_str(),
            " underlying=0x",
            hexa(*underlying).as_str(),
            " fields=0x",
            hexa(*fields).as_str(),
            " props=",
            props.as_str(),
        ),
        TypeInfo::Union { name, size, fields, props } => cat8(
            "Union ",
            name.as_str(),
            " size=0x",
            hexadecimal(*size).as_str(),
            " fields=0x",
            hexa(*fields).as_str(),
            " props=",
            props.as_str(),
        ),
        TypeInfo::Array { element, index, dims } => cat6(
            "Array element=0x",
            hexa(*element).as_str(),
            " index=0x",
            hexa(*index).as_str(),
            " dims=",
            dims.as_str(),
        ),
        TypeInfo::FieldList { entries, continuation } => cat4(
            "FieldList entries=",
            decimal(*entries as u64).as_str(),
            " continuation=",
            continuation.as_str(),
        ),
        TypeInfo::Other { debug } => debug.clone(),
        TypeInfo::Unparsed { error } => cat2("unparsed: ", error.as_str()),
    }
}

} // verus!
