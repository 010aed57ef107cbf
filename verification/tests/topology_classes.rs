//! Classes, their declarations and their types.

use vostok_pdb_parser::field_attributes::{Access, MyFieldAttributes};
use vostok_pdb_parser::topology_classes::{load_classes, ClassModel, EntryKind};
use vostok_pdb_parser::topology_compare::{compare_class, pair_class_entries};
use vostok_pdb_parser::topology_inspect::{
    inspect, InspectError, ModuleSymbols, RawSymbol, TypeRow,
};
use vostok_pdb_parser::topology_records::{
    line_info, summarize_type, LineInfo, ProcedureInfo, SymbolInfo, TypeInfo,
};
use vostok_pdb_parser::topology_report::{build_class_report, render_class_report};
use vostok_pdb_parser::type_table::{
    ClassKind, ClassRecord, Field, FieldData, FunctionRecord, MethodItem, TypeError, TypeRecord,
    TypeTable,
};

fn some(s: &str) -> Option<String> {
    Some(s.to_string())
}

fn field(data: FieldData, debug: &str) -> Field {
    Field {
        data,
        debug: debug.to_string(),
    }
}

fn item(attributes: u16, vtable_offset: Option<u32>, signature: Option<&str>) -> MethodItem {
    MethodItem {
        method_type: 0x1000,
        attributes: MyFieldAttributes(attributes),
        vtable_offset,
        signature: signature.map(|s| s.to_string()),
    }
}

fn base_class() -> Field {
    field(
        FieldData::BaseClass {
            ty: some("class vostok::base"),
            attributes: MyFieldAttributes(3),
            base_offset: 0,
            kind: "Class".to_string(),
        },
        "D0",
    )
}

fn nested() -> Field {
    field(
        FieldData::Nested {
            name: "kind".to_string(),
            ty: some("vostok::C::kind"),
            attributes: MyFieldAttributes(3),
            index: 0x1003,
        },
        "D1",
    )
}

fn table_pointer() -> Field {
    field(FieldData::VirtualFunctionTablePointer { ty: None }, "D2")
}

fn overloaded() -> Field {
    field(
        FieldData::OverloadedMethod {
            name: "run".to_string(),
            method_list: 0x1001,
        },
        "D3",
    )
}

fn stop(attributes: u16) -> Field {
    field(
        FieldData::Method {
            name: "stop".to_string(),
            item: item(attributes, None, None),
        },
        "D4",
    )
}

fn x(attributes: u16, offset: u64) -> Field {
    field(
        FieldData::Member {
            name: "x".to_string(),
            ty: some("int"),
            attributes: MyFieldAttributes(attributes),
            offset,
        },
        "D5",
    )
}

fn table(fields: Vec<Field>) -> TypeTable {
    TypeTable {
        first: 0x1000,
        records: vec![
            TypeRecord::Function(FunctionRecord {
                parameter_count: 1,
                calling_convention: 11,
                cxx_return_udt: false,
                constructor: false,
                constructor_virtual_bases: false,
                this_adjustment: Some(0),
            }),
            TypeRecord::MethodList {
                methods: vec![item(0x13, Some(4), Some("void <method>"))],
            },
            TypeRecord::FieldList {
                fields: vec![field(
                    FieldData::Enumerate {
                        name: "a".to_string(),
                        value: "U16(1)".to_string(),
                    },
                    "",
                )],
                continuation: None,
            },
            TypeRecord::Enumeration { list: 0x1002 },
            TypeRecord::FieldList {
                fields,
                continuation: None,
            },
            TypeRecord::Class(ClassRecord {
                name: "vostok::C".to_string(),
                kind: ClassKind::Class,
                size: 12,
                properties: "P".to_string(),
                forward_reference: false,
                fields: Some(0x1004),
            }),
        ],
    }
}

fn target_table() -> TypeTable {
    let s = field(
        FieldData::StaticMember {
            name: "s".to_string(),
            ty: some("enum k"),
            attributes: MyFieldAttributes(2),
        },
        "D6",
    );
    table(vec![
        base_class(),
        nested(),
        table_pointer(),
        overloaded(),
        stop(3),
        x(1, 8),
        s,
    ])
}

fn base_table() -> TypeTable {
    table(vec![
        base_class(),
        table_pointer(),
        nested(),
        overloaded(),
        x(3, 4),
        stop(0xb),
    ])
}

fn class(t: &TypeTable) -> ClassModel {
    load_classes(t, None)
        .ok()
        .unwrap()
        .remove(0)
        .variants
        .remove(0)
}

#[test]
fn the_fields_of_a_class_are_told() {
    let c = class(&target_table());
    let e = &c.entries;
    assert_eq!(e.len(), 7);
    assert_eq!((e[0].kind, e[0].name.as_str()), (EntryKind::Base, "vostok::base"));
    assert_eq!(e[0].details, ["kind=Class"]);
    assert_eq!(e[0].offset, Some(0));
    assert_eq!(e[1].details, ["a=U16(1)"]);
    assert_eq!(e[2].name, "<vftable>");
    assert_eq!(e[2].typename, "<unresolved-type>");
    assert_eq!(e[2].access, Access::Unspecified);
    assert_eq!(e[3].name, "run");
    assert_eq!(e[3].typename, "void <method>");
    assert_eq!(e[3].argument_count, Some(1));
    assert_eq!(e[3].attributes, ["introducing-virtual"]);
    assert_eq!(e[3].raw_attributes, "0x10");
    assert_eq!(e[3].vtable_offset, Some(4));
    assert_eq!(
        e[3].details,
        [
            "calling_convention=11",
            "cxx_return_udt=false",
            "constructor=false",
            "constructor_virtual_bases=false",
            "this_adjustment=0"
        ]
    );
    assert_eq!(e[4].typename, "<unresolved-method-signature>");
    assert_eq!((e[6].typename.as_str(), e[6].access), ("k", Access::Protected));
}

#[test]
fn differences_of_a_class_are_told() {
    let base = class(&base_table());
    let target = class(&target_table());
    assert_eq!(
        pair_class_entries(&base.entries, &target.entries),
        [(0, 0), (1, 2), (2, 1), (3, 3), (4, 5), (5, 4)]
    );
    let told: Vec<(&str, Option<String>, Option<String>, Option<String>)> =
        compare_class(&base, &target)
            .into_iter()
            .map(|d| (d.category, d.member, d.base, d.target))
            .collect();
    let table_pointer = "vftable-pointer <vftable> : <unresolved-type> access=unspecified";
    assert_eq!(
        told,
        [
            ("method-qualifiers", some("stop"), some("static (0x8)"), some("0x0")),
            ("field-visibility", some("x"), some("public"), some("private")),
            ("field-offset", some("x"), some("0x4"), some("0x8")),
            (
                "static-field-presence",
                some("s"),
                None,
                some("static-field s : k access=protected")
            ),
            (
                "declaration-order",
                some("<vftable>"),
                Some(format!("#1 {table_pointer}")),
                Some(format!("#2 {table_pointer}"))
            ),
            (
                "declaration-order",
                some("x"),
                some("#4 field x : int access=public offset=0x4"),
                some("#5 field x : int access=private offset=0x8")
            ),
        ]
    );
    assert!(compare_class(&target, &target).is_empty());
}

#[test]
fn a_report_of_classes_is_written() {
    let target = load_classes(&target_table(), None).ok().unwrap();
    let mut other = target_table();
    other.records.pop();
    other.records.push(TypeRecord::Class(ClassRecord {
        name: "vostok::C".to_string(),
        kind: ClassKind::Struct,
        size: 16,
        properties: "P".to_string(),
        forward_reference: false,
        fields: Some(0x1004),
    }));
    let base = load_classes(&other, None).ok().unwrap();
    let report = build_class_report("t.pdb", "b.pdb", Some("vostok::C"), &target, &base);
    assert_eq!(
        render_class_report(&report, false),
        "target PDB: t.pdb
base PDB:   b.pdb
class filter: \"vostok::C\"
target classes=1 compared=1 identical=0 different=1 missing-base=0 base-only=0
deduplicated variants beyond canonical: target=0 base=0
unresolved declaration types: target=2 base=2
difference counts:
  class-kind: 1
  class-size: 1

=== vostok::C [different] ===
  [class-kind]
    - base:   struct
    + target: class
  [class-size]
    - base:   0x10
    + target: 0xc
"
    );
    let same = build_class_report("t", "b", None, &target, &target);
    assert!(!render_class_report(&same, false).contains("==="));
    assert!(render_class_report(&same, true)
        .ends_with("\n=== vostok::C [identical] ===\n  no semantic differences\n"));
}

fn module(lines: Result<Vec<LineInfo>, String>) -> Vec<ModuleSymbols> {
    let procedure = SymbolInfo::Procedure(ProcedureInfo {
        formatted: some("void vostok::C::run"),
        raw_name: "raw".to_string(),
        rva: None,
        len: 1,
        body_start: 0,
        body_end: 1,
        type_index: 0x1000,
        global: false,
        flags: String::new(),
        parent: String::new(),
        end: 8,
        next: String::new(),
        lines,
    });
    vec![ModuleSymbols {
        module_name: "m".to_string(),
        object_file_name: "o".to_string(),
        symbols: Some(vec![RawSymbol {
            index: 4,
            raw_kind: 0x1110,
            raw_len: 8,
            starts_scope: true,
            ends_scope: false,
            data: Ok(procedure),
        }]),
    }]
}

#[test]
fn a_procedure_is_bound_to_its_declarations() {
    let rows = vec![
        TypeRow {
            index: 0x1000,
            raw_kind: 0x1009,
            len: 0x1a,
            info: TypeInfo::ArgumentList {
                arguments: "[]".to_string(),
            },
        },
        TypeRow {
            index: 0x1002,
            raw_kind: 0x1203,
            len: 2,
            info: TypeInfo::Unparsed {
                error: "no".to_string(),
            },
        },
    ];
    let found = inspect(
        &module(Ok(Vec::new())),
        "c::RUN",
        Some("M"),
        &rows,
        &target_table(),
        1,
    )
    .ok()
    .unwrap();
    assert_eq!(found.len(), 1);
    assert_eq!(found[0].type_rows, ["> type=0x1000 raw=0x1009/0x1a ArgumentList []"]);
    let run = "method run type=0x1000 access=public static=false virtual=false pure=false intro=true compiler_generated=false sealed=false vslot=Some(4) [overload]";
    let stop = "method stop type=0x1000 access=public static=false virtual=false pure=false intro=false compiler_generated=false sealed=false vslot=None";
    assert_eq!(
        found[0].declaration_rows,
        [
            "candidate owner: vostok::C".to_string(),
            "  field#2 D2".to_string(),
            format!("> field#3 {run}"),
            format!("  field#4 {stop}"),
            String::new(),
            "candidate owner: vostok::C".to_string(),
            format!("  field#3 {run}"),
            format!("> field#4 {stop}"),
            "  field#5 D5".to_string(),
        ]
    );
}

#[test]
fn what_cannot_be_read_fails() {
    let lines = Err("bad lines".to_string());
    assert!(matches!(
        inspect(&module(lines), "run", None, &Vec::new(), &target_table(), 1),
        Err(InspectError::Lines(text)) if text == "bad lines"
    ));
    let mut t = target_table();
    t.records[5] = TypeRecord::Class(ClassRecord {
        name: "vostok::C".to_string(),
        kind: ClassKind::Class,
        size: 12,
        properties: "P".to_string(),
        forward_reference: false,
        fields: Some(0x2000),
    });
    assert!(matches!(
        inspect(&module(Ok(Vec::new())), "run", None, &Vec::new(), &t, 1),
        Err(InspectError::Types(TypeError::Missing { index: 0x2000 }))
    ));
    assert!(matches!(
        load_classes(&t, None),
        Err(TypeError::Missing { index: 0x2000 })
    ));
}

#[test]
fn types_are_put_into_words() {
    assert_eq!(
        summarize_type(&TypeInfo::MemberFunction {
            result: 3,
            class: 0x1010,
            this: "None".to_string(),
            argc: 2,
            args: 0x1011,
            attrs: "A".to_string(),
            this_adjust: 4,
        }),
        "MemberFunction return=0x3 class=0x1010 this=None argc=2 args=0x1011 attrs=A this_adjust=4"
    );
    assert_eq!(
        summarize_type(&TypeInfo::Modifier {
            underlying: 0x74,
            constant: true,
            volatile: false,
            unaligned: false,
        }),
        "Modifier underlying=0x74 const=true volatile=false unaligned=false"
    );
    assert_eq!(
        summarize_type(&TypeInfo::Class {
            kind: "Struct".to_string(),
            name: "s".to_string(),
            size: 16,
            field_list: "None".to_string(),
            derived: "None".to_string(),
            vshape: "None".to_string(),
            props: "P".to_string(),
        }),
        "Struct s size=0x10 fields=None derived=None vshape=None props=P"
    );
    assert_eq!(
        summarize_type(&TypeInfo::Unparsed {
            error: "no".to_string()
        }),
        "unparsed: no"
    );
    assert_eq!(
        line_info(&LineInfo {
            rva: None,
            length: Some(0x1f),
            file: "a.cpp".to_string(),
            line_start: 3,
            line_end: 4,
            column_start: "None".to_string(),
            column_end: "Some(1)".to_string(),
            kind: "Statement".to_string(),
        }),
        "rva=? bytes=0x1f source=a.cpp:3-4 cols=None-Some(1) kind=Statement"
    );
}

#[test]
fn a_primitive_type_has_no_fields() {
    let with_fields = |index: u32| TypeTable {
        first: 0x1000,
        records: vec![TypeRecord::Class(ClassRecord {
            name: "vostok::C".to_string(),
            kind: ClassKind::Class,
            size: 12,
            properties: "P".to_string(),
            forward_reference: false,
            fields: Some(index),
        })],
    };
    assert!(class(&with_fields(0x74)).entries.is_empty());
    assert!(matches!(
        load_classes(&with_fields(0xfe), None),
        Err(TypeError::Unparsed { index: 0xfe })
    ));
    assert!(matches!(
        load_classes(&with_fields(0x1001), None),
        Err(TypeError::Missing { index: 0x1001 })
    ));
}
