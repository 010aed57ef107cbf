//! The records of modules.

use vostok_pdb_parser::field_attributes::MyFieldAttributes;
use vostok_pdb_parser::topology_classes::load_classes;
use vostok_pdb_parser::topology_compare::lcs_values;
use vostok_pdb_parser::topology_diff::{
    build_diff_report, diff_rows, render_diff_report, render_match, render_single, ComparableRow,
};
use vostok_pdb_parser::topology_inspect::{inspect, ModuleSymbols, RawSymbol};
use vostok_pdb_parser::topology_records::{
    render_record, summarize_record, LineInfo, ProcedureInfo, SymbolInfo, VariableInfo,
};
use vostok_pdb_parser::topology_report::{build_class_report, render_class_report};
use vostok_pdb_parser::topology_text::{
    clean_type_indexes, module_leaf, normalize_cross_pdb_type, replace_hex_ids, signed_hex,
};
use vostok_pdb_parser::type_table::{
    ClassKind, ClassRecord, Field, FieldData, TypeRecord, TypeTable,
};

#[test]
fn cross_pdb_type_normalization_drops_formatter_only_spelling() {
    assert_eq!(
        normalize_cross_pdb_type(
            "boost::f<enum vostok::kind,class vostok::item const , struct X>"
        ),
        "boost::f<vostok::kind,vostok::item const, X>"
    );
    assert_eq!(
        normalize_cross_pdb_type("bitfield TypeIndex(0x1234)"),
        "bitfield TypeIndex(..)"
    );
}

#[test]
fn declaration_order_lcs_ignores_insertions_but_finds_moves() {
    assert_eq!(lcs_values(&vec![0, 1, 2], &vec![0, 1, 2]).len(), 3);
    let stable = lcs_values(&vec![0, 2, 1], &vec![0, 1, 2]);
    assert_eq!(stable.len(), 2);
    assert!(stable.contains(&0));
}

#[test]
fn a_type_index_without_an_end_takes_the_rest() {
    assert_eq!(clean_type_indexes("a TypeIndex(12"), "a TypeIndex(..)");
    assert_eq!(
        clean_type_indexes("TypeIndex(1) TypeIndex(2)"),
        "TypeIndex(..) TypeIndex(..)"
    );
}

#[test]
fn numbers_with_a_sign_are_shown() {
    assert_eq!(signed_hex(-16), "-0x10");
    assert_eq!(signed_hex(16), "+0x10");
}

#[test]
fn a_module_has_a_leaf() {
    assert_eq!(module_leaf("c:\\x\\y.obj"), "y.obj");
    assert_eq!(module_leaf("y.obj"), "y.obj");
}

#[test]
fn numbers_of_types_are_left_out() {
    let a = replace_hex_ids("x 0x1234 y");
    let b = replace_hex_ids("x 0xabcd y");
    assert_eq!(a, b);
}

fn variable(name: &str, ty: Option<&str>) -> VariableInfo {
    VariableInfo {
        name: name.to_string(),
        ty: ty.map(|s| s.to_string()),
        type_index: 0x74,
    }
}

fn procedure(name: &str, end: u32) -> SymbolInfo {
    SymbolInfo::Procedure(ProcedureInfo {
        formatted: Some(name.to_string()),
        raw_name: "raw".to_string(),
        rva: Some(0x1000),
        len: 0x20,
        body_start: 1,
        body_end: 0x1f,
        type_index: 0x1000,
        global: true,
        flags: "F".to_string(),
        parent: "None".to_string(),
        end,
        next: "None".to_string(),
        lines: Ok(vec![LineInfo {
            rva: Some(0x1000),
            length: Some(4),
            file: "a.cpp".to_string(),
            line_start: 10,
            line_end: 10,
            column_start: "None".to_string(),
            column_end: "None".to_string(),
            kind: "Statement".to_string(),
        }]),
    })
}

#[test]
fn records_are_put_into_words() {
    let r = summarize_record(0x10, 0x1110, 0x2a, 1, &procedure("void f()", 0x40));
    assert_eq!(r.kind, "Procedure");
    assert_eq!(
        r.detail,
        "void f() rva=0x1000 len=0x20 body=0x1..0x1f type=0x1000 global=true flags=F parent=None end=0x40 next=None"
    );
    assert_eq!(
        render_record(&r, ">"),
        format!(
            "> sym=0x000010 raw=0x1110/0x2a depth=1 {:<22} {}\n",
            "Procedure", r.detail
        )
    );
    let r = summarize_record(
        0,
        0,
        0,
        0,
        &SymbolInfo::BasePointerRelative {
            variable: variable("i", Some("int")),
            offset: -8,
            slot: "None".to_string(),
        },
    );
    assert_eq!(r.detail, "i : int type=0x74 fp_off=-0x8 slot=None");
    let r = summarize_record(0, 6, 2, 0, &SymbolInfo::ScopeEnd);
    assert_eq!((r.kind, r.detail.as_str()), ("ScopeEnd", ""));
}

fn raw(index: u32, starts: bool, ends: bool, data: SymbolInfo) -> RawSymbol {
    RawSymbol {
        index,
        raw_kind: 0x1110,
        raw_len: 8,
        starts_scope: starts,
        ends_scope: ends,
        data: Ok(data),
    }
}

fn modules(local: &str) -> Vec<ModuleSymbols> {
    vec![ModuleSymbols {
        module_name: "c:\\x\\a.obj".to_string(),
        object_file_name: "core.lib".to_string(),
        symbols: Some(vec![
            raw(4, true, false, procedure("void vostok::F()", 20)),
            raw(
                12,
                false,
                false,
                SymbolInfo::BasePointerRelative {
                    variable: variable(local, Some("int")),
                    offset: 8,
                    slot: "None".to_string(),
                },
            ),
            raw(20, false, true, SymbolInfo::ScopeEnd),
        ]),
    }]
}

fn empty_types() -> TypeTable {
    TypeTable {
        first: 0x1000,
        records: Vec::new(),
    }
}

#[test]
fn procedures_are_inspected() {
    let found = inspect(&modules("i"), "vostok::f", None, &Vec::new(), &empty_types(), 1)
        .ok()
        .unwrap();
    assert_eq!(found.len(), 1);
    assert_eq!(found[0].procedure_pos, 0);
    assert_eq!(found[0].records.len(), 3);
    let text = render_match(&found[0], 1);
    assert!(text.starts_with("\n=== module #0 ===\nmodule: c:\\x\\a.obj\nobject/library: core.lib\n\n[explicit procedure evidence — high confidence]\n> sym=0x000004 "), "{text}");
    assert!(text.contains("  no class field-list entry references type 0x1000\n"), "{text}");
    let none = inspect(&modules("i"), "missing", None, &Vec::new(), &empty_types(), 1)
        .ok()
        .unwrap();
    assert_eq!(
        render_single(&none, "a\"b", 1),
        "no procedure matched \"a\\\"b\"\n"
    );
    let other = inspect(&modules("i"), "vostok::f", Some("b.obj"), &Vec::new(), &empty_types(), 1)
        .ok()
        .unwrap();
    assert!(other.is_empty());
    assert!(render_single(&found, "f", 1).starts_with("matched 1 procedure(s)\n"));
}

#[test]
fn procedures_of_two_builds_are_compared() {
    let target = inspect(&modules("i"), "f", None, &Vec::new(), &empty_types(), 1)
        .ok()
        .unwrap();
    let base = inspect(&modules("j"), "f", None, &Vec::new(), &empty_types(), 1)
        .ok()
        .unwrap();
    let same = build_diff_report("t", "b", &target, &target, 1);
    assert_eq!(same.pairs.len(), 1);
    assert!(same.pairs[0].sections.iter().all(|s| s.differences.is_empty()));
    let report = build_diff_report("t", "b", &target, &base, 1);
    assert!(report.pairs[0]
        .sections
        .iter()
        .any(|s| !s.differences.is_empty()));
    assert!(render_diff_report(&report).starts_with("target PDB: t\nbase PDB:   b\n"));
}

#[test]
fn rows_are_aligned_by_key() {
    let row = |key: &str, value: &str| ComparableRow {
        key: key.to_string(),
        value: value.to_string(),
    };
    let base = vec![row("a", "1"), row("b", "2"), row("c", "3")];
    let target = vec![row("a", "1"), row("c", "4"), row("d", "5")];
    let shown: Vec<(&str, Option<String>, Option<String>)> = diff_rows(&base, &target)
        .into_iter()
        .map(|l| (l.kind, l.base, l.target))
        .collect();
    assert_eq!(
        shown,
        [
            ("removed", Some("2".to_string()), None),
            ("changed", Some("3".to_string()), Some("4".to_string())),
            ("added", None, Some("5".to_string())),
        ]
    );
}

fn class_table(member: &str, size: u64) -> TypeTable {
    TypeTable {
        first: 0x1000,
        records: vec![
            TypeRecord::FieldList {
                fields: vec![Field {
                    data: FieldData::Member {
                        name: member.to_string(),
                        ty: Some("int".to_string()),
                        attributes: MyFieldAttributes(3),
                        offset: 0,
                    },
                    debug: String::new(),
                }],
                continuation: None,
            },
            TypeRecord::Class(ClassRecord {
                name: "vostok::C".to_string(),
                kind: ClassKind::Class,
                size,
                properties: String::new(),
                forward_reference: false,
                fields: Some(0x1000),
            }),
        ],
    }
}

#[test]
fn classes_of_two_builds_are_compared() {
    let target = load_classes(&class_table("x", 4), None).ok().unwrap();
    assert_eq!(target.len(), 1);
    assert_eq!(target[0].variants[0].entries[0].name, "x");
    let same = build_class_report("t", "b", None, &target, &target);
    assert_eq!(
        (same.compared_classes, same.identical_classes, same.different_classes),
        (1, 1, 0)
    );
    let base = load_classes(&class_table("y", 8), Some("vostok::c")).ok().unwrap();
    let report = build_class_report("t", "b", None, &target, &base);
    assert_eq!(report.different_classes, 1);
    assert!(!report.classes[0].differences.is_empty());
    let text = render_class_report(&report, false);
    assert!(text.contains("vostok::C"), "{text}");
    let missing = build_class_report("t", "b", None, &target, &Vec::new());
    assert_eq!(missing.missing_base_classes, 1);
    assert!(load_classes(&class_table("x", 4), Some("other")).ok().unwrap().is_empty());
}

#[test]
fn a_field_list_that_is_missing_fails() {
    let mut t = class_table("x", 4);
    t.records[0] = TypeRecord::Unparsed;
    assert!(load_classes(&t, None).is_err());
}

#[test]
fn attributes_are_read_from_their_text() {
    let a = MyFieldAttributes::extract("FieldAttributes(23)");
    assert_eq!(a, MyFieldAttributes(23));
    assert!(a.is_virtual());
    assert!(a.is_pure());
    assert!(!MyFieldAttributes(3).is_virtual());
    assert!(MyFieldAttributes(0x200).is_final());
    assert!(MyFieldAttributes(2 << 2).is_static());
}
