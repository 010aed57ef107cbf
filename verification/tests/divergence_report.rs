//! The report of where two builds diverge.

use vostok_pdb_parser::divergence::{diff_class, diff_enum, HeaderCounts};
use vostok_pdb_parser::divergence_extract::{
    extract_headers, include_type, skipped, skipped_lowered, variant_to_i64, Config, OverloadList,
    OverloadSig, SideRecord, SideTable, TypeItem,
};
use vostok_pdb_parser::divergence_model::{
    ClassModel, EnumModel, FieldModel, MethodModel, SideModel,
};
use vostok_pdb_parser::divergence_sources::{
    can_extract, extract_sources, find_public, relative_to_engine, PublicSymbol, SourceFn,
};
use vostok_pdb_parser::divergence_summary::run;
use vostok_pdb_parser::header_model::{HeaderError, TypeUse, Variant};
use vostok_pdb_parser::type_table::ClassKind;

fn config(skip: &[&str]) -> Config {
    Config {
        skip: skip.iter().map(|s| s.to_string()).collect(),
        include_external: false,
        do_headers: true,
        do_sources: true,
        list_presence: true,
        list_presence_fns: true,
        compare_raw_line_table_counts: false,
    }
}

fn ty(text: &str) -> TypeUse {
    TypeUse {
        index: 0x74,
        text: Some(text.to_string()),
    }
}

fn member(name: &str, offset: u64) -> TypeItem {
    TypeItem::Member {
        ty: ty("s32"),
        name: name.to_string(),
        offset,
        access: 3,
    }
}

fn table() -> SideTable {
    SideTable {
        first: 0x1000,
        records: vec![
            SideRecord::FieldList {
                items: vec![
                    member("x", 0),
                    TypeItem::BaseClass {
                        ty: ty("survarium::base"),
                        offset: 4,
                        access: 1,
                    },
                    TypeItem::Overloaded {
                        name: "f".to_string(),
                        list: OverloadList::Methods(vec![
                            OverloadSig {
                                signature: Some("void f(int)".to_string()),
                                access: 3,
                            },
                            OverloadSig {
                                signature: Some("void f(char)".to_string()),
                                access: 3,
                            },
                        ]),
                    },
                    TypeItem::Method {
                        name: "__vecDelDtor".to_string(),
                        signature: None,
                        access: 0,
                    },
                ],
                continuation: None,
            },
            SideRecord::Class {
                name: "survarium::a".to_string(),
                kind: ClassKind::Struct,
                size: 8,
                forward: false,
                class_fields: Some(0x1000),
            },
            SideRecord::Class {
                name: "std::b".to_string(),
                kind: ClassKind::Struct,
                size: 8,
                forward: false,
                class_fields: None,
            },
            SideRecord::FieldList {
                items: vec![TypeItem::Enumerate {
                    name: "one".to_string(),
                    value: Variant::U8(1),
                }],
                continuation: None,
            },
            SideRecord::Enumeration {
                name: "survarium::e".to_string(),
                forward: false,
                nested: false,
                underlying: ty("s32"),
                values: 0x1003,
            },
            SideRecord::Union {
                name: "survarium::u".to_string(),
                size: 4,
                forward: false,
                nested: true,
                count: 0,
                union_fields: 0,
            },
        ],
    }
}

#[test]
fn types_are_taken_from_records() {
    let mut side = SideModel::new();
    extract_headers(&table(), &config(&[]), &mut side).unwrap();
    assert_eq!(side.classes.len(), 1);
    let a = side.class("survarium::a").unwrap();
    assert_eq!(a.kind, "struct");
    assert_eq!(a.fields[1].name, "<base> base");
    let sigs: Vec<&str> = a.methods.iter().map(|m| m.sig.as_str()).collect();
    assert_eq!(sigs, ["void f(char)", "void f(int)"]);
    assert_eq!(
        side.enumeration("survarium::e").unwrap().values,
        [("one".to_string(), 1)]
    );
    let mut none = SideModel::new();
    extract_headers(&table(), &config(&["SURVARIUM"]), &mut none).unwrap();
    assert_eq!(none.classes.len(), 1);
    let mut none = SideModel::new();
    extract_headers(&table(), &config(&["survarium"]), &mut none).unwrap();
    assert!(none.classes.is_empty());
}

#[test]
fn lists_that_turn_back_are_refused() {
    let mut t = table();
    t.records[0] = SideRecord::FieldList {
        items: Vec::new(),
        continuation: Some(0x1000),
    };
    let mut side = SideModel::new();
    assert_eq!(
        extract_headers(&t, &config(&[]), &mut side),
        Err(HeaderError::Malformed)
    );
}

#[test]
fn names_are_left_out_in_any_letter_case() {
    assert!(!include_type("boost::x", &config(&[])));
    assert!(include_type("vostok::x", &config(&[])));
    assert!(!include_type("vostok::Render::x", &config(&["render"])));
    assert!(skipped("A/RENDER.cpp", &config(&["render"])));
    assert!(!skipped("a", &config(&[])));
    assert!(skipped_lowered("a/render", &config(&["x", "render"])));
    assert_eq!(variant_to_i64(Variant::U64(u64::MAX)), -1);
}

#[test]
fn paths_are_relative_to_the_engine() {
    assert_eq!(
        relative_to_engine("c:/e/a\\b.cpp", "c:\\e\\").as_deref(),
        Some("a/b.cpp")
    );
    assert_eq!(relative_to_engine("d:\\x", "c:\\e\\"), None);
}

fn source(filename: &str, name: &str, rva: u32, line: u32) -> SourceFn {
    SourceFn {
        filename: filename.to_string(),
        name_orig: name.to_string(),
        rva,
        reliable: true,
        proc_start: line,
        module_id: 0,
        symbol_order: 0,
        statements: 1,
        constants: vec![("limit".to_string(), "s32".to_string(), Variant::I32(5))],
    }
}

fn side(functions: Vec<SourceFn>) -> SideModel {
    let publics = vec![
        PublicSymbol {
            rva: 1,
            name: "?f".to_string(),
        },
        PublicSymbol {
            rva: 1,
            name: "?alias".to_string(),
        },
    ];
    assert_eq!(find_public(&publics, 1), Some("?f"));
    assert_eq!(find_public(&publics, 2), None);
    assert!(functions.iter().all(|f| can_extract(f, &publics)));
    let mut side = SideModel::new();
    extract_sources(&functions, &publics, "c:\\e\\", &config(&["skipme"]), &mut side);
    side
}

#[test]
fn functions_are_taken_from_source_files() {
    let s = side(vec![
        source("C:\\E\\A.cpp", "void g()", 2, 20),
        source("c:/e/a.cpp", "void f()", 1, 10),
        source("c:\\e\\h.h", "void h()", 3, 1),
        source("d:\\z.cpp", "void z()", 4, 1),
        source("c:\\e\\skipme.cpp", "void y()", 5, 1),
    ]);
    assert_eq!(s.files.len(), 1);
    let names: Vec<(&str, &str)> = s.files[0]
        .1
        .functions
        .iter()
        .map(|f| (f.name_orig.as_str(), f.key.as_str()))
        .collect();
    assert_eq!(names, [("void f()", "?f"), ("void g()", "void g()")]);
    assert_eq!(s.presence_functions.len(), 3);
    assert_eq!(s.presence_functions[2].path, "h.h");
}

#[test]
fn a_build_does_not_diverge_from_itself() {
    let make = || {
        let mut s = side(vec![source("c:\\e\\a.cpp", "void f()", 1, 10)]);
        extract_headers(&table(), &config(&[]), &mut s).unwrap();
        s
    };
    assert_eq!(
        run(&make(), &make(), &config(&[])),
        "================ HEADERS ================\n\n---- header summary ----\ntypes:  1 compared, 0 diverged (0 size, 0 member, 0 fn-order, 0 visibility); base-only 0, target-only 0\nenums:  1 compared, 0 diverged; base-only 0, target-only 0\n\n================ SOURCES ================\n\n---- source summary ----\nfiles:  1 compared, 0 diverged; base-only 0, target-only 0\n        0 files w/ fn-order diff, 0 functions w/ const diff\n        out-of-line presence: 0 base-only (we emit standalone; target inlines), 0 target-only (target emits standalone; we inline / no source)\n\n"
    );
}

fn class(size: u64, fields: &[(&str, u64, u8)], methods: &[&str]) -> ClassModel {
    ClassModel {
        kind: "class",
        size,
        fields: fields
            .iter()
            .map(|(n, o, a)| FieldModel {
                offset: *o,
                typename: "int".to_string(),
                name: n.to_string(),
                access: *a,
            })
            .collect(),
        methods: methods
            .iter()
            .map(|s| MethodModel {
                sig: s.to_string(),
                access: 3,
            })
            .collect(),
    }
}

#[test]
fn classes_are_compared() {
    let b = class(8, &[("x", 0, 3), ("y", 4, 1)], &["f()", "g()"]);
    let t = class(12, &[("x", 0, 1), ("z", 4, 1)], &["g()", "f()"]);
    let mut counts = HeaderCounts::default();
    let mut out = String::new();
    assert!(diff_class("c", &b, &t, &mut counts, &mut out));
    assert_eq!(
        out,
        "class c\n  [size]   base=0x8  target=0xC\n  [member]\n    only-base  y\n    only-tgt   z\n  [fn-order]\n    moved      f()\n  [visibility]\n    x: base=public tgt=private\n\n"
    );
    assert_eq!(
        (
            counts.size_diff,
            counts.member_diff,
            counts.order_diff,
            counts.visibility_diff
        ),
        (1, 1, 1, 1)
    );
    let moved = class(8, &[("x", 4, 3), ("y", 0, 1)], &["f()", "g()"]);
    let mut out = String::new();
    assert!(diff_class("c", &b, &moved, &mut counts, &mut out));
    assert_eq!(
        out,
        "class c\n  [member]\n    changed  x: base(int @0x0)  target(int @0x4)\n    changed  y: base(int @0x4)  target(int @0x0)\n\n"
    );
}

#[test]
fn enumerations_are_compared() {
    let e = |underlying: &str, values: &[(&str, i64)]| EnumModel {
        underlying: underlying.to_string(),
        values: values.iter().map(|(n, v)| (n.to_string(), *v)).collect(),
    };
    let b = e("s32", &[("a", 1), ("b", -1)]);
    let t = e("u8", &[("c", 1), ("d", 2)]);
    let mut out = String::new();
    assert!(diff_enum("e", &b, &t, &mut out));
    assert_eq!(
        out,
        "enum e\n  [underlying]  base=s32  target=u8\n  [values]\n    misname  0x1  base=a  target=c\n    only-base  b = 0xFFFFFFFFFFFFFFFF\n    only-tgt   d = 0x2\n\n"
    );
    let mut out = String::new();
    assert!(!diff_enum("e", &b, &b, &mut out));
    assert_eq!(out, "");
}

#[test]
fn what_one_build_has_is_listed() {
    let mut base = SideModel::new();
    base.classes.push(("a".to_string(), class(1, &[], &[])));
    let target = side(vec![source("c:\\e\\a.cpp", "void f()", 1, 10)]);
    let text = run(&base, &target, &config(&[]));
    assert!(text.contains("---- base-only classes/structs/unions (1) ----\n  a\n\n"), "{text}");
    assert!(text.contains("---- target-only files (1) ----\n  a.cpp\n\n"), "{text}");
    assert!(text.contains("---- target-only out-of-line functions (1) ----\n  [presence] tgt-only   a.cpp  void f()\n\n"), "{text}");
}

#[test]
fn a_list_goes_on_in_a_later_record() {
    let mut t = table();
    if let SideRecord::FieldList { continuation, .. } = &mut t.records[0] {
        *continuation = Some(0x1006);
    }
    t.records.push(SideRecord::FieldList {
        items: vec![TypeItem::Method {
            name: "g".to_string(),
            signature: Some("void g()".to_string()),
            access: 3,
        }],
        continuation: None,
    });
    let mut side = SideModel::new();
    extract_headers(&t, &config(&[]), &mut side).unwrap();
    let a = side.class("survarium::a").unwrap();
    let sigs: Vec<&str> = a.methods.iter().map(|m| m.sig.as_str()).collect();
    assert_eq!(sigs, ["void f(char)", "void f(int)", "void g()"]);
}
