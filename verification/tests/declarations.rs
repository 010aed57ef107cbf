//! Functions that the sources declare.

use vostok_pdb_parser::declarations::{
    dump_declarations, render_signature, DeclarationKind, FreeProcedure,
};
use vostok_pdb_parser::field_attributes::{Access, MyFieldAttributes};
use vostok_pdb_parser::function_type::{Attributes, FunctionType, ReturnType};
use vostok_pdb_parser::header_model::{
    HeaderClass, HeaderError, HeaderField, HeaderRecord, HeaderTable, OverloadItem, ResolvedMethod,
};
use vostok_pdb_parser::type_table::ClassKind;

fn fn_t(name: &str, ret: Option<&str>, args: &[&str]) -> FunctionType {
    FunctionType {
        name: name.to_string(),
        return_type: match ret {
            Some(t) => ReturnType::Type(t.to_string()),
            None => ReturnType::Constructor,
        },
        arg_types: args.iter().map(|a| a.to_string()).collect(),
        attrs: Attributes::none(),
    }
}

fn resolved(name: &str, ty: u32, f: FunctionType) -> ResolvedMethod {
    ResolvedMethod {
        name: name.to_string(),
        method_type: ty,
        full_name: None,
        parsed: Some(f),
    }
}

fn table(fields: Vec<HeaderField>, methods: Vec<ResolvedMethod>) -> HeaderTable {
    HeaderTable {
        first: 0x1000,
        records: vec![
            HeaderRecord::MethodList {
                methods: vec![
                    OverloadItem {
                        attributes: MyFieldAttributes(3),
                        method_type: 0x2000,
                    },
                    OverloadItem {
                        attributes: MyFieldAttributes(1 + (4 << 2)),
                        method_type: 0x2001,
                    },
                ],
            },
            HeaderRecord::FieldList {
                fields: vec![HeaderField::Method {
                    name: "last".to_string(),
                    attributes: MyFieldAttributes(2 + (2 << 2)),
                    method_type: 0x2002,
                }],
                continuation: None,
            },
            HeaderRecord::FieldList {
                fields,
                continuation: Some(0x1001),
            },
            HeaderRecord::Class(HeaderClass {
                name: "vostok::c".to_string(),
                kind: ClassKind::Class,
                size: 4,
                forward_reference: false,
                fields: Some(0x1002),
                methods,
            }),
        ],
    }
}

#[test]
fn signatures_are_rendered() {
    assert_eq!(
        render_signature(&fn_t("f", Some("void"), &["int", "u8"])),
        "void (int, u8)"
    );
    assert_eq!(render_signature(&fn_t("c", None, &[])), "()");
}

#[test]
fn methods_and_free_functions_are_declared() {
    let fields = vec![
        HeaderField::OverloadedMethod {
            name: "f".to_string(),
            method_list: 0x1000,
        },
        HeaderField::Method {
            name: "__vecDelDtor".to_string(),
            attributes: MyFieldAttributes(3),
            method_type: 0x2000,
        },
    ];
    let methods = vec![
        resolved("f", 0x2000, fn_t("f", Some("void"), &["int"])),
        resolved("f", 0x2001, fn_t("f", Some("void"), &[])),
        resolved("last", 0x2002, fn_t("last", Some("int"), &[])),
        resolved("__vecDelDtor", 0x2000, fn_t("__vecDelDtor", Some("void"), &[])),
    ];
    let procedures = vec![
        FreeProcedure {
            name: "main".to_string(),
            is_free: true,
            global: false,
            parsed: Some(fn_t("main", Some("int"), &[])),
        },
        FreeProcedure {
            name: "main".to_string(),
            is_free: true,
            global: false,
            parsed: Some(fn_t("main", Some("int"), &[])),
        },
        FreeProcedure {
            name: "`made'".to_string(),
            is_free: true,
            global: true,
            parsed: Some(fn_t("m", Some("int"), &[])),
        },
    ];
    let rows = dump_declarations(&table(fields, methods), &procedures).unwrap();
    let shown: Vec<String> = rows
        .iter()
        .map(|d| {
            format!(
                "{:?} {} {} {:?} {} {} {}",
                d.class.as_deref(),
                d.name,
                d.signature,
                d.access,
                d.is_virtual,
                d.is_static,
                d.kind.label()
            )
        })
        .collect();
    assert_eq!(
        shown,
        [
            "None main int () Unspecified false true free",
            "Some(\"vostok::c\") f void () Private true false method",
            "Some(\"vostok::c\") f void (int) Public false false method",
            "Some(\"vostok::c\") last int () Protected false true method",
        ]
    );
    assert_eq!(rows[0].kind, DeclarationKind::Free);
    assert_eq!(rows[0].access, Access::Unspecified);
}

#[test]
fn a_list_that_cannot_be_read_fails() {
    let fields = vec![HeaderField::OverloadedMethod {
        name: "f".to_string(),
        method_list: 0x9000,
    }];
    assert!(matches!(
        dump_declarations(&table(fields, Vec::new()), &Vec::new()),
        Err(HeaderError::Skip)
    ));
    let mut t = table(Vec::new(), Vec::new());
    t.records[1] = HeaderRecord::FieldList {
        fields: Vec::new(),
        continuation: Some(0x1002),
    };
    assert!(matches!(
        dump_declarations(&t, &Vec::new()),
        Err(HeaderError::Malformed)
    ));
}

#[test]
fn a_list_may_be_continued_by_a_later_one() {
    let method = |name: &str| HeaderField::Method {
        name: name.to_string(),
        attributes: MyFieldAttributes(3),
        method_type: 0x2000,
    };
    let mut t = table(
        vec![method("f")],
        vec![
            resolved("f", 0x2000, fn_t("f", Some("void"), &[])),
            resolved("g", 0x2000, fn_t("g", Some("void"), &[])),
        ],
    );
    t.records[2] = HeaderRecord::FieldList {
        fields: vec![method("f")],
        continuation: Some(0x1004),
    };
    t.records.push(HeaderRecord::FieldList {
        fields: vec![method("g")],
        continuation: None,
    });
    let rows = dump_declarations(&t, &Vec::new()).ok().unwrap();
    let names: Vec<&str> = rows.iter().map(|d| d.name.as_str()).collect();
    assert_eq!(names, ["f", "g"]);
}
