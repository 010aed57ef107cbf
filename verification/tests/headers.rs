//! Headers.

use vostok_pdb_parser::field_attributes::MyFieldAttributes;
use vostok_pdb_parser::function_cache::FunctionCache;
use vostok_pdb_parser::function_type::{Attributes, FunctionType, ReturnType};
use vostok_pdb_parser::gen_headers::{dump_headers, dump_headers_today};
use vostok_pdb_parser::header_model::{
    Enum, ForwardReferenceKind, HeaderClass, HeaderError, HeaderField, HeaderRecord, HeaderTable,
    ResolvedMethod, TypeUse, Variant,
};
use vostok_pdb_parser::header_write::{
    build_header_name, can_build_header_name, get_ifdef_name, HeaderType,
};
use vostok_pdb_parser::primitive::names_primitive;
use vostok_pdb_parser::source_function::GenFlags;
use vostok_pdb_parser::type_builder::{Namespace, Type};
use vostok_pdb_parser::type_table::ClassKind;

fn flags(skip: bool) -> GenFlags {
    GenFlags {
        as_base: false,
        no_cache: false,
        skip_non_engine_headers: skip,
    }
}

fn primitive(text: &str) -> TypeUse {
    TypeUse {
        index: 0x74,
        text: Some(text.to_string()),
    }
}

fn class(name: &str, fields: u32, methods: Vec<ResolvedMethod>) -> HeaderRecord {
    HeaderRecord::Class(HeaderClass {
        name: name.to_string(),
        kind: ClassKind::Struct,
        size: 0x1c,
        forward_reference: false,
        fields: Some(fields),
        methods,
    })
}

fn member(name: &str, ty: &str, offset: u64) -> HeaderField {
    HeaderField::Member {
        ty: primitive(ty),
        name: name.to_string(),
        offset,
    }
}

#[test]
fn a_guard_is_named_after_the_class() {
    assert_eq!(get_ifdef_name("vostok::core::a<int>"), "ignore/core_a.h");
    assert_eq!(get_ifdef_name("survarium::b"), "ignore/b.h");
}

#[test]
fn a_header_has_a_place() {
    let ns = Namespace::get_from_class_name_impl("vostok::core::a");
    let path = build_header_name("vostok::core::a<b*>", &ns, HeaderType::Class, flags(false)).unwrap();
    assert_eq!(path.directories, ["vostok", "core"]);
    assert_eq!(path.name, "a_b+_");
    let none = Namespace::none();
    let path = build_header_name("x|y", &none, HeaderType::Enum, flags(false)).unwrap();
    assert_eq!(path.directories, ["others", "enums"]);
    assert_eq!(path.name, "x_y");
    assert!(build_header_name("x", &none, HeaderType::Class, flags(true)).is_none());
    let long = "a".repeat(200);
    assert!(can_build_header_name(&long, &none));
    let path = build_header_name(&long, &none, HeaderType::Class, flags(false)).unwrap();
    assert_eq!(path.name.len(), 140);
    let split = format!("{}é", "a".repeat(139));
    assert!(!can_build_header_name(&split, &none));
}

#[test]
fn a_struct_has_a_header() {
    let t = HeaderTable {
        first: 0x1000,
        records: vec![
            HeaderRecord::MemberFunction,
            HeaderRecord::FieldList {
                fields: vec![
                    member("x", "s32", 0),
                    member("long_name", "pcstr", 0x10),
                    HeaderField::Method {
                        name: "get".to_string(),
                        attributes: MyFieldAttributes(3),
                        method_type: 0x1000,
                    },
                ],
                continuation: None,
            },
            class(
                "survarium::thing",
                0x1001,
                vec![ResolvedMethod {
                    name: "get".to_string(),
                    method_type: 0x1000,
                    full_name: Some("s32 survarium::thing::get()".to_string()),
                    parsed: Some(FunctionType {
                        name: "get".to_string(),
                        return_type: ReturnType::Type("s32".to_string()),
                        arg_types: Vec::new(),
                        attrs: Attributes::none(),
                    }),
                }],
            ),
        ],
    };
    let out = dump_headers(&t, &FunctionCache::new(), flags(false), "01.02.2024").unwrap();
    assert_eq!(out.len(), 1);
    assert_eq!(out[0].path.directories, ["survarium"]);
    assert_eq!(out[0].path.name, "thing");
    let text = &out[0].text;
    assert!(text.starts_with("////////////////////////////////////////////////////////////////////////////\n//\tCreated \t: 01.02.2024\n"), "{text}");
    assert!(text.contains("#ifndef THING_H_INCLUDED\n#define THING_H_INCLUDED\n"), "{text}");
    assert!(text.contains("struct thing {\n"), "{text}");
    assert!(text.contains("\t/* 0x0000 */\ts32"), "{text}");
    assert!(text.contains("\tlong_name;\n"), "{text}");
    assert!(text.contains("{ /* no source */ }\n"), "{text}");
    assert!(text.contains("}; // struct thing\n\nSTATIC_SIZE_ASSERT(thing, 0x1C);\n"), "{text}");
    assert!(text.ends_with("#endif // #ifndef THING_H_INCLUDED\n"), "{text}");
}

#[test]
fn a_class_that_cannot_be_told_is_left_out() {
    let t = HeaderTable {
        first: 0x1000,
        records: vec![
            HeaderRecord::FieldList {
                fields: vec![HeaderField::Member {
                    ty: TypeUse {
                        index: 0x74,
                        text: None,
                    },
                    name: "x".to_string(),
                    offset: 0,
                }],
                continuation: None,
            },
            class("survarium::thing", 0x1000, Vec::new()),
        ],
    };
    let out = dump_headers(&t, &FunctionCache::new(), flags(false), "d").unwrap();
    assert!(out.is_empty());
    let t = HeaderTable {
        first: 0x1000,
        records: vec![
            HeaderRecord::FieldList {
                fields: Vec::new(),
                continuation: Some(0x1000),
            },
            class("survarium::thing", 0x1000, Vec::new()),
        ],
    };
    assert!(matches!(
        dump_headers(&t, &FunctionCache::new(), flags(false), "d"),
        Err(HeaderError::Malformed)
    ));
}

#[test]
fn an_enumeration_is_written() {
    let e = Enum {
        name: "survarium::kind_enum".to_string(),
        underlying: Type("s32".to_string()),
        values: vec![
            ("first".to_string(), Variant::U16(1)),
            ("longer_name".to_string(), Variant::I32(-2)),
            ("big".to_string(), Variant::U32(0x12345)),
        ],
    };
    let mut text = String::new();
    e.fmt("kind_enum", &mut text);
    assert_eq!(
        text,
        "enum kind_enum\n{\n\tfirst\t\t\t= 0x0001,\n\tlonger_name\t\t= -0x0002,\n\tbig\t\t\t\t= 0x12345,\n};\n"
    );
    let ns = Namespace::get_from_class_name_impl("survarium::kind_enum");
    let whole = e.to_header_file("survarium::kind_enum", &ns, "d");
    assert!(whole.contains("#ifndef KIND_ENUM_H_INCLUDED"), "{whole}");
    assert!(whole.contains("enum kind_enum\n"), "{whole}");
}

#[test]
fn values_have_sizes() {
    assert_eq!(Variant::I8(-128).size(), 0xffff_ffff_ffff_ff80);
    assert_eq!(Variant::U64(u64::MAX).parts(), (true, 1));
    assert_eq!(Variant::I16(-3).parts(), (true, 3));
}

#[test]
fn classes_are_announced_by_kind() {
    assert_eq!(
        ForwardReferenceKind::from_class_kind(ClassKind::Struct),
        ForwardReferenceKind::Struct
    );
    assert_eq!(
        ForwardReferenceKind::from_class_kind(ClassKind::Class),
        ForwardReferenceKind::Class
    );
}

#[test]
fn an_enumeration_with_values_takes_the_place_of_one_without() {
    let kind = |list: u32| HeaderRecord::Enumeration {
        name: "survarium::kind_enum".to_string(),
        underlying: primitive("s32"),
        list,
    };
    let list = |index: u32| HeaderRecord::FieldList {
        fields: vec![HeaderField::Member {
            ty: TypeUse {
                index,
                text: Some("survarium::kind_enum".to_string()),
            },
            name: "k".to_string(),
            offset: 0,
        }],
        continuation: None,
    };
    let t = HeaderTable {
        first: 0x1000,
        records: vec![
            kind(0),
            HeaderRecord::FieldList {
                fields: vec![HeaderField::Enumerate {
                    name: "first".to_string(),
                    value: Variant::U16(7),
                }],
                continuation: None,
            },
            kind(0x1001),
            list(0x1000),
            list(0x1002),
            class("survarium::a", 0x1003, Vec::new()),
            class("survarium::b", 0x1004, Vec::new()),
            class("survarium::c", 0x1003, Vec::new()),
        ],
    };
    let out = dump_headers(&t, &FunctionCache::new(), flags(false), "d").unwrap();
    assert_eq!(out.len(), 4);
    assert_eq!(out[3].path.directories, ["survarium", "enums"]);
    assert_eq!(out[3].path.name, "kind_enum");
    assert!(out[3].text.contains("\tfirst\t"), "{}", out[3].text);
    assert!(out[3].text.contains("= 0x7,\n"), "{}", out[3].text);
}

fn point(index: u32) -> HeaderField {
    HeaderField::Member {
        ty: TypeUse {
            index,
            text: Some("survarium::u*".to_string()),
        },
        name: "p".to_string(),
        offset: 0,
    }
}

fn of_fields(fields: Vec<HeaderField>, more: Vec<HeaderRecord>) -> HeaderTable {
    let mut records = vec![
        HeaderRecord::FieldList {
            fields,
            continuation: None,
        },
        class("survarium::thing", 0x1000, Vec::new()),
    ];
    records.extend(more);
    HeaderTable {
        first: 0x1000,
        records,
    }
}

#[test]
fn a_type_may_refer_to_a_later_one() {
    let more = vec![
        HeaderRecord::Indirect { to: 0x1003 },
        HeaderRecord::Indirect { to: 0x1004 },
        HeaderRecord::Union,
    ];
    let t = of_fields(vec![point(0x1002)], more);
    let out = dump_headers(&t, &FunctionCache::new(), flags(false), "d").unwrap();
    assert_eq!(out.len(), 1);
    assert!(out[0].text.contains("\tp;\n"), "{}", out[0].text);
}

#[test]
fn a_list_may_be_continued_in_a_later_one() {
    let mut t = of_fields(
        vec![member("x", "s32", 0)],
        vec![HeaderRecord::FieldList {
            fields: vec![member("y", "s32", 4)],
            continuation: None,
        }],
    );
    if let HeaderRecord::FieldList { continuation, .. } = &mut t.records[0] {
        *continuation = Some(0x1002);
    }
    let out = dump_headers(&t, &FunctionCache::new(), flags(false), "d").unwrap();
    assert_eq!(out.len(), 1);
    assert!(out[0].text.contains("\tx;\n"), "{}", out[0].text);
    assert!(out[0].text.contains("\ty;\n"), "{}", out[0].text);
}

#[test]
fn types_that_go_round_are_refused() {
    let more = vec![
        HeaderRecord::Indirect { to: 0x1003 },
        HeaderRecord::Indirect { to: 0x1002 },
    ];
    let t = of_fields(vec![point(0x1002)], more);
    assert!(matches!(
        dump_headers(&t, &FunctionCache::new(), flags(false), "d"),
        Err(HeaderError::Malformed)
    ));
}

#[test]
fn an_index_of_no_primitive_type_leaves_the_class_out() {
    for index in [0xfe, 0x800, 0x874] {
        let t = of_fields(vec![point(index)], Vec::new());
        let out = dump_headers(&t, &FunctionCache::new(), flags(false), "d").unwrap();
        assert!(out.is_empty());
    }
    for index in [0x74, 0x474] {
        let t = of_fields(vec![point(index)], Vec::new());
        let out = dump_headers(&t, &FunctionCache::new(), flags(false), "d").unwrap();
        assert_eq!(out.len(), 1);
    }
}

#[test]
fn primitive_types_are_known() {
    assert!(names_primitive(0));
    assert!(names_primitive(0x74));
    assert!(names_primitive(0x675));
    assert!(!names_primitive(0xfe));
    assert!(!names_primitive(0x01));
    assert!(!names_primitive(0x874));
}

#[test]
fn headers_are_made_today() {
    let t = of_fields(vec![member("x", "s32", 0)], Vec::new());
    let out = dump_headers_today(&t, &FunctionCache::new(), flags(false)).unwrap();
    let start = out[0].text.find("Created \t: ").unwrap() + 11;
    let day = &out[0].text[start..start + 10];
    assert_eq!((&day[2..3], &day[5..6]), (".", "."));
    let same = dump_headers(&t, &FunctionCache::new(), flags(false), day).unwrap();
    assert_eq!(out[0].text, same[0].text);
}
