//! Source files.

use vostok_pdb_parser::divergence_sources::symbol_order;
use vostok_pdb_parser::formatter::{get_max_length, pad_spaces_t, pad_times};
use vostok_pdb_parser::function_cache::FunctionCache;
use vostok_pdb_parser::function_type::{Attributes, FunctionType, ReturnType};
use vostok_pdb_parser::gen_sources::{LineRecord, Module, ProcedureRecord, Symbol};
use vostok_pdb_parser::paths::{extension_in, file_name_of, FunctionLocation};
use vostok_pdb_parser::source_dump::{
    dump_module, dump_module_today, dump_sources, ModuleRecord, SourceError,
};
use vostok_pdb_parser::source_files::{is_left_out, write_footer, write_header};
use vostok_pdb_parser::source_function::{ConstantValue, GenFlags};

fn flags() -> GenFlags {
    GenFlags {
        as_base: false,
        no_cache: false,
        skip_non_engine_headers: false,
    }
}

fn line(n: u32, rva: u32) -> LineRecord {
    LineRecord {
        line_start: n,
        file: "c:\\e\\a\\b.cpp".to_string(),
        rva: Some(rva),
    }
}

fn symbols() -> Vec<Symbol> {
    vec![
        Symbol::Procedure(ProcedureRecord {
            type_index: 0x1000,
            rva: Some(0x2000),
            lines: vec![line(10, 0x2000), line(11, 0x2004), line(12, 0x2008)],
            signature: Ok((
                "void survarium::f(int)".to_string(),
                FunctionType {
                    name: "survarium::f".to_string(),
                    return_type: ReturnType::Type("void".to_string()),
                    arg_types: vec!["s32".to_string()],
                    attrs: Attributes::none(),
                },
            )),
        }),
        Symbol::BasePointerRelative {
            offset: 8,
            name: "count".to_string(),
            ty: Ok("s32".to_string()),
        },
        Symbol::BasePointerRelative {
            offset: -4,
            name: "local".to_string(),
            ty: Ok("u8".to_string()),
        },
        Symbol::Constant {
            name: "limit".to_string(),
            ty: Ok("s32".to_string()),
            value: ConstantValue::Signed(-5),
        },
        Symbol::ScopeEnd,
    ]
}

#[test]
fn a_function_is_written_as_a_stub() {
    let s = symbols();
    assert!(Module::can_build(3, flags(), &s));
    let m = Module::build(3, flags(), &s).unwrap();
    assert_eq!(m.files.len(), 1);
    assert_eq!(m.files[0].name, "c:\\e\\a\\b.cpp");
    assert!(m.can_output("c:\\e\\"));
    let out = m.outputs("c:\\e\\", "01.02.2024");
    assert_eq!(out.len(), 1);
    assert_eq!(out[0].extension, ".cpp");
    assert_eq!(out[0].relative, "a/b.cpp");
    let text = &out[0].text;
    assert!(text.starts_with("////////////////////////////////////////////////////////////////////////////\n//\tCreated \t: 01.02.2024\n"), "{text}");
    assert!(text.contains("#include \"pch.h\"\n"), "{text}");
    assert!(text.contains("// STATE[STUB]\n"), "{text}");
    assert!(text.contains("count"), "{text}");
    assert!(text.contains("\t// LOCALS\n\t// u8 "), "{text}");
    assert!(text.contains("limit = -5;\n"), "{text}");
    assert!(m.outputs("d:\\", "x").is_empty());
}

#[test]
fn a_function_is_kept_for_headers() {
    let m = Module::build(3, flags(), &symbols()).unwrap();
    let mut cache = FunctionCache::new();
    m.update_cache(&mut cache, flags());
    let s = cache.get("void survarium::f(int)").unwrap();
    assert_eq!(s.margs[0].0, "count");
    assert!(cache.get("x").is_none());
    let mut none = FunctionCache::new();
    m.update_cache(
        &mut none,
        GenFlags {
            no_cache: true,
            ..flags()
        },
    );
    assert!(none.get("void survarium::f(int)").is_none());
}

#[test]
fn a_type_that_cannot_be_named_fails() {
    let mut s = symbols();
    s[1] = Symbol::BasePointerRelative {
        offset: 8,
        name: "count".to_string(),
        ty: Err("no such type".to_string()),
    };
    assert!(Module::build(3, flags(), &s).is_err());
}

#[test]
fn a_file_begins_with_the_day_and_its_guard() {
    let mut text = String::new();
    write_header(&mut text, "x/my_file.h");
    assert!(text.contains("\n#ifndef MY_FILE_H_INCLUDED\n#define MY_FILE_H_INCLUDED\n\n"), "{text}");
    let day = text.split("Created \t: ").nth(1).unwrap();
    assert_eq!(&day[2..3], ".");
    assert_eq!(&day[5..6], ".");
    assert!(day[6..10].parse::<u32>().unwrap() > 2000);
    let mut text = String::new();
    write_footer(&mut text, "x/my_file.h");
    assert_eq!(text, "\n#endif // #ifndef MY_FILE_H_INCLUDED\n");
    let mut text = String::new();
    write_footer(&mut text, "x/my_file.cpp");
    assert_eq!(text, "");
}

#[test]
fn columns_are_reached_by_tabs() {
    assert_eq!(pad_times(0, 8), 2);
    assert_eq!(pad_times(5, 11), 2);
    assert_eq!(pad_times(20, 8), 0);
    let mut text = String::new();
    pad_spaces_t(&mut text, 0, 100);
    assert_eq!(text, "\t".repeat(9));
    assert_eq!(get_max_length(&["a", "bcd"], |s| s.len()), 3);
    assert_eq!(get_max_length(&["a", "x".repeat(36).as_str()], |s| s.len()), 1);
}

#[test]
fn paths_have_names_and_extensions() {
    assert_eq!(file_name_of("a/b.c/").as_deref(), Some("b.c"));
    assert_eq!(file_name_of("a/.."), None);
    assert_eq!(extension_in("a/.hidden"), None);
    assert_eq!(extension_in("a.b/c.cpp").as_deref(), Some("cpp"));
    assert_eq!(FunctionLocation::get("x.cxx"), FunctionLocation::Source);
    assert_eq!(FunctionLocation::get("x.h"), FunctionLocation::Header);
    assert_eq!(FunctionLocation::get("x"), FunctionLocation::Header);
}

#[test]
fn some_modules_are_left_out() {
    assert!(!is_left_out("c:\\x\\a.obj"));
}

fn module(name: &str, symbols: Option<Vec<Symbol>>) -> ModuleRecord {
    ModuleRecord {
        name: name.to_string(),
        symbols,
    }
}

#[test]
fn modules_are_written_in_order() {
    let ms = vec![
        module("a.obj", None),
        module("c:\\scaleform\\b.obj", Some(symbols())),
        module("c.obj", Some(symbols())),
    ];
    let d = dump_sources(&ms, "c:\\e\\", flags(), "d").unwrap_or_else(|e| panic!("{e:?}"));
    assert_eq!(d.modules.len(), 1);
    assert_eq!(d.modules[0][0].relative, "a/b.cpp");
    assert_eq!(d.cache.get("void survarium::f(int)").unwrap().margs[0].0, "count");
    let none = GenFlags {
        no_cache: true,
        ..flags()
    };
    let d = dump_sources(&ms, "c:\\e\\", none, "d").unwrap_or_else(|e| panic!("{e:?}"));
    assert!(d.cache.get("void survarium::f(int)").is_none());
}

#[test]
fn a_module_that_cannot_be_made_ends_it() {
    let mut bad = symbols();
    bad[1] = Symbol::Register {
        name: "count".to_string(),
        ty: Err("no such type".to_string()),
    };
    let ms = vec![module("a.obj", Some(bad))];
    assert!(matches!(
        dump_sources(&ms, "c:\\e\\", flags(), "d"),
        Err(SourceError::Formatter(e)) if e == "no such type"
    ));
    let mut bad = symbols();
    bad.pop();
    bad.extend(symbols());
    let ms = vec![module("a.obj", Some(bad))];
    assert!(matches!(
        dump_sources(&ms, "c:\\e\\", flags(), "d"),
        Err(SourceError::Malformed)
    ));
}

#[test]
fn a_module_is_made_today() {
    let m = module("c.obj", Some(symbols()));
    let mut cache = FunctionCache::new();
    let out = dump_module_today(&m, 0, flags(), "c:\\e\\", &mut cache)
        .unwrap_or_else(|e| panic!("{e:?}"))
        .unwrap();
    assert!(cache.get("void survarium::f(int)").is_some());
    let start = out[0].text.find("Created \t: ").unwrap() + 11;
    let day = out[0].text[start..start + 10].to_string();
    let same = dump_module(&m, 0, flags(), "c:\\e\\", &day, &mut cache)
        .unwrap_or_else(|e| panic!("{e:?}"))
        .unwrap();
    assert_eq!(out[0].text, same[0].text);
}

#[test]
fn a_procedure_has_a_place_among_the_symbols() {
    let mut all = vec![Symbol::FrameProcedure];
    all.extend(symbols());
    all.extend(symbols());
    assert_eq!(symbol_order(&all, 0x2000), 1);
    assert_eq!(symbol_order(&all, 0x2004), 0);
    assert_eq!(symbol_order(&Vec::new(), 0x2000), 0);
}
