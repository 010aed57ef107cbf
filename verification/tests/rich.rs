//! Listings, structures and comparisons of functions.

use vostok_pdb_parser::fetch::{
    ambiguity_text, containing, decide_view, default_view, describe_selector, does_contain,
    first_match, hit_line, parse_hex, resolve_by_identity, resolve_statement, select, selects,
    Selector, Sides, StatementChoice, ViewAction,
};
use vostok_pdb_parser::rich_callees::{extract, render as render_callees, resolve};
use vostok_pdb_parser::rich_context::{FunctionEntry, Instruction, Local, Statement};
use vostok_pdb_parser::rich_diff::{diff, render_unified, Op};
use vostok_pdb_parser::rich_objdiff::{
    can_diff, diff as objdiff, fuzzy_credit, render as render_objdiff, InsDiff, InsKind, RowKind,
    SymbolDiff,
};
use vostok_pdb_parser::rich_query::{search, Query};
use vostok_pdb_parser::rich_render::{
    render_info, render_listing, render_listing_statement, render_structure,
};
use vostok_pdb_parser::rich_structure_diff::render_structure_diff;

fn statement(off: u32, size: u32, line: u32, source: Option<&str>) -> Statement {
    Statement {
        off,
        size,
        line,
        depth: 0,
        source: source.map(|s| s.to_string()),
    }
}

fn function(name: &str, rva: u32, texts: &[&str]) -> FunctionEntry {
    FunctionEntry {
        name: name.to_string(),
        mangled: format!("?{name}"),
        rva,
        size: 0x10,
        image_base: 0x400000,
        file: "a.cpp".to_string(),
        statements: Vec::new(),
        instructions: texts
            .iter()
            .enumerate()
            .map(|(i, t)| Instruction {
                off: i as u32 * 2,
                len: 2,
                text: t.to_string(),
                label: None,
            })
            .collect(),
        locals: Vec::new(),
        skipped_blocks: Vec::new(),
    }
}

#[test]
fn equal_functions_align_whole() {
    let f = function("f", 0x1000, &["push ebp", "ret"]);
    let g = function("f", 0x2000, &["push ebp", "ret"]);
    let d = diff(&f, &g);
    assert!(d.lines.iter().all(|l| l.op == Op::Equal));
    assert_eq!((d.matched, d.total), (2, 2));
}

#[test]
fn functions_are_aligned() {
    let f = function("f", 0x1000, &["push ebp", "nop", "ret"]);
    let g = function("g", 0x2000, &["push ebp", "int3", "ret"]);
    let d = diff(&f, &g);
    assert_eq!((d.matched, d.total), (2, 4));
    assert_eq!(
        render_unified(&f, &g, &d, "50.0"),
        "--- base    f\n+++ target  g\n  push ebp\n- 0x02: nop\n+ 0x02: int3\n  ret\n; 2/4 instructions equal (50.0%)\n"
    );
    let empty = function("e", 0, &[]);
    assert_eq!(diff(&empty, &empty).total, 0);
}

#[test]
fn a_listing_shows_statements() {
    let mut f = function("void f()", 0x1000, &["push ebp", "ret"]);
    f.instructions[1].label = Some(".1".to_string());
    f.statements = vec![
        statement(0, 2, 1, None),
        statement(2, 1, 2, Some("return;")),
        statement(9, 0, 3, None),
    ];
    assert_eq!(
        render_listing(&f),
        "void f():\n0x00:    push ebp\t; <0x2>\n.1:\n0x02:    ret\t; <0x1> ; return;\n"
    );
    f.statements.truncate(2);
    assert_eq!(
        render_listing(&f),
        "void f():\n0x00:    push ebp\n.1:\n0x02:    ret\n"
    );
}

#[test]
fn locals_are_shown() {
    let mut f = function("void f()", 0x1000, &[]);
    f.locals = vec![Local {
        ty: "int".to_string(),
        name: "i".to_string(),
        scope: 0,
    }];
    assert_eq!(
        render_info(&f),
        "void f():\n; locals (1) — PDB-recorded, approximate under LTO\n  int\ti\n"
    );
}

#[test]
fn a_structure_is_shown() {
    let mut f = function("void f()", 0x1000, &[]);
    f.statements = vec![
        statement(0, 3, 9, None),
        statement(3, 5, 10, None),
        statement(8, 4, 11, None),
        statement(12, 4, 12, None),
    ];
    assert_eq!(
        render_structure(&f),
        "; 0x401000, 2 statements, 0x10 bytes\nvoid f()\n{\naddress |offst|size|line\n--------+-----+----+----\n0x401003|0x003|+0x5|10\n0x401008|0x008|+0x4|11\n}\n"
    );
    f.statements.truncate(2);
    f.locals = vec![Local {
        ty: "int".to_string(),
        name: "i".to_string(),
        scope: 2,
    }];
    assert_eq!(
        render_structure(&f),
        "; 0x401000, 0 statements, 0x10 bytes\nvoid f()\n{\n\n; locals (1):\n;   int  i | scope: 2\n\n}\n"
    );
}

#[test]
fn equal_structures_do_not_differ() {
    let mut f = function("void f()", 0x1000, &[]);
    f.statements = vec![
        statement(0, 3, 9, None),
        statement(3, 5, 10, None),
        statement(8, 4, 11, None),
    ];
    let mut g = function("void f()", 0x2000, &[]);
    g.statements = vec![
        statement(0, 3, 9, None),
        statement(3, 5, 10, None),
        statement(8, 4, 11, None),
    ];
    let text = render_structure_diff(&f, &g, false);
    assert!(text.starts_with("; STRUCTURE MATCH\n"), "{text}");
    assert_eq!(
        render_structure_diff(&f, &g, true),
        "; STRUCTURE MATCH\n; target 0x402000  1 stmts  0x10 bytes\n; base   0x401000  1 stmts  0x10 bytes\nvoid f()\n{\n.. same ..\n}\n"
    );
}

#[test]
fn structures_differ_by_size_and_number() {
    let mut f = function("void f()", 0x1000, &[]);
    f.statements = vec![
        statement(0, 3, 9, None),
        statement(3, 5, 10, Some("a();")),
        statement(8, 4, 11, Some("b();")),
        statement(0xc, 2, 12, None),
    ];
    let mut g = function("void f()", 0x2000, &[]);
    g.statements = vec![
        statement(0, 3, 9, None),
        statement(3, 5, 10, None),
        statement(8, 6, 11, None),
        statement(0xe, 3, 12, None),
        statement(0x11, 2, 13, None),
    ];
    let head = "; DIFF: size-diffs 1, quantity-diffs 1
;   #2 b.L11 SIZE -0x2 (t 0x6/b 0x4)
;   #3 t.L12 T_ONLY
; target 0x402000  3 stmts  0x10 bytes
; base   0x401000  2 stmts  0x10 bytes
void f()
{
b.diff   |t.addr  |b.addr  |t.sz|b.sz|b.line|b.code
---------+--------+--------+----+----+------+------
";
    let same = "         |0x402003|0x401003|0x5 |0x5 |10    |a();\n";
    let rest = "SIZE -0x2|0x402008|0x401008|0x6 |0x4 |11    |b();
T_ONLY   |0x40200e|--      |0x3 |--  |--    |--
}
";
    assert_eq!(
        render_structure_diff(&f, &g, false),
        format!("{head}{same}{rest}")
    );
    assert_eq!(
        render_structure_diff(&f, &g, true),
        format!("{head}.. same ..\n{rest}")
    );
}

#[test]
fn each_run_of_equal_statements_is_one_line() {
    let mut f = function("void f()", 0x1000, &[]);
    let mut g = function("void f()", 0x2000, &[]);
    f.statements = vec![statement(0, 3, 9, None)];
    g.statements = vec![statement(0, 3, 9, None)];
    for (i, (b, t)) in [(5, 5), (6, 6), (7, 8), (9, 9)].into_iter().enumerate() {
        let i = i as u32;
        f.statements.push(statement(i * 16, b, 10 + i, None));
        g.statements.push(statement(i * 16, t, 10 + i, None));
    }
    f.statements.push(statement(0x60, 1, 14, None));
    g.statements.push(statement(0x60, 1, 14, None));
    let text = render_structure_diff(&f, &g, true);
    assert_eq!(text.matches(".. same ..\n").count(), 2, "{text}");
    assert!(text.ends_with("|L12\n.. same ..\n}\n"), "{text}");
}

#[test]
fn callees_are_found_and_resolved() {
    let f = function(
        "void f()",
        0x1000,
        &["call a::g", "call eax", "call .1", "call a::g", "call h", "call [x]", "jmp h"],
    );
    let callees = extract(&f);
    assert_eq!(callees, ["a::g", "h"]);
    let entries = vec![function("int a::g(int)", 0x3000, &[])];
    let resolved = resolve(&entries, &callees);
    assert_eq!(
        render_callees(&f, &callees, &resolved),
        "void f():\n; callees (2)\n  a::g\t-> int a::g(int)\n  h\t-> (unresolved)\n"
    );
}

#[test]
fn functions_are_searched_in_any_letter_case() {
    let mut entries = vec![
        function("void Beta()", 0x3000, &[]),
        function("void alpha()", 0x2000, &[]),
        function("void beta2()", 0x1000, &[]),
    ];
    entries[0].file = "z.cpp".to_string();
    let query = Query {
        name: Some("BETA"),
        rva: None,
        mangled: None,
    };
    let names: Vec<&str> = search(&entries, &query)
        .iter()
        .map(|e| e.name.as_str())
        .collect();
    assert_eq!(names, ["void beta2()", "void Beta()"]);
    let query = Query {
        name: None,
        rva: Some(0x2000),
        mangled: Some("?void alpha()"),
    };
    assert_eq!(search(&entries, &query).len(), 1);
    let open = Query {
        name: None,
        rva: None,
        mangled: None,
    };
    assert_eq!(search(&entries, &open).len(), 3);
}

fn ins(kind: InsKind, address: Option<u64>, size: u8, text: &str, args: &[bool]) -> InsDiff {
    InsDiff {
        kind,
        address,
        size,
        text: text.to_string(),
        same_args: args.to_vec(),
    }
}

#[test]
fn instructions_get_their_share() {
    let l = ins(InsKind::ArgMismatch, Some(0), 3, "mov eax, 1", &[true, false]);
    let r = ins(InsKind::ArgMismatch, Some(0), 4, "mov eax, 2", &[true, false]);
    let c = fuzzy_credit(&l, &r);
    assert_eq!((c.matched, c.parts, c.weight), (2, 3, 4));
    let l = ins(InsKind::Replace, Some(0), 3, "x", &[]);
    assert_eq!(fuzzy_credit(&l, &r).matched, 0);
    let l = ins(InsKind::Same, Some(0), 3, "x", &[]);
    let c = fuzzy_credit(&l, &r);
    assert_eq!(c.matched, c.parts);
}

#[test]
fn objects_are_compared_by_symbol() {
    let base = vec![SymbolDiff {
        name: "?f".to_string(),
        counterpart: Some(0),
        instructions: vec![
            ins(InsKind::Same, Some(16), 1, "push ebp", &[]),
            ins(InsKind::OpMismatch, Some(17), 2, "mov a, b", &[true]),
            ins(InsKind::Insert, None, 0, "", &[]),
        ],
    }];
    let target = vec![SymbolDiff {
        name: "?f".to_string(),
        counterpart: Some(0),
        instructions: vec![
            ins(InsKind::Same, Some(0), 1, "push ebp", &[]),
            ins(InsKind::OpMismatch, Some(1), 2, "lea a, b", &[true]),
            ins(InsKind::Insert, Some(3), 1, "ret", &[]),
        ],
    }];
    assert!(objdiff(&base, &target, "?g").is_none());
    let result = objdiff(&base, &target, "?f").unwrap();
    assert_eq!(result.rows.len(), 3);
    assert_eq!(result.rows[1].kind, RowKind::Replace);
    assert_eq!(result.rows[1].base_off, Some(1));
    assert_eq!(result.credits.as_ref().unwrap().len(), 3);
    let mut f = function("void f()", 0x1000, &[]);
    f.statements = vec![statement(1, 2, 5, Some("x = y;"))];
    assert_eq!(
        render_objdiff(&result, "75.00", &f),
        format!(
            "void f():\n; objdiff fuzzy match 75.00%\n  0x00: push ebp\nx = y;\t; <0x2>\n~ 0x01: {:<28} -> lea a, b\n+ ret\n",
            "mov a, b"
        )
    );
}

#[test]
fn hexadecimal_numbers_are_read() {
    assert_eq!(parse_hex("0x573750"), Some(0x573750));
    assert_eq!(parse_hex("0XfF"), Some(255));
    assert_eq!(parse_hex("ffffffff"), Some(u32::MAX));
    assert_eq!(parse_hex("+1"), Some(1));
    assert_eq!(parse_hex("100000000"), None);
    assert_eq!(parse_hex("0x"), None);
    assert_eq!(parse_hex("-1"), None);
    assert_eq!(parse_hex("g"), None);
}

#[test]
fn a_statement_is_chosen() {
    let mut f = function("f", 0x1000, &[]);
    f.statements = vec![
        statement(0, 3, 1, None),
        statement(3, 5, 2, None),
        statement(8, 4, 3, None),
        statement(12, 1, 4, None),
    ];
    let choose = |index, offset, address| StatementChoice {
        index,
        offset,
        address,
    };
    assert_eq!(resolve_statement(&f, choose(None, None, None)), None);
    assert_eq!(resolve_statement(&f, choose(Some(7), Some(1), None)), Some(7));
    assert_eq!(resolve_statement(&f, choose(None, Some(7), None)), Some(1));
    assert_eq!(resolve_statement(&f, choose(None, Some(0), None)), Some(0));
    assert_eq!(
        resolve_statement(&f, choose(None, None, Some(0x401009))),
        Some(2)
    );
}

#[test]
fn a_function_is_selected() {
    let entries = vec![
        function("f(int)", 0x1000, &[]),
        function("f(char)", 0x2000, &[]),
    ];
    let mut s = Selector {
        function: Some("F("),
        rva: None,
        va: None,
        address: None,
    };
    assert!(selects(&s));
    let (found, n) = first_match(&entries, &s);
    assert_eq!(found.unwrap().rva, 0x1000);
    assert_eq!(n, 2);
    s.va = Some(0x402003);
    assert_eq!(containing(&s), Some(0x402003));
    let (found, n) = first_match(&entries, &s);
    assert_eq!(found.unwrap().rva, 0x2000);
    assert_eq!(n, 1);
    assert!(does_contain(&entries[0], 0x40100f));
    assert!(!does_contain(&entries[0], 0x401010));
    let by_address = Selector {
        function: None,
        rva: None,
        va: None,
        address: Some(5),
    };
    assert_eq!(containing(&by_address), Some(5));
    assert!(first_match(&entries, &by_address).0.is_none());
    let query = Query {
        name: None,
        rva: None,
        mangled: None,
    };
    assert_eq!(select(&entries, &query, None).len(), 2);
    assert_eq!(describe_selector(&s), "'F(' (va 0x402003)");
    s.function = None;
    s.rva = Some(16);
    assert_eq!(describe_selector(&s), "rva 0x10");
    assert_eq!(hit_line(&entries[0]), "0x001000  a.cpp\tf(int)\n");
}

#[test]
fn the_same_function_is_found_in_another_build() {
    let target = function("f(int)", 0x1000, &[]);
    let base = vec![function("f(int)", 0x5000, &[])];
    assert_eq!(resolve_by_identity(&base, &target).unwrap().unwrap().rva, 0x5000);
    let mut renamed = function("f(int)", 0x6000, &[]);
    renamed.mangled = "?other".to_string();
    let base = vec![renamed];
    assert_eq!(resolve_by_identity(&base, &target).unwrap().unwrap().rva, 0x6000);
    let mut twice = vec![function("f(int)", 1, &[]), function("f(int)", 2, &[])];
    for f in &mut twice {
        f.mangled = "?other".to_string();
    }
    assert_eq!(resolve_by_identity(&twice, &target).err(), Some(2));
    assert_eq!(
        ambiguity_text(&target, 2),
        "structure-diff: function 'f(int)' is ambiguous in the base index (2 entries, mangled '?f(int)' did not disambiguate); pass --rva for the target side"
    );
    assert!(resolve_by_identity(&Vec::new(), &target).unwrap().is_none());
}

#[test]
fn views_are_decided() {
    let both = Sides {
        target: true,
        base: true,
        target_index: true,
        base_index: true,
    };
    assert_eq!(default_view(both), "diff");
    assert_eq!(decide_view("diff", both), ViewAction::Diff);
    assert_eq!(decide_view("what", both), ViewAction::Unknown);
    let target = Sides {
        base: false,
        ..both
    };
    assert_eq!(default_view(target), "target");
    assert_eq!(decide_view("base", target), ViewAction::NoBase);
    assert_eq!(decide_view("info", target), ViewAction::Info);
    assert_eq!(decide_view("structure-diff", target), ViewAction::NotInBase);
    let base = Sides {
        target: false,
        ..both
    };
    assert_eq!(default_view(base), "base");
    assert_eq!(decide_view("structure-diff", base), ViewAction::NotInTarget);
    assert_eq!(decide_view("diff", base), ViewAction::DiffNeedsBoth);
    let alone = Sides {
        target_index: false,
        ..base
    };
    assert_eq!(
        decide_view("structure-diff", alone),
        ViewAction::StructureDiffNeedsBoth
    );
}

#[test]
fn a_statement_is_listed_alone() {
    let mut f = function("void f()", 0x1000, &["push ebp", "nop", "ret"]);
    f.statements = vec![
        statement(0, 2, 1, None),
        statement(2, 2, 2, Some("g();")),
        statement(4, 1, 3, None),
    ];
    assert_eq!(
        render_listing_statement(&f, 1).unwrap(),
        "void f():\n0x02:    nop\t; <0x2> ; g();\n"
    );
    assert!(render_listing_statement(&f, 0).is_none());
    assert!(render_listing_statement(&f, 2).is_none());
    assert!(render_listing_statement(&function("g", 0, &["ret"]), 0).is_none());
}

#[test]
fn only_the_symbol_that_is_asked_for_must_be_in_order() {
    let symbol = |name: &str, addresses: [u64; 2], counterpart: Option<usize>| SymbolDiff {
        name: name.to_string(),
        counterpart,
        instructions: addresses
            .iter()
            .map(|a| ins(InsKind::Same, Some(*a), 1, "nop", &[]))
            .collect(),
    };
    let base = vec![
        symbol("?f", [0, 1], None),
        symbol("?g", [1, 0], None),
        symbol("?h", [0, 1], Some(2)),
        symbol("?i", [1, 0], None),
    ];
    let target = vec![symbol("?f", [0, 1], None), symbol("?g", [0, 1], None)];
    assert!(can_diff(&base, &target, "?f"));
    assert!(can_diff(&base, &target, "?x"));
    assert!(!can_diff(&base, &target, "?g"));
    assert!(!can_diff(&base, &target, "?h"));
    let result = objdiff(&base, &target, "?f").unwrap();
    assert_eq!(result.rows[1].base_off, Some(1));
    assert!(result.credits.is_none());
    assert!(can_diff(&base, &target, "?i"));
    assert!(objdiff(&base, &target, "?i").is_none());
}
