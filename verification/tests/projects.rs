//! The projects of a build.

use vostok_pdb_parser::build_flags::{
    basename, coarse_summary, crt_of, join_win, normalize_cmd, project_in_intermediates,
    project_named, sort_flags, summary, tokenize, CoarseFlags,
};
use vostok_pdb_parser::build_info::{
    build_projects, first_source_file, read_compiland, Compiland, CompilandRecord,
};
use vostok_pdb_parser::build_report::{dump, write_comparison, write_report};

fn flags(ltcg: bool, gs: bool, no_debug: bool) -> CoarseFlags {
    CoarseFlags {
        link_time_codegen: ltcg,
        security_checks: gs,
        no_debug_info: no_debug,
    }
}

#[test]
fn a_command_line_is_taken_apart() {
    assert_eq!(
        tokenize(" -O2 \"-I c:\\x y\"  -DA=\"b c\" "),
        ["-O2", "\"-I c:\\x y\"", "-DA=\"b c\""]
    );
    assert!(tokenize("  ").is_empty());
}

#[test]
fn files_that_are_written_do_not_count() {
    assert_eq!(
        normalize_cmd("-Zi -Foobj\\a.obj -MT -O2 /FdX.pdb -fpx"),
        "-MT -O2 -Zi"
    );
    assert_eq!(sort_flags(vec!["b".to_string(), "a".to_string()]), "a b");
}

#[test]
fn the_runtime_library_is_found() {
    assert_eq!(crt_of("-MDd -MT"), "/MDd");
    assert_eq!(crt_of("/md"), "/MD");
    assert_eq!(crt_of("-mtd"), "/MTd");
    assert_eq!(crt_of("-O2 -MT"), "/MT");
    assert_eq!(crt_of("-MTx"), "/MT?");
}

#[test]
fn a_summary_tells_some_flags() {
    assert_eq!(summary("-DX -EHsc -O2 -W4 /GS- -Zi"), "-EHsc -O2 /GS- -Zi");
    assert_eq!(coarse_summary(flags(true, true, false)), "LTCG,/GS");
    assert_eq!(coarse_summary(flags(false, false, true)), "no-debug");
    assert_eq!(coarse_summary(flags(false, false, false)), "(none)");
}

#[test]
fn paths_are_joined() {
    assert_eq!(join_win("c:\\w\\\\", ".\\a.cpp"), "c:\\w\\a.cpp");
    assert_eq!(join_win("c:\\w", "./a.cpp"), "c:\\w\\a.cpp");
    assert_eq!(join_win("c:\\w", "d:\\a.cpp"), "d:\\a.cpp");
    assert_eq!(join_win("c:\\w", "\\a.cpp"), "\\a.cpp");
    assert_eq!(join_win("c:\\w", "a.cpp"), "c:\\w\\a.cpp");
    assert_eq!(basename("c:\\x/y.lib"), "y.lib");
}

#[test]
fn a_project_is_found() {
    assert_eq!(
        project_in_intermediates("c:/x/intermediates/gold/core/a.obj").as_deref(),
        Some("core")
    );
    assert_eq!(project_in_intermediates("intermediates\\gold\\a.obj"), None);
    assert_eq!(project_in_intermediates("intermediates\\gold"), None);
    assert_eq!(project_in_intermediates("c:\\a.obj"), None);
    assert_eq!(project_named("c:\\core.lib", "", ""), "core");
    assert_eq!(
        project_named("a.obj", "x", "intermediates\\g\\p\\a.obj"),
        "p"
    );
    assert_eq!(project_named("a.obj", "x", "y"), "");
}

fn compiland(lib: &str, source: Option<&str>, cmd: Option<&str>) -> Compiland {
    Compiland {
        module_name: "m".to_string(),
        object_file_name: lib.to_string(),
        obj_name: "o.obj".to_string(),
        source: source.map(|s| s.to_string()),
        cmd: cmd.map(|s| s.to_string()),
        flags: Some(flags(true, false, false)),
        version: "v".to_string(),
    }
}

#[test]
fn records_tell_of_a_compiland() {
    let records = vec![
        CompilandRecord::ObjName("a.obj".to_string()),
        CompilandRecord::Compile {
            version: "15".to_string(),
            flags: flags(false, true, false),
        },
        CompilandRecord::Environment(
            ["cwd", "c:\\w\\", "src", "a.cpp", "cmd", "-O2", "odd"]
                .iter()
                .map(|s| s.to_string())
                .collect(),
        ),
    ];
    let c = read_compiland("m", "x.lib", &records, None);
    assert_eq!(c.obj_name, "a.obj");
    assert_eq!(c.source.as_deref(), Some("c:\\w\\a.cpp"));
    assert_eq!(c.cmd.as_deref(), Some("-O2"));
    assert_eq!(c.version, "15");
    let c = read_compiland("m", "x.lib", &Vec::new(), Some("z.cpp".to_string()));
    assert_eq!(c.source.as_deref(), Some("z.cpp"));
    assert_eq!(
        first_source_file(&vec!["a.h".to_string(), "B.CPP".to_string()]).as_deref(),
        Some("B.CPP")
    );
    assert_eq!(first_source_file(&vec!["a.h".to_string()]), None);
}

#[test]
fn compilands_are_put_into_projects() {
    let v = vec![
        compiland("C:\\Core.LIB", Some("b.cpp"), Some("-MT -O2")),
        compiland("C:\\Core.LIB", Some("a.cpp"), Some("-O2 -MT")),
        compiland("C:\\Core.LIB", None, None),
        compiland("x.obj", Some("lost.cpp"), None),
    ];
    let projects = build_projects(&v);
    assert_eq!(projects.len(), 1);
    assert_eq!(projects[0].0, "core");
    let p = &projects[0].1;
    assert_eq!(p.lib, "C:\\Core.LIB");
    assert_eq!(p.sources, ["b.cpp", "a.cpp", "o.obj"]);
    assert_eq!(p.flag_sets.len(), 1);
    assert_eq!(p.flag_sets[0].cmd, "-MT -O2");
    assert_eq!(p.no_cmd, 1);
    assert_eq!(p.source_count(), 3);
    assert_eq!(p.crt(), "/MT");
    assert_eq!(p.config(), "/MT  -MT -O2  (+1 files w/o cmdline)");
    let text = write_report(&projects, false);
    assert_eq!(
        text,
        "# Recovered 1 projects from PDB\n\n════════════════════════════════════════════════════════════\nproject : core\noutput  : C:\\Core.LIB\nsources : 3\nconfig  : /MT  -MT -O2  (+1 files w/o cmdline)\n    a.cpp\n    b.cpp\n    o.obj\n\n"
    );
    assert!(write_report(&projects, true).contains("cmd[0] : -MT -O2\n"));
}

#[test]
fn projects_are_compared() {
    let target = build_projects(&vec![
        compiland("core.lib", Some("a.cpp"), Some("-MT")),
        compiland("game.lib", Some("g.cpp"), Some("-MT -O2")),
        compiland("part.lib", Some("p.cpp"), None),
        compiland("old.lib", Some("o.cpp"), Some("-MT")),
        compiland("same.lib", Some("s.cpp"), Some("-MT")),
    ]);
    let base = build_projects(&vec![
        compiland("core.lib", Some("a.cpp"), Some("-MD")),
        compiland("game.lib", Some("g.cpp"), Some("-MT -O1")),
        compiland("part.lib", Some("p.cpp"), Some("-MT")),
        compiland("new.lib", Some("n.cpp"), Some("-MT")),
        compiland("same.lib", Some("s.cpp"), Some("-MT")),
    ]);
    let text = write_comparison("t.pdb", "b.pdb", &target, &base, true);
    assert!(text.starts_with("# report-2 — project/config comparison\n\nTARGET = t.pdb\nBASE   = b.pdb\n\nprojects: target=5  base=5  in-both=4  target-only=1  base-only=1\n\n"));
    assert!(text.contains("── core   [DIFF-CRT]   (target 1 src / base 1 src)\n     target: /MT  -MT\n     base  : /MD  -MD\n       target cmd[0]: -MT\n       base   cmd[0]: -MD\n\n"));
    assert!(text.contains("── game   [DIFF-FLAGS]"));
    assert!(text.contains("── part   [PARTIAL (cmdline one side)]"));
    assert!(text.contains("     target: [no cmdline] LTCG\n"));
    assert!(text.contains("── same   [MATCH]"));
    assert!(text.contains("── old   (1 src)   /MT  -MT\n"));
    assert!(text.ends_with("── new   (1 src)   /MT  -MT\n"));
}

#[test]
fn compilands_are_shown() {
    let v = vec![
        compiland("Core.lib", Some("a.cpp"), None),
        compiland("game.lib", None, Some("-O2")),
    ];
    let f = vec![Some("Flags".to_string()), None];
    let text = dump(&v, &f, None, Some("CORE"));
    assert_eq!(
        text,
        "════════════════════════════════════════════════════════════\nmodule      : m\nobject_file : Core.lib\nobj         : o.obj\nsource      : a.cpp\ncompiler    : v\ncompile3    : Flags\ncmd         : <none>\n"
    );
    let text = dump(&v, &f, Some(2), None);
    assert!(text.ends_with("source      : <none>\ncompiler    : v\ncmd         : -O2\n"));
    assert_eq!(dump(&v, &f, None, None), "");
}

#[test]
fn a_mixed_project_has_no_runtime_library() {
    let v = vec![
        compiland("C:\\Core.LIB", Some("a.cpp"), Some("-MT")),
        compiland("C:\\Core.LIB", Some("b.cpp"), Some("-MD")),
        compiland("C:\\Net.LIB", Some("c.cpp"), None),
    ];
    let projects = build_projects(&v);
    assert_eq!(projects[0].1.crt(), "?");
    assert_eq!(projects[0].1.config(), "?  -MD  ||  -MT");
    assert_eq!(projects[1].1.crt(), "?");
    assert_eq!(projects[1].1.config(), "[no cmdline] LTCG");
}
