//! Solutions, projects and the files that they list.

use vostok_pdb_parser::dump_pdb::{
    generate_project_filters, generate_project_filters_impl, generate_project_footer,
    generate_project_header, generate_sln, generate_solution_source, generate_vcproj,
    generate_vs_solution, name_of_solution, normalize_engine_path, normalize_lowered_path,
    read_solution_guid, write_tabs, SolutionError,
};
use vostok_pdb_parser::files::{Files, MissingFolder};
use vostok_pdb_parser::guid::guid_upper;
use vostok_pdb_parser::source_function::GenFlags;
use vostok_pdb_parser::utils_fs::{append_to_name, can_append_to_name, path_to_try};

const ID: u128 = 0x936da01f_9abd_4d9d_80c7_02af85c822a8;

fn flags(as_base: bool) -> GenFlags {
    GenFlags {
        as_base,
        no_cache: false,
        skip_non_engine_headers: false,
    }
}

#[test]
fn an_identifier_is_written_in_capitals() {
    assert_eq!(guid_upper(ID), "936DA01F-9ABD-4D9D-80C7-02AF85C822A8");
    assert_eq!(guid_upper(0), "00000000-0000-0000-0000-000000000000");
}

#[test]
fn a_solution_gives_its_project_back() {
    let text = generate_solution_source(1, ID, "game");
    assert!(text.starts_with("\nMicrosoft Visual Studio Solution File, Format Version 10.00\n"));
    assert!(text.contains("Project(\"{00000000-0000-0000-0000-000000000001}\") = \"game\", \"game.vcproj\", \"{936DA01F-9ABD-4D9D-80C7-02AF85C822A8}\"\n"));
    assert_eq!(read_solution_guid(&text), Ok(ID));
}

#[test]
fn identifiers_are_read_in_every_form() {
    let line = |s: &str| format!("Project(x) {{{s}}}\r\n");
    assert_eq!(
        read_solution_guid(&line("936da01f9abd4d9d80c702af85c822a8")),
        Ok(ID)
    );
    assert_eq!(
        read_solution_guid(&line("urn:uuid:936da01f-9abd-4d9d-80c7-02af85c822a8")),
        Ok(ID)
    );
}

#[test]
fn a_solution_without_matching_braces_is_corrupted() {
    assert_eq!(read_solution_guid(""), Err(SolutionError::Corrupted));
    assert_eq!(
        read_solution_guid("Project(\"x\")\n"),
        Err(SolutionError::Corrupted)
    );
    assert_eq!(
        read_solution_guid("Project( a } b }\n"),
        Err(SolutionError::Corrupted)
    );
    assert_eq!(
        read_solution_guid("Project( a { b\n"),
        Err(SolutionError::Corrupted)
    );
    assert_eq!(
        read_solution_guid("Project( {no identifier}\n"),
        Err(SolutionError::Guid)
    );
    // A line without braces is passed over.
    let text = format!("Project(\nProject({{{}}}\n", "936da01f9abd4d9d80c702af85c822a8");
    assert_eq!(read_solution_guid(&text), Ok(ID));
}

#[test]
fn a_new_solution_has_identifiers_of_its_own() {
    let s = generate_sln(None, "game").unwrap();
    let text = s.text.unwrap();
    assert_eq!(read_solution_guid(&text), Ok(s.vcproj_guid));
    assert_eq!((s.vcproj_guid >> 76) & 0xf, 4);
    assert_eq!((s.vcproj_guid >> 62) & 3, 2);
    let other = generate_sln(None, "game").unwrap();
    assert_ne!(s.vcproj_guid, other.vcproj_guid);
    let again = generate_sln(Some(&text), "game").unwrap();
    assert_eq!(again.vcproj_guid, s.vcproj_guid);
    assert!(again.text.is_none());
    assert!(matches!(
        generate_sln(Some("x"), "game"),
        Err(SolutionError::Corrupted)
    ));
}

#[test]
fn the_solution_is_named_after_the_code() {
    assert_eq!(name_of_solution(flags(true)), "xray_structure");
    assert_eq!(name_of_solution(flags(false)), "vostok_structure");
    let files = Files::new();
    let s = generate_vs_solution(None, flags(true), &files).unwrap();
    assert_eq!(s.name, "xray_structure");
    assert_eq!(
        s.project,
        generate_vcproj(s.solution.vcproj_guid, "xray_structure", &files)
    );
}

#[test]
fn a_project_lists_its_files() {
    let mut files = Files::new();
    assert!(files.insert("headers/vostok/a.h"));
    let text = generate_vcproj(ID, "game", &files);
    assert!(text.starts_with("<?xml version=\"1.0\" encoding=\"Windows-1252\"?>\n"));
    assert!(text.contains("\tProjectGUID=\"{936DA01F-9ABD-4D9D-80C7-02AF85C822A8}\"\n"));
    let header = generate_project_header(ID, "game");
    let footer = generate_project_footer();
    let middle = &text[header.len()..text.len() - footer.len()];
    assert_eq!(
        middle,
        "\t\t<Filter\n\t\t\tName=\"headers\"\n\t\t\t>\n\
         \t\t\t<Filter\n\t\t\t\tName=\"vostok\"\n\t\t\t\t>\n\
         \t\t\t\t<File\n\t\t\t\t\tRelativePath=\".\\headers/vostok/a.h\"\n\t\t\t\t\t>\n\t\t\t\t</File>\n\
         \t\t\t</Filter>\n\t\t</Filter>\n"
    );
    assert_eq!(
        footer,
        "\n\t</Files>\n\t<Globals>\n\t</Globals>\n</VisualStudioProject>\n"
    );
}

#[test]
fn headers_of_others_are_not_listed() {
    let mut files = Files::new();
    files.insert("headers/others/b.h");
    let mut text = String::new();
    generate_project_filters(&files, &mut text);
    assert!(!text.contains("others"));
    let mut deeper = String::new();
    generate_project_filters_impl(&files, &mut deeper, 3);
    assert!(deeper.contains("\"others\""));
}

#[test]
fn tabs_are_written() {
    let mut text = String::from("x");
    write_tabs(&mut text, 3);
    assert_eq!(text, "x\t\t\t");
}

#[test]
fn a_folder_is_new_once() {
    let mut files = Files::default();
    assert!(files.insert("a/b/c.h"));
    assert!(!files.insert("a/b/c.h"));
    assert!(!files.insert_leak("a/b/d.h"));
    assert!(files.insert("a/e/f.h"));
    assert!(!files.insert("root.h"));
    assert_eq!(files.folders.len(), 1);
    assert_eq!(files.folders[0].content.folders.len(), 2);
    assert_eq!(
        files.folders[0].content.folders[0].content.files,
        ["a/b/c.h", "a/b/d.h"]
    );
    assert_eq!(files.files, ["root.h"]);
    assert!(!files.insert(""));
    assert!(!files.insert("a//./b/c.h"));
    assert!(!files.insert("root.h/"));
    assert_eq!(
        files.folders[0].content.folders[0].content.files,
        ["a/b/c.h", "a/b/d.h"]
    );
    assert_eq!(files.files, ["root.h"]);
}

#[test]
fn a_layer_is_put_between() {
    let mut files = Files::new();
    files.insert("x.h");
    files.insert("sub/y.h");
    files.move_layer_up("__root");
    assert!(files.files.is_empty());
    assert_eq!(files.folders[1].name, "__root");
    assert_eq!(files.folders[1].content.files, ["x.h"]);
    assert_eq!(files.folders[0].content.files, ["sub/y.h"]);
}

#[test]
fn the_roots_are_lifted_or_missed() {
    let mut files = Files::new();
    assert_eq!(files.lift_roots(), Err(MissingFolder::Headers));
    files.insert("headers/a.h");
    assert_eq!(files.lift_roots(), Err(MissingFolder::EngineHeaders));
    files.insert("headers/vostok/b.h");
    assert_eq!(files.lift_roots(), Err(MissingFolder::Sources));
    let mut files = Files::new();
    files.insert("headers/vostok/b.h");
    files.insert("sources/c.cpp");
    assert_eq!(files.lift_roots(), Ok(()));
    let vostok = &files.folders[0].content.folders[0].content;
    assert!(vostok.files.is_empty());
    assert_eq!(vostok.folders[0].name, "__root");
    assert_eq!(vostok.folders[0].content.files, ["headers/vostok/b.h"]);
    assert_eq!(
        files.folders[1].content.folders[0].content.files,
        ["sources/c.cpp"]
    );
}

#[test]
fn a_name_that_is_taken_gets_a_number() {
    assert_eq!(append_to_name("a/b.h", 2, ".h"), "a/b_2.h");
    assert_eq!(path_to_try("a/b.h", 0, ".h"), "a/b.h");
    assert_eq!(path_to_try("a/b.h", 10, ".h"), "a/b_10.h");
    assert!(can_append_to_name("b.h", ".h"));
    assert!(!can_append_to_name("h", ".h"));
    assert_ne!(append_to_name("b.h", 1, ".h"), append_to_name("b.h", 11, ".h"));
}

#[test]
fn the_engine_path_is_put_in_one_form() {
    assert_eq!(normalize_engine_path("C:/Survarium/Sources"), "c:\\survarium\\sources\\");
    assert_eq!(normalize_lowered_path("c:\\x\\"), "c:\\x\\");
}
