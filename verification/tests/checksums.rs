//! Checksums of source files.

use vostok_pdb_parser::checksums::{
    add_module, checksum_from_disk, checksum_of_file, collect_checksums, index_path, is_source_file,
    key_of_source, lf_to_crlf, lookup_path, print_diff, FileChecksum,
};

fn hex(bytes: &[u8]) -> String {
    bytes.iter().map(|b| format!("{b:02x}")).collect()
}

fn md5(text: &str) -> FileChecksum {
    FileChecksum::Md5(Vec::new()).hash(&text.as_bytes().to_vec())
}

#[test]
fn digests_are_those_of_the_algorithms() {
    let data = b"abc".to_vec();
    match FileChecksum::Md5(Vec::new()).hash(&data) {
        FileChecksum::Md5(b) => assert_eq!(hex(&b), "900150983cd24fb0d6963f7d28e17f72"),
        other => panic!("{other:?}"),
    }
    match FileChecksum::Sha1(Vec::new()).hash(&data) {
        FileChecksum::Sha1(b) => {
            assert_eq!(hex(&b), "a9993e364706816aba3e25717850c26c9cd0d89d")
        }
        other => panic!("{other:?}"),
    }
    match FileChecksum::Sha256(Vec::new()).hash(&data) {
        FileChecksum::Sha256(b) => assert_eq!(
            hex(&b),
            "ba7816bf8f01cfea414140de5dae2223b00361a396177a9cb410ff61f20015ad"
        ),
        other => panic!("{other:?}"),
    }
    assert!(FileChecksum::Absent
        .hash(&data)
        .is_same(&FileChecksum::Absent));
}

#[test]
fn carriage_returns_are_put_in_once() {
    let once = lf_to_crlf(&b"a\nb\r\n\nc".to_vec());
    assert_eq!(once, b"a\r\nb\r\n\r\nc");
    assert_eq!(lf_to_crlf(&once), once);
    assert_eq!(lf_to_crlf(&b"\n".to_vec()), b"\r\n");
}

#[test]
fn a_file_is_compared_with_either_line_end() {
    let crlf = md5("a\r\nb\r\n");
    let data = b"a\nb\n".to_vec();
    assert!(checksum_of_file(&crlf, &data).is_same(&crlf));
    let lf = md5("a\nb\n");
    assert!(checksum_of_file(&lf, &data).is_same(&lf));
    let other = md5("c");
    assert!(!checksum_of_file(&other, &data).is_same(&other));
    assert!(checksum_of_file(&other, &data).is_same(&crlf));
}

#[test]
fn a_file_that_is_not_there_has_no_checksum() {
    let expected = md5("a");
    assert!(checksum_from_disk(&expected, None).is_none());
    assert!(checksum_from_disk(&FileChecksum::Absent, None)
        .unwrap()
        .is_same(&FileChecksum::Absent));
    let data = b"a".to_vec();
    assert!(checksum_from_disk(&expected, Some(&data))
        .unwrap()
        .is_same(&expected));
}

#[test]
fn source_files_are_told_by_their_names() {
    assert!(is_source_file("a.cpp"));
    assert!(is_source_file("a.c++"));
    assert!(!is_source_file("a.h"));
    assert_eq!(
        key_of_source("c:\\e\\a.cpp", "c:\\e\\").as_deref(),
        Some("a.cpp")
    );
    assert_eq!(key_of_source("c:\\e\\a.h", "c:\\e\\"), None);
    assert_eq!(key_of_source("d:\\a.cpp", "c:\\e\\"), None);
}

#[test]
fn a_module_gives_its_first_source_file_once() {
    let modules = vec![
        vec![
            ("C:\\E\\X.H".to_string(), md5("h")),
            ("C:\\E\\A.CPP".to_string(), md5("a")),
            ("C:\\E\\B.CPP".to_string(), md5("b")),
        ],
        vec![("c:\\e\\a.cpp".to_string(), md5("other"))],
        vec![("d:\\a.cpp".to_string(), md5("d"))],
    ];
    let found = collect_checksums(&modules, "c:\\e\\");
    assert_eq!(found.len(), 1);
    assert_eq!(found[0].0, "a.cpp");
    assert!(found[0].1.is_same(&md5("a")));

    let mut all = Vec::new();
    add_module(&mut all, &vec![("e\\z.c".to_string(), md5("z"))], "e\\");
    assert_eq!(all[0].0, "z.c");
}

#[test]
fn paths_are_looked_up_with_slashes() {
    assert_eq!(lookup_path("a\\b.cpp"), "a/b.cpp");
    assert_eq!(index_path("/Sub\\File.CPP"), "sub/file.cpp");
}

#[test]
fn files_are_compared_by_name() {
    let base = vec![
        ("a\\x.cpp".to_string(), md5("x")),
        ("b.cpp".to_string(), md5("1")),
        ("only.cpp".to_string(), md5("o")),
    ];
    let target = vec![
        ("b.cpp".to_string(), md5("2")),
        ("a\\x.cpp".to_string(), md5("x")),
        ("z.cpp".to_string(), md5("z")),
    ];
    assert_eq!(
        print_diff(&base, &target),
        "MATCH   a/x.cpp\nDIFF    b.cpp\nBASE    only.cpp\nTARGET  z.cpp\n\nmatched=1  diff=1  base-only=1  target-only=1\n"
    );
    assert_eq!(
        print_diff(&base[..1].iter().map(|x| (x.0.clone(), x.1.copy())).collect(), &vec![("a\\x.cpp".to_string(), md5("x"))]),
        "MATCH   a/x.cpp\n\nmatched=1  diff=0  base-only=0  target-only=0\n"
    );
}
