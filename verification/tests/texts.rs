//! Texts and numbers.

use vostok_pdb_parser::error::Error;
use vostok_pdb_parser::files::Files;
use vostok_pdb_parser::lcs::{align, Edit};
use vostok_pdb_parser::number::{
    decimal, decimal_signed, hexadecimal, hexadecimal_capital, padded_back, padded_centered,
    padded_front,
};
use vostok_pdb_parser::order::{is_le, sort_stable};
use vostok_pdb_parser::pdb_parser::{emit_plan, volatile_prefix, EmitPlan, TypeShape, Underlying};
use vostok_pdb_parser::search::{
    begins, ends, find, has_part, join, replace, split, split_words, strip_back, strip_front, trim,
};

#[test]
fn numbers_are_written() {
    assert_eq!(decimal(0), "0");
    assert_eq!(decimal(u64::MAX), "18446744073709551615");
    assert_eq!(decimal_signed(i64::MIN), "-9223372036854775808");
    assert_eq!(hexadecimal(0xabc), "abc");
    assert_eq!(hexadecimal_capital(0xabc), "ABC");
    assert_eq!(padded_front("é", ' ', 3), "  é");
    assert_eq!(padded_back("ab", '-', 1), "ab");
    assert_eq!(padded_centered("ab", 5), format!("{:^5}", "ab"));
}

#[test]
fn parts_are_found_and_exchanged() {
    assert_eq!(find("aéb", "b"), Some(2));
    assert!(has_part("abc", ""));
    assert!(begins("abc", "ab"));
    assert!(!ends("abc", "ab"));
    assert_eq!(replace("aXbX", "X", "--"), "a--b--");
    assert_eq!(split("a::b::", "::"), ["a", "b", ""]);
    assert_eq!(join(&vec!["a".to_string(), "b".to_string()], ", "), "a, b");
    assert_eq!(split_words(" a \t b "), ["a", "b"]);
    assert_eq!(trim("\u{a0}a "), "a");
    assert_eq!(strip_front("abc", "ab").as_deref(), Some("c"));
    assert_eq!(strip_back("abc", "ab"), None);
}

#[test]
fn texts_are_ordered_as_strings_are() {
    assert!(is_le("a", "ab"));
    assert!(is_le("Z", "a"));
    assert!(!is_le("b", "a"));
    let v = ["b", "a", "é", "Z"].iter().map(|s| s.to_string()).collect();
    let mut expected = vec!["b", "a", "é", "Z"];
    expected.sort();
    assert_eq!(sort_stable::<String>(v), expected);
}

#[test]
fn sequences_are_aligned() {
    let a = vec!["a".to_string(), "b".to_string()];
    let b = vec!["b".to_string(), "c".to_string()];
    let edits = align(&a, &b);
    assert!(matches!(edits[0], Edit::Delete { base: 0 }));
    assert!(matches!(edits[1], Edit::Equal { base: 1, target: 0 }));
    assert!(matches!(edits[2], Edit::Insert { target: 1 }));
}

#[test]
fn errors_tell_their_place() {
    let e = Error::new("no file".to_string(), "x.rs", 7);
    assert_eq!(e.text(), "Failure: 'no file' at 'x.rs:7'");
}

#[test]
fn volatile_types_go_their_own_way() {
    let shape = |constant, volatile, underlying| TypeShape::Modifier {
        constant,
        volatile,
        underlying,
    };
    assert_eq!(
        emit_plan(shape(true, true, Underlying::Pointer)),
        EmitPlan::UnderlyingPointer { constant: true }
    );
    assert_eq!(
        emit_plan(shape(false, true, Underlying::Other)),
        EmitPlan::Prefixed { constant: false }
    );
    assert_eq!(
        emit_plan(shape(true, false, Underlying::Pointer)),
        EmitPlan::Plain
    );
    assert_eq!(
        emit_plan(shape(false, true, Underlying::Unreadable)),
        EmitPlan::Fails
    );
    assert_eq!(
        emit_plan(TypeShape::Pointer { volatile: true }),
        EmitPlan::VolatilePointer
    );
    assert_eq!(emit_plan(TypeShape::Other), EmitPlan::Plain);
    assert_eq!(volatile_prefix(true), "const volatile ");
    assert_eq!(volatile_prefix(false), "volatile ");
}

#[test]
fn a_path_from_the_root_has_a_folder_for_it() {
    let mut files = Files::new();
    assert!(files.insert("/a/b.h"));
    assert_eq!(files.folders[0].name, "/");
    assert_eq!(files.folders[0].content.folders[0].name, "a");
}
