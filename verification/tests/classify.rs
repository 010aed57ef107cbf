//! Classifications of functions.

use vostok_pdb_parser::orphan_classify::{is_blank, Classifications};

#[test]
fn a_classification_is_kept_by_name() {
    let mut db = Classifications::new();
    db.upsert_at("?b", "todo", None, "now", "me");
    db.upsert_at("?a", "unmatchable", Some("SDK"), "then", "you");
    db.upsert_at("?b", "done", None, "later", "me");
    let names: Vec<&str> = db.entries.iter().map(|e| e.mangled.as_str()).collect();
    assert_eq!(names, ["?a", "?b"]);
    let b = db.get("?b").unwrap();
    assert_eq!(b.status, "done");
    assert_eq!(b.reviewed_at.as_deref(), Some("later"));
    let mark = db.get("?a").unwrap().mark();
    assert_eq!(mark.status, "unmatchable");
    assert_eq!(mark.reason.as_deref(), Some("SDK"));
    assert!(db.get("?c").is_none());
}

#[test]
fn a_classification_is_taken_out() {
    let mut db = Classifications::new();
    db.upsert_at("?a", "todo", None, "now", "me");
    db.remove("?b");
    assert_eq!(db.entries.len(), 1);
    db.remove("?a");
    assert!(db.entries.is_empty());
}

#[test]
fn the_order_of_classifying_does_not_matter() {
    let mut x = Classifications::new();
    x.upsert_at("?a", "1", None, "t", "me");
    x.upsert_at("?b", "2", None, "t", "me");
    let mut y = Classifications::new();
    y.upsert_at("?b", "2", None, "t", "me");
    y.upsert_at("?a", "1", None, "t", "me");
    let names = |db: &Classifications| -> Vec<String> {
        db.entries
            .iter()
            .map(|e| format!("{}={}", e.mangled, e.status))
            .collect()
    };
    assert_eq!(names(&x), names(&y));
}

#[test]
fn a_function_is_classified_at_the_time_of_the_call() {
    let mut db = Classifications::new();
    db.upsert("?a", "todo", None, "me");
    let at = db.get("?a").unwrap().reviewed_at.clone().unwrap();
    assert!(at.len() > 19, "{at}");
    assert!(at.contains('T'));
    assert_eq!(&at[4..5], "-");
}

#[test]
fn blank_lines_hold_nothing() {
    assert!(is_blank(" \t"));
    assert!(!is_blank(" x"));
}
