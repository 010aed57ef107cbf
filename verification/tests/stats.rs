//! Statistics of reports.

use vostok_pdb_parser::report_stats::{
    count_matched, cross_ref_orphans, enrich, filter_functions, find_orphans, flatten_report,
    index_only_orphans, mangled_set, parse_u64, FuncEntry, FuncFilter, IndexEnrichment, IndexEntry,
    MangledIndex, Percent, RawFunction, RawUnit, SortField, SortOrder,
};
use vostok_pdb_parser::stats_summary::{
    attach_top_measures, bucket_label, bucket_named, can_summarize, compute_summary, TopMeasures,
};
use vostok_pdb_parser::stats_tables::{
    can_ellipsis, can_print, can_print_index, can_print_orphans, can_print_summary, ellipsis,
    print_list_table, print_orphan_table, print_summary_table, PercentTexts,
};

fn p(v: f64) -> Percent {
    Percent { bits: v.to_bits() }
}

fn raw(name: &str, size: &str, percent: Option<f64>, address: &str) -> RawFunction {
    RawFunction {
        name: name.to_string(),
        size: size.to_string(),
        fuzzy_match_percent: percent.map(p),
        address: address.to_string(),
        demangled_name: None,
    }
}

fn functions() -> Vec<FuncEntry> {
    flatten_report(&vec![
        RawUnit {
            name: "game/a.cpp".to_string(),
            functions: vec![
                raw("?c", "16", Some(100.0), "0"),
                raw("?a", "48", Some(42.5), "16"),
            ],
        },
        RawUnit {
            name: "core/b.cpp".to_string(),
            functions: vec![raw("?b", "32", None, "0"), raw("?d", "32", Some(99.0), "32")],
        },
    ])
    .ok()
    .unwrap()
}

fn names(v: &[&FuncEntry]) -> Vec<String> {
    v.iter().map(|f| f.name.clone()).collect()
}

#[test]
fn numbers_are_read_from_text() {
    assert_eq!(parse_u64("0"), Some(0));
    assert_eq!(parse_u64("+7"), Some(7));
    assert_eq!(parse_u64("18446744073709551615"), Some(u64::MAX));
    assert_eq!(parse_u64("18446744073709551616"), None);
    assert_eq!(parse_u64(""), None);
    assert_eq!(parse_u64("+"), None);
    assert_eq!(parse_u64("-1"), None);
    assert_eq!(parse_u64("1 "), None);
}

#[test]
fn a_report_is_taken_apart() {
    let v = functions();
    assert_eq!(v.len(), 4);
    assert_eq!(v[1].unit, "game/a.cpp");
    assert_eq!(v[1].size, 48);
    assert_eq!(v[1].address, 16);
    assert_eq!(count_matched(&v), 3);
}

#[test]
fn a_number_that_cannot_be_read_is_told() {
    let error = flatten_report(&vec![RawUnit {
        name: "u".to_string(),
        functions: vec![raw("?a", "1", None, "x")],
    }])
    .err()
    .unwrap();
    assert_eq!(error.message(), "failed to parse 'x' as u64");
    let error = flatten_report(&vec![RawUnit {
        name: "u".to_string(),
        functions: vec![raw("?a", "y", None, "x")],
    }])
    .err()
    .unwrap();
    assert_eq!(error.message(), "failed to parse 'y' as u64");
}

#[test]
fn percentages_are_ordered_as_numbers() {
    assert!(p(1.0).is_at_least(p(0.5)));
    assert!(p(0.0).is_at_least(p(-0.0)));
    assert!(p(-0.0).is_at_least(p(0.0)));
    assert!(p(-1.0).is_above(p(-2.0)));
    assert!(!p(f64::NAN).is_at_least(p(0.0)));
    assert!(!p(0.0).is_at_least(p(f64::NAN)));
    assert!(!p(1.0).is_above(p(1.0)));
}

#[test]
fn functions_are_listed_in_order() {
    let v = functions();
    let mut filter = FuncFilter::default();
    assert_eq!(names(&filter_functions(&v, &filter)), ["?b", "?a", "?d", "?c"]);
    filter.order = SortOrder::Desc;
    assert_eq!(names(&filter_functions(&v, &filter)), ["?c", "?d", "?a", "?b"]);
    filter.order = SortOrder::Asc;
    filter.sort = SortField::Size;
    assert_eq!(names(&filter_functions(&v, &filter)), ["?c", "?b", "?d", "?a"]);
    filter.sort = SortField::Name;
    filter.limit = Some(2);
    assert_eq!(names(&filter_functions(&v, &filter)), ["?a", "?b"]);
}

#[test]
fn functions_are_filtered() {
    let v = functions();
    let filter = FuncFilter {
        min_percent: Some(p(50.0)),
        max_percent: Some(p(99.0)),
        ..Default::default()
    };
    assert_eq!(names(&filter_functions(&v, &filter)), ["?d"]);
    let filter = FuncFilter {
        matched_only: true,
        unit_pattern: Some("core"),
        ..Default::default()
    };
    assert_eq!(names(&filter_functions(&v, &filter)), ["?d"]);
    let filter = FuncFilter {
        min_size: Some(33),
        ..Default::default()
    };
    assert_eq!(names(&filter_functions(&v, &filter)), ["?a"]);
}

#[test]
fn functions_of_one_build_are_found() {
    let v = functions();
    let filter = FuncFilter {
        min_percent: Some(p(1.0)),
        matched_only: true,
        ..Default::default()
    };
    assert_eq!(names(&find_orphans(&v, &filter)), ["?b"]);
    let filter = FuncFilter {
        sort: SortField::Size,
        limit: Some(1),
        ..Default::default()
    };
    assert_eq!(names(&find_orphans(&v, &filter)), ["?b"]);
    let filter = FuncFilter {
        limit: Some(0),
        ..Default::default()
    };
    assert!(find_orphans(&v, &filter).is_empty());
}

fn index_entry(mangled: &str, name: &str) -> IndexEntry {
    IndexEntry {
        mangled: mangled.to_string(),
        name: name.to_string(),
        rva: 0x1000,
        size: 4,
        file: "f.cpp".to_string(),
    }
}

#[test]
fn an_index_holds_a_name_once() {
    let mut index = MangledIndex::new();
    index.insert(index_entry("?z", "z"));
    index.insert(index_entry("?a", "old"));
    index.insert(index_entry("?a", "new"));
    assert_eq!(index.entries.len(), 2);
    assert_eq!(index.get("?a").unwrap().name, "new");
    assert!(index.get("?b").is_none());

    let mut v = functions();
    enrich(&mut v, &index);
    assert_eq!(v[1].demangled.as_deref(), Some("new"));
    assert_eq!(v[1].enriched.as_ref().unwrap().rva, 0x1000);
    assert!(v[0].enriched.is_none());

    index.insert(index_entry("?k", "k"));
    let set = mangled_set(&v);
    assert_eq!(set, ["?a", "?b", "?c", "?d"]);
    let absent: Vec<String> = cross_ref_orphans(&set, &index)
        .iter()
        .map(|e| e.mangled.clone())
        .collect();
    assert_eq!(absent, ["?k", "?z"]);
    let both = index_only_orphans(&v, None, Some(&index));
    assert!(both.base.is_none());
    let told: Vec<String> = both.target.unwrap().into_iter().map(|e| e.mangled).collect();
    assert_eq!(told, ["?k", "?z"]);
}

#[test]
fn functions_are_spread_over_ranges() {
    let v = functions();
    assert!(can_summarize(&v, None));
    let mut s = compute_summary(&v, None, true);
    let count = |label: &str| bucket_named(&s, label).map(|b| (b.count, b.code_bytes));
    assert_eq!(count("0"), Some((1, 32)));
    assert_eq!(count("1-49"), Some((1, 48)));
    assert_eq!(count("99-99"), Some((1, 32)));
    assert_eq!(count("100"), Some((1, 16)));
    assert_eq!(count("50-79"), Some((0, 0)));
    assert_eq!(count("other"), None);
    assert_eq!(s.buckets.iter().map(|b| b.count).sum::<usize>(), 4);
    let units = s.by_unit.as_ref().unwrap();
    assert_eq!(units[0].name, "core/b.cpp");
    assert_eq!(units[0].total_functions, Some(2));
    assert_eq!(units[0].matched_functions, Some(0));
    assert_eq!(units[0].total_code.as_deref(), Some("64"));
    assert_eq!(units[1].matched_functions, Some(1));
    attach_top_measures(
        &mut s,
        TopMeasures {
            total_functions: Some(4),
            ..Default::default()
        },
    );
    assert_eq!(s.top_level.total_functions, Some(4));
    assert_eq!(bucket_label(5), "95-98");
    assert!(compute_summary(&v, Some("game"), false).by_unit.is_none());
}

#[test]
fn sizes_that_cannot_be_counted_are_told() {
    let mut v = functions();
    v[0].size = u64::MAX;
    assert!(!can_summarize(&v, None));
    assert!(can_summarize(&v, Some("no such unit")));
}

#[test]
fn long_texts_are_cut() {
    assert_eq!(ellipsis("abc", 3), "abc");
    assert_eq!(ellipsis("abcdef", 5), "ab...");
    assert_eq!(ellipsis("abcdef", 2), "...");
    assert!(can_ellipsis("aéaa", 4 + 1));
    assert!(!can_ellipsis("aéaaaa", 5));
}

#[test]
fn functions_are_shown_in_a_table() {
    let v = functions();
    let refs: Vec<&FuncEntry> = v.iter().take(1).collect();
    assert!(can_print(&refs));
    let text = print_list_table(&refs, &vec!["100.0%".to_string()], 4);
    let expected = format!(
        "{:<62}  {:<42}  {:>6}  {:>7}  {:>6}  \n{:<62}  {:<42}  {:>6}  {:>7}  {:>6}  \n-- 4 total, 1 shown --\n",
        "MANGLED", "UNIT", "SIZE", "MATCH%", "ADDR", "?c", "game/a.cpp", "0x10", "100.0%", "0x0"
    );
    assert_eq!(text, expected);
}

#[test]
fn functions_of_one_build_are_shown_in_a_table() {
    let v = functions();
    let refs: Vec<&FuncEntry> = vec![&v[2]];
    let index = vec![index_entry("?z", "z")];
    assert!(can_print_index(Some(&index)));
    let text = print_orphan_table(&refs, None, Some(&index));
    let expected = format!(
        "=== report.json (no fuzzy_match_percent) ===\n{:<62}  {:<42}  {:>6}  {:>6}\n{:<62}  {:<42}  {:>6}  {:>6}\n-- 1 total, 1 shown --\n\n=== index-only: target ===\n{:<62}  {:<54}  {:>6}  {:>8}  {:<40}\n{:<62}  {:<54}  {:>6}  {:>8}  {:<40}\n",
        "MANGLED", "UNIT", "SIZE", "ADDR", "?b", "core/b.cpp", "0x20", "0x0",
        "MANGLED", "DEMANGLED", "SIZE", "RVA", "FILE", "?z", "z", "0x4", "0x1000", "f.cpp"
    );
    assert_eq!(text, expected);
    assert_eq!(print_orphan_table(&Vec::new(), None, None), "");
}

#[test]
fn the_file_is_not_cut_in_the_table_of_one_build() {
    let mut v = functions();
    v[2].enriched = Some(IndexEnrichment {
        rva: 0x1000,
        file: format!("{}é{}", "a".repeat(36), "b".repeat(36)),
    });
    let refs: Vec<&FuncEntry> = vec![&v[2]];
    assert!(!can_print(&refs));
    assert!(can_print_orphans(&refs));
    assert!(print_orphan_table(&refs, None, None).ends_with("\n-- 1 total, 1 shown --\n"));
}

#[test]
fn a_summary_is_shown_in_a_table() {
    let v = functions();
    let s = compute_summary(&v, Some("game"), true);
    assert!(can_print_summary(&s));
    let text = print_summary_table(
        &s,
        &PercentTexts {
            fuzzy_match_percent: Some("12.50".to_string()),
            matched_functions_percent: None,
            matched_code_percent: None,
        },
    );
    assert!(text.starts_with(
        "=== Top-level ===\n  fuzzy_match_percent:    12.50%\n  total_functions:        0\n  matched_functions:      0\n\n=== Buckets ===\n"
    ));
    assert!(text.contains(&format!("  {:<8} {:>7} {:>10}\n", "RANGE", "COUNT", "BYTES")));
    assert!(text.contains("  100            1  0x10\n"));
    assert!(text.ends_with(&format!(
        "\n=== By unit ===\n  {:<42} {:>6} {:>6} {:>7}\n  {:<42} {:>6} {:>6} {:>7}\n",
        "UNIT", "FUNCS", "MATCH", "CODE", "game/a.cpp", 2, 1, 64
    )));
}
