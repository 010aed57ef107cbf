//! Where two builds diverge.

use vostok_pdb_parser::divergence::{access_differs, access_name, diff_fields, diff_visibility};
use vostok_pdb_parser::divergence_diff::{
    seq_diff, value_match, NamedValue, SeqDiff, ValueDiff, ValueKey,
};
use vostok_pdb_parser::divergence_extract::{clean_type, Config};
use vostok_pdb_parser::divergence_model::{
    insert_class, insert_enum, ClassModel, EnumModel, FieldModel, FileModel, FnModel, MethodModel,
    PresenceFn, SideModel,
};
use vostok_pdb_parser::divergence_order::{function_order_moved, ordered_function_display};
use vostok_pdb_parser::divergence_report::{diff_file, presence_functions, SourceCounts};
use vostok_pdb_parser::divergence_sources::function_join_key;

fn s(v: &[&str]) -> Vec<String> {
    v.iter().map(|x| x.to_string()).collect()
}

#[test]
fn seq_diff_identical_is_clean() {
    let diff = seq_diff(&s(&["a", "b", "c"]), &s(&["a", "b", "c"]));
    assert!(!diff.diverged());
}

#[test]
fn seq_diff_reports_one_sided() {
    let diff = seq_diff(&s(&["a", "b", "c"]), &s(&["a", "c", "d"]));
    assert_eq!(diff.only_base, s(&["b"]));
    assert_eq!(diff.only_target, s(&["d"]));
    // a and c keep their relative order, so nothing is "moved".
    assert!(diff.moved.is_empty());
}

#[test]
fn seq_diff_reports_reorder() {
    // Common set {a,b,c}; target swaps a after c. The minimal move is one
    // element falling off the longest common subsequence.
    let diff = seq_diff(&s(&["a", "b", "c"]), &s(&["b", "c", "a"]));
    assert!(diff.only_base.is_empty());
    assert!(diff.only_target.is_empty());
    assert_eq!(diff.moved, s(&["a"]));
}

fn named(ty: &str, value: i64, name: &str) -> NamedValue {
    NamedValue {
        key: ValueKey {
            ty: ty.to_string(),
            value,
        },
        name: name.to_string(),
    }
}

fn misnamed(diff: &ValueDiff) -> Vec<((String, i64), String, String)> {
    diff.misnamed
        .iter()
        .map(|x| {
            (
                (x.key.ty.clone(), x.key.value),
                x.base.clone(),
                x.target.clone(),
            )
        })
        .collect()
}

fn tuples(v: &[NamedValue]) -> Vec<((String, i64), String)> {
    v.iter()
        .map(|x| ((x.key.ty.clone(), x.key.value), x.name.clone()))
        .collect()
}

#[test]
fn value_match_pairs_by_value_not_name() {
    // Same (type, value) but different names → misname, not add/remove.
    let base = vec![named("s32", 5, "THRESHOLD")];
    let target = vec![named("s32", 5, "LIMIT")];
    let diff = value_match(&base, &target);
    assert_eq!(
        misnamed(&diff),
        vec![(
            ("s32".to_string(), 5),
            "THRESHOLD".to_string(),
            "LIMIT".to_string()
        )]
    );
    assert!(diff.only_base.is_empty());
    assert!(diff.only_target.is_empty());
}

#[test]
fn value_match_same_name_is_clean() {
    let base = vec![named("s32", 5, "MAX")];
    let target = vec![named("s32", 5, "MAX")];
    assert!(!value_match(&base, &target).diverged());
}

#[test]
fn value_match_unmatched_value_is_one_sided() {
    // Different value → not a misname; it is a genuine add/remove.
    let base = vec![named("s32", 5, "A")];
    let target = vec![named("s32", 7, "A")];
    let diff = value_match(&base, &target);
    assert!(diff.misnamed.is_empty());
    assert_eq!(
        tuples(&diff.only_base),
        vec![(("s32".to_string(), 5), "A".to_string())]
    );
    assert_eq!(
        tuples(&diff.only_target),
        vec![(("s32".to_string(), 7), "A".to_string())]
    );
}

#[test]
fn access_differs_ignores_unspecified() {
    // Both specified and disagreeing → diff.
    assert!(access_differs(3, 1));
    // Equal → no diff.
    assert!(!access_differs(3, 3));
    // Either side unspecified inherits the class default → no diff.
    assert!(!access_differs(0, 3));
    assert!(!access_differs(3, 0));
    assert!(!access_differs(0, 0));
}

fn class_with(fields: &[(&str, u8)], methods: &[(&str, u8)]) -> ClassModel {
    ClassModel {
        kind: "class",
        size: 0,
        fields: fields
            .iter()
            .map(|(n, a)| FieldModel {
                offset: 0,
                typename: "int".to_string(),
                name: n.to_string(),
                access: *a,
            })
            .collect(),
        methods: methods
            .iter()
            .map(|(s, a)| MethodModel {
                sig: s.to_string(),
                access: *a,
            })
            .collect(),
    }
}

#[test]
fn duplicate_class_records_merge_compatible_method_sets() {
    let mut side = SideModel::default();
    insert_class(
        &mut side,
        "predicate".to_string(),
        class_with(&[("m_value", 3)], &[("bool operator()(b)", 3)]),
    );
    insert_class(
        &mut side,
        "predicate".to_string(),
        class_with(&[("m_value", 3)], &[("bool operator()(a)", 3)]),
    );
    let methods: Vec<&str> = side
        .class("predicate")
        .unwrap()
        .methods
        .iter()
        .map(|method| method.sig.as_str())
        .collect();
    assert_eq!(methods, vec!["bool operator()(a)", "bool operator()(b)"]);
}

#[test]
fn unrelated_anonymous_enums_do_not_replace_each_other() {
    let mut side = SideModel::default();
    insert_enum(
        &mut side,
        "render::<unnamed-tag>".to_string(),
        EnumModel {
            underlying: "i32".to_string(),
            values: vec![("terrain_size".to_string(), 1024)],
        },
    );
    insert_enum(
        &mut side,
        "render::<unnamed-tag>".to_string(),
        EnumModel {
            underlying: "i32".to_string(),
            values: vec![("component_count".to_string(), 5)],
        },
    );
    assert_eq!(side.enums.len(), 2);
}

fn empty_seq() -> SeqDiff {
    SeqDiff {
        only_base: vec![],
        only_target: vec![],
        moved: vec![],
    }
}

#[test]
fn diff_visibility_flags_matched_mismatch() {
    let b = class_with(&[("m_foo", 3)], &[("void f()", 1)]);
    let t = class_with(&[("m_foo", 1)], &[("void f()", 3)]);
    let fields = diff_fields(&b.fields, &t.fields);
    let vis = diff_visibility(&b, &t, &fields, &empty_seq());
    assert_eq!(
        vis,
        vec![("m_foo".to_string(), 3, 1), ("void f()".to_string(), 1, 3),]
    );
}

#[test]
fn diff_visibility_skips_one_sided_members() {
    // m_only is base-only (a [member] diff), so it must NOT be reported as a
    // visibility diff even though the matched member m_foo agrees.
    let b = class_with(&[("m_foo", 3), ("m_only", 1)], &[]);
    let t = class_with(&[("m_foo", 3)], &[]);
    let fields = diff_fields(&b.fields, &t.fields);
    assert!(fields.diverged());
    let vis = diff_visibility(&b, &t, &fields, &empty_seq());
    assert!(vis.is_empty());
}

/// Build a side where each function's join key equals its displayed
/// signature (no demangle divergence) — the common case.
fn side_with(files: &[(&str, &[&str])]) -> SideModel {
    let mut out = SideModel::default();
    for (path, sigs) in files {
        out.presence_functions
            .extend(sigs.iter().map(|sig| PresenceFn {
                path: path.to_string(),
                key: sig.to_string(),
                name_orig: sig.to_string(),
            }));
        out.files.push((
            path.to_string(),
            FileModel {
                functions: sigs
                    .iter()
                    .enumerate()
                    .map(|(index, sig)| FnModel {
                        key: sig.to_string(),
                        name_orig: sig.to_string(),
                        definition_line: index as u32,
                        module_id: 0,
                        symbol_order: index,
                        raw_line_table_count: 0,
                        constants: Vec::new(),
                    })
                    .collect(),
            },
        ));
    }
    out
}

/// Build a side from explicit `(join key, displayed signature)` pairs, so a
/// test can model a function whose two PDBs render the signature differently
/// while the COFF key is shared.
fn side_with_keyed(files: &[(&str, &[(&str, &str)])]) -> SideModel {
    let mut out = SideModel::default();
    for (path, fns) in files {
        out.presence_functions
            .extend(fns.iter().map(|(key, display)| PresenceFn {
                path: path.to_string(),
                key: key.to_string(),
                name_orig: display.to_string(),
            }));
        out.files.push((
            path.to_string(),
            FileModel {
                functions: fns
                    .iter()
                    .enumerate()
                    .map(|(index, (key, display))| FnModel {
                        key: key.to_string(),
                        name_orig: display.to_string(),
                        definition_line: index as u32,
                        module_id: 0,
                        symbol_order: index,
                        raw_line_table_count: 0,
                        constants: Vec::new(),
                    })
                    .collect(),
            },
        ));
    }
    out
}

fn source_config(compare_raw_line_table_counts: bool) -> Config {
    Config {
        skip: Vec::new(),
        include_external: false,
        do_headers: false,
        do_sources: true,
        list_presence: false,
        list_presence_fns: false,
        compare_raw_line_table_counts,
    }
}

/// The functions of the first file.
fn functions(side: &mut SideModel) -> &mut Vec<FnModel> {
    &mut side.files[0].1.functions
}

#[test]
fn raw_line_table_count_diff_is_opt_in() {
    let mut base = side_with(&[("m/u.cpp", &["void f()"])]);
    let mut target = side_with(&[("m/u.cpp", &["void f()"])]);
    functions(&mut base)[0].raw_line_table_count = 2;
    functions(&mut target)[0].raw_line_table_count = 3;

    let base_file = base.file("m/u.cpp").unwrap();
    let target_file = target.file("m/u.cpp").unwrap();
    let mut out = String::new();
    let mut default_counts = SourceCounts::default();
    assert!(!diff_file(
        "m/u.cpp",
        base_file,
        target_file,
        &source_config(false),
        &mut default_counts,
        &mut out,
    ));
    assert_eq!(default_counts.raw_line_table_diff, 0);
    assert_eq!(out, "");

    let mut opt_in_counts = SourceCounts::default();
    assert!(diff_file(
        "m/u.cpp",
        base_file,
        target_file,
        &source_config(true),
        &mut opt_in_counts,
        &mut out,
    ));
    assert_eq!(opt_in_counts.raw_line_table_diff, 1);
    assert_eq!(
        out,
        "m/u.cpp\n  [line-table]  void f(): base=2 target=3\n\n"
    );
}

#[test]
fn presence_self_compare_is_clean() {
    // Identical source-function sets on both sides → zero presence diffs.
    // This is the binary's `self-compare MUST report 0 [presence]` invariant.
    let side = side_with(&[
        ("a/x.cpp", &["void a::f()", "int a::g()"]),
        ("b/y.cpp", &["void b::h()"]),
    ]);
    let other = side_with(&[
        ("a/x.cpp", &["void a::f()", "int a::g()"]),
        ("b/y.cpp", &["void b::h()"]),
    ]);
    let diff = presence_functions(&side, &other);
    assert!(diff.base_only.is_empty());
    assert!(diff.target_only.is_empty());
}

#[test]
fn presence_flags_one_sided_out_of_line_bodies() {
    // base emits f() and g() out-of-line; target emits f() and h(). So:
    //   g() is base-only  (we emit standalone, target inlines it)
    //   h() is tgt-only   (target emits standalone, we inline it / no source)
    // f() is on both sides → NOT a presence diff (it is the [fn-order] domain).
    let base = side_with(&[("m/u.cpp", &["void f()", "int g()"])]);
    let target = side_with(&[("m/u.cpp", &["void f()", "void h()"])]);
    let diff = presence_functions(&base, &target);
    assert_eq!(
        diff.base_only,
        vec![("m/u.cpp".to_string(), "int g()".to_string())]
    );
    assert_eq!(
        diff.target_only,
        vec![("m/u.cpp".to_string(), "void h()".to_string())]
    );
}

#[test]
fn presence_covers_one_sided_files() {
    // A whole file present out-of-line on only one side: every function in it
    // is a presence diff for that side (the file-level presence list reports
    // the file; this reports its bodies as reconstruction targets).
    let base = side_with(&[("only/base.cpp", &["void only_base()"])]);
    let target = side_with(&[("only/tgt.cpp", &["void only_tgt()"])]);
    let diff = presence_functions(&base, &target);
    assert_eq!(
        diff.base_only,
        vec![("only/base.cpp".to_string(), "void only_base()".to_string())]
    );
    assert_eq!(
        diff.target_only,
        vec![("only/tgt.cpp".to_string(), "void only_tgt()".to_string())]
    );
}

#[test]
fn presence_deduplicates_repeated_symbol_observations() {
    // A decorated symbol may be observed through more than one module
    // procedure record, but the linked executable still contains one body.
    let base = side_with(&[("m/u.cpp", &["void f()", "void f()"])]);
    let target = side_with(&[("m/u.cpp", &["void f()"])]);
    let diff = presence_functions(&base, &target);
    assert!(diff.base_only.is_empty());
    assert!(diff.target_only.is_empty());
}

#[test]
fn presence_ignores_icf_source_attribution_drift() {
    let base = side_with(&[("m/header.h", &["void folded_f()"])]);
    let target = side_with(&[("m/owner.cpp", &["void folded_f()"])]);
    let diff = presence_functions(&base, &target);
    assert!(diff.base_only.is_empty());
    assert!(diff.target_only.is_empty());
}

#[test]
fn presence_joins_exact_signature_when_public_key_is_unstable() {
    let base = side_with_keyed(&[("m/u.cpp", &[("?base_hash", "void local_f()")])]);
    let target = side_with_keyed(&[("m/u.cpp", &[("?target_hash", "void local_f()")])]);
    let diff = presence_functions(&base, &target);
    assert!(diff.base_only.is_empty());
    assert!(diff.target_only.is_empty());
}

#[test]
fn function_order_ignores_order_within_one_source_line() {
    let mut base = side_with(&[("m/u.cpp", &["void f()", "void g()"])]);
    let mut target = side_with(&[("m/u.cpp", &["void g()", "void f()"])]);
    for side in [&mut base, &mut target] {
        for fun in functions(side) {
            fun.definition_line = 10;
        }
    }
    assert!(function_order_moved(
        base.file("m/u.cpp").unwrap(),
        target.file("m/u.cpp").unwrap()
    )
    .is_empty());
}

#[test]
fn function_order_excludes_records_without_a_source_line() {
    let mut base = side_with(&[("m/u.cpp", &["void generated()", "void source_f()"])]);
    let mut target = side_with(&[("m/u.cpp", &["void source_f()"])]);
    functions(&mut base)[0].definition_line = 0;
    functions(&mut base)[1].definition_line = 10;
    functions(&mut target)[0].definition_line = 10;
    assert!(function_order_moved(
        base.file("m/u.cpp").unwrap(),
        target.file("m/u.cpp").unwrap()
    )
    .is_empty());
}

#[test]
fn function_order_rejects_a_line_directive_only_inversion() {
    let mut base = side_with(&[("m/u.cpp", &["void clear()", "void set()"])]);
    let mut target = side_with(&[("m/u.cpp", &["void clear()", "void set()"])]);
    let base_functions = functions(&mut base);
    base_functions[0].definition_line = 104;
    base_functions[1].definition_line = 96;
    let target_functions = functions(&mut target);
    target_functions[0].definition_line = 90;
    target_functions[1].definition_line = 96;

    assert!(function_order_moved(
        base.file("m/u.cpp").unwrap(),
        target.file("m/u.cpp").unwrap()
    )
    .is_empty());
}

#[test]
fn function_order_requires_a_definite_pairwise_inversion() {
    let mut base = side_with(&[("m/u.cpp", &["void f()", "void generated()", "void g()"])]);
    let mut target = side_with(&[("m/u.cpp", &["void f()", "void generated()", "void g()"])]);
    let base_functions = functions(&mut base);
    base_functions[0].definition_line = 10;
    base_functions[1].definition_line = 20;
    base_functions[2].definition_line = 20;
    let target_functions = functions(&mut target);
    target_functions[0].definition_line = 10;
    target_functions[1].definition_line = 10;
    target_functions[2].definition_line = 20;
    assert!(function_order_moved(
        base.file("m/u.cpp").unwrap(),
        target.file("m/u.cpp").unwrap()
    )
    .is_empty());

    let base_functions = functions(&mut base);
    base_functions[0].definition_line = 10;
    base_functions[1].definition_line = 10;
    base_functions[2].definition_line = 30;
    let target_functions = functions(&mut target);
    target_functions[0].definition_line = 30;
    target_functions[1].definition_line = 10;
    target_functions[2].definition_line = 10;
    target_functions[0].symbol_order = 2;
    target_functions[2].symbol_order = 0;
    assert_eq!(
        function_order_moved(
            base.file("m/u.cpp").unwrap(),
            target.file("m/u.cpp").unwrap()
        ),
        vec!["name|void f()".to_string(), "name|void g()".to_string()]
    );
}

#[test]
fn ordered_function_display_shows_each_sides_source_order() {
    let keys = vec![
        "name|void second()".to_string(),
        "name|void first()".to_string(),
    ];
    let source_lines = vec![
        ("name|void first()".to_string(), 10),
        ("name|void second()".to_string(), 20),
    ];
    let display = vec![
        ("name|void first()".to_string(), "void first()".to_string()),
        ("name|void second()".to_string(), "void second()".to_string()),
    ];

    assert_eq!(
        ordered_function_display(&keys, &source_lines, &display),
        vec![
            "line 10: void first()".to_string(),
            "line 20: void second()".to_string(),
        ]
    );
}

#[test]
fn join_key_prefers_mangled_symbol() {
    // With a Public symbol, the key is that decorated name verbatim — it is
    // identical across the two PDBs even when their demangled signatures differ.
    let mangled = "?find_ignored_object@pre_perceptors_filter@ai@vostok@@ABE...@Z";
    assert_eq!(
        function_join_key(Some(mangled), "stlp_std::pair<...> vostok::ai::...()"),
        mangled
    );
}

#[test]
fn join_key_canonicalizes_static_init_thunk() {
    // No Public symbol → every rendering of the same thunk normalizes to one
    // `kind|fully-qualified-var` key, so the sides pair.
    let key = "dynamic initializer for|s_flow_emulator";

    // base mangled form.
    assert_eq!(
        function_join_key(None, "void ??__Es_flow_emulator@@YAXXZ()"),
        key
    );
    // target class-scope form (FQ inside the backticks, no outer prefix).
    assert_eq!(
        function_join_key(None, "void `dynamic initializer for 's_flow_emulator''()"),
        key
    );
}

#[test]
fn join_key_unifies_namespace_and_class_thunk_renderings() {
    // The SAME namespaced static `vostok::core::s_show_help` is rendered three
    // ways across the two PDBs; all must collapse to one key.
    let key = "dynamic initializer for|vostok::core::s_show_help";
    // base mangled.
    assert_eq!(
        function_join_key(None, "void ??__Es_show_help@core@vostok@@YAXXZ()"),
        key
    );
    // target namespace-scope: `ns::` prefix OUTSIDE the backticks, short inner.
    assert_eq!(
        function_join_key(
            None,
            "void vostok::core::`dynamic initializer for 's_show_help''()"
        ),
        key
    );
    // target class-scope-style: fully-qualified INSIDE the backticks.
    assert_eq!(
        function_join_key(
            None,
            "void `dynamic initializer for 'vostok::core::s_show_help''()"
        ),
        key
    );
}

#[test]
fn join_key_atexit_destructor_distinct_from_initializer() {
    // initializer and atexit destructor for the same var are different thunks.
    let init = function_join_key(None, "void ??__Es_world@@YAXXZ()");
    let dtor = function_join_key(None, "void ??__Fs_world@@YAXXZ()");
    assert_eq!(init, "dynamic initializer for|s_world");
    assert_eq!(dtor, "dynamic atexit destructor for|s_world");
    assert_ne!(init, dtor);
}

#[test]
fn join_key_passes_through_plain_signature() {
    // A non-thunk function without a Public symbol keeps its signature as key.
    let sig = "void vostok::foo::bar(int)";
    assert_eq!(function_join_key(None, sig), sig);
}

#[test]
fn presence_joins_by_key_despite_demangle_divergence() {
    // The same logical function whose signature the two PDBs demangle
    // differently (base drops the `enum` keyword inside a template arg, target
    // keeps it) shares one COFF key. Joining on the key, it must NOT show up as
    // a paired base-only / target-only presence false positive.
    let mangled = "?ignore@pre_perceptors_filter@ai@vostok@@QAEX...@Z";
    let base = side_with_keyed(&[(
        "ai/pre_perceptors_filter.cpp",
        &[(
            mangled,
            "void vostok::ai::...<...,vostok::ai::ignorance_types_enum>...()",
        )],
    )]);
    let target = side_with_keyed(&[(
        "ai/pre_perceptors_filter.cpp",
        &[(
            mangled,
            "void vostok::ai::...<...,enum vostok::ai::ignorance_types_enum>...()",
        )],
    )]);
    let diff = presence_functions(&base, &target);
    assert!(diff.base_only.is_empty(), "{:?}", diff.base_only);
    assert!(diff.target_only.is_empty(), "{:?}", diff.target_only);
}

#[test]
fn clean_type_strips_pdb_type_indices() {
    let a = clean_type(
        "Bitfield( BitfieldType { underlying_type: TypeIndex( 0x65038 ), length: 4 } )",
    );
    let b = clean_type(
        "Bitfield( BitfieldType { underlying_type: TypeIndex( 0x68899 ), length: 4 } )",
    );
    // Same logical bitfield, different per-PDB index → equal after cleaning.
    assert_eq!(a, b);
    assert!(a.contains("length: 4"));
    // A plain type is returned untouched.
    assert_eq!(clean_type("s32"), "s32");
}

#[test]
fn accesses_have_names() {
    assert_eq!(access_name(0), "unspecified");
    assert_eq!(access_name(1), "private");
    assert_eq!(access_name(2), "protected");
    assert_eq!(access_name(3), "public");
}

#[test]
fn the_fewest_keys_are_moved() {
    let base = s(&["a", "b", "c", "d", "e"]);
    let target = s(&["c", "a", "b", "e", "x"]);
    let diff = seq_diff(&base, &target);
    assert_eq!(diff.only_base, ["d"]);
    assert_eq!(diff.only_target, ["x"]);
    assert_eq!(diff.moved, ["c"]);
    let back = seq_diff(&target, &base);
    assert_eq!(back.only_target, diff.only_base);
    assert_eq!(back.moved.len(), 1);
}

#[test]
fn moved_functions_are_the_same_from_either_side() {
    let mut base = side_with(&[("m/u.cpp", &["void f()", "void g()", "void h()"])]);
    let mut target = side_with(&[("m/u.cpp", &["void g()", "void f()", "void h()"])]);
    for side in [&mut base, &mut target] {
        for f in functions(side) {
            f.definition_line += 1;
        }
    }
    let b = base.file("m/u.cpp").unwrap();
    let t = target.file("m/u.cpp").unwrap();
    let mut there = function_order_moved(b, t);
    let mut back = function_order_moved(t, b);
    there.sort();
    back.sort();
    assert_eq!(there, ["name|void f()", "name|void g()"]);
    assert_eq!(there, back);
    assert!(function_order_moved(b, b).is_empty());
}

#[test]
fn only_known_accesses_are_compared() {
    assert!(access_differs(1, 2));
    assert!(!access_differs(4, 1));
    assert!(!access_differs(3, 255));
    assert_eq!(access_name(4), "unspecified");
}
