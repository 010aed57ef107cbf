//! The whole report of where two builds diverge.

use crate::divergence::{block, class_counted, class_lines, count_on, diff_class, diff_enum,
    enum_lines, lemma_class_is_like_itself, lemma_enum_is_like_itself, no_headers, one_if,
    push_line, tally, HeaderCounts, HeaderTally};
use crate::divergence_extract::Config;
use crate::divergence_model::{entry, lemma_place, place, SideModel, SideShape};
use crate::divergence_report::{alone, diff_file, file_counted, file_notes,
    lemma_file_is_like_itself, lemma_presence_is_like_itself, no_sources, presence_functions,
    PresenceDiff, SourceCounts, SourceTally};
use crate::lcs::views;
use crate::number::{dec, decimal};
use crate::order::{insert_once, sorted_once};
use crate::pieces::{cat10, cat16, cat2, cat3, cat4, cat6, cat7, cat8, cat9};
use crate::text::{owned, texts};
use vstd::prelude::*;
use vstd::string::StringExecFns;

verus! {

// ---------------------------------------------------------------------------
// Names of both builds
// ---------------------------------------------------------------------------

/// The names of some entries.
pub open spec fn names<V>(s: Seq<(Seq<char>, V)>) -> Seq<Seq<char>> {
    s.map_values(|x: (Seq<char>, V)| x.0)
}

/// The names of two lists, in order and each once.
pub open spec fn union_names<V>(a: Seq<(Seq<char>, V)>, b: Seq<(Seq<char>, V)>) -> Seq<Seq<char>> {
    sorted_once(names(a) + names(b))
}

fn add_names<T: View>(v: &mut Vec<String>, list: &Vec<(String, T)>, before: Ghost<Seq<Seq<char>>>)
    requires
        texts(old(v)@) == sorted_once(before@),
    ensures
        texts(final(v)@) == sorted_once(before@ + names(views(list@))),
{
    let ghost all = names(views(list@));
    let mut i: usize = 0;
    assert(before@ + all.take(0) =~= before@);
    while i < list.len()
        invariant
            all == names(views(list@)),
            i <= list@.len(),
            texts(v@) == sorted_once(before@ + all.take(i as int)),
        decreases list.len() - i,
    {
        assert(all[i as int] == list@[i as int].0@);
        assert((before@ + all.take(i + 1)).drop_last() =~= before@ + all.take(i as int));
        assert((before@ + all.take(i + 1)).last() == all[i as int]);
        insert_once(v, owned(list[i].0.as_str()));
        i = i + 1;
    }
    assert(all.take(i as int) =~= all);
}

/// The names of two lists, in order and each once.
pub fn union_keys<T: View>(a: &Vec<(String, T)>, b: &Vec<(String, T)>) -> (r: Vec<String>)
    ensures
        texts(r@) == union_names(views(a@), views(b@)),
{
    let mut v: Vec<String> = Vec::new();
    let ghost none = Seq::<Seq<char>>::empty();
    assert(texts(v@) =~= sorted_once(none));
    add_names(&mut v, a, Ghost(none));
    assert(none + names(views(a@)) =~= names(views(a@)));
    add_names(&mut v, b, Ghost(names(views(a@))));
    v
}

// ---------------------------------------------------------------------------
// What only one build has
// ---------------------------------------------------------------------------

/// The first `n` names, one on a line.
pub open spec fn name_lines(v: Seq<Seq<char>>, n: int) -> Seq<char>
    decreases n,
{
    if n <= 0 {
        ""@
    } else {
        name_lines(v, n - 1) + ("  "@ + v[n - 1] + "\n"@)
    }
}

/// Names under a title, where there are any.
pub open spec fn name_list(side: Seq<char>, label: Seq<char>, v: Seq<Seq<char>>) -> Seq<char> {
    if v.len() == 0 {
        ""@
    } else {
        "---- "@ + side + " "@ + label + " ("@ + dec(v.len()) + ") ----\n"@ + name_lines(
            v,
            v.len() as int,
        )
    }
}

/// What only one build has, where it is asked for and there is any.
pub open spec fn presence_text(
    label: Seq<char>,
    only_base: Seq<Seq<char>>,
    only_target: Seq<Seq<char>>,
    listed: bool,
) -> Seq<char> {
    if !listed || (only_base.len() == 0 && only_target.len() == 0) {
        ""@
    } else {
        name_list("base-only"@, label, only_base) + name_list("target-only"@, label, only_target)
            + "\n"@
    }
}

fn name_list_of(side: &str, label: &str, v: &Vec<String>) -> (r: String)
    ensures
        r@ == name_list(side@, label@, texts(v@)),
{
    if v.len() == 0 {
        return owned("");
    }
    let ghost m = texts(v@);
    let mut body: String = owned("");
    let mut i: usize = 0;
    while i < v.len()
        invariant
            m == texts(v@),
            i <= v@.len(),
            body@ == name_lines(m, i as int),
        decreases v.len() - i,
    {
        body.append(cat3("  ", v[i].as_str(), "\n").as_str());
        i = i + 1;
    }
    cat8(
        "---- ",
        side,
        " ",
        label,
        " (",
        decimal(v.len() as u64).as_str(),
        ") ----\n",
        body.as_str(),
    )
}

/// What only one build has, where it is asked for and there is any.
pub fn report_presence(
    label: &str,
    only_base: &Vec<String>,
    only_target: &Vec<String>,
    cfg: &Config,
) -> (r: String)
    ensures
        r@ == presence_text(label@, texts(only_base@), texts(only_target@), cfg.list_presence),
{
    if !cfg.list_presence || (only_base.len() == 0 && only_target.len() == 0) {
        return owned("");
    }
    cat3(
        name_list_of("base-only", label, only_base).as_str(),
        name_list_of("target-only", label, only_target).as_str(),
        "\n",
    )
}

// ---------------------------------------------------------------------------
// Types
// ---------------------------------------------------------------------------

/// What was told and counted of the types.
pub struct HeaderProgress {
    pub counts: HeaderTally,
    pub text: Seq<char>,
}

/// What was told and counted, with a class.
#[verifier::opaque]
pub open spec fn with_class(p: HeaderProgress, b: SideShape, t: SideShape, name: Seq<char>) -> HeaderProgress {
    let c = p.counts;
    match (entry(b.classes, name), entry(t.classes, name)) {
        (Some(x), Some(y)) => {
            let lines = class_lines(x, y);
            let d = class_counted(c, x, y);
            HeaderProgress {
                counts: HeaderTally {
                    both: tally(c.both, 1),
                    diverged: tally(c.diverged, one_if(lines.len() > 0)),
                    ..d
                },
                text: p.text + block(x.kind + " "@ + name, lines),
            }
        },
        (Some(_), None) => HeaderProgress {
            counts: HeaderTally { only_base: c.only_base.push(name), ..c },
            ..p
        },
        (None, Some(_)) => HeaderProgress {
            counts: HeaderTally { only_target: c.only_target.push(name), ..c },
            ..p
        },
        (None, None) => p,
    }
}

/// What was told and counted, with an enumeration.
#[verifier::opaque]
pub open spec fn with_enum(p: HeaderProgress, b: SideShape, t: SideShape, name: Seq<char>) -> HeaderProgress {
    let c = p.counts;
    match (entry(b.enums, name), entry(t.enums, name)) {
        (Some(x), Some(y)) => {
            let lines = enum_lines(x, y);
            HeaderProgress {
                counts: HeaderTally {
                    enums_both: tally(c.enums_both, 1),
                    enums_diverged: tally(c.enums_diverged, one_if(lines.len() > 0)),
                    ..c
                },
                text: p.text + block("enum "@ + name, lines),
            }
        },
        (Some(_), None) => HeaderProgress {
            counts: HeaderTally { enum_only_base: c.enum_only_base.push(name), ..c },
            ..p
        },
        (None, Some(_)) => HeaderProgress {
            counts: HeaderTally { enum_only_target: c.enum_only_target.push(name), ..c },
            ..p
        },
        (None, None) => p,
    }
}

/// What was told and counted of the first `n` classes.
pub open spec fn with_classes(
    p: HeaderProgress,
    b: SideShape,
    t: SideShape,
    keys: Seq<Seq<char>>,
    n: int,
) -> HeaderProgress
    decreases n,
{
    if n <= 0 {
        p
    } else {
        with_class(with_classes(p, b, t, keys, n - 1), b, t, keys[n - 1])
    }
}

/// What was told and counted of the first `n` enumerations.
pub open spec fn with_enums(
    p: HeaderProgress,
    b: SideShape,
    t: SideShape,
    keys: Seq<Seq<char>>,
    n: int,
) -> HeaderProgress
    decreases n,
{
    if n <= 0 {
        p
    } else {
        with_enum(with_enums(p, b, t, keys, n - 1), b, t, keys[n - 1])
    }
}

/// All that is told and counted of the types.
pub open spec fn header_progress(b: SideShape, t: SideShape) -> HeaderProgress {
    let classes = union_names(b.classes, t.classes);
    let enums = union_names(b.enums, t.enums);
    let start = HeaderProgress {
        counts: no_headers(),
        text: "================ HEADERS ================\n\n"@,
    };
    with_enums(
        with_classes(start, b, t, classes, classes.len() as int),
        b,
        t,
        enums,
        enums.len() as int,
    )
}

/// The counts of the types in words.
pub open spec fn header_summary(c: HeaderTally) -> Seq<char> {
    ("---- header summary ----\ntypes:  "@ + dec(c.both as nat) + " compared, "@ + dec(
        c.diverged as nat,
    ) + " diverged ("@ + dec(c.size_diff as nat) + " size, "@ + dec(c.member_diff as nat)
        + " member, "@ + dec(c.order_diff as nat) + " fn-order, "@ + dec(c.visibility_diff as nat)
        + " visibility); base-only "@ + dec(c.only_base.len()) + ", target-only "@ + dec(
        c.only_target.len(),
    )) + ("\nenums:  "@ + dec(c.enums_both as nat) + " compared, "@ + dec(c.enums_diverged as nat)
        + " diverged; base-only "@ + dec(c.enum_only_base.len()) + ", target-only "@ + dec(
        c.enum_only_target.len(),
    ) + "\n\n"@)
}

/// The report of the types.
pub open spec fn header_report(b: SideShape, t: SideShape, listed: bool) -> Seq<char> {
    let p = header_progress(b, t);
    p.text + presence_text(
        "classes/structs/unions"@,
        p.counts.only_base,
        p.counts.only_target,
        listed,
    ) + presence_text(
        "enums"@,
        p.counts.enum_only_base,
        p.counts.enum_only_target,
        listed,
    ) + header_summary(p.counts)
}

fn tell_class(base: &SideModel, target: &SideModel, name: &String, counts: &mut HeaderCounts, out: &mut String)
    ensures
        with_class(
            (HeaderProgress { counts: old(counts)@, text: old(out)@ }),
            base@,
            target@,
            name@,
        ) == (HeaderProgress { counts: final(counts)@, text: final(out)@ }),
{
    reveal(with_class);
    match (base.class(name.as_str()), target.class(name.as_str())) {
        (Some(b), Some(t)) => {
            counts.both = count_on(counts.both, 1);
            if diff_class(name.as_str(), b, t, counts, out) {
                counts.diverged = count_on(counts.diverged, 1);
            }
            assert(counts.diverged == tally(
                old(counts).diverged,
                one_if(class_lines(b@, t@).len() > 0),
            ));
        },
        (Some(_), None) => {
            push_line(&mut counts.only_base, owned(name.as_str()));
        },
        (None, Some(_)) => {
            push_line(&mut counts.only_target, owned(name.as_str()));
        },
        (None, None) => {},
    }
}

fn tell_enum(base: &SideModel, target: &SideModel, name: &String, counts: &mut HeaderCounts, out: &mut String)
    ensures
        with_enum(
            (HeaderProgress { counts: old(counts)@, text: old(out)@ }),
            base@,
            target@,
            name@,
        ) == (HeaderProgress { counts: final(counts)@, text: final(out)@ }),
{
    reveal(with_enum);
    match (base.enumeration(name.as_str()), target.enumeration(name.as_str())) {
        (Some(b), Some(t)) => {
            counts.enums_both = count_on(counts.enums_both, 1);
            if diff_enum(name.as_str(), b, t, out) {
                counts.enums_diverged = count_on(counts.enums_diverged, 1);
            }
            assert(counts.enums_diverged == tally(
                old(counts).enums_diverged,
                one_if(enum_lines(b@, t@).len() > 0),
            ));
        },
        (Some(_), None) => {
            push_line(&mut counts.enum_only_base, owned(name.as_str()));
        },
        (None, Some(_)) => {
            push_line(&mut counts.enum_only_target, owned(name.as_str()));
        },
        (None, None) => {},
    }
}

fn header_summary_of(c: &HeaderCounts) -> (r: String)
    ensures
        r@ == header_summary(c@),
{
    let types: String = cat16(
        "---- header summary ----\ntypes:  ",
        decimal(c.both as u64).as_str(),
        " compared, ",
        decimal(c.diverged as u64).as_str(),
        " diverged (",
        decimal(c.size_diff as u64).as_str(),
        " size, ",
        decimal(c.member_diff as u64).as_str(),
        " member, ",
        decimal(c.order_diff as u64).as_str(),
        " fn-order, ",
        decimal(c.visibility_diff as u64).as_str(),
        " visibility); base-only ",
        decimal(c.only_base.len() as u64).as_str(),
        ", target-only ",
        decimal(c.only_target.len() as u64).as_str(),
    );
    let enums: String = cat9(
        "\nenums:  ",
        decimal(c.enums_both as u64).as_str(),
        " compared, ",
        decimal(c.enums_diverged as u64).as_str(),
        " diverged; base-only ",
        decimal(c.enum_only_base.len() as u64).as_str(),
        ", target-only ",
        decimal(c.enum_only_target.len() as u64).as_str(),
        "\n\n",
    );
    cat2(types.as_str(), enums.as_str())
}

/// The report of the types, with its counts.
pub fn report_headers(base: &SideModel, target: &SideModel, cfg: &Config) -> (r: (
    String,
    HeaderCounts,
))
    ensures
        r.0@ == header_report(base@, target@, cfg.list_presence),
        r.1@ == header_progress(base@, target@).counts,
{
    let mut out: String = owned("================ HEADERS ================\n\n");
    let mut counts: HeaderCounts = HeaderCounts::new();
    let ghost start = HeaderProgress { counts: counts@, text: out@ };
    let classes: Vec<String> = union_keys(&base.classes, &target.classes);
    let ghost ck = texts(classes@);
    let mut i: usize = 0;
    while i < classes.len()
        invariant
            ck == texts(classes@),
            i <= classes@.len(),
            with_classes(start, base@, target@, ck, i as int) == (HeaderProgress {
                counts: counts@,
                text: out@,
            }),
        decreases classes.len() - i,
    {
        assert(ck[i as int] == classes@[i as int]@);
        tell_class(base, target, &classes[i], &mut counts, &mut out);
        i = i + 1;
    }
    let ghost middle = HeaderProgress { counts: counts@, text: out@ };
    let enums: Vec<String> = union_keys(&base.enums, &target.enums);
    let ghost ek = texts(enums@);
    let mut j: usize = 0;
    while j < enums.len()
        invariant
            ek == texts(enums@),
            j <= enums@.len(),
            with_enums(middle, base@, target@, ek, j as int) == (HeaderProgress {
                counts: counts@,
                text: out@,
            }),
        decreases enums.len() - j,
    {
        assert(ek[j as int] == enums@[j as int]@);
        tell_enum(base, target, &enums[j], &mut counts, &mut out);
        j = j + 1;
    }
    let text: String = cat4(
        out.as_str(),
        report_presence(
            "classes/structs/unions",
            &counts.only_base,
            &counts.only_target,
            cfg,
        ).as_str(),
        report_presence(
            "enums",
            &counts.enum_only_base,
            &counts.enum_only_target,
            cfg,
        ).as_str(),
        header_summary_of(&counts).as_str(),
    );
    (text, counts)
}

// ---------------------------------------------------------------------------
// Source files
// ---------------------------------------------------------------------------

/// What was told and counted of the files.
pub struct SourceProgress {
    pub counts: SourceTally,
    pub text: Seq<char>,
}

/// What was told and counted, with a file.
#[verifier::opaque]
pub open spec fn with_file(
    p: SourceProgress,
    b: SideShape,
    t: SideShape,
    path: Seq<char>,
    compare_tables: bool,
) -> SourceProgress {
    let c = p.counts;
    match (entry(b.files, path), entry(t.files, path)) {
        (Some(x), Some(y)) => {
            let lines = file_notes(x, y, compare_tables).lines;
            let d = file_counted(c, x, y, compare_tables);
            SourceProgress {
                counts: SourceTally {
                    both: tally(c.both, 1),
                    diverged: tally(c.diverged, one_if(lines.len() > 0)),
                    ..d
                },
                text: p.text + block(path, lines),
            }
        },
        (Some(_), None) => SourceProgress {
            counts: SourceTally { only_base: c.only_base.push(path), ..c },
            ..p
        },
        (None, Some(_)) => SourceProgress {
            counts: SourceTally { only_target: c.only_target.push(path), ..c },
            ..p
        },
        (None, None) => p,
    }
}

/// What was told and counted of the first `n` files.
pub open spec fn with_files(
    p: SourceProgress,
    b: SideShape,
    t: SideShape,
    keys: Seq<Seq<char>>,
    compare_tables: bool,
    n: int,
) -> SourceProgress
    decreases n,
{
    if n <= 0 {
        p
    } else {
        with_file(
            with_files(p, b, t, keys, compare_tables, n - 1),
            b,
            t,
            keys[n - 1],
            compare_tables,
        )
    }
}

/// All that is told and counted of the files.
pub open spec fn source_progress(b: SideShape, t: SideShape, compare_tables: bool) -> SourceProgress {
    let keys = union_names(b.files, t.files);
    let start = SourceProgress {
        counts: no_sources(),
        text: "================ SOURCES ================\n\n"@,
    };
    with_files(start, b, t, keys, compare_tables, keys.len() as int)
}

/// The first `n` functions of one build, one on a line.
pub open spec fn function_rows(side: Seq<char>, v: Seq<(Seq<char>, Seq<char>)>, n: int) -> Seq<char>
    decreases n,
{
    if n <= 0 {
        ""@
    } else {
        function_rows(side, v, n - 1) + ("  [presence] "@ + side + "  "@ + v[n - 1].0 + "  "@ + v[n
            - 1].1 + "\n"@)
    }
}

/// The functions of one build, under a title, where there are any.
pub open spec fn function_list(
    title: Seq<char>,
    side: Seq<char>,
    v: Seq<(Seq<char>, Seq<char>)>,
) -> Seq<char> {
    if v.len() == 0 {
        ""@
    } else {
        "---- "@ + title + " out-of-line functions ("@ + dec(v.len()) + ") ----\n"@
            + function_rows(side, v, v.len() as int)
    }
}

/// The functions that only one build has, where they are asked for and there are any.
pub open spec fn function_presence_text(
    base_only: Seq<(Seq<char>, Seq<char>)>,
    target_only: Seq<(Seq<char>, Seq<char>)>,
    listed: bool,
) -> Seq<char> {
    if !listed || (base_only.len() == 0 && target_only.len() == 0) {
        ""@
    } else {
        function_list("base-only"@, "base-only"@, base_only) + function_list(
            "target-only"@,
            "tgt-only "@,
            target_only,
        ) + "\n"@
    }
}

/// The functions that only the one of two builds has.
pub open spec fn functions_alone(a: SideShape, b: SideShape) -> Seq<(Seq<char>, Seq<char>)> {
    alone(a.presence, b.presence, a.presence.len() as int)
}

/// The counts of the files in words.
pub open spec fn source_summary(
    c: SourceTally,
    compare_tables: bool,
    base_only: nat,
    target_only: nat,
) -> Seq<char> {
    ("---- source summary ----\nfiles:  "@ + dec(c.both as nat) + " compared, "@ + dec(
        c.diverged as nat,
    ) + " diverged; base-only "@ + dec(c.only_base.len()) + ", target-only "@ + dec(
        c.only_target.len(),
    ) + "\n        "@ + dec(c.order_diff as nat) + " files w/ fn-order diff, "@) + (
    if compare_tables {
        dec(c.raw_line_table_diff as nat) + " functions w/ raw line-table-count diff, "@
    } else {
        ""@
    }) + (dec(c.const_diff as nat) + " functions w/ const diff\n        out-of-line presence: "@
        + dec(base_only) + " base-only (we emit standalone; target inlines), "@ + dec(target_only)
        + " target-only (target emits standalone; we inline / no source)\n\n"@)
}

/// The report of the files.
pub open spec fn source_report(b: SideShape, t: SideShape, cfg: Config) -> Seq<char> {
    let p = source_progress(b, t, cfg.compare_raw_line_table_counts);
    let x = functions_alone(b, t);
    let y = functions_alone(t, b);
    p.text + presence_text("files"@, p.counts.only_base, p.counts.only_target, cfg.list_presence)
        + function_presence_text(x, y, cfg.list_presence_fns) + source_summary(
        p.counts,
        cfg.compare_raw_line_table_counts,
        x.len(),
        y.len(),
    )
}

fn tell_file(
    base: &SideModel,
    target: &SideModel,
    path: &String,
    cfg: &Config,
    counts: &mut SourceCounts,
    out: &mut String,
)
    ensures
        with_file(
            (SourceProgress { counts: old(counts)@, text: old(out)@ }),
            base@,
            target@,
            path@,
            cfg.compare_raw_line_table_counts,
        ) == (SourceProgress { counts: final(counts)@, text: final(out)@ }),
{
    reveal(with_file);
    match (base.file(path.as_str()), target.file(path.as_str())) {
        (Some(b), Some(t)) => {
            counts.both = count_on(counts.both, 1);
            if diff_file(path.as_str(), b, t, cfg, counts, out) {
                counts.diverged = count_on(counts.diverged, 1);
            }
            assert(counts.diverged == tally(
                old(counts).diverged,
                one_if(
                    file_notes(b@, t@, cfg.compare_raw_line_table_counts).lines.len() > 0,
                ),
            ));
        },
        (Some(_), None) => {
            push_line(&mut counts.only_base, owned(path.as_str()));
        },
        (None, Some(_)) => {
            push_line(&mut counts.only_target, owned(path.as_str()));
        },
        (None, None) => {},
    }
}

fn function_list_of(title: &str, side: &str, v: &Vec<(String, String)>) -> (r: String)
    ensures
        r@ == function_list(title@, side@, views(v@)),
{
    if v.len() == 0 {
        return owned("");
    }
    let ghost m = views(v@);
    let mut rows: String = owned("");
    let mut i: usize = 0;
    while i < v.len()
        invariant
            m == views(v@),
            i <= v@.len(),
            rows@ == function_rows(side@, m, i as int),
        decreases v.len() - i,
    {
        assert(m[i as int] == (v@[i as int].0@, v@[i as int].1@));
        let row: String = cat7(
            "  [presence] ",
            side,
            "  ",
            v[i].0.as_str(),
            "  ",
            v[i].1.as_str(),
            "\n",
        );
        rows.append(row.as_str());
        i = i + 1;
    }
    cat6(
        "---- ",
        title,
        " out-of-line functions (",
        decimal(v.len() as u64).as_str(),
        ") ----\n",
        rows.as_str(),
    )
}

/// The functions that only one build has, where they are asked for and there are any, and
/// how many there are of the base and of the target.
pub fn report_presence_functions(base: &SideModel, target: &SideModel, cfg: &Config) -> (r: (
    String,
    usize,
    usize,
))
    ensures
        r.0@ == function_presence_text(
            functions_alone(base@, target@),
            functions_alone(target@, base@),
            cfg.list_presence_fns,
        ),
        r.1 == functions_alone(base@, target@).len(),
        r.2 == functions_alone(target@, base@).len(),
{
    let d: PresenceDiff = presence_functions(base, target);
    let b: usize = d.base_only.len();
    let t: usize = d.target_only.len();
    assert(views(d.base_only@).len() == b);
    assert(views(d.target_only@).len() == t);
    if !cfg.list_presence_fns || (b == 0 && t == 0) {
        return (owned(""), b, t);
    }
    let text: String = cat3(
        function_list_of("base-only", "base-only", &d.base_only).as_str(),
        function_list_of("target-only", "tgt-only ", &d.target_only).as_str(),
        "\n",
    );
    (text, b, t)
}

fn source_summary_of(c: &SourceCounts, compare_tables: bool, base_only: usize, target_only: usize) -> (r:
    String)
    ensures
        r@ == source_summary(c@, compare_tables, base_only as nat, target_only as nat),
{
    let first: String = summary_head(c);
    let middle: String = if compare_tables {
        cat2(
            decimal(c.raw_line_table_diff as u64).as_str(),
            " functions w/ raw line-table-count diff, ",
        )
    } else {
        owned("")
    };
    let last: String = cat6(
        decimal(c.const_diff as u64).as_str(),
        " functions w/ const diff\n        out-of-line presence: ",
        decimal(base_only as u64).as_str(),
        " base-only (we emit standalone; target inlines), ",
        decimal(target_only as u64).as_str(),
        " target-only (target emits standalone; we inline / no source)\n\n",
    );
    cat3(first.as_str(), middle.as_str(), last.as_str())
}

fn summary_head(c: &SourceCounts) -> (r: String)
    ensures
        r@ == "---- source summary ----\nfiles:  "@ + dec(c@.both as nat) + " compared, "@ + dec(
            c@.diverged as nat,
        ) + " diverged; base-only "@ + dec(c@.only_base.len()) + ", target-only "@ + dec(
            c@.only_target.len(),
        ) + "\n        "@ + dec(c@.order_diff as nat) + " files w/ fn-order diff, "@,
{
    let a: String = cat10(
        "---- source summary ----\nfiles:  ",
        decimal(c.both as u64).as_str(),
        " compared, ",
        decimal(c.diverged as u64).as_str(),
        " diverged; base-only ",
        decimal(c.only_base.len() as u64).as_str(),
        ", target-only ",
        decimal(c.only_target.len() as u64).as_str(),
        "\n        ",
        decimal(c.order_diff as u64).as_str(),
    );
    cat2(a.as_str(), " files w/ fn-order diff, ")
}

/// The report of the files, with its counts.
pub fn report_sources(base: &SideModel, target: &SideModel, cfg: &Config) -> (r: (
    String,
    SourceCounts,
))
    ensures
        r.0@ == source_report(base@, target@, *cfg),
        r.1@ == source_progress(base@, target@, cfg.compare_raw_line_table_counts).counts,
{
    let mut out: String = owned("================ SOURCES ================\n\n");
    let mut counts: SourceCounts = SourceCounts::new();
    let ghost start = SourceProgress { counts: counts@, text: out@ };
    let keys: Vec<String> = union_keys(&base.files, &target.files);
    let ghost all = texts(keys@);
    let tables: bool = cfg.compare_raw_line_table_counts;
    let mut i: usize = 0;
    while i < keys.len()
        invariant
            all == texts(keys@),
            tables == cfg.compare_raw_line_table_counts,
            i <= keys@.len(),
            with_files(start, base@, target@, all, tables, i as int) == (SourceProgress {
                counts: counts@,
                text: out@,
            }),
        decreases keys.len() - i,
    {
        assert(all[i as int] == keys@[i as int]@);
        tell_file(base, target, &keys[i], cfg, &mut counts, &mut out);
        i = i + 1;
    }
    let (presence, b, t): (String, usize, usize) = report_presence_functions(base, target, cfg);
    let text: String = cat4(
        out.as_str(),
        report_presence("files", &counts.only_base, &counts.only_target, cfg).as_str(),
        presence.as_str(),
        source_summary_of(&counts, tables, b, t).as_str(),
    );
    (text, counts)
}

// ---------------------------------------------------------------------------
// The whole
// ---------------------------------------------------------------------------

/// The whole report.
pub open spec fn report(b: SideShape, t: SideShape, cfg: Config) -> Seq<char> {
    (if cfg.do_headers {
        header_report(b, t, cfg.list_presence)
    } else {
        ""@
    }) + (if cfg.do_sources {
        source_report(b, t, cfg)
    } else {
        ""@
    })
}

/// The whole report of where two builds diverge.
pub fn run(base: &SideModel, target: &SideModel, cfg: &Config) -> (r: String)
    ensures
        r@ == report(base@, target@, *cfg),
{
    let headers: String = if cfg.do_headers {
        report_headers(base, target, cfg).0
    } else {
        owned("")
    };
    let sources: String = if cfg.do_sources {
        report_sources(base, target, cfg).0
    } else {
        owned("")
    };
    cat2(headers.as_str(), sources.as_str())
}

// ---------------------------------------------------------------------------
// A build compared with itself
// ---------------------------------------------------------------------------

/// Whether no two members of a class of a build have one name, and no two functions of a
/// file one signature.
pub open spec fn is_plain(s: SideShape) -> bool {
    &&& forall|i: int, j: int, k: int|
        #![trigger s.classes[i].1.fields[j], s.classes[i].1.fields[k]]
        0 <= i < s.classes.len() && 0 <= j < k < s.classes[i].1.fields.len()
            ==> s.classes[i].1.fields[j].name != s.classes[i].1.fields[k].name
    &&& forall|i: int, j: int, k: int|
        #![trigger s.files[i].1[j], s.files[i].1[k]]
        0 <= i < s.files.len() && 0 <= j < k < s.files[i].1.len() ==> s.files[i].1[j].name_orig
            != s.files[i].1[k].name_orig
}

proof fn lemma_classes_alike(p: HeaderProgress, s: SideShape, keys: Seq<Seq<char>>, n: int)
    requires
        is_plain(s),
        0 <= n <= keys.len(),
    ensures
        ({
            let q = with_classes(p, s, s, keys, n);
            &&& q.counts.diverged == p.counts.diverged
            &&& q.counts.only_base == p.counts.only_base
            &&& q.counts.only_target == p.counts.only_target
            &&& q.counts.enums_diverged == p.counts.enums_diverged
            &&& q.counts.enum_only_base == p.counts.enum_only_base
            &&& q.counts.enum_only_target == p.counts.enum_only_target
        }),
    decreases n,
{
    if n > 0 {
        lemma_classes_alike(p, s, keys, n - 1);
        reveal(with_class);
        lemma_place(s.classes, keys[n - 1], 0);
        match place(s.classes, keys[n - 1]) {
            Some(i) => {
                let c = s.classes[i].1;
                assert forall|j: int, k: int| 0 <= j < k < c.fields.len() implies (
                #[trigger] c.fields[j]).name != (#[trigger] c.fields[k]).name by {
                    assert(s.classes[i].1.fields[j].name != s.classes[i].1.fields[k].name);
                }
                lemma_class_is_like_itself(c);
            },
            None => {},
        }
    }
}

proof fn lemma_enums_alike(p: HeaderProgress, s: SideShape, keys: Seq<Seq<char>>, n: int)
    requires
        0 <= n <= keys.len(),
    ensures
        ({
            let q = with_enums(p, s, s, keys, n);
            &&& q.counts.diverged == p.counts.diverged
            &&& q.counts.only_base == p.counts.only_base
            &&& q.counts.only_target == p.counts.only_target
            &&& q.counts.enums_diverged == p.counts.enums_diverged
            &&& q.counts.enum_only_base == p.counts.enum_only_base
            &&& q.counts.enum_only_target == p.counts.enum_only_target
        }),
    decreases n,
{
    if n > 0 {
        lemma_enums_alike(p, s, keys, n - 1);
        reveal(with_enum);
        match entry(s.enums, keys[n - 1]) {
            Some(e) => {
                lemma_enum_is_like_itself(e);
            },
            None => {},
        }
    }
}

proof fn lemma_files_alike(
    p: SourceProgress,
    s: SideShape,
    keys: Seq<Seq<char>>,
    compare_tables: bool,
    n: int,
)
    requires
        is_plain(s),
        0 <= n <= keys.len(),
    ensures
        ({
            let q = with_files(p, s, s, keys, compare_tables, n);
            &&& q.counts.diverged == p.counts.diverged
            &&& q.counts.only_base == p.counts.only_base
            &&& q.counts.only_target == p.counts.only_target
        }),
    decreases n,
{
    if n > 0 {
        lemma_files_alike(p, s, keys, compare_tables, n - 1);
        reveal(with_file);
        lemma_place(s.files, keys[n - 1], 0);
        match place(s.files, keys[n - 1]) {
            Some(i) => {
                let f = s.files[i].1;
                assert forall|j: int, k: int| 0 <= j < k < f.len() implies (
                #[trigger] f[j]).name_orig != (#[trigger] f[k]).name_orig by {
                    assert(s.files[i].1[j].name_orig != s.files[i].1[k].name_orig);
                }
                lemma_file_is_like_itself(f, compare_tables);
            },
            None => {},
        }
    }
}

/// A build compared with itself does not diverge: no type and no file does, nothing is only
/// in one of the two, and no function has a body of its own in one only.
pub proof fn lemma_build_is_like_itself(s: SideShape, compare_tables: bool)
    requires
        is_plain(s),
    ensures
        ({
            let h = header_progress(s, s).counts;
            let f = source_progress(s, s, compare_tables).counts;
            &&& h.diverged == 0 && h.only_base.len() == 0 && h.only_target.len() == 0
            &&& h.enums_diverged == 0 && h.enum_only_base.len() == 0 && h.enum_only_target.len()
                == 0
            &&& f.diverged == 0 && f.only_base.len() == 0 && f.only_target.len() == 0
            &&& functions_alone(s, s).len() == 0
        }),
{
    let classes = union_names(s.classes, s.classes);
    let enums = union_names(s.enums, s.enums);
    let files = union_names(s.files, s.files);
    let hs = HeaderProgress {
        counts: no_headers(),
        text: "================ HEADERS ================\n\n"@,
    };
    let fs = SourceProgress {
        counts: no_sources(),
        text: "================ SOURCES ================\n\n"@,
    };
    lemma_classes_alike(hs, s, classes, classes.len() as int);
    lemma_enums_alike(
        with_classes(hs, s, s, classes, classes.len() as int),
        s,
        enums,
        enums.len() as int,
    );
    lemma_files_alike(fs, s, files, compare_tables, files.len() as int);
    lemma_presence_is_like_itself(s.presence, s.presence.len() as int);
}

} // verus!
