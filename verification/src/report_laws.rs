//! What holds of the reports on projects and on what diverges, as texts.

use crate::build_info::{project_config, Compiland, ProjectModel};
use crate::build_report::{both_block, cmd_lines, comparison_text, compiland_block, dumped,
    or_absent, project_block, project_blocks, sections, single_line, source_lines, status,
    Sections};
use crate::divergence::HeaderTally;
use crate::divergence_extract::Config;
use crate::divergence_model::{entry, FnShape, SideShape};
use crate::divergence_order::{cross_key, is_inverted, line_of, lines_seen, Seen};
use crate::divergence_report::SourceTally;
use crate::divergence_summary::{function_rows, header_report, header_summary, name_lines, name_list,
    presence_text, report, source_report, source_summary, union_names};
use crate::number::dec;
use crate::order::sorted_once;
use crate::parts::{cat_upto, holds, lemma_holds_both, lemma_holds_pair, lemma_holds_piece,
    lemma_holds_through, lemma_holds_within};
use crate::search::{contains, starts_with};
use crate::text::lowercase;
use crate::type_builder::opt;
use vstd::prelude::*;

verus! {

/// A project of both builds is told with its name, how it compares, how many sources each build
/// has of it, and how each build is configured.
pub proof fn lemma_project_in_both_builds_is_told(
    name: Seq<char>,
    t: ProjectModel,
    b: ProjectModel,
    full: bool,
)
    ensures
        holds(both_block(name, t, b, full), "── "@ + name),
        holds(both_block(name, t, b, full), "   ["@ + status(t, b)),
        holds(both_block(name, t, b, full), "]   (target "@ + dec(sorted_once(t.sources).len())),
        holds(both_block(name, t, b, full), " src / base "@ + dec(sorted_once(b.sources).len())),
        holds(both_block(name, t, b, full), " src)\n     target: "@ + project_config(t)),
        holds(both_block(name, t, b, full), "\n     base  : "@ + project_config(b)),
        holds(both_block(name, t, b, full), "\n"@ + (if full {
            cmd_lines("       target cmd["@, t.flag_sets, "]: "@, t.flag_sets.len() as int)
                + cmd_lines("       base   cmd["@, b.flag_sets, "]: "@, b.flag_sets.len() as int)
        } else {
            ""@
        })),
{
    let a = seq![
        "── "@,
        name,
        "   ["@,
        status(t, b),
        "]   (target "@,
        dec(sorted_once(t.sources).len()),
        " src / base "@,
        dec(sorted_once(b.sources).len()),
        " src)\n     target: "@,
        project_config(t),
        "\n     base  : "@,
        project_config(b),
        "\n"@,
        (if full {
            cmd_lines("       target cmd["@, t.flag_sets, "]: "@, t.flag_sets.len() as int)
                + cmd_lines("       base   cmd["@, b.flag_sets, "]: "@, b.flag_sets.len() as int)
        } else {
            ""@
        }),
        "\n"@,
    ];
    reveal_with_fuel(cat_upto, 16);
    let s = both_block(name, t, b, full);
    assert(s == cat_upto(a, 15));
    lemma_holds_pair(a, 15, 0);
    lemma_holds_pair(a, 15, 2);
    lemma_holds_pair(a, 15, 4);
    lemma_holds_pair(a, 15, 6);
    lemma_holds_pair(a, 15, 8);
    lemma_holds_pair(a, 15, 10);
    lemma_holds_pair(a, 15, 12);
}

/// A project of one build is told with its name, its number of sources and its configuration.
pub proof fn lemma_project_in_one_build_is_told(name: Seq<char>, p: ProjectModel)
    ensures
        holds(single_line(name, p), "── "@ + name),
        holds(single_line(name, p), "   ("@ + dec(sorted_once(p.sources).len())),
        holds(single_line(name, p), " src)   "@ + project_config(p)),
{
    let a = seq![
        "── "@,
        name,
        "   ("@,
        dec(sorted_once(p.sources).len()),
        " src)   "@,
        project_config(p),
        "\n"@,
    ];
    reveal_with_fuel(cat_upto, 8);
    let s = single_line(name, p);
    assert(s == cat_upto(a, 7));
    lemma_holds_pair(a, 7, 0);
    lemma_holds_pair(a, 7, 2);
    lemma_holds_pair(a, 7, 4);
}

/// A project is told with its name, what it is made into and its number of sources.
pub proof fn lemma_project_is_told(name: Seq<char>, p: ProjectModel, full: bool)
    ensures
        holds(
            project_block(name, p, full),
            "════════════════════════════════════════════════════════════\nproject : "@ + name,
        ),
        holds(project_block(name, p, full), "\noutput  : "@ + p.lib),
        holds(project_block(name, p, full), "\nsources : "@ + dec(sorted_once(p.sources).len())),
        holds(project_block(name, p, full), "\n"@ + (if full && p.flag_sets.len() > 0 {
            cmd_lines("cmd["@, p.flag_sets, "] : "@, p.flag_sets.len() as int)
        } else {
            "config  : "@ + project_config(p) + "\n"@
        })),
        holds(
            project_block(name, p, full),
            source_lines(sorted_once(p.sources), sorted_once(p.sources).len() as int),
        ),
{
    let a = seq![
        "════════════════════════════════════════════════════════════\nproject : "@,
        name,
        "\noutput  : "@,
        p.lib,
        "\nsources : "@,
        dec(sorted_once(p.sources).len()),
        "\n"@,
        (if full && p.flag_sets.len() > 0 {
            cmd_lines("cmd["@, p.flag_sets, "] : "@, p.flag_sets.len() as int)
        } else {
            "config  : "@ + project_config(p) + "\n"@
        }),
        source_lines(sorted_once(p.sources), sorted_once(p.sources).len() as int),
        "\n"@,
    ];
    reveal_with_fuel(cat_upto, 11);
    let s = project_block(name, p, full);
    assert(s == cat_upto(a, 10));
    lemma_holds_pair(a, 10, 0);
    lemma_holds_pair(a, 10, 2);
    lemma_holds_pair(a, 10, 4);
    lemma_holds_pair(a, 10, 6);
    lemma_holds_pair(a, 10, 8);
    lemma_holds_both(s, a[8], a[9]);
}

/// The summary of the types tells each count before what it counts.
pub proof fn lemma_counts_of_types_are_told(c: HeaderTally)
    ensures
        holds(header_summary(c), "---- header summary ----\ntypes:  "@ + dec(c.both as nat)),
        holds(header_summary(c), dec(c.diverged as nat) + " diverged ("@),
        holds(header_summary(c), dec(c.size_diff as nat) + " size, "@),
        holds(header_summary(c), dec(c.member_diff as nat) + " member, "@),
        holds(header_summary(c), dec(c.order_diff as nat) + " fn-order, "@),
        holds(header_summary(c), dec(c.visibility_diff as nat) + " visibility); base-only "@),
        holds(header_summary(c), " visibility); base-only "@ + dec(c.only_base.len())),
        holds(header_summary(c), ", target-only "@ + dec(c.only_target.len())),
        holds(header_summary(c), "\nenums:  "@ + dec(c.enums_both as nat)),
        holds(header_summary(c), dec(c.enums_diverged as nat) + " diverged; base-only "@),
        holds(header_summary(c), " diverged; base-only "@ + dec(c.enum_only_base.len())),
        holds(header_summary(c), ", target-only "@ + dec(c.enum_only_target.len())),
{
    let a = seq![
        "---- header summary ----\ntypes:  "@,
        dec(c.both as nat),
        " compared, "@,
        dec(c.diverged as nat),
        " diverged ("@,
        dec(c.size_diff as nat),
        " size, "@,
        dec(c.member_diff as nat),
        " member, "@,
        dec(c.order_diff as nat),
        " fn-order, "@,
        dec(c.visibility_diff as nat),
        " visibility); base-only "@,
        dec(c.only_base.len()),
        ", target-only "@,
        dec(c.only_target.len()),
    ];
    let b = seq![
        "\nenums:  "@,
        dec(c.enums_both as nat),
        " compared, "@,
        dec(c.enums_diverged as nat),
        " diverged; base-only "@,
        dec(c.enum_only_base.len()),
        ", target-only "@,
        dec(c.enum_only_target.len()),
        "\n\n"@,
    ];
    reveal_with_fuel(cat_upto, 17);
    let x = cat_upto(a, 16);
    let y = cat_upto(b, 9);
    let s = header_summary(c);
    assert(s == x + y);
    lemma_holds_piece(x, y, Seq::empty());
    lemma_holds_piece(Seq::empty(), x, y);
    assert(x + y =~= Seq::<char>::empty() + x + y);
    lemma_holds_pair(a, 16, 0);
    lemma_holds_through(s, x, a[0] + a[1]);
    lemma_holds_pair(a, 16, 3);
    lemma_holds_through(s, x, a[3] + a[4]);
    lemma_holds_pair(a, 16, 5);
    lemma_holds_through(s, x, a[5] + a[6]);
    lemma_holds_pair(a, 16, 7);
    lemma_holds_through(s, x, a[7] + a[8]);
    lemma_holds_pair(a, 16, 9);
    lemma_holds_through(s, x, a[9] + a[10]);
    lemma_holds_pair(a, 16, 11);
    lemma_holds_through(s, x, a[11] + a[12]);
    lemma_holds_pair(a, 16, 12);
    lemma_holds_through(s, x, a[12] + a[13]);
    lemma_holds_pair(a, 16, 14);
    lemma_holds_through(s, x, a[14] + a[15]);
    lemma_holds_pair(b, 9, 0);
    lemma_holds_through(s, y, b[0] + b[1]);
    lemma_holds_pair(b, 9, 3);
    lemma_holds_through(s, y, b[3] + b[4]);
    lemma_holds_pair(b, 9, 4);
    lemma_holds_through(s, y, b[4] + b[5]);
    lemma_holds_pair(b, 9, 6);
    lemma_holds_through(s, y, b[6] + b[7]);
}

/// The summary of the files tells each count beside what it counts, that of the line tables only
/// where these are compared.
pub proof fn lemma_counts_of_files_are_told(
    c: SourceTally,
    compare_tables: bool,
    base_only: nat,
    target_only: nat,
)
    ensures
        holds(
            source_summary(c, compare_tables, base_only, target_only),
            dec(c.const_diff as nat) + " functions w/ const diff\n        out-of-line presence: "@,
        ),
        holds(
            source_summary(c, compare_tables, base_only, target_only),
            " functions w/ const diff\n        out-of-line presence: "@ + dec(base_only),
        ),
        holds(
            source_summary(c, compare_tables, base_only, target_only),
            dec(base_only) + " base-only (we emit standalone; target inlines), "@,
        ),
        holds(
            source_summary(c, compare_tables, base_only, target_only),
            dec(target_only) + " target-only (target emits standalone; we inline / no source)\n\n"@,
        ),
        holds(
            source_summary(c, compare_tables, base_only, target_only),
            ("---- source summary ----\nfiles:  "@ + dec(c.both as nat) + " compared, "@ + dec(
                c.diverged as nat,
            ) + " diverged; base-only "@ + dec(c.only_base.len()) + ", target-only "@ + dec(
                c.only_target.len(),
            ) + "\n        "@ + dec(c.order_diff as nat) + " files w/ fn-order diff, "@),
        ),
        holds(source_summary(c, compare_tables, base_only, target_only), (if compare_tables {
            dec(c.raw_line_table_diff as nat) + " functions w/ raw line-table-count diff, "@
        } else {
            ""@
        })),
{
    let a = seq![
        ("---- source summary ----\nfiles:  "@ + dec(c.both as nat) + " compared, "@ + dec(
                c.diverged as nat,
            ) + " diverged; base-only "@ + dec(c.only_base.len()) + ", target-only "@ + dec(
                c.only_target.len(),
            ) + "\n        "@ + dec(c.order_diff as nat) + " files w/ fn-order diff, "@),
        (if compare_tables {
            dec(c.raw_line_table_diff as nat) + " functions w/ raw line-table-count diff, "@
        } else {
            ""@
        }),
    ];
    let b = seq![
        dec(c.const_diff as nat),
        " functions w/ const diff\n        out-of-line presence: "@,
        dec(base_only),
        " base-only (we emit standalone; target inlines), "@,
        dec(target_only),
        " target-only (target emits standalone; we inline / no source)\n\n"@,
    ];
    reveal_with_fuel(cat_upto, 7);
    let x = cat_upto(a, 2);
    let y = cat_upto(b, 6);
    let s = source_summary(c, compare_tables, base_only, target_only);
    assert(s == x + y);
    lemma_holds_piece(x, y, Seq::empty());
    lemma_holds_piece(Seq::empty(), x, y);
    assert(x + y =~= Seq::<char>::empty() + x + y);
    lemma_holds_pair(b, 6, 0);
    lemma_holds_through(s, y, b[0] + b[1]);
    lemma_holds_pair(b, 6, 1);
    lemma_holds_through(s, y, b[1] + b[2]);
    lemma_holds_pair(b, 6, 2);
    lemma_holds_through(s, y, b[2] + b[3]);
    lemma_holds_pair(b, 6, 4);
    lemma_holds_through(s, y, b[4] + b[5]);
    lemma_holds_pair(a, 2, 0);
    lemma_holds_through(s, x, a[0] + a[1]);
    lemma_holds_both(s, a[0], a[1]);
    lemma_holds_pair(a, 2, 0);
    lemma_holds_through(s, x, a[0] + a[1]);
    lemma_holds_both(s, a[0], a[1]);
}

/// A compiland is told with its module, its object, its source, its compiler and its command
/// line.
pub proof fn lemma_compiland_is_told(c: Compiland, flags: Option<Seq<char>>)
    ensures
        holds(
            compiland_block(c, flags),
            "════════════════════════════════════════════════════════════\nmodule      : "@ + c.module_name@,
        ),
        holds(compiland_block(c, flags), "\nobject_file : "@ + c.object_file_name@),
        holds(compiland_block(c, flags), "\nobj         : "@ + c.obj_name@),
        holds(compiland_block(c, flags), "\nsource      : "@ + or_absent(opt(c.source))),
        holds(compiland_block(c, flags), "\ncompiler    : "@ + c.version@),
        holds(compiland_block(c, flags), (match flags {
            Some(f) => "compile3    : "@ + f + "\n"@,
            None => ""@,
        })),
        holds(compiland_block(c, flags), ("cmd         : "@ + or_absent(opt(c.cmd)) + "\n"@)),
{
    let a = seq![
        "════════════════════════════════════════════════════════════\nmodule      : "@,
        c.module_name@,
        "\nobject_file : "@,
        c.object_file_name@,
        "\nobj         : "@,
        c.obj_name@,
        "\nsource      : "@,
        or_absent(opt(c.source)),
        "\ncompiler    : "@,
        c.version@,
        "\n"@,
        (match flags {
            Some(f) => "compile3    : "@ + f + "\n"@,
            None => ""@,
        }),
        ("cmd         : "@ + or_absent(opt(c.cmd)) + "\n"@),
    ];
    reveal_with_fuel(cat_upto, 14);
    let s = compiland_block(c, flags);
    assert(s == cat_upto(a, 13));
    lemma_holds_pair(a, 13, 0);
    lemma_holds_pair(a, 13, 2);
    lemma_holds_pair(a, 13, 4);
    lemma_holds_pair(a, 13, 6);
    lemma_holds_pair(a, 13, 8);
    lemma_holds_pair(a, 13, 11);
    lemma_holds_both(s, a[11], a[12]);
    lemma_holds_pair(a, 13, 11);
    lemma_holds_both(s, a[11], a[12]);
}

/// The summary of the files counts those that were compared, those that diverge, those of one
/// build, and those whose functions stand in another order.
pub proof fn lemma_files_are_counted(
    c: SourceTally,
    compare_tables: bool,
    base_only: nat,
    target_only: nat,
)
    ensures
        ({
            let s = source_summary(c, compare_tables, base_only, target_only);
            &&& holds(s, "---- source summary ----\nfiles:  "@ + dec(c.both as nat))
            &&& holds(s, dec(c.diverged as nat) + " diverged; base-only "@)
            &&& holds(s, " diverged; base-only "@ + dec(c.only_base.len()))
            &&& holds(s, ", target-only "@ + dec(c.only_target.len()))
            &&& holds(s, dec(c.order_diff as nat) + " files w/ fn-order diff, "@)
        }),
{
    let a = seq![
        "---- source summary ----\nfiles:  "@,
        dec(c.both as nat),
        " compared, "@,
        dec(c.diverged as nat),
        " diverged; base-only "@,
        dec(c.only_base.len()),
        ", target-only "@,
        dec(c.only_target.len()),
        "\n        "@,
        dec(c.order_diff as nat),
        " files w/ fn-order diff, "@,
    ];
    reveal_with_fuel(cat_upto, 12);
    let x = cat_upto(a, 11);
    let s = source_summary(c, compare_tables, base_only, target_only);
    lemma_counts_of_files_are_told(c, compare_tables, base_only, target_only);
    assert(holds(s, x));
    lemma_holds_pair(a, 11, 0);
    lemma_holds_pair(a, 11, 3);
    lemma_holds_pair(a, 11, 4);
    lemma_holds_pair(a, 11, 6);
    lemma_holds_pair(a, 11, 9);
    lemma_holds_through(s, x, a[0] + a[1]);
    lemma_holds_through(s, x, a[3] + a[4]);
    lemma_holds_through(s, x, a[4] + a[5]);
    lemma_holds_through(s, x, a[6] + a[7]);
    lemma_holds_through(s, x, a[9] + a[10]);
}

/// Every command line of a project has its line, behind its number.
pub proof fn lemma_command_lines_are_told(
    label: Seq<char>,
    v: Seq<(Seq<char>, Seq<char>)>,
    middle: Seq<char>,
    n: int,
    i: int,
)
    requires
        0 <= i < n <= v.len(),
    ensures
        holds(
            cmd_lines(label, v, middle, n),
            label + dec(i as nat) + middle + v[i].1 + "\n"@,
        ),
    decreases n,
{
    let before = cmd_lines(label, v, middle, n - 1);
    let last = label + dec((n - 1) as nat) + middle + v[n - 1].1 + "\n"@;
    if i == n - 1 {
        lemma_holds_piece(before, last, Seq::empty());
    } else {
        lemma_command_lines_are_told(label, v, middle, n - 1, i);
        lemma_holds_within(
            Seq::empty(),
            before,
            last,
            label + dec(i as nat) + middle + v[i].1 + "\n"@,
        );
    }
}

/// Every source of a project has its line.
pub proof fn lemma_sources_are_told(v: Seq<Seq<char>>, n: int, i: int)
    requires
        0 <= i < n <= v.len(),
    ensures
        holds(source_lines(v, n), "    "@ + v[i] + "\n"@),
    decreases n,
{
    let before = source_lines(v, n - 1);
    let last = "    "@ + v[n - 1] + "\n"@;
    if i == n - 1 {
        lemma_holds_piece(before, last, Seq::empty());
    } else {
        lemma_sources_are_told(v, n - 1, i);
        lemma_holds_within(Seq::empty(), before, last, "    "@ + v[i] + "\n"@);
    }
}

/// Each project is told where it belongs: with both builds where both have it, and with the
/// one build where only that has it.
pub proof fn lemma_every_project_is_compared(
    t: Seq<(Seq<char>, ProjectModel)>,
    b: Seq<(Seq<char>, ProjectModel)>,
    keys: Seq<Seq<char>>,
    full: bool,
    n: int,
    i: int,
)
    requires
        0 <= i < n <= keys.len(),
    ensures
        ({
            let s = sections(t, b, keys, full, n);
            let k = keys[i];
            &&& s.n_both + s.n_target + s.n_base <= n
            &&& entry(t, k) matches Some(x) ==> entry(b, k) matches Some(y) ==> holds(
                s.both,
                both_block(k, x, y, full),
            )
            &&& entry(t, k) matches Some(x) ==> entry(b, k) is None ==> holds(
                s.target,
                single_line(k, x),
            )
            &&& entry(b, k) matches Some(y) ==> entry(t, k) is None ==> holds(
                s.base,
                single_line(k, y),
            )
        }),
    decreases n,
{
    let s = sections(t, b, keys, full, n - 1);
    let r = sections(t, b, keys, full, n);
    let j = keys[n - 1];
    if n > 1 {
        lemma_every_project_is_compared(t, b, keys, full, n - 1, if i < n - 1 {
            i
        } else {
            0
        });
    }
    if i == n - 1 {
        match (entry(t, j), entry(b, j)) {
            (Some(x), Some(y)) => {
                lemma_holds_piece(s.both, both_block(j, x, y, full), Seq::empty());
            },
            (Some(x), None) => {
                lemma_holds_piece(s.target, single_line(j, x), Seq::empty());
            },
            (None, Some(y)) => {
                lemma_holds_piece(s.base, single_line(j, y), Seq::empty());
            },
            (None, None) => {},
        }
    } else {
        lemma_sections_grow(s, r, t, b, keys[i], full, j, i, n, keys);
    }
}

proof fn lemma_sections_grow(
    s: Sections,
    r: Sections,
    t: Seq<(Seq<char>, ProjectModel)>,
    b: Seq<(Seq<char>, ProjectModel)>,
    k: Seq<char>,
    full: bool,
    j: Seq<char>,
    i: int,
    n: int,
    keys: Seq<Seq<char>>,
)
    requires
        0 <= i < n - 1 < keys.len(),
        s == sections(t, b, keys, full, n - 1),
        r == sections(t, b, keys, full, n),
        j == keys[n - 1],
        k == keys[i],
        entry(t, k) matches Some(x) ==> entry(b, k) matches Some(y) ==> holds(
            s.both,
            both_block(k, x, y, full),
        ),
        entry(t, k) matches Some(x) ==> entry(b, k) is None ==> holds(s.target, single_line(k, x)),
        entry(b, k) matches Some(y) ==> entry(t, k) is None ==> holds(s.base, single_line(k, y)),
    ensures
        entry(t, k) matches Some(x) ==> entry(b, k) matches Some(y) ==> holds(
            r.both,
            both_block(k, x, y, full),
        ),
        entry(t, k) matches Some(x) ==> entry(b, k) is None ==> holds(r.target, single_line(k, x)),
        entry(b, k) matches Some(y) ==> entry(t, k) is None ==> holds(r.base, single_line(k, y)),
{
    let more_both = match (entry(t, j), entry(b, j)) {
        (Some(x), Some(y)) => both_block(j, x, y, full),
        _ => Seq::empty(),
    };
    let more_target = match (entry(t, j), entry(b, j)) {
        (Some(x), None) => single_line(j, x),
        _ => Seq::empty(),
    };
    let more_base = match (entry(t, j), entry(b, j)) {
        (None, Some(y)) => single_line(j, y),
        _ => Seq::empty(),
    };
    assert(r.both =~= s.both + more_both);
    assert(r.target =~= s.target + more_target);
    assert(r.base =~= s.base + more_base);
    match (entry(t, k), entry(b, k)) {
        (Some(x), Some(y)) => {
            lemma_holds_within(Seq::empty(), s.both, more_both, both_block(k, x, y, full));
        },
        (Some(x), None) => {
            lemma_holds_within(Seq::empty(), s.target, more_target, single_line(k, x));
        },
        (None, Some(y)) => {
            lemma_holds_within(Seq::empty(), s.base, more_base, single_line(k, y));
        },
        (None, None) => {},
    }
}

/// Every project that one of the builds has is counted once.
pub proof fn lemma_projects_are_counted(
    t: Seq<(Seq<char>, ProjectModel)>,
    b: Seq<(Seq<char>, ProjectModel)>,
    keys: Seq<Seq<char>>,
    full: bool,
    n: int,
)
    requires
        0 <= n <= keys.len(),
        forall|i: int|
            0 <= i < n ==> entry(t, #[trigger] keys[i]) is Some || entry(b, keys[i]) is Some,
    ensures
        ({
            let s = sections(t, b, keys, full, n);
            &&& s.n_both + s.n_target + s.n_base == n
            &&& s.n_both == n <==> forall|i: int|
                0 <= i < n ==> entry(t, #[trigger] keys[i]) is Some && entry(b, keys[i]) is Some
        }),
    decreases n,
{
    if n > 0 {
        lemma_projects_are_counted(t, b, keys, full, n - 1);
        let s = sections(t, b, keys, full, n);
        assert(entry(t, keys[n - 1]) is Some || entry(b, keys[n - 1]) is Some);
        if s.n_both != n && entry(t, keys[n - 1]) is Some && entry(b, keys[n - 1]) is Some {
            let i = choose|i: int|
                0 <= i < n - 1 && !(entry(t, #[trigger] keys[i]) is Some && entry(
                    b,
                    keys[i],
                ) is Some);
            assert(!(entry(t, keys[i]) is Some && entry(b, keys[i]) is Some));
        }
    }
}

/// Where a text is looked for, a compiland is shown exactly where one of its names holds it,
/// in any letter case. Where none is, as many are shown as are asked for, or all.
pub proof fn lemma_compilands_are_shown(
    v: Seq<Compiland>,
    flags: Seq<Option<String>>,
    explore: Option<usize>,
    grep: Option<Seq<char>>,
    n: int,
    i: int,
)
    requires
        0 <= i < n <= v.len(),
    ensures
        grep matches Some(g) ==> (contains(
            lowercase(v[i].module_name@),
            lowercase(g),
        ) || contains(
            lowercase(v[i].object_file_name@),
            lowercase(g),
        )) ==> holds(dumped(v, flags, explore, grep, n).1, compiland_block(v[i], opt(flags[i]))),
        explore matches Some(m) ==> grep is None ==> dumped(v, flags, explore, grep, n).0 == (if m
            < n {
            m as int
        } else {
            n
        }),
        explore matches Some(m) ==> grep is None && i < m ==> holds(
            dumped(v, flags, explore, grep, n).1,
            compiland_block(v[i], opt(flags[i])),
        ),
        grep is None && explore is None ==> dumped(v, flags, explore, grep, n).0 == 0,
    decreases n,
{
    let before = dumped(v, flags, explore, grep, n - 1);
    let block = compiland_block(v[i], opt(flags[i]));
    if n > 1 {
        lemma_compilands_are_shown(v, flags, explore, grep, n - 1, if i < n - 1 {
            i
        } else {
            0
        });
    }
    if i == n - 1 {
        lemma_holds_piece(before.1, block, Seq::empty());
    } else if holds(before.1, block) {
        let last = compiland_block(v[n - 1], opt(flags[n - 1]));
        lemma_holds_within(Seq::empty(), before.1, last, block);
    }
}

/// Every name that only one build has is listed under its side, where lists are asked for.
pub proof fn lemma_names_are_listed(v: Seq<Seq<char>>, n: int, i: int)
    requires
        0 <= i < n <= v.len(),
    ensures
        holds(name_lines(v, n), "  "@ + v[i] + "\n"@),
    decreases n,
{
    let before = name_lines(v, n - 1);
    let last = "  "@ + v[n - 1] + "\n"@;
    if i == n - 1 {
        lemma_holds_piece(before, last, Seq::empty());
    } else {
        lemma_names_are_listed(v, n - 1, i);
        lemma_holds_within(Seq::empty(), before, last, "  "@ + v[i] + "\n"@);
    }
}

proof fn lemma_name_list(side: Seq<char>, label: Seq<char>, v: Seq<Seq<char>>, i: int)
    requires
        0 <= i < v.len(),
    ensures
        holds(name_list(side, label, v), "  "@ + v[i] + "\n"@),
        holds(name_list(side, label, v), "---- "@ + side),
        holds(name_list(side, label, v), " ("@ + dec(v.len())),
{
    let s = name_list(side, label, v);
    let n = v.len() as int;
    let a = seq![
        "---- "@,
        side,
        " "@,
        label,
        " ("@,
        dec(v.len()),
        ") ----\n"@,
        name_lines(v, n),
    ];
    reveal_with_fuel(cat_upto, 9);
    assert(s == cat_upto(a, 8));
    lemma_holds_pair(a, 8, 0);
    lemma_holds_pair(a, 8, 4);
    lemma_holds_pair(a, 8, 6);
    lemma_holds_both(s, a[6], a[7]);
    lemma_names_are_listed(v, n, i);
    lemma_holds_through(s, a[7], "  "@ + v[i] + "\n"@);
}

/// What only one build has is listed where it is asked for, and nowhere else.
pub proof fn lemma_presence_is_listed(
    label: Seq<char>,
    only_base: Seq<Seq<char>>,
    only_target: Seq<Seq<char>>,
    listed: bool,
)
    ensures
        !listed ==> presence_text(label, only_base, only_target, listed).len() == 0,
        listed ==> forall|i: int|
            0 <= i < only_base.len() ==> holds(
                presence_text(label, only_base, only_target, listed),
                "  "@ + #[trigger] only_base[i] + "\n"@,
            ),
        listed ==> forall|i: int|
            0 <= i < only_target.len() ==> holds(
                presence_text(label, only_base, only_target, listed),
                "  "@ + #[trigger] only_target[i] + "\n"@,
            ),
        listed && only_base.len() > 0 ==> holds(
            presence_text(label, only_base, only_target, listed),
            "---- "@ + "base-only"@,
        ),
        listed && only_target.len() > 0 ==> holds(
            presence_text(label, only_base, only_target, listed),
            "---- "@ + "target-only"@,
        ),
{
    reveal_strlit("");
    let x = name_list("base-only"@, label, only_base);
    let y = name_list("target-only"@, label, only_target);
    let s = presence_text(label, only_base, only_target, listed);
    if listed && (only_base.len() > 0 || only_target.len() > 0) {
        assert(s == x + y + "\n"@);
        lemma_holds_piece(x, y, "\n"@);
        assert(s =~= x + (y + "\n"@));
        lemma_holds_piece(Seq::empty(), x, y + "\n"@);
        assert(Seq::<char>::empty() + x + (y + "\n"@) =~= s);
        if only_base.len() > 0 {
            lemma_name_list("base-only"@, label, only_base, 0);
            lemma_holds_through(s, x, "---- "@ + "base-only"@);
        }
        if only_target.len() > 0 {
            lemma_name_list("target-only"@, label, only_target, 0);
            lemma_holds_through(s, y, "---- "@ + "target-only"@);
        }
        assert forall|i: int| 0 <= i < only_base.len() implies holds(
            s,
            "  "@ + #[trigger] only_base[i] + "\n"@,
        ) by {
            lemma_name_list("base-only"@, label, only_base, i);
            lemma_holds_through(s, x, "  "@ + only_base[i] + "\n"@);
        }
        assert forall|i: int| 0 <= i < only_target.len() implies holds(
            s,
            "  "@ + #[trigger] only_target[i] + "\n"@,
        ) by {
            lemma_name_list("target-only"@, label, only_target, i);
            lemma_holds_through(s, y, "  "@ + only_target[i] + "\n"@);
        }
    }
}

/// Every function that only one build has a body of is listed with its path and its name.
pub proof fn lemma_functions_are_listed(
    side: Seq<char>,
    v: Seq<(Seq<char>, Seq<char>)>,
    n: int,
    i: int,
)
    requires
        0 <= i < n <= v.len(),
    ensures
        holds(
            function_rows(side, v, n),
            "  [presence] "@ + side + "  "@ + v[i].0 + "  "@ + v[i].1 + "\n"@,
        ),
    decreases n,
{
    let before = function_rows(side, v, n - 1);
    let last = "  [presence] "@ + side + "  "@ + v[n - 1].0 + "  "@ + v[n - 1].1 + "\n"@;
    if i == n - 1 {
        lemma_holds_piece(before, last, Seq::empty());
    } else {
        lemma_functions_are_listed(side, v, n - 1, i);
        lemma_holds_within(
            Seq::empty(),
            before,
            last,
            "  [presence] "@ + side + "  "@ + v[i].0 + "  "@ + v[i].1 + "\n"@,
        );
    }
}

/// The report has the part on the types where it is asked for, and the part on the files
/// where that is.
pub proof fn lemma_report_has_what_is_asked_for(b: SideShape, t: SideShape, cfg: Config)
    ensures
        cfg.do_headers ==> starts_with(
            report(b, t, cfg),
            header_report(b, t, cfg.list_presence),
        ),
        cfg.do_sources ==> holds(report(b, t, cfg), source_report(b, t, cfg)),
        cfg.do_headers && !cfg.do_sources ==> report(b, t, cfg) == header_report(
            b,
            t,
            cfg.list_presence,
        ),
        !cfg.do_headers && cfg.do_sources ==> report(b, t, cfg) == source_report(b, t, cfg),
        !cfg.do_headers && !cfg.do_sources ==> report(b, t, cfg).len() == 0,
{
    reveal_strlit("");
    let h = header_report(b, t, cfg.list_presence);
    let s = source_report(b, t, cfg);
    let x = if cfg.do_headers {
        h
    } else {
        ""@
    };
    let y = if cfg.do_sources {
        s
    } else {
        ""@
    };
    assert(report(b, t, cfg) == x + y);
    lemma_holds_piece(x, y, Seq::empty());
    if cfg.do_headers {
        assert((x + y).take(h.len() as int) =~= h);
        if !cfg.do_sources {
            assert(x + y =~= h);
        }
    } else if cfg.do_sources {
        assert(x + y =~= s);
    }
}

/// The functions under a key have a line where one of them has one and all that have one
/// agree; the line is theirs.
pub proof fn lemma_line_is_agreed_on(
    file: Seq<FnShape>,
    other: Seq<FnShape>,
    key: Seq<char>,
    n: int,
)
    requires
        0 <= n <= file.len(),
    ensures
        lines_seen(file, other, key, n) matches Seen::Always(l)
            ==> (forall|i: int|
            0 <= i < n && (#[trigger] file[i]).definition_line != 0 && cross_key(file[i], other)
                == key ==> file[i].definition_line == l) && l != 0,
        lines_seen(file, other, key, n) is Never <==> forall|i: int|
            0 <= i < n ==> (#[trigger] file[i]).definition_line == 0 || cross_key(file[i], other)
                != key,
        lines_seen(file, other, key, n) is Conflicting ==> exists|i: int, j: int|
            0 <= i < j < n && (#[trigger] file[i]).definition_line != (
            #[trigger] file[j]).definition_line && file[i].definition_line != 0
                && file[j].definition_line != 0 && cross_key(file[i], other) == key && cross_key(
                file[j],
                other,
            ) == key,
    decreases n,
{
    if n > 0 {
        lemma_line_is_agreed_on(file, other, key, n - 1);
        let f = file[n - 1];
        if f.definition_line != 0 && cross_key(f, other) == key {
            if lines_seen(file, other, key, n) is Conflicting && lines_seen(
                file,
                other,
                key,
                n - 1,
            ) is Always {
                let i = choose|i: int|
                    0 <= i < n - 1 && (#[trigger] file[i]).definition_line != 0 && cross_key(
                        file[i],
                        other,
                    ) == key;
                assert(file[i].definition_line != file[n - 1].definition_line);
            }
        }
        if lines_seen(file, other, key, n) is Conflicting && lines_seen(
            file,
            other,
            key,
            n - 1,
        ) is Conflicting {
            let (i, j) = choose|i: int, j: int|
                0 <= i < j < n - 1 && (#[trigger] file[i]).definition_line != (
                #[trigger] file[j]).definition_line && file[i].definition_line != 0
                    && file[j].definition_line != 0 && cross_key(file[i], other) == key
                    && cross_key(file[j], other) == key;
            assert(file[i].definition_line != file[j].definition_line);
        }
    }
}

/// Two functions that are exchanged stand in the one order by line in the base and in the
/// other in the target, and in other orders in their modules too; two with one line in either
/// build are not exchanged.
pub proof fn lemma_exchanged_functions_change_order(
    base: Seq<FnShape>,
    target: Seq<FnShape>,
    left: Seq<char>,
    right: Seq<char>,
)
    ensures
        is_inverted(base, target, left, right) == is_inverted(target, base, left, right),
        is_inverted(base, target, left, right) ==> {
            let bl = line_of(base, target, left)->0;
            let br = line_of(base, target, right)->0;
            let tl = line_of(target, base, left)->0;
            let tr = line_of(target, base, right)->0;
            (bl < br && tl > tr) || (bl > br && tl < tr)
        },
{
}

/// Every project of a build has its block.
pub proof fn lemma_every_project_is_reported(
    s: Seq<(Seq<char>, ProjectModel)>,
    keys: Seq<Seq<char>>,
    full: bool,
    n: int,
    i: int,
)
    requires
        0 <= i < n <= keys.len(),
    ensures
        entry(s, keys[i]) matches Some(p) ==> holds(
            project_blocks(s, keys, full, n),
            project_block(keys[i], p, full),
        ),
    decreases n,
{
    let before = project_blocks(s, keys, full, n - 1);
    let last = match entry(s, keys[n - 1]) {
        Some(p) => project_block(keys[n - 1], p, full),
        None => ""@,
    };
    if i == n - 1 {
        lemma_holds_piece(before, last, Seq::empty());
    } else {
        lemma_every_project_is_reported(s, keys, full, n - 1, i);
        if let Some(p) = entry(s, keys[i]) {
            lemma_holds_within(Seq::empty(), before, last, project_block(keys[i], p, full));
        }
    }
}

/// The comparison of two builds counts the projects of each, those of both and those of one,
/// and holds what is told of all of them.
pub proof fn lemma_comparison_holds_all(
    target_path: Seq<char>,
    base_path: Seq<char>,
    t: Seq<(Seq<char>, ProjectModel)>,
    b: Seq<(Seq<char>, ProjectModel)>,
    full: bool,
)
    ensures
        ({
            let keys = union_names(t, b);
            let c = sections(t, b, keys, full, keys.len() as int);
            let s = comparison_text(target_path, base_path, t, b, full);
            &&& holds(s, target_path + "\nBASE   = "@)
            &&& holds(s, "\nBASE   = "@ + base_path)
            &&& holds(s, "\n\nprojects: target="@ + dec(t.len()))
            &&& holds(s, "  base="@ + dec(b.len()))
            &&& holds(s, "  in-both="@ + dec(c.n_both))
            &&& holds(s, "  target-only="@ + dec(c.n_target))
            &&& holds(s, "  base-only="@ + dec(c.n_base))
            &&& holds(s, c.both)
            &&& holds(s, c.target)
            &&& holds(s, c.base)
        }),
{
    let keys = union_names(t, b);
    let c = sections(t, b, keys, full, keys.len() as int);
    let s = comparison_text(target_path, base_path, t, b, full);
    let p = seq![
        "# report-2 — project/config comparison\n\nTARGET = "@,
        target_path,
        "\nBASE   = "@,
        base_path,
        "\n\nprojects: target="@,
        dec(t.len()),
        "  base="@,
        dec(b.len()),
        "  in-both="@,
        dec(c.n_both),
    ];
    let q = seq![
        "  target-only="@,
        dec(c.n_target),
        "  base-only="@,
        dec(c.n_base),
        "\n\n════════════════════════ IN BOTH ════════════════════════\n\n"@,
        c.both,
        "════════════════════ TARGET ONLY ════════════════════════\n(in the original game PDB, missing from the base build)\n\n"@,
        c.target,
        "\n═════════════════════ BASE ONLY ═════════════════════════\n(in the base build, not present in the original game PDB)\n\n"@,
        c.base,
    ];
    reveal_with_fuel(cat_upto, 11);
    let x = cat_upto(p, 10);
    let y = cat_upto(q, 10);
    assert(s == x + y);
    lemma_holds_piece(x, y, Seq::empty());
    lemma_holds_piece(Seq::empty(), x, y);
    assert(Seq::<char>::empty() + x + y =~= x + y);
    lemma_holds_pair(p, 10, 1);
    lemma_holds_through(s, x, p[1] + p[2]);
    lemma_holds_pair(p, 10, 2);
    lemma_holds_through(s, x, p[2] + p[3]);
    lemma_holds_pair(p, 10, 4);
    lemma_holds_through(s, x, p[4] + p[5]);
    lemma_holds_pair(p, 10, 6);
    lemma_holds_through(s, x, p[6] + p[7]);
    lemma_holds_pair(p, 10, 8);
    lemma_holds_through(s, x, p[8] + p[9]);
    lemma_holds_pair(q, 10, 0);
    lemma_holds_through(s, y, q[0] + q[1]);
    lemma_holds_pair(q, 10, 2);
    lemma_holds_through(s, y, q[2] + q[3]);
    lemma_holds_pair(q, 10, 4);
    lemma_holds_both(y, q[4], q[5]);
    lemma_holds_through(s, y, c.both);
    lemma_holds_pair(q, 10, 6);
    lemma_holds_both(y, q[6], q[7]);
    lemma_holds_through(s, y, c.target);
    lemma_holds_pair(q, 10, 8);
    lemma_holds_both(y, q[8], q[9]);
    lemma_holds_through(s, y, c.base);
}

} // verus!
