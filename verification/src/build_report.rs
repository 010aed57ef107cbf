//! The projects of one build, or of two, in words.

use crate::build_info::{project_config, project_runtime, sources_in_order, Compiland, FlagSet,
    Project, ProjectModel};
use crate::divergence_model::{entry, find_name};
use crate::divergence_summary::{names, union_keys, union_names};
use crate::lcs::views;
use crate::number::{dec, decimal};
use crate::order::{insert_once, sorted_once};
use crate::pieces::{cat10, cat11, cat2, cat3, cat4, cat5, cat7, cat8};
use crate::search::{contains, has_part};
use crate::text::{lowercase, owned, same, texts, to_lowercase};
use crate::type_builder::opt;
use vstd::prelude::*;
use vstd::string::StringExecFns;

verus! {

/// The first `n` command lines of a project, each behind a label and its number.
pub open spec fn cmd_lines(label: Seq<char>, v: Seq<(Seq<char>, Seq<char>)>, middle: Seq<char>, n: int) -> Seq<
    char,
>
    decreases n,
{
    if n <= 0 {
        ""@
    } else {
        cmd_lines(label, v, middle, n - 1) + (label + dec((n - 1) as nat) + middle + v[n - 1].1
            + "\n"@)
    }
}

fn cmd_lines_of(label: &str, v: &Vec<FlagSet>, middle: &str) -> (r: String)
    ensures
        r@ == cmd_lines(label@, views(v@), middle@, v@.len() as int),
{
    let ghost m = views(v@);
    let mut out: String = owned("");
    let mut i: usize = 0;
    while i < v.len()
        invariant
            m == views(v@),
            i <= v@.len(),
            out@ == cmd_lines(label@, m, middle@, i as int),
        decreases v.len() - i,
    {
        assert(m[i as int] == v@[i as int]@);
        let line: String = cat5(
            label,
            decimal(i as u64).as_str(),
            middle,
            v[i].cmd.as_str(),
            "\n",
        );
        out.append(line.as_str());
        i = i + 1;
    }
    out
}

// ---------------------------------------------------------------------------
// One build
// ---------------------------------------------------------------------------

/// The first `n` source files, one on a line.
pub open spec fn source_lines(v: Seq<Seq<char>>, n: int) -> Seq<char>
    decreases n,
{
    if n <= 0 {
        ""@
    } else {
        source_lines(v, n - 1) + ("    "@ + v[n - 1] + "\n"@)
    }
}

/// A project of one build.
pub open spec fn project_block(name: Seq<char>, p: ProjectModel, full: bool) -> Seq<char> {
    let sources = sorted_once(p.sources);
    "════════════════════════════════════════════════════════════\nproject : "@ + name
        + "\noutput  : "@ + p.lib + "\nsources : "@ + dec(sources.len()) + "\n"@ + (if full
        && p.flag_sets.len() > 0 {
        cmd_lines("cmd["@, p.flag_sets, "] : "@, p.flag_sets.len() as int)
    } else {
        "config  : "@ + project_config(p) + "\n"@
    }) + source_lines(sources, sources.len() as int) + "\n"@
}

/// The first `n` projects of one build.
pub open spec fn project_blocks(
    s: Seq<(Seq<char>, ProjectModel)>,
    keys: Seq<Seq<char>>,
    full: bool,
    n: int,
) -> Seq<char>
    decreases n,
{
    if n <= 0 {
        ""@
    } else {
        project_blocks(s, keys, full, n - 1) + (match entry(s, keys[n - 1]) {
            Some(p) => project_block(keys[n - 1], p, full),
            None => ""@,
        })
    }
}

/// The projects of one build, by name.
pub open spec fn report_text(s: Seq<(Seq<char>, ProjectModel)>, full: bool) -> Seq<char> {
    let keys = sorted_once(names(s));
    "# Recovered "@ + dec(s.len()) + " projects from PDB\n\n"@ + project_blocks(
        s,
        keys,
        full,
        keys.len() as int,
    )
}

fn project_block_of(name: &str, p: &Project, full: bool) -> (r: String)
    ensures
        r@ == project_block(name@, p@, full),
{
    let sources: Vec<String> = sources_in_order(&p.sources);
    let ghost m = texts(sources@);
    let mut lines: String = owned("");
    let mut i: usize = 0;
    while i < sources.len()
        invariant
            m == texts(sources@),
            i <= sources@.len(),
            lines@ == source_lines(m, i as int),
        decreases sources.len() - i,
    {
        lines.append(cat3("    ", sources[i].as_str(), "\n").as_str());
        i = i + 1;
    }
    let middle: String = if full && p.flag_sets.len() > 0 {
        cmd_lines_of("cmd[", &p.flag_sets, "] : ")
    } else {
        cat3("config  : ", p.config().as_str(), "\n")
    };
    cat10(
        "════════════════════════════════════════════════════════════\nproject : ",
        name,
        "\noutput  : ",
        p.lib.as_str(),
        "\nsources : ",
        decimal(sources.len() as u64).as_str(),
        "\n",
        middle.as_str(),
        lines.as_str(),
        "\n",
    )
}

fn sorted_names(v: &Vec<(String, Project)>) -> (r: Vec<String>)
    ensures
        texts(r@) == sorted_once(names(views(v@))),
{
    let ghost m = names(views(v@));
    let mut r: Vec<String> = Vec::new();
    assert(texts(r@) =~= sorted_once(m.take(0)));
    let mut i: usize = 0;
    while i < v.len()
        invariant
            m == names(views(v@)),
            i <= v@.len(),
            texts(r@) == sorted_once(m.take(i as int)),
        decreases v.len() - i,
    {
        assert(m[i as int] == v@[i as int].0@);
        assert(m.take(i + 1).drop_last() =~= m.take(i as int));
        assert(m.take(i + 1).last() == m[i as int]);
        insert_once(&mut r, owned(v[i].0.as_str()));
        i = i + 1;
    }
    assert(m.take(i as int) =~= m);
    r
}

/// The projects of one build, by name.
pub fn write_report(projects: &Vec<(String, Project)>, full: bool) -> (r: String)
    ensures
        r@ == report_text(views(projects@), full),
{
    let ghost s = views(projects@);
    let keys: Vec<String> = sorted_names(projects);
    let ghost all = texts(keys@);
    let mut blocks: String = owned("");
    let mut i: usize = 0;
    while i < keys.len()
        invariant
            s == views(projects@),
            all == texts(keys@),
            i <= keys@.len(),
            blocks@ == project_blocks(s, all, full, i as int),
        decreases keys.len() - i,
    {
        assert(all[i as int] == keys@[i as int]@);
        let one: String = match find_name(projects, keys[i].as_str()) {
            Some(k) => {
                assert(s[k as int] == (projects@[k as int].0@, projects@[k as int].1@));
                project_block_of(keys[i].as_str(), &projects[k].1, full)
            },
            None => owned(""),
        };
        blocks.append(one.as_str());
        i = i + 1;
    }
    cat4(
        "# Recovered ",
        decimal(projects.len() as u64).as_str(),
        " projects from PDB\n\n",
        blocks.as_str(),
    )
}

// ---------------------------------------------------------------------------
// Two builds
// ---------------------------------------------------------------------------

/// How a project's flags compare. The linker can take the command line away, and a project
/// that has one on one side only cannot be compared.
pub open spec fn status(t: ProjectModel, b: ProjectModel) -> Seq<char> {
    let t_has = t.flag_sets.len() > 0;
    let b_has = b.flag_sets.len() > 0;
    if project_config(t) == project_config(b) {
        "MATCH"@
    } else if t_has && b_has && project_runtime(t) != project_runtime(b) {
        "DIFF-CRT"@
    } else if !t_has || !b_has {
        "PARTIAL (cmdline one side)"@
    } else {
        "DIFF-FLAGS"@
    }
}

/// A project that is in both builds.
pub open spec fn both_block(name: Seq<char>, t: ProjectModel, b: ProjectModel, full: bool) -> Seq<char> {
    "── "@ + name + "   ["@ + status(t, b) + "]   (target "@ + dec(sorted_once(t.sources).len())
        + " src / base "@ + dec(sorted_once(b.sources).len()) + " src)\n     target: "@
        + project_config(t) + "\n     base  : "@ + project_config(b) + "\n"@ + (if full {
        cmd_lines(
            "       target cmd["@,
            t.flag_sets,
            "]: "@,
            t.flag_sets.len() as int,
        ) + cmd_lines("       base   cmd["@, b.flag_sets, "]: "@, b.flag_sets.len() as int)
    } else {
        ""@
    }) + "\n"@
}

/// A project that is in one build only.
pub open spec fn single_line(name: Seq<char>, p: ProjectModel) -> Seq<char> {
    "── "@ + name + "   ("@ + dec(sorted_once(p.sources).len()) + " src)   "@ + project_config(p)
        + "\n"@
}

/// What is told of the projects.
pub struct Sections {
    pub both: Seq<char>,
    pub target: Seq<char>,
    pub base: Seq<char>,
    pub n_both: nat,
    pub n_target: nat,
    pub n_base: nat,
}

/// What is told, with one more project.
pub open spec fn with_project(
    s: Sections,
    t: Option<ProjectModel>,
    b: Option<ProjectModel>,
    name: Seq<char>,
    full: bool,
) -> Sections {
    match (t, b) {
        (Some(x), Some(y)) => Sections {
            both: s.both + both_block(name, x, y, full),
            n_both: s.n_both + 1,
            ..s
        },
        (Some(x), None) => Sections {
            target: s.target + single_line(name, x),
            n_target: s.n_target + 1,
            ..s
        },
        (None, Some(y)) => Sections {
            base: s.base + single_line(name, y),
            n_base: s.n_base + 1,
            ..s
        },
        (None, None) => s,
    }
}

/// What is told of the first `n` projects.
pub open spec fn sections(
    t: Seq<(Seq<char>, ProjectModel)>,
    b: Seq<(Seq<char>, ProjectModel)>,
    keys: Seq<Seq<char>>,
    full: bool,
    n: int,
) -> Sections
    decreases n,
{
    if n <= 0 {
        Sections { both: ""@, target: ""@, base: ""@, n_both: 0, n_target: 0, n_base: 0 }
    } else {
        let k = keys[n - 1];
        with_project(sections(t, b, keys, full, n - 1), entry(t, k), entry(b, k), k, full)
    }
}

/// The projects of two builds compared.
pub open spec fn comparison_text(
    target_path: Seq<char>,
    base_path: Seq<char>,
    t: Seq<(Seq<char>, ProjectModel)>,
    b: Seq<(Seq<char>, ProjectModel)>,
    full: bool,
) -> Seq<char> {
    let keys = union_names(t, b);
    let s = sections(t, b, keys, full, keys.len() as int);
    ("# report-2 — project/config comparison\n\nTARGET = "@ + target_path + "\nBASE   = "@
        + base_path + "\n\nprojects: target="@ + dec(t.len()) + "  base="@ + dec(b.len())
        + "  in-both="@ + dec(s.n_both)) + ("  target-only="@ + dec(s.n_target) + "  base-only="@
        + dec(s.n_base)
        + "\n\n════════════════════════ IN BOTH ════════════════════════\n\n"@ + s.both
        + "════════════════════ TARGET ONLY ════════════════════════\n(in the original game PDB, missing from the base build)\n\n"@
        + s.target
        + "\n═════════════════════ BASE ONLY ═════════════════════════\n(in the base build, not present in the original game PDB)\n\n"@
        + s.base)
}

fn status_of(t: &Project, b: &Project) -> (r: &'static str)
    ensures
        r@ == status(t@, b@),
{
    let t_has: bool = t.flag_sets.len() > 0;
    let b_has: bool = b.flag_sets.len() > 0;
    if same(t.config().as_str(), b.config().as_str()) {
        "MATCH"
    } else if t_has && b_has && !same(t.crt().as_str(), b.crt().as_str()) {
        "DIFF-CRT"
    } else if !t_has || !b_has {
        "PARTIAL (cmdline one side)"
    } else {
        "DIFF-FLAGS"
    }
}

fn both_block_of(name: &str, t: &Project, b: &Project, full: bool) -> (r: String)
    ensures
        r@ == both_block(name@, t@, b@, full),
{
    let cmds: String = if full {
        cat2(
            cmd_lines_of("       target cmd[", &t.flag_sets, "]: ").as_str(),
            cmd_lines_of("       base   cmd[", &b.flag_sets, "]: ").as_str(),
        )
    } else {
        owned("")
    };
    let head: String = cat8(
        "── ",
        name,
        "   [",
        status_of(t, b),
        "]   (target ",
        decimal(t.source_count() as u64).as_str(),
        " src / base ",
        decimal(b.source_count() as u64).as_str(),
    );
    cat8(
        head.as_str(),
        " src)\n     target: ",
        t.config().as_str(),
        "\n     base  : ",
        b.config().as_str(),
        "\n",
        cmds.as_str(),
        "\n",
    )
}

fn single_line_of(name: &str, p: &Project) -> (r: String)
    ensures
        r@ == single_line(name@, p@),
{
    cat7(
        "── ",
        name,
        "   (",
        decimal(p.source_count() as u64).as_str(),
        " src)   ",
        p.config().as_str(),
        "\n",
    )
}

/// The projects of two builds compared, given where the builds are.
pub fn write_comparison(
    target_path: &str,
    base_path: &str,
    target: &Vec<(String, Project)>,
    base: &Vec<(String, Project)>,
    full: bool,
) -> (r: String)
    ensures
        r@ == comparison_text(target_path@, base_path@, views(target@), views(base@), full),
{
    let ghost t = views(target@);
    let ghost b = views(base@);
    let keys: Vec<String> = union_keys(target, base);
    let ghost all = texts(keys@);
    let n: usize = keys.len();
    let mut both: String = owned("");
    let mut only_t: String = owned("");
    let mut only_b: String = owned("");
    let mut n_both: usize = 0;
    let mut n_target: usize = 0;
    let mut n_base: usize = 0;
    let mut i: usize = 0;
    while i < n
        invariant
            t == views(target@),
            b == views(base@),
            all == texts(keys@),
            n == keys@.len(),
            i <= n,
            n_both <= i,
            n_target <= i,
            n_base <= i,
            sections(t, b, all, full, i as int) == (Sections {
                both: both@,
                target: only_t@,
                base: only_b@,
                n_both: n_both as nat,
                n_target: n_target as nat,
                n_base: n_base as nat,
            }),
        decreases n - i,
    {
        let key: &str = keys[i].as_str();
        assert(all[i as int] == key@);
        match (find_name(target, key), find_name(base, key)) {
            (Some(x), Some(y)) => {
                assert(t[x as int] == (target@[x as int].0@, target@[x as int].1@));
                assert(b[y as int] == (base@[y as int].0@, base@[y as int].1@));
                both.append(both_block_of(key, &target[x].1, &base[y].1, full).as_str());
                n_both = n_both + 1;
            },
            (Some(x), None) => {
                assert(t[x as int] == (target@[x as int].0@, target@[x as int].1@));
                only_t.append(single_line_of(key, &target[x].1).as_str());
                n_target = n_target + 1;
            },
            (None, Some(y)) => {
                assert(b[y as int] == (base@[y as int].0@, base@[y as int].1@));
                only_b.append(single_line_of(key, &base[y].1).as_str());
                n_base = n_base + 1;
            },
            (None, None) => {},
        }
        i = i + 1;
    }
    let head: String = cat10(
        "# report-2 — project/config comparison\n\nTARGET = ",
        target_path,
        "\nBASE   = ",
        base_path,
        "\n\nprojects: target=",
        decimal(target.len() as u64).as_str(),
        "  base=",
        decimal(base.len() as u64).as_str(),
        "  in-both=",
        decimal(n_both as u64).as_str(),
    );
    let rest: String = cat10(
        "  target-only=",
        decimal(n_target as u64).as_str(),
        "  base-only=",
        decimal(n_base as u64).as_str(),
        "\n\n════════════════════════ IN BOTH ════════════════════════\n\n",
        both.as_str(),
        "════════════════════ TARGET ONLY ════════════════════════\n(in the original game PDB, missing from the base build)\n\n",
        only_t.as_str(),
        "\n═════════════════════ BASE ONLY ═════════════════════════\n(in the base build, not present in the original game PDB)\n\n",
        only_b.as_str(),
    );
    cat2(head.as_str(), rest.as_str())
}

/// A build's projects match those of the build itself.
pub proof fn lemma_projects_match_themselves(p: ProjectModel)
    ensures
        status(p, p) == "MATCH"@,
{
}

// ---------------------------------------------------------------------------
// Compilands
// ---------------------------------------------------------------------------

/// Whether a compiland's names, in small letters, hold a text in small letters.
pub open spec fn names_hold(module: Seq<char>, object_file: Seq<char>, g: Seq<char>) -> bool {
    contains(module, g) || contains(object_file, g)
}

/// Whether a compiland is shown: its names hold a text, in any letter case, or, where none
/// is given, fewer are shown than asked for.
pub open spec fn is_shown(
    c: Compiland,
    explore: Option<usize>,
    grep: Option<Seq<char>>,
    shown: nat,
) -> bool {
    match grep {
        Some(g) => names_hold(
            lowercase(c.module_name@),
            lowercase(c.object_file_name@),
            lowercase(g),
        ),
        None => match explore {
            Some(n) => shown < n,
            None => false,
        },
    }
}

/// A text, or a note that there is none.
pub open spec fn or_absent(s: Option<Seq<char>>) -> Seq<char> {
    match s {
        Some(s) => s,
        None => "<none>"@,
    }
}

/// A compiland in words, its flags given in words.
pub open spec fn compiland_block(c: Compiland, flags: Option<Seq<char>>) -> Seq<char> {
    "════════════════════════════════════════════════════════════\nmodule      : "@ + c.module_name@
        + "\nobject_file : "@ + c.object_file_name@ + "\nobj         : "@ + c.obj_name@
        + "\nsource      : "@ + or_absent(opt(c.source)) + "\ncompiler    : "@ + c.version@ + "\n"@
        + (match flags {
        Some(f) => "compile3    : "@ + f + "\n"@,
        None => ""@,
    }) + ("cmd         : "@ + or_absent(opt(c.cmd)) + "\n"@)
}

/// The flags of a compiland in words.
pub open spec fn flags_at(v: Seq<Option<String>>, i: int) -> Option<Seq<char>> {
    opt(v[i])
}

/// How many of the first `n` compilands are shown, and what is shown of them.
pub open spec fn dumped(
    v: Seq<Compiland>,
    flags: Seq<Option<String>>,
    explore: Option<usize>,
    grep: Option<Seq<char>>,
    n: int,
) -> (nat, Seq<char>)
    decreases n,
{
    if n <= 0 {
        (0, ""@)
    } else {
        let (shown, text) = dumped(v, flags, explore, grep, n - 1);
        if is_shown(v[n - 1], explore, grep, shown) {
            (shown + 1, text + compiland_block(v[n - 1], flags_at(flags, n - 1)))
        } else {
            (shown, text)
        }
    }
}

fn or_absent_of(s: &Option<String>) -> (r: &str)
    ensures
        r@ == or_absent(opt(*s)),
{
    match s {
        Some(s) => s.as_str(),
        None => "<none>",
    }
}

/// Whether a compiland's names, in small letters, hold a text in small letters.
pub fn do_names_hold(module: &str, object_file: &str, g: &str) -> (r: bool)
    ensures
        r == names_hold(module@, object_file@, g@),
{
    has_part(module, g) || has_part(object_file, g)
}

/// The compilands that are asked for, in words, their flags given in words.
pub fn dump(
    compilands: &Vec<Compiland>,
    flags: &Vec<Option<String>>,
    explore: Option<usize>,
    grep: Option<&str>,
) -> (r: String)
    requires
        flags@.len() == compilands@.len(),
    ensures
        r@ == dumped(
            compilands@,
            flags@,
            explore,
            match grep {
                Some(g) => Some(g@),
                None => None,
            },
            compilands@.len() as int,
        ).1,
{
    let ghost g = match grep {
        Some(g) => Some(g@),
        None => None,
    };
    let needle: Option<String> = match grep {
        Some(g) => Some(to_lowercase(g)),
        None => None,
    };
    let mut text: String = owned("");
    let mut shown: usize = 0;
    let n: usize = compilands.len();
    let mut i: usize = 0;
    while i < n
        invariant
            n == compilands@.len(),
            flags@.len() == n,
            match needle {
                Some(s) => g is Some && s@ == lowercase(g->0),
                None => g is None,
            },
            i <= n,
            shown <= i,
            dumped(compilands@, flags@, explore, g, i as int) == (shown as nat, text@),
        decreases n - i,
    {
        let c: &Compiland = &compilands[i];
        let hit: bool = match &needle {
            Some(s) => do_names_hold(
                to_lowercase(c.module_name.as_str()).as_str(),
                to_lowercase(c.object_file_name.as_str()).as_str(),
                s.as_str(),
            ),
            None => match explore {
                Some(m) => shown < m,
                None => false,
            },
        };
        if hit {
            shown = shown + 1;
            let middle: String = match &flags[i] {
                Some(f) => cat3("compile3    : ", f.as_str(), "\n"),
                None => owned(""),
            };
            let head: String = cat11(
                "════════════════════════════════════════════════════════════\nmodule      : ",
                c.module_name.as_str(),
                "\nobject_file : ",
                c.object_file_name.as_str(),
                "\nobj         : ",
                c.obj_name.as_str(),
                "\nsource      : ",
                or_absent_of(&c.source),
                "\ncompiler    : ",
                c.version.as_str(),
                "\n",
            );
            let tail: String = cat3("cmd         : ", or_absent_of(&c.cmd), "\n");
            let one: String = cat3(head.as_str(), middle.as_str(), tail.as_str());
            text.append(one.as_str());
        }
        i = i + 1;
    }
    text
}

} // verus!
