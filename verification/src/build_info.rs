//! The projects of a build, recovered from its compilands.

use crate::build_flags::{coarse_labels, coarse_summary, crt_of, flag_summary, join_win, joined_path,
    normalize_cmd, normalized, project_named, project_of, runtime, summary, CoarseFlags};
use crate::divergence::{count_on, tally};
use crate::divergence_model::{entry, find_name, lemma_place, lemma_with_entry, names_differ,
    put_entry, with_entry};
use crate::lcs::views;
use crate::number::{dec, decimal};
use crate::order::{insert_once, insert_ranked, inserted, inserted_once, is_le, rank_of, sorted_once,
    text_le, Ranked};
use crate::pieces::{cat2, cat3, cat4, lemma_texts_push};
use crate::search::{ends, ends_with, join, joined};
use crate::text::{lowercase, owned, same, texts, to_lowercase};
use crate::type_builder::opt;
use vstd::prelude::*;

verus! {

// ---------------------------------------------------------------------------
// Compilands
// ---------------------------------------------------------------------------

/// What is known of a compiland.
pub struct Compiland {
    pub module_name: String,
    pub object_file_name: String,
    pub obj_name: String,
    pub source: Option<String>,
    pub cmd: Option<String>,
    pub flags: Option<CoarseFlags>,
    pub version: String,
}

/// A record of a compiland that is of use here.
pub enum CompilandRecord {
    ObjName(String),
    Compile { version: String, flags: CoarseFlags },
    Environment(Vec<String>),
}

/// What the records of a compiland tell.
pub struct Gathered {
    pub obj_name: Seq<char>,
    pub version: Seq<char>,
    pub flags: Option<CoarseFlags>,
    pub cwd: Seq<char>,
    pub src: Seq<char>,
    pub cmd: Option<Seq<char>>,
}

/// Nothing told.
pub open spec fn nothing_gathered() -> Gathered {
    Gathered { obj_name: ""@, version: ""@, flags: None, cwd: ""@, src: ""@, cmd: None }
}

/// What was told, with the first `n` pairs of an environment.
pub open spec fn with_pairs(g: Gathered, v: Seq<Seq<char>>, n: int) -> Gathered
    decreases n,
{
    if n <= 0 {
        g
    } else {
        let h = with_pairs(g, v, n - 1);
        let key = v[2 * n - 2];
        let value = v[2 * n - 1];
        if key == "cwd"@ {
            Gathered { cwd: value, ..h }
        } else if key == "src"@ {
            Gathered { src: value, ..h }
        } else if key == "cmd"@ {
            Gathered { cmd: Some(value), ..h }
        } else {
            h
        }
    }
}

/// What was told, with one more record.
pub open spec fn with_record(g: Gathered, r: CompilandRecord) -> Gathered {
    match r {
        CompilandRecord::ObjName(s) => Gathered { obj_name: s@, ..g },
        CompilandRecord::Compile { version, flags } => Gathered {
            version: version@,
            flags: Some(flags),
            ..g
        },
        CompilandRecord::Environment(v) => with_pairs(g, texts(v@), v@.len() as int / 2),
    }
}

/// What the first `n` records tell.
pub open spec fn gathered(v: Seq<CompilandRecord>, n: int) -> Gathered
    decreases n,
{
    if n <= 0 {
        nothing_gathered()
    } else {
        with_record(gathered(v, n - 1), v[n - 1])
    }
}

struct Gathering {
    obj_name: String,
    version: String,
    flags: Option<CoarseFlags>,
    cwd: String,
    src: String,
    cmd: Option<String>,
}

impl View for Gathering {
    type V = Gathered;

    closed spec fn view(&self) -> Gathered {
        Gathered {
            obj_name: self.obj_name@,
            version: self.version@,
            flags: self.flags,
            cwd: self.cwd@,
            src: self.src@,
            cmd: opt(self.cmd),
        }
    }
}

fn gather_pairs(g: &mut Gathering, v: &Vec<String>)
    ensures
        final(g)@ == with_pairs(old(g)@, texts(v@), v@.len() as int / 2),
{
    let ghost start = g@;
    let ghost m = texts(v@);
    let total: usize = v.len();
    let n: usize = total / 2;
    let mut i: usize = 0;
    while i < n
        invariant
            start == old(g)@,
            m == texts(v@),
            total == v@.len(),
            n == total / 2,
            i <= n,
            g@ == with_pairs(start, m, i as int),
        decreases n - i,
    {
        let key: &str = v[2 * i].as_str();
        let value: &str = v[2 * i + 1].as_str();
        assert(m[2 * i as int] == key@);
        assert(m[2 * i as int + 1] == value@);
        if same(key, "cwd") {
            g.cwd = owned(value);
        } else if same(key, "src") {
            g.src = owned(value);
        } else if same(key, "cmd") {
            g.cmd = Some(owned(value));
        }
        i = i + 1;
    }
}

/// The source file of a compiland: the one that its environment names, or else the one
/// that its lines name.
pub open spec fn source_of(g: Gathered, from_lines: Option<Seq<char>>) -> Option<Seq<char>> {
    if g.src.len() > 0 {
        Some(joined_path(g.cwd, g.src))
    } else {
        from_lines
    }
}

/// Whether a compiland is what its records tell.
pub open spec fn is_compiland(
    c: Compiland,
    module_name: Seq<char>,
    object_file_name: Seq<char>,
    g: Gathered,
    from_lines: Option<Seq<char>>,
) -> bool {
    &&& c.module_name@ == module_name
    &&& c.object_file_name@ == object_file_name
    &&& c.obj_name@ == g.obj_name
    &&& c.version@ == g.version
    &&& c.flags == g.flags
    &&& opt(c.cmd) == g.cmd
    &&& opt(c.source) == source_of(g, from_lines)
}

/// A compiland, out of its records and of the source file that its lines name.
pub fn read_compiland(
    module_name: &str,
    object_file_name: &str,
    records: &Vec<CompilandRecord>,
    from_lines: Option<String>,
) -> (r: Compiland)
    ensures
        is_compiland(
            r,
            module_name@,
            object_file_name@,
            gathered(records@, records@.len() as int),
            opt(from_lines),
        ),
{
    let mut g: Gathering = Gathering {
        obj_name: owned(""),
        version: owned(""),
        flags: None,
        cwd: owned(""),
        src: owned(""),
        cmd: None,
    };
    let mut i: usize = 0;
    while i < records.len()
        invariant
            i <= records@.len(),
            g@ == gathered(records@, i as int),
        decreases records.len() - i,
    {
        match &records[i] {
            CompilandRecord::ObjName(s) => {
                g.obj_name = owned(s.as_str());
            },
            CompilandRecord::Compile { version, flags } => {
                g.version = owned(version.as_str());
                g.flags = Some(*flags);
            },
            CompilandRecord::Environment(v) => {
                gather_pairs(&mut g, v);
            },
        }
        i = i + 1;
    }
    let source: Option<String> = if !g.src.as_str().is_empty() {
        Some(join_win(g.cwd.as_str(), g.src.as_str()))
    } else {
        from_lines
    };
    Compiland {
        module_name: owned(module_name),
        object_file_name: owned(object_file_name),
        obj_name: g.obj_name,
        source,
        cmd: g.cmd,
        flags: g.flags,
        version: g.version,
    }
}

/// Whether a name, in small letters, is that of a source file that is compiled.
pub open spec fn is_compiled(l: Seq<char>) -> bool {
    ends_with(l, ".cpp"@) || ends_with(l, ".cxx"@) || ends_with(l, ".c"@)
}

/// Whether a name, in small letters, is that of a source file that is compiled.
pub fn is_compiled_name(l: &str) -> (r: bool)
    ensures
        r == is_compiled(l@),
{
    ends(l, ".cpp") || ends(l, ".cxx") || ends(l, ".c")
}

/// The first name, from `i` on, of a source file that is compiled.
pub open spec fn first_compiled(v: Seq<Seq<char>>, i: int) -> Option<Seq<char>>
    decreases v.len() - i,
{
    if i < 0 || i >= v.len() {
        None
    } else if is_compiled(lowercase(v[i])) {
        Some(v[i])
    } else {
        first_compiled(v, i + 1)
    }
}

/// The first of the files of a compiland's procedures that is compiled.
pub fn first_source_file(files: &Vec<String>) -> (r: Option<String>)
    ensures
        opt(r) == first_compiled(texts(files@), 0),
{
    let ghost m = texts(files@);
    let mut i: usize = 0;
    while i < files.len()
        invariant
            m == texts(files@),
            i <= files@.len(),
            first_compiled(m, 0) == first_compiled(m, i as int),
        decreases files.len() - i,
    {
        assert(m[i as int] == files@[i as int]@);
        let l: String = to_lowercase(files[i].as_str());
        if is_compiled_name(l.as_str()) {
            return Some(owned(files[i].as_str()));
        }
        i = i + 1;
    }
    None
}

// ---------------------------------------------------------------------------
// Projects
// ---------------------------------------------------------------------------

/// Flags in a comparable form, and a command line that they come from.
pub struct FlagSet {
    pub flags: String,
    pub cmd: String,
}

impl View for FlagSet {
    type V = (Seq<char>, Seq<char>);

    open spec fn view(&self) -> (Seq<char>, Seq<char>) {
        (self.flags@, self.cmd@)
    }
}

impl Ranked for FlagSet {
    open spec fn before(a: (Seq<char>, Seq<char>), b: (Seq<char>, Seq<char>)) -> bool {
        text_le(a.0, b.0)
    }

    fn is_before(&self, other: &Self) -> (r: bool) {
        is_le(self.flags.as_str(), other.flags.as_str())
    }
}

/// A project.
pub struct Project {
    pub lib: String,
    pub sources: Vec<String>,
    /// By the flags.
    pub flag_sets: Vec<FlagSet>,
    pub no_cmd: usize,
    /// In order, each once.
    pub coarse: Vec<String>,
}

/// A project, as a model.
pub struct ProjectModel {
    pub lib: Seq<char>,
    pub sources: Seq<Seq<char>>,
    pub flag_sets: Seq<(Seq<char>, Seq<char>)>,
    pub no_cmd: usize,
    pub coarse: Seq<Seq<char>>,
}

impl View for Project {
    type V = ProjectModel;

    open spec fn view(&self) -> ProjectModel {
        ProjectModel {
            lib: self.lib@,
            sources: texts(self.sources@),
            flag_sets: views(self.flag_sets@),
            no_cmd: self.no_cmd,
            coarse: texts(self.coarse@),
        }
    }
}

/// A project without files.
pub open spec fn empty_project() -> ProjectModel {
    ProjectModel {
        lib: ""@,
        sources: Seq::empty(),
        flag_sets: Seq::empty(),
        no_cmd: 0,
        coarse: Seq::empty(),
    }
}

/// Whether some flags are among those of a project.
pub open spec fn has_flags(v: Seq<(Seq<char>, Seq<char>)>, flags: Seq<char>) -> bool {
    exists|i: int| 0 <= i < v.len() && (#[trigger] v[i]).0 == flags
}

/// The flags of a project with those of a command line.
pub open spec fn with_flags(
    v: Seq<(Seq<char>, Seq<char>)>,
    flags: Seq<char>,
    cmd: Seq<char>,
) -> Seq<(Seq<char>, Seq<char>)> {
    if has_flags(v, flags) {
        v
    } else {
        inserted(
            v,
            (flags, cmd),
            |a: (Seq<char>, Seq<char>), b: (Seq<char>, Seq<char>)| text_le(a.0, b.0),
        )
    }
}

/// A project with a compiland.
pub open spec fn with_compiland(p: ProjectModel, c: Compiland) -> ProjectModel {
    let source = match c.source {
        Some(s) => s@,
        None => c.obj_name@,
    };
    let q = match c.cmd {
        Some(cmd) => ProjectModel {
            flag_sets: with_flags(p.flag_sets, normalized(cmd@), cmd@),
            ..p
        },
        None => ProjectModel {
            no_cmd: tally(p.no_cmd, 1),
            coarse: match c.flags {
                Some(f) => inserted_once(p.coarse, joined(coarse_labels(f), ","@)),
                None => p.coarse,
            },
            ..p
        },
    };
    ProjectModel {
        sources: p.sources.push(source),
        lib: if p.lib.len() == 0 || ends_with(lowercase(c.object_file_name@), ".lib"@) {
            c.object_file_name@
        } else {
            p.lib
        },
        ..q
    }
}

/// The project of a compiland.
pub open spec fn key_of(c: Compiland) -> Seq<char> {
    project_of(
        lowercase(c.object_file_name@),
        lowercase(c.module_name@),
        lowercase(c.obj_name@),
    )
}

/// Projects with a compiland; one without a project adds nothing.
pub open spec fn with_one(s: Seq<(Seq<char>, ProjectModel)>, c: Compiland) -> Seq<
    (Seq<char>, ProjectModel),
> {
    let key = key_of(c);
    if key.len() == 0 {
        s
    } else {
        let p = match entry(s, key) {
            Some(p) => p,
            None => empty_project(),
        };
        with_entry(s, key, with_compiland(p, c))
    }
}

/// The projects of the first `n` compilands.
pub open spec fn projects_of(v: Seq<Compiland>, n: int) -> Seq<(Seq<char>, ProjectModel)>
    decreases n,
{
    if n <= 0 {
        Seq::empty()
    } else {
        with_one(projects_of(v, n - 1), v[n - 1])
    }
}

fn project_key(c: &Compiland) -> (r: String)
    ensures
        r@ == key_of(*c),
{
    project_named(
        to_lowercase(c.object_file_name.as_str()).as_str(),
        to_lowercase(c.module_name.as_str()).as_str(),
        to_lowercase(c.obj_name.as_str()).as_str(),
    )
}

fn knows_flags(v: &Vec<FlagSet>, flags: &str) -> (r: bool)
    ensures
        r == has_flags(views(v@), flags@),
{
    let ghost m = views(v@);
    let mut i: usize = 0;
    while i < v.len()
        invariant
            m == views(v@),
            i <= v@.len(),
            forall|k: int| 0 <= k < i ==> (#[trigger] m[k]).0 != flags@,
        decreases v.len() - i,
    {
        assert(m[i as int] == v@[i as int]@);
        if same(v[i].flags.as_str(), flags) {
            assert(m[i as int].0 == flags@);
            return true;
        }
        i = i + 1;
    }
    false
}

impl Project {
    /// A project without files.
    pub fn new() -> (r: Project)
        ensures
            r@ == empty_project(),
    {
        let r: Project = Project {
            lib: owned(""),
            sources: Vec::new(),
            flag_sets: Vec::new(),
            no_cmd: 0,
            coarse: Vec::new(),
        };
        assert(r@.sources =~= Seq::<Seq<char>>::empty());
        assert(r@.flag_sets =~= Seq::<(Seq<char>, Seq<char>)>::empty());
        assert(r@.coarse =~= Seq::<Seq<char>>::empty());
        r
    }

    /// Takes a compiland in.
    pub fn add(&mut self, c: &Compiland)
        ensures
            final(self)@ == with_compiland(old(self)@, *c),
    {
        let source: String = match &c.source {
            Some(s) => owned(s.as_str()),
            None => owned(c.obj_name.as_str()),
        };
        proof {
            lemma_texts_push(self.sources@, source);
        }
        self.sources.push(source);
        match &c.cmd {
            Some(cmd) => {
                let flags: String = normalize_cmd(cmd.as_str());
                if !knows_flags(&self.flag_sets, flags.as_str()) {
                    insert_ranked(
                        &mut self.flag_sets,
                        FlagSet { flags, cmd: owned(cmd.as_str()) },
                    );
                    assert(rank_of::<FlagSet>() =~= (|
                        a: (Seq<char>, Seq<char>),
                        b: (Seq<char>, Seq<char>),
                    | text_le(a.0, b.0)));
                }
            },
            None => {
                self.no_cmd = count_on(self.no_cmd, 1);
                if let Some(f) = c.flags {
                    insert_once(&mut self.coarse, coarse_summary(f));
                }
            },
        }
        let lowered: String = to_lowercase(c.object_file_name.as_str());
        if self.lib.as_str().is_empty() || ends(lowered.as_str(), ".lib") {
            self.lib = owned(c.object_file_name.as_str());
        }
    }
}

fn add_compiland(projects: &mut Vec<(String, Project)>, c: &Compiland)
    requires
        names_differ(views(old(projects)@)),
    ensures
        names_differ(views(final(projects)@)),
        views(final(projects)@) == with_one(views(old(projects)@), *c),
{
    let key: String = project_key(c);
    if key.as_str().is_empty() {
        return ;
    }
    let ghost before = views(projects@);
    let ghost k = key@;
    proof {
        lemma_place(before, k, 0);
    }
    match find_name(projects, key.as_str()) {
        Some(i) => {
            let ghost p = projects@[i as int].1@;
            assert(before[i as int] == (projects@[i as int].0@, p));
            proof {
                lemma_with_entry(before, k, with_compiland(p, *c));
            }
            projects[i].1.add(c);
            proof {
                let after = views(projects@);
                let goal = before.update(i as int, (k, with_compiland(p, *c)));
                assert forall|j: int| 0 <= j < after.len() implies after[j] == goal[j] by {
                    if j != i {
                        assert(after[j] == before[j]);
                    }
                }
                assert(after =~= goal);
            }
        },
        None => {
            let mut p: Project = Project::new();
            p.add(c);
            proof {
                lemma_with_entry(before, k, p@);
            }
            put_entry(projects, key, p);
        },
    }
}

/// The projects of a build by name.
pub fn build_projects(compilands: &Vec<Compiland>) -> (r: Vec<(String, Project)>)
    ensures
        names_differ(views(r@)),
        views(r@) == projects_of(compilands@, compilands@.len() as int),
{
    let mut r: Vec<(String, Project)> = Vec::new();
    assert(views(r@) =~= Seq::<(Seq<char>, ProjectModel)>::empty());
    let mut i: usize = 0;
    while i < compilands.len()
        invariant
            i <= compilands@.len(),
            names_differ(views(r@)),
            views(r@) == projects_of(compilands@, i as int),
        decreases compilands.len() - i,
    {
        add_compiland(&mut r, &compilands[i]);
        i = i + 1;
    }
    r
}

/// No project is without a file.
pub proof fn lemma_projects_have_files(v: Seq<Compiland>, n: int, key: Seq<char>)
    requires
        0 <= n <= v.len(),
        entry(projects_of(v, n), key) is Some,
    ensures
        entry(projects_of(v, n), key)->0.sources.len() > 0,
        key.len() > 0,
    decreases n,
{
    lemma_projects_differ(v, n);
    if n > 0 {
        let before = projects_of(v, n - 1);
        let c = v[n - 1];
        lemma_projects_differ(v, n - 1);
        if key_of(c).len() > 0 {
            let p = match entry(before, key_of(c)) {
                Some(p) => p,
                None => empty_project(),
            };
            lemma_with_entry(before, key_of(c), with_compiland(p, c));
            if key != key_of(c) {
                assert(entry(projects_of(v, n), key) == entry(before, key));
                lemma_projects_have_files(v, n - 1, key);
            }
        } else {
            lemma_projects_have_files(v, n - 1, key);
        }
    } else {
        lemma_place(projects_of(v, n), key, 0);
    }
}

/// No two projects have one name.
pub proof fn lemma_projects_differ(v: Seq<Compiland>, n: int)
    requires
        0 <= n <= v.len(),
    ensures
        names_differ(projects_of(v, n)),
    decreases n,
{
    if n > 0 {
        lemma_projects_differ(v, n - 1);
        let before = projects_of(v, n - 1);
        let c = v[n - 1];
        let p = match entry(before, key_of(c)) {
            Some(p) => p,
            None => empty_project(),
        };
        lemma_with_entry(before, key_of(c), with_compiland(p, c));
    }
}

// ---------------------------------------------------------------------------
// A project in words
// ---------------------------------------------------------------------------

/// The flags of a project.
pub open spec fn flags_of(p: ProjectModel) -> Seq<Seq<char>> {
    p.flag_sets.map_values(|x: (Seq<char>, Seq<char>)| x.0)
}

/// The runtime library that all files of a project are built for; a question mark where there
/// is none or more than one.
pub open spec fn project_runtime(p: ProjectModel) -> Seq<char> {
    let all = sorted_once(flags_of(p).map_values(|f: Seq<char>| runtime(f)));
    if all.len() == 1 {
        all[0]
    } else {
        "?"@
    }
}

/// The flags of a project on one line.
pub open spec fn project_config(p: ProjectModel) -> Seq<char> {
    if p.flag_sets.len() == 0 {
        "[no cmdline] "@ + (if p.coarse.len() == 0 {
            "—"@
        } else {
            joined(p.coarse, ","@)
        })
    } else {
        project_runtime(p) + "  "@ + joined(
            sorted_once(flags_of(p).map_values(|f: Seq<char>| flag_summary(f))),
            "  ||  "@,
        ) + (if p.no_cmd > 0 {
            "  (+"@ + dec(p.no_cmd as nat) + " files w/o cmdline)"@
        } else {
            ""@
        })
    }
}

/// Some texts in order, each once.
pub fn sources_in_order(v: &Vec<String>) -> (r: Vec<String>)
    ensures
        texts(r@) == sorted_once(texts(v@)),
{
    let ghost m = texts(v@);
    let mut r: Vec<String> = Vec::new();
    assert(texts(r@) =~= sorted_once(m.take(0)));
    let mut i: usize = 0;
    while i < v.len()
        invariant
            m == texts(v@),
            i <= v@.len(),
            texts(r@) == sorted_once(m.take(i as int)),
        decreases v.len() - i,
    {
        assert(m.take(i + 1).drop_last() =~= m.take(i as int));
        assert(m.take(i + 1).last() == v@[i as int]@);
        insert_once(&mut r, owned(v[i].as_str()));
        i = i + 1;
    }
    assert(m.take(i as int) =~= m);
    r
}

impl Project {
    /// How many source files the project has.
    pub fn source_count(&self) -> (r: usize)
        ensures
            r == sorted_once(self@.sources).len(),
    {
        let v: Vec<String> = sources_in_order(&self.sources);
        assert(texts(v@).len() == v@.len());
        v.len()
    }

    /// The runtime library of the project; a question mark where it has none or several.
    pub fn crt(&self) -> (r: String)
        ensures
            r@ == project_runtime(self@),
    {
        let ghost m = flags_of(self@).map_values(|f: Seq<char>| runtime(f));
        let mut v: Vec<String> = Vec::new();
        assert(texts(v@) =~= sorted_once(m.take(0)));
        let mut i: usize = 0;
        while i < self.flag_sets.len()
            invariant
                m == flags_of(self@).map_values(|f: Seq<char>| runtime(f)),
                m.len() == self.flag_sets@.len(),
                i <= self.flag_sets@.len(),
                texts(v@) == sorted_once(m.take(i as int)),
            decreases self.flag_sets.len() - i,
        {
            assert(flags_of(self@)[i as int] == self.flag_sets@[i as int].flags@);
            assert(m.take(i + 1).drop_last() =~= m.take(i as int));
            assert(m.take(i + 1).last() == m[i as int]);
            insert_once(&mut v, owned(crt_of(self.flag_sets[i].flags.as_str())));
            i = i + 1;
        }
        assert(m.take(i as int) =~= m);
        assert(texts(v@).len() == v@.len());
        if v.len() == 1 {
            assert(texts(v@)[0] == v@[0]@);
            owned(v[0].as_str())
        } else {
            owned("?")
        }
    }

    /// The flags of the project on one line.
    pub fn config(&self) -> (r: String)
        ensures
            r@ == project_config(self@),
    {
        if self.flag_sets.len() == 0 {
            let coarse: String = if self.coarse.len() == 0 {
                owned("—")
            } else {
                join(&self.coarse, ",")
            };
            return cat2("[no cmdline] ", coarse.as_str());
        }
        let ghost m = flags_of(self@).map_values(|f: Seq<char>| flag_summary(f));
        let mut v: Vec<String> = Vec::new();
        assert(texts(v@) =~= sorted_once(m.take(0)));
        let mut i: usize = 0;
        while i < self.flag_sets.len()
            invariant
                m == flags_of(self@).map_values(|f: Seq<char>| flag_summary(f)),
                m.len() == self.flag_sets@.len(),
                i <= self.flag_sets@.len(),
                texts(v@) == sorted_once(m.take(i as int)),
            decreases self.flag_sets.len() - i,
        {
            assert(flags_of(self@)[i as int] == self.flag_sets@[i as int].flags@);
            assert(m.take(i + 1).drop_last() =~= m.take(i as int));
            assert(m.take(i + 1).last() == m[i as int]);
            insert_once(&mut v, summary(self.flag_sets[i].flags.as_str()));
            i = i + 1;
        }
        assert(m.take(i as int) =~= m);
        let rest: String = if self.no_cmd > 0 {
            cat3("  (+", decimal(self.no_cmd as u64).as_str(), " files w/o cmdline)")
        } else {
            owned("")
        };
        cat4(self.crt().as_str(), "  ", join(&v, "  ||  ").as_str(), rest.as_str())
    }
}

} // verus!
