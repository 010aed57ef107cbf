//! What holds of the projects and flags of a build.

use crate::build_flags::{base_name, coarse_labels, has_flag, is_output, joined_path, kept_tokens,
    normalized, project_of, runtime, tokens, tokens_upto, without_endings, CoarseFlags, Tokens};
use crate::build_info::{empty_project, flags_of, has_flags, key_of, lemma_projects_differ,
    project_config, project_runtime, projects_of, with_compiland, with_flags, Compiland,
    ProjectModel};
use crate::build_report::status;
use crate::divergence_model::{entry, lemma_place, lemma_with_entry};
use crate::order::{inserted, lemma_sorted_once, sorted_once, text_le};
use crate::search::{contains, ends_with, starts_with};
use crate::text::{lowercase, white_space};
use vstd::prelude::*;

verus! {

// ---------------------------------------------------------------------------
// Command lines
// ---------------------------------------------------------------------------

/// Whether a text is one word: no spaces and no quotes.
pub open spec fn is_word(s: Seq<char>) -> bool {
    s.len() > 0 && forall|i: int| 0 <= i < s.len() ==> !white_space(#[trigger] s[i]) && s[i] != '"'
}

proof fn lemma_tokens_prefix(a: Seq<char>, b: Seq<char>, n: int)
    requires
        0 <= n <= a.len(),
    ensures
        tokens_upto(a + b, n) == tokens_upto(a, n),
    decreases n,
{
    if n > 0 {
        lemma_tokens_prefix(a, b, n - 1);
        assert((a + b)[n - 1] == a[n - 1]);
    }
}

proof fn lemma_word_is_read(a: Seq<char>, w: Seq<char>, n: int)
    requires
        is_word(w),
        0 <= n <= w.len(),
        !tokens_upto(a, a.len() as int).quoted,
    ensures
        ({
            let t = tokens_upto(a, a.len() as int);
            tokens_upto(a + w, a.len() + n) == (Tokens {
                done: t.done,
                current: t.current + w.take(n),
                quoted: false,
            })
        }),
    decreases n,
{
    let t = tokens_upto(a, a.len() as int);
    lemma_tokens_prefix(a, w, a.len() as int);
    if n > 0 {
        lemma_word_is_read(a, w, n - 1);
        assert((a + w)[a.len() + n - 1] == w[n - 1]);
        assert(w.take(n) =~= w.take(n - 1).push(w[n - 1]));
        assert(t.current + w.take(n) =~= (t.current + w.take(n - 1)).push(w[n - 1]));
    } else {
        assert(t.current + w.take(0) =~= t.current);
    }
}

/// A word behind a space is a token more, whatever stands before the space, as long as no
/// quote is open there.
pub proof fn lemma_word_is_a_token(s: Seq<char>, w: Seq<char>)
    requires
        is_word(w),
        !tokens_upto(s, s.len() as int).quoted,
    ensures
        tokens(s + seq![' '] + w) == tokens(s).push(w),
{
    let a = s + seq![' '];
    let t = tokens_upto(s, s.len() as int);
    lemma_tokens_prefix(s, seq![' '], s.len() as int);
    assert(a[s.len() as int] == ' ');
    assert(white_space(' '));
    let u = tokens_upto(a, a.len() as int);
    assert(u.done == tokens(s));
    assert(u.current =~= Seq::<char>::empty());
    lemma_word_is_read(a, w, w.len() as int);
    assert(w.take(w.len() as int) =~= w);
    assert(u.current + w =~= w);
    assert((a + w).len() == a.len() + w.len());
}

/// Nothing is read of nothing.
pub proof fn lemma_no_tokens_of_nothing()
    ensures
        tokens(Seq::empty()) == Seq::<Seq<char>>::empty(),
{
    assert(tokens_upto(Seq::empty(), 0).current.len() == 0);
}

/// Whether a flag, in small letters, says where something is written.
pub open spec fn says_where(l: Seq<char>) -> bool {
    l.len() >= 3 && (l[0] == '-' || l[0] == '/') && l[1] == 'f' && (l[2] == 'o' || l[2] == 'd'
        || l[2] == 'p' || l[2] == 'r')
}

proof fn lemma_output(l: Seq<char>)
    ensures
        is_output(l) == says_where(l),
{
    reveal_strlit("-fo");
    reveal_strlit("/fo");
    reveal_strlit("-fd");
    reveal_strlit("/fd");
    reveal_strlit("-fp");
    reveal_strlit("/fp");
    reveal_strlit("-fr");
    reveal_strlit("/fr");
    if l.len() >= 3 {
        let h = l.take(3);
        assert(h.len() == 3 && h[0] == l[0] && h[1] == l[1] && h[2] == l[2]);
        if says_where(l) {
            if l[0] == '-' {
                if l[2] == 'o' {
                    assert(h =~= "-fo"@);
                } else if l[2] == 'd' {
                    assert(h =~= "-fd"@);
                } else if l[2] == 'p' {
                    assert(h =~= "-fp"@);
                } else {
                    assert(h =~= "-fr"@);
                }
            } else {
                if l[2] == 'o' {
                    assert(h =~= "/fo"@);
                } else if l[2] == 'd' {
                    assert(h =~= "/fd"@);
                } else if l[2] == 'p' {
                    assert(h =~= "/fp"@);
                } else {
                    assert(h =~= "/fr"@);
                }
            }
        }
    }
}

proof fn lemma_kept(t: Seq<Seq<char>>, n: int)
    requires
        0 <= n <= t.len(),
    ensures
        forall|k: int|
            0 <= k < n && !says_where(lowercase(#[trigger] t[k])) ==> kept_tokens(t, n).contains(
                t[k],
            ),
        forall|x: Seq<char>| #[trigger]
            kept_tokens(t, n).contains(x) ==> !says_where(lowercase(x)) && t.contains(x),
    decreases n,
{
    if n > 0 {
        lemma_kept(t, n - 1);
        lemma_output(lowercase(t[n - 1]));
        let before = kept_tokens(t, n - 1);
        let all = kept_tokens(t, n);
        assert forall|k: int| 0 <= k < n && !says_where(lowercase(#[trigger] t[k])) implies
            all.contains(t[k]) by {
            if k < n - 1 {
                assert(before.contains(t[k]));
                let j = before.index_of(t[k]);
                assert(all[j] == t[k]);
            } else {
                assert(all[before.len() as int] == t[k]);
            }
        }
        assert forall|x: Seq<char>| #[trigger] all.contains(x) implies !says_where(lowercase(x))
            && t.contains(x) by {
            let j = all.index_of(x);
            if j < before.len() {
                assert(before[j] == x);
                assert(before.contains(x));
            } else {
                assert(t[n - 1] == x);
            }
        }
    }
}

/// The comparable form of a command line keeps every flag but those that say where something
/// is written, which differ from file to file.
pub proof fn lemma_flags_are_kept(cmd: Seq<char>)
    ensures
        forall|k: int|
            0 <= k < tokens(cmd).len() ==> (kept_tokens(
                tokens(cmd),
                tokens(cmd).len() as int,
            ).contains(#[trigger] tokens(cmd)[k]) <==> !says_where(lowercase(tokens(cmd)[k]))),
{
    lemma_kept(tokens(cmd), tokens(cmd).len() as int);
}

/// The runtime library is that of the flag that is given, in any letter case, the one for
/// debugging before the other and a shared one before one that is linked in; without such a
/// flag it is only supposed.
pub proof fn lemma_runtime_is_asked_for(norm: Seq<char>)
    ensures
        runtime(norm) == "/MDd"@ <==> has_flag(norm, "-MDd"@) || has_flag(norm, "/MDd"@),
        has_flag(norm, "-MD"@) || has_flag(norm, "/MD"@) ==> runtime(norm) == "/MDd"@ || runtime(
            norm,
        ) == "/MD"@,
        runtime(norm) == "/MD"@ ==> has_flag(norm, "-MD"@) || has_flag(norm, "/MD"@),
        runtime(norm) == "/MTd"@ ==> has_flag(norm, "-MTd"@) || has_flag(norm, "/MTd"@),
        runtime(norm) == "/MT"@ ==> has_flag(norm, "-MT"@) || has_flag(norm, "/MT"@),
        runtime(norm) == "/MT?"@ <==> !(has_flag(norm, "-MDd"@) || has_flag(norm, "/MDd"@)
            || has_flag(norm, "-MD"@) || has_flag(norm, "/MD"@) || has_flag(norm, "-MTd"@)
            || has_flag(norm, "/MTd"@) || has_flag(norm, "-MT"@) || has_flag(norm, "/MT"@)),
        runtime(norm) == "/MT"@ ==> !has_flag(norm, "-MTd"@) && !has_flag(norm, "/MTd"@),
{
    reveal_strlit("/MDd");
    reveal_strlit("/MD");
    reveal_strlit("/MTd");
    reveal_strlit("/MT");
    reveal_strlit("/MT?");
    assert("/MDd"@.len() == 4 && "/MD"@.len() == 3 && "/MTd"@.len() == 4 && "/MT"@.len() == 3
        && "/MT?"@.len() == 4);
    assert("/MDd"@[2] == 'D' && "/MTd"@[2] == 'T' && "/MD"@[2] == 'D' && "/MT"@[2] == 'T');
    assert("/MT?"@[2] == 'T' && "/MT?"@[3] == '?' && "/MTd"@[3] == 'd' && "/MDd"@[3] == 'd');
}

/// The coarse flags that are told are those that are set, each by its own word; that there is
/// none is told too.
pub proof fn lemma_coarse_flags_are_told(f: CoarseFlags)
    ensures
        coarse_labels(f).contains("LTCG"@) <==> f.link_time_codegen,
        coarse_labels(f).contains("/GS"@) <==> f.security_checks,
        coarse_labels(f).contains("no-debug"@) <==> f.no_debug_info,
        coarse_labels(f).contains("(none)"@) <==> !f.link_time_codegen && !f.security_checks
            && !f.no_debug_info,
{
    reveal_strlit("LTCG");
    reveal_strlit("/GS");
    reveal_strlit("no-debug");
    reveal_strlit("(none)");
    assert("LTCG"@.len() == 4 && "/GS"@.len() == 3 && "no-debug"@.len() == 8 && "(none)"@.len()
        == 6);
    let l = coarse_labels(f);
    if f.link_time_codegen {
        assert(l[0] == "LTCG"@);
    }
    if f.security_checks {
        let k = if f.link_time_codegen {
            1int
        } else {
            0
        };
        assert(l[k] == "/GS"@);
    }
    if f.no_debug_info {
        assert(l[l.len() - 1] == "no-debug"@);
    }
    if !f.link_time_codegen && !f.security_checks && !f.no_debug_info {
        assert(l[0] == "(none)"@);
    }
    assert forall|x: Seq<char>| l.contains(x) implies (x == "LTCG"@ && f.link_time_codegen) || (x
        == "/GS"@ && f.security_checks) || (x == "no-debug"@ && f.no_debug_info) || (x == "(none)"@
        && !f.link_time_codegen && !f.security_checks && !f.no_debug_info) by {
        let k = l.index_of(x);
        assert(l[k] == x);
        assert(k == 0 || k == 1 || k == 2);
    }
}

// ---------------------------------------------------------------------------
// Projects
// ---------------------------------------------------------------------------

proof fn lemma_base_name(dir: Seq<char>, name: Seq<char>, n: int)
    requires
        forall|i: int| 0 <= i < name.len() ==> #[trigger] name[i] != '\\' && name[i] != '/',
        dir.len() == 0 || dir.last() == '\\' || dir.last() == '/',
        dir.len() <= n <= dir.len() + name.len(),
    ensures
        base_name(dir + name, n) == name,
    decreases n,
{
    let p = dir + name;
    if n == dir.len() {
        if n > 0 {
            assert(p[n - 1] == dir.last());
            assert(p.skip(n) =~= name);
        } else {
            assert(p =~= name);
        }
    } else {
        assert(p[n - 1] == name[n - 1 - dir.len()]);
        lemma_base_name(dir, name, n - 1);
    }
}

/// The files of a library are a project, under the name of the library without its directory
/// and extension.
pub proof fn lemma_library_is_a_project(
    dir: Seq<char>,
    name: Seq<char>,
    module: Seq<char>,
    object: Seq<char>,
)
    requires
        forall|i: int| 0 <= i < name.len() ==> #[trigger] name[i] != '\\' && name[i] != '/',
        dir.len() == 0 || dir.last() == '\\' || dir.last() == '/',
        !ends_with(name, ".lib"@),
    ensures
        project_of(dir + (name + ".lib"@), module, object) == name,
{
    reveal_strlit(".lib");
    let full = name + ".lib"@;
    let p = dir + full;
    assert(p.skip(p.len() - 4) =~= ".lib"@);
    assert forall|i: int| 0 <= i < full.len() implies #[trigger] full[i] != '\\' && full[i]
        != '/' by {
        if i < name.len() {
            assert(full[i] == name[i]);
        }
    }
    lemma_base_name(dir, full, p.len() as int);
    assert(full.skip(full.len() - 4) =~= ".lib"@);
    assert(full.take(full.len() - 4) =~= name);
    assert(without_endings(full, ".lib"@) == without_endings(name, ".lib"@));
}

/// A file that is whole stays; one that is not is put behind the working directory.
pub proof fn lemma_source_paths_are_joined(cwd: Seq<char>, src: Seq<char>)
    requires
        !ends_with(cwd, "\\"@),
    ensures
        starts_with(src, "\\"@) ==> joined_path(cwd, src) == src,
        contains(src, ":\\"@) && !starts_with(src, ".\\"@) && !starts_with(src, "./"@)
            ==> joined_path(cwd, src) == src,
        joined_path(cwd + "\\"@, src) == joined_path(cwd, src),
        !contains(src, ":\\"@) && !starts_with(src, "\\"@) && !starts_with(src, ".\\"@)
            && !starts_with(src, "./"@) ==> joined_path(cwd, src) == cwd + "\\"@ + src,
{
    reveal_strlit("\\");
    reveal_strlit(".\\");
    reveal_strlit("./");
    let c = cwd + "\\"@;
    assert(c.skip(c.len() - 1) =~= "\\"@);
    assert(c.take(c.len() - 1) =~= cwd);
    assert(without_endings(c, "\\"@) == without_endings(cwd, "\\"@));
    if starts_with(src, "\\"@) {
        assert(src.take(1)[0] == src[0]);
        if starts_with(src, ".\\"@) {
            assert(src.take(2)[0] == src[0]);
        }
        if starts_with(src, "./"@) {
            assert(src.take(2)[0] == src[0]);
        }
    }
}

/// Those of the first `n` compilands that belong to a project.
pub open spec fn members(v: Seq<Compiland>, key: Seq<char>, n: int) -> Seq<Compiland>
    decreases n,
{
    if n <= 0 {
        Seq::empty()
    } else if key_of(v[n - 1]) == key {
        members(v, key, n - 1).push(v[n - 1])
    } else {
        members(v, key, n - 1)
    }
}

/// How many compilands have no command line.
pub open spec fn without_commands(v: Seq<Compiland>) -> nat
    decreases v.len(),
{
    if v.len() == 0 {
        0
    } else {
        without_commands(v.drop_last()) + if v.last().cmd is None {
            1nat
        } else {
            0
        }
    }
}

/// What a compiland is called: its source file, or its object file where none is known.
pub open spec fn source_named(c: Compiland) -> Seq<char> {
    match c.source {
        Some(s) => s@,
        None => c.obj_name@,
    }
}

proof fn lemma_flag_sets(v: Seq<(Seq<char>, Seq<char>)>, flags: Seq<char>, cmd: Seq<char>)
    ensures
        has_flags(with_flags(v, flags, cmd), flags),
        forall|f: Seq<char>| #[trigger] has_flags(v, f) ==> has_flags(with_flags(v, flags, cmd), f),
{
    broadcast use vstd::seq_lib::group_to_multiset_ensures;

    if !has_flags(v, flags) {
        let le = |a: (Seq<char>, Seq<char>), b: (Seq<char>, Seq<char>)|
            text_le(a.0, b.0);
        let w = inserted(v, (flags, cmd), le);
        lemma_inserted_holds(v, (flags, cmd), le);
        assert forall|f: Seq<char>| #[trigger] has_flags(v, f) implies has_flags(w, f) by {
            let i = choose|i: int| 0 <= i < v.len() && (#[trigger] v[i]).0 == f;
            assert(v.contains(v[i]));
            assert(w.contains(v[i]));
            let j = w.index_of(v[i]);
            assert(w[j].0 == f);
        }
        let j = w.index_of((flags, cmd));
        assert(w[j].0 == flags);
    }
}

proof fn lemma_inserted_holds<K>(s: Seq<K>, x: K, le: spec_fn(K, K) -> bool)
    ensures
        inserted(s, x, le).contains(x),
        forall|y: K| #[trigger] s.contains(y) ==> inserted(s, x, le).contains(y),
    decreases s.len(),
{
    let all = inserted(s, x, le);
    if s.len() == 0 || le(s.last(), x) {
        assert(all[s.len() as int] == x);
        assert forall|y: K| #[trigger] s.contains(y) implies all.contains(y) by {
            let k = s.index_of(y);
            assert(all[k] == y);
        }
    } else {
        let init = s.drop_last();
        lemma_inserted_holds(init, x, le);
        let inner = inserted(init, x, le);
        assert(all == inner.push(s.last()));
        let k = inner.index_of(x);
        assert(all[k] == x);
        assert forall|y: K| #[trigger] s.contains(y) implies all.contains(y) by {
            let j = s.index_of(y);
            if j < s.len() - 1 {
                assert(init[j] == y);
                assert(init.contains(y));
                let i = inner.index_of(y);
                assert(all[i] == y);
            } else {
                assert(all[inner.len() as int] == y);
            }
        }
    }
}

proof fn lemma_project_upto(v: Seq<Compiland>, key: Seq<char>, n: int)
    requires
        0 <= n <= v.len(),
        key.len() > 0,
        v.len() <= usize::MAX,
    ensures
        ({
            let m = members(v, key, n);
            match entry(projects_of(v, n), key) {
                Some(p) => {
                    &&& m.len() > 0
                    &&& m.len() <= n
                    &&& p.sources.len() == m.len()
                    &&& forall|k: int|
                        0 <= k < m.len() ==> #[trigger] p.sources[k] == source_named(m[k])
                    &&& p.no_cmd == without_commands(m)
                    &&& forall|k: int|
                        0 <= k < m.len() ==> ((#[trigger] m[k]).cmd matches Some(cmd) ==> has_flags(
                            p.flag_sets,
                            normalized(cmd@),
                        ))
                },
                None => m.len() == 0,
            }
        }),
        without_commands(members(v, key, n)) <= members(v, key, n).len() <= n,
    decreases n,
{
    lemma_projects_differ(v, n);
    if n > 0 {
        lemma_projects_differ(v, n - 1);
        lemma_project_upto(v, key, n - 1);
        let before = projects_of(v, n - 1);
        let c = v[n - 1];
        let mb = members(v, key, n - 1);
        let m = members(v, key, n);
        if key_of(c).len() > 0 {
            let old_p = match entry(before, key_of(c)) {
                Some(p) => p,
                None => empty_project(),
            };
            lemma_with_entry(before, key_of(c), with_compiland(old_p, c));
            if key_of(c) == key {
                let p = with_compiland(old_p, c);
                assert(entry(projects_of(v, n), key) == Some(p));
                assert(m == mb.push(c));
                assert(m.drop_last() =~= mb);
                assert(old_p.sources.len() == mb.len());
                assert(old_p.no_cmd == without_commands(mb)) by {
                    if entry(before, key) is None {
                        assert(mb.len() == 0);
                    }
                }
                if let Some(cmd) = c.cmd {
                    lemma_flag_sets(old_p.flag_sets, normalized(cmd@), cmd@);
                }
                assert forall|k: int| 0 <= k < m.len() implies #[trigger] p.sources[k]
                    == source_named(m[k]) by {
                    if k < mb.len() {
                        assert(p.sources[k] == old_p.sources[k]);
                        assert(m[k] == mb[k]);
                    }
                }
                assert forall|k: int| 0 <= k < m.len() implies ((#[trigger] m[k]).cmd matches Some(
                    cmd,
                ) ==> has_flags(p.flag_sets, normalized(cmd@))) by {
                    if k < mb.len() {
                        assert(m[k] == mb[k]);
                    }
                }
            } else {
                assert(entry(projects_of(v, n), key) == entry(before, key));
            }
        }
    } else {
        lemma_place(projects_of(v, n), key, 0);
    }
}

/// A project has the files of the compilands that belong to it, all of them, in order; it
/// counts those without a command line, and has the flags of the others.
pub proof fn lemma_projects_have_their_files(v: Seq<Compiland>, key: Seq<char>)
    requires
        key.len() > 0,
        v.len() <= usize::MAX,
    ensures
        ({
            let m = members(v, key, v.len() as int);
            match entry(projects_of(v, v.len() as int), key) {
                Some(p) => {
                    &&& m.len() > 0
                    &&& p.sources == m.map_values(|c: Compiland| source_named(c))
                    &&& p.no_cmd == without_commands(m)
                    &&& forall|k: int|
                        0 <= k < m.len() ==> ((#[trigger] m[k]).cmd matches Some(cmd) ==> has_flags(
                            p.flag_sets,
                            normalized(cmd@),
                        ))
                },
                None => m.len() == 0,
            }
        }),
{
    lemma_project_upto(v, key, v.len() as int);
    if let Some(p) = entry(projects_of(v, v.len() as int), key) {
        let m = members(v, key, v.len() as int);
        assert(p.sources =~= m.map_values(|c: Compiland| source_named(c)));
    }
}

/// A project is told to have one runtime library exactly where the command lines of all its
/// files ask for it.
pub proof fn lemma_project_has_one_runtime(p: ProjectModel, r: Seq<char>)
    requires
        p.flag_sets.len() > 0,
        forall|i: int| 0 <= i < p.flag_sets.len() ==> runtime((#[trigger] p.flag_sets[i]).0) == r,
    ensures
        project_runtime(p) == r,
{
    let all = flags_of(p).map_values(|f: Seq<char>| runtime(f));
    let once = sorted_once(all);
    lemma_sorted_once(all);
    assert(all[0] == runtime(p.flag_sets[0].0));
    assert(all.contains(r)) by {
        assert(all[0] == r);
    }
    assert(once.contains(r));
    assert forall|i: int| 0 <= i < once.len() implies #[trigger] once[i] == r by {
        assert(once.contains(once[i]));
        assert(all.contains(once[i]));
        let k = all.index_of(once[i]);
        assert(all[k] == runtime(p.flag_sets[k].0));
    }
    if once.len() >= 2 {
        assert(once[0] == once[1]);
        assert(once.no_duplicates());
    }
}

/// Where the command lines of a project ask for two runtime libraries, none is told.
pub proof fn lemma_mixed_project_has_no_runtime(p: ProjectModel, i: int, j: int)
    requires
        0 <= i < p.flag_sets.len(),
        0 <= j < p.flag_sets.len(),
        runtime(p.flag_sets[i].0) != runtime(p.flag_sets[j].0),
    ensures
        project_runtime(p) == "?"@,
{
    let all = flags_of(p).map_values(|f: Seq<char>| runtime(f));
    let once = sorted_once(all);
    lemma_sorted_once(all);
    assert(all[i] == runtime(p.flag_sets[i].0));
    assert(all[j] == runtime(p.flag_sets[j].0));
    assert(all.contains(all[i]) && all.contains(all[j]));
    assert(once.contains(all[i]) && once.contains(all[j]));
    let a = once.index_of(all[i]);
    let b = once.index_of(all[j]);
    assert(once[a] != once[b]);
}

/// How a project compares does not depend on which build is called which. It matches where
/// the builds say the same of it; where both have command lines and ask for other runtime
/// libraries, that is told first.
pub proof fn lemma_status_is_mutual(t: ProjectModel, b: ProjectModel)
    ensures
        status(t, b) == status(b, t),
        status(t, b) == "MATCH"@ <==> project_config(t) == project_config(b),
        project_config(t) != project_config(b) && t.flag_sets.len() > 0 && b.flag_sets.len() > 0
            ==> (status(t, b) == "DIFF-CRT"@ <==> project_runtime(t) != project_runtime(b)) && (
        status(t, b) == "DIFF-FLAGS"@ <==> project_runtime(t) == project_runtime(b)),
        project_config(t) != project_config(b) && (t.flag_sets.len() == 0 || b.flag_sets.len() == 0)
            ==> status(t, b) == "PARTIAL (cmdline one side)"@,
{
    reveal_strlit("MATCH");
    reveal_strlit("DIFF-CRT");
    reveal_strlit("DIFF-FLAGS");
    reveal_strlit("PARTIAL (cmdline one side)");
    assert("MATCH"@.len() == 5 && "DIFF-CRT"@.len() == 8 && "DIFF-FLAGS"@.len() == 10
        && "PARTIAL (cmdline one side)"@.len() == 26);
}

} // verus!
