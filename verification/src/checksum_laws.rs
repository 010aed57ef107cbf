//! What holds of the comparison of source files.

use crate::checksums::{collected, diff_text, lowered_files, module_file, verdicts, Checksum};
use crate::divergence_model::{entry, lemma_place, names_differ, place};
use crate::divergence_summary::{names, union_names};
use crate::number::dec;
use crate::order::lemma_sorted_once;
use crate::parts::{holds, lemma_holds_piece, lemma_holds_within};
use crate::search::{ends_with, replaced, starts_with, without_prefix};
use crate::text::lowercase;
use vstd::prelude::*;

verus! {

// ---------------------------------------------------------------------------
// Verdicts
// ---------------------------------------------------------------------------

/// The line of a file behind a word.
pub open spec fn line_of(word: Seq<char>, key: Seq<char>) -> Seq<char> {
    word + replaced(key, "\\"@, "/"@) + "\n"@
}

/// What is said of a file that one or both builds have.
pub open spec fn word_for(b: Option<Checksum>, t: Option<Checksum>) -> Seq<char> {
    if b is Some && t is Some && b == t {
        "MATCH   "@
    } else if b is Some && t is Some {
        "DIFF    "@
    } else if b is Some {
        "BASE    "@
    } else {
        "TARGET  "@
    }
}

proof fn lemma_verdict_upto(
    base: Seq<(Seq<char>, Checksum)>,
    target: Seq<(Seq<char>, Checksum)>,
    keys: Seq<Seq<char>>,
    n: int,
)
    requires
        0 <= n <= keys.len(),
        forall|k: int|
            0 <= k < keys.len() ==> entry(base, #[trigger] keys[k]) is Some || entry(
                target,
                keys[k],
            ) is Some,
    ensures
        ({
            let v = verdicts(base, target, keys, n);
            &&& v.matched + v.differ + v.base_only + v.target_only == n
            &&& forall|k: int|
                0 <= k < n ==> holds(
                    v.text,
                    line_of(
                        word_for(entry(base, #[trigger] keys[k]), entry(target, keys[k])),
                        keys[k],
                    ),
                )
            &&& v.differ == 0 && v.base_only == 0 && v.target_only == 0 ==> forall|k: int|
                0 <= k < n ==> entry(base, #[trigger] keys[k]) == entry(target, keys[k])
        }),
    decreases n,
{
    if n > 0 {
        lemma_verdict_upto(base, target, keys, n - 1);
        let before = verdicts(base, target, keys, n - 1);
        let v = verdicts(base, target, keys, n);
        let key = keys[n - 1];
        let last = line_of(word_for(entry(base, key), entry(target, key)), key);
        assert(entry(base, key) is Some || entry(target, key) is Some);
        assert(v.text == before.text + last);
        assert forall|k: int| 0 <= k < n implies holds(
            v.text,
            line_of(word_for(entry(base, #[trigger] keys[k]), entry(target, keys[k])), keys[k]),
        ) by {
            if k < n - 1 {
                lemma_holds_within(
                    Seq::empty(),
                    before.text,
                    last,
                    line_of(word_for(entry(base, keys[k]), entry(target, keys[k])), keys[k]),
                );
            } else {
                lemma_holds_piece(before.text, last, Seq::empty());
            }
        }
    }
}

proof fn lemma_entry_at<V>(s: Seq<(Seq<char>, V)>, i: int)
    requires
        names_differ(s),
        0 <= i < s.len(),
    ensures
        entry(s, s[i].0) == Some(s[i].1),
{
    lemma_place(s, s[i].0, 0);
    let k = place(s, s[i].0)->0;
    if k != i {
        if k < i {
            assert(s[k].0 != s[i].0);
        } else {
            assert(s[i].0 != s[k].0);
        }
    }
}

proof fn lemma_keys_are_known(
    base: Seq<(Seq<char>, Checksum)>,
    target: Seq<(Seq<char>, Checksum)>,
)
    ensures
        forall|k: int|
            0 <= k < union_names(base, target).len() ==> entry(
                base,
                #[trigger] union_names(base, target)[k],
            ) is Some || entry(target, union_names(base, target)[k]) is Some,
        forall|i: int|
            0 <= i < base.len() ==> union_names(base, target).contains((#[trigger] base[i]).0),
        forall|j: int|
            0 <= j < target.len() ==> union_names(base, target).contains((#[trigger] target[j]).0),
{
    let all = names(base) + names(target);
    let keys = union_names(base, target);
    lemma_sorted_once(all);
    assert forall|k: int| 0 <= k < keys.len() implies entry(base, #[trigger] keys[k]) is Some
        || entry(target, keys[k]) is Some by {
        assert(keys.contains(keys[k]));
        assert(all.contains(keys[k]));
        let x = all.index_of(keys[k]);
        lemma_place(base, keys[k], 0);
        lemma_place(target, keys[k], 0);
        if x < base.len() {
            assert(base[x].0 == keys[k]);
        } else {
            assert(target[x - base.len()].0 == keys[k]);
        }
    }
    assert forall|i: int| 0 <= i < base.len() implies keys.contains((#[trigger] base[i]).0) by {
        assert(all[i] == base[i].0);
        assert(all.contains(base[i].0));
    }
    assert forall|j: int| 0 <= j < target.len() implies keys.contains((#[trigger] target[j]).0) by {
        assert(all[base.len() + j] == target[j].0);
        assert(all.contains(target[j].0));
    }
}

/// Every file of either build has a line in the comparison: that it matches where both builds
/// have it with one checksum, that it differs where both have it with two, and else which
/// build alone has it. The counts at the end add up to the number of files. No file may occur
/// twice in a build.
pub proof fn lemma_every_file_has_a_verdict(
    base: Seq<(Seq<char>, Checksum)>,
    target: Seq<(Seq<char>, Checksum)>,
)
    requires
        names_differ(base),
        names_differ(target),
    ensures
        forall|i: int, j: int|
            0 <= i < base.len() && 0 <= j < target.len() && (#[trigger] base[i]).0 == (
            #[trigger] target[j]).0 && base[i].1 == target[j].1 ==> holds(
                diff_text(base, target),
                "MATCH   "@ + replaced(base[i].0, "\\"@, "/"@) + "\n"@,
            ),
        forall|i: int, j: int|
            0 <= i < base.len() && 0 <= j < target.len() && (#[trigger] base[i]).0 == (
            #[trigger] target[j]).0 && base[i].1 != target[j].1 ==> holds(
                diff_text(base, target),
                "DIFF    "@ + replaced(base[i].0, "\\"@, "/"@) + "\n"@,
            ),
        forall|i: int|
            0 <= i < base.len() && (forall|j: int|
                0 <= j < target.len() ==> (#[trigger] target[j]).0 != base[i].0) ==> holds(
                diff_text(base, target),
                "BASE    "@ + replaced((#[trigger] base[i]).0, "\\"@, "/"@) + "\n"@,
            ),
        forall|j: int|
            0 <= j < target.len() && (forall|i: int|
                0 <= i < base.len() ==> (#[trigger] base[i]).0 != target[j].0) ==> holds(
                diff_text(base, target),
                "TARGET  "@ + replaced((#[trigger] target[j]).0, "\\"@, "/"@) + "\n"@,
            ),
        exists|m: nat, d: nat, b: nat, t: nat|
            m + d + b + t == union_names(base, target).len() && holds(
                diff_text(base, target),
                "\nmatched="@ + dec(m) + "  diff="@ + dec(d) + "  base-only="@ + dec(b)
                    + "  target-only="@ + #[trigger] tail_of_counts(m, d, b, t),
            ),
{
    let keys = union_names(base, target);
    let n = keys.len() as int;
    let v = verdicts(base, target, keys, n);
    let text = diff_text(base, target);
    lemma_keys_are_known(base, target);
    lemma_verdict_upto(base, target, keys, n);
    let counts = "\nmatched="@ + dec(v.matched) + "  diff="@ + dec(v.differ) + "  base-only="@
        + dec(v.base_only) + "  target-only="@ + tail_of_counts(
        v.matched,
        v.differ,
        v.base_only,
        v.target_only,
    );
    lemma_join_counts(
        v.text,
        "\nmatched="@,
        dec(v.matched),
        "  diff="@,
        dec(v.differ),
        "  base-only="@,
        dec(v.base_only),
        "  target-only="@,
        dec(v.target_only),
        "\n"@,
    );
    assert(text == v.text + counts);
    lemma_holds_piece(v.text, counts, Seq::empty());
    assert forall|i: int, j: int|
        0 <= i < base.len() && 0 <= j < target.len() && (#[trigger] base[i]).0 == (
        #[trigger] target[j]).0 implies holds(
        text,
        line_of(word_for(Some(base[i].1), Some(target[j].1)), base[i].0),
    ) by {
        lemma_entry_at(base, i);
        lemma_entry_at(target, j);
        let k = keys.index_of(base[i].0);
        assert(keys[k] == base[i].0);
        let line = line_of(word_for(entry(base, keys[k]), entry(target, keys[k])), keys[k]);
        assert(holds(v.text, line));
        lemma_holds_within(Seq::empty(), v.text, counts, line);
    }
    assert forall|i: int, j: int|
        0 <= i < base.len() && 0 <= j < target.len() && (#[trigger] base[i]).0 == (
        #[trigger] target[j]).0 && base[i].1 == target[j].1 implies holds(
        text,
        "MATCH   "@ + replaced(base[i].0, "\\"@, "/"@) + "\n"@,
    ) by {
        assert(holds(text, line_of(word_for(Some(base[i].1), Some(target[j].1)), base[i].0)));
    }
    assert forall|i: int, j: int|
        0 <= i < base.len() && 0 <= j < target.len() && (#[trigger] base[i]).0 == (
        #[trigger] target[j]).0 && base[i].1 != target[j].1 implies holds(
        text,
        "DIFF    "@ + replaced(base[i].0, "\\"@, "/"@) + "\n"@,
    ) by {
        assert(holds(text, line_of(word_for(Some(base[i].1), Some(target[j].1)), base[i].0)));
    }
    assert forall|i: int|
        0 <= i < base.len() && (forall|j: int|
            0 <= j < target.len() ==> (#[trigger] target[j]).0 != base[i].0) implies holds(
        text,
        "BASE    "@ + replaced((#[trigger] base[i]).0, "\\"@, "/"@) + "\n"@,
    ) by {
        lemma_entry_at(base, i);
        lemma_place(target, base[i].0, 0);
        let k = keys.index_of(base[i].0);
        assert(keys[k] == base[i].0);
        let line = line_of(word_for(entry(base, keys[k]), entry(target, keys[k])), keys[k]);
        assert(holds(v.text, line));
        lemma_holds_within(Seq::empty(), v.text, counts, line);
    }
    assert forall|j: int|
        0 <= j < target.len() && (forall|i: int|
            0 <= i < base.len() ==> (#[trigger] base[i]).0 != target[j].0) implies holds(
        text,
        "TARGET  "@ + replaced((#[trigger] target[j]).0, "\\"@, "/"@) + "\n"@,
    ) by {
        lemma_entry_at(target, j);
        lemma_place(base, target[j].0, 0);
        let k = keys.index_of(target[j].0);
        assert(keys[k] == target[j].0);
        let line = line_of(word_for(entry(base, keys[k]), entry(target, keys[k])), keys[k]);
        assert(holds(v.text, line));
        lemma_holds_within(Seq::empty(), v.text, counts, line);
    }
}

/// The end of the line of counts.
pub open spec fn tail_of_counts(m: nat, d: nat, b: nat, t: nat) -> Seq<char> {
    dec(t) + "\n"@
}

proof fn lemma_join_counts(
    a: Seq<char>,
    b: Seq<char>,
    c: Seq<char>,
    d: Seq<char>,
    e: Seq<char>,
    f: Seq<char>,
    g: Seq<char>,
    h: Seq<char>,
    i: Seq<char>,
    j: Seq<char>,
)
    ensures
        a + b + c + d + e + f + g + h + i + j == a + (b + c + d + e + f + g + h + (i + j)),
{
    assert(a + b + c + d + e + f + g + h + i + j =~= a + (b + c + d + e + f + g + h + (i + j)));
}

// ---------------------------------------------------------------------------
// Files of a build
// ---------------------------------------------------------------------------

/// Whether a path, in small letters, is that of a source file below a directory.
pub open spec fn is_source_below(path: Seq<char>, prefix: Seq<char>) -> bool {
    starts_with(path, prefix) && (ends_with(path, ".cpp"@) || ends_with(path, ".cxx"@) || ends_with(
        path,
        ".c++"@,
    ) || ends_with(path, ".c"@))
}

proof fn lemma_module_file(files: Seq<(Seq<char>, Checksum)>, prefix: Seq<char>, i: int)
    requires
        0 <= i,
    ensures
        match module_file(files, prefix, i) {
            Some((k, c)) => exists|j: int|
                i <= j < files.len() && is_source_below((#[trigger] files[j]).0, prefix)
                    && files[j].0 == prefix + k && files[j].1 == c && forall|l: int|
                    i <= l < j ==> !is_source_below((#[trigger] files[l]).0, prefix),
            None => forall|l: int|
                i <= l < files.len() ==> !is_source_below((#[trigger] files[l]).0, prefix),
        },
    decreases files.len() - i,
{
    if i < files.len() {
        lemma_module_file(files, prefix, i + 1);
        let p = files[i].0;
        if is_source_below(p, prefix) {
            let k = without_prefix(p, prefix)->0;
            assert(p =~= prefix + k);
            assert(files[i].0 == prefix + k);
        } else if let Some((k, c)) = module_file(files, prefix, i + 1) {
            let j = choose|j: int|
                i + 1 <= j < files.len() && is_source_below((#[trigger] files[j]).0, prefix)
                    && files[j].0 == prefix + k && files[j].1 == c && forall|l: int|
                    i + 1 <= l < j ==> !is_source_below((#[trigger] files[l]).0, prefix);
            assert(is_source_below(files[j].0, prefix));
        }
    }
}

proof fn lemma_collected_grows(
    modules: Seq<Seq<(Seq<char>, Checksum)>>,
    prefix: Seq<char>,
    m: int,
    n: int,
)
    requires
        0 <= m <= n <= modules.len(),
    ensures
        collected(modules, prefix, m).len() <= collected(modules, prefix, n).len(),
        forall|k: int|
            0 <= k < collected(modules, prefix, m).len() ==> #[trigger] collected(
                modules,
                prefix,
                n,
            )[k] == collected(modules, prefix, m)[k],
    decreases n - m,
{
    if m < n {
        lemma_collected_grows(modules, prefix, m, n - 1);
    }
}

/// Of each module the first file that is a source file below the engine's directory is
/// compared, under its path from there, with the checksum that the first module gives it.
pub proof fn lemma_first_source_of_each_module_counts(
    modules: Seq<Seq<(Seq<char>, Checksum)>>,
    prefix: Seq<char>,
    m: int,
    j: int,
)
    requires
        0 <= m < modules.len(),
        0 <= j < modules[m].len(),
        is_source_below(lowercase(modules[m][j].0), prefix),
        forall|l: int|
            0 <= l < j ==> !is_source_below(lowercase((#[trigger] modules[m][l]).0), prefix),
    ensures
        exists|i: int|
            0 <= i < collected(modules, prefix, modules.len() as int).len() && prefix + (
            #[trigger] collected(modules, prefix, modules.len() as int)[i]).0 == lowercase(
                modules[m][j].0,
            ),
{
    let n = modules.len() as int;
    let files = lowered_files(modules[m]);
    lemma_module_file(files, prefix, 0);
    assert(files[j].0 == lowercase(modules[m][j].0));
    assert(module_file(files, prefix, 0) is Some);
    let (k, c) = module_file(files, prefix, 0)->0;
    let x = choose|x: int|
        0 <= x < files.len() && is_source_below((#[trigger] files[x]).0, prefix) && files[x].0
            == prefix + k && files[x].1 == c && forall|l: int|
            0 <= l < x ==> !is_source_below((#[trigger] files[l]).0, prefix);
    if x < j {
        assert(files[x].0 == lowercase(modules[m][x].0));
    } else if j < x {
        assert(!is_source_below(files[j].0, prefix));
    }
    assert(x == j);
    let before = collected(modules, prefix, m);
    let here = collected(modules, prefix, m + 1);
    lemma_place(before, k, 0);
    lemma_collected_grows(modules, prefix, m + 1, n);
    let all = collected(modules, prefix, n);
    if place(before, k) is Some {
        let i = place(before, k)->0;
        assert(all[i] == here[i]);
        assert(prefix + all[i].0 == lowercase(modules[m][j].0));
    } else {
        let i = before.len() as int;
        assert(here[i] == (k, c));
        assert(all[i] == here[i]);
        assert(prefix + all[i].0 == lowercase(modules[m][j].0));
    }
}

/// What is compared comes from a file of some module, with the checksum that it has there.
pub proof fn lemma_compared_files_are_recorded(
    modules: Seq<Seq<(Seq<char>, Checksum)>>,
    prefix: Seq<char>,
    n: int,
)
    requires
        0 <= n <= modules.len(),
    ensures
        forall|i: int|
            0 <= i < collected(modules, prefix, n).len() ==> exists|m: int, j: int|
                0 <= m < n && 0 <= j < modules[m].len() && lowercase(
                    (#[trigger] modules[m][j]).0,
                ) == prefix + (#[trigger] collected(modules, prefix, n)[i]).0 && modules[m][j].1
                    == collected(modules, prefix, n)[i].1 && is_source_below(
                    lowercase(modules[m][j].0),
                    prefix,
                ),
    decreases n,
{
    if n > 0 {
        lemma_compared_files_are_recorded(modules, prefix, n - 1);
        let before = collected(modules, prefix, n - 1);
        let all = collected(modules, prefix, n);
        let files = lowered_files(modules[n - 1]);
        lemma_module_file(files, prefix, 0);
        assert forall|i: int| 0 <= i < all.len() implies exists|m: int, j: int|
            0 <= m < n && 0 <= j < modules[m].len() && lowercase((#[trigger] modules[m][j]).0)
                == prefix + (#[trigger] all[i]).0 && modules[m][j].1 == all[i].1 && is_source_below(
                lowercase(modules[m][j].0),
                prefix,
            ) by {
            if i < before.len() {
                assert(all[i] == before[i]);
                let (m, j) = choose|m: int, j: int|
                    0 <= m < n - 1 && 0 <= j < modules[m].len() && lowercase(
                        (#[trigger] modules[m][j]).0,
                    ) == prefix + before[i].0 && modules[m][j].1 == before[i].1 && is_source_below(
                        lowercase(modules[m][j].0),
                        prefix,
                    );
                assert(modules[m][j].1 == all[i].1);
            } else {
                let (k, c) = module_file(files, prefix, 0)->0;
                let x = choose|x: int|
                    0 <= x < files.len() && is_source_below((#[trigger] files[x]).0, prefix)
                        && files[x].0 == prefix + k && files[x].1 == c;
                assert(files[x].0 == lowercase(modules[n - 1][x].0));
                assert(modules[n - 1][x].1 == all[i].1);
            }
        }
    }
}

} // verus!
