//! The headers of a database.

use crate::function_cache::{FunctionCache, SignatureModel};
use crate::header_build::{build_header, completed, empty_data, enumerators_from, header_of,
    named_use, with_class, with_enum, with_enumeration, with_type, Progress};
use crate::header_model::{Enum, EnumModel, Found, HeaderError, HeaderRecord, HeaderTable};
use crate::header_needs::{are_needed, deeper, lemma_load_falls, lemma_type_grows, load};
use crate::header_write::{build_header_name, can_build_header_name, enum_header_text,
    get_ifdef_name, guard_path, header_directories, header_name, header_text, header_writable,
    kept_bytes, HeaderPath, HeaderType};
use crate::lcs::views;
use crate::order::{lemma_text_le_antisymmetric, lemma_text_le_total, lemma_text_le_transitive,
    text_le};
use crate::paths::{file_name, file_name_of};
use crate::source_files::today;
use crate::source_function::GenFlags;
use crate::text::{char_index, texts};
use crate::type_builder::{namespace_of, Namespace};
use vstd::prelude::*;

verus! {

/// A header that is to be written.
pub struct HeaderOutput {
    pub path: HeaderPath,
    pub text: String,
}

/// A header that is to be written, as a model.
pub struct HeaderOutputModel {
    pub directories: Seq<Seq<char>>,
    pub name: Seq<char>,
    pub text: Seq<char>,
}

impl View for HeaderOutput {
    type V = HeaderOutputModel;

    open spec fn view(&self) -> HeaderOutputModel {
        HeaderOutputModel {
            directories: texts(self.path.directories@),
            name: self.path.name@,
            text: self.text@,
        }
    }
}

/// Whether the name of a header's file can be cut.
pub open spec fn can_be_cut(name: Seq<char>) -> bool {
    let s = namespace_of(name).stripped(name);
    char_index(s, kept_bytes(s)) is Some
}

/// The headers so far and the enumerations that were met.
pub struct Headers {
    pub outputs: Seq<HeaderOutputModel>,
    pub enums: Seq<EnumModel>,
}

/// The headers with that of the class `name`, the record at `index`. A class whose types
/// cannot be told is left out, as is one that the flags leave out.
#[verifier::opaque]
pub open spec fn with_class_header(
    t: HeaderTable,
    cache: Map<Seq<char>, SignatureModel>,
    flags: GenFlags,
    day: Seq<char>,
    so_far: Headers,
    index: u32,
    name: Seq<char>,
) -> Result<Headers, HeaderError> {
    let ns = namespace_of(name);
    let (header, enums) = header_of(t, cache, index, ns, so_far.enums);
    match header {
        Err(HeaderError::Malformed) => Err(HeaderError::Malformed),
        Err(HeaderError::Skip) => Ok(Headers { outputs: so_far.outputs, enums }),
        Ok(d) => match header_directories(ns, HeaderType::Class, flags) {
            None => Ok(Headers { outputs: so_far.outputs, enums }),
            Some(directories) => if can_be_cut(name) && header_writable(d, name) {
                Ok(
                    Headers {
                        outputs: so_far.outputs.push(
                            HeaderOutputModel {
                                directories,
                                name: header_name(name, ns),
                                text: header_text(d, name, day),
                            },
                        ),
                        enums,
                    },
                )
            } else {
                Err(HeaderError::Malformed)
            },
        },
    }
}

/// The headers of the classes among the first `n` records.
pub open spec fn class_headers(
    t: HeaderTable,
    cache: Map<Seq<char>, SignatureModel>,
    flags: GenFlags,
    day: Seq<char>,
    n: int,
) -> Result<Headers, HeaderError>
    decreases n,
{
    if n <= 0 {
        Ok(Headers { outputs: Seq::empty(), enums: Seq::empty() })
    } else {
        match class_headers(t, cache, flags, day, n - 1) {
            Err(e) => Err(e),
            Ok(so_far) => match t.records@[n - 1] {
                HeaderRecord::Class(c) => if c.forward_reference {
                    Ok(so_far)
                } else {
                    with_class_header(
                        t,
                        cache,
                        flags,
                        day,
                        so_far,
                        (t.first + n - 1) as u32,
                        c.name@,
                    )
                },
                _ => Ok(so_far),
            },
        }
    }
}

/// The headers with that of an enumeration.
pub open spec fn with_enum_header(
    flags: GenFlags,
    day: Seq<char>,
    so_far: Seq<HeaderOutputModel>,
    e: EnumModel,
) -> Result<Seq<HeaderOutputModel>, HeaderError> {
    let ns = namespace_of(e.name);
    match header_directories(ns, HeaderType::Enum, flags) {
        None => Ok(so_far),
        Some(directories) => if can_be_cut(e.name) && file_name(guard_path(e.name)) is Some {
            Ok(
                so_far.push(
                    HeaderOutputModel {
                        directories,
                        name: header_name(e.name, ns),
                        text: enum_header_text(e, e.name, ns, day),
                    },
                ),
            )
        } else {
            Err(HeaderError::Malformed)
        },
    }
}

/// Some headers with those of the first `n` enumerations.
pub open spec fn enum_headers(
    flags: GenFlags,
    day: Seq<char>,
    start: Seq<HeaderOutputModel>,
    enums: Seq<EnumModel>,
    n: int,
) -> Result<Seq<HeaderOutputModel>, HeaderError>
    decreases n,
{
    if n <= 0 {
        Ok(start)
    } else {
        match enum_headers(flags, day, start, enums, n - 1) {
            Err(e) => Err(e),
            Ok(so_far) => with_enum_header(flags, day, so_far, enums[n - 1]),
        }
    }
}

/// The headers of a database: those of its classes in the order of the records, then
/// those of all enumerations that were met.
pub open spec fn all_headers(
    t: HeaderTable,
    cache: Map<Seq<char>, SignatureModel>,
    flags: GenFlags,
    day: Seq<char>,
) -> Result<Seq<HeaderOutputModel>, HeaderError> {
    match class_headers(t, cache, flags, day, t.records@.len() as int) {
        Err(e) => Err(e),
        Ok(h) => enum_headers(flags, day, h.outputs, h.enums, h.enums.len() as int),
    }
}

proof fn lemma_class_headers_err(
    t: HeaderTable,
    cache: Map<Seq<char>, SignatureModel>,
    flags: GenFlags,
    day: Seq<char>,
    i: int,
    n: int,
)
    requires
        0 <= i <= n,
        class_headers(t, cache, flags, day, i) is Err,
    ensures
        class_headers(t, cache, flags, day, n) == class_headers(t, cache, flags, day, i),
    decreases n,
{
    if i < n {
        lemma_class_headers_err(t, cache, flags, day, i, n - 1);
    }
}

proof fn lemma_enum_headers_err(
    flags: GenFlags,
    day: Seq<char>,
    start: Seq<HeaderOutputModel>,
    enums: Seq<EnumModel>,
    i: int,
    n: int,
)
    requires
        0 <= i <= n,
        enum_headers(flags, day, start, enums, i) is Err,
    ensures
        enum_headers(flags, day, start, enums, n) == enum_headers(flags, day, start, enums, i),
    decreases n,
{
    if i < n {
        lemma_enum_headers_err(flags, day, start, enums, i, n - 1);
    }
}

/// The headers hold at least what they held.
pub proof fn lemma_headers_are_kept(
    t: HeaderTable,
    cache: Map<Seq<char>, SignatureModel>,
    flags: GenFlags,
    day: Seq<char>,
    i: int,
    n: int,
)
    requires
        0 <= i <= n,
        class_headers(t, cache, flags, day, n) is Ok,
    ensures
        class_headers(t, cache, flags, day, i) is Ok,
        class_headers(t, cache, flags, day, i)->Ok_0.outputs.is_prefix_of(
            class_headers(t, cache, flags, day, n)->Ok_0.outputs,
        ),
    decreases n,
{
    if i < n {
        lemma_headers_are_kept(t, cache, flags, day, i, n - 1);
        reveal(with_class_header);
    }
}

// ---------------------------------------------------------------------------
// Enumerations
// ---------------------------------------------------------------------------

/// Enumerations in the order of their names, each name once.
pub open spec fn enums_in_order(s: Seq<EnumModel>) -> bool {
    forall|i: int, j: int|
        0 <= i < j < s.len() ==> text_le((#[trigger] s[i]).name, (#[trigger] s[j]).name)
            && s[i].name != s[j].name
}

/// Whether some enumerations have the name of `e`, with what `e` tells of its values.
pub open spec fn enum_kept(e: EnumModel, s: Seq<EnumModel>) -> bool {
    exists|j: int|
        0 <= j < s.len() && (#[trigger] s[j]).name == e.name && (e.values.len() > 0 ==> s[j] == e)
}

/// Whether `b` has every name that `a` has, with what `a` tells of its values.
pub open spec fn enums_kept(a: Seq<EnumModel>, b: Seq<EnumModel>) -> bool {
    forall|i: int| 0 <= i < a.len() ==> enum_kept(#[trigger] a[i], b)
}

proof fn lemma_with_enum(s: Seq<EnumModel>, e: EnumModel)
    requires
        enums_in_order(s),
    ensures
        enums_in_order(with_enum(s, e)),
        enums_kept(s, with_enum(s, e)),
        forall|k: int|
            0 <= k < with_enum(s, e).len() ==> #[trigger] with_enum(s, e)[k] == e || s.contains(
                with_enum(s, e)[k],
            ),
    decreases s.len(),
{
    let r = with_enum(s, e);
    if s.len() == 0 {
        assert(r =~= seq![e]);
    } else {
        let init = s.drop_last();
        let last = s.last();
        assert(s == init.push(last));
        if last.name == e.name {
            assert forall|i: int| 0 <= i < s.len() implies enum_kept(#[trigger] s[i], r) by {
                assert(r[i].name == s[i].name);
            }
            assert forall|k: int| 0 <= k < r.len() implies #[trigger] r[k] == e || s.contains(
                r[k],
            ) by {
                assert(r[k] == e || r[k] == s[k]);
            }
            assert forall|i: int, j: int| 0 <= i < j < r.len() implies text_le(
                (#[trigger] r[i]).name,
                (#[trigger] r[j]).name,
            ) && r[i].name != r[j].name by {
                assert(r[i].name == s[i].name && r[j].name == s[j].name);
            }
        } else if text_le(last.name, e.name) {
            assert forall|i: int| 0 <= i < s.len() implies enum_kept(#[trigger] s[i], r) by {
                assert(r[i] == s[i]);
            }
            assert forall|k: int| 0 <= k < r.len() implies #[trigger] r[k] == e || s.contains(
                r[k],
            ) by {
                assert(k < s.len() ==> r[k] == s[k]);
            }
            assert forall|i: int, j: int| 0 <= i < j < r.len() implies text_le(
                (#[trigger] r[i]).name,
                (#[trigger] r[j]).name,
            ) && r[i].name != r[j].name by {
                assert(r[i] == s[i]);
                if j == s.len() {
                    if i < s.len() - 1 {
                        assert(text_le(s[i].name, s[s.len() - 1].name));
                        lemma_text_le_transitive(s[i].name, last.name, e.name);
                        if s[i].name == e.name {
                            lemma_text_le_antisymmetric(last.name, e.name);
                        }
                    }
                } else {
                    assert(r[j] == s[j]);
                }
            }
        } else {
            assert forall|i: int, j: int| 0 <= i < j < init.len() implies text_le(
                (#[trigger] init[i]).name,
                (#[trigger] init[j]).name,
            ) && init[i].name != init[j].name by {
                assert(init[i] == s[i] && init[j] == s[j]);
            }
            lemma_with_enum(init, e);
            let q = with_enum(init, e);
            assert(r == q.push(last));
            lemma_text_le_total(last.name, e.name);
            assert forall|k: int| 0 <= k < q.len() implies text_le(
                (#[trigger] q[k]).name,
                last.name,
            ) && q[k].name != last.name by {
                if q[k] != e {
                    let m = choose|m: int| 0 <= m < init.len() && init[m] == q[k];
                    assert(init[m] == s[m] && last == s[s.len() - 1]);
                }
            }
            assert forall|i: int, j: int| 0 <= i < j < r.len() implies text_le(
                (#[trigger] r[i]).name,
                (#[trigger] r[j]).name,
            ) && r[i].name != r[j].name by {
                assert(r[i] == q[i]);
                assert(j < q.len() ==> r[j] == q[j]);
            }
            assert forall|k: int| 0 <= k < r.len() implies #[trigger] r[k] == e || s.contains(
                r[k],
            ) by {
                if k < q.len() {
                    assert(r[k] == q[k]);
                    if q[k] != e {
                        let m = choose|m: int| 0 <= m < init.len() && init[m] == q[k];
                        assert(s[m] == r[k]);
                    }
                } else {
                    assert(s[s.len() - 1] == r[k]);
                }
            }
            assert forall|i: int| 0 <= i < s.len() implies enum_kept(#[trigger] s[i], r) by {
                if i < init.len() {
                    assert(init[i] == s[i]);
                    let j = choose|j: int|
                        0 <= j < q.len() && (#[trigger] q[j]).name == init[i].name && (
                        init[i].values.len() > 0 ==> q[j] == init[i]);
                    assert(r[j] == q[j]);
                } else {
                    assert(r[q.len() as int] == s[i]);
                }
            }
        }
    }
}

proof fn lemma_kept_again(a: Seq<EnumModel>, b: Seq<EnumModel>, c: Seq<EnumModel>)
    requires
        enums_kept(a, b),
        enums_kept(b, c),
    ensures
        enums_kept(a, c),
{
    assert forall|i: int| 0 <= i < a.len() implies enum_kept(#[trigger] a[i], c) by {
        let k = choose|k: int|
            0 <= k < b.len() && (#[trigger] b[k]).name == a[i].name && (a[i].values.len() > 0
                ==> b[k] == a[i]);
        let j = choose|j: int|
            0 <= j < c.len() && (#[trigger] c[j]).name == b[k].name && (b[k].values.len() > 0
                ==> c[j] == b[k]);
        assert(c[j].name == a[i].name);
    }
}

proof fn lemma_kept_itself(a: Seq<EnumModel>)
    ensures
        enums_kept(a, a),
{
    assert forall|i: int| 0 <= i < a.len() implies enum_kept(#[trigger] a[i], a) by {
        assert(a[i].name == a[i].name);
    }
}

proof fn lemma_type_keeps_enums(
    t: HeaderTable,
    cache: Map<Seq<char>, SignatureModel>,
    p: Progress,
    index: u32,
)
    requires
        enums_in_order(p.enums),
        with_type(t, cache, p, index) is Ok,
    ensures
        enums_in_order(with_type(t, cache, p, index)->Ok_0.enums),
        enums_kept(p.enums, with_type(t, cache, p, index)->Ok_0.enums),
{
    reveal(with_type);
    reveal(with_class);
    reveal(with_enumeration);
    lemma_kept_itself(p.enums);
    match t.at(index) {
        Found::Record(HeaderRecord::Enumeration { name, underlying, list }) => {
            let u = named_use(t, underlying, p.needed, p.data.namespace)->Ok_0.0;
            let values = enumerators_from(t, Seq::empty(), list)->Ok_0;
            lemma_with_enum(p.enums, EnumModel { name: name@, underlying: u, values });
        },
        _ => {},
    }
}

proof fn lemma_completed_keeps_enums(
    t: HeaderTable,
    cache: Map<Seq<char>, SignatureModel>,
    p: Progress,
    depth: spec_fn(u32) -> nat,
)
    requires
        enums_in_order(p.enums),
        are_needed(t, p.needed),
    ensures
        enums_in_order(completed(t, cache, p, depth).1),
        enums_kept(p.enums, completed(t, cache, p, depth).1),
    decreases load(p.needed, depth, t.records@.len()),
{
    lemma_kept_itself(p.enums);
    if p.needed.len() > 0 {
        let i = p.needed.last();
        let rest = p.needed.drop_last();
        let before = Progress { needed: rest, ..p };
        if depth(i) < t.records@.len() && with_type(t, cache, before, i) is Ok {
            let q = with_type(t, cache, before, i)->Ok_0;
            let deep = deeper(rest, depth, depth(i) + 1);
            lemma_type_grows(t, cache, before, i);
            lemma_load_falls(t, p.needed, depth, q.needed);
            lemma_type_keeps_enums(t, cache, before, i);
            lemma_completed_keeps_enums(t, cache, q, deep);
            lemma_kept_again(p.enums, q.enums, completed(t, cache, q, deep).1);
        }
    }
}

/// The enumerations that were met come in the order of their names, each once. What was
/// met with values keeps them.
pub proof fn lemma_enumerations_are_kept(
    t: HeaderTable,
    cache: Map<Seq<char>, SignatureModel>,
    flags: GenFlags,
    day: Seq<char>,
    i: int,
    n: int,
)
    requires
        0 <= i <= n,
        class_headers(t, cache, flags, day, n) is Ok,
    ensures
        class_headers(t, cache, flags, day, i) is Ok,
        enums_in_order(class_headers(t, cache, flags, day, n)->Ok_0.enums),
        enums_kept(
            class_headers(t, cache, flags, day, i)->Ok_0.enums,
            class_headers(t, cache, flags, day, n)->Ok_0.enums,
        ),
    decreases n,
{
    let all = class_headers(t, cache, flags, day, n)->Ok_0;
    lemma_kept_itself(all.enums);
    if n > 0 {
        lemma_headers_are_kept(t, cache, flags, day, i, n);
        lemma_headers_are_kept(t, cache, flags, day, n - 1, n);
        let so_far = class_headers(t, cache, flags, day, n - 1)->Ok_0;
        lemma_enumerations_are_kept(
            t,
            cache,
            flags,
            day,
            if i < n {
                i
            } else {
                0
            },
            n - 1,
        );
        reveal(with_class_header);
        match t.records@[n - 1] {
            HeaderRecord::Class(c) => if !c.forward_reference {
                let ns = namespace_of(c.name@);
                let index = (t.first + n - 1) as u32;
                let p = Progress {
                    data: empty_data(ns),
                    needed: Seq::empty(),
                    enums: so_far.enums,
                };
                lemma_kept_itself(so_far.enums);
                if with_type(t, cache, p, index) is Ok {
                    let q = with_type(t, cache, p, index)->Ok_0;
                    let depth = |x: u32| 1nat;
                    lemma_type_keeps_enums(t, cache, p, index);
                    lemma_type_grows(t, cache, p, index);
                    lemma_completed_keeps_enums(t, cache, q, depth);
                    lemma_kept_again(so_far.enums, q.enums, completed(t, cache, q, depth).1);
                }
                assert(enums_kept(so_far.enums, all.enums));
            },
            _ => {},
        }
        if i < n {
            lemma_kept_again(
                class_headers(t, cache, flags, day, i)->Ok_0.enums,
                so_far.enums,
                all.enums,
            );
        }
    }
}

fn push_output(v: &mut Vec<HeaderOutput>, path: HeaderPath, text: String)
    ensures
        views(final(v)@) == views(old(v)@).push(
            HeaderOutputModel {
                directories: texts(path.directories@),
                name: path.name@,
                text: text@,
            },
        ),
{
    let one: HeaderOutput = HeaderOutput { path, text };
    let ghost before = v@;
    let ghost m = one@;
    v.push(one);
    assert(views(v@) =~= views(before).push(m));
}

fn add_class(
    t: &HeaderTable,
    cache: &FunctionCache,
    flags: GenFlags,
    day: &str,
    index: u32,
    name: &str,
    outputs: &mut Vec<HeaderOutput>,
    enums: &mut Vec<Enum>,
) -> (r: Result<(), HeaderError>)
    ensures
        match r {
            Ok(_) => with_class_header(
                *t,
                cache@,
                flags,
                day@,
                (Headers { outputs: views(old(outputs)@), enums: views(old(enums)@) }),
                index,
                name@,
            ) == Ok::<Headers, HeaderError>(
                (Headers { outputs: views(final(outputs)@), enums: views(final(enums)@) }),
            ),
            Err(e) => with_class_header(
                *t,
                cache@,
                flags,
                day@,
                (Headers { outputs: views(old(outputs)@), enums: views(old(enums)@) }),
                index,
                name@,
            ) == Err::<Headers, HeaderError>(e),
        },
{
    reveal(with_class_header);
    let ns: Namespace = Namespace::get_from_class_name_impl(name);
    match build_header(t, cache, index, &ns, enums) {
        Err(HeaderError::Malformed) => Err(HeaderError::Malformed),
        Err(HeaderError::Skip) => Ok(()),
        Ok(d) => {
            if ns.get_root().is_none() && flags.skip_non_engine_headers {
                return Ok(());
            }
            if !can_build_header_name(name, &ns) || !d.can_write(name) {
                return Err(HeaderError::Malformed);
            }
            match build_header_name(name, &ns, HeaderType::Class, flags) {
                None => Ok(()),
                Some(path) => {
                    let text: String = d.to_header_file(name, day);
                    push_output(outputs, path, text);
                    Ok(())
                },
            }
        },
    }
}

fn add_enum(flags: GenFlags, day: &str, e: &Enum, outputs: &mut Vec<HeaderOutput>) -> (r: Result<
    (),
    HeaderError,
>)
    ensures
        match r {
            Ok(_) => with_enum_header(flags, day@, views(old(outputs)@), e@) == Ok::<
                Seq<HeaderOutputModel>,
                HeaderError,
            >(views(final(outputs)@)),
            Err(x) => with_enum_header(flags, day@, views(old(outputs)@), e@) == Err::<
                Seq<HeaderOutputModel>,
                HeaderError,
            >(x),
        },
{
    let name: &str = e.name.as_str();
    let ns: Namespace = Namespace::get_from_class_name_impl(name);
    if ns.get_root().is_none() && flags.skip_non_engine_headers {
        return Ok(());
    }
    if !can_build_header_name(name, &ns) || file_name_of(get_ifdef_name(name).as_str()).is_none() {
        return Err(HeaderError::Malformed);
    }
    match build_header_name(name, &ns, HeaderType::Enum, flags) {
        None => Ok(()),
        Some(path) => {
            let text: String = e.to_header_file(name, &ns, day);
            push_output(outputs, path, text);
            Ok(())
        },
    }
}

/// Whether `r` holds the headers of a database, made on the given day, or why there are none.
pub open spec fn are_headers(
    t: HeaderTable,
    cache: Map<Seq<char>, SignatureModel>,
    flags: GenFlags,
    day: Seq<char>,
    r: Result<Vec<HeaderOutput>, HeaderError>,
) -> bool {
    match r {
        Ok(v) => all_headers(t, cache, flags, day) == Ok::<Seq<HeaderOutputModel>, HeaderError>(
            views(v@),
        ),
        Err(e) => all_headers(t, cache, flags, day) == Err::<Seq<HeaderOutputModel>, HeaderError>(
            e,
        ),
    }
}

/// The headers of a database, made today.
pub fn dump_headers_today(t: &HeaderTable, cache: &FunctionCache, flags: GenFlags) -> (r: Result<
    Vec<HeaderOutput>,
    HeaderError,
>)
    requires
        t.first + t.records@.len() <= u32::MAX,
    ensures
        exists|day: Seq<char>| #[trigger] are_headers(*t, cache@, flags, day, r),
{
    let day: String = today();
    let r = dump_headers(t, cache, flags, day.as_str());
    assert(are_headers(*t, cache@, flags, day@, r));
    r
}

/// The headers of a database, made on the given day: those of its classes in the order
/// of the records, then those of all enumerations that were met. `Malformed` where a
/// class or an enumeration cannot be told from the records or has no file name.
pub fn dump_headers(t: &HeaderTable, cache: &FunctionCache, flags: GenFlags, day: &str) -> (r:
    Result<Vec<HeaderOutput>, HeaderError>)
    requires
        t.first + t.records@.len() <= u32::MAX,
    ensures
        are_headers(*t, cache@, flags, day@, r),
{
    let mut outputs: Vec<HeaderOutput> = Vec::new();
    let mut enums: Vec<Enum> = Vec::new();
    assert(views(outputs@) =~= Seq::<HeaderOutputModel>::empty());
    assert(views(enums@) =~= Seq::<EnumModel>::empty());
    let n: usize = t.records.len();
    let mut i: usize = 0;
    while i < n
        invariant
            n == t.records@.len(),
            t.first + n <= u32::MAX,
            i <= n,
            class_headers(*t, cache@, flags, day@, i as int) == Ok::<Headers, HeaderError>(
                (Headers { outputs: views(outputs@), enums: views(enums@) }),
            ),
        decreases n - i,
    {
        if let HeaderRecord::Class(c) = &t.records[i] {
            if !c.forward_reference {
                let index: u32 = t.first + i as u32;
                match add_class(
                    t,
                    cache,
                    flags,
                    day,
                    index,
                    c.name.as_str(),
                    &mut outputs,
                    &mut enums,
                ) {
                    Ok(_) => {},
                    Err(e) => {
                        proof {
                            lemma_class_headers_err(*t, cache@, flags, day@, i + 1, n as int);
                        }
                        return Err(e);
                    },
                }
            }
        }
        i = i + 1;
    }
    let ghost start = views(outputs@);
    let ghost all = views(enums@);
    let m: usize = enums.len();
    let mut k: usize = 0;
    while k < m
        invariant
            m == enums@.len(),
            all == views(enums@),
            k <= m,
            all_headers(*t, cache@, flags, day@) == enum_headers(flags, day@, start, all, m as int),
            enum_headers(flags, day@, start, all, k as int) == Ok::<
                Seq<HeaderOutputModel>,
                HeaderError,
            >(views(outputs@)),
        decreases m - k,
    {
        assert(all[k as int] == enums@[k as int]@);
        match add_enum(flags, day, &enums[k], &mut outputs) {
            Ok(_) => {},
            Err(e) => {
                proof {
                    lemma_enum_headers_err(flags, day@, start, all, k + 1, m as int);
                }
                return Err(e);
            },
        }
        k = k + 1;
    }
    Ok(outputs)
}

} // verus!
