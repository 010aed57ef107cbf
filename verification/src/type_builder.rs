//! Names of types and the namespaces that they stand in.

use crate::function_type::FunctionType;
use crate::pieces::{cat2, cat3, cat4};
use crate::search::{begins, contains, find, has_part, index_of, pieces, replace, replaced, split,
    starts_with, strip_front};
use crate::text::{byte_len, char_index, char_width, chars_before, chars_of, lemma_char_index,
    len_bytes, owned, same};
use vstd::prelude::*;
use vstd::string::{StrSliceExecFns, StringExecFns};

verus! {

// ---------------------------------------------------------------------------
// Namespaces
// ---------------------------------------------------------------------------

/// The engine namespace that a name stands in: the outermost one and up to two
/// more inside it.
#[derive(Debug)]
pub struct Namespace {
    pub root: Option<String>,
    pub class: Option<String>,
    pub subclass: Option<String>,
}

/// What a namespace says.
pub struct NamespaceModel {
    pub root: Option<Seq<char>>,
    pub class: Option<Seq<char>>,
    pub subclass: Option<Seq<char>>,
}

/// The view of an optional name.
pub open spec fn opt(s: Option<String>) -> Option<Seq<char>> {
    match s {
        Some(t) => Some(t@),
        None => None,
    }
}

impl View for Namespace {
    type V = NamespaceModel;

    open spec fn view(&self) -> NamespaceModel {
        NamespaceModel {
            root: opt(self.root),
            class: opt(self.class),
            subclass: opt(self.subclass),
        }
    }
}

impl NamespaceModel {
    /// No namespace.
    pub open spec fn none() -> NamespaceModel {
        NamespaceModel { root: None, class: None, subclass: None }
    }

    /// The names from the outside in, and no gap between them.
    pub open spec fn nested(self) -> bool {
        (self.class is Some ==> self.root is Some) && (self.subclass is Some ==> self.class is Some)
    }

    /// What a name in the outermost namespace begins with.
    pub open spec fn root_prefix(self) -> Option<Seq<char>> {
        match self.root {
            Some(r) => Some(r + "::"@),
            None => None,
        }
    }

    /// What a name in the second namespace begins with.
    pub open spec fn class_prefix(self) -> Option<Seq<char>> {
        match (self.root_prefix(), self.class) {
            (Some(r), Some(c)) => Some(r + c + "::"@),
            _ => None,
        }
    }

    /// What a name in the third namespace begins with.
    pub open spec fn subclass_prefix(self) -> Option<Seq<char>> {
        match (self.class_prefix(), self.subclass) {
            (Some(c), Some(s)) => Some(c + s + "::"@),
            _ => None,
        }
    }

    /// A name without the namespace, as far in as it stands.
    pub open spec fn stripped(self, name: Seq<char>) -> Seq<char> {
        if self.subclass_prefix() is Some && starts_with(name, self.subclass_prefix()->0) {
            name.skip(self.subclass_prefix()->0.len() as int)
        } else if self.class_prefix() is Some && starts_with(name, self.class_prefix()->0) {
            name.skip(self.class_prefix()->0.len() as int)
        } else if self.root_prefix() is Some && starts_with(name, self.root_prefix()->0) {
            name.skip(self.root_prefix()->0.len() as int)
        } else {
            name
        }
    }

    /// How many namespaces there are.
    pub open spec fn depth(self) -> int {
        (if self.root is Some {
            1int
        } else {
            0
        }) + (if self.class is Some {
            1int
        } else {
            0
        }) + (if self.subclass is Some {
            1int
        } else {
            0
        })
    }

    /// The lines that open the namespaces.
    pub open spec fn opening(self) -> Seq<char> {
        let a = match self.root {
            Some(r) => "namespace "@ + r + " {\n"@,
            None => ""@,
        };
        let b = match (self.root, self.class) {
            (Some(_), Some(c)) => "namespace "@ + c + " {\n"@,
            _ => ""@,
        };
        let c = match (self.class, self.subclass) {
            (Some(_), Some(s)) => "namespace "@ + s + " {\n"@,
            _ => ""@,
        };
        let d = if self.root is Some || (self.class is Some && self.subclass is Some) {
            "\n"@
        } else {
            ""@
        };
        a + b + c + d
    }

    /// The lines that close the namespaces.
    pub open spec fn closing(self) -> Seq<char> {
        let c = match (self.class, self.subclass) {
            (Some(_), Some(s)) => "} // namespace "@ + s + "\n"@,
            _ => ""@,
        };
        let b = match (self.root, self.class) {
            (Some(_), Some(c)) => "} // namespace "@ + c + "\n"@,
            _ => ""@,
        };
        let a = match self.root {
            Some(r) => "} // namespace "@ + r + "\n"@,
            None => ""@,
        };
        c + b + a
    }
}

/// The second part of a qualified name, where it is a namespace: not the last
/// part, and no template.
pub open spec fn class_part(p: Seq<Seq<char>>) -> Option<Seq<char>> {
    if p.len() <= 2 || contains(p[1], "<"@) {
        None
    } else {
        Some(p[1])
    }
}

/// Whether the engine's namespace `class` has a namespace `subclass`.
pub open spec fn known_subclass(class: Seq<char>, subclass: Seq<char>) -> bool {
    ||| class == "ai"@ && (subclass == "planning"@ || subclass == "perceptors"@ || subclass
        == "path_constructor"@ || subclass == "graph_wrapper"@ || subclass == "sensors"@)
    ||| class == "animation"@ && subclass == "mixing"@
    ||| class == "core"@ && subclass == "configs"@
    ||| class == "memory"@ && subclass == "detail"@
    ||| class == "render"@ && (subclass == "culling"@ || subclass == "debug"@)
}

/// The third part of a qualified name, where it is a namespace: not the last part,
/// and one that is known.
pub open spec fn subclass_part(p: Seq<Seq<char>>) -> Option<Seq<char>> {
    if p.len() > 3 && class_part(p) is Some && known_subclass(class_part(p)->0, p[2]) {
        Some(p[2])
    } else {
        None
    }
}

/// The engine namespace that a qualified name stands in.
pub open spec fn namespace_of(name: Seq<char>) -> NamespaceModel {
    let p = pieces(name, "::"@);
    if p[0] == "survarium"@ {
        NamespaceModel { root: Some("survarium"@), class: None, subclass: None }
    } else if p[0] == "vostok"@ {
        NamespaceModel {
            root: Some("vostok"@),
            class: class_part(p),
            subclass: subclass_part(p),
        }
    } else {
        NamespaceModel::none()
    }
}

/// The namespaces of a name are nested, and the inner ones are the engine's.
pub proof fn lemma_namespace_is_nested(name: Seq<char>)
    ensures
        namespace_of(name).nested(),
        namespace_of(name).depth() <= 3,
{
}

fn is_known_subclass(class: &str, subclass: &str) -> (b: bool)
    ensures
        b == known_subclass(class@, subclass@),
{
    (same(class, "ai") && (same(subclass, "planning") || same(subclass, "perceptors") || same(
        subclass,
        "path_constructor",
    ) || same(subclass, "graph_wrapper") || same(subclass, "sensors"))) || (same(
        class,
        "animation",
    ) && same(subclass, "mixing")) || (same(class, "core") && same(subclass, "configs")) || (same(
        class,
        "memory",
    ) && same(subclass, "detail")) || (same(class, "render") && (same(subclass, "culling") || same(
        subclass,
        "debug",
    )))
}

fn copy_of(s: &Option<String>) -> (r: Option<String>)
    ensures
        opt(r) == opt(*s),
{
    match s {
        Some(t) => Some(owned(t.as_str())),
        None => None,
    }
}

fn part_line(before: &str, name: &Option<String>, after: &str, wanted: bool) -> (r: String)
    ensures
        r@ == match opt(*name) {
            Some(n) => if wanted {
                before@ + n + after@
            } else {
                ""@
            },
            None => ""@,
        },
{
    match name {
        Some(n) => if wanted {
            cat3(before, n.as_str(), after)
        } else {
            owned("")
        },
        None => owned(""),
    }
}

impl Namespace {
    /// No namespace.
    pub fn none() -> (r: Namespace)
        ensures
            r@ == NamespaceModel::none(),
    {
        Namespace { root: None, class: None, subclass: None }
    }

    /// The same namespace once more.
    pub fn copy(&self) -> (r: Namespace)
        ensures
            r@ == self@,
    {
        Namespace {
            root: copy_of(&self.root),
            class: copy_of(&self.class),
            subclass: copy_of(&self.subclass),
        }
    }

    /// The engine namespace that a function stands in.
    pub fn get_from_class_name(fun: &FunctionType) -> (r: Namespace)
        ensures
            r@ == namespace_of(fun@.name),
    {
        Namespace::get_from_class_name_impl(fun.name.as_str())
    }

    /// The engine namespace that the qualified name `p` stands in.
    pub fn get_from_class_name_impl(p: &str) -> (r: Namespace)
        ensures
            r@ == namespace_of(p@),
    {
        let parts: Vec<String> = split(p, "::");
        let ghost q = pieces(p@, "::"@);
        assert(q[0] == parts@[0]@);
        let n: usize = parts.len();
        if same(parts[0].as_str(), "survarium") {
            return Namespace { root: Some(owned("survarium")), class: None, subclass: None };
        }
        if !same(parts[0].as_str(), "vostok") {
            return Namespace::none();
        }
        let mut class: Option<String> = None;
        let mut subclass: Option<String> = None;
        if n > 2 {
            assert(q[1] == parts@[1]@);
            assert(q[2] == parts@[2]@);
            if !has_part(parts[1].as_str(), "<") {
                class = Some(owned(parts[1].as_str()));
                if n > 3 && is_known_subclass(parts[1].as_str(), parts[2].as_str()) {
                    subclass = Some(owned(parts[2].as_str()));
                }
            }
        }
        Namespace { root: Some(owned("vostok")), class, subclass }
    }

    /// The outermost namespace.
    pub fn get_root(&self) -> (r: Option<&str>)
        ensures
            match r {
                Some(s) => self@.root == Some(s@),
                None => self@.root is None,
            },
    {
        match &self.root {
            Some(s) => Some(s.as_str()),
            None => None,
        }
    }

    /// The second namespace.
    pub fn get_class(&self) -> (r: Option<&str>)
        ensures
            match r {
                Some(s) => self@.root is Some && self@.class == Some(s@),
                None => self@.root is None || self@.class is None,
            },
    {
        match (&self.root, &self.class) {
            (Some(_), Some(s)) => Some(s.as_str()),
            _ => None,
        }
    }

    /// The third namespace.
    pub fn get_subclass(&self) -> (r: Option<&str>)
        ensures
            match r {
                Some(s) => self@.class is Some && self@.subclass == Some(s@),
                None => self@.class is None || self@.subclass is None,
            },
    {
        match (&self.class, &self.subclass) {
            (Some(_), Some(s)) => Some(s.as_str()),
            _ => None,
        }
    }

    /// Writes the lines that open the namespaces.
    pub fn start_namespace(&self, w: &mut String)
        ensures
            final(w)@ == old(w)@ + self@.opening(),
    {
        let last: &str = if self.root.is_some() || (self.class.is_some()
            && self.subclass.is_some()) {
            "\n"
        } else {
            ""
        };
        let text: String = cat4(
            part_line("namespace ", &self.root, " {\n", true).as_str(),
            part_line("namespace ", &self.class, " {\n", self.root.is_some()).as_str(),
            part_line("namespace ", &self.subclass, " {\n", self.class.is_some()).as_str(),
            last,
        );
        w.append(text.as_str());
    }

    /// Writes the lines that close the namespaces.
    pub fn end_namespace(&self, w: &mut String)
        ensures
            final(w)@ == old(w)@ + self@.closing(),
    {
        let text: String = cat3(
            part_line("} // namespace ", &self.subclass, "\n", self.class.is_some()).as_str(),
            part_line("} // namespace ", &self.class, "\n", self.root.is_some()).as_str(),
            part_line("} // namespace ", &self.root, "\n", true).as_str(),
        );
        w.append(text.as_str());
    }

    fn root_prefix(&self) -> (r: Option<String>)
        ensures
            opt(r) == self@.root_prefix(),
    {
        match &self.root {
            Some(s) => Some(cat2(s.as_str(), "::")),
            None => None,
        }
    }

    fn class_prefix(&self) -> (r: Option<String>)
        ensures
            opt(r) == self@.class_prefix(),
    {
        match (self.root_prefix(), &self.class) {
            (Some(r), Some(c)) => Some(cat3(r.as_str(), c.as_str(), "::")),
            _ => None,
        }
    }

    fn subclass_prefix(&self) -> (r: Option<String>)
        ensures
            opt(r) == self@.subclass_prefix(),
    {
        match (self.class_prefix(), &self.subclass) {
            (Some(c), Some(s)) => Some(cat3(c.as_str(), s.as_str(), "::")),
            _ => None,
        }
    }

    /// `class_name` without the namespace, as far in as it stands.
    pub fn strip(&self, class_name: &str) -> (r: String)
        ensures
            r@ == self@.stripped(class_name@),
    {
        if let Some(p) = self.subclass_prefix() {
            if let Some(rest) = strip_front(class_name, p.as_str()) {
                return rest;
            }
        }
        if let Some(p) = self.class_prefix() {
            if let Some(rest) = strip_front(class_name, p.as_str()) {
                return rest;
            }
        }
        if let Some(p) = self.root_prefix() {
            if let Some(rest) = strip_front(class_name, p.as_str()) {
                return rest;
            }
        }
        owned(class_name)
    }

    /// How many namespaces there are.
    pub fn depth(&self) -> (r: u32)
        ensures
            r == self@.depth(),
    {
        let mut n: u32 = 0;
        if self.root.is_some() {
            n = n + 1;
        }
        if self.class.is_some() {
            n = n + 1;
        }
        if self.subclass.is_some() {
            n = n + 1;
        }
        n
    }
}

// ---------------------------------------------------------------------------
// Template arguments
// ---------------------------------------------------------------------------

/// The first `sep` from position `i` on that stands outside angle brackets,
/// `depth` of which are open at `i`; 0 where there is none.
pub open spec fn separator_from(s: Seq<char>, sep: char, i: int, depth: int) -> int
    decreases s.len() - i,
{
    if i < 0 || i >= s.len() {
        0
    } else if depth == 0 && s[i] == sep {
        i
    } else if s[i] == '<' {
        separator_from(s, sep, i + 1, depth + 1)
    } else if s[i] == '>' {
        separator_from(s, sep, i + 1, depth - 1)
    } else {
        separator_from(s, sep, i + 1, depth)
    }
}

/// The first `sep` in `s` outside angle brackets; 0 where there is none.
pub open spec fn separator(s: Seq<char>, sep: char) -> int {
    separator_from(s, sep, 0, 0)
}

/// Where the first argument in an argument list ends, in characters. The
/// separator's position counts as bytes.
pub open spec fn first_arg_end(rest: Seq<char>) -> Option<int> {
    char_index(rest, separator(rest, ','))
}

/// The first argument in an argument list.
pub open spec fn first_arg(rest: Seq<char>) -> Seq<char> {
    rest.take(first_arg_end(rest)->0)
}

/// The first argument of the template that `ty` begins with.
pub open spec fn template_arg(ty: Seq<char>, prefix: Seq<char>) -> Option<Seq<char>> {
    if starts_with(ty, prefix) {
        Some(first_arg(ty.skip(prefix.len() as int)))
    } else {
        None
    }
}

/// The first argument of the first such template in `ty`.
pub open spec fn found_template_arg(ty: Seq<char>, prefix: Seq<char>) -> Option<Seq<char>> {
    match index_of(ty, prefix, 0) {
        Some(at) => Some(first_arg(ty.skip(at + prefix.len()))),
        None => None,
    }
}

/// Where the rest of a type goes on behind a template whose argument list, from
/// the end of its first argument on, is `tail`.
pub open spec fn template_end(tail: Seq<char>) -> Option<int> {
    char_index(tail, separator(tail, '>') + 1)
}

/// `ty` with the first such template exchanged for its first argument and a suffix.
pub open spec fn template_replaced(
    ty: Seq<char>,
    prefix: Seq<char>,
    suffix: Seq<char>,
) -> Option<Seq<char>> {
    match index_of(ty, prefix, 0) {
        Some(at) => {
            let rest = ty.skip(at).skip(prefix.len() as int);
            let arg = first_arg(rest);
            let tail = rest.skip(arg.len() as int);
            Some(ty.take(at) + arg + suffix + tail.skip(template_end(tail)->0))
        },
        None => None,
    }
}

/// Whether the argument list of the template can be cut.
pub open spec fn can_replace(ty: Seq<char>, prefix: Seq<char>) -> bool {
    match index_of(ty, prefix, 0) {
        Some(at) => {
            let rest = ty.skip(at).skip(prefix.len() as int);
            first_arg_end(rest) is Some && template_end(
                rest.skip(first_arg(rest).len() as int),
            ) is Some
        },
        None => true,
    }
}

fn find_impl(ty: &Vec<char>, sep: char) -> (r: usize)
    ensures
        r == separator(ty@, sep),
        r <= ty@.len(),
{
    let mut depth: i128 = 0;
    let mut i: usize = 0;
    let n: usize = ty.len();
    while i < n
        invariant
            n == ty@.len(),
            i <= n,
            -(i as int) <= depth <= i,
            separator(ty@, sep) == separator_from(ty@, sep, i as int, depth as int),
        decreases n - i,
    {
        let c: char = ty[i];
        if depth == 0 && c == sep {
            return i;
        }
        if c == '<' {
            depth = depth + 1;
        } else if c == '>' {
            depth = depth - 1;
        }
        i = i + 1;
    }
    0
}

fn cut_first_arg(rest: &str) -> (r: Option<&str>)
    ensures
        match r {
            Some(a) => first_arg_end(rest@) is Some && a@ == first_arg(rest@),
            None => first_arg_end(rest@) is None,
        },
{
    let v: Vec<char> = chars_of(rest);
    let end: usize = find_impl(&v, ',');
    match chars_before(&v, end) {
        Some(k) => {
            proof {
                lemma_char_index(rest@, end as int);
            }
            assert(rest@.subrange(0, k as int) =~= rest@.take(k as int));
            Some(rest.substring_char(0, k))
        },
        None => None,
    }
}

/// The first argument of the template that `ty` begins with.
pub fn extract_template_arg<'a>(ty: &'a str, prefix: &str) -> (r: Option<&'a str>)
    requires
        starts_with(ty@, prefix@) ==> first_arg_end(ty@.skip(prefix@.len() as int)) is Some,
    ensures
        match r {
            Some(a) => template_arg(ty@, prefix@) == Some(a@),
            None => template_arg(ty@, prefix@) is None,
        },
{
    if !begins(ty, prefix) {
        return None;
    }
    let n: usize = chars_of(prefix).len();
    let m: usize = chars_of(ty).len();
    assert(ty@.subrange(n as int, m as int) =~= ty@.skip(n as int));
    cut_first_arg(ty.substring_char(n, m))
}

/// The first argument of the first such template in `ty`.
pub fn find_extract_template_arg<'a>(ty: &'a str, prefix: &str) -> (r: Option<&'a str>)
    requires
        index_of(ty@, prefix@, 0) matches Some(at) ==> first_arg_end(
            ty@.skip(at + prefix@.len()),
        ) is Some,
    ensures
        match r {
            Some(a) => found_template_arg(ty@, prefix@) == Some(a@),
            None => found_template_arg(ty@, prefix@) is None,
        },
{
    match find(ty, prefix) {
        Some(at) => {
            let n: usize = chars_of(prefix).len();
            let m: usize = chars_of(ty).len();
            assert(at + n <= m);
            assert(ty@.subrange(at + n, m as int) =~= ty@.skip(at + n));
            cut_first_arg(ty.substring_char(at + n, m))
        },
        None => None,
    }
}

/// The parts of `ty` around and in the first such template: what stands before
/// it, its first argument, and what goes on behind it.
fn template_parts<'a>(ty: &'a str, prefix: &str) -> (r: Option<Option<(&'a str, &'a str, &'a str)>>)
    ensures
        match r {
            None => index_of(ty@, prefix@, 0) is None,
            Some(None) => index_of(ty@, prefix@, 0) is Some && !can_replace(ty@, prefix@),
            Some(Some((before, arg, after))) => index_of(ty@, prefix@, 0) is Some && can_replace(
                ty@,
                prefix@,
            ) && forall|suffix: Seq<char>|
                template_replaced(ty@, prefix@, suffix) == Some(
                    #[trigger] (before@ + arg@ + suffix) + after@,
                ),
        },
{
    let at: usize = match find(ty, prefix) {
        Some(k) => k,
        None => {
            return None;
        },
    };
    let n: usize = chars_of(prefix).len();
    let m: usize = chars_of(ty).len();
    assert(at + n <= m);
    let before: &'a str = ty.substring_char(0, at);
    assert(ty@.subrange(0, at as int) =~= ty@.take(at as int));
    let rest: &'a str = ty.substring_char(at + n, m);
    assert(ty@.subrange(at + n, m as int) =~= ty@.skip(at as int).skip(n as int));
    let arg: &'a str = match cut_first_arg(rest) {
        Some(a) => a,
        None => {
            return Some(None);
        },
    };
    proof {
        lemma_char_index(rest@, separator(rest@, ','));
    }
    let k: usize = chars_of(arg).len();
    let rest_len: usize = m - at - n;
    let tail: &'a str = rest.substring_char(k, rest_len);
    assert(rest@.subrange(k as int, rest_len as int) =~= rest@.skip(k as int));
    let v: Vec<char> = chars_of(tail);
    let sep: usize = find_impl(&v, '>');
    if sep == usize::MAX {
        let total: usize = len_bytes(tail);
        proof {
            lemma_prefix_bytes(tail@, sep + 1);
        }
        return Some(None);
    }
    match chars_before(&v, sep + 1) {
        Some(e) => {
            proof {
                lemma_char_index(tail@, sep + 1);
            }
            let after: &'a str = tail.substring_char(e, v.len());
            assert(tail@.subrange(e as int, tail@.len() as int) =~= tail@.skip(e as int));
            Some(Some((before, arg, after)))
        },
        None => Some(None),
    }
}

proof fn lemma_prefix_bytes(s: Seq<char>, n: int)
    requires
        n > byte_len(s),
    ensures
        char_index(s, n) is None,
    decreases s.len(),
{
    if s.len() > 0 && n >= char_width(s[0]) {
        lemma_prefix_bytes(s.skip(1), n - char_width(s[0]));
    }
}

/// `ty` with the first such template exchanged for its first argument and a
/// suffix.
pub fn replace_by_first_template_arg(
    ty: &str,
    template_prefix: &str,
    res_ty_suffix: &str,
) -> (r: Option<String>)
    requires
        can_replace(ty@, template_prefix@),
    ensures
        opt(r) == template_replaced(ty@, template_prefix@, res_ty_suffix@),
{
    match template_parts(ty, template_prefix) {
        Some(Some((before, arg, after))) => {
            assert(template_replaced(ty@, template_prefix@, res_ty_suffix@) == Some(
                (before@ + arg@ + res_ty_suffix@) + after@,
            ));
            Some(cat4(before, arg, res_ty_suffix, after))
        },
        _ => None,
    }
}

/// `ty` with such a template exchanged, where there is one.
pub open spec fn exchanged(ty: Seq<char>, prefix: Seq<char>, suffix: Seq<char>) -> Seq<char> {
    match template_replaced(ty, prefix, suffix) {
        Some(t) => t,
        None => ty,
    }
}

/// `ty` with the templates of pointers and lists exchanged, one after the other,
/// the first `n` of them.
pub open spec fn pointers_named(ty: Seq<char>, n: int) -> Seq<char> {
    let a = exchanged(ty, "vostok::resources::resource_ptr<"@, "_ptr"@);
    let b = exchanged(a, "vostok::intrusive_ptr<"@, "_ptr"@);
    let c = exchanged(b, "vostok::intrusive_list<"@, "_list"@);
    if n <= 0 {
        ty
    } else if n == 1 {
        a
    } else if n == 2 {
        b
    } else {
        c
    }
}

/// Whether the templates in `ty` can be cut at every step.
pub open spec fn can_name_templates(ty: Seq<char>) -> bool {
    &&& can_replace(ty, "vostok::resources::resource_ptr<"@)
    &&& can_replace(pointers_named(ty, 1), "vostok::intrusive_ptr<"@)
    &&& can_replace(pointers_named(ty, 2), "vostok::intrusive_list<"@)
    &&& starts_with(pointers_named(ty, 3), "stlp_std::vector<"@) ==> first_arg_end(
        pointers_named(ty, 3).skip("stlp_std::vector<"@.len() as int),
    ) is Some
}

/// `ty` with the templates that have a name of their own exchanged for it, where
/// there are any.
pub open spec fn templates_named(ty: Seq<char>) -> Option<Seq<char>> {
    let c = pointers_named(ty, 3);
    let some = index_of(ty, "vostok::resources::resource_ptr<"@, 0) is Some || index_of(
        pointers_named(ty, 1),
        "vostok::intrusive_ptr<"@,
        0,
    ) is Some || index_of(pointers_named(ty, 2), "vostok::intrusive_list<"@, 0) is Some;
    match template_arg(c, "stlp_std::vector<"@) {
        Some(arg) => Some("stlp_std::vector<"@ + arg + " >"@),
        None => if some {
            Some(c)
        } else {
            None
        },
    }
}

/// `ty` with the templates that have a name of their own exchanged for it; nothing
/// where there are none.
pub fn typedef_template(ty: &str) -> (r: Option<String>)
    requires
        can_name_templates(ty@),
    ensures
        opt(r) == templates_named(ty@),
{
    let mut some: bool = false;
    let mut t: String = owned(ty);
    if let Some(x) = replace_by_first_template_arg(
        t.as_str(),
        "vostok::resources::resource_ptr<",
        "_ptr",
    ) {
        t = x;
        some = true;
    }
    assert(t@ == pointers_named(ty@, 1));
    if let Some(x) = replace_by_first_template_arg(t.as_str(), "vostok::intrusive_ptr<", "_ptr") {
        t = x;
        some = true;
    }
    assert(t@ == pointers_named(ty@, 2));
    if let Some(x) = replace_by_first_template_arg(
        t.as_str(),
        "vostok::intrusive_list<",
        "_list",
    ) {
        t = x;
        some = true;
    }
    assert(t@ == pointers_named(ty@, 3));
    match extract_template_arg(t.as_str(), "stlp_std::vector<") {
        Some(arg) => Some(cat3("stlp_std::vector<", arg, " >")),
        None => if some {
            Some(t)
        } else {
            None
        },
    }
}

/// Whether the templates in `ty` can be cut at every step, as `typedef_template`
/// needs it.
pub fn can_typedef_template(ty: &str) -> (r: bool)
    ensures
        r == can_name_templates(ty@),
{
    let mut t: String = owned(ty);
    match template_parts(t.as_str(), "vostok::resources::resource_ptr<") {
        Some(None) => {
            return false;
        },
        Some(Some((before, arg, after))) => {
            assert(template_replaced(t@, "vostok::resources::resource_ptr<"@, "_ptr"@) == Some(
                (before@ + arg@ + "_ptr"@) + after@,
            ));
            t = cat4(before, arg, "_ptr", after);
        },
        None => {},
    }
    assert(t@ == pointers_named(ty@, 1));
    match template_parts(t.as_str(), "vostok::intrusive_ptr<") {
        Some(None) => {
            return false;
        },
        Some(Some((before, arg, after))) => {
            assert(template_replaced(t@, "vostok::intrusive_ptr<"@, "_ptr"@) == Some(
                (before@ + arg@ + "_ptr"@) + after@,
            ));
            t = cat4(before, arg, "_ptr", after);
        },
        None => {},
    }
    assert(t@ == pointers_named(ty@, 2));
    match template_parts(t.as_str(), "vostok::intrusive_list<") {
        Some(None) => {
            return false;
        },
        Some(Some((before, arg, after))) => {
            assert(template_replaced(t@, "vostok::intrusive_list<"@, "_list"@) == Some(
                (before@ + arg@ + "_list"@) + after@,
            ));
            t = cat4(before, arg, "_list", after);
        },
        None => {},
    }
    assert(t@ == pointers_named(ty@, 3));
    match strip_front(t.as_str(), "stlp_std::vector<") {
        Some(rest) => cut_first_arg(rest.as_str()).is_some(),
        None => true,
    }
}

/// The argument of the first such template in `name`, or `name` itself.
pub open spec fn narrowed(name: Seq<char>, prefix: Seq<char>) -> Seq<char> {
    match found_template_arg(name, prefix) {
        Some(a) => a,
        None => name,
    }
}

/// `name` narrowed by the first `n` of the templates that refer to a type.
pub open spec fn referred(name: Seq<char>, n: int) -> Seq<char> {
    let a = narrowed(name, "vostok::resources::resource_ptr<"@);
    let b = narrowed(a, "vostok::intrusive_ptr<"@);
    let c = narrowed(b, "vostok::intrusive_list<"@);
    let d = narrowed(c, "stlp_std::vector<"@);
    if n <= 0 {
        name
    } else if n == 1 {
        a
    } else if n == 2 {
        b
    } else if n == 3 {
        c
    } else {
        d
    }
}

/// Whether the first such template in `name` can be cut.
pub open spec fn can_narrow(name: Seq<char>, prefix: Seq<char>) -> bool {
    index_of(name, prefix, 0) matches Some(at) ==> first_arg_end(
        name.skip(at + prefix.len()),
    ) is Some
}

/// Whether the templates that refer to a type can be cut at every step.
pub open spec fn can_refer(name: Seq<char>) -> bool {
    &&& can_narrow(name, "vostok::resources::resource_ptr<"@)
    &&& can_narrow(referred(name, 1), "vostok::intrusive_ptr<"@)
    &&& can_narrow(referred(name, 2), "vostok::intrusive_list<"@)
    &&& can_narrow(referred(name, 3), "stlp_std::vector<"@)
}

/// Whether `name` holds a template that refers to a type.
pub open spec fn refers(name: Seq<char>) -> bool {
    ||| index_of(name, "vostok::resources::resource_ptr<"@, 0) is Some
    ||| index_of(referred(name, 1), "vostok::intrusive_ptr<"@, 0) is Some
    ||| index_of(referred(name, 2), "vostok::intrusive_list<"@, 0) is Some
    ||| index_of(referred(name, 3), "stlp_std::vector<"@, 0) is Some
}

/// The type that a template of a pointer, list or vector refers to; nothing where
/// `name` holds none of these.
pub fn extract_forward_reference_from_template(name: &str) -> (r: Option<&str>)
    requires
        can_refer(name@),
    ensures
        match r {
            Some(s) => refers(name@) && s@ == referred(name@, 4),
            None => !refers(name@),
        },
{
    let mut found: bool = false;
    let mut n: &str = name;
    if let Some(a) = find_extract_template_arg(n, "vostok::resources::resource_ptr<") {
        found = true;
        n = a;
    }
    assert(n@ == referred(name@, 1));
    if let Some(a) = find_extract_template_arg(n, "vostok::intrusive_ptr<") {
        found = true;
        n = a;
    }
    assert(n@ == referred(name@, 2));
    if let Some(a) = find_extract_template_arg(n, "vostok::intrusive_list<") {
        found = true;
        n = a;
    }
    assert(n@ == referred(name@, 3));
    if let Some(a) = find_extract_template_arg(n, "stlp_std::vector<") {
        found = true;
        n = a;
    }
    if found {
        Some(n)
    } else {
        None
    }
}

/// Whether the first such template in `name` can be cut.
fn is_cuttable(name: &str, prefix: &str) -> (r: bool)
    ensures
        r == can_narrow(name@, prefix@),
{
    match find(name, prefix) {
        Some(at) => {
            let n: usize = chars_of(prefix).len();
            let m: usize = chars_of(name).len();
            assert(at + n <= m);
            assert(name@.subrange(at + n, m as int) =~= name@.skip(at + n));
            cut_first_arg(name.substring_char(at + n, m)).is_some()
        },
        None => true,
    }
}

/// Whether the templates that refer to a type can be cut at every step, as
/// `extract_forward_reference_from_template` needs it.
pub fn can_extract_forward_reference(name: &str) -> (r: bool)
    ensures
        r == can_refer(name@),
{
    let mut n: &str = name;
    if !is_cuttable(n, "vostok::resources::resource_ptr<") {
        return false;
    }
    if let Some(a) = find_extract_template_arg(n, "vostok::resources::resource_ptr<") {
        n = a;
    }
    assert(n@ == referred(name@, 1));
    if !is_cuttable(n, "vostok::intrusive_ptr<") {
        return false;
    }
    if let Some(a) = find_extract_template_arg(n, "vostok::intrusive_ptr<") {
        n = a;
    }
    assert(n@ == referred(name@, 2));
    if !is_cuttable(n, "vostok::intrusive_list<") {
        return false;
    }
    if let Some(a) = find_extract_template_arg(n, "vostok::intrusive_list<") {
        n = a;
    }
    assert(n@ == referred(name@, 3));
    is_cuttable(n, "stlp_std::vector<")
}

// ---------------------------------------------------------------------------
// Type names
// ---------------------------------------------------------------------------

/// Pointer and integer types under the names that the engine uses.
pub open spec fn named_primitives(s: Seq<char>) -> Seq<char> {
    let t = replaced(s, "stlp_std"@, "std"@);
    let t = replaced(t, "char const*"@, "pcstr"@);
    let t = replaced(t, "char const *"@, "pcstr"@);
    let t = replaced(t, "void const*"@, "pcvoid"@);
    let t = replaced(t, "void const *"@, "pcvoid"@);
    let t = replaced(t, "u8 const *"@, "pcbyte"@);
    let t = replaced(t, "u8 const*"@, "pcbyte"@);
    let t = replaced(t, "u8 *"@, "pbyte"@);
    let t = replaced(t, "u8*"@, "pbyte"@);
    let t = replaced(t, "unsigned int"@, "u32"@);
    let t = replaced(t, "unsigned short"@, "u16"@);
    let t = replaced(t, "unsigned char"@, "u8"@);
    t
}

/// Library types under their usual names.
pub open spec fn named_libraries(s: Seq<char>) -> Seq<char> {
    let t = replaced(s, "boost::asio::basic_stream_socket<boost::asio::ip::tcp,boost::asio::stream_socket_service<boost::asio::ip::tcp> >"@, "boost::asio::ip::tcp::socket"@);
    let t = replaced(t, "boost::asio::ip::basic_endpoint<boost::asio::ip::tcp>"@, "boost::asio::ip::tcp::endpoint"@);
    let t = replaced(t, "boost::asio::ip::basic_resolver<boost::asio::ip::tcp,boost::asio::ip::resolver_service<boost::asio::ip::tcp> >"@, "boost::asio::ip::tcp::resolver"@);
    let t = replaced(t, "boost::asio::ip::basic_resolver_iterator<boost::asio::ip::tcp>"@, "boost::asio::ip::tcp::resolver::iterator"@);
    let t = replaced(t, "boost::asio::ip::basic_resolver_query<boost::asio::ip::tcp>"@, "boost::asio::ip::tcp::resolver::query"@);
    let t = replaced(t, "boost::asio::basic_datagram_socket<boost::asio::ip::udp,boost::asio::datagram_socket_service<boost::asio::ip::udp> >"@, "boost::asio::ip::udp::socket"@);
    let t = replaced(t, "boost::asio::ip::basic_endpoint<boost::asio::ip::udp>"@, "boost::asio::ip::udp::endpoint"@);
    let t = replaced(t, "boost::asio::basic_streambuf<std::allocator<char> >"@, "boost::asio::streambuf"@);
    let t = replaced(t, "boost::noncopyable_::noncopyable"@, "boost::noncopyable"@);
    let t = replaced(t, "std::basic_string<char,std::char_traits<char>,std::allocator<char> >"@, "std::string"@);
    let t = replaced(t, "std::basic_ostream<char,std::char_traits<char> >"@, "std::ostream"@);
    let t = replaced(t, "std::basic_istream<char,std::char_traits<char> >"@, "std::istream"@);
    t
}

/// Calling conventions left out, and the engine's vector types without their namespace.
pub open spec fn named_engine_types(s: Seq<char>) -> Seq<char> {
    let t = replaced(s, " __cdecl(void)"@, "()"@);
    let t = replaced(t, " __cdecl"@, ""@);
    let t = replaced(t, "vostok::math::float2"@, "float2"@);
    let t = replaced(t, "vostok::math::float3"@, "float3"@);
    let t = replaced(t, "vostok::math::float4"@, "float4"@);
    let t = replaced(t, "vostok::math::float4x4"@, "float4x4"@);
    t
}

/// One way of setting spaces around brackets, commas and pointers.
pub open spec fn spaced(s: Seq<char>) -> Seq<char> {
    let t = replaced(s, ", "@, ","@);
    let t = replaced(t, ","@, ", "@);
    let t = replaced(t, "<"@, "< "@);
    let t = replaced(t, " >"@, ">"@);
    let t = replaced(t, ">"@, " >"@);
    let t = replaced(t, " &"@, "&"@);
    let t = replaced(t, " *"@, "*"@);
    let t = replaced(t, "("@, "( "@);
    let t = replaced(t, ")"@, " )"@);
    let t = replaced(t, "(  )"@, "()"@);
    t
}

/// A type's name as it is written in source code.
pub open spec fn source_name(ty: Seq<char>) -> Seq<char> {
    let named = match templates_named(ty) {
        Some(t) => t,
        None => ty,
    };
    spaced(named_engine_types(named_libraries(named_primitives(named))))
}

/// `s` without any occurrence of `p`.
pub open spec fn without(s: Seq<char>, p: Option<Seq<char>>) -> Seq<char> {
    match p {
        Some(x) => replaced(s, x, ""@),
        None => s,
    }
}

/// A type's name as it is written inside a namespace.
pub open spec fn name_within(ty: Seq<char>, ns: NamespaceModel) -> Seq<char> {
    let a = without(source_name(ty), ns.subclass_prefix());
    let b = without(a, ns.class_prefix());
    let c = without(b, ns.root_prefix());
    if ns.root == Some("survarium"@) {
        replaced(c, "vostok::"@, ""@)
    } else {
        c
    }
}

fn name_named_primitives(s: &str) -> (r: String)
    ensures
        r@ == named_primitives(s@),
{
    let t: String = replace(s, "stlp_std", "std");
    let t: String = replace(t.as_str(), "char const*", "pcstr");
    let t: String = replace(t.as_str(), "char const *", "pcstr");
    let t: String = replace(t.as_str(), "void const*", "pcvoid");
    let t: String = replace(t.as_str(), "void const *", "pcvoid");
    let t: String = replace(t.as_str(), "u8 const *", "pcbyte");
    let t: String = replace(t.as_str(), "u8 const*", "pcbyte");
    let t: String = replace(t.as_str(), "u8 *", "pbyte");
    let t: String = replace(t.as_str(), "u8*", "pbyte");
    let t: String = replace(t.as_str(), "unsigned int", "u32");
    let t: String = replace(t.as_str(), "unsigned short", "u16");
    let t: String = replace(t.as_str(), "unsigned char", "u8");
    t
}

fn name_named_libraries(s: &str) -> (r: String)
    ensures
        r@ == named_libraries(s@),
{
    let t: String = replace(s, "boost::asio::basic_stream_socket<boost::asio::ip::tcp,boost::asio::stream_socket_service<boost::asio::ip::tcp> >", "boost::asio::ip::tcp::socket");
    let t: String = replace(t.as_str(), "boost::asio::ip::basic_endpoint<boost::asio::ip::tcp>", "boost::asio::ip::tcp::endpoint");
    let t: String = replace(t.as_str(), "boost::asio::ip::basic_resolver<boost::asio::ip::tcp,boost::asio::ip::resolver_service<boost::asio::ip::tcp> >", "boost::asio::ip::tcp::resolver");
    let t: String = replace(t.as_str(), "boost::asio::ip::basic_resolver_iterator<boost::asio::ip::tcp>", "boost::asio::ip::tcp::resolver::iterator");
    let t: String = replace(t.as_str(), "boost::asio::ip::basic_resolver_query<boost::asio::ip::tcp>", "boost::asio::ip::tcp::resolver::query");
    let t: String = replace(t.as_str(), "boost::asio::basic_datagram_socket<boost::asio::ip::udp,boost::asio::datagram_socket_service<boost::asio::ip::udp> >", "boost::asio::ip::udp::socket");
    let t: String = replace(t.as_str(), "boost::asio::ip::basic_endpoint<boost::asio::ip::udp>", "boost::asio::ip::udp::endpoint");
    let t: String = replace(t.as_str(), "boost::asio::basic_streambuf<std::allocator<char> >", "boost::asio::streambuf");
    let t: String = replace(t.as_str(), "boost::noncopyable_::noncopyable", "boost::noncopyable");
    let t: String = replace(t.as_str(), "std::basic_string<char,std::char_traits<char>,std::allocator<char> >", "std::string");
    let t: String = replace(t.as_str(), "std::basic_ostream<char,std::char_traits<char> >", "std::ostream");
    let t: String = replace(t.as_str(), "std::basic_istream<char,std::char_traits<char> >", "std::istream");
    t
}

fn name_named_engine_types(s: &str) -> (r: String)
    ensures
        r@ == named_engine_types(s@),
{
    let t: String = replace(s, " __cdecl(void)", "()");
    let t: String = replace(t.as_str(), " __cdecl", "");
    let t: String = replace(t.as_str(), "vostok::math::float2", "float2");
    let t: String = replace(t.as_str(), "vostok::math::float3", "float3");
    let t: String = replace(t.as_str(), "vostok::math::float4", "float4");
    let t: String = replace(t.as_str(), "vostok::math::float4x4", "float4x4");
    t
}

fn name_spaced(s: &str) -> (r: String)
    ensures
        r@ == spaced(s@),
{
    let t: String = replace(s, ", ", ",");
    let t: String = replace(t.as_str(), ",", ", ");
    let t: String = replace(t.as_str(), "<", "< ");
    let t: String = replace(t.as_str(), " >", ">");
    let t: String = replace(t.as_str(), ">", " >");
    let t: String = replace(t.as_str(), " &", "&");
    let t: String = replace(t.as_str(), " *", "*");
    let t: String = replace(t.as_str(), "(", "( ");
    let t: String = replace(t.as_str(), ")", " )");
    let t: String = replace(t.as_str(), "(  )", "()");
    t
}

/// A type's name as it is written in source code.
#[derive(Debug)]
pub struct Type(pub String);

impl View for Type {
    type V = Seq<char>;

    open spec fn view(&self) -> Seq<char> {
        self.0@
    }
}

fn remove_all(s: String, p: &Option<String>) -> (r: String)
    ensures
        r@ == without(s@, opt(*p)),
{
    match p {
        Some(x) => replace(s.as_str(), x.as_str(), ""),
        None => s,
    }
}

impl Type {
    /// The name of `ty` as it is written inside a namespace.
    pub fn new(ty: &str, namespace: &Namespace) -> (r: Type)
        requires
            can_name_templates(ty@),
        ensures
            r@ == name_within(ty@, namespace@),
    {
        let mut t: String = Type::new_impl(ty);
        t = remove_all(t, &namespace.subclass_prefix());
        t = remove_all(t, &namespace.class_prefix());
        t = remove_all(t, &namespace.root_prefix());
        if let Some(root) = &namespace.root {
            if same(root.as_str(), "survarium") {
                t = replace(t.as_str(), "vostok::", "");
            }
        }
        Type(t)
    }

    /// The name of `ty` as it is written outside all namespaces.
    pub fn new_forward_declare(ty: &str) -> (r: Type)
        requires
            can_name_templates(ty@),
        ensures
            r@ == source_name(ty@),
    {
        Type(Type::new_impl(ty))
    }

    fn new_impl(ty: &str) -> (r: String)
        requires
            can_name_templates(ty@),
        ensures
            r@ == source_name(ty@),
    {
        let named: String = match typedef_template(ty) {
            Some(t) => t,
            None => owned(ty),
        };
        let a: String = name_named_primitives(named.as_str());
        let b: String = name_named_libraries(a.as_str());
        let c: String = name_named_engine_types(b.as_str());
        name_spaced(c.as_str())
    }

    /// How many bytes the name has.
    pub fn len(&self) -> (n: usize)
        ensures
            n == byte_len(self@),
    {
        len_bytes(self.0.as_str())
    }

    /// The same name once more.
    pub fn copy(&self) -> (r: Type)
        ensures
            r@ == self@,
    {
        Type(self.0.clone())
    }
}

/// Outside all namespaces a name is the same as inside none.
pub proof fn lemma_name_within_none(ty: Seq<char>)
    ensures
        name_within(ty, NamespaceModel::none()) == source_name(ty),
{
}

/// A type without templates of pointers, lists and vectors can always be named.
pub proof fn lemma_plain_types_can_be_named(ty: Seq<char>)
    requires
        !contains(ty, "vostok::resources::resource_ptr<"@),
        !contains(ty, "vostok::intrusive_ptr<"@),
        !contains(ty, "vostok::intrusive_list<"@),
        !starts_with(ty, "stlp_std::vector<"@),
    ensures
        can_name_templates(ty),
        templates_named(ty) is None,
{
    crate::search::lemma_contains(ty, "vostok::resources::resource_ptr<"@);
    crate::search::lemma_contains(ty, "vostok::intrusive_ptr<"@);
    crate::search::lemma_contains(ty, "vostok::intrusive_list<"@);
}

} // verus!
