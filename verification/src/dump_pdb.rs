//! The solution and the project that list what was made.

use crate::files::{Files, Folder};
use crate::guid::{guid_text, guid_upper, guid_value, is_drawn, lemma_guid_text, new_guid,
    parse_guid};
use crate::number::{push_repeated, repeated};
use crate::pieces::{cat2, cat3, cat7, cat8, cat9};
use crate::search::{begins, ends, ends_with, index_of, lemma_index_of, matches_at, pieces,
    pieces_from, replace, replaced, split, starts_with};
use crate::source_function::GenFlags;
use crate::text::{chars_of, lowercase, owned, same, text_of, texts, to_lowercase};
use vstd::prelude::*;
use vstd::string::StringExecFns;

verus! {

// ---------------------------------------------------------------------------
// The project
// ---------------------------------------------------------------------------

/// The beginning of a project.
pub open spec fn project_header(guid: u128, name: Seq<char>) -> Seq<char> {
    "<?xml version=\"1.0\" encoding=\"Windows-1252\"?>\n<VisualStudioProject\n\tProjectType=\"Visual C++\"\n\tVersion=\"9.00\"\n\tName=\""@
        + name + "\"\n\tProjectGUID=\"{"@ + guid_text(guid) + "}\"\n\tRootNamespace=\""@ + name
        + "\"\n\tTargetFrameworkVersion=\"196613\"\n\t>\n\t<Platforms>\n\t\t<Platform\n\t\t\tName=\"Win32\"\n\t\t/>\n\t</Platforms>\n\t<ToolFiles>\n\t</ToolFiles>\n\t<Configurations>\n\t\t<Configuration\n\t\t\tName=\"Debug|Win32\"\n\t\t\tOutputDirectory=\"$(SolutionDir)$(ConfigurationName)\"\n\t\t\tIntermediateDirectory=\"$(ConfigurationName)\"\n\t\t\tConfigurationType=\"1\"\n\t\t\tCharacterSet=\"2\"\n\t\t\t>\n\t\t</Configuration>\n\t</Configurations>\n\t<References>\n\t</References>\n\t<Files>\n"@
}

/// The beginning of a project.
pub fn generate_project_header(vcproj_guid: u128, name: &str) -> (r: String)
    ensures
        r@ == project_header(vcproj_guid, name@),
{
    cat7(
        "<?xml version=\"1.0\" encoding=\"Windows-1252\"?>\n<VisualStudioProject\n\tProjectType=\"Visual C++\"\n\tVersion=\"9.00\"\n\tName=\"",
        name,
        "\"\n\tProjectGUID=\"{",
        guid_upper(vcproj_guid).as_str(),
        "}\"\n\tRootNamespace=\"",
        name,
        "\"\n\tTargetFrameworkVersion=\"196613\"\n\t>\n\t<Platforms>\n\t\t<Platform\n\t\t\tName=\"Win32\"\n\t\t/>\n\t</Platforms>\n\t<ToolFiles>\n\t</ToolFiles>\n\t<Configurations>\n\t\t<Configuration\n\t\t\tName=\"Debug|Win32\"\n\t\t\tOutputDirectory=\"$(SolutionDir)$(ConfigurationName)\"\n\t\t\tIntermediateDirectory=\"$(ConfigurationName)\"\n\t\t\tConfigurationType=\"1\"\n\t\t\tCharacterSet=\"2\"\n\t\t\t>\n\t\t</Configuration>\n\t</Configurations>\n\t<References>\n\t</References>\n\t<Files>\n",
    )
}

/// The end of a project.
pub open spec fn project_footer() -> Seq<char> {
    "\n\t</Files>\n\t<Globals>\n\t</Globals>\n</VisualStudioProject>\n"@
}

/// The end of a project.
pub fn generate_project_footer() -> (r: String)
    ensures
        r@ == project_footer(),
{
    owned("\n\t</Files>\n\t<Globals>\n\t</Globals>\n</VisualStudioProject>\n")
}

/// The lines of the first `n` files, behind `tabs`.
pub open spec fn file_entries(files: Seq<Seq<char>>, tabs: Seq<char>, n: int) -> Seq<char>
    decreases n,
{
    if n <= 0 {
        ""@
    } else {
        file_entries(files, tabs, n - 1) + (tabs + "<File\n"@ + tabs + "\tRelativePath=\".\\"@
            + files[n - 1] + "\"\n"@ + tabs + "\t>\n"@ + tabs + "</File>\n"@)
    }
}

/// The lines of the first `n` folders with what is in them, behind `tabs`. The headers of
/// other projects are left out.
pub open spec fn folder_entries(f: Files, tabs: Seq<char>, n: int) -> Seq<char>
    decreases f, n,
{
    if n <= 0 || n > f.folders@.len() {
        ""@
    } else {
        let folder = f.folders@[n - 1];
        let before = folder_entries(f, tabs, n - 1);
        if tabs == "\t\t\t"@ && folder.name@ == "others"@ {
            before
        } else {
            before + (tabs + "<Filter\n"@ + tabs + "\tName=\""@ + folder.name@ + "\"\n"@ + tabs
                + "\t>\n"@) + filters(folder.content, tabs + "\t"@) + (tabs + "</Filter>\n"@)
        }
    }
}

/// The lines of the folders and files, behind `tabs`.
pub open spec fn filters(f: Files, tabs: Seq<char>) -> Seq<char>
    decreases f, f.folders@.len() + 1,
{
    folder_entries(f, tabs, f.folders@.len() as int) + file_entries(
        texts(f.files@),
        tabs,
        f.files@.len() as int,
    )
}

fn files_text(files: &Vec<String>, tabs: &str) -> (r: String)
    ensures
        r@ == file_entries(texts(files@), tabs@, files@.len() as int),
{
    let mut out: String = owned("");
    let mut i: usize = 0;
    while i < files.len()
        invariant
            i <= files@.len(),
            out@ == file_entries(texts(files@), tabs@, i as int),
        decreases files.len() - i,
    {
        let one: String = cat9(
            tabs,
            "<File\n",
            tabs,
            "\tRelativePath=\".\\",
            files[i].as_str(),
            "\"\n",
            tabs,
            "\t>\n",
            cat2(tabs, "</File>\n").as_str(),
        );
        let ghost x = files@[i as int]@;
        assert(one@ =~= tabs@ + "<File\n"@ + tabs@ + "\tRelativePath=\".\\"@ + x + "\"\n"@ + tabs@
            + "\t>\n"@ + tabs@ + "</File>\n"@);
        assert(texts(files@)[i as int] == x);
        out.append(one.as_str());
        i = i + 1;
    }
    out
}

fn filters_text(f: &Files, tabs: &str) -> (r: String)
    ensures
        r@ == filters(*f, tabs@),
    decreases f,
{
    let mut out: String = owned("");
    let deeper: String = cat2(tabs, "\t");
    let mut i: usize = 0;
    while i < f.folders.len()
        invariant
            i <= f.folders@.len(),
            deeper@ == tabs@ + "\t"@,
            out@ == folder_entries(*f, tabs@, i as int),
        decreases f.folders.len() - i,
    {
        let folder: &Folder = &f.folders[i];
        if !(same(tabs, "\t\t\t") && same(folder.name.as_str(), "others")) {
            let head: String = cat8(
                tabs,
                "<Filter\n",
                tabs,
                "\tName=\"",
                folder.name.as_str(),
                "\"\n",
                tabs,
                "\t>\n",
            );
            assert(decreases_to!(f => f.folders));
            assert(decreases_to!(f.folders => f.folders@));
            assert(decreases_to!(f.folders@ => f.folders@[i as int]));
            assert(decreases_to!(f.folders@[i as int] => f.folders@[i as int].content));
            let body: String = filters_text(&folder.content, deeper.as_str());
            let tail: String = cat2(tabs, "</Filter>\n");
            out.append(head.as_str());
            out.append(body.as_str());
            out.append(tail.as_str());
        }
        i = i + 1;
    }
    let files: String = files_text(&f.files, tabs);
    out.append(files.as_str());
    out
}

/// Writes the folders and files, `depth` tabs deep.
pub fn generate_project_filters_impl(files: &Files, writer: &mut String, depth: usize)
    ensures
        final(writer)@ == old(writer)@ + filters(*files, repeated('\t', depth as int)),
{
    let mut tabs: String = String::new();
    write_tabs(&mut tabs, depth);
    assert(tabs@ =~= repeated('\t', depth as int));
    let text: String = filters_text(files, tabs.as_str());
    writer.append(text.as_str());
}

/// Writes the folders and files of a project.
pub fn generate_project_filters(files: &Files, writer: &mut String)
    ensures
        final(writer)@ == old(writer)@ + filters(*files, repeated('\t', 2)),
{
    generate_project_filters_impl(files, writer, 2);
}

/// Writes some tabs.
pub fn write_tabs(writer: &mut String, depth: usize)
    ensures
        final(writer)@ == old(writer)@ + repeated('\t', depth as int),
{
    push_repeated(writer, '\t', depth);
}

/// A project.
pub open spec fn project_text(guid: u128, name: Seq<char>, files: Files) -> Seq<char> {
    project_header(guid, name) + filters(files, repeated('\t', 2)) + project_footer()
}

/// A project.
pub fn generate_vcproj(vcproj_guid: u128, name: &str, files: &Files) -> (r: String)
    ensures
        r@ == project_text(vcproj_guid, name@, *files),
{
    let mut text: String = generate_project_header(vcproj_guid, name);
    generate_project_filters(files, &mut text);
    let footer: String = generate_project_footer();
    text.append(footer.as_str());
    text
}

// ---------------------------------------------------------------------------
// The solution
// ---------------------------------------------------------------------------

/// The line of a solution that names its project.
pub open spec fn project_line(sln: u128, vcproj: u128, name: Seq<char>) -> Seq<char> {
    "Project(\"{"@ + guid_text(sln) + "}\") = \""@ + name + "\", \""@ + name + ".vcproj\", \"{"@
        + guid_text(vcproj) + "}\""@
}

/// A solution with one project.
pub open spec fn solution_source(sln: u128, vcproj: u128, name: Seq<char>) -> Seq<char> {
    "\nMicrosoft Visual Studio Solution File, Format Version 10.00\n# Visual Studio 2008\n"@
        + project_line(sln, vcproj, name)
        + "\nEndProject\nGlobal\n\tGlobalSection(SolutionConfigurationPlatforms) = preSolution\n\tEndGlobalSection\n\tGlobalSection(ProjectConfigurationPlatforms) = postSolution\n\tEndGlobalSection\n\tGlobalSection(SolutionProperties) = preSolution\n\t\tHideSolutionNode = FALSE\n\tEndGlobalSection\nEndGlobal\n"@
}

/// A solution with one project.
pub fn generate_solution_source(sln_guid: u128, vcproj_guid: u128, name: &str) -> (r: String)
    ensures
        r@ == solution_source(sln_guid, vcproj_guid, name@),
{
    let line: String = cat9(
        "Project(\"{",
        guid_upper(sln_guid).as_str(),
        "}\") = \"",
        name,
        "\", \"",
        name,
        ".vcproj\", \"{",
        guid_upper(vcproj_guid).as_str(),
        "}\"",
    );
    cat3(
        "\nMicrosoft Visual Studio Solution File, Format Version 10.00\n# Visual Studio 2008\n",
        line.as_str(),
        "\nEndProject\nGlobal\n\tGlobalSection(SolutionConfigurationPlatforms) = preSolution\n\tEndGlobalSection\n\tGlobalSection(ProjectConfigurationPlatforms) = postSolution\n\tEndGlobalSection\n\tGlobalSection(SolutionProperties) = preSolution\n\t\tHideSolutionNode = FALSE\n\tEndGlobalSection\nEndGlobal\n",
    )
}

/// Why a solution cannot be used.
#[derive(Clone, Copy, PartialEq, Eq, Debug, Structural)]
pub enum SolutionError {
    /// There is no project in braces, or the braces do not match.
    Corrupted,
    /// What stands in the braces is no identifier.
    Guid,
}

/// The last brace among the first `n` characters.
pub open spec fn last_brace(s: Seq<char>, n: int) -> Option<int>
    decreases n,
{
    if n <= 0 {
        None
    } else if s[n - 1] == '{' || s[n - 1] == '}' {
        Some(n - 1)
    } else {
        last_brace(s, n - 1)
    }
}

/// What the last braces of a line hold: nothing where there are none, and an error where
/// they do not match.
pub open spec fn in_braces(line: Seq<char>) -> Result<Option<Seq<char>>, SolutionError> {
    match last_brace(line, line.len() as int) {
        None => Ok(None),
        Some(j) => if line[j] == '{' {
            Err(SolutionError::Corrupted)
        } else {
            match last_brace(line, j) {
                None => Ok(None),
                Some(i) => if line[i] == '}' {
                    Err(SolutionError::Corrupted)
                } else {
                    Ok(Some(line.subrange(i + 1, j)))
                },
            }
        },
    }
}

/// The identifier of the first project that the lines from `i` on name.
pub open spec fn guid_from(lines: Seq<Seq<char>>, i: int) -> Result<nat, SolutionError>
    decreases lines.len() - i,
{
    if i < 0 || i >= lines.len() {
        Err(SolutionError::Corrupted)
    } else if !starts_with(lines[i], "Project("@) {
        guid_from(lines, i + 1)
    } else {
        match in_braces(lines[i]) {
            Err(e) => Err(e),
            Ok(None) => guid_from(lines, i + 1),
            Ok(Some(text)) => match guid_value(text) {
                Some(x) => Ok(x),
                None => Err(SolutionError::Guid),
            },
        }
    }
}

/// The identifier of the project that a solution names.
pub open spec fn solution_guid(text: Seq<char>) -> Result<nat, SolutionError> {
    guid_from(pieces(text, "\n"@), 0)
}

fn find_brace(v: &Vec<char>, n: usize) -> (r: Option<usize>)
    requires
        n <= v@.len(),
    ensures
        match r {
            Some(i) => last_brace(v@, n as int) == Some(i as int) && i < n,
            None => last_brace(v@, n as int) is None,
        },
{
    let mut k: usize = n;
    while k > 0
        invariant
            k <= n <= v@.len(),
            last_brace(v@, n as int) == last_brace(v@, k as int),
        decreases k,
    {
        if v[k - 1] == '{' || v[k - 1] == '}' {
            return Some(k - 1);
        }
        k = k - 1;
    }
    None
}

fn braced_text(line: &str) -> (r: Result<Option<String>, SolutionError>)
    ensures
        match r {
            Ok(Some(s)) => in_braces(line@) == Ok::<Option<Seq<char>>, SolutionError>(Some(s@)),
            Ok(None) => in_braces(line@) == Ok::<Option<Seq<char>>, SolutionError>(None),
            Err(e) => in_braces(line@) == Err::<Option<Seq<char>>, SolutionError>(e),
        },
{
    let v: Vec<char> = chars_of(line);
    match find_brace(&v, v.len()) {
        None => Ok(None),
        Some(j) => {
            if v[j] == '{' {
                return Err(SolutionError::Corrupted);
            }
            match find_brace(&v, j) {
                None => Ok(None),
                Some(i) => {
                    if v[i] == '}' {
                        return Err(SolutionError::Corrupted);
                    }
                    Ok(Some(text_of(&v, i + 1, j)))
                },
            }
        },
    }
}

/// The identifier of the project that a solution names.
pub fn read_solution_guid(text: &str) -> (r: Result<u128, SolutionError>)
    ensures
        match r {
            Ok(x) => solution_guid(text@) == Ok::<nat, SolutionError>(x as nat),
            Err(e) => solution_guid(text@) == Err::<nat, SolutionError>(e),
        },
{
    let lines: Vec<String> = split(text, "\n");
    let ghost all = texts(lines@);
    let mut i: usize = 0;
    while i < lines.len()
        invariant
            all == texts(lines@),
            i <= lines@.len(),
            solution_guid(text@) == guid_from(all, i as int),
        decreases lines.len() - i,
    {
        assert(all[i as int] == lines@[i as int]@);
        if begins(lines[i].as_str(), "Project(") {
            match braced_text(lines[i].as_str()) {
                Err(e) => {
                    return Err(e);
                },
                Ok(None) => {},
                Ok(Some(s)) => {
                    return match parse_guid(s.as_str()) {
                        Some(x) => Ok(x),
                        None => Err(SolutionError::Guid),
                    };
                },
            }
        }
        i = i + 1;
    }
    Err(SolutionError::Corrupted)
}

/// A solution: the identifier of its project, and its text where it is new.
pub struct Solution {
    pub vcproj_guid: u128,
    pub text: Option<String>,
}

/// The solution that stands there already, or a new one.
pub fn generate_sln(existing: Option<&str>, name: &str) -> (r: Result<Solution, SolutionError>)
    ensures
        match existing {
            Some(text) => match r {
                Ok(s) => s.text is None && solution_guid(text@) == Ok::<nat, SolutionError>(
                    s.vcproj_guid as nat,
                ),
                Err(e) => solution_guid(text@) == Err::<nat, SolutionError>(e),
            },
            None => r is Ok && r->Ok_0.text is Some && is_drawn(r->Ok_0.vcproj_guid) && exists|
                sln: u128,
            |
                is_drawn(sln) && r->Ok_0.text->0@ == #[trigger] solution_source(
                    sln,
                    r->Ok_0.vcproj_guid,
                    name@,
                ),
        },
{
    match existing {
        Some(text) => match read_solution_guid(text) {
            Ok(x) => Ok(Solution { vcproj_guid: x, text: None }),
            Err(e) => Err(e),
        },
        None => {
            let sln: u128 = new_guid();
            let vcproj: u128 = new_guid();
            let text: String = generate_solution_source(sln, vcproj, name);
            let s: Solution = Solution { vcproj_guid: vcproj, text: Some(text) };
            assert(s.text->0@ == solution_source(sln, s.vcproj_guid, name@));
            Ok(s)
        },
    }
}

/// The name of the solution.
pub open spec fn solution_name(flags: GenFlags) -> Seq<char> {
    if flags.as_base {
        "xray_structure"@
    } else {
        "vostok_structure"@
    }
}

/// The files of a solution.
pub struct SolutionFiles {
    pub name: String,
    pub solution: Solution,
    pub project: String,
}

/// The solution and its project.
pub fn generate_vs_solution(existing: Option<&str>, flags: GenFlags, files: &Files) -> (r: Result<
    SolutionFiles,
    SolutionError,
>)
    ensures
        match r {
            Ok(s) => {
                &&& s.name@ == solution_name(flags)
                &&& s.project@ == project_text(s.solution.vcproj_guid, s.name@, *files)
                &&& match existing {
                    Some(text) => s.solution.text is None && solution_guid(text@) == Ok::<
                        nat,
                        SolutionError,
                    >(s.solution.vcproj_guid as nat),
                    None => s.solution.text is Some && is_drawn(s.solution.vcproj_guid) && exists|
                        sln: u128,
                    |
                        is_drawn(sln) && s.solution.text->0@ == #[trigger] solution_source(
                            sln,
                            s.solution.vcproj_guid,
                            s.name@,
                        ),
                }
            },
            Err(e) => existing is Some && solution_guid(existing->0@) == Err::<nat, SolutionError>(
                e,
            ),
        },
{
    let name: String = name_of_solution(flags);
    match generate_sln(existing, name.as_str()) {
        Err(e) => Err(e),
        Ok(solution) => {
            let project: String = generate_vcproj(solution.vcproj_guid, name.as_str(), files);
            Ok(SolutionFiles { name, solution, project })
        },
    }
}

/// The name of the solution that the flags ask for.
pub fn name_of_solution(flags: GenFlags) -> (r: String)
    ensures
        r@ == solution_name(flags),
{
    if flags.as_base {
        owned("xray_structure")
    } else {
        owned("vostok_structure")
    }
}

// ---------------------------------------------------------------------------
// What was written is read back
// ---------------------------------------------------------------------------

proof fn lemma_index_shift(a: Seq<char>, b: Seq<char>, sep: Seq<char>, i: int)
    requires
        0 <= i,
    ensures
        index_of(a + b, sep, a.len() + i) == match index_of(b, sep, i) {
            Some(k) => Some(a.len() + k),
            None => None,
        },
    decreases b.len() - i + 1,
{
    let s = a + b;
    if i + sep.len() <= b.len() {
        assert(s.subrange(a.len() + i, a.len() + i + sep.len()) =~= b.subrange(i, i + sep.len()));
        if !matches_at(b, sep, i) {
            lemma_index_shift(a, b, sep, i + 1);
        }
    }
}

proof fn lemma_pieces_shift(a: Seq<char>, b: Seq<char>, sep: Seq<char>, i: int)
    requires
        0 <= i <= b.len(),
    ensures
        pieces_from(a + b, sep, a.len() + i) == pieces_from(b, sep, i),
    decreases b.len() - i,
{
    let s = a + b;
    lemma_index_shift(a, b, sep, i);
    lemma_index_of(b, sep, i);
    assert(s.skip(a.len() + i) =~= b.skip(i));
    match index_of(b, sep, i) {
        Some(k) => {
            assert(s.subrange(a.len() + i, a.len() + k) =~= b.subrange(i, k));
            if sep.len() > 0 {
                lemma_pieces_shift(a, b, sep, k + sep.len());
            }
        },
        None => {},
    }
}

/// Whether none of the first `n` characters ends a line.
pub open spec fn unbroken(s: Seq<char>, n: int) -> bool
    decreases n,
{
    n <= 0 || (unbroken(s, n - 1) && s[n - 1] != '\n')
}

proof fn lemma_unbroken(s: Seq<char>, n: int, i: int)
    requires
        unbroken(s, n),
        0 <= i < n,
    ensures
        s[i] != '\n',
    decreases n,
{
    if i < n - 1 {
        lemma_unbroken(s, n - 1, i);
    }
}

/// The first line of a text is the first of its pieces.
proof fn lemma_first_line(a: Seq<char>, b: Seq<char>)
    requires
        forall|i: int| 0 <= i < a.len() ==> a[i] != '\n',
    ensures
        pieces(a + "\n"@ + b, "\n"@) == seq![a] + pieces(b, "\n"@),
{
    reveal_strlit("\n");
    let sep = "\n"@;
    let s = a + sep + b;
    lemma_index_of(s, sep, 0);
    assert(s.subrange(a.len() as int, a.len() as int + 1) =~= sep);
    assert(matches_at(s, sep, a.len() as int));
    assert forall|i: int| 0 <= i < a.len() implies !matches_at(s, sep, i) by {
        assert(s.subrange(i, i + 1)[0] == a[i]);
    }
    assert(index_of(s, sep, 0) == Some(a.len() as int));
    assert(s.subrange(0, a.len() as int) =~= a);
    lemma_pieces_shift(a + sep, b, sep, 0);
    assert((a + sep).len() + 0 == a.len() + 1);
}

proof fn lemma_last_brace(s: Seq<char>, n: int, k: int)
    requires
        0 <= k < n <= s.len(),
        s[k] == '{' || s[k] == '}',
        forall|i: int| k < i < n ==> s[i] != '{' && s[i] != '}',
    ensures
        last_brace(s, n) == Some(k),
    decreases n,
{
    if n - 1 > k {
        lemma_last_brace(s, n - 1, k);
    }
}

/// The last braces of a solution's project line hold the identifier of its project.
proof fn lemma_project_line(sln: u128, vcproj: u128, name: Seq<char>)
    ensures
        starts_with(project_line(sln, vcproj, name), "Project("@),
        in_braces(project_line(sln, vcproj, name)) == Ok::<Option<Seq<char>>, SolutionError>(
            Some(guid_text(vcproj)),
        ),
        forall|i: int|
            0 <= i < project_line(sln, vcproj, name).len() && (forall|k: int|
                0 <= k < name.len() ==> name[k] != '\n') ==> #[trigger] project_line(
                sln,
                vcproj,
                name,
            )[i] != '\n',
{
    reveal_strlit("Project(\"{");
    reveal_strlit("Project(");
    reveal_strlit("}\") = \"");
    reveal_strlit("\", \"");
    reveal_strlit(".vcproj\", \"{");
    reveal_strlit("}\"");
    lemma_guid_text(sln);
    lemma_guid_text(vcproj);
    let line = project_line(sln, vcproj, name);
    let g = guid_text(vcproj);
    let head = "Project(\"{"@ + guid_text(sln) + "}\") = \""@ + name + "\", \""@ + name
        + ".vcproj\", \"{"@;
    assert(line =~= head + g + "}\""@);
    assert(line.take(8) =~= "Project("@);
    let n = line.len() as int;
    assert(n == head.len() + 38);
    let j = n - 2;
    assert(line[j] == '}');
    assert(line[n - 1] == '"');
    lemma_last_brace(line, n, j);
    let i = head.len() - 1;
    assert(line[i] == '{');
    assert forall|k: int| i < k < j implies line[k] != '{' && line[k] != '}' by {
        assert(line[k] == g[k - head.len()]);
    }
    lemma_last_brace(line, j, i);
    assert(line.subrange(i + 1, j) =~= g);
    if forall|k: int| 0 <= k < name.len() ==> name[k] != '\n' {
        let p1 = "Project(\"{"@;
        let p2 = p1 + guid_text(sln);
        let p3 = p2 + "}\") = \""@;
        let p4 = p3 + name;
        let p5 = p4 + "\", \""@;
        let p6 = p5 + name;
        assert(forall|k: int| 0 <= k < p1.len() ==> p1[k] != '\n');
        assert(forall|k: int| 0 <= k < p2.len() ==> p2[k] != '\n');
        assert(forall|k: int| 0 <= k < p3.len() ==> p3[k] != '\n');
        assert(forall|k: int| 0 <= k < p4.len() ==> p4[k] != '\n');
        assert(forall|k: int| 0 <= k < p5.len() ==> p5[k] != '\n');
        assert(forall|k: int| 0 <= k < p6.len() ==> p6[k] != '\n');
        assert(head =~= p6 + ".vcproj\", \"{"@);
        assert(forall|k: int| 0 <= k < head.len() ==> head[k] != '\n');
        assert forall|k: int| 0 <= k < line.len() implies #[trigger] line[k] != '\n' by {
            if k < head.len() {
                assert(line[k] == head[k]);
            } else if k < head.len() + 36 {
                assert(line[k] == g[k - head.len()]);
            }
        }
    }
}

/// A solution that was written gives its project's identifier back, where the name of the
/// project is on one line.
pub proof fn lemma_solution_is_read_back(sln: u128, vcproj: u128, name: Seq<char>)
    requires
        forall|i: int| 0 <= i < name.len() ==> name[i] != '\n',
    ensures
        solution_guid(solution_source(sln, vcproj, name)) == Ok::<nat, SolutionError>(
            vcproj as nat,
        ),
{
    let text = solution_source(sln, vcproj, name);
    let line = project_line(sln, vcproj, name);
    let l1 = "Microsoft Visual Studio Solution File, Format Version 10.00"@;
    let l2 = "# Visual Studio 2008"@;
    let l4 =
        "EndProject\nGlobal\n\tGlobalSection(SolutionConfigurationPlatforms) = preSolution\n\tEndGlobalSection\n\tGlobalSection(ProjectConfigurationPlatforms) = postSolution\n\tEndGlobalSection\n\tGlobalSection(SolutionProperties) = preSolution\n\t\tHideSolutionNode = FALSE\n\tEndGlobalSection\nEndGlobal\n"@;
    let head =
        "\nMicrosoft Visual Studio Solution File, Format Version 10.00\n# Visual Studio 2008\n"@;
    let tail =
        "\nEndProject\nGlobal\n\tGlobalSection(SolutionConfigurationPlatforms) = preSolution\n\tEndGlobalSection\n\tGlobalSection(ProjectConfigurationPlatforms) = postSolution\n\tEndGlobalSection\n\tGlobalSection(SolutionProperties) = preSolution\n\t\tHideSolutionNode = FALSE\n\tEndGlobalSection\nEndGlobal\n"@;
    let br = "\n"@;
    let none = Seq::<char>::empty();
    lemma_head_is_three_lines();
    let rest = tail.skip(1);
    lemma_tail_begins_with_break();
    lemma_project_line(sln, vcproj, name);
    assert(tail =~= br + rest);
    assert(text =~= none + br + (l1 + br + (l2 + br + (line + br + rest))));
    lemma_first_line(line, rest);
    lemma_first_line(l2, line + br + rest);
    lemma_first_line(l1, l2 + br + (line + br + rest));
    lemma_first_line(none, l1 + br + (l2 + br + (line + br + rest)));
    let p = pieces(text, br);
    let p3 = pieces(line + br + rest, br);
    assert(p =~= seq![none] + (seq![l1] + (seq![l2] + p3)));
    assert(p3[0] == line);
    assert(p[0] == none && p[1] == l1 && p[2] == l2 && p[3] == line);
    reveal_strlit("Project(");
    reveal_strlit("# Visual Studio 2008");
    reveal_strlit("Microsoft Visual Studio Solution File, Format Version 10.00");
    assert(!starts_with(none, "Project("@));
    assert(l1.take(8)[0] == 'M');
    assert("Project("@[0] == 'P');
    assert(!starts_with(l1, "Project("@));
    assert(l2.take(8)[0] == '#');
    assert(!starts_with(l2, "Project("@));
    lemma_guid_text(vcproj);
    reveal_with_fuel(guid_from, 5);
}

proof fn lemma_head_is_three_lines()
    ensures
        "\nMicrosoft Visual Studio Solution File, Format Version 10.00\n# Visual Studio 2008\n"@
            == Seq::<char>::empty() + "\n"@
            + "Microsoft Visual Studio Solution File, Format Version 10.00"@ + "\n"@
            + "# Visual Studio 2008"@ + "\n"@,
        forall|i: int|
            0 <= i < "Microsoft Visual Studio Solution File, Format Version 10.00"@.len()
                ==> #[trigger] "Microsoft Visual Studio Solution File, Format Version 10.00"@[i]
                != '\n',
        forall|i: int|
            0 <= i < "# Visual Studio 2008"@.len() ==> #[trigger] "# Visual Studio 2008"@[i]
                != '\n',
{
    let l1 = "Microsoft Visual Studio Solution File, Format Version 10.00"@;
    let l2 = "# Visual Studio 2008"@;
    reveal_strlit(
        "\nMicrosoft Visual Studio Solution File, Format Version 10.00\n# Visual Studio 2008\n",
    );
    reveal_strlit("Microsoft Visual Studio Solution File, Format Version 10.00");
    reveal_strlit("# Visual Studio 2008");
    reveal_strlit("\n");
    assert("\nMicrosoft Visual Studio Solution File, Format Version 10.00\n# Visual Studio 2008\n"@
        =~= Seq::<char>::empty() + "\n"@ + l1 + "\n"@ + l2 + "\n"@);
    assert(unbroken(l1, 59)) by {
        reveal_with_fuel(unbroken, 60);
    }
    assert(unbroken(l2, 20)) by {
        reveal_with_fuel(unbroken, 21);
    }
    assert forall|i: int| 0 <= i < l1.len() implies #[trigger] l1[i] != '\n' by {
        lemma_unbroken(l1, 59, i);
    }
    assert forall|i: int| 0 <= i < l2.len() implies #[trigger] l2[i] != '\n' by {
        lemma_unbroken(l2, 20, i);
    }
}

proof fn lemma_tail_begins_with_break()
    ensures
        ({
            let tail =
                "\nEndProject\nGlobal\n\tGlobalSection(SolutionConfigurationPlatforms) = preSolution\n\tEndGlobalSection\n\tGlobalSection(ProjectConfigurationPlatforms) = postSolution\n\tEndGlobalSection\n\tGlobalSection(SolutionProperties) = preSolution\n\t\tHideSolutionNode = FALSE\n\tEndGlobalSection\nEndGlobal\n"@;
            tail == "\n"@ + tail.skip(1)
        }),
{
    let tail =
        "\nEndProject\nGlobal\n\tGlobalSection(SolutionConfigurationPlatforms) = preSolution\n\tEndGlobalSection\n\tGlobalSection(ProjectConfigurationPlatforms) = postSolution\n\tEndGlobalSection\n\tGlobalSection(SolutionProperties) = preSolution\n\t\tHideSolutionNode = FALSE\n\tEndGlobalSection\nEndGlobal\n"@;
    reveal_strlit(
        "\nEndProject\nGlobal\n\tGlobalSection(SolutionConfigurationPlatforms) = preSolution\n\tEndGlobalSection\n\tGlobalSection(ProjectConfigurationPlatforms) = postSolution\n\tEndGlobalSection\n\tGlobalSection(SolutionProperties) = preSolution\n\t\tHideSolutionNode = FALSE\n\tEndGlobalSection\nEndGlobal\n",
    );
    reveal_strlit("\n");
    assert(tail =~= "\n"@ + tail.skip(1));
}

// ---------------------------------------------------------------------------
// The engine's directory
// ---------------------------------------------------------------------------

/// The engine's directory in the form in which it is compared: small letters, `\` between
/// its parts and at its end.
pub open spec fn engine_path_of(path: Seq<char>) -> Seq<char> {
    let p = replaced(lowercase(path), "/"@, "\\"@);
    if ends_with(p, "\\"@) {
        p
    } else {
        p + "\\"@
    }
}

/// The engine's directory in the form in which it is compared.
pub fn normalize_engine_path(path: &str) -> (r: String)
    ensures
        r@ == engine_path_of(path@),
{
    normalize_lowered_path(to_lowercase(path).as_str())
}

/// The engine's directory, given in small letters, in the form in which it is compared.
pub fn normalize_lowered_path(path: &str) -> (r: String)
    ensures
        r@ == ({
            let p = replaced(path@, "/"@, "\\"@);
            if ends_with(p, "\\"@) {
                p
            } else {
                p + "\\"@
            }
        }),
{
    let p: String = replace(path, "/", "\\");
    if ends(p.as_str(), "\\") {
        p
    } else {
        cat2(p.as_str(), "\\")
    }
}

} // verus!
