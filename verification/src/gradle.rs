//! What the tool reads out of Gradle build scripts: included modules, `ext`
//! variable names, applied scripts and `implementation` dependencies.

use vstd::prelude::*;

use crate::path::{join_chars, joined};
use crate::pattern::{
    group_at, group_text, groups_of_each, groups_present, lemma_group_of_each_present, lemma_map_matches_failure_extends,
    lemma_map_matches_total, map_matches, regex_captures, regex_captures_of, GroupTexts,
};
use crate::text::{
    chars_of, extend_chars, lemma_trimmed_back_drops, lemma_trimmed_front_drops, replace_chars, replaced, string_of, trim_chars,
    trimmed,
};

verus! {

/// An `apply from: "<script>"` line; group 1 is the quoted script with its leading blanks.
pub const APPLY_FROM_PATTERN: &'static str = r#"(?m)apply from:(?P<apply_gradle_script>\s*"(.*)")"#;

/// An `implementation rootProject.ext.<group>.<name>` line; groups 4 and 5 are the two names.
pub const IMPLEMENTATION_PATTERN: &'static str = r#"(?m)([Ii]mplementation|lintChecks)(\s+)\(?(rootProject|project\(rootProject).ext\.(\w+)\.(\w+)\)?"#;

/// An `ext` entry `  <name> : "<path>"`; group 1 is the name with its surrounding blanks.
pub const EXT_VARIABLE_PATTERN: &'static str = r#"(?m)(?P<gradle_variable_name>^\s+(\w+)\s*):(?P<gradle_path>\s"([\w:-]+)")"#;

/// An `include '<module>'` line; group 2 is the quoted module name.
pub const INCLUDE_PATTERN: &'static str = r#"(?m)^(?P<title>include )(?P<title2>['"]([\w:\-_]+)['"])"#;

/// The placeholder for the project directory in applied script paths.
pub const ROOT_PROJECT_DIR: &'static str = "$rootProject.projectDir";

/// The characters trimmed from script and dependency names: quotes and spaces.
pub open spec fn quote_blank() -> Seq<char> {
    seq!['\'', '"', ' ']
}

/// The characters trimmed from `ext` variable names: spaces and newlines.
pub open spec fn name_blank() -> Seq<char> {
    seq![' ', '\n']
}

fn quote_blank_chars() -> (r: Vec<char>)
    ensures
        r@ == quote_blank(),
{
    let r = vec!['\'', '"', ' '];
    assert(r@ =~= quote_blank());
    r
}

fn name_blank_chars() -> (r: Vec<char>)
    ensures
        r@ == name_blank(),
{
    let r = vec![' ', '\n'];
    assert(r@ =~= name_blank());
    r
}

/// The dependency named by one `implementation` match: `<group>/<name>`, both trimmed.
pub open spec fn dependency_of_match(m: GroupTexts) -> Option<Seq<char>> {
    match (group_text(m, 4), group_text(m, 5)) {
        (Some(a), Some(b)) => Some(trimmed(a, quote_blank()) + seq!['/'] + trimmed(b, quote_blank())),
        _ => None,
    }
}

/// The dependencies that the `implementation` lines of `content` name, in order;
/// `None` when the search cannot be made.
pub open spec fn dependencies_of(content: Seq<char>) -> Option<Seq<Seq<char>>> {
    match regex_captures_of(IMPLEMENTATION_PATTERN@, content) {
        Some(ms) => map_matches(ms, |m: GroupTexts| dependency_of_match(m)),
        None => None,
    }
}

/// The dependencies that the `implementation` lines of a build script name, each as
/// `<group>/<name>` with quotes and spaces trimmed from both parts.
pub fn implementation_dependencies(content: &str) -> (r: Option<Vec<String>>)
    ensures
        r.deep_view() == dependencies_of(content@),
        r is Some,
{
    match regex_captures(IMPLEMENTATION_PATTERN, content) {
        Some(ms) => dependencies_from_captures(&ms),
        None => None,
    }
}

/// The dependencies named by the matches `ms` of the `implementation` pattern.
pub fn dependencies_from_captures(ms: &Vec<Vec<Option<String>>>) -> (r: Option<Vec<String>>)
    ensures
        r.deep_view() == map_matches(ms.deep_view(), |m: GroupTexts| dependency_of_match(m)),
        groups_present(ms.deep_view(), 6, 6) ==> r is Some,
{
    let ghost dms = ms.deep_view();
    proof {
        if groups_present(dms, 6, 6) {
            lemma_dependencies_found(dms);
        }
    }
    let set = quote_blank_chars();
    let mut out: Vec<String> = Vec::new();
    let mut i: usize = 0;
    assert(dms.take(0) =~= Seq::<GroupTexts>::empty());
    while i < ms.len()
        invariant
            i <= ms.len(),
            dms == ms.deep_view(),
            set@ == quote_blank(),
            map_matches(dms.take(i as int), |m: GroupTexts| dependency_of_match(m)) == Some(out.deep_view()),
        decreases ms.len() - i,
    {
        assert(dms.take(i + 1).drop_last() =~= dms.take(i as int));
        assert(dms.take(i + 1).last() == ms@[i as int].deep_view());
        let a = group_at(&ms[i], 4);
        let b = group_at(&ms[i], 5);
        match (a, b) {
            (Some(a), Some(b)) => {
                let mut d = trim_chars(&chars_of(a.as_str()), &set);
                d.push('/');
                extend_chars(&mut d, &trim_chars(&chars_of(b.as_str()), &set));
                assert(dependency_of_match(dms[i as int]) == Some(d@));
                let ghost before = out.deep_view();
                out.push(string_of(&d));
                assert(out.deep_view() =~= before.push(d@));
            },
            _ => {
                assert(dependency_of_match(dms[i as int]) is None);
                proof {
                    lemma_map_matches_failure_extends(dms, |m: GroupTexts| dependency_of_match(m), i as int + 1);
                }
                assert(dms.take(ms.len() as int) =~= dms);
                return None;
            },
        }
        i = i + 1;
    }
    assert(dms.take(i as int) =~= dms);
    Some(out)
}

/// Every match of the `implementation` pattern, which fills all its groups, names a dependency.
proof fn lemma_dependencies_found(ms: Seq<GroupTexts>)
    requires
        groups_present(ms, 6, 6),
    ensures
        map_matches(ms, |m: GroupTexts| dependency_of_match(m)) is Some,
{
    let f = |m: GroupTexts| dependency_of_match(m);
    assert forall|i: int| 0 <= i < ms.len() implies (#[trigger] f(ms[i])) is Some by {
        assert(ms[i][4] is Some);
        assert(ms[i][5] is Some);
    }
    lemma_map_matches_total(ms, f);
}

/// The script that one `apply from:` match names, with quotes and spaces trimmed,
/// `$rootProject.projectDir` replaced by `project`, and joined onto `dir`.
pub open spec fn applied_script_of_match(project: Seq<char>, dir: Seq<char>, m: GroupTexts) -> Option<Seq<char>> {
    match group_text(m, 1) {
        Some(g) => Some(joined(dir, replaced(trimmed(g, quote_blank()), ROOT_PROJECT_DIR@, project))),
        None => None,
    }
}

/// The scripts that the `apply from:` lines of `content` name, in order;
/// `None` when the search cannot be made.
pub open spec fn applied_scripts_of(project: Seq<char>, dir: Seq<char>, content: Seq<char>) -> Option<Seq<Seq<char>>> {
    match regex_captures_of(APPLY_FROM_PATTERN@, content) {
        Some(ms) => map_matches(ms, |m: GroupTexts| applied_script_of_match(project, dir, m)),
        None => None,
    }
}

/// The paths of the scripts that the `apply from:` lines of the build script `content`,
/// found at `dir`, apply: each named script with quotes and spaces trimmed and
/// `$rootProject.projectDir` replaced by `project_path`, joined onto `dir`.
pub fn applied_scripts(project_path: &str, dir: &str, content: &str) -> (r: Option<Vec<String>>)
    ensures
        r.deep_view() == applied_scripts_of(project_path@, dir@, content@),
        r is Some,
{
    match regex_captures(APPLY_FROM_PATTERN, content) {
        Some(ms) => applied_scripts_from_captures(project_path, dir, &ms),
        None => None,
    }
}

/// The scripts named by the matches `ms` of the `apply from:` pattern in a script found at `dir`.
pub fn applied_scripts_from_captures(project_path: &str, dir: &str, ms: &Vec<Vec<Option<String>>>) -> (r: Option<Vec<String>>)
    ensures
        r.deep_view() == map_matches(ms.deep_view(), |m: GroupTexts| applied_script_of_match(project_path@, dir@, m)),
        groups_present(ms.deep_view(), 3, 3) ==> r is Some,
{
    let ghost dms = ms.deep_view();
    proof {
        if groups_present(dms, 3, 3) {
            lemma_applied_scripts_found(project_path@, dir@, dms);
        }
    }
    let set = quote_blank_chars();
    let placeholder = chars_of(ROOT_PROJECT_DIR);
    proof {
        reveal_strlit("$rootProject.projectDir");
    }
    let project = chars_of(project_path);
    let base = chars_of(dir);
    let mut out: Vec<String> = Vec::new();
    let mut i: usize = 0;
    assert(dms.take(0) =~= Seq::<GroupTexts>::empty());
    while i < ms.len()
        invariant
            i <= ms.len(),
            dms == ms.deep_view(),
            set@ == quote_blank(),
            placeholder@ == ROOT_PROJECT_DIR@,
            placeholder.len() > 0,
            project@ == project_path@,
            base@ == dir@,
            map_matches(dms.take(i as int), |m: GroupTexts| applied_script_of_match(project_path@, dir@, m))
                == Some(out.deep_view()),
        decreases ms.len() - i,
    {
        assert(dms.take(i + 1).drop_last() =~= dms.take(i as int));
        assert(dms.take(i + 1).last() == ms@[i as int].deep_view());
        match group_at(&ms[i], 1) {
            Some(g) => {
                let t = trim_chars(&chars_of(g.as_str()), &set);
                let named = replace_chars(&t, &placeholder, &project);
                let p = join_chars(&base, &named);
                assert(applied_script_of_match(project_path@, dir@, dms[i as int]) == Some(p@));
                let ghost before = out.deep_view();
                out.push(string_of(&p));
                assert(out.deep_view() =~= before.push(p@));
            },
            None => {
                assert(applied_script_of_match(project_path@, dir@, dms[i as int]) is None);
                proof {
                    lemma_map_matches_failure_extends(
                        dms,
                        |m: GroupTexts| applied_script_of_match(project_path@, dir@, m),
                        i as int + 1,
                    );
                }
                assert(dms.take(ms.len() as int) =~= dms);
                return None;
            },
        }
        i = i + 1;
    }
    assert(dms.take(i as int) =~= dms);
    Some(out)
}

/// Every match of the `apply from:` pattern, which fills all its groups, names a script.
proof fn lemma_applied_scripts_found(project: Seq<char>, dir: Seq<char>, ms: Seq<GroupTexts>)
    requires
        groups_present(ms, 3, 3),
    ensures
        map_matches(ms, |m: GroupTexts| applied_script_of_match(project, dir, m)) is Some,
{
    let f = |m: GroupTexts| applied_script_of_match(project, dir, m);
    assert forall|i: int| 0 <= i < ms.len() implies (#[trigger] f(ms[i])) is Some by {
        assert(ms[i][1] is Some);
    }
    lemma_map_matches_total(ms, f);
}

/// The variable name of one `ext` match, with spaces and newlines trimmed.
pub open spec fn variable_name_of_match(m: GroupTexts) -> Option<Seq<char>> {
    match group_text(m, 1) {
        Some(g) => Some(trimmed(g, name_blank())),
        None => None,
    }
}

/// The `ext` variable names that `content` declares, in order;
/// `None` when the search cannot be made.
pub open spec fn variable_names_of(content: Seq<char>) -> Option<Seq<Seq<char>>> {
    match regex_captures_of(EXT_VARIABLE_PATTERN@, content) {
        Some(ms) => map_matches(ms, |m: GroupTexts| variable_name_of_match(m)),
        None => None,
    }
}

/// The names of the `ext` variables that a dependency script declares
/// (`  <name> : "<path>"` lines), with spaces and newlines trimmed.
pub fn ext_variable_names(content: &str) -> (r: Option<Vec<String>>)
    ensures
        r.deep_view() == variable_names_of(content@),
        r is Some,
{
    match regex_captures(EXT_VARIABLE_PATTERN, content) {
        Some(ms) => variable_names_from_captures(&ms),
        None => None,
    }
}

/// The variable names of the matches `ms` of the `ext` entry pattern.
pub fn variable_names_from_captures(ms: &Vec<Vec<Option<String>>>) -> (r: Option<Vec<String>>)
    ensures
        r.deep_view() == map_matches(ms.deep_view(), |m: GroupTexts| variable_name_of_match(m)),
        groups_present(ms.deep_view(), 5, 5) ==> r is Some,
{
    let ghost dms = ms.deep_view();
    proof {
        if groups_present(dms, 5, 5) {
            lemma_variable_names_found(dms);
        }
    }
    let set = name_blank_chars();
    let mut out: Vec<String> = Vec::new();
    let mut i: usize = 0;
    assert(dms.take(0) =~= Seq::<GroupTexts>::empty());
    while i < ms.len()
        invariant
            i <= ms.len(),
            dms == ms.deep_view(),
            set@ == name_blank(),
            map_matches(dms.take(i as int), |m: GroupTexts| variable_name_of_match(m)) == Some(out.deep_view()),
        decreases ms.len() - i,
    {
        assert(dms.take(i + 1).drop_last() =~= dms.take(i as int));
        assert(dms.take(i + 1).last() == ms@[i as int].deep_view());
        match group_at(&ms[i], 1) {
            Some(g) => {
                let t = trim_chars(&chars_of(g.as_str()), &set);
                assert(variable_name_of_match(dms[i as int]) == Some(t@));
                let ghost before = out.deep_view();
                out.push(string_of(&t));
                assert(out.deep_view() =~= before.push(t@));
            },
            None => {
                assert(variable_name_of_match(dms[i as int]) is None);
                proof {
                    lemma_map_matches_failure_extends(dms, |m: GroupTexts| variable_name_of_match(m), i as int + 1);
                }
                assert(dms.take(ms.len() as int) =~= dms);
                return None;
            },
        }
        i = i + 1;
    }
    assert(dms.take(i as int) =~= dms);
    Some(out)
}

/// Every match of the `ext` entry pattern, which fills all its groups, names a variable.
proof fn lemma_variable_names_found(ms: Seq<GroupTexts>)
    requires
        groups_present(ms, 5, 5),
    ensures
        map_matches(ms, |m: GroupTexts| variable_name_of_match(m)) is Some,
{
    let f = |m: GroupTexts| variable_name_of_match(m);
    assert forall|i: int| 0 <= i < ms.len() implies (#[trigger] f(ms[i])) is Some by {
        assert(ms[i][1] is Some);
    }
    lemma_map_matches_total(ms, f);
}

/// The modules that the `include` lines of `content` name, quotes kept, in order;
/// `None` when the search cannot be made.
pub open spec fn included_modules_of(content: Seq<char>) -> Option<Seq<Seq<char>>> {
    match regex_captures_of(INCLUDE_PATTERN@, content) {
        Some(ms) => map_matches(ms, |m: GroupTexts| group_text(m, 2)),
        None => None,
    }
}

/// The modules that the `include '<module>'` lines of a settings script name,
/// each with its quotes, in order.
pub fn included_modules(content: &str) -> (r: Option<Vec<String>>)
    ensures
        r.deep_view() == included_modules_of(content@),
        r is Some,
{
    match regex_captures(INCLUDE_PATTERN, content) {
        Some(ms) => {
            proof {
                lemma_group_of_each_present(ms.deep_view(), 4, 2);
            }
            groups_of_each(&ms, 2)
        },
        None => None,
    }
}

/// The settings scripts that list the included modules, relative to the project root.
pub open spec fn compile_gradle_paths() -> Seq<Seq<char>> {
    seq![
        "buildconfig/appcompile/compile-customerapp.gradle"@,
        "buildconfig/appcompile/compile-sellerapp.gradle"@,
        "buildconfig/appcompile/compile-libraries.gradle"@,
    ]
}

/// The dependency scripts that declare the `ext` variables, relative to the project root.
pub open spec fn dependencies_gradle_paths() -> Seq<Seq<char>> {
    seq![
        "buildconfig/dependencies/dependency-features.gradle"@,
        "buildconfig/dependencies/dependency-libraries.gradle"@,
    ]
}

/// Which of the two script lists is read, and what is taken from each script.
#[derive(Clone, Copy, PartialEq, Eq, Structural, Debug)]
pub enum ScriptSet {
    /// The settings scripts, for their `include` lines.
    CompileScripts,
    /// The dependency scripts, for their `ext` variable names.
    DependencyScripts,
}

/// The scripts of `set`, relative to the project root.
pub open spec fn script_paths(set: ScriptSet) -> Seq<Seq<char>> {
    match set {
        ScriptSet::CompileScripts => compile_gradle_paths(),
        ScriptSet::DependencyScripts => dependencies_gradle_paths(),
    }
}

/// The scripts of `set`, joined onto `root`: the files that are to be read, in order.
pub open spec fn script_files(root: Seq<char>, set: ScriptSet) -> Seq<Seq<char>> {
    Seq::new(script_paths(set).len(), |i: int| joined(root, script_paths(set)[i]))
}

/// What is taken from the content of one script of `set`.
pub open spec fn extracted(set: ScriptSet, content: Seq<char>) -> Option<Seq<Seq<char>>> {
    match set {
        ScriptSet::CompileScripts => included_modules_of(content),
        ScriptSet::DependencyScripts => variable_names_of(content),
    }
}

/// Why reading a script list failed (the model of `ScanError`).
pub enum ScanFailure {
    /// The script at this path does not exist; the text is the error message.
    MissingFile(Seq<char>),
    /// The search in a script could not be made.
    SearchFailed,
}

/// Why reading a script list failed.
#[derive(Debug)]
pub enum ScanError {
    /// The script does not exist: `full_path <path> not existed`.
    MissingFile(String),
    /// The search in a script could not be made.
    SearchFailed,
}

impl View for ScanError {
    type V = ScanFailure;

    open spec fn view(&self) -> ScanFailure {
        match self {
            ScanError::MissingFile(m) => ScanFailure::MissingFile(m@),
            ScanError::SearchFailed => ScanFailure::SearchFailed,
        }
    }
}

/// The model of a scan's result.
pub open spec fn scan_view(r: Result<Vec<String>, ScanError>) -> Result<Seq<Seq<char>>, ScanFailure> {
    match r {
        Ok(v) => Ok(v.deep_view()),
        Err(e) => Err(e@),
    }
}

/// The message for a script that does not exist.
pub open spec fn missing_file_message(path: Seq<char>) -> Seq<char> {
    "full_path "@ + path + " not existed"@
}

/// The content of the `i`-th script, `None` when it does not exist (or was not read).
pub open spec fn content_at(contents: Seq<Option<Seq<char>>>, i: int) -> Option<Seq<char>> {
    if 0 <= i < contents.len() {
        contents[i]
    } else {
        None
    }
}

/// What was taken from one script: `None` when it does not exist, `Some(None)` when its
/// search could not be made, `Some(Some(items))` otherwise.
pub type Extract = Option<Option<Seq<Seq<char>>>>;

/// What was taken from the `i`-th script (`None`, a missing script, past the end).
pub open spec fn extract_at(extracts: Seq<Extract>, i: int) -> Extract {
    if 0 <= i < extracts.len() {
        extracts[i]
    } else {
        None
    }
}

/// The result of reading the first `n` scripts of `set` under `root` in order, given what
/// was taken from each: the first script that does not exist, or whose search fails, ends
/// the scan with that error; otherwise what was taken from each script, concatenated.
pub open spec fn scanned(root: Seq<char>, set: ScriptSet, extracts: Seq<Extract>, n: nat) -> Result<Seq<Seq<char>>, ScanFailure>
    decreases n,
{
    if n == 0 {
        Ok(Seq::empty())
    } else {
        match scanned(root, set, extracts, (n - 1) as nat) {
            Err(e) => Err(e),
            Ok(items) => match extract_at(extracts, n - 1) {
                None => Err(ScanFailure::MissingFile(missing_file_message(script_files(root, set)[n - 1]))),
                Some(None) => Err(ScanFailure::SearchFailed),
                Some(Some(xs)) => Ok(items + xs),
            },
        }
    }
}

/// What is taken from each script of `set`, given their contents.
pub open spec fn extracts_of(set: ScriptSet, contents: Seq<Option<Seq<char>>>) -> Seq<Extract> {
    Seq::new(
        script_paths(set).len(),
        |i: int|
            match content_at(contents, i) {
                None => None,
                Some(c) => Some(extracted(set, c)),
            },
    )
}

/// The scan of every script of `set`, given their contents.
pub open spec fn scan_of(root: Seq<char>, set: ScriptSet, contents: Seq<Option<Seq<char>>>) -> Result<Seq<Seq<char>>, ScanFailure> {
    scanned(root, set, extracts_of(set, contents), script_paths(set).len())
}

fn script_path_strings(set: ScriptSet) -> (r: Vec<String>)
    ensures
        r.deep_view() == script_paths(set),
{
    let r = match set {
        ScriptSet::CompileScripts => vec![
            "buildconfig/appcompile/compile-customerapp.gradle".to_owned(),
            "buildconfig/appcompile/compile-sellerapp.gradle".to_owned(),
            "buildconfig/appcompile/compile-libraries.gradle".to_owned(),
        ],
        ScriptSet::DependencyScripts => vec![
            "buildconfig/dependencies/dependency-features.gradle".to_owned(),
            "buildconfig/dependencies/dependency-libraries.gradle".to_owned(),
        ],
    };
    assert(r.deep_view() =~= script_paths(set));
    r
}

/// The files of `set` under the project root `root`, in the order they are read.
pub fn script_files_under(root: &str, set: ScriptSet) -> (r: Vec<String>)
    ensures
        r.deep_view() == script_files(root@, set),
{
    let rel = script_path_strings(set);
    let base = chars_of(root);
    let mut out: Vec<String> = Vec::new();
    let mut i: usize = 0;
    while i < rel.len()
        invariant
            i <= rel.len(),
            rel.deep_view() == script_paths(set),
            base@ == root@,
            out.deep_view() =~= script_files(root@, set).take(i as int),
        decreases rel.len() - i,
    {
        let p = join_chars(&base, &chars_of(rel[i].as_str()));
        assert(rel.deep_view()[i as int] == rel@[i as int]@);
        let ghost before = out.deep_view();
        out.push(string_of(&p));
        assert(out.deep_view() =~= before.push(p@));
        i = i + 1;
        assert(out.deep_view() =~= script_files(root@, set).take(i as int));
    }
    out
}

fn missing_file_error(path: &String) -> (r: ScanError)
    ensures
        r@ == ScanFailure::MissingFile(missing_file_message(path@)),
{
    let mut m = chars_of("full_path ");
    extend_chars(&mut m, &chars_of(path.as_str()));
    extend_chars(&mut m, &chars_of(" not existed"));
    assert(m@ =~= missing_file_message(path@));
    ScanError::MissingFile(string_of(&m))
}

/// Combines what was taken from each script of `set` under `root` (`extracts[i]` for the
/// `i`-th file of `script_files_under(root, set)`): the first missing script or failed
/// search ends the scan with that error; otherwise the items of all scripts, in order.
pub fn scan_extracts(root: &str, set: ScriptSet, extracts: &Vec<Option<Option<Vec<String>>>>) -> (r: Result<Vec<String>, ScanError>)
    ensures
        scan_view(r) == scanned(root@, set, extracts.deep_view(), script_paths(set).len()),
        (forall|i: int| 0 <= i < script_paths(set).len() ==> (#[trigger] extract_at(extracts.deep_view(), i)) matches Some(Some(_)))
            ==> r is Ok,
{
    proof {
        if forall|i: int| 0 <= i < script_paths(set).len() ==> (#[trigger] extract_at(extracts.deep_view(), i)) matches Some(Some(_)) {
            lemma_scan_succeeds(root@, set, extracts.deep_view(), script_paths(set).len());
        }
    }
    let files = script_files_under(root, set);
    let mut out: Vec<String> = Vec::new();
    let mut i: usize = 0;
    assert(files.deep_view().len() == files.len());
    assert(out.deep_view() =~= Seq::<Seq<char>>::empty());
    while i < files.len()
        invariant
            i <= files.len(),
            files.deep_view() == script_files(root@, set),
            files.len() == script_paths(set).len(),
            scanned(root@, set, extracts.deep_view(), i as nat) == Ok::<Seq<Seq<char>>, ScanFailure>(out.deep_view()),
        decreases files.len() - i,
    {
        let found: Option<&Option<Vec<String>>> = if i < extracts.len() {
            match &extracts[i] {
                Some(x) => Some(x),
                None => None,
            }
        } else {
            None
        };
        match found {
            None => {
                let e = missing_file_error(&files[i]);
                proof {
                    lemma_scan_failure_stays(root@, set, extracts.deep_view(), (i + 1) as nat, script_paths(set).len());
                }
                return Err(e);
            },
            Some(None) => {
                proof {
                    lemma_scan_failure_stays(root@, set, extracts.deep_view(), (i + 1) as nat, script_paths(set).len());
                }
                return Err(ScanError::SearchFailed);
            },
            Some(Some(items)) => {
                append_strings(&mut out, items);
            },
        }
        i = i + 1;
    }
    Ok(out)
}

/// When something was taken from each of the first `n` scripts, the scan of them succeeds.
proof fn lemma_scan_succeeds(root: Seq<char>, set: ScriptSet, extracts: Seq<Extract>, n: nat)
    requires
        forall|i: int| 0 <= i < n ==> (#[trigger] extract_at(extracts, i)) matches Some(Some(_)),
    ensures
        scanned(root, set, extracts, n) is Ok,
    decreases n,
{
    if n > 0 {
        lemma_scan_succeeds(root, set, extracts, (n - 1) as nat);
        assert(extract_at(extracts, n - 1) matches Some(Some(_)));
    }
}

/// Once the scan has failed on a prefix of the scripts, it fails the same way on every longer one.
proof fn lemma_scan_failure_stays(root: Seq<char>, set: ScriptSet, extracts: Seq<Extract>, k: nat, n: nat)
    requires
        k <= n,
        scanned(root, set, extracts, k) is Err,
    ensures
        scanned(root, set, extracts, n) == scanned(root, set, extracts, k),
    decreases n - k,
{
    if k < n {
        lemma_scan_failure_stays(root, set, extracts, k, (n - 1) as nat);
    }
}

/// Reads what `set` asks for out of its scripts under `root`; `contents[i]` is the
/// content of the `i`-th file of `script_files_under(root, set)`, `None` if it does not exist.
pub fn scan_scripts(root: &str, set: ScriptSet, contents: &Vec<Option<String>>) -> (r: Result<Vec<String>, ScanError>)
    ensures
        scan_view(r) == scan_of(root@, set, contents.deep_view()),
        (forall|i: int| 0 <= i < script_paths(set).len() ==> #[trigger] content_at(contents.deep_view(), i) is Some) ==> r is Ok,
{
    let n: usize = match set {
        ScriptSet::CompileScripts => 3,
        ScriptSet::DependencyScripts => 2,
    };
    assert(n == script_paths(set).len());
    let mut extracts: Vec<Option<Option<Vec<String>>>> = Vec::new();
    let mut i: usize = 0;
    while i < n
        invariant
            i <= n,
            n == script_paths(set).len(),
            extracts.deep_view() =~= extracts_of(set, contents.deep_view()).take(i as int),
            forall|j: int|
                0 <= j < i ==> (content_at(contents.deep_view(), j) is Some ==> (#[trigger] extract_at(
                    extracts.deep_view(),
                    j,
                )) matches Some(Some(_))),
        decreases n - i,
    {
        let x = if i < contents.len() {
            match &contents[i] {
                None => None,
                Some(c) => Some(
                    match set {
                        ScriptSet::CompileScripts => included_modules(c.as_str()),
                        ScriptSet::DependencyScripts => ext_variable_names(c.as_str()),
                    },
                ),
            }
        } else {
            None
        };
        let ghost prev = extracts.deep_view();
        extracts.push(x);
        assert(extracts.deep_view() =~= prev.push(extracts_of(set, contents.deep_view())[i as int]));
        assert(extracts.deep_view() =~= prev.push(x.deep_view()));
        assert forall|j: int|
            0 <= j < i + 1 && content_at(contents.deep_view(), j) is Some implies (#[trigger] extract_at(
                extracts.deep_view(),
                j,
            )) matches Some(Some(_)) by {
            if j < i {
                assert(extract_at(extracts.deep_view(), j) == extract_at(prev, j));
            }
        }
        i = i + 1;
    }
    assert(extracts_of(set, contents.deep_view()).take(n as int) =~= extracts_of(set, contents.deep_view()));
    scan_extracts(root, set, &extracts)
}

/// The modules that the settings scripts under `root` include, in order, quotes kept;
/// `contents` holds the content of each file of `script_files_under(root, CompileScripts)`.
pub fn find_include_modules(root: &str, contents: &Vec<Option<String>>) -> (r: Result<Vec<String>, ScanError>)
    ensures
        scan_view(r) == scan_of(root@, ScriptSet::CompileScripts, contents.deep_view()),
        (forall|i: int| 0 <= i < 3 ==> #[trigger] content_at(contents.deep_view(), i) is Some) ==> r is Ok,
{
    scan_scripts(root, ScriptSet::CompileScripts, contents)
}

/// The `ext` variable names that the dependency scripts under `root` declare, in order;
/// `contents` holds the content of each file of `script_files_under(root, DependencyScripts)`.
pub fn find_project_ext(root: &str, contents: &Vec<Option<String>>) -> (r: Result<Vec<String>, ScanError>)
    ensures
        scan_view(r) == scan_of(root@, ScriptSet::DependencyScripts, contents.deep_view()),
        (forall|i: int| 0 <= i < 2 ==> #[trigger] content_at(contents.deep_view(), i) is Some) ==> r is Ok,
{
    scan_scripts(root, ScriptSet::DependencyScripts, contents)
}

/// The directory of an included module, relative to the project: the quotes and the
/// leading `:` of `':app:core'` dropped and the remaining `:` turned into `/`.
pub open spec fn module_relative_dir(module: Seq<char>) -> Seq<char> {
    let a = replaced(module, "':"@, Seq::empty());
    let b = replaced(a, "\":"@, Seq::empty());
    let c = replaced(b, "\""@, Seq::empty());
    let d = replaced(c, "'"@, Seq::empty());
    replaced(d, ":"@, "/"@)
}

/// The directory of the included module `module` (as an `include` line names it)
/// under the project directory `project_path`.
pub fn module_dir(project_path: &str, module: &str) -> (r: String)
    ensures
        r@ == joined(project_path@, module_relative_dir(module@)),
{
    proof {
        reveal_strlit("':");
        reveal_strlit("\":");
        reveal_strlit("\"");
        reveal_strlit("'");
        reveal_strlit(":");
        reveal_strlit("/");
    }
    let none: Vec<char> = Vec::new();
    assert(none@ =~= Seq::<char>::empty());
    let a = replace_chars(&chars_of(module), &chars_of("':"), &none);
    let b = replace_chars(&a, &chars_of("\":"), &none);
    let c = replace_chars(&b, &chars_of("\""), &none);
    let d = replace_chars(&c, &chars_of("'"), &none);
    let e = replace_chars(&d, &chars_of(":"), &chars_of("/"));
    string_of(&join_chars(&chars_of(project_path), &e))
}

/// The build script that is read for `dir`: `dir` itself when `extension` is empty,
/// otherwise `extension` joined onto `dir`.
pub open spec fn script_path_of(dir: Seq<char>, extension: Seq<char>) -> Seq<char> {
    if extension.len() == 0 {
        dir
    } else {
        joined(dir, extension)
    }
}

/// The build script that is read for `dir` and `extension`.
pub fn script_path(dir: &str, extension: &str) -> (r: String)
    ensures
        r@ == script_path_of(dir@, extension@),
{
    let e = chars_of(extension);
    if e.len() == 0 {
        dir.to_owned()
    } else {
        string_of(&join_chars(&chars_of(dir), &e))
    }
}

/// The dependencies of a script whose applied scripts gave `children` (one list per
/// `apply from:` line, in order) and whose own `implementation` lines name `deps`:
/// for each applied script, its dependencies followed by `deps`.
pub open spec fn assembled(children: Seq<Seq<Seq<char>>>, deps: Seq<Seq<char>>) -> Seq<Seq<char>>
    decreases children.len(),
{
    if children.len() == 0 {
        Seq::empty()
    } else {
        assembled(children.drop_last(), deps) + children.last() + deps
    }
}

fn append_strings(dst: &mut Vec<String>, src: &Vec<String>)
    ensures
        final(dst).deep_view() == old(dst).deep_view() + src.deep_view(),
{
    let ghost start = dst.deep_view();
    let mut k: usize = 0;
    while k < src.len()
        invariant
            k <= src.len(),
            dst.deep_view() == start + src.deep_view().take(k as int),
        decreases src.len() - k,
    {
        let ghost prev = dst.deep_view();
        dst.push(src[k].clone());
        assert(dst.deep_view() =~= prev.push(src@[k as int]@));
        k = k + 1;
        assert(dst.deep_view() =~= start + src.deep_view().take(k as int));
    }
    assert(src.deep_view().take(k as int) =~= src.deep_view());
}

/// Combines the dependencies found through the applied scripts with the script's own:
/// for each applied script in order, its dependencies followed by `deps`.
pub fn assemble_dependencies(children: &Vec<Vec<String>>, deps: &Vec<String>) -> (r: Vec<String>)
    ensures
        r.deep_view() == assembled(children.deep_view(), deps.deep_view()),
{
    let mut out: Vec<String> = Vec::new();
    let mut i: usize = 0;
    assert(children.deep_view().take(0) =~= Seq::<Seq<Seq<char>>>::empty());
    assert(out.deep_view() =~= Seq::<Seq<char>>::empty());
    while i < children.len()
        invariant
            i <= children.len(),
            out.deep_view() == assembled(children.deep_view().take(i as int), deps.deep_view()),
        decreases children.len() - i,
    {
        assert(children.deep_view().take(i + 1).drop_last() =~= children.deep_view().take(i as int));
        assert(children.deep_view().take(i + 1).last() == children@[i as int].deep_view());
        append_strings(&mut out, &children[i]);
        append_strings(&mut out, deps);
        i = i + 1;
    }
    assert(children.deep_view().take(i as int) =~= children.deep_view());
    out
}

/// The dependency graph of a project: its directory and the owner's details.
pub struct DependencyGraph {
    /// The project directory, or `invalid path` when it is not valid text.
    pub project_path: String,
    /// The owner's e-mail field; `new` always sets it to `sekarang`.
    pub email: String,
    /// The extension field; `new` always sets it to `sekarang`.
    pub ext: String,
}

impl DependencyGraph {
    /// The graph of the project at `project_path` (`None` when the path is not valid text),
    /// with the owner's details set to `sekarang`.
    pub fn new(project_path: Option<&str>) -> (g: DependencyGraph)
        ensures
            g.project_path@ == (match project_path {
                Some(p) => p@,
                None => "invalid path"@,
            }),
            g.email@ == "sekarang"@,
            g.ext@ == "sekarang"@,
    {
        let path = match project_path {
            Some(p) => p.to_owned(),
            None => "invalid path".to_owned(),
        };
        DependencyGraph { project_path: path, email: "sekarang".to_owned(), ext: "sekarang".to_owned() }
    }
}

proof fn lemma_scanned_outcome(root: Seq<char>, set: ScriptSet, extracts: Seq<Extract>, n: nat)
    requires
        n <= script_paths(set).len(),
    ensures
        scanned(root, set, extracts, n) is Ok ==> forall|i: int| 0 <= i < n ==> #[trigger] extract_at(extracts, i) is Some,
        scanned(root, set, extracts, n) matches Err(ScanFailure::MissingFile(m)) ==> exists|i: int|
            0 <= i < n && #[trigger] extract_at(extracts, i) is None && m == missing_file_message(script_files(root, set)[i])
                && forall|j: int| 0 <= j < i ==> #[trigger] extract_at(extracts, j) is Some,
    decreases n,
{
    if n > 0 {
        lemma_scanned_outcome(root, set, extracts, (n - 1) as nat);
        if let Err(ScanFailure::MissingFile(m)) = scanned(root, set, extracts, n) {
            if scanned(root, set, extracts, (n - 1) as nat) is Ok {
                let i = n - 1;
                assert(extract_at(extracts, i) is None);
                assert(forall|j: int| 0 <= j < i ==> #[trigger] extract_at(extracts, j) is Some);
            }
        }
    }
}

/// Reading a script list succeeds only when every script of the list was there; when a
/// script is missing, the error names the first missing script, `full_path <file> not existed`.
pub proof fn lemma_scan_reports_first_missing(root: Seq<char>, set: ScriptSet, contents: Seq<Option<Seq<char>>>)
    ensures
        scan_of(root, set, contents) is Ok ==> forall|i: int|
            0 <= i < script_paths(set).len() ==> #[trigger] content_at(contents, i) is Some,
        scan_of(root, set, contents) matches Err(ScanFailure::MissingFile(m)) ==> exists|i: int|
            0 <= i < script_paths(set).len() && #[trigger] content_at(contents, i) is None
                && m == missing_file_message(script_files(root, set)[i])
                && forall|j: int| 0 <= j < i ==> #[trigger] content_at(contents, j) is Some,
{
    let xs = extracts_of(set, contents);
    lemma_scanned_outcome(root, set, xs, script_paths(set).len());
    assert forall|i: int| 0 <= i < script_paths(set).len() implies
        (#[trigger] extract_at(xs, i) is None <==> content_at(contents, i) is None) by {
    }
    if let Err(ScanFailure::MissingFile(m)) = scan_of(root, set, contents) {
        let i = choose|i: int|
            0 <= i < script_paths(set).len() && #[trigger] extract_at(xs, i) is None
                && m == missing_file_message(script_files(root, set)[i])
                && forall|j: int| 0 <= j < i ==> #[trigger] extract_at(xs, j) is Some;
        assert(content_at(contents, i) is None);
        assert forall|j: int| 0 <= j < i implies #[trigger] content_at(contents, j) is Some by {
            assert(extract_at(xs, j) is Some);
        }
    }
    if scan_of(root, set, contents) is Ok {
        assert forall|i: int| 0 <= i < script_paths(set).len() implies #[trigger] content_at(contents, i) is Some by {
            assert(extract_at(xs, i) is Some);
        }
    }
}

/// The number of dependencies found through the applied scripts: the sum of their counts.
pub open spec fn children_len(children: Seq<Seq<Seq<char>>>) -> nat
    decreases children.len(),
{
    if children.len() == 0 {
        0
    } else {
        children_len(children.drop_last()) + children.last().len()
    }
}

/// A script's own dependencies are reported once per applied script: the combined list
/// holds every dependency of the applied scripts and `deps` once for each of them, so
/// a script that applies no other script reports nothing, whatever its own lines name.
pub proof fn lemma_assembled_len(children: Seq<Seq<Seq<char>>>, deps: Seq<Seq<char>>)
    ensures
        assembled(children, deps).len() == children_len(children) + children.len() * deps.len(),
        children.len() == 0 ==> assembled(children, deps).len() == 0,
    decreases children.len(),
{
    if children.len() > 0 {
        lemma_assembled_len(children.drop_last(), deps);
        assert((children.len() - 1) * deps.len() + deps.len() == children.len() * deps.len()) by (nonlinear_arith);
    }
}

/// The directory of an included module holds no quote and no colon: whatever the `include`
/// line wrote, the module path has become a plain relative directory path.
pub proof fn lemma_module_dir_is_plain(module: Seq<char>)
    ensures
        !module_relative_dir(module).contains(':'),
        !module_relative_dir(module).contains('"'),
        !module_relative_dir(module).contains('\''),
{
    reveal_strlit("\"");
    reveal_strlit("'");
    reveal_strlit(":");
    reveal_strlit("/");
    let a = replaced(module, "':"@, Seq::empty());
    let b = replaced(a, "\":"@, Seq::empty());
    assert("\""@ =~= seq!['"']);
    assert("'"@ =~= seq!['\'']);
    assert(":"@ =~= seq![':']);
    assert("/"@ =~= seq!['/']);
    let c = replaced(b, seq!['"'], Seq::empty());
    let d = replaced(c, seq!['\''], Seq::empty());
    crate::text::lemma_replaced_char_absent(b, '"', Seq::empty(), '"');
    crate::text::lemma_replaced_char_absent(c, '\'', Seq::empty(), '\'');
    crate::text::lemma_replaced_char_absent(c, '\'', Seq::empty(), '"');
    crate::text::lemma_replaced_char_absent(d, ':', seq!['/'], ':');
    crate::text::lemma_replaced_char_absent(d, ':', seq!['/'], '"');
    crate::text::lemma_replaced_char_absent(d, ':', seq!['/'], '\'');
}

/// `c` is a space or a newline.
pub open spec fn is_space_or_newline(c: char) -> bool {
    c == ' ' || c == '\n'
}

/// The name of an `ext` entry is its bare name: when group 1 of the match is the name
/// (group 2) with spaces and newlines before and after it (the entry's indentation, and the
/// blank lines that the pattern's leading `\s+` takes in), those are all dropped.
pub proof fn lemma_variable_name_is_bare(m: GroupTexts, lead: Seq<char>, name: Seq<char>, tail: Seq<char>)
    requires
        group_text(m, 2) == Some(name),
        group_text(m, 1) == Some(lead + name + tail),
        forall|i: int| 0 <= i < lead.len() ==> is_space_or_newline(#[trigger] lead[i]),
        forall|i: int| 0 <= i < tail.len() ==> is_space_or_newline(#[trigger] tail[i]),
        name.len() > 0,
        !is_space_or_newline(name[0]),
        !is_space_or_newline(name.last()),
    ensures
        variable_name_of_match(m) == Some(name),
        variable_name_of_match(m) == group_text(m, 2),
{
    let set = name_blank();
    assert forall|c: char| is_space_or_newline(c) implies set.contains(c) by {
        if c == ' ' {
            assert(set[0] == c);
        } else {
            assert(set[1] == c);
        }
    }
    assert forall|c: char| set.contains(c) implies is_space_or_newline(c) by {
        let k = choose|k: int| 0 <= k < set.len() && set[k] == c;
    }
    assert forall|i: int| 0 <= i < lead.len() implies set.contains(#[trigger] lead[i]) by {
        assert(is_space_or_newline(lead[i]));
    }
    assert forall|i: int| 0 <= i < tail.len() implies set.contains(#[trigger] tail[i]) by {
        assert(is_space_or_newline(tail[i]));
    }
    assert((name + tail)[0] == name[0]);
    assert(lead + name + tail =~= lead + (name + tail));
    lemma_trimmed_front_drops(lead, name + tail, set);
    lemma_trimmed_back_drops(name, tail, set);
}

/// When something was taken from each of the first `n` scripts, the scan is everything
/// taken, script after script: the concatenation of what each of them gave, none left out.
pub proof fn lemma_scan_concatenates(root: Seq<char>, set: ScriptSet, extracts: Seq<Extract>, n: nat)
    requires
        forall|i: int| 0 <= i < n ==> (#[trigger] extract_at(extracts, i)) matches Some(Some(_)),
    ensures
        scanned(root, set, extracts, n) == Ok::<Seq<Seq<char>>, ScanFailure>(
            Seq::new(n, |i: int| extract_at(extracts, i).unwrap().unwrap()).flatten(),
        ),
    decreases n,
{
    let all = Seq::new(n, |i: int| extract_at(extracts, i).unwrap().unwrap());
    if n == 0 {
        assert(all =~= Seq::<Seq<Seq<char>>>::empty());
    } else {
        let before = Seq::new((n - 1) as nat, |i: int| extract_at(extracts, i).unwrap().unwrap());
        lemma_scan_concatenates(root, set, extracts, (n - 1) as nat);
        assert(extract_at(extracts, n - 1) matches Some(Some(_)));
        assert(all =~= before.push(all[n - 1]));
        before.lemma_flatten_push(all[n - 1]);
    }
}

/// When every script of `set` is there and each of their searches could be made, the scan
/// succeeds with what each script gives, in order: nothing of any script is left out.
pub proof fn lemma_scan_of_all_present(root: Seq<char>, set: ScriptSet, contents: Seq<Option<Seq<char>>>)
    requires
        forall|i: int|
            0 <= i < script_paths(set).len() ==> ((#[trigger] content_at(contents, i)) matches Some(c) && extracted(
                set,
                c,
            ) is Some),
    ensures
        scan_of(root, set, contents) == Ok::<Seq<Seq<char>>, ScanFailure>(
            Seq::new(
                script_paths(set).len(),
                |i: int| extracted(set, content_at(contents, i).unwrap()).unwrap(),
            ).flatten(),
        ),
{
    let xs = extracts_of(set, contents);
    let n = script_paths(set).len();
    assert forall|i: int| 0 <= i < n implies (#[trigger] extract_at(xs, i)) matches Some(Some(_)) by {
        assert(content_at(contents, i) is Some);
    }
    lemma_scan_concatenates(root, set, xs, n);
    assert(Seq::new(n, |i: int| extract_at(xs, i).unwrap().unwrap()) =~= Seq::new(
        n,
        |i: int| extracted(set, content_at(contents, i).unwrap()).unwrap(),
    ));
}

} // verus!
