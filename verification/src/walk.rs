//! The walk from a module's build script through the scripts it applies, collecting
//! their `implementation` dependencies. The files are read by the caller: a walk over
//! the scripts read so far either finishes or names the next script it needs.

use vstd::prelude::*;

use crate::gradle::{
    applied_scripts, applied_scripts_of, assemble_dependencies, assembled, dependencies_of, implementation_dependencies,
    script_path, script_path_of,
};

verus! {

/// The scripts read so far: each path with its content (empty for a file that does not exist).
pub type ReadScripts = Seq<(Seq<char>, Seq<char>)>;

/// How a walk over the scripts read so far ends.
pub enum Walk<T> {
    /// Every script it needed was read; this is what it found.
    Done(T),
    /// It needs the content of the script at this path, which was not read yet.
    NeedsRead(Seq<char>),
    /// The scripts apply each other deeper than the walk may go.
    TooDeep,
}

/// The content read for `path`: that of its first entry in `files`, `None` when it was not read.
pub open spec fn content_of(files: ReadScripts, path: Seq<char>) -> Option<Seq<char>>
    decreases files.len(),
{
    if files.len() == 0 {
        None
    } else if files[0].0 == path {
        Some(files[0].1)
    } else {
        content_of(files.drop_first(), path)
    }
}

/// The dependencies found from the build script of `full` (joined with `ext` unless it is
/// empty), going at most `fuel` scripts deep: for each script that it applies (relative to
/// `full`, `$rootProject.projectDir` standing for `project`), that script's dependencies
/// followed by the build script's own `implementation` dependencies.
pub open spec fn walked(project: Seq<char>, files: ReadScripts, full: Seq<char>, ext: Seq<char>, fuel: nat) -> Walk<Seq<Seq<char>>>
    decreases fuel, 0nat,
{
    if fuel == 0 {
        Walk::TooDeep
    } else {
        let script = script_path_of(full, ext);
        match content_of(files, script) {
            None => Walk::NeedsRead(script),
            Some(content) => {
                // Both searches use fixed patterns and are always made (see `applied_scripts`).
                let paths = match applied_scripts_of(project, full, content) {
                    Some(ps) => ps,
                    None => Seq::empty(),
                };
                let deps = match dependencies_of(content) {
                    Some(ds) => ds,
                    None => Seq::empty(),
                };
                match walked_children(project, files, paths, (fuel - 1) as nat) {
                    Walk::Done(kids) => Walk::Done(assembled(kids, deps)),
                    Walk::NeedsRead(p) => Walk::NeedsRead(p),
                    Walk::TooDeep => Walk::TooDeep,
                }
            },
        }
    }
}

/// The walks from the applied scripts `paths`, in order: the dependencies of each, or how
/// the first one that does not finish ends.
pub open spec fn walked_children(project: Seq<char>, files: ReadScripts, paths: Seq<Seq<char>>, fuel: nat) -> Walk<Seq<Seq<Seq<char>>>>
    decreases fuel, paths.len() + 1,
{
    if paths.len() == 0 {
        Walk::Done(Seq::empty())
    } else {
        match walked_children(project, files, paths.drop_last(), fuel) {
            Walk::Done(kids) => match walked(project, files, paths.last(), Seq::empty(), fuel) {
                Walk::Done(d) => Walk::Done(kids.push(d)),
                Walk::NeedsRead(p) => Walk::NeedsRead(p),
                Walk::TooDeep => Walk::TooDeep,
            },
            Walk::NeedsRead(p) => Walk::NeedsRead(p),
            Walk::TooDeep => Walk::TooDeep,
        }
    }
}

/// How a walk over the scripts read so far ends.
pub enum Traversal {
    /// The dependencies found.
    Done(Vec<String>),
    /// The script whose content is needed next.
    Read(String),
    /// The scripts apply each other deeper than the walk may go.
    TooDeep,
}

impl View for Traversal {
    type V = Walk<Seq<Seq<char>>>;

    open spec fn view(&self) -> Walk<Seq<Seq<char>>> {
        match self {
            Traversal::Done(ds) => Walk::Done(ds.deep_view()),
            Traversal::Read(p) => Walk::NeedsRead(p@),
            Traversal::TooDeep => Walk::TooDeep,
        }
    }
}

/// The content read for `path`, if it was read.
pub fn read_content(files: &Vec<(String, String)>, path: &String) -> (r: Option<String>)
    ensures
        r.deep_view() == content_of(files.deep_view(), path@),
{
    let ghost fv = files.deep_view();
    let mut i: usize = 0;
    assert(fv.skip(0) =~= fv);
    while i < files.len()
        invariant
            i <= files.len(),
            fv == files.deep_view(),
            content_of(fv.skip(i as int), path@) == content_of(fv, path@),
        decreases files.len() - i,
    {
        assert(fv.skip(i as int)[0] == (files@[i as int].0@, files@[i as int].1@));
        if files[i].0 == *path {
            return Some(files[i].1.clone());
        }
        assert(fv.skip(i as int).drop_first() =~= fv.skip(i + 1));
        i = i + 1;
    }
    assert(fv.skip(i as int).len() == 0);
    None
}

/// Once the walk of some applied script does not finish, the walk of all of them ends the same way.
proof fn lemma_children_stop(project: Seq<char>, files: ReadScripts, paths: Seq<Seq<char>>, fuel: nat, k: int)
    requires
        0 <= k <= paths.len(),
        !(walked_children(project, files, paths.take(k), fuel) is Done),
    ensures
        walked_children(project, files, paths, fuel) == walked_children(project, files, paths.take(k), fuel),
    decreases paths.len() - k,
{
    if k < paths.len() {
        assert(paths.take(k + 1).drop_last() =~= paths.take(k));
        lemma_children_stop(project, files, paths, fuel, k + 1);
    } else {
        assert(paths.take(k) =~= paths);
    }
}

/// Walks from the build script of `full` (joined with `extension` unless it is empty) through
/// the scripts it applies, at most `fuel` scripts deep, over the scripts read so far.
pub fn walk(project_path: &str, files: &Vec<(String, String)>, full: &str, extension: &str, fuel: usize) -> (r: Traversal)
    ensures
        r@ == walked(project_path@, files.deep_view(), full@, extension@, fuel as nat),
        r matches Traversal::Read(p) ==> content_of(files.deep_view(), p@) is None,
    decreases fuel,
{
    proof {
        lemma_read_request_is_new(project_path@, files.deep_view(), full@, extension@, fuel as nat);
    }
    if fuel == 0 {
        return Traversal::TooDeep;
    }
    let ghost fv = files.deep_view();
    let script = script_path(full, extension);
    let content = match read_content(files, &script) {
        Some(c) => c,
        None => return Traversal::Read(script),
    };
    let applied = applied_scripts(project_path, full, content.as_str()).unwrap();
    let deps = implementation_dependencies(content.as_str()).unwrap();
    let ghost paths = applied.deep_view();
    proof {
        reveal_strlit("");
    }
    let mut kids: Vec<Vec<String>> = Vec::new();
    let mut i: usize = 0;
    assert(paths.take(0) =~= Seq::<Seq<char>>::empty());
    assert(kids.deep_view() =~= Seq::<Seq<Seq<char>>>::empty());
    while i < applied.len()
        invariant
            0 < fuel,
            i <= applied.len(),
            fv == files.deep_view(),
            paths == applied.deep_view(),
            ""@ == Seq::<char>::empty(),
            content_of(fv, script_path_of(full@, extension@)) == Some(content@),
            applied_scripts_of(project_path@, full@, content@) == Some(paths),
            walked_children(project_path@, fv, paths.take(i as int), (fuel - 1) as nat)
                == Walk::Done(kids.deep_view()),
        decreases applied.len() - i,
    {
        assert(paths.take(i + 1).drop_last() =~= paths.take(i as int));
        assert(paths.take(i + 1).last() == applied@[i as int]@);
        match walk(project_path, files, applied[i].as_str(), "", fuel - 1) {
            Traversal::Done(d) => {
                let ghost before = kids.deep_view();
                kids.push(d);
                assert(kids.deep_view() =~= before.push(d.deep_view()));
            },
            Traversal::Read(p) => {
                proof {
                    lemma_children_stop(project_path@, fv, paths, (fuel - 1) as nat, i + 1);
                }
                return Traversal::Read(p);
            },
            Traversal::TooDeep => {
                proof {
                    lemma_children_stop(project_path@, fv, paths, (fuel - 1) as nat, i + 1);
                }
                return Traversal::TooDeep;
            },
        }
        i = i + 1;
    }
    assert(paths.take(i as int) =~= paths);
    Traversal::Done(assemble_dependencies(&kids, &deps))
}

/// A walk only asks for a script that was not read yet, so a caller that reads each
/// requested script and walks again reads every script at most once.
pub proof fn lemma_read_request_is_new(project: Seq<char>, files: ReadScripts, full: Seq<char>, ext: Seq<char>, fuel: nat)
    ensures
        walked(project, files, full, ext, fuel) matches Walk::NeedsRead(p) ==> content_of(files, p) is None,
    decreases fuel, 0nat,
{
    if fuel > 0 {
        if let Some(content) = content_of(files, script_path_of(full, ext)) {
            let paths = match applied_scripts_of(project, full, content) {
                Some(ps) => ps,
                None => Seq::empty(),
            };
            lemma_children_read_request_is_new(project, files, paths, (fuel - 1) as nat);
        }
    }
}

/// The walks from applied scripts only ask for scripts that were not read yet.
pub proof fn lemma_children_read_request_is_new(project: Seq<char>, files: ReadScripts, paths: Seq<Seq<char>>, fuel: nat)
    ensures
        walked_children(project, files, paths, fuel) matches Walk::NeedsRead(p) ==> content_of(files, p) is None,
    decreases fuel, paths.len() + 1,
{
    if paths.len() > 0 {
        lemma_children_read_request_is_new(project, files, paths.drop_last(), fuel);
        lemma_read_request_is_new(project, files, paths.last(), Seq::empty(), fuel);
    }
}

/// Reading more scripts never changes what was read for a path before.
pub proof fn lemma_content_kept(files: ReadScripts, more: ReadScripts, path: Seq<char>)
    requires
        content_of(files, path) is Some,
    ensures
        content_of(files + more, path) == content_of(files, path),
    decreases files.len(),
{
    if files[0].0 != path {
        assert((files + more).drop_first() =~= files.drop_first() + more);
        lemma_content_kept(files.drop_first(), more, path);
    }
}

/// A walk that needs no further script ends the same way however many more scripts are read:
/// the walk that the caller repeats until it finishes gives what the first finished walk gave.
pub proof fn lemma_walk_kept(project: Seq<char>, files: ReadScripts, more: ReadScripts, full: Seq<char>, ext: Seq<char>, fuel: nat)
    requires
        !(walked(project, files, full, ext, fuel) is NeedsRead),
    ensures
        walked(project, files + more, full, ext, fuel) == walked(project, files, full, ext, fuel),
    decreases fuel, 0nat,
{
    if fuel > 0 {
        let script = script_path_of(full, ext);
        let content = content_of(files, script)->0;
        lemma_content_kept(files, more, script);
        let paths = match applied_scripts_of(project, full, content) {
            Some(ps) => ps,
            None => Seq::empty(),
        };
        lemma_children_kept(project, files, more, paths, (fuel - 1) as nat);
    }
}

/// The walks from applied scripts that need no further script end the same way however
/// many more scripts are read.
pub proof fn lemma_children_kept(project: Seq<char>, files: ReadScripts, more: ReadScripts, paths: Seq<Seq<char>>, fuel: nat)
    requires
        !(walked_children(project, files, paths, fuel) is NeedsRead),
    ensures
        walked_children(project, files + more, paths, fuel) == walked_children(project, files, paths, fuel),
    decreases fuel, paths.len() + 1,
{
    if paths.len() > 0 {
        lemma_children_kept(project, files, more, paths.drop_last(), fuel);
        if walked_children(project, files, paths.drop_last(), fuel) is Done {
            lemma_walk_kept(project, files, more, paths.last(), Seq::empty(), fuel);
        }
    }
}

/// A finished walk finds the same dependencies with a larger depth limit: the limit only
/// stops walks through scripts that apply each other without end.
pub proof fn lemma_walk_fuel(project: Seq<char>, files: ReadScripts, full: Seq<char>, ext: Seq<char>, fuel: nat)
    requires
        walked(project, files, full, ext, fuel) is Done,
    ensures
        walked(project, files, full, ext, fuel + 1) == walked(project, files, full, ext, fuel),
    decreases fuel, 0nat,
{
    let content = content_of(files, script_path_of(full, ext))->0;
    let paths = match applied_scripts_of(project, full, content) {
        Some(ps) => ps,
        None => Seq::empty(),
    };
    lemma_children_fuel(project, files, paths, (fuel - 1) as nat);
}

/// The finished walks from applied scripts find the same dependencies with a larger depth limit.
pub proof fn lemma_children_fuel(project: Seq<char>, files: ReadScripts, paths: Seq<Seq<char>>, fuel: nat)
    requires
        walked_children(project, files, paths, fuel) is Done,
    ensures
        walked_children(project, files, paths, fuel + 1) == walked_children(project, files, paths, fuel),
    decreases fuel, paths.len() + 1,
{
    if paths.len() > 0 {
        lemma_children_fuel(project, files, paths.drop_last(), fuel);
        lemma_walk_fuel(project, files, paths.last(), Seq::empty(), fuel);
    }
}

} // verus!
