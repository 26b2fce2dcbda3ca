//! Selection of sessions by the project they ran in.

use vstd::prelude::*;

use crate::paths;
use crate::paths::SessionPath;

verus! {

/// A path as it is found from a directory.
pub open spec fn seen_from(path: paths::PathFacts, directory: paths::PathFacts) -> paths::PathFacts {
    if path.absolute {
        path
    } else {
        paths::pushed_all(directory, path.parts)
    }
}

fn resolve_from(path: &SessionPath, directory: &SessionPath) -> (resolved: SessionPath)
    ensures
        resolved@ == seen_from(path@, directory@),
{
    if path.absolute {
        return path.clone();
    }
    let ghost all = path@.parts;
    let mut resolved = directory.clone();
    assert(all.take(0) =~= Seq::<Seq<char>>::empty());
    let mut i: usize = 0;
    while i < path.parts.len()
        invariant
            i <= path.parts.len(),
            all == path@.parts,
            resolved@ == paths::pushed_all(directory@, all.take(i as int)),
        decreases path.parts.len() - i,
    {
        assert(all.take(i + 1).drop_last() =~= all.take(i as int));
        assert(all.take(i + 1).last() == path.parts[i as int]@);
        resolved.push(path.parts[i].as_str());
        i += 1;
    }
    assert(all.take(all.len() as int) =~= all);
    resolved
}

/// Filter that keeps the sessions whose logged working directory is under a project path.
#[derive(Debug)]
pub struct ProjectFilter {
    /// Directory of the project.
    pub root: SessionPath,
}

impl ProjectFilter {
    /// Build a filter from a project path, found from the current directory where it is relative.
    pub fn from_path(path: &SessionPath, current_dir: &SessionPath) -> (filter: ProjectFilter)
        ensures
            filter.root@ == seen_from(path@, current_dir@),
    {
        ProjectFilter { root: resolve_from(path, current_dir) }
    }

    /// Whether a logged working directory is the project directory or lies below it, component by
    /// component.
    pub fn matches_logged_cwd(&self, cwd: &SessionPath, current_dir: &SessionPath) -> (r: bool)
        ensures
            r == paths::under(seen_from(cwd@, current_dir@), self.root@),
    {
        resolve_from(cwd, current_dir).starts_with(&self.root)
    }

    /// Whether a session is kept. One that logs no working directory is not.
    pub fn keeps_session(&self, cwd: &Option<SessionPath>, current_dir: &SessionPath) -> (r: bool)
        ensures
            r == match *cwd {
                Some(path) => paths::under(seen_from(path@, current_dir@), self.root@),
                None => false,
            },
    {
        match cwd {
            Some(path) => self.matches_logged_cwd(path, current_dir),
            None => false,
        }
    }
}

} // verus!
