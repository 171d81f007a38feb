//! Where to search: the workspace root, or the project of the open file.
use vstd::prelude::*;

use crate::path::{ancestors, ancestors_of, below, join, joined, parent, parent_of, starts_with};
use crate::text::texts;

verus! {

/// The first of the directories whose flag is set.
pub open spec fn first_flagged(dirs: Seq<Seq<char>>, flags: Seq<bool>) -> Option<Seq<char>>
    decreases dirs.len(),
{
    if dirs.len() == 0 || flags.len() == 0 {
        None
    } else if flags[0] {
        Some(dirs[0])
    } else {
        first_flagged(dirs.skip(1), flags.skip(1))
    }
}

/// The nearest directory above the file that holds a `.git`; `has_git` says so of each
/// directory above it, the nearest first.
pub open spec fn git_root(file: Seq<char>, has_git: Seq<bool>) -> Option<Seq<char>> {
    first_flagged(ancestors(file), has_git)
}

/// The best root for a search: the workspace root where the open file lies below it, else the
/// git root of the open file, its directory or the working directory.
pub open spec fn effective_root(
    workspace_root: Option<Seq<char>>,
    open_file: Option<Seq<char>>,
    has_git: Seq<bool>,
    cwd: Option<Seq<char>>,
) -> Option<Seq<char>> {
    match open_file {
        Some(file) => if workspace_root is Some && below(file, workspace_root->0) {
            workspace_root
        } else if git_root(file, has_git) is Some {
            git_root(file, has_git)
        } else if parent(file) is Some {
            parent(file)
        } else {
            cwd
        },
        None => if workspace_root is Some {
            workspace_root
        } else {
            cwd
        },
    }
}

/// What is flagged first is one of the directories.
proof fn lemma_first_flagged(dirs: Seq<Seq<char>>, flags: Seq<bool>)
    ensures
        first_flagged(dirs, flags) matches Some(d) ==> dirs.contains(d),
    decreases dirs.len(),
{
    if dirs.len() > 0 && flags.len() > 0 {
        if flags[0] {
            assert(dirs[0] == first_flagged(dirs, flags)->0);
        } else {
            lemma_first_flagged(dirs.skip(1), flags.skip(1));
            if first_flagged(dirs, flags) is Some {
                let d = first_flagged(dirs, flags)->0;
                let k = choose|k: int| 0 <= k < dirs.skip(1).len() && dirs.skip(1)[k] == d;
                assert(dirs[k + 1] == d);
            }
        }
    }
}

/// The git root of a file is a directory above it.
pub proof fn git_root_is_above(file: Seq<char>, has_git: Seq<bool>)
    ensures
        git_root(file, has_git) matches Some(root) ==> ancestors(file).contains(root),
{
    lemma_first_flagged(ancestors(file), has_git);
}

/// The first flagged directory is flagged, and none before it is.
pub proof fn the_nearest_flagged_directory(dirs: Seq<Seq<char>>, flags: Seq<bool>)
    requires
        dirs.len() == flags.len(),
    ensures
        match first_flagged(dirs, flags) {
            Some(d) => exists|i: int|
                0 <= i < dirs.len() && flags[i] && #[trigger] dirs[i] == d && forall|j: int|
                    0 <= j < i ==> !#[trigger] flags[j],
            None => forall|i: int| 0 <= i < flags.len() ==> !#[trigger] flags[i],
        },
    decreases dirs.len(),
{
    if dirs.len() > 0 {
        if flags[0] {
            assert(dirs[0] == first_flagged(dirs, flags)->0);
        } else {
            let d = dirs.skip(1);
            let f = flags.skip(1);
            the_nearest_flagged_directory(d, f);
            match first_flagged(dirs, flags) {
                Some(x) => {
                    let i = choose|i: int|
                        0 <= i < d.len() && f[i] && #[trigger] d[i] == x && forall|j: int|
                            0 <= j < i ==> !#[trigger] f[j];
                    assert(dirs[i + 1] == x && flags[i + 1] == f[i]);
                    assert forall|j: int| 0 <= j < i + 1 implies !#[trigger] flags[j] by {
                        if j > 0 {
                            assert(f[j - 1] == flags[j]);
                        }
                    }
                },
                None => {
                    assert forall|i: int| 0 <= i < flags.len() implies !#[trigger] flags[i] by {
                        if i > 0 {
                            assert(f[i - 1] == flags[i]);
                        }
                    }
                },
            }
        }
    }
}

/// Where to search: below the workspace root, where there is no open file or it lies below the
/// root; else in the project of the open file, below the nearest directory above it that holds a
/// `.git`; else in the directory of the open file; and below the working directory where
/// nothing else is known.
pub proof fn roots_are_chosen_like_this(
    root: Option<Seq<char>>,
    file: Seq<char>,
    has_git: Seq<bool>,
    cwd: Option<Seq<char>>,
)
    requires
        has_git.len() == ancestors(file).len(),
    ensures
        root is Some ==> effective_root(root, None, has_git, cwd) == root,
        root is None ==> effective_root(root, None, has_git, cwd) == cwd,
        root matches Some(r) && below(file, r) ==> effective_root(root, Some(file), has_git, cwd)
            == root,
        !(root matches Some(r) && below(file, r)) ==> {
            let chosen = effective_root(root, Some(file), has_git, cwd);
            &&& forall|i: int|
                0 <= i < has_git.len() && #[trigger] has_git[i] && (forall|j: int|
                    0 <= j < i ==> !#[trigger] has_git[j]) ==> chosen == Some(ancestors(file)[i])
            &&& (forall|i: int| 0 <= i < has_git.len() ==> !#[trigger] has_git[i]) ==> chosen == (
            if parent(file) is Some {
                parent(file)
            } else {
                cwd
            })
        },
{
    the_nearest_flagged_directory(ancestors(file), has_git);
    let chosen = effective_root(root, Some(file), has_git, cwd);
    if !(root matches Some(r) && below(file, r)) {
        assert forall|i: int|
            0 <= i < has_git.len() && #[trigger] has_git[i] && (forall|j: int|
                0 <= j < i ==> !#[trigger] has_git[j]) implies chosen == Some(ancestors(file)[i]) by {
            let d = git_root(file, has_git)->0;
            let k = choose|k: int|
                0 <= k < ancestors(file).len() && has_git[k] && #[trigger] ancestors(file)[k] == d
                    && forall|j: int| 0 <= j < k ==> !#[trigger] has_git[j];
            assert(k == i) by {
                if k < i {
                    assert(!has_git[k]);
                }
                if i < k {
                    assert(!has_git[i]);
                }
            }
        }
    }
}

/// For each directory above the file, the nearest first, the path of a `.git` in it.
pub fn git_candidates(file: &str) -> (r: Vec<String>)
    ensures
        texts(r@) == ancestors(file@).map_values(|d: Seq<char>| joined(d, ".git"@)),
{
    let dirs = ancestors_of(file);
    let mut r: Vec<String> = Vec::new();
    for i in 0..dirs.len()
        invariant
            texts(dirs@) == ancestors(file@),
            r@.len() == i,
            forall|k: int| 0 <= k < i ==> (#[trigger] r@[k])@ == joined(texts(dirs@)[k], ".git"@),
    {
        r.push(join(dirs[i].as_str(), ".git"));
    }
    assert(texts(dirs@).len() == dirs@.len());
    assert(texts(r@) =~= ancestors(file@).map_values(|d: Seq<char>| joined(d, ".git"@)));
    r
}

/// The nearest directory above `file` that holds a `.git`.
pub fn walk_to_git_root(file: &str, has_git: &[bool]) -> (r: Option<String>)
    ensures
        crate::uri::text_of(r) == git_root(file@, has_git@),
{
    let dirs = ancestors_of(file);
    let ghost all = texts(dirs@);
    assert(all.skip(0) =~= all && has_git@.skip(0) =~= has_git@);
    let mut i: usize = 0;
    while i < dirs.len() && i < has_git.len()
        invariant
            i <= dirs@.len(),
            i <= has_git@.len(),
            all == texts(dirs@),
            all == ancestors(file@),
            git_root(file@, has_git@) == first_flagged(
                all.skip(i as int),
                has_git@.skip(i as int),
            ),
        decreases dirs@.len() - i,
    {
        if has_git[i] {
            return Some(dirs[i].clone());
        }
        assert(all.skip(i as int).skip(1) =~= all.skip(i + 1));
        assert(has_git@.skip(i as int).skip(1) =~= has_git@.skip(i + 1));
        i += 1;
    }
    None
}

/// The text of an optional string slice.
fn owned(o: Option<&str>) -> (r: Option<String>)
    ensures
        crate::uri::text_of(r) == super::references::opt_text(o),
{
    match o {
        Some(s) => Some(s.to_owned()),
        None => None,
    }
}

/// The best root for a search, given the configured root and the file that is open.
///
/// A configured root that does not hold the open file is stale: the open file's own project
/// is searched instead. `has_git` says of each directory above the open file whether it holds
/// a `.git`.
pub fn effective_rg_root(
    workspace_root: Option<&str>,
    open_file: Option<&str>,
    has_git: &[bool],
    cwd: Option<&str>,
) -> (r: Option<String>)
    ensures
        crate::uri::text_of(r) == effective_root(
            super::references::opt_text(workspace_root),
            super::references::opt_text(open_file),
            has_git@,
            super::references::opt_text(cwd),
        ),
{
    let file = match open_file {
        Some(file) => file,
        None => {
            return match workspace_root {
                Some(root) => Some(root.to_owned()),
                None => owned(cwd),
            };
        },
    };
    if let Some(root) = workspace_root {
        if starts_with(file, root) {
            return Some(root.to_owned());
        }
    }
    match walk_to_git_root(file, has_git) {
        Some(root) => Some(root),
        None => match parent_of(file) {
            Some(dir) => Some(dir),
            None => owned(cwd),
        },
    }
}

} // verus!
