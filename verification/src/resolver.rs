use vstd::prelude::*;
use vstd::string::StrSliceExecFns;

use crate::errors::ResolveError;
use crate::paths::join_path;
use crate::paths::joined_path;
use crate::paths::path_exists;

verus! {

/// The index of the last `/` in `s`, or `-1` when there is none.
pub open spec fn last_slash(s: Seq<char>) -> int
    decreases s.len(),
{
    if s.len() == 0 {
        -1
    } else if s.last() == '/' {
        s.len() - 1
    } else {
        last_slash(s.drop_last())
    }
}

/// The containing directory of the path `s`: everything before the last `/`,
/// the root directory for an entry directly under it, and nothing for the
/// root itself or for a path without any directory part.
pub open spec fn parent_of(s: Seq<char>) -> Option<Seq<char>> {
    if last_slash(s) < 0 {
        None
    } else if last_slash(s) == 0 && s.len() == 1 {
        None
    } else if last_slash(s) == 0 {
        Some(seq!['/'])
    } else {
        Some(s.take(last_slash(s)))
    }
}

proof fn lemma_last_slash_scan(s: Seq<char>, j: int)
    requires
        0 <= j <= s.len(),
        forall|t: int| j <= t < s.len() ==> s[t] != '/',
    ensures
        last_slash(s) == last_slash(s.take(j)),
    decreases s.len(),
{
    if j == s.len() {
        assert(s.take(j) =~= s);
    } else {
        assert(s.last() != '/');
        assert(forall|t: int| j <= t < s.drop_last().len() ==> s.drop_last()[t] != '/');
        lemma_last_slash_scan(s.drop_last(), j);
        assert(s.drop_last().take(j) =~= s.take(j));
    }
}

/// Finds the index of the last `/` in `path`.
fn last_slash_index(path: &str) -> (r: Option<usize>)
    ensures
        match r {
            Some(i) => last_slash(path@) == i as int && i < path@.len(),
            None => last_slash(path@) == -1,
        },
{
    let n = path.unicode_len();
    let mut j: usize = n;
    while j > 0
        invariant
            n == path@.len(),
            j <= n,
            forall|t: int| j <= t < n ==> path@[t] != '/',
        decreases j,
    {
        if path.get_char(j - 1) == '/' {
            proof {
                lemma_last_slash_scan(path@, j as int);
                assert(path@.take(j as int).last() == path@[j - 1]);
                assert(last_slash(path@.take(j as int)) == j - 1);
            }
            return Some(j - 1);
        }
        j -= 1;
    }
    proof {
        lemma_last_slash_scan(path@, 0);
        assert(path@.take(0) =~= Seq::<char>::empty());
    }
    None
}

/// Computes the containing directory of `path`.
pub fn parent_dir(path: &str) -> (r: Option<String>)
    ensures
        match r {
            Some(p) => parent_of(path@) == Some(p@),
            None => parent_of(path@) is None,
        },
{
    match last_slash_index(path) {
        None => None,
        Some(i) => {
            if i == 0 {
                if path.unicode_len() == 1 {
                    None
                } else {
                    let root = "/".to_owned();
                    proof {
                        reveal_strlit("/");
                        assert("/"@ =~= seq!['/']);
                    }
                    Some(root)
                }
            } else {
                let prefix = path.substring_char(0, i);
                proof {
                    assert(path@.subrange(0, i as int) == path@.take(i as int));
                }
                Some(prefix.to_owned())
            }
        },
    }
}

/// The archive root: three directory levels above the launcher's path.
pub open spec fn appimage_root_of(exe: Seq<char>) -> Option<Seq<char>> {
    match parent_of(exe) {
        None => None,
        Some(p1) => match parent_of(p1) {
            None => None,
            Some(p2) => parent_of(p2),
        },
    }
}

/// Derives the archive root directory from the launcher's own path: the
/// directory three levels above it.
pub fn get_appimage_directory(exe_path: &str) -> (r: Option<String>)
    ensures
        match r {
            Some(p) => appimage_root_of(exe_path@) == Some(p@),
            None => appimage_root_of(exe_path@) is None,
        },
{
    match parent_dir(exe_path) {
        None => None,
        Some(p1) => match parent_dir(p1.as_str()) {
            None => None,
            Some(p2) => parent_dir(p2.as_str()),
        },
    }
}

/// The expected location of the real interpreter: the entry named `ruby`
/// beside the launcher.
pub open spec fn ruby_candidate(exe: Seq<char>) -> Option<Seq<char>> {
    match parent_of(exe) {
        None => None,
        Some(dir) => Some(joined_path(dir, "ruby"@)),
    }
}

/// Resolves the real interpreter from the launcher's own path: the candidate
/// beside the launcher succeeds when it exists on disk, and a failure carries
/// the attempted path; whether the candidate exists is probed on disk, so
/// either outcome names the same candidate.
pub fn get_executable_path(exe_path: &str) -> (r: Result<String, ResolveError>)
    ensures
        match r {
            Ok(p) => ruby_candidate(exe_path@) == Some(p@),
            Err(e) => match e {
                ResolveError::NoParent => ruby_candidate(exe_path@) is None,
                ResolveError::NotFound { attempted } => ruby_candidate(exe_path@) == Some(
                    attempted@,
                ),
            },
        },
{
    match parent_dir(exe_path) {
        None => Err(ResolveError::NoParent),
        Some(dir) => {
            let candidate = join_path(dir.as_str(), "ruby");
            if path_exists(candidate.as_str()) {
                Ok(candidate)
            } else {
                Err(ResolveError::NotFound { attempted: candidate })
            }
        },
    }
}

} // verus!
