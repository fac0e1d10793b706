//! Version-control overlay: a bulk status cache with on-demand fallback.
use vstd::prelude::*;
use crate::text::str_eq;
use crate::text::chars_of;
use crate::text::range_eq_str;
use crate::text::chars_to_string;
pub use status::Status;
pub use status::StatusGetter;
pub use status::TrackedStatus;
pub use status::UntrackedStatus;
pub use status::spec_tracked_of_bits;
pub use status::spec_untracked_of_bits;

pub mod status;

verus! {

/// An error from the underlying repository. The overlay is best-effort:
/// callers degrade to "no status" instead of aborting.
#[derive(Debug, Clone, Copy, PartialEq, Eq, Structural)]
pub struct GitError;

/// The main type for git integration: a repository handle and the statuses
/// of a full bulk scan, keyed by repository-relative paths.
pub struct Git {
    /// The repository the overlay reads from.
    repository: git2::Repository,
    /// Cached raw status bits from one bulk scan at construction.
    statuses: Vec<(String, u32)>,
}

#[verifier::external_type_specification]
#[verifier::external_body]
pub struct ExRepository(git2::Repository);

#[verifier::external_type_specification]
#[verifier::external_body]
pub struct ExGit2Error(git2::Error);

/// Relies on `git2::Repository::discover`: walks up from the given path and
/// opens the enclosing repository; what it finds depends on the disk.
#[verifier::external_body]
fn repo_discover(path: &str) -> Result<git2::Repository, git2::Error> {
    git2::Repository::discover(path)
}

/// Relies on `git2::Error::code`: tells the not-found error apart from the
/// other error codes.
#[verifier::external_body]
fn error_is_not_found(e: &git2::Error) -> bool {
    matches!(e.code(), git2::ErrorCode::NotFound)
}

/// Relies on `git2::Repository::statuses` and its `StatusEntry` accessors
/// `path_bytes` and `status`: one bulk scan of the repository, including
/// untracked and unmodified files and with rename detection on, handed back
/// as repository-relative paths with their raw status bits.
#[verifier::external_body]
fn repo_statuses(repository: &git2::Repository) -> Result<Vec<(String, u32)>, git2::Error> {
    let mut options = git2::StatusOptions::new();
    options.include_untracked(true).include_unmodified(true).renames_head_to_index(
        true,
    ).renames_index_to_workdir(true);
    let statuses = repository.statuses(Some(&mut options))?;
    let pairs = statuses.iter().map(|entry| {
        let path = String::from_utf8_lossy(entry.path_bytes()).into_owned();
        (path, entry.status().bits())
    }).collect();
    Ok(pairs)
}

/// Relies on `git2::Repository::status_file`: the raw status bits of one
/// repository-relative path, read from the repository on demand.
#[verifier::external_body]
fn repo_status_file(repository: &git2::Repository, path: &str) -> Result<u32, git2::Error> {
    repository.status_file(std::path::Path::new(path)).map(|s| s.bits())
}

/// Relies on `git2::Repository::is_path_ignored`: whether the ignore rules
/// that apply to the path, nested ones included, exclude it.
#[verifier::external_body]
fn repo_is_ignored(repository: &git2::Repository, path: &str) -> Result<bool, git2::Error> {
    repository.is_path_ignored(std::path::Path::new(path))
}

/// Relies on `git2::Repository::workdir`: the root of the working tree, or
/// nothing for a bare repository.
#[verifier::external_body]
fn repo_workdir(repository: &git2::Repository) -> Option<String> {
    repository.workdir().map(|p| p.to_string_lossy().into_owned())
}

/// Looks a key up in the status cache: the first pair with that key wins.
pub open spec fn spec_cache_lookup(cache: Seq<(Seq<char>, u32)>, key: Seq<char>) -> Option<u32>
    decreases cache.len(),
{
    if cache.len() == 0 {
        None
    } else if cache[0].0 == key {
        Some(cache[0].1)
    } else {
        spec_cache_lookup(cache.skip(1), key)
    }
}

impl Git {
    /// The cache contents as a sequence of key and raw-bits pairs.
    pub closed spec fn cache(&self) -> Seq<(Seq<char>, u32)> {
        self.statuses@.map_values(|p: (String, u32)| (p.0@, p.1))
    }

    /// Opens the repository that encloses `root`, if there is one, and runs
    /// the bulk status scan. A missing repository is not an error; any
    /// other repository failure is.
    pub fn new(root: &str) -> (r: Result<Option<Git>, GitError>) {
        let repository = match repo_discover(root) {
            Ok(repository) => repository,
            Err(e) => {
                if error_is_not_found(&e) {
                    return Ok(None);
                }
                return Err(GitError);
            },
        };
        match repo_statuses(&repository) {
            Ok(statuses) => Ok(Some(Git { repository, statuses })),
            Err(_) => Err(GitError),
        }
    }

    /// The root of the repository's working tree.
    pub fn root_dir(&self) -> Option<String> {
        repo_workdir(&self.repository)
    }

    /// Looks up the cached raw status bits for a repository-relative key.
    fn cached_bits(&self, key: &str) -> (r: Option<u32>)
        ensures
            r == spec_cache_lookup(self.cache(), key@),
    {
        let n = self.statuses.len();
        let mut i: usize = 0;
        proof {
            assert(self.cache().skip(0) =~= self.cache());
        }
        while i < n
            invariant
                i <= n,
                n == self.statuses@.len(),
                spec_cache_lookup(self.cache(), key@) == spec_cache_lookup(
                    self.cache().skip(i as int),
                    key@,
                ),
            decreases n - i,
        {
            let ghost rest = self.cache().skip(i as int);
            proof {
                assert(rest[0] == self.cache()[i as int]);
                assert(rest.skip(1) =~= self.cache().skip(i as int + 1));
            }
            if str_eq(self.statuses[i].0.as_str(), key) {
                return Some(self.statuses[i].1);
            }
            i = i + 1;
        }
        None
    }

    /// The raw status bits for a repository-relative key: from the cache,
    /// or on a miss from an on-demand repository query.
    pub fn status_bits(&self, key: &str) -> (r: Result<u32, GitError>)
        ensures
            spec_cache_lookup(self.cache(), key@) matches Some(bits) ==> r == Ok::<u32, GitError>(
                bits,
            ),
    {
        match self.cached_bits(key) {
            Some(bits) => Ok(bits),
            None => match repo_status_file(&self.repository, key) {
                Ok(bits) => Ok(bits),
                Err(_) => Err(GitError),
            },
        }
    }

    /// The tracked (index-relative) status for a repository-relative key.
    /// For a key the bulk scan knows, the answer is exactly the decoded
    /// cached bits; for others it decodes what the on-demand query reports.
    pub fn tracked_status(&self, key: &str) -> (r: Result<Option<Status>, GitError>)
        ensures
            spec_cache_lookup(self.cache(), key@) matches Some(bits) ==> r == Ok::<
                Option<Status>,
                GitError,
            >(spec_tracked_of_bits(bits)),
            r matches Ok(s) ==> exists|bits: u32| s == spec_tracked_of_bits(bits),
    {
        match self.status_bits(key) {
            Ok(bits) => Ok(TrackedStatus::from_bits(bits)),
            Err(e) => Err(e),
        }
    }

    /// The untracked (worktree-relative) status for a repository-relative
    /// key, as [`Self::tracked_status`] but against the working tree.
    pub fn untracked_status(&self, key: &str) -> (r: Result<Option<Status>, GitError>)
        ensures
            spec_cache_lookup(self.cache(), key@) matches Some(bits) ==> r == Ok::<
                Option<Status>,
                GitError,
            >(spec_untracked_of_bits(bits)),
            r matches Ok(s) ==> exists|bits: u32| s == spec_untracked_of_bits(bits),
    {
        match self.status_bits(key) {
            Ok(bits) => Ok(UntrackedStatus::from_bits(bits)),
            Err(e) => Err(e),
        }
    }

    /// Checks if a repository-relative path is ignored. This is always an
    /// on-demand query, never cached, because ignore rules can depend on
    /// nested ignore files that the bulk scan does not capture.
    pub fn is_ignored(&self, key: &str) -> Result<bool, GitError> {
        match repo_is_ignored(&self.repository, key) {
            Ok(ignored) => Ok(ignored),
            Err(_) => Err(GitError),
        }
    }
}

/// A path that the bulk scan recorded with the index-new bit set reports a
/// tracked status of `Added`, whatever else its bits say.
pub proof fn lemma_bulk_index_new(g: Git, key: Seq<char>, bits: u32)
    requires
        spec_cache_lookup(g.cache(), key) == Some(bits),
        bits & 0x0001u32 != 0,
    ensures
        spec_tracked_of_bits(bits) == Some(Status::Added),
{
}

} // verus!

verus! {

/// A path with its leading separators removed.
pub open spec fn spec_strip_leading(s: Seq<char>, sep: char) -> Seq<char>
    decreases s.len(),
{
    if s.len() > 0 && s[0] == sep {
        spec_strip_leading(s.skip(1), sep)
    } else {
        s
    }
}

/// The repository-relative key of a canonicalized path under a
/// canonicalized working tree root: the root prefix stripped on a
/// component boundary, leading separators dropped, and every separator
/// turned into a forward slash; nothing when the path does not lie under
/// the root.
pub open spec fn spec_root_key(path: Seq<char>, workdir: Seq<char>, sep: char) -> Option<
    Seq<char>,
> {
    if path == workdir {
        Some(Seq::empty())
    } else if workdir.len() < path.len() && path.take(workdir.len() as int) == workdir && (
    workdir.len() > 0 && workdir.last() == sep || path[workdir.len() as int] == sep) {
        Some(
            spec_strip_leading(path.skip(workdir.len() as int), sep).map_values(
                |c: char|
                    if c == sep {
                        '/'
                    } else {
                        c
                    },
            ),
        )
    } else {
        None
    }
}

/// Normalizes a canonicalized path into its repository-relative key, given
/// the canonicalized working tree root and the platform's separator.
pub fn root_key_of(path: &str, workdir: &str, sep: char) -> (r: Option<String>)
    ensures
        r matches Some(k) ==> spec_root_key(path@, workdir@, sep) == Some(k@),
        r is None ==> spec_root_key(path@, workdir@, sep) is None,
{
    if str_eq(path, workdir) {
        return Some(String::new());
    }
    let pv = chars_of(path);
    let wv = chars_of(workdir);
    let n = pv.len();
    let w = wv.len();
    if w >= n {
        return None;
    }
    proof {
        assert(pv@.take(w as int) =~= pv@.subrange(0, w as int));
    }
    if !range_eq_str(&pv, 0, w, workdir) {
        return None;
    }
    let boundary = (w > 0 && wv[w - 1] == sep) || pv[w] == sep;
    if !boundary {
        proof {
            if w > 0 {
                assert(wv@.last() == wv@[w - 1]);
            }
        }
        return None;
    }
    let ghost rel = pv@.skip(w as int);
    let mut i: usize = w;
    while i < n && pv[i] == sep
        invariant
            w <= i <= n,
            n == pv@.len(),
            rel == pv@.skip(w as int),
            spec_strip_leading(rel, sep) == spec_strip_leading(pv@.skip(i as int), sep),
        decreases n - i,
    {
        proof {
            assert(pv@.skip(i as int)[0] == pv@[i as int]);
            assert(pv@.skip(i as int).skip(1) =~= pv@.skip(i as int + 1));
        }
        i = i + 1;
    }
    proof {
        if i < n {
            assert(pv@.skip(i as int)[0] == pv@[i as int]);
        }
        assert(spec_strip_leading(pv@.skip(i as int), sep) == pv@.skip(i as int));
    }
    let mut outv: Vec<char> = Vec::new();
    let mut k: usize = i;
    while k < n
        invariant
            i <= k <= n,
            n == pv@.len(),
            outv@.len() == k - i,
            forall|t: int|
                0 <= t < k - i ==> outv@[t] == (if pv@[t + i] == sep {
                    '/'
                } else {
                    pv@[t + i]
                }),
        decreases n - k,
    {
        let c = pv[k];
        if c == sep {
            outv.push('/');
        } else {
            outv.push(c);
        }
        k = k + 1;
    }
    proof {
        assert(outv@ =~= pv@.skip(i as int).map_values(
            |c: char|
                if c == sep {
                    '/'
                } else {
                    c
                },
        ));
        assert(wv@.last() == (if w > 0 {
            wv@[w - 1]
        } else {
            wv@.last()
        }));
    }
    Some(chars_to_string(&outv))
}

} // verus!
