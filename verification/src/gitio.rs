//! Trusted boundary to the outside git library, and the history walk.
//!
//! Everything that touches libgit2 stands here: the declarations of its
//! types and one small wrapper per call the walk makes.  What a walk yields
//! depends on the repository on disk, so the wrappers promise almost
//! nothing; `index_blame` hands everything it read to the verified
//! `build_index_from_log`, whose contract pins the tables down for every
//! possible history.

use vstd::prelude::*;

use crate::ids::CommitId;
use crate::index::{
    build_index_from_log, index_of_log, log_view, outcome_model, BlameIndex, IndexOutcome,
    LogEntry,
};

verus! {

#[verifier::external_type_specification]
#[verifier::external_body]
pub struct ExRepository(git2::Repository);

#[verifier::external_type_specification]
#[verifier::external_body]
pub struct ExRevwalk<'r>(git2::Revwalk<'r>);

#[verifier::external_type_specification]
#[verifier::external_body]
pub struct ExCommit<'r>(git2::Commit<'r>);

#[verifier::external_type_specification]
#[verifier::external_body]
pub struct ExOid(git2::Oid);

#[verifier::external_type_specification]
#[verifier::external_body]
pub struct ExGitError(git2::Error);

/// Relies on git2::Repository::head: resolves the repository's HEAD
/// reference; fails with `UnbornBranch` or `NotFound` when there is none.
#[verifier::external_body]
fn lookup_head(repo: &git2::Repository) -> Result<(), git2::Error> {
    repo.head().map(|_| ())
}

/// Relies on git2::Repository::revwalk: creates a new revision walk over
/// the repository's object store; nothing has been pushed onto it yet.
#[verifier::external_body]
fn revwalk_new<'r>(repo: &'r git2::Repository) -> Result<git2::Revwalk<'r>, git2::Error> {
    repo.revwalk()
}

/// Relies on git2::Revwalk::push_head: seeds the walk at the repository's
/// head reference.
#[verifier::external_body]
fn revwalk_push_head<'r>(walk: &mut git2::Revwalk<'r>) -> Result<(), git2::Error> {
    walk.push_head()
}

/// Relies on git2::Revwalk's Iterator impl: yields each commit reachable
/// from what was pushed exactly once, newest first, then `None`.
#[verifier::external_body]
fn revwalk_next<'r>(walk: &mut git2::Revwalk<'r>) -> Option<Result<git2::Oid, git2::Error>> {
    walk.next()
}

/// Relies on git2::Oid::as_bytes: the raw id of a SHA-1 object is exactly
/// 20 bytes.
#[verifier::external_body]
fn oid_bytes(oid: &git2::Oid) -> (r: Vec<u8>)
    ensures
        r@.len() == 20,
{
    oid.as_bytes().to_vec()
}

/// Relies on git2::Repository::find_commit: looks a commit up by id in the
/// repository's object store.
#[verifier::external_body]
fn find_commit<'r>(
    repo: &'r git2::Repository,
    oid: git2::Oid,
) -> Result<git2::Commit<'r>, git2::Error> {
    repo.find_commit(oid)
}

/// Relies on git2::Commit::message: the commit's message as UTF-8 text, or
/// an error when the message is not valid UTF-8.
#[verifier::external_body]
fn commit_message<'a, 'r>(commit: &'a git2::Commit<'r>) -> Result<&'a str, git2::Error> {
    commit.message()
}

/// Relies on git2::Error::code: tells the error classes that mean "this
/// repository has no head yet" apart from every other failure.
#[verifier::external_body]
fn error_means_no_head(e: &git2::Error) -> bool {
    matches!(e.code(), git2::ErrorCode::NotFound | git2::ErrorCode::UnbornBranch)
}

/// A fatal failure of one tree's index build.  Per-entry decode failures
/// are not of this kind: they are counted and skipped.
#[derive(Debug, PartialEq, Eq)]
pub enum BuildError {
    /// The repository or its object store could not be walked.
    RepositoryUnavailable,
}

/// Walks the blame repository's history from its head and builds the blame
/// index in one linear pass.  An unborn or missing head is an empty
/// history, not a failure; a commit whose message fails to decode is
/// counted and skipped; only a repository that cannot be walked at all is
/// fatal.  `_repo` is the primary repository, which only fixes the id space
/// of the keys: the walk reads `blame_repo` alone and mutates neither.
pub fn index_blame(
    _repo: &git2::Repository,
    blame_repo: &git2::Repository,
) -> (r: Result<IndexOutcome, BuildError>)
    ensures
        r is Ok ==> r->Ok_0.index.wf(),
        r is Ok ==> exists|log: Seq<(Seq<u8>, Seq<char>)>|
            outcome_model(r->Ok_0) == index_of_log(log),
{
    match lookup_head(blame_repo) {
        Ok(_) => {},
        Err(e) => {
            if error_means_no_head(&e) {
                // An unborn or missing head is an empty history, not a
                // failure.
                let out = IndexOutcome { index: BlameIndex::new(), skipped: 0 };
                proof {
                    assert(outcome_model(out) == index_of_log(
                        Seq::<(Seq<u8>, Seq<char>)>::empty(),
                    ));
                }
                return Ok(out);
            } else {
                return Err(BuildError::RepositoryUnavailable);
            }
        },
    }
    let mut walk = match revwalk_new(blame_repo) {
        Ok(w) => w,
        Err(_) => {
            return Err(BuildError::RepositoryUnavailable);
        },
    };
    match revwalk_push_head(&mut walk) {
        Ok(_) => {},
        Err(_) => {
            return Err(BuildError::RepositoryUnavailable);
        },
    }
    let mut entries: Vec<LogEntry> = Vec::new();
    // An operational bound on the walk.  No object store can hold anywhere
    // near this many commits, so the bound is never the reason a build
    // fails; it only keeps the walk provably finite.
    let mut fuel: usize = usize::MAX;
    let mut exhausted = false;
    while fuel > 0 && !exhausted
        decreases fuel,
    {
        fuel = fuel - 1;
        match revwalk_next(&mut walk) {
            None => {
                exhausted = true;
            },
            Some(Err(_)) => {
                return Err(BuildError::RepositoryUnavailable);
            },
            Some(Ok(oid)) => {
                let bytes = oid_bytes(&oid);
                let blame_id = CommitId::new(bytes);
                let commit = match find_commit(blame_repo, oid) {
                    Ok(c) => c,
                    Err(_) => {
                        return Err(BuildError::RepositoryUnavailable);
                    },
                };
                let message: String = match commit_message(&commit) {
                    Ok(m) => m.to_owned(),
                    // A message that is not text cannot name a commit; an
                    // empty message decodes as malformed and is counted.
                    Err(_) => String::new(),
                };
                entries.push(LogEntry { blame_id, message });
            },
        }
    }
    if !exhausted {
        // The operational bound was hit before the walk finished; no
        // partial result is handed out.
        return Err(BuildError::RepositoryUnavailable);
    }
    let outcome = build_index_from_log(&entries);
    proof {
        assert(outcome_model(outcome) == index_of_log(log_view(entries@)));
    }
    Ok(outcome)
}

} // verus!
