use vstd::prelude::*;
use crate::error::CliError;

verus! {

/// Relies on std's `Path::is_dir`: whether the path names a directory right
/// now. It reads the filesystem, so nothing is promised of the answer.
#[verifier::external_body]
fn is_directory(p: &String) -> (r: bool) {
    std::path::Path::new(p).is_dir()
}

/// Relies on std's `Path::read_dir`: the number of entries the directory
/// lists, or `None` where it cannot be listed. It reads the filesystem, so
/// nothing is promised of the answer.
#[verifier::external_body]
fn listed_entries(p: &String) -> (r: Option<usize>) {
    std::path::Path::new(p).read_dir().ok().map(|entries| entries.count())
}

/// Whether the result of a directory check hands back the checked path.
pub open spec fn accepted_as(r: Result<String, CliError>, p: Seq<char>) -> bool {
    match r {
        Ok(q) => q@ == p,
        Err(_) => false,
    }
}

/// Whether the result of a check is the not-a-directory error for `p`.
pub open spec fn refused_as_not_dir<T>(r: Result<T, CliError>, p: Seq<char>) -> bool {
    match r {
        Err(CliError::NotDir(q)) => q@ == p,
        _ => false,
    }
}

/// The verdict on a source path, given whether it names a directory: the
/// path itself when it does, the not-a-directory error otherwise.
pub fn dir_check_outcome(p: &String, is_dir: bool) -> (r: Result<String, CliError>)
    ensures
        is_dir ==> accepted_as(r, p@),
        !is_dir ==> refused_as_not_dir(r, p@),
{
    if is_dir {
        Ok(p.clone())
    } else {
        Err(CliError::NotDir(p.clone()))
    }
}

/// Checks that `p` names a directory, handing the path back when it does.
pub fn check_dir(p: &String) -> (r: Result<String, CliError>)
    ensures
        accepted_as(r, p@) || refused_as_not_dir(r, p@),
{
    let is_dir = is_directory(p);
    dir_check_outcome(p, is_dir)
}

/// The verdict on a destination, given how many entries its listing held
/// (`None` where it could not be listed): empty exactly when there are none.
pub fn emptiness_outcome(dst: &String, listed: Option<usize>) -> (r: Result<bool, CliError>)
    ensures
        listed.is_some() ==> r == Ok::<bool, CliError>(listed.unwrap() == 0),
        listed.is_none() ==> refused_as_not_dir(r, dst@),
{
    match listed {
        Some(n) => Ok(n == 0),
        None => Err(CliError::NotDir(dst.clone())),
    }
}

/// Whether the directory `dst` lists no entries; the not-a-directory error
/// where it cannot be listed.
pub fn dir_is_empty(dst: &String) -> (r: Result<bool, CliError>)
    ensures
        r is Ok || refused_as_not_dir(r, dst@),
{
    let listed = listed_entries(dst);
    emptiness_outcome(dst, listed)
}

/// Whether a graft may start, from the emptiness check of its destination:
/// it may on an empty destination; one with entries is refused (named by
/// `shown`); a failed listing is passed on.
pub fn preflight(shown: &String, verdict: Result<bool, CliError>) -> (r: Result<(), CliError>)
    ensures
        verdict == Ok::<bool, CliError>(true) ==> r is Ok,
        verdict == Ok::<bool, CliError>(false) ==> (match r {
            Err(CliError::DstDirNotEmpty(s)) => s@ == shown@,
            _ => false,
        }),
        verdict is Err ==> r == Err::<(), CliError>(verdict->Err_0),
{
    match verdict {
        Ok(true) => Ok(()),
        Ok(false) => Err(CliError::DstDirNotEmpty(shown.clone())),
        Err(e) => Err(e),
    }
}

} // verus!
