//! Repository metadata through libgit2.

use vstd::prelude::*;

verus! {

/// Relies on git2: `Repository::open` opens the repository at the working
/// directory, `Repository::head` resolves the reference HEAD points at, and
/// `Reference::shorthand` renders its human-readable short name. The result
/// depends on what is on disk, so nothing is promised of it; every failure
/// along the way yields `None` instead of panicking.
#[verifier::external_body]
fn head_shorthand() -> (r: Option<String>) {
    let repo = match git2::Repository::open(".") {
        Ok(repo) => repo,
        Err(_) => return None,
    };
    let head = match repo.head() {
        Ok(head) => head,
        Err(_) => return None,
    };
    match head.shorthand() {
        Ok(name) => Some(name.to_string()),
        Err(_) => None,
    }
}

/// The name of the repository's current branch, or nothing when the working
/// directory is no repository, its head has no name, or the name is empty.
/// A name that is returned is never the empty string.
pub fn get_current_branch_name() -> (r: Option<String>)
    ensures
        (r matches Some(name) ==> name@.len() > 0),
{
    match head_shorthand() {
        Some(name) => {
            if name.as_str().is_empty() {
                None
            } else {
                Some(name)
            }
        },
        None => None,
    }
}

} // verus!
