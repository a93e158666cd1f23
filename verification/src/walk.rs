//! Directory enumeration over the `walkdir` crate.
//!
//! The traversal itself is filesystem work and is taken on trust through a
//! single wrapper; what the library proves is how the collected entries are
//! handed to the caller: entries already present are kept, the new ones are
//! appended behind them, and on success the returned count is the total.

use vstd::prelude::*;

verus! {

#[verifier::external_type_specification]
#[verifier::external_body]
pub struct ExPath(std::path::Path);

#[verifier::external_type_specification]
#[verifier::external_body]
pub struct ExDirEntry(walkdir::DirEntry);

#[verifier::external_type_specification]
#[verifier::external_body]
pub struct ExWalkDirError(walkdir::Error);

/// Relies on walkdir's WalkDir: `new(dir).min_depth(1)` iterated to the end
/// yields every descendant of `dir` (the root itself excluded) in the
/// crate's traversal order, and stops at the first traversal error.  The
/// entries yielded before that error are returned beside it.
#[verifier::external_body]
fn walk_collect(dir: &std::path::Path) -> (r: (Vec<walkdir::DirEntry>, Option<walkdir::Error>)) {
    let mut entries = Vec::new();
    for item in walkdir::WalkDir::new(dir).min_depth(1) {
        match item {
            Ok(entry) => entries.push(entry),
            Err(err) => return (entries, Some(err)),
        }
    }
    (entries, None)
}

/// Walk the tree under `dir` and push every visited entry onto
/// `filenames`.  Entries already in `filenames` stay in place; the walked
/// entries follow them in traversal order.  On a clean walk the result is
/// the new total count; on a traversal error the entries walked before the
/// error are kept and the error is returned.
pub fn file_list(dir: &std::path::Path, filenames: &mut Vec<walkdir::DirEntry>) -> (r: Result<
    usize,
    walkdir::Error,
>)
    ensures
        final(filenames)@.len() >= old(filenames)@.len(),
        forall|i: int|
            0 <= i < old(filenames)@.len() ==> final(filenames)@[i] == old(filenames)@[i],
        r matches Ok(n) ==> n == final(filenames)@.len(),
{
    let (mut entries, err) = walk_collect(dir);
    filenames.append(&mut entries);
    match err {
        None => Ok(filenames.len()),
        Some(e) => Err(e),
    }
}

} // verus!
