//! What a look at a local directory tells.

use vstd::prelude::*;

verus! {

/// Whether a path is a directory without entries.
///
/// `exists` tells whether anything is at the path. `listing` is the number
/// of entries that were seen there, and `None` where the path could not be
/// listed. A path that is missing, or that cannot be listed, is not an empty
/// directory.
pub fn directory_is_empty(exists: bool, listing: Option<usize>) -> (empty: bool)
    ensures
        empty == (exists && listing == Some(0usize)),
{
    if !exists {
        return false;
    }
    match listing {
        Some(entries) => entries == 0,
        None => false,
    }
}

} // verus!
