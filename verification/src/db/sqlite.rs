//! The SQLite store's one decision that is not a query.

use vstd::prelude::*;

use crate::db::Error;

verus! {

/// A zero-row update or delete means the id was never there, or was already
/// gone; there is nothing to tell the two apart, and nothing worth leaking.
pub fn not_found_unless_changed(changed: usize) -> (r: Result<(), Error>)
    ensures
        changed == 0 <==> r is Err,
        r matches Err(e) ==> e matches Error::Rejected(m) && m@ == "That entry no longer exists."@,
{
    if changed == 0 {
        return Err(Error::Rejected("That entry no longer exists.".to_owned()));
    }
    Ok(())
}

} // verus!
