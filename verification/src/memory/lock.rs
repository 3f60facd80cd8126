//! The file beside a store's file that locks it across processes.
use vstd::prelude::*;

use crate::text::labelled;

verus! {

/// The path of the file that locks the file at `data_path`.
pub fn lock_path_for(data_path: &str) -> (r: String)
    ensures
        r@ == data_path@ + ".lock"@,
{
    labelled(data_path, ".lock")
}

} // verus!
