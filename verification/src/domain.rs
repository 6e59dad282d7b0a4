//! Domain operations. Glue records live in [`glue`]; the listing and
//! availability operations below are part of the public surface but not yet
//! wired to any remote operation.

use vstd::prelude::*;

pub mod glue;

verus! {

/// Listing all domains of the account is not yet offered: the call does
/// nothing and returns nothing.
pub fn list_all() {
}

/// Checking a domain's availability is not yet offered: the call does
/// nothing and returns nothing.
pub fn check() {
}

} // verus!
