//! Location data for Indonesian villages: the parser that reads the official
//! Kemendagri village decree, and the shared types of the location database.
use vstd::prelude::*;

pub mod builder;
pub mod text;
pub mod types;
pub mod unicode;

verus! {

/// The version of this crate.
pub fn version() -> (r: &'static str)
    ensures
        r@ == "0.5.0"@,
{
    "0.5.0"
}

} // verus!
