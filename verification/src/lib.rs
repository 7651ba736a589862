//! An embedded event-store core: immutable event records keyed by an owning
//! entity, with a per-entity append-ordered index of record locations kept
//! through an associative merge operator over two keyed byte spaces.
#![allow(unused_imports)]

pub mod codec;
pub mod errors;
pub mod index;
pub mod record;
pub mod storage;

use vstd::prelude::*;

verus! {

/// Retrieve the version number of this library as a string.
pub fn get_version() -> (r: &'static str)
    ensures
        r@ == "0.0.1"@,
{
    "0.0.1"
}

} // verus!
