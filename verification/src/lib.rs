//! A small URL-shortening library: a store that maps short codes to long
//! URLs, with explicit uniqueness, no-overwrite and code-generation policies.
pub mod codes;
pub mod laws;
pub mod store;

use vstd::prelude::*;

verus! {

} // verus!
