use vstd::prelude::*;

pub mod challenge;
pub mod chance;
pub mod game;
pub mod idmap;
pub mod registry;
pub mod textops;
pub mod types;

verus! {

/// The most tricks any one participant may register.
pub const MAX_TRICKS: usize = 3;

} // verus!
