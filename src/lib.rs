use vstd::prelude::*;

pub mod bench;
pub mod echo;
pub mod laws;
pub mod stats;
pub mod wire;

verus! {

} // verus!
