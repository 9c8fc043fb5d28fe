use vstd::prelude::*;

pub mod cli;
pub mod error;
pub mod timestamp;
pub mod transform;

verus! {

} // verus!
