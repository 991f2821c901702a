use vstd::prelude::*;

pub mod body;
pub mod contacts;
pub mod fixture;
pub mod joints;
pub mod world;

verus! {

} // verus!
