//! Handle-addressed bodies, fixtures and joints of a 2D physics world, with
//! checked borrowing, joint cascades on body removal and per-body contact
//! and joint lists.
use vstd::prelude::*;

pub mod handle;
pub mod input;
pub mod user_data;
pub mod config;
pub mod dynamics;

verus! {

} // verus!
