use vstd::prelude::*;

pub mod json;
pub mod model;
pub mod diff;
pub mod transform;
pub mod sync;
pub mod github;
pub mod snapshot;
pub mod auth;
pub mod commands;
pub mod search;
pub mod text;

verus! {

} // verus!
