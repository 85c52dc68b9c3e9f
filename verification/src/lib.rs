use vstd::prelude::*;

pub mod model;
pub mod path;
pub mod project;
pub mod search;
mod sys;
pub mod text;

verus! {

} // verus!
