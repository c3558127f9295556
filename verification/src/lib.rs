use vstd::prelude::*;

pub mod circuit;
pub mod constants;
pub mod helpers;
pub mod native;

verus! {

} // verus!
