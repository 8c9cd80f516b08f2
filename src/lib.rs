use vstd::prelude::*;

pub mod error;
pub mod index;
pub mod laws;
pub mod storage;
pub mod transaction;
pub mod value;

verus! {

} // verus!
