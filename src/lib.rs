use vstd::prelude::*;

pub mod compiler;
pub mod diagnostics;
pub mod response;
pub mod scope;
pub mod value;

verus! {

} // verus!
