use vstd::prelude::*;

pub mod actuator;
pub mod environment;
pub mod glob;
pub mod manifest;
pub mod memoized;
pub mod option;
pub mod pattern;
pub mod policy;
pub mod terminal;
pub mod text;
pub mod transform;

verus! {

} // verus!
