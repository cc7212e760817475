//! Productivity metrics over a source-hosting platform's API: the verified
//! aggregation engine, the total-count resolver and the request-window rules.
use vstd::prelude::*;

pub mod engine;
pub mod model;
pub mod pagination;
pub mod range;
pub mod workload;

verus! {

} // verus!
