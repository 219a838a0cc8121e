//! A line-oriented mail protocol: the envelope a session fills, the state
//! machine that orders its commands, and the bookkeeping of a worker pool.
use vstd::prelude::*;

pub mod email;
pub mod pool;
pub mod text;

verus! {

} // verus!
