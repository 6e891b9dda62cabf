//! Connection pool figures.

use vstd::prelude::*;

verus! {

/// How many connections a pool holds: open, idle, and at most.
#[derive(Debug, Clone, Copy)]
pub struct PoolStats {
    pub active: u32,
    pub idle: usize,
    pub max: u32,
}

} // verus!
