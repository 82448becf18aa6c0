use vstd::prelude::*;

verus! {

/// Resource ceilings that a spawning front end applies to its children.
#[derive(Debug, Clone, Copy, PartialEq, Eq, Structural)]
pub struct Limits {
    pub max_mem_mb: u32,
    pub max_procs: u32,
    pub cpu_limit: u32,
    pub nice: i32,
}

/// The high-throughput profile.
pub fn yolt_limits() -> (r: Limits)
    ensures
        r == (Limits { max_mem_mb: 4096, max_procs: 50, cpu_limit: 1800, nice: 10 }),
{
    Limits { max_mem_mb: 4096, max_procs: 50, cpu_limit: 1800, nice: 10 }
}

/// The conservative profile.
pub fn airbag_limits() -> (r: Limits)
    ensures
        r == (Limits { max_mem_mb: 2048, max_procs: 20, cpu_limit: 300, nice: 15 }),
{
    Limits { max_mem_mb: 2048, max_procs: 20, cpu_limit: 300, nice: 15 }
}

} // verus!
