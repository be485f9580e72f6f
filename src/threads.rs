//! The size of the worker pool.
use vstd::prelude::*;

verus! {

/// The number of workers for a request of `requested` on a host with `cpus`
/// logical CPUs: the request, clamped to the host, and at least one.
pub open spec fn pool_size(requested: usize, cpus: usize) -> usize {
    let n = if requested <= cpus {
        requested
    } else {
        cpus
    };
    if n == 0 {
        1
    } else {
        n
    }
}

/// Clamps a requested worker count to `cpus`; `0` counts as `1`.
pub fn clamp_threads(requested: usize, cpus: usize) -> (r: usize)
    ensures
        r == pool_size(requested, cpus),
{
    let n = if requested <= cpus {
        requested
    } else {
        cpus
    };
    if n == 0 {
        1
    } else {
        n
    }
}

/// Relies on `num_cpus::get`: the number of logical CPUs that this process may
/// use, documented to be at least 1.
#[verifier::external_body]
fn available_cpus() -> (r: usize)
    ensures
        r >= 1,
{
    num_cpus::get()
}

/// The number of workers to start for a request of `requested`, on this host.
pub fn thread_count(requested: usize) -> (r: usize)
    ensures
        1 <= r,
        requested >= 1 ==> r <= requested,
        exists|cpus: usize| cpus >= 1 && r == pool_size(requested, cpus),
{
    let cpus = available_cpus();
    clamp_threads(requested, cpus)
}

} // verus!
