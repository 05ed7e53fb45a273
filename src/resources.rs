//! Splitting the CPUs between cells that build at once and the jobs of each cell.
use vstd::prelude::*;

verus! {

/// How many cells run at once, and how many build jobs each of them gets: never more
/// cells at once than there are cells or CPUs, and the CPUs divided evenly among them,
/// rounding down (a remainder of CPUs stays idle).
pub open spec fn allocation(num_cells: nat, cpus: nat) -> (nat, nat) {
    let concurrency = if cpus <= num_cells { cpus } else { num_cells };
    (concurrency, cpus / concurrency)
}

/// Splits `cpus` between concurrently running cells and the build jobs of each cell.
pub fn allocate(num_cells: usize, cpus: usize) -> (r: (usize, usize))
    requires
        num_cells >= 1,
        cpus >= 1,
    ensures
        (r.0 as nat, r.1 as nat) == allocation(num_cells as nat, cpus as nat),
        r.0 >= 1,
        r.1 >= 1,
        r.0 <= num_cells,
        r.0 <= cpus,
        r.0 * r.1 <= cpus,
{
    let concurrency: usize = if cpus <= num_cells { cpus } else { num_cells };
    let threads: usize = cpus / concurrency;
    assert(concurrency * threads <= cpus) by (nonlinear_arith)
        requires concurrency >= 1, threads == cpus / concurrency;
    assert(threads >= 1) by (nonlinear_arith)
        requires concurrency >= 1, concurrency <= cpus, threads == cpus / concurrency;
    (concurrency, threads)
}

} // verus!
