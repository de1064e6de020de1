use vstd::prelude::*;

verus! {

/// How the members of a system group are run.
#[derive(Debug, Clone, Copy, PartialEq, Eq, Structural)]
pub enum ExecutionMode {
    /// One member after the other, in the order of registration.
    Sequential,
    /// All members at once, on a pool of worker threads.
    Parallel,
}

} // verus!
