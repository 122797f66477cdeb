//! What the library asks of the machine that it runs on.

use vstd::prelude::*;

verus! {

/// `datafusion::common::utils::get_available_parallelism`: the number of threads that the machine
/// can run at once, as the standard library reports it, and 1 where it reports none. It depends on
/// the machine and is never 0.
pub assume_specification[ datafusion::common::utils::get_available_parallelism ]() -> (n: usize)
    ensures
        n >= 1,
;

} // verus!
