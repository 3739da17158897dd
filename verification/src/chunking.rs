//! The chunk-size advisor: how short a range must be before it is no longer
//! worth dividing among the execution units.

use vstd::prelude::*;
use crate::elementwise::common_len;

verus! {

/// The advised threshold for `len` positions on `units` execution units: an
/// input no longer than the number of units is one chunk; a longer one is cut
/// to `len / units`, rounded down.
pub open spec fn advised_chunk(len: nat, units: nat) -> nat {
    if len <= units {
        len
    } else {
        len / units
    }
}

/// The number of logical CPUs that `num_cpus::get` reports for this process.
/// Trusted: its documentation promises a count of at least one. The count is
/// read from the machine on every call, so nothing relates two calls.
#[verifier::external_body]
fn available_units() -> (units: usize)
    ensures
        units >= 1,
{
    num_cpus::get()
}

/// The threshold for inputs of the given lengths on `units` execution units.
/// Only the shorter of the two lengths counts.
pub fn chunk_size_with(len_u: usize, len_v: usize, units: usize) -> (chunk: usize)
    requires
        units >= 1,
    ensures
        chunk == advised_chunk(
            if len_u <= len_v { len_u as nat } else { len_v as nat },
            units as nat,
        ),
{
    let len: usize = if len_u <= len_v { len_u } else { len_v };
    if len <= units {
        len
    } else {
        len / units
    }
}

/// The threshold for `u` and `v` on this machine: [`chunk_size_with`] at the
/// number of execution units that the machine reports. Whatever that number
/// is, the threshold is at most the common length, and at least one unless
/// the common length is zero.
pub fn get_chunk_size<T>(u: &[T], v: &[T]) -> (chunk: usize)
    ensures
        exists|units: nat| units >= 1 && chunk == #[trigger] advised_chunk(common_len(u@, v@), units),
        chunk <= common_len(u@, v@),
        common_len(u@, v@) >= 1 ==> chunk >= 1,
{
    let cpus: usize = available_units();
    let chunk: usize = chunk_size_with(u.len(), v.len(), cpus);
    proof {
        lemma_advised_chunk_bounds(common_len(u@, v@), cpus as nat);
    }
    chunk
}

/// On at least one execution unit the advised threshold never exceeds the
/// length, and is zero only for the empty input.
pub proof fn lemma_advised_chunk_bounds(len: nat, units: nat)
    requires
        units >= 1,
    ensures
        advised_chunk(len, units) <= len,
        len >= 1 ==> advised_chunk(len, units) >= 1,
{
    if len > units {
        assert(len / units <= len && len / units >= 1) by (nonlinear_arith)
            requires
                units >= 1,
                len > units,
        ;
    }
}

} // verus!
