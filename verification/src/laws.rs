//! What holds of the library as a whole, proved from the contracts of its
//! functions.

use vstd::prelude::*;
use vstd::arithmetic::power2::{lemma_pow2_pos, lemma_pow2_unfold, pow2};
use crate::chunking::advised_chunk;
use crate::elementwise::{combines, common_len};
use crate::forkjoin::{divides, leaf_count, split_depth};

verus! {

/// `f` is a function in the mathematical sense: for given arguments it can
/// return one value only.
pub open spec fn single_valued<T, F: Fn(T, T) -> T>(f: F) -> bool {
    forall|a: T, b: T, r1: T, r2: T|
        #![trigger f.ensures((a, b), r1), f.ensures((a, b), r2)]
        f.ensures((a, b), r1) && f.ensures((a, b), r2) ==> r1 == r2
}

/// `f` returns what the mathematical operation `op` gives.
pub open spec fn computes<T, F: Fn(T, T) -> T>(f: F, op: spec_fn(T, T) -> T) -> bool {
    forall|a: T, b: T, r: T| #[trigger] f.ensures((a, b), r) ==> r == op(a, b)
}

/// `op` applied position by position, up to the end of the shorter input.
pub open spec fn zip_with<T>(op: spec_fn(T, T) -> T, u: Seq<T>, v: Seq<T>) -> Seq<T> {
    Seq::new(common_len(u, v), |i: int| op(u[i], v[i]))
}

/// The parallel result equals the sequential one. `sequential` stands for
/// any output that the contract of `vec_bin_op` admits for `u`, `v` and `f`,
/// and `parallel` for any that the contract of `vec_bin_op_threaded` admits,
/// at whatever chunk size: for a single-valued `f` the two are the same
/// sequence.
pub proof fn lemma_parallel_equals_sequential<T, F: Fn(T, T) -> T>(
    f: F,
    u: Seq<T>,
    v: Seq<T>,
    sequential: Seq<T>,
    parallel: Seq<T>,
)
    requires
        single_valued(f),
        combines(f, u, v, sequential),
        combines(f, u, v, parallel),
    ensures
        sequential == parallel,
{
    assert forall|i: int| 0 <= i < sequential.len() implies sequential[i] == parallel[i] by {
        assert(f.ensures((u[i], v[i]), sequential[i]));
        assert(f.ensures((u[i], v[i]), parallel[i]));
    }
    assert(sequential =~= parallel);
}

/// When `f` computes `op`, every output that the contracts admit is `op`
/// applied position by position.
pub proof fn lemma_combines_zip_with<T, F: Fn(T, T) -> T>(
    f: F,
    op: spec_fn(T, T) -> T,
    u: Seq<T>,
    v: Seq<T>,
    out: Seq<T>,
)
    requires
        computes(f, op),
        combines(f, u, v, out),
    ensures
        out == zip_with(op, u, v),
{
    assert forall|i: int| 0 <= i < out.len() implies out[i] == zip_with(op, u, v)[i] by {
        assert(f.ensures((u[i], v[i]), out[i]));
    }
    assert(out =~= zip_with(op, u, v));
}

/// The advice is repeatable: two thresholds that the advisor's contract
/// admits for the same lengths on the same number of execution units are
/// equal, and the order of the two inputs does not matter.
pub proof fn lemma_advice_repeatable(len_u: nat, len_v: nat, units: nat, first: nat, second: nat)
    requires
        first == advised_chunk(if len_u <= len_v { len_u } else { len_v }, units),
        second == advised_chunk(if len_v <= len_u { len_v } else { len_u }, units),
    ensures
        first == second,
{
}

/// An input no longer than the number of execution units is advised a
/// threshold equal to its length, and at that threshold the splitter does
/// not divide it: the kernel runs once, on the whole range.
pub proof fn lemma_short_input_is_one_part(len: nat, units: nat)
    requires
        len <= units,
    ensures
        advised_chunk(len, units) == len,
        !divides(len, advised_chunk(len, units)),
        leaf_count(len, advised_chunk(len, units)) == 1,
        split_depth(len, advised_chunk(len, units)) == 0,
{
}

/// A range of `chunk * 2^k` positions is halved exactly `k` levels deep, into
/// `2^k` parts. The threshold must be at least one: at `chunk == 0` the range
/// is empty and is one part whatever `k` is.
pub proof fn lemma_doubled_chunk_shape(chunk: nat, k: nat)
    requires
        chunk >= 1,
    ensures
        split_depth(chunk * pow2(k), chunk) == k,
        leaf_count(chunk * pow2(k), chunk) == pow2(k),
    decreases k,
{
    let len = chunk * pow2(k);
    lemma_pow2_pos(k);
    if k == 0 {
        assert(pow2(0) == 1) by {
            vstd::arithmetic::power2::lemma2_to64();
        }
        assert(len == chunk) by (nonlinear_arith)
            requires
                len == chunk * pow2(k),
                pow2(k) == 1,
        ;
    } else {
        let half = chunk * pow2((k - 1) as nat);
        lemma_pow2_unfold(k);
        lemma_pow2_pos((k - 1) as nat);
        assert(len == 2 * half && half >= chunk) by (nonlinear_arith)
            requires
                len == chunk * pow2(k),
                half == chunk * pow2((k - 1) as nat),
                pow2(k) == 2 * pow2((k - 1) as nat),
                pow2((k - 1) as nat) >= 1,
                chunk >= 1,
        ;
        assert(len / 2 == half);
        assert((len - len / 2) as nat == half);
        assert(divides(len, chunk));
        lemma_doubled_chunk_shape(chunk, (k - 1) as nat);
    }
}

} // verus!
