//! The elementwise model and the sequential kernel.

use vstd::prelude::*;

verus! {

/// The number of positions that both inputs have: the length of the shorter one.
pub open spec fn common_len<T>(u: Seq<T>, v: Seq<T>) -> nat {
    if u.len() <= v.len() {
        u.len()
    } else {
        v.len()
    }
}

/// `f` accepts every pair of corresponding elements of `u` and `v`.
pub open spec fn callable_on<T, F: Fn(T, T) -> T>(f: F, u: Seq<T>, v: Seq<T>) -> bool {
    forall|i: int| 0 <= i < common_len(u, v) ==> #[trigger] f.requires((u[i], v[i]))
}

/// `out` is a result of applying `f` position by position: it is as long as
/// the shorter input, and `out[i]` is a value that `f` may return for
/// `(u[i], v[i])`.
pub open spec fn combines<T, F: Fn(T, T) -> T>(f: F, u: Seq<T>, v: Seq<T>, out: Seq<T>) -> bool {
    &&& out.len() == common_len(u, v)
    &&& forall|i: int| 0 <= i < out.len() ==> f.ensures((u[i], v[i]), #[trigger] out[i])
}

/// The effect of the kernel on a destination at least as long as the shorter
/// input: the leading `common_len` slots hold the combination, the rest is
/// left as it was.
pub open spec fn overwrites_front<T, F: Fn(T, T) -> T>(
    f: F,
    u: Seq<T>,
    v: Seq<T>,
    before: Seq<T>,
    after: Seq<T>,
) -> bool {
    let n = common_len(u, v) as int;
    &&& after.len() == before.len()
    &&& combines(f, u, v, after.subrange(0, n))
    &&& after.subrange(n, after.len() as int) == before.subrange(n, before.len() as int)
}

/// Writes `f(u[i], v[i])` into `dst[i]` for every position `i` that both
/// inputs have, in increasing order of `i`, calling `f` once per position.
/// Slots of `dst` beyond the shorter input are not touched, and no slot is
/// read.
pub fn vec_bin_op_mut<T, F>(u: &[T], v: &[T], dst: &mut [T], f: &F)
    where
        T: Copy,
        F: Fn(T, T) -> T + Sync,
    requires
        common_len(u@, v@) <= old(dst)@.len(),
        callable_on(*f, u@, v@),
    ensures
        overwrites_front(*f, u@, v@, old(dst)@, final(dst)@),
{
    let len: usize = if u.len() <= v.len() { u.len() } else { v.len() };
    let mut i: usize = 0;
    while i < len
        invariant
            len == common_len(u@, v@),
            len <= dst@.len(),
            i <= len,
            callable_on(*f, u@, v@),
            dst@.len() == old(dst)@.len(),
            forall|j: int| 0 <= j < i ==> f.ensures((u@[j], v@[j]), #[trigger] dst@[j]),
            forall|j: int| i <= j < dst@.len() ==> #[trigger] dst@[j] == old(dst)@[j],
        decreases len - i,
    {
        dst[i] = f(u[i], v[i]);
        i += 1;
    }
    assert(dst@.subrange(len as int, dst@.len() as int) =~= old(dst)@.subrange(
        len as int,
        old(dst)@.len() as int,
    ));
}

/// A buffer of `len` slots for a result that is still to be written. A slot
/// has to hold some value of `T` before its first write, so each starts as a
/// copy of the first input element; nothing is ever read from it.
pub(crate) fn scratch<T: Copy>(u: &[T], len: usize) -> (buf: Vec<T>)
    requires
        len <= u@.len(),
    ensures
        buf@.len() == len,
{
    if len == 0 {
        Vec::new()
    } else {
        vec![u[0]; len]
    }
}

/// The sequential reference: a new vector as long as the shorter input whose
/// element `i` is `f(u[i], v[i])`.
pub fn vec_bin_op<T, F>(u: &[T], v: &[T], f: &F) -> (out: Vec<T>)
    where
        T: Copy,
        F: Fn(T, T) -> T,
    requires
        callable_on(*f, u@, v@),
    ensures
        combines(*f, u@, v@, out@),
{
    let len: usize = if u.len() <= v.len() { u.len() } else { v.len() };
    let mut out_vec: Vec<T> = Vec::with_capacity(len);
    let mut i: usize = 0;
    while i < len
        invariant
            len == common_len(u@, v@),
            i <= len,
            callable_on(*f, u@, v@),
            out_vec@.len() == i,
            forall|j: int| 0 <= j < i ==> f.ensures((u@[j], v@[j]), #[trigger] out_vec@[j]),
        decreases len - i,
    {
        out_vec.push(f(u[i], v[i]));
        i += 1;
    }
    out_vec
}

/// The sequential pass through a buffer allocated up front and handed to
/// [`vec_bin_op_mut`]. Same result as [`vec_bin_op`].
pub fn vec_bin_op_2<T, F>(u: &[T], v: &[T], f: &F) -> (out: Vec<T>)
    where
        T: Copy,
        F: Fn(T, T) -> T + Sync,
    requires
        callable_on(*f, u@, v@),
    ensures
        combines(*f, u@, v@, out@),
{
    let len: usize = if u.len() <= v.len() { u.len() } else { v.len() };
    let mut out_vec: Vec<T> = scratch(u, len);
    vec_bin_op_mut(u, v, out_vec.as_mut_slice(), f);
    assert(out_vec@.subrange(0, len as int) =~= out_vec@);
    out_vec
}

} // verus!
