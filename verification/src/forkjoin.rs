//! The fork-join splitter: halves a range at its midpoint until a part is no
//! longer than the chunk size, runs the kernel on each part, and joins.

use vstd::prelude::*;
use crate::elementwise::{callable_on, combines, common_len, overwrites_front, scratch, vec_bin_op_mut};

verus! {

/// [`vec_bin_op_threaded`] divides the work only for chunk sizes above this.
pub const SPLIT_SIZE: usize = 10000;

/// The shape of the partition tree of one run of the splitter.
#[derive(Clone, Copy, Debug)]
pub struct SplitShape {
    /// The number of parts that the kernel ran on.
    pub leaves: usize,
    /// The number of halvings above the deepest part.
    pub depth: usize,
}

/// Whether the splitter divides a range of `len` positions at threshold
/// `chunk`. A range within the threshold is one part. So is a range of fewer
/// than two positions, which has no two non-empty halves; that only matters
/// for a threshold of zero, where the splitter accepts the empty range alone.
pub open spec fn divides(len: nat, chunk: nat) -> bool {
    len > chunk && len >= 2
}

/// The number of parts in the partition tree of `len` positions at threshold
/// `chunk`: the halves are the first `len / 2` positions and the rest.
pub open spec fn leaf_count(len: nat, chunk: nat) -> nat
    decreases len,
{
    if divides(len, chunk) {
        leaf_count(len / 2, chunk) + leaf_count((len - len / 2) as nat, chunk)
    } else {
        1
    }
}

/// The depth of that tree: zero for a single part, else one more than the
/// deeper half.
pub open spec fn split_depth(len: nat, chunk: nat) -> nat
    decreases len,
{
    if divides(len, chunk) {
        let left = split_depth(len / 2, chunk);
        let right = split_depth((len - len / 2) as nat, chunk);
        1 + if left >= right { left } else { right }
    } else {
        0
    }
}

/// A tree at a threshold of at least one has no empty part below its root,
/// so it has at most `len` parts and is less than `len` deep.
pub proof fn lemma_shape_bounds(len: nat, chunk: nat)
    requires
        len >= 1,
        chunk >= 1,
    ensures
        1 <= leaf_count(len, chunk) <= len,
        split_depth(len, chunk) < len,
    decreases len,
{
    if divides(len, chunk) {
        lemma_shape_bounds(len / 2, chunk);
        lemma_shape_bounds((len - len / 2) as nat, chunk);
    }
}

/// Joining is sound: if each half of the destination holds what the kernel
/// would leave there for the matching halves of the inputs, the whole holds
/// what the kernel would leave for the whole inputs. `mid` may be any cut
/// within the common length.
pub proof fn lemma_halves_compose<T, F: Fn(T, T) -> T>(
    f: F,
    u: Seq<T>,
    v: Seq<T>,
    before: Seq<T>,
    mid: int,
    after_left: Seq<T>,
    after_right: Seq<T>,
)
    requires
        0 <= mid <= common_len(u, v) <= before.len(),
        overwrites_front(
            f,
            u.subrange(0, mid),
            v.subrange(0, mid),
            before.subrange(0, mid),
            after_left,
        ),
        overwrites_front(
            f,
            u.subrange(mid, common_len(u, v) as int),
            v.subrange(mid, common_len(u, v) as int),
            before.subrange(mid, before.len() as int),
            after_right,
        ),
    ensures
        overwrites_front(f, u, v, before, after_left + after_right),
{
    let len = common_len(u, v) as int;
    let total = before.len() as int;
    let after = after_left + after_right;
    let (ul, vl) = (u.subrange(0, mid), v.subrange(0, mid));
    let (ur, vr) = (u.subrange(mid, len), v.subrange(mid, len));
    let front = after.subrange(0, len);
    let front_left = after_left.subrange(0, mid);
    let front_right = after_right.subrange(0, len - mid);
    assert(common_len(ul, vl) == mid);
    assert(common_len(ur, vr) == len - mid);
    assert forall|i: int| 0 <= i < front.len() implies f.ensures((u[i], v[i]), #[trigger] front[i]) by {
        if i < mid {
            assert(front[i] == front_left[i]);
            assert(ul[i] == u[i] && vl[i] == v[i]);
        } else {
            assert(front[i] == front_right[i - mid]);
            assert(ur[i - mid] == u[i] && vr[i - mid] == v[i]);
        }
    }
    let rest_right = after_right.subrange(len - mid, after_right.len() as int);
    let rest_before = before.subrange(mid, total).subrange(len - mid, total - mid);
    assert(rest_right == rest_before);
    assert forall|k: int| 0 <= k < total - len implies after.subrange(len, total)[k]
        == before.subrange(len, total)[k] by {
        assert(after.subrange(len, total)[k] == rest_right[k]);
        assert(before.subrange(len, total)[k] == rest_before[k]);
    }
    assert(after.subrange(len, total) =~= before.subrange(len, total));
}

/// Runs `left` on `dst_left` and `right` on `dst_right` through
/// `rayon::join`, which may run the two on different threads and returns
/// their results once both have finished. Trusted: all that is claimed is
/// that each closure was called, once, on the slice it is paired with here.
#[verifier::external_body]
fn join_on<T, A, B, RA, RB>(left: A, dst_left: &mut [T], right: B, dst_right: &mut [T]) -> (r: (RA, RB))
    where
        T: Send,
        A: FnOnce(&mut [T]) -> RA + Send,
        B: FnOnce(&mut [T]) -> RB + Send,
        RA: Send,
        RB: Send,
    requires
        left.requires((old(dst_left),)),
        right.requires((old(dst_right),)),
    ensures
        left.ensures((old(dst_left),), r.0),
        right.ensures((old(dst_right),), r.1),
{
    rayon::join(move || left(dst_left), move || right(dst_right))
}

/// The splitter, reporting the tree it built. A range longer than
/// `chunk_size` is cut at `len / 2`; the two halves of the inputs and of
/// `dst` go to two jobs that may run concurrently, and the call returns when
/// both are done. A range within `chunk_size` goes to [`vec_bin_op_mut`].
///
/// With a chunk size of zero no non-empty range is ever short enough, so
/// only the empty range is accepted there.
pub fn vec_bin_op_split_traced<T, F>(
    u: &[T],
    v: &[T],
    dst: &mut [T],
    chunk_size: &usize,
    f: &F,
) -> (shape: SplitShape)
    where
        T: Copy + Send + Sync,
        F: Fn(T, T) -> T + Sync,
    requires
        common_len(u@, v@) <= old(dst)@.len(),
        callable_on(*f, u@, v@),
        *chunk_size >= 1 || common_len(u@, v@) == 0,
    ensures
        overwrites_front(*f, u@, v@, old(dst)@, final(dst)@),
        shape.leaves == leaf_count(common_len(u@, v@), *chunk_size as nat),
        shape.depth == split_depth(common_len(u@, v@), *chunk_size as nat),
    decreases common_len(u@, v@),
{
    let len: usize = if u.len() <= v.len() { u.len() } else { v.len() };
    if len > *chunk_size {
        let mid_point: usize = len / 2;
        let x_left: &[T] = &u[0..mid_point];
        let x_right: &[T] = &u[mid_point..len];
        let y_left: &[T] = &v[0..mid_point];
        let y_right: &[T] = &v[mid_point..len];
        let (dst_left, dst_right) = dst.split_at_mut(mid_point);
        let left = |d: &mut [T]| -> (s: SplitShape)
            requires
                old(d)@.len() == mid_point,
            ensures
                overwrites_front(*f, x_left@, y_left@, old(d)@, final(d)@),
                s.leaves == leaf_count(common_len(x_left@, y_left@), *chunk_size as nat),
                s.depth == split_depth(common_len(x_left@, y_left@), *chunk_size as nat),
            {
                vec_bin_op_split_traced(x_left, y_left, d, chunk_size, f)
            };
        let right = |d: &mut [T]| -> (s: SplitShape)
            requires
                old(d)@.len() >= len - mid_point,
            ensures
                overwrites_front(*f, x_right@, y_right@, old(d)@, final(d)@),
                s.leaves == leaf_count(common_len(x_right@, y_right@), *chunk_size as nat),
                s.depth == split_depth(common_len(x_right@, y_right@), *chunk_size as nat),
            {
                vec_bin_op_split_traced(x_right, y_right, d, chunk_size, f)
            };
        let (shape_left, shape_right) = join_on(left, dst_left, right, dst_right);
        proof {
            lemma_shape_bounds(mid_point as nat, *chunk_size as nat);
            lemma_shape_bounds((len - mid_point) as nat, *chunk_size as nat);
            lemma_halves_compose(*f, u@, v@, old(dst)@, mid_point as int, dst_left@, dst_right@);
        }
        SplitShape {
            leaves: shape_left.leaves + shape_right.leaves,
            depth: 1 + if shape_left.depth >= shape_right.depth {
                shape_left.depth
            } else {
                shape_right.depth
            },
        }
    } else {
        vec_bin_op_mut(u, v, dst, f);
        SplitShape { leaves: 1, depth: 0 }
    }
}

/// The splitter: after the call the leading `common_len` slots of `dst` hold
/// the combination of `u` and `v`, written by as many concurrent jobs as the
/// partition tree of [`vec_bin_op_split_traced`] has parts.
pub fn vec_bin_op_split<T, F>(u: &[T], v: &[T], dst: &mut [T], chunk_size: &usize, f: &F)
    where
        T: Copy + Send + Sync,
        F: Fn(T, T) -> T + Sync,
    requires
        common_len(u@, v@) <= old(dst)@.len(),
        callable_on(*f, u@, v@),
        *chunk_size >= 1 || common_len(u@, v@) == 0,
    ensures
        overwrites_front(*f, u@, v@, old(dst)@, final(dst)@),
{
    let _ = vec_bin_op_split_traced(u, v, dst, chunk_size, f);
}

/// The parallel counterpart of the sequential pass: a new vector as long as
/// the shorter input whose element `i` is `f(u[i], v[i])`. The work is
/// divided by [`vec_bin_op_split`] when `chunk_size` is above [`SPLIT_SIZE`]
/// and done in one pass otherwise; the result does not depend on which.
pub fn vec_bin_op_threaded<T, F>(u: &[T], v: &[T], chunk_size: &usize, f: &F) -> (out: Vec<T>)
    where
        T: Copy + Send + Sync,
        F: Fn(T, T) -> T + Sync,
    requires
        callable_on(*f, u@, v@),
    ensures
        combines(*f, u@, v@, out@),
{
    let len: usize = if u.len() <= v.len() { u.len() } else { v.len() };
    let mut out_vec: Vec<T> = scratch(u, len);
    if *chunk_size > SPLIT_SIZE {
        vec_bin_op_split(u, v, out_vec.as_mut_slice(), chunk_size, f);
    } else {
        vec_bin_op_mut(u, v, out_vec.as_mut_slice(), f);
    }
    assert(out_vec@.subrange(0, len as int) =~= out_vec@);
    out_vec
}

} // verus!
