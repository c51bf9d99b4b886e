use crate::heap::Value;
use crate::runtime::{ArrayHandle, Root, RootError, Runtime};
use vstd::prelude::*;

verus! {

/// An array never holds more elements than its backing store has room for.
pub proof fn lemma_len_within_capacity(rt: Runtime, h: ArrayHandle)
    requires
        rt.wf(),
        rt.valid_array(h),
    ensures
        rt.array_elems(h).len() <= rt.array_capacity(h),
{
    assert(crate::heap::object_wf(rt.heap.object(h.addr as int)));
}

/// Building an array from a sequence and reading its elements back gives the
/// sequence, in its order, whatever its length.
pub proof fn lemma_construct_round_trip(
    pre: Runtime,
    post: Runtime,
    elem: u64,
    items: Seq<Value>,
    h: ArrayHandle,
)
    requires
        Runtime::constructed(pre, post, elem, items, Ok(h)),
    ensures
        post.valid_array(h),
        post.array_elems(h) == items,
        post.array_elems(h).len() <= post.array_capacity(h),
{
}

/// A write made by a callee through the handle it builds from an array argument
/// is seen through the caller's handle once the call returns.
pub proof fn lemma_argument_aliases_caller(
    pre: Runtime,
    post: Runtime,
    caller: ArrayHandle,
    callee: ArrayHandle,
    i: usize,
    v: Value,
)
    requires
        pre.valid_array(caller),
        callee == (ArrayHandle { addr: caller.addr, instance: pre.instance }),
        Runtime::element_set(pre, post, callee, i, v, Ok(())),
    ensures
        post.valid_array(caller),
        post.array_elems(caller) == pre.array_elems(caller).update(i as int, v),
{
}

/// Appending never shrinks the backing store; a full store of `c > 0` elements
/// is replaced by one of `2 * c`, which for `c > 1` leaves room for the next
/// append.
pub proof fn lemma_push_growth(pre: Runtime, post: Runtime, h: ArrayHandle, v: Value)
    requires
        pre.wf(),
        pre.valid_array(h),
        Runtime::pushed(pre, post, h, v),
    ensures
        post.array_capacity(h) >= pre.array_capacity(h),
        pre.array_elems(h).len() < pre.array_capacity(h) ==> post.array_capacity(h)
            == pre.array_capacity(h),
        pre.array_elems(h).len() == pre.array_capacity(h) && 0 < pre.array_capacity(h) <= usize::MAX
            / 2 ==> post.array_capacity(h) == 2 * pre.array_capacity(h),
        pre.array_elems(h).len() == pre.array_capacity(h) && 1 < pre.array_capacity(h) <= usize::MAX
            / 2 ==> post.array_elems(h).len() < post.array_capacity(h),
{
    lemma_len_within_capacity(pre, h);
}

/// A rooted array outlives its handle: after a collection, redeeming the root
/// gives a handle to the same elements.
pub proof fn lemma_root_survives_collection(
    pre: Runtime,
    rooted: Runtime,
    collected: Runtime,
    h: ArrayHandle,
    root: Root,
    r: Result<ArrayHandle, RootError>,
)
    requires
        pre.wf(),
        pre.valid_array(h),
        pre.types.contains(pre.heap.object(h.addr as int)->Array_elem),
        Runtime::rooted(pre, rooted, h.addr, root),
        collected.instance == rooted.instance,
        collected.types == rooted.types,
        collected.roots == rooted.roots,
        collected.heap.slots@ == rooted.heap.swept(rooted.roots@),
        collected.redeemed(root, r),
    ensures
        r is Ok,
        collected.valid_array(r->Ok_0),
        collected.array_elems(r->Ok_0) == pre.array_elems(h),
{
    let a = h.addr as int;
    assert(rooted.roots@[root.id as int] == Some(h.addr));
    assert(rooted.heap.is_root(rooted.roots@, a));
    assert(rooted.heap.reachable_within(rooted.roots@, a, 0));
    assert(rooted.heap.reachable(rooted.roots@, a));
    assert(collected.heap.slots@[a] == pre.heap.slots@[a]);
}

} // verus!
