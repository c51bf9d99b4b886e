use std::sync::Arc;
use vstd::pervasive::strictly_cloned;
use vstd::prelude::*;

verus! {

/// Relies on `Arc::get_mut`: where no other pointer shares the slice, it hands out
/// a reference to the slice itself, and writes through it are writes to that
/// slice; otherwise the `Arc` is handed back as it was.
#[verifier::external_body]
fn slice_get_mut<T>(a: &mut Arc<[T]>) -> (r: Result<&mut [T], &mut Arc<[T]>>)
    ensures
        match r {
            Ok(s) => s@ == (**old(a))@ && (**final(a))@ == final(s)@,
            Err(b) => (**b)@ == (**old(a))@ && (**final(a))@ == (**final(b))@,
        },
{
    if Arc::get_mut(a).is_some() {
        Ok(Arc::get_mut(a).unwrap())
    } else {
        Err(a)
    }
}

/// Relies on `Arc::from` for a `Vec`, which moves the elements into a new
/// allocation that nothing else points to, and on `Arc::get_mut`, which hands out
/// the contents of an `Arc` that has no other strong or weak pointer.
#[verifier::external_body]
fn install_unique<T>(a: &mut Arc<[T]>, fresh: Vec<T>) -> (r: &mut [T])
    ensures
        r@ == fresh@,
        (**final(a))@ == final(r)@,
{
    *a = Arc::from(fresh);
    Arc::get_mut(a).unwrap()
}

/// Clones each element of a slice into a new vector, in order.
fn clone_elements<T: Clone>(s: &[T]) -> (r: Vec<T>)
    ensures
        r@.len() == s@.len(),
        forall|i: int| 0 <= i < s@.len() ==> strictly_cloned(s@[i], #[trigger] r@[i]),
{
    let mut r: Vec<T> = Vec::new();
    let mut i: usize = 0;
    while i < s.len()
        invariant
            i <= s@.len(),
            r@.len() == i,
            forall|j: int| 0 <= j < i ==> strictly_cloned(s@[j], #[trigger] r@[j]),
        decreases s@.len() - i,
    {
        r.push(s[i].clone());
        i = i + 1;
    }
    r
}

/// Mutable access to the elements of a shared slice (`Arc::make_mut` for slices).
/// Where other pointers share the slice, its elements are first cloned into an
/// allocation of its own; the result is then either the slice as it was or,
/// element by element, clones of it.
pub fn make_mut_slice<T: Clone>(a: &mut Arc<[T]>) -> (r: &mut [T])
    ensures
        r@.len() == (**old(a))@.len(),
        r@ == (**old(a))@ || forall|i: int|
            0 <= i < r@.len() ==> strictly_cloned((**old(a))@[i], #[trigger] r@[i]),
        (**final(a))@ == final(r)@,
{
    match slice_get_mut(a) {
        Ok(r) => r,
        Err(shared) => {
            let fresh = clone_elements(&**shared);
            install_unique(shared, fresh)
        },
    }
}

} // verus!
