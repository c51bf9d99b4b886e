use vstd::prelude::*;

verus! {

/// A value as compiled code and native code exchange it: a primitive, or the
/// address of a heap object.
#[derive(Clone, Copy, Debug, PartialEq, Eq, Structural)]
pub enum Value {
    I32(i32),
    I64(i64),
    Usize(usize),
    Bool(bool),
    Ref(usize),
}

/// An allocation on the managed heap.
pub enum HeapObject {
    /// Growable contiguous storage of elements of type `elem`; `capacity` is the
    /// number of elements the backing store has room for.
    Array { elem: u64, elems: Vec<Value>, capacity: usize },
    /// Field storage of a struct of type `ty`, one value per field.
    Struct { ty: u64, fields: Vec<Value> },
}

#[derive(Clone, Copy, Debug, PartialEq, Eq, Structural)]
pub enum AllocationError {
    OutOfMemory,
}

#[derive(Clone, Copy, Debug, PartialEq, Eq, Structural)]
pub enum BoundsError {
    IndexOutOfBounds,
}

pub open spec fn object_wf(o: HeapObject) -> bool {
    match o {
        HeapObject::Array { elems, capacity, .. } => elems@.len() <= capacity,
        HeapObject::Struct { .. } => true,
    }
}

/// Capacity of the backing store that replaces a full one of `capacity` elements.
pub open spec fn grown_capacity(capacity: nat) -> nat {
    if capacity == 0 {
        1
    } else if 2 * capacity <= usize::MAX {
        2 * capacity
    } else {
        usize::MAX as nat
    }
}

/// Every slot of `post` but `a` holds what it held in `pre`; `a` may be a slot
/// added at the end.
pub open spec fn slots_same_except(
    post: Seq<Option<HeapObject>>,
    pre: Seq<Option<HeapObject>>,
    a: int,
) -> bool {
    &&& (post.len() == pre.len() || (a == pre.len() && post.len() == a + 1))
    &&& forall|b: int| 0 <= b < pre.len() && b != a ==> #[trigger] post[b] == pre[b]
}

/// Slots of heap objects, addressed by index; a free slot holds `None`. At most
/// `limit` slots exist.
pub struct Heap {
    pub slots: Vec<Option<HeapObject>>,
    pub limit: usize,
}

impl Heap {
    pub open spec fn wf(&self) -> bool {
        &&& self.slots@.len() <= self.limit
        &&& forall|a: int|
            0 <= a < self.slots@.len() && (#[trigger] self.slots@[a]) is Some ==> object_wf(
                self.slots@[a]->Some_0,
            )
    }

    pub open spec fn live(&self, a: int) -> bool {
        0 <= a < self.slots@.len() && self.slots@[a] is Some
    }

    pub open spec fn object(&self, a: int) -> HeapObject {
        self.slots@[a]->Some_0
    }

    pub open spec fn is_array(&self, a: int) -> bool {
        self.live(a) && self.object(a) is Array
    }

    pub open spec fn is_struct(&self, a: int) -> bool {
        self.live(a) && self.object(a) is Struct
    }

    /// Elements of the array at `a`, in order.
    pub open spec fn elems(&self, a: int) -> Seq<Value> {
        self.object(a)->Array_elems@
    }

    pub open spec fn capacity(&self, a: int) -> nat {
        self.object(a)->Array_capacity as nat
    }

    /// Field values of the struct at `a`, in layout order.
    pub open spec fn fields(&self, a: int) -> Seq<Value> {
        self.object(a)->Struct_fields@
    }

    /// An empty heap with room for `limit` objects.
    pub fn new(limit: usize) -> (r: Heap)
        ensures
            r.wf(),
            r.slots@.len() == 0,
            r.limit == limit,
    {
        Heap { slots: Vec::new(), limit }
    }

    /// Whether every slot is taken and no new one may be made.
    pub open spec fn full(&self) -> bool {
        &&& self.slots@.len() >= self.limit
        &&& forall|a: int| 0 <= a < self.slots@.len() ==> (#[trigger] self.slots@[a]) is Some
    }

    pub fn is_full(&self) -> (r: bool)
        ensures
            r == self.full(),
    {
        if self.slots.len() < self.limit {
            return false;
        }
        let mut i: usize = 0;
        while i < self.slots.len()
            invariant
                i <= self.slots@.len(),
                forall|b: int| 0 <= b < i ==> (#[trigger] self.slots@[b]) is Some,
            decreases self.slots@.len() - i,
        {
            if self.slots[i].is_none() {
                return false;
            }
            i = i + 1;
        }
        true
    }

    /// Places `obj` in a free slot, or in a new one.
    pub fn allocate(&mut self, obj: HeapObject) -> (r: Result<usize, AllocationError>)
        requires
            old(self).wf(),
            object_wf(obj),
        ensures
            final(self).wf(),
            final(self).limit == old(self).limit,
            old(self).full() <==> r is Err,
            r is Err ==> *final(self) == *old(self),
            r matches Ok(a) ==> !old(self).live(a as int) && a <= old(self).slots@.len()
                && final(self).live(a as int) && final(self).object(a as int) == obj
                && final(self).same_except(*old(self), a as int),
    {
        let mut i: usize = 0;
        while i < self.slots.len()
            invariant
                *self == *old(self),
                self.wf(),
                object_wf(obj),
                i <= self.slots@.len(),
                forall|b: int| 0 <= b < i ==> (#[trigger] self.slots@[b]) is Some,
            decreases self.slots@.len() - i,
        {
            if self.slots[i].is_none() {
                self.slots.set(i, Some(obj));
                assert forall|a: int|
                    0 <= a < self.slots@.len() && (#[trigger] self.slots@[a]) is Some implies object_wf(
                        self.slots@[a]->Some_0,
                    ) by {
                    if a != i {
                        assert(self.slots@[a] == old(self).slots@[a]);
                    }
                }
                return Ok(i);
            }
            i = i + 1;
        }
        if self.slots.len() < self.limit {
            let a = self.slots.len();
            self.slots.push(Some(obj));
            Ok(a)
        } else {
            Err(AllocationError::OutOfMemory)
        }
    }

    pub fn array_len(&self, a: usize) -> (r: usize)
        requires
            self.is_array(a as int),
        ensures
            r == self.elems(a as int).len(),
    {
        match &self.slots[a] {
            Some(HeapObject::Array { elems, .. }) => elems.len(),
            _ => 0,
        }
    }

    pub fn array_capacity(&self, a: usize) -> (r: usize)
        requires
            self.is_array(a as int),
        ensures
            r == self.capacity(a as int),
    {
        match &self.slots[a] {
            Some(HeapObject::Array { capacity, .. }) => *capacity,
            _ => 0,
        }
    }

    /// The element at index `i` of the array at `a`.
    pub fn array_get(&self, a: usize, i: usize) -> (r: Result<Value, BoundsError>)
        requires
            self.is_array(a as int),
        ensures
            i < self.elems(a as int).len() ==> r == Ok::<Value, BoundsError>(self.elems(a as int)[i as int]),
            i >= self.elems(a as int).len() ==> r == Err::<Value, BoundsError>(BoundsError::IndexOutOfBounds),
    {
        match &self.slots[a] {
            Some(HeapObject::Array { elems, .. }) => {
                if i < elems.len() {
                    Ok(elems[i])
                } else {
                    Err(BoundsError::IndexOutOfBounds)
                }
            },
            _ => Err(BoundsError::IndexOutOfBounds),
        }
    }

    /// Replaces the element at index `i` of the array at `a`.
    pub fn array_set(&mut self, a: usize, i: usize, v: Value) -> (r: Result<(), BoundsError>)
        requires
            old(self).wf(),
            old(self).is_array(a as int),
        ensures
            final(self).wf(),
            final(self).same_except(*old(self), a as int),
            final(self).is_array(a as int),
            final(self).object(a as int)->Array_elem == old(self).object(a as int)->Array_elem,
            final(self).capacity(a as int) == old(self).capacity(a as int),
            i < old(self).elems(a as int).len() ==> r is Ok && final(self).elems(a as int) == old(
                self,
            ).elems(a as int).update(i as int, v),
            i >= old(self).elems(a as int).len() ==> r == Err::<(), BoundsError>(
                BoundsError::IndexOutOfBounds,
            ) && *final(self) == *old(self),
    {
        if i >= self.array_len(a) {
            return Err(BoundsError::IndexOutOfBounds);
        }
        let ghost pre = *self;
        match &mut self.slots[a] {
            Some(HeapObject::Array { elems, .. }) => {
                elems.set(i, v);
            },
            _ => {},
        }
        proof { self.lemma_wf_after_update(pre, a as int); }
        Ok(())
    }

    /// Every slot but `a` holds what it held in `pre`.
    pub open spec fn same_except(&self, pre: Heap, a: int) -> bool {
        &&& self.limit == pre.limit
        &&& slots_same_except(self.slots@, pre.slots@, a)
    }

    proof fn lemma_wf_after_update(&self, pre: Heap, a: int)
        requires
            pre.wf(),
            self.same_except(pre, a),
            self.slots@.len() == pre.slots@.len(),
            self.live(a),
            object_wf(self.object(a)),
        ensures
            self.wf(),
    {
        assert forall|b: int|
            0 <= b < self.slots@.len() && (#[trigger] self.slots@[b]) is Some implies object_wf(
                self.slots@[b]->Some_0,
            ) by {
            if b != a {
                assert(self.slots@[b] == pre.slots@[b]);
            }
        }
    }

    /// Appends `v` to the array at `a`. A full backing store is first replaced by
    /// one of `grown_capacity` elements.
    pub fn array_push(&mut self, a: usize, v: Value)
        requires
            old(self).wf(),
            old(self).is_array(a as int),
            old(self).elems(a as int).len() < usize::MAX,
        ensures
            final(self).wf(),
            final(self).same_except(*old(self), a as int),
            final(self).is_array(a as int),
            final(self).object(a as int)->Array_elem == old(self).object(a as int)->Array_elem,
            final(self).elems(a as int) == old(self).elems(a as int).push(v),
            old(self).elems(a as int).len() < old(self).capacity(a as int) ==> final(self).capacity(
                a as int,
            ) == old(self).capacity(a as int),
            old(self).elems(a as int).len() == old(self).capacity(a as int) ==> final(self).capacity(
                a as int,
            ) == grown_capacity(old(self).capacity(a as int)),
    {
        let ghost pre = *self;
        match &mut self.slots[a] {
            Some(HeapObject::Array { elems, capacity, .. }) => {
                if elems.len() == *capacity {
                    *capacity = if *capacity == 0 {
                        1
                    } else if *capacity <= usize::MAX / 2 {
                        *capacity * 2
                    } else {
                        usize::MAX
                    };
                }
                elems.push(v);
            },
            _ => {},
        }
        proof { self.lemma_wf_after_update(pre, a as int); }
    }

    /// The value of field `f` of the struct at `a`.
    pub fn struct_get(&self, a: usize, f: usize) -> (r: Value)
        requires
            self.is_struct(a as int),
            f < self.fields(a as int).len(),
        ensures
            r == self.fields(a as int)[f as int],
    {
        match &self.slots[a] {
            Some(HeapObject::Struct { fields, .. }) => fields[f],
            _ => Value::Bool(false),
        }
    }

    /// Replaces the value of field `f` of the struct at `a`.
    pub fn struct_set(&mut self, a: usize, f: usize, v: Value)
        requires
            old(self).wf(),
            old(self).is_struct(a as int),
            f < old(self).fields(a as int).len(),
        ensures
            final(self).wf(),
            final(self).same_except(*old(self), a as int),
            final(self).is_struct(a as int),
            final(self).object(a as int)->Struct_ty == old(self).object(a as int)->Struct_ty,
            final(self).fields(a as int) == old(self).fields(a as int).update(f as int, v),
    {
        let ghost pre = *self;
        match &mut self.slots[a] {
            Some(HeapObject::Struct { fields, .. }) => {
                fields.set(f, v);
            },
            _ => {},
        }
        proof { self.lemma_wf_after_update(pre, a as int); }
    }

    /// Type of the struct at `a`.
    pub fn struct_type(&self, a: usize) -> (r: u64)
        requires
            self.is_struct(a as int),
        ensures
            r == self.object(a as int)->Struct_ty,
    {
        match &self.slots[a] {
            Some(HeapObject::Struct { ty, .. }) => *ty,
            _ => 0,
        }
    }

    /// Number of fields of the struct at `a`.
    pub fn struct_len(&self, a: usize) -> (r: usize)
        requires
            self.is_struct(a as int),
        ensures
            r == self.fields(a as int).len(),
    {
        match &self.slots[a] {
            Some(HeapObject::Struct { fields, .. }) => fields.len(),
            _ => 0,
        }
    }
}

} // verus!
