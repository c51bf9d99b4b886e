use crate::heap::{object_wf, slots_same_except, AllocationError, BoundsError, Heap, HeapObject, Value};
use crate::types::{
    field_position, find_field, layout_eq, same_layout, FieldError, PrimKind, TypeKind, TypeRegistry,
};
use vstd::prelude::*;

verus! {

/// Signature of a compiled function: its name, parameter types and return type.
pub struct FunctionSig {
    pub name: String,
    pub params: Vec<u64>,
    pub ret: u64,
}

/// A borrowed view of an array on the heap of one runtime instance.
#[derive(Clone, Copy, Debug, PartialEq, Eq, Structural)]
pub struct ArrayHandle {
    pub addr: usize,
    pub instance: u64,
}

/// A borrowed view of a struct on the heap of one runtime instance.
#[derive(Clone, Copy, Debug, PartialEq, Eq, Structural)]
pub struct StructHandle {
    pub addr: usize,
    pub instance: u64,
}

/// An entry of the root table, which keeps its target alive.
#[derive(Clone, Copy, Debug, PartialEq, Eq, Structural)]
pub struct Root {
    pub id: usize,
}

#[derive(Clone, Copy, Debug, PartialEq, Eq, Structural)]
pub enum InvokeError {
    FunctionNotFound,
    ArgumentCountMismatch,
    ArgumentTypeMismatch,
    ReturnTypeMismatch,
}

#[derive(Clone, Copy, Debug, PartialEq, Eq, Structural)]
pub enum RootError {
    RootNotFound,
    StaleTypeLayout,
}

#[derive(Clone, Copy, Debug, PartialEq, Eq, Structural)]
pub enum ReloadError {
    IncompatibleLayoutChange,
}

/// One runtime instance: its type registry, function table, heap and root table.
pub struct Runtime {
    /// Identity of this instance; a hot reload gives it a new one.
    pub instance: u64,
    pub types: TypeRegistry,
    pub functions: Vec<FunctionSig>,
    pub heap: Heap,
    /// Root table: the address each live root keeps alive.
    pub roots: Vec<Option<usize>>,
}

pub open spec fn prim_matches(v: Value, p: PrimKind) -> bool {
    match (v, p) {
        (Value::I32(_), PrimKind::I32) => true,
        (Value::I64(_), PrimKind::I64) => true,
        (Value::Usize(_), PrimKind::Usize) => true,
        (Value::Bool(_), PrimKind::Bool) => true,
        _ => false,
    }
}

impl Runtime {
    pub open spec fn wf(&self) -> bool {
        &&& self.types.wf()
        &&& self.heap.wf()
        &&& forall|r: int|
            0 <= r < self.roots@.len() && (#[trigger] self.roots@[r]) is Some ==> self.heap.live(
                self.roots@[r]->Some_0 as int,
            )
    }

    /// `v` is a value of the type published under `ty`.
    pub open spec fn has_type(&self, v: Value, ty: u64) -> bool {
        &&& self.types.contains(ty)
        &&& match (v, self.types.descriptor(ty).kind) {
            (Value::Ref(a), TypeKind::Struct { fields, .. }) => self.heap.is_struct(a as int)
                && self.heap.object(a as int)->Struct_ty == ty && self.heap.fields(a as int).len()
                == fields@.len(),
            (Value::Ref(a), TypeKind::Array { elem, .. }) => self.heap.is_array(a as int)
                && self.heap.object(a as int)->Array_elem == elem,
            (_, TypeKind::Prim(p)) => prim_matches(v, p),
            _ => false,
        }
    }

    /// The handle may be used with this instance.
    pub open spec fn valid_array(&self, h: ArrayHandle) -> bool {
        h.instance == self.instance && self.heap.is_array(h.addr as int)
    }

    /// The struct's type is published with a struct layout of as many fields as
    /// the object holds.
    pub open spec fn struct_layout_current(&self, a: int) -> bool {
        let ty = self.heap.object(a)->Struct_ty;
        &&& self.heap.is_struct(a)
        &&& self.types.contains(ty)
        &&& self.types.descriptor(ty).kind is Struct
        &&& self.types.descriptor(ty).kind->Struct_fields@.len() == self.heap.fields(a).len()
    }

    pub open spec fn valid_struct(&self, h: StructHandle) -> bool {
        h.instance == self.instance && self.struct_layout_current(h.addr as int)
    }

    /// Elements of the array a handle views.
    pub open spec fn array_elems(&self, h: ArrayHandle) -> Seq<Value> {
        self.heap.elems(h.addr as int)
    }

    pub open spec fn array_capacity(&self, h: ArrayHandle) -> nat {
        self.heap.capacity(h.addr as int)
    }

    /// A runtime instance with no objects and no roots.
    pub fn new(types: TypeRegistry, functions: Vec<FunctionSig>, heap_limit: usize) -> (r: Runtime)
        requires
            types.wf(),
        ensures
            r.wf(),
            r.instance == 0,
            r.types == types,
            r.functions == functions,
            r.heap.slots@.len() == 0,
            r.heap.limit == heap_limit,
            r.roots@.len() == 0,
    {
        Runtime { instance: 0, types, functions, heap: Heap::new(heap_limit), roots: Vec::new() }
    }

    /// Everything but the heap slot at `a` is as in `pre`.
    pub open spec fn same_except(&self, pre: Runtime, a: int) -> bool {
        &&& self.instance == pre.instance
        &&& self.types == pre.types
        &&& self.functions == pre.functions
        &&& self.roots == pre.roots
        &&& self.heap.same_except(pre.heap, a)
    }

    /// The heap slots that an allocation starts from: those left by a collection
    /// where the heap was full.
    pub open spec fn slots_for_allocation(&self) -> Seq<Option<HeapObject>> {
        if self.heap.full() {
            self.heap.swept(self.roots@)
        } else {
            self.heap.slots@
        }
    }

    /// Outcome of placing `obj` on the heap.
    pub open spec fn allocated(pre: Runtime, post: Runtime, r: Result<usize, AllocationError>) -> bool {
        &&& post.instance == pre.instance
        &&& post.types == pre.types
        &&& post.functions == pre.functions
        &&& post.roots == pre.roots
        &&& post.heap.limit == pre.heap.limit
        &&& match r {
            Ok(a) => {
                &&& a <= pre.slots_for_allocation().len()
                &&& (a < pre.slots_for_allocation().len() ==> pre.slots_for_allocation()[a as int] is None)
                &&& slots_same_except(post.heap.slots@, pre.slots_for_allocation(), a as int)
                &&& post.heap.live(a as int)
            },
            Err(e) => {
                &&& e == AllocationError::OutOfMemory
                &&& pre.heap.full()
                &&& post.heap.slots@ == pre.heap.swept(pre.roots@)
                &&& post.heap.full()
            },
        }
    }

    /// Frees every object that no root reaches.
    pub fn collect(&mut self)
        requires
            old(self).wf(),
        ensures
            final(self).wf(),
            final(self).instance == old(self).instance,
            final(self).types == old(self).types,
            final(self).functions == old(self).functions,
            final(self).roots == old(self).roots,
            final(self).heap.limit == old(self).heap.limit,
            final(self).heap.slots@ == old(self).heap.swept(old(self).roots@),
    {
        self.heap.collect(&self.roots);
        proof {
            assert forall|r: int|
                0 <= r < self.roots@.len() && (#[trigger] self.roots@[r]) is Some implies self.heap.live(
                    self.roots@[r]->Some_0 as int,
                ) by {
                let a = self.roots@[r]->Some_0 as int;
                assert(old(self).heap.live(a));
                assert(old(self).heap.is_root(self.roots@, a));
                assert(old(self).heap.reachable_within(self.roots@, a, 0));
                assert(old(self).heap.reachable(self.roots@, a));
                assert(self.heap.slots@[a] == old(self).heap.slots@[a]);
            }
        }
    }

    /// Places `obj` on the heap; where the heap is full, a collection runs first,
    /// and only a heap still full after it refuses the object.
    fn allocate(&mut self, obj: HeapObject) -> (r: Result<usize, AllocationError>)
        requires
            old(self).wf(),
            object_wf(obj),
        ensures
            final(self).wf(),
            Runtime::allocated(*old(self), *final(self), r),
            r matches Ok(a) ==> final(self).heap.object(a as int) == obj,
    {
        if self.heap.is_full() {
            self.collect();
        }
        let ghost mid = *self;
        let r = self.heap.allocate(obj);
        proof {
            if r is Ok {
                assert forall|k: int|
                    0 <= k < self.roots@.len() && (#[trigger] self.roots@[k]) is Some implies self.heap.live(
                        self.roots@[k]->Some_0 as int,
                    ) by {
                    assert(mid.heap.live(mid.roots@[k]->Some_0 as int));
                }
            } else {
                assert(mid.heap.full());
            }
        }
        r
    }

    /// Outcome of building an array of `items` of element type `elem`.
    pub open spec fn constructed(
        pre: Runtime,
        post: Runtime,
        elem: u64,
        items: Seq<Value>,
        r: Result<ArrayHandle, AllocationError>,
    ) -> bool {
        match r {
            Ok(h) => {
                &&& h.instance == pre.instance
                &&& Runtime::allocated(pre, post, Ok(h.addr))
                &&& post.valid_array(h)
                &&& post.heap.object(h.addr as int)->Array_elem == elem
                &&& post.array_elems(h) == items
                &&& post.array_capacity(h) == items.len()
            },
            Err(e) => Runtime::allocated(pre, post, Err(e)),
        }
    }

    /// Builds an array from a sequence of native values of type `elem`, in order.
    pub fn construct_array(&mut self, elem: u64, items: Vec<Value>) -> (r: Result<
        ArrayHandle,
        AllocationError,
    >)
        requires
            old(self).wf(),
            forall|k: int| 0 <= k < items@.len() ==> old(self).has_type(#[trigger] items@[k], elem),
        ensures
            final(self).wf(),
            Runtime::constructed(*old(self), *final(self), elem, items@, r),
    {
        let capacity = items.len();
        match self.allocate(HeapObject::Array { elem, elems: items, capacity }) {
            Ok(a) => Ok(ArrayHandle { addr: a, instance: self.instance }),
            Err(e) => Err(e),
        }
    }

    /// A heap mutation at `a` that keeps `a` live and the heap well formed keeps
    /// the runtime well formed.
    proof fn lemma_wf_after_heap_update(&self, pre: Runtime, a: int)
        requires
            pre.wf(),
            self.same_except(pre, a),
            self.heap.wf(),
            self.heap.live(a),
        ensures
            self.wf(),
    {
        assert forall|r: int|
            0 <= r < self.roots@.len() && (#[trigger] self.roots@[r]) is Some implies self.heap.live(
                self.roots@[r]->Some_0 as int,
            ) by {
            assert(pre.heap.live(pre.roots@[r]->Some_0 as int));
        }
    }

    /// Outcome of writing `v` at index `i` through `h`.
    pub open spec fn element_set(
        pre: Runtime,
        post: Runtime,
        h: ArrayHandle,
        i: usize,
        v: Value,
        r: Result<(), BoundsError>,
    ) -> bool {
        if i < pre.array_elems(h).len() {
            &&& r is Ok
            &&& post.same_except(pre, h.addr as int)
            &&& post.valid_array(h)
            &&& post.heap.object(h.addr as int)->Array_elem == pre.heap.object(h.addr as int)->Array_elem
            &&& post.array_elems(h) == pre.array_elems(h).update(i as int, v)
            &&& post.array_capacity(h) == pre.array_capacity(h)
        } else {
            r == Err::<(), BoundsError>(BoundsError::IndexOutOfBounds) && post == pre
        }
    }

    /// Outcome of appending `v` through `h`.
    pub open spec fn pushed(pre: Runtime, post: Runtime, h: ArrayHandle, v: Value) -> bool {
        &&& post.same_except(pre, h.addr as int)
        &&& post.valid_array(h)
        &&& post.heap.object(h.addr as int)->Array_elem == pre.heap.object(h.addr as int)->Array_elem
        &&& post.array_elems(h) == pre.array_elems(h).push(v)
        &&& pre.array_elems(h).len() < pre.array_capacity(h) ==> post.array_capacity(h)
            == pre.array_capacity(h)
        &&& pre.array_elems(h).len() == pre.array_capacity(h) ==> post.array_capacity(h)
            == crate::heap::grown_capacity(pre.array_capacity(h))
    }

    /// Outcome of rooting the object at `a`.
    pub open spec fn rooted(pre: Runtime, post: Runtime, a: usize, r: Root) -> bool {
        &&& post.instance == pre.instance
        &&& post.types == pre.types
        &&& post.functions == pre.functions
        &&& post.heap == pre.heap
        &&& post.roots@ == pre.roots@.push(Some(a))
        &&& r.id == pre.roots@.len()
    }

    /// Outcome of redeeming `root` as an array handle of this instance.
    pub open spec fn redeemed(&self, root: Root, r: Result<ArrayHandle, RootError>) -> bool {
        if root.id >= self.roots@.len() || self.roots@[root.id as int] is None {
            r == Err::<ArrayHandle, RootError>(RootError::RootNotFound)
        } else {
            let a = self.roots@[root.id as int]->Some_0;
            if self.heap.is_array(a as int) && self.types.contains(
                self.heap.object(a as int)->Array_elem,
            ) {
                r == Ok::<ArrayHandle, RootError>(ArrayHandle { addr: a, instance: self.instance })
            } else {
                r == Err::<ArrayHandle, RootError>(RootError::StaleTypeLayout)
            }
        }
    }

    /// Outcome of redeeming `root` as a struct handle of this instance.
    pub open spec fn redeemed_struct(&self, root: Root, r: Result<StructHandle, RootError>) -> bool {
        if root.id >= self.roots@.len() || self.roots@[root.id as int] is None {
            r == Err::<StructHandle, RootError>(RootError::RootNotFound)
        } else {
            let a = self.roots@[root.id as int]->Some_0;
            if self.struct_layout_current(a as int) {
                r == Ok::<StructHandle, RootError>(StructHandle { addr: a, instance: self.instance })
            } else {
                r == Err::<StructHandle, RootError>(RootError::StaleTypeLayout)
            }
        }
    }

    fn add_root(&mut self, a: usize) -> (r: Root)
        requires
            old(self).wf(),
            old(self).heap.live(a as int),
        ensures
            final(self).wf(),
            Runtime::rooted(*old(self), *final(self), a, r),
    {
        let id = self.roots.len();
        self.roots.push(Some(a));
        proof {
            assert forall|r: int|
                0 <= r < self.roots@.len() && (#[trigger] self.roots@[r]) is Some implies self.heap.live(
                    self.roots@[r]->Some_0 as int,
                ) by {
                if r < old(self).roots@.len() {
                    assert(self.roots@[r] == old(self).roots@[r]);
                }
            }
        }
        Root { id }
    }
}

/// Position of the first function named `name`.
pub open spec fn function_position(fs: Seq<FunctionSig>, name: Seq<char>) -> Option<int> {
    if exists|i: int| 0 <= i < fs.len() && (#[trigger] fs[i]).name@ == name {
        Some(choose|i: int|
            0 <= i < fs.len() && (#[trigger] fs[i]).name@ == name && forall|j: int|
                0 <= j < i ==> (#[trigger] fs[j]).name@ != name)
    } else {
        None
    }
}

fn find_function(fs: &Vec<FunctionSig>, name: &str) -> (r: Option<usize>)
    ensures
        r matches Some(i) ==> function_position(fs@, name@) == Some(i as int),
        r matches Some(i) ==> i < fs@.len(),
        r is None <==> function_position(fs@, name@) is None,
{
    let key = name.to_owned();
    let mut i: usize = 0;
    while i < fs.len()
        invariant
            key@ == name@,
            i <= fs@.len(),
            forall|j: int| 0 <= j < i ==> (#[trigger] fs@[j]).name@ != name@,
        decreases fs@.len() - i,
    {
        if fs[i].name == key {
            proof {
                let p = function_position(fs@, name@);
                assert(p is Some);
                let k = p->Some_0;
                if k > i {
                    assert(fs@[i as int].name@ == name@);
                }
            }
            return Some(i);
        }
        i = i + 1;
    }
    None
}

impl Runtime {
    /// Whether `v` is a value of the type published under `ty`.
    pub fn value_has_type(&self, v: Value, ty: u64) -> (r: bool)
        requires
            self.wf(),
        ensures
            r == self.has_type(v, ty),
    {
        let d = match self.types.resolve(ty) {
            Ok(d) => d,
            Err(_) => return false,
        };
        match (v, &d.kind) {
            (Value::Ref(a), TypeKind::Struct { fields: layout, .. }) => {
                if a < self.heap.slots.len() {
                    match &self.heap.slots[a] {
                        Some(HeapObject::Struct { ty: t, fields }) => *t == ty && fields.len()
                            == layout.len(),
                        _ => false,
                    }
                } else {
                    false
                }
            },
            (Value::Ref(a), TypeKind::Array { elem, .. }) => {
                if a < self.heap.slots.len() {
                    match &self.heap.slots[a] {
                        Some(HeapObject::Array { elem: e, .. }) => *e == *elem,
                        _ => false,
                    }
                } else {
                    false
                }
            },
            (Value::I32(_), TypeKind::Prim(PrimKind::I32)) => true,
            (Value::I64(_), TypeKind::Prim(PrimKind::I64)) => true,
            (Value::Usize(_), TypeKind::Prim(PrimKind::Usize)) => true,
            (Value::Bool(_), TypeKind::Prim(PrimKind::Bool)) => true,
            _ => false,
        }
    }

    /// Outcome of checking a call of `name` with `args`, whose caller expects a
    /// result of type `ret`: the position of the function to call.
    pub open spec fn call_checked(
        &self,
        name: Seq<char>,
        args: Seq<Value>,
        ret: u64,
        r: Result<usize, InvokeError>,
    ) -> bool {
        match function_position(self.functions@, name) {
            None => r == Err::<usize, InvokeError>(InvokeError::FunctionNotFound),
            Some(i) => {
                let sig = self.functions@[i];
                if args.len() != sig.params@.len() {
                    r == Err::<usize, InvokeError>(InvokeError::ArgumentCountMismatch)
                } else if exists|k: int|
                    0 <= k < args.len() && !self.has_type(#[trigger] args[k], sig.params@[k]) {
                    r == Err::<usize, InvokeError>(InvokeError::ArgumentTypeMismatch)
                } else if sig.ret != ret {
                    r == Err::<usize, InvokeError>(InvokeError::ReturnTypeMismatch)
                } else {
                    r == Ok::<usize, InvokeError>(i as usize)
                }
            },
        }
    }

    /// Resolves `name` and checks the arguments and the expected result type
    /// against its signature. Arrays and structs travel as addresses, so the
    /// callee works on the caller's objects.
    pub fn invoke(&self, name: &str, args: &Vec<Value>, ret: u64) -> (r: Result<usize, InvokeError>)
        requires
            self.wf(),
        ensures
            self.call_checked(name@, args@, ret, r),
            r matches Ok(i) ==> i < self.functions@.len(),
    {
        let i = match find_function(&self.functions, name) {
            Some(i) => i,
            None => return Err(InvokeError::FunctionNotFound),
        };
        let sig = &self.functions[i];
        if args.len() != sig.params.len() {
            return Err(InvokeError::ArgumentCountMismatch);
        }
        let mut k: usize = 0;
        while k < args.len()
            invariant
                self.wf(),
                i < self.functions@.len(),
                function_position(self.functions@, name@) == Some(i as int),
                sig == self.functions@[i as int],
                args@.len() == sig.params@.len(),
                k <= args@.len(),
                forall|m: int| 0 <= m < k ==> self.has_type(#[trigger] args@[m], sig.params@[m]),
            decreases args@.len() - k,
        {
            if !self.value_has_type(args[k], sig.params[k]) {
                assert(!self.has_type(args@[k as int], sig.params@[k as int]));
                return Err(InvokeError::ArgumentTypeMismatch);
            }
            k = k + 1;
        }
        if sig.ret != ret {
            return Err(InvokeError::ReturnTypeMismatch);
        }
        Ok(i)
    }

    /// Checks a raw result of the function at position `f` against its declared
    /// return type.
    pub fn marshal_return(&self, f: usize, raw: Value) -> (r: Result<Value, InvokeError>)
        requires
            self.wf(),
            f < self.functions@.len(),
        ensures
            self.has_type(raw, self.functions@[f as int].ret) ==> r == Ok::<Value, InvokeError>(raw),
            !self.has_type(raw, self.functions@[f as int].ret) ==> r == Err::<Value, InvokeError>(
                InvokeError::ReturnTypeMismatch,
            ),
    {
        if self.value_has_type(raw, self.functions[f].ret) {
            Ok(raw)
        } else {
            Err(InvokeError::ReturnTypeMismatch)
        }
    }

    /// A handle to the array that `v` refers to, if it refers to one.
    pub fn array_handle(&self, v: Value) -> (r: Option<ArrayHandle>)
        ensures
            (v matches Value::Ref(a) && self.heap.is_array(a as int)) ==> r == Some(
                ArrayHandle { addr: v->Ref_0, instance: self.instance },
            ),
            !(v matches Value::Ref(a) && self.heap.is_array(a as int)) ==> r is None,
            r matches Some(h) ==> self.valid_array(h),
    {
        match v {
            Value::Ref(a) => {
                if a < self.heap.slots.len() {
                    match &self.heap.slots[a] {
                        Some(HeapObject::Array { .. }) => Some(ArrayHandle { addr: a, instance: self.instance }),
                        _ => None,
                    }
                } else {
                    None
                }
            },
            _ => None,
        }
    }

    /// A handle to the struct that `v` refers to, if it refers to one whose
    /// layout is current.
    pub fn struct_handle(&self, v: Value) -> (r: Option<StructHandle>)
        requires
            self.wf(),
        ensures
            (v matches Value::Ref(a) && self.struct_layout_current(a as int)) ==> r == Some(
                StructHandle { addr: v->Ref_0, instance: self.instance },
            ),
            !(v matches Value::Ref(a) && self.struct_layout_current(a as int)) ==> r is None,
            r matches Some(h) ==> self.valid_struct(h),
    {
        match v {
            Value::Ref(a) => {
                if a < self.heap.slots.len() {
                    match &self.heap.slots[a] {
                        Some(HeapObject::Struct { ty, fields }) => match self.types.resolve(*ty) {
                            Ok(d) => match &d.kind {
                                TypeKind::Struct { fields: layout, .. } => {
                                    if layout.len() == fields.len() {
                                        Some(StructHandle { addr: a, instance: self.instance })
                                    } else {
                                        None
                                    }
                                },
                                _ => None,
                            },
                            Err(_) => None,
                        },
                        _ => None,
                    }
                } else {
                    None
                }
            },
            _ => None,
        }
    }
}

impl Runtime {
    /// Field layout of the struct a handle views.
    pub open spec fn struct_layout(&self, h: StructHandle) -> Seq<crate::types::FieldDescriptor> {
        self.types.descriptor(self.heap.object(h.addr as int)->Struct_ty).kind->Struct_fields@
    }

    /// Field values of the struct a handle views.
    pub open spec fn struct_values(&self, h: StructHandle) -> Seq<Value> {
        self.heap.fields(h.addr as int)
    }

    /// Outcome of reading field `name` as a value of type `ty`.
    pub open spec fn field_read(
        &self,
        h: StructHandle,
        name: Seq<char>,
        ty: u64,
        r: Result<Value, FieldError>,
    ) -> bool {
        match field_position(self.struct_layout(h), name) {
            None => r == Err::<Value, FieldError>(FieldError::UnknownField),
            Some(i) => if self.struct_layout(h)[i].ty != ty {
                r == Err::<Value, FieldError>(FieldError::FieldTypeMismatch)
            } else {
                r == Ok::<Value, FieldError>(self.struct_values(h)[i])
            },
        }
    }

    /// Outcome of writing `v` to field `name`.
    pub open spec fn field_written(
        pre: Runtime,
        post: Runtime,
        h: StructHandle,
        name: Seq<char>,
        v: Value,
        r: Result<(), FieldError>,
    ) -> bool {
        match field_position(pre.struct_layout(h), name) {
            None => r == Err::<(), FieldError>(FieldError::UnknownField) && post == pre,
            Some(i) => if pre.struct_layout(h)[i].read_only {
                r == Err::<(), FieldError>(FieldError::ReadOnlyField) && post == pre
            } else if !pre.has_type(v, pre.struct_layout(h)[i].ty) {
                r == Err::<(), FieldError>(FieldError::FieldTypeMismatch) && post == pre
            } else {
                &&& r is Ok
                &&& post.same_except(pre, h.addr as int)
                &&& post.valid_struct(h)
                &&& post.heap.object(h.addr as int)->Struct_ty == pre.heap.object(h.addr as int)->Struct_ty
                &&& post.struct_values(h) == pre.struct_values(h).update(i, v)
            },
        }
    }

    /// Places a struct of type `ty` with the given field values on the heap.
    pub fn allocate_struct(&mut self, ty: u64, fields: Vec<Value>) -> (r: Result<
        StructHandle,
        AllocationError,
    >)
        requires
            old(self).wf(),
            old(self).types.contains(ty),
            old(self).types.descriptor(ty).kind is Struct,
            old(self).types.descriptor(ty).kind->Struct_fields@.len() == fields@.len(),
        ensures
            final(self).wf(),
            match r {
                Ok(h) => {
                    &&& h.instance == old(self).instance
                    &&& Runtime::allocated(*old(self), *final(self), Ok(h.addr))
                    &&& final(self).valid_struct(h)
                    &&& final(self).heap.object(h.addr as int)->Struct_ty == ty
                    &&& final(self).struct_values(h) == fields@
                },
                Err(e) => Runtime::allocated(*old(self), *final(self), Err(e)),
            },
    {
        match self.allocate(HeapObject::Struct { ty, fields }) {
            Ok(a) => Ok(StructHandle { addr: a, instance: self.instance }),
            Err(e) => Err(e),
        }
    }
}

impl StructHandle {
    /// Reads field `name` as a value of type `ty`.
    pub fn get(&self, rt: &Runtime, name: &str, ty: u64) -> (r: Result<Value, FieldError>)
        requires
            rt.wf(),
            rt.valid_struct(*self),
        ensures
            rt.field_read(*self, name@, ty, r),
    {
        let d = match rt.types.resolve(rt.heap.struct_type(self.addr)) {
            Ok(d) => d,
            Err(_) => return Err(FieldError::UnknownField),
        };
        match &d.kind {
            TypeKind::Struct { fields, .. } => match find_field(fields, name) {
                None => Err(FieldError::UnknownField),
                Some(i) => {
                    if fields[i].ty != ty {
                        Err(FieldError::FieldTypeMismatch)
                    } else {
                        Ok(rt.heap.struct_get(self.addr, i))
                    }
                },
            },
            _ => Err(FieldError::UnknownField),
        }
    }

    /// Enters the struct in the root table, so that it outlives this handle.
    pub fn root(&self, rt: &mut Runtime) -> (r: Root)
        requires
            old(rt).wf(),
            old(rt).valid_struct(*self),
        ensures
            final(rt).wf(),
            Runtime::rooted(*old(rt), *final(rt), self.addr, r),
    {
        rt.add_root(self.addr)
    }

    /// Writes `v` to field `name`; every handle to the same struct sees the write.
    pub fn set(&self, rt: &mut Runtime, name: &str, v: Value) -> (r: Result<(), FieldError>)
        requires
            old(rt).wf(),
            old(rt).valid_struct(*self),
        ensures
            final(rt).wf(),
            Runtime::field_written(*old(rt), *final(rt), *self, name@, v, r),
    {
        let (i, field_ty) = {
            let d = match rt.types.resolve(rt.heap.struct_type(self.addr)) {
                Ok(d) => d,
                Err(_) => return Err(FieldError::UnknownField),
            };
            match &d.kind {
                TypeKind::Struct { fields, .. } => match find_field(fields, name) {
                    None => return Err(FieldError::UnknownField),
                    Some(i) => {
                        if fields[i].read_only {
                            return Err(FieldError::ReadOnlyField);
                        }
                        (i, fields[i].ty)
                    },
                },
                _ => return Err(FieldError::UnknownField),
            }
        };
        if !rt.value_has_type(v, field_ty) {
            return Err(FieldError::FieldTypeMismatch);
        }
        rt.heap.struct_set(self.addr, i, v);
        proof {
            rt.lemma_wf_after_heap_update(*old(rt), self.addr as int);
        }
        Ok(())
    }
}

/// Identity of the type that decides the layout of a heap object: a struct's
/// own type, an array's element type.
pub open spec fn layout_type(o: HeapObject) -> u64 {
    match o {
        HeapObject::Array { elem, .. } => elem,
        HeapObject::Struct { ty, .. } => ty,
    }
}

impl Runtime {
    /// Root `r` keeps alive an object whose type both registries publish, with
    /// different layouts.
    pub open spec fn root_conflicts(&self, next: TypeRegistry, r: int) -> bool {
        let t = layout_type(self.heap.object(self.roots@[r]->Some_0 as int));
        &&& self.roots@[r] is Some
        &&& self.types.contains(t)
        &&& next.contains(t)
        &&& !layout_eq(self.types.descriptor(t), next.descriptor(t))
    }

    fn object_layout_type(&self, a: usize) -> (r: u64)
        requires
            self.heap.live(a as int),
        ensures
            r == layout_type(self.heap.object(a as int)),
    {
        match &self.heap.slots[a] {
            Some(HeapObject::Array { elem, .. }) => *elem,
            Some(HeapObject::Struct { ty, .. }) => *ty,
            None => 0,
        }
    }

    /// Replaces the type registry and function table at a safe point between
    /// invocations, and gives the instance a new identity, so that handles of the
    /// old one are no longer valid. Refused, with nothing changed, when a rooted
    /// object's type would change layout.
    pub fn reload(&mut self, types: TypeRegistry, functions: Vec<FunctionSig>) -> (r: Result<
        (),
        ReloadError,
    >)
        requires
            old(self).wf(),
            types.wf(),
            old(self).instance < u64::MAX,
        ensures
            final(self).wf(),
            (exists|k: int| 0 <= k < old(self).roots@.len() && old(self).root_conflicts(types, k))
                ==> r == Err::<(), ReloadError>(ReloadError::IncompatibleLayoutChange) && *final(self)
                == *old(self),
            !(exists|k: int| 0 <= k < old(self).roots@.len() && old(self).root_conflicts(types, k))
                ==> r is Ok && final(self).types == types && final(self).functions == functions
                && final(self).instance == old(self).instance + 1 && final(self).heap == old(self).heap
                && final(self).roots == old(self).roots,
    {
        let mut k: usize = 0;
        while k < self.roots.len()
            invariant
                self.wf(),
                types.wf(),
                k <= self.roots@.len(),
                forall|m: int| 0 <= m < k ==> !#[trigger] self.root_conflicts(types, m),
            decreases self.roots@.len() - k,
        {
            if let Some(a) = self.roots[k] {
                let t = self.object_layout_type(a);
                match (self.types.resolve(t), types.resolve(t)) {
                    (Ok(d), Ok(e)) => {
                        if !same_layout(d, e) {
                            assert(self.root_conflicts(types, k as int));
                            return Err(ReloadError::IncompatibleLayoutChange);
                        }
                    },
                    _ => {},
                }
            }
            k = k + 1;
        }
        self.types = types;
        self.functions = functions;
        self.instance = self.instance + 1;
        Ok(())
    }
}

impl StructHandle {
    /// Field values, in layout order.
    pub fn to_vec(&self, rt: &Runtime) -> (r: Vec<Value>)
        requires
            rt.valid_struct(*self),
        ensures
            r@ == rt.struct_values(*self),
    {
        let n = rt.heap.struct_len(self.addr);
        let mut r: Vec<Value> = Vec::new();
        let mut i: usize = 0;
        while i < n
            invariant
                rt.valid_struct(*self),
                n == rt.struct_values(*self).len(),
                i <= n,
                r@ == rt.struct_values(*self).subrange(0, i as int),
            decreases n - i,
        {
            r.push(rt.heap.struct_get(self.addr, i));
            i = i + 1;
        }
        assert(r@ == rt.struct_values(*self).subrange(0, n as int));
        r
    }

    /// A new struct of the same type holding the same field values: the copy
    /// made when a by-value struct is assigned.
    pub fn copy(&self, rt: &mut Runtime) -> (r: Result<StructHandle, AllocationError>)
        requires
            old(rt).wf(),
            old(rt).valid_struct(*self),
        ensures
            final(rt).wf(),
            match r {
                Ok(c) => {
                    &&& c.instance == old(rt).instance
                    &&& Runtime::allocated(*old(rt), *final(rt), Ok(c.addr))
                    &&& final(rt).valid_struct(c)
                    &&& final(rt).heap.object(c.addr as int)->Struct_ty == old(rt).heap.object(
                        self.addr as int,
                    )->Struct_ty
                    &&& final(rt).struct_values(c) == old(rt).struct_values(*self)
                },
                Err(e) => Runtime::allocated(*old(rt), *final(rt), Err(e)),
            },
    {
        let fields = self.to_vec(rt);
        let ty = rt.heap.struct_type(self.addr);
        rt.allocate_struct(ty, fields)
    }
}

impl Runtime {
    /// Whether `ty` is published as a by-value struct.
    pub open spec fn is_by_value(&self, ty: u64) -> bool {
        self.types.contains(ty) && self.types.descriptor(ty).kind matches TypeKind::Struct {
            by_value: true,
            ..
        }
    }

    /// Puts an argument of type `ty` in its calling-convention slot: a by-value
    /// struct is passed as a copy, anything else as it is, so that an array or
    /// a by-reference struct is shared with the caller.
    pub fn marshal_argument(&mut self, v: Value, ty: u64) -> (r: Result<Value, AllocationError>)
        requires
            old(self).wf(),
            old(self).has_type(v, ty),
        ensures
            final(self).wf(),
            !old(self).is_by_value(ty) ==> r == Ok::<Value, AllocationError>(v) && *final(self)
                == *old(self),
            old(self).is_by_value(ty) ==> match r {
                Ok(c) => {
                    &&& c is Ref
                    &&& Runtime::allocated(*old(self), *final(self), Ok(c->Ref_0))
                    &&& final(self).heap.is_struct(c->Ref_0 as int)
                    &&& final(self).heap.object(c->Ref_0 as int)->Struct_ty == ty
                    &&& final(self).heap.fields(c->Ref_0 as int) == old(self).heap.fields(
                        v->Ref_0 as int,
                    )
                },
                Err(e) => Runtime::allocated(*old(self), *final(self), Err(e)),
            },
    {
        let by_value = match self.types.resolve(ty) {
            Ok(d) => match &d.kind {
                TypeKind::Struct { by_value, .. } => *by_value,
                _ => false,
            },
            Err(_) => false,
        };
        if !by_value {
            return Ok(v);
        }
        match self.struct_handle(v) {
            Some(h) => match h.copy(self) {
                Ok(c) => Ok(Value::Ref(c.addr)),
                Err(e) => Err(e),
            },
            None => Ok(v),
        }
    }
}

impl ArrayHandle {
    /// Number of elements.
    pub fn len(&self, rt: &Runtime) -> (r: usize)
        requires
            rt.valid_array(*self),
        ensures
            r == rt.array_elems(*self).len(),
    {
        rt.heap.array_len(self.addr)
    }

    /// Number of elements the backing store has room for.
    pub fn capacity(&self, rt: &Runtime) -> (r: usize)
        requires
            rt.valid_array(*self),
        ensures
            r == rt.array_capacity(*self),
    {
        rt.heap.array_capacity(self.addr)
    }

    /// The element at index `i`.
    pub fn get(&self, rt: &Runtime, i: usize) -> (r: Result<Value, BoundsError>)
        requires
            rt.valid_array(*self),
        ensures
            i < rt.array_elems(*self).len() ==> r == Ok::<Value, BoundsError>(rt.array_elems(*self)[i as int]),
            i >= rt.array_elems(*self).len() ==> r == Err::<Value, BoundsError>(BoundsError::IndexOutOfBounds),
    {
        rt.heap.array_get(self.addr, i)
    }

    /// The elements, in order.
    pub fn to_vec(&self, rt: &Runtime) -> (r: Vec<Value>)
        requires
            rt.valid_array(*self),
        ensures
            r@ == rt.array_elems(*self),
    {
        let n = self.len(rt);
        let mut r: Vec<Value> = Vec::new();
        let mut i: usize = 0;
        while i < n
            invariant
                rt.valid_array(*self),
                n == rt.array_elems(*self).len(),
                i <= n,
                r@ == rt.array_elems(*self).subrange(0, i as int),
            decreases n - i,
        {
            match self.get(rt, i) {
                Ok(v) => r.push(v),
                Err(_) => {},
            }
            i = i + 1;
        }
        assert(r@ == rt.array_elems(*self).subrange(0, n as int));
        r
    }

    /// Writes `v`, a value of the array's element type, at index `i`; every
    /// handle to the same array sees the write.
    pub fn set(&self, rt: &mut Runtime, i: usize, v: Value) -> (r: Result<(), BoundsError>)
        requires
            old(rt).wf(),
            old(rt).valid_array(*self),
            old(rt).has_type(v, old(rt).heap.object(self.addr as int)->Array_elem),
        ensures
            final(rt).wf(),
            Runtime::element_set(*old(rt), *final(rt), *self, i, v, r),
    {
        let r = rt.heap.array_set(self.addr, i, v);
        proof {
            if r is Ok {
                rt.lemma_wf_after_heap_update(*old(rt), self.addr as int);
            }
        }
        r
    }

    /// Appends `v`, a value of the array's element type, growing the backing
    /// store when it is full.
    pub fn push(&self, rt: &mut Runtime, v: Value)
        requires
            old(rt).wf(),
            old(rt).valid_array(*self),
            old(rt).array_elems(*self).len() < usize::MAX,
            old(rt).has_type(v, old(rt).heap.object(self.addr as int)->Array_elem),
        ensures
            final(rt).wf(),
            Runtime::pushed(*old(rt), *final(rt), *self, v),
    {
        rt.heap.array_push(self.addr, v);
        proof {
            rt.lemma_wf_after_heap_update(*old(rt), self.addr as int);
        }
    }

    /// Enters the array in the root table, so that it outlives this handle.
    pub fn root(&self, rt: &mut Runtime) -> (r: Root)
        requires
            old(rt).wf(),
            old(rt).valid_array(*self),
        ensures
            final(rt).wf(),
            Runtime::rooted(*old(rt), *final(rt), self.addr, r),
    {
        rt.add_root(self.addr)
    }
}

impl Root {
    /// A handle of `rt` to the rooted array, after checking that its element type
    /// is still published there.
    pub fn as_ref(&self, rt: &Runtime) -> (r: Result<ArrayHandle, RootError>)
        requires
            rt.wf(),
        ensures
            rt.redeemed(*self, r),
            r matches Ok(h) ==> rt.valid_array(h),
    {
        if self.id >= rt.roots.len() {
            return Err(RootError::RootNotFound);
        }
        match rt.roots[self.id] {
            None => Err(RootError::RootNotFound),
            Some(a) => match &rt.heap.slots[a] {
                Some(HeapObject::Array { elem, .. }) => {
                    if rt.types.resolve(*elem).is_ok() {
                        Ok(ArrayHandle { addr: a, instance: rt.instance })
                    } else {
                        Err(RootError::StaleTypeLayout)
                    }
                },
                _ => Err(RootError::StaleTypeLayout),
            },
        }
    }

    /// A handle of `rt` to the rooted struct, after checking that its layout is
    /// still the one published there.
    pub fn as_struct_ref(&self, rt: &Runtime) -> (r: Result<StructHandle, RootError>)
        requires
            rt.wf(),
        ensures
            rt.redeemed_struct(*self, r),
            r matches Ok(h) ==> rt.valid_struct(h),
    {
        if self.id >= rt.roots.len() {
            return Err(RootError::RootNotFound);
        }
        match rt.roots[self.id] {
            None => Err(RootError::RootNotFound),
            Some(a) => match rt.struct_handle(Value::Ref(a)) {
                Some(h) => Ok(h),
                None => Err(RootError::StaleTypeLayout),
            },
        }
    }

    /// Takes the entry out of the root table.
    pub fn release(&self, rt: &mut Runtime) -> (r: Result<(), RootError>)
        requires
            old(rt).wf(),
        ensures
            final(rt).wf(),
            final(rt).instance == old(rt).instance,
            final(rt).types == old(rt).types,
            final(rt).functions == old(rt).functions,
            final(rt).heap == old(rt).heap,
            self.id < old(rt).roots@.len() && old(rt).roots@[self.id as int] is Some ==> r is Ok
                && final(rt).roots@ == old(rt).roots@.update(self.id as int, None),
            !(self.id < old(rt).roots@.len() && old(rt).roots@[self.id as int] is Some) ==> r == Err::<
                (),
                RootError,
            >(RootError::RootNotFound) && *final(rt) == *old(rt),
    {
        if self.id >= rt.roots.len() || rt.roots[self.id].is_none() {
            return Err(RootError::RootNotFound);
        }
        rt.roots.set(self.id, None);
        proof {
            assert forall|r: int|
                0 <= r < rt.roots@.len() && (#[trigger] rt.roots@[r]) is Some implies rt.heap.live(
                    rt.roots@[r]->Some_0 as int,
                ) by {
                assert(rt.roots@[r] == old(rt).roots@[r]);
            }
        }
        Ok(())
    }
}

} // verus!
