use std::sync::Arc;

use mun_runtime::heap::{AllocationError, BoundsError, Value};
use mun_runtime::runtime::{FunctionSig, InvokeError, ReloadError, Root, RootError, Runtime};
use mun_runtime::types::{
    field_offset, same_layout, FieldDescriptor, FieldError, PrimKind, TypeDescriptor, TypeError,
    TypeKind, TypeRegistry,
};
use mun_runtime::utils::make_mut_slice;

const I32: u64 = 1;
const I32_ARRAY: u64 = 2;
const POINT: u64 = 3;
const BOOL: u64 = 4;
const PAIR: u64 = 5;

fn field(name: &str, offset: usize, ty: u64, read_only: bool) -> FieldDescriptor {
    FieldDescriptor { name: name.to_string(), offset, ty, is_ref: false, read_only }
}

fn point(fields: Vec<FieldDescriptor>) -> TypeDescriptor {
    TypeDescriptor { id: POINT, size: 8, align: 4, kind: TypeKind::Struct { by_value: false, fields } }
}

fn registry() -> TypeRegistry {
    let mut types = TypeRegistry::new();
    types
        .register(TypeDescriptor { id: I32, size: 4, align: 4, kind: TypeKind::Prim(PrimKind::I32) })
        .unwrap();
    types
        .register(TypeDescriptor { id: BOOL, size: 1, align: 1, kind: TypeKind::Prim(PrimKind::Bool) })
        .unwrap();
    types
        .register(TypeDescriptor {
            id: I32_ARRAY,
            size: 8,
            align: 8,
            kind: TypeKind::Array { elem: I32, stride: 4 },
        })
        .unwrap();
    types
        .register(point(vec![field("x", 0, I32, false), field("y", 4, I32, true)]))
        .unwrap();
    types
        .register(TypeDescriptor {
            id: PAIR,
            size: 8,
            align: 4,
            kind: TypeKind::Struct {
                by_value: true,
                fields: vec![field("a", 0, I32, false), field("b", 4, I32, false)],
            },
        })
        .unwrap();
    types
}

fn runtime(limit: usize) -> Runtime {
    let functions = vec![FunctionSig { name: "sum".to_string(), params: vec![I32_ARRAY, I32], ret: I32 }];
    Runtime::new(registry(), functions, limit)
}

fn i32s(values: &[i32]) -> Vec<Value> {
    values.iter().map(|v| Value::I32(*v)).collect()
}

#[test]
fn register_same_layout_twice_is_accepted() {
    let mut types = registry();
    let before = types.types.len();
    assert_eq!(types.register(point(vec![field("x", 0, I32, false), field("y", 4, I32, true)])), Ok(()));
    assert_eq!(types.types.len(), before);
}

#[test]
fn register_other_layout_under_taken_identity_is_duplicate() {
    let mut types = registry();
    let r = types.register(point(vec![field("x", 0, I32, false)]));
    assert_eq!(r, Err(TypeError::DuplicateType));
}

#[test]
fn resolve_unknown_type() {
    let types = registry();
    assert_eq!(types.resolve(99).err(), Some(TypeError::UnknownType));
    assert_eq!(types.resolve(POINT).unwrap().size, 8);
}

#[test]
fn field_offsets_by_name() {
    let d = point(vec![field("x", 0, I32, false), field("y", 4, I32, true)]);
    assert_eq!(field_offset(&d, "y"), Ok(4));
    assert_eq!(field_offset(&d, "x"), Ok(0));
    assert_eq!(field_offset(&d, "z"), Err(FieldError::UnknownField));
}

#[test]
fn layouts_compare_field_by_field() {
    let a = point(vec![field("x", 0, I32, false)]);
    let b = point(vec![field("x", 0, I32, false)]);
    let c = point(vec![field("x", 4, I32, false)]);
    assert!(same_layout(&a, &b));
    assert!(!same_layout(&a, &c));
}

#[test]
fn round_trip_of_empty_sequence() {
    let mut rt = runtime(8);
    let h = rt.construct_array(I32, vec![]).unwrap();
    assert_eq!(h.len(&rt), 0);
    assert_eq!(h.capacity(&rt), 0);
    assert_eq!(h.to_vec(&rt), vec![]);
}

#[test]
fn index_out_of_bounds() {
    let mut rt = runtime(8);
    let h = rt.construct_array(I32, i32s(&[7, 8])).unwrap();
    assert_eq!(h.get(&rt, 1), Ok(Value::I32(8)));
    assert_eq!(h.get(&rt, 2), Err(BoundsError::IndexOutOfBounds));
    assert_eq!(h.set(&mut rt, 2, Value::I32(1)), Err(BoundsError::IndexOutOfBounds));
    assert_eq!(h.to_vec(&rt), i32s(&[7, 8]));
}

#[test]
fn growth_doubles_a_full_store() {
    let mut rt = runtime(8);
    let h = rt.construct_array(I32, vec![]).unwrap();
    let mut capacities = Vec::new();
    let mut previous = h.capacity(&rt);
    for i in 0..9 {
        h.push(&mut rt, Value::I32(i));
        let c = h.capacity(&rt);
        assert!(c >= previous);
        assert!(h.len(&rt) <= c);
        capacities.push(c);
        previous = c;
    }
    assert_eq!(capacities, vec![1, 2, 4, 4, 8, 8, 8, 8, 16]);
    assert_eq!(h.to_vec(&rt), i32s(&[0, 1, 2, 3, 4, 5, 6, 7, 8]));
}

#[test]
fn push_within_capacity_keeps_store() {
    let mut rt = runtime(8);
    let h = rt.construct_array(I32, i32s(&[1, 2])).unwrap();
    h.push(&mut rt, Value::I32(3));
    assert_eq!(h.capacity(&rt), 4);
    h.push(&mut rt, Value::I32(4));
    assert_eq!(h.capacity(&rt), 4);
}

#[test]
fn clones_of_a_handle_share_the_array() {
    let mut rt = runtime(8);
    let h = rt.construct_array(I32, i32s(&[1, 2, 3])).unwrap();
    let alias = h.clone();
    alias.set(&mut rt, 0, Value::I32(10)).unwrap();
    assert_eq!(h.to_vec(&rt), i32s(&[10, 2, 3]));
}

#[test]
fn invoke_unknown_function() {
    let rt = runtime(8);
    assert_eq!(rt.invoke("missing", &vec![], I32), Err(InvokeError::FunctionNotFound));
}

#[test]
fn invoke_checks_arguments_and_result() {
    let mut rt = runtime(8);
    let h = rt.construct_array(I32, i32s(&[1])).unwrap();
    let good = vec![Value::Ref(h.addr), Value::I32(1)];
    assert_eq!(rt.invoke("sum", &good, I32), Ok(0));
    assert_eq!(rt.invoke("sum", &vec![Value::Ref(h.addr)], I32), Err(InvokeError::ArgumentCountMismatch));
    let swapped = vec![Value::I32(1), Value::Ref(h.addr)];
    assert_eq!(rt.invoke("sum", &swapped, I32), Err(InvokeError::ArgumentTypeMismatch));
    assert_eq!(rt.invoke("sum", &good, BOOL), Err(InvokeError::ReturnTypeMismatch));
    assert_eq!(rt.marshal_return(0, Value::I32(3)), Ok(Value::I32(3)));
    assert_eq!(rt.marshal_return(0, Value::Bool(true)), Err(InvokeError::ReturnTypeMismatch));
}

#[test]
fn struct_field_errors() {
    let mut rt = runtime(8);
    let p = rt.allocate_struct(POINT, vec![Value::I32(1), Value::I32(2)]).unwrap();
    assert_eq!(p.get(&rt, "y", I32), Ok(Value::I32(2)));
    assert_eq!(p.get(&rt, "z", I32), Err(FieldError::UnknownField));
    assert_eq!(p.get(&rt, "x", BOOL), Err(FieldError::FieldTypeMismatch));
    assert_eq!(p.set(&mut rt, "z", Value::I32(5)), Err(FieldError::UnknownField));
    assert_eq!(p.set(&mut rt, "y", Value::I32(5)), Err(FieldError::ReadOnlyField));
    assert_eq!(p.set(&mut rt, "x", Value::Bool(true)), Err(FieldError::FieldTypeMismatch));
    assert_eq!(p.set(&mut rt, "x", Value::I32(5)), Ok(()));
    assert_eq!(p.get(&rt, "x", I32), Ok(Value::I32(5)));
}

#[test]
fn released_root_is_not_found() {
    let mut rt = runtime(8);
    let h = rt.construct_array(I32, i32s(&[1])).unwrap();
    let root = h.root(&mut rt);
    assert_eq!(root.release(&mut rt), Ok(()));
    assert_eq!(root.release(&mut rt), Err(RootError::RootNotFound));
    assert_eq!(root.as_ref(&rt), Err(RootError::RootNotFound));
    assert_eq!(Root { id: 40 }.as_ref(&rt), Err(RootError::RootNotFound));
}

#[test]
fn collection_frees_unrooted_objects_only() {
    let mut rt = runtime(8);
    let kept = rt.construct_array(I32, i32s(&[1, 2])).unwrap();
    let inner = rt.allocate_struct(POINT, vec![Value::I32(3), Value::I32(4)]).unwrap();
    let outer = rt.construct_array(POINT, vec![Value::Ref(inner.addr)]).unwrap();
    let dropped = rt.construct_array(I32, i32s(&[9])).unwrap();
    let r1 = kept.root(&mut rt);
    let _r2 = outer.root(&mut rt);
    rt.collect();
    assert!(rt.heap.slots[kept.addr].is_some());
    assert!(rt.heap.slots[inner.addr].is_some());
    assert!(rt.heap.slots[outer.addr].is_some());
    assert!(rt.heap.slots[dropped.addr].is_none());
    assert_eq!(r1.as_ref(&rt).unwrap().to_vec(&rt), i32s(&[1, 2]));
}

#[test]
fn full_heap_collects_before_running_out() {
    let mut rt = runtime(1);
    let first = rt.construct_array(I32, i32s(&[1])).unwrap();
    let second = rt.construct_array(I32, i32s(&[2])).unwrap();
    assert_eq!(second.addr, first.addr);
    assert_eq!(second.to_vec(&rt), i32s(&[2]));
    second.root(&mut rt);
    assert_eq!(rt.construct_array(I32, i32s(&[3])).err(), Some(AllocationError::OutOfMemory));
}

#[test]
fn reload_makes_new_instance() {
    let mut rt = runtime(8);
    let h = rt.construct_array(I32, i32s(&[4, 5])).unwrap();
    let root = h.root(&mut rt);
    let old_instance = rt.instance;
    assert_eq!(rt.reload(registry(), vec![]), Ok(()));
    assert_eq!(rt.instance, old_instance + 1);
    let again = root.as_ref(&rt).unwrap();
    assert_eq!(again.instance, rt.instance);
    assert_eq!(again.to_vec(&rt), i32s(&[4, 5]));
    assert_eq!(rt.invoke("sum", &vec![], I32), Err(InvokeError::FunctionNotFound));
}

#[test]
fn reload_refuses_layout_change_of_rooted_struct() {
    let mut rt = runtime(8);
    let p = rt.allocate_struct(POINT, vec![Value::I32(1), Value::I32(2)]).unwrap();
    let arr = rt.construct_array(POINT, vec![Value::Ref(p.addr)]).unwrap();
    arr.root(&mut rt);
    let mut changed = TypeRegistry::new();
    changed.register(point(vec![field("x", 0, I32, false)])).unwrap();
    let before = rt.instance;
    assert_eq!(rt.reload(changed, vec![]), Err(ReloadError::IncompatibleLayoutChange));
    assert_eq!(rt.instance, before);
}

#[test]
fn root_of_unpublished_element_type_is_stale() {
    let mut rt = runtime(8);
    let h = rt.construct_array(I32, i32s(&[1])).unwrap();
    let root = h.root(&mut rt);
    assert_eq!(rt.reload(TypeRegistry::new(), vec![]), Ok(()));
    assert_eq!(root.as_ref(&rt), Err(RootError::StaleTypeLayout));
}

#[test]
fn make_mut_slice_copies_shared_slice() {
    let mut a: Arc<[i32]> = Arc::from(vec![1, 2, 3]);
    let b = a.clone();
    make_mut_slice(&mut a)[0] = 9;
    assert_eq!(&*a, &[9, 2, 3]);
    assert_eq!(&*b, &[1, 2, 3]);
}

#[test]
fn make_mut_slice_writes_unique_slice_in_place() {
    let mut a: Arc<[i32]> = Arc::from(vec![1, 2, 3]);
    let s = make_mut_slice(&mut a);
    s[2] = 7;
    assert_eq!(&*a, &[1, 2, 7]);
}

#[test]
fn by_value_argument_is_copied() {
    let mut rt = runtime(8);
    let pair = rt.allocate_struct(PAIR, vec![Value::I32(1), Value::I32(2)]).unwrap();
    let passed = rt.marshal_argument(Value::Ref(pair.addr), PAIR).unwrap();
    assert_ne!(passed, Value::Ref(pair.addr));
    let copy = rt.struct_handle(passed).unwrap();
    assert_eq!(copy.to_vec(&rt), vec![Value::I32(1), Value::I32(2)]);
    copy.set(&mut rt, "a", Value::I32(10)).unwrap();
    assert_eq!(pair.get(&rt, "a", I32), Ok(Value::I32(1)));
}

#[test]
fn by_reference_argument_is_shared() {
    let mut rt = runtime(8);
    let p = rt.allocate_struct(POINT, vec![Value::I32(1), Value::I32(2)]).unwrap();
    let passed = rt.marshal_argument(Value::Ref(p.addr), POINT).unwrap();
    assert_eq!(passed, Value::Ref(p.addr));
    let callee = rt.struct_handle(passed).unwrap();
    callee.set(&mut rt, "x", Value::I32(8)).unwrap();
    assert_eq!(p.get(&rt, "x", I32), Ok(Value::I32(8)));
    assert_eq!(rt.marshal_argument(Value::I32(3), I32), Ok(Value::I32(3)));
}

#[test]
fn copy_of_struct_keeps_fields() {
    let mut rt = runtime(8);
    let p = rt.allocate_struct(POINT, vec![Value::I32(6), Value::I32(7)]).unwrap();
    let c = p.copy(&mut rt).unwrap();
    assert_ne!(c.addr, p.addr);
    assert_eq!(c.to_vec(&rt), p.to_vec(&rt));
}

#[test]
fn rooted_struct_survives_and_goes_stale() {
    let mut rt = runtime(8);
    let p = rt.allocate_struct(POINT, vec![Value::I32(6), Value::I32(7)]).unwrap();
    let root = p.root(&mut rt);
    rt.collect();
    let back = root.as_struct_ref(&rt).unwrap();
    assert_eq!(back.get(&rt, "y", I32), Ok(Value::I32(7)));
    assert_eq!(rt.reload(TypeRegistry::new(), vec![]), Ok(()));
    assert_eq!(root.as_struct_ref(&rt), Err(RootError::StaleTypeLayout));
}
