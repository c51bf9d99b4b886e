use mun_runtime::heap::Value;
use mun_runtime::runtime::{ArrayHandle, FunctionSig, Runtime};
use mun_runtime::types::{FieldDescriptor, PrimKind, TypeDescriptor, TypeKind, TypeRegistry};

const I32: u64 = 1;
const I32_ARRAY: u64 = 2;
const I64: u64 = 3;
const USIZE: u64 = 4;
const NUMBER: u64 = 5;
const NUMBER_ARRAY: u64 = 6;
const VALUE: u64 = 7;
const VALUE_ARRAY: u64 = 8;

fn prim(id: u64, kind: PrimKind, size: usize) -> TypeDescriptor {
    TypeDescriptor { id, size, align: size, kind: TypeKind::Prim(kind) }
}

fn field(name: &str, offset: usize, ty: u64) -> FieldDescriptor {
    FieldDescriptor { name: name.to_string(), offset, ty, is_ref: false, read_only: false }
}

fn registry() -> TypeRegistry {
    let mut types = TypeRegistry::new();
    types.register(prim(I32, PrimKind::I32, 4)).unwrap();
    types.register(prim(I64, PrimKind::I64, 8)).unwrap();
    types.register(prim(USIZE, PrimKind::Usize, 8)).unwrap();
    types
        .register(TypeDescriptor {
            id: I32_ARRAY,
            size: 8,
            align: 8,
            kind: TypeKind::Array { elem: I32, stride: 4 },
        })
        .unwrap();
    types
        .register(TypeDescriptor {
            id: NUMBER,
            size: 4,
            align: 4,
            kind: TypeKind::Struct { by_value: false, fields: vec![field("value", 0, I32)] },
        })
        .unwrap();
    types
        .register(TypeDescriptor {
            id: NUMBER_ARRAY,
            size: 8,
            align: 8,
            kind: TypeKind::Array { elem: NUMBER, stride: 8 },
        })
        .unwrap();
    types
        .register(TypeDescriptor {
            id: VALUE,
            size: 16,
            align: 8,
            kind: TypeKind::Struct {
                by_value: true,
                fields: vec![field("value", 0, I64), field("other", 8, I64)],
            },
        })
        .unwrap();
    types
        .register(TypeDescriptor {
            id: VALUE_ARRAY,
            size: 8,
            align: 8,
            kind: TypeKind::Array { elem: VALUE, stride: 16 },
        })
        .unwrap();
    types
}

fn sig(name: &str, params: Vec<u64>, ret: u64) -> FunctionSig {
    FunctionSig { name: name.to_string(), params, ret }
}

fn runtime(functions: Vec<FunctionSig>) -> Runtime {
    Runtime::new(registry(), functions, 64)
}

fn i32s(values: &[i32]) -> Vec<Value> {
    values.iter().map(|v| Value::I32(*v)).collect()
}

/// Runs the body of `pub fn main() -> [i32] { [5,4,3,2,1] }` after the call checks.
fn call_main(rt: &mut Runtime, name: &str) -> ArrayHandle {
    let f = rt.invoke(name, &vec![], I32_ARRAY).unwrap();
    let array = rt.construct_array(I32, i32s(&[5, 4, 3, 2, 1])).unwrap();
    let raw = rt.marshal_return(f, Value::Ref(array.addr)).unwrap();
    rt.array_handle(raw).unwrap()
}

#[test]
fn arrays() {
    let mut rt = runtime(vec![sig("main", vec![], I32_ARRAY)]);
    let result = call_main(&mut rt, "main");

    assert_eq!(result.len(&rt), 5);
    assert!(result.capacity(&rt) >= 5);
    assert_eq!(result.to_vec(&rt), i32s(&[5, 4, 3, 2, 1]));
}

#[test]
fn array_of_structs() {
    let mut rt = runtime(vec![
        sig("main", vec![], NUMBER_ARRAY),
        sig("main_value", vec![], VALUE_ARRAY),
    ]);

    let f = rt.invoke("main", &vec![], NUMBER_ARRAY).unwrap();
    let a = rt.allocate_struct(NUMBER, vec![Value::I32(2351)]).unwrap();
    let b = rt.allocate_struct(NUMBER, vec![Value::I32(18571)]).unwrap();
    let array = rt.construct_array(NUMBER, vec![Value::Ref(a.addr), Value::Ref(b.addr)]).unwrap();
    let result = rt.array_handle(rt.marshal_return(f, Value::Ref(array.addr)).unwrap()).unwrap();
    let second = rt.struct_handle(result.get(&rt, 1).unwrap()).unwrap();
    let number = second.get(&rt, "value", I32).unwrap();

    assert_eq!(result.len(&rt), 2);
    assert_eq!(number, Value::I32(18571));

    let f = rt.invoke("main_value", &vec![], VALUE_ARRAY).unwrap();
    let a = rt.allocate_struct(VALUE, vec![Value::I64(253), Value::I64(1823512)]).unwrap();
    let b = rt.allocate_struct(VALUE, vec![Value::I64(123), Value::I64(436501)]).unwrap();
    let array = rt.construct_array(VALUE, vec![Value::Ref(a.addr), Value::Ref(b.addr)]).unwrap();
    let result = rt.array_handle(rt.marshal_return(f, Value::Ref(array.addr)).unwrap()).unwrap();
    let second = rt.struct_handle(result.get(&rt, 1).unwrap()).unwrap();
    let number = second.get(&rt, "value", I64).unwrap();

    assert_eq!(result.len(&rt), 2);
    assert_eq!(number, Value::I64(123));
}

#[test]
fn arrays_as_argument() {
    let mut rt = runtime(vec![
        sig("generate", vec![], I32_ARRAY),
        sig("add_one", vec![I32_ARRAY, USIZE], I32_ARRAY),
    ]);

    let result = call_main(&mut rt, "generate");

    assert_eq!(result.len(&rt), 5);
    assert!(result.capacity(&rt) >= 5);
    assert_eq!(result.to_vec(&rt), i32s(&[5, 4, 3, 2, 1]));

    let args = vec![Value::Ref(result.clone().addr), Value::Usize(result.len(&rt))];
    let f = rt.invoke("add_one", &args, I32_ARRAY).unwrap();
    // body of `add_one`: increments each of the first `len` elements in place
    let array = rt.array_handle(args[0]).unwrap();
    let len = match args[1] {
        Value::Usize(n) => n,
        _ => unreachable!(),
    };
    for i in 0..len {
        let v = match array.get(&rt, i).unwrap() {
            Value::I32(v) => v,
            _ => unreachable!(),
        };
        array.set(&mut rt, i, Value::I32(v + 1)).unwrap();
    }
    let result_array = rt.array_handle(rt.marshal_return(f, args[0]).unwrap()).unwrap();

    assert_eq!(result_array.len(&rt), 5);
    assert!(result_array.capacity(&rt) >= 5);
    assert_eq!(result_array.to_vec(&rt), i32s(&[6, 5, 4, 3, 2]));
    assert_eq!(result.to_vec(&rt), i32s(&[6, 5, 4, 3, 2]));
}

#[test]
fn root_array() {
    let mut rt = runtime(vec![sig("main", vec![], I32_ARRAY)]);

    let result = {
        let array = call_main(&mut rt, "main");
        array.root(&mut rt)
    };
    rt.collect();

    let result = result.as_ref(&rt).unwrap();
    assert_eq!(result.len(&rt), 5);
    assert!(result.capacity(&rt) >= 5);
    assert_eq!(result.to_vec(&rt), i32s(&[5, 4, 3, 2, 1]));
}

#[test]
fn construct_array_simple() {
    let mut rt = runtime(vec![]);

    let test_data = i32s(&[1, 2, 3, 4, 5, 6, 7, 8, 9, 147294028]);
    let array = rt.construct_array(I32, test_data.clone()).unwrap();
    assert!(array.capacity(&rt) >= test_data.len());
    assert_eq!(array.len(&rt), test_data.len());
    assert_eq!(array.to_vec(&rt), test_data);
}
