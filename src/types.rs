use vstd::prelude::*;

verus! {

/// Primitive value kinds that compiled code and native code exchange by value.
#[derive(Clone, Copy, Debug, PartialEq, Eq, Structural)]
pub enum PrimKind {
    I32,
    I64,
    Usize,
    Bool,
}

/// One field of a struct layout.
pub struct FieldDescriptor {
    pub name: String,
    pub offset: usize,
    /// Identity of the field's own type.
    pub ty: u64,
    /// Whether the field holds a heap reference that tracing must follow.
    pub is_ref: bool,
    pub read_only: bool,
}

/// What kind of type a descriptor describes.
pub enum TypeKind {
    Prim(PrimKind),
    /// A struct; by-value structs are copied on assignment, the others are
    /// reached through a heap reference that all copies share.
    Struct { by_value: bool, fields: Vec<FieldDescriptor> },
    /// An array of elements of type `elem`, laid out `stride` bytes apart.
    Array { elem: u64, stride: usize },
}

/// Layout metadata of one compiled type.
pub struct TypeDescriptor {
    pub id: u64,
    pub size: usize,
    pub align: usize,
    pub kind: TypeKind,
}

#[derive(Clone, Copy, Debug, PartialEq, Eq, Structural)]
pub enum TypeError {
    DuplicateType,
    UnknownType,
}

#[derive(Clone, Copy, Debug, PartialEq, Eq, Structural)]
pub enum FieldError {
    UnknownField,
    FieldTypeMismatch,
    ReadOnlyField,
}

pub open spec fn field_eq(a: FieldDescriptor, b: FieldDescriptor) -> bool {
    &&& a.name@ == b.name@
    &&& a.offset == b.offset
    &&& a.ty == b.ty
    &&& a.is_ref == b.is_ref
    &&& a.read_only == b.read_only
}

pub open spec fn fields_eq(a: Seq<FieldDescriptor>, b: Seq<FieldDescriptor>) -> bool {
    &&& a.len() == b.len()
    &&& forall|i: int| 0 <= i < a.len() ==> field_eq(#[trigger] a[i], b[i])
}

/// Two descriptors describe the same layout.
pub open spec fn layout_eq(a: TypeDescriptor, b: TypeDescriptor) -> bool {
    &&& a.id == b.id
    &&& a.size == b.size
    &&& a.align == b.align
    &&& match (a.kind, b.kind) {
        (TypeKind::Prim(p), TypeKind::Prim(q)) => p == q,
        (TypeKind::Struct { by_value: v, fields: f }, TypeKind::Struct { by_value: w, fields: g }) =>
            v == w && fields_eq(f@, g@),
        (TypeKind::Array { elem: e, stride: s }, TypeKind::Array { elem: d, stride: t }) =>
            e == d && s == t,
        _ => false,
    }
}

/// Index of the first field named `name`.
pub open spec fn field_position(fields: Seq<FieldDescriptor>, name: Seq<char>) -> Option<int> {
    if exists|i: int| 0 <= i < fields.len() && (#[trigger] fields[i]).name@ == name {
        Some(choose|i: int|
            0 <= i < fields.len() && (#[trigger] fields[i]).name@ == name && forall|j: int|
                0 <= j < i ==> (#[trigger] fields[j]).name@ != name)
    } else {
        None
    }
}

/// Index of the first field named `name`, where `d` describes a struct.
pub open spec fn struct_field_position(d: TypeDescriptor, name: Seq<char>) -> Option<int> {
    match d.kind {
        TypeKind::Struct { fields, .. } => field_position(fields@, name),
        _ => None,
    }
}

fn same_field(a: &FieldDescriptor, b: &FieldDescriptor) -> (r: bool)
    ensures
        r == field_eq(*a, *b),
{
    a.name == b.name && a.offset == b.offset && a.ty == b.ty && a.is_ref == b.is_ref
        && a.read_only == b.read_only
}

fn same_fields(f: &Vec<FieldDescriptor>, g: &Vec<FieldDescriptor>) -> (r: bool)
    ensures
        r == fields_eq(f@, g@),
{
    if f.len() != g.len() {
        return false;
    }
    let mut i: usize = 0;
    while i < f.len()
        invariant
            f@.len() == g@.len(),
            i <= f@.len(),
            forall|j: int| 0 <= j < i ==> field_eq(#[trigger] f@[j], g@[j]),
        decreases f@.len() - i,
    {
        if !same_field(&f[i], &g[i]) {
            assert(!field_eq(f@[i as int], g@[i as int]));
            return false;
        }
        i = i + 1;
    }
    true
}

/// Whether two descriptors describe the same layout.
pub fn same_layout(a: &TypeDescriptor, b: &TypeDescriptor) -> (r: bool)
    ensures
        r == layout_eq(*a, *b),
{
    if a.id != b.id || a.size != b.size || a.align != b.align {
        return false;
    }
    match (&a.kind, &b.kind) {
        (TypeKind::Prim(p), TypeKind::Prim(q)) => *p == *q,
        (TypeKind::Struct { by_value: v, fields: f }, TypeKind::Struct { by_value: w, fields: g }) => {
            *v == *w && same_fields(f, g)
        },
        (TypeKind::Array { elem: e, stride: s }, TypeKind::Array { elem: d, stride: t }) => {
            *e == *d && *s == *t
        },
        _ => false,
    }
}

/// Position of the first field named `name`, if any.
pub fn find_field(fields: &Vec<FieldDescriptor>, name: &str) -> (r: Option<usize>)
    ensures
        r matches Some(i) ==> field_position(fields@, name@) == Some(i as int),
        r matches Some(i) ==> i < fields@.len() && fields@[i as int].name@ == name@,
        r is None <==> field_position(fields@, name@) is None,
{
    let key = name.to_owned();
    let mut i: usize = 0;
    while i < fields.len()
        invariant
            key@ == name@,
            i <= fields@.len(),
            forall|j: int| 0 <= j < i ==> (#[trigger] fields@[j]).name@ != name@,
        decreases fields@.len() - i,
    {
        if fields[i].name == key {
            proof {
                let p = field_position(fields@, name@);
                assert(p is Some);
                let k = p->Some_0;
                if k > i {
                    assert(fields@[i as int].name@ == name@);
                }
            }
            return Some(i);
        }
        i = i + 1;
    }
    None
}

/// Offset of the field named `name` in a struct layout.
pub fn field_offset(d: &TypeDescriptor, name: &str) -> (r: Result<usize, FieldError>)
    ensures
        struct_field_position(*d, name@) matches Some(i)
            ==> r == Ok::<usize, FieldError>(d.kind->Struct_fields@[i].offset),
        struct_field_position(*d, name@) is None
            ==> r == Err::<usize, FieldError>(FieldError::UnknownField),
{
    match &d.kind {
        TypeKind::Struct { fields, .. } => match find_field(fields, name) {
            Some(i) => Ok(fields[i].offset),
            None => Err(FieldError::UnknownField),
        },
        _ => Err(FieldError::UnknownField),
    }
}

/// The published type descriptors, at most one per identity.
pub struct TypeRegistry {
    pub types: Vec<TypeDescriptor>,
}

impl TypeRegistry {
    pub open spec fn wf(&self) -> bool {
        forall|i: int, j: int|
            0 <= i < self.types@.len() && 0 <= j < self.types@.len() && i != j
                ==> (#[trigger] self.types@[i]).id != (#[trigger] self.types@[j]).id
    }

    pub open spec fn contains(&self, id: u64) -> bool {
        exists|i: int| 0 <= i < self.types@.len() && (#[trigger] self.types@[i]).id == id
    }

    /// The descriptor published under `id`.
    pub open spec fn descriptor(&self, id: u64) -> TypeDescriptor
        recommends
            self.contains(id),
    {
        self.types@[choose|i: int| 0 <= i < self.types@.len() && (#[trigger] self.types@[i]).id == id]
    }

    pub fn new() -> (r: TypeRegistry)
        ensures
            r.wf(),
            r.types@.len() == 0,
    {
        TypeRegistry { types: Vec::new() }
    }

    fn position(&self, id: u64) -> (r: Option<usize>)
        requires
            self.wf(),
        ensures
            self.contains(id) <==> r is Some,
            r matches Some(i) ==> i < self.types@.len() && self.types@[i as int] == self.descriptor(id),
    {
        let mut i: usize = 0;
        while i < self.types.len()
            invariant
                self.wf(),
                i <= self.types@.len(),
                forall|j: int| 0 <= j < i ==> (#[trigger] self.types@[j]).id != id,
            decreases self.types@.len() - i,
        {
            if self.types[i].id == id {
                assert(self.types@[i as int].id == id);
                proof {
                    let k = choose|k: int| 0 <= k < self.types@.len() && (#[trigger] self.types@[k]).id == id;
                    assert(self.types@[k].id == id);
                    assert(k == i);
                }
                return Some(i);
            }
            i = i + 1;
        }
        None
    }

    /// Publishes a descriptor. Publishing one whose identity is already taken
    /// succeeds, and changes nothing, only when both describe the same layout.
    pub fn register(&mut self, d: TypeDescriptor) -> (r: Result<(), TypeError>)
        requires
            old(self).wf(),
        ensures
            final(self).wf(),
            old(self).contains(d.id) ==> *final(self) == *old(self),
            old(self).contains(d.id) ==> (r is Ok <==> layout_eq(old(self).descriptor(d.id), d)),
            r is Err ==> r == Err::<(), TypeError>(TypeError::DuplicateType),
            !old(self).contains(d.id) ==> r is Ok && final(self).types@ == old(self).types@.push(d),
    {
        match self.position(d.id) {
            Some(i) => {
                if same_layout(&self.types[i], &d) {
                    Ok(())
                } else {
                    Err(TypeError::DuplicateType)
                }
            },
            None => {
                self.types.push(d);
                proof {
                    assert forall|i: int, j: int|
                        0 <= i < self.types@.len() && 0 <= j < self.types@.len() && i != j
                            implies (#[trigger] self.types@[i]).id != (#[trigger] self.types@[j]).id by {
                        if i < old(self).types@.len() && j < old(self).types@.len() {
                            assert(old(self).types@[i] == self.types@[i]);
                        }
                    }
                }
                Ok(())
            },
        }
    }

    /// The descriptor published under `id`.
    pub fn resolve(&self, id: u64) -> (r: Result<&TypeDescriptor, TypeError>)
        requires
            self.wf(),
        ensures
            self.contains(id) ==> r == Ok::<&TypeDescriptor, TypeError>(&self.descriptor(id)),
            !self.contains(id) ==> r == Err::<&TypeDescriptor, TypeError>(TypeError::UnknownType),
    {
        match self.position(id) {
            Some(i) => Ok(&self.types[i]),
            None => Err(TypeError::UnknownType),
        }
    }
}

} // verus!
