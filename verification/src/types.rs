//! Mog's types, as written in annotations and declarations.

use vstd::prelude::*;

verus! {

/// Signed integer widths.
#[derive(Debug, Clone, Copy, PartialEq, Eq, Structural)]
pub enum IntegerKind {
    I8,
    I16,
    I32,
    I64,
    I128,
    I256,
}

/// Unsigned integer widths.
#[derive(Debug, Clone, Copy, PartialEq, Eq, Structural)]
pub enum UnsignedKind {
    U8,
    U16,
    U32,
    U64,
    U128,
    U256,
}

/// Floating-point formats.
#[derive(Debug, Clone, Copy, PartialEq, Eq, Structural)]
pub enum FloatKind {
    F8,
    F16,
    F32,
    F64,
    F128,
    F256,
    Bf16,
}

/// A Mog type.
#[derive(Debug, PartialEq)]
pub enum Type {
    Integer(IntegerKind),
    Unsigned(UnsignedKind),
    Float(FloatKind),
    Bool,
    String,
    Void,
    Pointer(Option<Box<Type>>),
    Array { element_type: Box<Type>, dimensions: Vec<usize> },
    MapType { key_type: Box<Type>, value_type: Box<Type> },
    AOS { element_type: Box<Type>, size: Option<usize> },
    SOA { struct_type: Box<Type>, capacity: Option<usize> },
    Custom(String),
    Result(Box<Type>),
    Optional(Box<Type>),
    Future(Box<Type>),
    Function { param_types: Vec<Type>, return_type: Box<Type> },
    Tensor { dtype: Box<Type>, shape: Option<Vec<usize>> },
    TypeAlias { name: String, aliased_type: Box<Type> },
}

/// A type as a value: the type with each vector in it seen as the
/// sequence of its elements. Two types with one view differ in nothing but
/// the spare capacity of their vectors.
pub enum TypeV {
    Integer(IntegerKind),
    Unsigned(UnsignedKind),
    Float(FloatKind),
    Bool,
    String,
    Void,
    Pointer(Option<Box<TypeV>>),
    Array { element_type: Box<TypeV>, dimensions: Seq<usize> },
    MapType { key_type: Box<TypeV>, value_type: Box<TypeV> },
    AOS { element_type: Box<TypeV>, size: Option<usize> },
    SOA { struct_type: Box<TypeV>, capacity: Option<usize> },
    Custom(Seq<char>),
    Result(Box<TypeV>),
    Optional(Box<TypeV>),
    Future(Box<TypeV>),
    Function { param_types: Seq<TypeV>, return_type: Box<TypeV> },
    Tensor { dtype: Box<TypeV>, shape: Option<Seq<usize>> },
    TypeAlias { name: Seq<char>, aliased_type: Box<TypeV> },
}

/// The view of type `t`.
pub open spec fn tview(t: Type) -> TypeV
    decreases t,
{
    match t {
        Type::Integer(k) => TypeV::Integer(k),
        Type::Unsigned(k) => TypeV::Unsigned(k),
        Type::Float(k) => TypeV::Float(k),
        Type::Bool => TypeV::Bool,
        Type::String => TypeV::String,
        Type::Void => TypeV::Void,
        Type::Pointer(None) => TypeV::Pointer(None),
        Type::Pointer(Some(b)) => TypeV::Pointer(Some(Box::new(tview(*b)))),
        Type::Array { element_type, dimensions } => TypeV::Array {
            element_type: Box::new(tview(*element_type)),
            dimensions: dimensions@,
        },
        Type::MapType { key_type, value_type } => TypeV::MapType {
            key_type: Box::new(tview(*key_type)),
            value_type: Box::new(tview(*value_type)),
        },
        Type::AOS { element_type, size } => TypeV::AOS { element_type: Box::new(tview(*element_type)), size },
        Type::SOA { struct_type, capacity } => TypeV::SOA { struct_type: Box::new(tview(*struct_type)), capacity },
        Type::Custom(n) => TypeV::Custom(n@),
        Type::Result(b) => TypeV::Result(Box::new(tview(*b))),
        Type::Optional(b) => TypeV::Optional(Box::new(tview(*b))),
        Type::Future(b) => TypeV::Future(Box::new(tview(*b))),
        Type::Function { param_types, return_type } => TypeV::Function {
            param_types: Seq::new(
                param_types.len() as nat,
                |i: int|
                    if 0 <= i < param_types.len() {
                        tview(param_types[i])
                    } else {
                        TypeV::Void
                    },
            ),
            return_type: Box::new(tview(*return_type)),
        },
        Type::Tensor { dtype, shape } => TypeV::Tensor {
            dtype: Box::new(tview(*dtype)),
            shape: match shape {
                Some(v) => Some(v@),
                None => None,
            },
        },
        Type::TypeAlias { name, aliased_type } => TypeV::TypeAlias {
            name: name@,
            aliased_type: Box::new(tview(*aliased_type)),
        },
    }
}

pub(crate) fn clone_usizes(v: &Vec<usize>) -> (r: Vec<usize>)
    ensures
        r@ == v@,
{
    let mut r: Vec<usize> = Vec::new();
    let mut i: usize = 0;
    while i < v.len()
        invariant
            i <= v.len(),
            r@ == v@.take(i as int),
        decreases v.len() - i,
    {
        r.push(v[i]);
        assert(v@.take(i + 1) =~= v@.take(i as int).push(v@[i as int]));
        i += 1;
    }
    assert(v@.take(v.len() as int) =~= v@);
    r
}

fn clone_types(v: &Vec<Type>) -> (r: Vec<Type>)
    ensures
        r.len() == v.len(),
        forall|i: int| 0 <= i < v.len() ==> tview(#[trigger] r@[i]) == tview(v@[i]),
    decreases v,
{
    let mut r: Vec<Type> = Vec::new();
    let mut i: usize = 0;
    while i < v.len()
        invariant
            i <= v.len(),
            r.len() == i,
            forall|k: int| 0 <= k < i ==> tview(#[trigger] r@[k]) == tview(v@[k]),
        decreases v.len() - i,
    {
        let t = v[i].clone_type();
        r.push(t);
        i += 1;
    }
    r
}

impl Clone for Type {
    fn clone(&self) -> (r: Type)
        ensures
            tview(r) == tview(*self),
            !holds_vec(*self) ==> r == *self,
    {
        self.clone_type()
    }
}

/// Whether the type holds a vector anywhere inside it (array dimensions,
/// function parameters, tensor shapes).
pub open spec fn holds_vec(t: Type) -> bool
    decreases t,
{
    match t {
        Type::Pointer(Some(b)) => holds_vec(*b),
        Type::Array { .. } => true,
        Type::MapType { key_type, value_type } => holds_vec(*key_type) || holds_vec(*value_type),
        Type::AOS { element_type, .. } => holds_vec(*element_type),
        Type::SOA { struct_type, .. } => holds_vec(*struct_type),
        Type::Result(b) => holds_vec(*b),
        Type::Optional(b) => holds_vec(*b),
        Type::Future(b) => holds_vec(*b),
        Type::Function { .. } => true,
        Type::Tensor { dtype, shape } => shape is Some || holds_vec(*dtype),
        Type::TypeAlias { aliased_type, .. } => holds_vec(*aliased_type),
        _ => false,
    }
}

impl Type {
    /// A copy of this type (equal to it whenever it holds no vector).
    pub fn clone_type(&self) -> (r: Type)
        ensures
            tview(r) == tview(*self),
            !holds_vec(*self) ==> r == *self,
        decreases self,
    {
        match self {
            Type::Integer(k) => Type::Integer(*k),
            Type::Unsigned(k) => Type::Unsigned(*k),
            Type::Float(k) => Type::Float(*k),
            Type::Bool => Type::Bool,
            Type::String => Type::String,
            Type::Void => Type::Void,
            Type::Pointer(None) => Type::Pointer(None),
            Type::Pointer(Some(b)) => Type::Pointer(Some(Box::new((**b).clone_type()))),
            Type::Array { element_type, dimensions } => Type::Array {
                element_type: Box::new((**element_type).clone_type()),
                dimensions: clone_usizes(dimensions),
            },
            Type::MapType { key_type, value_type } => Type::MapType {
                key_type: Box::new((**key_type).clone_type()),
                value_type: Box::new((**value_type).clone_type()),
            },
            Type::AOS { element_type, size } => Type::AOS {
                element_type: Box::new((**element_type).clone_type()),
                size: *size,
            },
            Type::SOA { struct_type, capacity } => Type::SOA {
                struct_type: Box::new((**struct_type).clone_type()),
                capacity: *capacity,
            },
            Type::Custom(n) => Type::Custom(n.clone()),
            Type::Result(b) => Type::Result(Box::new((**b).clone_type())),
            Type::Optional(b) => Type::Optional(Box::new((**b).clone_type())),
            Type::Future(b) => Type::Future(Box::new((**b).clone_type())),
            Type::Function { param_types, return_type } => {
                let ps = clone_types(param_types);
                let r = Type::Function {
                    param_types: ps,
                    return_type: Box::new((**return_type).clone_type()),
                };
                proof {
                    let v1 = tview(r);
                    let v2 = tview(*self);
                    assert(v1->param_types =~= v2->param_types);
                }
                r
            },
            Type::Tensor { dtype, shape } => Type::Tensor {
                dtype: Box::new((**dtype).clone_type()),
                shape: match shape {
                    None => None,
                    Some(v) => Some(clone_usizes(v)),
                },
            },
            Type::TypeAlias { name, aliased_type } => Type::TypeAlias {
                name: name.clone(),
                aliased_type: Box::new((**aliased_type).clone_type()),
            },
        }
    }

    /// A function type taking `params` and returning `ret`.
    pub fn function(params: Vec<Type>, ret: Type) -> (t: Type)
        ensures
            t matches Type::Function { param_types, return_type } && param_types@ == params@
                && *return_type == ret,
    {
        Type::Function { param_types: params, return_type: Box::new(ret) }
    }

    /// An array type with element type `elem` and no fixed dimensions.
    pub fn array(elem: Type) -> (t: Type)
        ensures
            t matches Type::Array { element_type, dimensions } && *element_type == elem
                && dimensions@.len() == 0,
    {
        Type::Array { element_type: Box::new(elem), dimensions: Vec::new() }
    }

    /// The type of a future of `inner`.
    pub fn future(inner: Type) -> (t: Type)
        ensures
            t == Type::Future(Box::new(inner)),
    {
        Type::Future(Box::new(inner))
    }

    /// A tensor type with element type `dtype` and an optional shape.
    pub fn tensor(dtype: Type, shape: Option<Vec<usize>>) -> (t: Type)
        ensures
            t == (Type::Tensor { dtype: Box::new(dtype), shape }),
    {
        Type::Tensor { dtype: Box::new(dtype), shape }
    }

    /// The default integer type, `int` (64-bit signed).
    pub fn int_type() -> (t: Type)
        ensures
            t == Type::Integer(IntegerKind::I64),
    {
        Type::Integer(IntegerKind::I64)
    }

    /// The default floating-point type, `float` (64-bit).
    pub fn float() -> (t: Type)
        ensures
            t == Type::Float(FloatKind::F64),
    {
        Type::Float(FloatKind::F64)
    }
}

} // verus!
