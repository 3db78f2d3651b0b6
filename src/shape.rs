//! The shape of a data type, and values laid out by it.
use vstd::prelude::*;

verus! {

/// The fields of one variant (or of a struct).
pub enum VariantShape {
    /// No fields at all.
    Unit,
    /// Positional fields; the number of them.
    Tuple(usize),
    /// Named fields, in declaration order.
    Named(Vec<String>),
}

impl VariantShape {
    /// The number of fields.
    pub open spec fn arity(&self) -> nat {
        match self {
            VariantShape::Unit => 0,
            VariantShape::Tuple(n) => *n as nat,
            VariantShape::Named(names) => names@.len(),
        }
    }

    pub open spec fn is_unit(&self) -> bool {
        self is Unit
    }

    pub fn field_count(&self) -> (r: usize)
        ensures
            r == self.arity(),
    {
        match self {
            VariantShape::Unit => 0,
            VariantShape::Tuple(n) => *n,
            VariantShape::Named(names) => names.len(),
        }
    }

    pub fn unit(&self) -> (r: bool)
        ensures
            r == self.is_unit(),
    {
        match self {
            VariantShape::Unit => true,
            _ => false,
        }
    }
}

/// One declared variant of an enum.
pub struct Variant {
    pub name: String,
    pub shape: VariantShape,
}

/// The normalized shape of a struct or an enum.
pub enum TypeShape {
    Struct(VariantShape),
    /// The variants in declaration order.
    Enum(Vec<Variant>),
}

impl TypeShape {
    /// How many variants a value may take; a struct has exactly one.
    pub open spec fn variant_count(&self) -> nat {
        match self {
            TypeShape::Struct(_) => 1,
            TypeShape::Enum(vs) => vs@.len(),
        }
    }

    /// The fields of variant `v` (of the struct, when `v` is 0).
    pub open spec fn variant_shape(&self, v: int) -> VariantShape
        recommends
            0 <= v < self.variant_count(),
    {
        match self {
            TypeShape::Struct(s) => *s,
            TypeShape::Enum(vs) => vs@[v].shape,
        }
    }

    pub open spec fn arity_of(&self, v: int) -> nat {
        self.variant_shape(v).arity()
    }

    /// A unit variant of an enum: a value that can be jumped to directly.
    pub open spec fn is_unit_variant(&self, v: int) -> bool {
        &&& self is Enum
        &&& 0 <= v < self.variant_count()
        &&& self.variant_shape(v).is_unit()
    }

    pub fn count(&self) -> (r: usize)
        ensures
            r == self.variant_count(),
    {
        match self {
            TypeShape::Struct(_) => 1,
            TypeShape::Enum(vs) => vs.len(),
        }
    }

    pub fn is_unit_at(&self, v: usize) -> (r: bool)
        ensures
            r == self.is_unit_variant(v as int),
    {
        match self {
            TypeShape::Struct(_) => false,
            TypeShape::Enum(vs) => v < vs.len() && vs[v].shape.unit(),
        }
    }

    pub fn shape_of(&self, v: usize) -> (r: &VariantShape)
        requires
            v < self.variant_count(),
        ensures
            *r == self.variant_shape(v as int),
    {
        match self {
            TypeShape::Struct(s) => s,
            TypeShape::Enum(vs) => &vs[v].shape,
        }
    }
}

/// A type definition as declared, before analysis.
pub enum Declaration {
    Struct(VariantShape),
    Enum(Vec<Variant>),
    /// A union, with its field names.
    Union(Vec<String>),
}

/// Why a declaration has no shape.
#[derive(Debug, Clone, Copy, PartialEq, Eq, Structural)]
pub enum ShapeError {
    /// Only structs and enums have a shape.
    Unsupported,
}

/// The shape of a declared struct or enum; anything else is unsupported.
pub fn analyze(decl: Declaration) -> (r: Result<TypeShape, ShapeError>)
    ensures
        match decl {
            Declaration::Struct(s) => r == Ok::<TypeShape, ShapeError>(TypeShape::Struct(s)),
            Declaration::Enum(vs) => r == Ok::<TypeShape, ShapeError>(TypeShape::Enum(vs)),
            Declaration::Union(_) => r == Err::<TypeShape, ShapeError>(ShapeError::Unsupported),
        },
{
    match decl {
        Declaration::Struct(s) => Ok(TypeShape::Struct(s)),
        Declaration::Enum(vs) => Ok(TypeShape::Enum(vs)),
        Declaration::Union(_) => Err(ShapeError::Unsupported),
    }
}

/// A value of a shaped type: which variant it is, and its fields in
/// declaration order. `F` stands for whatever the fields hold.
pub struct Instance<F> {
    pub variant: usize,
    pub fields: Vec<F>,
}

impl<F> View for Instance<F> {
    type V = (nat, Seq<F>);

    open spec fn view(&self) -> (nat, Seq<F>) {
        (self.variant as nat, self.fields@)
    }
}

/// Whether `v` is a value of `shape`: its variant exists and it holds as
/// many fields as that variant declares.
pub open spec fn fits<F>(shape: TypeShape, v: (nat, Seq<F>)) -> bool {
    &&& v.0 < shape.variant_count()
    &&& v.1.len() == shape.arity_of(v.0 as int)
}

} // verus!
