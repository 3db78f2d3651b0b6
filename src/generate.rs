//! Generation: picking a variant at random and laying out the fields that
//! the caller then fills, each from its own type's generator.
use vstd::prelude::*;
use crate::shape::{VariantShape, TypeShape, Instance, fits};
use quickcheck::Gen;

verus! {

#[verifier::external_type_specification]
#[verifier::external_body]
pub struct ExGen(Gen);

/// Why no value could be laid out.
#[derive(Debug, Clone, Copy, PartialEq, Eq, Structural)]
pub enum GenError {
    /// The shape has no variants, so it has no values at all.
    NoVariants,
    /// The variant index is not one of the shape's variants.
    NoSuchVariant,
    /// The fields given are not as many as the variant declares.
    ArityMismatch,
}

/// Where a generated field goes.
#[derive(Debug, PartialEq, Eq)]
pub enum FieldSlot {
    Position(usize),
    Named(String),
}

/// The slot of field `i` of a variant.
pub open spec fn slot_at(vs: VariantShape, i: int) -> FieldSlot {
    match vs {
        VariantShape::Named(names) => FieldSlot::Named(names@[i]),
        _ => FieldSlot::Position(i as usize),
    }
}

/// The slots of a variant's fields, in declaration order.
pub open spec fn slots(vs: VariantShape) -> Seq<FieldSlot> {
    Seq::new(vs.arity(), |i: int| slot_at(vs, i))
}

/// A variant, and the slots of its fields that a generator must fill in order.
pub struct Layout {
    pub variant: usize,
    pub slots: Vec<FieldSlot>,
}

/// The slots of the fields of `vs`.
pub fn field_slots(vs: &VariantShape) -> (r: Vec<FieldSlot>)
    ensures
        r@ == slots(*vs),
{
    let n = vs.field_count();
    let mut r: Vec<FieldSlot> = Vec::new();
    let mut i: usize = 0;
    while i < n
        invariant
            n == vs.arity(),
            i <= n,
            r@ == slots(*vs).take(i as int),
        decreases n - i,
    {
        let slot = match vs {
            VariantShape::Named(names) => FieldSlot::Named(names[i].clone()),
            _ => FieldSlot::Position(i),
        };
        r.push(slot);
        assert(r@ =~= slots(*vs).take(i + 1));
        i = i + 1;
    }
    assert(r@ =~= slots(*vs));
    r
}

/// The layout of variant `variant` of `shape`.
pub fn layout_of(shape: &TypeShape, variant: usize) -> (r: Result<Layout, GenError>)
    ensures
        shape.variant_count() == 0 ==> r == Err::<Layout, GenError>(GenError::NoVariants),
        0 < shape.variant_count() <= variant ==> r == Err::<Layout, GenError>(GenError::NoSuchVariant),
        variant < shape.variant_count() ==> (r matches Ok(l) && l.variant == variant && l.slots@ == slots(
            shape.variant_shape(variant as int),
        )),
{
    let n = shape.count();
    if n == 0 {
        return Err(GenError::NoVariants);
    }
    if variant >= n {
        return Err(GenError::NoSuchVariant);
    }
    Ok(Layout { variant, slots: field_slots(shape.shape_of(variant)) })
}

/// Relies on quickcheck's `Gen::choose`: `None` exactly for an empty slice,
/// and otherwise one of the slice's own elements, drawn at random.
#[verifier::external_body]
fn choose_index(g: &mut Gen, choices: &Vec<usize>) -> (r: Option<usize>)
    ensures
        r is None <==> choices@.len() == 0,
        r matches Some(x) ==> choices@.contains(x),
{
    g.choose(choices.as_slice()).copied()
}

/// The indices `0..n`.
fn indices(n: usize) -> (r: Vec<usize>)
    ensures
        r@ == Seq::new(n as nat, |i: int| i as usize),
{
    let mut r: Vec<usize> = Vec::new();
    let mut i: usize = 0;
    while i < n
        invariant
            i <= n,
            r@ == Seq::new(i as nat, |k: int| k as usize),
        decreases n - i,
    {
        r.push(i);
        assert(r@ =~= Seq::new((i + 1) as nat, |k: int| k as usize));
        i = i + 1;
    }
    r
}

/// Picks one of the shape's variants uniformly at random and lays it out.
/// A shape without variants has no values, and gives `NoVariants`.
pub fn arbitrary(shape: &TypeShape, g: &mut Gen) -> (r: Result<Layout, GenError>)
    ensures
        shape.variant_count() == 0 <==> r == Err::<Layout, GenError>(GenError::NoVariants),
        shape.variant_count() > 0 ==> (r matches Ok(l) && l.variant < shape.variant_count()
            && l.slots@ == slots(shape.variant_shape(l.variant as int))),
        shape is Struct ==> (r matches Ok(l) && l.variant == 0),
{
    let n = shape.count();
    let choices = indices(n);
    match choose_index(g, &choices) {
        None => Err(GenError::NoVariants),
        Some(v) => {
            assert(v < n) by {
                let k = choose|k: int| 0 <= k < choices@.len() && choices@[k] == v;
            }
            layout_of(shape, v)
        },
    }
}

/// The value of variant `variant` with the generated `fields`, in slot order.
pub fn assemble<F>(shape: &TypeShape, variant: usize, fields: Vec<F>) -> (r: Result<Instance<F>, GenError>)
    ensures
        shape.variant_count() == 0 ==> r == Err::<Instance<F>, GenError>(GenError::NoVariants),
        0 < shape.variant_count() <= variant ==> r == Err::<Instance<F>, GenError>(GenError::NoSuchVariant),
        variant < shape.variant_count() && fields@.len() != shape.arity_of(variant as int) ==> r == Err::<
            Instance<F>,
            GenError,
        >(GenError::ArityMismatch),
        fits(*shape, (variant as nat, fields@)) ==> (r matches Ok(v) && v@ == (variant as nat, fields@)),
{
    let n = shape.count();
    if n == 0 {
        return Err(GenError::NoVariants);
    }
    if variant >= n {
        return Err(GenError::NoSuchVariant);
    }
    if fields.len() != shape.shape_of(variant).field_count() {
        return Err(GenError::ArityMismatch);
    }
    Ok(Instance { variant, fields })
}

} // verus!
