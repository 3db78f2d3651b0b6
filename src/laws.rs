//! Laws that hold of shrinking and generation for every shape.
use vstd::prelude::*;
use crate::shape::{VariantShape, TypeShape, fits};
use crate::shrink::{
    jumps_upto, unit_jumps, field_block, substitutions_upto, substitutions, shrink_candidates,
    shrink_outcome, ShrinkError, offset, lemma_substitutions_len, lemma_substitution_at,
};
use crate::generate::slots;

verus! {

/// Each substitution replaces one field by one of that field's candidates.
pub proof fn lemma_substitution_member<F>(v: (nat, Seq<F>), cands: Seq<Seq<F>>, i: nat, n: int)
    requires
        0 <= n < substitutions_upto(v, cands, i).len(),
    ensures
        exists|k: int, j: int|
            0 <= k < i && 0 <= j < cands[k].len() && substitutions_upto(v, cands, i)[n] == (
            v.0,
            v.1.update(k, cands[k][j]),
        ),
    decreases i,
{
    let p = (i - 1) as nat;
    let before = substitutions_upto(v, cands, p);
    if n < before.len() {
        lemma_substitution_member(v, cands, p, n);
    } else {
        let j = n - before.len();
        assert(substitutions_upto(v, cands, i)[n] == field_block(v, p as int, cands[p as int])[j]);
    }
}

/// Each jump is a unit variant, with no fields.
pub proof fn lemma_jump_member<F>(shape: TypeShape, i: nat, n: int)
    requires
        0 <= n < jumps_upto::<F>(shape, i).len(),
    ensures
        jumps_upto::<F>(shape, i)[n].1 == Seq::<F>::empty(),
        shape.is_unit_variant(jumps_upto::<F>(shape, i)[n].0 as int),
    decreases i,
{
    let p = (i - 1) as nat;
    if n < jumps_upto::<F>(shape, p).len() {
        lemma_jump_member::<F>(shape, p, n);
    }
}

/// Every unit variant before `i` is among the jumps.
pub proof fn lemma_jump_present<F>(shape: TypeShape, i: nat, u: nat)
    requires
        u < i,
        shape.is_unit_variant(u as int),
    ensures
        jumps_upto::<F>(shape, i).contains((u, Seq::<F>::empty())),
    decreases i,
{
    let p = (i - 1) as nat;
    if u < p {
        lemma_jump_present::<F>(shape, p, u);
        let k = choose|k: int|
            0 <= k < jumps_upto::<F>(shape, p).len() && jumps_upto::<F>(shape, p)[k] == (u, Seq::<F>::empty());
        assert(jumps_upto::<F>(shape, i)[k] == (u, Seq::<F>::empty()));
    } else {
        let s = jumps_upto::<F>(shape, i);
        assert(s[s.len() - 1] == (u, Seq::<F>::empty()));
    }
}

/// A value laid out by generation (a variant of the shape, with one field
/// per slot) shrinks without fault, given one candidate list per field.
pub proof fn lemma_generated_values_shrink<F>(
    shape: TypeShape,
    variant: nat,
    fields: Seq<F>,
    cands: Seq<Seq<F>>,
)
    requires
        variant < shape.variant_count(),
        fields.len() == slots(shape.variant_shape(variant as int)).len(),
        cands.len() == fields.len(),
    ensures
        shrink_outcome(shape, (variant, fields), cands) is Ok,
{
}

/// A shape without variants has no values, and shrinking gives nothing.
pub proof fn lemma_no_variants<F>(shape: TypeShape, v: (nat, Seq<F>), cands: Seq<Seq<F>>)
    requires
        shape.variant_count() == 0,
    ensures
        !fits(shape, v),
        shrink_outcome(shape, v, cands) == Ok::<Seq<(nat, Seq<F>)>, ShrinkError>(Seq::empty()),
{
}

/// For a struct with two named fields `a` and `b`, the candidates are
/// exactly `a`'s candidates with `b` unchanged, followed by `b`'s
/// candidates with `a` unchanged.
pub proof fn lemma_two_named_fields<F>(names: Vec<String>, a: F, b: F, ca: Seq<F>, cb: Seq<F>)
    requires
        names@.len() == 2,
    ensures
        ({
            let shape = TypeShape::Struct(VariantShape::Named(names));
            let out = shrink_outcome(shape, (0, seq![a, b]), seq![ca, cb]);
            &&& out is Ok
            &&& out->Ok_0.len() == ca.len() + cb.len()
            &&& forall|j: int| 0 <= j < ca.len() ==> out->Ok_0[j] == (0nat, seq![ca[j], b])
            &&& forall|j: int| 0 <= j < cb.len() ==> out->Ok_0[ca.len() + j] == (0nat, seq![a, cb[j]])
        }),
{
    let shape = TypeShape::Struct(VariantShape::Named(names));
    let v = (0nat, seq![a, b]);
    let cands = seq![ca, cb];
    assert(cands[0] == ca && cands[1] == cb);
    assert(offset(cands, 0) == 0);
    assert(offset(cands, 1) == ca.len());
    assert(offset(cands, 2) == ca.len() + cb.len());
    lemma_substitutions_len(v, cands, 2);
    assert(shape.arity_of(0) == 2);
    assert(shrink_outcome(shape, v, cands) is Ok);
    assert(unit_jumps::<F>(shape) =~= Seq::empty()) by {
        assert(jumps_upto::<F>(shape, 0) =~= Seq::empty());
    }
    let out = shrink_outcome(shape, v, cands)->Ok_0;
    assert(out == substitutions(v, cands)) by {
        assert(Seq::<(nat, Seq<F>)>::empty() + substitutions(v, cands) =~= substitutions(v, cands));
    }
    assert forall|j: int| 0 <= j < ca.len() implies out[j] == (0nat, seq![ca[j], b]) by {
        lemma_substitution_at(v, cands, 2, 0, j);
        assert(v.1.update(0, ca[j]) =~= seq![ca[j], b]);
    }
    assert forall|j: int| 0 <= j < cb.len() implies out[ca.len() + j] == (0nat, seq![a, cb[j]]) by {
        lemma_substitution_at(v, cands, 2, 1, j);
        assert(v.1.update(1, cb[j]) =~= seq![a, cb[j]]);
    }
}

/// In an enum with a unit variant `u`, a value of a variant that is not a unit
/// variant shrinks to `u` before any candidate that keeps its own variant.
pub proof fn lemma_unit_variant_first<F>(shape: TypeShape, u: nat, v: (nat, Seq<F>), cands: Seq<Seq<F>>)
    requires
        shape.is_unit_variant(u as int),
        fits(shape, v),
        !shape.is_unit_variant(v.0 as int),
        cands.len() == v.1.len(),
    ensures
        shrink_outcome(shape, v, cands) is Ok,
        ({
            let out = shrink_outcome(shape, v, cands)->Ok_0;
            exists|k: int|
                0 <= k < out.len() && #[trigger] out[k] == (u, Seq::<F>::empty()) && forall|j: int|
                    0 <= j < out.len() && out[j].0 == v.0 ==> k < j
        }),
{
    let jumps = unit_jumps::<F>(shape);
    let out = shrink_outcome(shape, v, cands)->Ok_0;
    assert(out == jumps + substitutions(v, cands));
    lemma_jump_present::<F>(shape, shape.variant_count(), u);
    let k = choose|k: int| 0 <= k < jumps.len() && jumps[k] == (u, Seq::<F>::empty());
    assert forall|j: int| 0 <= j < out.len() && out[j].0 == v.0 implies k < j by {
        if j < jumps.len() {
            lemma_jump_member::<F>(shape, shape.variant_count(), j);
        }
    }
    assert(out[k] == (u, Seq::<F>::empty()));
}

/// The sum of `m` over the elements of `s`.
pub open spec fn total<F>(s: Seq<F>, m: spec_fn(F) -> nat) -> nat
    decreases s.len(),
{
    if s.len() == 0 {
        0
    } else {
        total(s.drop_last(), m) + m(s.last())
    }
}

/// A measure of a value's size: nothing for a unit variant, and otherwise
/// one more than the sizes of its fields under `m`.
pub open spec fn weight<F>(shape: TypeShape, v: (nat, Seq<F>), m: spec_fn(F) -> nat) -> nat {
    if shape.is_unit_variant(v.0 as int) {
        0
    } else {
        1 + total(v.1, m)
    }
}

pub proof fn lemma_total_update<F>(s: Seq<F>, i: int, c: F, m: spec_fn(F) -> nat)
    requires
        0 <= i < s.len(),
    ensures
        total(s.update(i, c), m) + m(s[i]) == total(s, m) + m(c),
    decreases s.len(),
{
    let t = s.update(i, c);
    if i == s.len() - 1 {
        assert(t.drop_last() =~= s.drop_last());
    } else {
        assert(t.drop_last() =~= s.drop_last().update(i, c));
        lemma_total_update(s.drop_last(), i, c, m);
    }
}

/// When every field candidate is smaller under `m` than the field it
/// replaces, every candidate of `v` is a value of the shape and weighs less.
pub proof fn lemma_candidates_lighter<F>(
    shape: TypeShape,
    v: (nat, Seq<F>),
    cands: Seq<Seq<F>>,
    m: spec_fn(F) -> nat,
    n: int,
)
    requires
        fits(shape, v),
        cands.len() == v.1.len(),
        forall|k: int, j: int|
            0 <= k < cands.len() && 0 <= j < cands[k].len() ==> m(#[trigger] cands[k][j]) < m(v.1[k]),
        0 <= n < shrink_candidates(shape, v, cands).len(),
    ensures
        fits(shape, shrink_candidates(shape, v, cands)[n]),
        weight(shape, shrink_candidates(shape, v, cands)[n], m) < weight(shape, v, m),
{
    let jumps = unit_jumps::<F>(shape);
    let out = shrink_candidates(shape, v, cands);
    assert(out == jumps + substitutions(v, cands));
    if n < jumps.len() {
        lemma_jump_member::<F>(shape, shape.variant_count(), n);
        assert(out[n] == jumps[n]);
    } else {
        let p = n - jumps.len();
        assert(out[n] == substitutions(v, cands)[p]);
        lemma_substitution_member(v, cands, v.1.len(), p);
        let (k, j) = choose|k: int, j: int|
            0 <= k < v.1.len() && 0 <= j < cands[k].len() && substitutions(v, cands)[p] == (
            v.0,
            v.1.update(k, cands[k][j]),
        );
        lemma_total_update(v.1, k, cands[k][j], m);
    }
}

/// Whether each value of `chain` after the first is one of the candidates of
/// the value before it, when every field shrinks to `shrinks` of itself.
pub open spec fn descent<F>(shape: TypeShape, chain: Seq<(nat, Seq<F>)>, shrinks: spec_fn(F) -> Seq<F>) -> bool {
    forall|k: int|
        0 <= k < chain.len() - 1 ==> (#[trigger] shrink_outcome(
            shape,
            chain[k],
            chain[k].1.map_values(shrinks),
        ) matches Ok(out) && out.contains(chain[k + 1]))
}

proof fn lemma_descent_prefix<F>(
    shape: TypeShape,
    chain: Seq<(nat, Seq<F>)>,
    shrinks: spec_fn(F) -> Seq<F>,
    m: spec_fn(F) -> nat,
    k: int,
)
    requires
        forall|x: F, c: F| #[trigger] shrinks(x).contains(c) ==> m(c) < m(x),
        0 <= k < chain.len(),
        fits(shape, chain[0]),
        descent(shape, chain, shrinks),
    ensures
        fits(shape, chain[k]),
        weight(shape, chain[k], m) + k <= weight(shape, chain[0], m),
    decreases k,
{
    if k > 0 {
        let p = k - 1;
        lemma_descent_prefix(shape, chain, shrinks, m, p);
        let v = chain[p];
        let cands = v.1.map_values(shrinks);
        assert(shrink_outcome(shape, v, cands) matches Ok(out) && out.contains(chain[k]));
        let out = shrink_candidates(shape, v, cands);
        let n = choose|n: int| 0 <= n < out.len() && out[n] == chain[k];
        assert forall|a: int, j: int| 0 <= a < cands.len() && 0 <= j < cands[a].len() implies m(
            #[trigger] cands[a][j],
        ) < m(v.1[a]) by {
            assert(shrinks(v.1[a]).contains(cands[a][j]));
        }
        lemma_candidates_lighter(shape, v, cands, m, n);
    }
}

/// Shrinking terminates: when every field's own candidates are smaller than
/// the field under some measure `m`, any chain of values each taken from the
/// candidates of the one before is no longer than the first value's weight
/// plus one, and so ends at a value without candidates.
pub proof fn lemma_shrinking_terminates<F>(
    shape: TypeShape,
    chain: Seq<(nat, Seq<F>)>,
    shrinks: spec_fn(F) -> Seq<F>,
    m: spec_fn(F) -> nat,
)
    requires
        forall|x: F, c: F| #[trigger] shrinks(x).contains(c) ==> m(c) < m(x),
        chain.len() > 0,
        fits(shape, chain[0]),
        descent(shape, chain, shrinks),
    ensures
        chain.len() <= weight(shape, chain[0], m) + 1,
{
    lemma_descent_prefix(shape, chain, shrinks, m, chain.len() - 1);
}

} // verus!
