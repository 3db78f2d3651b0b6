//! Shrinking: the ordered candidates that a value of a shaped type shrinks to.
//!
//! A value in a unit variant (or of a unit struct) has no candidates. Any other
//! value first offers every unit variant of its enum, in declaration order, and
//! then, field by field, itself with that one field replaced by each of the
//! field's own candidates in turn. What a field shrinks to is not decided here:
//! the caller hands in, for each field, that field's own candidates.
use vstd::prelude::*;
use crate::shape::{TypeShape, Instance, fits};

verus! {

/// Why a value could not be shrunk.
#[derive(Debug, Clone, Copy, PartialEq, Eq, Structural)]
pub enum ShrinkError {
    /// The value's variant does not exist in the shape, or it holds another
    /// number of fields than that variant declares.
    VariantMismatch,
    /// The field candidates given are not one list per field.
    CandidateMismatch,
}

/// The unit variants among the first `i` variants, as values, in declaration order.
pub open spec fn jumps_upto<F>(shape: TypeShape, i: nat) -> Seq<(nat, Seq<F>)>
    decreases i,
{
    if i == 0 {
        Seq::empty()
    } else {
        let k = (i - 1) as nat;
        let before = jumps_upto::<F>(shape, k);
        if shape.is_unit_variant(k as int) {
            before.push((k, Seq::empty()))
        } else {
            before
        }
    }
}

/// Every unit variant of the shape, as a value, in declaration order.
pub open spec fn unit_jumps<F>(shape: TypeShape) -> Seq<(nat, Seq<F>)> {
    jumps_upto::<F>(shape, shape.variant_count())
}

/// The value `v` with field `i` replaced by each of `cands` in turn.
pub open spec fn field_block<F>(v: (nat, Seq<F>), i: int, cands: Seq<F>) -> Seq<(nat, Seq<F>)> {
    cands.map_values(|c: F| (v.0, v.1.update(i, c)))
}

/// The substitutions into fields `0..i`, field after field.
pub open spec fn substitutions_upto<F>(v: (nat, Seq<F>), cands: Seq<Seq<F>>, i: nat) -> Seq<
    (nat, Seq<F>),
>
    decreases i,
{
    if i == 0 {
        Seq::empty()
    } else {
        let k = (i - 1) as nat;
        substitutions_upto(v, cands, k) + field_block(v, k as int, cands[k as int])
    }
}

/// All single-field substitutions of `v`, field 0's first.
pub open spec fn substitutions<F>(v: (nat, Seq<F>), cands: Seq<Seq<F>>) -> Seq<(nat, Seq<F>)> {
    substitutions_upto(v, cands, v.1.len())
}

/// The candidates of a value of `shape`, given each field's own candidates.
pub open spec fn shrink_candidates<F>(shape: TypeShape, v: (nat, Seq<F>), cands: Seq<Seq<F>>) -> Seq<
    (nat, Seq<F>),
> {
    if shape.is_unit_variant(v.0 as int) {
        Seq::empty()
    } else {
        unit_jumps::<F>(shape) + substitutions(v, cands)
    }
}

/// What shrinking `v` gives: nothing for a shape without variants, an error
/// for a value or candidate lists that do not match the shape, and otherwise
/// the candidates.
pub open spec fn shrink_outcome<F>(shape: TypeShape, v: (nat, Seq<F>), cands: Seq<Seq<F>>) -> Result<
    Seq<(nat, Seq<F>)>,
    ShrinkError,
> {
    if shape.variant_count() == 0 {
        Ok(Seq::empty())
    } else if !fits(shape, v) {
        Err(ShrinkError::VariantMismatch)
    } else if cands.len() != v.1.len() {
        Err(ShrinkError::CandidateMismatch)
    } else {
        Ok(shrink_candidates(shape, v, cands))
    }
}

/// Each field's candidate list as a sequence.
pub open spec fn deep<F>(c: Seq<Vec<F>>) -> Seq<Seq<F>> {
    c.map_values(|l: Vec<F>| l@)
}

pub open spec fn views<F>(s: Seq<Instance<F>>) -> Seq<(nat, Seq<F>)> {
    s.map_values(|x: Instance<F>| x@)
}

/// How many substitutions the fields before field `i` give.
pub open spec fn offset<F>(cands: Seq<Seq<F>>, i: nat) -> nat
    decreases i,
{
    if i == 0 {
        0
    } else {
        offset(cands, (i - 1) as nat) + cands[i - 1].len()
    }
}

pub proof fn lemma_offset_monotone<F>(cands: Seq<Seq<F>>, i: nat, k: nat)
    requires
        i <= k,
    ensures
        offset(cands, i) <= offset(cands, k),
    decreases k - i,
{
    if i < k {
        lemma_offset_monotone(cands, i, (k - 1) as nat);
    }
}

pub proof fn lemma_substitutions_len<F>(v: (nat, Seq<F>), cands: Seq<Seq<F>>, i: nat)
    ensures
        substitutions_upto(v, cands, i).len() == offset(cands, i),
    decreases i,
{
    if i > 0 {
        lemma_substitutions_len(v, cands, (i - 1) as nat);
    }
}

/// Candidate `j` of field `k` stands at position `offset(cands, k) + j`.
pub proof fn lemma_substitution_at<F>(v: (nat, Seq<F>), cands: Seq<Seq<F>>, i: nat, k: nat, j: int)
    requires
        k < i,
        0 <= j < cands[k as int].len(),
    ensures
        substitutions_upto(v, cands, i)[offset(cands, k) + j] == (v.0, v.1.update(k as int, cands[k as int][j])),
    decreases i,
{
    let p = (i - 1) as nat;
    lemma_substitutions_len(v, cands, p);
    if k < p {
        lemma_substitution_at(v, cands, p, k, j);
        lemma_offset_monotone(cands, k + 1, p);
    }
}

/// The jumps among the first `i` variants begin the jumps among the first `k`.
pub proof fn lemma_jumps_prefix<F>(shape: TypeShape, i: nat, k: nat)
    requires
        i <= k,
    ensures
        jumps_upto::<F>(shape, i).len() <= jumps_upto::<F>(shape, k).len(),
        jumps_upto::<F>(shape, k).take(jumps_upto::<F>(shape, i).len() as int) == jumps_upto::<F>(shape, i),
    decreases k - i,
{
    if i < k {
        let p = (k - 1) as nat;
        lemma_jumps_prefix::<F>(shape, i, p);
        let a = jumps_upto::<F>(shape, i);
        let b = jumps_upto::<F>(shape, p);
        assert(jumps_upto::<F>(shape, k).take(a.len() as int) =~= b.take(a.len() as int));
    } else {
        assert(jumps_upto::<F>(shape, k).take(jumps_upto::<F>(shape, i).len() as int) =~= jumps_upto::<F>(shape, i));
    }
}

/// A copy of `fields` with entry `i` set to `c`.
fn with_field<F: Copy>(fields: &Vec<F>, i: usize, c: F) -> (r: Vec<F>)
    requires
        i < fields@.len(),
    ensures
        r@ == fields@.update(i as int, c),
{
    let mut r: Vec<F> = Vec::new();
    let mut j: usize = 0;
    while j < fields.len()
        invariant
            j <= fields@.len(),
            i < fields@.len(),
            r@ == fields@.update(i as int, c).take(j as int),
        decreases fields@.len() - j,
    {
        if j == i {
            r.push(c);
        } else {
            r.push(fields[j]);
        }
        assert(r@ =~= fields@.update(i as int, c).take(j + 1));
        j = j + 1;
    }
    assert(r@ =~= fields@.update(i as int, c));
    r
}

/// Appends every unit variant of `shape` to `out`, in declaration order.
fn push_unit_jumps<F>(shape: &TypeShape, out: &mut Vec<Instance<F>>)
    ensures
        views(final(out)@) == views(old(out)@) + unit_jumps::<F>(*shape),
{
    let n = shape.count();
    let mut i: usize = 0;
    while i < n
        invariant
            n == shape.variant_count(),
            i <= n,
            views(out@) == views(old(out)@) + jumps_upto::<F>(*shape, i as nat),
        decreases n - i,
    {
        let ghost prev = out@;
        if shape.is_unit_at(i) {
            let jump = Instance { variant: i, fields: Vec::new() };
            out.push(jump);
            assert(jump@ =~= (i as nat, Seq::<F>::empty()));
            assert(views(out@) =~= views(prev).push(jump@));
        }
        assert(views(out@) =~= views(old(out)@) + jumps_upto::<F>(*shape, (i + 1) as nat));
        i = i + 1;
    }
}

/// Appends every single-field substitution of `value` to `out`, field after
/// field, and for each field its candidates in order.
fn push_substitutions<F: Copy>(value: &Instance<F>, cands: &Vec<Vec<F>>, out: &mut Vec<Instance<F>>)
    requires
        cands@.len() == value.fields@.len(),
    ensures
        views(final(out)@) == views(old(out)@) + substitutions(value@, deep(cands@)),
{
    let n = value.fields.len();
    let ghost dc = deep(cands@);
    let mut i: usize = 0;
    while i < n
        invariant
            n == value.fields@.len(),
            cands@.len() == n,
            dc == deep(cands@),
            i <= n,
            views(out@) == views(old(out)@) + substitutions_upto(value@, dc, i as nat),
        decreases n - i,
    {
        let list = &cands[i];
        let ghost before = views(out@);
        let mut j: usize = 0;
        while j < list.len()
            invariant
                i < n,
                n == value.fields@.len(),
                i < cands@.len(),
                *list == cands@[i as int],
                dc == deep(cands@),
                j <= list@.len(),
                views(out@) == before + field_block(value@, i as int, list@).take(j as int),
            decreases list@.len() - j,
        {
            let ghost prev = out@;
            let cand = Instance { variant: value.variant, fields: with_field(&value.fields, i, list[j]) };
            out.push(cand);
            assert(cand@ == field_block(value@, i as int, list@)[j as int]);
            assert(views(out@) =~= views(prev).push(cand@));
            assert(views(out@) =~= before + field_block(value@, i as int, list@).take(j + 1));
            j = j + 1;
        }
        assert(field_block(value@, i as int, list@).take(j as int) =~= field_block(value@, i as int, list@));
        assert(dc[i as int] == list@);
        assert(views(out@) =~= views(old(out)@) + substitutions_upto(value@, dc, (i + 1) as nat));
        i = i + 1;
    }
}

/// The candidates that `value` shrinks to, given for each field, in order,
/// the candidates that the field itself shrinks to.
pub fn shrink<F: Copy>(shape: &TypeShape, value: &Instance<F>, candidates: &Vec<Vec<F>>) -> (r: Result<
    Vec<Instance<F>>,
    ShrinkError,
>)
    ensures
        match shrink_outcome(*shape, value@, deep(candidates@)) {
            Ok(s) => r is Ok && views(r->Ok_0@) == s,
            Err(e) => r == Err::<Vec<Instance<F>>, ShrinkError>(e),
        },
{
    let n = shape.count();
    if n == 0 {
        return Ok(Vec::new());
    }
    if value.variant >= n || value.fields.len() != shape.shape_of(value.variant).field_count() {
        return Err(ShrinkError::VariantMismatch);
    }
    if candidates.len() != value.fields.len() {
        return Err(ShrinkError::CandidateMismatch);
    }
    let mut out: Vec<Instance<F>> = Vec::new();
    if shape.is_unit_at(value.variant) {
        assert(views(out@) =~= Seq::empty());
        return Ok(out);
    }
    push_unit_jumps(shape, &mut out);
    push_substitutions(value, candidates, &mut out);
    assert(views(out@) =~= shrink_candidates(*shape, value@, deep(candidates@)));
    Ok(out)
}

/// Candidate `n` of `value`, computed on its own: `None` past the last one.
/// Each call builds at most one value, so a caller pays only for the
/// candidates it asks for.
pub fn shrink_nth<F: Copy>(
    shape: &TypeShape,
    value: &Instance<F>,
    candidates: &Vec<Vec<F>>,
    n: usize,
) -> (r: Result<Option<Instance<F>>, ShrinkError>)
    ensures
        match shrink_outcome(*shape, value@, deep(candidates@)) {
            Ok(s) => {
                &&& r is Ok
                &&& n < s.len() ==> r->Ok_0 is Some && r->Ok_0->Some_0@ == s[n as int]
                &&& n >= s.len() ==> r->Ok_0 is None
            },
            Err(e) => r == Err::<Option<Instance<F>>, ShrinkError>(e),
        },
{
    let count = shape.count();
    if count == 0 {
        return Ok(None);
    }
    if value.variant >= count || value.fields.len() != shape.shape_of(value.variant).field_count() {
        return Err(ShrinkError::VariantMismatch);
    }
    if candidates.len() != value.fields.len() {
        return Err(ShrinkError::CandidateMismatch);
    }
    if shape.is_unit_at(value.variant) {
        return Ok(None);
    }
    let ghost all = shrink_candidates(*shape, value@, deep(candidates@));
    let ghost jumps = unit_jumps::<F>(*shape);
    assert(all == jumps + substitutions(value@, deep(candidates@)));
    assert(shrink_outcome(*shape, value@, deep(candidates@)) == Ok::<Seq<(nat, Seq<F>)>, ShrinkError>(all));
    let mut seen: usize = 0;
    let mut i: usize = 0;
    while i < count
        invariant
            count == shape.variant_count(),
            i <= count,
            seen == jumps_upto::<F>(*shape, i as nat).len(),
            seen <= n,
            jumps == unit_jumps::<F>(*shape),
            all == jumps + substitutions(value@, deep(candidates@)),
            shrink_outcome(*shape, value@, deep(candidates@)) == Ok::<Seq<(nat, Seq<F>)>, ShrinkError>(all),
        decreases count - i,
    {
        if shape.is_unit_at(i) {
            if seen == n {
                let jump = Instance { variant: i, fields: Vec::new() };
                proof {
                    lemma_jumps_prefix::<F>(*shape, (i + 1) as nat, count as nat);
                    let here = jumps_upto::<F>(*shape, (i + 1) as nat);
                    assert(here == jumps_upto::<F>(*shape, i as nat).push((i as nat, Seq::<F>::empty())));
                    assert(here[n as int] == (i as nat, Seq::<F>::empty()));
                    assert(jumps.take(here.len() as int)[n as int] == jumps[n as int]);
                    assert(all[n as int] == jumps[n as int]);
                    assert(n < all.len());
                    assert(jump@ == all[n as int]);
                    assert(jump@ =~= (i as nat, Seq::<F>::empty()));
                }
                return Ok(Some(jump));
            }
            seen = seen + 1;
        }
        i = i + 1;
    }
    let fields_len = value.fields.len();
    let ghost dc = deep(candidates@);
    let mut rest: usize = n - seen;
    let mut k: usize = 0;
    while k < fields_len
        invariant
            fields_len == value.fields@.len(),
            candidates@.len() == fields_len,
            dc == deep(candidates@),
            k <= fields_len,
            seen == jumps.len(),
            rest + offset(dc, k as nat) == n - seen,
            all == jumps + substitutions(value@, dc),
            shrink_outcome(*shape, value@, dc) == Ok::<Seq<(nat, Seq<F>)>, ShrinkError>(all),
        decreases fields_len - k,
    {
        let list = &candidates[k];
        assert(dc[k as int] == list@);
        if rest < list.len() {
            proof {
                lemma_substitution_at(value@, dc, fields_len as nat, k as nat, rest as int);
                lemma_substitutions_len(value@, dc, fields_len as nat);
                lemma_offset_monotone(dc, (k + 1) as nat, fields_len as nat);
                let subs = substitutions(value@, dc);
                assert(offset(dc, (k + 1) as nat) == offset(dc, k as nat) + list@.len());
                assert(all[n as int] == subs[offset(dc, k as nat) + rest]);
                assert(n < all.len());
            }
            let cand = Instance { variant: value.variant, fields: with_field(&value.fields, k, list[rest]) };
            assert(cand@ == all[n as int]);
            return Ok(Some(cand));
        }
        rest = rest - list.len();
        k = k + 1;
    }
    proof {
        lemma_substitutions_len(value@, dc, fields_len as nat);
    }
    Ok(None)
}

} // verus!
