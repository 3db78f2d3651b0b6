use arbitrary_shape::generate::{arbitrary, assemble, field_slots, layout_of, FieldSlot, GenError};
use arbitrary_shape::shape::{analyze, Declaration, Instance, ShapeError, TypeShape, Variant, VariantShape};
use arbitrary_shape::shrink::{shrink, shrink_nth, ShrinkError};
use quickcheck::{Arbitrary, Gen};

#[derive(Clone, Copy, Debug, PartialEq)]
enum Leaf {
    Int(i32),
    Flag(bool),
    Byte(u8),
}

fn leaf_shrinks(leaf: &Leaf) -> Vec<Leaf> {
    match *leaf {
        Leaf::Int(x) => x.shrink().map(Leaf::Int).collect(),
        Leaf::Flag(b) => b.shrink().map(Leaf::Flag).collect(),
        Leaf::Byte(b) => b.shrink().map(Leaf::Byte).collect(),
    }
}

fn names(list: &[&str]) -> Vec<String> {
    list.iter().map(|s| s.to_string()).collect()
}

fn pair_shape() -> TypeShape {
    TypeShape::Struct(VariantShape::Named(names(&["a", "b"])))
}

fn color_shape() -> TypeShape {
    TypeShape::Enum(vec![
        Variant { name: "Red".to_string(), shape: VariantShape::Unit },
        Variant { name: "Custom".to_string(), shape: VariantShape::Tuple(3) },
    ])
}

fn list_shape() -> TypeShape {
    TypeShape::Enum(vec![
        Variant { name: "Nil".to_string(), shape: VariantShape::Unit },
        Variant { name: "Cons".to_string(), shape: VariantShape::Tuple(2) },
        Variant { name: "Empty".to_string(), shape: VariantShape::Unit },
        Variant { name: "Node".to_string(), shape: VariantShape::Named(names(&["x"])) },
    ])
}

fn inst(variant: usize, fields: Vec<Leaf>) -> Instance<Leaf> {
    Instance { variant, fields }
}

fn pairs(out: &[Instance<Leaf>]) -> Vec<(usize, Vec<Leaf>)> {
    out.iter().map(|i| (i.variant, i.fields.clone())).collect()
}

#[test]
fn pair_shrinks_field_a_then_field_b() {
    let value = inst(0, vec![Leaf::Int(5), Leaf::Flag(true)]);
    let cands = vec![
        vec![Leaf::Int(0), Leaf::Int(2), Leaf::Int(3), Leaf::Int(4)],
        vec![Leaf::Flag(false)],
    ];
    let out = shrink(&pair_shape(), &value, &cands).unwrap();
    assert_eq!(
        pairs(&out),
        vec![
            (0, vec![Leaf::Int(0), Leaf::Flag(true)]),
            (0, vec![Leaf::Int(2), Leaf::Flag(true)]),
            (0, vec![Leaf::Int(3), Leaf::Flag(true)]),
            (0, vec![Leaf::Int(4), Leaf::Flag(true)]),
            (0, vec![Leaf::Int(5), Leaf::Flag(false)]),
        ]
    );
}

#[test]
fn pair_shrinks_with_leaf_shrinkers() {
    let value = inst(0, vec![Leaf::Int(5), Leaf::Flag(true)]);
    let cands: Vec<Vec<Leaf>> = value.fields.iter().map(leaf_shrinks).collect();
    let out = shrink(&pair_shape(), &value, &cands).unwrap();
    let a = &cands[0];
    let b = &cands[1];
    assert!(!a.is_empty());
    assert_eq!(b, &vec![Leaf::Flag(false)]);
    assert_eq!(out.len(), a.len() + b.len());
    for (j, c) in a.iter().enumerate() {
        assert_eq!(out[j].fields, vec![*c, Leaf::Flag(true)]);
    }
    for (j, c) in b.iter().enumerate() {
        assert_eq!(out[a.len() + j].fields, vec![Leaf::Int(5), *c]);
    }
}

#[test]
fn color_shrinks_to_red_first_then_each_channel() {
    let value = inst(1, vec![Leaf::Byte(10), Leaf::Byte(20), Leaf::Byte(30)]);
    let cands = vec![
        vec![Leaf::Byte(0), Leaf::Byte(5)],
        vec![Leaf::Byte(0)],
        vec![Leaf::Byte(0), Leaf::Byte(15)],
    ];
    let out = shrink(&color_shape(), &value, &cands).unwrap();
    assert_eq!(
        pairs(&out),
        vec![
            (0, vec![]),
            (1, vec![Leaf::Byte(0), Leaf::Byte(20), Leaf::Byte(30)]),
            (1, vec![Leaf::Byte(5), Leaf::Byte(20), Leaf::Byte(30)]),
            (1, vec![Leaf::Byte(10), Leaf::Byte(0), Leaf::Byte(30)]),
            (1, vec![Leaf::Byte(10), Leaf::Byte(20), Leaf::Byte(0)]),
            (1, vec![Leaf::Byte(10), Leaf::Byte(20), Leaf::Byte(15)]),
        ]
    );
}

#[test]
fn color_with_leaf_shrinkers_starts_at_red() {
    let value = inst(1, vec![Leaf::Byte(10), Leaf::Byte(20), Leaf::Byte(30)]);
    let cands: Vec<Vec<Leaf>> = value.fields.iter().map(leaf_shrinks).collect();
    let out = shrink(&color_shape(), &value, &cands).unwrap();
    assert_eq!(out[0].variant, 0);
    assert!(out[0].fields.is_empty());
    let mut k = 1;
    for (channel, list) in cands.iter().enumerate() {
        for c in list {
            let mut expected = value.fields.clone();
            expected[channel] = *c;
            assert_eq!(out[k].variant, 1);
            assert_eq!(out[k].fields, expected);
            k += 1;
        }
    }
    assert_eq!(k, out.len());
}

#[test]
fn every_unit_variant_comes_first_in_declaration_order() {
    let value = inst(1, vec![Leaf::Int(3), Leaf::Flag(true)]);
    let cands = vec![vec![Leaf::Int(1)], vec![Leaf::Flag(false)]];
    let out = shrink(&list_shape(), &value, &cands).unwrap();
    assert_eq!(
        pairs(&out),
        vec![
            (0, vec![]),
            (2, vec![]),
            (1, vec![Leaf::Int(1), Leaf::Flag(true)]),
            (1, vec![Leaf::Int(3), Leaf::Flag(false)]),
        ]
    );
}

#[test]
fn enum_without_unit_variant_only_substitutes() {
    let shape = TypeShape::Enum(vec![
        Variant { name: "S".to_string(), shape: VariantShape::Named(names(&["a"])) },
        Variant { name: "T".to_string(), shape: VariantShape::Tuple(1) },
    ]);
    let value = inst(1, vec![Leaf::Int(8)]);
    let out = shrink(&shape, &value, &vec![vec![Leaf::Int(0), Leaf::Int(4)]]).unwrap();
    assert_eq!(pairs(&out), vec![(1, vec![Leaf::Int(0)]), (1, vec![Leaf::Int(4)])]);
}

#[test]
fn unit_values_have_no_candidates() {
    let unit_struct = TypeShape::Struct(VariantShape::Unit);
    assert!(shrink(&unit_struct, &inst(0, vec![]), &vec![]).unwrap().is_empty());
    assert!(shrink(&color_shape(), &inst(0, vec![]), &vec![]).unwrap().is_empty());
    assert!(shrink(&list_shape(), &inst(2, vec![]), &vec![]).unwrap().is_empty());
}

#[test]
fn empty_tuple_variant_still_jumps_to_units() {
    let shape = TypeShape::Enum(vec![
        Variant { name: "A".to_string(), shape: VariantShape::Tuple(0) },
        Variant { name: "B".to_string(), shape: VariantShape::Unit },
    ]);
    let out = shrink(&shape, &inst(0, vec![]), &vec![]).unwrap();
    assert_eq!(pairs(&out), vec![(1, vec![])]);
}

#[test]
fn zero_variant_enum_is_vacuous() {
    let shape = TypeShape::Enum(vec![]);
    assert!(shrink(&shape, &inst(0, vec![]), &vec![]).unwrap().is_empty());
    assert!(shrink_nth(&shape, &inst(0, vec![]), &vec![], 0).unwrap().is_none());
    let mut g = Gen::new(10);
    assert!(matches!(arbitrary(&shape, &mut g), Err(GenError::NoVariants)));
    assert!(matches!(assemble(&shape, 0, vec![Leaf::Int(1)]), Err(GenError::NoVariants)));
}

#[test]
fn mismatched_values_are_refused() {
    let shape = color_shape();
    let cands = vec![vec![], vec![], vec![]];
    assert_eq!(
        shrink(&shape, &inst(2, vec![]), &vec![]).err(),
        Some(ShrinkError::VariantMismatch)
    );
    assert_eq!(
        shrink(&shape, &inst(1, vec![Leaf::Byte(1)]), &cands).err(),
        Some(ShrinkError::VariantMismatch)
    );
    let value = inst(1, vec![Leaf::Byte(1), Leaf::Byte(2), Leaf::Byte(3)]);
    assert_eq!(
        shrink(&shape, &value, &vec![vec![]]).err(),
        Some(ShrinkError::CandidateMismatch)
    );
    assert_eq!(
        shrink_nth(&shape, &value, &vec![vec![]], 0).err(),
        Some(ShrinkError::CandidateMismatch)
    );
    assert_eq!(
        shrink_nth(&shape, &inst(5, vec![]), &vec![], 0).err(),
        Some(ShrinkError::VariantMismatch)
    );
}

#[test]
fn nth_candidate_matches_the_full_sequence() {
    let value = inst(1, vec![Leaf::Int(-7), Leaf::Flag(true)]);
    let cands: Vec<Vec<Leaf>> = value.fields.iter().map(leaf_shrinks).collect();
    let shape = list_shape();
    let out = shrink(&shape, &value, &cands).unwrap();
    for (n, expected) in out.iter().enumerate() {
        let got = shrink_nth(&shape, &value, &cands, n).unwrap().unwrap();
        assert_eq!(got.variant, expected.variant);
        assert_eq!(got.fields, expected.fields);
    }
    assert!(shrink_nth(&shape, &value, &cands, out.len()).unwrap().is_none());
    assert!(shrink_nth(&shape, &value, &cands, out.len() + 10).unwrap().is_none());
}

#[test]
fn descent_reaches_a_value_without_candidates() {
    let shape = list_shape();
    let mut value = inst(1, vec![Leaf::Int(1000), Leaf::Flag(true)]);
    let mut steps = 0;
    loop {
        let cands: Vec<Vec<Leaf>> = value.fields.iter().map(leaf_shrinks).collect();
        let out = shrink(&shape, &value, &cands).unwrap();
        match out.into_iter().last() {
            None => break,
            Some(next) => value = next,
        }
        steps += 1;
        assert!(steps < 10_000);
    }
    assert_eq!(value.variant, 2);
}

#[test]
fn descent_through_substitutions_only_terminates() {
    let shape = pair_shape();
    let mut value = inst(0, vec![Leaf::Int(-300), Leaf::Flag(true)]);
    let mut steps = 0;
    loop {
        let cands: Vec<Vec<Leaf>> = value.fields.iter().map(leaf_shrinks).collect();
        match shrink_nth(&shape, &value, &cands, 0).unwrap() {
            None => break,
            Some(next) => value = next,
        }
        steps += 1;
        assert!(steps < 10_000);
    }
    assert_eq!(value.fields, vec![Leaf::Int(0), Leaf::Flag(false)]);
}

fn generate_leaf(slot: &FieldSlot, g: &mut Gen) -> Leaf {
    match slot {
        FieldSlot::Position(i) if i % 2 == 0 => Leaf::Int(i32::arbitrary(g)),
        FieldSlot::Position(_) => Leaf::Byte(u8::arbitrary(g)),
        FieldSlot::Named(_) => Leaf::Flag(bool::arbitrary(g)),
    }
}

#[test]
fn generated_values_of_every_shape_shrink() {
    let mut shapes = vec![TypeShape::Struct(VariantShape::Unit)];
    for n in 0..5 {
        shapes.push(TypeShape::Struct(VariantShape::Tuple(n)));
        let field_names: Vec<String> = (0..n).map(|i| format!("f{}", i)).collect();
        shapes.push(TypeShape::Struct(VariantShape::Named(field_names)));
    }
    shapes.push(color_shape());
    shapes.push(list_shape());
    let mut g = Gen::new(20);
    for shape in &shapes {
        for _ in 0..20 {
            let layout = arbitrary(shape, &mut g).unwrap();
            let fields: Vec<Leaf> = layout.slots.iter().map(|s| generate_leaf(s, &mut g)).collect();
            let value = assemble(shape, layout.variant, fields).unwrap();
            let cands: Vec<Vec<Leaf>> = value.fields.iter().map(leaf_shrinks).collect();
            assert!(shrink(shape, &value, &cands).is_ok());
        }
    }
}

#[test]
fn arbitrary_draws_every_variant() {
    let shape = list_shape();
    let mut g = Gen::new(10);
    let mut seen = [false; 4];
    for _ in 0..400 {
        let layout = arbitrary(&shape, &mut g).unwrap();
        assert!(layout.variant < 4);
        seen[layout.variant] = true;
    }
    assert_eq!(seen, [true; 4]);
}

#[test]
fn struct_layout_is_variant_zero() {
    let mut g = Gen::new(10);
    let layout = arbitrary(&pair_shape(), &mut g).unwrap();
    assert_eq!(layout.variant, 0);
    assert_eq!(layout.slots, vec![FieldSlot::Named("a".to_string()), FieldSlot::Named("b".to_string())]);
}

#[test]
fn slots_follow_the_variant_shape() {
    assert_eq!(field_slots(&VariantShape::Unit), vec![]);
    assert_eq!(
        field_slots(&VariantShape::Tuple(3)),
        vec![FieldSlot::Position(0), FieldSlot::Position(1), FieldSlot::Position(2)]
    );
    let layout = layout_of(&list_shape(), 3).unwrap();
    assert_eq!(layout.slots, vec![FieldSlot::Named("x".to_string())]);
    assert!(matches!(layout_of(&list_shape(), 4), Err(GenError::NoSuchVariant)));
}

#[test]
fn assemble_checks_variant_and_arity() {
    let shape = color_shape();
    let v = assemble(&shape, 1, vec![Leaf::Byte(1), Leaf::Byte(2), Leaf::Byte(3)]).unwrap();
    assert_eq!(v.variant, 1);
    assert_eq!(v.fields, vec![Leaf::Byte(1), Leaf::Byte(2), Leaf::Byte(3)]);
    assert!(matches!(assemble(&shape, 2, Vec::<Leaf>::new()), Err(GenError::NoSuchVariant)));
    assert!(matches!(assemble(&shape, 0, vec![Leaf::Byte(1)]), Err(GenError::ArityMismatch)));
}

#[test]
fn analyze_accepts_structs_and_enums_only() {
    let s = analyze(Declaration::Struct(VariantShape::Tuple(2))).ok().unwrap();
    assert!(matches!(s, TypeShape::Struct(VariantShape::Tuple(2))));
    let e = analyze(Declaration::Enum(vec![Variant { name: "A".to_string(), shape: VariantShape::Unit }]));
    assert!(matches!(e, Ok(TypeShape::Enum(ref vs)) if vs.len() == 1));
    assert!(matches!(analyze(Declaration::Union(names(&["x", "y"]))), Err(ShapeError::Unsupported)));
}
