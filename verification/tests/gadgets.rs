use r1cs_std::{
    AllocGadget, AllocationMode, Boolean, CondSelectGadget, ConstraintSystem, Fp, FpGadget,
    GadgetArray, SynthesisError, ThreeBitCondNegLookupGadget, TwoBitLookupGadget, WitnessProvider,
    FIELD_MODULUS,
};

fn fp(repr: u64) -> Fp {
    Fp { repr }
}

#[test]
fn fp_new_reduces_modulo() {
    assert_eq!(Fp::new(0).repr, 0);
    assert_eq!(Fp::new(5).repr, 5);
    assert_eq!(Fp::new(FIELD_MODULUS).repr, 0);
    assert_eq!(Fp::new(FIELD_MODULUS + 7).repr, 7);
}

#[test]
fn fp_negation() {
    assert_eq!(fp(0).neg(), fp(0));
    assert_eq!(fp(1).neg(), fp(FIELD_MODULUS - 1));
    assert_eq!(fp(12).neg().neg(), fp(12));
    assert_eq!(fp(9).cond_neg(false), fp(9));
    assert_eq!(fp(9).cond_neg(true), fp(FIELD_MODULUS - 9));
}

#[test]
fn scalar_alloc_records_modes() {
    let mut cs = ConstraintSystem::new();
    let c = FpGadget::alloc_constant(&mut cs, &fp(3)).unwrap();
    let w = FpGadget::alloc_witness(&mut cs, WitnessProvider::known(fp(4))).unwrap();
    let p = FpGadget::alloc_input(&mut cs, WitnessProvider::known(fp(5))).unwrap();
    assert_eq!(c.get_value(), fp(3));
    assert_eq!(w.get_value(), fp(4));
    assert_eq!(p.get_value(), fp(5));
    let records = cs.records();
    assert_eq!(records.len(), 3);
    assert_eq!(records[0].mode, AllocationMode::Constant);
    assert_eq!(records[1].mode, AllocationMode::Witness);
    assert_eq!(records[2].mode, AllocationMode::PublicInput);
}

#[test]
fn scalar_checked_variants_default_to_unchecked() {
    let mut cs = ConstraintSystem::new();
    let w = FpGadget::alloc_checked(&mut cs, WitnessProvider::known(fp(8))).unwrap();
    let p = FpGadget::alloc_input_checked(&mut cs, WitnessProvider::known(fp(9))).unwrap();
    assert_eq!(w.get_value(), fp(8));
    assert_eq!(p.get_value(), fp(9));
    let records = cs.records();
    assert_eq!(records[0].mode, AllocationMode::Witness);
    assert_eq!(records[1].mode, AllocationMode::PublicInput);
}

#[test]
fn vec_alloc_constant_preserves_values_in_order() {
    let mut cs = ConstraintSystem::new();
    let values = vec![fp(10), fp(20), fp(30), fp(40), fp(50)];
    let gadgets = <Vec<FpGadget> as AllocGadget<Vec<Fp>>>::alloc_constant(&mut cs, &values)
        .unwrap();
    assert_eq!(gadgets.len(), 5);
    for (g, v) in gadgets.iter().zip(values.iter()) {
        assert_eq!(g.get_value(), *v);
    }
    let records = cs.records();
    assert_eq!(records.len(), 5);
    for (i, r) in records.iter().enumerate() {
        assert_eq!(r.path, vec![i]);
        assert_eq!(r.mode, AllocationMode::Constant);
    }
}

#[test]
fn vec_alloc_witness_preserves_values_in_order() {
    let mut cs = ConstraintSystem::new();
    let values = vec![fp(7), fp(8), fp(9)];
    let gadgets = <Vec<FpGadget> as AllocGadget<Vec<Fp>>>::alloc_witness(
        &mut cs,
        WitnessProvider::known(values.clone()),
    )
    .unwrap();
    assert_eq!(gadgets.len(), 3);
    for (g, v) in gadgets.iter().zip(values.iter()) {
        assert_eq!(g.get_value(), *v);
    }
    for r in cs.records().iter() {
        assert_eq!(r.mode, AllocationMode::Witness);
    }
}

#[test]
fn vec_alloc_input_registers_public_inputs() {
    let mut cs = ConstraintSystem::new();
    let values = vec![fp(1), fp(2)];
    let gadgets = <Vec<FpGadget> as AllocGadget<Vec<Fp>>>::alloc_input(
        &mut cs,
        WitnessProvider::known(values),
    )
    .unwrap();
    assert_eq!(gadgets.len(), 2);
    for r in cs.records().iter() {
        assert_eq!(r.mode, AllocationMode::PublicInput);
    }
}

#[test]
fn failing_provider_aborts_composite_with_one_error() {
    let mut cs = ConstraintSystem::new();
    let result = <Vec<FpGadget> as AllocGadget<Vec<Fp>>>::alloc_witness(
        &mut cs,
        WitnessProvider::unavailable(),
    );
    assert_eq!(result.unwrap_err(), SynthesisError);
    assert_eq!(cs.records().len(), 0);
}

#[test]
fn failing_provider_aborts_array_composite() {
    let mut cs = ConstraintSystem::new();
    let result = <GadgetArray<FpGadget, 32> as AllocGadget<[Fp; 32]>>::alloc_witness(
        &mut cs,
        WitnessProvider::unavailable(),
    );
    assert!(matches!(result, Err(SynthesisError)));
    assert_eq!(cs.records().len(), 0);
}

#[test]
fn sibling_namespaces_never_collide() {
    let mut cs = ConstraintSystem::new();
    let mut values = Vec::new();
    for k in 0..300u64 {
        values.push(Fp::new(k));
    }
    let gadgets = <Vec<FpGadget> as AllocGadget<Vec<Fp>>>::alloc_constant(&mut cs, &values)
        .unwrap();
    assert_eq!(gadgets.len(), 300);
    let records = cs.records();
    assert_eq!(records.len(), 300);
    for i in 0..records.len() {
        for j in (i + 1)..records.len() {
            assert_ne!(records[i].path, records[j].path);
        }
    }
}

#[test]
fn array_alloc_constant_is_positional() {
    let mut cs = ConstraintSystem::new();
    let mut native = [fp(0); 32];
    for (k, slot) in native.iter_mut().enumerate() {
        *slot = fp(100 + k as u64);
    }
    let arr = <GadgetArray<FpGadget, 32> as AllocGadget<[Fp; 32]>>::alloc_constant(
        &mut cs, &native,
    )
    .unwrap();
    for k in 0..32usize {
        assert_eq!(arr.get(k).get_value(), fp(100 + k as u64));
    }
    let records = cs.records();
    assert_eq!(records.len(), 32);
    for (i, r) in records.iter().enumerate() {
        assert_eq!(r.path, vec![i]);
    }
}

#[test]
fn array_alloc_witness_is_positional() {
    let mut cs = ConstraintSystem::new();
    let mut native = [fp(0); 32];
    for (k, slot) in native.iter_mut().enumerate() {
        *slot = fp(7 * k as u64 + 1);
    }
    let arr = <GadgetArray<FpGadget, 32> as AllocGadget<[Fp; 32]>>::alloc_witness(
        &mut cs,
        WitnessProvider::known(native),
    )
    .unwrap();
    for k in 0..32usize {
        assert_eq!(arr.get(k).get_value(), fp(7 * k as u64 + 1));
        assert_eq!(cs.records()[k].mode, AllocationMode::Witness);
    }
}

#[test]
fn conditionally_select_scalar() {
    let mut cs = ConstraintSystem::new();
    let a = FpGadget { value: fp(11) };
    let b = FpGadget { value: fp(22) };
    let t = FpGadget::conditionally_select(&mut cs, &Boolean::constant(true), &a, &b).unwrap();
    let f = FpGadget::conditionally_select(&mut cs, &Boolean::constant(false), &a, &b).unwrap();
    assert_eq!(t.get_value(), fp(11));
    assert_eq!(f.get_value(), fp(22));
}

#[test]
fn conditionally_select_boolean() {
    let mut cs = ConstraintSystem::new();
    let a = Boolean::constant(true);
    let b = Boolean::constant(false);
    let t = Boolean::conditionally_select(&mut cs, &Boolean::constant(true), &a, &b).unwrap();
    let f = Boolean::conditionally_select(&mut cs, &Boolean::constant(false), &a, &b).unwrap();
    assert_eq!(t.value, true);
    assert_eq!(f.value, false);
}

#[test]
fn conditionally_select_array() {
    let mut cs = ConstraintSystem::new();
    let mut t_native = [fp(0); 32];
    let mut f_native = [fp(0); 32];
    for k in 0..32usize {
        t_native[k] = fp(1000 + k as u64);
        f_native[k] = fp(2000 + k as u64);
    }
    let t_arr = <GadgetArray<FpGadget, 32> as AllocGadget<[Fp; 32]>>::alloc_constant(
        &mut cs, &t_native,
    )
    .unwrap();
    let f_arr = <GadgetArray<FpGadget, 32> as AllocGadget<[Fp; 32]>>::alloc_constant(
        &mut cs, &f_native,
    )
    .unwrap();
    let chosen_t = GadgetArray::<FpGadget, 32>::conditionally_select(
        &mut cs,
        &Boolean::constant(true),
        &t_arr,
        &f_arr,
    )
    .unwrap();
    let chosen_f = GadgetArray::<FpGadget, 32>::conditionally_select(
        &mut cs,
        &Boolean::constant(false),
        &t_arr,
        &f_arr,
    )
    .unwrap();
    for k in 0..32usize {
        assert_eq!(chosen_t.get(k).get_value(), fp(1000 + k as u64));
        assert_eq!(chosen_f.get(k).get_value(), fp(2000 + k as u64));
    }
}

#[test]
fn cost_is_deterministic_and_scales_with_length() {
    let c1 = <FpGadget as CondSelectGadget>::cost();
    let c2 = <FpGadget as CondSelectGadget>::cost();
    assert_eq!(c1, c2);
    assert_eq!(
        <GadgetArray<FpGadget, 32> as CondSelectGadget>::cost(),
        32 * <FpGadget as CondSelectGadget>::cost()
    );
    assert_eq!(<FpGadget as TwoBitLookupGadget>::cost(), 2);
    assert_eq!(<FpGadget as ThreeBitCondNegLookupGadget>::cost(), 2);
}

#[test]
fn two_bit_lookup_hits_every_entry() {
    let table = vec![fp(111), fp(222), fp(333), fp(444)];
    let cases = [
        (false, false, fp(111)),
        (true, false, fp(222)),
        (false, true, fp(333)),
        (true, true, fp(444)),
    ];
    for (b0, b1, expected) in cases {
        let mut cs = ConstraintSystem::new();
        let bits = vec![Boolean::constant(b0), Boolean::constant(b1)];
        let g = <FpGadget as TwoBitLookupGadget>::two_bit_lookup(&mut cs, &bits, &table)
            .unwrap();
        assert_eq!(g.get_value(), expected);
    }
}

#[test]
fn three_bit_lookup_sign_unset_matches_two_bit() {
    let table = vec![fp(5), fp(6), fp(7), fp(8)];
    for (b0, b1) in [(false, false), (true, false), (false, true), (true, true)] {
        let bits = vec![Boolean::constant(b0), Boolean::constant(b1)];
        let mut cs = ConstraintSystem::new();
        let two = <FpGadget as TwoBitLookupGadget>::two_bit_lookup(&mut cs, &bits, &table)
            .unwrap();
        let three = <FpGadget as ThreeBitCondNegLookupGadget>::three_bit_cond_neg_lookup(
            &mut cs,
            &bits,
            &Boolean::constant(false),
            &table,
        )
        .unwrap();
        assert_eq!(three.get_value(), two.get_value());
    }
}

#[test]
fn three_bit_lookup_sign_set_negates() {
    let table = vec![fp(5), fp(6), fp(7), fp(8)];
    for (b0, b1) in [(false, false), (true, false), (false, true), (true, true)] {
        let bits = vec![Boolean::constant(b0), Boolean::constant(b1)];
        let mut cs = ConstraintSystem::new();
        let two = <FpGadget as TwoBitLookupGadget>::two_bit_lookup(&mut cs, &bits, &table)
            .unwrap();
        let three = <FpGadget as ThreeBitCondNegLookupGadget>::three_bit_cond_neg_lookup(
            &mut cs,
            &bits,
            &Boolean::constant(true),
            &table,
        )
        .unwrap();
        assert_eq!(three.get_value(), two.get_value().neg());
    }
}

#[test]
fn nested_namespaces_stay_scoped() {
    let mut cs = ConstraintSystem::new();
    let inner = vec![vec![fp(1), fp(2)], vec![fp(3)]];
    let gadgets =
        <Vec<Vec<FpGadget>> as AllocGadget<Vec<Vec<Fp>>>>::alloc_constant(&mut cs, &inner)
            .unwrap();
    assert_eq!(gadgets.len(), 2);
    assert_eq!(gadgets[0].len(), 2);
    assert_eq!(gadgets[1].len(), 1);
    let records = cs.records();
    assert_eq!(records.len(), 3);
    assert_eq!(records[0].path, vec![0, 0]);
    assert_eq!(records[1].path, vec![0, 1]);
    assert_eq!(records[2].path, vec![1, 0]);
}
