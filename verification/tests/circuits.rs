use bls12_381::Scalar;
use zktx::bits::{bit_words, decompose, power_of_two};
use zktx::compare::{compare_constraints, fits_width, offset_difference, push_weighted_bits};
use zktx::field::{negate, to_field};
use zktx::r1cs::{single, Assignment, Constraint, Term, Variable};
use zktx::range::{range_info, RangeCircuit};

const MODULUS: [u64; 4] = [
    0xffff_ffff_0000_0001,
    0x53bd_a402_fffe_5bfe,
    0x3339_d808_09a1_d805,
    0x73ed_a753_299d_7d48,
];

fn value_of(variable: Variable, assignment: &Assignment) -> Scalar {
    match variable {
        Variable::One => Scalar::one(),
        Variable::Input(i) => Scalar::from_raw(assignment.inputs[i]),
        Variable::Aux(i) => Scalar::from_raw(assignment.aux[i]),
    }
}

fn evaluate(terms: &[Term], assignment: &Assignment) -> Scalar {
    let mut sum = Scalar::zero();
    for term in terms {
        sum += Scalar::from_raw(term.coefficient) * value_of(term.variable, assignment);
    }
    sum
}

fn holds(constraint: &Constraint, assignment: &Assignment) -> bool {
    evaluate(&constraint.a, assignment) * evaluate(&constraint.b, assignment)
        == evaluate(&constraint.c, assignment)
}

fn failing(constraints: &[Constraint], assignment: &Assignment) -> Vec<usize> {
    (0..constraints.len()).filter(|&i| !holds(&constraints[i], assignment)).collect()
}

fn satisfied(up: ([u64; 2], bool), va: ([u64; 2], bool), low: ([u64; 2], bool)) -> bool {
    let s = RangeCircuit::new(up, va, low).synthesize();
    failing(&s.constraints, s.assignment.as_ref().unwrap()).is_empty()
}

#[test]
fn field_of_a_non_negative_amount_is_its_magnitude() {
    assert_eq!(to_field(([5, 0], true)), [5, 0, 0, 0]);
    assert_eq!(to_field(([7, 9], true)), [7, 9, 0, 0]);
    assert_eq!(to_field(([u64::MAX, u64::MAX], true)), [u64::MAX, u64::MAX, 0, 0]);
}

#[test]
fn field_of_a_negative_amount_is_the_modulus_less_its_magnitude() {
    assert_eq!(to_field(([1, 0], false)), [MODULUS[0] - 1, MODULUS[1], MODULUS[2], MODULUS[3]]);
    assert_eq!(to_field(([5, 0], false)), [MODULUS[0] - 5, MODULUS[1], MODULUS[2], MODULUS[3]]);
    assert_eq!(
        to_field(([0, 1], false)),
        [MODULUS[0], MODULUS[1] - 1, MODULUS[2], MODULUS[3]]
    );
}

#[test]
fn field_of_negative_zero_is_zero() {
    assert_eq!(to_field(([0, 0], false)), [0, 0, 0, 0]);
    assert_eq!(to_field(([0, 0], true)), [0, 0, 0, 0]);
}

#[test]
fn decompose_gives_bits_least_significant_first() {
    assert_eq!(decompose([5, 0, 0, 0], 4), vec![true, false, true, false]);
    assert_eq!(decompose([0, 0, 0, 0], 3), vec![false, false, false]);
    assert_eq!(decompose([0, 0, 0, 0], 0), Vec::<bool>::new());
}

#[test]
fn decompose_cuts_off_above_the_width() {
    assert_eq!(decompose([0b1101, 0, 0, 0], 2), vec![true, false]);
    assert_eq!(decompose([u64::MAX, 0, 0, 0], 3), vec![true, true, true]);
}

#[test]
fn decompose_crosses_word_boundaries() {
    let bits = decompose([0, 1, 0, 1 << 63], 256);
    assert_eq!(bits.len(), 256);
    for (i, b) in bits.iter().enumerate() {
        assert_eq!(*b, i == 64 || i == 255, "bit {}", i);
    }
}

#[test]
fn powers_of_two_as_words() {
    assert_eq!(power_of_two(0), [1, 0, 0, 0]);
    assert_eq!(power_of_two(63), [1 << 63, 0, 0, 0]);
    assert_eq!(power_of_two(64), [0, 1, 0, 0]);
    assert_eq!(power_of_two(129), [0, 0, 2, 0]);
    assert_eq!(power_of_two(255), [0, 0, 0, 1 << 63]);
}

#[test]
fn bit_as_words() {
    assert_eq!(bit_words(true), [1, 0, 0, 0]);
    assert_eq!(bit_words(false), [0, 0, 0, 0]);
}

#[test]
fn offset_difference_of_equal_amounts_is_the_offset() {
    assert_eq!(offset_difference(([9, 0], true), ([9, 0], true)), [0, 0, 1, 0]);
    assert_eq!(offset_difference(([9, 0], false), ([9, 0], false)), [0, 0, 1, 0]);
    assert_eq!(offset_difference(([0, 0], false), ([0, 0], true)), [0, 0, 1, 0]);
}

#[test]
fn offset_difference_exact_values() {
    // 20 - 10 + 2^128
    assert_eq!(offset_difference(([20, 0], true), ([10, 0], true)), [10, 0, 1, 0]);
    // 10 - 20 + 2^128 = 2^128 - 10
    assert_eq!(
        offset_difference(([10, 0], true), ([20, 0], true)),
        [u64::MAX - 9, u64::MAX, 0, 0]
    );
    // 20 - (-5) + 2^128
    assert_eq!(offset_difference(([20, 0], true), ([5, 0], false)), [25, 0, 1, 0]);
    // -5 - 20 + 2^128
    assert_eq!(
        offset_difference(([5, 0], false), ([20, 0], true)),
        [u64::MAX - 24, u64::MAX, 0, 0]
    );
    // -15 - (-20) + 2^128
    assert_eq!(offset_difference(([15, 0], false), ([20, 0], false)), [5, 0, 1, 0]);
}

#[test]
fn offset_difference_at_the_ends_of_the_width() {
    let most = [u64::MAX, u64::MAX >> 1];
    // (2^127 - 1) + (2^127 - 1) + 2^128 = 2^129 - 2
    assert_eq!(offset_difference((most, true), (most, false)), [u64::MAX - 1, u64::MAX, 1, 0]);
    // -(2^127 - 1) - (2^127 - 1) + 2^128 = 2
    assert_eq!(offset_difference((most, false), (most, true)), [2, 0, 0, 0]);
}

#[test]
fn offset_difference_is_cut_to_its_width_beyond_the_width_of_amounts() {
    let max = [u64::MAX, u64::MAX];
    // (2^128 - 1) + (2^128 - 1) + 2^128 = 3 * 2^128 - 2, cut to 2^128 - 2
    assert_eq!(offset_difference((max, true), (max, false)), [u64::MAX - 1, u64::MAX, 0, 0]);
    // -(2^128 - 1) - (2^128 - 1) + 2^128 = -2^128 + 2, cut to 2^128 + 2
    assert_eq!(offset_difference((max, false), (max, true)), [2, 0, 1, 0]);
}

#[test]
fn width_of_amounts_is_127_bits() {
    assert!(fits_width(([0, 0], true)));
    assert!(fits_width(([u64::MAX, u64::MAX >> 1], true)));
    assert!(fits_width(([u64::MAX, u64::MAX >> 1], false)));
    assert!(!fits_width(([0, 1 << 63], true)));
    assert!(!fits_width(([0, 1 << 63], false)));
    assert!(!fits_width(([u64::MAX, u64::MAX], true)));
}

#[test]
fn negation_in_the_field() {
    assert_eq!(negate([0, 0, 0, 0]), [0, 0, 0, 0]);
    assert_eq!(negate([1, 0, 0, 0]), [MODULUS[0] - 1, MODULUS[1], MODULUS[2], MODULUS[3]]);
    assert_eq!(negate([0, 0, 1, 0]), [MODULUS[0], MODULUS[1], MODULUS[2] - 1, MODULUS[3]]);
    assert_eq!(negate(negate([7, 8, 9, 10])), [7, 8, 9, 10]);
    // words at or above the modulus stand for their residue
    assert_eq!(negate(MODULUS), [0, 0, 0, 0]);
}

#[test]
fn weighted_bits_are_appended_with_their_powers() {
    let mut lc = single(Variable::Input(1), [1, 0, 0, 0]);
    push_weighted_bits(&mut lc, 10, 66);
    assert_eq!(lc.len(), 67);
    assert_eq!(lc[0].variable, Variable::Input(1));
    for i in 0..66 {
        assert_eq!(lc[1 + i].variable, Variable::Aux(10 + i));
    }
    assert_eq!(lc[1].coefficient, [1, 0, 0, 0]);
    assert_eq!(lc[64].coefficient, [1 << 63, 0, 0, 0]);
    assert_eq!(lc[65].coefficient, [0, 1, 0, 0]);
    assert_eq!(lc[66].coefficient, [0, 2, 0, 0]);
}

#[test]
fn single_term_combination() {
    let lc = single(Variable::Aux(3), [9, 0, 0, 0]);
    assert_eq!(lc.len(), 1);
    assert_eq!(lc[0].variable, Variable::Aux(3));
    assert_eq!(lc[0].coefficient, [9, 0, 0, 0]);
}

#[test]
fn comparison_appends_its_constraints() {
    let mut out = Vec::new();
    compare_constraints(3, 515, 771, 1027, 1283, &mut out);
    // 129 boolean constraints, the sum, the way back, the top bit
    assert_eq!(out.len(), 132);
    for i in 0..129 {
        for lc in [&out[i].a, &out[i].b, &out[i].c] {
            assert_eq!(lc.len(), 1);
            assert_eq!(lc[0].variable, Variable::Aux(1283 + i));
            assert_eq!(lc[0].coefficient, [1, 0, 0, 0]);
        }
    }
    // (left + M) * 1 = right + difference, over the bits of each
    let sum = &out[129];
    assert_eq!(sum.a.len(), 512);
    assert_eq!(sum.a[0].variable, Variable::Aux(3));
    assert_eq!(sum.a[255].variable, Variable::Aux(258));
    assert_eq!(sum.a[255].coefficient, [0, 0, 0, 1 << 63]);
    assert_eq!(sum.a[256].variable, Variable::Aux(771));
    assert_eq!(sum.a[511].variable, Variable::Aux(1026));
    assert_eq!(sum.b.len(), 1);
    assert_eq!(sum.b[0].variable, Variable::One);
    assert_eq!(sum.c.len(), 256 + 129);
    assert_eq!(sum.c[0].variable, Variable::Aux(515));
    assert_eq!(sum.c[256].variable, Variable::Aux(1283));
    assert_eq!(sum.c[256 + 128].variable, Variable::Aux(1283 + 128));
    assert_eq!(sum.c[256 + 128].coefficient, [0, 0, 1, 0]);
    // (difference + (-M) + right) * 1 = left
    let back = &out[130];
    assert_eq!(back.a.len(), 129 + 512);
    assert_eq!(back.a[0].variable, Variable::Aux(1283));
    assert_eq!(back.a[129].variable, Variable::Aux(1027));
    assert_eq!(back.a[129 + 256].variable, Variable::Aux(515));
    assert_eq!(back.b[0].variable, Variable::One);
    assert_eq!(back.c.len(), 256);
    assert_eq!(back.c[0].variable, Variable::Aux(3));
    // top bit * 1 = 1
    let top = &out[131];
    assert_eq!(top.a[0].variable, Variable::Aux(1283 + 128));
    assert_eq!(top.b[0].variable, Variable::One);
    assert_eq!(top.c[0].variable, Variable::One);
    let before = out.len();
    compare_constraints(515, 259, 771, 1027, 1412, &mut out);
    assert_eq!(out.len(), before + 132);
}

#[test]
fn circuit_has_the_same_shape_with_and_without_amounts() {
    let blank = RangeCircuit::blank().synthesize();
    let known = RangeCircuit::new(([20, 0], true), ([10, 0], true), ([5, 0], true)).synthesize();
    assert!(blank.assignment.is_none());
    assert!(known.assignment.is_some());
    assert_eq!(blank.num_inputs, 2);
    assert_eq!(blank.num_aux, 1541);
    assert_eq!(known.num_inputs, 2);
    assert_eq!(known.num_aux, 1541);
    // five decompositions, two constants, two comparisons
    assert_eq!(blank.constraints.len(), 5 * 257 + 2 + 2 * 132);
    assert_eq!(known.constraints.len(), 5 * 257 + 2 + 2 * 132);
    for (x, y) in blank.constraints.iter().zip(known.constraints.iter()) {
        for (s, t) in [(&x.a, &y.a), (&x.b, &y.b), (&x.c, &y.c)] {
            assert_eq!(s.len(), t.len());
            for (p, q) in s.iter().zip(t.iter()) {
                assert_eq!(p.variable, q.variable);
                assert_eq!(p.coefficient, q.coefficient);
            }
        }
    }
}

#[test]
fn circuit_decomposes_each_operand_into_256_bits() {
    let s = RangeCircuit::blank().synthesize();
    let operands = [
        (Variable::Input(0), 3),
        (Variable::Input(1), 259),
        (Variable::Aux(0), 515),
    ];
    for (k, (variable, at)) in operands.iter().enumerate() {
        let first = 257 * k;
        for i in 0..256 {
            let c = &s.constraints[first + i];
            for lc in [&c.a, &c.b, &c.c] {
                assert_eq!(lc.len(), 1);
                assert_eq!(lc[0].variable, Variable::Aux(at + i));
                assert_eq!(lc[0].coefficient, [1, 0, 0, 0]);
            }
        }
        let sum = &s.constraints[first + 256];
        assert_eq!(sum.a.len(), 1);
        assert_eq!(sum.a[0].variable, *variable);
        assert_eq!(sum.b[0].variable, Variable::One);
        assert_eq!(sum.c.len(), 256);
        for i in 0..256 {
            assert_eq!(sum.c[i].variable, Variable::Aux(at + i));
            assert_eq!(sum.c[i].coefficient, power_of_two(i));
        }
    }
}

#[test]
fn circuit_fixes_the_offset_and_its_inverse() {
    let s = RangeCircuit::blank().synthesize();
    // +M = 2^128 after its decomposition
    let fixed = &s.constraints[3 * 257 + 257];
    assert_eq!(fixed.a[0].variable, Variable::Aux(1));
    assert_eq!(fixed.b[0].variable, Variable::One);
    assert_eq!(fixed.c[0].variable, Variable::One);
    assert_eq!(fixed.c[0].coefficient, [0, 0, 1, 0]);
    // -M after its decomposition
    let fixed = &s.constraints[3 * 257 + 258 + 257];
    assert_eq!(fixed.a[0].variable, Variable::Aux(2));
    assert_eq!(fixed.c[0].variable, Variable::One);
    assert_eq!(fixed.c[0].coefficient, negate([0, 0, 1, 0]));
}

#[test]
fn partly_known_circuit_has_no_assignment() {
    let c = RangeCircuit { up: Some(([20, 0], true)), va: None, low: Some(([5, 0], true)) };
    assert!(c.synthesize().assignment.is_none());
}

#[test]
fn assignment_holds_the_amounts_and_the_bits() {
    let a = RangeCircuit::assign(([20, 0], true), ([10, 0], true), ([5, 0], false));
    let low = to_field(([5, 0], false));
    assert_eq!(a.inputs, vec![[20, 0, 0, 0], low]);
    assert_eq!(a.aux.len(), 1541);
    assert_eq!(a.aux[0], [10, 0, 0, 0]);
    assert_eq!(a.aux[1], [0, 0, 1, 0]);
    assert_eq!(a.aux[2], negate([0, 0, 1, 0]));
    let bits = |at: usize, n: usize| -> Vec<bool> {
        (0..n).map(|i| {
            assert!(a.aux[at + i] == [0, 0, 0, 0] || a.aux[at + i] == [1, 0, 0, 0]);
            a.aux[at + i] == [1, 0, 0, 0]
        }).collect()
    };
    assert_eq!(bits(3, 256), decompose([20, 0, 0, 0], 256));
    assert_eq!(bits(259, 256), decompose(low, 256));
    assert_eq!(bits(515, 256), decompose([10, 0, 0, 0], 256));
    assert_eq!(bits(771, 256), decompose([0, 0, 1, 0], 256));
    assert_eq!(bits(1027, 256), decompose(negate([0, 0, 1, 0]), 256));
    // 20 - 10 + 2^128: bits 1 and 3, and the top bit
    let upper: Vec<usize> = (0..129).filter(|&i| a.aux[1283 + i] == [1, 0, 0, 0]).collect();
    assert_eq!(upper, vec![1, 3, 128]);
    // 10 - (-5) + 2^128: bits 0 to 3, and the top bit
    let lower: Vec<usize> = (0..129).filter(|&i| a.aux[1412 + i] == [1, 0, 0, 0]).collect();
    assert_eq!(lower, vec![0, 1, 2, 3, 128]);
}

#[test]
fn table_of_the_circuit() {
    let up: [([u64; 2], bool); 12] = [
        ([20, 0], true), ([20, 0], true), ([20, 0], true), ([10, 0], false),
        ([20, 0], true), ([20, 0], true), ([20, 0], true), ([20, 0], true),
        ([20, 0], true), ([10, 0], false), ([10, 0], false), ([10, 0], false),
    ];
    let va: [([u64; 2], bool); 12] = [
        ([10, 0], true), ([10, 0], true), ([10, 0], false), ([15, 0], false),
        ([30, 0], true), ([5, 0], true), ([5, 0], false), ([15, 0], false),
        ([25, 0], true), ([25, 0], false), ([5, 0], false), ([5, 0], true),
    ];
    let low: [([u64; 2], bool); 12] = [
        ([5, 0], true), ([5, 0], false), ([20, 0], false), ([20, 0], false),
        ([10, 0], true), ([10, 0], true), ([10, 0], true), ([5, 0], false),
        ([5, 0], false), ([20, 0], false), ([20, 0], false), ([20, 0], false),
    ];
    let expected: [bool; 12] = [
        true, true, true, true, false, false, false, false, false, false, false, false,
    ];
    for i in 0..12 {
        assert_eq!(satisfied(up[i], va[i], low[i]), expected[i], "row {}", i);
        assert_eq!(range_info(up[i], va[i], low[i]).is_ok(), expected[i], "row {}", i);
    }
}

#[test]
fn circuit_is_satisfied_at_the_bounds_and_not_one_beyond() {
    let (up, low) = (([20, 0], true), ([5, 0], false));
    assert!(satisfied(up, ([20, 0], true), low));
    assert!(satisfied(up, ([5, 0], false), low));
    assert!(!satisfied(up, ([21, 0], true), low));
    assert!(!satisfied(up, ([6, 0], false), low));
}

#[test]
fn circuit_is_right_for_the_largest_magnitudes_of_the_width() {
    let most = [u64::MAX, u64::MAX >> 1];
    assert!(satisfied((most, true), ([0, 0], true), (most, false)));
    assert!(satisfied((most, true), (most, true), (most, false)));
    assert!(satisfied((most, true), (most, false), (most, false)));
    assert!(!satisfied((most, false), ([0, 0], true), (most, false)));
    assert!(!satisfied((most, true), ([0, 0], true), (most, true)));
    assert!(!satisfied((most, false), (most, true), (most, false)));
    assert!(range_info((most, true), ([0, 0], true), (most, false)).is_ok());
}

#[test]
fn amounts_beyond_the_width_are_refused() {
    let wide = [0, 1 << 63];
    let small = [5, 0];
    assert!(range_info((wide, true), (small, true), (small, true)).is_err());
    assert!(range_info((small, true), (wide, false), (wide, false)).is_err());
    assert!(range_info((small, true), (small, true), (wide, false)).is_err());
    assert!(range_info(([u64::MAX; 2], true), ([0, 0], true), ([u64::MAX; 2], false)).is_err());
}

#[test]
fn only_the_top_bit_fails_out_of_range() {
    // 5 * 257 + 2 constraints come before the comparisons, 132 make up each
    let upper_top = 5 * 257 + 2 + 131;
    let lower_top = 5 * 257 + 2 + 132 + 131;
    // va above up: the top bit of the first comparison fails alone
    let s = RangeCircuit::new(([20, 0], true), ([30, 0], true), ([10, 0], true)).synthesize();
    assert_eq!(failing(&s.constraints, s.assignment.as_ref().unwrap()), vec![upper_top]);
    // va below low: the top bit of the second comparison fails alone
    let s = RangeCircuit::new(([20, 0], true), ([5, 0], true), ([10, 0], true)).synthesize();
    assert_eq!(failing(&s.constraints, s.assignment.as_ref().unwrap()), vec![lower_top]);
}

#[test]
fn range_info_gives_a_satisfying_assignment() {
    let s = range_info(([20, 0], true), ([10, 0], true), ([5, 0], true)).unwrap();
    assert_eq!(s.num_inputs, 2);
    assert_eq!(s.num_aux, 1541);
    let a = s.assignment.unwrap();
    assert_eq!(a.inputs, vec![[20, 0, 0, 0], [5, 0, 0, 0]]);
    assert!(failing(&s.constraints, &a).is_empty());
}

#[test]
fn decomposition_appends_a_boolean_constraint_for_each_bit_and_the_sum() {
    let one = [1, 0, 0, 0];
    let mut out = Vec::new();
    zktx::compare::unpack_constraints(
        single(Variable::Input(0), one),
        Vec::new(),
        7,
        3,
        &mut out,
    );
    assert_eq!(out.len(), 4);
    for i in 0..3 {
        for lc in [&out[i].a, &out[i].b, &out[i].c] {
            assert_eq!(lc.len(), 1);
            assert_eq!(lc[0].variable, Variable::Aux(7 + i));
            assert_eq!(lc[0].coefficient, one);
        }
    }
    assert_eq!(out[3].a.len(), 1);
    assert_eq!(out[3].a[0].variable, Variable::Input(0));
    assert_eq!(out[3].b[0].variable, Variable::One);
    assert_eq!(out[3].c.len(), 3);
    for i in 0..3 {
        assert_eq!(out[3].c[i].variable, Variable::Aux(7 + i));
        assert_eq!(out[3].c[i].coefficient, [1 << i, 0, 0, 0]);
    }
}

#[test]
fn decomposition_of_nothing_is_one_constraint() {
    let mut out = Vec::new();
    zktx::compare::unpack_constraints(Vec::new(), Vec::new(), 0, 0, &mut out);
    assert_eq!(out.len(), 1);
    assert!(out[0].a.is_empty());
    assert!(out[0].c.is_empty());
}
