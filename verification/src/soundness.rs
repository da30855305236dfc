//! Soundness of the range circuit against any prover: whatever assignment
//! satisfies the constraints, the private value it holds lies within the
//! public bounds.
//!
//! The argument needs one fact about the field: the only solutions of
//! `x * x = x` are 0 and 1. It holds because the modulus is prime. The
//! lemmas take it as their hypothesis, `boolean_field`.

use crate::amount::{signed_value, Amount};
use crate::bits::{bit, bits_value, lemma_bits_value_bound, lemma_top_bit};
use crate::compare::{
    back_constraint, boolean_constraint, compare_shape, lemma_pow2_values, lemma_unit_value,
    operand, top_constraint, unpack_shape, weighted_bits, DIFFERENCE_BITS, OFFSET_BITS,
    OPERAND_BITS,
};
use crate::field::{modulus, residue};
use crate::r1cs::{
    constraint_holds, lc_value, lemma_lc_concat, lemma_satisfied_concat, lemma_satisfied_push,
    lemma_term_value, satisfied, variable_value, TermView, Variable,
};
use crate::range::{
    constant_constraint, constant_shape, decomposition, low_variable, minus_offset, offset,
    range_shape, up_variable, va_variable, LOWER_BITS_AT, LOW_BITS_AT, MINUS, MINUS_BITS_AT,
    NUM_AUX, NUM_INPUTS, PLUS, PLUS_BITS_AT, UPPER_BITS_AT, UP_BITS_AT, VA_BITS_AT,
};
use vstd::arithmetic::div_mod::{lemma_add_mod_noop, lemma_mul_mod_noop_right};
use vstd::arithmetic::power2::pow2;
use vstd::prelude::*;

verus! {

/// In the field, `x * x = x` only for 0 and 1.
pub open spec fn boolean_field() -> bool {
    forall|x: nat|
        #[trigger] ((x * x) % modulus()) == x % modulus() ==> x % modulus() == 0 || x % modulus()
            == 1
}

/// The bits that the auxiliary variables `base .. base + n` hold in the
/// field, reading the residue 1 as `true`.
pub open spec fn residue_bits(aux: Seq<nat>, base: nat, n: nat) -> Seq<bool> {
    Seq::new(n, |i: int| aux[base + i] % modulus() == 1)
}

/// The auxiliary variables `base .. base + n` are 0 or 1 in the field.
pub open spec fn residues_boolean(aux: Seq<nat>, base: nat, n: nat) -> bool {
    &&& base + n <= aux.len()
    &&& base + n <= usize::MAX
    &&& forall|i: int|
        0 <= i < n ==> (#[trigger] aux[base + i]) % modulus() == 0 || aux[base + i] % modulus()
            == 1
}

/// By how much `left` exceeds `right` according to the bits of a comparison:
/// the integer of the bits less the offset.
pub open spec fn slack(aux: Seq<nat>, base: nat) -> int {
    bits_value(residue_bits(aux, base, DIFFERENCE_BITS as nat)) - pow2(OFFSET_BITS as nat)
}

/// Where the auxiliary variables are 0 or 1 in the field, the weighted sum
/// behind any linear combination adds, in the field, the integer of their
/// bits.
pub proof fn lemma_weighted_sum_in_field(
    head: Seq<TermView>,
    base: nat,
    n: nat,
    inputs: Seq<nat>,
    aux: Seq<nat>,
)
    requires
        residues_boolean(aux, base, n),
    ensures
        lc_value(head + weighted_bits(base, n), inputs, aux) % modulus() == (lc_value(
            head,
            inputs,
            aux,
        ) + bits_value(residue_bits(aux, base, n))) % modulus(),
    decreases n,
{
    let q = modulus() as int;
    if n == 0 {
        assert(head + weighted_bits(base, 0) =~= head);
        assert(residue_bits(aux, base, 0) =~= Seq::<bool>::empty());
    } else {
        let m = (n - 1) as nat;
        assert(residues_boolean(aux, base, m));
        lemma_weighted_sum_in_field(head, base, m, inputs, aux);
        let s = head + weighted_bits(base, n);
        assert(s.drop_last() =~= head + weighted_bits(base, m));
        assert(s.last() == weighted_bits(base, n)[m as int]);
        assert(s.last().variable == Variable::Aux((base + m) as usize));
        assert(s.last().coefficient == pow2(m));
        let x = aux[(base + m) as int];
        assert(variable_value(s.last().variable, inputs, aux) == x);
        let bits = residue_bits(aux, base, n);
        assert(bits.drop_last() =~= residue_bits(aux, base, m));
        assert(bits.last() == (x % modulus() == 1));
        assert(x % modulus() == bit(bits.last()));
        let before = lc_value(s.drop_last(), inputs, aux) as int;
        let h = lc_value(head, inputs, aux) as int;
        let low = bits_value(residue_bits(aux, base, m)) as int;
        let p = pow2(m) as int;
        // before + p * x  ==  h + low + p * (x mod q)   in the field
        lemma_mul_mod_noop_right(p, x as int, q);
        lemma_add_mod_noop(before, p * x, q);
        lemma_add_mod_noop(h + low, p * (x as int % q), q);
        assert(lc_value(s, inputs, aux) == before + p * x);
        assert(bits_value(bits) == low + p * bit(bits.last()));
    }
}

/// Whatever satisfies the constraints of a bit decomposition holds bits, in
/// the field, and `value = head + the integer of the bits`, in the field.
pub proof fn lemma_unpack_sound(
    value: Seq<TermView>,
    head: Seq<TermView>,
    base: nat,
    n: nat,
    inputs: Seq<nat>,
    aux: Seq<nat>,
)
    requires
        boolean_field(),
        base + n <= aux.len(),
        base + n <= usize::MAX,
        satisfied(unpack_shape(value, head, base, n), inputs, aux),
    ensures
        residues_boolean(aux, base, n),
        bits_value(residue_bits(aux, base, n)) < pow2(n),
        lc_value(value, inputs, aux) % modulus() == (lc_value(head, inputs, aux) + bits_value(
            residue_bits(aux, base, n),
        )) % modulus(),
{
    let shape = unpack_shape(value, head, base, n);
    // Each bit variable is 0 or 1 in the field.
    assert forall|i: int| 0 <= i < n implies (#[trigger] aux[base + i]) % modulus() == 0 || aux[base
        + i] % modulus() == 1 by {
        let v = Variable::Aux((base + i) as usize);
        assert(shape[i] == boolean_constraint(v));
        assert(constraint_holds(shape[i], inputs, aux));
        lemma_unit_value(v, inputs, aux);
        let x = aux[base + i];
        assert(variable_value(v, inputs, aux) == x);
        assert((x * x) % modulus() == x % modulus());
    }
    lemma_bits_value_bound(residue_bits(aux, base, n));
    // The sum, in the field.
    assert(constraint_holds(shape[n as int], inputs, aux));
    lemma_unit_value(Variable::One, inputs, aux);
    lemma_weighted_sum_in_field(head, base, n, inputs, aux);
    let a = lc_value(value, inputs, aux);
    assert(a * 1 == a) by (nonlinear_arith);
}

/// Whatever satisfies the decomposition of a variable gives the decomposed
/// number the value of the variable, in the field.
pub proof fn lemma_decomposition_sound(v: Variable, at: nat, inputs: Seq<nat>, aux: Seq<nat>)
    requires
        satisfied(decomposition(v, at), inputs, aux),
    ensures
        lc_value(operand(at), inputs, aux) % modulus() == variable_value(v, inputs, aux)
            % modulus(),
{
    let none = Seq::<TermView>::empty();
    let shape = decomposition(v, at);
    assert(constraint_holds(shape[OPERAND_BITS as int], inputs, aux));
    lemma_unit_value(v, inputs, aux);
    lemma_unit_value(Variable::One, inputs, aux);
    assert(none + operand(at) =~= operand(at));
    let a = variable_value(v, inputs, aux);
    assert(a * 1 == a) by (nonlinear_arith);
}

/// Whatever satisfies the constraints of a comparison holds, in the field,
/// `left + M = right + d + M` for a `d` from 0 to below the offset: the
/// slack.
pub proof fn lemma_compare_sound(
    left: nat,
    right: nat,
    plus: nat,
    minus: nat,
    base: nat,
    inputs: Seq<nat>,
    aux: Seq<nat>,
)
    requires
        boolean_field(),
        base + DIFFERENCE_BITS <= aux.len(),
        base + DIFFERENCE_BITS <= usize::MAX,
        satisfied(compare_shape(left, right, plus, minus, base), inputs, aux),
    ensures
        0 <= slack(aux, base) < pow2(OFFSET_BITS as nat),
        (lc_value(operand(left), inputs, aux) + lc_value(operand(plus), inputs, aux)) % modulus()
            == (lc_value(operand(right), inputs, aux) + slack(aux, base) + pow2(
            OFFSET_BITS as nat,
        )) % (modulus() as int),
{
    let value = operand(left) + operand(plus);
    let unpack = unpack_shape(value, operand(right), base, DIFFERENCE_BITS as nat);
    let back = back_constraint(left, right, minus, base);
    let last = top_constraint(base, OFFSET_BITS as nat);
    let bits = residue_bits(aux, base, DIFFERENCE_BITS as nat);
    lemma_satisfied_push(unpack, back, inputs, aux);
    lemma_satisfied_push(unpack.push(back), last, inputs, aux);
    lemma_unpack_sound(value, operand(right), base, DIFFERENCE_BITS as nat, inputs, aux);
    lemma_lc_concat(operand(left), operand(plus), inputs, aux);
    // The top bit is set.
    let top = Variable::Aux((base + OFFSET_BITS) as usize);
    lemma_unit_value(top, inputs, aux);
    lemma_unit_value(Variable::One, inputs, aux);
    let t = aux[(base + OFFSET_BITS) as int];
    assert(variable_value(top, inputs, aux) == t);
    assert(t * 1 == t) by (nonlinear_arith);
    assert(t % modulus() == 1);
    assert(bits.last());
    lemma_top_bit(bits);
    lemma_pow2_values();
}

/// Equal residues stay equal when the same is taken from both.
pub proof fn lemma_cancel(a: int, b: int, c: int)
    requires
        (a + c) % (modulus() as int) == (b + c) % (modulus() as int),
    ensures
        a % (modulus() as int) == b % (modulus() as int),
{
    let q = modulus() as int;
    lemma_add_mod_noop(a + c, -c, q);
    lemma_add_mod_noop(b + c, -c, q);
}

/// Sums of congruent integers are congruent.
pub proof fn lemma_congruent_sum(x: int, x2: int, y: int, y2: int)
    requires
        x % (modulus() as int) == x2 % (modulus() as int),
        y % (modulus() as int) == y2 % (modulus() as int),
    ensures
        (x + y) % (modulus() as int) == (x2 + y2) % (modulus() as int),
{
    lemma_add_mod_noop(x, y, modulus() as int);
    lemma_add_mod_noop(x2, y2, modulus() as int);
}

/// From the constraints of one comparison, of the decompositions of its
/// operands and of the offset: `left = right + d` in the field, for the
/// slack `d` of the comparison.
proof fn lemma_compared(
    left_variable: Variable,
    right_variable: Variable,
    left: nat,
    right: nat,
    base: nat,
    inputs: Seq<nat>,
    aux: Seq<nat>,
)
    requires
        boolean_field(),
        aux.len() == NUM_AUX,
        base + DIFFERENCE_BITS <= NUM_AUX,
        satisfied(decomposition(left_variable, left), inputs, aux),
        satisfied(decomposition(right_variable, right), inputs, aux),
        satisfied(constant_shape(Variable::Aux(PLUS), offset(), PLUS_BITS_AT as nat), inputs, aux),
        satisfied(
            compare_shape(left, right, PLUS_BITS_AT as nat, MINUS_BITS_AT as nat, base),
            inputs,
            aux,
        ),
    ensures
        0 <= slack(aux, base) < pow2(OFFSET_BITS as nat),
        variable_value(left_variable, inputs, aux) % modulus() == (variable_value(
            right_variable,
            inputs,
            aux,
        ) + slack(aux, base)) % (modulus() as int),
{
    let q = modulus() as int;
    let plus = Variable::Aux(PLUS);
    let m = offset() as int;
    lemma_decomposition_sound(left_variable, left, inputs, aux);
    lemma_decomposition_sound(right_variable, right, inputs, aux);
    lemma_satisfied_push(
        decomposition(plus, PLUS_BITS_AT as nat),
        constant_constraint(plus, offset()),
        inputs,
        aux,
    );
    lemma_decomposition_sound(plus, PLUS_BITS_AT as nat, inputs, aux);
    // The variable of the offset is the offset.
    lemma_unit_value(plus, inputs, aux);
    lemma_unit_value(Variable::One, inputs, aux);
    lemma_term_value(Variable::One, offset(), inputs, aux);
    let p = variable_value(plus, inputs, aux) as int;
    assert(p * 1 == p) by (nonlinear_arith);
    assert(m * 1 == m) by (nonlinear_arith);
    assert(p % q == m % q);
    lemma_compare_sound(left, right, PLUS_BITS_AT as nat, MINUS_BITS_AT as nat, base, inputs, aux);
    let lv = variable_value(left_variable, inputs, aux) as int;
    let rv = variable_value(right_variable, inputs, aux) as int;
    let ll = lc_value(operand(left), inputs, aux) as int;
    let lr = lc_value(operand(right), inputs, aux) as int;
    let lp = lc_value(operand(PLUS_BITS_AT as nat), inputs, aux) as int;
    let d = slack(aux, base);
    lemma_congruent_sum(lv, ll, m, lp);
    lemma_congruent_sum(lr, rv, d + m, d + m);
    assert((lv + m) % q == (rv + d + m) % q);
    lemma_cancel(lv, rv + d, m);
}

/// Soundness of the range circuit. Let an assignment satisfy it, with the
/// residues of two amounts as its public inputs. Then its private value is
/// the residue of an integer between the two amounts, bounds included.
pub proof fn lemma_range_sound(up: Amount, low: Amount, inputs: Seq<nat>, aux: Seq<nat>)
    requires
        boolean_field(),
        inputs.len() == NUM_INPUTS,
        inputs[0] == residue(signed_value(up)),
        inputs[1] == residue(signed_value(low)),
        aux.len() == NUM_AUX,
        satisfied(range_shape(), inputs, aux),
    ensures
        exists|v: int|
            signed_value(low) <= v <= signed_value(up) && aux[0] % modulus() == #[trigger] residue(
                v,
            ),
{
    let q = modulus() as int;
    let plus = Variable::Aux(PLUS);
    let minus = Variable::Aux(MINUS);
    let d_up = decomposition(up_variable(), UP_BITS_AT as nat);
    let d_low = decomposition(low_variable(), LOW_BITS_AT as nat);
    let d_va = decomposition(va_variable(), VA_BITS_AT as nat);
    let c_plus = constant_shape(plus, offset(), PLUS_BITS_AT as nat);
    let c_minus = constant_shape(minus, minus_offset(), MINUS_BITS_AT as nat);
    let upper = compare_shape(
        UP_BITS_AT as nat,
        VA_BITS_AT as nat,
        PLUS_BITS_AT as nat,
        MINUS_BITS_AT as nat,
        UPPER_BITS_AT as nat,
    );
    let lower = compare_shape(
        VA_BITS_AT as nat,
        LOW_BITS_AT as nat,
        PLUS_BITS_AT as nat,
        MINUS_BITS_AT as nat,
        LOWER_BITS_AT as nat,
    );
    lemma_satisfied_concat(d_up, d_low, inputs, aux);
    lemma_satisfied_concat(d_up + d_low, d_va, inputs, aux);
    lemma_satisfied_concat(d_up + d_low + d_va, c_plus, inputs, aux);
    lemma_satisfied_concat(d_up + d_low + d_va + c_plus, c_minus, inputs, aux);
    lemma_satisfied_concat(d_up + d_low + d_va + c_plus + c_minus, upper, inputs, aux);
    lemma_satisfied_concat(d_up + d_low + d_va + c_plus + c_minus + upper, lower, inputs, aux);
    lemma_compared(
        up_variable(),
        va_variable(),
        UP_BITS_AT as nat,
        VA_BITS_AT as nat,
        UPPER_BITS_AT as nat,
        inputs,
        aux,
    );
    lemma_compared(
        va_variable(),
        low_variable(),
        VA_BITS_AT as nat,
        LOW_BITS_AT as nat,
        LOWER_BITS_AT as nat,
        inputs,
        aux,
    );
    lemma_pow2_values();
    let a = slack(aux, UPPER_BITS_AT as nat);
    let b = slack(aux, LOWER_BITS_AT as nat);
    let su = signed_value(up);
    let sl = signed_value(low);
    let va = aux[0] as int;
    assert(variable_value(up_variable(), inputs, aux) == inputs[0]);
    assert(variable_value(low_variable(), inputs, aux) == inputs[1]);
    assert(variable_value(va_variable(), inputs, aux) == aux[0]);
    // up = va + a and va = low + b in the field
    assert(su % q == (va + a) % q) by {
        vstd::arithmetic::div_mod::lemma_mod_twice(su, q);
    }
    assert(va % q == (sl + b) % q) by {
        lemma_add_mod_noop(sl, b, q);
        lemma_add_mod_noop(sl % q, b, q);
        vstd::arithmetic::div_mod::lemma_mod_twice(sl, q);
    }
    assert(su % q == (sl + b + a) % q) by {
        lemma_add_mod_noop(va, a, q);
        lemma_add_mod_noop(sl + b, a, q);
    }
    // both sides are small: they are equal as integers
    assert(su == sl + b + a) by {
        lemma_small_congruent(su, sl + b + a);
    }
    let v = sl + b;
    assert(sl <= v <= su);
    assert(aux[0] % modulus() == residue(v));
}

/// Two integers that are congruent and less than the modulus apart are
/// equal.
pub proof fn lemma_small_congruent(x: int, y: int)
    requires
        x % (modulus() as int) == y % (modulus() as int),
        -(modulus() as int) < x - y < modulus() as int,
    ensures
        x == y,
{
    let q = modulus() as int;
    vstd::arithmetic::div_mod::lemma_fundamental_div_mod(x, q);
    vstd::arithmetic::div_mod::lemma_fundamental_div_mod(y, q);
    let dx = x / q;
    let dy = y / q;
    assert(x - y == q * dx - q * dy);
    assert(q * dx - q * dy == q * (dx - dy)) by (nonlinear_arith);
    if dx - dy >= 1 {
        assert(q * (dx - dy) >= q) by (nonlinear_arith)
            requires
                dx - dy >= 1,
                q > 0,
        ;
    } else if dx - dy <= -1 {
        assert(q * (dx - dy) <= -q) by (nonlinear_arith)
            requires
                dx - dy <= -1,
                q > 0,
        ;
    }
}

} // verus!
