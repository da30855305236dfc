//! The range circuit: `up >= va >= low` for three signed amounts, with `up`
//! and `low` public and `va` private. Each of the three is decomposed into
//! 256 bits, and so are the offset `M = 2^128` and its inverse; then `up` is
//! compared with `va`, and `va` with `low`.

use crate::amount::{in_range, signed_value, within, Amount};
use crate::bits::{bit, bit_words, bits_value, decompose, power_of_two};
use crate::compare::{
    compare_constraints, compare_shape, fits, fits_width, holds_bits, lemma_bits_sum,
    lemma_compare, lemma_compare_in_scope, lemma_pow2_values, lemma_unit_in_scope,
    lemma_unit_value, lemma_unpack, lemma_unpack_in_scope, offset_difference, operand, unit,
    unpack_constraints, unpack_shape, DIFFERENCE_BITS, OFFSET_BITS, OPERAND_BITS,
};
use crate::error::Error;
use crate::field::{modulus, negate, residue, to_field, words_value, Words};
use crate::groth16::{check_proof, key_readable, key_valid, outcome};
use crate::r1cs::{
    constraint_holds, constraint_in_scope, constraints_view, lc_in_scope, lc_value,
    lemma_in_scope_concat, lemma_in_scope_push, lemma_satisfied_concat, lemma_satisfied_push,
    lemma_term_value, satisfied, single, system_in_scope, terms_view, values, variable_value,
    Assignment, Constraint, ConstraintView, TermView, Variable,
};
use crate::wire::{g1_coords, g2_coords, point_bytes, proof_encodable, proof_to_bytes, ProofWire};
use vstd::arithmetic::div_mod::lemma_small_mod;
use vstd::arithmetic::power2::pow2;
use vstd::prelude::*;

verus! {

/// The number of public inputs: `up` and `low`.
pub const NUM_INPUTS: usize = 2;

/// The number of auxiliary variables: `va`, `+M` and `-M`, the bits of these
/// three and of `up` and `low`, and the bits of two differences.
pub const NUM_AUX: usize = 1541;

/// The auxiliary variable of `+M`.
pub const PLUS: usize = 1;

/// The auxiliary variable of `-M`.
pub const MINUS: usize = 2;

/// The auxiliary variable that holds the first bit of `up`.
pub const UP_BITS_AT: usize = 3;

/// The auxiliary variable that holds the first bit of `low`.
pub const LOW_BITS_AT: usize = 259;

/// The auxiliary variable that holds the first bit of `va`.
pub const VA_BITS_AT: usize = 515;

/// The auxiliary variable that holds the first bit of `+M`.
pub const PLUS_BITS_AT: usize = 771;

/// The auxiliary variable that holds the first bit of `-M`.
pub const MINUS_BITS_AT: usize = 1027;

/// The auxiliary variable that holds the first bit of `up - va + M`.
pub const UPPER_BITS_AT: usize = 1283;

/// The auxiliary variable that holds the first bit of `va - low + M`.
pub const LOWER_BITS_AT: usize = 1412;

/// The variable of the upper bound.
pub open spec fn up_variable() -> Variable {
    Variable::Input(0)
}

/// The variable of the lower bound.
pub open spec fn low_variable() -> Variable {
    Variable::Input(1)
}

/// The variable of the private value.
pub open spec fn va_variable() -> Variable {
    Variable::Aux(0)
}

/// The decomposition of a variable into the 256 bits from `at` on: each bit
/// is 0 or 1, and the weighted sum of the bits is the variable.
pub open spec fn decomposition(v: Variable, at: nat) -> Seq<ConstraintView> {
    unpack_shape(unit(v), Seq::<TermView>::empty(), at, OPERAND_BITS as nat)
}

/// `v * 1 = c`: the variable is the constant.
pub open spec fn constant_constraint(v: Variable, c: nat) -> ConstraintView {
    ConstraintView {
        a: unit(v),
        b: unit(Variable::One),
        c: seq![(TermView { variable: Variable::One, coefficient: c })],
    }
}

/// A constant as a decomposed number: the decomposition of the variable,
/// and the variable is the constant.
pub open spec fn constant_shape(v: Variable, c: nat, at: nat) -> Seq<ConstraintView> {
    decomposition(v, at).push(constant_constraint(v, c))
}

/// The offset `M`.
pub open spec fn offset() -> nat {
    pow2(OFFSET_BITS as nat)
}

/// The inverse of the offset in the field.
pub open spec fn minus_offset() -> nat {
    (modulus() - pow2(OFFSET_BITS as nat)) as nat
}

/// The constraints of the range circuit: the decompositions of `up`, `low`
/// and `va`, those of `+M` and `-M`, then `up >= va` and `va >= low`.
pub open spec fn range_shape() -> Seq<ConstraintView> {
    decomposition(up_variable(), UP_BITS_AT as nat) + decomposition(
        low_variable(),
        LOW_BITS_AT as nat,
    ) + decomposition(va_variable(), VA_BITS_AT as nat) + constant_shape(
        Variable::Aux(PLUS),
        offset(),
        PLUS_BITS_AT as nat,
    ) + constant_shape(Variable::Aux(MINUS), minus_offset(), MINUS_BITS_AT as nat) + compare_shape(
        UP_BITS_AT as nat,
        VA_BITS_AT as nat,
        PLUS_BITS_AT as nat,
        MINUS_BITS_AT as nat,
        UPPER_BITS_AT as nat,
    ) + compare_shape(
        VA_BITS_AT as nat,
        LOW_BITS_AT as nat,
        PLUS_BITS_AT as nat,
        MINUS_BITS_AT as nat,
        LOWER_BITS_AT as nat,
    )
}

/// The bits that the auxiliary variables `base .. base + n` hold, reading 1 as
/// `true`.
pub open spec fn read_bits(aux: Seq<nat>, base: nat, n: nat) -> Seq<bool> {
    Seq::new(n, |i: int| aux[base + i] == 1)
}

/// The `n` auxiliary variables from `base` on are 0 or 1 each, and are the
/// bits of `d`.
pub open spec fn encodes(aux: Seq<nat>, base: nat, n: nat, d: int) -> bool {
    &&& holds_bits(aux, base, read_bits(aux, base, n), n)
    &&& bits_value(read_bits(aux, base, n)) == d
}

/// The difference of two amounts with the offset, cut to 129 bits.
pub open spec fn difference(left: Amount, right: Amount) -> int {
    (signed_value(left) - signed_value(right) + offset()) % (pow2(DIFFERENCE_BITS as nat) as int)
}

/// The assignment that an honest prover computes from three amounts: the
/// residues of the amounts, the offset and its inverse, the bits of these
/// five, and the bits of the two offset differences.
pub open spec fn honest(up: Amount, va: Amount, low: Amount, inputs: Seq<nat>, aux: Seq<nat>) -> bool {
    &&& inputs.len() == NUM_INPUTS
    &&& inputs[0] == residue(signed_value(up))
    &&& inputs[1] == residue(signed_value(low))
    &&& aux.len() == NUM_AUX
    &&& aux[0] == residue(signed_value(va))
    &&& aux[PLUS as int] == offset()
    &&& aux[MINUS as int] == minus_offset()
    &&& encodes(aux, UP_BITS_AT as nat, OPERAND_BITS as nat, inputs[0] as int)
    &&& encodes(aux, LOW_BITS_AT as nat, OPERAND_BITS as nat, inputs[1] as int)
    &&& encodes(aux, VA_BITS_AT as nat, OPERAND_BITS as nat, aux[0] as int)
    &&& encodes(aux, PLUS_BITS_AT as nat, OPERAND_BITS as nat, offset() as int)
    &&& encodes(aux, MINUS_BITS_AT as nat, OPERAND_BITS as nat, minus_offset() as int)
    &&& encodes(aux, UPPER_BITS_AT as nat, DIFFERENCE_BITS as nat, difference(up, va))
    &&& encodes(aux, LOWER_BITS_AT as nat, DIFFERENCE_BITS as nat, difference(va, low))
}

/// Every variable of the range circuit exists: it names one of the two
/// inputs or one of the auxiliary variables.
pub proof fn lemma_range_in_scope()
    ensures
        system_in_scope(range_shape(), NUM_INPUTS as nat, NUM_AUX as nat),
{
    let ni = NUM_INPUTS as nat;
    let na = NUM_AUX as nat;
    let none = Seq::<TermView>::empty();
    let plus = Variable::Aux(PLUS);
    let minus = Variable::Aux(MINUS);
    let d_up = decomposition(up_variable(), UP_BITS_AT as nat);
    let d_low = decomposition(low_variable(), LOW_BITS_AT as nat);
    let d_va = decomposition(va_variable(), VA_BITS_AT as nat);
    let c_plus = constant_shape(plus, offset(), PLUS_BITS_AT as nat);
    let c_minus = constant_shape(minus, minus_offset(), MINUS_BITS_AT as nat);
    let upper = compare_shape(
        UP_BITS_AT as nat,
        VA_BITS_AT as nat,
        PLUS_BITS_AT as nat,
        MINUS_BITS_AT as nat,
        UPPER_BITS_AT as nat,
    );
    let lower = compare_shape(
        VA_BITS_AT as nat,
        LOW_BITS_AT as nat,
        PLUS_BITS_AT as nat,
        MINUS_BITS_AT as nat,
        LOWER_BITS_AT as nat,
    );
    assert(lc_in_scope(none, ni, na));
    lemma_unit_in_scope(up_variable(), ni, na);
    lemma_unit_in_scope(low_variable(), ni, na);
    lemma_unit_in_scope(va_variable(), ni, na);
    lemma_unit_in_scope(plus, ni, na);
    lemma_unit_in_scope(minus, ni, na);
    lemma_unit_in_scope(Variable::One, ni, na);
    lemma_unpack_in_scope(unit(up_variable()), none, UP_BITS_AT as nat, OPERAND_BITS as nat, ni, na);
    lemma_unpack_in_scope(unit(low_variable()), none, LOW_BITS_AT as nat, OPERAND_BITS as nat, ni, na);
    lemma_unpack_in_scope(unit(va_variable()), none, VA_BITS_AT as nat, OPERAND_BITS as nat, ni, na);
    lemma_unpack_in_scope(unit(plus), none, PLUS_BITS_AT as nat, OPERAND_BITS as nat, ni, na);
    lemma_unpack_in_scope(unit(minus), none, MINUS_BITS_AT as nat, OPERAND_BITS as nat, ni, na);
    assert(constraint_in_scope(constant_constraint(plus, offset()), ni, na)) by {
        assert(constant_constraint(plus, offset()).c[0].variable == Variable::One);
    }
    assert(constraint_in_scope(constant_constraint(minus, minus_offset()), ni, na)) by {
        assert(constant_constraint(minus, minus_offset()).c[0].variable == Variable::One);
    }
    lemma_in_scope_push(
        decomposition(plus, PLUS_BITS_AT as nat),
        constant_constraint(plus, offset()),
        ni,
        na,
    );
    lemma_in_scope_push(
        decomposition(minus, MINUS_BITS_AT as nat),
        constant_constraint(minus, minus_offset()),
        ni,
        na,
    );
    lemma_compare_in_scope(
        UP_BITS_AT as nat,
        VA_BITS_AT as nat,
        PLUS_BITS_AT as nat,
        MINUS_BITS_AT as nat,
        UPPER_BITS_AT as nat,
        ni,
        na,
    );
    lemma_compare_in_scope(
        VA_BITS_AT as nat,
        LOW_BITS_AT as nat,
        PLUS_BITS_AT as nat,
        MINUS_BITS_AT as nat,
        LOWER_BITS_AT as nat,
        ni,
        na,
    );
    lemma_in_scope_concat(d_up, d_low, ni, na);
    lemma_in_scope_concat(d_up + d_low, d_va, ni, na);
    lemma_in_scope_concat(d_up + d_low + d_va, c_plus, ni, na);
    lemma_in_scope_concat(d_up + d_low + d_va + c_plus, c_minus, ni, na);
    lemma_in_scope_concat(d_up + d_low + d_va + c_plus + c_minus, upper, ni, na);
    lemma_in_scope_concat(d_up + d_low + d_va + c_plus + c_minus + upper, lower, ni, na);
}

/// Where a variable has the value whose bits the auxiliary variables from
/// `at` on hold, its decomposition is satisfied, and the decomposed number
/// has that value.
pub proof fn lemma_decomposition(v: Variable, at: nat, inputs: Seq<nat>, aux: Seq<nat>)
    requires
        encodes(aux, at, OPERAND_BITS as nat, variable_value(v, inputs, aux) as int),
    ensures
        satisfied(decomposition(v, at), inputs, aux),
        lc_value(operand(at), inputs, aux) == variable_value(v, inputs, aux),
{
    let none = Seq::<TermView>::empty();
    let bits = read_bits(aux, at, OPERAND_BITS as nat);
    lemma_unpack(unit(v), none, at, OPERAND_BITS as nat, inputs, aux, bits);
    lemma_unit_value(v, inputs, aux);
    lemma_bits_sum(at, OPERAND_BITS as nat, inputs, aux, bits);
    assert(lc_value(none, inputs, aux) == 0);
}

/// Where a variable has the value `c`, the constraint that says so holds.
pub proof fn lemma_constant(v: Variable, c: nat, inputs: Seq<nat>, aux: Seq<nat>)
    requires
        variable_value(v, inputs, aux) == c,
    ensures
        constraint_holds(constant_constraint(v, c), inputs, aux),
{
    lemma_unit_value(v, inputs, aux);
    lemma_unit_value(Variable::One, inputs, aux);
    lemma_term_value(Variable::One, c, inputs, aux);
    assert(c * 1 == c) by (nonlinear_arith);
}

/// The honest assignment of three amounts that fit the width satisfies the
/// range circuit exactly when the value lies within the bounds, bounds
/// included.
pub proof fn lemma_range_circuit(
    up: Amount,
    va: Amount,
    low: Amount,
    inputs: Seq<nat>,
    aux: Seq<nat>,
)
    requires
        fits(up),
        fits(va),
        fits(low),
        honest(up, va, low, inputs, aux),
    ensures
        satisfied(range_shape(), inputs, aux) <==> within(up, va, low),
{
    let plus = Variable::Aux(PLUS);
    let minus = Variable::Aux(MINUS);
    let d_up = decomposition(up_variable(), UP_BITS_AT as nat);
    let d_low = decomposition(low_variable(), LOW_BITS_AT as nat);
    let d_va = decomposition(va_variable(), VA_BITS_AT as nat);
    let c_plus = constant_shape(plus, offset(), PLUS_BITS_AT as nat);
    let c_minus = constant_shape(minus, minus_offset(), MINUS_BITS_AT as nat);
    let upper = compare_shape(
        UP_BITS_AT as nat,
        VA_BITS_AT as nat,
        PLUS_BITS_AT as nat,
        MINUS_BITS_AT as nat,
        UPPER_BITS_AT as nat,
    );
    let lower = compare_shape(
        VA_BITS_AT as nat,
        LOW_BITS_AT as nat,
        PLUS_BITS_AT as nat,
        MINUS_BITS_AT as nat,
        LOWER_BITS_AT as nat,
    );
    lemma_pow2_values();
    // The five decompositions and the two constants hold.
    lemma_decomposition(up_variable(), UP_BITS_AT as nat, inputs, aux);
    lemma_decomposition(low_variable(), LOW_BITS_AT as nat, inputs, aux);
    lemma_decomposition(va_variable(), VA_BITS_AT as nat, inputs, aux);
    lemma_decomposition(plus, PLUS_BITS_AT as nat, inputs, aux);
    lemma_decomposition(minus, MINUS_BITS_AT as nat, inputs, aux);
    lemma_constant(plus, offset(), inputs, aux);
    lemma_constant(minus, minus_offset(), inputs, aux);
    lemma_satisfied_push(decomposition(plus, PLUS_BITS_AT as nat), constant_constraint(plus, offset()), inputs, aux);
    lemma_satisfied_push(
        decomposition(minus, MINUS_BITS_AT as nat),
        constant_constraint(minus, minus_offset()),
        inputs,
        aux,
    );
    // The comparisons say what they compare: the differences are not cut.
    let su = signed_value(up);
    let sv = signed_value(va);
    let sl = signed_value(low);
    assert(difference(up, va) == su - sv + offset()) by {
        lemma_small_mod((su - sv + offset()) as nat, pow2(DIFFERENCE_BITS as nat));
    }
    assert(difference(va, low) == sv - sl + offset()) by {
        lemma_small_mod((sv - sl + offset()) as nat, pow2(DIFFERENCE_BITS as nat));
    }
    lemma_compare(
        UP_BITS_AT as nat,
        VA_BITS_AT as nat,
        PLUS_BITS_AT as nat,
        MINUS_BITS_AT as nat,
        UPPER_BITS_AT as nat,
        inputs,
        aux,
        read_bits(aux, UPPER_BITS_AT as nat, DIFFERENCE_BITS as nat),
        su,
        sv,
    );
    lemma_compare(
        VA_BITS_AT as nat,
        LOW_BITS_AT as nat,
        PLUS_BITS_AT as nat,
        MINUS_BITS_AT as nat,
        LOWER_BITS_AT as nat,
        inputs,
        aux,
        read_bits(aux, LOWER_BITS_AT as nat, DIFFERENCE_BITS as nat),
        sv,
        sl,
    );
    lemma_satisfied_concat(d_up, d_low, inputs, aux);
    lemma_satisfied_concat(d_up + d_low, d_va, inputs, aux);
    lemma_satisfied_concat(d_up + d_low + d_va, c_plus, inputs, aux);
    lemma_satisfied_concat(d_up + d_low + d_va + c_plus, c_minus, inputs, aux);
    lemma_satisfied_concat(d_up + d_low + d_va + c_plus + c_minus, upper, inputs, aux);
    lemma_satisfied_concat(d_up + d_low + d_va + c_plus + c_minus + upper, lower, inputs, aux);
}

/// One instance of the range circuit. An amount that is `None` is unknown, as
/// in the circuit from which parameters are generated.
#[derive(Clone, Copy, Debug)]
pub struct RangeCircuit {
    /// The upper bound.
    pub up: Option<Amount>,
    /// The value.
    pub va: Option<Amount>,
    /// The lower bound.
    pub low: Option<Amount>,
}

/// What synthesis gives: the size of the system, its constraints, and the
/// assignment where the amounts are known.
#[derive(Debug)]
pub struct Synthesis {
    pub num_inputs: usize,
    pub num_aux: usize,
    pub constraints: Vec<Constraint>,
    pub assignment: Option<Assignment>,
}

/// Appends the field words of each bit to `aux`.
fn push_bits(aux: &mut Vec<Words>, bits: &Vec<bool>)
    ensures
        values(final(aux)@) == values(old(aux)@) + Seq::new(
            bits@.len(),
            |i: int| bit(bits@[i]),
        ),
{
    let ghost before = values(aux@);
    let mut i: usize = 0;
    assert(values(aux@) =~= before + Seq::new(0, |j: int| bit(bits@[j])));
    while i < bits.len()
        invariant
            i <= bits@.len(),
            values(aux@) == before + Seq::new(i as nat, |j: int| bit(bits@[j])),
        decreases bits@.len() - i,
    {
        let ghost prev = aux@;
        aux.push(bit_words(bits[i]));
        assert(values(aux@) =~= values(prev).push(bit(bits@[i as int])));
        assert(values(aux@) =~= before + Seq::new((i + 1) as nat, |j: int| bit(bits@[j])));
        i = i + 1;
    }
}

/// Appends the bits of `w` to `aux`: `n` of them, where `w` is below `2^n`.
fn push_decomposed(aux: &mut Vec<Words>, w: Words, n: usize)
    requires
        words_value(w) < pow2(n as nat),
    ensures
        values(final(aux)@).len() == values(old(aux)@).len() + n,
        values(final(aux)@).take(values(old(aux)@).len() as int) == values(old(aux)@),
        encodes(values(final(aux)@), values(old(aux)@).len(), n as nat, words_value(w) as int),
{
    let ghost before = values(aux@);
    let bits = decompose(w, n);
    push_bits(aux, &bits);
    let len: usize = aux.len();
    proof {
        let after = values(aux@);
        lemma_small_mod(words_value(w), pow2(n as nat));
        assert(after.len() == len);
        assert(after.take(before.len() as int) =~= before);
        assert(read_bits(after, before.len(), n as nat) =~= bits@);
        assert forall|i: int| 0 <= i < n implies after[before.len() + i] == bit(
            #[trigger] read_bits(after, before.len(), n as nat)[i],
        ) by {
            assert(after[before.len() + i] == bit(bits@[i]));
        }
    }
}

/// What was encoded in a shorter assignment is encoded in a longer one that
/// begins with it.
proof fn lemma_encodes_stays(short: Seq<nat>, long: Seq<nat>, base: nat, n: nat, d: int)
    requires
        encodes(short, base, n, d),
        short.len() <= long.len(),
        long.take(short.len() as int) == short,
    ensures
        encodes(long, base, n, d),
{
    assert forall|i: int| 0 <= i < short.len() implies long[i] == short[i] by {
        assert(long.take(short.len() as int)[i] == long[i]);
    }
    assert(read_bits(long, base, n) =~= read_bits(short, base, n));
}

impl RangeCircuit {
    /// The circuit with no amount known.
    pub fn blank() -> (c: RangeCircuit)
        ensures
            c.up.is_none(),
            c.va.is_none(),
            c.low.is_none(),
    {
        RangeCircuit { up: None, va: None, low: None }
    }

    /// The circuit of three known amounts.
    pub fn new(up: Amount, va: Amount, low: Amount) -> (c: RangeCircuit)
        ensures
            c.up == Some(up),
            c.va == Some(va),
            c.low == Some(low),
    {
        RangeCircuit { up: Some(up), va: Some(va), low: Some(low) }
    }

    /// All three amounts are known.
    pub open spec fn known(&self) -> bool {
        self.up.is_some() && self.va.is_some() && self.low.is_some()
    }

    /// The honest assignment of three amounts.
    pub fn assign(up: Amount, va: Amount, low: Amount) -> (a: Assignment)
        ensures
            honest(up, va, low, values(a.inputs@), values(a.aux@)),
    {
        proof {
            lemma_pow2_values();
        }
        let up_field = to_field(up);
        let low_field = to_field(low);
        let va_field = to_field(va);
        let plus = power_of_two(OFFSET_BITS);
        let minus = negate(plus);
        let mut inputs: Vec<Words> = Vec::new();
        inputs.push(up_field);
        inputs.push(low_field);
        let mut aux: Vec<Words> = Vec::new();
        aux.push(va_field);
        aux.push(plus);
        aux.push(minus);
        let ghost v0 = values(aux@);
        push_decomposed(&mut aux, up_field, OPERAND_BITS);
        let ghost v1 = values(aux@);
        push_decomposed(&mut aux, low_field, OPERAND_BITS);
        let ghost v2 = values(aux@);
        push_decomposed(&mut aux, va_field, OPERAND_BITS);
        let ghost v3 = values(aux@);
        push_decomposed(&mut aux, plus, OPERAND_BITS);
        let ghost v4 = values(aux@);
        push_decomposed(&mut aux, minus, OPERAND_BITS);
        let ghost v5 = values(aux@);
        push_decomposed(&mut aux, offset_difference(up, va), DIFFERENCE_BITS);
        let ghost v6 = values(aux@);
        push_decomposed(&mut aux, offset_difference(va, low), DIFFERENCE_BITS);
        let ghost v7 = values(aux@);
        proof {
            // Each part stays as the assignment grows.
            assert(v7.take(v6.len() as int) == v6);
            assert(v7.take(v5.len() as int) =~= v5) by {
                assert(v6.take(v5.len() as int) == v5);
            }
            assert(v7.take(v4.len() as int) =~= v4) by {
                assert(v5.take(v4.len() as int) == v4);
            }
            assert(v7.take(v3.len() as int) =~= v3) by {
                assert(v4.take(v3.len() as int) == v3);
            }
            assert(v7.take(v2.len() as int) =~= v2) by {
                assert(v3.take(v2.len() as int) == v2);
            }
            assert(v7.take(v1.len() as int) =~= v1) by {
                assert(v2.take(v1.len() as int) == v1);
            }
            assert(v7.take(v0.len() as int) =~= v0) by {
                assert(v1.take(v0.len() as int) == v0);
            }
            lemma_encodes_stays(v1, v7, UP_BITS_AT as nat, OPERAND_BITS as nat, words_value(up_field) as int);
            lemma_encodes_stays(v2, v7, LOW_BITS_AT as nat, OPERAND_BITS as nat, words_value(low_field) as int);
            lemma_encodes_stays(v3, v7, VA_BITS_AT as nat, OPERAND_BITS as nat, words_value(va_field) as int);
            lemma_encodes_stays(v4, v7, PLUS_BITS_AT as nat, OPERAND_BITS as nat, words_value(plus) as int);
            lemma_encodes_stays(v5, v7, MINUS_BITS_AT as nat, OPERAND_BITS as nat, words_value(minus) as int);
            lemma_encodes_stays(v6, v7, UPPER_BITS_AT as nat, DIFFERENCE_BITS as nat, difference(up, va));
            assert(v7[0] == v0[0]);
            assert(v7[1] == v0[1]);
            assert(v7[2] == v0[2]);
        }
        Assignment { inputs, aux }
    }

    /// The constraints of the circuit, and the honest assignment where the
    /// amounts are known. The constraints are the same for every instance,
    /// and each of their variables exists. Where the amounts fit the width,
    /// the assignment satisfies the constraints exactly when
    /// `up >= va >= low`.
    pub fn synthesize(&self) -> (s: Synthesis)
        ensures
            s.num_inputs == NUM_INPUTS,
            s.num_aux == NUM_AUX,
            constraints_view(s.constraints@) == range_shape(),
            system_in_scope(constraints_view(s.constraints@), NUM_INPUTS as nat, NUM_AUX as nat),
            s.assignment.is_some() <==> self.known(),
            self.known() ==> honest(
                self.up.unwrap(),
                self.va.unwrap(),
                self.low.unwrap(),
                values(s.assignment.unwrap().inputs@),
                values(s.assignment.unwrap().aux@),
            ),
            self.known() && fits(self.up.unwrap()) && fits(self.va.unwrap()) && fits(
                self.low.unwrap(),
            ) ==> (satisfied(
                range_shape(),
                values(s.assignment.unwrap().inputs@),
                values(s.assignment.unwrap().aux@),
            ) <==> within(self.up.unwrap(), self.va.unwrap(), self.low.unwrap())),
    {
        let one: Words = [1, 0, 0, 0];
        let mut constraints: Vec<Constraint> = Vec::new();
        assert(constraints_view(constraints@) =~= Seq::<ConstraintView>::empty());
        let ghost none = Seq::<TermView>::empty();
        unpack_constraints(single(Variable::Input(0), one), Vec::new(), UP_BITS_AT, OPERAND_BITS, &mut constraints);
        unpack_constraints(single(Variable::Input(1), one), Vec::new(), LOW_BITS_AT, OPERAND_BITS, &mut constraints);
        unpack_constraints(single(Variable::Aux(0), one), Vec::new(), VA_BITS_AT, OPERAND_BITS, &mut constraints);
        constant_constraints(Variable::Aux(PLUS), power_of_two(OFFSET_BITS), PLUS_BITS_AT, &mut constraints);
        constant_constraints(
            Variable::Aux(MINUS),
            negate(power_of_two(OFFSET_BITS)),
            MINUS_BITS_AT,
            &mut constraints,
        );
        compare_constraints(
            UP_BITS_AT,
            VA_BITS_AT,
            PLUS_BITS_AT,
            MINUS_BITS_AT,
            UPPER_BITS_AT,
            &mut constraints,
        );
        compare_constraints(
            VA_BITS_AT,
            LOW_BITS_AT,
            PLUS_BITS_AT,
            MINUS_BITS_AT,
            LOWER_BITS_AT,
            &mut constraints,
        );
        proof {
            lemma_pow2_values();
            assert(constraints_view(constraints@) =~= range_shape());
            lemma_range_in_scope();
        }
        let assignment = match (self.up, self.va, self.low) {
            (Some(up), Some(va), Some(low)) => {
                let a = RangeCircuit::assign(up, va, low);
                proof {
                    if fits(up) && fits(va) && fits(low) {
                        lemma_range_circuit(up, va, low, values(a.inputs@), values(a.aux@));
                    }
                }
                Some(a)
            },
            _ => None,
        };
        Synthesis { num_inputs: NUM_INPUTS, num_aux: NUM_AUX, constraints, assignment }
    }
}

/// Appends the constraints of a constant to `out`: the decomposition of the
/// variable into the 256 bits from `at` on, and that it is the constant.
fn constant_constraints(v: Variable, c: Words, at: usize, out: &mut Vec<Constraint>)
    requires
        at + 256 <= usize::MAX,
    ensures
        constraints_view(final(out)@) == constraints_view(old(out)@) + constant_shape(
            v,
            words_value(c),
            at as nat,
        ),
{
    let ghost before = constraints_view(out@);
    let one: Words = [1, 0, 0, 0];
    unpack_constraints(single(v, one), Vec::new(), at, OPERAND_BITS, out);
    let fixed = Constraint {
        a: single(v, one),
        b: single(Variable::One, one),
        c: single(Variable::One, c),
    };
    assert(fixed@ == constant_constraint(v, words_value(c)));
    let ghost prev = out@;
    out.push(fixed);
    assert(constraints_view(out@) =~= constraints_view(prev).push(fixed@));
    assert(terms_view(Seq::<crate::r1cs::Term>::empty()) =~= Seq::<TermView>::empty());
    assert(constraints_view(out@) =~= before + constant_shape(v, words_value(c), at as nat));
}

/// What a prover of `up >= va >= low` is to prove in zero knowledge: the
/// circuit with its satisfying assignment. Fails with `Error::Synthesis`
/// where an amount does not fit the width of the comparison, a magnitude
/// below `2^127`, and where the value lies outside the bounds: there no
/// assignment satisfies the comparison.
pub fn range_info(up: Amount, va: Amount, low: Amount) -> (r: Result<Synthesis, Error>)
    ensures
        r.is_ok() <==> fits(up) && fits(va) && fits(low) && within(up, va, low),
        r.is_err() ==> r == Err::<Synthesis, Error>(Error::Synthesis),
        r.is_ok() ==> r.unwrap().num_inputs == NUM_INPUTS && r.unwrap().num_aux == NUM_AUX,
        r.is_ok() ==> constraints_view(r.unwrap().constraints@) == range_shape(),
        r.is_ok() ==> system_in_scope(range_shape(), NUM_INPUTS as nat, NUM_AUX as nat),
        r.is_ok() ==> r.unwrap().assignment.is_some(),
        r.is_ok() ==> honest(
            up,
            va,
            low,
            values(r.unwrap().assignment.unwrap().inputs@),
            values(r.unwrap().assignment.unwrap().aux@),
        ),
        r.is_ok() ==> satisfied(
            range_shape(),
            values(r.unwrap().assignment.unwrap().inputs@),
            values(r.unwrap().assignment.unwrap().aux@),
        ),
{
    if !fits_width(up) || !fits_width(va) || !fits_width(low) {
        return Err(Error::Synthesis);
    }
    if !in_range(up, va, low) {
        return Err(Error::Synthesis);
    }
    Ok(RangeCircuit::new(up, va, low).synthesize())
}

/// The public inputs of the range circuit for two bounds, as integers.
pub open spec fn public_inputs(up: Amount, low: Amount) -> Seq<nat> {
    seq![residue(signed_value(up)), residue(signed_value(low))]
}

/// What verifying a range proof answers: an error where the parameters hold
/// no verifying key; an error where the proof is malformed, be it that a
/// coordinate leaves no room for the flags or that the bytes are no point;
/// else the answer of the proof system for the two bounds as public inputs.
pub open spec fn range_verdict(up: Amount, low: Amount, proof: ProofWire, params: Seq<u8>) -> Result<
    bool,
    Error,
> {
    if !key_valid(params) {
        Err(Error::ParamInit)
    } else if !proof_encodable(proof) {
        Err(Error::ProofDecode)
    } else {
        outcome(
            params,
            point_bytes(g1_coords(proof.0), proof.0.2),
            point_bytes(g2_coords(proof.1), proof.1.2),
            point_bytes(g1_coords(proof.2), proof.2.2),
            public_inputs(up, low),
        )
    }
}

/// Verifies a proof that some value lies between `low` and `up`, against the
/// stored parameters of the range circuit. `Ok(false)` is the answer for a
/// well-formed proof that does not hold.
pub fn range_verify(up: Amount, low: Amount, proof: ProofWire, params: &Vec<u8>) -> (r: Result<
    bool,
    Error,
>)
    ensures
        r == range_verdict(up, low, proof, params@),
{
    let mut inputs: Vec<Words> = Vec::new();
    inputs.push(to_field(up));
    inputs.push(to_field(low));
    assert(values(inputs@) =~= public_inputs(up, low));
    match proof_to_bytes(&proof) {
        Some(bytes) => check_proof(params, &bytes.a, &bytes.b, &bytes.c, &inputs),
        None => {
            if key_readable(params) {
                Err(Error::ProofDecode)
            } else {
                Err(Error::ParamInit)
            }
        },
    }
}

} // verus!
