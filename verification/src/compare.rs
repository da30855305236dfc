//! The gadgets of the range circuit, stated as rank-1 constraints: the
//! decomposition of a number into boolean-constrained bits, and the offset
//! comparison `left >= right` of two signed amounts. The comparison works on
//! decomposed numbers. The offset `M = 2^128` is added to the left operand,
//! the right operand is taken off, and the result is split into 129 bits; its
//! top bit is set exactly when the difference of the amounts is not
//! negative. In the field a negative difference would wrap around the
//! modulus; the offset keeps it where the integer and its residue agree, for
//! amounts whose magnitude lies below `2^127`.

use crate::amount::{magnitude, magnitude_of, signed_value, Amount};
use crate::bits::{bit, bits_value, lemma_top_bit, power_of_two};
use crate::field::{modulus, residue, words_value, Words};
use crate::r1cs::{
    constraint_holds, constraint_in_scope, constraints_view, in_scope, lc_in_scope, lc_value,
    lemma_in_scope_push, lemma_lc_concat, lemma_lc_in_scope_concat, lemma_satisfied_push,
    satisfied, single, system_in_scope, terms_view, variable_value, Constraint, ConstraintView,
    Term, TermView, Variable,
};
use vstd::arithmetic::power2::{lemma2_to64, lemma2_to64_rest, lemma_pow2_adds, pow2};
use vstd::prelude::*;

verus! {

/// The number of bits that each operand is decomposed into.
pub const OPERAND_BITS: usize = 256;

/// The exponent of the offset `M = 2^128`.
pub const OFFSET_BITS: usize = 128;

/// The number of bits that an offset difference is split into.
pub const DIFFERENCE_BITS: usize = 129;

/// The exponent of the bound on magnitudes: amounts below `2^127` in
/// magnitude differ by less than the offset.
pub const AMOUNT_BITS: usize = 127;

/// The amount fits the width for which the comparison is right.
pub open spec fn fits(x: Amount) -> bool {
    magnitude(x.0) < pow2(AMOUNT_BITS as nat)
}

/// Whether the amount fits the width for which the comparison is right.
pub fn fits_width(x: Amount) -> (r: bool)
    ensures
        r == fits(x),
{
    proof {
        lemma_pow2_values();
    }
    magnitude_of(x.0) < 0x8000_0000_0000_0000_0000_0000_0000_0000u128
}

/// The linear combination `1 * v`.
pub open spec fn unit(v: Variable) -> Seq<TermView> {
    seq![TermView { variable: v, coefficient: 1 }]
}

/// `v * v = v`: the variable is 0 or 1.
pub open spec fn boolean_constraint(v: Variable) -> ConstraintView {
    ConstraintView { a: unit(v), b: unit(v), c: unit(v) }
}

/// The sum of `2^i` times auxiliary variable `base + i`, for `i` below `n`.
pub open spec fn weighted_bits(base: nat, n: nat) -> Seq<TermView> {
    Seq::new(
        n,
        |i: int| TermView { variable: Variable::Aux((base + i) as usize), coefficient: pow2(i as nat) },
    )
}

/// The bit decomposition of the difference of two linear combinations into
/// the auxiliary variables `base .. base + n`: each of them is 0 or 1, and
/// `value * 1 = head + sum of the weighted bits`. With an empty `head` it
/// says that `value` lies below `2^n`.
pub open spec fn unpack_shape(value: Seq<TermView>, head: Seq<TermView>, base: nat, n: nat) -> Seq<
    ConstraintView,
> {
    Seq::new(n, |i: int| boolean_constraint(Variable::Aux((base + i) as usize))).push(
        ConstraintView { a: value, b: unit(Variable::One), c: head + weighted_bits(base, n) },
    )
}

/// The number whose bits are the 256 auxiliary variables from `at` on.
pub open spec fn operand(at: nat) -> Seq<TermView> {
    weighted_bits(at, OPERAND_BITS as nat)
}

/// `top bit * 1 = 1`.
pub open spec fn top_constraint(base: nat, k: nat) -> ConstraintView {
    ConstraintView {
        a: unit(Variable::Aux((base + k) as usize)),
        b: unit(Variable::One),
        c: unit(Variable::One),
    }
}

/// `(difference + (-M) + right) * 1 = left`, over the bits of each: taking
/// the offset off the difference gives back what the operands differ by.
pub open spec fn back_constraint(left: nat, right: nat, minus: nat, base: nat) -> ConstraintView {
    ConstraintView {
        a: weighted_bits(base, DIFFERENCE_BITS as nat) + operand(minus) + operand(right),
        b: unit(Variable::One),
        c: operand(left),
    }
}

/// The constraints of one comparison. The operands, `+M` and `-M` are
/// numbers decomposed at `left`, `right`, `plus` and `minus`; the bits of
/// the difference are the auxiliary variables `base .. base + 129`. First
/// the decomposition of `left + M - right`, then the way back with `-M`,
/// then the top bit.
pub open spec fn compare_shape(left: nat, right: nat, plus: nat, minus: nat, base: nat) -> Seq<
    ConstraintView,
> {
    unpack_shape(
        operand(left) + operand(plus),
        operand(right),
        base,
        DIFFERENCE_BITS as nat,
    ).push(back_constraint(left, right, minus, base)).push(top_constraint(base, OFFSET_BITS as nat))
}

/// The powers of two that the proofs about amounts use.
pub proof fn lemma_pow2_values()
    ensures
        pow2(64) == 0x1_0000_0000_0000_0000nat,
        pow2(127) == 0x8000_0000_0000_0000_0000_0000_0000_0000nat,
        pow2(128) == 0x1_0000_0000_0000_0000_0000_0000_0000_0000nat,
        pow2(129) == 0x2_0000_0000_0000_0000_0000_0000_0000_0000nat,
        pow2(256)
            == 0x1_0000_0000_0000_0000_0000_0000_0000_0000_0000_0000_0000_0000_0000_0000_0000_0000nat,
{
    lemma2_to64();
    lemma2_to64_rest();
    lemma_pow2_adds(64, 63);
    lemma_pow2_adds(64, 64);
    lemma_pow2_adds(128, 1);
    lemma_pow2_adds(128, 128);
    let half = pow2(128);
    assert(half * half
        == 0x1_0000_0000_0000_0000_0000_0000_0000_0000_0000_0000_0000_0000_0000_0000_0000_0000nat)
        by (nonlinear_arith)
        requires
            half == 0x1_0000_0000_0000_0000_0000_0000_0000_0000nat,
    ;
}

/// The offset difference of two amounts, `left - right + 2^128`, cut to 129
/// bits, as field words. Where both amounts fit the width it is the integer
/// itself, and it reaches `2^128` exactly when `left >= right`.
pub fn offset_difference(left: Amount, right: Amount) -> (r: Words)
    ensures
        words_value(r) == (signed_value(left) - signed_value(right) + pow2(OFFSET_BITS as nat)) % (
        pow2(DIFFERENCE_BITS as nat) as int),
        words_value(r) < pow2(DIFFERENCE_BITS as nat),
{
    proof {
        lemma_pow2_values();
    }
    let a: u128 = magnitude_of(left.0);
    let b: u128 = magnitude_of(right.0);
    // The difference plus 2^129 is `high * 2^128 + low`, with `high` below 4.
    let mut high: u64 = 0;
    let mut low: u128 = 0;
    if left.1 == right.1 {
        // Equal signs: the magnitudes subtract.
        let x: u128 = if left.1 { a } else { b };
        let y: u128 = if left.1 { b } else { a };
        if x >= y {
            high = 2;
            low = x - y;
        } else {
            high = 1;
            low = (u128::MAX - (y - x)) + 1;
        }
    } else {
        // Opposite signs: the magnitudes add, with a carry into bit 128.
        let carry: bool = a > u128::MAX - b;
        let sum: u128 = if carry { a - (u128::MAX - b) - 1 } else { a + b };
        if left.1 {
            high = if carry { 3 } else { 2 };
            low = sum;
        } else if sum == 0 {
            high = if carry { 1 } else { 2 };
            low = 0;
        } else {
            high = if carry { 0 } else { 1 };
            low = (u128::MAX - sum) + 1;
        }
    }
    assert(high * 0x1_0000_0000_0000_0000_0000_0000_0000_0000nat + low == signed_value(left)
        - signed_value(right) + 0x2_0000_0000_0000_0000_0000_0000_0000_0000nat);
    // Taking 2^128 off and cutting to 129 bits turns bit 128 over.
    let top: u64 = if high == 0 || high == 2 { 1 } else { 0 };
    let r: Words = [
        (low % 0x1_0000_0000_0000_0000u128) as u64,
        (low / 0x1_0000_0000_0000_0000u128) as u64,
        top,
        0,
    ];
    assert(words_value(r) == low + top * 0x1_0000_0000_0000_0000_0000_0000_0000_0000nat);
    r
}

/// The auxiliary variables `base .. base + n` hold the bits `bits[0 .. n]`.
pub open spec fn holds_bits(aux: Seq<nat>, base: nat, bits: Seq<bool>, n: nat) -> bool {
    &&& n <= bits.len()
    &&& base + n <= aux.len()
    &&& base + n <= usize::MAX
    &&& forall|i: int| 0 <= i < n ==> aux[base + i] == bit(#[trigger] bits[i])
}

/// A linear combination of one unit term has the value of its variable.
pub proof fn lemma_unit_value(v: Variable, inputs: Seq<nat>, aux: Seq<nat>)
    ensures
        lc_value(unit(v), inputs, aux) == variable_value(v, inputs, aux),
{
    let s = unit(v);
    assert(s.drop_last() =~= Seq::<TermView>::empty());
    assert(lc_value(s.drop_last(), inputs, aux) == 0);
    assert(s.last().coefficient == 1);
    assert(s.last().variable == v);
    assert(1 * variable_value(v, inputs, aux) == variable_value(v, inputs, aux));
}

/// Where the auxiliary variables hold the bits, the weighted sum behind any
/// linear combination adds the integer that the bits hold.
pub proof fn lemma_weighted_sum(
    head: Seq<TermView>,
    base: nat,
    n: nat,
    inputs: Seq<nat>,
    aux: Seq<nat>,
    bits: Seq<bool>,
)
    requires
        holds_bits(aux, base, bits, n),
    ensures
        lc_value(head + weighted_bits(base, n), inputs, aux) == lc_value(head, inputs, aux)
            + bits_value(bits.take(n as int)),
    decreases n,
{
    if n == 0 {
        assert(head + weighted_bits(base, 0) =~= head);
        assert(bits.take(0) =~= Seq::<bool>::empty());
    } else {
        let m = (n - 1) as nat;
        lemma_weighted_sum(head, base, m, inputs, aux, bits);
        let s = head + weighted_bits(base, n);
        assert(s.drop_last() =~= head + weighted_bits(base, m));
        assert(s.last() == weighted_bits(base, n)[m as int]);
        assert(s.last().variable == Variable::Aux((base + m) as usize));
        assert(s.last().coefficient == pow2(m));
        assert(variable_value(s.last().variable, inputs, aux) == bit(bits[m as int]));
        assert(bits.take(n as int).drop_last() =~= bits.take(m as int));
        assert(bits.take(n as int).last() == bits[m as int]);
    }
}

/// Where the auxiliary variables hold the bits, the constraints of a bit
/// decomposition say that `value` and `head` plus the integer of the bits
/// are equal in the field.
pub proof fn lemma_unpack(
    value: Seq<TermView>,
    head: Seq<TermView>,
    base: nat,
    n: nat,
    inputs: Seq<nat>,
    aux: Seq<nat>,
    bits: Seq<bool>,
)
    requires
        bits.len() == n,
        holds_bits(aux, base, bits, n),
    ensures
        satisfied(unpack_shape(value, head, base, n), inputs, aux) <==> lc_value(value, inputs, aux)
            % modulus() == (lc_value(head, inputs, aux) + bits_value(bits)) % modulus(),
{
    let shape = unpack_shape(value, head, base, n);
    let sum = shape[n as int];
    // The boolean constraints hold of bits.
    assert forall|i: int| 0 <= i < n implies constraint_holds(#[trigger] shape[i], inputs, aux) by {
        let v = Variable::Aux((base + i) as usize);
        assert(shape[i] == boolean_constraint(v));
        lemma_unit_value(v, inputs, aux);
        let b = variable_value(v, inputs, aux);
        assert(b == bit(bits[i]));
        assert(b * b == b) by (nonlinear_arith)
            requires
                b == 0 || b == 1,
        ;
    }
    // The sum constraint is the equation.
    lemma_unit_value(Variable::One, inputs, aux);
    lemma_weighted_sum(head, base, n, inputs, aux, bits);
    assert(bits.take(n as int) =~= bits);
    let a = lc_value(value, inputs, aux);
    assert(a * 1 == a) by (nonlinear_arith);
    assert(constraint_holds(sum, inputs, aux) <==> a % modulus() == (lc_value(head, inputs, aux)
        + bits_value(bits)) % modulus());
    if constraint_holds(sum, inputs, aux) {
        assert forall|i: int| 0 <= i < shape.len() implies constraint_holds(
            #[trigger] shape[i],
            inputs,
            aux,
        ) by {
            if i < n {
            } else {
            }
        }
    }
}

/// Where the auxiliary variables hold the bits, the number they decompose
/// has the integer of the bits as its value.
pub proof fn lemma_bits_sum(base: nat, n: nat, inputs: Seq<nat>, aux: Seq<nat>, bits: Seq<bool>)
    requires
        bits.len() == n,
        holds_bits(aux, base, bits, n),
    ensures
        lc_value(weighted_bits(base, n), inputs, aux) == bits_value(bits),
{
    let none = Seq::<TermView>::empty();
    lemma_weighted_sum(none, base, n, inputs, aux, bits);
    assert(none + weighted_bits(base, n) =~= weighted_bits(base, n));
    assert(bits.take(n as int) =~= bits);
}

/// The comparison constraints say `lv >= rv`. The assignment is the honest
/// one: the operands hold the residues of two integers, `+M` and `-M` hold
/// the offset and its inverse, and the bits of the difference are those of
/// `lv - rv + M`, which lies below the modulus.
pub proof fn lemma_compare(
    left: nat,
    right: nat,
    plus: nat,
    minus: nat,
    base: nat,
    inputs: Seq<nat>,
    aux: Seq<nat>,
    bits: Seq<bool>,
    lv: int,
    rv: int,
)
    requires
        bits.len() == DIFFERENCE_BITS,
        holds_bits(aux, base, bits, DIFFERENCE_BITS as nat),
        lc_value(operand(left), inputs, aux) == residue(lv),
        lc_value(operand(right), inputs, aux) == residue(rv),
        lc_value(operand(plus), inputs, aux) == pow2(OFFSET_BITS as nat),
        lc_value(operand(minus), inputs, aux) == modulus() - pow2(OFFSET_BITS as nat),
        bits_value(bits) == lv - rv + pow2(OFFSET_BITS as nat),
    ensures
        satisfied(compare_shape(left, right, plus, minus, base), inputs, aux) <==> lv >= rv,
{
    let value = operand(left) + operand(plus);
    let unpack = unpack_shape(value, operand(right), base, DIFFERENCE_BITS as nat);
    let back = back_constraint(left, right, minus, base);
    let last = top_constraint(base, OFFSET_BITS as nat);
    let top = Variable::Aux((base + OFFSET_BITS) as usize);
    let q = modulus() as int;
    let m = pow2(OFFSET_BITS as nat) as int;
    lemma_pow2_values();
    lemma_satisfied_push(unpack, back, inputs, aux);
    lemma_satisfied_push(unpack.push(back), last, inputs, aux);
    lemma_unit_value(Variable::One, inputs, aux);
    // The decomposition holds: both sides are congruent to lv + M.
    lemma_unpack(value, operand(right), base, DIFFERENCE_BITS as nat, inputs, aux, bits);
    lemma_lc_concat(operand(left), operand(plus), inputs, aux);
    assert((residue(lv) + m) % q == (residue(rv) + (lv - rv + m)) % q) by {
        lemma_residue_sum(lv, m);
        lemma_residue_sum(rv, lv - rv + m);
    }
    assert(satisfied(unpack, inputs, aux));
    // The way back holds: difference + (-M) + right is congruent to lv.
    assert(constraint_holds(back, inputs, aux)) by {
        let difference = weighted_bits(base, DIFFERENCE_BITS as nat);
        lemma_bits_sum(base, DIFFERENCE_BITS as nat, inputs, aux, bits);
        lemma_lc_concat(difference, operand(minus), inputs, aux);
        lemma_lc_concat(difference + operand(minus), operand(right), inputs, aux);
        let a = lc_value(back.a, inputs, aux) as int;
        assert(a == (lv - rv + m) + (q - m) + residue(rv));
        assert(a * 1 == a) by (nonlinear_arith);
        lemma_residue_sum(rv, lv - rv + q);
        assert((lv + q) % q == lv % q) by {
            vstd::arithmetic::div_mod::lemma_mod_add_multiples_vanish(lv, q);
        }
        vstd::arithmetic::div_mod::lemma_mod_twice(lv, q);
    }
    // The top constraint holds exactly when the top bit is set.
    lemma_unit_value(top, inputs, aux);
    lemma_top_bit(bits);
    let t = variable_value(top, inputs, aux);
    assert(t == bit(bits[OFFSET_BITS as int]));
    assert(t * 1 == t) by (nonlinear_arith);
    assert(constraint_holds(last, inputs, aux) <==> bits.last());
}

/// Adding to a residue is adding to the integer, up to the modulus.
pub proof fn lemma_residue_sum(v: int, d: int)
    ensures
        (residue(v) + d) % (modulus() as int) == (v + d) % (modulus() as int),
{
    vstd::arithmetic::div_mod::lemma_add_mod_noop(v, d, modulus() as int);
    vstd::arithmetic::div_mod::lemma_add_mod_noop(residue(v) as int, d, modulus() as int);
    vstd::arithmetic::div_mod::lemma_mod_twice(v, modulus() as int);
}

/// Appends to `lc` the terms `2^i` times auxiliary variable `base + i`, for
/// `i` below `n`.
pub fn push_weighted_bits(lc: &mut Vec<Term>, base: usize, n: usize)
    requires
        n <= 256,
        base + n <= usize::MAX,
    ensures
        terms_view(final(lc)@) == terms_view(old(lc)@) + weighted_bits(base as nat, n as nat),
{
    let ghost head = terms_view(lc@);
    let mut j: usize = 0;
    assert(terms_view(lc@) =~= head + weighted_bits(base as nat, 0));
    while j < n
        invariant
            j <= n,
            n <= 256,
            base + n <= usize::MAX,
            terms_view(lc@) == head + weighted_bits(base as nat, j as nat),
        decreases n - j,
    {
        let ghost prev = lc@;
        lc.push(Term { variable: Variable::Aux(base + j), coefficient: power_of_two(j) });
        assert(terms_view(lc@) =~= terms_view(prev).push(
            TermView { variable: Variable::Aux((base + j) as usize), coefficient: pow2(j as nat) },
        ));
        assert(terms_view(lc@) =~= head + weighted_bits(base as nat, (j + 1) as nat));
        j = j + 1;
    }
}

/// Appends the constraints of a bit decomposition to `out`: of `value` less
/// `head`, into the auxiliary variables `base .. base + n`.
pub fn unpack_constraints(
    value: Vec<Term>,
    head: Vec<Term>,
    base: usize,
    n: usize,
    out: &mut Vec<Constraint>,
)
    requires
        n <= 256,
        base + n <= usize::MAX,
    ensures
        constraints_view(final(out)@) == constraints_view(old(out)@) + unpack_shape(
            terms_view(value@),
            terms_view(head@),
            base as nat,
            n as nat,
        ),
{
    let ghost before = constraints_view(out@);
    let ghost head_view = terms_view(head@);
    let one: Words = [1, 0, 0, 0];
    let mut i: usize = 0;
    assert(constraints_view(out@) =~= before + Seq::new(
        0,
        |j: int| boolean_constraint(Variable::Aux((base + j) as usize)),
    ));
    while i < n
        invariant
            i <= n,
            n <= 256,
            base + n <= usize::MAX,
            words_value(one) == 1,
            constraints_view(out@) == before + Seq::new(
                i as nat,
                |j: int| boolean_constraint(Variable::Aux((base + j) as usize)),
            ),
        decreases n - i,
    {
        let v = Variable::Aux(base + i);
        let ghost prev = out@;
        out.push(Constraint { a: single(v, one), b: single(v, one), c: single(v, one) });
        assert(out@.last()@ == boolean_constraint(v));
        assert(constraints_view(out@) =~= constraints_view(prev).push(boolean_constraint(v)));
        assert(constraints_view(out@) =~= before + Seq::new(
            (i + 1) as nat,
            |j: int| boolean_constraint(Variable::Aux((base + j) as usize)),
        ));
        i = i + 1;
    }
    let mut c: Vec<Term> = head;
    push_weighted_bits(&mut c, base, n);
    let ghost value_view = terms_view(value@);
    let sum = Constraint { a: value, b: single(Variable::One, one), c };
    let ghost prev = out@;
    out.push(sum);
    assert(constraints_view(out@) =~= constraints_view(prev).push(
        ConstraintView {
            a: value_view,
            b: unit(Variable::One),
            c: head_view + weighted_bits(base as nat, n as nat),
        },
    ));
}

/// Appends the constraints of one comparison to `out`: of the numbers
/// decomposed at `left` and `right`, with `+M` and `-M` decomposed at `plus`
/// and `minus`, into the difference bits from `base` on. What is appended
/// depends on these places alone, not on any assignment.
pub fn compare_constraints(
    left: usize,
    right: usize,
    plus: usize,
    minus: usize,
    base: usize,
    out: &mut Vec<Constraint>,
)
    requires
        left + 256 <= usize::MAX,
        right + 256 <= usize::MAX,
        plus + 256 <= usize::MAX,
        minus + 256 <= usize::MAX,
        base + 129 <= usize::MAX,
    ensures
        constraints_view(final(out)@) == constraints_view(old(out)@) + compare_shape(
            left as nat,
            right as nat,
            plus as nat,
            minus as nat,
            base as nat,
        ),
{
    let ghost before = constraints_view(out@);
    let ghost none = Seq::<TermView>::empty();
    let one: Words = [1, 0, 0, 0];
    let mut value: Vec<Term> = Vec::new();
    assert(terms_view(value@) =~= none);
    push_weighted_bits(&mut value, left, OPERAND_BITS);
    push_weighted_bits(&mut value, plus, OPERAND_BITS);
    assert(terms_view(value@) =~= operand(left as nat) + operand(plus as nat));
    let mut head: Vec<Term> = Vec::new();
    assert(terms_view(head@) =~= none);
    push_weighted_bits(&mut head, right, OPERAND_BITS);
    assert(terms_view(head@) =~= operand(right as nat));
    unpack_constraints(value, head, base, DIFFERENCE_BITS, out);
    let mut a: Vec<Term> = Vec::new();
    assert(terms_view(a@) =~= none);
    push_weighted_bits(&mut a, base, DIFFERENCE_BITS);
    push_weighted_bits(&mut a, minus, OPERAND_BITS);
    push_weighted_bits(&mut a, right, OPERAND_BITS);
    let mut c: Vec<Term> = Vec::new();
    assert(terms_view(c@) =~= none);
    push_weighted_bits(&mut c, left, OPERAND_BITS);
    let back = Constraint { a, b: single(Variable::One, one), c };
    assert(back@.a =~= back_constraint(left as nat, right as nat, minus as nat, base as nat).a);
    assert(back@.c =~= operand(left as nat));
    assert(back@ == back_constraint(left as nat, right as nat, minus as nat, base as nat));
    let top = Constraint {
        a: single(Variable::Aux(base + OFFSET_BITS), one),
        b: single(Variable::One, one),
        c: single(Variable::One, one),
    };
    assert(top@ == top_constraint(base as nat, OFFSET_BITS as nat));
    let ghost prev = out@;
    out.push(back);
    out.push(top);
    assert(constraints_view(out@) =~= constraints_view(prev).push(back@).push(top@));
    assert(constraints_view(out@) =~= before + compare_shape(
        left as nat,
        right as nat,
        plus as nat,
        minus as nat,
        base as nat,
    ));
}

/// The variable of a unit combination exists where the variable does.
pub proof fn lemma_unit_in_scope(v: Variable, num_inputs: nat, num_aux: nat)
    requires
        in_scope(v, num_inputs, num_aux),
    ensures
        lc_in_scope(unit(v), num_inputs, num_aux),
{
    assert(unit(v)[0].variable == v);
}

/// The variables of weighted bits exist where the bits lie among the
/// auxiliary variables.
pub proof fn lemma_weighted_in_scope(base: nat, n: nat, num_inputs: nat, num_aux: nat)
    requires
        base + n <= num_aux,
        num_aux <= usize::MAX,
    ensures
        lc_in_scope(weighted_bits(base, n), num_inputs, num_aux),
{
    let w = weighted_bits(base, n);
    assert forall|i: int| 0 <= i < w.len() implies in_scope(
        #[trigger] w[i].variable,
        num_inputs,
        num_aux,
    ) by {
        assert(w[i].variable == Variable::Aux((base + i) as usize));
    }
}

/// The variables of a bit decomposition exist where those of its value and
/// head do and the bits lie among the auxiliary variables.
pub proof fn lemma_unpack_in_scope(
    value: Seq<TermView>,
    head: Seq<TermView>,
    base: nat,
    n: nat,
    num_inputs: nat,
    num_aux: nat,
)
    requires
        lc_in_scope(value, num_inputs, num_aux),
        lc_in_scope(head, num_inputs, num_aux),
        base + n <= num_aux,
        num_aux <= usize::MAX,
    ensures
        system_in_scope(unpack_shape(value, head, base, n), num_inputs, num_aux),
{
    let shape = unpack_shape(value, head, base, n);
    lemma_unit_in_scope(Variable::One, num_inputs, num_aux);
    lemma_weighted_in_scope(base, n, num_inputs, num_aux);
    lemma_lc_in_scope_concat(head, weighted_bits(base, n), num_inputs, num_aux);
    assert forall|i: int| 0 <= i < shape.len() implies constraint_in_scope(
        #[trigger] shape[i],
        num_inputs,
        num_aux,
    ) by {
        if i < n {
            let v = Variable::Aux((base + i) as usize);
            assert(shape[i] == boolean_constraint(v));
            lemma_unit_in_scope(v, num_inputs, num_aux);
        }
    }
}

/// The variables of a comparison exist where the bits of its operands, of
/// the offsets and of the difference lie among the auxiliary variables.
pub proof fn lemma_compare_in_scope(
    left: nat,
    right: nat,
    plus: nat,
    minus: nat,
    base: nat,
    num_inputs: nat,
    num_aux: nat,
)
    requires
        left + OPERAND_BITS <= num_aux,
        right + OPERAND_BITS <= num_aux,
        plus + OPERAND_BITS <= num_aux,
        minus + OPERAND_BITS <= num_aux,
        base + DIFFERENCE_BITS <= num_aux,
        num_aux <= usize::MAX,
    ensures
        system_in_scope(compare_shape(left, right, plus, minus, base), num_inputs, num_aux),
{
    let value = operand(left) + operand(plus);
    let unpack = unpack_shape(value, operand(right), base, DIFFERENCE_BITS as nat);
    let back = back_constraint(left, right, minus, base);
    let last = top_constraint(base, OFFSET_BITS as nat);
    let difference = weighted_bits(base, DIFFERENCE_BITS as nat);
    lemma_weighted_in_scope(left, OPERAND_BITS as nat, num_inputs, num_aux);
    lemma_weighted_in_scope(right, OPERAND_BITS as nat, num_inputs, num_aux);
    lemma_weighted_in_scope(plus, OPERAND_BITS as nat, num_inputs, num_aux);
    lemma_weighted_in_scope(minus, OPERAND_BITS as nat, num_inputs, num_aux);
    lemma_weighted_in_scope(base, DIFFERENCE_BITS as nat, num_inputs, num_aux);
    lemma_lc_in_scope_concat(operand(left), operand(plus), num_inputs, num_aux);
    lemma_unpack_in_scope(value, operand(right), base, DIFFERENCE_BITS as nat, num_inputs, num_aux);
    lemma_lc_in_scope_concat(difference, operand(minus), num_inputs, num_aux);
    lemma_lc_in_scope_concat(difference + operand(minus), operand(right), num_inputs, num_aux);
    lemma_unit_in_scope(Variable::One, num_inputs, num_aux);
    lemma_unit_in_scope(Variable::Aux((base + OFFSET_BITS) as usize), num_inputs, num_aux);
    lemma_in_scope_push(unpack, back, num_inputs, num_aux);
    lemma_in_scope_push(unpack.push(back), last, num_inputs, num_aux);
}

} // verus!
