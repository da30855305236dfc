//! Rank-1 constraint systems as plain data: variables, linear combinations,
//! constraints of the form `a * b = c`, and what it means for an assignment to
//! satisfy them.

use crate::field::{modulus, words_value, Words};
use vstd::prelude::*;

verus! {

/// A variable of a constraint system: the constant one, a public input or an
/// auxiliary (private) variable, each kind counted from zero.
#[derive(Clone, Copy, Debug, PartialEq, Eq, Structural)]
pub enum Variable {
    One,
    Input(usize),
    Aux(usize),
}

/// One summand of a linear combination: a coefficient times a variable.
#[derive(Clone, Copy, Debug)]
pub struct Term {
    pub variable: Variable,
    pub coefficient: Words,
}

/// A term with its coefficient as an integer.
pub struct TermView {
    pub variable: Variable,
    pub coefficient: nat,
}

impl View for Term {
    type V = TermView;

    open spec fn view(&self) -> TermView {
        TermView { variable: self.variable, coefficient: words_value(self.coefficient) }
    }
}

/// The constraint `a * b = c` over three linear combinations.
#[derive(Debug)]
pub struct Constraint {
    pub a: Vec<Term>,
    pub b: Vec<Term>,
    pub c: Vec<Term>,
}

/// A constraint with its coefficients as integers.
pub struct ConstraintView {
    pub a: Seq<TermView>,
    pub b: Seq<TermView>,
    pub c: Seq<TermView>,
}

/// The terms of a linear combination with their coefficients as integers.
pub open spec fn terms_view(lc: Seq<Term>) -> Seq<TermView> {
    Seq::new(lc.len(), |i: int| lc[i]@)
}

impl View for Constraint {
    type V = ConstraintView;

    open spec fn view(&self) -> ConstraintView {
        ConstraintView { a: terms_view(self.a@), b: terms_view(self.b@), c: terms_view(self.c@) }
    }
}

/// The constraints of a system with their coefficients as integers.
pub open spec fn constraints_view(cs: Seq<Constraint>) -> Seq<ConstraintView> {
    Seq::new(cs.len(), |i: int| cs[i]@)
}

/// The values of the public inputs and of the auxiliary variables, as field
/// words.
#[derive(Debug)]
pub struct Assignment {
    pub inputs: Vec<Words>,
    pub aux: Vec<Words>,
}

/// The integers that a sequence of field words holds.
pub open spec fn values(ws: Seq<Words>) -> Seq<nat> {
    Seq::new(ws.len(), |i: int| words_value(ws[i]))
}

/// The value of a variable under an assignment; a variable outside the
/// assignment counts as zero.
pub open spec fn variable_value(v: Variable, inputs: Seq<nat>, aux: Seq<nat>) -> nat {
    match v {
        Variable::One => 1,
        Variable::Input(i) => if i < inputs.len() {
            inputs[i as int]
        } else {
            0
        },
        Variable::Aux(i) => if i < aux.len() {
            aux[i as int]
        } else {
            0
        },
    }
}

/// The value of a linear combination: the sum of coefficient times variable.
pub open spec fn lc_value(lc: Seq<TermView>, inputs: Seq<nat>, aux: Seq<nat>) -> nat
    decreases lc.len(),
{
    if lc.len() == 0 {
        0
    } else {
        lc_value(lc.drop_last(), inputs, aux) + lc.last().coefficient * variable_value(
            lc.last().variable,
            inputs,
            aux,
        )
    }
}

/// `a * b = c` in the field.
pub open spec fn constraint_holds(c: ConstraintView, inputs: Seq<nat>, aux: Seq<nat>) -> bool {
    (lc_value(c.a, inputs, aux) * lc_value(c.b, inputs, aux)) % modulus() == lc_value(
        c.c,
        inputs,
        aux,
    ) % modulus()
}

/// Every constraint holds.
pub open spec fn satisfied(cs: Seq<ConstraintView>, inputs: Seq<nat>, aux: Seq<nat>) -> bool {
    forall|i: int| 0 <= i < cs.len() ==> constraint_holds(#[trigger] cs[i], inputs, aux)
}

/// The variable exists in a system with that many inputs and auxiliaries.
pub open spec fn in_scope(v: Variable, num_inputs: nat, num_aux: nat) -> bool {
    match v {
        Variable::One => true,
        Variable::Input(i) => i < num_inputs,
        Variable::Aux(i) => i < num_aux,
    }
}

/// Every variable of the linear combination exists.
pub open spec fn lc_in_scope(lc: Seq<TermView>, num_inputs: nat, num_aux: nat) -> bool {
    forall|i: int| 0 <= i < lc.len() ==> in_scope(#[trigger] lc[i].variable, num_inputs, num_aux)
}

/// Every variable of the constraint exists.
pub open spec fn constraint_in_scope(c: ConstraintView, num_inputs: nat, num_aux: nat) -> bool {
    &&& lc_in_scope(c.a, num_inputs, num_aux)
    &&& lc_in_scope(c.b, num_inputs, num_aux)
    &&& lc_in_scope(c.c, num_inputs, num_aux)
}

/// Every variable of every constraint exists.
pub open spec fn system_in_scope(cs: Seq<ConstraintView>, num_inputs: nat, num_aux: nat) -> bool {
    forall|i: int| 0 <= i < cs.len() ==> constraint_in_scope(#[trigger] cs[i], num_inputs, num_aux)
}

/// A linear combination of one term.
pub fn single(variable: Variable, coefficient: Words) -> (lc: Vec<Term>)
    ensures
        terms_view(lc@) == seq![(TermView { variable, coefficient: words_value(coefficient) })],
{
    let mut lc: Vec<Term> = Vec::new();
    lc.push(Term { variable, coefficient });
    assert(terms_view(lc@) =~= seq![TermView { variable, coefficient: words_value(coefficient) }]);
    lc
}

/// Two lists of constraints are satisfied together exactly when each is.
pub proof fn lemma_satisfied_concat(
    first: Seq<ConstraintView>,
    second: Seq<ConstraintView>,
    inputs: Seq<nat>,
    aux: Seq<nat>,
)
    ensures
        satisfied(first + second, inputs, aux) <==> satisfied(first, inputs, aux) && satisfied(
            second,
            inputs,
            aux,
        ),
{
    let both = first + second;
    if satisfied(both, inputs, aux) {
        assert forall|i: int| 0 <= i < first.len() implies constraint_holds(
            #[trigger] first[i],
            inputs,
            aux,
        ) by {
            assert(both[i] == first[i]);
        }
        assert forall|i: int| 0 <= i < second.len() implies constraint_holds(
            #[trigger] second[i],
            inputs,
            aux,
        ) by {
            assert(both[first.len() + i] == second[i]);
        }
    }
    if satisfied(first, inputs, aux) && satisfied(second, inputs, aux) {
        assert forall|i: int| 0 <= i < both.len() implies constraint_holds(
            #[trigger] both[i],
            inputs,
            aux,
        ) by {
            if i < first.len() {
                assert(both[i] == first[i]);
            } else {
                assert(both[i] == second[i - first.len()]);
            }
        }
    }
}

/// A list of constraints with one more is satisfied exactly when the list is
/// and the one holds.
pub proof fn lemma_satisfied_push(
    cs: Seq<ConstraintView>,
    c: ConstraintView,
    inputs: Seq<nat>,
    aux: Seq<nat>,
)
    ensures
        satisfied(cs.push(c), inputs, aux) <==> satisfied(cs, inputs, aux) && constraint_holds(
            c,
            inputs,
            aux,
        ),
{
    let one = seq![c];
    assert(cs.push(c) =~= cs + one);
    lemma_satisfied_concat(cs, one, inputs, aux);
    assert(one[0] == c);
}

/// The value of a linear combination of one term.
pub proof fn lemma_term_value(variable: Variable, coefficient: nat, inputs: Seq<nat>, aux: Seq<nat>)
    ensures
        lc_value(seq![(TermView { variable, coefficient })], inputs, aux) == coefficient
            * variable_value(variable, inputs, aux),
{
    let s = seq![(TermView { variable, coefficient })];
    assert(s.drop_last() =~= Seq::<TermView>::empty());
    assert(lc_value(s.drop_last(), inputs, aux) == 0);
    assert(s.last().coefficient == coefficient);
    assert(s.last().variable == variable);
}

/// The value of two linear combinations joined is the sum of their values.
pub proof fn lemma_lc_concat(x: Seq<TermView>, y: Seq<TermView>, inputs: Seq<nat>, aux: Seq<nat>)
    ensures
        lc_value(x + y, inputs, aux) == lc_value(x, inputs, aux) + lc_value(y, inputs, aux),
    decreases y.len(),
{
    if y.len() == 0 {
        assert(x + y =~= x);
    } else {
        lemma_lc_concat(x, y.drop_last(), inputs, aux);
        assert((x + y).drop_last() =~= x + y.drop_last());
        assert((x + y).last() == y.last());
    }
}

/// Two linear combinations whose variables exist, joined.
pub proof fn lemma_lc_in_scope_concat(
    x: Seq<TermView>,
    y: Seq<TermView>,
    num_inputs: nat,
    num_aux: nat,
)
    requires
        lc_in_scope(x, num_inputs, num_aux),
        lc_in_scope(y, num_inputs, num_aux),
    ensures
        lc_in_scope(x + y, num_inputs, num_aux),
{
    let both = x + y;
    assert forall|i: int| 0 <= i < both.len() implies in_scope(
        #[trigger] both[i].variable,
        num_inputs,
        num_aux,
    ) by {
        if i < x.len() {
            assert(both[i] == x[i]);
        } else {
            assert(both[i] == y[i - x.len()]);
        }
    }
}

/// Two lists of constraints whose variables exist, joined.
pub proof fn lemma_in_scope_concat(
    first: Seq<ConstraintView>,
    second: Seq<ConstraintView>,
    num_inputs: nat,
    num_aux: nat,
)
    requires
        system_in_scope(first, num_inputs, num_aux),
        system_in_scope(second, num_inputs, num_aux),
    ensures
        system_in_scope(first + second, num_inputs, num_aux),
{
    let both = first + second;
    assert forall|i: int| 0 <= i < both.len() implies constraint_in_scope(
        #[trigger] both[i],
        num_inputs,
        num_aux,
    ) by {
        if i < first.len() {
            assert(both[i] == first[i]);
        } else {
            assert(both[i] == second[i - first.len()]);
        }
    }
}

/// A list of constraints whose variables exist, with one more such.
pub proof fn lemma_in_scope_push(
    cs: Seq<ConstraintView>,
    c: ConstraintView,
    num_inputs: nat,
    num_aux: nat,
)
    requires
        system_in_scope(cs, num_inputs, num_aux),
        constraint_in_scope(c, num_inputs, num_aux),
    ensures
        system_in_scope(cs.push(c), num_inputs, num_aux),
{
    let one = seq![c];
    assert(cs.push(c) =~= cs + one);
    assert(one[0] == c);
    lemma_in_scope_concat(cs, one, num_inputs, num_aux);
}

} // verus!
