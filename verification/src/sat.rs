use crate::error::LogicError;
use crate::expression::{lemma_sorted_vars, Expression};
use crate::parser::parse_spec;
use crate::truth_table::{
    assignment, first_row, lemma_holds_on_vars, lemma_number_bound, lemma_row_of_assignment,
    lemma_row_of_number, next_row, number, picked, row_bits, true_variables,
};
use vstd::arithmetic::power2::pow2;
use vstd::prelude::*;

verus! {

/// Whether some assignment over the variables of the formula makes it true.
pub open spec fn satisfiable(e: Expression) -> bool {
    exists|truths: Set<char>| truths.subset_of(e.vars()) && #[trigger] e.holds(truths)
}

/// A formula that any assignment at all makes true is satisfiable:
/// the variables that do not occur in it make no difference.
pub proof fn lemma_satisfiable_by_any(e: Expression, truths: Set<char>)
    requires
        e.holds(truths),
    ensures
        satisfiable(e),
{
    let within = truths.intersect(e.vars());
    lemma_holds_on_vars(e, truths, within);
    assert(within.subset_of(e.vars()) && e.holds(within));
}

/// A formula is satisfiable where one of the numbered assignments over its
/// sorted variables makes it true, and only there.
pub proof fn lemma_satisfiable_by_row(e: Expression)
    ensures
        satisfiable(e) <==> exists|i: nat|
            i < pow2(e.sorted_vars().len()) && e.holds(#[trigger] assignment(e.sorted_vars(), i)),
{
    let vars = e.sorted_vars();
    lemma_sorted_vars(e);
    if satisfiable(e) {
        let truths = choose|truths: Set<char>| truths.subset_of(e.vars()) && #[trigger] e.holds(
            truths,
        );
        let i = lemma_row_of_assignment(e, vars, truths);
        assert(i < pow2(vars.len()) && e.holds(assignment(vars, i)));
    }
    if exists|i: nat| i < pow2(vars.len()) && e.holds(#[trigger] assignment(vars, i)) {
        let i = choose|i: nat| i < pow2(vars.len()) && e.holds(#[trigger] assignment(vars, i));
        lemma_satisfiable_by_any(e, assignment(vars, i));
    }
}

/// Whether the assignment with the number `i` is the first, in the order of
/// the numbers, that makes the formula true.
pub open spec fn is_first_model(e: Expression, i: nat) -> bool {
    &&& i < pow2(e.sorted_vars().len())
    &&& e.holds(assignment(e.sorted_vars(), i))
    &&& forall|k: nat| k < i ==> !e.holds(#[trigger] assignment(e.sorted_vars(), k))
}

impl Expression {
    /// The variables that are true in the first assignment that makes the
    /// formula true, or `None` where no assignment does. The assignments
    /// over the variables of the formula are tried in the order of their
    /// numbers.
    pub fn first_model(&self) -> (r: Option<Vec<char>>)
        ensures
            match r {
                Some(values) => exists|i: nat|
                    is_first_model(*self, i) && values@ == #[trigger] picked(
                        self.sorted_vars(),
                        row_bits(self.sorted_vars().len(), i),
                    ),
                None => !satisfiable(*self),
            },
    {
        let vars = self.variables();
        let mut bits = first_row(vars.len());
        loop
            invariant
                vars@ == self.sorted_vars(),
                vars@.to_set() == self.vars(),
                bits@.len() == vars@.len(),
                forall|k: nat| k < number(bits@) ==> !self.holds(#[trigger] assignment(vars@, k)),
            decreases pow2(vars@.len()) - number(bits@),
        {
            proof {
                lemma_row_of_number(bits@);
                lemma_number_bound(bits@);
            }
            let values = true_variables(&vars, &bits);
            if self.evaluate(&values) {
                assert(is_first_model(*self, number(bits@)));
                assert(values@ == picked(vars@, row_bits(vars@.len(), number(bits@))));
                return Some(values);
            }
            if !next_row(&mut bits) {
                proof {
                    assert forall|truths: Set<char>| !self.holds(truths) by {
                        let i = lemma_row_of_assignment(*self, vars@, truths);
                    }
                }
                return None;
            }
        }
    }

    /// Whether the formula is satisfiable.
    pub fn is_satisfiable(&self) -> (b: bool)
        ensures
            b == satisfiable(*self),
    {
        match self.first_model() {
            Some(values) => {
                proof {
                    let i = choose|i: nat| is_first_model(*self, i);
                    lemma_satisfiable_by_any(*self, assignment(self.sorted_vars(), i));
                }
                true
            },
            None => false,
        }
    }
}

/// Whether a formula in reverse-Polish notation is satisfiable, or the error
/// of the parser.
pub fn try_sat(formula: &str) -> (r: Result<bool, LogicError>)
    ensures
        r == match parse_spec(formula@) {
            Ok(e) => Ok::<bool, LogicError>(satisfiable(e)),
            Err(err) => Err(err),
        },
{
    match Expression::from_formula(formula) {
        Ok(expression) => Ok(expression.is_satisfiable()),
        Err(err) => Err(err),
    }
}

/// Whether a formula in reverse-Polish notation is satisfiable; `false`
/// where the formula does not parse.
pub fn sat(formula: &str) -> (b: bool)
    ensures
        b == match parse_spec(formula@) {
            Ok(e) => satisfiable(e),
            Err(_) => false,
        },
{
    match try_sat(formula) {
        Ok(b) => b,
        Err(_) => false,
    }
}

} // verus!
