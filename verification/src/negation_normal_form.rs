use crate::error::LogicError;
use crate::expression::Expression;
use crate::parser::parse_spec;
use vstd::prelude::*;

verus! {

/// Whether the formula is a constant or a variable.
pub open spec fn is_leaf(e: Expression) -> bool {
    e is Val || e is Var
}

/// Whether the formula is in negation normal form: only constants, variables,
/// conjunctions and disjunctions, and negation directly above a leaf.
pub open spec fn is_nnf(e: Expression) -> bool
    decreases e,
{
    match e {
        Expression::Val(_) => true,
        Expression::Var(_) => true,
        Expression::Neg(c) => is_leaf(*c),
        Expression::And(l, r) => is_nnf(*l) && is_nnf(*r),
        Expression::Or(l, r) => is_nnf(*l) && is_nnf(*r),
        Expression::Xor(_, _) => false,
        Expression::Implication(_, _) => false,
        Expression::Equivalence(_, _) => false,
    }
}

/// The conjunction of `l` and `r`.
pub open spec fn and_of(l: Expression, r: Expression) -> Expression {
    Expression::And(Box::new(l), Box::new(r))
}

/// The disjunction of `l` and `r`.
pub open spec fn or_of(l: Expression, r: Expression) -> Expression {
    Expression::Or(Box::new(l), Box::new(r))
}

/// The negation normal form of `e`.
pub open spec fn nnf(e: Expression) -> Expression
    decreases e, 0int,
{
    match e {
        Expression::Val(b) => Expression::Val(b),
        Expression::Var(v) => Expression::Var(v),
        Expression::Neg(c) => negated(*c),
        Expression::And(a, b) => and_of(nnf(*a), nnf(*b)),
        Expression::Or(a, b) => or_of(nnf(*a), nnf(*b)),
        Expression::Xor(a, b) => or_of(and_of(nnf(*a), negated(*b)), and_of(negated(*a), nnf(*b))),
        Expression::Implication(a, b) => or_of(negated(*a), nnf(*b)),
        Expression::Equivalence(a, b) => and_of(
            or_of(negated(*a), nnf(*b)),
            or_of(negated(*b), nnf(*a)),
        ),
    }
}

/// The negation normal form of the negation of `e`.
pub open spec fn negated(e: Expression) -> Expression
    decreases e, 0int,
{
    match e {
        Expression::Val(b) => Expression::Val(!b),
        Expression::Var(v) => Expression::Neg(Box::new(Expression::Var(v))),
        Expression::Neg(c) => nnf(*c),
        Expression::And(a, b) => or_of(negated(*a), negated(*b)),
        Expression::Or(a, b) => and_of(negated(*a), negated(*b)),
        Expression::Xor(a, b) => or_of(and_of(nnf(*a), nnf(*b)), and_of(negated(*a), negated(*b))),
        Expression::Implication(a, b) => and_of(nnf(*a), negated(*b)),
        Expression::Equivalence(a, b) => or_of(
            and_of(nnf(*a), negated(*b)),
            and_of(negated(*a), nnf(*b)),
        ),
    }
}

/// The rewriting yields a negation normal form, of the formula and of its
/// negation alike.
pub proof fn lemma_nnf_is_nnf(e: Expression)
    ensures
        is_nnf(nnf(e)),
        is_nnf(negated(e)),
    decreases e,
{
    reveal_with_fuel(is_nnf, 3);
    match e {
        Expression::Val(_) => {},
        Expression::Var(_) => {},
        Expression::Neg(c) => {
            lemma_nnf_is_nnf(*c);
        },
        Expression::And(a, b)
        | Expression::Or(a, b)
        | Expression::Xor(a, b)
        | Expression::Implication(a, b)
        | Expression::Equivalence(a, b) => {
            lemma_nnf_is_nnf(*a);
            lemma_nnf_is_nnf(*b);
        },
    }
}

/// The rewriting keeps the meaning: under every assignment the normal form
/// has the value of the formula, and the negated form the opposite value.
pub proof fn lemma_nnf_equivalent(e: Expression, truths: Set<char>)
    ensures
        nnf(e).holds(truths) == e.holds(truths),
        negated(e).holds(truths) == !e.holds(truths),
    decreases e,
{
    reveal_with_fuel(Expression::holds, 3);
    match e {
        Expression::Val(_) => {},
        Expression::Var(_) => {},
        Expression::Neg(c) => {
            lemma_nnf_equivalent(*c, truths);
        },
        Expression::And(a, b)
        | Expression::Or(a, b)
        | Expression::Xor(a, b)
        | Expression::Implication(a, b)
        | Expression::Equivalence(a, b) => {
            lemma_nnf_equivalent(*a, truths);
            lemma_nnf_equivalent(*b, truths);
        },
    }
}

/// The rewriting introduces no variable and loses none.
pub proof fn lemma_nnf_vars(e: Expression)
    ensures
        nnf(e).vars() == e.vars(),
        negated(e).vars() == e.vars(),
    decreases e,
{
    reveal_with_fuel(Expression::vars, 3);
    match e {
        Expression::Val(_) => {},
        Expression::Var(_) => {},
        Expression::Neg(c) => {
            lemma_nnf_vars(*c);
        },
        Expression::And(a, b)
        | Expression::Or(a, b)
        | Expression::Xor(a, b)
        | Expression::Implication(a, b)
        | Expression::Equivalence(a, b) => {
            lemma_nnf_vars(*a);
            lemma_nnf_vars(*b);
            assert(nnf(e).vars() =~= e.vars());
            assert(negated(e).vars() =~= e.vars());
        },
    }
}

/// The rewriting keeps a formula well formed.
pub proof fn lemma_nnf_well_formed(e: Expression)
    requires
        e.well_formed(),
    ensures
        nnf(e).well_formed(),
        negated(e).well_formed(),
    decreases e,
{
    reveal_with_fuel(Expression::well_formed, 3);
    match e {
        Expression::Val(_) => {},
        Expression::Var(_) => {},
        Expression::Neg(c) => {
            lemma_nnf_well_formed(*c);
        },
        Expression::And(a, b)
        | Expression::Or(a, b)
        | Expression::Xor(a, b)
        | Expression::Implication(a, b)
        | Expression::Equivalence(a, b) => {
            lemma_nnf_well_formed(*a);
            lemma_nnf_well_formed(*b);
        },
    }
}

/// Whether `expr` is in negation normal form.
pub fn is_in_nnf(expr: &Expression) -> (b: bool)
    ensures
        b == is_nnf(*expr),
    decreases *expr,
{
    match expr {
        Expression::Val(_) | Expression::Var(_) => true,
        Expression::Neg(child) => matches!(**child, Expression::Val(_) | Expression::Var(_)),
        Expression::And(left, right) | Expression::Or(left, right) => is_in_nnf(left)
            && is_in_nnf(right),
        _ => false,
    }
}

/// Rewrites `expr` into negation normal form.
pub fn normalize(expr: &Expression) -> (r: Expression)
    ensures
        r == nnf(*expr),
        is_nnf(r),
        forall|truths: Set<char>| r.holds(truths) == expr.holds(truths),
    decreases *expr, 0int,
{
    proof {
        lemma_nnf_is_nnf(*expr);
        assert forall|truths: Set<char>| nnf(*expr).holds(truths) == expr.holds(truths) by {
            lemma_nnf_equivalent(*expr, truths);
        }
    }
    match expr {
        Expression::Val(b) => Expression::val(*b),
        Expression::Var(v) => Expression::var(*v),
        Expression::Neg(e) => negate(e),
        Expression::And(a, b) => Expression::and(normalize(a), normalize(b)),
        Expression::Or(a, b) => Expression::or(normalize(a), normalize(b)),
        Expression::Xor(a, b) => Expression::or(
            Expression::and(normalize(a), negate(b)),
            Expression::and(negate(a), normalize(b)),
        ),
        Expression::Implication(a, b) => Expression::or(negate(a), normalize(b)),
        Expression::Equivalence(a, b) => Expression::and(
            Expression::or(negate(a), normalize(b)),
            Expression::or(negate(b), normalize(a)),
        ),
    }
}

/// Rewrites the negation of `expr` into negation normal form.
pub fn negate(expr: &Expression) -> (r: Expression)
    ensures
        r == negated(*expr),
        is_nnf(r),
        forall|truths: Set<char>| r.holds(truths) == !expr.holds(truths),
    decreases *expr, 0int,
{
    proof {
        lemma_nnf_is_nnf(*expr);
        assert forall|truths: Set<char>| negated(*expr).holds(truths) == !expr.holds(truths) by {
            lemma_nnf_equivalent(*expr, truths);
        }
    }
    match expr {
        Expression::Val(x) => Expression::val(!*x),
        Expression::Var(x) => Expression::not(Expression::var(*x)),
        Expression::Neg(e) => normalize(e),
        Expression::And(a, b) => Expression::or(negate(a), negate(b)),
        Expression::Or(a, b) => Expression::and(negate(a), negate(b)),
        Expression::Xor(a, b) => Expression::or(
            Expression::and(normalize(a), normalize(b)),
            Expression::and(negate(a), negate(b)),
        ),
        Expression::Implication(a, b) => Expression::and(normalize(a), negate(b)),
        Expression::Equivalence(a, b) => Expression::or(
            Expression::and(normalize(a), negate(b)),
            Expression::and(negate(a), normalize(b)),
        ),
    }
}

/// The negation normal form of a formula, in reverse-Polish notation, or the
/// error of the parser.
pub fn try_negation_normal_form(formula: &str) -> (r: Result<String, LogicError>)
    ensures
        match parse_spec(formula@) {
            Ok(e) => r is Ok && r->Ok_0@ == nnf(e).rpn(),
            Err(err) => r == Err::<String, LogicError>(err),
        },
{
    match Expression::from_formula(formula) {
        Ok(expression) => Ok(normalize(&expression).to_rpn()),
        Err(err) => Err(err),
    }
}

/// The negation normal form of a formula, in reverse-Polish notation; the
/// empty string where the formula does not parse.
pub fn negation_normal_form(formula: &str) -> (s: String)
    ensures
        s@ == match parse_spec(formula@) {
            Ok(e) => nnf(e).rpn(),
            Err(_) => Seq::<char>::empty(),
        },
{
    match try_negation_normal_form(formula) {
        Ok(s) => s,
        Err(_) => String::new(),
    }
}

} // verus!
