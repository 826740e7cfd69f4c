use crate::error::LogicError;
use crate::expression::Expression;
use crate::negation_normal_form::{
    and_of, is_leaf, is_nnf, lemma_nnf_equivalent, lemma_nnf_is_nnf, lemma_nnf_well_formed, nnf,
    normalize, or_of,
};
use crate::parser::{lemma_round_trip, parse_spec};
use vstd::prelude::*;

verus! {

/// Whether the formula is a constant, a variable or the negation of one.
pub open spec fn is_literal(e: Expression) -> bool {
    match e {
        Expression::Val(_) => true,
        Expression::Var(_) => true,
        Expression::Neg(c) => is_leaf(*c),
        _ => false,
    }
}

/// Whether the formula is a disjunction of literals, of any shape.
pub open spec fn is_clause(e: Expression) -> bool
    decreases e,
{
    match e {
        Expression::Or(l, r) => is_clause(*l) && is_clause(*r),
        _ => is_literal(e),
    }
}

/// Whether the formula is in conjunctive normal form: a conjunction, of any
/// shape, of clauses. No disjunction stands above a conjunction.
pub open spec fn is_cnf(e: Expression) -> bool
    decreases e,
{
    match e {
        Expression::And(l, r) => is_cnf(*l) && is_cnf(*r),
        _ => is_clause(e),
    }
}

/// Whether a conjunction occurs in the formula.
pub open spec fn holds_and(e: Expression) -> bool
    decreases e,
{
    match e {
        Expression::Val(_) => false,
        Expression::Var(_) => false,
        Expression::Neg(c) => holds_and(*c),
        Expression::And(_, _) => true,
        Expression::Or(l, r) => holds_and(*l) || holds_and(*r),
        Expression::Xor(l, r) => holds_and(*l) || holds_and(*r),
        Expression::Implication(l, r) => holds_and(*l) || holds_and(*r),
        Expression::Equivalence(l, r) => holds_and(*l) || holds_and(*r),
    }
}

/// Whether some disjunction of the formula has a conjunction below it.
pub open spec fn holds_and_under_or(e: Expression) -> bool
    decreases e,
{
    match e {
        Expression::Val(_) => false,
        Expression::Var(_) => false,
        Expression::Neg(c) => holds_and_under_or(*c),
        Expression::Or(l, r) => holds_and(*l) || holds_and(*r),
        Expression::And(l, r) => holds_and_under_or(*l) || holds_and_under_or(*r),
        Expression::Xor(l, r) => holds_and_under_or(*l) || holds_and_under_or(*r),
        Expression::Implication(l, r) => holds_and_under_or(*l) || holds_and_under_or(*r),
        Expression::Equivalence(l, r) => holds_and_under_or(*l) || holds_and_under_or(*r),
    }
}

/// In a conjunctive normal form no disjunction has a conjunction below it,
/// and a clause holds no conjunction at all.
pub proof fn lemma_cnf_has_no_and_under_or(e: Expression)
    requires
        is_cnf(e),
    ensures
        !holds_and_under_or(e),
        is_clause(e) ==> !holds_and(e),
    decreases e,
{
    match e {
        Expression::And(l, r) => {
            lemma_cnf_has_no_and_under_or(*l);
            lemma_cnf_has_no_and_under_or(*r);
        },
        Expression::Or(l, r) => {
            assert(is_clause(*l) && is_clause(*r));
            assert(is_cnf(*l) && is_cnf(*r));
            lemma_cnf_has_no_and_under_or(*l);
            lemma_cnf_has_no_and_under_or(*r);
        },
        Expression::Neg(c) => {
            assert(is_leaf(*c));
            assert(!holds_and(*c) && !holds_and_under_or(*c));
        },
        _ => {
            assert(is_literal(e));
        },
    }
}

/// The disjunction of `a` and `b` with the conjunctions moved above it:
/// `a | (b1 & b2)` becomes `(a | b1) & (a | b2)`, then `(a1 & a2) | b`
/// becomes `(a1 | b) & (a2 | b)`.
pub open spec fn distribute(a: Expression, b: Expression) -> Expression
    decreases b, a,
{
    match b {
        Expression::And(b1, b2) => and_of(distribute(a, *b1), distribute(a, *b2)),
        _ => match a {
            Expression::And(a1, a2) => and_of(distribute(*a1, b), distribute(*a2, b)),
            _ => or_of(a, b),
        },
    }
}

/// The conjunctive normal form of a formula in negation normal form. Other
/// formulas are left as they are.
pub open spec fn cnf(e: Expression) -> Expression
    decreases e,
{
    match e {
        Expression::And(a, b) => and_of(cnf(*a), cnf(*b)),
        Expression::Or(a, b) => distribute(cnf(*a), cnf(*b)),
        _ => e,
    }
}

/// Whether `e` belongs to a chain of conjunctions (`conj`) or of
/// disjunctions (not `conj`).
pub open spec fn is_link(e: Expression, conj: bool) -> bool {
    if conj {
        e is And
    } else {
        e is Or
    }
}

/// The operands of a chain of one operator, from left to right, each of
/// them flattened.
pub open spec fn operands(e: Expression, conj: bool) -> Seq<Expression>
    decreases e, (if is_link(e, conj) { 0int } else { 2int }),
{
    match e {
        Expression::And(a, b) => if conj {
            operands(*a, conj) + operands(*b, conj)
        } else {
            seq![flatten(e)]
        },
        Expression::Or(a, b) => if conj {
            seq![flatten(e)]
        } else {
            operands(*a, conj) + operands(*b, conj)
        },
        _ => seq![flatten(e)],
    }
}

/// The operands joined by one operator into a chain that leans to the right:
/// `a & (b & c)`.
pub open spec fn chain(items: Seq<Expression>, conj: bool) -> Expression
    decreases items.len(),
{
    if items.len() <= 1 {
        items[0]
    } else if conj {
        and_of(items[0], chain(items.drop_first(), conj))
    } else {
        or_of(items[0], chain(items.drop_first(), conj))
    }
}

/// The formula with every chain of conjunctions, and every chain of
/// disjunctions, leaning to the right.
pub open spec fn flatten(e: Expression) -> Expression
    decreases e, 1int,
{
    match e {
        Expression::And(_, _) => chain(operands(e, true), true),
        Expression::Or(_, _) => chain(operands(e, false), false),
        _ => e,
    }
}

/// Distribution keeps the meaning of the disjunction.
pub proof fn lemma_distribute_equivalent(a: Expression, b: Expression, truths: Set<char>)
    ensures
        distribute(a, b).holds(truths) == (a.holds(truths) || b.holds(truths)),
    decreases b, a,
{
    match b {
        Expression::And(b1, b2) => {
            lemma_distribute_equivalent(a, *b1, truths);
            lemma_distribute_equivalent(a, *b2, truths);
        },
        _ => match a {
            Expression::And(a1, a2) => {
                lemma_distribute_equivalent(*a1, b, truths);
                lemma_distribute_equivalent(*a2, b, truths);
            },
            _ => {},
        },
    }
}

/// Distribution of two conjunctive normal forms yields one.
pub proof fn lemma_distribute_is_cnf(a: Expression, b: Expression)
    requires
        is_cnf(a),
        is_cnf(b),
    ensures
        is_cnf(distribute(a, b)),
    decreases b, a,
{
    match b {
        Expression::And(b1, b2) => {
            lemma_distribute_is_cnf(a, *b1);
            lemma_distribute_is_cnf(a, *b2);
        },
        _ => match a {
            Expression::And(a1, a2) => {
                lemma_distribute_is_cnf(*a1, b);
                lemma_distribute_is_cnf(*a2, b);
            },
            _ => {},
        },
    }
}

/// The conversion of a negation normal form is a conjunctive normal form.
pub proof fn lemma_cnf_is_cnf(e: Expression)
    requires
        is_nnf(e),
    ensures
        is_cnf(cnf(e)),
    decreases e,
{
    match e {
        Expression::And(a, b) => {
            lemma_cnf_is_cnf(*a);
            lemma_cnf_is_cnf(*b);
        },
        Expression::Or(a, b) => {
            lemma_cnf_is_cnf(*a);
            lemma_cnf_is_cnf(*b);
            lemma_distribute_is_cnf(cnf(*a), cnf(*b));
        },
        _ => {},
    }
}

/// The conversion keeps the meaning under every assignment.
pub proof fn lemma_cnf_equivalent(e: Expression, truths: Set<char>)
    ensures
        cnf(e).holds(truths) == e.holds(truths),
    decreases e,
{
    match e {
        Expression::And(a, b) => {
            lemma_cnf_equivalent(*a, truths);
            lemma_cnf_equivalent(*b, truths);
        },
        Expression::Or(a, b) => {
            lemma_cnf_equivalent(*a, truths);
            lemma_cnf_equivalent(*b, truths);
            lemma_distribute_equivalent(cnf(*a), cnf(*b), truths);
        },
        _ => {},
    }
}

/// A conjunctive normal form is converted to itself.
pub proof fn lemma_cnf_fixed(e: Expression)
    requires
        is_cnf(e),
    ensures
        cnf(e) == e,
    decreases e,
{
    match e {
        Expression::And(a, b) => {
            lemma_cnf_fixed(*a);
            lemma_cnf_fixed(*b);
        },
        Expression::Or(a, b) => {
            assert(is_clause(*a) && is_clause(*b));
            lemma_cnf_fixed(*a);
            lemma_cnf_fixed(*b);
        },
        _ => {},
    }
}

/// The rewriting rule of the distributive law, as it is applied: where the
/// right side is a conjunction, `a | (b1 & b2)` is converted as
/// `(a | b1) & (a | b2)`; else where the left one is, `(a1 & a2) | b` as
/// `(a1 | b) & (a2 | b)`; else the disjunction stays.
pub proof fn lemma_cnf_distributes(a: Expression, b: Expression)
    requires
        is_cnf(a),
        is_cnf(b),
    ensures
        cnf(or_of(a, b)) == distribute(a, b),
        cnf(or_of(a, b)) == (match b {
            Expression::And(b1, b2) => and_of(cnf(or_of(a, *b1)), cnf(or_of(a, *b2))),
            _ => match a {
                Expression::And(a1, a2) => and_of(cnf(or_of(*a1, b)), cnf(or_of(*a2, b))),
                _ => or_of(a, b),
            },
        }),
{
    lemma_cnf_fixed(a);
    lemma_cnf_fixed(b);
    match b {
        Expression::And(b1, b2) => {
            lemma_cnf_fixed(*b1);
            lemma_cnf_fixed(*b2);
        },
        _ => match a {
            Expression::And(a1, a2) => {
                lemma_cnf_fixed(*a1);
                lemma_cnf_fixed(*a2);
            },
            _ => {},
        },
    }
}

/// Whether `expr` is a disjunction of literals.
pub fn is_in_clause(expr: &Expression) -> (b: bool)
    ensures
        b == is_clause(*expr),
    decreases *expr,
{
    match expr {
        Expression::Or(left, right) => is_in_clause(left) && is_in_clause(right),
        Expression::Val(_) | Expression::Var(_) => true,
        Expression::Neg(child) => matches!(**child, Expression::Val(_) | Expression::Var(_)),
        _ => false,
    }
}

/// Whether `expr` is in conjunctive normal form.
pub fn is_in_cnf(expr: &Expression) -> (b: bool)
    ensures
        b == is_cnf(*expr),
    decreases *expr,
{
    match expr {
        Expression::And(left, right) => is_in_cnf(left) && is_in_cnf(right),
        _ => is_in_clause(expr),
    }
}

/// Moves the conjunctions of two conjunctive normal forms above their
/// disjunction.
pub fn distribute_or(a: Expression, b: Expression) -> (r: Expression)
    ensures
        r == distribute(a, b),
    decreases b, a,
{
    match b {
        Expression::And(b1, b2) => {
            let left = distribute_or(a.clone(), *b1);
            let right = distribute_or(a, *b2);
            Expression::and(left, right)
        },
        b => match a {
            Expression::And(a1, a2) => {
                let left = distribute_or(*a1, b.clone());
                let right = distribute_or(*a2, b);
                Expression::and(left, right)
            },
            a => Expression::or(a, b),
        },
    }
}

/// Converts a formula in negation normal form into conjunctive normal form.
pub fn to_cnf(expr: &Expression) -> (r: Expression)
    requires
        is_nnf(*expr),
    ensures
        r == cnf(*expr),
        is_cnf(r),
        forall|truths: Set<char>| r.holds(truths) == expr.holds(truths),
    decreases *expr,
{
    proof {
        lemma_cnf_is_cnf(*expr);
        assert forall|truths: Set<char>| cnf(*expr).holds(truths) == expr.holds(truths) by {
            lemma_cnf_equivalent(*expr, truths);
        }
    }
    match expr {
        Expression::And(a, b) => Expression::and(to_cnf(a), to_cnf(b)),
        Expression::Or(a, b) => distribute_or(to_cnf(a), to_cnf(b)),
        _ => expr.clone(),
    }
}

/// Whether every chain in the formula leans to the right: no conjunction
/// is the left side of a conjunction, no disjunction that of a disjunction.
pub open spec fn is_flat(e: Expression) -> bool
    decreases e,
{
    match e {
        Expression::And(l, r) => !(*l is And) && is_flat(*l) && is_flat(*r),
        Expression::Or(l, r) => !(*l is Or) && is_flat(*l) && is_flat(*r),
        _ => true,
    }
}

/// A chain has at least one operand; one of two formulas has at least two.
pub proof fn lemma_operands_len(e: Expression, conj: bool)
    ensures
        operands(e, conj).len() >= 1,
        is_link(e, conj) ==> operands(e, conj).len() >= 2,
    decreases e,
{
    match e {
        Expression::And(a, b) | Expression::Or(a, b) => {
            lemma_operands_len(*a, conj);
            lemma_operands_len(*b, conj);
        },
        _ => {},
    }
}

/// The value of a chain built from two lists of operands is that of the
/// two chains joined.
pub proof fn lemma_chain_concat(
    x: Seq<Expression>,
    y: Seq<Expression>,
    conj: bool,
    truths: Set<char>,
)
    requires
        x.len() >= 1,
        y.len() >= 1,
    ensures
        chain(x + y, conj).holds(truths) == (if conj {
            chain(x, conj).holds(truths) && chain(y, conj).holds(truths)
        } else {
            chain(x, conj).holds(truths) || chain(y, conj).holds(truths)
        }),
    decreases x.len(),
{
    if x.len() == 1 {
        assert((x + y).drop_first() == y);
    } else {
        assert((x + y).drop_first() == x.drop_first() + y);
        lemma_chain_concat(x.drop_first(), y, conj, truths);
    }
}

/// The chain of a formula's operands has the value of the formula.
pub proof fn lemma_operands_equivalent(e: Expression, conj: bool, truths: Set<char>)
    ensures
        chain(operands(e, conj), conj).holds(truths) == e.holds(truths),
    decreases e, (if is_link(e, conj) { 0int } else { 2int }),
{
    if is_link(e, conj) {
        match e {
            Expression::And(a, b) | Expression::Or(a, b) => {
                lemma_operands_len(*a, conj);
                lemma_operands_len(*b, conj);
                lemma_operands_equivalent(*a, conj, truths);
                lemma_operands_equivalent(*b, conj, truths);
                lemma_chain_concat(operands(*a, conj), operands(*b, conj), conj, truths);
            },
            _ => {},
        }
    } else {
        lemma_flatten_equivalent(e, truths);
    }
}

/// Flattening keeps the meaning under every assignment.
pub proof fn lemma_flatten_equivalent(e: Expression, truths: Set<char>)
    ensures
        flatten(e).holds(truths) == e.holds(truths),
    decreases e, 1int,
{
    match e {
        Expression::And(_, _) => {
            lemma_operands_equivalent(e, true, truths);
        },
        Expression::Or(_, _) => {
            lemma_operands_equivalent(e, false, truths);
        },
        _ => {},
    }
}

/// Flattening keeps the operator at the root.
pub proof fn lemma_flatten_root(e: Expression)
    ensures
        flatten(e) is And <==> e is And,
        flatten(e) is Or <==> e is Or,
{
    lemma_operands_len(e, true);
    lemma_operands_len(e, false);
}

/// Whether each item is flat and none continues a chain of the operator.
pub open spec fn are_flat_operands(items: Seq<Expression>, conj: bool) -> bool {
    forall|i: int| 0 <= i < items.len() ==> is_flat(#[trigger] items[i]) && !is_link(items[i], conj)
}

/// A chain of flat operands is flat.
pub proof fn lemma_chain_is_flat(items: Seq<Expression>, conj: bool)
    requires
        items.len() >= 1,
        are_flat_operands(items, conj),
    ensures
        is_flat(chain(items, conj)),
    decreases items.len(),
{
    if items.len() > 1 {
        let rest = items.drop_first();
        assert forall|i: int| 0 <= i < rest.len() implies is_flat(#[trigger] rest[i]) && !is_link(
            rest[i],
            conj,
        ) by {
            assert(rest[i] == items[i + 1]);
        }
        lemma_chain_is_flat(rest, conj);
        assert(is_flat(items[0]) && !is_link(items[0], conj));
    } else {
        assert(is_flat(items[0]));
    }
}

/// The operands of a formula are flat, and none continues the chain.
pub proof fn lemma_operands_are_flat(e: Expression, conj: bool)
    ensures
        are_flat_operands(operands(e, conj), conj),
    decreases e, (if is_link(e, conj) { 0int } else { 2int }),
{
    if is_link(e, conj) {
        match e {
            Expression::And(a, b) | Expression::Or(a, b) => {
                lemma_operands_are_flat(*a, conj);
                lemma_operands_are_flat(*b, conj);
            },
            _ => {},
        }
    } else {
        lemma_flatten_is_flat(e);
        lemma_flatten_root(e);
    }
}

/// In a flattened formula every chain leans to the right.
pub proof fn lemma_flatten_is_flat(e: Expression)
    ensures
        is_flat(flatten(e)),
    decreases e, 1int,
{
    match e {
        Expression::And(_, _) => {
            lemma_operands_len(e, true);
            lemma_operands_are_flat(e, true);
            lemma_chain_is_flat(operands(e, true), true);
        },
        Expression::Or(_, _) => {
            lemma_operands_len(e, false);
            lemma_operands_are_flat(e, false);
            lemma_chain_is_flat(operands(e, false), false);
        },
        _ => {},
    }
}

/// Whether each item is a clause (`conj`) or a literal (not `conj`).
pub open spec fn are_normal_operands(items: Seq<Expression>, conj: bool) -> bool {
    forall|i: int|
        0 <= i < items.len() ==> if conj {
            is_clause(#[trigger] items[i])
        } else {
            is_literal(items[i])
        }
}

/// A conjunction of clauses is a conjunctive normal form, a disjunction of
/// literals a clause.
pub proof fn lemma_chain_is_normal(items: Seq<Expression>, conj: bool)
    requires
        items.len() >= 1,
        are_normal_operands(items, conj),
    ensures
        if conj {
            is_cnf(chain(items, conj))
        } else {
            is_clause(chain(items, conj))
        },
    decreases items.len(),
{
    assert(if conj {
        is_clause(items[0])
    } else {
        is_literal(items[0])
    });
    assert(if conj {
        is_cnf(items[0])
    } else {
        is_clause(items[0])
    });
    if items.len() > 1 {
        let rest = items.drop_first();
        assert forall|i: int| 0 <= i < rest.len() implies if conj {
            is_clause(#[trigger] rest[i])
        } else {
            is_literal(rest[i])
        } by {
            assert(rest[i] == items[i + 1]);
        }
        lemma_chain_is_normal(rest, conj);
    }
}

/// The operands of a clause are literals, those of a conjunctive normal form
/// are clauses.
pub proof fn lemma_operands_are_normal(e: Expression, conj: bool)
    requires
        if conj {
            is_cnf(e)
        } else {
            is_clause(e)
        },
    ensures
        are_normal_operands(operands(e, conj), conj),
    decreases e, (if is_link(e, conj) { 0int } else { 2int }),
{
    if is_link(e, conj) {
        match e {
            Expression::And(a, b) | Expression::Or(a, b) => {
                lemma_operands_are_normal(*a, conj);
                lemma_operands_are_normal(*b, conj);
            },
            _ => {},
        }
    } else {
        lemma_flatten_is_normal(e);
    }
}

/// Flattening keeps a clause a clause and a conjunctive normal form one.
pub proof fn lemma_flatten_is_normal(e: Expression)
    requires
        is_cnf(e),
    ensures
        is_cnf(flatten(e)),
        is_clause(e) ==> is_clause(flatten(e)),
    decreases e, 1int,
{
    match e {
        Expression::And(_, _) => {
            lemma_operands_len(e, true);
            lemma_operands_are_normal(e, true);
            lemma_chain_is_normal(operands(e, true), true);
        },
        Expression::Or(_, _) => {
            lemma_operands_len(e, false);
            lemma_operands_are_normal(e, false);
            lemma_chain_is_normal(operands(e, false), false);
        },
        _ => {},
    }
}

/// Appends the operands of a chain to `out`, from left to right, each of
/// them flattened.
pub fn collect_operands(expr: &Expression, out: &mut Vec<Expression>, is_and: bool)
    ensures
        final(out)@ == old(out)@ + operands(*expr, is_and),
    decreases *expr, (if is_link(*expr, is_and) { 0int } else { 2int }),
{
    match (expr, is_and) {
        (Expression::And(a, b), true) => {
            collect_operands(a, out, is_and);
            collect_operands(b, out, is_and);
            assert(out@ == old(out)@ + operands(*expr, is_and));
        },
        (Expression::Or(a, b), false) => {
            collect_operands(a, out, is_and);
            collect_operands(b, out, is_and);
            assert(out@ == old(out)@ + operands(*expr, is_and));
        },
        _ => {
            out.push(flatten_expression(expr));
            assert(out@ == old(out)@ + operands(*expr, is_and));
        },
    }
}

/// Joins the operands into a chain that leans to the right.
fn join_operands(items: Vec<Expression>, is_and: bool) -> (r: Expression)
    requires
        items@.len() >= 1,
    ensures
        r == chain(items@, is_and),
{
    let ghost all = items@;
    let mut items = items;
    let mut result = match items.pop() {
        Some(last) => last,
        None => Expression::Val(true),
    };
    assert(all.subrange(all.len() - 1, all.len() as int).drop_first().len() == 0);
    while items.len() > 0
        invariant
            items@.len() < all.len(),
            items@ == all.take(items@.len() as int),
            result == chain(all.subrange(items@.len() as int, all.len() as int), is_and),
        decreases items@.len(),
    {
        let ghost k = items@.len() as int;
        match items.pop() {
            Some(item) => {
                proof {
                    let tail = all.subrange(k - 1, all.len() as int);
                    assert(tail.drop_first() == all.subrange(k, all.len() as int));
                    assert(tail[0] == item);
                    assert(items@ == all.take(k - 1));
                }
                result = if is_and {
                    Expression::and(item, result)
                } else {
                    Expression::or(item, result)
                };
            },
            None => {},
        }
    }
    assert(all.subrange(0, all.len() as int) == all);
    result
}

/// Makes every chain of conjunctions and every chain of disjunctions lean to
/// the right, so that formulas with the same operands in the same order
/// become the same tree.
pub fn flatten_expression(expr: &Expression) -> (r: Expression)
    ensures
        r == flatten(*expr),
        is_flat(r),
        is_cnf(*expr) ==> is_cnf(r),
        forall|truths: Set<char>| r.holds(truths) == expr.holds(truths),
    decreases *expr, 1int,
{
    proof {
        lemma_flatten_is_flat(*expr);
        if is_cnf(*expr) {
            lemma_flatten_is_normal(*expr);
        }
        assert forall|truths: Set<char>| flatten(*expr).holds(truths) == expr.holds(truths) by {
            lemma_flatten_equivalent(*expr, truths);
        }
    }
    match expr {
        Expression::And(_, _) => {
            let mut items: Vec<Expression> = Vec::new();
            collect_operands(expr, &mut items, true);
            proof {
                lemma_operands_len(*expr, true);
            }
            join_operands(items, true)
        },
        Expression::Or(_, _) => {
            let mut items: Vec<Expression> = Vec::new();
            collect_operands(expr, &mut items, false);
            proof {
                lemma_operands_len(*expr, false);
            }
            join_operands(items, false)
        },
        _ => expr.clone(),
    }
}

/// The conjunctive normal form of any formula: its negation normal form,
/// converted and flattened.
pub open spec fn cnf_of(e: Expression) -> Expression {
    flatten(cnf(nnf(e)))
}

/// Distribution keeps formulas well formed.
pub proof fn lemma_distribute_well_formed(a: Expression, b: Expression)
    requires
        a.well_formed(),
        b.well_formed(),
    ensures
        distribute(a, b).well_formed(),
    decreases b, a,
{
    match b {
        Expression::And(b1, b2) => {
            lemma_distribute_well_formed(a, *b1);
            lemma_distribute_well_formed(a, *b2);
        },
        _ => match a {
            Expression::And(a1, a2) => {
                lemma_distribute_well_formed(*a1, b);
                lemma_distribute_well_formed(*a2, b);
            },
            _ => {},
        },
    }
}

/// The conversion keeps a formula well formed.
pub proof fn lemma_cnf_well_formed(e: Expression)
    requires
        e.well_formed(),
    ensures
        cnf(e).well_formed(),
    decreases e,
{
    match e {
        Expression::And(a, b) => {
            lemma_cnf_well_formed(*a);
            lemma_cnf_well_formed(*b);
        },
        Expression::Or(a, b) => {
            lemma_cnf_well_formed(*a);
            lemma_cnf_well_formed(*b);
            lemma_distribute_well_formed(cnf(*a), cnf(*b));
        },
        _ => {},
    }
}

/// Whether every item is well formed.
pub open spec fn are_well_formed(items: Seq<Expression>) -> bool {
    forall|i: int| 0 <= i < items.len() ==> (#[trigger] items[i]).well_formed()
}

/// A chain of well-formed operands is well formed.
pub proof fn lemma_chain_well_formed(items: Seq<Expression>, conj: bool)
    requires
        items.len() >= 1,
        are_well_formed(items),
    ensures
        chain(items, conj).well_formed(),
    decreases items.len(),
{
    assert(items[0].well_formed());
    if items.len() > 1 {
        let rest = items.drop_first();
        assert forall|i: int| 0 <= i < rest.len() implies (#[trigger] rest[i]).well_formed() by {
            assert(rest[i] == items[i + 1]);
        }
        lemma_chain_well_formed(rest, conj);
    }
}

/// The operands of a well-formed formula are well formed.
pub proof fn lemma_operands_well_formed(e: Expression, conj: bool)
    requires
        e.well_formed(),
    ensures
        are_well_formed(operands(e, conj)),
    decreases e, (if is_link(e, conj) { 0int } else { 2int }),
{
    if is_link(e, conj) {
        match e {
            Expression::And(a, b) | Expression::Or(a, b) => {
                lemma_operands_well_formed(*a, conj);
                lemma_operands_well_formed(*b, conj);
            },
            _ => {},
        }
    } else {
        lemma_flatten_well_formed(e);
    }
}

/// Flattening keeps a formula well formed.
pub proof fn lemma_flatten_well_formed(e: Expression)
    requires
        e.well_formed(),
    ensures
        flatten(e).well_formed(),
    decreases e, 1int,
{
    match e {
        Expression::And(_, _) => {
            lemma_operands_len(e, true);
            lemma_operands_well_formed(e, true);
            lemma_chain_well_formed(operands(e, true), true);
        },
        Expression::Or(_, _) => {
            lemma_operands_len(e, false);
            lemma_operands_well_formed(e, false);
            lemma_chain_well_formed(operands(e, false), false);
        },
        _ => {},
    }
}

/// The normal forms of a well-formed formula are well formed, so that
/// their notation parses to them again.
pub proof fn lemma_normal_forms_round_trip(e: Expression)
    requires
        e.well_formed(),
    ensures
        parse_spec(nnf(e).rpn()) == Ok::<Expression, LogicError>(nnf(e)),
        parse_spec(cnf_of(e).rpn()) == Ok::<Expression, LogicError>(cnf_of(e)),
{
    lemma_nnf_well_formed(e);
    lemma_cnf_well_formed(nnf(e));
    lemma_flatten_well_formed(cnf(nnf(e)));
    lemma_round_trip(nnf(e));
    lemma_round_trip(cnf_of(e));
}

/// The conjunctive normal form of every formula is a conjunction of
/// disjunctions of literals, with every chain leaning to the right.
pub proof fn lemma_cnf_of_is_cnf(e: Expression)
    ensures
        is_cnf(cnf(nnf(e))),
        is_cnf(cnf_of(e)),
        is_flat(cnf_of(e)),
{
    lemma_nnf_is_nnf(e);
    lemma_cnf_is_cnf(nnf(e));
    lemma_flatten_is_normal(cnf(nnf(e)));
    lemma_flatten_is_flat(cnf(nnf(e)));
}

/// The conjunctive normal form of a formula has the value of the formula
/// under every assignment.
pub proof fn lemma_cnf_of_equivalent(e: Expression, truths: Set<char>)
    ensures
        cnf(nnf(e)).holds(truths) == e.holds(truths),
        cnf_of(e).holds(truths) == e.holds(truths),
{
    lemma_nnf_equivalent(e, truths);
    lemma_cnf_equivalent(nnf(e), truths);
    lemma_flatten_equivalent(cnf(nnf(e)), truths);
}

impl Expression {
    /// The conjunctive normal form of the formula.
    pub fn to_conjunctive_normal_form(&self) -> (r: Expression)
        ensures
            r == cnf_of(*self),
            is_cnf(r),
            is_flat(r),
            forall|truths: Set<char>| r.holds(truths) == self.holds(truths),
    {
        proof {
            lemma_cnf_of_is_cnf(*self);
            assert forall|truths: Set<char>| cnf_of(*self).holds(truths) == self.holds(
                truths,
            ) by {
                lemma_cnf_of_equivalent(*self, truths);
            }
        }
        let nnf = normalize(self);
        let cnf = to_cnf(&nnf);
        flatten_expression(&cnf)
    }
}

/// The conjunctive normal form of a formula, in reverse-Polish notation, or
/// the error of the parser.
pub fn try_conjunctive_normal_form(formula: &str) -> (r: Result<String, LogicError>)
    ensures
        match parse_spec(formula@) {
            Ok(e) => r is Ok && r->Ok_0@ == cnf_of(e).rpn(),
            Err(err) => r == Err::<String, LogicError>(err),
        },
{
    match Expression::from_formula(formula) {
        Ok(expression) => Ok(expression.to_conjunctive_normal_form().to_rpn()),
        Err(err) => Err(err),
    }
}

/// The conjunctive normal form of a formula, in reverse-Polish notation; the
/// empty string where the formula does not parse.
pub fn conjunctive_normal_form(formula: &str) -> (s: String)
    ensures
        s@ == match parse_spec(formula@) {
            Ok(e) => cnf_of(e).rpn(),
            Err(_) => Seq::<char>::empty(),
        },
{
    match try_conjunctive_normal_form(formula) {
        Ok(s) => s,
        Err(_) => String::new(),
    }
}

} // verus!
