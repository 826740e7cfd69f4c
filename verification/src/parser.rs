use crate::error::LogicError;
use crate::expression::Expression;
use crate::symbol::LogicalSymbol;
use vstd::prelude::*;

verus! {

broadcast use vstd::string::group_string_axioms;

/// The stack after one token has been applied to it: an operand is pushed, an
/// operator replaces its operands (the topmost is the right one) by the node
/// built from them.
pub open spec fn reduce_spec(stack: Seq<Expression>, symbol: LogicalSymbol) -> Result<
    Seq<Expression>,
    LogicError,
> {
    let n = stack.len() as int;
    let left = Box::new(stack[n - 2]);
    let right = Box::new(stack[n - 1]);
    let rest = stack.take(n - 2);
    match symbol {
        LogicalSymbol::False => Ok(stack.push(Expression::Val(false))),
        LogicalSymbol::True => Ok(stack.push(Expression::Val(true))),
        LogicalSymbol::Variable(c) => Ok(stack.push(Expression::Var(c))),
        LogicalSymbol::Negation => if n < 1 {
            Err(LogicError::MissingOperand('!'))
        } else {
            Ok(stack.take(n - 1).push(Expression::Neg(right)))
        },
        LogicalSymbol::Conjunction => if n < 2 {
            Err(LogicError::MissingOperand('&'))
        } else {
            Ok(rest.push(Expression::And(left, right)))
        },
        LogicalSymbol::Disjunction => if n < 2 {
            Err(LogicError::MissingOperand('|'))
        } else {
            Ok(rest.push(Expression::Or(left, right)))
        },
        LogicalSymbol::ExclusiveOr => if n < 2 {
            Err(LogicError::MissingOperand('^'))
        } else {
            Ok(rest.push(Expression::Xor(left, right)))
        },
        LogicalSymbol::Implication => if n < 2 {
            Err(LogicError::MissingOperand('>'))
        } else {
            Ok(rest.push(Expression::Implication(left, right)))
        },
        LogicalSymbol::Equivalence => if n < 2 {
            Err(LogicError::MissingOperand('='))
        } else {
            Ok(rest.push(Expression::Equivalence(left, right)))
        },
    }
}

/// The stack after one character of a formula.
pub open spec fn step_spec(stack: Seq<Expression>, c: char) -> Result<Seq<Expression>, LogicError> {
    match LogicalSymbol::from_char_spec(c) {
        None => Err(LogicError::UnrecognizedSymbol(c)),
        Some(symbol) => reduce_spec(stack, symbol),
    }
}

/// The stack after a left-to-right scan of `formula` from the empty stack, or
/// the error of the first character that fails.
pub open spec fn scan_spec(formula: Seq<char>) -> Result<Seq<Expression>, LogicError>
    decreases formula.len(),
{
    if formula.len() == 0 {
        Ok(Seq::empty())
    } else {
        match scan_spec(formula.drop_last()) {
            Err(e) => Err(e),
            Ok(stack) => step_spec(stack, formula.last()),
        }
    }
}

/// What a formula parses to: the one expression that the scan leaves.
pub open spec fn parse_spec(formula: Seq<char>) -> Result<Expression, LogicError> {
    match scan_spec(formula) {
        Err(e) => Err(e),
        Ok(stack) => if stack.len() == 1 {
            Ok(stack[0])
        } else {
            Err(LogicError::IncompleteFormula { expected: 1, actual: stack.len() as usize })
        },
    }
}

/// Takes the topmost item off the stack; `symbol` is the operator that asks
/// for it.
pub fn pop_from_stack<T>(stack: &mut Vec<T>, symbol: char) -> (r: Result<T, LogicError>)
    ensures
        match r {
            Ok(top) => old(stack)@.len() > 0 && top == old(stack)@.last() && final(stack)@ == old(
                stack,
            )@.drop_last(),
            Err(e) => old(stack)@.len() == 0 && final(stack)@ == old(stack)@ && e
                == LogicError::MissingOperand(symbol),
        },
{
    match stack.pop() {
        Some(top) => Ok(top),
        None => Err(LogicError::MissingOperand(symbol)),
    }
}

/// Replaces the two topmost items of the stack, the right operand above
/// the left one, by the node that a binary operator builds from them. With
/// fewer than two items the stack is left as it was.
fn handle_binary_op(stack: &mut Vec<Expression>, symbol: LogicalSymbol) -> (r: Result<
    (),
    LogicError,
>)
    requires
        symbol is Conjunction || symbol is Disjunction || symbol is ExclusiveOr
            || symbol is Implication || symbol is Equivalence,
    ensures
        match reduce_spec(old(stack)@, symbol) {
            Ok(next) => r is Ok && final(stack)@ == next,
            Err(e) => r == Err::<(), LogicError>(e) && final(stack)@ == old(stack)@,
        },
{
    let glyph = symbol.to_unicode();
    if stack.len() < 2 {
        return Err(LogicError::MissingOperand(glyph));
    }
    let right = Box::new(pop_from_stack(stack, glyph)?);
    let left = Box::new(pop_from_stack(stack, glyph)?);
    let node = match symbol {
        LogicalSymbol::Conjunction => Expression::And(left, right),
        LogicalSymbol::Disjunction => Expression::Or(left, right),
        LogicalSymbol::ExclusiveOr => Expression::Xor(left, right),
        LogicalSymbol::Implication => Expression::Implication(left, right),
        _ => Expression::Equivalence(left, right),
    };
    stack.push(node);
    Ok(())
}

/// Applies one token to the stack. On an error the stack is left as it was.
pub fn reduce(stack: &mut Vec<Expression>, symbol: LogicalSymbol) -> (r: Result<(), LogicError>)
    ensures
        match reduce_spec(old(stack)@, symbol) {
            Ok(next) => r is Ok && final(stack)@ == next,
            Err(e) => r == Err::<(), LogicError>(e) && final(stack)@ == old(stack)@,
        },
{
    match symbol {
        LogicalSymbol::False => stack.push(Expression::Val(false)),
        LogicalSymbol::True => stack.push(Expression::Val(true)),
        LogicalSymbol::Variable(c) => stack.push(Expression::Var(c)),
        LogicalSymbol::Negation => {
            let operand = pop_from_stack(stack, '!')?;
            stack.push(Expression::Neg(Box::new(operand)));
        },
        _ => {
            return handle_binary_op(stack, symbol);
        },
    }
    Ok(())
}

/// A scan goes on by one character: the stack after a formula and one more
/// character is the stack after the formula with that character applied.
pub proof fn lemma_scan_push(formula: Seq<char>, c: char)
    ensures
        scan_spec(formula.push(c)) == match scan_spec(formula) {
            Err(e) => Err(e),
            Ok(stack) => step_spec(stack, c),
        },
{
    assert(formula.push(c).drop_last() == formula);
}

/// A scan that has failed stays failed: the error of a prefix is the error of
/// the whole formula.
pub proof fn lemma_scan_error_stays(formula: Seq<char>, n: int)
    requires
        0 <= n <= formula.len(),
        scan_spec(formula.take(n)) is Err,
    ensures
        scan_spec(formula) == scan_spec(formula.take(n)),
    decreases formula.len() - n,
{
    if n == formula.len() {
        assert(formula.take(n) == formula);
    } else {
        assert(formula.take(n + 1).drop_last() == formula.take(n));
        lemma_scan_error_stays(formula, n + 1);
    }
}

/// Whether every formula on the stack is well formed.
pub open spec fn all_well_formed(stack: Seq<Expression>) -> bool {
    forall|i: int| 0 <= i < stack.len() ==> (#[trigger] stack[i]).well_formed()
}

/// The formulas of a stack in reverse-Polish notation, one after the other.
pub open spec fn rpn_of_stack(stack: Seq<Expression>) -> Seq<char>
    decreases stack.len(),
{
    if stack.len() == 0 {
        Seq::empty()
    } else {
        rpn_of_stack(stack.drop_last()) + stack.last().rpn()
    }
}

/// Reading the notation of a well-formed formula, after any text that scans,
/// puts that formula on the stack.
pub proof fn lemma_scan_rpn(prefix: Seq<char>, e: Expression)
    requires
        scan_spec(prefix) is Ok,
        e.well_formed(),
    ensures
        scan_spec(prefix + e.rpn()) == Ok::<Seq<Expression>, LogicError>(
            scan_spec(prefix)->Ok_0.push(e),
        ),
    decreases e,
{
    let stack = scan_spec(prefix)->Ok_0;
    let text = prefix + e.rpn();
    match e {
        Expression::Val(_) | Expression::Var(_) => {
            assert(text.drop_last() == prefix);
        },
        Expression::Neg(c) => {
            lemma_scan_rpn(prefix, *c);
            assert(text.drop_last() == prefix + c.rpn());
            assert(stack.push(*c).take(stack.len() as int) == stack);
        },
        Expression::And(l, r)
        | Expression::Or(l, r)
        | Expression::Xor(l, r)
        | Expression::Implication(l, r)
        | Expression::Equivalence(l, r) => {
            lemma_scan_rpn(prefix, *l);
            lemma_scan_rpn(prefix + l.rpn(), *r);
            assert(text.drop_last() == (prefix + l.rpn()) + r.rpn());
            assert(stack.push(*l).push(*r).take(stack.len() as int) == stack);
        },
    }
}

/// Parsing the notation of a well-formed formula gives the formula back.
pub proof fn lemma_round_trip(e: Expression)
    requires
        e.well_formed(),
    ensures
        parse_spec(e.rpn()) == Ok::<Expression, LogicError>(e),
{
    let empty = Seq::<char>::empty();
    assert(empty + e.rpn() == e.rpn());
    lemma_scan_rpn(empty, e);
}

/// What a scan leaves on the stack is well formed, and the scanned text is
/// the notation of the stack's formulas, one after the other.
pub proof fn lemma_scan_inverts_rpn(formula: Seq<char>)
    requires
        scan_spec(formula) is Ok,
    ensures
        all_well_formed(scan_spec(formula)->Ok_0),
        rpn_of_stack(scan_spec(formula)->Ok_0) == formula,
        scan_spec(formula)->Ok_0.len() <= formula.len(),
    decreases formula.len(),
{
    if formula.len() > 0 {
        let before = formula.drop_last();
        lemma_scan_inverts_rpn(before);
        let stack = scan_spec(before)->Ok_0;
        let after = scan_spec(formula)->Ok_0;
        let n = stack.len() as int;
        let c = formula.last();
        let symbol = LogicalSymbol::from_char_spec(c)->Some_0;
        assert(formula == before.push(c));
        assert(rpn_of_stack(after) == rpn_of_stack(after.drop_last()) + after.last().rpn());
        match symbol {
            LogicalSymbol::False | LogicalSymbol::True | LogicalSymbol::Variable(_) => {
                assert(after.drop_last() == stack);
                assert(after.last().rpn() == seq![c]);
                assert(before + seq![c] == formula);
            },
            LogicalSymbol::Negation => {
                let top = stack[n - 1];
                assert(after.drop_last() == stack.drop_last());
                assert(after.last().rpn() == top.rpn().push(c));
                assert(rpn_of_stack(stack.drop_last()) + top.rpn().push(c) == (rpn_of_stack(
                    stack.drop_last(),
                ) + top.rpn()).push(c));
            },
            _ => {
                let right = stack[n - 1];
                let left = stack[n - 2];
                let rest = stack.drop_last().drop_last();
                assert(after.drop_last() == rest);
                assert(stack.drop_last().last() == left);
                assert(after.last().rpn() == (left.rpn() + right.rpn()).push(c));
                assert(rpn_of_stack(stack.drop_last()) == rpn_of_stack(rest) + left.rpn());
                assert(rpn_of_stack(rest) + (left.rpn() + right.rpn()).push(c) == ((rpn_of_stack(
                    rest,
                ) + left.rpn()) + right.rpn()).push(c));
            },
        }
    }
}

/// A formula that parses is the notation of what it parses to, which is well
/// formed: the serializer is the inverse of the parser.
pub proof fn lemma_parse_inverts_rpn(formula: Seq<char>)
    requires
        parse_spec(formula) is Ok,
    ensures
        parse_spec(formula)->Ok_0.well_formed(),
        parse_spec(formula)->Ok_0.rpn() == formula,
        parse_spec(parse_spec(formula)->Ok_0.rpn()) == parse_spec(formula),
{
    lemma_scan_inverts_rpn(formula);
    let stack = scan_spec(formula)->Ok_0;
    assert(stack.drop_last().len() == 0);
    assert(rpn_of_stack(stack) == rpn_of_stack(stack.drop_last()) + stack.last().rpn());
    assert(Seq::<char>::empty() + stack[0].rpn() == stack[0].rpn());
}

/// The formulas that parse are the notations of the well-formed
/// expressions, and each parses to the expression it is the notation of.
pub proof fn lemma_parse_is_inverse_of_rpn(formula: Seq<char>, e: Expression)
    ensures
        parse_spec(formula) == Ok::<Expression, LogicError>(e) <==> e.well_formed() && e.rpn()
            == formula,
{
    if parse_spec(formula) == Ok::<Expression, LogicError>(e) {
        lemma_parse_inverts_rpn(formula);
    }
    if e.well_formed() && e.rpn() == formula {
        lemma_round_trip(e);
    }
}

impl Expression {
    /// Parses a formula in reverse-Polish notation.
    pub fn from_formula(formula: &str) -> (r: Result<Expression, LogicError>)
        ensures
            r == parse_spec(formula@),
            r matches Ok(e) ==> e.well_formed() && e.rpn() == formula@,
    {
        proof {
            if parse_spec(formula@) is Ok {
                lemma_parse_inverts_rpn(formula@);
            }
        }
        let mut stack: Vec<Expression> = Vec::new();
        assert(formula@.take(0) == Seq::<char>::empty());
        for c in it: formula.chars()
            invariant
                scan_spec(formula@.take(it.index() as int)) == Ok::<Seq<Expression>, LogicError>(
                    stack@,
                ),
                it.seq() == formula@,
        {
            let ghost n = it.index() as int;
            proof {
                assert(formula@.take(n + 1).drop_last() == formula@.take(n));
                assert(formula@.take(n + 1).last() == c);
            }
            match LogicalSymbol::from_char(c) {
                None => {
                    proof {
                        lemma_scan_error_stays(formula@, n + 1);
                    }
                    return Err(LogicError::UnrecognizedSymbol(c));
                },
                Some(symbol) => {
                    match reduce(&mut stack, symbol) {
                        Err(e) => {
                            proof {
                                lemma_scan_error_stays(formula@, n + 1);
                            }
                            return Err(e);
                        },
                        Ok(()) => {},
                    }
                },
            }
        }
        assert(formula@.take(formula@.len() as int) == formula@);
        if stack.len() != 1 {
            return Err(LogicError::IncompleteFormula { expected: 1, actual: stack.len() });
        }
        match stack.pop() {
            Some(root) => Ok(root),
            None => Err(LogicError::IncompleteFormula { expected: 1, actual: 0 }),
        }
    }
}

} // verus!
