use crate::error::LogicError;
use crate::expression::Expression;
use crate::parser::{parse_spec, pop_from_stack, scan_spec};
use vstd::prelude::*;

verus! {

broadcast use vstd::string::group_string_axioms;

/// The stack of truth values after one character of a formula of constants:
/// a constant is pushed, an operator replaces its operands (the topmost is
/// the right one) by its value.
pub open spec fn eval_step_spec(stack: Seq<bool>, c: char) -> Result<Seq<bool>, LogicError> {
    let n = stack.len() as int;
    let left = stack[n - 2];
    let right = stack[n - 1];
    let rest = stack.take(n - 2);
    if c == '1' {
        Ok(stack.push(true))
    } else if c == '0' {
        Ok(stack.push(false))
    } else if c == '!' {
        if n < 1 {
            Err(LogicError::MissingOperand(c))
        } else {
            Ok(stack.take(n - 1).push(!right))
        }
    } else if c == '&' || c == '|' || c == '^' || c == '>' || c == '=' {
        if n < 2 {
            Err(LogicError::MissingOperand(c))
        } else if c == '&' {
            Ok(rest.push(left && right))
        } else if c == '|' {
            Ok(rest.push(left || right))
        } else if c == '^' {
            Ok(rest.push(left != right))
        } else if c == '>' {
            Ok(rest.push(left ==> right))
        } else {
            Ok(rest.push(left == right))
        }
    } else {
        Err(LogicError::UnrecognizedSymbol(c))
    }
}

/// The stack after a left-to-right scan of a formula of constants, or the
/// error of the first character that fails.
pub open spec fn eval_scan_spec(formula: Seq<char>) -> Result<Seq<bool>, LogicError>
    decreases formula.len(),
{
    if formula.len() == 0 {
        Ok(Seq::empty())
    } else {
        match eval_scan_spec(formula.drop_last()) {
            Err(e) => Err(e),
            Ok(stack) => eval_step_spec(stack, formula.last()),
        }
    }
}

/// The value of a formula of constants: the one value that the scan leaves.
pub open spec fn eval_spec(formula: Seq<char>) -> Result<bool, LogicError> {
    match eval_scan_spec(formula) {
        Err(e) => Err(e),
        Ok(stack) => if stack.len() == 1 {
            Ok(stack[0])
        } else {
            Err(LogicError::IncompleteFormula { expected: 1, actual: stack.len() as usize })
        },
    }
}

/// A scan goes on by one character: the stack after a formula and one more
/// character is the stack after the formula with that character applied.
pub proof fn lemma_eval_scan_push(formula: Seq<char>, c: char)
    ensures
        eval_scan_spec(formula.push(c)) == match eval_scan_spec(formula) {
            Err(e) => Err(e),
            Ok(stack) => eval_step_spec(stack, c),
        },
{
    assert(formula.push(c).drop_last() == formula);
}

/// A scan that has failed stays failed.
pub proof fn lemma_eval_error_stays(formula: Seq<char>, n: int)
    requires
        0 <= n <= formula.len(),
        eval_scan_spec(formula.take(n)) is Err,
    ensures
        eval_scan_spec(formula) == eval_scan_spec(formula.take(n)),
    decreases formula.len() - n,
{
    if n == formula.len() {
        assert(formula.take(n) == formula);
    } else {
        assert(formula.take(n + 1).drop_last() == formula.take(n));
        lemma_eval_error_stays(formula, n + 1);
    }
}

/// Whether the formulas are constant and have the given values: none holds a
/// variable, and each has its value under every assignment.
pub open spec fn have_values(formulas: Seq<Expression>, values: Seq<bool>) -> bool {
    &&& formulas.len() == values.len()
    &&& forall|i: int|
        0 <= i < formulas.len() ==> (#[trigger] formulas[i]).vars() == Set::<char>::empty()
    &&& forall|i: int, truths: Set<char>|
        0 <= i < formulas.len() ==> #[trigger] formulas[i].holds(truths) == values[i]
}

/// A formula of constants that scans also scans as an expression, and the
/// truth values on the stack are the values of the expressions.
pub proof fn lemma_eval_scan_agrees(formula: Seq<char>)
    requires
        eval_scan_spec(formula) is Ok,
    ensures
        scan_spec(formula) is Ok,
        have_values(scan_spec(formula)->Ok_0, eval_scan_spec(formula)->Ok_0),
    decreases formula.len(),
{
    if formula.len() > 0 {
        lemma_eval_scan_agrees(formula.drop_last());
        let before = scan_spec(formula.drop_last())->Ok_0;
        let after = scan_spec(formula)->Ok_0;
        let old_values = eval_scan_spec(formula.drop_last())->Ok_0;
        let values = eval_scan_spec(formula)->Ok_0;
        let n = before.len() as int;
        let m = after.len() as int;
        let c = formula.last();
        assert(have_values(before, old_values));
        assert(values.len() == m);
        assert forall|i: int| 0 <= i < m - 1 implies after[i] == before[i] && values[i]
            == old_values[i] by {}
        if c == '1' || c == '0' {
            assert(after.last().vars() == Set::<char>::empty());
            assert(forall|truths: Set<char>| #[trigger]
                after.last().holds(truths) == values.last());
        } else if c == '!' {
            let top = before[n - 1];
            assert(top.vars() == Set::<char>::empty());
            assert(after.last() == Expression::Neg(Box::new(top)));
            assert forall|truths: Set<char>| #[trigger]
                after.last().holds(truths) == values.last() by {
                assert(top.holds(truths) == old_values[n - 1]);
            }
        } else {
            let right = before[n - 1];
            let left = before[n - 2];
            assert(right.vars() == Set::<char>::empty());
            assert(left.vars() == Set::<char>::empty());
            assert(after.last().vars() =~= Set::<char>::empty());
            assert forall|truths: Set<char>| #[trigger]
                after.last().holds(truths) == values.last() by {
                assert(right.holds(truths) == old_values[n - 1]);
                assert(left.holds(truths) == old_values[n - 2]);
            }
        }
        assert forall|i: int| 0 <= i < m implies (#[trigger] after[i]).vars() == Set::<
            char,
        >::empty() by {
            if i < m - 1 {
                assert(after[i] == before[i]);
            } else {
                assert(after[i] == after.last());
            }
        }
        assert forall|i: int, truths: Set<char>| 0 <= i < m implies #[trigger] after[i].holds(
            truths,
        ) == values[i] by {
            if i < m - 1 {
                assert(after[i] == before[i]);
                assert(before[i].holds(truths) == old_values[i]);
            } else {
                assert(after[i] == after.last());
                assert(values[i] == values.last());
                assert(after.last().holds(truths) == values.last());
            }
        }
    }
}

/// The evaluator agrees with the parser: a formula of constants that has a
/// value parses to an expression without variables that has this value under
/// every assignment.
pub proof fn lemma_eval_agrees_with_parse(formula: Seq<char>)
    requires
        eval_spec(formula) is Ok,
    ensures
        parse_spec(formula) is Ok,
        parse_spec(formula)->Ok_0.vars() == Set::<char>::empty(),
        forall|truths: Set<char>| #[trigger]
            parse_spec(formula)->Ok_0.holds(truths) == eval_spec(formula)->Ok_0,
{
    lemma_eval_scan_agrees(formula);
}

/// Applies one character to the stack of truth values. On an error the
/// stack is left as it was.
pub fn eval_step(stack: &mut Vec<bool>, c: char) -> (r: Result<(), LogicError>)
    ensures
        match eval_step_spec(old(stack)@, c) {
            Ok(next) => r is Ok && final(stack)@ == next,
            Err(e) => r == Err::<(), LogicError>(e) && final(stack)@ == old(stack)@,
        },
{
    match c {
        '1' => stack.push(true),
        '0' => stack.push(false),
        '!' => {
            let val = pop_from_stack(stack, c)?;
            stack.push(!val);
        },
        '&' | '|' | '^' | '>' | '=' => {
            if stack.len() < 2 {
                return Err(LogicError::MissingOperand(c));
            }
            let right = pop_from_stack(stack, c)?;
            let left = pop_from_stack(stack, c)?;
            let value = match c {
                '&' => left && right,
                '|' => left || right,
                '^' => left != right,
                '>' => !left || right,
                _ => left == right,
            };
            stack.push(value);
        },
        _ => {
            return Err(LogicError::UnrecognizedSymbol(c));
        },
    }
    Ok(())
}

/// Evaluates a formula of constants in reverse-Polish notation.
pub fn try_eval_formula(formula: &str) -> (r: Result<bool, LogicError>)
    ensures
        r == eval_spec(formula@),
{
    let mut stack: Vec<bool> = Vec::new();
    assert(formula@.take(0) == Seq::<char>::empty());
    for c in it: formula.chars()
        invariant
            eval_scan_spec(formula@.take(it.index() as int)) == Ok::<Seq<bool>, LogicError>(
                stack@,
            ),
            it.seq() == formula@,
    {
        let ghost n = it.index() as int;
        proof {
            assert(formula@.take(n + 1).drop_last() == formula@.take(n));
            assert(formula@.take(n + 1).last() == c);
        }
        match eval_step(&mut stack, c) {
            Err(e) => {
                proof {
                    lemma_eval_error_stays(formula@, n + 1);
                }
                return Err(e);
            },
            Ok(()) => {},
        }
    }
    assert(formula@.take(formula@.len() as int) == formula@);
    if stack.len() != 1 {
        return Err(LogicError::IncompleteFormula { expected: 1, actual: stack.len() });
    }
    match stack.pop() {
        Some(value) => Ok(value),
        None => Err(LogicError::IncompleteFormula { expected: 1, actual: 0 }),
    }
}

/// Evaluates a formula of constants in reverse-Polish notation; `false`
/// where the formula is not one.
pub fn eval_formula(formula: &str) -> (b: bool)
    ensures
        b == match eval_spec(formula@) {
            Ok(value) => value,
            Err(_) => false,
        },
{
    match try_eval_formula(formula) {
        Ok(value) => value,
        Err(_) => false,
    }
}

} // verus!
