use ready_set_boole::ast::{build_ast, Ast};
use ready_set_boole::evaluate::{eval_step, try_eval_formula};
use ready_set_boole::{Expression, LogicError, LogicalSymbol};

#[test]
fn from_char_reads_the_grammar() {
    assert_eq!(LogicalSymbol::from_char('0'), Some(LogicalSymbol::False));
    assert_eq!(LogicalSymbol::from_char('1'), Some(LogicalSymbol::True));
    assert_eq!(LogicalSymbol::from_char('!'), Some(LogicalSymbol::Negation));
    assert_eq!(LogicalSymbol::from_char('&'), Some(LogicalSymbol::Conjunction));
    assert_eq!(LogicalSymbol::from_char('|'), Some(LogicalSymbol::Disjunction));
    assert_eq!(LogicalSymbol::from_char('^'), Some(LogicalSymbol::ExclusiveOr));
    assert_eq!(LogicalSymbol::from_char('>'), Some(LogicalSymbol::Implication));
    assert_eq!(LogicalSymbol::from_char('='), Some(LogicalSymbol::Equivalence));
    assert_eq!(LogicalSymbol::from_char('A'), Some(LogicalSymbol::Variable('A')));
    assert_eq!(LogicalSymbol::from_char('z'), Some(LogicalSymbol::Variable('z')));
    assert_eq!(LogicalSymbol::from_char('Ω'), Some(LogicalSymbol::Variable('Ω')));
}

#[test]
fn from_char_refuses_the_rest() {
    for c in ['2', '9', ' ', '<', '+', '(', '_', '\n', '💝'] {
        assert_eq!(LogicalSymbol::from_char(c), None);
    }
}

#[test]
fn from_char_agrees_with_the_alphabetic_property() {
    for code in 0u32..0x3000 {
        if let Some(c) = char::from_u32(code) {
            let glyph = "01!&|^>=".contains(c);
            let symbol = LogicalSymbol::from_char(c);
            if glyph {
                assert!(symbol.is_some());
                assert!(!symbol.unwrap().is_variable());
            } else if c.is_alphabetic() {
                assert_eq!(symbol, Some(LogicalSymbol::Variable(c)));
            } else {
                assert_eq!(symbol, None);
            }
        }
    }
}

#[test]
fn classify_takes_the_answer_as_given() {
    assert_eq!(LogicalSymbol::classify('A', true), Some(LogicalSymbol::Variable('A')));
    assert_eq!(LogicalSymbol::classify('A', false), None);
    assert_eq!(LogicalSymbol::classify('%', true), Some(LogicalSymbol::Variable('%')));
    assert_eq!(LogicalSymbol::classify('&', true), Some(LogicalSymbol::Conjunction));
    assert_eq!(LogicalSymbol::classify('&', false), Some(LogicalSymbol::Conjunction));
    assert_eq!(LogicalSymbol::classify('0', true), Some(LogicalSymbol::False));
}

#[test]
fn to_unicode_is_the_inverse_of_from_char() {
    for c in "01!&|^>=AbZ".chars() {
        assert_eq!(LogicalSymbol::from_char(c).unwrap().to_unicode(), c);
    }
}

#[test]
fn operands_and_operators() {
    assert!(LogicalSymbol::True.is_operand());
    assert!(LogicalSymbol::False.is_operand());
    assert!(LogicalSymbol::Variable('A').is_operand());
    assert!(LogicalSymbol::Variable('A').is_variable());
    assert!(!LogicalSymbol::True.is_variable());
    assert!(!LogicalSymbol::Variable('A').is_operator());
    for symbol in [
        LogicalSymbol::Negation,
        LogicalSymbol::Conjunction,
        LogicalSymbol::Disjunction,
        LogicalSymbol::ExclusiveOr,
        LogicalSymbol::Implication,
        LogicalSymbol::Equivalence,
    ] {
        assert!(symbol.is_operator());
        assert!(!symbol.is_operand());
        assert!(!symbol.is_variable());
    }
}

#[test]
fn ast_wraps_the_parsed_formula() {
    let ast = Ast::from_formula("AB>C^").unwrap();
    let root = Expression::from_formula("AB>C^").unwrap();
    assert_eq!(ast.root.as_deref(), Some(&root));
    assert_eq!(ast.to_rpn(), "AB>C^");
    assert_eq!(ast.variables(), vec!['A', 'B', 'C']);
    assert!(ast.evaluate(&root, &vec!['C']) == false);
    assert!(ast.evaluate(&root, &vec!['A', 'C']));
    let copy = ast.clone();
    assert_eq!(copy.root, ast.root);
    assert_eq!(Ast::new(root.clone()).root.as_deref(), Some(&root));
}

#[test]
fn ast_may_be_empty() {
    let empty = Ast { root: None };
    assert_eq!(empty.to_rpn(), "");
    assert_eq!(empty.variables(), vec![]);
}

#[test]
fn build_ast_surfaces_parse_errors() {
    assert_eq!(build_ast("").err(), Some(LogicError::IncompleteFormula { expected: 1, actual: 0 }));
    assert_eq!(build_ast("!").err(), Some(LogicError::MissingOperand('!')));
    assert_eq!(Ast::from_formula("a b").err(), Some(LogicError::UnrecognizedSymbol(' ')));
}

#[test]
fn try_eval_formula_gives_value_or_error() {
    assert_eq!(try_eval_formula("10&1|"), Ok(true));
    assert_eq!(try_eval_formula("10>"), Ok(false));
    assert_eq!(try_eval_formula("01>"), Ok(true));
    assert_eq!(try_eval_formula("11^"), Ok(false));
    assert_eq!(try_eval_formula("1!0="), Ok(true));
    assert_eq!(try_eval_formula("|"), Err(LogicError::MissingOperand('|')));
    assert_eq!(try_eval_formula("1&"), Err(LogicError::MissingOperand('&')));
    assert_eq!(try_eval_formula("!"), Err(LogicError::MissingOperand('!')));
    assert_eq!(
        try_eval_formula("10"),
        Err(LogicError::IncompleteFormula { expected: 1, actual: 2 })
    );
    assert_eq!(try_eval_formula(""), Err(LogicError::IncompleteFormula { expected: 1, actual: 0 }));
    assert_eq!(try_eval_formula("10x"), Err(LogicError::UnrecognizedSymbol('x')));
    assert_eq!(try_eval_formula("A"), Err(LogicError::UnrecognizedSymbol('A')));
}

#[test]
fn try_eval_formula_agrees_with_the_tree() {
    for formula in ["1", "0", "10&", "10|1^", "10>0=!", "11&0|1>0^"] {
        let e = Expression::from_formula(formula).unwrap();
        assert!(e.variables().is_empty());
        assert_eq!(try_eval_formula(formula), Ok(e.evaluate(&vec![])));
        assert_eq!(try_eval_formula(formula), Ok(e.evaluate(&vec!['A'])));
    }
}

#[test]
fn eval_step_applies_one_character() {
    let mut stack = vec![true, false, true];
    assert_eq!(eval_step(&mut stack, '>'), Ok(()));
    assert_eq!(stack, vec![true, true]);
    assert_eq!(eval_step(&mut stack, '!'), Ok(()));
    assert_eq!(stack, vec![true, false]);
    assert_eq!(eval_step(&mut stack, '&'), Ok(()));
    assert_eq!(stack, vec![false]);
    assert_eq!(eval_step(&mut stack, '|'), Err(LogicError::MissingOperand('|')));
    assert_eq!(stack, vec![false]);
    assert_eq!(eval_step(&mut stack, 'B'), Err(LogicError::UnrecognizedSymbol('B')));
}
