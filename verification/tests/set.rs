use ready_set_boole::set::{
    complement, eval_set, has_duplicate, holds_value, intersection, powerset, set_step,
    try_eval_set, union, union_of_all, xunion,
};
use ready_set_boole::LogicError;

#[test]
fn powerset_lists_every_subset() {
    assert_eq!(powerset(vec![]), vec![vec![]]);
    assert_eq!(powerset(vec![7]), vec![vec![], vec![7]]);
    assert_eq!(
        powerset(vec![1, 2, 3]),
        vec![
            vec![],
            vec![1],
            vec![2],
            vec![1, 2],
            vec![3],
            vec![1, 3],
            vec![2, 3],
            vec![1, 2, 3],
        ]
    );
    assert_eq!(powerset(vec![5, 4, 3, 2, 1, 0, -1, -2, -3, -4]).len(), 1024);
}

#[test]
fn has_duplicate_finds_a_repeated_value() {
    assert!(!has_duplicate(&vec![]));
    assert!(!has_duplicate(&vec![1, 2, 3]));
    assert!(has_duplicate(&vec![1, 2, 1]));
    assert!(has_duplicate(&vec![4, 4]));
    assert!(has_duplicate(&vec![0, 1, 2, 3, 4, 5, 6, 7, 8, 8]));
}

#[test]
fn holds_value_finds_what_is_there() {
    assert!(holds_value(&vec![3, 1, 2], 2));
    assert!(!holds_value(&vec![3, 1, 2], 4));
}

#[test]
fn set_operations_keep_the_order() {
    assert_eq!(union(vec![1, 2, 3], vec![3, 4, 1, 5]), vec![1, 2, 3, 4, 5]);
    assert_eq!(xunion(vec![1, 2, 3], vec![3, 4, 1, 5]), vec![2, 4, 5]);
    assert_eq!(intersection(vec![1, 2, 3], vec![3, 4, 1, 5]), vec![3, 1]);
    assert_eq!(complement(vec![1, 2, 3], vec![3, 4, 1, 5]), vec![2]);
    assert_eq!(union(vec![], vec![]), vec![]);
    assert_eq!(complement(vec![1, 2], vec![]), vec![1, 2]);
    assert_eq!(intersection(vec![], vec![1]), vec![]);
}

#[test]
fn union_of_all_is_the_universe() {
    assert_eq!(union_of_all(&vec![vec![1, 2], vec![2, 3], vec![0, 1]]), vec![1, 2, 3, 0]);
    assert_eq!(union_of_all(&vec![]), vec![]);
}

#[test]
fn eval_set_follows_the_formula() {
    let sets = || vec![vec![0, 1, 2], vec![0, 3, 4]];
    assert_eq!(eval_set("AB&", sets()), vec![0]);
    assert_eq!(eval_set("AB|", sets()), vec![0, 3, 4, 1, 2]);
    assert_eq!(eval_set("AB^", sets()), vec![3, 4, 1, 2]);
    assert_eq!(eval_set("A!", sets()), vec![3, 4]);
    assert_eq!(eval_set("B!", sets()), vec![1, 2]);
    assert_eq!(eval_set("A", sets()), vec![0, 1, 2]);
    assert_eq!(eval_set("AB>", sets()), vec![0, 3, 4]);
    assert_eq!(eval_set("BA>", sets()), vec![0, 1, 2]);
    assert_eq!(eval_set("AB=", sets()), vec![0]);
    assert_eq!(eval_set("A!!", vec![vec![0, 1, 2]]), vec![0, 1, 2]);
}

#[test]
fn try_eval_set_gives_each_error() {
    let sets = || vec![vec![0, 1, 2], vec![0, 3, 4]];
    assert_eq!(try_eval_set("C", sets()), Err(LogicError::UnknownVar));
    assert_eq!(try_eval_set("Z", vec![]), Err(LogicError::UnknownVar));
    assert_eq!(try_eval_set("A&", sets()), Err(LogicError::MissingOperand('&')));
    assert_eq!(try_eval_set("!", sets()), Err(LogicError::MissingOperand('!')));
    assert_eq!(try_eval_set("A1|", sets()), Err(LogicError::UnrecognizedSymbol('1')));
    assert_eq!(try_eval_set("Ab|", sets()), Err(LogicError::UnrecognizedSymbol('b')));
    assert_eq!(
        try_eval_set("AB", sets()),
        Err(LogicError::IncompleteFormula { expected: 1, actual: 2 })
    );
    assert_eq!(
        try_eval_set("", sets()),
        Err(LogicError::IncompleteFormula { expected: 1, actual: 0 })
    );
    assert_eq!(try_eval_set("AB&", sets()), Ok(vec![0]));
    assert_eq!(eval_set("C", sets()), vec![]);
    assert_eq!(eval_set("AB", sets()), vec![]);
}

#[test]
fn set_step_applies_one_character() {
    let sets = vec![vec![1, 2], vec![2, 3]];
    let all = union_of_all(&sets);
    let mut stack: Vec<Vec<i32>> = Vec::new();
    assert_eq!(set_step(&mut stack, &sets, &all, 'A'), Ok(()));
    assert_eq!(set_step(&mut stack, &sets, &all, 'B'), Ok(()));
    assert_eq!(stack, vec![vec![1, 2], vec![2, 3]]);
    assert_eq!(set_step(&mut stack, &sets, &all, '^'), Ok(()));
    assert_eq!(stack, vec![vec![3, 1]]);
    assert_eq!(set_step(&mut stack, &sets, &all, '&'), Err(LogicError::MissingOperand('&')));
    assert_eq!(stack, vec![vec![3, 1]]);
    assert_eq!(set_step(&mut stack, &sets, &all, '!'), Ok(()));
    assert_eq!(stack, vec![vec![2]]);
    let mut pair = vec![vec![1], vec![3]];
    assert_eq!(set_step(&mut pair, &sets, &all, '>'), Ok(()));
    assert_eq!(pair, vec![vec![2, 3]]);
    let mut same = vec![vec![1], vec![3]];
    assert_eq!(set_step(&mut same, &sets, &all, '='), Ok(()));
    assert_eq!(same, vec![vec![2]]);
}

#[test]
fn implication_keeps_what_is_not_left_only() {
    assert_eq!(try_eval_set("AB>", vec![vec![0], vec![1]]), Ok(vec![1]));
    assert_eq!(try_eval_set("BA>", vec![vec![0], vec![1]]), Ok(vec![0]));
    assert_eq!(try_eval_set("AA>", vec![vec![0], vec![1]]), Ok(vec![0, 1]));
    assert_eq!(try_eval_set("AB>", vec![vec![0, 1], vec![1]]), Ok(vec![1]));
}

#[test]
fn equivalence_keeps_what_is_in_both_or_in_neither() {
    assert_eq!(try_eval_set("AB=", vec![vec![0], vec![1]]), Ok(vec![]));
    assert_eq!(try_eval_set("AA=", vec![vec![0], vec![1]]), Ok(vec![0, 1]));
    assert_eq!(try_eval_set("AB=", vec![vec![0, 1], vec![1, 2], vec![3]]), Ok(vec![1, 3]));
    assert_eq!(try_eval_set("AB=", vec![vec![0, 1], vec![1, 0]]), Ok(vec![0, 1]));
}

#[test]
fn operators_over_sets_mean_what_they_mean_over_truth_values() {
    let sets = || vec![vec![0, 1, 2, 3], vec![2, 3, 4, 5], vec![6]];
    let all = [0, 1, 2, 3, 4, 5, 6];
    let a = |x: i32| (0..=3).contains(&x);
    let b = |x: i32| (2..=5).contains(&x);
    for x in all {
        let within = |formula: &str| eval_set(formula, sets()).contains(&x);
        assert_eq!(within("A!"), !a(x));
        assert_eq!(within("AB&"), a(x) && b(x));
        assert_eq!(within("AB|"), a(x) || b(x));
        assert_eq!(within("AB^"), a(x) != b(x));
        assert_eq!(within("AB>"), !a(x) || b(x));
        assert_eq!(within("BA>"), !b(x) || a(x));
        assert_eq!(within("AB="), a(x) == b(x));
    }
}

#[test]
fn negation_is_taken_within_the_union_of_all_sets() {
    assert_eq!(try_eval_set("A!", vec![vec![0], vec![1], vec![2, 0]]), Ok(vec![1, 2]));
    assert_eq!(try_eval_set("C!", vec![vec![0], vec![1], vec![2, 0]]), Ok(vec![1]));
    assert_eq!(try_eval_set("A!", vec![vec![0, 1]]), Ok(vec![]));
}
