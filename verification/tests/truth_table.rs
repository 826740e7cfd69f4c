use ready_set_boole::sat::{sat, try_sat};
use ready_set_boole::truth_table::{
    first_row, next_row, table_header, table_line, true_variables, truth_table,
};
use ready_set_boole::{Expression, LogicError};

#[test]
fn truth_table_of_a_conjunction() {
    let table = truth_table("AB&").unwrap();
    assert_eq!(table.variables, vec!['A', 'B']);
    assert_eq!(
        table.rows,
        vec![
            vec![false, false, false],
            vec![false, true, false],
            vec![true, false, false],
            vec![true, true, true],
        ]
    );
}

#[test]
fn truth_table_first_variable_is_the_highest_bit() {
    let table = truth_table("CA>B|").unwrap();
    assert_eq!(table.variables, vec!['A', 'B', 'C']);
    assert_eq!(table.rows.len(), 8);
    for (i, row) in table.rows.iter().enumerate() {
        assert_eq!(row.len(), 4);
        for j in 0..3 {
            assert_eq!(row[j], (i >> (2 - j)) & 1 == 1);
        }
        let (a, b, c) = (row[0], row[1], row[2]);
        assert_eq!(row[3], (!c || a) || b);
    }
    assert_eq!(table.rows[1], vec![false, false, true, false]);
}

#[test]
fn truth_table_without_variables_has_one_row() {
    let table = truth_table("10|").unwrap();
    assert!(table.variables.is_empty());
    assert_eq!(table.rows, vec![vec![true]]);
    let table = Expression::val(false).truth_table();
    assert_eq!(table.rows, vec![vec![false]]);
}

#[test]
fn truth_table_surfaces_parse_errors() {
    assert_eq!(truth_table("").err(), Some(LogicError::IncompleteFormula { expected: 1, actual: 0 }));
    assert_eq!(truth_table("A>").err(), Some(LogicError::MissingOperand('>')));
    assert_eq!(truth_table("A;").err(), Some(LogicError::UnrecognizedSymbol(';')));
}

#[test]
fn truth_table_is_rendered_line_by_line() {
    let table = truth_table("AB&").unwrap();
    let expected = "| A | B | = |\n|---|---|---|\n| 0 | 0 | 0 |\n| 0 | 1 | 0 |\n| 1 | 0 | 0 |\n| 1 | 1 | 1 |\n";
    assert_eq!(table.render(), expected);
    assert_eq!(truth_table("1").unwrap().render(), "| = |\n|---|\n| 1 |\n");
}

#[test]
fn table_header_and_line() {
    assert_eq!(table_header(&vec!['A', 'C']), "| A | C | = |\n|---|---|---|\n");
    assert_eq!(table_header(&vec![]), "| = |\n|---|\n");
    assert_eq!(table_line(&vec![true, false, true]), "| 1 | 0 | 1 |\n");
    assert_eq!(table_line(&vec![]), "|\n");
}

#[test]
fn rows_count_upwards() {
    let mut bits = first_row(3);
    assert_eq!(bits, vec![false, false, false]);
    let mut seen = vec![bits.clone()];
    while next_row(&mut bits) {
        seen.push(bits.clone());
    }
    assert_eq!(seen.len(), 8);
    assert_eq!(seen[1], vec![false, false, true]);
    assert_eq!(seen[2], vec![false, true, false]);
    assert_eq!(seen[3], vec![false, true, true]);
    assert_eq!(seen[4], vec![true, false, false]);
    assert_eq!(seen[7], vec![true, true, true]);
    assert_eq!(bits, vec![false, false, false]);
}

#[test]
fn rows_of_no_bits_end_at_once() {
    let mut bits = first_row(0);
    assert!(bits.is_empty());
    assert!(!next_row(&mut bits));
}

#[test]
fn true_variables_picks_by_bit() {
    let vars = vec!['A', 'B', 'C'];
    assert_eq!(true_variables(&vars, &vec![true, false, true]), vec!['A', 'C']);
    assert_eq!(true_variables(&vars, &vec![false, false, false]), vec![]);
    assert_eq!(true_variables(&vars, &vec![false, true]), vec!['B']);
}

#[test]
fn sat_agrees_with_evaluate() {
    let formulas = [
        "A", "A!", "AA!&", "AA!|", "AB&A!&", "AB|A!&B!&", "AB^AB=&", "ABC&&A!|",
        "AB>BC>&CA>&A!&C&", "AB=BC=&AC^&", "10&", "10|", "AB|C|D|A!&B!&C!&D!&",
    ];
    for formula in formulas {
        let e = Expression::from_formula(formula).unwrap();
        let vars = e.variables();
        let mut expected = false;
        for i in 0..(1usize << vars.len()) {
            let mut values = Vec::new();
            for (j, v) in vars.iter().enumerate() {
                if (i >> j) & 1 == 1 {
                    values.push(*v);
                }
            }
            expected = expected || e.evaluate(&values);
        }
        assert_eq!(e.is_satisfiable(), expected, "{formula}");
        assert_eq!(sat(formula), expected, "{formula}");
        assert_eq!(try_sat(formula), Ok(expected), "{formula}");
    }
}

#[test]
fn sat_of_constants_tries_the_empty_assignment() {
    assert_eq!(sat("1"), true);
    assert_eq!(sat("0"), false);
    assert_eq!(sat("10^"), true);
    assert_eq!(sat("11^"), false);
}

#[test]
fn sat_tells_malformed_from_unsatisfiable() {
    assert_eq!(try_sat("AA!&"), Ok(false));
    assert_eq!(try_sat(""), Err(LogicError::IncompleteFormula { expected: 1, actual: 0 }));
    assert_eq!(try_sat("AA!&BB!&&&"), Err(LogicError::MissingOperand('&')));
    assert_eq!(try_sat("A1?"), Err(LogicError::UnrecognizedSymbol('?')));
    assert_eq!(sat("A1?"), false);
}

#[test]
fn sat_finds_the_last_assignment() {
    assert_eq!(sat("ABCDEFGH&&&&&&&"), true);
    assert_eq!(sat("ABCDEFGH&&&&&&&A!&"), false);
}

#[test]
fn first_model_is_the_lowest_row() {
    let e = Expression::from_formula("AB|C&").unwrap();
    assert_eq!(e.first_model(), Some(vec!['B', 'C']));
    let f = Expression::from_formula("AB&C!&").unwrap();
    assert_eq!(f.first_model(), Some(vec!['A', 'B']));
    let t = Expression::from_formula("AB>").unwrap();
    assert_eq!(t.first_model(), Some(vec![]));
    assert_eq!(Expression::val(true).first_model(), Some(vec![]));
    assert_eq!(Expression::val(false).first_model(), None);
    assert_eq!(Expression::from_formula("AA!&").unwrap().first_model(), None);
}
