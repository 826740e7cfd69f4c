use ready_set_boole::drawing::{blank_grid, buffer_text, last_mark_of, put_cell};
use ready_set_boole::Expression;

#[test]
fn measure_gives_height_and_width() {
    let leaf = Expression::var('A');
    assert_eq!(leaf.measure(), Some((1, 1)));
    let e = Expression::from_formula("AB&C|").unwrap();
    assert_eq!(e.measure(), Some((3, 3)));
    assert_eq!(e.height(), 3);
    assert_eq!(e.width(), 3);
    let n = Expression::from_formula("AB&!").unwrap();
    assert_eq!(n.measure(), Some((3, 2)));
    let deep = Expression::from_formula("A!!!B|").unwrap();
    assert_eq!(deep.measure(), Some((5, 4)));
}

#[test]
fn visualize_a_conjunction() {
    let e = Expression::from_formula("AB&").unwrap();
    assert_eq!(e.visualize_tree(), Some(String::from("    &\n   / \\\n   A B\n \n")));
}

#[test]
fn visualize_a_negation() {
    let e = Expression::from_formula("A!").unwrap();
    assert_eq!(e.visualize_tree(), Some(String::from("  !\n  |\n  A\n \n")));
}

#[test]
fn visualize_a_leaf() {
    assert_eq!(Expression::val(true).visualize_tree(), Some(String::from("  1\n \n")));
}

#[test]
fn visualize_two_levels() {
    let e = Expression::from_formula("AB|C>").unwrap();
    let expected = "      >\n     / \\\n    |  C\n   / \\\n   A B\n \n";
    assert_eq!(e.visualize_tree(), Some(String::from(expected)));
}

#[test]
fn visualize_leaves_out_what_falls_off_the_grid() {
    let e = Expression::from_formula("AB&C&D&E&F&G&H&").unwrap();
    let text = e.visualize_tree().unwrap();
    assert_eq!(text.lines().count(), 16);
    assert!(text.starts_with("                &\n"));
    assert!(!text.contains('A'));
    assert!(text.contains('H'));
}

#[test]
fn draw_tree_writes_into_the_buffer() {
    let e = Expression::from_formula("A!").unwrap();
    let mut buffer = blank_grid(3, 2);
    e.draw_tree(&mut buffer, 0, 1);
    assert_eq!(buffer, vec![vec![' ', '!'], vec![' ', '|'], vec![' ', 'A']]);
    let mut small = blank_grid(1, 1);
    e.draw_tree(&mut small, 0, 0);
    assert_eq!(small, vec![vec!['!']]);
    let mut off = blank_grid(2, 2);
    e.draw_tree(&mut off, 0, 2);
    assert_eq!(off, blank_grid(2, 2));
}

#[test]
fn put_cell_clips() {
    let mut buffer = blank_grid(2, 3);
    assert_eq!(buffer, vec![vec![' ', ' ', ' '], vec![' ', ' ', ' ']]);
    put_cell(&mut buffer, 1, 2, 'x');
    put_cell(&mut buffer, 2, 0, 'y');
    put_cell(&mut buffer, 0, 3, 'z');
    assert_eq!(buffer, vec![vec![' ', ' ', ' '], vec![' ', ' ', 'x']]);
}

#[test]
fn buffer_text_trims_each_line() {
    let buffer = vec![vec!['a', ' ', 'b', ' '], vec![' ', ' '], vec![], vec![' ', 'c']];
    assert_eq!(buffer_text(&buffer), "a b\n \n\n c\n");
    assert_eq!(last_mark_of(&vec!['a', ' ', 'b', ' ']), 2);
    assert_eq!(last_mark_of(&vec![' ', ' ']), 0);
    assert_eq!(last_mark_of(&vec![]), 0);
}
