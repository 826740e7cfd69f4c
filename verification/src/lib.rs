//! A propositional-logic formula engine: formulas in reverse-Polish notation
//! are parsed into expression trees, evaluated, rewritten into normal forms
//! and checked for satisfiability. Beside it stand bitwise arithmetic, a curve
//! that packs two numbers into one, and formulas over sets of numbers.

pub mod arithmetic;
pub mod ast;
pub mod conjunctive_normal_form;
pub mod curve;
pub mod drawing;
pub mod error;
pub mod evaluate;
pub mod expression;
pub mod negation_normal_form;
pub mod parser;
pub mod sat;
pub mod set;
pub mod symbol;
pub mod truth_table;

pub use arithmetic::{adder, gray_code, multiplier};
pub use conjunctive_normal_form::conjunctive_normal_form;
pub use error::LogicError;
pub use evaluate::eval_formula;
pub use expression::Expression;
pub use negation_normal_form::negation_normal_form;
pub use parser::pop_from_stack;
pub use symbol::LogicalSymbol;
