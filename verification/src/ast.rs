use crate::error::LogicError;
use crate::expression::Expression;
use crate::parser::parse_spec;
use vstd::prelude::*;

verus! {

/// A formula that may be empty.
#[derive(Debug)]
pub struct Ast {
    pub root: Option<Box<Expression>>,
}

impl Ast {
    /// The tree with the given root.
    pub fn new(root: Expression) -> (ast: Ast)
        ensures
            ast.root == Some(Box::new(root)),
    {
        Ast { root: Some(Box::new(root)) }
    }

    /// Parses a formula in reverse-Polish notation.
    pub fn from_formula(formula: &str) -> (r: Result<Ast, LogicError>)
        ensures
            match parse_spec(formula@) {
                Ok(e) => r is Ok && r->Ok_0.root == Some(Box::new(e)),
                Err(err) => r is Err && r->Err_0 == err,
            },
    {
        build_ast(formula)
    }

    /// The variables of the tree, each once, in ascending order; none for
    /// the empty tree.
    pub fn variables(&self) -> (vars: Vec<char>)
        ensures
            vars@ == match self.root {
                Some(root) => root.sorted_vars(),
                None => Seq::<char>::empty(),
            },
    {
        match &self.root {
            Some(root) => root.variables(),
            None => Vec::new(),
        }
    }

    /// Whether `expr` is true when exactly the variables in `values` are.
    pub fn evaluate(&self, expr: &Expression, values: &Vec<char>) -> (b: bool)
        ensures
            b == expr.holds(values@.to_set()),
    {
        expr.evaluate(values)
    }

    /// The tree in reverse-Polish notation; the empty string for the empty
    /// tree.
    pub fn to_rpn(&self) -> (s: String)
        ensures
            s@ == match self.root {
                Some(root) => root.rpn(),
                None => Seq::<char>::empty(),
            },
    {
        match &self.root {
            Some(root) => root.to_rpn(),
            None => String::new(),
        }
    }
}

impl Clone for Ast {
    fn clone(&self) -> (res: Self)
        ensures
            res == *self,
    {
        match &self.root {
            Some(root) => Ast { root: Some(Box::new((**root).clone())) },
            None => Ast { root: None },
        }
    }
}

/// Parses a formula in reverse-Polish notation into a tree.
pub fn build_ast(formula: &str) -> (r: Result<Ast, LogicError>)
    ensures
        match parse_spec(formula@) {
            Ok(e) => r is Ok && r->Ok_0.root == Some(Box::new(e)),
            Err(err) => r is Err && r->Err_0 == err,
        },
{
    match Expression::from_formula(formula) {
        Ok(root) => Ok(Ast::new(root)),
        Err(err) => Err(err),
    }
}

} // verus!
