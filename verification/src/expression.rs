use crate::symbol::LogicalSymbol;
use vstd::prelude::*;

verus! {

/// `String::push` of the standard library: the character is appended to the
/// end of the string.
pub assume_specification[ String::push ](s: &mut String, c: char)
    ensures
        final(s)@ == old(s)@.push(c),
;

/// Whether the characters stand in strictly ascending order of their codes.
pub open spec fn ascending(s: Seq<char>) -> bool {
    forall|i: int, j: int| 0 <= i < j < s.len() ==> s[i] < s[j]
}

/// Whether `c` occurs in `values`.
pub fn contains_char(values: &Vec<char>, c: char) -> (b: bool)
    ensures
        b == values@.contains(c),
{
    let mut i: usize = 0;
    while i < values.len()
        invariant
            i <= values.len(),
            forall|k: int| 0 <= k < i ==> values@[k] != c,
        decreases values.len() - i,
    {
        if values[i] == c {
            return true;
        }
        i += 1;
    }
    false
}

/// Only one ascending list holds a given set of characters.
pub proof fn lemma_ascending_unique(a: Seq<char>, b: Seq<char>)
    requires
        ascending(a),
        ascending(b),
        a.to_set() == b.to_set(),
    ensures
        a == b,
    decreases a.len(),
{
    if a.len() == 0 {
        if b.len() > 0 {
            assert(b.to_set().contains(b[0]));
            assert(a.contains(b[0]));
        }
        assert(a =~= b);
    } else {
        assert(a.to_set().contains(a.last()));
        assert(b.contains(a.last()));
        let k = choose|k: int| 0 <= k < b.len() && b[k] == a.last();
        assert(b.to_set().contains(b.last()));
        assert(a.contains(b.last()));
        let m = choose|m: int| 0 <= m < a.len() && a[m] == b.last();
        assert(a.last() == b.last()) by {
            if m < a.len() - 1 {
                assert(a[m] < a.last());
                if k < b.len() - 1 {
                    assert(b[k] < b.last());
                }
            }
        }
        let x = a.drop_last();
        let y = b.drop_last();
        assert forall|c: char| x.contains(c) <==> y.contains(c) by {
            if x.contains(c) {
                let i = choose|i: int| 0 <= i < x.len() && x[i] == c;
                assert(a[i] == c && a[i] < a.last());
                assert(a.to_set().contains(c));
                assert(b.contains(c));
                let j = choose|j: int| 0 <= j < b.len() && b[j] == c;
                assert(y[j] == c);
            }
            if y.contains(c) {
                let j = choose|j: int| 0 <= j < y.len() && y[j] == c;
                assert(b[j] == c && b[j] < b.last());
                assert(b.to_set().contains(c));
                assert(a.contains(c));
                let i = choose|i: int| 0 <= i < a.len() && a[i] == c;
                assert(x[i] == c);
            }
        }
        assert(x.to_set() =~= y.to_set());
        lemma_ascending_unique(x, y);
        assert(a =~= x.push(a.last()));
        assert(b =~= y.push(b.last()));
    }
}

/// An ascending list can take one more character: some ascending list
/// holds the characters of `s` and `c`.
pub proof fn lemma_ascending_with(s: Seq<char>, c: char) -> (u: Seq<char>)
    requires
        ascending(s),
    ensures
        ascending(u),
        u.to_set() == s.to_set().insert(c),
    decreases s.len(),
{
    if s.len() == 0 {
        let u = seq![c];
        assert(u[0] == c);
        assert(u.to_set() =~= s.to_set().insert(c));
        u
    } else if s.last() < c {
        let u = s.push(c);
        assert forall|x: char| u.contains(x) <==> (s.contains(x) || x == c) by {
            if u.contains(x) {
                let k = choose|k: int| 0 <= k < u.len() && u[k] == x;
                if k < s.len() {
                    assert(s[k] == x);
                }
            }
            if s.contains(x) {
                let k = choose|k: int| 0 <= k < s.len() && s[k] == x;
                assert(u[k] == x);
            }
            if x == c {
                assert(u[s.len() as int] == x);
            }
        }
        assert(u.to_set() =~= s.to_set().insert(c));
        u
    } else if s.last() == c {
        assert(s.contains(c));
        assert(s.to_set() =~= s.to_set().insert(c));
        s
    } else {
        let rest = s.drop_last();
        let top = s.last();
        let below = lemma_ascending_with(rest, c);
        let u = below.push(top);
        assert forall|i: int| 0 <= i < below.len() implies below[i] < top by {
            assert(below.to_set().contains(below[i]));
            if below[i] != c {
                assert(rest.to_set().contains(below[i]));
                let k = choose|k: int| 0 <= k < rest.len() && rest[k] == below[i];
                assert(s[k] < s.last());
            }
        }
        assert forall|x: char| u.contains(x) <==> (s.contains(x) || x == c) by {
            if u.contains(x) {
                let k = choose|k: int| 0 <= k < u.len() && u[k] == x;
                if k < below.len() {
                    assert(below.to_set().contains(x));
                    if x != c {
                        assert(rest.contains(x));
                        let j = choose|j: int| 0 <= j < rest.len() && rest[j] == x;
                        assert(s[j] == x);
                    }
                } else {
                    assert(s[s.len() - 1] == x);
                }
            }
            if s.contains(x) {
                let k = choose|k: int| 0 <= k < s.len() && s[k] == x;
                if k < rest.len() {
                    assert(rest[k] == x);
                    assert(rest.to_set().contains(x));
                    assert(below.to_set().contains(x));
                    assert(below.contains(x));
                    let j = choose|j: int| 0 <= j < below.len() && below[j] == x;
                    assert(u[j] == x);
                } else {
                    assert(u[below.len() as int] == x);
                }
            }
            if x == c {
                assert(below.to_set().contains(c));
                let j = choose|j: int| 0 <= j < below.len() && below[j] == c;
                assert(u[j] == c);
            }
        }
        assert(u.to_set() =~= s.to_set().insert(c));
        u
    }
}

/// Two ascending lists can be joined: some ascending list holds the
/// characters of both.
pub proof fn lemma_ascending_join(s: Seq<char>, t: Seq<char>) -> (u: Seq<char>)
    requires
        ascending(s),
        ascending(t),
    ensures
        ascending(u),
        u.to_set() == s.to_set().union(t.to_set()),
    decreases t.len(),
{
    if t.len() == 0 {
        assert(s.to_set() =~= s.to_set().union(t.to_set()));
        s
    } else {
        let rest = t.drop_last();
        let joined = lemma_ascending_join(s, rest);
        let u = lemma_ascending_with(joined, t.last());
        assert forall|x: char| t.contains(x) <==> (rest.contains(x) || x == t.last()) by {
            if t.contains(x) {
                let k = choose|k: int| 0 <= k < t.len() && t[k] == x;
                if k < rest.len() {
                    assert(rest[k] == x);
                }
            }
            if rest.contains(x) {
                let k = choose|k: int| 0 <= k < rest.len() && rest[k] == x;
                assert(t[k] == x);
            }
            if x == t.last() {
                assert(t[t.len() - 1] == x);
            }
        }
        assert(u.to_set() =~= s.to_set().union(t.to_set()));
        u
    }
}

/// Every formula has the list of its variables in ascending order.
pub proof fn lemma_sorted_vars(e: Expression)
    ensures
        e.lists_vars(e.sorted_vars()),
    decreases e,
{
    let found: Seq<char> = match e {
        Expression::Val(_) => Seq::empty(),
        Expression::Var(c) => lemma_ascending_with(Seq::empty(), c),
        Expression::Neg(c) => {
            lemma_sorted_vars(*c);
            c.sorted_vars()
        },
        Expression::And(l, r)
        | Expression::Or(l, r)
        | Expression::Xor(l, r)
        | Expression::Implication(l, r)
        | Expression::Equivalence(l, r) => {
            lemma_sorted_vars(*l);
            lemma_sorted_vars(*r);
            lemma_ascending_join(l.sorted_vars(), r.sorted_vars())
        },
    };
    assert(found.to_set() =~= e.vars());
    assert(e.lists_vars(found));
}

/// Puts `c` at its place in an ascending list, unless it is there already.
fn insert_ascending(vars: &mut Vec<char>, c: char)
    requires
        ascending(old(vars)@),
    ensures
        ascending(final(vars)@),
        final(vars)@.to_set() == old(vars)@.to_set().insert(c),
{
    let mut i: usize = 0;
    while i < vars.len() && vars[i] < c
        invariant
            i <= vars.len(),
            vars@ == old(vars)@,
            forall|k: int| 0 <= k < i ==> vars@[k] < c,
        decreases vars.len() - i,
    {
        i += 1;
    }
    if i < vars.len() && vars[i] == c {
        assert(vars@.to_set() =~= vars@.to_set().insert(c));
        return ;
    }
    vars.insert(i, c);
    proof {
        let before = old(vars)@;
        let after = vars@;
        assert forall|x: char| after.to_set().contains(x) <==> before.to_set().insert(c).contains(
            x,
        ) by {
            if after.contains(x) {
                let k = choose|k: int| 0 <= k < after.len() && after[k] == x;
                if k < i {
                    assert(before[k] == x);
                } else if k > i {
                    assert(before[k - 1] == x);
                }
            }
            if before.contains(x) {
                let k = choose|k: int| 0 <= k < before.len() && before[k] == x;
                if k < i {
                    assert(after[k] == x);
                } else {
                    assert(after[k + 1] == x);
                }
            }
            if x == c {
                assert(after[i as int] == c);
            }
        }
        assert(after.to_set() =~= before.to_set().insert(c));
    }
}

/// A propositional formula as a tree. Every node owns its children.
#[derive(Debug)]
pub enum Expression {
    Val(bool),
    Var(char),
    Neg(Box<Expression>),
    And(Box<Expression>, Box<Expression>),
    Or(Box<Expression>, Box<Expression>),
    Xor(Box<Expression>, Box<Expression>),
    Implication(Box<Expression>, Box<Expression>),
    Equivalence(Box<Expression>, Box<Expression>),
}

impl Expression {
    /// The truth value of the formula when exactly the variables in `truths`
    /// are true.
    pub open spec fn holds(self, truths: Set<char>) -> bool
        decreases self,
    {
        match self {
            Expression::Val(b) => b,
            Expression::Var(c) => truths.contains(c),
            Expression::Neg(e) => !e.holds(truths),
            Expression::And(l, r) => l.holds(truths) && r.holds(truths),
            Expression::Or(l, r) => l.holds(truths) || r.holds(truths),
            Expression::Xor(l, r) => l.holds(truths) != r.holds(truths),
            Expression::Implication(l, r) => l.holds(truths) ==> r.holds(truths),
            Expression::Equivalence(l, r) => l.holds(truths) == r.holds(truths),
        }
    }

    /// The variables that occur in the formula.
    pub open spec fn vars(self) -> Set<char>
        decreases self,
    {
        match self {
            Expression::Val(_) => Set::empty(),
            Expression::Var(c) => set![c],
            Expression::Neg(e) => e.vars(),
            Expression::And(l, r) => l.vars().union(r.vars()),
            Expression::Or(l, r) => l.vars().union(r.vars()),
            Expression::Xor(l, r) => l.vars().union(r.vars()),
            Expression::Implication(l, r) => l.vars().union(r.vars()),
            Expression::Equivalence(l, r) => l.vars().union(r.vars()),
        }
    }

    /// The variables of the formula, each once, in ascending order. The
    /// place of a variable in this list is its place in every enumeration of
    /// assignments.
    pub open spec fn sorted_vars(self) -> Seq<char> {
        choose|s: Seq<char>| self.lists_vars(s)
    }

    /// Whether `s` holds the variables of the formula, each once, in
    /// ascending order.
    pub open spec fn lists_vars(self, s: Seq<char>) -> bool {
        ascending(s) && s.to_set() == self.vars()
    }

    /// Whether every variable of the formula is a character that the grammar
    /// reads as a variable.
    pub open spec fn well_formed(self) -> bool
        decreases self,
    {
        match self {
            Expression::Val(_) => true,
            Expression::Var(c) => LogicalSymbol::from_char_spec(c) == Some(
                LogicalSymbol::Variable(c),
            ),
            Expression::Neg(e) => e.well_formed(),
            Expression::And(l, r) => l.well_formed() && r.well_formed(),
            Expression::Or(l, r) => l.well_formed() && r.well_formed(),
            Expression::Xor(l, r) => l.well_formed() && r.well_formed(),
            Expression::Implication(l, r) => l.well_formed() && r.well_formed(),
            Expression::Equivalence(l, r) => l.well_formed() && r.well_formed(),
        }
    }

    /// The glyph of the root node.
    pub open spec fn glyph(self) -> char {
        match self {
            Expression::Val(true) => '1',
            Expression::Val(false) => '0',
            Expression::Var(c) => c,
            Expression::Neg(_) => '!',
            Expression::And(_, _) => '&',
            Expression::Or(_, _) => '|',
            Expression::Xor(_, _) => '^',
            Expression::Implication(_, _) => '>',
            Expression::Equivalence(_, _) => '=',
        }
    }

    /// The formula in reverse-Polish notation: operands first, then the glyph.
    pub open spec fn rpn(self) -> Seq<char>
        decreases self,
    {
        match self {
            Expression::Val(_) => seq![self.glyph()],
            Expression::Var(_) => seq![self.glyph()],
            Expression::Neg(e) => e.rpn().push('!'),
            Expression::And(l, r) => (l.rpn() + r.rpn()).push('&'),
            Expression::Or(l, r) => (l.rpn() + r.rpn()).push('|'),
            Expression::Xor(l, r) => (l.rpn() + r.rpn()).push('^'),
            Expression::Implication(l, r) => (l.rpn() + r.rpn()).push('>'),
            Expression::Equivalence(l, r) => (l.rpn() + r.rpn()).push('='),
        }
    }

    /// The glyph of the root node.
    pub fn to_unicode(&self) -> (c: char)
        ensures
            c == self.glyph(),
    {
        match self {
            Expression::Val(true) => '1',
            Expression::Val(false) => '0',
            Expression::Var(c) => *c,
            Expression::Neg(_) => '!',
            Expression::And(_, _) => '&',
            Expression::Or(_, _) => '|',
            Expression::Xor(_, _) => '^',
            Expression::Implication(_, _) => '>',
            Expression::Equivalence(_, _) => '=',
        }
    }

    /// Whether the formula is true when exactly the variables in `values`
    /// are true.
    pub fn evaluate(&self, values: &Vec<char>) -> (b: bool)
        ensures
            b == self.holds(values@.to_set()),
        decreases *self,
    {
        match self {
            Expression::Val(val) => *val,
            Expression::Var(c) => contains_char(values, *c),
            Expression::Neg(child) => !child.evaluate(values),
            Expression::And(left, right) => left.evaluate(values) && right.evaluate(values),
            Expression::Or(left, right) => left.evaluate(values) || right.evaluate(values),
            Expression::Xor(left, right) => left.evaluate(values) != right.evaluate(values),
            Expression::Implication(left, right) => !left.evaluate(values) || right.evaluate(
                values,
            ),
            Expression::Equivalence(left, right) => left.evaluate(values) == right.evaluate(
                values,
            ),
        }
    }

    /// The formula in reverse-Polish notation.
    pub fn to_rpn(&self) -> (s: String)
        ensures
            s@ == self.rpn(),
    {
        let mut result = String::new();
        self.write_rpn(&mut result);
        result
    }

    /// Appends the formula in reverse-Polish notation to `out`.
    fn write_rpn(&self, out: &mut String)
        ensures
            final(out)@ == old(out)@ + self.rpn(),
        decreases *self,
    {
        match self {
            Expression::Val(_) | Expression::Var(_) => {},
            Expression::Neg(child) => {
                child.write_rpn(out);
            },
            Expression::And(left, right)
            | Expression::Or(left, right)
            | Expression::Xor(left, right)
            | Expression::Implication(left, right)
            | Expression::Equivalence(left, right) => {
                left.write_rpn(out);
                right.write_rpn(out);
            },
        }
        out.push(self.to_unicode());
    }

    /// The variables of the formula, each once, in ascending order.
    pub fn variables(&self) -> (vars: Vec<char>)
        ensures
            vars@ == self.sorted_vars(),
            ascending(vars@),
            vars@.to_set() == self.vars(),
    {
        let mut vars: Vec<char> = Vec::new();
        assert(vars@.to_set() =~= Set::<char>::empty());
        self.collect_variables(&mut vars);
        proof {
            assert(vars@.to_set() =~= self.vars());
            assert(self.lists_vars(vars@));
            lemma_ascending_unique(vars@, self.sorted_vars());
        }
        vars
    }

    /// Puts the variables of the formula into the ascending list `vars`.
    fn collect_variables(&self, vars: &mut Vec<char>)
        requires
            ascending(old(vars)@),
        ensures
            ascending(final(vars)@),
            final(vars)@.to_set() == old(vars)@.to_set().union(self.vars()),
        decreases *self,
    {
        match self {
            Expression::Var(c) => {
                insert_ascending(vars, *c);
            },
            Expression::And(left, right)
            | Expression::Or(left, right)
            | Expression::Xor(left, right)
            | Expression::Implication(left, right)
            | Expression::Equivalence(left, right) => {
                left.collect_variables(vars);
                right.collect_variables(vars);
            },
            Expression::Neg(child) => {
                child.collect_variables(vars);
            },
            Expression::Val(_) => {},
        }
    }

    /// Whether the formula is a single variable.
    pub fn is_variable(&self) -> (b: bool)
        ensures
            b == (self is Var),
    {
        matches!(self, Expression::Var(_))
    }

    /// The variable `c`.
    pub fn var(c: char) -> (e: Expression)
        ensures
            e == Expression::Var(c),
    {
        Expression::Var(c)
    }

    /// The constant `b`.
    pub fn val(b: bool) -> (e: Expression)
        ensures
            e == Expression::Val(b),
    {
        Expression::Val(b)
    }

    /// The negation of `expr`.
    pub fn not(expr: Expression) -> (e: Expression)
        ensures
            e == Expression::Neg(Box::new(expr)),
    {
        Expression::Neg(Box::new(expr))
    }

    /// The conjunction of `a` and `b`.
    pub fn and(a: Expression, b: Expression) -> (e: Expression)
        ensures
            e == Expression::And(Box::new(a), Box::new(b)),
    {
        Expression::And(Box::new(a), Box::new(b))
    }

    /// The disjunction of `a` and `b`.
    pub fn or(a: Expression, b: Expression) -> (e: Expression)
        ensures
            e == Expression::Or(Box::new(a), Box::new(b)),
    {
        Expression::Or(Box::new(a), Box::new(b))
    }

    /// The exclusive or of `a` and `b`.
    pub fn xor(a: Expression, b: Expression) -> (e: Expression)
        ensures
            e == Expression::Xor(Box::new(a), Box::new(b)),
    {
        Expression::Xor(Box::new(a), Box::new(b))
    }

    /// The implication from `a` to `b`.
    pub fn implies(a: Expression, b: Expression) -> (e: Expression)
        ensures
            e == Expression::Implication(Box::new(a), Box::new(b)),
    {
        Expression::Implication(Box::new(a), Box::new(b))
    }

    /// The equivalence of `a` and `b`.
    pub fn equiv(a: Expression, b: Expression) -> (e: Expression)
        ensures
            e == Expression::Equivalence(Box::new(a), Box::new(b)),
    {
        Expression::Equivalence(Box::new(a), Box::new(b))
    }
}

impl Clone for Expression {
    fn clone(&self) -> (res: Self)
        ensures
            res == *self,
        decreases *self,
    {
        match self {
            Expression::Val(b) => Expression::Val(*b),
            Expression::Var(c) => Expression::Var(*c),
            Expression::Neg(e) => Expression::Neg(Box::new((**e).clone())),
            Expression::And(l, r) => Expression::And(
                Box::new((**l).clone()),
                Box::new((**r).clone()),
            ),
            Expression::Or(l, r) => Expression::Or(
                Box::new((**l).clone()),
                Box::new((**r).clone()),
            ),
            Expression::Xor(l, r) => Expression::Xor(
                Box::new((**l).clone()),
                Box::new((**r).clone()),
            ),
            Expression::Implication(l, r) => Expression::Implication(
                Box::new((**l).clone()),
                Box::new((**r).clone()),
            ),
            Expression::Equivalence(l, r) => Expression::Equivalence(
                Box::new((**l).clone()),
                Box::new((**r).clone()),
            ),
        }
    }
}

impl PartialEq for Expression {
    fn eq(&self, other: &Self) -> (b: bool)
        decreases *self,
    {
        match (self, other) {
            (Expression::Val(a), Expression::Val(b)) => *a == *b,
            (Expression::Var(a), Expression::Var(b)) => *a == *b,
            (Expression::Neg(a), Expression::Neg(b)) => (**a).eq(&**b),
            (Expression::And(a1, a2), Expression::And(b1, b2)) => (**a1).eq(&**b1) && (**a2).eq(
                &**b2,
            ),
            (Expression::Or(a1, a2), Expression::Or(b1, b2)) => (**a1).eq(&**b1) && (**a2).eq(
                &**b2,
            ),
            (Expression::Xor(a1, a2), Expression::Xor(b1, b2)) => (**a1).eq(&**b1) && (**a2).eq(
                &**b2,
            ),
            (Expression::Implication(a1, a2), Expression::Implication(b1, b2)) => (**a1).eq(&**b1)
                && (**a2).eq(&**b2),
            (Expression::Equivalence(a1, a2), Expression::Equivalence(b1, b2)) => (**a1).eq(&**b1)
                && (**a2).eq(&**b2),
            _ => false,
        }
    }
}

impl vstd::std_specs::cmp::PartialEqSpecImpl for Expression {
    open spec fn obeys_eq_spec() -> bool {
        true
    }

    open spec fn eq_spec(&self, other: &Self) -> bool {
        *self == *other
    }
}

impl core::ops::BitAnd for Expression {
    type Output = Expression;

    fn bitand(self, rhs: Expression) -> (r: Expression) {
        Expression::And(Box::new(self), Box::new(rhs))
    }
}

impl vstd::std_specs::ops::BitAndSpecImpl for Expression {
    open spec fn obeys_bitand_spec() -> bool {
        true
    }

    open spec fn bitand_req(self, rhs: Expression) -> bool {
        true
    }

    open spec fn bitand_spec(self, rhs: Expression) -> Expression {
        Expression::And(Box::new(self), Box::new(rhs))
    }
}

impl core::ops::BitOr for Expression {
    type Output = Expression;

    fn bitor(self, rhs: Expression) -> (r: Expression) {
        Expression::Or(Box::new(self), Box::new(rhs))
    }
}

impl vstd::std_specs::ops::BitOrSpecImpl for Expression {
    open spec fn obeys_bitor_spec() -> bool {
        true
    }

    open spec fn bitor_req(self, rhs: Expression) -> bool {
        true
    }

    open spec fn bitor_spec(self, rhs: Expression) -> Expression {
        Expression::Or(Box::new(self), Box::new(rhs))
    }
}

impl core::ops::Not for Expression {
    type Output = Expression;

    fn not(self) -> (r: Expression) {
        Expression::Neg(Box::new(self))
    }
}

impl vstd::std_specs::ops::NotSpecImpl for Expression {
    open spec fn obeys_not_spec() -> bool {
        true
    }

    open spec fn not_req(self) -> bool {
        true
    }

    open spec fn not_spec(self) -> Expression {
        Expression::Neg(Box::new(self))
    }
}

} // verus!
