use crate::error::LogicError;
use crate::expression::Expression;
use crate::parser::parse_spec;
use vstd::arithmetic::div_mod::{lemma_div_denominator, lemma_div_multiples_vanish_fancy};
use vstd::arithmetic::power2::{lemma_pow2_pos, lemma_pow2_unfold, pow2};
use vstd::prelude::*;

verus! {

/// Whether bit `k` of `i` is set; bit 0 is the least significant.
pub open spec fn bit(i: nat, k: nat) -> bool {
    (i / pow2(k)) % 2 == 1
}

/// The lowest `n` bits of `i`, the most significant first.
pub open spec fn row_bits(n: nat, i: nat) -> Seq<bool> {
    Seq::new(n, |j: int| bit(i, (n - 1 - j) as nat))
}

/// The variables whose bit is set: `vars[j]` is true where `bits[j]` is.
pub open spec fn chosen(vars: Seq<char>, bits: Seq<bool>) -> Set<char> {
    Set::new(
        |c: char| exists|j: int| 0 <= j < vars.len() && j < bits.len() && vars[j] == c && bits[j],
    )
}

/// The assignment with the number `i`: of `n` variables, the one at position
/// `j` is true where bit `n - 1 - j` of `i` is set, so that the first
/// variable goes with the most significant bit.
pub open spec fn assignment(vars: Seq<char>, i: nat) -> Set<char> {
    chosen(vars, row_bits(vars.len(), i))
}

/// The number that the bits spell, the most significant first.
pub open spec fn number(bits: Seq<bool>) -> nat
    decreases bits.len(),
{
    if bits.len() == 0 {
        0
    } else {
        2 * number(bits.drop_last()) + if bits.last() {
            1nat
        } else {
            0nat
        }
    }
}

/// `n` bits spell a number below two to the `n`.
pub proof fn lemma_number_bound(bits: Seq<bool>)
    ensures
        number(bits) < pow2(bits.len()),
    decreases bits.len(),
{
    if bits.len() == 0 {
        lemma_pow2_pos(0);
    } else {
        lemma_number_bound(bits.drop_last());
        lemma_pow2_unfold(bits.len());
    }
}

/// The bits of the number that a sequence spells are the sequence.
pub proof fn lemma_number_bit(bits: Seq<bool>, j: int)
    requires
        0 <= j < bits.len(),
    ensures
        bit(number(bits), (bits.len() - 1 - j) as nat) == bits[j],
    decreases bits.len(),
{
    let n = bits.len();
    let rest = bits.drop_last();
    let low: int = if bits.last() {
        1
    } else {
        0
    };
    let m = number(rest) as int;
    let x = number(bits) as int;
    assert(x == 2 * m + low);
    if j == n - 1 {
        assert(pow2(0) == 1) by {
            vstd::arithmetic::power2::lemma2_to64();
        }
        assert(x / 1 == x);
        assert(x % 2 == low);
    } else {
        let k = (n - 1 - j) as nat;
        let p = pow2((k - 1) as nat) as int;
        lemma_number_bit(rest, j);
        assert(bit(m as nat, (k - 1) as nat) == rest[j]);
        lemma_pow2_unfold(k);
        lemma_pow2_pos((k - 1) as nat);
        assert(pow2(k) == 2 * p);
        lemma_div_multiples_vanish_fancy(m, low, 2);
        assert(x / 2 == m);
        lemma_div_denominator(x, 2, p);
        assert(x / (2 * p) == m / p);
        assert(rest[j] == bits[j]);
    }
}

/// A sequence of bits is the row of the number it spells.
pub proof fn lemma_row_of_number(bits: Seq<bool>)
    ensures
        row_bits(bits.len(), number(bits)) == bits,
{
    let row = row_bits(bits.len(), number(bits));
    assert forall|j: int| 0 <= j < bits.len() implies row[j] == bits[j] by {
        lemma_number_bit(bits, j);
    }
    assert(row =~= bits);
}

/// Bits that are all set spell the last number of their length.
pub proof fn lemma_number_all_set(bits: Seq<bool>)
    requires
        forall|k: int| 0 <= k < bits.len() ==> bits[k],
    ensures
        number(bits) + 1 == pow2(bits.len()),
    decreases bits.len(),
{
    if bits.len() == 0 {
        assert(pow2(0) == 1) by {
            vstd::arithmetic::power2::lemma2_to64();
        }
    } else {
        lemma_number_all_set(bits.drop_last());
        lemma_pow2_unfold(bits.len());
    }
}

/// Bits that are all clear spell zero.
pub proof fn lemma_number_all_clear(bits: Seq<bool>)
    requires
        forall|k: int| 0 <= k < bits.len() ==> !bits[k],
    ensures
        number(bits) == 0,
    decreases bits.len(),
{
    if bits.len() > 0 {
        lemma_number_all_clear(bits.drop_last());
    }
}

/// Setting the lowest clear bit and clearing the bits below it adds one.
pub proof fn lemma_number_next(before: Seq<bool>, after: Seq<bool>, j: int)
    requires
        before.len() == after.len(),
        0 <= j < before.len(),
        !before[j],
        after[j],
        forall|k: int| j < k < before.len() ==> before[k] && !after[k],
        forall|k: int| 0 <= k < j ==> before[k] == after[k],
    ensures
        number(after) == number(before) + 1,
    decreases before.len(),
{
    if j == before.len() - 1 {
        assert(before.drop_last() =~= after.drop_last());
    } else {
        lemma_number_next(before.drop_last(), after.drop_last(), j);
    }
}

/// The value of a formula depends on its own variables only.
pub proof fn lemma_holds_on_vars(e: Expression, t1: Set<char>, t2: Set<char>)
    requires
        forall|c: char| e.vars().contains(c) ==> (t1.contains(c) <==> t2.contains(c)),
    ensures
        e.holds(t1) == e.holds(t2),
    decreases e,
{
    match e {
        Expression::Val(_) => {},
        Expression::Var(c) => {
            assert(e.vars().contains(c));
        },
        Expression::Neg(c) => {
            lemma_holds_on_vars(*c, t1, t2);
        },
        Expression::And(l, r)
        | Expression::Or(l, r)
        | Expression::Xor(l, r)
        | Expression::Implication(l, r)
        | Expression::Equivalence(l, r) => {
            assert forall|c: char| l.vars().contains(c) implies (t1.contains(c) <==> t2.contains(
                c,
            )) by {
                assert(e.vars().contains(c));
            }
            assert forall|c: char| r.vars().contains(c) implies (t1.contains(c) <==> t2.contains(
                c,
            )) by {
                assert(e.vars().contains(c));
            }
            lemma_holds_on_vars(*l, t1, t2);
            lemma_holds_on_vars(*r, t1, t2);
        },
    }
}

/// Every assignment has a row: some numbered assignment over the variables
/// of the formula gives the formula the same value.
pub proof fn lemma_row_of_assignment(e: Expression, vars: Seq<char>, truths: Set<char>) -> (i:
    nat)
    requires
        vars.to_set() == e.vars(),
    ensures
        i < pow2(vars.len()),
        e.holds(assignment(vars, i)) == e.holds(truths),
{
    let bits = Seq::new(vars.len(), |j: int| truths.contains(vars[j]));
    let i = number(bits);
    lemma_number_bound(bits);
    lemma_row_of_number(bits);
    assert forall|c: char| e.vars().contains(c) implies (assignment(vars, i).contains(c)
        <==> truths.contains(c)) by {
        assert(vars.to_set().contains(c));
        let j = choose|j: int| 0 <= j < vars.len() && vars[j] == c;
        assert(bits[j] == truths.contains(c));
    }
    lemma_holds_on_vars(e, assignment(vars, i), truths);
    i
}

/// Steps the bits to the next number, the most significant bit first. After
/// the last number the bits start again at zero, and the answer is `false`.
pub fn next_row(bits: &mut Vec<bool>) -> (more: bool)
    ensures
        final(bits)@.len() == old(bits)@.len(),
        more == (number(old(bits)@) + 1 < pow2(old(bits)@.len())),
        more ==> number(final(bits)@) == number(old(bits)@) + 1,
        !more ==> number(final(bits)@) == 0,
{
    let mut j: usize = bits.len();
    while j > 0 && bits[j - 1]
        invariant
            j <= bits@.len(),
            bits@.len() == old(bits)@.len(),
            forall|k: int| j <= k < bits@.len() ==> old(bits)@[k] && !bits@[k],
            forall|k: int| 0 <= k < j ==> bits@[k] == old(bits)@[k],
        decreases j,
    {
        bits.set(j - 1, false);
        j -= 1;
    }
    proof {
        lemma_number_bound(old(bits)@);
    }
    if j == 0 {
        proof {
            lemma_number_all_set(old(bits)@);
            lemma_number_all_clear(bits@);
        }
        return false;
    }
    bits.set(j - 1, true);
    proof {
        lemma_number_next(old(bits)@, bits@, j - 1);
        lemma_number_bound(bits@);
    }
    true
}

/// The variables whose bit is set, in their order.
pub open spec fn picked(vars: Seq<char>, bits: Seq<bool>) -> Seq<char>
    decreases vars.len(),
{
    if vars.len() == 0 {
        Seq::empty()
    } else {
        let rest = picked(vars.drop_last(), bits);
        if vars.len() <= bits.len() && bits[vars.len() - 1] {
            rest.push(vars.last())
        } else {
            rest
        }
    }
}

/// The list of the variables whose bit is set holds the assignment that the
/// bits choose.
pub proof fn lemma_picked_is_chosen(vars: Seq<char>, bits: Seq<bool>)
    ensures
        picked(vars, bits).to_set() == chosen(vars, bits),
    decreases vars.len(),
{
    let list = picked(vars, bits);
    if vars.len() > 0 {
        let n = vars.len() - 1;
        let shorter = vars.drop_last();
        let rest = picked(shorter, bits);
        lemma_picked_is_chosen(shorter, bits);
        assert forall|c: char| list.contains(c) <==> chosen(vars, bits).contains(c) by {
            if list.contains(c) {
                let i = choose|i: int| 0 <= i < list.len() && list[i] == c;
                if i < rest.len() {
                    assert(rest[i] == c);
                    assert(rest.to_set().contains(c));
                    let k = choose|k: int|
                        0 <= k < shorter.len() && k < bits.len() && shorter[k] == c && bits[k];
                    assert(vars[k] == c);
                } else {
                    assert(vars[n] == c && bits[n]);
                }
            }
            if chosen(vars, bits).contains(c) {
                let k = choose|k: int|
                    0 <= k < vars.len() && k < bits.len() && vars[k] == c && bits[k];
                if k < n {
                    assert(shorter[k] == c);
                    assert(chosen(shorter, bits).contains(c));
                    assert(rest.to_set().contains(c));
                    let i = choose|i: int| 0 <= i < rest.len() && rest[i] == c;
                    assert(list[i] == c);
                } else {
                    assert(list[list.len() - 1] == c);
                }
            }
        }
    }
    assert(list.to_set() =~= chosen(vars, bits));
}

/// The variables whose bit is set, in their order.
pub fn true_variables(vars: &Vec<char>, bits: &Vec<bool>) -> (values: Vec<char>)
    ensures
        values@ == picked(vars@, bits@),
        values@.to_set() == chosen(vars@, bits@),
{
    let mut values: Vec<char> = Vec::new();
    let mut j: usize = 0;
    while j < vars.len()
        invariant
            j <= vars.len(),
            values@ == picked(vars@.take(j as int), bits@),
        decreases vars.len() - j,
    {
        assert(vars@.take(j + 1).drop_last() == vars@.take(j as int));
        if j < bits.len() && bits[j] {
            values.push(vars[j]);
        }
        j += 1;
    }
    proof {
        assert(vars@.take(vars@.len() as int) == vars@);
        lemma_picked_is_chosen(vars@, bits@);
    }
    values
}

/// As many clear bits as there are variables: the row of the number zero.
pub fn first_row(n: usize) -> (bits: Vec<bool>)
    ensures
        bits@.len() == n,
        number(bits@) == 0,
{
    let mut bits: Vec<bool> = Vec::new();
    while bits.len() < n
        invariant
            bits@.len() <= n,
            forall|k: int| 0 <= k < bits@.len() ==> !bits@[k],
        decreases n - bits@.len(),
    {
        bits.push(false);
    }
    proof {
        lemma_number_all_clear(bits@);
    }
    bits
}

/// Row `i` of the truth table of `e` over `vars`: the bits of `i`, one for
/// each variable, then the value of the formula under that assignment.
pub open spec fn row(e: Expression, vars: Seq<char>, i: nat) -> Seq<bool> {
    row_bits(vars.len(), i).push(e.holds(assignment(vars, i)))
}

/// The truth table of a formula.
#[derive(Debug)]
pub struct TruthTable {
    /// The variables of the formula in ascending order, one for each column.
    pub variables: Vec<char>,
    /// One row for each assignment: a value for each variable, then the
    /// value of the formula.
    pub rows: Vec<Vec<bool>>,
}

impl TruthTable {
    /// Whether this is the truth table of `e`: a row for each number below
    /// two to the number of variables, in ascending order.
    pub open spec fn describes(self, e: Expression) -> bool {
        &&& self.variables@ == e.sorted_vars()
        &&& self.rows@.len() == pow2(self.variables@.len())
        &&& forall|i: int|
            0 <= i < self.rows@.len() ==> (#[trigger] self.rows@[i])@ == row(
                e,
                self.variables@,
                i as nat,
            )
    }
}

/// A copy of the bits with `value` behind them.
fn table_row(bits: &Vec<bool>, value: bool) -> (r: Vec<bool>)
    ensures
        r@ == bits@.push(value),
{
    let mut r: Vec<bool> = Vec::new();
    let mut j: usize = 0;
    while j < bits.len()
        invariant
            j <= bits@.len(),
            r@ == bits@.take(j as int),
        decreases bits@.len() - j,
    {
        r.push(bits[j]);
        assert(bits@.take(j + 1) == bits@.take(j as int).push(bits@[j as int]));
        j += 1;
    }
    assert(bits@.take(bits@.len() as int) == bits@);
    r.push(value);
    r
}

impl Expression {
    /// The truth table of the formula.
    pub fn truth_table(&self) -> (table: TruthTable)
        ensures
            table.describes(*self),
    {
        let variables = self.variables();
        let mut bits = first_row(variables.len());
        let mut rows: Vec<Vec<bool>> = Vec::new();
        loop
            invariant
                variables@ == self.sorted_vars(),
                bits@.len() == variables@.len(),
                rows@.len() == number(bits@),
                forall|i: int|
                    0 <= i < rows@.len() ==> (#[trigger] rows@[i])@ == row(
                        *self,
                        variables@,
                        i as nat,
                    ),
            decreases pow2(variables@.len()) - number(bits@),
        {
            proof {
                lemma_row_of_number(bits@);
                lemma_number_bound(bits@);
            }
            let values = true_variables(&variables, &bits);
            let value = self.evaluate(&values);
            rows.push(table_row(&bits, value));
            if !next_row(&mut bits) {
                return TruthTable { variables, rows };
            }
        }
    }
}

/// The truth table of a formula in reverse-Polish notation, or the error of
/// the parser.
pub fn truth_table(formula: &str) -> (r: Result<TruthTable, LogicError>)
    ensures
        match parse_spec(formula@) {
            Ok(e) => r is Ok && r->Ok_0.describes(e),
            Err(err) => r is Err && r->Err_0 == err,
        },
{
    match Expression::from_formula(formula) {
        Ok(expression) => Ok(expression.truth_table()),
        Err(err) => Err(err),
    }
}

/// One cell of a printed table: the character between blanks, then a bar.
pub open spec fn cell(c: char) -> Seq<char> {
    seq![' ', c, ' ', '|']
}

/// The digit that a truth value is printed as.
pub open spec fn digit(b: bool) -> char {
    if b {
        '1'
    } else {
        '0'
    }
}

/// A cell for each variable.
pub open spec fn header_cells(vars: Seq<char>) -> Seq<char>
    decreases vars.len(),
{
    if vars.len() == 0 {
        Seq::empty()
    } else {
        header_cells(vars.drop_last()) + cell(vars.last())
    }
}

/// `n` times the piece of the rule that stands under one cell.
pub open spec fn rule_cells(n: nat) -> Seq<char>
    decreases n,
{
    if n == 0 {
        Seq::empty()
    } else {
        rule_cells((n - 1) as nat) + seq!['|', '-', '-', '-']
    }
}

/// The two lines above the rows: a column for each variable and one, under
/// `=`, for the value of the formula; then a rule.
pub open spec fn header_text(vars: Seq<char>) -> Seq<char> {
    seq!['|'] + header_cells(vars) + cell('=') + seq!['\n'] + rule_cells(vars.len() + 1) + seq![
        '|',
        '\n',
    ]
}

/// A cell for each truth value.
pub open spec fn row_cells(row: Seq<bool>) -> Seq<char>
    decreases row.len(),
{
    if row.len() == 0 {
        Seq::empty()
    } else {
        row_cells(row.drop_last()) + cell(digit(row.last()))
    }
}

/// The line of one row.
pub open spec fn row_text(row: Seq<bool>) -> Seq<char> {
    seq!['|'] + row_cells(row) + seq!['\n']
}

/// The lines of the rows, one after the other.
pub open spec fn rows_text(rows: Seq<Vec<bool>>) -> Seq<char>
    decreases rows.len(),
{
    if rows.len() == 0 {
        Seq::empty()
    } else {
        rows_text(rows.drop_last()) + row_text(rows.last()@)
    }
}

/// Appends one cell to the text.
fn push_cell(out: &mut String, c: char)
    ensures
        final(out)@ == old(out)@ + cell(c),
{
    out.push(' ');
    out.push(c);
    out.push(' ');
    out.push('|');
    assert(out@ == old(out)@ + cell(c));
}

/// Appends the piece of the rule that stands under one cell.
fn push_rule(out: &mut String)
    ensures
        final(out)@ == old(out)@ + seq!['|', '-', '-', '-'],
{
    out.push('|');
    out.push('-');
    out.push('-');
    out.push('-');
    assert(out@ == old(out)@ + seq!['|', '-', '-', '-']);
}

/// The header of a printed truth table over the given variables.
pub fn table_header(vars: &Vec<char>) -> (s: String)
    ensures
        s@ == header_text(vars@),
{
    let mut out = String::new();
    out.push('|');
    let mut i: usize = 0;
    while i < vars.len()
        invariant
            i <= vars.len(),
            out@ == seq!['|'] + header_cells(vars@.take(i as int)),
        decreases vars.len() - i,
    {
        assert(vars@.take(i + 1).drop_last() == vars@.take(i as int));
        push_cell(&mut out, vars[i]);
        i += 1;
    }
    assert(vars@.take(vars@.len() as int) == vars@);
    push_cell(&mut out, '=');
    out.push('\n');
    let ghost first = out@;
    push_rule(&mut out);
    assert(out@ == first + rule_cells(1)) by {
        assert(rule_cells(0) =~= Seq::<char>::empty());
        assert(rule_cells(1) =~= seq!['|', '-', '-', '-']);
    }
    let mut k: usize = 0;
    while k < vars.len()
        invariant
            k <= vars.len(),
            out@ == first + rule_cells((k + 1) as nat),
        decreases vars.len() - k,
    {
        push_rule(&mut out);
        assert(out@ == first + rule_cells((k + 2) as nat));
        k += 1;
    }
    out.push('|');
    out.push('\n');
    assert(out@ == header_text(vars@));
    out
}

/// The line of one row of a printed truth table.
pub fn table_line(row: &Vec<bool>) -> (s: String)
    ensures
        s@ == row_text(row@),
{
    let mut out = String::new();
    out.push('|');
    let mut i: usize = 0;
    while i < row.len()
        invariant
            i <= row.len(),
            out@ == seq!['|'] + row_cells(row@.take(i as int)),
        decreases row.len() - i,
    {
        assert(row@.take(i + 1).drop_last() == row@.take(i as int));
        push_cell(
            &mut out,
            if row[i] {
                '1'
            } else {
                '0'
            },
        );
        i += 1;
    }
    assert(row@.take(row@.len() as int) == row@);
    out.push('\n');
    out
}

impl TruthTable {
    /// The table as it is printed: the header, then a line for each row.
    pub fn render(&self) -> (s: String)
        ensures
            s@ == header_text(self.variables@) + rows_text(self.rows@),
    {
        let mut out = table_header(&self.variables);
        let mut i: usize = 0;
        while i < self.rows.len()
            invariant
                i <= self.rows.len(),
                out@ == header_text(self.variables@) + rows_text(self.rows@.take(i as int)),
            decreases self.rows.len() - i,
        {
            assert(self.rows@.take(i + 1).drop_last() == self.rows@.take(i as int));
            let line = table_line(&self.rows[i]);
            out.append(line.as_str());
            i += 1;
        }
        assert(self.rows@.take(self.rows@.len() as int) == self.rows@);
        out
    }
}

} // verus!
