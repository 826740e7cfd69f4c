use crate::error::LogicError;
use crate::parser::pop_from_stack;
use crate::truth_table::{
    bit, first_row, lemma_number_bit, lemma_number_bound, next_row, number,
};
use std::collections::HashSet;
use vstd::arithmetic::power2::pow2;
use vstd::prelude::*;

verus! {

broadcast use {vstd::std_specs::hash::group_hash_axioms, vstd::string::group_string_axioms};

/// The items of `a` that `b` holds (`keep`) or does not hold (not `keep`),
/// in the order of `a`.
pub open spec fn pick(a: Seq<i32>, b: Seq<i32>, keep: bool) -> Seq<i32> {
    a.filter(|v: i32| b.contains(v) == keep)
}

/// `a`, then the items of `b` that `a` does not hold.
pub open spec fn union_spec(a: Seq<i32>, b: Seq<i32>) -> Seq<i32> {
    a + pick(b, a, false)
}

/// The items of `a` that `b` does not hold, then those of `b` that `a` does
/// not hold.
pub open spec fn xunion_spec(a: Seq<i32>, b: Seq<i32>) -> Seq<i32> {
    pick(a, b, false) + pick(b, a, false)
}

/// The items of `b` that `a` holds.
pub open spec fn intersection_spec(a: Seq<i32>, b: Seq<i32>) -> Seq<i32> {
    pick(b, a, true)
}

/// The items of `a` that `b` does not hold.
pub open spec fn complement_spec(a: Seq<i32>, b: Seq<i32>) -> Seq<i32> {
    pick(a, b, false)
}

/// Whether `value` occurs in `set`.
pub fn holds_value(set: &Vec<i32>, value: i32) -> (b: bool)
    ensures
        b == set@.contains(value),
{
    let mut i: usize = 0;
    while i < set.len()
        invariant
            i <= set.len(),
            forall|k: int| 0 <= k < i ==> set@[k] != value,
        decreases set.len() - i,
    {
        if set[i] == value {
            return true;
        }
        i += 1;
    }
    false
}

/// Appends to `out` the items of `a` that `b` holds (`keep`) or does not
/// hold (not `keep`).
fn append_picked(out: &mut Vec<i32>, a: &Vec<i32>, b: &Vec<i32>, keep: bool)
    ensures
        final(out)@ == old(out)@ + pick(a@, b@, keep),
{
    let ghost pred = |v: i32| b@.contains(v) == keep;
    let mut i: usize = 0;
    assert(a@.take(0).filter(pred) == Seq::<i32>::empty()) by {
        reveal(Seq::filter);
    }
    while i < a.len()
        invariant
            i <= a.len(),
            pred == (|v: i32| b@.contains(v) == keep),
            out@ == old(out)@ + a@.take(i as int).filter(pred),
        decreases a.len() - i,
    {
        let value = a[i];
        proof {
            a@.take(i as int).lemma_filter_push(value, pred);
            assert(a@.take(i as int).push(value) == a@.take(i + 1));
        }
        if holds_value(b, value) == keep {
            out.push(value);
        }
        i += 1;
    }
    assert(a@.take(a@.len() as int) == a@);
}

/// Appends the items of `a` to `out`.
fn append_all(out: &mut Vec<i32>, a: &Vec<i32>)
    ensures
        final(out)@ == old(out)@ + a@,
{
    let mut i: usize = 0;
    while i < a.len()
        invariant
            i <= a.len(),
            out@ == old(out)@ + a@.take(i as int),
        decreases a.len() - i,
    {
        out.push(a[i]);
        assert(a@.take(i as int).push(a@[i as int]) == a@.take(i + 1));
        i += 1;
    }
    assert(a@.take(a@.len() as int) == a@);
}

/// A copy of `a`.
fn copy_of(a: &Vec<i32>) -> (r: Vec<i32>)
    ensures
        r@ == a@,
{
    let mut result: Vec<i32> = Vec::new();
    append_all(&mut result, a);
    result
}

/// `a`, then the items of `b` that `a` does not hold.
pub fn union(a: Vec<i32>, b: Vec<i32>) -> (r: Vec<i32>)
    ensures
        r@ == union_spec(a@, b@),
{
    let mut result: Vec<i32> = Vec::new();
    append_all(&mut result, &a);
    append_picked(&mut result, &b, &a, false);
    result
}

/// The items that one of `a` and `b` holds and the other does not, those
/// of `a` first.
pub fn xunion(a: Vec<i32>, b: Vec<i32>) -> (r: Vec<i32>)
    ensures
        r@ == xunion_spec(a@, b@),
{
    let mut result: Vec<i32> = Vec::new();
    append_picked(&mut result, &a, &b, false);
    append_picked(&mut result, &b, &a, false);
    result
}

/// The items of `b` that `a` holds.
pub fn intersection(a: Vec<i32>, b: Vec<i32>) -> (r: Vec<i32>)
    ensures
        r@ == intersection_spec(a@, b@),
{
    let mut result: Vec<i32> = Vec::new();
    append_picked(&mut result, &b, &a, true);
    result
}

/// The items of `a` that `b` does not hold.
pub fn complement(a: Vec<i32>, b: Vec<i32>) -> (r: Vec<i32>)
    ensures
        r@ == complement_spec(a@, b@),
{
    let mut result: Vec<i32> = Vec::new();
    append_picked(&mut result, &a, &b, false);
    result
}

/// Whether some value occurs twice in `set`.
pub fn has_duplicate(set: &Vec<i32>) -> (b: bool)
    ensures
        b == !set@.no_duplicates(),
{
    let mut seen: HashSet<i32> = HashSet::with_capacity(set.len());
    let mut i: usize = 0;
    while i < set.len()
        invariant
            i <= set.len(),
            seen@ == set@.take(i as int).to_set(),
            set@.take(i as int).no_duplicates(),
        decreases set.len() - i,
    {
        let val = set[i];
        if !seen.insert(val) {
            proof {
                let k = choose|k: int| 0 <= k < i && set@.take(i as int)[k] == val;
                assert(set@[k] == set@[i as int] && k != i);
            }
            return true;
        }
        proof {
            let before = set@.take(i as int);
            let after = set@.take(i + 1);
            assert(after == before.push(val));
            assert forall|x: i32| after.contains(x) <==> (before.contains(x) || x == val) by {
                if after.contains(x) {
                    let k = choose|k: int| 0 <= k < after.len() && after[k] == x;
                    if k < before.len() {
                        assert(before[k] == x);
                    }
                }
                if before.contains(x) {
                    let k = choose|k: int| 0 <= k < before.len() && before[k] == x;
                    assert(after[k] == x);
                }
                if x == val {
                    assert(after[i as int] == x);
                }
            }
            assert(after.to_set() =~= before.to_set().insert(val));
            assert(!before.contains(val));
        }
        i += 1;
    }
    assert(set@.take(set@.len() as int) == set@);
    false
}

/// The items of `set` whose bit in `i` is set, in their order; the first
/// item goes with the lowest bit.
pub open spec fn subset(set: Seq<i32>, i: nat) -> Seq<i32>
    decreases set.len(),
{
    if set.len() == 0 {
        Seq::empty()
    } else {
        let rest = subset(set.drop_last(), i);
        if bit(i, (set.len() - 1) as nat) {
            rest.push(set.last())
        } else {
            rest
        }
    }
}

/// All subsets of `set`: two to the number of its items, the subset with
/// the number `i` at place `i`.
pub fn powerset(set: Vec<i32>) -> (subsets: Vec<Vec<i32>>)
    ensures
        subsets@.len() == pow2(set@.len()),
        forall|i: int| 0 <= i < subsets@.len() ==> (#[trigger] subsets@[i])@ == subset(set@, i as nat),
{
    let n = set.len();
    let mut bits = first_row(n);
    let mut powerset: Vec<Vec<i32>> = Vec::new();
    loop
        invariant
            n == set@.len(),
            bits@.len() == n,
            powerset@.len() == number(bits@),
            forall|i: int|
                0 <= i < powerset@.len() ==> (#[trigger] powerset@[i])@ == subset(set@, i as nat),
        decreases pow2(n as nat) - number(bits@),
    {
        let ghost i = number(bits@);
        let mut chosen: Vec<i32> = Vec::new();
        let mut j: usize = 0;
        while j < n
            invariant
                j <= n,
                n == set@.len(),
                bits@.len() == n,
                i == number(bits@),
                chosen@ == subset(set@.take(j as int), i),
            decreases n - j,
        {
            proof {
                lemma_number_bit(bits@, n - 1 - j);
                assert(set@.take(j + 1).drop_last() == set@.take(j as int));
            }
            if bits[n - 1 - j] {
                chosen.push(set[j]);
            }
            j += 1;
        }
        proof {
            assert(set@.take(n as int) == set@);
            lemma_number_bound(bits@);
        }
        powerset.push(chosen);
        if !next_row(&mut bits) {
            return powerset;
        }
    }
}

/// The views of the sets on a stack.
pub open spec fn views(sets: Seq<Vec<i32>>) -> Seq<Seq<i32>> {
    Seq::new(sets.len(), |i: int| sets[i]@)
}

/// The set of everything: the union of the given sets, taken in their
/// order.
pub open spec fn universe(sets: Seq<Seq<i32>>) -> Seq<i32>
    decreases sets.len(),
{
    if sets.len() == 0 {
        Seq::empty()
    } else {
        union_spec(universe(sets.drop_last()), sets.last())
    }
}

/// The set of `left` implies `right` within `all`: the items of `all` but
/// for those that `left` holds and `right` does not.
pub open spec fn implication_spec(all: Seq<i32>, left: Seq<i32>, right: Seq<i32>) -> Seq<i32> {
    complement_spec(all, complement_spec(left, right))
}

/// The set of `left` is equivalent to `right` within `all`: the items of
/// `all` but for those that one of the two holds and the other does not.
pub open spec fn equivalence_spec(all: Seq<i32>, left: Seq<i32>, right: Seq<i32>) -> Seq<i32> {
    complement_spec(all, xunion_spec(right, left))
}

/// Picking goes item by item: from nothing, nothing is picked, and the last
/// item of `a` is picked behind the others where `b` holds it, or does not
/// hold it, as asked.
pub proof fn lemma_pick_push(a: Seq<i32>, b: Seq<i32>, keep: bool, v: i32)
    ensures
        pick(Seq::<i32>::empty(), b, keep) == Seq::<i32>::empty(),
        pick(a.push(v), b, keep) == if b.contains(v) == keep {
            pick(a, b, keep).push(v)
        } else {
            pick(a, b, keep)
        },
{
    reveal(Seq::filter);
    a.lemma_filter_push(v, |x: i32| b.contains(x) == keep);
}

/// What is picked from `a` is what `a` holds and `b` holds, or does not
/// hold, as asked.
pub proof fn lemma_pick_holds(a: Seq<i32>, b: Seq<i32>, keep: bool, x: i32)
    ensures
        pick(a, b, keep).contains(x) <==> a.contains(x) && b.contains(x) == keep,
    decreases a.len(),
{
    reveal(Seq::filter);
    let pred = |v: i32| b.contains(v) == keep;
    let picked = pick(a, b, keep);
    if a.len() > 0 {
        let rest = a.drop_last();
        let below = pick(rest, b, keep);
        lemma_pick_holds(rest, b, keep, x);
        assert(picked == if pred(a.last()) {
            below.push(a.last())
        } else {
            below
        });
        if picked.contains(x) {
            let i = choose|i: int| 0 <= i < picked.len() && picked[i] == x;
            if i < below.len() {
                assert(below[i] == x);
                assert(below.contains(x));
                let k = choose|k: int| 0 <= k < rest.len() && rest[k] == x;
                assert(a[k] == x);
            } else {
                assert(a[a.len() - 1] == x);
            }
        }
        if a.contains(x) && b.contains(x) == keep {
            let k = choose|k: int| 0 <= k < a.len() && a[k] == x;
            if k < rest.len() {
                assert(rest[k] == x);
                assert(rest.contains(x));
                let i = choose|i: int| 0 <= i < below.len() && below[i] == x;
                assert(picked[i] == x);
            } else {
                assert(picked[picked.len() - 1] == x);
            }
        }
    }
}

/// A sequence that is two sequences joined holds what one of them holds.
pub proof fn lemma_joined_holds(a: Seq<i32>, b: Seq<i32>, x: i32)
    ensures
        (a + b).contains(x) <==> a.contains(x) || b.contains(x),
{
    let joined = a + b;
    if joined.contains(x) {
        let i = choose|i: int| 0 <= i < joined.len() && joined[i] == x;
        if i < a.len() {
            assert(a[i] == x);
        } else {
            assert(b[i - a.len()] == x);
        }
    }
    if a.contains(x) {
        let i = choose|i: int| 0 <= i < a.len() && a[i] == x;
        assert(joined[i] == x);
    }
    if b.contains(x) {
        let i = choose|i: int| 0 <= i < b.len() && b[i] == x;
        assert(joined[a.len() + i] == x);
    }
}

/// The operations on sets mean what the operators of a formula mean: an
/// item of the set of everything is in the negation of a set where it is not
/// in the set, in the conjunction where it is in both, in the disjunction
/// where it is in one, in the exclusive or where it is in one only, in the
/// implication where it is in the right set if it is in the left one, and in
/// the equivalence where it is in both or in neither.
pub proof fn lemma_set_operators(all: Seq<i32>, left: Seq<i32>, right: Seq<i32>, x: i32)
    ensures
        complement_spec(all, right).contains(x) <==> all.contains(x) && !right.contains(x),
        intersection_spec(right, left).contains(x) <==> left.contains(x) && right.contains(x),
        union_spec(right, left).contains(x) <==> left.contains(x) || right.contains(x),
        xunion_spec(right, left).contains(x) <==> left.contains(x) != right.contains(x),
        implication_spec(all, left, right).contains(x) <==> all.contains(x) && (left.contains(x)
            ==> right.contains(x)),
        equivalence_spec(all, left, right).contains(x) <==> all.contains(x) && (left.contains(x)
            <==> right.contains(x)),
{
    lemma_pick_holds(all, right, false, x);
    lemma_pick_holds(left, right, true, x);
    lemma_pick_holds(left, right, false, x);
    lemma_pick_holds(right, left, false, x);
    lemma_joined_holds(right, pick(left, right, false), x);
    lemma_joined_holds(pick(right, left, false), pick(left, right, false), x);
    lemma_pick_holds(all, complement_spec(left, right), false, x);
    lemma_pick_holds(all, xunion_spec(right, left), false, x);
}

/// The stack of sets after one character of a formula. A capital letter
/// pushes the set of its place in the alphabet. An operator takes the
/// topmost item as its right operand and the one below as its left one;
/// negation, implication and equivalence are taken within `all`.
pub open spec fn set_step_spec(
    stack: Seq<Seq<i32>>,
    sets: Seq<Seq<i32>>,
    all: Seq<i32>,
    c: char,
) -> Result<Seq<Seq<i32>>, LogicError> {
    let n = stack.len() as int;
    let left = stack[n - 2];
    let right = stack[n - 1];
    let rest = stack.take(n - 2);
    if 'A' <= c && c <= 'Z' {
        let index = c as int - 'A' as int;
        if index < sets.len() {
            Ok(stack.push(sets[index]))
        } else {
            Err(LogicError::UnknownVar)
        }
    } else if c == '!' {
        if n < 1 {
            Err(LogicError::MissingOperand(c))
        } else {
            Ok(stack.take(n - 1).push(complement_spec(all, right)))
        }
    } else if c == '&' || c == '|' || c == '^' || c == '>' || c == '=' {
        if n < 2 {
            Err(LogicError::MissingOperand(c))
        } else if c == '&' {
            Ok(rest.push(intersection_spec(right, left)))
        } else if c == '|' {
            Ok(rest.push(union_spec(right, left)))
        } else if c == '^' {
            Ok(rest.push(xunion_spec(right, left)))
        } else if c == '>' {
            Ok(rest.push(implication_spec(all, left, right)))
        } else {
            Ok(rest.push(equivalence_spec(all, left, right)))
        }
    } else {
        Err(LogicError::UnrecognizedSymbol(c))
    }
}

/// The stack after a left-to-right scan of a formula over sets, or the
/// error of the first character that fails.
pub open spec fn set_scan_spec(formula: Seq<char>, sets: Seq<Seq<i32>>) -> Result<
    Seq<Seq<i32>>,
    LogicError,
>
    decreases formula.len(),
{
    if formula.len() == 0 {
        Ok(Seq::empty())
    } else {
        match set_scan_spec(formula.drop_last(), sets) {
            Err(e) => Err(e),
            Ok(stack) => set_step_spec(stack, sets, universe(sets), formula.last()),
        }
    }
}

/// The value of a formula over sets: the one set that the scan leaves.
pub open spec fn eval_set_spec(formula: Seq<char>, sets: Seq<Seq<i32>>) -> Result<
    Seq<i32>,
    LogicError,
> {
    match set_scan_spec(formula, sets) {
        Err(e) => Err(e),
        Ok(stack) => if stack.len() == 1 {
            Ok(stack[0])
        } else {
            Err(LogicError::IncompleteFormula { expected: 1, actual: stack.len() as usize })
        },
    }
}

/// A scan goes on by one character: the stack after a formula and one more
/// character is the stack after the formula with that character applied.
pub proof fn lemma_set_scan_push(formula: Seq<char>, sets: Seq<Seq<i32>>, c: char)
    ensures
        set_scan_spec(formula.push(c), sets) == match set_scan_spec(formula, sets) {
            Err(e) => Err(e),
            Ok(stack) => set_step_spec(stack, sets, universe(sets), c),
        },
{
    assert(formula.push(c).drop_last() == formula);
}

/// A scan that has failed stays failed.
pub proof fn lemma_set_error_stays(formula: Seq<char>, sets: Seq<Seq<i32>>, n: int)
    requires
        0 <= n <= formula.len(),
        set_scan_spec(formula.take(n), sets) is Err,
    ensures
        set_scan_spec(formula, sets) == set_scan_spec(formula.take(n), sets),
    decreases formula.len() - n,
{
    if n == formula.len() {
        assert(formula.take(n) == formula);
    } else {
        assert(formula.take(n + 1).drop_last() == formula.take(n));
        lemma_set_error_stays(formula, sets, n + 1);
    }
}

/// The union of the given sets, taken in their order.
pub fn union_of_all(sets: &Vec<Vec<i32>>) -> (all: Vec<i32>)
    ensures
        all@ == universe(views(sets@)),
{
    let mut all: Vec<i32> = Vec::new();
    let mut i: usize = 0;
    assert(views(sets@).take(0) == Seq::<Seq<i32>>::empty());
    while i < sets.len()
        invariant
            i <= sets.len(),
            all@ == universe(views(sets@).take(i as int)),
        decreases sets.len() - i,
    {
        assert(views(sets@).take(i + 1).drop_last() == views(sets@).take(i as int));
        all = union(all, copy_of(&sets[i]));
        i += 1;
    }
    assert(views(sets@).take(sets@.len() as int) == views(sets@));
    all
}

/// Applies one character to the stack of sets. On an error the stack is
/// left as it was.
pub fn set_step(stack: &mut Vec<Vec<i32>>, sets: &Vec<Vec<i32>>, all: &Vec<i32>, c: char) -> (r:
    Result<(), LogicError>)
    ensures
        match set_step_spec(views(old(stack)@), views(sets@), all@, c) {
            Ok(next) => r is Ok && views(final(stack)@) == next,
            Err(e) => r == Err::<(), LogicError>(e) && final(stack)@ == old(stack)@,
        },
{
    let ghost before = views(stack@);
    let ghost n = stack@.len() as int;
    if c >= 'A' && c <= 'Z' {
        let index = (c as u32 - 'A' as u32) as usize;
        if index >= sets.len() {
            return Err(LogicError::UnknownVar);
        }
        stack.push(copy_of(&sets[index]));
        assert(views(stack@) == before.push(views(sets@)[index as int]));
        return Ok(());
    }
    match c {
        '!' => {
            let val = pop_from_stack(stack, c)?;
            assert(views(stack@) == before.take(n - 1));
            stack.push(complement(copy_of(all), val));
            assert(views(stack@) == before.take(n - 1).push(complement_spec(all@, before[n - 1])));
        },
        '&' | '|' | '^' | '>' | '=' => {
            if stack.len() < 2 {
                return Err(LogicError::MissingOperand(c));
            }
            let right = pop_from_stack(stack, c)?;
            let left = pop_from_stack(stack, c)?;
            assert(views(stack@) == before.take(n - 2));
            assert(right@ == before[n - 1] && left@ == before[n - 2]);
            let value = match c {
                '&' => intersection(right, left),
                '|' => union(right, left),
                '^' => xunion(right, left),
                '>' => complement(copy_of(all), complement(left, right)),
                _ => complement(copy_of(all), xunion(right, left)),
            };
            let ghost pushed = value@;
            stack.push(value);
            assert(views(stack@) == before.take(n - 2).push(pushed));
        },
        _ => {
            return Err(LogicError::UnrecognizedSymbol(c));
        },
    }
    Ok(())
}

/// Evaluates a formula in reverse-Polish notation over sets: the letter
/// `A` stands for the first of `sets`, `B` for the second, and so on.
pub fn try_eval_set(formula: &str, sets: Vec<Vec<i32>>) -> (r: Result<Vec<i32>, LogicError>)
    ensures
        match eval_set_spec(formula@, views(sets@)) {
            Ok(value) => r is Ok && r->Ok_0@ == value,
            Err(e) => r is Err && r->Err_0 == e,
        },
{
    let mut stack: Vec<Vec<i32>> = Vec::new();
    let all = union_of_all(&sets);
    assert(formula@.take(0) == Seq::<char>::empty());
    assert(views(stack@) == Seq::<Seq<i32>>::empty());
    for c in it: formula.chars()
        invariant
            set_scan_spec(formula@.take(it.index() as int), views(sets@)) == Ok::<
                Seq<Seq<i32>>,
                LogicError,
            >(views(stack@)),
            all@ == universe(views(sets@)),
            it.seq() == formula@,
    {
        let ghost n = it.index() as int;
        proof {
            assert(formula@.take(n + 1).drop_last() == formula@.take(n));
            assert(formula@.take(n + 1).last() == c);
        }
        match set_step(&mut stack, &sets, &all, c) {
            Err(e) => {
                proof {
                    lemma_set_error_stays(formula@, views(sets@), n + 1);
                }
                return Err(e);
            },
            Ok(()) => {},
        }
    }
    assert(formula@.take(formula@.len() as int) == formula@);
    if stack.len() != 1 {
        return Err(LogicError::IncompleteFormula { expected: 1, actual: stack.len() });
    }
    match stack.pop() {
        Some(value) => Ok(value),
        None => Err(LogicError::IncompleteFormula { expected: 1, actual: 0 }),
    }
}

/// Evaluates a formula in reverse-Polish notation over sets; the empty set
/// where the formula cannot be evaluated.
pub fn eval_set(formula: &str, sets: Vec<Vec<i32>>) -> (r: Vec<i32>)
    ensures
        r@ == match eval_set_spec(formula@, views(sets@)) {
            Ok(value) => value,
            Err(_) => Seq::<i32>::empty(),
        },
{
    match try_eval_set(formula, sets) {
        Ok(value) => value,
        Err(_) => Vec::new(),
    }
}

} // verus!
