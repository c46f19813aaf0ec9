//! Rank-1 constraint systems and their satisfiability check.
use vstd::prelude::*;
use crate::hash::HashFunction;
use crate::integer::Integer;

verus! {

/// A snapshot of a circuit input's value, tagged with the input's index.
#[derive(Debug)]
pub struct Variable {
    pub index: usize,
    pub value: Integer,
}

/// The relation a constraint asserts between its three linear combinations.
#[derive(Clone, Copy, Debug, PartialEq, Eq, Structural)]
pub enum Operation {
    Add,
    Mul,
    Hash,
}

/// `left OP right == output`, each side a linear combination of
/// `(variable, coefficient)` terms.
pub struct Constraint {
    pub left: Vec<(Variable, Integer)>,
    pub right: Vec<(Variable, Integer)>,
    pub output: Vec<(Variable, Integer)>,
    pub operation: Operation,
}

/// Compiled variables and an append-only sequence of constraints.
pub struct R1CS {
    pub variables: Vec<Variable>,
    pub constraints: Vec<Constraint>,
}

/// The coefficient-weighted sum of the terms' values.
pub open spec fn lc_value(terms: Seq<(Variable, Integer)>) -> int
    decreases terms.len(),
{
    if terms.len() == 0 {
        0
    } else {
        lc_value(terms.drop_last()) + terms.last().0.value@ * terms.last().1@
    }
}

/// Whether `left`, `right` and `output` of `c` stand in its operation's relation.
/// A hash relation holds only where a hash function is given.
pub open spec fn constraint_holds<H: HashFunction>(c: Constraint, hash_function: Option<H>) -> bool {
    let l = lc_value(c.left@);
    let r = lc_value(c.right@);
    let o = lc_value(c.output@);
    match c.operation {
        Operation::Add => l + r == o,
        Operation::Mul => l * r == o,
        Operation::Hash => match hash_function {
            Some(h) => h.hash_spec(l, r) == o,
            None => false,
        },
    }
}

/// Whether every constraint holds.
pub open spec fn all_hold<H: HashFunction>(cs: Seq<Constraint>, hash_function: Option<H>) -> bool {
    forall|i: int| 0 <= i < cs.len() ==> #[trigger] constraint_holds(cs[i], hash_function)
}

/// A hash function is given wherever a hash constraint needs one.
pub open spec fn hash_available<H: HashFunction>(cs: Seq<Constraint>, hash_function: Option<H>) -> bool {
    hash_function.is_some() || forall|i: int| 0 <= i < cs.len() ==> #[trigger] cs[i].operation != Operation::Hash
}

/// Evaluates a linear combination.
fn evaluate(terms: &Vec<(Variable, Integer)>) -> (r: Integer)
    ensures
        r@ == lc_value(terms@),
{
    let mut acc = Integer::zero();
    let mut j: usize = 0;
    while j < terms.len()
        invariant
            j <= terms@.len(),
            acc@ == lc_value(terms@.subrange(0, j as int)),
        decreases terms.len() - j,
    {
        let term = terms[j].0.value.mul(&terms[j].1);
        acc = acc.add(&term);
        proof {
            assert(terms@.subrange(0, j + 1).drop_last() =~= terms@.subrange(0, j as int));
        }
        j += 1;
    }
    assert(terms@.subrange(0, j as int) =~= terms@);
    acc
}

impl R1CS {
    /// An empty system.
    pub fn new() -> (r: R1CS)
        ensures
            r.variables@.len() == 0,
            r.constraints@.len() == 0,
    {
        R1CS { variables: Vec::new(), constraints: Vec::new() }
    }

    /// Appends the constraint `left operation right == output`.
    pub fn add_constraints(
        &mut self,
        left: Vec<(Variable, Integer)>,
        right: Vec<(Variable, Integer)>,
        output: Vec<(Variable, Integer)>,
        operation: Operation,
    )
        ensures
            final(self).variables@ == old(self).variables@,
            final(self).constraints@ == old(self).constraints@.push(
                Constraint { left, right, output, operation },
            ),
    {
        let constraint = Constraint { left, right, output, operation };
        self.constraints.push(constraint);
    }

    /// Whether every constraint holds, checked in order and stopping at the
    /// first that fails.
    pub fn is_satisfied<H: HashFunction>(&self, hash_function: &Option<H>) -> (r: bool)
        requires
            hash_available(self.constraints@, *hash_function),
        ensures
            r == all_hold(self.constraints@, *hash_function),
    {
        let mut i: usize = 0;
        while i < self.constraints.len()
            invariant
                i <= self.constraints@.len(),
                hash_available(self.constraints@, *hash_function),
                forall|k: int| 0 <= k < i ==> #[trigger] constraint_holds(self.constraints@[k], *hash_function),
            decreases self.constraints.len() - i,
        {
            let c = &self.constraints[i];
            let left_value = evaluate(&c.left);
            let right_value = evaluate(&c.right);
            let output_value = evaluate(&c.output);
            let ok = match c.operation {
                Operation::Add => left_value.add(&right_value).equals(&output_value),
                Operation::Mul => left_value.mul(&right_value).equals(&output_value),
                Operation::Hash => match hash_function {
                    Some(h) => h.hash(&left_value, &right_value).equals(&output_value),
                    None => false,
                },
            };
            if !ok {
                assert(!constraint_holds(self.constraints@[i as int], *hash_function));
                return false;
            }
            i += 1;
        }
        true
    }
}

} // verus!
