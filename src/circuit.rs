//! Circuits of binary gates over an append-only input sequence, their lowering
//! into an R1CS, and the one-byte satisfiability verdict.
use vstd::prelude::*;
use crate::hash::HashFunction;
use crate::integer::Integer;
use crate::r1cs::{constraint_holds, lc_value, Constraint, Operation, Variable, R1CS};

verus! {

/// A binary gate; each field indexes the circuit's inputs: first operand,
/// second operand, output.
#[derive(Clone, Copy, Debug, PartialEq, Eq, Structural)]
pub enum Gate {
    Add(usize, usize, usize),
    Mul(usize, usize, usize),
    Hash(usize, usize, usize),
}

/// A persisted verdict that does not have the one-byte format; it carries the
/// length that was found.
#[derive(Clone, Copy, Debug, PartialEq, Eq, Structural)]
pub enum ProofError {
    InvalidLength(usize),
}

/// The operand and output indices of a gate.
pub open spec fn gate_operands(g: Gate) -> (usize, usize, usize) {
    match g {
        Gate::Add(a, b, o) => (a, b, o),
        Gate::Mul(a, b, o) => (a, b, o),
        Gate::Hash(a, b, o) => (a, b, o),
    }
}

/// The constraint operation a gate is lowered to.
pub open spec fn gate_operation(g: Gate) -> Operation {
    match g {
        Gate::Add(..) => Operation::Add,
        Gate::Mul(..) => Operation::Mul,
        Gate::Hash(..) => Operation::Hash,
    }
}

/// Every index of every gate is below `n`.
pub open spec fn gates_in_bounds(gates: Seq<Gate>, n: nat) -> bool {
    forall|i: int|
        0 <= i < gates.len() ==> {
            let (a, b, o) = #[trigger] gate_operands(gates[i]);
            a < n && b < n && o < n
        }
}

/// A hash function is given wherever a hash gate needs one.
pub open spec fn hash_configured<H: HashFunction>(gates: Seq<Gate>, hash_function: Option<H>) -> bool {
    hash_function.is_some() || forall|i: int|
        0 <= i < gates.len() ==> !(#[trigger] gates[i] is Hash)
}

/// Whether a gate holds of the input values: the sum, the product or the hash
/// of its operands equals the value at its output index.
pub open spec fn gate_holds<H: HashFunction>(g: Gate, inputs: Seq<int>, hash_function: Option<H>) -> bool {
    let (a, b, o) = gate_operands(g);
    match g {
        Gate::Add(..) => inputs[a as int] + inputs[b as int] == inputs[o as int],
        Gate::Mul(..) => inputs[a as int] * inputs[b as int] == inputs[o as int],
        Gate::Hash(..) => match hash_function {
            Some(h) => h.hash_spec(inputs[a as int], inputs[b as int]) == inputs[o as int],
            None => false,
        },
    }
}

/// Whether every gate holds of the input values.
pub open spec fn gates_hold<H: HashFunction>(gates: Seq<Gate>, inputs: Seq<int>, hash_function: Option<H>) -> bool {
    forall|i: int| 0 <= i < gates.len() ==> #[trigger] gate_holds(gates[i], inputs, hash_function)
}

/// A linear combination of the single term `(Variable { index, value }, 1)`.
pub open spec fn single_term(t: Seq<(Variable, Integer)>, index: usize, value: int) -> bool {
    &&& t.len() == 1
    &&& t[0].0.index == index
    &&& t[0].0.value@ == value
    &&& t[0].1@ == 1
}

/// `c` is what `g` lowers to: its operand and output inputs, each with
/// coefficient 1, under its own operation.
pub open spec fn lowered_from(c: Constraint, g: Gate, inputs: Seq<int>) -> bool {
    let (a, b, o) = gate_operands(g);
    &&& single_term(c.left@, a, inputs[a as int])
    &&& single_term(c.right@, b, inputs[b as int])
    &&& single_term(c.output@, o, inputs[o as int])
    &&& c.operation == gate_operation(g)
}

/// The persisted outcome of a check, `[1]` when satisfied and `[0]` otherwise.
pub open spec fn verdict_bytes(satisfied: bool) -> Seq<u8> {
    seq![if satisfied { 1u8 } else { 0u8 }]
}

/// What a persisted verdict reads as: one byte, `1` meaning satisfied; any
/// other length is a format error.
pub open spec fn read_verdict(data: Seq<u8>) -> Result<bool, ProofError> {
    if data.len() == 1 {
        Ok(data[0] == 1)
    } else {
        Err(ProofError::InvalidLength(data.len() as usize))
    }
}

proof fn lemma_single_term_value(t: Seq<(Variable, Integer)>, index: usize, value: int)
    requires
        single_term(t, index, value),
    ensures
        lc_value(t) == value,
{
    assert(t.drop_last().len() == 0);
    assert(lc_value(t.drop_last()) == 0);
}

proof fn lemma_lowered_holds<H: HashFunction>(c: Constraint, g: Gate, inputs: Seq<int>, hash_function: Option<H>)
    requires
        lowered_from(c, g, inputs),
    ensures
        constraint_holds(c, hash_function) == gate_holds(g, inputs, hash_function),
{
    let (a, b, o) = gate_operands(g);
    lemma_single_term_value(c.left@, a, inputs[a as int]);
    lemma_single_term_value(c.right@, b, inputs[b as int]);
    lemma_single_term_value(c.output@, o, inputs[o as int]);
}

/// A circuit: ordered inputs, gates evaluated in insertion order, informational
/// outputs, and an optional hash function for hash gates.
pub struct Circuit<H: HashFunction> {
    hash_function: Option<H>,
    inputs: Vec<Integer>,
    gates: Vec<Gate>,
    outputs: Vec<Integer>,
}

impl<H: HashFunction> Circuit<H> {
    /// The values of the inputs, in order.
    pub closed spec fn inputs_view(&self) -> Seq<int> {
        self.inputs@.map_values(|x: Integer| x@)
    }

    /// The gates, in order.
    pub closed spec fn gates_view(&self) -> Seq<Gate> {
        self.gates@
    }

    /// The values of the declared outputs, in order.
    pub closed spec fn outputs_view(&self) -> Seq<int> {
        self.outputs@.map_values(|x: Integer| x@)
    }

    /// The configured hash function.
    pub closed spec fn hasher(&self) -> Option<H> {
        self.hash_function
    }

    /// An empty circuit with the given hash function.
    pub fn new(hash_function: Option<H>) -> (r: Self)
        ensures
            r.hasher() == hash_function,
            r.inputs_view() == Seq::<int>::empty(),
            r.gates_view() == Seq::<Gate>::empty(),
            r.outputs_view() == Seq::<int>::empty(),
    {
        let r = Circuit { hash_function, inputs: Vec::new(), gates: Vec::new(), outputs: Vec::new() };
        assert(r.inputs_view() =~= Seq::<int>::empty());
        assert(r.outputs_view() =~= Seq::<int>::empty());
        r
    }

    /// Appends an input and returns its index, the previous number of inputs.
    pub fn add_input(&mut self, input: Integer) -> (r: usize)
        ensures
            r == old(self).inputs_view().len(),
            final(self).inputs_view() == old(self).inputs_view().push(input@),
            final(self).gates_view() == old(self).gates_view(),
            final(self).outputs_view() == old(self).outputs_view(),
            final(self).hasher() == old(self).hasher(),
    {
        let index = self.inputs.len();
        self.inputs.push(input);
        assert(self.inputs_view() =~= old(self).inputs_view().push(input@));
        index
    }

    /// The input at `index`, or `None` where there is none.
    pub fn get_input(&self, index: usize) -> (r: Option<&Integer>)
        ensures
            index < self.inputs_view().len() ==> r is Some && r->0@ == self.inputs_view()[index as int],
            index >= self.inputs_view().len() ==> r is None,
    {
        if index < self.inputs.len() {
            Some(&self.inputs[index])
        } else {
            None
        }
    }

    /// Appends a gate; its indices are checked only when the circuit is lowered.
    pub fn add_gate(&mut self, gate: Gate)
        ensures
            final(self).gates_view() == old(self).gates_view().push(gate),
            final(self).inputs_view() == old(self).inputs_view(),
            final(self).outputs_view() == old(self).outputs_view(),
            final(self).hasher() == old(self).hasher(),
    {
        self.gates.push(gate);
    }

    /// Appends a declared output.
    pub fn add_output(&mut self, output: Integer)
        ensures
            final(self).outputs_view() == old(self).outputs_view().push(output@),
            final(self).inputs_view() == old(self).inputs_view(),
            final(self).gates_view() == old(self).gates_view(),
            final(self).hasher() == old(self).hasher(),
    {
        self.outputs.push(output);
        assert(self.outputs_view() =~= old(self).outputs_view().push(output@));
    }

    /// The configured hash function applied to `a` and `b`.
    pub fn apply_hash(&self, a: &Integer, b: &Integer) -> (r: Integer)
        requires
            self.hasher() is Some,
        ensures
            r@ == self.hasher()->0.hash_spec(a@, b@),
    {
        match &self.hash_function {
            Some(h) => h.hash(a, b),
            None => Integer::zero(),
        }
    }

    /// A term `(Variable { index, value: inputs[index] }, 1)`.
    fn input_term(&self, index: usize) -> (r: Vec<(Variable, Integer)>)
        requires
            index < self.inputs_view().len(),
        ensures
            single_term(r@, index, self.inputs_view()[index as int]),
    {
        let v = Variable { index, value: self.inputs[index].clone() };
        vec![(v, Integer::from_i64(1))]
    }

    /// Lowers the circuit: the variables are the inputs with their indices, and
    /// each gate in order becomes one constraint over its operand and output
    /// inputs. A hash gate's output term carries the input stored at its output
    /// index, so the check compares the recomputed hash with that declared value.
    pub fn to_r1cs(&self) -> (r: R1CS)
        requires
            gates_in_bounds(self.gates_view(), self.inputs_view().len()),
        ensures
            r.variables@.len() == self.inputs_view().len(),
            forall|i: int|
                0 <= i < r.variables@.len() ==> #[trigger] r.variables@[i].index == i
                    && r.variables@[i].value@ == self.inputs_view()[i],
            r.constraints@.len() == self.gates_view().len(),
            forall|i: int|
                0 <= i < r.constraints@.len() ==> #[trigger] lowered_from(
                    r.constraints@[i],
                    self.gates_view()[i],
                    self.inputs_view(),
                ),
    {
        let mut r1cs = R1CS::new();
        let mut i: usize = 0;
        while i < self.inputs.len()
            invariant
                i <= self.inputs@.len(),
                r1cs.constraints@.len() == 0,
                r1cs.variables@.len() == i,
                forall|k: int|
                    0 <= k < i ==> #[trigger] r1cs.variables@[k].index == k
                        && r1cs.variables@[k].value@ == self.inputs_view()[k],
            decreases self.inputs.len() - i,
        {
            r1cs.variables.push(Variable { index: i, value: self.inputs[i].clone() });
            i += 1;
        }
        let mut j: usize = 0;
        while j < self.gates.len()
            invariant
                j <= self.gates@.len(),
                gates_in_bounds(self.gates_view(), self.inputs_view().len()),
                r1cs.variables@.len() == self.inputs_view().len(),
                forall|k: int|
                    0 <= k < r1cs.variables@.len() ==> #[trigger] r1cs.variables@[k].index == k
                        && r1cs.variables@[k].value@ == self.inputs_view()[k],
                r1cs.constraints@.len() == j,
                forall|k: int|
                    0 <= k < j ==> #[trigger] lowered_from(
                        r1cs.constraints@[k],
                        self.gates_view()[k],
                        self.inputs_view(),
                    ),
            decreases self.gates.len() - j,
        {
            let gate = self.gates[j];
            assert(gate_operands(self.gates_view()[j as int]) == gate_operands(gate));
            let (a, b, o, operation) = match gate {
                Gate::Add(a, b, o) => (a, b, o, Operation::Add),
                Gate::Mul(a, b, o) => (a, b, o, Operation::Mul),
                Gate::Hash(a, b, o) => (a, b, o, Operation::Hash),
            };
            let left = self.input_term(a);
            let right = self.input_term(b);
            let output = self.input_term(o);
            r1cs.add_constraints(left, right, output, operation);
            j += 1;
        }
        r1cs
    }

    /// Whether the circuit can be lowered and checked: every gate index is an
    /// input's, and a hash function is configured if any gate is a hash gate.
    pub fn can_compile(&self) -> (r: bool)
        ensures
            r == (gates_in_bounds(self.gates_view(), self.inputs_view().len())
                && hash_configured(self.gates_view(), self.hasher())),
    {
        let n = self.inputs.len();
        let mut has_hash = false;
        let mut j: usize = 0;
        while j < self.gates.len()
            invariant
                j <= self.gates@.len(),
                n == self.inputs_view().len(),
                gates_in_bounds(self.gates@.subrange(0, j as int), n as nat),
                has_hash == exists|k: int| 0 <= k < j && #[trigger] self.gates@[k] is Hash,
            decreases self.gates.len() - j,
        {
            let gate = self.gates[j];
            let (a, b, o, is_hash) = match gate {
                Gate::Add(a, b, o) => (a, b, o, false),
                Gate::Mul(a, b, o) => (a, b, o, false),
                Gate::Hash(a, b, o) => (a, b, o, true),
            };
            if a >= n || b >= n || o >= n {
                assert(!gates_in_bounds(self.gates_view(), self.inputs_view().len())) by {
                    assert(gate_operands(self.gates_view()[j as int]) == (a, b, o));
                }
                return false;
            }
            if is_hash {
                has_hash = true;
            }
            proof {
                let next = self.gates@.subrange(0, j + 1);
                assert forall|i: int| 0 <= i < next.len() implies {
                    let (a, b, o) = #[trigger] gate_operands(next[i]);
                    a < n && b < n && o < n
                } by {
                    if i < j {
                        assert(next[i] == self.gates@.subrange(0, j as int)[i]);
                    }
                }
            }
            j += 1;
        }
        assert(self.gates@.subrange(0, j as int) =~= self.gates@);
        match &self.hash_function {
            Some(_) => true,
            None => !has_hash,
        }
    }

    /// Lowers the circuit, checks the system and returns the verdict as one
    /// byte: `1` when every gate holds of the inputs, `0` when one does not.
    pub fn generate_proof(&self) -> (r: Vec<u8>)
        requires
            gates_in_bounds(self.gates_view(), self.inputs_view().len()),
            hash_configured(self.gates_view(), self.hasher()),
        ensures
            r@ == verdict_bytes(gates_hold(self.gates_view(), self.inputs_view(), self.hasher())),
    {
        let r1cs = self.to_r1cs();
        proof {
            assert forall|i: int| 0 <= i < r1cs.constraints@.len() implies constraint_holds(
                r1cs.constraints@[i],
                self.hash_function,
            ) == gate_holds(self.gates@[i], self.inputs_view(), self.hash_function) by {
                lemma_lowered_holds(r1cs.constraints@[i], self.gates@[i], self.inputs_view(), self.hash_function);
            }
            if self.hash_function is None {
                assert forall|i: int| 0 <= i < r1cs.constraints@.len() implies #[trigger] r1cs.constraints@[i].operation != Operation::Hash by {
                    assert(lowered_from(r1cs.constraints@[i], self.gates@[i], self.inputs_view()));
                    assert(!(self.gates@[i] is Hash));
                }
            }
        }
        let satisfied = r1cs.is_satisfied(&self.hash_function);
        proof {
            if satisfied {
                assert forall|i: int| 0 <= i < self.gates@.len() implies #[trigger] gate_holds(
                    self.gates@[i],
                    self.inputs_view(),
                    self.hash_function,
                ) by {
                    assert(constraint_holds(r1cs.constraints@[i], self.hash_function));
                }
            } else {
                let k = choose|k: int| 0 <= k < r1cs.constraints@.len() && !#[trigger] constraint_holds(r1cs.constraints@[k], self.hash_function);
                assert(!gate_holds(self.gates@[k], self.inputs_view(), self.hash_function));
            }
        }
        let byte: u8 = if satisfied { 1 } else { 0 };
        let r = vec![byte];
        assert(r@ =~= verdict_bytes(gates_hold(self.gates_view(), self.inputs_view(), self.hasher())));
        r
    }

    /// Reads a persisted verdict; `[1]` means satisfied.
    pub fn verify_proof(&self, proof_data: &[u8]) -> (r: Result<bool, ProofError>)
        ensures
            r == read_verdict(proof_data@),
    {
        if proof_data.len() != 1 {
            Err(ProofError::InvalidLength(proof_data.len()))
        } else {
            Ok(proof_data[0] == 1)
        }
    }
}

} // verus!

verus! {

/// An addition gate over the inputs `x`, `y`, `z` holds exactly when
/// `x + y == z`, whatever the hash function.
pub proof fn lemma_add_circuit_verdict<H: HashFunction>(x: int, y: int, z: int, hash_function: Option<H>)
    ensures
        gates_hold(seq![Gate::Add(0, 1, 2)], seq![x, y, z], hash_function) == (x + y == z),
{
    assert(gate_holds(seq![Gate::Add(0, 1, 2)][0], seq![x, y, z], hash_function) == (x + y == z));
}

/// A multiplication gate over the inputs `x`, `y`, `z` holds exactly when
/// `x * y == z`, whatever the hash function.
pub proof fn lemma_mul_circuit_verdict<H: HashFunction>(x: int, y: int, z: int, hash_function: Option<H>)
    ensures
        gates_hold(seq![Gate::Mul(0, 1, 2)], seq![x, y, z], hash_function) == (x * y == z),
{
    assert(gate_holds(seq![Gate::Mul(0, 1, 2)][0], seq![x, y, z], hash_function) == (x * y == z));
}

/// A hash gate over the inputs `x`, `y`, `z` holds exactly when the declared
/// output `z` is `hash(x, y)`.
pub proof fn lemma_hash_circuit_verdict<H: HashFunction>(x: int, y: int, z: int, h: H)
    ensures
        gates_hold(seq![Gate::Hash(0, 1, 2)], seq![x, y, z], Some(h)) == (z == h.hash_spec(x, y)),
{
    assert(gate_holds(seq![Gate::Hash(0, 1, 2)][0], seq![x, y, z], Some(h)) == (z == h.hash_spec(x, y)));
}

/// A verdict written by `generate_proof` reads back as the same boolean.
pub proof fn lemma_verdict_round_trip(satisfied: bool)
    ensures
        read_verdict(verdict_bytes(satisfied)) == Ok::<bool, ProofError>(satisfied),
{
}

} // verus!
