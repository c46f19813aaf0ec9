use zk_circuit::circuit::{Circuit, Gate, ProofError};
use zk_circuit::hash::{HashFunction, SimpleAddHash};
use zk_circuit::integer::Integer;
use zk_circuit::r1cs::{Operation, Variable, R1CS};

fn num(v: i64) -> Integer {
    Integer::from_i64(v)
}

fn three_input_circuit(
    x: i64,
    y: i64,
    z: i64,
    gate: Gate,
    hash: Option<SimpleAddHash>,
) -> Circuit<SimpleAddHash> {
    let mut c = Circuit::new(hash);
    c.add_input(num(x));
    c.add_input(num(y));
    c.add_input(num(z));
    c.add_gate(gate);
    c.add_output(num(z));
    c
}

#[test]
fn addition_circuit_satisfied() {
    let c = three_input_circuit(10, 20, 30, Gate::Add(0, 1, 2), None);
    assert!(c.can_compile());
    assert_eq!(c.generate_proof(), vec![1u8]);
}

#[test]
fn addition_circuit_with_wrong_output_not_satisfied() {
    let c = three_input_circuit(10, 20, 31, Gate::Add(0, 1, 2), None);
    assert_eq!(c.generate_proof(), vec![0u8]);
}

#[test]
fn addition_circuit_with_changed_operand_not_satisfied() {
    let c = three_input_circuit(11, 20, 30, Gate::Add(0, 1, 2), None);
    assert_eq!(c.generate_proof(), vec![0u8]);
}

#[test]
fn multiplication_circuit_satisfied() {
    let c = three_input_circuit(5, 4, 20, Gate::Mul(0, 1, 2), None);
    assert_eq!(c.generate_proof(), vec![1u8]);
}

#[test]
fn multiplication_circuit_with_wrong_output_not_satisfied() {
    let c = three_input_circuit(5, 4, 21, Gate::Mul(0, 1, 2), None);
    assert_eq!(c.generate_proof(), vec![0u8]);
    let d = three_input_circuit(5, 4, 9, Gate::Mul(0, 1, 2), None);
    assert_eq!(d.generate_proof(), vec![0u8]);
}

#[test]
fn hash_circuit_satisfied_with_declared_hash() {
    let c = three_input_circuit(3, 4, 7, Gate::Hash(0, 1, 2), Some(SimpleAddHash));
    assert!(c.can_compile());
    assert_eq!(c.generate_proof(), vec![1u8]);
}

#[test]
fn hash_circuit_with_other_output_not_satisfied() {
    let c = three_input_circuit(3, 4, 8, Gate::Hash(0, 1, 2), Some(SimpleAddHash));
    assert_eq!(c.generate_proof(), vec![0u8]);
}

#[test]
fn hash_gate_without_hash_function_cannot_compile() {
    let c = three_input_circuit(3, 4, 7, Gate::Hash(0, 1, 2), None);
    assert!(!c.can_compile());
}

#[test]
fn out_of_range_gate_cannot_compile() {
    let c = three_input_circuit(1, 2, 3, Gate::Add(0, 1, 3), None);
    assert!(!c.can_compile());
}

#[test]
fn gates_checked_in_order_all_must_hold() {
    let mut c: Circuit<SimpleAddHash> = Circuit::new(None);
    for v in [2, 3, 5, 15] {
        c.add_input(num(v));
    }
    c.add_gate(Gate::Add(0, 1, 2));
    c.add_gate(Gate::Mul(1, 2, 3));
    assert_eq!(c.generate_proof(), vec![1u8]);
    c.add_gate(Gate::Mul(0, 0, 3));
    assert_eq!(c.generate_proof(), vec![0u8]);
}

#[test]
fn empty_circuit_is_satisfied() {
    let c: Circuit<SimpleAddHash> = Circuit::new(None);
    assert_eq!(c.generate_proof(), vec![1u8]);
}

#[test]
fn add_input_returns_consecutive_indices() {
    let mut c: Circuit<SimpleAddHash> = Circuit::new(None);
    assert_eq!(c.add_input(num(7)), 0);
    assert_eq!(c.add_input(num(8)), 1);
    assert!(c.get_input(1).unwrap().equals(&num(8)));
    assert!(c.get_input(2).is_none());
}

#[test]
fn apply_hash_uses_configured_function() {
    let c: Circuit<SimpleAddHash> = Circuit::new(Some(SimpleAddHash));
    assert!(c.apply_hash(&num(40), &num(2)).equals(&num(42)));
}

#[test]
fn verdict_round_trip() {
    let yes = three_input_circuit(10, 20, 30, Gate::Add(0, 1, 2), None);
    assert_eq!(yes.verify_proof(&yes.generate_proof()), Ok(true));
    let no = three_input_circuit(10, 20, 31, Gate::Add(0, 1, 2), None);
    assert_eq!(no.verify_proof(&no.generate_proof()), Ok(false));
}

#[test]
fn verdict_of_wrong_length_is_format_error() {
    let c: Circuit<SimpleAddHash> = Circuit::new(None);
    assert_eq!(c.verify_proof(&[]), Err(ProofError::InvalidLength(0)));
    assert_eq!(c.verify_proof(&[1, 1]), Err(ProofError::InvalidLength(2)));
    assert_eq!(c.verify_proof(&[0]), Ok(false));
    assert_eq!(c.verify_proof(&[7]), Ok(false));
}

#[test]
fn lowering_shapes_constraints() {
    let c = three_input_circuit(3, 4, 7, Gate::Hash(0, 1, 2), Some(SimpleAddHash));
    let r = c.to_r1cs();
    assert_eq!(r.variables.len(), 3);
    assert_eq!(r.variables[2].index, 2);
    assert!(r.variables[2].value.equals(&num(7)));
    assert_eq!(r.constraints.len(), 1);
    let k = &r.constraints[0];
    assert_eq!(k.operation, Operation::Hash);
    assert_eq!(k.left.len(), 1);
    assert_eq!(k.left[0].0.index, 0);
    assert!(k.left[0].1.equals(&num(1)));
    assert_eq!(k.output[0].0.index, 2);
    assert!(k.output[0].0.value.equals(&num(7)));
    assert!(r.is_satisfied(&Some(SimpleAddHash)));
}

fn term(index: usize, value: i64, coeff: i64) -> (Variable, Integer) {
    (Variable { index, value: num(value) }, num(coeff))
}

#[test]
fn linear_combinations_are_weighted_sums() {
    let mut r = R1CS::new();
    // (2*3 + 1*4) + (5*1) == 3*5
    r.add_constraints(
        vec![term(0, 3, 2), term(1, 4, 1)],
        vec![term(2, 5, 1)],
        vec![term(2, 5, 3)],
        Operation::Add,
    );
    assert!(r.is_satisfied::<SimpleAddHash>(&None));
    // (2*3) * (5) == 30
    r.add_constraints(vec![term(0, 3, 2)], vec![term(2, 5, 1)], vec![term(3, 10, 3)], Operation::Mul);
    assert!(r.is_satisfied::<SimpleAddHash>(&None));
    r.add_constraints(vec![term(0, 3, 1)], vec![term(0, 3, 1)], vec![term(1, 4, 1)], Operation::Add);
    assert!(!r.is_satisfied::<SimpleAddHash>(&None));
}

#[test]
fn empty_combination_is_zero() {
    let mut r = R1CS::new();
    r.add_constraints(vec![], vec![], vec![], Operation::Add);
    r.add_constraints(vec![], vec![term(0, 9, 1)], vec![], Operation::Mul);
    assert!(r.is_satisfied::<SimpleAddHash>(&None));
    r.add_constraints(vec![term(0, 1, 1)], vec![], vec![term(0, 2, 1)], Operation::Hash);
    assert!(!r.is_satisfied(&Some(SimpleAddHash)));
}

#[test]
fn simple_add_hash_adds() {
    assert!(SimpleAddHash.hash(&num(1), &num(2)).equals(&num(3)));
}
