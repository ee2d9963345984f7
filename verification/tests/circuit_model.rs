//! Tests of the circuit data model: gate wiring checks, circuit validity,
//! evaluation, and the compiled layer proving information.

use virgo::circuit::{Gate, GateOp, GeneralCircuit, Layer};
use virgo::circuit_builder::Builder;
use virgo::util::LayerProvingInfo;
use virgo::Fp;

fn f(x: u32) -> Fp {
    Fp::from_u32(x)
}

fn fv(values: Vec<u32>) -> Vec<Fp> {
    values.into_iter().map(f).collect()
}

// constructs a circuit that performs a length-3 vector dot product
// [a, b, c] dot [d, e, f]
// input layer is given as follows: [a, b, c, d, e, f]
fn len_three_vector_dot_product_circuit() -> GeneralCircuit {
    GeneralCircuit::new(vec![
        Layer::new(vec![Gate::new(GateOp::Add, [(1, 0), (2, 2)])]),
        Layer::new(vec![Gate::new(GateOp::Add, [(2, 0), (2, 1)])]),
        // element-wise multiplication layer
        Layer::new(vec![
            Gate::new(GateOp::Mul, [(3, 0), (3, 3)]),
            Gate::new(GateOp::Mul, [(3, 1), (3, 4)]),
            Gate::new(GateOp::Mul, [(3, 2), (3, 5)]),
        ]),
    ])
}

fn circuit_1() -> GeneralCircuit {
    let mut builder = Builder::init();

    // input layer
    let a = builder.create_input_node();
    let b = builder.create_input_node();
    let c = builder.create_input_node();
    let d = builder.create_input_node();
    let e = builder.create_input_node();
    let ff = builder.create_input_node();

    let g = builder.add_gate(a, b, &GateOp::Add);
    let h = builder.add_gate(a, b, &GateOp::Mul);
    let j = builder.add_gate(c, d, &GateOp::Add);
    let k = builder.add_gate(e, ff, &GateOp::Add);

    let l = builder.add_gate(g, h, &GateOp::Mul);
    let m = builder.add_gate(j, d, &GateOp::Add);

    // output layer
    builder.add_gate(l, c, &GateOp::Add);
    builder.add_gate(m, k, &GateOp::Mul);

    builder.build_circuit()
}

#[test]
fn test_gate_verification() {
    // one input comes from layer 2 and the other from layer 3
    let gate = Gate::new(GateOp::Add, [(2, 0), (3, 0)]);
    // this gate has to be at layer 1 to be valid
    assert!(gate.verify(1));
    // any other gate value should fail
    assert!(!gate.verify(0));
    assert!(!gate.verify(2));
    assert!(!gate.verify(3));
}

#[test]
fn test_valid_circuit_construction() {
    let circuit = GeneralCircuit::new(vec![
        // output layer
        Layer::new(vec![Gate::new(GateOp::Add, [(1, 0), (2, 0)])]),
        Layer::new(vec![Gate::new(GateOp::Mul, [(3, 0), (2, 0)])]),
        Layer::new(vec![Gate::new(GateOp::Add, [(3, 1), (3, 2)])]),
    ]);
    assert!(circuit.verify())
}

#[test]
fn test_invalid_circuit_construction() {
    let circuit = GeneralCircuit::new(vec![
        // output layer
        Layer::new(vec![Gate::new(GateOp::Add, [(1, 0), (2, 0)])]),
        // problem point, all gates on layer 1 must get at least one
        // input from layer 2
        Layer::new(vec![Gate::new(GateOp::Mul, [(3, 1), (3, 0)])]),
        Layer::new(vec![Gate::new(GateOp::Add, [(3, 1), (3, 2)])]),
    ]);
    assert!(!circuit.verify())
}

#[test]
fn test_gate_eval() {
    let add_gate = Gate::new(GateOp::Add, [(0, 0), (0, 0)]);
    assert_eq!(f(32), add_gate.eval(&f(12), &f(20)));

    let mul_gate = Gate::new(GateOp::Mul, [(0, 0), (0, 0)]);
    assert_eq!(f(240), mul_gate.eval(&f(12), &f(20)));
}

#[test]
fn test_circuit_evaluation() {
    let circuit = len_three_vector_dot_product_circuit();
    let evaluations = circuit.eval(&fv(vec![1, 2, 3, 4, 5, 6]));
    assert_eq!(
        evaluations,
        vec![
            fv(vec![32]),
            fv(vec![14]),
            fv(vec![4, 10, 18]),
            fv(vec![1, 2, 3, 4, 5, 6]),
        ]
    );

    let circuit = circuit_1();
    let evaluations = circuit.eval(&fv(vec![1, 2, 3, 4, 5, 6]));
    assert_eq!(
        evaluations,
        vec![
            fv(vec![9, 121]),
            fv(vec![6, 11]),
            fv(vec![3, 2, 7, 11]),
            fv(vec![1, 2, 3, 4, 5, 6]),
        ]
    );
}

#[test]
fn test_layer_info_generation() {
    let circuit = circuit_1();
    let output_layer_proving_info = circuit.generate_layer_proving_info(0);
    let no_entries: Vec<[usize; 3]> = vec![];
    assert_eq!(
        output_layer_proving_info,
        LayerProvingInfo {
            layer_id: 0,
            v_subset_instruction: vec![vec![0, 1], vec![3], vec![2]],
            add_subsets: vec![no_entries.clone(), no_entries.clone(), vec![[0, 0, 0]]],
            mul_subsets: vec![no_entries.clone(), vec![[1, 1, 0]], no_entries.clone()],
        }
    );

    let evaluations = circuit.eval(&fv(vec![1, 2, 3, 4, 5, 6]));

    let layer_info_with_subset = output_layer_proving_info.extract_subsets(&evaluations);
    assert_eq!(
        layer_info_with_subset.v_subsets,
        vec![fv(vec![6, 11]), fv(vec![11]), fv(vec![3])]
    );

    let output_layer_proving_info = circuit.generate_layer_proving_info(1);
    assert_eq!(
        output_layer_proving_info,
        LayerProvingInfo {
            layer_id: 1,
            v_subset_instruction: vec![vec![0, 1, 2], vec![3]],
            add_subsets: vec![no_entries.clone(), vec![[1, 2, 0]]],
            mul_subsets: vec![vec![[0, 0, 1]], no_entries.clone()],
        }
    );
}

#[test]
fn test_subset_extraction_round_trip() {
    // every extracted value must equal the evaluation-table entry its
    // instruction names, bucket by bucket and slot by slot
    let circuit = circuit_1();
    let evaluations = circuit.eval(&fv(vec![1, 2, 3, 4, 5, 6]));
    for layer_id in 0..circuit.layers.len() {
        let info = circuit.generate_layer_proving_info(layer_id);
        let instructions = info.v_subset_instruction.clone();
        let with_subsets = info.extract_subsets(&evaluations);
        for (d, instruction) in instructions.iter().enumerate() {
            assert_eq!(with_subsets.v_subsets[d].len(), instruction.len());
            for (t, position) in instruction.iter().enumerate() {
                assert_eq!(
                    with_subsets.v_subsets[d][t],
                    evaluations[layer_id + 1 + d][*position]
                );
            }
        }
    }
}

#[test]
fn test_distance_bucket_completeness() {
    // every gate of a compiled layer contributes exactly one sparse triple,
    // in exactly one of the add and mul bucket families
    let circuit = circuit_1();
    for layer_id in 0..circuit.layers.len() {
        let info = circuit.generate_layer_proving_info(layer_id);
        let n_gates = circuit.layers[layer_id].gates.len();
        for gate_index in 0..n_gates {
            let mut count = 0;
            for bucket in info.add_subsets.iter().chain(info.mul_subsets.iter()) {
                for entry in bucket {
                    if entry[0] == gate_index {
                        count += 1;
                    }
                }
            }
            assert_eq!(count, 1);
        }
    }
}

#[test]
fn test_eval_is_deterministic() {
    let circuit = circuit_1();
    let first = circuit.eval(&fv(vec![1, 2, 3, 4, 5, 6]));
    let second = circuit.eval(&fv(vec![1, 2, 3, 4, 5, 6]));
    assert_eq!(first, second);
}

#[test]
fn test_wiring_invariant_mutations() {
    // deepening a valid gate's own layer, or breaking adjacency, must fail
    let gate = Gate::new(GateOp::Mul, [(4, 0), (2, 1)]);
    assert!(gate.verify(1));
    // both inputs must be strictly deeper
    let too_shallow = Gate::new(GateOp::Mul, [(1, 0), (2, 1)]);
    assert!(!too_shallow.verify(1));
    // at least one input must come from the adjacent layer
    let skips_both = Gate::new(GateOp::Mul, [(4, 0), (3, 1)]);
    assert!(!skips_both.verify(1));
}
