//! End-to-end protocol tests: the builder, honest proving, acceptance of
//! honest proofs, and rejection of every single-field mutation.

use virgo::circuit_builder::Builder;
use virgo::circuit::{GateOp, GeneralCircuit};
use virgo::protocol::prover::{deposit_subclaims, prove};
use virgo::protocol::verify::VirgoVerifier;
use virgo::protocol::VirgoProof;
use virgo::transcript::Transcript;
use virgo::Fp;

fn f(x: u32) -> Fp {
    Fp::from_u32(x)
}

fn fv(values: Vec<u32>) -> Vec<Fp> {
    values.into_iter().map(f).collect()
}

fn circuit_1() -> GeneralCircuit {
    let mut builder = Builder::init();

    let a = builder.create_input_node();
    let b = builder.create_input_node();
    let c = builder.create_input_node();
    let d = builder.create_input_node();
    let e = builder.create_input_node();
    let ff = builder.create_input_node();

    let g = builder.add_gate(a, b, &GateOp::Add);
    let h = builder.add_gate(a, b, &GateOp::Mul);
    let j = builder.add_gate(c, d, &GateOp::Add);
    let k = builder.add_gate(e, ff, &GateOp::Add);

    let l = builder.add_gate(g, h, &GateOp::Mul);
    let m = builder.add_gate(j, d, &GateOp::Add);

    builder.add_gate(l, c, &GateOp::Add);
    builder.add_gate(m, k, &GateOp::Mul);

    builder.build_circuit()
}

// Build a circuit that computes a * x * x + 3 * x + 5 from the input
// vector [x, a, 3, 5].
fn quadratic_circuit() -> GeneralCircuit {
    let mut builder = Builder::init();

    let mul = GateOp::Mul;
    let add = GateOp::Add;

    let x = builder.create_input_node();
    let a = builder.create_input_node();
    let three = builder.create_input_node();
    let five = builder.create_input_node();

    let x_square = builder.add_gate(x, x, &mul);
    let a_x_square = builder.add_gate(a, x_square, &mul);
    let three_x = builder.add_gate(three, x, &mul);
    let a_x_square_plus_three_x = builder.add_gate(a_x_square, three_x, &add);
    let _res = builder.add_gate(a_x_square_plus_three_x, five, &add);

    builder.build_circuit()
}

#[test]
fn test_circuit_builder() {
    let mut builder = Builder::init();

    // Build a circuit that does the computation: ax^2 + 3x + 5

    let mul = GateOp::Mul;
    let add = GateOp::Add;

    // Input array = [x,a,3,5]
    // Create input nodes
    let x = builder.create_input_node();
    let a = builder.create_input_node();
    let three = builder.create_input_node();
    let five = builder.create_input_node();

    let x_square = builder.add_gate(x, x, &mul);

    let a_x_square = builder.add_gate(a, x_square, &mul);

    let three_x = builder.add_gate(three, x, &mul);

    let a_x_square_plus_three_x = builder.add_gate(a_x_square, three_x, &add);

    let _res = builder.add_gate(a_x_square_plus_three_x, five, &add);

    let circuit = builder.build_circuit();

    // where x = 3 and a = 2
    let ans = circuit.eval(&fv(vec![3, 2, 3, 5]));

    assert_eq!(ans[0][0], f(32));
}

#[test]
fn test_deposit_subclaims_container() {
    let mut subclaims_container: Vec<Vec<i32>> = vec![vec![], vec![], vec![]];

    deposit_subclaims(&mut subclaims_container, 0, vec![1, 2, 3, 4]);
    assert_eq!(subclaims_container, vec![vec![1, 2], vec![3], vec![4]]);

    deposit_subclaims(&mut subclaims_container, 1, vec![5, 6, 7]);
    assert_eq!(
        subclaims_container,
        vec![vec![1, 2], vec![3, 5, 6], vec![4, 7]]
    );
}

#[test]
fn test_general_circuit_proving() {
    let circuit = circuit_1();
    let evals = circuit.eval(&fv(vec![1, 2, 3, 4, 5, 6]));

    let mut prover_transcript = Transcript::init();
    let _proof = prove(&circuit, &evals, &mut prover_transcript);
}

fn prove_and_verify(circuit: &GeneralCircuit, inputs: Vec<u32>) -> (VirgoProof, Vec<Fp>, Vec<Fp>) {
    let input_vec = fv(inputs);
    let evals = circuit.eval(&input_vec);
    let output = evals[0].clone();
    let mut prover_transcript = Transcript::init();
    let proof = prove(circuit, &evals, &mut prover_transcript);
    (proof, input_vec, output)
}

#[test]
fn test_completeness_quadratic_circuit() {
    // the three-layer quadratic circuit on inputs [x = 3, a = 2, 3, 5]
    // evaluates its output to 32, and an honest proof of it verifies
    let circuit = quadratic_circuit();
    let input_vec = fv(vec![3, 2, 3, 5]);
    let evals = circuit.eval(&input_vec);
    assert_eq!(evals[0][0], f(32));
    let output = evals[0].clone();
    let mut prover_transcript = Transcript::init();
    let proof = prove(&circuit, &evals, &mut prover_transcript);
    let verifier = VirgoVerifier::new();
    let mut verifier_transcript = Transcript::init();
    let result = verifier.verify_virgo_proof(
        &circuit,
        &proof,
        &input_vec,
        &output,
        &mut verifier_transcript,
    );
    assert_eq!(result, Ok(true));
}

#[test]
fn test_completeness_skip_wiring_circuit() {
    // circuit_1 wires gates across non-adjacent layers; an honest proof of
    // it verifies as well
    let circuit = circuit_1();
    let (proof, input_vec, output) = prove_and_verify(&circuit, vec![1, 2, 3, 4, 5, 6]);
    let verifier = VirgoVerifier::new();
    let mut verifier_transcript = Transcript::init();
    let result = verifier.verify_virgo_proof(
        &circuit,
        &proof,
        &input_vec,
        &output,
        &mut verifier_transcript,
    );
    assert_eq!(result, Ok(true));
}

fn rejects(circuit: &GeneralCircuit, proof: &VirgoProof, input: &Vec<Fp>, output: &Vec<Fp>) -> bool {
    let verifier = VirgoVerifier::new();
    let mut transcript = Transcript::init();
    verifier
        .verify_virgo_proof(circuit, proof, input, output, &mut transcript)
        .is_err()
}

#[test]
fn test_soundness_single_field_mutations() {
    // flipping any single round-polynomial coefficient, any hint, any
    // recorded challenge or any claimed sum must be rejected
    let circuit = circuit_1();
    let (proof, input_vec, output) = prove_and_verify(&circuit, vec![1, 2, 3, 4, 5, 6]);
    let bump = |x: Fp| x.add(Fp::one());

    for i in 0..proof.layer_sumchecks.len() {
        {
            let mut mutated = proof.clone();
            mutated.layer_sumchecks[i].0.claimed_sum =
                bump(mutated.layer_sumchecks[i].0.claimed_sum);
            assert!(rejects(&circuit, &mutated, &input_vec, &output));
        }
        for j in 0..proof.layer_sumchecks[i].0.round_polynomials.len() {
            for k in 0..proof.layer_sumchecks[i].0.round_polynomials[j].len() {
                let mut mutated = proof.clone();
                let old = mutated.layer_sumchecks[i].0.round_polynomials[j][k];
                mutated.layer_sumchecks[i].0.round_polynomials[j][k] = bump(old);
                assert!(rejects(&circuit, &mutated, &input_vec, &output));
            }
        }
        for j in 0..proof.layer_sumchecks[i].0.challenges.len() {
            let mut mutated = proof.clone();
            let old = mutated.layer_sumchecks[i].0.challenges[j];
            mutated.layer_sumchecks[i].0.challenges[j] = bump(old);
            assert!(rejects(&circuit, &mutated, &input_vec, &output));
        }
        for j in 0..proof.layer_sumchecks[i].1.len() {
            let mut mutated = proof.clone();
            let old = mutated.layer_sumchecks[i].1[j];
            mutated.layer_sumchecks[i].1[j] = bump(old);
            assert!(rejects(&circuit, &mutated, &input_vec, &output));
        }
        {
            let mut mutated = proof.clone();
            mutated.folding_sumchecks[i].0.claimed_sum =
                bump(mutated.folding_sumchecks[i].0.claimed_sum);
            assert!(rejects(&circuit, &mutated, &input_vec, &output));
        }
        for j in 0..proof.folding_sumchecks[i].0.round_polynomials.len() {
            for k in 0..proof.folding_sumchecks[i].0.round_polynomials[j].len() {
                let mut mutated = proof.clone();
                let old = mutated.folding_sumchecks[i].0.round_polynomials[j][k];
                mutated.folding_sumchecks[i].0.round_polynomials[j][k] = bump(old);
                assert!(rejects(&circuit, &mutated, &input_vec, &output));
            }
        }
        for j in 0..proof.folding_sumchecks[i].0.challenges.len() {
            let mut mutated = proof.clone();
            let old = mutated.folding_sumchecks[i].0.challenges[j];
            mutated.folding_sumchecks[i].0.challenges[j] = bump(old);
            assert!(rejects(&circuit, &mutated, &input_vec, &output));
        }
        {
            let mut mutated = proof.clone();
            mutated.folding_sumchecks[i].1 = bump(mutated.folding_sumchecks[i].1);
            assert!(rejects(&circuit, &mutated, &input_vec, &output));
        }
    }
}

#[test]
fn test_rejects_wrong_output() {
    // a proof for one input vector does not verify against another output
    let circuit = circuit_1();
    let (proof, input_vec, _output) = prove_and_verify(&circuit, vec![1, 2, 3, 4, 5, 6]);
    let wrong_output = fv(vec![9, 122]);
    assert!(rejects(&circuit, &proof, &input_vec, &wrong_output));
}

#[test]
fn test_rejects_wrong_input() {
    // a proof does not verify against a different claimed input vector
    let circuit = circuit_1();
    let (proof, _input_vec, output) = prove_and_verify(&circuit, vec![1, 2, 3, 4, 5, 6]);
    let wrong_input = fv(vec![1, 2, 3, 4, 5, 7]);
    assert!(rejects(&circuit, &proof, &wrong_input, &output));
}

#[test]
fn test_rejects_truncated_proof() {
    // removing a layer's transcripts is a shape violation and is rejected
    let circuit = circuit_1();
    let (proof, input_vec, output) = prove_and_verify(&circuit, vec![1, 2, 3, 4, 5, 6]);
    let mut mutated = proof.clone();
    mutated.layer_sumchecks.pop();
    assert!(rejects(&circuit, &mutated, &input_vec, &output));
    let mut mutated2 = proof;
    mutated2.folding_sumchecks.pop();
    assert!(rejects(&circuit, &mutated2, &input_vec, &output));
}
