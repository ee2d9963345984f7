//! Tests of the layer reducer, the folding step and their helpers.

use virgo::circuit_builder::Builder;
use virgo::circuit::{GateOp, GeneralCircuit};
use virgo::engine::verify_rounds;
use virgo::mle::{dot_product, mle_evaluate, num_vars, pad_to, pow2_exec};
use virgo::sumcheck::phase_two::merge_round_messages;
use virgo::sumcheck::prove_sumcheck_layer;
use virgo::transcript::Transcript;
use virgo::util::{build_agi, n_to_1_folding, n_vars_from_len, subclaims_to_hints, Subclaim};
use virgo::Fp;

fn f(x: u32) -> Fp {
    Fp::from_u32(x)
}

fn fv(values: Vec<u32>) -> Vec<Fp> {
    values.into_iter().map(f).collect()
}

fn circuit_1() -> GeneralCircuit {
    let mut builder = Builder::init();

    let a = builder.create_input_node();
    let b = builder.create_input_node();
    let c = builder.create_input_node();
    let d = builder.create_input_node();
    let e = builder.create_input_node();
    let ff = builder.create_input_node();

    let g = builder.add_gate(a, b, &GateOp::Add);
    let h = builder.add_gate(a, b, &GateOp::Mul);
    let j = builder.add_gate(c, d, &GateOp::Add);
    let k = builder.add_gate(e, ff, &GateOp::Add);

    let l = builder.add_gate(g, h, &GateOp::Mul);
    let m = builder.add_gate(j, d, &GateOp::Add);

    builder.add_gate(l, c, &GateOp::Add);
    builder.add_gate(m, k, &GateOp::Mul);

    builder.build_circuit()
}

fn evaluate_padded(values: &Vec<Fp>, point: &Vec<Fp>) -> Fp {
    let padded = pad_to(values, pow2_exec(point.len()));
    mle_evaluate(&padded, point)
}

#[test]
fn test_prove_and_verify_sumcheck_layer() {
    let circuit = circuit_1();
    let random_value_bank = fv(vec![12, 34, 56, 78, 43, 56, 78, 45]);

    let circuit_evals = circuit.eval(&fv(vec![1, 2, 3, 4, 5, 6]));

    for i in 0..circuit.layers.len() {
        let n = num_vars(circuit_evals[i].len());
        let output_point: Vec<Fp> = random_value_bank[..n].to_vec();
        let claimed_sum = evaluate_padded(&circuit_evals[i], &output_point);

        let layer_proving_info = circuit
            .generate_layer_proving_info(i)
            .extract_subsets(&circuit_evals);

        let mut prover_transcript = Transcript::init();

        let sumcheck_proof = prove_sumcheck_layer(
            claimed_sum,
            &output_point,
            &layer_proving_info,
            &mut prover_transcript,
        );

        let mut verifier_transcript = Transcript::init();

        let verification_result = verify_rounds(&sumcheck_proof, &mut verifier_transcript);
        assert!(verification_result.is_some());
    }
}

#[test]
fn test_merge_round_messages() {
    let round_messages = vec![fv(vec![1, 2]), fv(vec![3, 4]), fv(vec![3, 5])];
    assert_eq!(merge_round_messages(&round_messages), fv(vec![7, 11]));
}

#[test]
fn test_n_to_1_folding() {
    let main_poly_eval = fv(vec![1, 2, 3, 4, 5, 6]);

    let alphas = fv(vec![2, 3, 5]);

    let all_challenges = fv(vec![3, 4, 5, 2, 3, 4]);

    let c1_values = fv(vec![1, 3, 5]);
    let c1_subset_instruction = vec![0, 2, 4];
    let c1_r: Vec<Fp> = all_challenges[..num_vars(c1_values.len())].to_vec();
    let c1_eval = evaluate_padded(&c1_values, &c1_r);
    let c1_subclaim = Subclaim::new(c1_r, c1_eval, c1_subset_instruction);

    let c2_values = fv(vec![1, 2, 3, 4, 5, 6]);
    let c2_subset_instruction = vec![0, 1, 2, 3, 4, 5];
    let c2_r: Vec<Fp> = all_challenges[..num_vars(c2_values.len())].to_vec();
    let c2_eval = evaluate_padded(&c2_values, &c2_r);
    let c2_subclaim = Subclaim::new(c2_r, c2_eval, c2_subset_instruction);

    let c3_values = fv(vec![2, 3, 6]);
    let c3_subset_instruction = vec![1, 2, 5];
    let c3_r: Vec<Fp> = all_challenges[..num_vars(c3_values.len())].to_vec();
    let c3_eval = evaluate_padded(&c3_values, &c3_r);
    let c3_subclaim = Subclaim::new(c3_r, c3_eval, c3_subset_instruction);

    let subclaims = vec![c1_subclaim, c2_subclaim, c3_subclaim];

    let agi = build_agi(&alphas, &subclaims, main_poly_eval.len());

    // the folding identity: the hypercube sum of the indicator against the
    // vector equals the coefficient-weighted sum of the claimed evaluations
    let res = dot_product(&agi, &main_poly_eval);

    let expected = alphas[0]
        .mul(subclaims[0].eval)
        .add(alphas[1].mul(subclaims[1].eval))
        .add(alphas[2].mul(subclaims[2].eval));

    assert_eq!(res, expected);

    let mut prover_transcript = Transcript::init();

    let proof = n_to_1_folding(&mut prover_transcript, &alphas, &subclaims, &main_poly_eval);

    let mut verifier_transcript = Transcript::init();

    let verify = verify_rounds(&proof, &mut verifier_transcript);
    assert!(verify.is_some());
}

#[test]
fn test_n_vars_from_len() {
    assert_eq!(n_vars_from_len(1), 1);
    assert_eq!(n_vars_from_len(2), 1);
    assert_eq!(n_vars_from_len(5), 3);
}

#[test]
fn test_subclaim_hint_loop() {
    let circuit = circuit_1();
    let output_proving_info = circuit.generate_layer_proving_info(0);
    assert_eq!(output_proving_info.add_subsets.len(), 3);

    // generate 4 random hints
    // 4 because next layer needs 2 hints
    let hints = fv(vec![1, 2, 3, 4]);

    // use hints to generate subclaims
    let subclaims =
        output_proving_info.hints_to_subclaims(&hints, &fv(vec![1, 2, 3, 4, 5, 6, 7, 8, 9]));
    assert_eq!(subclaims.len(), 4);

    // check for correct eval use
    assert_eq!(subclaims[0].eval, f(1));
    assert_eq!(subclaims[1].eval, f(2));
    assert_eq!(subclaims[2].eval, f(3));
    assert_eq!(subclaims[3].eval, f(4));

    // ensure that each subclaim takes the right number of variables
    assert_eq!(subclaims[0].r, fv(vec![1]));
    assert_eq!(subclaims[1].r, fv(vec![2]));
    assert_eq!(subclaims[2].r, fv(vec![2]));
    assert_eq!(subclaims[3].r, fv(vec![2]));

    assert_eq!(subclaims_to_hints(&subclaims), hints);
}

#[test]
fn test_fold_identity_single_subclaim() {
    // a single subclaim about a length-1 subset: the identity holds exactly
    let v = fv(vec![7, 9]);
    let alphas = fv(vec![4]);
    let values = fv(vec![9]);
    let instruction = vec![1];
    let r: Vec<Fp> = fv(vec![5]);
    let eval = evaluate_padded(&values, &r);
    let subclaims = vec![Subclaim::new(r, eval, instruction)];
    let agi = build_agi(&alphas, &subclaims, v.len());
    let res = dot_product(&agi, &v);
    let expected = alphas[0].mul(subclaims[0].eval);
    assert_eq!(res, expected);
}

#[test]
fn test_mle_evaluate_exact() {
    // the extension of [3, 5] at point 2 is 3 + (5 - 3) * 2 = 7
    let table = fv(vec![3, 5]);
    let point = fv(vec![2]);
    assert_eq!(mle_evaluate(&table, &point), f(7));
    // the extension agrees with the table on the hypercube
    assert_eq!(mle_evaluate(&table, &fv(vec![0])), f(3));
    assert_eq!(mle_evaluate(&table, &fv(vec![1])), f(5));
}

#[test]
fn test_transcript_is_deterministic() {
    let mut t1 = Transcript::init();
    let mut t2 = Transcript::init();
    t1.observe(&fv(vec![1, 2, 3]));
    t2.observe(&fv(vec![1, 2, 3]));
    assert_eq!(t1.sample_challenge(), t2.sample_challenge());
    let a = t1.sample_n_challenges(4);
    let b = t2.sample_n_challenges(4);
    assert_eq!(a, b);
    // a different message gives a different stream
    let mut t3 = Transcript::init();
    t3.observe(&fv(vec![1, 2, 4]));
    assert_ne!(a[0], t3.sample_challenge());
}

#[test]
fn test_field_arithmetic() {
    let p = virgo::field::P;
    assert_eq!(Fp::from_u32(p), Fp::zero());
    assert_eq!(f(7).add(f(5)), f(12));
    assert_eq!(f(7).mul(f(5)), f(35));
    assert_eq!(f(7).sub(f(5)), f(2));
    // wrap-around cases
    assert_eq!(Fp::from_u32(p - 1).add(f(2)), f(1));
    assert_eq!(f(0).sub(f(1)), Fp::from_u32(p - 1));
    assert_eq!(Fp::from_u64(p as u64 * 3 + 11), f(11));
    assert_eq!(f(7).as_u32(), 7);
}
