//! The verifier's orchestration loop: it re-derives every layer's proving
//! information from the public circuit alone, replays the prover's
//! transcript, substitutes the prover's scalar hints for the subset
//! evaluations, and checks every sumcheck's final claim against the layer
//! equation and every folding claim against the indicator product. Any
//! mismatch rejects the whole proof with a single opaque error.

use vstd::prelude::*;
use vstd::arithmetic::power2::pow2;

use crate::circuit::{
    circuit_in_bounds, circuit_wiring_ok, info_at, info_wf, lemma_info_at_wf, GeneralCircuit,
};
use crate::engine::verify_rounds;
use crate::field::Fp;
use crate::mle::{fp_vals, mle_evaluate, mle_spec, num_vars, nv, pad_to, pow2_exec};
use crate::transcript::Transcript;
use crate::util::{
    agi_table, bucket_n_vars, bucket_n_vars_exec, build_agi, insts_view, pad_vals, sub_view,
    subs_views, Subclaim,
};

use super::prover::{accs_wf, deposit_subclaims};
use super::VirgoProof;

verus! {

/// The one message a rejected proof surfaces: nothing about why.
pub const REJECTED: &'static str = "proof rejected";

/// What the verifier requires of the public inputs: a validly wired circuit
/// of bounded size, an input vector of bounded length, and an output vector
/// of the output layer's width. The proof itself is untrusted and only
/// checked.
pub open spec fn verifier_input_wf(
    c: GeneralCircuit,
    n_inputs: nat,
    output_len: nat,
) -> bool {
    &&& 1 <= c.layers@.len() <= 0x4000_0000
    &&& 1 <= n_inputs <= 0x4000_0000
    &&& output_len == c.layers@[0].gates@.len()
    &&& circuit_wiring_ok(c)
    &&& circuit_in_bounds(c, n_inputs)
    &&& forall|i: int|
        0 <= i < c.layers@.len() ==> 1 <= (#[trigger] c.layers@[i]).gates@.len() <= 0x1000_0000
}

/// The verifier's running state between layers: the transcript state, the
/// current evaluation point and claim, and the per-target accumulators of
/// subclaim views.
pub struct VerifierState {
    /// The Fiat-Shamir transcript state.
    pub s: int,
    /// The point the current layer's claim speaks of.
    pub rv: Seq<int>,
    /// The current claimed evaluation.
    pub claim: int,
    /// Accumulated subclaim views, one bucket per target vector.
    pub accs: Seq<Seq<(Seq<int>, int, Seq<usize>)>>,
}

/// The widest instruction bucket's variable count among the first `d`.
pub open spec fn max_inst_nv(inst: Seq<Seq<usize>>, d: nat) -> nat
    decreases d,
{
    if d == 0 {
        0
    } else {
        let prev = max_inst_nv(inst, (d - 1) as nat);
        let cur = bucket_n_vars(inst[d - 1].len());
        if cur > prev {
            cur
        } else {
            prev
        }
    }
}

/// The widest bucket bound covers every bucket.
proof fn lemma_max_inst_nv_ge(inst: Seq<Seq<usize>>, d: nat, j: int)
    requires
        0 <= j < d,
        d <= inst.len(),
    ensures
        bucket_n_vars(inst[j].len()) <= max_inst_nv(inst, d),
    decreases d,
{
    if j < d - 1 {
        lemma_max_inst_nv_ge(inst, (d - 1) as nat, j);
    }
}

/// The subclaim views the hints and the challenge point give rise to: the
/// adjacent claim at the leading variables, then one claim per distance
/// bucket at its prefix of the remaining variables.
#[verifier::opaque]
pub open spec fn h2s_views(inst: Seq<Seq<usize>>, hv: Seq<int>, bcv: Seq<int>) -> Seq<
    (Seq<int>, int, Seq<usize>),
> {
    Seq::new(
        inst.len() + 1,
        |k: int|
            if k == 0 {
                (bcv.take(bucket_n_vars(inst[0].len()) as int), hv[0], inst[0])
            } else {
                (
                    bcv.subrange(
                        bucket_n_vars(inst[0].len()) as int,
                        bucket_n_vars(inst[0].len()) as int + bucket_n_vars(
                            inst[k - 1].len(),
                        ) as int,
                    ),
                    hv[k],
                    inst[k - 1],
                )
            },
    )
}

/// Accumulators after depositing fresh subclaim views at `start`: the entry
/// there receives the first two views, each following entry the view of its
/// distance.
#[verifier::opaque]
pub open spec fn deposit_views(
    accs: Seq<Seq<(Seq<int>, int, Seq<usize>)>>,
    start: int,
    subs: Seq<(Seq<int>, int, Seq<usize>)>,
) -> Seq<Seq<(Seq<int>, int, Seq<usize>)>> {
    Seq::new(
        accs.len(),
        |j: int|
            if j == start {
                accs[j].push(subs[0]).push(subs[1])
            } else if start < j < accs.len() {
                accs[j].push(subs[j - start + 1])
            } else {
                accs[j]
            },
    )
}

/// The views of a sequence of accumulators.
pub open spec fn accs_views(s: Seq<Vec<Subclaim>>) -> Seq<Seq<(Seq<int>, int, Seq<usize>)>> {
    s.map_values(|v: Vec<Subclaim>| subs_views(v@))
}

/// The claimed values of a sequence of subclaim views.
pub open spec fn views_evals(subs: Seq<(Seq<int>, int, Seq<usize>)>) -> Seq<int> {
    subs.map_values(|v: (Seq<int>, int, Seq<usize>)| v.1)
}

/// One layer of the verifier's chain: every check the verifier makes for
/// layer `i`, from the state the previous layer left, to the state handed to
/// the next layer, or `None` at the first failed check.
#[verifier::opaque]
pub open spec fn verify_layer_spec(
    c: GeneralCircuit,
    proof: VirgoProof,
    input_v: Seq<int>,
    i: int,
    st: VerifierState,
) -> Option<VerifierState> {
    let depth = c.layers@.len() as int;
    let lsp = proof.layer_sumchecks@[i].0;
    let hints = proof.layer_sumchecks@[i].1;
    if st.claim != lsp.claimed_sum.val() {
        None
    } else if crate::engine::verify_rounds_spec(lsp, st.s) is None {
        None
    } else {
        let (fc, s2) = crate::engine::verify_rounds_spec(lsp, st.s).unwrap();
        let bc = fp_vals(lsp.challenges@);
        let hv = fp_vals(hints@);
        if hints@.len() != depth - i + 1 {
            None
        } else {
            let gates = c.layers@[i].gates@;
            let model = info_at(gates, i, (depth - i) as nat, gates.len() as nat);
            let nb = bucket_n_vars(model.inst[0].len());
            let ncc = max_inst_nv(model.inst, model.inst.len());
            if bc.len() != nb + ncc {
                None
            } else if fc != crate::util::layer_eval_formula(
                model.inst,
                model.adds,
                model.muls,
                st.rv,
                hv,
                bc,
            ) % (crate::field::P as int) {
                None
            } else {
                let s3 = crate::transcript::tr_absorb_seq(s2, hv);
                let subs = h2s_views(model.inst, hv, bc);
                let accs2 = deposit_views(st.accs, i, subs);
                let alphas = crate::transcript::tr_sample_n_vals(s3, accs2[i].len());
                let s4 = crate::transcript::tr_sample_n_state(s3, accs2[i].len());
                let fsp = proof.folding_sumchecks@[i].0;
                let hint = proof.folding_sumchecks@[i].1;
                if fsp.claimed_sum.val() != crate::util::alpha_eval_sum(
                    alphas,
                    views_evals(accs2[i]),
                    accs2[i].len(),
                ) % (crate::field::P as int) {
                    None
                } else if crate::engine::verify_rounds_spec(fsp, s4) is None {
                    None
                } else {
                    let (ff, s5) = crate::engine::verify_rounds_spec(fsp, s4).unwrap();
                    let fchal = fp_vals(fsp.challenges@);
                    let target = if i + 1 < depth {
                        c.layers@[i + 1].gates@.len() as nat
                    } else {
                        input_v.len()
                    };
                    if fchal.len() != nv(target) {
                        None
                    } else if ff != (mle_spec(
                        pad_vals(agi_table(alphas, accs2[i], target), pow2(nv(target))),
                        fchal,
                    ) % (crate::field::P as int)) * hint.val() % (crate::field::P as int) {
                        None
                    } else if i + 1 == depth && hint.val() != mle_spec(
                        pad_vals(input_v, pow2(nv(input_v.len()))),
                        fchal,
                    ) % (crate::field::P as int) {
                        None
                    } else {
                        Some(
                            VerifierState {
                                s: crate::transcript::tr_absorb(s5, hint.val()),
                                rv: fchal,
                                claim: hint.val(),
                                accs: accs2,
                            },
                        )
                    }
                }
            }
        }
    }
}

/// The verifier's state after its first `k` layers, or `None` once any
/// layer's checks failed.
pub open spec fn verify_state_at(
    c: GeneralCircuit,
    proof: VirgoProof,
    input_v: Seq<int>,
    k: nat,
    init: VerifierState,
) -> Option<VerifierState>
    decreases k,
{
    if k == 0 {
        Some(init)
    } else {
        match verify_state_at(c, proof, input_v, (k - 1) as nat, init) {
            Some(st) => verify_layer_spec(c, proof, input_v, k - 1, st),
            None => None,
        }
    }
}

/// A failed layer fails the whole chain.
proof fn lemma_chain_none(
    c: GeneralCircuit,
    proof: VirgoProof,
    input_v: Seq<int>,
    k: nat,
    m: nat,
    init: VerifierState,
)
    requires
        k <= m,
        verify_state_at(c, proof, input_v, k, init) is None,
    ensures
        verify_state_at(c, proof, input_v, m, init) is None,
    decreases m,
{
    if m > k {
        lemma_chain_none(c, proof, input_v, k, (m - 1) as nat, init);
    }
}

/// A layer whose checks fail rejects the whole proof: once the chain reaches
/// state `st` at layer `i` and that layer's step is `None`, no later state
/// exists.
proof fn lemma_layer_rejects(
    c: GeneralCircuit,
    proof: VirgoProof,
    input_v: Seq<int>,
    i: int,
    init: VerifierState,
    st: VerifierState,
)
    requires
        0 <= i < c.layers@.len(),
        verify_state_at(c, proof, input_v, i as nat, init) == Some(st),
        verify_layer_spec(c, proof, input_v, i, st) is None,
    ensures
        verify_state_at(c, proof, input_v, c.layers@.len(), init) is None,
{
    assert(verify_state_at(c, proof, input_v, (i + 1) as nat, init) is None);
    lemma_chain_none(c, proof, input_v, (i + 1) as nat, c.layers@.len(), init);
}

/// The verifier's initial state: the transcript after absorbing the padded
/// output and sampling the first point, the claim the output commitment
/// fixes, and empty accumulators.
pub open spec fn verify_init(
    c: GeneralCircuit,
    output_v: Seq<int>,
    s0: int,
) -> VerifierState {
    let padded = pad_vals(output_v, pow2(nv(output_v.len())));
    let s1 = crate::transcript::tr_absorb_seq(s0, padded);
    let rv = crate::transcript::tr_sample_n_vals(s1, nv(output_v.len()));
    VerifierState {
        s: crate::transcript::tr_sample_n_state(s1, nv(output_v.len())),
        rv: rv,
        claim: mle_spec(padded, rv) % (crate::field::P as int),
        accs: Seq::new(c.layers@.len(), |j: int| Seq::empty()),
    }
}

/// Whether the verifier accepts: the proof has one layer and one folding
/// transcript per layer, and every layer's chain of checks passes.
pub open spec fn verify_accepts(
    c: GeneralCircuit,
    proof: VirgoProof,
    input_v: Seq<int>,
    output_v: Seq<int>,
    s0: int,
) -> bool {
    &&& proof.layer_sumchecks@.len() == c.layers@.len()
    &&& proof.folding_sumchecks@.len() == c.layers@.len()
    &&& verify_state_at(
        c,
        proof,
        input_v,
        c.layers@.len(),
        verify_init(c, output_v, s0),
    ) is Some
}

/// The per-target vector lengths the accumulators are bounded by: the next
/// layers' gate counts, then the input vector's length.
pub open spec fn target_sizes(c: GeneralCircuit, n_inputs: nat) -> Seq<int> {
    Seq::new(
        c.layers@.len(),
        |j: int|
            if j + 1 < c.layers@.len() {
                c.layers@[j + 1].gates@.len() as int
            } else {
                n_inputs as int
            },
    )
}

/// Runs every check of one layer: the claim match, the sumcheck replay, the
/// layer-equation oracle check, the deposit of the reconstructed subclaims,
/// and the folding checks. Returns the next claim and point, or `None` at
/// the first failed check — exactly as `verify_layer_spec` decides.
#[verifier::rlimit(100)]
#[verifier::spinoff_prover]
fn verify_layer(
    circuit: &GeneralCircuit,
    virgo_proof: &VirgoProof,
    input: &Vec<Fp>,
    i: usize,
    accumulators: &mut Vec<Vec<Subclaim>>,
    eval_point: &Vec<Fp>,
    claimed_sum: Fp,
    transcript: &mut Transcript,
) -> (r: Option<(Fp, Vec<Fp>)>)
    requires
        verifier_input_wf(*circuit, input@.len() as nat, circuit.layers@[0].gates@.len() as nat),
        i < circuit.layers@.len(),
        virgo_proof.layer_sumchecks@.len() == circuit.layers@.len(),
        virgo_proof.folding_sumchecks@.len() == circuit.layers@.len(),
        old(accumulators)@.len() == circuit.layers@.len(),
        accs_wf(old(accumulators)@, target_sizes(*circuit, input@.len() as nat)),
        eval_point@.len() == nv(circuit.layers@[i as int].gates@.len() as nat),
        eval_point@.len() <= 30,
    ensures
        ({
            let stv = VerifierState {
                s: old(transcript).view_state(),
                rv: fp_vals(eval_point@),
                claim: claimed_sum.val(),
                accs: accs_views(old(accumulators)@),
            };
            let step = verify_layer_spec(*circuit, *virgo_proof, fp_vals(input@), i as int, stv);
            &&& (r is Some <==> step is Some)
            &&& (r is Some ==> {
                &&& step.unwrap() == VerifierState {
                    s: final(transcript).view_state(),
                    rv: fp_vals(r.unwrap().1@),
                    claim: r.unwrap().0.val(),
                    accs: accs_views(final(accumulators)@),
                }
                &&& accs_wf(final(accumulators)@, target_sizes(*circuit, input@.len() as nat))
                &&& final(accumulators)@.len() == circuit.layers@.len()
                &&& virgo_proof.layer_sumchecks@[i as int].1@.len() == circuit.layers@.len() - i
                    + 1
                &&& virgo_proof.layer_sumchecks@[i as int].0.claimed_sum == claimed_sum
                &&& r.unwrap().1@.len() == nv(
                    if i + 1 < circuit.layers@.len() {
                        circuit.layers@[i + 1].gates@.len() as nat
                    } else {
                        input@.len() as nat
                    },
                )
                &&& r.unwrap().1@.len() <= 30
            })
        }),
{
    let depth = circuit.layers.len();
    let ghost sizes = target_sizes(*circuit, input@.len() as nat);
    let ghost stv = VerifierState {
        s: transcript.view_state(),
        rv: fp_vals(eval_point@),
        claim: claimed_sum.val(),
        accs: accs_views(accumulators@),
    };
    let ghost iv = fp_vals(input@);
    let ghost lspv = virgo_proof.layer_sumchecks@[i as int].0;
    let ghost hvv = fp_vals(virgo_proof.layer_sumchecks@[i as int].1@);
    let ghost bcv = fp_vals(lspv.challenges@);
    let ghost gates_g = circuit.layers@[i as int].gates@;
    proof {
        assert(crate::circuit::layer_wiring_ok(circuit.layers@[i as int], i as int));
        assert forall|k: int| 0 <= k < gates_g.len() implies {
            let g = #[trigger] gates_g[k];
            g.inputs[0].0 <= circuit.layers@.len() && g.inputs[1].0
                <= circuit.layers@.len()
        } by {
            let g = gates_g[k];
            assert(crate::circuit::addr_in_bounds(
                g.inputs[0],
                circuit.layers@,
                input@.len() as nat,
            ));
            assert(crate::circuit::addr_in_bounds(
                g.inputs[1],
                circuit.layers@,
                input@.len() as nat,
            ));
        }
    }
    let layer_entry = &virgo_proof.layer_sumchecks[i];
    let layer_sumcheck_proof = &layer_entry.0;
    let layer_sumcheck_hints = &layer_entry.1;
    if !(claimed_sum == layer_sumcheck_proof.claimed_sum) {
        proof {
            reveal(crate::protocol::verify::verify_layer_spec);
            assert(stv.claim != lspv.claimed_sum.val()) by {
                if stv.claim == lspv.claimed_sum.val() {
                    crate::field::lemma_val_injective(
                        claimed_sum,
                        layer_sumcheck_proof.claimed_sum,
                    );
                }
            }
            assert(verify_layer_spec(*circuit, *virgo_proof, iv, i as int, stv) is None);
        }
        return None;
    }
    proof {
        assert(stv.claim == lspv.claimed_sum.val());
    }
    let rounds_result = verify_rounds(layer_sumcheck_proof, transcript);
    if rounds_result.is_none() {
        proof {
            reveal(crate::protocol::verify::verify_layer_spec);
            assert(crate::engine::verify_rounds_spec(lspv, stv.s) is None);
            assert(verify_layer_spec(*circuit, *virgo_proof, iv, i as int, stv) is None);
        }
        return None;
    }
    proof {
        assert(crate::engine::proof_shape_ok(virgo_proof.layer_sumchecks@[i as int].0));
    }
    let (sumcheck_final, b_c_points) = rounds_result.unwrap();
    proof {
        let vr = crate::engine::verify_rounds_spec(lspv, stv.s);
        assert(vr is Some);
        assert(vr.unwrap().0 == sumcheck_final.val());
        assert(transcript.view_state() == vr.unwrap().1);
        assert(fp_vals(b_c_points@) =~= bcv);
        assert(b_c_points@.len() == bcv.len());
    }
    let layer_proving_info = circuit.generate_layer_proving_info(i);
    if layer_sumcheck_hints.len() != depth - i + 1 {
        proof {
            reveal(crate::protocol::verify::verify_layer_spec);
            assert(verify_layer_spec(*circuit, *virgo_proof, iv, i as int, stv) is None);
        }
        return None;
    }
    let ghost rem = (depth - i) as nat;
    let ghost layer_sizes = Seq::new(
        rem,
        |d: int|
            if i + 1 + d < depth {
                circuit.layers@[i + 1 + d].gates@.len() as int
            } else {
                input@.len() as int
            },
    );
    let ghost model = info_at(gates_g, i as int, rem, gates_g.len());
    proof {
        assert forall|k: int| 0 <= k < gates_g.len() implies {
            let g = #[trigger] gates_g[k];
            g.inputs[0].1 < layer_sizes[g.inputs[0].0 - i - 1] && g.inputs[1].1
                < layer_sizes[g.inputs[1].0 - i - 1]
        } by {
            let g = gates_g[k];
            assert(crate::circuit::addr_in_bounds(
                g.inputs[0],
                circuit.layers@,
                input@.len() as nat,
            ));
            assert(crate::circuit::addr_in_bounds(
                g.inputs[1],
                circuit.layers@,
                input@.len() as nat,
            ));
        }
        lemma_info_at_wf(gates_g, i as int, rem, gates_g.len(), layer_sizes);
        assert(info_wf(model, rem, gates_g.len(), layer_sizes));
    }
    // the expected number of rounds follows from the circuit alone
    let n_b = bucket_n_vars_exec(layer_proving_info.v_subset_instruction[0].len());
    let mut n_c: usize = 0;
    let mut d0: usize = 0;
    let d_count = layer_proving_info.v_subset_instruction.len();
    while d0 < d_count
        invariant
            d0 <= d_count,
            d_count == layer_proving_info.v_subset_instruction@.len(),
            insts_view(layer_proving_info.v_subset_instruction@) == model.inst,
            info_wf(model, rem, gates_g.len(), layer_sizes),
            rem == d_count,
            gates_g.len() <= 0x1000_0000,
            n_c <= 30,
            n_c == max_inst_nv(model.inst, d0 as nat),
        decreases d_count - d0,
    {
        proof {
            assert(model.inst[d0 as int].len() <= 2 * gates_g.len());
            assert(model.inst[d0 as int]
                == layer_proving_info.v_subset_instruction@[d0 as int]@);
        }
        let w = bucket_n_vars_exec(layer_proving_info.v_subset_instruction[d0].len());
        if w > n_c {
            n_c = w;
        }
        d0 = d0 + 1;
    }
    proof {
        assert forall|d2: int|
            0 <= d2 < d_count implies bucket_n_vars(
            (#[trigger] layer_proving_info.v_subset_instruction@[d2])@.len(),
        ) <= n_c by {
            lemma_max_inst_nv_ge(model.inst, d_count as nat, d2);
        }
    }
    proof {
        assert(model == info_at(gates_g, i as int, (depth - i) as nat, gates_g.len()));
        assert(insts_view(layer_proving_info.v_subset_instruction@)[0]
            == model.inst[0]);
        assert(n_b == bucket_n_vars(model.inst[0].len()));
        assert(n_c == max_inst_nv(model.inst, model.inst.len()));
    }
    if b_c_points.len() != n_b + n_c {
        proof {
            reveal(crate::protocol::verify::verify_layer_spec);
            assert(bcv.len() != bucket_n_vars(model.inst[0].len()) + max_inst_nv(
                model.inst,
                model.inst.len(),
            ));
            assert(verify_layer_spec(*circuit, *virgo_proof, iv, i as int, stv) is None);
        }
        return None;
    }
    proof {
        assert(bcv.len() == bucket_n_vars(model.inst[0].len()) + max_inst_nv(
            model.inst,
            model.inst.len(),
        ));
    }
    proof {
        assert forall|d2: int|
            0 <= d2 < layer_proving_info.v_subset_instruction@.len() implies bucket_n_vars(
            layer_proving_info.v_subset_instruction@[0]@.len(),
        ) + bucket_n_vars(
            (#[trigger] layer_proving_info.v_subset_instruction@[d2])@.len(),
        ) <= b_c_points@.len() by {}
        assert forall|d2: int, j: int|
            0 <= d2 < crate::util::buckets_view(layer_proving_info.add_subsets@).len()
                && 0 <= j < crate::util::buckets_view(
                layer_proving_info.add_subsets@,
            )[d2].len() implies {
            let e = #[trigger] crate::util::buckets_view(
                layer_proving_info.add_subsets@,
            )[d2][j];
            &&& 0 <= e.0 < pow2(eval_point@.len())
            &&& 0 <= e.1 < pow2(
                bucket_n_vars(layer_proving_info.v_subset_instruction@[0]@.len()),
            )
            &&& 0 <= e.2 < pow2(
                bucket_n_vars(layer_proving_info.v_subset_instruction@[d2]@.len()),
            )
        } by {
            assert(crate::util::buckets_view(layer_proving_info.add_subsets@)[d2]
                == model.adds[d2]);
            crate::mle::lemma_nv_covers(gates_g.len());
            crate::util::lemma_bucket_nv_covers(model.inst[0].len());
            crate::util::lemma_bucket_nv_covers(model.inst[d2].len());
        }
        assert forall|d2: int, j: int|
            0 <= d2 < crate::util::buckets_view(layer_proving_info.mul_subsets@).len()
                && 0 <= j < crate::util::buckets_view(
                layer_proving_info.mul_subsets@,
            )[d2].len() implies {
            let e = #[trigger] crate::util::buckets_view(
                layer_proving_info.mul_subsets@,
            )[d2][j];
            &&& 0 <= e.0 < pow2(eval_point@.len())
            &&& 0 <= e.1 < pow2(
                bucket_n_vars(layer_proving_info.v_subset_instruction@[0]@.len()),
            )
            &&& 0 <= e.2 < pow2(
                bucket_n_vars(layer_proving_info.v_subset_instruction@[d2]@.len()),
            )
        } by {
            assert(crate::util::buckets_view(layer_proving_info.mul_subsets@)[d2]
                == model.muls[d2]);
            crate::mle::lemma_nv_covers(gates_g.len());
            crate::util::lemma_bucket_nv_covers(model.inst[0].len());
            crate::util::lemma_bucket_nv_covers(model.inst[d2].len());
        }
        assert forall|d2: int|
            0 <= d2 < layer_proving_info.v_subset_instruction@.len() implies (
        #[trigger] layer_proving_info.v_subset_instruction@[d2])@.len() <= 0x4000_0000 by {
            assert(model.inst[d2].len() <= 2 * gates_g.len());
        }
    }
    let expected_claimed_sum = layer_proving_info.eval(
        &eval_point,
        layer_sumcheck_hints,
        &b_c_points,
    );
    proof {
        assert(expected_claimed_sum.val() == crate::util::layer_eval_formula(
            model.inst,
            model.adds,
            model.muls,
            stv.rv,
            hvv,
            bcv,
        ) % (crate::field::P as int)) by {
            assert(expected_claimed_sum.val() == crate::util::layer_eval_formula(
                insts_view(layer_proving_info.v_subset_instruction@),
                crate::util::buckets_view(layer_proving_info.add_subsets@),
                crate::util::buckets_view(layer_proving_info.mul_subsets@),
                fp_vals(eval_point@),
                fp_vals(layer_sumcheck_hints@),
                fp_vals(b_c_points@),
            ) % (crate::field::P as int));
        }
    }
    if !(sumcheck_final == expected_claimed_sum) {
        proof {
            reveal(crate::protocol::verify::verify_layer_spec);
            assert(sumcheck_final.val() != expected_claimed_sum.val()) by {
                if sumcheck_final.val() == expected_claimed_sum.val() {
                    crate::field::lemma_val_injective(
                        sumcheck_final,
                        expected_claimed_sum,
                    );
                }
            }
            assert(verify_layer_spec(*circuit, *virgo_proof, iv, i as int, stv) is None);
        }
        return None;
    }
    proof {
        assert(sumcheck_final.val() == crate::util::layer_eval_formula(
            model.inst,
            model.adds,
            model.muls,
            stv.rv,
            hvv,
            bcv,
        ) % (crate::field::P as int));
    }
    transcript.observe(layer_sumcheck_hints);
    proof {
        assert(transcript.view_state() == crate::transcript::tr_absorb_seq(
            crate::engine::verify_rounds_spec(lspv, stv.s).unwrap().1,
            hvv,
        ));
    }
    let subclaims = layer_proving_info.hints_to_subclaims(
        layer_sumcheck_hints,
        &b_c_points,
    );
    proof {
        assert forall|k: int| 0 <= k < subclaims@.len() implies {
            let sc = #[trigger] subclaims@[k];
            &&& sc.instruction@.len() <= pow2(sc.r@.len())
            &&& sc.r@.len() <= 30
            &&& forall|t: int|
                0 <= t < sc.instruction@.len() ==> (#[trigger] sc.instruction@[t]) < (if k
                    == 0 {
                    layer_sizes[0]
                } else {
                    layer_sizes[k - 1]
                })
        } by {
            let sc = subclaims@[k];
            if k == 0 {
                crate::util::lemma_bucket_nv_covers(model.inst[0].len());
                crate::util::lemma_bucket_nv_le30(model.inst[0].len());
                assert(sc.instruction@
                    == layer_proving_info.v_subset_instruction@[0]@);
                assert(sc.r@.len() == bucket_n_vars(model.inst[0].len()));
            } else {
                assert(subclaims@[(k - 1) + 1] == sc);
                crate::util::lemma_bucket_nv_covers(model.inst[k - 1].len());
                crate::util::lemma_bucket_nv_le30(model.inst[k - 1].len());
                crate::util::lemma_bucket_nv_le30(model.inst[0].len());
                assert(sc.instruction@
                    == layer_proving_info.v_subset_instruction@[k - 1]@);
                assert(sc.r@.len() == bucket_n_vars(model.inst[k - 1].len()));
            }
        }
    }
    let ghost subsv = subs_views(subclaims@);
    let ghost subclaims_g = subclaims@;
    let ghost accs_before = accs_views(accumulators@);
    let ghost s3 = transcript.view_state();
    proof {
        assert(accs_before == stv.accs);
        assert(subsv =~~= h2s_views(model.inst, hvv, bcv)) by {
            reveal(crate::protocol::verify::h2s_views);
            assert forall|k: int| 0 <= k < subsv.len() implies subsv[k].0 =~= h2s_views(
                model.inst,
                hvv,
                bcv,
            )[k].0 && subsv[k].1 == h2s_views(model.inst, hvv, bcv)[k].1 && subsv[k].2
                =~= h2s_views(model.inst, hvv, bcv)[k].2 by {
                if k >= 1 {
                    assert(subclaims_g[(k - 1) + 1] == subclaims_g[k]);
                }
                assert(subsv[k] == sub_view(subclaims_g[k]));
            }
        }
    }
    deposit_subclaims(accumulators, i, subclaims);
    let ghost accs2 = deposit_views(stv.accs, i as int, subsv);
    proof {
        assert(accs_wf(accumulators@, sizes));
        assert(accs_views(accumulators@) =~~= accs2) by {
            reveal(crate::protocol::verify::deposit_views);
            assert forall|j: int| 0 <= j < depth implies accs_views(accumulators@)[j]
                =~~= accs2[j] by {
                if j == i as int {
                    assert(subs_views(accumulators@[j]@) =~= accs_before[j].push(
                        subsv[0],
                    ).push(subsv[1]));
                } else if (i as int) < j < depth {
                    assert(subs_views(accumulators@[j]@) =~= accs_before[j].push(
                        subsv[j - i + 1],
                    ));
                } else {
                    assert(subs_views(accumulators@[j]@) =~= accs_before[j]);
                }
            }
        }
    }
    let alphas = transcript.sample_n_challenges(accumulators[i].len());
    proof {
        assert(subs_views(accumulators@[i as int]@) =~= accs2[i as int]);
        assert(accumulators@[i as int]@.len() == accs2[i as int].len());
        assert(fp_vals(alphas@) == crate::transcript::tr_sample_n_vals(
            s3,
            accs2[i as int].len(),
        ));
        assert(transcript.view_state() == crate::transcript::tr_sample_n_state(
            s3,
            accs2[i as int].len(),
        ));
    }
    let fold_entry = &virgo_proof.folding_sumchecks[i];
    let n_to_1_sumcheck_proof = &fold_entry.0;
    let n_to_1_hint = fold_entry.1;
    // the folding claim must equal the weighted sum of the
    // accumulated evaluations
    let mut expected_fold = Fp::zero();
    let acc_i = &accumulators[i];
    proof {
        crate::field::lemma_small(0);
    }
    let mut k2: usize = 0;
    while k2 < acc_i.len()
        invariant
            k2 <= acc_i@.len(),
            alphas@.len() == acc_i@.len(),
            expected_fold.val() == crate::util::alpha_eval_sum(
                fp_vals(alphas@),
                views_evals(subs_views(acc_i@)),
                k2 as nat,
            ) % (crate::field::P as int),
        decreases acc_i@.len() - k2,
    {
        let a = alphas[k2];
        let e = acc_i[k2].eval;
        let term = a.mul(e);
        proof {
            use_type_invariant(a);
            use_type_invariant(e);
            crate::field::lemma_inv(a);
            crate::field::lemma_inv(e);
            assert(fp_vals(alphas@)[k2 as int] == a.val());
            assert(views_evals(subs_views(acc_i@))[k2 as int] == e.val());
            crate::field::cong_mul(a.val(), a.val(), e.val(), e.val());
            crate::field::cong_add(
                expected_fold.val(),
                crate::util::alpha_eval_sum(
                    fp_vals(alphas@),
                    views_evals(subs_views(acc_i@)),
                    k2 as nat,
                ),
                term.val(),
                a.val() * e.val(),
            );
        }
        expected_fold = expected_fold.add(term);
        k2 = k2 + 1;
    }
    let ghost fspv = virgo_proof.folding_sumchecks@[i as int].0;
    let ghost fold_hint_g = virgo_proof.folding_sumchecks@[i as int].1;
    proof {
        assert(expected_fold.val() == crate::util::alpha_eval_sum(
            fp_vals(alphas@),
            views_evals(accs2[i as int]),
            accs2[i as int].len(),
        ) % (crate::field::P as int)) by {
            assert(views_evals(subs_views(acc_i@)) =~= views_evals(accs2[i as int]));
        }
    }
    if !(n_to_1_sumcheck_proof.claimed_sum == expected_fold) {
        proof {
            reveal(crate::protocol::verify::verify_layer_spec);
            assert(fspv.claimed_sum.val() != crate::util::alpha_eval_sum(
                fp_vals(alphas@),
                views_evals(accs2[i as int]),
                accs2[i as int].len(),
            ) % (crate::field::P as int)) by {
                if fspv.claimed_sum.val() == expected_fold.val() {
                    crate::field::lemma_val_injective(
                        n_to_1_sumcheck_proof.claimed_sum,
                        expected_fold,
                    );
                }
            }
            assert(verify_layer_spec(*circuit, *virgo_proof, iv, i as int, stv) is None);
        }
        return None;
    }
    proof {
        assert(fspv.claimed_sum.val() == crate::util::alpha_eval_sum(
            fp_vals(alphas@),
            views_evals(accs2[i as int]),
            accs2[i as int].len(),
        ) % (crate::field::P as int));
    }
    let fold_result = verify_rounds(n_to_1_sumcheck_proof, transcript);
    if fold_result.is_none() {
        proof {
            reveal(crate::protocol::verify::verify_layer_spec);
            assert(crate::engine::verify_rounds_spec(
                fspv,
                crate::transcript::tr_sample_n_state(s3, accs2[i as int].len()),
            ) is None);
            assert(verify_layer_spec(*circuit, *virgo_proof, iv, i as int, stv) is None);
        }
        return None;
    }
    proof {
        assert(crate::engine::proof_shape_ok(virgo_proof.folding_sumchecks@[i as int].0));
    }
    let (fold_final, fold_challenges) = fold_result.unwrap();
    proof {
        let fvr = crate::engine::verify_rounds_spec(
            fspv,
            crate::transcript::tr_sample_n_state(s3, accs2[i as int].len()),
        );
        assert(fvr is Some);
        assert(fvr.unwrap().0 == fold_final.val());
        assert(transcript.view_state() == fvr.unwrap().1);
        assert(fp_vals(fold_challenges@) =~= fp_vals(fspv.challenges@));
        assert(fold_challenges@.len() == fspv.challenges@.len());
    }
    let target_length = if i + 1 < depth {
        circuit.layers[i + 1].gates.len()
    } else {
        input.len()
    };
    let ghost target_g = if i + 1 < depth {
        circuit.layers@[i + 1].gates@.len() as nat
    } else {
        iv.len()
    };
    let n_next = num_vars(target_length);
    if fold_challenges.len() != n_next {
        proof {
            reveal(crate::protocol::verify::verify_layer_spec);
            assert(fp_vals(fspv.challenges@).len() != nv(target_g));
            assert(verify_layer_spec(*circuit, *virgo_proof, iv, i as int, stv) is None);
        }
        return None;
    }
    proof {
        assert(fp_vals(fspv.challenges@).len() == nv(target_g));
    }
    let agi_x = eval_agi_given_input(&alphas, &accumulators[i], target_length,
        &fold_challenges);
    let fold_product = agi_x.mul(n_to_1_hint);
    proof {
        assert(fold_product.val() == (mle_spec(
            pad_vals(
                agi_table(fp_vals(alphas@), accs2[i as int], target_g),
                pow2(nv(target_g)),
            ),
            fp_vals(fspv.challenges@),
        ) % (crate::field::P as int)) * fold_hint_g.val() % (crate::field::P as int)) by {
            assert(subs_views(accumulators@[i as int]@) =~= accs2[i as int]);
            assert(agi_x.val() == mle_spec(
                pad_vals(
                    agi_table(fp_vals(alphas@), accs2[i as int], target_g),
                    pow2(nv(target_g)),
                ),
                fp_vals(fold_challenges@),
            ) % (crate::field::P as int));
        }
    }
    if !(fold_final == fold_product) {
        proof {
            reveal(crate::protocol::verify::verify_layer_spec);
            assert(fold_final.val() != fold_product.val()) by {
                if fold_final.val() == fold_product.val() {
                    crate::field::lemma_val_injective(fold_final, fold_product);
                }
            }
            assert(verify_layer_spec(*circuit, *virgo_proof, iv, i as int, stv) is None);
        }
        return None;
    }
    proof {
        assert(fold_final.val() == fold_product.val());
    }
    transcript.absorb(n_to_1_hint);
    if i + 1 == depth {
        // at the input layer the verifier knows the vector itself
        let input_poly = pad_to(input, pow2_exec(n_next));
        let vi_x = mle_evaluate(&input_poly, &fold_challenges);
        proof {
            assert(fp_vals(input_poly@) =~= pad_vals(
                fp_vals(input@),
                pow2(nv(input@.len() as nat)),
            ));
            assert(vi_x.val() == mle_spec(
                pad_vals(iv, pow2(nv(iv.len()))),
                fp_vals(fspv.challenges@),
            ) % (crate::field::P as int));
        }
        if !(n_to_1_hint == vi_x) {
            proof {
                reveal(crate::protocol::verify::verify_layer_spec);
                assert(fold_hint_g.val() != vi_x.val()) by {
                    if fold_hint_g.val() == vi_x.val() {
                        crate::field::lemma_val_injective(n_to_1_hint, vi_x);
                    }
                }
                assert(verify_layer_spec(*circuit, *virgo_proof, iv, i as int, stv)
                    is None);
            }
            return None;
        }
        proof {
            assert(n_to_1_hint.val() == mle_spec(
                pad_vals(iv, pow2(nv(iv.len()))),
                fp_vals(fspv.challenges@),
            ) % (crate::field::P as int));
        }
    }
    proof {
        reveal(crate::protocol::verify::verify_layer_spec);
        let fvr = crate::engine::verify_rounds_spec(
            fspv,
            crate::transcript::tr_sample_n_state(s3, accs2[i as int].len()),
        );
        let next = VerifierState {
            s: crate::transcript::tr_absorb(fvr.unwrap().1, fold_hint_g.val()),
            rv: fp_vals(fspv.challenges@),
            claim: fold_hint_g.val(),
            accs: accs2,
        };
        assert(verify_layer_spec(*circuit, *virgo_proof, iv, i as int, stv) == Some(next));
        assert(transcript.view_state() == next.s);
        assert(fp_vals(fold_challenges@) == next.rv);
    }
    Some((n_to_1_hint, fold_challenges))
}

/// Evaluates the folded indicator vector's padded extension at the folding
/// sumcheck's challenge point.
pub fn eval_agi_given_input(
    alphas: &Vec<Fp>,
    subclaims: &Vec<Subclaim>,
    table_length: usize,
    challenges: &Vec<Fp>,
) -> (r: Fp)
    requires
        alphas@.len() == subclaims@.len(),
        1 <= table_length <= 0x4000_0000,
        forall|j: int, t: int|
            0 <= j < subclaims@.len() && 0 <= t < subclaims@[j].instruction@.len()
                ==> (#[trigger] subclaims@[j].instruction@[t]) < table_length,
        forall|j: int|
            0 <= j < subclaims@.len() ==> (#[trigger] subclaims@[j]).instruction@.len() <= pow2(
                subclaims@[j].r@.len(),
            ),
        forall|j: int| 0 <= j < subclaims@.len() ==> (#[trigger] subclaims@[j]).r@.len() <= 30,
        challenges@.len() == nv(table_length as nat),
    ensures
        r.val() == crate::mle::mle_spec(
            pad_vals(
                agi_table(fp_vals(alphas@), subs_views(subclaims@), table_length as nat),
                pow2(nv(table_length as nat)),
            ),
            fp_vals(challenges@),
        ) % (crate::field::P as int),
{
    let agi = build_agi(alphas, subclaims, table_length);
    let n = num_vars(table_length);
    let agi_p = pad_to(&agi, pow2_exec(n));
    proof {
        assert(fp_vals(agi_p@) =~= pad_vals(
            agi_table(fp_vals(alphas@), subs_views(subclaims@), table_length as nat),
            pow2(nv(table_length as nat)),
        ));
    }
    mle_evaluate(&agi_p, challenges)
}

/// The verifier of the layered-circuit argument. It holds no state: each
/// verification run derives everything it needs from the circuit, the
/// claimed input and output vectors, the proof and the transcript.
#[derive(Debug, Clone, PartialEq)]
pub struct VirgoVerifier {
}

impl Default for VirgoVerifier {
    /// A fresh verifier.
    fn default() -> (r: VirgoVerifier) {
        VirgoVerifier {  }
    }
}

impl VirgoVerifier {
    /// A fresh verifier.
    pub fn new() -> (r: VirgoVerifier) {
        VirgoVerifier {  }
    }

    /// Checks a proof of the circuit's execution on the claimed input and
    /// output vectors. Returns `Ok(true)` when every re-derived check
    /// passes; any mismatch, of shape or of value, rejects with one opaque
    /// error. No accepted verdict other than `Ok(true)` exists.
    #[verifier::rlimit(100)]
    #[verifier::spinoff_prover]
    pub fn verify_virgo_proof(
        &self,
        circuit: &GeneralCircuit,
        virgo_proof: &VirgoProof,
        input: &Vec<Fp>,
        circuit_output: &Vec<Fp>,
        transcript: &mut Transcript,
    ) -> (r: Result<bool, &'static str>)
        requires
            verifier_input_wf(*circuit, input@.len() as nat, circuit_output@.len() as nat),
        ensures
            r is Ok ==> r == Ok::<bool, &'static str>(true),
            r is Ok ==> {
                &&& virgo_proof.layer_sumchecks@.len() == circuit.layers@.len()
                &&& virgo_proof.folding_sumchecks@.len() == circuit.layers@.len()
                &&& forall|i: int|
                    0 <= i < circuit.layers@.len() ==> (
                    #[trigger] virgo_proof.layer_sumchecks@[i]).1@.len() == circuit.layers@.len()
                        - i + 1
            },
            // an accepted proof opens with the claim the output commitment
            // fixes: the padded output's extension at the point the
            // transcript samples right after absorbing it
            r is Ok ==> virgo_proof.layer_sumchecks@[0].0.claimed_sum.val() == ({
                let padded = pad_vals(
                    fp_vals(circuit_output@),
                    pow2(nv(circuit_output@.len() as nat)),
                );
                crate::mle::mle_spec(
                    padded,
                    crate::transcript::tr_sample_n_vals(
                        crate::transcript::tr_absorb_seq(old(transcript).view_state(), padded),
                        nv(circuit_output@.len() as nat),
                    ),
                ) % (crate::field::P as int)
            }),
            // the verdict is acceptance if and only if the proof passes
            // every check of the verifier chain
            (r is Ok) <==> verify_accepts(
                *circuit,
                *virgo_proof,
                fp_vals(input@),
                fp_vals(circuit_output@),
                old(transcript).view_state(),
            ),
    {
        let depth = circuit.layers.len();
        if virgo_proof.layer_sumchecks.len() != depth {
            proof {
                assert(!verify_accepts(
                    *circuit,
                    *virgo_proof,
                    fp_vals(input@),
                    fp_vals(circuit_output@),
                    old(transcript).view_state(),
                ));
            }
            return Err(REJECTED);
        }
        if virgo_proof.folding_sumchecks.len() != depth {
            proof {
                assert(!verify_accepts(
                    *circuit,
                    *virgo_proof,
                    fp_vals(input@),
                    fp_vals(circuit_output@),
                    old(transcript).view_state(),
                ));
            }
            return Err(REJECTED);
        }
        let mut accumulators: Vec<Vec<Subclaim>> = Vec::new();
        while accumulators.len() < depth
            invariant
                accumulators@.len() <= depth,
                forall|j: int|
                    0 <= j < accumulators@.len() ==> (#[trigger] accumulators@[j])@.len() == 0,
            decreases depth - accumulators@.len(),
        {
            accumulators.push(Vec::new());
        }
        let ghost sizes = target_sizes(*circuit, input@.len() as nat);
        // replay the output commitment and the fresh evaluation point
        let n0 = num_vars(circuit_output.len());
        crate::field::note_reduced(circuit_output);
        let output_poly = pad_to(circuit_output, pow2_exec(n0));
        proof {
            assert(fp_vals(output_poly@) =~= pad_vals(
                fp_vals(circuit_output@),
                pow2(nv(circuit_output@.len() as nat)),
            )) by {
                assert forall|t: int| 0 <= t < output_poly@.len() implies fp_vals(output_poly@)[t]
                    == pad_vals(
                    fp_vals(circuit_output@),
                    pow2(nv(circuit_output@.len() as nat)),
                )[t] by {}
            }
        }
        transcript.observe(&output_poly);
        let mut eval_point = transcript.sample_n_challenges(n0);
        let mut claimed_sum = mle_evaluate(&output_poly, &eval_point);
        let ghost initial_claim = claimed_sum;
        proof {
            assert(initial_claim.val() == ({
                let padded = pad_vals(
                    fp_vals(circuit_output@),
                    pow2(nv(circuit_output@.len() as nat)),
                );
                crate::mle::mle_spec(
                    padded,
                    crate::transcript::tr_sample_n_vals(
                        crate::transcript::tr_absorb_seq(old(transcript).view_state(), padded),
                        nv(circuit_output@.len() as nat),
                    ),
                ) % (crate::field::P as int)
            }));
        }
        let ghost init = verify_init(
            *circuit,
            fp_vals(circuit_output@),
            old(transcript).view_state(),
        );
        proof {
            assert(init.s == transcript.view_state());
            assert(init.rv == fp_vals(eval_point@));
            assert(init.claim == claimed_sum.val());
            assert(init.accs =~~= accs_views(accumulators@));
        }
        let mut i: usize = 0;
        while i < depth
            invariant
                i <= depth,
                depth == circuit.layers@.len(),
                verifier_input_wf(*circuit, input@.len() as nat, circuit_output@.len() as nat),
                virgo_proof.layer_sumchecks@.len() == depth,
                virgo_proof.folding_sumchecks@.len() == depth,
                sizes == target_sizes(*circuit, input@.len() as nat),
                accumulators@.len() == depth,
                accs_wf(accumulators@, sizes),
                eval_point@.len() == nv(
                    if i < depth {
                        circuit.layers@[i as int].gates@.len() as nat
                    } else {
                        input@.len() as nat
                    },
                ),
                eval_point@.len() <= 30,
                forall|i2: int|
                    0 <= i2 < i ==> (#[trigger] virgo_proof.layer_sumchecks@[i2]).1@.len()
                        == depth - i2 + 1,
                i >= 1 ==> virgo_proof.layer_sumchecks@[0].0.claimed_sum == initial_claim,
                initial_claim.val() == ({
                    let padded = pad_vals(
                        fp_vals(circuit_output@),
                        pow2(nv(circuit_output@.len() as nat)),
                    );
                    crate::mle::mle_spec(
                        padded,
                        crate::transcript::tr_sample_n_vals(
                            crate::transcript::tr_absorb_seq(
                                old(transcript).view_state(),
                                padded,
                            ),
                            nv(circuit_output@.len() as nat),
                        ),
                    ) % (crate::field::P as int)
                }),
                i == 0 ==> claimed_sum == initial_claim,
                init == verify_init(
                    *circuit,
                    fp_vals(circuit_output@),
                    old(transcript).view_state(),
                ),
                verify_state_at(*circuit, *virgo_proof, fp_vals(input@), i as nat, init) == Some(
                    VerifierState {
                        s: transcript.view_state(),
                        rv: fp_vals(eval_point@),
                        claim: claimed_sum.val(),
                        accs: accs_views(accumulators@),
                    },
                ),
            decreases depth - i,
        {
            let ghost stv = VerifierState {
                s: transcript.view_state(),
                rv: fp_vals(eval_point@),
                claim: claimed_sum.val(),
                accs: accs_views(accumulators@),
            };
            let result = verify_layer(
                circuit,
                virgo_proof,
                input,
                i,
                &mut accumulators,
                &eval_point,
                claimed_sum,
                transcript,
            );
            if result.is_none() {
                proof {
                    lemma_layer_rejects(
                        *circuit,
                        *virgo_proof,
                        fp_vals(input@),
                        i as int,
                        init,
                        stv,
                    );
                    assert(!verify_accepts(
                        *circuit,
                        *virgo_proof,
                        fp_vals(input@),
                        fp_vals(circuit_output@),
                        old(transcript).view_state(),
                    ));
                }
                return Err(REJECTED);
            }
            let (next_claim, next_point) = result.unwrap();
            proof {
                let step = verify_layer_spec(
                    *circuit,
                    *virgo_proof,
                    fp_vals(input@),
                    i as int,
                    stv,
                );
                assert(verify_state_at(
                    *circuit,
                    *virgo_proof,
                    fp_vals(input@),
                    (i + 1) as nat,
                    init,
                ) == Some(step.unwrap()));
            }
            eval_point = next_point;
            claimed_sum = next_claim;
            i = i + 1;
        }
        proof {
            assert(verify_accepts(
                *circuit,
                *virgo_proof,
                fp_vals(input@),
                fp_vals(circuit_output@),
                old(transcript).view_state(),
            ));
        }
        Ok(true)
    }
}

} // verus!
