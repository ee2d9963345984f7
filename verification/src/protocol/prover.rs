//! The prover's orchestration loop: commit the output, then for every layer
//! reduce its claim by the two-phase sumcheck, deposit the resulting subset
//! claims into the accumulators of the layers they target, and fold the
//! next layer's complete accumulator into the single claim the next
//! reduction starts from.

use vstd::prelude::*;
use vstd::arithmetic::power2::pow2;

use crate::circuit::{
    circuit_in_bounds, circuit_wiring_ok, info_at, info_wf, lemma_info_at_wf, GeneralCircuit,
    InfoModel,
};
use crate::engine::{tables_vals, SumCheckProof};
use crate::field::{Fp, P};
use crate::mle::{
    copy_range, dot_spec, fp_vals, mle_evaluate, mle_spec, num_vars, nv, pad_to, pow2_exec,
};
use crate::sumcheck::phase_one::msgs_of;
use crate::sumcheck::{layer_chals, layer_msgs, layer_state, prove_sumcheck_layer};
use crate::transcript::{tr_absorb, tr_absorb_seq, tr_sample_n_state, tr_sample_n_vals, Transcript};
use crate::util::{
    agi_table, bucket_n_vars, folding_chals, folding_msgs, folding_state, insts_view,
    n_to_1_folding, pad_vals, subclaims_to_hints, subset_vals, subs_views, Subclaim,
};

use super::verify::{accs_views, deposit_views, verify_init, views_evals, VerifierState};
use super::VirgoProof;

verus! {

/// What the prover requires of its inputs: a validly wired circuit of
/// bounded size and an evaluation table of matching shape, the input vector
/// as its final entry.
pub open spec fn prover_input_wf(c: GeneralCircuit, evals: Seq<Vec<Fp>>) -> bool {
    &&& c.layers@.len() >= 1
    &&& evals.len() == c.layers@.len() + 1
    &&& forall|i: int|
        0 <= i < c.layers@.len() ==> (#[trigger] evals[i])@.len() == c.layers@[i].gates@.len()
    &&& 1 <= evals[c.layers@.len() as int]@.len() <= 0x4000_0000
    &&& circuit_wiring_ok(c)
    &&& circuit_in_bounds(c, evals[c.layers@.len() as int]@.len() as nat)
    &&& forall|i: int|
        0 <= i < c.layers@.len() ==> 1 <= (#[trigger] c.layers@[i]).gates@.len() <= 0x1000_0000
}

/// Accumulator well-formedness: every deposited subclaim names positions
/// within its target vector, and its point spans its index map.
pub open spec fn accs_wf(accs: Seq<Vec<Subclaim>>, sizes: Seq<int>) -> bool {
    &&& accs.len() == sizes.len()
    &&& forall|j: int, k: int|
        0 <= j < accs.len() && 0 <= k < accs[j]@.len() ==> {
            let sc = #[trigger] accs[j]@[k];
            &&& forall|t: int|
                0 <= t < sc.instruction@.len() ==> (#[trigger] sc.instruction@[t]) < sizes[j]
            &&& sc.instruction@.len() <= pow2(sc.r@.len())
            &&& sc.r@.len() <= 30
        }
}

/// The per-layer target vector lengths of an evaluation table: the next
/// layers' vectors, the input vector last.
pub open spec fn eval_sizes(evals: Seq<Vec<Fp>>, depth: nat) -> Seq<int> {
    Seq::new(depth, |j: int| evals[j + 1]@.len() as int)
}

/// The compiled proving information of one layer, as the wiring-compiler
/// fold defines it.
pub open spec fn layer_model(c: GeneralCircuit, i: int) -> InfoModel {
    info_at(c.layers@[i].gates@, i, (c.layers@.len() - i) as nat, c.layers@[i].gates@.len())
}

/// The witness values the layer's instructions extract from the evaluation
/// table: one vector of referenced downstream values per distance.
pub open spec fn layer_subsets(c: GeneralCircuit, evals: Seq<Vec<Fp>>, i: int) -> Seq<Seq<int>> {
    Seq::new(
        layer_model(c, i).inst.len(),
        |d: int| subset_vals(layer_model(c, i).inst[d], fp_vals(evals[i + 1 + d]@)),
    )
}

/// The subclaim views the honest prover produces from its subset vectors and
/// the layer's challenge point: the adjacent subset's padded extension at
/// the leading variables, then each bucket's at its prefix of the rest.
#[verifier::opaque]
pub open spec fn es_views(
    inst: Seq<Seq<usize>>,
    subs: Seq<Seq<int>>,
    chals: Seq<int>,
) -> Seq<(Seq<int>, int, Seq<usize>)> {
    let nb = bucket_n_vars(subs[0].len());
    Seq::new(
        subs.len() + 1,
        |k: int|
            if k == 0 {
                (
                    chals.take(nb as int),
                    mle_spec(pad_vals(subs[0], pow2(nb)), chals.take(nb as int)) % (P as int),
                    inst[0],
                )
            } else {
                (
                    chals.subrange(
                        nb as int,
                        nb as int + bucket_n_vars(subs[k - 1].len()) as int,
                    ),
                    mle_spec(
                        pad_vals(subs[k - 1], pow2(bucket_n_vars(subs[k - 1].len()))),
                        chals.subrange(
                            nb as int,
                            nb as int + bucket_n_vars(subs[k - 1].len()) as int,
                        ),
                    ) % (P as int),
                    inst[k - 1],
                )
            },
    )
}

/// The state the honest prover hands to the next layer: the layer reduction
/// and the folding sumcheck advance the transcript, the folding challenges
/// become the next point, and the folded hint the next claim.
#[verifier::opaque]
pub open spec fn prove_layer_state(
    c: GeneralCircuit,
    evals: Seq<Vec<Fp>>,
    i: int,
    st: VerifierState,
) -> VerifierState {
    let model = layer_model(c, i);
    let subs = layer_subsets(c, evals, i);
    let chals = layer_chals(model.adds, model.muls, subs, st.rv, st.s);
    let s1 = layer_state(model.adds, model.muls, subs, st.rv, st.s);
    let scs = es_views(model.inst, subs, chals);
    let s2 = tr_absorb_seq(s1, views_evals(scs));
    let accs2 = deposit_views(st.accs, i, scs);
    let alphas = tr_sample_n_vals(s2, accs2[i].len());
    let s3 = tr_sample_n_state(s2, accs2[i].len());
    let viv = fp_vals(evals[i + 1]@);
    let fchals = folding_chals(alphas, accs2[i], viv, s3);
    let s4 = folding_state(alphas, accs2[i], viv, s3);
    let hint = mle_spec(pad_vals(viv, pow2(nv(viv.len()))), fchals) % (P as int);
    VerifierState { s: tr_absorb(s4, hint), rv: fchals, claim: hint, accs: accs2 }
}

/// The honest prover's state before layer `k`, starting from the output
/// commitment.
pub open spec fn prove_state_at(
    c: GeneralCircuit,
    evals: Seq<Vec<Fp>>,
    k: nat,
    s0: int,
) -> VerifierState
    decreases k,
{
    if k == 0 {
        verify_init(c, fp_vals(evals[0]@), s0)
    } else {
        prove_layer_state(c, evals, k - 1, prove_state_at(c, evals, (k - 1) as nat, s0))
    }
}

/// Everything the honest prover sends for one layer from state `st`: the
/// layer sumcheck's round messages, challenges and hints, and the folding
/// sumcheck's claimed sum, round messages, challenges and folded hint.
#[verifier::opaque]
pub open spec fn honest_layer_from(
    c: GeneralCircuit,
    evals: Seq<Vec<Fp>>,
    i: int,
    st: VerifierState,
) -> ((Seq<(int, int, int)>, Seq<int>, Seq<int>), (int, Seq<(int, int, int)>, Seq<int>, int)) {
    let model = layer_model(c, i);
    let subs = layer_subsets(c, evals, i);
    let msgs = layer_msgs(model.adds, model.muls, subs, st.rv, st.s);
    let chals = layer_chals(model.adds, model.muls, subs, st.rv, st.s);
    let s1 = layer_state(model.adds, model.muls, subs, st.rv, st.s);
    let scs = es_views(model.inst, subs, chals);
    let hv = views_evals(scs);
    let s2 = tr_absorb_seq(s1, hv);
    let accs2 = deposit_views(st.accs, i, scs);
    let alphas = tr_sample_n_vals(s2, accs2[i].len());
    let s3 = tr_sample_n_state(s2, accs2[i].len());
    let viv = fp_vals(evals[i + 1]@);
    let fclaim = dot_spec(agi_table(alphas, accs2[i], viv.len()), viv, viv.len()) % (P as int);
    let fmsgs = folding_msgs(alphas, accs2[i], viv, s3);
    let fchals = folding_chals(alphas, accs2[i], viv, s3);
    let hint = mle_spec(pad_vals(viv, pow2(nv(viv.len()))), fchals) % (P as int);
    ((msgs, chals, hv), (fclaim, fmsgs, fchals, hint))
}

/// Everything the honest prover sends for layer `i` of a run that started
/// from transcript state `s0`.
pub open spec fn honest_layer(c: GeneralCircuit, evals: Seq<Vec<Fp>>, s0: int, i: int) -> (
    (Seq<(int, int, int)>, Seq<int>, Seq<int>),
    (int, Seq<(int, int, int)>, Seq<int>, int),
) {
    honest_layer_from(c, evals, i, prove_state_at(c, evals, i as nat, s0))
}

/// Distributes freshly produced subclaims to the accumulators of the layers
/// they target: the entry at `start` receives the first two (the adjacent
/// `b` claim and the distance-zero `c` claim), and each following entry
/// receives the claim of its distance.
pub fn deposit_subclaims<T>(
    subclaims_container: &mut Vec<Vec<T>>,
    start: usize,
    subclaims: Vec<T>,
)
    requires
        start < old(subclaims_container)@.len(),
        old(subclaims_container)@.len() - start + 1 == subclaims@.len(),
    ensures
        final(subclaims_container)@.len() == old(subclaims_container)@.len(),
        forall|j: int|
            0 <= j < start ==> (#[trigger] final(subclaims_container)@[j])
                == old(subclaims_container)@[j],
        final(subclaims_container)@[start as int]@ == old(subclaims_container)@[start as int]@.push(
            subclaims@[0],
        ).push(subclaims@[1]),
        forall|j: int|
            start < j < final(subclaims_container)@.len() ==> (
            #[trigger] final(subclaims_container)@[j])@ == old(subclaims_container)@[j]@.push(
                subclaims@[j - start + 1],
            ),
{
    let total = subclaims.len();
    let clen = subclaims_container.len();
    let mut items = subclaims;
    let ghost items0 = items@;
    let mut k = total;
    while k > 2
        invariant
            2 <= k <= total,
            total == items0.len(),
            clen == subclaims_container@.len(),
            total == subclaims_container@.len() - start + 1,
            start < subclaims_container@.len(),
            subclaims_container@.len() == old(subclaims_container)@.len(),
            items@ == items0.take(k as int),
            forall|j: int|
                0 <= j <= start ==> (#[trigger] subclaims_container@[j]) == old(
                    subclaims_container,
                )@[j],
            forall|j: int|
                start < j < start + k - 1 ==> (#[trigger] subclaims_container@[j]) == old(
                    subclaims_container,
                )@[j],
            forall|j: int|
                start + k - 1 <= j < subclaims_container@.len() ==> (#[trigger] subclaims_container@[j])@
                    == old(subclaims_container)@[j]@.push(items0[j - start + 1]),
        decreases k,
    {
        k = k - 1;
        let x_opt = items.pop();
        let x = x_opt.unwrap();
        proof {
            assert(items0.take(k as int + 1).drop_last() =~= items0.take(k as int));
        }
        let mut row = subclaims_container.remove(start + k - 1);
        row.push(x);
        subclaims_container.insert(start + k - 1, row);
        proof {
            assert forall|j: int|
                start + k - 1 <= j < subclaims_container@.len() implies (
            #[trigger] subclaims_container@[j])@ == old(subclaims_container)@[j]@.push(
                items0[j - start + 1],
            ) by {}
        }
    }
    let x1_opt = items.pop();
    let x1 = x1_opt.unwrap();
    let x0_opt = items.pop();
    let x0 = x0_opt.unwrap();
    proof {
        assert(items0.take(2).drop_last() =~= items0.take(1));
        assert(items0.take(1).drop_last() =~= items0.take(0));
        assert(items0.take(2).last() == items0[1]);
        assert(items0.take(1).last() == items0[0]);
    }
    let mut row = subclaims_container.remove(start);
    row.push(x0);
    row.push(x1);
    subclaims_container.insert(start, row);
}

/// Runs one layer of the honest prover: compiles and extracts the layer's
/// proving information, reduces the claim through the two-phase sumcheck,
/// deposits the fresh subclaims, folds the next target's accumulator, and
/// returns the layer transcript with its hints, the folding transcript with
/// the folded hint, and the next claim and point.
#[verifier::rlimit(100)]
#[verifier::spinoff_prover]
fn prove_layer(
    circuit: &GeneralCircuit,
    evaluations: &Vec<Vec<Fp>>,
    i: usize,
    layer_subclaims: &mut Vec<Vec<Subclaim>>,
    eval_point: &Vec<Fp>,
    eval: Fp,
    transcript: &mut Transcript,
) -> (r: (SumCheckProof, Vec<Fp>, SumCheckProof, Fp, Vec<Fp>))
    requires
        prover_input_wf(*circuit, evaluations@),
        i < circuit.layers@.len(),
        old(layer_subclaims)@.len() == circuit.layers@.len(),
        accs_wf(old(layer_subclaims)@, eval_sizes(evaluations@, circuit.layers@.len())),
        eval_point@.len() == nv(evaluations@[i as int]@.len()),
        eval_point@.len() <= 30,
    ensures
        ({
            let st = VerifierState {
                s: old(transcript).view_state(),
                rv: fp_vals(eval_point@),
                claim: eval.val(),
                accs: accs_views(old(layer_subclaims)@),
            };
            let hl = honest_layer_from(*circuit, evaluations@, i as int, st);
            let next = prove_layer_state(*circuit, evaluations@, i as int, st);
            &&& r.0.claimed_sum == eval
            &&& msgs_of(r.0) == hl.0.0
            &&& fp_vals(r.0.challenges@) == hl.0.1
            &&& fp_vals(r.1@) == hl.0.2
            &&& r.1@.len() == circuit.layers@.len() - i + 1
            &&& forall|j: int|
                0 <= j < r.0.round_polynomials@.len() ==> (
                #[trigger] r.0.round_polynomials@[j])@.len() == 3
            &&& r.2.claimed_sum.val() == hl.1.0
            &&& msgs_of(r.2) == hl.1.1
            &&& fp_vals(r.2.challenges@) == hl.1.2
            &&& r.3.val() == hl.1.3
            &&& r.3.val() == next.claim
            &&& fp_vals(r.4@) == next.rv
            &&& r.4@.len() == nv(evaluations@[i + 1]@.len())
            &&& r.4@.len() <= 30
            &&& final(transcript).view_state() == next.s
            &&& accs_views(final(layer_subclaims)@) == next.accs
            &&& accs_wf(
                final(layer_subclaims)@,
                eval_sizes(evaluations@, circuit.layers@.len()),
            )
            &&& final(layer_subclaims)@.len() == circuit.layers@.len()
        }),
{
    let depth = circuit.layers.len();
    let ghost sizes = eval_sizes(evaluations@, circuit.layers@.len());
    let ghost gates_g = circuit.layers@[i as int].gates@;
    proof {
        assert(crate::circuit::layer_wiring_ok(circuit.layers@[i as int], i as int));
        assert forall|k: int| 0 <= k < gates_g.len() implies {
            let g = #[trigger] gates_g[k];
            g.inputs[0].0 <= circuit.layers@.len() && g.inputs[1].0 <= circuit.layers@.len()
        } by {
            let g = gates_g[k];
            assert(crate::circuit::addr_in_bounds(
                g.inputs[0],
                circuit.layers@,
                evaluations@[depth as int]@.len() as nat,
            ));
            assert(crate::circuit::addr_in_bounds(
                g.inputs[1],
                circuit.layers@,
                evaluations@[depth as int]@.len() as nat,
            ));
        }
    }
    let layer_proving_info = circuit.generate_layer_proving_info(i);
    let ghost rem = (depth - i) as nat;
    let ghost layer_sizes = Seq::new(rem, |d: int| evaluations@[i + 1 + d]@.len() as int);
    let ghost model = info_at(gates_g, i as int, rem, gates_g.len());
    proof {
        assert forall|k: int| 0 <= k < gates_g.len() implies {
            let g = #[trigger] gates_g[k];
            g.inputs[0].1 < layer_sizes[g.inputs[0].0 - i - 1] && g.inputs[1].1 < layer_sizes[
                g.inputs[1].0 - i - 1
            ]
        } by {
            let g = gates_g[k];
            assert(crate::circuit::addr_in_bounds(
                g.inputs[0],
                circuit.layers@,
                evaluations@[depth as int]@.len() as nat,
            ));
            assert(crate::circuit::addr_in_bounds(
                g.inputs[1],
                circuit.layers@,
                evaluations@[depth as int]@.len() as nat,
            ));
            if g.inputs[0].0 < depth {
                assert(evaluations@[g.inputs[0].0 as int]@.len()
                    == circuit.layers@[g.inputs[0].0 as int].gates@.len());
            }
            if g.inputs[1].0 < depth {
                assert(evaluations@[g.inputs[1].0 as int]@.len()
                    == circuit.layers@[g.inputs[1].0 as int].gates@.len());
            }
        }
        lemma_info_at_wf(gates_g, i as int, rem, gates_g.len(), layer_sizes);
        assert(info_wf(model, rem, gates_g.len(), layer_sizes));
        assert forall|d: int, j: int|
            0 <= d < layer_proving_info.v_subset_instruction@.len() && 0 <= j
                < layer_proving_info.v_subset_instruction@[d]@.len() implies (
        #[trigger] layer_proving_info.v_subset_instruction@[d]@[j]) < evaluations@[
            layer_proving_info.layer_id + 1 + d
        ]@.len() by {
            assert(insts_view(layer_proving_info.v_subset_instruction@)[d] == model.inst[d]);
            assert(model.inst[d][j] < layer_sizes[d]);
        }
    }
    proof {
        assert(model == layer_model(*circuit, i as int));
    }
    let info_ws = layer_proving_info.extract_subsets(evaluations);
    let ghost subs_g = layer_subsets(*circuit, evaluations@, i as int);
    proof {
        assert forall|d: int, j: int|
            0 <= d < info_ws.add_subsets@.len() && 0 <= j < info_ws.add_subsets@[d]@.len()
                implies {
            let e = #[trigger] info_ws.add_subsets@[d]@[j];
            (e[0] as int) < pow2(eval_point@.len()) && (e[1] as int)
                < info_ws.v_subsets@[0]@.len() && (e[2] as int) < info_ws.v_subsets@[d]@.len()
        } by {
            assert(crate::util::buckets_view(info_ws.add_subsets@)[d] == model.adds[d]);
            assert(model.adds[d][j].0 < gates_g.len());
            crate::mle::lemma_nv_covers(evaluations@[i as int]@.len());
        }
        assert forall|d: int, j: int|
            0 <= d < info_ws.mul_subsets@.len() && 0 <= j < info_ws.mul_subsets@[d]@.len()
                implies {
            let e = #[trigger] info_ws.mul_subsets@[d]@[j];
            (e[0] as int) < pow2(eval_point@.len()) && (e[1] as int)
                < info_ws.v_subsets@[0]@.len() && (e[2] as int) < info_ws.v_subsets@[d]@.len()
        } by {
            assert(crate::util::buckets_view(info_ws.mul_subsets@)[d] == model.muls[d]);
            assert(model.muls[d][j].0 < gates_g.len());
            crate::mle::lemma_nv_covers(evaluations@[i as int]@.len());
        }
        assert(info_ws.v_subsets@[0]@.len() >= 1);
        assert forall|d: int| 0 <= d < info_ws.v_subsets@.len() implies (
        #[trigger] info_ws.v_subsets@[d])@.len() <= 0x4000_0000 by {
            assert(model.inst[d].len() <= 2 * gates_g.len());
        }
    }
    proof {
        assert(tables_vals(info_ws.v_subsets@) =~~= subs_g) by {
            assert forall|d: int| 0 <= d < info_ws.v_subsets@.len() implies fp_vals(
                info_ws.v_subsets@[d]@,
            ) =~= subset_vals(model.inst[d], fp_vals(evaluations@[i + 1 + d]@)) by {
                assert(insts_view(layer_proving_info.v_subset_instruction@)[d]
                    == model.inst[d]);
                assert forall|t: int| 0 <= t < info_ws.v_subsets@[d]@.len() implies fp_vals(
                    info_ws.v_subsets@[d]@,
                )[t] == subset_vals(model.inst[d], fp_vals(evaluations@[i + 1 + d]@))[t] by {
                    assert(info_ws.v_subsets@[d]@[t] == evaluations@[i + 1 + d]@[
                        info_ws.v_subset_instruction@[d]@[t] as int
                    ]);
                }
            }
        }
        assert(crate::util::buckets_view(info_ws.add_subsets@) == model.adds);
        assert(crate::util::buckets_view(info_ws.mul_subsets@) == model.muls);
    }
    let ghost stv = VerifierState {
        s: transcript.view_state(),
        rv: fp_vals(eval_point@),
        claim: eval.val(),
        accs: accs_views(layer_subclaims@),
    };
    let layer_sumcheck_proof = prove_sumcheck_layer(eval, eval_point, &info_ws, transcript);
    proof {
        assert(msgs_of(layer_sumcheck_proof) == layer_msgs(
            model.adds,
            model.muls,
            subs_g,
            stv.rv,
            stv.s,
        ));
        assert(fp_vals(layer_sumcheck_proof.challenges@) == layer_chals(
            model.adds,
            model.muls,
            subs_g,
            stv.rv,
            stv.s,
        ));
        assert(transcript.view_state() == layer_state(
            model.adds,
            model.muls,
            subs_g,
            stv.rv,
            stv.s,
        ));
    }
    proof {
        assert forall|d: int| 0 <= d < info_ws.v_subsets@.len() implies bucket_n_vars(
            info_ws.v_subsets@[0]@.len(),
        ) + bucket_n_vars((#[trigger] info_ws.v_subsets@[d])@.len())
            <= layer_sumcheck_proof.challenges@.len() by {
            crate::sumcheck::phase_two::lemma_max_bucket_nv_ge(
                crate::engine::tables_vals(info_ws.v_subsets@),
                info_ws.v_subsets@.len() as nat,
                d,
            );
        }
    }
    let subclaims = info_ws.eval_subsets(&layer_sumcheck_proof.challenges);
    let ghost chalsv = fp_vals(layer_sumcheck_proof.challenges@);
    let ghost scs_g = es_views(model.inst, subs_g, chalsv);
    proof {
        assert(subs_views(subclaims@) =~~= scs_g) by {
            reveal(crate::protocol::prover::es_views);
            let nb = bucket_n_vars(subs_g[0].len());
            assert(fp_vals(info_ws.v_subsets@[0]@) == subs_g[0]);
            assert(info_ws.v_subsets@[0]@.len() == subs_g[0].len());
            assert forall|k: int| 0 <= k < subs_views(subclaims@).len() implies subs_views(
                subclaims@,
            )[k].0 =~= scs_g[k].0 && subs_views(subclaims@)[k].1 == scs_g[k].1 && subs_views(
                subclaims@,
            )[k].2 =~= scs_g[k].2 by {
                assert(subs_views(subclaims@)[k] == crate::util::sub_view(subclaims@[k]));
                if k >= 1 {
                    assert(subclaims@[(k - 1) + 1] == subclaims@[k]);
                    assert(fp_vals(info_ws.v_subsets@[k - 1]@) == subs_g[k - 1]);
                    assert(info_ws.v_subsets@[k - 1]@.len() == subs_g[k - 1].len());
                    let nd = bucket_n_vars(subs_g[k - 1].len()) as int;
                    assert(subclaims@[k].r@ == layer_sumcheck_proof.challenges@.subrange(
                        nb as int,
                        nb as int + nd,
                    ));
                    assert(fp_vals(subclaims@[k].r@) =~= chalsv.subrange(nb as int, nb as int
                        + nd));
                    assert(pad_vals(
                        fp_vals(info_ws.v_subsets@[k - 1]@),
                        pow2(bucket_n_vars(info_ws.v_subsets@[k - 1]@.len())),
                    ) == pad_vals(subs_g[k - 1], pow2(bucket_n_vars(subs_g[k - 1].len()))));
                } else {
                    assert(subclaims@[0].r@ == layer_sumcheck_proof.challenges@.take(nb as int));
                    assert(fp_vals(subclaims@[0].r@) =~= chalsv.take(nb as int));
                    assert(pad_vals(fp_vals(info_ws.v_subsets@[0]@), pow2(nb)) == pad_vals(
                        subs_g[0],
                        pow2(nb),
                    ));
                }
            }
        }
    }
    let hints = subclaims_to_hints(&subclaims);
    proof {
        assert(fp_vals(hints@) =~= views_evals(subs_views(subclaims@)));
        assert(fp_vals(hints@) == views_evals(scs_g));
    }
    transcript.observe(&hints);
    let ghost s2_g = transcript.view_state();
    proof {
        // the deposited subclaims satisfy the accumulator invariant
        assert forall|k: int| 0 <= k < subclaims@.len() implies {
            let sc = #[trigger] subclaims@[k];
            &&& sc.instruction@.len() <= pow2(sc.r@.len())
            &&& sc.r@.len() <= 30
            &&& forall|t: int|
                0 <= t < sc.instruction@.len() ==> (#[trigger] sc.instruction@[t]) < (if k
                    == 0 {
                    layer_sizes[0]
                } else {
                    layer_sizes[k - 1]
                })
        } by {
            let sc = subclaims@[k];
            if k == 0 {
                crate::util::lemma_bucket_nv_covers(info_ws.v_subsets@[0]@.len());
                crate::util::lemma_bucket_nv_le30(info_ws.v_subsets@[0]@.len());
                assert(sc.instruction@ == layer_proving_info.v_subset_instruction@[0]@);
                assert(insts_view(layer_proving_info.v_subset_instruction@)[0]
                    == model.inst[0]);
                assert(sc.r@.len() == bucket_n_vars(info_ws.v_subsets@[0]@.len()));
                assert(sc.instruction@.len() == info_ws.v_subsets@[0]@.len());
            } else {
                crate::util::lemma_bucket_nv_covers(info_ws.v_subsets@[k - 1]@.len());
                crate::util::lemma_bucket_nv_le30(info_ws.v_subsets@[k - 1]@.len());
                crate::util::lemma_bucket_nv_le30(info_ws.v_subsets@[0]@.len());
                assert(subclaims@[(k - 1) + 1] == sc);
                assert(sc.instruction@ == layer_proving_info.v_subset_instruction@[k - 1]@);
                assert(insts_view(layer_proving_info.v_subset_instruction@)[k - 1]
                    == model.inst[k - 1]);
                assert(sc.r@.len() == bucket_n_vars(info_ws.v_subsets@[k - 1]@.len()));
                assert(sc.instruction@.len() == info_ws.v_subsets@[k - 1]@.len());
            }
        }
    }
    let ghost subsv = subs_views(subclaims@);
    let ghost accs_before = accs_views(layer_subclaims@);
    deposit_subclaims(layer_subclaims, i, subclaims);
    let ghost accs2 = deposit_views(stv.accs, i as int, scs_g);
    proof {
        assert(accs_wf(layer_subclaims@, sizes));
        assert(accs_views(layer_subclaims@) =~~= accs2) by {
            reveal(crate::protocol::verify::deposit_views);
            assert forall|j: int| 0 <= j < depth implies accs_views(layer_subclaims@)[j]
                =~~= accs2[j] by {
                if j == i as int {
                    assert(subs_views(layer_subclaims@[j]@) =~= accs_before[j].push(
                        subsv[0],
                    ).push(subsv[1]));
                } else if (i as int) < j < depth {
                    assert(subs_views(layer_subclaims@[j]@) =~= accs_before[j].push(
                        subsv[j - i + 1],
                    ));
                } else {
                    assert(subs_views(layer_subclaims@[j]@) =~= accs_before[j]);
                }
                assert(subsv =~~= scs_g);
                assert(accs_before =~~= stv.accs);
            }
        }
    }
    let alphas = transcript.sample_n_challenges(layer_subclaims[i].len());
    proof {
        assert(subs_views(layer_subclaims@[i as int]@) =~= accs2[i as int]);
        assert(layer_subclaims@[i as int]@.len() == accs2[i as int].len());
        assert(fp_vals(alphas@) == tr_sample_n_vals(s2_g, accs2[i as int].len()));
        assert(transcript.view_state() == tr_sample_n_state(s2_g, accs2[i as int].len()));
    }
    let folding_proof = n_to_1_folding(
        transcript,
        &alphas,
        &layer_subclaims[i],
        &evaluations[i + 1],
    );
    let ghost s3_g = tr_sample_n_state(s2_g, accs2[i as int].len());
    let ghost viv = fp_vals(evaluations@[i + 1]@);
    proof {
        assert(fp_vals(alphas@) == tr_sample_n_vals(s2_g, accs2[i as int].len()));
        assert(subs_views(layer_subclaims@[i as int]@) =~= accs2[i as int]);
        assert(folding_proof.claimed_sum.val() == dot_spec(
            agi_table(fp_vals(alphas@), accs2[i as int], viv.len()),
            viv,
            viv.len(),
        ) % (P as int));
        assert(msgs_of(folding_proof) == folding_msgs(
            fp_vals(alphas@),
            accs2[i as int],
            viv,
            s3_g,
        ));
        assert(fp_vals(folding_proof.challenges@) == folding_chals(
            fp_vals(alphas@),
            accs2[i as int],
            viv,
            s3_g,
        ));
        assert(transcript.view_state() == folding_state(
            fp_vals(alphas@),
            accs2[i as int],
            viv,
            s3_g,
        ));
    }
    let n_next = num_vars(evaluations[i + 1].len());
    let next_point = copy_range(&folding_proof.challenges, 0, folding_proof.challenges.len());
    let vi_p = pad_to(&evaluations[i + 1], pow2_exec(n_next));
    proof {
        assert(fp_vals(vi_p@) =~= pad_vals(viv, pow2(nv(viv.len()))));
        assert(fp_vals(next_point@) =~= fp_vals(folding_proof.challenges@));
    }
    let next_eval = mle_evaluate(&vi_p, &next_point);
    transcript.absorb(next_eval);
    proof {
        reveal(crate::protocol::prover::honest_layer_from);
        reveal(crate::protocol::prover::prove_layer_state);
        let hl = honest_layer_from(*circuit, evaluations@, i as int, stv);
        let next = prove_layer_state(*circuit, evaluations@, i as int, stv);
        assert(msgs_of(layer_sumcheck_proof) == hl.0.0);
        assert(fp_vals(layer_sumcheck_proof.challenges@) == hl.0.1);
        assert(fp_vals(hints@) == hl.0.2);
        assert(folding_proof.claimed_sum.val() == hl.1.0);
        assert(msgs_of(folding_proof) == hl.1.1);
        assert(fp_vals(folding_proof.challenges@) == hl.1.2);
        assert(next_eval.val() == hl.1.3);
        assert(transcript.view_state() == next.s);
        assert(fp_vals(next_point@) == next.rv);
        assert(next_eval.val() == next.claim);
        assert(accs_views(layer_subclaims@) == next.accs);
    }
    (layer_sumcheck_proof, hints, folding_proof, next_eval, next_point)
}

/// Proves the correct execution of a circuit against its full evaluation
/// table: commits the output vector, then reduces and folds layer by layer,
/// producing one layer sumcheck with hints and one folding sumcheck with
/// the folded hint per layer, in order.
#[verifier::rlimit(100)]
pub fn prove(
    circuit: &GeneralCircuit,
    evaluations: &Vec<Vec<Fp>>,
    transcript: &mut Transcript,
) -> (r: VirgoProof)
    requires
        prover_input_wf(*circuit, evaluations@),
    ensures
        r.layer_sumchecks@.len() == circuit.layers@.len(),
        r.folding_sumchecks@.len() == circuit.layers@.len(),
        forall|i: int|
            0 <= i < r.layer_sumchecks@.len() ==> (#[trigger] r.layer_sumchecks@[i]).1@.len()
                == circuit.layers@.len() - i + 1,
        forall|i: int, j: int|
            0 <= i < r.layer_sumchecks@.len() && 0 <= j
                < r.layer_sumchecks@[i].0.round_polynomials@.len() ==> (
            #[trigger] r.layer_sumchecks@[i].0.round_polynomials@[j])@.len() == 3,
        // the first layer's claim is the one the output commitment fixes:
        // the padded output's extension at the point the transcript samples
        // right after absorbing it
        r.layer_sumchecks@[0].0.claimed_sum.val() == ({
            let padded = pad_vals(
                fp_vals(evaluations@[0]@),
                pow2(nv(evaluations@[0]@.len() as nat)),
            );
            crate::mle::mle_spec(
                padded,
                crate::transcript::tr_sample_n_vals(
                    crate::transcript::tr_absorb_seq(old(transcript).view_state(), padded),
                    nv(evaluations@[0]@.len() as nat),
                ),
            ) % (P as int)
        }),
        // the transcript ends in the state the honest chain reaches, every
        // absorb strictly preceding the samples that depend on it
        final(transcript).view_state() == prove_state_at(
            *circuit,
            evaluations@,
            circuit.layers@.len(),
            old(transcript).view_state(),
        ).s,
        // each layer's transcripts are exactly the honest ones: the layer
        // sumcheck opens with the chain's running claim and carries the
        // specified round messages, challenges and hints, and the folding
        // sumcheck carries the specified claim, rounds, challenges and hint
        forall|i: int|
            #![trigger r.layer_sumchecks@[i]]
            0 <= i < circuit.layers@.len() ==> {
                let st = prove_state_at(
                    *circuit,
                    evaluations@,
                    i as nat,
                    old(transcript).view_state(),
                );
                let hl = honest_layer(*circuit, evaluations@, old(transcript).view_state(), i);
                &&& r.layer_sumchecks@[i].0.claimed_sum.val() == st.claim
                &&& msgs_of(r.layer_sumchecks@[i].0) == hl.0.0
                &&& fp_vals(r.layer_sumchecks@[i].0.challenges@) == hl.0.1
                &&& fp_vals(r.layer_sumchecks@[i].1@) == hl.0.2
                &&& r.folding_sumchecks@[i].0.claimed_sum.val() == hl.1.0
                &&& msgs_of(r.folding_sumchecks@[i].0) == hl.1.1
                &&& fp_vals(r.folding_sumchecks@[i].0.challenges@) == hl.1.2
                &&& r.folding_sumchecks@[i].1.val() == hl.1.3
            },
{
    let depth = circuit.layers.len();
    let mut proof = VirgoProof::default();
    let mut layer_subclaims: Vec<Vec<Subclaim>> = Vec::new();
    while layer_subclaims.len() < depth
        invariant
            layer_subclaims@.len() <= depth,
            forall|j: int|
                0 <= j < layer_subclaims@.len() ==> (#[trigger] layer_subclaims@[j])@.len() == 0,
        decreases depth - layer_subclaims@.len(),
    {
        layer_subclaims.push(Vec::new());
    }
    let ghost sizes = Seq::new(depth as nat, |j: int| evaluations@[j + 1]@.len() as int);
    // commit the output vector and derive the first claim from a fresh point
    let n0 = num_vars(evaluations[0].len());
    crate::field::note_reduced(&evaluations[0]);
    let output_mle = pad_to(&evaluations[0], pow2_exec(n0));
    proof {
        assert(fp_vals(output_mle@) =~= pad_vals(
            fp_vals(evaluations@[0]@),
            pow2(nv(evaluations@[0]@.len() as nat)),
        )) by {
            assert forall|t: int| 0 <= t < output_mle@.len() implies fp_vals(output_mle@)[t]
                == pad_vals(
                fp_vals(evaluations@[0]@),
                pow2(nv(evaluations@[0]@.len() as nat)),
            )[t] by {}
        }
    }
    transcript.observe(&output_mle);
    let mut eval_point = transcript.sample_n_challenges(n0);
    let mut eval = mle_evaluate(&output_mle, &eval_point);
    let ghost initial_claim = eval;
    let ghost chain0 = prove_state_at(
        *circuit,
        evaluations@,
        0,
        old(transcript).view_state(),
    );
    proof {
        assert(chain0 == verify_init(
            *circuit,
            fp_vals(evaluations@[0]@),
            old(transcript).view_state(),
        ));
        assert(chain0.s == transcript.view_state());
        assert(chain0.rv == fp_vals(eval_point@));
        assert(chain0.claim == eval.val());
        assert(chain0.accs =~~= accs_views(layer_subclaims@));
    }
    proof {
        assert(initial_claim.val() == ({
            let padded = pad_vals(
                fp_vals(evaluations@[0]@),
                pow2(nv(evaluations@[0]@.len() as nat)),
            );
            crate::mle::mle_spec(
                padded,
                crate::transcript::tr_sample_n_vals(
                    crate::transcript::tr_absorb_seq(old(transcript).view_state(), padded),
                    nv(evaluations@[0]@.len() as nat),
                ),
            ) % (P as int)
        }));
    }
    let mut i: usize = 0;
    while i < depth
        invariant
            i <= depth,
            depth == circuit.layers@.len(),
            prover_input_wf(*circuit, evaluations@),
            sizes == Seq::new(depth as nat, |j: int| evaluations@[j + 1]@.len() as int),
            layer_subclaims@.len() == depth,
            accs_wf(layer_subclaims@, sizes),
            eval_point@.len() == nv(evaluations@[i as int]@.len()),
            eval_point@.len() <= 30,
            proof.layer_sumchecks@.len() == i,
            proof.folding_sumchecks@.len() == i,
            forall|i2: int|
                0 <= i2 < i ==> (#[trigger] proof.layer_sumchecks@[i2]).1@.len() == depth - i2
                    + 1,
            forall|i2: int, j: int|
                0 <= i2 < i && 0 <= j < proof.layer_sumchecks@[i2].0.round_polynomials@.len()
                    ==> (#[trigger] proof.layer_sumchecks@[i2].0.round_polynomials@[j])@.len()
                    == 3,
            i >= 1 ==> proof.layer_sumchecks@[0].0.claimed_sum == initial_claim,
            i == 0 ==> eval == initial_claim,
            transcript.view_state() == prove_state_at(
                *circuit,
                evaluations@,
                i as nat,
                old(transcript).view_state(),
            ).s,
            fp_vals(eval_point@) == prove_state_at(
                *circuit,
                evaluations@,
                i as nat,
                old(transcript).view_state(),
            ).rv,
            eval.val() == prove_state_at(
                *circuit,
                evaluations@,
                i as nat,
                old(transcript).view_state(),
            ).claim,
            accs_views(layer_subclaims@) == prove_state_at(
                *circuit,
                evaluations@,
                i as nat,
                old(transcript).view_state(),
            ).accs,
            forall|i2: int|
                #![trigger proof.layer_sumchecks@[i2]]
                0 <= i2 < i ==> {
                    let st = prove_state_at(
                        *circuit,
                        evaluations@,
                        i2 as nat,
                        old(transcript).view_state(),
                    );
                    let hl = honest_layer(
                        *circuit,
                        evaluations@,
                        old(transcript).view_state(),
                        i2,
                    );
                    &&& proof.layer_sumchecks@[i2].0.claimed_sum.val() == st.claim
                    &&& msgs_of(proof.layer_sumchecks@[i2].0) == hl.0.0
                    &&& fp_vals(proof.layer_sumchecks@[i2].0.challenges@) == hl.0.1
                    &&& fp_vals(proof.layer_sumchecks@[i2].1@) == hl.0.2
                    &&& proof.folding_sumchecks@[i2].0.claimed_sum.val() == hl.1.0
                    &&& msgs_of(proof.folding_sumchecks@[i2].0) == hl.1.1
                    &&& fp_vals(proof.folding_sumchecks@[i2].0.challenges@) == hl.1.2
                    &&& proof.folding_sumchecks@[i2].1.val() == hl.1.3
                },
            initial_claim.val() == ({
                let padded = pad_vals(
                    fp_vals(evaluations@[0]@),
                    pow2(nv(evaluations@[0]@.len() as nat)),
                );
                crate::mle::mle_spec(
                    padded,
                    crate::transcript::tr_sample_n_vals(
                        crate::transcript::tr_absorb_seq(old(transcript).view_state(), padded),
                        nv(evaluations@[0]@.len() as nat),
                    ),
                ) % (P as int)
            }),
        decreases depth - i,
    {
        let ghost st_ghost = VerifierState {
            s: transcript.view_state(),
            rv: fp_vals(eval_point@),
            claim: eval.val(),
            accs: accs_views(layer_subclaims@),
        };
        let (layer_sumcheck_proof, hints, folding_proof, next_eval, next_point) = prove_layer(
            circuit,
            evaluations,
            i,
            &mut layer_subclaims,
            &eval_point,
            eval,
            transcript,
        );
        proof {
            assert(prove_state_at(
                *circuit,
                evaluations@,
                (i + 1) as nat,
                old(transcript).view_state(),
            ) == prove_layer_state(*circuit, evaluations@, i as int, st_ghost));
        }
        proof.add_layer_proof(layer_sumcheck_proof, hints);
        proof.add_folding_proof(folding_proof, next_eval);
        eval_point = next_point;
        eval = next_eval;
        i = i + 1;
    }
    proof
}

} // verus!
