//! The two-phase sumcheck layer reducer: phase one eliminates the adjacent
//! variables, phase two the far-distance variables, and the two partial
//! transcripts are merged into one layer proof.

pub mod phase_one;
pub mod phase_two;

use vstd::prelude::*;
use vstd::arithmetic::power2::pow2;

use crate::engine::SumCheckProof;
use crate::field::{Fp, P};
use crate::mle::{eq_seq, fp_vals, generate_eq};
use crate::transcript::Transcript;
use crate::util::LayerProvingInfoWithSubset;
use phase_one::{
    msgs_of, phase_one_chals, phase_one_msgs, phase_one_n, phase_one_state, prove_phase_one,
    with_subset_wf,
};
use phase_two::{
    phase_two_chals, phase_two_msgs, phase_two_n, phase_two_state, prove_phase_two,
};

verus! {

/// The reduced eq table of a point, as the prover's tables see it.
pub open spec fn igz_of(rv: Seq<int>) -> Seq<int> {
    eq_seq(rv).map_values(|v: int| v % (P as int))
}

/// All round messages of one layer's reduction: phase one's, then phase
/// two's, chained through the transcript. The buckets `adds`/`muls` and the
/// subset vectors `subs` are the layer's compiled proving information with
/// its extracted witness values.
pub open spec fn layer_msgs(
    adds: Seq<Seq<(int, int, int)>>,
    muls: Seq<Seq<(int, int, int)>>,
    subs: Seq<Seq<int>>,
    rv: Seq<int>,
    s: int,
) -> Seq<(int, int, int)> {
    let igzv = igz_of(rv);
    phase_one_msgs(adds, muls, subs, igzv, s).add(
        phase_two_msgs(
            adds,
            muls,
            subs,
            igzv,
            phase_one_chals(adds, muls, subs, igzv, s),
            phase_one_state(adds, muls, subs, igzv, s),
        ),
    )
}

/// All challenges of one layer's reduction, in round order.
pub open spec fn layer_chals(
    adds: Seq<Seq<(int, int, int)>>,
    muls: Seq<Seq<(int, int, int)>>,
    subs: Seq<Seq<int>>,
    rv: Seq<int>,
    s: int,
) -> Seq<int> {
    let igzv = igz_of(rv);
    phase_one_chals(adds, muls, subs, igzv, s).add(
        phase_two_chals(
            adds,
            muls,
            subs,
            igzv,
            phase_one_chals(adds, muls, subs, igzv, s),
            phase_one_state(adds, muls, subs, igzv, s),
        ),
    )
}

/// The transcript state after one layer's reduction.
pub open spec fn layer_state(
    adds: Seq<Seq<(int, int, int)>>,
    muls: Seq<Seq<(int, int, int)>>,
    subs: Seq<Seq<int>>,
    rv: Seq<int>,
    s: int,
) -> int {
    let igzv = igz_of(rv);
    phase_two_state(
        adds,
        muls,
        subs,
        igzv,
        phase_one_chals(adds, muls, subs, igzv, s),
        phase_one_state(adds, muls, subs, igzv, s),
    )
}

/// The total number of rounds of one layer's reduction.
pub open spec fn layer_n(subs: Seq<Seq<int>>) -> nat {
    phase_one_n(subs) + phase_two_n(subs)
}

/// Merges the phase-one and phase-two partial transcripts into one proof,
/// keeping the first proof's claimed sum.
pub fn merge_sumcheck_proofs(proof1: SumCheckProof, proof2: SumCheckProof) -> (r: SumCheckProof)
    ensures
        r.claimed_sum == proof1.claimed_sum,
        r.round_polynomials@ == proof1.round_polynomials@.add(proof2.round_polynomials@),
        r.challenges@ == proof1.challenges@.add(proof2.challenges@),
{
    let SumCheckProof { claimed_sum, round_polynomials: mut rp, challenges: mut ch } = proof1;
    let SumCheckProof { claimed_sum: _sum2, round_polynomials: mut rp2, challenges: mut ch2 } =
        proof2;
    rp.append(&mut rp2);
    ch.append(&mut ch2);
    SumCheckProof { claimed_sum, round_polynomials: rp, challenges: ch }
}

/// Reduces one layer's claim through both phases and merges the partial
/// transcripts: the claimed sum, the concatenated round messages and the
/// concatenated challenges form the layer's sumcheck proof.
pub fn prove_sumcheck_layer(
    claimed_sum: Fp,
    output_point: &Vec<Fp>,
    layer_proving_info: &LayerProvingInfoWithSubset,
    transcript: &mut Transcript,
) -> (r: SumCheckProof)
    requires
        with_subset_wf(*layer_proving_info, pow2(output_point@.len())),
        output_point@.len() <= 30,
    ensures
        r.claimed_sum == claimed_sum,
        msgs_of(r) == layer_msgs(
            crate::util::buckets_view(layer_proving_info.add_subsets@),
            crate::util::buckets_view(layer_proving_info.mul_subsets@),
            crate::engine::tables_vals(layer_proving_info.v_subsets@),
            fp_vals(output_point@),
            old(transcript).view_state(),
        ),
        fp_vals(r.challenges@) == layer_chals(
            crate::util::buckets_view(layer_proving_info.add_subsets@),
            crate::util::buckets_view(layer_proving_info.mul_subsets@),
            crate::engine::tables_vals(layer_proving_info.v_subsets@),
            fp_vals(output_point@),
            old(transcript).view_state(),
        ),
        final(transcript).view_state() == layer_state(
            crate::util::buckets_view(layer_proving_info.add_subsets@),
            crate::util::buckets_view(layer_proving_info.mul_subsets@),
            crate::engine::tables_vals(layer_proving_info.v_subsets@),
            fp_vals(output_point@),
            old(transcript).view_state(),
        ),
        r.round_polynomials@.len() == layer_n(
            crate::engine::tables_vals(layer_proving_info.v_subsets@),
        ),
        r.challenges@.len() == layer_n(
            crate::engine::tables_vals(layer_proving_info.v_subsets@),
        ),
        forall|j: int|
            0 <= j < r.round_polynomials@.len() ==> (#[trigger] r.round_polynomials@[j])@.len()
                == 3,
{
    let ghost info = *layer_proving_info;
    let ghost rv = fp_vals(output_point@);
    let igz = generate_eq(output_point);
    proof {
        assert(fp_vals(igz@) =~= igz_of(rv));
    }
    let phase_one_proof = prove_phase_one(&igz, claimed_sum, layer_proving_info, transcript);
    proof {
        let len0 = info.v_subsets@[0]@.len();
        if len0 > 1 {
            vstd::arithmetic::power2::lemma2_to64();
            crate::mle::lemma_nv_least(len0, 30);
        }
    }
    let phase_two_proof = prove_phase_two(
        &igz,
        &phase_one_proof.challenges,
        layer_proving_info,
        transcript,
    );
    let ghost p1 = phase_one_proof;
    let ghost p2 = phase_two_proof;
    let r = merge_sumcheck_proofs(phase_one_proof, phase_two_proof);
    proof {
        assert(msgs_of(r) =~= msgs_of(p1).add(msgs_of(p2)));
        assert(fp_vals(r.challenges@) =~= fp_vals(p1.challenges@).add(fp_vals(p2.challenges@)));
    }
    r
}

} // verus!
