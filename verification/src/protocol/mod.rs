//! Prover/verifier orchestration: one sumcheck reduction and one folding
//! step per layer, chained from the output layer down to the input vector.

pub mod prover;
pub mod verify;

use vstd::prelude::*;

use crate::engine::SumCheckProof;
use crate::field::Fp;

verus! {

/// The proof object exchanged between prover and verifier: one layer
/// sumcheck with its scalar hints and one folding sumcheck with its folded
/// hint per circuit layer, in output-to-input order.
#[derive(Debug, Clone, PartialEq)]
pub struct VirgoProof {
    /// Per-layer sumcheck transcripts with the prover's subset-evaluation
    /// hints.
    pub layer_sumchecks: Vec<(SumCheckProof, Vec<Fp>)>,
    /// Per-layer folding transcripts with the folded evaluation hint.
    pub folding_sumchecks: Vec<(SumCheckProof, Fp)>,
}

impl VirgoProof {
    /// Appends one layer's sumcheck transcript and hints.
    pub fn add_layer_proof(&mut self, layer_proof: SumCheckProof, layer_hints: Vec<Fp>)
        ensures
            final(self).layer_sumchecks@ == old(self).layer_sumchecks@.push(
                (layer_proof, layer_hints),
            ),
            final(self).folding_sumchecks == old(self).folding_sumchecks,
    {
        self.layer_sumchecks.push((layer_proof, layer_hints));
    }

    /// Appends one layer's folding transcript and hint.
    pub fn add_folding_proof(&mut self, folding_proof: SumCheckProof, folding_hint: Fp)
        ensures
            final(self).folding_sumchecks@ == old(self).folding_sumchecks@.push(
                (folding_proof, folding_hint),
            ),
            final(self).layer_sumchecks == old(self).layer_sumchecks,
    {
        self.folding_sumchecks.push((folding_proof, folding_hint));
    }
}

impl Default for VirgoProof {
    /// An empty proof, ready to collect per-layer transcripts.
    fn default() -> (r: VirgoProof)
        ensures
            r.layer_sumchecks@.len() == 0,
            r.folding_sumchecks@.len() == 0,
    {
        VirgoProof { layer_sumchecks: Vec::new(), folding_sumchecks: Vec::new() }
    }
}

} // verus!
