//! Fiat-Shamir transcript: a deterministic absorb/sample state machine over
//! the field. Every prover message is absorbed before any challenge that
//! depends on it is sampled, and the verifier replays the identical sequence,
//! so both sides derive the same challenges from the same messages.
//!
//! The mixing function is an affine congruential update, a stand-in for a
//! cryptographic hash: it fixes the absorb/sample discipline and makes the
//! protocol deterministic and testable, but it is not collision resistant,
//! so a deployment would put a real hash in its place.

use vstd::prelude::*;

use crate::field::{Fp, P};
use crate::mle::fp_vals;

verus! {

/// Multiplier applied to the running state on every absorb and sample.
pub const MIX_STATE: u32 = 1103515245;

/// Multiplier applied to an absorbed element.
pub const MIX_ELEM: u32 = 747796405;

/// Offset applied on every absorb.
pub const MIX_ABSORB: u32 = 1013904223;

/// Offset applied on every sample.
pub const MIX_SAMPLE: u32 = 1442695040;

/// The state after absorbing one element into state `s`.
#[verifier::opaque]
pub open spec fn tr_absorb(s: int, v: int) -> int {
    ((s * (MIX_STATE as int)) % (P as int) + ((v * (MIX_ELEM as int)) % (P as int) + (
    MIX_ABSORB as int)) % (P as int)) % (P as int)
}

/// The state after absorbing a sequence of elements, in order.
pub open spec fn tr_absorb_seq(s: int, vs: Seq<int>) -> int
    decreases vs.len(),
{
    if vs.len() == 0 {
        s
    } else {
        tr_absorb(tr_absorb_seq(s, vs.drop_last()), vs.last())
    }
}

/// The challenge sampled from state `s`; it is also the next state.
#[verifier::opaque]
pub open spec fn tr_sample(s: int) -> int {
    ((s * (MIX_STATE as int)) % (P as int) + (MIX_SAMPLE as int)) % (P as int)
}

/// The state after sampling `n` challenges from state `s`.
pub open spec fn tr_sample_n_state(s: int, n: nat) -> int
    decreases n,
{
    if n == 0 {
        s
    } else {
        tr_sample_n_state(tr_sample(s), (n - 1) as nat)
    }
}

/// The `n` challenges sampled from state `s`, in order.
pub open spec fn tr_sample_n_vals(s: int, n: nat) -> Seq<int>
    decreases n,
{
    if n == 0 {
        Seq::empty()
    } else {
        seq![tr_sample(s)].add(tr_sample_n_vals(tr_sample(s), (n - 1) as nat))
    }
}

/// A Fiat-Shamir transcript; its whole state is one field element.
pub struct Transcript {
    state: Fp,
}

impl Transcript {
    /// The current state as a mathematical integer.
    pub closed spec fn view_state(self) -> int {
        self.state.val()
    }

    /// A fresh transcript in the all-zero state.
    pub fn init() -> (r: Transcript)
        ensures
            r.view_state() == 0,
    {
        Transcript { state: Fp::zero() }
    }

    /// Absorbs one field element into the state.
    pub fn absorb(&mut self, v: Fp)
        ensures
            final(self).view_state() == tr_absorb(old(self).view_state(), v.val()),
    {
        proof {
            reveal(crate::transcript::tr_absorb);
        }
        let mixed = v.mul(Fp::from_u32(MIX_ELEM)).add(Fp::from_u32(MIX_ABSORB));
        self.state = self.state.mul(Fp::from_u32(MIX_STATE)).add(mixed);
    }

    /// Absorbs a sequence of field elements, first element first.
    #[verifier::rlimit(30)]
    pub fn observe(&mut self, elements: &Vec<Fp>)
        ensures
            final(self).view_state() == tr_absorb_seq(old(self).view_state(), fp_vals(elements@)),
    {
        let mut i: usize = 0;
        while i < elements.len()
            invariant
                i <= elements@.len(),
                self.view_state() == tr_absorb_seq(
                    old(self).view_state(),
                    fp_vals(elements@).take(i as int),
                ),
            decreases elements@.len() - i,
        {
            self.absorb(elements[i]);
            proof {
                let pre = fp_vals(elements@).take(i as int);
                let ext = fp_vals(elements@).take(i as int + 1);
                assert(ext.drop_last() =~= pre);
                assert(ext.last() == elements@[i as int].val());
            }
            i = i + 1;
        }
        proof {
            assert(fp_vals(elements@).take(elements@.len() as int) =~= fp_vals(elements@));
        }
    }

    /// Samples one challenge; the challenge is the new state.
    pub fn sample_challenge(&mut self) -> (r: Fp)
        ensures
            r.val() == tr_sample(old(self).view_state()),
            final(self).view_state() == tr_sample(old(self).view_state()),
    {
        proof {
            reveal(crate::transcript::tr_sample);
        }
        self.state = self.state.mul(Fp::from_u32(MIX_STATE)).add(Fp::from_u32(MIX_SAMPLE));
        self.state
    }

    /// Samples `n` challenges, in order.
    pub fn sample_n_challenges(&mut self, n: usize) -> (r: Vec<Fp>)
        ensures
            fp_vals(r@) == tr_sample_n_vals(old(self).view_state(), n as nat),
            r@.len() == n,
            final(self).view_state() == tr_sample_n_state(old(self).view_state(), n as nat),
    {
        let mut r: Vec<Fp> = Vec::new();
        let mut i: usize = 0;
        while i < n
            invariant
                i <= n,
                r@.len() == i,
                fp_vals(r@).add(tr_sample_n_vals(self.view_state(), (n - i) as nat))
                    == tr_sample_n_vals(old(self).view_state(), n as nat),
                tr_sample_n_state(self.view_state(), (n - i) as nat) == tr_sample_n_state(
                    old(self).view_state(),
                    n as nat,
                ),
            decreases n - i,
        {
            let ghost pre = self.view_state();
            let c = self.sample_challenge();
            r.push(c);
            proof {
                assert(fp_vals(r@) =~= fp_vals(r@.drop_last()).push(c.val()));
                assert(tr_sample_n_vals(pre, (n - i) as nat) =~= seq![tr_sample(pre)].add(
                    tr_sample_n_vals(tr_sample(pre), (n - i - 1) as nat),
                ));
                assert(fp_vals(r@).add(tr_sample_n_vals(self.view_state(), (n - i - 1) as nat))
                    =~= fp_vals(r@.drop_last()).add(tr_sample_n_vals(pre, (n - i) as nat)));
            }
            i = i + 1;
        }
        proof {
            assert(fp_vals(r@).add(tr_sample_n_vals(self.view_state(), 0)) =~= fp_vals(r@));
        }
        r
    }
}

} // verus!
