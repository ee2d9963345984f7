//! The scalar field of the argument system: integers modulo the Mersenne
//! prime `P = 2^31 - 1`. Every element is kept reduced, so equality of
//! elements coincides with equality of their residues.
//!
//! The protocol is stated over this one concrete field; there is no
//! extension field, so transcript challenges are drawn from a set of size
//! `P`. A deployment after larger soundness margins would sample its
//! challenges from an extension of this field instead.

use vstd::prelude::*;
use vstd::arithmetic::div_mod::{
    lemma_add_mod_noop, lemma_mod_multiples_vanish, lemma_mul_mod_noop, lemma_small_mod,
};

verus! {

/// The field modulus, the Mersenne prime 2^31 - 1.
pub const P: u32 = 2147483647;

/// A field element, always reduced modulo `P`.
#[derive(Clone, Copy, Debug, PartialEq, Eq, Structural)]
pub struct Fp {
    value: u32,
}

impl Fp {
    #[verifier::type_invariant]
    pub(crate) closed spec fn type_inv(self) -> bool {
        self.value < P
    }

    /// The residue this element stands for, as a mathematical integer.
    pub closed spec fn val(self) -> int {
        self.value as int
    }

    /// Element equality coincides with residue equality, for reduced values.
    pub proof fn lemma_eq_iff_val(a: Fp, b: Fp)
        requires
            0 <= a.val() < P as int,
            0 <= b.val() < P as int,
        ensures
            (a == b) <==> (a.val() == b.val()),
    {
    }

    /// The additive identity.
    pub fn zero() -> (r: Fp)
        ensures
            r.val() == 0,
    {
        Fp { value: 0 }
    }

    /// The multiplicative identity.
    pub fn one() -> (r: Fp)
        ensures
            r.val() == 1,
    {
        Fp { value: 1 }
    }

    /// Reduces an arbitrary 32-bit integer into the field.
    pub fn from_u32(x: u32) -> (r: Fp)
        ensures
            r.val() == (x as int) % (P as int),
    {
        Fp { value: x % P }
    }

    /// Reduces an arbitrary 64-bit integer into the field.
    pub fn from_u64(x: u64) -> (r: Fp)
        ensures
            r.val() == (x as int) % (P as int),
    {
        Fp { value: (x % (P as u64)) as u32 }
    }

    /// Field addition.
    pub fn add(self, other: Fp) -> (r: Fp)
        ensures
            r.val() == (self.val() + other.val()) % (P as int),
    {
        proof {
            use_type_invariant(self);
            use_type_invariant(other);
        }
        let s: u64 = self.value as u64 + other.value as u64;
        Fp { value: (s % (P as u64)) as u32 }
    }

    /// Field subtraction.
    pub fn sub(self, other: Fp) -> (r: Fp)
        ensures
            r.val() == (self.val() - other.val()) % (P as int),
    {
        proof {
            use_type_invariant(self);
            use_type_invariant(other);
            lemma_mod_multiples_vanish(1, self.val() - other.val(), P as int);
        }
        let s: u64 = self.value as u64 + P as u64 - other.value as u64;
        Fp { value: (s % (P as u64)) as u32 }
    }

    /// Field multiplication.
    pub fn mul(self, other: Fp) -> (r: Fp)
        ensures
            r.val() == (self.val() * other.val()) % (P as int),
    {
        proof {
            use_type_invariant(self);
            use_type_invariant(other);
            assert((self.value as u64) as int * ((other.value as u64) as int)
                < 0x4000_0000_0000_0000int)
                by (nonlinear_arith)
                requires
                    self.value < P,
                    other.value < P,
            ;
        }
        let s: u64 = self.value as u64 * other.value as u64;
        Fp { value: (s % (P as u64)) as u32 }
    }

    /// The reduced value, for callers outside the proof world.
    pub fn as_u32(self) -> (r: u32)
        ensures
            r as int == self.val(),
    {
        self.value
    }
}

/// An element that satisfies the type invariant holds a reduced residue.
/// Obtain the hypothesis with `use_type_invariant` on a held element.
pub(crate) proof fn lemma_inv(x: Fp)
    requires
        x.type_inv(),
    ensures
        0 <= x.val() < P as int,
        x.val() % (P as int) == x.val(),
{
    lemma_small_mod(x.val() as nat, P as nat);
}

/// The residue determines the element.
pub proof fn lemma_val_injective(a: Fp, b: Fp)
    requires
        a.val() == b.val(),
    ensures
        a == b,
{
}

/// Every element of the sequence holds a residue in `[0, P)`.
pub open spec fn all_reduced(s: Seq<Fp>) -> bool {
    forall|i: int| 0 <= i < s.len() ==> 0 <= (#[trigger] s[i]).val() < P as int
}

/// Walks a vector of field elements to make their type invariants, and with
/// them the bounds of their residues, available to the caller's proofs.
pub fn note_reduced(v: &Vec<Fp>)
    ensures
        all_reduced(v@),
{
    let mut i: usize = 0;
    while i < v.len()
        invariant
            i <= v@.len(),
            forall|j: int| 0 <= j < i ==> 0 <= (#[trigger] v@[j]).val() < P as int,
        decreases v@.len() - i,
    {
        let x = v[i];
        proof {
            use_type_invariant(x);
        }
        i = i + 1;
    }
}

/// Reduction distributes over addition: both summands may be pre-reduced.
pub proof fn lemma_addm(m: int, n: int)
    ensures
        ((m % (P as int)) + (n % (P as int))) % (P as int) == (m + n) % (P as int),
{
    lemma_add_mod_noop(m, n, P as int);
}

/// Reduction distributes over multiplication: both factors may be pre-reduced.
pub proof fn lemma_mulm(m: int, n: int)
    ensures
        ((m % (P as int)) * (n % (P as int))) % (P as int) == (m * n) % (P as int),
{
    lemma_mul_mod_noop(m, n, P as int);
}

/// Congruence of addition: reduced operands give the reduced sum.
pub proof fn cong_add(v1: int, s1: int, v2: int, s2: int)
    requires
        v1 == s1 % (P as int),
        v2 == s2 % (P as int),
    ensures
        (v1 + v2) % (P as int) == (s1 + s2) % (P as int),
{
    lemma_add_mod_noop(s1, s2, P as int);
}

/// Congruence of multiplication: reduced operands give the reduced product.
pub proof fn cong_mul(v1: int, s1: int, v2: int, s2: int)
    requires
        v1 == s1 % (P as int),
        v2 == s2 % (P as int),
    ensures
        (v1 * v2) % (P as int) == (s1 * s2) % (P as int),
{
    lemma_mul_mod_noop(s1, s2, P as int);
}

/// Congruent summands give congruent sums.
pub proof fn cong_sum(x: int, s1: int, y: int, s2: int)
    requires
        x % (P as int) == s1 % (P as int),
        y % (P as int) == s2 % (P as int),
    ensures
        (x + y) % (P as int) == (s1 + s2) % (P as int),
{
    lemma_add_mod_noop(x, y, P as int);
    lemma_add_mod_noop(s1, s2, P as int);
}

/// Congruent factors give congruent products.
pub proof fn cong_prod(x: int, s1: int, y: int, s2: int)
    requires
        x % (P as int) == s1 % (P as int),
        y % (P as int) == s2 % (P as int),
    ensures
        (x * y) % (P as int) == (s1 * s2) % (P as int),
{
    lemma_mul_mod_noop(x, y, P as int);
    lemma_mul_mod_noop(s1, s2, P as int);
}

/// A value already in `[0, P)` is its own reduction.
pub proof fn lemma_small(m: int)
    requires
        0 <= m < P as int,
    ensures
        m % (P as int) == m,
{
    lemma_small_mod(m as nat, P as nat);
}

} // verus!
