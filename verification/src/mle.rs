//! Multilinear-extension primitives: equality tables over the Boolean
//! hypercube, dot products, zero-padding to a power-of-two length, and MLE
//! evaluation as the eq-weighted sum over the hypercube.
//!
//! Specification functions speak over exact integers; executable results are
//! their reductions modulo `P`. Hypercube indices are little-endian: variable
//! `k` of a point corresponds to bit `k` of the index.

use vstd::prelude::*;
use vstd::arithmetic::power2::{lemma_pow2_strictly_increases, pow2};

use crate::field::{lemma_addm, lemma_mulm, lemma_small, Fp, P};

verus! {

/// The residues of a sequence of field elements.
pub open spec fn fp_vals(s: Seq<Fp>) -> Seq<int> {
    s.map_values(|x: Fp| x.val())
}

/// A sequence of indices as mathematical integers.
pub open spec fn usize_vals(s: Seq<usize>) -> Seq<int> {
    s.map_values(|x: usize| x as int)
}

/// The factor a single point coordinate contributes to an eq weight:
/// `p` where the index bit is set, `1 - p` where it is clear.
pub open spec fn sel(p: int, bit: int) -> int {
    if bit == 1 {
        p
    } else {
        1 - p
    }
}

/// The Lagrange weight of hypercube vertex `t` at point `r`: the product of
/// `sel` factors over all coordinates, little-endian in `t`.
pub open spec fn eq_eval(r: Seq<int>, t: int) -> int
    decreases r.len(),
{
    if r.len() == 0 {
        1
    } else {
        sel(r[0], t % 2) * eq_eval(r.drop_first(), t / 2)
    }
}

/// The full table of eq weights of a point, indexed by hypercube vertex.
pub open spec fn eq_seq(r: Seq<int>) -> Seq<int> {
    Seq::new(pow2(r.len()), |t: int| eq_eval(r, t))
}

/// Sum of pairwise products of the first `k` entries.
pub open spec fn dot_spec(a: Seq<int>, b: Seq<int>, k: nat) -> int
    decreases k,
{
    if k == 0 {
        0
    } else {
        dot_spec(a, b, (k - 1) as nat) + a[k - 1] * b[k - 1]
    }
}

/// The multilinear extension of table `w` evaluated at point `r`: the
/// eq-weighted sum of `w` over the Boolean hypercube. `w` is read as a table
/// of length `2^|r|`.
pub open spec fn mle_spec(w: Seq<int>, r: Seq<int>) -> int {
    dot_spec(w, eq_seq(r), pow2(r.len()))
}

/// Number of variables of a table of length `l`: the least `n` with
/// `2^n >= l`.
pub open spec fn nv(l: nat) -> nat
    decreases l,
{
    if l <= 1 {
        0
    } else {
        1 + nv(((l + 1) / 2) as nat)
    }
}

/// `2^nv(l)` covers `l`.
pub proof fn lemma_nv_covers(l: nat)
    ensures
        pow2(nv(l)) >= l,
    decreases l,
{
    if l <= 1 {
        assert(pow2(0) == 1) by {
            vstd::arithmetic::power2::lemma2_to64();
        }
    } else {
        let c = ((l + 1) / 2) as nat;
        lemma_nv_covers(c);
        assert(pow2(nv(l)) == 2 * pow2(nv(c))) by {
            vstd::arithmetic::power2::lemma_pow2_unfold(nv(l));
        }
    }
}

/// `nv(l)` is the least exponent whose power of two covers `l`.
pub proof fn lemma_nv_least(l: nat, k: nat)
    requires
        pow2(k) >= l,
    ensures
        nv(l) <= k,
    decreases l,
{
    if l <= 1 {
    } else {
        let c = ((l + 1) / 2) as nat;
        assert(k >= 1) by {
            if k == 0 {
                assert(pow2(0) == 1) by {
            vstd::arithmetic::power2::lemma2_to64();
        }
            }
        }
        assert(pow2(k) == 2 * pow2((k - 1) as nat)) by {
            vstd::arithmetic::power2::lemma_pow2_unfold(k);
        }
        assert(pow2((k - 1) as nat) >= c);
        lemma_nv_least(c, (k - 1) as nat);
    }
}

/// Appending a coordinate multiplies the eq weight of the extended vertex by
/// the `sel` factor of the new coordinate.
pub proof fn lemma_eq_append(r: Seq<int>, p: int, t: int, b: int)
    requires
        0 <= t < pow2(r.len()),
        b == 0 || b == 1,
    ensures
        eq_eval(r.push(p), t + b * pow2(r.len())) == eq_eval(r, t) * sel(p, b),
    decreases r.len(),
{
    let n = r.len();
    if n == 0 {
        assert(pow2(0) == 1) by {
            vstd::arithmetic::power2::lemma2_to64();
        }
        let u = t + b * 1;
        assert(u == b);
        assert(r.push(p).drop_first() =~= r);
        assert(eq_eval(r.push(p), b) == sel(p, b % 2) * eq_eval(r, b / 2));
        assert(b % 2 == b && b / 2 == 0);
    } else {
        let u = t + b * pow2(n);
        assert(pow2(n) == 2 * pow2((n - 1) as nat)) by {
            vstd::arithmetic::power2::lemma_pow2_unfold(n);
        }
        assert(u % 2 == t % 2 && u / 2 == t / 2 + b * pow2((n - 1) as nat)) by {
            let h = pow2((n - 1) as nat) as int;
            assert(u == t + (b * h) * 2) by (nonlinear_arith)
                requires
                    u == t + b * (2 * h),
            ;
            assert((t + (b * h) * 2) % 2 == t % 2 && (t + (b * h) * 2) / 2 == t / 2 + b * h) by {
                vstd::arithmetic::div_mod::lemma_mod_multiples_vanish(b * h, t, 2);
                vstd::arithmetic::div_mod::lemma_hoist_over_denominator(t, b * h, 2nat);
            }
        }
        assert(r.push(p).drop_first() =~= r.drop_first().push(p));
        assert(0 <= t / 2 < pow2(r.drop_first().len()));
        lemma_eq_append(r.drop_first(), p, t / 2, b);
        assert(eq_eval(r.push(p), u) == sel(r[0], t % 2) * (eq_eval(r.drop_first(), t / 2) * sel(
            p,
            b,
        )));
        assert(sel(r[0], t % 2) * (eq_eval(r.drop_first(), t / 2) * sel(p, b)) == (sel(r[0], t % 2)
            * eq_eval(r.drop_first(), t / 2)) * sel(p, b)) by (nonlinear_arith);
    }
}

/// Number of variables needed for a table of length `len`.
pub fn num_vars(len: usize) -> (r: usize)
    requires
        1 <= len <= 0x4000_0000,
    ensures
        r == nv(len as nat),
        pow2(r as nat) >= len,
        r <= 30,
{
    let mut n: usize = 0;
    let mut m: usize = 1;
    proof {
        vstd::arithmetic::power2::lemma2_to64();
    }
    while m < len
        invariant
            1 <= m,
            m == pow2(n as nat),
            len <= 0x4000_0000,
            n == 0 || pow2((n - 1) as nat) < len,
            n <= 30,
        decreases 2 * len - m,
    {
        proof {
            if n >= 30 {
                assert(pow2(30) == 0x4000_0000) by {
                vstd::arithmetic::power2::lemma2_to64();
            }
            }
            assert(pow2((n + 1) as nat) == 2 * pow2(n as nat)) by {
                vstd::arithmetic::power2::lemma_pow2_unfold((n + 1) as nat);
            }
        }
        m = m * 2;
        n = n + 1;
    }
    proof {
        lemma_nv_least(len as nat, n as nat);
        if n > 0 {
            lemma_nv_covers(len as nat);
            if nv(len as nat) < n {
                if nv(len as nat) < (n - 1) as nat {
                    lemma_pow2_strictly_increases(nv(len as nat), (n - 1) as nat);
                }
                assert(pow2(nv(len as nat)) <= pow2((n - 1) as nat));
            }
        }
    }
    n
}

/// `2^n` as a machine integer.
pub fn pow2_exec(n: usize) -> (r: usize)
    requires
        n <= 30,
    ensures
        r == pow2(n as nat),
{
    let mut i: usize = 0;
    let mut m: usize = 1;
    proof {
        vstd::arithmetic::power2::lemma2_to64();
    }
    while i < n
        invariant
            i <= n <= 30,
            m == pow2(i as nat),
        decreases n - i,
    {
        proof {
            if i < 30 {
                lemma_pow2_strictly_increases(i as nat, 30);
            }
            assert(pow2(30) == 0x4000_0000) by {
                vstd::arithmetic::power2::lemma2_to64();
            }
            assert(pow2((i + 1) as nat) == 2 * pow2(i as nat)) by {
                vstd::arithmetic::power2::lemma_pow2_unfold((i + 1) as nat);
            }
        }
        m = m * 2;
        i = i + 1;
    }
    m
}

/// Copies a table and appends zeros up to `target` entries. This is the
/// explicit padding step at every MLE construction boundary.
pub fn pad_to(values: &Vec<Fp>, target: usize) -> (r: Vec<Fp>)
    requires
        values@.len() <= target,
    ensures
        r@.len() == target,
        forall|i: int| 0 <= i < values@.len() ==> r@[i] == values@[i],
        forall|i: int| values@.len() <= i < target ==> r@[i].val() == 0,
{
    let mut r: Vec<Fp> = Vec::new();
    let mut i: usize = 0;
    while i < values.len()
        invariant
            i <= values@.len() <= target,
            r@.len() == i,
            forall|j: int| 0 <= j < i ==> r@[j] == values@[j],
        decreases values@.len() - i,
    {
        r.push(values[i]);
        i = i + 1;
    }
    while r.len() < target
        invariant
            values@.len() <= r@.len() <= target,
            forall|j: int| 0 <= j < values@.len() ==> r@[j] == values@[j],
            forall|j: int| values@.len() <= j < r@.len() ==> r@[j].val() == 0,
        decreases target - r@.len(),
    {
        r.push(Fp::zero());
    }
    r
}

/// Copies the entries of `v` with indices in `[from, to)`.
pub fn copy_range(v: &Vec<Fp>, from: usize, to: usize) -> (r: Vec<Fp>)
    requires
        from <= to <= v@.len(),
    ensures
        r@ == v@.subrange(from as int, to as int),
{
    let mut r: Vec<Fp> = Vec::new();
    let mut i: usize = from;
    while i < to
        invariant
            from <= i <= to <= v@.len(),
            r@ == v@.subrange(from as int, i as int),
        decreases to - i,
    {
        r.push(v[i]);
        proof {
            assert(v@.subrange(from as int, i as int).push(v@[i as int]) =~= v@.subrange(
                from as int,
                i as int + 1,
            ));
        }
        i = i + 1;
    }
    r
}

/// Copies a vector of indices.
pub fn copy_usizes(v: &Vec<usize>) -> (r: Vec<usize>)
    ensures
        r@ == v@,
{
    let mut r: Vec<usize> = Vec::new();
    let mut i: usize = 0;
    while i < v.len()
        invariant
            i <= v@.len(),
            r@ == v@.take(i as int),
        decreases v@.len() - i,
    {
        r.push(v[i]);
        proof {
            assert(v@.take(i as int).push(v@[i as int]) =~= v@.take(i as int + 1));
        }
        i = i + 1;
    }
    proof {
        assert(v@.take(v@.len() as int) =~= v@);
    }
    r
}

/// The table of eq weights of `point` over the whole hypercube, reduced.
pub fn generate_eq(point: &Vec<Fp>) -> (r: Vec<Fp>)
    requires
        point@.len() <= 30,
    ensures
        r@.len() == pow2(point@.len()),
        forall|t: int|
            0 <= t < r@.len() ==> r@[t].val() == eq_eval(fp_vals(point@), t) % (P as int),
{
    let ghost rv = fp_vals(point@);
    let mut table: Vec<Fp> = Vec::new();
    table.push(Fp::one());
    proof {
        assert(pow2(0) == 1) by {
            vstd::arithmetic::power2::lemma2_to64();
        }
        assert(rv.take(0) =~= Seq::<int>::empty());
        assert(eq_eval(rv.take(0), 0) == 1);
        assert(1int % (P as int) == 1) by {
            lemma_small(1);
        }
    }
    let mut k: usize = 0;
    while k < point.len()
        invariant
            k <= point@.len() <= 30,
            rv == fp_vals(point@),
            rv.len() == point@.len(),
            table@.len() == pow2(k as nat),
            forall|t: int|
                0 <= t < table@.len() ==> #[trigger] table@[t].val() == eq_eval(rv.take(k as int), t)
                    % (P as int),
        decreases point@.len() - k,
    {
        let p = point[k];
        proof {
            use_type_invariant(p);
            crate::field::lemma_inv(p);
            assert(rv[k as int] == p.val());
            if (k as nat) < 30 {
                lemma_pow2_strictly_increases(k as nat, 30);
            }
            assert(pow2(30) == 0x4000_0000) by {
                vstd::arithmetic::power2::lemma2_to64();
            }
        }
        let one_minus_p = Fp::one().sub(p);
        let half = table.len();
        let mut next: Vec<Fp> = Vec::new();
        let mut t: usize = 0;
        while t < half
            invariant
                half == table@.len(),
                t <= half,
                next@.len() == t,
                one_minus_p.val() == (1 - p.val()) % (P as int),
                forall|j: int|
                    0 <= j < t ==> #[trigger] next@[j].val() == (eq_eval(rv.take(k as int), j) * (1
                        - p.val())) % (P as int),
                forall|j: int|
                    0 <= j < table@.len() ==> #[trigger] table@[j].val() == eq_eval(
                        rv.take(k as int),
                        j,
                    ) % (P as int),
            decreases half - t,
        {
            let e = table[t].mul(one_minus_p);
            proof {
                lemma_mulm(eq_eval(rv.take(k as int), t as int), 1 - p.val());
            }
            next.push(e);
            t = t + 1;
        }
        let mut t2: usize = 0;
        while t2 < half
            invariant
                half == table@.len(),
                t2 <= half,
                0 <= p.val() < P as int,
                next@.len() == half + t2,
                forall|j: int|
                    0 <= j < half ==> #[trigger] next@[j].val() == (eq_eval(rv.take(k as int), j) * (
                    1 - p.val())) % (P as int),
                forall|j: int|
                    half <= j < half + t2 ==> #[trigger] next@[j].val() == (eq_eval(
                        rv.take(k as int),
                        j - half,
                    ) * p.val()) % (P as int),
                forall|j: int|
                    0 <= j < table@.len() ==> #[trigger] table@[j].val() == eq_eval(
                        rv.take(k as int),
                        j,
                    ) % (P as int),
            decreases half - t2,
        {
            let e = table[t2].mul(p);
            proof {
                lemma_small(p.val());
                lemma_mulm(eq_eval(rv.take(k as int), t2 as int), p.val());
            }
            next.push(e);
            t2 = t2 + 1;
        }
        proof {
            let prefix = rv.take(k as int);
            let ext = rv.take(k as int + 1);
            assert(ext =~= prefix.push(rv[k as int]));
            let h = pow2(k as nat) as int;
            assert(pow2((k + 1) as nat) == 2 * pow2(k as nat)) by {
                vstd::arithmetic::power2::lemma_pow2_unfold((k + 1) as nat);
            }
            assert forall|j: int| 0 <= j < 2 * h implies #[trigger] next@[j].val() == eq_eval(
                ext,
                j,
            ) % (P as int) by {
                if j < h {
                    lemma_eq_append(prefix, rv[k as int], j, 0);
                    assert(eq_eval(ext, j) == eq_eval(prefix, j) * (1 - rv[k as int]));
                } else {
                    lemma_eq_append(prefix, rv[k as int], j - h, 1);
                    assert(eq_eval(ext, j) == eq_eval(prefix, j - h) * rv[k as int]);
                }
            }
        }
        table = next;
        k = k + 1;
    }
    proof {
        assert(rv.take(point@.len() as int) =~= rv);
    }
    table
}

/// Sum of pairwise products of two equal-length tables; the hypercube sum of
/// the product of their multilinear extensions.
pub fn dot_product(a: &Vec<Fp>, b: &Vec<Fp>) -> (r: Fp)
    requires
        a@.len() == b@.len(),
    ensures
        r.val() == dot_spec(fp_vals(a@), fp_vals(b@), a@.len()) % (P as int),
{
    let ghost av = fp_vals(a@);
    let ghost bv = fp_vals(b@);
    let mut acc = Fp::zero();
    proof {
        lemma_small(0);
    }
    let mut i: usize = 0;
    while i < a.len()
        invariant
            a@.len() == b@.len(),
            i <= a@.len(),
            av == fp_vals(a@),
            bv == fp_vals(b@),
            acc.val() == dot_spec(av, bv, i as nat) % (P as int),
        decreases a@.len() - i,
    {
        let x = a[i];
        let y = b[i];
        proof {
            use_type_invariant(x);
            use_type_invariant(y);
            crate::field::lemma_inv(x);
            crate::field::lemma_inv(y);
            lemma_mulm(x.val(), y.val());
            lemma_addm(dot_spec(av, bv, i as nat), av[i as int] * bv[i as int]);
        }
        acc = acc.add(x.mul(y));
        i = i + 1;
    }
    acc
}

/// Evaluates the multilinear extension of `table` at `point` by the
/// eq-weighted hypercube sum.
pub fn mle_evaluate(table: &Vec<Fp>, point: &Vec<Fp>) -> (r: Fp)
    requires
        point@.len() <= 30,
        table@.len() == pow2(point@.len()),
    ensures
        r.val() == mle_spec(fp_vals(table@), fp_vals(point@)) % (P as int),
{
    let ghost wv = fp_vals(table@);
    let ghost rv = fp_vals(point@);
    let eq = generate_eq(point);
    let mut acc = Fp::zero();
    proof {
        lemma_small(0);
    }
    let mut i: usize = 0;
    while i < table.len()
        invariant
            wv == fp_vals(table@),
            rv == fp_vals(point@),
            eq@.len() == pow2(point@.len()) == table@.len(),
            i <= table@.len(),
            forall|t: int|
                0 <= t < eq@.len() ==> #[trigger] eq@[t].val() == eq_eval(rv, t) % (P as int),
            acc.val() == dot_spec(wv, eq_seq(rv), i as nat) % (P as int),
        decreases table@.len() - i,
    {
        let x = table[i];
        let y = eq[i];
        proof {
            use_type_invariant(x);
            crate::field::lemma_inv(x);
            lemma_mulm(x.val(), eq_eval(rv, i as int));
            assert(eq_seq(rv)[i as int] == eq_eval(rv, i as int));
            lemma_addm(dot_spec(wv, eq_seq(rv), i as nat), wv[i as int] * eq_seq(rv)[i as int]);
        }
        acc = acc.add(x.mul(y));
        i = i + 1;
    }
    acc
}

} // verus!
