//! The round-by-round sumcheck engine. A claim about a sum of products of
//! multilinear tables over the Boolean hypercube is reduced one variable per
//! round: the prover sends the coefficients of the round polynomial, the
//! transcript answers with a challenge, and every table is folded by it.
//! Each polynomial is a product of at most two tables, so every round
//! message has three coefficients.

use vstd::prelude::*;
use vstd::arithmetic::power2::pow2;

use crate::field::{cong_add, cong_mul, lemma_small, Fp, P};
use crate::mle::{fp_vals, pow2_exec};
use crate::transcript::{tr_absorb_seq, tr_sample, Transcript};

verus! {

/// A sumcheck transcript: the claimed hypercube sum, the per-round
/// polynomial coefficients, and the per-round challenges.
#[derive(Debug, Clone, PartialEq)]
pub struct SumCheckProof {
    /// The claimed sum over the Boolean hypercube.
    pub claimed_sum: Fp,
    /// One coefficient vector per round, constant term first.
    pub round_polynomials: Vec<Vec<Fp>>,
    /// One challenge per round, as recorded by the prover.
    pub challenges: Vec<Fp>,
}

/// Constant coefficient of a single table's round polynomial: the sum of its
/// even entries over the first `k` pairs.
pub open spec fn lin_c0(a: Seq<int>, k: nat) -> int
    decreases k,
{
    if k == 0 {
        0
    } else {
        lin_c0(a, (k - 1) as nat) + a[2 * (k - 1)]
    }
}

/// Linear coefficient of a single table's round polynomial.
pub open spec fn lin_c1(a: Seq<int>, k: nat) -> int
    decreases k,
{
    if k == 0 {
        0
    } else {
        lin_c1(a, (k - 1) as nat) + (a[2 * (k - 1) + 1] - a[2 * (k - 1)])
    }
}

/// Constant coefficient of a pair's round polynomial.
pub open spec fn quad_c0(a: Seq<int>, b: Seq<int>, k: nat) -> int
    decreases k,
{
    if k == 0 {
        0
    } else {
        quad_c0(a, b, (k - 1) as nat) + a[2 * (k - 1)] * b[2 * (k - 1)]
    }
}

/// Linear coefficient of a pair's round polynomial.
pub open spec fn quad_c1(a: Seq<int>, b: Seq<int>, k: nat) -> int
    decreases k,
{
    if k == 0 {
        0
    } else {
        quad_c1(a, b, (k - 1) as nat) + a[2 * (k - 1)] * (b[2 * (k - 1) + 1] - b[2 * (k - 1)])
            + b[2 * (k - 1)] * (a[2 * (k - 1) + 1] - a[2 * (k - 1)])
    }
}

/// Quadratic coefficient of a pair's round polynomial.
pub open spec fn quad_c2(a: Seq<int>, b: Seq<int>, k: nat) -> int
    decreases k,
{
    if k == 0 {
        0
    } else {
        quad_c2(a, b, (k - 1) as nat) + (a[2 * (k - 1) + 1] - a[2 * (k - 1)]) * (b[2 * (k - 1)
            + 1] - b[2 * (k - 1)])
    }
}

/// One table folded by challenge `c`: each pair of entries is replaced by
/// its linear interpolation at `c`, reduced.
pub open spec fn fold_seq(t: Seq<int>, c: int) -> Seq<int> {
    Seq::new(t.len() / 2, |i: int| ((1 - c) * t[2 * i] + c * t[2 * i + 1]) % (P as int))
}

/// All tables of a collection folded by the same challenge.
pub open spec fn fold_all(ts: Seq<Seq<int>>, c: int) -> Seq<Seq<int>> {
    ts.map_values(|t: Seq<int>| fold_seq(t, c))
}

/// The views of a collection of tables.
pub open spec fn tables_vals(ts: Seq<Vec<Fp>>) -> Seq<Seq<int>> {
    ts.map_values(|t: Vec<Fp>| fp_vals(t@))
}

/// The three stored coefficients of a round message.
pub open spec fn msg_vals(m: Vec<Fp>) -> (int, int, int) {
    (m@[0].val(), m@[1].val(), m@[2].val())
}

/// The stored coefficients of a sequence of round messages.
pub open spec fn msgs_vals(ms: Seq<Vec<Fp>>) -> Seq<(int, int, int)> {
    ms.map_values(|m: Vec<Fp>| msg_vals(m))
}

/// Constant coefficient summed over the first `m` single tables.
pub open spec fn singles_c0(ss: Seq<Seq<int>>, h: nat, m: nat) -> int
    decreases m,
{
    if m == 0 {
        0
    } else {
        singles_c0(ss, h, (m - 1) as nat) + lin_c0(ss[m - 1], h)
    }
}

/// Linear coefficient summed over the first `m` single tables.
pub open spec fn singles_c1(ss: Seq<Seq<int>>, h: nat, m: nat) -> int
    decreases m,
{
    if m == 0 {
        0
    } else {
        singles_c1(ss, h, (m - 1) as nat) + lin_c1(ss[m - 1], h)
    }
}

/// Constant coefficient summed over the first `m` pairs.
pub open spec fn pairs_c0(pa: Seq<Seq<int>>, pb: Seq<Seq<int>>, h: nat, m: nat) -> int
    decreases m,
{
    if m == 0 {
        0
    } else {
        pairs_c0(pa, pb, h, (m - 1) as nat) + quad_c0(pa[m - 1], pb[m - 1], h)
    }
}

/// Linear coefficient summed over the first `m` pairs.
pub open spec fn pairs_c1(pa: Seq<Seq<int>>, pb: Seq<Seq<int>>, h: nat, m: nat) -> int
    decreases m,
{
    if m == 0 {
        0
    } else {
        pairs_c1(pa, pb, h, (m - 1) as nat) + quad_c1(pa[m - 1], pb[m - 1], h)
    }
}

/// Quadratic coefficient summed over the first `m` pairs.
pub open spec fn pairs_c2(pa: Seq<Seq<int>>, pb: Seq<Seq<int>>, h: nat, m: nat) -> int
    decreases m,
{
    if m == 0 {
        0
    } else {
        pairs_c2(pa, pb, h, (m - 1) as nat) + quad_c2(pa[m - 1], pb[m - 1], h)
    }
}

/// The exact constant coefficient of one round's merged message.
pub open spec fn round_c0(ss: Seq<Seq<int>>, pa: Seq<Seq<int>>, pb: Seq<Seq<int>>, h: nat) -> int {
    singles_c0(ss, h, ss.len()) + pairs_c0(pa, pb, h, pa.len())
}

/// The exact linear coefficient of one round's merged message.
pub open spec fn round_c1(ss: Seq<Seq<int>>, pa: Seq<Seq<int>>, pb: Seq<Seq<int>>, h: nat) -> int {
    singles_c1(ss, h, ss.len()) + pairs_c1(pa, pb, h, pa.len())
}

/// The exact quadratic coefficient of one round's merged message; single
/// tables are linear in the round variable and contribute nothing.
pub open spec fn round_c2(ss: Seq<Seq<int>>, pa: Seq<Seq<int>>, pb: Seq<Seq<int>>, h: nat) -> int {
    pairs_c2(pa, pb, h, pa.len())
}

/// The transcript state after absorbing one round's reduced coefficients.
pub open spec fn absorb_round(s: int, c0: int, c1: int, c2: int) -> int {
    tr_absorb_seq(s, seq![c0, c1, c2])
}

/// The reduced coefficient triples of the rounds the prover produces from
/// the given tables and transcript state.
pub open spec fn rounds_msgs(
    ss: Seq<Seq<int>>,
    pa: Seq<Seq<int>>,
    pb: Seq<Seq<int>>,
    s: int,
    h: nat,
    n: nat,
) -> Seq<(int, int, int)>
    decreases n,
{
    if n == 0 {
        Seq::empty()
    } else {
        let c0 = round_c0(ss, pa, pb, h) % (P as int);
        let c1 = round_c1(ss, pa, pb, h) % (P as int);
        let c2 = round_c2(ss, pa, pb, h) % (P as int);
        let s1 = absorb_round(s, c0, c1, c2);
        let ch = tr_sample(s1);
        seq![(c0, c1, c2)].add(
            rounds_msgs(
                fold_all(ss, ch),
                fold_all(pa, ch),
                fold_all(pb, ch),
                ch,
                h / 2,
                (n - 1) as nat,
            ),
        )
    }
}

/// The challenges of those rounds, in order.
pub open spec fn rounds_chals(
    ss: Seq<Seq<int>>,
    pa: Seq<Seq<int>>,
    pb: Seq<Seq<int>>,
    s: int,
    h: nat,
    n: nat,
) -> Seq<int>
    decreases n,
{
    if n == 0 {
        Seq::empty()
    } else {
        let c0 = round_c0(ss, pa, pb, h) % (P as int);
        let c1 = round_c1(ss, pa, pb, h) % (P as int);
        let c2 = round_c2(ss, pa, pb, h) % (P as int);
        let s1 = absorb_round(s, c0, c1, c2);
        let ch = tr_sample(s1);
        seq![ch].add(
            rounds_chals(
                fold_all(ss, ch),
                fold_all(pa, ch),
                fold_all(pb, ch),
                ch,
                h / 2,
                (n - 1) as nat,
            ),
        )
    }
}

/// The transcript state after those rounds.
pub open spec fn rounds_state(
    ss: Seq<Seq<int>>,
    pa: Seq<Seq<int>>,
    pb: Seq<Seq<int>>,
    s: int,
    h: nat,
    n: nat,
) -> int
    decreases n,
{
    if n == 0 {
        s
    } else {
        let c0 = round_c0(ss, pa, pb, h) % (P as int);
        let c1 = round_c1(ss, pa, pb, h) % (P as int);
        let c2 = round_c2(ss, pa, pb, h) % (P as int);
        let s1 = absorb_round(s, c0, c1, c2);
        let ch = tr_sample(s1);
        rounds_state(
            fold_all(ss, ch),
            fold_all(pa, ch),
            fold_all(pb, ch),
            ch,
            h / 2,
            (n - 1) as nat,
        )
    }
}

/// The round-coefficients of one single table, as a three-entry message.
fn lin_round_message(a: &Vec<Fp>) -> (r: Vec<Fp>)
    requires
        a@.len() % 2 == 0,
    ensures
        r@.len() == 3,
        r@[0].val() == lin_c0(fp_vals(a@), (a@.len() / 2) as nat) % (P as int),
        r@[1].val() == lin_c1(fp_vals(a@), (a@.len() / 2) as nat) % (P as int),
        r@[2].val() == 0,
{
    let ghost av = fp_vals(a@);
    let half = a.len() / 2;
    let mut c0 = Fp::zero();
    let mut c1 = Fp::zero();
    proof {
        lemma_small(0);
    }
    let mut i: usize = 0;
    while i < half
        invariant
            i <= half,
            2 * half == a@.len(),
            a@.len() <= usize::MAX,
            av == fp_vals(a@),
            c0.val() == lin_c0(av, i as nat) % (P as int),
            c1.val() == lin_c1(av, i as nat) % (P as int),
        decreases half - i,
    {
        let e = a[2 * i];
        let o = a[2 * i + 1];
        let diff = o.sub(e);
        proof {
            use_type_invariant(e);
            crate::field::lemma_inv(e);
            cong_add(c0.val(), lin_c0(av, i as nat), e.val(), av[2 * i as int]);
            cong_add(
                c1.val(),
                lin_c1(av, i as nat),
                diff.val(),
                av[2 * i as int + 1] - av[2 * i as int],
            );
        }
        c0 = c0.add(e);
        c1 = c1.add(diff);
        i = i + 1;
    }
    let mut r: Vec<Fp> = Vec::new();
    r.push(c0);
    r.push(c1);
    r.push(Fp::zero());
    r
}

/// The round-coefficients of one pair of tables, as a three-entry message.
fn quad_round_message(a: &Vec<Fp>, b: &Vec<Fp>) -> (r: Vec<Fp>)
    requires
        a@.len() % 2 == 0,
        a@.len() == b@.len(),
    ensures
        r@.len() == 3,
        r@[0].val() == quad_c0(fp_vals(a@), fp_vals(b@), (a@.len() / 2) as nat) % (P as int),
        r@[1].val() == quad_c1(fp_vals(a@), fp_vals(b@), (a@.len() / 2) as nat) % (P as int),
        r@[2].val() == quad_c2(fp_vals(a@), fp_vals(b@), (a@.len() / 2) as nat) % (P as int),
{
    let ghost av = fp_vals(a@);
    let ghost bv = fp_vals(b@);
    let half = a.len() / 2;
    let mut c0 = Fp::zero();
    let mut c1 = Fp::zero();
    let mut c2 = Fp::zero();
    proof {
        lemma_small(0);
    }
    let mut i: usize = 0;
    while i < half
        invariant
            i <= half,
            2 * half == a@.len(),
            a@.len() <= usize::MAX,
            a@.len() == b@.len(),
            av == fp_vals(a@),
            bv == fp_vals(b@),
            c0.val() == quad_c0(av, bv, i as nat) % (P as int),
            c1.val() == quad_c1(av, bv, i as nat) % (P as int),
            c2.val() == quad_c2(av, bv, i as nat) % (P as int),
        decreases half - i,
    {
        let ae = a[2 * i];
        let ao = a[2 * i + 1];
        let be = b[2 * i];
        let bo = b[2 * i + 1];
        let da = ao.sub(ae);
        let db = bo.sub(be);
        let t0 = ae.mul(be);
        let t1a = ae.mul(db);
        let t1b = be.mul(da);
        let t1 = t1a.add(t1b);
        let t2 = da.mul(db);
        proof {
            use_type_invariant(ae);
            use_type_invariant(be);
            crate::field::lemma_inv(ae);
            crate::field::lemma_inv(be);
            let dav = av[2 * i as int + 1] - av[2 * i as int];
            let dbv = bv[2 * i as int + 1] - bv[2 * i as int];
            cong_mul(ae.val(), av[2 * i as int], be.val(), bv[2 * i as int]);
            cong_add(
                c0.val(),
                quad_c0(av, bv, i as nat),
                t0.val(),
                av[2 * i as int] * bv[2 * i as int],
            );
            cong_mul(ae.val(), av[2 * i as int], db.val(), dbv);
            cong_mul(be.val(), bv[2 * i as int], da.val(), dav);
            cong_add(t1a.val(), av[2 * i as int] * dbv, t1b.val(), bv[2 * i as int] * dav);
            cong_add(
                c1.val(),
                quad_c1(av, bv, i as nat),
                t1.val(),
                av[2 * i as int] * dbv + bv[2 * i as int] * dav,
            );
            cong_mul(da.val(), dav, db.val(), dbv);
            cong_add(c2.val(), quad_c2(av, bv, i as nat), t2.val(), dav * dbv);
        }
        c0 = c0.add(t0);
        c1 = c1.add(t1);
        c2 = c2.add(t2);
        i = i + 1;
    }
    let mut r: Vec<Fp> = Vec::new();
    r.push(c0);
    r.push(c1);
    r.push(c2);
    r
}

/// Folds a table by a challenge: each pair becomes its linear interpolation
/// at the challenge.
fn fold_table(t: &Vec<Fp>, c: Fp) -> (r: Vec<Fp>)
    requires
        t@.len() % 2 == 0,
    ensures
        fp_vals(r@) == fold_seq(fp_vals(t@), c.val()),
        r@.len() == t@.len() / 2,
{
    let ghost tv = fp_vals(t@);
    let half = t.len() / 2;
    let mut r: Vec<Fp> = Vec::new();
    proof {
        use_type_invariant(c);
        crate::field::lemma_inv(c);
    }
    let mut i: usize = 0;
    while i < half
        invariant
            i <= half,
            2 * half == t@.len(),
            t@.len() <= usize::MAX,
            tv == fp_vals(t@),
            0 <= c.val() < P as int,
            c.val() % (P as int) == c.val(),
            r@.len() == i,
            forall|j: int| 0 <= j < i ==> (#[trigger] r@[j]).val() == fold_seq(tv, c.val())[j],
        decreases half - i,
    {
        let e = t[2 * i];
        let o = t[2 * i + 1];
        let diff = o.sub(e);
        let scaled = c.mul(diff);
        let folded = e.add(scaled);
        proof {
            use_type_invariant(e);
            crate::field::lemma_inv(e);
            let ev = tv[2 * i as int];
            let ov = tv[2 * i as int + 1];
            cong_mul(c.val(), c.val(), diff.val(), ov - ev);
            cong_add(e.val(), ev, scaled.val(), c.val() * (ov - ev));
            assert(ev + c.val() * (ov - ev) == (1 - c.val()) * ev + c.val() * ov)
                by (nonlinear_arith);
            assert(fold_seq(tv, c.val())[i as int] == ((1 - c.val()) * ev + c.val() * ov) % (
            P as int));
        }
        r.push(folded);
        i = i + 1;
    }
    proof {
        assert(fp_vals(r@) =~= fold_seq(tv, c.val()));
    }
    r
}

/// Runs the sumcheck rounds for a sum of single tables and of products of
/// table pairs, all of the common length `2^n_rounds`: each round sends the
/// merged coefficients to the transcript, samples one shared challenge, and
/// folds every table by it. Returns the round messages and the challenges.
pub(crate) fn prove_product_rounds(
    singles: Vec<Vec<Fp>>,
    pairs_a: Vec<Vec<Fp>>,
    pairs_b: Vec<Vec<Fp>>,
    n_rounds: usize,
    transcript: &mut Transcript,
) -> (r: (Vec<Vec<Fp>>, Vec<Fp>))
    requires
        n_rounds <= 30,
        pairs_a@.len() == pairs_b@.len(),
        forall|j: int|
            0 <= j < singles@.len() ==> (#[trigger] singles@[j])@.len() == pow2(n_rounds as nat),
        forall|j: int|
            0 <= j < pairs_a@.len() ==> (#[trigger] pairs_a@[j])@.len() == pow2(n_rounds as nat),
        forall|j: int|
            0 <= j < pairs_b@.len() ==> (#[trigger] pairs_b@[j])@.len() == pow2(n_rounds as nat),
    ensures
        r.0@.len() == n_rounds,
        r.1@.len() == n_rounds,
        forall|j: int| 0 <= j < n_rounds ==> (#[trigger] r.0@[j])@.len() == 3,
        msgs_vals(r.0@) == rounds_msgs(
            tables_vals(singles@),
            tables_vals(pairs_a@),
            tables_vals(pairs_b@),
            old(transcript).view_state(),
            (pow2(n_rounds as nat) / 2) as nat,
            n_rounds as nat,
        ),
        fp_vals(r.1@) == rounds_chals(
            tables_vals(singles@),
            tables_vals(pairs_a@),
            tables_vals(pairs_b@),
            old(transcript).view_state(),
            (pow2(n_rounds as nat) / 2) as nat,
            n_rounds as nat,
        ),
        final(transcript).view_state() == rounds_state(
            tables_vals(singles@),
            tables_vals(pairs_a@),
            tables_vals(pairs_b@),
            old(transcript).view_state(),
            (pow2(n_rounds as nat) / 2) as nat,
            n_rounds as nat,
        ),
{
    let ghost gss0 = tables_vals(singles@);
    let ghost gpa0 = tables_vals(pairs_a@);
    let ghost gpb0 = tables_vals(pairs_b@);
    let ghost s0 = transcript.view_state();
    let ghost h0 = (pow2(n_rounds as nat) / 2) as nat;
    let mut cur_singles = singles;
    let mut cur_pa = pairs_a;
    let mut cur_pb = pairs_b;
    let mut round_messages: Vec<Vec<Fp>> = Vec::new();
    let mut challenges: Vec<Fp> = Vec::new();
    let mut k: usize = 0;
    while k < n_rounds
        invariant
            k <= n_rounds <= 30,
            cur_pa@.len() == cur_pb@.len(),
            cur_pa@.len() == gpa0.len(),
            cur_pb@.len() == gpb0.len(),
            cur_singles@.len() == gss0.len(),
            forall|j: int|
                0 <= j < cur_singles@.len() ==> (#[trigger] cur_singles@[j])@.len() == pow2(
                    (n_rounds - k) as nat,
                ),
            forall|j: int|
                0 <= j < cur_pa@.len() ==> (#[trigger] cur_pa@[j])@.len() == pow2(
                    (n_rounds - k) as nat,
                ),
            forall|j: int|
                0 <= j < cur_pb@.len() ==> (#[trigger] cur_pb@[j])@.len() == pow2(
                    (n_rounds - k) as nat,
                ),
            round_messages@.len() == k,
            challenges@.len() == k,
            forall|j: int| 0 <= j < k ==> (#[trigger] round_messages@[j])@.len() == 3,
            msgs_vals(round_messages@).add(
                rounds_msgs(
                    tables_vals(cur_singles@),
                    tables_vals(cur_pa@),
                    tables_vals(cur_pb@),
                    transcript.view_state(),
                    (pow2((n_rounds - k) as nat) / 2) as nat,
                    (n_rounds - k) as nat,
                ),
            ) == rounds_msgs(gss0, gpa0, gpb0, s0, h0, n_rounds as nat),
            fp_vals(challenges@).add(
                rounds_chals(
                    tables_vals(cur_singles@),
                    tables_vals(cur_pa@),
                    tables_vals(cur_pb@),
                    transcript.view_state(),
                    (pow2((n_rounds - k) as nat) / 2) as nat,
                    (n_rounds - k) as nat,
                ),
            ) == rounds_chals(gss0, gpa0, gpb0, s0, h0, n_rounds as nat),
            rounds_state(
                tables_vals(cur_singles@),
                tables_vals(cur_pa@),
                tables_vals(cur_pb@),
                transcript.view_state(),
                (pow2((n_rounds - k) as nat) / 2) as nat,
                (n_rounds - k) as nat,
            ) == rounds_state(gss0, gpa0, gpb0, s0, h0, n_rounds as nat),
        decreases n_rounds - k,
    {
        let ghost gss = tables_vals(cur_singles@);
        let ghost gpa = tables_vals(cur_pa@);
        let ghost gpb = tables_vals(cur_pb@);
        let ghost spre = transcript.view_state();
        let ghost m = (n_rounds - k) as nat;
        let ghost h = (pow2(m) / 2) as nat;
        proof {
            assert(pow2(m) == 2 * pow2((m - 1) as nat)) by {
                vstd::arithmetic::power2::lemma_pow2_unfold(m);
            }
            assert(h == pow2((m - 1) as nat));
        }
        let len = pow2_exec(n_rounds - k);
        let half = len / 2;
        // merged round message over all tables
        let mut c0 = Fp::zero();
        let mut c1 = Fp::zero();
        let mut c2 = Fp::zero();
        proof {
            lemma_small(0);
        }
        let mut j: usize = 0;
        while j < cur_singles.len()
            invariant
                j <= cur_singles@.len(),
                gss == tables_vals(cur_singles@),
                forall|j2: int|
                    0 <= j2 < cur_singles@.len() ==> (#[trigger] cur_singles@[j2])@.len() == pow2(
                        m,
                    ),
                half == pow2(m) / 2,
                h == (pow2(m) / 2) as nat,
                m >= 1,
                c0.val() == singles_c0(gss, h, j as nat) % (P as int),
                c1.val() == singles_c1(gss, h, j as nat) % (P as int),
                c2.val() == 0,
            decreases cur_singles@.len() - j,
        {
            proof {
                assert(gss[j as int] == fp_vals(cur_singles@[j as int]@));
                assert(pow2(m) == 2 * pow2((m - 1) as nat)) by {
                    vstd::arithmetic::power2::lemma_pow2_unfold(m);
                }
            }
            let msg = lin_round_message(&cur_singles[j]);
            proof {
                cong_add(c0.val(), singles_c0(gss, h, j as nat), msg@[0].val(), lin_c0(gss[j as int], h));
                cong_add(c1.val(), singles_c1(gss, h, j as nat), msg@[1].val(), lin_c1(gss[j as int], h));
            }
            c0 = c0.add(msg[0]);
            c1 = c1.add(msg[1]);
            j = j + 1;
        }
        let mut j2: usize = 0;
        while j2 < cur_pa.len()
            invariant
                j2 <= cur_pa@.len(),
                cur_pa@.len() == cur_pb@.len(),
                gss == tables_vals(cur_singles@),
                gpa == tables_vals(cur_pa@),
                gpb == tables_vals(cur_pb@),
                forall|j3: int|
                    0 <= j3 < cur_pa@.len() ==> (#[trigger] cur_pa@[j3])@.len() == pow2(m),
                forall|j3: int|
                    0 <= j3 < cur_pb@.len() ==> (#[trigger] cur_pb@[j3])@.len() == pow2(m),
                half == pow2(m) / 2,
                h == (pow2(m) / 2) as nat,
                m >= 1,
                c0.val() == (singles_c0(gss, h, gss.len()) + pairs_c0(gpa, gpb, h, j2 as nat)) % (
                P as int),
                c1.val() == (singles_c1(gss, h, gss.len()) + pairs_c1(gpa, gpb, h, j2 as nat)) % (
                P as int),
                c2.val() == pairs_c2(gpa, gpb, h, j2 as nat) % (P as int),
            decreases cur_pa@.len() - j2,
        {
            proof {
                assert(gpa[j2 as int] == fp_vals(cur_pa@[j2 as int]@));
                assert(gpb[j2 as int] == fp_vals(cur_pb@[j2 as int]@));
                assert(pow2(m) == 2 * pow2((m - 1) as nat)) by {
                    vstd::arithmetic::power2::lemma_pow2_unfold(m);
                }
            }
            let msg = quad_round_message(&cur_pa[j2], &cur_pb[j2]);
            proof {
                cong_add(
                    c0.val(),
                    singles_c0(gss, h, gss.len()) + pairs_c0(gpa, gpb, h, j2 as nat),
                    msg@[0].val(),
                    quad_c0(gpa[j2 as int], gpb[j2 as int], h),
                );
                cong_add(
                    c1.val(),
                    singles_c1(gss, h, gss.len()) + pairs_c1(gpa, gpb, h, j2 as nat),
                    msg@[1].val(),
                    quad_c1(gpa[j2 as int], gpb[j2 as int], h),
                );
                cong_add(
                    c2.val(),
                    pairs_c2(gpa, gpb, h, j2 as nat),
                    msg@[2].val(),
                    quad_c2(gpa[j2 as int], gpb[j2 as int], h),
                );
            }
            c0 = c0.add(msg[0]);
            c1 = c1.add(msg[1]);
            c2 = c2.add(msg[2]);
            j2 = j2 + 1;
        }
        let mut message: Vec<Fp> = Vec::new();
        message.push(c0);
        message.push(c1);
        message.push(c2);
        transcript.observe(&message);
        let challenge = transcript.sample_challenge();
        proof {
            assert(fp_vals(message@) =~= seq![c0.val(), c1.val(), c2.val()]);
            assert(c0.val() == round_c0(gss, gpa, gpb, h) % (P as int));
            assert(c1.val() == round_c1(gss, gpa, gpb, h) % (P as int));
            assert(c2.val() == round_c2(gss, gpa, gpb, h) % (P as int));
        }
        // fold every table by the shared challenge
        let mut next_singles: Vec<Vec<Fp>> = Vec::new();
        let mut f: usize = 0;
        while f < cur_singles.len()
            invariant
                f <= cur_singles@.len(),
                gss == tables_vals(cur_singles@),
                forall|j3: int|
                    0 <= j3 < cur_singles@.len() ==> (#[trigger] cur_singles@[j3])@.len() == pow2(
                        m,
                    ),
                m >= 1,
                next_singles@.len() == f,
                forall|j3: int|
                    0 <= j3 < f ==> fp_vals((#[trigger] next_singles@[j3])@) == fold_seq(
                        gss[j3],
                        challenge.val(),
                    ) && next_singles@[j3]@.len() == pow2(m) / 2,
            decreases cur_singles@.len() - f,
        {
            proof {
                assert(pow2(m) == 2 * pow2((m - 1) as nat)) by {
                    vstd::arithmetic::power2::lemma_pow2_unfold(m);
                }
            }
            next_singles.push(fold_table(&cur_singles[f], challenge));
            f = f + 1;
        }
        let mut next_pa: Vec<Vec<Fp>> = Vec::new();
        let mut f2: usize = 0;
        while f2 < cur_pa.len()
            invariant
                f2 <= cur_pa@.len(),
                gpa == tables_vals(cur_pa@),
                forall|j3: int|
                    0 <= j3 < cur_pa@.len() ==> (#[trigger] cur_pa@[j3])@.len() == pow2(m),
                m >= 1,
                next_pa@.len() == f2,
                forall|j3: int|
                    0 <= j3 < f2 ==> fp_vals((#[trigger] next_pa@[j3])@) == fold_seq(
                        gpa[j3],
                        challenge.val(),
                    ) && next_pa@[j3]@.len() == pow2(m) / 2,
            decreases cur_pa@.len() - f2,
        {
            proof {
                assert(pow2(m) == 2 * pow2((m - 1) as nat)) by {
                    vstd::arithmetic::power2::lemma_pow2_unfold(m);
                }
            }
            next_pa.push(fold_table(&cur_pa[f2], challenge));
            f2 = f2 + 1;
        }
        let mut next_pb: Vec<Vec<Fp>> = Vec::new();
        let mut f3: usize = 0;
        while f3 < cur_pb.len()
            invariant
                f3 <= cur_pb@.len(),
                gpb == tables_vals(cur_pb@),
                forall|j3: int|
                    0 <= j3 < cur_pb@.len() ==> (#[trigger] cur_pb@[j3])@.len() == pow2(m),
                m >= 1,
                next_pb@.len() == f3,
                forall|j3: int|
                    0 <= j3 < f3 ==> fp_vals((#[trigger] next_pb@[j3])@) == fold_seq(
                        gpb[j3],
                        challenge.val(),
                    ) && next_pb@[j3]@.len() == pow2(m) / 2,
            decreases cur_pb@.len() - f3,
        {
            proof {
                assert(pow2(m) == 2 * pow2((m - 1) as nat)) by {
                    vstd::arithmetic::power2::lemma_pow2_unfold(m);
                }
            }
            next_pb.push(fold_table(&cur_pb[f3], challenge));
            f3 = f3 + 1;
        }
        proof {
            let c0v = round_c0(gss, gpa, gpb, h) % (P as int);
            let c1v = round_c1(gss, gpa, gpb, h) % (P as int);
            let c2v = round_c2(gss, gpa, gpb, h) % (P as int);
            let s1 = absorb_round(spre, c0v, c1v, c2v);
            let ch = tr_sample(s1);
            assert(challenge.val() == ch);
            assert(tables_vals(next_singles@) =~~= fold_all(gss, ch));
            assert(tables_vals(next_pa@) =~~= fold_all(gpa, ch));
            assert(tables_vals(next_pb@) =~~= fold_all(gpb, ch));
            assert(rounds_msgs(gss, gpa, gpb, spre, h, m) == seq![(c0v, c1v, c2v)].add(
                rounds_msgs(
                    fold_all(gss, ch),
                    fold_all(gpa, ch),
                    fold_all(gpb, ch),
                    ch,
                    h / 2,
                    (m - 1) as nat,
                ),
            ));
            assert(rounds_chals(gss, gpa, gpb, spre, h, m) == seq![ch].add(
                rounds_chals(
                    fold_all(gss, ch),
                    fold_all(gpa, ch),
                    fold_all(gpb, ch),
                    ch,
                    h / 2,
                    (m - 1) as nat,
                ),
            ));
            assert(pow2((m - 1) as nat) / 2 == h / 2) by {
                assert(pow2(m) == 2 * pow2((m - 1) as nat)) by {
                    vstd::arithmetic::power2::lemma_pow2_unfold(m);
                }
            }
            assert(msgs_vals(round_messages@.push(message)) =~= msgs_vals(round_messages@).push(
                (c0v, c1v, c2v),
            ));
            assert(fp_vals(challenges@.push(challenge)) =~= fp_vals(challenges@).push(ch));
            assert(msgs_vals(round_messages@).push((c0v, c1v, c2v)).add(
                rounds_msgs(
                    fold_all(gss, ch),
                    fold_all(gpa, ch),
                    fold_all(gpb, ch),
                    ch,
                    h / 2,
                    (m - 1) as nat,
                ),
            ) =~= msgs_vals(round_messages@).add(rounds_msgs(gss, gpa, gpb, spre, h, m)));
            assert(fp_vals(challenges@).push(ch).add(
                rounds_chals(
                    fold_all(gss, ch),
                    fold_all(gpa, ch),
                    fold_all(gpb, ch),
                    ch,
                    h / 2,
                    (m - 1) as nat,
                ),
            ) =~= fp_vals(challenges@).add(rounds_chals(gss, gpa, gpb, spre, h, m)));
        }
        round_messages.push(message);
        challenges.push(challenge);
        cur_singles = next_singles;
        cur_pa = next_pa;
        cur_pb = next_pb;
        k = k + 1;
    }
    proof {
        assert(rounds_msgs(
            tables_vals(cur_singles@),
            tables_vals(cur_pa@),
            tables_vals(cur_pb@),
            transcript.view_state(),
            (pow2(0) / 2) as nat,
            0,
        ) =~= Seq::<(int, int, int)>::empty());
        assert(msgs_vals(round_messages@).add(Seq::empty()) =~= msgs_vals(round_messages@));
        assert(rounds_chals(
            tables_vals(cur_singles@),
            tables_vals(cur_pa@),
            tables_vals(cur_pb@),
            transcript.view_state(),
            (pow2(0) / 2) as nat,
            0,
        ) =~= Seq::<int>::empty());
        assert(fp_vals(challenges@).add(Seq::<int>::empty()) =~= fp_vals(challenges@));
    }
    (round_messages, challenges)
}

/// The sum of the first `m` entries of a table.
pub open spec fn table_sum(a: Seq<int>, m: nat) -> int
    decreases m,
{
    if m == 0 {
        0
    } else {
        table_sum(a, (m - 1) as nat) + a[m - 1]
    }
}

/// The hypercube sum of the first `m` single tables.
pub open spec fn singles_total(ss: Seq<Seq<int>>, m: nat) -> int
    decreases m,
{
    if m == 0 {
        0
    } else {
        singles_total(ss, (m - 1) as nat) + table_sum(ss[m - 1], ss[m - 1].len())
    }
}

/// The hypercube sum of the first `m` product pairs.
pub open spec fn pairs_total(pa: Seq<Seq<int>>, pb: Seq<Seq<int>>, m: nat) -> int
    decreases m,
{
    if m == 0 {
        0
    } else {
        pairs_total(pa, pb, (m - 1) as nat) + crate::mle::dot_spec(
            pa[m - 1],
            pb[m - 1],
            pa[m - 1].len(),
        )
    }
}

/// The total hypercube sum the rounds reduce.
pub open spec fn round_total(ss: Seq<Seq<int>>, pa: Seq<Seq<int>>, pb: Seq<Seq<int>>) -> int {
    singles_total(ss, ss.len()) + pairs_total(pa, pb, pa.len())
}

/// One table folded exactly, before reduction.
pub open spec fn exact_fold(t: Seq<int>, c: int) -> Seq<int> {
    Seq::new(t.len() / 2, |i: int| (1 - c) * t[2 * i] + c * t[2 * i + 1])
}

/// Product of two linear interpolations, expanded in the challenge.
proof fn lemma_bilinear(a0: int, da: int, b0: int, db: int, c: int)
    ensures
        (a0 + c * da) * (b0 + c * db) == a0 * b0 + c * (a0 * db + b0 * da) + c * c * (da * db),
{
    let x = b0 + c * db;
    vstd::arithmetic::mul::lemma_mul_is_distributive_add_other_way(x, a0, c * da);
    vstd::arithmetic::mul::lemma_mul_is_distributive_add(a0, b0, c * db);
    vstd::arithmetic::mul::lemma_mul_is_distributive_add(c * da, b0, c * db);
    assert(a0 * (c * db) == c * (a0 * db)) by (nonlinear_arith);
    assert((c * da) * b0 == c * (b0 * da)) by (nonlinear_arith);
    assert((c * da) * (c * db) == c * c * (da * db)) by (nonlinear_arith);
    vstd::arithmetic::mul::lemma_mul_is_distributive_add(c, a0 * db, b0 * da);
}

/// A single table's round polynomial sums to the table at its ends.
proof fn lemma_lin_ends(a: Seq<int>, k: nat)
    requires
        2 * k <= a.len(),
    ensures
        2 * lin_c0(a, k) + lin_c1(a, k) == table_sum(a, 2 * k),
    decreases k,
{
    if k > 0 {
        lemma_lin_ends(a, (k - 1) as nat);
        assert(table_sum(a, (2 * k - 1) as nat) == table_sum(a, (2 * k - 2) as nat) + a[2 * k
            - 2]);
        assert(table_sum(a, 2 * k) == table_sum(a, (2 * k - 1) as nat) + a[2 * k - 1]);
        assert(2 * (k - 1) == 2 * k - 2);
    }
}

/// A pair's round polynomial sums to the pair's dot product at its ends.
proof fn lemma_quad_ends(a: Seq<int>, b: Seq<int>, k: nat)
    requires
        2 * k <= a.len(),
        a.len() == b.len(),
    ensures
        2 * quad_c0(a, b, k) + quad_c1(a, b, k) + quad_c2(a, b, k) == crate::mle::dot_spec(
            a,
            b,
            2 * k,
        ),
    decreases k,
{
    if k > 0 {
        lemma_quad_ends(a, b, (k - 1) as nat);
        let a0 = a[2 * (k - 1)];
        let a1 = a[2 * (k - 1) + 1];
        let b0 = b[2 * (k - 1)];
        let b1 = b[2 * (k - 1) + 1];
        assert(crate::mle::dot_spec(a, b, (2 * k - 1) as nat) == crate::mle::dot_spec(
            a,
            b,
            (2 * k - 2) as nat,
        ) + a0 * b0) by {
            assert(2 * (k - 1) == 2 * k - 2);
        }
        assert(crate::mle::dot_spec(a, b, 2 * k) == crate::mle::dot_spec(a, b, (2 * k - 1) as nat)
            + a1 * b1) by {
            assert(2 * (k - 1) + 1 == 2 * k - 1);
        }
        assert(2 * (a0 * b0) + (a0 * (b1 - b0) + b0 * (a1 - a0)) + (a1 - a0) * (b1 - b0) == a0 * b0
            + a1 * b1) by (nonlinear_arith);
    }
}

/// The whole merged round polynomial sums to the total at its ends.
proof fn lemma_round_ends(ss: Seq<Seq<int>>, pa: Seq<Seq<int>>, pb: Seq<Seq<int>>, h: nat, L: nat)
    requires
        pa.len() == pb.len(),
        L == 2 * h,
        forall|j: int| 0 <= j < ss.len() ==> (#[trigger] ss[j]).len() == L,
        forall|j: int| 0 <= j < pa.len() ==> (#[trigger] pa[j]).len() == L,
        forall|j: int| 0 <= j < pb.len() ==> (#[trigger] pb[j]).len() == L,
    ensures
        2 * round_c0(ss, pa, pb, h) + round_c1(ss, pa, pb, h) + round_c2(ss, pa, pb, h)
            == round_total(ss, pa, pb),
{
    lemma_singles_ends(ss, h, L, ss.len());
    lemma_pairs_ends(pa, pb, h, L, pa.len());
}

proof fn lemma_singles_ends(ss: Seq<Seq<int>>, h: nat, L: nat, m: nat)
    requires
        L == 2 * h,
        m <= ss.len(),
        forall|j: int| 0 <= j < ss.len() ==> (#[trigger] ss[j]).len() == L,
    ensures
        2 * singles_c0(ss, h, m) + singles_c1(ss, h, m) == singles_total(ss, m),
    decreases m,
{
    if m > 0 {
        lemma_singles_ends(ss, h, L, (m - 1) as nat);
        lemma_lin_ends(ss[m - 1], h);
    }
}

proof fn lemma_pairs_ends(pa: Seq<Seq<int>>, pb: Seq<Seq<int>>, h: nat, L: nat, m: nat)
    requires
        L == 2 * h,
        m <= pa.len(),
        pa.len() == pb.len(),
        forall|j: int| 0 <= j < pa.len() ==> (#[trigger] pa[j]).len() == L,
        forall|j: int| 0 <= j < pb.len() ==> (#[trigger] pb[j]).len() == L,
    ensures
        2 * pairs_c0(pa, pb, h, m) + pairs_c1(pa, pb, h, m) + pairs_c2(pa, pb, h, m)
            == pairs_total(pa, pb, m),
    decreases m,
{
    if m > 0 {
        lemma_pairs_ends(pa, pb, h, L, (m - 1) as nat);
        lemma_quad_ends(pa[m - 1], pb[m - 1], h);
    }
}

/// Sums agree modulo `P` when the entries agree modulo `P`.
proof fn lemma_sum_mod(ar: Seq<int>, a: Seq<int>, m: nat)
    requires
        forall|i: int| 0 <= i < m ==> #[trigger] ar[i] == a[i] % (P as int),
    ensures
        table_sum(ar, m) % (P as int) == table_sum(a, m) % (P as int),
    decreases m,
{
    if m > 0 {
        lemma_sum_mod(ar, a, (m - 1) as nat);
        crate::field::cong_add(
            table_sum(ar, (m - 1) as nat) % (P as int),
            table_sum(a, (m - 1) as nat),
            ar[m - 1],
            a[m - 1],
        );
        crate::field::lemma_addm(table_sum(ar, (m - 1) as nat), ar[m - 1]);
    }
}

/// Dot products agree modulo `P` when the entries agree modulo `P`.
proof fn lemma_dot_mod(ar: Seq<int>, a: Seq<int>, br: Seq<int>, b: Seq<int>, m: nat)
    requires
        forall|i: int| 0 <= i < m ==> #[trigger] ar[i] == a[i] % (P as int),
        forall|i: int| 0 <= i < m ==> #[trigger] br[i] == b[i] % (P as int),
    ensures
        crate::mle::dot_spec(ar, br, m) % (P as int) == crate::mle::dot_spec(a, b, m) % (P as int),
    decreases m,
{
    if m > 0 {
        lemma_dot_mod(ar, a, br, b, (m - 1) as nat);
        crate::field::lemma_mulm(a[m - 1], b[m - 1]);
        crate::field::cong_add(
            crate::mle::dot_spec(ar, br, (m - 1) as nat) % (P as int),
            crate::mle::dot_spec(a, b, (m - 1) as nat),
            ar[m - 1] * br[m - 1] % (P as int),
            a[m - 1] * b[m - 1],
        );
        crate::field::lemma_addm(
            crate::mle::dot_spec(ar, br, (m - 1) as nat),
            ar[m - 1] * br[m - 1],
        );
    }
}

/// A single table's round polynomial evaluated at the challenge is the
/// folded table's sum, exactly.
proof fn lemma_single_eval(a: Seq<int>, c: int, k: nat)
    requires
        2 * k <= a.len(),
    ensures
        lin_c0(a, k) + c * lin_c1(a, k) == table_sum(exact_fold(a, c), k),
    decreases k,
{
    if k > 0 {
        lemma_single_eval(a, c, (k - 1) as nat);
        assert(c * lin_c1(a, k) == c * lin_c1(a, (k - 1) as nat) + c * (a[2 * (k - 1) + 1] - a[2
            * (k - 1)])) by (nonlinear_arith)
            requires
                lin_c1(a, k) == lin_c1(a, (k - 1) as nat) + (a[2 * (k - 1) + 1] - a[2 * (k - 1)]),
        ;
        assert(exact_fold(a, c)[k - 1] == (1 - c) * a[2 * (k - 1)] + c * a[2 * (k - 1) + 1]);
        assert(a[2 * (k - 1)] + c * (a[2 * (k - 1) + 1] - a[2 * (k - 1)]) == (1 - c) * a[2 * (k
            - 1)] + c * a[2 * (k - 1) + 1]) by (nonlinear_arith);
    }
}

/// A pair's round polynomial evaluated at the challenge is the folded
/// pair's dot product, exactly.
proof fn lemma_pair_eval(a: Seq<int>, b: Seq<int>, c: int, k: nat)
    requires
        2 * k <= a.len(),
        a.len() == b.len(),
    ensures
        quad_c0(a, b, k) + c * quad_c1(a, b, k) + c * c * quad_c2(a, b, k) == crate::mle::dot_spec(
            exact_fold(a, c),
            exact_fold(b, c),
            k,
        ),
    decreases k,
{
    if k > 0 {
        lemma_pair_eval(a, b, c, (k - 1) as nat);
        let a0 = a[2 * (k - 1)];
        let a1 = a[2 * (k - 1) + 1];
        let b0 = b[2 * (k - 1)];
        let b1 = b[2 * (k - 1) + 1];
        assert(exact_fold(a, c)[k - 1] == (1 - c) * a0 + c * a1);
        assert(exact_fold(b, c)[k - 1] == (1 - c) * b0 + c * b1);
        lemma_bilinear(a0, a1 - a0, b0, b1 - b0, c);
        assert((1 - c) * a0 + c * a1 == a0 + c * (a1 - a0)) by (nonlinear_arith);
        assert((1 - c) * b0 + c * b1 == b0 + c * (b1 - b0)) by (nonlinear_arith);
        assert(c * quad_c1(a, b, k) == c * quad_c1(a, b, (k - 1) as nat) + c * (a0 * (b1 - b0) + b0
            * (a1 - a0))) by (nonlinear_arith)
            requires
                quad_c1(a, b, k) == quad_c1(a, b, (k - 1) as nat) + a0 * (b1 - b0) + b0 * (a1
                    - a0),
        ;
        assert(c * c * quad_c2(a, b, k) == c * c * quad_c2(a, b, (k - 1) as nat) + c * c * ((a1
            - a0) * (b1 - b0))) by (nonlinear_arith)
            requires
                quad_c2(a, b, k) == quad_c2(a, b, (k - 1) as nat) + (a1 - a0) * (b1 - b0),
        ;
    }
}

/// A folded single table sums, modulo `P`, to its round polynomial at the
/// challenge, summed over the first `m` tables.
proof fn lemma_singles_fold(ss: Seq<Seq<int>>, ch: int, h: nat, L: nat, m: nat)
    requires
        L == 2 * h,
        m <= ss.len(),
        forall|j: int| 0 <= j < ss.len() ==> (#[trigger] ss[j]).len() == L,
    ensures
        singles_total(fold_all(ss, ch), m) % (P as int) == (singles_c0(ss, h, m) + ch
            * singles_c1(ss, h, m)) % (P as int),
    decreases m,
{
    if m > 0 {
        lemma_singles_fold(ss, ch, h, L, (m - 1) as nat);
        let a = ss[m - 1];
        assert(fold_all(ss, ch)[m - 1] == fold_seq(a, ch));
        assert(fold_seq(a, ch).len() == h);
        lemma_sum_mod(fold_seq(a, ch), exact_fold(a, ch), h);
        lemma_single_eval(a, ch, h);
        crate::field::cong_sum(
            singles_total(fold_all(ss, ch), (m - 1) as nat),
            singles_c0(ss, h, (m - 1) as nat) + ch * singles_c1(ss, h, (m - 1) as nat),
            table_sum(fold_seq(a, ch), h),
            lin_c0(a, h) + ch * lin_c1(a, h),
        );
        assert(singles_c0(ss, h, m) + ch * singles_c1(ss, h, m) == (singles_c0(ss, h, (m - 1) as nat)
            + ch * singles_c1(ss, h, (m - 1) as nat)) + (lin_c0(a, h) + ch * lin_c1(a, h))) by {
            vstd::arithmetic::mul::lemma_mul_is_distributive_add(
                ch,
                singles_c1(ss, h, (m - 1) as nat),
                lin_c1(a, h),
            );
        }
    }
}

/// A folded pair's dot product is, modulo `P`, its round polynomial at the
/// challenge, summed over the first `m` pairs.
proof fn lemma_pairs_fold(pa: Seq<Seq<int>>, pb: Seq<Seq<int>>, ch: int, h: nat, L: nat, m: nat)
    requires
        L == 2 * h,
        m <= pa.len(),
        pa.len() == pb.len(),
        forall|j: int| 0 <= j < pa.len() ==> (#[trigger] pa[j]).len() == L,
        forall|j: int| 0 <= j < pb.len() ==> (#[trigger] pb[j]).len() == L,
    ensures
        pairs_total(fold_all(pa, ch), fold_all(pb, ch), m) % (P as int) == (pairs_c0(pa, pb, h, m)
            + ch * pairs_c1(pa, pb, h, m) + ch * ch * pairs_c2(pa, pb, h, m)) % (P as int),
    decreases m,
{
    if m > 0 {
        lemma_pairs_fold(pa, pb, ch, h, L, (m - 1) as nat);
        let a = pa[m - 1];
        let b = pb[m - 1];
        assert(fold_all(pa, ch)[m - 1] == fold_seq(a, ch));
        assert(fold_all(pb, ch)[m - 1] == fold_seq(b, ch));
        assert(fold_seq(a, ch).len() == h);
        lemma_dot_mod(fold_seq(a, ch), exact_fold(a, ch), fold_seq(b, ch), exact_fold(b, ch), h);
        lemma_pair_eval(a, b, ch, h);
        crate::field::cong_sum(
            pairs_total(fold_all(pa, ch), fold_all(pb, ch), (m - 1) as nat),
            pairs_c0(pa, pb, h, (m - 1) as nat) + ch * pairs_c1(pa, pb, h, (m - 1) as nat) + ch
                * ch * pairs_c2(pa, pb, h, (m - 1) as nat),
            crate::mle::dot_spec(fold_seq(a, ch), fold_seq(b, ch), h),
            quad_c0(a, b, h) + ch * quad_c1(a, b, h) + ch * ch * quad_c2(a, b, h),
        );
        assert(pairs_c0(pa, pb, h, m) + ch * pairs_c1(pa, pb, h, m) + ch * ch * pairs_c2(
            pa,
            pb,
            h,
            m,
        ) == (pairs_c0(pa, pb, h, (m - 1) as nat) + ch * pairs_c1(pa, pb, h, (m - 1) as nat) + ch
            * ch * pairs_c2(pa, pb, h, (m - 1) as nat)) + (quad_c0(a, b, h) + ch * quad_c1(a, b, h)
            + ch * ch * quad_c2(a, b, h))) by {
            vstd::arithmetic::mul::lemma_mul_is_distributive_add(
                ch,
                pairs_c1(pa, pb, h, (m - 1) as nat),
                quad_c1(a, b, h),
            );
            vstd::arithmetic::mul::lemma_mul_is_distributive_add(
                ch * ch,
                pairs_c2(pa, pb, h, (m - 1) as nat),
                quad_c2(a, b, h),
            );
        }
    }
}

/// The folded total is, modulo `P`, the merged round polynomial at the
/// challenge.
proof fn lemma_fold_total(
    ss: Seq<Seq<int>>,
    pa: Seq<Seq<int>>,
    pb: Seq<Seq<int>>,
    ch: int,
    h: nat,
    L: nat,
)
    requires
        L == 2 * h,
        pa.len() == pb.len(),
        forall|j: int| 0 <= j < ss.len() ==> (#[trigger] ss[j]).len() == L,
        forall|j: int| 0 <= j < pa.len() ==> (#[trigger] pa[j]).len() == L,
        forall|j: int| 0 <= j < pb.len() ==> (#[trigger] pb[j]).len() == L,
    ensures
        round_total(fold_all(ss, ch), fold_all(pa, ch), fold_all(pb, ch)) % (P as int) == (round_c0(
            ss,
            pa,
            pb,
            h,
        ) + ch * round_c1(ss, pa, pb, h) + ch * ch * round_c2(ss, pa, pb, h)) % (P as int),
{
    lemma_singles_fold(ss, ch, h, L, ss.len());
    lemma_pairs_fold(pa, pb, ch, h, L, pa.len());
    assert(fold_all(ss, ch).len() == ss.len());
    assert(fold_all(pa, ch).len() == pa.len());
    crate::field::cong_sum(
        singles_total(fold_all(ss, ch), ss.len()),
        singles_c0(ss, h, ss.len()) + ch * singles_c1(ss, h, ss.len()),
        pairs_total(fold_all(pa, ch), fold_all(pb, ch), pa.len()),
        pairs_c0(pa, pb, h, pa.len()) + ch * pairs_c1(pa, pb, h, pa.len()) + ch * ch * pairs_c2(
            pa,
            pb,
            h,
            pa.len(),
        ),
    );
    assert((singles_c0(ss, h, ss.len()) + ch * singles_c1(ss, h, ss.len())) + (pairs_c0(
        pa,
        pb,
        h,
        pa.len(),
    ) + ch * pairs_c1(pa, pb, h, pa.len()) + ch * ch * pairs_c2(pa, pb, h, pa.len())) == round_c0(
        ss,
        pa,
        pb,
        h,
    ) + ch * round_c1(ss, pa, pb, h) + ch * ch * round_c2(ss, pa, pb, h)) by {
        vstd::arithmetic::mul::lemma_mul_is_distributive_add(
            ch,
            singles_c1(ss, h, ss.len()),
            pairs_c1(pa, pb, h, pa.len()),
        );
    }
}

/// Honest rounds pass the replay: the transcripts `rounds_msgs` and
/// `rounds_chals` produce, started from a claim that equals the tables'
/// total hypercube sum, satisfy every end-sum and challenge check of
/// `verify_chain`.
pub proof fn lemma_rounds_pass(
    ss: Seq<Seq<int>>,
    pa: Seq<Seq<int>>,
    pb: Seq<Seq<int>>,
    s: int,
    h: nat,
    n: nat,
    claim: int,
)
    requires
        pa.len() == pb.len(),
        forall|j: int| 0 <= j < ss.len() ==> (#[trigger] ss[j]).len() == pow2(n),
        forall|j: int| 0 <= j < pa.len() ==> (#[trigger] pa[j]).len() == pow2(n),
        forall|j: int| 0 <= j < pb.len() ==> (#[trigger] pb[j]).len() == pow2(n),
        h == pow2(n) / 2,
        claim == round_total(ss, pa, pb) % (P as int),
    ensures
        verify_chain(
            rounds_msgs(ss, pa, pb, s, h, n),
            rounds_chals(ss, pa, pb, s, h, n),
            claim,
            s,
        ) is Some,
    decreases n,
{
    if n == 0 {
    } else {
        let ghost l = pow2(n);
        assert(pow2(n) == 2 * pow2((n - 1) as nat)) by {
            vstd::arithmetic::power2::lemma_pow2_unfold(n);
        }
        assert(h == pow2((n - 1) as nat));
        let c0e = round_c0(ss, pa, pb, h);
        let c1e = round_c1(ss, pa, pb, h);
        let c2e = round_c2(ss, pa, pb, h);
        let c0 = c0e % (P as int);
        let c1 = c1e % (P as int);
        let c2 = c2e % (P as int);
        lemma_round_ends(ss, pa, pb, h, l);
        assert((2 * c0 + c1 + c2) % (P as int) == claim) by {
            crate::field::cong_sum(c0, c0e, c0, c0e);
            crate::field::cong_sum(c0 + c0, c0e + c0e, c1, c1e);
            crate::field::cong_sum(c0 + c0 + c1, c0e + c0e + c1e, c2, c2e);
        }
        let s1 = absorb_round(s, c0, c1, c2);
        let ch = tr_sample(s1);
        let claim2 = (c0 + c1 * ch + c2 * ch * ch) % (P as int);
        let fss = fold_all(ss, ch);
        let fpa = fold_all(pa, ch);
        let fpb = fold_all(pb, ch);
        lemma_fold_total(ss, pa, pb, ch, h, l);
        assert(claim2 == round_total(fss, fpa, fpb) % (P as int)) by {
            crate::field::cong_prod(c1, c1e, ch, ch);
            crate::field::cong_prod(c2, c2e, ch, ch);
            crate::field::cong_prod(c2 * ch, c2e * ch, ch, ch);
            crate::field::cong_sum(c0, c0e, c1 * ch, c1e * ch);
            crate::field::cong_sum(c0 + c1 * ch, c0e + c1e * ch, c2 * ch * ch, c2e * ch * ch);
            assert(c2e * ch * ch == ch * ch * c2e) by (nonlinear_arith);
            assert(c1e * ch == ch * c1e) by (nonlinear_arith);
        }
        assert forall|j: int| 0 <= j < fss.len() implies (#[trigger] fss[j]).len() == pow2(
            (n - 1) as nat,
        ) by {
            assert(fss[j] == fold_seq(ss[j], ch));
        }
        assert forall|j: int| 0 <= j < fpa.len() implies (#[trigger] fpa[j]).len() == pow2(
            (n - 1) as nat,
        ) by {
            assert(fpa[j] == fold_seq(pa[j], ch));
        }
        assert forall|j: int| 0 <= j < fpb.len() implies (#[trigger] fpb[j]).len() == pow2(
            (n - 1) as nat,
        ) by {
            assert(fpb[j] == fold_seq(pb[j], ch));
        }
        lemma_rounds_pass(fss, fpa, fpb, ch, h / 2, (n - 1) as nat, claim2);
        assert(h / 2 == pow2((n - 1) as nat) / 2);
        let msgs = rounds_msgs(ss, pa, pb, s, h, n);
        let chals = rounds_chals(ss, pa, pb, s, h, n);
        assert(msgs[0] == (c0, c1, c2));
        assert(chals[0] == ch);
        assert(msgs.drop_first() =~= rounds_msgs(fss, fpa, fpb, ch, h / 2, (n - 1) as nat));
        assert(chals.drop_first() =~= rounds_chals(fss, fpa, fpb, ch, h / 2, (n - 1) as nat));
        assert(verify_chain(msgs, chals, claim, s) == verify_chain(
            msgs.drop_first(),
            chals.drop_first(),
            claim2,
            ch,
        ));
    }
}

/// One step of the verifier's round chain on stored coefficient triples:
/// `None` when the round polynomial's ends do not sum to the running claim
/// or the recorded challenge is not the transcript's, else the claim and
/// state carried into the next round.
pub open spec fn verify_chain(
    msgs: Seq<(int, int, int)>,
    chals: Seq<int>,
    claim: int,
    s: int,
) -> Option<(int, int)>
    decreases msgs.len(),
{
    if msgs.len() == 0 {
        Some((claim, s))
    } else {
        let c0 = msgs[0].0;
        let c1 = msgs[0].1;
        let c2 = msgs[0].2;
        if (2 * c0 + c1 + c2) % (P as int) != claim {
            None
        } else {
            let s1 = absorb_round(s, c0, c1, c2);
            let ch = tr_sample(s1);
            if ch != chals[0] {
                None
            } else {
                verify_chain(
                    msgs.drop_first(),
                    chals.drop_first(),
                    (c0 + c1 * ch + c2 * ch * ch) % (P as int),
                    ch,
                )
            }
        }
    }
}

/// Whether a proof has the shape the verifier accepts: as many recorded
/// challenges as rounds, and three coefficients per round.
pub open spec fn proof_shape_ok(proof: SumCheckProof) -> bool {
    &&& proof.round_polynomials@.len() == proof.challenges@.len()
    &&& forall|j: int|
        0 <= j < proof.round_polynomials@.len() ==> (#[trigger] proof.round_polynomials@[j])@.len()
            == 3
}

/// The verifier's verdict on a sumcheck transcript: the final claim and the
/// final transcript state, or `None` for a rejected proof.
pub open spec fn verify_rounds_spec(proof: SumCheckProof, s: int) -> Option<(int, int)> {
    if !proof_shape_ok(proof) {
        None
    } else {
        verify_chain(
            msgs_vals(proof.round_polynomials@),
            fp_vals(proof.challenges@),
            proof.claimed_sum.val(),
            s,
        )
    }
}

/// Replays a sumcheck transcript: checks each round polynomial's ends
/// against the running claim, re-derives each challenge and checks it
/// against the recorded one, and returns the final claim with the challenge
/// point, or `None` for a rejected proof.
#[verifier::rlimit(100)]
pub fn verify_rounds(proof: &SumCheckProof, transcript: &mut Transcript) -> (r: Option<
    (Fp, Vec<Fp>),
>)
    ensures
        r is Some <==> verify_rounds_spec(*proof, old(transcript).view_state()) is Some,
        r is Some ==> {
            let (claim, st) = verify_rounds_spec(*proof, old(transcript).view_state()).unwrap();
            &&& r.unwrap().0.val() == claim
            &&& final(transcript).view_state() == st
            &&& fp_vals(r.unwrap().1@) == fp_vals(proof.challenges@)
            &&& r.unwrap().1@.len() == proof.round_polynomials@.len()
        },
{
    let ghost s0 = transcript.view_state();
    let n = proof.round_polynomials.len();
    if proof.challenges.len() != n {
        return None;
    }
    let mut shape: usize = 0;
    while shape < n
        invariant
            shape <= n,
            n == proof.round_polynomials@.len(),
            forall|j2: int|
                0 <= j2 < shape ==> (#[trigger] proof.round_polynomials@[j2])@.len() == 3,
        decreases n - shape,
    {
        if proof.round_polynomials[shape].len() != 3 {
            proof {
                assert(!proof_shape_ok(*proof));
            }
            return None;
        }
        shape = shape + 1;
    }
    proof {
        assert(proof_shape_ok(*proof));
    }
    let mut claim = proof.claimed_sum;
    let mut challenges: Vec<Fp> = Vec::new();
    proof {
        use_type_invariant(claim);
        crate::field::lemma_inv(claim);
        assert(msgs_vals(proof.round_polynomials@).skip(0) =~= msgs_vals(
            proof.round_polynomials@,
        ));
        assert(fp_vals(proof.challenges@).skip(0) =~= fp_vals(proof.challenges@));
        assert(fp_vals(challenges@) =~= fp_vals(proof.challenges@).take(0));
    }
    let mut j: usize = 0;
    while j < n
        invariant
            j <= n,
            n == proof.round_polynomials@.len(),
            n == proof.challenges@.len(),
            proof_shape_ok(*proof),
            s0 == old(transcript).view_state(),
            0 <= claim.val() < P as int,
            challenges@.len() == j,
            fp_vals(challenges@) == fp_vals(proof.challenges@).take(j as int),
            verify_rounds_spec(*proof, s0) == verify_chain(
                msgs_vals(proof.round_polynomials@).skip(j as int),
                fp_vals(proof.challenges@).skip(j as int),
                claim.val(),
                transcript.view_state(),
            ),
        decreases n - j,
    {
        let ghost msgs_rest = msgs_vals(proof.round_polynomials@).skip(j as int);
        let ghost chals_rest = fp_vals(proof.challenges@).skip(j as int);
        let ghost spre = transcript.view_state();
        let round = &proof.round_polynomials[j];
        proof {
            assert(proof.round_polynomials@[j as int]@.len() == 3);
        }
        let c0 = round[0];
        let c1 = round[1];
        let c2 = round[2];
        let g1a = c0.add(c1);
        let g1 = g1a.add(c2);
        let ends = c0.add(g1);
        proof {
            use_type_invariant(c0);
            crate::field::lemma_inv(c0);
            assert(msgs_rest[0] == msg_vals(proof.round_polynomials@[j as int]));
            use_type_invariant(c1);
            crate::field::lemma_inv(c1);
            use_type_invariant(c2);
            crate::field::lemma_inv(c2);
            cong_add(c0.val(), c0.val(), c1.val(), c1.val());
            cong_add(g1a.val(), c0.val() + c1.val(), c2.val(), c2.val());
            cong_add(c0.val(), c0.val(), g1.val(), c0.val() + c1.val() + c2.val());
        }
        if !(ends == claim) {
            proof {
                Fp::lemma_eq_iff_val(ends, claim);
                assert((2 * c0.val() + c1.val() + c2.val()) % (P as int) != claim.val());
                assert(msgs_rest.len() > 0);
                assert(verify_chain(msgs_rest, chals_rest, claim.val(), spre) is None);
                assert(verify_rounds_spec(*proof, s0) is None);
            }
            return None;
        }
        let mut message: Vec<Fp> = Vec::new();
        message.push(c0);
        message.push(c1);
        message.push(c2);
        transcript.observe(&message);
        let challenge = transcript.sample_challenge();
        proof {
            assert(fp_vals(message@) =~= seq![c0.val(), c1.val(), c2.val()]);
        }
        let recorded = proof.challenges[j];
        if !(challenge == recorded) {
            proof {
                use_type_invariant(recorded);
                crate::field::lemma_inv(recorded);
                use_type_invariant(challenge);
                crate::field::lemma_inv(challenge);
                Fp::lemma_eq_iff_val(challenge, recorded);
                assert(chals_rest[0] == recorded.val());
                assert(verify_chain(msgs_rest, chals_rest, claim.val(), spre) is None);
                assert(verify_rounds_spec(*proof, s0) is None);
            }
            return None;
        }
        let e1 = c1.mul(challenge);
        let e2a = c2.mul(challenge);
        let e2 = e2a.mul(challenge);
        let sum1 = c0.add(e1);
        let next_claim = sum1.add(e2);
        proof {
            let chv = challenge.val();
            use_type_invariant(challenge);
            crate::field::lemma_inv(challenge);
            use_type_invariant(recorded);
            crate::field::lemma_inv(recorded);
            Fp::lemma_eq_iff_val(challenge, recorded);
            cong_mul(c1.val(), c1.val(), chv, chv);
            cong_mul(c2.val(), c2.val(), chv, chv);
            cong_mul(e2a.val(), c2.val() * chv, chv, chv);
            cong_add(c0.val(), c0.val(), e1.val(), c1.val() * chv);
            cong_add(sum1.val(), c0.val() + c1.val() * chv, e2.val(), c2.val() * chv * chv);
            assert(chals_rest[0] == challenge.val());
            assert(verify_chain(msgs_rest, chals_rest, claim.val(), spre) == verify_chain(
                msgs_rest.drop_first(),
                chals_rest.drop_first(),
                (c0.val() + c1.val() * chv + c2.val() * chv * chv) % (P as int),
                chv,
            ));
            assert(msgs_rest.drop_first() =~= msgs_vals(proof.round_polynomials@).skip(
                j as int + 1,
            ));
            assert(chals_rest.drop_first() =~= fp_vals(proof.challenges@).skip(j as int + 1));
            assert(fp_vals(challenges@.push(challenge)) =~= fp_vals(proof.challenges@).take(
                j as int + 1,
            ));
        }
        claim = next_claim;
        challenges.push(challenge);
        j = j + 1;
    }
    proof {
        assert(msgs_vals(proof.round_polynomials@).skip(n as int) =~= Seq::<(
            int,
            int,
            int,
        )>::empty());
        assert(fp_vals(proof.challenges@).skip(n as int) =~= Seq::<int>::empty());
        assert(fp_vals(proof.challenges@).take(n as int) =~= fp_vals(proof.challenges@));
    }
    Some((claim, challenges))
}

} // verus!

