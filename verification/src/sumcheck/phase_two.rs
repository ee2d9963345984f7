//! Phase two of the layer reduction: with the adjacent variables fixed to
//! the phase-one challenges, each distance bucket's far variables are summed
//! out independently. Buckets of lower dimensionality are padded to the
//! widest bucket — the padding multiplies each polynomial by the product of
//! its trailing variables, which leaves hypercube sums unchanged — and all
//! buckets advance one shared round at a time.

use vstd::prelude::*;
use vstd::arithmetic::power2::pow2;

use crate::engine::{
    prove_product_rounds, rounds_chals, rounds_msgs, rounds_state, tables_vals, SumCheckProof,
};
use crate::field::{cong_add, cong_mul, lemma_small, Fp, P};
use crate::mle::{fp_vals, mle_spec, pad_to, pow2_exec};
use crate::sumcheck::phase_one::{reduce_pad, with_subset_wf};
use crate::transcript::Transcript;
use crate::util::{
    bucket_n_vars, buckets_view, bucket_n_vars_exec, n_vars_spec, pad_vals,
    LayerProvingInfoWithSubset,
};

verus! {

/// Contribution to entry `y` of a bucket's `c`-indexed table from its first
/// `j` sparse entries: each adds its gate's eq weight times the `b` point's
/// eq weight times the constant.
pub open spec fn bk2_bucket(
    entries: Seq<(int, int, int)>,
    igzv: Seq<int>,
    iuxv: Seq<int>,
    k: int,
    y: int,
    j: nat,
) -> int
    decreases j,
{
    if j == 0 {
        0
    } else {
        bk2_bucket(entries, igzv, iuxv, k, y, (j - 1) as nat) + if entries[j - 1].2 == y {
            igzv[entries[j - 1].0] * iuxv[entries[j - 1].1] * k
        } else {
            0int
        }
    }
}

/// One bucket's `c`-indexed table.
pub open spec fn bk2_table(
    entries: Seq<(int, int, int)>,
    igzv: Seq<int>,
    iuxv: Seq<int>,
    k: int,
    len: nat,
) -> Seq<int> {
    Seq::new(len, |y: int| bk2_bucket(entries, igzv, iuxv, k, y, entries.len()))
}

/// A table placed in the top block of a longer table of zeros: the padding
/// variables multiply the polynomial, so only the vertices with all padding
/// bits set carry the original values.
pub open spec fn top_pad(s: Seq<int>, target: nat) -> Seq<int> {
    Seq::new(
        target,
        |i: int|
            if i >= target - s.len() {
                s[i - (target - s.len())]
            } else {
                0
            },
    )
}

/// A table replicated through a longer table: the polynomial is constant in
/// the padding variables.
pub open spec fn rep_pad(s: Seq<int>, target: nat) -> Seq<int> {
    Seq::new(target, |i: int| s[i % (s.len() as int)])
}

/// The widest bucket's variable count among the first `d` subsets.
pub open spec fn max_bucket_nv(subs: Seq<Seq<int>>, d: nat) -> nat
    decreases d,
{
    if d == 0 {
        0
    } else {
        let prev = max_bucket_nv(subs, (d - 1) as nat);
        let cur = bucket_n_vars(subs[d - 1].len());
        if cur > prev {
            cur
        } else {
            prev
        }
    }
}

/// The number of phase-two rounds: the widest bucket's variable count.
pub open spec fn phase_two_n(subs: Seq<Seq<int>>) -> nat {
    max_bucket_nv(subs, subs.len())
}

/// The constant both additive-constant and multiplicative tables carry: the
/// adjacent subset's padded extension evaluated at the phase-one challenges.
pub open spec fn p2_constant(subs: Seq<Seq<int>>, uv: Seq<int>) -> int {
    mle_spec(pad_vals(subs[0], pow2(uv.len())), uv) % (P as int)
}

/// Bucket `d`'s additive-constant table, reduced and padded for the engine.
pub open spec fn p2_single(
    adds: Seq<Seq<(int, int, int)>>,
    subs: Seq<Seq<int>>,
    igzv: Seq<int>,
    iuxv: Seq<int>,
    k: int,
    d: int,
) -> Seq<int> {
    let len = subs[d].len();
    top_pad(
        reduce_pad(bk2_table(adds[d], igzv, iuxv, k, len), pow2(bucket_n_vars(len))),
        pow2(phase_two_n(subs)),
    )
}

/// Bucket `d`'s additive-identity table, reduced and padded for the engine.
pub open spec fn p2_add_pair(
    adds: Seq<Seq<(int, int, int)>>,
    subs: Seq<Seq<int>>,
    igzv: Seq<int>,
    iuxv: Seq<int>,
    d: int,
) -> Seq<int> {
    let len = subs[d].len();
    top_pad(
        reduce_pad(bk2_table(adds[d], igzv, iuxv, 1, len), pow2(bucket_n_vars(len))),
        pow2(phase_two_n(subs)),
    )
}

/// Bucket `d`'s multiplicative table, reduced and padded for the engine.
pub open spec fn p2_mul_pair(
    muls: Seq<Seq<(int, int, int)>>,
    subs: Seq<Seq<int>>,
    igzv: Seq<int>,
    iuxv: Seq<int>,
    k: int,
    d: int,
) -> Seq<int> {
    let len = subs[d].len();
    top_pad(
        reduce_pad(bk2_table(muls[d], igzv, iuxv, k, len), pow2(bucket_n_vars(len))),
        pow2(phase_two_n(subs)),
    )
}

/// Bucket `d`'s subset vector, zero-padded to its own width and replicated
/// for the engine.
pub open spec fn p2_subset(subs: Seq<Seq<int>>, d: int) -> Seq<int> {
    let len = subs[d].len();
    rep_pad(reduce_pad(subs[d], pow2(bucket_n_vars(len))), pow2(phase_two_n(subs)))
}

/// The single tables handed to the engine: one additive-constant table per
/// distance bucket.
pub open spec fn phase_two_singles(
    adds: Seq<Seq<(int, int, int)>>,
    subs: Seq<Seq<int>>,
    igzv: Seq<int>,
    uv: Seq<int>,
) -> Seq<Seq<int>> {
    let iuxv = crate::mle::eq_seq(uv).map_values(|v: int| v % (P as int));
    let k = p2_constant(subs, uv);
    Seq::new(subs.len(), |d: int| p2_single(adds, subs, igzv, iuxv, k, d))
}

/// The bookkeeping factors of the engine's pairs: the additive-identity
/// tables, then the multiplicative tables.
pub open spec fn phase_two_pairs_a(
    adds: Seq<Seq<(int, int, int)>>,
    muls: Seq<Seq<(int, int, int)>>,
    subs: Seq<Seq<int>>,
    igzv: Seq<int>,
    uv: Seq<int>,
) -> Seq<Seq<int>> {
    let iuxv = crate::mle::eq_seq(uv).map_values(|v: int| v % (P as int));
    let k = p2_constant(subs, uv);
    let d_count = subs.len();
    Seq::new(d_count, |d: int| p2_add_pair(adds, subs, igzv, iuxv, d)).add(
        Seq::new(d_count, |d: int| p2_mul_pair(muls, subs, igzv, iuxv, k, d)),
    )
}

/// The subset factors of the engine's pairs, one per pair.
pub open spec fn phase_two_pairs_b(subs: Seq<Seq<int>>) -> Seq<Seq<int>> {
    let d_count = subs.len();
    Seq::new(d_count, |d: int| p2_subset(subs, d)).add(
        Seq::new(d_count, |d: int| p2_subset(subs, d)),
    )
}

/// The messages phase two appends to the proof.
pub open spec fn phase_two_msgs(
    adds: Seq<Seq<(int, int, int)>>,
    muls: Seq<Seq<(int, int, int)>>,
    subs: Seq<Seq<int>>,
    igzv: Seq<int>,
    uv: Seq<int>,
    s: int,
) -> Seq<(int, int, int)> {
    rounds_msgs(
        phase_two_singles(adds, subs, igzv, uv),
        phase_two_pairs_a(adds, muls, subs, igzv, uv),
        phase_two_pairs_b(subs),
        s,
        (pow2(phase_two_n(subs)) / 2) as nat,
        phase_two_n(subs),
    )
}

/// The challenges phase two samples.
pub open spec fn phase_two_chals(
    adds: Seq<Seq<(int, int, int)>>,
    muls: Seq<Seq<(int, int, int)>>,
    subs: Seq<Seq<int>>,
    igzv: Seq<int>,
    uv: Seq<int>,
    s: int,
) -> Seq<int> {
    rounds_chals(
        phase_two_singles(adds, subs, igzv, uv),
        phase_two_pairs_a(adds, muls, subs, igzv, uv),
        phase_two_pairs_b(subs),
        s,
        (pow2(phase_two_n(subs)) / 2) as nat,
        phase_two_n(subs),
    )
}

/// The transcript state after phase two.
pub open spec fn phase_two_state(
    adds: Seq<Seq<(int, int, int)>>,
    muls: Seq<Seq<(int, int, int)>>,
    subs: Seq<Seq<int>>,
    igzv: Seq<int>,
    uv: Seq<int>,
    s: int,
) -> int {
    rounds_state(
        phase_two_singles(adds, subs, igzv, uv),
        phase_two_pairs_a(adds, muls, subs, igzv, uv),
        phase_two_pairs_b(subs),
        s,
        (pow2(phase_two_n(subs)) / 2) as nat,
        phase_two_n(subs),
    )
}

/// Sum of the stored coefficients at position `i` over the first `m`
/// messages.
pub open spec fn msg_sum(msgs: Seq<Vec<Fp>>, i: int, m: nat) -> int
    decreases m,
{
    if m == 0 {
        0
    } else {
        msg_sum(msgs, i, (m - 1) as nat) + msgs[m - 1]@[i].val()
    }
}

/// Sums equally long round messages coordinate-wise.
pub fn merge_round_messages(round_messages: &Vec<Vec<Fp>>) -> (r: Vec<Fp>)
    requires
        round_messages@.len() >= 1,
        forall|j: int|
            0 <= j < round_messages@.len() ==> (#[trigger] round_messages@[j])@.len()
                == round_messages@[0]@.len(),
    ensures
        r@.len() == round_messages@[0]@.len(),
        forall|i: int|
            0 <= i < r@.len() ==> (#[trigger] r@[i]).val() == msg_sum(
                round_messages@,
                i,
                round_messages@.len(),
            ) % (P as int),
{
    let width = round_messages[0].len();
    let mut r: Vec<Fp> = Vec::new();
    let mut i: usize = 0;
    while i < width
        invariant
            i <= width,
            width == round_messages@[0]@.len(),
            round_messages@.len() >= 1,
            forall|j: int|
                0 <= j < round_messages@.len() ==> (#[trigger] round_messages@[j])@.len() == width,
            r@.len() == i,
            forall|i2: int|
                0 <= i2 < i ==> (#[trigger] r@[i2]).val() == msg_sum(
                    round_messages@,
                    i2,
                    round_messages@.len(),
                ) % (P as int),
        decreases width - i,
    {
        let mut acc = Fp::zero();
        proof {
            lemma_small(0);
        }
        let mut m: usize = 0;
        while m < round_messages.len()
            invariant
                m <= round_messages@.len(),
                i < width,
                forall|j: int|
                    0 <= j < round_messages@.len() ==> (#[trigger] round_messages@[j])@.len()
                        == width,
                acc.val() == msg_sum(round_messages@, i as int, m as nat) % (P as int),
            decreases round_messages@.len() - m,
        {
            let x = round_messages[m][i];
            proof {
                use_type_invariant(x);
                crate::field::lemma_inv(x);
                cong_add(acc.val(), msg_sum(round_messages@, i as int, m as nat), x.val(), x.val());
            }
            acc = acc.add(x);
            m = m + 1;
        }
        r.push(acc);
        i = i + 1;
    }
    r
}

/// Builds one `c`-indexed table per distance bucket, scaled by a constant:
/// entry `y` of bucket `d` sums `igz[gate] * iux[b] * constant` over the
/// bucket's entries with `c` index `y`.
pub fn build_bookkeeping_tables(
    igz: &Vec<Fp>,
    iux: &Vec<Fp>,
    sparse_entries: &Vec<Vec<[usize; 3]>>,
    constant: &Fp,
    table_lens: &Vec<usize>,
) -> (r: Vec<Vec<Fp>>)
    requires
        sparse_entries@.len() == table_lens@.len(),
        forall|d: int, j: int|
            0 <= d < sparse_entries@.len() && 0 <= j < sparse_entries@[d]@.len() ==> {
                let e = #[trigger] sparse_entries@[d]@[j];
                &&& (e[0] as int) < igz@.len()
                &&& (e[1] as int) < iux@.len()
                &&& (e[2] as int) < table_lens@[d]
            },
    ensures
        r@.len() == sparse_entries@.len(),
        forall|d: int|
            0 <= d < r@.len() ==> fp_vals((#[trigger] r@[d])@) == reduce_pad(
                bk2_table(
                    buckets_view(sparse_entries@)[d],
                    fp_vals(igz@),
                    fp_vals(iux@),
                    constant.val(),
                    table_lens@[d] as nat,
                ),
                table_lens@[d] as nat,
            ),
{
    let ghost bv = buckets_view(sparse_entries@);
    let ghost igzv = fp_vals(igz@);
    let ghost iuxv = fp_vals(iux@);
    let ghost kv = constant.val();
    proof {
        use_type_invariant(*constant);
        crate::field::lemma_inv(*constant);
    }
    let mut r: Vec<Vec<Fp>> = Vec::new();
    let d_count = sparse_entries.len();
    let mut d: usize = 0;
    while d < d_count
        invariant
            d <= d_count,
            d_count == sparse_entries@.len(),
            d_count == table_lens@.len(),
            bv == buckets_view(sparse_entries@),
            igzv == fp_vals(igz@),
            iuxv == fp_vals(iux@),
            kv == constant.val(),
            0 <= kv < P as int,
            kv % (P as int) == kv,
            forall|d2: int, j: int|
                0 <= d2 < sparse_entries@.len() && 0 <= j < sparse_entries@[d2]@.len() ==> {
                    let e = #[trigger] sparse_entries@[d2]@[j];
                    &&& (e[0] as int) < igz@.len()
                    &&& (e[1] as int) < iux@.len()
                    &&& (e[2] as int) < table_lens@[d2]
                },
            r@.len() == d,
            forall|d2: int|
                0 <= d2 < d ==> fp_vals((#[trigger] r@[d2])@) == reduce_pad(
                    bk2_table(bv[d2], igzv, iuxv, kv, table_lens@[d2] as nat),
                    table_lens@[d2] as nat,
                ),
        decreases d_count - d,
    {
        let entries = &sparse_entries[d];
        let len = table_lens[d];
        let mut table: Vec<Fp> = Vec::new();
        while table.len() < len
            invariant
                table@.len() <= len,
                forall|y: int| 0 <= y < table@.len() ==> (#[trigger] table@[y]).val() == 0,
            decreases len - table@.len(),
        {
            table.push(Fp::zero());
        }
        proof {
            lemma_small(0);
        }
        let mut j: usize = 0;
        while j < entries.len()
            invariant
                j <= entries@.len(),
                entries@ == sparse_entries@[d as int]@,
                d < d_count,
                d_count == sparse_entries@.len(),
                d_count == table_lens@.len(),
                bv == buckets_view(sparse_entries@),
                igzv == fp_vals(igz@),
                iuxv == fp_vals(iux@),
                kv == constant.val(),
                0 <= kv < P as int,
                kv % (P as int) == kv,
                len == table_lens@[d as int],
                forall|j2: int|
                    0 <= j2 < entries@.len() ==> {
                        let e = #[trigger] entries@[j2];
                        &&& (e[0] as int) < igz@.len()
                        &&& (e[1] as int) < iux@.len()
                        &&& (e[2] as int) < len
                    },
                table@.len() == len,
                forall|y: int|
                    0 <= y < len ==> (#[trigger] table@[y]).val() == bk2_bucket(
                        bv[d as int],
                        igzv,
                        iuxv,
                        kv,
                        y,
                        j as nat,
                    ) % (P as int),
            decreases entries@.len() - j,
        {
            let e = entries[j];
            let z = e[0];
            let x = e[1];
            let y0 = e[2];
            let gi = igz[z];
            let ux = iux[x];
            let prod = gi.mul(ux);
            let term = prod.mul(*constant);
            let updated = table[y0].add(term);
            proof {
                use_type_invariant(gi);
                use_type_invariant(ux);
                crate::field::lemma_inv(gi);
                crate::field::lemma_inv(ux);
                assert(bv[d as int][j as int] == (z as int, x as int, y0 as int));
                assert(igzv[z as int] == gi.val() && iuxv[x as int] == ux.val());
                cong_mul(gi.val(), gi.val(), ux.val(), ux.val());
                cong_mul(prod.val(), gi.val() * ux.val(), kv, kv);
                cong_add(
                    table@[y0 as int].val(),
                    bk2_bucket(bv[d as int], igzv, iuxv, kv, y0 as int, j as nat),
                    term.val(),
                    igzv[z as int] * iuxv[x as int] * kv,
                );
            }
            table.set(y0, updated);
            j = j + 1;
        }
        proof {
            assert(bv[d as int].len() == entries@.len());
            assert(fp_vals(table@) =~= reduce_pad(
                bk2_table(bv[d as int], igzv, iuxv, kv, len as nat),
                len as nat,
            ));
        }
        r.push(table);
        d = d + 1;
    }
    r
}

/// Builds one `c`-indexed table per distance bucket without a constant:
/// entry `y` sums `igz[gate] * iux[b]` over the bucket's entries with `c`
/// index `y`.
pub fn build_bookkeeping_tables_with_identity(
    igz: &Vec<Fp>,
    iux: &Vec<Fp>,
    sparse_entries: &Vec<Vec<[usize; 3]>>,
    table_lens: &Vec<usize>,
) -> (r: Vec<Vec<Fp>>)
    requires
        sparse_entries@.len() == table_lens@.len(),
        forall|d: int, j: int|
            0 <= d < sparse_entries@.len() && 0 <= j < sparse_entries@[d]@.len() ==> {
                let e = #[trigger] sparse_entries@[d]@[j];
                &&& (e[0] as int) < igz@.len()
                &&& (e[1] as int) < iux@.len()
                &&& (e[2] as int) < table_lens@[d]
            },
    ensures
        r@.len() == sparse_entries@.len(),
        forall|d: int|
            0 <= d < r@.len() ==> fp_vals((#[trigger] r@[d])@) == reduce_pad(
                bk2_table(
                    buckets_view(sparse_entries@)[d],
                    fp_vals(igz@),
                    fp_vals(iux@),
                    1,
                    table_lens@[d] as nat,
                ),
                table_lens@[d] as nat,
            ),
{
    let one = Fp::one();
    let r = build_bookkeeping_tables(igz, iux, sparse_entries, &one, table_lens);
    r
}

/// Zero-pads a table to its bucket width, then places it in the top block of
/// the engine width.
fn pad_top(t: &Vec<Fp>, target: usize) -> (r: Vec<Fp>)
    requires
        t@.len() <= target,
    ensures
        r@.len() == target,
        fp_vals(r@) == top_pad(fp_vals(t@), target as nat),
{
    let offset = target - t.len();
    let mut r: Vec<Fp> = Vec::new();
    while r.len() < offset
        invariant
            r@.len() <= offset,
            forall|i: int| 0 <= i < r@.len() ==> (#[trigger] r@[i]).val() == 0,
        decreases offset - r@.len(),
    {
        r.push(Fp::zero());
    }
    let mut i: usize = 0;
    while i < t.len()
        invariant
            i <= t@.len(),
            offset == target - t@.len(),
            r@.len() == offset + i,
            forall|i2: int| 0 <= i2 < offset ==> (#[trigger] r@[i2]).val() == 0,
            forall|i2: int| offset <= i2 < offset + i ==> (#[trigger] r@[i2]) == t@[i2 - offset],
        decreases t@.len() - i,
    {
        r.push(t[i]);
        i = i + 1;
    }
    proof {
        assert(fp_vals(r@) =~= top_pad(fp_vals(t@), target as nat));
    }
    r
}

/// Runs phase two: fixes the adjacent variables to the phase-one
/// challenges, builds each bucket's additive-constant, additive-identity
/// and multiplicative tables, pads every polynomial to the widest bucket,
/// and advances all of them through the shared engine rounds. The partial
/// proof carries a zero claimed sum; the merged layer proof keeps phase
/// one's.
#[verifier::rlimit(100)]
pub fn prove_phase_two(
    igz: &Vec<Fp>,
    phase_one_challenges: &Vec<Fp>,
    layer_proving_info: &LayerProvingInfoWithSubset,
    transcript: &mut Transcript,
) -> (r: SumCheckProof)
    requires
        with_subset_wf(*layer_proving_info, igz@.len()),
        phase_one_challenges@.len() == n_vars_spec(layer_proving_info.v_subsets@[0]@.len()),
        phase_one_challenges@.len() <= 30,
    ensures
        r.claimed_sum.val() == 0,
        crate::sumcheck::phase_one::msgs_of(r) == phase_two_msgs(
            buckets_view(layer_proving_info.add_subsets@),
            buckets_view(layer_proving_info.mul_subsets@),
            tables_vals(layer_proving_info.v_subsets@),
            fp_vals(igz@),
            fp_vals(phase_one_challenges@),
            old(transcript).view_state(),
        ),
        fp_vals(r.challenges@) == phase_two_chals(
            buckets_view(layer_proving_info.add_subsets@),
            buckets_view(layer_proving_info.mul_subsets@),
            tables_vals(layer_proving_info.v_subsets@),
            fp_vals(igz@),
            fp_vals(phase_one_challenges@),
            old(transcript).view_state(),
        ),
        final(transcript).view_state() == phase_two_state(
            buckets_view(layer_proving_info.add_subsets@),
            buckets_view(layer_proving_info.mul_subsets@),
            tables_vals(layer_proving_info.v_subsets@),
            fp_vals(igz@),
            fp_vals(phase_one_challenges@),
            old(transcript).view_state(),
        ),
        r.round_polynomials@.len() == phase_two_n(tables_vals(layer_proving_info.v_subsets@)),
        r.challenges@.len() == phase_two_n(tables_vals(layer_proving_info.v_subsets@)),
        forall|j: int|
            0 <= j < r.round_polynomials@.len() ==> (#[trigger] r.round_polynomials@[j])@.len()
                == 3,
{
    let ghost info = *layer_proving_info;
    let ghost igzv = fp_vals(igz@);
    let ghost uv = fp_vals(phase_one_challenges@);
    let ghost addsv = buckets_view(info.add_subsets@);
    let ghost mulsv = buckets_view(info.mul_subsets@);
    let ghost subsv = tables_vals(info.v_subsets@);
    let d_count = layer_proving_info.v_subsets.len();
    let iux = crate::mle::generate_eq(phase_one_challenges);
    let ghost iuxv = fp_vals(iux@);
    proof {
        assert(iuxv =~= crate::mle::eq_seq(uv).map_values(|v: int| v % (P as int)));
    }
    // the constant standing in for the adjacent vector at the fixed point
    crate::field::note_reduced(&layer_proving_info.v_subsets[0]);
    let n_b = crate::util::n_vars_from_len(layer_proving_info.v_subsets[0].len());
    let sub0_p = pad_to(&layer_proving_info.v_subsets[0], pow2_exec(n_b));
    proof {
        assert(fp_vals(sub0_p@) =~= pad_vals(fp_vals(info.v_subsets@[0]@), pow2(uv.len()))) by {
            assert forall|i: int| 0 <= i < sub0_p@.len() implies fp_vals(sub0_p@)[i] == pad_vals(
                fp_vals(info.v_subsets@[0]@),
                pow2(uv.len()),
            )[i] by {}
        }
    }
    let constant = crate::mle::mle_evaluate(&sub0_p, phase_one_challenges);
    let ghost kv = constant.val();
    proof {
        assert(kv == p2_constant(subsv, uv));
    }
    // bucket widths and the shared engine width
    let mut table_lens: Vec<usize> = Vec::new();
    let mut nc: usize = 0;
    let mut d0: usize = 0;
    while d0 < d_count
        invariant
            d0 <= d_count,
            d_count == info.v_subsets@.len(),
            info == *layer_proving_info,
            forall|d2: int|
                0 <= d2 < d_count ==> (#[trigger] info.v_subsets@[d2])@.len() <= 0x4000_0000,
            table_lens@.len() == d0,
            forall|d2: int|
                0 <= d2 < d0 ==> (#[trigger] table_lens@[d2]) == info.v_subsets@[d2]@.len(),
            nc <= 30,
            subsv == tables_vals(info.v_subsets@),
            nc == max_bucket_nv(subsv, d0 as nat),
        decreases d_count - d0,
    {
        proof {
            assert(subsv[d0 as int] == fp_vals(info.v_subsets@[d0 as int]@));
        }
        let len = layer_proving_info.v_subsets[d0].len();
        table_lens.push(len);
        let w = bucket_n_vars_exec(len);
        if w > nc {
            nc = w;
        }
        d0 = d0 + 1;
    }
    let width = pow2_exec(nc);
    proof {
        assert forall|d2: int, j: int|
            0 <= d2 < info.add_subsets@.len() && 0 <= j < info.add_subsets@[d2]@.len() implies {
            let e = #[trigger] info.add_subsets@[d2]@[j];
            &&& (e[0] as int) < igz@.len()
            &&& (e[1] as int) < iux@.len()
            &&& (e[2] as int) < table_lens@[d2]
        } by {
            crate::util::lemma_bucket_nv_covers(info.v_subsets@[0]@.len());
        }
        assert forall|d2: int, j: int|
            0 <= d2 < info.mul_subsets@.len() && 0 <= j < info.mul_subsets@[d2]@.len() implies {
            let e = #[trigger] info.mul_subsets@[d2]@[j];
            &&& (e[0] as int) < igz@.len()
            &&& (e[1] as int) < iux@.len()
            &&& (e[2] as int) < table_lens@[d2]
        } by {
            crate::util::lemma_bucket_nv_covers(info.v_subsets@[0]@.len());
        }
    }
    // per-bucket tables
    let add_tables_with_constant = build_bookkeeping_tables(
        igz,
        &iux,
        &layer_proving_info.add_subsets,
        &constant,
        &table_lens,
    );
    let add_tables_with_identity = build_bookkeeping_tables_with_identity(
        igz,
        &iux,
        &layer_proving_info.add_subsets,
        &table_lens,
    );
    let mul_tables = build_bookkeeping_tables(
        igz,
        &iux,
        &layer_proving_info.mul_subsets,
        &constant,
        &table_lens,
    );
    // pad every polynomial to the engine width and assemble the lists
    let mut singles: Vec<Vec<Fp>> = Vec::new();
    let mut pairs_a: Vec<Vec<Fp>> = Vec::new();
    let mut pairs_b: Vec<Vec<Fp>> = Vec::new();
    let mut mul_padded: Vec<Vec<Fp>> = Vec::new();
    let mut d: usize = 0;
    while d < d_count
        invariant
            d <= d_count,
            d_count == info.v_subsets@.len(),
            info == *layer_proving_info,
            with_subset_wf(info, igz@.len()),
            igzv == fp_vals(igz@),
            iuxv == fp_vals(iux@),
            kv == constant.val(),
            nc == phase_two_n(subsv),
            subsv == tables_vals(info.v_subsets@),
            addsv == buckets_view(info.add_subsets@),
            mulsv == buckets_view(info.mul_subsets@),
            nc <= 30,
            width == pow2(nc as nat),
            table_lens@.len() == d_count,
            forall|d2: int|
                0 <= d2 < d_count ==> (#[trigger] table_lens@[d2]) == info.v_subsets@[d2]@.len(),
            add_tables_with_constant@.len() == d_count,
            add_tables_with_identity@.len() == d_count,
            mul_tables@.len() == d_count,
            forall|d2: int|
                0 <= d2 < d_count ==> fp_vals((#[trigger] add_tables_with_constant@[d2])@)
                    == reduce_pad(
                    bk2_table(
                        buckets_view(info.add_subsets@)[d2],
                        igzv,
                        iuxv,
                        kv,
                        info.v_subsets@[d2]@.len(),
                    ),
                    info.v_subsets@[d2]@.len(),
                ),
            forall|d2: int|
                0 <= d2 < d_count ==> fp_vals((#[trigger] add_tables_with_identity@[d2])@)
                    == reduce_pad(
                    bk2_table(
                        buckets_view(info.add_subsets@)[d2],
                        igzv,
                        iuxv,
                        1,
                        info.v_subsets@[d2]@.len(),
                    ),
                    info.v_subsets@[d2]@.len(),
                ),
            forall|d2: int|
                0 <= d2 < d_count ==> fp_vals((#[trigger] mul_tables@[d2])@) == reduce_pad(
                    bk2_table(
                        buckets_view(info.mul_subsets@)[d2],
                        igzv,
                        iuxv,
                        kv,
                        info.v_subsets@[d2]@.len(),
                    ),
                    info.v_subsets@[d2]@.len(),
                ),
            singles@.len() == d,
            pairs_a@.len() == d,
            pairs_b@.len() == d,
            mul_padded@.len() == d,
            forall|d2: int|
                0 <= d2 < d ==> fp_vals((#[trigger] mul_padded@[d2])@) == p2_mul_pair(
                    mulsv,
                    subsv,
                    igzv,
                    iuxv,
                    kv,
                    d2,
                ) && mul_padded@[d2]@.len() == pow2(nc as nat),
            forall|d2: int|
                0 <= d2 < d ==> fp_vals((#[trigger] singles@[d2])@) == p2_single(
                    addsv,
                    subsv,
                    igzv,
                    iuxv,
                    kv,
                    d2,
                ) && singles@[d2]@.len() == pow2(nc as nat),
            forall|d2: int|
                0 <= d2 < d ==> fp_vals((#[trigger] pairs_a@[d2])@) == p2_add_pair(
                    addsv,
                    subsv,
                    igzv,
                    iuxv,
                    d2,
                ) && pairs_a@[d2]@.len() == pow2(nc as nat),
            forall|d2: int|
                0 <= d2 < d ==> fp_vals((#[trigger] pairs_b@[d2])@) == p2_subset(subsv, d2)
                    && pairs_b@[d2]@.len() == pow2(nc as nat),
        decreases d_count - d,
    {
        let len = table_lens[d];
        let w = bucket_n_vars_exec(len);
        let bucket_width = pow2_exec(w);
        proof {
            assert(bucket_n_vars(len as nat) <= phase_two_n(subsv)) by {
                lemma_max_bucket_nv_ge(subsv, d_count as nat, d as int);
            }
            if (w as nat) < nc as nat {
                vstd::arithmetic::power2::lemma_pow2_strictly_increases(w as nat, nc as nat);
            }
        }
        let base1 = pad_to(&add_tables_with_constant[d], bucket_width);
        let q1 = pad_top(&base1, width);
        let base2 = pad_to(&add_tables_with_identity[d], bucket_width);
        let q2 = pad_top(&base2, width);
        let base3 = pad_to(&mul_tables[d], bucket_width);
        let q3 = pad_top(&base3, width);
        crate::field::note_reduced(&layer_proving_info.v_subsets[d]);
        let subp = pad_to(&layer_proving_info.v_subsets[d], bucket_width);
        proof {
            vstd::arithmetic::power2::lemma_pow2_pos(w as nat);
        }
        let subr = pad_replicate(&subp, width);
        proof {
            let ln = info.v_subsets@[d as int]@.len();
            assert(fp_vals(base1@) =~= reduce_pad(
                bk2_table(buckets_view(info.add_subsets@)[d as int], igzv, iuxv, kv, ln),
                pow2(bucket_n_vars(ln)),
            )) by {
                let tb = bk2_table(buckets_view(info.add_subsets@)[d as int], igzv, iuxv, kv, ln);
                assert forall|i: int| 0 <= i < base1@.len() implies fp_vals(base1@)[i]
                    == reduce_pad(tb, pow2(bucket_n_vars(ln)))[i] by {
                    if i < ln {
                        assert(base1@[i] == add_tables_with_constant@[d as int]@[i]);
                        assert(fp_vals(add_tables_with_constant@[d as int]@)[i] == reduce_pad(
                            tb,
                            ln,
                        )[i]);
                    }
                }
            }
            assert(fp_vals(q1@) == p2_single(addsv, subsv, igzv, iuxv, kv, d as int));
            assert(fp_vals(base2@) =~= reduce_pad(
                bk2_table(buckets_view(info.add_subsets@)[d as int], igzv, iuxv, 1, ln),
                pow2(bucket_n_vars(ln)),
            )) by {
                let tb = bk2_table(buckets_view(info.add_subsets@)[d as int], igzv, iuxv, 1, ln);
                assert forall|i: int| 0 <= i < base2@.len() implies fp_vals(base2@)[i]
                    == reduce_pad(tb, pow2(bucket_n_vars(ln)))[i] by {
                    if i < ln {
                        assert(base2@[i] == add_tables_with_identity@[d as int]@[i]);
                        assert(fp_vals(add_tables_with_identity@[d as int]@)[i] == reduce_pad(
                            tb,
                            ln,
                        )[i]);
                    }
                }
            }
            assert(fp_vals(q2@) == p2_add_pair(addsv, subsv, igzv, iuxv, d as int));
            assert(fp_vals(base3@) =~= reduce_pad(
                bk2_table(buckets_view(info.mul_subsets@)[d as int], igzv, iuxv, kv, ln),
                pow2(bucket_n_vars(ln)),
            )) by {
                let tb = bk2_table(buckets_view(info.mul_subsets@)[d as int], igzv, iuxv, kv, ln);
                assert forall|i: int| 0 <= i < base3@.len() implies fp_vals(base3@)[i]
                    == reduce_pad(tb, pow2(bucket_n_vars(ln)))[i] by {
                    if i < ln {
                        assert(base3@[i] == mul_tables@[d as int]@[i]);
                        assert(fp_vals(mul_tables@[d as int]@)[i] == reduce_pad(tb, ln)[i]);
                    }
                }
            }
            assert(fp_vals(subp@) =~= reduce_pad(fp_vals(info.v_subsets@[d as int]@), pow2(
                bucket_n_vars(ln),
            ))) by {
                assert forall|i: int| 0 <= i < subp@.len() implies fp_vals(subp@)[i] == reduce_pad(
                    fp_vals(info.v_subsets@[d as int]@),
                    pow2(bucket_n_vars(ln)),
                )[i] by {
                    if i < ln {
                        lemma_small(info.v_subsets@[d as int]@[i].val());
                    }
                }
            }
            assert(fp_vals(subr@) == p2_subset(subsv, d as int));
        }
        singles.push(q1);
        pairs_a.push(q2);
        pairs_b.push(subr);
        proof {
            assert(fp_vals(q3@) == p2_mul_pair(mulsv, subsv, igzv, iuxv, kv, d as int));
        }
        mul_padded.push(q3);
        d = d + 1;
    }
    // the multiplicative pairs follow the additive ones, against the same
    // replicated subset vectors
    let mut d2: usize = 0;
    while d2 < d_count
        invariant
            d2 <= d_count,
            d_count == info.v_subsets@.len(),
            info == *layer_proving_info,
            with_subset_wf(info, igz@.len()),
            igzv == fp_vals(igz@),
            iuxv == fp_vals(iux@),
            kv == constant.val(),
            nc == phase_two_n(subsv),
            subsv == tables_vals(info.v_subsets@),
            addsv == buckets_view(info.add_subsets@),
            mulsv == buckets_view(info.mul_subsets@),
            nc <= 30,
            width == pow2(nc as nat),
            mul_padded@.len() == d_count,
            forall|d3: int|
                0 <= d3 < d_count ==> fp_vals((#[trigger] mul_padded@[d3])@) == p2_mul_pair(
                    mulsv,
                    subsv,
                    igzv,
                    iuxv,
                    kv,
                    d3,
                ) && mul_padded@[d3]@.len() == pow2(nc as nat),
            singles@.len() == d_count,
            forall|d3: int|
                0 <= d3 < d_count ==> fp_vals((#[trigger] singles@[d3])@) == p2_single(
                    addsv,
                    subsv,
                    igzv,
                    iuxv,
                    kv,
                    d3,
                ) && singles@[d3]@.len() == pow2(nc as nat),
            pairs_a@.len() == d_count + d2,
            pairs_b@.len() == d_count + d2,
            forall|d3: int|
                0 <= d3 < d_count ==> fp_vals((#[trigger] pairs_a@[d3])@) == p2_add_pair(
                    addsv,
                    subsv,
                    igzv,
                    iuxv,
                    d3,
                ) && pairs_a@[d3]@.len() == pow2(nc as nat),
            forall|d3: int|
                d_count <= d3 < d_count + d2 ==> fp_vals((#[trigger] pairs_a@[d3])@)
                    == p2_mul_pair(mulsv, subsv, igzv, iuxv, kv, d3 - d_count) && pairs_a@[d3]@.len()
                    == pow2(nc as nat),
            forall|d3: int|
                0 <= d3 < d_count ==> fp_vals((#[trigger] pairs_b@[d3])@) == p2_subset(subsv, d3)
                    && pairs_b@[d3]@.len() == pow2(nc as nat),
            forall|d3: int|
                d_count <= d3 < d_count + d2 ==> fp_vals((#[trigger] pairs_b@[d3])@) == p2_subset(
                    subsv,
                    d3 - d_count,
                ) && pairs_b@[d3]@.len() == pow2(nc as nat),
        decreases d_count - d2,
    {
        let len = layer_proving_info.v_subsets[d2].len();
        let w = bucket_n_vars_exec(len);
        let bucket_width = pow2_exec(w);
        proof {
            assert(bucket_n_vars(len as nat) <= phase_two_n(subsv)) by {
                lemma_max_bucket_nv_ge(subsv, d_count as nat, d2 as int);
            }
            if (w as nat) < nc as nat {
                vstd::arithmetic::power2::lemma_pow2_strictly_increases(w as nat, nc as nat);
            }
            vstd::arithmetic::power2::lemma_pow2_pos(w as nat);
        }
        let mq = crate::mle::copy_range(&mul_padded[d2], 0, mul_padded[d2].len());
        proof {
            assert(mq@ =~= mul_padded@[d2 as int]@);
            assert(fp_vals(mq@) == p2_mul_pair(mulsv, subsv, igzv, iuxv, kv, d2 as int));
        }
        crate::field::note_reduced(&layer_proving_info.v_subsets[d2]);
        let subp = pad_to(&layer_proving_info.v_subsets[d2], bucket_width);
        let subr = pad_replicate(&subp, width);
        proof {
            let ln = info.v_subsets@[d2 as int]@.len();
            assert(fp_vals(subp@) =~= reduce_pad(fp_vals(info.v_subsets@[d2 as int]@), pow2(
                bucket_n_vars(ln),
            ))) by {
                assert forall|i: int| 0 <= i < subp@.len() implies fp_vals(subp@)[i] == reduce_pad(
                    fp_vals(info.v_subsets@[d2 as int]@),
                    pow2(bucket_n_vars(ln)),
                )[i] by {
                    if i < ln {
                        lemma_small(info.v_subsets@[d2 as int]@[i].val());
                    }
                }
            }
            assert(fp_vals(subr@) == p2_subset(subsv, d2 as int));
        }
        pairs_a.push(mq);
        pairs_b.push(subr);
        d2 = d2 + 1;
    }
    proof {
        assert(tables_vals(singles@) =~~= phase_two_singles(addsv, subsv, igzv, uv));
        assert(tables_vals(pairs_a@) =~~= phase_two_pairs_a(addsv, mulsv, subsv, igzv, uv));
        assert(tables_vals(pairs_b@) =~~= phase_two_pairs_b(subsv));
    }
    let (round_polynomials, challenges) = prove_product_rounds(
        singles,
        pairs_a,
        pairs_b,
        nc,
        transcript,
    );
    SumCheckProof { claimed_sum: Fp::zero(), round_polynomials, challenges }
}



/// The widest bucket bound covers every bucket.
pub proof fn lemma_max_bucket_nv_ge(subs: Seq<Seq<int>>, d: nat, i: int)
    requires
        0 <= i < d,
        d <= subs.len(),
    ensures
        bucket_n_vars(subs[i].len()) <= max_bucket_nv(subs, d),
    decreases d,
{
    if i < d - 1 {
        lemma_max_bucket_nv_ge(subs, (d - 1) as nat, i);
    }
}

/// Replicates a table through the engine width: the extension is constant in
/// the padding variables.
fn pad_replicate(t: &Vec<Fp>, target: usize) -> (r: Vec<Fp>)
    requires
        t@.len() >= 1,
    ensures
        r@.len() == target,
        fp_vals(r@) == rep_pad(fp_vals(t@), target as nat),
{
    let mut r: Vec<Fp> = Vec::new();
    let mut i: usize = 0;
    while i < target
        invariant
            i <= target,
            t@.len() >= 1,
            r@.len() == i,
            forall|i2: int| 0 <= i2 < i ==> (#[trigger] r@[i2]) == t@[i2 % (t@.len() as int)],
        decreases target - i,
    {
        r.push(t[i % t.len()]);
        i = i + 1;
    }
    proof {
        assert(fp_vals(r@) =~= rep_pad(fp_vals(t@), target as nat));
    }
    r
}

} // verus!
