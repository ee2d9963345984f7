//! Phase one of the layer reduction: every distance bucket's sparse entries
//! are folded into three dense tables indexed by the adjacent-layer variable
//! `b` alone — an additive identity table, an additive constant table and a
//! multiplicative table — and the degree-two combination of those tables
//! with the adjacent subset vector is reduced by the sumcheck engine.

use vstd::prelude::*;
use vstd::arithmetic::power2::pow2;

use crate::engine::{
    prove_product_rounds, rounds_chals, rounds_msgs, rounds_state, tables_vals, SumCheckProof,
};
use crate::field::{cong_add, cong_mul, lemma_small, Fp, P};
use crate::mle::{fp_vals, pad_to, pow2_exec};
use crate::transcript::Transcript;
use crate::util::{buckets_view, n_vars_from_len, n_vars_spec, LayerProvingInfoWithSubset};

verus! {

/// Contribution to entry `x` of a `b`-indexed table from the first `j`
/// entries of one bucket, where each entry adds the eq weight of its gate.
pub open spec fn bki_bucket(entries: Seq<(int, int, int)>, igzv: Seq<int>, x: int, j: nat) -> int
    decreases j,
{
    if j == 0 {
        0
    } else {
        bki_bucket(entries, igzv, x, (j - 1) as nat) + if entries[j - 1].1 == x {
            igzv[entries[j - 1].0]
        } else {
            0int
        }
    }
}

/// Contribution to entry `x` from the first `d` whole buckets.
pub open spec fn bki_all(buckets: Seq<Seq<(int, int, int)>>, igzv: Seq<int>, x: int, d: nat) -> int
    decreases d,
{
    if d == 0 {
        0
    } else {
        bki_all(buckets, igzv, x, (d - 1) as nat) + bki_bucket(
            buckets[d - 1],
            igzv,
            x,
            buckets[d - 1].len(),
        )
    }
}

/// Contribution to entry `x` from the first `j` entries of one bucket,
/// where each entry adds its gate's eq weight times the referenced value of
/// the bucket's subset.
pub open spec fn bkc_bucket(
    entries: Seq<(int, int, int)>,
    igzv: Seq<int>,
    sub: Seq<int>,
    x: int,
    j: nat,
) -> int
    decreases j,
{
    if j == 0 {
        0
    } else {
        bkc_bucket(entries, igzv, sub, x, (j - 1) as nat) + if entries[j - 1].1 == x {
            igzv[entries[j - 1].0] * sub[entries[j - 1].2]
        } else {
            0int
        }
    }
}

/// Contribution to entry `x` from the first `d` whole buckets with their
/// subsets.
pub open spec fn bkc_all(
    buckets: Seq<Seq<(int, int, int)>>,
    igzv: Seq<int>,
    subs: Seq<Seq<int>>,
    x: int,
    d: nat,
) -> int
    decreases d,
{
    if d == 0 {
        0
    } else {
        bkc_all(buckets, igzv, subs, x, (d - 1) as nat) + bkc_bucket(
            buckets[d - 1],
            igzv,
            subs[d - 1],
            x,
            buckets[d - 1].len(),
        )
    }
}

/// A table reduced entrywise and zero-padded to length `target`.
pub open spec fn reduce_pad(s: Seq<int>, target: nat) -> Seq<int> {
    Seq::new(
        target,
        |i: int|
            if i < s.len() {
                s[i] % (P as int)
            } else {
                0
            },
    )
}

/// Bounds under which the bookkeeping tables of a layer can be built from
/// an eq table of the given length.
pub open spec fn with_subset_wf(info: LayerProvingInfoWithSubset, igz_len: nat) -> bool {
    &&& info.v_subsets@.len() >= 1
    &&& info.v_subsets@[0]@.len() >= 1
    &&& info.v_subsets@.len() == info.v_subset_instruction@.len()
    &&& info.add_subsets@.len() == info.v_subsets@.len()
    &&& info.mul_subsets@.len() == info.v_subsets@.len()
    &&& forall|d: int|
        0 <= d < info.v_subsets@.len() ==> (#[trigger] info.v_subsets@[d])@.len() <= 0x4000_0000
    &&& forall|d: int, j: int|
        0 <= d < info.add_subsets@.len() && 0 <= j < info.add_subsets@[d]@.len() ==> {
            let e = #[trigger] info.add_subsets@[d]@[j];
            &&& (e[0] as int) < igz_len
            &&& (e[1] as int) < info.v_subsets@[0]@.len()
            &&& (e[2] as int) < info.v_subsets@[d]@.len()
        }
    &&& forall|d: int, j: int|
        0 <= d < info.mul_subsets@.len() && 0 <= j < info.mul_subsets@[d]@.len() ==> {
            let e = #[trigger] info.mul_subsets@[d]@[j];
            &&& (e[0] as int) < igz_len
            &&& (e[1] as int) < info.v_subsets@[0]@.len()
            &&& (e[2] as int) < info.v_subsets@[d]@.len()
        }
}

/// Builds the dense `b`-indexed table that pre-multiplies each entry's far
/// subset value: entry `x` sums `igz[gate] * subset[c]` over all sparse
/// entries with `b` index `x`.
pub fn build_bookkeeping_table(
    igz: &Vec<Fp>,
    sparse_entries: &Vec<Vec<[usize; 3]>>,
    subsets: &Vec<Vec<Fp>>,
) -> (r: Vec<Fp>)
    requires
        sparse_entries@.len() == subsets@.len(),
        subsets@.len() >= 1,
        forall|d: int, j: int|
            0 <= d < sparse_entries@.len() && 0 <= j < sparse_entries@[d]@.len() ==> {
                let e = #[trigger] sparse_entries@[d]@[j];
                &&& (e[0] as int) < igz@.len()
                &&& (e[1] as int) < subsets@[0]@.len()
                &&& (e[2] as int) < subsets@[d]@.len()
            },
    ensures
        r@.len() == subsets@[0]@.len(),
        forall|x: int|
            0 <= x < r@.len() ==> (#[trigger] r@[x]).val() == bkc_all(
                buckets_view(sparse_entries@),
                fp_vals(igz@),
                tables_vals(subsets@),
                x,
                sparse_entries@.len(),
            ) % (P as int),
{
    let ghost bv = buckets_view(sparse_entries@);
    let ghost igzv = fp_vals(igz@);
    let ghost sv = tables_vals(subsets@);
    let len0 = subsets[0].len();
    let mut table: Vec<Fp> = Vec::new();
    while table.len() < len0
        invariant
            table@.len() <= len0,
            forall|x: int| 0 <= x < table@.len() ==> (#[trigger] table@[x]).val() == 0,
        decreases len0 - table@.len(),
    {
        table.push(Fp::zero());
    }
    proof {
        lemma_small(0);
        assert forall|x: int| 0 <= x < len0 implies (#[trigger] table@[x]).val() == bkc_all(
            bv,
            igzv,
            sv,
            x,
            0,
        ) % (P as int) by {}
    }
    let d_count = sparse_entries.len();
    let mut d: usize = 0;
    while d < d_count
        invariant
            d <= d_count,
            d_count == sparse_entries@.len(),
            d_count == subsets@.len(),
            bv == buckets_view(sparse_entries@),
            igzv == fp_vals(igz@),
            sv == tables_vals(subsets@),
            len0 == subsets@[0]@.len(),
            forall|d2: int, j: int|
                0 <= d2 < sparse_entries@.len() && 0 <= j < sparse_entries@[d2]@.len() ==> {
                    let e = #[trigger] sparse_entries@[d2]@[j];
                    &&& (e[0] as int) < igz@.len()
                    &&& (e[1] as int) < subsets@[0]@.len()
                    &&& (e[2] as int) < subsets@[d2]@.len()
                },
            table@.len() == len0,
            forall|x: int|
                0 <= x < len0 ==> (#[trigger] table@[x]).val() == bkc_all(bv, igzv, sv, x, d as nat)
                    % (P as int),
        decreases d_count - d,
    {
        let entries = &sparse_entries[d];
        let subset = &subsets[d];
        let mut j: usize = 0;
        while j < entries.len()
            invariant
                j <= entries@.len(),
                entries@ == sparse_entries@[d as int]@,
                subset@ == subsets@[d as int]@,
                d < d_count,
                d_count == sparse_entries@.len(),
                d_count == subsets@.len(),
                bv == buckets_view(sparse_entries@),
                igzv == fp_vals(igz@),
                sv == tables_vals(subsets@),
                len0 == subsets@[0]@.len(),
                forall|j2: int|
                    0 <= j2 < entries@.len() ==> {
                        let e = #[trigger] entries@[j2];
                        &&& (e[0] as int) < igz@.len()
                        &&& (e[1] as int) < len0
                        &&& (e[2] as int) < subset@.len()
                    },
                table@.len() == len0,
                forall|x: int|
                    0 <= x < len0 ==> (#[trigger] table@[x]).val() == (bkc_all(
                        bv,
                        igzv,
                        sv,
                        x,
                        d as nat,
                    ) + bkc_bucket(bv[d as int], igzv, sv[d as int], x, j as nat)) % (P as int),
            decreases entries@.len() - j,
        {
            let e = entries[j];
            let z = e[0];
            let x0 = e[1];
            let y = e[2];
            let gi = igz[z];
            let sy = subset[y];
            let term = gi.mul(sy);
            let updated = table[x0].add(term);
            proof {
                use_type_invariant(gi);
                use_type_invariant(sy);
                crate::field::lemma_inv(gi);
                crate::field::lemma_inv(sy);
                assert(bv[d as int][j as int] == (z as int, x0 as int, y as int));
                assert(igzv[z as int] == gi.val() && sv[d as int][y as int] == sy.val());
                cong_mul(gi.val(), gi.val(), sy.val(), sy.val());
                cong_add(
                    table@[x0 as int].val(),
                    bkc_all(bv, igzv, sv, x0 as int, d as nat) + bkc_bucket(
                        bv[d as int],
                        igzv,
                        sv[d as int],
                        x0 as int,
                        j as nat,
                    ),
                    term.val(),
                    igzv[z as int] * sv[d as int][y as int],
                );
                assert forall|x: int| 0 <= x < len0 implies (bkc_all(bv, igzv, sv, x, d as nat)
                    + bkc_bucket(bv[d as int], igzv, sv[d as int], x, (j + 1) as nat)) == (bkc_all(
                    bv,
                    igzv,
                    sv,
                    x,
                    d as nat,
                ) + bkc_bucket(bv[d as int], igzv, sv[d as int], x, j as nat)) + (if x == x0 as int {
                    igzv[z as int] * sv[d as int][y as int]
                } else {
                    0int
                }) by {}
            }
            table.set(x0, updated);
            j = j + 1;
        }
        proof {
            assert(bv[d as int].len() == entries@.len());
            assert forall|x: int| 0 <= x < len0 implies (#[trigger] table@[x]).val() == bkc_all(
                bv,
                igzv,
                sv,
                x,
                (d + 1) as nat,
            ) % (P as int) by {
                assert(bkc_all(bv, igzv, sv, x, (d + 1) as nat) == bkc_all(bv, igzv, sv, x, d as nat)
                    + bkc_bucket(bv[d as int], igzv, sv[d as int], x, bv[d as int].len()));
            }
        }
        d = d + 1;
    }
    table
}

/// Builds the dense `b`-indexed identity table: entry `x` sums `igz[gate]`
/// over all sparse entries with `b` index `x`, regardless of the far side.
pub fn build_bookkeeping_table_with_identity(
    igz: &Vec<Fp>,
    sparse_entries: &Vec<Vec<[usize; 3]>>,
    table_len: usize,
) -> (r: Vec<Fp>)
    requires
        forall|d: int, j: int|
            0 <= d < sparse_entries@.len() && 0 <= j < sparse_entries@[d]@.len() ==> {
                let e = #[trigger] sparse_entries@[d]@[j];
                &&& (e[0] as int) < igz@.len()
                &&& (e[1] as int) < table_len
            },
    ensures
        r@.len() == table_len,
        forall|x: int|
            0 <= x < r@.len() ==> (#[trigger] r@[x]).val() == bki_all(
                buckets_view(sparse_entries@),
                fp_vals(igz@),
                x,
                sparse_entries@.len(),
            ) % (P as int),
{
    let ghost bv = buckets_view(sparse_entries@);
    let ghost igzv = fp_vals(igz@);
    let mut table: Vec<Fp> = Vec::new();
    while table.len() < table_len
        invariant
            table@.len() <= table_len,
            forall|x: int| 0 <= x < table@.len() ==> (#[trigger] table@[x]).val() == 0,
        decreases table_len - table@.len(),
    {
        table.push(Fp::zero());
    }
    proof {
        lemma_small(0);
    }
    let d_count = sparse_entries.len();
    let mut d: usize = 0;
    while d < d_count
        invariant
            d <= d_count,
            d_count == sparse_entries@.len(),
            bv == buckets_view(sparse_entries@),
            igzv == fp_vals(igz@),
            forall|d2: int, j: int|
                0 <= d2 < sparse_entries@.len() && 0 <= j < sparse_entries@[d2]@.len() ==> {
                    let e = #[trigger] sparse_entries@[d2]@[j];
                    &&& (e[0] as int) < igz@.len()
                    &&& (e[1] as int) < table_len
                },
            table@.len() == table_len,
            forall|x: int|
                0 <= x < table_len ==> (#[trigger] table@[x]).val() == bki_all(bv, igzv, x, d as nat)
                    % (P as int),
        decreases d_count - d,
    {
        let entries = &sparse_entries[d];
        let mut j: usize = 0;
        while j < entries.len()
            invariant
                j <= entries@.len(),
                entries@ == sparse_entries@[d as int]@,
                d < d_count,
                d_count == sparse_entries@.len(),
                bv == buckets_view(sparse_entries@),
                igzv == fp_vals(igz@),
                forall|j2: int|
                    0 <= j2 < entries@.len() ==> {
                        let e = #[trigger] entries@[j2];
                        &&& (e[0] as int) < igz@.len()
                        &&& (e[1] as int) < table_len
                    },
                table@.len() == table_len,
                forall|x: int|
                    0 <= x < table_len ==> (#[trigger] table@[x]).val() == (bki_all(
                        bv,
                        igzv,
                        x,
                        d as nat,
                    ) + bki_bucket(bv[d as int], igzv, x, j as nat)) % (P as int),
            decreases entries@.len() - j,
        {
            let e = entries[j];
            let z = e[0];
            let x0 = e[1];
            let gi = igz[z];
            let updated = table[x0].add(gi);
            proof {
                use_type_invariant(gi);
                crate::field::lemma_inv(gi);
                assert(bv[d as int][j as int] == (z as int, x0 as int, e[2] as int));
                assert(igzv[z as int] == gi.val());
                cong_add(
                    table@[x0 as int].val(),
                    bki_all(bv, igzv, x0 as int, d as nat) + bki_bucket(
                        bv[d as int],
                        igzv,
                        x0 as int,
                        j as nat,
                    ),
                    gi.val(),
                    igzv[z as int],
                );
            }
            table.set(x0, updated);
            j = j + 1;
        }
        proof {
            assert(bv[d as int].len() == entries@.len());
        }
        d = d + 1;
    }
    table
}

/// The three phase-one prover tables and the adjacent subset vector, reduced
/// and padded to the phase's power-of-two length, as handed to the engine:
/// the singles list holds the additive constant table; the pairs multiply
/// the subset vector with the identity table and with the multiplicative
/// table.
pub open spec fn phase_one_singles(
    adds: Seq<Seq<(int, int, int)>>,
    muls: Seq<Seq<(int, int, int)>>,
    subs: Seq<Seq<int>>,
    igzv: Seq<int>,
) -> Seq<Seq<int>> {
    let len0 = subs[0].len();
    let target = pow2(n_vars_spec(len0));
    seq![reduce_pad(bkc_table_of(adds, igzv, subs, len0), target)]
}

/// The `b`-table factors of the phase-one pairs.
pub open spec fn phase_one_pairs_a(
    adds: Seq<Seq<(int, int, int)>>,
    muls: Seq<Seq<(int, int, int)>>,
    subs: Seq<Seq<int>>,
    igzv: Seq<int>,
) -> Seq<Seq<int>> {
    let len0 = subs[0].len();
    let target = pow2(n_vars_spec(len0));
    let wb = reduce_pad(subs[0], target);
    seq![wb, wb]
}

/// The bookkeeping factors of the phase-one pairs.
pub open spec fn phase_one_pairs_b(
    adds: Seq<Seq<(int, int, int)>>,
    muls: Seq<Seq<(int, int, int)>>,
    subs: Seq<Seq<int>>,
    igzv: Seq<int>,
) -> Seq<Seq<int>> {
    let len0 = subs[0].len();
    let target = pow2(n_vars_spec(len0));
    seq![
        reduce_pad(addb_table_of(adds, igzv, len0), target),
        reduce_pad(bkc_table_of(muls, igzv, subs, len0), target),
    ]
}

/// The identity table as a sequence.
pub open spec fn addb_table_of(
    buckets: Seq<Seq<(int, int, int)>>,
    igzv: Seq<int>,
    len0: nat,
) -> Seq<int> {
    Seq::new(len0, |x: int| bki_all(buckets, igzv, x, buckets.len()))
}

/// The constant table as a sequence.
pub open spec fn bkc_table_of(
    buckets: Seq<Seq<(int, int, int)>>,
    igzv: Seq<int>,
    subs: Seq<Seq<int>>,
    len0: nat,
) -> Seq<int> {
    Seq::new(len0, |x: int| bkc_all(buckets, igzv, subs, x, buckets.len()))
}

/// The number of phase-one rounds: the variables of the adjacent subset.
pub open spec fn phase_one_n(subs: Seq<Seq<int>>) -> nat {
    n_vars_spec(subs[0].len())
}

/// The messages phase one appends to the proof.
pub open spec fn phase_one_msgs(
    adds: Seq<Seq<(int, int, int)>>,
    muls: Seq<Seq<(int, int, int)>>,
    subs: Seq<Seq<int>>,
    igzv: Seq<int>,
    s: int,
) -> Seq<
    (int, int, int),
> {
    rounds_msgs(
        phase_one_singles(adds, muls, subs, igzv),
        phase_one_pairs_a(adds, muls, subs, igzv),
        phase_one_pairs_b(adds, muls, subs, igzv),
        s,
        (pow2(phase_one_n(subs)) / 2) as nat,
        phase_one_n(subs),
    )
}

/// The challenges phase one samples.
pub open spec fn phase_one_chals(
    adds: Seq<Seq<(int, int, int)>>,
    muls: Seq<Seq<(int, int, int)>>,
    subs: Seq<Seq<int>>,
    igzv: Seq<int>,
    s: int,
) -> Seq<int> {
    rounds_chals(
        phase_one_singles(adds, muls, subs, igzv),
        phase_one_pairs_a(adds, muls, subs, igzv),
        phase_one_pairs_b(adds, muls, subs, igzv),
        s,
        (pow2(phase_one_n(subs)) / 2) as nat,
        phase_one_n(subs),
    )
}

/// The transcript state after phase one.
pub open spec fn phase_one_state(
    adds: Seq<Seq<(int, int, int)>>,
    muls: Seq<Seq<(int, int, int)>>,
    subs: Seq<Seq<int>>,
    igzv: Seq<int>,
    s: int,
) -> int {
    rounds_state(
        phase_one_singles(adds, muls, subs, igzv),
        phase_one_pairs_a(adds, muls, subs, igzv),
        phase_one_pairs_b(adds, muls, subs, igzv),
        s,
        (pow2(phase_one_n(subs)) / 2) as nat,
        phase_one_n(subs),
    )
}

/// Runs phase one: builds the three bookkeeping tables, combines them with
/// the adjacent subset vector, and reduces the `b` variables through the
/// sumcheck engine.
pub fn prove_phase_one(
    igz: &Vec<Fp>,
    claimed_sum: Fp,
    layer_proving_info: &LayerProvingInfoWithSubset,
    transcript: &mut Transcript,
) -> (r: SumCheckProof)
    requires
        with_subset_wf(*layer_proving_info, igz@.len()),
    ensures
        r.claimed_sum == claimed_sum,
        msgs_of(r) == phase_one_msgs(
            buckets_view(layer_proving_info.add_subsets@),
            buckets_view(layer_proving_info.mul_subsets@),
            tables_vals(layer_proving_info.v_subsets@),
            fp_vals(igz@),
            old(transcript).view_state(),
        ),
        fp_vals(r.challenges@) == phase_one_chals(
            buckets_view(layer_proving_info.add_subsets@),
            buckets_view(layer_proving_info.mul_subsets@),
            tables_vals(layer_proving_info.v_subsets@),
            fp_vals(igz@),
            old(transcript).view_state(),
        ),
        final(transcript).view_state() == phase_one_state(
            buckets_view(layer_proving_info.add_subsets@),
            buckets_view(layer_proving_info.mul_subsets@),
            tables_vals(layer_proving_info.v_subsets@),
            fp_vals(igz@),
            old(transcript).view_state(),
        ),
        r.round_polynomials@.len() == phase_one_n(tables_vals(layer_proving_info.v_subsets@)),
        r.challenges@.len() == phase_one_n(tables_vals(layer_proving_info.v_subsets@)),
        forall|j: int|
            0 <= j < r.round_polynomials@.len() ==> (#[trigger] r.round_polynomials@[j])@.len()
                == 3,
{
    let ghost igzv = fp_vals(igz@);
    let ghost info = *layer_proving_info;
    crate::field::note_reduced(&layer_proving_info.v_subsets[0]);
    let add_b_ahg = build_bookkeeping_table_with_identity(
        igz,
        &layer_proving_info.add_subsets,
        layer_proving_info.v_subsets[0].len(),
    );
    let add_c_ahg = build_bookkeeping_table(
        igz,
        &layer_proving_info.add_subsets,
        &layer_proving_info.v_subsets,
    );
    let mul_ahg = build_bookkeeping_table(
        igz,
        &layer_proving_info.mul_subsets,
        &layer_proving_info.v_subsets,
    );
    let n_b = n_vars_from_len(layer_proving_info.v_subsets[0].len());
    let target = pow2_exec(n_b);
    let add_b_p = pad_to(&add_b_ahg, target);
    let add_c_p = pad_to(&add_c_ahg, target);
    let mul_p = pad_to(&mul_ahg, target);
    let wb_p = pad_to(&layer_proving_info.v_subsets[0], target);
    proof {
        let len0 = info.v_subsets@[0]@.len();
        assert(fp_vals(add_b_p@) =~= reduce_pad(
            addb_table_of(buckets_view(info.add_subsets@), igzv, len0),
            pow2(n_vars_spec(len0)),
        ));
        assert(fp_vals(add_c_p@) =~= reduce_pad(
            bkc_table_of(buckets_view(info.add_subsets@), igzv, tables_vals(info.v_subsets@), len0),
            pow2(n_vars_spec(len0)),
        ));
        assert(fp_vals(mul_p@) =~= reduce_pad(
            bkc_table_of(buckets_view(info.mul_subsets@), igzv, tables_vals(info.v_subsets@), len0),
            pow2(n_vars_spec(len0)),
        ));
        assert(fp_vals(wb_p@) =~= reduce_pad(fp_vals(info.v_subsets@[0]@), pow2(n_vars_spec(len0))))
            by {
            assert forall|i: int| 0 <= i < wb_p@.len() implies fp_vals(wb_p@)[i] == reduce_pad(
                fp_vals(info.v_subsets@[0]@),
                pow2(n_vars_spec(len0)),
            )[i] by {
                if i < info.v_subsets@[0]@.len() {
                    let x = info.v_subsets@[0]@[i];
                    assert(wb_p@[i] == x);
                    assert(fp_vals(info.v_subsets@[0]@)[i] == x.val());
                    assert(0 <= x.val() < P as int);
                    lemma_small(x.val());
                }
            }
        }
    }
    let mut singles: Vec<Vec<Fp>> = Vec::new();
    singles.push(add_c_p);
    let mut pairs_a: Vec<Vec<Fp>> = Vec::new();
    let wb_p2 = crate::mle::copy_range(&wb_p, 0, wb_p.len());
    proof {
        assert(wb_p2@ =~= wb_p@);
    }
    pairs_a.push(wb_p);
    pairs_a.push(wb_p2);
    let mut pairs_b: Vec<Vec<Fp>> = Vec::new();
    pairs_b.push(add_b_p);
    pairs_b.push(mul_p);
    proof {
        let addsv = buckets_view(info.add_subsets@);
        let mulsv = buckets_view(info.mul_subsets@);
        let subsv = tables_vals(info.v_subsets@);
        assert(tables_vals(singles@) =~~= phase_one_singles(addsv, mulsv, subsv, igzv));
        assert(tables_vals(pairs_a@) =~~= phase_one_pairs_a(addsv, mulsv, subsv, igzv));
        assert(tables_vals(pairs_b@) =~~= phase_one_pairs_b(addsv, mulsv, subsv, igzv));
    }
    let (round_polynomials, challenges) = prove_product_rounds(
        singles,
        pairs_a,
        pairs_b,
        n_b,
        transcript,
    );
    let r = SumCheckProof { claimed_sum, round_polynomials, challenges };
    proof {
        assert(msgs_of(r) == crate::engine::msgs_vals(r.round_polynomials@));
    }
    r
}

/// The stored coefficient triples of a proof's round messages.
pub open spec fn msgs_of(p: SumCheckProof) -> Seq<(int, int, int)> {
    crate::engine::msgs_vals(p.round_polynomials@)
}

} // verus!
