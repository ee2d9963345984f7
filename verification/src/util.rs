//! Shared protocol types and helpers: layer addressing, the per-layer
//! proving information compiled from the circuit wiring, subset claims, and
//! the cross-layer folding primitives.

use vstd::prelude::*;
use vstd::arithmetic::power2::pow2;

use crate::field::{Fp, P};
use crate::mle::{dot_spec, fp_vals, nv, pad_to};
use crate::transcript::Transcript;

verus! {

/// Index into the circuit's layer sequence; layer 0 is the output layer.
pub type LayerId = usize;

/// Position of a gate: its layer id and its index within that layer.
pub type GateAddr = (LayerId, usize);

/// Circuit-derived proving information for one layer: for every distance
/// `d` from the next layer, the deduplicated positions the layer's gates
/// reference there, and the sparse `[gate_index, b_subset_index,
/// c_subset_index]` triples of its add and mul gates, bucketed by the far
/// input's distance.
#[derive(Debug, Clone, PartialEq)]
pub struct LayerProvingInfo {
    /// Layer the information was generated for.
    pub layer_id: usize,
    /// For each distance, how to extract the referenced downstream values
    /// from that layer's evaluation vector.
    pub v_subset_instruction: Vec<Vec<usize>>,
    /// Sparse triples of the add gates, bucketed by far-input distance.
    pub add_subsets: Vec<Vec<[usize; 3]>>,
    /// Sparse triples of the mul gates, bucketed by far-input distance.
    pub mul_subsets: Vec<Vec<[usize; 3]>>,
}

/// Proving information together with the concrete downstream values the
/// instructions name, extracted from a witness evaluation table.
#[derive(Debug, Clone)]
pub struct LayerProvingInfoWithSubset {
    /// For each distance, the referenced downstream values.
    pub v_subsets: Vec<Vec<Fp>>,
    /// For each distance, the positions those values came from.
    pub v_subset_instruction: Vec<Vec<usize>>,
    /// Sparse triples of the add gates, bucketed by far-input distance.
    pub add_subsets: Vec<Vec<[usize; 3]>>,
    /// Sparse triples of the mul gates, bucketed by far-input distance.
    pub mul_subsets: Vec<Vec<[usize; 3]>>,
}

/// A claim that a downstream evaluation vector, restricted to the positions
/// of `instruction` and extended multilinearly, equals `eval` at point `r`.
#[derive(Debug, Clone, PartialEq)]
pub struct Subclaim {
    /// The evaluation point of the claim.
    pub r: Vec<Fp>,
    /// The claimed value.
    pub eval: Fp,
    /// The positions of the downstream vector the claim speaks of.
    pub instruction: Vec<usize>,
}

impl Subclaim {
    /// Packs an evaluation point, a claimed value and an index map.
    pub fn new(eval_point: Vec<Fp>, eval: Fp, instruction: Vec<usize>) -> (r: Subclaim)
        ensures
            r.r == eval_point,
            r.eval == eval,
            r.instruction == instruction,
    {
        Subclaim { r: eval_point, eval, instruction }
    }
}

/// The instruction buckets of a proving info, as mathematical sequences.
pub open spec fn insts_view(s: Seq<Vec<usize>>) -> Seq<Seq<usize>> {
    s.map_values(|v: Vec<usize>| v@)
}

/// One bucket of sparse triples, as `(gate_index, b_index, c_index)` tuples.
pub open spec fn entries_view(s: Seq<[usize; 3]>) -> Seq<(int, int, int)> {
    s.map_values(|e: [usize; 3]| (e[0] as int, e[1] as int, e[2] as int))
}

/// All buckets of sparse triples, as tuple sequences.
pub open spec fn buckets_view(s: Seq<Vec<[usize; 3]>>) -> Seq<Seq<(int, int, int)>> {
    s.map_values(|v: Vec<[usize; 3]>| entries_view(v@))
}

/// The position of the first occurrence of `x` in `s`, or `s.len()` when
/// `x` does not occur.
pub open spec fn find_first(s: Seq<usize>, x: usize) -> int
    decreases s.len(),
{
    if s.len() == 0 {
        0
    } else if s[0] == x {
        0
    } else {
        1 + find_first(s.drop_first(), x)
    }
}

/// What `push_index` leaves in the container.
pub open spec fn push_index_seq(s: Seq<usize>, x: usize) -> Seq<usize> {
    if s.contains(x) {
        s
    } else {
        s.push(x)
    }
}

/// What `push_index` returns.
pub open spec fn push_index_pos(s: Seq<usize>, x: usize) -> int {
    if s.contains(x) {
        find_first(s, x)
    } else {
        s.len() as int
    }
}

/// A contained element's first occurrence is a valid position.
pub proof fn lemma_find_first_lt(s: Seq<usize>, x: usize)
    requires
        s.contains(x),
    ensures
        0 <= find_first(s, x) < s.len(),
        s[find_first(s, x)] == x,
    decreases s.len(),
{
    if s[0] == x {
    } else {
        assert(s.drop_first().contains(x)) by {
            let i = choose|i: int| 0 <= i < s.len() && s[i] == x;
            assert(s.drop_first()[i - 1] == x);
        }
        lemma_find_first_lt(s.drop_first(), x);
    }
}

/// The returned position of a deduplicating push is valid, and the pushed
/// container keeps all old values, grows by at most one, and holds the item
/// at the returned position.
pub proof fn lemma_push_index_bounds(s: Seq<usize>, x: usize)
    ensures
        0 <= push_index_pos(s, x) < push_index_seq(s, x).len(),
        s.len() <= push_index_seq(s, x).len() <= s.len() + 1,
        forall|j: int| 0 <= j < s.len() ==> #[trigger] push_index_seq(s, x)[j] == s[j],
        push_index_seq(s, x)[push_index_pos(s, x)] == x,
{
    if s.contains(x) {
        lemma_find_first_lt(s, x);
    }
}

/// A found first occurrence pins down `find_first`.
proof fn lemma_find_first_at(s: Seq<usize>, x: usize, i: int)
    requires
        0 <= i < s.len(),
        s[i] == x,
        forall|j: int| 0 <= j < i ==> s[j] != x,
    ensures
        find_first(s, x) == i,
    decreases i,
{
    if i > 0 {
        assert(s.drop_first()[i - 1] == x);
        lemma_find_first_at(s.drop_first(), x, i - 1);
    }
}

/// Returns the index of the item if it is already in the container;
/// otherwise pushes it and returns its new index.
pub fn push_index(container: &mut Vec<usize>, item: usize) -> (r: usize)
    requires
        old(container)@.len() < usize::MAX,
    ensures
        final(container)@ == push_index_seq(old(container)@, item),
        r as int == push_index_pos(old(container)@, item),
        r < final(container)@.len(),
{
    let mut i: usize = 0;
    while i < container.len()
        invariant
            i <= container@.len(),
            forall|j: int| 0 <= j < i ==> container@[j] != item,
        decreases container@.len() - i,
    {
        if container[i] == item {
            proof {
                lemma_find_first_at(container@, item, i as int);
            }
            return i;
        }
        i = i + 1;
    }
    proof {
        assert(!container@.contains(item));
    }
    container.push(item);
    container.len() - 1
}

/// Number of sumcheck variables assigned to a subset vector of length
/// `len`: one variable for a single value, else the least `n` with
/// `2^n >= len`. A subset is never empty.
pub open spec fn n_vars_spec(len: nat) -> nat {
    if len == 1 {
        1
    } else {
        nv(len)
    }
}

/// Executable form of `n_vars_spec`.
pub fn n_vars_from_len(len: usize) -> (r: usize)
    requires
        1 <= len <= 0x4000_0000,
    ensures
        r == n_vars_spec(len as nat),
        pow2(r as nat) >= len,
        1 <= r <= 30,
    {
    if len == 1 {
        proof {
            vstd::arithmetic::power2::lemma2_to64();
        }
        1
    } else {
        let r = crate::mle::num_vars(len);
        proof {
            if r == 0 {
                vstd::arithmetic::power2::lemma2_to64();
            }
        }
        r
    }
}

/// Variables assigned to a distance bucket: an empty bucket spans no
/// variables, a non-empty one follows `n_vars_spec`.
pub open spec fn bucket_n_vars(len: nat) -> nat {
    if len == 0 {
        0
    } else {
        n_vars_spec(len)
    }
}

/// A bucket's variable count covers its length.
pub proof fn lemma_bucket_nv_covers(l: nat)
    ensures
        pow2(bucket_n_vars(l)) >= l,
        pow2(n_vars_spec(l)) >= l || l == 0,
{
    if l == 0 {
        vstd::arithmetic::power2::lemma2_to64();
    } else if l == 1 {
        vstd::arithmetic::power2::lemma2_to64();
    } else {
        crate::mle::lemma_nv_covers(l);
    }
}

/// A bounded bucket spans at most thirty variables.
pub proof fn lemma_bucket_nv_le30(l: nat)
    requires
        l <= 0x4000_0000,
    ensures
        bucket_n_vars(l) <= 30,
{
    if l > 1 {
        vstd::arithmetic::power2::lemma2_to64();
        crate::mle::lemma_nv_least(l, 30);
    }
}

/// Executable form of `bucket_n_vars`.
pub fn bucket_n_vars_exec(len: usize) -> (r: usize)
    requires
        len <= 0x4000_0000,
    ensures
        r == bucket_n_vars(len as nat),
        pow2(r as nat) >= len,
        r <= 30,
{
    if len == 0 {
        proof {
            vstd::arithmetic::power2::lemma2_to64();
        }
        0
    } else {
        n_vars_from_len(len)
    }
}

/// A sequence padded with zeros to length `n`.
pub open spec fn pad_vals(s: Seq<int>, n: nat) -> Seq<int> {
    Seq::new(
        n,
        |i: int|
            if i < s.len() {
                s[i]
            } else {
                0
            },
    )
}

/// The product of all entries of a sequence.
pub open spec fn prod_all(s: Seq<int>) -> int
    decreases s.len(),
{
    if s.len() == 0 {
        1
    } else {
        prod_all(s.drop_last()) * s.last()
    }
}

/// The exact value of a bucket of sparse triples at the given points: the
/// sum over its entries of the three eq weights the entry's coordinates
/// pick out of the layer point `rv`, the `b` point `bv` and the `c` point
/// `cv`.
pub open spec fn sparse_sum(
    entries: Seq<(int, int, int)>,
    rv: Seq<int>,
    bv: Seq<int>,
    cv: Seq<int>,
) -> int
    decreases entries.len(),
{
    if entries.len() == 0 {
        0
    } else {
        sparse_sum(entries.drop_last(), rv, bv, cv) + crate::mle::eq_eval(rv, entries.last().0)
            * crate::mle::eq_eval(bv, entries.last().1) * crate::mle::eq_eval(cv, entries.last().2)
    }
}

impl LayerProvingInfo {
    /// Applies the per-distance instructions to the true evaluation table,
    /// extracting the concrete downstream values the instructions name.
    /// Every extracted value equals the table entry its instruction points
    /// at, in instruction order: nothing is fabricated or reordered.
    pub fn extract_subsets(self, evaluations: &Vec<Vec<Fp>>) -> (r: LayerProvingInfoWithSubset)
        requires
            self.layer_id + 1 + self.v_subset_instruction@.len() <= evaluations@.len(),
            forall|d: int, j: int|
                0 <= d < self.v_subset_instruction@.len() && 0 <= j
                    < self.v_subset_instruction@[d]@.len()
                    ==> (#[trigger] self.v_subset_instruction@[d]@[j])
                    < evaluations@[self.layer_id + 1 + d]@.len(),
        ensures
            r.v_subset_instruction == self.v_subset_instruction,
            r.add_subsets == self.add_subsets,
            r.mul_subsets == self.mul_subsets,
            r.v_subsets@.len() == self.v_subset_instruction@.len(),
            forall|d: int|
                0 <= d < r.v_subsets@.len() ==> (#[trigger] r.v_subsets@[d])@.len()
                    == self.v_subset_instruction@[d]@.len(),
            forall|d: int, j: int|
                0 <= d < r.v_subsets@.len() && 0 <= j < r.v_subsets@[d]@.len()
                    ==> (#[trigger] r.v_subsets@[d]@[j]) == evaluations@[self.layer_id + 1
                    + d]@[self.v_subset_instruction@[d]@[j] as int],
    {
        let d_count = self.v_subset_instruction.len();
        let total = evaluations.len();
        proof {
            assert(self.layer_id + 1 + d_count <= total);
        }
        let mut v_subsets: Vec<Vec<Fp>> = Vec::new();
        let mut d: usize = 0;
        while d < d_count
            invariant
                d <= d_count,
                d_count == self.v_subset_instruction@.len(),
                total == evaluations@.len(),
                self.layer_id + 1 + d_count <= total,
                forall|d2: int, j: int|
                    0 <= d2 < d_count && 0 <= j < self.v_subset_instruction@[d2]@.len()
                        ==> (#[trigger] self.v_subset_instruction@[d2]@[j])
                        < evaluations@[self.layer_id + 1 + d2]@.len(),
                v_subsets@.len() == d,
                forall|d2: int|
                    0 <= d2 < d ==> (#[trigger] v_subsets@[d2])@.len()
                        == self.v_subset_instruction@[d2]@.len(),
                forall|d2: int, j: int|
                    0 <= d2 < d && 0 <= j < v_subsets@[d2]@.len()
                        ==> (#[trigger] v_subsets@[d2]@[j]) == evaluations@[self.layer_id + 1
                        + d2]@[self.v_subset_instruction@[d2]@[j] as int],
            decreases d_count - d,
        {
            let inst = &self.v_subset_instruction[d];
            let data = &evaluations[self.layer_id + 1 + d];
            let mut row: Vec<Fp> = Vec::new();
            let mut j: usize = 0;
            while j < inst.len()
                invariant
                    j <= inst@.len(),
                    inst@ == self.v_subset_instruction@[d as int]@,
                    data@ == evaluations@[self.layer_id + 1 + d]@,
                    forall|j2: int| 0 <= j2 < inst@.len() ==> (#[trigger] inst@[j2]) < data@.len(),
                    row@.len() == j,
                    forall|j2: int|
                        0 <= j2 < j ==> (#[trigger] row@[j2]) == data@[inst@[j2] as int],
                decreases inst@.len() - j,
            {
                row.push(data[inst[j]]);
                j = j + 1;
            }
            v_subsets.push(row);
            d = d + 1;
        }
        LayerProvingInfoWithSubset {
            v_subsets,
            v_subset_instruction: self.v_subset_instruction,
            add_subsets: self.add_subsets,
            mul_subsets: self.mul_subsets,
        }
    }
}

/// Memory-efficient evaluation of one sparse bucket once the three points
/// have been expanded into eq tables.
pub(crate) fn eval_sparse_entry(
    sparse_entry: &Vec<[usize; 3]>,
    igz: &Vec<Fp>,
    iux: &Vec<Fp>,
    c_table: &Vec<Fp>,
    Ghost(rv): Ghost<Seq<int>>,
    Ghost(bv): Ghost<Seq<int>>,
    Ghost(cv): Ghost<Seq<int>>,
) -> (r: Fp)
    requires
        igz@.len() == pow2(rv.len()),
        iux@.len() == pow2(bv.len()),
        c_table@.len() == pow2(cv.len()),
        forall|t: int|
            0 <= t < igz@.len() ==> (#[trigger] igz@[t]).val() == crate::mle::eq_eval(rv, t) % (
            P as int),
        forall|t: int|
            0 <= t < iux@.len() ==> (#[trigger] iux@[t]).val() == crate::mle::eq_eval(bv, t) % (
            P as int),
        forall|t: int|
            0 <= t < c_table@.len() ==> (#[trigger] c_table@[t]).val() == crate::mle::eq_eval(cv, t)
                % (P as int),
        forall|j: int|
            0 <= j < sparse_entry@.len() ==> {
                let e = #[trigger] sparse_entry@[j];
                e[0] < igz@.len() && e[1] < iux@.len() && e[2] < c_table@.len()
            },
    ensures
        r.val() == sparse_sum(entries_view(sparse_entry@), rv, bv, cv) % (P as int),
{
    let mut eval = Fp::zero();
    proof {
        crate::field::lemma_small(0);
    }
    let mut j: usize = 0;
    while j < sparse_entry.len()
        invariant
            j <= sparse_entry@.len(),
            igz@.len() == pow2(rv.len()),
            iux@.len() == pow2(bv.len()),
            c_table@.len() == pow2(cv.len()),
            forall|t: int|
                0 <= t < igz@.len() ==> (#[trigger] igz@[t]).val() == crate::mle::eq_eval(rv, t) % (
                P as int),
            forall|t: int|
                0 <= t < iux@.len() ==> (#[trigger] iux@[t]).val() == crate::mle::eq_eval(bv, t) % (
                P as int),
            forall|t: int|
                0 <= t < c_table@.len() ==> (#[trigger] c_table@[t]).val() == crate::mle::eq_eval(
                    cv,
                    t,
                ) % (P as int),
            forall|j2: int|
                0 <= j2 < sparse_entry@.len() ==> {
                    let e = #[trigger] sparse_entry@[j2];
                    e[0] < igz@.len() && e[1] < iux@.len() && e[2] < c_table@.len()
                },
            eval.val() == sparse_sum(
                entries_view(sparse_entry@).take(j as int),
                rv,
                bv,
                cv,
            ) % (P as int),
        decreases sparse_entry@.len() - j,
    {
        let e = sparse_entry[j];
        let term = igz[e[0]].mul(iux[e[1]]).mul(c_table[e[2]]);
        proof {
            let ev = entries_view(sparse_entry@);
            let z = ev[j as int].0;
            let x = ev[j as int].1;
            let y = ev[j as int].2;
            crate::field::cong_mul(
                igz@[z].val(),
                crate::mle::eq_eval(rv, z),
                iux@[x].val(),
                crate::mle::eq_eval(bv, x),
            );
            crate::field::cong_mul(
                igz@[z].val() * iux@[x].val() % (P as int),
                crate::mle::eq_eval(rv, z) * crate::mle::eq_eval(bv, x),
                c_table@[y].val(),
                crate::mle::eq_eval(cv, y),
            );
            crate::field::cong_add(
                eval.val(),
                sparse_sum(ev.take(j as int), rv, bv, cv),
                term.val(),
                crate::mle::eq_eval(rv, z) * crate::mle::eq_eval(bv, x) * crate::mle::eq_eval(
                    cv,
                    y,
                ),
            );
            assert(ev.take(j as int + 1).drop_last() =~= ev.take(j as int));
        }
        eval = eval.add(term);
        j = j + 1;
    }
    proof {
        assert(entries_view(sparse_entry@).take(sparse_entry@.len() as int) =~= entries_view(
            sparse_entry@,
        ));
    }
    eval
}

/// The mathematical content of a subclaim: its point, its claimed value and
/// its index map.
pub open spec fn sub_view(sc: Subclaim) -> (Seq<int>, int, Seq<usize>) {
    (fp_vals(sc.r@), sc.eval.val(), sc.instruction@)
}

/// The views of a sequence of subclaims.
pub open spec fn subs_views(s: Seq<Subclaim>) -> Seq<(Seq<int>, int, Seq<usize>)> {
    s.map_values(|sc: Subclaim| sub_view(sc))
}

/// The sum of eq weights of the first `m` hypercube vertices that the index
/// map sends to position `x`.
pub open spec fn agi_contrib(inst: Seq<usize>, rv: Seq<int>, x: int, m: nat) -> int
    decreases m,
{
    if m == 0 {
        0
    } else {
        agi_contrib(inst, rv, x, (m - 1) as nat) + if inst[m - 1] == x {
            crate::mle::eq_eval(rv, m - 1)
        } else {
            0int
        }
    }
}

/// Entry `x` of the folded indicator vector built from the first `k`
/// subclaims: each subclaim pushes its eq weights forward through its index
/// map, scaled by its random coefficient.
pub open spec fn agi_entry(
    alphas: Seq<int>,
    subs: Seq<(Seq<int>, int, Seq<usize>)>,
    x: int,
    k: nat,
) -> int
    decreases k,
{
    if k == 0 {
        0
    } else {
        agi_entry(alphas, subs, x, (k - 1) as nat) + alphas[k - 1] * agi_contrib(
            subs[k - 1].2,
            subs[k - 1].0,
            x,
            subs[k - 1].2.len(),
        )
    }
}

/// The restriction of vector `v` to the positions of an index map.
pub open spec fn subset_vals(inst: Seq<usize>, v: Seq<int>) -> Seq<int> {
    Seq::new(inst.len(), |t: int| v[inst[t] as int])
}

/// The right-hand side of the folding identity: the coefficient-weighted sum
/// of the first `k` subclaims' honest evaluations.
pub open spec fn fold_rhs(
    alphas: Seq<int>,
    subs: Seq<(Seq<int>, int, Seq<usize>)>,
    v: Seq<int>,
    k: nat,
) -> int
    decreases k,
{
    if k == 0 {
        0
    } else {
        fold_rhs(alphas, subs, v, (k - 1) as nat) + alphas[k - 1] * dot_spec(
            subset_vals(subs[k - 1].2, v),
            crate::mle::eq_seq(subs[k - 1].0),
            subs[k - 1].2.len(),
        )
    }
}

/// The coefficient-weighted sum of given evaluations.
pub open spec fn alpha_eval_sum(alphas: Seq<int>, evals: Seq<int>, k: nat) -> int
    decreases k,
{
    if k == 0 {
        0
    } else {
        alpha_eval_sum(alphas, evals, (k - 1) as nat) + alphas[k - 1] * evals[k - 1]
    }
}

/// Dot products only read the first `k` entries.
proof fn lemma_dot_ext(a1: Seq<int>, b1: Seq<int>, a2: Seq<int>, b2: Seq<int>, k: nat)
    requires
        forall|j: int| 0 <= j < k ==> a1[j] == a2[j] && b1[j] == b2[j],
    ensures
        dot_spec(a1, b1, k) == dot_spec(a2, b2, k),
    decreases k,
{
    if k > 0 {
        lemma_dot_ext(a1, b1, a2, b2, (k - 1) as nat);
    }
}

/// Zero entries at the tail contribute nothing to a dot product.
proof fn lemma_dot_zero_tail(a: Seq<int>, b: Seq<int>, m: nat, k: nat)
    requires
        m <= k,
        forall|j: int| m <= j < k ==> a[j] == 0,
    ensures
        dot_spec(a, b, k) == dot_spec(a, b, m),
    decreases k,
{
    if k > m {
        lemma_dot_zero_tail(a, b, m, (k - 1) as nat);
    }
}

/// Raising one entry of the left table by `delta` raises the dot product by
/// `delta` times the matching entry of the right table.
proof fn lemma_dot_update(a: Seq<int>, b: Seq<int>, x0: int, delta: int, k: nat)
    requires
        0 <= x0 < k,
        k <= a.len(),
    ensures
        dot_spec(a.update(x0, a[x0] + delta), b, k) == dot_spec(a, b, k) + delta * b[x0],
    decreases k,
{
    let upd = a.update(x0, a[x0] + delta);
    if x0 == k - 1 {
        lemma_dot_ext(upd, b, a, b, (k - 1) as nat);
        assert((a[x0] + delta) * b[x0] == a[x0] * b[x0] + delta * b[x0]) by {
            vstd::arithmetic::mul::lemma_mul_is_distributive_add_other_way(
                b[x0],
                a[x0],
                delta,
            );
        }
    } else {
        lemma_dot_update(a, b, x0, delta, (k - 1) as nat);
    }
}

/// Dot products distribute over a pointwise sum of left tables.
proof fn lemma_dot_add(s: Seq<int>, a1: Seq<int>, a2: Seq<int>, b: Seq<int>, k: nat)
    requires
        forall|j: int| 0 <= j < k ==> s[j] == a1[j] + a2[j],
    ensures
        dot_spec(s, b, k) == dot_spec(a1, b, k) + dot_spec(a2, b, k),
    decreases k,
{
    if k > 0 {
        lemma_dot_add(s, a1, a2, b, (k - 1) as nat);
        assert((a1[k - 1] + a2[k - 1]) * b[k - 1] == a1[k - 1] * b[k - 1] + a2[k - 1] * b[
            k - 1
        ]) by {
            vstd::arithmetic::mul::lemma_mul_is_distributive_add_other_way(
                b[k - 1],
                a1[k - 1],
                a2[k - 1],
            );
        }
    }
}

/// Gathering one subclaim's indicator through its index map: summing the
/// pushed-forward eq weights against `v` equals summing the eq weights
/// against the referenced values of `v`.
proof fn lemma_single_gather(
    inst: Seq<usize>,
    rv: Seq<int>,
    v: Seq<int>,
    alpha: int,
    m: nat,
)
    requires
        m <= inst.len(),
        inst.len() <= pow2(rv.len()),
        forall|t: int| 0 <= t < inst.len() ==> (#[trigger] inst[t]) < v.len(),
    ensures
        dot_spec(
            Seq::new(v.len(), |x: int| alpha * agi_contrib(inst, rv, x, m)),
            v,
            v.len(),
        ) == alpha * dot_spec(subset_vals(inst, v), crate::mle::eq_seq(rv), m),
    decreases m,
{
    let table = Seq::new(v.len(), |x: int| alpha * agi_contrib(inst, rv, x, m));
    if m == 0 {
        assert forall|j: int| 0 <= j < v.len() implies table[j] == 0 by {
            assert(agi_contrib(inst, rv, j, 0) == 0);
        }
        lemma_dot_zero_tail(table, v, 0, v.len());
        assert(alpha * 0 == 0) by (nonlinear_arith);
    } else {
        let prev = Seq::new(v.len(), |x: int| alpha * agi_contrib(inst, rv, x, (m - 1) as nat));
        lemma_single_gather(inst, rv, v, alpha, (m - 1) as nat);
        let x0 = inst[m - 1] as int;
        let w = crate::mle::eq_eval(rv, m - 1);
        assert forall|x: int| 0 <= x < v.len() implies table[x] == prev.update(
            x0,
            prev[x0] + alpha * w,
        )[x] by {
            if x == x0 {
                assert(agi_contrib(inst, rv, x, m) == agi_contrib(inst, rv, x, (m - 1) as nat)
                    + w);
                assert(alpha * (agi_contrib(inst, rv, x, (m - 1) as nat) + w) == alpha
                    * agi_contrib(inst, rv, x, (m - 1) as nat) + alpha * w) by {
                    vstd::arithmetic::mul::lemma_mul_is_distributive_add(
                        alpha,
                        agi_contrib(inst, rv, x, (m - 1) as nat),
                        w,
                    );
                }
            } else {
                assert(agi_contrib(inst, rv, x, m) == agi_contrib(inst, rv, x, (m - 1) as nat));
            }
        }
        assert(table =~= prev.update(x0, prev[x0] + alpha * w));
        lemma_dot_update(prev, v, x0, alpha * w, v.len());
        assert(dot_spec(subset_vals(inst, v), crate::mle::eq_seq(rv), m) == dot_spec(
            subset_vals(inst, v),
            crate::mle::eq_seq(rv),
            (m - 1) as nat,
        ) + v[x0] * w) by {
            assert(subset_vals(inst, v)[m - 1] == v[x0]);
            assert(crate::mle::eq_seq(rv)[m - 1] == w || crate::mle::eq_seq(rv).len() <= m - 1);
            if m - 1 < crate::mle::eq_seq(rv).len() {
            }
        }
        assert(alpha * (dot_spec(subset_vals(inst, v), crate::mle::eq_seq(rv), (m - 1) as nat)
            + v[x0] * w) == alpha * dot_spec(
            subset_vals(inst, v),
            crate::mle::eq_seq(rv),
            (m - 1) as nat,
        ) + alpha * (v[x0] * w)) by {
            vstd::arithmetic::mul::lemma_mul_is_distributive_add(
                alpha,
                dot_spec(subset_vals(inst, v), crate::mle::eq_seq(rv), (m - 1) as nat),
                v[x0] * w,
            );
        }
        assert(alpha * w * v[x0] == alpha * (v[x0] * w)) by (nonlinear_arith);
    }
}

/// The folding identity over the indicator tables: the hypercube sum of the
/// folded indicator against `v` equals the coefficient-weighted sum of the
/// subclaims' gathered evaluations.
proof fn lemma_fold_gathered(
    alphas: Seq<int>,
    subs: Seq<(Seq<int>, int, Seq<usize>)>,
    v: Seq<int>,
    k: nat,
)
    requires
        k <= alphas.len(),
        k <= subs.len(),
        forall|j: int, t: int|
            0 <= j < k && 0 <= t < subs[j].2.len() ==> (#[trigger] subs[j].2[t]) < v.len(),
        forall|j: int| 0 <= j < k ==> (#[trigger] subs[j]).2.len() <= pow2(subs[j].0.len()),
    ensures
        dot_spec(Seq::new(v.len(), |x: int| agi_entry(alphas, subs, x, k)), v, v.len())
            == fold_rhs(alphas, subs, v, k),
    decreases k,
{
    let table = Seq::new(v.len(), |x: int| agi_entry(alphas, subs, x, k));
    if k == 0 {
        assert forall|j: int| 0 <= j < v.len() implies table[j] == 0 by {
            assert(agi_entry(alphas, subs, j, 0) == 0);
        }
        lemma_dot_zero_tail(table, v, 0, v.len());
    } else {
        let prev = Seq::new(v.len(), |x: int| agi_entry(alphas, subs, x, (k - 1) as nat));
        let inst = subs[k - 1].2;
        let rv = subs[k - 1].0;
        let single = Seq::new(
            v.len(),
            |x: int| alphas[k - 1] * agi_contrib(inst, rv, x, inst.len()),
        );
        lemma_fold_gathered(alphas, subs, v, (k - 1) as nat);
        lemma_single_gather(inst, rv, v, alphas[k - 1], inst.len());
        lemma_dot_add(table, prev, single, v, v.len());
    }
}

/// Fold correctness: for subclaims whose evaluations are the honest
/// multilinear evaluations of the padded referenced subsets of `v`, the
/// hypercube sum of the folded indicator vector against `v` equals the
/// coefficient-weighted sum of the evaluations, for every choice of the
/// coefficients.
pub proof fn lemma_fold_correctness(
    alphas: Seq<int>,
    subs: Seq<(Seq<int>, int, Seq<usize>)>,
    v: Seq<int>,
    evals: Seq<int>,
)
    requires
        alphas.len() == subs.len(),
        evals.len() == subs.len(),
        forall|j: int, t: int|
            0 <= j < subs.len() && 0 <= t < subs[j].2.len() ==> (#[trigger] subs[j].2[t])
                < v.len(),
        forall|j: int| 0 <= j < subs.len() ==> (#[trigger] subs[j]).2.len() <= pow2(subs[j].0.len()),
        forall|j: int|
            0 <= j < subs.len() ==> (#[trigger] evals[j]) == crate::mle::mle_spec(
                pad_vals(subset_vals(subs[j].2, v), pow2(subs[j].0.len())),
                subs[j].0,
            ),
    ensures
        dot_spec(
            Seq::new(v.len(), |x: int| agi_entry(alphas, subs, x, subs.len())),
            v,
            v.len(),
        ) == alpha_eval_sum(alphas, evals, subs.len()),
{
    lemma_fold_gathered(alphas, subs, v, subs.len());
    lemma_fold_rhs_is_alpha_sum(alphas, subs, v, evals, subs.len());
}

/// Each gathered evaluation is the honest padded-subset MLE evaluation.
proof fn lemma_fold_rhs_is_alpha_sum(
    alphas: Seq<int>,
    subs: Seq<(Seq<int>, int, Seq<usize>)>,
    v: Seq<int>,
    evals: Seq<int>,
    k: nat,
)
    requires
        k <= alphas.len(),
        k <= subs.len(),
        k <= evals.len(),
        forall|j: int, t: int|
            0 <= j < subs.len() && 0 <= t < subs[j].2.len() ==> (#[trigger] subs[j].2[t])
                < v.len(),
        forall|j: int| 0 <= j < subs.len() ==> (#[trigger] subs[j]).2.len() <= pow2(subs[j].0.len()),
        forall|j: int|
            0 <= j < subs.len() ==> (#[trigger] evals[j]) == crate::mle::mle_spec(
                pad_vals(subset_vals(subs[j].2, v), pow2(subs[j].0.len())),
                subs[j].0,
            ),
    ensures
        fold_rhs(alphas, subs, v, k) == alpha_eval_sum(alphas, evals, k),
    decreases k,
{
    if k > 0 {
        lemma_fold_rhs_is_alpha_sum(alphas, subs, v, evals, (k - 1) as nat);
        let inst = subs[k - 1].2;
        let rv = subs[k - 1].0;
        let sv = subset_vals(inst, v);
        let n = pow2(rv.len());
        let padded = pad_vals(sv, n);
        assert(forall|j: int| inst.len() <= j < n ==> (#[trigger] padded[j]) == 0);
        lemma_dot_zero_tail(padded, crate::mle::eq_seq(rv), inst.len(), n);
        lemma_dot_ext(padded, crate::mle::eq_seq(rv), sv, crate::mle::eq_seq(rv), inst.len());
    }
}

/// Builds the folded indicator vector: for each subclaim, its eq weights are
/// pushed forward through its index map into the coordinate space of the
/// target vector, scaled by the subclaim's coefficient.
pub fn build_agi(alphas: &Vec<Fp>, subclaims: &Vec<Subclaim>, table_length: usize) -> (r: Vec<Fp>)
    requires
        alphas@.len() == subclaims@.len(),
        forall|j: int, t: int|
            0 <= j < subclaims@.len() && 0 <= t < subclaims@[j].instruction@.len()
                ==> (#[trigger] subclaims@[j].instruction@[t]) < table_length,
        forall|j: int|
            0 <= j < subclaims@.len() ==> (#[trigger] subclaims@[j]).instruction@.len() <= pow2(
                subclaims@[j].r@.len(),
            ),
        forall|j: int| 0 <= j < subclaims@.len() ==> (#[trigger] subclaims@[j]).r@.len() <= 30,
    ensures
        r@.len() == table_length,
        forall|x: int|
            0 <= x < table_length ==> (#[trigger] r@[x]).val() == agi_entry(
                fp_vals(alphas@),
                subs_views(subclaims@),
                x,
                subclaims@.len(),
            ) % (P as int),
{
    let ghost av = fp_vals(alphas@);
    let ghost svw = subs_views(subclaims@);
    let mut res: Vec<Fp> = Vec::new();
    while res.len() < table_length
        invariant
            res@.len() <= table_length,
            forall|x: int| 0 <= x < res@.len() ==> (#[trigger] res@[x]).val() == 0,
        decreases table_length - res@.len(),
    {
        res.push(Fp::zero());
    }
    proof {
        crate::field::lemma_small(0);
        assert forall|x: int| 0 <= x < table_length implies (#[trigger] res@[x]).val() == agi_entry(
            av,
            svw,
            x,
            0,
        ) % (P as int) by {
            assert(agi_entry(av, svw, x, 0) == 0);
        }
    }
    let mut k: usize = 0;
    while k < subclaims.len()
        invariant
            k <= subclaims@.len(),
            av == fp_vals(alphas@),
            svw == subs_views(subclaims@),
            alphas@.len() == subclaims@.len(),
            forall|j: int, t: int|
                0 <= j < subclaims@.len() && 0 <= t < subclaims@[j].instruction@.len()
                    ==> (#[trigger] subclaims@[j].instruction@[t]) < table_length,
            forall|j: int|
                0 <= j < subclaims@.len() ==> (#[trigger] subclaims@[j]).instruction@.len()
                    <= pow2(subclaims@[j].r@.len()),
            forall|j: int| 0 <= j < subclaims@.len() ==> (#[trigger] subclaims@[j]).r@.len() <= 30,
            res@.len() == table_length,
            forall|x: int|
                0 <= x < table_length ==> (#[trigger] res@[x]).val() == agi_entry(
                    av,
                    svw,
                    x,
                    k as nat,
                ) % (P as int),
        decreases subclaims@.len() - k,
    {
        let subclaim = &subclaims[k];
        let igz = crate::mle::generate_eq(&subclaim.r);
        let alpha = alphas[k];
        let ghost rv = fp_vals(subclaim.r@);
        let ghost inst = subclaim.instruction@;
        proof {
            use_type_invariant(alpha);
            crate::field::lemma_inv(alpha);
        }
        let mut t: usize = 0;
        while t < subclaim.instruction.len()
            invariant
                t <= inst.len(),
                inst == subclaim.instruction@,
                rv == fp_vals(subclaim.r@),
                subclaim == &subclaims@[k as int],
                svw == subs_views(subclaims@),
                svw[k as int] == (rv, subclaim.eval.val(), inst),
                k < subclaims@.len(),
                alphas@.len() == subclaims@.len(),
                av == fp_vals(alphas@),
                alpha == alphas@[k as int],
                0 <= alpha.val() < P as int,
                alpha.val() % (P as int) == alpha.val(),
                inst.len() <= pow2(rv.len()),
                igz@.len() == pow2(rv.len()),
                forall|u: int|
                    0 <= u < igz@.len() ==> (#[trigger] igz@[u]).val() == crate::mle::eq_eval(
                        rv,
                        u,
                    ) % (P as int),
                forall|t2: int| 0 <= t2 < inst.len() ==> (#[trigger] inst[t2]) < table_length,
                res@.len() == table_length,
                forall|x: int|
                    0 <= x < table_length ==> (#[trigger] res@[x]).val() == (agi_entry(
                        av,
                        svw,
                        x,
                        k as nat,
                    ) + av[k as int] * agi_contrib(inst, rv, x, t as nat)) % (P as int),
            decreases inst.len() - t,
        {
            let x = subclaim.instruction[t];
            let weighted = alpha.mul(igz[t]);
            let updated = res[x].add(weighted);
            proof {
                let w = crate::mle::eq_eval(rv, t as int);
                crate::field::cong_mul(alpha.val(), alpha.val(), igz@[t as int].val(), w);
                crate::field::cong_add(
                    res@[x as int].val(),
                    agi_entry(av, svw, x as int, k as nat) + av[k as int] * agi_contrib(
                        inst,
                        rv,
                        x as int,
                        t as nat,
                    ),
                    weighted.val(),
                    alpha.val() * w,
                );
                assert(av[k as int] == alpha.val());
                assert forall|x2: int| 0 <= x2 < table_length implies (agi_entry(
                    av,
                    svw,
                    x2,
                    k as nat,
                ) + av[k as int] * agi_contrib(inst, rv, x2, (t + 1) as nat)) == (agi_entry(
                    av,
                    svw,
                    x2,
                    k as nat,
                ) + av[k as int] * agi_contrib(inst, rv, x2, t as nat)) + (if x2 == x as int {
                    av[k as int] * w
                } else {
                    0int
                }) by {
                    if x2 == x as int {
                        assert(agi_contrib(inst, rv, x2, (t + 1) as nat) == agi_contrib(
                            inst,
                            rv,
                            x2,
                            t as nat,
                        ) + w);
                        vstd::arithmetic::mul::lemma_mul_is_distributive_add(
                            av[k as int],
                            agi_contrib(inst, rv, x2, t as nat),
                            w,
                        );
                    } else {
                        assert(agi_contrib(inst, rv, x2, (t + 1) as nat) == agi_contrib(
                            inst,
                            rv,
                            x2,
                            t as nat,
                        ));
                    }
                }
            }
            res.set(x, updated);
            t = t + 1;
        }
        proof {
            assert forall|x: int| 0 <= x < table_length implies (#[trigger] res@[x]).val()
                == agi_entry(av, svw, x, (k + 1) as nat) % (P as int) by {
                assert(agi_entry(av, svw, x, (k + 1) as nat) == agi_entry(
                    av,
                    svw,
                    x,
                    k as nat,
                ) + av[k as int] * agi_contrib(inst, rv, x, inst.len()));
            }
        }
        k = k + 1;
    }
    res
}

/// The term one distance bucket contributes to the layer equation at the
/// final sumcheck point: the floating product of the `c` challenges past the
/// bucket's own variables, times the add and mul indicator evaluations
/// combined with the two downstream hints.
pub open spec fn bucket_term(
    adds_d: Seq<(int, int, int)>,
    muls_d: Seq<(int, int, int)>,
    rv: Seq<int>,
    bv: Seq<int>,
    cv: Seq<int>,
    n_d: nat,
    h0: int,
    hd: int,
) -> int {
    prod_all(cv.skip(n_d as int)) * (sparse_sum(adds_d, rv, bv, cv.take(n_d as int)) * (h0 + hd)
        + sparse_sum(muls_d, rv, bv, cv.take(n_d as int)) * h0 * hd)
}

/// The sum of the first `d` bucket terms.
pub open spec fn layer_eval_sum(
    inst: Seq<Seq<usize>>,
    adds: Seq<Seq<(int, int, int)>>,
    muls: Seq<Seq<(int, int, int)>>,
    rv: Seq<int>,
    bv: Seq<int>,
    cv: Seq<int>,
    hv: Seq<int>,
    d: nat,
) -> int
    decreases d,
{
    if d == 0 {
        0
    } else {
        layer_eval_sum(inst, adds, muls, rv, bv, cv, hv, (d - 1) as nat) + bucket_term(
            adds[d - 1],
            muls[d - 1],
            rv,
            bv,
            cv,
            bucket_n_vars(inst[d - 1].len()),
            hv[0],
            hv[d as int],
        )
    }
}

/// The layer equation evaluated with prover-supplied hints in place of the
/// downstream vectors: the verifier's oracle check compares the sumcheck's
/// final claim against this value.
pub open spec fn layer_eval_formula(
    inst: Seq<Seq<usize>>,
    adds: Seq<Seq<(int, int, int)>>,
    muls: Seq<Seq<(int, int, int)>>,
    rv: Seq<int>,
    hv: Seq<int>,
    bcv: Seq<int>,
) -> int {
    let nb = bucket_n_vars(inst[0].len());
    layer_eval_sum(
        inst,
        adds,
        muls,
        rv,
        bcv.take(nb as int),
        bcv.skip(nb as int),
        hv,
        inst.len(),
    )
}

/// Shape and bound conditions under which a proving info can be evaluated
/// against points of the given lengths.
pub open spec fn info_shape_wf(
    inst: Seq<Seq<usize>>,
    adds: Seq<Seq<(int, int, int)>>,
    muls: Seq<Seq<(int, int, int)>>,
    r_len: nat,
    bc_len: nat,
) -> bool {
    &&& inst.len() >= 1
    &&& adds.len() == inst.len()
    &&& muls.len() == inst.len()
    &&& forall|d: int| 0 <= d < inst.len() ==> (#[trigger] inst[d]).len() <= 0x4000_0000
    &&& forall|d: int|
        0 <= d < inst.len() ==> bucket_n_vars(inst[0].len()) + bucket_n_vars(
            (#[trigger] inst[d]).len(),
        ) <= bc_len
    &&& forall|d: int, j: int|
        0 <= d < adds.len() && 0 <= j < adds[d].len() ==> {
            let e = #[trigger] adds[d][j];
            &&& 0 <= e.0 < pow2(r_len)
            &&& 0 <= e.1 < pow2(bucket_n_vars(inst[0].len()))
            &&& 0 <= e.2 < pow2(bucket_n_vars(inst[d].len()))
        }
    &&& forall|d: int, j: int|
        0 <= d < muls.len() && 0 <= j < muls[d].len() ==> {
            let e = #[trigger] muls[d][j];
            &&& 0 <= e.0 < pow2(r_len)
            &&& 0 <= e.1 < pow2(bucket_n_vars(inst[0].len()))
            &&& 0 <= e.2 < pow2(bucket_n_vars(inst[d].len()))
        }
}

impl LayerProvingInfo {
    /// Evaluates the layer equation with the given hints standing in for
    /// the downstream subset evaluations, at the claimed point `eval_point`
    /// and the sumcheck challenge point `b_c_points`.
    #[verifier::rlimit(100)]
    pub fn eval(&self, eval_point: &Vec<Fp>, hints: &Vec<Fp>, b_c_points: &Vec<Fp>) -> (r: Fp)
        requires
            info_shape_wf(
                insts_view(self.v_subset_instruction@),
                buckets_view(self.add_subsets@),
                buckets_view(self.mul_subsets@),
                eval_point@.len(),
                b_c_points@.len(),
            ),
            hints@.len() == self.v_subset_instruction@.len() + 1,
            eval_point@.len() <= 30,
        ensures
            r.val() == layer_eval_formula(
                insts_view(self.v_subset_instruction@),
                buckets_view(self.add_subsets@),
                buckets_view(self.mul_subsets@),
                fp_vals(eval_point@),
                fp_vals(hints@),
                fp_vals(b_c_points@),
            ) % (P as int),
    {
        let ghost instv = insts_view(self.v_subset_instruction@);
        let ghost addsv = buckets_view(self.add_subsets@);
        let ghost mulsv = buckets_view(self.mul_subsets@);
        let ghost rv = fp_vals(eval_point@);
        let ghost hv = fp_vals(hints@);
        let ghost bcv = fp_vals(b_c_points@);
        crate::field::note_reduced(hints);
        crate::field::note_reduced(b_c_points);
        proof {
            assert forall|d2: int| 0 <= d2 < instv.len() implies instv[d2]
                == self.v_subset_instruction@[d2]@ by {}
            assert(bucket_n_vars(instv[0].len()) + bucket_n_vars(instv[0].len())
                <= b_c_points@.len());
        }
        let d_count = self.v_subset_instruction.len();
        let n_b = bucket_n_vars_exec(self.v_subset_instruction[0].len());
        let b_points = crate::mle::copy_range(b_c_points, 0, n_b);
        let c_points = crate::mle::copy_range(b_c_points, n_b, b_c_points.len());
        proof {
            assert(fp_vals(b_points@) =~= bcv.take(n_b as int));
            assert(fp_vals(c_points@) =~= bcv.skip(n_b as int));
        }
        let ghost bv = bcv.take(n_b as int);
        let ghost cv = bcv.skip(n_b as int);
        let igz = crate::mle::generate_eq(eval_point);
        let iux = crate::mle::generate_eq(&b_points);
        let mut evaluation = Fp::zero();
        proof {
            crate::field::lemma_small(0);
        }
        let mut d: usize = 0;
        while d < d_count
            invariant
                d <= d_count,
                d_count == self.v_subset_instruction@.len(),
                instv == insts_view(self.v_subset_instruction@),
                addsv == buckets_view(self.add_subsets@),
                mulsv == buckets_view(self.mul_subsets@),
                rv == fp_vals(eval_point@),
                hv == fp_vals(hints@),
                bcv == fp_vals(b_c_points@),
                bv == bcv.take(n_b as int),
                cv == bcv.skip(n_b as int),
                n_b == bucket_n_vars(instv[0].len()),
                info_shape_wf(instv, addsv, mulsv, eval_point@.len(), b_c_points@.len()),
                hints@.len() == d_count + 1,
                crate::field::all_reduced(hints@),
                crate::field::all_reduced(b_c_points@),
                fp_vals(b_points@) == bv,
                fp_vals(c_points@) == cv,
                b_points@.len() == n_b,
                c_points@.len() == b_c_points@.len() - n_b,
                igz@.len() == pow2(eval_point@.len()),
                forall|t: int|
                    0 <= t < igz@.len() ==> (#[trigger] igz@[t]).val() == crate::mle::eq_eval(
                        rv,
                        t,
                    ) % (P as int),
                iux@.len() == pow2(n_b as nat),
                forall|t: int|
                    0 <= t < iux@.len() ==> (#[trigger] iux@[t]).val() == crate::mle::eq_eval(
                        bv,
                        t,
                    ) % (P as int),
                evaluation.val() == layer_eval_sum(
                    instv,
                    addsv,
                    mulsv,
                    rv,
                    bv,
                    cv,
                    hv,
                    d as nat,
                ) % (P as int),
            decreases d_count - d,
        {
            proof {
                assert(instv[d as int] == self.v_subset_instruction@[d as int]@);
            }
            let n_d = bucket_n_vars_exec(self.v_subset_instruction[d].len());
            proof {
                assert(n_b + n_d <= c_points@.len() + n_b);
            }
            let cd = crate::mle::copy_range(&c_points, 0, n_d);
            proof {
                assert(fp_vals(cd@) =~= cv.take(n_d as int));
            }
            let c_table = crate::mle::generate_eq(&cd);
            let mut floating_prod = Fp::one();
            proof {
                crate::field::lemma_small(1);
                assert(cv.subrange(n_d as int, n_d as int) =~= Seq::<int>::empty());
            }
            let mut j: usize = n_d;
            while j < c_points.len()
                invariant
                    n_d <= j <= c_points@.len(),
                    cv == fp_vals(c_points@),
                    crate::field::all_reduced(b_c_points@),
                    fp_vals(c_points@) == bcv.skip(n_b as int),
                    bcv == fp_vals(b_c_points@),
                    floating_prod.val() == prod_all(cv.subrange(n_d as int, j as int)) % (
                    P as int),
                decreases c_points@.len() - j,
            {
                let x = c_points[j];
                proof {
                    use_type_invariant(x);
                    crate::field::lemma_inv(x);
                    crate::field::cong_mul(
                        floating_prod.val(),
                        prod_all(cv.subrange(n_d as int, j as int)),
                        x.val(),
                        x.val(),
                    );
                    assert(cv.subrange(n_d as int, j as int + 1).drop_last() =~= cv.subrange(
                        n_d as int,
                        j as int,
                    ));
                }
                floating_prod = floating_prod.mul(x);
                j = j + 1;
            }
            proof {
                assert(cv.subrange(n_d as int, c_points@.len() as int) =~= cv.skip(n_d as int));
            }
            proof {
                assert(addsv[d as int] == entries_view(self.add_subsets@[d as int]@));
                assert(mulsv[d as int] == entries_view(self.mul_subsets@[d as int]@));
                assert forall|j2: int| 0 <= j2 < self.add_subsets@[d as int]@.len() implies {
                    let e = #[trigger] self.add_subsets@[d as int]@[j2];
                    e[0] < igz@.len() && e[1] < iux@.len() && e[2] < c_table@.len()
                } by {
                    let ev = addsv[d as int][j2];
                    assert(ev.0 < pow2(eval_point@.len()) && ev.1 < pow2(
                        bucket_n_vars(instv[0].len()),
                    ) && ev.2 < pow2(bucket_n_vars(instv[d as int].len())));
                }
                assert forall|j2: int| 0 <= j2 < self.mul_subsets@[d as int]@.len() implies {
                    let e = #[trigger] self.mul_subsets@[d as int]@[j2];
                    e[0] < igz@.len() && e[1] < iux@.len() && e[2] < c_table@.len()
                } by {
                    let ev = mulsv[d as int][j2];
                    assert(ev.0 < pow2(eval_point@.len()) && ev.1 < pow2(
                        bucket_n_vars(instv[0].len()),
                    ) && ev.2 < pow2(bucket_n_vars(instv[d as int].len())));
                }
            }
            let add_eval = eval_sparse_entry(
                &self.add_subsets[d],
                &igz,
                &iux,
                &c_table,
                Ghost(rv),
                Ghost(bv),
                Ghost(cv.take(n_d as int)),
            );
            let mul_eval = eval_sparse_entry(
                &self.mul_subsets[d],
                &igz,
                &iux,
                &c_table,
                Ghost(rv),
                Ghost(bv),
                Ghost(cv.take(n_d as int)),
            );
            let h0 = hints[0];
            let hd = hints[d + 1];
            let hint_sum = h0.add(hd);
            let add_part = add_eval.mul(hint_sum);
            let mul_h0 = mul_eval.mul(h0);
            let mul_part = mul_h0.mul(hd);
            let inner = add_part.add(mul_part);
            let term = floating_prod.mul(inner);
            proof {
                let av = addsv[d as int];
                let mv = mulsv[d as int];
                let cvd = cv.take(n_d as int);
                let a_sum = sparse_sum(av, rv, bv, cvd);
                let m_sum = sparse_sum(mv, rv, bv, cvd);
                assert(entries_view(self.add_subsets@[d as int]@) == av);
                assert(entries_view(self.mul_subsets@[d as int]@) == mv);
                assert(hv[0] == h0.val() && hv[d + 1] == hd.val());
                crate::field::lemma_small(h0.val());
                crate::field::lemma_small(hd.val());
                crate::field::cong_mul(add_eval.val(), a_sum, hint_sum.val(), hv[0] + hv[d + 1]);
                crate::field::cong_mul(mul_eval.val(), m_sum, h0.val(), hv[0]);
                crate::field::cong_mul(mul_h0.val(), m_sum * hv[0], hd.val(), hv[d + 1]);
                crate::field::cong_add(
                    add_part.val(),
                    a_sum * (hv[0] + hv[d + 1]),
                    mul_part.val(),
                    m_sum * hv[0] * hv[d + 1],
                );
                crate::field::cong_mul(
                    floating_prod.val(),
                    prod_all(cv.skip(n_d as int)),
                    inner.val(),
                    a_sum * (hv[0] + hv[d + 1]) + m_sum * hv[0] * hv[d + 1],
                );
                crate::field::cong_add(
                    evaluation.val(),
                    layer_eval_sum(instv, addsv, mulsv, rv, bv, cv, hv, d as nat),
                    term.val(),
                    bucket_term(av, mv, rv, bv, cv, n_d as nat, hv[0], hv[d + 1]),
                );
                assert(layer_eval_sum(instv, addsv, mulsv, rv, bv, cv, hv, (d + 1) as nat)
                    == layer_eval_sum(instv, addsv, mulsv, rv, bv, cv, hv, d as nat)
                    + bucket_term(av, mv, rv, bv, cv, n_d as nat, hv[0], hv[d + 1]));
            }
            evaluation = evaluation.add(term);
            d = d + 1;
        }
        evaluation
    }

    /// Reconstructs, from the circuit-derived instructions and the prover's
    /// hints, the subclaims the sumcheck's challenge point gives rise to:
    /// one claim on the adjacent layer's subset at the `b` point, then one
    /// claim per distance bucket at that bucket's prefix of the `c` point.
    pub fn hints_to_subclaims(&self, hints: &Vec<Fp>, b_c_points: &Vec<Fp>) -> (r: Vec<Subclaim>)
        requires
            self.v_subset_instruction@.len() >= 1,
            hints@.len() == self.v_subset_instruction@.len() + 1,
            forall|d: int|
                0 <= d < self.v_subset_instruction@.len()
                    ==> (#[trigger] self.v_subset_instruction@[d])@.len() <= 0x4000_0000,
            forall|d: int|
                0 <= d < self.v_subset_instruction@.len() ==> bucket_n_vars(
                    self.v_subset_instruction@[0]@.len(),
                ) + bucket_n_vars((#[trigger] self.v_subset_instruction@[d])@.len())
                    <= b_c_points@.len(),
        ensures
            r@.len() == self.v_subset_instruction@.len() + 1,
            r@[0].r@ == b_c_points@.take(
                bucket_n_vars(self.v_subset_instruction@[0]@.len()) as int,
            ),
            r@[0].eval == hints@[0],
            r@[0].instruction@ == self.v_subset_instruction@[0]@,
            forall|d: int|
                #![trigger r@[d + 1]]
                0 <= d < self.v_subset_instruction@.len() ==> {
                    &&& r@[d + 1].r@ == b_c_points@.subrange(
                        bucket_n_vars(self.v_subset_instruction@[0]@.len()) as int,
                        bucket_n_vars(self.v_subset_instruction@[0]@.len()) as int
                            + bucket_n_vars(self.v_subset_instruction@[d]@.len()) as int,
                    )
                    &&& r@[d + 1].eval == hints@[d + 1]
                    &&& r@[d + 1].instruction@ == self.v_subset_instruction@[d]@
                },
    {
        let d_count = self.v_subset_instruction.len();
        let n_b = bucket_n_vars_exec(self.v_subset_instruction[0].len());
        let b_points = crate::mle::copy_range(b_c_points, 0, n_b);
        let b_subclaim = Subclaim::new(
            b_points,
            hints[0],
            crate::mle::copy_usizes(&self.v_subset_instruction[0]),
        );
        let mut r: Vec<Subclaim> = Vec::new();
        r.push(b_subclaim);
        let mut d: usize = 0;
        while d < d_count
            invariant
                d <= d_count,
                d_count == self.v_subset_instruction@.len(),
                d_count >= 1,
                hints@.len() == d_count + 1,
                n_b == bucket_n_vars(self.v_subset_instruction@[0]@.len()),
                n_b <= 30,
                forall|d2: int|
                    0 <= d2 < d_count ==> (#[trigger] self.v_subset_instruction@[d2])@.len()
                        <= 0x4000_0000,
                forall|d2: int|
                    0 <= d2 < d_count ==> n_b + bucket_n_vars(
                        (#[trigger] self.v_subset_instruction@[d2])@.len(),
                    ) <= b_c_points@.len(),
                r@.len() == d + 1,
                r@[0].r@ == b_c_points@.take(n_b as int),
                r@[0].eval == hints@[0],
                r@[0].instruction@ == self.v_subset_instruction@[0]@,
                forall|d2: int|
                    #![trigger r@[d2 + 1]]
                    0 <= d2 < d ==> {
                        &&& r@[d2 + 1].r@ == b_c_points@.subrange(
                            n_b as int,
                            n_b + bucket_n_vars(self.v_subset_instruction@[d2]@.len()) as int,
                        )
                        &&& r@[d2 + 1].eval == hints@[d2 + 1]
                        &&& r@[d2 + 1].instruction@ == self.v_subset_instruction@[d2]@
                    },
            decreases d_count - d,
        {
            let n_d = bucket_n_vars_exec(self.v_subset_instruction[d].len());
            let points = crate::mle::copy_range(b_c_points, n_b, n_b + n_d);
            r.push(
                Subclaim::new(
                    points,
                    hints[d + 1],
                    crate::mle::copy_usizes(&self.v_subset_instruction[d]),
                ),
            );
            d = d + 1;
        }
        r
    }
}

impl LayerProvingInfoWithSubset {
    /// Evaluates every extracted subset's padded multilinear extension at
    /// its share of the challenge point: the `b` subset at the leading
    /// variables, then each distance bucket at its prefix of the rest.
    pub fn eval_subsets(&self, eval_point: &Vec<Fp>) -> (r: Vec<Subclaim>)
        requires
            self.v_subsets@.len() >= 1,
            self.v_subset_instruction@.len() == self.v_subsets@.len(),
            forall|d: int|
                0 <= d < self.v_subsets@.len() ==> (#[trigger] self.v_subsets@[d])@.len()
                    <= 0x4000_0000,
            forall|d: int|
                0 <= d < self.v_subsets@.len() ==> bucket_n_vars(self.v_subsets@[0]@.len())
                    + bucket_n_vars((#[trigger] self.v_subsets@[d])@.len()) <= eval_point@.len(),
        ensures
            r@.len() == self.v_subsets@.len() + 1,
            ({
                let nb = bucket_n_vars(self.v_subsets@[0]@.len()) as int;
                &&& r@[0].r@ == eval_point@.take(nb)
                &&& r@[0].instruction@ == self.v_subset_instruction@[0]@
                &&& r@[0].eval.val() == crate::mle::mle_spec(
                    pad_vals(fp_vals(self.v_subsets@[0]@), pow2(nb as nat)),
                    fp_vals(eval_point@.take(nb)),
                ) % (P as int)
            }),
            forall|d: int|
                #![trigger r@[d + 1]]
                0 <= d < self.v_subsets@.len() ==> {
                    &&& r@[d + 1].r@ == eval_point@.subrange(
                        bucket_n_vars(self.v_subsets@[0]@.len()) as int,
                        bucket_n_vars(self.v_subsets@[0]@.len()) as int + bucket_n_vars(
                            self.v_subsets@[d]@.len(),
                        ) as int,
                    )
                    &&& r@[d + 1].instruction@ == self.v_subset_instruction@[d]@
                    &&& r@[d + 1].eval.val() == crate::mle::mle_spec(
                        pad_vals(
                            fp_vals(self.v_subsets@[d]@),
                            pow2(bucket_n_vars(self.v_subsets@[d]@.len())),
                        ),
                        fp_vals(
                            eval_point@.subrange(
                                bucket_n_vars(self.v_subsets@[0]@.len()) as int,
                                bucket_n_vars(self.v_subsets@[0]@.len()) as int + bucket_n_vars(
                                    self.v_subsets@[d]@.len(),
                                ) as int,
                            ),
                        ),
                    ) % (P as int)
                },
    {
        let d_count = self.v_subsets.len();
        let n_b = bucket_n_vars_exec(self.v_subsets[0].len());
        let b_points = crate::mle::copy_range(eval_point, 0, n_b);
        let b_padded = crate::mle::pad_to(&self.v_subsets[0], crate::mle::pow2_exec(n_b));
        proof {
            assert(fp_vals(b_padded@) =~= pad_vals(fp_vals(self.v_subsets@[0]@), pow2(n_b as nat)))
                by {
                assert forall|i: int|
                    self.v_subsets@[0]@.len() <= i < b_padded@.len() implies fp_vals(b_padded@)[i]
                    == 0 by {}
            }
        }
        let b_eval = crate::mle::mle_evaluate(&b_padded, &b_points);
        let b_subclaim = Subclaim::new(
            b_points,
            b_eval,
            crate::mle::copy_usizes(&self.v_subset_instruction[0]),
        );
        let mut r: Vec<Subclaim> = Vec::new();
        r.push(b_subclaim);
        let mut d: usize = 0;
        while d < d_count
            invariant
                d <= d_count,
                d_count == self.v_subsets@.len(),
                d_count >= 1,
                self.v_subset_instruction@.len() == d_count,
                n_b == bucket_n_vars(self.v_subsets@[0]@.len()),
                n_b <= 30,
                forall|d2: int|
                    0 <= d2 < d_count ==> (#[trigger] self.v_subsets@[d2])@.len() <= 0x4000_0000,
                forall|d2: int|
                    0 <= d2 < d_count ==> n_b + bucket_n_vars(
                        (#[trigger] self.v_subsets@[d2])@.len(),
                    ) <= eval_point@.len(),
                r@.len() == d + 1,
                r@[0].r@ == eval_point@.take(n_b as int),
                r@[0].instruction@ == self.v_subset_instruction@[0]@,
                r@[0].eval.val() == crate::mle::mle_spec(
                    pad_vals(fp_vals(self.v_subsets@[0]@), pow2(n_b as nat)),
                    fp_vals(eval_point@.take(n_b as int)),
                ) % (P as int),
                forall|d2: int|
                    #![trigger r@[d2 + 1]]
                    0 <= d2 < d ==> {
                        &&& r@[d2 + 1].r@ == eval_point@.subrange(
                            n_b as int,
                            n_b + bucket_n_vars(self.v_subsets@[d2]@.len()) as int,
                        )
                        &&& r@[d2 + 1].instruction@ == self.v_subset_instruction@[d2]@
                        &&& r@[d2 + 1].eval.val() == crate::mle::mle_spec(
                            pad_vals(
                                fp_vals(self.v_subsets@[d2]@),
                                pow2(bucket_n_vars(self.v_subsets@[d2]@.len())),
                            ),
                            fp_vals(
                                eval_point@.subrange(
                                    n_b as int,
                                    n_b + bucket_n_vars(self.v_subsets@[d2]@.len()) as int,
                                ),
                            ),
                        ) % (P as int)
                    },
            decreases d_count - d,
        {
            let n_d = bucket_n_vars_exec(self.v_subsets[d].len());
            let points = crate::mle::copy_range(eval_point, n_b, n_b + n_d);
            let padded = crate::mle::pad_to(&self.v_subsets[d], crate::mle::pow2_exec(n_d));
            proof {
                assert(fp_vals(padded@) =~= pad_vals(
                    fp_vals(self.v_subsets@[d as int]@),
                    pow2(n_d as nat),
                ));
            }
            let ev = crate::mle::mle_evaluate(&padded, &points);
            r.push(
                Subclaim::new(points, ev, crate::mle::copy_usizes(&self.v_subset_instruction[d])),
            );
            d = d + 1;
        }
        r
    }
}

/// The folded indicator vector as stored: each entry reduced.
pub open spec fn agi_table(
    av: Seq<int>,
    subs: Seq<(Seq<int>, int, Seq<usize>)>,
    table_len: nat,
) -> Seq<int> {
    Seq::new(table_len, |x: int| agi_entry(av, subs, x, subs.len()) % (P as int))
}

/// The round messages of the folding sumcheck: one product pair, the folded
/// indicator against the target vector, both zero-padded to a power of two.
pub open spec fn folding_msgs(av: Seq<int>, subs: Seq<(Seq<int>, int, Seq<usize>)>, viv: Seq<int>, s: int) -> Seq<
    (int, int, int),
> {
    let n = crate::mle::nv(viv.len());
    crate::engine::rounds_msgs(
        Seq::empty(),
        seq![crate::sumcheck::phase_one::reduce_pad(agi_table(av, subs, viv.len()), pow2(n))],
        seq![crate::sumcheck::phase_one::reduce_pad(viv, pow2(n))],
        s,
        (pow2(n) / 2) as nat,
        n,
    )
}

/// The challenges of the folding sumcheck.
pub open spec fn folding_chals(av: Seq<int>, subs: Seq<(Seq<int>, int, Seq<usize>)>, viv: Seq<int>, s: int) -> Seq<
    int,
> {
    let n = crate::mle::nv(viv.len());
    crate::engine::rounds_chals(
        Seq::empty(),
        seq![crate::sumcheck::phase_one::reduce_pad(agi_table(av, subs, viv.len()), pow2(n))],
        seq![crate::sumcheck::phase_one::reduce_pad(viv, pow2(n))],
        s,
        (pow2(n) / 2) as nat,
        n,
    )
}

/// The transcript state after the folding sumcheck.
pub open spec fn folding_state(av: Seq<int>, subs: Seq<(Seq<int>, int, Seq<usize>)>, viv: Seq<int>, s: int) -> int {
    let n = crate::mle::nv(viv.len());
    crate::engine::rounds_state(
        Seq::empty(),
        seq![crate::sumcheck::phase_one::reduce_pad(agi_table(av, subs, viv.len()), pow2(n))],
        seq![crate::sumcheck::phase_one::reduce_pad(viv, pow2(n))],
        s,
        (pow2(n) / 2) as nat,
        n,
    )
}

/// Preconditions of the folding step: coefficient count matches the
/// subclaims, every index map stays within the target vector, and every
/// subclaim's point spans its index map.
pub open spec fn folding_wf(alphas: Seq<Fp>, subclaims: Seq<Subclaim>, vi_len: nat) -> bool {
    &&& alphas.len() == subclaims.len()
    &&& forall|j: int, t: int|
        0 <= j < subclaims.len() && 0 <= t < subclaims[j].instruction@.len()
            ==> (#[trigger] subclaims[j].instruction@[t]) < vi_len
    &&& forall|j: int|
        0 <= j < subclaims.len() ==> (#[trigger] subclaims[j]).instruction@.len() <= pow2(
            subclaims[j].r@.len(),
        )
    &&& forall|j: int| 0 <= j < subclaims.len() ==> (#[trigger] subclaims[j]).r@.len() <= 30
}

/// Folds all accumulated subclaims about one target vector into a single
/// claim: builds the indicator vector from the sampled coefficients and
/// proves, by one more sumcheck, the claimed product sum of the indicator
/// against the vector. The proof's claimed sum is that product sum.
pub fn n_to_1_folding(
    transcript: &mut Transcript,
    alphas: &Vec<Fp>,
    subclaims: &Vec<Subclaim>,
    vi: &Vec<Fp>,
) -> (r: crate::engine::SumCheckProof)
    requires
        folding_wf(alphas@, subclaims@, vi@.len() as nat),
        1 <= vi@.len() <= 0x4000_0000,
    ensures
        r.claimed_sum.val() == crate::mle::dot_spec(
            agi_table(fp_vals(alphas@), subs_views(subclaims@), vi@.len() as nat),
            fp_vals(vi@),
            vi@.len() as nat,
        ) % (P as int),
        crate::sumcheck::phase_one::msgs_of(r) == folding_msgs(
            fp_vals(alphas@),
            subs_views(subclaims@),
            fp_vals(vi@),
            old(transcript).view_state(),
        ),
        fp_vals(r.challenges@) == folding_chals(
            fp_vals(alphas@),
            subs_views(subclaims@),
            fp_vals(vi@),
            old(transcript).view_state(),
        ),
        final(transcript).view_state() == folding_state(
            fp_vals(alphas@),
            subs_views(subclaims@),
            fp_vals(vi@),
            old(transcript).view_state(),
        ),
        r.round_polynomials@.len() == crate::mle::nv(vi@.len() as nat),
        r.challenges@.len() == crate::mle::nv(vi@.len() as nat),
        forall|j: int|
            0 <= j < r.round_polynomials@.len() ==> (#[trigger] r.round_polynomials@[j])@.len()
                == 3,
        // the honest folding transcript passes the verifier's round replay
        // when replayed from the same transcript state
        crate::engine::verify_rounds_spec(r, old(transcript).view_state()) is Some,
{
    let ghost av = fp_vals(alphas@);
    let ghost viv = fp_vals(vi@);
    let ghost svw = subs_views(subclaims@);
    let agi = build_agi(alphas, subclaims, vi.len());
    let claimed_sum = crate::mle::dot_product(&agi, vi);
    proof {
        assert(fp_vals(agi@) =~= agi_table(av, svw, vi@.len() as nat));
    }
    let n = crate::mle::num_vars(vi.len());
    let width = crate::mle::pow2_exec(n);
    let agi_p = pad_to(&agi, width);
    crate::field::note_reduced(vi);
    let vi_p = pad_to(vi, width);
    proof {
        assert(fp_vals(agi_p@) =~= crate::sumcheck::phase_one::reduce_pad(
            agi_table(av, svw, vi@.len() as nat),
            pow2(n as nat),
        )) by {
            assert forall|i: int| 0 <= i < agi_p@.len() implies fp_vals(agi_p@)[i]
                == crate::sumcheck::phase_one::reduce_pad(
                agi_table(av, svw, vi@.len() as nat),
                pow2(n as nat),
            )[i] by {
                if i < vi@.len() {
                    assert(agi_p@[i] == agi@[i]);
                }
            }
        }
        assert(fp_vals(vi_p@) =~= crate::sumcheck::phase_one::reduce_pad(viv, pow2(n as nat))) by {
            assert forall|i: int| 0 <= i < vi_p@.len() implies fp_vals(vi_p@)[i]
                == crate::sumcheck::phase_one::reduce_pad(viv, pow2(n as nat))[i] by {
                if i < vi@.len() {
                    crate::field::lemma_small(vi@[i].val());
                }
            }
        }
    }
    let singles: Vec<Vec<Fp>> = Vec::new();
    let mut pairs_a: Vec<Vec<Fp>> = Vec::new();
    pairs_a.push(agi_p);
    let mut pairs_b: Vec<Vec<Fp>> = Vec::new();
    pairs_b.push(vi_p);
    proof {
        assert(crate::engine::tables_vals(singles@) =~~= Seq::<Seq<int>>::empty());
        assert(crate::engine::tables_vals(pairs_a@) =~~= seq![
            crate::sumcheck::phase_one::reduce_pad(
                agi_table(av, svw, vi@.len() as nat),
                pow2(n as nat),
            ),
        ]);
        assert(crate::engine::tables_vals(pairs_b@) =~~= seq![
            crate::sumcheck::phase_one::reduce_pad(viv, pow2(n as nat)),
        ]);
    }
    let (round_polynomials, challenges) = crate::engine::prove_product_rounds(
        singles,
        pairs_a,
        pairs_b,
        n,
        transcript,
    );
    let r = crate::engine::SumCheckProof { claimed_sum, round_polynomials, challenges };
    proof {
        let s0 = old(transcript).view_state();
        let agi_red = agi_table(av, svw, vi@.len() as nat);
        let ap = crate::sumcheck::phase_one::reduce_pad(agi_red, pow2(n as nat));
        let vp = crate::sumcheck::phase_one::reduce_pad(viv, pow2(n as nat));
        let width_g = pow2(n as nat);
        // the claimed sum is the padded tables' total hypercube sum
        assert(crate::engine::round_total(Seq::<Seq<int>>::empty(), seq![ap], seq![vp])
            == crate::mle::dot_spec(ap, vp, width_g)) by {
            assert(crate::engine::pairs_total(seq![ap], seq![vp], 0) == 0);
            assert(seq![ap][0] == ap && seq![vp][0] == vp);
            assert(crate::engine::pairs_total(seq![ap], seq![vp], 1) == crate::mle::dot_spec(
                ap,
                vp,
                ap.len(),
            ));
            assert(crate::engine::singles_total(Seq::<Seq<int>>::empty(), 0) == 0);
        }
        assert(crate::mle::dot_spec(ap, vp, width_g) == crate::mle::dot_spec(
            ap,
            vp,
            vi@.len() as nat,
        )) by {
            assert(forall|j: int| vi@.len() <= j < width_g ==> #[trigger] ap[j] == 0);
            lemma_dot_zero_tail(ap, vp, vi@.len() as nat, width_g);
        }
        assert(crate::mle::dot_spec(ap, vp, vi@.len() as nat) % (P as int) == crate::mle::dot_spec(
            agi_red,
            viv,
            vi@.len() as nat,
        ) % (P as int)) by {
            assert forall|j: int| 0 <= j < vi@.len() implies ap[j] == agi_red[j] && vp[j]
                == viv[j] by {
                crate::field::lemma_small(viv[j]);
                crate::field::lemma_small(agi_red[j]);
            }
            lemma_dot_ext(ap, vp, agi_red, viv, vi@.len() as nat);
        }
        crate::engine::lemma_rounds_pass(
            Seq::<Seq<int>>::empty(),
            seq![ap],
            seq![vp],
            s0,
            (width_g / 2) as nat,
            n as nat,
            r.claimed_sum.val(),
        );
        assert(crate::engine::proof_shape_ok(r));
        assert(crate::engine::msgs_vals(r.round_polynomials@) == folding_msgs(av, svw, viv, s0));
        assert(fp_vals(r.challenges@) == folding_chals(av, svw, viv, s0));
        assert(folding_msgs(av, svw, viv, s0) == crate::engine::rounds_msgs(
            Seq::<Seq<int>>::empty(),
            seq![ap],
            seq![vp],
            s0,
            (width_g / 2) as nat,
            n as nat,
        ));
    }
    r
}

/// The claimed values of a collection of subclaims, in order.
pub fn subclaims_to_hints(subclaims: &Vec<Subclaim>) -> (r: Vec<Fp>)
    ensures
        r@.len() == subclaims@.len(),
        forall|k: int| 0 <= k < r@.len() ==> r@[k] == subclaims@[k].eval,
{
    let mut r: Vec<Fp> = Vec::new();
    let mut i: usize = 0;
    while i < subclaims.len()
        invariant
            i <= subclaims@.len(),
            r@.len() == i,
            forall|k: int| 0 <= k < i ==> r@[k] == subclaims@[k].eval,
        decreases subclaims@.len() - i,
    {
        r.push(subclaims[i].eval);
        i = i + 1;
    }
    r
}

} // verus!
