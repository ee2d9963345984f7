//! The layered-circuit data model: gates of fixed fan-in two addressed by
//! layer and position, the wiring invariant, dense evaluation, and the
//! compilation of one layer's wiring into sparse proving information.

use vstd::prelude::*;

use crate::field::{all_reduced, lemma_addm, lemma_mulm, lemma_small, note_reduced, Fp, P};
use crate::mle::fp_vals;
use crate::util::{
    buckets_view, entries_view, insts_view, push_index, push_index_pos, push_index_seq, GateAddr,
    LayerId, LayerProvingInfo,
};

verus! {

/// Gate operation: the closed set of operations a gate can perform.
#[derive(Debug, Clone, Copy, PartialEq, Eq, Structural)]
pub enum GateOp {
    /// Addition gate.
    Add,
    /// Multiplication gate.
    Mul,
}

/// A gate: an operation applied to two inputs named by address.
#[derive(Debug, Clone)]
pub struct Gate {
    /// The operation this gate performs.
    pub op: GateOp,
    /// Where the two inputs come from.
    pub inputs: [GateAddr; 2],
}

/// A layer: an ordered sequence of gates; a gate's position in the sequence
/// is its index, referenced by other gates' addresses.
#[derive(Debug, Clone)]
pub struct Layer {
    /// The gates of the layer, in order.
    pub gates: Vec<Gate>,
}

/// A circuit with arbitrary wiring distances: layer 0 is the output layer,
/// and a virtual input layer sits at index `layers.len()`.
#[derive(Debug, Clone)]
pub struct GeneralCircuit {
    /// The layers, output layer first.
    pub layers: Vec<Layer>,
}

/// The wiring invariant of one gate at layer `layer_id`: both inputs come
/// from strictly deeper layers, and at least one comes from the layer
/// immediately below.
pub open spec fn gate_wiring_ok(g: Gate, layer_id: int) -> bool {
    &&& g.inputs[0].0 > layer_id
    &&& g.inputs[1].0 > layer_id
    &&& (g.inputs[0].0 == layer_id + 1 || g.inputs[1].0 == layer_id + 1)
}

/// The wiring invariant of every gate of one layer.
pub open spec fn layer_wiring_ok(l: Layer, layer_id: int) -> bool {
    forall|k: int| 0 <= k < l.gates@.len() ==> gate_wiring_ok(#[trigger] l.gates@[k], layer_id)
}

/// The wiring invariant of every gate of the circuit.
pub open spec fn circuit_wiring_ok(c: GeneralCircuit) -> bool {
    forall|i: int| 0 <= i < c.layers@.len() ==> layer_wiring_ok(#[trigger] c.layers@[i], i)
}

/// An address names an existing value: a real layer position, or a position
/// in the virtual input layer of length `n_inputs`.
pub open spec fn addr_in_bounds(a: GateAddr, layers: Seq<Layer>, n_inputs: nat) -> bool {
    &&& a.0 <= layers.len()
    &&& (a.0 < layers.len() ==> a.1 < layers[a.0 as int].gates@.len())
    &&& (a.0 == layers.len() ==> a.1 < n_inputs)
}

/// Both inputs of every gate name existing values.
pub open spec fn circuit_in_bounds(c: GeneralCircuit, n_inputs: nat) -> bool {
    forall|i: int, k: int|
        0 <= i < c.layers@.len() && 0 <= k < c.layers@[i].gates@.len() ==> {
            let g = #[trigger] c.layers@[i].gates@[k];
            addr_in_bounds(g.inputs[0], c.layers@, n_inputs) && addr_in_bounds(
                g.inputs[1],
                c.layers@,
                n_inputs,
            )
        }
}

/// Both inputs of every gate come from strictly deeper layers. This is the
/// part of the wiring invariant evaluation depends on.
pub open spec fn circuit_ids_deeper(c: GeneralCircuit) -> bool {
    forall|i: int, k: int|
        0 <= i < c.layers@.len() && 0 <= k < c.layers@[i].gates@.len() ==> {
            let g = #[trigger] c.layers@[i].gates@[k];
            g.inputs[0].0 > i && g.inputs[1].0 > i
        }
}

/// The value a gate operation produces from its two input values.
pub open spec fn gate_op_val(op: GateOp, l: int, r: int) -> int {
    match op {
        GateOp::Add => l + r,
        GateOp::Mul => l * r,
    }
}

/// The evaluation vector of layer `i` (the input vector for `i` at or past
/// the layer count), over exact integers.
pub open spec fn layer_vals(layers: Seq<Layer>, inputs: Seq<int>, i: nat) -> Seq<int>
    decreases layers.len() - i, 2nat,
{
    if i >= layers.len() {
        inputs
    } else {
        Seq::new(
            layers[i as int].gates@.len(),
            |k: int| gate_val(layers, inputs, i, layers[i as int].gates@[k]),
        )
    }
}

/// The value one gate of layer `own` produces.
pub open spec fn gate_val(layers: Seq<Layer>, inputs: Seq<int>, own: nat, g: Gate) -> int
    decreases layers.len() - own, 1nat,
{
    gate_op_val(
        g.op,
        input_val(layers, inputs, own, g.inputs[0]),
        input_val(layers, inputs, own, g.inputs[1]),
    )
}

/// The value a gate of layer `own` reads at address `a`.
pub open spec fn input_val(layers: Seq<Layer>, inputs: Seq<int>, own: nat, a: GateAddr) -> int
    decreases layers.len() - own, 0nat,
{
    if own < layers.len() && a.0 > own {
        let j = if a.0 <= layers.len() {
            a.0 as nat
        } else {
            layers.len()
        };
        layer_vals(layers, inputs, j)[a.1 as int]
    } else {
        0
    }
}

/// The state of the wiring compiler: per-distance instruction buckets and
/// per-distance sparse entry buckets for the add and mul gates.
pub struct InfoModel {
    /// Deduplicated referenced positions, one bucket per distance.
    pub inst: Seq<Seq<usize>>,
    /// `(gate_index, b_index, c_index)` triples of add gates, by distance.
    pub adds: Seq<Seq<(int, int, int)>>,
    /// `(gate_index, b_index, c_index)` triples of mul gates, by distance.
    pub muls: Seq<Seq<(int, int, int)>>,
}

/// The compiler state before any gate was processed: `d` empty buckets each.
pub open spec fn info_init(d: nat) -> InfoModel {
    InfoModel {
        inst: Seq::new(d, |i: int| Seq::empty()),
        adds: Seq::new(d, |i: int| Seq::empty()),
        muls: Seq::new(d, |i: int| Seq::empty()),
    }
}

/// Processes one gate: deduplicates its two referenced positions into the
/// instruction buckets of their distances (left input first), and buckets
/// the resulting `(gate_index, b_index, c_index)` triple by the far input's
/// distance, where the `b` side is the input at distance zero.
pub open spec fn info_step(st: InfoModel, g: Gate, gate_index: int, layer_id: int) -> InfoModel {
    let dl = g.inputs[0].0 - layer_id - 1;
    let dr = g.inputs[1].0 - layer_id - 1;
    let li = push_index_pos(st.inst[dl], g.inputs[0].1);
    let inst1 = st.inst.update(dl, push_index_seq(st.inst[dl], g.inputs[0].1));
    let ri = push_index_pos(inst1[dr], g.inputs[1].1);
    let inst2 = inst1.update(dr, push_index_seq(inst1[dr], g.inputs[1].1));
    let far = if dl == 0 {
        dr
    } else {
        dl
    };
    let entry = if dl == 0 {
        (gate_index, li, ri)
    } else {
        (gate_index, ri, li)
    };
    if g.op == GateOp::Add {
        InfoModel { inst: inst2, adds: st.adds.update(far, st.adds[far].push(entry)), muls: st.muls }
    } else {
        InfoModel { inst: inst2, adds: st.adds, muls: st.muls.update(far, st.muls[far].push(entry)) }
    }
}

/// The compiler state after the first `k` gates of the layer, with `d`
/// distance buckets.
pub open spec fn info_at(gates: Seq<Gate>, layer_id: int, d: nat, k: nat) -> InfoModel
    decreases k,
{
    if k == 0 {
        info_init(d)
    } else {
        info_step(info_at(gates, layer_id, d, (k - 1) as nat), gates[k - 1], k - 1, layer_id)
    }
}

/// How often `g` occurs as a gate index among one bucket's entries.
pub open spec fn count_in_entries(es: Seq<(int, int, int)>, g: int) -> int
    decreases es.len(),
{
    if es.len() == 0 {
        0
    } else {
        count_in_entries(es.drop_last(), g) + if es.last().0 == g {
            1int
        } else {
            0int
        }
    }
}

/// How often `g` occurs as a gate index over all buckets.
pub open spec fn count_in_buckets(bs: Seq<Seq<(int, int, int)>>, g: int) -> int
    decreases bs.len(),
{
    if bs.len() == 0 {
        0
    } else {
        count_in_buckets(bs.drop_last(), g) + count_in_entries(bs.last(), g)
    }
}

/// Every entry count is non-negative.
proof fn lemma_count_nonneg(bs: Seq<Seq<(int, int, int)>>, g: int)
    ensures
        count_in_buckets(bs, g) >= 0,
    decreases bs.len(),
{
    if bs.len() > 0 {
        lemma_count_nonneg(bs.drop_last(), g);
        lemma_count_entries_nonneg(bs.last(), g);
    }
}

proof fn lemma_count_entries_nonneg(es: Seq<(int, int, int)>, g: int)
    ensures
        count_in_entries(es, g) >= 0,
    decreases es.len(),
{
    if es.len() > 0 {
        lemma_count_entries_nonneg(es.drop_last(), g);
    }
}

/// Pushing one entry onto bucket `d` raises the count of its gate index by
/// one and leaves every other count unchanged.
proof fn lemma_count_push(bs: Seq<Seq<(int, int, int)>>, d: int, e: (int, int, int), g: int)
    requires
        0 <= d < bs.len(),
    ensures
        count_in_buckets(bs.update(d, bs[d].push(e)), g) == count_in_buckets(bs, g) + if e.0 == g {
            1int
        } else {
            0int
        },
    decreases bs.len(),
{
    let upd = bs.update(d, bs[d].push(e));
    if d == bs.len() - 1 {
        assert(upd.drop_last() =~= bs.drop_last());
        assert(upd.last() == bs.last().push(e));
        assert(upd.last().drop_last() =~= bs.last());
    } else {
        assert(upd.drop_last() =~= bs.drop_last().update(d, bs.drop_last()[d].push(e)));
        assert(upd.last() == bs.last());
        lemma_count_push(bs.drop_last(), d, e, g);
    }
}

/// After `k` gates, each of the first `k` gate indices occurs exactly once
/// across the add and mul buckets together, and no other index occurs.
proof fn lemma_info_counts(gates: Seq<Gate>, layer_id: int, d: nat, k: nat, g: int)
    requires
        k <= gates.len(),
        forall|j: int| 0 <= j < gates.len() ==> gate_wiring_ok(#[trigger] gates[j], layer_id),
        forall|j: int|
            0 <= j < gates.len() ==> (#[trigger] gates[j]).inputs[0].0 <= layer_id + d
                && gates[j].inputs[1].0 <= layer_id + d,
        0 <= layer_id,
    ensures
        count_in_buckets(info_at(gates, layer_id, d, k).adds, g) + count_in_buckets(
            info_at(gates, layer_id, d, k).muls,
            g,
        ) == if 0 <= g < k {
            1int
        } else {
            0int
        },
        info_at(gates, layer_id, d, k).adds.len() == d,
        info_at(gates, layer_id, d, k).muls.len() == d,
    decreases k,
{
    if k == 0 {
        lemma_count_zero(info_init(d).adds, g);
        lemma_count_zero(info_init(d).muls, g);
    } else {
        lemma_info_counts(gates, layer_id, d, (k - 1) as nat, g);
        let st = info_at(gates, layer_id, d, (k - 1) as nat);
        let gt = gates[k - 1];
        let dl = gt.inputs[0].0 - layer_id - 1;
        let dr = gt.inputs[1].0 - layer_id - 1;
        let far = if dl == 0 {
            dr
        } else {
            dl
        };
        assert(0 <= far < d);
        if gt.op == GateOp::Add {
            let li = push_index_pos(st.inst[dl], gt.inputs[0].1);
            let inst1 = st.inst.update(dl, push_index_seq(st.inst[dl], gt.inputs[0].1));
            let ri = push_index_pos(inst1[dr], gt.inputs[1].1);
            let e = if dl == 0 {
                (k - 1 as int, li, ri)
            } else {
                (k - 1 as int, ri, li)
            };
            lemma_count_push(st.adds, far, e, g);
        } else {
            let li = push_index_pos(st.inst[dl], gt.inputs[0].1);
            let inst1 = st.inst.update(dl, push_index_seq(st.inst[dl], gt.inputs[0].1));
            let ri = push_index_pos(inst1[dr], gt.inputs[1].1);
            let e = if dl == 0 {
                (k - 1 as int, li, ri)
            } else {
                (k - 1 as int, ri, li)
            };
            lemma_count_push(st.muls, far, e, g);
        }
    }
}

/// Buckets that hold no entries count nothing.
proof fn lemma_count_zero(bs: Seq<Seq<(int, int, int)>>, g: int)
    requires
        forall|i: int| 0 <= i < bs.len() ==> (#[trigger] bs[i]).len() == 0,
    ensures
        count_in_buckets(bs, g) == 0,
    decreases bs.len(),
{
    if bs.len() > 0 {
        lemma_count_zero(bs.drop_last(), g);
    }
}

/// Evaluation determinism: the evaluation table is a pure function of the
/// circuit and the input vector. Any two results that satisfy `eval`'s
/// contract on the same circuit and inputs are the same table, entry for
/// entry.
pub proof fn lemma_eval_deterministic(
    c: GeneralCircuit,
    inputs: Vec<Fp>,
    r1: Vec<Vec<Fp>>,
    r2: Vec<Vec<Fp>>,
)
    requires
        r1@.len() == c.layers@.len() + 1,
        r2@.len() == c.layers@.len() + 1,
        r1@[c.layers@.len() as int]@ == inputs@,
        r2@[c.layers@.len() as int]@ == inputs@,
        forall|i: int|
            0 <= i < c.layers@.len() ==> {
                &&& (#[trigger] r1@[i])@.len() == c.layers@[i].gates@.len()
                &&& forall|k: int|
                    0 <= k < r1@[i]@.len() ==> #[trigger] r1@[i]@[k].val() == layer_vals(
                        c.layers@,
                        fp_vals(inputs@),
                        i as nat,
                    )[k] % (P as int)
            },
        forall|i: int|
            0 <= i < c.layers@.len() ==> {
                &&& (#[trigger] r2@[i])@.len() == c.layers@[i].gates@.len()
                &&& forall|k: int|
                    0 <= k < r2@[i]@.len() ==> #[trigger] r2@[i]@[k].val() == layer_vals(
                        c.layers@,
                        fp_vals(inputs@),
                        i as nat,
                    )[k] % (P as int)
            },
    ensures
        forall|i: int| 0 <= i < r1@.len() ==> (#[trigger] r1@[i])@ == r2@[i]@,
{
    assert forall|i: int| 0 <= i < r1@.len() implies (#[trigger] r1@[i])@ == r2@[i]@ by {
        if i < c.layers@.len() {
            assert forall|k: int| 0 <= k < r1@[i]@.len() implies r1@[i]@[k] == r2@[i]@[k] by {
                assert(r1@[i]@[k].val() == r2@[i]@[k].val());
                crate::field::lemma_val_injective(r1@[i]@[k], r2@[i]@[k]);
            }
            assert(r1@[i]@ =~= r2@[i]@);
        }
    }
}

/// Shape and bounds of the compiled proving information: as many buckets as
/// distances, every instruction value a position in the downstream layer it
/// names, and every sparse triple within its tables.
pub open spec fn info_wf(st: InfoModel, d: nat, k: nat, sizes: Seq<int>) -> bool {
    &&& st.inst.len() == d
    &&& st.adds.len() == d
    &&& st.muls.len() == d
    &&& sizes.len() == d
    &&& forall|d2: int| 0 <= d2 < d ==> (#[trigger] st.inst[d2]).len() <= 2 * k
    &&& (k >= 1 ==> st.inst[0].len() >= 1)
    &&& forall|d2: int, j: int|
        0 <= d2 < d && 0 <= j < st.inst[d2].len() ==> (#[trigger] st.inst[d2][j]) < sizes[d2]
    &&& forall|d2: int, j: int|
        0 <= d2 < d && 0 <= j < st.adds[d2].len() ==> {
            let e = #[trigger] st.adds[d2][j];
            &&& 0 <= e.0 < k
            &&& 0 <= e.1 < st.inst[0].len()
            &&& 0 <= e.2 < st.inst[d2].len()
        }
    &&& forall|d2: int, j: int|
        0 <= d2 < d && 0 <= j < st.muls[d2].len() ==> {
            let e = #[trigger] st.muls[d2][j];
            &&& 0 <= e.0 < k
            &&& 0 <= e.1 < st.inst[0].len()
            &&& 0 <= e.2 < st.inst[d2].len()
        }
}

/// The compiled information of a validly wired layer is well formed:
/// `sizes[d2]` bounds the positions a gate may reference at distance `d2`.
pub proof fn lemma_info_at_wf(gates: Seq<Gate>, layer_id: int, d: nat, k: nat, sizes: Seq<int>)
    requires
        k <= gates.len(),
        d >= 1,
        sizes.len() == d,
        0 <= layer_id,
        forall|j: int| 0 <= j < gates.len() ==> gate_wiring_ok(#[trigger] gates[j], layer_id),
        forall|j: int|
            0 <= j < gates.len() ==> (#[trigger] gates[j]).inputs[0].0 <= layer_id + d
                && gates[j].inputs[1].0 <= layer_id + d,
        forall|j: int|
            0 <= j < gates.len() ==> (#[trigger] gates[j]).inputs[0].1 < sizes[gates[j].inputs[0].0
                - layer_id - 1] && gates[j].inputs[1].1 < sizes[gates[j].inputs[1].0 - layer_id
                - 1],
    ensures
        info_wf(info_at(gates, layer_id, d, k), d, k, sizes),
    decreases k,
{
    if k == 0 {
    } else {
        lemma_info_at_wf(gates, layer_id, d, (k - 1) as nat, sizes);
        let st = info_at(gates, layer_id, d, (k - 1) as nat);
        let g = gates[k - 1];
        let dl = g.inputs[0].0 - layer_id - 1;
        let dr = g.inputs[1].0 - layer_id - 1;
        crate::util::lemma_push_index_bounds(st.inst[dl], g.inputs[0].1);
        let inst1 = st.inst.update(dl, push_index_seq(st.inst[dl], g.inputs[0].1));
        crate::util::lemma_push_index_bounds(inst1[dr], g.inputs[1].1);
        let inst2 = inst1.update(dr, push_index_seq(inst1[dr], g.inputs[1].1));
        let next = info_at(gates, layer_id, d, k);
        assert(next == info_step(st, g, k - 1, layer_id));
        assert(next.inst[0].len() >= 1) by {
            if dl == 0 {
                assert(inst1[0].len() >= 1);
                assert(inst2[0].len() >= inst1[0].len());
            } else {
                assert(dr == 0);
                assert(inst2[0] == push_index_seq(inst1[0], g.inputs[1].1));
            }
        }
        assert forall|d2: int, j: int|
            0 <= d2 < d && 0 <= j < next.inst[d2].len() implies (#[trigger] next.inst[d2][j])
            < sizes[d2] by {
            if d2 == dr && j == push_index_pos(inst1[dr], g.inputs[1].1) && inst1[dr].len() <= j {
                assert(next.inst[d2][j] == g.inputs[1].1);
            } else if d2 == dl && j >= st.inst[dl].len() && (d2 != dr || j < inst1[dr].len()) {
                assert(inst1[dl][j] == g.inputs[0].1 || inst1[dl][j] == st.inst[dl][j]
                    || inst1[dl].len() <= j);
            }
        }
    }
}

/// Distance-bucket completeness: in the compiled proving information of a
/// layer whose wiring is valid, every gate of the layer contributes exactly
/// one `(gate_index, b_index, c_index)` entry, in exactly one of the add and
/// mul bucket families, and no entry names a gate outside the layer.
pub proof fn lemma_distance_bucket_completeness(
    gates: Seq<Gate>,
    layer_id: int,
    d: nat,
    g: int,
)
    requires
        forall|j: int| 0 <= j < gates.len() ==> gate_wiring_ok(#[trigger] gates[j], layer_id),
        forall|j: int|
            0 <= j < gates.len() ==> (#[trigger] gates[j]).inputs[0].0 <= layer_id + d
                && gates[j].inputs[1].0 <= layer_id + d,
        0 <= layer_id,
    ensures
        count_in_buckets(info_at(gates, layer_id, d, gates.len()).adds, g) + count_in_buckets(
            info_at(gates, layer_id, d, gates.len()).muls,
            g,
        ) == if 0 <= g < gates.len() {
            1int
        } else {
            0int
        },
{
    lemma_info_counts(gates, layer_id, d, gates.len(), g);
}

impl Gate {
    /// Packs an operation and two input addresses into a gate.
    pub fn new(op: GateOp, inputs: [GateAddr; 2]) -> (r: Gate)
        ensures
            r.op == op,
            r.inputs == inputs,
    {
        Gate { op, inputs }
    }

    /// Decides the wiring invariant of this gate at layer `layer_id`.
    pub fn verify(&self, layer_id: LayerId) -> (r: bool)
        requires
            layer_id < usize::MAX,
        ensures
            r == gate_wiring_ok(*self, layer_id as int),
    {
        let (left_id, right_id) = (self.inputs[0].0, self.inputs[1].0);
        let mut valid = true;
        valid = valid && left_id > layer_id && right_id > layer_id;
        valid = valid && (left_id == layer_id + 1 || right_id == layer_id + 1);
        valid
    }

    /// Applies this gate's operation to the given input values.
    pub fn eval(&self, left_input: &Fp, right_input: &Fp) -> (r: Fp)
        ensures
            r.val() == gate_op_val(self.op, left_input.val(), right_input.val()) % (P as int),
    {
        match self.op {
            GateOp::Add => (*left_input).add(*right_input),
            GateOp::Mul => (*left_input).mul(*right_input),
        }
    }
}

impl Layer {
    /// Packs gates into a layer.
    pub fn new(gates: Vec<Gate>) -> (r: Layer)
        ensures
            r.gates == gates,
    {
        Layer { gates }
    }

    /// Decides the wiring invariant of every gate of this layer.
    pub fn verify(&self, id: LayerId) -> (r: bool)
        requires
            id < usize::MAX,
        ensures
            r == layer_wiring_ok(*self, id as int),
    {
        let mut k: usize = 0;
        while k < self.gates.len()
            invariant
                k <= self.gates@.len(),
                id < usize::MAX,
                forall|j: int| 0 <= j < k ==> gate_wiring_ok(#[trigger] self.gates@[j], id as int),
            decreases self.gates@.len() - k,
        {
            if !self.gates[k].verify(id) {
                return false;
            }
            k = k + 1;
        }
        true
    }

    /// Extracts each gate's inputs from the evaluation scratchpad and
    /// applies each gate's operation to them.
    pub fn eval(&self, evaluation_scratchpad: &Vec<Vec<Fp>>) -> (r: Vec<Fp>)
        requires
            forall|k: int|
                0 <= k < self.gates@.len() ==> {
                    let g = #[trigger] self.gates@[k];
                    &&& g.inputs[0].0 < evaluation_scratchpad@.len()
                    &&& g.inputs[0].1 < evaluation_scratchpad@[g.inputs[0].0 as int]@.len()
                    &&& g.inputs[1].0 < evaluation_scratchpad@.len()
                    &&& g.inputs[1].1 < evaluation_scratchpad@[g.inputs[1].0 as int]@.len()
                },
        ensures
            r@.len() == self.gates@.len(),
            forall|k: int|
                0 <= k < r@.len() ==> {
                    let g = #[trigger] self.gates@[k];
                    r@[k].val() == gate_op_val(
                        g.op,
                        evaluation_scratchpad@[g.inputs[0].0 as int]@[g.inputs[0].1 as int].val(),
                        evaluation_scratchpad@[g.inputs[1].0 as int]@[g.inputs[1].1 as int].val(),
                    ) % (P as int)
                },
    {
        let mut r: Vec<Fp> = Vec::new();
        let mut k: usize = 0;
        while k < self.gates.len()
            invariant
                k <= self.gates@.len(),
                r@.len() == k,
                forall|j: int|
                    0 <= j < self.gates@.len() ==> {
                        let g = #[trigger] self.gates@[j];
                        &&& g.inputs[0].0 < evaluation_scratchpad@.len()
                        &&& g.inputs[0].1 < evaluation_scratchpad@[g.inputs[0].0 as int]@.len()
                        &&& g.inputs[1].0 < evaluation_scratchpad@.len()
                        &&& g.inputs[1].1 < evaluation_scratchpad@[g.inputs[1].0 as int]@.len()
                    },
                forall|j: int|
                    0 <= j < k ==> {
                        let g = #[trigger] self.gates@[j];
                        r@[j].val() == gate_op_val(
                            g.op,
                            evaluation_scratchpad@[g.inputs[0].0 as int]@[g.inputs[0].1 as int].val(),
                            evaluation_scratchpad@[g.inputs[1].0 as int]@[g.inputs[1].1 as int].val(),
                        ) % (P as int)
                    },
            decreases self.gates@.len() - k,
        {
            let gate = &self.gates[k];
            let left_input = &evaluation_scratchpad[gate.inputs[0].0][gate.inputs[0].1];
            let right_input = &evaluation_scratchpad[gate.inputs[1].0][gate.inputs[1].1];
            let v = gate.eval(left_input, right_input);
            r.push(v);
            k = k + 1;
        }
        r
    }
}

impl GeneralCircuit {
    /// Packs layers into a circuit.
    pub fn new(layers: Vec<Layer>) -> (r: GeneralCircuit)
        ensures
            r.layers == layers,
    {
        GeneralCircuit { layers }
    }

    /// Decides whether every gate of the circuit satisfies the wiring
    /// invariant: both inputs strictly deeper, at least one adjacent.
    pub fn verify(&self) -> (r: bool)
        ensures
            r == circuit_wiring_ok(*self),
    {
        let mut i: usize = 0;
        while i < self.layers.len()
            invariant
                i <= self.layers@.len(),
                forall|j: int| 0 <= j < i ==> layer_wiring_ok(#[trigger] self.layers@[j], j),
            decreases self.layers@.len() - i,
        {
            if !self.layers[i].verify(i) {
                return false;
            }
            i = i + 1;
        }
        true
    }

    /// Evaluates the circuit: returns one vector per layer, the deepest
    /// first computed, with the input vector as the final entry. Entry `i`
    /// holds the reductions of the exact layer values.
    pub fn eval(&self, inputs: &Vec<Fp>) -> (r: Vec<Vec<Fp>>)
        requires
            circuit_ids_deeper(*self),
            circuit_in_bounds(*self, inputs@.len() as nat),
        ensures
            r@.len() == self.layers@.len() + 1,
            r@[self.layers@.len() as int]@ == inputs@,
            forall|i: int|
                0 <= i < self.layers@.len() ==> {
                    &&& (#[trigger] r@[i])@.len() == self.layers@[i].gates@.len()
                    &&& forall|k: int|
                        0 <= k < r@[i]@.len() ==> #[trigger] r@[i]@[k].val() == layer_vals(
                            self.layers@,
                            fp_vals(inputs@),
                            i as nat,
                        )[k] % (P as int)
                },
    {
        let ghost iv = fp_vals(inputs@);
        note_reduced(inputs);
        let n = self.layers.len();
        let mut evaluation_scratchpad: Vec<Vec<Fp>> = Vec::new();
        let mut i: usize = 0;
        while i < n
            invariant
                i <= n,
                evaluation_scratchpad@.len() == i,
            decreases n - i,
        {
            evaluation_scratchpad.push(Vec::new());
            i = i + 1;
        }
        let mut input_copy: Vec<Fp> = Vec::new();
        let mut j: usize = 0;
        while j < inputs.len()
            invariant
                j <= inputs@.len(),
                input_copy@ == inputs@.take(j as int),
            decreases inputs@.len() - j,
        {
            input_copy.push(inputs[j]);
            proof {
                assert(inputs@.take(j as int).push(inputs@[j as int]) =~= inputs@.take(
                    j as int + 1,
                ));
            }
            j = j + 1;
        }
        proof {
            assert(inputs@.take(inputs@.len() as int) =~= inputs@);
        }
        evaluation_scratchpad.push(input_copy);
        let mut layer_id = n;
        while layer_id > 0
            invariant
                layer_id <= n,
                n == self.layers@.len(),
                circuit_ids_deeper(*self),
                circuit_in_bounds(*self, inputs@.len() as nat),
                iv == fp_vals(inputs@),
                all_reduced(inputs@),
                evaluation_scratchpad@.len() == n + 1,
                evaluation_scratchpad@[n as int]@ == inputs@,
                forall|i2: int|
                    layer_id <= i2 < n ==> {
                        &&& (#[trigger] evaluation_scratchpad@[i2])@.len()
                            == self.layers@[i2].gates@.len()
                        &&& forall|k: int|
                            0 <= k < evaluation_scratchpad@[i2]@.len()
                                ==> #[trigger] evaluation_scratchpad@[i2]@[k].val() == layer_vals(
                                self.layers@,
                                iv,
                                i2 as nat,
                            )[k] % (P as int)
                    },
            decreases layer_id,
        {
            layer_id = layer_id - 1;
            proof {
                assert forall|k: int| 0 <= k < self.layers@[layer_id as int].gates@.len() implies {
                    let g = #[trigger] self.layers@[layer_id as int].gates@[k];
                    &&& g.inputs[0].0 < evaluation_scratchpad@.len()
                    &&& g.inputs[0].1 < evaluation_scratchpad@[g.inputs[0].0 as int]@.len()
                    &&& g.inputs[1].0 < evaluation_scratchpad@.len()
                    &&& g.inputs[1].1 < evaluation_scratchpad@[g.inputs[1].0 as int]@.len()
                } by {
                    let g = self.layers@[layer_id as int].gates@[k];
                    assert(addr_in_bounds(g.inputs[0], self.layers@, inputs@.len() as nat));
                    assert(addr_in_bounds(g.inputs[1], self.layers@, inputs@.len() as nat));
                }
            }
            let row = self.layers[layer_id].eval(&evaluation_scratchpad);
            proof {
                let lv = layer_vals(self.layers@, iv, layer_id as nat);
                assert forall|k: int| 0 <= k < row@.len() implies #[trigger] row@[k].val() == lv[k]
                    % (P as int) by {
                    let g = self.layers@[layer_id as int].gates@[k];
                    let a0 = g.inputs[0];
                    let a1 = g.inputs[1];
                    let x = input_val(self.layers@, iv, layer_id as nat, a0);
                    let y = input_val(self.layers@, iv, layer_id as nat, a1);
                    assert(addr_in_bounds(a0, self.layers@, inputs@.len() as nat));
                    assert(addr_in_bounds(a1, self.layers@, inputs@.len() as nat));
                    let sx = evaluation_scratchpad@[a0.0 as int]@[a0.1 as int].val();
                    let sy = evaluation_scratchpad@[a1.0 as int]@[a1.1 as int].val();
                    assert(sx == x % (P as int)) by {
                        if a0.0 == self.layers@.len() {
                            assert(iv[a0.1 as int] == inputs@[a0.1 as int].val());
                            lemma_small(inputs@[a0.1 as int].val());
                        }
                    }
                    assert(sy == y % (P as int)) by {
                        if a1.0 == self.layers@.len() {
                            assert(iv[a1.1 as int] == inputs@[a1.1 as int].val());
                            lemma_small(inputs@[a1.1 as int].val());
                        }
                    }
                    assert(lv[k] == gate_op_val(g.op, x, y));
                    match g.op {
                        GateOp::Add => {
                            lemma_addm(x, y);
                        },
                        GateOp::Mul => {
                            lemma_mulm(x, y);
                        },
                    }
                }
            }
            evaluation_scratchpad.set(layer_id, row);
        }
        evaluation_scratchpad
    }

    /// Compiles the wiring of layer `layer_id` into sparse proving
    /// information: deduplicated per-distance subset instructions and the
    /// `(gate_index, b_index, c_index)` triples of its add and mul gates,
    /// bucketed by the far input's distance. The result is exactly the fold
    /// of `info_step` over the layer's gates.
    #[verifier::rlimit(100)]
    pub fn generate_layer_proving_info(&self, layer_id: LayerId) -> (r: LayerProvingInfo)
        requires
            layer_id < self.layers@.len(),
            layer_wiring_ok(self.layers@[layer_id as int], layer_id as int),
            forall|k: int|
                0 <= k < self.layers@[layer_id as int].gates@.len() ==> {
                    let g = #[trigger] self.layers@[layer_id as int].gates@[k];
                    g.inputs[0].0 <= self.layers@.len() && g.inputs[1].0 <= self.layers@.len()
                },
            self.layers@[layer_id as int].gates@.len() <= 0x1000_0000,
        ensures
            r.layer_id == layer_id,
            r.v_subset_instruction@.len() == self.layers@.len() - layer_id,
            r.add_subsets@.len() == self.layers@.len() - layer_id,
            r.mul_subsets@.len() == self.layers@.len() - layer_id,
            ({
                let info = info_at(
                    self.layers@[layer_id as int].gates@,
                    layer_id as int,
                    (self.layers@.len() - layer_id) as nat,
                    self.layers@[layer_id as int].gates@.len() as nat,
                );
                &&& insts_view(r.v_subset_instruction@) == info.inst
                &&& buckets_view(r.add_subsets@) == info.adds
                &&& buckets_view(r.mul_subsets@) == info.muls
            }),
    {
        let rem_layers = self.layers.len() - layer_id;
        let ghost gates_g = self.layers@[layer_id as int].gates@;
        let mut v_subset_instruction: Vec<Vec<usize>> = Vec::new();
        let mut add_subsets: Vec<Vec<[usize; 3]>> = Vec::new();
        let mut mul_subsets: Vec<Vec<[usize; 3]>> = Vec::new();
        let mut d: usize = 0;
        while d < rem_layers
            invariant
                d <= rem_layers,
                v_subset_instruction@.len() == d,
                add_subsets@.len() == d,
                mul_subsets@.len() == d,
                forall|j: int| 0 <= j < d ==> (#[trigger] v_subset_instruction@[j])@.len() == 0,
                forall|j: int| 0 <= j < d ==> (#[trigger] add_subsets@[j])@.len() == 0,
                forall|j: int| 0 <= j < d ==> (#[trigger] mul_subsets@[j])@.len() == 0,
            decreases rem_layers - d,
        {
            v_subset_instruction.push(Vec::new());
            add_subsets.push(Vec::new());
            mul_subsets.push(Vec::new());
            d = d + 1;
        }
        proof {
            let init = info_init(rem_layers as nat);
            assert(insts_view(v_subset_instruction@) =~~= init.inst);
            assert(buckets_view(add_subsets@) =~~= init.adds);
            assert(buckets_view(mul_subsets@) =~~= init.muls);
        }
        let mut gate_index: usize = 0;
        let n_gates = self.layers[layer_id].gates.len();
        while gate_index < n_gates
            invariant
                gate_index <= n_gates,
                n_gates == gates_g.len(),
                gates_g == self.layers@[layer_id as int].gates@,
                layer_id < self.layers@.len(),
                rem_layers == self.layers@.len() - layer_id,
                layer_wiring_ok(self.layers@[layer_id as int], layer_id as int),
                forall|k: int|
                    0 <= k < gates_g.len() ==> {
                        let g = #[trigger] gates_g[k];
                        g.inputs[0].0 <= self.layers@.len() && g.inputs[1].0
                            <= self.layers@.len()
                    },
                n_gates <= 0x1000_0000,
                v_subset_instruction@.len() == rem_layers,
                add_subsets@.len() == rem_layers,
                mul_subsets@.len() == rem_layers,
                forall|j: int|
                    0 <= j < rem_layers ==> (#[trigger] v_subset_instruction@[j])@.len() <= 2 * (
                    gate_index as int),
                insts_view(v_subset_instruction@) == info_at(
                    gates_g,
                    layer_id as int,
                    rem_layers as nat,
                    gate_index as nat,
                ).inst,
                buckets_view(add_subsets@) == info_at(
                    gates_g,
                    layer_id as int,
                    rem_layers as nat,
                    gate_index as nat,
                ).adds,
                buckets_view(mul_subsets@) == info_at(
                    gates_g,
                    layer_id as int,
                    rem_layers as nat,
                    gate_index as nat,
                ).muls,
            decreases n_gates - gate_index,
        {
            let ghost st = info_at(gates_g, layer_id as int, rem_layers as nat, gate_index as nat);
            let gate = &self.layers[layer_id].gates[gate_index];
            proof {
                assert(gates_g[gate_index as int] == *gate);
                assert(gate_wiring_ok(*gate, layer_id as int));
            }
            let norm_left = gate.inputs[0].0 - layer_id - 1;
            let norm_right = gate.inputs[1].0 - layer_id - 1;
            let mut left_row = v_subset_instruction.remove(norm_left);
            let left_sparse_index = push_index(&mut left_row, gate.inputs[0].1);
            v_subset_instruction.insert(norm_left, left_row);
            proof {
                assert(insts_view(v_subset_instruction@) =~~= st.inst.update(
                    norm_left as int,
                    push_index_seq(st.inst[norm_left as int], gate.inputs[0].1),
                ));
            }
            let mut right_row = v_subset_instruction.remove(norm_right);
            let right_sparse_index = push_index(&mut right_row, gate.inputs[1].1);
            v_subset_instruction.insert(norm_right, right_row);
            proof {
                let inst1 = st.inst.update(
                    norm_left as int,
                    push_index_seq(st.inst[norm_left as int], gate.inputs[0].1),
                );
                assert(insts_view(v_subset_instruction@) =~~= inst1.update(
                    norm_right as int,
                    push_index_seq(inst1[norm_right as int], gate.inputs[1].1),
                ));
            }
            let far: usize;
            let b_index: usize;
            let c_index: usize;
            if norm_left == 0 {
                far = norm_right;
                b_index = left_sparse_index;
                c_index = right_sparse_index;
            } else {
                far = norm_left;
                b_index = right_sparse_index;
                c_index = left_sparse_index;
            }
            let sparse_entry = [gate_index, b_index, c_index];
            if gate.op == GateOp::Add {
                let mut bucket = add_subsets.remove(far);
                bucket.push(sparse_entry);
                add_subsets.insert(far, bucket);
                proof {
                    let e = (gate_index as int, b_index as int, c_index as int);
                    assert(entries_view(add_subsets@[far as int]@) =~= st.adds[far as int].push(e));
                    assert(buckets_view(add_subsets@) =~~= st.adds.update(
                        far as int,
                        st.adds[far as int].push(e),
                    ));
                }
            } else {
                let mut bucket = mul_subsets.remove(far);
                bucket.push(sparse_entry);
                mul_subsets.insert(far, bucket);
                proof {
                    let e = (gate_index as int, b_index as int, c_index as int);
                    assert(entries_view(mul_subsets@[far as int]@) =~= st.muls[far as int].push(e));
                    assert(buckets_view(mul_subsets@) =~~= st.muls.update(
                        far as int,
                        st.muls[far as int].push(e),
                    ));
                }
            }
            proof {
                let next = info_step(st, gates_g[gate_index as int], gate_index as int,
                    layer_id as int);
                assert(info_at(gates_g, layer_id as int, rem_layers as nat, (gate_index + 1) as nat)
                    == next);
                assert(insts_view(v_subset_instruction@) =~~= next.inst);
                if gate.op == GateOp::Add {
                    assert(buckets_view(mul_subsets@) =~~= next.muls);
                } else {
                    assert(buckets_view(add_subsets@) =~~= next.adds);
                }
            }
            gate_index = gate_index + 1;
        }
        LayerProvingInfo { layer_id, v_subset_instruction, add_subsets, mul_subsets }
    }
}

} // verus!
