//! Builds layered circuits from an expression graph: nodes are created in
//! build-time numbering (inputs at depth zero, each gate one past its
//! deepest input), and `build_circuit` reverses that numbering into the
//! circuit's output-first layer order.

use vstd::prelude::*;

use crate::circuit::{Gate, GateOp, GeneralCircuit, Layer};
use crate::util::GateAddr;

verus! {

/// An expression-graph builder: the inputs seen so far and the gates of
/// each build-time layer, deepest first.
#[derive(Debug, Clone)]
pub struct Builder {
    /// Number of input nodes created so far.
    pub input_len: usize,
    /// Gates by build-time layer; build layer `g` is `layers[g - 1]`.
    pub layers: Vec<Vec<Gate>>,
}

/// Renumbers one gate's input layers from build-time numbering (inputs at
/// zero, growing upward) into circuit numbering (output at zero, growing
/// toward the inputs).
pub fn update_gate_index(gate: &mut Gate, max_layer_index: usize)
    requires
        old(gate).inputs[0].0 <= max_layer_index,
        old(gate).inputs[1].0 <= max_layer_index,
    ensures
        final(gate).op == old(gate).op,
        final(gate).inputs[0].0 == max_layer_index - old(gate).inputs[0].0,
        final(gate).inputs[0].1 == old(gate).inputs[0].1,
        final(gate).inputs[1].0 == max_layer_index - old(gate).inputs[1].0,
        final(gate).inputs[1].1 == old(gate).inputs[1].1,
{
    let left = (max_layer_index - gate.inputs[0].0, gate.inputs[0].1);
    let right = (max_layer_index - gate.inputs[1].0, gate.inputs[1].1);
    gate.inputs = [left, right];
}

impl Builder {
    /// A builder with no inputs and no gates.
    pub fn init() -> (r: Builder)
        ensures
            r.input_len == 0,
            r.layers@.len() == 0,
    {
        Builder { input_len: 0, layers: Vec::new() }
    }

    /// Allocates a fresh input coordinate at build layer zero.
    pub fn create_input_node(&mut self) -> (r: GateAddr)
        requires
            old(self).input_len < usize::MAX,
        ensures
            r == (0usize, old(self).input_len),
            final(self).input_len == old(self).input_len + 1,
            final(self).layers == old(self).layers,
    {
        let gate_index = self.input_len;
        self.input_len = self.input_len + 1;
        (0, gate_index)
    }

    /// Places a new gate one build layer past its deepest input and returns
    /// its address in build-time numbering.
    pub fn add_gate(&mut self, left_child: GateAddr, right_child: GateAddr, op: &GateOp) -> (r:
        GateAddr)
        requires
            left_child.0 <= old(self).layers@.len(),
            right_child.0 <= old(self).layers@.len(),
            old(self).layers@.len() < 0x1000_0000,
            forall|g: int|
                0 <= g < old(self).layers@.len() ==> (#[trigger] old(self).layers@[g])@.len()
                    < 0x1000_0000,
        ensures
            final(self).input_len == old(self).input_len,
            ({
                let gate_layer = (if left_child.0 >= right_child.0 {
                    left_child.0
                } else {
                    right_child.0
                }) + 1;
                let gate = Gate { op: *op, inputs: [left_child, right_child] };
                &&& r.0 == gate_layer
                &&& (if gate_layer - 1 < old(self).layers@.len() {
                    &&& r.1 == old(self).layers@[gate_layer - 1]@.len()
                    &&& final(self).layers@.len() == old(self).layers@.len()
                    &&& final(self).layers@[gate_layer - 1]@ == old(self).layers@[gate_layer
                        - 1]@.push(gate)
                    &&& forall|g: int|
                        0 <= g < old(self).layers@.len() && g != gate_layer - 1 ==> (
                        #[trigger] final(self).layers@[g]) == old(self).layers@[g]
                } else {
                    &&& r.1 == 0
                    &&& final(self).layers@.len() == old(self).layers@.len() + 1
                    &&& final(self).layers@[gate_layer - 1]@ == seq![gate]
                    &&& forall|g: int|
                        0 <= g < old(self).layers@.len() ==> (#[trigger] final(self).layers@[g])
                            == old(self).layers@[g]
                })
            }),
    {
        let deeper = if left_child.0 >= right_child.0 {
            left_child.0
        } else {
            right_child.0
        };
        let gate_layer = deeper + 1;
        if self.layers.len() <= gate_layer - 1 {
            self.layers.push(Vec::new());
        }
        let gate = Gate::new(*op, [left_child, right_child]);
        let mut layer = self.layers.remove(gate_layer - 1);
        let gate_index = layer.len();
        layer.push(gate);
        self.layers.insert(gate_layer - 1, layer);
        proof {
            if gate_layer - 1 < old(self).layers@.len() {
                assert(final(self).layers@[gate_layer - 1]@ =~= old(self).layers@[gate_layer
                    - 1]@.push(gate));
            } else {
                assert(final(self).layers@[gate_layer - 1]@ =~= seq![gate]);
            }
        }
        (gate_layer, gate_index)
    }

    /// Reverses the build-time numbering into the circuit's output-first
    /// numbering and materializes the gates with renumbered addresses.
    pub fn build_circuit(&mut self) -> (r: GeneralCircuit)
        requires
            forall|g: int, k: int|
                0 <= g < old(self).layers@.len() && 0 <= k < old(self).layers@[g]@.len() ==> {
                    let gate = #[trigger] old(self).layers@[g]@[k];
                    gate.inputs[0].0 <= old(self).layers@.len() && gate.inputs[1].0 <= old(
                        self,
                    ).layers@.len()
                },
        ensures
            *final(self) == *old(self),
            r.layers@.len() == old(self).layers@.len(),
            forall|i: int|
                0 <= i < r.layers@.len() ==> (#[trigger] r.layers@[i]).gates@.len() == old(
                    self,
                ).layers@[old(self).layers@.len() - 1 - i]@.len(),
            forall|i: int, k: int|
                0 <= i < r.layers@.len() && 0 <= k < r.layers@[i].gates@.len() ==> {
                    let src = old(self).layers@[old(self).layers@.len() - 1 - i]@[k];
                    let dst = (#[trigger] r.layers@[i].gates@[k]);
                    &&& dst.op == src.op
                    &&& dst.inputs[0].0 == old(self).layers@.len() - src.inputs[0].0
                    &&& dst.inputs[0].1 == src.inputs[0].1
                    &&& dst.inputs[1].0 == old(self).layers@.len() - src.inputs[1].0
                    &&& dst.inputs[1].1 == src.inputs[1].1
                },
    {
        let max_layer_index = self.layers.len();
        let mut layers: Vec<Layer> = Vec::new();
        let mut i: usize = 0;
        while i < max_layer_index
            invariant
                i <= max_layer_index,
                max_layer_index == self.layers@.len(),
                self == old(self),
                forall|g: int, k: int|
                    0 <= g < self.layers@.len() && 0 <= k < self.layers@[g]@.len() ==> {
                        let gate = #[trigger] self.layers@[g]@[k];
                        gate.inputs[0].0 <= self.layers@.len() && gate.inputs[1].0
                            <= self.layers@.len()
                    },
                layers@.len() == i,
                forall|i2: int|
                    0 <= i2 < i ==> (#[trigger] layers@[i2]).gates@.len() == self.layers@[
                        max_layer_index - 1 - i2
                    ]@.len(),
                forall|i2: int, k: int|
                    0 <= i2 < i && 0 <= k < layers@[i2].gates@.len() ==> {
                        let src = self.layers@[max_layer_index - 1 - i2]@[k];
                        let dst = (#[trigger] layers@[i2].gates@[k]);
                        &&& dst.op == src.op
                        &&& dst.inputs[0].0 == max_layer_index - src.inputs[0].0
                        &&& dst.inputs[0].1 == src.inputs[0].1
                        &&& dst.inputs[1].0 == max_layer_index - src.inputs[1].0
                        &&& dst.inputs[1].1 == src.inputs[1].1
                    },
            decreases max_layer_index - i,
        {
            let src_layer = &self.layers[max_layer_index - 1 - i];
            let mut gates: Vec<Gate> = Vec::new();
            let mut k: usize = 0;
            while k < src_layer.len()
                invariant
                    k <= src_layer@.len(),
                    src_layer@ == self.layers@[max_layer_index - 1 - i as int]@,
                    i < max_layer_index,
                    max_layer_index == self.layers@.len(),
                    forall|k2: int|
                        0 <= k2 < src_layer@.len() ==> {
                            let gate = #[trigger] src_layer@[k2];
                            gate.inputs[0].0 <= max_layer_index && gate.inputs[1].0
                                <= max_layer_index
                        },
                    gates@.len() == k,
                    forall|k2: int|
                        0 <= k2 < k ==> {
                            let src = src_layer@[k2];
                            let dst = (#[trigger] gates@[k2]);
                            &&& dst.op == src.op
                            &&& dst.inputs[0].0 == max_layer_index - src.inputs[0].0
                            &&& dst.inputs[0].1 == src.inputs[0].1
                            &&& dst.inputs[1].0 == max_layer_index - src.inputs[1].0
                            &&& dst.inputs[1].1 == src.inputs[1].1
                        },
                decreases src_layer@.len() - k,
            {
                let src = &src_layer[k];
                let mut gate = Gate { op: src.op, inputs: src.inputs };
                update_gate_index(&mut gate, max_layer_index);
                gates.push(gate);
                k = k + 1;
            }
            layers.push(Layer::new(gates));
            i = i + 1;
        }
        GeneralCircuit::new(layers)
    }
}

} // verus!
