use vstd::prelude::*;

verus! {

/// The size of one layer of a network.
#[derive(Debug, Clone, Copy)]
pub struct LayerTopology {
    /// How many neurons the layer holds.
    pub neurons: usize,
}

/// The neuron counts of a topology, entry by entry.
pub open spec fn widths(topology: Seq<LayerTopology>) -> Seq<nat> {
    Seq::new(topology.len(), |i: int| topology[i].neurons as nat)
}

} // verus!
