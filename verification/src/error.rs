use vstd::prelude::*;

verus! {

/// A caller's mistake in how a network is built or invoked. It is never
/// transient: the same call fails in the same way every time.
#[derive(Debug, Clone, Copy, PartialEq, Eq, Structural)]
pub enum ContractViolation {
    /// The topology has fewer than two entries, so it describes no layer.
    TopologyTooShort,
    /// An input vector is not as long as a neuron's weight vector.
    InputWidthMismatch,
}

} // verus!
