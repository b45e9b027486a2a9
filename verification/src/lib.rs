//! A small feedforward neural network: construction from a topology and a
//! source of random numbers, and evaluation by layer-wise propagation with a
//! rectified-linear activation.
//!
//! The network is generic over its number type. Whatever the numbers are,
//! the contracts fix the shape of what is built, the order in which random
//! values are consumed, and the order in which the arithmetic is carried out.
pub mod error;
pub mod scalar;
pub mod sequences;
pub mod source;
pub mod topology;
pub mod neuron;
pub mod layer;
pub mod network;

pub use error::ContractViolation;
pub use layer::Layer;
pub use network::Network;
pub use neuron::{Neuron, NeuronModel};
pub use scalar::Scalar;
pub use source::{Replay, Source};
pub use topology::LayerTopology;
