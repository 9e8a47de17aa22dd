//! Small feed-forward neural networks that evolve by random structural and
//! weight mutation.
//!
//! A network is an ordered list of layers (layer 0 takes the inputs), a number
//! of outputs and weighted connections that always lead to a later layer or to
//! an output. The network is generic over its value type `W`: the arithmetic of
//! evaluation and the drawing of fresh weights are supplied by the caller as
//! closures, and the contracts speak of their results.
//!
//! - `network`: the graph, its invariant and the operations with exact
//!   contracts (construction, adding a connection or a neuron, setting a weight).
//! - `eval`: forward evaluation, its specification as one sweep over the
//!   layers, and the laws proved of it.
//! - `mutation`: the random mutation operators and `child`.
pub mod eval;
pub mod mutation;
pub mod network;
mod random;

pub use mutation::{mutation_for, Mutation};
pub use network::{Connection, NeuralNetwork, Neuron, RunError, Target};
