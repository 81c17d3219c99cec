use vstd::prelude::*;

verus! {

/// Everything a network operation can fail with.
#[derive(Debug)]
pub enum Error {
    /// A required storage side of a buffer could not be produced; the payload
    /// says which access was attempted.
    UnavailableBuffer(String),
    Network(NetworkError),
    Mismatch(MismatchError),
    Decode(DecodeError),
}

/// Failures while rebuilding a network from its byte form.
#[derive(Clone, Copy, Debug, PartialEq, Eq, Structural)]
pub enum DecodeError {
    /// The stored layer-type tag is not one this crate can rebuild.
    InvalidLayerType(usize),
}

/// Disagreements between the shapes of training data.
#[derive(Clone, Copy, Debug, PartialEq, Eq, Structural)]
pub enum MismatchError {
    /// Input sample count and target sample count differ.
    Sample(usize, usize),
}

/// Failures while assembling a network.
#[derive(Clone, Copy, Debug, PartialEq, Eq, Structural)]
pub enum NetworkError {
    /// No layers were provided.
    ZeroLayers,
}

} // verus!
