use vstd::prelude::*;

pub mod binary_v1;

verus! {

/// The errors of the persistence layer, aggregated over its formats.
#[derive(Debug, Clone, Copy, PartialEq, Eq, Structural)]
pub enum PersistenceError {
    BinaryV1Serialization(binary_v1::SerializationError),
    BinaryV1Deserialization(binary_v1::DeserializationError),
}

} // verus!
