//! Decoding of trait schemas and matching of resolved trait values into
//! ordered, type-tagged image layer lists.

pub mod decoder;
