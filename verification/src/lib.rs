//! Dense linear algebra and discrete probability laws over a scalar type that
//! the caller chooses.
//!
//! The library owns the shapes, the index arithmetic and the order in which
//! scalar operations are applied; the number type behind a [`scalar::Scalar`]
//! supplies the operations themselves.
pub mod combinatorics;
pub mod linear_algebra;
pub mod scalar;
pub mod stats;
