//! Core data structures of a small ray tracer: exact fixed-point scalars,
//! matrix algebra with cofactor-expansion determinants, the pixel canvas
//! with its PPM text encoding, and the tags shared with the geometry layer.

pub mod canvas;
pub mod matrix;
pub mod plane;
pub mod tuple;
pub mod utils;
