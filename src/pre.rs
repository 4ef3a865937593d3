//! The tensor front-end: it records tensor operations into a flat graph of
//! operators, inferring the shape and element type of each result.
mod typing;
mod tensor;
mod prekernel;

pub use typing::{DType, Dim, Shape, sh, dims_of};
pub use tensor::{Op, TensorRef, TensorError, upstream_of};
pub use prekernel::{PreKernel, fits, input_graph, input_views};
