//! A small fully-connected network toolkit: dense row-major matrices, row
//! gathering, central-difference gradient estimation, IDX (MNIST) parsing
//! and mini-batch index sampling.

pub mod functions;
pub mod impls;
pub mod matrix;
pub mod matrix_functions;
pub mod mnist;
pub mod rand_ext;
pub mod types;
