//! A GF(256) matrix engine for structured Gaussian elimination: sparse rows, optional
//! dense rows, a dense block of right-most columns, O(1) row and column permutations
//! through logical/physical index tables, and an optional column index.
use vstd::prelude::*;

pub mod octet;
pub mod sparse_vec;
mod row_ops;
pub mod sums;
pub mod sparse_matrix;

pub use octet::{octet_mul, fma, ONE, ZERO};
pub use sparse_matrix::{MatrixError, SparseOctetMatrix};
pub use sparse_vec::{SparseOctetVec, SparseValuelessVec};

verus! {

} // verus!
