//! Dense matrix algorithms, verified with Verus: matrix polynomial
//! evaluation (Horner and Paterson-Stockmeyer), the sketched column-pivoted
//! QR factorization, and principal component analysis.
//!
//! The algorithms are generic over the entry type through the `Scalar`
//! trait; `i64` with wrapping arithmetic is the verified instance.
pub mod scalar;
pub mod algebra;
pub mod mat;
pub mod linalg;
pub mod stats;

pub use mat::{Conj, Mat, MatRef};
