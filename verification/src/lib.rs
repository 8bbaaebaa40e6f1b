//! Polynomials over the BLS12-381 scalar field, as coefficients or as values
//! on a domain of roots of unity, and the Fourier transforms between the
//! two.
//!
//! [`domain::EvaluationDomain`] is the type to start from. The transforms
//! themselves are in [`fft`]; what they compute is stated in [`dft`], and
//! [`laws`] holds what is proved of them taken together.

pub mod bitrev;
pub mod convolution;
pub mod dft;
pub mod domain;
pub mod error;
pub mod fft;
pub mod field;
pub mod lanes;
pub mod laws;
pub mod orthogonality;
pub mod ring;
pub mod roots;
pub mod serial;
pub mod stages;
pub mod sums;
