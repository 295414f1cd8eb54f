//! Exact complex-number arithmetic over 64-bit integer components, with
//! aggregate norm reductions over vectors of complex values and proved
//! algebraic laws (positive-definiteness and homogeneity of the squared
//! norm, bracketing of the floor square root).

pub mod complex;
pub mod norms;
pub mod sqrt;

pub use complex::Complex;
