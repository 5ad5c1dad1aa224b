//! Mean-field stability analysis of a dipolar Bose-Hubbard model on a square
//! periodic two-dimensional lattice.
//!
//! This crate verifies the discrete core of the model: periodic index
//! arithmetic and the position/index bijection, occupation-pattern
//! generation, the truncated neighbor enumeration that feeds the
//! dipole-dipole interaction sums, the nearest-neighbor column structure of
//! the mean-field stability matrix, and the parsing of pattern names.
//! The real-valued evaluation of those sums (dipole couplings, determinants,
//! the critical-tunneling scan) is floating-point work that sits outside the
//! verified library.

pub mod dipolar;
pub mod lattice;
pub mod patterns;
pub mod util;
