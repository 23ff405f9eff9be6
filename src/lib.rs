//! Scattered-data interpolation with radial basis functions augmented by a
//! polynomial trend.
//!
//! The library holds everything about an interpolation problem that is not
//! arithmetic on reals: the enumeration of the polynomial basis, the
//! structural parameters of a fit and their validation, the layout of the
//! augmented (kernel + polynomial) linear system, the order in which a fit is
//! checked, assembled and solved, and the basis functions of a fitted model.
//! The arithmetic of the scalar type, and the dense solve, are handed in by
//! the caller.
pub mod builder;
pub mod powers;
pub mod rbf;
