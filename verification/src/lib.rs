//! Reference-element kernel for finite-element codes: exact Jacobi
//! polynomials, quadrature and shape-basis contracts, reference elements,
//! and the combinatorial topology of simplices.

/// Descriptions of geometry: the `Geometry` contract and the simplex.
pub mod geometry;

/// Element-level building blocks: Jacobi polynomials, integration rules,
/// shape bases, reference elements and the operator contract.
pub mod element;

/// Shared numeric foundations: combinatorial spec functions, integer sums,
/// arbitrary-precision integers and the scalar arithmetic contract.
pub mod numeric;
