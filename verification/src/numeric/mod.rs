/// Combinatorial spec functions (binomial coefficients, powers, integer sums).
pub mod combinatorics;

/// Trusted access to arbitrary-precision integers.
pub mod bigint;

/// The scalar arithmetic contract used by integration and interpolation.
pub mod scalar;
