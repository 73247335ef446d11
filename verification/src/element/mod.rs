/// Exact Jacobi polynomials.
pub mod jacobi;

/// Integration-rule, shape-basis and element contracts.
pub mod element_traits;

/// The operator contract at the element level.
pub mod operator_trait;

/// Concrete integration rules, shape bases and the reference element.
pub mod reference;
