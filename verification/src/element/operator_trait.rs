use vstd::prelude::*;

use std::collections::HashMap;

use crate::element::element_traits::Element;
use crate::numeric::scalar::NumericScalar;

verus! {

/// Computes a discrete matrix operator.
///
/// Given the real geometry of a cell and the per-field data associated with
/// it, an implementor computes the flattened local matrix that embodies one
/// discretized operator, using its chosen element type to describe the
/// cell. Concrete operators are solver-specific; this contract only fixes
/// their shape.
pub trait Operator<C, D: NumericScalar>: Sized {
    /// The type of element this operator uses to describe the cell.
    type ElementT: Element<C, D>;

    /// Apply the operator to one cell: `geometry` holds the cell's node
    /// coordinates and `data` the field values keyed by field name; the
    /// result is a flattened local operator matrix.
    fn apply(&self, geometry: &[C], data: &HashMap<String, Vec<D>>) -> Vec<D>;
}

} // verus!
