use vstd::prelude::*;

use crate::numeric::scalar::{lemma_dot_ones, spec_dot, spec_sum, NumericScalar};

verus! {

/// Integrating the constant function one reproduces the measure the
/// weights encode: for every well-formed rule, what `integrate` returns on
/// an all-ones integrand is the plain sum of the weights.
pub proof fn lemma_integrate_constant_one<C, R: IntegrationRule<C, i64>>(rule: R, values: Seq<i64>)
    requires
        rule.wf(),
        values.len() == rule.spec_weights().len(),
        forall|i: int| 0 <= i < values.len() ==> values[i] == 1i64,
    ensures
        spec_dot(rule.spec_weights(), values) == spec_sum(rule.spec_weights()),
{
    lemma_dot_ones(rule.spec_weights(), values);
}

/// The values of a field at every integration point: entry `p` interpolates
/// the nodal `values` with row `p` of the flattened `(points, bases)` shape
/// table.
pub open spec fn spec_interpolated_values<D: NumericScalar>(
    shapes: Seq<D>,
    bases: int,
    points: int,
    values: Seq<D>,
) -> Seq<D> {
    Seq::new(points as nat, |p: int| spec_dot(shapes.subrange(p * bases, (p + 1) * bases), values))
}

/// One column of a basis-major flattened matrix with `width` entries per
/// row: entry `b` is the matrix entry at `(b, column)`.
pub open spec fn spec_matrix_column<D: NumericScalar>(
    matrix: Seq<D>,
    width: int,
    column: int,
    rows: int,
) -> Seq<D> {
    Seq::new(rows as nat, |b: int| matrix[b * width + column])
}

/// Provides weights and points for discrete integration operations.
///
/// Discrete integration is a dot product between integration weights and
/// values of the integrand at the rule's points: a quadrature or cubature
/// rule. The spec functions fix the rule's data; the methods are bound to
/// them exactly.
pub trait IntegrationRule<C, D: NumericScalar>: Sized {
    /// Well-formedness, established at construction.
    spec fn wf(&self) -> bool;

    /// The dimension of the point space.
    spec fn spec_dimension(&self) -> nat;

    /// The integration weights, in order.
    spec fn spec_weights(&self) -> Seq<D>;

    /// The integration points, one point of `spec_dimension` coordinates
    /// per weight, flattened point-by-point.
    spec fn spec_points(&self) -> Seq<C>;

    /// A well-formed rule holds one point of `spec_dimension` coordinates
    /// for each weight.
    proof fn lemma_points_shape(&self)
        requires
            self.wf(),
        ensures
            self.spec_points().len() == self.spec_weights().len() * self.spec_dimension(),
    ;

    /// Get the underlying dimension of the point space.
    fn get_dimension(&self) -> (r: usize)
        requires
            self.wf(),
        ensures
            r as nat == self.spec_dimension(),
    ;

    /// Get the weights associated with this integration.
    fn get_weights(&self) -> (r: &[D])
        requires
            self.wf(),
        ensures
            r@ == self.spec_weights(),
    ;

    /// Get the points in point-major order.
    fn get_points(&self) -> (r: &[C])
        requires
            self.wf(),
        ensures
            r@ == self.spec_points(),
    ;

    /// Get the number of individual weights.
    fn get_number_of_points(&self) -> (r: usize)
        requires
            self.wf(),
        ensures
            r as nat == self.spec_weights().len(),
    ;

    /// Produce a rule with the same dimension, weights and points.
    fn duplicate(&self) -> (r: Self)
        requires
            self.wf(),
        ensures
            r.wf(),
            r.spec_dimension() == self.spec_dimension(),
            r.spec_weights() == self.spec_weights(),
            r.spec_points() == self.spec_points(),
    ;

    /// Integrate a range of values: the dot product of the weights with the
    /// integrand values at the points, summed in ascending point order.
    fn integrate(&self, values: &[D]) -> (r: D)
        requires
            self.wf(),
            values@.len() == self.spec_weights().len(),
        ensures
            r == spec_dot(self.spec_weights(), values@),
    ;
}

/// Provides basis shape functions for describing fields inside elements.
///
/// Fields are encoded into arrays by element-level basis functions called
/// shape functions; an implementor interpolates their values, and their
/// first derivatives, at any coordinate inside the element.
pub trait ShapeBasis<C, D: NumericScalar>: Sized {
    /// Well-formedness, established at construction.
    spec fn wf(&self) -> bool;

    /// The dimension of the space the shapes are defined on.
    spec fn spec_dimension(&self) -> nat;

    /// How many values describe one shape-function derivative.
    spec fn spec_derivative_order(&self) -> nat;

    /// The number of basis functions.
    spec fn spec_number_of_bases(&self) -> nat;

    /// The values of every basis function at a coordinate.
    spec fn spec_basis_at(&self, coord: Seq<C>) -> Seq<D>;

    /// The derivatives of every basis function at a coordinate, basis-major:
    /// `spec_derivative_order` values per basis function.
    spec fn spec_basis_derivative_at(&self, coord: Seq<C>) -> Seq<D>;

    /// Get the underlying dimension of the space the shapes are defined on.
    fn get_dimension(&self) -> (r: usize)
        requires
            self.wf(),
        ensures
            r as nat == self.spec_dimension(),
    ;

    /// Get the number of values describing one shape-function derivative.
    fn get_derivative_order(&self) -> (r: usize)
        requires
            self.wf(),
        ensures
            r as nat == self.spec_derivative_order(),
    ;

    /// Get the number of basis functions.
    fn get_number_of_bases(&self) -> (r: usize)
        requires
            self.wf(),
        ensures
            r as nat == self.spec_number_of_bases(),
    ;

    /// Produce a basis with the same dimensions and shape functions.
    fn duplicate(&self) -> (r: Self)
        requires
            self.wf(),
        ensures
            r.wf(),
            r.spec_dimension() == self.spec_dimension(),
            r.spec_derivative_order() == self.spec_derivative_order(),
            r.spec_number_of_bases() == self.spec_number_of_bases(),
            forall|c: Seq<C>| #[trigger] r.spec_basis_at(c) == self.spec_basis_at(c),
            forall|c: Seq<C>| #[trigger] r.spec_basis_derivative_at(c)
                == self.spec_basis_derivative_at(c),
    ;

    /// Interpolate the basis functions at a given coordinate.
    fn interpolate_basis(&self, coord: &[C]) -> (r: Vec<D>)
        requires
            self.wf(),
            coord@.len() == self.spec_dimension(),
        ensures
            r@ == self.spec_basis_at(coord@),
            r@.len() == self.spec_number_of_bases(),
    ;

    /// Interpolate the basis functions' derivatives at a given coordinate.
    fn interpolate_basis_derivative(&self, coord: &[C]) -> (r: Vec<D>)
        requires
            self.wf(),
            coord@.len() == self.spec_dimension(),
        ensures
            r@ == self.spec_basis_derivative_at(coord@),
            r@.len() == self.spec_number_of_bases() * self.spec_derivative_order(),
    ;

    /// Interpolate the value of the function defined by weighting each
    /// basis function with `values`, at the point `coord` of the element.
    fn interpolate(&self, coord: &[C], values: &[D]) -> (r: D)
        requires
            self.wf(),
            coord@.len() == self.spec_dimension(),
            values@.len() == self.spec_number_of_bases(),
        ensures
            r == spec_dot(self.spec_basis_at(coord@), values@),
    ;

    /// Same as `interpolate`, but for the derivative of the function: the
    /// nodal values as a row vector times the basis-major derivative matrix.
    fn interpolate_derivative(&self, coord: &[C], values: &[D]) -> (r: Vec<D>)
        requires
            self.wf(),
            coord@.len() == self.spec_dimension(),
            values@.len() == self.spec_number_of_bases(),
        ensures
            r@.len() == self.spec_derivative_order(),
            forall|q: int|
                0 <= q < r@.len() ==> r@[q] == spec_dot(
                    values@,
                    spec_matrix_column(
                        self.spec_basis_derivative_at(coord@),
                        self.spec_derivative_order() as int,
                        q,
                        self.spec_number_of_bases() as int,
                    ),
                ),
    ;
}

/// Provides all the basic building blocks for the reference element of the
/// finite element method: a basis of shape functions, an integration rule,
/// and precomputed values of the shapes on the integration points.
pub trait Element<C, D: NumericScalar>: Sized {
    /// The type of integration rule used by the element.
    type IntegratorT: IntegrationRule<C, D>;

    /// The type of shape basis used by the element.
    type ShapeBasisT: ShapeBasis<C, D>;

    /// Well-formedness: the precomputed tables are consistent with the
    /// owned rule and basis.
    spec fn wf(&self) -> bool;

    /// The owned integration rule.
    spec fn spec_integrator(&self) -> Self::IntegratorT;

    /// The owned shape basis.
    spec fn spec_basis(&self) -> Self::ShapeBasisT;

    /// The precomputed shape values at the integration points, flattened in
    /// `(points, bases, 1)` shape.
    spec fn spec_shapes(&self) -> Seq<D>;

    /// The precomputed shape derivatives at the integration points,
    /// flattened in `(points, bases, derivative_order)` shape.
    spec fn spec_shape_derivatives(&self) -> Seq<D>;

    /// The Jacobian-like geometry derivatives for a cell whose node
    /// coordinates are `coords`, flattened in
    /// `(points, dimension, derivative_order)` shape.
    spec fn spec_geometry_derivatives(&self, coords: Seq<C>) -> Seq<D>;

    /// A well-formed element owns a well-formed rule and basis of one
    /// common dimension, and its cached shape tables are exactly the basis
    /// values and derivatives at the rule's points.
    proof fn lemma_wf_shapes(&self)
        requires
            self.wf(),
        ensures
            self.spec_integrator().wf(),
            self.spec_basis().wf(),
            self.spec_basis().spec_dimension() == self.spec_integrator().spec_dimension(),
            self.spec_shapes().len() == self.spec_integrator().spec_weights().len()
                * self.spec_basis().spec_number_of_bases(),
            self.spec_shape_derivatives().len() == self.spec_integrator().spec_weights().len() * (
            self.spec_basis().spec_number_of_bases()
                * self.spec_basis().spec_derivative_order()),
            forall|p: int|
                0 <= p < self.spec_integrator().spec_weights().len()
                    ==> #[trigger] self.spec_shapes().subrange(
                    p * self.spec_basis().spec_number_of_bases(),
                    (p + 1) * self.spec_basis().spec_number_of_bases(),
                ) == self.spec_basis().spec_basis_at(self.spec_point(p)),
            forall|p: int|
                0 <= p < self.spec_integrator().spec_weights().len()
                    ==> #[trigger] self.spec_shape_derivatives().subrange(
                    p * (self.spec_basis().spec_number_of_bases()
                        * self.spec_basis().spec_derivative_order()),
                    (p + 1) * (self.spec_basis().spec_number_of_bases()
                        * self.spec_basis().spec_derivative_order()),
                ) == self.spec_basis().spec_basis_derivative_at(self.spec_point(p)),
    ;

    /// Integration point `p` of the owned rule, as a coordinate.
    open spec fn spec_point(&self, p: int) -> Seq<C> {
        self.spec_integrator().spec_points().subrange(
            p * self.spec_integrator().spec_dimension(),
            (p + 1) * self.spec_integrator().spec_dimension(),
        )
    }

    /// Get the integration rule.
    fn get_integrator(&self) -> (r: Self::IntegratorT)
        requires
            self.wf(),
        ensures
            r.wf(),
            r.spec_dimension() == self.spec_integrator().spec_dimension(),
            r.spec_weights() == self.spec_integrator().spec_weights(),
            r.spec_points() == self.spec_integrator().spec_points(),
    ;

    /// Get the shape basis.
    fn get_shape_basis(&self) -> (r: Self::ShapeBasisT)
        requires
            self.wf(),
        ensures
            r.wf(),
            r.spec_dimension() == self.spec_basis().spec_dimension(),
            r.spec_derivative_order() == self.spec_basis().spec_derivative_order(),
            r.spec_number_of_bases() == self.spec_basis().spec_number_of_bases(),
            forall|c: Seq<C>| #[trigger] r.spec_basis_at(c) == self.spec_basis().spec_basis_at(c),
            forall|c: Seq<C>| #[trigger] r.spec_basis_derivative_at(c)
                == self.spec_basis().spec_basis_derivative_at(c),
    ;

    /// Get the values of the shape basis at the integration points, in
    /// `(points, bases, 1)` order.
    fn get_shapes_for_integration(&self) -> (r: &[D])
        requires
            self.wf(),
        ensures
            r@ == self.spec_shapes(),
    ;

    /// Get the values of the derivatives of the shape basis at the
    /// integration points, in `(points, bases, derivative_order)` order.
    fn get_shape_derivatives_for_integration(&self) -> (r: &[D])
        requires
            self.wf(),
        ensures
            r@ == self.spec_shape_derivatives(),
    ;

    /// Get the values of the Jacobian matrices at the integration points
    /// for an element with geometry described by `coords`, in
    /// `(points, dimension, derivative_order)` order.
    fn get_geometry_derivatives_for_integration(&self, coords: &[C]) -> (r: Vec<D>)
        requires
            self.wf(),
            coords@.len() == self.spec_basis().spec_number_of_bases()
                * self.spec_integrator().spec_dimension(),
        ensures
            r@ == self.spec_geometry_derivatives(coords@),
    ;

    /// Integrate a field inside the element with shape weights equal to
    /// `values`: interpolate the nodal values to every integration point
    /// with the precomputed shape table, then apply the owned rule.
    fn integrate(&self, values: &[D]) -> (r: D)
        requires
            self.wf(),
            values@.len() == self.spec_basis().spec_number_of_bases(),
        ensures
            r == spec_dot(
                self.spec_integrator().spec_weights(),
                spec_interpolated_values(
                    self.spec_shapes(),
                    self.spec_basis().spec_number_of_bases() as int,
                    self.spec_integrator().spec_weights().len() as int,
                    values@,
                ),
            ),
    ;
}

} // verus!
