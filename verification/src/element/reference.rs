use vstd::prelude::*;

use vstd::arithmetic::div_mod::{
    lemma_add_mod_noop, lemma_fundamental_div_mod_converse, lemma_small_mod,
};
use vstd::slice::slice_subrange;

use crate::element::element_traits::{
    spec_interpolated_values, spec_matrix_column, Element, IntegrationRule, ShapeBasis,
};
use crate::numeric::combinatorics::sum_int;
use crate::numeric::scalar::{
    copy_values, dot_product, int_views, lemma_fold_sub_congruence, lemma_same_remainder_i64,
    lemma_sum_congruence, spec_dot, spec_fold_sub, spec_sum, spec_sum_exact, NumericScalar,
};

verus! {

broadcast use vstd::prelude::Seq::lemma_flatten_push;

/// An integration rule held as explicit tables: a weight per point and one
/// point of `dimension` coordinates per weight, flattened point-by-point.
pub struct TabulatedRule<C, D> {
    dimension: usize,
    weights: Vec<D>,
    points: Vec<C>,
}

impl<C: Copy, D: NumericScalar> TabulatedRule<C, D> {
    /// Build a rule from its tables. Construction fails exactly when the
    /// point buffer does not hold one point of `dimension` coordinates per
    /// weight.
    pub fn new(dimension: usize, weights: Vec<D>, points: Vec<C>) -> (r: Option<
        TabulatedRule<C, D>,
    >)
        ensures
            r is Some <==> points@.len() == weights@.len() * dimension,
            r is Some ==> {
                &&& r.unwrap().wf()
                &&& r.unwrap().spec_dimension() == dimension as nat
                &&& r.unwrap().spec_weights() == weights@
                &&& r.unwrap().spec_points() == points@
            },
    {
        let point_count = points.len();
        let length_matches = match weights.len().checked_mul(dimension) {
            Some(expected) => point_count == expected,
            None => false,
        };
        if length_matches {
            Some(TabulatedRule { dimension, weights, points })
        } else {
            None
        }
    }
}

impl<C: Copy, D: NumericScalar> IntegrationRule<C, D> for TabulatedRule<C, D> {
    closed spec fn wf(&self) -> bool {
        self.points@.len() == self.weights@.len() * self.dimension
    }

    closed spec fn spec_dimension(&self) -> nat {
        self.dimension as nat
    }

    closed spec fn spec_weights(&self) -> Seq<D> {
        self.weights@
    }

    closed spec fn spec_points(&self) -> Seq<C> {
        self.points@
    }

    proof fn lemma_points_shape(&self) {
    }

    fn get_dimension(&self) -> (r: usize) {
        self.dimension
    }

    fn get_weights(&self) -> (r: &[D]) {
        self.weights.as_slice()
    }

    fn get_points(&self) -> (r: &[C]) {
        self.points.as_slice()
    }

    fn get_number_of_points(&self) -> (r: usize) {
        self.weights.len()
    }

    fn duplicate(&self) -> (r: Self) {
        TabulatedRule {
            dimension: self.dimension,
            weights: copy_values(&self.weights),
            points: copy_values(&self.points),
        }
    }

    fn integrate(&self, values: &[D]) -> (r: D) {
        dot_product(self.weights.as_slice(), values)
    }
}

/// Entry `idx` of the flattened basis-major derivative matrix of the linear
/// simplex basis on a `dim`-dimensional reference simplex: the complement
/// shape falls with every coordinate, and shape `b` rises with coordinate
/// `b - 1` alone.
pub open spec fn spec_linear_derivative_entry(dim: int, idx: int) -> i64 {
    if idx / dim == 0 {
        -1i64
    } else if idx / dim - 1 == idx % dim {
        1i64
    } else {
        0i64
    }
}

/// The linear (barycentric) shape basis on the reference simplex of a given
/// dimension: one shape per vertex, affine in the coordinates, with the
/// first shape the complement of the coordinate sum.
#[derive(Clone, Copy)]
pub struct LinearSimplexBasis {
    /// The dimension of the reference simplex the basis lives on.
    pub dimension: usize,
}

impl LinearSimplexBasis {
    /// Build the linear basis on the reference simplex of this dimension.
    pub fn new(dimension: usize) -> (r: LinearSimplexBasis)
        requires
            dimension < usize::MAX,
        ensures
            r.wf(),
            r.spec_dimension() == dimension as nat,
    {
        LinearSimplexBasis { dimension }
    }
}

impl ShapeBasis<i64, i64> for LinearSimplexBasis {
    open spec fn wf(&self) -> bool {
        self.dimension < usize::MAX
    }

    open spec fn spec_dimension(&self) -> nat {
        self.dimension as nat
    }

    open spec fn spec_derivative_order(&self) -> nat {
        self.dimension as nat
    }

    open spec fn spec_number_of_bases(&self) -> nat {
        (self.dimension + 1) as nat
    }

    /// The first value is one minus the coordinates, subtracted in order;
    /// the others are the coordinates themselves.
    open spec fn spec_basis_at(&self, coord: Seq<i64>) -> Seq<i64> {
        Seq::new(
            (self.dimension + 1) as nat,
            |i: int|
                if i == 0 {
                    spec_fold_sub(1i64, coord)
                } else {
                    coord[i - 1]
                },
        )
    }

    open spec fn spec_basis_derivative_at(&self, coord: Seq<i64>) -> Seq<i64> {
        Seq::new(
            ((self.dimension + 1) * self.dimension) as nat,
            |idx: int| spec_linear_derivative_entry(self.dimension as int, idx),
        )
    }

    fn get_dimension(&self) -> (r: usize) {
        self.dimension
    }

    fn get_derivative_order(&self) -> (r: usize) {
        self.dimension
    }

    fn get_number_of_bases(&self) -> (r: usize) {
        self.dimension + 1
    }

    fn duplicate(&self) -> (r: Self) {
        *self
    }

    fn interpolate_basis(&self, coord: &[i64]) -> (r: Vec<i64>) {
        let mut complement: i64 = 1;
        let mut j: usize = 0;
        assert(coord@.take(0) =~= Seq::<i64>::empty());
        while j < coord.len()
            invariant
                j <= coord@.len(),
                complement == spec_fold_sub(1i64, coord@.take(j as int)),
            decreases coord@.len() - j,
        {
            complement = complement.minus(coord[j]);
            proof {
                assert(coord@.take(j + 1).drop_last() =~= coord@.take(j as int));
                assert(coord@.take(j + 1).last() == coord@[j as int]);
            }
            j = j + 1;
        }
        assert(coord@.take(coord@.len() as int) =~= coord@);
        let mut r: Vec<i64> = Vec::new();
        r.push(complement);
        let mut i: usize = 0;
        while i < coord.len()
            invariant
                i <= coord@.len(),
                complement == spec_fold_sub(1i64, coord@),
                r@ == seq![complement] + coord@.take(i as int),
            decreases coord@.len() - i,
        {
            r.push(coord[i]);
            assert(r@ =~= seq![complement] + coord@.take(i + 1));
            i = i + 1;
        }
        assert(r@ =~= self.spec_basis_at(coord@));
        r
    }

    fn interpolate_basis_derivative(&self, coord: &[i64]) -> (r: Vec<i64>)
    {
        let dim = self.dimension;
        let ghost dims: int = dim as int;
        let mut r: Vec<i64> = Vec::new();
        let mut b: usize = 0;
        while b <= dim
            invariant
                b <= dim + 1,
                dim < usize::MAX,
                r@.len() == b * dims,
                dims == dim as int,
                forall|idx: int|
                    0 <= idx < r@.len() ==> r@[idx] == spec_linear_derivative_entry(dims, idx),
            decreases dim + 1 - b,
        {
            let mut q: usize = 0;
            while q < dim
                invariant
                    q <= dim,
                    b <= dim,
                    dim < usize::MAX,
                    r@.len() == b * dims + q,
                    dims == dim as int,
                    forall|idx: int|
                        0 <= idx < r@.len() ==> r@[idx] == spec_linear_derivative_entry(dims, idx),
                decreases dim - q,
            {
                let value: i64 = if b == 0 {
                    -1
                } else if b - 1 == q {
                    1
                } else {
                    0
                };
                r.push(value);
                proof {
                    lemma_fundamental_div_mod_converse(
                        b as int * dims + q as int,
                        dims,
                        b as int,
                        q as int,
                    );
                }
                q = q + 1;
            }
            proof {
                assert(b * dims + dims == (b + 1) * dims) by (nonlinear_arith);
            }
            b = b + 1;
        }
        proof {
            assert((dim + 1) as int * dims == (dims + 1) * dims) by (nonlinear_arith)
                requires
                    dims == dim as int,
            ;
            assert(r@ =~= self.spec_basis_derivative_at(coord@));
        }
        r
    }

    fn interpolate(&self, coord: &[i64], values: &[i64]) -> (r: i64) {
        let shapes = self.interpolate_basis(coord);
        dot_product(shapes.as_slice(), values)
    }

    fn interpolate_derivative(&self, coord: &[i64], values: &[i64]) -> (r: Vec<i64>) {
        let matrix = self.interpolate_basis_derivative(coord);
        let dim = self.dimension;
        let bases = self.dimension + 1;
        let mut out: Vec<i64> = Vec::new();
        let mut q: usize = 0;
        while q < dim
            invariant
                q <= dim,
                bases == dim + 1 < usize::MAX + 1,
                matrix@ == self.spec_basis_derivative_at(coord@),
                matrix@.len() == bases * dim,
                values@.len() == bases,
                out@.len() == q,
                forall|qq: int|
                    0 <= qq < q ==> out@[qq] == spec_dot(
                        values@,
                        spec_matrix_column(matrix@, dim as int, qq, bases as int),
                    ),
            decreases dim - q,
        {
            let ghost column = spec_matrix_column(matrix@, dim as int, q as int, bases as int);
            let mut acc = i64::zero();
            let mut b: usize = 0;
            assert(values@.take(0) =~= Seq::<i64>::empty());
            assert(column.take(0) =~= Seq::<i64>::empty());
            while b < bases
                invariant
                    b <= bases,
                    q < dim,
                    bases == dim + 1,
                    matrix@.len() == bases * dim,
                    values@.len() == bases,
                    column == spec_matrix_column(matrix@, dim as int, q as int, bases as int),
                    acc == spec_dot(values@.take(b as int), column.take(b as int)),
                decreases bases - b,
            {
                proof {
                    assert(b * dim + q < bases * dim) by (nonlinear_arith)
                        requires
                            b < bases,
                            q < dim,
                    ;
                }
                acc = acc.plus(values[b].times(matrix[b * dim + q]));
                proof {
                    assert(values@.take(b + 1).drop_last() =~= values@.take(b as int));
                    assert(column.take(b + 1).drop_last() =~= column.take(b as int));
                    assert(values@.take(b + 1).last() == values@[b as int]);
                    assert(column.take(b + 1).last() == column[b as int]);
                }
                b = b + 1;
            }
            proof {
                assert(values@.take(values@.len() as int) =~= values@);
                assert(column.take(column.len() as int) =~= column);
            }
            out.push(acc);
            q = q + 1;
        }
        out
    }
}

/// One entry of the Jacobian of the geometry mapping: the dot product of
/// node coordinate component `d` over all shape functions with the
/// derivative of each shape function along `q` at integration point `p`.
pub open spec fn spec_geometry_entry<D: NumericScalar>(
    coords: Seq<D>,
    table: Seq<D>,
    bases: int,
    dim: int,
    dord: int,
    p: int,
    d: int,
    q: int,
) -> D {
    spec_dot(
        Seq::new(bases as nat, |b: int| coords[b * dim + d]),
        Seq::new(bases as nat, |b: int| table[p * (bases * dord) + b * dord + q]),
    )
}

/// One Jacobian row: the derivatives of geometry component `d` at point `p`.
pub open spec fn spec_geometry_row<D: NumericScalar>(
    coords: Seq<D>,
    table: Seq<D>,
    bases: int,
    dim: int,
    dord: int,
    p: int,
    d: int,
) -> Seq<D> {
    Seq::new(dord as nat, |q: int| spec_geometry_entry(coords, table, bases, dim, dord, p, d, q))
}

/// The flattened Jacobian matrix at one integration point.
pub open spec fn spec_geometry_point<D: NumericScalar>(
    coords: Seq<D>,
    table: Seq<D>,
    bases: int,
    dim: int,
    dord: int,
    p: int,
) -> Seq<D> {
    Seq::new(
        dim as nat,
        |d: int| spec_geometry_row(coords, table, bases, dim, dord, p, d),
    ).flatten()
}

/// The flattened Jacobian matrices at every integration point, in
/// `(points, dimension, derivative_order)` order.
pub open spec fn spec_geometry_table<D: NumericScalar>(
    coords: Seq<D>,
    table: Seq<D>,
    bases: int,
    dim: int,
    dord: int,
    points: int,
) -> Seq<D> {
    Seq::new(
        points as nat,
        |p: int| spec_geometry_point(coords, table, bases, dim, dord, p),
    ).flatten()
}

/// A classic finite-element reference element: an owned integration rule
/// and an owned shape basis over one scalar type, with the basis values and
/// derivatives precomputed at the rule's points once, at construction.
pub struct ReferenceElement<D: NumericScalar, R: IntegrationRule<D, D>, S: ShapeBasis<D, D>> {
    integrator: R,
    basis: S,
    shapes: Vec<D>,
    shape_derivatives: Vec<D>,
}

impl<D: NumericScalar, R: IntegrationRule<D, D>, S: ShapeBasis<D, D>> ReferenceElement<D, R, S> {
    /// Row `p` of the cached shape-value table.
    pub closed spec fn shape_row(&self, p: int) -> Seq<D> {
        self.shapes@.subrange(
            p * self.basis.spec_number_of_bases(),
            (p + 1) * self.basis.spec_number_of_bases(),
        )
    }

    /// Row `p` of the cached shape-derivative table.
    pub closed spec fn derivative_row(&self, p: int) -> Seq<D> {
        self.shape_derivatives@.subrange(
            p * (self.basis.spec_number_of_bases() * self.basis.spec_derivative_order()),
            (p + 1) * (self.basis.spec_number_of_bases() * self.basis.spec_derivative_order()),
        )
    }

    /// Compose a rule and a basis of one common dimension, precomputing the
    /// basis values and derivatives at every integration point.
    pub fn new(integrator: R, basis: S) -> (r: Self)
        requires
            integrator.wf(),
            basis.wf(),
            basis.spec_dimension() == integrator.spec_dimension(),
        ensures
            r.wf(),
            r.spec_integrator() == integrator,
            r.spec_basis() == basis,
    {
        proof {
            integrator.lemma_points_shape();
        }
        let dim = integrator.get_dimension();
        let nips = integrator.get_number_of_points();
        let nbases = basis.get_number_of_bases();
        let dord = basis.get_derivative_order();
        let points = integrator.get_points();
        let points_len = points.len();
        let ghost gb: int = nbases as int;
        let ghost gw: int = nbases as int * dord as int;
        let mut shapes: Vec<D> = Vec::new();
        let mut shape_derivatives: Vec<D> = Vec::new();
        let mut p: usize = 0;
        while p < nips
            invariant
                p <= nips,
                integrator.wf(),
                basis.wf(),
                basis.spec_dimension() == integrator.spec_dimension(),
                dim as nat == integrator.spec_dimension(),
                nips as nat == integrator.spec_weights().len(),
                nbases as nat == basis.spec_number_of_bases(),
                dord as nat == basis.spec_derivative_order(),
                gb == nbases as int,
                gw == nbases as int * dord as int,
                points@ == integrator.spec_points(),
                points@.len() == nips as int * dim as int,
                points@.len() == points_len as int,
                shapes@.len() == p * gb,
                shape_derivatives@.len() == p * gw,
                forall|pp: int|
                    0 <= pp < p ==> #[trigger] shapes@.subrange(pp * gb, (pp + 1) * gb)
                        == basis.spec_basis_at(
                        integrator.spec_points().subrange(
                            pp * integrator.spec_dimension(),
                            (pp + 1) * integrator.spec_dimension(),
                        ),
                    ),
                forall|pp: int|
                    0 <= pp < p ==> #[trigger] shape_derivatives@.subrange(pp * gw, (pp + 1) * gw)
                        == basis.spec_basis_derivative_at(
                        integrator.spec_points().subrange(
                            pp * integrator.spec_dimension(),
                            (pp + 1) * integrator.spec_dimension(),
                        ),
                    ),
            decreases nips - p,
        {
            proof {
                assert(p * dim + dim <= nips * dim) by (nonlinear_arith)
                    requires
                        p < nips,
                ;
                assert(0 <= p * dim) by (nonlinear_arith);
                assert(p * dim + dim == (p + 1) * dim) by (nonlinear_arith);
            }
            let coord = slice_subrange(points, p * dim, p * dim + dim);
            let mut vals = basis.interpolate_basis(coord);
            let ghost old_shapes = shapes@;
            let ghost val_row = vals@;
            shapes.append(&mut vals);
            let mut dvals = basis.interpolate_basis_derivative(coord);
            let ghost old_derivs = shape_derivatives@;
            let ghost dval_row = dvals@;
            shape_derivatives.append(&mut dvals);
            proof {
                assert(p * gb + gb == (p + 1) * gb) by (nonlinear_arith);
                assert(p * gw + gw == (p + 1) * gw) by (nonlinear_arith);
                assert(coord@ == integrator.spec_points().subrange(
                    p * integrator.spec_dimension(),
                    (p + 1) * integrator.spec_dimension(),
                ));
                assert(shapes@.subrange(p * gb, (p + 1) * gb) =~= val_row);
                assert(shape_derivatives@.subrange(p * gw, (p + 1) * gw) =~= dval_row);
                assert forall|pp: int| 0 <= pp < p implies #[trigger] shapes@.subrange(
                    pp * gb,
                    (pp + 1) * gb,
                ) == old_shapes.subrange(pp * gb, (pp + 1) * gb) by {
                    assert(0 <= pp * gb && (pp + 1) * gb <= p * gb && (pp + 1) * gb == pp * gb
                        + gb) by (nonlinear_arith)
                        requires
                            0 <= pp < p,
                            gb >= 0,
                    ;
                    assert(shapes@ == old_shapes + val_row);
                    assert forall|k: int| 0 <= k < gb implies (#[trigger] shapes@[pp * gb + k])
                        == old_shapes[pp * gb + k] by {
                        assert(0 <= pp * gb + k < p * gb);
                    }
                    assert(shapes@.subrange(pp * gb, (pp + 1) * gb) =~= old_shapes.subrange(
                        pp * gb,
                        (pp + 1) * gb,
                    ));
                }
                assert forall|pp: int| 0 <= pp < p implies #[trigger] shape_derivatives@.subrange(
                    pp * gw,
                    (pp + 1) * gw,
                ) == old_derivs.subrange(pp * gw, (pp + 1) * gw) by {
                    assert(0 <= pp * gw && (pp + 1) * gw <= p * gw && (pp + 1) * gw == pp * gw
                        + gw) by (nonlinear_arith)
                        requires
                            0 <= pp < p,
                            gw >= 0,
                    ;
                    assert(shape_derivatives@ == old_derivs + dval_row);
                    assert forall|k: int| 0 <= k < gw implies (#[trigger] shape_derivatives@[pp
                        * gw + k]) == old_derivs[pp * gw + k] by {
                        assert(0 <= pp * gw + k < p * gw);
                    }
                    assert(shape_derivatives@.subrange(pp * gw, (pp + 1) * gw)
                        =~= old_derivs.subrange(pp * gw, (pp + 1) * gw));
                }
                assert(p * gb + gb == (p + 1) * gb) by (nonlinear_arith);
                assert(p * gw + gw == (p + 1) * gw) by (nonlinear_arith);
            }
            p = p + 1;
        }
        ReferenceElement { integrator, basis, shapes, shape_derivatives }
    }
}

impl<D: NumericScalar, R: IntegrationRule<D, D>, S: ShapeBasis<D, D>> Element<D, D>
    for ReferenceElement<D, R, S> {
    type IntegratorT = R;

    type ShapeBasisT = S;

    closed spec fn wf(&self) -> bool {
        &&& self.integrator.wf()
        &&& self.basis.wf()
        &&& self.basis.spec_dimension() == self.integrator.spec_dimension()
        &&& self.shapes@.len() == self.integrator.spec_weights().len()
            * self.basis.spec_number_of_bases()
        &&& self.shape_derivatives@.len() == self.integrator.spec_weights().len() * (
        self.basis.spec_number_of_bases() * self.basis.spec_derivative_order())
        &&& forall|p: int|
            0 <= p < self.integrator.spec_weights().len() ==> #[trigger] self.shape_row(p)
                == self.basis.spec_basis_at(self.spec_point(p))
        &&& forall|p: int|
            0 <= p < self.integrator.spec_weights().len() ==> #[trigger] self.derivative_row(p)
                == self.basis.spec_basis_derivative_at(self.spec_point(p))
    }

    closed spec fn spec_integrator(&self) -> R {
        self.integrator
    }

    closed spec fn spec_basis(&self) -> S {
        self.basis
    }

    closed spec fn spec_shapes(&self) -> Seq<D> {
        self.shapes@
    }

    closed spec fn spec_shape_derivatives(&self) -> Seq<D> {
        self.shape_derivatives@
    }

    closed spec fn spec_geometry_derivatives(&self, coords: Seq<D>) -> Seq<D> {
        spec_geometry_table(
            coords,
            self.shape_derivatives@,
            self.basis.spec_number_of_bases() as int,
            self.integrator.spec_dimension() as int,
            self.basis.spec_derivative_order() as int,
            self.integrator.spec_weights().len() as int,
        )
    }

    proof fn lemma_wf_shapes(&self) {
        assert forall|p: int|
            0 <= p < self.spec_integrator().spec_weights().len()
                implies #[trigger] self.spec_shapes().subrange(
            p * self.spec_basis().spec_number_of_bases(),
            (p + 1) * self.spec_basis().spec_number_of_bases(),
        ) == self.spec_basis().spec_basis_at(self.spec_point(p)) by {
            assert(self.shape_row(p) == self.basis.spec_basis_at(self.spec_point(p)));
        }
        assert forall|p: int|
            0 <= p < self.spec_integrator().spec_weights().len()
                implies #[trigger] self.spec_shape_derivatives().subrange(
            p * (self.spec_basis().spec_number_of_bases()
                * self.spec_basis().spec_derivative_order()),
            (p + 1) * (self.spec_basis().spec_number_of_bases()
                * self.spec_basis().spec_derivative_order()),
        ) == self.spec_basis().spec_basis_derivative_at(self.spec_point(p)) by {
            assert(self.derivative_row(p) == self.basis.spec_basis_derivative_at(
                self.spec_point(p),
            ));
        }
    }

    fn get_integrator(&self) -> (r: R) {
        self.integrator.duplicate()
    }

    fn get_shape_basis(&self) -> (r: S) {
        self.basis.duplicate()
    }

    fn get_shapes_for_integration(&self) -> (r: &[D]) {
        self.shapes.as_slice()
    }

    fn get_shape_derivatives_for_integration(&self) -> (r: &[D]) {
        self.shape_derivatives.as_slice()
    }

    fn get_geometry_derivatives_for_integration(&self, coords: &[D]) -> (r: Vec<D>) {
        let nips = self.integrator.get_number_of_points();
        let dim = self.integrator.get_dimension();
        let nbases = self.basis.get_number_of_bases();
        let dord = self.basis.get_derivative_order();
        let ghost tbl = self.shape_derivatives@;
        let ghost gb: int = nbases as int;
        let ghost gd: int = dim as int;
        let ghost go: int = dord as int;
        let ghost full = Seq::new(
            nips as nat,
            |p: int| spec_geometry_point(coords@, tbl, gb, gd, go, p),
        );
        let mut out: Vec<D> = Vec::new();
        if nips == 0 {
            assert(full =~= Seq::<Seq<D>>::empty());
            assert(out@ =~= full.flatten());
            return out;
        }
        proof {
            assert(nbases as int * dord as int <= tbl.len()) by (nonlinear_arith)
                requires
                    tbl.len() == nips as int * (nbases as int * dord as int),
                    nips >= 1,
            ;
        }
        let table = self.shape_derivatives.as_slice();
        let table_len = table.len();
        let coords_len = coords.len();
        let width = nbases * dord;
        let mut p: usize = 0;
        assert(full.take(0) =~= Seq::<Seq<D>>::empty());
        while p < nips
            invariant
                p <= nips,
                width == nbases * dord,
                gb == nbases as int,
                gd == dim as int,
                go == dord as int,
                tbl == table@,
                tbl.len() == nips as int * (gb * go),
                tbl.len() == table_len as int,
                coords@.len() == gb * gd,
                coords@.len() == coords_len as int,
                full == Seq::new(
                    nips as nat,
                    |pp: int| spec_geometry_point(coords@, tbl, gb, gd, go, pp),
                ),
                out@ == full.take(p as int).flatten(),
            decreases nips - p,
        {
            let ghost prows = Seq::new(
                gd as nat,
                |d: int| spec_geometry_row(coords@, tbl, gb, gd, go, p as int, d),
            );
            let mut point_vec: Vec<D> = Vec::new();
            let mut d: usize = 0;
            assert(prows.take(0) =~= Seq::<Seq<D>>::empty());
            while d < dim
                invariant
                    d <= dim,
                    p < nips,
                    width == nbases * dord,
                    gb == nbases as int,
                    gd == dim as int,
                    go == dord as int,
                    tbl == table@,
                    tbl.len() == nips as int * (gb * go),
                    tbl.len() == table_len as int,
                    coords@.len() == gb * gd,
                    coords@.len() == coords_len as int,
                    prows == Seq::new(
                        gd as nat,
                        |dd: int| spec_geometry_row(coords@, tbl, gb, gd, go, p as int, dd),
                    ),
                    point_vec@ == prows.take(d as int).flatten(),
                decreases dim - d,
            {
                let ghost row = spec_geometry_row(coords@, tbl, gb, gd, go, p as int, d as int);
                let mut row_vec: Vec<D> = Vec::new();
                let mut q: usize = 0;
                while q < dord
                    invariant
                        q <= dord,
                        d < dim,
                        p < nips,
                        width == nbases * dord,
                        gb == nbases as int,
                        gd == dim as int,
                        go == dord as int,
                        tbl == table@,
                        tbl.len() == nips as int * (gb * go),
                        tbl.len() == table_len as int,
                        coords@.len() == gb * gd,
                        coords@.len() == coords_len as int,
                        row == spec_geometry_row(coords@, tbl, gb, gd, go, p as int, d as int),
                        row_vec@.len() == q,
                        forall|qq: int| 0 <= qq < q ==> row_vec@[qq] == row[qq],
                    decreases dord - q,
                {
                    let ghost ca = Seq::new(gb as nat, |b: int| coords@[b * gd + d]);
                    let ghost cb = Seq::new(
                        gb as nat,
                        |b: int| tbl[p as int * (gb * go) + b * go + q],
                    );
                    let mut acc = D::zero();
                    let mut b: usize = 0;
                    assert(ca.take(0) =~= Seq::<D>::empty());
                    assert(cb.take(0) =~= Seq::<D>::empty());
                    while b < nbases
                        invariant
                            b <= nbases,
                            q < dord,
                            d < dim,
                            p < nips,
                            width == nbases * dord,
                            gb == nbases as int,
                            gd == dim as int,
                            go == dord as int,
                            tbl == table@,
                            tbl.len() == nips as int * (gb * go),
                            tbl.len() == table_len as int,
                            coords@.len() == gb * gd,
                            coords@.len() == coords_len as int,
                            ca == Seq::new(gb as nat, |bb: int| coords@[bb * gd + d]),
                            cb == Seq::new(
                                gb as nat,
                                |bb: int| tbl[p as int * (gb * go) + bb * go + q],
                            ),
                            acc == spec_dot(ca.take(b as int), cb.take(b as int)),
                        decreases nbases - b,
                    {
                        proof {
                            assert(0 <= b * gd + d < gb * gd) by (nonlinear_arith)
                                requires
                                    0 <= b < gb,
                                    0 <= d < gd,
                            ;
                            assert(0 <= p as int * (gb * go) + b * go + q < nips as int * (gb
                                * go)) by (nonlinear_arith)
                                requires
                                    0 <= p < nips,
                                    0 <= b < gb,
                                    0 <= q < go,
                            ;
                            assert(p as int * (gb * go) + b * go + q == p as int * width as int + b
                                * go + q) by (nonlinear_arith)
                                requires
                                    width == gb * go,
                            ;
                        }
                        let contribution = coords[b * dim + d].times(table[p * width + b * dord + q]);
                        acc = acc.plus(contribution);
                        proof {
                            assert(ca.take(b + 1).drop_last() =~= ca.take(b as int));
                            assert(cb.take(b + 1).drop_last() =~= cb.take(b as int));
                            assert(ca.take(b + 1).last() == ca[b as int]);
                            assert(cb.take(b + 1).last() == cb[b as int]);
                        }
                        b = b + 1;
                    }
                    proof {
                        assert(ca.take(gb) =~= ca);
                        assert(cb.take(gb) =~= cb);
                    }
                    row_vec.push(acc);
                    q = q + 1;
                }
                proof {
                    assert(row_vec@ =~= row);
                    assert(prows.take(d + 1) =~= prows.take(d as int).push(row));
                }
                point_vec.append(&mut row_vec);
                d = d + 1;
            }
            proof {
                assert(prows.take(gd) =~= prows);
                assert(full[p as int] == spec_geometry_point(coords@, tbl, gb, gd, go, p as int));
                assert(full.take(p + 1) =~= full.take(p as int).push(full[p as int]));
            }
            out.append(&mut point_vec);
            p = p + 1;
        }
        proof {
            assert(full.take(nips as int) =~= full);
        }
        out
    }

    fn integrate(&self, values: &[D]) -> (r: D) {
        let nips = self.integrator.get_number_of_points();
        let nbases = self.basis.get_number_of_bases();
        let ghost gvals = spec_interpolated_values(
            self.shapes@,
            nbases as int,
            nips as int,
            values@,
        );
        let shapes = self.shapes.as_slice();
        let shapes_len = shapes.len();
        let mut ip: Vec<D> = Vec::new();
        let mut p: usize = 0;
        while p < nips
            invariant
                p <= nips,
                shapes@ == self.spec_shapes(),
                shapes@.len() == nips as int * nbases as int,
                shapes@.len() == shapes_len as int,
                values@.len() == nbases as int,
                gvals == spec_interpolated_values(shapes@, nbases as int, nips as int, values@),
                ip@.len() == p,
                forall|pp: int| 0 <= pp < p ==> ip@[pp] == gvals[pp],
            decreases nips - p,
        {
            proof {
                assert(0 <= p * nbases && (p + 1) * nbases <= nips * nbases) by (nonlinear_arith)
                    requires
                        0 <= p < nips,
                        nbases >= 0,
                ;
                assert(p * nbases + nbases == (p + 1) * nbases) by (nonlinear_arith);
            }
            let row = slice_subrange(shapes, p * nbases, p * nbases + nbases);
            let value = dot_product(row, values);
            ip.push(value);
            p = p + 1;
        }
        assert(ip@ =~= gvals);
        self.integrator.integrate(ip.as_slice())
    }
}

/// Partition of unity of the linear simplex basis: at every coordinate the
/// shape values sum to one, the complement shape balancing the coordinate
/// sum exactly.
pub proof fn lemma_partition_of_unity(basis: LinearSimplexBasis, coord: Seq<i64>)
    requires
        basis.wf(),
        coord.len() == basis.spec_dimension(),
    ensures
        spec_sum(basis.spec_basis_at(coord)) == 1i64,
{
    let m: int = 0x1_0000_0000_0000_0000;
    let shape = basis.spec_basis_at(coord);
    let complement = spec_fold_sub(1i64, coord);
    let coord_total = sum_int(int_views(coord));
    lemma_sum_congruence(shape);
    assert(int_views(shape) =~= seq![complement as int] + int_views(coord));
    crate::numeric::combinatorics::lemma_sum_int_first(int_views(shape));
    assert(int_views(shape).drop_first() =~= int_views(coord));
    assert(spec_sum_exact(shape) == complement as int + coord_total);
    lemma_fold_sub_congruence(1i64, coord);
    lemma_add_mod_noop(complement as int, coord_total, m);
    lemma_add_mod_noop(1 - coord_total, coord_total, m);
    lemma_small_mod(1nat, m as nat);
    lemma_same_remainder_i64(spec_sum(shape), 1i64);
}

} // verus!
