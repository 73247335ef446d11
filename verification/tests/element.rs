use std::collections::HashMap;

use fem_core::element::element_traits::{Element, IntegrationRule, ShapeBasis};
use fem_core::element::operator_trait::Operator;
use fem_core::element::reference::{LinearSimplexBasis, ReferenceElement, TabulatedRule};

type Rule = TabulatedRule<i64, i64>;
type Elem = ReferenceElement<i64, Rule, LinearSimplexBasis>;

fn triangle_rule() -> Rule {
    // One point at each vertex of the reference triangle, unit weights.
    TabulatedRule::new(2, vec![1, 1, 1], vec![0, 0, 1, 0, 0, 1]).unwrap()
}

#[test]
fn test_rule_accessors() {
    let rule = triangle_rule();
    assert_eq!(rule.get_dimension(), 2);
    assert_eq!(rule.get_number_of_points(), 3);
    assert_eq!(rule.get_weights(), &[1, 1, 1]);
    assert_eq!(rule.get_points(), &[0, 0, 1, 0, 0, 1]);
}

#[test]
fn test_rule_rejects_mismatched_tables() {
    let bad = TabulatedRule::<i64, i64>::new(2, vec![1, 1], vec![0, 0, 1]);
    assert!(bad.is_none());
}

#[test]
fn test_integrate_is_dot_product() {
    let rule = TabulatedRule::new(1, vec![2, 3], vec![10, 20]).unwrap();
    assert_eq!(rule.integrate(&[4, 5]), 2 * 4 + 3 * 5);
}

#[test]
fn test_integrate_constant_one_gives_weight_sum() {
    // Integrating the constant function one reproduces the measure that the
    // weights encode.
    let rule = TabulatedRule::new(1, vec![2, 3, 7], vec![10, 20, 30]).unwrap();
    assert_eq!(rule.integrate(&[1, 1, 1]), 12);
}

#[test]
fn test_basis_values() {
    let basis = LinearSimplexBasis::new(2);
    assert_eq!(basis.get_dimension(), 2);
    assert_eq!(basis.get_derivative_order(), 2);
    assert_eq!(basis.get_number_of_bases(), 3);
    assert_eq!(basis.interpolate_basis(&[3, 4]), vec![-6, 3, 4]);
    assert_eq!(basis.interpolate_basis(&[0, 0]), vec![1, 0, 0]);
}

#[test]
fn test_partition_of_unity_scenario() {
    // The shape values sum to one at every coordinate.
    let basis = LinearSimplexBasis::new(3);
    for coord in [[0i64, 0, 0], [1, 0, 0], [5, -7, 2], [40, 11, -3]] {
        let values = basis.interpolate_basis(&coord);
        assert_eq!(values.iter().sum::<i64>(), 1);
    }
}

#[test]
fn test_basis_interpolation() {
    let basis = LinearSimplexBasis::new(2);
    // (1 - 3 - 4) * 10 + 3 * 20 + 4 * 30 = 120
    assert_eq!(basis.interpolate(&[3, 4], &[10, 20, 30]), 120);
}

#[test]
fn test_basis_derivatives() {
    let basis = LinearSimplexBasis::new(2);
    assert_eq!(basis.interpolate_basis_derivative(&[3, 4]), vec![-1, -1, 1, 0, 0, 1]);
    // Row vector (10, 20, 30) times the derivative matrix.
    assert_eq!(basis.interpolate_derivative(&[3, 4], &[10, 20, 30]), vec![10, 20]);
}

#[test]
fn test_element_shape_table() {
    let element = Elem::new(triangle_rule(), LinearSimplexBasis::new(2));
    // At the three vertices the linear shapes form the identity table.
    assert_eq!(element.get_shapes_for_integration(), &[1, 0, 0, 0, 1, 0, 0, 0, 1]);
    assert_eq!(
        element.get_shape_derivatives_for_integration(),
        &[-1, -1, 1, 0, 0, 1, -1, -1, 1, 0, 0, 1, -1, -1, 1, 0, 0, 1]
    );
}

#[test]
fn test_shape_table_round_trip() {
    // Re-evaluating the owned basis at each quadrature point reproduces the
    // cached shape-value tensor exactly.
    let element = Elem::new(triangle_rule(), LinearSimplexBasis::new(2));
    let rule = element.get_integrator();
    let basis = element.get_shape_basis();
    let dim = rule.get_dimension();
    let nbases = basis.get_number_of_bases();
    let points = rule.get_points();
    let mut rebuilt: Vec<i64> = Vec::new();
    for p in 0..rule.get_number_of_points() {
        let coord = &points[p * dim..(p + 1) * dim];
        rebuilt.extend(basis.interpolate_basis(coord));
    }
    assert_eq!(rebuilt.len(), rule.get_number_of_points() * nbases);
    assert_eq!(rebuilt.as_slice(), element.get_shapes_for_integration());
}

#[test]
fn test_element_integrate() {
    let element = Elem::new(triangle_rule(), LinearSimplexBasis::new(2));
    // Unit weights at the vertices: the integral of a nodal field is the
    // sum of its nodal values.
    assert_eq!(element.integrate(&[10, 20, 30]), 60);
}

#[test]
fn test_geometry_derivatives() {
    let element = Elem::new(triangle_rule(), LinearSimplexBasis::new(2));
    // The reference triangle mapped onto itself: the Jacobian is the
    // identity at every integration point.
    let jacobians = element.get_geometry_derivatives_for_integration(&[0, 0, 1, 0, 0, 1]);
    assert_eq!(jacobians, vec![1, 0, 0, 1, 1, 0, 0, 1, 1, 0, 0, 1]);
    // A stretched cell: x scaled by 2, y by 3.
    let jacobians = element.get_geometry_derivatives_for_integration(&[0, 0, 2, 0, 0, 3]);
    assert_eq!(jacobians, vec![2, 0, 0, 3, 2, 0, 0, 3, 2, 0, 0, 3]);
}

struct MassScale;

impl Operator<i64, i64> for MassScale {
    type ElementT = Elem;

    fn apply(&self, geometry: &[i64], data: &HashMap<String, Vec<i64>>) -> Vec<i64> {
        let element = Elem::new(triangle_rule(), LinearSimplexBasis::new(2));
        let field = &data["density"];
        let total = if field.len() == 3 {
            element.integrate(field.as_slice())
        } else {
            0
        };
        vec![total * geometry.len() as i64]
    }
}

#[test]
fn test_operator_contract() {
    let operator = MassScale;
    let mut data: HashMap<String, Vec<i64>> = HashMap::new();
    data.insert(String::from("density"), vec![1, 2, 3]);
    let local = operator.apply(&[0, 0, 1, 0, 0, 1], &data);
    assert_eq!(local, vec![36]);
}
