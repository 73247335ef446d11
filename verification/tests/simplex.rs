use fem_core::geometry::geometry_traits::{ConnectivityError, Geometry};
use fem_core::geometry::simplex::{ConstructionError, Simplex};

#[test]
fn test_triangle_counts() {
    let points: Vec<i64> = vec![0, 0, 1, 0, 0, 1];
    let triangle = Simplex::new(2, 2, points.as_slice()).unwrap();
    assert_eq!(triangle.get_dimension(), 2);
    assert_eq!(triangle.get_embedding_dimension(), 2);
    assert_eq!(triangle.get_number_of_elements(0), 3);
    assert_eq!(triangle.get_number_of_elements(1), 3);
    assert_eq!(triangle.get_number_of_elements(2), 1);
    assert_eq!(triangle.get_number_of_elements(3), 0);
    assert_eq!(triangle.get_number_of_elements(17), 0);
}

#[test]
fn test_triangle_edge_connectivity() {
    let points: Vec<i64> = vec![0, 0, 1, 0, 0, 1];
    let triangle = Simplex::new(2, 2, points.as_slice()).unwrap();
    // The three edges in terms of vertices, in lexicographic order.
    assert_eq!(triangle.get_connectivity(0, 1, 0).unwrap(), &[0, 1]);
    assert_eq!(triangle.get_connectivity(0, 1, 1).unwrap(), &[0, 2]);
    assert_eq!(triangle.get_connectivity(0, 1, 2).unwrap(), &[1, 2]);
    // The cell itself in terms of vertices and of edges.
    assert_eq!(triangle.get_connectivity(0, 2, 0).unwrap(), &[0, 1, 2]);
    assert_eq!(triangle.get_connectivity(1, 2, 0).unwrap(), &[0, 1, 0, 2, 1, 2]);
}

#[test]
fn test_tetrahedron_counts() {
    let points: Vec<i64> = vec![0, 0, 0, 1, 0, 0, 0, 1, 0, 0, 0, 1];
    let tet = Simplex::new(3, 3, points.as_slice()).unwrap();
    assert_eq!(tet.get_number_of_elements(0), 4);
    assert_eq!(tet.get_number_of_elements(1), 6);
    assert_eq!(tet.get_number_of_elements(2), 4);
    assert_eq!(tet.get_number_of_elements(3), 1);
    assert_eq!(tet.get_number_of_elements(4), 0);
}

#[test]
fn test_tetrahedron_face_connectivity() {
    let points: Vec<i64> = vec![0, 0, 0, 1, 0, 0, 0, 1, 0, 0, 0, 1];
    let tet = Simplex::new(3, 3, points.as_slice()).unwrap();
    // The four triangular faces, lexicographic over vertex triples.
    assert_eq!(tet.get_connectivity(0, 2, 0).unwrap(), &[0, 1, 2]);
    assert_eq!(tet.get_connectivity(0, 2, 1).unwrap(), &[0, 1, 3]);
    assert_eq!(tet.get_connectivity(0, 2, 2).unwrap(), &[0, 2, 3]);
    assert_eq!(tet.get_connectivity(0, 2, 3).unwrap(), &[1, 2, 3]);
    // One face described by its edges.
    assert_eq!(tet.get_connectivity(1, 2, 1).unwrap(), &[0, 1, 0, 3, 1, 3]);
}

#[test]
fn test_construction_errors() {
    let points: Vec<i64> = vec![0, 0, 1, 0, 0, 1];
    // Embedding dimension below the topological dimension.
    let bad = Simplex::new(2, 1, points.as_slice());
    assert!(matches!(bad, Err(ConstructionError::IncoherentDimensions)));
    // Wrong buffer length: a 2-simplex in the plane needs 6 coordinates.
    let short: Vec<i64> = vec![0, 0, 1, 0];
    let bad = Simplex::new(2, 2, short.as_slice());
    assert!(matches!(bad, Err(ConstructionError::IncoherentDimensions)));
}

#[test]
fn test_dimension_out_of_range() {
    let points: Vec<i64> = vec![0, 0, 1, 0, 0, 1];
    let triangle = Simplex::new(2, 2, points.as_slice()).unwrap();
    assert_eq!(
        triangle.get_connectivity(3, 1, 0).unwrap_err(),
        ConnectivityError::DimensionOutOfRange
    );
    assert_eq!(
        triangle.get_connectivity(0, 3, 0).unwrap_err(),
        ConnectivityError::DimensionOutOfRange
    );
}

#[test]
fn test_borrowed_coordinates() {
    let points: Vec<i64> = vec![4, 5, 6, 7, 8, 9];
    let triangle = Simplex::new(2, 2, points.as_slice()).unwrap();
    assert_eq!(triangle.get_coordinates(), points.as_slice());
}

#[test]
fn test_recompute_adjacency_is_stable() {
    let points: Vec<i64> = vec![0, 0, 1, 0, 0, 1];
    let mut triangle = Simplex::new(2, 2, points.as_slice()).unwrap();
    triangle.compute_adjacency(1, 0);
    assert_eq!(triangle.get_connectivity(0, 1, 1).unwrap(), &[0, 2]);
}

#[test]
fn test_segment_line() {
    // A 1-simplex embedded in three dimensions.
    let points: Vec<i64> = vec![0, 0, 0, 1, 2, 3];
    let segment = Simplex::new(1, 3, points.as_slice()).unwrap();
    assert_eq!(segment.get_number_of_elements(0), 2);
    assert_eq!(segment.get_number_of_elements(1), 1);
    assert_eq!(segment.get_connectivity(0, 1, 0).unwrap(), &[0, 1]);
    assert_eq!(segment.get_connectivity(0, 0, 1).unwrap(), &[1]);
}
