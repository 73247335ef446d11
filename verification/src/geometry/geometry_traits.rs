use vstd::prelude::*;

verus! {

/// Failure modes of a connectivity lookup.
#[derive(Debug, PartialEq, Eq, Structural, Clone, Copy)]
pub enum ConnectivityError {
    /// A requested dimension exceeds the topological dimension.
    DimensionOutOfRange,
    /// The requested table was never computed (possible only for
    /// lazily-filled implementations).
    ConnectivityUnavailable,
}

/// Provides coordinates and ordering describing a geometry.
///
/// An implementor fixes, through its spec functions, its topological and
/// embedding dimensions, its borrowed vertex coordinates, the number of
/// elements of each dimension and the connectivity of each element; the
/// executable methods are then bound to those functions exactly.
pub trait Geometry<C>: Sized {
    /// Well-formedness of the geometry, established at construction.
    spec fn wf(&self) -> bool;

    /// The topological dimension.
    spec fn spec_dimension(&self) -> nat;

    /// The dimension of the embedding coordinate space.
    spec fn spec_embedding_dimension(&self) -> nat;

    /// The borrowed coordinates of the dimension-0 elements.
    spec fn spec_coordinates(&self) -> Seq<C>;

    /// How many elements of the given topological dimension the geometry has.
    spec fn spec_element_count(&self, dimension: nat) -> nat;

    /// Whether a connectivity lookup's element index is within range; a
    /// violation is a caller error, not a recoverable failure.
    spec fn connectivity_index_ok(
        &self,
        target_dimension: nat,
        element_dimension: nat,
        element_index: nat,
    ) -> bool;

    /// Whether a connectivity lookup with these dimensions succeeds.
    spec fn spec_connectivity_ok(&self, target_dimension: nat, element_dimension: nat) -> bool;

    /// Which error a failing connectivity lookup reports.
    spec fn spec_connectivity_err(
        &self,
        target_dimension: nat,
        element_dimension: nat,
    ) -> ConnectivityError;

    /// The connectivity row of the given element, expressed via
    /// `target_dimension`-dimensional sub-faces.
    spec fn spec_connectivity(
        &self,
        target_dimension: nat,
        element_dimension: nat,
        element_index: nat,
    ) -> Seq<usize>;

    /// Get the topological dimension of the geometry.
    fn get_dimension(&self) -> (r: usize)
        ensures
            r as nat == self.spec_dimension(),
    ;

    /// Get the dimension of the embedding coordinate space.
    fn get_embedding_dimension(&self) -> (r: usize)
        ensures
            r as nat == self.spec_embedding_dimension(),
    ;

    /// Get the embedding coordinates of the dimension-0 elements of the
    /// geometry, unchanged from construction.
    fn get_coordinates(&self) -> (r: &[C])
        ensures
            r@ == self.spec_coordinates(),
    ;

    /// Get the number of elements of topological dimension `dimension`.
    fn get_number_of_elements(&self, dimension: usize) -> (r: usize)
        requires
            self.wf(),
        ensures
            r as nat == self.spec_element_count(dimension as nat),
    ;

    /// Get the connectivity of element `element_index` of dimension
    /// `element_dimension`, expressed in `target_dimension`-dimensional
    /// elements.
    fn get_connectivity(
        &self,
        target_dimension: usize,
        element_dimension: usize,
        element_index: usize,
    ) -> (r: Result<&[usize], ConnectivityError>)
        requires
            self.wf(),
            self.connectivity_index_ok(
                target_dimension as nat,
                element_dimension as nat,
                element_index as nat,
            ),
        ensures
            r is Ok <==> self.spec_connectivity_ok(
                target_dimension as nat,
                element_dimension as nat,
            ),
            r is Ok ==> r->Ok_0@ == self.spec_connectivity(
                target_dimension as nat,
                element_dimension as nat,
                element_index as nat,
            ),
            r is Err ==> r->Err_0 == self.spec_connectivity_err(
                target_dimension as nat,
                element_dimension as nat,
            ),
    ;
}

} // verus!
