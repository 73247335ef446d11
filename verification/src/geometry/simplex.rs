use vstd::prelude::*;

use vstd::arithmetic::div_mod::lemma_fundamental_div_mod_converse;
use vstd::slice::slice_subrange;

use crate::geometry::geometry_traits::{ConnectivityError, Geometry};
use crate::numeric::combinatorics::{
    append_indices, binomial_coefficient, combinations, lemma_binomial_pos,
    lemma_combinations_count, lemma_combinations_elem_len, lemma_flatten_uniform_at,
    lemma_flatten_uniform_len, range_vec, spec_binomial, spec_combinations, spec_range, views_of,
};

verus! {

broadcast use vstd::prelude::Seq::lemma_flatten_push;

/// Failure modes of simplex construction.
#[derive(Debug, PartialEq, Eq, Structural, Clone, Copy)]
pub enum ConstructionError {
    /// The dimensions or the point buffer passed to the constructor do not
    /// describe a simplex.
    IncoherentDimensions,
}

/// Every `e`-dimensional face of the `n`-simplex, as the increasing
/// `(e+1)`-combinations of the vertex indices `0..=n`, in lexicographic
/// order.
pub open spec fn spec_faces(n: nat, e: nat) -> Seq<Seq<usize>> {
    spec_combinations(spec_range(n + 1), e + 1)
}

/// The connectivity row of one face, expressed in `t`-dimensional sub-faces:
/// its `(t+1)`-subcombinations, in lexicographic order, flattened.
pub open spec fn spec_conn_row(face: Seq<usize>, t: nat) -> Seq<usize> {
    spec_combinations(face, t + 1).flatten()
}

/// The connectivity rows of all `e`-dimensional faces of the `n`-simplex.
pub open spec fn spec_conn_rows(n: nat, e: nat, t: nat) -> Seq<Seq<usize>> {
    spec_faces(n, e).map_values(|f: Seq<usize>| spec_conn_row(f, t))
}

/// The flattened connectivity buffer for the key `(e, t)`.
pub open spec fn spec_conn_buffer(n: nat, e: nat, t: nat) -> Seq<usize> {
    spec_conn_rows(n, e, t).flatten()
}

/// The number of indices describing one `e`-dimensional face in
/// `t`-dimensional sub-faces: `C(e+1, t+1)` sub-faces of `t+1` vertices each.
pub open spec fn spec_conn_stride(e: nat, t: nat) -> nat {
    spec_binomial(e + 1, t + 1) * (t + 1)
}

/// A stored connectivity entry holds the stride and the flattened buffer
/// prescribed for the key `(e, t)` on the `n`-simplex.
pub open spec fn entry_models(entry: (usize, Vec<usize>), n: nat, e: nat, t: nat) -> bool {
    &&& entry.0 == spec_conn_stride(e, t)
    &&& entry.1@ == spec_conn_buffer(n, e, t)
}

/// Every face has `C(n+1, e+1)` rows of length `spec_conn_stride(e, t)` in
/// the connectivity buffer, whose total length is their product.
pub proof fn lemma_conn_buffer_shape(n: nat, e: nat, t: nat)
    ensures
        spec_faces(n, e).len() == spec_binomial(n + 1, e + 1),
        spec_conn_rows(n, e, t).len() == spec_binomial(n + 1, e + 1),
        forall|i: int|
            0 <= i < spec_conn_rows(n, e, t).len() ==> (#[trigger] spec_conn_rows(n, e, t)[i]).len()
                == spec_conn_stride(e, t),
        spec_conn_buffer(n, e, t).len() == spec_binomial(n + 1, e + 1) * spec_conn_stride(e, t),
{
    lemma_combinations_count(spec_range(n + 1), e + 1);
    lemma_combinations_elem_len(spec_range(n + 1), e + 1);
    let faces = spec_faces(n, e);
    let rows = spec_conn_rows(n, e, t);
    assert forall|i: int| 0 <= i < rows.len() implies (#[trigger] rows[i]).len()
        == spec_conn_stride(e, t) by {
        let face = faces[i];
        assert(face.len() == e + 1);
        lemma_combinations_count(face, t + 1);
        lemma_combinations_elem_len(face, t + 1);
        lemma_flatten_uniform_len(spec_combinations(face, t + 1), t + 1);
        assert(rows[i] == spec_conn_row(face, t));
    }
    lemma_flatten_uniform_len(rows, spec_conn_stride(e, t));
}

/// Compute the stride and the flattened connectivity buffer for one key
/// `(e, t)`: for each `e`-dimensional face, in order, the flattening of its
/// `(t+1)`-subcombinations.
fn compute_entry(dim: usize, e: usize, t: usize) -> (r: (usize, Vec<usize>))
    requires
        dim <= 30,
        e <= dim,
        t <= dim,
    ensures
        entry_models(r, dim as nat, e as nat, t as nat),
{
    let ghost n: nat = dim as nat;
    let ghost rows = spec_conn_rows(n, e as nat, t as nat);
    proof {
        lemma_conn_buffer_shape(n, e as nat, t as nat);
        lemma_binomial_pos((n + 1) as nat, (e + 1) as nat);
    }
    let verts = range_vec(dim + 1);
    let faces = combinations(&verts, e + 1);
    let mut buffer: Vec<usize> = Vec::new();
    let mut stride: usize = 0;
    let mut fi: usize = 0;
    assert(rows.take(0) =~= Seq::<Seq<usize>>::empty());
    while fi < faces.len()
        invariant
            fi <= faces@.len(),
            dim <= 30,
            e <= dim,
            t <= dim,
            n == dim as nat,
            rows == spec_conn_rows(n, e as nat, t as nat),
            views_of(faces@) == spec_faces(n, e as nat),
            faces@.len() == spec_binomial(n + 1, (e + 1) as nat),
            forall|i: int|
                0 <= i < rows.len() ==> (#[trigger] rows[i]).len() == spec_conn_stride(
                    e as nat,
                    t as nat,
                ),
            buffer@ == rows.take(fi as int).flatten(),
            fi == 0 ==> stride == 0,
            fi > 0 ==> stride == spec_conn_stride(e as nat, t as nat),
        decreases faces@.len() - fi,
    {
        let face = &faces[fi];
        let ghost face_s = face@;
        proof {
            assert(views_of(faces@)[fi as int] == faces@[fi as int]@);
            lemma_combinations_count(face_s, (t + 1) as nat);
            lemma_combinations_elem_len(face_s, (t + 1) as nat);
        }
        let subs = combinations(face, t + 1);
        let ghost subs_v = views_of(subs@);
        let mut row: Vec<usize> = Vec::new();
        let mut si: usize = 0;
        assert(subs_v.take(0) =~= Seq::<Seq<usize>>::empty());
        while si < subs.len()
            invariant
                si <= subs@.len(),
                subs_v == views_of(subs@),
                row@ == subs_v.take(si as int).flatten(),
            decreases subs@.len() - si,
        {
            append_indices(&mut row, &subs[si]);
            proof {
                assert(subs_v.take(si + 1) =~= subs_v.take(si as int).push(subs_v[si as int]));
                assert(subs_v[si as int] == subs@[si as int]@);
            }
            si = si + 1;
        }
        proof {
            assert(subs_v.take(subs@.len() as int) =~= subs_v);
            lemma_flatten_uniform_len(subs_v, (t + 1) as nat);
            assert(rows[fi as int] == spec_conn_row(face_s, t as nat));
            assert(row@ == rows[fi as int]);
        }
        if fi == 0 {
            stride = row.len();
        }
        append_indices(&mut buffer, &row);
        proof {
            assert(rows.take(fi + 1) =~= rows.take(fi as int).push(rows[fi as int]));
        }
        fi = fi + 1;
    }
    proof {
        assert(rows.take(faces@.len() as int) =~= rows);
    }
    (stride, buffer)
}

/// Geometry structure representing a simplex.
///
/// The structure never owns its coordinate data: it borrows a point buffer
/// owned elsewhere, which must outlive it. The connectivity tables it
/// computes at construction are its own.
pub struct Simplex<'a, C> {
    dimension: usize,
    embedding_dimension: usize,
    points: &'a [C],
    connectivity: Vec<(usize, Vec<usize>)>,
}

impl<'a, C> Simplex<'a, C> {
    /// Coherence of the dimensions, the point buffer and the table sizes.
    /// The dimension cap keeps every face count below `2^31`, so counts and
    /// strides fit a 32-bit `usize`.
    pub closed spec fn basic_wf(&self) -> bool {
        &&& self.dimension <= 30
        &&& self.embedding_dimension >= self.dimension
        &&& self.points@.len() == (self.dimension + 1) * self.embedding_dimension
        &&& self.connectivity@.len() == (self.dimension + 1) * (self.dimension + 1)
    }

    /// The stored entry for the key `(e, t)`, at row-major position
    /// `e * (dimension + 1) + t`.
    pub closed spec fn spec_entry(&self, e: int, t: int) -> (usize, Vec<usize>) {
        self.connectivity@[e * (self.dimension + 1) + t]
    }

    /// Every connectivity table holds what `spec_conn_buffer` prescribes.
    pub closed spec fn conn_complete(&self) -> bool {
        forall|i: int|
            0 <= i < self.connectivity@.len() ==> entry_models(
                #[trigger] self.connectivity@[i],
                self.dimension as nat,
                (i / (self.dimension + 1) as int) as nat,
                (i % ((self.dimension + 1) as int)) as nat,
            )
    }

    /// Construct a simplex of topological dimension `dim` embedded in
    /// dimension `embed_dim`, borrowing the vertex coordinates `pnts` (one
    /// point of `embed_dim` coordinates per vertex). Construction fails
    /// exactly when the dimensions or the buffer length are incoherent; on
    /// success every connectivity table is filled eagerly. The dimension
    /// cap is a machine limit: it keeps every face count and stride within
    /// a 32-bit `usize`.
    pub fn new(dim: usize, embed_dim: usize, pnts: &'a [C]) -> (r: Result<
        Simplex<'a, C>,
        ConstructionError,
    >)
        requires
            dim <= 30,
        ensures
            r is Ok <==> (embed_dim >= dim && pnts@.len() == (dim + 1) * embed_dim),
            r is Err ==> r->Err_0 == ConstructionError::IncoherentDimensions,
            r is Ok ==> {
                &&& r->Ok_0.wf()
                &&& r->Ok_0.spec_dimension() == dim as nat
                &&& r->Ok_0.spec_embedding_dimension() == embed_dim as nat
                &&& r->Ok_0.spec_coordinates() == pnts@
            },
    {
        if embed_dim < dim {
            return Err(ConstructionError::IncoherentDimensions);
        }
        let buffer_len = pnts.len();
        let length_matches = match (dim + 1).checked_mul(embed_dim) {
            Some(expected) => buffer_len == expected,
            None => false,
        };
        if !length_matches {
            return Err(ConstructionError::IncoherentDimensions);
        }
        let ghost w: int = dim as int + 1;
        let mut table: Vec<(usize, Vec<usize>)> = Vec::new();
        let mut e: usize = 0;
        while e <= dim
            invariant
                e <= dim + 1,
                dim <= 30,
                w == dim as int + 1,
                table@.len() == e * w,
                forall|i: int|
                    0 <= i < table@.len() ==> entry_models(
                        #[trigger] table@[i],
                        dim as nat,
                        (i / w) as nat,
                        (i % w) as nat,
                    ),
            decreases dim + 1 - e,
        {
            let mut t: usize = 0;
            while t <= dim
                invariant
                    t <= dim + 1,
                    e <= dim,
                    dim <= 30,
                    w == dim as int + 1,
                    table@.len() == e * w + t,
                    forall|i: int|
                        0 <= i < table@.len() ==> entry_models(
                            #[trigger] table@[i],
                            dim as nat,
                            (i / w) as nat,
                            (i % w) as nat,
                        ),
                decreases dim + 1 - t,
            {
                let entry = compute_entry(dim, e, t);
                table.push(entry);
                proof {
                    lemma_fundamental_div_mod_converse(e * w + t, w, e as int, t as int);
                }
                t = t + 1;
            }
            proof {
                assert(e * w + (dim + 1) == (e + 1) * w) by (nonlinear_arith)
                    requires
                        w == dim as int + 1,
                ;
            }
            e = e + 1;
        }
        let simplex = Simplex {
            dimension: dim,
            embedding_dimension: embed_dim,
            points: pnts,
            connectivity: table,
        };
        proof {
            assert((dim + 1) * w == (dim as int + 1) * (dim as int + 1)) by (nonlinear_arith)
                requires
                    w == dim as int + 1,
            ;
        }
        Ok(simplex)
    }

    /// Recompute the connectivity of `element_dim`-dimensional faces in
    /// terms of `target_dim`-dimensional sub-faces and store it under the
    /// key `(element_dim, target_dim)`; every other table is untouched.
    pub fn compute_adjacency(&mut self, element_dim: usize, target_dim: usize)
        requires
            old(self).basic_wf(),
            element_dim as nat <= old(self).spec_dimension(),
            target_dim as nat <= old(self).spec_dimension(),
        ensures
            final(self).basic_wf(),
            final(self).spec_dimension() == old(self).spec_dimension(),
            final(self).spec_embedding_dimension() == old(self).spec_embedding_dimension(),
            final(self).spec_coordinates() == old(self).spec_coordinates(),
            entry_models(
                final(self).spec_entry(element_dim as int, target_dim as int),
                old(self).spec_dimension(),
                element_dim as nat,
                target_dim as nat,
            ),
            forall|e: int, t: int|
                0 <= e <= old(self).spec_dimension() && 0 <= t <= old(self).spec_dimension() && !(e
                    == element_dim && t == target_dim) ==> #[trigger] final(self).spec_entry(e, t)
                    == old(self).spec_entry(e, t),
            old(self).conn_complete() ==> final(self).conn_complete(),
    {
        let dim = self.dimension;
        proof {
            assert(element_dim * (dim + 1) + target_dim < (dim + 1) * (dim + 1))
                by (nonlinear_arith)
                requires
                    element_dim <= dim,
                    target_dim <= dim,
            ;
            assert((dim + 1) * (dim + 1) <= 31 * 31) by (nonlinear_arith)
                requires
                    dim <= 30,
            ;
        }
        let idx = element_dim * (dim + 1) + target_dim;
        let entry = compute_entry(dim, element_dim, target_dim);
        self.connectivity[idx] = entry;
        proof {
            let w: int = dim as int + 1;
            lemma_fundamental_div_mod_converse(
                element_dim as int * w + target_dim as int,
                w,
                element_dim as int,
                target_dim as int,
            );
            assert forall|e: int, t: int|
                0 <= e <= dim && 0 <= t <= dim && !(e == element_dim && t
                    == target_dim) implies #[trigger] self.spec_entry(e, t) == old(self).spec_entry(
                e,
                t,
            ) by {
                assert(0 <= e * w + t < (dim as int + 1) * (dim as int + 1)) by (nonlinear_arith)
                    requires
                        0 <= e <= dim,
                        0 <= t <= dim,
                        w == dim as int + 1,
                ;
                lemma_fundamental_div_mod_converse(e * w + t, w, e, t);
            }
            if old(self).conn_complete() {
                assert forall|i: int| 0 <= i < self.connectivity@.len() implies entry_models(
                    #[trigger] self.connectivity@[i],
                    self.dimension as nat,
                    (i / w) as nat,
                    (i % w) as nat,
                ) by {
                    if i != idx {
                        assert(self.connectivity@[i] == old(self).connectivity@[i]);
                    }
                }
            }
        }
    }
}

impl<'a, C> Geometry<C> for Simplex<'a, C> {
    /// A simplex is well formed when its dimensions cohere and every
    /// connectivity table holds exactly the lexicographic enumeration.
    open spec fn wf(&self) -> bool {
        self.basic_wf() && self.conn_complete()
    }

    closed spec fn spec_dimension(&self) -> nat {
        self.dimension as nat
    }

    closed spec fn spec_embedding_dimension(&self) -> nat {
        self.embedding_dimension as nat
    }

    closed spec fn spec_coordinates(&self) -> Seq<C> {
        self.points@
    }

    /// The `n`-simplex has `C(n+1, k+1)` faces of dimension `k <= n` and
    /// none of higher dimension.
    open spec fn spec_element_count(&self, dimension: nat) -> nat {
        if dimension <= self.spec_dimension() {
            spec_binomial(self.spec_dimension() + 1, dimension + 1)
        } else {
            0
        }
    }

    open spec fn connectivity_index_ok(
        &self,
        target_dimension: nat,
        element_dimension: nat,
        element_index: nat,
    ) -> bool {
        self.spec_connectivity_ok(target_dimension, element_dimension) ==> element_index
            < spec_binomial(self.spec_dimension() + 1, element_dimension + 1)
    }

    open spec fn spec_connectivity_ok(&self, target_dimension: nat, element_dimension: nat) -> bool {
        target_dimension <= self.spec_dimension() && element_dimension <= self.spec_dimension()
    }

    open spec fn spec_connectivity_err(
        &self,
        target_dimension: nat,
        element_dimension: nat,
    ) -> ConnectivityError {
        ConnectivityError::DimensionOutOfRange
    }

    /// Face `element_index`, described by its `t`-dimensional sub-faces in
    /// lexicographic order, each given by its vertex indices.
    open spec fn spec_connectivity(
        &self,
        target_dimension: nat,
        element_dimension: nat,
        element_index: nat,
    ) -> Seq<usize> {
        spec_conn_row(
            spec_faces(self.spec_dimension(), element_dimension)[element_index as int],
            target_dimension,
        )
    }

    fn get_dimension(&self) -> (r: usize) {
        self.dimension
    }

    fn get_embedding_dimension(&self) -> (r: usize) {
        self.embedding_dimension
    }

    fn get_coordinates(&self) -> (r: &[C]) {
        self.points
    }

    fn get_number_of_elements(&self, dimension: usize) -> (r: usize) {
        if dimension > self.dimension {
            0
        } else {
            binomial_coefficient(self.dimension + 1, dimension + 1)
        }
    }

    fn get_connectivity(
        &self,
        target_dimension: usize,
        element_dimension: usize,
        element_index: usize,
    ) -> (r: Result<&[usize], ConnectivityError>) {
        if target_dimension > self.dimension || element_dimension > self.dimension {
            return Err(ConnectivityError::DimensionOutOfRange);
        }
        let dim = self.dimension;
        let ghost n: nat = dim as nat;
        let ghost e: nat = element_dimension as nat;
        let ghost t: nat = target_dimension as nat;
        proof {
            assert(element_dimension * (dim + 1) + target_dimension < (dim + 1) * (dim + 1))
                by (nonlinear_arith)
                requires
                    element_dimension <= dim,
                    target_dimension <= dim,
            ;
            assert((dim + 1) * (dim + 1) <= 31 * 31) by (nonlinear_arith)
                requires
                    dim <= 30,
            ;
        }
        let idx = element_dimension * (dim + 1) + target_dimension;
        proof {
            lemma_fundamental_div_mod_converse(
                idx as int,
                dim as int + 1,
                element_dimension as int,
                target_dimension as int,
            );
            assert(entry_models(self.connectivity@[idx as int], n, e, t));
            lemma_conn_buffer_shape(n, e, t);
        }
        let entry = &self.connectivity[idx];
        let stride = entry.0;
        let buffer_len = entry.1.len();
        let ghost rows = spec_conn_rows(n, e, t);
        let ghost count = spec_binomial(n + 1, e + 1);
        proof {
            assert((element_index + 1) * stride <= count * spec_conn_stride(e, t))
                by (nonlinear_arith)
                requires
                    element_index < count,
                    stride == spec_conn_stride(e, t),
            ;
            assert(element_index * stride + stride == (element_index + 1) * stride)
                by (nonlinear_arith);
        }
        let start = element_index * stride;
        let end = start + stride;
        proof {
            assert forall|j: int| 0 <= j < stride implies entry.1@[element_index * stride + j]
                == rows[element_index as int][j] by {
                lemma_flatten_uniform_at(rows, spec_conn_stride(e, t), element_index as int, j);
            }
            assert(entry.1@.subrange(start as int, end as int) =~= rows[element_index as int]);
            assert(rows[element_index as int] == spec_conn_row(spec_faces(n, e)[element_index as int], t));
        }
        Ok(slice_subrange(entry.1.as_slice(), start, end))
    }
}

} // verus!
