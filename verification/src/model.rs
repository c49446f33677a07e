//! Reading triangles out of an indexed mesh.
use vstd::prelude::*;

verus! {

/// Every index of the complete triangles of `indices` names a vertex.
pub open spec fn indices_valid(indices: Seq<u16>, vertex_count: nat) -> bool {
    forall|k: int| 0 <= k < (indices.len() / 3) * 3 ==> (#[trigger] indices[k]) < vertex_count
}

/// A mesh's indices are valid exactly when every complete triangle names
/// three of the mesh's vertices: each of its three indices is below the
/// vertex count. In particular a mesh whose indices are all below the vertex
/// count is valid, and adding vertices keeps a valid mesh valid.
pub proof fn lemma_valid_iff_triangles_in_range(indices: Seq<u16>, vertex_count: nat)
    ensures
        indices_valid(indices, vertex_count) <==> forall|i: int| 0 <= i < indices.len() / 3 ==> {
            &&& #[trigger] indices[3 * i] < vertex_count
            &&& indices[3 * i + 1] < vertex_count
            &&& indices[3 * i + 2] < vertex_count
        },
        (forall|k: int| 0 <= k < indices.len() ==> #[trigger] indices[k] < vertex_count) ==> indices_valid(indices, vertex_count),
        forall|more: nat| #![auto] indices_valid(indices, vertex_count) && vertex_count <= more ==> indices_valid(indices, more),
{
    let n = indices.len() / 3;
    if indices_valid(indices, vertex_count) {
        assert forall|i: int| 0 <= i < n implies {
            &&& #[trigger] indices[3 * i] < vertex_count
            &&& indices[3 * i + 1] < vertex_count
            &&& indices[3 * i + 2] < vertex_count
        } by {
            assert(3 * i + 2 < n * 3) by (nonlinear_arith)
                requires
                    0 <= i < n,
            ;
        }
    }
    if forall|i: int| 0 <= i < n ==> {
        &&& #[trigger] indices[3 * i] < vertex_count
        &&& indices[3 * i + 1] < vertex_count
        &&& indices[3 * i + 2] < vertex_count
    } {
        assert forall|k: int| 0 <= k < n * 3 implies (#[trigger] indices[k]) < vertex_count by {
            let i = k / 3;
            assert(0 <= i < n && (k == 3 * i || k == 3 * i + 1 || k == 3 * i + 2)) by (nonlinear_arith)
                requires
                    0 <= k < n * 3,
                    i == k / 3,
            ;
            assert(indices[3 * i] < vertex_count);
        }
    }
    assert(n * 3 <= indices.len()) by (nonlinear_arith)
        requires
            n == indices.len() / 3,
    ;
}

/// Whether every index of the complete triangles names one of `vertex_count` vertices.
pub fn obj_indices_valid(indices: &Vec<u16>, vertex_count: usize) -> (r: bool)
    ensures
        r == indices_valid(indices@, vertex_count as nat),
        r == forall|k: int| 0 <= k < (indices@.len() / 3) * 3 ==> #[trigger] indices@[k] < vertex_count,
{
    let n = (indices.len() / 3) * 3;
    let mut k: usize = 0;
    while k < n
        invariant
            n == (indices@.len() / 3) * 3,
            n <= indices@.len(),
            k <= n,
            forall|j: int| 0 <= j < k ==> (#[trigger] indices@[j]) < vertex_count,
        decreases n - k,
    {
        if indices[k] as usize >= vertex_count {
            return false;
        }
        k = k + 1;
    }
    true
}

/// The triangles of an indexed mesh, each with its winding reversed: for the
/// `i`-th triple of indices `(p, q, r)` the triangle is the vertices at
/// `r`, `q`, `p`. A trailing incomplete triple is ignored.
pub fn obj_triangles<V: Copy>(vertices: &Vec<V>, indices: &Vec<u16>) -> (r: Vec<(V, V, V)>)
    requires
        indices_valid(indices@, vertices@.len()),
    ensures
        r@.len() == indices@.len() / 3,
        forall|i: int| 0 <= i < r@.len() ==> #[trigger] r@[i] == (
            vertices@[indices@[3 * i + 2] as int],
            vertices@[indices@[3 * i + 1] as int],
            vertices@[indices@[3 * i] as int],
        ),
{
    let count = indices.len() / 3;
    let mut r: Vec<(V, V, V)> = Vec::new();
    let mut i: usize = 0;
    while i < count
        invariant
            count == indices@.len() / 3,
            i <= count,
            r@.len() == i,
            indices_valid(indices@, vertices@.len()),
            forall|j: int| 0 <= j < i ==> #[trigger] r@[j] == (
                vertices@[indices@[3 * j + 2] as int],
                vertices@[indices@[3 * j + 1] as int],
                vertices@[indices@[3 * j] as int],
            ),
        decreases count - i,
    {
        assert(3 * i + 2 < count * 3 && count * 3 <= indices@.len()) by (nonlinear_arith)
            requires
                i < count,
                count == indices@.len() / 3,
        ;
        assert(3 * i + 2 < indices@.len());
        assert(indices@.len() == indices.len());
        let a = indices[3 * i] as usize;
        let b = indices[3 * i + 1] as usize;
        let c = indices[3 * i + 2] as usize;
        assert(indices@[3 * i as int] < vertices@.len());
        assert(indices@[3 * i + 1] < vertices@.len());
        assert(indices@[3 * i + 2] < vertices@.len());
        r.push((vertices[c], vertices[b], vertices[a]));
        i = i + 1;
    }
    r
}

} // verus!
