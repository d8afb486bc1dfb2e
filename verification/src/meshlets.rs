use vstd::prelude::*;

use crate::mesh_optimization::triangles_of;

verus! {

/// A cluster of a mesh: its ranges in the cluster vertex list and in the cluster triangle
/// list, and how many vertices and triangles it holds.
#[derive(Clone, Copy, PartialEq, Eq, Structural, Debug)]
pub struct Meshlet {
    pub vertex_offset: u32,
    pub triangle_offset: u32,
    pub vertex_count: u32,
    pub triangle_count: u32,
}

impl Default for Meshlet {
    fn default() -> (m: Self)
        ensures
            m == (Meshlet { vertex_offset: 0, triangle_offset: 0, vertex_count: 0, triangle_count: 0 }),
    {
        Meshlet { vertex_offset: 0, triangle_offset: 0, vertex_count: 0, triangle_count: 0 }
    }
}

/// Most vertices in one meshlet.
pub const MAX_MESHLET_VERTICES: usize = 64;

/// Most triangles in one meshlet.
pub const MAX_MESHLET_TRIANGLES: usize = 64;

/// A cluster as `(vertex_offset, triangle_offset, vertex_count, triangle_count)`.
pub type RawMeshlet = (u32, u32, u32, u32);

/// The meshlets of raw clusters, field for field.
pub open spec fn meshlets_of_raw(raw: Seq<RawMeshlet>) -> Seq<Meshlet> {
    Seq::new(
        raw.len(),
        |k: int|
            Meshlet { vertex_offset: raw[k].0, triangle_offset: raw[k].1, vertex_count: raw[k].2, triangle_count: raw[k].3 },
    )
}

/// The triangles of meshlet `m`, each local index looked up in the meshlet's vertices.
pub open spec fn meshlet_triangles(m: Meshlet, vertices: Seq<u32>, triangles: Seq<u8>) -> Seq<(u32, u32, u32)> {
    Seq::new(
        m.triangle_count as nat,
        |t: int|
            {
                let base = m.triangle_offset + 3 * t;
                (
                    vertices[m.vertex_offset + triangles[base] as int],
                    vertices[m.vertex_offset + triangles[base + 1] as int],
                    vertices[m.vertex_offset + triangles[base + 2] as int],
                )
            },
    )
}

/// The triangles of all meshlets, meshlet after meshlet.
pub open spec fn meshlets_triangles(meshlets: Seq<Meshlet>, vertices: Seq<u32>, triangles: Seq<u8>) -> Seq<(u32, u32, u32)>
    decreases meshlets.len(),
{
    if meshlets.len() == 0 {
        Seq::empty()
    } else {
        meshlets_triangles(meshlets.drop_last(), vertices, triangles) + meshlet_triangles(meshlets.last(), vertices, triangles)
    }
}

/// Some local triangle of meshlet `m` names its local vertex `j`.
pub open spec fn local_vertex_used(m: Meshlet, triangles: Seq<u8>, j: int) -> bool {
    exists|p: int| m.triangle_offset <= p < m.triangle_offset + 3 * m.triangle_count && triangles[p] == j
}

/// Meshlet `m` holds between one and `max_triangles` triangles and at most `max_vertices`
/// distinct vertices, each of them a vertex of the source data and used by one of its
/// triangles; its ranges lie within the vertex and triangle lists, and its local indices
/// name its own vertices.
pub open spec fn meshlet_well_formed(
    m: Meshlet,
    vertices: Seq<u32>,
    triangles: Seq<u8>,
    source_vertex_count: int,
    max_vertices: int,
    max_triangles: int,
) -> bool {
    &&& 1 <= m.triangle_count <= max_triangles
    &&& m.vertex_count <= max_vertices
    &&& m.vertex_offset + m.vertex_count <= vertices.len()
    &&& m.triangle_offset + 3 * m.triangle_count <= triangles.len()
    &&& forall|p: int|
        m.triangle_offset <= p < m.triangle_offset + 3 * m.triangle_count ==> (#[trigger] triangles[p]) < m.vertex_count
    &&& forall|p: int| m.vertex_offset <= p < m.vertex_offset + m.vertex_count ==> (#[trigger] vertices[p]) < source_vertex_count
    &&& forall|p: int, q: int|
        m.vertex_offset <= p < q < m.vertex_offset + m.vertex_count ==> vertices[p] != vertices[q]
    &&& forall|j: int| 0 <= j < m.vertex_count ==> #[trigger] local_vertex_used(m, triangles, j)
}

/// The meshlets follow one another without gaps in the vertex list and in the triangle
/// list, and the vertex list ends with the last meshlet.
pub open spec fn meshlets_laid_end_to_end(meshlets: Seq<Meshlet>, vertices_len: int) -> bool {
    &&& forall|k: int|
        0 <= k < meshlets.len() ==> (#[trigger] meshlets[k]).vertex_offset == if k == 0 {
            0
        } else {
            meshlets[k - 1].vertex_offset + meshlets[k - 1].vertex_count
        }
    &&& forall|k: int|
        0 <= k < meshlets.len() ==> (#[trigger] meshlets[k]).triangle_offset == if k == 0 {
            0
        } else {
            meshlets[k - 1].triangle_offset + 3 * meshlets[k - 1].triangle_count
        }
    &&& vertices_len == if meshlets.len() == 0 {
        0
    } else {
        meshlets.last().vertex_offset + meshlets.last().vertex_count
    }
}

/// `meshlets`, with their shared vertex and triangle lists, split the triangle list
/// `indices` of a mesh of `source_vertex_count` vertices: every meshlet is well formed and
/// they are laid end to end; there is a meshlet exactly when there is a triangle, and
/// nothing at all when there is none; and the meshlets' triangles, looked up in the
/// source, are triangles of `indices` with their corners in the same order, none taken
/// more often than it occurs there.
pub open spec fn meshlets_of_mesh(
    meshlets: Seq<Meshlet>,
    vertices: Seq<u32>,
    triangles: Seq<u8>,
    indices: Seq<u32>,
    source_vertex_count: int,
    max_vertices: int,
    max_triangles: int,
) -> bool {
    &&& forall|k: int|
        0 <= k < meshlets.len() ==> meshlet_well_formed(
            #[trigger] meshlets[k],
            vertices,
            triangles,
            source_vertex_count,
            max_vertices,
            max_triangles,
        )
    &&& meshlets_laid_end_to_end(meshlets, vertices.len() as int)
    &&& (meshlets.len() == 0 <==> indices.len() == 0)
    &&& (indices.len() == 0 ==> triangles.len() == 0)
    &&& meshlets_triangles(meshlets, vertices, triangles).to_multiset().subset_of(triangles_of(indices).to_multiset())
}

/// Vertex data that positions can be read from: whole vertices of `vertex_stride` bytes,
/// each with three floats at `position_offset`, and indices that name such vertices, three
/// per triangle.
pub open spec fn clusterable(indices: Seq<u32>, vertex_data: Seq<u8>, vertex_stride: usize, position_offset: usize) -> bool {
    &&& indices.len() % 3 == 0
    &&& 12 <= vertex_stride <= 256
    &&& vertex_stride % 4 == 0
    &&& position_offset % 4 == 0
    &&& position_offset + 12 <= vertex_stride
    &&& vertex_data.len() % (vertex_stride as nat) == 0
    &&& forall|i: int| 0 <= i < indices.len() ==> (#[trigger] indices[i]) < vertex_data.len() / (vertex_stride as nat)
}

/// Whether the vertex data and the indices can be split into meshlets (see
/// [`clusterable`]).
pub fn is_clusterable(indices: &[u32], vertex_data: &[u8], vertex_stride: usize, position_offset: usize) -> (ok: bool)
    ensures
        ok == clusterable(indices@, vertex_data@, vertex_stride, position_offset),
{
    if indices.len() % 3 != 0 || vertex_stride < 12 || vertex_stride > 256 || vertex_stride % 4 != 0 {
        return false;
    }
    if position_offset % 4 != 0 || position_offset > vertex_stride - 12 || vertex_data.len() % vertex_stride != 0 {
        return false;
    }
    let vertex_count = vertex_data.len() / vertex_stride;
    let mut i: usize = 0;
    while i < indices.len()
        invariant
            i <= indices@.len(),
            vertex_count == vertex_data@.len() / (vertex_stride as nat),
            forall|q: int| 0 <= q < i ==> (#[trigger] indices@[q]) < vertex_count,
        decreases indices.len() - i,
    {
        if indices[i] as usize >= vertex_count {
            return false;
        }
        i += 1;
    }
    true
}

/// The clusters, cluster vertex list and local triangle list that
/// `meshopt::build_meshlets` makes of a triangle list over vertex bytes, with the given
/// limits and a cone weight of zero.
pub uninterp spec fn meshlet_clusters(
    indices: Seq<u32>,
    vertex_data: Seq<u8>,
    vertex_stride: usize,
    position_offset: usize,
    max_vertices: usize,
    max_triangles: usize,
) -> (Seq<RawMeshlet>, Seq<u32>, Seq<u8>);

/// Clusters of a triangle list, through `meshopt::VertexDataAdapter::new` (which reads the
/// positions from the vertex bytes) and `meshopt::build_meshlets` with a cone weight of
/// zero, which also reorders each cluster with `meshopt_optimizeMeshlet`. The claim, from
/// the outside source: the result is [`meshlet_clusters`] of the arguments (the clustering
/// reads nothing else: no chance, time or hashing), and the clusters split the triangle
/// list as [`meshlets_of_mesh`] says (each triangle goes into at most one cluster, corners
/// in order; clusters follow one another; each holds at least one triangle, within the
/// limits, and distinct vertices that its triangles use). That every triangle is placed is
/// not claimed: the search for the next triangle compares float distances, and with
/// non-finite or very large positions it can stop early. Which triangles go into which
/// cluster is named, not stated.
#[verifier::external_body]
fn build_meshlets_raw(
    indices: &[u32],
    vertex_data: &[u8],
    vertex_stride: usize,
    position_offset: usize,
    max_vertices: usize,
    max_triangles: usize,
) -> (clusters: (Vec<RawMeshlet>, Vec<u32>, Vec<u8>))
    requires
        clusterable(indices@, vertex_data@, vertex_stride, position_offset),
        3 <= max_vertices <= 256,
        1 <= max_triangles <= 512,
        max_triangles % 4 == 0,
    ensures
        (clusters.0@, clusters.1@, clusters.2@) == meshlet_clusters(
            indices@,
            vertex_data@,
            vertex_stride,
            position_offset,
            max_vertices,
            max_triangles,
        ),
        meshlets_of_mesh(
            meshlets_of_raw(clusters.0@),
            clusters.1@,
            clusters.2@,
            indices@,
            (vertex_data@.len() / (vertex_stride as nat)) as int,
            max_vertices as int,
            max_triangles as int,
        ),
{
    let adapter = match meshopt::VertexDataAdapter::new(vertex_data, vertex_stride, position_offset) {
        Ok(adapter) => adapter,
        Err(_) => return (Vec::new(), Vec::new(), Vec::new()),
    };
    let built = meshopt::build_meshlets(indices, &adapter, max_vertices, max_triangles, Default::default());
    let raw = built.meshlets.iter().map(|m| (m.vertex_offset, m.triangle_offset, m.vertex_count, m.triangle_count)).collect();
    (raw, built.vertices, built.triangles)
}

/// The meshlets of a list of raw clusters, field for field.
pub fn meshlets_from_raw(raw: &Vec<RawMeshlet>) -> (meshlets: Vec<Meshlet>)
    ensures
        meshlets@ == meshlets_of_raw(raw@),
{
    let mut meshlets: Vec<Meshlet> = Vec::new();
    let mut k: usize = 0;
    while k < raw.len()
        invariant
            k <= raw.len(),
            meshlets@ == meshlets_of_raw(raw@.subrange(0, k as int)),
        decreases raw.len() - k,
    {
        let (vertex_offset, triangle_offset, vertex_count, triangle_count) = raw[k];
        meshlets.push(Meshlet { vertex_offset, triangle_offset, vertex_count, triangle_count });
        k += 1;
        assert(meshlets@ =~= meshlets_of_raw(raw@.subrange(0, k as int)));
    }
    assert(raw@.subrange(0, k as int) =~= raw@);
    meshlets
}

/// Splits a triangle list into meshlets of at most 64 vertices and 64 triangles. Returns the
/// meshlets, the vertex index list they share, and the local triangle list they share.
pub fn generate_meshlets(indices: &[u32], vertex_data: &[u8], vertex_stride: usize, position_offset: usize) -> (clusters: (
    Vec<Meshlet>,
    Vec<u32>,
    Vec<u8>,
))
    requires
        clusterable(indices@, vertex_data@, vertex_stride, position_offset),
    ensures
        clusters.0@ == meshlets_of_raw(
            meshlet_clusters(
                indices@,
                vertex_data@,
                vertex_stride,
                position_offset,
                MAX_MESHLET_VERTICES,
                MAX_MESHLET_TRIANGLES,
            ).0,
        ),
        clusters.1@ == meshlet_clusters(
            indices@,
            vertex_data@,
            vertex_stride,
            position_offset,
            MAX_MESHLET_VERTICES,
            MAX_MESHLET_TRIANGLES,
        ).1,
        clusters.2@ == meshlet_clusters(
            indices@,
            vertex_data@,
            vertex_stride,
            position_offset,
            MAX_MESHLET_VERTICES,
            MAX_MESHLET_TRIANGLES,
        ).2,
        meshlets_of_mesh(
            clusters.0@,
            clusters.1@,
            clusters.2@,
            indices@,
            (vertex_data@.len() / (vertex_stride as nat)) as int,
            MAX_MESHLET_VERTICES as int,
            MAX_MESHLET_TRIANGLES as int,
        ),
{
    let max_vertices = MAX_MESHLET_VERTICES;
    let max_triangles = MAX_MESHLET_TRIANGLES;
    let (raw, vertices, triangles) = build_meshlets_raw(
        indices,
        vertex_data,
        vertex_stride,
        position_offset,
        max_vertices,
        max_triangles,
    );
    let meshlets = meshlets_from_raw(&raw);
    (meshlets, vertices, triangles)
}

} // verus!
