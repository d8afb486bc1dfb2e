use vstd::prelude::*;

use std::collections::HashSet;

use crate::scene::NodeData;

verus! {

/// The indices of a list of faces, one face after the other.
pub open spec fn flatten_faces(faces: Seq<Vec<u32>>) -> Seq<u32>
    decreases faces.len(),
{
    if faces.len() == 0 {
        Seq::empty()
    } else {
        flatten_faces(faces.drop_last()) + faces.last()@
    }
}

/// Where the indices of face `f` start in the index buffer: the number of indices of the
/// faces before it.
pub open spec fn face_offset(faces: Seq<Vec<u32>>, f: int) -> int
    decreases f,
{
    if f <= 0 {
        0
    } else {
        face_offset(faces, f - 1) + faces[f - 1]@.len()
    }
}

proof fn lemma_face_offset_prefix(faces: Seq<Vec<u32>>, n: int, f: int)
    requires
        0 <= f <= n <= faces.len(),
    ensures
        face_offset(faces.take(n), f) == face_offset(faces, f),
    decreases f,
{
    if f > 0 {
        lemma_face_offset_prefix(faces, n, f - 1);
        assert(faces.take(n)[f - 1] == faces[f - 1]);
    }
}

/// The index buffer holds the indices of every face, unchanged and in their own order,
/// face after face: face `f` starts after all the indices of the faces before it, and
/// nothing else is in the buffer.
pub proof fn lemma_faces_in_order(faces: Seq<Vec<u32>>)
    ensures
        flatten_faces(faces).len() == face_offset(faces, faces.len() as int),
        forall|f: int, c: int|
            0 <= f < faces.len() && 0 <= c < faces[f]@.len() ==> flatten_faces(faces)[face_offset(faces, f) + c]
                == #[trigger] faces[f]@[c],
    decreases faces.len(),
{
    if faces.len() > 0 {
        let n = faces.len() - 1;
        let rest = faces.drop_last();
        assert(rest =~= faces.take(n));
        lemma_faces_in_order(rest);
        lemma_face_offset_prefix(faces, n, n);
        let r = flatten_faces(faces);
        let rr = flatten_faces(rest);
        assert(r == rr + faces.last()@);
        assert forall|f: int, c: int| 0 <= f < faces.len() && 0 <= c < faces[f]@.len() implies r[face_offset(faces, f)
            + c] == #[trigger] faces[f]@[c] by {
            if f < n {
                lemma_face_offset_prefix(faces, n, f);
                lemma_face_offset_prefix(faces, n, f + 1);
                assert(rest[f] == faces[f]);
                assert(face_offset(faces, f + 1) <= face_offset(faces, n)) by {
                    lemma_face_offset_monotone(faces, f + 1, n);
                }
                lemma_face_offset_monotone(faces, 0, f);
                assert(face_offset(faces, f + 1) == face_offset(faces, f) + faces[f]@.len());
                assert(rr.len() == face_offset(faces, n));
                assert(face_offset(faces, f) + c < rr.len());
                assert(r[face_offset(faces, f) + c] == rr[face_offset(faces, f) + c]);
            } else {
                lemma_face_offset_monotone(faces, 0, f);
                assert(r[face_offset(faces, f) + c] == faces.last()@[c]);
            }
        }
    }
}

proof fn lemma_face_offset_monotone(faces: Seq<Vec<u32>>, f: int, g: int)
    requires
        0 <= f <= g <= faces.len(),
    ensures
        face_offset(faces, f) <= face_offset(faces, g),
    decreases g - f,
{
    if f < g {
        lemma_face_offset_monotone(faces, f, g - 1);
    }
}

/// The index buffer of a mesh: the indices of its faces, in order.
pub fn flatten_face_indices(faces: &Vec<Vec<u32>>) -> (indices: Vec<u32>)
    ensures
        indices@ == flatten_faces(faces@),
        indices@.len() == face_offset(faces@, faces@.len() as int),
        forall|f: int, c: int|
            0 <= f < faces@.len() && 0 <= c < faces@[f]@.len() ==> indices@[face_offset(faces@, f) + c]
                == #[trigger] faces@[f]@[c],
{
    let mut indices: Vec<u32> = Vec::new();
    let mut f: usize = 0;
    while f < faces.len()
        invariant
            f <= faces.len(),
            indices@ == flatten_faces(faces@.take(f as int)),
        decreases faces.len() - f,
    {
        let face = &faces[f];
        let ghost start = indices@;
        let mut k: usize = 0;
        while k < face.len()
            invariant
                k <= face.len(),
                indices@ == start + face@.take(k as int),
            decreases face.len() - k,
        {
            indices.push(face[k]);
            k += 1;
            assert(indices@ =~= start + face@.take(k as int));
        }
        proof {
            assert(face@.take(face.len() as int) =~= face@);
            assert(faces@.take(f + 1).drop_last() =~= faces@.take(f as int));
            assert(faces@.take(f + 1).last() == face);
        }
        f += 1;
    }
    assert(faces@.take(faces.len() as int) =~= faces@);
    proof {
        lemma_faces_in_order(faces@);
    }
    indices
}

/// One mesh of one node, in the order the meshes are met: the position of the node and
/// the index of the mesh.
pub open spec fn node_mesh_steps<M>(nodes: Seq<NodeData<M>>) -> Seq<(usize, usize)>
    decreases nodes.len(),
{
    if nodes.len() == 0 {
        Seq::empty()
    } else {
        let n = nodes.last();
        node_mesh_steps(nodes.drop_last()) + Seq::new(n.mesh_indices@.len(), |k: int| (n.index, n.mesh_indices@[k]))
    }
}

/// What to do for one mesh of one node: spawn it under the node, upload its material
/// if no earlier step used that material, and build its buffers if no earlier step used
/// that mesh.
#[derive(Clone, Copy, PartialEq, Eq, Structural, Debug)]
pub struct MeshSpawn {
    pub node_index: usize,
    pub mesh_index: usize,
    pub material_index: usize,
    pub upload_material: bool,
    pub build_mesh: bool,
}

/// The material of the mesh of step `k`.
pub open spec fn step_material(steps: Seq<(usize, usize)>, mesh_materials: Seq<usize>, k: int) -> usize {
    mesh_materials[steps[k].1 as int]
}

/// The materials of the steps before step `k`.
pub open spec fn materials_before(steps: Seq<(usize, usize)>, mesh_materials: Seq<usize>, k: int) -> Set<usize> {
    Set::new(|x: usize| exists|j: int| 0 <= j < k && step_material(steps, mesh_materials, j) == x)
}

/// The meshes of the steps before step `k`.
pub open spec fn meshes_before(steps: Seq<(usize, usize)>, k: int) -> Set<usize> {
    Set::new(|x: usize| exists|j: int| 0 <= j < k && #[trigger] steps[j].1 == x)
}

/// The plan of a list of steps, given the material of each mesh, the materials uploaded
/// and the meshes built before: a material is uploaded where it is first used, unless it
/// was uploaded before, and a mesh is built where it is first used, unless it was built
/// before.
pub open spec fn spawn_plan(
    steps: Seq<(usize, usize)>,
    mesh_materials: Seq<usize>,
    uploaded: Set<usize>,
    built: Set<usize>,
) -> Seq<MeshSpawn> {
    Seq::new(
        steps.len(),
        |k: int|
            MeshSpawn {
                node_index: steps[k].0,
                mesh_index: steps[k].1,
                material_index: step_material(steps, mesh_materials, k),
                upload_material: !(uploaded + materials_before(steps, mesh_materials, k)).contains(
                    step_material(steps, mesh_materials, k),
                ),
                build_mesh: !(built + meshes_before(steps, k)).contains(steps[k].1),
            },
    )
}

/// Every mesh index of every node has a known material.
pub open spec fn meshes_have_materials<M>(nodes: Seq<NodeData<M>>, mesh_count: int) -> bool {
    forall|i: int, k: int|
        0 <= i < nodes.len() && 0 <= k < nodes[i].mesh_indices@.len() ==> #[trigger] nodes[i].mesh_indices@[k]
            < mesh_count
}

/// Whether every mesh index of every node is below `mesh_count`.
pub fn all_meshes_have_materials<M>(nodes: &Vec<NodeData<M>>, mesh_count: usize) -> (all: bool)
    ensures
        all == meshes_have_materials(nodes@, mesh_count as int),
{
    let mut i: usize = 0;
    while i < nodes.len()
        invariant
            i <= nodes.len(),
            forall|p: int, k: int|
                0 <= p < i && 0 <= k < nodes@[p].mesh_indices@.len() ==> #[trigger] nodes@[p].mesh_indices@[k] < mesh_count,
        decreases nodes.len() - i,
    {
        let node = &nodes[i];
        let mut k: usize = 0;
        while k < node.mesh_indices.len()
            invariant
                k <= node.mesh_indices.len(),
                i < nodes@.len(),
                node == nodes@[i as int],
                forall|q: int| 0 <= q < k ==> #[trigger] node.mesh_indices@[q] < mesh_count,
            decreases node.mesh_indices.len() - k,
        {
            if node.mesh_indices[k] >= mesh_count {
                assert(nodes@[i as int].mesh_indices@[k as int] >= mesh_count);
                return false;
            }
            k += 1;
        }
        i += 1;
    }
    true
}

/// The steps of a flat node list, in order.
pub fn mesh_steps<M>(nodes: &Vec<NodeData<M>>) -> (steps: Vec<(usize, usize)>)
    ensures
        steps@ == node_mesh_steps(nodes@),
{
    let mut steps: Vec<(usize, usize)> = Vec::new();
    let mut i: usize = 0;
    while i < nodes.len()
        invariant
            i <= nodes.len(),
            steps@ == node_mesh_steps(nodes@.take(i as int)),
        decreases nodes.len() - i,
    {
        let node = &nodes[i];
        let ghost start = steps@;
        let ghost own = Seq::new(node.mesh_indices@.len(), |k: int| (node.index, node.mesh_indices@[k]));
        let mut k: usize = 0;
        while k < node.mesh_indices.len()
            invariant
                k <= node.mesh_indices.len(),
                own == Seq::new(node.mesh_indices@.len(), |q: int| (node.index, node.mesh_indices@[q])),
                steps@ == start + own.take(k as int),
            decreases node.mesh_indices.len() - k,
        {
            steps.push((node.index, node.mesh_indices[k]));
            k += 1;
            assert(steps@ =~= start + own.take(k as int));
        }
        proof {
            assert(own.take(node.mesh_indices.len() as int) =~= own);
            assert(nodes@.take(i + 1).drop_last() =~= nodes@.take(i as int));
            assert(nodes@.take(i + 1).last() == node);
        }
        i += 1;
    }
    assert(nodes@.take(nodes.len() as int) =~= nodes@);
    steps
}

/// What to do for each mesh of each node of a flat node list, in order, given the material
/// of each mesh of the scene (`mesh_materials[m]` is the material of mesh `m`) and the
/// materials uploaded and meshes built so far: each material is uploaded once, where it is
/// first used, and each mesh is built once, where it is first used; both sets then hold
/// what the plan uploads and builds too.
pub fn plan_mesh_spawns<M>(
    nodes: &Vec<NodeData<M>>,
    mesh_materials: &Vec<usize>,
    uploaded_materials: &mut HashSet<usize>,
    built_meshes: &mut HashSet<usize>,
) -> (plan: Vec<MeshSpawn>)
    requires
        meshes_have_materials(nodes@, mesh_materials@.len() as int),
    ensures
        plan@ == spawn_plan(
            node_mesh_steps(nodes@),
            mesh_materials@,
            old(uploaded_materials)@,
            old(built_meshes)@,
        ),
        forall|k: int|
            0 <= k < plan@.len() ==> (#[trigger] plan@[k]).mesh_index < mesh_materials@.len()
                && plan@[k].material_index == mesh_materials@[plan@[k].mesh_index as int],
        final(uploaded_materials)@ == old(uploaded_materials)@ + materials_before(
            node_mesh_steps(nodes@),
            mesh_materials@,
            node_mesh_steps(nodes@).len() as int,
        ),
        final(built_meshes)@ == old(built_meshes)@ + meshes_before(
            node_mesh_steps(nodes@),
            node_mesh_steps(nodes@).len() as int,
        ),
{
    broadcast use vstd::std_specs::hash::group_hash_axioms;

    let steps = mesh_steps(nodes);
    proof {
        lemma_steps_in_range(nodes@, mesh_materials@.len() as int);
    }
    let ghost uploaded0 = uploaded_materials@;
    let ghost built0 = built_meshes@;
    let ghost full = spawn_plan(steps@, mesh_materials@, uploaded0, built0);
    let mut plan: Vec<MeshSpawn> = Vec::new();
    let mut k: usize = 0;
    while k < steps.len()
        invariant
            k <= steps.len(),
            full == spawn_plan(steps@, mesh_materials@, uploaded0, built0),
            forall|q: int| 0 <= q < steps@.len() ==> (#[trigger] steps@[q]).1 < mesh_materials@.len(),
            plan@ == full.take(k as int),
            uploaded_materials@ == uploaded0 + materials_before(steps@, mesh_materials@, k as int),
            built_meshes@ == built0 + meshes_before(steps@, k as int),
        decreases steps.len() - k,
    {
        let (node_index, mesh_index) = steps[k];
        let material_index = mesh_materials[mesh_index];
        let upload_material = !uploaded_materials.contains(&material_index);
        let build_mesh = !built_meshes.contains(&mesh_index);
        if upload_material {
            uploaded_materials.insert(material_index);
        }
        if build_mesh {
            built_meshes.insert(mesh_index);
        }
        let spawn = MeshSpawn { node_index, mesh_index, material_index, upload_material, build_mesh };
        proof {
            assert(material_index == step_material(steps@, mesh_materials@, k as int));
            assert(spawn == full[k as int]);
            assert(uploaded_materials@ =~= uploaded0 + materials_before(steps@, mesh_materials@, k + 1)) by {
                assert forall|x: usize|
                    materials_before(steps@, mesh_materials@, k + 1).contains(x) <==> (materials_before(
                        steps@,
                        mesh_materials@,
                        k as int,
                    ).contains(x) || x == material_index) by {
                    if x == material_index {
                        assert(step_material(steps@, mesh_materials@, k as int) == x);
                    }
                    if materials_before(steps@, mesh_materials@, k + 1).contains(x) {
                        let j = choose|j: int| 0 <= j < k + 1 && step_material(steps@, mesh_materials@, j) == x;
                        if j < k {
                            assert(materials_before(steps@, mesh_materials@, k as int).contains(x));
                        }
                    }
                }
            }
            assert(built_meshes@ =~= built0 + meshes_before(steps@, k + 1)) by {
                assert forall|x: usize|
                    meshes_before(steps@, k + 1).contains(x) <==> (meshes_before(steps@, k as int).contains(x)
                        || x == mesh_index) by {
                    if x == mesh_index {
                        assert(steps@[k as int].1 == x);
                    }
                    if meshes_before(steps@, k + 1).contains(x) {
                        let j = choose|j: int| 0 <= j < k + 1 && #[trigger] steps@[j].1 == x;
                        if j < k {
                            assert(meshes_before(steps@, k as int).contains(x));
                        }
                    }
                }
            }
            assert(plan@.push(spawn) =~= full.take(k + 1));
        }
        plan.push(spawn);
        k += 1;
    }
    assert(full.take(steps.len() as int) =~= full);
    proof {
        lemma_spawn_plan_uses_mesh_materials(steps@, mesh_materials@, uploaded0, built0);
    }
    plan
}

/// Every step of a plan spawns the mesh of its step under the node of its step, and
/// carries the material of that mesh.
pub proof fn lemma_spawn_plan_uses_mesh_materials(
    steps: Seq<(usize, usize)>,
    mesh_materials: Seq<usize>,
    uploaded: Set<usize>,
    built: Set<usize>,
)
    requires
        forall|q: int| 0 <= q < steps.len() ==> (#[trigger] steps[q]).1 < mesh_materials.len(),
    ensures
        spawn_plan(steps, mesh_materials, uploaded, built).len() == steps.len(),
        forall|k: int|
            0 <= k < steps.len() ==> {
                let s = #[trigger] spawn_plan(steps, mesh_materials, uploaded, built)[k];
                &&& s.node_index == steps[k].0
                &&& s.mesh_index == steps[k].1
                &&& s.mesh_index < mesh_materials.len()
                &&& s.material_index == mesh_materials[s.mesh_index as int]
            },
{
}

/// Every step of a node list whose mesh indices are below `mesh_count` names such a mesh.
proof fn lemma_steps_in_range<M>(nodes: Seq<NodeData<M>>, mesh_count: int)
    requires
        meshes_have_materials(nodes, mesh_count),
    ensures
        forall|q: int| 0 <= q < node_mesh_steps(nodes).len() ==> (#[trigger] node_mesh_steps(nodes)[q]).1 < mesh_count,
    decreases nodes.len(),
{
    if nodes.len() > 0 {
        let rest = nodes.drop_last();
        assert(meshes_have_materials(rest, mesh_count)) by {
            assert forall|i: int, k: int|
                0 <= i < rest.len() && 0 <= k < rest[i].mesh_indices@.len() implies #[trigger] rest[i].mesh_indices@[k]
                < mesh_count by {
                assert(rest[i] == nodes[i]);
            }
        }
        lemma_steps_in_range(rest, mesh_count);
        let n = nodes.last();
        assert forall|q: int| 0 <= q < node_mesh_steps(nodes).len() implies (#[trigger] node_mesh_steps(nodes)[q]).1
            < mesh_count by {
            let a = node_mesh_steps(rest);
            if q >= a.len() {
                let k = q - a.len();
                assert(n.mesh_indices@[k] == nodes[nodes.len() - 1].mesh_indices@[k]);
            }
        }
    }
}

/// The material of step `k` of `plan` was uploaded before the plan, or some step at or
/// before step `k` uploads it.
pub open spec fn material_uploaded_by(plan: Seq<MeshSpawn>, uploaded: Set<usize>, k: int) -> bool {
    ||| uploaded.contains(plan[k].material_index)
    ||| exists|j: int| 0 <= j <= k && (#[trigger] plan[j]).upload_material && plan[j].material_index == plan[k].material_index
}

/// The mesh of step `k` of `plan` was built before the plan, or some step at or before
/// step `k` builds it.
pub open spec fn mesh_built_by(plan: Seq<MeshSpawn>, built: Set<usize>, k: int) -> bool {
    ||| built.contains(plan[k].mesh_index)
    ||| exists|j: int| 0 <= j <= k && (#[trigger] plan[j]).build_mesh && plan[j].mesh_index == plan[k].mesh_index
}

/// In `plan`, given the materials `uploaded` before it, each material used is uploaded
/// before it or at or before every step that uses it, by one step only, and never again
/// when it was uploaded before.
pub open spec fn uploads_each_material_once(plan: Seq<MeshSpawn>, uploaded: Set<usize>) -> bool {
    &&& forall|k: int| 0 <= k < plan.len() ==> #[trigger] material_uploaded_by(plan, uploaded, k)
    &&& forall|j1: int, j2: int|
        0 <= j1 < plan.len() && 0 <= j2 < plan.len() && (#[trigger] plan[j1]).upload_material
            && (#[trigger] plan[j2]).upload_material && plan[j1].material_index == plan[j2].material_index ==> j1 == j2
    &&& forall|k: int| 0 <= k < plan.len() && (#[trigger] plan[k]).upload_material ==> !uploaded.contains(plan[k].material_index)
}

/// In `plan`, given the meshes `built` before it, each mesh used is built before it or at or
/// before every step that uses it, by one step only, and never again when it was built
/// before.
pub open spec fn builds_each_mesh_once(plan: Seq<MeshSpawn>, built: Set<usize>) -> bool {
    &&& forall|k: int| 0 <= k < plan.len() ==> #[trigger] mesh_built_by(plan, built, k)
    &&& forall|j1: int, j2: int|
        0 <= j1 < plan.len() && 0 <= j2 < plan.len() && (#[trigger] plan[j1]).build_mesh
            && (#[trigger] plan[j2]).build_mesh && plan[j1].mesh_index == plan[j2].mesh_index ==> j1 == j2
    &&& forall|k: int| 0 <= k < plan.len() && (#[trigger] plan[k]).build_mesh ==> !built.contains(plan[k].mesh_index)
}

proof fn lemma_material_uploaded_before(
    steps: Seq<(usize, usize)>,
    mesh_materials: Seq<usize>,
    uploaded: Set<usize>,
    built: Set<usize>,
    k: int,
)
    requires
        0 <= k < steps.len(),
    ensures
        material_uploaded_by(spawn_plan(steps, mesh_materials, uploaded, built), uploaded, k),
    decreases k,
{
    let plan = spawn_plan(steps, mesh_materials, uploaded, built);
    if !plan[k].upload_material && !uploaded.contains(plan[k].material_index) {
        assert(materials_before(steps, mesh_materials, k).contains(step_material(steps, mesh_materials, k)));
        let j = choose|j: int|
            0 <= j < k && step_material(steps, mesh_materials, j) == step_material(steps, mesh_materials, k);
        lemma_material_uploaded_before(steps, mesh_materials, uploaded, built, j);
    } else if plan[k].upload_material {
        assert(plan[k].material_index == plan[k].material_index);
    }
}

proof fn lemma_mesh_built_before(
    steps: Seq<(usize, usize)>,
    mesh_materials: Seq<usize>,
    uploaded: Set<usize>,
    built: Set<usize>,
    k: int,
)
    requires
        0 <= k < steps.len(),
    ensures
        mesh_built_by(spawn_plan(steps, mesh_materials, uploaded, built), built, k),
    decreases k,
{
    let plan = spawn_plan(steps, mesh_materials, uploaded, built);
    if !plan[k].build_mesh && !built.contains(plan[k].mesh_index) {
        assert(meshes_before(steps, k).contains(steps[k].1));
        let j = choose|j: int| 0 <= j < k && #[trigger] steps[j].1 == steps[k].1;
        lemma_mesh_built_before(steps, mesh_materials, uploaded, built, j);
    }
}

proof fn lemma_uploads_distinct(
    steps: Seq<(usize, usize)>,
    mesh_materials: Seq<usize>,
    uploaded: Set<usize>,
    built: Set<usize>,
    j1: int,
    j2: int,
)
    requires
        0 <= j1 < j2 < steps.len(),
        spawn_plan(steps, mesh_materials, uploaded, built)[j1].material_index == spawn_plan(
            steps,
            mesh_materials,
            uploaded,
            built,
        )[j2].material_index,
    ensures
        !spawn_plan(steps, mesh_materials, uploaded, built)[j2].upload_material,
{
    assert(materials_before(steps, mesh_materials, j2).contains(step_material(steps, mesh_materials, j1)));
}

proof fn lemma_builds_distinct(
    steps: Seq<(usize, usize)>,
    mesh_materials: Seq<usize>,
    uploaded: Set<usize>,
    built: Set<usize>,
    j1: int,
    j2: int,
)
    requires
        0 <= j1 < j2 < steps.len(),
        spawn_plan(steps, mesh_materials, uploaded, built)[j1].mesh_index == spawn_plan(
            steps,
            mesh_materials,
            uploaded,
            built,
        )[j2].mesh_index,
    ensures
        !spawn_plan(steps, mesh_materials, uploaded, built)[j2].build_mesh,
{
    assert(meshes_before(steps, j2).contains(steps[j1].1));
}

/// A spawn plan, given the materials uploaded and the meshes built before it, uploads each
/// material it uses exactly once, no later than its first use, unless it was uploaded
/// before, and never uploads one that was; and the same for the meshes it builds.
pub proof fn lemma_spawn_plan_uploads_and_builds_once(
    steps: Seq<(usize, usize)>,
    mesh_materials: Seq<usize>,
    uploaded: Set<usize>,
    built: Set<usize>,
)
    ensures
        uploads_each_material_once(spawn_plan(steps, mesh_materials, uploaded, built), uploaded),
        builds_each_mesh_once(spawn_plan(steps, mesh_materials, uploaded, built), built),
{
    let plan = spawn_plan(steps, mesh_materials, uploaded, built);
    assert forall|k: int| 0 <= k < plan.len() implies #[trigger] material_uploaded_by(plan, uploaded, k) by {
        lemma_material_uploaded_before(steps, mesh_materials, uploaded, built, k);
    }
    assert forall|j1: int, j2: int|
        0 <= j1 < plan.len() && 0 <= j2 < plan.len() && (#[trigger] plan[j1]).upload_material
            && (#[trigger] plan[j2]).upload_material && plan[j1].material_index == plan[j2].material_index implies j1
        == j2 by {
        if j1 < j2 {
            lemma_uploads_distinct(steps, mesh_materials, uploaded, built, j1, j2);
        } else if j2 < j1 {
            lemma_uploads_distinct(steps, mesh_materials, uploaded, built, j2, j1);
        }
    }
    assert forall|k: int| 0 <= k < plan.len() && (#[trigger] plan[k]).upload_material implies !uploaded.contains(
        plan[k].material_index,
    ) by {
        assert((uploaded + materials_before(steps, mesh_materials, k)).contains(plan[k].material_index) <== uploaded.contains(
            plan[k].material_index,
        ));
    }
    assert forall|k: int| 0 <= k < plan.len() implies #[trigger] mesh_built_by(plan, built, k) by {
        lemma_mesh_built_before(steps, mesh_materials, uploaded, built, k);
    }
    assert forall|j1: int, j2: int|
        0 <= j1 < plan.len() && 0 <= j2 < plan.len() && (#[trigger] plan[j1]).build_mesh
            && (#[trigger] plan[j2]).build_mesh && plan[j1].mesh_index == plan[j2].mesh_index implies j1 == j2 by {
        if j1 < j2 {
            lemma_builds_distinct(steps, mesh_materials, uploaded, built, j1, j2);
        } else if j2 < j1 {
            lemma_builds_distinct(steps, mesh_materials, uploaded, built, j2, j1);
        }
    }
    assert forall|k: int| 0 <= k < plan.len() && (#[trigger] plan[k]).build_mesh implies !built.contains(
        plan[k].mesh_index,
    ) by {
        assert((built + meshes_before(steps, k)).contains(plan[k].mesh_index) <== built.contains(plan[k].mesh_index));
    }
}

/// The faces of a triangulated mesh give three indices per face: triangle `t` is at
/// positions `3t`, `3t + 1` and `3t + 2`, its corners in their own order.
pub proof fn lemma_triangle_faces(faces: Seq<Vec<u32>>)
    requires
        forall|i: int| 0 <= i < faces.len() ==> (#[trigger] faces[i])@.len() == 3,
    ensures
        flatten_faces(faces).len() == 3 * faces.len(),
        forall|t: int, c: int|
            0 <= t < faces.len() && 0 <= c < 3 ==> flatten_faces(faces)[3 * t + c] == #[trigger] faces[t]@[c],
{
    lemma_faces_in_order(faces);
    lemma_triangle_offsets(faces, faces.len() as int);
    assert forall|t: int, c: int| 0 <= t < faces.len() && 0 <= c < 3 implies flatten_faces(faces)[3 * t + c]
        == #[trigger] faces[t]@[c] by {
        lemma_triangle_offsets(faces, t);
        assert(faces[t]@.len() == 3);
    }
}

proof fn lemma_triangle_offsets(faces: Seq<Vec<u32>>, t: int)
    requires
        0 <= t <= faces.len(),
        forall|i: int| 0 <= i < faces.len() ==> (#[trigger] faces[i])@.len() == 3,
    ensures
        face_offset(faces, t) == 3 * t,
    decreases t,
{
    if t > 0 {
        lemma_triangle_offsets(faces, t - 1);
        assert(faces[t - 1]@.len() == 3);
    }
}

} // verus!
