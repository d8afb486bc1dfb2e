use vstd::prelude::*;

verus! {

/// A node of an imported scene hierarchy, holding what the hierarchy walk reads of it:
/// its name, its transformation (carried through untouched), the number of meshes the
/// importer reports for it, the indices of those meshes, and its children in order.
pub struct SceneNode<M> {
    pub name: String,
    pub transformation: M,
    pub num_meshes: usize,
    pub mesh_indices: Vec<usize>,
    pub children: Vec<SceneNode<M>>,
}

/// One entry of the flattened hierarchy: a node, its position in the flat list and the
/// position of its parent.
pub struct NodeData<M> {
    pub name: String,
    pub index: usize,
    pub parent_index: Option<usize>,
    pub matrix: M,
    pub mesh_indices: Vec<usize>,
}

/// The mathematical content of a [`NodeData`].
pub struct NodeRecord<M> {
    pub name: Seq<char>,
    pub index: int,
    pub parent_index: Option<int>,
    pub matrix: M,
    pub mesh_indices: Seq<usize>,
}

impl<M> View for NodeData<M> {
    type V = NodeRecord<M>;

    open spec fn view(&self) -> NodeRecord<M> {
        NodeRecord {
            name: self.name@,
            index: self.index as int,
            parent_index: match self.parent_index {
                Some(p) => Some(p as int),
                None => None,
            },
            matrix: self.matrix,
            mesh_indices: self.mesh_indices@,
        }
    }
}

/// Number of nodes in the tree rooted at `n`.
pub open spec fn tree_size<M>(n: SceneNode<M>) -> nat
    decreases n,
{
    1 + forest_size(n.children@)
}

/// Number of nodes in the trees rooted at the nodes of `cs`.
pub open spec fn forest_size<M>(cs: Seq<SceneNode<M>>) -> nat
    decreases cs,
{
    if cs.len() == 0 {
        0
    } else {
        tree_size(cs[0]) + forest_size(cs.drop_first())
    }
}

/// The mesh indices kept for a node: all of them when the node reports at least one mesh.
pub open spec fn kept_mesh_indices(mesh_indices: Seq<usize>, num_meshes: usize) -> Seq<usize> {
    if num_meshes > 0 {
        mesh_indices
    } else {
        Seq::empty()
    }
}

/// The record made for node `n` placed at `index` under `parent`.
pub open spec fn node_record<M>(n: SceneNode<M>, index: int, parent: Option<int>) -> NodeRecord<M> {
    NodeRecord {
        name: n.name@,
        index,
        parent_index: parent,
        matrix: n.transformation,
        mesh_indices: kept_mesh_indices(n.mesh_indices@, n.num_meshes),
    }
}

/// The records of the children `cs` of the node at `parent`, numbered from `next` on:
/// the last child comes first.
pub open spec fn sibling_records<M>(cs: Seq<SceneNode<M>>, parent: int, next: int) -> Seq<NodeRecord<M>> {
    Seq::new(cs.len(), |j: int| node_record(cs[cs.len() - 1 - j], next + j, Some(parent)))
}

/// The children lists still to expand after the siblings `cs` were numbered from `next` on,
/// each with the position of the node they belong to, the first child first.
pub open spec fn pending_children<M>(cs: Seq<SceneNode<M>>, next: int) -> Seq<(Seq<SceneNode<M>>, int)> {
    Seq::new(cs.len(), |k: int| (cs[k].children@, next + cs.len() - 1 - k))
}

/// Number of nodes below the pending entries `ps`.
pub open spec fn pending_size<M>(ps: Seq<(Seq<SceneNode<M>>, int)>) -> nat
    decreases ps,
{
    if ps.len() == 0 {
        0
    } else {
        forest_size(ps[0].0) + pending_size(ps.drop_first())
    }
}

/// Expanding the siblings `cs` leaves as many nodes pending as `cs` holds below itself.
pub proof fn lemma_pending_children_size<M>(cs: Seq<SceneNode<M>>, next: int)
    ensures
        pending_size(pending_children(cs, next)) + cs.len() == forest_size(cs),
    decreases cs.len(),
{
    if cs.len() > 0 {
        lemma_pending_children_size(cs.drop_first(), next);
        let pc = pending_children(cs, next);
        assert(pc.drop_first() =~= pending_children(cs.drop_first(), next));
        assert(pc[0].0 == cs[0].children@);
        assert(tree_size(cs[0]) == 1 + forest_size(cs[0].children@));
    }
}

/// The records made while expanding the children `cs` of the node at `parent`, when the
/// first free position is `next`.
pub open spec fn flatten_children<M>(cs: Seq<SceneNode<M>>, parent: int, next: int) -> Seq<NodeRecord<M>>
    decreases forest_size(cs), 0nat, 0nat,
{
    if cs.len() == 0 {
        Seq::empty()
    } else {
        proof {
            lemma_pending_children_size(cs, next);
        }
        sibling_records(cs, parent, next) + flatten_pending(pending_children(cs, next), next + cs.len())
    }
}

/// The records made while expanding the pending children lists `ps` in order.
pub open spec fn flatten_pending<M>(ps: Seq<(Seq<SceneNode<M>>, int)>, next: int) -> Seq<NodeRecord<M>>
    decreases pending_size(ps), 1nat, ps.len(),
{
    if ps.len() == 0 {
        Seq::empty()
    } else {
        flatten_children(ps[0].0, ps[0].1, next) + flatten_pending(ps.drop_first(), next + forest_size(ps[0].0))
    }
}

/// The flat list of a whole hierarchy: the root first, at position 0 with no parent.
pub open spec fn flatten_scene_spec<M>(root: SceneNode<M>) -> Seq<NodeRecord<M>> {
    seq![node_record(root, 0, None)] + flatten_children(root.children@, 0, 1)
}


/// The mathematical content of a flat node list.
pub open spec fn records_of<M>(nodes: Seq<NodeData<M>>) -> Seq<NodeRecord<M>> {
    Seq::new(nodes.len(), |i: int| nodes[i]@)
}

/// The pending entries of a work stack, the top of the stack first.
pub open spec fn stack_view<M>(s: Seq<(Vec<SceneNode<M>>, usize)>) -> Seq<(Seq<SceneNode<M>>, int)> {
    Seq::new(s.len(), |k: int| (s[s.len() - 1 - k].0@, s[s.len() - 1 - k].1 as int))
}

proof fn lemma_pending_size_append<M>(a: Seq<(Seq<SceneNode<M>>, int)>, b: Seq<(Seq<SceneNode<M>>, int)>)
    ensures
        pending_size(a + b) == pending_size(a) + pending_size(b),
    decreases a.len(),
{
    if a.len() > 0 {
        lemma_pending_size_append(a.drop_first(), b);
        assert((a + b).drop_first() =~= a.drop_first() + b);
    } else {
        assert(a + b =~= b);
    }
}

proof fn lemma_flatten_pending_append<M>(
    a: Seq<(Seq<SceneNode<M>>, int)>,
    b: Seq<(Seq<SceneNode<M>>, int)>,
    next: int,
)
    ensures
        flatten_pending(a + b, next) == flatten_pending(a, next) + flatten_pending(b, next + pending_size(a)),
    decreases a.len(),
{
    if a.len() > 0 {
        let f = forest_size(a[0].0);
        lemma_flatten_pending_append(a.drop_first(), b, next + f);
        assert((a + b).drop_first() =~= a.drop_first() + b);
        assert((a + b)[0] == a[0]);
        assert(flatten_pending(a + b, next) == flatten_children(a[0].0, a[0].1, next) + flatten_pending(
            a.drop_first() + b,
            next + f,
        ));
        assert(flatten_pending(a + b, next) =~= flatten_pending(a, next) + flatten_pending(
            b,
            next + pending_size(a),
        ));
    } else {
        assert(a + b =~= b);
        assert(flatten_pending(a, next) =~= Seq::<NodeRecord<M>>::empty());
    }
}

impl<M> NodeData<M> {
    /// Makes the entry of a node from its parts.
    pub fn new(
        name: String,
        index: usize,
        parent_index: Option<usize>,
        matrix: M,
        mesh_indices: Vec<usize>,
    ) -> (node: Self)
        ensures
            node.name == name,
            node.index == index,
            node.parent_index == parent_index,
            node.matrix == matrix,
            node.mesh_indices == mesh_indices,
    {
        NodeData { name, index, parent_index, matrix, mesh_indices }
    }
}

/// The mesh indices of a node, kept only when the node reports at least one mesh.
pub fn get_mesh_indices(mesh_indices: &Vec<usize>, num_meshes: usize) -> (kept: Vec<usize>)
    ensures
        kept@ == kept_mesh_indices(mesh_indices@, num_meshes),
        num_meshes > 0 ==> kept@ == mesh_indices@,
        num_meshes == 0 ==> kept@.len() == 0,
{
    let mut kept: Vec<usize> = Vec::new();
    if num_meshes > 0 {
        let mut i: usize = 0;
        while i < mesh_indices.len()
            invariant
                i <= mesh_indices.len(),
                kept@ == mesh_indices@.take(i as int),
            decreases mesh_indices.len() - i,
        {
            kept.push(mesh_indices[i]);
            i += 1;
            assert(kept@ =~= mesh_indices@.take(i as int));
        }
        assert(mesh_indices@.take(mesh_indices.len() as int) =~= mesh_indices@);
    } else {
        assert(kept@ =~= Seq::<usize>::empty());
    }
    kept
}

/// Flattens a scene hierarchy into a list of nodes that refer to their parent by position.
///
/// The root comes first. Nodes are expanded in depth-first order, the first child first;
/// expanding a node appends all its children at once, the last child first.
pub fn flatten_scene<M>(root: SceneNode<M>) -> (nodes: Vec<NodeData<M>>)
    ensures
        records_of(nodes@) == flatten_scene_spec(root),
        nodes@.len() >= 1 && made_of_node(nodes@[0]@, root),
        forall|k: int| 0 <= k < nodes@.len() ==> made_of_one_of((#[trigger] nodes@[k])@, tree_nodes(root)),
{
    let ghost total = flatten_scene_spec(root);
    let ghost root_node = root;
    let SceneNode { name, transformation, num_meshes, mesh_indices, children } = root;
    let root_meshes = get_mesh_indices(&mesh_indices, num_meshes);
    let mut nodes: Vec<NodeData<M>> = Vec::new();
    nodes.push(NodeData::new(name, 0, None, transformation, root_meshes));
    let mut stack: Vec<(Vec<SceneNode<M>>, usize)> = Vec::new();
    stack.push((children, 0));
    proof {
        assert(records_of(nodes@) =~= seq![node_record(root_node, 0, None)]);
        let sv = stack_view(stack@);
        assert(sv =~= seq![(root_node.children@, 0int)]);
        assert(sv.drop_first() =~= Seq::<(Seq<SceneNode<M>>, int)>::empty());
        assert(sv[0].1 == 0);
        assert(flatten_pending(sv.drop_first(), 1 + forest_size(sv[0].0) as int) =~= Seq::<NodeRecord<M>>::empty());
        assert(flatten_pending(sv, 1) =~= flatten_children(root_node.children@, 0, 1));
    }
    while stack.len() > 0
        invariant
            records_of(nodes@) + flatten_pending(stack_view(stack@), nodes.len() as int) == total,
        decreases pending_size(stack_view(stack@)), stack.len(),
    {
        let ghost before = stack_view(stack@);
        let ghost next = nodes.len() as int;
        let ghost base = records_of(nodes@);
        let entry = stack.pop();
        let (mut siblings, parent_index) = match entry {
            Some(e) => e,
            None => {
                return nodes;
            },
        };
        let ghost cs = siblings@;
        let ghost rest = stack_view(stack@);
        proof {
            assert(rest =~= before.drop_first());
            assert(before[0] == (cs, parent_index as int));
        }
        let count = siblings.len();
        let mut j: usize = 0;
        while j < count
            invariant
                j <= count,
                count == cs.len(),
                siblings@ == cs.take(count - j),
                nodes.len() == next + j,
                records_of(nodes@) == base + sibling_records(cs, parent_index as int, next).take(j as int),
                stack_view(stack@) == pending_children(cs, next).subrange(count - j, count as int) + rest,
            decreases count - j,
        {
            let ghost before_nodes = nodes@;
            let ghost before_stack = stack@;
            let popped = siblings.pop();
            let child = match popped {
                Some(c) => c,
                None => {
                    return nodes;
                },
            };
            proof {
                assert(child == cs[count - 1 - j]);
            }
            let ghost child_node = child;
            let SceneNode {
                name,
                transformation,
                num_meshes,
                mesh_indices,
                children: grandchildren,
            } = child;
            let index = nodes.len();
            let kept = get_mesh_indices(&mesh_indices, num_meshes);
            nodes.push(NodeData::new(name, index, Some(parent_index), transformation, kept));
            stack.push((grandchildren, index));
            proof {
                let sr = sibling_records(cs, parent_index as int, next);
                assert(nodes@[index as int]@ == node_record(child_node, next + j, Some(parent_index as int)));
                assert(nodes@ =~= before_nodes.push(nodes@[index as int]));
                assert(records_of(nodes@) =~= records_of(before_nodes).push(nodes@[index as int]@));
                assert(sr[j as int] == node_record(child_node, next + j, Some(parent_index as int)));
                assert(sr.take(j + 1) =~= sr.take(j as int).push(sr[j as int]));
                assert(records_of(nodes@) =~= base + sr.take(j + 1));
                let pc = pending_children(cs, next);
                assert(pc[count - 1 - j] == (child_node.children@, next + j));
                assert(stack@ =~= before_stack.push((stack@[stack@.len() - 1])));
                assert(stack_view(stack@) =~= seq![(child_node.children@, next + j)] + stack_view(before_stack));
                assert(pc.subrange(count - (j + 1), count as int) =~= seq![pc[count - 1 - j]] + pc.subrange(
                    count - j,
                    count as int,
                ));
                assert(stack_view(stack@) =~= pc.subrange(count - (j + 1), count as int) + rest);
                assert(siblings@ =~= cs.take(count - (j + 1)));
            }
            j += 1;
        }
        proof {
            let sr = sibling_records(cs, parent_index as int, next);
            let pc = pending_children(cs, next);
            assert(sr.take(count as int) =~= sr);
            assert(pc.subrange(0, count as int) =~= pc);
            lemma_pending_children_size(cs, next);
            lemma_flatten_pending_append(pc, rest, next + count);
            lemma_pending_size_append(pc, rest);
            if count == 0 {
                assert(flatten_children(cs, parent_index as int, next) =~= Seq::<NodeRecord<M>>::empty());
                assert(pc =~= Seq::<(Seq<SceneNode<M>>, int)>::empty());
                assert(pc + rest =~= rest);
            }
            assert(flatten_pending(before, next) == flatten_children(cs, parent_index as int, next)
                + flatten_pending(rest, next + forest_size(cs)));
            assert(records_of(nodes@) + flatten_pending(stack_view(stack@), nodes.len() as int) =~= total);
        }
    }
    proof {
        assert(stack_view(stack@) =~= Seq::<(Seq<SceneNode<M>>, int)>::empty());
        assert(records_of(nodes@) + Seq::<NodeRecord<M>>::empty() =~= records_of(nodes@));
        lemma_flatten_scene_keeps_nodes(root_node);
        lemma_flatten_scene_shape(root_node);
        assert forall|k: int| 0 <= k < nodes@.len() implies made_of_one_of((#[trigger] nodes@[k])@, tree_nodes(root_node)) by {
            assert(records_of(nodes@)[k] == nodes@[k]@);
        }
        assert(records_of(nodes@)[0] == nodes@[0]@);
    }
    nodes
}

/// The records `r` are numbered from `next` on, and each has a parent that comes before it.
pub open spec fn numbered_after_parents<M>(r: Seq<NodeRecord<M>>, next: int) -> bool {
    forall|k: int|
        0 <= k < r.len() ==> {
            &&& (#[trigger] r[k]).index == next + k
            &&& r[k].parent_index matches Some(p) && 0 <= p < next + k
        }
}

proof fn lemma_flatten_children_shape<M>(cs: Seq<SceneNode<M>>, parent: int, next: int)
    requires
        0 <= parent < next,
    ensures
        flatten_children(cs, parent, next).len() == forest_size(cs),
        numbered_after_parents(flatten_children(cs, parent, next), next),
    decreases forest_size(cs), 0nat, 0nat,
{
    if cs.len() > 0 {
        lemma_pending_children_size(cs, next);
        let pc = pending_children(cs, next);
        let m = cs.len() as int;
        lemma_flatten_pending_shape(pc, next + m);
        let sr = sibling_records(cs, parent, next);
        let rest = flatten_pending(pc, next + m);
        let r = flatten_children(cs, parent, next);
        assert(r == sr + rest);
        assert forall|k: int| 0 <= k < r.len() implies {
            &&& (#[trigger] r[k]).index == next + k
            &&& r[k].parent_index matches Some(p) && 0 <= p < next + k
        } by {
            if k >= m {
                assert(r[k] == rest[k - m]);
            }
        }
    }
}

proof fn lemma_flatten_pending_shape<M>(ps: Seq<(Seq<SceneNode<M>>, int)>, next: int)
    requires
        forall|k: int| 0 <= k < ps.len() ==> 0 <= (#[trigger] ps[k]).1 < next,
    ensures
        flatten_pending(ps, next).len() == pending_size(ps),
        numbered_after_parents(flatten_pending(ps, next), next),
    decreases pending_size(ps), 1nat, ps.len(),
{
    if ps.len() > 0 {
        let f = forest_size(ps[0].0) as int;
        lemma_flatten_children_shape(ps[0].0, ps[0].1, next);
        assert forall|k: int| 0 <= k < ps.drop_first().len() implies 0 <= (#[trigger] ps.drop_first()[k]).1 < next
            + f by {
            assert(ps.drop_first()[k] == ps[k + 1]);
        }
        lemma_flatten_pending_shape(ps.drop_first(), next + f);
        let a = flatten_children(ps[0].0, ps[0].1, next);
        let b = flatten_pending(ps.drop_first(), next + f);
        let r = flatten_pending(ps, next);
        assert(r == a + b);
        assert forall|k: int| 0 <= k < r.len() implies {
            &&& (#[trigger] r[k]).index == next + k
            &&& r[k].parent_index matches Some(p) && 0 <= p < next + k
        } by {
            if k >= a.len() {
                assert(r[k] == b[k - a.len()]);
            } else {
                assert(r[k] == a[k]);
            }
        }
    }
}

/// Flattening a hierarchy gives one entry per node; every entry's index is its position
/// in the list; the root comes first, with no parent; every other entry names a parent
/// that comes before it.
pub proof fn lemma_flatten_scene_shape<M>(root: SceneNode<M>)
    ensures
        flatten_scene_spec(root).len() == tree_size(root),
        flatten_scene_spec(root)[0].parent_index is None,
        forall|i: int| 0 <= i < flatten_scene_spec(root).len() ==> (#[trigger] flatten_scene_spec(root)[i]).index == i,
        forall|i: int|
            1 <= i < flatten_scene_spec(root).len() ==> ((#[trigger] flatten_scene_spec(root)[i]).parent_index matches Some(
                p,
            ) && 0 <= p < i),
{
    lemma_flatten_children_shape(root.children@, 0, 1);
    let r = flatten_scene_spec(root);
    let rest = flatten_children(root.children@, 0, 1);
    assert forall|i: int| 1 <= i < r.len() implies (#[trigger] r[i]).index == i && (r[i].parent_index matches Some(p)
        && 0 <= p < i) by {
        assert(r[i] == rest[i - 1]);
    }
}

/// The nodes of the tree rooted at `n`: `n`, then the nodes below its children in order.
pub open spec fn tree_nodes<M>(n: SceneNode<M>) -> Seq<SceneNode<M>>
    decreases n,
{
    seq![n] + forest_nodes(n.children@)
}

/// The nodes of the trees rooted at the nodes of `cs`, tree after tree.
pub open spec fn forest_nodes<M>(cs: Seq<SceneNode<M>>) -> Seq<SceneNode<M>>
    decreases cs,
{
    if cs.len() == 0 {
        Seq::empty()
    } else {
        tree_nodes(cs[0]) + forest_nodes(cs.drop_first())
    }
}

/// The record `r` is made of node `n`: its name and transformation, and all of its mesh
/// indices when it reports a mesh, none otherwise.
pub open spec fn made_of_node<M>(r: NodeRecord<M>, n: SceneNode<M>) -> bool {
    &&& r.name == n.name@
    &&& r.matrix == n.transformation
    &&& if n.num_meshes > 0 {
        r.mesh_indices == n.mesh_indices@
    } else {
        r.mesh_indices.len() == 0
    }
}

/// Each node of `cs`, and each node below one of them, is a node of the forest.
proof fn lemma_forest_holds_children<M>(cs: Seq<SceneNode<M>>)
    ensures
        forall|i: int| 0 <= i < cs.len() ==> forest_nodes(cs).contains(#[trigger] cs[i]),
        forall|i: int, x: SceneNode<M>|
            0 <= i < cs.len() && #[trigger] forest_nodes(cs[i].children@).contains(x) ==> forest_nodes(cs).contains(x),
    decreases cs.len(),
{
    if cs.len() > 0 {
        let rest = cs.drop_first();
        lemma_forest_holds_children(rest);
        let t = tree_nodes(cs[0]);
        let f = forest_nodes(cs);
        assert(f == t + forest_nodes(rest));
        assert forall|i: int| 0 <= i < cs.len() implies f.contains(#[trigger] cs[i]) by {
            if i == 0 {
                assert(f[0] == cs[0]);
            } else {
                assert(cs[i] == rest[i - 1]);
                let q = choose|q: int| 0 <= q < forest_nodes(rest).len() && forest_nodes(rest)[q] == cs[i];
                assert(f[t.len() + q] == cs[i]);
            }
        }
        assert forall|i: int, x: SceneNode<M>|
            0 <= i < cs.len() && #[trigger] forest_nodes(cs[i].children@).contains(x) implies f.contains(x) by {
            if i == 0 {
                let q = choose|q: int|
                    0 <= q < forest_nodes(cs[0].children@).len() && forest_nodes(cs[0].children@)[q] == x;
                assert(t[q + 1] == x);
                assert(f[q + 1] == x);
            } else {
                assert(cs[i] == rest[i - 1]);
                assert(forest_nodes(rest).contains(x));
                let q = choose|q: int| 0 <= q < forest_nodes(rest).len() && forest_nodes(rest)[q] == x;
                assert(f[t.len() + q] == x);
            }
        }
    }
}

/// The record `r` is made of one of the nodes `nodes`.
pub open spec fn made_of_one_of<M>(r: NodeRecord<M>, nodes: Seq<SceneNode<M>>) -> bool {
    exists|n: SceneNode<M>| nodes.contains(n) && made_of_node(r, n)
}

/// The record `r` is made of a node below one of the pending entries `ps`.
pub open spec fn made_of_pending<M>(r: NodeRecord<M>, ps: Seq<(Seq<SceneNode<M>>, int)>) -> bool {
    exists|i: int| 0 <= i < ps.len() && made_of_one_of(r, forest_nodes(#[trigger] ps[i].0))
}

proof fn lemma_children_records_made_of_nodes<M>(cs: Seq<SceneNode<M>>, parent: int, next: int)
    ensures
        forall|k: int|
            0 <= k < flatten_children(cs, parent, next).len() ==> made_of_one_of(
                #[trigger] flatten_children(cs, parent, next)[k],
                forest_nodes(cs),
            ),
    decreases forest_size(cs), 0nat, 0nat,
{
    if cs.len() > 0 {
        lemma_pending_children_size(cs, next);
        lemma_forest_holds_children(cs);
        let m = cs.len() as int;
        let pc = pending_children(cs, next);
        lemma_pending_records_made_of_nodes(pc, next + m);
        let sr = sibling_records(cs, parent, next);
        let rest = flatten_pending(pc, next + m);
        let r = flatten_children(cs, parent, next);
        assert(r == sr + rest);
        assert forall|k: int| 0 <= k < r.len() implies made_of_one_of(#[trigger] r[k], forest_nodes(cs)) by {
            if k < m {
                let n = cs[m - 1 - k];
                assert(r[k] == node_record(n, next + k, Some(parent)));
                assert(forest_nodes(cs).contains(n));
                assert(made_of_node(r[k], n));
            } else {
                assert(r[k] == rest[k - m]);
                assert(made_of_pending(rest[k - m], pc));
                let i = choose|i: int| 0 <= i < pc.len() && made_of_one_of(rest[k - m], forest_nodes(#[trigger] pc[i].0));
                let n = choose|n: SceneNode<M>| forest_nodes(pc[i].0).contains(n) && made_of_node(rest[k - m], n);
                assert(pc[i].0 == cs[i].children@);
                assert(forest_nodes(cs[i].children@).contains(n));
                assert(forest_nodes(cs).contains(n));
            }
        }
    }
}

proof fn lemma_pending_records_made_of_nodes<M>(ps: Seq<(Seq<SceneNode<M>>, int)>, next: int)
    ensures
        forall|k: int|
            0 <= k < flatten_pending(ps, next).len() ==> made_of_pending(#[trigger] flatten_pending(ps, next)[k], ps),
    decreases pending_size(ps), 1nat, ps.len(),
{
    if ps.len() > 0 {
        let f = forest_size(ps[0].0) as int;
        lemma_children_records_made_of_nodes(ps[0].0, ps[0].1, next);
        let tail = ps.drop_first();
        lemma_pending_records_made_of_nodes(tail, next + f);
        let a = flatten_children(ps[0].0, ps[0].1, next);
        let b = flatten_pending(tail, next + f);
        let r = flatten_pending(ps, next);
        assert(r == a + b);
        assert forall|k: int| 0 <= k < r.len() implies made_of_pending(#[trigger] r[k], ps) by {
            if k < a.len() {
                assert(r[k] == a[k]);
                assert(made_of_one_of(r[k], forest_nodes(ps[0].0)));
            } else {
                assert(r[k] == b[k - a.len()]);
                assert(made_of_pending(b[k - a.len()], tail));
                let i = choose|i: int| 0 <= i < tail.len() && made_of_one_of(b[k - a.len()], forest_nodes(#[trigger] tail[i].0));
                assert(tail[i] == ps[i + 1]);
                assert(made_of_one_of(r[k], forest_nodes(ps[i + 1].0)));
            }
        }
    }
}

/// Every entry of the flattened hierarchy is made of a node of the hierarchy: it has the
/// node's name and transformation, and all of the node's mesh indices when the node
/// reports a mesh, none otherwise. The first entry is made of the root.
pub proof fn lemma_flatten_scene_keeps_nodes<M>(root: SceneNode<M>)
    ensures
        made_of_node(flatten_scene_spec(root)[0], root),
        forall|k: int|
            0 <= k < flatten_scene_spec(root).len() ==> made_of_one_of(
                #[trigger] flatten_scene_spec(root)[k],
                tree_nodes(root),
            ),
{
    let r = flatten_scene_spec(root);
    let rest = flatten_children(root.children@, 0, 1);
    lemma_children_records_made_of_nodes(root.children@, 0, 1);
    let t = tree_nodes(root);
    assert(t == seq![root] + forest_nodes(root.children@));
    assert(r[0] == node_record(root, 0, None));
    assert forall|k: int| 0 <= k < r.len() implies made_of_one_of(#[trigger] r[k], t) by {
        if k == 0 {
            assert(t[0] == root);
            assert(made_of_node(r[0], root));
        } else {
            assert(r[k] == rest[k - 1]);
            assert(made_of_one_of(rest[k - 1], forest_nodes(root.children@)));
            let n = choose|n: SceneNode<M>| forest_nodes(root.children@).contains(n) && made_of_node(rest[k - 1], n);
            let q = choose|q: int| 0 <= q < forest_nodes(root.children@).len() && forest_nodes(root.children@)[q] == n;
            assert(t[q + 1] == n);
            assert(t.contains(n) && made_of_node(r[k], n));
        }
    }
}

} // verus!
