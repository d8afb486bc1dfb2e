use engine_assets::scene::{flatten_scene, get_mesh_indices, NodeData, SceneNode};

fn node(name: &str, meshes: Vec<usize>, children: Vec<SceneNode<u32>>) -> SceneNode<u32> {
    SceneNode {
        name: name.to_string(),
        transformation: name.len() as u32,
        num_meshes: meshes.len(),
        mesh_indices: meshes,
        children,
    }
}

fn summary(nodes: &[NodeData<u32>]) -> Vec<(String, usize, Option<usize>)> {
    nodes.iter().map(|n| (n.name.clone(), n.index, n.parent_index)).collect()
}

#[test]
fn flatten_expands_children_last_first_and_depth_first() {
    let root = node(
        "root",
        vec![],
        vec![node("a", vec![0], vec![node("c", vec![1, 2], vec![])]), node("b", vec![], vec![])],
    );
    let nodes = flatten_scene(root);
    assert_eq!(
        summary(&nodes),
        vec![
            ("root".to_string(), 0, None),
            ("b".to_string(), 1, Some(0)),
            ("a".to_string(), 2, Some(0)),
            ("c".to_string(), 3, Some(2)),
        ]
    );
    assert_eq!(nodes[2].mesh_indices, vec![0]);
    assert_eq!(nodes[3].mesh_indices, vec![1, 2]);
    assert_eq!(nodes[3].matrix, 1);
    assert_eq!(nodes[0].matrix, 4);
}

#[test]
fn flatten_numbers_nested_levels_after_all_siblings() {
    let root = node(
        "r",
        vec![5],
        vec![
            node("x", vec![], vec![node("x1", vec![], vec![]), node("x2", vec![], vec![])]),
            node("y", vec![], vec![node("y1", vec![], vec![])]),
            node("z", vec![], vec![]),
        ],
    );
    let nodes = flatten_scene(root);
    assert_eq!(
        summary(&nodes),
        vec![
            ("r".to_string(), 0, None),
            ("z".to_string(), 1, Some(0)),
            ("y".to_string(), 2, Some(0)),
            ("x".to_string(), 3, Some(0)),
            ("x2".to_string(), 4, Some(3)),
            ("x1".to_string(), 5, Some(3)),
            ("y1".to_string(), 6, Some(2)),
        ]
    );
    assert_eq!(nodes[0].mesh_indices, vec![5]);
    for (i, n) in nodes.iter().enumerate() {
        assert_eq!(n.index, i);
        if let Some(p) = n.parent_index {
            assert!(p < i);
        }
    }
}

#[test]
fn flatten_a_lone_root() {
    let nodes = flatten_scene(node("only", vec![3], vec![]));
    assert_eq!(summary(&nodes), vec![("only".to_string(), 0, None)]);
    assert_eq!(nodes[0].mesh_indices, vec![3]);
}

#[test]
fn mesh_indices_are_dropped_when_no_mesh_is_reported() {
    assert_eq!(get_mesh_indices(&vec![4, 5], 2), vec![4, 5]);
    assert_eq!(get_mesh_indices(&vec![4, 5], 0), Vec::<usize>::new());
    let mut n = node("n", vec![9], vec![]);
    n.num_meshes = 0;
    let nodes = flatten_scene(n);
    assert!(nodes[0].mesh_indices.is_empty());
}

#[test]
fn node_data_new_keeps_its_parts() {
    let n = NodeData::new("n".to_string(), 3, Some(1), 7u8, vec![2]);
    assert_eq!(n.name, "n");
    assert_eq!(n.index, 3);
    assert_eq!(n.parent_index, Some(1));
    assert_eq!(n.matrix, 7);
    assert_eq!(n.mesh_indices, vec![2]);
}
