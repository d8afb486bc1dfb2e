use engine_assets::materials::{material_type_for_alpha_mode, MaterialState, MaterialTextures, MaterialType};
use engine_assets::meshes::{all_meshes_have_materials, flatten_face_indices, mesh_steps, plan_mesh_spawns, MeshSpawn};
use engine_assets::mesh_optimization::{
    optimize_vertex_cache, optimize_vertex_fetch, optimize_vertex_fetch_remap, prepare_mesh, remap_indices,
    remap_vertices,
};
use engine_assets::meshlets::{generate_meshlets, is_clusterable, meshlets_from_raw, Meshlet};
use engine_assets::scene::NodeData;
use std::collections::HashSet;

fn node(index: usize, meshes: Vec<usize>) -> NodeData<()> {
    NodeData::new(format!("n{index}"), index, if index == 0 { None } else { Some(0) }, (), meshes)
}

#[test]
fn face_indices_are_concatenated_in_order() {
    let faces = vec![vec![0, 1, 2], vec![2, 3, 0], vec![]];
    assert_eq!(flatten_face_indices(&faces), vec![0, 1, 2, 2, 3, 0]);
    assert_eq!(flatten_face_indices(&vec![]), Vec::<u32>::new());
}

#[test]
fn blend_alpha_modes_are_transparent() {
    assert_eq!(material_type_for_alpha_mode("BLEND"), MaterialType::Transparent);
    assert_eq!(material_type_for_alpha_mode("XBLENDX"), MaterialType::Transparent);
    assert_eq!(material_type_for_alpha_mode("OPAQUE"), MaterialType::Opaque);
    assert_eq!(material_type_for_alpha_mode("MASK"), MaterialType::Opaque);
    assert_eq!(material_type_for_alpha_mode("blend"), MaterialType::Opaque);
    assert_eq!(MaterialType::default(), MaterialType::Opaque);
    let state = MaterialState { material_type: material_type_for_alpha_mode("BLEND") };
    assert_eq!(state.material_type, MaterialType::Transparent);
}

#[test]
fn material_textures_keep_their_slots() {
    let t = MaterialTextures::new(1, 2, 3);
    assert_eq!((t.albedo_texture_index, t.metallic_texture_index, t.roughness_texture_index), (1, 2, 3));
}

#[test]
fn mesh_steps_follow_nodes_then_meshes() {
    let nodes = vec![node(0, vec![]), node(1, vec![2, 0]), node(2, vec![2])];
    assert_eq!(mesh_steps(&nodes), vec![(1, 2), (1, 0), (2, 2)]);
}

#[test]
fn each_material_and_mesh_is_prepared_once() {
    let nodes = vec![node(0, vec![0]), node(1, vec![1, 0]), node(2, vec![2])];
    let mesh_materials = vec![5, 5, 6];
    let mut uploaded = HashSet::new();
    let mut built = HashSet::new();
    let plan = plan_mesh_spawns(&nodes, &mesh_materials, &mut uploaded, &mut built);
    assert_eq!(
        plan,
        vec![
            MeshSpawn { node_index: 0, mesh_index: 0, material_index: 5, upload_material: true, build_mesh: true },
            MeshSpawn { node_index: 1, mesh_index: 1, material_index: 5, upload_material: false, build_mesh: true },
            MeshSpawn { node_index: 1, mesh_index: 0, material_index: 5, upload_material: false, build_mesh: false },
            MeshSpawn { node_index: 2, mesh_index: 2, material_index: 6, upload_material: true, build_mesh: true },
        ]
    );
    assert_eq!(uploaded, HashSet::from([5, 6]));
    assert_eq!(built, HashSet::from([0, 1, 2]));
}

#[test]
fn earlier_uploads_and_builds_are_reused() {
    let nodes = vec![node(0, vec![0]), node(1, vec![1, 0]), node(2, vec![2])];
    let mesh_materials = vec![5, 5, 6];
    let mut uploaded = HashSet::from([5]);
    let mut built = HashSet::from([1]);
    let plan = plan_mesh_spawns(&nodes, &mesh_materials, &mut uploaded, &mut built);
    assert_eq!(
        plan,
        vec![
            MeshSpawn { node_index: 0, mesh_index: 0, material_index: 5, upload_material: false, build_mesh: true },
            MeshSpawn { node_index: 1, mesh_index: 1, material_index: 5, upload_material: false, build_mesh: false },
            MeshSpawn { node_index: 1, mesh_index: 0, material_index: 5, upload_material: false, build_mesh: false },
            MeshSpawn { node_index: 2, mesh_index: 2, material_index: 6, upload_material: true, build_mesh: true },
        ]
    );
    assert_eq!(uploaded, HashSet::from([5, 6]));
    assert_eq!(built, HashSet::from([0, 1, 2]));
}

#[test]
fn meshlets_copy_the_raw_clusters() {
    let raw = vec![(0, 0, 3, 1), (3, 4, 4, 2)];
    let m = meshlets_from_raw(&raw);
    assert_eq!(
        m,
        vec![
            Meshlet { vertex_offset: 0, triangle_offset: 0, vertex_count: 3, triangle_count: 1 },
            Meshlet { vertex_offset: 3, triangle_offset: 4, vertex_count: 4, triangle_count: 2 },
        ]
    );
    assert_eq!(
        Meshlet::default(),
        Meshlet { vertex_offset: 0, triangle_offset: 0, vertex_count: 0, triangle_count: 0 }
    );
}

fn position_bytes(positions: &[[f32; 3]]) -> Vec<u8> {
    let mut bytes = Vec::new();
    for p in positions {
        for c in p {
            bytes.extend_from_slice(&c.to_ne_bytes());
        }
    }
    bytes
}

#[test]
fn a_quad_makes_one_meshlet() {
    let data = position_bytes(&[[0.0, 0.0, 0.0], [1.0, 0.0, 0.0], [1.0, 1.0, 0.0], [0.0, 1.0, 0.0]]);
    let indices = vec![0u32, 1, 2, 2, 3, 0];
    let (meshlets, vertices, triangles) = generate_meshlets(&indices, &data, 12, 0);
    assert_eq!(meshlets.len(), 1);
    assert_eq!(meshlets[0].vertex_count, 4);
    assert_eq!(meshlets[0].triangle_count, 2);
    assert_eq!(meshlets[0].vertex_offset, 0);
    assert_eq!(meshlets[0].triangle_offset, 0);
    let mut used: Vec<u32> = vertices[..4].to_vec();
    used.sort();
    assert_eq!(used, vec![0, 1, 2, 3]);
    assert!(triangles.len() >= 6);
    assert!(triangles[..6].iter().all(|t| *t < 4));
}

#[test]
fn an_empty_index_list_makes_no_meshlet() {
    let data = position_bytes(&[[0.0, 0.0, 0.0]]);
    let (meshlets, _, _) = generate_meshlets(&[], &data, 12, 0);
    assert!(meshlets.is_empty());
}

#[test]
fn many_triangles_split_into_bounded_meshlets() {
    let mut positions = Vec::new();
    let mut indices = Vec::new();
    for t in 0..200u32 {
        let x = t as f32;
        positions.push([x, 0.0, 0.0]);
        positions.push([x + 0.5, 1.0, 0.0]);
        positions.push([x + 1.0, 0.0, 0.0]);
        indices.extend_from_slice(&[3 * t, 3 * t + 1, 3 * t + 2]);
    }
    let data = position_bytes(&positions);
    let (meshlets, vertices, triangles) = generate_meshlets(&indices, &data, 12, 0);
    assert!(meshlets.len() >= 10);
    let total: u32 = meshlets.iter().map(|m| m.triangle_count).sum();
    assert_eq!(total, 200);
    for m in &meshlets {
        assert!(m.vertex_count <= 64 && m.triangle_count <= 64);
        assert!((m.vertex_offset + m.vertex_count) as usize <= vertices.len());
        assert!((m.triangle_offset + 3 * m.triangle_count) as usize <= triangles.len());
    }
}

#[test]
fn vertex_cache_order_keeps_the_triangles() {
    let before = vec![0u32, 1, 2, 3, 4, 5, 2, 1, 6, 5, 4, 7, 0, 2, 6];
    let mut indices = before.clone();
    optimize_vertex_cache(&mut indices, 8);
    assert_eq!(indices.len(), before.len());
    let tri = |s: &[u32]| {
        let mut t: Vec<[u32; 3]> = s.chunks(3).map(|c| [c[0], c[1], c[2]]).collect();
        t.sort();
        t
    };
    assert_eq!(tri(&indices), tri(&before));
}

#[test]
fn triangle_faces_give_three_indices_each() {
    let faces = vec![vec![0, 1, 2], vec![3, 4, 5], vec![6, 7, 8], vec![9, 10, 11]];
    assert_eq!(flatten_face_indices(&faces).len(), 3 * faces.len());
}

#[test]
fn clusterable_checks_every_requirement() {
    let data = position_bytes(&[[0.0, 0.0, 0.0], [1.0, 0.0, 0.0], [0.0, 1.0, 0.0]]);
    assert!(is_clusterable(&[0, 1, 2], &data, 12, 0));
    assert!(!is_clusterable(&[0, 1], &data, 12, 0));
    assert!(!is_clusterable(&[0, 1, 3], &data, 12, 0));
    assert!(!is_clusterable(&[0, 1, 2], &data, 8, 0));
    assert!(!is_clusterable(&[0, 1, 2], &data, 12, 4));
    assert!(!is_clusterable(&[0, 1, 2], &data[..35], 12, 0));
    assert!(!is_clusterable(&[0, 1, 2], &data, 14, 0));
}

#[test]
fn meshes_need_known_materials() {
    let nodes = vec![node(0, vec![0]), node(1, vec![1, 2])];
    assert!(all_meshes_have_materials(&nodes, 3));
    assert!(!all_meshes_have_materials(&nodes, 2));
}

#[test]
fn vertex_fetch_order_keeps_what_each_index_names() {
    let vertices: Vec<[u32; 2]> = vec![[10, 0], [11, 1], [12, 2], [13, 3], [14, 4]];
    let before = vec![3u32, 1, 4, 4, 1, 3];
    let mut indices = before.clone();
    let reordered = optimize_vertex_fetch(&mut indices, &vertices);
    assert_eq!(reordered, vec![[13, 3], [11, 1], [14, 4]]);
    assert_eq!(indices, vec![0, 1, 2, 2, 1, 0]);
    for i in 0..before.len() {
        assert_eq!(reordered[indices[i] as usize], vertices[before[i] as usize]);
    }
}

fn sorted_triangles(indices: &[u32]) -> Vec<[u32; 3]> {
    let mut t: Vec<[u32; 3]> = indices.chunks(3).map(|c| [c[0], c[1], c[2]]).collect();
    t.sort();
    t
}

#[test]
fn meshlets_hold_the_source_triangles_end_to_end() {
    let mut positions = Vec::new();
    let mut indices = Vec::new();
    for t in 0..150u32 {
        let x = t as f32;
        positions.push([x, 0.0, 0.0]);
        positions.push([x, 1.0, 0.0]);
        if t > 0 {
            let (a, b, c, d) = (2 * t - 2, 2 * t - 1, 2 * t, 2 * t + 1);
            indices.extend_from_slice(&[a, c, b, b, c, d]);
        }
    }
    let data = position_bytes(&positions);
    let (meshlets, vertices, triangles) = generate_meshlets(&indices, &data, 12, 0);
    assert!(!meshlets.is_empty());
    let mut resolved: Vec<u32> = Vec::new();
    let mut vertex_end = 0u32;
    let mut triangle_end = 0u32;
    for m in &meshlets {
        assert_eq!(m.vertex_offset, vertex_end);
        assert_eq!(m.triangle_offset, triangle_end);
        assert!(m.triangle_count >= 1 && m.triangle_count <= 64 && m.vertex_count <= 64);
        let local = &vertices[m.vertex_offset as usize..(m.vertex_offset + m.vertex_count) as usize];
        let mut distinct = local.to_vec();
        distinct.sort();
        distinct.dedup();
        assert_eq!(distinct.len(), local.len());
        let tris = &triangles[m.triangle_offset as usize..(m.triangle_offset + 3 * m.triangle_count) as usize];
        for j in 0..m.vertex_count {
            assert!(tris.iter().any(|t| *t as u32 == j));
        }
        for t in tris {
            assert!((*t as u32) < m.vertex_count);
            resolved.push(local[*t as usize]);
        }
        vertex_end += m.vertex_count;
        triangle_end += 3 * m.triangle_count;
    }
    assert_eq!(vertices.len(), vertex_end as usize);
    assert_eq!(sorted_triangles(&resolved), sorted_triangles(&indices));
}

#[test]
fn vertex_cache_order_brings_a_neighbour_forward() {
    let mut indices = vec![0u32, 1, 2, 3, 4, 5, 0, 2, 6];
    optimize_vertex_cache(&mut indices, 7);
    assert_eq!(indices, vec![0, 1, 2, 0, 2, 6, 3, 4, 5]);
}

#[test]
fn fetch_remap_numbers_vertices_by_first_use() {
    let indices = vec![2u32, 0, 3, 3, 0, 2];
    let remap = optimize_vertex_fetch_remap(&indices, 4);
    assert_eq!(remap, vec![1, u32::MAX, 0]);
    let all_used = vec![2u32, 0, 1, 1, 0, 2];
    let remap = optimize_vertex_fetch_remap(&all_used, 3);
    assert_eq!(remap, vec![1, 2, 0]);
    assert_eq!(remap_indices(&all_used, &remap), Some(vec![0, 1, 2, 2, 1, 0]));
}

#[test]
fn remapping_refuses_an_index_past_the_table() {
    assert_eq!(remap_indices(&[0, 1, 2], &[5, 6, 7]), Some(vec![5, 6, 7]));
    assert_eq!(remap_indices(&[0, 3, 1], &[5, 6, 7]), None);
    assert_eq!(remap_indices(&[], &[]), Some(vec![]));
    assert_eq!(remap_indices(&[0, 1], &[5, u32::MAX]), None);
}

#[test]
fn remapped_vertices_go_to_their_places() {
    let vertices: Vec<[u32; 2]> = vec![[10, 0], [11, 1], [12, 2]];
    assert_eq!(remap_vertices(&vertices, &[1, 2, 0]), Some(vec![[12, 2], [10, 0], [11, 1]]));
    assert_eq!(remap_vertices(&vertices, &[1, 2]), None);
    assert_eq!(remap_vertices(&vertices, &[1, 3, 0]), None);
    let kept = remap_vertices(&vertices, &[0, u32::MAX, 1]).unwrap();
    assert_eq!(kept.len(), 3);
    assert_eq!((kept[0], kept[1]), ([10, 0], [12, 2]));
}

#[test]
fn first_use_renumbering_keeps_the_drawn_triangles() {
    let vertices: Vec<[u32; 2]> = vec![[10, 0], [11, 1], [12, 2], [13, 3]];
    let indices = vec![2u32, 3, 0, 0, 3, 1];
    let remap = optimize_vertex_fetch_remap(&indices, vertices.len());
    let new_indices = remap_indices(&indices, &remap).unwrap();
    let new_vertices = remap_vertices(&vertices, &remap).unwrap();
    assert_eq!(new_indices, vec![0, 1, 2, 2, 1, 3]);
    for i in 0..indices.len() {
        assert_eq!(new_vertices[new_indices[i] as usize], vertices[indices[i] as usize]);
    }
}

fn drawn(indices: &[u32], vertices: &[[u32; 2]]) -> Vec<[[u32; 2]; 3]> {
    let mut t: Vec<[[u32; 2]; 3]> = indices
        .chunks(3)
        .map(|c| [vertices[c[0] as usize], vertices[c[1] as usize], vertices[c[2] as usize]])
        .collect();
    t.sort();
    t
}

#[test]
fn a_prepared_mesh_draws_the_same_triangles() {
    let vertices: Vec<[u32; 2]> = vec![[10, 0], [11, 1], [12, 2], [13, 3], [14, 4]];
    let indices = vec![4u32, 2, 0, 3, 4, 1, 0, 2, 1];
    let prepared = prepare_mesh(&indices, &vertices).unwrap();
    assert_eq!(prepared.remapped_vertices, vec![[14, 4], [12, 2], [10, 0], [13, 3], [11, 1]]);
    assert_eq!(prepared.indices.len(), indices.len());
    assert_eq!(prepared.vertices.len(), vertices.len());
    assert_eq!(prepared.indices[0], 0);
    assert_eq!(drawn(&prepared.indices, &prepared.vertices), drawn(&indices, &vertices));
}

#[test]
fn a_mesh_with_an_unused_vertex_is_not_prepared() {
    let vertices: Vec<[u32; 2]> = vec![[10, 0], [11, 1], [12, 2], [13, 3]];
    assert!(prepare_mesh(&vec![0u32, 1, 2], &vertices).is_none());
    assert!(prepare_mesh(&vec![0u32, 1, 4, 3, 2, 1], &vertices).is_none());
    assert!(prepare_mesh(&vec![0u32, 1, 2, 3], &vertices).is_none());
    assert!(prepare_mesh(&vec![0u32, 1, 2, 3, 2, 1], &vertices).is_some());
}
