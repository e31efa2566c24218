use wadconv::gltf::{
    glb_container, Gltf, MeshPart, GltfTextureInfo, F32_ONE_BITS, F32_ZERO_BITS, GL_FLOAT, GL_UNSIGNED_INT, NEAREST, REPEAT,
};
use wadconv::mime::{MimeMap, Vertex as MimeVertex};

fn u32_at(bytes: &[u8], at: usize) -> u32 {
    u32::from_le_bytes(bytes[at..at + 4].try_into().unwrap())
}

fn u64_at(bytes: &[u8], at: usize) -> u64 {
    u64::from_le_bytes(bytes[at..at + 8].try_into().unwrap())
}

#[test]
fn gltf_new_is_empty() {
    let g = Gltf::new();
    assert!(g.data_buffer.is_empty());
    assert!(g.buffer_views.is_empty());
    assert!(g.meshes.is_empty());
    assert!(g.scenes.is_empty());
}

#[test]
fn create_functions_give_consecutive_ids() {
    let mut g = Gltf::new();
    assert_eq!(g.create_sampler("s0".to_string()), 0);
    assert_eq!(g.create_sampler("s1".to_string()), 1);
    let s = &g.samplers[1];
    assert_eq!((s.mag_filter, s.min_filter, s.wrap_s, s.wrap_t), (NEAREST, NEAREST, REPEAT, REPEAT));
    assert_eq!(g.create_texture("t0".to_string(), 1, 0), 0);
    assert_eq!((g.textures[0].sampler, g.textures[0].source), (1, 0));
    assert_eq!(g.create_mesh("m0".to_string()), 0);
    assert_eq!(g.create_mesh("m1".to_string()), 1);
    assert_eq!(g.create_node("n0".to_string(), 1), 0);
    assert_eq!(g.nodes[0].mesh, 1);
    assert_eq!(g.create_scene("scene".to_string()), 0);
    g.add_node_to_scene(0, 0);
    assert_eq!(g.scenes[0].nodes, vec![0]);
}

#[test]
fn create_image_appends_png_bytes_with_a_view() {
    let mut g = Gltf::new();
    assert_eq!(g.create_image("a".to_string(), &[1, 2, 3]), 0);
    assert_eq!(g.create_image("b".to_string(), &[4, 5]), 1);
    assert_eq!(g.data_buffer, vec![1, 2, 3, 4, 5]);
    assert_eq!(g.images[1].buffer_view, 1);
    assert_eq!(g.images[1].mime_type, "image/png");
    let view = g.buffer_views[1];
    assert_eq!((view.buffer, view.byte_offset, view.byte_length), (0, 3, 2));
}

#[test]
fn create_material_is_rough_and_not_metallic() {
    let mut g = Gltf::new();
    let color = [F32_ONE_BITS, F32_ZERO_BITS, F32_ONE_BITS, F32_ONE_BITS];
    assert_eq!(g.create_material("plain".to_string(), color, None), 0);
    assert_eq!(g.create_material("textured".to_string(), color, Some(GltfTextureInfo::new(3))), 1);
    let m = &g.materials[1];
    assert!(!m.double_sided);
    assert_eq!(m.pbr_metallic_roughness.base_color_factor, color);
    assert_eq!(m.pbr_metallic_roughness.metallic_factor, 0.0f32.to_bits());
    assert_eq!(m.pbr_metallic_roughness.roughness_factor, 1.0f32.to_bits());
    let info = m.pbr_metallic_roughness.base_color_texture.unwrap();
    assert_eq!((info.index, info.tex_coord), (3, 0));
    assert!(g.materials[0].pbr_metallic_roughness.base_color_texture.is_none());
}

#[test]
fn add_mesh_primitive_lays_out_buffers_and_accessors() {
    let mut g = Gltf::new();
    g.create_image("img".to_string(), &[9, 9]);
    let mesh = g.create_mesh("m".to_string());
    let positions = [1u8; 36];
    let normals = [2u8; 36];
    let uvs = [3u8; 24];
    let colors = [4u8; 48];
    g.add_mesh_primitive(mesh, 3, &positions, &normals, &uvs, &colors, &[0, 1, 258], 7);

    assert_eq!(g.data_buffer.len(), 2 + 36 + 36 + 24 + 48 + 12);
    assert_eq!(&g.data_buffer[146..158], &[0, 0, 0, 0, 1, 0, 0, 0, 2, 1, 0, 0]);
    let offsets: Vec<(usize, usize)> = g.buffer_views.iter().map(|v| (v.byte_offset, v.byte_length)).collect();
    assert_eq!(offsets, vec![(0, 2), (2, 36), (38, 36), (74, 24), (98, 48), (146, 12)]);

    let kinds: Vec<(usize, usize, usize, &str)> =
        g.accessors.iter().map(|a| (a.buffer_view, a.component_type, a.count, a.typ.as_str())).collect();
    assert_eq!(
        kinds,
        vec![
            (1, GL_FLOAT, 3, "VEC3"),
            (2, GL_FLOAT, 3, "VEC3"),
            (3, GL_FLOAT, 3, "VEC2"),
            (4, GL_FLOAT, 3, "VEC4"),
            (5, GL_UNSIGNED_INT, 3, "SCALAR"),
        ]
    );

    let p = g.meshes[0].primitives[0];
    assert_eq!(p.mode, 4);
    assert_eq!((p.attributes.position, p.attributes.normal, p.attributes.texcoord_0, p.attributes.color_0), (0, 1, 2, 3));
    assert_eq!((p.indices, p.material), (4, 7));
}

#[test]
fn glb_container_frames_json_and_binary() {
    let json = b"{\"a\":1}";
    let bin = [1u8, 2, 3, 4];
    let glb = glb_container(json, &bin);
    assert_eq!(glb.len(), 12 + 8 + 8 + 8 + 4);
    assert_eq!(u32_at(&glb, 0), 0x4654_6c67);
    assert_eq!(&glb[0..4], b"glTF");
    assert_eq!(u32_at(&glb, 4), 2);
    assert_eq!(u32_at(&glb, 8), glb.len() as u32);
    assert_eq!(u32_at(&glb, 12), 8);
    assert_eq!(&glb[16..20], b"JSON");
    assert_eq!(&glb[20..28], b"{\"a\":1} ");
    assert_eq!(u32_at(&glb, 28), 4);
    assert_eq!(&glb[32..36], b"BIN\0");
    assert_eq!(&glb[36..40], &bin);
}

#[test]
fn glb_container_pads_aligned_json_by_four() {
    let glb = glb_container(b"{}{}", &[]);
    assert_eq!(u32_at(&glb, 12), 8);
    assert_eq!(&glb[20..28], b"{}{}    ");
    assert_eq!(u32_at(&glb, 28), 0);
    assert_eq!(glb.len(), 36);
}

#[test]
fn mime_to_bytes_writes_header_and_buffers() {
    let color = [1.0f32.to_bits(), 0.5f32.to_bits(), 0.0f32.to_bits(), 1.0f32.to_bits()];
    let vertices = vec![MimeVertex::new(2.0f32.to_bits(), 3.0f32.to_bits(), color)];
    let map = MimeMap::new(vertices, vec![0, 0, 0]);
    let bytes = map.to_bytes();
    assert_eq!(&bytes[0..4], b"MIME");
    assert_eq!(u32_at(&bytes, 4), 1);
    assert_eq!(u64_at(&bytes, 8), 40);
    assert_eq!(u64_at(&bytes, 16), 1);
    assert_eq!(u64_at(&bytes, 24), 64);
    assert_eq!(u64_at(&bytes, 32), 3);
    assert_eq!(f32::from_le_bytes(bytes[40..44].try_into().unwrap()), 2.0);
    assert_eq!(f32::from_le_bytes(bytes[44..48].try_into().unwrap()), 3.0);
    assert_eq!(f32::from_le_bytes(bytes[52..56].try_into().unwrap()), 0.5);
    assert_eq!(bytes.len(), 64 + 12);
}

fn part(vertex_count: usize, fill: u8, indices: Vec<u32>, material: usize) -> MeshPart {
    MeshPart {
        vertex_count,
        positions: vec![fill; 12 * vertex_count],
        normals: vec![fill; 12 * vertex_count],
        uvs: vec![fill; 8 * vertex_count],
        colors: vec![fill; 16 * vertex_count],
        indices,
        material,
    }
}

#[test]
fn add_mesh_adds_primitives_node_and_scene_entry() {
    let mut g = Gltf::new();
    let scene = g.create_scene("scene".to_string());
    g.create_mesh("earlier".to_string());
    let parts = [part(3, 1, vec![0, 1, 2], 5), part(1, 2, vec![], 6)];
    let (mesh, node) = g.add_mesh(scene, "m".to_string(), "n".to_string(), &parts);
    assert_eq!((mesh, node), (1, 0));
    assert_eq!(g.meshes[1].name, "m");
    let prims = &g.meshes[1].primitives;
    assert_eq!(prims.len(), 2);
    assert_eq!((prims[0].material, prims[1].material), (5, 6));
    assert_eq!((prims[1].attributes.position, prims[1].indices), (5, 9));
    assert_eq!(g.nodes[0].name, "n");
    assert_eq!(g.nodes[0].mesh, 1);
    assert_eq!(g.scenes[0].nodes, vec![0]);
    assert_eq!(g.buffer_views.len(), 10);
    assert_eq!(g.data_buffer.len(), 48 * 3 + 12 + 48);
    assert!(g.meshes[0].primitives.is_empty());
}
