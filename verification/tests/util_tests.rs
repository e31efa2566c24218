use wadconv::polygon::Mesh;
use wadconv::texture::{Texture, TextureTyp};
use wadconv::util::{array_to_string, triangulate, write_texture_to_png};

#[test]
fn array_to_string_stops_at_the_first_zero() {
    assert_eq!(array_to_string(b"WALL\0\0\0\0"), "WALL");
    assert_eq!(array_to_string(b"AB\0CD\0\0\0"), "AB");
}

#[test]
fn array_to_string_takes_a_full_field() {
    assert_eq!(array_to_string(b"STARTAN3"), "STARTAN3");
    assert_eq!(array_to_string(b"\0\0\0\0\0\0\0\0"), "");
}

#[test]
fn triangulate_clockwise_fan() {
    let square = [0u8; 4];
    assert_eq!(triangulate(&square, true), vec![0, 1, 2, 0, 2, 3]);
}

#[test]
fn triangulate_counter_clockwise_fan() {
    let square = [0u8; 4];
    assert_eq!(triangulate(&square, false), vec![0, 2, 1, 0, 3, 2]);
}

#[test]
fn triangulate_pentagon_indices_stay_in_range() {
    let pentagon = [(0i32, 0i32); 5];
    let indices = triangulate(&pentagon, true);
    assert_eq!(indices.len(), 9);
    assert!(indices.iter().all(|&i| (i as usize) < pentagon.len()));
}

#[test]
fn triangulate_needs_three_points() {
    assert!(triangulate(&[1u8, 2], true).is_empty());
    assert!(triangulate::<u8>(&[], false).is_empty());
}

#[test]
fn mesh_add_vertices_offsets_the_indices() {
    let mut mesh: Mesh<u8> = Mesh::new();
    mesh.add_vertices(&[10, 11, 12], true);
    assert_eq!(mesh.vertex_buffer, vec![10, 11, 12]);
    assert_eq!(mesh.index_buffer, vec![0, 1, 2]);
    mesh.add_vertices(&[20, 21, 22, 23], false);
    assert_eq!(mesh.vertex_buffer, vec![10, 11, 12, 20, 21, 22, 23]);
    assert_eq!(mesh.index_buffer, vec![0, 1, 2, 3, 5, 4, 3, 6, 5]);
    assert!(mesh.texture_id.is_none());
}

#[test]
fn write_texture_to_png_gives_a_png_file() {
    let texture = Texture::new(TextureTyp::Flat, 2, 1, vec![255, 0, 0, 255, 0, 255, 0, 128]);
    let bytes = write_texture_to_png(&texture).unwrap();
    assert_eq!(&bytes[0..8], &[137, 80, 78, 71, 13, 10, 26, 10]);
    // The IHDR chunk holds the width and the height, big-endian.
    assert_eq!(&bytes[12..16], b"IHDR");
    assert_eq!(&bytes[16..20], &2u32.to_be_bytes());
    assert_eq!(&bytes[20..24], &1u32.to_be_bytes());
    assert_eq!(bytes[24], 8);
    assert_eq!(bytes[25], 6);
}

#[test]
fn write_texture_to_png_refuses_an_empty_texture() {
    let texture = Texture::new(TextureTyp::Texture, 0, 4, vec![]);
    assert!(write_texture_to_png(&texture).is_none());
}

#[test]
fn write_texture_to_png_refuses_short_pixels() {
    let texture = Texture::new(TextureTyp::Texture, 2, 2, vec![0; 12]);
    assert!(write_texture_to_png(&texture).is_none());
}
