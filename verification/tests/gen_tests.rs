use wadconv::gen::{group_walls_by_texture, map_fits, plan_flat, plan_map, plan_walls, Context, WallQuad};
use wadconv::export::{add_textures, encode_textures};
use wadconv::gltf::Gltf;
use wadconv::texture::{read_all_color_maps, read_all_palettes, TextureLoader, TextureQueue};
use wadconv::wad::{
    Line, Linedef, Sector, Segment, Sidedef, SubSector, Vertex, Wad, WadMap, LINEDEF_FLAG_IMPASSABLE,
    LINEDEF_FLAG_LOWER_TEXTURE_UNPEGGED, LINEDEF_FLAG_TWO_SIDED, LINEDEF_FLAG_UPPER_TEXTURE_UNPEGGED, VERT_IS_GL,
};

fn build_wad(lumps: &[(&str, Vec<u8>)]) -> Vec<u8> {
    let mut data = Vec::new();
    data.extend_from_slice(b"IWAD");
    data.extend_from_slice(&(lumps.len() as i32).to_le_bytes());
    data.extend_from_slice(&0i32.to_le_bytes());
    let mut entries = Vec::new();
    for (name, bytes) in lumps {
        entries.push((data.len() as i32, bytes.len() as i32, name.to_string()));
        data.extend_from_slice(bytes);
    }
    let dir_start = data.len() as i32;
    data[8..12].copy_from_slice(&dir_start.to_le_bytes());
    for (offset, size, name) in entries {
        data.extend_from_slice(&offset.to_le_bytes());
        data.extend_from_slice(&size.to_le_bytes());
        let mut field = [0u8; 8];
        field[..name.len()].copy_from_slice(name.as_bytes());
        data.extend_from_slice(&field);
    }
    data
}

fn playpal() -> Vec<u8> {
    let mut v = Vec::new();
    for i in 0..=255u8 {
        v.extend_from_slice(&[i, i, i]);
    }
    v
}

fn colormap() -> Vec<u8> {
    let mut v = Vec::new();
    for _ in 0..34 {
        for i in 0..=255u8 {
            v.push(i);
        }
    }
    v
}

/// A 1 by 1 patch of palette index 7.
fn patch() -> Vec<u8> {
    let mut v = Vec::new();
    v.extend_from_slice(&1u16.to_le_bytes());
    v.extend_from_slice(&1u16.to_le_bytes());
    v.extend_from_slice(&0i16.to_le_bytes());
    v.extend_from_slice(&0i16.to_le_bytes());
    v.extend_from_slice(&12u32.to_le_bytes());
    v.extend_from_slice(&[0, 1, 7, 7, 7, 0xff]);
    v
}

fn flat(index: u8) -> Vec<u8> {
    vec![index; 4096]
}

fn pnames() -> Vec<u8> {
    let mut v = 1u32.to_le_bytes().to_vec();
    v.extend_from_slice(b"PATCH1\0\0");
    v
}

fn no_textures() -> Vec<u8> {
    0u32.to_le_bytes().to_vec()
}

/// Texture ids: 0 the missing texture, 1 PATCH1, then the flats in order:
/// 2 FLOOR1, 3 CEIL1, 4 WALL, 5 LOWER, 6 UPPER.
fn loader() -> TextureLoader {
    let data = build_wad(&[
        ("PLAYPAL", playpal()),
        ("COLORMAP", colormap()),
        ("P_START", vec![]),
        ("PATCH1", patch()),
        ("P_END", vec![]),
        ("F_START", vec![]),
        ("FLOOR1", flat(1)),
        ("CEIL1", flat(2)),
        ("WALL", flat(3)),
        ("LOWER", flat(4)),
        ("UPPER", flat(5)),
        ("F_END", vec![]),
        ("PNAMES", pnames()),
        ("TEXTURE1", no_textures()),
    ]);
    let wad = Wad::parse(&data).unwrap();
    let palettes = read_all_palettes(&wad).unwrap();
    let maps = read_all_color_maps(&wad).unwrap();
    TextureLoader::new(&wad, maps[0].clone(), palettes[0].clone()).unwrap()
}

fn name8(name: &str) -> [u8; 8] {
    let mut field = [0u8; 8];
    field[..name.len()].copy_from_slice(name.as_bytes());
    field
}

fn v(x: i32, y: i32) -> Vertex {
    Vertex { x: x * 65536, y: y * 65536 }
}

fn sidedef(x: i16, y: i16, upper: &str, lower: &str, middle: &str, sector: usize) -> Sidedef {
    Sidedef {
        x_offset: x,
        y_offset: y,
        upper_texture_name: name8(upper),
        middle_texture_name: name8(middle),
        lower_texture_name: name8(lower),
        sector,
    }
}

fn segment(start_vertex: usize, end_vertex: usize, linedef: usize) -> Segment {
    Segment { start_vertex, end_vertex, linedef, side: 0, partner_segment: 0xffff }
}

/// Sector 0 (floor 0, ceiling 128) has one subsector of three segments: one
/// on a one-sided wall, one on a two-sided line into sector 1 (floor 16,
/// ceiling 96), and a segment on no linedef.
fn two_rooms(upper_name: &str) -> WadMap {
    let sub = SubSector { start: 0, count: 3 };
    WadMap {
        vertices: vec![v(0, 0), v(64, 0), v(64, 64), v(0, 64)],
        gl_vertices: vec![v(32, 32)],
        linedefs: vec![
            Linedef {
                line: Line { start_vertex: 0, end_vertex: 1 },
                flags: LINEDEF_FLAG_IMPASSABLE,
                front_sidedef: Some(0),
                back_sidedef: None,
            },
            Linedef {
                line: Line { start_vertex: 1, end_vertex: 2 },
                flags: LINEDEF_FLAG_TWO_SIDED | LINEDEF_FLAG_LOWER_TEXTURE_UNPEGGED,
                front_sidedef: Some(1),
                back_sidedef: Some(2),
            },
        ],
        sidedefs: vec![
            sidedef(3, 5, "-", "-", "WALL", 0),
            sidedef(0, 2, upper_name, "LOWER", "-", 0),
            sidedef(0, 0, "-", "-", "-", 1),
        ],
        sectors: vec![
            Sector {
                floor_height: 0,
                ceiling_height: 128,
                floor_texture_name: name8("FLOOR1"),
                ceiling_texture_name: name8("CEIL1"),
                lines: vec![],
                sub_sectors: vec![sub],
            },
            Sector {
                floor_height: 16,
                ceiling_height: 96,
                floor_texture_name: name8("FLOOR1"),
                ceiling_texture_name: name8("CEIL1"),
                lines: vec![],
                sub_sectors: vec![],
            },
        ],
        segments: vec![segment(0, 1, 0), segment(1, 2, 1), segment(VERT_IS_GL, 0, 0xffff)],
        sub_sectors: vec![sub],
    }
}

#[test]
fn queue_texture_finds_and_queues_once() {
    let mut context = Context::new(loader(), TextureQueue::new());
    assert_eq!(context.queue_texture(name8("WALL")), Some(4));
    assert_eq!(context.queue_texture(name8("FLOOR1")), Some(2));
    assert_eq!(context.queue_texture(name8("WALL")), Some(4));
    assert_eq!(context.queue_texture(name8("NOPE")), None);
    assert_eq!(context.texture_queue.ids(), &[4, 2]);
}

#[test]
fn get_texture_from_id_gives_the_loaded_texture() {
    let context = Context::new(loader(), TextureQueue::new());
    let wall = context.get_texture_from_id(4).unwrap();
    assert_eq!((wall.width(), wall.height()), (64, 64));
    assert_eq!(&wall.pixels()[0..4], &[3, 3, 3, 255]);
    assert!(context.get_texture_from_id(7).is_none());
}

#[test]
fn plan_flat_gives_floor_texture_and_outlines() {
    let map = two_rooms("UPPER");
    let mut context = Context::new(loader(), TextureQueue::new());
    let plan = plan_flat(&mut context, &map, &map.sectors[0], false);
    assert_eq!(plan.texture_id, 2);
    assert_eq!(plan.polygons, vec![vec![v(0, 0), v(64, 0), v(32, 32)]]);
    assert_eq!(context.texture_queue.ids(), &[2]);
}

#[test]
fn plan_flat_gives_ceiling_texture() {
    let map = two_rooms("UPPER");
    let mut context = Context::new(loader(), TextureQueue::new());
    let floor = plan_flat(&mut context, &map, &map.sectors[0], false);
    let ceiling = plan_flat(&mut context, &map, &map.sectors[0], true);
    assert_eq!(ceiling.texture_id, 3);
    assert_eq!(ceiling.polygons, floor.polygons);
    assert_eq!(context.texture_queue.ids(), &[2, 3]);
}

#[test]
fn plan_walls_middle_lower_upper_and_step() {
    let map = two_rooms("UPPER");
    let mut context = Context::new(loader(), TextureQueue::new());
    let (walls, slopes) = plan_walls(&mut context, &map, &map.sectors[0]);
    assert_eq!(walls.len(), 3);

    let middle = walls[0];
    assert_eq!(middle.texture_id, 4);
    assert_eq!((middle.start, middle.end), (v(0, 0), v(64, 0)));
    assert_eq!((middle.bottom, middle.top), (0, 128));
    assert_eq!((middle.x_offset, middle.y_offset), (3, 5));
    assert!(!middle.lower_peg);

    let lower = walls[1];
    assert_eq!(lower.texture_id, 5);
    assert_eq!((lower.start, lower.end), (v(64, 0), v(64, 64)));
    assert_eq!((lower.bottom, lower.top), (0, 16));
    // Lower unpegged: the y offset moves by the front ceiling above the back floor.
    assert_eq!((lower.x_offset, lower.y_offset), (0, 2 + 128 - 16));
    assert!(!lower.lower_peg);

    let upper = walls[2];
    assert_eq!(upper.texture_id, 6);
    assert_eq!((upper.bottom, upper.top), (96, 128));
    assert_eq!(upper.y_offset, 2);
    assert!(upper.lower_peg);

    assert_eq!(slopes.len(), 1);
    assert_eq!((slopes[0].start, slopes[0].end), (v(64, 0), v(64, 64)));
    assert_eq!((slopes[0].front, slopes[0].back, slopes[0].height), (0, 16, 16));

    assert_eq!(context.texture_queue.ids(), &[4, 5, 6]);
}

#[test]
fn plan_walls_unknown_texture_gives_missing_texture() {
    let map = two_rooms("NOPE");
    let mut context = Context::new(loader(), TextureQueue::new());
    let (walls, _) = plan_walls(&mut context, &map, &map.sectors[0]);
    assert_eq!(walls[2].texture_id, 0);
    assert_eq!(context.texture_queue.ids(), &[4, 5]);
}

#[test]
fn plan_walls_upper_unpegged_and_high_step() {
    let mut map = two_rooms("UPPER");
    map.linedefs[1].flags = LINEDEF_FLAG_TWO_SIDED | LINEDEF_FLAG_UPPER_TEXTURE_UNPEGGED;
    map.sectors[1].floor_height = 40;
    let mut context = Context::new(loader(), TextureQueue::new());
    let (walls, slopes) = plan_walls(&mut context, &map, &map.sectors[0]);
    assert_eq!(walls[1].y_offset, 2);
    assert_eq!((walls[1].bottom, walls[1].top), (0, 40));
    assert!(!walls[2].lower_peg);
    // A step higher than 24 units gets no step quad.
    assert!(slopes.is_empty());
}

#[test]
fn map_fits_accepts_the_rooms() {
    let map = two_rooms("UPPER");
    let context = Context::new(loader(), TextureQueue::new());
    assert!(map_fits(&context, &map));
}

#[test]
fn map_fits_refuses_an_unknown_floor_texture() {
    let mut map = two_rooms("UPPER");
    map.sectors[1].floor_texture_name = name8("NOPE");
    let context = Context::new(loader(), TextureQueue::new());
    assert!(!map_fits(&context, &map));
}

#[test]
fn map_fits_refuses_a_segment_past_the_table() {
    let mut map = two_rooms("UPPER");
    map.sectors[0].sub_sectors[0].count = 4;
    let context = Context::new(loader(), TextureQueue::new());
    assert!(!map_fits(&context, &map));
}

#[test]
fn map_fits_refuses_an_unknown_middle_texture() {
    let mut map = two_rooms("UPPER");
    map.sidedefs[0].middle_texture_name = name8("NOPE");
    let context = Context::new(loader(), TextureQueue::new());
    assert!(!map_fits(&context, &map));
}

#[test]
fn plan_map_plans_every_sector_in_order() {
    let map = two_rooms("UPPER");
    let mut context = Context::new(loader(), TextureQueue::new());
    let plans = plan_map(&mut context, &map);
    assert_eq!(plans.len(), 2);
    assert_eq!((plans[0].floor.texture_id, plans[0].ceiling.texture_id), (2, 3));
    assert_eq!(plans[0].walls.len(), 3);
    assert_eq!(plans[0].slopes.len(), 1);
    assert!(plans[1].walls.is_empty());
    assert!(plans[1].floor.polygons.is_empty());
    assert_eq!(context.texture_queue.ids(), &[2, 3, 4, 5, 6]);
}

fn wall(texture_id: usize) -> WallQuad {
    WallQuad {
        texture_id,
        start: v(0, 0),
        end: v(1, 0),
        bottom: 0,
        top: 8,
        x_offset: 0,
        y_offset: 0,
        lower_peg: false,
    }
}

#[test]
fn group_walls_by_texture_keeps_first_appearance_order() {
    let walls = [wall(7), wall(3), wall(7), wall(1), wall(3)];
    let groups = group_walls_by_texture(&walls);
    let got: Vec<(usize, Vec<usize>)> = groups.iter().map(|g| (g.texture_id, g.walls.clone())).collect();
    assert_eq!(got, vec![(7, vec![0, 2]), (3, vec![1, 4]), (1, vec![3])]);
    assert!(group_walls_by_texture(&[]).is_empty());
}

#[test]
fn encode_and_add_textures_in_queue_order() {
    let loader = loader();
    let pngs = encode_textures(&loader, &[4, 2]).unwrap();
    assert_eq!(pngs.len(), 2);
    assert_eq!((pngs[0].0.as_str(), pngs[1].0.as_str()), ("WALL", "FLOOR1"));
    assert_eq!(&pngs[0].1[0..8], &[137, 80, 78, 71, 13, 10, 26, 10]);
    assert_ne!(pngs[0].1, pngs[1].1);

    let mut gltf = Gltf::new();
    let sampler = gltf.create_sampler("s".to_string());
    gltf.create_image("first".to_string(), &[7, 7, 7]);
    let ids = add_textures(&mut gltf, &pngs, sampler);
    assert_eq!(ids, vec![0, 1]);
    assert_eq!(gltf.images.len(), 3);
    assert_eq!(gltf.images[2].name, "FLOOR1");
    assert_eq!(gltf.images[2].buffer_view, 2);
    assert_eq!(gltf.textures[1].name, "FLOOR1");
    assert_eq!((gltf.textures[1].sampler, gltf.textures[1].source), (sampler, 2));
    let second = gltf.buffer_views[2];
    assert_eq!(second.byte_offset, 3 + pngs[0].1.len());
    assert_eq!(second.byte_length, pngs[1].1.len());
    let mut expected = vec![7, 7, 7];
    expected.extend_from_slice(&pngs[0].1);
    expected.extend_from_slice(&pngs[1].1);
    assert_eq!(gltf.data_buffer, expected);
}
