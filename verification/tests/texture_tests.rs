use wadconv::texture::{
    can_read_color_maps, can_read_named_lump, read_all_color_maps, read_all_palettes, read_flat_texture, read_patch_texture, Texture, TextureLoader,
    TextureQueue, TextureTyp,
};
use wadconv::wad::Wad;

fn build_wad(lumps: &[(&str, Vec<u8>)]) -> Vec<u8> {
    let mut data = Vec::new();
    data.extend_from_slice(b"IWAD");
    data.extend_from_slice(&(lumps.len() as i32).to_le_bytes());
    data.extend_from_slice(&0i32.to_le_bytes());
    let mut entries = Vec::new();
    for (name, bytes) in lumps {
        entries.push((data.len() as i32, bytes.len() as i32, name.to_string()));
        data.extend_from_slice(bytes);
    }
    let dir_start = data.len() as i32;
    data[8..12].copy_from_slice(&dir_start.to_le_bytes());
    for (offset, size, name) in entries {
        data.extend_from_slice(&offset.to_le_bytes());
        data.extend_from_slice(&size.to_le_bytes());
        let mut field = [0u8; 8];
        field[..name.len()].copy_from_slice(name.as_bytes());
        data.extend_from_slice(&field);
    }
    data
}

/// Colour `i` of the palette.
fn color(i: u8) -> [u8; 3] {
    [i, 255 - i, i / 2]
}

fn playpal(count: usize) -> Vec<u8> {
    let mut v = Vec::new();
    for _ in 0..count {
        for i in 0..=255u8 {
            v.extend_from_slice(&color(i));
        }
    }
    v
}

/// 34 colour maps; map 0 sends index `i` to `255 - i`.
fn colormap() -> Vec<u8> {
    let mut v = Vec::new();
    for m in 0..34usize {
        for i in 0..256usize {
            v.push(if m == 0 { (255 - i) as u8 } else { i as u8 });
        }
    }
    v
}

/// A 2 by 2 patch: column 0 holds indices 10, 11; column 1 holds index 12.
fn patch() -> Vec<u8> {
    let mut v = Vec::new();
    v.extend_from_slice(&2u16.to_le_bytes());
    v.extend_from_slice(&2u16.to_le_bytes());
    v.extend_from_slice(&0i16.to_le_bytes());
    v.extend_from_slice(&0i16.to_le_bytes());
    v.extend_from_slice(&16u32.to_le_bytes());
    v.extend_from_slice(&23u32.to_le_bytes());
    v.extend_from_slice(&[0, 2, 10, 11, 0, 0, 0xff]);
    v.extend_from_slice(&[0, 1, 12, 0, 0, 0xff]);
    v
}

fn flat() -> Vec<u8> {
    (0..4096usize).map(|i| (i % 256) as u8).collect()
}

fn pnames() -> Vec<u8> {
    let mut v = 1u32.to_le_bytes().to_vec();
    v.extend_from_slice(b"patch1\0\0");
    v
}

/// TEXTURE1 with one 4 by 2 texture WALL1 made of PNAMES entry 0 at (1, 0).
fn texture1() -> Vec<u8> {
    let mut v = 1u32.to_le_bytes().to_vec();
    v.extend_from_slice(&8u32.to_le_bytes());
    v.extend_from_slice(b"WALL1\0\0\0");
    v.extend_from_slice(&0u32.to_le_bytes());
    v.extend_from_slice(&4u16.to_le_bytes());
    v.extend_from_slice(&2u16.to_le_bytes());
    v.extend_from_slice(&0u32.to_le_bytes());
    v.extend_from_slice(&1u16.to_le_bytes());
    v.extend_from_slice(&1i16.to_le_bytes());
    v.extend_from_slice(&0i16.to_le_bytes());
    v.extend_from_slice(&0u16.to_le_bytes());
    v.extend_from_slice(&0u16.to_le_bytes());
    v.extend_from_slice(&0u16.to_le_bytes());
    v
}

fn graphics_wad() -> Vec<u8> {
    build_wad(&[
        ("PLAYPAL", playpal(2)),
        ("COLORMAP", colormap()),
        ("P_START", vec![]),
        ("P1_START", vec![]),
        ("PATCH1", patch()),
        ("P1_END", vec![]),
        ("P_END", vec![]),
        ("F_START", vec![]),
        ("FLAT1", flat()),
        ("F_END", vec![]),
        ("PNAMES", pnames()),
        ("TEXTURE1", texture1()),
    ])
}

/// The RGBA bytes palette index `i` gives through colour map 0.
fn rgba(i: u8) -> [u8; 4] {
    let c = color(255 - i);
    [c[0], c[1], c[2], 0xff]
}

#[test]
fn read_all_palettes_reads_every_palette() {
    let data = graphics_wad();
    let wad = Wad::parse(&data).unwrap();
    let palettes = read_all_palettes(&wad).unwrap();
    assert_eq!(palettes.len(), 2);
    let c = palettes[1].get(200);
    assert_eq!((c.r, c.g, c.b), (200, 55, 100));
}

#[test]
fn read_all_palettes_without_playpal() {
    let data = build_wad(&[("OTHER", vec![])]);
    let wad = Wad::parse(&data).unwrap();
    assert!(read_all_palettes(&wad).is_none());
    assert!(read_all_color_maps(&wad).is_none());
}

#[test]
fn read_all_color_maps_reads_34_maps() {
    let data = graphics_wad();
    let wad = Wad::parse(&data).unwrap();
    let maps = read_all_color_maps(&wad).unwrap();
    assert_eq!(maps.len(), 34);
    assert_eq!(maps[0].get(3), 252);
    assert_eq!(maps[5].get(3), 3);
    let palettes = read_all_palettes(&wad).unwrap();
    let c = maps[0].get_color_from_palette(&palettes[0], 3);
    assert_eq!((c.r, c.g, c.b), (252, 3, 126));
}

#[test]
fn read_flat_texture_maps_every_index() {
    let data = graphics_wad();
    let wad = Wad::parse(&data).unwrap();
    let palettes = read_all_palettes(&wad).unwrap();
    let maps = read_all_color_maps(&wad).unwrap();
    let t = read_flat_texture(&wad, "FLAT1", &maps[0], &palettes[0]).unwrap();
    assert_eq!(t.typ(), TextureTyp::Flat);
    assert_eq!((t.width(), t.height()), (64, 64));
    assert_eq!(t.pixels().len(), 64 * 64 * 4);
    let p = 64 + 5;
    assert_eq!(&t.pixels()[4 * p..4 * p + 4], &rgba((p % 256) as u8));
    assert!(read_flat_texture(&wad, "NOFLAT", &maps[0], &palettes[0]).is_none());
}

#[test]
fn read_patch_texture_fills_posts_top_down() {
    let data = graphics_wad();
    let wad = Wad::parse(&data).unwrap();
    let palettes = read_all_palettes(&wad).unwrap();
    let maps = read_all_color_maps(&wad).unwrap();
    let t = read_patch_texture(&wad, "PATCH1", &maps[0], &palettes[0]).unwrap();
    assert_eq!(t.typ(), TextureTyp::Patch);
    assert_eq!((t.width(), t.height()), (2, 2));
    let px = t.pixels();
    assert_eq!(&px[0..4], &rgba(10));
    assert_eq!(&px[4..8], &rgba(12));
    assert_eq!(&px[8..12], &rgba(11));
    assert_eq!(&px[12..16], &[0, 0, 0, 0]);
}

#[test]
fn texture_new_keeps_its_parts() {
    let t = Texture::new(TextureTyp::Texture, 1, 1, vec![1, 2, 3, 4]);
    assert_eq!(t.typ(), TextureTyp::Texture);
    assert_eq!((t.width(), t.height()), (1, 1));
    assert_eq!(t.pixels(), &[1, 2, 3, 4]);
    assert!(t.composition().is_none());
}

#[test]
fn texture_loader_collects_patches_flats_and_textures() {
    let data = graphics_wad();
    let wad = Wad::parse(&data).unwrap();
    let palettes = read_all_palettes(&wad).unwrap();
    let maps = read_all_color_maps(&wad).unwrap();
    let loader = TextureLoader::new(&wad, maps[0].clone(), palettes[0].clone()).unwrap();
    let names: Vec<String> = (0..4).map(|i| loader.get_name_from_id(i).unwrap().clone()).collect();
    assert_eq!(names, vec!["MISSING_TEXTURE", "PATCH1", "FLAT1", "WALL1"]);
    assert!(loader.get_name_from_id(4).is_none());
    assert!(loader.load_from_id(4).is_none());

    let (id, missing) = loader.missing_texture();
    assert_eq!(id, 0);
    assert_eq!(missing.pixels(), &[0, 0, 0, 255, 255, 0, 255, 255, 255, 0, 255, 255, 0, 0, 0, 255]);

    let (id, wall) = loader.load_from_name("WALL1").unwrap();
    assert_eq!(id, 3);
    assert_eq!((wall.width(), wall.height()), (4, 2));
    let px = wall.pixels();
    assert_eq!(&px[0..4], &[0, 0, 0, 0]);
    assert_eq!(&px[4..8], &rgba(10));
    assert_eq!(&px[8..12], &rgba(12));
    assert_eq!(&px[12..16], &[0, 0, 0, 0]);
    assert_eq!(&px[20..24], &rgba(11));
    assert_eq!(&px[24..28], &[0, 0, 0, 0]);
    let comp = wall.composition().unwrap();
    assert_eq!(comp.patches().len(), 1);
    assert_eq!(comp.patches()[0].name(), "PATCH1");
    assert_eq!((comp.patches()[0].origin_x(), comp.patches()[0].origin_y()), (1, 0));
    assert!(loader.load_from_name("NOPE").is_none());
}

#[test]
fn texture_queue_keeps_each_id_once() {
    let mut q = TextureQueue::new();
    q.enqueue(3);
    q.enqueue(1);
    q.enqueue(3);
    assert_eq!(q.ids(), &[3, 1]);
}

#[test]
fn can_create_accepts_the_graphics_wad() {
    let data = graphics_wad();
    let wad = Wad::parse(&data).unwrap();
    assert!(can_read_named_lump(&wad, "PLAYPAL"));
    assert!(can_read_color_maps(&wad));
    let palettes = read_all_palettes(&wad).unwrap();
    let maps = read_all_color_maps(&wad).unwrap();
    assert!(TextureLoader::can_create(&wad, &maps[0], &palettes[0]));
}

#[test]
fn can_create_refuses_missing_markers() {
    let data = build_wad(&[
        ("PLAYPAL", playpal(1)),
        ("COLORMAP", colormap()),
        ("P_START", vec![]),
        ("PATCH1", patch()),
        ("P_END", vec![]),
        ("FLAT1", flat()),
        ("PNAMES", pnames()),
    ]);
    let wad = Wad::parse(&data).unwrap();
    let palettes = read_all_palettes(&wad).unwrap();
    let maps = read_all_color_maps(&wad).unwrap();
    assert!(!TextureLoader::can_create(&wad, &maps[0], &palettes[0]));
}

#[test]
fn can_create_refuses_a_short_flat() {
    let data = build_wad(&[
        ("PLAYPAL", playpal(1)),
        ("COLORMAP", colormap()),
        ("P_START", vec![]),
        ("PATCH1", patch()),
        ("P_END", vec![]),
        ("F_START", vec![]),
        ("FLAT1", vec![0; 100]),
        ("F_END", vec![]),
        ("PNAMES", pnames()),
    ]);
    let wad = Wad::parse(&data).unwrap();
    let palettes = read_all_palettes(&wad).unwrap();
    let maps = read_all_color_maps(&wad).unwrap();
    assert!(!TextureLoader::can_create(&wad, &maps[0], &palettes[0]));
}

#[test]
fn can_create_refuses_a_texture_of_an_unknown_patch() {
    let mut unknown = 1u32.to_le_bytes().to_vec();
    unknown.extend_from_slice(b"NOPATCH\0");
    let data = build_wad(&[
        ("PLAYPAL", playpal(1)),
        ("COLORMAP", colormap()),
        ("P_START", vec![]),
        ("PATCH1", patch()),
        ("P_END", vec![]),
        ("F_START", vec![]),
        ("FLAT1", flat()),
        ("F_END", vec![]),
        ("PNAMES", unknown),
        ("TEXTURE1", texture1()),
    ]);
    let wad = Wad::parse(&data).unwrap();
    let palettes = read_all_palettes(&wad).unwrap();
    let maps = read_all_color_maps(&wad).unwrap();
    assert!(!TextureLoader::can_create(&wad, &maps[0], &palettes[0]));
}

#[test]
fn can_read_color_maps_refuses_a_short_colormap() {
    let data = build_wad(&[("COLORMAP", vec![0; 256])]);
    let wad = Wad::parse(&data).unwrap();
    assert!(!can_read_color_maps(&wad));
    assert!(can_read_named_lump(&wad, "PLAYPAL"));
}

/// TEXTURE1 with two definitions named WALL1: 4 by 2, then 8 by 8.
fn texture1_twice() -> Vec<u8> {
    let def = |width: u16, height: u16| {
        let mut v = b"WALL1\0\0\0".to_vec();
        v.extend_from_slice(&0u32.to_le_bytes());
        v.extend_from_slice(&width.to_le_bytes());
        v.extend_from_slice(&height.to_le_bytes());
        v.extend_from_slice(&0u32.to_le_bytes());
        v.extend_from_slice(&1u16.to_le_bytes());
        v.extend_from_slice(&0i16.to_le_bytes());
        v.extend_from_slice(&0i16.to_le_bytes());
        v.extend_from_slice(&0u16.to_le_bytes());
        v.extend_from_slice(&0u16.to_le_bytes());
        v.extend_from_slice(&0u16.to_le_bytes());
        v
    };
    let first = def(4, 2);
    let second = def(8, 8);
    let mut v = 2u32.to_le_bytes().to_vec();
    v.extend_from_slice(&12u32.to_le_bytes());
    v.extend_from_slice(&((12 + first.len()) as u32).to_le_bytes());
    v.extend_from_slice(&first);
    v.extend_from_slice(&second);
    v
}

#[test]
fn texture_loader_keeps_the_last_definition_of_a_name() {
    let data = build_wad(&[
        ("PLAYPAL", playpal(1)),
        ("COLORMAP", colormap()),
        ("P_START", vec![]),
        ("PATCH1", patch()),
        ("P_END", vec![]),
        ("F_START", vec![]),
        ("FLAT1", flat()),
        ("F_END", vec![]),
        ("PNAMES", pnames()),
        ("TEXTURE1", texture1_twice()),
    ]);
    let wad = Wad::parse(&data).unwrap();
    let palettes = read_all_palettes(&wad).unwrap();
    let maps = read_all_color_maps(&wad).unwrap();
    assert!(TextureLoader::can_create(&wad, &maps[0], &palettes[0]));
    let loader = TextureLoader::new(&wad, maps[0].clone(), palettes[0].clone()).unwrap();
    assert!(loader.get_name_from_id(4).is_none());
    let (id, wall) = loader.load_from_name("WALL1").unwrap();
    assert_eq!(id, 3);
    // Definitions are collected by name, a later one replacing an earlier one.
    assert_eq!((wall.width(), wall.height()), (8, 8));
}
