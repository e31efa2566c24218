use wadconv::wad::{Error, Wad, WadMap, Vertex, VERT_IS_GL};

fn build_wad(lumps: &[(&str, Vec<u8>)]) -> Vec<u8> {
    let mut data = Vec::new();
    data.extend_from_slice(b"IWAD");
    data.extend_from_slice(&(lumps.len() as i32).to_le_bytes());
    data.extend_from_slice(&0i32.to_le_bytes());
    let mut entries = Vec::new();
    for (name, bytes) in lumps {
        entries.push((data.len() as i32, bytes.len() as i32, name.to_string()));
        data.extend_from_slice(bytes);
    }
    let dir_start = data.len() as i32;
    data[8..12].copy_from_slice(&dir_start.to_le_bytes());
    for (offset, size, name) in entries {
        data.extend_from_slice(&offset.to_le_bytes());
        data.extend_from_slice(&size.to_le_bytes());
        let mut field = [0u8; 8];
        field[..name.len()].copy_from_slice(name.as_bytes());
        data.extend_from_slice(&field);
    }
    data
}

fn i16s(values: &[i16]) -> Vec<u8> {
    values.iter().flat_map(|v| v.to_le_bytes()).collect()
}

fn u16s(values: &[u16]) -> Vec<u8> {
    values.iter().flat_map(|v| v.to_le_bytes()).collect()
}

fn name8(name: &str) -> Vec<u8> {
    let mut field = vec![0u8; 8];
    field[..name.len()].copy_from_slice(name.as_bytes());
    field
}

fn linedef(start: i16, end: i16, flags: i32, front: i16, back: i16) -> Vec<u8> {
    let mut v = i16s(&[start, end]);
    v.extend_from_slice(&flags.to_le_bytes());
    v.extend_from_slice(&i16s(&[0, front, back]));
    v
}

fn sidedef(x: i16, y: i16, upper: &str, lower: &str, middle: &str, sector: i16) -> Vec<u8> {
    let mut v = i16s(&[x, y]);
    v.extend(name8(upper));
    v.extend(name8(lower));
    v.extend(name8(middle));
    v.extend(i16s(&[sector]));
    v
}

fn sector(floor: i16, ceiling: i16, floor_name: &str, ceiling_name: &str) -> Vec<u8> {
    let mut v = i16s(&[floor, ceiling]);
    v.extend(name8(floor_name));
    v.extend(name8(ceiling_name));
    v.extend(i16s(&[160, 0, 0]));
    v
}

/// A square room: one sector, four one-sided walls, one subsector.
fn room_lumps(seg_side: u16, linedef0: Vec<u8>) -> Vec<(&'static str, Vec<u8>)> {
    let mut linedefs = linedef0;
    linedefs.extend(linedef(1, 2, 1, 1, -1));
    linedefs.extend(linedef(2, 3, 1, 2, -1));
    linedefs.extend(linedef(3, 0, 1, 3, -1));
    let mut sidedefs = Vec::new();
    for _ in 0..4 {
        sidedefs.extend(sidedef(0, 0, "-", "-", "WALL", 0));
    }
    let vertexes = i16s(&[0, 0, 64, 0, 64, 64, 0, 64]);
    let mut gl_vert = b"gNd2".to_vec();
    gl_vert.extend_from_slice(&(32 * 65536 + 32768i32).to_le_bytes());
    gl_vert.extend_from_slice(&(-16 * 65536i32).to_le_bytes());
    let segs = u16s(&[0, 1, 0, seg_side, 0xffff, 1, 2, 1, 0, 0xffff, 2, 3, 2, 0, 0xffff, 3, 0, 3, 0, 0xffff]);
    let ssect = u16s(&[4, 0]);
    vec![
        ("E1M1", vec![]),
        ("THINGS", vec![]),
        ("LINEDEFS", linedefs),
        ("SIDEDEFS", sidedefs),
        ("VERTEXES", vertexes),
        ("SEGS", vec![]),
        ("SSECTORS", vec![]),
        ("NODES", vec![]),
        ("SECTORS", sector(0, 128, "FLOOR1", "CEIL1")),
        ("REJECT", vec![]),
        ("BLOCKMAP", vec![]),
        ("GL_E1M1", vec![]),
        ("GL_VERT", gl_vert),
        ("GL_SEGS", segs),
        ("GL_SSECT", ssect),
    ]
}

#[test]
fn parse_reads_header() {
    let data = build_wad(&[("A", vec![1, 2, 3]), ("B", vec![4])]);
    let wad = Wad::parse(&data).unwrap();
    assert_eq!(wad.find_dir("B").unwrap(), 1);
}

#[test]
fn parse_refuses_unknown_magic() {
    let mut data = build_wad(&[]);
    data[0] = b'P';
    match Wad::parse(&data) {
        Err(Error::UnknownMagic(m)) => assert_eq!(&m, b"PWAD"),
        _ => panic!("expected UnknownMagic"),
    }
}

#[test]
fn parse_refuses_negative_directory_count() {
    let mut data = build_wad(&[]);
    data[4..8].copy_from_slice(&(-1i32).to_le_bytes());
    assert!(matches!(Wad::parse(&data), Err(Error::ConvertToUsizeFailed)));
}

#[test]
fn read_dir_entry_gives_offset_size_and_name() {
    let data = build_wad(&[("FIRST", vec![9, 9]), ("SECOND", vec![7, 7, 7])]);
    let wad = Wad::parse(&data).unwrap();
    let dir = wad.read_dir_entry(1).unwrap();
    assert_eq!(dir.data_offset, 14);
    assert_eq!(dir.data_size, 3);
    assert_eq!(&dir.name, b"SECOND\0\0");
    assert!(matches!(wad.read_dir_entry(2), Err(Error::IndexOutOfRange)));
}

#[test]
fn read_dir_entry_refuses_negative_offset() {
    let mut data = build_wad(&[("X", vec![1])]);
    let dir_start = i32::from_le_bytes(data[8..12].try_into().unwrap()) as usize;
    data[dir_start..dir_start + 4].copy_from_slice(&(-5i32).to_le_bytes());
    let wad = Wad::parse(&data).unwrap();
    assert!(matches!(wad.read_dir_entry(0), Err(Error::ConvertToUsizeFailed)));
}

#[test]
fn find_dir_finds_the_first_entry_of_a_name() {
    let data = build_wad(&[("A", vec![]), ("DUP", vec![1]), ("DUP", vec![2])]);
    let wad = Wad::parse(&data).unwrap();
    assert_eq!(wad.find_dir("DUP").unwrap(), 1);
    assert_eq!(wad.read_dir(2).unwrap(), &[2u8][..]);
    assert!(matches!(wad.find_dir("NONE"), Err(Error::NoDirFound)));
}

#[test]
fn find_dir_stops_at_a_name_that_is_not_utf8() {
    let mut data = build_wad(&[("AB", vec![]), ("C", vec![])]);
    let dir_start = i32::from_le_bytes(data[8..12].try_into().unwrap()) as usize;
    data[dir_start + 8] = 0xff;
    let wad = Wad::parse(&data).unwrap();
    assert!(matches!(wad.find_dir("C"), Err(Error::BytesToStrFailed)));
}

#[test]
fn read_dir_gives_lump_bytes() {
    let data = build_wad(&[("A", vec![5, 6, 7])]);
    let wad = Wad::parse(&data).unwrap();
    assert_eq!(wad.read_dir(0).unwrap(), &[5u8, 6, 7][..]);
    assert!(matches!(wad.read_dir(1), Err(Error::IndexOutOfRange)));
}

#[test]
fn parse_from_wad_reads_a_room() {
    let data = build_wad(&room_lumps(0, linedef(0, 1, 1, 0, -1)));
    let wad = Wad::parse(&data).unwrap();
    let map = WadMap::parse_from_wad(&wad, "E1M1").unwrap();
    assert_eq!(map.vertices.len(), 4);
    assert_eq!(map.vertices[2], Vertex { x: 64 * 65536, y: 64 * 65536 });
    assert_eq!(map.gl_vertices, vec![Vertex { x: 32 * 65536 + 32768, y: -16 * 65536 }]);
    assert_eq!(map.linedefs.len(), 4);
    assert_eq!(map.linedefs[1].line.start_vertex, 1);
    assert_eq!(map.linedefs[1].front_sidedef, Some(1));
    assert_eq!(map.linedefs[1].back_sidedef, None);
    assert_eq!(map.sidedefs.len(), 4);
    assert_eq!(&map.sidedefs[0].middle_texture_name, b"WALL\0\0\0\0");
    assert_eq!(map.sectors.len(), 1);
    assert_eq!(map.sectors[0].floor_height, 0);
    assert_eq!(map.sectors[0].ceiling_height, 128);
    assert_eq!(map.sectors[0].lines.len(), 4);
    assert_eq!(map.sectors[0].sub_sectors.len(), 1);
    assert_eq!(map.sectors[0].sub_sectors[0].count, 4);
    assert_eq!(map.segments.len(), 4);
    assert_eq!(map.segments[3].partner_segment, 0xffff);
}

#[test]
fn vertex_with_gl_bit_reads_gl_vertices() {
    let data = build_wad(&room_lumps(0, linedef(0, 1, 1, 0, -1)));
    let wad = Wad::parse(&data).unwrap();
    let map = WadMap::parse_from_wad(&wad, "E1M1").unwrap();
    assert_eq!(map.vertex(1), Vertex { x: 64 * 65536, y: 0 });
    assert_eq!(map.vertex(VERT_IS_GL), Vertex { x: 32 * 65536 + 32768, y: -16 * 65536 });
}

#[test]
fn parse_from_wad_refuses_negative_vertex_reference() {
    let data = build_wad(&room_lumps(0, linedef(-2, 1, 1, 0, -1)));
    let wad = Wad::parse(&data).unwrap();
    assert!(matches!(WadMap::parse_from_wad(&wad, "E1M1"), Err(Error::ConvertToUsizeFailed)));
}

#[test]
fn parse_from_wad_refuses_unknown_side() {
    let data = build_wad(&room_lumps(2, linedef(0, 1, 1, 0, -1)));
    let wad = Wad::parse(&data).unwrap();
    assert!(matches!(WadMap::parse_from_wad(&wad, "E1M1"), Err(Error::UnknownSide { side: 2 })));
}

#[test]
fn parse_from_wad_refuses_missing_back_side() {
    let data = build_wad(&room_lumps(1, linedef(0, 1, 1, 0, -1)));
    let wad = Wad::parse(&data).unwrap();
    assert!(matches!(WadMap::parse_from_wad(&wad, "E1M1"), Err(Error::BackSideMismatch { side: 1 })));
}

#[test]
fn parse_from_wad_refuses_missing_front_side() {
    let data = build_wad(&room_lumps(0, linedef(0, 1, 1, -1, 0)));
    let wad = Wad::parse(&data).unwrap();
    assert!(matches!(WadMap::parse_from_wad(&wad, "E1M1"), Err(Error::FrontSideMismatch { side: 0 })));
}

#[test]
fn parse_from_wad_without_the_map() {
    let data = build_wad(&room_lumps(0, linedef(0, 1, 1, 0, -1)));
    let wad = Wad::parse(&data).unwrap();
    assert!(matches!(WadMap::parse_from_wad(&wad, "E1M2"), Err(Error::NoDirFound)));
}

#[test]
fn can_parse_accepts_a_room() {
    let data = build_wad(&room_lumps(0, linedef(0, 1, 1, 0, -1)));
    let wad = Wad::parse(&data).unwrap();
    assert!(WadMap::can_parse(&wad, "E1M1"));
    // A map that is not there is refused by `parse_from_wad` itself, without a bad read.
    assert!(WadMap::can_parse(&wad, "E1M2"));
}

#[test]
fn can_parse_refuses_a_lump_past_the_end() {
    let mut data = build_wad(&room_lumps(0, linedef(0, 1, 1, 0, -1)));
    let dir_start = i32::from_le_bytes(data[8..12].try_into().unwrap()) as usize;
    // Entry 4 is VERTEXES: make its size reach past the end of the file.
    let size_at = dir_start + 16 * 4 + 4;
    data[size_at..size_at + 4].copy_from_slice(&100_000i32.to_le_bytes());
    let wad = Wad::parse(&data).unwrap();
    assert!(!wad.can_read_lump(4));
    assert!(wad.can_read_lump(3));
    assert!(!WadMap::can_parse(&wad, "E1M1"));
}

#[test]
fn can_parse_refuses_a_sidedef_past_the_table() {
    let data = build_wad(&room_lumps(0, linedef(0, 1, 1, 9, -1)));
    let wad = Wad::parse(&data).unwrap();
    assert!(!WadMap::can_parse(&wad, "E1M1"));
}

#[test]
fn can_find_refuses_a_directory_past_the_end() {
    let mut data = build_wad(&[("A", vec![1]), ("B", vec![2])]);
    data[4..8].copy_from_slice(&5i32.to_le_bytes());
    let wad = Wad::parse(&data).unwrap();
    assert!(wad.can_find("A"));
    assert!(wad.can_read_entry(1));
    assert!(!wad.can_read_entry(2));
    assert!(!wad.can_find("C"));
    assert!(wad.can_read_entry(5));
}
