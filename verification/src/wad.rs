//! The WAD container: its header, its directory of lumps, and the lumps
//! that describe a map.

use vstd::prelude::*;
use vstd::utf8::*;
use vstd::string::StringSliceAdditionalSpecFns;
use crate::binary::{
    spec_i16_le, spec_i32_le, spec_u16_le, read_i16_le, read_i32_le, read_u16_le, name_part,
    name_end, bytes_eq, str_from_utf8,
};

verus! {

pub const LINEDEF_FLAG_IMPASSABLE: usize = 0x0001;
pub const LINEDEF_FLAG_TWO_SIDED: usize = 0x0004;
pub const LINEDEF_FLAG_UPPER_TEXTURE_UNPEGGED: usize = 0x0008;
pub const LINEDEF_FLAG_LOWER_TEXTURE_UNPEGGED: usize = 0x0010;
pub const LINEDEF_FLAG_SECRET: usize = 0x0020;
pub const LINEDEF_FLAG_BLOCKS_SOUND: usize = 0x0020;
pub const LINEDEF_FLAG_NEVER_SHOW_ON_AUTOMAP: usize = 0x0080;
pub const LINEDEF_FLAG_ALWAYS_SHOWS_ON_AUTOMAP: usize = 0x0100;

/// A vertex index with this bit set refers to the GL_VERT lump.
pub const VERT_IS_GL: usize = 0x8000;

#[derive(Copy, Clone, Debug)]
pub enum Error {
    ArrayConvertionFailed,
    ConvertToUsizeFailed,
    ConvertToF32Failed,
    BytesToStrFailed,
    UnknownMagic([u8; 4]),
    NoDirFound,
    IndexOutOfRange,
    FrontSideMismatch { side: usize },
    BackSideMismatch { side: usize },
    UnknownSide { side: usize },
}

/// One entry of the lump directory.
#[derive(Copy, Clone, Debug)]
pub struct Dir {
    pub data_offset: usize,
    pub data_size: usize,
    pub name: [u8; 8],
}

pub struct DirView {
    pub data_offset: nat,
    pub data_size: nat,
    pub name: Seq<u8>,
}

impl View for Dir {
    type V = DirView;

    open spec fn view(&self) -> DirView {
        DirView { data_offset: self.data_offset as nat, data_size: self.data_size as nat, name: self.name@ }
    }
}

/// A parsed WAD header over the file's bytes.
pub struct Wad<'a> {
    bytes: &'a [u8],
    num_dirs: usize,
    dir_start: usize,
}

impl<'a> Wad<'a> {
    /// Both header fields were read from 32-bit signed integers.
    #[verifier::type_invariant]
    spec fn header_fits_i32(&self) -> bool {
        self.num_dirs <= i32::MAX && self.dir_start <= i32::MAX
    }

}

/// What a `Wad` stands for: the file's bytes, the number of directory
/// entries and where the directory starts.
pub struct WadView {
    pub bytes: Seq<u8>,
    pub num_dirs: nat,
    pub dir_start: nat,
}

impl<'a> View for Wad<'a> {
    type V = WadView;

    closed spec fn view(&self) -> WadView {
        WadView { bytes: self.bytes@, num_dirs: self.num_dirs as nat, dir_start: self.dir_start as nat }
    }
}

/// The bytes `I`, `W`, `A`, `D` open the file.
pub open spec fn has_iwad_magic(b: Seq<u8>) -> bool {
    b[0] == 0x49 && b[1] == 0x57 && b[2] == 0x41 && b[3] == 0x44
}

/// What `Wad::parse` gives for the bytes `b`.
pub open spec fn spec_parse(b: Seq<u8>) -> Result<WadView, Error> {
    if !has_iwad_magic(b) {
        Err(Error::UnknownMagic([b[0], b[1], b[2], b[3]]))
    } else if spec_i32_le(b, 4) < 0 || spec_i32_le(b, 8) < 0 {
        Err(Error::ConvertToUsizeFailed)
    } else {
        Ok(WadView { bytes: b, num_dirs: spec_i32_le(b, 4) as nat, dir_start: spec_i32_le(b, 8) as nat })
    }
}

impl WadView {
    pub open spec fn entry_start(self, i: int) -> int {
        self.dir_start + 16 * i
    }

    /// Reading directory entry `i` stays inside the file.
    pub open spec fn entry_fits(self, i: int) -> bool {
        i < self.num_dirs ==> self.entry_start(i) + 16 <= self.bytes.len()
    }

    /// What `read_dir_entry(i)` gives.
    pub open spec fn entry(self, i: int) -> Result<DirView, Error> {
        if i < 0 || i >= self.num_dirs {
            Err(Error::IndexOutOfRange)
        } else {
            let s = self.entry_start(i);
            let off = spec_i32_le(self.bytes, s);
            let size = spec_i32_le(self.bytes, s + 4);
            if off < 0 || size < 0 {
                Err(Error::ConvertToUsizeFailed)
            } else {
                Ok(DirView { data_offset: off as nat, data_size: size as nat, name: self.bytes.subrange(s + 8, s + 16) })
            }
        }
    }

    /// Reading lump `i` stays inside the file.
    pub open spec fn lump_fits(self, i: int) -> bool {
        &&& self.entry_fits(i)
        &&& self.entry(i) matches Ok(d) ==> d.data_offset + d.data_size <= self.bytes.len()
    }

    /// What `read_dir(i)` gives: the bytes of lump `i`.
    pub open spec fn lump(self, i: int) -> Result<Seq<u8>, Error> {
        match self.entry(i) {
            Ok(d) => Ok(self.bytes.subrange(d.data_offset as int, (d.data_offset + d.data_size) as int)),
            Err(e) => Err(e),
        }
    }

    /// What `find_dir` gives when it searches for the name `name` from entry
    /// `i` on: the first entry whose name is `name`, or the error met first.
    pub open spec fn find_from(self, name: Seq<u8>, i: nat) -> Result<usize, Error>
        decreases self.num_dirs - i,
    {
        if i >= self.num_dirs {
            Err(Error::NoDirFound)
        } else {
            match self.entry(i as int) {
                Err(e) => Err(e),
                Ok(d) => if !valid_utf8(name_part(d.name)) {
                    Err(Error::BytesToStrFailed)
                } else if name_part(d.name) == name {
                    Ok(i as usize)
                } else {
                    self.find_from(name, i + 1)
                },
            }
        }
    }

    /// The search of `find_from` reads only directory entries inside the file.
    pub open spec fn find_fits_from(self, name: Seq<u8>, i: nat) -> bool
        decreases self.num_dirs - i,
    {
        i < self.num_dirs ==> {
            &&& self.entry_fits(i as int)
            &&& (self.entry(i as int) matches Ok(d) && valid_utf8(name_part(d.name)) && name_part(d.name)
                != name) ==> self.find_fits_from(name, i + 1)
        }
    }

    pub open spec fn find(self, name: Seq<u8>) -> Result<usize, Error> {
        self.find_from(name, 0)
    }

    pub open spec fn find_fits(self, name: Seq<u8>) -> bool {
        self.find_fits_from(name, 0)
    }
}

impl<'a> Wad<'a> {
    /// Reads the header. A file of fewer than 4 bytes, or an IWAD of fewer
    /// than 12, has no header to read.
    pub fn parse(bytes: &'a [u8]) -> (res: Result<Self, Error>)
        requires
            bytes@.len() >= 4,
            has_iwad_magic(bytes@) ==> bytes@.len() >= 12,
        ensures
            match spec_parse(bytes@) {
                Ok(v) => res matches Ok(w) && w@ == v,
                Err(e) => res matches Err(f) && f == e,
            },
    {
        if !(bytes[0] == 0x49 && bytes[1] == 0x57 && bytes[2] == 0x41 && bytes[3] == 0x44) {
            let magic: [u8; 4] = [bytes[0], bytes[1], bytes[2], bytes[3]];
            return Err(Error::UnknownMagic(magic));
        }
        let num_dirs = read_i32_le(bytes, 4);
        if num_dirs < 0 {
            return Err(Error::ConvertToUsizeFailed);
        }
        let dir_start = read_i32_le(bytes, 8);
        if dir_start < 0 {
            return Err(Error::ConvertToUsizeFailed);
        }
        Ok(Wad { bytes, num_dirs: num_dirs as usize, dir_start: dir_start as usize })
    }

    /// Reads directory entry `index`: its lump's offset, size and name.
    pub fn read_dir_entry(&self, index: usize) -> (res: Result<Dir, Error>)
        requires
            self@.entry_fits(index as int),
        ensures
            match self@.entry(index as int) {
                Ok(d) => res matches Ok(r) && r@ == d,
                Err(e) => res matches Err(f) && f == e,
            },
    {
        if index >= self.num_dirs {
            return Err(Error::IndexOutOfRange);
        }
        let total = self.bytes.len();
        let start = self.dir_start + index * 16;
        let data_offset = read_i32_le(self.bytes, start);
        if data_offset < 0 {
            return Err(Error::ConvertToUsizeFailed);
        }
        let data_size = read_i32_le(self.bytes, start + 4);
        if data_size < 0 {
            return Err(Error::ConvertToUsizeFailed);
        }
        let b = self.bytes;
        let name: [u8; 8] = [
            b[start + 8],
            b[start + 9],
            b[start + 10],
            b[start + 11],
            b[start + 12],
            b[start + 13],
            b[start + 14],
            b[start + 15],
        ];
        assert(name@ =~= self.bytes@.subrange(start + 8, start + 16));
        Ok(Dir { data_offset: data_offset as usize, data_size: data_size as usize, name })
    }

    /// Finds the first directory entry named `name`.
    pub fn find_dir(&self, name: &str) -> (res: Result<usize, Error>)
        requires
            self@.find_fits(name.spec_bytes()),
        ensures
            match self@.find(name.spec_bytes()) {
                Ok(i) => res matches Ok(j) && j == i,
                Err(e) => res matches Err(f) && f == e,
            },
            res matches Ok(j) ==> j < self@.num_dirs && j < i32::MAX,
    {
        proof {
            use_type_invariant(self);
        }
        let wanted = name.as_bytes();
        let mut index: usize = 0;
        while index < self.num_dirs
            invariant
                0 <= index <= self@.num_dirs,
                self@.num_dirs <= i32::MAX,
                wanted@ == name.spec_bytes(),
                self@.find_fits_from(wanted@, index as nat),
                self@.find(wanted@) == self@.find_from(wanted@, index as nat),
            decreases self@.num_dirs - index,
        {
            let dir_entry = match self.read_dir_entry(index) {
                Ok(d) => d,
                Err(e) => return Err(e),
            };
            let len = name_end(&dir_entry.name);
            let dir_name: &[u8] = &dir_entry.name[0..len];
            if str_from_utf8(dir_name).is_none() {
                return Err(Error::BytesToStrFailed);
            }
            if bytes_eq(dir_name, wanted) {
                return Ok(index);
            }
            index = index + 1;
        }
        Err(Error::NoDirFound)
    }

    /// Whether directory entry `index` lies inside the file, so that
    /// `read_dir_entry` may read it.
    pub fn can_read_entry(&self, index: usize) -> (r: bool)
        ensures
            r == self@.entry_fits(index as int),
    {
        if index >= self.num_dirs {
            return true;
        }
        let len = self.bytes.len();
        if self.dir_start > len {
            return false;
        }
        let rem = len - self.dir_start;
        if rem < 16 {
            return false;
        }
        let last = (rem - 16) / 16;
        assert(index <= last <==> 16 * index + 16 <= rem) by (nonlinear_arith)
            requires
                last == (rem - 16) / 16,
                rem >= 16,
        ;
        index <= last
    }

    /// Whether lump `index` lies inside the file, so that `read_dir` may read it.
    pub fn can_read_lump(&self, index: usize) -> (r: bool)
        ensures
            r == self@.lump_fits(index as int),
    {
        if !self.can_read_entry(index) {
            return false;
        }
        match self.read_dir_entry(index) {
            Err(_) => true,
            Ok(d) => d.data_offset <= self.bytes.len() && d.data_size <= self.bytes.len() - d.data_offset,
        }
    }

    /// Whether the search of `find_dir` for `name` reads only entries inside
    /// the file.
    pub fn can_find(&self, name: &str) -> (r: bool)
        ensures
            r == self@.find_fits(name.spec_bytes()),
    {
        let wanted = name.as_bytes();
        let mut index: usize = 0;
        while index < self.num_dirs
            invariant
                0 <= index <= self@.num_dirs,
                wanted@ == name.spec_bytes(),
                self@.find_fits(wanted@) == self@.find_fits_from(wanted@, index as nat),
            decreases self@.num_dirs - index,
        {
            if !self.can_read_entry(index) {
                return false;
            }
            let dir_entry = match self.read_dir_entry(index) {
                Ok(d) => d,
                Err(_) => return true,
            };
            let len = name_end(&dir_entry.name);
            let dir_name: &[u8] = &dir_entry.name[0..len];
            if str_from_utf8(dir_name).is_none() || bytes_eq(dir_name, wanted) {
                return true;
            }
            index = index + 1;
        }
        true
    }

    /// Gives the bytes of lump `index`.
    pub fn read_dir(&self, index: usize) -> (res: Result<&'a [u8], Error>)
        requires
            self@.lump_fits(index as int),
        ensures
            match self@.lump(index as int) {
                Ok(d) => res matches Ok(r) && r@ == d,
                Err(e) => res matches Err(f) && f == e,
            },
    {
        let dir_entry = match self.read_dir_entry(index) {
            Ok(d) => d,
            Err(e) => return Err(e),
        };
        let total = self.bytes.len();
        let start = dir_entry.data_offset;
        let end = start + dir_entry.data_size;
        Ok(&self.bytes[start..end])
    }
}


/// A map vertex, in 16.16 fixed-point map units: vertices of the VERTEXES
/// lump are whole units, those of the GL_VERT lump carry a fraction.
#[derive(Copy, Clone, PartialEq, Eq, Debug, Structural)]
pub struct Vertex {
    pub x: i32,
    pub y: i32,
}

impl Vertex {
    fn new(x: i32, y: i32) -> (r: Self)
        ensures
            r.x == x,
            r.y == y,
    {
        Self { x, y }
    }
}

#[derive(Copy, Clone, PartialEq, Eq, Debug, Structural)]
pub struct Line {
    pub start_vertex: usize,
    pub end_vertex: usize,
}

impl Line {
    fn new(start_vertex: usize, end_vertex: usize) -> (r: Self)
        ensures
            r.start_vertex == start_vertex,
            r.end_vertex == end_vertex,
    {
        Self { start_vertex, end_vertex }
    }
}

#[derive(Copy, Clone, Debug)]
pub struct Linedef {
    pub line: Line,
    pub flags: usize,
    pub front_sidedef: Option<usize>,
    pub back_sidedef: Option<usize>,
}

impl Linedef {
    fn new(line: Line, flags: usize, front_sidedef: Option<usize>, back_sidedef: Option<usize>) -> (r: Self)
        ensures
            r == (Linedef { line, flags, front_sidedef, back_sidedef }),
    {
        Self { line, flags, front_sidedef, back_sidedef }
    }
}

#[derive(Copy, Clone, Debug)]
pub struct Sidedef {
    pub x_offset: i16,
    pub y_offset: i16,
    pub upper_texture_name: [u8; 8],
    pub middle_texture_name: [u8; 8],
    pub lower_texture_name: [u8; 8],
    pub sector: usize,
}

impl Sidedef {
    fn new(
        x_offset: i16,
        y_offset: i16,
        upper_texture_name: [u8; 8],
        middle_texture_name: [u8; 8],
        lower_texture_name: [u8; 8],
        sector: usize,
    ) -> (r: Self)
        ensures
            r == (Sidedef {
                x_offset,
                y_offset,
                upper_texture_name,
                middle_texture_name,
                lower_texture_name,
                sector,
            }),
    {
        Self { x_offset, y_offset, upper_texture_name, middle_texture_name, lower_texture_name, sector }
    }
}

/// A sector; the heights are whole map units.
#[derive(Clone, Debug)]
pub struct Sector {
    pub floor_height: i16,
    pub ceiling_height: i16,
    pub floor_texture_name: [u8; 8],
    pub ceiling_texture_name: [u8; 8],
    pub lines: Vec<Linedef>,
    pub sub_sectors: Vec<SubSector>,
}

pub struct SectorView {
    pub floor_height: i16,
    pub ceiling_height: i16,
    pub floor_texture_name: Seq<u8>,
    pub ceiling_texture_name: Seq<u8>,
    pub lines: Seq<Linedef>,
    pub sub_sectors: Seq<SubSector>,
}

impl View for Sector {
    type V = SectorView;

    open spec fn view(&self) -> SectorView {
        SectorView {
            floor_height: self.floor_height,
            ceiling_height: self.ceiling_height,
            floor_texture_name: self.floor_texture_name@,
            ceiling_texture_name: self.ceiling_texture_name@,
            lines: self.lines@,
            sub_sectors: self.sub_sectors@,
        }
    }
}

impl Sector {
    fn new(
        floor_height: i16,
        ceiling_height: i16,
        floor_texture_name: [u8; 8],
        ceiling_texture_name: [u8; 8],
    ) -> (r: Self)
        ensures
            r@ == (SectorView {
                floor_height,
                ceiling_height,
                floor_texture_name: floor_texture_name@,
                ceiling_texture_name: ceiling_texture_name@,
                lines: Seq::empty(),
                sub_sectors: Seq::empty(),
            }),
    {
        Self {
            floor_height,
            ceiling_height,
            floor_texture_name,
            ceiling_texture_name,
            lines: Vec::new(),
            sub_sectors: Vec::new(),
        }
    }
}

#[derive(Copy, Clone, Debug)]
pub struct SubSector {
    pub start: usize,
    pub count: usize,
}

impl SubSector {
    fn new(start: usize, count: usize) -> (r: Self)
        ensures
            r == (SubSector { start, count }),
    {
        Self { start, count }
    }
}

#[derive(Copy, Clone, Debug)]
pub struct Segment {
    pub start_vertex: usize,
    pub end_vertex: usize,
    pub linedef: usize,
    pub side: usize,
    pub partner_segment: usize,
}

impl Segment {
    fn new(start_vertex: usize, end_vertex: usize, linedef: usize, side: usize, partner_segment: usize) -> (r: Self)
        ensures
            r == (Segment { start_vertex, end_vertex, linedef, side, partner_segment }),
    {
        Self { start_vertex, end_vertex, linedef, side, partner_segment }
    }
}

// ---------------------------------------------------------------------------
// The records of the map lumps.

/// Record `i` of a VERTEXES lump: two 16-bit coordinates.
pub open spec fn vertex_record(d: Seq<u8>, i: int) -> Vertex {
    Vertex { x: (spec_i16_le(d, 4 * i) * 65536) as i32, y: (spec_i16_le(d, 4 * i + 2) * 65536) as i32 }
}

pub open spec fn vertices_of(d: Seq<u8>) -> Seq<Vertex> {
    Seq::new(d.len() / 4, |i: int| vertex_record(d, i))
}

/// Record `i` of a GL_VERT lump, after its 4-byte magic: two 16.16
/// fixed-point coordinates.
pub open spec fn gl_vertex_record(d: Seq<u8>, i: int) -> Vertex {
    Vertex { x: spec_i32_le(d, 4 + 8 * i) as i32, y: spec_i32_le(d, 8 + 8 * i) as i32 }
}

pub open spec fn gl_vertices_of(d: Seq<u8>) -> Seq<Vertex> {
    Seq::new(((d.len() - 4) / 8) as nat, |i: int| gl_vertex_record(d, i))
}

/// A side reference of a linedef: -1 is no side, other negatives are refused.
pub open spec fn side_ref(v: int) -> Option<Option<usize>> {
    if v == -1 {
        Some(None)
    } else if v < 0 {
        None
    } else {
        Some(Some(v as usize))
    }
}

/// The first of `i`, `i + 1`, ... below `n` for which `ok` fails, or `n`
/// where it holds of all of them.
pub open spec fn first_failing_from(n: int, ok: spec_fn(int) -> bool, i: int) -> int
    decreases n - i,
{
    if i >= n {
        n
    } else if !ok(i) {
        i
    } else {
        first_failing_from(n, ok, i + 1)
    }
}

/// Where `ok` holds from `start` up to `i` and fails at `i`, `i` is the
/// first failure from `start` on.
pub proof fn lemma_first_failing(n: int, ok: spec_fn(int) -> bool, start: int, i: int)
    requires
        start <= i < n,
        forall|j: int| start <= j < i ==> #[trigger] ok(j),
        !ok(i),
    ensures
        first_failing_from(n, ok, start) == i,
    decreases i - start,
{
    if start < i {
        assert(ok(start));
        lemma_first_failing(n, ok, start + 1, i);
    }
}

/// Record `i` of a LINEDEFS lump, or `None` where a field that must not be
/// negative is.
pub open spec fn linedef_record(d: Seq<u8>, i: int) -> Option<Linedef> {
    let b = 14 * i;
    let sv = spec_i16_le(d, b);
    let ev = spec_i16_le(d, b + 2);
    let flags = spec_i32_le(d, b + 4);
    let front = side_ref(spec_i16_le(d, b + 10));
    let back = side_ref(spec_i16_le(d, b + 12));
    if sv < 0 || ev < 0 || flags < 0 || front is None || back is None {
        None
    } else {
        Some(
            Linedef {
                line: Line { start_vertex: sv as usize, end_vertex: ev as usize },
                flags: flags as usize,
                front_sidedef: front.unwrap(),
                back_sidedef: back.unwrap(),
            },
        )
    }
}

pub open spec fn linedefs_of(d: Seq<u8>) -> Result<Seq<Linedef>, Error> {
    if forall|i: int| 0 <= i < d.len() / 14 ==> #[trigger] linedef_record(d, i) is Some {
        Ok(Seq::new(d.len() / 14, |i: int| linedef_record(d, i).unwrap()))
    } else {
        Err(Error::ConvertToUsizeFailed)
    }
}

/// Record `i` of a SIDEDEFS lump, or `None` where its sector is negative.
pub open spec fn sidedef_record(d: Seq<u8>, i: int) -> Option<Sidedef> {
    let b = 30 * i;
    let sector = spec_i16_le(d, b + 28);
    if sector < 0 {
        None
    } else {
        Some(
            Sidedef {
                x_offset: spec_i16_le(d, b) as i16,
                y_offset: spec_i16_le(d, b + 2) as i16,
                upper_texture_name: name_array(d.subrange(b + 4, b + 12)),
                lower_texture_name: name_array(d.subrange(b + 12, b + 20)),
                middle_texture_name: name_array(d.subrange(b + 20, b + 28)),
                sector: sector as usize,
            },
        )
    }
}

pub open spec fn sidedefs_of(d: Seq<u8>) -> Result<Seq<Sidedef>, Error> {
    if forall|i: int| 0 <= i < d.len() / 30 ==> #[trigger] sidedef_record(d, i) is Some {
        Ok(Seq::new(d.len() / 30, |i: int| sidedef_record(d, i).unwrap()))
    } else {
        Err(Error::ConvertToUsizeFailed)
    }
}

/// How many records of a LINEDEFS lump come before the first bad one.
pub open spec fn linedefs_before_error(d: Seq<u8>) -> int {
    first_failing_from((d.len() / 14) as int, |i: int| linedef_record(d, i) is Some, 0)
}

/// How many records of a SIDEDEFS lump come before the first bad one.
pub open spec fn sidedefs_before_error(d: Seq<u8>) -> int {
    first_failing_from((d.len() / 30) as int, |i: int| sidedef_record(d, i) is Some, 0)
}

/// The 8-byte array whose contents are `s`.
pub open spec fn name_array(s: Seq<u8>) -> [u8; 8] {
    choose|a: [u8; 8]| a@ == s
}

/// Record `i` of a SECTORS lump, with no lines or subsectors yet.
pub open spec fn sector_record(d: Seq<u8>, i: int) -> SectorView {
    let b = 26 * i;
    SectorView {
        floor_height: spec_i16_le(d, b) as i16,
        ceiling_height: spec_i16_le(d, b + 2) as i16,
        floor_texture_name: d.subrange(b + 4, b + 12),
        ceiling_texture_name: d.subrange(b + 12, b + 20),
        lines: Seq::empty(),
        sub_sectors: Seq::empty(),
    }
}

pub open spec fn sectors_of(d: Seq<u8>) -> Seq<SectorView> {
    Seq::new(d.len() / 26, |i: int| sector_record(d, i))
}

/// Record `i` of a GL_SSECT lump: segment count, then first segment.
pub open spec fn sub_sector_record(d: Seq<u8>, i: int) -> SubSector {
    SubSector { count: spec_u16_le(d, 4 * i) as usize, start: spec_u16_le(d, 4 * i + 2) as usize }
}

pub open spec fn sub_sectors_of(d: Seq<u8>) -> Seq<SubSector> {
    Seq::new(d.len() / 4, |i: int| sub_sector_record(d, i))
}

/// Record `i` of a GL_SEGS lump.
pub open spec fn segment_record(d: Seq<u8>, i: int) -> Segment {
    let b = 10 * i;
    Segment {
        start_vertex: spec_u16_le(d, b) as usize,
        end_vertex: spec_u16_le(d, b + 2) as usize,
        linedef: spec_u16_le(d, b + 4) as usize,
        side: spec_u16_le(d, b + 6) as usize,
        partner_segment: spec_u16_le(d, b + 8) as usize,
    }
}

pub open spec fn segments_of(d: Seq<u8>) -> Seq<Segment> {
    Seq::new(d.len() / 10, |i: int| segment_record(d, i))
}


// ---------------------------------------------------------------------------
// A map, as read from the lumps that follow its marker entry.

pub struct WadMap {
    pub vertices: Vec<Vertex>,
    pub gl_vertices: Vec<Vertex>,
    pub linedefs: Vec<Linedef>,
    pub sidedefs: Vec<Sidedef>,
    pub sectors: Vec<Sector>,
    pub segments: Vec<Segment>,
    pub sub_sectors: Vec<SubSector>,
}

pub struct MapView {
    pub vertices: Seq<Vertex>,
    pub gl_vertices: Seq<Vertex>,
    pub linedefs: Seq<Linedef>,
    pub sidedefs: Seq<Sidedef>,
    pub sectors: Seq<SectorView>,
    pub segments: Seq<Segment>,
    pub sub_sectors: Seq<SubSector>,
}

impl View for WadMap {
    type V = MapView;

    open spec fn view(&self) -> MapView {
        MapView {
            vertices: self.vertices@,
            gl_vertices: self.gl_vertices@,
            linedefs: self.linedefs@,
            sidedefs: self.sidedefs@,
            sectors: self.sectors@.map_values(|s: Sector| s@),
            segments: self.segments@,
            sub_sectors: self.sub_sectors@,
        }
    }
}

/// The sector that a linedef belongs to: that of its front side, else that
/// of its back side.
pub open spec fn line_sector(sidedefs: Seq<Sidedef>, l: Linedef) -> Option<int> {
    match l.front_sidedef {
        Some(s) => Some(sidedefs[s as int].sector as int),
        None => match l.back_sidedef {
            Some(s) => Some(sidedefs[s as int].sector as int),
            None => None,
        },
    }
}

/// Finding a linedef's sector stays inside the sidedefs and the sectors.
pub open spec fn line_sector_fits(sidedefs: Seq<Sidedef>, num_sectors: int, l: Linedef) -> bool {
    match l.front_sidedef {
        Some(s) => s < sidedefs.len() && sidedefs[s as int].sector < num_sectors,
        None => match l.back_sidedef {
            Some(s) => s < sidedefs.len() && sidedefs[s as int].sector < num_sectors,
            None => true,
        },
    }
}

/// The sector that a subsector belongs to, found through the side of its
/// first segment's linedef; `Ok(None)` for a first segment on no linedef.
pub open spec fn sub_sector_sector(
    segments: Seq<Segment>,
    linedefs: Seq<Linedef>,
    sidedefs: Seq<Sidedef>,
    ss: SubSector,
) -> Result<Option<int>, Error> {
    let seg = segments[ss.start as int];
    if seg.linedef == 0xffff {
        Ok(None)
    } else {
        let l = linedefs[seg.linedef as int];
        if seg.side == 0 {
            match l.front_sidedef {
                Some(s) => Ok(Some(sidedefs[s as int].sector as int)),
                None => Err(Error::FrontSideMismatch { side: seg.side }),
            }
        } else if seg.side == 1 {
            match l.back_sidedef {
                Some(s) => Ok(Some(sidedefs[s as int].sector as int)),
                None => Err(Error::BackSideMismatch { side: seg.side }),
            }
        } else {
            Err(Error::UnknownSide { side: seg.side })
        }
    }
}

/// Finding a subsector's sector stays inside the map's tables.
pub open spec fn sub_sector_fits(m: MapView, ss: SubSector) -> bool {
    &&& ss.start < m.segments.len()
    &&& {
        let seg = m.segments[ss.start as int];
        seg.linedef != 0xffff ==> {
            &&& seg.linedef < m.linedefs.len()
            &&& {
                let l = m.linedefs[seg.linedef as int];
                let side = if seg.side == 0 {
                    l.front_sidedef
                } else if seg.side == 1 {
                    l.back_sidedef
                } else {
                    None
                };
                side matches Some(s) ==> s < m.sidedefs.len() && m.sidedefs[s as int].sector
                    < m.sectors.len()
            }
        }
    }
}

/// The linedefs of `ls` that belong to sector `k`, in order.
pub open spec fn lines_in_sector(sidedefs: Seq<Sidedef>, ls: Seq<Linedef>, k: int) -> Seq<Linedef> {
    ls.filter(|l: Linedef| line_sector(sidedefs, l) == Some(k))
}

/// The subsectors of `subs` that belong to sector `k`, in order.
pub open spec fn sub_sectors_in_sector(
    segments: Seq<Segment>,
    linedefs: Seq<Linedef>,
    sidedefs: Seq<Sidedef>,
    subs: Seq<SubSector>,
    k: int,
) -> Seq<SubSector> {
    subs.filter(
        |ss: SubSector|
            sub_sector_sector(segments, linedefs, sidedefs, ss) == Ok::<Option<int>, Error>(Some(k)),
    )
}

impl MapView {
    pub open spec fn sub_sector_sector(self, ss: SubSector) -> Result<Option<int>, Error> {
        sub_sector_sector(self.segments, self.linedefs, self.sidedefs, ss)
    }

    /// The error of the first subsector, from `i` on, whose sector cannot be found.
    pub open spec fn first_sub_sector_error(self, i: nat) -> Option<Error>
        decreases self.sub_sectors.len() - i,
    {
        if i >= self.sub_sectors.len() {
            None
        } else {
            match self.sub_sector_sector(self.sub_sectors[i as int]) {
                Err(e) => Some(e),
                Ok(_) => self.first_sub_sector_error(i + 1),
            }
        }
    }

    /// Sorting from subsector `i` on reads only inside the map's tables.
    pub open spec fn sub_sectors_fit_from(self, i: nat) -> bool
        decreases self.sub_sectors.len() - i,
    {
        i < self.sub_sectors.len() ==> {
            &&& sub_sector_fits(self, self.sub_sectors[i as int])
            &&& self.sub_sector_sector(self.sub_sectors[i as int]) is Ok ==> self.sub_sectors_fit_from(
                i + 1,
            )
        }
    }

    /// Distributing lines and subsectors over the sectors reads only inside
    /// the map's tables.
    pub open spec fn sort_fits(self) -> bool {
        &&& forall|j: int|
            0 <= j < self.linedefs.len() ==> line_sector_fits(
                self.sidedefs,
                self.sectors.len() as int,
                #[trigger] self.linedefs[j],
            )
        &&& self.sub_sectors_fit_from(0)
    }

    /// The linedefs that belong to sector `k`, in order.
    pub open spec fn lines_of_sector(self, k: int) -> Seq<Linedef> {
        lines_in_sector(self.sidedefs, self.linedefs, k)
    }

    /// The subsectors that belong to sector `k`, in order.
    pub open spec fn sub_sectors_of_sector(self, k: int) -> Seq<SubSector> {
        sub_sectors_in_sector(self.segments, self.linedefs, self.sidedefs, self.sub_sectors, k)
    }

    /// Each sector, given the lines and subsectors that belong to it.
    pub open spec fn sorted(self) -> MapView {
        MapView {
            sectors: Seq::new(
                self.sectors.len(),
                |k: int|
                    SectorView {
                        lines: self.sectors[k].lines + self.lines_of_sector(k),
                        sub_sectors: self.sectors[k].sub_sectors + self.sub_sectors_of_sector(k),
                        ..self.sectors[k]
                    },
            ),
            ..self
        }
    }

    /// How many subsectors come before the first whose sector cannot be found.
    pub open spec fn sub_sectors_before_error(self) -> int {
        first_failing_from(self.sub_sectors.len() as int, |j: int| self.sub_sector_sector(self.sub_sectors[j]) is Ok, 0)
    }

    /// Each sector, given the lines that belong to it and those of the first
    /// `n` subsectors that belong to it.
    pub open spec fn sorted_upto(self, n: int) -> MapView {
        MapView {
            sectors: Seq::new(
                self.sectors.len(),
                |k: int|
                    SectorView {
                        lines: self.sectors[k].lines + self.lines_of_sector(k),
                        sub_sectors: self.sectors[k].sub_sectors + sub_sectors_in_sector(
                            self.segments,
                            self.linedefs,
                            self.sidedefs,
                            self.sub_sectors.take(n),
                            k,
                        ),
                        ..self.sectors[k]
                    },
            ),
            ..self
        }
    }

    /// What sorting gives: the sorted map, or the first subsector's error.
    pub open spec fn sort(self) -> Result<MapView, Error> {
        match self.first_sub_sector_error(0) {
            Some(e) => Err(e),
            None => Ok(self.sorted()),
        }
    }

    /// Which vertex a vertex reference names: with `VERT_IS_GL` set, a GL
    /// vertex, else a VERTEXES vertex.
    pub open spec fn vertex_ref_fits(self, index: usize) -> bool {
        if index & VERT_IS_GL == VERT_IS_GL {
            (index & !VERT_IS_GL) < self.gl_vertices.len()
        } else {
            index < self.vertices.len()
        }
    }

    pub open spec fn vertex(self, index: usize) -> Vertex {
        if index & VERT_IS_GL == VERT_IS_GL {
            self.gl_vertices[(index & !VERT_IS_GL) as int]
        } else {
            self.vertices[index as int]
        }
    }
}

impl WadView {
    /// The lumps of the map whose marker is entry `i`, before lines and
    /// subsectors are given to their sectors; the first error met otherwise.
    pub open spec fn map_lumps(self, i: int) -> Result<MapView, Error> {
        match self.lump(i + 4) {
            Err(e) => Err(e),
            Ok(vd) => match self.lump(i + 12) {
                Err(e) => Err(e),
                Ok(gd) => match self.lump(i + 2) {
                    Err(e) => Err(e),
                    Ok(ld) => match linedefs_of(ld) {
                        Err(e) => Err(e),
                        Ok(linedefs) => match self.lump(i + 3) {
                            Err(e) => Err(e),
                            Ok(sd) => match sidedefs_of(sd) {
                                Err(e) => Err(e),
                                Ok(sidedefs) => match self.lump(i + 8) {
                                    Err(e) => Err(e),
                                    Ok(cd) => match self.lump(i + 14) {
                                        Err(e) => Err(e),
                                        Ok(ssd) => match self.lump(i + 13) {
                                            Err(e) => Err(e),
                                            Ok(sgd) => Ok(
                                                MapView {
                                                    vertices: vertices_of(vd),
                                                    gl_vertices: gl_vertices_of(gd),
                                                    linedefs,
                                                    sidedefs,
                                                    sectors: sectors_of(cd),
                                                    segments: segments_of(sgd),
                                                    sub_sectors: sub_sectors_of(ssd),
                                                },
                                            ),
                                        },
                                    },
                                },
                            },
                        },
                    },
                },
            },
        }
    }

    /// Reading the map's lumps stays inside the file, and its GL_VERT lump
    /// holds its 4-byte magic.
    pub open spec fn map_lumps_fit(self, i: int) -> bool {
        &&& self.lump_fits(i + 4)
        &&& self.lump(i + 4) is Ok ==> self.lump_fits(i + 12)
        &&& (self.lump(i + 4) is Ok && self.lump(i + 12) is Ok) ==> self.map_lumps_rest_fit(
            i,
            self.lump(i + 12).unwrap(),
        )
    }

    pub open spec fn map_lumps_rest_fit(self, i: int, gd: Seq<u8>) -> bool {
        &&& gd.len() >= 4
        &&& self.lump_fits(i + 2)
        &&& (self.lump(i + 2) is Ok && linedefs_of(self.lump(i + 2).unwrap()) is Ok) ==> {
            &&& self.lump_fits(i + 3)
            &&& (self.lump(i + 3) is Ok && sidedefs_of(self.lump(i + 3).unwrap()) is Ok) ==> {
                &&& self.lump_fits(i + 8)
                &&& self.lump(i + 8) is Ok ==> self.lump_fits(i + 14)
                &&& (self.lump(i + 8) is Ok && self.lump(i + 14) is Ok) ==> self.lump_fits(i + 13)
            }
        }
    }

    /// What `WadMap::parse_from_wad` gives for the map named `name`.
    pub open spec fn map(self, name: Seq<u8>) -> Result<MapView, Error> {
        match self.find(name) {
            Err(e) => Err(e),
            Ok(i) => match self.map_lumps(i as int) {
                Err(e) => Err(e),
                Ok(m) => m.sort(),
            },
        }
    }

    /// Reading the map named `name` stays inside the file and inside the
    /// map's tables.
    pub open spec fn map_fits(self, name: Seq<u8>) -> bool {
        &&& self.find_fits(name)
        &&& self.find(name) matches Ok(i) ==> {
            &&& self.map_lumps_fit(i as int)
            &&& self.map_lumps(i as int) matches Ok(m) ==> m.sort_fits()
        }
    }
}


/// The array of a field's 8 bytes is the field itself.
pub proof fn lemma_name_array(a: [u8; 8])
    ensures
        name_array(a@) == a,
{
    assert(a@ == a@);
    assert(exists|b: [u8; 8]| #[trigger] b@ == a@);
    let c = name_array(a@);
    assert(c@ == a@);
    assert(c =~= a) by {
        assert forall|i: int| 0 <= i < 8 implies c[i] == a[i] by {
            assert(c@[i] == a@[i]);
        }
    }
}

proof fn lemma_record_fits(len: int, size: int, i: int)
    by (nonlinear_arith)
    requires
        size > 0,
        0 <= i < len / size,
    ensures
        size * i + size <= len,
{
}

/// Copies the 8 bytes `d[s..s + 8]`.
fn read_name(d: &[u8], s: usize) -> (a: [u8; 8])
    requires
        s + 8 <= d.len(),
    ensures
        a@ == d@.subrange(s as int, s + 8),
{
    let a: [u8; 8] = [d[s], d[s + 1], d[s + 2], d[s + 3], d[s + 4], d[s + 5], d[s + 6], d[s + 7]];
    assert(a@ =~= d@.subrange(s as int, s + 8));
    a
}

fn read_vertex_record(d: &[u8], i: usize) -> (r: Vertex)
    requires
        4 * i + 4 <= d.len(),
    ensures
        r == vertex_record(d@, i as int),
{
    let x: i32 = read_i16_le(d, 4 * i) as i32 * 65536;
    let y: i32 = read_i16_le(d, 4 * i + 2) as i32 * 65536;
    Vertex::new(x, y)
}

fn read_gl_vertex_record(d: &[u8], i: usize) -> (r: Vertex)
    requires
        8 * i + 12 <= d.len(),
    ensures
        r == gl_vertex_record(d@, i as int),
{
    Vertex::new(read_i32_le(d, 4 + 8 * i), read_i32_le(d, 8 + 8 * i))
}

fn read_side_ref(v: i16) -> (r: Option<Option<usize>>)
    ensures
        r == side_ref(v as int),
{
    if v == -1 {
        Some(None)
    } else if v < 0 {
        None
    } else {
        Some(Some(v as usize))
    }
}

fn read_linedef_record(d: &[u8], i: usize) -> (r: Option<Linedef>)
    requires
        14 * i + 14 <= d.len(),
    ensures
        r == linedef_record(d@, i as int),
{
    let b = 14 * i;
    let sv = read_i16_le(d, b);
    let ev = read_i16_le(d, b + 2);
    let flags = read_i32_le(d, b + 4);
    let front = read_side_ref(read_i16_le(d, b + 10));
    let back = read_side_ref(read_i16_le(d, b + 12));
    if sv < 0 || ev < 0 || flags < 0 {
        return None;
    }
    match (front, back) {
        (Some(front), Some(back)) => Some(
            Linedef::new(Line::new(sv as usize, ev as usize), flags as usize, front, back),
        ),
        _ => None,
    }
}

fn read_sidedef_record(d: &[u8], i: usize) -> (r: Option<Sidedef>)
    requires
        30 * i + 30 <= d.len(),
    ensures
        r == sidedef_record(d@, i as int),
{
    let b = 30 * i;
    let sector = read_i16_le(d, b + 28);
    if sector < 0 {
        return None;
    }
    let upper = read_name(d, b + 4);
    let lower = read_name(d, b + 12);
    let middle = read_name(d, b + 20);
    proof {
        lemma_name_array(upper);
        lemma_name_array(lower);
        lemma_name_array(middle);
    }
    Some(Sidedef::new(read_i16_le(d, b), read_i16_le(d, b + 2), upper, middle, lower, sector as usize))
}

fn read_sector_record(d: &[u8], i: usize) -> (r: Sector)
    requires
        26 * i + 26 <= d.len(),
    ensures
        r@ == sector_record(d@, i as int),
{
    let b = 26 * i;
    let floor_name = read_name(d, b + 4);
    let ceiling_name = read_name(d, b + 12);
    Sector::new(read_i16_le(d, b), read_i16_le(d, b + 2), floor_name, ceiling_name)
}

fn read_sub_sector_record(d: &[u8], i: usize) -> (r: SubSector)
    requires
        4 * i + 4 <= d.len(),
    ensures
        r == sub_sector_record(d@, i as int),
{
    let count = read_u16_le(d, 4 * i);
    let start = read_u16_le(d, 4 * i + 2);
    SubSector::new(start as usize, count as usize)
}

fn read_segment_record(d: &[u8], i: usize) -> (r: Segment)
    requires
        10 * i + 10 <= d.len(),
    ensures
        r == segment_record(d@, i as int),
{
    let b = 10 * i;
    Segment::new(
        read_u16_le(d, b) as usize,
        read_u16_le(d, b + 2) as usize,
        read_u16_le(d, b + 4) as usize,
        read_u16_le(d, b + 6) as usize,
        read_u16_le(d, b + 8) as usize,
    )
}


fn load_vertices(wad: &Wad, map_index: usize) -> (res: Result<(Vec<Vertex>, Vec<Vertex>), Error>)
    requires
        map_index <= i32::MAX,
        wad@.lump_fits(map_index + 4),
        wad@.lump(map_index + 4) is Ok ==> wad@.lump_fits(map_index + 12),
        (wad@.lump(map_index + 4) is Ok && wad@.lump(map_index + 12) is Ok) ==> wad@.lump(
            map_index + 12,
        ).unwrap().len() >= 4,
    ensures
        match wad@.lump(map_index + 4) {
            Err(e) => res matches Err(f) && f == e,
            Ok(vd) => match wad@.lump(map_index + 12) {
                Err(e) => res matches Err(f) && f == e,
                Ok(gd) => res matches Ok((v, g)) && v@ == vertices_of(vd) && g@ == gl_vertices_of(gd),
            },
        },
{
    let data = match wad.read_dir(map_index + 4) {
        Ok(d) => d,
        Err(e) => return Err(e),
    };
    let count = data.len() / 4;
    let mut vertices: Vec<Vertex> = Vec::new();
    let mut index: usize = 0;
    while index < count
        invariant
            count == data@.len() / 4,
            index <= count,
            vertices@.len() == index,
            forall|j: int| 0 <= j < index ==> vertices@[j] == vertex_record(data@, j),
        decreases count - index,
    {
        proof {
            lemma_record_fits(data@.len() as int, 4, index as int);
        }
        vertices.push(read_vertex_record(data, index));
        index = index + 1;
    }
    assert(vertices@ =~= vertices_of(data@));

    let gl_data = match wad.read_dir(map_index + 12) {
        Ok(d) => d,
        Err(e) => return Err(e),
    };
    let count = (gl_data.len() - 4) / 8;
    let mut gl_vertices: Vec<Vertex> = Vec::new();
    let mut index: usize = 0;
    while index < count
        invariant
            gl_data@.len() >= 4,
            count == (gl_data@.len() - 4) / 8,
            index <= count,
            gl_vertices@.len() == index,
            forall|j: int| 0 <= j < index ==> gl_vertices@[j] == gl_vertex_record(gl_data@, j),
        decreases count - index,
    {
        proof {
            lemma_record_fits(gl_data@.len() - 4, 8, index as int);
        }
        gl_vertices.push(read_gl_vertex_record(gl_data, index));
        index = index + 1;
    }
    assert(gl_vertices@ =~= gl_vertices_of(gl_data@));
    Ok((vertices, gl_vertices))
}

/// Appends the linedefs of the map's LINEDEFS lump, up to the first bad
/// record.
fn load_linedefs(wad: &Wad, map_index: usize, linedefs: &mut Vec<Linedef>) -> (res: Result<(), Error>)
    requires
        map_index <= i32::MAX,
        wad@.lump_fits(map_index + 2),
    ensures
        match wad@.lump(map_index + 2) {
            Err(e) => res matches Err(f) && f == e && final(linedefs)@ == old(linedefs)@,
            Ok(d) => match linedefs_of(d) {
                Err(e) => res matches Err(f) && f == e && final(linedefs)@ == old(linedefs)@ + Seq::new(
                    linedefs_before_error(d) as nat,
                    |i: int| linedef_record(d, i).unwrap(),
                ),
                Ok(ls) => res is Ok && final(linedefs)@ == old(linedefs)@ + ls,
            },
        },
{
    let data = match wad.read_dir(map_index + 2) {
        Ok(d) => d,
        Err(e) => return Err(e),
    };
    let ghost start = linedefs@;
    let count = data.len() / 14;
    let mut index: usize = 0;
    while index < count
        invariant
            wad@.lump(map_index + 2) == Ok::<Seq<u8>, Error>(data@),
            count == data@.len() / 14,
            index <= count,
            linedefs@ == start + Seq::new(index as nat, |i: int| linedef_record(data@, i).unwrap()),
            start == old(linedefs)@,
            forall|j: int| 0 <= j < index ==> #[trigger] linedef_record(data@, j) is Some,
        decreases count - index,
    {
        proof {
            lemma_record_fits(data@.len() as int, 14, index as int);
        }
        match read_linedef_record(data, index) {
            Some(l) => linedefs.push(l),
            None => {
                proof {
                    lemma_first_failing(count as int, |i: int| linedef_record(data@, i) is Some, 0, index as int);
                }
                return Err(Error::ConvertToUsizeFailed);
            },
        }
        index = index + 1;
        assert(linedefs@ =~= start + Seq::new(index as nat, |i: int| linedef_record(data@, i).unwrap()));
    }
    Ok(())
}

/// Appends the sidedefs of the map's SIDEDEFS lump, up to the first bad
/// record.
fn load_sidedefs(wad: &Wad, map_index: usize, sidedefs: &mut Vec<Sidedef>) -> (res: Result<(), Error>)
    requires
        map_index <= i32::MAX,
        wad@.lump_fits(map_index + 3),
    ensures
        match wad@.lump(map_index + 3) {
            Err(e) => res matches Err(f) && f == e && final(sidedefs)@ == old(sidedefs)@,
            Ok(d) => match sidedefs_of(d) {
                Err(e) => res matches Err(f) && f == e && final(sidedefs)@ == old(sidedefs)@ + Seq::new(
                    sidedefs_before_error(d) as nat,
                    |i: int| sidedef_record(d, i).unwrap(),
                ),
                Ok(ss) => res is Ok && final(sidedefs)@ == old(sidedefs)@ + ss,
            },
        },
{
    let data = match wad.read_dir(map_index + 3) {
        Ok(d) => d,
        Err(e) => return Err(e),
    };
    let ghost start = sidedefs@;
    let count = data.len() / 30;
    let mut index: usize = 0;
    while index < count
        invariant
            wad@.lump(map_index + 3) == Ok::<Seq<u8>, Error>(data@),
            count == data@.len() / 30,
            index <= count,
            sidedefs@ == start + Seq::new(index as nat, |i: int| sidedef_record(data@, i).unwrap()),
            start == old(sidedefs)@,
            forall|j: int| 0 <= j < index ==> #[trigger] sidedef_record(data@, j) is Some,
        decreases count - index,
    {
        proof {
            lemma_record_fits(data@.len() as int, 30, index as int);
        }
        match read_sidedef_record(data, index) {
            Some(l) => sidedefs.push(l),
            None => {
                proof {
                    lemma_first_failing(count as int, |i: int| sidedef_record(data@, i) is Some, 0, index as int);
                }
                return Err(Error::ConvertToUsizeFailed);
            },
        }
        index = index + 1;
        assert(sidedefs@ =~= start + Seq::new(index as nat, |i: int| sidedef_record(data@, i).unwrap()));
    }
    Ok(())
}

fn load_sectors(wad: &Wad, map_index: usize) -> (res: Result<Vec<Sector>, Error>)
    requires
        map_index <= i32::MAX,
        wad@.lump_fits(map_index + 8),
    ensures
        match wad@.lump(map_index + 8) {
            Err(e) => res matches Err(f) && f == e,
            Ok(d) => res matches Ok(v) && v@.map_values(|s: Sector| s@) == sectors_of(d),
        },
{
    let data = match wad.read_dir(map_index + 8) {
        Ok(d) => d,
        Err(e) => return Err(e),
    };
    let count = data.len() / 26;
    let mut sectors: Vec<Sector> = Vec::new();
    let mut index: usize = 0;
    while index < count
        invariant
            count == data@.len() / 26,
            index <= count,
            sectors@.len() == index,
            forall|j: int| 0 <= j < index ==> #[trigger] sectors@[j]@ == sector_record(data@, j),
        decreases count - index,
    {
        proof {
            lemma_record_fits(data@.len() as int, 26, index as int);
        }
        sectors.push(read_sector_record(data, index));
        index = index + 1;
    }
    assert(sectors@.map_values(|s: Sector| s@) =~= sectors_of(data@));
    Ok(sectors)
}

fn load_subsectors(wad: &Wad, map_index: usize) -> (res: Result<Vec<SubSector>, Error>)
    requires
        map_index <= i32::MAX,
        wad@.lump_fits(map_index + 14),
    ensures
        match wad@.lump(map_index + 14) {
            Err(e) => res matches Err(f) && f == e,
            Ok(d) => res matches Ok(v) && v@ == sub_sectors_of(d),
        },
{
    let data = match wad.read_dir(map_index + 14) {
        Ok(d) => d,
        Err(e) => return Err(e),
    };
    let count = data.len() / 4;
    let mut sub_sectors: Vec<SubSector> = Vec::new();
    let mut index: usize = 0;
    while index < count
        invariant
            count == data@.len() / 4,
            index <= count,
            sub_sectors@.len() == index,
            forall|j: int| 0 <= j < index ==> sub_sectors@[j] == sub_sector_record(data@, j),
        decreases count - index,
    {
        proof {
            lemma_record_fits(data@.len() as int, 4, index as int);
        }
        sub_sectors.push(read_sub_sector_record(data, index));
        index = index + 1;
    }
    assert(sub_sectors@ =~= sub_sectors_of(data@));
    Ok(sub_sectors)
}

fn load_segments(wad: &Wad, map_index: usize) -> (res: Result<Vec<Segment>, Error>)
    requires
        map_index <= i32::MAX,
        wad@.lump_fits(map_index + 13),
    ensures
        match wad@.lump(map_index + 13) {
            Err(e) => res matches Err(f) && f == e,
            Ok(d) => res matches Ok(v) && v@ == segments_of(d),
        },
{
    let data = match wad.read_dir(map_index + 13) {
        Ok(d) => d,
        Err(e) => return Err(e),
    };
    let count = data.len() / 10;
    let mut segments: Vec<Segment> = Vec::new();
    let mut index: usize = 0;
    while index < count
        invariant
            count == data@.len() / 10,
            index <= count,
            segments@.len() == index,
            forall|j: int| 0 <= j < index ==> segments@[j] == segment_record(data@, j),
        decreases count - index,
    {
        proof {
            lemma_record_fits(data@.len() as int, 10, index as int);
        }
        segments.push(read_segment_record(data, index));
        index = index + 1;
    }
    assert(segments@ =~= segments_of(data@));
    Ok(segments)
}


proof fn lemma_lines_in_sector_step(sidedefs: Seq<Sidedef>, ls: Seq<Linedef>, j: int, k: int)
    requires
        0 <= j < ls.len(),
    ensures
        lines_in_sector(sidedefs, ls.take(j + 1), k) == if line_sector(sidedefs, ls[j]) == Some(k) {
            lines_in_sector(sidedefs, ls.take(j), k).push(ls[j])
        } else {
            lines_in_sector(sidedefs, ls.take(j), k)
        },
{
    assert(ls.take(j + 1) =~= ls.take(j).push(ls[j]));
    ls.take(j).lemma_filter_push(ls[j], |l: Linedef| line_sector(sidedefs, l) == Some(k));
}

proof fn lemma_sub_sectors_in_sector_step(
    segments: Seq<Segment>,
    linedefs: Seq<Linedef>,
    sidedefs: Seq<Sidedef>,
    subs: Seq<SubSector>,
    j: int,
    k: int,
)
    requires
        0 <= j < subs.len(),
    ensures
        sub_sectors_in_sector(segments, linedefs, sidedefs, subs.take(j + 1), k) == if sub_sector_sector(
            segments,
            linedefs,
            sidedefs,
            subs[j],
        ) == Ok::<Option<int>, Error>(Some(k)) {
            sub_sectors_in_sector(segments, linedefs, sidedefs, subs.take(j), k).push(subs[j])
        } else {
            sub_sectors_in_sector(segments, linedefs, sidedefs, subs.take(j), k)
        },
{
    assert(subs.take(j + 1) =~= subs.take(j).push(subs[j]));
    subs.take(j).lemma_filter_push(
        subs[j],
        |ss: SubSector|
            sub_sector_sector(segments, linedefs, sidedefs, ss) == Ok::<Option<int>, Error>(Some(k)),
    );
}

proof fn lemma_first_error_from(m: MapView, i: nat)
    requires
        i <= m.sub_sectors.len(),
        forall|j: int| 0 <= j < i ==> #[trigger] m.sub_sector_sector(m.sub_sectors[j]) is Ok,
    ensures
        m.first_sub_sector_error(0) == m.first_sub_sector_error(i),
    decreases i,
{
    if i > 0 {
        let p = (i - 1) as nat;
        assert(m.sub_sector_sector(m.sub_sectors[p as int]) is Ok);
        assert(m.first_sub_sector_error(p) == m.first_sub_sector_error(i));
        lemma_first_error_from(m, p);
    }
}

proof fn lemma_fit_from(m: MapView, i: nat)
    requires
        i <= m.sub_sectors.len(),
        m.sub_sectors_fit_from(0),
        forall|j: int| 0 <= j < i ==> #[trigger] m.sub_sector_sector(m.sub_sectors[j]) is Ok,
    ensures
        m.sub_sectors_fit_from(i),
    decreases i,
{
    if i > 0 {
        let p = (i - 1) as nat;
        lemma_fit_from(m, p);
        assert(m.sub_sector_sector(m.sub_sectors[p as int]) is Ok);
    }
}

impl WadMap {
    /// Where subsector `i` is the first whose sector cannot be found, and the
    /// sectors hold their lines and the subsectors before it, the map is
    /// sorted up to the error.
    proof fn lemma_sorted_upto_at(&self, m: MapView, i: int)
        requires
            0 <= i < m.sub_sectors.len(),
            forall|j: int| 0 <= j < i ==> #[trigger] m.sub_sector_sector(m.sub_sectors[j]) is Ok,
            m.sub_sector_sector(m.sub_sectors[i]) is Err,
            self.linedefs@ == m.linedefs,
            self.sidedefs@ == m.sidedefs,
            self.vertices@ == m.vertices,
            self.gl_vertices@ == m.gl_vertices,
            self.segments@ == m.segments,
            self.sub_sectors@ == m.sub_sectors,
            self.sectors@.len() == m.sectors.len(),
            forall|k: int|
                0 <= k < m.sectors.len() ==> #[trigger] self.sectors@[k]@ == (SectorView {
                    lines: m.sectors[k].lines + m.lines_of_sector(k),
                    sub_sectors: m.sectors[k].sub_sectors + sub_sectors_in_sector(
                        m.segments,
                        m.linedefs,
                        m.sidedefs,
                        m.sub_sectors.take(i),
                        k,
                    ),
                    ..m.sectors[k]
                }),
        ensures
            m.sub_sectors_before_error() == i,
            self@ == m.sorted_upto(i),
    {
        lemma_first_failing(
            m.sub_sectors.len() as int,
            |j: int| m.sub_sector_sector(m.sub_sectors[j]) is Ok,
            0,
            i,
        );
        assert(self@.sectors =~= m.sorted_upto(i).sectors);
    }

    /// Gives each sector the linedefs and the subsectors that belong to it.
    fn sort_subsectors(&mut self) -> (res: Result<(), Error>)
        requires
            old(self)@.sort_fits(),
        ensures
            match old(self)@.sort() {
                Ok(m) => res is Ok && final(self)@ == m,
                Err(e) => res matches Err(f) && f == e && final(self)@ == old(self)@.sorted_upto(
                    old(self)@.sub_sectors_before_error(),
                ),
            },
    {
        let ghost m = self@;
        let mut j: usize = 0;
        while j < self.linedefs.len()
            invariant
                self.linedefs@ == m.linedefs,
                self.sidedefs@ == m.sidedefs,
                self.vertices@ == m.vertices,
                self.gl_vertices@ == m.gl_vertices,
                self.segments@ == m.segments,
                self.sub_sectors@ == m.sub_sectors,
                self.sectors@.len() == m.sectors.len(),
                0 <= j <= m.linedefs.len(),
                m.sort_fits(),
                forall|k: int|
                    0 <= k < m.sectors.len() ==> #[trigger] self.sectors@[k]@ == (SectorView {
                        lines: m.sectors[k].lines + lines_in_sector(m.sidedefs, m.linedefs.take(j as int), k),
                        ..m.sectors[k]
                    }),
            decreases m.linedefs.len() - j,
        {
            let line = self.linedefs[j];
            assert(line_sector_fits(m.sidedefs, m.sectors.len() as int, m.linedefs[j as int]));
            let target: Option<usize> = match line.front_sidedef {
                Some(s) => Some(self.sidedefs[s].sector),
                None => match line.back_sidedef {
                    Some(s) => Some(self.sidedefs[s].sector),
                    None => None,
                },
            };
            let ghost before = self.sectors@;
            if let Some(k) = target {
                self.sectors[k].lines.push(line);
            }
            proof {
                assert forall|k: int| 0 <= k < m.sectors.len() implies #[trigger] self.sectors@[k]@ == (SectorView {
                    lines: m.sectors[k].lines + lines_in_sector(m.sidedefs, m.linedefs.take(j + 1), k),
                    ..m.sectors[k]
                }) by {
                    lemma_lines_in_sector_step(m.sidedefs, m.linedefs, j as int, k);
                    assert(before[k]@ == (SectorView {
                        lines: m.sectors[k].lines + lines_in_sector(m.sidedefs, m.linedefs.take(j as int), k),
                        ..m.sectors[k]
                    }));
                    if target == Some(k as usize) {
                        assert(self.sectors@[k]@.lines =~= m.sectors[k].lines + lines_in_sector(m.sidedefs, m.linedefs.take(j + 1), k));
                    } else {
                        assert(self.sectors@[k] == before[k]);
                    }
                }
            }
            j = j + 1;
        }
        assert(m.linedefs.take(m.linedefs.len() as int) =~= m.linedefs);

        let mut i: usize = 0;
        while i < self.sub_sectors.len()
            invariant
                self.linedefs@ == m.linedefs,
                self.sidedefs@ == m.sidedefs,
                self.vertices@ == m.vertices,
                self.gl_vertices@ == m.gl_vertices,
                self.segments@ == m.segments,
                self.sub_sectors@ == m.sub_sectors,
                self.sectors@.len() == m.sectors.len(),
                0 <= i <= m.sub_sectors.len(),
                m == old(self)@,
                m.sub_sectors_fit_from(i as nat),
                m.first_sub_sector_error(0) == m.first_sub_sector_error(i as nat),
                forall|j: int| 0 <= j < i ==> #[trigger] m.sub_sector_sector(m.sub_sectors[j]) is Ok,
                forall|k: int|
                    0 <= k < m.sectors.len() ==> #[trigger] self.sectors@[k]@ == (SectorView {
                        lines: m.sectors[k].lines + m.lines_of_sector(k),
                        sub_sectors: m.sectors[k].sub_sectors + sub_sectors_in_sector(
                            m.segments,
                            m.linedefs,
                            m.sidedefs,
                            m.sub_sectors.take(i as int),
                            k,
                        ),
                        ..m.sectors[k]
                    }),
            decreases m.sub_sectors.len() - i,
        {
            let sub_sector = self.sub_sectors[i];
            let segment = self.segments[sub_sector.start];
            let ghost before = self.sectors@;
            if segment.linedef != 0xffff {
                let linedef = self.linedefs[segment.linedef];
                let sidedef = if segment.side == 0 {
                    match linedef.front_sidedef {
                        Some(s) => s,
                        None => {
                            let err = Error::FrontSideMismatch { side: segment.side };
                            assert(m.first_sub_sector_error(i as nat) == Some(err));
                            proof {
                                self.lemma_sorted_upto_at(m, i as int);
                            }
                            return Err(err);
                        },
                    }
                } else if segment.side == 1 {
                    match linedef.back_sidedef {
                        Some(s) => s,
                        None => {
                            let err = Error::BackSideMismatch { side: segment.side };
                            assert(m.first_sub_sector_error(i as nat) == Some(err));
                            proof {
                                self.lemma_sorted_upto_at(m, i as int);
                            }
                            return Err(err);
                        },
                    }
                } else {
                    let err = Error::UnknownSide { side: segment.side };
                    assert(m.first_sub_sector_error(i as nat) == Some(err));
                    proof {
                        self.lemma_sorted_upto_at(m, i as int);
                    }
                    return Err(err);
                };
                let k = self.sidedefs[sidedef].sector;
                self.sectors[k].sub_sectors.push(sub_sector);
            }
            proof {
                assert forall|k: int| 0 <= k < m.sectors.len() implies #[trigger] self.sectors@[k]@ == (SectorView {
                    lines: m.sectors[k].lines + m.lines_of_sector(k),
                    sub_sectors: m.sectors[k].sub_sectors + sub_sectors_in_sector(
                        m.segments,
                        m.linedefs,
                        m.sidedefs,
                        m.sub_sectors.take(i + 1),
                        k,
                    ),
                    ..m.sectors[k]
                }) by {
                    lemma_sub_sectors_in_sector_step(m.segments, m.linedefs, m.sidedefs, m.sub_sectors, i as int, k);
                    assert(before[k]@ == (SectorView {
                        lines: m.sectors[k].lines + m.lines_of_sector(k),
                        sub_sectors: m.sectors[k].sub_sectors + sub_sectors_in_sector(
                            m.segments,
                            m.linedefs,
                            m.sidedefs,
                            m.sub_sectors.take(i as int),
                            k,
                        ),
                        ..m.sectors[k]
                    }));
                    if m.sub_sector_sector(m.sub_sectors[i as int]) == Ok::<Option<int>, Error>(Some(k)) {
                        assert(self.sectors@[k]@.sub_sectors =~= m.sectors[k].sub_sectors + sub_sectors_in_sector(
                            m.segments,
                            m.linedefs,
                            m.sidedefs,
                            m.sub_sectors.take(i + 1),
                            k,
                        ));
                    } else {
                        assert(self.sectors@[k] == before[k]);
                    }
                }
                assert(m.first_sub_sector_error(i as nat) == m.first_sub_sector_error((i + 1) as nat));
            }
            i = i + 1;
        }
        assert(m.sub_sectors.take(m.sub_sectors.len() as int) =~= m.sub_sectors);
        assert(self@.sectors =~= m.sorted().sectors);
        Ok(())
    }
}


impl WadMap {
    fn line_sector_ok(&self, l: Linedef) -> (r: bool)
        ensures
            r == line_sector_fits(self@.sidedefs, self@.sectors.len() as int, l),
    {
        let side = match l.front_sidedef {
            Some(s) => Some(s),
            None => l.back_sidedef,
        };
        match side {
            Some(s) => s < self.sidedefs.len() && self.sidedefs[s].sector < self.sectors.len(),
            None => true,
        }
    }

    /// Whether finding the sector of `ss` stays inside the map's tables, and
    /// if so, whether that sector is found without error.
    fn sub_sector_ok(&self, ss: SubSector) -> (r: (bool, bool))
        ensures
            r.0 == sub_sector_fits(self@, ss),
            r.0 ==> (r.1 == self@.sub_sector_sector(ss) is Ok),
    {
        if ss.start >= self.segments.len() {
            return (false, false);
        }
        let seg = self.segments[ss.start];
        if seg.linedef == 0xffff {
            return (true, true);
        }
        if seg.linedef >= self.linedefs.len() {
            return (false, false);
        }
        let l = self.linedefs[seg.linedef];
        let side = if seg.side == 0 {
            l.front_sidedef
        } else if seg.side == 1 {
            l.back_sidedef
        } else {
            None
        };
        match side {
            Some(s) => (s < self.sidedefs.len() && self.sidedefs[s].sector < self.sectors.len(), true),
            None => (true, false),
        }
    }

    /// Whether giving lines and subsectors to their sectors reads only
    /// inside the map's tables.
    fn can_sort(&self) -> (r: bool)
        ensures
            r == self@.sort_fits(),
    {
        let ghost m = self@;
        let mut j: usize = 0;
        while j < self.linedefs.len()
            invariant
                m == self@,
                j <= m.linedefs.len(),
                forall|k: int| 0 <= k < j ==> line_sector_fits(m.sidedefs, m.sectors.len() as int, #[trigger] m.linedefs[k]),
            decreases m.linedefs.len() - j,
        {
            if !self.line_sector_ok(self.linedefs[j]) {
                return false;
            }
            j = j + 1;
        }
        let mut i: usize = 0;
        while i < self.sub_sectors.len()
            invariant
                m == self@,
                i <= m.sub_sectors.len(),
                forall|k: int| 0 <= k < m.linedefs.len() ==> line_sector_fits(m.sidedefs, m.sectors.len() as int, #[trigger] m.linedefs[k]),
                m.sub_sectors_fit_from(0) == m.sub_sectors_fit_from(i as nat),
            decreases m.sub_sectors.len() - i,
        {
            let (fits, found) = self.sub_sector_ok(self.sub_sectors[i]);
            if !fits {
                return false;
            }
            if !found {
                return true;
            }
            i = i + 1;
        }
        true
    }

    /// Whether reading the map named `map_name` stays inside the file and
    /// inside the map's tables, so that `parse_from_wad` may read it.
    pub fn can_parse(wad: &Wad, map_name: &str) -> (r: bool)
        ensures
            r == wad@.map_fits(map_name.spec_bytes()),
    {
        if !wad.can_find(map_name) {
            return false;
        }
        let i = match wad.find_dir(map_name) {
            Ok(i) => i,
            Err(_) => return true,
        };
        proof {
            use_type_invariant(wad);
        }
        if !wad.can_read_lump(i + 4) {
            return false;
        }
        if wad.read_dir(i + 4).is_err() {
            return true;
        }
        if !wad.can_read_lump(i + 12) {
            return false;
        }
        let gd = match wad.read_dir(i + 12) {
            Ok(d) => d,
            Err(_) => return true,
        };
        if gd.len() < 4 || !wad.can_read_lump(i + 2) {
            return false;
        }
        let mut linedefs: Vec<Linedef> = Vec::new();
        if load_linedefs(wad, i, &mut linedefs).is_err() {
            return true;
        }
        if !wad.can_read_lump(i + 3) {
            return false;
        }
        let mut sidedefs: Vec<Sidedef> = Vec::new();
        if load_sidedefs(wad, i, &mut sidedefs).is_err() {
            return true;
        }
        if !wad.can_read_lump(i + 8) {
            return false;
        }
        let sectors = match load_sectors(wad, i) {
            Ok(v) => v,
            Err(_) => return true,
        };
        if !wad.can_read_lump(i + 14) {
            return false;
        }
        let sub_sectors = match load_subsectors(wad, i) {
            Ok(v) => v,
            Err(_) => return true,
        };
        if !wad.can_read_lump(i + 13) {
            return false;
        }
        let segments = match load_segments(wad, i) {
            Ok(v) => v,
            Err(_) => return true,
        };
        let (vertices, gl_vertices) = match load_vertices(wad, i) {
            Ok(v) => v,
            Err(_) => {
                assert(false);
                return true;
            },
        };
        let m = WadMap { vertices, gl_vertices, linedefs, sidedefs, sectors, segments, sub_sectors };
        assert(m@ == wad@.map_lumps(i as int).unwrap());
        m.can_sort()
    }
}

/// A search from entry `i` on finds an entry from `i` on, inside the directory.
pub proof fn lemma_find_from_in_range(w: WadView, name: Seq<u8>, i: nat)
    requires
        w.num_dirs <= i32::MAX,
    ensures
        w.find_from(name, i) matches Ok(j) ==> i <= j < w.num_dirs,
    decreases w.num_dirs - i,
{
    if i < w.num_dirs {
        lemma_find_from_in_range(w, name, i + 1);
    }
}

impl WadMap {
    /// Reads the map whose marker entry is named `map_name`, and gives each
    /// sector its linedefs and subsectors.
    pub fn parse_from_wad(wad: &Wad, map_name: &str) -> (res: Result<Self, Error>)
        requires
            wad@.map_fits(map_name.spec_bytes()),
        ensures
            match wad@.map(map_name.spec_bytes()) {
                Ok(m) => res matches Ok(r) && r@ == m,
                Err(e) => res matches Err(f) && f == e,
            },
    {
        let map_index = match wad.find_dir(map_name) {
            Ok(i) => i,
            Err(e) => return Err(e),
        };
        proof {
            use_type_invariant(wad);
            lemma_find_from_in_range(wad@, map_name.spec_bytes(), 0);
        }
        let (vertices, gl_vertices) = match load_vertices(wad, map_index) {
            Ok(v) => v,
            Err(e) => return Err(e),
        };
        let mut linedefs: Vec<Linedef> = Vec::new();
        if let Err(e) = load_linedefs(wad, map_index, &mut linedefs) {
            return Err(e);
        }
        let mut sidedefs: Vec<Sidedef> = Vec::new();
        if let Err(e) = load_sidedefs(wad, map_index, &mut sidedefs) {
            return Err(e);
        }
        let sectors = match load_sectors(wad, map_index) {
            Ok(v) => v,
            Err(e) => return Err(e),
        };
        let sub_sectors = match load_subsectors(wad, map_index) {
            Ok(v) => v,
            Err(e) => return Err(e),
        };
        let segments = match load_segments(wad, map_index) {
            Ok(v) => v,
            Err(e) => return Err(e),
        };
        let mut res = WadMap { vertices, gl_vertices, linedefs, sidedefs, sectors, segments, sub_sectors };
        assert(res@ == wad@.map_lumps(map_index as int).unwrap());
        match res.sort_subsectors() {
            Ok(()) => Ok(res),
            Err(e) => Err(e),
        }
    }

    /// The vertex that a vertex reference names.
    pub fn vertex(&self, index: usize) -> (r: Vertex)
        requires
            self@.vertex_ref_fits(index),
        ensures
            r == self@.vertex(index),
    {
        if index & VERT_IS_GL == VERT_IS_GL {
            self.gl_vertices[index & !VERT_IS_GL]
        } else {
            self.vertices[index]
        }
    }
}

} // verus!
