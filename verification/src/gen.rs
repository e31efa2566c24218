//! What a sector's geometry is made of: the outlines of its floor and
//! ceiling, and the wall quads along its segments, with the textures they
//! use. The geometry itself is computed from these in floating point.

use vstd::prelude::*;
use vstd::utf8::*;
use crate::binary::{name_part, utf8_to_string, name_end};
use crate::texture::{Texture, TextureLoader, TextureQueue, TextureView, name_index, loader_wf, enqueued};
use crate::wad::{
    WadMap, MapView, Sector, SectorView, Segment, SubSector, Vertex, LINEDEF_FLAG_TWO_SIDED, VERT_IS_GL,
    LINEDEF_FLAG_LOWER_TEXTURE_UNPEGGED, LINEDEF_FLAG_UPPER_TEXTURE_UNPEGGED,
};

verus! {

pub struct Context {
    pub texture_loader: TextureLoader,
    pub texture_queue: TextureQueue,
}

/// The loader id of the texture named in the NUL-padded field `name`.
pub open spec fn texture_id_of(ts: Seq<(Seq<char>, TextureView)>, name: Seq<u8>) -> Option<usize> {
    match name_index(ts, decode_utf8(name_part(name))) {
        Some(j) => Some(j as usize),
        None => None,
    }
}

/// The queue after one texture lookup: a texture found is enqueued.
pub open spec fn queue_step(q: Seq<usize>, r: Option<usize>) -> Seq<usize> {
    match r {
        Some(id) => enqueued(q, id),
        None => q,
    }
}

/// The queue after the texture lookups `rs`, in order.
pub open spec fn queue_after(q: Seq<usize>, rs: Seq<Option<usize>>) -> Seq<usize>
    decreases rs.len(),
{
    if rs.len() == 0 {
        q
    } else {
        queue_step(queue_after(q, rs.drop_last()), rs.last())
    }
}

/// Looking textures up in two runs queues what one run of both would.
pub proof fn lemma_queue_after_concat(q: Seq<usize>, a: Seq<Option<usize>>, b: Seq<Option<usize>>)
    ensures
        queue_after(q, a + b) == queue_after(queue_after(q, a), b),
    decreases b.len(),
{
    if b.len() == 0 {
        assert(a + b =~= a);
    } else {
        assert((a + b).drop_last() =~= a + b.drop_last());
        lemma_queue_after_concat(q, a, b.drop_last());
    }
}

impl Context {
    pub fn new(texture_loader: TextureLoader, texture_queue: TextureQueue) -> (r: Self)
        ensures
            r.texture_loader@ == texture_loader@,
            r.texture_queue@ == texture_queue@,
    {
        Self { texture_loader, texture_queue }
    }

    /// Finds the texture named in `texture_name` and queues it for the map.
    pub fn queue_texture(&mut self, texture_name: [u8; 8]) -> (r: Option<usize>)
        requires
            valid_utf8(name_part(texture_name@)),
        ensures
            r == texture_id_of(old(self).texture_loader@.textures, texture_name@),
            final(self).texture_loader@ == old(self).texture_loader@,
            final(self).texture_queue@ == queue_step(old(self).texture_queue@, r),
    {
        let len = name_end(&texture_name);
        let bytes: &[u8] = &texture_name[0..len];
        let name = match utf8_to_string(bytes) {
            Some(s) => s,
            None => {
                assert(false);
                return None;
            },
        };
        match self.texture_loader.load_from_name(name.as_str()) {
            Some((id, _)) => {
                self.texture_queue.enqueue(id);
                Some(id)
            },
            None => None,
        }
    }

    /// The loaded texture of id `texture_id`.
    pub fn get_texture_from_id(&self, texture_id: usize) -> (r: Option<&Texture>)
        ensures
            texture_id < self.texture_loader@.textures.len() ==> (r matches Some(t) && t@
                == self.texture_loader@.textures[texture_id as int].1),
            texture_id >= self.texture_loader@.textures.len() ==> r is None,
    {
        self.texture_loader.load_from_id(texture_id)
    }
}


// ---------------------------------------------------------------------------
// Floors and ceilings.

/// Segment `j` of a subsector.
pub open spec fn segment_at(m: MapView, ss: SubSector, j: int) -> Segment {
    m.segments[ss.start + j]
}

/// The outline of a subsector: the start vertex of each of its segments, in order.
pub open spec fn sub_sector_outline(m: MapView, ss: SubSector) -> Seq<Vertex> {
    Seq::new(ss.count as nat, |j: int| m.vertex(segment_at(m, ss, j).start_vertex))
}

/// The subsector's segments and their start vertices lie inside the map's tables.
pub open spec fn outline_fits(m: MapView, ss: SubSector) -> bool {
    forall|j: int|
        0 <= j < ss.count ==> {
            &&& ss.start + j < m.segments.len()
            &&& m.vertex_ref_fits(#[trigger] segment_at(m, ss, j).start_vertex)
        }
}

/// The floor (or ceiling) of a sector: the texture it shows, and one convex
/// outline per subsector.
pub struct FlatPlan {
    pub texture_id: usize,
    pub polygons: Vec<Vec<Vertex>>,
}

pub open spec fn flat_texture_name(sector: SectorView, ceiling: bool) -> Seq<u8> {
    if ceiling {
        sector.ceiling_texture_name
    } else {
        sector.floor_texture_name
    }
}

/// Finding the texture of a sector's floor (or ceiling), and the outlines
/// of its subsectors, succeeds.
pub open spec fn flat_plan_fits(ts: Seq<(Seq<char>, TextureView)>, m: MapView, sector: SectorView, ceiling: bool) -> bool {
    &&& valid_utf8(name_part(flat_texture_name(sector, ceiling)))
    &&& texture_id_of(ts, flat_texture_name(sector, ceiling)) is Some
    &&& forall|i: int| 0 <= i < sector.sub_sectors.len() ==> outline_fits(m, #[trigger] sector.sub_sectors[i])
}

spec fn m_vertex_fits_hint(m: MapView, ss: SubSector, j: int) -> bool {
    m.vertex_ref_fits(segment_at(m, ss, j).start_vertex) && ss.start + j < m.segments.len()
}

fn outline(wad_map: &WadMap, ss: SubSector) -> (r: Vec<Vertex>)
    requires
        outline_fits(wad_map@, ss),
    ensures
        r@ == sub_sector_outline(wad_map@, ss),
{
    let mut verts: Vec<Vertex> = Vec::new();
    let mut j: usize = 0;
    while j < ss.count
        invariant
            outline_fits(wad_map@, ss),
            j <= ss.count,
            verts@ == sub_sector_outline(wad_map@, ss).take(j as int),
        decreases ss.count - j,
    {
        assert(m_vertex_fits_hint(wad_map@, ss, j as int));
        assert(ss.start + j < wad_map.segments.len());
        let segment = wad_map.segments[ss.start + j];
        verts.push(wad_map.vertex(segment.start_vertex));
        j = j + 1;
        assert(verts@ =~= sub_sector_outline(wad_map@, ss).take(j as int));
    }
    assert(sub_sector_outline(wad_map@, ss).take(j as int) =~= sub_sector_outline(wad_map@, ss));
    verts
}

/// Plans a sector's floor, or its ceiling: queues its texture and gives the
/// outline of each of its subsectors.
pub fn plan_flat(context: &mut Context, wad_map: &WadMap, wad_sector: &Sector, ceiling: bool) -> (r: FlatPlan)
    requires
        flat_plan_fits(old(context).texture_loader@.textures, wad_map@, wad_sector@, ceiling),
    ensures
        Some(r.texture_id) == texture_id_of(old(context).texture_loader@.textures, flat_texture_name(wad_sector@, ceiling)),
        r.polygons@.map_values(|v: Vec<Vertex>| v@) == Seq::new(
            wad_sector@.sub_sectors.len(),
            |i: int| sub_sector_outline(wad_map@, wad_sector@.sub_sectors[i]),
        ),
        final(context).texture_loader@ == old(context).texture_loader@,
        final(context).texture_queue@ == enqueued(old(context).texture_queue@, r.texture_id),
{
    let name = if ceiling {
        wad_sector.ceiling_texture_name
    } else {
        wad_sector.floor_texture_name
    };
    let texture_id = match context.queue_texture(name) {
        Some(id) => id,
        None => {
            assert(false);
            0
        },
    };
    let mut polygons: Vec<Vec<Vertex>> = Vec::new();
    let mut i: usize = 0;
    while i < wad_sector.sub_sectors.len()
        invariant
            i <= wad_sector@.sub_sectors.len(),
            forall|k: int| 0 <= k < wad_sector@.sub_sectors.len() ==> outline_fits(wad_map@, #[trigger] wad_sector@.sub_sectors[k]),
            polygons@.map_values(|v: Vec<Vertex>| v@) == Seq::new(
                i as nat,
                |k: int| sub_sector_outline(wad_map@, wad_sector@.sub_sectors[k]),
            ),
        decreases wad_sector@.sub_sectors.len() - i,
    {
        let ss = wad_sector.sub_sectors[i];
        assert(outline_fits(wad_map@, wad_sector@.sub_sectors[i as int]));
        let ghost before = polygons@.map_values(|v: Vec<Vertex>| v@);
        let poly = outline(wad_map, ss);
        polygons.push(poly);
        assert(polygons@.map_values(|v: Vec<Vertex>| v@) =~= before.push(poly@));
        i = i + 1;
        assert(polygons@.map_values(|v: Vec<Vertex>| v@) =~= Seq::new(
            i as nat,
            |k: int| sub_sector_outline(wad_map@, wad_sector@.sub_sectors[k]),
        ));
    }
    FlatPlan { texture_id, polygons }
}


// ---------------------------------------------------------------------------
// Walls.

/// A wall quad before its geometry: the texture it shows, the line it
/// stands on, its bottom and top heights, the texture's offsets, and
/// whether the texture is pegged to the quad's bottom.
#[derive(Copy, Clone, Debug)]
pub struct WallQuad {
    pub texture_id: usize,
    pub start: Vertex,
    pub end: Vertex,
    pub bottom: i16,
    pub top: i16,
    pub x_offset: i32,
    pub y_offset: i32,
    pub lower_peg: bool,
}

/// A step between two floors low enough to walk: the line, the floor
/// heights in front and behind, and the height of the step.
#[derive(Copy, Clone, Debug)]
pub struct SlopeQuad {
    pub start: Vertex,
    pub end: Vertex,
    pub front: i16,
    pub back: i16,
    pub height: i32,
}

/// What one segment adds: wall quads, step quads, and the texture lookups made.
pub struct SegmentPlan {
    pub walls: Seq<WallQuad>,
    pub slopes: Seq<SlopeQuad>,
    pub lookups: Seq<Option<usize>>,
}

pub open spec fn has_flag(flags: usize, flag: usize) -> bool {
    flags & flag == flag
}

pub open spec fn id_or_missing(r: Option<usize>) -> usize {
    match r {
        Some(id) => id,
        None => 0,
    }
}

pub open spec fn abs_diff(a: i16, b: i16) -> int {
    if a >= b {
        a - b
    } else {
        b - a
    }
}

/// The walls of a two-sided linedef: a lower wall where the floors differ
/// (and a step quad where they differ by at most 24), an upper wall where
/// the ceilings differ; both show textures of the front side.
pub open spec fn two_sided_plan(
    ts: Seq<(Seq<char>, TextureView)>,
    m: MapView,
    flags: usize,
    front: usize,
    back: usize,
    start: Vertex,
    end: Vertex,
) -> SegmentPlan {
    let fsd = m.sidedefs[front as int];
    let bsd = m.sidedefs[back as int];
    let fs = m.sectors[fsd.sector as int];
    let bs = m.sectors[bsd.sector as int];
    let floor_differs = fs.floor_height != bs.floor_height;
    let ceiling_differs = fs.ceiling_height != bs.ceiling_height;
    let lower_id = texture_id_of(ts, fsd.lower_texture_name@);
    let upper_id = texture_id_of(ts, fsd.upper_texture_name@);
    let lower_y = if has_flag(flags, LINEDEF_FLAG_LOWER_TEXTURE_UNPEGGED) {
        fsd.y_offset + fs.ceiling_height - bs.floor_height
    } else {
        fsd.y_offset as int
    };
    SegmentPlan {
        walls: (if floor_differs {
            seq![
                WallQuad {
                    texture_id: id_or_missing(lower_id),
                    start,
                    end,
                    bottom: fs.floor_height,
                    top: bs.floor_height,
                    x_offset: fsd.x_offset as i32,
                    y_offset: lower_y as i32,
                    lower_peg: false,
                },
            ]
        } else {
            Seq::empty()
        }) + (if ceiling_differs {
            seq![
                WallQuad {
                    texture_id: id_or_missing(upper_id),
                    start,
                    end,
                    bottom: bs.ceiling_height,
                    top: fs.ceiling_height,
                    x_offset: fsd.x_offset as i32,
                    y_offset: fsd.y_offset as i32,
                    lower_peg: !has_flag(flags, LINEDEF_FLAG_UPPER_TEXTURE_UNPEGGED),
                },
            ]
        } else {
            Seq::empty()
        }),
        slopes: if floor_differs && abs_diff(fs.floor_height, bs.floor_height) <= 24 {
            seq![
                SlopeQuad {
                    start,
                    end,
                    front: fs.floor_height,
                    back: bs.floor_height,
                    height: abs_diff(fs.floor_height, bs.floor_height) as i32,
                },
            ]
        } else {
            Seq::empty()
        },
        lookups: (if floor_differs {
            seq![lower_id]
        } else {
            Seq::empty()
        }) + (if ceiling_differs {
            seq![upper_id]
        } else {
            Seq::empty()
        }),
    }
}

/// What a segment on linedef `l` adds: a middle wall for a linedef that is
/// not two-sided and has a front side, then the walls of a linedef with two
/// sides. A segment on no linedef adds nothing.
pub open spec fn segment_plan(ts: Seq<(Seq<char>, TextureView)>, m: MapView, sector: SectorView, seg: Segment) -> SegmentPlan {
    if seg.linedef == 0xffff {
        SegmentPlan { walls: Seq::empty(), slopes: Seq::empty(), lookups: Seq::empty() }
    } else {
        let l = m.linedefs[seg.linedef as int];
        let start = m.vertex(l.line.start_vertex);
        let end = m.vertex(l.line.end_vertex);
        let middle = if !has_flag(l.flags, LINEDEF_FLAG_TWO_SIDED) && l.front_sidedef is Some {
            let sd = m.sidedefs[l.front_sidedef.unwrap() as int];
            let id = texture_id_of(ts, sd.middle_texture_name@);
            SegmentPlan {
                walls: seq![
                    WallQuad {
                        texture_id: id.unwrap(),
                        start,
                        end,
                        bottom: sector.floor_height,
                        top: sector.ceiling_height,
                        x_offset: sd.x_offset as i32,
                        y_offset: sd.y_offset as i32,
                        lower_peg: has_flag(l.flags, LINEDEF_FLAG_LOWER_TEXTURE_UNPEGGED),
                    },
                ],
                slopes: Seq::empty(),
                lookups: seq![id],
            }
        } else {
            SegmentPlan { walls: Seq::empty(), slopes: Seq::empty(), lookups: Seq::empty() }
        };
        if l.front_sidedef is Some && l.back_sidedef is Some {
            let two = two_sided_plan(ts, m, l.flags, l.front_sidedef.unwrap(), l.back_sidedef.unwrap(), start, end);
            SegmentPlan {
                walls: middle.walls + two.walls,
                slopes: two.slopes,
                lookups: middle.lookups + two.lookups,
            }
        } else {
            middle
        }
    }
}

/// Planning the walls of a segment reads only inside the map's tables,
/// reads only UTF-8 texture names, and finds every middle texture.
pub open spec fn segment_plan_fits(ts: Seq<(Seq<char>, TextureView)>, m: MapView, seg: Segment) -> bool {
    seg.linedef != 0xffff ==> {
        &&& seg.linedef < m.linedefs.len()
        &&& {
            let l = m.linedefs[seg.linedef as int];
            &&& m.vertex_ref_fits(l.line.start_vertex)
            &&& m.vertex_ref_fits(l.line.end_vertex)
            &&& (!has_flag(l.flags, LINEDEF_FLAG_TWO_SIDED) && l.front_sidedef is Some) ==> {
                &&& l.front_sidedef.unwrap() < m.sidedefs.len()
                &&& valid_utf8(name_part(m.sidedefs[l.front_sidedef.unwrap() as int].middle_texture_name@))
                &&& texture_id_of(ts, m.sidedefs[l.front_sidedef.unwrap() as int].middle_texture_name@) is Some
            }
            &&& (l.front_sidedef is Some && l.back_sidedef is Some) ==> {
                let fsd = m.sidedefs[l.front_sidedef.unwrap() as int];
                let bsd = m.sidedefs[l.back_sidedef.unwrap() as int];
                &&& l.front_sidedef.unwrap() < m.sidedefs.len()
                &&& l.back_sidedef.unwrap() < m.sidedefs.len()
                &&& fsd.sector < m.sectors.len()
                &&& bsd.sector < m.sectors.len()
                &&& m.sectors[fsd.sector as int].floor_height != m.sectors[bsd.sector as int].floor_height
                    ==> valid_utf8(name_part(fsd.lower_texture_name@))
                &&& m.sectors[fsd.sector as int].ceiling_height != m.sectors[bsd.sector as int].ceiling_height
                    ==> valid_utf8(name_part(fsd.upper_texture_name@))
            }
        }
    }
}

/// The segments of the subsectors `subs`, in order.
pub open spec fn segments_of(m: MapView, subs: Seq<SubSector>) -> Seq<Segment>
    decreases subs.len(),
{
    if subs.len() == 0 {
        Seq::empty()
    } else {
        segments_of(m, subs.drop_last()) + Seq::new(subs.last().count as nat, |j: int| segment_at(m, subs.last(), j))
    }
}

/// The plans of the segments `segs`, joined in order.
pub open spec fn segments_plan(ts: Seq<(Seq<char>, TextureView)>, m: MapView, sector: SectorView, segs: Seq<Segment>) -> SegmentPlan
    decreases segs.len(),
{
    if segs.len() == 0 {
        SegmentPlan { walls: Seq::empty(), slopes: Seq::empty(), lookups: Seq::empty() }
    } else {
        let prev = segments_plan(ts, m, sector, segs.drop_last());
        let last = segment_plan(ts, m, sector, segs.last());
        SegmentPlan {
            walls: prev.walls + last.walls,
            slopes: prev.slopes + last.slopes,
            lookups: prev.lookups + last.lookups,
        }
    }
}

/// Planning the walls of every segment of the subsector succeeds.
pub open spec fn sub_sector_walls_fit(ts: Seq<(Seq<char>, TextureView)>, m: MapView, ss: SubSector) -> bool {
    forall|j: int|
        0 <= j < ss.count ==> {
            &&& ss.start + j < m.segments.len()
            &&& segment_plan_fits(ts, m, #[trigger] segment_at(m, ss, j))
        }
}

/// Planning the walls of every segment of the sector succeeds.
pub open spec fn walls_plan_fits(ts: Seq<(Seq<char>, TextureView)>, m: MapView, sector: SectorView) -> bool {
    &&& ts.len() > 0
    &&& forall|i: int| 0 <= i < sector.sub_sectors.len() ==> sub_sector_walls_fit(ts, m, #[trigger] sector.sub_sectors[i])
}

fn two_sided_walls(
    context: &mut Context,
    wad_map: &WadMap,
    flags: usize,
    front: usize,
    back: usize,
    start: Vertex,
    end: Vertex,
    walls: &mut Vec<WallQuad>,
    slopes: &mut Vec<SlopeQuad>,
)
    requires
        front < wad_map@.sidedefs.len(),
        back < wad_map@.sidedefs.len(),
        ({
            let m = wad_map@;
            let fsd = m.sidedefs[front as int];
            let bsd = m.sidedefs[back as int];
            &&& fsd.sector < m.sectors.len()
            &&& bsd.sector < m.sectors.len()
            &&& m.sectors[fsd.sector as int].floor_height != m.sectors[bsd.sector as int].floor_height
                ==> valid_utf8(name_part(fsd.lower_texture_name@))
            &&& m.sectors[fsd.sector as int].ceiling_height != m.sectors[bsd.sector as int].ceiling_height
                ==> valid_utf8(name_part(fsd.upper_texture_name@))
        }),
    ensures
        ({
            let p = two_sided_plan(old(context).texture_loader@.textures, wad_map@, flags, front, back, start, end);
            &&& final(walls)@ == old(walls)@ + p.walls
            &&& final(slopes)@ == old(slopes)@ + p.slopes
            &&& final(context).texture_loader@ == old(context).texture_loader@
            &&& final(context).texture_queue@ == queue_after(old(context).texture_queue@, p.lookups)
        }),
{
    let ghost p = two_sided_plan(context.texture_loader@.textures, wad_map@, flags, front, back, start, end);
    let ghost q0 = context.texture_queue@;
    let front_sidedef = wad_map.sidedefs[front];
    let back_sidedef = wad_map.sidedefs[back];
    let front_sector = &wad_map.sectors[front_sidedef.sector];
    let back_sector = &wad_map.sectors[back_sidedef.sector];
    assert(front_sector@ == wad_map@.sectors[front_sidedef.sector as int]);
    assert(back_sector@ == wad_map@.sectors[back_sidedef.sector as int]);
    let ghost lower_lookups: Seq<Option<usize>> = Seq::empty();
    if front_sector.floor_height != back_sector.floor_height {
        let f = front_sector.floor_height;
        let b = back_sector.floor_height;
        let height: i32 = if f >= b {
            f as i32 - b as i32
        } else {
            b as i32 - f as i32
        };
        if height <= 24 {
            slopes.push(SlopeQuad { start, end, front: f, back: b, height });
        }
        let lower = context.queue_texture(front_sidedef.lower_texture_name);
        let texture_id = match lower {
            Some(id) => id,
            None => 0,
        };
        let y_offset: i32 = if flags & LINEDEF_FLAG_LOWER_TEXTURE_UNPEGGED == LINEDEF_FLAG_LOWER_TEXTURE_UNPEGGED {
            front_sidedef.y_offset as i32 + (front_sector.ceiling_height as i32 - back_sector.floor_height as i32)
        } else {
            front_sidedef.y_offset as i32
        };
        walls.push(
            WallQuad {
                texture_id,
                start,
                end,
                bottom: f,
                top: b,
                x_offset: front_sidedef.x_offset as i32,
                y_offset,
                lower_peg: false,
            },
        );
        proof {
            lower_lookups = seq![lower];
            assert(seq![lower].drop_last() =~= Seq::<Option<usize>>::empty());
            assert(queue_after(q0, Seq::<Option<usize>>::empty()) == q0);
            assert(queue_after(q0, seq![lower]) == queue_step(q0, lower));
        }
    }
    let ghost q1 = context.texture_queue@;
    assert(queue_after(q0, Seq::<Option<usize>>::empty()) == q0);
    assert(q1 == queue_after(q0, lower_lookups));
    let ghost upper_lookups: Seq<Option<usize>> = Seq::empty();
    if front_sector.ceiling_height != back_sector.ceiling_height {
        let upper = context.queue_texture(front_sidedef.upper_texture_name);
        let texture_id = match upper {
            Some(id) => id,
            None => 0,
        };
        walls.push(
            WallQuad {
                texture_id,
                start,
                end,
                bottom: back_sector.ceiling_height,
                top: front_sector.ceiling_height,
                x_offset: front_sidedef.x_offset as i32,
                y_offset: front_sidedef.y_offset as i32,
                lower_peg: !(flags & LINEDEF_FLAG_UPPER_TEXTURE_UNPEGGED == LINEDEF_FLAG_UPPER_TEXTURE_UNPEGGED),
            },
        );
        proof {
            upper_lookups = seq![upper];
            assert(seq![upper].drop_last() =~= Seq::<Option<usize>>::empty());
            assert(queue_after(q1, Seq::<Option<usize>>::empty()) == q1);
            assert(queue_after(q1, seq![upper]) == queue_step(q1, upper));
        }
    }
    assert(queue_after(q1, Seq::<Option<usize>>::empty()) == q1);
    assert(context.texture_queue@ == queue_after(q1, upper_lookups));
    proof {
        lemma_queue_after_concat(q0, lower_lookups, upper_lookups);
        assert(p.lookups =~= lower_lookups + upper_lookups);
    }
    assert(walls@ =~= old(walls)@ + p.walls);
    assert(slopes@ =~= old(slopes)@ + p.slopes);
}


fn plan_segment(
    context: &mut Context,
    wad_map: &WadMap,
    wad_sector: &Sector,
    segment: Segment,
    walls: &mut Vec<WallQuad>,
    slopes: &mut Vec<SlopeQuad>,
)
    requires
        segment_plan_fits(old(context).texture_loader@.textures, wad_map@, segment),
    ensures
        ({
            let p = segment_plan(old(context).texture_loader@.textures, wad_map@, wad_sector@, segment);
            &&& final(walls)@ == old(walls)@ + p.walls
            &&& final(slopes)@ == old(slopes)@ + p.slopes
            &&& final(context).texture_loader@ == old(context).texture_loader@
            &&& final(context).texture_queue@ == queue_after(old(context).texture_queue@, p.lookups)
        }),
{
    let ghost ts = context.texture_loader@.textures;
    let ghost q0 = context.texture_queue@;
    let ghost p = segment_plan(ts, wad_map@, wad_sector@, segment);
    assert(queue_after(q0, Seq::<Option<usize>>::empty()) == q0);
    if segment.linedef == 0xffff {
        assert(walls@ =~= old(walls)@ + p.walls);
        assert(slopes@ =~= old(slopes)@ + p.slopes);
        return;
    }
    let linedef = wad_map.linedefs[segment.linedef];
    let start = wad_map.vertex(linedef.line.start_vertex);
    let end = wad_map.vertex(linedef.line.end_vertex);
    let ghost middle_lookups: Seq<Option<usize>> = Seq::empty();
    if linedef.flags & LINEDEF_FLAG_TWO_SIDED != LINEDEF_FLAG_TWO_SIDED {
        if let Some(front) = linedef.front_sidedef {
            let sidedef = wad_map.sidedefs[front];
            let found = context.queue_texture(sidedef.middle_texture_name);
            let texture_id = match found {
                Some(id) => id,
                None => {
                    assert(false);
                    0
                },
            };
            walls.push(
                WallQuad {
                    texture_id,
                    start,
                    end,
                    bottom: wad_sector.floor_height,
                    top: wad_sector.ceiling_height,
                    x_offset: sidedef.x_offset as i32,
                    y_offset: sidedef.y_offset as i32,
                    lower_peg: linedef.flags & LINEDEF_FLAG_LOWER_TEXTURE_UNPEGGED
                        == LINEDEF_FLAG_LOWER_TEXTURE_UNPEGGED,
                },
            );
            proof {
                middle_lookups = seq![found];
                assert(seq![found].drop_last() =~= Seq::<Option<usize>>::empty());
                assert(queue_after(q0, seq![found]) == queue_step(q0, found));
            }
        }
    }
    let ghost q1 = context.texture_queue@;
    let ghost w1 = walls@;
    assert(q1 == queue_after(q0, middle_lookups));
    match (linedef.front_sidedef, linedef.back_sidedef) {
        (Some(front), Some(back)) => {
            two_sided_walls(context, wad_map, linedef.flags, front, back, start, end, walls, slopes);
            proof {
                let two = two_sided_plan(ts, wad_map@, linedef.flags, front, back, start, end);
                lemma_queue_after_concat(q0, middle_lookups, two.lookups);
            }
        },
        _ => {},
    }
    assert(walls@ =~= old(walls)@ + p.walls);
    assert(slopes@ =~= old(slopes)@ + p.slopes);
}

proof fn lemma_segments_plan_push(
    ts: Seq<(Seq<char>, TextureView)>,
    m: MapView,
    sector: SectorView,
    segs: Seq<Segment>,
    seg: Segment,
)
    ensures
        segments_plan(ts, m, sector, segs.push(seg)) == (SegmentPlan {
            walls: segments_plan(ts, m, sector, segs).walls + segment_plan(ts, m, sector, seg).walls,
            slopes: segments_plan(ts, m, sector, segs).slopes + segment_plan(ts, m, sector, seg).slopes,
            lookups: segments_plan(ts, m, sector, segs).lookups + segment_plan(ts, m, sector, seg).lookups,
        }),
{
    assert(segs.push(seg).drop_last() =~= segs);
}

/// Plans the walls of a sector: for each segment of each subsector, in
/// order, the quads of `segment_plan`; textures a wall asks for are queued,
/// and one that is not found gives way to the missing texture.
pub fn plan_walls(context: &mut Context, wad_map: &WadMap, wad_sector: &Sector) -> (r: (Vec<WallQuad>, Vec<SlopeQuad>))
    requires
        walls_plan_fits(old(context).texture_loader@.textures, wad_map@, wad_sector@),
    ensures
        ({
            let p = segments_plan(
                old(context).texture_loader@.textures,
                wad_map@,
                wad_sector@,
                segments_of(wad_map@, wad_sector@.sub_sectors),
            );
            &&& r.0@ == p.walls
            &&& r.1@ == p.slopes
            &&& final(context).texture_loader@ == old(context).texture_loader@
            &&& final(context).texture_queue@ == queue_after(old(context).texture_queue@, p.lookups)
        }),
{
    let ghost ts = context.texture_loader@.textures;
    let ghost q0 = context.texture_queue@;
    let ghost m = wad_map@;
    let ghost sec = wad_sector@;
    let ghost subs = wad_sector@.sub_sectors;
    let mut walls: Vec<WallQuad> = Vec::new();
    let mut slopes: Vec<SlopeQuad> = Vec::new();
    let mut i: usize = 0;
    assert(subs.take(0) =~= Seq::<SubSector>::empty());
    while i < wad_sector.sub_sectors.len()
        invariant
            ts == context.texture_loader@.textures,
            context.texture_loader@ == old(context).texture_loader@,
            q0 == old(context).texture_queue@,
            m == wad_map@,
            sec == wad_sector@,
            subs == sec.sub_sectors,
            walls_plan_fits(ts, m, sec),
            i <= subs.len(),
            ({
                let p = segments_plan(ts, m, sec, segments_of(m, subs.take(i as int)));
                &&& walls@ == p.walls
                &&& slopes@ == p.slopes
                &&& context.texture_queue@ == queue_after(q0, p.lookups)
            }),
        decreases subs.len() - i,
    {
        let ss = wad_sector.sub_sectors[i];
        let ghost done = segments_of(m, subs.take(i as int));
        let mut j: usize = 0;
        while j < ss.count
            invariant
                ts == context.texture_loader@.textures,
                context.texture_loader@ == old(context).texture_loader@,
                m == wad_map@,
                sec == wad_sector@,
                subs == sec.sub_sectors,
                walls_plan_fits(ts, m, sec),
                i < subs.len(),
                ss == subs[i as int],
                j <= ss.count,
                ({
                    let p = segments_plan(
                        ts,
                        m,
                        sec,
                        done + Seq::new(j as nat, |jj: int| segment_at(m, ss, jj)),
                    );
                    &&& walls@ == p.walls
                    &&& slopes@ == p.slopes
                    &&& context.texture_queue@ == queue_after(q0, p.lookups)
                }),
            decreases ss.count - j,
        {
            assert(segment_plan_fits(ts, m, segment_at(m, subs[i as int], j as int)));
            assert(ss.start + j < wad_map.segments.len());
            let segment = wad_map.segments[ss.start + j];
            let ghost segs = done + Seq::new(j as nat, |jj: int| segment_at(m, ss, jj));
            let ghost prev = segments_plan(ts, m, sec, segs);
            plan_segment(context, wad_map, wad_sector, segment, &mut walls, &mut slopes);
            proof {
                lemma_segments_plan_push(ts, m, sec, segs, segment);
                lemma_queue_after_concat(q0, prev.lookups, segment_plan(ts, m, sec, segment).lookups);
                assert(segs.push(segment) =~= done + Seq::new((j + 1) as nat, |jj: int| segment_at(m, ss, jj)));
            }
            j = j + 1;
        }
        proof {
            assert(subs.take(i + 1).drop_last() =~= subs.take(i as int));
            assert(subs.take(i + 1).last() == ss);
        }
        i = i + 1;
    }
    assert(subs.take(i as int) =~= subs);
    (walls, slopes)
}


// ---------------------------------------------------------------------------
// Whole sectors and whole maps.

/// Everything a sector's geometry is made from: its floor, its ceiling, its
/// wall quads and its step quads.
pub struct SectorPlan {
    pub floor: FlatPlan,
    pub ceiling: FlatPlan,
    pub walls: Vec<WallQuad>,
    pub slopes: Vec<SlopeQuad>,
}

/// `p` is the plan of the sector's floor (or ceiling).
pub open spec fn flat_plan_is(p: FlatPlan, ts: Seq<(Seq<char>, TextureView)>, m: MapView, sector: SectorView, ceiling: bool) -> bool {
    &&& Some(p.texture_id) == texture_id_of(ts, flat_texture_name(sector, ceiling))
    &&& p.polygons@.map_values(|v: Vec<Vertex>| v@) == Seq::new(
        sector.sub_sectors.len(),
        |i: int| sub_sector_outline(m, sector.sub_sectors[i]),
    )
}

/// `p` is the plan of the sector.
pub open spec fn sector_plan_is(p: SectorPlan, ts: Seq<(Seq<char>, TextureView)>, m: MapView, sector: SectorView) -> bool {
    let walls = segments_plan(ts, m, sector, segments_of(m, sector.sub_sectors));
    &&& flat_plan_is(p.floor, ts, m, sector, false)
    &&& flat_plan_is(p.ceiling, ts, m, sector, true)
    &&& p.walls@ == walls.walls
    &&& p.slopes@ == walls.slopes
}

/// The texture lookups planning a sector makes: floor, ceiling, then walls.
pub open spec fn sector_lookups(ts: Seq<(Seq<char>, TextureView)>, m: MapView, sector: SectorView) -> Seq<Option<usize>> {
    seq![
        texture_id_of(ts, flat_texture_name(sector, false)),
        texture_id_of(ts, flat_texture_name(sector, true)),
    ] + segments_plan(ts, m, sector, segments_of(m, sector.sub_sectors)).lookups
}

/// The texture lookups planning the sectors `sectors` makes, in order.
pub open spec fn map_lookups(ts: Seq<(Seq<char>, TextureView)>, m: MapView, sectors: Seq<SectorView>) -> Seq<Option<usize>>
    decreases sectors.len(),
{
    if sectors.len() == 0 {
        Seq::empty()
    } else {
        map_lookups(ts, m, sectors.drop_last()) + sector_lookups(ts, m, sectors.last())
    }
}

/// Every lookup made for one sector is among the lookups made for the map.
pub proof fn lemma_map_lookups_contains(
    ts: Seq<(Seq<char>, TextureView)>,
    m: MapView,
    sectors: Seq<SectorView>,
    i: int,
    k: int,
)
    requires
        0 <= i < sectors.len(),
        0 <= k < sector_lookups(ts, m, sectors[i]).len(),
    ensures
        map_lookups(ts, m, sectors).contains(sector_lookups(ts, m, sectors[i])[k]),
    decreases sectors.len(),
{
    let prev = map_lookups(ts, m, sectors.drop_last());
    let last = sector_lookups(ts, m, sectors.last());
    assert(map_lookups(ts, m, sectors) == prev + last);
    if i == sectors.len() - 1 {
        assert((prev + last)[prev.len() + k] == last[k]);
    } else {
        assert(sectors.drop_last()[i] == sectors[i]);
        lemma_map_lookups_contains(ts, m, sectors.drop_last(), i, k);
        let j = choose|j: int| 0 <= j < prev.len() && prev[j] == sector_lookups(ts, m, sectors[i])[k];
        assert((prev + last)[j] == prev[j]);
    }
}

/// Planning the sector succeeds: its floor and ceiling textures are found
/// and everything its walls read lies inside the map.
pub open spec fn sector_fits(ts: Seq<(Seq<char>, TextureView)>, m: MapView, sector: SectorView) -> bool {
    &&& flat_plan_fits(ts, m, sector, false)
    &&& flat_plan_fits(ts, m, sector, true)
    &&& walls_plan_fits(ts, m, sector)
}

/// Plans a sector: its floor, then its ceiling, then its walls.
pub fn plan_sector(context: &mut Context, wad_map: &WadMap, wad_sector: &Sector) -> (r: SectorPlan)
    requires
        sector_fits(old(context).texture_loader@.textures, wad_map@, wad_sector@),
    ensures
        sector_plan_is(r, old(context).texture_loader@.textures, wad_map@, wad_sector@),
        final(context).texture_loader@ == old(context).texture_loader@,
        final(context).texture_queue@ == queue_after(
            old(context).texture_queue@,
            sector_lookups(old(context).texture_loader@.textures, wad_map@, wad_sector@),
        ),
{
    let ghost ts = context.texture_loader@.textures;
    let ghost q0 = context.texture_queue@;
    let floor = plan_flat(context, wad_map, wad_sector, false);
    let ghost q1 = context.texture_queue@;
    let ceiling = plan_flat(context, wad_map, wad_sector, true);
    let ghost q2 = context.texture_queue@;
    let (walls, slopes) = plan_walls(context, wad_map, wad_sector);
    proof {
        let f = Some(floor.texture_id);
        let c = Some(ceiling.texture_id);
        let lookups = segments_plan(ts, wad_map@, wad_sector@, segments_of(wad_map@, wad_sector@.sub_sectors)).lookups;
        assert(seq![f].drop_last() =~= Seq::<Option<usize>>::empty());
        assert(seq![f, c].drop_last() =~= seq![f]);
        assert(queue_after(q0, Seq::<Option<usize>>::empty()) == q0);
        assert(seq![f].last() == f);
        assert(seq![f, c].last() == c);
        assert(queue_after(q0, seq![f]) == queue_step(q0, f));
        assert(queue_after(q0, seq![f]) == q1);
        assert(queue_after(q0, seq![f, c]) == q2);
        lemma_queue_after_concat(q0, seq![f, c], lookups);
        assert(sector_lookups(ts, wad_map@, wad_sector@) =~= seq![f, c] + lookups);
    }
    SectorPlan { floor, ceiling, walls, slopes }
}

/// Plans every sector of the map, in order.
pub fn plan_map(context: &mut Context, wad_map: &WadMap) -> (r: Vec<SectorPlan>)
    requires
        forall|i: int|
            0 <= i < wad_map@.sectors.len() ==> sector_fits(
                old(context).texture_loader@.textures,
                wad_map@,
                #[trigger] wad_map@.sectors[i],
            ),
    ensures
        r@.len() == wad_map@.sectors.len(),
        forall|i: int|
            0 <= i < r@.len() ==> sector_plan_is(
                #[trigger] r@[i],
                old(context).texture_loader@.textures,
                wad_map@,
                wad_map@.sectors[i],
            ),
        final(context).texture_loader@ == old(context).texture_loader@,
        final(context).texture_queue@ == queue_after(
            old(context).texture_queue@,
            map_lookups(old(context).texture_loader@.textures, wad_map@, wad_map@.sectors),
        ),
{
    let ghost ts = context.texture_loader@.textures;
    let ghost q0 = context.texture_queue@;
    let ghost m = wad_map@;
    let mut plans: Vec<SectorPlan> = Vec::new();
    let mut i: usize = 0;
    assert(m.sectors.take(0) =~= Seq::<SectorView>::empty());
    while i < wad_map.sectors.len()
        invariant
            m == wad_map@,
            ts == context.texture_loader@.textures,
            context.texture_loader@ == old(context).texture_loader@,
            q0 == old(context).texture_queue@,
            i <= m.sectors.len(),
            forall|k: int| 0 <= k < m.sectors.len() ==> sector_fits(ts, m, #[trigger] m.sectors[k]),
            plans@.len() == i,
            forall|k: int| 0 <= k < i ==> sector_plan_is(#[trigger] plans@[k], ts, m, m.sectors[k]),
            context.texture_queue@ == queue_after(q0, map_lookups(ts, m, m.sectors.take(i as int))),
        decreases m.sectors.len() - i,
    {
        let sector = &wad_map.sectors[i];
        assert(sector@ == m.sectors[i as int]);
        let ghost before = context.texture_queue@;
        let plan = plan_sector(context, wad_map, sector);
        plans.push(plan);
        proof {
            assert(m.sectors.take(i + 1).drop_last() =~= m.sectors.take(i as int));
            assert(m.sectors.take(i + 1).last() == m.sectors[i as int]);
            lemma_queue_after_concat(q0, map_lookups(ts, m, m.sectors.take(i as int)), sector_lookups(ts, m, m.sectors[i as int]));
            assert(plans@[i as int] == plan);
        }
        i = i + 1;
    }
    assert(m.sectors.take(i as int) =~= m.sectors);
    plans
}

// ---------------------------------------------------------------------------
// Checking that a map can be planned.

/// Whether the NUL-padded texture name is UTF-8.
fn name_is_utf8(name: [u8; 8]) -> (r: bool)
    ensures
        r == valid_utf8(name_part(name@)),
{
    let len = name_end(&name);
    let bytes: &[u8] = &name[0..len];
    assert(bytes@ == name_part(name@));
    utf8_to_string(bytes).is_some()
}

/// Whether the NUL-padded texture name is UTF-8 and names a loaded texture.
fn name_is_found(context: &Context, name: [u8; 8]) -> (r: bool)
    ensures
        r == (valid_utf8(name_part(name@)) && texture_id_of(context.texture_loader@.textures, name@) is Some),
{
    let len = name_end(&name);
    let bytes: &[u8] = &name[0..len];
    assert(bytes@ == name_part(name@));
    match utf8_to_string(bytes) {
        Some(s) => context.texture_loader.load_from_name(s.as_str()).is_some(),
        None => false,
    }
}

/// Whether vertex reference `index` lies inside the map's vertex tables.
fn vertex_ref_ok(wad_map: &WadMap, index: usize) -> (r: bool)
    ensures
        r == wad_map@.vertex_ref_fits(index),
{
    if index & VERT_IS_GL == VERT_IS_GL {
        (index & !VERT_IS_GL) < wad_map.gl_vertices.len()
    } else {
        index < wad_map.vertices.len()
    }
}

fn outline_ok(wad_map: &WadMap, ss: SubSector) -> (r: bool)
    ensures
        r == outline_fits(wad_map@, ss),
{
    let mut j: usize = 0;
    while j < ss.count
        invariant
            j <= ss.count,
            j > 0 ==> ss.start + j <= wad_map@.segments.len(),
            forall|k: int| 0 <= k < j ==> {
                &&& ss.start + k < wad_map@.segments.len()
                &&& wad_map@.vertex_ref_fits(#[trigger] segment_at(wad_map@, ss, k).start_vertex)
            },
        decreases ss.count - j,
    {
        if ss.start >= wad_map.segments.len() || j >= wad_map.segments.len() - ss.start {
            assert(!outline_fits(wad_map@, ss)) by {
                if outline_fits(wad_map@, ss) {
                    assert(wad_map@.vertex_ref_fits(segment_at(wad_map@, ss, j as int).start_vertex));
                }
            }
            return false;
        }
        let segment = wad_map.segments[ss.start + j];
        assert(segment == segment_at(wad_map@, ss, j as int));
        if !vertex_ref_ok(wad_map, segment.start_vertex) {
            assert(!outline_fits(wad_map@, ss)) by {
                if outline_fits(wad_map@, ss) {
                    assert(wad_map@.vertex_ref_fits(segment_at(wad_map@, ss, j as int).start_vertex));
                }
            }
            return false;
        }
        j = j + 1;
    }
    assert forall|k: int| 0 <= k < ss.count implies {
        &&& ss.start + k < wad_map@.segments.len()
        &&& wad_map@.vertex_ref_fits(#[trigger] segment_at(wad_map@, ss, k).start_vertex)
    } by {
        assert(j == ss.count);
        assert(k < j);
    }
    true
}

fn flat_ok(context: &Context, wad_map: &WadMap, wad_sector: &Sector, ceiling: bool) -> (r: bool)
    ensures
        r == flat_plan_fits(context.texture_loader@.textures, wad_map@, wad_sector@, ceiling),
{
    let name = if ceiling {
        wad_sector.ceiling_texture_name
    } else {
        wad_sector.floor_texture_name
    };
    assert(name@ == flat_texture_name(wad_sector@, ceiling));
    if !name_is_found(context, name) {
        return false;
    }
    let mut i: usize = 0;
    while i < wad_sector.sub_sectors.len()
        invariant
            i <= wad_sector@.sub_sectors.len(),
            forall|k: int| 0 <= k < i ==> outline_fits(wad_map@, #[trigger] wad_sector@.sub_sectors[k]),
        decreases wad_sector@.sub_sectors.len() - i,
    {
        if !outline_ok(wad_map, wad_sector.sub_sectors[i]) {
            return false;
        }
        i = i + 1;
    }
    true
}

fn segment_ok(context: &Context, wad_map: &WadMap, seg: Segment) -> (r: bool)
    ensures
        r == segment_plan_fits(context.texture_loader@.textures, wad_map@, seg),
{
    let ghost ts = context.texture_loader@.textures;
    let ghost m = wad_map@;
    if seg.linedef == 0xffff {
        return true;
    }
    if seg.linedef >= wad_map.linedefs.len() {
        return false;
    }
    let l = wad_map.linedefs[seg.linedef];
    if !vertex_ref_ok(wad_map, l.line.start_vertex) || !vertex_ref_ok(wad_map, l.line.end_vertex) {
        return false;
    }
    if l.flags & LINEDEF_FLAG_TWO_SIDED != LINEDEF_FLAG_TWO_SIDED {
        if let Some(front) = l.front_sidedef {
            if front >= wad_map.sidedefs.len() {
                return false;
            }
            if !name_is_found(context, wad_map.sidedefs[front].middle_texture_name) {
                return false;
            }
        }
    }
    match (l.front_sidedef, l.back_sidedef) {
        (Some(front), Some(back)) => {
            if front >= wad_map.sidedefs.len() || back >= wad_map.sidedefs.len() {
                return false;
            }
            let fsd = wad_map.sidedefs[front];
            let bsd = wad_map.sidedefs[back];
            if fsd.sector >= wad_map.sectors.len() || bsd.sector >= wad_map.sectors.len() {
                return false;
            }
            let fs = &wad_map.sectors[fsd.sector];
            let bs = &wad_map.sectors[bsd.sector];
            assert(fs@ == m.sectors[fsd.sector as int]);
            assert(bs@ == m.sectors[bsd.sector as int]);
            if fs.floor_height != bs.floor_height && !name_is_utf8(fsd.lower_texture_name) {
                return false;
            }
            if fs.ceiling_height != bs.ceiling_height && !name_is_utf8(fsd.upper_texture_name) {
                return false;
            }
            true
        },
        _ => true,
    }
}

fn walls_ok(context: &Context, wad_map: &WadMap, wad_sector: &Sector) -> (r: bool)
    ensures
        r == walls_plan_fits(context.texture_loader@.textures, wad_map@, wad_sector@),
{
    let ghost ts = context.texture_loader@.textures;
    let ghost m = wad_map@;
    let ghost subs = wad_sector@.sub_sectors;
    if context.texture_loader.get_name_from_id(0).is_none() {
        return false;
    }
    let mut i: usize = 0;
    while i < wad_sector.sub_sectors.len()
        invariant
            ts == context.texture_loader@.textures,
            m == wad_map@,
            subs == wad_sector@.sub_sectors,
            i <= subs.len(),
            forall|a: int| 0 <= a < i ==> sub_sector_walls_fit(ts, m, #[trigger] subs[a]),
        decreases subs.len() - i,
    {
        let ss = wad_sector.sub_sectors[i];
        if !sub_sector_walls_ok(context, wad_map, ss) {
            assert(!sub_sector_walls_fit(ts, m, subs[i as int]));
            return false;
        }
        i = i + 1;
    }
    true
}

fn sub_sector_walls_ok(context: &Context, wad_map: &WadMap, ss: SubSector) -> (r: bool)
    ensures
        r == sub_sector_walls_fit(context.texture_loader@.textures, wad_map@, ss),
{
    let ghost ts = context.texture_loader@.textures;
    let ghost m = wad_map@;
    let mut j: usize = 0;
    while j < ss.count
        invariant
            ts == context.texture_loader@.textures,
            m == wad_map@,
            j <= ss.count,
            j > 0 ==> ss.start + j <= m.segments.len(),
            forall|b: int| 0 <= b < j ==> segment_plan_fits(ts, m, #[trigger] segment_at(m, ss, b)),
        decreases ss.count - j,
    {
        if ss.start >= wad_map.segments.len() || j >= wad_map.segments.len() - ss.start {
            assert(!sub_sector_walls_fit(ts, m, ss)) by {
                if sub_sector_walls_fit(ts, m, ss) {
                    assert(segment_plan_fits(ts, m, segment_at(m, ss, j as int)));
                }
            }
            return false;
        }
        let segment = wad_map.segments[ss.start + j];
        assert(segment == segment_at(m, ss, j as int));
        if !segment_ok(context, wad_map, segment) {
            assert(!sub_sector_walls_fit(ts, m, ss)) by {
                if sub_sector_walls_fit(ts, m, ss) {
                    assert(segment_plan_fits(ts, m, segment_at(m, ss, j as int)));
                }
            }
            return false;
        }
        j = j + 1;
    }
    assert forall|b: int| 0 <= b < ss.count implies {
        &&& ss.start + b < m.segments.len()
        &&& segment_plan_fits(ts, m, #[trigger] segment_at(m, ss, b))
    } by {
        assert(b < j);
    }
    true
}

/// Whether every sector of the map can be planned: `plan_map` asks this of
/// its input.
pub fn map_fits(context: &Context, wad_map: &WadMap) -> (r: bool)
    ensures
        r == forall|i: int|
            0 <= i < wad_map@.sectors.len() ==> sector_fits(
                context.texture_loader@.textures,
                wad_map@,
                #[trigger] wad_map@.sectors[i],
            ),
{
    let ghost ts = context.texture_loader@.textures;
    let ghost m = wad_map@;
    let mut i: usize = 0;
    while i < wad_map.sectors.len()
        invariant
            ts == context.texture_loader@.textures,
            m == wad_map@,
            i <= m.sectors.len(),
            forall|k: int| 0 <= k < i ==> sector_fits(ts, m, #[trigger] m.sectors[k]),
        decreases m.sectors.len() - i,
    {
        let sector = &wad_map.sectors[i];
        assert(sector@ == m.sectors[i as int]);
        if !flat_ok(context, wad_map, sector, false) || !flat_ok(context, wad_map, sector, true) || !walls_ok(
            context,
            wad_map,
            sector,
        ) {
            return false;
        }
        i = i + 1;
    }
    true
}

// ---------------------------------------------------------------------------
// Grouping walls into one mesh per texture.

/// The values of `s` without repeats, in the order they first appear.
pub open spec fn distinct_in_order(s: Seq<usize>) -> Seq<usize>
    decreases s.len(),
{
    if s.len() == 0 {
        Seq::empty()
    } else {
        let p = distinct_in_order(s.drop_last());
        if p.contains(s.last()) {
            p
        } else {
            p.push(s.last())
        }
    }
}

/// The positions in `s` that hold `id`, in increasing order.
pub open spec fn positions_of(s: Seq<usize>, id: usize) -> Seq<usize>
    decreases s.len(),
{
    if s.len() == 0 {
        Seq::empty()
    } else {
        let p = positions_of(s.drop_last(), id);
        if s.last() == id {
            p.push((s.len() - 1) as usize)
        } else {
            p
        }
    }
}

/// The distinct values hold no repeats, and are exactly the values of `s`.
pub proof fn lemma_distinct_in_order(s: Seq<usize>)
    ensures
        distinct_in_order(s).no_duplicates(),
        forall|x: usize| distinct_in_order(s).contains(x) <==> s.contains(x),
    decreases s.len(),
{
    if s.len() > 0 {
        let t = s.drop_last();
        let e = s.last();
        let p = distinct_in_order(t);
        lemma_distinct_in_order(t);
        assert forall|x: usize| t.contains(x) implies s.contains(x) by {
            let k = choose|k: int| 0 <= k < t.len() && t[k] == x;
            assert(s[k] == x);
        }
        assert forall|x: usize| s.contains(x) implies t.contains(x) || x == e by {
            let k = choose|k: int| 0 <= k < s.len() && s[k] == x;
            if k < t.len() {
                assert(t[k] == x);
            }
        }
        assert(s[s.len() - 1] == e);
        assert(s.contains(e));
        if !p.contains(e) {
            let q = p.push(e);
            assert forall|x: usize| q.contains(x) <==> p.contains(x) || x == e by {
                if p.contains(x) {
                    let k = choose|k: int| 0 <= k < p.len() && p[k] == x;
                    assert(q[k] == x);
                }
                if x == e {
                    assert(q[p.len() as int] == x);
                }
                if q.contains(x) {
                    let k = choose|k: int| 0 <= k < q.len() && q[k] == x;
                    if k < p.len() {
                        assert(p[k] == x);
                    }
                }
            }
            assert forall|i: int, j: int| 0 <= i < q.len() && 0 <= j < q.len() && i != j implies q[i] != q[j] by {
                if i < p.len() && j < p.len() {
                } else if i < p.len() {
                    assert(p.contains(q[i]));
                } else {
                    assert(p.contains(q[j]));
                }
            }
        }
    }
}

/// Wall quads that show one texture: the texture, and the positions of the
/// quads in the sector's list.
pub struct TextureGroup {
    pub texture_id: usize,
    pub walls: Vec<usize>,
}

pub open spec fn texture_ids_of(walls: Seq<WallQuad>) -> Seq<usize> {
    walls.map_values(|w: WallQuad| w.texture_id)
}

/// Groups the wall quads by texture: one group per texture, in the order
/// the textures first appear, each listing its quads in order.
pub fn group_walls_by_texture(walls: &[WallQuad]) -> (r: Vec<TextureGroup>)
    ensures
        r@.len() == distinct_in_order(texture_ids_of(walls@)).len(),
        forall|g: int|
            0 <= g < r@.len() ==> {
                &&& #[trigger] r@[g].texture_id == distinct_in_order(texture_ids_of(walls@))[g]
                &&& r@[g].walls@ == positions_of(texture_ids_of(walls@), r@[g].texture_id)
            },
        forall|g1: int, g2: int|
            0 <= g1 < g2 < r@.len() ==> #[trigger] r@[g1].texture_id != #[trigger] r@[g2].texture_id,
        forall|k: int| 0 <= k < walls@.len() ==> exists|g: int| 0 <= g < r@.len() && #[trigger] r@[g].texture_id == #[trigger] walls@[k].texture_id,
{
    let ghost ids = texture_ids_of(walls@);
    let mut groups: Vec<TextureGroup> = Vec::new();
    let mut k: usize = 0;
    assert(ids.take(0) =~= Seq::<usize>::empty());
    while k < walls.len()
        invariant
            ids == texture_ids_of(walls@),
            k <= walls@.len(),
            groups@.len() == distinct_in_order(ids.take(k as int)).len(),
            forall|g: int|
                0 <= g < groups@.len() ==> {
                    &&& #[trigger] groups@[g].texture_id == distinct_in_order(ids.take(k as int))[g]
                    &&& groups@[g].walls@ == positions_of(ids.take(k as int), groups@[g].texture_id)
                },
        decreases walls@.len() - k,
    {
        let id = walls[k].texture_id;
        let ghost before = ids.take(k as int);
        let ghost after = ids.take(k + 1);
        assert(after.drop_last() =~= before);
        assert(after.last() == id);
        assert(after.len() == k + 1);
        let mut j: usize = 0;
        while j < groups.len()
            invariant
                j <= groups@.len(),
                forall|g: int| 0 <= g < j ==> #[trigger] groups@[g].texture_id != id,
            ensures
                j <= groups@.len(),
                j < groups@.len() ==> groups@[j as int].texture_id == id,
                forall|g: int| 0 <= g < j ==> #[trigger] groups@[g].texture_id != id,
            decreases groups@.len() - j,
        {
            if groups[j].texture_id == id {
                break;
            }
            j = j + 1;
        }
        let ghost d = distinct_in_order(before);
        if j < groups.len() {
            assert(d[j as int] == id);
            assert(d.contains(id));
            let ghost old_groups = groups@;
            groups[j].walls.push(k);
            proof {
                lemma_distinct_in_order(before);
            }
            assert(distinct_in_order(after) == d);
            assert(positions_of(after, id) == positions_of(before, id).push(k));
            assert forall|g: int| 0 <= g < groups@.len() implies {
                &&& #[trigger] groups@[g].texture_id == distinct_in_order(after)[g]
                &&& groups@[g].walls@ == positions_of(after, groups@[g].texture_id)
            } by {
                assert(old_groups[g].texture_id == d[g]);
                assert(old_groups[g].walls@ == positions_of(before, old_groups[g].texture_id));
                if g == j {
                    assert(groups@[g].walls@ == old_groups[g].walls@.push(k));
                } else {
                    assert(groups@[g] == old_groups[g]);
                    assert(d[g] != d[j as int]);
                    assert(positions_of(after, old_groups[g].texture_id) == positions_of(before, old_groups[g].texture_id));
                }
            }
        } else {
            assert forall|i: int| 0 <= i < d.len() implies d[i] != id by {
                assert(groups@[i].texture_id == d[i]);
            }
            assert(!d.contains(id));
            let mut members: Vec<usize> = Vec::new();
            members.push(k);
            groups.push(TextureGroup { texture_id: id, walls: members });
            assert(distinct_in_order(after) == d.push(id));
            proof {
                lemma_distinct_in_order(before);
                assert(!before.contains(id));
                assert(positions_of(before, id) =~= Seq::<usize>::empty()) by {
                    lemma_positions_absent(before, id);
                }
            }
            assert(members@ =~= seq![k]);
            assert forall|g: int| 0 <= g < groups@.len() implies {
                &&& #[trigger] groups@[g].texture_id == distinct_in_order(after)[g]
                &&& groups@[g].walls@ == positions_of(after, groups@[g].texture_id)
            } by {
                if g < d.len() {
                    assert(groups@[g].texture_id == d[g]);
                    assert(d[g] != id);
                } else {
                    assert(positions_of(after, id) == positions_of(before, id).push(k));
                    assert(positions_of(after, id) =~= seq![k]);
                }
            }
        }
        k = k + 1;
    }
    assert(ids.take(k as int) =~= ids);
    proof {
        lemma_distinct_in_order(ids);
        let d = distinct_in_order(ids);
        assert forall|k: int| 0 <= k < walls@.len() implies exists|g: int| 0 <= g < groups@.len() && #[trigger] groups@[g].texture_id == #[trigger] walls@[k].texture_id by {
            assert(ids[k] == walls@[k].texture_id);
            assert(ids.contains(ids[k]));
            assert(d.contains(ids[k]));
            let g = choose|g: int| 0 <= g < d.len() && d[g] == ids[k];
            assert(groups@[g].texture_id == d[g]);
        }
        assert forall|g1: int, g2: int| 0 <= g1 < g2 < groups@.len() implies #[trigger] groups@[g1].texture_id != #[trigger] groups@[g2].texture_id by {
            assert(groups@[g1].texture_id == d[g1]);
            assert(groups@[g2].texture_id == d[g2]);
        }
    }
    groups
}

proof fn lemma_positions_absent(s: Seq<usize>, id: usize)
    requires
        !s.contains(id),
    ensures
        positions_of(s, id).len() == 0,
    decreases s.len(),
{
    if s.len() > 0 {
        let t = s.drop_last();
        assert(!t.contains(id)) by {
            if t.contains(id) {
                let k = choose|k: int| 0 <= k < t.len() && t[k] == id;
                assert(s[k] == id);
            }
        }
        assert(s[s.len() - 1] != id);
        lemma_positions_absent(t, id);
    }
}

} // verus!
