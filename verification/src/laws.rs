//! Properties that hold across the library's operations.

use vstd::prelude::*;
use crate::binary::{name_part, spec_i16_le, spec_u16_le, spec_u32_le};
use crate::wad::{
    WadView, MapView, Linedef, SubSector, Segment, SectorView, Error, line_sector, lines_in_sector, sub_sector_sector, sub_sectors_in_sector,
};
use crate::texture::{
    TextureView, LoaderView, loader_wf, name_index, names_unique, add_named, texture_fits, flat_texture,
    patch_texture, patch_width, patch_height, PaletteColor, enqueued, lemma_name_index, texture_defs_of,
    column_posts,
};
use crate::util::{triangle_fan, fan_len};
use crate::gltf::{glb_bytes, glb_body, padded_json, spec_u32_le_bytes};
use crate::gen::{
    queue_after, queue_step, map_lookups, sector_lookups, texture_id_of, flat_texture_name, lemma_map_lookups_contains,
    SlopeQuad, segment_plan, segments_plan,
};

verus! {

/// The entry `find_dir` finds carries the name searched for, and no entry
/// before it does.
pub proof fn lemma_find_gives_first_named(w: WadView, name: Seq<u8>, i: nat)
    requires
        w.num_dirs <= i32::MAX,
        w.find_from(name, i) is Ok,
    ensures
        ({
            let j = w.find_from(name, i).unwrap() as int;
            &&& w.entry(j) is Ok
            &&& name_part(w.entry(j).unwrap().name) == name
            &&& forall|k: int| i <= k < j ==> #[trigger] w.entry(k) is Ok && name_part(w.entry(k).unwrap().name) != name
        }),
    decreases w.num_dirs - i,
{
    let d = w.entry(i as int).unwrap();
    if name_part(d.name) != name {
        lemma_find_gives_first_named(w, name, i + 1);
        let j = w.find_from(name, i).unwrap() as int;
        assert forall|k: int| i <= k < j implies #[trigger] w.entry(k) is Ok && name_part(w.entry(k).unwrap().name)
            != name by {
            if k > i {
                assert(i + 1 <= k);
            }
        }
    }
}


/// Once lines are given to sectors, sector `k` holds exactly the linedefs
/// whose side names sector `k`: each line it holds belongs to it, and each
/// linedef that belongs to it is among them.
pub proof fn lemma_sector_gets_its_lines(m: MapView, k: int)
    requires
        0 <= k < m.sectors.len(),
        m.sectors[k].lines.len() == 0,
    ensures
        forall|i: int|
            0 <= i < m.sorted().sectors[k].lines.len() ==> line_sector(m.sidedefs, #[trigger] m.sorted().sectors[k].lines[i])
                == Some(k),
        forall|j: int|
            0 <= j < m.linedefs.len() && line_sector(m.sidedefs, m.linedefs[j]) == Some(k) ==> m.sorted().sectors[k].lines.contains(
                #[trigger] m.linedefs[j],
            ),
{
    let pred = |l: Linedef| line_sector(m.sidedefs, l) == Some(k);
    assert(m.sorted().sectors[k].lines =~= lines_in_sector(m.sidedefs, m.linedefs, k));
    assert forall|i: int| 0 <= i < m.sorted().sectors[k].lines.len() implies line_sector(
        m.sidedefs,
        #[trigger] m.sorted().sectors[k].lines[i],
    ) == Some(k) by {
        m.linedefs.lemma_filter_pred(pred, i);
    }
    assert forall|j: int|
        0 <= j < m.linedefs.len() && line_sector(m.sidedefs, m.linedefs[j]) == Some(k) implies m.sorted().sectors[k].lines.contains(
        #[trigger] m.linedefs[j],
    ) by {
        m.linedefs.lemma_filter_contains(pred, j);
    }
}

/// Once subsectors are given to sectors, sector `k` holds exactly the
/// subsectors whose first segment's side names sector `k`, in map order.
pub proof fn lemma_sector_gets_its_sub_sectors(m: MapView, k: int)
    requires
        0 <= k < m.sectors.len(),
        m.sectors[k].sub_sectors.len() == 0,
    ensures
        forall|i: int|
            0 <= i < m.sorted().sectors[k].sub_sectors.len() ==> m.sub_sector_sector(
                #[trigger] m.sorted().sectors[k].sub_sectors[i],
            ) == Ok::<Option<int>, Error>(Some(k)),
        forall|j: int|
            0 <= j < m.sub_sectors.len() && m.sub_sector_sector(m.sub_sectors[j]) == Ok::<Option<int>, Error>(Some(k))
                ==> m.sorted().sectors[k].sub_sectors.contains(#[trigger] m.sub_sectors[j]),
{
    let pred = |ss: SubSector|
        sub_sector_sector(m.segments, m.linedefs, m.sidedefs, ss) == Ok::<Option<int>, Error>(Some(k));
    assert(m.sorted().sectors[k].sub_sectors =~= sub_sectors_in_sector(m.segments, m.linedefs, m.sidedefs, m.sub_sectors, k));
    assert forall|i: int| 0 <= i < m.sorted().sectors[k].sub_sectors.len() implies m.sub_sector_sector(
        #[trigger] m.sorted().sectors[k].sub_sectors[i],
    ) == Ok::<Option<int>, Error>(Some(k)) by {
        m.sub_sectors.lemma_filter_pred(pred, i);
    }
    assert forall|j: int|
        0 <= j < m.sub_sectors.len() && m.sub_sector_sector(m.sub_sectors[j]) == Ok::<Option<int>, Error>(Some(k))
            implies m.sorted().sectors[k].sub_sectors.contains(#[trigger] m.sub_sectors[j]) by {
        m.sub_sectors.lemma_filter_contains(pred, j);
    }
}

/// Each texture a well-formed loader holds is found again under its own
/// name, at its own id.
pub proof fn lemma_loader_name_lookup(v: LoaderView, i: int)
    requires
        loader_wf(v),
        0 <= i < v.textures.len(),
    ensures
        name_index(v.textures, v.textures[i].0) == Some(i),
{
    lemma_name_index(v.textures, v.textures[i].0, i);
}

/// Adding a texture under a new name makes it the one found under that
/// name; adding under a name already held changes nothing.
pub proof fn lemma_add_then_find(ts: Seq<(Seq<char>, TextureView)>, name: Seq<char>, t: TextureView)
    requires
        names_unique(ts),
    ensures
        name_index(ts, name) is None ==> name_index(add_named(ts, (name, t)), name) == Some(ts.len() as int)
            && add_named(ts, (name, t))[ts.len() as int].1 == t,
        name_index(ts, name) is Some ==> add_named(ts, (name, t)) == ts,
        names_unique(add_named(ts, (name, t))),
{
    if name_index(ts, name) is None {
        let ts2 = ts.push((name, t));
        assert forall|j: int| 0 <= j < ts.len() implies #[trigger] ts[j].0 != name by {
            if ts[j].0 == name {
                lemma_name_index(ts, name, j);
            }
        }
        assert(names_unique(ts2));
        lemma_name_index(ts2, name, ts.len() as int);
    }
}

/// A flat decodes to a 64 by 64 texture whose pixels are all opaque.
pub proof fn lemma_flat_texture_opaque(d: Seq<u8>, cm: Seq<usize>, pal: Seq<PaletteColor>)
    ensures
        texture_fits(flat_texture(d, cm, pal)),
        forall|p: int| 0 <= p < 64 * 64 ==> #[trigger] flat_texture(d, cm, pal).pixels[4 * p + 3] == 0xff,
{
    assert forall|p: int| 0 <= p < 64 * 64 implies #[trigger] flat_texture(d, cm, pal).pixels[4 * p + 3] == 0xff by {
        assert((4 * p + 3) % 4 == 3);
    }
}

/// A patch decodes to a texture whose pixel buffer holds exactly its pixels.
pub proof fn lemma_patch_texture_fits(d: Seq<u8>, cm: Seq<usize>, pal: Seq<PaletteColor>)
    requires
        patch_width(d) >= 0,
        patch_height(d) >= 0,
    ensures
        texture_fits(patch_texture(d, cm, pal)),
{
    assert(patch_width(d) * patch_height(d) >= 0) by (nonlinear_arith)
        requires
            patch_width(d) >= 0,
            patch_height(d) >= 0,
    ;
}

/// A triangle fan over `n` points has `n - 2` triangles, and names only
/// points `0` to `n - 1`.
pub proof fn lemma_fan_in_range(n: int, clockwise: bool)
    requires
        3 <= n <= 0x1_0000_0000,
    ensures
        triangle_fan(n, clockwise).len() == 3 * (n - 2),
        forall|k: int| 0 <= k < triangle_fan(n, clockwise).len() ==> #[trigger] triangle_fan(n, clockwise)[k] < n,
{
    assert forall|k: int| 0 <= k < triangle_fan(n, clockwise).len() implies #[trigger] triangle_fan(n, clockwise)[k] < n by {
        let t = k / 3 + 2;
        assert(t <= n - 1);
        assert(0 <= t - 1 < 0x1_0000_0000);
        assert(((t - 1) as u32) as int == t - 1);
        assert((t as u32) as int == t);
    }
}

/// A texture id is queued once, however often it is asked for.
pub proof fn lemma_enqueued_once(q: Seq<usize>, id: usize)
    requires
        q.no_duplicates(),
    ensures
        enqueued(q, id).contains(id),
        enqueued(q, id).no_duplicates(),
        enqueued(enqueued(q, id), id) == enqueued(q, id),
{
    if !q.contains(id) {
        assert(q.push(id)[q.len() as int] == id);
    }
}

proof fn lemma_glb_body_shape(json: Seq<u8>, bin: Seq<u8>)
    ensures
        glb_body(json, bin).len() == 28 + padded_json(json).len() + bin.len(),
        forall|i: int| 0 <= i < json.len() ==> #[trigger] glb_body(json, bin)[20 + i] == json[i],
{
    let p = padded_json(json);
    let a = spec_u32_le_bytes(0x4654_6c67) + spec_u32_le_bytes(2) + spec_u32_le_bytes(0) + spec_u32_le_bytes(
        p.len() as u32,
    ) + spec_u32_le_bytes(0x4e4f_534a);
    let b = spec_u32_le_bytes(bin.len() as u32) + spec_u32_le_bytes(0x004e_4942) + bin;
    assert(a.len() == 20);
    assert(glb_body(json, bin) == a + p + b);
    assert forall|i: int| 0 <= i < json.len() implies #[trigger] glb_body(json, bin)[20 + i] == json[i] by {
        assert((a + p + b)[20 + i] == p[i]);
    }
}

/// The GLB file starts with its header, its JSON chunk is padded to a
/// multiple of 4 bytes, and its length field holds the file's length when
/// that fits in 32 bits.
pub proof fn lemma_glb_layout(json: Seq<u8>, bin: Seq<u8>)
    ensures
        glb_bytes(json, bin).len() == 28 + padded_json(json).len() + bin.len(),
        padded_json(json).len() % 4 == 0,
        json.len() < padded_json(json).len() <= json.len() + 4,
        glb_bytes(json, bin).subrange(8, 12) == spec_u32_le_bytes(glb_bytes(json, bin).len() as u32),
        glb_bytes(json, bin).subrange(20, 20 + json.len() as int) == json,
{
    lemma_glb_body_shape(json, bin);
    let body = glb_body(json, bin);
    let g = glb_bytes(json, bin);
    let le = spec_u32_le_bytes(body.len() as u32);
    assert(g == body.subrange(0, 8) + le + body.subrange(12, body.len() as int));
    assert(g.len() == body.len());
    assert(g.subrange(8, 12) =~= le);
    assert forall|i: int| 0 <= i < json.len() implies g.subrange(20, 20 + json.len() as int)[i] == json[i] by {
        assert(g[20 + i] == body[20 + i]);
    }
    assert(g.subrange(20, 20 + json.len() as int) =~= json);
}

/// Planning keeps the texture queue free of repeats, keeps every id already
/// queued, and queues every texture that a lookup found.
pub proof fn lemma_queue_after_keeps_found(q: Seq<usize>, rs: Seq<Option<usize>>)
    requires
        q.no_duplicates(),
    ensures
        queue_after(q, rs).no_duplicates(),
        forall|x: usize| q.contains(x) ==> queue_after(q, rs).contains(x),
        forall|k: int| 0 <= k < rs.len() && #[trigger] rs[k] is Some ==> queue_after(q, rs).contains(rs[k].unwrap()),
    decreases rs.len(),
{
    if rs.len() > 0 {
        let prev = rs.drop_last();
        lemma_queue_after_keeps_found(q, prev);
        let p = queue_after(q, prev);
        let r = queue_after(q, rs);
        assert(r == queue_step(p, rs.last()));
        assert forall|x: usize| p.contains(x) implies r.contains(x) by {
            if let Some(id) = rs.last() {
                if !p.contains(id) {
                    let k = choose|k: int| 0 <= k < p.len() && p[k] == x;
                    assert(p.push(id)[k] == x);
                }
            }
        }
        if let Some(id) = rs.last() {
            lemma_enqueued_once(p, id);
        }
        assert forall|k: int| 0 <= k < rs.len() && #[trigger] rs[k] is Some implies r.contains(rs[k].unwrap()) by {
            if k < rs.len() - 1 {
                assert(prev[k] == rs[k]);
                assert(p.contains(rs[k].unwrap()));
            } else {
                assert(rs[k] == rs.last());
            }
        }
    }
}

/// Once a map is planned, the texture of every sector's floor and ceiling
/// is in the texture queue, so it is written out with the model.
pub proof fn lemma_planned_flats_are_queued(
    ts: Seq<(Seq<char>, TextureView)>,
    m: MapView,
    q: Seq<usize>,
    i: int,
    ceiling: bool,
)
    requires
        q.no_duplicates(),
        0 <= i < m.sectors.len(),
    ensures
        texture_id_of(ts, flat_texture_name(m.sectors[i], ceiling)) matches Some(id) ==> queue_after(
            q,
            map_lookups(ts, m, m.sectors),
        ).contains(id),
{
    let rs = map_lookups(ts, m, m.sectors);
    let k: int = if ceiling { 1 } else { 0 };
    let found = texture_id_of(ts, flat_texture_name(m.sectors[i], ceiling));
    assert(sector_lookups(ts, m, m.sectors[i])[k] == found);
    lemma_map_lookups_contains(ts, m, m.sectors, i, k);
    lemma_queue_after_keeps_found(q, rs);
    if found is Some {
        let j = choose|j: int| 0 <= j < rs.len() && rs[j] == found;
        assert(rs[j] is Some);
    }
}

/// A map's sectors are the records of its SECTORS lump, in order, 26 bytes
/// each: floor height, ceiling height, then the floor texture's name in
/// bytes 4..12 and the ceiling texture's name in bytes 12..20.
pub proof fn lemma_sector_records_read_in_place(w: WadView, name: Seq<u8>)
    requires
        w.map(name) is Ok,
    ensures
        ({
            let i = w.find(name).unwrap() as int;
            let d = w.lump(i + 8).unwrap();
            let m = w.map(name).unwrap();
            &&& m.sectors.len() == d.len() / 26
            &&& forall|k: int|
                0 <= k < m.sectors.len() ==> {
                    &&& (#[trigger] m.sectors[k]).floor_height as int == spec_i16_le(d, 26 * k)
                    &&& m.sectors[k].ceiling_height as int == spec_i16_le(d, 26 * k + 2)
                    &&& m.sectors[k].floor_texture_name == d.subrange(26 * k + 4, 26 * k + 12)
                    &&& m.sectors[k].ceiling_texture_name == d.subrange(26 * k + 12, 26 * k + 20)
                }
        }),
{
    let i = w.find(name).unwrap() as int;
    let d = w.lump(i + 8).unwrap();
    let mm = w.map_lumps(i).unwrap();
    let m = w.map(name).unwrap();
    assert(m == mm.sorted());
    assert forall|k: int| 0 <= k < m.sectors.len() implies {
        &&& (#[trigger] m.sectors[k]).floor_height as int == spec_i16_le(d, 26 * k)
        &&& m.sectors[k].ceiling_height as int == spec_i16_le(d, 26 * k + 2)
        &&& m.sectors[k].floor_texture_name == d.subrange(26 * k + 4, 26 * k + 12)
        &&& m.sectors[k].ceiling_texture_name == d.subrange(26 * k + 12, 26 * k + 20)
    } by {
        assert(m.sectors[k].floor_height == mm.sectors[k].floor_height);
        lemma_i16_le_range(d, 26 * k);
        lemma_i16_le_range(d, 26 * k + 2);
    }
}

proof fn lemma_i16_le_range(d: Seq<u8>, i: int)
    ensures
        -0x8000 <= spec_i16_le(d, i) < 0x8000,
{
}

/// The definitions of a texture lump are read where its directory points:
/// definition `i` starts at the offset in bytes `4 + 4i`, holds its width,
/// height and patch count at 12, 14 and 20 past that offset, and its patch
/// `pi` in the 10 bytes from `22 + 10 pi`: origin x, origin y, then the
/// index of its PNAMES entry.
pub proof fn lemma_texture_defs_read_in_place(d: Seq<u8>)
    requires
        texture_defs_of(d) is Some,
    ensures
        ({
            let defs = texture_defs_of(d).unwrap();
            &&& defs.len() == spec_u32_le(d, 0)
            &&& forall|i: int|
                0 <= i < defs.len() ==> {
                    let off = spec_u32_le(d, 4 + 4 * i);
                    &&& (#[trigger] defs[i]).width == spec_u16_le(d, off + 12)
                    &&& defs[i].height == spec_u16_le(d, off + 14)
                    &&& defs[i].patches.len() == spec_u16_le(d, off + 20)
                    &&& forall|pi: int|
                        0 <= pi < defs[i].patches.len() ==> {
                            &&& (#[trigger] defs[i].patches[pi]).patch as int == spec_u16_le(d, off + 22 + 10 * pi + 4)
                            &&& defs[i].patches[pi].origin_x as int == spec_i16_le(d, off + 22 + 10 * pi)
                            &&& defs[i].patches[pi].origin_y as int == spec_i16_le(d, off + 22 + 10 * pi + 2)
                        }
                }
        }),
{
    let defs = texture_defs_of(d).unwrap();
    assert forall|i: int| 0 <= i < defs.len() implies {
        let off = spec_u32_le(d, 4 + 4 * i);
        &&& (#[trigger] defs[i]).width == spec_u16_le(d, off + 12)
        &&& defs[i].height == spec_u16_le(d, off + 14)
        &&& defs[i].patches.len() == spec_u16_le(d, off + 20)
        &&& forall|pi: int|
            0 <= pi < defs[i].patches.len() ==> {
                &&& (#[trigger] defs[i].patches[pi]).patch as int == spec_u16_le(d, off + 22 + 10 * pi + 4)
                &&& defs[i].patches[pi].origin_x as int == spec_i16_le(d, off + 22 + 10 * pi)
                &&& defs[i].patches[pi].origin_y as int == spec_i16_le(d, off + 22 + 10 * pi + 2)
            }
    } by {
        let off = spec_u32_le(d, 4 + 4 * i);
        assert forall|pi: int| 0 <= pi < defs[i].patches.len() implies {
            &&& (#[trigger] defs[i].patches[pi]).patch as int == spec_u16_le(d, off + 22 + 10 * pi + 4)
            &&& defs[i].patches[pi].origin_x as int == spec_i16_le(d, off + 22 + 10 * pi)
            &&& defs[i].patches[pi].origin_y as int == spec_i16_le(d, off + 22 + 10 * pi + 2)
        } by {
            lemma_i16_le_range(d, off + 22 + 10 * pi);
            lemma_i16_le_range(d, off + 22 + 10 * pi + 2);
        }
    }
}

/// The bytes of a patch column made of the posts `posts`, each a top
/// offset and its palette indices: per post the top offset, the number of
/// indices, the indices, and two bytes that are skipped (here zero); 0xff
/// ends the column.
pub open spec fn posts_bytes(posts: Seq<(u8, Seq<u8>)>) -> Seq<u8>
    decreases posts.len(),
{
    if posts.len() == 0 {
        seq![0xffu8]
    } else {
        seq![posts[0].0, posts[0].1.len() as u8] + posts[0].1 + seq![0u8, 0u8] + posts_bytes(posts.drop_first())
    }
}

/// The palette indices of the posts, one post after the other.
pub open spec fn posts_indices(posts: Seq<(u8, Seq<u8>)>) -> Seq<u8>
    decreases posts.len(),
{
    if posts.len() == 0 {
        Seq::empty()
    } else {
        posts[0].1 + posts_indices(posts.drop_first())
    }
}

/// A patch column gives the palette indices of every one of its posts, in
/// order, up to the 0xff that ends it: reading a column written from posts
/// gives back all their indices.
pub proof fn lemma_column_reads_every_post(d: Seq<u8>, off: int, posts: Seq<(u8, Seq<u8>)>)
    requires
        0 <= off,
        off + posts_bytes(posts).len() <= d.len(),
        d.subrange(off, off + posts_bytes(posts).len()) == posts_bytes(posts),
        forall|k: int| 0 <= k < posts.len() ==> (#[trigger] posts[k]).0 != 0xff && posts[k].1.len() < 256,
    ensures
        column_posts(d, off) == Some(posts_indices(posts)),
    decreases posts.len(),
{
    let b = posts_bytes(posts);
    assert(d[off] == b[0]);
    if posts.len() > 0 {
        let p = posts[0];
        let n = p.1.len() as int;
        let rest = posts.drop_first();
        let rb = posts_bytes(rest);
        assert(rb.len() >= 1) by {
            if rest.len() == 0 {
            } else {
                assert(rb.len() >= 1);
            }
        }
        assert(b == seq![p.0, n as u8] + p.1 + seq![0u8, 0u8] + rb);
        assert(b.len() == n + 4 + rb.len());
        assert(d[off] == p.0);
        assert(d[off + 1] == b[1]);
        assert(b[1] == n as u8);
        assert((n as u8) as int == n);
        assert(d.subrange(off + 2, off + 2 + n) =~= p.1) by {
            assert forall|j: int| 0 <= j < n implies d.subrange(off + 2, off + 2 + n)[j] == p.1[j] by {
                assert(d[off + 2 + j] == b[2 + j]);
            }
        }
        assert(d.subrange(off + n + 4, off + n + 4 + rb.len()) =~= rb) by {
            assert forall|j: int| 0 <= j < rb.len() implies d.subrange(off + n + 4, off + n + 4 + rb.len())[j] == rb[j] by {
                assert(d[off + n + 4 + j] == b[n + 4 + j]);
            }
        }
        assert forall|k: int| 0 <= k < rest.len() implies (#[trigger] rest[k]).0 != 0xff && rest[k].1.len() < 256 by {
            assert(rest[k] == posts[k + 1]);
        }
        lemma_column_reads_every_post(d, off + n + 4, rest);
    }
}

/// `s` is the step quad of segment `seg`: it stands on the segment's
/// linedef, which has two sides; `front` is the floor height of the sector
/// of the front side and `back` that of the back side, whichever is higher;
/// the floors differ, by `height`, at most 24.
pub open spec fn is_step_of(m: MapView, seg: Segment, s: SlopeQuad) -> bool {
    &&& seg.linedef != 0xffff
    &&& {
        let l = m.linedefs[seg.linedef as int];
        &&& l.front_sidedef is Some
        &&& l.back_sidedef is Some
        &&& s.front == m.sectors[m.sidedefs[l.front_sidedef.unwrap() as int].sector as int].floor_height
        &&& s.back == m.sectors[m.sidedefs[l.back_sidedef.unwrap() as int].sector as int].floor_height
        &&& s.front != s.back
        &&& s.height as int == (if s.front >= s.back { s.front - s.back } else { s.back - s.front })
        &&& s.height <= 24
        &&& s.start == m.vertex(l.line.start_vertex)
        &&& s.end == m.vertex(l.line.end_vertex)
    }
}

/// A segment gets a step quad exactly when its linedef has two sides whose
/// sectors' floors differ by 1 to 24 units, and that quad faces from the
/// front side's floor to the back side's floor.
pub proof fn lemma_segment_step(ts: Seq<(Seq<char>, TextureView)>, m: MapView, sector: SectorView, seg: Segment)
    ensures
        ({
            let slopes = segment_plan(ts, m, sector, seg).slopes;
            &&& slopes.len() <= 1
            &&& forall|j: int| 0 <= j < slopes.len() ==> is_step_of(m, seg, #[trigger] slopes[j])
            &&& (seg.linedef != 0xffff && {
                let l = m.linedefs[seg.linedef as int];
                let f = m.sectors[m.sidedefs[l.front_sidedef.unwrap() as int].sector as int].floor_height;
                let b = m.sectors[m.sidedefs[l.back_sidedef.unwrap() as int].sector as int].floor_height;
                &&& l.front_sidedef is Some
                &&& l.back_sidedef is Some
                &&& f != b
                &&& -24 <= f - b <= 24
            }) ==> slopes.len() == 1
        }),
{
}

/// Every step quad planned for a run of segments is the step quad of one of
/// them.
pub proof fn lemma_steps_come_from_segments(
    ts: Seq<(Seq<char>, TextureView)>,
    m: MapView,
    sector: SectorView,
    segs: Seq<Segment>,
)
    ensures
        forall|j: int|
            #![trigger segments_plan(ts, m, sector, segs).slopes[j]]
            0 <= j < segments_plan(ts, m, sector, segs).slopes.len() ==> exists|k: int|
                0 <= k < segs.len() && is_step_of(m, #[trigger] segs[k], segments_plan(ts, m, sector, segs).slopes[j]),
    decreases segs.len(),
{
    if segs.len() > 0 {
        let prev = segs.drop_last();
        lemma_steps_come_from_segments(ts, m, sector, prev);
        lemma_segment_step(ts, m, sector, segs.last());
        let p = segments_plan(ts, m, sector, prev).slopes;
        let last = segment_plan(ts, m, sector, segs.last()).slopes;
        let all = segments_plan(ts, m, sector, segs).slopes;
        assert(all == p + last);
        assert forall|j: int| #![trigger all[j]] 0 <= j < all.len() implies exists|k: int|
            0 <= k < segs.len() && is_step_of(m, #[trigger] segs[k], all[j]) by {
            if j < p.len() {
                let k = choose|k: int| 0 <= k < prev.len() && is_step_of(m, #[trigger] prev[k], p[j]);
                assert(segs[k] == prev[k]);
                assert(all[j] == p[j]);
            } else {
                assert(all[j] == last[j - p.len()]);
                assert(is_step_of(m, segs.last(), last[j - p.len()]));
                assert(segs[segs.len() - 1] == segs.last());
            }
        }
    }
}

} // verus!
