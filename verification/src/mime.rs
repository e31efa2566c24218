//! A simple binary map format: a header, a vertex buffer of positions and
//! colours, and an index buffer. Vertex values arrive as `f32` bit patterns.

use vstd::prelude::*;
use crate::gltf::{spec_u32_le_bytes, u32s_le_bytes};

verus! {

/// A vertex: position `x`, `y` and colour `r, g, b, a`, as `f32` bit patterns.
#[derive(Copy, Clone, Debug)]
pub struct Vertex {
    pub x: u32,
    pub y: u32,
    pub color: [u32; 4],
}

impl Vertex {
    pub fn new(x: u32, y: u32, color: [u32; 4]) -> (r: Self)
        ensures
            r.x == x,
            r.y == y,
            r.color == color,
    {
        Self { x, y, color }
    }
}

pub struct MimeMap {
    vertices: Vec<Vertex>,
    indices: Vec<u32>,
}

pub struct MimeMapView {
    pub vertices: Seq<Vertex>,
    pub indices: Seq<u32>,
}

impl View for MimeMap {
    type V = MimeMapView;

    closed spec fn view(&self) -> MimeMapView {
        MimeMapView { vertices: self.vertices@, indices: self.indices@ }
    }
}

/// The little-endian bytes of a 64-bit value given as a `u64`.
pub open spec fn spec_u64_le_bytes(v: u64) -> Seq<u8> {
    spec_u32_le_bytes((v % 0x1_0000_0000) as u32) + spec_u32_le_bytes((v / 0x1_0000_0000) as u32)
}

/// The 24 bytes of a vertex: `x`, `y`, then the four colour components.
pub open spec fn vertex_bytes(v: Vertex) -> Seq<u8> {
    u32s_le_bytes(seq![v.x, v.y, v.color[0], v.color[1], v.color[2], v.color[3]])
}

pub open spec fn vertices_bytes(vs: Seq<Vertex>) -> Seq<u8>
    decreases vs.len(),
{
    if vs.len() == 0 {
        Seq::empty()
    } else {
        vertices_bytes(vs.drop_last()) + vertex_bytes(vs.last())
    }
}

/// Where the vertex buffer starts: after the magic, the version and the two
/// buffer headers of an offset and a count each.
pub open spec fn mime_header_len() -> int {
    40
}

/// The file: `MIME`, version 1, the vertex buffer's offset and count, the
/// index buffer's offset and count, then the two buffers.
pub open spec fn mime_bytes(m: MimeMapView) -> Seq<u8> {
    seq![0x4du8, 0x49, 0x4d, 0x45] + spec_u32_le_bytes(1) + spec_u64_le_bytes(mime_header_len() as u64)
        + spec_u64_le_bytes(m.vertices.len() as u64) + spec_u64_le_bytes(
        (mime_header_len() + 24 * m.vertices.len()) as u64,
    ) + spec_u64_le_bytes(m.indices.len() as u64) + vertices_bytes(m.vertices) + u32s_le_bytes(m.indices)
}

fn push_u32(out: &mut Vec<u8>, v: u32)
    ensures
        final(out)@ == old(out)@ + spec_u32_le_bytes(v),
{
    out.push((v % 256) as u8);
    out.push(((v / 256) % 256) as u8);
    out.push(((v / 65536) % 256) as u8);
    out.push((v / 16777216) as u8);
    assert(final(out)@ =~= old(out)@ + spec_u32_le_bytes(v));
}

fn push_u64(out: &mut Vec<u8>, v: u64)
    ensures
        final(out)@ == old(out)@ + spec_u64_le_bytes(v),
{
    push_u32(out, (v % 0x1_0000_0000) as u32);
    push_u32(out, (v / 0x1_0000_0000) as u32);
    assert(final(out)@ =~= old(out)@ + spec_u64_le_bytes(v));
}

impl MimeMap {
    pub fn new(vertices: Vec<Vertex>, indices: Vec<u32>) -> (r: Self)
        ensures
            r@ == (MimeMapView { vertices: vertices@, indices: indices@ }),
    {
        Self { vertices, indices }
    }

    pub fn vertices(&self) -> (r: &[Vertex])
        ensures
            r@ == self@.vertices,
    {
        self.vertices.as_slice()
    }

    pub fn indices(&self) -> (r: &[u32])
        ensures
            r@ == self@.indices,
    {
        self.indices.as_slice()
    }

    /// The bytes of the map file.
    pub fn to_bytes(&self) -> (r: Vec<u8>)
        requires
            mime_header_len() + 24 * self@.vertices.len() + 4 * self@.indices.len() <= usize::MAX,
        ensures
            r@ == mime_bytes(self@),
    {
        let mut buffer: Vec<u8> = Vec::new();
        buffer.push(0x4d);
        buffer.push(0x49);
        buffer.push(0x4d);
        buffer.push(0x45);
        push_u32(&mut buffer, 1);
        let nv = self.vertices.len();
        let ni = self.indices.len();
        push_u64(&mut buffer, 40);
        push_u64(&mut buffer, nv as u64);
        push_u64(&mut buffer, (40 + 24 * nv) as u64);
        push_u64(&mut buffer, ni as u64);
        let ghost header = buffer@;
        let mut i: usize = 0;
        while i < nv
            invariant
                nv == self@.vertices.len(),
                i <= nv,
                buffer@ == header + vertices_bytes(self@.vertices.take(i as int)),
            decreases nv - i,
        {
            let v = self.vertices[i];
            let ghost before = buffer@;
            push_u32(&mut buffer, v.x);
            push_u32(&mut buffer, v.y);
            push_u32(&mut buffer, v.color[0]);
            push_u32(&mut buffer, v.color[1]);
            push_u32(&mut buffer, v.color[2]);
            push_u32(&mut buffer, v.color[3]);
            proof {
                let vs = seq![v.x, v.y, v.color[0], v.color[1], v.color[2], v.color[3]];
                assert(u32s_le_bytes(vs) =~= spec_u32_le_bytes(v.x) + spec_u32_le_bytes(v.y) + spec_u32_le_bytes(v.color[0])
                    + spec_u32_le_bytes(v.color[1]) + spec_u32_le_bytes(v.color[2]) + spec_u32_le_bytes(v.color[3]));
                assert(self@.vertices.take(i + 1).drop_last() =~= self@.vertices.take(i as int));
            }
            i = i + 1;
            assert(buffer@ =~= header + vertices_bytes(self@.vertices.take(i as int)));
        }
        assert(self@.vertices.take(i as int) =~= self@.vertices);
        let ghost mid = buffer@;
        let mut j: usize = 0;
        while j < ni
            invariant
                ni == self@.indices.len(),
                j <= ni,
                buffer@ == mid + u32s_le_bytes(self@.indices.take(j as int)),
            decreases ni - j,
        {
            push_u32(&mut buffer, self.indices[j]);
            j = j + 1;
            assert(u32s_le_bytes(self@.indices.take(j as int)) =~= u32s_le_bytes(self@.indices.take(j - 1)) + spec_u32_le_bytes(self@.indices[j - 1]));
            assert(buffer@ =~= mid + u32s_le_bytes(self@.indices.take(j as int)));
        }
        assert(self@.indices.take(j as int) =~= self@.indices);
        assert(buffer@ =~= mime_bytes(self@));
        buffer
    }
}

} // verus!
