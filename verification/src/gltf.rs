//! The glTF document a map becomes: its tables of buffer views, accessors,
//! samplers, images, textures, materials, meshes, nodes and scenes, the
//! binary buffer they index, and the GLB container that holds both.
//! Floating-point values (colours, factors, vertex data) arrive here as
//! their IEEE-754 bit patterns or as encoded bytes.

use vstd::prelude::*;

verus! {

pub struct GltfAccessor {
    pub buffer_view: usize,
    pub component_type: usize,
    pub count: usize,
    pub typ: String,
}

pub struct GltfSampler {
    pub name: String,
    pub mag_filter: usize,
    pub min_filter: usize,
    pub wrap_s: usize,
    pub wrap_t: usize,
}

pub struct GltfTexture {
    pub name: String,
    pub sampler: usize,
    pub source: usize,
}

#[derive(Copy, Clone, Debug)]
pub struct GltfBufferView {
    pub buffer: usize,
    pub byte_length: usize,
    pub byte_offset: usize,
}

#[derive(Copy, Clone, Debug)]
pub struct GltfTextureInfo {
    pub index: usize,
    pub tex_coord: usize,
}

impl GltfTextureInfo {
    pub fn new(texture_id: usize) -> (r: Self)
        ensures
            r.index == texture_id,
            r.tex_coord == 0,
    {
        Self { index: texture_id, tex_coord: 0 }
    }
}

/// A metallic-roughness material; the factors are `f32` bit patterns.
pub struct GltfPbr {
    pub base_color_factor: [u32; 4],
    pub base_color_texture: Option<GltfTextureInfo>,
    pub metallic_factor: u32,
    pub roughness_factor: u32,
}

pub struct GltfMaterial {
    pub name: String,
    pub double_sided: bool,
    pub pbr_metallic_roughness: GltfPbr,
}

/// The accessors of a primitive's vertex attributes.
#[derive(Copy, Clone, Debug)]
pub struct GltfAttributes {
    pub position: usize,
    pub normal: usize,
    pub texcoord_0: usize,
    pub color_0: usize,
}

#[derive(Copy, Clone, Debug)]
pub struct GltfPrimitive {
    pub mode: usize,
    pub attributes: GltfAttributes,
    pub indices: usize,
    pub material: usize,
}

pub struct GltfMesh {
    pub name: String,
    pub primitives: Vec<GltfPrimitive>,
}

pub struct GltfNode {
    pub name: String,
    pub mesh: usize,
}

pub struct GltfScene {
    pub name: String,
    pub nodes: Vec<usize>,
}

pub struct GltfImage {
    pub name: String,
    pub mime_type: String,
    pub buffer_view: usize,
}

#[derive(Copy, Clone, PartialEq, Eq, Debug, Structural)]
pub enum DataTyp {
    Uint32,
    Vec2f,
    Vec3f,
    Vec4f,
}

pub struct Gltf {
    pub data_buffer: Vec<u8>,
    pub buffer_views: Vec<GltfBufferView>,
    pub materials: Vec<GltfMaterial>,
    pub accessors: Vec<GltfAccessor>,
    pub samplers: Vec<GltfSampler>,
    pub textures: Vec<GltfTexture>,
    pub scenes: Vec<GltfScene>,
    pub images: Vec<GltfImage>,
    pub meshes: Vec<GltfMesh>,
    pub nodes: Vec<GltfNode>,
}

pub struct GltfView {
    pub data_buffer: Seq<u8>,
    pub buffer_views: Seq<GltfBufferView>,
    pub materials: Seq<GltfMaterial>,
    pub accessors: Seq<GltfAccessor>,
    pub samplers: Seq<GltfSampler>,
    pub textures: Seq<GltfTexture>,
    pub scenes: Seq<(String, Seq<usize>)>,
    pub images: Seq<GltfImage>,
    pub meshes: Seq<(String, Seq<GltfPrimitive>)>,
    pub nodes: Seq<GltfNode>,
}

impl View for Gltf {
    type V = GltfView;

    open spec fn view(&self) -> GltfView {
        GltfView {
            data_buffer: self.data_buffer@,
            buffer_views: self.buffer_views@,
            materials: self.materials@,
            accessors: self.accessors@,
            samplers: self.samplers@,
            textures: self.textures@,
            scenes: self.scenes@.map_values(|s: GltfScene| (s.name, s.nodes@)),
            images: self.images@,
            meshes: self.meshes@.map_values(|m: GltfMesh| (m.name, m.primitives@)),
            nodes: self.nodes@,
        }
    }
}

/// The OpenGL names of the component types.
pub const GL_UNSIGNED_INT: usize = 0x1405;
pub const GL_FLOAT: usize = 0x1406;

/// The sampler filter and wrap modes used.
pub const NEAREST: usize = 9984;
pub const REPEAT: usize = 10497;

/// The bit patterns of `f32` 0.0 and 1.0.
pub const F32_ZERO_BITS: u32 = 0;
pub const F32_ONE_BITS: u32 = 0x3f80_0000;

/// The little-endian bytes of `v`.
pub open spec fn spec_u32_le_bytes(v: u32) -> Seq<u8> {
    seq![(v % 256) as u8, ((v / 256) % 256) as u8, ((v / 65536) % 256) as u8, (v / 16777216) as u8]
}

/// The little-endian bytes of each of `s`, in order.
pub open spec fn u32s_le_bytes(s: Seq<u32>) -> Seq<u8> {
    Seq::new(4 * s.len(), |k: int| spec_u32_le_bytes(s[k / 4])[k % 4])
}

fn push_u32_le(out: &mut Vec<u8>, v: u32)
    ensures
        final(out)@ == old(out)@ + spec_u32_le_bytes(v),
{
    out.push((v % 256) as u8);
    out.push(((v / 256) % 256) as u8);
    out.push(((v / 65536) % 256) as u8);
    out.push((v / 16777216) as u8);
    assert(final(out)@ =~= old(out)@ + spec_u32_le_bytes(v));
}

fn push_bytes(out: &mut Vec<u8>, data: &[u8])
    ensures
        final(out)@ == old(out)@ + data@,
{
    let mut i: usize = 0;
    while i < data.len()
        invariant
            i <= data@.len(),
            out@ == old(out)@ + data@.take(i as int),
        decreases data@.len() - i,
    {
        out.push(data[i]);
        i = i + 1;
        assert(out@ =~= old(out)@ + data@.take(i as int));
    }
    assert(data@.take(i as int) =~= data@);
}

/// The accessor's component type and element type for a kind of data.
pub open spec fn accessor_kind(t: DataTyp) -> (usize, Seq<char>) {
    match t {
        DataTyp::Uint32 => (GL_UNSIGNED_INT, "SCALAR"@),
        DataTyp::Vec2f => (GL_FLOAT, "VEC2"@),
        DataTyp::Vec3f => (GL_FLOAT, "VEC3"@),
        DataTyp::Vec4f => (GL_FLOAT, "VEC4"@),
    }
}

impl Gltf {
    pub fn new() -> (r: Self)
        ensures
            r@ == (GltfView {
                data_buffer: Seq::empty(),
                buffer_views: Seq::empty(),
                materials: Seq::empty(),
                accessors: Seq::empty(),
                samplers: Seq::empty(),
                textures: Seq::empty(),
                scenes: Seq::empty(),
                images: Seq::empty(),
                meshes: Seq::empty(),
                nodes: Seq::empty(),
            }),
    {
        let r = Self {
            data_buffer: Vec::new(),
            buffer_views: Vec::new(),
            materials: Vec::new(),
            accessors: Vec::new(),
            samplers: Vec::new(),
            textures: Vec::new(),
            scenes: Vec::new(),
            images: Vec::new(),
            meshes: Vec::new(),
            nodes: Vec::new(),
        };
        assert(r@.scenes =~= Seq::empty());
        assert(r@.meshes =~= Seq::empty());
        r
    }

    /// Adds a nearest-filtering, repeating sampler; gives its id.
    pub fn create_sampler(&mut self, name: String) -> (id: usize)
        ensures
            id == old(self)@.samplers.len(),
            final(self)@ == (GltfView {
                samplers: old(self)@.samplers.push(
                    GltfSampler { name, mag_filter: NEAREST, min_filter: NEAREST, wrap_s: REPEAT, wrap_t: REPEAT },
                ),
                ..old(self)@
            }),
    {
        let id = self.samplers.len();
        let sampler = GltfSampler { name, mag_filter: NEAREST, min_filter: NEAREST, wrap_s: REPEAT, wrap_t: REPEAT };
        self.samplers.push(sampler);
        id
    }

    /// Appends a PNG image to the binary buffer, with a view over it; gives the image's id.
    pub fn create_image(&mut self, name: String, data: &[u8]) -> (id: usize)
        requires
            old(self)@.data_buffer.len() + data@.len() <= usize::MAX,
        ensures
            id == old(self)@.images.len(),
            final(self)@ == (GltfView {
                data_buffer: old(self)@.data_buffer + data@,
                buffer_views: old(self)@.buffer_views.push(
                    GltfBufferView { buffer: 0, byte_length: data@.len() as usize, byte_offset: old(self)@.data_buffer.len() as usize },
                ),
                images: old(self)@.images.push(
                    GltfImage { name, mime_type: final(self)@.images.last().mime_type, buffer_view: old(self)@.buffer_views.len() as usize },
                ),
                ..old(self)@
            }),
            final(self)@.images.last().mime_type@ == "image/png"@,
            final(self)@.images.last().buffer_view == old(self)@.buffer_views.len(),
    {
        let id = self.images.len();
        let start = self.data_buffer.len();
        push_bytes(&mut self.data_buffer, data);
        let end = self.data_buffer.len();
        let length = end - start;
        let buffer_view = self.create_buffer_view(start, length);
        let image = GltfImage { name, mime_type: "image/png".to_owned(), buffer_view };
        self.images.push(image);
        id
    }

    pub fn create_texture(&mut self, name: String, sampler_id: usize, image_id: usize) -> (id: usize)
        ensures
            id == old(self)@.textures.len(),
            final(self)@ == (GltfView {
                textures: old(self)@.textures.push(GltfTexture { name, sampler: sampler_id, source: image_id }),
                ..old(self)@
            }),
    {
        let id = self.textures.len();
        self.textures.push(GltfTexture { name, sampler: sampler_id, source: image_id });
        id
    }

    /// Adds a one-sided material of colour `color` (`f32` bit patterns), not
    /// metallic, fully rough; gives its id.
    pub fn create_material(&mut self, name: String, color: [u32; 4], texture: Option<GltfTextureInfo>) -> (id: usize)
        ensures
            id == old(self)@.materials.len(),
            final(self)@ == (GltfView {
                materials: old(self)@.materials.push(
                    GltfMaterial {
                        name,
                        double_sided: false,
                        pbr_metallic_roughness: GltfPbr {
                            base_color_factor: color,
                            base_color_texture: texture,
                            metallic_factor: F32_ZERO_BITS,
                            roughness_factor: F32_ONE_BITS,
                        },
                    },
                ),
                ..old(self)@
            }),
    {
        let id = self.materials.len();
        let material = GltfMaterial {
            name,
            double_sided: false,
            pbr_metallic_roughness: GltfPbr {
                base_color_factor: color,
                base_color_texture: texture,
                metallic_factor: F32_ZERO_BITS,
                roughness_factor: F32_ONE_BITS,
            },
        };
        self.materials.push(material);
        id
    }

    pub fn create_mesh(&mut self, name: String) -> (id: usize)
        ensures
            id == old(self)@.meshes.len(),
            final(self)@ == (GltfView { meshes: old(self)@.meshes.push((name, Seq::empty())), ..old(self)@ }),
    {
        let id = self.meshes.len();
        let mesh = GltfMesh { name, primitives: Vec::new() };
        self.meshes.push(mesh);
        assert(self@.meshes =~= old(self)@.meshes.push((name, Seq::<GltfPrimitive>::empty())));
        id
    }

    fn create_buffer_view(&mut self, start: usize, length: usize) -> (id: usize)
        ensures
            id == old(self)@.buffer_views.len(),
            final(self)@ == (GltfView {
                buffer_views: old(self)@.buffer_views.push(GltfBufferView { buffer: 0, byte_length: length, byte_offset: start }),
                ..old(self)@
            }),
    {
        let id = self.buffer_views.len();
        self.buffer_views.push(GltfBufferView { buffer: 0, byte_length: length, byte_offset: start });
        id
    }

    /// Appends encoded vertex data to the binary buffer, with a view over it.
    fn add_raw_buffer(&mut self, data: &[u8]) -> (id: usize)
        requires
            old(self)@.data_buffer.len() + data@.len() <= usize::MAX,
        ensures
            id == old(self)@.buffer_views.len(),
            final(self)@ == (GltfView {
                data_buffer: old(self)@.data_buffer + data@,
                buffer_views: old(self)@.buffer_views.push(
                    GltfBufferView { buffer: 0, byte_length: data@.len() as usize, byte_offset: old(self)@.data_buffer.len() as usize },
                ),
                ..old(self)@
            }),
    {
        let start = self.data_buffer.len();
        push_bytes(&mut self.data_buffer, data);
        let end = self.data_buffer.len();
        self.create_buffer_view(start, end - start)
    }

    /// Appends indices to the binary buffer as little-endian `u32`s, with a view over them.
    fn add_index_buffer(&mut self, indices: &[u32]) -> (id: usize)
        requires
            old(self)@.data_buffer.len() + 4 * indices@.len() <= usize::MAX,
        ensures
            id == old(self)@.buffer_views.len(),
            final(self)@ == (GltfView {
                data_buffer: old(self)@.data_buffer + u32s_le_bytes(indices@),
                buffer_views: old(self)@.buffer_views.push(
                    GltfBufferView {
                        buffer: 0,
                        byte_length: (4 * indices@.len()) as usize,
                        byte_offset: old(self)@.data_buffer.len() as usize,
                    },
                ),
                ..old(self)@
            }),
    {
        let start = self.data_buffer.len();
        let ghost base = self@.data_buffer;
        let mut i: usize = 0;
        while i < indices.len()
            invariant
                i <= indices@.len(),
                base == old(self)@.data_buffer,
                start == base.len(),
                self@ == (GltfView { data_buffer: base + u32s_le_bytes(indices@.take(i as int)), ..old(self)@ }),
            decreases indices@.len() - i,
        {
            let ghost before = self@.data_buffer;
            push_u32_le(&mut self.data_buffer, indices[i]);
            i = i + 1;
            assert(u32s_le_bytes(indices@.take(i as int)) =~= u32s_le_bytes(indices@.take(i - 1)) + spec_u32_le_bytes(indices@[i - 1]));
            assert(self@.data_buffer =~= base + u32s_le_bytes(indices@.take(i as int)));
        }
        assert(indices@.take(i as int) =~= indices@);
        let end = self.data_buffer.len();
        self.create_buffer_view(start, end - start)
    }

    fn create_accessor(&mut self, buffer_view_id: usize, count: usize, data_typ: DataTyp) -> (id: usize)
        ensures
            id == old(self)@.accessors.len(),
            final(self)@ == (GltfView { accessors: final(self)@.accessors, ..old(self)@ }),
            final(self)@.accessors.len() == old(self)@.accessors.len() + 1,
            final(self)@.accessors.drop_last() == old(self)@.accessors,
            final(self)@.accessors.last().buffer_view == buffer_view_id,
            final(self)@.accessors.last().count == count,
            final(self)@.accessors.last().component_type == accessor_kind(data_typ).0,
            final(self)@.accessors.last().typ@ == accessor_kind(data_typ).1,
    {
        let id = self.accessors.len();
        let (component_type, typ) = match data_typ {
            DataTyp::Uint32 => (GL_UNSIGNED_INT, "SCALAR"),
            DataTyp::Vec2f => (GL_FLOAT, "VEC2"),
            DataTyp::Vec3f => (GL_FLOAT, "VEC3"),
            DataTyp::Vec4f => (GL_FLOAT, "VEC4"),
        };
        let accessor = GltfAccessor { buffer_view: buffer_view_id, component_type, count, typ: typ.to_owned() };
        self.accessors.push(accessor);
        assert(self@.accessors.drop_last() =~= old(self)@.accessors);
        id
    }
}


/// The accessor an attribute of `add_mesh_primitive` gets: over buffer view
/// `view`, `count` elements of the given kind.
pub open spec fn is_accessor(a: GltfAccessor, view: int, count: int, t: DataTyp) -> bool {
    &&& a.buffer_view == view
    &&& a.count == count
    &&& a.component_type == accessor_kind(t).0
    &&& a.typ@ == accessor_kind(t).1
}

/// `f` is `o` with a primitive added to mesh `mesh_id` as
/// `add_mesh_primitive` adds it: the four vertex buffers and the indices
/// appended, each with a buffer view and an accessor, and the primitive
/// over those accessors with material `material_id`.
pub open spec fn primitive_added(
    o: GltfView,
    f: GltfView,
    mesh_id: usize,
    vertex_count: usize,
    positions: Seq<u8>,
    normals: Seq<u8>,
    uvs: Seq<u8>,
    colors: Seq<u8>,
    indices: Seq<u32>,
    material_id: usize,
) -> bool {
    let nv = o.buffer_views.len() as int;
    let na = o.accessors.len() as int;
    &&& f.data_buffer == o.data_buffer + positions + normals + uvs + colors + u32s_le_bytes(indices)
    &&& f.buffer_views.len() == nv + 5
    &&& f.buffer_views.take(nv as int) == o.buffer_views
    &&& f.buffer_views[nv + 0] == GltfBufferView { buffer: 0, byte_length: positions.len() as usize, byte_offset: o.data_buffer.len() as usize }
    &&& f.buffer_views[nv + 1] == GltfBufferView { buffer: 0, byte_length: normals.len() as usize, byte_offset: (o.data_buffer.len() + positions.len()) as usize }
    &&& f.buffer_views[nv + 2] == GltfBufferView { buffer: 0, byte_length: uvs.len() as usize, byte_offset: (o.data_buffer.len() + positions.len() + normals.len()) as usize }
    &&& f.buffer_views[nv + 3] == GltfBufferView { buffer: 0, byte_length: colors.len() as usize, byte_offset: (o.data_buffer.len() + positions.len() + normals.len() + uvs.len()) as usize }
    &&& f.buffer_views[nv + 4] == GltfBufferView { buffer: 0, byte_length: (4 * indices.len()) as usize, byte_offset: (o.data_buffer.len() + positions.len() + normals.len() + uvs.len() + colors.len()) as usize }
    &&& f.accessors.len() == na + 5
    &&& f.accessors.take(na as int) == o.accessors
    &&& is_accessor(f.accessors[na + 0], nv + 0, vertex_count as int, DataTyp::Vec3f)
    &&& is_accessor(f.accessors[na + 1], nv + 1, vertex_count as int, DataTyp::Vec3f)
    &&& is_accessor(f.accessors[na + 2], nv + 2, vertex_count as int, DataTyp::Vec2f)
    &&& is_accessor(f.accessors[na + 3], nv + 3, vertex_count as int, DataTyp::Vec4f)
    &&& is_accessor(f.accessors[na + 4], nv + 4, indices.len() as int, DataTyp::Uint32)
    &&& f.meshes == o.meshes.update(
        mesh_id as int,
        (
            o.meshes[mesh_id as int].0,
            o.meshes[mesh_id as int].1.push(
                GltfPrimitive {
                    mode: 4,
                    attributes: GltfAttributes {
                        position: na as usize,
                        normal: (na + 1) as usize,
                        texcoord_0: (na + 2) as usize,
                        color_0: (na + 3) as usize,
                    },
                    indices: (na + 4) as usize,
                    material: material_id,
                },
            ),
        ),
    )
    &&& f.materials == o.materials
    &&& f.samplers == o.samplers
    &&& f.textures == o.textures
    &&& f.scenes == o.scenes
    &&& f.images == o.images
    &&& f.nodes == o.nodes
}

impl Gltf {
    /// Adds a triangle-list primitive to mesh `mesh_id`: appends the
    /// encoded positions, normals, texture coordinates and colours of its
    /// `vertex_count` vertices (3, 3, 2 and 4 `f32`s each), then its
    /// indices, each with a buffer view and an accessor, in that order.
    #[verifier::spinoff_prover]
    #[verifier::rlimit(40)]
    pub fn add_mesh_primitive(
        &mut self,
        mesh_id: usize,
        vertex_count: usize,
        positions: &[u8],
        normals: &[u8],
        uvs: &[u8],
        colors: &[u8],
        indices: &[u32],
        material_id: usize,
    )
        requires
            mesh_id < old(self)@.meshes.len(),
            positions@.len() == 12 * vertex_count,
            normals@.len() == 12 * vertex_count,
            uvs@.len() == 8 * vertex_count,
            colors@.len() == 16 * vertex_count,
            old(self)@.data_buffer.len() + positions@.len() + normals@.len() + uvs@.len() + colors@.len() + 4
                * indices@.len() <= usize::MAX,
        ensures
            primitive_added(
                old(self)@,
                final(self)@,
                mesh_id,
                vertex_count,
                positions@,
                normals@,
                uvs@,
                colors@,
                indices@,
                material_id,
            ),
    {
        let ghost o = self@;
        let vertex_view = self.add_raw_buffer(positions);
        let vertex_access = self.create_accessor(vertex_view, vertex_count, DataTyp::Vec3f);
        let normal_view = self.add_raw_buffer(normals);
        let normal_access = self.create_accessor(normal_view, vertex_count, DataTyp::Vec3f);
        let uv_view = self.add_raw_buffer(uvs);
        let uv_access = self.create_accessor(uv_view, vertex_count, DataTyp::Vec2f);
        let color_view = self.add_raw_buffer(colors);
        let color_access = self.create_accessor(color_view, vertex_count, DataTyp::Vec4f);
        let index_view = self.add_index_buffer(indices);
        let index_access = self.create_accessor(index_view, indices.len(), DataTyp::Uint32);
        let primitive = GltfPrimitive {
            mode: 4,
            attributes: GltfAttributes {
                position: vertex_access,
                normal: normal_access,
                texcoord_0: uv_access,
                color_0: color_access,
            },
            indices: index_access,
            material: material_id,
        };
        let ghost before = self@.meshes;
        self.meshes[mesh_id].primitives.push(primitive);
        assert(self@.meshes =~= before.update(mesh_id as int, (before[mesh_id as int].0, before[mesh_id as int].1.push(primitive))));
        assert(self@.data_buffer =~= o.data_buffer + positions@ + normals@ + uvs@ + colors@ + u32s_le_bytes(indices@));
        assert(self@.buffer_views.take(o.buffer_views.len() as int) =~= o.buffer_views);
        assert(self@.accessors.take(o.accessors.len() as int) =~= o.accessors);
    }

    pub fn create_node(&mut self, name: String, mesh_id: usize) -> (id: usize)
        ensures
            id == old(self)@.nodes.len(),
            final(self)@ == (GltfView { nodes: old(self)@.nodes.push(GltfNode { name, mesh: mesh_id }), ..old(self)@ }),
    {
        let id = self.nodes.len();
        self.nodes.push(GltfNode { name, mesh: mesh_id });
        id
    }

    pub fn create_scene(&mut self, name: String) -> (id: usize)
        ensures
            id == old(self)@.scenes.len(),
            final(self)@ == (GltfView { scenes: old(self)@.scenes.push((name, Seq::empty())), ..old(self)@ }),
    {
        let id = self.scenes.len();
        self.scenes.push(GltfScene { name, nodes: Vec::new() });
        assert(self@.scenes =~= old(self)@.scenes.push((name, Seq::<usize>::empty())));
        id
    }

    pub fn add_node_to_scene(&mut self, scene_id: usize, node_id: usize)
        requires
            scene_id < old(self)@.scenes.len(),
        ensures
            final(self)@ == (GltfView {
                scenes: old(self)@.scenes.update(
                    scene_id as int,
                    (old(self)@.scenes[scene_id as int].0, old(self)@.scenes[scene_id as int].1.push(node_id)),
                ),
                ..old(self)@
            }),
    {
        let ghost before = self@.scenes;
        self.scenes[scene_id].nodes.push(node_id);
        assert(self@.scenes =~= before.update(scene_id as int, (before[scene_id as int].0, before[scene_id as int].1.push(node_id))));
    }
}

// ---------------------------------------------------------------------------
// Whole meshes.

/// The encoded data of one primitive: `vertex_count` vertices (positions,
/// normals, texture coordinates and colours as little-endian `f32`s), the
/// triangle indices, and the material.
pub struct MeshPart {
    pub vertex_count: usize,
    pub positions: Vec<u8>,
    pub normals: Vec<u8>,
    pub uvs: Vec<u8>,
    pub colors: Vec<u8>,
    pub indices: Vec<u32>,
    pub material: usize,
}

/// The buffers of `p` hold 3, 3, 2 and 4 `f32`s for each vertex.
pub open spec fn part_fits(p: MeshPart) -> bool {
    &&& p.positions@.len() == 12 * p.vertex_count
    &&& p.normals@.len() == 12 * p.vertex_count
    &&& p.uvs@.len() == 8 * p.vertex_count
    &&& p.colors@.len() == 16 * p.vertex_count
}

/// The bytes `p` adds to the binary buffer.
pub open spec fn part_len(p: MeshPart) -> int {
    (p.positions@.len() + p.normals@.len() + p.uvs@.len() + p.colors@.len() + 4 * p.indices@.len()) as int
}

/// The bytes the parts `ps` add to the binary buffer.
pub open spec fn parts_len(ps: Seq<MeshPart>) -> int
    decreases ps.len(),
{
    if ps.len() == 0 {
        0
    } else {
        parts_len(ps.drop_last()) + part_len(ps.last())
    }
}

/// `f` is `o` with `p` added to mesh `mesh_id` by `add_mesh_primitive`.
pub open spec fn part_added(o: GltfView, f: GltfView, mesh_id: usize, p: MeshPart) -> bool {
    primitive_added(o, f, mesh_id, p.vertex_count, p.positions@, p.normals@, p.uvs@, p.colors@, p.indices@, p.material)
}

/// Each of `states` is the one before it with the next of the parts `ps`
/// added to mesh `mesh_id`.
pub open spec fn parts_chain(states: Seq<GltfView>, mesh_id: usize, ps: Seq<MeshPart>) -> bool {
    &&& states.len() == ps.len() + 1
    &&& forall|k: int| #![trigger ps[k]] 0 <= k < ps.len() ==> part_added(states[k], states[k + 1], mesh_id, ps[k])
}

proof fn lemma_parts_len_prefix(ps: Seq<MeshPart>, k: int)
    requires
        0 <= k <= ps.len(),
    ensures
        parts_len(ps.take(k)) <= parts_len(ps),
        k < ps.len() ==> parts_len(ps.take(k + 1)) == parts_len(ps.take(k)) + part_len(ps[k]),
    decreases ps.len() - k,
{
    if k < ps.len() {
        assert(ps.take(k + 1).drop_last() =~= ps.take(k));
        lemma_parts_len_prefix(ps, k + 1);
    } else {
        assert(ps.take(k) =~= ps);
    }
}

impl Gltf {
    /// Adds a mesh named `mesh_name` with the primitives `parts`, in order,
    /// and a node named `node_name` over it in scene `scene_id`. Gives the
    /// ids of the mesh and of the node.
    #[verifier::spinoff_prover]
    #[verifier::rlimit(40)]
    pub fn add_mesh(&mut self, scene_id: usize, mesh_name: String, node_name: String, parts: &[MeshPart]) -> (r: (
        usize,
        usize,
    ))
        requires
            scene_id < old(self)@.scenes.len(),
            forall|k: int| 0 <= k < parts@.len() ==> part_fits(#[trigger] parts@[k]),
            old(self)@.data_buffer.len() + parts_len(parts@) <= usize::MAX,
        ensures
            r.0 == old(self)@.meshes.len(),
            r.1 == old(self)@.nodes.len(),
            exists|states: Seq<GltfView>|
                #[trigger] parts_chain(states, r.0, parts@) && states[0] == (GltfView {
                    meshes: old(self)@.meshes.push((mesh_name, Seq::empty())),
                    ..old(self)@
                }) && final(self)@ == (GltfView {
                    nodes: states.last().nodes.push(GltfNode { name: node_name, mesh: r.0 }),
                    scenes: states.last().scenes.update(
                        scene_id as int,
                        (states.last().scenes[scene_id as int].0, states.last().scenes[scene_id as int].1.push(r.1)),
                    ),
                    ..states.last()
                }),
    {
        let mesh_id = self.create_mesh(mesh_name);
        let ghost m = self@;
        let ghost mut states: Seq<GltfView> = seq![m];
        assert(parts@.take(0) =~= Seq::<MeshPart>::empty());
        let mut k: usize = 0;
        while k < parts.len()
            invariant
                k <= parts@.len(),
                mesh_id == m.meshes.len() - 1,
                m.data_buffer.len() + parts_len(parts@) <= usize::MAX,
                forall|j: int| 0 <= j < parts@.len() ==> part_fits(#[trigger] parts@[j]),
                parts_chain(states, mesh_id, parts@.take(k as int)),
                states[0] == m,
                states.last() == self@,
                self@.data_buffer.len() == m.data_buffer.len() + parts_len(parts@.take(k as int)),
                self@.meshes.len() == m.meshes.len(),
                self@.nodes == m.nodes,
                self@.scenes == m.scenes,
            decreases parts@.len() - k,
        {
            let ghost before = self@;
            proof {
                lemma_parts_len_prefix(parts@, k as int);
                lemma_parts_len_prefix(parts@, k as int + 1);
            }
            let part = &parts[k];
            assert(part_fits(parts@[k as int]));
            self.add_mesh_primitive(
                mesh_id,
                part.vertex_count,
                part.positions.as_slice(),
                part.normals.as_slice(),
                part.uvs.as_slice(),
                part.colors.as_slice(),
                part.indices.as_slice(),
                part.material,
            );
            proof {
                let old_states = states;
                states = states.push(self@);
                let next = parts@.take(k + 1);
                assert forall|j: int| #![trigger next[j]] 0 <= j < next.len() implies part_added(
                    states[j],
                    states[j + 1],
                    mesh_id,
                    next[j],
                ) by {
                    if j < k {
                        assert(parts@.take(k as int)[j] == next[j]);
                        assert(states[j] == old_states[j]);
                        assert(states[j + 1] == old_states[j + 1]);
                    } else {
                        assert(next[j] == parts@[k as int]);
                    }
                }
            }
            k = k + 1;
        }
        assert(parts@.take(k as int) =~= parts@);
        let node_id = self.create_node(node_name, mesh_id);
        self.add_node_to_scene(scene_id, node_id);
        assert(parts_chain(states, mesh_id, parts@));
        (mesh_id, node_id)
    }
}

// ---------------------------------------------------------------------------
// The GLB container.

pub const GLB_MAGIC: u32 = 0x4654_6c67;
pub const GLB_VERSION: u32 = 2;
pub const GLB_CHUNK_JSON: u32 = 0x4e4f_534a;
pub const GLB_CHUNK_BIN: u32 = 0x004e_4942;

/// The JSON text padded with spaces: 4 minus its length modulo 4 of them
/// (so 4 where its length is already a multiple of 4).
pub open spec fn padded_json(json: Seq<u8>) -> Seq<u8> {
    json + Seq::new((4 - json.len() % 4) as nat, |i: int| 0x20u8)
}

/// The GLB file before its total length is filled in.
pub open spec fn glb_body(json: Seq<u8>, bin: Seq<u8>) -> Seq<u8> {
    spec_u32_le_bytes(GLB_MAGIC) + spec_u32_le_bytes(GLB_VERSION) + spec_u32_le_bytes(0) + spec_u32_le_bytes(
        padded_json(json).len() as u32,
    ) + spec_u32_le_bytes(GLB_CHUNK_JSON) + padded_json(json) + spec_u32_le_bytes(bin.len() as u32)
        + spec_u32_le_bytes(GLB_CHUNK_BIN) + bin
}

/// A GLB file: header (magic, version, total length), a JSON chunk, and a
/// binary chunk; lengths are taken modulo 2^32.
pub open spec fn glb_bytes(json: Seq<u8>, bin: Seq<u8>) -> Seq<u8> {
    let body = glb_body(json, bin);
    body.subrange(0, 8) + spec_u32_le_bytes(body.len() as u32) + body.subrange(12, body.len() as int)
}

/// Frames the glTF JSON text and the binary buffer as a GLB file.
#[verifier::spinoff_prover]
#[verifier::rlimit(40)]
pub fn glb_container(json: &[u8], bin: &[u8]) -> (r: Vec<u8>)
    requires
        json@.len() + bin@.len() + 32 <= usize::MAX,
    ensures
        r@ == glb_bytes(json@, bin@),
{
    let mut text: Vec<u8> = Vec::new();
    push_bytes(&mut text, json);
    let padding = json.len() % 4;
    let mut i: usize = 0;
    while i < 4 - padding
        invariant
            padding == json@.len() % 4,
            i <= 4 - padding,
            text@ == json@ + Seq::new(i as nat, |k: int| 0x20u8),
        decreases 4 - padding - i,
    {
        text.push(0x20);
        i = i + 1;
        assert(text@ =~= json@ + Seq::new(i as nat, |k: int| 0x20u8));
    }
    assert(text@ == padded_json(json@));
    let mut out: Vec<u8> = Vec::new();
    push_u32_le(&mut out, GLB_MAGIC);
    push_u32_le(&mut out, GLB_VERSION);
    push_u32_le(&mut out, 0);
    #[verifier::truncate]
    let text_len = text.len() as u32;
    push_u32_le(&mut out, text_len);
    push_u32_le(&mut out, GLB_CHUNK_JSON);
    push_bytes(&mut out, text.as_slice());
    #[verifier::truncate]
    let bin_len = bin.len() as u32;
    push_u32_le(&mut out, bin_len);
    push_u32_le(&mut out, GLB_CHUNK_BIN);
    push_bytes(&mut out, bin);
    assert(out@ =~= glb_body(json@, bin@));
    #[verifier::truncate]
    let total_size = out.len() as u32;
    let ghost body = out@;
    out.set(8, (total_size % 256) as u8);
    out.set(9, ((total_size / 256) % 256) as u8);
    out.set(10, ((total_size / 65536) % 256) as u8);
    out.set(11, (total_size / 16777216) as u8);
    assert(out@ =~= body.subrange(0, 8) + spec_u32_le_bytes(body.len() as u32) + body.subrange(12, body.len() as int));
    out
}

} // verus!
