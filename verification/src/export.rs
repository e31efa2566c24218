//! The textures a map uses, encoded as PNG files and written into its glTF
//! document as images with textures over them.

use vstd::prelude::*;
use crate::gltf::{Gltf, GltfView, GltfBufferView, GltfTexture};
use crate::texture::{TextureLoader, LoaderView};
use crate::util::{write_texture_to_png, texture_png_of};

verus! {

/// The PNG file of texture `id` of the loader, or `None` where the
/// encoder refuses it.
pub open spec fn texture_png(v: LoaderView, id: usize) -> Option<Seq<u8>> {
    texture_png_of(v.textures[id as int].1)
}

/// Encodes each texture of `ids`, in order, as a PNG file, with its name;
/// `None` where the encoder refuses one of them.
pub fn encode_textures(loader: &TextureLoader, ids: &[usize]) -> (r: Option<Vec<(String, Vec<u8>)>>)
    requires
        forall|k: int| 0 <= k < ids@.len() ==> #[trigger] ids@[k] < loader@.textures.len(),
    ensures
        r is Some <==> forall|k: int| 0 <= k < ids@.len() ==> #[trigger] texture_png(loader@, ids@[k]) is Some,
        r matches Some(v) ==> {
            &&& v@.len() == ids@.len()
            &&& forall|k: int|
                0 <= k < ids@.len() ==> {
                    &&& (#[trigger] v@[k]).0@ == loader@.textures[ids@[k] as int].0
                    &&& Some(v@[k].1@) == texture_png(loader@, ids@[k])
                }
        },
{
    let mut out: Vec<(String, Vec<u8>)> = Vec::new();
    let mut k: usize = 0;
    while k < ids.len()
        invariant
            k <= ids@.len(),
            forall|j: int| 0 <= j < ids@.len() ==> #[trigger] ids@[j] < loader@.textures.len(),
            out@.len() == k,
            forall|j: int|
                0 <= j < k ==> {
                    &&& (#[trigger] out@[j]).0@ == loader@.textures[ids@[j] as int].0
                    &&& Some(out@[j].1@) == texture_png(loader@, ids@[j])
                },
        decreases ids@.len() - k,
    {
        let id = ids[k];
        let texture = match loader.load_from_id(id) {
            Some(t) => t,
            None => {
                assert(false);
                return None;
            },
        };
        let name = match loader.get_name_from_id(id) {
            Some(n) => n.clone(),
            None => {
                assert(false);
                return None;
            },
        };
        let png = match write_texture_to_png(texture) {
            Some(bytes) => bytes,
            None => {
                assert(texture_png(loader@, ids@[k as int]) is None);
                return None;
            },
        };
        let ghost before = out@;
        out.push((name, png));
        assert forall|j: int| 0 <= j < k implies #[trigger] out@[j] == before[j] by {}
        k = k + 1;
    }
    assert forall|j: int| 0 <= j < ids@.len() implies #[trigger] texture_png(loader@, ids@[j]) is Some by {
        assert(Some(out@[j].1@) == texture_png(loader@, ids@[j]));
    }
    Some(out)
}

/// The bytes of `s`, one after the other.
pub open spec fn concat_bytes(s: Seq<Seq<u8>>) -> Seq<u8>
    decreases s.len(),
{
    if s.len() == 0 {
        Seq::empty()
    } else {
        concat_bytes(s.drop_last()) + s.last()
    }
}

pub open spec fn png_bytes(pngs: Seq<(String, Vec<u8>)>) -> Seq<Seq<u8>> {
    pngs.map_values(|p: (String, Vec<u8>)| p.1@)
}

/// Adds the PNG files `pngs` to the document: for each, in order, its bytes
/// with a buffer view, an image, and a texture over the image with sampler
/// `sampler`. Gives the ids of the textures.
pub fn add_textures(gltf: &mut Gltf, pngs: &[(String, Vec<u8>)], sampler: usize) -> (r: Vec<usize>)
    requires
        old(gltf)@.data_buffer.len() + concat_bytes(png_bytes(pngs@)).len() <= usize::MAX,
    ensures
        ({
            let o = old(gltf)@;
            let f = final(gltf)@;
            let n = pngs@.len() as int;
            let bytes = png_bytes(pngs@);
            &&& r@.len() == n
            &&& forall|k: int| 0 <= k < n ==> #[trigger] r@[k] == o.textures.len() + k
            &&& f.data_buffer == o.data_buffer + concat_bytes(bytes)
            &&& f.buffer_views == o.buffer_views + Seq::new(
                n as nat,
                |k: int|
                    GltfBufferView {
                        buffer: 0,
                        byte_length: bytes[k].len() as usize,
                        byte_offset: (o.data_buffer.len() + concat_bytes(bytes.take(k)).len()) as usize,
                    },
            )
            &&& f.images.len() == o.images.len() + n
            &&& f.images.take(o.images.len() as int) == o.images
            &&& forall|k: int|
                0 <= k < n ==> {
                    &&& (#[trigger] f.images[o.images.len() + k]).name == pngs@[k].0
                    &&& f.images[o.images.len() + k].mime_type@ == "image/png"@
                    &&& f.images[o.images.len() + k].buffer_view == o.buffer_views.len() + k
                }
            &&& f.textures == o.textures + Seq::new(
                n as nat,
                |k: int| GltfTexture { name: pngs@[k].0, sampler, source: (o.images.len() + k) as usize },
            )
            &&& f.materials == o.materials
            &&& f.accessors == o.accessors
            &&& f.samplers == o.samplers
            &&& f.scenes == o.scenes
            &&& f.meshes == o.meshes
            &&& f.nodes == o.nodes
        }),
{
    let ghost o = gltf@;
    let ghost bytes = png_bytes(pngs@);
    let mut ids: Vec<usize> = Vec::new();
    let mut k: usize = 0;
    while k < pngs.len()
        invariant
            o == old(gltf)@,
            bytes == png_bytes(pngs@),
            k <= pngs@.len(),
            o.data_buffer.len() + concat_bytes(bytes).len() <= usize::MAX,
            ids@.len() == k,
            forall|j: int| 0 <= j < k ==> #[trigger] ids@[j] == o.textures.len() + j,
            gltf@.data_buffer == o.data_buffer + concat_bytes(bytes.take(k as int)),
            gltf@.buffer_views == o.buffer_views + Seq::new(
                k as nat,
                |j: int|
                    GltfBufferView {
                        buffer: 0,
                        byte_length: bytes[j].len() as usize,
                        byte_offset: (o.data_buffer.len() + concat_bytes(bytes.take(j)).len()) as usize,
                    },
            ),
            gltf@.images.len() == o.images.len() + k,
            gltf@.images.take(o.images.len() as int) == o.images,
            forall|j: int|
                0 <= j < k ==> {
                    &&& (#[trigger] gltf@.images[o.images.len() + j]).name == pngs@[j].0
                    &&& gltf@.images[o.images.len() + j].mime_type@ == "image/png"@
                    &&& gltf@.images[o.images.len() + j].buffer_view == o.buffer_views.len() + j
                },
            gltf@.textures == o.textures + Seq::new(
                k as nat,
                |j: int| GltfTexture { name: pngs@[j].0, sampler, source: (o.images.len() + j) as usize },
            ),
            gltf@.materials == o.materials,
            gltf@.accessors == o.accessors,
            gltf@.samplers == o.samplers,
            gltf@.scenes == o.scenes,
            gltf@.meshes == o.meshes,
            gltf@.nodes == o.nodes,
        decreases pngs@.len() - k,
    {
        let ghost before = gltf@;
        proof {
            lemma_concat_take_step(bytes, k as int);
            lemma_concat_take_len(bytes, k as int + 1);
        }
        let image_id = gltf.create_image(pngs[k].0.clone(), pngs[k].1.as_slice());
        let ghost after_image = gltf@;
        assert(after_image.images.last().name == pngs@[k as int].0);
        assert(after_image.images.last().buffer_view == o.buffer_views.len() + k);
        let texture_id = gltf.create_texture(pngs[k].0.clone(), sampler, image_id);
        assert(gltf@.images == after_image.images);
        ids.push(texture_id);
        proof {
            assert(bytes[k as int] == pngs@[k as int].1@);
            assert(gltf@.buffer_views =~= o.buffer_views + Seq::new(
                (k + 1) as nat,
                |j: int|
                    GltfBufferView {
                        buffer: 0,
                        byte_length: bytes[j].len() as usize,
                        byte_offset: (o.data_buffer.len() + concat_bytes(bytes.take(j)).len()) as usize,
                    },
            ));
            assert(gltf@.textures =~= o.textures + Seq::new(
                (k + 1) as nat,
                |j: int| GltfTexture { name: pngs@[j].0, sampler, source: (o.images.len() + j) as usize },
            ));
            assert(gltf@.images.take(o.images.len() as int) =~= o.images);
            assert forall|j: int| 0 <= j < k + 1 implies {
                &&& (#[trigger] gltf@.images[o.images.len() + j]).name == pngs@[j].0
                &&& gltf@.images[o.images.len() + j].mime_type@ == "image/png"@
                &&& gltf@.images[o.images.len() + j].buffer_view == o.buffer_views.len() + j
            } by {
                if j < k {
                    assert(gltf@.images[o.images.len() + j] == before.images[o.images.len() + j]);
                } else {
                    assert(o.images.len() + j == after_image.images.len() - 1);
                }
            }
        }
        k = k + 1;
    }
    assert(bytes.take(k as int) =~= bytes);
    ids
}

proof fn lemma_concat_take_step(s: Seq<Seq<u8>>, k: int)
    requires
        0 <= k < s.len(),
    ensures
        concat_bytes(s.take(k + 1)) == concat_bytes(s.take(k)) + s[k],
{
    assert(s.take(k + 1).drop_last() =~= s.take(k));
}

proof fn lemma_concat_take_len(s: Seq<Seq<u8>>, k: int)
    requires
        0 <= k <= s.len(),
    ensures
        concat_bytes(s.take(k)).len() <= concat_bytes(s).len(),
    decreases s.len() - k,
{
    if k < s.len() {
        lemma_concat_take_step(s, k);
        lemma_concat_take_len(s, k + 1);
    } else {
        assert(s.take(k) =~= s);
    }
}

} // verus!
