//! Helpers: names from NUL-padded fields, triangle fans, and PNG encoding
//! of textures.

use vstd::prelude::*;
use vstd::utf8::*;
use crate::binary::{name_part, name_end, utf8_to_string};
use crate::texture::{Texture, TextureView};

verus! {

/// The string held in a NUL-padded field: its bytes up to the first zero,
/// read as UTF-8.
pub fn array_to_string(arr: &[u8]) -> (r: String)
    requires
        valid_utf8(name_part(arr@)),
    ensures
        r@ == decode_utf8(name_part(arr@)),
{
    let len = name_end(arr);
    let bytes: &[u8] = &arr[0..len];
    match utf8_to_string(bytes) {
        Some(s) => s,
        None => {
            assert(false);
            String::new()
        },
    }
}

/// Index `k` of the triangle fan over `n` points: triangle `k / 3` joins
/// point 0 with points `k / 3 + 1` and `k / 3 + 2`, in clockwise order or
/// the reverse.
pub open spec fn fan_index(k: int, clockwise: bool) -> u32 {
    let t = k / 3 + 2;
    let corner = k % 3;
    if corner == 0 {
        0
    } else if (corner == 1) == clockwise {
        (t - 1) as u32
    } else {
        t as u32
    }
}

/// The number of indices of the triangle fan over `n` points.
pub open spec fn fan_len(n: int) -> nat {
    if n >= 3 {
        (3 * (n - 2)) as nat
    } else {
        0
    }
}

pub open spec fn triangle_fan(n: int, clockwise: bool) -> Seq<u32> {
    Seq::new(fan_len(n), |k: int| fan_index(k, clockwise))
}

/// Splits a convex polygon into the triangles that share its first point.
pub fn triangulate<V>(polygon: &[V], clockwise: bool) -> (r: Vec<u32>)
    ensures
        r@ == triangle_fan(polygon@.len() as int, clockwise),
{
    let mut indices: Vec<u32> = Vec::new();
    let p0: u32 = 0;
    let mut p1: u32 = 1;
    let mut index: usize = 2;
    while index < polygon.len()
        invariant
            2 <= index <= polygon@.len() || (index == 2 && polygon@.len() < 2),
            p0 == 0,
            p1 == (index - 1) as u32,
            indices@ =~= triangle_fan(index as int, clockwise),
        decreases polygon@.len() - index,
    {
        #[verifier::truncate]
        let p2 = index as u32;
        let ghost before = indices@;
        if clockwise {
            indices.push(p0);
            indices.push(p1);
            indices.push(p2);
        } else {
            indices.push(p0);
            indices.push(p2);
            indices.push(p1);
        }
        proof {
            assert forall|k: int| 0 <= k < fan_len(index + 1) implies #[trigger] indices@[k] == fan_index(k, clockwise) by {
                if k >= fan_len(index as int) {
                    // The three indices just pushed: triangle `index - 2` of the fan.
                    assert(k / 3 + 2 == index);
                    assert(k % 3 == k - 3 * (index - 2));
                } else {
                    assert(indices@[k] == before[k]);
                }
            }
        }
        p1 = p2;
        index = index + 1;
    }
    indices
}

/// What the `png` crate gives for an 8-bit RGBA image of `width` by
/// `height` pixels with these pixel bytes, at its default settings: the PNG
/// file it writes, or `None` where it refuses the image.
pub uninterp spec fn png_rgba8_encoding(width: u32, height: u32, pixels: Seq<u8>) -> Option<Seq<u8>>;

/// Encodes with `png::Encoder`, 8-bit RGBA, into memory. Trusted: whether it
/// succeeds, and the bytes it gives, are named as a function of the
/// arguments alone (it writes into memory only); the `png` source refuses a
/// zero width or height (`write_header`) and a pixel buffer that is not
/// `width * height * 4` bytes long (`write_image_data`, which computes that
/// length in `usize`, hence the bound asked for). On which other images it
/// succeeds is not stated.
#[verifier::external_body]
fn encode_png_rgba8(width: u32, height: u32, pixels: &[u8]) -> (r: Result<Vec<u8>, png::EncodingError>)
    requires
        width * height * 4 <= usize::MAX,
    ensures
        match png_rgba8_encoding(width, height, pixels@) {
            Some(b) => r matches Ok(bytes) && bytes@ == b,
            None => r is Err,
        },
        (width == 0 || height == 0 || pixels@.len() != width * height * 4) ==> r is Err,
{
    let mut result = Vec::new();
    {
        let mut encoder = png::Encoder::new(std::io::BufWriter::new(&mut result), width, height);
        encoder.set_color(png::ColorType::Rgba);
        encoder.set_depth(png::BitDepth::Eight);
        let mut writer = encoder.write_header()?;
        writer.write_image_data(pixels)?;
    }
    Ok(result)
}

/// `png::EncodingError`, the error of the `png` encoder, carried as an
/// opaque value.
#[verifier::external_type_specification]
#[verifier::external_body]
pub struct ExEncodingError(png::EncodingError);

/// The encoder refuses the texture outright: a width or a height of 0
/// (modulo 2^32), or pixels that are not 4 bytes each.
pub open spec fn png_refused(t: TextureView) -> bool {
    (t.width as u32) == 0 || (t.height as u32) == 0 || t.pixels.len() != (t.width as u32) * (t.height as u32) * 4
}

/// The PNG file of a texture, its dimensions taken modulo 2^32, or `None`
/// where the encoder refuses it.
pub open spec fn texture_png_of(t: TextureView) -> Option<Seq<u8>> {
    if png_refused(t) {
        None
    } else {
        png_rgba8_encoding(t.width as u32, t.height as u32, t.pixels)
    }
}

/// The texture as a PNG file, its dimensions taken modulo 2^32; `None`
/// where the encoder refuses it.
pub fn write_texture_to_png(texture: &Texture) -> (r: Option<Vec<u8>>)
    ensures
        match texture_png_of(texture@) {
            Some(b) => r matches Some(bytes) && bytes@ == b,
            None => r is None,
        },
{
    #[verifier::truncate]
    let width = texture.width() as u32;
    #[verifier::truncate]
    let height = texture.height() as u32;
    let pixels = texture.pixels();
    // A buffer of another length is refused; checking it first also keeps
    // the encoder's own length arithmetic from overflowing.
    let expected = match (width as usize).checked_mul(height as usize) {
        Some(area) => area.checked_mul(4),
        None => None,
    };
    let len = pixels.len();
    match expected {
        Some(n) => if n != len {
            return None;
        },
        None => return None,
    }
    match encode_png_rgba8(width, height, pixels) {
        Ok(bytes) => Some(bytes),
        Err(_) => None,
    }
}

} // verus!
