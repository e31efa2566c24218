//! Palettes, colour maps and the graphics lumps of a WAD, decoded into RGBA
//! textures, and the loader that collects them by name.

use vstd::prelude::*;
use vstd::utf8::*;
use vstd::string::StringSliceAdditionalSpecFns;
use crate::binary::{
    spec_i16_le, spec_u16_le, spec_u32_le, read_i16_le, read_u16_le, read_u32_le, name_part, name_end,
    bytes_eq, str_eq, str_from_utf8, utf8_to_string, spec_to_uppercase, str_to_uppercase,
};
use crate::wad::{Error, Wad, WadView, first_failing_from, lemma_first_failing};

verus! {

pub const MAX_PALETTE_COLORS: usize = 256;
pub const MAX_COLOR_MAPS: usize = 34;
pub const FLAT_TEXTURE_WIDTH: usize = 64;
pub const FLAT_TEXTURE_HEIGHT: usize = 64;

#[derive(Copy, Clone, PartialEq, Eq, Debug, Structural)]
pub enum TextureTyp {
    Flat,
    Patch,
    Texture,
}

/// A patch placed into a composite texture.
pub struct Patch {
    name: String,
    origin_x: isize,
    origin_y: isize,
}

pub struct PatchView {
    pub name: Seq<char>,
    pub origin_x: int,
    pub origin_y: int,
}

impl View for Patch {
    type V = PatchView;

    closed spec fn view(&self) -> PatchView {
        PatchView { name: self.name@, origin_x: self.origin_x as int, origin_y: self.origin_y as int }
    }
}

impl Patch {
    pub fn name(&self) -> (r: &String)
        ensures
            r@ == self@.name,
    {
        &self.name
    }

    pub fn origin_x(&self) -> (r: isize)
        ensures
            r == self@.origin_x,
    {
        self.origin_x
    }

    pub fn origin_y(&self) -> (r: isize)
        ensures
            r == self@.origin_y,
    {
        self.origin_y
    }
}

/// The patches a composite texture was drawn from.
pub struct TextureComposition {
    patches: Vec<Patch>,
}

impl View for TextureComposition {
    type V = Seq<PatchView>;

    closed spec fn view(&self) -> Seq<PatchView> {
        self.patches@.map_values(|p: Patch| p@)
    }
}

impl TextureComposition {
    pub fn patches(&self) -> (r: &Vec<Patch>)
        ensures
            r@.map_values(|p: Patch| p@) == self@,
    {
        &self.patches
    }
}

/// An RGBA texture: `width * height` pixels of 4 bytes, row by row.
pub struct Texture {
    typ: TextureTyp,
    width: usize,
    height: usize,
    pixels: Vec<u8>,
    composition: Option<TextureComposition>,
}

pub struct TextureView {
    pub typ: TextureTyp,
    pub width: nat,
    pub height: nat,
    pub pixels: Seq<u8>,
    pub composition: Option<Seq<PatchView>>,
}

impl View for Texture {
    type V = TextureView;

    closed spec fn view(&self) -> TextureView {
        TextureView {
            typ: self.typ,
            width: self.width as nat,
            height: self.height as nat,
            pixels: self.pixels@,
            composition: match self.composition {
                Some(c) => Some(c@),
                None => None,
            },
        }
    }
}

impl Texture {
    pub fn new(typ: TextureTyp, width: usize, height: usize, pixels: Vec<u8>) -> (r: Self)
        ensures
            r@ == (TextureView { typ, width: width as nat, height: height as nat, pixels: pixels@, composition: None }),
    {
        Self { typ, width, height, pixels, composition: None }
    }

    pub fn typ(&self) -> (r: TextureTyp)
        ensures
            r == self@.typ,
    {
        self.typ
    }

    pub fn width(&self) -> (r: usize)
        ensures
            r == self@.width,
    {
        self.width
    }

    pub fn height(&self) -> (r: usize)
        ensures
            r == self@.height,
    {
        self.height
    }

    pub fn pixels(&self) -> (r: &[u8])
        ensures
            r@ == self@.pixels,
    {
        self.pixels.as_slice()
    }

    pub fn composition(&self) -> (r: Option<&TextureComposition>)
        ensures
            r is Some == self@.composition is Some,
            r matches Some(c) ==> self@.composition == Some(c@),
    {
        match &self.composition {
            Some(c) => Some(c),
            None => None,
        }
    }
}

#[derive(Copy, Clone, Default, Debug)]
pub struct PaletteColor {
    pub r: u8,
    pub g: u8,
    pub b: u8,
}

/// 256 colours.
pub struct Palette {
    colors: Vec<PaletteColor>,
}

impl Palette {
    #[verifier::type_invariant]
    spec fn has_all_colors(&self) -> bool {
        self.colors@.len() == MAX_PALETTE_COLORS
    }
}

impl View for Palette {
    type V = Seq<PaletteColor>;

    closed spec fn view(&self) -> Seq<PaletteColor> {
        self.colors@
    }
}

impl Clone for Palette {
    fn clone(&self) -> (r: Self)
        ensures
            r@ == self@,
    {
        proof {
            use_type_invariant(self);
        }
        let colors = self.colors.clone();
        assert(colors@ =~= self.colors@);
        Palette { colors }
    }
}

impl Palette {
    pub fn get(&self, index: usize) -> (r: PaletteColor)
        requires
            index < MAX_PALETTE_COLORS,
        ensures
            r == self@[index as int],
    {
        proof {
            use_type_invariant(self);
        }
        self.colors[index]
    }
}

/// 256 palette indices, one for each palette index.
pub struct ColorMap {
    map: Vec<usize>,
}

impl ColorMap {
    #[verifier::type_invariant]
    spec fn maps_into_palette(&self) -> bool {
        &&& self.map@.len() == MAX_PALETTE_COLORS
        &&& forall|i: int| 0 <= i < MAX_PALETTE_COLORS ==> #[trigger] self.map@[i] < MAX_PALETTE_COLORS
    }
}

impl View for ColorMap {
    type V = Seq<usize>;

    closed spec fn view(&self) -> Seq<usize> {
        self.map@
    }
}

impl Clone for ColorMap {
    fn clone(&self) -> (r: Self)
        ensures
            r@ == self@,
    {
        proof {
            use_type_invariant(self);
        }
        let map = self.map.clone();
        assert(map@ =~= self.map@);
        ColorMap { map }
    }
}

/// The colour of palette index `index` through a colour map.
pub open spec fn mapped_color(cm: Seq<usize>, pal: Seq<PaletteColor>, index: int) -> PaletteColor {
    pal[cm[index] as int]
}

impl ColorMap {
    pub fn get(&self, index: usize) -> (r: usize)
        requires
            index < MAX_PALETTE_COLORS,
        ensures
            r == self@[index as int],
            r < MAX_PALETTE_COLORS,
    {
        proof {
            use_type_invariant(self);
        }
        self.map[index]
    }

    pub fn get_color_from_palette(&self, palette: &Palette, index: usize) -> (r: PaletteColor)
        requires
            index < MAX_PALETTE_COLORS,
        ensures
            r == mapped_color(self@, palette@, index as int),
    {
        let palette_index = self.get(index);
        palette.get(palette_index)
    }
}

/// Channel `ch` of a pixel of colour `c`: red, green, blue, then an opaque alpha.
pub open spec fn rgba(c: PaletteColor, ch: int) -> u8 {
    if ch == 0 {
        c.r
    } else if ch == 1 {
        c.g
    } else if ch == 2 {
        c.b
    } else {
        0xff
    }
}

fn push_rgba(pixels: &mut Vec<u8>, c: PaletteColor)
    ensures
        final(pixels)@ == old(pixels)@ + seq![c.r, c.g, c.b, 0xffu8],
{
    pixels.push(c.r);
    pixels.push(c.g);
    pixels.push(c.b);
    pixels.push(0xff);
}

// ---------------------------------------------------------------------------
// PLAYPAL and COLORMAP.

/// Palette `p` of a PLAYPAL lump: 256 colours of 3 bytes each.
pub open spec fn palette_record(d: Seq<u8>, p: int) -> Seq<PaletteColor> {
    Seq::new(
        256,
        |c: int| PaletteColor { r: d[768 * p + 3 * c], g: d[768 * p + 3 * c + 1], b: d[768 * p + 3 * c + 2] },
    )
}

/// The palettes of a PLAYPAL lump; trailing bytes that make no whole palette are ignored.
pub open spec fn palettes_of(d: Seq<u8>) -> Seq<Seq<PaletteColor>> {
    Seq::new((d.len() / 3) / 256, |p: int| palette_record(d, p))
}

/// Finding the lump `name` stays inside the file, and finds a lump that can be read.
pub open spec fn named_lump_fits(w: WadView, name: Seq<u8>) -> bool {
    &&& w.find_fits(name)
    &&& w.find(name) matches Ok(i) ==> w.lump_fits(i as int) && w.lump(i as int) is Ok
}

/// Reads every palette of the PLAYPAL lump; `None` without one.
pub fn read_all_palettes(wad: &Wad) -> (res: Option<Vec<Palette>>)
    requires
        named_lump_fits(wad@, "PLAYPAL".spec_bytes()),
    ensures
        match wad@.find("PLAYPAL".spec_bytes()) {
            Err(_) => res is None,
            Ok(i) => res matches Some(v) && v@.map_values(|p: Palette| p@) == palettes_of(
                wad@.lump(i as int).unwrap(),
            ),
        },
{
    let index = match wad.find_dir("PLAYPAL") {
        Ok(i) => i,
        Err(_) => return None,
    };
    let playpal = match wad.read_dir(index) {
        Ok(d) => d,
        Err(_) => return None,
    };
    let num_colors = playpal.len() / 3;
    let palette_count = num_colors / MAX_PALETTE_COLORS;
    let mut palettes: Vec<Palette> = Vec::new();
    let mut palette: usize = 0;
    while palette < palette_count
        invariant
            palette_count == (playpal.len() / 3) / 256,
            palette <= palette_count,
            palettes@.len() == palette,
            forall|q: int| 0 <= q < palette ==> #[trigger] palettes@[q]@ == palette_record(playpal@, q),
        decreases palette_count - palette,
    {
        proof {
            lemma_palette_in_lump(playpal.len() as int, palette as int, 0);
        }
        let data_start = palette * 768;
        let mut colors: Vec<PaletteColor> = Vec::new();
        let mut color_index: usize = 0;
        while color_index < 256
            invariant
                palette < palette_count,
                palette_count == (playpal.len() / 3) / 256,
                data_start == 768 * palette,
                color_index <= 256,
                colors@.len() == color_index,
                forall|c: int| 0 <= c < color_index ==> #[trigger] colors@[c] == palette_record(playpal@, palette as int)[c],
            decreases 256 - color_index,
        {
            proof {
                lemma_palette_in_lump(playpal.len() as int, palette as int, color_index as int);
            }
            let start = color_index * 3 + data_start;
            let r = playpal[start];
            let g = playpal[start + 1];
            let b = playpal[start + 2];
            colors.push(PaletteColor { r, g, b });
            color_index = color_index + 1;
        }
        assert(colors@ =~= palette_record(playpal@, palette as int));
        palettes.push(Palette { colors });
        palette = palette + 1;
    }
    assert(palettes@.map_values(|p: Palette| p@) =~= palettes_of(playpal@));
    Some(palettes)
}

proof fn lemma_palette_in_lump(len: int, p: int, c: int)
    by (nonlinear_arith)
    requires
        0 <= p < (len / 3) / 256,
        0 <= c < 256,
    ensures
        768 * p + 3 * c + 3 <= len,
{
}

/// Colour map `m` of a COLORMAP lump: 256 palette indices.
pub open spec fn color_map_record(d: Seq<u8>, m: int) -> Seq<usize> {
    Seq::new(256, |j: int| d[256 * m + j] as usize)
}

/// A COLORMAP lump holds at least the 34 colour maps that are read from it.
pub open spec fn color_maps_fit(w: WadView) -> bool {
    &&& named_lump_fits(w, "COLORMAP".spec_bytes())
    &&& w.find("COLORMAP".spec_bytes()) matches Ok(i) ==> w.lump(i as int).unwrap().len() >= 34 * 256
}

/// Reads the 34 colour maps of the COLORMAP lump; `None` without one.
pub fn read_all_color_maps(wad: &Wad) -> (res: Option<Vec<ColorMap>>)
    requires
        color_maps_fit(wad@),
    ensures
        match wad@.find("COLORMAP".spec_bytes()) {
            Err(_) => res is None,
            Ok(i) => res matches Some(v) && v@.len() == MAX_COLOR_MAPS && forall|m: int|
                0 <= m < MAX_COLOR_MAPS ==> #[trigger] v@[m]@ == color_map_record(
                    wad@.lump(i as int).unwrap(),
                    m,
                ),
        },
{
    let index = match wad.find_dir("COLORMAP") {
        Ok(i) => i,
        Err(_) => return None,
    };
    let table = match wad.read_dir(index) {
        Ok(d) => d,
        Err(_) => return None,
    };
    let mut color_maps: Vec<ColorMap> = Vec::new();
    let mut color_map_index: usize = 0;
    while color_map_index < MAX_COLOR_MAPS
        invariant
            table@.len() >= 34 * 256,
            color_map_index <= MAX_COLOR_MAPS,
            color_maps@.len() == color_map_index,
            forall|m: int| 0 <= m < color_map_index ==> #[trigger] color_maps@[m]@ == color_map_record(table@, m),
        decreases MAX_COLOR_MAPS - color_map_index,
    {
        let data_start = color_map_index * MAX_PALETTE_COLORS;
        let mut map: Vec<usize> = Vec::new();
        let mut index: usize = 0;
        while index < MAX_PALETTE_COLORS
            invariant
                table@.len() >= 34 * 256,
                color_map_index < MAX_COLOR_MAPS,
                data_start == 256 * color_map_index,
                index <= 256,
                map@.len() == index,
                forall|j: int| 0 <= j < index ==> #[trigger] map@[j] == table@[256 * color_map_index + j] as usize,
            decreases 256 - index,
        {
            let palette_index = table[index + data_start] as usize;
            map.push(palette_index);
            index = index + 1;
        }
        assert(map@ =~= color_map_record(table@, color_map_index as int));
        color_maps.push(ColorMap { map });
        color_map_index = color_map_index + 1;
    }
    Some(color_maps)
}


// ---------------------------------------------------------------------------
// Flats and patches.

/// The texture that a flat lump `d` gives: 64 by 64 palette indices, row by row.
pub open spec fn flat_texture(d: Seq<u8>, cm: Seq<usize>, pal: Seq<PaletteColor>) -> TextureView {
    TextureView {
        typ: TextureTyp::Flat,
        width: 64,
        height: 64,
        pixels: Seq::new(64 * 64 * 4, |k: int| rgba(mapped_color(cm, pal, d[k / 4] as int), k % 4)),
        composition: None,
    }
}

/// Looking up the lump `name` stays inside the file, and the lump it finds
/// satisfies `fits`.
pub open spec fn found_lump_fits(w: WadView, name: Seq<u8>, fits: spec_fn(Seq<u8>) -> bool) -> bool {
    &&& w.find_fits(name)
    &&& w.find(name) matches Ok(i) ==> w.lump_fits(i as int) && (w.lump(i as int) matches Ok(d) ==> fits(d))
}

/// A flat lump holds its 4096 palette indices.
pub open spec fn flat_fits(d: Seq<u8>) -> bool {
    d.len() >= 64 * 64
}

/// Decodes the flat named `name` through the colour map and the palette.
pub fn read_flat_texture(wad: &Wad, name: &str, color_map: &ColorMap, palette: &Palette) -> (res: Option<Texture>)
    requires
        found_lump_fits(wad@, name.spec_bytes(), |d: Seq<u8>| flat_fits(d)),
    ensures
        match wad@.find(name.spec_bytes()) {
            Err(_) => res is None,
            Ok(i) => match wad@.lump(i as int) {
                Err(_) => res is None,
                Ok(d) => res matches Some(t) && t@ == flat_texture(d, color_map@, palette@),
            },
        },
{
    let index = match wad.find_dir(name) {
        Ok(i) => i,
        Err(_) => return None,
    };
    let texture_data = match wad.read_dir(index) {
        Ok(d) => d,
        Err(_) => return None,
    };
    assert(flat_fits(texture_data@));
    let mut pixels: Vec<u8> = Vec::new();
    let mut p: usize = 0;
    while p < FLAT_TEXTURE_WIDTH * FLAT_TEXTURE_HEIGHT
        invariant
            texture_data@.len() >= 4096,
            p <= 4096,
            pixels@.len() == 4 * p,
            forall|j: int|
                0 <= j < 4 * p ==> #[trigger] pixels@[j] == rgba(
                    mapped_color(color_map@, palette@, texture_data@[j / 4] as int),
                    j % 4,
                ),
        decreases 4096 - p,
    {
        let color = color_map.get_color_from_palette(palette, texture_data[p] as usize);
        push_rgba(&mut pixels, color);
        p = p + 1;
    }
    let t = Texture::new(TextureTyp::Flat, FLAT_TEXTURE_WIDTH, FLAT_TEXTURE_HEIGHT, pixels);
    assert(t@.pixels =~= flat_texture(texture_data@, color_map@, palette@).pixels);
    Some(t)
}

/// The palette indices that the posts of a patch column give, from the
/// post at `off` on, or `None` where reading them leaves the lump. A post
/// is a top offset (`0xff` ends the column), a length, and the indices
/// read from 2 bytes past the post's start; the next post follows 4 bytes
/// past them.
pub open spec fn column_posts(d: Seq<u8>, off: int) -> Option<Seq<u8>>
    decreases d.len() - off,
{
    if off < 0 || off >= d.len() {
        None
    } else if d[off] == 0xff {
        Some(Seq::empty())
    } else if off + 1 >= d.len() {
        None
    } else {
        let n = d[off + 1] as int;
        let next = off + n + 4;
        if off + 2 + n > d.len() || next >= d.len() {
            None
        } else {
            match column_posts(d, next) {
                Some(rest) => Some(d.subrange(off + 2, off + 2 + n) + rest),
                None => None,
            }
        }
    }
}

pub open spec fn patch_width(d: Seq<u8>) -> int {
    spec_u16_le(d, 0)
}

pub open spec fn patch_height(d: Seq<u8>) -> int {
    spec_u16_le(d, 2)
}

/// The palette indices of column `x` of a patch lump.
pub open spec fn patch_column(d: Seq<u8>, x: int) -> Option<Seq<u8>> {
    column_posts(d, spec_u32_le(d, 8 + 4 * x))
}

/// A patch lump holds its header, a column offset for each column, and
/// columns that stay inside the lump and inside the patch's height; and its
/// pixels fit in memory.
pub open spec fn patch_fits(d: Seq<u8>) -> bool {
    &&& d.len() >= 8
    &&& patch_width(d) * patch_height(d) * 4 <= usize::MAX
    &&& forall|x: int|
        0 <= x < patch_width(d) ==> {
            &&& 8 + 4 * x + 4 <= d.len()
            &&& #[trigger] patch_column(d, x) is Some
            &&& patch_column(d, x).unwrap().len() <= patch_height(d)
        }
}

/// The texture that a patch lump `d` gives: each column's indices from the
/// top down, and transparent black below them.
pub open spec fn patch_texture(d: Seq<u8>, cm: Seq<usize>, pal: Seq<PaletteColor>) -> TextureView {
    let w = patch_width(d);
    let h = patch_height(d);
    TextureView {
        typ: TextureTyp::Patch,
        width: w as nat,
        height: h as nat,
        pixels: Seq::new(
            (w * h * 4) as nat,
            |k: int|
                {
                    let x = (k / 4) % w;
                    let y = (k / 4) / w;
                    let col = patch_column(d, x).unwrap();
                    if y < col.len() {
                        rgba(mapped_color(cm, pal, col[y] as int), k % 4)
                    } else {
                        0u8
                    }
                },
        ),
        composition: None,
    }
}

fn read_column(d: &[u8], offset: usize) -> (r: Vec<u8>)
    requires
        column_posts(d@, offset as int) is Some,
    ensures
        r@ == column_posts(d@, offset as int).unwrap(),
{
    let mut acc: Vec<u8> = Vec::new();
    let mut off = offset;
    loop
        invariant
            column_posts(d@, off as int) is Some,
            acc@ + column_posts(d@, off as int).unwrap() == column_posts(d@, offset as int).unwrap(),
        decreases d@.len() - off,
    {
        if d[off] == 0xff {
            assert(acc@ + column_posts(d@, off as int).unwrap() =~= acc@);
            return acc;
        }
        let length = d[off + 1] as usize;
        let start = off + 2;
        let ghost before = acc@;
        let mut i: usize = 0;
        while i < length
            invariant
                start == off + 2,
                start + length <= d.len(),
                i <= length,
                acc@ == before + d@.subrange(start as int, start + i),
            decreases length - i,
        {
            acc.push(d[start + i]);
            i = i + 1;
            assert(acc@ =~= before + d@.subrange(start as int, start + i));
        }
        let ghost rest = column_posts(d@, (off + length + 4) as int).unwrap();
        assert(column_posts(d@, off as int).unwrap() == d@.subrange(start as int, start + length) + rest);
        assert(acc@ + rest =~= before + column_posts(d@, off as int).unwrap());
        off = off + length + 4;
    }
}

proof fn lemma_pixel_coords(p: int, w: int, h: int)
    by (nonlinear_arith)
    requires
        0 <= p < w * h,
        w >= 0,
        h >= 0,
    ensures
        0 <= p % w < w,
        0 <= p / w < h,
{
}

/// Decodes the patch named `name` through the colour map and the palette.
pub fn read_patch_texture(wad: &Wad, name: &str, color_map: &ColorMap, palette: &Palette) -> (res: Option<Texture>)
    requires
        found_lump_fits(wad@, name.spec_bytes(), |d: Seq<u8>| patch_fits(d)),
    ensures
        match wad@.find(name.spec_bytes()) {
            Err(_) => res is None,
            Ok(i) => match wad@.lump(i as int) {
                Err(_) => res is None,
                Ok(d) => res matches Some(t) && t@ == patch_texture(d, color_map@, palette@),
            },
        },
{
    let index = match wad.find_dir(name) {
        Ok(i) => i,
        Err(_) => return None,
    };
    let texture_data = match wad.read_dir(index) {
        Ok(d) => d,
        Err(_) => return None,
    };
    assert(patch_fits(texture_data@));
    let ghost d = texture_data@;
    let width = read_u16_le(texture_data, 0) as usize;
    let height = read_u16_le(texture_data, 2) as usize;

    let mut columns: Vec<Vec<u8>> = Vec::new();
    let mut x: usize = 0;
    while x < width
        invariant
            d == texture_data@,
            patch_fits(d),
            width == patch_width(d),
            height == patch_height(d),
            x <= width,
            columns@.len() == x,
            forall|c: int| 0 <= c < x ==> #[trigger] columns@[c]@ == patch_column(d, c).unwrap(),
        decreases width - x,
    {
        assert(patch_column(d, x as int) is Some);
        let offset = read_u32_le(texture_data, 8 + x * 4) as usize;
        columns.push(read_column(texture_data, offset));
        x = x + 1;
    }

    let mut pixels: Vec<u8> = Vec::new();
    let count = width * height;
    let mut p: usize = 0;
    while p < count
        invariant
            d == texture_data@,
            patch_fits(d),
            width == patch_width(d),
            height == patch_height(d),
            count == width * height,
            columns@.len() == width,
            forall|c: int| 0 <= c < width ==> #[trigger] columns@[c]@ == patch_column(d, c).unwrap(),
            p <= count,
            pixels@.len() == 4 * p,
            forall|j: int|
                0 <= j < 4 * p ==> #[trigger] pixels@[j] == patch_texture(d, color_map@, palette@).pixels[j],
        decreases count - p,
    {
        proof {
            lemma_pixel_coords(p as int, width as int, height as int);
        }
        let x = p % width;
        let y = p / width;
        let column = &columns[x];
        let ghost before = pixels@;
        if y < column.len() {
            let color = color_map.get_color_from_palette(palette, column[y] as usize);
            push_rgba(&mut pixels, color);
        } else {
            pixels.push(0);
            pixels.push(0);
            pixels.push(0);
            pixels.push(0);
        }
        proof {
            assert forall|j: int| 0 <= j < 4 * (p + 1) implies #[trigger] pixels@[j] == patch_texture(
                d,
                color_map@,
                palette@,
            ).pixels[j] by {
                if j >= 4 * p {
                    assert(j / 4 == p);
                } else {
                    assert(pixels@[j] == before[j]);
                }
            }
        }
        p = p + 1;
    }
    let t = Texture::new(TextureTyp::Patch, width, height, pixels);
    assert(t@.pixels =~= patch_texture(d, color_map@, palette@).pixels);
    Some(t)
}


// ---------------------------------------------------------------------------
// TEXTURE1, TEXTURE2 and PNAMES.

/// A patch of a composite texture's definition: which entry of PNAMES, and
/// where its top-left corner lies.
#[derive(Copy, Clone, Debug)]
pub struct PatchDef {
    pub patch: usize,
    pub origin_x: i16,
    pub origin_y: i16,
}

/// A composite texture's definition.
pub struct TextureDef {
    pub name: String,
    pub width: usize,
    pub height: usize,
    pub patches: Vec<PatchDef>,
}

pub struct TextureDefView {
    pub name: Seq<char>,
    pub width: nat,
    pub height: nat,
    pub patches: Seq<PatchDef>,
}

impl View for TextureDef {
    type V = TextureDefView;

    open spec fn view(&self) -> TextureDefView {
        TextureDefView {
            name: self.name@,
            width: self.width as nat,
            height: self.height as nat,
            patches: self.patches@,
        }
    }
}

pub open spec fn defs_view(v: Seq<TextureDef>) -> Seq<TextureDefView> {
    v.map_values(|d: TextureDef| d@)
}

pub open spec fn texture_lump_count(d: Seq<u8>) -> int {
    spec_u32_le(d, 0)
}

/// Where definition `i` of a texture lump starts.
pub open spec fn def_offset(d: Seq<u8>, i: int) -> int {
    spec_u32_le(d, 4 + 4 * i)
}

pub open spec fn def_name_bytes(d: Seq<u8>, i: int) -> Seq<u8> {
    name_part(d.subrange(def_offset(d, i), def_offset(d, i) + 8))
}

/// Patch `pi` of definition `i`.
pub open spec fn patch_def_record(d: Seq<u8>, i: int, pi: int) -> PatchDef {
    let s = def_offset(d, i) + 22 + 10 * pi;
    PatchDef {
        origin_x: spec_i16_le(d, s) as i16,
        origin_y: spec_i16_le(d, s + 2) as i16,
        patch: spec_u16_le(d, s + 4) as usize,
    }
}

/// Definition `i` of a texture lump.
pub open spec fn texture_def_record(d: Seq<u8>, i: int) -> TextureDefView {
    let off = def_offset(d, i);
    TextureDefView {
        name: decode_utf8(def_name_bytes(d, i)),
        width: spec_u16_le(d, off + 12) as nat,
        height: spec_u16_le(d, off + 14) as nat,
        patches: Seq::new(spec_u16_le(d, off + 20) as nat, |pi: int| patch_def_record(d, i, pi)),
    }
}

/// The definitions of a texture lump, or `None` if a name is not UTF-8.
pub open spec fn texture_defs_of(d: Seq<u8>) -> Option<Seq<TextureDefView>> {
    if forall|i: int| 0 <= i < texture_lump_count(d) ==> valid_utf8(#[trigger] def_name_bytes(d, i)) {
        Some(Seq::new(texture_lump_count(d) as nat, |i: int| texture_def_record(d, i)))
    } else {
        None
    }
}

/// Reading definitions from `i` on stays inside the lump, up to the first
/// name that is not UTF-8.
pub open spec fn texture_lump_fits_from(d: Seq<u8>, i: nat) -> bool
    decreases texture_lump_count(d) - i,
{
    i < texture_lump_count(d) ==> {
        &&& 4 + 4 * i + 4 <= d.len()
        &&& def_offset(d, i as int) + 8 <= d.len()
        &&& valid_utf8(def_name_bytes(d, i as int)) ==> {
            &&& def_offset(d, i as int) + 22 <= d.len()
            &&& def_offset(d, i as int) + 22 + 10 * spec_u16_le(d, def_offset(d, i as int) + 20) <= d.len()
            &&& texture_lump_fits_from(d, i + 1)
        }
    }
}

pub open spec fn texture_lump_fits(d: Seq<u8>) -> bool {
    d.len() >= 4 && texture_lump_fits_from(d, 0)
}

proof fn lemma_texture_lump_fits_from(d: Seq<u8>, i: nat, j: nat)
    requires
        texture_lump_fits_from(d, i),
        i <= j,
        forall|k: int| i <= k < j ==> valid_utf8(#[trigger] def_name_bytes(d, k)),
    ensures
        texture_lump_fits_from(d, j),
    decreases j - i,
{
    if i < j && i < texture_lump_count(d) {
        assert(valid_utf8(def_name_bytes(d, i as int)));
        lemma_texture_lump_fits_from(d, i + 1, j);
    }
}

/// How many definitions of a texture lump come before the first whose name
/// is not UTF-8.
pub open spec fn defs_before_error(d: Seq<u8>) -> int {
    first_failing_from(texture_lump_count(d), |i: int| valid_utf8(def_name_bytes(d, i)), 0)
}

/// Reads the definitions of texture lump `index` and appends them, up to
/// the first whose name is not UTF-8.
fn process_texture_lump(wad: &Wad, texture_defs: &mut Vec<TextureDef>, index: usize) -> (res: Option<()>)
    requires
        wad@.lump_fits(index as int),
        wad@.lump(index as int) matches Ok(d) && texture_lump_fits(d),
    ensures
        match texture_defs_of(wad@.lump(index as int).unwrap()) {
            Some(defs) => res is Some && defs_view(final(texture_defs)@) == defs_view(old(texture_defs)@) + defs,
            None => res is None && defs_view(final(texture_defs)@) == defs_view(old(texture_defs)@) + Seq::new(
                defs_before_error(wad@.lump(index as int).unwrap()) as nat,
                |k: int| texture_def_record(wad@.lump(index as int).unwrap(), k),
            ),
        },
{
    let data = match wad.read_dir(index) {
        Ok(d) => d,
        Err(_) => return None,
    };
    let ghost d = data@;
    let ghost start = defs_view(texture_defs@);
    let data_len = data.len();
    let num_textures = read_u32_le(data, 0) as usize;
    let mut i: usize = 0;
    while i < num_textures
        invariant
            d == data@,
            d == wad@.lump(index as int).unwrap(),
            data_len == d.len(),
            texture_lump_fits(d),
            num_textures == texture_lump_count(d),
            i <= num_textures,
            texture_lump_fits_from(d, i as nat),
            forall|k: int| 0 <= k < i ==> valid_utf8(#[trigger] def_name_bytes(d, k)),
            defs_view(texture_defs@) == start + Seq::new(i as nat, |k: int| texture_def_record(d, k)),
            start == defs_view(old(texture_defs)@),
        decreases num_textures - i,
    {
        let offset = read_u32_le(data, 4 + i * 4) as usize;
        let name_field: &[u8] = &data[offset..offset + 8];
        let len = name_end(name_field);
        let name_bytes: &[u8] = &name_field[0..len];
        assert(name_bytes@ == def_name_bytes(d, i as int));
        let name = match utf8_to_string(name_bytes) {
            Some(s) => s,
            None => {
                assert(!valid_utf8(def_name_bytes(d, i as int)));
                proof {
                    lemma_first_failing(texture_lump_count(d), |i: int| valid_utf8(def_name_bytes(d, i)), 0, i as int);
                    assert(Seq::new(i as nat, |k: int| texture_def_record(d, k)) =~= Seq::new(
                        defs_before_error(wad@.lump(index as int).unwrap()) as nat,
                        |k: int| texture_def_record(wad@.lump(index as int).unwrap(), k),
                    ));
                }
                return None;
            },
        };
        let width = read_u16_le(data, offset + 12) as usize;
        let height = read_u16_le(data, offset + 14) as usize;
        let patch_count = read_u16_le(data, offset + 20) as usize;
        let mut patches: Vec<PatchDef> = Vec::new();
        let mut pi: usize = 0;
        while pi < patch_count
            invariant
                d == data@,
                data_len == d.len(),
                offset == def_offset(d, i as int),
                patch_count == spec_u16_le(d, offset + 20),
                offset + 22 + 10 * patch_count <= d.len(),
                pi <= patch_count,
                patches@ == Seq::new(pi as nat, |k: int| patch_def_record(d, i as int, k)),
            decreases patch_count - pi,
        {
            let start = pi * 10 + offset + 22;
            let origin_x = read_i16_le(data, start);
            let origin_y = read_i16_le(data, start + 2);
            let patch = read_u16_le(data, start + 4) as usize;
            patches.push(PatchDef { patch, origin_x, origin_y });
            pi = pi + 1;
            assert(patches@ =~= Seq::new(pi as nat, |k: int| patch_def_record(d, i as int, k)));
        }
        let def = TextureDef { name, width, height, patches };
        assert(def@ == texture_def_record(d, i as int));
        let ghost before = defs_view(texture_defs@);
        texture_defs.push(def);
        assert(defs_view(texture_defs@) =~= before.push(texture_def_record(d, i as int)));
        i = i + 1;
        assert(defs_view(texture_defs@) =~= start + Seq::new(i as nat, |k: int| texture_def_record(d, k)));
    }
    Some(())
}

/// The definitions of TEXTURE1 then TEXTURE2, either of which may be absent;
/// `None` if a name in either is not UTF-8.
pub open spec fn spec_texture_defs(w: WadView) -> Option<Seq<TextureDefView>> {
    let first = match w.find("TEXTURE1".spec_bytes()) {
        Ok(i) => texture_defs_of(w.lump(i as int).unwrap()),
        Err(_) => Some(Seq::empty()),
    };
    let second = match w.find("TEXTURE2".spec_bytes()) {
        Ok(i) => texture_defs_of(w.lump(i as int).unwrap()),
        Err(_) => Some(Seq::empty()),
    };
    match first {
        None => None,
        Some(a) => match second {
            None => None,
            Some(b) => Some(a + b),
        },
    }
}

/// A texture lump named `name`, if there is one, can be read whole.
pub open spec fn texture_lump_named_fits(w: WadView, name: Seq<u8>) -> bool {
    &&& w.find_fits(name)
    &&& w.find(name) matches Ok(i) ==> w.lump_fits(i as int) && (w.lump(i as int) matches Ok(d)
        && texture_lump_fits(d))
}

pub open spec fn texture_defs_fit(w: WadView) -> bool {
    &&& texture_lump_named_fits(w, "TEXTURE1".spec_bytes())
    &&& (match w.find("TEXTURE1".spec_bytes()) {
        Ok(i) => texture_defs_of(w.lump(i as int).unwrap()) is Some,
        Err(_) => true,
    }) ==> texture_lump_named_fits(w, "TEXTURE2".spec_bytes())
}

fn read_texture_defs(wad: &Wad) -> (res: Option<Vec<TextureDef>>)
    requires
        texture_defs_fit(wad@),
    ensures
        match spec_texture_defs(wad@) {
            Some(defs) => res matches Some(v) && defs_view(v@) == defs,
            None => res is None,
        },
{
    let mut texture_defs: Vec<TextureDef> = Vec::new();
    if let Ok(index) = wad.find_dir("TEXTURE1") {
        if process_texture_lump(wad, &mut texture_defs, index).is_none() {
            return None;
        }
    }
    assert(defs_view(texture_defs@) =~= Seq::empty() + defs_view(texture_defs@));
    if let Ok(index) = wad.find_dir("TEXTURE2") {
        if process_texture_lump(wad, &mut texture_defs, index).is_none() {
            return None;
        }
    }
    Some(texture_defs)
}

/// Entry `i` of a PNAMES lump, before it is made uppercase.
pub open spec fn pname_bytes(d: Seq<u8>, i: int) -> Seq<u8> {
    name_part(d.subrange(4 + 8 * i, 4 + 8 * i + 8))
}

pub open spec fn pnames_count(d: Seq<u8>) -> int {
    spec_u32_le(d, 0)
}

/// The uppercase patch names of a PNAMES lump, or `None` if one is not UTF-8.
pub open spec fn patch_names_of(d: Seq<u8>) -> Option<Seq<Seq<char>>> {
    if forall|i: int| 0 <= i < pnames_count(d) ==> valid_utf8(#[trigger] pname_bytes(d, i)) {
        Some(Seq::new(pnames_count(d) as nat, |i: int| spec_to_uppercase(decode_utf8(pname_bytes(d, i)))))
    } else {
        None
    }
}

/// Reading names from `i` on stays inside the lump, up to the first name
/// that is not UTF-8.
pub open spec fn pnames_fit_from(d: Seq<u8>, i: nat) -> bool
    decreases pnames_count(d) - i,
{
    i < pnames_count(d) ==> {
        &&& 4 + 8 * i + 8 <= d.len()
        &&& valid_utf8(pname_bytes(d, i as int)) ==> pnames_fit_from(d, i + 1)
    }
}

pub open spec fn spec_patch_names(w: WadView) -> Option<Seq<Seq<char>>> {
    match w.find("PNAMES".spec_bytes()) {
        Err(_) => None,
        Ok(i) => match w.lump(i as int) {
            Err(_) => None,
            Ok(d) => patch_names_of(d),
        },
    }
}

pub open spec fn patch_names_fit(w: WadView) -> bool {
    &&& w.find_fits("PNAMES".spec_bytes())
    &&& w.find("PNAMES".spec_bytes()) matches Ok(i) ==> w.lump_fits(i as int) && (w.lump(i as int) matches Ok(d)
        ==> d.len() >= 4 && pnames_fit_from(d, 0))
}

fn read_patch_names(wad: &Wad) -> (res: Option<Vec<String>>)
    requires
        patch_names_fit(wad@),
    ensures
        match spec_patch_names(wad@) {
            Some(names) => res matches Some(v) && v@.map_values(|s: String| s@) == names,
            None => res is None,
        },
{
    let index = match wad.find_dir("PNAMES") {
        Ok(i) => i,
        Err(_) => return None,
    };
    let data = match wad.read_dir(index) {
        Ok(d) => d,
        Err(_) => return None,
    };
    let ghost d = data@;
    let data_len = data.len();
    let num_map_patches = read_u32_le(data, 0) as usize;
    let mut names: Vec<String> = Vec::new();
    let mut i: usize = 0;
    while i < num_map_patches
        invariant
            d == data@,
            d == wad@.lump(index as int).unwrap(),
            spec_patch_names(wad@) == patch_names_of(d),
            data_len == d.len(),
            num_map_patches == pnames_count(d),
            i <= num_map_patches,
            pnames_fit_from(d, i as nat),
            forall|k: int| 0 <= k < i ==> valid_utf8(#[trigger] pname_bytes(d, k)),
            names@.map_values(|s: String| s@) == Seq::new(
                i as nat,
                |k: int| spec_to_uppercase(decode_utf8(pname_bytes(d, k))),
            ),
        decreases num_map_patches - i,
    {
        let start = i * 8 + 4;
        let field: &[u8] = &data[start..start + 8];
        let len = name_end(field);
        let name_bytes: &[u8] = &field[0..len];
        assert(name_bytes@ == pname_bytes(d, i as int));
        let name = match str_from_utf8(name_bytes) {
            Some(s) => s,
            None => {
                assert(!valid_utf8(pname_bytes(d, i as int)));
                return None;
            },
        };
        proof {
            vstd::utf8::encode_utf8_decode_utf8(name@);
        }
        assert(decode_utf8(pname_bytes(d, i as int)) == name@);
        let ghost before = names@.map_values(|s: String| s@);
        let upper = str_to_uppercase(name);
        names.push(upper);
        assert(names@.map_values(|s: String| s@) =~= before.push(upper@));
        i = i + 1;
        assert(names@.map_values(|s: String| s@) =~= Seq::new(
            i as nat,
            |k: int| spec_to_uppercase(decode_utf8(pname_bytes(d, k))),
        ));
    }
    Some(names)
}


// ---------------------------------------------------------------------------
// Textures by name.

/// A texture whose pixel buffer holds exactly its `width * height` pixels.
pub open spec fn texture_fits(t: TextureView) -> bool {
    t.pixels.len() == t.width * t.height * 4
}

/// `j` is the first place where the texture named `name` stands among `ts`.
pub open spec fn is_first_named(ts: Seq<(Seq<char>, TextureView)>, name: Seq<char>, j: int) -> bool {
    &&& 0 <= j < ts.len()
    &&& ts[j].0 == name
    &&& forall|k: int| 0 <= k < j ==> #[trigger] ts[k].0 != name
}

/// Where the texture named `name` first stands among `ts`.
pub open spec fn name_index(ts: Seq<(Seq<char>, TextureView)>, name: Seq<char>) -> Option<int> {
    if exists|j: int| is_first_named(ts, name, j) {
        Some(choose|j: int| is_first_named(ts, name, j))
    } else {
        None
    }
}

/// The first place a name stands is where it is found.
pub proof fn lemma_name_index_first(ts: Seq<(Seq<char>, TextureView)>, name: Seq<char>, j: int)
    requires
        is_first_named(ts, name, j),
    ensures
        name_index(ts, name) == Some(j),
{
    let c = choose|c: int| is_first_named(ts, name, c);
    assert(is_first_named(ts, name, c));
    if c < j {
        assert(ts[c].0 != name);
    } else if j < c {
        assert(ts[j].0 != name);
    }
}

/// A name that stands nowhere is not found.
pub proof fn lemma_name_index_none(ts: Seq<(Seq<char>, TextureView)>, name: Seq<char>)
    requires
        forall|k: int| 0 <= k < ts.len() ==> #[trigger] ts[k].0 != name,
    ensures
        name_index(ts, name) is None,
{
}

/// No name stands twice among `ts`.
pub open spec fn names_unique(ts: Seq<(Seq<char>, TextureView)>) -> bool {
    forall|i: int, j: int| 0 <= i < ts.len() && 0 <= j < ts.len() && ts[i].0 == ts[j].0 ==> i == j
}

/// Where names are unique, a name is found where it stands.
pub proof fn lemma_name_index(ts: Seq<(Seq<char>, TextureView)>, name: Seq<char>, j: int)
    requires
        names_unique(ts),
        0 <= j < ts.len(),
        ts[j].0 == name,
    ensures
        name_index(ts, name) == Some(j),
{
    lemma_name_index_first(ts, name, j);
}

/// `ts` with `item` added, unless a texture of that name is already there.
pub open spec fn add_named(ts: Seq<(Seq<char>, TextureView)>, item: (Seq<char>, TextureView)) -> Seq<
    (Seq<char>, TextureView),
> {
    if name_index(ts, item.0) is Some {
        ts
    } else {
        ts.push(item)
    }
}

/// `ts` with each of `items` added in turn.
pub open spec fn add_all(ts: Seq<(Seq<char>, TextureView)>, items: Seq<(Seq<char>, TextureView)>) -> Seq<
    (Seq<char>, TextureView),
>
    decreases items.len(),
{
    if items.len() == 0 {
        ts
    } else {
        add_named(add_all(ts, items.drop_last()), items.last())
    }
}

/// `ts` with `item` put in place of the texture of the same name, or added.
pub open spec fn insert_named(ts: Seq<(Seq<char>, TextureView)>, item: (Seq<char>, TextureView)) -> Seq<
    (Seq<char>, TextureView),
> {
    match name_index(ts, item.0) {
        Some(j) => ts.update(j, item),
        None => ts.push(item),
    }
}

/// Each of `items` inserted in turn: one entry per name, holding the last
/// texture given for it, in the order the names first appear.
pub open spec fn insert_all(items: Seq<(Seq<char>, TextureView)>) -> Seq<(Seq<char>, TextureView)>
    decreases items.len(),
{
    if items.len() == 0 {
        Seq::empty()
    } else {
        insert_named(insert_all(items.drop_last()), items.last())
    }
}

/// The texture shown where no texture is found: 2 by 2, black and magenta.
pub open spec fn missing_texture_view() -> TextureView {
    TextureView {
        typ: TextureTyp::Texture,
        width: 2,
        height: 2,
        pixels: seq![
            0x00u8, 0x00, 0x00, 0xff,
            0xff, 0x00, 0xff, 0xff,
            0xff, 0x00, 0xff, 0xff,
            0x00, 0x00, 0x00, 0xff,
        ],
        composition: None,
    }
}

pub open spec fn entry_name(w: WadView, i: int) -> Seq<u8> {
    name_part(w.entry(i).unwrap().name)
}

/// The bytes of the first lump named `name`.
pub open spec fn lump_named(w: WadView, name: Seq<u8>) -> Seq<u8> {
    w.lump(w.find(name).unwrap() as int).unwrap()
}

/// The marker entries skipped between P_START and P_END, or between F_START and F_END.
pub open spec fn is_marker(flat: bool, n: Seq<u8>) -> bool {
    if flat {
        n == "F1_START".spec_bytes() || n == "F1_END".spec_bytes() || n == "F2_START".spec_bytes() || n
            == "F2_END".spec_bytes()
    } else {
        n == "P1_START".spec_bytes() || n == "P1_END".spec_bytes() || n == "P2_START".spec_bytes() || n
            == "P2_END".spec_bytes()
    }
}

pub open spec fn range_start_name(flat: bool) -> Seq<u8> {
    if flat {
        "F_START".spec_bytes()
    } else {
        "P_START".spec_bytes()
    }
}

pub open spec fn range_end_name(flat: bool) -> Seq<u8> {
    if flat {
        "F_END".spec_bytes()
    } else {
        "P_END".spec_bytes()
    }
}

/// The texture read for the graphic named `name`: its first lump, decoded as a flat or a patch.
pub open spec fn graphic_texture(w: WadView, flat: bool, name: Seq<u8>, cm: Seq<usize>, pal: Seq<PaletteColor>) -> TextureView {
    if flat {
        flat_texture(lump_named(w, name), cm, pal)
    } else {
        patch_texture(lump_named(w, name), cm, pal)
    }
}

/// The named textures of the entries from `start` up to `k` between the
/// markers, in order, leaving out the inner markers.
pub open spec fn graphic_items(
    w: WadView,
    flat: bool,
    cm: Seq<usize>,
    pal: Seq<PaletteColor>,
    start: int,
    k: int,
) -> Seq<(Seq<char>, TextureView)>
    decreases k - start,
{
    if k <= start {
        Seq::empty()
    } else {
        let prev = graphic_items(w, flat, cm, pal, start, k - 1);
        let n = entry_name(w, k - 1);
        if is_marker(flat, n) {
            prev
        } else {
            prev.push((decode_utf8(n), graphic_texture(w, flat, n, cm, pal)))
        }
    }
}

pub open spec fn range_start(w: WadView, flat: bool) -> int {
    w.find(range_start_name(flat)).unwrap() + 1
}

pub open spec fn range_end(w: WadView, flat: bool) -> int {
    w.find(range_end_name(flat)).unwrap() as int
}

/// The textures of all the graphics between the markers.
pub open spec fn all_graphic_items(w: WadView, flat: bool, cm: Seq<usize>, pal: Seq<PaletteColor>) -> Seq<
    (Seq<char>, TextureView),
> {
    graphic_items(w, flat, cm, pal, range_start(w, flat), range_end(w, flat))
}

/// Lump `j` can be read whole and decoded as a flat or a patch.
pub open spec fn graphic_lump_fits(w: WadView, flat: bool, j: int) -> bool {
    &&& w.lump_fits(j)
    &&& w.lump(j) is Ok
    &&& if flat {
        flat_fits(w.lump(j).unwrap())
    } else {
        patch_fits(w.lump(j).unwrap())
    }
}

/// Entry `i` between the markers can be read, and so can the graphic it names.
pub open spec fn graphic_entry_fits(w: WadView, flat: bool, i: int) -> bool {
    &&& w.entry_fits(i)
    &&& w.entry(i) is Ok
    &&& valid_utf8(entry_name(w, i))
    &&& !is_marker(flat, entry_name(w, i)) ==> {
        &&& w.find_fits(entry_name(w, i))
        &&& w.find(entry_name(w, i)) is Ok
        &&& graphic_lump_fits(w, flat, w.find(entry_name(w, i)).unwrap() as int)
    }
}

/// Both markers are found, in order, and every graphic between them can be read.
pub open spec fn graphics_fit(w: WadView, flat: bool) -> bool {
    &&& w.find_fits(range_start_name(flat))
    &&& w.find(range_start_name(flat)) is Ok
    &&& w.find_fits(range_end_name(flat))
    &&& w.find(range_end_name(flat)) is Ok
    &&& range_start(w, flat) < range_end(w, flat)
    &&& forall|i: int| range_start(w, flat) <= i < range_end(w, flat) ==> #[trigger] graphic_entry_fits(w, flat, i)
}


/// The texture that patch `p` of a definition draws: the one named by its
/// PNAMES entry.
pub open spec fn def_patch_texture(ts: Seq<(Seq<char>, TextureView)>, names: Seq<Seq<char>>, p: PatchDef) -> TextureView {
    ts[name_index(ts, names[p.patch as int]).unwrap()].1
}

/// Patch `p`, drawn with texture `t`, covers the pixel at `x`, `y`.
pub open spec fn covers(t: TextureView, p: PatchDef, x: int, y: int) -> bool {
    &&& 0 <= x - p.origin_x < t.width
    &&& 0 <= y - p.origin_y < t.height
}

/// Channel `c` of the pixel at `x`, `y` once the first `n` patches are
/// drawn in order: that of the last of them that covers it, or 0.
pub open spec fn layer_pixel(
    ts: Seq<(Seq<char>, TextureView)>,
    names: Seq<Seq<char>>,
    patches: Seq<PatchDef>,
    n: int,
    x: int,
    y: int,
    c: int,
) -> u8
    decreases n,
{
    if n <= 0 {
        0
    } else {
        let p = patches[n - 1];
        let t = def_patch_texture(ts, names, p);
        if covers(t, p, x, y) {
            t.pixels[4 * ((x - p.origin_x) + (y - p.origin_y) * t.width) + c]
        } else {
            layer_pixel(ts, names, patches, n - 1, x, y, c)
        }
    }
}

/// The composite texture a definition gives.
pub open spec fn composite_texture(ts: Seq<(Seq<char>, TextureView)>, names: Seq<Seq<char>>, def: TextureDefView) -> TextureView {
    let w = def.width as int;
    let h = def.height as int;
    TextureView {
        typ: TextureTyp::Texture,
        width: def.width,
        height: def.height,
        pixels: Seq::new(
            (w * h * 4) as nat,
            |k: int| layer_pixel(ts, names, def.patches, def.patches.len() as int, (k / 4) % w, (k / 4) / w, k % 4),
        ),
        composition: Some(
            def.patches.map_values(
                |p: PatchDef|
                    PatchView { name: names[p.patch as int], origin_x: p.origin_x as int, origin_y: p.origin_y as int },
            ),
        ),
    }
}

/// Every patch of the definition names a PNAMES entry of a known texture,
/// and the composite's pixels fit in memory.
pub open spec fn def_fits(ts: Seq<(Seq<char>, TextureView)>, names: Seq<Seq<char>>, def: TextureDefView) -> bool {
    &&& def.width * def.height * 4 <= usize::MAX
    &&& forall|pi: int|
        0 <= pi < def.patches.len() ==> {
            &&& (#[trigger] def.patches[pi]).patch < names.len()
            &&& name_index(ts, names[def.patches[pi].patch as int]) is Some
        }
}

/// The composite textures of all the definitions, one per name.
pub open spec fn composite_items(
    ts: Seq<(Seq<char>, TextureView)>,
    names: Seq<Seq<char>>,
    defs: Seq<TextureDefView>,
) -> Seq<(Seq<char>, TextureView)> {
    insert_all(Seq::new(defs.len(), |i: int| (defs[i].name, composite_texture(ts, names, defs[i]))))
}

pub struct LoaderView {
    pub color_map: Seq<usize>,
    pub palette: Seq<PaletteColor>,
    pub missing_texture_id: nat,
    pub textures: Seq<(Seq<char>, TextureView)>,
}

/// The textures of a WAD by name, each once, in the order they were loaded.
pub struct TextureLoader {
    color_map: ColorMap,
    palette: Palette,
    missing_texture_id: usize,
    textures: Vec<(String, Texture)>,
}

pub open spec fn named_textures_view(v: Seq<(String, Texture)>) -> Seq<(Seq<char>, TextureView)> {
    v.map_values(|e: (String, Texture)| (e.0@, e.1@))
}

impl View for TextureLoader {
    type V = LoaderView;

    closed spec fn view(&self) -> LoaderView {
        LoaderView {
            color_map: self.color_map@,
            palette: self.palette@,
            missing_texture_id: self.missing_texture_id as nat,
            textures: named_textures_view(self.textures@),
        }
    }
}

/// What a loader holds: each name once, each texture's pixels whole, and
/// the missing texture among them.
pub open spec fn loader_wf(v: LoaderView) -> bool {
    &&& names_unique(v.textures)
    &&& forall|j: int| 0 <= j < v.textures.len() ==> texture_fits(#[trigger] v.textures[j].1)
    &&& v.missing_texture_id < v.textures.len()
}

/// The textures a loader holds once built from the WAD `w`: the missing
/// texture, the patches, the flats, then the composite textures, each name
/// kept the first time it is met.
pub open spec fn loader_textures(w: WadView, cm: Seq<usize>, pal: Seq<PaletteColor>) -> Seq<(Seq<char>, TextureView)> {
    let t0 = seq![("MISSING_TEXTURE"@, missing_texture_view())];
    let t1 = add_all(t0, all_graphic_items(w, false, cm, pal));
    let t2 = add_all(t1, all_graphic_items(w, true, cm, pal));
    add_all(t2, composite_items(t2, spec_patch_names(w).unwrap(), spec_texture_defs(w).unwrap()))
}

/// Building a loader from `w` reads only what lies inside the file and
/// finds every graphic it looks for.
pub open spec fn loader_fits(w: WadView, cm: Seq<usize>, pal: Seq<PaletteColor>) -> bool {
    let t0 = seq![("MISSING_TEXTURE"@, missing_texture_view())];
    let t1 = add_all(t0, all_graphic_items(w, false, cm, pal));
    let t2 = add_all(t1, all_graphic_items(w, true, cm, pal));
    &&& w.find_fits("P3_START".spec_bytes())
    &&& w.find("P3_START".spec_bytes()) is Err
    &&& graphics_fit(w, false)
    &&& graphics_fit(w, true)
    &&& patch_names_fit(w)
    &&& spec_patch_names(w) is Some
    &&& texture_defs_fit(w)
    &&& spec_texture_defs(w) is Some
    &&& forall|i: int|
        0 <= i < spec_texture_defs(w).unwrap().len() ==> def_fits(
            t2,
            spec_patch_names(w).unwrap(),
            #[trigger] spec_texture_defs(w).unwrap()[i],
        )
}

proof fn lemma_unique_name_index(ts: Seq<(Seq<char>, TextureView)>, name: Seq<char>)
    requires
        names_unique(ts),
    ensures
        name_index(ts, name) is None <==> forall|k: int| 0 <= k < ts.len() ==> #[trigger] ts[k].0 != name,
        name_index(ts, name) matches Some(j) ==> 0 <= j < ts.len() && ts[j].0 == name,
{
    if exists|k: int| 0 <= k < ts.len() && #[trigger] ts[k].0 == name {
        let k = choose|k: int| 0 <= k < ts.len() && #[trigger] ts[k].0 == name;
        lemma_name_index(ts, name, k);
    }
}

proof fn lemma_add_named_wf(ts: Seq<(Seq<char>, TextureView)>, item: (Seq<char>, TextureView))
    requires
        names_unique(ts),
        forall|j: int| 0 <= j < ts.len() ==> texture_fits(#[trigger] ts[j].1),
        texture_fits(item.1),
    ensures
        names_unique(add_named(ts, item)),
        forall|j: int| 0 <= j < add_named(ts, item).len() ==> texture_fits(#[trigger] add_named(ts, item)[j].1),
        ts.len() <= add_named(ts, item).len(),
        forall|j: int| 0 <= j < ts.len() ==> #[trigger] add_named(ts, item)[j] == ts[j],
{
    lemma_unique_name_index(ts, item.0);
}

proof fn lemma_insert_named_unique(ts: Seq<(Seq<char>, TextureView)>, item: (Seq<char>, TextureView))
    requires
        names_unique(ts),
    ensures
        names_unique(insert_named(ts, item)),
{
    lemma_unique_name_index(ts, item.0);
}

impl TextureLoader {
    /// Builds the loader from the WAD's patches, flats and composite
    /// textures. A WAD with a P3_START entry is not accepted.
    #[verifier::spinoff_prover]
    #[verifier::rlimit(40)]
    pub fn new(wad: &Wad, color_map: ColorMap, palette: Palette) -> (res: Option<Self>)
        requires
            loader_fits(wad@, color_map@, palette@),
        ensures
            res matches Some(l) && l@ == (LoaderView {
                color_map: color_map@,
                palette: palette@,
                missing_texture_id: 0,
                textures: loader_textures(wad@, color_map@, palette@),
            }) && loader_wf(l@),
    {
        let mut textures: Vec<(String, Texture)> = Vec::new();
        textures.push(Self::create_missing_texture());
        let mut result = Self { color_map, palette, missing_texture_id: 0, textures };
        assert(result@.textures =~= seq![("MISSING_TEXTURE"@, missing_texture_view())]);
        assert(loader_wf(result@));
        result.load_all_patches(wad);
        result.load_all_flats(wad);
        result.load_all_textures(wad);
        Some(result)
    }

    fn create_missing_texture() -> (r: (String, Texture))
        ensures
            r.0@ == "MISSING_TEXTURE"@,
            r.1@ == missing_texture_view(),
    {
        let mut pixels: Vec<u8> = Vec::new();
        push_rgba(&mut pixels, PaletteColor { r: 0x00, g: 0x00, b: 0x00 });
        push_rgba(&mut pixels, PaletteColor { r: 0xff, g: 0x00, b: 0xff });
        push_rgba(&mut pixels, PaletteColor { r: 0xff, g: 0x00, b: 0xff });
        push_rgba(&mut pixels, PaletteColor { r: 0x00, g: 0x00, b: 0x00 });
        let texture = Texture::new(TextureTyp::Texture, 2, 2, pixels);
        assert(texture@.pixels =~= missing_texture_view().pixels);
        ("MISSING_TEXTURE".to_owned(), texture)
    }

    /// Adds `texture` under `name`, unless a texture of that name is
    /// already held.
    fn add_texture(&mut self, name: &str, texture: Texture)
        requires
            loader_wf(old(self)@),
            texture_fits(texture@),
        ensures
            final(self)@ == (LoaderView { textures: add_named(old(self)@.textures, (name@, texture@)), ..old(self)@ }),
            loader_wf(final(self)@),
    {
        let mut i: usize = 0;
        while i < self.textures.len()
            invariant
                i <= self.textures@.len(),
                self@ == old(self)@,
                loader_wf(self@),
                forall|j: int| 0 <= j < i ==> #[trigger] named_textures_view(self.textures@)[j].0 != name@,
            decreases self.textures@.len() - i,
        {
            if str_eq(self.textures[i].0.as_str(), name) {
                assert(named_textures_view(self.textures@)[i as int].0 == name@);
                proof {
                    lemma_name_index(self@.textures, name@, i as int);
                }
                return;
            }
            i = i + 1;
        }
        proof {
            lemma_name_index_none(self@.textures, name@);
            lemma_add_named_wf(self@.textures, (name@, texture@));
        }
        self.textures.push((name.to_owned(), texture));
        assert(named_textures_view(self.textures@) =~= add_named(old(self)@.textures, (name@, texture@)));
    }

    /// The texture that stands in for one that is not found, with its id.
    pub fn missing_texture(&self) -> (r: (usize, &Texture))
        requires
            loader_wf(self@),
        ensures
            r.0 == self@.missing_texture_id,
            r.1@ == self@.textures[r.0 as int].1,
    {
        match self.load_from_id(self.missing_texture_id) {
            Some(t) => (self.missing_texture_id, t),
            None => {
                assert(false);
                (self.missing_texture_id, &self.textures[0].1)
            },
        }
    }

    pub fn load_from_id(&self, id: usize) -> (r: Option<&Texture>)
        ensures
            id < self@.textures.len() ==> (r matches Some(t) && t@ == self@.textures[id as int].1),
            id >= self@.textures.len() ==> r is None,
    {
        if id < self.textures.len() {
            Some(&self.textures[id].1)
        } else {
            None
        }
    }

    pub fn get_name_from_id(&self, id: usize) -> (r: Option<&String>)
        ensures
            id < self@.textures.len() ==> (r matches Some(n) && n@ == self@.textures[id as int].0),
            id >= self@.textures.len() ==> r is None,
    {
        if id < self.textures.len() {
            Some(&self.textures[id].0)
        } else {
            None
        }
    }

    /// The first texture named `name`, with its id.
    pub fn load_from_name(&self, name: &str) -> (r: Option<(usize, &Texture)>)
        ensures
            match name_index(self@.textures, name@) {
                Some(j) => r matches Some((i, t)) && i == j && t@ == self@.textures[j].1,
                None => r is None,
            },
    {
        let mut i: usize = 0;
        while i < self.textures.len()
            invariant
                i <= self.textures@.len(),
                forall|j: int| 0 <= j < i ==> #[trigger] self@.textures[j].0 != name@,
            decreases self.textures@.len() - i,
        {
            if str_eq(self.textures[i].0.as_str(), name) {
                proof {
                    lemma_name_index_first(self@.textures, name@, i as int);
                }
                return Some((i, &self.textures[i].1));
            }
            i = i + 1;
        }
        proof {
            lemma_name_index_none(self@.textures, name@);
        }
        None
    }
}


proof fn lemma_add_all_push(
    ts: Seq<(Seq<char>, TextureView)>,
    items: Seq<(Seq<char>, TextureView)>,
    item: (Seq<char>, TextureView),
)
    ensures
        add_all(ts, items.push(item)) == add_named(add_all(ts, items), item),
{
    assert(items.push(item).drop_last() =~= items);
}

proof fn lemma_insert_all_take(items: Seq<(Seq<char>, TextureView)>, i: int)
    requires
        0 <= i < items.len(),
    ensures
        insert_all(items.take(i + 1)) == insert_named(insert_all(items.take(i)), items[i]),
{
    assert(items.take(i + 1).drop_last() =~= items.take(i));
}

proof fn lemma_add_all_take(ts: Seq<(Seq<char>, TextureView)>, items: Seq<(Seq<char>, TextureView)>, i: int)
    requires
        0 <= i < items.len(),
    ensures
        add_all(ts, items.take(i + 1)) == add_named(add_all(ts, items.take(i)), items[i]),
{
    assert(items.take(i + 1).drop_last() =~= items.take(i));
}

proof fn lemma_layer_none(
    ts: Seq<(Seq<char>, TextureView)>,
    names: Seq<Seq<char>>,
    patches: Seq<PatchDef>,
    n: int,
    x: int,
    y: int,
    c: int,
)
    requires
        0 <= n <= patches.len(),
        forall|m: int| 0 <= m < n ==> !covers(def_patch_texture(ts, names, #[trigger] patches[m]), patches[m], x, y),
    ensures
        layer_pixel(ts, names, patches, n, x, y, c) == 0,
    decreases n,
{
    if n > 0 {
        assert(!covers(def_patch_texture(ts, names, patches[n - 1]), patches[n - 1], x, y));
        lemma_layer_none(ts, names, patches, n - 1, x, y, c);
    }
}

proof fn lemma_layer_top(
    ts: Seq<(Seq<char>, TextureView)>,
    names: Seq<Seq<char>>,
    patches: Seq<PatchDef>,
    n: int,
    j: int,
    x: int,
    y: int,
    c: int,
)
    requires
        0 <= j < n <= patches.len(),
        covers(def_patch_texture(ts, names, patches[j]), patches[j], x, y),
        forall|m: int| j < m < n ==> !covers(def_patch_texture(ts, names, #[trigger] patches[m]), patches[m], x, y),
    ensures
        layer_pixel(ts, names, patches, n, x, y, c) == layer_pixel(ts, names, patches, j + 1, x, y, c),
    decreases n,
{
    if n > j + 1 {
        assert(!covers(def_patch_texture(ts, names, patches[n - 1]), patches[n - 1], x, y));
        lemma_layer_top(ts, names, patches, n - 1, j, x, y, c);
    }
}

proof fn lemma_source_index(sx: int, sy: int, w: int, h: int)
    by (nonlinear_arith)
    requires
        0 <= sx < w,
        0 <= sy < h,
    ensures
        0 <= sx + sy * w,
        4 * (sx + sy * w) + 4 <= w * h * 4,
{
}

impl TextureLoader {
    fn load_all_patches(&mut self, wad: &Wad)
        requires
            loader_wf(old(self)@),
            graphics_fit(wad@, false),
        ensures
            final(self)@ == (LoaderView {
                textures: add_all(old(self)@.textures, all_graphic_items(wad@, false, old(self)@.color_map, old(self)@.palette)),
                ..old(self)@
            }),
            loader_wf(final(self)@),
    {
        self.load_graphics(wad, false)
    }

    fn load_all_flats(&mut self, wad: &Wad)
        requires
            loader_wf(old(self)@),
            graphics_fit(wad@, true),
        ensures
            final(self)@ == (LoaderView {
                textures: add_all(old(self)@.textures, all_graphic_items(wad@, true, old(self)@.color_map, old(self)@.palette)),
                ..old(self)@
            }),
            loader_wf(final(self)@),
    {
        self.load_graphics(wad, true)
    }

    /// Adds the flats (or the patches) found between their markers.
    fn load_graphics(&mut self, wad: &Wad, flat: bool)
        requires
            loader_wf(old(self)@),
            graphics_fit(wad@, flat),
        ensures
            final(self)@ == (LoaderView {
                textures: add_all(old(self)@.textures, all_graphic_items(wad@, flat, old(self)@.color_map, old(self)@.palette)),
                ..old(self)@
            }),
            loader_wf(final(self)@),
    {
        let ghost w = wad@;
        let ghost cm = self@.color_map;
        let ghost pal = self@.palette;
        let ghost t_init = self@.textures;
        let start_name: &str = if flat {
            "F_START"
        } else {
            "P_START"
        };
        let end_name: &str = if flat {
            "F_END"
        } else {
            "P_END"
        };
        let start = match wad.find_dir(start_name) {
            Ok(i) => i + 1,
            Err(_) => {
                assert(false);
                return;
            },
        };
        let end = match wad.find_dir(end_name) {
            Ok(i) => i,
            Err(_) => {
                assert(false);
                return;
            },
        };
        let mut index = start;
        while index < end
            invariant
                w == wad@,
                graphics_fit(w, flat),
                start == range_start(w, flat),
                end == range_end(w, flat),
                start <= index <= end,
                self@ == (LoaderView {
                    textures: add_all(t_init, graphic_items(w, flat, cm, pal, start as int, index as int)),
                    ..old(self)@
                }),
                cm == old(self)@.color_map,
                pal == old(self)@.palette,
                loader_wf(self@),
            decreases end - index,
        {
            assert(graphic_entry_fits(w, flat, index as int));
            let entry = match wad.read_dir_entry(index) {
                Ok(e) => e,
                Err(_) => {
                    assert(false);
                    return;
                },
            };
            let len = name_end(&entry.name);
            let name_bytes: &[u8] = &entry.name[0..len];
            assert(name_bytes@ == entry_name(w, index as int));
            let name = match str_from_utf8(name_bytes) {
                Some(s) => s,
                None => {
                    assert(false);
                    return;
                },
            };
            proof {
                vstd::utf8::encode_utf8_decode_utf8(name@);
            }
            let skip = if flat {
                bytes_eq(name_bytes, "F1_START".as_bytes()) || bytes_eq(name_bytes, "F1_END".as_bytes())
                    || bytes_eq(name_bytes, "F2_START".as_bytes()) || bytes_eq(name_bytes, "F2_END".as_bytes())
            } else {
                bytes_eq(name_bytes, "P1_START".as_bytes()) || bytes_eq(name_bytes, "P1_END".as_bytes())
                    || bytes_eq(name_bytes, "P2_START".as_bytes()) || bytes_eq(name_bytes, "P2_END".as_bytes())
            };
            assert(skip == is_marker(flat, entry_name(w, index as int)));
            let ghost items = graphic_items(w, flat, cm, pal, start as int, index as int);
            if !skip {
                let texture = if flat {
                    read_flat_texture(wad, name, &self.color_map, &self.palette)
                } else {
                    read_patch_texture(wad, name, &self.color_map, &self.palette)
                };
                match texture {
                    Some(t) => {
                        let ghost item = (decode_utf8(entry_name(w, index as int)), graphic_texture(w, flat, entry_name(w, index as int), cm, pal));
                        assert(t@ == item.1);
                        assert(name@ == item.0);
                        self.add_texture(name, t);
                        proof {
                            lemma_add_all_push(t_init, items, item);
                        }
                    },
                    None => {
                        assert(false);
                        return;
                    },
                }
            }
            index = index + 1;
        }
    }

    /// Adds the composite textures of TEXTURE1 and TEXTURE2.
    fn load_all_textures(&mut self, wad: &Wad)
        requires
            loader_wf(old(self)@),
            patch_names_fit(wad@),
            spec_patch_names(wad@) is Some,
            texture_defs_fit(wad@),
            spec_texture_defs(wad@) is Some,
            forall|i: int|
                0 <= i < spec_texture_defs(wad@).unwrap().len() ==> def_fits(
                    old(self)@.textures,
                    spec_patch_names(wad@).unwrap(),
                    #[trigger] spec_texture_defs(wad@).unwrap()[i],
                ),
        ensures
            final(self)@ == (LoaderView {
                textures: add_all(
                    old(self)@.textures,
                    composite_items(old(self)@.textures, spec_patch_names(wad@).unwrap(), spec_texture_defs(wad@).unwrap()),
                ),
                ..old(self)@
            }),
            loader_wf(final(self)@),
    {
        let patch_names = match read_patch_names(wad) {
            Some(n) => n,
            None => {
                assert(false);
                return;
            },
        };
        let texture_defs = match read_texture_defs(wad) {
            Some(d) => d,
            None => {
                assert(false);
                return;
            },
        };
        assert forall|i: int| 0 <= i < texture_defs@.len() implies def_fits(
            self@.textures,
            patch_names@.map_values(|s: String| s@),
            #[trigger] texture_defs@[i]@,
        ) by {
            assert(defs_view(texture_defs@)[i] == texture_defs@[i]@);
        }
        let mut textures = self.process_texture_defs(&patch_names, &texture_defs);
        let ghost items = named_textures_view(textures@);
        let ghost t_init = self@.textures;
        let ghost count = textures@.len();
        assert(count == textures.len());
        let mut i: usize = 0;
        while textures.len() > 0
            invariant
                i + textures@.len() == count,
                count <= usize::MAX,
                items.len() == count,
                named_textures_view(textures@) == items.skip(i as int),
                forall|j: int| 0 <= j < items.len() ==> texture_fits(#[trigger] items[j].1),
                self@ == (LoaderView { textures: add_all(t_init, items.take(i as int)), ..old(self)@ }),
                loader_wf(self@),
            decreases textures@.len(),
        {
            let ghost before = textures@;
            let (name, texture) = textures.remove(0);
            assert(named_textures_view(before)[0] == items.skip(i as int)[0]);
            assert(items[i as int] == (name@, texture@));
            assert(textures@ =~= before.subrange(1, before.len() as int));
            assert forall|k: int| 0 <= k < textures@.len() implies #[trigger] named_textures_view(textures@)[k]
                == items.skip(i + 1)[k] by {
                assert(textures@[k] == before[k + 1]);
                assert(named_textures_view(before)[k + 1] == items.skip(i as int)[k + 1]);
            }
            assert(named_textures_view(textures@) =~= items.skip(i + 1));
            assert(texture_fits(items[i as int].1));
            self.add_texture(name.as_str(), texture);
            proof {
                lemma_add_all_take(t_init, items, i as int);
            }
            i = i + 1;
        }
        assert(items.take(i as int) =~= items);
    }

    /// The composite textures of `texture_defs`, one per name: a later
    /// definition of a name replaces an earlier one.
    fn process_texture_defs(&self, patch_names: &Vec<String>, texture_defs: &Vec<TextureDef>) -> (r: Vec<(String, Texture)>)
        requires
            loader_wf(self@),
            forall|i: int|
                0 <= i < texture_defs@.len() ==> def_fits(
                    self@.textures,
                    patch_names@.map_values(|s: String| s@),
                    #[trigger] texture_defs@[i]@,
                ),
        ensures
            named_textures_view(r@) == composite_items(
                self@.textures,
                patch_names@.map_values(|s: String| s@),
                defs_view(texture_defs@),
            ),
            forall|j: int| 0 <= j < r@.len() ==> texture_fits(#[trigger] named_textures_view(r@)[j].1),
    {
        let ghost names = patch_names@.map_values(|s: String| s@);
        let ghost items = Seq::new(
            texture_defs@.len(),
            |i: int| (defs_view(texture_defs@)[i].name, composite_texture(self@.textures, names, defs_view(texture_defs@)[i])),
        );
        let mut result: Vec<(String, Texture)> = Vec::new();
        let mut i: usize = 0;
        while i < texture_defs.len()
            invariant
                names == patch_names@.map_values(|s: String| s@),
                loader_wf(self@),
                items == Seq::new(
                    texture_defs@.len(),
                    |i: int| (defs_view(texture_defs@)[i].name, composite_texture(self@.textures, names, defs_view(texture_defs@)[i])),
                ),
                forall|k: int|
                    0 <= k < texture_defs@.len() ==> def_fits(self@.textures, names, #[trigger] texture_defs@[k]@),
                i <= texture_defs@.len(),
                named_textures_view(result@) == insert_all(items.take(i as int)),
                names_unique(named_textures_view(result@)),
                forall|j: int| 0 <= j < result@.len() ==> texture_fits(#[trigger] named_textures_view(result@)[j].1),
            decreases texture_defs@.len() - i,
        {
            let def = &texture_defs[i];
            assert(defs_view(texture_defs@)[i as int] == def@);
            let texture = self.compose(patch_names, def);
            let name = def.name.clone();
            assert(items[i as int] == (name@, texture@));
            let ghost before = named_textures_view(result@);
            proof {
                lemma_insert_all_take(items, i as int);
                lemma_insert_named_unique(before, (name@, texture@));
                lemma_unique_name_index(before, name@);
            }
            match find_named(&result, name.as_str()) {
                Some(j) => {
                    proof {
                        lemma_name_index(before, name@, j as int);
                    }
                    result.set(j, (name, texture));
                    assert(named_textures_view(result@) =~= before.update(j as int, (name@, texture@)));
                },
                None => {
                    result.push((name, texture));
                    assert(named_textures_view(result@) =~= before.push((name@, texture@)));
                },
            }
            i = i + 1;
        }
        assert(items.take(i as int) =~= items);
        assert(defs_view(texture_defs@).len() == texture_defs@.len());
        result
    }

    /// The composite texture of one definition.
    fn compose(&self, patch_names: &Vec<String>, def: &TextureDef) -> (r: Texture)
        requires
            loader_wf(self@),
            def_fits(self@.textures, patch_names@.map_values(|s: String| s@), def@),
        ensures
            r@ == composite_texture(self@.textures, patch_names@.map_values(|s: String| s@), def@),
            texture_fits(r@),
    {
        let ghost names = patch_names@.map_values(|s: String| s@);
        let ghost ts = self@.textures;
        let n = def.patches.len();
        let mut ids: Vec<usize> = Vec::new();
        let mut patches: Vec<Patch> = Vec::new();
        let mut pi: usize = 0;
        while pi < n
            invariant
                names == patch_names@.map_values(|s: String| s@),
                ts == self@.textures,
                def_fits(ts, names, def@),
                n == def@.patches.len(),
                pi <= n,
                ids@.len() == pi,
                forall|m: int|
                    0 <= m < pi ==> #[trigger] ids@[m] == name_index(ts, names[def@.patches[m].patch as int]).unwrap(),
                patches@.map_values(|p: Patch| p@) == def@.patches.take(pi as int).map_values(
                    |p: PatchDef|
                        PatchView { name: names[p.patch as int], origin_x: p.origin_x as int, origin_y: p.origin_y as int },
                ),
            decreases n - pi,
        {
            let p = def.patches[pi];
            assert(def@.patches[pi as int] == p);
            let name = &patch_names[p.patch];
            match self.load_from_name(name.as_str()) {
                Some((id, _)) => ids.push(id),
                None => {
                    assert(false);
                    return Texture::new(TextureTyp::Texture, 0, 0, Vec::new());
                },
            }
            let ghost before = patches@.map_values(|p: Patch| p@);
            patches.push(Patch { name: name.clone(), origin_x: p.origin_x as isize, origin_y: p.origin_y as isize });
            assert(patches@.map_values(|p: Patch| p@) =~= before.push(
                PatchView { name: names[p.patch as int], origin_x: p.origin_x as int, origin_y: p.origin_y as int },
            ));
            assert(def@.patches.take(pi + 1) =~= def@.patches.take(pi as int).push(p));
            pi = pi + 1;
        }
        assert(def@.patches.take(n as int) =~= def@.patches);

        let width = def.width;
        let height = def.height;
        let count = width * height;
        let mut pixels: Vec<u8> = Vec::new();
        let mut q: usize = 0;
        while q < count
            invariant
                names == patch_names@.map_values(|s: String| s@),
                ts == self@.textures,
                loader_wf(self@),
                def_fits(ts, names, def@),
                n == def@.patches.len(),
                ids@.len() == n,
                forall|m: int|
                    0 <= m < n ==> #[trigger] ids@[m] == name_index(ts, names[def@.patches[m].patch as int]).unwrap(),
                width == def@.width,
                height == def@.height,
                count == width * height,
                q <= count,
                pixels@.len() == 4 * q,
                forall|k: int|
                    0 <= k < 4 * q ==> #[trigger] pixels@[k] == composite_texture(ts, names, def@).pixels[k],
            decreases count - q,
        {
            proof {
                lemma_pixel_coords(q as int, width as int, height as int);
            }
            let x = q % width;
            let y = q / width;
            let ghost before = pixels@;
            match self.topmost(def, &ids, x, y, Ghost(names)) {
                Some(j) => {
                    let p = def.patches[j];
                    let t = &self.textures[ids[j]].1;
                    proof {
                        assert(def@.patches[j as int] == p);
                        let jn = name_index(ts, names[p.patch as int]).unwrap();
                        assert(ts[jn].1 == t@);
                        assert(texture_fits(ts[jn].1));
                    }
                    let sx = (x as i128 - p.origin_x as i128) as usize;
                    let sy = (y as i128 - p.origin_y as i128) as usize;
                    let tp = t.pixels();
                    let tw = t.width();
                    proof {
                        lemma_source_index(sx as int, sy as int, t@.width as int, t@.height as int);
                        assert(tp@.len() == tp.len());
                    }
                    let src = 4 * (sx + sy * tw);
                    pixels.push(tp[src]);
                    pixels.push(tp[src + 1]);
                    pixels.push(tp[src + 2]);
                    pixels.push(tp[src + 3]);
                    proof {
                        assert forall|c: int| 0 <= c < 4 implies layer_pixel(ts, names, def@.patches, n as int, x as int, y as int, c)
                            == tp@[src + c] by {
                            lemma_layer_top(ts, names, def@.patches, n as int, j as int, x as int, y as int, c);
                        }
                    }
                },
                None => {
                    pixels.push(0);
                    pixels.push(0);
                    pixels.push(0);
                    pixels.push(0);
                    proof {
                        assert forall|c: int| 0 <= c < 4 implies layer_pixel(ts, names, def@.patches, n as int, x as int, y as int, c)
                            == 0 by {
                            lemma_layer_none(ts, names, def@.patches, n as int, x as int, y as int, c);
                        }
                    }
                },
            }
            proof {
                assert forall|k: int| 0 <= k < 4 * (q + 1) implies #[trigger] pixels@[k]
                    == composite_texture(ts, names, def@).pixels[k] by {
                    if k >= 4 * q {
                        assert(k / 4 == q);
                    } else {
                        assert(pixels@[k] == before[k]);
                    }
                }
            }
            q = q + 1;
        }
        let mut texture = Texture::new(TextureTyp::Texture, width, height, pixels);
        texture.composition = Some(TextureComposition { patches });
        assert(texture@.pixels =~= composite_texture(ts, names, def@).pixels);
        texture
    }

    /// The last of the definition's patches that covers the pixel at `x`, `y`.
    fn topmost(&self, def: &TextureDef, ids: &Vec<usize>, x: usize, y: usize, Ghost(names): Ghost<Seq<Seq<char>>>) -> (r: Option<usize>)
        requires
            loader_wf(self@),
            def_fits(self@.textures, names, def@),
            ids@.len() == def@.patches.len(),
            forall|m: int|
                0 <= m < ids@.len() ==> #[trigger] ids@[m] == name_index(
                    self@.textures,
                    names[def@.patches[m].patch as int],
                ).unwrap(),
        ensures
            match r {
                Some(j) => {
                    &&& j < def@.patches.len()
                    &&& covers(def_patch_texture(self@.textures, names, def@.patches[j as int]), def@.patches[j as int], x as int, y as int)
                    &&& forall|m: int|
                        j < m < def@.patches.len() ==> !covers(
                            def_patch_texture(self@.textures, names, #[trigger] def@.patches[m]),
                            def@.patches[m],
                            x as int,
                            y as int,
                        )
                },
                None => forall|m: int|
                    0 <= m < def@.patches.len() ==> !covers(
                        def_patch_texture(self@.textures, names, #[trigger] def@.patches[m]),
                        def@.patches[m],
                        x as int,
                        y as int,
                    ),
            },
    {
        let ghost ts = self@.textures;
        let n = def.patches.len();
        let mut j = n;
        while j > 0
            invariant
                j <= n,
                n == def@.patches.len(),
                ts == self@.textures,
                def_fits(ts, names, def@),
                ids@.len() == n,
                forall|m: int| 0 <= m < n ==> #[trigger] ids@[m] == name_index(ts, names[def@.patches[m].patch as int]).unwrap(),
                forall|m: int|
                    j <= m < n ==> !covers(def_patch_texture(ts, names, #[trigger] def@.patches[m]), def@.patches[m], x as int, y as int),
            decreases j,
        {
            let p = def.patches[j - 1];
            assert(def@.patches[j - 1] == p);
            let id = ids[j - 1];
            assert(name_index(ts, names[p.patch as int]) is Some);
            let t = &self.textures[id].1;
            assert(t@ == def_patch_texture(ts, names, p));
            let sx: i128 = x as i128 - p.origin_x as i128;
            let sy: i128 = y as i128 - p.origin_y as i128;
            if sx >= 0 && sy >= 0 && (sx as u128) < (t.width() as u128) && (sy as u128) < (t.height() as u128) {
                return Some(j - 1);
            }
            j = j - 1;
        }
        None
    }
}


/// Where the texture named `name` stands in `v`.
fn find_named(v: &Vec<(String, Texture)>, name: &str) -> (r: Option<usize>)
    ensures
        match r {
            Some(j) => j < v@.len() && named_textures_view(v@)[j as int].0 == name@,
            None => forall|k: int| 0 <= k < v@.len() ==> #[trigger] named_textures_view(v@)[k].0 != name@,
        },
{
    let mut j: usize = 0;
    while j < v.len()
        invariant
            j <= v@.len(),
            forall|k: int| 0 <= k < j ==> #[trigger] named_textures_view(v@)[k].0 != name@,
        decreases v@.len() - j,
    {
        if str_eq(v[j].0.as_str(), name) {
            return Some(j);
        }
        j = j + 1;
    }
    None
}


// ---------------------------------------------------------------------------
// The textures a map uses.

/// `q` with `id` added at its end, unless it is already there.
pub open spec fn enqueued(q: Seq<usize>, id: usize) -> Seq<usize> {
    if q.contains(id) {
        q
    } else {
        q.push(id)
    }
}

/// The loader ids of the textures a map uses, in the order first asked for.
pub struct TextureQueue {
    ids: Vec<usize>,
}

impl View for TextureQueue {
    type V = Seq<usize>;

    closed spec fn view(&self) -> Seq<usize> {
        self.ids@
    }
}

impl TextureQueue {
    pub fn new() -> (r: Self)
        ensures
            r@ == Seq::<usize>::empty(),
    {
        Self { ids: Vec::new() }
    }

    /// Adds `id`, unless it is already queued; no id is ever queued twice.
    pub fn enqueue(&mut self, id: usize)
        ensures
            final(self)@ == enqueued(old(self)@, id),
            old(self)@.no_duplicates() ==> final(self)@.no_duplicates(),
    {
        let mut i: usize = 0;
        while i < self.ids.len()
            invariant
                i <= self.ids@.len(),
                self@ == old(self)@,
                forall|k: int| 0 <= k < i ==> self.ids@[k] != id,
            decreases self.ids@.len() - i,
        {
            if self.ids[i] == id {
                assert(self@.contains(id));
                return;
            }
            i = i + 1;
        }
        self.ids.push(id);
    }

    pub fn ids(&self) -> (r: &[usize])
        ensures
            r@ == self@,
    {
        self.ids.as_slice()
    }
}

// ---------------------------------------------------------------------------
// Checking that the graphics lumps can be read.

/// Whether the lump named `name`, if there is one, can be read whole.
pub fn can_read_named_lump(wad: &Wad, name: &str) -> (r: bool)
    ensures
        r == named_lump_fits(wad@, name.spec_bytes()),
{
    if !wad.can_find(name) {
        return false;
    }
    match wad.find_dir(name) {
        Err(_) => true,
        Ok(i) => wad.can_read_lump(i) && wad.read_dir(i).is_ok(),
    }
}

/// Whether `read_all_color_maps` may read the COLORMAP lump.
pub fn can_read_color_maps(wad: &Wad) -> (r: bool)
    ensures
        r == color_maps_fit(wad@),
{
    if !can_read_named_lump(wad, "COLORMAP") {
        return false;
    }
    match wad.find_dir("COLORMAP") {
        Err(_) => true,
        Ok(i) => match wad.read_dir(i) {
            Ok(d) => d.len() >= 34 * 256,
            Err(_) => false,
        },
    }
}

/// The number of palette indices of the column whose posts start at
/// `offset`, or `None` where reading them leaves the lump.
fn column_len(d: &[u8], offset: usize) -> (r: Option<usize>)
    ensures
        r is Some <==> column_posts(d@, offset as int) is Some,
        r matches Some(n) ==> n == column_posts(d@, offset as int).unwrap().len(),
{
    let mut total: usize = 0;
    let mut off = offset;
    loop
        invariant
            total <= off,
            column_posts(d@, offset as int) is Some <==> column_posts(d@, off as int) is Some,
            column_posts(d@, off as int) is Some ==> column_posts(d@, offset as int).unwrap().len() == total
                + column_posts(d@, off as int).unwrap().len(),
        decreases d@.len() - off,
    {
        if off >= d.len() {
            return None;
        }
        if d[off] == 0xff {
            return Some(total);
        }
        if d.len() - off <= 1 {
            return None;
        }
        let n = d[off + 1] as usize;
        if n + 2 > d.len() - off || n + 4 >= d.len() - off {
            return None;
        }
        total = total + n;
        off = off + n + 4;
    }
}

/// Whether a patch lump can be decoded: `patch_fits`.
fn can_decode_patch(d: &[u8]) -> (r: bool)
    ensures
        r == patch_fits(d@),
{
    if d.len() < 8 {
        return false;
    }
    let w = read_u16_le(d, 0) as usize;
    let h = read_u16_le(d, 2) as usize;
    match w.checked_mul(h) {
        None => return false,
        Some(area) => if area.checked_mul(4).is_none() {
            return false;
        },
    }
    let mut x: usize = 0;
    while x < w
        invariant
            d@.len() >= 8,
            w == patch_width(d@),
            h == patch_height(d@),
            patch_width(d@) * patch_height(d@) * 4 <= usize::MAX,
            x <= w,
            forall|k: int|
                0 <= k < x ==> {
                    &&& 8 + 4 * k + 4 <= d@.len()
                    &&& #[trigger] patch_column(d@, k) is Some
                    &&& patch_column(d@, k).unwrap().len() <= patch_height(d@)
                },
        decreases w - x,
    {
        if 8 + 4 * x + 4 > d.len() {
            assert(!patch_fits(d@)) by {
                if patch_fits(d@) {
                    assert(patch_column(d@, x as int) is Some);
                }
            }
            return false;
        }
        let off = read_u32_le(d, 8 + 4 * x) as usize;
        match column_len(d, off) {
            None => {
                assert(!patch_fits(d@)) by {
                    if patch_fits(d@) {
                        assert(patch_column(d@, x as int) is Some);
                    }
                }
                return false;
            },
            Some(n) => {
                if n > h {
                    assert(!patch_fits(d@)) by {
                        if patch_fits(d@) {
                            assert(patch_column(d@, x as int) is Some);
                        }
                    }
                    return false;
                }
            },
        }
        x = x + 1;
    }
    assert forall|k: int| 0 <= k < patch_width(d@) implies {
        &&& 8 + 4 * k + 4 <= d@.len()
        &&& #[trigger] patch_column(d@, k) is Some
        &&& patch_column(d@, k).unwrap().len() <= patch_height(d@)
    } by {
        assert(patch_column(d@, k) is Some);
    }
    true
}

/// Whether entry `index` between the markers, and the graphic it names, can
/// be read: `graphic_entry_fits`.
fn can_read_graphic_entry(wad: &Wad, flat: bool, index: usize) -> (r: bool)
    ensures
        r == graphic_entry_fits(wad@, flat, index as int),
{
    let ghost w = wad@;
    if !wad.can_read_entry(index) {
        return false;
    }
    let entry = match wad.read_dir_entry(index) {
        Ok(e) => e,
        Err(_) => return false,
    };
    let len = name_end(&entry.name);
    let name_bytes: &[u8] = &entry.name[0..len];
    assert(name_bytes@ == entry_name(w, index as int));
    let name = match str_from_utf8(name_bytes) {
        Some(s) => s,
        None => return false,
    };
    let skip = if flat {
        bytes_eq(name_bytes, "F1_START".as_bytes()) || bytes_eq(name_bytes, "F1_END".as_bytes())
            || bytes_eq(name_bytes, "F2_START".as_bytes()) || bytes_eq(name_bytes, "F2_END".as_bytes())
    } else {
        bytes_eq(name_bytes, "P1_START".as_bytes()) || bytes_eq(name_bytes, "P1_END".as_bytes())
            || bytes_eq(name_bytes, "P2_START".as_bytes()) || bytes_eq(name_bytes, "P2_END".as_bytes())
    };
    assert(skip == is_marker(flat, entry_name(w, index as int)));
    if skip {
        return true;
    }
    if !wad.can_find(name) {
        return false;
    }
    let j = match wad.find_dir(name) {
        Ok(j) => j,
        Err(_) => return false,
    };
    if !wad.can_read_lump(j) {
        return false;
    }
    let d = match wad.read_dir(j) {
        Ok(d) => d,
        Err(_) => return false,
    };
    if flat {
        d.len() >= 64 * 64
    } else {
        can_decode_patch(d)
    }
}

/// Whether the markers of the patches (or the flats) are found, in order,
/// and every graphic between them can be read: `graphics_fit`.
fn can_read_graphics(wad: &Wad, flat: bool) -> (r: bool)
    ensures
        r == graphics_fit(wad@, flat),
{
    let ghost w = wad@;
    let start_name: &str = if flat {
        "F_START"
    } else {
        "P_START"
    };
    let end_name: &str = if flat {
        "F_END"
    } else {
        "P_END"
    };
    if !wad.can_find(start_name) {
        return false;
    }
    let start = match wad.find_dir(start_name) {
        Ok(i) => i + 1,
        Err(_) => return false,
    };
    if !wad.can_find(end_name) {
        return false;
    }
    let end = match wad.find_dir(end_name) {
        Ok(i) => i,
        Err(_) => return false,
    };
    if start >= end {
        return false;
    }
    let mut index = start;
    while index < end
        invariant
            w == wad@,
            w.find_fits(range_start_name(flat)),
            w.find(range_start_name(flat)) is Ok,
            w.find_fits(range_end_name(flat)),
            w.find(range_end_name(flat)) is Ok,
            start == range_start(w, flat),
            end == range_end(w, flat),
            start <= index <= end,
            forall|i: int| start <= i < index ==> #[trigger] graphic_entry_fits(w, flat, i),
        decreases end - index,
    {
        if !can_read_graphic_entry(wad, flat, index) {
            return false;
        }
        index = index + 1;
    }
    true
}

/// Whether a texture lump can be read: `texture_lump_fits`.
fn can_read_texture_lump(d: &[u8]) -> (r: bool)
    ensures
        r == texture_lump_fits(d@),
{
    if d.len() < 4 {
        return false;
    }
    let count = read_u32_le(d, 0) as usize;
    let mut i: usize = 0;
    while i < count
        invariant
            d@.len() >= 4,
            count == texture_lump_count(d@),
            i <= count,
            texture_lump_fits(d@) == texture_lump_fits_from(d@, i as nat),
        decreases count - i,
    {
        if (i as u64) * 4 + 8 > d.len() as u64 {
            return false;
        }
        let off = read_u32_le(d, 4 + 4 * i) as usize;
        if (off as u64) + 8 > d.len() as u64 {
            return false;
        }
        let field: &[u8] = &d[off..off + 8];
        let len = name_end(field);
        let name_bytes: &[u8] = &field[0..len];
        assert(name_bytes@ == def_name_bytes(d@, i as int));
        if str_from_utf8(name_bytes).is_none() {
            return true;
        }
        if (off as u64) + 22 > d.len() as u64 {
            return false;
        }
        let patch_count = read_u16_le(d, off + 20) as u64;
        if (off as u64) + 22 + 10 * patch_count > d.len() as u64 {
            return false;
        }
        i = i + 1;
    }
    true
}

/// Whether the texture lump named `name`, if there is one, can be read.
fn can_read_texture_lump_named(wad: &Wad, name: &str) -> (r: bool)
    ensures
        r == texture_lump_named_fits(wad@, name.spec_bytes()),
{
    if !wad.can_find(name) {
        return false;
    }
    match wad.find_dir(name) {
        Err(_) => true,
        Ok(i) => {
            if !wad.can_read_lump(i) {
                return false;
            }
            match wad.read_dir(i) {
                Ok(d) => can_read_texture_lump(d),
                Err(_) => false,
            }
        },
    }
}

/// Whether TEXTURE1 and TEXTURE2 can be read: `texture_defs_fit`.
fn can_read_texture_defs(wad: &Wad) -> (r: bool)
    ensures
        r == texture_defs_fit(wad@),
{
    if !can_read_texture_lump_named(wad, "TEXTURE1") {
        return false;
    }
    let first_ok = match wad.find_dir("TEXTURE1") {
        Err(_) => true,
        Ok(i) => {
            let mut scratch: Vec<TextureDef> = Vec::new();
            process_texture_lump(wad, &mut scratch, i).is_some()
        },
    };
    if !first_ok {
        return true;
    }
    can_read_texture_lump_named(wad, "TEXTURE2")
}

/// Whether the PNAMES lump, if there is one, can be read: `patch_names_fit`.
fn can_read_patch_names(wad: &Wad) -> (r: bool)
    ensures
        r == patch_names_fit(wad@),
{
    if !wad.can_find("PNAMES") {
        return false;
    }
    let i = match wad.find_dir("PNAMES") {
        Err(_) => return true,
        Ok(i) => i,
    };
    if !wad.can_read_lump(i) {
        return false;
    }
    let d = match wad.read_dir(i) {
        Err(_) => return true,
        Ok(d) => d,
    };
    if d.len() < 4 {
        return false;
    }
    let count = read_u32_le(d, 0) as usize;
    let mut k: usize = 0;
    while k < count
        invariant
            wad@.find_fits("PNAMES".spec_bytes()),
            wad@.find("PNAMES".spec_bytes()) == Ok::<usize, Error>(i),
            wad@.lump_fits(i as int),
            wad@.lump(i as int) == Ok::<Seq<u8>, Error>(d@),
            d@.len() >= 4,
            count == pnames_count(d@),
            k <= count,
            pnames_fit_from(d@, 0) == pnames_fit_from(d@, k as nat),
        decreases count - k,
    {
        if (k as u64) * 8 + 12 > d.len() as u64 {
            return false;
        }
        let field: &[u8] = &d[4 + 8 * k..4 + 8 * k + 8];
        let len = name_end(field);
        let name_bytes: &[u8] = &field[0..len];
        assert(name_bytes@ == pname_bytes(d@, k as int));
        if str_from_utf8(name_bytes).is_none() {
            return true;
        }
        k = k + 1;
    }
    true
}

impl TextureLoader {
    /// Whether `new` may build a loader from this WAD: `loader_fits`.
    #[verifier::spinoff_prover]
    #[verifier::rlimit(40)]
    pub fn can_create(wad: &Wad, color_map: &ColorMap, palette: &Palette) -> (r: bool)
        ensures
            r == loader_fits(wad@, color_map@, palette@),
    {
        if !wad.can_find("P3_START") || wad.find_dir("P3_START").is_ok() {
            return false;
        }
        if !can_read_graphics(wad, false) || !can_read_graphics(wad, true) {
            return false;
        }
        if !can_read_patch_names(wad) || !can_read_texture_defs(wad) {
            return false;
        }
        let names = match read_patch_names(wad) {
            Some(n) => n,
            None => return false,
        };
        let defs = match read_texture_defs(wad) {
            Some(d) => d,
            None => return false,
        };
        let mut textures: Vec<(String, Texture)> = Vec::new();
        textures.push(Self::create_missing_texture());
        let mut partial = Self { color_map: color_map.clone(), palette: palette.clone(), missing_texture_id: 0, textures };
        assert(partial@.textures =~= seq![("MISSING_TEXTURE"@, missing_texture_view())]);
        partial.load_all_patches(wad);
        partial.load_all_flats(wad);
        let ghost ts = partial@.textures;
        let ghost pn = spec_patch_names(wad@).unwrap();
        let ghost ds = spec_texture_defs(wad@).unwrap();
        assert(ds == defs_view(defs@));
        assert(loader_fits(wad@, color_map@, palette@) == forall|k: int|
            0 <= k < ds.len() ==> def_fits(ts, pn, #[trigger] ds[k]));
        let mut i: usize = 0;
        while i < defs.len()
            invariant
                loader_fits(wad@, color_map@, palette@) == forall|k: int|
                    0 <= k < ds.len() ==> def_fits(ts, pn, #[trigger] ds[k]),
                ts == partial@.textures,
                pn == names@.map_values(|s: String| s@),
                ds == defs_view(defs@),
                i <= defs@.len(),
                forall|k: int| 0 <= k < i ==> def_fits(ts, pn, #[trigger] ds[k]),
            decreases defs@.len() - i,
        {
            let def = &defs[i];
            assert(def@ == ds[i as int]);
            let fits_memory = match def.width.checked_mul(def.height) {
                None => false,
                Some(area) => area.checked_mul(4).is_some(),
            };
            if !fits_memory {
                assert(!def_fits(ts, pn, ds[i as int]));
                return false;
            }
            let mut pi: usize = 0;
            while pi < def.patches.len()
                invariant
                    loader_fits(wad@, color_map@, palette@) == forall|k: int|
                        0 <= k < ds.len() ==> def_fits(ts, pn, #[trigger] ds[k]),
                    ts == partial@.textures,
                    pn == names@.map_values(|s: String| s@),
                    i < ds.len(),
                    def@ == ds[i as int],
                    pi <= def@.patches.len(),
                    forall|q: int|
                        0 <= q < pi ==> {
                            &&& (#[trigger] def@.patches[q]).patch < pn.len()
                            &&& name_index(ts, pn[def@.patches[q].patch as int]) is Some
                        },
                decreases def@.patches.len() - pi,
            {
                let patch = def.patches[pi].patch;
                if patch >= names.len() {
                    assert(!def_fits(ts, pn, ds[i as int])) by {
                        assert(def@.patches[pi as int].patch == patch);
                    }
                    return false;
                }
                assert(names@[patch as int]@ == pn[patch as int]);
                if partial.load_from_name(names[patch].as_str()).is_none() {
                    assert(!def_fits(ts, pn, ds[i as int])) by {
                        assert(def@.patches[pi as int].patch == patch);
                    }
                    return false;
                }
                pi = pi + 1;
            }
            i = i + 1;
        }
        true
    }
}

} // verus!
